use vstd::prelude::*;

use crate::chunk::{
    RawChunk, CHUNK_BOUND, CHUNK_SIZE, TOTAL_CHUNK_USIZE, linear_index, pos_index,
    lemma_delinearize_linearize, lemma_linearize_delinearize,
};
use crate::math::UVec3;
use crate::world::{is_only_air, only_air, place_block, voxels_after_place};

verus! {

/// Which chunk of a neighbourhood supplies the padding voxel at (x, y, z) of the centre chunk.
/// The neighbourhood lists the centre first, then the chunks below, above, towards -x,
/// towards +x, towards -z and towards +z; the result is the position of the supplier in that
/// list, or 0 for a voxel that lies on none of the six padding faces (inner voxels, padding
/// edges and corners).
pub open spec fn border_slot(x: int, y: int, z: int) -> int {
    if 1 <= x <= 32 && y == 33 && 1 <= z <= 32 {
        2
    } else if 1 <= x <= 32 && y == 0 && 1 <= z <= 32 {
        1
    } else if x == 0 && 1 <= y <= 32 && 1 <= z <= 32 {
        3
    } else if x == 33 && 1 <= y <= 32 && 1 <= z <= 32 {
        4
    } else if 1 <= x <= 32 && 1 <= y <= 32 && z == 0 {
        5
    } else if 1 <= x <= 32 && 1 <= y <= 32 && z == 33 {
        6
    } else {
        0
    }
}

/// The linear index, inside the supplying chunk, of the voxel copied into padding voxel
/// (x, y, z): the outermost inner layer of the supplier on the side that touches the centre.
pub open spec fn border_source(x: int, y: int, z: int) -> int {
    if border_slot(x, y, z) == 1 {
        linear_index(x, 32, z)
    } else if border_slot(x, y, z) == 2 {
        linear_index(x, 1, z)
    } else if border_slot(x, y, z) == 3 {
        linear_index(32, y, z)
    } else if border_slot(x, y, z) == 4 {
        linear_index(1, y, z)
    } else if border_slot(x, y, z) == 5 {
        linear_index(x, y, 32)
    } else if border_slot(x, y, z) == 6 {
        linear_index(x, y, 1)
    } else {
        linear_index(x, y, z)
    }
}

/// Where the chunk at position `slot` of a neighbourhood lies relative to the centre, in
/// chunks: positions 1 to 6 are below, above, towards -x, towards +x, towards -z and towards
/// +z.
pub open spec fn neighbour_step(slot: int) -> (int, int, int) {
    if slot == 1 {
        (0, -1, 0)
    } else if slot == 2 {
        (0, 1, 0)
    } else if slot == 3 {
        (-1, 0, 0)
    } else if slot == 4 {
        (1, 0, 0)
    } else if slot == 5 {
        (0, 0, -1)
    } else if slot == 6 {
        (0, 0, 1)
    } else {
        (0, 0, 0)
    }
}

/// The padding voxels that are filled are those on the six faces of the padded cube: one
/// coordinate on a padding layer (0 or 33), the two others inside the chunk. Each copies a
/// voxel of one of the six neighbours, and it is the voxel at the same place in the world:
/// a voxel with coordinates (x, y, z) in the centre and (sx, sy, sz) in a neighbour lying
/// `neighbour_step` chunks away are one and the same when x == sx + 32 * step, and so on
/// along each axis. The copied voxel is an inner voxel of its chunk.
pub proof fn lemma_padding_copies_the_touching_voxel(x: int, y: int, z: int)
    requires
        0 <= x < 34,
        0 <= y < 34,
        0 <= z < 34,
    ensures
        (border_slot(x, y, z) != 0) <==> ({
            let on_x = x == 0 || x == 33;
            let on_y = y == 0 || y == 33;
            let on_z = z == 0 || z == 33;
            &&& (on_x || on_y || on_z)
            &&& (on_x ==> 1 <= y <= 32 && 1 <= z <= 32)
            &&& (on_y ==> 1 <= x <= 32 && 1 <= z <= 32)
            &&& (on_z ==> 1 <= x <= 32 && 1 <= y <= 32)
        }),
        border_slot(x, y, z) != 0 ==> ({
            let j = border_source(x, y, z);
            let (sx, sy, sz) = (j % 34, (j / 34) % 34, j / 1156);
            let d = neighbour_step(border_slot(x, y, z));
            &&& 1 <= border_slot(x, y, z) <= 6
            &&& 0 <= j < TOTAL_CHUNK_USIZE
            &&& 1 <= sx <= 32 && 1 <= sy <= 32 && 1 <= sz <= 32
            &&& x == sx + 32 * d.0
            &&& y == sy + 32 * d.1
            &&& z == sz + 32 * d.2
        }),
{
    let slot = border_slot(x, y, z);
    if slot == 1 {
        lemma_linearize_delinearize(x, 32, z);
    } else if slot == 2 {
        lemma_linearize_delinearize(x, 1, z);
    } else if slot == 3 {
        lemma_linearize_delinearize(32, y, z);
    } else if slot == 4 {
        lemma_linearize_delinearize(1, y, z);
    } else if slot == 5 {
        lemma_linearize_delinearize(x, y, 32);
    } else if slot == 6 {
        lemma_linearize_delinearize(x, y, 1);
    }
}

/// `border_slot` of the voxel at linear index `i`.
pub open spec fn slot_at(i: int) -> int {
    border_slot(i % 34, (i / 34) % 34, i / 1156)
}

/// `border_source` of the voxel at linear index `i`.
pub open spec fn source_at(i: int) -> int {
    border_source(i % 34, (i / 34) % 34, i / 1156)
}

/// The name copied into padding voxel `i` of the centre chunk `chunks[0]`.
pub open spec fn copied_name(chunks: Seq<RawChunk>, i: int) -> Seq<char> {
    chunks[slot_at(i)].block_at(source_at(i))
}

/// The voxel that padding voxel `i` copies names an entry of its chunk's palette.
pub open spec fn source_readable(chunks: Seq<RawChunk>, i: int) -> bool {
    slot_at(i) != 0 ==> (chunks[slot_at(i)].voxels@[source_at(i)] as int)
        < chunks[slot_at(i)].palette@.len()
}

/// The block at voxel `i` of the centre chunk once its padding is filled: the copied name on
/// the six padding faces, the chunk's own block everywhere else.
pub open spec fn bordered_block(chunks: Seq<RawChunk>, i: int) -> Seq<char> {
    if slot_at(i) != 0 {
        copied_name(chunks, i)
    } else {
        chunks[0].block_at(i)
    }
}

/// The palette of the centre chunk once the first `n` voxels, in index order, were filled:
/// a copied name that the palette lacks is appended when its voxel is reached.
pub open spec fn bordered_palette(chunks: Seq<RawChunk>, n: nat) -> Seq<Seq<char>>
    decreases n,
{
    if n == 0 {
        chunks[0].states()
    } else if slot_at(n - 1) != 0 && !bordered_palette(chunks, (n - 1) as nat).contains(
        copied_name(chunks, n - 1),
    ) {
        bordered_palette(chunks, (n - 1) as nat).push(copied_name(chunks, n - 1))
    } else {
        bordered_palette(chunks, (n - 1) as nat)
    }
}

/// The voxels of the centre chunk once the first `n` voxels, in index order, were filled.
pub open spec fn bordered_voxels(chunks: Seq<RawChunk>, n: nat) -> Seq<u16>
    decreases n,
{
    if n == 0 {
        chunks[0].voxels@
    } else if slot_at(n - 1) != 0 {
        voxels_after_place(
            bordered_palette(chunks, (n - 1) as nat),
            bordered_voxels(chunks, (n - 1) as nat),
            n - 1,
            copied_name(chunks, n - 1),
        )
    } else {
        bordered_voxels(chunks, (n - 1) as nat)
    }
}

/// The supplier of padding voxel (x, y, z) and the position of the voxel it copies.
fn border_source_of(x: u32, y: u32, z: u32) -> (r: (usize, UVec3))
    requires
        x < 34,
        y < 34,
        z < 34,
    ensures
        r.0 as int == border_slot(x as int, y as int, z as int),
        r.0 != 0 ==> pos_index(r.1) == border_source(x as int, y as int, z as int),
        r.1.x < 34 && r.1.y < 34 && r.1.z < 34,
{
    let inner_x = 1 <= x && x <= CHUNK_SIZE;
    let inner_y = 1 <= y && y <= CHUNK_SIZE;
    let inner_z = 1 <= z && z <= CHUNK_SIZE;
    if inner_x && y == CHUNK_BOUND && inner_z {
        (2, UVec3::new(x, 1, z))
    } else if inner_x && y == 0 && inner_z {
        (1, UVec3::new(x, CHUNK_SIZE, z))
    } else if x == 0 && inner_y && inner_z {
        (3, UVec3::new(CHUNK_SIZE, y, z))
    } else if x == CHUNK_BOUND && inner_y && inner_z {
        (4, UVec3::new(1, y, z))
    } else if inner_x && inner_y && z == 0 {
        (5, UVec3::new(x, y, CHUNK_SIZE))
    } else if inner_x && inner_y && z == CHUNK_BOUND {
        (6, UVec3::new(x, y, 1))
    } else {
        (0, UVec3::new(x, y, z))
    }
}

/// Fills the padding of the centre chunk of a neighbourhood from its six neighbours.
///
/// `chunk_data` holds the centre chunk, then the chunks below, above, towards -x, towards +x,
/// towards -z and towards +z. Each voxel on one of the six padding faces of the centre takes
/// the block of the touching voxel of the neighbour on that side; the name is added to the
/// palette first when the palette lacks it. A centre whose palette is air alone needs no
/// meshing and is left as it is: the result is then `None`.
pub fn update_borders(chunk_data: &Vec<RawChunk>) -> (r: Option<RawChunk>)
    requires
        chunk_data@.len() == 7,
        forall|k: int| 0 <= k < 7 ==> (#[trigger] chunk_data@[k]).voxels@.len() == TOTAL_CHUNK_USIZE,
        forall|i: int| 0 <= i < TOTAL_CHUNK_USIZE ==> #[trigger] source_readable(chunk_data@, i),
    ensures
        r is None <==> only_air(chunk_data@[0]),
        r matches Some(c) ==> {
            &&& c.voxels@.len() == TOTAL_CHUNK_USIZE
            &&& c.states() == bordered_palette(chunk_data@, TOTAL_CHUNK_USIZE as nat)
            &&& c.voxels@ == bordered_voxels(chunk_data@, TOTAL_CHUNK_USIZE as nat)
            &&& chunk_data@[0].wf() && c.palette@.len() <= 65536 ==> {
                &&& c.wf()
                &&& forall|i: int|
                    0 <= i < TOTAL_CHUNK_USIZE ==> #[trigger] c.block_at(i) == bordered_block(
                        chunk_data@,
                        i,
                    )
            }
        },
{
    let center = &chunk_data[0];
    if is_only_air(center) {
        return None;
    }
    let ghost cd = chunk_data@;
    let mut cur = center.clone();
    proof {
        assert(cur.states() =~= cd[0].states());
    }
    let mut i: usize = 0;
    while i < TOTAL_CHUNK_USIZE
        invariant
            cd == chunk_data@,
            cd.len() == 7,
            forall|k: int| 0 <= k < 7 ==> (#[trigger] cd[k]).voxels@.len() == TOTAL_CHUNK_USIZE,
            forall|j: int| 0 <= j < TOTAL_CHUNK_USIZE ==> #[trigger] source_readable(cd, j),
            i <= TOTAL_CHUNK_USIZE,
            cur.voxels@.len() == TOTAL_CHUNK_USIZE,
            cur.states() == bordered_palette(cd, i as nat),
            cur.voxels@ == bordered_voxels(cd, i as nat),
            cd[0].wf() && cur.palette@.len() <= 65536 ==> {
                &&& cur.wf()
                &&& forall|j: int|
                    0 <= j < TOTAL_CHUNK_USIZE ==> #[trigger] cur.block_at(j) == (if j < i {
                        bordered_block(cd, j)
                    } else {
                        cd[0].block_at(j)
                    })
            },
        decreases TOTAL_CHUNK_USIZE - i,
    {
        proof {
            lemma_delinearize_linearize(i as int);
        }
        let (x, y, z) = RawChunk::delinearize(i);
        let (slot, source) = border_source_of(x, y, z);
        proof {
            assert(slot as int == slot_at(i as int));
        }
        let ghost before = cur;
        if slot != 0 {
            proof {
                assert(source_readable(cd, i as int));
                assert(pos_index(source) == source_at(i as int));
                lemma_linearize_delinearize(source.x as int, source.y as int, source.z as int);
            }
            let name = chunk_data[slot].get_block(source).unwrap();
            assert(name@ == copied_name(cd, i as int));
            let target = UVec3::new(x, y, z);
            assert(pos_index(target) == i as int);
            place_block(&mut cur, target, &name);
            proof {
                assert(cur.states() == bordered_palette(cd, (i + 1) as nat));
                assert(cur.voxels@ == bordered_voxels(cd, (i + 1) as nat));
                if cd[0].wf() && cur.palette@.len() <= 65536 {
                    assert forall|j: int| 0 <= j < TOTAL_CHUNK_USIZE implies #[trigger] cur.block_at(j) == (if j < i + 1 {
                        bordered_block(cd, j)
                    } else {
                        cd[0].block_at(j)
                    }) by {
                        if j != i as int {
                            assert(cur.block_at(j) == before.block_at(j));
                        }
                    }
                }
            }
        } else {
            proof {
                if cd[0].wf() && cur.palette@.len() <= 65536 {
                    assert forall|j: int| 0 <= j < TOTAL_CHUNK_USIZE implies #[trigger] cur.block_at(j) == (if j < i + 1 {
                        bordered_block(cd, j)
                    } else {
                        cd[0].block_at(j)
                    }) by {
                        assert(before.block_at(j) == cur.block_at(j));
                    }
                }
            }
        }
        i = i + 1;
    }
    Some(cur)
}

/// Filling the padding a second time changes nothing: the inner voxels keep the blocks they
/// had, and the neighbours supply the same names again.
pub proof fn lemma_update_borders_settles(chunks: Seq<RawChunk>, filled: RawChunk)
    requires
        chunks.len() == 7,
        forall|i: int| 0 <= i < TOTAL_CHUNK_USIZE ==> #[trigger] filled.block_at(i) == bordered_block(chunks, i),
    ensures
        forall|i: int|
            0 <= i < TOTAL_CHUNK_USIZE ==> #[trigger] bordered_block(chunks.update(0, filled), i)
                == bordered_block(chunks, i),
{
    assert forall|i: int| 0 <= i < TOTAL_CHUNK_USIZE implies #[trigger] bordered_block(chunks.update(0, filled), i)
        == bordered_block(chunks, i) by {
        if slot_at(i) == 0 {
            assert(filled.block_at(i) == bordered_block(chunks, i));
        } else {
            assert(chunks.update(0, filled)[slot_at(i)] == chunks[slot_at(i)]);
        }
    }
}

} // verus!

use vstd::prelude::*;

use crate::chunk::{RawChunk, linear_index, lemma_linearize_delinearize, lemma_delinearize_linearize};
use crate::math::UVec3;
use crate::meshing::{cell, inner};
use crate::world::place_block;
use crate::palette::air_name;

verus! {

pub open spec fn grass_name() -> Seq<char> {
    seq!['v', 'i', 'n', 'o', 'x', 'g', 'r', 'a', 's', 's']
}

pub open spec fn dirt_name() -> Seq<char> {
    seq!['v', 'i', 'n', 'o', 'x', 'd', 'i', 'r', 't']
}

pub open spec fn cobblestone_name() -> Seq<char> {
    seq!['v', 'i', 'n', 'o', 'x', 'c', 'o', 'b', 'b', 'l', 'e', 's', 't', 'o', 'n', 'e']
}

/// Two block names are the same.
pub open spec fn same_name(a: Seq<char>, b: Seq<char>) -> bool {
    a == b
}

/// The voxel at (x, y, z) can be read: it names an entry of the palette.
pub open spec fn valid_at(chunk: RawChunk, x: int, y: int, z: int) -> bool {
    (chunk.voxels@[linear_index(x, y, z)] as int) < chunk.palette@.len()
}

/// Grass grows at (x, y, z), an inner voxel of cobblestone with air above it.
pub open spec fn grass_here(chunk: RawChunk, x: int, y: int, z: int) -> bool {
    &&& 1 <= y <= 32
    &&& chunk.block_at(linear_index(x, y + 1, z)) == air_name()
    &&& chunk.block_at(linear_index(x, y, z)) == cobblestone_name()
}

/// What (x, y, z) holds once the voxels of its column below height `upto` were visited:
/// grass where grass grows, dirt right below grass, and the old block elsewhere.
pub open spec fn grown_block(chunk: RawChunk, x: int, y: int, z: int, upto: int) -> Seq<char> {
    if y < upto && grass_here(chunk, x, y, z) {
        grass_name()
    } else if y + 1 < upto && grass_here(chunk, x, y + 1, z) {
        dirt_name()
    } else {
        chunk.block_at(linear_index(x, y, z))
    }
}

/// The voxel (x, y, z) is overwritten once its column up to height `upto` was visited.
pub open spec fn grown_changed(chunk: RawChunk, x: int, y: int, z: int, upto: int) -> bool {
    (y < upto && grass_here(chunk, x, y, z)) || (y + 1 < upto && grass_here(chunk, x, y + 1, z))
}

/// The voxels read while growing grass on column (x, z): heights 1 to 33.
pub open spec fn column_readable(chunk: RawChunk, x: int, z: int) -> bool {
    forall|y: int| 1 <= y <= 33 ==> #[trigger] valid_at(chunk, x, y, z)
}

/// The palette of `now` extends that of `orig` by at most two names, each grass or dirt,
/// none of them twice.
pub open spec fn palette_grown(orig: RawChunk, now: RawChunk) -> bool {
    let o = orig.states();
    let s = now.states();
    &&& s.len() >= o.len()
    &&& s.subrange(0, o.len() as int) == o
    &&& s.subrange(o.len() as int, s.len() as int).no_duplicates()
    &&& forall|k: int| o.len() <= k < s.len() ==> s[k] == grass_name() || s[k] == dirt_name()
}

/// `s` with `name` appended when it lacks it.
pub open spec fn with_state(s: Seq<Seq<char>>, name: Seq<char>) -> Seq<Seq<char>> {
    if s.contains(name) {
        s
    } else {
        s.push(name)
    }
}

/// A palette once grass has grown: grass, then dirt, each appended when missing.
pub open spec fn grassy(s: Seq<Seq<char>>) -> Seq<Seq<char>> {
    with_state(with_state(s, grass_name()), dirt_name())
}

/// Grass grows somewhere on column (x, z).
pub open spec fn column_has_grass(o: RawChunk, x: int, z: int) -> bool {
    exists|y: int| #[trigger] grass_here(o, x, y, z)
}

/// Grass grows on some inner column before column (x, z), in the order x then z.
pub open spec fn grass_before(o: RawChunk, x: int, z: int) -> bool {
    exists|cx: int, cz: int|
        1 <= cx <= 32 && 1 <= cz <= 32 && (cx < x || (cx == x && cz < z)) && #[trigger] column_has_grass(
            o,
            cx,
            cz,
        )
}

/// Growing grass on a palette that has already grown changes nothing.
proof fn lemma_grassy_settles(s: Seq<Seq<char>>)
    ensures
        with_state(with_state(grassy(s), grass_name()), dirt_name()) == grassy(s),
{
    let a = with_state(s, grass_name());
    assert(a.contains(grass_name())) by {
        if !s.contains(grass_name()) {
            assert(a[a.len() - 1] == grass_name());
        }
    }
    let b = with_state(a, dirt_name());
    assert(b.contains(dirt_name())) by {
        if !a.contains(dirt_name()) {
            assert(b[b.len() - 1] == dirt_name());
        }
    }
    assert(b.contains(grass_name())) by {
        let k = choose|k: int| 0 <= k < a.len() && a[k] == grass_name();
        assert(b[k] == grass_name());
    }
}

proof fn lemma_palette_grown_bound(orig: RawChunk, now: RawChunk)
    requires
        palette_grown(orig, now),
    ensures
        now.states().len() <= orig.states().len() + 2,
        !now.states().contains(grass_name()) ==> now.states().len() <= orig.states().len() + 1,
        !now.states().contains(dirt_name()) ==> now.states().len() <= orig.states().len() + 1,
{
    let o = orig.states();
    let s = now.states();
    let a = s.subrange(o.len() as int, s.len() as int);
    if s.len() >= o.len() + 3 {
        assert(a[0] == grass_name() || a[0] == dirt_name());
        assert(a[1] == grass_name() || a[1] == dirt_name());
        assert(a[2] == grass_name() || a[2] == dirt_name());
        assert(a[0] != a[1] && a[1] != a[2] && a[0] != a[2]);
    }
    if s.len() >= o.len() + 2 {
        assert(a[0] == grass_name() || a[0] == dirt_name());
        assert(a[1] == grass_name() || a[1] == dirt_name());
        assert(a[0] != a[1]);
        assert(s[o.len() as int] == a[0]);
        assert(s[o.len() as int + 1] == a[1]);
    }
}


/// The state of column (x, z) of `cur` after visiting its heights below `upto`, against
/// the chunk `o` it started from; every other voxel keeps its block. With `room`, the
/// palette had room for grass and dirt, and the new blocks are the grown ones.
pub open spec fn column_step(o: RawChunk, cur: RawChunk, x: int, z: int, upto: int, room: bool) -> bool {
    forall|cx: int, cy: int, cz: int|
        #![trigger valid_at(cur, cx, cy, cz)]
        0 <= cx < 34 && 0 <= cy < 34 && 0 <= cz < 34 ==> {
            let changed = cx == x && cz == z && grown_changed(o, x, cy, z, upto);
            &&& (!changed && valid_at(o, cx, cy, cz)) ==> valid_at(cur, cx, cy, cz)
                && same_name(cur.block_at(linear_index(cx, cy, cz)), o.block_at(linear_index(cx, cy, cz)))
            &&& changed ==> valid_at(cur, cx, cy, cz) && (room ==> same_name(cur.block_at(linear_index(cx, cy, cz)), grown_block(o, x, cy, z, upto)))
        }
}

/// Distinct voxels of the padded cube have distinct linear indices.
proof fn lemma_linear_index_injective(a: int, b: int, c: int, x: int, y: int, z: int)
    requires
        0 <= a < 34,
        0 <= b < 34,
        0 <= c < 34,
        0 <= x < 34,
        0 <= y < 34,
        0 <= z < 34,
        (a, b, c) != (x, y, z),
    ensures
        linear_index(a, b, c) != linear_index(x, y, z),
{
    lemma_linearize_delinearize(a, b, c);
    lemma_linearize_delinearize(x, y, z);
}

/// Adds `name` to the palette of `chunk` and points the voxel at (x, y, z) at it.
fn place(chunk: &mut RawChunk, x: u32, y: u32, z: u32, name: &String, Ghost(base): Ghost<RawChunk>)
    requires
        x < 34,
        y < 34,
        z < 34,
        old(chunk).voxels@.len() == 39304,
        name@ == grass_name() || name@ == dirt_name(),
        palette_grown(base, *old(chunk)),
    ensures
        final(chunk).voxels@.len() == 39304,
        palette_grown(base, *final(chunk)),
        placed(*old(chunk), *final(chunk), x as int, y as int, z as int, name@, base.palette@.len() <= 65534),
        final(chunk).states() == with_state(old(chunk).states(), name@),
{
    let ghost before = *chunk;
    proof {
        lemma_palette_grown_bound(base, before);
    }
    chunk.add_block_state(name);
    let ghost added = *chunk;
    proof {
        let o = base.states();
        let s0 = before.states();
        let s1 = added.states();
        if !s0.contains(name@) {
            assert(s1 == s0.push(name@));
            assert(s1.subrange(0, o.len() as int) =~= s0.subrange(0, o.len() as int));
            assert(s1.subrange(o.len() as int, s1.len() as int) =~= s0.subrange(o.len() as int, s0.len() as int).push(name@));
            let a0 = s0.subrange(o.len() as int, s0.len() as int);
            let a1 = s1.subrange(o.len() as int, s1.len() as int);
            assert forall|i: int, j: int| 0 <= i < a1.len() && 0 <= j < a1.len() && i != j implies a1[i] != a1[j] by {
                if i == a1.len() - 1 {
                    assert(a1[j] == s0[o.len() + j]);
                } else if j == a1.len() - 1 {
                    assert(a1[i] == s0[o.len() + i]);
                } else {
                    assert(a1[i] == a0[i] && a1[j] == a0[j]);
                }
            }
            lemma_palette_grown_bound(base, before);
        }
        lemma_palette_grown_bound(base, added);
        crate::palette::lemma_index_facts(s1, name@);
    }
    chunk.set_block(UVec3::new(x, y, z), name.clone());
    proof {
        assert forall|cx: int, cy: int, cz: int|
            0 <= cx < 34 && 0 <= cy < 34 && 0 <= cz < 34 && (cx, cy, cz) != (x as int, y as int, z as int)
                && valid_at(before, cx, cy, cz) implies #[trigger] valid_at(*chunk, cx, cy, cz)
                && same_name(chunk.block_at(linear_index(cx, cy, cz)), before.block_at(linear_index(cx, cy, cz))) by {
            lemma_linear_index_injective(cx, cy, cz, x as int, y as int, z as int);
            lemma_linearize_delinearize(cx, cy, cz);
            let i = linear_index(cx, cy, cz);
            assert(added.voxels@[i] == chunk.voxels@[i]);
        }
    }
}

proof fn lemma_step_unchanged(o: RawChunk, x: int, z: int, y: int, cy: int)
    requires
        !grass_here(o, x, y, z),
    ensures
        grown_changed(o, x, cy, z, y + 1) == grown_changed(o, x, cy, z, y),
        grown_block(o, x, cy, z, y + 1) == grown_block(o, x, cy, z, y),
{
}

proof fn lemma_step_grows(o: RawChunk, x: int, z: int, y: int, cy: int)
    requires
        grass_here(o, x, y, z),
        cy != y,
        cy != y - 1,
    ensures
        grown_changed(o, x, cy, z, y + 1) == grown_changed(o, x, cy, z, y),
        grown_block(o, x, cy, z, y + 1) == grown_block(o, x, cy, z, y),
{
}

/// `after` is `before` with (x, y, z) pointed at `name`; with `room`, it reads `name`.
pub open spec fn placed(before: RawChunk, after: RawChunk, x: int, y: int, z: int, name: Seq<char>, room: bool) -> bool {
    &&& valid_at(after, x, y, z)
    &&& room ==> same_name(after.block_at(linear_index(x, y, z)), name)
    &&& forall|cx: int, cy: int, cz: int|
        #![trigger valid_at(after, cx, cy, cz)]
        0 <= cx < 34 && 0 <= cy < 34 && 0 <= cz < 34 && (cx, cy, cz) != (x, y, z) && valid_at(before, cx, cy, cz)
            ==> valid_at(after, cx, cy, cz) && same_name(after.block_at(linear_index(cx, cy, cz)), before.block_at(linear_index(cx, cy, cz)))
}

proof fn lemma_column_at(o: RawChunk, cur: RawChunk, x: int, z: int, y: int, room: bool, cx: int, cy: int, cz: int)
    requires
        column_step(o, cur, x, z, y, room),
        0 <= cx < 34,
        0 <= cy < 34,
        0 <= cz < 34,
    ensures
        ({
            let changed = cx == x && cz == z && grown_changed(o, x, cy, z, y);
            &&& (!changed && valid_at(o, cx, cy, cz)) ==> valid_at(cur, cx, cy, cz)
                && same_name(cur.block_at(linear_index(cx, cy, cz)), o.block_at(linear_index(cx, cy, cz)))
            &&& changed ==> valid_at(cur, cx, cy, cz) && (room ==> same_name(cur.block_at(linear_index(cx, cy, cz)), grown_block(o, x, cy, z, y)))
        }),
{
    let changed = cx == x && cz == z && grown_changed(o, x, cy, z, y);
    if !changed && valid_at(o, cx, cy, cz) {
        assert(valid_at(cur, cx, cy, cz));
        assert(cur.block_at(linear_index(cx, cy, cz)) =~= o.block_at(linear_index(cx, cy, cz)));
    }
    if changed {
        assert(valid_at(cur, cx, cy, cz));
        if room {
            assert(cur.block_at(linear_index(cx, cy, cz)) =~= grown_block(o, x, cy, z, y));
        }
    }
}

proof fn lemma_placed_at(before: RawChunk, after: RawChunk, x: int, y: int, z: int, name: Seq<char>, room: bool, cx: int, cy: int, cz: int)
    requires
        placed(before, after, x, y, z, name, room),
        0 <= cx < 34,
        0 <= cy < 34,
        0 <= cz < 34,
        (cx, cy, cz) != (x, y, z),
        valid_at(before, cx, cy, cz),
    ensures
        valid_at(after, cx, cy, cz),
        same_name(after.block_at(linear_index(cx, cy, cz)), before.block_at(linear_index(cx, cy, cz))),
{
    assert(0 <= cx < 34 && 0 <= cy < 34 && 0 <= cz < 34 && (cx, cy, cz) != (x, y, z) && valid_at(before, cx, cy, cz)
        ==> valid_at(after, cx, cy, cz) && same_name(after.block_at(linear_index(cx, cy, cz)), before.block_at(linear_index(cx, cy, cz))));
}

proof fn lemma_column_noop(o: RawChunk, cur: RawChunk, x: int, z: int, y: int, room: bool)
    requires
        column_step(o, cur, x, z, y, room),
        !grass_here(o, x, y, z),
    ensures
        column_step(o, cur, x, z, y + 1, room),
{
    assert forall|cx: int, cy: int, cz: int| 0 <= cx < 34 && 0 <= cy < 34 && 0 <= cz < 34 implies {
        let changed = cx == x && cz == z && grown_changed(o, x, cy, z, y + 1);
        &&& (!changed && valid_at(o, cx, cy, cz)) ==> #[trigger] valid_at(cur, cx, cy, cz)
            && same_name(cur.block_at(linear_index(cx, cy, cz)), o.block_at(linear_index(cx, cy, cz)))
        &&& changed ==> valid_at(cur, cx, cy, cz) && (room ==> same_name(cur.block_at(linear_index(cx, cy, cz)), grown_block(o, x, cy, z, y + 1)))
    } by {
        lemma_step_unchanged(o, x, z, y, cy);
        let changed = cx == x && cz == z && grown_changed(o, x, cy, z, y);
        assert((!changed && valid_at(o, cx, cy, cz)) ==> valid_at(cur, cx, cy, cz)
            && same_name(cur.block_at(linear_index(cx, cy, cz)), o.block_at(linear_index(cx, cy, cz))));
        assert(changed ==> valid_at(cur, cx, cy, cz));
    }
}

proof fn lemma_column_grow(o: RawChunk, cur: RawChunk, mid: RawChunk, fin: RawChunk, x: int, z: int, y: int, room: bool)
    requires
        1 <= y <= 32,
        0 <= x < 34,
        0 <= z < 34,
        column_step(o, cur, x, z, y, room),
        grass_here(o, x, y, z),
        placed(cur, mid, x, y, z, grass_name(), room),
        placed(mid, fin, x, y - 1, z, dirt_name(), room),
    ensures
        column_step(o, fin, x, z, y + 1, room),
{
    assert forall|cx: int, cy: int, cz: int| 0 <= cx < 34 && 0 <= cy < 34 && 0 <= cz < 34 implies {
        let changed = cx == x && cz == z && grown_changed(o, x, cy, z, y + 1);
        &&& (!changed && valid_at(o, cx, cy, cz)) ==> #[trigger] valid_at(fin, cx, cy, cz)
            && same_name(fin.block_at(linear_index(cx, cy, cz)), o.block_at(linear_index(cx, cy, cz)))
        &&& changed ==> valid_at(fin, cx, cy, cz) && (room ==> same_name(fin.block_at(linear_index(cx, cy, cz)), grown_block(o, x, cy, z, y + 1)))
    } by {
        assert(valid_at(cur, cx, cy, cz) == valid_at(cur, cx, cy, cz));
        assert(valid_at(mid, cx, cy, cz) == valid_at(mid, cx, cy, cz));
        assert(valid_at(fin, cx, cy, cz) == valid_at(fin, cx, cy, cz));
        lemma_column_at(o, cur, x, z, y, room, cx, cy, cz);
        if (cx, cy, cz) != (x, y, z) && valid_at(cur, cx, cy, cz) {
            lemma_placed_at(cur, mid, x, y, z, grass_name(), room, cx, cy, cz);
        }
        if (cx, cy, cz) != (x, y - 1, z) && valid_at(mid, cx, cy, cz) {
            lemma_placed_at(mid, fin, x, y - 1, z, dirt_name(), room, cx, cy, cz);
        }
        if cx == x && cz == z {
            if cy == y - 1 {
                assert(air_name() != cobblestone_name());
                assert(!grass_here(o, x, cy, z));
                assert(grown_changed(o, x, cy, z, y + 1));
            } else if cy == y {
                assert(grown_changed(o, x, cy, z, y + 1));
            } else {
                lemma_step_grows(o, x, z, y, cy);
            }
        }
    }
}

/// Grows grass on column (x, z): from height 1 to 32, cobblestone with air above becomes
/// grass and the voxel below it becomes dirt.
fn grow_column(
    chunk: &mut RawChunk,
    x: u32,
    z: u32,
    air: &String,
    cobblestone: &String,
    grass: &String,
    dirt: &String,
    Ghost(base): Ghost<RawChunk>,
)
    requires
        1 <= x <= 32,
        1 <= z <= 32,
        air@ == air_name(),
        cobblestone@ == cobblestone_name(),
        grass@ == grass_name(),
        dirt@ == dirt_name(),
        old(chunk).voxels@.len() == 39304,
        column_readable(*old(chunk), x as int, z as int),
        palette_grown(base, *old(chunk)),
    ensures
        final(chunk).voxels@.len() == 39304,
        palette_grown(base, *final(chunk)),
        column_step(*old(chunk), *final(chunk), x as int, z as int, 33, base.palette@.len() <= 65534),
        final(chunk).states() == (if column_has_grass(*old(chunk), x as int, z as int) {
            grassy(old(chunk).states())
        } else {
            old(chunk).states()
        }),
{
    let ghost o = *chunk;
    let ghost room = base.palette@.len() <= 65534;
    let ghost mut seen = false;
    let mut y: u32 = 1;
    while y <= 32
        invariant
            1 <= x <= 32,
            1 <= z <= 32,
            1 <= y <= 33,
            air@ == air_name(),
            cobblestone@ == cobblestone_name(),
            grass@ == grass_name(),
            dirt@ == dirt_name(),
            chunk.voxels@.len() == 39304,
            o.voxels@.len() == 39304,
            column_readable(o, x as int, z as int),
            palette_grown(base, *chunk),
            room == (base.palette@.len() <= 65534),
            column_step(o, *chunk, x as int, z as int, y as int, room),
            seen == (exists|yy: int| yy < y && #[trigger] grass_here(o, x as int, yy, z as int)),
            chunk.states() == (if seen {
                grassy(o.states())
            } else {
                o.states()
            }),
        decreases 33 - y,
    {
        let ghost cur = *chunk;
        proof {
            assert(valid_at(o, x as int, y + 1, z as int));
            assert(valid_at(o, x as int, y as int, z as int));
            assert(valid_at(cur, x as int, y + 1, z as int));
            assert(valid_at(cur, x as int, y as int, z as int));
            lemma_linearize_delinearize(x as int, y + 1, z as int);
            lemma_linearize_delinearize(x as int, y as int, z as int);
        }
        let above = chunk.get_block(UVec3::new(x, y + 1, z)).unwrap();
        let here = chunk.get_block(UVec3::new(x, y, z)).unwrap();
        if above == *air && here == *cobblestone {
            assert(grass_here(o, x as int, y as int, z as int));
            place(chunk, x, y, z, grass, Ghost(base));
            let ghost mid = *chunk;
            place(chunk, x, y - 1, z, dirt, Ghost(base));
            proof {
                lemma_column_grow(o, cur, mid, *chunk, x as int, z as int, y as int, room);
                if seen {
                    lemma_grassy_settles(o.states());
                }
                seen = true;
                assert(grass_here(o, x as int, y as int, z as int) && (y as int) < y + 1);
            }
        } else {
            assert(!grass_here(o, x as int, y as int, z as int));
            proof {
                lemma_column_noop(o, cur, x as int, z as int, y as int, room);
                if exists|yy: int| yy < y + 1 && #[trigger] grass_here(o, x as int, yy, z as int) {
                    let yy = choose|yy: int| yy < y + 1 && #[trigger] grass_here(o, x as int, yy, z as int);
                    assert(yy < y);
                }
            }
        }
        y = y + 1;
    }
    proof {
        if column_has_grass(o, x as int, z as int) {
            let yy = choose|yy: int| #[trigger] grass_here(o, x as int, yy, z as int);
            assert(yy < y);
        }
    }
}


/// Voxel (cx, cy, cz) lies in an inner column before column (x, z) and is overwritten
/// when grass grows there.
pub open spec fn done_changed(o: RawChunk, x: int, z: int, cx: int, cy: int, cz: int) -> bool {
    1 <= cx <= 32 && 1 <= cz <= 32 && (cx < x || (cx == x && cz < z)) && grown_changed(o, cx, cy, cz, 33)
}

/// The inner columns before column (x, z), in the order x then z, have had grass grown
/// on them in `cur`; every other voxel keeps its block.
pub open spec fn grass_done(o: RawChunk, cur: RawChunk, x: int, z: int, room: bool) -> bool {
    forall|cx: int, cy: int, cz: int|
        #![trigger valid_at(cur, cx, cy, cz)]
        0 <= cx < 34 && 0 <= cy < 34 && 0 <= cz < 34 ==> {
            &&& (!done_changed(o, x, z, cx, cy, cz) && valid_at(o, cx, cy, cz)) ==> valid_at(cur, cx, cy, cz)
                && same_name(cur.block_at(linear_index(cx, cy, cz)), o.block_at(linear_index(cx, cy, cz)))
            &&& done_changed(o, x, z, cx, cy, cz) ==> valid_at(cur, cx, cy, cz) && (room ==> same_name(cur.block_at(linear_index(cx, cy, cz)), grown_block(o, cx, cy, cz, 33)))
        }
}

/// What voxel (x, y, z) holds once grass has grown on every inner column.
pub open spec fn grassed_block(o: RawChunk, x: int, y: int, z: int) -> Seq<char> {
    if 1 <= x <= 32 && 1 <= z <= 32 {
        grown_block(o, x, y, z, 33)
    } else {
        o.block_at(linear_index(x, y, z))
    }
}

proof fn lemma_grass_done_at(o: RawChunk, cur: RawChunk, x: int, z: int, room: bool, cx: int, cy: int, cz: int)
    requires
        grass_done(o, cur, x, z, room),
        0 <= cx < 34,
        0 <= cy < 34,
        0 <= cz < 34,
    ensures
        ({
            &&& (!done_changed(o, x, z, cx, cy, cz) && valid_at(o, cx, cy, cz)) ==> valid_at(cur, cx, cy, cz)
                && same_name(cur.block_at(linear_index(cx, cy, cz)), o.block_at(linear_index(cx, cy, cz)))
            &&& done_changed(o, x, z, cx, cy, cz) ==> valid_at(cur, cx, cy, cz) && (room ==> same_name(cur.block_at(linear_index(cx, cy, cz)), grown_block(o, cx, cy, cz, 33)))
        }),
{
    let changed = 1 <= cx <= 32 && 1 <= cz <= 32 && (cx < x || (cx == x && cz < z)) && grown_changed(o, cx, cy, cz, 33);
    if !changed && valid_at(o, cx, cy, cz) {
        assert(valid_at(cur, cx, cy, cz));
        assert(cur.block_at(linear_index(cx, cy, cz)) =~= o.block_at(linear_index(cx, cy, cz)));
    }
    if changed {
        assert(valid_at(cur, cx, cy, cz));
        if room {
            assert(cur.block_at(linear_index(cx, cy, cz)) =~= grown_block(o, cx, cy, cz, 33));
        }
    }
}

/// Grass grows on a column alike in two chunks whose column holds the same blocks at
/// heights 1 to 33.
proof fn lemma_same_column(o: RawChunk, cur: RawChunk, x: int, z: int, cy: int)
    requires
        0 <= cy < 34,
        forall|y: int| 1 <= y <= 33 ==> #[trigger] cur.block_at(linear_index(x, y, z)) == o.block_at(linear_index(x, y, z)),
    ensures
        grown_changed(cur, x, cy, z, 33) == grown_changed(o, x, cy, z, 33),
        grown_changed(o, x, cy, z, 33) ==> grown_block(cur, x, cy, z, 33) == grown_block(o, x, cy, z, 33),
{
    if 1 <= cy <= 32 {
        assert(cur.block_at(linear_index(x, cy + 1, z)) == o.block_at(linear_index(x, cy + 1, z)));
        assert(cur.block_at(linear_index(x, cy, z)) == o.block_at(linear_index(x, cy, z)));
    }
    if 1 <= cy + 1 <= 32 {
        assert(cur.block_at(linear_index(x, cy + 2, z)) == o.block_at(linear_index(x, cy + 2, z)));
        assert(cur.block_at(linear_index(x, cy + 1, z)) == o.block_at(linear_index(x, cy + 1, z)));
    }
}

proof fn lemma_grass_step(o: RawChunk, cur: RawChunk, nxt: RawChunk, x: int, z: int, room: bool)
    requires
        1 <= x <= 32,
        1 <= z <= 32,
        grass_done(o, cur, x, z, room),
        column_readable(o, x, z),
        column_step(cur, nxt, x, z, 33, room),
    ensures
        grass_done(o, nxt, x, z + 1, room),
{
    assert forall|y: int| 1 <= y <= 33 implies #[trigger] cur.block_at(linear_index(x, y, z)) == o.block_at(linear_index(x, y, z)) by {
        assert(valid_at(o, x, y, z));
        lemma_grass_done_at(o, cur, x, z, room, x, y, z);
    }
    assert forall|cx: int, cy: int, cz: int|
        #![trigger valid_at(nxt, cx, cy, cz)]
        0 <= cx < 34 && 0 <= cy < 34 && 0 <= cz < 34 implies {
        let changed = 1 <= cx <= 32 && 1 <= cz <= 32 && (cx < x || (cx == x && cz < z + 1))
            && grown_changed(o, cx, cy, cz, 33);
        &&& (!changed && valid_at(o, cx, cy, cz)) ==> valid_at(nxt, cx, cy, cz)
            && same_name(nxt.block_at(linear_index(cx, cy, cz)), o.block_at(linear_index(cx, cy, cz)))
        &&& changed ==> valid_at(nxt, cx, cy, cz) && (room ==> same_name(nxt.block_at(linear_index(cx, cy, cz)), grown_block(o, cx, cy, cz, 33)))
    } by {
        lemma_grass_done_at(o, cur, x, z, room, cx, cy, cz);
        lemma_column_at(cur, nxt, x, z, 33, room, cx, cy, cz);
        if cx == x && cz == z {
            lemma_same_column(o, cur, x, z, cy);
        }
        let changed = 1 <= cx <= 32 && 1 <= cz <= 32 && (cx < x || (cx == x && cz < z + 1))
            && grown_changed(o, cx, cy, cz, 33);
        if !changed && valid_at(o, cx, cy, cz) {
            assert(valid_at(nxt, cx, cy, cz));
            assert(nxt.block_at(linear_index(cx, cy, cz)) =~= o.block_at(linear_index(cx, cy, cz)));
        }
        if changed {
            assert(valid_at(nxt, cx, cy, cz));
            if room {
                assert(nxt.block_at(linear_index(cx, cy, cz)) =~= grown_block(o, cx, cy, cz, 33));
            }
        }
    }
}

/// Passing column (x, z) adds it to the columns before.
proof fn lemma_grass_before_step(o: RawChunk, x: int, z: int)
    requires
        1 <= x <= 32,
        1 <= z <= 32,
    ensures
        grass_before(o, x, z + 1) == (grass_before(o, x, z) || column_has_grass(o, x, z)),
{
    if grass_before(o, x, z + 1) {
        let (cx, cz) = choose|cx: int, cz: int|
            1 <= cx <= 32 && 1 <= cz <= 32 && (cx < x || (cx == x && cz < z + 1)) && #[trigger] column_has_grass(
                o,
                cx,
                cz,
            );
        if !(cx == x && cz == z) {
            assert(column_has_grass(o, cx, cz));
        }
    }
    if grass_before(o, x, z) {
        let (cx, cz) = choose|cx: int, cz: int|
            1 <= cx <= 32 && 1 <= cz <= 32 && (cx < x || (cx == x && cz < z)) && #[trigger] column_has_grass(
                o,
                cx,
                cz,
            );
        assert(column_has_grass(o, cx, cz));
    }
    if column_has_grass(o, x, z) {
        assert(column_has_grass(o, x, z));
    }
}

/// The columns before the end of row x are those before the start of row x + 1.
proof fn lemma_grass_before_row(o: RawChunk, x: int)
    ensures
        grass_before(o, x, 33) == grass_before(o, x + 1, 1),
{
    if grass_before(o, x, 33) {
        let (cx, cz) = choose|cx: int, cz: int|
            1 <= cx <= 32 && 1 <= cz <= 32 && (cx < x || (cx == x && cz < 33)) && #[trigger] column_has_grass(
                o,
                cx,
                cz,
            );
        assert(column_has_grass(o, cx, cz));
    }
    if grass_before(o, x + 1, 1) {
        let (cx, cz) = choose|cx: int, cz: int|
            1 <= cx <= 32 && 1 <= cz <= 32 && (cx < x + 1 || (cx == x + 1 && cz < 1)) && #[trigger] column_has_grass(
                o,
                cx,
                cz,
            );
        assert(column_has_grass(o, cx, cz));
    }
}

/// Grows grass on the inner columns: cobblestone with air above becomes grass, and the
/// voxel below it becomes dirt. Grass and dirt are added to the palette as needed.
pub fn add_grass(raw_chunk: &mut RawChunk)
    requires
        old(raw_chunk).voxels@.len() == 39304,
        forall|x: int, z: int| 1 <= x <= 32 && 1 <= z <= 32 ==> #[trigger] column_readable(*old(raw_chunk), x, z),
    ensures
        final(raw_chunk).voxels@.len() == 39304,
        palette_grown(*old(raw_chunk), *final(raw_chunk)),
        grass_done(*old(raw_chunk), *final(raw_chunk), 33, 1, old(raw_chunk).palette@.len() <= 65534),
        final(raw_chunk).states() == (if grass_before(*old(raw_chunk), 33, 1) {
            grassy(old(raw_chunk).states())
        } else {
            old(raw_chunk).states()
        }),
        old(raw_chunk).wf() && old(raw_chunk).palette@.len() <= 65534 ==> {
            &&& final(raw_chunk).wf()
            &&& forall|i: int|
                0 <= i < 39304 ==> #[trigger] final(raw_chunk).block_at(i) == grassed_block(
                    *old(raw_chunk),
                    cell(i).0,
                    cell(i).1,
                    cell(i).2,
                )
        },
{
    let ghost o = *raw_chunk;
    let ghost room = o.palette@.len() <= 65534;
    let air = String::from_str("air");
    let cobblestone = String::from_str("vinoxcobblestone");
    let grass = String::from_str("vinoxgrass");
    let dirt = String::from_str("vinoxdirt");
    proof {
        reveal_strlit("air");
        reveal_strlit("vinoxcobblestone");
        reveal_strlit("vinoxgrass");
        reveal_strlit("vinoxdirt");
        assert(air@ =~= air_name());
        assert(cobblestone@ =~= cobblestone_name());
        assert(grass@ =~= grass_name());
        assert(dirt@ =~= dirt_name());
        assert(o.states().subrange(0, o.states().len() as int) =~= o.states());
        assert(o.states().subrange(o.states().len() as int, o.states().len() as int) =~= Seq::<Seq<char>>::empty());
        assert forall|cx: int, cy: int, cz: int| 0 <= cx < 34 && 0 <= cy < 34 && 0 <= cz < 34 implies {
            let changed = 1 <= cx <= 32 && 1 <= cz <= 32 && (cx < 1 || (cx == 1 && cz < 1))
                && grown_changed(o, cx, cy, cz, 33);
            &&& (!changed && valid_at(o, cx, cy, cz)) ==> #[trigger] valid_at(o, cx, cy, cz)
                && same_name(o.block_at(linear_index(cx, cy, cz)), o.block_at(linear_index(cx, cy, cz)))
            &&& changed ==> valid_at(o, cx, cy, cz) && (room ==> same_name(o.block_at(linear_index(cx, cy, cz)), grown_block(o, cx, cy, cz, 33)))
        } by {
        }
    }
    let ghost mut seen = false;
    proof {
        if grass_before(o, 1, 1) {
            let (cx, cz) = choose|cx: int, cz: int|
                1 <= cx <= 32 && 1 <= cz <= 32 && (cx < 1 || (cx == 1 && cz < 1)) && #[trigger] column_has_grass(
                    o,
                    cx,
                    cz,
                );
        }
    }
    let mut x: u32 = 1;
    while x <= 32
        invariant
            seen == grass_before(o, x as int, 1),
            raw_chunk.states() == (if seen {
                grassy(o.states())
            } else {
                o.states()
            }),
            1 <= x <= 33,
            air@ == air_name(),
            cobblestone@ == cobblestone_name(),
            grass@ == grass_name(),
            dirt@ == dirt_name(),
            raw_chunk.voxels@.len() == 39304,
            o.voxels@.len() == 39304,
            room == (o.palette@.len() <= 65534),
            forall|x: int, z: int| 1 <= x <= 32 && 1 <= z <= 32 ==> #[trigger] column_readable(o, x, z),
            palette_grown(o, *raw_chunk),
            grass_done(o, *raw_chunk, x as int, 1, room),
        decreases 33 - x,
    {
        let mut z: u32 = 1;
        while z <= 32
            invariant
                seen == grass_before(o, x as int, z as int),
                raw_chunk.states() == (if seen {
                    grassy(o.states())
                } else {
                    o.states()
                }),
                1 <= x <= 32,
                1 <= z <= 33,
                air@ == air_name(),
                cobblestone@ == cobblestone_name(),
                grass@ == grass_name(),
                dirt@ == dirt_name(),
                raw_chunk.voxels@.len() == 39304,
                o.voxels@.len() == 39304,
                room == (o.palette@.len() <= 65534),
                forall|x: int, z: int| 1 <= x <= 32 && 1 <= z <= 32 ==> #[trigger] column_readable(o, x, z),
                palette_grown(o, *raw_chunk),
                grass_done(o, *raw_chunk, x as int, z as int, room),
            decreases 33 - z,
        {
            let ghost cur = *raw_chunk;
            proof {
                assert(column_readable(o, x as int, z as int));
                assert forall|y: int| 1 <= y <= 33 implies #[trigger] valid_at(cur, x as int, y, z as int) by {
                    assert(valid_at(o, x as int, y, z as int));
                    lemma_grass_done_at(o, cur, x as int, z as int, room, x as int, y, z as int);
                }
            }
            grow_column(raw_chunk, x, z, &air, &cobblestone, &grass, &dirt, Ghost(o));
            proof {
                lemma_grass_step(o, cur, *raw_chunk, x as int, z as int, room);
                assert forall|y: int| 1 <= y <= 33 implies #[trigger] cur.block_at(linear_index(x as int, y, z as int))
                    == o.block_at(linear_index(x as int, y, z as int)) by {
                    assert(valid_at(o, x as int, y, z as int));
                    lemma_grass_done_at(o, cur, x as int, z as int, room, x as int, y, z as int);
                }
                assert forall|yy: int| #[trigger] grass_here(cur, x as int, yy, z as int) == grass_here(o, x as int, yy, z as int) by {
                    if 1 <= yy <= 32 {
                        assert(cur.block_at(linear_index(x as int, yy + 1, z as int)) == o.block_at(linear_index(x as int, yy + 1, z as int)));
                        assert(cur.block_at(linear_index(x as int, yy, z as int)) == o.block_at(linear_index(x as int, yy, z as int)));
                    }
                }
                if column_has_grass(o, x as int, z as int) {
                    let yy = choose|yy: int| #[trigger] grass_here(o, x as int, yy, z as int);
                    assert(grass_here(cur, x as int, yy, z as int));
                }
                if column_has_grass(cur, x as int, z as int) {
                    let yy = choose|yy: int| #[trigger] grass_here(cur, x as int, yy, z as int);
                    assert(grass_here(o, x as int, yy, z as int));
                }
                if seen {
                    lemma_grassy_settles(o.states());
                }
                lemma_grass_before_step(o, x as int, z as int);
                seen = seen || column_has_grass(o, x as int, z as int);
            }
            z = z + 1;
        }
        proof {
            let cur = *raw_chunk;
            assert forall|cx: int, cy: int, cz: int| 0 <= cx < 34 && 0 <= cy < 34 && 0 <= cz < 34 implies {
                let changed = 1 <= cx <= 32 && 1 <= cz <= 32 && (cx < x + 1 || (cx == x + 1 && cz < 1))
                    && grown_changed(o, cx, cy, cz, 33);
                &&& (!changed && valid_at(o, cx, cy, cz)) ==> #[trigger] valid_at(cur, cx, cy, cz)
                    && same_name(cur.block_at(linear_index(cx, cy, cz)), o.block_at(linear_index(cx, cy, cz)))
                &&& changed ==> valid_at(cur, cx, cy, cz) && (room ==> same_name(cur.block_at(linear_index(cx, cy, cz)), grown_block(o, cx, cy, cz, 33)))
            } by {
                lemma_grass_done_at(o, cur, x as int, 33, room, cx, cy, cz);
            }
            lemma_grass_before_row(o, x as int);
        }
        x = x + 1;
    }
    proof {
        let fin = *raw_chunk;
        if o.wf() && room {
            lemma_palette_grown_bound(o, fin);
            assert forall|i: int| 0 <= i < 39304 implies (#[trigger] fin.voxels@[i] as int) < fin.palette@.len()
                && fin.block_at(i) == grassed_block(o, cell(i).0, cell(i).1, cell(i).2) by {
                lemma_delinearize_linearize(i);
                let (cx, cy, cz) = cell(i);
                assert(valid_at(o, cx, cy, cz));
                lemma_grass_done_at(o, fin, 33, 1, room, cx, cy, cz);
            }
        }
    }
}

/// The block the terrain puts at voxel `i` before grass grows: cobblestone on an inner
/// voxel that is solid and not carved out, air everywhere else.
pub open spec fn terrain_block(solid: Seq<bool>, carved: Seq<bool>, i: int) -> Seq<char> {
    if inner(i) && solid[i] && !carved[i] {
        cobblestone_name()
    } else {
        air_name()
    }
}

/// Some inner voxel is solid: the terrain palette holds cobblestone.
pub open spec fn any_solid(solid: Seq<bool>, n: int) -> bool {
    exists|j: int| 0 <= j < n && #[trigger] inner(j) && solid[j]
}

/// The palette of the terrain: air, then cobblestone when some inner voxel is solid.
pub open spec fn terrain_palette(solid: Seq<bool>, n: int) -> Seq<Seq<char>> {
    if any_solid(solid, n) {
        seq![air_name(), cobblestone_name()]
    } else {
        seq![air_name()]
    }
}

/// Meeting a solid inner voxel puts cobblestone in the terrain palette, once.
proof fn lemma_add_cobblestone(solid: Seq<bool>, i: int)
    requires
        0 <= i < 39304,
        inner(i),
        solid[i],
    ensures
        any_solid(solid, i + 1),
        terrain_palette(solid, i + 1) == (if terrain_palette(solid, i).contains(cobblestone_name()) {
            terrain_palette(solid, i)
        } else {
            terrain_palette(solid, i).push(cobblestone_name())
        }),
{
    assert(air_name()[0] != cobblestone_name()[0]);
    assert(seq![air_name(), cobblestone_name()][1] == cobblestone_name());
    assert(seq![air_name()].push(cobblestone_name()) =~= seq![air_name(), cobblestone_name()]);
    if !any_solid(solid, i) {
        assert(seq![air_name()][0] != cobblestone_name());
        assert(!seq![air_name()].contains(cobblestone_name()));
    }
    assert(any_solid(solid, i + 1));
}

/// Fills a fresh chunk with terrain: every inner voxel that is solid becomes cobblestone,
/// then every inner voxel that is carved out becomes air again.
pub fn fill_terrain(solid: &Vec<bool>, carved: &Vec<bool>) -> (r: RawChunk)
    requires
        solid@.len() == 39304,
        carved@.len() == 39304,
    ensures
        r.wf(),
        r.states() == terrain_palette(solid@, 39304),
        forall|i: int| 0 <= i < 39304 ==> #[trigger] r.block_at(i) == terrain_block(solid@, carved@, i),
{
    let air = String::from_str("air");
    let cobblestone = String::from_str("vinoxcobblestone");
    proof {
        reveal_strlit("air");
        reveal_strlit("vinoxcobblestone");
        assert(air@ =~= air_name());
        assert(cobblestone@ =~= cobblestone_name());
    }
    let mut chunk = RawChunk::new();
    let mut i: usize = 0;
    while i < 39304
        invariant
            air@ == air_name(),
            cobblestone@ == cobblestone_name(),
            solid@.len() == 39304,
            carved@.len() == 39304,
            i <= 39304,
            chunk.wf(),
            chunk.states() == terrain_palette(solid@, i as int),
            forall|j: int|
                0 <= j < 39304 ==> #[trigger] chunk.block_at(j) == (if j < i {
                    terrain_block(solid@, carved@, j)
                } else {
                    air_name()
                }),
        decreases 39304 - i,
    {
        proof {
            lemma_delinearize_linearize(i as int);
        }
        let (x, y, z) = RawChunk::delinearize(i);
        let pos = UVec3::new(x, y, z);
        assert(crate::chunk::pos_index(pos) == i as int);
        let ghost before = chunk;
        if 1 <= x && x <= 32 && 1 <= y && y <= 32 && 1 <= z && z <= 32 {
            assert(inner(i as int));
            if solid[i] {
                proof {
                    lemma_add_cobblestone(solid@, i as int);
                }
                place_block(&mut chunk, pos, &cobblestone);
            } else {
                chunk.set_block(pos, air.clone());
                proof {
                    assert(chunk.states() =~= before.states());
                    assert(any_solid(solid@, i + 1) == any_solid(solid@, i as int));
                }
            }
            let ghost mid = chunk;
            if carved[i] {
                chunk.set_block(pos, air.clone());
            }
            proof {
                assert(chunk.states()[0] == air_name());
                assert forall|j: int| 0 <= j < 39304 implies #[trigger] chunk.block_at(j) == (if j < i + 1 {
                    terrain_block(solid@, carved@, j)
                } else {
                    air_name()
                }) by {
                    if j != i as int {
                        assert(mid.block_at(j) == before.block_at(j));
                    }
                }
            }
        } else {
            proof {
                assert(!inner(i as int));
                assert(any_solid(solid@, i + 1) == any_solid(solid@, i as int));
            }
        }
        i = i + 1;
    }
    chunk
}

/// Grass grows on the terrain at (x, y, z): an inner voxel of cobblestone with air above it.
pub open spec fn terrain_grass_here(solid: Seq<bool>, carved: Seq<bool>, x: int, y: int, z: int) -> bool {
    &&& 1 <= y <= 32
    &&& terrain_block(solid, carved, linear_index(x, y + 1, z)) == air_name()
    &&& terrain_block(solid, carved, linear_index(x, y, z)) == cobblestone_name()
}

/// The block at (x, y, z) of a generated chunk: grass where grass grows on the terrain,
/// dirt right below it, and the terrain's own block elsewhere.
pub open spec fn generated_block(solid: Seq<bool>, carved: Seq<bool>, x: int, y: int, z: int) -> Seq<char> {
    if 1 <= x <= 32 && 1 <= z <= 32 && terrain_grass_here(solid, carved, x, y, z) {
        grass_name()
    } else if 1 <= x <= 32 && 1 <= z <= 32 && y + 1 < 33 && terrain_grass_here(solid, carved, x, y + 1, z) {
        dirt_name()
    } else {
        terrain_block(solid, carved, linear_index(x, y, z))
    }
}

/// Grass grows somewhere on the terrain.
pub open spec fn terrain_has_grass(solid: Seq<bool>, carved: Seq<bool>) -> bool {
    exists|x: int, y: int, z: int|
        1 <= x <= 32 && 1 <= z <= 32 && #[trigger] terrain_grass_here(solid, carved, x, y, z)
}

/// The block names a generated chunk can hold: air, cobblestone, grass and dirt.
pub open spec fn generation_name(name: Seq<char>) -> bool {
    name == air_name() || name == cobblestone_name() || name == grass_name() || name == dirt_name()
}

/// A generated chunk leaves its padding to its neighbours: every voxel with x or z on a
/// padding layer, and every voxel on the top layer, is air, and the bottom layer holds only
/// air or the dirt under grass that grows on the lowest inner layer. Its palette starts with
/// air, names each block once, and names only air, cobblestone, grass and dirt.
pub proof fn lemma_generated_chunk_shape(solid: Seq<bool>, carved: Seq<bool>)
    requires
        solid.len() == 39304,
        carved.len() == 39304,
    ensures
        forall|x: int, y: int, z: int|
            0 <= x < 34 && 0 <= y < 34 && 0 <= z < 34 && (x == 0 || x == 33 || z == 0 || z == 33
                || y == 33) ==> #[trigger] generated_block(solid, carved, x, y, z) == air_name(),
        forall|x: int, z: int|
            0 <= x < 34 && 0 <= z < 34 ==> {
                let b = #[trigger] generated_block(solid, carved, x, 0, z);
                b == air_name() || b == dirt_name()
            },
        ({
            let names = if terrain_has_grass(solid, carved) {
                terrain_palette(solid, 39304).push(grass_name()).push(dirt_name())
            } else {
                terrain_palette(solid, 39304)
            };
            &&& names[0] == air_name()
            &&& names.no_duplicates()
            &&& forall|k: int| 0 <= k < names.len() ==> generation_name(#[trigger] names[k])
        }),
{
    assert forall|x: int, y: int, z: int|
        0 <= x < 34 && 0 <= y < 34 && 0 <= z < 34 && (x == 0 || x == 33 || z == 0 || z == 33
            || y == 33) implies #[trigger] generated_block(solid, carved, x, y, z) == air_name() by {
        lemma_linearize_delinearize(x, y, z);
        assert(!inner(linear_index(x, y, z)));
    }
    assert forall|x: int, z: int| 0 <= x < 34 && 0 <= z < 34 implies {
        let b = #[trigger] generated_block(solid, carved, x, 0, z);
        b == air_name() || b == dirt_name()
    } by {
        lemma_linearize_delinearize(x, 0, z);
        assert(!inner(linear_index(x, 0, z)));
    }
    assert(air_name()[0] != cobblestone_name()[0]);
    assert(air_name()[0] != grass_name()[0]);
    assert(air_name()[0] != dirt_name()[0]);
    assert(cobblestone_name()[5] != grass_name()[5]);
    assert(cobblestone_name()[5] != dirt_name()[5]);
    assert(grass_name()[5] != dirt_name()[5]);
    let tp = terrain_palette(solid, 39304);
    let names = if terrain_has_grass(solid, carved) {
        tp.push(grass_name()).push(dirt_name())
    } else {
        tp
    };
    assert(names.no_duplicates());
}

/// Generation depends on the terrain masks alone: two chunks that generation makes from the
/// same masks name the same block states in the same order and hold the same voxels.
pub proof fn lemma_generation_determined(a: RawChunk, b: RawChunk, solid: Seq<bool>, carved: Seq<bool>)
    requires
        solid.len() == 39304,
        carved.len() == 39304,
        a.wf(),
        b.wf(),
        a.states() == (if terrain_has_grass(solid, carved) {
            terrain_palette(solid, 39304).push(grass_name()).push(dirt_name())
        } else {
            terrain_palette(solid, 39304)
        }),
        b.states() == (if terrain_has_grass(solid, carved) {
            terrain_palette(solid, 39304).push(grass_name()).push(dirt_name())
        } else {
            terrain_palette(solid, 39304)
        }),
        forall|i: int|
            0 <= i < 39304 ==> #[trigger] a.block_at(i) == generated_block(solid, carved, cell(i).0, cell(i).1, cell(i).2),
        forall|i: int|
            0 <= i < 39304 ==> #[trigger] b.block_at(i) == generated_block(solid, carved, cell(i).0, cell(i).1, cell(i).2),
    ensures
        a.states() == b.states(),
        a.voxels@ == b.voxels@,
{
    lemma_generated_chunk_shape(solid, carved);
    let names = a.states();
    assert forall|i: int| 0 <= i < 39304 implies a.voxels@[i] == b.voxels@[i] by {
        assert(a.block_at(i) == b.block_at(i));
        assert(names[a.voxels@[i] as int] == names[b.voxels@[i] as int]);
        assert(a.palette@.len() == names.len());
    }
    assert(a.voxels@ =~= b.voxels@);
}

/// Generates a chunk from its terrain masks: `solid` marks the voxels under the surface and
/// `carved` the voxels of caves, both by linear index. The terrain is filled, then grass
/// grows on it.
pub fn generate_chunk(solid: &Vec<bool>, carved: &Vec<bool>) -> (r: RawChunk)
    requires
        solid@.len() == 39304,
        carved@.len() == 39304,
    ensures
        r.wf(),
        r.states() == (if terrain_has_grass(solid@, carved@) {
            terrain_palette(solid@, 39304).push(grass_name()).push(dirt_name())
        } else {
            terrain_palette(solid@, 39304)
        }),
        forall|i: int|
            0 <= i < 39304 ==> #[trigger] r.block_at(i) == generated_block(
                solid@,
                carved@,
                cell(i).0,
                cell(i).1,
                cell(i).2,
            ),
{
    let mut chunk = fill_terrain(solid, carved);
    let ghost terrain = chunk;
    proof {
        assert forall|x: int, z: int| 1 <= x <= 32 && 1 <= z <= 32 implies #[trigger] column_readable(terrain, x, z) by {
            assert forall|y: int| 1 <= y <= 33 implies #[trigger] valid_at(terrain, x, y, z) by {
                lemma_linearize_delinearize(x, y, z);
            }
        }
    }
    add_grass(&mut chunk);
    proof {
        let tp = terrain_palette(solid@, 39304);
        assert(grass_name()[5] != air_name()[0] && grass_name()[5] != cobblestone_name()[5]);
        assert(dirt_name()[5] != air_name()[0] && dirt_name()[5] != cobblestone_name()[5]);
        assert(!tp.contains(grass_name())) by {
            if tp.contains(grass_name()) {
                let k = choose|k: int| 0 <= k < tp.len() && tp[k] == grass_name();
                assert(tp[k][5] == grass_name()[5]);
            }
        }
        assert(!tp.push(grass_name()).contains(dirt_name())) by {
            let t2 = tp.push(grass_name());
            if t2.contains(dirt_name()) {
                let k = choose|k: int| 0 <= k < t2.len() && t2[k] == dirt_name();
                assert(t2[k][5] == dirt_name()[5]);
                assert(grass_name()[5] != dirt_name()[5]);
            }
        }
        assert forall|x: int, y: int, z: int| 1 <= x <= 32 && 1 <= z <= 32 implies #[trigger] grass_here(terrain, x, y, z)
            == terrain_grass_here(solid@, carved@, x, y, z) by {
            if 1 <= y <= 32 {
                lemma_linearize_delinearize(x, y, z);
                lemma_linearize_delinearize(x, y + 1, z);
            }
        }
        if grass_before(terrain, 33, 1) {
            let (cx, cz) = choose|cx: int, cz: int|
                1 <= cx <= 32 && 1 <= cz <= 32 && (cx < 33 || (cx == 33 && cz < 1)) && #[trigger] column_has_grass(
                    terrain,
                    cx,
                    cz,
                );
            let cy = choose|cy: int| #[trigger] grass_here(terrain, cx, cy, cz);
            assert(terrain_grass_here(solid@, carved@, cx, cy, cz));
        }
        if terrain_has_grass(solid@, carved@) {
            let (cx, cy, cz) = choose|x: int, y: int, z: int|
                1 <= x <= 32 && 1 <= z <= 32 && #[trigger] terrain_grass_here(solid@, carved@, x, y, z);
            assert(grass_here(terrain, cx, cy, cz));
            assert(column_has_grass(terrain, cx, cz));
        }
    }
    proof {
        assert forall|i: int| 0 <= i < 39304 implies #[trigger] chunk.block_at(i) == generated_block(
            solid@,
            carved@,
            cell(i).0,
            cell(i).1,
            cell(i).2,
        ) by {
            lemma_delinearize_linearize(i);
            let (x, y, z) = cell(i);
            lemma_linearize_delinearize(x, y, z);
            if 1 <= y + 1 <= 33 {
                lemma_linearize_delinearize(x, y + 1, z);
            }
            if y + 2 <= 33 {
                lemma_linearize_delinearize(x, y + 2, z);
            }
        }
    }
    chunk
}

/// The height used to scale cave carving: `pos` limited to the range -128 to 96.
pub fn clamp_height(pos: i32) -> (r: i32)
    ensures
        r == (if pos > 96 {
            96i32
        } else if pos < -128 {
            -128i32
        } else {
            pos
        }),
{
    let max_height: i32 = 96;
    let min_height: i32 = -128;
    let mut val = pos;
    if pos > max_height {
        val = max_height;
    } else if pos < min_height {
        val = min_height;
    }
    val
}

} // verus!

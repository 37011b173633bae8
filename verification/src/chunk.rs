use vstd::prelude::*;

use crate::math::{IVec3, UVec3};
use crate::storage::{BlockType, LoadableTypes, same_block};
use crate::voxel::{VoxelType, VoxelVisibility};
use crate::palette::{
    air_name, state_names, remap, lemma_first_index, lemma_no_index, lemma_index_facts,
    lemma_remap_names, lemma_first_index_push,
};

verus! {

/// Number of voxels along one edge of a chunk, without its padding.
pub const CHUNK_SIZE: u32 = 32;
/// Edge length of a chunk with one layer of padding on each side.
pub const CHUNK_SIZE_PADDED: u32 = 34;
/// Coordinate of the far padding layer.
pub const CHUNK_BOUND: u32 = 33;
/// Voxel count of a padded chunk.
pub const TOTAL_CHUNK_SIZE: u32 = 39304;
/// Voxel count of a padded chunk, as an index bound.
pub const TOTAL_CHUNK_USIZE: usize = 39304;

/// The padded size and the bound follow from the chunk size.
pub proof fn lemma_chunk_constants()
    ensures
        CHUNK_SIZE_PADDED == CHUNK_SIZE + 2,
        CHUNK_BOUND == CHUNK_SIZE + 1,
        TOTAL_CHUNK_SIZE == CHUNK_SIZE_PADDED * CHUNK_SIZE_PADDED * CHUNK_SIZE_PADDED,
        TOTAL_CHUNK_USIZE == TOTAL_CHUNK_SIZE,
{
}

/// The linear index of a voxel inside a padded chunk: x varies fastest, then y, then z.
pub open spec fn linear_index(x: int, y: int, z: int) -> int {
    x + y * 34 + z * 1156
}

pub open spec fn pos_index(p: UVec3) -> int {
    linear_index(p.x as int, p.y as int, p.z as int)
}

/// Delinearizing an index of the padded cube and linearizing the coordinates gives the
/// index back, and the coordinates lie in the cube.
pub proof fn lemma_delinearize_linearize(i: int)
    requires
        0 <= i < TOTAL_CHUNK_USIZE,
    ensures
        0 <= i % 34 < 34,
        0 <= (i / 34) % 34 < 34,
        0 <= i / 1156 < 34,
        linear_index(i % 34, (i / 34) % 34, i / 1156) == i,
{
    assert(0 <= i / 1156 < 34) by (nonlinear_arith)
        requires
            0 <= i < 39304,
    ;
    assert(linear_index(i % 34, (i / 34) % 34, i / 1156) == i) by (nonlinear_arith)
        requires
            0 <= i,
    {
        assert(i == (i / 34) * 34 + i % 34);
        assert(i / 34 == ((i / 34) / 34) * 34 + (i / 34) % 34);
        assert((i / 34) / 34 == i / 1156);
    }
}

/// Linearizing coordinates inside the padded cube and delinearizing the index gives the
/// coordinates back.
pub proof fn lemma_linearize_delinearize(x: int, y: int, z: int)
    requires
        0 <= x < 34,
        0 <= y < 34,
        0 <= z < 34,
    ensures
        0 <= linear_index(x, y, z) < TOTAL_CHUNK_USIZE,
        linear_index(x, y, z) % 34 == x,
        (linear_index(x, y, z) / 34) % 34 == y,
        linear_index(x, y, z) / 1156 == z,
{
    let i = linear_index(x, y, z);
    assert(0 <= i < 39304) by (nonlinear_arith)
        requires
            i == x + y * 34 + z * 1156,
            0 <= x < 34,
            0 <= y < 34,
            0 <= z < 34,
    ;
    assert(i % 34 == x && i / 34 == y + z * 34) by (nonlinear_arith)
        requires
            i == x + y * 34 + z * 1156,
            0 <= x < 34,
            0 <= y,
            0 <= z,
    {
        vstd::arithmetic::div_mod::lemma_fundamental_div_mod_converse(i, 34, y + z * 34, x);
    }
    assert((y + z * 34) % 34 == y && (y + z * 34) / 34 == z) by (nonlinear_arith)
        requires
            0 <= y < 34,
            0 <= z,
    {
        vstd::arithmetic::div_mod::lemma_fundamental_div_mod_converse(y + z * 34, 34, z, y);
    }
    assert(i / 1156 == z) by (nonlinear_arith)
        requires
            i == x + y * 34 + z * 1156,
            0 <= x < 34,
            0 <= y < 34,
            0 <= z,
    {
        vstd::arithmetic::div_mod::lemma_fundamental_div_mod_converse(i, 1156, z, x + y * 34);
    }
}

/// The chunk a world voxel coordinate lies in: the floor of the coordinate over the chunk size.
pub open spec fn chunk_coord(c: int) -> int {
    c / 32
}

/// The coordinate of a world voxel inside its padded chunk: 1 to 32.
pub open spec fn local_coord(c: int) -> int {
    c % 32 + 1
}

/// The world voxel coordinate of padded-chunk coordinate `local` inside chunk `chunk`.
pub open spec fn world_coord(chunk: int, local: int) -> int {
    chunk * 32 + local - 1
}

/// Splits one world voxel coordinate into chunk and padded local coordinate.
fn split_coord(c: i32) -> (r: (i32, u32))
    ensures
        r.0 as int == chunk_coord(c as int),
        r.1 as int == local_coord(c as int),
{
    let shifted = (c as i64 + 2147483648) as u64;
    let q = shifted / 32;
    let rem = shifted % 32;
    proof {
        vstd::arithmetic::div_mod::lemma_fundamental_div_mod(shifted as int, 32);
        vstd::arithmetic::div_mod::lemma_fundamental_div_mod_converse(
            c as int,
            32,
            q as int - 67108864,
            rem as int,
        );
    }
    ((q as i64 - 67108864) as i32, (rem + 1) as u32)
}

/// The chunk that the world voxel at `pos` lies in.
pub fn world_to_chunk(pos: IVec3) -> (r: IVec3)
    ensures
        r.x as int == chunk_coord(pos.x as int),
        r.y as int == chunk_coord(pos.y as int),
        r.z as int == chunk_coord(pos.z as int),
{
    IVec3::new(split_coord(pos.x).0, split_coord(pos.y).0, split_coord(pos.z).0)
}

/// The chunk that the world voxel at `voxel_pos` lies in, and its padded coordinates there.
pub fn world_to_voxel(voxel_pos: IVec3) -> (r: (IVec3, UVec3))
    ensures
        r.0 == world_to_chunk_spec(voxel_pos),
        r.1.x as int == local_coord(voxel_pos.x as int),
        r.1.y as int == local_coord(voxel_pos.y as int),
        r.1.z as int == local_coord(voxel_pos.z as int),
{
    let (cx, lx) = split_coord(voxel_pos.x);
    let (cy, ly) = split_coord(voxel_pos.y);
    let (cz, lz) = split_coord(voxel_pos.z);
    (IVec3::new(cx, cy, cz), UVec3::new(lx, ly, lz))
}

/// The chunk that the world voxel at `pos` lies in.
pub open spec fn world_to_chunk_spec(pos: IVec3) -> IVec3 {
    IVec3 {
        x: chunk_coord(pos.x as int) as i32,
        y: chunk_coord(pos.y as int) as i32,
        z: chunk_coord(pos.z as int) as i32,
    }
}

/// The world voxel at padded coordinates `voxel_pos` of chunk `chunk_pos`.
pub fn voxel_to_world(voxel_pos: UVec3, chunk_pos: IVec3) -> (r: IVec3)
    requires
        i32::MIN <= world_coord(chunk_pos.x as int, voxel_pos.x as int) <= i32::MAX,
        i32::MIN <= world_coord(chunk_pos.y as int, voxel_pos.y as int) <= i32::MAX,
        i32::MIN <= world_coord(chunk_pos.z as int, voxel_pos.z as int) <= i32::MAX,
    ensures
        r.x as int == world_coord(chunk_pos.x as int, voxel_pos.x as int),
        r.y as int == world_coord(chunk_pos.y as int, voxel_pos.y as int),
        r.z as int == world_coord(chunk_pos.z as int, voxel_pos.z as int),
{
    IVec3::new(
        (chunk_pos.x as i64 * 32 + voxel_pos.x as i64 - 1) as i32,
        (chunk_pos.y as i64 * 32 + voxel_pos.y as i64 - 1) as i32,
        (chunk_pos.z as i64 * 32 + voxel_pos.z as i64 - 1) as i32,
    )
}

/// A world voxel coordinate splits into a chunk and a local coordinate from 1 to 32, and
/// joining them gives the coordinate back.
pub proof fn lemma_world_voxel_roundtrip(c: int)
    ensures
        1 <= local_coord(c) <= 32,
        world_coord(chunk_coord(c), local_coord(c)) == c,
{
    vstd::arithmetic::div_mod::lemma_fundamental_div_mod(c, 32);
}

/// A local coordinate from 1 to 32 inside a chunk names a world voxel that splits back
/// into the same chunk and local coordinate.
pub proof fn lemma_voxel_world_roundtrip(chunk: int, local: int)
    requires
        1 <= local <= 32,
    ensures
        chunk_coord(world_coord(chunk, local)) == chunk,
        local_coord(world_coord(chunk, local)) == local,
{
    vstd::arithmetic::div_mod::lemma_fundamental_div_mod_converse(
        world_coord(chunk, local),
        32,
        chunk,
        local - 1,
    );
}

/// Light levels for every voxel of a padded chunk.
#[derive(Debug)]
pub struct LightChunk {
    pub voxels: Vec<u8>,
}

impl LightChunk {
    /// The light level at coordinates (x, y, z).
    pub fn get_voxel(&self, x: u32, y: u32, z: u32) -> (r: u8)
        requires
            linear_index(x as int, y as int, z as int) < self.voxels@.len(),
        ensures
            r == self.voxels@[linear_index(x as int, y as int, z as int)],
    {
        let _len = self.voxels.len();
        let index = RawChunk::linearize(UVec3::new(x, y, z));
        self.voxels[index]
    }

    /// Walks the inner voxels of `raw_chunk` and reads the light value of each block;
    /// light does not spread yet, so the light levels stay as they are.
    pub fn calculate_light(
        &mut self,
        raw_chunk: &RawChunk,
        _neighbors: [&RawChunk; 6],
        loadable_types: &LoadableTypes,
    )
        requires
            forall|i: int|
                0 <= i < raw_chunk.voxels@.len() && 1 <= i % 34 <= 32 && 1 <= (i / 34) % 34 <= 32
                    && 1 <= ((i / 1156) as u32) <= 32 ==> raw_chunk.readable(loadable_types, i),
        ensures
            final(self).voxels@ == old(self).voxels@,
    {
        let n = raw_chunk.voxels.len();
        let mut i: usize = 0;
        while i < n
            invariant
                n == raw_chunk.voxels@.len(),
                i <= n,
                self.voxels@ == old(self).voxels@,
                forall|j: int|
                    0 <= j < raw_chunk.voxels@.len() && 1 <= j % 34 <= 32 && 1 <= (j / 34) % 34 <= 32
                        && 1 <= ((j / 1156) as u32) <= 32 ==> raw_chunk.readable(loadable_types, j),
            decreases n - i,
        {
            let (x, y, z) = RawChunk::delinearize(i);
            if (x > 0 && x < CHUNK_BOUND) && (y > 0 && y < CHUNK_BOUND) && (z > 0 && z < CHUNK_BOUND) {
                if let Some(light_val) = raw_chunk.get_data(i, loadable_types) {
                    let light_val = light_val.light_val;
                    if light_val > 0 {
                        let mut l: u8 = 0;
                        while l < light_val
                            invariant
                                l <= light_val,
                            decreases light_val - l,
                        {
                            l = l + 1;
                        }
                    }
                }
            }
            i = i + 1;
        }
    }
}

/// A chunk: a palette of block state names and, for every voxel of the padded cube,
/// the palette index of the state it holds.
#[derive(Debug, PartialEq, Eq, Hash)]
pub struct RawChunk {
    pub palette: Vec<String>,
    pub voxels: Vec<u16>,
}

impl RawChunk {
    /// The palette as names.
    pub open spec fn states(&self) -> Seq<Seq<char>> {
        state_names(self.palette@)
    }

    /// Every voxel of the padded cube is present, the palette fits the u16 index space,
    /// and every voxel names an entry of the palette.
    pub open spec fn wf(&self) -> bool {
        &&& self.voxels@.len() == TOTAL_CHUNK_USIZE
        &&& self.palette@.len() <= 65536
        &&& forall|i: int|
            0 <= i < self.voxels@.len() ==> (#[trigger] self.voxels@[i] as int) < self.palette@.len()
    }

    /// The name of the state held by the voxel at linear index `i`.
    pub open spec fn block_at(&self, i: int) -> Seq<char> {
        self.states()[self.voxels@[i] as int]
    }

    /// A fresh chunk: every voxel is air, and air is the only palette entry.
    pub fn new() -> (r: RawChunk)
        ensures
            r.states() == seq![air_name()],
            r.voxels@ == Seq::new(TOTAL_CHUNK_USIZE as nat, |i: int| 0u16),
            r.wf(),
    {
        let mut palette: Vec<String> = Vec::new();
        let air = String::from_str("air");
        proof {
            reveal_strlit("air");
            assert(air@ =~= air_name());
        }
        palette.push(air);
        let mut voxels: Vec<u16> = Vec::new();
        let mut i: usize = 0;
        while i < TOTAL_CHUNK_USIZE
            invariant
                i <= TOTAL_CHUNK_USIZE,
                voxels@ == Seq::new(i as nat, |j: int| 0u16),
            decreases TOTAL_CHUNK_USIZE - i,
        {
            voxels.push(0);
            i = i + 1;
        }
        let r = RawChunk { palette, voxels };
        assert(r.states() =~= seq![air_name()]);
        r
    }

    /// Index of the first palette entry named `block_data`.
    pub fn get_index_for_state(&self, block_data: &String) -> (r: Option<usize>)
        ensures
            match self.states().index_of_first(block_data@) {
                Some(n) => r == Some(n as usize),
                None => r is None,
            },
    {
        let ghost names = self.states();
        let mut i: usize = 0;
        while i < self.palette.len()
            invariant
                i <= self.palette@.len(),
                names == self.states(),
                forall|j: int| 0 <= j < i ==> names[j] != block_data@,
            decreases self.palette@.len() - i,
        {
            if self.palette[i] == *block_data {
                proof {
                    lemma_first_index(names, block_data@, i as int);
                }
                return Some(i);
            }
            i = i + 1;
        }
        proof {
            lemma_no_index(names, block_data@);
        }
        None
    }

    /// The palette entry at `index`, if there is one.
    pub fn get_state_for_index(&self, index: usize) -> (r: Option<String>)
        ensures
            r is Some <==> index < self.palette@.len(),
            r matches Some(s) ==> s@ == self.states()[index as int],
    {
        if index < self.palette.len() {
            Some(self.palette[index].clone())
        } else {
            None
        }
    }

    /// The voxel at linear index `i` can be read: it names a palette entry, and unless that
    /// entry is air, the block table knows it.
    pub open spec fn readable(&self, types: &LoadableTypes, i: int) -> bool {
        &&& 0 <= i < self.voxels@.len()
        &&& (self.voxels@[i] as int) < self.palette@.len()
        &&& (self.block_at(i) != air_name() ==> types.block(self.block_at(i)) is Some)
    }

    /// The voxel at linear index `i` as the mesher sees it: air is empty; any other state
    /// takes the visibility of its block type and carries the first palette index of its name.
    pub open spec fn voxel_type_at(&self, types: &LoadableTypes, i: int) -> VoxelType {
        let name = self.block_at(i);
        let id = (self.states().index_of_first(name)->Some_0) as u16;
        if name == air_name() {
            VoxelType::Empty(0)
        } else {
            match types.block(name)->Some_0.visibility {
                VoxelVisibility::Empty => VoxelType::Empty(id),
                VoxelVisibility::Opaque => VoxelType::Opaque(id),
                VoxelVisibility::Transparent => VoxelType::Transparent(id),
            }
        }
    }

    /// The voxel at linear index `index`, as the mesher sees it.
    pub fn get_voxel(&self, index: usize, loadable_types: &LoadableTypes) -> (r: VoxelType)
        requires
            self.readable(loadable_types, index as int),
        ensures
            r == self.voxel_type_at(loadable_types, index as int),
    {
        let block_state = self.get_state_for_index(self.voxels[index] as usize).unwrap();
        proof {
            lemma_index_facts(self.states(), block_state@);
            assert(self.states()[self.voxels@[index as int] as int] == block_state@);
        }
        let block_id = self.get_index_for_state(&block_state).unwrap() as u16;
        let air = String::from_str("air");
        proof {
            reveal_strlit("air");
            assert(air@ =~= air_name());
        }
        if block_state == air {
            VoxelType::Empty(0)
        } else {
            let voxel_visibility = loadable_types.get_block(&block_state).unwrap().visibility;
            match voxel_visibility {
                VoxelVisibility::Empty => VoxelType::Empty(block_id),
                VoxelVisibility::Opaque => VoxelType::Opaque(block_id),
                VoxelVisibility::Transparent => VoxelType::Transparent(block_id),
            }
        }
    }

    /// The block type of the voxel at linear index `index`; none for air.
    pub fn get_data(&self, index: usize, loadable_types: &LoadableTypes) -> (r: Option<BlockType>)
        requires
            self.readable(loadable_types, index as int),
        ensures
            r is None <==> self.block_at(index as int) == air_name(),
            r matches Some(b) ==> same_block(b, loadable_types.block(self.block_at(index as int))->Some_0),
    {
        let block_state = self.get_state_for_index(self.voxels[index] as usize).unwrap();
        let air = String::from_str("air");
        proof {
            reveal_strlit("air");
            assert(air@ =~= air_name());
        }
        if block_state == air {
            None
        } else {
            Some(loadable_types.get_block(&block_state).unwrap().clone())
        }
    }

    /// Number of voxels in a padded chunk.
    pub fn size() -> (r: usize)
        ensures
            r == TOTAL_CHUNK_USIZE,
    {
        34 * 34 * 34
    }

    /// The voxel at coordinates (x, y, z), as the mesher sees it.
    pub fn get(&self, x: u32, y: u32, z: u32, loadable_types: &LoadableTypes) -> (r: VoxelType)
        requires
            self.readable(loadable_types, linear_index(x as int, y as int, z as int)),
        ensures
            r == self.voxel_type_at(loadable_types, linear_index(x as int, y as int, z as int)),
    {
        let _len = self.voxels.len();
        self.get_voxel(RawChunk::linearize(UVec3::new(x, y, z)), loadable_types)
    }

    /// Points every voxel that named an entry of `old_vec` at the first entry of the
    /// current palette with the same name, or at entry 0 when the name is gone.
    /// Voxels that named no entry of `old_vec` keep their value.
    pub fn update_chunk_pal(&mut self, old_vec: &[String])
        ensures
            final(self).palette == old(self).palette,
            final(self).voxels@.len() == old(self).voxels@.len(),
            forall|i: int|
                0 <= i < old(self).voxels@.len() ==> #[trigger] final(self).voxels@[i] == remap(
                    state_names(old_vec@),
                    old(self).states(),
                    old(self).voxels@[i],
                ),
    {
        let ghost before = self.voxels@;
        let ghost old_names = state_names(old_vec@);
        let n = self.voxels.len();
        let mut i: usize = 0;
        while i < n
            invariant
                n == before.len(),
                i <= n,
                self.voxels@.len() == n,
                self.palette == old(self).palette,
                old_names == state_names(old_vec@),
                forall|j: int|
                    0 <= j < i ==> #[trigger] self.voxels@[j] == remap(
                        old_names,
                        old(self).states(),
                        before[j],
                    ),
                forall|j: int| i <= j < n ==> #[trigger] self.voxels@[j] == before[j],
            decreases n - i,
        {
            let v = self.voxels[i];
            if (v as usize) < old_vec.len() {
                let block_data = &old_vec[v as usize];
                assert(old_names[v as int] == block_data@);
                let _plen = self.palette.len();
                assert(self.states() == old(self).states());
                match self.get_index_for_state(block_data) {
                    Some(new_index) => {
                        proof {
                            lemma_index_facts(old(self).states(), block_data@);
                            assert(old(self).states().index_of_first(block_data@) == Some(new_index as int));
                        }
                        self.voxels.set(i, new_index as u16);
                    },
                    None => {
                        assert(old(self).states().index_of_first(block_data@) is None);
                        self.voxels.set(i, 0);
                    },
                }
            }
            assert(self.voxels@[i as int] == remap(old_names, old(self).states(), before[i as int]));
            i = i + 1;
        }
    }

    /// Appends `block_data` to the palette when no entry has that name yet.
    pub fn add_block_state(&mut self, block_data: &String)
        ensures
            old(self).states().contains(block_data@) ==> *final(self) == *old(self),
            !old(self).states().contains(block_data@) ==> {
                &&& final(self).states() == old(self).states().push(block_data@)
                &&& final(self).voxels@.len() == old(self).voxels@.len()
                &&& forall|i: int|
                    0 <= i < old(self).voxels@.len() ==> #[trigger] final(self).voxels@[i] == remap(
                        old(self).states(),
                        final(self).states(),
                        old(self).voxels@[i],
                    )
            },
            final(self).states().contains(block_data@),
            forall|i: int|
                0 <= i < old(self).voxels@.len() && (old(self).voxels@[i] as int) < old(self).palette@.len() ==> (#[trigger] final(self).voxels@[i] as int) < final(self).palette@.len() && final(self).block_at(i) == old(self).block_at(i),
            old(self).wf() && (old(self).states().contains(block_data@) || old(self).palette@.len() < 65536) ==> final(self).wf(),
    {
        let old_vec = self.palette.clone();
        proof {
            assert(old_vec@ =~= self.palette@);
            lemma_index_facts(self.states(), block_data@);
        }
        if self.get_index_for_state(block_data).is_none() {
            self.palette.push(block_data.clone());
            proof {
                assert(self.states() =~= old(self).states().push(block_data@));
            }
            self.update_chunk_pal(old_vec.as_slice());
            proof {
                let olds = old(self).states();
                let news = self.states();
                assert(news[olds.len() as int] == block_data@);
                assert forall|i: int| 0 <= i < old(self).voxels@.len() && (old(self).voxels@[i] as int) < old(self).palette@.len() implies (#[trigger] self.voxels@[i] as int) < self.palette@.len()
                    && self.block_at(i) == old(self).block_at(i) by {
                    let v = old(self).voxels@[i];
                    lemma_first_index_push(olds, block_data@, v as int);
                    lemma_remap_names(olds, news, v);
                    assert(news[v as int] == olds[v as int]);
                }
                if old(self).wf() {
                    assert forall|i: int| 0 <= i < old(self).voxels@.len() implies #[trigger] self.block_at(i)
                        == old(self).block_at(i) && (self.voxels@[i] as int) < self.palette@.len() by {
                        let v = old(self).voxels@[i];
                        lemma_first_index_push(olds, block_data@, v as int);
                        lemma_remap_names(olds, news, v);
                        assert(news[v as int] == olds[v as int]);
                    }
                    assert forall|i: int| 0 <= i < self.voxels@.len() implies (#[trigger] self.voxels@[i]
                        as int) < self.palette@.len() by {
                        assert(self.block_at(i) == old(self).block_at(i));
                    }
                }
            }
        } else {
            proof {
                assert(self.states().contains(block_data@));
            }
        }
    }

    /// Takes the first palette entry named `block_data` out of the palette and re-points
    /// the voxels; air is never taken out.
    pub fn remove_block_state(&mut self, block_data: &String)
        ensures
            (block_data@ == air_name() || !old(self).states().contains(block_data@))
                ==> *final(self) == *old(self),
            (block_data@ != air_name() && old(self).states().contains(block_data@)) ==> {
                let id = old(self).states().index_of_first(block_data@)->Some_0;
                &&& final(self).states() == old(self).states().remove(id)
                &&& final(self).voxels@.len() == old(self).voxels@.len()
                &&& forall|i: int|
                    0 <= i < old(self).voxels@.len() ==> #[trigger] final(self).voxels@[i] == remap(
                        old(self).states(),
                        final(self).states(),
                        old(self).voxels@[i],
                    )
            },
            old(self).wf() && final(self).palette@.len() > 0 ==> {
                &&& final(self).wf()
                &&& forall|i: int|
                    0 <= i < old(self).voxels@.len() ==> #[trigger] final(self).block_at(i) == (if final(self).states().contains(old(self).block_at(i)) {
                        old(self).block_at(i)
                    } else {
                        final(self).states()[0]
                    })
            },
    {
        let air = String::from_str("air");
        proof {
            reveal_strlit("air");
            assert(air@ =~= air_name());
            lemma_index_facts(self.states(), block_data@);
        }
        if *block_data == air {
            return;
        }
        let old_vec = self.palette.clone();
        proof {
            assert(old_vec@ =~= self.palette@);
        }
        if let Some(id) = self.get_index_for_state(block_data) {
            self.palette.remove(id);
            proof {
                assert(self.states() =~= old(self).states().remove(id as int));
            }
            self.update_chunk_pal(old_vec.as_slice());
            proof {
                let olds = old(self).states();
                let news = self.states();
                if old(self).wf() && self.palette@.len() > 0 {
                    assert forall|i: int| 0 <= i < old(self).voxels@.len() implies (#[trigger] self.voxels@[i]
                        as int) < self.palette@.len() && self.block_at(i) == (if news.contains(
                        old(self).block_at(i),
                    ) {
                        old(self).block_at(i)
                    } else {
                        news[0]
                    }) by {
                        let v = old(self).voxels@[i];
                        lemma_index_facts(news, olds[v as int]);
                        lemma_remap_names(olds, news, v);
                    }
                }
            }
        }
    }

    /// Points the voxel at `pos` at the first palette entry named `block_data`;
    /// nothing changes when the palette has no such entry.
    pub fn set_block(&mut self, pos: UVec3, block_data: String)
        requires
            pos_index(pos) < old(self).voxels@.len(),
        ensures
            final(self).palette == old(self).palette,
            final(self).voxels@ == match old(self).states().index_of_first(block_data@) {
                Some(n) => old(self).voxels@.update(pos_index(pos), n as u16),
                None => old(self).voxels@,
            },
            old(self).states().contains(block_data@) ==> (final(self).voxels@[pos_index(pos)] as int)
                < final(self).palette@.len(),
            old(self).states().index_of_first(block_data@) matches Some(n) && n < 65536 ==> final(self).block_at(pos_index(pos)) == block_data@,
            old(self).wf() && old(self).states().contains(block_data@) ==> {
                &&& final(self).wf()
                &&& final(self).block_at(pos_index(pos)) == block_data@
                &&& forall|i: int|
                    0 <= i < old(self).voxels@.len() && i != pos_index(pos) ==> #[trigger] final(self).block_at(i) == old(self).block_at(i)
            },
    {
        let _len = self.voxels.len();
        let _plen = self.palette.len();
        let index = Self::linearize(pos);
        proof {
            lemma_index_facts(self.states(), block_data@);
        }
        if let Some(block_type) = self.get_index_for_state(&block_data) {
            if block_type == 0 {
                self.voxels.set(index, 0);
            } else {
                self.voxels.set(index, block_type as u16);
            }
            proof {
                if old(self).wf() {
                    assert forall|i: int| 0 <= i < self.voxels@.len() implies (#[trigger] self.voxels@[i]
                        as int) < self.palette@.len() by {
                        if i != index as int {
                            assert(self.voxels@[i] == old(self).voxels@[i]);
                        }
                    }
                }
            }
        }
    }

    /// The name of the state held by the voxel at `pos`, if the voxel names a palette entry.
    pub fn get_block(&self, pos: UVec3) -> (r: Option<String>)
        requires
            pos_index(pos) < self.voxels@.len(),
        ensures
            r is Some <==> (self.voxels@[pos_index(pos)] as int) < self.palette@.len(),
            r matches Some(s) ==> s@ == self.block_at(pos_index(pos)),
    {
        let _len = self.voxels.len();
        let index = Self::linearize(pos);
        self.get_state_for_index(self.voxels[index] as usize)
    }

    /// The linear index of `pos` in the padded cube.
    pub fn linearize(pos: UVec3) -> (r: usize)
        requires
            pos_index(pos) <= usize::MAX,
        ensures
            r as int == pos_index(pos),
    {
        pos.x as usize + pos.y as usize * 34 + pos.z as usize * 1156
    }

    /// The coordinates of the voxel at linear index `index`.
    pub fn delinearize(index: usize) -> (r: (u32, u32, u32))
        ensures
            r.0 as int == index as int % 34,
            r.1 as int == (index as int / 34) % 34,
            r.2 == ((index as int / 1156) as u32),
    {
        let mut index = index;
        let z = index / 1156;
        index = index - z * 1156;
        let y = index / 34;
        index = index - y * 34;
        let x = index;
        (x as u32, y as u32, z as u32)
    }
}

/// Read after write: once `set_block(pos, name)` took `before` to `after` on a chunk whose
/// palette names `name` at a first index that fits a voxel, `get_block(pos)` gives `name`
/// back, and every other voxel keeps its block.
pub proof fn lemma_set_then_get(before: RawChunk, after: RawChunk, pos: UVec3, name: Seq<char>)
    requires
        before.wf(),
        pos_index(pos) < before.voxels@.len(),
        before.states().contains(name),
        after.palette == before.palette,
        after.voxels@ == match before.states().index_of_first(name) {
            Some(n) => before.voxels@.update(pos_index(pos), n as u16),
            None => before.voxels@,
        },
    ensures
        after.wf(),
        (after.voxels@[pos_index(pos)] as int) < after.palette@.len(),
        after.block_at(pos_index(pos)) == name,
        forall|i: int|
            0 <= i < before.voxels@.len() && i != pos_index(pos) ==> #[trigger] after.block_at(i)
                == before.block_at(i),
{
    lemma_index_facts(before.states(), name);
    let n = before.states().index_of_first(name)->Some_0;
    assert(n < 65536);
    assert forall|i: int| 0 <= i < after.voxels@.len() implies (#[trigger] after.voxels@[i] as int)
        < after.palette@.len() by {
        if i != pos_index(pos) {
            assert(after.voxels@[i] == before.voxels@[i]);
        }
    }
}

/// Adding a block state that the palette lacks, then removing it again, gives the palette
/// back, and every voxel of a well-formed chunk keeps its block throughout.
pub proof fn lemma_add_then_remove(c0: RawChunk, c1: RawChunk, c2: RawChunk, name: Seq<char>)
    requires
        c0.wf(),
        !c0.states().contains(name),
        name != air_name(),
        c1.states() == c0.states().push(name),
        c1.voxels@.len() == c0.voxels@.len(),
        forall|i: int|
            0 <= i < c0.voxels@.len() ==> #[trigger] c1.voxels@[i] == remap(
                c0.states(),
                c1.states(),
                c0.voxels@[i],
            ),
        c2.states() == c1.states().remove(c1.states().index_of_first(name)->Some_0),
        c2.voxels@.len() == c1.voxels@.len(),
        forall|i: int|
            0 <= i < c1.voxels@.len() ==> #[trigger] c2.voxels@[i] == remap(
                c1.states(),
                c2.states(),
                c1.voxels@[i],
            ),
    ensures
        c2.states() == c0.states(),
        c2.wf(),
        forall|i: int| 0 <= i < c0.voxels@.len() ==> #[trigger] c2.block_at(i) == c0.block_at(i),
{
    let s0 = c0.states();
    let s1 = c1.states();
    assert(s1[s0.len() as int] == name);
    lemma_index_facts(s0, name);
    lemma_first_index(s1, name, s0.len() as int);
    assert(s1.remove(s0.len() as int) =~= s0);
    assert(c2.palette@.len() == c0.palette@.len());
    assert forall|i: int| 0 <= i < c0.voxels@.len() implies (#[trigger] c2.voxels@[i] as int)
        < c2.palette@.len() && c2.block_at(i) == c0.block_at(i) by {
        let v = c0.voxels@[i];
        lemma_first_index_push(s0, name, v as int);
        lemma_remap_names(s0, s1, v);
        let k = c1.voxels@[i];
        assert(s1[k as int] == s0[v as int]);
        lemma_index_facts(s0, s0[v as int]);
        lemma_remap_names(s1, s0, k);
    }
}


impl Default for RawChunk {
    /// A fresh chunk, as `RawChunk::new` makes it.
    fn default() -> (r: RawChunk)
        ensures
            r.states() == seq![air_name()],
            r.voxels@ == Seq::new(TOTAL_CHUNK_USIZE as nat, |i: int| 0u16),
            r.wf(),
    {
        RawChunk::new()
    }
}

impl Clone for RawChunk {
    fn clone(&self) -> (r: RawChunk)
        ensures
            r.palette@ == self.palette@,
            r.voxels@ == self.voxels@,
    {
        let palette = self.palette.clone();
        let voxels = self.voxels.clone();
        proof {
            assert(palette@ =~= self.palette@);
            assert(voxels@ =~= self.voxels@);
        }
        RawChunk { palette, voxels }
    }
}

} // verus!

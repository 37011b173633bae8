use vstd::prelude::*;

use std::collections::{HashMap, HashSet};

use crate::chunk::{RawChunk, CHUNK_SIZE, pos_index};
use crate::math::{IVec2, IVec3, UVec3};
use crate::palette::{air_name, remap};

verus! {

broadcast use vstd::std_specs::hash::group_hash_axioms;

/// How far around a player chunks are kept, in chunks: `horizontal` along x and z,
/// `vertical` along y.
#[derive(Clone, Copy, Debug, PartialEq, Eq, Structural, Default)]
pub struct ViewDistance {
    pub horizontal: i32,
    pub vertical: i32,
}

/// How far around a player the world is simulated, in chunks.
#[derive(Clone, Copy, Debug, PartialEq, Eq, Structural, Default)]
pub struct SimulationDistance {
    pub width: i32,
    pub depth: i32,
    pub height: i32,
}

/// `v` is a value of `i32`.
pub open spec fn fits_i32(v: int) -> bool {
    i32::MIN <= v <= i32::MAX
}

/// The chunk position with coordinates (x, y, z), when each fits in `i32`.
pub open spec fn at(x: int, y: int, z: int) -> IVec3 {
    IVec3 { x: x as i32, y: y as i32, z: z as i32 }
}

/// A chunk at (x, y, z) is in `chunks`; coordinates outside `i32` name no chunk.
pub open spec fn has_chunk_at(chunks: Map<IVec3, u64>, x: int, y: int, z: int) -> bool {
    &&& fits_i32(x)
    &&& fits_i32(y)
    &&& fits_i32(z)
    &&& chunks.contains_key(at(x, y, z))
}

/// The number under which a chunk position is stored: the three coordinates, each shifted
/// into `0..2^32`, as the digits of a number in base `2^32`.
pub open spec fn chunk_key(p: IVec3) -> int {
    (p.x + 0x8000_0000) * 0x1_0000_0000_0000_0000 + (p.y + 0x8000_0000) * 0x1_0000_0000 + (p.z
        + 0x8000_0000)
}

/// Distinct positions are stored under distinct numbers.
pub proof fn lemma_chunk_key_injective(a: IVec3, b: IVec3)
    ensures
        chunk_key(a) == chunk_key(b) ==> a == b,
        0 <= chunk_key(a) <= u128::MAX,
{
    let ax = a.x + 0x8000_0000;
    let ay = a.y + 0x8000_0000;
    let az = a.z + 0x8000_0000;
    let bx = b.x + 0x8000_0000;
    let by_ = b.y + 0x8000_0000;
    let bz = b.z + 0x8000_0000;
    assert(0 <= chunk_key(a) <= u128::MAX) by (nonlinear_arith)
        requires
            0 <= ax < 0x1_0000_0000,
            0 <= ay < 0x1_0000_0000,
            0 <= az < 0x1_0000_0000,
            chunk_key(a) == ax * 0x1_0000_0000_0000_0000 + ay * 0x1_0000_0000 + az,
    ;
    if chunk_key(a) == chunk_key(b) {
        let k = chunk_key(a);
        let high_a = ax * 0x1_0000_0000 + ay;
        let high_b = bx * 0x1_0000_0000 + by_;
        assert(k == high_a * 0x1_0000_0000 + az);
        assert(k == high_b * 0x1_0000_0000 + bz);
        vstd::arithmetic::div_mod::lemma_fundamental_div_mod_converse(k, 0x1_0000_0000, high_a, az);
        vstd::arithmetic::div_mod::lemma_fundamental_div_mod_converse(k, 0x1_0000_0000, high_b, bz);
        vstd::arithmetic::div_mod::lemma_fundamental_div_mod_converse(
            high_a,
            0x1_0000_0000,
            ax,
            ay,
        );
        vstd::arithmetic::div_mod::lemma_fundamental_div_mod_converse(
            high_b,
            0x1_0000_0000,
            bx,
            by_,
        );
    }
}

/// The number under which `pos` is stored.
fn key_of(pos: IVec3) -> (r: u128)
    ensures
        r == chunk_key(pos),
{
    proof {
        lemma_chunk_key_injective(pos, pos);
    }
    let x = (pos.x as i64 + 0x8000_0000) as u128;
    let y = (pos.y as i64 + 0x8000_0000) as u128;
    let z = (pos.z as i64 + 0x8000_0000) as u128;
    x * 0x1_0000_0000_0000_0000 + y * 0x1_0000_0000 + z
}

/// The chunks that exist, each with the entity that holds it.
pub struct CurrentChunks {
    chunks: HashMap<u128, u64>,
}

impl View for CurrentChunks {
    type V = Map<IVec3, u64>;

    /// Each chunk position with the entity stored for it.
    closed spec fn view(&self) -> Map<IVec3, u64> {
        Map::new(
            |p: IVec3| self.chunks@.contains_key(chunk_key(p) as u128),
            |p: IVec3| self.chunks@[chunk_key(p) as u128],
        )
    }
}

impl CurrentChunks {
    /// No chunk exists yet.
    pub fn new() -> (r: CurrentChunks)
        ensures
            r@ == Map::<IVec3, u64>::empty(),
    {
        let r = CurrentChunks { chunks: HashMap::new() };
        assert(r@ =~= Map::<IVec3, u64>::empty());
        r
    }

    /// Records `entity` as the holder of the chunk at `pos`, replacing an earlier one.
    pub fn insert_entity(&mut self, pos: IVec3, entity: u64)
        ensures
            final(self)@ == old(self)@.insert(pos, entity),
    {
        let k = key_of(pos);
        self.chunks.insert(k, entity);
        proof {
            assert forall|p: IVec3| #![trigger chunk_key(p)] self@.contains_key(p) == old(self)@.insert(pos, entity).contains_key(p)
                && (self@.contains_key(p) ==> self@[p] == old(self)@.insert(pos, entity)[p]) by {
                lemma_chunk_key_injective(p, pos);
                lemma_chunk_key_injective(p, p);
            }
            assert(self@ =~= old(self)@.insert(pos, entity));
        }
    }

    /// Forgets the chunk at `pos`, giving back the entity that held it.
    pub fn remove_entity(&mut self, pos: IVec3) -> (r: Option<u64>)
        ensures
            final(self)@ == old(self)@.remove(pos),
            r == (if old(self)@.contains_key(pos) {
                Some(old(self)@[pos])
            } else {
                None
            }),
    {
        let k = key_of(pos);
        let r = self.chunks.remove(&k);
        proof {
            lemma_chunk_key_injective(pos, pos);
            assert forall|p: IVec3| #![trigger chunk_key(p)] self@.contains_key(p) == old(self)@.remove(pos).contains_key(p)
                && (self@.contains_key(p) ==> self@[p] == old(self)@.remove(pos)[p]) by {
                lemma_chunk_key_injective(p, pos);
                lemma_chunk_key_injective(p, p);
            }
            assert(self@ =~= old(self)@.remove(pos));
        }
        r
    }

    /// The entity that holds the chunk at `pos`, if the chunk exists.
    pub fn get_entity(&self, pos: IVec3) -> (r: Option<u64>)
        ensures
            r == (if self@.contains_key(pos) {
                Some(self@[pos])
            } else {
                None
            }),
    {
        let k = key_of(pos);
        proof {
            lemma_chunk_key_injective(pos, pos);
        }
        match self.chunks.get(&k) {
            Some(e) => Some(*e),
            None => None,
        }
    }

    /// The chunk at `pos` exists.
    pub fn contains(&self, pos: IVec3) -> (r: bool)
        ensures
            r == self@.contains_key(pos),
    {
        let k = key_of(pos);
        proof {
            lemma_chunk_key_injective(pos, pos);
        }
        self.chunks.contains_key(&k)
    }

    /// Whether a chunk exists at `pos` moved by (dx, dy, dz); a position beyond the range of
    /// `i32` holds none.
    fn exists_at(&self, pos: IVec3, dx: i32, dy: i32, dz: i32) -> (r: bool)
        requires
            -1 <= dx <= 1,
            -1 <= dy <= 1,
            -1 <= dz <= 1,
        ensures
            r == has_chunk_at(self@, pos.x + dx, pos.y + dy, pos.z + dz),
    {
        match offset(pos, dx, dy, dz) {
            Some(p) => self.contains(p),
            None => false,
        }
    }

    /// All six chunks that share a face with the chunk at `pos` exist.
    pub fn all_neighbors_exist(&self, pos: IVec3, _min_bound: IVec2, _max_bound: IVec2) -> (r: bool)
        ensures
            r == (has_chunk_at(self@, pos.x as int, pos.y + 1, pos.z as int) && has_chunk_at(
                self@,
                pos.x as int,
                pos.y - 1,
                pos.z as int,
            ) && has_chunk_at(self@, pos.x + 1, pos.y as int, pos.z as int) && has_chunk_at(
                self@,
                pos.x - 1,
                pos.y as int,
                pos.z as int,
            ) && has_chunk_at(self@, pos.x as int, pos.y as int, pos.z + 1) && has_chunk_at(
                self@,
                pos.x as int,
                pos.y as int,
                pos.z - 1,
            )),
    {
        self.exists_at(pos, 0, 1, 0) && self.exists_at(pos, 0, -1, 0) && self.exists_at(pos, 1, 0, 0)
            && self.exists_at(pos, -1, 0, 0) && self.exists_at(pos, 0, 0, 1) && self.exists_at(
            pos,
            0,
            0,
            -1,
        )
    }
}

impl Default for CurrentChunks {
    fn default() -> (r: CurrentChunks)
        ensures
            r@ == Map::<IVec3, u64>::empty(),
    {
        CurrentChunks::new()
    }
}

/// `pos` moved by (dx, dy, dz), unless a coordinate leaves the range of `i32`.
pub fn offset(pos: IVec3, dx: i32, dy: i32, dz: i32) -> (r: Option<IVec3>)
    requires
        -1 <= dx <= 1,
        -1 <= dy <= 1,
        -1 <= dz <= 1,
    ensures
        r is Some <==> (fits_i32(pos.x + dx) && fits_i32(pos.y + dy) && fits_i32(pos.z + dz)),
        r matches Some(p) ==> p == at(pos.x + dx, pos.y + dy, pos.z + dz),
{
    let x = pos.x as i64 + dx as i64;
    let y = pos.y as i64 + dy as i64;
    let z = pos.z as i64 + dz as i64;
    if x < i32::MIN as i64 || x > i32::MAX as i64 || y < i32::MIN as i64 || y > i32::MAX as i64
        || z < i32::MIN as i64 || z > i32::MAX as i64 {
        None
    } else {
        Some(IVec3::new(x as i32, y as i32, z as i32))
    }
}

/// `pos` lies in the box around `center` that reaches from `min_bound` to `max_bound`: the
/// `x` of the bounds limits both x and z, their `y` limits y.
pub open spec fn in_radius(center: IVec3, pos: IVec3, min_bound: IVec2, max_bound: IVec2) -> bool {
    !((pos.x > max_bound.x + center.x || pos.x < min_bound.x + center.x) || (pos.y > max_bound.y
        + center.y || pos.y < min_bound.y + center.y) || (pos.z > max_bound.x + center.z || pos.z
        < min_bound.x + center.z))
}

/// Whether `pos` lies in the box around `center` from `min_bound` to `max_bound`.
fn radius_check(center: IVec3, pos: IVec3, min_bound: IVec2, max_bound: IVec2) -> (r: bool)
    ensures
        r == in_radius(center, pos, min_bound, max_bound),
{
    let px = pos.x as i64;
    let py = pos.y as i64;
    let pz = pos.z as i64;
    !((px > max_bound.x as i64 + center.x as i64 || px < min_bound.x as i64 + center.x as i64)
        || (py > max_bound.y as i64 + center.y as i64 || py < min_bound.y as i64 + center.y as i64)
        || (pz > max_bound.x as i64 + center.z as i64 || pz < min_bound.x as i64 + center.z as i64))
}

/// The chunk a client's player stands in.
#[derive(Clone, Copy, Debug, PartialEq, Eq, Structural, Default)]
pub struct PlayerChunk {
    pub chunk_pos: IVec3,
}

impl PlayerChunk {
    /// Whether `pos` lies in the box around the player's chunk from `min_bound` to `max_bound`.
    pub fn is_in_radius(&self, pos: IVec3, min_bound: IVec2, max_bound: IVec2) -> (r: bool)
        ensures
            r == in_radius(self.chunk_pos, pos, min_bound, max_bound),
    {
        radius_check(self.chunk_pos, pos, min_bound, max_bound)
    }
}

/// A chunk around which the server keeps the world loaded.
#[derive(Clone, Copy, Debug, PartialEq, Eq, Structural, Default)]
pub struct LoadPoint(pub IVec3);

impl LoadPoint {
    /// Whether `pos` lies in the box around the load point from `min_bound` to `max_bound`.
    pub fn is_in_radius(&self, pos: IVec3, min_bound: IVec2, max_bound: IVec2) -> (r: bool)
        ensures
            r == in_radius(self.0, pos, min_bound, max_bound),
    {
        if radius_check(self.0, pos, min_bound, max_bound) {
            true
        } else {
            false
        }
    }
}

/// A block change for the voxel at `voxel_pos` of the chunk at `chunk_pos`.
#[derive(Clone, Debug)]
pub struct SetBlockEvent {
    pub chunk_pos: IVec3,
    pub voxel_pos: UVec3,
    pub block_type: String,
}

/// The entity of the chunk across the padding face that voxel coordinate `c` touches along
/// the direction `d`: the chunk towards -d when `c` is 1, towards +d when `c` is 32, when
/// that chunk exists.
pub open spec fn edge_neighbor(chunks: Map<IVec3, u64>, cp: IVec3, c: u32, d: (int, int, int)) -> Seq<u64> {
    if c == 1 && has_chunk_at(chunks, cp.x - d.0, cp.y - d.1, cp.z - d.2) {
        seq![chunks[at(cp.x - d.0, cp.y - d.1, cp.z - d.2)]]
    } else if c == 32 && has_chunk_at(chunks, cp.x + d.0, cp.y + d.1, cp.z + d.2) {
        seq![chunks[at(cp.x + d.0, cp.y + d.1, cp.z + d.2)]]
    } else {
        Seq::empty()
    }
}

/// The entities to remesh after the voxel at `vp` of the chunk at `cp` changed: the
/// neighbours whose padding shows that voxel, along x, then y, then z, and last the chunk
/// itself.
pub open spec fn dirty_entities(chunks: Map<IVec3, u64>, cp: IVec3, vp: UVec3) -> Seq<u64> {
    edge_neighbor(chunks, cp, vp.x, (1, 0, 0)) + edge_neighbor(chunks, cp, vp.y, (0, 1, 0))
        + edge_neighbor(chunks, cp, vp.z, (0, 0, 1)) + seq![chunks[cp]]
}

/// The palette once `name` is placed: `name` is appended when missing.
pub open spec fn placed_states(states: Seq<Seq<char>>, name: Seq<char>) -> Seq<Seq<char>> {
    if states.contains(name) {
        states
    } else {
        states.push(name)
    }
}

/// The voxels `voxels` over palette `states` once `name` is placed at linear index `i`: when
/// the name joins the palette, every voxel is re-pointed at the first entry with its name;
/// then voxel `i` points at the first entry named `name`.
pub open spec fn voxels_after_place(states: Seq<Seq<char>>, voxels: Seq<u16>, i: int, name: Seq<char>) -> Seq<u16> {
    if states.contains(name) {
        voxels.update(i, states.index_of_first(name)->Some_0 as u16)
    } else {
        voxels.map_values(|v: u16| remap(states, placed_states(states, name), v)).update(
            i,
            placed_states(states, name).index_of_first(name)->Some_0 as u16,
        )
    }
}

/// The voxels of `before` once `name` is placed at linear index `i`.
pub open spec fn placed_voxels(before: RawChunk, i: int, name: Seq<char>) -> Seq<u16> {
    voxels_after_place(before.states(), before.voxels@, i, name)
}

/// `after` is `before` with the voxel at linear index `i` set to the block `name`: the name
/// joins the palette when the palette lacks it, and, while the palette fits the voxels'
/// index range, voxel `i` holds `name` and every other voxel keeps its block.
pub open spec fn block_placed(before: RawChunk, after: RawChunk, i: int, name: Seq<char>) -> bool {
    &&& after.states() == placed_states(before.states(), name)
    &&& after.voxels@ == placed_voxels(before, i, name)
    &&& after.voxels@.len() == before.voxels@.len()
    &&& before.wf() && after.palette@.len() <= 65536 ==> {
        &&& after.wf()
        &&& after.block_at(i) == name
        &&& forall|j: int|
            0 <= j < before.voxels@.len() && j != i ==> #[trigger] after.block_at(j)
                == before.block_at(j)
    }
}

/// Adds `name` to the palette when missing, then sets the voxel at `pos` to it.
pub fn place_block(chunk: &mut RawChunk, pos: UVec3, name: &String)
    requires
        pos_index(pos) < old(chunk).voxels@.len(),
    ensures
        block_placed(*old(chunk), *final(chunk), pos_index(pos), name@),
{
    chunk.add_block_state(name);
    let ghost mid = *chunk;
    proof {
        let before = *old(chunk);
        if !before.states().contains(name@) {
            assert(mid.voxels@ =~= before.voxels@.map_values(
                |v: u16| remap(before.states(), placed_states(before.states(), name@), v),
            ));
        }
        crate::palette::lemma_index_facts(mid.states(), name@);
    }
    chunk.set_block(pos, name.clone());
    proof {
        let before = *old(chunk);
        if before.wf() && chunk.palette@.len() <= 65536 {
            assert(mid.palette@.len() == chunk.palette@.len());
            assert(mid.wf());
            assert forall|j: int| 0 <= j < before.voxels@.len() && j != pos_index(pos) implies #[trigger] chunk.block_at(j)
                == before.block_at(j) by {
                assert(mid.block_at(j) == before.block_at(j));
            }
        }
    }
}

/// Appends `edge_neighbor(current, cp, c, (dx, dy, dz))` to `out`.
fn mark_edge(current: &CurrentChunks, cp: IVec3, c: u32, dx: i32, dy: i32, dz: i32, out: &mut Vec<u64>)
    requires
        0 <= dx <= 1,
        0 <= dy <= 1,
        0 <= dz <= 1,
    ensures
        final(out)@ == old(out)@ + edge_neighbor(current@, cp, c, (dx as int, dy as int, dz as int)),
{
    let ghost d = (dx as int, dy as int, dz as int);
    if c == 1 {
        if let Some(p) = offset(cp, -dx, -dy, -dz) {
            if let Some(e) = current.get_entity(p) {
                out.push(e);
            }
        }
    } else if c == CHUNK_SIZE {
        if let Some(p) = offset(cp, dx, dy, dz) {
            if let Some(e) = current.get_entity(p) {
                out.push(e);
            }
        }
    }
    assert(out@ =~= old(out)@ + edge_neighbor(current@, cp, c, d));
}

/// Applies a block change that reached a client: when the chunk at `evt.chunk_pos` exists,
/// `chunk` (its data) takes the block and the result lists the entities to remesh; when it
/// does not, nothing changes and the result is `None`.
pub fn set_block(current_chunks: &CurrentChunks, chunk: &mut RawChunk, evt: &SetBlockEvent) -> (r: Option<Vec<u64>>)
    requires
        pos_index(evt.voxel_pos) < old(chunk).voxels@.len(),
    ensures
        r is None <==> !current_chunks@.contains_key(evt.chunk_pos),
        r is None ==> *final(chunk) == *old(chunk),
        r matches Some(v) ==> {
            &&& block_placed(*old(chunk), *final(chunk), pos_index(evt.voxel_pos), evt.block_type@)
            &&& v@ == dirty_entities(current_chunks@, evt.chunk_pos, evt.voxel_pos)
        },
{
    let entity = match current_chunks.get_entity(evt.chunk_pos) {
        Some(e) => e,
        None => {
            return None;
        },
    };
    place_block(chunk, evt.voxel_pos, &evt.block_type);
    Some(dirty_chunks_of(current_chunks, evt.chunk_pos, evt.voxel_pos, entity))
}

/// The entities to remesh after the voxel at `vp` of the chunk at `cp`, held by `entity`,
/// changed.
pub(crate) fn dirty_chunks_of(current_chunks: &CurrentChunks, cp: IVec3, vp: UVec3, entity: u64) -> (r: Vec<u64>)
    requires
        current_chunks@.contains_key(cp),
        current_chunks@[cp] == entity,
    ensures
        r@ == dirty_entities(current_chunks@, cp, vp),
{
    let mut dirty: Vec<u64> = Vec::new();
    mark_edge(current_chunks, cp, vp.x, 1, 0, 0, &mut dirty);
    mark_edge(current_chunks, cp, vp.y, 0, 1, 0, &mut dirty);
    mark_edge(current_chunks, cp, vp.z, 0, 0, 1, &mut dirty);
    dirty.push(entity);
    assert(dirty@ =~= dirty_entities(current_chunks@, cp, vp));
    dirty
}

/// The chunks a server has sent to one client.
pub struct SentChunks {
    chunks: HashSet<u128>,
}

impl View for SentChunks {
    type V = Set<IVec3>;

    /// The positions of the chunks sent.
    closed spec fn view(&self) -> Set<IVec3> {
        Set::new(|p: IVec3| self.chunks@.contains(chunk_key(p) as u128))
    }
}

impl SentChunks {
    /// Nothing sent yet.
    pub fn new() -> (r: SentChunks)
        ensures
            r@ == Set::<IVec3>::empty(),
    {
        let r = SentChunks { chunks: HashSet::new() };
        assert(r@ =~= Set::<IVec3>::empty());
        r
    }

    /// Records the chunk at `pos` as sent.
    pub fn insert(&mut self, pos: IVec3)
        ensures
            final(self)@ == old(self)@.insert(pos),
    {
        let k = key_of(pos);
        self.chunks.insert(k);
        proof {
            assert forall|p: IVec3| #![trigger chunk_key(p)] self@.contains(p) == old(self)@.insert(pos).contains(p) by {
                lemma_chunk_key_injective(p, pos);
                lemma_chunk_key_injective(p, p);
            }
            assert(self@ =~= old(self)@.insert(pos));
        }
    }

    /// Forgets that the chunk at `pos` was sent.
    pub fn remove(&mut self, pos: IVec3)
        ensures
            final(self)@ == old(self)@.remove(pos),
    {
        let k = key_of(pos);
        self.chunks.remove(&k);
        proof {
            assert forall|p: IVec3| #![trigger chunk_key(p)] self@.contains(p) == old(self)@.remove(pos).contains(p) by {
                lemma_chunk_key_injective(p, pos);
                lemma_chunk_key_injective(p, p);
            }
            assert(self@ =~= old(self)@.remove(pos));
        }
    }

    /// The chunk at `pos` was sent.
    pub fn contains(&self, pos: IVec3) -> (r: bool)
        ensures
            r == self@.contains(pos),
    {
        let k = key_of(pos);
        proof {
            lemma_chunk_key_injective(pos, pos);
        }
        self.chunks.contains(&k)
    }
}

/// The squared distance between two chunk positions.
pub open spec fn dist2(a: IVec3, b: IVec3) -> int {
    (a.x - b.x) * (a.x - b.x) + (a.y - b.y) * (a.y - b.y) + (a.z - b.z) * (a.z - b.z)
}

/// The squared distance between `a` and `b`.
fn distance_squared(a: IVec3, b: IVec3) -> (r: i128)
    ensures
        r == dist2(a, b),
{
    let dx = a.x as i128 - b.x as i128;
    let dy = a.y as i128 - b.y as i128;
    let dz = a.z as i128 - b.z as i128;
    proof {
        assert(0 <= dx * dx <= 0x1_0000_0000 * 0x1_0000_0000) by (nonlinear_arith)
            requires
                -0x1_0000_0000 <= dx <= 0x1_0000_0000,
        ;
        assert(0 <= dy * dy <= 0x1_0000_0000 * 0x1_0000_0000) by (nonlinear_arith)
            requires
                -0x1_0000_0000 <= dy <= 0x1_0000_0000,
        ;
        assert(0 <= dz * dz <= 0x1_0000_0000 * 0x1_0000_0000) by (nonlinear_arith)
            requires
                -0x1_0000_0000 <= dz <= 0x1_0000_0000,
        ;
    }
    dx * dx + dy * dy + dz * dz
}

/// `s` is ordered from nearest to farthest from `center`.
pub open spec fn nearest_first_order(s: Seq<IVec3>, center: IVec3) -> bool {
    forall|i: int, j: int| 0 <= i < j < s.len() ==> dist2(#[trigger] s[i], center) <= dist2(#[trigger] s[j], center)
}

/// `chosen` holds `min(limit, |all|)` of the positions of `all`, nearest to `center` first,
/// and no position left out is nearer to `center` than a chosen one.
pub open spec fn nearest_of(chosen: Seq<IVec3>, all: Seq<IVec3>, center: IVec3, limit: int) -> bool {
    &&& chosen.len() == (if limit < all.len() {
        limit
    } else {
        all.len() as int
    })
    &&& nearest_first_order(chosen, center)
    &&& chosen.to_multiset().subset_of(all.to_multiset())
    &&& limit >= all.len() ==> chosen.to_multiset() == all.to_multiset()
    &&& forall|p: IVec3|
        chosen.to_multiset().count(p) < #[trigger] all.to_multiset().count(p) ==> forall|k: int|
            0 <= k < chosen.len() ==> dist2(#[trigger] chosen[k], center) <= dist2(p, center)
}

/// The `limit` positions of `positions` nearest to `center`, nearest first.
pub fn nearest_first(positions: Vec<IVec3>, center: IVec3, limit: usize) -> (r: Vec<IVec3>)
    ensures
        nearest_of(r@, positions@, center, limit as int),
{
    broadcast use vstd::seq_lib::group_to_multiset_ensures;
    broadcast use vstd::multiset::group_multiset_axioms;

    let ghost all = positions@;
    let mut rest = positions;
    let mut out: Vec<IVec3> = Vec::new();
    while out.len() < limit && rest.len() > 0
        invariant
            out@.to_multiset().add(rest@.to_multiset()) == all.to_multiset(),
            out@.len() <= limit,
            nearest_first_order(out@, center),
            forall|k: int, j: int|
                0 <= k < out@.len() && 0 <= j < rest@.len() ==> dist2(#[trigger] out@[k], center)
                    <= dist2(#[trigger] rest@[j], center),
        decreases rest@.len(),
    {
        let mut best: usize = 0;
        let mut best_d = distance_squared(rest[0], center);
        let mut j: usize = 1;
        while j < rest.len()
            invariant
                0 < rest@.len(),
                best < j <= rest@.len(),
                best_d == dist2(rest@[best as int], center),
                forall|i: int| 0 <= i < j ==> best_d <= dist2(#[trigger] rest@[i], center),
            decreases rest@.len() - j,
        {
            let d = distance_squared(rest[j], center);
            if d < best_d {
                best = j;
                best_d = d;
            }
            j = j + 1;
        }
        let ghost old_rest = rest@;
        let ghost old_out = out@;
        let p = rest.remove(best);
        out.push(p);
        proof {
            assert(old_rest.remove(best as int) == rest@);
            vstd::seq_lib::to_multiset_remove(old_rest, best as int);
            vstd::seq_lib::to_multiset_build(old_out, p);
            assert(out@ == old_out.push(p));
            assert(rest@.to_multiset() == old_rest.to_multiset().remove(p));
            assert(out@.to_multiset() == old_out.to_multiset().insert(p));
            assert(old_rest.to_multiset().count(p) > 0) by {
                assert(old_rest[best as int] == p);
                assert(old_rest.contains(p));
                vstd::seq_lib::to_multiset_contains(old_rest, p);
            }
            assert(out@.to_multiset().add(rest@.to_multiset()) =~= all.to_multiset());
            assert forall|k: int, j2: int| 0 <= k < out@.len() && 0 <= j2 < rest@.len() implies dist2(
                #[trigger] out@[k],
                center,
            ) <= dist2(#[trigger] rest@[j2], center) by {
                let jj = if j2 < best { j2 } else { j2 + 1 };
                assert(rest@[j2] == old_rest[jj]);
                if k < old_out.len() {
                    assert(out@[k] == old_out[k]);
                } else {
                    assert(out@[k] == p);
                }
            }
            assert forall|a: int, b: int| 0 <= a < b < out@.len() implies dist2(#[trigger] out@[a], center)
                <= dist2(#[trigger] out@[b], center) by {
                if b == out@.len() - 1 {
                    assert(out@[b] == old_rest[best as int]);
                    assert(out@[a] == old_out[a]);
                } else {
                    assert(out@[a] == old_out[a]);
                    assert(out@[b] == old_out[b]);
                }
            }
        }
    }
    proof {
        let om = out@.to_multiset();
        let rm = rest@.to_multiset();
        assert(om.len() + rm.len() == all.to_multiset().len());
        assert(om.subset_of(all.to_multiset()));
        if limit >= all.len() {
            assert(rest@.len() == 0);
            assert(rm =~= vstd::multiset::Multiset::empty());
            assert(om =~= all.to_multiset());
        }
        assert forall|p: IVec3| om.count(p) < #[trigger] all.to_multiset().count(p) implies forall|k: int|
            0 <= k < out@.len() ==> dist2(#[trigger] out@[k], center) <= dist2(p, center) by {
            assert(rm.count(p) > 0);
            vstd::seq_lib::to_multiset_contains(rest@, p);
            assert(rest@.contains(p));
            let j = choose|j: int| 0 <= j < rest@.len() && rest@[j] == p;
            assert forall|k: int| 0 <= k < out@.len() implies dist2(#[trigger] out@[k], center) <= dist2(p, center) by {
                assert(dist2(out@[k], center) <= dist2(rest@[j], center));
            }
        }
    }
    out
}

/// The lower corner of the box that a view distance keeps: (-horizontal, -vertical).
pub open spec fn view_min(view: ViewDistance) -> IVec2 {
    IVec2 { x: -view.horizontal as i32, y: -view.vertical as i32 }
}

/// The upper corner of the box that a view distance keeps: (horizontal, vertical).
pub open spec fn view_max(view: ViewDistance) -> IVec2 {
    IVec2 { x: view.horizontal, y: view.vertical }
}

/// Both distances can be negated.
pub open spec fn view_valid(view: ViewDistance) -> bool {
    view.horizontal > i32::MIN && view.vertical > i32::MIN
}

/// The view box around a point is symmetric: a position is in view exactly when it lies at
/// most `horizontal` chunks from the point along x and along z, and at most `vertical` chunks
/// along y, on either side.
pub proof fn lemma_view_box(center: IVec3, pos: IVec3, view: ViewDistance)
    requires
        view_valid(view),
    ensures
        in_radius(center, pos, view_min(view), view_max(view)) <==> {
            &&& pos.x - center.x <= view.horizontal && center.x - pos.x <= view.horizontal
            &&& pos.y - center.y <= view.vertical && center.y - pos.y <= view.vertical
            &&& pos.z - center.z <= view.horizontal && center.z - pos.z <= view.horizontal
        },
{
}

/// The two corners of the box that `view` keeps.
fn view_bounds(view: &ViewDistance) -> (r: (IVec2, IVec2))
    requires
        view_valid(*view),
    ensures
        r.0 == view_min(*view),
        r.1 == view_max(*view),
{
    (IVec2::new(-view.horizontal, -view.vertical), IVec2::new(view.horizontal, view.vertical))
}

/// Whether the chunk at `p` is picked by a scan of the box around a point: for `loaded`, a
/// chunk that exists and was not sent; otherwise a position where no chunk exists.
pub open spec fn box_pick(chunks: Map<IVec3, u64>, sent: Set<IVec3>, loaded: bool, p: IVec3) -> bool {
    if loaded {
        chunks.contains_key(p) && !sent.contains(p)
    } else {
        !chunks.contains_key(p)
    }
}

/// The position `c` moved by (x, y, z).
pub open spec fn box_cell(c: IVec3, x: int, y: int, z: int) -> IVec3 {
    at(c.x + x, c.y + y, c.z + z)
}

/// The picked positions c + (x, y, z) for `-h <= z < z_end`, in order.
pub open spec fn column_cells(
    chunks: Map<IVec3, u64>,
    sent: Set<IVec3>,
    loaded: bool,
    c: IVec3,
    h: int,
    x: int,
    y: int,
    z_end: int,
) -> Seq<IVec3>
    decreases z_end + h,
{
    if z_end <= -h {
        Seq::empty()
    } else if box_pick(chunks, sent, loaded, box_cell(c, x, y, z_end - 1)) {
        column_cells(chunks, sent, loaded, c, h, x, y, z_end - 1).push(box_cell(c, x, y, z_end - 1))
    } else {
        column_cells(chunks, sent, loaded, c, h, x, y, z_end - 1)
    }
}

/// The picked positions for `-v <= y < y_end`, each column running over `-h <= z < h`.
pub open spec fn slab_cells(
    chunks: Map<IVec3, u64>,
    sent: Set<IVec3>,
    loaded: bool,
    c: IVec3,
    h: int,
    v: int,
    x: int,
    y_end: int,
) -> Seq<IVec3>
    decreases y_end + v,
{
    if y_end <= -v {
        Seq::empty()
    } else {
        slab_cells(chunks, sent, loaded, c, h, v, x, y_end - 1) + column_cells(
            chunks,
            sent,
            loaded,
            c,
            h,
            x,
            y_end - 1,
            h,
        )
    }
}

/// The picked positions of the box around `c` for `-h <= x < x_end`, each slab running over
/// `-v <= y < v`: x varies slowest and z fastest.
pub open spec fn around_cells(
    chunks: Map<IVec3, u64>,
    sent: Set<IVec3>,
    loaded: bool,
    c: IVec3,
    h: int,
    v: int,
    x_end: int,
) -> Seq<IVec3>
    decreases x_end + h,
{
    if x_end <= -h {
        Seq::empty()
    } else {
        around_cells(chunks, sent, loaded, c, h, v, x_end - 1) + slab_cells(
            chunks,
            sent,
            loaded,
            c,
            h,
            v,
            x_end - 1,
            v,
        )
    }
}

/// Every position of the box around `c` that a scan visits fits in `i32`.
pub open spec fn box_fits(c: IVec3, view: ViewDistance) -> bool {
    &&& view_valid(view)
    &&& view.horizontal > 0 && view.vertical > 0 ==> {
        &&& fits_i32(c.x - view.horizontal)
        &&& fits_i32(c.x + view.horizontal)
        &&& fits_i32(c.y - view.vertical)
        &&& fits_i32(c.y + view.vertical)
        &&& fits_i32(c.z - view.horizontal)
        &&& fits_i32(c.z + view.horizontal)
    }
}

/// Whether the box that `view_distance` keeps around `center` lies within the range of
/// chunk positions, so that chunks can be listed around it.
pub fn view_fits(center: IVec3, view_distance: &ViewDistance) -> (r: bool)
    ensures
        r == box_fits(center, *view_distance),
{
    if view_distance.horizontal == i32::MIN || view_distance.vertical == i32::MIN {
        return false;
    }
    if view_distance.horizontal <= 0 || view_distance.vertical <= 0 {
        return true;
    }
    let h = view_distance.horizontal as i64;
    let v = view_distance.vertical as i64;
    let lo = i32::MIN as i64;
    let hi = i32::MAX as i64;
    let x = center.x as i64;
    let y = center.y as i64;
    let z = center.z as i64;
    x - h >= lo && x + h <= hi && y - v >= lo && y + v <= hi && z - h >= lo && z + h <= hi
}

/// Visits the box around `c`, x from -h up to h, then y from -v up to v, then z from -h up to
/// h (upper ends excluded), and lists the positions that `box_pick` picks.
#[verifier::rlimit(30)]
fn scan_box(current: &CurrentChunks, sent: &SentChunks, loaded: bool, c: IVec3, view: &ViewDistance) -> (r: Vec<IVec3>)
    requires
        box_fits(c, *view),
    ensures
        r@ == around_cells(
            current@,
            sent@,
            loaded,
            c,
            view.horizontal as int,
            view.vertical as int,
            view.horizontal as int,
        ),
{
    let h = view.horizontal;
    let v = view.vertical;
    let ghost chunks = current@;
    let ghost sent_set = sent@;
    let mut out: Vec<IVec3> = Vec::new();
    let mut x: i32 = -h;
    while x < h
        invariant
            h == view.horizontal,
            v == view.vertical,
            box_fits(c, *view),
            chunks == current@,
            sent_set == sent@,
            -h <= x,
            x <= h || x == -h,
            out@ == around_cells(chunks, sent_set, loaded, c, h as int, v as int, x as int),
        decreases h - x,
    {
        let ghost before_x = out@;
        let mut y: i32 = -v;
        while y < v
            invariant
                h == view.horizontal,
                v == view.vertical,
                box_fits(c, *view),
                chunks == current@,
                sent_set == sent@,
                -h <= x < h,
                -v <= y,
                y <= v || y == -v,
                before_x == around_cells(chunks, sent_set, loaded, c, h as int, v as int, x as int),
                out@ == before_x + slab_cells(chunks, sent_set, loaded, c, h as int, v as int, x as int, y as int),
            decreases v - y,
        {
            let ghost before_y = out@;
            let mut z: i32 = -h;
            while z < h
                invariant
                    h == view.horizontal,
                    v == view.vertical,
                    box_fits(c, *view),
                    chunks == current@,
                    sent_set == sent@,
                    -h <= x < h,
                    -v <= y < v,
                    -h <= z,
                    z <= h || z == -h,
                    before_y == before_x + slab_cells(chunks, sent_set, loaded, c, h as int, v as int, x as int, y as int),
                    out@ == before_y + column_cells(chunks, sent_set, loaded, c, h as int, x as int, y as int, z as int),
                decreases h - z,
            {
                let p = IVec3::new(c.x + x, c.y + y, c.z + z);
                assert(p == box_cell(c, x as int, y as int, z as int));
                let pick = if loaded {
                    current.contains(p) && !sent.contains(p)
                } else {
                    !current.contains(p)
                };
                if pick {
                    out.push(p);
                }
                assert(out@ =~= before_y + column_cells(chunks, sent_set, loaded, c, h as int, x as int, y as int, z + 1));
                z = z + 1;
            }
            assert(out@ =~= before_x + slab_cells(chunks, sent_set, loaded, c, h as int, v as int, x as int, y + 1));
            y = y + 1;
        }
        assert(out@ =~= around_cells(chunks, sent_set, loaded, c, h as int, v as int, x + 1));
        x = x + 1;
    }
    out
}

/// The positions around `point` that have no chunk yet, x slowest and z fastest: the chunks
/// a server loads from storage or generates.
pub fn chunks_to_load(current_chunks: &CurrentChunks, point: &LoadPoint, view_distance: &ViewDistance) -> (r: Vec<IVec3>)
    requires
        box_fits(point.0, *view_distance),
    ensures
        r@ == around_cells(
            current_chunks@,
            Set::empty(),
            false,
            point.0,
            view_distance.horizontal as int,
            view_distance.vertical as int,
            view_distance.horizontal as int,
        ),
{
    let none = SentChunks::new();
    scan_box(current_chunks, &none, false, point.0, view_distance)
}

/// The chunks a server knows, with the distance it keeps around each player.
pub struct ChunkManager<'a> {
    pub current_chunks: &'a CurrentChunks,
    pub view_distance: ViewDistance,
}

impl<'a> ChunkManager<'a> {
    /// The existing chunks around `pos` that were not sent yet, nearest to `pos` first.
    pub fn get_chunks_around_chunk(&self, pos: IVec3, sent_chunks: &SentChunks) -> (r: Vec<IVec3>)
        requires
            box_fits(pos, self.view_distance),
        ensures
            nearest_of(
                r@,
                around_cells(
                    self.current_chunks@,
                    sent_chunks@,
                    true,
                    pos,
                    self.view_distance.horizontal as int,
                    self.view_distance.vertical as int,
                    self.view_distance.horizontal as int,
                ),
                pos,
                around_cells(
                    self.current_chunks@,
                    sent_chunks@,
                    true,
                    pos,
                    self.view_distance.horizontal as int,
                    self.view_distance.vertical as int,
                    self.view_distance.horizontal as int,
                ).len() as int,
            ),
    {
        let found = scan_box(self.current_chunks, sent_chunks, true, pos, &self.view_distance);
        let n = found.len();
        nearest_first(found, pos, n)
    }
}

/// The dirty chunks a client refreshes in one pass: the 25 nearest to the player, nearest
/// first.
pub fn dirty_chunks_to_update(dirty: Vec<IVec3>, player_chunk: &PlayerChunk) -> (r: Vec<IVec3>)
    ensures
        nearest_of(r@, dirty@, player_chunk.chunk_pos, 25),
{
    nearest_first(dirty, player_chunk.chunk_pos, 25)
}

/// The chunk at `pos` and the six chunks that share a face with it are loaded, so its
/// padding can be filled.
pub open spec fn border_ready(chunks: Map<IVec3, u64>, pos: IVec3) -> bool {
    &&& chunks.contains_key(pos)
    &&& has_chunk_at(chunks, pos.x as int, pos.y + 1, pos.z as int)
    &&& has_chunk_at(chunks, pos.x as int, pos.y - 1, pos.z as int)
    &&& has_chunk_at(chunks, pos.x + 1, pos.y as int, pos.z as int)
    &&& has_chunk_at(chunks, pos.x - 1, pos.y as int, pos.z as int)
    &&& has_chunk_at(chunks, pos.x as int, pos.y as int, pos.z + 1)
    &&& has_chunk_at(chunks, pos.x as int, pos.y as int, pos.z - 1)
}

/// The positions of `positions` whose padding can be filled, in order.
pub open spec fn ready_of(chunks: Map<IVec3, u64>, positions: Seq<IVec3>) -> Seq<IVec3>
    decreases positions.len(),
{
    if positions.len() == 0 {
        Seq::empty()
    } else if border_ready(chunks, positions.last()) {
        ready_of(chunks, positions.drop_last()).push(positions.last())
    } else {
        ready_of(chunks, positions.drop_last())
    }
}

/// The positions of `dirty` that are not among `refreshed`, in order.
pub open spec fn left_dirty(dirty: Seq<IVec3>, refreshed: Seq<IVec3>) -> Seq<IVec3>
    decreases dirty.len(),
{
    if dirty.len() == 0 {
        Seq::empty()
    } else if !refreshed.contains(dirty.last()) {
        left_dirty(dirty.drop_last(), refreshed).push(dirty.last())
    } else {
        left_dirty(dirty.drop_last(), refreshed)
    }
}

/// One pass over the dirty chunks: the nearest ones considered, those whose padding is filled
/// now, and those that keep their mark for a later pass.
pub struct BorderPlan {
    pub nearest: Vec<IVec3>,
    pub refresh: Vec<IVec3>,
    pub keep: Vec<IVec3>,
}

/// Plans one pass of padding refreshes over the dirty chunks `dirty`. Only the 25 nearest to
/// the player are considered, nearest first; of these, a chunk that is loaded together with
/// its six face neighbours has its padding filled (and is meshed unless it holds air alone,
/// as `update_borders` decides) and loses its mark. Every other dirty chunk, whether too far,
/// not loaded or missing a neighbour, keeps its mark.
pub fn plan_border_refresh(current_chunks: &CurrentChunks, dirty: &Vec<IVec3>, player_chunk: &PlayerChunk) -> (r: BorderPlan)
    ensures
        nearest_of(r.nearest@, dirty@, player_chunk.chunk_pos, 25),
        r.refresh@ == ready_of(current_chunks@, r.nearest@),
        r.keep@ == left_dirty(dirty@, r.refresh@),
{
    let mut all: Vec<IVec3> = Vec::new();
    let mut i: usize = 0;
    while i < dirty.len()
        invariant
            i <= dirty@.len(),
            all@ == dirty@.subrange(0, i as int),
        decreases dirty@.len() - i,
    {
        all.push(dirty[i]);
        i = i + 1;
    }
    assert(all@ =~= dirty@);
    let nearest = dirty_chunks_to_update(all, player_chunk);
    let bound = IVec2::new(0, 0);
    let mut refresh: Vec<IVec3> = Vec::new();
    let mut i: usize = 0;
    while i < nearest.len()
        invariant
            i <= nearest@.len(),
            refresh@ == ready_of(current_chunks@, nearest@.subrange(0, i as int)),
        decreases nearest@.len() - i,
    {
        assert(nearest@.subrange(0, i + 1).drop_last() =~= nearest@.subrange(0, i as int));
        let pos = nearest[i];
        if current_chunks.contains(pos) && current_chunks.all_neighbors_exist(pos, bound, bound) {
            refresh.push(pos);
        }
        i = i + 1;
    }
    assert(nearest@.subrange(0, nearest@.len() as int) =~= nearest@);
    let mut keep: Vec<IVec3> = Vec::new();
    let mut i: usize = 0;
    while i < dirty.len()
        invariant
            i <= dirty@.len(),
            keep@ == left_dirty(dirty@.subrange(0, i as int), refresh@),
        decreases dirty@.len() - i,
    {
        assert(dirty@.subrange(0, i + 1).drop_last() =~= dirty@.subrange(0, i as int));
        let pos = dirty[i];
        let mut found = false;
        let mut j: usize = 0;
        while j < refresh.len()
            invariant
                j <= refresh@.len(),
                found == refresh@.subrange(0, j as int).contains(pos),
            decreases refresh@.len() - j,
        {
            assert(refresh@.subrange(0, j + 1) =~= refresh@.subrange(0, j as int).push(refresh@[j as int]));
            let here = refresh[j] == pos;
            proof {
                let before = refresh@.subrange(0, j as int);
                let after = refresh@.subrange(0, j + 1);
                if here {
                    assert(after[j as int] == pos);
                } else if after.contains(pos) {
                    let k = choose|k: int| 0 <= k < after.len() && after[k] == pos;
                    assert(before[k] == pos);
                }
            }
            if here {
                found = true;
            }
            j = j + 1;
        }
        assert(refresh@.subrange(0, refresh@.len() as int) =~= refresh@);
        if !found {
            keep.push(pos);
        }
        i = i + 1;
    }
    assert(dirty@.subrange(0, dirty@.len() as int) =~= dirty@);
    BorderPlan { nearest, refresh, keep }
}

/// Whether a server drops the chunk at `pos`: some load point does not keep it in view.
pub fn should_unload(pos: IVec3, load_points: &Vec<LoadPoint>, view_distance: &ViewDistance) -> (r: bool)
    requires
        view_valid(*view_distance),
    ensures
        r == exists|i: int|
            0 <= i < load_points@.len() && !in_radius(
                #[trigger] load_points@[i].0,
                pos,
                view_min(*view_distance),
                view_max(*view_distance),
            ),
{
    let (min_bound, max_bound) = view_bounds(view_distance);
    let mut i: usize = 0;
    while i < load_points.len()
        invariant
            i <= load_points@.len(),
            min_bound == view_min(*view_distance),
            max_bound == view_max(*view_distance),
            forall|j: int| 0 <= j < i ==> in_radius(#[trigger] load_points@[j].0, pos, min_bound, max_bound),
        decreases load_points@.len() - i,
    {
        if !load_points[i].is_in_radius(pos, min_bound, max_bound) {
            return true;
        }
        i = i + 1;
    }
    false
}

/// The positions of `positions` that lie outside the view of `center`, in order.
pub open spec fn out_of_view(positions: Seq<IVec3>, center: IVec3, view: ViewDistance) -> Seq<IVec3>
    decreases positions.len(),
{
    if positions.len() == 0 {
        Seq::empty()
    } else if !in_radius(center, positions.last(), view_min(view), view_max(view)) {
        out_of_view(positions.drop_last(), center, view).push(positions.last())
    } else {
        out_of_view(positions.drop_last(), center, view)
    }
}

/// The chunks a client drops: those of `positions` outside the view around the player.
pub fn chunks_out_of_view(positions: &Vec<IVec3>, player_chunk: &PlayerChunk, view_distance: &ViewDistance) -> (r: Vec<IVec3>)
    requires
        view_valid(*view_distance),
    ensures
        r@ == out_of_view(positions@, player_chunk.chunk_pos, *view_distance),
{
    let (min_bound, max_bound) = view_bounds(view_distance);
    let mut out: Vec<IVec3> = Vec::new();
    let mut i: usize = 0;
    while i < positions.len()
        invariant
            i <= positions@.len(),
            min_bound == view_min(*view_distance),
            max_bound == view_max(*view_distance),
            out@ == out_of_view(positions@.subrange(0, i as int), player_chunk.chunk_pos, *view_distance),
        decreases positions@.len() - i,
    {
        assert(positions@.subrange(0, i + 1).drop_last() =~= positions@.subrange(0, i as int));
        if !player_chunk.is_in_radius(positions[i], min_bound, max_bound) {
            out.push(positions[i]);
        }
        i = i + 1;
    }
    assert(positions@.subrange(0, positions@.len() as int) =~= positions@);
    out
}

/// Takes out of `sent_chunks` every chunk of `positions` that lies outside the view around
/// `load_point`, so that it is sent again once back in view.
pub fn unsend_chunks(
    load_point: &LoadPoint,
    sent_chunks: &mut SentChunks,
    positions: &Vec<IVec3>,
    view_distance: &ViewDistance,
)
    requires
        view_valid(*view_distance),
    ensures
        final(sent_chunks)@ == old(sent_chunks)@.difference(
            out_of_view(positions@, load_point.0, *view_distance).to_set(),
        ),
{
    let (min_bound, max_bound) = view_bounds(view_distance);
    let mut i: usize = 0;
    while i < positions.len()
        invariant
            i <= positions@.len(),
            min_bound == view_min(*view_distance),
            max_bound == view_max(*view_distance),
            sent_chunks@ == old(sent_chunks)@.difference(
                out_of_view(positions@.subrange(0, i as int), load_point.0, *view_distance).to_set(),
            ),
        decreases positions@.len() - i,
    {
        let ghost prefix = positions@.subrange(0, i as int);
        let ghost next = positions@.subrange(0, i + 1);
        assert(next.drop_last() =~= prefix);
        let p = positions[i];
        if !load_point.is_in_radius(p, min_bound, max_bound) {
            sent_chunks.remove(p);
            proof {
                let before = out_of_view(prefix, load_point.0, *view_distance);
                assert(out_of_view(next, load_point.0, *view_distance) == before.push(p));
                before.lemma_push_to_set_commute(p);
            }
        }
        assert(sent_chunks@ =~= old(sent_chunks)@.difference(
            out_of_view(next, load_point.0, *view_distance).to_set(),
        ));
        i = i + 1;
    }
    assert(positions@.subrange(0, positions@.len() as int) =~= positions@);
}

/// The palette of `chunk` is air alone: it shows nothing.
pub open spec fn only_air(chunk: RawChunk) -> bool {
    chunk.states() == seq![air_name()]
}

/// Whether the palette of `chunk` is air alone.
pub fn is_only_air(chunk: &RawChunk) -> (r: bool)
    ensures
        r == only_air(*chunk),
{
    let air = String::from_str("air");
    proof {
        reveal_strlit("air");
        assert(air@ =~= air_name());
    }
    let r = chunk.palette.len() == 1 && chunk.palette[0] == air;
    proof {
        if r {
            assert(chunk.states() =~= seq![air_name()]);
        }
        if only_air(*chunk) {
            assert(chunk.states().len() == 1);
            assert(chunk.states()[0] == air_name());
        }
    }
    r
}

/// What a client does with a chunk that arrived from the server.
#[derive(Clone, Copy, Debug, PartialEq, Eq, Structural)]
pub enum ChunkArrival {
    /// The chunk lies outside the player's view and is dropped.
    Ignored,
    /// The chunk exists already: `entity` takes the new data, to be remeshed when `dirty`.
    Replaced { entity: u64, dirty: bool },
    /// The chunk is new: a new entity takes it and is recorded, to be remeshed when `dirty`.
    Spawned { dirty: bool },
}

/// A chunk that arrived from the server for position `pos`.
#[derive(Debug)]
pub struct CreateChunkEvent {
    pub pos: IVec3,
    pub raw_chunk: RawChunk,
}

/// Decides what a client does with a chunk that arrived: a chunk in view replaces the data of
/// the chunk already at its position, or becomes a new chunk; it is marked for remeshing
/// unless it is air alone.
pub fn receive_chunk(
    current_chunks: &CurrentChunks,
    player_chunk: &PlayerChunk,
    view_distance: &ViewDistance,
    evt: &CreateChunkEvent,
) -> (r: ChunkArrival)
    requires
        view_valid(*view_distance),
    ensures
        !in_radius(player_chunk.chunk_pos, evt.pos, view_min(*view_distance), view_max(*view_distance))
            ==> r == ChunkArrival::Ignored,
        in_radius(player_chunk.chunk_pos, evt.pos, view_min(*view_distance), view_max(*view_distance))
            ==> r == (if current_chunks@.contains_key(evt.pos) {
            ChunkArrival::Replaced { entity: current_chunks@[evt.pos], dirty: !only_air(evt.raw_chunk) }
        } else {
            ChunkArrival::Spawned { dirty: !only_air(evt.raw_chunk) }
        }),
{
    let (min_bound, max_bound) = view_bounds(view_distance);
    if !player_chunk.is_in_radius(evt.pos, min_bound, max_bound) {
        return ChunkArrival::Ignored;
    }
    let dirty = !is_only_air(&evt.raw_chunk);
    match current_chunks.get_entity(evt.pos) {
        Some(entity) => ChunkArrival::Replaced { entity, dirty },
        None => ChunkArrival::Spawned { dirty },
    }
}

/// The entity of the loaded chunk next to `pos` in direction `d`, if there is one.
pub open spec fn neighbor_entity(chunks: Map<IVec3, u64>, pos: IVec3, d: (int, int, int)) -> Seq<u64> {
    if has_chunk_at(chunks, pos.x + d.0, pos.y + d.1, pos.z + d.2) {
        seq![chunks[at(pos.x + d.0, pos.y + d.1, pos.z + d.2)]]
    } else {
        Seq::empty()
    }
}

/// The entities of the loaded chunks that share a face with the chunk at `pos`, in the order
/// -x, +x, -y, +y, -z, +z.
pub open spec fn face_neighbors(chunks: Map<IVec3, u64>, pos: IVec3) -> Seq<u64> {
    neighbor_entity(chunks, pos, (-1, 0, 0)) + neighbor_entity(chunks, pos, (1, 0, 0))
        + neighbor_entity(chunks, pos, (0, -1, 0)) + neighbor_entity(chunks, pos, (0, 1, 0))
        + neighbor_entity(chunks, pos, (0, 0, -1)) + neighbor_entity(chunks, pos, (0, 0, 1))
}

/// Appends `neighbor_entity(current, pos, (dx, dy, dz))` to `out`.
fn push_neighbor(current: &CurrentChunks, pos: IVec3, dx: i32, dy: i32, dz: i32, out: &mut Vec<u64>)
    requires
        -1 <= dx <= 1,
        -1 <= dy <= 1,
        -1 <= dz <= 1,
    ensures
        final(out)@ == old(out)@ + neighbor_entity(current@, pos, (dx as int, dy as int, dz as int)),
{
    if let Some(p) = offset(pos, dx, dy, dz) {
        if let Some(e) = current.get_entity(p) {
            out.push(e);
        }
    }
    assert(out@ =~= old(out)@ + neighbor_entity(current@, pos, (dx as int, dy as int, dz as int)));
}

/// The chunks to mark for remeshing besides the one that arrived at `pos`: a chunk that
/// arrives in view is a new neighbour for the loaded chunks that share a face with it, whose
/// padding shows it, so those are marked; an ignored chunk marks none.
pub fn arrival_neighbors(current_chunks: &CurrentChunks, pos: IVec3, arrival: &ChunkArrival) -> (r: Vec<u64>)
    ensures
        r@ == (if *arrival == ChunkArrival::Ignored {
            Seq::empty()
        } else {
            face_neighbors(current_chunks@, pos)
        }),
{
    let mut out: Vec<u64> = Vec::new();
    if let ChunkArrival::Ignored = arrival {
        assert(out@ =~= Seq::<u64>::empty());
        return out;
    }
    push_neighbor(current_chunks, pos, -1, 0, 0, &mut out);
    push_neighbor(current_chunks, pos, 1, 0, 0, &mut out);
    push_neighbor(current_chunks, pos, 0, -1, 0, &mut out);
    push_neighbor(current_chunks, pos, 0, 1, 0, &mut out);
    push_neighbor(current_chunks, pos, 0, 0, -1, &mut out);
    push_neighbor(current_chunks, pos, 0, 0, 1, &mut out);
    assert(out@ =~= face_neighbors(current_chunks@, pos));
    out
}

/// The chunk table reads back what was recorded: after `insert_entity(pos, entity)` the
/// position gives that entity, and after `remove_entity(pos)` it gives none; recording a new
/// position and then removing it leaves the table as it was.
pub proof fn lemma_chunk_table_round_trip(table: Map<IVec3, u64>, pos: IVec3, entity: u64)
    ensures
        table.insert(pos, entity).contains_key(pos),
        table.insert(pos, entity)[pos] == entity,
        !table.insert(pos, entity).remove(pos).contains_key(pos),
        !table.contains_key(pos) ==> table.insert(pos, entity).remove(pos) == table,
{
    if !table.contains_key(pos) {
        assert(table.insert(pos, entity).remove(pos) =~= table);
    }
}

/// A picked position of a column is listed.
proof fn lemma_column_lists(
    chunks: Map<IVec3, u64>,
    sent: Set<IVec3>,
    loaded: bool,
    c: IVec3,
    h: int,
    x: int,
    y: int,
    z_end: int,
    z: int,
)
    requires
        -h <= z < z_end,
        box_pick(chunks, sent, loaded, box_cell(c, x, y, z)),
    ensures
        column_cells(chunks, sent, loaded, c, h, x, y, z_end).contains(box_cell(c, x, y, z)),
    decreases z_end + h,
{
    let cells = column_cells(chunks, sent, loaded, c, h, x, y, z_end);
    if z == z_end - 1 {
        assert(cells[cells.len() - 1] == box_cell(c, x, y, z));
    } else {
        lemma_column_lists(chunks, sent, loaded, c, h, x, y, z_end - 1, z);
        let prev = column_cells(chunks, sent, loaded, c, h, x, y, z_end - 1);
        let k = choose|k: int| 0 <= k < prev.len() && prev[k] == box_cell(c, x, y, z);
        assert(cells[k] == box_cell(c, x, y, z));
    }
}

/// A picked position of a slab is listed.
proof fn lemma_slab_lists(
    chunks: Map<IVec3, u64>,
    sent: Set<IVec3>,
    loaded: bool,
    c: IVec3,
    h: int,
    v: int,
    x: int,
    y_end: int,
    y: int,
    z: int,
)
    requires
        -v <= y < y_end,
        -h <= z < h,
        box_pick(chunks, sent, loaded, box_cell(c, x, y, z)),
    ensures
        slab_cells(chunks, sent, loaded, c, h, v, x, y_end).contains(box_cell(c, x, y, z)),
    decreases y_end + v,
{
    let cells = slab_cells(chunks, sent, loaded, c, h, v, x, y_end);
    let prev = slab_cells(chunks, sent, loaded, c, h, v, x, y_end - 1);
    if y == y_end - 1 {
        lemma_column_lists(chunks, sent, loaded, c, h, x, y, h, z);
        let col = column_cells(chunks, sent, loaded, c, h, x, y, h);
        let k = choose|k: int| 0 <= k < col.len() && col[k] == box_cell(c, x, y, z);
        assert(cells[prev.len() + k] == box_cell(c, x, y, z));
    } else {
        lemma_slab_lists(chunks, sent, loaded, c, h, v, x, y_end - 1, y, z);
        let k = choose|k: int| 0 <= k < prev.len() && prev[k] == box_cell(c, x, y, z);
        assert(cells[k] == box_cell(c, x, y, z));
    }
}

/// A picked position of the box is listed.
proof fn lemma_around_lists(
    chunks: Map<IVec3, u64>,
    sent: Set<IVec3>,
    loaded: bool,
    c: IVec3,
    h: int,
    v: int,
    x_end: int,
    x: int,
    y: int,
    z: int,
)
    requires
        -h <= x < x_end,
        -v <= y < v,
        -h <= z < h,
        box_pick(chunks, sent, loaded, box_cell(c, x, y, z)),
    ensures
        around_cells(chunks, sent, loaded, c, h, v, x_end).contains(box_cell(c, x, y, z)),
    decreases x_end + h,
{
    let cells = around_cells(chunks, sent, loaded, c, h, v, x_end);
    let prev = around_cells(chunks, sent, loaded, c, h, v, x_end - 1);
    if x == x_end - 1 {
        lemma_slab_lists(chunks, sent, loaded, c, h, v, x, v, y, z);
        let slab = slab_cells(chunks, sent, loaded, c, h, v, x, v);
        let k = choose|k: int| 0 <= k < slab.len() && slab[k] == box_cell(c, x, y, z);
        assert(cells[prev.len() + k] == box_cell(c, x, y, z));
    } else {
        lemma_around_lists(chunks, sent, loaded, c, h, v, x_end - 1, x, y, z);
        let k = choose|k: int| 0 <= k < prev.len() && prev[k] == box_cell(c, x, y, z);
        assert(cells[k] == box_cell(c, x, y, z));
    }
}

/// Nothing picked, nothing listed.
proof fn lemma_around_empty(
    chunks: Map<IVec3, u64>,
    sent: Set<IVec3>,
    loaded: bool,
    c: IVec3,
    h: int,
    v: int,
    x_end: int,
)
    requires
        forall|x: int, y: int, z: int|
            -h <= x < x_end && -v <= y < v && -h <= z < h ==> !box_pick(
                chunks,
                sent,
                loaded,
                #[trigger] box_cell(c, x, y, z),
            ),
    ensures
        around_cells(chunks, sent, loaded, c, h, v, x_end) == Seq::<IVec3>::empty(),
    decreases x_end + h,
{
    if x_end > -h {
        lemma_around_empty(chunks, sent, loaded, c, h, v, x_end - 1);
        lemma_slab_empty(chunks, sent, loaded, c, h, v, x_end - 1, v);
        assert(around_cells(chunks, sent, loaded, c, h, v, x_end) =~= Seq::<IVec3>::empty());
    }
}

proof fn lemma_slab_empty(
    chunks: Map<IVec3, u64>,
    sent: Set<IVec3>,
    loaded: bool,
    c: IVec3,
    h: int,
    v: int,
    x: int,
    y_end: int,
)
    requires
        forall|y: int, z: int|
            -v <= y < y_end && -h <= z < h ==> !box_pick(chunks, sent, loaded, #[trigger] box_cell(c, x, y, z)),
    ensures
        slab_cells(chunks, sent, loaded, c, h, v, x, y_end) == Seq::<IVec3>::empty(),
    decreases y_end + v,
{
    if y_end > -v {
        lemma_slab_empty(chunks, sent, loaded, c, h, v, x, y_end - 1);
        lemma_column_empty(chunks, sent, loaded, c, h, x, y_end - 1, h);
        assert(slab_cells(chunks, sent, loaded, c, h, v, x, y_end) =~= Seq::<IVec3>::empty());
    }
}

proof fn lemma_column_empty(
    chunks: Map<IVec3, u64>,
    sent: Set<IVec3>,
    loaded: bool,
    c: IVec3,
    h: int,
    x: int,
    y: int,
    z_end: int,
)
    requires
        forall|z: int| -h <= z < z_end ==> !box_pick(chunks, sent, loaded, #[trigger] box_cell(c, x, y, z)),
    ensures
        column_cells(chunks, sent, loaded, c, h, x, y, z_end) == Seq::<IVec3>::empty(),
    decreases z_end + h,
{
    if z_end > -h {
        lemma_column_empty(chunks, sent, loaded, c, h, x, y, z_end - 1);
        assert(!box_pick(chunks, sent, loaded, box_cell(c, x, y, z_end - 1)));
    }
}

/// Loading settles: once every position that `chunks_to_load` listed has a chunk, and no
/// chunk was dropped, the same load point lists nothing more to load.
pub proof fn lemma_loading_settles(
    chunks: Map<IVec3, u64>,
    after: Map<IVec3, u64>,
    c: IVec3,
    view: ViewDistance,
)
    requires
        forall|p: IVec3| chunks.contains_key(p) ==> #[trigger] after.contains_key(p),
        forall|p: IVec3|
            around_cells(chunks, Set::empty(), false, c, view.horizontal as int, view.vertical as int, view.horizontal as int).contains(p)
                ==> #[trigger] after.contains_key(p),
    ensures
        around_cells(after, Set::empty(), false, c, view.horizontal as int, view.vertical as int, view.horizontal as int)
            == Seq::<IVec3>::empty(),
{
    let h = view.horizontal as int;
    let v = view.vertical as int;
    assert forall|x: int, y: int, z: int|
        -h <= x < h && -v <= y < v && -h <= z < h implies !box_pick(after, Set::empty(), false, #[trigger] box_cell(c, x, y, z)) by {
        let p = box_cell(c, x, y, z);
        if !chunks.contains_key(p) {
            lemma_around_lists(chunks, Set::empty(), false, c, h, v, h, x, y, z);
        }
    }
    lemma_around_empty(after, Set::empty(), false, c, h, v, h);
}

/// Sending settles: once every chunk that `get_chunks_around_chunk` listed is recorded as
/// sent, and nothing sent was forgotten, the same position lists no chunk to send.
pub proof fn lemma_sending_settles(
    chunks: Map<IVec3, u64>,
    sent: Set<IVec3>,
    sent_after: Set<IVec3>,
    c: IVec3,
    view: ViewDistance,
)
    requires
        sent.subset_of(sent_after),
        forall|p: IVec3|
            around_cells(chunks, sent, true, c, view.horizontal as int, view.vertical as int, view.horizontal as int).contains(p)
                ==> #[trigger] sent_after.contains(p),
    ensures
        around_cells(chunks, sent_after, true, c, view.horizontal as int, view.vertical as int, view.horizontal as int)
            == Seq::<IVec3>::empty(),
{
    let h = view.horizontal as int;
    let v = view.vertical as int;
    assert forall|x: int, y: int, z: int|
        -h <= x < h && -v <= y < v && -h <= z < h implies !box_pick(chunks, sent_after, true, #[trigger] box_cell(c, x, y, z)) by {
        let p = box_cell(c, x, y, z);
        if chunks.contains_key(p) && !sent.contains(p) {
            lemma_around_lists(chunks, sent, true, c, h, v, h, x, y, z);
        }
    }
    lemma_around_empty(chunks, sent_after, true, c, h, v, h);
}

} // verus!

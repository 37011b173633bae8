use vstd::prelude::*;

use crate::chunk::{RawChunk, linear_index, lemma_delinearize_linearize, lemma_linearize_delinearize};
use crate::storage::LoadableTypes;
use crate::palette::air_name;
use crate::voxel::{Voxel, VoxelType, VoxelVisibility};

verus! {

/// A face of one voxel, to be drawn as a quad.
#[derive(Clone, Copy, Debug)]
pub struct Quad {
    pub voxel: [usize; 3],
    pub width: u32,
    pub height: u32,
}

/// The quads of a chunk, one group per face direction, in the order of `Side::from_index`.
#[derive(Debug)]
pub struct QuadGroups {
    pub groups: [Vec<Quad>; 6],
}

/// A coordinate axis.
#[derive(Clone, Copy, Debug, PartialEq, Eq, Structural)]
pub enum Axis {
    X,
    Y,
    Z,
}

/// A face direction: an axis and whether the face looks along it or against it.
#[derive(Clone, Copy, Debug, PartialEq, Eq, Structural)]
pub struct Side {
    pub axis: Axis,
    pub positive: bool,
}

impl Side {
    pub fn new(axis: Axis, positive: bool) -> (r: Side)
        ensures
            r == (Side { axis, positive }),
    {
        Side { axis, positive }
    }

    /// The side of face group `value`: X-, X+, Y-, Y+, Z-, Z+ for 0 to 5.
    pub open spec fn spec_from_index(value: int) -> Side {
        if value == 0 {
            Side { axis: Axis::X, positive: false }
        } else if value == 1 {
            Side { axis: Axis::X, positive: true }
        } else if value == 2 {
            Side { axis: Axis::Y, positive: false }
        } else if value == 3 {
            Side { axis: Axis::Y, positive: true }
        } else if value == 4 {
            Side { axis: Axis::Z, positive: false }
        } else {
            Side { axis: Axis::Z, positive: true }
        }
    }

    /// The side of face group `value`.
    pub fn from_index(value: usize) -> (r: Side)
        requires
            value < 6,
        ensures
            r == Side::spec_from_index(value as int),
    {
        match value {
            0 => Side::new(Axis::X, false),
            1 => Side::new(Axis::X, true),
            2 => Side::new(Axis::Y, false),
            3 => Side::new(Axis::Y, true),
            4 => Side::new(Axis::Z, false),
            _ => Side::new(Axis::Z, true),
        }
    }
}

/// The unit step from a voxel to its neighbour in face direction `d` (0 to 5).
pub open spec fn direction(d: int) -> (int, int, int) {
    if d == 0 {
        (-1, 0, 0)
    } else if d == 1 {
        (1, 0, 0)
    } else if d == 2 {
        (0, -1, 0)
    } else if d == 3 {
        (0, 1, 0)
    } else if d == 4 {
        (0, 0, -1)
    } else {
        (0, 0, 1)
    }
}

/// Coordinates of the voxel at linear index `i`.
pub open spec fn cell(i: int) -> (int, int, int) {
    (i % 34, (i / 34) % 34, i / 1156)
}

/// The voxel at linear index `i` is inside the chunk, not in its padding.
pub open spec fn inner(i: int) -> bool {
    let (x, y, z) = cell(i);
    1 <= x <= 32 && 1 <= y <= 32 && 1 <= z <= 32
}

/// Linear index of the neighbour of voxel `i` in face direction `d`.
pub open spec fn neighbor_index(i: int, d: int) -> int {
    let (x, y, z) = cell(i);
    let (dx, dy, dz) = direction(d);
    linear_index(x + dx, y + dy, z + dz)
}

/// Whether the face between a voxel and its neighbour is drawn: solid against empty or
/// see-through, see-through against empty, and see-through against a different see-through voxel.
pub open spec fn face_drawn(voxel: VoxelType, neighbor: VoxelType) -> bool {
    match (voxel.spec_visibility(), neighbor.spec_visibility()) {
        (VoxelVisibility::Opaque, VoxelVisibility::Empty) => true,
        (VoxelVisibility::Opaque, VoxelVisibility::Transparent) => true,
        (VoxelVisibility::Transparent, VoxelVisibility::Empty) => true,
        (VoxelVisibility::Transparent, VoxelVisibility::Transparent) => voxel != neighbor,
        _ => false,
    }
}

/// Voxel `i` gets a quad in direction `d`.
pub open spec fn emits_face(chunk: RawChunk, types: LoadableTypes, i: int, d: int) -> bool {
    &&& inner(i)
    &&& chunk.voxel_type_at(&types, i).spec_visibility() != VoxelVisibility::Empty
    &&& face_drawn(chunk.voxel_type_at(&types, i), chunk.voxel_type_at(&types, neighbor_index(i, d)))
}

/// Two equal see-through voxels hide the face between them, while a see-through voxel next
/// to a different see-through voxel shows it: a voxel emits no face towards an equal
/// see-through neighbour, and does emit one towards a different see-through neighbour.
pub proof fn lemma_transparent_faces(chunk: RawChunk, types: LoadableTypes, i: int, d: int)
    requires
        inner(i),
        chunk.voxel_type_at(&types, i).spec_visibility() == VoxelVisibility::Transparent,
        chunk.voxel_type_at(&types, neighbor_index(i, d)).spec_visibility() == VoxelVisibility::Transparent,
    ensures
        emits_face(chunk, types, i, d) <==> chunk.voxel_type_at(&types, i) != chunk.voxel_type_at(
            &types,
            neighbor_index(i, d),
        ),
{
}


/// The face rule of the chunk mesher, over the visibility of a voxel and of its neighbour
/// across side `d`: an empty voxel shows no face; a face towards an empty neighbour is always
/// shown; a face towards an opaque neighbour never is; a face towards a see-through neighbour
/// is shown when the voxel is opaque (a wall behind a window stays visible) or a different
/// see-through block, and hidden between two equal see-through blocks.
pub proof fn lemma_face_rule(chunk: RawChunk, types: LoadableTypes, i: int, d: int)
    requires
        inner(i),
    ensures
        ({
            let v = chunk.voxel_type_at(&types, i);
            let n = chunk.voxel_type_at(&types, neighbor_index(i, d));
            emits_face(chunk, types, i, d) <==> {
                &&& v.spec_visibility() != VoxelVisibility::Empty
                &&& (n.spec_visibility() == VoxelVisibility::Empty || (n.spec_visibility()
                    == VoxelVisibility::Transparent && (v.spec_visibility() == VoxelVisibility::Opaque
                    || v != n)))
            }
        }),
{
}

/// Every voxel below `n` that gets a quad in direction `d` is listed, and every listed voxel
/// gets one.
proof fn lemma_faces_upto_members(chunk: RawChunk, types: LoadableTypes, d: int, n: int)
    ensures
        forall|j: int| 0 <= j < n && emits_face(chunk, types, j, d) ==> #[trigger] faces_upto(chunk, types, d, n).contains(j),
        forall|k: int|
            0 <= k < faces_upto(chunk, types, d, n).len() ==> {
                let j = #[trigger] faces_upto(chunk, types, d, n)[k];
                0 <= j < n && emits_face(chunk, types, j, d)
            },
    decreases n,
{
    if n > 0 {
        lemma_faces_upto_members(chunk, types, d, n - 1);
        let prev = faces_upto(chunk, types, d, n - 1);
        let cur = faces_upto(chunk, types, d, n);
        assert forall|j: int| 0 <= j < n && emits_face(chunk, types, j, d) implies #[trigger] cur.contains(j) by {
            if j < n - 1 {
                assert(prev.contains(j));
                let k = choose|k: int| 0 <= k < prev.len() && prev[k] == j;
                assert(cur[k] == j);
            } else {
                assert(cur[cur.len() - 1] == j);
            }
        }
        assert forall|k: int| 0 <= k < cur.len() implies {
            let j = #[trigger] cur[k];
            0 <= j < n && emits_face(chunk, types, j, d)
        } by {
            if k < prev.len() {
                assert(cur[k] == prev[k]);
            }
        }
    }
}

/// `q` lies at voxel `i`.
pub open spec fn quad_at_voxel(q: Quad, i: int) -> bool {
    q.voxel@ == seq![cell(i).0 as usize, cell(i).1 as usize, cell(i).2 as usize]
}

/// `q` lies at a voxel whose face on side `d` the face rule shows.
pub open spec fn quad_on_shown_face(chunk: RawChunk, types: LoadableTypes, d: int, q: Quad) -> bool {
    exists|i: int| 0 <= i < 39304 && #[trigger] emits_face(chunk, types, i, d) && quad_at_voxel(q, i)
}

/// The quads of group `d` of a chunk mesh are exactly the faces that the face rule shows on
/// side `d`: each voxel whose face on that side is shown has a quad at its coordinates, and
/// each quad lies at a voxel whose face on that side is shown.
pub proof fn lemma_mesh_group_faces(chunk: RawChunk, types: LoadableTypes, group: Seq<Quad>, d: int)
    requires
        quads_at(group, faces_upto(chunk, types, d, 39304)),
    ensures
        forall|i: int|
            0 <= i < 39304 && #[trigger] emits_face(chunk, types, i, d) ==> exists|k: int|
                0 <= k < group.len() && #[trigger] quad_at_voxel(group[k], i),
        forall|k: int| 0 <= k < group.len() ==> quad_on_shown_face(chunk, types, d, #[trigger] group[k]),
{
    lemma_faces_upto_members(chunk, types, d, 39304);
    let cells = faces_upto(chunk, types, d, 39304);
    assert forall|i: int| 0 <= i < 39304 && #[trigger] emits_face(chunk, types, i, d) implies exists|k: int|
        0 <= k < group.len() && #[trigger] quad_at_voxel(group[k], i) by {
        assert(cells.contains(i));
        let k = choose|k: int| 0 <= k < cells.len() && cells[k] == i;
        assert(quad_at_voxel(group[k], i));
    }
    assert forall|k: int| 0 <= k < group.len() implies quad_on_shown_face(chunk, types, d, #[trigger] group[k]) by {
        let i = cells[k];
        assert(emits_face(chunk, types, i, d));
        assert(quad_at_voxel(group[k], i));
    }
}

/// The voxels among the first `n` linear indices that get a quad in direction `d`, in order.
pub open spec fn faces_upto(chunk: RawChunk, types: LoadableTypes, d: int, n: int) -> Seq<int>
    decreases n,
{
    if n <= 0 {
        Seq::empty()
    } else if emits_face(chunk, types, n - 1, d) {
        faces_upto(chunk, types, d, n - 1).push(n - 1)
    } else {
        faces_upto(chunk, types, d, n - 1)
    }
}

/// Every voxel the mesher reads can be read: the inner voxels, and the six neighbours of
/// every inner voxel that is not empty.
pub open spec fn mesh_readable(chunk: RawChunk, types: LoadableTypes) -> bool {
    &&& chunk.voxels@.len() == 39304
    &&& forall|i: int|
        0 <= i < 39304 && #[trigger] inner(i) ==> {
            &&& chunk.readable(&types, i)
            &&& (chunk.voxel_type_at(&types, i).spec_visibility() != VoxelVisibility::Empty
                ==> forall|d: int| 0 <= d < 6 ==> chunk.readable(&types, #[trigger] neighbor_index(i, d)))
        }
}

/// A quad list holds, in order, one unit quad for each voxel of `cells`.
pub open spec fn quads_at(quads: Seq<Quad>, cells: Seq<int>) -> bool {
    &&& quads.len() == cells.len()
    &&& forall|k: int|
        0 <= k < quads.len() ==> {
            let (x, y, z) = cell(cells[k]);
            &&& (#[trigger] quads[k]).voxel@ == seq![x as usize, y as usize, z as usize]
            &&& quads[k].width == 1
            &&& quads[k].height == 1
        }
}

/// Whether the face between `voxel` and `neighbor` is drawn.
fn face_needed(voxel: VoxelType, neighbor: VoxelType) -> (r: bool)
    ensures
        r == face_drawn(voxel, neighbor),
{
    match (voxel.visibility(), neighbor.visibility()) {
        (VoxelVisibility::Opaque, VoxelVisibility::Empty) => true,
        (VoxelVisibility::Opaque, VoxelVisibility::Transparent) => true,
        (VoxelVisibility::Transparent, VoxelVisibility::Empty) => true,
        (VoxelVisibility::Transparent, VoxelVisibility::Transparent) => voxel != neighbor,
        _ => false,
    }
}

proof fn lemma_neighbor_index(i: int, d: int)
    requires
        0 <= i < 39304,
        inner(i),
        0 <= d < 6,
    ensures
        0 <= neighbor_index(i, d) < 39304,
        d == 0 ==> neighbor_index(i, d) == linear_index(cell(i).0 - 1, cell(i).1, cell(i).2),
        d == 1 ==> neighbor_index(i, d) == linear_index(cell(i).0 + 1, cell(i).1, cell(i).2),
        d == 2 ==> neighbor_index(i, d) == linear_index(cell(i).0, cell(i).1 - 1, cell(i).2),
        d == 3 ==> neighbor_index(i, d) == linear_index(cell(i).0, cell(i).1 + 1, cell(i).2),
        d == 4 ==> neighbor_index(i, d) == linear_index(cell(i).0, cell(i).1, cell(i).2 - 1),
        d == 5 ==> neighbor_index(i, d) == linear_index(cell(i).0, cell(i).1, cell(i).2 + 1),
{
    lemma_linearize_delinearize(cell(i).0 + direction(d).0, cell(i).1 + direction(d).1, cell(i).2 + direction(d).2);
}


/// One unit quad for every drawn face of every inner voxel of `chunk`, grouped by direction.
pub fn generate_mesh(chunk: &RawChunk, loadable_types: &LoadableTypes) -> (r: QuadGroups)
    requires
        mesh_readable(*chunk, *loadable_types),
    ensures
        forall|d: int|
            0 <= d < 6 ==> quads_at(
                #[trigger] r.groups@[d]@,
                faces_upto(*chunk, *loadable_types, d, 39304),
            ),
{
    let mut g0: Vec<Quad> = Vec::new();
    let mut g1: Vec<Quad> = Vec::new();
    let mut g2: Vec<Quad> = Vec::new();
    let mut g3: Vec<Quad> = Vec::new();
    let mut g4: Vec<Quad> = Vec::new();
    let mut g5: Vec<Quad> = Vec::new();
    let ghost c = *chunk;
    let ghost t = *loadable_types;
    let size = RawChunk::size();
    let mut i: usize = 0;
    while i < size
        invariant
            size == 39304,
            i <= size,
            c == *chunk,
            t == *loadable_types,
            mesh_readable(c, t),
            quads_at(g0@, faces_upto(c, t, 0, i as int)),
            quads_at(g1@, faces_upto(c, t, 1, i as int)),
            quads_at(g2@, faces_upto(c, t, 2, i as int)),
            quads_at(g3@, faces_upto(c, t, 3, i as int)),
            quads_at(g4@, faces_upto(c, t, 4, i as int)),
            quads_at(g5@, faces_upto(c, t, 5, i as int)),
        decreases size - i,
    {
        let (x, y, z) = RawChunk::delinearize(i);
        proof {
            lemma_delinearize_linearize(i as int);
            assert(cell(i as int) == (x as int, y as int, z as int));
        }
        let ghost gi = i as int;
        if (x > 0 && x < 33) && (y > 0 && y < 33) && (z > 0 && z < 33) {
            assert(inner(gi));
            let voxel = chunk.get(x, y, z, loadable_types);
            if voxel.visibility() != VoxelVisibility::Empty {
                proof {
                    assert forall|d: int| 0 <= d < 6 implies chunk.readable(loadable_types, #[trigger] neighbor_index(gi, d)) by {
                        lemma_neighbor_index(gi, d);
                    }
                    lemma_neighbor_index(gi, 0);
                    lemma_neighbor_index(gi, 1);
                    lemma_neighbor_index(gi, 2);
                    lemma_neighbor_index(gi, 3);
                    lemma_neighbor_index(gi, 4);
                    lemma_neighbor_index(gi, 5);
                }
                let n0 = chunk.get(x - 1, y, z, loadable_types);
                let n1 = chunk.get(x + 1, y, z, loadable_types);
                let n2 = chunk.get(x, y - 1, z, loadable_types);
                let n3 = chunk.get(x, y + 1, z, loadable_types);
                let n4 = chunk.get(x, y, z - 1, loadable_types);
                let n5 = chunk.get(x, y, z + 1, loadable_types);
                let quad = Quad { voxel: [x as usize, y as usize, z as usize], width: 1, height: 1 };
                assert(quad.voxel@ == seq![x as usize, y as usize, z as usize]);
                if face_needed(voxel, n0) {
                    g0.push(quad);
                }
                if face_needed(voxel, n1) {
                    g1.push(quad);
                }
                if face_needed(voxel, n2) {
                    g2.push(quad);
                }
                if face_needed(voxel, n3) {
                    g3.push(quad);
                }
                if face_needed(voxel, n4) {
                    g4.push(quad);
                }
                if face_needed(voxel, n5) {
                    g5.push(quad);
                }
            }
        }
        i = i + 1;
    }
    let r = QuadGroups { groups: [g0, g1, g2, g3, g4, g5] };
    assert(r.groups@[0]@ == g0@);
    r
}


/// Ambient occlusion at one corner of a face, from whether the two side voxels and the
/// corner voxel are opaque: 0 is darkest, 3 is unoccluded.
pub open spec fn corner_occlusion(side1: bool, corner: bool, side2: bool) -> u8 {
    if side1 && side2 {
        0
    } else if corner && (side1 || side2) {
        1
    } else if side1 || corner || side2 {
        2
    } else {
        3
    }
}

/// The occlusion of a corner counts its opaque voxels: 3 with none, one less for each of the
/// two side voxels and the corner voxel that is opaque, and 0 (fully dark) as soon as both
/// side voxels are opaque, whatever the corner voxel is. More opaque voxels never make it
/// brighter.
pub proof fn lemma_corner_rule(side1: bool, corner: bool, side2: bool)
    ensures
        corner_occlusion(side1, corner, side2) == (if side1 && side2 {
            0int
        } else {
            3 - ((if side1 { 1int } else { 0int }) + (if corner { 1int } else { 0int }) + (if side2 { 1int } else { 0int }))
        }),
{
}

/// The eight voxels around a face of side `side`, as offsets from the voxel that owns the
/// face, walking around the face so that entries 0, 2, 4, 6 share an edge with it and
/// 1, 3, 5, 7 share only a corner.
pub open spec fn ao_offset(side: Side, k: int) -> (int, int, int) {
    let s = if side == (Side { axis: Axis::X, positive: false }) {
        seq![(-1, 0, -1), (-1, -1, -1), (-1, -1, 0), (-1, -1, 1), (-1, 0, 1), (-1, 1, 1), (-1, 1, 0), (-1, 1, -1)]
    } else if side == (Side { axis: Axis::X, positive: true }) {
        seq![(1, 0, 1), (1, -1, 1), (1, -1, 0), (1, -1, -1), (1, 0, -1), (1, 1, -1), (1, 1, 0), (1, 1, 1)]
    } else if side == (Side { axis: Axis::Y, positive: false }) {
        seq![(0, -1, 1), (-1, -1, 1), (-1, -1, 0), (-1, -1, -1), (0, -1, -1), (1, -1, -1), (1, -1, 0), (1, -1, 1)]
    } else if side == (Side { axis: Axis::Y, positive: true }) {
        seq![(0, 1, -1), (-1, 1, -1), (-1, 1, 0), (-1, 1, 1), (0, 1, 1), (1, 1, 1), (1, 1, 0), (1, 1, -1)]
    } else if side == (Side { axis: Axis::Z, positive: true }) {
        seq![(-1, 0, 1), (-1, -1, 1), (0, -1, 1), (1, -1, 1), (1, 0, 1), (1, 1, 1), (0, 1, 1), (-1, 1, 1)]
    } else {
        seq![(1, 0, -1), (1, -1, -1), (0, -1, -1), (-1, -1, -1), (-1, 0, -1), (-1, 1, -1), (0, 1, -1), (1, 1, -1)]
    };
    s[k]
}

/// The step from a voxel to the neighbour that its face on side `side` looks at.
pub open spec fn side_step(side: Side) -> (int, int, int) {
    let s: int = if side.positive {
        1
    } else {
        -1
    };
    match side.axis {
        Axis::X => (s, 0, 0),
        Axis::Y => (0, s, 0),
        Axis::Z => (0, 0, s),
    }
}

/// Entry `k` of the shading ring of side `side`, as an offset from the neighbour the face
/// looks at.
pub open spec fn ring_step(side: Side, k: int) -> (int, int, int) {
    let o = ao_offset(side, k);
    let n = side_step(side);
    (o.0 - n.0, o.1 - n.1, o.2 - n.2)
}

/// An offset is a unit step in the plane across `side`: nothing along the side's axis, -1, 0
/// or 1 along the two others, and not zero.
pub open spec fn in_face_plane(side: Side, p: (int, int, int)) -> bool {
    &&& -1 <= p.0 <= 1 && -1 <= p.1 <= 1 && -1 <= p.2 <= 1
    &&& p != (0int, 0int, 0int)
    &&& (side.axis == Axis::X ==> p.0 == 0)
    &&& (side.axis == Axis::Y ==> p.1 == 0)
    &&& (side.axis == Axis::Z ==> p.2 == 0)
}

/// The number of nonzero coordinates of an offset.
pub open spec fn nonzero_count(p: (int, int, int)) -> int {
    (if p.0 != 0 { 1int } else { 0int }) + (if p.1 != 0 { 1int } else { 0int }) + (if p.2 != 0 { 1int } else { 0int })
}

/// The eight voxels that shade a face all lie in the layer the face looks into, around the
/// neighbour across the face: each sits one step from the voxel along the side's axis, in the
/// side's direction, and one unit step away from the neighbour within that layer. They are
/// eight different voxels walking once around the neighbour: even entries share an edge with
/// it, odd entries are the corners between the two edge entries beside them.
pub proof fn lemma_shading_ring(side: Side, k: int)
    requires
        0 <= k < 8,
    ensures
        in_face_plane(side, ring_step(side, k)),
        k % 2 == 0 ==> nonzero_count(ring_step(side, k)) == 1,
        k % 2 == 1 ==> ({
            let a = ring_step(side, k - 1);
            let b = ring_step(side, (k + 1) % 8);
            ring_step(side, k) == (a.0 + b.0, a.1 + b.1, a.2 + b.2)
        }),
        forall|j: int| 0 <= j < 8 && j != k ==> ao_offset(side, j) != ao_offset(side, k),
{
}

/// Linear index of the `k`-th voxel around the face of side `side` of voxel (x, y, z).
pub open spec fn ao_index(side: Side, x: int, y: int, z: int, k: int) -> int {
    let (dx, dy, dz) = ao_offset(side, k);
    linear_index(x + dx, y + dy, z + dz)
}

/// The eight voxels around the face can be read, and their coordinates are computed
/// without leaving the range of u32.
pub open spec fn ao_readable(chunk: RawChunk, types: LoadableTypes, side: Side, x: int, y: int, z: int) -> bool {
    forall|k: int|
        0 <= k < 8 ==> {
            let (dx, dy, dz) = #[trigger] ao_offset(side, k);
            &&& 0 <= x + dx <= u32::MAX
            &&& 0 <= y + dy <= u32::MAX
            &&& 0 <= z + dz <= u32::MAX
            &&& chunk.readable(&types, ao_index(side, x, y, z, k))
        }
}

/// Whether the `k`-th voxel around the face is opaque.
pub open spec fn ao_opaque(chunk: RawChunk, types: LoadableTypes, side: Side, x: int, y: int, z: int, k: int) -> bool {
    chunk.voxel_type_at(&types, ao_index(side, x, y, z, k)).spec_visibility() == VoxelVisibility::Opaque
}

/// The occlusion of the four corners of the face.
pub open spec fn face_occlusion(chunk: RawChunk, types: LoadableTypes, side: Side, x: int, y: int, z: int) -> Seq<u8> {
    let o = |k: int| ao_opaque(chunk, types, side, x, y, z, k);
    seq![
        corner_occlusion(o(2), o(3), o(4)),
        corner_occlusion(o(0), o(1), o(2)),
        corner_occlusion(o(4), o(5), o(6)),
        corner_occlusion(o(6), o(7), o(0)),
    ]
}

/// Ambient occlusion never brightens a corner when more voxels around the face are opaque:
/// if every voxel around the face that is opaque in `a` is opaque in `b` too, each of the four
/// corner values for `b` is at most the one for `a`.
pub proof fn lemma_occlusion_monotone(
    a: RawChunk,
    b: RawChunk,
    types: LoadableTypes,
    side: Side,
    x: int,
    y: int,
    z: int,
)
    requires
        forall|k: int| 0 <= k < 8 && #[trigger] ao_opaque(a, types, side, x, y, z, k) ==> ao_opaque(b, types, side, x, y, z, k),
    ensures
        forall|j: int| 0 <= j < 4 ==> #[trigger] face_occlusion(b, types, side, x, y, z)[j] <= face_occlusion(a, types, side, x, y, z)[j],
{
    assert(ao_opaque(a, types, side, x, y, z, 0) ==> ao_opaque(b, types, side, x, y, z, 0));
    assert(ao_opaque(a, types, side, x, y, z, 1) ==> ao_opaque(b, types, side, x, y, z, 1));
    assert(ao_opaque(a, types, side, x, y, z, 2) ==> ao_opaque(b, types, side, x, y, z, 2));
    assert(ao_opaque(a, types, side, x, y, z, 3) ==> ao_opaque(b, types, side, x, y, z, 3));
    assert(ao_opaque(a, types, side, x, y, z, 4) ==> ao_opaque(b, types, side, x, y, z, 4));
    assert(ao_opaque(a, types, side, x, y, z, 5) ==> ao_opaque(b, types, side, x, y, z, 5));
    assert(ao_opaque(a, types, side, x, y, z, 6) ==> ao_opaque(b, types, side, x, y, z, 6));
    assert(ao_opaque(a, types, side, x, y, z, 7) ==> ao_opaque(b, types, side, x, y, z, 7));
}

/// Occlusion at a corner from its two side voxels and its corner voxel.
fn occlusion(side1: VoxelType, corner: VoxelType, side2: VoxelType) -> (r: u8)
    ensures
        r == corner_occlusion(
            side1.spec_visibility() == VoxelVisibility::Opaque,
            corner.spec_visibility() == VoxelVisibility::Opaque,
            side2.spec_visibility() == VoxelVisibility::Opaque,
        ),
{
    let s1 = side1.visibility() == VoxelVisibility::Opaque;
    let c = corner.visibility() == VoxelVisibility::Opaque;
    let s2 = side2.visibility() == VoxelVisibility::Opaque;
    if s1 && s2 {
        0
    } else if c && (s1 || s2) {
        1
    } else if s1 || c || s2 {
        2
    } else {
        3
    }
}

/// The offsets of the eight voxels around a face of side `side`.
fn ao_offsets(side: Side) -> (r: [(i8, i8, i8); 8])
    ensures
        forall|k: int| 0 <= k < 8 ==> (r@[k].0 as int, r@[k].1 as int, r@[k].2 as int) == ao_offset(side, k),
{
    let r = if side == Side::new(Axis::X, false) {
        [(-1, 0, -1), (-1, -1, -1), (-1, -1, 0), (-1, -1, 1), (-1, 0, 1), (-1, 1, 1), (-1, 1, 0), (-1, 1, -1)]
    } else if side == Side::new(Axis::X, true) {
        [(1, 0, 1), (1, -1, 1), (1, -1, 0), (1, -1, -1), (1, 0, -1), (1, 1, -1), (1, 1, 0), (1, 1, 1)]
    } else if side == Side::new(Axis::Y, false) {
        [(0, -1, 1), (-1, -1, 1), (-1, -1, 0), (-1, -1, -1), (0, -1, -1), (1, -1, -1), (1, -1, 0), (1, -1, 1)]
    } else if side == Side::new(Axis::Y, true) {
        [(0, 1, -1), (-1, 1, -1), (-1, 1, 0), (-1, 1, 1), (0, 1, 1), (1, 1, 1), (1, 1, 0), (1, 1, -1)]
    } else if side == Side::new(Axis::Z, true) {
        [(-1, 0, 1), (-1, -1, 1), (0, -1, 1), (1, -1, 1), (1, 0, 1), (1, 1, 1), (0, 1, 1), (-1, 1, 1)]
    } else {
        [(1, 0, -1), (1, -1, -1), (0, -1, -1), (-1, -1, -1), (-1, 0, -1), (-1, 1, -1), (0, 1, -1), (1, 1, -1)]
    };
    proof {
        assert forall|k: int| 0 <= k < 8 implies (r@[k].0 as int, r@[k].1 as int, r@[k].2 as int) == ao_offset(side, k) by {
        }
    }
    r
}

/// Ambient occlusion of the four corners of the face of side `current_side` of voxel (x, y, z).
pub fn calculate_ao(
    chunk: &RawChunk,
    current_side: Side,
    x: u32,
    y: u32,
    z: u32,
    loadable_types: &LoadableTypes,
) -> (r: [u8; 4])
    requires
        ao_readable(*chunk, *loadable_types, current_side, x as int, y as int, z as int),
    ensures
        r@ == face_occlusion(*chunk, *loadable_types, current_side, x as int, y as int, z as int),
{
    let ghost c = *chunk;
    let ghost t = *loadable_types;
    let offsets = ao_offsets(current_side);
    let mut neighbours: Vec<VoxelType> = Vec::new();
    let mut k: usize = 0;
    while k < 8
        invariant
            k <= 8,
            c == *chunk,
            t == *loadable_types,
            ao_readable(c, t, current_side, x as int, y as int, z as int),
            forall|j: int| 0 <= j < 8 ==> (offsets@[j].0 as int, offsets@[j].1 as int, offsets@[j].2 as int) == ao_offset(current_side, j),
            neighbours@.len() == k,
            forall|j: int| 0 <= j < k ==> neighbours@[j] == c.voxel_type_at(&t, #[trigger] ao_index(current_side, x as int, y as int, z as int, j)),
        decreases 8 - k,
    {
        let (dx, dy, dz) = offsets[k];
        assert(ao_offset(current_side, k as int) == (dx as int, dy as int, dz as int));
        let nx = (x as i64 + dx as i64) as u32;
        let ny = (y as i64 + dy as i64) as u32;
        let nz = (z as i64 + dz as i64) as u32;
        neighbours.push(chunk.get(nx, ny, nz, loadable_types));
        k = k + 1;
    }
    let ao = [
        occlusion(neighbours[2], neighbours[3], neighbours[4]),
        occlusion(neighbours[0], neighbours[1], neighbours[2]),
        occlusion(neighbours[4], neighbours[5], neighbours[6]),
        occlusion(neighbours[6], neighbours[7], neighbours[0]),
    ];
    assert(ao@ =~= face_occlusion(c, t, current_side, x as int, y as int, z as int));
    ao
}


/// A face to draw: the side it looks to and the quad of the voxel it belongs to.
#[derive(Clone, Copy, Debug)]
pub struct Face {
    pub side: Side,
    pub quad: Quad,
}

/// The six vertex indices of the two triangles of a quad whose four vertices start at
/// `start`; the flipped form splits the quad along the other diagonal.
pub open spec fn quad_indices(start: int, flipped: bool) -> Seq<u32> {
    if flipped {
        seq![start as u32, (start + 2) as u32, (start + 1) as u32, (start + 1) as u32, (start + 2) as u32, (start + 3) as u32]
    } else {
        seq![start as u32, (start + 3) as u32, (start + 1) as u32, start as u32, (start + 2) as u32, (start + 3) as u32]
    }
}

impl Face {
    /// Vertex indices of the face's two triangles.
    pub fn indices(&self, start: u32, flipped: bool) -> (r: [u32; 6])
        requires
            start + 3 <= u32::MAX,
        ensures
            r@ == quad_indices(start as int, flipped),
    {
        let r = if flipped {
            [start, start + 2, start + 1, start + 1, start + 2, start + 3]
        } else {
            [start, start + 3, start + 1, start, start + 2, start + 3]
        };
        assert(r@ =~= quad_indices(start as int, flipped));
        r
    }

    /// The voxel the face belongs to.
    pub fn voxel(&self) -> (r: [usize; 3])
        ensures
            r == self.quad.voxel,
    {
        self.quad.voxel
    }

    /// The corner of the face's voxel nearest the origin, counted from the chunk's first inner
    /// voxel: one less than the voxel's coordinates. Scaled by the voxel size it is where the
    /// face's vertices start.
    pub fn origin(&self) -> (r: [usize; 3])
        requires
            self.quad.voxel[0] >= 1,
            self.quad.voxel[1] >= 1,
            self.quad.voxel[2] >= 1,
        ensures
            r@ == seq![
                (self.quad.voxel[0] - 1) as usize,
                (self.quad.voxel[1] - 1) as usize,
                (self.quad.voxel[2] - 1) as usize,
            ],
    {
        let r = [self.quad.voxel[0] - 1, self.quad.voxel[1] - 1, self.quad.voxel[2] - 1];
        assert(r@ =~= seq![
            (self.quad.voxel[0] - 1) as usize,
            (self.quad.voxel[1] - 1) as usize,
            (self.quad.voxel[2] - 1) as usize,
        ]);
        r
    }

    /// The four vertices of the face, in drawing order, as offsets of 0 or 1 voxel from its
    /// origin along each axis.
    pub fn corner_offsets(&self) -> (r: [[u8; 3]; 4])
        ensures
            r@.map_values(|c: [u8; 3]| c@) == face_corners(self.side),
    {
        let r: [[u8; 3]; 4] = match (self.side.axis, self.side.positive) {
            (Axis::X, false) => [[0, 0, 1], [0, 0, 0], [0, 1, 1], [0, 1, 0]],
            (Axis::X, true) => [[1, 0, 0], [1, 0, 1], [1, 1, 0], [1, 1, 1]],
            (Axis::Y, false) => [[0, 0, 1], [1, 0, 1], [0, 0, 0], [1, 0, 0]],
            (Axis::Y, true) => [[0, 1, 1], [0, 1, 0], [1, 1, 1], [1, 1, 0]],
            (Axis::Z, false) => [[0, 0, 0], [1, 0, 0], [0, 1, 0], [1, 1, 0]],
            (Axis::Z, true) => [[1, 0, 1], [0, 0, 1], [1, 1, 1], [0, 1, 1]],
        };
        assert(r@.map_values(|c: [u8; 3]| c@) =~= face_corners(self.side));
        r
    }
}

/// The vertices of a face of side `side` of a unit voxel, in drawing order, as offsets from
/// the voxel's origin.
pub open spec fn face_corners(side: Side) -> Seq<Seq<u8>> {
    match (side.axis, side.positive) {
        (Axis::X, false) => seq![seq![0u8, 0, 1], seq![0u8, 0, 0], seq![0u8, 1, 1], seq![0u8, 1, 0]],
        (Axis::X, true) => seq![seq![1u8, 0, 0], seq![1u8, 0, 1], seq![1u8, 1, 0], seq![1u8, 1, 1]],
        (Axis::Y, false) => seq![seq![0u8, 0, 1], seq![1u8, 0, 1], seq![0u8, 0, 0], seq![1u8, 0, 0]],
        (Axis::Y, true) => seq![seq![0u8, 1, 1], seq![0u8, 1, 0], seq![1u8, 1, 1], seq![1u8, 1, 0]],
        (Axis::Z, false) => seq![seq![0u8, 0, 0], seq![1u8, 0, 0], seq![0u8, 1, 0], seq![1u8, 1, 0]],
        (Axis::Z, true) => seq![seq![1u8, 0, 1], seq![0u8, 0, 1], seq![1u8, 1, 1], seq![0u8, 1, 1]],
    }
}

/// The unit step a face of side `side` looks along.
pub open spec fn side_normal(side: Side) -> Seq<i8> {
    match side.axis {
        Axis::X => seq![if side.positive { 1i8 } else { -1i8 }, 0, 0],
        Axis::Y => seq![0i8, if side.positive { 1i8 } else { -1i8 }, 0],
        Axis::Z => seq![0i8, 0, if side.positive { 1i8 } else { -1i8 }],
    }
}

impl Side {
    /// The unit step this side looks along, as integers.
    pub fn unit_normal(&self) -> (r: [i8; 3])
        ensures
            r@ == side_normal(*self),
    {
        let s: i8 = if self.positive { 1 } else { -1 };
        let r = match self.axis {
            Axis::X => [s, 0, 0],
            Axis::Y => [0, s, 0],
            Axis::Z => [0, 0, s],
        };
        assert(r@ =~= side_normal(*self));
        r
    }
}

/// The texture coordinates of a face's four vertices, as 0 or 1, with the texture mirrored
/// along u and along v as asked.
pub open spec fn uv_corners(flip_u: bool, flip_v: bool) -> Seq<Seq<u8>> {
    match (flip_u, flip_v) {
        (true, true) => seq![seq![1u8, 1], seq![0u8, 1], seq![1u8, 0], seq![0u8, 0]],
        (true, false) => seq![seq![1u8, 0], seq![0u8, 0], seq![1u8, 1], seq![0u8, 1]],
        (false, true) => seq![seq![0u8, 1], seq![1u8, 1], seq![0u8, 0], seq![1u8, 0]],
        (false, false) => seq![seq![0u8, 0], seq![1u8, 0], seq![0u8, 1], seq![1u8, 1]],
    }
}

/// The texture coordinates of a face's four vertices.
pub fn face_uvs(flip_u: bool, flip_v: bool) -> (r: [[u8; 2]; 4])
    ensures
        r@.map_values(|c: [u8; 2]| c@) == uv_corners(flip_u, flip_v),
{
    let r: [[u8; 2]; 4] = match (flip_u, flip_v) {
        (true, true) => [[1, 1], [0, 1], [1, 0], [0, 0]],
        (true, false) => [[1, 0], [0, 0], [1, 1], [0, 1]],
        (false, true) => [[0, 1], [1, 1], [0, 0], [1, 0]],
        (false, false) => [[0, 0], [1, 0], [0, 1], [1, 1]],
    };
    assert(r@.map_values(|c: [u8; 2]| c@) =~= uv_corners(flip_u, flip_v));
    r
}

/// The faces of the first `n` groups, group after group, each face with its group's side.
pub open spec fn faces_of(groups: Seq<Vec<Quad>>, n: int) -> Seq<Face>
    decreases n,
{
    if n <= 0 {
        Seq::empty()
    } else {
        faces_of(groups, n - 1) + groups[n - 1]@.map_values(
            |q: Quad| Face { side: Side::spec_from_index(n - 1), quad: q },
        )
    }
}

impl QuadGroups {
    /// All faces, group after group, each with the side of its group.
    pub fn iter(&self) -> (r: Vec<Face>)
        ensures
            r@ == faces_of(self.groups@, 6),
    {
        let mut r: Vec<Face> = Vec::new();
        let mut d: usize = 0;
        while d < 6
            invariant
                d <= 6,
                r@ == faces_of(self.groups@, d as int),
            decreases 6 - d,
        {
            let side = Side::from_index(d);
            let group = &self.groups[d];
            let ghost before = r@;
            let mut k: usize = 0;
            while k < group.len()
                invariant
                    k <= group@.len(),
                    group == self.groups@[d as int],
                    side == Side::spec_from_index(d as int),
                    r@ == before + group@.subrange(0, k as int).map_values(
                        |q: Quad| Face { side: Side::spec_from_index(d as int), quad: q },
                    ),
                decreases group@.len() - k,
            {
                r.push(Face { side, quad: group[k] });
                proof {
                    assert(group@.subrange(0, k + 1) =~= group@.subrange(0, k as int).push(group@[k as int]));
                }
                k = k + 1;
                proof {
                    assert(r@ =~= before + group@.subrange(0, k as int).map_values(
                        |q: Quad| Face { side: Side::spec_from_index(d as int), quad: q },
                    ));
                }
            }
            proof {
                assert(group@.subrange(0, group@.len() as int) =~= group@);
            }
            d = d + 1;
        }
        r
    }
}

/// Which of a block's six textures a face of side `side` shows: up, down, left, right,
/// front and back are stored in that order.
pub open spec fn spec_texture_slot(side: Side) -> usize {
    match (side.axis, side.positive) {
        (Axis::X, false) => 2,
        (Axis::X, true) => 3,
        (Axis::Y, false) => 1,
        (Axis::Y, true) => 0,
        (Axis::Z, false) => 5,
        (Axis::Z, true) => 4,
    }
}

/// Which of a block's six textures a face of side `side` shows.
pub fn texture_slot(side: Side) -> (r: usize)
    ensures
        r == spec_texture_slot(side),
{
    match (side.axis, side.positive) {
        (Axis::X, false) => 2,
        (Axis::X, true) => 3,
        (Axis::Y, false) => 1,
        (Axis::Y, true) => 0,
        (Axis::Z, false) => 5,
        (Axis::Z, true) => 4,
    }
}


/// The quad is the unit quad of voxel `i`.
pub open spec fn quad_of_cell(q: Quad, i: int) -> bool {
    let (x, y, z) = cell(i);
    &&& q.voxel@ == seq![x as usize, y as usize, z as usize]
    &&& q.width == 1
    &&& q.height == 1
}

/// The faces the mesher draws in the first `n` directions, as (direction, voxel index)
/// pairs, direction after direction and in index order within a direction.
pub open spec fn face_list(chunk: RawChunk, types: LoadableTypes, n: int) -> Seq<(int, int)>
    decreases n,
{
    if n <= 0 {
        Seq::empty()
    } else {
        face_list(chunk, types, n - 1) + faces_upto(chunk, types, n - 1, 39304).map_values(
            |i: int| (n - 1, i),
        )
    }
}

/// Ambient occlusion of the four corners of a listed face.
pub open spec fn face_ao_of(chunk: RawChunk, types: LoadableTypes, f: (int, int)) -> Seq<u8> {
    let (x, y, z) = cell(f.1);
    face_occlusion(chunk, types, Side::spec_from_index(f.0), x, y, z)
}

/// A quad is split along its other diagonal when the first and third corners are brighter
/// together than the zeroth and second.
pub open spec fn flip_quad(ao: Seq<u8>) -> bool {
    ao[1] + ao[3] > ao[2] + ao[0]
}

/// The index buffer of the first `n` faces of `faces`: four vertices per face, two triangles each.
pub open spec fn mesh_indices(chunk: RawChunk, types: LoadableTypes, faces: Seq<(int, int)>, n: int) -> Seq<u32>
    decreases n,
{
    if n <= 0 {
        Seq::empty()
    } else {
        mesh_indices(chunk, types, faces, n - 1) + quad_indices(
            4 * (n - 1),
            flip_quad(face_ao_of(chunk, types, faces[n - 1])),
        )
    }
}

/// The per-vertex occlusion values of the first `n` faces of `faces`.
pub open spec fn mesh_ao(chunk: RawChunk, types: LoadableTypes, faces: Seq<(int, int)>, n: int) -> Seq<u8>
    decreases n,
{
    if n <= 0 {
        Seq::empty()
    } else {
        mesh_ao(chunk, types, faces, n - 1) + face_ao_of(chunk, types, faces[n - 1])
    }
}

/// Everything the mesher and the occlusion pass read can be read.
pub open spec fn geometry_readable(chunk: RawChunk, types: LoadableTypes) -> bool {
    &&& mesh_readable(chunk, types)
    &&& forall|i: int, d: int|
        0 <= i < 39304 && 0 <= d < 6 && #[trigger] emits_face(chunk, types, i, d) ==> {
            let (x, y, z) = cell(i);
            ao_readable(chunk, types, Side::spec_from_index(d), x, y, z)
        }
}

/// Every voxel of the chunk can be read: each names an entry of the palette, and each state
/// but air is a known block type.
pub open spec fn fully_readable(chunk: RawChunk, types: LoadableTypes) -> bool {
    &&& chunk.voxels@.len() == 39304
    &&& forall|i: int| 0 <= i < 39304 ==> #[trigger] chunk.readable(&types, i)
}

/// A chunk whose every voxel can be read can be meshed: the reads of the mesher and of the
/// corner shading all land on voxels of the chunk.
pub proof fn lemma_fully_readable_meshes(chunk: RawChunk, types: LoadableTypes)
    requires
        fully_readable(chunk, types),
    ensures
        geometry_readable(chunk, types),
{
    assert forall|i: int| 0 <= i < 39304 && #[trigger] inner(i) implies {
        &&& chunk.readable(&types, i)
        &&& (chunk.voxel_type_at(&types, i).spec_visibility() != VoxelVisibility::Empty
            ==> forall|d: int| 0 <= d < 6 ==> chunk.readable(&types, #[trigger] neighbor_index(i, d)))
    } by {
        let (x, y, z) = cell(i);
        assert forall|d: int| 0 <= d < 6 implies chunk.readable(&types, #[trigger] neighbor_index(i, d)) by {
            let (dx, dy, dz) = direction(d);
            lemma_linearize_delinearize(x + dx, y + dy, z + dz);
        }
    }
    assert forall|i: int, d: int|
        0 <= i < 39304 && 0 <= d < 6 && #[trigger] emits_face(chunk, types, i, d) implies {
            let (x, y, z) = cell(i);
            ao_readable(chunk, types, Side::spec_from_index(d), x, y, z)
        } by {
        let (x, y, z) = cell(i);
        let side = Side::spec_from_index(d);
        assert forall|k: int| 0 <= k < 8 implies {
            let (dx, dy, dz) = #[trigger] ao_offset(side, k);
            &&& 0 <= x + dx <= u32::MAX
            &&& 0 <= y + dy <= u32::MAX
            &&& 0 <= z + dz <= u32::MAX
            &&& chunk.readable(&types, ao_index(side, x, y, z, k))
        } by {
            let (dx, dy, dz) = ao_offset(side, k);
            assert(-1 <= dx <= 1 && -1 <= dy <= 1 && -1 <= dz <= 1);
            lemma_linearize_delinearize(x + dx, y + dy, z + dz);
        }
    }
}

/// Whether every voxel of `chunk` can be read with the block types `loadable_types`; when it
/// can, the chunk can be meshed.
pub fn is_meshable(chunk: &RawChunk, loadable_types: &LoadableTypes) -> (r: bool)
    ensures
        r == fully_readable(*chunk, *loadable_types),
        r ==> geometry_readable(*chunk, *loadable_types),
{
    let air = String::from_str("air");
    proof {
        reveal_strlit("air");
        assert(air@ =~= air_name());
    }
    let n = chunk.palette.len();
    let mut known: Vec<bool> = Vec::new();
    let mut k: usize = 0;
    while k < n
        invariant
            n == chunk.palette@.len(),
            air@ == air_name(),
            k <= n,
            known@.len() == k,
            forall|j: int| 0 <= j < k ==> #[trigger] known@[j] == (chunk.states()[j] != air_name()
                ==> loadable_types.block(chunk.states()[j]) is Some),
        decreases n - k,
    {
        let name = &chunk.palette[k];
        assert(chunk.states()[k as int] == name@);
        let ok = *name == air || loadable_types.get_block(name).is_some();
        known.push(ok);
        k = k + 1;
    }
    if chunk.voxels.len() != 39304 {
        return false;
    }
    let mut i: usize = 0;
    while i < 39304
        invariant
            n == chunk.palette@.len(),
            known@.len() == n,
            chunk.voxels@.len() == 39304,
            forall|j: int| 0 <= j < n ==> #[trigger] known@[j] == (chunk.states()[j] != air_name()
                ==> loadable_types.block(chunk.states()[j]) is Some),
            i <= 39304,
            forall|j: int| 0 <= j < i ==> #[trigger] chunk.readable(loadable_types, j),
        decreases 39304 - i,
    {
        let v = chunk.voxels[i] as usize;
        if v >= n || !known[v] {
            assert(!chunk.readable(loadable_types, i as int));
            return false;
        }
        assert(chunk.readable(loadable_types, i as int));
        i = i + 1;
    }
    proof {
        lemma_fully_readable_meshes(*chunk, *loadable_types);
    }
    true
}

/// The drawable faces of a chunk with their occlusion and triangle indices.
pub struct ChunkGeometry {
    pub faces: Vec<Face>,
    pub indices: Vec<u32>,
    pub ao: Vec<u8>,
}

/// Every voxel listed for direction `d` among the first `n` indices is below `n` and gets a quad.
pub proof fn lemma_faces_upto(chunk: RawChunk, types: LoadableTypes, d: int, n: int)
    requires
        n >= 0,
    ensures
        faces_upto(chunk, types, d, n).len() <= n,
        forall|k: int|
            0 <= k < faces_upto(chunk, types, d, n).len() ==> {
                let i = #[trigger] faces_upto(chunk, types, d, n)[k];
                0 <= i < n && emits_face(chunk, types, i, d)
            },
    decreases n,
{
    if n > 0 {
        lemma_faces_upto(chunk, types, d, n - 1);
    }
}

/// Every listed face is in one of the six directions, at a voxel that gets a quad there.
pub proof fn lemma_face_list(chunk: RawChunk, types: LoadableTypes, n: int)
    requires
        0 <= n <= 6,
    ensures
        face_list(chunk, types, n).len() <= n * 39304,
        forall|k: int|
            0 <= k < face_list(chunk, types, n).len() ==> {
                let f = #[trigger] face_list(chunk, types, n)[k];
                &&& 0 <= f.0 < n
                &&& 0 <= f.1 < 39304
                &&& emits_face(chunk, types, f.1, f.0)
            },
    decreases n,
{
    if n > 0 {
        lemma_face_list(chunk, types, n - 1);
        lemma_faces_upto(chunk, types, n - 1, 39304);
        let a = face_list(chunk, types, n - 1);
        let b = faces_upto(chunk, types, n - 1, 39304).map_values(|i: int| (n - 1, i));
        assert forall|k: int| 0 <= k < (a + b).len() implies {
            let f = #[trigger] (a + b)[k];
            &&& 0 <= f.0 < n
            &&& 0 <= f.1 < 39304
            &&& emits_face(chunk, types, f.1, f.0)
        } by {
            if k >= a.len() {
                let i = faces_upto(chunk, types, n - 1, 39304)[k - a.len()];
                assert((a + b)[k] == (n - 1, i));
            } else {
                assert((a + b)[k] == a[k]);
            }
        }
    }
}

/// The faces of the quad groups are, one by one, the listed faces.
pub proof fn lemma_faces_match(chunk: RawChunk, types: LoadableTypes, groups: Seq<Vec<Quad>>, n: int)
    requires
        0 <= n <= 6,
        groups.len() == 6,
        forall|d: int| 0 <= d < 6 ==> quads_at(#[trigger] groups[d]@, faces_upto(chunk, types, d, 39304)),
    ensures
        faces_of(groups, n).len() == face_list(chunk, types, n).len(),
        forall|k: int|
            0 <= k < faces_of(groups, n).len() ==> {
                let f = #[trigger] face_list(chunk, types, n)[k];
                &&& faces_of(groups, n)[k].side == Side::spec_from_index(f.0)
                &&& quad_of_cell(faces_of(groups, n)[k].quad, f.1)
            },
    decreases n,
{
    if n > 0 {
        lemma_faces_match(chunk, types, groups, n - 1);
        let fa = faces_of(groups, n - 1);
        let fb = groups[n - 1]@.map_values(|q: Quad| Face { side: Side::spec_from_index(n - 1), quad: q });
        let la = face_list(chunk, types, n - 1);
        let cells = faces_upto(chunk, types, n - 1, 39304);
        let lb = cells.map_values(|i: int| (n - 1, i));
        assert(quads_at(groups[n - 1]@, cells));
        assert forall|k: int| 0 <= k < (fa + fb).len() implies {
            let f = #[trigger] (la + lb)[k];
            &&& (fa + fb)[k].side == Side::spec_from_index(f.0)
            &&& quad_of_cell((fa + fb)[k].quad, f.1)
        } by {
            if k >= fa.len() {
                let j = k - fa.len();
                assert((la + lb)[k] == lb[j]);
                assert((fa + fb)[k] == fb[j]);
                assert(groups[n - 1]@[j] == (groups[n - 1]@)[j]);
            } else {
                assert((la + lb)[k] == la[k]);
                assert((fa + fb)[k] == fa[k]);
            }
        }
    }
}


/// Meshes a chunk: its drawable faces in group order, the occlusion of each face's four
/// corners, and the index buffer with four vertices per face, each quad split along the
/// diagonal its occlusion calls for.
pub fn build_chunk_geometry(raw_chunk: &RawChunk, loadable_types: &LoadableTypes) -> (r: ChunkGeometry)
    requires
        geometry_readable(*raw_chunk, *loadable_types),
    ensures
        ({
            let faces = face_list(*raw_chunk, *loadable_types, 6);
            &&& r.faces@.len() == faces.len()
            &&& forall|k: int|
                0 <= k < faces.len() ==> {
                    &&& (#[trigger] r.faces@[k]).side == Side::spec_from_index(faces[k].0)
                    &&& quad_of_cell(r.faces@[k].quad, faces[k].1)
                }
            &&& r.indices@ == mesh_indices(*raw_chunk, *loadable_types, faces, faces.len() as int)
            &&& r.ao@ == mesh_ao(*raw_chunk, *loadable_types, faces, faces.len() as int)
        }),
{
    let ghost c = *raw_chunk;
    let ghost t = *loadable_types;
    let ghost fl = face_list(c, t, 6);
    let mesh_result = generate_mesh(raw_chunk, loadable_types);
    let faces = mesh_result.iter();
    proof {
        lemma_faces_match(c, t, mesh_result.groups@, 6);
        lemma_face_list(c, t, 6);
    }
    let mut indices: Vec<u32> = Vec::new();
    let mut ao: Vec<u8> = Vec::new();
    let mut k: usize = 0;
    while k < faces.len()
        invariant
            c == *raw_chunk,
            t == *loadable_types,
            geometry_readable(c, t),
            fl == face_list(c, t, 6),
            faces@.len() == fl.len(),
            fl.len() <= 6 * 39304,
            forall|j: int|
                0 <= j < fl.len() ==> {
                    &&& (#[trigger] faces@[j]).side == Side::spec_from_index(fl[j].0)
                    &&& quad_of_cell(faces@[j].quad, fl[j].1)
                },
            forall|j: int|
                0 <= j < fl.len() ==> {
                    let f = #[trigger] fl[j];
                    &&& 0 <= f.0 < 6
                    &&& 0 <= f.1 < 39304
                    &&& emits_face(c, t, f.1, f.0)
                },
            k <= faces@.len(),
            indices@ == mesh_indices(c, t, fl, k as int),
            ao@ == mesh_ao(c, t, fl, k as int),
        decreases faces@.len() - k,
    {
        let face = faces[k];
        let ghost f = fl[k as int];
        let voxel = face.voxel();
        assert(emits_face(c, t, f.1, f.0));
        proof {
            lemma_delinearize_linearize(f.1);
            assert(quad_of_cell(faces@[k as int].quad, f.1));
        }
        let x = voxel[0] as u32;
        let y = voxel[1] as u32;
        let z = voxel[2] as u32;
        assert(cell(f.1) == (x as int, y as int, z as int));
        let calculated_ao = calculate_ao(raw_chunk, face.side, x, y, z, loadable_types);
        let start = (k * 4) as u32;
        let flipped = calculated_ao[1] + calculated_ao[3] > calculated_ao[2] + calculated_ao[0];
        let quad = face.indices(start, flipped);
        let ghost before = indices@;
        let mut j: usize = 0;
        while j < 6
            invariant
                j <= 6,
                indices@ == before + quad@.subrange(0, j as int),
            decreases 6 - j,
        {
            indices.push(quad[j]);
            proof {
                assert(quad@.subrange(0, j + 1) =~= quad@.subrange(0, j as int).push(quad@[j as int]));
            }
            j = j + 1;
        }
        let ghost ao_before = ao@;
        let mut j: usize = 0;
        while j < 4
            invariant
                j <= 4,
                ao@ == ao_before + calculated_ao@.subrange(0, j as int),
            decreases 4 - j,
        {
            ao.push(calculated_ao[j]);
            proof {
                assert(calculated_ao@.subrange(0, j + 1) =~= calculated_ao@.subrange(0, j as int).push(
                    calculated_ao@[j as int],
                ));
            }
            j = j + 1;
        }
        proof {
            assert(quad@.subrange(0, 6) =~= quad@);
            assert(calculated_ao@.subrange(0, 4) =~= calculated_ao@);
            assert(calculated_ao@ == face_ao_of(c, t, f));
        }
        k = k + 1;
    }
    ChunkGeometry { faces, indices, ao }
}


/// The triangles of an index buffer: consecutive triples, with an incomplete last
/// triple left out.
pub fn triangles(indices: &Vec<u32>) -> (r: Vec<[u32; 3]>)
    ensures
        r@.len() == indices@.len() / 3,
        forall|k: int|
            0 <= k < r@.len() ==> (#[trigger] r@[k])@ == seq![
                indices@[3 * k],
                indices@[3 * k + 1],
                indices@[3 * k + 2],
            ],
{
    let mut r: Vec<[u32; 3]> = Vec::new();
    let mut k: usize = 0;
    let len = indices.len();
    let n = len / 3;
    while k < n
        invariant
            len == indices@.len(),
            n == indices@.len() / 3,
            k <= n,
            r@.len() == k,
            forall|j: int|
                0 <= j < k ==> (#[trigger] r@[j])@ == seq![
                    indices@[3 * j],
                    indices@[3 * j + 1],
                    indices@[3 * j + 2],
                ],
        decreases n - k,
    {
        assert(3 * k + 2 < indices@.len()) by (nonlinear_arith)
            requires
                k < n,
                n == indices@.len() / 3,
        ;
        let t = [indices[3 * k], indices[3 * k + 1], indices[3 * k + 2]];
        assert(t@ =~= seq![indices@[3 * k], indices@[3 * k + 1], indices@[3 * k + 2]]);
        r.push(t);
        k = k + 1;
    }
    r
}

} // verus!

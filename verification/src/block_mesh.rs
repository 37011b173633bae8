use vstd::prelude::*;
use vstd::std_specs::convert::FromSpec;

use crate::meshing::{Axis, corner_occlusion};
use crate::voxel::VoxelType;

verus! {

/// How a voxel shows: not at all, partly see-through, or solid.
#[derive(Clone, Copy, Debug, PartialEq, Eq, Structural)]
pub enum VoxelVisibility {
    Empty,
    Translucent,
    Opaque,
}

/// A voxel the mesher can ask how it shows.
pub trait Voxel {
    /// How the voxel shows.
    spec fn shown_as(&self) -> VoxelVisibility;

    fn get_visibility(&self) -> (r: VoxelVisibility)
        ensures
            r == self.shown_as(),
    ;
}

/// Reads a voxel of a buffer as itself.
pub struct IdentityVoxel<'a, T: Voxel>(pub &'a T);

impl<'a, T: Voxel> Voxel for IdentityVoxel<'a, T> {
    open spec fn shown_as(&self) -> VoxelVisibility {
        self.0.shown_as()
    }

    fn get_visibility(&self) -> (r: VoxelVisibility) {
        self.0.get_visibility()
    }
}

impl<'a, T: Voxel> From<&'a T> for IdentityVoxel<'a, T> {
    fn from(value: &'a T) -> (r: Self) {
        IdentityVoxel(value)
    }
}

impl<'a, T: Voxel> vstd::std_specs::convert::FromSpecImpl<&'a T> for IdentityVoxel<'a, T> {
    open spec fn obeys_from_spec() -> bool {
        true
    }

    open spec fn from_spec(v: &'a T) -> Self {
        IdentityVoxel(v)
    }
}

/// How a voxel of a chunk shows to this mesher: a transparent block is translucent.
pub open spec fn chunk_voxel_shown(v: VoxelType) -> VoxelVisibility {
    match v {
        VoxelType::Empty(_) => VoxelVisibility::Empty,
        VoxelType::Opaque(_) => VoxelVisibility::Opaque,
        VoxelType::Transparent(_) => VoxelVisibility::Translucent,
    }
}

impl Voxel for VoxelType {
    open spec fn shown_as(&self) -> VoxelVisibility {
        chunk_voxel_shown(*self)
    }

    fn get_visibility(&self) -> (r: VoxelVisibility) {
        match self {
            VoxelType::Empty(_) => VoxelVisibility::Empty,
            VoxelType::Opaque(_) => VoxelVisibility::Opaque,
            VoxelType::Transparent(_) => VoxelVisibility::Translucent,
        }
    }
}

/// The dimensions of a box of voxels stored with x varying fastest, then y, then z.
#[derive(Clone, Copy, Debug, PartialEq, Eq, Structural)]
pub struct Shape3u32 {
    pub x: u32,
    pub y: u32,
    pub z: u32,
}

impl Shape3u32 {
    pub fn new(x: u32, y: u32, z: u32) -> (r: Shape3u32)
        ensures
            r == (Shape3u32 { x, y, z }),
    {
        Shape3u32 { x, y, z }
    }

    /// Number of voxels in the box.
    pub open spec fn spec_size(self) -> int {
        self.x * self.y * self.z
    }

    /// The position of voxel (x, y, z) in the buffer.
    pub open spec fn index_of(self, x: int, y: int, z: int) -> int {
        x + self.x * (y + self.y * z)
    }

    /// (x, y, z) lies in the box.
    pub open spec fn holds(self, x: int, y: int, z: int) -> bool {
        &&& 0 <= x < self.x
        &&& 0 <= y < self.y
        &&& 0 <= z < self.z
    }

    /// A voxel of the box has a position below the box's size.
    pub proof fn lemma_index_bound(self, x: int, y: int, z: int)
        requires
            self.holds(x, y, z),
        ensures
            0 <= self.index_of(x, y, z) < self.spec_size(),
    {
        let sx = self.x as int;
        let sy = self.y as int;
        let sz = self.z as int;
        assert(0 <= y + sy * z < sy * sz) by (nonlinear_arith)
            requires
                0 <= y < sy,
                0 <= z < sz,
        ;
        assert(0 <= x + sx * (y + sy * z) < sx * (sy * sz)) by (nonlinear_arith)
            requires
                0 <= x < sx,
                0 <= y + sy * z < sy * sz,
        ;
        assert(sx * (sy * sz) == sx * sy * sz) by (nonlinear_arith);
    }

    /// Number of voxels in the box.
    pub fn size(&self) -> (r: u32)
        requires
            self.spec_size() <= u32::MAX,
        ensures
            r == self.spec_size(),
    {
        if self.z == 0 {
            proof {
                assert(self.x * self.y * 0 == 0) by (nonlinear_arith);
            }
            0
        } else {
            proof {
                assert(self.x * self.y <= self.x * self.y * self.z) by (nonlinear_arith)
                    requires
                        self.z >= 1,
                ;
            }
            let xy = self.x as u64 * self.y as u64;
            (xy * self.z as u64) as u32
        }
    }

    /// The position of voxel `p` in the buffer.
    pub fn linearize(&self, p: [u32; 3]) -> (r: u32)
        requires
            self.spec_size() <= u32::MAX,
            self.holds(p[0] as int, p[1] as int, p[2] as int),
        ensures
            r == self.index_of(p[0] as int, p[1] as int, p[2] as int),
    {
        proof {
            self.lemma_index_bound(p[0] as int, p[1] as int, p[2] as int);
            let sx = self.x as int;
            let sy = self.y as int;
            let y = p[1] as int;
            let z = p[2] as int;
            assert(sy * z <= y + sy * z) by (nonlinear_arith)
                requires
                    0 <= y,
            ;
            assert(y + sy * z <= sx * (y + sy * z)) by (nonlinear_arith)
                requires
                    sx >= 1,
                    0 <= y + sy * z,
            ;
        }
        p[0] + self.x * (p[1] + self.y * p[2])
    }
}

/// One face direction of a block: the axis it looks along, and whether it looks against it
/// (`n_sign` -1) or with it (`n_sign` 1).
#[derive(Clone, Copy, Debug, PartialEq, Eq, Structural)]
pub struct OrientedBlockFace {
    pub n_sign: i32,
    pub axis: Axis,
}

impl OrientedBlockFace {
    pub fn new(n_sign: i32, axis: Axis) -> (r: OrientedBlockFace)
        ensures
            r == (OrientedBlockFace { n_sign, axis }),
    {
        OrientedBlockFace { n_sign, axis }
    }

    /// The step from a voxel to the neighbour that this face looks at.
    pub open spec fn normal(self) -> (int, int, int) {
        match self.axis {
            Axis::X => (self.n_sign as int, 0, 0),
            Axis::Y => (0, self.n_sign as int, 0),
            Axis::Z => (0, 0, self.n_sign as int),
        }
    }

    /// The normal of the face, scaled by its sign.
    pub fn signed_normal(&self) -> (r: [i32; 3])
        ensures
            r@ == seq![self.normal().0 as i32, self.normal().1 as i32, self.normal().2 as i32],
    {
        match self.axis {
            Axis::X => [self.n_sign, 0, 0],
            Axis::Y => [0, self.n_sign, 0],
            Axis::Z => [0, 0, self.n_sign],
        }
    }
}

/// The faces of a right-handed, y-up coordinate system: -x, -y, -z, +x, +y, +z.
pub fn right_handed_y_up_faces() -> (r: [OrientedBlockFace; 6])
    ensures
        r@ == seq![
            OrientedBlockFace { n_sign: -1i32, axis: Axis::X },
            OrientedBlockFace { n_sign: -1i32, axis: Axis::Y },
            OrientedBlockFace { n_sign: -1i32, axis: Axis::Z },
            OrientedBlockFace { n_sign: 1, axis: Axis::X },
            OrientedBlockFace { n_sign: 1, axis: Axis::Y },
            OrientedBlockFace { n_sign: 1, axis: Axis::Z },
        ],
{
    [
        OrientedBlockFace::new(-1, Axis::X),
        OrientedBlockFace::new(-1, Axis::Y),
        OrientedBlockFace::new(-1, Axis::Z),
        OrientedBlockFace::new(1, Axis::X),
        OrientedBlockFace::new(1, Axis::Y),
        OrientedBlockFace::new(1, Axis::Z),
    ]
}

/// A unit quad on one face of the voxel at `minimum`, with the ambient occlusion of its four
/// corners (0 darkest, 3 unoccluded).
#[derive(Clone, Copy, Debug)]
pub struct UnorientedUnitQuad {
    pub minimum: [u32; 3],
    pub ao: [u8; 4],
}

/// Unit quads grouped by the face they lie on, in the order of the face configuration.
#[derive(Debug)]
pub struct UnitQuadBuffer {
    pub groups: [Vec<UnorientedUnitQuad>; 6],
}

impl UnitQuadBuffer {
    /// A buffer with no quads.
    pub fn new() -> (r: UnitQuadBuffer)
        ensures
            forall|f: int| 0 <= f < 6 ==> (#[trigger] r.groups@[f])@.len() == 0,
    {
        UnitQuadBuffer {
            groups: [Vec::new(), Vec::new(), Vec::new(), Vec::new(), Vec::new(), Vec::new()],
        }
    }
}

/// The face configuration puts faces 0 and 3 on the x axis, 1 and 4 on the y axis and
/// 2 and 5 on the z axis, each with a sign of -1 or 1: the arrangement the corner shading is
/// made for, such as `right_handed_y_up_faces`.
pub open spec fn faces_aligned(faces: Seq<OrientedBlockFace>) -> bool {
    &&& faces.len() == 6
    &&& forall|f: int|
        0 <= f < 6 ==> {
            &&& (#[trigger] faces[f]).n_sign == 1 || faces[f].n_sign == -1
            &&& faces[f].axis == (if f % 3 == 0 {
                Axis::X
            } else if f % 3 == 1 {
                Axis::Y
            } else {
                Axis::Z
            })
        }
}

/// The number of an axis: 0 for x, 1 for y, 2 for z.
pub open spec fn axis_number(axis: Axis) -> int {
    match axis {
        Axis::X => 0,
        Axis::Y => 1,
        Axis::Z => 2,
    }
}

/// How far the reads for face `face`, at position `f` of the configuration, reach from a
/// voxel along axis `a`: one step to the neighbour along the face's own axis, and one step
/// more around that neighbour along each axis of the shading plane, which the position `f`
/// chooses (positions 0 and 3 shade in the y-z plane, 1 and 4 in x-z, 2 and 5 in x-y).
pub open spec fn reach(f: int, face: OrientedBlockFace, a: int) -> int {
    (if axis_number(face.axis) == a {
        1int
    } else {
        0int
    }) + (if f % 3 == a {
        0int
    } else {
        1int
    })
}

/// Every voxel that face `face` at position `f` reads, from any voxel strictly inside the
/// box `min..=max`, lies in the buffer shaped `shape`.
pub open spec fn kernel_in_buffer(face: OrientedBlockFace, f: int, shape: Shape3u32, min: [u32; 3], max: [u32; 3]) -> bool {
    &&& reach(f, face, 0) <= min[0] + 1 && max[0] - 1 + reach(f, face, 0) < shape.x
    &&& reach(f, face, 1) <= min[1] + 1 && max[1] - 1 + reach(f, face, 1) < shape.y
    &&& reach(f, face, 2) <= min[2] + 1 && max[2] - 1 + reach(f, face, 2) < shape.z
}

/// Some voxel lies strictly inside the box `min..=max`.
pub open spec fn interior_nonempty(min: [u32; 3], max: [u32; 3]) -> bool {
    min[0] + 1 < max[0] && min[1] + 1 < max[1] && min[2] + 1 < max[2]
}

/// A configuration of six faces, each with a sign of -1 or 1, in any order, such that
/// meshing the box `min..=max` reads only voxels of the buffer: the neighbour across each
/// face and the ring that shades it. Nothing is read when no voxel lies strictly inside the
/// box.
pub open spec fn faces_readable(faces: Seq<OrientedBlockFace>, shape: Shape3u32, min: [u32; 3], max: [u32; 3]) -> bool {
    &&& faces.len() == 6
    &&& forall|f: int|
        0 <= f < 6 ==> {
            &&& (#[trigger] faces[f]).n_sign == 1 || faces[f].n_sign == -1
            &&& interior_nonempty(min, max) ==> kernel_in_buffer(faces[f], f, shape, min, max)
        }
}

/// The configurations the shading is made for read only the box around the queried voxels,
/// so they can mesh any box of the buffer.
pub proof fn lemma_aligned_faces_readable(
    faces: Seq<OrientedBlockFace>,
    len: int,
    shape: Shape3u32,
    min: [u32; 3],
    max: [u32; 3],
)
    requires
        faces_aligned(faces),
        query_in_bounds(len, shape, min, max),
    ensures
        faces_readable(faces, shape, min, max),
{
    assert forall|f: int| 0 <= f < 6 implies {
        &&& (#[trigger] faces[f]).n_sign == 1 || faces[f].n_sign == -1
        &&& interior_nonempty(min, max) ==> kernel_in_buffer(faces[f], f, shape, min, max)
    } by {
        assert(axis_number(faces[f].axis) == f % 3);
    }
}

/// The buffer covers the shape, and the queried box `min..=max` lies in it.
pub open spec fn query_in_bounds(len: int, shape: Shape3u32, min: [u32; 3], max: [u32; 3]) -> bool {
    &&& shape.spec_size() <= u32::MAX
    &&& shape.spec_size() <= len
    &&& min[0] <= max[0] < shape.x
    &&& min[1] <= max[1] < shape.y
    &&& min[2] <= max[2] < shape.z
}

/// The visibility of each voxel of `voxels`, read through the view type `V`.
pub open spec fn view_visibility<'a, T, V: Voxel + From<&'a T>>(voxels: &'a [T]) -> spec_fn(int) -> VoxelVisibility {
    |i: int| <V as FromSpec<&'a T>>::from_spec(&voxels@[i]).shown_as()
}

/// A face between a visible voxel and its neighbour is drawn when the neighbour is empty,
/// or when it is translucent and the voxel is opaque.
pub open spec fn face_needs_mesh(voxel: VoxelVisibility, neighbor: VoxelVisibility) -> bool {
    match neighbor {
        VoxelVisibility::Empty => true,
        VoxelVisibility::Translucent => voxel == VoxelVisibility::Opaque,
        VoxelVisibility::Opaque => false,
    }
}

/// The eight voxels around the neighbour that face `f` looks at, as offsets from that
/// neighbour in the plane of the face, walking around it so that entries 0, 2, 4, 6 share an
/// edge with it and 1, 3, 5, 7 only a corner.
pub open spec fn ring_offset(f: int, k: int) -> (int, int, int) {
    if f % 3 == 0 {
        seq![(0, 0, 1), (0, -1, 1), (0, -1, 0), (0, -1, -1), (0, 0, -1), (0, 1, -1), (0, 1, 0), (0, 1, 1)][k]
    } else if f % 3 == 1 {
        seq![(0, 0, 1), (-1, 0, 1), (-1, 0, 0), (-1, 0, -1), (0, 0, -1), (1, 0, -1), (1, 0, 0), (1, 0, 1)][k]
    } else {
        seq![(1, 0, 0), (1, -1, 0), (0, -1, 0), (-1, -1, 0), (-1, 0, 0), (-1, 1, 0), (0, 1, 0), (1, 1, 0)][k]
    }
}

/// The ring that shades face `f` lies in the plane that its position picks (positions 0 and
/// 3 shade in the y-z plane, 1 and 4 in x-z, 2 and 5 in x-y): each entry is a unit step
/// within that plane, the eight entries are different and walk once around the centre, even
/// entries sharing an edge with it and odd entries being the corners between their two
/// neighbours.
pub proof fn lemma_ring_shape(f: int, k: int)
    requires
        0 <= f < 6,
        0 <= k < 8,
    ensures
        ({
            let o = ring_offset(f, k);
            &&& -1 <= o.0 <= 1 && -1 <= o.1 <= 1 && -1 <= o.2 <= 1
            &&& o != (0int, 0int, 0int)
            &&& (f % 3 == 0 ==> o.0 == 0)
            &&& (f % 3 == 1 ==> o.1 == 0)
            &&& (f % 3 == 2 ==> o.2 == 0)
        }),
        k % 2 == 0 ==> ({
            let o = ring_offset(f, k);
            (if o.0 != 0 { 1int } else { 0int }) + (if o.1 != 0 { 1int } else { 0int }) + (if o.2 != 0 { 1int } else { 0int }) == 1
        }),
        k % 2 == 1 ==> ({
            let a = ring_offset(f, k - 1);
            let b = ring_offset(f, (k + 1) % 8);
            ring_offset(f, k) == (a.0 + b.0, a.1 + b.1, a.2 + b.2)
        }),
        forall|j: int| 0 <= j < 8 && j != k ==> ring_offset(f, j) != ring_offset(f, k),
{
}

/// Entry `k` of the ring around (nx, ny, nz) for face `f` is opaque.
pub open spec fn ring_opaque(
    vis: spec_fn(int) -> VoxelVisibility,
    shape: Shape3u32,
    f: int,
    nx: int,
    ny: int,
    nz: int,
    k: int,
) -> bool {
    vis(shape.index_of(nx + ring_offset(f, k).0, ny + ring_offset(f, k).1, nz + ring_offset(f, k).2))
        == VoxelVisibility::Opaque
}

/// The ambient occlusion of the four corners of face `f`, from the ring around the neighbour
/// (nx, ny, nz) that the face looks at.
pub open spec fn face_ao(
    vis: spec_fn(int) -> VoxelVisibility,
    shape: Shape3u32,
    f: int,
    nx: int,
    ny: int,
    nz: int,
) -> Seq<u8> {
    seq![
        corner_occlusion(ring_opaque(vis, shape, f, nx, ny, nz, 2), ring_opaque(vis, shape, f, nx, ny, nz, 3), ring_opaque(vis, shape, f, nx, ny, nz, 4)),
        corner_occlusion(ring_opaque(vis, shape, f, nx, ny, nz, 0), ring_opaque(vis, shape, f, nx, ny, nz, 1), ring_opaque(vis, shape, f, nx, ny, nz, 2)),
        corner_occlusion(ring_opaque(vis, shape, f, nx, ny, nz, 4), ring_opaque(vis, shape, f, nx, ny, nz, 5), ring_opaque(vis, shape, f, nx, ny, nz, 6)),
        corner_occlusion(ring_opaque(vis, shape, f, nx, ny, nz, 6), ring_opaque(vis, shape, f, nx, ny, nz, 7), ring_opaque(vis, shape, f, nx, ny, nz, 0)),
    ]
}

/// Voxel (x, y, z) is not empty and its face towards `nrm` is drawn.
pub open spec fn emits(
    vis: spec_fn(int) -> VoxelVisibility,
    shape: Shape3u32,
    nrm: (int, int, int),
    x: int,
    y: int,
    z: int,
) -> bool {
    &&& vis(shape.index_of(x, y, z)) != VoxelVisibility::Empty
    &&& face_needs_mesh(
        vis(shape.index_of(x, y, z)),
        vis(shape.index_of(x + nrm.0, y + nrm.1, z + nrm.2)),
    )
}

/// The voxels (x, y, z) with `lo.0 <= x < x_end` whose face towards `nrm` is drawn, in order.
pub open spec fn row_faces(
    vis: spec_fn(int) -> VoxelVisibility,
    shape: Shape3u32,
    nrm: (int, int, int),
    lo: (int, int, int),
    y: int,
    z: int,
    x_end: int,
) -> Seq<(int, int, int)>
    decreases x_end - lo.0,
{
    if x_end <= lo.0 {
        Seq::empty()
    } else if emits(vis, shape, nrm, x_end - 1, y, z) {
        row_faces(vis, shape, nrm, lo, y, z, x_end - 1).push((x_end - 1, y, z))
    } else {
        row_faces(vis, shape, nrm, lo, y, z, x_end - 1)
    }
}

/// The same for the rows `lo.1 <= y < y_end` of layer z, each row running up to `hi.0`.
pub open spec fn layer_faces(
    vis: spec_fn(int) -> VoxelVisibility,
    shape: Shape3u32,
    nrm: (int, int, int),
    lo: (int, int, int),
    hi: (int, int, int),
    z: int,
    y_end: int,
) -> Seq<(int, int, int)>
    decreases y_end - lo.1,
{
    if y_end <= lo.1 {
        Seq::empty()
    } else {
        layer_faces(vis, shape, nrm, lo, hi, z, y_end - 1) + row_faces(
            vis,
            shape,
            nrm,
            lo,
            y_end - 1,
            z,
            hi.0,
        )
    }
}

/// The same for the layers `lo.2 <= z < z_end`, each layer running up to `hi.1`.
pub open spec fn box_faces(
    vis: spec_fn(int) -> VoxelVisibility,
    shape: Shape3u32,
    nrm: (int, int, int),
    lo: (int, int, int),
    hi: (int, int, int),
    z_end: int,
) -> Seq<(int, int, int)>
    decreases z_end - lo.2,
{
    if z_end <= lo.2 {
        Seq::empty()
    } else {
        box_faces(vis, shape, nrm, lo, hi, z_end - 1) + layer_faces(
            vis,
            shape,
            nrm,
            lo,
            hi,
            z_end - 1,
            hi.1,
        )
    }
}

/// `q` is the quad of face `f` of voxel `p`.
pub open spec fn quad_is(
    q: UnorientedUnitQuad,
    p: (int, int, int),
    vis: spec_fn(int) -> VoxelVisibility,
    shape: Shape3u32,
    f: int,
    nrm: (int, int, int),
) -> bool {
    &&& q.minimum@ == seq![p.0 as u32, p.1 as u32, p.2 as u32]
    &&& q.ao@ == face_ao(vis, shape, f, p.0 + nrm.0, p.1 + nrm.1, p.2 + nrm.2)
}

/// `new` is `old` followed by the quads of face `f` of the voxels `pts`, in order.
pub open spec fn quads_follow(
    new: Seq<UnorientedUnitQuad>,
    old: Seq<UnorientedUnitQuad>,
    pts: Seq<(int, int, int)>,
    vis: spec_fn(int) -> VoxelVisibility,
    shape: Shape3u32,
    f: int,
    nrm: (int, int, int),
) -> bool {
    &&& new.len() == old.len() + pts.len()
    &&& forall|j: int| 0 <= j < old.len() ==> #[trigger] new[j] == old[j]
    &&& forall|j: int|
        old.len() <= j < new.len() ==> quad_is(#[trigger] new[j], pts[j - old.len()], vis, shape, f, nrm)
}

/// The faces of the voxels strictly inside the box `min..=max` that get a quad for face `f`.
pub open spec fn interior_faces(
    vis: spec_fn(int) -> VoxelVisibility,
    shape: Shape3u32,
    nrm: (int, int, int),
    min: [u32; 3],
    max: [u32; 3],
) -> Seq<(int, int, int)> {
    box_faces(
        vis,
        shape,
        nrm,
        (min[0] + 1, min[1] + 1, min[2] + 1),
        (max[0] as int, max[1] as int, max[2] as int),
        max[2] as int,
    )
}

/// Ambient occlusion at one corner from its two side voxels and its corner voxel.
fn corner_ao(side1: bool, corner: bool, side2: bool) -> (r: u8)
    ensures
        r == corner_occlusion(side1, corner, side2),
{
    if side1 && side2 {
        0
    } else if corner && (side1 || side2) {
        1
    } else if side1 || corner || side2 {
        2
    } else {
        3
    }
}

/// Whether entry `k` of the ring around (nx, ny, nz) for face `f` is opaque.
fn ring_opaque_at<'a, T, V: Voxel + From<&'a T>>(
    voxels: &'a [T],
    shape: &Shape3u32,
    f: usize,
    nx: u32,
    ny: u32,
    nz: u32,
    k: usize,
) -> (r: bool)
    requires
        V::obeys_from_spec(),
        shape.spec_size() <= u32::MAX,
        shape.spec_size() <= voxels@.len(),
        k < 8,
        f < 6,
        nx < shape.x && ny < shape.y && nz < shape.z,
        f % 3 != 0 ==> 1 <= nx && nx + 1 < shape.x,
        f % 3 != 1 ==> 1 <= ny && ny + 1 < shape.y,
        f % 3 != 2 ==> 1 <= nz && nz + 1 < shape.z,
    ensures
        r == ring_opaque(view_visibility::<T, V>(voxels), *shape, f as int, nx as int, ny as int, nz as int, k as int),
{
    let pattern = f % 3;
    let (dx, dy, dz): (i8, i8, i8) = if pattern == 0 {
        match k {
            0 => (0, 0, 1),
            1 => (0, -1, 1),
            2 => (0, -1, 0),
            3 => (0, -1, -1),
            4 => (0, 0, -1),
            5 => (0, 1, -1),
            6 => (0, 1, 0),
            _ => (0, 1, 1),
        }
    } else if pattern == 1 {
        match k {
            0 => (0, 0, 1),
            1 => (-1, 0, 1),
            2 => (-1, 0, 0),
            3 => (-1, 0, -1),
            4 => (0, 0, -1),
            5 => (1, 0, -1),
            6 => (1, 0, 0),
            _ => (1, 0, 1),
        }
    } else {
        match k {
            0 => (1, 0, 0),
            1 => (1, -1, 0),
            2 => (0, -1, 0),
            3 => (-1, -1, 0),
            4 => (-1, 0, 0),
            5 => (-1, 1, 0),
            6 => (0, 1, 0),
            _ => (1, 1, 0),
        }
    };
    assert(ring_offset(f as int, k as int) == (dx as int, dy as int, dz as int));
    let x = if dx < 0 { nx - 1 } else if dx > 0 { nx + 1 } else { nx };
    let y = if dy < 0 { ny - 1 } else if dy > 0 { ny + 1 } else { ny };
    let z = if dz < 0 { nz - 1 } else if dz > 0 { nz + 1 } else { nz };
    let index = shape.linearize([x, y, z]);
    proof {
        shape.lemma_index_bound(x as int, y as int, z as int);
    }
    let v = V::from(&voxels[index as usize]);
    v.get_visibility() == VoxelVisibility::Opaque
}

/// The ambient occlusion of the corners of face `f` that looks at (nx, ny, nz).
fn face_ao_at<'a, T, V: Voxel + From<&'a T>>(
    voxels: &'a [T],
    shape: &Shape3u32,
    f: usize,
    nx: u32,
    ny: u32,
    nz: u32,
) -> (r: [u8; 4])
    requires
        V::obeys_from_spec(),
        shape.spec_size() <= u32::MAX,
        shape.spec_size() <= voxels@.len(),
        f < 6,
        nx < shape.x && ny < shape.y && nz < shape.z,
        f % 3 != 0 ==> 1 <= nx && nx + 1 < shape.x,
        f % 3 != 1 ==> 1 <= ny && ny + 1 < shape.y,
        f % 3 != 2 ==> 1 <= nz && nz + 1 < shape.z,
    ensures
        r@ == face_ao(view_visibility::<T, V>(voxels), *shape, f as int, nx as int, ny as int, nz as int),
{
    let o0 = ring_opaque_at::<T, V>(voxels, shape, f, nx, ny, nz, 0);
    let o1 = ring_opaque_at::<T, V>(voxels, shape, f, nx, ny, nz, 1);
    let o2 = ring_opaque_at::<T, V>(voxels, shape, f, nx, ny, nz, 2);
    let o3 = ring_opaque_at::<T, V>(voxels, shape, f, nx, ny, nz, 3);
    let o4 = ring_opaque_at::<T, V>(voxels, shape, f, nx, ny, nz, 4);
    let o5 = ring_opaque_at::<T, V>(voxels, shape, f, nx, ny, nz, 5);
    let o6 = ring_opaque_at::<T, V>(voxels, shape, f, nx, ny, nz, 6);
    let o7 = ring_opaque_at::<T, V>(voxels, shape, f, nx, ny, nz, 7);
    let r = [corner_ao(o2, o3, o4), corner_ao(o0, o1, o2), corner_ao(o4, o5, o6), corner_ao(o6, o7, o0)];
    assert(r@ =~= face_ao(view_visibility::<T, V>(voxels), *shape, f as int, nx as int, ny as int, nz as int));
    r
}

/// The visibility of each voxel of `voxels`, read as the voxel itself.
pub open spec fn plain_visibility<T: Voxel>(voxels: &[T]) -> spec_fn(int) -> VoxelVisibility {
    |i: int| voxels@[i].shown_as()
}

/// The neighbour that `face` of voxel (x, y, z) looks at.
fn face_neighbor(x: u32, y: u32, z: u32, face: OrientedBlockFace) -> (r: (u32, u32, u32))
    requires
        face.n_sign == 1 || face.n_sign == -1,
        face.axis == Axis::X ==> 1 <= x && x < u32::MAX,
        face.axis == Axis::Y ==> 1 <= y && y < u32::MAX,
        face.axis == Axis::Z ==> 1 <= z && z < u32::MAX,
    ensures
        r.0 == x + face.normal().0,
        r.1 == y + face.normal().1,
        r.2 == z + face.normal().2,
{
    match face.axis {
        Axis::X => (if face.n_sign < 0 { x - 1 } else { x + 1 }, y, z),
        Axis::Y => (x, if face.n_sign < 0 { y - 1 } else { y + 1 }, z),
        Axis::Z => (x, y, if face.n_sign < 0 { z - 1 } else { z + 1 }),
    }
}

/// Appends to group `f` of `output` the quad of `face` of every voxel strictly inside the box
/// `min..=max` whose face is drawn, visiting z, then y, then x in increasing order; the other
/// groups are left alone.
#[verifier::rlimit(40)]
fn mesh_face<'a, T, V: Voxel + From<&'a T>>(
    voxels: &'a [T],
    shape: &Shape3u32,
    min: [u32; 3],
    max: [u32; 3],
    f: usize,
    face: OrientedBlockFace,
    output: &mut UnitQuadBuffer,
)
    requires
        V::obeys_from_spec(),
        query_in_bounds(voxels@.len() as int, *shape, min, max),
        f < 6,
        face.n_sign == 1 || face.n_sign == -1,
        interior_nonempty(min, max) ==> kernel_in_buffer(face, f as int, *shape, min, max),
    ensures
        quads_follow(
            final(output).groups@[f as int]@,
            old(output).groups@[f as int]@,
            interior_faces(view_visibility::<T, V>(voxels), *shape, face.normal(), min, max),
            view_visibility::<T, V>(voxels),
            *shape,
            f as int,
            face.normal(),
        ),
        forall|g: int| 0 <= g < 6 && g != f ==> final(output).groups@[g] == old(output).groups@[g],
{
    let ghost vis = view_visibility::<T, V>(voxels);
    let ghost nrm = face.normal();
    let ghost lo = (min[0] + 1, min[1] + 1, min[2] + 1);
    let ghost hi = (max[0] as int, max[1] as int, max[2] as int);
    let ghost start = output.groups@[f as int]@;
    let ghost mut pts: Seq<(int, int, int)> = Seq::empty();
    let mut z: u32 = min[2] + 1;
    while z < max[2]
        invariant
            V::obeys_from_spec(),
            query_in_bounds(voxels@.len() as int, *shape, min, max),
            f < 6,
            face.n_sign == 1 || face.n_sign == -1,
            interior_nonempty(min, max) ==> kernel_in_buffer(face, f as int, *shape, min, max),
            vis == view_visibility::<T, V>(voxels),
            nrm == face.normal(),
            lo == (min[0] + 1, min[1] + 1, min[2] + 1),
            hi == (max[0] as int, max[1] as int, max[2] as int),
            start == old(output).groups@[f as int]@,
            lo.2 <= z,
            z <= hi.2 || z == lo.2,
            pts == box_faces(vis, *shape, nrm, lo, hi, z as int),
            quads_follow(output.groups@[f as int]@, start, pts, vis, *shape, f as int, nrm),
            forall|g: int| 0 <= g < 6 && g != f ==> output.groups@[g] == old(output).groups@[g],
        decreases max[2] - z,
    {
        let ghost box_z = pts;
        let mut y: u32 = min[1] + 1;
        while y < max[1]
            invariant
                V::obeys_from_spec(),
                query_in_bounds(voxels@.len() as int, *shape, min, max),
                f < 6,
                face.n_sign == 1 || face.n_sign == -1,
                interior_nonempty(min, max) ==> kernel_in_buffer(face, f as int, *shape, min, max),
                vis == view_visibility::<T, V>(voxels),
                nrm == face.normal(),
                lo == (min[0] + 1, min[1] + 1, min[2] + 1),
                hi == (max[0] as int, max[1] as int, max[2] as int),
                start == old(output).groups@[f as int]@,
                lo.2 <= z < hi.2,
                box_z == box_faces(vis, *shape, nrm, lo, hi, z as int),
                lo.1 <= y,
                y <= hi.1 || y == lo.1,
                pts == box_z + layer_faces(vis, *shape, nrm, lo, hi, z as int, y as int),
                quads_follow(output.groups@[f as int]@, start, pts, vis, *shape, f as int, nrm),
                forall|g: int| 0 <= g < 6 && g != f ==> output.groups@[g] == old(output).groups@[g],
            decreases max[1] - y,
        {
            let ghost layer_y = pts;
            let mut x: u32 = min[0] + 1;
            while x < max[0]
                invariant
                    V::obeys_from_spec(),
                    query_in_bounds(voxels@.len() as int, *shape, min, max),
                    f < 6,
                    face.n_sign == 1 || face.n_sign == -1,
                    interior_nonempty(min, max) ==> kernel_in_buffer(face, f as int, *shape, min, max),
                    vis == view_visibility::<T, V>(voxels),
                    nrm == face.normal(),
                    lo == (min[0] + 1, min[1] + 1, min[2] + 1),
                    hi == (max[0] as int, max[1] as int, max[2] as int),
                    start == old(output).groups@[f as int]@,
                    lo.2 <= z < hi.2,
                    lo.1 <= y < hi.1,
                    layer_y == box_faces(vis, *shape, nrm, lo, hi, z as int) + layer_faces(
                        vis,
                        *shape,
                        nrm,
                        lo,
                        hi,
                        z as int,
                        y as int,
                    ),
                    lo.0 <= x,
                    x <= hi.0 || x == lo.0,
                    pts == layer_y + row_faces(vis, *shape, nrm, lo, y as int, z as int, x as int),
                    quads_follow(output.groups@[f as int]@, start, pts, vis, *shape, f as int, nrm),
                    forall|g: int| 0 <= g < 6 && g != f ==> output.groups@[g] == old(output).groups@[g],
                decreases max[0] - x,
            {
                let ghost before = pts;
                let ghost out_before = output.groups@[f as int]@;
                let p_index = shape.linearize([x, y, z]);
                proof {
                    shape.lemma_index_bound(x as int, y as int, z as int);
                }
                let p_vis = V::from(&voxels[p_index as usize]).get_visibility();
                if p_vis != VoxelVisibility::Empty {
                    let (nx, ny, nz) = face_neighbor(x, y, z, face);
                    let n_index = shape.linearize([nx, ny, nz]);
                    proof {
                        shape.lemma_index_bound(nx as int, ny as int, nz as int);
                    }
                    let n_vis = V::from(&voxels[n_index as usize]).get_visibility();
                    let needs = match n_vis {
                        VoxelVisibility::Empty => true,
                        VoxelVisibility::Translucent => p_vis == VoxelVisibility::Opaque,
                        VoxelVisibility::Opaque => false,
                    };
                    let ao = face_ao_at::<T, V>(voxels, shape, f, nx, ny, nz);
                    assert(needs == emits(vis, *shape, nrm, x as int, y as int, z as int));
                    if needs {
                        let quad = UnorientedUnitQuad { minimum: [x, y, z], ao };
                        assert(quad.minimum@ =~= seq![x, y, z]);
                        output.groups[f].push(quad);
                        proof {
                            pts = pts.push((x as int, y as int, z as int));
                            assert(quad_is(quad, (x as int, y as int, z as int), vis, *shape, f as int, nrm));
                            let new = output.groups@[f as int]@;
                            assert forall|j: int| start.len() <= j < new.len() implies quad_is(
                                #[trigger] new[j],
                                pts[j - start.len()],
                                vis,
                                *shape,
                                f as int,
                                nrm,
                            ) by {
                                if j < new.len() - 1 {
                                    assert(new[j] == out_before[j]);
                                    assert(pts[j - start.len()] == before[j - start.len()]);
                                }
                            }
                            assert forall|j: int| 0 <= j < start.len() implies #[trigger] new[j] == start[j] by {
                                assert(new[j] == out_before[j]);
                            }
                        }
                    }
                }
                proof {
                    assert(pts =~= layer_y + row_faces(vis, *shape, nrm, lo, y as int, z as int, x + 1));
                }
                x = x + 1;
            }
            proof {
                assert(row_faces(vis, *shape, nrm, lo, y as int, z as int, x as int) == row_faces(
                    vis,
                    *shape,
                    nrm,
                    lo,
                    y as int,
                    z as int,
                    hi.0,
                ));
                assert(pts =~= box_z + layer_faces(vis, *shape, nrm, lo, hi, z as int, y + 1));
            }
            y = y + 1;
        }
        proof {
            assert(layer_faces(vis, *shape, nrm, lo, hi, z as int, y as int) == layer_faces(
                vis,
                *shape,
                nrm,
                lo,
                hi,
                z as int,
                hi.1,
            ));
            assert(pts =~= box_faces(vis, *shape, nrm, lo, hi, z + 1));
        }
        z = z + 1;
    }
    proof {
        assert(box_faces(vis, *shape, nrm, lo, hi, z as int) == box_faces(vis, *shape, nrm, lo, hi, hi.2));
    }
}

/// Adds to `output` one unit quad for every visible face of every voxel strictly inside the
/// box `min..=max` of a buffer shaped `voxels_shape`, reading each voxel through the view
/// type `V`.
///
/// A voxel that is not empty gets a quad for face `f` when the neighbour that the face looks
/// at is empty, or translucent while the voxel is opaque; the quad carries the ambient
/// occlusion of its corners, from the eight voxels around that neighbour. Group `f` of the
/// buffer receives the quads of face `f`, voxel after voxel with z varying slowest and x
/// fastest, after the quads it already held.
///
/// The faces may come in any order, as long as the reads stay in the buffer
/// (`faces_readable`); the shading ring lies in the plane that the face's position picks
/// (see `reach`), which is the face's own plane for configurations such as
/// `right_handed_y_up_faces`.
pub fn visible_block_faces_with_voxel_view<'a, T, V: Voxel + From<&'a T>>(
    voxels: &'a [T],
    voxels_shape: &Shape3u32,
    min: [u32; 3],
    max: [u32; 3],
    faces: &[OrientedBlockFace; 6],
    output: &mut UnitQuadBuffer,
)
    requires
        V::obeys_from_spec(),
        query_in_bounds(voxels@.len() as int, *voxels_shape, min, max),
        faces_readable(faces@, *voxels_shape, min, max),
    ensures
        forall|f: int|
            0 <= f < 6 ==> quads_follow(
                #[trigger] final(output).groups@[f]@,
                old(output).groups@[f]@,
                interior_faces(view_visibility::<T, V>(voxels), *voxels_shape, faces@[f].normal(), min, max),
                view_visibility::<T, V>(voxels),
                *voxels_shape,
                f,
                faces@[f].normal(),
            ),
{
    let ghost start = *output;
    proof {
        assert(faces@[0] == faces[0]);
    }
    let f0 = faces[0];
    let f1 = faces[1];
    let f2 = faces[2];
    let f3 = faces[3];
    let f4 = faces[4];
    let f5 = faces[5];
    proof {
        assert(faces@[1] == f1 && faces@[2] == f2 && faces@[3] == f3 && faces@[4] == f4 && faces@[5] == f5);
    }
    mesh_face::<T, V>(voxels, voxels_shape, min, max, 0, f0, output);
    let ghost after0 = *output;
    mesh_face::<T, V>(voxels, voxels_shape, min, max, 1, f1, output);
    let ghost after1 = *output;
    mesh_face::<T, V>(voxels, voxels_shape, min, max, 2, f2, output);
    let ghost after2 = *output;
    mesh_face::<T, V>(voxels, voxels_shape, min, max, 3, f3, output);
    let ghost after3 = *output;
    mesh_face::<T, V>(voxels, voxels_shape, min, max, 4, f4, output);
    let ghost after4 = *output;
    mesh_face::<T, V>(voxels, voxels_shape, min, max, 5, f5, output);
    proof {
        assert(output.groups@[0] == after0.groups@[0]);
        assert(output.groups@[1] == after1.groups@[1]);
        assert(output.groups@[2] == after2.groups@[2]);
        assert(output.groups@[3] == after3.groups@[3]);
        assert(output.groups@[4] == after4.groups@[4]);
        assert(after0.groups@[1] == start.groups@[1]);
        assert(after1.groups@[2] == start.groups@[2]);
        assert(after2.groups@[3] == start.groups@[3]);
        assert(after3.groups@[4] == start.groups@[4]);
        assert(after4.groups@[5] == start.groups@[5]);
    }
}

/// Adds to `output` one unit quad for every visible face of every voxel strictly inside the
/// box `min..=max`, as `visible_block_faces_with_voxel_view` does with each voxel read as
/// itself.
pub fn visible_block_faces<T: Voxel>(
    voxels: &[T],
    voxels_shape: &Shape3u32,
    min: [u32; 3],
    max: [u32; 3],
    faces: &[OrientedBlockFace; 6],
    output: &mut UnitQuadBuffer,
)
    requires
        query_in_bounds(voxels@.len() as int, *voxels_shape, min, max),
        faces_readable(faces@, *voxels_shape, min, max),
    ensures
        forall|f: int|
            0 <= f < 6 ==> quads_follow(
                #[trigger] final(output).groups@[f]@,
                old(output).groups@[f]@,
                interior_faces(plain_visibility(voxels), *voxels_shape, faces@[f].normal(), min, max),
                plain_visibility(voxels),
                *voxels_shape,
                f,
                faces@[f].normal(),
            ),
{
    proof {
        assert(view_visibility::<T, IdentityVoxel<T>>(voxels) =~= plain_visibility(voxels));
    }
    visible_block_faces_with_voxel_view::<T, IdentityVoxel<T>>(
        voxels,
        voxels_shape,
        min,
        max,
        faces,
        output,
    );
}


/// (x, y, z) lies strictly inside the box `min..=max`.
pub open spec fn inside_box(min: [u32; 3], max: [u32; 3], x: int, y: int, z: int) -> bool {
    &&& min[0] < x < max[0]
    &&& min[1] < y < max[1]
    &&& min[2] < z < max[2]
}

/// Two visibilities agree on every voxel of the buffer shaped `shape`.
pub open spec fn agree_in_shape(
    a: spec_fn(int) -> VoxelVisibility,
    b: spec_fn(int) -> VoxelVisibility,
    shape: Shape3u32,
) -> bool {
    forall|x: int, y: int, z: int|
        #[trigger] shape.holds(x, y, z) ==> a(shape.index_of(x, y, z)) == b(shape.index_of(x, y, z))
}

/// The face rule of the block mesher, over the visibility of a voxel and of the neighbour
/// its face looks at: an empty voxel shows no face; a face towards an empty neighbour is
/// shown; a face towards a translucent neighbour is shown only when the voxel is opaque, so
/// two translucent voxels (water, glass) hide the face between them; a face towards an
/// opaque neighbour is never shown.
pub proof fn lemma_emits_rule(
    vis: spec_fn(int) -> VoxelVisibility,
    shape: Shape3u32,
    nrm: (int, int, int),
    x: int,
    y: int,
    z: int,
)
    ensures
        ({
            let v = vis(shape.index_of(x, y, z));
            let n = vis(shape.index_of(x + nrm.0, y + nrm.1, z + nrm.2));
            emits(vis, shape, nrm, x, y, z) <==> {
                &&& v != VoxelVisibility::Empty
                &&& (n == VoxelVisibility::Empty || (n == VoxelVisibility::Translucent && v
                    == VoxelVisibility::Opaque))
            }
        }),
{
}

/// The voxel `p` lies in the part of the box `lo..hi` (upper ends excluded) that a scan has
/// covered, and its face towards `nrm` is shown.
pub open spec fn shown_in(
    vis: spec_fn(int) -> VoxelVisibility,
    shape: Shape3u32,
    nrm: (int, int, int),
    lo: (int, int, int),
    hi: (int, int, int),
    p: (int, int, int),
) -> bool {
    &&& lo.0 <= p.0 < hi.0
    &&& lo.1 <= p.1 < hi.1
    &&& lo.2 <= p.2 < hi.2
    &&& emits(vis, shape, nrm, p.0, p.1, p.2)
}

proof fn lemma_row_members(
    vis: spec_fn(int) -> VoxelVisibility,
    shape: Shape3u32,
    nrm: (int, int, int),
    lo: (int, int, int),
    y: int,
    z: int,
    x_end: int,
)
    requires
        lo.1 <= y,
        lo.2 <= z,
    ensures
        forall|p: (int, int, int)|
            #[trigger] row_faces(vis, shape, nrm, lo, y, z, x_end).contains(p) <==> shown_in(
                vis,
                shape,
                nrm,
                lo,
                (x_end, y + 1, z + 1),
                p,
            ) && p.1 == y && p.2 == z,
    decreases x_end - lo.0,
{
    if x_end > lo.0 {
        lemma_row_members(vis, shape, nrm, lo, y, z, x_end - 1);
        let prev = row_faces(vis, shape, nrm, lo, y, z, x_end - 1);
        let cur = row_faces(vis, shape, nrm, lo, y, z, x_end);
        let last = (x_end - 1, y, z);
        assert forall|p: (int, int, int)| #[trigger] cur.contains(p) <==> shown_in(vis, shape, nrm, lo, (x_end, y + 1, z + 1), p)
            && p.1 == y && p.2 == z by {
            assert(prev.contains(p) <==> shown_in(vis, shape, nrm, lo, (x_end - 1, y + 1, z + 1), p) && p.1 == y && p.2 == z);
            if emits(vis, shape, nrm, x_end - 1, y, z) {
                assert(cur == prev.push(last));
                if cur.contains(p) {
                    let k = choose|k: int| 0 <= k < cur.len() && cur[k] == p;
                    if k < prev.len() {
                        assert(prev[k] == p);
                    }
                }
                if prev.contains(p) {
                    let k = choose|k: int| 0 <= k < prev.len() && prev[k] == p;
                    assert(cur[k] == p);
                }
                assert(cur[prev.len() as int] == last);
                if shown_in(vis, shape, nrm, lo, (x_end, y + 1, z + 1), p) && p.1 == y && p.2 == z && !prev.contains(p) {
                    assert(p.0 == x_end - 1);
                    assert(p == last);
                    assert(cur.contains(p));
                }
            } else {
                assert(cur == prev);
                if shown_in(vis, shape, nrm, lo, (x_end, y + 1, z + 1), p) && p.1 == y && p.2 == z {
                    assert(p.0 != x_end - 1);
                }
            }
        }
    } else {
        assert forall|p: (int, int, int)| #[trigger] row_faces(vis, shape, nrm, lo, y, z, x_end).contains(p) <==> shown_in(
            vis, shape, nrm, lo, (x_end, y + 1, z + 1), p) && p.1 == y && p.2 == z by {}
    }
}

proof fn lemma_concat_contains(a: Seq<(int, int, int)>, b: Seq<(int, int, int)>, p: (int, int, int))
    ensures
        (a + b).contains(p) <==> a.contains(p) || b.contains(p),
{
    if (a + b).contains(p) {
        let k = choose|k: int| 0 <= k < (a + b).len() && (a + b)[k] == p;
        if k < a.len() {
            assert(a[k] == p);
        } else {
            assert(b[k - a.len()] == p);
        }
    }
    if a.contains(p) {
        let k = choose|k: int| 0 <= k < a.len() && a[k] == p;
        assert((a + b)[k] == p);
    }
    if b.contains(p) {
        let k = choose|k: int| 0 <= k < b.len() && b[k] == p;
        assert((a + b)[k + a.len()] == p);
    }
}

proof fn lemma_layer_members(
    vis: spec_fn(int) -> VoxelVisibility,
    shape: Shape3u32,
    nrm: (int, int, int),
    lo: (int, int, int),
    hi: (int, int, int),
    z: int,
    y_end: int,
)
    requires
        lo.2 <= z,
    ensures
        forall|p: (int, int, int)|
            #[trigger] layer_faces(vis, shape, nrm, lo, hi, z, y_end).contains(p) <==> shown_in(
                vis,
                shape,
                nrm,
                lo,
                (hi.0, y_end, z + 1),
                p,
            ) && p.2 == z,
    decreases y_end - lo.1,
{
    if y_end > lo.1 {
        lemma_layer_members(vis, shape, nrm, lo, hi, z, y_end - 1);
        lemma_row_members(vis, shape, nrm, lo, y_end - 1, z, hi.0);
        let prev = layer_faces(vis, shape, nrm, lo, hi, z, y_end - 1);
        let row = row_faces(vis, shape, nrm, lo, y_end - 1, z, hi.0);
        assert forall|p: (int, int, int)| #[trigger] layer_faces(vis, shape, nrm, lo, hi, z, y_end).contains(p) <==> shown_in(
            vis, shape, nrm, lo, (hi.0, y_end, z + 1), p) && p.2 == z by {
            lemma_concat_contains(prev, row, p);
            assert(prev.contains(p) == (shown_in(vis, shape, nrm, lo, (hi.0, y_end - 1, z + 1), p) && p.2 == z));
            assert(row.contains(p) == (shown_in(vis, shape, nrm, lo, (hi.0, y_end, z + 1), p) && p.1 == y_end - 1 && p.2 == z));
        }
    } else {
        assert forall|p: (int, int, int)| #[trigger] layer_faces(vis, shape, nrm, lo, hi, z, y_end).contains(p) <==> shown_in(
            vis, shape, nrm, lo, (hi.0, y_end, z + 1), p) && p.2 == z by {}
    }
}

proof fn lemma_box_members(
    vis: spec_fn(int) -> VoxelVisibility,
    shape: Shape3u32,
    nrm: (int, int, int),
    lo: (int, int, int),
    hi: (int, int, int),
    z_end: int,
)
    ensures
        forall|p: (int, int, int)|
            #[trigger] box_faces(vis, shape, nrm, lo, hi, z_end).contains(p) <==> shown_in(
                vis,
                shape,
                nrm,
                lo,
                (hi.0, hi.1, z_end),
                p,
            ),
    decreases z_end - lo.2,
{
    if z_end > lo.2 {
        lemma_box_members(vis, shape, nrm, lo, hi, z_end - 1);
        lemma_layer_members(vis, shape, nrm, lo, hi, z_end - 1, hi.1);
        let prev = box_faces(vis, shape, nrm, lo, hi, z_end - 1);
        let layer = layer_faces(vis, shape, nrm, lo, hi, z_end - 1, hi.1);
        assert forall|p: (int, int, int)| #[trigger] box_faces(vis, shape, nrm, lo, hi, z_end).contains(p) <==> shown_in(
            vis, shape, nrm, lo, (hi.0, hi.1, z_end), p) by {
            lemma_concat_contains(prev, layer, p);
            assert(prev.contains(p) == shown_in(vis, shape, nrm, lo, (hi.0, hi.1, z_end - 1), p));
            assert(layer.contains(p) == (shown_in(vis, shape, nrm, lo, (hi.0, hi.1, z_end), p) && p.2 == z_end - 1));
        }
    } else {
        assert forall|p: (int, int, int)| #[trigger] box_faces(vis, shape, nrm, lo, hi, z_end).contains(p) <==> shown_in(
            vis, shape, nrm, lo, (hi.0, hi.1, z_end), p) by {}
    }
}

/// `q` is the quad of a shown face of a voxel strictly inside the box `min..=max`.
pub open spec fn quad_of_shown_face(
    q: UnorientedUnitQuad,
    vis: spec_fn(int) -> VoxelVisibility,
    shape: Shape3u32,
    f: int,
    nrm: (int, int, int),
    min: [u32; 3],
    max: [u32; 3],
) -> bool {
    exists|p: (int, int, int)|
        #[trigger] quad_is(q, p, vis, shape, f, nrm) && inside_box(min, max, p.0, p.1, p.2) && emits(
            vis,
            shape,
            nrm,
            p.0,
            p.1,
            p.2,
        )
}

/// The quads that a meshing call adds to a group are exactly the shown faces of the voxels
/// strictly inside the box: each added quad sits at such a voxel whose face is shown, and
/// each such voxel gets a quad; the quads held before stay in front, unchanged.
pub proof fn lemma_added_quads_are_shown_faces(
    new: Seq<UnorientedUnitQuad>,
    old: Seq<UnorientedUnitQuad>,
    vis: spec_fn(int) -> VoxelVisibility,
    shape: Shape3u32,
    f: int,
    nrm: (int, int, int),
    min: [u32; 3],
    max: [u32; 3],
)
    requires
        quads_follow(new, old, interior_faces(vis, shape, nrm, min, max), vis, shape, f, nrm),
    ensures
        new.subrange(0, old.len() as int) == old,
        forall|j: int|
            old.len() <= j < new.len() ==> quad_of_shown_face(#[trigger] new[j], vis, shape, f, nrm, min, max),
        forall|p: (int, int, int)|
            inside_box(min, max, p.0, p.1, p.2) && #[trigger] emits(vis, shape, nrm, p.0, p.1, p.2) ==> exists|j: int|
                old.len() <= j < new.len() && #[trigger] quad_is(new[j], p, vis, shape, f, nrm),
{
    let lo = (min[0] + 1, min[1] + 1, min[2] + 1);
    let hi = (max[0] as int, max[1] as int, max[2] as int);
    let pts = interior_faces(vis, shape, nrm, min, max);
    lemma_box_members(vis, shape, nrm, lo, hi, hi.2);
    assert(new.subrange(0, old.len() as int) =~= old);
    assert forall|j: int| old.len() <= j < new.len() implies quad_of_shown_face(#[trigger] new[j], vis, shape, f, nrm, min, max) by {
        let p = pts[j - old.len()];
        assert(pts.contains(p));
        assert(quad_is(new[j], p, vis, shape, f, nrm));
    }
    assert forall|p: (int, int, int)|
        inside_box(min, max, p.0, p.1, p.2) && #[trigger] emits(vis, shape, nrm, p.0, p.1, p.2) implies exists|j: int|
            old.len() <= j < new.len() && #[trigger] quad_is(new[j], p, vis, shape, f, nrm) by {
        assert(shown_in(vis, shape, nrm, lo, hi, p));
        assert(pts.contains(p));
        let k = choose|k: int| 0 <= k < pts.len() && pts[k] == p;
        assert(quad_is(new[k + old.len()], p, vis, shape, f, nrm));
    }
}

proof fn lemma_row_agrees(
    a: spec_fn(int) -> VoxelVisibility,
    b: spec_fn(int) -> VoxelVisibility,
    shape: Shape3u32,
    nrm: (int, int, int),
    min: [u32; 3],
    max: [u32; 3],
    y: int,
    z: int,
    x_end: int,
)
    requires
        agree_in_shape(a, b, shape),
        max[0] < shape.x && max[1] < shape.y && max[2] < shape.z,
        -1 <= nrm.0 <= 1 && -1 <= nrm.1 <= 1 && -1 <= nrm.2 <= 1,
        min[1] < y < max[1],
        min[2] < z < max[2],
        x_end <= max[0],
    ensures
        row_faces(a, shape, nrm, (min[0] + 1, min[1] + 1, min[2] + 1), y, z, x_end) == row_faces(
            b,
            shape,
            nrm,
            (min[0] + 1, min[1] + 1, min[2] + 1),
            y,
            z,
            x_end,
        ),
        forall|k: int|
            0 <= k < row_faces(a, shape, nrm, (min[0] + 1, min[1] + 1, min[2] + 1), y, z, x_end).len()
                ==> {
                let p = #[trigger] row_faces(a, shape, nrm, (min[0] + 1, min[1] + 1, min[2] + 1), y, z, x_end)[k];
                inside_box(min, max, p.0, p.1, p.2)
            },
    decreases x_end - (min[0] + 1),
{
    let lo = (min[0] + 1, min[1] + 1, min[2] + 1);
    if x_end > lo.0 {
        lemma_row_agrees(a, b, shape, nrm, min, max, y, z, x_end - 1);
        let x = x_end - 1;
        assert(shape.holds(x, y, z));
        assert(shape.holds(x + nrm.0, y + nrm.1, z + nrm.2));
        assert(emits(a, shape, nrm, x, y, z) == emits(b, shape, nrm, x, y, z));
    }
}

proof fn lemma_layer_agrees(
    a: spec_fn(int) -> VoxelVisibility,
    b: spec_fn(int) -> VoxelVisibility,
    shape: Shape3u32,
    nrm: (int, int, int),
    min: [u32; 3],
    max: [u32; 3],
    z: int,
    y_end: int,
)
    requires
        agree_in_shape(a, b, shape),
        max[0] < shape.x && max[1] < shape.y && max[2] < shape.z,
        -1 <= nrm.0 <= 1 && -1 <= nrm.1 <= 1 && -1 <= nrm.2 <= 1,
        min[2] < z < max[2],
        y_end <= max[1],
    ensures
        layer_faces(a, shape, nrm, (min[0] + 1, min[1] + 1, min[2] + 1), (max[0] as int, max[1] as int, max[2] as int), z, y_end)
            == layer_faces(b, shape, nrm, (min[0] + 1, min[1] + 1, min[2] + 1), (max[0] as int, max[1] as int, max[2] as int), z, y_end),
        forall|k: int|
            0 <= k < layer_faces(a, shape, nrm, (min[0] + 1, min[1] + 1, min[2] + 1), (max[0] as int, max[1] as int, max[2] as int), z, y_end).len()
                ==> {
                let p = #[trigger] layer_faces(a, shape, nrm, (min[0] + 1, min[1] + 1, min[2] + 1), (max[0] as int, max[1] as int, max[2] as int), z, y_end)[k];
                inside_box(min, max, p.0, p.1, p.2)
            },
    decreases y_end - (min[1] + 1),
{
    let lo = (min[0] + 1, min[1] + 1, min[2] + 1);
    let hi = (max[0] as int, max[1] as int, max[2] as int);
    if y_end > lo.1 {
        lemma_layer_agrees(a, b, shape, nrm, min, max, z, y_end - 1);
        lemma_row_agrees(a, b, shape, nrm, min, max, y_end - 1, z, hi.0);
        let prev = layer_faces(a, shape, nrm, lo, hi, z, y_end - 1);
        let row = row_faces(a, shape, nrm, lo, y_end - 1, z, hi.0);
        let all = layer_faces(a, shape, nrm, lo, hi, z, y_end);
        assert(all == prev + row);
        assert forall|k: int| 0 <= k < all.len() implies {
            let p = #[trigger] all[k];
            inside_box(min, max, p.0, p.1, p.2)
        } by {
            if k < prev.len() {
                assert(all[k] == prev[k]);
            } else {
                assert(all[k] == row[k - prev.len()]);
            }
        }
    }
}

proof fn lemma_box_agrees(
    a: spec_fn(int) -> VoxelVisibility,
    b: spec_fn(int) -> VoxelVisibility,
    shape: Shape3u32,
    nrm: (int, int, int),
    min: [u32; 3],
    max: [u32; 3],
    z_end: int,
)
    requires
        agree_in_shape(a, b, shape),
        max[0] < shape.x && max[1] < shape.y && max[2] < shape.z,
        -1 <= nrm.0 <= 1 && -1 <= nrm.1 <= 1 && -1 <= nrm.2 <= 1,
        z_end <= max[2],
    ensures
        box_faces(a, shape, nrm, (min[0] + 1, min[1] + 1, min[2] + 1), (max[0] as int, max[1] as int, max[2] as int), z_end)
            == box_faces(b, shape, nrm, (min[0] + 1, min[1] + 1, min[2] + 1), (max[0] as int, max[1] as int, max[2] as int), z_end),
        forall|k: int|
            0 <= k < box_faces(a, shape, nrm, (min[0] + 1, min[1] + 1, min[2] + 1), (max[0] as int, max[1] as int, max[2] as int), z_end).len()
                ==> {
                let p = #[trigger] box_faces(a, shape, nrm, (min[0] + 1, min[1] + 1, min[2] + 1), (max[0] as int, max[1] as int, max[2] as int), z_end)[k];
                inside_box(min, max, p.0, p.1, p.2)
            },
    decreases z_end - (min[2] + 1),
{
    let lo = (min[0] + 1, min[1] + 1, min[2] + 1);
    let hi = (max[0] as int, max[1] as int, max[2] as int);
    if z_end > lo.2 {
        lemma_box_agrees(a, b, shape, nrm, min, max, z_end - 1);
        lemma_layer_agrees(a, b, shape, nrm, min, max, z_end - 1, hi.1);
        let prev = box_faces(a, shape, nrm, lo, hi, z_end - 1);
        let layer = layer_faces(a, shape, nrm, lo, hi, z_end - 1, hi.1);
        let all = box_faces(a, shape, nrm, lo, hi, z_end);
        assert(all == prev + layer);
        assert forall|k: int| 0 <= k < all.len() implies {
            let p = #[trigger] all[k];
            inside_box(min, max, p.0, p.1, p.2)
        } by {
            if k < prev.len() {
                assert(all[k] == prev[k]);
            } else {
                assert(all[k] == layer[k - prev.len()]);
            }
        }
    }
}

proof fn lemma_ao_agrees(
    a: spec_fn(int) -> VoxelVisibility,
    b: spec_fn(int) -> VoxelVisibility,
    shape: Shape3u32,
    f: int,
    face: OrientedBlockFace,
    nrm: (int, int, int),
    min: [u32; 3],
    max: [u32; 3],
    p: (int, int, int),
)
    requires
        agree_in_shape(a, b, shape),
        face.n_sign == 1 || face.n_sign == -1,
        nrm == face.normal(),
        kernel_in_buffer(face, f, shape, min, max),
        inside_box(min, max, p.0, p.1, p.2),
    ensures
        face_ao(a, shape, f, p.0 + nrm.0, p.1 + nrm.1, p.2 + nrm.2) == face_ao(
            b,
            shape,
            f,
            p.0 + nrm.0,
            p.1 + nrm.1,
            p.2 + nrm.2,
        ),
{
    let (nx, ny, nz) = (p.0 + nrm.0, p.1 + nrm.1, p.2 + nrm.2);
    assert forall|k: int| 0 <= k < 8 implies ring_opaque(a, shape, f, nx, ny, nz, k) == ring_opaque(
        b,
        shape,
        f,
        nx,
        ny,
        nz,
        k,
    ) by {
        let o = ring_offset(f, k);
        assert(shape.holds(nx + o.0, ny + o.1, nz + o.2));
    }
    assert(face_ao(a, shape, f, nx, ny, nz) =~= face_ao(b, shape, f, nx, ny, nz));
}

/// Meshing through a voxel view gives the same quads as meshing the array converted voxel
/// by voxel: when each voxel of `converted` shows as the voxel at the same position of
/// `voxels` read through `V`, the quads that `visible_block_faces_with_voxel_view` adds for
/// `voxels` and those that `visible_block_faces` adds for `converted`, to the same buffer,
/// are the same, face group by face group.
pub proof fn lemma_view_meshes_as_converted<'a, T, V: Voxel + From<&'a T>, W: Voxel>(
    voxels: &'a [T],
    converted: &[W],
    shape: Shape3u32,
    min: [u32; 3],
    max: [u32; 3],
    faces: Seq<OrientedBlockFace>,
    before: Seq<Seq<UnorientedUnitQuad>>,
    through_view: Seq<Seq<UnorientedUnitQuad>>,
    through_array: Seq<Seq<UnorientedUnitQuad>>,
)
    requires
        query_in_bounds(voxels@.len() as int, shape, min, max),
        faces_readable(faces, shape, min, max),
        converted@.len() == voxels@.len(),
        forall|i: int|
            0 <= i < voxels@.len() ==> (#[trigger] converted@[i]).shown_as() == <V as FromSpec<&'a T>>::from_spec(
                &voxels@[i],
            ).shown_as(),
        before.len() == 6,
        through_view.len() == 6,
        through_array.len() == 6,
        forall|f: int|
            0 <= f < 6 ==> quads_follow(
                #[trigger] through_view[f],
                before[f],
                interior_faces(view_visibility::<T, V>(voxels), shape, faces[f].normal(), min, max),
                view_visibility::<T, V>(voxels),
                shape,
                f,
                faces[f].normal(),
            ),
        forall|f: int|
            0 <= f < 6 ==> quads_follow(
                #[trigger] through_array[f],
                before[f],
                interior_faces(plain_visibility(converted), shape, faces[f].normal(), min, max),
                plain_visibility(converted),
                shape,
                f,
                faces[f].normal(),
            ),
    ensures
        through_view == through_array,
{
    let a = view_visibility::<T, V>(voxels);
    let b = plain_visibility(converted);
    assert forall|x: int, y: int, z: int| #[trigger] shape.holds(x, y, z) implies a(shape.index_of(x, y, z))
        == b(shape.index_of(x, y, z)) by {
        shape.lemma_index_bound(x, y, z);
    }
    assert forall|f: int| 0 <= f < 6 implies #[trigger] through_view[f] == through_array[f] by {
        let nrm = faces[f].normal();
        assert(faces[f].n_sign == 1 || faces[f].n_sign == -1);
        lemma_box_agrees(a, b, shape, nrm, min, max, max[2] as int);
        let pts = interior_faces(a, shape, nrm, min, max);
        assert(pts == interior_faces(b, shape, nrm, min, max));
        let v = through_view[f];
        let w = through_array[f];
        assert forall|j: int| 0 <= j < v.len() implies v[j] == w[j] by {
            if j >= before[f].len() {
                let p = pts[j - before[f].len()];
                assert(inside_box(min, max, p.0, p.1, p.2));
                assert(interior_nonempty(min, max));
                lemma_ao_agrees(a, b, shape, f, faces[f], nrm, min, max, p);
                assert(quad_is(v[j], p, a, shape, f, nrm));
                assert(quad_is(w[j], p, b, shape, f, nrm));
                assert(v[j].minimum =~= w[j].minimum);
                assert(v[j].ao =~= w[j].ao);
            }
        }
        assert(v =~= w);
    }
    assert(through_view =~= through_array);
}

} // verus!

use vstd::prelude::*;

use crate::math::{IVec3, UVec3};

verus! {

/// Edge length of a chunk in the meshing example.
pub const CHUNK_SIZE: u32 = 16;
/// Edge length of the example chunk with its padding.
pub const CHUNK_SIZE_PADDED: u32 = 17;
/// Voxel count of the example chunk.
pub const TOTAL_CHUNK_SIZE: u32 = 4913;

/// A solid-or-empty voxel chunk of the meshing example.
#[derive(Debug)]
pub struct Chunk {
    pub voxels: Vec<bool>,
    pub pos: IVec3,
}

/// The mesh of an example chunk: integer corner positions, unit normals and triangle
/// indices, four vertices and six indices per face.
#[derive(Debug)]
pub struct ChunkMesh {
    pub positions: Vec<(u32, u32, u32)>,
    pub normals: Vec<(i32, i32, i32)>,
    pub indices: Vec<u32>,
}

/// Linear index of (x, y, z) in the example chunk.
pub open spec fn flat(x: int, y: int, z: int) -> int {
    x + 17 * (y + 17 * z)
}

/// Linear index of `coords` in the example chunk.
pub fn flatten_coord(coords: UVec3) -> (r: usize)
    requires
        flat(coords.x as int, coords.y as int, coords.z as int) <= u32::MAX,
    ensures
        r as int == flat(coords.x as int, coords.y as int, coords.z as int),
{
    (coords.x + CHUNK_SIZE_PADDED * (coords.y + CHUNK_SIZE_PADDED * coords.z)) as usize
}

/// The neighbour that face `k` looks at: 0 is +z, 1 is +x, 2 is -z, 3 is -x, 4 is +y, 5 is -y.
pub open spec fn face_step(k: int) -> (int, int, int) {
    if k == 0 {
        (0, 0, 1)
    } else if k == 1 {
        (1, 0, 0)
    } else if k == 2 {
        (0, 0, -1)
    } else if k == 3 {
        (-1, 0, 0)
    } else if k == 4 {
        (0, 1, 0)
    } else {
        (0, -1, 0)
    }
}

/// The normal written for face `k`.
pub open spec fn face_normal(k: int) -> (i32, i32, i32) {
    if k == 0 {
        (0i32, 0i32, -1i32)
    } else if k == 1 {
        (1i32, 0i32, 0i32)
    } else if k == 2 {
        (0i32, 0i32, 1i32)
    } else if k == 3 {
        (-1i32, 0i32, 0i32)
    } else if k == 4 {
        (0i32, 1i32, 0i32)
    } else {
        (0i32, -1i32, 0i32)
    }
}

/// The four corners of face `k` of voxel (x, y, z).
pub open spec fn face_corners(k: int, x: int, y: int, z: int) -> Seq<(u32, u32, u32)> {
    let p = |a: int, b: int, c: int| (a as u32, b as u32, c as u32);
    if k == 0 {
        seq![p(x, y, z + 1), p(x + 1, y, z + 1), p(x, y + 1, z + 1), p(x + 1, y + 1, z + 1)]
    } else if k == 1 {
        seq![p(x + 1, y, z), p(x + 1, y, z + 1), p(x + 1, y + 1, z), p(x + 1, y + 1, z + 1)]
    } else if k == 2 {
        seq![p(x, y, z), p(x + 1, y, z), p(x, y + 1, z), p(x + 1, y + 1, z)]
    } else if k == 3 {
        seq![p(x, y, z), p(x, y, z + 1), p(x, y + 1, z), p(x, y + 1, z + 1)]
    } else if k == 4 {
        seq![p(x, y + 1, z), p(x + 1, y + 1, z), p(x, y + 1, z + 1), p(x + 1, y + 1, z + 1)]
    } else {
        seq![p(x, y, z), p(x + 1, y, z), p(x, y, z + 1), p(x + 1, y, z + 1)]
    }
}

/// The six indices of face `k` whose vertices start at `s`; the winding depends on the face.
pub open spec fn face_index_pattern(k: int, s: int) -> Seq<u32> {
    if k == 0 || k == 3 || k == 5 {
        seq![s as u32, (s + 1) as u32, (s + 2) as u32, (s + 1) as u32, (s + 3) as u32, (s + 2) as u32]
    } else {
        seq![s as u32, (s + 2) as u32, (s + 1) as u32, (s + 1) as u32, (s + 2) as u32, (s + 3) as u32]
    }
}

/// The voxel visited at step `t` of the x-major, then y, then z walk.
pub open spec fn visit(t: int) -> (int, int, int) {
    (t / 289, (t / 17) % 17, t % 17)
}

/// The voxel at (x, y, z) is solid.
pub open spec fn solid(chunk: Chunk, x: int, y: int, z: int) -> bool {
    chunk.voxels@[flat(x, y, z)]
}

/// Face `k` of voxel (x, y, z) is drawn: the voxel lies inside the chunk, not in its padding
/// (layers 0 and 16, which are only data for meshing the neighbouring chunks), it is solid, and
/// its neighbour on that side is not.
pub open spec fn face_open(chunk: Chunk, x: int, y: int, z: int, k: int) -> bool {
    let (dx, dy, dz) = face_step(k);
    example_inner(x, y, z) && solid(chunk, x, y, z) && !solid(chunk, x + dx, y + dy, z + dz)
}

/// The faces of voxel (x, y, z) among the first `k` sides, as (side, x, y, z).
pub open spec fn voxel_faces(chunk: Chunk, x: int, y: int, z: int, k: int) -> Seq<(int, int, int, int)>
    decreases k,
{
    if k <= 0 {
        Seq::empty()
    } else if face_open(chunk, x, y, z, k - 1) {
        voxel_faces(chunk, x, y, z, k - 1).push((k - 1, x, y, z))
    } else {
        voxel_faces(chunk, x, y, z, k - 1)
    }
}

/// The faces of the voxels visited in the first `t` steps.
pub open spec fn faces_visited(chunk: Chunk, t: int) -> Seq<(int, int, int, int)>
    decreases t,
{
    if t <= 0 {
        Seq::empty()
    } else {
        let (x, y, z) = visit(t - 1);
        faces_visited(chunk, t - 1) + voxel_faces(chunk, x, y, z, 6)
    }
}

/// Corner positions of the first `n` faces of `f`.
pub open spec fn mesh_positions(f: Seq<(int, int, int, int)>, n: int) -> Seq<(u32, u32, u32)>
    decreases n,
{
    if n <= 0 {
        Seq::empty()
    } else {
        let (k, x, y, z) = f[n - 1];
        mesh_positions(f, n - 1) + face_corners(k, x, y, z)
    }
}

/// Normals of the first `n` faces of `f`, one per corner.
pub open spec fn mesh_normals(f: Seq<(int, int, int, int)>, n: int) -> Seq<(i32, i32, i32)>
    decreases n,
{
    if n <= 0 {
        Seq::empty()
    } else {
        let k = f[n - 1].0;
        mesh_normals(f, n - 1) + seq![face_normal(k), face_normal(k), face_normal(k), face_normal(k)]
    }
}

/// Triangle indices of the first `n` faces of `f`.
pub open spec fn mesh_indices(f: Seq<(int, int, int, int)>, n: int) -> Seq<u32>
    decreases n,
{
    if n <= 0 {
        Seq::empty()
    } else {
        mesh_indices(f, n - 1) + face_index_pattern(f[n - 1].0, 4 * (n - 1))
    }
}

/// The chunk holds one voxel for every position of the padded cube.
pub open spec fn mesh_in_bounds(chunk: Chunk) -> bool {
    chunk.voxels@.len() == 4913
}


/// The mesh holds exactly the corners, normals and indices of the faces `f`.
pub open spec fn mesh_matches(mesh: ChunkMesh, f: Seq<(int, int, int, int)>) -> bool {
    &&& mesh.positions@ == mesh_positions(f, f.len() as int)
    &&& mesh.normals@ == mesh_normals(f, f.len() as int)
    &&& mesh.indices@ == mesh_indices(f, f.len() as int)
}

proof fn lemma_mesh_prefix(f: Seq<(int, int, int, int)>, g: Seq<(int, int, int, int)>, n: int)
    requires
        0 <= n <= f.len(),
        n <= g.len(),
        forall|i: int| 0 <= i < n ==> f[i] == g[i],
    ensures
        mesh_positions(f, n) == mesh_positions(g, n),
        mesh_normals(f, n) == mesh_normals(g, n),
        mesh_indices(f, n) == mesh_indices(g, n),
        mesh_positions(f, n).len() == 4 * n,
    decreases n,
{
    if n > 0 {
        lemma_mesh_prefix(f, g, n - 1);
    }
}

proof fn lemma_voxel_faces_len(chunk: Chunk, x: int, y: int, z: int, k: int)
    requires
        0 <= k,
    ensures
        voxel_faces(chunk, x, y, z, k).len() <= k,
    decreases k,
{
    if k > 0 {
        lemma_voxel_faces_len(chunk, x, y, z, k - 1);
    }
}

proof fn lemma_faces_visited_len(chunk: Chunk, t: int)
    requires
        0 <= t,
    ensures
        faces_visited(chunk, t).len() <= 6 * t,
    decreases t,
{
    if t > 0 {
        lemma_faces_visited_len(chunk, t - 1);
        let (x, y, z) = visit(t - 1);
        lemma_voxel_faces_len(chunk, x, y, z, 6);
    }
}

/// Appends face `k` of voxel (x, y, z) to the mesh.
fn push_face(mesh: &mut ChunkMesh, k: usize, x: u32, y: u32, z: u32, Ghost(f): Ghost<Seq<(int, int, int, int)>>)
    requires
        k < 6,
        x < 17,
        y < 17,
        z < 17,
        f.len() <= 6 * 4913,
        mesh_matches(*old(mesh), f),
    ensures
        mesh_matches(*final(mesh), f.push((k as int, x as int, y as int, z as int))),
{
    let ghost g = f.push((k as int, x as int, y as int, z as int));
    proof {
        lemma_mesh_prefix(f, g, f.len() as int);
    }
    let start = mesh.positions.len() as u32;
    assert(start as int == 4 * f.len());
    let idx: [u32; 6] = if k == 0 || k == 3 || k == 5 {
        [start, start + 1, start + 2, start + 1, start + 3, start + 2]
    } else {
        [start, start + 2, start + 1, start + 1, start + 2, start + 3]
    };
    assert(idx@ =~= face_index_pattern(k as int, 4 * f.len() as int));
    let corners: [(u32, u32, u32); 4] = if k == 0 {
        [(x, y, z + 1), (x + 1, y, z + 1), (x, y + 1, z + 1), (x + 1, y + 1, z + 1)]
    } else if k == 1 {
        [(x + 1, y, z), (x + 1, y, z + 1), (x + 1, y + 1, z), (x + 1, y + 1, z + 1)]
    } else if k == 2 {
        [(x, y, z), (x + 1, y, z), (x, y + 1, z), (x + 1, y + 1, z)]
    } else if k == 3 {
        [(x, y, z), (x, y, z + 1), (x, y + 1, z), (x, y + 1, z + 1)]
    } else if k == 4 {
        [(x, y + 1, z), (x + 1, y + 1, z), (x, y + 1, z + 1), (x + 1, y + 1, z + 1)]
    } else {
        [(x, y, z), (x + 1, y, z), (x, y, z + 1), (x + 1, y, z + 1)]
    };
    assert(corners@ =~= face_corners(k as int, x as int, y as int, z as int));
    let normal: (i32, i32, i32) = if k == 0 {
        (0, 0, -1)
    } else if k == 1 {
        (1, 0, 0)
    } else if k == 2 {
        (0, 0, 1)
    } else if k == 3 {
        (-1, 0, 0)
    } else if k == 4 {
        (0, 1, 0)
    } else {
        (0, -1, 0)
    };
    assert(normal == face_normal(k as int));
    let ghost i0 = mesh.indices@;
    let ghost pp = mesh.positions@;
    let ghost nn = mesh.normals@;
    let mut j: usize = 0;
    while j < 6
        invariant
            j <= 6,
            mesh.positions@ == pp,
            mesh.normals@ == nn,
            mesh.indices@ == i0 + idx@.subrange(0, j as int),
        decreases 6 - j,
    {
        mesh.indices.push(idx[j]);
        proof {
            assert(idx@.subrange(0, j + 1) =~= idx@.subrange(0, j as int).push(idx@[j as int]));
        }
        j = j + 1;
    }
    proof {
        assert(idx@.subrange(0, 6) =~= idx@);
    }
    let ghost p0 = mesh.positions@;
    let ghost n0 = mesh.normals@;
    let mut j: usize = 0;
    while j < 4
        invariant
            j <= 4,
            mesh.indices@ == i0 + idx@,
            mesh.positions@ == p0 + corners@.subrange(0, j as int),
            mesh.normals@ == n0 + seq![normal, normal, normal, normal].subrange(0, j as int),
        decreases 4 - j,
    {
        mesh.positions.push(corners[j]);
        mesh.normals.push(normal);
        proof {
            assert(corners@.subrange(0, j + 1) =~= corners@.subrange(0, j as int).push(corners@[j as int]));
            assert(seq![normal, normal, normal, normal].subrange(0, j + 1) =~= seq![normal, normal, normal, normal].subrange(0, j as int).push(normal));
        }
        j = j + 1;
    }
    proof {
        assert(idx@.subrange(0, 6) =~= idx@);
        assert(corners@.subrange(0, 4) =~= corners@);
        assert(seq![normal, normal, normal, normal].subrange(0, 4) =~= seq![normal, normal, normal, normal]);
        assert(g[f.len() as int] == (k as int, x as int, y as int, z as int));
        assert(mesh_positions(g, g.len() as int) == mesh_positions(g, f.len() as int) + face_corners(
            k as int,
            x as int,
            y as int,
            z as int,
        ));
        assert(mesh_normals(g, g.len() as int) == mesh_normals(g, f.len() as int) + seq![normal, normal, normal, normal]);
        assert(mesh_indices(g, g.len() as int) == mesh_indices(g, f.len() as int) + face_index_pattern(
            k as int,
            4 * f.len() as int,
        ));
        assert(mesh.positions@ =~= mesh_positions(g, g.len() as int));
        assert(mesh.normals@ =~= mesh_normals(g, g.len() as int));
        assert(mesh.indices@ =~= mesh_indices(g, g.len() as int));
    }
}


proof fn lemma_visit(x: int, y: int, z: int)
    requires
        0 <= x < 17,
        0 <= y < 17,
        0 <= z < 17,
    ensures
        visit(x * 289 + y * 17 + z) == (x, y, z),
{
    let t = x * 289 + y * 17 + z;
    vstd::arithmetic::div_mod::lemma_fundamental_div_mod_converse(t, 289, x, y * 17 + z);
    vstd::arithmetic::div_mod::lemma_fundamental_div_mod_converse(t, 17, x * 17 + y, z);
    vstd::arithmetic::div_mod::lemma_fundamental_div_mod_converse(x * 17 + y, 17, x, y);
}

/// Appends the faces of voxel (x, y, z) to the mesh.
fn mesh_voxel(chunk: &Chunk, mesh: &mut ChunkMesh, x: u32, y: u32, z: u32, Ghost(f): Ghost<Seq<(int, int, int, int)>>)
    requires
        x < 17,
        y < 17,
        z < 17,
        mesh_in_bounds(*chunk),
        f.len() <= 6 * 4912,
        mesh_matches(*old(mesh), f),
    ensures
        mesh_matches(*final(mesh), f + voxel_faces(*chunk, x as int, y as int, z as int, 6)),
{
    let inner = 1 <= x && x <= CHUNK_SIZE - 1 && 1 <= y && y <= CHUNK_SIZE - 1 && 1 <= z && z
        <= CHUNK_SIZE - 1;
    if inner && chunk.voxels[flatten_coord(UVec3::new(x, y, z))] {
        assert(solid(*chunk, x as int, y as int, z as int));
        let neighbors = [
            chunk.voxels[flatten_coord(UVec3::new(x, y, z + 1))],
            chunk.voxels[flatten_coord(UVec3::new(x + 1, y, z))],
            chunk.voxels[flatten_coord(UVec3::new(x, y, z - 1))],
            chunk.voxels[flatten_coord(UVec3::new(x - 1, y, z))],
            chunk.voxels[flatten_coord(UVec3::new(x, y + 1, z))],
            chunk.voxels[flatten_coord(UVec3::new(x, y - 1, z))],
        ];
        let mut k: usize = 0;
        while k < 6
            invariant
                k <= 6,
                x < 17,
                y < 17,
                z < 17,
                f.len() <= 6 * 4912,
                example_inner(x as int, y as int, z as int),
                solid(*chunk, x as int, y as int, z as int),
                forall|j: int| 0 <= j < 6 ==> neighbors@[j] == {
                    let (dx, dy, dz) = face_step(j);
                    solid(*chunk, x + dx, y + dy, z + dz)
                },
                mesh_matches(*mesh, f + voxel_faces(*chunk, x as int, y as int, z as int, k as int)),
            decreases 6 - k,
        {
            proof {
                lemma_voxel_faces_len(*chunk, x as int, y as int, z as int, k as int);
            }
            let ghost before = f + voxel_faces(*chunk, x as int, y as int, z as int, k as int);
            if !neighbors[k] {
                push_face(mesh, k, x, y, z, Ghost(before));
                proof {
                    assert(f + voxel_faces(*chunk, x as int, y as int, z as int, k + 1) =~= before.push(
                        (k as int, x as int, y as int, z as int),
                    ));
                }
            } else {
                assert(f + voxel_faces(*chunk, x as int, y as int, z as int, k + 1) =~= before);
            }
            k = k + 1;
        }
    } else {
        assert(voxel_faces(*chunk, x as int, y as int, z as int, 6) =~= Seq::empty()) by {
            reveal_with_fuel(voxel_faces, 7);
            assert(!face_open(*chunk, x as int, y as int, z as int, 0));
            assert(!face_open(*chunk, x as int, y as int, z as int, 1));
            assert(!face_open(*chunk, x as int, y as int, z as int, 2));
            assert(!face_open(*chunk, x as int, y as int, z as int, 3));
            assert(!face_open(*chunk, x as int, y as int, z as int, 4));
            assert(!face_open(*chunk, x as int, y as int, z as int, 5));
        }
        assert(f + voxel_faces(*chunk, x as int, y as int, z as int, 6) =~= f);
    }
}

/// Meshes an example chunk: every side of a solid voxel inside the chunk whose neighbour is
/// empty becomes a face, voxels visited x first, then y, then z, sides in the order of
/// `face_step`. The padding layers 0 and 16 are not meshed themselves; they only hide or show
/// the faces of the voxels next to them.
pub fn build_mesh(chunk: &Chunk) -> (r: ChunkMesh)
    requires
        mesh_in_bounds(*chunk),
    ensures
        mesh_matches(r, faces_visited(*chunk, 4913)),
{
    let mut res = ChunkMesh { positions: Vec::new(), normals: Vec::new(), indices: Vec::new() };
    proof {
        assert(mesh_positions(Seq::<(int, int, int, int)>::empty(), 0) =~= Seq::empty());
    }
    let mut x: u32 = 0;
    while x < CHUNK_SIZE_PADDED
        invariant
            x <= 17,
            mesh_in_bounds(*chunk),
            mesh_matches(res, faces_visited(*chunk, x * 289)),
        decreases 17 - x,
    {
        let mut y: u32 = 0;
        while y < CHUNK_SIZE_PADDED
            invariant
                x < 17,
                y <= 17,
                mesh_in_bounds(*chunk),
                mesh_matches(res, faces_visited(*chunk, x * 289 + y * 17)),
            decreases 17 - y,
        {
            let mut z: u32 = 0;
            while z < CHUNK_SIZE_PADDED
                invariant
                    x < 17,
                    y < 17,
                    z <= 17,
                    mesh_in_bounds(*chunk),
                    mesh_matches(res, faces_visited(*chunk, x * 289 + y * 17 + z)),
                decreases 17 - z,
            {
                let ghost t = x * 289 + y * 17 + z;
                proof {
                    lemma_faces_visited_len(*chunk, t);
                    lemma_visit(x as int, y as int, z as int);
                    assert(t < 4913) by (nonlinear_arith)
                        requires
                            t == x * 289 + y * 17 + z,
                            x < 17,
                            y < 17,
                            z < 17,
                    ;
                }
                mesh_voxel(chunk, &mut res, x, y, z, Ghost(faces_visited(*chunk, t)));
                z = z + 1;
            }
            y = y + 1;
        }
        x = x + 1;
    }
    res
}


/// Calls `rand::random::<bool>()`: a fair coin drawn from the thread-local generator.
/// Nothing is promised about the value.
#[verifier::external_body]
fn coin_flip() -> bool {
    rand::random::<bool>()
}

/// The voxel at (x, y, z) is inside the example chunk, not in its padding.
pub open spec fn example_inner(x: int, y: int, z: int) -> bool {
    1 <= x <= 15 && 1 <= y <= 15 && 1 <= z <= 15
}

/// Generates the example chunk at `position`: inner voxels below world height 9 are
/// solid, those at height 9 are solid or not by a coin flip, and all others are empty.
pub fn generate_chunk(position: IVec3) -> (r: Chunk)
    ensures
        r.pos == position,
        r.voxels@.len() == 4913,
        forall|x: int, y: int, z: int|
            0 <= x < 17 && 0 <= y < 17 && 0 <= z < 17 ==> {
                let full_y = y + position.y * 16;
                &&& (!example_inner(x, y, z) || full_y > 9) ==> !#[trigger] r.voxels@[flat(x, y, z)]
                &&& (example_inner(x, y, z) && full_y <= 8) ==> r.voxels@[flat(x, y, z)]
            },
        mesh_in_bounds(r),
{
    let mut voxels: Vec<bool> = Vec::new();
    let mut i: usize = 0;
    while i < 4913
        invariant
            i <= 4913,
            voxels@ == Seq::new(i as nat, |j: int| false),
        decreases 4913 - i,
    {
        voxels.push(false);
        i = i + 1;
    }
    let mut chunk = Chunk { voxels, pos: position };
    let ghost py = position.y * 16;
    let mut x: u32 = 1;
    while x < CHUNK_SIZE
        invariant
            1 <= x <= 16,
            chunk.pos == position,
            py == position.y * 16,
            chunk.voxels@.len() == 4913,
            forall|a: int, b: int, c: int|
                0 <= a < 17 && 0 <= b < 17 && 0 <= c < 17 ==> {
                    let done = example_inner(a, b, c) && a < x;
                    &&& (!done || b + py > 9) ==> !#[trigger] chunk.voxels@[flat(a, b, c)]
                    &&& (done && b + py <= 8) ==> chunk.voxels@[flat(a, b, c)]
                },
        decreases 16 - x,
    {
        let mut y: u32 = 1;
        while y < CHUNK_SIZE
            invariant
                1 <= x <= 15,
                1 <= y <= 16,
                chunk.pos == position,
                py == position.y * 16,
                chunk.voxels@.len() == 4913,
                forall|a: int, b: int, c: int|
                    0 <= a < 17 && 0 <= b < 17 && 0 <= c < 17 ==> {
                        let done = example_inner(a, b, c) && (a < x || (a == x && b < y));
                        &&& (!done || b + py > 9) ==> !#[trigger] chunk.voxels@[flat(a, b, c)]
                        &&& (done && b + py <= 8) ==> chunk.voxels@[flat(a, b, c)]
                    },
            decreases 16 - y,
        {
            let mut z: u32 = 1;
            while z < CHUNK_SIZE
                invariant
                    1 <= x <= 15,
                    1 <= y <= 15,
                    1 <= z <= 16,
                    chunk.pos == position,
                    py == position.y * 16,
                    chunk.voxels@.len() == 4913,
                    forall|a: int, b: int, c: int|
                        0 <= a < 17 && 0 <= b < 17 && 0 <= c < 17 ==> {
                            let done = example_inner(a, b, c) && (a < x || (a == x && (b < y || (b == y
                                && c < z))));
                            &&& (!done || b + py > 9) ==> !#[trigger] chunk.voxels@[flat(a, b, c)]
                            &&& (done && b + py <= 8) ==> chunk.voxels@[flat(a, b, c)]
                        },
                decreases 16 - z,
            {
                let index = flatten_coord(UVec3::new(x, y, z));
                let full_y = y as i64 + position.y as i64 * 16;
                let ghost before = chunk.voxels@;
                if full_y == 9 {
                    let v = coin_flip();
                    chunk.voxels.set(index, v);
                } else if full_y <= 8 {
                    chunk.voxels.set(index, true);
                }
                proof {
                    assert forall|a: int, b: int, c: int|
                        0 <= a < 17 && 0 <= b < 17 && 0 <= c < 17 && (a, b, c) != (x as int, y as int, z as int)
                            implies #[trigger] chunk.voxels@[flat(a, b, c)] == before[flat(a, b, c)] by {
                        crate::example::lemma_flat_injective(a, b, c, x as int, y as int, z as int);
                    }
                }
                z = z + 1;
            }
            y = y + 1;
        }
        x = x + 1;
    }
    proof {
        assert forall|a: int, b: int, c: int|
            0 <= a < 17 && 0 <= b < 17 && 0 <= c < 17 && #[trigger] solid(chunk, a, b, c) implies {
                &&& 1 <= a && 1 <= b && 1 <= c
                &&& flat(a + 1, b, c) < 4913
                &&& flat(a, b + 1, c) < 4913
                &&& flat(a, b, c + 1) < 4913
            } by {
            assert(example_inner(a, b, c));
        }
    }
    chunk
}

proof fn lemma_flat_injective(a: int, b: int, c: int, x: int, y: int, z: int)
    requires
        0 <= a < 17,
        0 <= b < 17,
        0 <= c < 17,
        0 <= x < 17,
        0 <= y < 17,
        0 <= z < 17,
        (a, b, c) != (x, y, z),
    ensures
        flat(a, b, c) != flat(x, y, z),
{
    vstd::arithmetic::div_mod::lemma_fundamental_div_mod_converse(flat(a, b, c), 17, b + 17 * c, a);
    vstd::arithmetic::div_mod::lemma_fundamental_div_mod_converse(flat(x, y, z), 17, y + 17 * z, x);
    vstd::arithmetic::div_mod::lemma_fundamental_div_mod_converse(b + 17 * c, 17, c, b);
    vstd::arithmetic::div_mod::lemma_fundamental_div_mod_converse(y + 17 * z, 17, z, y);
}

} // verus!

use vinox::block_mesh::{
    right_handed_y_up_faces, visible_block_faces, visible_block_faces_with_voxel_view,
    IdentityVoxel, OrientedBlockFace, Shape3u32, UnitQuadBuffer, Voxel, VoxelVisibility,
};
use vinox::chunk::RawChunk;
use vinox::example::{build_mesh, flatten_coord, generate_chunk, Chunk};
use vinox::math::{IVec3, UVec3};
use vinox::meshing::{
    build_chunk_geometry, calculate_ao, face_uvs, generate_mesh, texture_slot, triangles, Axis,
    Face, Quad, Side,
};
use vinox::storage::{BlockType, BreakTool, LoadableTypes};
use vinox::voxel::{GeometryType, VoxelVisibility as Shown};

#[derive(Clone, Copy, Debug, PartialEq, Eq)]
struct TestVoxel(VoxelVisibility);

impl Voxel for TestVoxel {
    fn shown_as(&self) -> VoxelVisibility {
        self.0
    }

    fn get_visibility(&self) -> VoxelVisibility {
        self.0
    }
}

fn filled(shape: Shape3u32, solid: &[([u32; 3], VoxelVisibility)]) -> Vec<TestVoxel> {
    let mut voxels = vec![TestVoxel(VoxelVisibility::Empty); shape.size() as usize];
    for (p, vis) in solid {
        voxels[shape.linearize(*p) as usize] = TestVoxel(*vis);
    }
    voxels
}

#[test]
fn shape_linearizes_x_fastest() {
    let shape = Shape3u32::new(4, 3, 2);
    assert_eq!(shape.size(), 24);
    assert_eq!(shape.linearize([1, 2, 1]), 1 + 4 * (2 + 3));
    assert_eq!(OrientedBlockFace::new(-1, Axis::Y).signed_normal(), [0, -1, 0]);
    assert_eq!(OrientedBlockFace::new(1, Axis::Z).signed_normal(), [0, 0, 1]);
}

#[test]
fn a_lone_voxel_gets_six_unshaded_quads() {
    let shape = Shape3u32::new(3, 3, 3);
    let voxels = filled(shape, &[([1, 1, 1], VoxelVisibility::Opaque)]);
    let mut buffer = UnitQuadBuffer::new();
    visible_block_faces(&voxels, &shape, [0; 3], [2; 3], &right_handed_y_up_faces(), &mut buffer);
    for group in buffer.groups.iter() {
        assert_eq!(group.len(), 1);
        assert_eq!(group[0].minimum, [1, 1, 1]);
        assert_eq!(group[0].ao, [3, 3, 3, 3]);
    }
}

#[test]
fn touching_voxels_hide_the_shared_face() {
    let shape = Shape3u32::new(4, 3, 3);
    let voxels = filled(shape, &[([1, 1, 1], VoxelVisibility::Opaque), ([2, 1, 1], VoxelVisibility::Opaque)]);
    let mut buffer = UnitQuadBuffer::new();
    visible_block_faces(&voxels, &shape, [0; 3], [3, 2, 2], &right_handed_y_up_faces(), &mut buffer);
    let minima: Vec<Vec<[u32; 3]>> = buffer.groups.iter().map(|g| g.iter().map(|q| q.minimum).collect()).collect();
    assert_eq!(minima[0], vec![[1, 1, 1]]);
    assert_eq!(minima[3], vec![[2, 1, 1]]);
    for f in [1usize, 2, 4, 5] {
        assert_eq!(minima[f], vec![[1, 1, 1], [2, 1, 1]]);
    }
}

#[test]
fn quads_carry_corner_occlusion() {
    let shape = Shape3u32::new(5, 5, 5);
    let voxels = filled(shape, &[([2, 1, 2], VoxelVisibility::Opaque), ([3, 2, 2], VoxelVisibility::Opaque)]);
    let mut buffer = UnitQuadBuffer::new();
    visible_block_faces(&voxels, &shape, [0; 3], [4; 3], &right_handed_y_up_faces(), &mut buffer);
    let top = buffer.groups[4].iter().find(|q| q.minimum == [2, 1, 2]).unwrap();
    assert_eq!(top.ao, [3, 3, 2, 2]);
}

#[test]
fn translucent_faces_follow_the_rules() {
    let shape = Shape3u32::new(4, 3, 3);
    let voxels = filled(shape, &[([1, 1, 1], VoxelVisibility::Opaque), ([2, 1, 1], VoxelVisibility::Translucent)]);
    let mut buffer = UnitQuadBuffer::new();
    visible_block_faces(&voxels, &shape, [0; 3], [3, 2, 2], &right_handed_y_up_faces(), &mut buffer);
    let plus_x: Vec<[u32; 3]> = buffer.groups[3].iter().map(|q| q.minimum).collect();
    let minus_x: Vec<[u32; 3]> = buffer.groups[0].iter().map(|q| q.minimum).collect();
    assert_eq!(plus_x, vec![[1, 1, 1], [2, 1, 1]]);
    assert_eq!(minus_x, vec![[1, 1, 1]]);
}

#[test]
fn quads_are_appended_to_existing_groups() {
    let shape = Shape3u32::new(3, 3, 3);
    let voxels = filled(shape, &[([1, 1, 1], VoxelVisibility::Opaque)]);
    let mut buffer = UnitQuadBuffer::new();
    let faces = right_handed_y_up_faces();
    visible_block_faces(&voxels, &shape, [0; 3], [2; 3], &faces, &mut buffer);
    visible_block_faces_with_voxel_view::<TestVoxel, IdentityVoxel<TestVoxel>>(
        &voxels, &shape, [0; 3], [2; 3], &faces, &mut buffer,
    );
    assert!(buffer.groups.iter().all(|g| g.len() == 2));
    let mut empty = UnitQuadBuffer::new();
    visible_block_faces(&voxels, &shape, [1; 3], [2; 3], &faces, &mut empty);
    assert!(empty.groups.iter().all(|g| g.is_empty()));
}

fn stone_types() -> LoadableTypes {
    let stone = BlockType {
        namespace: "vinox".to_string(),
        block_name: "stone".to_string(),
        textures: Vec::new(),
        interactable: false,
        break_tool: BreakTool::Pickaxe,
        walk_sound: None,
        break_sound: None,
        block_script: None,
        visibility: Shown::Opaque,
        block_geometry: GeometryType::Block,
        light_val: 0,
    };
    LoadableTypes { entities: Vec::new(), blocks: vec![("vinoxstone".to_string(), stone)] }
}

fn one_stone() -> RawChunk {
    let mut chunk = RawChunk::new();
    chunk.add_block_state(&"vinoxstone".to_string());
    chunk.set_block(UVec3::new(1, 1, 1), "vinoxstone".to_string());
    chunk
}

#[test]
fn generate_mesh_gives_a_quad_per_open_side() {
    let groups = generate_mesh(&one_stone(), &stone_types());
    for group in groups.groups.iter() {
        assert_eq!(group.len(), 1);
        assert_eq!(group[0].voxel, [1, 1, 1]);
        assert_eq!((group[0].width, group[0].height), (1, 1));
    }
    let faces = groups.iter();
    assert_eq!(faces.len(), 6);
    assert_eq!(faces[0].side, Side::new(Axis::X, false));
    assert_eq!(faces[5].side, Side::new(Axis::Z, true));
}

#[test]
fn ambient_occlusion_of_open_and_covered_corners() {
    let types = stone_types();
    let chunk = one_stone();
    assert_eq!(calculate_ao(&chunk, Side::new(Axis::Y, true), 1, 1, 1, &types), [3, 3, 3, 3]);
    let mut wall = one_stone();
    wall.set_block(UVec3::new(2, 2, 1), "vinoxstone".to_string());
    assert_eq!(calculate_ao(&wall, Side::new(Axis::Y, true), 1, 1, 1, &types), [3, 3, 2, 2]);
}

#[test]
fn face_tables() {
    let face = Face { side: Side::new(Axis::X, false), quad: Quad { voxel: [3, 4, 5], width: 1, height: 1 } };
    assert_eq!(face.indices(8, false), [8, 11, 9, 8, 10, 11]);
    assert_eq!(face.indices(8, true), [8, 10, 9, 9, 10, 11]);
    assert_eq!(face.voxel(), [3, 4, 5]);
    assert_eq!(face.origin(), [2, 3, 4]);
    assert_eq!(face.corner_offsets(), [[0, 0, 1], [0, 0, 0], [0, 1, 1], [0, 1, 0]]);
    assert_eq!(Side::new(Axis::Z, false).unit_normal(), [0, 0, -1]);
    assert_eq!(Side::from_index(3), Side::new(Axis::Y, true));
    assert_eq!(face_uvs(false, false), [[0, 0], [1, 0], [0, 1], [1, 1]]);
    assert_eq!(face_uvs(true, true), [[1, 1], [0, 1], [1, 0], [0, 0]]);
    assert_eq!(texture_slot(Side::new(Axis::Y, true)), 0);
    assert_eq!(texture_slot(Side::new(Axis::X, false)), 2);
    assert_eq!(triangles(&vec![0, 1, 2, 3, 4, 5, 6]), vec![[0, 1, 2], [3, 4, 5]]);
}

#[test]
fn chunk_geometry_has_four_vertices_per_face() {
    let geometry = build_chunk_geometry(&one_stone(), &stone_types());
    assert_eq!(geometry.faces.len(), 6);
    assert_eq!(geometry.indices.len(), 36);
    assert_eq!(geometry.ao, vec![3u8; 24]);
    assert_eq!(&geometry.indices[0..6], &[0, 3, 1, 0, 2, 3]);
    assert_eq!(&geometry.indices[6..12], &[4, 7, 5, 4, 6, 7]);
}

#[test]
fn example_chunk_meshes_a_lone_voxel() {
    let mut voxels = vec![false; 4913];
    voxels[flatten_coord(UVec3::new(1, 1, 1))] = true;
    let chunk = Chunk { voxels, pos: IVec3::new(0, 0, 0) };
    let mesh = build_mesh(&chunk);
    assert_eq!(mesh.positions.len(), 24);
    assert_eq!(mesh.normals.len(), 24);
    assert_eq!(mesh.indices.len(), 36);
    assert_eq!(flatten_coord(UVec3::new(1, 2, 3)), 1 + 17 * (2 + 17 * 3));
}

#[test]
fn example_padding_is_not_meshed() {
    let mut voxels = vec![false; 4913];
    voxels[306] = true;
    voxels[flatten_coord(UVec3::new(16, 5, 5))] = true;
    voxels[flatten_coord(UVec3::new(4, 16, 4))] = true;
    let chunk = Chunk { voxels, pos: IVec3::new(0, 0, 0) };
    let mesh = build_mesh(&chunk);
    assert!(mesh.positions.is_empty());
    assert!(mesh.normals.is_empty());
    assert!(mesh.indices.is_empty());
    let mut voxels = vec![false; 4913];
    voxels[flatten_coord(UVec3::new(15, 5, 5))] = true;
    voxels[flatten_coord(UVec3::new(16, 5, 5))] = true;
    let mesh = build_mesh(&Chunk { voxels, pos: IVec3::new(0, 0, 0) });
    assert_eq!(mesh.positions.len(), 20);
}

#[test]
fn example_chunk_is_solid_below_the_surface() {
    let chunk = generate_chunk(IVec3::new(0, 0, 0));
    assert_eq!(chunk.voxels.len(), 4913);
    assert!(chunk.voxels[flatten_coord(UVec3::new(3, 8, 3))]);
    assert!(!chunk.voxels[flatten_coord(UVec3::new(3, 10, 3))]);
    assert!(!chunk.voxels[flatten_coord(UVec3::new(0, 5, 3))]);
    let high = generate_chunk(IVec3::new(0, 1, 0));
    assert!(high.voxels.iter().all(|v| !*v));
}

#[test]
fn chunk_voxels_mesh_directly() {
    use_chunk_voxels();
}

fn use_chunk_voxels() {
    let shape = Shape3u32::new(3, 3, 3);
    let mut voxels = vec![vinox::voxel::VoxelType::Empty(0); 27];
    voxels[shape.linearize([1, 1, 1]) as usize] = vinox::voxel::VoxelType::Transparent(2);
    let mut buffer = UnitQuadBuffer::new();
    visible_block_faces(&voxels, &shape, [0; 3], [2; 3], &right_handed_y_up_faces(), &mut buffer);
    assert!(buffer.groups.iter().all(|g| g.len() == 1));
}

fn see_through_types() -> LoadableTypes {
    let mut types = stone_types();
    for name in ["g", "w"] {
        let mut glass = types.blocks[0].1.clone();
        glass.block_name = name.to_string();
        glass.visibility = Shown::Transparent;
        types.blocks.push((format!("vinox{name}"), glass));
    }
    types
}

fn two_see_through(second: &str) -> usize {
    let mut chunk = RawChunk::new();
    chunk.add_block_state(&"vinoxg".to_string());
    chunk.add_block_state(&"vinoxw".to_string());
    chunk.set_block(UVec3::new(1, 1, 1), "vinoxg".to_string());
    chunk.set_block(UVec3::new(2, 1, 1), second.to_string());
    let groups = generate_mesh(&chunk, &see_through_types());
    groups.iter().len()
}

#[test]
fn equal_see_through_blocks_hide_their_shared_face() {
    assert_eq!(two_see_through("vinoxg"), 10);
    assert_eq!(two_see_through("vinoxw"), 12);
}

#[test]
fn more_opaque_neighbours_never_brighten_a_corner() {
    let types = stone_types();
    let open = one_stone();
    let mut covered = one_stone();
    covered.set_block(UVec3::new(2, 2, 1), "vinoxstone".to_string());
    covered.set_block(UVec3::new(1, 2, 2), "vinoxstone".to_string());
    let side = Side::new(Axis::Y, true);
    let a = calculate_ao(&open, side, 1, 1, 1, &types);
    let b = calculate_ao(&covered, side, 1, 1, 1, &types);
    assert!((0..4).all(|k| b[k] <= a[k]));
    assert!(b.iter().any(|v| *v < 3));
}

#[test]
fn meshing_through_a_view_matches_the_converted_array() {
    let shape = Shape3u32::new(4, 4, 4);
    let voxels = filled(shape, &[([1, 1, 1], VoxelVisibility::Opaque), ([2, 1, 1], VoxelVisibility::Translucent), ([1, 2, 1], VoxelVisibility::Opaque)]);
    let faces = right_handed_y_up_faces();
    let mut through_view = UnitQuadBuffer::new();
    visible_block_faces_with_voxel_view::<TestVoxel, IdentityVoxel<TestVoxel>>(&voxels, &shape, [0; 3], [3; 3], &faces, &mut through_view);
    let converted: Vec<TestVoxel> = voxels.iter().copied().collect();
    let mut through_array = UnitQuadBuffer::new();
    visible_block_faces(&converted, &shape, [0; 3], [3; 3], &faces, &mut through_array);
    for f in 0..6 {
        let a: Vec<([u32; 3], [u8; 4])> = through_view.groups[f].iter().map(|q| (q.minimum, q.ao)).collect();
        let b: Vec<([u32; 3], [u8; 4])> = through_array.groups[f].iter().map(|q| (q.minimum, q.ao)).collect();
        assert_eq!(a, b);
        assert!(!a.is_empty());
    }
}

#[test]
fn faces_in_another_order_mesh_the_same_quads() {
    let shape = Shape3u32::new(6, 6, 6);
    let voxels = filled(shape, &[([2, 2, 2], VoxelVisibility::Opaque), ([3, 2, 2], VoxelVisibility::Opaque)]);
    let faces = [
        OrientedBlockFace::new(1, Axis::Y),
        OrientedBlockFace::new(-1, Axis::Z),
        OrientedBlockFace::new(1, Axis::X),
        OrientedBlockFace::new(-1, Axis::Y),
        OrientedBlockFace::new(1, Axis::Z),
        OrientedBlockFace::new(-1, Axis::X),
    ];
    let mut buffer = UnitQuadBuffer::new();
    visible_block_faces(&voxels, &shape, [1; 3], [4; 3], &faces, &mut buffer);
    let minima: Vec<Vec<[u32; 3]>> = buffer.groups.iter().map(|g| g.iter().map(|q| q.minimum).collect()).collect();
    assert_eq!(minima[0], vec![[2, 2, 2], [3, 2, 2]]);
    assert_eq!(minima[1], vec![[2, 2, 2], [3, 2, 2]]);
    assert_eq!(minima[2], vec![[3, 2, 2]]);
    assert_eq!(minima[5], vec![[2, 2, 2]]);
    let mut again = UnitQuadBuffer::new();
    visible_block_faces(&voxels, &shape, [1; 3], [4; 3], &faces, &mut again);
    visible_block_faces(&voxels, &shape, [1; 3], [4; 3], &faces, &mut again);
    assert!(again.groups.iter().zip(buffer.groups.iter()).all(|(a, b)| a.len() == 2 * b.len()));
}

#[test]
fn only_readable_chunks_are_meshable() {
    let types = stone_types();
    assert!(vinox::meshing::is_meshable(&one_stone(), &types));
    let mut unknown = one_stone();
    unknown.add_block_state(&"vinoxmystery".to_string());
    assert!(vinox::meshing::is_meshable(&unknown, &types));
    unknown.set_block(UVec3::new(5, 5, 5), "vinoxmystery".to_string());
    assert!(!vinox::meshing::is_meshable(&unknown, &types));
    let mut broken = one_stone();
    broken.voxels[7] = 9;
    assert!(!vinox::meshing::is_meshable(&broken, &types));
}

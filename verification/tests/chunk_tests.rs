use vinox::borders::update_borders;
use vinox::chunk::{voxel_to_world, world_to_chunk, world_to_voxel, LightChunk, RawChunk};
use vinox::math::{IVec3, UVec3};
use vinox::storage::{BlockType, BreakTool, LoadableTypes};
use vinox::voxel::{GeometryType, Voxel, VoxelType, VoxelVisibility};

fn s(text: &str) -> String {
    text.to_string()
}

fn block_type(namespace: &str, name: &str, visibility: VoxelVisibility, light: u8) -> BlockType {
    BlockType {
        namespace: s(namespace),
        block_name: s(name),
        textures: vec![(s("up"), s("top.png"))],
        interactable: false,
        break_tool: BreakTool::Pickaxe,
        walk_sound: None,
        break_sound: None,
        block_script: None,
        visibility,
        block_geometry: GeometryType::Block,
        light_val: light,
    }
}

fn types() -> LoadableTypes {
    LoadableTypes {
        entities: Vec::new(),
        blocks: vec![
            (s("vinoxstone"), block_type("vinox", "stone", VoxelVisibility::Opaque, 0)),
            (s("vinoxglass"), block_type("vinox", "glass", VoxelVisibility::Transparent, 3)),
        ],
    }
}

fn place(chunk: &mut RawChunk, x: u32, y: u32, z: u32, name: &str) {
    chunk.add_block_state(&s(name));
    chunk.set_block(UVec3::new(x, y, z), s(name));
}

#[test]
fn new_chunk_holds_only_air() {
    let chunk = RawChunk::new();
    assert_eq!(chunk.palette, vec![s("air")]);
    assert_eq!(chunk.voxels.len(), 39304);
    assert!(chunk.voxels.iter().all(|v| *v == 0));
    assert_eq!(RawChunk::size(), 39304);
}

#[test]
fn linearize_and_delinearize_are_inverse() {
    assert_eq!(RawChunk::linearize(UVec3::new(1, 2, 3)), 3537);
    assert_eq!(RawChunk::delinearize(3537), (1, 2, 3));
    assert_eq!(RawChunk::delinearize(39303), (33, 33, 33));
    assert_eq!(RawChunk::linearize(UVec3::new(33, 33, 33)), 39303);
    for i in [0usize, 34, 1155, 1156, 20000, 39303] {
        let (x, y, z) = RawChunk::delinearize(i);
        assert_eq!(RawChunk::linearize(UVec3::new(x, y, z)), i);
    }
}

#[test]
fn world_coordinates_split_and_join() {
    assert_eq!(world_to_chunk(IVec3::new(-1, 0, 33)), IVec3::new(-1, 0, 1));
    assert_eq!(world_to_chunk(IVec3::new(-32, -33, 31)), IVec3::new(-1, -2, 0));
    let (chunk, voxel) = world_to_voxel(IVec3::new(-1, 0, 33));
    assert_eq!(chunk, IVec3::new(-1, 0, 1));
    assert_eq!(voxel, UVec3::new(32, 1, 2));
    assert_eq!(voxel_to_world(voxel, chunk), IVec3::new(-1, 0, 33));
    let (chunk, voxel) = world_to_voxel(IVec3::new(-64, 95, 0));
    assert_eq!(chunk, IVec3::new(-2, 2, 0));
    assert_eq!(voxel, UVec3::new(1, 32, 1));
    assert_eq!(voxel_to_world(voxel, chunk), IVec3::new(-64, 95, 0));
}

#[test]
fn set_block_reads_back() {
    let mut chunk = RawChunk::new();
    place(&mut chunk, 5, 6, 7, "vinoxstone");
    assert_eq!(chunk.palette, vec![s("air"), s("vinoxstone")]);
    assert_eq!(chunk.get_block(UVec3::new(5, 6, 7)), Some(s("vinoxstone")));
    assert_eq!(chunk.get_block(UVec3::new(5, 6, 8)), Some(s("air")));
    assert_eq!(chunk.voxels[RawChunk::linearize(UVec3::new(5, 6, 7))], 1);
}

#[test]
fn set_block_with_unknown_state_changes_nothing() {
    let mut chunk = RawChunk::new();
    chunk.set_block(UVec3::new(2, 2, 2), s("vinoxmissing"));
    assert_eq!(chunk, RawChunk::new());
}

#[test]
fn add_block_state_twice_adds_once() {
    let mut chunk = RawChunk::new();
    chunk.add_block_state(&s("vinoxstone"));
    chunk.add_block_state(&s("vinoxstone"));
    assert_eq!(chunk.palette, vec![s("air"), s("vinoxstone")]);
    assert_eq!(chunk.get_index_for_state(&s("vinoxstone")), Some(1));
    assert_eq!(chunk.get_index_for_state(&s("vinoxdirt")), None);
    assert_eq!(chunk.get_state_for_index(1), Some(s("vinoxstone")));
    assert_eq!(chunk.get_state_for_index(2), None);
}

#[test]
fn add_then_remove_restores_palette_and_blocks() {
    let mut chunk = RawChunk::new();
    place(&mut chunk, 1, 1, 1, "vinoxstone");
    let before = chunk.clone();
    chunk.add_block_state(&s("vinoxdirt"));
    assert_eq!(chunk.palette.len(), 3);
    chunk.remove_block_state(&s("vinoxdirt"));
    assert_eq!(chunk, before);
    assert_eq!(chunk.get_block(UVec3::new(1, 1, 1)), Some(s("vinoxstone")));
}

#[test]
fn remove_block_state_repoints_voxels() {
    let mut chunk = RawChunk::new();
    place(&mut chunk, 1, 1, 1, "vinoxstone");
    place(&mut chunk, 2, 1, 1, "vinoxdirt");
    chunk.remove_block_state(&s("vinoxstone"));
    assert_eq!(chunk.palette, vec![s("air"), s("vinoxdirt")]);
    assert_eq!(chunk.get_block(UVec3::new(1, 1, 1)), Some(s("air")));
    assert_eq!(chunk.get_block(UVec3::new(2, 1, 1)), Some(s("vinoxdirt")));
    assert_eq!(chunk.voxels[RawChunk::linearize(UVec3::new(2, 1, 1))], 1);
}

#[test]
fn remove_air_or_missing_state_changes_nothing() {
    let mut chunk = RawChunk::new();
    place(&mut chunk, 1, 1, 1, "vinoxstone");
    let before = chunk.clone();
    chunk.remove_block_state(&s("air"));
    assert_eq!(chunk, before);
    chunk.remove_block_state(&s("vinoxmissing"));
    assert_eq!(chunk, before);
}

#[test]
fn update_chunk_pal_follows_names() {
    let mut chunk = RawChunk::new();
    place(&mut chunk, 1, 1, 1, "a");
    place(&mut chunk, 2, 1, 1, "b");
    let old = chunk.palette.clone();
    chunk.palette = vec![s("air"), s("b"), s("a")];
    chunk.update_chunk_pal(&old);
    assert_eq!(chunk.voxels[RawChunk::linearize(UVec3::new(1, 1, 1))], 2);
    assert_eq!(chunk.voxels[RawChunk::linearize(UVec3::new(2, 1, 1))], 1);
    assert_eq!(chunk.voxels[RawChunk::linearize(UVec3::new(3, 1, 1))], 0);
    chunk.palette = vec![s("air"), s("b")];
    let old = vec![s("air"), s("b"), s("a")];
    chunk.update_chunk_pal(&old);
    assert_eq!(chunk.voxels[RawChunk::linearize(UVec3::new(1, 1, 1))], 0);
    assert_eq!(chunk.voxels[RawChunk::linearize(UVec3::new(2, 1, 1))], 1);
}

#[test]
fn voxel_types_come_from_the_block_table() {
    let types = types();
    let mut chunk = RawChunk::new();
    place(&mut chunk, 1, 1, 1, "vinoxstone");
    place(&mut chunk, 1, 2, 1, "vinoxglass");
    assert_eq!(chunk.get(1, 1, 1, &types), VoxelType::Opaque(1));
    assert_eq!(chunk.get(1, 2, 1, &types), VoxelType::Transparent(2));
    assert_eq!(chunk.get(1, 3, 1, &types), VoxelType::Empty(0));
    assert_eq!(chunk.get_voxel(RawChunk::linearize(UVec3::new(1, 1, 1)), &types), VoxelType::Opaque(1));
    let data = chunk.get_data(RawChunk::linearize(UVec3::new(1, 2, 1)), &types).unwrap();
    assert_eq!(data.block_name, "glass");
    assert_eq!(data.light_val, 3);
    assert!(chunk.get_data(RawChunk::linearize(UVec3::new(1, 3, 1)), &types).is_none());
}

#[test]
fn light_chunk_keeps_its_levels() {
    let types = types();
    let mut chunk = RawChunk::new();
    place(&mut chunk, 3, 3, 3, "vinoxglass");
    let mut light = LightChunk { voxels: vec![0u8; 39304] };
    light.voxels[RawChunk::linearize(UVec3::new(4, 5, 6))] = 7;
    let n = RawChunk::new();
    light.calculate_light(&chunk, [&n, &n, &n, &n, &n, &n], &types);
    assert_eq!(light.get_voxel(4, 5, 6), 7);
    assert_eq!(light.get_voxel(3, 3, 3), 0);
}

#[test]
fn voxel_type_values_and_visibility() {
    assert_eq!(VoxelType::Opaque(4).value(), 4);
    assert_eq!(VoxelType::Transparent(9).value(), 9);
    assert_eq!(VoxelType::default(), VoxelType::Empty(0));
    assert_eq!(VoxelType::Empty(3).visibility(), VoxelVisibility::Empty);
    assert_eq!(VoxelType::Transparent(3).visibility(), VoxelVisibility::Transparent);
    assert_eq!(VoxelVisibility::from_name("TRANSPARENT"), Some(VoxelVisibility::Transparent));
    assert_eq!(VoxelVisibility::from_name("opaque"), Some(VoxelVisibility::Opaque));
    assert_eq!(VoxelVisibility::from_name("solid"), None);
    assert_eq!(GeometryType::from_name("VerticalSlab"), Some(GeometryType::VerticalSlab));
    assert_eq!(GeometryType::default(), GeometryType::Block);
    assert_eq!(VoxelVisibility::default(), VoxelVisibility::Opaque);
}

fn neighbourhood() -> Vec<RawChunk> {
    let mut center = RawChunk::new();
    place(&mut center, 1, 1, 1, "vinoxstone");
    let mut below = RawChunk::new();
    place(&mut below, 3, 32, 4, "vinoxsand");
    let mut above = RawChunk::new();
    place(&mut above, 5, 1, 7, "vinoxdirt");
    let mut west = RawChunk::new();
    place(&mut west, 32, 9, 9, "vinoxstone");
    let east = RawChunk::new();
    let north = RawChunk::new();
    let mut south = RawChunk::new();
    place(&mut south, 2, 2, 1, "vinoxwood");
    vec![center, below, above, west, east, north, south]
}

#[test]
fn update_borders_copies_touching_layers() {
    let chunks = neighbourhood();
    let result = update_borders(&chunks).unwrap();
    assert_eq!(
        result.palette,
        vec![s("air"), s("vinoxstone"), s("vinoxsand"), s("vinoxdirt"), s("vinoxwood")]
    );
    assert_eq!(result.get_block(UVec3::new(3, 0, 4)), Some(s("vinoxsand")));
    assert_eq!(result.get_block(UVec3::new(5, 33, 7)), Some(s("vinoxdirt")));
    assert_eq!(result.get_block(UVec3::new(0, 9, 9)), Some(s("vinoxstone")));
    assert_eq!(result.get_block(UVec3::new(2, 2, 33)), Some(s("vinoxwood")));
    assert_eq!(result.get_block(UVec3::new(1, 1, 1)), Some(s("vinoxstone")));
    assert_eq!(result.get_block(UVec3::new(0, 0, 0)), Some(s("air")));
    assert_eq!(result.get_block(UVec3::new(33, 9, 9)), Some(s("air")));
}

#[test]
fn update_borders_skips_an_air_chunk() {
    let mut chunks = neighbourhood();
    chunks[0] = RawChunk::new();
    assert!(update_borders(&chunks).is_none());
}

#[test]
fn update_borders_twice_changes_nothing() {
    let mut chunks = neighbourhood();
    let once = update_borders(&chunks).unwrap();
    chunks[0] = once.clone();
    let twice = update_borders(&chunks).unwrap();
    assert_eq!(twice, once);
}

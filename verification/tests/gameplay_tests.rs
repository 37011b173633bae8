use vinox::chunk::RawChunk;
use vinox::generation::{add_grass, clamp_height, fill_terrain, generate_chunk};
use vinox::input::{interact, select_item, CurrentItem};
use vinox::math::{IVec3, UVec3};
use vinox::network::Commands;
use vinox::storage::{
    convert_block, convert_entity, texture_layout, AiType, BlockDescriptor, BreakTool,
    EntityDescriptor, LoadableTypes,
};
use vinox::voxel::{GeometryType, VoxelVisibility};
use vinox::world::CurrentChunks;

fn s(text: &str) -> String {
    text.to_string()
}

fn index(x: u32, y: u32, z: u32) -> usize {
    RawChunk::linearize(UVec3::new(x, y, z))
}

#[test]
fn number_keys_pick_items() {
    assert_eq!(CurrentItem::default(), CurrentItem::Greybrick);
    assert_eq!(select_item(CurrentItem::Greybrick, &vec![9, 3, 0]), CurrentItem::Concrete);
    assert_eq!(select_item(CurrentItem::Moss, &vec![]), CurrentItem::Moss);
    assert_eq!(select_item(CurrentItem::Moss, &vec![1, 7]), CurrentItem::Greybrick);
    assert_eq!(select_item(CurrentItem::Moss, &vec![6, 8]), CurrentItem::Glass);
    assert_eq!(select_item(CurrentItem::Moss, &vec![8, 9]), CurrentItem::Glass);
    assert_eq!(CurrentItem::Glass.block_name(), "vinoxglass");
    assert_eq!(CurrentItem::Dirt.block_name(), "vinoxdirt");
    assert_eq!(CurrentItem::Greybrick.block_name(), "vinoxgreybrick");
    assert_eq!(CurrentItem::Cobblestone.block_name(), "vinoxcobblestone");
}

fn table() -> CurrentChunks {
    let mut table = CurrentChunks::new();
    table.insert_entity(IVec3::new(2, 0, 0), 20);
    table.insert_entity(IVec3::new(3, 0, 0), 30);
    table
}

#[test]
fn placing_a_block_sets_it_and_tells_the_server() {
    let mut chunk = RawChunk::new();
    let (dirty, message) =
        interact(&table(), &mut chunk, IVec3::new(2, 0, 0), UVec3::new(32, 4, 4), true, true, CurrentItem::Moss).unwrap();
    assert_eq!(dirty, vec![30, 20]);
    assert_eq!(chunk.get_block(UVec3::new(32, 4, 4)), Some(s("vinoxmoss")));
    match message {
        Some(Commands::SentBlock { chunk_pos, voxel_pos, block_type }) => {
            assert_eq!(chunk_pos, [2, 0, 0]);
            assert_eq!(voxel_pos, [32, 4, 4]);
            assert_eq!(block_type, "vinoxmoss");
        }
        _ => panic!("expected a block message"),
    }
}

#[test]
fn placing_into_the_player_changes_nothing() {
    let mut chunk = RawChunk::new();
    let (dirty, message) =
        interact(&table(), &mut chunk, IVec3::new(2, 0, 0), UVec3::new(5, 4, 4), true, false, CurrentItem::Moss).unwrap();
    assert_eq!(dirty, vec![20]);
    assert!(message.is_none());
    assert_eq!(chunk, RawChunk::new());
}

#[test]
fn breaking_a_block_leaves_air() {
    let mut chunk = RawChunk::new();
    chunk.add_block_state(&s("vinoxwood"));
    chunk.set_block(UVec3::new(5, 4, 4), s("vinoxwood"));
    let (_, message) =
        interact(&table(), &mut chunk, IVec3::new(2, 0, 0), UVec3::new(5, 4, 4), false, true, CurrentItem::Moss).unwrap();
    assert_eq!(chunk.get_block(UVec3::new(5, 4, 4)), Some(s("air")));
    assert_eq!(chunk.palette, vec![s("air"), s("vinoxwood")]);
    match message {
        Some(Commands::SentBlock { block_type, .. }) => assert_eq!(block_type, "air"),
        _ => panic!("expected a block message"),
    }
    let mut other = RawChunk::new();
    assert!(interact(&table(), &mut other, IVec3::new(9, 9, 9), UVec3::new(1, 1, 1), false, true, CurrentItem::Moss).is_none());
}

#[test]
fn grass_grows_on_exposed_cobblestone() {
    let mut chunk = RawChunk::new();
    chunk.add_block_state(&s("vinoxcobblestone"));
    for y in 1..=10 {
        chunk.set_block(UVec3::new(4, y, 4), s("vinoxcobblestone"));
    }
    chunk.set_block(UVec3::new(6, 32, 6), s("vinoxcobblestone"));
    add_grass(&mut chunk);
    assert_eq!(chunk.get_block(UVec3::new(4, 10, 4)), Some(s("vinoxgrass")));
    assert_eq!(chunk.get_block(UVec3::new(4, 9, 4)), Some(s("vinoxdirt")));
    assert_eq!(chunk.get_block(UVec3::new(4, 8, 4)), Some(s("vinoxcobblestone")));
    assert_eq!(chunk.get_block(UVec3::new(6, 32, 6)), Some(s("vinoxgrass")));
    assert_eq!(chunk.palette, vec![s("air"), s("vinoxcobblestone"), s("vinoxgrass"), s("vinoxdirt")]);
}

fn masks(surface: u32, cave: Option<(u32, u32, u32)>) -> (Vec<bool>, Vec<bool>) {
    let mut solid = vec![false; 39304];
    let mut carved = vec![false; 39304];
    for x in 1..=32 {
        for z in 1..=32 {
            for y in 1..=surface {
                solid[index(x, y, z)] = true;
            }
        }
    }
    if let Some((x, y, z)) = cave {
        carved[index(x, y, z)] = true;
    }
    (solid, carved)
}

#[test]
fn terrain_fills_below_the_surface() {
    let (solid, carved) = masks(10, Some((3, 5, 3)));
    let chunk = fill_terrain(&solid, &carved);
    assert_eq!(chunk.palette, vec![s("air"), s("vinoxcobblestone")]);
    assert_eq!(chunk.get_block(UVec3::new(1, 10, 1)), Some(s("vinoxcobblestone")));
    assert_eq!(chunk.get_block(UVec3::new(1, 11, 1)), Some(s("air")));
    assert_eq!(chunk.get_block(UVec3::new(3, 5, 3)), Some(s("air")));
    let (empty, none) = masks(0, None);
    assert_eq!(fill_terrain(&empty, &none), RawChunk::new());
}

#[test]
fn generated_chunks_have_grass_and_dirt() {
    let (solid, carved) = masks(10, Some((3, 10, 3)));
    let chunk = generate_chunk(&solid, &carved);
    assert_eq!(chunk.get_block(UVec3::new(1, 10, 1)), Some(s("vinoxgrass")));
    assert_eq!(chunk.get_block(UVec3::new(1, 9, 1)), Some(s("vinoxdirt")));
    assert_eq!(chunk.get_block(UVec3::new(1, 8, 1)), Some(s("vinoxcobblestone")));
    assert_eq!(chunk.get_block(UVec3::new(3, 10, 3)), Some(s("air")));
    assert_eq!(chunk.get_block(UVec3::new(3, 9, 3)), Some(s("vinoxgrass")));
    assert_eq!(chunk.get_block(UVec3::new(3, 8, 3)), Some(s("vinoxdirt")));
}

#[test]
fn height_is_clamped() {
    assert_eq!(clamp_height(200), 96);
    assert_eq!(clamp_height(96), 96);
    assert_eq!(clamp_height(-500), -128);
    assert_eq!(clamp_height(5), 5);
}

fn descriptor(namespace: &str, name: &str, tool: &str, visibility: &str, light: u8) -> BlockDescriptor {
    BlockDescriptor {
        namespace: s(namespace),
        block_name: s(name),
        textures: vec![(s("up"), s("top.png")), (s("side"), s("side.png")), (s("down"), s("bottom.png"))],
        interactable: false,
        break_tool: s(tool),
        walk_sound: None,
        break_sound: Some(s("crack.ogg")),
        block_script: None,
        visibility: s(visibility),
        block_geometry: s("stairs"),
        light_val: light,
    }
}

#[test]
fn block_descriptors_convert_by_key() {
    let blocks = convert_block(vec![
        descriptor("vinox", "stone", "PICKAXE", "opaque", 0),
        descriptor("vinox", "glass", "hammer", "Transparent", 2),
        descriptor("vinox", "stone", "shovel", "empty", 5),
    ]);
    assert_eq!(blocks.len(), 2);
    let types = LoadableTypes { entities: convert_entity(Vec::<EntityDescriptor>::new()), blocks };
    let stone = types.get_block(&s("vinoxstone")).unwrap();
    assert_eq!(stone.break_tool, BreakTool::Shovel);
    assert_eq!(stone.visibility, VoxelVisibility::Empty);
    assert_eq!(stone.light_val, 5);
    let glass = types.get_block(&s("vinoxglass")).unwrap();
    assert_eq!(glass.break_tool, BreakTool::Pickaxe);
    assert_eq!(glass.visibility, VoxelVisibility::Transparent);
    assert_eq!(glass.block_geometry, GeometryType::Stairs);
    assert!(types.get_block(&s("vinoxdirt")).is_none());
    assert!(types.entities.is_empty());
}

#[test]
fn names_parse_without_regard_to_case() {
    assert_eq!(AiType::from_name("FLY"), Some(AiType::Fly));
    assert_eq!(AiType::from_name("run"), None);
    assert_eq!(AiType::default(), AiType::Walk);
    assert_eq!(BreakTool::from_name("Axe"), Some(BreakTool::Axe));
    assert_eq!(BreakTool::default(), BreakTool::Pickaxe);
}

#[test]
fn textures_are_laid_out_by_face() {
    let blocks = convert_block(vec![descriptor("vinox", "stone", "axe", "opaque", 0)]);
    let layout = texture_layout(&blocks[0].1);
    assert_eq!(layout.identifier, "vinoxstone");
    assert_eq!(layout.paths, vec![s("blocks/stone/top.png"), s("blocks/stone/side.png"), s("blocks/stone/bottom.png")]);
    assert_eq!(layout.faces, vec![Some(0), Some(2), None, None, None, None]);
    let mut bare = blocks[0].1.clone();
    bare.textures.clear();
    let layout = texture_layout(&bare);
    assert_eq!(layout.identifier, "");
    assert!(layout.paths.is_empty());
}

#[test]
fn a_broken_block_looks_the_same_to_everyone() {
    let mut sender = RawChunk::new();
    sender.add_block_state(&s("vinoxwood"));
    sender.set_block(UVec3::new(7, 7, 7), s("vinoxwood"));
    let mut receiver = sender.clone();
    sender.set_block(UVec3::new(7, 7, 7), s("air"));
    vinox::world::place_block(&mut receiver, UVec3::new(7, 7, 7), &s("air"));
    assert_eq!(sender, receiver);
    assert_eq!(receiver.get_block(UVec3::new(7, 7, 7)), Some(s("air")));
}

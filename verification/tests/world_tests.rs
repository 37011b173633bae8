use vinox::chunk::RawChunk;
use vinox::math::{IVec2, IVec3, UVec3};
use vinox::world::{
    chunks_out_of_view, chunks_to_load, dirty_chunks_to_update, nearest_first, offset,
    arrival_neighbors, plan_border_refresh, view_fits, receive_chunk, set_block, should_unload, unsend_chunks, ChunkArrival, ChunkManager, CreateChunkEvent,
    CurrentChunks, LoadPoint, PlayerChunk, SentChunks, SetBlockEvent, ViewDistance,
};

fn v(x: i32, y: i32, z: i32) -> IVec3 {
    IVec3::new(x, y, z)
}

#[test]
fn chunk_table_records_and_forgets() {
    let mut table = CurrentChunks::new();
    assert_eq!(table.get_entity(v(0, 0, 0)), None);
    table.insert_entity(v(0, 0, 0), 10);
    table.insert_entity(v(-1, 5, i32::MIN), 11);
    assert_eq!(table.get_entity(v(0, 0, 0)), Some(10));
    assert_eq!(table.get_entity(v(-1, 5, i32::MIN)), Some(11));
    assert!(table.contains(v(0, 0, 0)));
    table.insert_entity(v(0, 0, 0), 12);
    assert_eq!(table.get_entity(v(0, 0, 0)), Some(12));
    assert_eq!(table.remove_entity(v(0, 0, 0)), Some(12));
    assert_eq!(table.remove_entity(v(0, 0, 0)), None);
    assert_eq!(table.get_entity(v(0, 0, 0)), None);
    assert_eq!(table.get_entity(v(-1, 5, i32::MIN)), Some(11));
    assert_eq!(CurrentChunks::default().get_entity(v(-1, 5, i32::MIN)), None);
}

#[test]
fn neighbours_exist_only_when_all_six_do() {
    let mut table = CurrentChunks::new();
    let offsets = [(0, 1, 0), (0, -1, 0), (1, 0, 0), (-1, 0, 0), (0, 0, 1), (0, 0, -1)];
    let none = IVec2::new(0, 0);
    for (i, (x, y, z)) in offsets.iter().enumerate() {
        assert!(!table.all_neighbors_exist(v(4, 4, 4), none, none));
        table.insert_entity(v(4 + x, 4 + y, 4 + z), i as u64);
    }
    assert!(table.all_neighbors_exist(v(4, 4, 4), none, none));
    assert!(!table.all_neighbors_exist(v(i32::MAX, 0, 0), none, none));
}

#[test]
fn offset_stops_at_the_edge_of_i32() {
    assert_eq!(offset(v(1, 2, 3), -1, 0, 1), Some(v(0, 2, 4)));
    assert_eq!(offset(v(i32::MAX, 0, 0), 1, 0, 0), None);
    assert_eq!(offset(v(0, i32::MIN, 0), 0, -1, 0), None);
}

#[test]
fn radius_uses_horizontal_bound_for_z() {
    let player = PlayerChunk { chunk_pos: v(0, 0, 0) };
    let min = IVec2::new(-2, -1);
    let max = IVec2::new(2, 1);
    assert!(player.is_in_radius(v(0, 0, 2), min, max));
    assert!(player.is_in_radius(v(-2, -1, -2), min, max));
    assert!(!player.is_in_radius(v(0, 2, 0), min, max));
    assert!(!player.is_in_radius(v(0, 0, 3), min, max));
    assert!(!player.is_in_radius(v(3, 0, 0), min, max));
    let point = LoadPoint(v(10, 10, 10));
    assert!(point.is_in_radius(v(12, 11, 8), min, max));
    assert!(!point.is_in_radius(v(12, 12, 8), min, max));
    let far = PlayerChunk { chunk_pos: v(i32::MAX, 0, 0) };
    assert!(far.is_in_radius(v(i32::MAX, 0, 0), IVec2::new(-1, -1), IVec2::new(i32::MAX, 1)));
}

#[test]
fn set_block_marks_the_neighbours_that_show_the_voxel() {
    let mut table = CurrentChunks::new();
    table.insert_entity(v(0, 0, 0), 10);
    table.insert_entity(v(-1, 0, 0), 11);
    table.insert_entity(v(0, 1, 0), 12);
    table.insert_entity(v(0, 0, 1), 13);
    let mut chunk = RawChunk::new();
    let event = SetBlockEvent { chunk_pos: v(0, 0, 0), voxel_pos: UVec3::new(1, 32, 5), block_type: "vinoxdirt".to_string() };
    let dirty = set_block(&table, &mut chunk, &event).unwrap();
    assert_eq!(dirty, vec![11, 12, 10]);
    assert_eq!(chunk.get_block(UVec3::new(1, 32, 5)), Some("vinoxdirt".to_string()));
    let event = SetBlockEvent { chunk_pos: v(0, 0, 0), voxel_pos: UVec3::new(32, 1, 32), block_type: "vinoxdirt".to_string() };
    assert_eq!(set_block(&table, &mut chunk, &event).unwrap(), vec![13, 10]);
    assert_eq!(chunk.palette.len(), 2);
}

#[test]
fn set_block_on_a_missing_chunk_does_nothing() {
    let table = CurrentChunks::new();
    let mut chunk = RawChunk::new();
    let event = SetBlockEvent { chunk_pos: v(0, 0, 0), voxel_pos: UVec3::new(1, 1, 1), block_type: "vinoxdirt".to_string() };
    assert!(set_block(&table, &mut chunk, &event).is_none());
    assert_eq!(chunk, RawChunk::new());
}

#[test]
fn nearest_first_orders_and_limits() {
    let positions = vec![v(5, 0, 0), v(1, 0, 0), v(3, 0, 0), v(0, 0, 2)];
    assert_eq!(nearest_first(positions.clone(), v(0, 0, 0), 3), vec![v(1, 0, 0), v(0, 0, 2), v(3, 0, 0)]);
    assert_eq!(nearest_first(positions.clone(), v(0, 0, 0), 10).len(), 4);
    assert_eq!(nearest_first(positions, v(0, 0, 0), 0), Vec::<IVec3>::new());
    let far = nearest_first(vec![v(i32::MIN, i32::MIN, i32::MIN), v(i32::MAX, i32::MAX, i32::MAX)], v(i32::MAX, 0, 0), 1);
    assert_eq!(far, vec![v(i32::MAX, i32::MAX, i32::MAX)]);
}

#[test]
fn dirty_chunks_to_update_takes_the_nearest_25() {
    let dirty: Vec<IVec3> = (0..30).rev().map(|i| v(i, 0, 0)).collect();
    let chosen = dirty_chunks_to_update(dirty, &PlayerChunk { chunk_pos: v(0, 0, 0) });
    let expected: Vec<IVec3> = (0..25).map(|i| v(i, 0, 0)).collect();
    assert_eq!(chosen, expected);
}

#[test]
fn chunks_to_load_lists_missing_positions_in_order() {
    let mut table = CurrentChunks::new();
    table.insert_entity(v(0, 0, 0), 1);
    let view = ViewDistance { horizontal: 1, vertical: 1 };
    let missing = chunks_to_load(&table, &LoadPoint(v(0, 0, 0)), &view);
    assert_eq!(
        missing,
        vec![v(-1, -1, -1), v(-1, -1, 0), v(-1, 0, -1), v(-1, 0, 0), v(0, -1, -1), v(0, -1, 0), v(0, 0, -1)]
    );
    let none = ViewDistance { horizontal: 0, vertical: 3 };
    assert!(chunks_to_load(&table, &LoadPoint(v(0, 0, 0)), &none).is_empty());
}

#[test]
fn chunks_around_skip_sent_and_sort_by_distance() {
    let mut table = CurrentChunks::new();
    table.insert_entity(v(0, 0, 0), 1);
    table.insert_entity(v(-1, 0, 0), 2);
    table.insert_entity(v(-1, -1, -1), 3);
    table.insert_entity(v(5, 5, 5), 4);
    let mut sent = SentChunks::new();
    sent.insert(v(-1, 0, 0));
    assert!(sent.contains(v(-1, 0, 0)));
    let manager = ChunkManager { current_chunks: &table, view_distance: ViewDistance { horizontal: 1, vertical: 1 } };
    assert_eq!(manager.get_chunks_around_chunk(v(0, 0, 0), &sent), vec![v(0, 0, 0), v(-1, -1, -1)]);
    sent.remove(v(-1, 0, 0));
    assert!(!sent.contains(v(-1, 0, 0)));
    assert_eq!(manager.get_chunks_around_chunk(v(0, 0, 0), &sent), vec![v(0, 0, 0), v(-1, 0, 0), v(-1, -1, -1)]);
}

#[test]
fn a_chunk_is_unloaded_when_any_load_point_loses_it() {
    let view = ViewDistance { horizontal: 2, vertical: 2 };
    let points = vec![LoadPoint(v(0, 0, 0)), LoadPoint(v(10, 0, 0))];
    assert!(should_unload(v(1, 0, 0), &points, &view));
    assert!(!should_unload(v(1, 0, 0), &vec![LoadPoint(v(0, 0, 0))], &view));
    assert!(!should_unload(v(1, 0, 0), &Vec::new(), &view));
}

#[test]
fn clients_drop_chunks_out_of_view() {
    let view = ViewDistance { horizontal: 1, vertical: 0 };
    let player = PlayerChunk { chunk_pos: v(0, 0, 0) };
    let positions = vec![v(0, 0, 0), v(0, 1, 0), v(1, 0, -1), v(2, 0, 0)];
    assert_eq!(chunks_out_of_view(&positions, &player, &view), vec![v(0, 1, 0), v(2, 0, 0)]);
}

#[test]
fn unsend_forgets_chunks_out_of_view() {
    let view = ViewDistance { horizontal: 1, vertical: 1 };
    let mut sent = SentChunks::new();
    sent.insert(v(0, 0, 0));
    sent.insert(v(5, 0, 0));
    sent.insert(v(6, 0, 0));
    unsend_chunks(&LoadPoint(v(0, 0, 0)), &mut sent, &vec![v(0, 0, 0), v(5, 0, 0), v(7, 0, 0)], &view);
    assert!(sent.contains(v(0, 0, 0)));
    assert!(!sent.contains(v(5, 0, 0)));
    assert!(sent.contains(v(6, 0, 0)));
}

#[test]
fn receiving_a_chunk_depends_on_view_and_content() {
    let mut table = CurrentChunks::new();
    table.insert_entity(v(1, 0, 0), 42);
    let player = PlayerChunk { chunk_pos: v(0, 0, 0) };
    let view = ViewDistance { horizontal: 2, vertical: 2 };
    let air = RawChunk::new();
    let mut stone = RawChunk::new();
    stone.add_block_state(&"vinoxstone".to_string());
    assert!(vinox::world::is_only_air(&air));
    assert!(!vinox::world::is_only_air(&stone));
    let arrive = |pos: IVec3, chunk: &RawChunk| {
        receive_chunk(&table, &player, &view, &CreateChunkEvent { pos, raw_chunk: chunk.clone() })
    };
    assert_eq!(arrive(v(9, 0, 0), &stone), ChunkArrival::Ignored);
    assert_eq!(arrive(v(1, 0, 0), &stone), ChunkArrival::Replaced { entity: 42, dirty: true });
    assert_eq!(arrive(v(1, 0, 0), &air), ChunkArrival::Replaced { entity: 42, dirty: false });
    assert_eq!(arrive(v(0, 1, 0), &stone), ChunkArrival::Spawned { dirty: true });
}

#[test]
fn an_arriving_chunk_marks_its_loaded_neighbours() {
    let mut table = CurrentChunks::new();
    table.insert_entity(v(1, 0, 0), 42);
    table.insert_entity(v(0, -1, 0), 43);
    table.insert_entity(v(0, 0, 1), 44);
    table.insert_entity(v(1, 1, 0), 45);
    table.insert_entity(v(i32::MAX, 0, 0), 46);
    let pos = v(0, 0, 0);
    let spawned = ChunkArrival::Spawned { dirty: true };
    assert_eq!(arrival_neighbors(&table, pos, &spawned), vec![42, 43, 44]);
    let replaced = ChunkArrival::Replaced { entity: 7, dirty: false };
    assert_eq!(arrival_neighbors(&table, pos, &replaced), vec![42, 43, 44]);
    assert_eq!(arrival_neighbors(&table, pos, &ChunkArrival::Ignored), Vec::<u64>::new());
    assert_eq!(arrival_neighbors(&table, v(i32::MAX, 1, 0), &spawned), vec![46]);
    assert_eq!(arrival_neighbors(&table, v(i32::MAX, 1, 1), &spawned), Vec::<u64>::new());
    assert_eq!(arrival_neighbors(&table, v(i32::MAX - 1, 0, 0), &spawned), vec![46]);
}

#[test]
fn loading_and_sending_settle() {
    let mut table = CurrentChunks::new();
    table.insert_entity(v(0, 0, 0), 1);
    let view = ViewDistance { horizontal: 2, vertical: 1 };
    let point = LoadPoint(v(3, -2, 7));
    let missing = chunks_to_load(&table, &point, &view);
    assert_eq!(missing.len(), 4 * 2 * 4);
    for (i, pos) in missing.iter().enumerate() {
        table.insert_entity(*pos, 100 + i as u64);
    }
    assert!(chunks_to_load(&table, &point, &view).is_empty());
    let mut sent = SentChunks::new();
    let manager = ChunkManager { current_chunks: &table, view_distance: view };
    let around = manager.get_chunks_around_chunk(point.0, &sent);
    assert_eq!(around.len(), 32);
    for pos in around.iter() {
        sent.insert(*pos);
    }
    assert!(manager.get_chunks_around_chunk(point.0, &sent).is_empty());
}

#[test]
fn border_refresh_plan_keeps_unready_chunks_dirty() {
    let mut table = CurrentChunks::new();
    let mut e = 0;
    for x in -1..=1 {
        for y in -1..=1 {
            for z in -1..=1 {
                table.insert_entity(v(x, y, z), e);
                e += 1;
            }
        }
    }
    let player = PlayerChunk { chunk_pos: v(0, 0, 0) };
    let dirty = vec![v(1, 0, 0), v(0, 0, 0), v(7, 7, 7)];
    let plan = plan_border_refresh(&table, &dirty, &player);
    assert_eq!(plan.nearest, vec![v(0, 0, 0), v(1, 0, 0), v(7, 7, 7)]);
    assert_eq!(plan.refresh, vec![v(0, 0, 0)]);
    assert_eq!(plan.keep, vec![v(1, 0, 0), v(7, 7, 7)]);
    let many: Vec<IVec3> = (0..30).map(|i| v(0, 0, 0 + i)).collect();
    let plan = plan_border_refresh(&table, &many, &player);
    assert_eq!(plan.nearest.len(), 25);
    assert_eq!(plan.refresh, vec![v(0, 0, 0)]);
    assert_eq!(plan.keep.len(), 29);
}

#[test]
fn views_fit_only_inside_the_world() {
    let view = ViewDistance { horizontal: 10, vertical: 4 };
    assert!(view_fits(v(0, 0, 0), &view));
    assert!(!view_fits(v(i32::MAX - 3, 0, 0), &view));
    assert!(!view_fits(v(0, i32::MIN + 2, 0), &view));
    assert!(view_fits(v(i32::MAX, 0, 0), &ViewDistance { horizontal: 0, vertical: 4 }));
    assert!(!view_fits(v(0, 0, 0), &ViewDistance { horizontal: i32::MIN, vertical: 4 }));
}

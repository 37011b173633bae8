use vinox::sync::{push_entities, ClientSync, PlayerInfo, ServerMessage, SyncAction, ENTITY_BUFFER_LEN};

#[test]
fn players_are_spawned_mirrored_and_removed() {
    let mut sync = ClientSync::new();
    let create = sync.sync_step(7, ServerMessage::PlayerCreate { id: 7, entity: 100 });
    assert!(matches!(create, SyncAction::Spawn { id: 7, server_entity: 100, local: true }));
    assert_eq!(sync.player(7), None);
    sync.player_spawned(7, 100, 5);
    let other = sync.sync_step(7, ServerMessage::PlayerCreate { id: 8, entity: 101 });
    assert!(matches!(other, SyncAction::Spawn { id: 8, server_entity: 101, local: false }));
    sync.player_spawned(8, 101, 6);
    assert_eq!(sync.player(8), Some(PlayerInfo { server_entity: 101, client_entity: 6 }));
    assert_eq!(sync.local_entity(100), Some(5));
    let removed = sync.sync_step(7, ServerMessage::PlayerRemove { id: 8 });
    assert!(matches!(removed, SyncAction::Despawn { client_entity: 6 }));
    assert_eq!(sync.player(8), None);
    assert_eq!(sync.local_entity(101), None);
    assert_eq!(sync.local_entity(100), Some(5));
    let again = sync.sync_step(7, ServerMessage::PlayerRemove { id: 8 });
    assert!(matches!(again, SyncAction::Nothing));
}

#[test]
fn block_messages_become_block_changes() {
    let mut sync = ClientSync::new();
    let msg = ServerMessage::SentBlock { chunk_pos: [1, -2, 3], voxel_pos: [4, 5, 6], block_type: "vinoxdirt".to_string() };
    match sync.sync_step(1, msg) {
        SyncAction::SetBlock(evt) => {
            assert_eq!((evt.chunk_pos.x, evt.chunk_pos.y, evt.chunk_pos.z), (1, -2, 3));
            assert_eq!((evt.voxel_pos.x, evt.voxel_pos.y, evt.voxel_pos.z), (4, 5, 6));
            assert_eq!(evt.block_type, "vinoxdirt");
        }
        _ => panic!("expected a block change"),
    }
}

#[test]
fn entity_buffer_drops_the_oldest() {
    let mut buffer: Vec<u32> = (0..ENTITY_BUFFER_LEN as u32).collect();
    push_entities(&mut buffer, 99);
    assert_eq!(buffer.len(), 30);
    assert_eq!(buffer[0], 1);
    assert_eq!(buffer[28], 29);
    assert_eq!(buffer[29], 99);
}

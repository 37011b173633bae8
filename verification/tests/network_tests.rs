use vinox::math::{IVec3, UVec3};
use vinox::network::{
    choose_chunks, client_connection_config, compress, decompress, level_data_channel,
    pack_level_data, pick_by_indices, sent_block_event, server_connection_config,
    unpack_level_data, ChannelKind, ClientChannel, CompressionError, ServerChannel,
    PROTOCOL_ID, RELIABLE_CHANNEL_MAX_LENGTH,
};

fn noise_bytes(n: usize, seed: u64) -> Vec<u8> {
    let mut state = seed;
    (0..n)
        .map(|_| {
            state = state.wrapping_mul(6364136223846793005).wrapping_add(1442695040888963407);
            (state >> 33) as u8
        })
        .collect()
}

#[test]
fn channel_numbers() {
    assert_eq!(u8::from(ClientChannel::Position), 0);
    assert_eq!(u8::from(ClientChannel::Commands), 1);
    assert_eq!(u8::from(ServerChannel::NetworkedEntities), 0);
    assert_eq!(u8::from(ServerChannel::ServerMessages), 1);
    assert_eq!(u8::from(ServerChannel::LevelDataLarge), 2);
    assert_eq!(u8::from(ServerChannel::LevelDataSmall), 3);
    assert_eq!(PROTOCOL_ID, 7);
    assert_eq!(RELIABLE_CHANNEL_MAX_LENGTH, 10240);
}

#[test]
fn channel_settings() {
    let client = ClientChannel::channels_config();
    assert_eq!(client.len(), 2);
    assert_eq!(client[0].channel_id, 0);
    assert_eq!(client[0].kind, ChannelKind::Unreliable { sequenced: true });
    assert_eq!(client[0].message_send_queue_size, Some(2048));
    assert_eq!(client[1].kind, ChannelKind::Reliable);
    assert_eq!(client[1].message_resend_time_ms, Some(0));
    let server = ServerChannel::channels_config();
    assert_eq!(server.len(), 4);
    assert_eq!(server.iter().map(|c| c.channel_id).collect::<Vec<_>>(), vec![0, 1, 2, 3]);
    assert_eq!(server[1].message_resend_time_ms, Some(100));
    assert_eq!(server[2].kind, ChannelKind::Chunk);
    assert_eq!(server[2].message_send_queue_size, Some(700));
    assert_eq!(server[3].max_message_size, Some(10240));
    assert_eq!(server[3].packet_budget, Some(20480));
    assert_eq!(server[3].message_receive_queue_size, Some(30720));
    let c = client_connection_config();
    assert_eq!(c.max_packet_size, 40960);
    assert_eq!(c.send_channels_config, client);
    assert_eq!(c.receive_channels_config, server);
    let s = server_connection_config();
    assert_eq!(s.send_channels_config, server);
    assert_eq!(s.receive_channels_config, client);
}

#[test]
fn compression_round_trip() {
    let data: Vec<u8> = b"vinoxstone vinoxstone vinoxstone vinoxstone vinoxstone".to_vec();
    let frame = compress(&data).unwrap();
    assert_ne!(frame, data);
    assert_eq!(&frame[0..4], &[0x28, 0xb5, 0x2f, 0xfd]);
    assert_eq!(decompress(&frame).unwrap(), data);
    let empty = compress(&Vec::new()).unwrap();
    assert_eq!(decompress(&empty).unwrap(), Vec::<u8>::new());
}

#[test]
fn decompress_rejects_garbage() {
    assert_eq!(decompress(&b"not a frame".to_vec()), Err(CompressionError::Failed));
    assert_eq!(unpack_level_data(&b"not a frame".to_vec()), None);
}

#[test]
fn level_data_takes_the_channel_its_size_allows() {
    assert_eq!(level_data_channel(10240), ServerChannel::LevelDataSmall);
    assert_eq!(level_data_channel(10241), ServerChannel::LevelDataLarge);
    let small = vec![7u8; 50000];
    let (channel, bytes) = pack_level_data(&small).unwrap();
    assert_eq!(channel, ServerChannel::LevelDataSmall);
    assert!(bytes.len() <= 10240);
    assert_eq!(unpack_level_data(&bytes).unwrap(), small);
    let noisy = noise_bytes(20000, 9);
    let (channel, bytes) = pack_level_data(&noisy).unwrap();
    assert_eq!(channel, ServerChannel::LevelDataLarge);
    assert!(bytes.len() > 10240);
    assert_eq!(unpack_level_data(&bytes).unwrap(), noisy);
}

#[test]
fn choosing_chunks_never_repeats() {
    let candidates: Vec<IVec3> = (0..15).map(|i| IVec3::new(i, 0, 0)).collect();
    let chosen = choose_chunks(&candidates, 10);
    assert_eq!(chosen.len(), 10);
    for (i, a) in chosen.iter().enumerate() {
        assert!(candidates.contains(a));
        assert!(!chosen[i + 1..].contains(a));
    }
    let few: Vec<IVec3> = (0..3).map(|i| IVec3::new(0, i, 0)).collect();
    let mut all = choose_chunks(&few, 10);
    all.sort_by_key(|p| p.y);
    assert_eq!(all, few);
    assert!(choose_chunks(&Vec::new(), 10).is_empty());
}

#[test]
fn picking_by_indices() {
    let candidates = vec![IVec3::new(1, 0, 0), IVec3::new(2, 0, 0), IVec3::new(3, 0, 0)];
    assert_eq!(
        pick_by_indices(&candidates, &vec![2, 0]),
        vec![IVec3::new(3, 0, 0), IVec3::new(1, 0, 0)]
    );
}

#[test]
fn block_messages_become_events() {
    let event = sent_block_event([-1, 2, 3], [4, 5, 32], "vinoxdirt".to_string());
    assert_eq!(event.chunk_pos, IVec3::new(-1, 2, 3));
    assert_eq!(event.voxel_pos, UVec3::new(4, 5, 32));
    assert_eq!(event.block_type, "vinoxdirt");
}

use vstd::prelude::*;

use crate::chunk::RawChunk;
use crate::math::{IVec3, UVec3};
use crate::world::SetBlockEvent;

verus! {

/// The protocol identifier that clients and servers share.
pub const PROTOCOL_ID: u64 = 7;

/// The largest message, in bytes, sent on the small reliable level data channel.
pub const RELIABLE_CHANNEL_MAX_LENGTH: u64 = 10240;

/// The channels a client sends on.
#[derive(Clone, Copy, Debug, PartialEq, Eq, Structural)]
pub enum ClientChannel {
    Position,
    Commands,
}

/// The channels a server sends on.
#[derive(Clone, Copy, Debug, PartialEq, Eq, Structural)]
pub enum ServerChannel {
    ServerMessages,
    NetworkedEntities,
    LevelDataSmall,
    LevelDataLarge,
}

/// The channel number of a client channel.
pub open spec fn client_channel_id(channel: ClientChannel) -> u8 {
    match channel {
        ClientChannel::Position => 0,
        ClientChannel::Commands => 1,
    }
}

/// The channel number of a server channel.
pub open spec fn server_channel_id(channel: ServerChannel) -> u8 {
    match channel {
        ServerChannel::NetworkedEntities => 0,
        ServerChannel::ServerMessages => 1,
        ServerChannel::LevelDataLarge => 2,
        ServerChannel::LevelDataSmall => 3,
    }
}

impl From<ClientChannel> for u8 {
    fn from(channel_id: ClientChannel) -> (r: u8) {
        match channel_id {
            ClientChannel::Position => 0,
            ClientChannel::Commands => 1,
        }
    }
}

impl vstd::std_specs::convert::FromSpecImpl<ClientChannel> for u8 {
    open spec fn obeys_from_spec() -> bool {
        true
    }

    open spec fn from_spec(v: ClientChannel) -> u8 {
        client_channel_id(v)
    }
}

impl From<ServerChannel> for u8 {
    fn from(channel_id: ServerChannel) -> (r: u8) {
        match channel_id {
            ServerChannel::NetworkedEntities => 0,
            ServerChannel::ServerMessages => 1,
            ServerChannel::LevelDataLarge => 2,
            ServerChannel::LevelDataSmall => 3,
        }
    }
}

impl vstd::std_specs::convert::FromSpecImpl<ServerChannel> for u8 {
    open spec fn obeys_from_spec() -> bool {
        true
    }

    open spec fn from_spec(v: ServerChannel) -> u8 {
        server_channel_id(v)
    }
}

/// How a channel delivers its messages.
#[derive(Clone, Copy, Debug, PartialEq, Eq, Structural)]
pub enum ChannelKind {
    /// Messages may be lost; when `sequenced`, an older message arriving after a newer one is dropped.
    Unreliable { sequenced: bool },
    /// Messages are resent until acknowledged.
    Reliable,
    /// Large messages, cut into slices that are resent until acknowledged.
    Chunk,
}

/// The settings of one channel; a field left `None` takes the transport's default.
#[derive(Clone, Copy, Debug, PartialEq, Eq, Structural)]
pub struct ChannelSettings {
    pub channel_id: u8,
    pub kind: ChannelKind,
    pub message_send_queue_size: Option<usize>,
    pub message_receive_queue_size: Option<usize>,
    pub message_resend_time_ms: Option<u64>,
    pub max_message_size: Option<u64>,
    pub packet_budget: Option<u64>,
}

/// Settings with every optional field at the transport's default.
pub open spec fn plain_settings(channel_id: u8, kind: ChannelKind) -> ChannelSettings {
    ChannelSettings {
        channel_id,
        kind,
        message_send_queue_size: None,
        message_receive_queue_size: None,
        message_resend_time_ms: None,
        max_message_size: None,
        packet_budget: None,
    }
}

/// The channels clients send on: sequenced positions, and reliable commands resent at once.
pub open spec fn client_channels() -> Seq<ChannelSettings> {
    seq![
        ChannelSettings {
            message_send_queue_size: Some(2048usize),
            message_receive_queue_size: Some(2048usize),
            ..plain_settings(0, ChannelKind::Unreliable { sequenced: true })
        },
        ChannelSettings {
            message_resend_time_ms: Some(0u64),
            ..plain_settings(1, ChannelKind::Reliable)
        },
    ]
}

/// The channels servers send on: sequenced entity updates, reliable messages resent after
/// 100 ms, large level data in slices, and small level data of at most
/// `RELIABLE_CHANNEL_MAX_LENGTH` bytes.
pub open spec fn server_channels() -> Seq<ChannelSettings> {
    seq![
        ChannelSettings {
            message_send_queue_size: Some(2048usize),
            message_receive_queue_size: Some(2048usize),
            ..plain_settings(0, ChannelKind::Unreliable { sequenced: true })
        },
        ChannelSettings {
            message_resend_time_ms: Some(100u64),
            ..plain_settings(1, ChannelKind::Reliable)
        },
        ChannelSettings { message_send_queue_size: Some(700usize), ..plain_settings(2, ChannelKind::Chunk) },
        ChannelSettings {
            message_resend_time_ms: Some(0u64),
            max_message_size: Some(10240u64),
            packet_budget: Some(20480u64),
            message_send_queue_size: Some(30720usize),
            message_receive_queue_size: Some(30720usize),
            ..plain_settings(3, ChannelKind::Reliable)
        },
    ]
}

fn settings(channel_id: u8, kind: ChannelKind) -> (r: ChannelSettings)
    ensures
        r == plain_settings(channel_id, kind),
{
    ChannelSettings {
        channel_id,
        kind,
        message_send_queue_size: None,
        message_receive_queue_size: None,
        message_resend_time_ms: None,
        max_message_size: None,
        packet_budget: None,
    }
}

impl ClientChannel {
    /// The settings of the channels clients send on.
    pub fn channels_config() -> (r: Vec<ChannelSettings>)
        ensures
            r@ == client_channels(),
    {
        let mut position = settings(
            ClientChannel::Position.into(),
            ChannelKind::Unreliable { sequenced: true },
        );
        position.message_send_queue_size = Some(2048);
        position.message_receive_queue_size = Some(2048);
        let mut commands = settings(ClientChannel::Commands.into(), ChannelKind::Reliable);
        commands.message_resend_time_ms = Some(0);
        let r = vec![position, commands];
        assert(r@ =~= client_channels());
        r
    }
}

impl ServerChannel {
    /// The settings of the channels servers send on.
    pub fn channels_config() -> (r: Vec<ChannelSettings>)
        ensures
            r@ == server_channels(),
    {
        let mut entities = settings(
            ServerChannel::NetworkedEntities.into(),
            ChannelKind::Unreliable { sequenced: true },
        );
        entities.message_send_queue_size = Some(2048);
        entities.message_receive_queue_size = Some(2048);
        let mut messages = settings(ServerChannel::ServerMessages.into(), ChannelKind::Reliable);
        messages.message_resend_time_ms = Some(100);
        let mut large = settings(ServerChannel::LevelDataLarge.into(), ChannelKind::Chunk);
        large.message_send_queue_size = Some(700);
        let mut small = settings(ServerChannel::LevelDataSmall.into(), ChannelKind::Reliable);
        small.message_resend_time_ms = Some(0);
        small.max_message_size = Some(RELIABLE_CHANNEL_MAX_LENGTH);
        small.packet_budget = Some(RELIABLE_CHANNEL_MAX_LENGTH * 2);
        small.message_send_queue_size = Some((RELIABLE_CHANNEL_MAX_LENGTH * 3) as usize);
        small.message_receive_queue_size = Some((RELIABLE_CHANNEL_MAX_LENGTH * 3) as usize);
        let r = vec![entities, messages, large, small];
        assert(r@ =~= server_channels());
        r
    }
}

/// The settings of one side of a connection.
#[derive(Clone, Debug)]
pub struct ConnectionSettings {
    pub send_channels_config: Vec<ChannelSettings>,
    pub receive_channels_config: Vec<ChannelSettings>,
    pub max_packet_size: u64,
}

/// A client sends on the client channels and receives on the server channels.
pub fn client_connection_config() -> (r: ConnectionSettings)
    ensures
        r.send_channels_config@ == client_channels(),
        r.receive_channels_config@ == server_channels(),
        r.max_packet_size == RELIABLE_CHANNEL_MAX_LENGTH * 4,
{
    ConnectionSettings {
        send_channels_config: ClientChannel::channels_config(),
        receive_channels_config: ServerChannel::channels_config(),
        max_packet_size: RELIABLE_CHANNEL_MAX_LENGTH * 4,
    }
}

/// A server sends on the server channels and receives on the client channels.
pub fn server_connection_config() -> (r: ConnectionSettings)
    ensures
        r.send_channels_config@ == server_channels(),
        r.receive_channels_config@ == client_channels(),
        r.max_packet_size == RELIABLE_CHANNEL_MAX_LENGTH * 4,
{
    ConnectionSettings {
        send_channels_config: ServerChannel::channels_config(),
        receive_channels_config: ClientChannel::channels_config(),
        max_packet_size: RELIABLE_CHANNEL_MAX_LENGTH * 4,
    }
}

/// Why compressed data could not be made or read.
#[derive(Clone, Copy, Debug, PartialEq, Eq, Structural)]
pub enum CompressionError {
    /// The zstd stream could not be written, or the bytes are no zstd stream.
    Failed,
}

#[verifier::external_type_specification]
#[verifier::external_body]
pub struct ExIoError(std::io::Error);

/// The zstd frame that `zstd::stream::copy_encode` writes for `data` at compression level
/// `level`.
pub uninterp spec fn zstd_frame(data: Seq<u8>, level: i32) -> Seq<u8>;

/// The bytes that `zstd::stream::copy_decode` reads out of `frame`.
pub uninterp spec fn zstd_decoded(frame: Seq<u8>) -> Seq<u8>;

/// Calls `zstd::stream::copy_encode` to compress `data` at `level` into a new buffer.
/// Trusted: on success the buffer is the frame that the crate writes for these bytes and
/// this level, named `zstd_frame`. At level 0 (zstd's default) the encoder accepts the
/// level, reads from a byte slice and writes into a `Vec`, none of which can fail, so the
/// call succeeds; nothing is claimed of the frame's shape.
#[verifier::external_body]
fn zstd_copy_encode(data: &[u8], level: i32) -> (r: Result<Vec<u8>, std::io::Error>)
    ensures
        r matches Ok(v) ==> v@ == zstd_frame(data@, level),
        level == 0 ==> r is Ok,
{
    let mut output: Vec<u8> = Vec::new();
    match zstd::stream::copy_encode(data, &mut output, level) {
        Ok(()) => Ok(output),
        Err(e) => Err(e),
    }
}

/// Calls `zstd::stream::copy_decode` to decompress `frame` into a new buffer.
/// Trusted: on success the buffer is what the crate reads out of these bytes, named
/// `zstd_decoded`; and since zstd is lossless, a frame that `copy_encode` wrote for some
/// bytes at the default level decodes without error to exactly those bytes.
#[verifier::external_body]
fn zstd_copy_decode(frame: &[u8]) -> (r: Result<Vec<u8>, std::io::Error>)
    ensures
        r matches Ok(v) ==> v@ == zstd_decoded(frame@),
        r matches Ok(v) ==> forall|data: Seq<u8>| frame@ == #[trigger] zstd_frame(data, 0) ==> v@ == data,
        r is Err ==> forall|data: Seq<u8>| frame@ != #[trigger] zstd_frame(data, 0),
{
    let mut output: Vec<u8> = Vec::new();
    match zstd::stream::copy_decode(frame, &mut output) {
        Ok(()) => Ok(output),
        Err(e) => Err(e),
    }
}

/// Compresses `data` with zstd at its default level (level 0), as chunks are stored and sent.
/// It always succeeds, with the frame that zstd writes for these bytes at that level.
pub fn compress(data: &Vec<u8>) -> (r: Result<Vec<u8>, CompressionError>)
    ensures
        r is Ok,
        r matches Ok(v) ==> v@ == zstd_frame(data@, 0),
{
    match zstd_copy_encode(data.as_slice(), 0) {
        Ok(v) => Ok(v),
        Err(_) => Err(CompressionError::Failed),
    }
}

/// Decompresses a zstd frame; a frame that `compress` made gives back the data it was made of.
pub fn decompress(frame: &Vec<u8>) -> (r: Result<Vec<u8>, CompressionError>)
    ensures
        r matches Ok(v) ==> v@ == zstd_decoded(frame@),
        forall|data: Seq<u8>| frame@ == #[trigger] zstd_frame(data, 0) ==> (r matches Ok(v) && v@ == data),
{
    match zstd_copy_decode(frame.as_slice()) {
        Ok(v) => Ok(v),
        Err(_) => Err(CompressionError::Failed),
    }
}

/// The channel compressed level data of `len` bytes travels on: the small reliable channel
/// when it fits `RELIABLE_CHANNEL_MAX_LENGTH`, the sliced channel otherwise.
pub open spec fn level_data_channel_for(len: int) -> ServerChannel {
    if len <= RELIABLE_CHANNEL_MAX_LENGTH {
        ServerChannel::LevelDataSmall
    } else {
        ServerChannel::LevelDataLarge
    }
}

/// The channel for compressed level data of `len` bytes.
pub fn level_data_channel(len: usize) -> (r: ServerChannel)
    ensures
        r == level_data_channel_for(len as int),
{
    if len as u64 <= RELIABLE_CHANNEL_MAX_LENGTH {
        ServerChannel::LevelDataSmall
    } else {
        ServerChannel::LevelDataLarge
    }
}

/// Level data routed to the small channel never exceeds that channel's largest message.
pub proof fn lemma_small_channel_fits(len: int)
    requires
        level_data_channel_for(len) == ServerChannel::LevelDataSmall,
    ensures
        server_channels()[3].channel_id == server_channel_id(ServerChannel::LevelDataSmall),
        server_channels()[3].max_message_size matches Some(m) && len <= m,
{
}

/// Compresses a serialized level data message and picks the channel it travels on; the
/// message always compresses, so the result is always `Some`.
pub fn pack_level_data(message: &Vec<u8>) -> (r: Option<(ServerChannel, Vec<u8>)>)
    ensures
        r is Some,
        r matches Some((channel, bytes)) ==> {
            &&& bytes@ == zstd_frame(message@, 0)
            &&& channel == level_data_channel_for(bytes@.len() as int)
        },
{
    match compress(message) {
        Ok(bytes) => {
            let channel = level_data_channel(bytes.len());
            Some((channel, bytes))
        },
        Err(_) => None,
    }
}

/// The serialized level data message inside a received frame; `None` when the bytes are no
/// zstd frame.
pub fn unpack_level_data(frame: &Vec<u8>) -> (r: Option<Vec<u8>>)
    ensures
        r matches Some(v) ==> v@ == zstd_decoded(frame@),
        forall|data: Seq<u8>| frame@ == #[trigger] zstd_frame(data, 0) ==> (r matches Some(v) && v@ == data),
{
    match decompress(frame) {
        Ok(v) => Some(v),
        Err(_) => None,
    }
}

/// Chunk data that a server sends to a client.
#[derive(Debug)]
pub enum LevelData {
    ChunkCreate { chunk_data: RawChunk, pos: [i32; 3] },
}

/// Requests that a client sends to a server.
#[derive(Debug, Clone)]
pub enum Commands {
    Interact { entity: u64, attack: bool },
    SentBlock { chunk_pos: [i32; 3], voxel_pos: [u8; 3], block_type: String },
}

/// The block change that a received block message describes.
pub fn sent_block_event(chunk_pos: [i32; 3], voxel_pos: [u8; 3], block_type: String) -> (r: SetBlockEvent)
    ensures
        r.chunk_pos == (IVec3 { x: chunk_pos[0], y: chunk_pos[1], z: chunk_pos[2] }),
        r.voxel_pos == (UVec3 { x: voxel_pos[0] as u32, y: voxel_pos[1] as u32, z: voxel_pos[2] as u32 }),
        r.block_type@ == block_type@,
{
    SetBlockEvent {
        chunk_pos: IVec3::new(chunk_pos[0], chunk_pos[1], chunk_pos[2]),
        voxel_pos: UVec3::new(voxel_pos[0] as u32, voxel_pos[1] as u32, voxel_pos[2] as u32),
        block_type,
    }
}

/// Calls `rand::seq::index::sample` with the thread's generator. Trusted: the result holds
/// exactly `amount` distinct indices below `length`, in an order and a choice that rest on
/// chance; the crate panics when `amount` exceeds `length`, which `requires` leaves out.
#[verifier::external_body]
fn sample_indices(length: usize, amount: usize) -> (r: Vec<usize>)
    requires
        amount <= length,
    ensures
        r@.len() == amount,
        r@.no_duplicates(),
        forall|k: int| 0 <= k < r@.len() ==> #[trigger] r@[k] < length,
{
    rand::seq::index::sample(&mut rand::thread_rng(), length, amount).into_vec()
}

/// The entries of `candidates` at `indices`, in the order of `indices`.
pub fn pick_by_indices(candidates: &Vec<IVec3>, indices: &Vec<usize>) -> (r: Vec<IVec3>)
    requires
        forall|k: int| 0 <= k < indices@.len() ==> #[trigger] indices@[k] < candidates@.len(),
    ensures
        r@.len() == indices@.len(),
        forall|k: int| 0 <= k < indices@.len() ==> #[trigger] r@[k] == candidates@[indices@[k] as int],
{
    let mut r: Vec<IVec3> = Vec::new();
    let mut k: usize = 0;
    while k < indices.len()
        invariant
            k <= indices@.len(),
            forall|j: int| 0 <= j < indices@.len() ==> #[trigger] indices@[j] < candidates@.len(),
            r@.len() == k,
            forall|j: int| 0 <= j < k ==> #[trigger] r@[j] == candidates@[indices@[j] as int],
        decreases indices@.len() - k,
    {
        r.push(candidates[indices[k]]);
        k = k + 1;
    }
    r
}

/// Up to `amount` of `candidates`, picked at random without picking an entry twice: as many
/// as `amount`, or all of them when there are fewer.
pub fn choose_chunks(candidates: &Vec<IVec3>, amount: usize) -> (r: Vec<IVec3>)
    ensures
        r@.len() == (if amount < candidates@.len() {
            amount as int
        } else {
            candidates@.len() as int
        }),
        exists|indices: Seq<usize>|
            {
                &&& indices.no_duplicates()
                &&& indices.len() == r@.len()
                &&& forall|k: int|
                    0 <= k < indices.len() ==> #[trigger] indices[k] < candidates@.len()
                        && r@[k] == candidates@[indices[k] as int]
            },
{
    let n = candidates.len();
    let take = if amount < n {
        amount
    } else {
        n
    };
    let indices = sample_indices(n, take);
    let r = pick_by_indices(candidates, &indices);
    assert(forall|k: int|
        0 <= k < indices@.len() ==> #[trigger] indices@[k] < candidates@.len() && r@[k]
            == candidates@[indices@[k] as int]);
    r
}

/// Each channel's settings carry the number of that channel, and within one direction no
/// two channels share a number.
pub proof fn lemma_channel_ids()
    ensures
        client_channels()[0].channel_id == client_channel_id(ClientChannel::Position),
        client_channels()[1].channel_id == client_channel_id(ClientChannel::Commands),
        server_channels()[0].channel_id == server_channel_id(ServerChannel::NetworkedEntities),
        server_channels()[1].channel_id == server_channel_id(ServerChannel::ServerMessages),
        server_channels()[2].channel_id == server_channel_id(ServerChannel::LevelDataLarge),
        server_channels()[3].channel_id == server_channel_id(ServerChannel::LevelDataSmall),
        forall|a: ClientChannel, b: ClientChannel| a != b ==> client_channel_id(a) != client_channel_id(b),
        forall|a: ServerChannel, b: ServerChannel| a != b ==> server_channel_id(a) != server_channel_id(b),
{
}

} // verus!

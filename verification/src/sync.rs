//! The client's side of player and block syncing: which server players are known, which
//! local entity stands for which server entity, and the buffer of recent entity snapshots.
use vstd::prelude::*;

use std::collections::HashMap;

use crate::network::sent_block_event;
use crate::world::SetBlockEvent;

verus! {

broadcast use vstd::std_specs::hash::group_hash_axioms;

/// Number of entity snapshots a client keeps, oldest first.
pub const ENTITY_BUFFER_LEN: usize = 30;

/// A player known to the client: its entity on the server and the entity standing for it here.
#[derive(Clone, Copy, Debug, PartialEq, Eq, Structural)]
pub struct PlayerInfo {
    pub server_entity: u64,
    pub client_entity: u64,
}

/// A message from the server on the channel for game messages; player positions and
/// rotations travel beside it and are applied by the caller.
#[derive(Clone, Debug)]
pub enum ServerMessage {
    PlayerCreate { id: u64, entity: u64 },
    PlayerRemove { id: u64 },
    SentBlock { chunk_pos: [i32; 3], voxel_pos: [u8; 3], block_type: String },
}

/// What the client does for a server message.
#[derive(Clone, Debug)]
pub enum SyncAction {
    /// Spawn an entity for player `id`, whose server entity is `server_entity`; `local` when
    /// it is this client's own player. Report the new entity with `player_spawned`.
    Spawn { id: u64, server_entity: u64, local: bool },
    /// Despawn the entity that stood for a player who left.
    Despawn { client_entity: u64 },
    /// Apply a block change.
    SetBlock(SetBlockEvent),
    /// Nothing to do.
    Nothing,
}

/// The client's record of the players it knows and of the server entities it mirrors.
pub struct ClientSync {
    players: HashMap<u64, PlayerInfo>,
    mapping: HashMap<u64, u64>,
}

/// The action for `msg` when this client is `client_id` and knows `players`.
pub open spec fn message_action(players: Map<u64, PlayerInfo>, client_id: u64, msg: ServerMessage) -> SyncAction {
    match msg {
        ServerMessage::PlayerCreate { id, entity } => SyncAction::Spawn {
            id,
            server_entity: entity,
            local: id == client_id,
        },
        ServerMessage::PlayerRemove { id } => if players.contains_key(id) {
            SyncAction::Despawn { client_entity: players[id].client_entity }
        } else {
            SyncAction::Nothing
        },
        ServerMessage::SentBlock { .. } => SyncAction::Nothing,
    }
}

impl ClientSync {
    /// The known players, by player id.
    pub closed spec fn players(&self) -> Map<u64, PlayerInfo> {
        self.players@
    }

    /// The local entity of each mirrored server entity.
    pub closed spec fn mapping(&self) -> Map<u64, u64> {
        self.mapping@
    }

    /// No player is known and no entity is mirrored.
    pub fn new() -> (r: ClientSync)
        ensures
            r.players() == Map::<u64, PlayerInfo>::empty(),
            r.mapping() == Map::<u64, u64>::empty(),
    {
        ClientSync { players: HashMap::new(), mapping: HashMap::new() }
    }

    /// The information kept for player `id`, if the player is known.
    pub fn player(&self, id: u64) -> (r: Option<PlayerInfo>)
        ensures
            r == (if self.players().contains_key(id) {
                Some(self.players()[id])
            } else {
                None
            }),
    {
        match self.players.get(&id) {
            Some(p) => Some(*p),
            None => None,
        }
    }

    /// The local entity that stands for `server_entity`, if it is mirrored.
    pub fn local_entity(&self, server_entity: u64) -> (r: Option<u64>)
        ensures
            r == (if self.mapping().contains_key(server_entity) {
                Some(self.mapping()[server_entity])
            } else {
                None
            }),
    {
        match self.mapping.get(&server_entity) {
            Some(e) => Some(*e),
            None => None,
        }
    }

    /// Records that player `id`, whose server entity is `server_entity`, is now stood for by
    /// the local entity `client_entity`.
    pub fn player_spawned(&mut self, id: u64, server_entity: u64, client_entity: u64)
        ensures
            final(self).players() == old(self).players().insert(
                id,
                (PlayerInfo { server_entity, client_entity }),
            ),
            final(self).mapping() == old(self).mapping().insert(server_entity, client_entity),
    {
        self.players.insert(id, PlayerInfo { server_entity, client_entity });
        self.mapping.insert(server_entity, client_entity);
    }

    /// Handles one game message for client `client_id`. A new player is to be spawned and
    /// then reported with `player_spawned`; a player who left is forgotten, together with the
    /// mirror of its server entity, and its local entity is to be despawned; a block message
    /// becomes the block change it describes.
    pub fn sync_step(&mut self, client_id: u64, msg: ServerMessage) -> (r: SyncAction)
        ensures
            (match msg {
                ServerMessage::SentBlock { chunk_pos, voxel_pos, block_type } => {
                    &&& r matches SyncAction::SetBlock(evt)
                    &&& evt.chunk_pos.x == chunk_pos[0] && evt.chunk_pos.y == chunk_pos[1]
                        && evt.chunk_pos.z == chunk_pos[2]
                    &&& evt.voxel_pos.x == voxel_pos[0] && evt.voxel_pos.y == voxel_pos[1]
                        && evt.voxel_pos.z == voxel_pos[2]
                    &&& evt.block_type@ == block_type@
                },
                _ => r == message_action(old(self).players(), client_id, msg),
            }),
            (match msg {
                ServerMessage::PlayerRemove { id } => if old(self).players().contains_key(id) {
                    &&& final(self).players() == old(self).players().remove(id)
                    &&& final(self).mapping() == old(self).mapping().remove(
                        old(self).players()[id].server_entity,
                    )
                } else {
                    final(self).players() == old(self).players() && final(self).mapping() == old(self).mapping()
                },
                _ => final(self).players() == old(self).players() && final(self).mapping() == old(self).mapping(),
            }),
    {
        match msg {
            ServerMessage::PlayerCreate { id, entity } => SyncAction::Spawn {
                id,
                server_entity: entity,
                local: id == client_id,
            },
            ServerMessage::PlayerRemove { id } => match self.players.remove(&id) {
                Some(info) => {
                    self.mapping.remove(&info.server_entity);
                    SyncAction::Despawn { client_entity: info.client_entity }
                },
                None => SyncAction::Nothing,
            },
            ServerMessage::SentBlock { chunk_pos, voxel_pos, block_type } => SyncAction::SetBlock(
                sent_block_event(chunk_pos, voxel_pos, block_type),
            ),
        }
    }
}

/// Stores the newest entity snapshot: the oldest one leaves the front of the buffer and
/// `snapshot` takes the last slot, so the buffer keeps its length.
pub fn push_entities<T>(buffer: &mut Vec<T>, snapshot: T)
    requires
        old(buffer)@.len() >= 1,
    ensures
        final(buffer)@ == old(buffer)@.drop_first().push(snapshot),
{
    buffer.remove(0);
    buffer.push(snapshot);
}

/// A player who was reported spawned and then left is despawned by the entity reported for
/// it, and the client then knows neither the player nor the mirror of its server entity.
pub proof fn lemma_spawn_then_remove(
    before: ClientSync,
    spawned: ClientSync,
    removed: ClientSync,
    id: u64,
    server_entity: u64,
    client_entity: u64,
)
    requires
        spawned.players() == before.players().insert(id, (PlayerInfo { server_entity, client_entity })),
        spawned.mapping() == before.mapping().insert(server_entity, client_entity),
        removed.players() == spawned.players().remove(id),
        removed.mapping() == spawned.mapping().remove(spawned.players()[id].server_entity),
    ensures
        message_action(spawned.players(), 0, ServerMessage::PlayerRemove { id })
            == (SyncAction::Despawn { client_entity }),
        !removed.players().contains_key(id),
        !removed.mapping().contains_key(server_entity),
        !before.players().contains_key(id) ==> removed.players() == before.players(),
        !before.mapping().contains_key(server_entity) ==> removed.mapping() == before.mapping(),
{
    if !before.players().contains_key(id) {
        assert(removed.players() =~= before.players());
    }
    if !before.mapping().contains_key(server_entity) {
        assert(removed.mapping() =~= before.mapping());
    }
}

} // verus!

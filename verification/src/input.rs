use vstd::prelude::*;

use crate::chunk::{RawChunk, pos_index};
use crate::math::{IVec3, UVec3};
use crate::network::Commands;
use crate::palette::air_name;
use crate::world::{CurrentChunks, block_placed, dirty_chunks_of, dirty_entities, place_block};

verus! {

/// The block a player places.
#[derive(Clone, Copy, Debug, PartialEq, Eq, Structural)]
pub enum CurrentItem {
    Grass,
    Dirt,
    Greybrick,
    Moss,
    Wood,
    Concrete,
    Cobblestone,
    Glass,
}

impl Default for CurrentItem {
    fn default() -> (r: CurrentItem)
        ensures
            r == CurrentItem::Greybrick,
    {
        CurrentItem::Greybrick
    }
}

/// The name of the block state that `item` places.
pub open spec fn item_name(item: CurrentItem) -> Seq<char> {
    match item {
        CurrentItem::Grass => "vinoxgrass"@,
        CurrentItem::Dirt => "vinoxdirt"@,
        CurrentItem::Concrete => "vinoxconcrete"@,
        CurrentItem::Cobblestone => "vinoxcobblestone"@,
        CurrentItem::Moss => "vinoxmoss"@,
        CurrentItem::Wood => "vinoxwood"@,
        CurrentItem::Greybrick => "vinoxgreybrick"@,
        CurrentItem::Glass => "vinoxglass"@,
    }
}

impl CurrentItem {
    /// The name of the block state this item places.
    pub fn block_name(&self) -> (r: &'static str)
        ensures
            r@ == item_name(*self),
    {
        match self {
            CurrentItem::Grass => "vinoxgrass",
            CurrentItem::Dirt => "vinoxdirt",
            CurrentItem::Concrete => "vinoxconcrete",
            CurrentItem::Cobblestone => "vinoxcobblestone",
            CurrentItem::Moss => "vinoxmoss",
            CurrentItem::Wood => "vinoxwood",
            CurrentItem::Greybrick => "vinoxgreybrick",
            CurrentItem::Glass => "vinoxglass",
        }
    }
}

/// The item that number key `key` selects: keys 1 to 8 pick dirt, grass, concrete,
/// cobblestone, moss, wood, grey brick and glass; other keys pick nothing.
pub open spec fn item_for_key(key: u8) -> Option<CurrentItem> {
    if key == 1 {
        Some(CurrentItem::Dirt)
    } else if key == 2 {
        Some(CurrentItem::Grass)
    } else if key == 3 {
        Some(CurrentItem::Concrete)
    } else if key == 4 {
        Some(CurrentItem::Cobblestone)
    } else if key == 5 {
        Some(CurrentItem::Moss)
    } else if key == 6 {
        Some(CurrentItem::Wood)
    } else if key == 7 {
        Some(CurrentItem::Greybrick)
    } else if key == 8 {
        Some(CurrentItem::Glass)
    } else {
        None
    }
}

/// The item held after the number keys `keys` were pressed in order: the last key that
/// selects an item wins, and without one the item stays `current`.
pub open spec fn selected_item(current: CurrentItem, keys: Seq<u8>) -> CurrentItem
    decreases keys.len(),
{
    if keys.len() == 0 {
        current
    } else {
        match item_for_key(keys.last()) {
            Some(item) => item,
            None => selected_item(current, keys.drop_last()),
        }
    }
}

/// The item held after the number keys `keys` were pressed in order.
pub fn select_item(current: CurrentItem, keys: &Vec<u8>) -> (r: CurrentItem)
    ensures
        r == selected_item(current, keys@),
{
    let mut item = current;
    let mut i: usize = 0;
    while i < keys.len()
        invariant
            i <= keys@.len(),
            item == selected_item(current, keys@.subrange(0, i as int)),
        decreases keys@.len() - i,
    {
        assert(keys@.subrange(0, i + 1).drop_last() =~= keys@.subrange(0, i as int));
        match keys[i] {
            1 => item = CurrentItem::Dirt,
            2 => item = CurrentItem::Grass,
            3 => item = CurrentItem::Concrete,
            4 => item = CurrentItem::Cobblestone,
            5 => item = CurrentItem::Moss,
            6 => item = CurrentItem::Wood,
            7 => item = CurrentItem::Greybrick,
            8 => item = CurrentItem::Glass,
            _ => {},
        }
        i = i + 1;
    }
    assert(keys@.subrange(0, keys@.len() as int) =~= keys@);
    item
}

/// `msg` asks the server to set the voxel at `vp` of the chunk at `cp` to `name`; the voxel
/// coordinates travel as bytes.
pub open spec fn block_message(msg: Commands, cp: IVec3, vp: UVec3, name: Seq<char>) -> bool {
    msg matches Commands::SentBlock { chunk_pos, voxel_pos, block_type } && chunk_pos@ == seq![
        cp.x,
        cp.y,
        cp.z,
    ] && voxel_pos@ == seq![vp.x as u8, vp.y as u8, vp.z as u8] && block_type@ == name
}

/// The request that sets the voxel at `vp` of the chunk at `cp` to `name`.
fn make_block_message(cp: IVec3, vp: UVec3, name: String) -> (r: Commands)
    ensures
        block_message(r, cp, vp, name@),
{
    let chunk_pos = [cp.x, cp.y, cp.z];
    let voxel_pos = [vp.x as u8, vp.y as u8, vp.z as u8];
    assert(chunk_pos@ =~= seq![cp.x, cp.y, cp.z]);
    assert(voxel_pos@ =~= seq![vp.x as u8, vp.y as u8, vp.z as u8]);
    Commands::SentBlock { chunk_pos, voxel_pos, block_type: name }
}

/// A click on the voxel at `voxel_pos` of the chunk at `chunk_pos`, whose data is `chunk`.
///
/// A right click (`place`) sets the voxel to the held item, but only when the voxel is
/// `clear_of_player`; a left click sets it to air. Each change yields the request that tells
/// the server. Either click marks the chunk and the neighbours that show the voxel for
/// remeshing. When the chunk does not exist, nothing happens and the result is `None`.
pub fn interact(
    current_chunks: &CurrentChunks,
    chunk: &mut RawChunk,
    chunk_pos: IVec3,
    voxel_pos: UVec3,
    place: bool,
    clear_of_player: bool,
    item: CurrentItem,
) -> (r: Option<(Vec<u64>, Option<Commands>)>)
    requires
        pos_index(voxel_pos) < old(chunk).voxels@.len(),
    ensures
        r is None <==> !current_chunks@.contains_key(chunk_pos),
        r is None ==> *final(chunk) == *old(chunk),
        r matches Some((dirty, message)) ==> {
            &&& dirty@ == dirty_entities(current_chunks@, chunk_pos, voxel_pos)
            &&& place && clear_of_player ==> {
                &&& block_placed(*old(chunk), *final(chunk), pos_index(voxel_pos), item_name(item))
                &&& message matches Some(m) && block_message(m, chunk_pos, voxel_pos, item_name(item))
            }
            &&& place && !clear_of_player ==> *final(chunk) == *old(chunk) && message is None
            &&& !place ==> {
                &&& final(chunk).palette == old(chunk).palette
                &&& final(chunk).voxels@ == match old(chunk).states().index_of_first(air_name()) {
                    Some(n) => old(chunk).voxels@.update(pos_index(voxel_pos), n as u16),
                    None => old(chunk).voxels@,
                }
                &&& message matches Some(m) && block_message(m, chunk_pos, voxel_pos, air_name())
            }
        },
{
    let entity = match current_chunks.get_entity(chunk_pos) {
        Some(e) => e,
        None => {
            return None;
        },
    };
    let message = if place {
        if clear_of_player {
            let name = String::from_str(item.block_name());
            place_block(chunk, voxel_pos, &name);
            Some(make_block_message(chunk_pos, voxel_pos, name))
        } else {
            None
        }
    } else {
        let air = String::from_str("air");
        proof {
            reveal_strlit("air");
            assert(air@ =~= air_name());
        }
        chunk.set_block(voxel_pos, air.clone());
        Some(make_block_message(chunk_pos, voxel_pos, air))
    };
    let dirty = dirty_chunks_of(current_chunks, chunk_pos, voxel_pos, entity);
    Some((dirty, message))
}

/// A broken block looks the same everywhere: the sender sets the voxel to air, while the
/// server and the other clients receive the message and place air as they place any block.
/// On a well-formed chunk whose palette holds air, both give the same palette and the same
/// block at every voxel.
pub proof fn lemma_break_agrees_with_receivers(c0: RawChunk, sender: RawChunk, receiver: RawChunk, pos: UVec3)
    requires
        c0.wf(),
        c0.states().contains(air_name()),
        pos_index(pos) < c0.voxels@.len(),
        sender.palette == c0.palette,
        sender.voxels@ == match c0.states().index_of_first(air_name()) {
            Some(n) => c0.voxels@.update(pos_index(pos), n as u16),
            None => c0.voxels@,
        },
        block_placed(c0, receiver, pos_index(pos), air_name()),
    ensures
        sender.states() == receiver.states(),
        sender.wf() && receiver.wf(),
        forall|i: int| 0 <= i < c0.voxels@.len() ==> #[trigger] sender.block_at(i) == receiver.block_at(i),
{
    crate::chunk::lemma_set_then_get(c0, sender, pos, air_name());
    assert(receiver.palette@.len() == c0.palette@.len());
}

} // verus!

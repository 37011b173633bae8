use vstd::prelude::*;

use crate::voxel::{GeometryType, VoxelVisibility, ascii_case_eq, eq_ignore_ascii_case, geometry_named, visibility_named};

verus! {

/// How an entity moves.
#[derive(Clone, Copy, Debug, PartialEq, Eq, Structural, Hash)]
pub enum AiType {
    Walk,
    Fly,
    Swim,
}

/// The tool that breaks a block fastest.
#[derive(Clone, Copy, Debug, PartialEq, Eq, Structural, Hash)]
pub enum BreakTool {
    Shovel,
    Pickaxe,
    Axe,
}

/// The AI type whose variant name matches `name` without regard to case.
pub open spec fn ai_type_named(name: Seq<char>) -> Option<AiType> {
    if eq_ignore_ascii_case(name, seq!['w', 'a', 'l', 'k']) {
        Some(AiType::Walk)
    } else if eq_ignore_ascii_case(name, seq!['f', 'l', 'y']) {
        Some(AiType::Fly)
    } else if eq_ignore_ascii_case(name, seq!['s', 'w', 'i', 'm']) {
        Some(AiType::Swim)
    } else {
        None
    }
}

/// The break tool whose variant name matches `name` without regard to case.
pub open spec fn break_tool_named(name: Seq<char>) -> Option<BreakTool> {
    if eq_ignore_ascii_case(name, seq!['s', 'h', 'o', 'v', 'e', 'l']) {
        Some(BreakTool::Shovel)
    } else if eq_ignore_ascii_case(name, seq!['p', 'i', 'c', 'k', 'a', 'x', 'e']) {
        Some(BreakTool::Pickaxe)
    } else if eq_ignore_ascii_case(name, seq!['a', 'x', 'e']) {
        Some(BreakTool::Axe)
    } else {
        None
    }
}

impl AiType {
    /// The variant named `name`, compared without regard to ASCII case.
    pub fn from_name(name: &str) -> (r: Option<AiType>)
        ensures
            r == ai_type_named(name@),
    {
        proof {
            reveal_strlit("walk");
            reveal_strlit("fly");
            reveal_strlit("swim");
            assert("walk"@ =~= seq!['w', 'a', 'l', 'k']);
            assert("fly"@ =~= seq!['f', 'l', 'y']);
            assert("swim"@ =~= seq!['s', 'w', 'i', 'm']);
        }
        if ascii_case_eq(name, "walk") {
            Some(AiType::Walk)
        } else if ascii_case_eq(name, "fly") {
            Some(AiType::Fly)
        } else if ascii_case_eq(name, "swim") {
            Some(AiType::Swim)
        } else {
            None
        }
    }
}

impl Default for AiType {
    fn default() -> (r: AiType)
        ensures
            r == AiType::Walk,
    {
        AiType::Walk
    }
}

impl BreakTool {
    /// The variant named `name`, compared without regard to ASCII case.
    pub fn from_name(name: &str) -> (r: Option<BreakTool>)
        ensures
            r == break_tool_named(name@),
    {
        proof {
            reveal_strlit("shovel");
            reveal_strlit("pickaxe");
            reveal_strlit("axe");
            assert("shovel"@ =~= seq!['s', 'h', 'o', 'v', 'e', 'l']);
            assert("pickaxe"@ =~= seq!['p', 'i', 'c', 'k', 'a', 'x', 'e']);
            assert("axe"@ =~= seq!['a', 'x', 'e']);
        }
        if ascii_case_eq(name, "shovel") {
            Some(BreakTool::Shovel)
        } else if ascii_case_eq(name, "pickaxe") {
            Some(BreakTool::Pickaxe)
        } else if ascii_case_eq(name, "axe") {
            Some(BreakTool::Axe)
        } else {
            None
        }
    }
}

impl Default for BreakTool {
    fn default() -> (r: BreakTool)
        ensures
            r == BreakTool::Pickaxe,
    {
        BreakTool::Pickaxe
    }
}

/// A block as described in its definition file. The physical tuning values
/// (friction, break time) stay with the application.
#[derive(Debug)]
pub struct BlockDescriptor {
    pub namespace: String,
    pub block_name: String,
    pub textures: Vec<(String, String)>,
    pub interactable: bool,
    pub break_tool: String,
    pub walk_sound: Option<String>,
    pub break_sound: Option<String>,
    pub block_script: Option<String>,
    pub visibility: String,
    pub block_geometry: String,
    pub light_val: u8,
}

/// An entity as described in its definition file, without its friction.
#[derive(Debug)]
pub struct EntityDescriptor {
    pub namespace: String,
    pub entity_name: String,
    pub model: String,
    pub attack: u32,
    pub entity_script: Option<String>,
    pub interactable: bool,
    pub ai_type: String,
}

/// A loaded block type.
#[derive(Debug)]
pub struct BlockType {
    pub namespace: String,
    pub block_name: String,
    pub textures: Vec<(String, String)>,
    pub interactable: bool,
    pub break_tool: BreakTool,
    pub walk_sound: Option<String>,
    pub break_sound: Option<String>,
    pub block_script: Option<String>,
    pub visibility: VoxelVisibility,
    pub block_geometry: GeometryType,
    pub light_val: u8,
}

/// A loaded entity type.
#[derive(Debug)]
pub struct EntityType {
    pub namespace: String,
    pub entity_name: String,
    pub model: String,
    pub attack: u32,
    pub entity_script: Option<String>,
    pub interactable: bool,
    pub ai_type: AiType,
}

/// The key a block type is registered under: its namespace followed by its name.
pub open spec fn block_key(d: BlockDescriptor) -> Seq<char> {
    d.namespace@ + d.block_name@
}

/// The block type a descriptor converts to: tool, visibility and geometry are read by
/// name, falling back to their defaults when the name is unknown.
pub open spec fn converted_block(d: BlockDescriptor) -> BlockType {
    BlockType {
        namespace: d.namespace,
        block_name: d.block_name,
        textures: d.textures,
        interactable: d.interactable,
        break_tool: match break_tool_named(d.break_tool@) {
            Some(t) => t,
            None => BreakTool::Pickaxe,
        },
        walk_sound: d.walk_sound,
        break_sound: d.break_sound,
        block_script: d.block_script,
        visibility: match visibility_named(d.visibility@) {
            Some(v) => v,
            None => VoxelVisibility::Opaque,
        },
        block_geometry: match geometry_named(d.block_geometry@) {
            Some(g) => g,
            None => GeometryType::Block,
        },
        light_val: d.light_val,
    }
}

/// The block and entity types known to the game, each under its key.
pub struct LoadableTypes {
    pub entities: Vec<(String, EntityType)>,
    pub blocks: Vec<(String, BlockType)>,
}

/// The keys of a block table, in order.
pub open spec fn block_keys(blocks: Seq<(String, BlockType)>) -> Seq<Seq<char>> {
    blocks.map_values(|e: (String, BlockType)| e.0@)
}

/// The block type registered under `key`: that of the first entry with the key.
pub open spec fn block_lookup(blocks: Seq<(String, BlockType)>, key: Seq<char>) -> Option<BlockType> {
    match block_keys(blocks).index_of_first(key) {
        Some(i) => Some(blocks[i].1),
        None => None,
    }
}

impl LoadableTypes {
    /// Keys of the block table are distinct.
    pub open spec fn wf(&self) -> bool {
        block_keys(self.blocks@).no_duplicates()
    }

    /// The block type registered under `key`.
    pub open spec fn block(&self, key: Seq<char>) -> Option<BlockType> {
        block_lookup(self.blocks@, key)
    }

    /// Tables with no entries.
    pub fn new() -> (r: LoadableTypes)
        ensures
            r.blocks@.len() == 0,
            r.entities@.len() == 0,
            r.wf(),
    {
        let r = LoadableTypes { entities: Vec::new(), blocks: Vec::new() };
        assert(block_keys(r.blocks@) =~= Seq::empty());
        r
    }

    /// The block type registered under `key`, if any.
    pub fn get_block(&self, key: &String) -> (r: Option<&BlockType>)
        ensures
            match self.block(key@) {
                Some(b) => r == Some(&b),
                None => r is None,
            },
    {
        let ghost keys = block_keys(self.blocks@);
        let mut i: usize = 0;
        while i < self.blocks.len()
            invariant
                i <= self.blocks@.len(),
                keys == block_keys(self.blocks@),
                forall|j: int| 0 <= j < i ==> keys[j] != key@,
            decreases self.blocks@.len() - i,
        {
            if self.blocks[i].0 == *key {
                proof {
                    crate::palette::lemma_first_index(keys, key@, i as int);
                }
                return Some(&self.blocks[i].1);
            }
            i = i + 1;
        }
        proof {
            crate::palette::lemma_no_index(keys, key@);
        }
        None
    }
}


/// The keys of a list of block descriptors, in order.
pub open spec fn descriptor_keys(ds: Seq<BlockDescriptor>) -> Seq<Seq<char>> {
    ds.map_values(|d: BlockDescriptor| block_key(d))
}

/// What a table holds under `k` once the descriptors from position `i` on are converted:
/// the conversion of the last descriptor with key `k`, when that one is at `i` or later.
pub open spec fn table_from(ds: Seq<BlockDescriptor>, i: int, k: Seq<char>) -> Option<BlockType> {
    match descriptor_keys(ds).index_of_last(k) {
        Some(j) => if j >= i {
            Some(converted_block(ds[j]))
        } else {
            None
        },
        None => None,
    }
}

/// Position of the first entry of `blocks` with key `key`.
fn find_key(blocks: &Vec<(String, BlockType)>, key: &String) -> (r: Option<usize>)
    ensures
        match block_keys(blocks@).index_of_first(key@) {
            Some(n) => r == Some(n as usize),
            None => r is None,
        },
{
    let ghost keys = block_keys(blocks@);
    let mut i: usize = 0;
    while i < blocks.len()
        invariant
            i <= blocks@.len(),
            keys == block_keys(blocks@),
            forall|j: int| 0 <= j < i ==> keys[j] != key@,
        decreases blocks@.len() - i,
    {
        if blocks[i].0 == *key {
            proof {
                crate::palette::lemma_first_index(keys, key@, i as int);
            }
            return Some(i);
        }
        i = i + 1;
    }
    proof {
        crate::palette::lemma_no_index(keys, key@);
    }
    None
}

/// Converts block descriptors into a block table keyed by namespace followed by name.
/// When several descriptors share a key, the table holds the last of them.
pub fn convert_block(block_descriptor: Vec<BlockDescriptor>) -> (r: Vec<(String, BlockType)>)
    ensures
        block_keys(r@).no_duplicates(),
        forall|k: Seq<char>| #[trigger] block_lookup(r@, k) == table_from(block_descriptor@, 0, k),
{
    let ghost ds = block_descriptor@;
    let ghost keys = descriptor_keys(ds);
    let mut descs = block_descriptor;
    let mut result: Vec<(String, BlockType)> = Vec::new();
    proof {
        assert(block_keys(result@) =~= Seq::empty());
        assert forall|k: Seq<char>| #[trigger] block_lookup(result@, k) == table_from(ds, ds.len() as int, k) by {
            keys.index_of_last_ensures(k);
            block_keys(result@).index_of_first_ensures(k);
        }
    }
    while descs.len() > 0
        invariant
            descs@.len() <= ds.len(),
            descs@ == ds.subrange(0, descs@.len() as int),
            keys == descriptor_keys(ds),
            block_keys(result@).no_duplicates(),
            forall|k: Seq<char>| #[trigger] block_lookup(result@, k) == table_from(ds, descs@.len() as int, k),
        decreases descs@.len(),
    {
        let ghost i = descs@.len() as int;
        let d = descs.pop().unwrap();
        assert(d == ds[i - 1]);
        let key = d.namespace.clone().concat(d.block_name.as_str());
        assert(key@ == keys[i - 1]);
        let ghost before = result@;
        proof {
            keys.index_of_last_ensures(key@);
        }
        match find_key(&result, &key) {
            Some(_) => {
                proof {
                    assert forall|k: Seq<char>| #[trigger] block_lookup(result@, k) == table_from(ds, i - 1, k) by {
                        keys.index_of_last_ensures(k);
                        assert(block_lookup(result@, k) == table_from(ds, i, k));
                    }
                }
            },
            None => {
                let break_tool = match BreakTool::from_name(d.break_tool.as_str()) {
                    Some(t) => t,
                    None => BreakTool::Pickaxe,
                };
                let visibility = match VoxelVisibility::from_name(d.visibility.as_str()) {
                    Some(v) => v,
                    None => VoxelVisibility::Opaque,
                };
                let block_geometry = match GeometryType::from_name(d.block_geometry.as_str()) {
                    Some(g) => g,
                    None => GeometryType::Block,
                };
                let block = BlockType {
                    namespace: d.namespace,
                    block_name: d.block_name,
                    textures: d.textures,
                    interactable: d.interactable,
                    break_tool,
                    walk_sound: d.walk_sound,
                    break_sound: d.break_sound,
                    block_script: d.block_script,
                    visibility,
                    block_geometry,
                    light_val: d.light_val,
                };
                assert(block == converted_block(ds[i - 1]));
                result.push((key, block));
                proof {
                    let bk = block_keys(before);
                    let nk = block_keys(result@);
                    assert(nk =~= bk.push(key@));
                    bk.index_of_first_ensures(key@);
                    assert(block_lookup(before, key@) is None);
                    assert(table_from(ds, i, key@) is None);
                    assert(keys.index_of_last(key@) == Some(i - 1)) by {
                        keys.index_of_last_ensures(key@);
                        assert(keys[i - 1] == key@);
                    }
                    assert forall|a: int, b: int| 0 <= a < nk.len() && 0 <= b < nk.len() && a != b
                        implies nk[a] != nk[b] by {
                        if a == nk.len() - 1 {
                            assert(!bk.contains(key@));
                            assert(nk[b] == bk[b]);
                        } else if b == nk.len() - 1 {
                            assert(!bk.contains(key@));
                            assert(nk[a] == bk[a]);
                        } else {
                            assert(nk[a] == bk[a] && nk[b] == bk[b]);
                        }
                    }
                    assert forall|k: Seq<char>| #[trigger] block_lookup(result@, k) == table_from(ds, i - 1, k) by {
                        keys.index_of_last_ensures(k);
                        bk.index_of_first_ensures(k);
                        assert(block_lookup(before, k) == table_from(ds, i, k));
                        if k == key@ {
                            crate::palette::lemma_first_index(nk, k, nk.len() - 1);
                        } else {
                            match bk.index_of_first(k) {
                                Some(n) => {
                                    crate::palette::lemma_first_index(nk, k, n);
                                },
                                None => {
                                    crate::palette::lemma_no_index(nk, k);
                                },
                            }
                        }
                    }
                }
            },
        }
    }
    result
}

/// Converts entity descriptors into an entity table. Entities are not loaded from their
/// descriptors yet, so the table is always empty.
pub fn convert_entity(_entity_descriptor: Vec<EntityDescriptor>) -> (r: Vec<(String, EntityType)>)
    ensures
        r@.len() == 0,
{
    Vec::new()
}


/// Two block types hold the same values, strings and lists compared by content.
pub open spec fn same_block(a: BlockType, b: BlockType) -> bool {
    &&& a.namespace@ == b.namespace@
    &&& a.block_name@ == b.block_name@
    &&& a.textures@.len() == b.textures@.len()
    &&& forall|i: int|
        0 <= i < a.textures@.len() ==> (#[trigger] a.textures@[i]).0@ == b.textures@[i].0@
            && a.textures@[i].1@ == b.textures@[i].1@
    &&& a.interactable == b.interactable
    &&& a.break_tool == b.break_tool
    &&& a.walk_sound == b.walk_sound
    &&& a.break_sound == b.break_sound
    &&& a.block_script == b.block_script
    &&& a.visibility == b.visibility
    &&& a.block_geometry == b.block_geometry
    &&& a.light_val == b.light_val
}

fn clone_opt_string(s: &Option<String>) -> (r: Option<String>)
    ensures
        r == *s,
{
    match s {
        Some(v) => Some(v.clone()),
        None => None,
    }
}

impl Clone for BlockType {
    fn clone(&self) -> (r: BlockType)
        ensures
            same_block(r, *self),
    {
        let mut textures: Vec<(String, String)> = Vec::new();
        let mut i: usize = 0;
        while i < self.textures.len()
            invariant
                i <= self.textures@.len(),
                textures@.len() == i,
                forall|j: int|
                    0 <= j < i ==> (#[trigger] textures@[j]).0@ == self.textures@[j].0@
                        && textures@[j].1@ == self.textures@[j].1@,
            decreases self.textures@.len() - i,
        {
            let entry = (self.textures[i].0.clone(), self.textures[i].1.clone());
            textures.push(entry);
            i = i + 1;
        }
        BlockType {
            namespace: self.namespace.clone(),
            block_name: self.block_name.clone(),
            textures,
            interactable: self.interactable,
            break_tool: self.break_tool,
            walk_sound: clone_opt_string(&self.walk_sound),
            break_sound: clone_opt_string(&self.break_sound),
            block_script: clone_opt_string(&self.block_script),
            visibility: self.visibility,
            block_geometry: self.block_geometry,
            light_val: self.light_val,
        }
    }
}

/// The slot of a texture's face name in a block's six textures: up, down, left, right,
/// front and back take slots 0 to 5; any other name takes none.
pub open spec fn face_slot(face: Seq<char>) -> Option<int> {
    if face == "up"@ {
        Some(0)
    } else if face == "down"@ {
        Some(1)
    } else if face == "left"@ {
        Some(2)
    } else if face == "right"@ {
        Some(3)
    } else if face == "front"@ {
        Some(4)
    } else if face == "back"@ {
        Some(5)
    } else {
        None
    }
}

/// The slot of face name `face`.
fn face_slot_of(face: &String) -> (r: Option<usize>)
    ensures
        match face_slot(face@) {
            Some(k) => r == Some(k as usize),
            None => r is None,
        },
{
    if *face == String::from_str("up") {
        Some(0)
    } else if *face == String::from_str("down") {
        Some(1)
    } else if *face == String::from_str("left") {
        Some(2)
    } else if *face == String::from_str("right") {
        Some(3)
    } else if *face == String::from_str("front") {
        Some(4)
    } else if *face == String::from_str("back") {
        Some(5)
    } else {
        None
    }
}

/// The asset path of texture file `file` of block `block_name`.
pub open spec fn texture_path(block_name: Seq<char>, file: Seq<char>) -> Seq<char> {
    "blocks/"@ + block_name + "/"@ + file
}

/// The last of the first `n` textures whose face name takes slot `slot`.
pub open spec fn face_texture(textures: Seq<(String, String)>, slot: int, n: int) -> Option<int>
    decreases n,
{
    if n <= 0 {
        None
    } else if face_slot(textures[n - 1].0@) == Some(slot) {
        Some(n - 1)
    } else {
        face_texture(textures, slot, n - 1)
    }
}

/// Where the textures of a block are loaded from and which of them each face shows.
#[derive(Debug)]
pub struct TextureLayout {
    /// The key the textures are registered under: the block's namespace and name, or empty
    /// when the block has no texture.
    pub identifier: String,
    /// The path of each texture, in the order the block lists them.
    pub paths: Vec<String>,
    /// For each of the six slots, the position in `paths` of the texture it shows.
    pub faces: Vec<Option<usize>>,
}

/// The texture layout of `block`: every texture file is loaded from
/// `blocks/<block name>/<file>`, and each slot shows the last texture listed for it.
pub fn texture_layout(block: &BlockType) -> (r: TextureLayout)
    ensures
        r.identifier@ == (if block.textures@.len() > 0 {
            block.namespace@ + block.block_name@
        } else {
            Seq::empty()
        }),
        r.paths@.len() == block.textures@.len(),
        forall|k: int|
            0 <= k < r.paths@.len() ==> (#[trigger] r.paths@[k])@ == texture_path(
                block.block_name@,
                block.textures@[k].1@,
            ),
        r.faces@.len() == 6,
        forall|f: int|
            0 <= f < 6 ==> match face_texture(block.textures@, f, block.textures@.len() as int) {
                Some(k) => #[trigger] r.faces@[f] == Some(k as usize),
                None => r.faces@[f] is None,
            },
{
    let mut identifier = String::new();
    let mut paths: Vec<String> = Vec::new();
    let mut faces: Vec<Option<usize>> = Vec::new();
    let mut f: usize = 0;
    while f < 6
        invariant
            f <= 6,
            faces@.len() == f,
            forall|g: int| 0 <= g < f ==> faces@[g] is None,
        decreases 6 - f,
    {
        faces.push(None);
        f = f + 1;
    }
    let ghost textures = block.textures@;
    let mut i: usize = 0;
    while i < block.textures.len()
        invariant
            textures == block.textures@,
            i <= textures.len(),
            identifier@ == (if i > 0 {
                block.namespace@ + block.block_name@
            } else {
                Seq::empty()
            }),
            paths@.len() == i,
            forall|k: int|
                0 <= k < i ==> (#[trigger] paths@[k])@ == texture_path(
                    block.block_name@,
                    textures[k].1@,
                ),
            faces@.len() == 6,
            forall|g: int|
                0 <= g < 6 ==> match face_texture(textures, g, i as int) {
                    Some(k) => #[trigger] faces@[g] == Some(k as usize),
                    None => faces@[g] is None,
                },
        decreases textures.len() - i,
    {
        let mut path = String::from_str("blocks/");
        path.append(block.block_name.as_str());
        path.append("/");
        path.append(block.textures[i].1.as_str());
        assert(path@ =~= texture_path(block.block_name@, textures[i as int].1@));
        paths.push(path);
        identifier = block.namespace.clone().concat(block.block_name.as_str());
        match face_slot_of(&block.textures[i].0) {
            Some(slot) => {
                faces.set(slot, Some(i));
            },
            None => {},
        }
        i = i + 1;
    }
    TextureLayout { identifier, paths, faces }
}

} // verus!

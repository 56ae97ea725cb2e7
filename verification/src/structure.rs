//! The concrete tree the filesystem serves, and the dynamic-children
//! generators: the player's entity subtree, the per-entity directories, and
//! the subtree of a phantom block directory.

use vstd::prelude::*;

use vstd::string::StringSliceAdditionalSpecFns;

use crate::command::{BodyType, CommandType};
use crate::entry::{
    DirEntry, DirFilterFn, DynamicDirFn, DynamicStateType, Entry, EntryAssociatedData, FileBehaviour,
    FileEntry, FileFilterFn, LinkEntry, LinkTargetFn, PhantomChildFn, PhantomDynamicInterestFn,
};
use crate::pos::{format_block_position, BlockPos, Dimension};
use crate::registry::{
    FilesystemStructure, FilesystemStructureBuilder, ParentSlot, Proposal,
};
use crate::state::GameState;

verus! {

/// An upper bound on how many entries one generation can propose.
pub open spec fn max_proposals(state: GameState) -> int {
    16 + 8 * state.entities@.len() as int
}

/// A name as owned bytes.
fn nm(s: &str) -> (r: Vec<u8>)
    ensures
        r@ == s.spec_bytes(),
{
    vstd::slice::slice_to_vec(s.as_bytes())
}


/// A read-write command file with no filter and no own context.
pub open spec fn rw_file(e: Entry, c: CommandType, t: BodyType) -> bool {
    &&& e is File
    &&& e->File_0.behaviour is ReadWrite
    &&& e->File_0.behaviour->ReadWrite_0 == c
    &&& e->File_0.behaviour->ReadWrite_1 == t
    &&& e->File_0.associated_data is None
    &&& e->File_0.filter is None
}

/// A read-only command file with no filter and no own context.
pub open spec fn ro_file(e: Entry, c: CommandType, t: BodyType) -> bool {
    &&& e is File
    &&& e->File_0.behaviour is ReadOnly
    &&& e->File_0.behaviour->ReadOnly_0 == c
    &&& e->File_0.behaviour->ReadOnly_1 == t
    &&& e->File_0.associated_data is None
    &&& e->File_0.filter is None
}

/// A write-only command file; `flt` is its filter.
pub open spec fn wo_file(
    e: Entry,
    c: CommandType,
    t: BodyType,
    flt: Option<FileFilterFn>,
) -> bool {
    &&& e is File
    &&& e->File_0.behaviour is WriteOnly
    &&& e->File_0.behaviour->WriteOnly_0 == c
    &&& e->File_0.behaviour->WriteOnly_1 == t
    &&& e->File_0.associated_data is None
    &&& e->File_0.filter == flt
}

/// A constant file with the given content.
pub open spec fn static_file(e: Entry, content: Seq<u8>) -> bool {
    &&& e is File
    &&& e->File_0.behaviour is Static
    &&& e->File_0.behaviour->Static_0@ == content
    &&& e->File_0.associated_data is None
    &&& e->File_0.filter is None
}

/// A symlink with the given target rule, visible only in a game.
pub open spec fn in_game_link(e: Entry, target: LinkTargetFn) -> bool {
    &&& e is Link
    &&& crate::entry::link_target_eq(e->Link_0.target, target)
    &&& e->Link_0.filter == Some(FileFilterFn::IsInGame)
}

/// One child link: its name, and its entry satisfying `ok` under `reg`.
pub open spec fn named(
    reg: Map<u64, Entry>,
    kids: Map<u64, Vec<crate::registry::ChildLink>>,
    p: u64,
    j: int,
    name: Seq<u8>,
) -> bool {
    &&& kids.dom().contains(p)
    &&& 0 <= j < kids[p]@.len()
    &&& kids[p]@[j].name@ == name
    &&& reg.dom().contains(kids[p]@[j].inode)
    &&& kids[p]@[j].inode != 1
}

/// The shape of the `player` subtree: the static files and links, in
/// registration order, and the `control` directory with its three
/// write-only files.
pub open spec fn player_subtree_ok(
    reg: Map<u64, Entry>,
    kids: Map<u64, Vec<crate::registry::ChildLink>>,
    player: u64,
) -> bool {
    &&& reg.dom().contains(player)
    &&& reg[player] is Dir
    &&& reg[player]->Dir_0.dynamic == Some(
        (DynamicStateType::PlayerId, DynamicDirFn::PlayerSubtree),
    )
    &&& reg[player]->Dir_0.associated_data == Some(EntryAssociatedData::PlayerId)
    &&& reg[player]->Dir_0.filter is None
    &&& kids.dom().contains(player)
    &&& kids[player]@.len() == 8
    &&& named(reg, kids, player, 0, "name".spec_bytes()) && ro_file(
        reg[kids[player]@[0].inode],
        CommandType::PlayerName,
        BodyType::String,
    )
    &&& named(reg, kids, player, 1, "gamemode".spec_bytes()) && rw_file(
        reg[kids[player]@[1].inode],
        CommandType::PlayerGamemode,
        BodyType::String,
    )
    &&& named(reg, kids, player, 2, "hunger".spec_bytes()) && rw_file(
        reg[kids[player]@[2].inode],
        CommandType::PlayerHunger,
        BodyType::Integer,
    )
    &&& named(reg, kids, player, 3, "saturation".spec_bytes()) && rw_file(
        reg[kids[player]@[3].inode],
        CommandType::PlayerSaturation,
        BodyType::Float,
    )
    &&& named(reg, kids, player, 4, "exhaustion".spec_bytes()) && rw_file(
        reg[kids[player]@[4].inode],
        CommandType::PlayerExhaustion,
        BodyType::Float,
    )
    &&& named(reg, kids, player, 5, "entity".spec_bytes()) && in_game_link(
        reg[kids[player]@[5].inode],
        LinkTargetFn::PlayerEntity,
    )
    &&& named(reg, kids, player, 6, "world".spec_bytes()) && in_game_link(
        reg[kids[player]@[6].inode],
        LinkTargetFn::PlayerWorld,
    )
    &&& named(reg, kids, player, 7, "control".spec_bytes()) && control_subtree_ok(
        reg,
        kids,
        kids[player]@[7].inode,
    )
}

/// The `control` directory: visible with all children while in a game, with
/// the three write-only control files.
pub open spec fn control_subtree_ok(
    reg: Map<u64, Entry>,
    kids: Map<u64, Vec<crate::registry::ChildLink>>,
    control: u64,
) -> bool {
    &&& reg[control] is Dir
    &&& reg[control]->Dir_0.dynamic is None
    &&& reg[control]->Dir_0.associated_data is None
    &&& reg[control]->Dir_0.filter == Some(DirFilterFn::InGameShowAll)
    &&& kids.dom().contains(control)
    &&& kids[control]@.len() == 3
    &&& named(reg, kids, control, 0, "say".spec_bytes()) && wo_file(
        reg[kids[control]@[0].inode],
        CommandType::ControlSay,
        BodyType::String,
        None,
    )
    &&& named(reg, kids, control, 1, "jump".spec_bytes()) && wo_file(
        reg[kids[control]@[1].inode],
        CommandType::ControlJump,
        BodyType::String,
        None,
    )
    &&& named(reg, kids, control, 2, "move".spec_bytes()) && wo_file(
        reg[kids[control]@[2].inode],
        CommandType::ControlMove,
        BodyType::Position,
        None,
    )
}

/// One world's subtree: its context-carrying directory, the entity
/// directories, the time file, and the blocks directory with its readme and
/// its block-coordinate phantom rule.
pub open spec fn world_subtree_ok(
    reg: Map<u64, Entry>,
    kids: Map<u64, Vec<crate::registry::ChildLink>>,
    phs: Map<u64, crate::registry::PhantomConfig>,
    w: u64,
    dim: Dimension,
) -> bool {
    &&& reg.dom().contains(w)
    &&& reg[w] is Dir
    &&& reg[w]->Dir_0.dynamic is None
    &&& reg[w]->Dir_0.associated_data == Some(EntryAssociatedData::World(dim))
    &&& reg[w]->Dir_0.filter is None
    &&& kids.dom().contains(w)
    &&& kids[w]@.len() == 3
    &&& named(reg, kids, w, 0, "entities".spec_bytes()) && {
        let entities = kids[w]@[0].inode;
        &&& reg[entities] is Dir
        &&& reg[entities]->Dir_0.dynamic is None
        &&& reg[entities]->Dir_0.associated_data is None
        &&& reg[entities]->Dir_0.filter == Some(DirFilterFn::InGameShowAll)
        &&& kids.dom().contains(entities)
        &&& kids[entities]@.len() == 1
        &&& named(reg, kids, entities, 0, "by-id".spec_bytes())
        &&& reg[kids[entities]@[0].inode] is Dir
        &&& reg[kids[entities]@[0].inode]->Dir_0.dynamic == Some(
            (DynamicStateType::EntityIds, DynamicDirFn::EntitiesById),
        )
        &&& reg[kids[entities]@[0].inode]->Dir_0.associated_data is None
        &&& reg[kids[entities]@[0].inode]->Dir_0.filter is None
    }
    &&& named(reg, kids, w, 1, "time".spec_bytes()) && rw_file(
        reg[kids[w]@[1].inode],
        CommandType::WorldTime,
        BodyType::Integer,
    )
    &&& named(reg, kids, w, 2, "blocks".spec_bytes()) && {
        let blocks = kids[w]@[2].inode;
        &&& reg[blocks] is Dir
        &&& reg[blocks]->Dir_0.dynamic is None
        &&& reg[blocks]->Dir_0.associated_data is None
        &&& reg[blocks]->Dir_0.filter is None
        &&& kids.dom().contains(blocks)
        &&& kids[blocks]@.len() == 1
        &&& named(reg, kids, blocks, 0, "README".spec_bytes())
        &&& reg[kids[blocks]@[0].inode] is File
        &&& reg[kids[blocks]@[0].inode]->File_0.behaviour is Static
        &&& phs.dom().contains(blocks)
        &&& phs[blocks] == (crate::registry::PhantomConfig {
            parse: PhantomChildFn::BlockCoords,
            interest: PhantomDynamicInterestFn::BlockState,
            dyn_fn: DynamicDirFn::BlockSubtree,
        })
    }
}

/// The `worlds` directory: in-game filtered, with the three dimensions'
/// subtrees in order.
pub open spec fn worlds_subtree_ok(
    reg: Map<u64, Entry>,
    kids: Map<u64, Vec<crate::registry::ChildLink>>,
    phs: Map<u64, crate::registry::PhantomConfig>,
    worlds: u64,
) -> bool {
    &&& reg.dom().contains(worlds)
    &&& reg[worlds] is Dir
    &&& reg[worlds]->Dir_0.dynamic is None
    &&& reg[worlds]->Dir_0.associated_data is None
    &&& reg[worlds]->Dir_0.filter == Some(DirFilterFn::InGameShowAll)
    &&& kids.dom().contains(worlds)
    &&& kids[worlds]@.len() == 3
    &&& named(reg, kids, worlds, 0, "overworld".spec_bytes()) && world_subtree_ok(
        reg,
        kids,
        phs,
        kids[worlds]@[0].inode,
        Dimension::Overworld,
    )
    &&& named(reg, kids, worlds, 1, "nether".spec_bytes()) && world_subtree_ok(
        reg,
        kids,
        phs,
        kids[worlds]@[1].inode,
        Dimension::Nether,
    )
    &&& named(reg, kids, worlds, 2, "end".spec_bytes()) && world_subtree_ok(
        reg,
        kids,
        phs,
        kids[worlds]@[2].inode,
        Dimension::End,
    )
}

/// Carry an intact world subtree across registrations that touch only the
/// list of `ex` and fresh inodes: each preservation fact is instantiated
/// key by key.
proof fn carry_world(
    a: FilesystemStructureBuilder,
    b: FilesystemStructureBuilder,
    w: u64,
    dim: Dimension,
    ex: u64,
)
    requires
        world_subtree_ok(a.reg(), a.kids(), a.phs(), w, dim),
        forall|i: u64| #[trigger]
            a.reg().dom().contains(i) ==> b.reg().dom().contains(i) && b.reg()[i] == a.reg()[i],
        forall|q: u64| #[trigger]
            a.kids().dom().contains(q) && q != ex ==> b.kids().dom().contains(q) && b.kids()[q]
                == a.kids()[q],
        forall|o: u64| #[trigger]
            a.phs().dom().contains(o) ==> b.phs().dom().contains(o) && b.phs()[o] == a.phs()[o],
        w != ex,
        a.kids()[w]@[0].inode != ex,
        a.kids()[w]@[2].inode != ex,
    ensures
        world_subtree_ok(b.reg(), b.kids(), b.phs(), w, dim),
{
    let entities = a.kids()[w]@[0].inode;
    let blocks = a.kids()[w]@[2].inode;
    assert(a.reg().dom().contains(w));
    assert(a.kids().dom().contains(w));
    assert(a.kids().dom().contains(entities));
    assert(a.kids().dom().contains(blocks));
    assert(a.phs().dom().contains(blocks));
    assert(a.reg().dom().contains(a.kids()[w]@[0].inode));
    assert(a.reg().dom().contains(a.kids()[w]@[1].inode));
    assert(a.reg().dom().contains(a.kids()[w]@[2].inode));
    assert(a.reg().dom().contains(a.kids()[entities]@[0].inode));
    assert(a.reg().dom().contains(a.kids()[blocks]@[0].inode));
}

/// The whole static tree: the root's four children in registration order —
/// the player subtree, the worlds subtree, the version file and the command
/// file.
pub open spec fn root_subtree_ok(
    reg: Map<u64, Entry>,
    kids: Map<u64, Vec<crate::registry::ChildLink>>,
    phs: Map<u64, crate::registry::PhantomConfig>,
) -> bool {
    &&& kids.dom().contains(1)
    &&& kids[1]@.len() == 4
    &&& named(reg, kids, 1, 0, "player".spec_bytes()) && player_subtree_ok(
        reg,
        kids,
        kids[1]@[0].inode,
    )
    &&& named(reg, kids, 1, 1, "worlds".spec_bytes()) && worlds_subtree_ok(
        reg,
        kids,
        phs,
        kids[1]@[1].inode,
    )
    &&& named(reg, kids, 1, 2, "version".spec_bytes()) && static_file(
        reg[kids[1]@[2].inode],
        "0.1.0".spec_bytes(),
    )
    &&& named(reg, kids, 1, 3, "command".spec_bytes()) && wo_file(
        reg[kids[1]@[3].inode],
        CommandType::ServerCommand,
        BodyType::String,
        Some(FileFilterFn::IsInGame),
    )
}

/// Carry an intact player subtree across registrations that touch only the
/// root's list and fresh inodes.
proof fn carry_player(a: FilesystemStructureBuilder, b: FilesystemStructureBuilder, player: u64)
    requires
        player_subtree_ok(a.reg(), a.kids(), player),
        forall|i: u64| #[trigger]
            a.reg().dom().contains(i) ==> b.reg().dom().contains(i) && b.reg()[i] == a.reg()[i],
        forall|q: u64| #[trigger]
            a.kids().dom().contains(q) && q != 1 ==> b.kids().dom().contains(q) && b.kids()[q]
                == a.kids()[q],
        player != 1,
        a.kids()[player]@[7].inode != 1,
    ensures
        player_subtree_ok(b.reg(), b.kids(), player),
{
    let control = a.kids()[player]@[7].inode;
    assert(a.reg().dom().contains(player));
    assert(a.kids().dom().contains(player));
    assert(a.kids().dom().contains(control));
    assert(a.reg().dom().contains(a.kids()[player]@[0].inode));
    assert(a.reg().dom().contains(a.kids()[player]@[1].inode));
    assert(a.reg().dom().contains(a.kids()[player]@[2].inode));
    assert(a.reg().dom().contains(a.kids()[player]@[3].inode));
    assert(a.reg().dom().contains(a.kids()[player]@[4].inode));
    assert(a.reg().dom().contains(a.kids()[player]@[5].inode));
    assert(a.reg().dom().contains(a.kids()[player]@[6].inode));
    assert(a.reg().dom().contains(a.kids()[player]@[7].inode));
    assert(a.reg().dom().contains(a.kids()[control]@[0].inode));
    assert(a.reg().dom().contains(a.kids()[control]@[1].inode));
    assert(a.reg().dom().contains(a.kids()[control]@[2].inode));
}

/// Carry an intact worlds subtree across one registration under the root:
/// only the root's list and one fresh registry key change.
proof fn carry_worlds_step(
    a: FilesystemStructureBuilder,
    b: FilesystemStructureBuilder,
    worlds: u64,
)
    requires
        worlds_subtree_ok(a.reg(), a.kids(), a.phs(), worlds),
        forall|i: u64| #[trigger]
            a.reg().dom().contains(i) ==> b.reg().dom().contains(i) && b.reg()[i] == a.reg()[i],
        forall|q: u64| #[trigger]
            a.kids().dom().contains(q) && q != 1 ==> b.kids().dom().contains(q) && b.kids()[q]
                == a.kids()[q],
        forall|o: u64| #[trigger]
            a.phs().dom().contains(o) ==> b.phs().dom().contains(o) && b.phs()[o] == a.phs()[o],
        worlds != 1,
    ensures
        worlds_subtree_ok(b.reg(), b.kids(), b.phs(), worlds),
{
    assert(a.reg().dom().contains(worlds));
    assert(a.kids().dom().contains(worlds));
    let w0 = a.kids()[worlds]@[0].inode;
    let w1 = a.kids()[worlds]@[1].inode;
    let w2 = a.kids()[worlds]@[2].inode;
    assert(a.reg().dom().contains(w0) && a.reg().dom().contains(w1) && a.reg().dom().contains(
        w2,
    ));
    carry_world(a, b, w0, Dimension::Overworld, 1);
    carry_world(a, b, w1, Dimension::Nether, 1);
    carry_world(a, b, w2, Dimension::End, 1);
}

/// Whether every proposal's parent slot points at an earlier proposal.
pub open spec fn slots_ok(props: Seq<Proposal>) -> bool {
    forall|k: int|
        0 <= k < props.len() ==> (match (#[trigger] props[k]).slot {
            ParentSlot::Prev(j) => j < k,
            ParentSlot::Root => true,
        })
}


/// A generated read-write command file: in-game filtered, no own context.
pub open spec fn gen_rw_file(e: Entry, c: CommandType, t: BodyType) -> bool {
    &&& e is File
    &&& e->File_0.behaviour is ReadWrite
    &&& e->File_0.behaviour->ReadWrite_0 == c
    &&& e->File_0.behaviour->ReadWrite_1 == t
    &&& e->File_0.associated_data is None
    &&& e->File_0.filter == Some(FileFilterFn::IsInGame)
}

/// A generated read-only command file.
pub open spec fn gen_ro_file(e: Entry, c: CommandType, t: BodyType) -> bool {
    &&& e is File
    &&& e->File_0.behaviour is ReadOnly
    &&& e->File_0.behaviour->ReadOnly_0 == c
    &&& e->File_0.behaviour->ReadOnly_1 == t
    &&& e->File_0.associated_data is None
    &&& e->File_0.filter == Some(FileFilterFn::IsInGame)
}

/// A generated write-only command file.
pub open spec fn gen_wo_file(e: Entry, c: CommandType, t: BodyType) -> bool {
    &&& e is File
    &&& e->File_0.behaviour is WriteOnly
    &&& e->File_0.behaviour->WriteOnly_0 == c
    &&& e->File_0.behaviour->WriteOnly_1 == t
    &&& e->File_0.associated_data is None
    &&& e->File_0.filter == Some(FileFilterFn::IsInGame)
}

/// The presence marker of a living entity: no I/O, in-game filtered.
pub open spec fn gen_marker_file(e: Entry) -> bool {
    &&& e is File
    &&& e->File_0.behaviour is ForShow
    &&& e->File_0.associated_data is None
    &&& e->File_0.filter == Some(FileFilterFn::IsInGame)
}

/// How many files one entity's directory gets.
pub open spec fn entity_files_len(full: bool, living: bool) -> int {
    if full {
        if living {
            5
        } else {
            4
        }
    } else {
        3
    }
}

/// The per-entity files proposed from index `k` on, hanging off `slot`:
/// health, position and target; for a full entity also the type file, and
/// for a living one the `living` marker.
pub open spec fn entity_files_at(
    props: Seq<Proposal>,
    k: int,
    slot: ParentSlot,
    full: bool,
    living: bool,
) -> bool {
    &&& 0 <= k
    &&& k + entity_files_len(full, living) <= props.len()
    &&& props[k].slot == slot && props[k].name@ == "health".spec_bytes() && gen_rw_file(
        props[k].entry,
        CommandType::EntityHealth,
        BodyType::Float,
    )
    &&& props[k + 1].slot == slot && props[k + 1].name@ == "position".spec_bytes()
        && gen_rw_file(props[k + 1].entry, CommandType::EntityPosition, BodyType::Position)
    &&& props[k + 2].slot == slot && props[k + 2].name@ == "target".spec_bytes() && gen_wo_file(
        props[k + 2].entry,
        CommandType::EntityTarget,
        BodyType::Position,
    )
    &&& (full ==> props[k + 3].slot == slot && props[k + 3].name@ == "type".spec_bytes()
        && gen_ro_file(props[k + 3].entry, CommandType::EntityType, BodyType::String))
    &&& (full && living ==> props[k + 4].slot == slot && props[k + 4].name@
        == "living".spec_bytes() && gen_marker_file(props[k + 4].entry))
}

/// An entity's own directory entry: its id as context, nothing else.
pub open spec fn entity_dir_entry(e: Entry, id: i32) -> bool {
    &&& e is Dir
    &&& e->Dir_0.dynamic is None
    &&& e->Dir_0.associated_data == Some(EntryAssociatedData::EntityId(id))
    &&& e->Dir_0.filter is None
}

/// How many proposals one entity contributes.
pub open spec fn entity_stride(living: bool) -> int {
    1 + entity_files_len(true, living)
}

/// The total proposal count of an entity list.
pub open spec fn entities_total(es: Seq<crate::state::EntityDetails>) -> int
    decreases es.len(),
{
    if es.len() == 0 {
        0
    } else {
        entity_stride(es[0].living) + entities_total(es.drop_first())
    }
}

/// The per-entity blocks proposed from index `k` on: each entity's
/// directory (named by its decimal id, at the root slot) followed by its
/// files hanging off that directory's proposal index.
pub open spec fn entities_props_from(
    props: Seq<Proposal>,
    es: Seq<crate::state::EntityDetails>,
    k: int,
) -> bool
    decreases es.len(),
{
    if es.len() == 0 {
        true
    } else {
        &&& 0 <= k
        &&& k < usize::MAX
        &&& k + entity_stride(es[0].living) <= props.len()
        &&& props[k].slot == ParentSlot::Root
        &&& props[k].name@ == crate::num::int_decimal(es[0].id as int)
        &&& entity_dir_entry(props[k].entry, es[0].id)
        &&& entity_files_at(props, k + 1, ParentSlot::Prev(k as usize), true, es[0].living)
        &&& entities_props_from(props, es.drop_first(), k + entity_stride(es[0].living))
    }
}

/// The subtree of one block: its type file, its canonical position, and the
/// `adjacent` directory of six links.
pub open spec fn block_props_ok(props: Seq<Proposal>, b: crate::state::BlockDetails) -> bool {
    &&& props.len() == 9
    &&& props[0].slot == ParentSlot::Root && props[0].name@ == "type".spec_bytes() && rw_file(
        props[0].entry,
        CommandType::BlockType,
        BodyType::String,
    )
    &&& props[1].slot == ParentSlot::Root && props[1].name@ == "pos".spec_bytes() && static_file(
        props[1].entry,
        crate::pos::format_block_position_spec(b.pos),
    )
    &&& props[2].slot == ParentSlot::Root && props[2].name@ == "adjacent".spec_bytes()
        && props[2].entry is Dir && props[2].entry->Dir_0.dynamic is None
        && props[2].entry->Dir_0.associated_data is None && props[2].entry->Dir_0.filter is None
    &&& adj_link_at(props, 3, "west".spec_bytes(), BlockPos { x: adj_dec(b.pos.x), y: b.pos.y, z: b.pos.z })
    &&& adj_link_at(props, 4, "east".spec_bytes(), BlockPos { x: adj_inc(b.pos.x), y: b.pos.y, z: b.pos.z })
    &&& adj_link_at(props, 5, "below".spec_bytes(), BlockPos { x: b.pos.x, y: adj_dec(b.pos.y), z: b.pos.z })
    &&& adj_link_at(props, 6, "above".spec_bytes(), BlockPos { x: b.pos.x, y: adj_inc(b.pos.y), z: b.pos.z })
    &&& adj_link_at(props, 7, "north".spec_bytes(), BlockPos { x: b.pos.x, y: b.pos.y, z: adj_dec(b.pos.z) })
    &&& adj_link_at(props, 8, "south".spec_bytes(), BlockPos { x: b.pos.x, y: b.pos.y, z: adj_inc(b.pos.z) })
}

/// An adjacent-block link at index `j`: a fixed relative path to the
/// neighbouring coordinate, under the `adjacent` directory's slot.
pub open spec fn adj_link_at(props: Seq<Proposal>, j: int, name: Seq<u8>, to: BlockPos) -> bool {
    &&& 0 <= j < props.len()
    &&& props[j].slot == ParentSlot::Prev(2)
    &&& props[j].name@ == name
    &&& props[j].entry is Link
    &&& props[j].entry->Link_0.filter is None
    &&& props[j].entry->Link_0.target is Fixed
    &&& props[j].entry->Link_0.target->Fixed_0@ == "../../".spec_bytes()
        + crate::pos::format_block_position_spec(to)
}

/// The neighbouring coordinate one step down, wrapping at the range end.
pub open spec fn adj_dec(x: i32) -> i32 {
    if x == i32::MIN {
        i32::MAX
    } else {
        (x - 1) as i32
    }
}

/// The neighbouring coordinate one step up, wrapping at the range end.
pub open spec fn adj_inc(x: i32) -> i32 {
    if x == i32::MAX {
        i32::MIN
    } else {
        (x + 1) as i32
    }
}

/// The per-entity files: health, position and target, and for non-player
/// entities also the type file and, for living kinds, a `living` marker.
fn push_entity_files(out: &mut Vec<Proposal>, dir_slot: ParentSlot, full: bool, living: bool)
    requires
        slots_ok(old(out)@),
        match dir_slot {
            ParentSlot::Prev(j) => j < old(out)@.len(),
            ParentSlot::Root => true,
        },
    ensures
        slots_ok(final(out)@),
        final(out)@.len() == old(out)@.len() + entity_files_len(full, living),
        forall|k: int| 0 <= k < old(out)@.len() ==> final(out)@[k] == old(out)@[k],
        entity_files_at(final(out)@, old(out)@.len() as int, dir_slot, full, living),
{
    let ghost base = out@;
    out.push(
        Proposal {
            slot: dir_slot,
            name: nm("health"),
            entry: Entry::File(
                FileEntry::build(FileBehaviour::ReadWrite(CommandType::EntityHealth, BodyType::Float)).filter(
                    FileFilterFn::IsInGame,
                ).finish(),
            ),
        },
    );
    out.push(
        Proposal {
            slot: dir_slot,
            name: nm("position"),
            entry: Entry::File(
                FileEntry::build(
                    FileBehaviour::ReadWrite(CommandType::EntityPosition, BodyType::Position),
                ).filter(FileFilterFn::IsInGame).finish(),
            ),
        },
    );
    out.push(
        Proposal {
            slot: dir_slot,
            name: nm("target"),
            entry: Entry::File(
                FileEntry::build(
                    FileBehaviour::WriteOnly(CommandType::EntityTarget, BodyType::Position),
                ).filter(FileFilterFn::IsInGame).finish(),
            ),
        },
    );
    if full {
        out.push(
            Proposal {
                slot: dir_slot,
                name: nm("type"),
                entry: Entry::File(
                    FileEntry::build(
                        FileBehaviour::ReadOnly(CommandType::EntityType, BodyType::String),
                    ).filter(FileFilterFn::IsInGame).finish(),
                ),
            },
        );
        if living {
            out.push(
                Proposal {
                    slot: dir_slot,
                    name: nm("living"),
                    entry: Entry::File(
                        FileEntry::build(FileBehaviour::ForShow).filter(
                            FileFilterFn::IsInGame,
                        ).finish(),
                    ),
                },
            );
        }
    }
    proof {
        assert forall|k: int| 0 <= k < out@.len() implies (match (#[trigger] out@[k]).slot {
            ParentSlot::Prev(j) => j < k,
            ParentSlot::Root => true,
        }) by {
            if k < base.len() {
                assert(out@[k] == base[k]);
            }
        }
    }
}

/// One adjacent-block link.
fn push_adjacent(out: &mut Vec<Proposal>, dir_idx: usize, name: &str, x: i32, y: i32, z: i32)
    requires
        slots_ok(old(out)@),
        dir_idx < old(out)@.len(),
    ensures
        slots_ok(final(out)@),
        final(out)@.len() == old(out)@.len() + 1,
        forall|k: int| 0 <= k < old(out)@.len() ==> final(out)@[k] == old(out)@[k],
        adj_link_at(final(out)@, old(out)@.len() as int, name.spec_bytes(), BlockPos { x, y, z })
            || dir_idx != 2,
        dir_idx == 2 ==> adj_link_at(
            final(out)@,
            old(out)@.len() as int,
            name.spec_bytes(),
            BlockPos { x, y, z },
        ),
{
    let ghost base = out@;
    let mut target = nm("../../");
    let mut coords = format_block_position(&BlockPos { x, y, z });
    target.append(&mut coords);
    out.push(
        Proposal {
            slot: ParentSlot::Prev(dir_idx),
            name: nm(name),
            entry: Entry::Link(LinkEntry::build(LinkTargetFn::Fixed(target)).finish()),
        },
    );
    proof {
        assert forall|k: int| 0 <= k < out@.len() implies (match (#[trigger] out@[k]).slot {
            ParentSlot::Prev(j) => j < k,
            ParentSlot::Root => true,
        }) by {
            if k < base.len() {
                assert(out@[k] == base[k]);
            }
        }
    }
}

/// One coordinate step down, wrapping at the range end.
fn dec1(x: i32) -> (r: i32)
    ensures
        r == adj_dec(x),
{
    if x == i32::MIN {
        i32::MAX
    } else {
        x - 1
    }
}

/// One coordinate step up, wrapping at the range end.
fn inc1(x: i32) -> (r: i32)
    ensures
        r == adj_inc(x),
{
    if x == i32::MAX {
        i32::MIN
    } else {
        x + 1
    }
}

/// Produce the proposals of one generator for one snapshot.
pub fn generate(f: DynamicDirFn, state: &GameState) -> (r: Vec<Proposal>)
    ensures
        slots_ok(r@),
        r@.len() <= max_proposals(*state),
        f == DynamicDirFn::PlayerSubtree ==> r@.len() == 3 && entity_files_at(
            r@,
            0,
            ParentSlot::Root,
            false,
            false,
        ),
        f == DynamicDirFn::EntitiesById ==> r@.len() == entities_total(state.entities@)
            && entities_props_from(r@, state.entities@, 0),
        f == DynamicDirFn::BlockSubtree ==> (match state.block {
            Some(b) => block_props_ok(r@, b),
            None => r@.len() == 0,
        }),
{
    let mut out: Vec<Proposal> = Vec::new();
    match f {
        DynamicDirFn::PlayerSubtree => {
            push_entity_files(&mut out, ParentSlot::Root, false, false);
        },
        DynamicDirFn::EntitiesById => {
            let mut i: usize = 0;
            proof {
                assert(state.entities@.take(0) =~= Seq::<crate::state::EntityDetails>::empty());
            }
            while i < state.entities.len()
                invariant
                    i <= state.entities@.len(),
                    slots_ok(out@),
                    out@.len() <= 8 * i,
                    out@.len() == entities_total(state.entities@.take(i as int)),
                    entities_props_from(out@, state.entities@.take(i as int), 0),
                decreases state.entities@.len() - i,
            {
                let ed = state.entities[i];
                let dir_idx = out.len();
                let ghost base = out@;
                out.push(
                    Proposal {
                        slot: ParentSlot::Root,
                        name: crate::num::format_i32(ed.id),
                        entry: Entry::Dir(
                            DirEntry::build().associated_data(
                                EntryAssociatedData::EntityId(ed.id),
                            ).finish(),
                        ),
                    },
                );
                proof {
                    assert forall|k: int| 0 <= k < out@.len() implies (match (
                    #[trigger] out@[k]).slot {
                        ParentSlot::Prev(j) => j < k,
                        ParentSlot::Root => true,
                    }) by {
                        if k < base.len() {
                            assert(out@[k] == base[k]);
                        }
                    }
                }
                push_entity_files(&mut out, ParentSlot::Prev(dir_idx), true, ed.living);
                let cur_len = out.len();
                proof {
                    assert(cur_len >= dir_idx + 5);
                    let es_pre = state.entities@.take(i as int);
                    let es_now = state.entities@.take(i + 1);
                    assert(es_now.drop_last() =~= es_pre);
                    assert(es_now.last() == ed);
                    lemma_entities_total_snoc(es_pre, ed);
                    lemma_entities_props_extend(base, out@, es_pre, 0);
                    assert(entity_files_at(out@, dir_idx + 1, ParentSlot::Prev(dir_idx), true, ed.living));
                    lemma_entities_props_snoc(out@, es_pre, ed, 0);
                    assert(es_pre.push(ed) =~= es_now);
                }
                i = i + 1;
            }
            proof {
                assert(state.entities@.take(state.entities@.len() as int) =~= state.entities@);
            }
        },
        DynamicDirFn::BlockSubtree => {
            match &state.block {
                Some(b) => {
                    let p = b.pos;
                    out.push(
                        Proposal {
                            slot: ParentSlot::Root,
                            name: nm("type"),
                            entry: Entry::File(
                                FileEntry::build(
                                    FileBehaviour::ReadWrite(
                                        CommandType::BlockType,
                                        BodyType::String,
                                    ),
                                ).finish(),
                            ),
                        },
                    );
                    out.push(
                        Proposal {
                            slot: ParentSlot::Root,
                            name: nm("pos"),
                            entry: Entry::File(
                                FileEntry::build(
                                    FileBehaviour::Static(format_block_position(&p)),
                                ).finish(),
                            ),
                        },
                    );
                    let dir_idx = out.len();
                    out.push(
                        Proposal {
                            slot: ParentSlot::Root,
                            name: nm("adjacent"),
                            entry: Entry::Dir(DirEntry::default()),
                        },
                    );
                    proof {
                        assert(slots_ok(out@));
                    }
                    push_adjacent(&mut out, dir_idx, "west", dec1(p.x), p.y, p.z);
                    push_adjacent(&mut out, dir_idx, "east", inc1(p.x), p.y, p.z);
                    push_adjacent(&mut out, dir_idx, "below", p.x, dec1(p.y), p.z);
                    push_adjacent(&mut out, dir_idx, "above", p.x, inc1(p.y), p.z);
                    push_adjacent(&mut out, dir_idx, "north", p.x, p.y, dec1(p.z));
                    push_adjacent(&mut out, dir_idx, "south", p.x, p.y, inc1(p.z));
                    proof {
                        assert(block_props_ok(out@, *b));
                    }
                },
                None => {},
            }
        },
    }
    out
}

/// The proposal count of a snoc'd entity list.
proof fn lemma_entities_total_snoc(es: Seq<crate::state::EntityDetails>, e: crate::state::EntityDetails)
    ensures
        entities_total(es.push(e)) == entities_total(es) + entity_stride(e.living),
    decreases es.len(),
{
    if es.len() == 0 {
        assert(es.push(e)[0] == e);
        assert(es.push(e).drop_first() =~= Seq::<crate::state::EntityDetails>::empty());
        assert(entities_total(Seq::<crate::state::EntityDetails>::empty()) == 0);
        assert(entities_total(es) == 0);
    } else {
        assert(es.push(e)[0] == es[0]);
        assert(es.push(e).drop_first() =~= es.drop_first().push(e));
        lemma_entities_total_snoc(es.drop_first(), e);
    }
}

/// Entity blocks already in place survive appending more proposals.
proof fn lemma_entities_props_extend(
    p1: Seq<Proposal>,
    p2: Seq<Proposal>,
    es: Seq<crate::state::EntityDetails>,
    k: int,
)
    requires
        entities_props_from(p1, es, k),
        p1.len() <= p2.len(),
        forall|j: int| 0 <= j < p1.len() ==> p2[j] == #[trigger] p1[j],
    ensures
        entities_props_from(p2, es, k),
    decreases es.len(),
{
    if es.len() > 0 {
        lemma_entities_props_extend(p1, p2, es.drop_first(), k + entity_stride(es[0].living));
    }
}

/// Appending one entity's block to a complete proposal list extends the
/// entity-blocks predicate by one entity.
proof fn lemma_entities_props_snoc(
    props: Seq<Proposal>,
    es: Seq<crate::state::EntityDetails>,
    e: crate::state::EntityDetails,
    k: int,
)
    requires
        0 <= k <= props.len(),
        entities_props_from(props, es, k),
        k + entities_total(es) < usize::MAX,
        k + entities_total(es) + entity_stride(e.living) <= props.len(),
        entities_total(es) >= 0,
        props[k + entities_total(es)].slot == ParentSlot::Root,
        props[k + entities_total(es)].name@ == crate::num::int_decimal(e.id as int),
        entity_dir_entry(props[k + entities_total(es)].entry, e.id),
        entity_files_at(
            props,
            k + entities_total(es) + 1,
            ParentSlot::Prev((k + entities_total(es)) as usize),
            true,
            e.living,
        ),
    ensures
        entities_props_from(props, es.push(e), k),
    decreases es.len(),
{
    lemma_entities_total_nonneg(es);
    if es.len() == 0 {
        assert(es.push(e)[0] == e);
        assert(es.push(e).drop_first() =~= Seq::<crate::state::EntityDetails>::empty());
        assert(entities_total(es) == 0);
        assert(entities_props_from(
            props,
            Seq::<crate::state::EntityDetails>::empty(),
            k + entity_stride(e.living),
        ));
    } else {
        assert(es.push(e)[0] == es[0]);
        assert(es.push(e).drop_first() =~= es.drop_first().push(e));
        lemma_entities_total_nonneg(es.drop_first());
        lemma_entities_props_snoc(props, es.drop_first(), e, k + entity_stride(es[0].living));
    }
}

/// Entity lists never propose a negative number of entries.
proof fn lemma_entities_total_nonneg(es: Seq<crate::state::EntityDetails>)
    ensures
        entities_total(es) >= 0,
    decreases es.len(),
{
    if es.len() > 0 {
        lemma_entities_total_nonneg(es.drop_first());
    }
}

/// Build the static tree: the player subtree, the three worlds with their
/// entity and block directories, the version file and the command file.
/// The dynamic tables start empty.
#[verifier::rlimit(100)]
pub fn create_structure() -> (r: FilesystemStructure)
    ensures
        r.inv(),
        r.reg().dom().contains(1),
        root_subtree_ok(r.reg(), r.kids(), r.phs()),
        r.dyns() == Map::<u64, Vec<(DynamicStateType, crate::registry::DynRecord)>>::empty(),
{
    let mut builder = FilesystemStructure::builder();

    let ghost g0 = builder;
    let player = player_dir(&mut builder);
    let ghost gp = builder;
    let worlds = worlds_dir(&mut builder);
    let ghost gw = builder;
    proof {
        assert(gp.reg().dom().contains(player));
        assert(player != 1 && gp.kids()[player]@[7].inode != 1);
        assert(gw.kids().dom().contains(player) && gw.kids()[player] == gp.kids()[player]);
        carry_player(gp, gw, player);
        assert(gw.kids()[1]@.len() == 2);
        assert(gw.kids()[1]@[0].inode == player && gw.kids()[1]@[0].name@
            == "player".spec_bytes());
        assert(gw.kids()[1]@[1].inode == worlds && gw.kids()[1]@[1].name@
            == "worlds".spec_bytes());
    }

    let root = builder.root();
    let version = builder.add_entry(
        root,
        "version",
        Entry::File(FileEntry::build(FileBehaviour::Static(nm("0.1.0"))).finish()),
    );
    let ghost gv = builder;
    proof {
        assert(gv.kids()[1]@.len() == 3);
        assert(gv.kids()[1]@.subrange(0, 2) == gw.kids()[1]@);
        assert(gv.kids()[1]@.last().inode == version && gv.kids()[1]@.last().name@
            == "version".spec_bytes());
        assert(gv.reg()[player] == gw.reg()[player]);
        carry_player(gw, gv, player);
        assert(worlds_subtree_ok(gv.reg(), gv.kids(), gv.phs(), worlds)) by {
            carry_worlds_step(gw, gv, worlds);
        }
    }
    let command = builder.add_entry(
        root,
        "command",
        Entry::File(
            FileEntry::build(
                FileBehaviour::WriteOnly(CommandType::ServerCommand, BodyType::String),
            ).filter(FileFilterFn::IsInGame).finish(),
        ),
    );
    proof {
        let gc = builder;
        assert(gc.kids()[1]@.len() == 4);
        assert(gc.kids()[1]@.subrange(0, 3) == gv.kids()[1]@);
        assert(gc.kids()[1]@.last().inode == command && gc.kids()[1]@.last().name@
            == "command".spec_bytes());
        carry_player(gv, gc, player);
        assert(worlds_subtree_ok(gc.reg(), gc.kids(), gc.phs(), worlds)) by {
            carry_worlds_step(gv, gc, worlds);
        }
        assert(gc.reg()[version] == gv.reg()[version]);
        assert(gc.kids()[1]@[0].inode == player && gc.kids()[1]@[1].inode == worlds
            && gc.kids()[1]@[2].inode == version && gc.kids()[1]@[3].inode == command);
        assert(root_subtree_ok(gc.reg(), gc.kids(), gc.phs()));
    }

    builder.finish()
}

/// The `player` directory and its static files and links.
#[verifier::rlimit(100)]
fn player_dir(builder: &mut FilesystemStructureBuilder) -> (r: u64)
    requires
        old(builder).inv(),
        old(builder).reg().dom().contains(1),
        old(builder).statics_used() < crate::inode::STATIC_MAX - 64,
    ensures
        final(builder).inv(),
        final(builder).reg().dom().contains(1),
        final(builder).statics_used() <= old(builder).statics_used() + 12,
        player_subtree_ok(final(builder).reg(), final(builder).kids(), r),
        // the player dir is appended to the root's children
        final(builder).kids().dom().contains(1),
        final(builder).kids()[1]@.len() == (if old(builder).kids().dom().contains(1) {
            old(builder).kids()[1]@.len() + 1int
        } else {
            1int
        }),
        final(builder).kids()[1]@.last().inode == r,
        final(builder).kids()[1]@.last().name@ == "player".spec_bytes(),
        old(builder).kids().dom().contains(1) ==> final(builder).kids()[1]@.subrange(
            0,
            old(builder).kids()[1]@.len() as int,
        ) == old(builder).kids()[1]@,
        // nothing else is touched
        forall|i: u64| #[trigger]
            old(builder).reg().dom().contains(i) ==> final(builder).reg().dom().contains(i)
                && final(builder).reg()[i] == old(builder).reg()[i],
        forall|q: u64|
            #[trigger] old(builder).kids().dom().contains(q) && q != 1
                ==> final(builder).kids().dom().contains(q)
                && final(builder).kids()[q] == old(builder).kids()[q],
        final(builder).dyns() == old(builder).dyns(),
        final(builder).phs() == old(builder).phs(),
        // the player dir and its control dir are fresh
        forall|i: u64| #[trigger]
            old(builder).reg().dom().contains(i) ==> i != r
                && i != final(builder).kids()[r]@[7].inode,
{
    let root = builder.root();
    let dir = builder.add_entry(
        root,
        "player",
        Entry::Dir(
            DirEntry::build().associated_data(EntryAssociatedData::PlayerId).dynamic(
                DynamicStateType::PlayerId,
                DynamicDirFn::PlayerSubtree,
            ).finish(),
        ),
    );
    let ghost g1 = *builder;
    proof {
        assert(g1.kids().dom().contains(1) && g1.kids()[1]@.len() == (if old(builder).kids().dom().contains(1) { old(builder).kids()[1]@.len() + 1int } else { 1int }));
        assert(g1.kids()[1]@.last().inode == dir && g1.kids()[1]@.last().name@ == "player".spec_bytes());
        assert(g1.reg().dom().contains(dir));
    }
    let n0 = builder.add_entry(
        dir,
        "name",
        Entry::File(
            FileEntry::build(FileBehaviour::ReadOnly(CommandType::PlayerName, BodyType::String)).finish(),
        ),
    );
    let ghost g2 = *builder;
    proof {
        assert(g2.kids().dom().contains(dir) && g2.kids()[dir]@.len() == 1);
        assert(g2.kids()[dir]@.last().inode == n0 && g2.kids()[dir]@.last().name@ == "name".spec_bytes());
        assert(g2.kids().dom().contains(1) && g2.kids()[1] == g1.kids()[1]);
        assert(g2.reg().dom().contains(dir) && g2.reg()[dir] == g1.reg()[dir]);
        assert(g2.reg().dom().contains(n0));
    }
    let n1 = builder.add_entry(
        dir,
        "gamemode",
        Entry::File(
            FileEntry::build(
                FileBehaviour::ReadWrite(CommandType::PlayerGamemode, BodyType::String),
            ).finish(),
        ),
    );
    let ghost g3 = *builder;
    proof {
        assert(g3.kids()[dir]@.len() == 1 + 1);
        assert(g3.kids()[dir]@.subrange(0, 1) == g2.kids()[dir]@);
        assert(g3.kids()[dir]@.last().inode == n1 && g3.kids()[dir]@.last().name@ == "gamemode".spec_bytes());
        assert(g3.kids().dom().contains(1) && g3.kids()[1] == g2.kids()[1]);
        assert(g3.reg().dom().contains(dir) && g3.reg()[dir] == g2.reg()[dir]);
        assert(g3.reg().dom().contains(n0) && g3.reg()[n0] == g2.reg()[n0]);
        assert(g3.reg().dom().contains(n1));
    }
    let n2 = builder.add_entry(
        dir,
        "hunger",
        Entry::File(
            FileEntry::build(
                FileBehaviour::ReadWrite(CommandType::PlayerHunger, BodyType::Integer),
            ).finish(),
        ),
    );
    let ghost g4 = *builder;
    proof {
        assert(g4.kids()[dir]@.len() == 2 + 1);
        assert(g4.kids()[dir]@.subrange(0, 2) == g3.kids()[dir]@);
        assert(g4.kids()[dir]@.last().inode == n2 && g4.kids()[dir]@.last().name@ == "hunger".spec_bytes());
        assert(g4.kids().dom().contains(1) && g4.kids()[1] == g3.kids()[1]);
        assert(g4.reg().dom().contains(dir) && g4.reg()[dir] == g3.reg()[dir]);
        assert(g4.reg().dom().contains(n0) && g4.reg()[n0] == g3.reg()[n0]);
        assert(g4.reg().dom().contains(n1) && g4.reg()[n1] == g3.reg()[n1]);
        assert(g4.reg().dom().contains(n2));
    }
    let n3 = builder.add_entry(
        dir,
        "saturation",
        Entry::File(
            FileEntry::build(
                FileBehaviour::ReadWrite(CommandType::PlayerSaturation, BodyType::Float),
            ).finish(),
        ),
    );
    let ghost g5 = *builder;
    proof {
        assert(g5.kids()[dir]@.len() == 3 + 1);
        assert(g5.kids()[dir]@.subrange(0, 3) == g4.kids()[dir]@);
        assert(g5.kids()[dir]@.last().inode == n3 && g5.kids()[dir]@.last().name@ == "saturation".spec_bytes());
        assert(g5.kids().dom().contains(1) && g5.kids()[1] == g4.kids()[1]);
        assert(g5.reg().dom().contains(dir) && g5.reg()[dir] == g4.reg()[dir]);
        assert(g5.reg().dom().contains(n0) && g5.reg()[n0] == g4.reg()[n0]);
        assert(g5.reg().dom().contains(n1) && g5.reg()[n1] == g4.reg()[n1]);
        assert(g5.reg().dom().contains(n2) && g5.reg()[n2] == g4.reg()[n2]);
        assert(g5.reg().dom().contains(n3));
    }
    let n4 = builder.add_entry(
        dir,
        "exhaustion",
        Entry::File(
            FileEntry::build(
                FileBehaviour::ReadWrite(CommandType::PlayerExhaustion, BodyType::Float),
            ).finish(),
        ),
    );
    let ghost g6 = *builder;
    proof {
        assert(g6.kids()[dir]@.len() == 4 + 1);
        assert(g6.kids()[dir]@.subrange(0, 4) == g5.kids()[dir]@);
        assert(g6.kids()[dir]@.last().inode == n4 && g6.kids()[dir]@.last().name@ == "exhaustion".spec_bytes());
        assert(g6.kids().dom().contains(1) && g6.kids()[1] == g5.kids()[1]);
        assert(g6.reg().dom().contains(dir) && g6.reg()[dir] == g5.reg()[dir]);
        assert(g6.reg().dom().contains(n0) && g6.reg()[n0] == g5.reg()[n0]);
        assert(g6.reg().dom().contains(n1) && g6.reg()[n1] == g5.reg()[n1]);
        assert(g6.reg().dom().contains(n2) && g6.reg()[n2] == g5.reg()[n2]);
        assert(g6.reg().dom().contains(n3) && g6.reg()[n3] == g5.reg()[n3]);
        assert(g6.reg().dom().contains(n4));
    }
    let n5 = builder.add_entry(
        dir,
        "entity",
        Entry::Link(
            LinkEntry::build(LinkTargetFn::PlayerEntity).filter(FileFilterFn::IsInGame).finish(),
        ),
    );
    let ghost g7 = *builder;
    proof {
        assert(g7.kids()[dir]@.len() == 5 + 1);
        assert(g7.kids()[dir]@.subrange(0, 5) == g6.kids()[dir]@);
        assert(g7.kids()[dir]@.last().inode == n5 && g7.kids()[dir]@.last().name@ == "entity".spec_bytes());
        assert(g7.kids().dom().contains(1) && g7.kids()[1] == g6.kids()[1]);
        assert(g7.reg().dom().contains(dir) && g7.reg()[dir] == g6.reg()[dir]);
        assert(g7.reg().dom().contains(n0) && g7.reg()[n0] == g6.reg()[n0]);
        assert(g7.reg().dom().contains(n1) && g7.reg()[n1] == g6.reg()[n1]);
        assert(g7.reg().dom().contains(n2) && g7.reg()[n2] == g6.reg()[n2]);
        assert(g7.reg().dom().contains(n3) && g7.reg()[n3] == g6.reg()[n3]);
        assert(g7.reg().dom().contains(n4) && g7.reg()[n4] == g6.reg()[n4]);
        assert(g7.reg().dom().contains(n5));
    }
    let n6 = builder.add_entry(
        dir,
        "world",
        Entry::Link(
            LinkEntry::build(LinkTargetFn::PlayerWorld).filter(FileFilterFn::IsInGame).finish(),
        ),
    );
    let ghost g8 = *builder;
    proof {
        assert(g8.kids()[dir]@.len() == 6 + 1);
        assert(g8.kids()[dir]@.subrange(0, 6) == g7.kids()[dir]@);
        assert(g8.kids()[dir]@.last().inode == n6 && g8.kids()[dir]@.last().name@ == "world".spec_bytes());
        assert(g8.kids().dom().contains(1) && g8.kids()[1] == g7.kids()[1]);
        assert(g8.reg().dom().contains(dir) && g8.reg()[dir] == g7.reg()[dir]);
        assert(g8.reg().dom().contains(n0) && g8.reg()[n0] == g7.reg()[n0]);
        assert(g8.reg().dom().contains(n1) && g8.reg()[n1] == g7.reg()[n1]);
        assert(g8.reg().dom().contains(n2) && g8.reg()[n2] == g7.reg()[n2]);
        assert(g8.reg().dom().contains(n3) && g8.reg()[n3] == g7.reg()[n3]);
        assert(g8.reg().dom().contains(n4) && g8.reg()[n4] == g7.reg()[n4]);
        assert(g8.reg().dom().contains(n5) && g8.reg()[n5] == g7.reg()[n5]);
        assert(g8.reg().dom().contains(n6));
    }
    let control = builder.add_entry(
        dir,
        "control",
        Entry::Dir(DirEntry::build().filter(DirFilterFn::InGameShowAll).finish()),
    );
    let ghost g9 = *builder;
    proof {
        assert(g9.kids()[dir]@.len() == 7 + 1);
        assert(g9.kids()[dir]@.subrange(0, 7) == g8.kids()[dir]@);
        assert(g9.kids()[dir]@.last().inode == control && g9.kids()[dir]@.last().name@ == "control".spec_bytes());
        assert(g9.kids().dom().contains(1) && g9.kids()[1] == g8.kids()[1]);
        assert(g9.reg().dom().contains(dir) && g9.reg()[dir] == g8.reg()[dir]);
        assert(g9.reg().dom().contains(n0) && g9.reg()[n0] == g8.reg()[n0]);
        assert(g9.reg().dom().contains(n1) && g9.reg()[n1] == g8.reg()[n1]);
        assert(g9.reg().dom().contains(n2) && g9.reg()[n2] == g8.reg()[n2]);
        assert(g9.reg().dom().contains(n3) && g9.reg()[n3] == g8.reg()[n3]);
        assert(g9.reg().dom().contains(n4) && g9.reg()[n4] == g8.reg()[n4]);
        assert(g9.reg().dom().contains(n5) && g9.reg()[n5] == g8.reg()[n5]);
        assert(g9.reg().dom().contains(n6) && g9.reg()[n6] == g8.reg()[n6]);
        assert(g9.reg().dom().contains(control));
    }
    let c0 = builder.add_entry(
        control,
        "say",
        Entry::File(
            FileEntry::build(FileBehaviour::WriteOnly(CommandType::ControlSay, BodyType::String)).finish(),
        ),
    );
    let ghost g10 = *builder;
    proof {
        assert(g10.kids().dom().contains(control) && g10.kids()[control]@.len() == 1);
        assert(g10.kids()[control]@.last().inode == c0 && g10.kids()[control]@.last().name@ == "say".spec_bytes());
        assert(g10.kids().dom().contains(1) && g10.kids()[1] == g9.kids()[1]);
        assert(g10.kids().dom().contains(dir) && g10.kids()[dir] == g9.kids()[dir]);
        assert(g10.reg().dom().contains(dir) && g10.reg()[dir] == g9.reg()[dir]);
        assert(g10.reg().dom().contains(n0) && g10.reg()[n0] == g9.reg()[n0]);
        assert(g10.reg().dom().contains(n1) && g10.reg()[n1] == g9.reg()[n1]);
        assert(g10.reg().dom().contains(n2) && g10.reg()[n2] == g9.reg()[n2]);
        assert(g10.reg().dom().contains(n3) && g10.reg()[n3] == g9.reg()[n3]);
        assert(g10.reg().dom().contains(n4) && g10.reg()[n4] == g9.reg()[n4]);
        assert(g10.reg().dom().contains(n5) && g10.reg()[n5] == g9.reg()[n5]);
        assert(g10.reg().dom().contains(n6) && g10.reg()[n6] == g9.reg()[n6]);
        assert(g10.reg().dom().contains(control) && g10.reg()[control] == g9.reg()[control]);
        assert(g10.reg().dom().contains(c0));
    }
    let c1 = builder.add_entry(
        control,
        "jump",
        Entry::File(
            FileEntry::build(FileBehaviour::WriteOnly(CommandType::ControlJump, BodyType::String)).finish(),
        ),
    );
    let ghost g11 = *builder;
    proof {
        assert(g11.kids()[control]@.len() == 1 + 1);
        assert(g11.kids()[control]@.subrange(0, 1) == g10.kids()[control]@);
        assert(g11.kids()[control]@.last().inode == c1 && g11.kids()[control]@.last().name@ == "jump".spec_bytes());
        assert(g11.kids().dom().contains(1) && g11.kids()[1] == g10.kids()[1]);
        assert(g11.kids().dom().contains(dir) && g11.kids()[dir] == g10.kids()[dir]);
        assert(g11.reg().dom().contains(dir) && g11.reg()[dir] == g10.reg()[dir]);
        assert(g11.reg().dom().contains(n0) && g11.reg()[n0] == g10.reg()[n0]);
        assert(g11.reg().dom().contains(n1) && g11.reg()[n1] == g10.reg()[n1]);
        assert(g11.reg().dom().contains(n2) && g11.reg()[n2] == g10.reg()[n2]);
        assert(g11.reg().dom().contains(n3) && g11.reg()[n3] == g10.reg()[n3]);
        assert(g11.reg().dom().contains(n4) && g11.reg()[n4] == g10.reg()[n4]);
        assert(g11.reg().dom().contains(n5) && g11.reg()[n5] == g10.reg()[n5]);
        assert(g11.reg().dom().contains(n6) && g11.reg()[n6] == g10.reg()[n6]);
        assert(g11.reg().dom().contains(control) && g11.reg()[control] == g10.reg()[control]);
        assert(g11.reg().dom().contains(c0) && g11.reg()[c0] == g10.reg()[c0]);
        assert(g11.reg().dom().contains(c1));
    }
    let c2 = builder.add_entry(
        control,
        "move",
        Entry::File(
            FileEntry::build(
                FileBehaviour::WriteOnly(CommandType::ControlMove, BodyType::Position),
            ).finish(),
        ),
    );
    let ghost g12 = *builder;
    proof {
        assert(g12.kids()[control]@.len() == 2 + 1);
        assert(g12.kids()[control]@.subrange(0, 2) == g11.kids()[control]@);
        assert(g12.kids()[control]@.last().inode == c2 && g12.kids()[control]@.last().name@ == "move".spec_bytes());
        assert(g12.kids().dom().contains(1) && g12.kids()[1] == g11.kids()[1]);
        assert(g12.kids().dom().contains(dir) && g12.kids()[dir] == g11.kids()[dir]);
        assert(g12.reg().dom().contains(dir) && g12.reg()[dir] == g11.reg()[dir]);
        assert(g12.reg().dom().contains(n0) && g12.reg()[n0] == g11.reg()[n0]);
        assert(g12.reg().dom().contains(n1) && g12.reg()[n1] == g11.reg()[n1]);
        assert(g12.reg().dom().contains(n2) && g12.reg()[n2] == g11.reg()[n2]);
        assert(g12.reg().dom().contains(n3) && g12.reg()[n3] == g11.reg()[n3]);
        assert(g12.reg().dom().contains(n4) && g12.reg()[n4] == g11.reg()[n4]);
        assert(g12.reg().dom().contains(n5) && g12.reg()[n5] == g11.reg()[n5]);
        assert(g12.reg().dom().contains(n6) && g12.reg()[n6] == g11.reg()[n6]);
        assert(g12.reg().dom().contains(control) && g12.reg()[control] == g11.reg()[control]);
        assert(g12.reg().dom().contains(c0) && g12.reg()[c0] == g11.reg()[c0]);
        assert(g12.reg().dom().contains(c1) && g12.reg()[c1] == g11.reg()[c1]);
        assert(g12.reg().dom().contains(c2));
    }
    proof {
        let gf = *builder;
        assert(gf == g12);
        assert(gf.kids()[dir]@.len() == 8);
        assert(gf.kids()[dir]@[0].inode == n0 && gf.kids()[dir]@[0].name@
            == "name".spec_bytes());
        assert(gf.kids()[dir]@[1].inode == n1 && gf.kids()[dir]@[1].name@
            == "gamemode".spec_bytes());
        assert(gf.kids()[dir]@[2].inode == n2 && gf.kids()[dir]@[2].name@
            == "hunger".spec_bytes());
        assert(gf.kids()[dir]@[3].inode == n3 && gf.kids()[dir]@[3].name@
            == "saturation".spec_bytes());
        assert(gf.kids()[dir]@[4].inode == n4 && gf.kids()[dir]@[4].name@
            == "exhaustion".spec_bytes());
        assert(gf.kids()[dir]@[5].inode == n5 && gf.kids()[dir]@[5].name@
            == "entity".spec_bytes());
        assert(gf.kids()[dir]@[6].inode == n6 && gf.kids()[dir]@[6].name@
            == "world".spec_bytes());
        assert(gf.kids()[dir]@[7].inode == control && gf.kids()[dir]@[7].name@
            == "control".spec_bytes());
        assert(gf.kids()[control]@.len() == 3);
        assert(gf.kids()[control]@[0].inode == c0 && gf.kids()[control]@[0].name@
            == "say".spec_bytes());
        assert(gf.kids()[control]@[1].inode == c1 && gf.kids()[control]@[1].name@
            == "jump".spec_bytes());
        assert(gf.kids()[control]@[2].inode == c2 && gf.kids()[control]@[2].name@
            == "move".spec_bytes());
        assert(player_subtree_ok(gf.reg(), gf.kids(), dir));
        assert(gf.kids()[1]@.last().inode == dir && gf.kids()[1]@.last().name@
            == "player".spec_bytes());
        assert(gf.kids()[dir]@[7].inode == control);
        assert forall|i: u64| #[trigger]
            old(builder).reg().dom().contains(i) implies i != dir && i != control by {
            assert(g8.reg().dom().contains(i));
        }
    }
    dir
}

/// The `worlds` directory: one subtree per dimension.
#[verifier::rlimit(100)]
fn worlds_dir(builder: &mut FilesystemStructureBuilder) -> (r: u64)
    requires
        old(builder).inv(),
        old(builder).reg().dom().contains(1),
        old(builder).statics_used() < crate::inode::STATIC_MAX - 64,
    ensures
        final(builder).inv(),
        final(builder).reg().dom().contains(1),
        final(builder).statics_used() <= old(builder).statics_used() + 20,
        worlds_subtree_ok(final(builder).reg(), final(builder).kids(), final(builder).phs(), r),
        final(builder).kids().dom().contains(1),
        final(builder).kids()[1]@.len() == (if old(builder).kids().dom().contains(1) {
            old(builder).kids()[1]@.len() + 1int
        } else {
            1int
        }),
        final(builder).kids()[1]@.last().inode == r,
        final(builder).kids()[1]@.last().name@ == "worlds".spec_bytes(),
        old(builder).kids().dom().contains(1) ==> final(builder).kids()[1]@.subrange(
            0,
            old(builder).kids()[1]@.len() as int,
        ) == old(builder).kids()[1]@,
        forall|i: u64| #[trigger]
            old(builder).reg().dom().contains(i) ==> final(builder).reg().dom().contains(i)
                && final(builder).reg()[i] == old(builder).reg()[i],
        forall|q: u64|
            #[trigger] old(builder).kids().dom().contains(q) && q != 1
                ==> final(builder).kids().dom().contains(q)
                && final(builder).kids()[q] == old(builder).kids()[q],
        forall|o: u64| #[trigger]
            old(builder).phs().dom().contains(o) ==> final(builder).phs().dom().contains(o)
                && final(builder).phs()[o] == old(builder).phs()[o],
        final(builder).dyns() == old(builder).dyns(),
{
    let root = builder.root();
    let dir = builder.add_entry(
        root,
        "worlds",
        Entry::Dir(DirEntry::build().filter(DirFilterFn::InGameShowAll).finish()),
    );
    let ghost g1 = *builder;
    let w0 = one_world(builder, dir, "overworld", Dimension::Overworld);
    let ghost g2 = *builder;
    proof {
        assert(g1.kids().dom().contains(1) && g1.reg().dom().contains(dir));
        assert(g2.kids().dom().contains(1) && g2.kids()[1] == g1.kids()[1]);
        assert(g2.reg()[dir] == g1.reg()[dir]);
    }
    let w1 = one_world(builder, dir, "nether", Dimension::Nether);
    let ghost g3 = *builder;
    proof {
        assert(g2.kids().dom().contains(1) && g2.reg().dom().contains(dir));
        assert(g3.kids().dom().contains(1) && g3.kids()[1] == g2.kids()[1]);
        assert(g3.reg()[dir] == g2.reg()[dir]);
        assert(g3.kids()[dir]@.subrange(0, 1) == g2.kids()[dir]@);
        assert(g1.reg().dom().contains(dir));
        assert(dir != w0 && dir != g2.kids()[w0]@[0].inode && dir != g2.kids()[w0]@[2].inode);
        assert(world_subtree_ok(g3.reg(), g3.kids(), g3.phs(), w0, Dimension::Overworld)) by {
            carry_world(g2, g3, w0, Dimension::Overworld, dir);
        }
    }
    let w2 = one_world(builder, dir, "end", Dimension::End);
    proof {
        let gf = *builder;
        assert(g3.kids().dom().contains(1) && g3.reg().dom().contains(dir));
        assert(gf.kids().dom().contains(1) && gf.kids()[1] == g3.kids()[1]);
        assert(gf.reg()[dir] == g3.reg()[dir]);
        assert(gf.kids()[dir]@.subrange(0, 2) == g3.kids()[dir]@);
        assert(g2.reg().dom().contains(dir));
        assert(dir != w0 && dir != g3.kids()[w0]@[0].inode && dir != g3.kids()[w0]@[2].inode) by {
            assert(g3.kids()[w0] == g2.kids()[w0]);
        }
        assert(world_subtree_ok(gf.reg(), gf.kids(), gf.phs(), w0, Dimension::Overworld)) by {
            carry_world(g3, gf, w0, Dimension::Overworld, dir);
        }
        assert(dir != w1 && dir != g3.kids()[w1]@[0].inode && dir != g3.kids()[w1]@[2].inode);
        assert(world_subtree_ok(gf.reg(), gf.kids(), gf.phs(), w1, Dimension::Nether)) by {
            carry_world(g3, gf, w1, Dimension::Nether, dir);
        }
        assert(gf.kids()[dir]@.len() == 3);
        assert(gf.kids()[dir]@[0].inode == w0 && gf.kids()[dir]@[0].name@
            == "overworld".spec_bytes());
        assert(gf.kids()[dir]@[1].inode == w1 && gf.kids()[dir]@[1].name@
            == "nether".spec_bytes());
        assert(gf.kids()[dir]@[2].inode == w2 && gf.kids()[dir]@[2].name@
            == "end".spec_bytes());
        assert(worlds_subtree_ok(gf.reg(), gf.kids(), gf.phs(), dir));
        assert forall|i: u64| #[trigger]
            old(builder).reg().dom().contains(i) implies gf.reg().dom().contains(i)
            && gf.reg()[i] == old(builder).reg()[i] by {
            assert(g1.reg().dom().contains(i));
            assert(g2.reg().dom().contains(i));
            assert(g3.reg().dom().contains(i));
        }
        assert forall|q: u64|
            #[trigger] old(builder).kids().dom().contains(q) && q != 1 implies gf.kids(
        ).dom().contains(q) && gf.kids()[q] == old(builder).kids()[q] by {
            assert(q != dir);
            assert(g1.kids().dom().contains(q));
            assert(g2.kids().dom().contains(q));
            assert(g3.kids().dom().contains(q));
        }
        assert forall|o: u64| #[trigger]
            old(builder).phs().dom().contains(o) implies gf.phs().dom().contains(o)
            && gf.phs()[o] == old(builder).phs()[o] by {
            assert(g1.phs().dom().contains(o));
            assert(g2.phs().dom().contains(o));
            assert(g3.phs().dom().contains(o));
        }
    }
    dir
}

/// One world's subtree: its entities, its time file and its blocks dir with
/// the phantom block-coordinate rule.
#[verifier::rlimit(100)]
fn one_world(
    builder: &mut FilesystemStructureBuilder,
    dir: u64,
    name: &str,
    dimension: Dimension,
) -> (r: u64)
    requires
        old(builder).inv(),
        old(builder).reg().dom().contains(dir),
        old(builder).reg().dom().contains(1),
        crate::inode::spec_is_static(dir),
        old(builder).statics_used() < crate::inode::STATIC_MAX - 16,
    ensures
        final(builder).inv(),
        final(builder).reg().dom().contains(1),
        final(builder).reg().dom().contains(dir),
        final(builder).statics_used() <= old(builder).statics_used() + 6,
        world_subtree_ok(final(builder).reg(), final(builder).kids(), final(builder).phs(), r, dimension),
        // the world is appended to `dir`'s children under `name`
        final(builder).kids().dom().contains(dir),
        final(builder).kids()[dir]@.len() == (if old(builder).kids().dom().contains(dir) {
            old(builder).kids()[dir]@.len() + 1int
        } else {
            1int
        }),
        final(builder).kids()[dir]@.last().inode == r,
        final(builder).kids()[dir]@.last().name@ == name.spec_bytes(),
        old(builder).kids().dom().contains(dir) ==> final(builder).kids()[dir]@.subrange(
            0,
            old(builder).kids()[dir]@.len() as int,
        ) == old(builder).kids()[dir]@,
        // nothing already registered is touched
        forall|i: u64| #[trigger]
            old(builder).reg().dom().contains(i) ==> final(builder).reg().dom().contains(i)
                && final(builder).reg()[i] == old(builder).reg()[i],
        forall|q: u64|
            #[trigger] old(builder).kids().dom().contains(q) && q != dir
                ==> final(builder).kids().dom().contains(q)
                && final(builder).kids()[q] == old(builder).kids()[q],
        final(builder).dyns() == old(builder).dyns(),
        forall|o: u64| #[trigger]
            old(builder).phs().dom().contains(o) ==> final(builder).phs().dom().contains(o)
                && final(builder).phs()[o] == old(builder).phs()[o],
        // the subtree's directories are fresh: distinct from everything
        // registered before the call
        forall|i: u64| #[trigger]
            old(builder).reg().dom().contains(i) ==> i != r && i != final(builder).kids()[r]@[0].inode
                && i != final(builder).kids()[r]@[2].inode,
{
    let world = builder.add_entry(
        dir,
        name,
        Entry::Dir(
            DirEntry::build().associated_data(EntryAssociatedData::World(dimension)).finish(),
        ),
    );
    let ghost g1 = *builder;
    let entities = builder.add_entry(
        world,
        "entities",
        Entry::Dir(DirEntry::build().filter(DirFilterFn::InGameShowAll).finish()),
    );
    let ghost g2 = *builder;
    proof {
        assert(g2.kids().dom().contains(world) && g2.kids()[world]@.len() == 1);
        assert(g2.kids()[world]@.last().inode == entities && g2.kids()[world]@.last().name@
            == "entities".spec_bytes());
        assert(g2.reg()[world] == g1.reg()[world]);
    }
    let by_id = builder.add_entry(
        entities,
        "by-id",
        Entry::Dir(
            DirEntry::build().dynamic(
                DynamicStateType::EntityIds,
                DynamicDirFn::EntitiesById,
            ).finish(),
        ),
    );
    let ghost g3 = *builder;
    proof {
        assert(g3.kids().dom().contains(entities) && g3.kids()[entities]@.len() == 1);
        assert(g3.kids()[entities]@.last().inode == by_id && g3.kids()[entities]@.last().name@
            == "by-id".spec_bytes());
        assert(g3.kids()[world] == g2.kids()[world]);
        assert(g3.reg()[world] == g2.reg()[world] && g3.reg()[entities] == g2.reg()[entities]);
    }
    let time = builder.add_entry(
        world,
        "time",
        Entry::File(
            FileEntry::build(FileBehaviour::ReadWrite(CommandType::WorldTime, BodyType::Integer)).finish(),
        ),
    );
    let ghost g4 = *builder;
    proof {
        assert(g4.kids()[world]@.len() == 2);
        assert(g4.kids()[world]@.subrange(0, 1) == g3.kids()[world]@);
        assert(g4.kids()[world]@.last().inode == time && g4.kids()[world]@.last().name@
            == "time".spec_bytes());
        assert(g4.kids()[entities] == g3.kids()[entities]);
        assert(g4.reg()[world] == g3.reg()[world] && g4.reg()[entities] == g3.reg()[entities]
            && g4.reg()[by_id] == g3.reg()[by_id]);
    }
    let blocks_dir = builder.add_entry(world, "blocks", Entry::Dir(DirEntry::default()));
    let ghost g5 = *builder;
    proof {
        assert(g5.kids()[world]@.len() == 3);
        assert(g5.kids()[world]@.subrange(0, 2) == g4.kids()[world]@);
        assert(g5.kids()[world]@.last().inode == blocks_dir && g5.kids()[world]@.last().name@
            == "blocks".spec_bytes());
        assert(g5.kids()[entities] == g4.kids()[entities]);
        assert(g5.reg()[world] == g4.reg()[world] && g5.reg()[entities] == g4.reg()[entities]
            && g5.reg()[by_id] == g4.reg()[by_id] && g5.reg()[time] == g4.reg()[time]);
    }
    builder.add_entry(
        blocks_dir,
        "README",
        Entry::File(
            FileEntry::build(
                FileBehaviour::Static(
                    nm("Path format is ./x,y,z or ./x\\ y\\ z\ne.g. 0,64,100 or \"0.5 22.3 41.5555\"\n"),
                ),
            ).finish(),
        ),
    );
    let ghost g6 = *builder;
    proof {
        assert(g6.kids().dom().contains(blocks_dir) && g6.kids()[blocks_dir]@.len() == 1);
        assert(g6.kids()[blocks_dir]@.last().name@ == "README".spec_bytes());
        assert(g6.kids()[world] == g5.kids()[world]);
        assert(g6.kids()[entities] == g5.kids()[entities]);
        assert(g6.reg()[world] == g5.reg()[world] && g6.reg()[entities] == g5.reg()[entities]
            && g6.reg()[by_id] == g5.reg()[by_id] && g6.reg()[time] == g5.reg()[time]
            && g6.reg()[blocks_dir] == g5.reg()[blocks_dir]);
        assert(g6.reg().dom().contains(g6.kids()[blocks_dir]@[0].inode));
    }
    builder.add_phantom(
        blocks_dir,
        PhantomChildFn::BlockCoords,
        PhantomDynamicInterestFn::BlockState,
        DynamicDirFn::BlockSubtree,
    );
    proof {
        let gf = *builder;
        assert(gf.phs().dom().contains(blocks_dir) && gf.phs()[blocks_dir]
            == (crate::registry::PhantomConfig {
            parse: PhantomChildFn::BlockCoords,
            interest: PhantomDynamicInterestFn::BlockState,
            dyn_fn: DynamicDirFn::BlockSubtree,
        }));
        assert(world_subtree_ok(gf.reg(), gf.kids(), gf.phs(), world, dimension));
        assert(gf.kids()[world]@[0].inode == entities && gf.kids()[world]@[2].inode
            == blocks_dir);
        assert forall|i: u64| #[trigger]
            old(builder).reg().dom().contains(i) implies i != world && i != entities && i
            != blocks_dir by {
            assert(g1.reg().dom().contains(i));
            assert(g4.reg().dom().contains(i));
        }
    }
    world
}

} // verus!
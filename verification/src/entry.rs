//! The entry model: what an inode stands for.
//!
//! An entry is a file, a directory or a symlink. Filters, link targets,
//! dynamic-children generators and phantom-name parsers are closed sets of
//! behaviours, held as plain data, so entries compare by content and the
//! generation diff can recognise a stable entry across regenerations.

use vstd::prelude::*;

use vstd::string::StringSliceAdditionalSpecFns;

use crate::command::{BodyType, CommandState, CommandType, TargetEntity};
use crate::num::{format_i32, int_decimal};
use crate::pos::{dimension_name, BlockPos, Dimension};
use crate::state::{GameState, GameStateInterest};

verus! {

/// What a filter says about an entry in a listing.
#[derive(Clone, Copy, Debug, PartialEq, Eq, Structural)]
pub enum EntryFilterResult {
    IncludeSelf,
    IncludeAllChildren,
    Exclude,
}

/// The filter predicates a file or link can carry.
#[derive(Clone, Copy, Debug, PartialEq, Eq, Structural)]
pub enum FileFilterFn {
    /// Visible only while the player is in a game.
    IsInGame,
}

/// The filter predicates a directory can carry.
#[derive(Clone, Copy, Debug, PartialEq, Eq, Structural)]
pub enum DirFilterFn {
    /// In a game: include this dir and list all its children unfiltered;
    /// otherwise exclude it.
    InGameShowAll,
}

/// The dynamic-children generators (dispatched in `crate::structure`).
#[derive(Clone, Copy, Debug, PartialEq, Eq, Structural)]
pub enum DynamicDirFn {
    /// The player's own entity subtree, under the `player` dir itself.
    PlayerSubtree,
    /// One directory per live entity, under `entities/by-id`.
    EntitiesById,
    /// The subtree of one block, under a phantom block dir.
    BlockSubtree,
}

/// The kinds of dynamic state a directory's children can derive from.
#[derive(Clone, Copy, Debug, PartialEq, Eq, Structural)]
pub enum DynamicStateType {
    EntityIds,
    PlayerId,
    Block(BlockPos),
}

/// A parsed phantom child name.
#[derive(Clone, Copy, Debug, PartialEq, Eq, Structural)]
pub enum PhantomChildType {
    Block(BlockPos),
}

/// The phantom-name parsers a directory can register.
#[derive(Clone, Copy, Debug, PartialEq, Eq, Structural)]
pub enum PhantomChildFn {
    /// A block coordinate such as `10,64,-5`.
    BlockCoords,
}

/// Maps a parsed phantom name to the dynamic state its subtree needs.
#[derive(Clone, Copy, Debug, PartialEq, Eq, Structural)]
pub enum PhantomDynamicInterestFn {
    BlockState,
}

/// What `PhantomChildFn` yields for a name.
pub open spec fn phantom_parse_spec(f: PhantomChildFn, name: Seq<u8>) -> Option<PhantomChildType> {
    match f {
        PhantomChildFn::BlockCoords => match crate::pos::parse_block_position_spec(name) {
            Some((x, y, z)) => if i32::MIN <= x <= i32::MAX && i32::MIN <= y <= i32::MAX
                && i32::MIN <= z <= i32::MAX {
                Some(
                    PhantomChildType::Block(
                        BlockPos { x: x as i32, y: y as i32, z: z as i32 },
                    ),
                )
            } else {
                None
            },
            None => None,
        },
    }
}

impl PhantomChildFn {
    /// Parse a looked-up name as a phantom child.
    pub fn parse(&self, name: &[u8]) -> (r: Option<PhantomChildType>)
        ensures
            r == phantom_parse_spec(*self, name@),
    {
        match self {
            PhantomChildFn::BlockCoords => match crate::pos::parse_block_position(name) {
                Some(p) => Some(PhantomChildType::Block(p)),
                None => None,
            },
        }
    }
}

impl PhantomDynamicInterestFn {
    /// The dynamic state a phantom child's subtree derives from.
    pub fn interest(&self, ty: PhantomChildType) -> (r: DynamicStateType)
        ensures
            *self == PhantomDynamicInterestFn::BlockState ==> r == (match ty {
                PhantomChildType::Block(p) => DynamicStateType::Block(p),
            }),
    {
        match (self, ty) {
            (PhantomDynamicInterestFn::BlockState, PhantomChildType::Block(p)) => {
                DynamicStateType::Block(p)
            },
        }
    }
}

/// The link-target rules a symlink can carry.
#[derive(Clone, Debug)]
pub enum LinkTargetFn {
    /// `world/entities/by-id/<player entity id>`, while in a game.
    PlayerEntity,
    /// `../worlds/<dimension>`, while the player's world is known.
    PlayerWorld,
    /// A constant path, fixed when the link was generated.
    Fixed(Vec<u8>),
}

pub open spec fn link_target_eq(a: LinkTargetFn, b: LinkTargetFn) -> bool {
    match (a, b) {
        (LinkTargetFn::PlayerEntity, LinkTargetFn::PlayerEntity) => true,
        (LinkTargetFn::PlayerWorld, LinkTargetFn::PlayerWorld) => true,
        (LinkTargetFn::Fixed(p), LinkTargetFn::Fixed(q)) => p@ == q@,
        _ => false,
    }
}

/// The path a link resolves to under a given snapshot, if any.
pub open spec fn link_target_spec(t: LinkTargetFn, gs: GameState) -> Option<Seq<u8>> {
    match t {
        LinkTargetFn::PlayerEntity => match gs.player_entity_id {
            Some(id) => Some("world/entities/by-id/".spec_bytes() + int_decimal(id as int)),
            None => None,
        },
        LinkTargetFn::PlayerWorld => match gs.player_world {
            Some(d) => Some(
                "../worlds/".spec_bytes() + match d {
                    Dimension::Overworld => "overworld".spec_bytes(),
                    Dimension::Nether => "nether".spec_bytes(),
                    Dimension::End => "end".spec_bytes(),
                },
            ),
            None => None,
        },
        LinkTargetFn::Fixed(p) => Some(p@),
    }
}

impl LinkTargetFn {
    /// Resolve the link target under `gs`.
    pub fn target_path(&self, gs: &GameState) -> (r: Option<Vec<u8>>)
        ensures
            match r {
                Some(v) => link_target_spec(*self, *gs) == Some(v@),
                None => link_target_spec(*self, *gs) is None,
            },
    {
        match self {
            LinkTargetFn::PlayerEntity => match gs.player_entity_id {
                Some(id) => {
                    let mut out = vstd::slice::slice_to_vec("world/entities/by-id/".as_bytes());
                    let mut digits = format_i32(id);
                    out.append(&mut digits);
                    proof {
                        assert(out@ =~= "world/entities/by-id/".spec_bytes() + int_decimal(
                            id as int,
                        ));
                    }
                    Some(out)
                },
                None => None,
            },
            LinkTargetFn::PlayerWorld => match gs.player_world {
                Some(d) => {
                    let mut out = vstd::slice::slice_to_vec("../worlds/".as_bytes());
                    let mut name = vstd::slice::slice_to_vec(dimension_name(d).as_bytes());
                    let ghost name0 = name@;
                    out.append(&mut name);
                    proof {
                        assert(out@ =~= "../worlds/".spec_bytes() + name0);
                    }
                    Some(out)
                },
                None => None,
            },
            LinkTargetFn::Fixed(p) => Some(p.clone()),
        }
    }
}

/// The write transformation of a command-proxy file.
#[derive(Clone, Debug)]
pub enum CommandProxyFn {
    /// Pass the written text through as the server command; an empty write
    /// is invalid.
    Verbatim,
}

pub open spec fn proxy_cmd_spec(f: CommandProxyFn, input: Seq<u8>) -> Option<Seq<u8>> {
    match f {
        CommandProxyFn::Verbatim => if input.len() > 0 {
            Some(input)
        } else {
            None
        },
    }
}

impl CommandProxyFn {
    /// Turn written text into a server-command payload.
    pub fn produce(&self, input: &[u8]) -> (r: Option<Vec<u8>>)
        ensures
            match r {
                Some(v) => proxy_cmd_spec(*self, input@) == Some(v@),
                None => proxy_cmd_spec(*self, input@) is None,
            },
    {
        match self {
            CommandProxyFn::Verbatim => if input.len() > 0 {
                Some(vstd::slice::slice_to_vec(input))
            } else {
                None
            },
        }
    }
}

/// How a file behaves on read and write.
#[derive(Clone, Debug)]
pub enum FileBehaviour {
    ReadOnly(CommandType, BodyType),
    WriteOnly(CommandType, BodyType),
    ReadWrite(CommandType, BodyType),
    /// Constant content; offset/length-bounded reads.
    Static(Vec<u8>),
    /// Not readable or writable.
    ForShow,
    /// Reads return the readme; writes are transformed into a server command.
    CommandProxy { readme: Vec<u8>, produce_cmd_fn: CommandProxyFn },
}

pub open spec fn behaviour_eq(a: FileBehaviour, b: FileBehaviour) -> bool {
    match (a, b) {
        (FileBehaviour::ReadOnly(c1, t1), FileBehaviour::ReadOnly(c2, t2)) => c1 == c2 && t1 == t2,
        (FileBehaviour::WriteOnly(c1, t1), FileBehaviour::WriteOnly(c2, t2)) => c1 == c2 && t1
            == t2,
        (FileBehaviour::ReadWrite(c1, t1), FileBehaviour::ReadWrite(c2, t2)) => c1 == c2 && t1
            == t2,
        (FileBehaviour::Static(s1), FileBehaviour::Static(s2)) => s1@ == s2@,
        (FileBehaviour::ForShow, FileBehaviour::ForShow) => true,
        (
            FileBehaviour::CommandProxy { readme: r1, produce_cmd_fn: f1 },
            FileBehaviour::CommandProxy { readme: r2, produce_cmd_fn: f2 },
        ) => r1@ == r2@ && f1 == f2,
        _ => false,
    }
}

/// Per-entry context, applied along the ancestor walk.
#[derive(Clone, Copy, Debug, PartialEq, Eq, Structural)]
pub enum EntryAssociatedData {
    PlayerId,
    EntityId(i32),
    World(Dimension),
    Block(BlockPos),
}

/// First-writer-wins application to a command state: a field already set is
/// left alone.
pub open spec fn apply_to_state_spec(d: EntryAssociatedData, s: CommandState) -> CommandState {
    match d {
        EntryAssociatedData::EntityId(id) => if s.target_entity is None {
            CommandState { target_entity: Some(TargetEntity::Entity(id)), ..s }
        } else {
            s
        },
        EntryAssociatedData::PlayerId => if s.target_entity is None {
            CommandState { target_entity: Some(TargetEntity::Player), ..s }
        } else {
            s
        },
        EntryAssociatedData::World(dim) => if s.target_world is None {
            CommandState { target_world: Some(dim), ..s }
        } else {
            s
        },
        EntryAssociatedData::Block(p) => if s.target_block is None {
            CommandState { target_block: Some(p), ..s }
        } else {
            s
        },
    }
}

/// First-writer-wins application to an interest; entity targets do not
/// touch the interest.
pub open spec fn apply_to_interest_spec(
    d: EntryAssociatedData,
    i: GameStateInterest,
) -> GameStateInterest {
    match d {
        EntryAssociatedData::World(dim) => if i.target_world is None {
            GameStateInterest { target_world: Some(dim), ..i }
        } else {
            i
        },
        EntryAssociatedData::Block(p) => if i.target_block is None {
            GameStateInterest { target_block: Some(p), ..i }
        } else {
            i
        },
        _ => i,
    }
}

impl EntryAssociatedData {
    pub fn apply_to_state(&self, state: &mut CommandState)
        ensures
            *final(state) == apply_to_state_spec(*self, *old(state)),
    {
        match self {
            EntryAssociatedData::EntityId(id) => {
                if state.target_entity.is_none() {
                    state.target_entity = Some(TargetEntity::Entity(*id));
                }
            },
            EntryAssociatedData::PlayerId => {
                if state.target_entity.is_none() {
                    state.target_entity = Some(TargetEntity::Player);
                }
            },
            EntryAssociatedData::World(dim) => {
                if state.target_world.is_none() {
                    state.target_world = Some(*dim);
                }
            },
            EntryAssociatedData::Block(p) => {
                if state.target_block.is_none() {
                    state.target_block = Some(*p);
                }
            },
        }
    }

    pub fn apply_to_interest(&self, interest: &mut GameStateInterest)
        ensures
            *final(interest) == apply_to_interest_spec(*self, *old(interest)),
    {
        match self {
            EntryAssociatedData::World(dim) => {
                if interest.target_world.is_none() {
                    interest.target_world = Some(*dim);
                }
            },
            EntryAssociatedData::Block(p) => {
                if interest.target_block.is_none() {
                    interest.target_block = Some(*p);
                }
            },
            EntryAssociatedData::PlayerId => {},
            EntryAssociatedData::EntityId(_) => {},
        }
    }

    /// The context a phantom child's directory carries.
    pub fn of_phantom(ty: PhantomChildType) -> (r: Self)
        ensures
            r == of_phantom_spec(ty),
    {
        match ty {
            PhantomChildType::Block(p) => EntryAssociatedData::Block(p),
        }
    }
}

/// The context a phantom child's directory carries.
pub open spec fn of_phantom_spec(ty: PhantomChildType) -> EntryAssociatedData {
    match ty {
        PhantomChildType::Block(p) => EntryAssociatedData::Block(p),
    }
}

/// A file entry.
#[derive(Clone, Debug)]
pub struct FileEntry {
    pub behaviour: FileBehaviour,
    pub associated_data: Option<EntryAssociatedData>,
    pub filter: Option<FileFilterFn>,
}

/// A directory entry.
#[derive(Clone, Debug)]
pub struct DirEntry {
    pub dynamic: Option<(DynamicStateType, DynamicDirFn)>,
    pub associated_data: Option<EntryAssociatedData>,
    pub filter: Option<DirFilterFn>,
}

/// A symlink entry.
#[derive(Clone, Debug)]
pub struct LinkEntry {
    pub target: LinkTargetFn,
    pub filter: Option<FileFilterFn>,
}

/// An entry of the filesystem tree.
#[derive(Clone, Debug)]
pub enum Entry {
    File(FileEntry),
    Dir(DirEntry),
    Link(LinkEntry),
}

pub open spec fn file_eq(a: FileEntry, b: FileEntry) -> bool {
    &&& behaviour_eq(a.behaviour, b.behaviour)
    &&& a.associated_data == b.associated_data
    &&& a.filter == b.filter
}

pub open spec fn dir_eq(a: DirEntry, b: DirEntry) -> bool {
    &&& a.dynamic == b.dynamic
    &&& a.associated_data == b.associated_data
    &&& a.filter == b.filter
}

pub open spec fn link_eq(a: LinkEntry, b: LinkEntry) -> bool {
    &&& link_target_eq(a.target, b.target)
    &&& a.filter == b.filter
}

/// Content equality of entries: same variant, same behaviour, same context,
/// same filter, and for links the same target rule.
pub open spec fn entry_eq(a: Entry, b: Entry) -> bool {
    match (a, b) {
        (Entry::File(x), Entry::File(y)) => file_eq(x, y),
        (Entry::Dir(x), Entry::Dir(y)) => dir_eq(x, y),
        (Entry::Link(x), Entry::Link(y)) => link_eq(x, y),
        _ => false,
    }
}

impl Entry {
    pub fn as_dir(&self) -> (r: Option<&DirEntry>)
        ensures
            match r {
                Some(d) => *self is Dir && *d == self->Dir_0,
                None => !(*self is Dir),
            },
    {
        match self {
            Entry::Dir(dir) => Some(dir),
            _ => None,
        }
    }

    /// Content equality with another entry.
    pub fn content_eq(&self, other: &Entry) -> (r: bool)
        ensures
            r == entry_eq(*self, *other),
    {
        match (self, other) {
            (Entry::File(x), Entry::File(y)) => {
                let beq = match (&x.behaviour, &y.behaviour) {
                    (FileBehaviour::ReadOnly(c1, t1), FileBehaviour::ReadOnly(c2, t2)) => c1 == c2
                        && t1 == t2,
                    (FileBehaviour::WriteOnly(c1, t1), FileBehaviour::WriteOnly(c2, t2)) => c1
                        == c2 && t1 == t2,
                    (FileBehaviour::ReadWrite(c1, t1), FileBehaviour::ReadWrite(c2, t2)) => c1
                        == c2 && t1 == t2,
                    (FileBehaviour::Static(s1), FileBehaviour::Static(s2)) => bytes_eq(s1, s2),
                    (FileBehaviour::ForShow, FileBehaviour::ForShow) => true,
                    (
                        FileBehaviour::CommandProxy { readme: r1, produce_cmd_fn: f1 },
                        FileBehaviour::CommandProxy { readme: r2, produce_cmd_fn: f2 },
                    ) => bytes_eq(r1, r2) && matches!((f1, f2), (CommandProxyFn::Verbatim, CommandProxyFn::Verbatim)),
                    _ => false,
                };
                beq && x.associated_data == y.associated_data && x.filter == y.filter
            },
            (Entry::Dir(x), Entry::Dir(y)) => {
                let deq = match (&x.dynamic, &y.dynamic) {
                    (Some((ty1, f1)), Some((ty2, f2))) => ty1 == ty2 && f1 == f2,
                    (None, None) => true,
                    _ => false,
                };
                deq && x.associated_data == y.associated_data && x.filter == y.filter
            },
            (Entry::Link(x), Entry::Link(y)) => {
                let teq = match (&x.target, &y.target) {
                    (LinkTargetFn::PlayerEntity, LinkTargetFn::PlayerEntity) => true,
                    (LinkTargetFn::PlayerWorld, LinkTargetFn::PlayerWorld) => true,
                    (LinkTargetFn::Fixed(p), LinkTargetFn::Fixed(q)) => bytes_eq(p, q),
                    _ => false,
                };
                teq && x.filter == y.filter
            },
            _ => false,
        }
    }

    /// Whether a listing includes this entry under the given snapshot.
    pub fn filter(&self, state: &GameState) -> (r: EntryFilterResult)
        ensures
            r == entry_filter_spec(*self, state.player_entity_id is Some),
    {
        let in_game = state.is_in_game();
        match self {
            Entry::File(f) => match f.filter {
                Some(FileFilterFn::IsInGame) => if in_game {
                    EntryFilterResult::IncludeSelf
                } else {
                    EntryFilterResult::Exclude
                },
                None => EntryFilterResult::IncludeSelf,
            },
            Entry::Link(l) => match l.filter {
                Some(FileFilterFn::IsInGame) => if in_game {
                    EntryFilterResult::IncludeSelf
                } else {
                    EntryFilterResult::Exclude
                },
                None => EntryFilterResult::IncludeSelf,
            },
            Entry::Dir(d) => match d.filter {
                Some(DirFilterFn::InGameShowAll) => if in_game {
                    EntryFilterResult::IncludeAllChildren
                } else {
                    EntryFilterResult::Exclude
                },
                None => EntryFilterResult::IncludeSelf,
            },
        }
    }
}

/// What `Entry::filter` yields, as a function of being in a game.
pub open spec fn entry_filter_spec(e: Entry, in_game: bool) -> EntryFilterResult {
    match e {
        Entry::File(f) => match f.filter {
            Some(FileFilterFn::IsInGame) => if in_game {
                EntryFilterResult::IncludeSelf
            } else {
                EntryFilterResult::Exclude
            },
            None => EntryFilterResult::IncludeSelf,
        },
        Entry::Link(l) => match l.filter {
            Some(FileFilterFn::IsInGame) => if in_game {
                EntryFilterResult::IncludeSelf
            } else {
                EntryFilterResult::Exclude
            },
            None => EntryFilterResult::IncludeSelf,
        },
        Entry::Dir(d) => match d.filter {
            Some(DirFilterFn::InGameShowAll) => if in_game {
                EntryFilterResult::IncludeAllChildren
            } else {
                EntryFilterResult::Exclude
            },
            None => EntryFilterResult::IncludeSelf,
        },
    }
}

/// Byte-wise equality of two vectors.
pub fn bytes_eq(a: &Vec<u8>, b: &Vec<u8>) -> (r: bool)
    ensures
        r == (a@ == b@),
{
    if a.len() != b.len() {
        proof {
            assert(a@ != b@);
        }
        return false;
    }
    let mut i: usize = 0;
    while i < a.len()
        invariant
            i <= a@.len(),
            a@.len() == b@.len(),
            forall|j: int| 0 <= j < i ==> a@[j] == b@[j],
        decreases a@.len() - i,
    {
        if a[i] != b[i] {
            proof {
                assert(a@ != b@);
            }
            return false;
        }
        i = i + 1;
    }
    proof {
        assert(a@ =~= b@);
    }
    true
}

impl FileEntry {
    /// Start building a file with the given behaviour.
    pub fn build(behaviour: FileBehaviour) -> (r: FileEntryBuilder)
        ensures
            r.0.behaviour == behaviour,
            r.0.associated_data is None,
            r.0.filter is None,
    {
        FileEntryBuilder(FileEntry { behaviour, associated_data: None, filter: None })
    }

    pub fn behaviour(&self) -> (r: &FileBehaviour)
        ensures
            *r == self.behaviour,
    {
        &self.behaviour
    }

    pub fn associated_data(&self) -> (r: Option<EntryAssociatedData>)
        ensures
            r == self.associated_data,
    {
        self.associated_data
    }
}

pub struct FileEntryBuilder(pub FileEntry);

impl FileEntryBuilder {
    /// Overrides the parent directory's context.
    pub fn associated_data(self, data: EntryAssociatedData) -> (r: Self)
        ensures
            r.0 == (FileEntry { associated_data: Some(data), ..self.0 }),
    {
        let mut inner = self.0;
        inner.associated_data = Some(data);
        FileEntryBuilder(inner)
    }

    pub fn filter(self, filter: FileFilterFn) -> (r: Self)
        ensures
            r.0 == (FileEntry { filter: Some(filter), ..self.0 }),
    {
        let mut inner = self.0;
        inner.filter = Some(filter);
        FileEntryBuilder(inner)
    }

    pub fn finish(self) -> (r: FileEntry)
        ensures
            r == self.0,
    {
        self.0
    }
}

impl DirEntry {
    pub fn build() -> (r: DirEntryBuilder)
        ensures
            r.0.dynamic is None,
            r.0.associated_data is None,
            r.0.filter is None,
    {
        DirEntryBuilder(DirEntry { dynamic: None, associated_data: None, filter: None })
    }

    pub fn dynamic(&self) -> (r: Option<(DynamicStateType, DynamicDirFn)>)
        ensures
            r == self.dynamic,
    {
        self.dynamic
    }

    pub fn associated_data(&self) -> (r: Option<EntryAssociatedData>)
        ensures
            r == self.associated_data,
    {
        self.associated_data
    }
}

impl Default for DirEntry {
    /// A plain directory: no generator, no context, no filter.
    fn default() -> (r: Self)
        ensures
            r.dynamic is None,
            r.associated_data is None,
            r.filter is None,
    {
        DirEntry { dynamic: None, associated_data: None, filter: None }
    }
}

pub struct DirEntryBuilder(pub DirEntry);

impl DirEntryBuilder {
    pub fn dynamic(self, ty: DynamicStateType, dyn_fn: DynamicDirFn) -> (r: Self)
        ensures
            r.0 == (DirEntry { dynamic: Some((ty, dyn_fn)), ..self.0 }),
    {
        let mut inner = self.0;
        inner.dynamic = Some((ty, dyn_fn));
        DirEntryBuilder(inner)
    }

    pub fn associated_data(self, data: EntryAssociatedData) -> (r: Self)
        ensures
            r.0 == (DirEntry { associated_data: Some(data), ..self.0 }),
    {
        let mut inner = self.0;
        inner.associated_data = Some(data);
        DirEntryBuilder(inner)
    }

    pub fn filter(self, filter: DirFilterFn) -> (r: Self)
        ensures
            r.0 == (DirEntry { filter: Some(filter), ..self.0 }),
    {
        let mut inner = self.0;
        inner.filter = Some(filter);
        DirEntryBuilder(inner)
    }

    pub fn finish(self) -> (r: DirEntry)
        ensures
            r == self.0,
    {
        self.0
    }
}

impl LinkEntry {
    /// Start building a link with the given target rule.
    pub fn build(target: LinkTargetFn) -> (r: LinkEntryBuilder)
        ensures
            r.0.target == target,
            r.0.filter is None,
    {
        LinkEntryBuilder(LinkEntry { target, filter: None })
    }

    pub fn target(&self) -> (r: &LinkTargetFn)
        ensures
            *r == self.target,
    {
        &self.target
    }
}

pub struct LinkEntryBuilder(pub LinkEntry);

impl LinkEntryBuilder {
    pub fn filter(self, filter: FileFilterFn) -> (r: Self)
        ensures
            r.0 == (LinkEntry { filter: Some(filter), ..self.0 }),
    {
        let mut inner = self.0;
        inner.filter = Some(filter);
        LinkEntryBuilder(inner)
    }

    pub fn finish(self) -> (r: LinkEntry)
        ensures
            r == self.0,
    {
        self.0
    }
}

} // verus!

//! The filesystem operation surface, expressed over plain values.
//!
//! Each kernel operation splits into pure phases: a phase that inspects the
//! tree and says what must be fetched, and a phase that, given the fetched
//! snapshot or the game's reply, produces the kernel-visible outcome. The
//! socket work in between is the caller's.

use vstd::prelude::*;

use vstd::utf8::valid_utf8;

use crate::command::{Body, BodyType, CommandState, CommandType};
use crate::entry::{
    entry_filter_spec, Entry, EntryFilterResult, FileBehaviour,
};
use crate::registry::{
    cs_from, ChildLink, DynamicInterest, FilesystemStructure,
};
use crate::state::{CachedGameState, GameState};
use crate::wire::IpcError;

verus! {

pub const ENOENT: i32 = 2;

pub const EIO: i32 = 5;

pub const EINVAL: i32 = 22;

pub const ENOSYS: i32 = 38;

pub const EOPNOTSUPP: i32 = 95;

/// The fixed size reported for readable files.
pub const MAX_FILE_SIZE: u64 = 256;

/// The attribute TTL handed to the kernel, in seconds.
pub const ATTR_TTL_SECS: u64 = 1;

/// The kind of a directory entry.
#[derive(Clone, Copy, Debug, PartialEq, Eq, Structural)]
pub enum FileKind {
    RegularFile,
    Directory,
    Symlink,
}

/// The constant attributes of an inode.
#[derive(Clone, Copy, Debug, PartialEq, Eq, Structural)]
pub struct FileAttr {
    pub ino: u64,
    pub size: u64,
    pub kind: FileKind,
    pub perm: u16,
    pub nlink: u32,
    pub uid: u32,
    pub gid: u32,
    pub blksize: u32,
}

/// Whether a file's behaviour answers reads.
pub open spec fn behaviour_readable(b: FileBehaviour) -> bool {
    match b {
        FileBehaviour::ReadOnly(_, _) => true,
        FileBehaviour::ReadWrite(_, _) => true,
        FileBehaviour::Static(_) => true,
        FileBehaviour::CommandProxy { .. } => true,
        FileBehaviour::WriteOnly(_, _) => false,
        FileBehaviour::ForShow => false,
    }
}

pub open spec fn kind_of(e: Entry) -> FileKind {
    match e {
        Entry::File(_) => FileKind::RegularFile,
        Entry::Dir(_) => FileKind::Directory,
        Entry::Link(_) => FileKind::Symlink,
    }
}

/// The attributes of an entry: mode 0o755, one link, the caller's
/// credentials, and the fixed size for readable files.
pub open spec fn mk_attr_spec(ino: u64, e: Entry, uid: u32, gid: u32) -> FileAttr {
    FileAttr {
        ino,
        size: match e {
            Entry::File(f) => if behaviour_readable(f.behaviour) {
                MAX_FILE_SIZE
            } else {
                0
            },
            _ => 0,
        },
        kind: kind_of(e),
        perm: 493,
        nlink: 1,
        uid,
        gid,
        blksize: 512,
    }
}

/// The window of a constant payload a read returns: past the end it is
/// empty, never an error.
pub open spec fn slice_window(b: Seq<u8>, offset: u64, size: u32) -> Seq<u8> {
    if offset >= b.len() {
        Seq::empty()
    } else if offset + size >= b.len() {
        b.subrange(offset as int, b.len() as int)
    } else {
        b.subrange(offset as int, offset + size)
    }
}

/// What a read of an inode does.
pub enum ReadOutcome {
    /// Constant content, already sliced: hand it to the kernel.
    Data(Vec<u8>),
    /// A typed read command to send to the game.
    Command(CommandType, BodyType, CommandState),
}

/// A typed write to send to the game, and the length to acknowledge.
pub struct WritePlan {
    pub cmd: CommandType,
    pub body: Body,
    pub state: CommandState,
    pub written: u32,
}

/// One row of a directory listing.
pub struct DirEntryOut {
    pub ino: u64,
    pub next_offset: u64,
    pub kind: FileKind,
    pub name: Vec<u8>,
}

/// The listing of `ch` from index `i` on: filtered against the snapshot,
/// except that once a directory reports `IncludeAllChildren` the rest of
/// the listing is not filtered. Each row carries the child's inode, the
/// next offset (its index plus one), its kind and its name.
pub open spec fn readdir_spec(
    r: Map<u64, Entry>,
    ch: Seq<ChildLink>,
    in_game: bool,
    i: int,
    all: bool,
) -> Seq<(u64, int, FileKind, Seq<u8>)>
    decreases ch.len() - i,
{
    if i < 0 || i >= ch.len() {
        Seq::empty()
    } else {
        let c = ch[i];
        let e = r[c.inode];
        let f = entry_filter_spec(e, in_game);
        if !all && f == EntryFilterResult::Exclude {
            readdir_spec(r, ch, in_game, i + 1, all)
        } else {
            let all2 = all || f == EntryFilterResult::IncludeAllChildren;
            seq![(c.inode, i + 1, kind_of(e), c.name@)] + readdir_spec(r, ch, in_game, i + 1, all2)
        }
    }
}

/// What a lookup needs next.
pub enum LookupStep {
    /// The name resolved against the registered children.
    Found(u64, FileAttr),
    /// A snapshot must be fetched and the dynamics generated, then the
    /// lookup retried.
    NeedState(DynamicInterest),
    /// The name cannot exist: not UTF-8. No snapshot is fetched.
    NoEnt,
}

/// The filesystem engine: the tree, the snapshot cache, and the calling
/// process's credentials.
pub struct MinecraftFs {
    pub uid: u32,
    pub gid: u32,
    pub state: CachedGameState,
    pub structure: FilesystemStructure,
}

impl MinecraftFs {
    pub open spec fn wf(self) -> bool {
        self.structure.inv()
    }

    /// A fresh engine over the static tree.
    pub fn new(uid: u32, gid: u32) -> (r: Self)
        ensures
            r.wf(),
            r.uid == uid,
            r.gid == gid,
    {
        MinecraftFs {
            uid,
            gid,
            state: CachedGameState::new(0),
            structure: crate::structure::create_structure(),
        }
    }

    fn mk_attr(&self, ino: u64, entry: &Entry) -> (r: FileAttr)
        ensures
            r == mk_attr_spec(ino, *entry, self.uid, self.gid),
    {
        let (kind, size): (FileKind, u64) = match entry {
            Entry::File(f) => (
                FileKind::RegularFile,
                match &f.behaviour {
                    FileBehaviour::ReadOnly(_, _) => MAX_FILE_SIZE,
                    FileBehaviour::ReadWrite(_, _) => MAX_FILE_SIZE,
                    FileBehaviour::Static(_) => MAX_FILE_SIZE,
                    FileBehaviour::CommandProxy { .. } => MAX_FILE_SIZE,
                    FileBehaviour::WriteOnly(_, _) => 0,
                    FileBehaviour::ForShow => 0,
                },
            ),
            Entry::Dir(_) => (FileKind::Directory, 0),
            Entry::Link(_) => (FileKind::Symlink, 0),
        };
        FileAttr {
            ino,
            size,
            kind,
            perm: 493,
            nlink: 1,
            uid: self.uid,
            gid: self.gid,
            blksize: 512,
        }
    }

    /// Constant attributes of a registered inode; unknown inodes are gone.
    pub fn getattr(&self, ino: u64) -> (r: Result<FileAttr, i32>)
        requires
            self.wf(),
        ensures
            match r {
                Ok(a) => self.structure.reg().dom().contains(ino) && a == mk_attr_spec(
                    ino,
                    self.structure.reg()[ino],
                    self.uid,
                    self.gid,
                ),
                Err(e) => !self.structure.reg().dom().contains(ino) && e == ENOENT,
            },
    {
        match self.structure.lookup_inode(ino) {
            Some(entry) => Ok(self.mk_attr(ino, entry)),
            None => Err(ENOENT),
        }
    }

    /// Truncating a file to zero is a no-op (writes are whole-body); any
    /// other attribute change is unsupported.
    pub fn setattr(&self, ino: u64, size: Option<u64>) -> (r: Result<FileAttr, i32>)
        requires
            self.wf(),
        ensures
            !self.structure.reg().dom().contains(ino) ==> r == Err::<FileAttr, i32>(ENOENT),
            self.structure.reg().dom().contains(ino) ==> (if size == Some(0u64)
                && self.structure.reg()[ino] is File {
                r == Ok::<FileAttr, i32>(
                    mk_attr_spec(ino, self.structure.reg()[ino], self.uid, self.gid),
                )
            } else {
                r == Err::<FileAttr, i32>(ENOSYS)
            }),
    {
        let entry = match self.structure.lookup_inode(ino) {
            Some(e) => e,
            None => {
                return Err(ENOENT);
            },
        };
        match (size, entry) {
            (Some(0), Entry::File(_)) => Ok(self.mk_attr(ino, entry)),
            _ => Err(ENOSYS),
        }
    }

    /// Try a lookup against the registered children. A non-UTF-8 name gets
    /// `NoEnt` without any snapshot being fetched; a miss reports what must
    /// be fetched and generated first.
    pub fn lookup_prepare(&self, parent: u64, name: &[u8], now_ms: u64) -> (r: LookupStep)
        requires
            self.wf(),
        ensures
            !valid_utf8(name@) ==> r is NoEnt,
            match r {
                LookupStep::Found(ino, a) => self.structure.lookup_child_spec(parent, name@)
                    == Some(ino) && self.structure.reg().dom().contains(ino) && a == mk_attr_spec(
                    ino,
                    self.structure.reg()[ino],
                    self.uid,
                    self.gid,
                ),
                LookupStep::NeedState(d) => self.structure.lookup_child_spec(parent, name@)
                    is None && valid_utf8(name@) && self.structure.interest_result(
                    parent,
                    Some(name@),
                    now_ms,
                    d,
                ),
                LookupStep::NoEnt => !valid_utf8(name@),
            },
    {
        if !crate::text::validate_utf8(name) {
            return LookupStep::NoEnt;
        }
        match self.structure.lookup_child(parent, name) {
            Some((ino, entry)) => LookupStep::Found(ino, self.mk_attr(ino, entry)),
            None => LookupStep::NeedState(
                self.structure.interest_for_inode(parent, Some(name), now_ms),
            ),
        }
    }

    /// Finish a lookup after the snapshot was fetched: generate the
    /// dynamics, then resolve the name against the refreshed children.
    pub fn lookup_finish(
        &mut self,
        parent: u64,
        name: &[u8],
        state: &GameState,
        dynamics: DynamicInterest,
        now_ms: u64,
    ) -> (r: Result<(u64, FileAttr), i32>)
        requires
            old(self).wf(),
            old(self).structure.next_dyn() as int + (dynamics.inodes@.len() + 1) * (
            crate::structure::max_proposals(*state) + 2) + 2 <= u64::MAX as int,
        ensures
            final(self).wf(),
            final(self).uid == old(self).uid,
            final(self).gid == old(self).gid,
            match r {
                Ok((ino, a)) => final(self).structure.lookup_child_spec(parent, name@) == Some(
                    ino,
                ) && final(self).structure.reg().dom().contains(ino) && a == mk_attr_spec(
                    ino,
                    final(self).structure.reg()[ino],
                    final(self).uid,
                    final(self).gid,
                ),
                Err(e) => final(self).structure.lookup_child_spec(parent, name@) is None && e
                    == ENOENT,
            },
    {
        self.structure.ensure_generated(state, dynamics, now_ms);
        match self.structure.lookup_child(parent, name) {
            Some((ino, entry)) => {
                let a = self.mk_attr(ino, entry);
                Ok((ino, a))
            },
            None => Err(ENOENT),
        }
    }

    /// Plan a read. Constant content is sliced by the window, empty past
    /// the end; command-backed files yield the command to send, with the
    /// context composed by the ancestor walk.
    pub fn read(&self, ino: u64, offset: u64, size: u32) -> (r: Result<ReadOutcome, i32>)
        requires
            self.wf(),
        ensures
            ({
                let reg = self.structure.reg();
                if !reg.dom().contains(ino) || !(reg[ino] is File) {
                    r == Err::<ReadOutcome, i32>(ENOENT)
                } else {
                    let f = reg[ino]->File_0;
                    match f.behaviour {
                        FileBehaviour::Static(bytes) => r is Ok && r->Ok_0 is Data
                            && r->Ok_0->Data_0@ == slice_window(bytes@, offset, size),
                        FileBehaviour::CommandProxy { readme, produce_cmd_fn } => r is Ok
                            && r->Ok_0 is Data && r->Ok_0->Data_0@ == slice_window(
                            readme@,
                            offset,
                            size,
                        ),
                        FileBehaviour::ReadOnly(c, t) => r == Ok::<ReadOutcome, i32>(
                            ReadOutcome::Command(c, t, self.command_state_spec(ino)),
                        ),
                        FileBehaviour::ReadWrite(c, t) => r == Ok::<ReadOutcome, i32>(
                            ReadOutcome::Command(c, t, self.command_state_spec(ino)),
                        ),
                        FileBehaviour::WriteOnly(_, _) => r == Err::<ReadOutcome, i32>(
                            EOPNOTSUPP,
                        ),
                        FileBehaviour::ForShow => r == Err::<ReadOutcome, i32>(EOPNOTSUPP),
                    }
                }
            }),
    {
        let file = match self.structure.lookup_inode(ino) {
            Some(Entry::File(f)) => f,
            _ => {
                return Err(ENOENT);
            },
        };
        match &file.behaviour {
            FileBehaviour::Static(bytes) => Ok(
                ReadOutcome::Data(Self::slice_payload(bytes, offset, size)),
            ),
            FileBehaviour::CommandProxy { readme, produce_cmd_fn: _ } => Ok(
                ReadOutcome::Data(Self::slice_payload(readme, offset, size)),
            ),
            FileBehaviour::ReadOnly(c, t) => {
                let cs = self.structure.command_state_for_file(ino);
                Ok(ReadOutcome::Command(*c, *t, cs))
            },
            FileBehaviour::ReadWrite(c, t) => {
                let cs = self.structure.command_state_for_file(ino);
                Ok(ReadOutcome::Command(*c, *t, cs))
            },
            FileBehaviour::WriteOnly(_, _) => Err(EOPNOTSUPP),
            FileBehaviour::ForShow => Err(EOPNOTSUPP),
        }
    }

    /// The ancestor-walk context of an inode.
    pub open spec fn command_state_spec(self, ino: u64) -> CommandState {
        cs_from(
            self.structure.reg(),
            self.structure.par(),
            ino,
            CommandState { target_entity: None, target_world: None, target_block: None },
        )
    }

    /// The offset/size window of a constant payload.
    fn slice_payload(bytes: &Vec<u8>, offset: u64, size: u32) -> (r: Vec<u8>)
        ensures
            r@ == slice_window(bytes@, offset, size),
    {
        let len = bytes.len();
        if offset >= len as u64 {
            let r: Vec<u8> = Vec::new();
            proof {
                assert(r@ =~= slice_window(bytes@, offset, size));
            }
            r
        } else {
            let start = offset as usize;
            let end: usize = if (size as u64) >= (len as u64) - offset {
                len
            } else {
                start + (size as usize)
            };
            let r = vstd::slice::slice_to_vec(crate::text::sub_slice(bytes.as_slice(), start, end));
            proof {
                assert(r@ =~= slice_window(bytes@, offset, size));
            }
            r
        }
    }

    /// Plan a write: parse the data per the file's declared body type and
    /// say which command to send. A proxy file transforms the UTF-8 text
    /// into a server command instead.
    pub fn write(&self, ino: u64, data: &[u8]) -> (r: Result<WritePlan, i32>)
        requires
            self.wf(),
            data@.len() <= u32::MAX,
        ensures
            ({
                let reg = self.structure.reg();
                if !reg.dom().contains(ino) || !(reg[ino] is File) {
                    r == Err::<WritePlan, i32>(ENOENT)
                } else {
                    let f = reg[ino]->File_0;
                    match f.behaviour {
                        FileBehaviour::WriteOnly(c, t) => self.write_cmd_post(r, ino, c, t, data@),
                        FileBehaviour::ReadWrite(c, t) => self.write_cmd_post(r, ino, c, t, data@),
                        FileBehaviour::CommandProxy { readme, produce_cmd_fn } => {
                            if !valid_utf8(data@) {
                                r == Err::<WritePlan, i32>(EINVAL)
                            } else {
                                match crate::entry::proxy_cmd_spec(produce_cmd_fn, data@) {
                                    Some(cmdtext) => r is Ok && {
                                        let p = r->Ok_0;
                                        &&& p.cmd == CommandType::ServerCommand
                                        &&& p.body@ == crate::command::BodyView::String(cmdtext)
                                        &&& p.state == self.command_state_spec(ino)
                                        &&& p.written == data@.len()
                                    },
                                    None => r == Err::<WritePlan, i32>(EINVAL),
                                }
                            }
                        },
                        _ => r == Err::<WritePlan, i32>(EOPNOTSUPP),
                    }
                }
            }),
    {
        let file = match self.structure.lookup_inode(ino) {
            Some(Entry::File(f)) => f,
            _ => {
                return Err(ENOENT);
            },
        };
        match &file.behaviour {
            FileBehaviour::WriteOnly(c, t) => self.write_cmd(ino, *c, *t, data),
            FileBehaviour::ReadWrite(c, t) => self.write_cmd(ino, *c, *t, data),
            FileBehaviour::CommandProxy { readme: _, produce_cmd_fn } => {
                if !crate::text::validate_utf8(data) {
                    return Err(EINVAL);
                }
                match produce_cmd_fn.produce(data) {
                    Some(cmdtext) => {
                        let cs = self.structure.command_state_for_file(ino);
                        Ok(
                            WritePlan {
                                cmd: CommandType::ServerCommand,
                                body: Body::String(cmdtext),
                                state: cs,
                                written: data.len() as u32,
                            },
                        )
                    },
                    None => Err(EINVAL),
                }
            },
            _ => Err(EOPNOTSUPP),
        }
    }

    /// The outcome of a typed write: the parsed body with the walk context,
    /// or `EINVAL` when the bytes do not parse.
    pub open spec fn write_cmd_post(
        self,
        r: Result<WritePlan, i32>,
        ino: u64,
        c: CommandType,
        t: BodyType,
        data: Seq<u8>,
    ) -> bool {
        match crate::command::create_from_data_spec(t, data) {
            Some(bv) => r is Ok && {
                let p = r->Ok_0;
                &&& p.cmd == c
                &&& p.body@ == bv
                &&& p.state == self.command_state_spec(ino)
                &&& p.written == data.len()
            },
            None => r == Err::<WritePlan, i32>(EINVAL),
        }
    }

    fn write_cmd(&self, ino: u64, c: CommandType, t: BodyType, data: &[u8]) -> (r: Result<
        WritePlan,
        i32,
    >)
        requires
            self.wf(),
            data@.len() <= u32::MAX,
        ensures
            self.write_cmd_post(r, ino, c, t, data@),
    {
        match t.create_from_data(data) {
            Some(b) => {
                let cs = self.structure.command_state_for_file(ino);
                Ok(WritePlan { cmd: c, body: b, state: cs, written: data.len() as u32 })
            },
            None => Err(EINVAL),
        }
    }

    /// Resolve a symlink under a snapshot: its target path, or `EINVAL`
    /// when the target is unavailable, or `ENOENT` for non-links.
    pub fn readlink(&self, ino: u64, state: &GameState) -> (r: Result<Vec<u8>, i32>)
        requires
            self.wf(),
        ensures
            ({
                let reg = self.structure.reg();
                if !reg.dom().contains(ino) || !(reg[ino] is Link) {
                    r == Err::<Vec<u8>, i32>(ENOENT)
                } else {
                    match crate::entry::link_target_spec(reg[ino]->Link_0.target, *state) {
                        Some(p) => r is Ok && r->Ok_0@ == p,
                        None => r == Err::<Vec<u8>, i32>(EINVAL),
                    }
                }
            }),
    {
        match self.structure.lookup_inode(ino) {
            Some(Entry::Link(link)) => match link.target.target_path(state) {
                Some(path) => Ok(path),
                None => Err(EINVAL),
            },
            _ => Err(ENOENT),
        }
    }

    /// What a listing must have fetched first.
    pub fn readdir_prepare(&self, ino: u64, now_ms: u64) -> (r: Result<DynamicInterest, i32>)
        requires
            self.wf(),
        ensures
            r is Err ==> (!self.structure.reg().dom().contains(ino) || !(self.structure.reg()[ino]
                is Dir)) && r == Err::<DynamicInterest, i32>(ENOENT),
            r is Ok ==> self.structure.reg().dom().contains(ino) && self.structure.reg()[ino]
                is Dir && self.structure.interest_result(ino, None, now_ms, r->Ok_0),
    {
        match self.structure.lookup_inode(ino) {
            Some(Entry::Dir(_)) => Ok(self.structure.interest_for_inode(ino, None, now_ms)),
            _ => Err(ENOENT),
        }
    }

    /// List a directory from an offset, filters applied: excluded entries
    /// are skipped, and after a directory reports `IncludeAllChildren` the
    /// rest of the listing is unfiltered. An offset at or past the end
    /// yields an empty listing, not an error.
    pub fn readdir_list(&self, ino: u64, offset: u64, state: &GameState) -> (r: Result<
        Vec<DirEntryOut>,
        i32,
    >)
        requires
            self.wf(),
        ensures
            ({
                let reg = self.structure.reg();
                let ch = self.structure.kids();
                if !reg.dom().contains(ino) || !(reg[ino] is Dir) || !ch.dom().contains(ino) {
                    r == Err::<Vec<DirEntryOut>, i32>(ENOENT)
                } else {
                    let rows = readdir_spec(
                        reg,
                        ch[ino]@,
                        state.player_entity_id is Some,
                        offset as int,
                        false,
                    );
                    r is Ok && r->Ok_0@.len() == rows.len() && (forall|j: int|
                        0 <= j < rows.len() ==> {
                            let o = #[trigger] r->Ok_0@[j];
                            &&& o.ino == rows[j].0
                            &&& o.next_offset == rows[j].1
                            &&& o.kind == rows[j].2
                            &&& o.name@ == rows[j].3
                        }) && (offset >= ch[ino]@.len() ==> r->Ok_0@.len() == 0)
                }
            }),
    {
        match self.structure.lookup_inode(ino) {
            Some(Entry::Dir(_)) => {},
            _ => {
                return Err(ENOENT);
            },
        }
        let children = match self.structure.lookup_children(ino) {
            Some(c) => c,
            None => {
                return Err(ENOENT);
            },
        };
        let ghost reg = self.structure.reg();
        let ghost chs = self.structure.kids()[ino]@;
        let in_game = state.is_in_game();
        let mut out: Vec<DirEntryOut> = Vec::new();
        let mut all = false;
        let mut i: usize = if offset > children.len() as u64 {
            children.len()
        } else {
            offset as usize
        };
        proof {
            if offset >= chs.len() {
                assert(readdir_spec(reg, chs, in_game, offset as int, false)
                    =~= Seq::<(u64, int, FileKind, Seq<u8>)>::empty());
            }
            assert(readdir_spec(reg, chs, in_game, offset as int, false) == readdir_spec(
                reg,
                chs,
                in_game,
                i as int,
                false,
            ));
        }
        while i < children.len()
            invariant
                self.wf(),
                i <= children@.len(),
                in_game == (state.player_entity_id is Some),
                reg == self.structure.reg(),
                self.structure.kids().dom().contains(ino),
                chs == self.structure.kids()[ino]@,
                children@.len() == chs.len(),
                forall|j: int|
                    0 <= j < children@.len() ==> (#[trigger] children@[j]).0 == chs[j].inode
                        && children@[j].1@ == chs[j].name@ && reg.dom().contains(children@[j].0),
                ({
                    let rows = readdir_spec(reg, chs, in_game, i as int, all);
                    let full = readdir_spec(
                        reg,
                        chs,
                        in_game,
                        (if offset > chs.len() {
                            chs.len() as int
                        } else {
                            offset as int
                        }),
                        false,
                    );
                    full.len() == out@.len() + rows.len() && (forall|j: int|
                        0 <= j < out@.len() ==> {
                            let o = #[trigger] out@[j];
                            &&& o.ino == full[j].0
                            &&& o.next_offset == full[j].1
                            &&& o.kind == full[j].2
                            &&& o.name@ == full[j].3
                        }) && (forall|j: int|
                        0 <= j < rows.len() ==> full[out@.len() + j] == #[trigger] rows[j])
                }),
            decreases children@.len() - i,
        {
            let cino = children[i].0;
            let cname = vstd::slice::slice_to_vec(children[i].1.as_slice());
            let centry = match self.structure.lookup_inode(cino) {
                Some(e) => e,
                None => {
                    proof {
                        assert(false);
                    }
                    return Err(ENOENT);
                },
            };
            let ghost rows_pre = readdir_spec(reg, chs, in_game, i as int, all);
            let fres = centry.filter(state);
            let skip: bool = !all && matches!(fres, EntryFilterResult::Exclude);
            let ghost out_pre = out@;
            let ghost all_pre = all;
            if !skip {
                let kind: FileKind = match centry {
                    Entry::File(_) => FileKind::RegularFile,
                    Entry::Dir(_) => FileKind::Directory,
                    Entry::Link(_) => FileKind::Symlink,
                };
                out.push(
                    DirEntryOut { ino: cino, next_offset: (i as u64) + 1, kind, name: cname },
                );
                if !all && matches!(fres, EntryFilterResult::IncludeAllChildren) {
                    all = true;
                }
            }
            proof {
                let c = chs[i as int];
                assert(c.inode == cino);
                assert(cname@ == c.name@);
                let e = reg[c.inode];
                assert(e == *centry);
                let f = entry_filter_spec(e, in_game);
                assert(f == fres);
                let full = readdir_spec(
                    reg,
                    chs,
                    in_game,
                    (if offset > chs.len() {
                        chs.len() as int
                    } else {
                        offset as int
                    }),
                    false,
                );
                if skip {
                    assert(rows_pre == readdir_spec(reg, chs, in_game, i + 1, all));
                } else {
                    let all2 = all_pre || f == EntryFilterResult::IncludeAllChildren;
                    let row = (c.inode, i + 1, kind_of(e), c.name@);
                    assert(rows_pre == seq![row] + readdir_spec(reg, chs, in_game, i + 1, all2));
                    assert(all == all2);
                    assert(rows_pre[0] == row);
                    assert(out@ == out_pre.push(out@.last()));
                    let rows_next = readdir_spec(reg, chs, in_game, i + 1, all2);
                    assert(full[out_pre.len() as int] == row);
                    assert forall|j: int|
                        0 <= j < rows_next.len() implies full[out@.len() + j]
                        == #[trigger] rows_next[j] by {
                        assert(rows_pre[j + 1] == (seq![row] + rows_next)[j + 1]);
                        assert((seq![row] + rows_next)[j + 1] == rows_next[j]);
                        assert(full[out_pre.len() + (j + 1)] == rows_pre[j + 1]);
                    }
                    assert forall|j: int|
                        0 <= j < out@.len() implies {
                        let o = #[trigger] out@[j];
                        &&& o.ino == full[j].0
                        &&& o.next_offset == full[j].1
                        &&& o.kind == full[j].2
                        &&& o.name@ == full[j].3
                    } by {
                        if j < out_pre.len() {
                            assert(out@[j] == out_pre[j]);
                        } else {
                            assert(out@[j] == out@.last());
                            assert(full[j] == row);
                        }
                    }
                }
            }
            i = i + 1;
        }
        proof {
            assert(readdir_spec(reg, chs, in_game, chs.len() as int, all)
                =~= Seq::<(u64, int, FileKind, Seq<u8>)>::empty());
        }
        Ok(out)
    }
}

/// The kernel error an IPC failure maps to.
pub fn ipc_error_code(err: &IpcError) -> (r: i32)
    ensures
        r == (match err {
            IpcError::NoCurrentGame => EOPNOTSUPP,
            IpcError::ClientError(_) => EOPNOTSUPP,
            IpcError::NoGame => ENOENT,
            IpcError::Connecting => EIO,
            IpcError::Sending => EIO,
            IpcError::Receiving => EIO,
            IpcError::SettingTimeout => EIO,
            IpcError::Deserialization => EIO,
            IpcError::UnexpectedGameResponse(_) => EINVAL,
            IpcError::UnexpectedResponse(_) => EINVAL,
            IpcError::BadData(_) => EINVAL,
            IpcError::BadInput => EINVAL,
        }),
{
    match err {
        IpcError::NoCurrentGame => EOPNOTSUPP,
        IpcError::ClientError(_) => EOPNOTSUPP,
        IpcError::NoGame => ENOENT,
        IpcError::Connecting => EIO,
        IpcError::Sending => EIO,
        IpcError::Receiving => EIO,
        IpcError::SettingTimeout => EIO,
        IpcError::Deserialization => EIO,
        IpcError::UnexpectedGameResponse(_) => EINVAL,
        IpcError::UnexpectedResponse(_) => EINVAL,
        IpcError::BadData(_) => EINVAL,
        IpcError::BadInput => EINVAL,
    }
}

} // verus!

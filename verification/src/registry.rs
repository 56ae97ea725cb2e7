//! The filesystem registry: inode → entry, parent ↔ children links, the
//! per-directory dynamic generation state, and the phantom-child table.
//!
//! The structural invariant ties the maps together: every registered inode
//! but the root has exactly one parent and appears in that parent's child
//! list; child lists point back through the parent map; every inode a
//! dynamic-state record mentions is registered, has the recorded parent, and
//! is never static; and parents always carry smaller numbers than their
//! children, so ancestor walks terminate.

use vstd::prelude::*;

use crate::assoc::AssocVec;
use crate::entry::{
    DirEntry, DynamicDirFn, DynamicStateType, Entry, EntryAssociatedData, PhantomChildFn,
    PhantomDynamicInterestFn,
};
use crate::inode::{spec_is_static, InodeBlockAllocator, STATIC_MAX};
use crate::state::GameState;
use vstd::string::StringSliceAdditionalSpecFns;

verus! {

/// How long a dynamic directory's generated children stay fresh, in
/// milliseconds.
pub const STATE_TTL_MS: u64 = 1000;

/// One child of a directory: its inode and its name.
pub struct ChildLink {
    pub inode: u64,
    pub name: Vec<u8>,
}

/// A phantom-child registration: how names parse, which dynamic state a
/// parsed child needs, and which generator builds its subtree.
#[derive(Clone, Copy, Debug, PartialEq, Eq, Structural)]
pub struct PhantomConfig {
    pub parse: PhantomChildFn,
    pub interest: PhantomDynamicInterestFn,
    pub dyn_fn: DynamicDirFn,
}

/// The record of one generation: the inodes it produced or kept (paired
/// with their parents) and when it ran.
pub struct DynRecord {
    pub inodes: Vec<(u64, u64)>,
    pub time_collected: u64,
}

struct StructureInner {
    inode_alloc: InodeBlockAllocator,
    root: u64,
    registry: AssocVec<Entry>,
    /// parent -> list of children
    child_registry: AssocVec<Vec<ChildLink>>,
    /// child -> parent
    parent_registry: AssocVec<u64>,
    /// owning dir inode -> per-state-type generation records
    dynamic_state: AssocVec<Vec<(DynamicStateType, DynRecord)>>,
    phantom_registry: AssocVec<PhantomConfig>,
}

pub struct FilesystemStructure {
    inner: StructureInner,
}

pub struct FilesystemStructureBuilder {
    inner: StructureInner,
}

/// Whether some link of `s` names the inode `i`.
pub open spec fn child_in_list(s: Seq<ChildLink>, i: u64) -> bool {
    exists|j: int| 0 <= j < s.len() && s[j].inode == i
}

/// Whether following the parent map from `x` upward reaches `t` (the chain
/// strictly decreases, as the invariant guarantees).
pub open spec fn reaches(p: Map<u64, u64>, x: u64, t: u64) -> bool
    decreases x,
{
    x == t || (p.dom().contains(x) && p[x] < x && reaches(p, p[x], t))
}

impl StructureInner {
    spec fn reg(self) -> Map<u64, Entry> {
        self.registry@
    }

    spec fn kids(self) -> Map<u64, Vec<ChildLink>> {
        self.child_registry@
    }

    spec fn par(self) -> Map<u64, u64> {
        self.parent_registry@
    }

    spec fn dyns(self) -> Map<u64, Vec<(DynamicStateType, DynRecord)>> {
        self.dynamic_state@
    }

    spec fn phs(self) -> Map<u64, PhantomConfig> {
        self.phantom_registry@
    }

    spec fn inv(self) -> bool {
        let r = self.reg();
        let c = self.kids();
        let p = self.par();
        let d = self.dyns();
        let ph = self.phs();
        &&& self.registry.wf()
        &&& self.child_registry.wf()
        &&& self.parent_registry.wf()
        &&& self.dynamic_state.wf()
        &&& self.phantom_registry.wf()
        &&& self.inode_alloc.wf()
        &&& self.root == 1
        &&& r.dom().contains(1)
        &&& r[1] is Dir
        &&& !p.dom().contains(1)
        &&& forall|i: u64| #[trigger] r.dom().contains(i) && i != 1 ==> p.dom().contains(i)
        &&& forall|i: u64| #[trigger]
            p.dom().contains(i) ==> i != 1 && r.dom().contains(i) && p[i] < i && r.dom().contains(
                p[i],
            ) && c.dom().contains(p[i]) && child_in_list(c[p[i]]@, i)
        &&& forall|q: u64| #[trigger] c.dom().contains(q) ==> r.dom().contains(q)
        &&& forall|q: u64, j: int|
            c.dom().contains(q) && 0 <= j < c[q]@.len() ==> p.dom().contains(
                #[trigger] c[q]@[j].inode,
            ) && p[c[q]@[j].inode] == q
        &&& forall|q: u64, j: int, k: int|
            c.dom().contains(q) && 0 <= j < k < c[q]@.len() ==> (#[trigger] c[q]@[j].inode) != (
            #[trigger] c[q]@[k].inode)
        &&& forall|i: u64| #[trigger]
            r.dom().contains(i) ==> (spec_is_static(i) ==> i
                < self.inode_alloc.spec_next_static()) && (!spec_is_static(i) ==> i
                < self.inode_alloc.spec_next_dyn())
        &&& forall|o: u64| #[trigger] d.dom().contains(o) ==> r.dom().contains(o)
        &&& forall|o: u64, j: int, m: int|
            d.dom().contains(o) && 0 <= j < d[o]@.len() && 0 <= m < d[o]@[j].1.inodes@.len()
                ==> {
                let pr = #[trigger] d[o]@[j].1.inodes@[m];
                &&& r.dom().contains(pr.0)
                &&& p.dom().contains(pr.0)
                &&& p[pr.0] == pr.1
                &&& !spec_is_static(pr.0)
            }
        &&& forall|o: u64| #[trigger] ph.dom().contains(o) ==> r.dom().contains(o)
    }

    /// Growing the allocator's counters alone preserves the invariant.
    proof fn lemma_inv_alloc_grow(a: Self, b: Self)
        requires
            a.inv(),
            b.reg() == a.reg(),
            b.kids() == a.kids(),
            b.par() == a.par(),
            b.dyns() == a.dyns(),
            b.phs() == a.phs(),
            b.registry == a.registry,
            b.child_registry == a.child_registry,
            b.parent_registry == a.parent_registry,
            b.dynamic_state == a.dynamic_state,
            b.phantom_registry == a.phantom_registry,
            b.root == a.root,
            b.inode_alloc.wf(),
            a.inode_alloc.spec_next_static() <= b.inode_alloc.spec_next_static(),
            a.inode_alloc.spec_next_dyn() <= b.inode_alloc.spec_next_dyn(),
        ensures
            b.inv(),
    {
        assert forall|i: u64| #[trigger] b.reg().dom().contains(i) && i != 1 implies b.par(
        ).dom().contains(i) by {
            assert(a.reg().dom().contains(i));
        }
        assert forall|i: u64| #[trigger] b.par().dom().contains(i) implies i != 1
            && b.reg().dom().contains(i) && b.par()[i] < i && b.reg().dom().contains(b.par()[i])
            && b.kids().dom().contains(b.par()[i]) && child_in_list(b.kids()[b.par()[i]]@, i) by {
            assert(a.par().dom().contains(i));
        }
        assert forall|q: u64| #[trigger] b.kids().dom().contains(q) implies b.reg().dom().contains(
            q,
        ) by {
            assert(a.kids().dom().contains(q));
        }
        assert forall|q: u64, j: int|
            b.kids().dom().contains(q) && 0 <= j < b.kids()[q]@.len() implies b.par().dom(
        ).contains(#[trigger] b.kids()[q]@[j].inode) && b.par()[b.kids()[q]@[j].inode] == q by {
            assert(a.kids().dom().contains(q));
            assert(a.kids()[q]@[j] == b.kids()[q]@[j]);
        }
        assert forall|q: u64, j: int, k: int|
            b.kids().dom().contains(q) && 0 <= j < k < b.kids()[q]@.len() implies (
        #[trigger] b.kids()[q]@[j].inode) != (#[trigger] b.kids()[q]@[k].inode) by {
            assert(a.kids().dom().contains(q));
            assert(a.kids()[q]@[j] == b.kids()[q]@[j]);
            assert(a.kids()[q]@[k] == b.kids()[q]@[k]);
        }
        assert forall|i: u64| #[trigger] b.reg().dom().contains(i) implies (spec_is_static(i) ==> i
            < b.inode_alloc.spec_next_static()) && (!spec_is_static(i) ==> i
            < b.inode_alloc.spec_next_dyn()) by {
            assert(a.reg().dom().contains(i));
        }
        assert forall|o: u64| #[trigger] b.dyns().dom().contains(o) implies b.reg().dom().contains(
            o,
        ) by {
            assert(a.dyns().dom().contains(o));
        }
        assert forall|o: u64, j: int, m: int|
            b.dyns().dom().contains(o) && 0 <= j < b.dyns()[o]@.len() && 0 <= m
                < b.dyns()[o]@[j].1.inodes@.len() implies {
            let pr = #[trigger] b.dyns()[o]@[j].1.inodes@[m];
            &&& b.reg().dom().contains(pr.0)
            &&& b.par().dom().contains(pr.0)
            &&& b.par()[pr.0] == pr.1
            &&& !spec_is_static(pr.0)
        } by {
            assert(a.dyns().dom().contains(o));
            assert(a.dyns()[o]@[j].1.inodes@[m] == b.dyns()[o]@[j].1.inodes@[m]);
        }
        assert forall|o: u64| #[trigger] b.phs().dom().contains(o) implies b.reg().dom().contains(
            o,
        ) by {
            assert(a.phs().dom().contains(o));
        }
    }

    /// Changing only the dynamic-state table preserves the invariant, as
    /// long as its own clauses hold of the new table.
    proof fn lemma_inv_dyns_only(a: Self, b: Self)
        requires
            a.inv(),
            b.reg() == a.reg(),
            b.kids() == a.kids(),
            b.par() == a.par(),
            b.phs() == a.phs(),
            b.registry == a.registry,
            b.child_registry == a.child_registry,
            b.parent_registry == a.parent_registry,
            b.phantom_registry == a.phantom_registry,
            b.inode_alloc == a.inode_alloc,
            b.root == a.root,
            b.dynamic_state.wf(),
            forall|o: u64| #[trigger] b.dyns().dom().contains(o) ==> b.reg().dom().contains(o),
            forall|o: u64, j: int, m: int|
                b.dyns().dom().contains(o) && 0 <= j < b.dyns()[o]@.len() && 0 <= m
                    < b.dyns()[o]@[j].1.inodes@.len() ==> {
                    let pr = #[trigger] b.dyns()[o]@[j].1.inodes@[m];
                    &&& b.reg().dom().contains(pr.0)
                    &&& b.par().dom().contains(pr.0)
                    &&& b.par()[pr.0] == pr.1
                    &&& !spec_is_static(pr.0)
                },
        ensures
            b.inv(),
    {
        assert forall|i: u64| #[trigger] b.reg().dom().contains(i) && i != 1 implies b.par(
        ).dom().contains(i) by {
            assert(a.reg().dom().contains(i));
        }
        assert forall|i: u64| #[trigger] b.par().dom().contains(i) implies i != 1
            && b.reg().dom().contains(i) && b.par()[i] < i && b.reg().dom().contains(b.par()[i])
            && b.kids().dom().contains(b.par()[i]) && child_in_list(b.kids()[b.par()[i]]@, i) by {
            assert(a.par().dom().contains(i));
        }
        assert forall|q: u64| #[trigger] b.kids().dom().contains(q) implies b.reg().dom().contains(
            q,
        ) by {
            assert(a.kids().dom().contains(q));
        }
        assert forall|q: u64, j: int|
            b.kids().dom().contains(q) && 0 <= j < b.kids()[q]@.len() implies b.par().dom(
        ).contains(#[trigger] b.kids()[q]@[j].inode) && b.par()[b.kids()[q]@[j].inode] == q by {
            assert(a.kids().dom().contains(q));
            assert(a.kids()[q]@[j] == b.kids()[q]@[j]);
        }
        assert forall|q: u64, j: int, k: int|
            b.kids().dom().contains(q) && 0 <= j < k < b.kids()[q]@.len() implies (
        #[trigger] b.kids()[q]@[j].inode) != (#[trigger] b.kids()[q]@[k].inode) by {
            assert(a.kids().dom().contains(q));
            assert(a.kids()[q]@[j] == b.kids()[q]@[j]);
            assert(a.kids()[q]@[k] == b.kids()[q]@[k]);
        }
        assert forall|i: u64| #[trigger] b.reg().dom().contains(i) implies (spec_is_static(i) ==> i
            < b.inode_alloc.spec_next_static()) && (!spec_is_static(i) ==> i
            < b.inode_alloc.spec_next_dyn()) by {
            assert(a.reg().dom().contains(i));
        }
        assert forall|o: u64| #[trigger] b.phs().dom().contains(o) implies b.reg().dom().contains(
            o,
        ) by {
            assert(a.phs().dom().contains(o));
        }
    }

    /// Register `inode` as `entry` under `parent` with `name`.
    fn register(&mut self, inode: u64, entry: Entry, parent: u64, name: Vec<u8>)
        requires
            old(self).inv(),
            !old(self).reg().dom().contains(inode),
            old(self).reg().dom().contains(parent),
            parent < inode,
            spec_is_static(inode) ==> inode < old(self).inode_alloc.spec_next_static(),
            !spec_is_static(inode) ==> inode < old(self).inode_alloc.spec_next_dyn(),
        ensures
            final(self).inv(),
            final(self).reg() == old(self).reg().insert(inode, entry),
            final(self).par() == old(self).par().insert(inode, parent),
            final(self).dyns() == old(self).dyns(),
            final(self).phs() == old(self).phs(),
            final(self).inode_alloc == old(self).inode_alloc,
            final(self).kids().dom() == old(self).kids().dom().insert(parent),
            forall|q: u64|
                q != parent && #[trigger] final(self).kids().dom().contains(q) ==> old(
                    self,
                ).kids().dom().contains(q) && final(self).kids()[q] == old(self).kids()[q],
            ({
                let oldl: Seq<ChildLink> = if old(self).kids().dom().contains(parent) {
                    old(self).kids()[parent]@
                } else {
                    Seq::empty()
                };
                let newl = final(self).kids()[parent]@;
                &&& final(self).kids().dom().contains(parent)
                &&& newl.len() == oldl.len() + 1
                &&& newl.subrange(0, oldl.len() as int) == oldl
                &&& newl.last().inode == inode
                &&& newl.last().name@ == name@
            }),
    {
        self.registry.insert(inode, entry);
        let list_opt = self.child_registry.take(parent);
        let mut list: Vec<ChildLink> = match list_opt {
            Some(l) => l,
            None => Vec::new(),
        };
        let ghost oldl = list@;
        list.push(ChildLink { inode, name });
        self.child_registry.insert(parent, list);
        self.parent_registry.insert(inode, parent);
        proof {
            let sf = *self;
            let so = *old(self);
            assert(sf.kids().dom() =~= so.kids().dom().insert(parent));
            assert(sf.kids()[parent]@.subrange(0, oldl.len() as int) =~= oldl);
            // every child link of the new list except the last is an old link
            assert forall|i: u64| #[trigger] sf.par().dom().contains(i) implies i != 1
                && sf.reg().dom().contains(i) && sf.par()[i] < i && sf.reg().dom().contains(
                sf.par()[i],
            ) && sf.kids().dom().contains(sf.par()[i]) && child_in_list(
                sf.kids()[sf.par()[i]]@,
                i,
            ) by {
                if i == inode {
                    assert(sf.kids()[parent]@.last().inode == inode);
                } else {
                    assert(so.par().dom().contains(i));
                    if so.par()[i] == parent {
                        assert(child_in_list(oldl, i));
                        let j = choose|j: int| 0 <= j < oldl.len() && oldl[j].inode == i;
                        assert(sf.kids()[parent]@[j] == oldl[j]);
                    }
                }
            }
            assert forall|q: u64, j: int|
                sf.kids().dom().contains(q) && 0 <= j < sf.kids()[q]@.len() implies sf.par(
            ).dom().contains(#[trigger] sf.kids()[q]@[j].inode) && sf.par()[sf.kids()[q]@[j].inode]
                == q by {
                if q == parent {
                    if j < oldl.len() {
                        assert(sf.kids()[parent]@[j] == oldl[j]);
                        assert(so.kids().dom().contains(parent));
                        assert(so.kids()[parent]@[j] == oldl[j]);
                    } else {
                        assert(sf.kids()[q]@[j].inode == inode);
                    }
                } else {
                    assert(so.kids().dom().contains(q) && sf.kids()[q] == so.kids()[q]);
                    assert(so.kids()[q]@[j].inode != inode);
                }
            }
            assert forall|q: u64, j: int, k: int|
                sf.kids().dom().contains(q) && 0 <= j < k < sf.kids()[q]@.len() implies (
            #[trigger] sf.kids()[q]@[j].inode) != (#[trigger] sf.kids()[q]@[k].inode) by {
                if q == parent {
                    if k < oldl.len() {
                        assert(sf.kids()[q]@[j] == oldl[j]);
                        assert(sf.kids()[q]@[k] == oldl[k]);
                        assert(so.kids().dom().contains(parent));
                        assert(so.kids()[parent]@[j] == oldl[j]);
                        assert(so.kids()[parent]@[k] == oldl[k]);
                    } else {
                        // k is the new link; the new inode was unregistered,
                        // while every old link's inode is registered
                        assert(sf.kids()[q]@[k].inode == inode);
                        assert(sf.kids()[q]@[j] == oldl[j]);
                        if oldl.len() > 0 {
                            assert(so.kids().dom().contains(parent));
                            assert(so.kids()[parent]@[j] == oldl[j]);
                            assert(so.par().dom().contains(oldl[j].inode));
                        }
                    }
                } else {
                    assert(sf.kids()[q] == so.kids()[q]);
                }
            }
            assert forall|o: u64, j: int, m: int|
                sf.dyns().dom().contains(o) && 0 <= j < sf.dyns()[o]@.len() && 0 <= m
                    < sf.dyns()[o]@[j].1.inodes@.len() implies {
                let pr = #[trigger] sf.dyns()[o]@[j].1.inodes@[m];
                &&& sf.reg().dom().contains(pr.0)
                &&& sf.par().dom().contains(pr.0)
                &&& sf.par()[pr.0] == pr.1
                &&& !spec_is_static(pr.0)
            } by {
                let pr = sf.dyns()[o]@[j].1.inodes@[m];
                assert(so.dyns().dom().contains(o));
                assert(so.dyns()[o]@[j].1.inodes@[m] == pr);
                assert(pr.0 != inode);
            }
            assert forall|o: u64| #[trigger] sf.dyns().dom().contains(o) implies sf.reg(
            ).dom().contains(o) by {
                assert(so.dyns().dom().contains(o));
                assert(so.reg().dom().contains(o));
            }
            assert forall|o: u64| #[trigger] sf.phs().dom().contains(o) implies sf.reg(
            ).dom().contains(o) by {
                assert(so.phs().dom().contains(o));
                assert(so.reg().dom().contains(o));
            }
            assert forall|i: u64| #[trigger] sf.reg().dom().contains(i) implies (spec_is_static(i)
                ==> i < sf.inode_alloc.spec_next_static()) && (!spec_is_static(i) ==> i
                < sf.inode_alloc.spec_next_dyn()) by {
                if i != inode {
                    assert(so.reg().dom().contains(i));
                }
            }
        }
    }
}

impl FilesystemStructure {
    /// The registry: inode → entry.
    pub closed spec fn reg(self) -> Map<u64, Entry> {
        self.inner.reg()
    }

    /// The child map: directory inode → its child links, in insertion order.
    pub closed spec fn kids(self) -> Map<u64, Vec<ChildLink>> {
        self.inner.kids()
    }

    /// The parent map: child inode → parent inode.
    pub closed spec fn par(self) -> Map<u64, u64> {
        self.inner.par()
    }

    /// The dynamic-state table: owner inode → generation records.
    pub closed spec fn dyns(self) -> Map<u64, Vec<(DynamicStateType, DynRecord)>> {
        self.inner.dyns()
    }

    /// The phantom table: directory inode → its phantom registration.
    pub closed spec fn phs(self) -> Map<u64, PhantomConfig> {
        self.inner.phs()
    }

    /// The structural invariant.
    pub closed spec fn inv(self) -> bool {
        self.inner.inv()
    }

    /// The invariant, spelled at the view level: every registered inode but
    /// the root has a parent and stands in that parent's child list; child
    /// lists point back through the parent map; dynamic-state members are
    /// registered, carry their recorded parent, and are never static.
    pub proof fn lemma_inv_facts(self)
        requires
            self.inv(),
        ensures
            self.reg().dom().contains(1),
            !self.par().dom().contains(1),
            forall|i: u64| #[trigger]
                self.reg().dom().contains(i) && i != 1 ==> self.par().dom().contains(i)
                    && self.par()[i] < i && self.reg().dom().contains(self.par()[i])
                    && self.kids().dom().contains(self.par()[i]) && child_in_list(
                    self.kids()[self.par()[i]]@,
                    i,
                ),
            forall|o: u64, j: int, m: int|
                self.dyns().dom().contains(o) && 0 <= j < self.dyns()[o]@.len() && 0 <= m
                    < self.dyns()[o]@[j].1.inodes@.len() ==> {
                    let pr = #[trigger] self.dyns()[o]@[j].1.inodes@[m];
                    &&& self.reg().dom().contains(pr.0)
                    &&& self.par().dom().contains(pr.0)
                    &&& self.par()[pr.0] == pr.1
                    &&& !spec_is_static(pr.0)
                },
    {
        assert forall|i: u64| #[trigger]
            self.reg().dom().contains(i) && i != 1 implies self.par().dom().contains(i)
            && self.par()[i] < i && self.reg().dom().contains(self.par()[i])
            && self.kids().dom().contains(self.par()[i]) && child_in_list(
            self.kids()[self.par()[i]]@,
            i,
        ) by {
            assert(self.par().dom().contains(i));
        }
    }

    /// Start building: allocate the root inode, 1, as an empty directory
    /// (no generator, no context, no filter); no other inode, no child or
    /// parent link, no generation record and no phantom rule exist yet.
    pub fn builder() -> (r: FilesystemStructureBuilder)
        ensures
            r.inv(),
            r.reg().dom() == Set::<u64>::empty().insert(1),
            r.reg()[1] is Dir,
            r.reg()[1]->Dir_0.dynamic is None,
            r.reg()[1]->Dir_0.associated_data is None,
            r.reg()[1]->Dir_0.filter is None,
            r.kids() == Map::<u64, Vec<ChildLink>>::empty(),
            r.par() == Map::<u64, u64>::empty(),
            r.dyns() == Map::<u64, Vec<(DynamicStateType, DynRecord)>>::empty(),
            r.phs() == Map::<u64, PhantomConfig>::empty(),
            r.statics_used() == 2,
    {
        let mut inode_alloc = InodeBlockAllocator::new();
        let mut registry: AssocVec<Entry> = AssocVec::new();
        let root = inode_alloc.allocate_static();
        registry.insert(root, Entry::Dir(DirEntry::default()));
        let r = FilesystemStructureBuilder {
            inner: StructureInner {
                inode_alloc,
                root,
                registry,
                child_registry: AssocVec::new(),
                parent_registry: AssocVec::new(),
                dynamic_state: AssocVec::new(),
                phantom_registry: AssocVec::new(),
            },
        };
        proof {
            assert(r.reg().dom() =~= Set::<u64>::empty().insert(1));
        }
        r
    }

    /// The entry of an inode, if registered.
    pub fn lookup_inode(&self, inode: u64) -> (r: Option<&Entry>)
        requires
            self.inv(),
        ensures
            match r {
                Some(e) => self.reg().dom().contains(inode) && *e == self.reg()[inode],
                None => !self.reg().dom().contains(inode),
            },
    {
        self.inner.registry.get(inode)
    }

    /// Exact first match of `name` among the links of `s`.
    pub open spec fn lookup_child_in(s: Seq<ChildLink>, name: Seq<u8>) -> Option<u64>
        decreases s.len(),
    {
        if s.len() == 0 {
            None
        } else if s[0].name@ == name {
            Some(s[0].inode)
        } else {
            Self::lookup_child_in(s.drop_first(), name)
        }
    }

    /// What `lookup_child` yields: the first child of `parent` whose name
    /// matches, byte for byte.
    pub open spec fn lookup_child_spec(self, parent: u64, name: Seq<u8>) -> Option<u64> {
        if self.kids().dom().contains(parent) {
            Self::lookup_child_in(self.kids()[parent]@, name)
        } else {
            None
        }
    }

    /// The first child of `parent` named `name`, with its entry.
    pub fn lookup_child(&self, parent: u64, name: &[u8]) -> (r: Option<(u64, &Entry)>)
        requires
            self.inv(),
        ensures
            match r {
                Some((i, e)) => self.lookup_child_spec(parent, name@) == Some(i)
                    && self.reg().dom().contains(i) && *e == self.reg()[i]
                    && self.par().dom().contains(i) && self.par()[i] == parent,
                None => self.lookup_child_spec(parent, name@) is None,
            },
    {
        let list = match self.inner.child_registry.get(parent) {
            Some(l) => l,
            None => {
                return None;
            },
        };
        let name_vec = vstd::slice::slice_to_vec(name);
        let mut i: usize = 0;
        proof {
            assert(list@.skip(0) =~= list@);
        }
        while i < list.len()
            invariant
                i <= list@.len(),
                name_vec@ == name@,
                self.inv(),
                self.kids().dom().contains(parent),
                list == self.kids()[parent],
                Self::lookup_child_in(list@, name@) == Self::lookup_child_in(
                    list@.skip(i as int),
                    name@,
                ),
            decreases list@.len() - i,
        {
            proof {
                assert(list@.skip(i as int)[0] == list@[i as int]);
                assert(list@.skip(i as int).drop_first() =~= list@.skip(i + 1));
            }
            if crate::entry::bytes_eq(&list[i].name, &name_vec) {
                let ino = list[i].inode;
                proof {
                    let me = *self;
                    assert(me.kids().dom().contains(parent));
                    assert(me.kids()[parent]@[i as int].inode == ino);
                    assert(me.par().dom().contains(ino));
                    assert(me.par()[ino] == parent);
                }
                let entry = match self.inner.registry.get(ino) {
                    Some(e) => e,
                    None => {
                        proof {
                            assert(false);
                        }
                        return None;
                    },
                };
                return Some((ino, entry));
            }
            i = i + 1;
        }
        proof {
            assert(list@.skip(list@.len() as int) =~= Seq::<ChildLink>::empty());
        }
        None
    }

    /// All children of `inode`, as (child inode, name) pairs in insertion
    /// order, or nothing when `inode` has no child list.
    pub fn lookup_children(&self, inode: u64) -> (r: Option<Vec<(u64, Vec<u8>)>>)
        requires
            self.inv(),
        ensures
            match r {
                Some(v) => self.kids().dom().contains(inode) && v@.len()
                    == self.kids()[inode]@.len() && forall|j: int|
                    0 <= j < v@.len() ==> (#[trigger] v@[j]).0 == self.kids()[inode]@[j].inode
                        && v@[j].1@ == self.kids()[inode]@[j].name@ && self.reg().dom().contains(
                        v@[j].0,
                    ),
                None => !self.kids().dom().contains(inode),
            },
    {
        let list = match self.inner.child_registry.get(inode) {
            Some(l) => l,
            None => {
                return None;
            },
        };
        let mut out: Vec<(u64, Vec<u8>)> = Vec::new();
        let mut i: usize = 0;
        while i < list.len()
            invariant
                i <= list@.len(),
                self.inv(),
                self.kids().dom().contains(inode),
                *list == self.kids()[inode],
                out@.len() == i,
                forall|j: int|
                    0 <= j < i ==> (#[trigger] out@[j]).0 == list@[j].inode && out@[j].1@
                        == list@[j].name@ && self.reg().dom().contains(out@[j].0),
            decreases list@.len() - i,
        {
            let name_copy = vstd::slice::slice_to_vec(list[i].name.as_slice());
            proof {
                let me = *self;
                assert(me.kids()[inode]@[i as int].inode == list@[i as int].inode);
                assert(me.par().dom().contains(list@[i as int].inode));
            }
            out.push((list[i].inode, name_copy));
            i = i + 1;
        }
        Some(out)
    }
}

impl FilesystemStructureBuilder {
    pub closed spec fn inv(self) -> bool {
        self.inner.inv()
    }

    pub closed spec fn reg(self) -> Map<u64, Entry> {
        self.inner.reg()
    }

    pub closed spec fn kids(self) -> Map<u64, Vec<ChildLink>> {
        self.inner.kids()
    }

    pub closed spec fn par(self) -> Map<u64, u64> {
        self.inner.par()
    }

    pub closed spec fn phs(self) -> Map<u64, PhantomConfig> {
        self.inner.phs()
    }

    pub closed spec fn dyns(self) -> Map<u64, Vec<(DynamicStateType, DynRecord)>> {
        self.inner.dyns()
    }

    /// The next static inode number to be issued.
    pub closed spec fn statics_used(self) -> u64 {
        self.inner.inode_alloc.spec_next_static()
    }

    /// The dynamic watermark the sealed structure starts from.
    pub closed spec fn statics_left_dyn(self) -> u64 {
        self.inner.inode_alloc.spec_next_dyn()
    }

    /// The root inode.
    pub fn root(&self) -> (r: u64)
        requires
            self.inv(),
        ensures
            r == 1,
            self.reg().dom().contains(r),
    {
        self.inner.root
    }

    /// Register a new static entry named `name` under `parent`, returning
    /// its inode.
    pub fn add_entry(&mut self, parent: u64, name: &str, entry: Entry) -> (r: u64)
        requires
            old(self).inv(),
            old(self).reg().dom().contains(parent),
            spec_is_static(parent),
            old(self).statics_used() < STATIC_MAX,
        ensures
            final(self).inv(),
            spec_is_static(r),
            !old(self).reg().dom().contains(r),
            !old(self).kids().dom().contains(r),
            !old(self).phs().dom().contains(r),
            r != parent,
            final(self).reg() == old(self).reg().insert(r, entry),
            final(self).par() == old(self).par().insert(r, parent),
            final(self).phs() == old(self).phs(),
            final(self).dyns() == old(self).dyns(),
            final(self).statics_used() == old(self).statics_used() + 1,
            final(self).kids().dom() == old(self).kids().dom().insert(parent),
            final(self).kids() == old(self).kids().insert(parent, final(self).kids()[parent]),
            forall|q: u64|
                q != parent && #[trigger] final(self).kids().dom().contains(q) ==> old(
                    self,
                ).kids().dom().contains(q) && final(self).kids()[q] == old(self).kids()[q],
            ({
                let oldl: Seq<ChildLink> = if old(self).kids().dom().contains(parent) {
                    old(self).kids()[parent]@
                } else {
                    Seq::empty()
                };
                let newl = final(self).kids()[parent]@;
                &&& newl.len() == oldl.len() + 1
                &&& newl.subrange(0, oldl.len() as int) == oldl
                &&& newl.last().inode == r
                &&& newl.last().name@ == name.spec_bytes()
            }),
    {
        let inode = self.inner.inode_alloc.allocate_static();
        let name_bytes = vstd::slice::slice_to_vec(name.as_bytes());
        proof {
            StructureInner::lemma_inv_alloc_grow(old(self).inner, self.inner);
            assert(!old(self).reg().dom().contains(inode));
            assert(parent < inode);
        }
        self.inner.register(inode, entry, parent, name_bytes);
        proof {
            assert forall|q: u64| #[trigger] self.kids().dom().contains(q) && q
                != parent implies old(self).kids().dom().contains(q) && self.kids()[q] == old(
                self,
            ).kids()[q] by {
            }
            assert(self.kids() =~= old(self).kids().insert(parent, self.kids()[parent]));
        }
        inode
    }

    /// Register a phantom-child rule on `inode`.
    pub fn add_phantom(
        &mut self,
        inode: u64,
        parse_func: PhantomChildFn,
        interest_func: PhantomDynamicInterestFn,
        dyn_func: DynamicDirFn,
    )
        requires
            old(self).inv(),
            old(self).reg().dom().contains(inode),
        ensures
            final(self).inv(),
            final(self).reg() == old(self).reg(),
            final(self).kids() == old(self).kids(),
            final(self).par() == old(self).par(),
            final(self).statics_used() == old(self).statics_used(),
            final(self).dyns() == old(self).dyns(),
            final(self).phs() == old(self).phs().insert(
                inode,
                PhantomConfig { parse: parse_func, interest: interest_func, dyn_fn: dyn_func },
            ),
    {
        self.inner.phantom_registry.insert(
            inode,
            PhantomConfig { parse: parse_func, interest: interest_func, dyn_fn: dyn_func },
        );
        proof {
            let so = old(self).inner;
            let sn = self.inner;
            assert forall|o: u64| #[trigger] sn.phs().dom().contains(o) implies sn.reg(
            ).dom().contains(o) by {
                if o != inode {
                    assert(so.phs().dom().contains(o));
                }
                assert(so.reg().dom().contains(o));
            }
            assert forall|o: u64| #[trigger] sn.dyns().dom().contains(o) implies sn.reg(
            ).dom().contains(o) by {
                assert(so.dyns().dom().contains(o));
            }
            assert forall|o: u64, j: int, m: int|
                sn.dyns().dom().contains(o) && 0 <= j < sn.dyns()[o]@.len() && 0 <= m
                    < sn.dyns()[o]@[j].1.inodes@.len() implies {
                let pr = #[trigger] sn.dyns()[o]@[j].1.inodes@[m];
                &&& sn.reg().dom().contains(pr.0)
                &&& sn.par().dom().contains(pr.0)
                &&& sn.par()[pr.0] == pr.1
                &&& !spec_is_static(pr.0)
            } by {
                assert(so.dyns().dom().contains(o));
                assert(so.dyns()[o]@[j].1.inodes@[m] == sn.dyns()[o]@[j].1.inodes@[m]);
            }
            assert(sn.inv());
        }
    }

    /// Seal the static topology.
    pub fn finish(self) -> (r: FilesystemStructure)
        requires
            self.inv(),
        ensures
            r.inv(),
            r.reg() == self.reg(),
            r.kids() == self.kids(),
            r.par() == self.par(),
            r.phs() == self.phs(),
            r.dyns() == self.dyns(),
            r.next_dyn() == self.statics_left_dyn(),
    {
        FilesystemStructure { inner: self.inner }
    }
}

/// The set of inodes whose parent chain (in `par0`) reaches `stale`,
/// restricted to registered ones: the stale inode and its descendants.
pub open spec fn victim_set(reg0: Map<u64, Entry>, par0: Map<u64, u64>, stale: u64) -> Set<u64> {
    Set::new(|k: u64| reg0.dom().contains(k) && reaches(par0, k, stale))
}

/// Keep a generation member unless its inode is a victim of `stale`.
pub open spec fn keep_pair(reg0: Map<u64, Entry>, par0: Map<u64, u64>, stale: u64) -> spec_fn(
    (u64, u64),
) -> bool {
    |pr: (u64, u64)| !victim_set(reg0, par0, stale).contains(pr.0)
}

/// A chain through the parent map never climbs to a larger number.
pub proof fn lemma_reaches_ge(p: Map<u64, u64>, x: u64, t: u64)
    requires
        reaches(p, x, t),
    ensures
        x >= t,
    decreases x,
{
    if x != t {
        lemma_reaches_ge(p, p[x], t);
    }
}

/// Filtering distributes over push.
pub proof fn lemma_filter_push<T>(s: Seq<T>, pred: spec_fn(T) -> bool, x: T)
    ensures
        s.push(x).filter(pred) == if pred(x) {
            s.filter(pred).push(x)
        } else {
            s.filter(pred)
        },
{
    assert(s.push(x).drop_last() =~= s);
    assert(s.push(x).last() == x);
    reveal_with_fuel(Seq::filter, 2);
}

/// Every element of a filtered sequence satisfies the predicate and comes
/// from the original sequence.
pub proof fn lemma_filter_sub<T>(s: Seq<T>, pred: spec_fn(T) -> bool)
    ensures
        forall|j: int|
            0 <= j < s.filter(pred).len() ==> pred(#[trigger] s.filter(pred)[j]) && s.contains(
                s.filter(pred)[j],
            ),
    decreases s.len(),
{
    reveal_with_fuel(Seq::filter, 2);
    if s.len() > 0 {
        lemma_filter_sub(s.drop_last(), pred);
        assert forall|j: int|
            0 <= j < s.filter(pred).len() implies pred(#[trigger] s.filter(pred)[j])
            && s.contains(s.filter(pred)[j]) by {
            let f = s.filter(pred);
            if pred(s.last()) {
                assert(f == s.drop_last().filter(pred).push(s.last()));
                if j < f.len() - 1 {
                    assert(f[j] == s.drop_last().filter(pred)[j]);
                    assert(s.drop_last().contains(f[j]));
                    let m = choose|m: int|
                        0 <= m < s.drop_last().len() && s.drop_last()[m] == f[j];
                    assert(s[m] == f[j]);
                } else {
                    assert(f[j] == s.last());
                    assert(s[s.len() - 1] == s.last());
                }
            } else {
                assert(f == s.drop_last().filter(pred));
                assert(s.drop_last().contains(f[j]));
                let m = choose|m: int| 0 <= m < s.drop_last().len() && s.drop_last()[m] == f[j];
                assert(s[m] == f[j]);
            }
        }
    }
}

/// Whether `v` holds `x`.
fn vec_contains(v: &Vec<u64>, x: u64) -> (r: bool)
    ensures
        r == v@.contains(x),
{
    let mut i: usize = 0;
    while i < v.len()
        invariant
            i <= v@.len(),
            forall|j: int| 0 <= j < i ==> v@[j] != x,
        decreases v@.len() - i,
    {
        if v[i] == x {
            return true;
        }
        i = i + 1;
    }
    false
}

impl FilesystemStructure {
    /// Whether the parent chain of `x` reaches `t`.
    fn is_descendant(&self, x: u64, t: u64) -> (r: bool)
        requires
            self.inv(),
        ensures
            r == reaches(self.par(), x, t),
    {
        let mut cur = x;
        loop
            invariant
                self.inv(),
                reaches(self.par(), x, t) == reaches(self.par(), cur, t),
            decreases cur,
        {
            if cur == t {
                return true;
            }
            match self.inner.parent_registry.get(cur) {
                Some(p) => {
                    proof {
                        assert(self.par()[cur] < cur);
                    }
                    cur = *p;
                },
                None => {
                    return false;
                },
            }
        }
    }

    /// Unregister `stale` and, recursively, every descendant: all of them
    /// leave the registry, the parent map, the child map, the phantom table
    /// and the dynamic-state table, both as record owners and as recorded
    /// members; `stale`'s link leaves its parent's child list; everything
    /// else is untouched.
    #[verifier::rlimit(100)]
    fn unregister(&mut self, stale: u64)
        requires
            old(self).inv(),
            old(self).reg().dom().contains(stale),
            stale != 1,
        ensures
            final(self).inv(),
            final(self).next_dyn() == old(self).next_dyn(),
            final(self).statics_used_s() == old(self).statics_used_s(),
            ({
                let vict = victim_set(old(self).reg(), old(self).par(), stale);
                let p0 = old(self).par()[stale];
                &&& vict.contains(stale)
                &&& !vict.contains(p0)
                &&& final(self).reg() == old(self).reg().remove_keys(vict)
                &&& final(self).par() == old(self).par().remove_keys(vict)
                &&& final(self).phs() == old(self).phs().remove_keys(vict)
                &&& final(self).kids().dom() == old(self).kids().dom().difference(vict)
                &&& forall|q: u64|
                    #[trigger] final(self).kids().dom().contains(q) && q != p0
                        ==> final(self).kids()[q] == old(self).kids()[q]
                &&& final(self).kids().dom().contains(p0)
                &&& ({
                    let l0 = old(self).kids()[p0]@;
                    let j0 = choose|j: int| 0 <= j < l0.len() && l0[j].inode == stale;
                    final(self).kids()[p0]@ == l0.remove(j0)
                })
                &&& final(self).dyns().dom() == old(self).dyns().dom().difference(vict)
                &&& forall|o: u64| #[trigger]
                    final(self).dyns().dom().contains(o) ==> {
                        let oldl = old(self).dyns()[o]@;
                        let newl = final(self).dyns()[o]@;
                        &&& newl.len() == oldl.len()
                        &&& forall|j: int|
                            0 <= j < newl.len() ==> (#[trigger] newl[j]).0 == oldl[j].0
                                && newl[j].1.time_collected == oldl[j].1.time_collected
                                && newl[j].1.inodes@ == oldl[j].1.inodes@.filter(
                                keep_pair(old(self).reg(), old(self).par(), stale),
                            )
                    }
            }),
    {
        let ghost reg0 = old(self).reg();
        let ghost par0 = old(self).par();
        let ghost kids0 = old(self).kids();
        let ghost dyns0 = old(self).dyns();
        let ghost phs0 = old(self).phs();
        let ghost vict = victim_set(reg0, par0, stale);
        proof {
            old(self).lemma_inv_facts();
            assert(vict.contains(stale));
            assert forall|k: u64| #[trigger] vict.contains(k) implies k != 1 && k >= stale by {
                lemma_reaches_ge(par0, k, stale);
                if k == 1 {
                    assert(reaches(par0, 1, stale));
                    assert(!par0.dom().contains(1));
                }
            }
            assert(!vict.contains(old(self).par()[stale])) by {
                let p0 = old(self).par()[stale];
                assert(p0 < stale);
                if vict.contains(p0) {
                    lemma_reaches_ge(par0, p0, stale);
                }
            }
        }

        // 1. collect the victims: every registered inode reaching `stale`
        let mut victims: Vec<u64> = Vec::new();
        let n = self.inner.registry.len();
        let mut idx: usize = 0;
        proof {
            self.inner.registry.lemma_seq_view();
        }
        while idx < n
            invariant
                *self == *old(self),
                self.inv(),
                idx <= n,
                n == self.inner.registry.seq().len(),
                vict == victim_set(self.reg(), self.par(), stale),
                forall|j: int| 0 <= j < victims@.len() ==> vict.contains(#[trigger] victims@[j]),
                forall|i2: int|
                    0 <= i2 < idx ==> (vict.contains(#[trigger] self.inner.registry.seq()[i2].0)
                        ==> victims@.contains(self.inner.registry.seq()[i2].0)),
                forall|j1: int, j2: int|
                    0 <= j1 < j2 < victims@.len() ==> victims@[j1] != victims@[j2],
            decreases n - idx,
        {
            let k = self.inner.registry.key_at(idx);
            proof {
                self.inner.registry.lemma_seq_view();
            }
            if self.is_descendant(k, stale) && !vec_contains(&victims, k) {
                let ghost pre = victims@;
                victims.push(k);
                proof {
                    assert(victims@ == pre.push(k));
                    assert(victims@.contains(k)) by {
                        assert(victims@[pre.len() as int] == k);
                    }
                    assert forall|i2: int|
                        0 <= i2 < idx + 1 && vict.contains(
                            #[trigger] self.inner.registry.seq()[i2].0,
                        ) implies victims@.contains(self.inner.registry.seq()[i2].0) by {
                        let key2 = self.inner.registry.seq()[i2].0;
                        if i2 < idx {
                            assert(pre.contains(key2));
                            let j = choose|j: int| 0 <= j < pre.len() && pre[j] == key2;
                            assert(victims@[j] == key2);
                        }
                    }
                }
            } else {
                proof {
                    if vict.contains(k) {
                        assert(victims@.contains(k));
                    }
                }
            }
            idx = idx + 1;
        }
        proof {
            self.inner.registry.lemma_seq_view();
            assert forall|k: u64| vict.contains(k) implies victims@.contains(k) by {
                assert(self.reg().dom().contains(k));
                assert(crate::assoc::has_key(self.inner.registry.seq(), k));
                let i2 = crate::assoc::index_of(self.inner.registry.seq(), k);
                crate::assoc::lemma_key_unique(self.inner.registry.seq(), k);
                assert(self.inner.registry.seq()[i2].0 == k);
            }
            assert forall|k: u64| victims@.contains(k) implies vict.contains(k) by {
                let j = choose|j: int| 0 <= j < victims@.len() && victims@[j] == k;
                assert(vict.contains(victims@[j]));
            }
        }

        // 2. drop `stale`'s link from its parent's child list
        let p0: u64 = match self.inner.parent_registry.get(stale) {
            Some(p) => *p,
            None => {
                proof {
                    assert(false);
                }
                return ;
            },
        };
        let mut plist: Vec<ChildLink> = match self.inner.child_registry.take(p0) {
            Some(l) => l,
            None => {
                proof {
                    assert(false);
                }
                return ;
            },
        };
        let ghost plist0 = plist@;
        let mut li: usize = 0;
        let mut found: usize = 0;
        let mut have = false;
        while li < plist.len()
            invariant
                li <= plist@.len(),
                plist@ == plist0,
                have ==> found < li && plist0[found as int].inode == stale,
                !have ==> forall|j: int| 0 <= j < li ==> plist0[j].inode != stale,
            decreases plist@.len() - li,
        {
            if !have && plist[li].inode == stale {
                found = li;
                have = true;
            }
            li = li + 1;
        }
        proof {
            assert(child_in_list(plist0, stale));
            assert(have);
            let j0 = choose|j: int| 0 <= j < plist0.len() && plist0[j].inode == stale;
            // the stale link is unique in the list
            assert(kids0.dom().contains(p0) && kids0[p0]@ == plist0);
            if j0 != found {
                assert(plist0[j0].inode == plist0[found as int].inode);
                if j0 < found {
                    assert(kids0[p0]@[j0].inode != kids0[p0]@[found as int].inode);
                } else {
                    assert(kids0[p0]@[found as int].inode != kids0[p0]@[j0].inode);
                }
            }
            assert(j0 == found);
        }
        let _ = plist.remove(found);
        self.inner.child_registry.insert(p0, plist);
        let ghost kids_base = self.kids();
        proof {
            assert(kids_base.dom() =~= kids0.dom());
            assert(kids_base[p0]@ == plist0.remove(found as int));
            assert(forall|q: u64|
                #[trigger] kids_base.dom().contains(q) && q != p0 ==> kids_base[q] == kids0[q]);
        }

        // 3. remove every victim from all maps
        let mut i: usize = 0;
        while i < victims.len()
            invariant
                i <= victims@.len(),
                self.inner.registry.wf(),
                self.inner.child_registry.wf(),
                self.inner.parent_registry.wf(),
                self.inner.dynamic_state.wf(),
                self.inner.phantom_registry.wf(),
                self.inner.inode_alloc == old(self).inner.inode_alloc,
                self.inner.root == old(self).inner.root,
                self.reg() == reg0.remove_keys(seq_pref_set(victims@, i as int)),
                self.par() == par0.remove_keys(seq_pref_set(victims@, i as int)),
                self.phs() == phs0.remove_keys(seq_pref_set(victims@, i as int)),
                self.kids() == kids_base.remove_keys(seq_pref_set(victims@, i as int)),
                self.dyns() == dyns0.remove_keys(seq_pref_set(victims@, i as int)),
            decreases victims@.len() - i,
        {
            let v = victims[i];
            self.inner.registry.remove(v);
            self.inner.parent_registry.remove(v);
            self.inner.child_registry.remove(v);
            self.inner.phantom_registry.remove(v);
            self.inner.dynamic_state.remove(v);
            proof {
                lemma_pref_set_step(victims@, i as int);
                assert(self.reg() =~= reg0.remove_keys(seq_pref_set(victims@, i + 1)));
                assert(self.par() =~= par0.remove_keys(seq_pref_set(victims@, i + 1)));
                assert(self.phs() =~= phs0.remove_keys(seq_pref_set(victims@, i + 1)));
                assert(self.kids() =~= kids_base.remove_keys(seq_pref_set(victims@, i + 1)));
                assert(self.dyns() =~= dyns0.remove_keys(seq_pref_set(victims@, i + 1)));
            }
            i = i + 1;
        }
        proof {
            assert(seq_pref_set(victims@, victims@.len() as int) =~= vict) by {
                assert forall|k: u64| seq_pref_set(victims@, victims@.len() as int).contains(
                    k,
                ) == vict.contains(k) by {
                    if seq_pref_set(victims@, victims@.len() as int).contains(k) {
                        let j = choose|j: int|
                            0 <= j < victims@.len() && victims@[j] == k;
                        assert(victims@.contains(k));
                    }
                    if vict.contains(k) {
                        assert(victims@.contains(k));
                        let j = choose|j: int|
                            0 <= j < victims@.len() && victims@[j] == k;
                        assert(seq_pref_set(victims@, victims@.len() as int).contains(k));
                    }
                }
            }
            assert(self.reg() == reg0.remove_keys(vict));
            assert(self.par() == par0.remove_keys(vict));
            assert(self.phs() == phs0.remove_keys(vict));
            assert(self.kids() == kids_base.remove_keys(vict));
            assert(self.dyns() == dyns0.remove_keys(vict));
        }

        // 4. purge victim members from surviving generation records
        let mut owners: Vec<u64> = Vec::new();
        let dn = self.inner.dynamic_state.len();
        let mut oi: usize = 0;
        proof {
            self.inner.dynamic_state.lemma_seq_view();
        }
        let ghost snap = *self;
        while oi < dn
            invariant
                oi <= dn,
                *self == snap,
                dn == self.inner.dynamic_state.seq().len(),
                owners@.len() == oi,
                forall|j: int|
                    0 <= j < oi ==> (#[trigger] owners@[j]) == self.inner.dynamic_state.seq()[j].0,
            decreases dn - oi,
        {
            owners.push(self.inner.dynamic_state.key_at(oi));
            oi = oi + 1;
        }
        let ghost dseq = self.inner.dynamic_state.seq();
        let ghost dyns_mid = self.dyns();
        proof {
            self.inner.dynamic_state.lemma_seq_view();
            assert forall|o: u64| #[trigger] self.dyns().dom().contains(o) implies owners@.contains(
                o,
            ) by {
                assert(crate::assoc::has_key(dseq, o));
                let j = crate::assoc::index_of(dseq, o);
                crate::assoc::lemma_key_unique(dseq, o);
                assert(owners@[j] == o);
            }
            assert forall|j1: int, j2: int|
                0 <= j1 < j2 < owners@.len() implies owners@[j1] != owners@[j2] by {
                assert(owners@[j1] == dseq[j1].0);
                assert(owners@[j2] == dseq[j2].0);
            }
            assert forall|j: int| 0 <= j < owners@.len() implies dyns_mid.dom().contains(
                #[trigger] owners@[j],
            ) by {
                assert(owners@[j] == dseq[j].0);
            }
        }
        let mut wi: usize = 0;
        while wi < owners.len()
            invariant
                wi <= owners@.len(),
                self.inner.registry.wf(),
                self.inner.child_registry.wf(),
                self.inner.parent_registry.wf(),
                self.inner.dynamic_state.wf(),
                self.inner.phantom_registry.wf(),
                self.inner.inode_alloc == old(self).inner.inode_alloc,
                self.inner.root == old(self).inner.root,
                self.reg() == reg0.remove_keys(vict),
                self.par() == par0.remove_keys(vict),
                self.phs() == phs0.remove_keys(vict),
                self.kids() == kids_base.remove_keys(vict),
                forall|j: int| 0 <= j < victims@.len() ==> vict.contains(#[trigger] victims@[j]),
                forall|k: u64| #[trigger] vict.contains(k) ==> victims@.contains(k),
                vict == victim_set(reg0, par0, stale),
                forall|j1: int, j2: int|
                    0 <= j1 < j2 < owners@.len() ==> owners@[j1] != owners@[j2],
                forall|j: int|
                    0 <= j < owners@.len() ==> dyns_mid.dom().contains(#[trigger] owners@[j]),
                self.dyns().dom() == dyns_mid.dom(),
                forall|o: u64|
                    #[trigger] self.dyns().dom().contains(o) && !owners@.subrange(
                        0,
                        wi as int,
                    ).contains(o) ==> self.dyns()[o] == dyns_mid[o],
                forall|o: u64|
                    #[trigger] self.dyns().dom().contains(o) && owners@.subrange(
                        0,
                        wi as int,
                    ).contains(o) ==> purged(self.dyns()[o]@, dyns_mid[o]@, reg0, par0, stale),
            decreases owners@.len() - wi,
        {
            let o = owners[wi];
            proof {
                assert(dyns_mid.dom().contains(o));
                assert(self.dyns().dom().contains(o));
                assert(!owners@.subrange(0, wi as int).contains(o)) by {
                    if owners@.subrange(0, wi as int).contains(o) {
                        let j = choose|j: int|
                            0 <= j < wi && #[trigger] owners@.subrange(0, wi as int)[j] == o;
                        assert(owners@[j] == owners@[wi as int]);
                    }
                }
                assert(self.dyns()[o] == dyns_mid[o]);
            }
            match self.inner.dynamic_state.take(o) {
                Some(mut list) => {
                    let ghost listin = list@;
                    let mut outl: Vec<(DynamicStateType, DynRecord)> = Vec::new();
                    while list.len() > 0
                        invariant
                            vict == victim_set(reg0, par0, stale),
                            outl@.len() + list@.len() == listin.len(),
                            list@ == listin.subrange(outl@.len() as int, listin.len() as int),
                            forall|j: int|
                                0 <= j < outl@.len() ==> (#[trigger] outl@[j]).0 == listin[j].0
                                    && outl@[j].1.time_collected == listin[j].1.time_collected
                                    && outl@[j].1.inodes@ == listin[j].1.inodes@.filter(
                                    keep_pair(reg0, par0, stale),
                                ),
                            forall|j: int| 0 <= j < victims@.len() ==> vict.contains(#[trigger] victims@[j]),
                            forall|k: u64| #[trigger] vict.contains(k) ==> victims@.contains(k),
                        decreases list@.len(),
                    {
                        let (ty, rec) = list.remove(0);
                        proof {
                            assert(listin[outl@.len() as int] == (ty, rec));
                        }
                        let mut kept: Vec<(u64, u64)> = Vec::new();
                        let mut mi: usize = 0;
                        proof {
                            assert(rec.inodes@.subrange(0, 0) =~= Seq::<(u64, u64)>::empty());
                            assert(Seq::<(u64, u64)>::empty().filter(keep_pair(reg0, par0, stale))
                                =~= Seq::<(u64, u64)>::empty());
                        }
                        while mi < rec.inodes.len()
                            invariant
                                vict == victim_set(reg0, par0, stale),
                                mi <= rec.inodes@.len(),
                                kept@ == rec.inodes@.subrange(0, mi as int).filter(
                                    keep_pair(reg0, par0, stale),
                                ),
                                forall|j: int| 0 <= j < victims@.len() ==> vict.contains(#[trigger] victims@[j]),
                                forall|k: u64| #[trigger] vict.contains(k) ==> victims@.contains(k),
                            decreases rec.inodes@.len() - mi,
                        {
                            let pr = rec.inodes[mi];
                            proof {
                                assert(rec.inodes@.subrange(0, mi + 1).drop_last() =~= rec.inodes@.subrange(0, mi as int));
                                assert(rec.inodes@.subrange(0, mi + 1) =~= rec.inodes@.subrange(
                                    0,
                                    mi as int,
                                ).push(pr));
                                lemma_filter_push(
                                    rec.inodes@.subrange(0, mi as int),
                                    keep_pair(reg0, par0, stale),
                                    pr,
                                );
                            }
                            if !vec_contains(&victims, pr.0) {
                                proof {
                                    assert(!vict.contains(pr.0));
                                    assert(keep_pair(reg0, par0, stale)(pr));
                                }
                                kept.push(pr);
                            } else {
                                proof {
                                    assert(vict.contains(pr.0));
                                    assert(!keep_pair(reg0, par0, stale)(pr));
                                }
                            }
                            mi = mi + 1;
                        }
                        proof {
                            assert(rec.inodes@.subrange(0, rec.inodes@.len() as int) =~= rec.inodes@);
                        }
                        outl.push((ty, DynRecord { inodes: kept, time_collected: rec.time_collected }));
                        proof {
                            assert(list@ =~= listin.subrange(outl@.len() as int, listin.len() as int));
                        }
                    }
                    self.inner.dynamic_state.insert(o, outl);
                    proof {
                        assert(listin.subrange(outl@.len() as int, listin.len() as int).len() == 0);
                        assert(self.dyns().dom() =~= dyns_mid.dom());
                        assert forall|o2: u64|
                            #[trigger] self.dyns().dom().contains(o2) && owners@.subrange(
                                0,
                                wi + 1,
                            ).contains(o2) implies purged(
                            self.dyns()[o2]@,
                            dyns_mid[o2]@,
                            reg0,
                            par0,
                            stale,
                        ) by {
                            if o2 != o {
                                let j = choose|j: int|
                                    0 <= j < wi + 1 && #[trigger] owners@.subrange(0, wi + 1)[j]
                                        == o2;
                                assert(owners@.subrange(0, wi as int)[j] == o2);
                                assert(owners@.subrange(0, wi as int).contains(o2));
                            } else {
                                assert(dyns_mid[o]@ == listin);
                            }
                        }
                        assert forall|o2: u64|
                            #[trigger] self.dyns().dom().contains(o2) && !owners@.subrange(
                                0,
                                wi + 1,
                            ).contains(o2) implies self.dyns()[o2] == dyns_mid[o2] by {
                            assert(o2 != o) by {
                                if o2 == o {
                                    assert(owners@.subrange(0, wi + 1)[wi as int] == o);
                                }
                            }
                            assert(!owners@.subrange(0, wi as int).contains(o2)) by {
                                if owners@.subrange(0, wi as int).contains(o2) {
                                    let j = choose|j: int|
                                        0 <= j < wi && #[trigger] owners@.subrange(0, wi as int)[j]
                                            == o2;
                                    assert(owners@.subrange(0, wi + 1)[j] == o2);
                                }
                            }
                        }
                    }
                },
                None => {
                    proof {
                        assert(false);
                    }
                },
            }
            wi = wi + 1;
        }

        // 5. the invariant holds of what is left
        proof {
            let a = old(self).inner;
            let b = self.inner;
            assert(owners@.subrange(0, owners@.len() as int) =~= owners@);
            // every surviving record list is the purged form of the old one
            assert forall|o: u64| #[trigger] b.dyns().dom().contains(o) implies purged(
                b.dyns()[o]@,
                dyns0[o]@,
                reg0,
                par0,
                stale,
            ) && dyns0.dom().contains(o) && !vict.contains(o) by {
                assert(owners@.contains(o));
                assert(purged(b.dyns()[o]@, dyns_mid[o]@, reg0, par0, stale));
                assert(dyns_mid[o] == dyns0[o]);
            }
            // a parent outside the victim set has no victim child but `stale`
            assert forall|c: u64|
                par0.dom().contains(c) && !vict.contains(par0[c]) && c != stale && #[trigger]
                    vict.contains(c) implies false by {
                assert(reaches(par0, c, stale));
                assert(c != stale);
                assert(reaches(par0, par0[c], stale));
                assert(a.reg().dom().contains(par0[c]));
            }
            // the structural clauses, one by one
            assert forall|i: u64| #[trigger] b.reg().dom().contains(i) && i != 1 implies b.par(
            ).dom().contains(i) by {
                assert(a.reg().dom().contains(i));
                assert(a.par().dom().contains(i));
            }
            assert forall|i: u64| #[trigger] b.par().dom().contains(i) implies i != 1
                && b.reg().dom().contains(i) && b.par()[i] < i && b.reg().dom().contains(b.par()[i])
                && b.kids().dom().contains(b.par()[i]) && child_in_list(
                b.kids()[b.par()[i]]@,
                i,
            ) by {
                assert(a.par().dom().contains(i));
                let q = par0[i];
                assert(!vict.contains(i));
                assert(!vict.contains(q)) by {
                    if vict.contains(q) {
                        assert(a.reg().dom().contains(i));
                        assert(i != stale);
                        assert(reaches(par0, i, stale));
                    }
                }
                assert(b.reg().dom().contains(q));
                assert(kids0.dom().contains(q));
                assert(b.kids().dom().contains(q));
                if q != p0 {
                    assert(b.kids()[q] == kids0[q]);
                    assert(child_in_list(b.kids()[q]@, i));
                } else {
                    let l0 = plist0;
                    assert(child_in_list(l0, i));
                    let j = choose|j: int| 0 <= j < l0.len() && l0[j].inode == i;
                    assert(i != stale);
                    assert(j != found);
                    let l1 = b.kids()[p0]@;
                    assert(l1 == l0.remove(found as int));
                    if j < found {
                        assert(l1[j] == l0[j]);
                        assert(child_in_list(l1, i));
                    } else {
                        assert(l1[j - 1] == l0[j]);
                        assert(child_in_list(l1, i));
                    }
                }
            }
            assert forall|q: u64| #[trigger] b.kids().dom().contains(q) implies b.reg(
            ).dom().contains(q) by {
                assert(kids0.dom().contains(q) && !vict.contains(q));
                assert(a.kids().dom().contains(q));
                assert(a.reg().dom().contains(q));
            }
            assert forall|q: u64, j: int|
                b.kids().dom().contains(q) && 0 <= j < b.kids()[q]@.len() implies b.par(
            ).dom().contains(#[trigger] b.kids()[q]@[j].inode) && b.par()[b.kids()[q]@[j].inode]
                == q by {
                assert(a.kids().dom().contains(q) && !vict.contains(q));
                let c: u64 = if q != p0 {
                    assert(b.kids()[q] == kids0[q]);
                    b.kids()[q]@[j].inode
                } else {
                    b.kids()[q]@[j].inode
                };
                if q != p0 {
                    assert(b.kids()[q]@[j] == kids0[q]@[j]);
                    assert(par0.dom().contains(c) && par0[c] == q);
                } else {
                    let l0 = plist0;
                    let oj: int = if j < found {
                        j
                    } else {
                        j + 1
                    };
                    assert(b.kids()[p0]@[j] == l0[oj]);
                    assert(kids0[p0]@ == l0);
                    assert(par0.dom().contains(l0[oj].inode) && par0[l0[oj].inode] == q);
                }
                assert(par0.dom().contains(c) && par0[c] == q);
                assert(c != stale ==> !vict.contains(c)) by {
                    if vict.contains(c) && c != stale {
                        assert(a.reg().dom().contains(c));
                        assert(reaches(par0, c, stale));
                        assert(reaches(par0, q, stale));
                        assert(a.reg().dom().contains(q));
                        assert(vict.contains(q));
                    }
                }
                assert(c != stale) by {
                    if c == stale {
                        assert(q == p0);
                        let l0 = plist0;
                        let oj: int = if j < found {
                            j
                        } else {
                            j + 1
                        };
                        assert(l0[oj].inode == stale);
                        assert(oj != found);
                        if oj < found {
                            assert(kids0[p0]@[oj].inode != kids0[p0]@[found as int].inode);
                        } else {
                            assert(kids0[p0]@[found as int].inode != kids0[p0]@[oj].inode);
                        }
                    }
                }
                assert(b.par().dom().contains(c));
            }
            assert forall|q: u64, j: int, k: int|
                b.kids().dom().contains(q) && 0 <= j < k < b.kids()[q]@.len() implies (
            #[trigger] b.kids()[q]@[j].inode) != (#[trigger] b.kids()[q]@[k].inode) by {
                assert(a.kids().dom().contains(q) && !vict.contains(q));
                if q != p0 {
                    assert(b.kids()[q] == kids0[q]);
                    assert(b.kids()[q]@[j] == kids0[q]@[j]);
                    assert(b.kids()[q]@[k] == kids0[q]@[k]);
                } else {
                    let l0 = plist0;
                    let oj: int = if j < found {
                        j
                    } else {
                        j + 1
                    };
                    let ok: int = if k < found {
                        k
                    } else {
                        k + 1
                    };
                    assert(b.kids()[p0]@[j] == l0[oj]);
                    assert(b.kids()[p0]@[k] == l0[ok]);
                    assert(kids0[p0]@ == l0);
                    assert(kids0[p0]@[oj].inode != kids0[p0]@[ok].inode);
                }
            }
            assert forall|i: u64| #[trigger] b.reg().dom().contains(i) implies (spec_is_static(i)
                ==> i < b.inode_alloc.spec_next_static()) && (!spec_is_static(i) ==> i
                < b.inode_alloc.spec_next_dyn()) by {
                assert(a.reg().dom().contains(i));
            }
            assert forall|o: u64| #[trigger] b.dyns().dom().contains(o) implies b.reg(
            ).dom().contains(o) by {
                assert(a.dyns().dom().contains(o));
                assert(a.reg().dom().contains(o));
            }
            assert forall|o: u64, j: int, m: int|
                b.dyns().dom().contains(o) && 0 <= j < b.dyns()[o]@.len() && 0 <= m
                    < b.dyns()[o]@[j].1.inodes@.len() implies {
                let pr = #[trigger] b.dyns()[o]@[j].1.inodes@[m];
                &&& b.reg().dom().contains(pr.0)
                &&& b.par().dom().contains(pr.0)
                &&& b.par()[pr.0] == pr.1
                &&& !spec_is_static(pr.0)
            } by {
                let pr = b.dyns()[o]@[j].1.inodes@[m];
                let olds = dyns0[o]@[j].1.inodes@;
                let pred = keep_pair(reg0, par0, stale);
                assert(b.dyns()[o]@[j].1.inodes@ == olds.filter(pred));
                lemma_filter_sub(olds, pred);
                assert(pred(pr) && olds.contains(pr));
                assert(!vict.contains(pr.0));
                let m0 = choose|m0: int| 0 <= m0 < olds.len() && olds[m0] == pr;
                assert(a.dyns().dom().contains(o));
                assert(a.dyns()[o]@[j].1.inodes@[m0] == pr);
            }
            assert forall|o: u64| #[trigger] b.phs().dom().contains(o) implies b.reg(
            ).dom().contains(o) by {
                assert(a.phs().dom().contains(o));
                assert(a.reg().dom().contains(o));
            }
            assert(b.inv());
        }
    }
}

/// The first `i` elements of `s`, as a set.
pub open spec fn seq_pref_set(s: Seq<u64>, i: int) -> Set<u64> {
    Set::new(|k: u64| exists|j: int| 0 <= j < i && j < s.len() && s[j] == k)
}

proof fn lemma_pref_set_step(s: Seq<u64>, i: int)
    requires
        0 <= i < s.len(),
    ensures
        seq_pref_set(s, i + 1) =~= seq_pref_set(s, i).insert(s[i]),
{
    assert forall|k: u64| seq_pref_set(s, i + 1).contains(k) == seq_pref_set(s, i).insert(
        s[i],
    ).contains(k) by {
        if seq_pref_set(s, i + 1).contains(k) {
            let j = choose|j: int| 0 <= j < i + 1 && j < s.len() && s[j] == k;
            if j < i {
                assert(seq_pref_set(s, i).contains(k));
            }
        }
        if seq_pref_set(s, i).contains(k) {
            let j = choose|j: int| 0 <= j < i && j < s.len() && s[j] == k;
            assert(seq_pref_set(s, i + 1).contains(k));
        }
        if k == s[i] {
            assert(seq_pref_set(s, i + 1).contains(k));
        }
    }
}

/// `newl` is `oldl` with every victim member filtered out of each record.
pub open spec fn purged(
    newl: Seq<(DynamicStateType, DynRecord)>,
    oldl: Seq<(DynamicStateType, DynRecord)>,
    reg0: Map<u64, Entry>,
    par0: Map<u64, u64>,
    stale: u64,
) -> bool {
    &&& newl.len() == oldl.len()
    &&& forall|j: int|
        0 <= j < newl.len() ==> (#[trigger] newl[j]).0 == oldl[j].0 && newl[j].1.time_collected
            == oldl[j].1.time_collected && newl[j].1.inodes@ == oldl[j].1.inodes@.filter(
            keep_pair(reg0, par0, stale),
        )
}


/// The context an entry contributes to walks, if any.
pub open spec fn data_of(r: Map<u64, Entry>, i: u64) -> Option<EntryAssociatedData> {
    if r.dom().contains(i) {
        match r[i] {
            Entry::File(f) => f.associated_data,
            Entry::Dir(d) => d.associated_data,
            Entry::Link(_) => None,
        }
    } else {
        None
    }
}

/// The dynamic generator an entry carries, if any.
pub open spec fn dyn_of(r: Map<u64, Entry>, i: u64) -> Option<(DynamicStateType, DynamicDirFn)> {
    if r.dom().contains(i) {
        match r[i] {
            Entry::Dir(d) => d.dynamic,
            _ => None,
        }
    } else {
        None
    }
}

/// The command state after walking from `i` up to the root, first-writer
/// wins, starting from `acc`.
pub open spec fn cs_from(
    r: Map<u64, Entry>,
    p: Map<u64, u64>,
    i: u64,
    acc: crate::command::CommandState,
) -> crate::command::CommandState
    decreases i,
{
    let acc1 = match data_of(r, i) {
        Some(d) => crate::entry::apply_to_state_spec(d, acc),
        None => acc,
    };
    if p.dom().contains(i) && p[i] < i {
        cs_from(r, p, p[i], acc1)
    } else {
        acc1
    }
}

/// The interest after walking from `i` up to the root, first-writer wins.
pub open spec fn interest_from(
    r: Map<u64, Entry>,
    p: Map<u64, u64>,
    i: u64,
    acc: crate::state::GameStateInterest,
) -> crate::state::GameStateInterest
    decreases i,
{
    let acc1 = match data_of(r, i) {
        Some(d) => crate::entry::apply_to_interest_spec(d, acc),
        None => acc,
    };
    if p.dom().contains(i) && p[i] < i {
        interest_from(r, p, p[i], acc1)
    } else {
        acc1
    }
}

/// The dynamic directories met on the walk from `i` to the root, appended
/// to `acc` in walk order (closest first).
pub open spec fn dyns_from(
    r: Map<u64, Entry>,
    p: Map<u64, u64>,
    i: u64,
    acc: Seq<(u64, DynamicStateType)>,
) -> Seq<(u64, DynamicStateType)>
    decreases i,
{
    let acc1 = match dyn_of(r, i) {
        Some((ty, _)) => acc.push((i, ty)),
        None => acc,
    };
    if p.dom().contains(i) && p[i] < i {
        dyns_from(r, p, p[i], acc1)
    } else {
        acc1
    }
}

/// A dynamic directory to regenerate: either a registered dir met on the
/// walk, or the parent of a phantom child about to be materialised.
#[derive(Clone, Copy, Debug, PartialEq, Eq, Structural)]
pub enum DynamicInode {
    Phantom(u64),
    Inode(u64),
}

/// A phantom child to materialise: where, under which name, with which
/// dynamic state, context and generator.
pub struct DynamicPhantom {
    pub parent: u64,
    pub child_name: Vec<u8>,
    pub interest: DynamicStateType,
    pub dir_associated_data: EntryAssociatedData,
    pub dyn_fn: DynamicDirFn,
}

/// Everything a lookup or listing needs fetched and generated.
pub struct DynamicInterest {
    pub inodes: Vec<(DynamicInode, DynamicStateType)>,
    pub need_fetching: Vec<DynamicStateType>,
    pub interest: crate::state::GameStateInterest,
    pub phantom: Option<DynamicPhantom>,
}

impl DynamicInterest {
    /// The interest to fetch the snapshot with.
    pub fn as_interest(&self) -> (r: crate::state::GameStateInterest)
        ensures
            r == self.interest,
    {
        self.interest
    }
}

/// The first record of `l` for `ty`, by index.
pub open spec fn find_rec(l: Seq<(DynamicStateType, DynRecord)>, ty: DynamicStateType) -> Option<
    int,
>
    decreases l.len(),
{
    if l.len() == 0 {
        None
    } else if l[0].0 == ty {
        Some(0)
    } else {
        match find_rec(l.drop_first(), ty) {
            Some(j) => Some(j + 1),
            None => None,
        }
    }
}

/// A need's effect on the interest.
pub open spec fn apply_need(
    acc: crate::state::GameStateInterest,
    ty: DynamicStateType,
) -> crate::state::GameStateInterest {
    match ty {
        DynamicStateType::EntityIds => crate::state::GameStateInterest {
            entities_by_id: true,
            ..acc
        },
        DynamicStateType::PlayerId => acc,
        DynamicStateType::Block(p) => crate::state::GameStateInterest {
            target_block: Some(p),
            ..acc
        },
    }
}

/// The needs of `l[k..]` folded onto `acc`, in order.
pub open spec fn apply_needs(
    acc: crate::state::GameStateInterest,
    l: Seq<DynamicStateType>,
    k: int,
) -> crate::state::GameStateInterest
    decreases l.len() - k,
{
    if k < 0 || k >= l.len() {
        acc
    } else {
        apply_needs(apply_need(acc, l[k]), l, k + 1)
    }
}

/// The inode a walk entry refers to.
pub open spec fn dyn_inode_of(d: DynamicInode) -> u64 {
    match d {
        DynamicInode::Phantom(i) => i,
        DynamicInode::Inode(i) => i,
    }
}

impl FilesystemStructure {
    /// Whether the generation record of `(owner, ty)` is still fresh at
    /// `now_ms`.
    pub open spec fn record_fresh(
        self,
        owner: u64,
        ty: DynamicStateType,
        now_ms: u64,
    ) -> bool {
        &&& self.dyns().dom().contains(owner)
        &&& match find_rec(self.dyns()[owner]@, ty) {
            Some(j) => {
                let t = self.dyns()[owner]@[j].1.time_collected;
                t <= now_ms && now_ms - t <= STATE_TTL_MS
            },
            None => false,
        }
    }

    /// Whether any walk entry for `ty` has no fresh record.
    pub open spec fn ty_needs_fetch(
        self,
        lst: Seq<(DynamicInode, DynamicStateType)>,
        now_ms: u64,
        ty: DynamicStateType,
    ) -> bool {
        exists|k: int|
            0 <= k < lst.len() && lst[k].1 == ty && !self.record_fresh(
                dyn_inode_of(lst[k].0),
                ty,
                now_ms,
            )
    }

    /// The per-request command context of `file`: the ancestor walk applies
    /// each entry's context, the closest ancestor winning each field.
    pub fn command_state_for_file(&self, file: u64) -> (r: crate::command::CommandState)
        requires
            self.inv(),
        ensures
            r == cs_from(
                self.reg(),
                self.par(),
                file,
                crate::command::CommandState {
                    target_entity: None,
                    target_world: None,
                    target_block: None,
                },
            ),
    {
        let mut state = crate::command::CommandState::default();
        let mut cur = file;
        loop
            invariant
                self.inv(),
                cs_from(
                    self.reg(),
                    self.par(),
                    file,
                    crate::command::CommandState {
                        target_entity: None,
                        target_world: None,
                        target_block: None,
                    },
                ) == cs_from(self.reg(), self.par(), cur, state),
            decreases cur,
        {
            match self.lookup_inode(cur) {
                Some(e) => {
                    let data = match e {
                        Entry::File(f) => f.associated_data,
                        Entry::Dir(d) => d.associated_data,
                        Entry::Link(_) => None,
                    };
                    if let Some(d) = data {
                        d.apply_to_state(&mut state);
                    }
                },
                None => {},
            }
            match self.inner.parent_registry.get(cur) {
                Some(p) => {
                    proof {
                        assert(self.par()[cur] < cur);
                    }
                    cur = *p;
                },
                None => {
                    return state;
                },
            }
        }
    }

    /// What `interest_for_inode` yields: the walk's dynamic directories
    /// (wrapped, the phantom appended when the looked-up name parses), the
    /// set of state types whose records are missing or expired, and the
    /// walk's interest extended by the fields those types require.
    pub open spec fn interest_result(
        self,
        inode: u64,
        looked_up_child: Option<Seq<u8>>,
        now_ms: u64,
        r: DynamicInterest,
    ) -> bool {
        let base = dyns_from(self.reg(), self.par(), inode, Seq::empty());
        let walk_interest = interest_from(
            self.reg(),
            self.par(),
            inode,
            crate::state::GameStateInterest {
                entities_by_id: false,
                target_world: None,
                target_block: None,
            },
        );
        let ph_case = looked_up_child is Some && self.phs().dom().contains(inode)
            && crate::entry::phantom_parse_spec(
            self.phs()[inode].parse,
            looked_up_child->Some_0,
        ) is Some;
        &&& (r.phantom is Some <==> ph_case)
        &&& (ph_case ==> {
            let pty = crate::entry::phantom_parse_spec(
                self.phs()[inode].parse,
                looked_up_child->Some_0,
            )->Some_0;
            let ph = r.phantom->Some_0;
            let phty = match pty {
                crate::entry::PhantomChildType::Block(p) => DynamicStateType::Block(p),
            };
            &&& ph.parent == inode
            &&& ph.child_name@ == looked_up_child->Some_0
            &&& ph.interest == phty
            &&& ph.dir_associated_data == crate::entry::of_phantom_spec(pty)
            &&& ph.dyn_fn == self.phs()[inode].dyn_fn
            &&& r.inodes@ == base.map_values(
                |e: (u64, DynamicStateType)| (DynamicInode::Inode(e.0), e.1),
            ).push((DynamicInode::Phantom(inode), phty))
        })
        &&& (!ph_case ==> r.inodes@ == base.map_values(
            |e: (u64, DynamicStateType)| (DynamicInode::Inode(e.0), e.1),
        ))
        &&& forall|ty: DynamicStateType|
            #[trigger] r.need_fetching@.contains(ty) <==> self.ty_needs_fetch(
                r.inodes@,
                now_ms,
                ty,
            )
        &&& forall|k1: int, k2: int|
            0 <= k1 < k2 < r.need_fetching@.len() ==> r.need_fetching@[k1]
                != r.need_fetching@[k2]
        &&& r.interest == apply_needs(walk_interest, r.need_fetching@, 0)
    }

    /// Walks the hierarchy to find dirs with dynamic interest, and produces
    /// an interest for the whole hierarchy; a looked-up child name that
    /// parses as a phantom child adds the phantom's own requirement.
    pub fn interest_for_inode(
        &self,
        inode: u64,
        looked_up_child: Option<&[u8]>,
        now_ms: u64,
    ) -> (r: DynamicInterest)
        requires
            self.inv(),
        ensures
            self.interest_result(
                inode,
                match looked_up_child {
                    Some(n) => Some(n@),
                    None => None,
                },
                now_ms,
                r,
            ),
    {
        let ghost rmap = self.reg();
        let ghost pmap = self.par();
        let mut dynamics_required: Vec<(u64, DynamicStateType)> = Vec::new();
        let mut interest = crate::state::GameStateInterest::default();
        let mut cur = inode;
        proof {
            assert(dyns_from(rmap, pmap, inode, Seq::empty()) == dyns_from(
                rmap,
                pmap,
                cur,
                dynamics_required@,
            ));
        }
        loop
            invariant_except_break
                self.inv(),
                rmap == self.reg(),
                pmap == self.par(),
                dyns_from(rmap, pmap, inode, Seq::empty()) == dyns_from(
                    rmap,
                    pmap,
                    cur,
                    dynamics_required@,
                ),
                interest_from(
                    rmap,
                    pmap,
                    inode,
                    crate::state::GameStateInterest {
                        entities_by_id: false,
                        target_world: None,
                        target_block: None,
                    },
                ) == interest_from(rmap, pmap, cur, interest),
            ensures
                dyns_from(rmap, pmap, inode, Seq::empty()) == dynamics_required@,
                interest_from(
                    rmap,
                    pmap,
                    inode,
                    crate::state::GameStateInterest {
                        entities_by_id: false,
                        target_world: None,
                        target_block: None,
                    },
                ) == interest,
            decreases cur,
        {
            match self.lookup_inode(cur) {
                Some(e) => {
                    match e {
                        Entry::Dir(d) => {
                            if let Some((ty, _f)) = d.dynamic {
                                dynamics_required.push((cur, ty));
                            }
                            if let Some(data) = d.associated_data {
                                data.apply_to_interest(&mut interest);
                            }
                        },
                        Entry::File(f) => {
                            if let Some(data) = f.associated_data {
                                data.apply_to_interest(&mut interest);
                            }
                        },
                        Entry::Link(_) => {},
                    }
                },
                None => {},
            }
            match self.inner.parent_registry.get(cur) {
                Some(p) => {
                    proof {
                        assert(self.par()[cur] < cur);
                    }
                    cur = *p;
                },
                None => {
                    break ;
                },
            }
        }
        let ghost base = dyns_from(rmap, pmap, inode, Seq::empty());
        let ghost walk_interest = interest_from(
            rmap,
            pmap,
            inode,
            crate::state::GameStateInterest {
                entities_by_id: false,
                target_world: None,
                target_block: None,
            },
        );
        // wrap the walk entries; a phantom parse may add one more
        let mut inodes: Vec<(DynamicInode, DynamicStateType)> = Vec::new();
        let mut wi: usize = 0;
        while wi < dynamics_required.len()
            invariant
                wi <= dynamics_required@.len(),
                inodes@.len() == wi,
                forall|k: int|
                    0 <= k < wi ==> (#[trigger] inodes@[k]) == (
                    DynamicInode::Inode(dynamics_required@[k].0),
                    dynamics_required@[k].1,
                    ),
            decreases dynamics_required@.len() - wi,
        {
            let (i0, ty0) = dynamics_required[wi];
            inodes.push((DynamicInode::Inode(i0), ty0));
            wi = wi + 1;
        }
        proof {
            assert(inodes@ =~= dynamics_required@.map_values(
                |e: (u64, DynamicStateType)| (DynamicInode::Inode(e.0), e.1),
            ));
        }
        let mut phantom: Option<DynamicPhantom> = None;
        if let Some(child_name) = looked_up_child {
            if let Some(cfg) = self.inner.phantom_registry.get(inode) {
                if let Some(pty) = cfg.parse.parse(child_name) {
                    let ph_interest = cfg.interest.interest(pty);
                    inodes.push((DynamicInode::Phantom(inode), ph_interest));
                    phantom = Some(
                        DynamicPhantom {
                            parent: inode,
                            child_name: vstd::slice::slice_to_vec(child_name),
                            interest: ph_interest,
                            dir_associated_data: EntryAssociatedData::of_phantom(pty),
                            dyn_fn: cfg.dyn_fn,
                        },
                    );
                }
            }
        }
        // decide which dynamic state must be fetched anew
        let mut need_fetching: Vec<DynamicStateType> = Vec::new();
        let mut ni: usize = 0;
        while ni < inodes.len()
            invariant
                self.inv(),
                ni <= inodes@.len(),
                forall|ty: DynamicStateType|
                    #[trigger] need_fetching@.contains(ty) ==> self.ty_needs_fetch(
                        inodes@,
                        now_ms,
                        ty,
                    ),
                forall|k: int|
                    0 <= k < ni && !self.record_fresh(
                        dyn_inode_of(#[trigger] inodes@[k].0),
                        inodes@[k].1,
                        now_ms,
                    ) ==> need_fetching@.contains(inodes@[k].1),
                forall|k1: int, k2: int|
                    0 <= k1 < k2 < need_fetching@.len() ==> need_fetching@[k1]
                        != need_fetching@[k2],
            decreases inodes@.len() - ni,
        {
            let (di, ty) = &inodes[ni];
            let i0: u64 = match di {
                DynamicInode::Phantom(i) => *i,
                DynamicInode::Inode(i) => *i,
            };
            let fresh = self.check_record_fresh(i0, *ty, now_ms);
            if !fresh && !dst_vec_contains(&need_fetching, *ty) {
                let ghost pre = need_fetching@;
                need_fetching.push(*ty);
                proof {
                    assert(need_fetching@ == pre.push(inodes@[ni as int].1));
                    assert(need_fetching@.contains(inodes@[ni as int].1)) by {
                        assert(need_fetching@[pre.len() as int] == inodes@[ni as int].1);
                    }
                    assert forall|ty2: DynamicStateType| #[trigger]
                        need_fetching@.contains(ty2) implies self.ty_needs_fetch(
                        inodes@,
                        now_ms,
                        ty2,
                    ) by {
                        let j = choose|j: int|
                            0 <= j < need_fetching@.len() && need_fetching@[j] == ty2;
                        if j < pre.len() {
                            assert(pre.contains(ty2)) by {
                                assert(pre[j] == ty2);
                            }
                        } else {
                            assert(ty2 == inodes@[ni as int].1);
                        }
                    }
                    assert forall|k: int|
                        0 <= k < ni + 1 && !self.record_fresh(
                            dyn_inode_of(#[trigger] inodes@[k].0),
                            inodes@[k].1,
                            now_ms,
                        ) implies need_fetching@.contains(inodes@[k].1) by {
                        if k < ni {
                            assert(pre.contains(inodes@[k].1));
                            let j = choose|j: int|
                                0 <= j < pre.len() && pre[j] == inodes@[k].1;
                            assert(need_fetching@[j] == inodes@[k].1);
                        } else {
                            assert(need_fetching@[pre.len() as int] == inodes@[k].1);
                        }
                    }
                }
            } else {
                proof {
                    if !fresh {
                        assert(need_fetching@.contains(inodes@[ni as int].1));
                    }
                }
            }
            ni = ni + 1;
        }
        proof {
            assert forall|ty: DynamicStateType|
                self.ty_needs_fetch(inodes@, now_ms, ty) implies need_fetching@.contains(ty) by {
                let k = choose|k: int|
                    0 <= k < inodes@.len() && inodes@[k].1 == ty && !self.record_fresh(
                        dyn_inode_of(inodes@[k].0),
                        ty,
                        now_ms,
                    );
            }
        }
        // apply what must be fetched to the interest
        let mut fi: usize = 0;
        while fi < need_fetching.len()
            invariant
                fi <= need_fetching@.len(),
                apply_needs(walk_interest, need_fetching@, 0) == apply_needs(
                    interest,
                    need_fetching@,
                    fi as int,
                ),
            decreases need_fetching@.len() - fi,
        {
            match need_fetching[fi] {
                DynamicStateType::EntityIds => {
                    interest.entities_by_id = true;
                },
                DynamicStateType::PlayerId => {},
                DynamicStateType::Block(p) => {
                    interest.target_block = Some(p);
                },
            }
            fi = fi + 1;
        }
        DynamicInterest { inodes, need_fetching, interest, phantom }
    }

    /// Whether a fresh generation record exists for `(owner, ty)`.
    fn check_record_fresh(&self, owner: u64, ty: DynamicStateType, now_ms: u64) -> (r: bool)
        requires
            self.inv(),
        ensures
            r == self.record_fresh(owner, ty, now_ms),
    {
        let list = match self.inner.dynamic_state.get(owner) {
            Some(l) => l,
            None => {
                return false;
            },
        };
        let mut j: usize = 0;
        proof {
            assert(list@.skip(0) =~= list@);
        }
        while j < list.len()
            invariant
                j <= list@.len(),
                self.inv(),
                self.dyns().dom().contains(owner),
                *list == self.dyns()[owner],
                find_rec(list@, ty) == match find_rec(list@.skip(j as int), ty) {
                    Some(k) => Some(k + j),
                    None => None,
                },
            decreases list@.len() - j,
        {
            proof {
                assert(list@.skip(j as int)[0] == list@[j as int]);
                assert(list@.skip(j as int).drop_first() =~= list@.skip(j + 1));
            }
            if list[j].0 == ty {
                let t = list[j].1.time_collected;
                return t <= now_ms && now_ms - t <= STATE_TTL_MS;
            }
            j = j + 1;
        }
        proof {
            assert(list@.skip(list@.len() as int) =~= Seq::<(DynamicStateType, DynRecord)>::empty());
        }
        false
    }
}

/// Whether `v` holds `x`.
fn dst_vec_contains(v: &Vec<DynamicStateType>, x: DynamicStateType) -> (r: bool)
    ensures
        r == v@.contains(x),
{
    let mut i: usize = 0;
    while i < v.len()
        invariant
            i <= v@.len(),
            forall|j: int| 0 <= j < i ==> v@[j] != x,
        decreases v@.len() - i,
    {
        if v[i] == x {
            return true;
        }
        i = i + 1;
    }
    false
}


/// Where a proposed entry hangs: under the generation root, or under the
/// inode issued for an earlier proposal of the same batch.
#[derive(Clone, Copy, Debug, PartialEq, Eq, Structural)]
pub enum ParentSlot {
    Root,
    Prev(usize),
}

/// One entry a generator proposes: its parent slot, name and content.
pub struct Proposal {
    pub slot: ParentSlot,
    pub name: Vec<u8>,
    pub entry: Entry,
}

/// A new entry the registrationer decided to create.
pub struct NewEntry {
    pub inode: u64,
    pub name: Vec<u8>,
    pub entry: Entry,
    pub parent: u64,
}

/// Whether some new entry of `s` carries the inode `i`.
pub open spec fn new_has_inode(s: Seq<NewEntry>, i: u64) -> bool {
    exists|k: int| 0 <= k < s.len() && s[k].inode == i
}

/// Collects a generation: entries to newly register, and (inode, parent)
/// pairs whose existing registration is reused because the proposed content
/// matches.
pub struct DynamicDirRegistrationer {
    new_entries: Vec<NewEntry>,
    to_retain: Vec<(u64, u64)>,
    parent: u64,
}

impl DynamicDirRegistrationer {
    pub closed spec fn news(self) -> Seq<NewEntry> {
        self.new_entries@
    }

    pub closed spec fn retains(self) -> Seq<(u64, u64)> {
        self.to_retain@
    }

    pub closed spec fn parent_spec(self) -> u64 {
        self.parent
    }

    /// Consistency with the structure: new inodes are fresh, dynamic,
    /// distinct, below the allocator's watermark, and hang under a
    /// registered inode or an earlier new one; retained pairs are
    /// registered with the recorded parent.
    pub open spec fn reg_ok(self, st: FilesystemStructure) -> bool {
        &&& forall|k: int|
            0 <= k < self.news().len() ==> {
                let ne = #[trigger] self.news()[k];
                &&& !st.reg().dom().contains(ne.inode)
                &&& !spec_is_static(ne.inode)
                &&& ne.inode < st.next_dyn()
                &&& ne.parent < ne.inode
                &&& (st.reg().dom().contains(ne.parent) || exists|j: int|
                    0 <= j < k && (#[trigger] self.news()[j]).inode == ne.parent)
            }
        &&& forall|k1: int, k2: int|
            0 <= k1 < k2 < self.news().len() ==> self.news()[k1].inode != self.news()[k2].inode
        &&& forall|k: int|
            0 <= k < self.retains().len() ==> st.reg().dom().contains(
                (#[trigger] self.retains()[k]).0,
            ) && st.par().dom().contains(self.retains()[k].0) && st.par()[self.retains()[k].0]
                == self.retains()[k].1
    }

    pub fn new(parent: u64) -> (r: Self)
        ensures
            r.news() == Seq::<NewEntry>::empty(),
            r.retains() == Seq::<(u64, u64)>::empty(),
            r.parent_spec() == parent,
    {
        let r = DynamicDirRegistrationer { new_entries: Vec::new(), to_retain: Vec::new(), parent };
        proof {
            assert(r.news() =~= Seq::<NewEntry>::empty());
            assert(r.retains() =~= Seq::<(u64, u64)>::empty());
        }
        r
    }

    /// The root of this generation.
    pub fn parent(&self) -> (r: u64)
        ensures
            r == self.parent_spec(),
    {
        self.parent
    }

    /// The collected new entries and retained pairs.
    pub fn take_entries(self) -> (r: (Vec<NewEntry>, Vec<(u64, u64)>))
        ensures
            r.0@ == self.news(),
            r.1@ == self.retains(),
    {
        (self.new_entries, self.to_retain)
    }

    /// Propose `entry` under `parent` with `name` at the generation root.
    pub fn add_root_entry(
        &mut self,
        st: &mut FilesystemStructure,
        name: Vec<u8>,
        entry: Entry,
    ) -> (r: u64)
        requires
            old(st).inv(),
            old(self).reg_ok(*old(st)),
            old(st).reg().dom().contains(old(self).parent_spec()) || new_has_inode(
                old(self).news(),
                old(self).parent_spec(),
            ),
            old(st).next_dyn() < u64::MAX,
        ensures
            final(st).inv(),
            final(self).reg_ok(*final(st)),
            final(self).parent_spec() == old(self).parent_spec(),
            final(st).reg() == old(st).reg(),
            final(st).kids() == old(st).kids(),
            final(st).par() == old(st).par(),
            final(st).dyns() == old(st).dyns(),
            final(st).phs() == old(st).phs(),
            old(st).next_dyn() <= final(st).next_dyn() <= old(st).next_dyn() + 1,
            final(st).statics_used_s() == old(st).statics_used_s(),
            old(st).reg().dom().contains(r) || new_has_inode(final(self).news(), r),
            forall|k: int|
                0 <= k < old(self).news().len() ==> final(self).news()[k] == old(self).news()[k],
            final(self).news().len() >= old(self).news().len(),
            // a content-equal hit reuses the found child's inode: nothing
            // is allocated, nothing is queued, only the retain list grows
            ({
                let hit = old(st).lookup_child_spec(old(self).parent_spec(), name@);
                (hit is Some && crate::entry::entry_eq(old(st).reg()[hit->Some_0], entry)) ==> {
                    &&& r == hit->Some_0
                    &&& *final(st) == *old(st)
                    &&& final(self).news() == old(self).news()
                    &&& final(self).retains() == old(self).retains().push((r, old(self).parent_spec()))
                }
            }),
            // a miss, or a content mismatch, draws a fresh dynamic inode and
            // queues exactly this proposal; the structure itself is untouched
            ({
                let hit = old(st).lookup_child_spec(old(self).parent_spec(), name@);
                (hit is None || !crate::entry::entry_eq(old(st).reg()[hit->Some_0], entry)) ==> {
                    &&& r == old(st).next_dyn()
                    &&& final(st).next_dyn() == old(st).next_dyn() + 1
                    &&& final(self).retains() == old(self).retains()
                    &&& final(self).news().len() == old(self).news().len() + 1
                    &&& final(self).news().last().inode == r
                    &&& final(self).news().last().name@ == name@
                    &&& final(self).news().last().entry == entry
                    &&& final(self).news().last().parent == old(self).parent_spec()
                }
            }),
    {
        let p = self.parent;
        self.add_entry(st, p, name, entry)
    }

    /// Propose `entry` under `parent` with `name`. When a child of that
    /// name with content-equal entry already exists its inode is reused and
    /// recorded as retained; else a fresh dynamic inode is drawn and the
    /// entry queued for registration.
    pub fn add_entry(
        &mut self,
        st: &mut FilesystemStructure,
        parent: u64,
        name: Vec<u8>,
        entry: Entry,
    ) -> (r: u64)
        requires
            old(st).inv(),
            old(self).reg_ok(*old(st)),
            old(st).reg().dom().contains(parent) || new_has_inode(old(self).news(), parent),
            old(st).next_dyn() < u64::MAX,
        ensures
            final(st).inv(),
            final(self).reg_ok(*final(st)),
            final(self).parent_spec() == old(self).parent_spec(),
            final(st).reg() == old(st).reg(),
            final(st).kids() == old(st).kids(),
            final(st).par() == old(st).par(),
            final(st).dyns() == old(st).dyns(),
            final(st).phs() == old(st).phs(),
            old(st).next_dyn() <= final(st).next_dyn() <= old(st).next_dyn() + 1,
            final(st).statics_used_s() == old(st).statics_used_s(),
            old(st).reg().dom().contains(r) || new_has_inode(final(self).news(), r),
            forall|k: int|
                0 <= k < old(self).news().len() ==> final(self).news()[k] == old(self).news()[k],
            final(self).news().len() >= old(self).news().len(),
            forall|k: int|
                old(self).news().len() <= k < final(self).news().len()
                    ==> (#[trigger] final(self).news()[k]).inode >= old(st).next_dyn(),
            // a reused inode keeps an entry whose content equals the proposal
            forall|k: int|
                old(self).retains().len() <= k < final(self).retains().len()
                    ==> crate::entry::entry_eq(
                    old(st).reg()[(#[trigger] final(self).retains()[k]).0],
                    entry,
                ),
            // a content-equal hit reuses the found child's inode: nothing
            // is allocated, nothing is queued, only the retain list grows
            ({
                let hit = old(st).lookup_child_spec(parent, name@);
                (hit is Some && crate::entry::entry_eq(old(st).reg()[hit->Some_0], entry)) ==> {
                    &&& r == hit->Some_0
                    &&& *final(st) == *old(st)
                    &&& final(self).news() == old(self).news()
                    &&& final(self).retains() == old(self).retains().push((r, parent))
                }
            }),
            // a miss, or a content mismatch, draws a fresh dynamic inode and
            // queues exactly this proposal; the structure itself is untouched
            ({
                let hit = old(st).lookup_child_spec(parent, name@);
                (hit is None || !crate::entry::entry_eq(old(st).reg()[hit->Some_0], entry)) ==> {
                    &&& r == old(st).next_dyn()
                    &&& final(st).next_dyn() == old(st).next_dyn() + 1
                    &&& final(self).retains() == old(self).retains()
                    &&& final(self).news().len() == old(self).news().len() + 1
                    &&& final(self).news().last().inode == r
                    &&& final(self).news().last().name@ == name@
                    &&& final(self).news().last().entry == entry
                    &&& final(self).news().last().parent == parent
                }
            }),
    {
        let hit: Option<u64> = match st.lookup_child(parent, name.as_slice()) {
            Some((prev_inode, prev_entry)) => {
                if prev_entry.content_eq(&entry) {
                    Some(prev_inode)
                } else {
                    None
                }
            },
            None => None,
        };
        match hit {
            Some(prev_inode) => {
                let ghost pre = self.to_retain@;
                self.to_retain.push((prev_inode, parent));
                proof {
                    assert(self.retains() == pre.push((prev_inode, parent)));
                }
                prev_inode
            },
            None => {
                let inode = st.inner.inode_alloc.allocate();
                proof {
                    StructureInner::lemma_inv_alloc_grow(old(st).inner, st.inner);
                    assert(parent < inode) by {
                        if old(st).reg().dom().contains(parent) {
                            assert(spec_is_static(parent) ==> parent < STATIC_MAX);
                        } else {
                            let j = choose|j: int|
                                0 <= j < old(self).news().len() && (#[trigger] old(
                                    self,
                                ).news()[j]).inode == parent;
                        }
                    }
                }
                let ghost pre = self.new_entries@;
                self.new_entries.push(NewEntry { inode, name, entry, parent });
                proof {
                    assert(self.news() == pre.push(self.news().last()));
                    assert(self.news().last().inode == inode);
                    assert(self.news().last().parent == parent);
                    assert forall|k: int| 0 <= k < self.news().len() implies {
                        let ne = #[trigger] self.news()[k];
                        &&& !st.reg().dom().contains(ne.inode)
                        &&& !spec_is_static(ne.inode)
                        &&& ne.inode < st.next_dyn()
                        &&& ne.parent < ne.inode
                        &&& (st.reg().dom().contains(ne.parent) || exists|j: int|
                            0 <= j < k && (#[trigger] self.news()[j]).inode == ne.parent)
                    } by {
                        if k < pre.len() {
                            assert(self.news()[k] == pre[k]);
                            assert(old(self).news()[k] == pre[k]);
                            if !st.reg().dom().contains(pre[k].parent) {
                                let j = choose|j: int|
                                    0 <= j < k && (#[trigger] old(self).news()[j]).inode
                                        == pre[k].parent;
                                assert(self.news()[j].inode == pre[k].parent);
                            }
                        } else {
                            if !st.reg().dom().contains(parent) {
                                let j = choose|j: int|
                                    0 <= j < old(self).news().len() && (#[trigger] old(
                                        self,
                                    ).news()[j]).inode == parent;
                                assert(self.news()[j].inode == parent);
                            }
                        }
                    }
                    assert(new_has_inode(self.news(), inode)) by {
                        assert(self.news()[pre.len() as int].inode == inode);
                    }
                }
                inode
            },
        }
    }
}

impl FilesystemStructure {
    /// The allocator's dynamic watermark.
    pub closed spec fn next_dyn(self) -> u64 {
        self.inner.inode_alloc.spec_next_dyn()
    }

    /// The allocator's static watermark.
    pub closed spec fn statics_used_s(self) -> u64 {
        self.inner.inode_alloc.spec_next_static()
    }
}


/// The record stored for `ty`, by first match.
pub open spec fn rec_view(l: Seq<(DynamicStateType, DynRecord)>, ty: DynamicStateType) -> Option<
    DynRecord,
> {
    match find_rec(l, ty) {
        Some(j) => Some(l[j].1),
        None => None,
    }
}

proof fn lemma_find_rec_props(l: Seq<(DynamicStateType, DynRecord)>, ty: DynamicStateType)
    ensures
        match find_rec(l, ty) {
            Some(j) => 0 <= j < l.len() && l[j].0 == ty,
            None => forall|k: int| 0 <= k < l.len() ==> l[k].0 != ty,
        },
    decreases l.len(),
{
    if l.len() > 0 && l[0].0 != ty {
        lemma_find_rec_props(l.drop_first(), ty);
        match find_rec(l.drop_first(), ty) {
            Some(j) => {
                assert(l.drop_first()[j] == l[j + 1]);
            },
            None => {
                assert forall|k: int| 0 <= k < l.len() implies l[k].0 != ty by {
                    if k > 0 {
                        assert(l.drop_first()[k - 1] == l[k]);
                    }
                }
            },
        }
    }
}

/// `find_rec` looks only at the type tags.
proof fn lemma_find_rec_same_tys(
    l1: Seq<(DynamicStateType, DynRecord)>,
    l2: Seq<(DynamicStateType, DynRecord)>,
    ty: DynamicStateType,
)
    requires
        l1.len() == l2.len(),
        forall|j: int| 0 <= j < l1.len() ==> (#[trigger] l1[j]).0 == l2[j].0,
    ensures
        find_rec(l1, ty) == find_rec(l2, ty),
    decreases l1.len(),
{
    if l1.len() > 0 {
        assert(l1[0].0 == l2[0].0);
        assert forall|j: int| 0 <= j < l1.drop_first().len() implies (#[trigger] l1.drop_first()[j]).0
            == l2.drop_first()[j].0 by {
            assert(l1.drop_first()[j] == l1[j + 1]);
            assert(l2.drop_first()[j] == l2[j + 1]);
        }
        lemma_find_rec_same_tys(l1.drop_first(), l2.drop_first(), ty);
    }
}

impl FilesystemStructure {
    /// Store `rec` as the generation record of `(owner, ty)`, returning the
    /// record it replaces, if any.
    fn set_record(&mut self, owner: u64, ty: DynamicStateType, rec: DynRecord) -> (r: Option<
        DynRecord,
    >)
        requires
            old(self).inv(),
            old(self).reg().dom().contains(owner),
            forall|m: int|
                0 <= m < rec.inodes@.len() ==> {
                    let pr = #[trigger] rec.inodes@[m];
                    &&& old(self).reg().dom().contains(pr.0)
                    &&& old(self).par().dom().contains(pr.0)
                    &&& old(self).par()[pr.0] == pr.1
                    &&& !spec_is_static(pr.0)
                },
        ensures
            final(self).inv(),
            final(self).reg() == old(self).reg(),
            final(self).kids() == old(self).kids(),
            final(self).par() == old(self).par(),
            final(self).phs() == old(self).phs(),
            final(self).next_dyn() == old(self).next_dyn(),
            final(self).statics_used_s() == old(self).statics_used_s(),
            final(self).dyns().dom() == old(self).dyns().dom().insert(owner),
            forall|o: u64|
                o != owner && #[trigger] final(self).dyns().dom().contains(o) ==> old(
                    self,
                ).dyns().dom().contains(o) && final(self).dyns()[o] == old(self).dyns()[o],
            rec_view(final(self).dyns()[owner]@, ty) == Some(rec),
            r == (if old(self).dyns().dom().contains(owner) {
                rec_view(old(self).dyns()[owner]@, ty)
            } else {
                Option::<DynRecord>::None
            }),
    {
        let mut list: Vec<(DynamicStateType, DynRecord)> = match self.inner.dynamic_state.take(
            owner,
        ) {
            Some(l) => l,
            None => Vec::new(),
        };
        let ghost l0 = list@;
        let ghost had = old(self).dyns().dom().contains(owner);
        proof {
            if had {
                assert(l0 == old(self).dyns()[owner]@);
            } else {
                assert(l0 =~= Seq::<(DynamicStateType, DynRecord)>::empty());
            }
        }
        // keep every record of another type, in order; remember the first
        // record of `ty`
        let mut out: Vec<(DynamicStateType, DynRecord)> = Vec::new();
        let mut prev: Option<DynRecord> = None;
        while list.len() > 0
            invariant
                list@.len() <= l0.len(),
                list@ == l0.skip(l0.len() - list@.len()),
                forall|j: int| 0 <= j < out@.len() ==> (#[trigger] out@[j]).0 != ty,
                rec_view(l0, ty) == (match prev {
                    Some(p) => Some(p),
                    None => rec_view(list@, ty),
                }),
                find_rec(out@, ty) is None,
                forall|j: int|
                    0 <= j < out@.len() ==> exists|j0: int|
                        0 <= j0 < l0.len() && l0[j0] == #[trigger] out@[j],
                forall|ty2: DynamicStateType|
                    ty2 != ty ==> #[trigger] rec_view(l0, ty2) == (match find_rec(out@, ty2) {
                        Some(j) => Some(out@[j].1),
                        None => rec_view(list@, ty2),
                    }),
            decreases list@.len(),
        {
            let ghost listpre = list@;
            let ghost outpre = out@;
            let ghost off = l0.len() - listpre.len();
            let (t0, r0) = list.remove(0);
            proof {
                assert(listpre[0] == (t0, r0));
                assert(list@ =~= listpre.drop_first());
                assert(list@ =~= l0.skip(off + 1)) by {
                    assert forall|i: int| 0 <= i < list@.len() implies list@[i] == l0.skip(
                        off + 1,
                    )[i] by {
                        assert(list@[i] == listpre[i + 1]);
                        assert(listpre[i + 1] == l0.skip(off)[i + 1]);
                    }
                }
            }
            if t0 == ty {
                if prev.is_none() {
                    prev = Some(r0);
                }
                proof {
                    assert(find_rec(listpre, ty) == Some(0int));
                    assert(rec_view(listpre, ty) == Some(r0));
                    assert forall|ty2: DynamicStateType| ty2 != ty implies #[trigger] rec_view(
                        l0,
                        ty2,
                    ) == (match find_rec(out@, ty2) {
                        Some(j) => Some(out@[j].1),
                        None => rec_view(list@, ty2),
                    }) by {
                        lemma_rec_view_step(listpre, ty2);
                    }
                }
            } else {
                out.push((t0, r0));
                proof {
                    assert(out@ == outpre.push((t0, r0)));
                    assert(l0[l0.len() - listpre.len()] == (t0, r0));
                    assert forall|j: int| 0 <= j < out@.len() implies exists|j0: int|
                        0 <= j0 < l0.len() && l0[j0] == #[trigger] out@[j] by {
                        if j < outpre.len() {
                            assert(out@[j] == outpre[j]);
                        } else {
                            assert(out@[j] == (t0, r0));
                            assert(l0[l0.len() - listpre.len()] == out@[j]);
                        }
                    }
                    lemma_find_rec_push_none(outpre, ty, (t0, r0));
                    assert forall|ty2: DynamicStateType| ty2 != ty implies #[trigger] rec_view(
                        l0,
                        ty2,
                    ) == (match find_rec(out@, ty2) {
                        Some(j) => Some(out@[j].1),
                        None => rec_view(list@, ty2),
                    }) by {
                        lemma_find_rec_push(outpre, ty2, (t0, r0));
                        if find_rec(outpre, ty2) is Some {
                            let j = find_rec(outpre, ty2)->Some_0;
                            lemma_find_rec_props(outpre, ty2);
                            assert(out@[j] == outpre[j]);
                        } else if ty2 == t0 {
                            assert(find_rec(listpre, ty2) == Some(0int));
                            assert(find_rec(out@, ty2) == Some(outpre.len() as int));
                            assert(out@[outpre.len() as int].1 == r0);
                        } else {
                            lemma_rec_view_step(listpre, ty2);
                        }
                    }
                    assert(rec_view(l0, ty) == (match prev {
                        Some(p) => Some(p),
                        None => rec_view(list@, ty),
                    })) by {
                        lemma_rec_view_step(listpre, ty);
                    }
                }
            }
        }
        let ghost outdone = out@;
        out.push((ty, rec));
        self.inner.dynamic_state.insert(owner, out);
        proof {
            assert(list@.len() == 0);
            assert(rec_view(list@, ty) is None) by {
                assert(find_rec(list@, ty) is None);
            }
            lemma_find_rec_push_find(outdone, ty, rec);
            assert(self.dyns()[owner]@ == outdone.push((ty, rec)));
            assert(rec_view(self.dyns()[owner]@, ty) == Some(rec));
            assert(self.dyns().dom() =~= old(self).dyns().dom().insert(owner));
            // the invariant: members of the new list are valid
            let sf = self.inner;
            let so = old(self).inner;
            assert forall|o: u64, j: int, m: int|
                sf.dyns().dom().contains(o) && 0 <= j < sf.dyns()[o]@.len() && 0 <= m
                    < sf.dyns()[o]@[j].1.inodes@.len() implies {
                let pr = #[trigger] sf.dyns()[o]@[j].1.inodes@[m];
                &&& sf.reg().dom().contains(pr.0)
                &&& sf.par().dom().contains(pr.0)
                &&& sf.par()[pr.0] == pr.1
                &&& !spec_is_static(pr.0)
            } by {
                if o == owner {
                    let nl = sf.dyns()[owner]@;
                    if j < nl.len() - 1 {
                        assert(nl[j] == outdone[j]);
                        let j0 = choose|j0: int| 0 <= j0 < l0.len() && l0[j0] == outdone[j];
                        if had {
                            assert(so.dyns()[owner]@[j0].1.inodes@[m]
                                == nl[j].1.inodes@[m]);
                        }
                    } else {
                        assert(nl[j].1 == rec);
                    }
                } else {
                    assert(so.dyns().dom().contains(o));
                    assert(so.dyns()[o]@[j].1.inodes@[m] == sf.dyns()[o]@[j].1.inodes@[m]);
                }
            }
            assert forall|o: u64| #[trigger] sf.dyns().dom().contains(o) implies sf.reg(
            ).dom().contains(o) by {
                if o != owner {
                    assert(so.dyns().dom().contains(o));
                }
            }
            StructureInner::lemma_inv_dyns_only(so, sf);
        }
        prev
    }
}

/// Dropping a head of another type keeps the record of `ty2`.
proof fn lemma_rec_view_step(l: Seq<(DynamicStateType, DynRecord)>, ty2: DynamicStateType)
    requires
        l.len() > 0,
        l[0].0 != ty2,
    ensures
        rec_view(l, ty2) == rec_view(l.drop_first(), ty2),
{
    lemma_find_rec_props(l.drop_first(), ty2);
    match find_rec(l.drop_first(), ty2) {
        Some(j) => {
            assert(find_rec(l, ty2) == Some(j + 1));
            assert(l[j + 1] == l.drop_first()[j]);
        },
        None => {
            assert(find_rec(l, ty2) is None);
        },
    }
}

/// Pushing onto a sequence without `ty` keeps `find_rec(-, ty)` pointing
/// nowhere unless the pushed record carries `ty`.
proof fn lemma_find_rec_push_none(
    l: Seq<(DynamicStateType, DynRecord)>,
    ty: DynamicStateType,
    e: (DynamicStateType, DynRecord),
)
    requires
        find_rec(l, ty) is None,
        e.0 != ty,
    ensures
        find_rec(l.push(e), ty) is None,
    decreases l.len(),
{
    if l.len() == 0 {
        assert(l.push(e)[0] == e);
        assert(l.push(e).drop_first() =~= Seq::<(DynamicStateType, DynRecord)>::empty());
        assert(find_rec(l.push(e).drop_first(), ty) is None);
    } else {
        assert(l.push(e)[0] == l[0]);
        assert(l.push(e).drop_first() =~= l.drop_first().push(e));
        lemma_find_rec_push_none(l.drop_first(), ty, e);
    }
}

/// `find_rec` on a pushed sequence: the old result wins; else only the new
/// element can match.
proof fn lemma_find_rec_push(
    l: Seq<(DynamicStateType, DynRecord)>,
    ty: DynamicStateType,
    e: (DynamicStateType, DynRecord),
)
    ensures
        find_rec(l, ty) is Some ==> find_rec(l.push(e), ty) == find_rec(l, ty),
        find_rec(l, ty) is None && e.0 == ty ==> find_rec(l.push(e), ty) == Some(l.len() as int),
        find_rec(l, ty) is None && e.0 != ty ==> find_rec(l.push(e), ty) is None,
    decreases l.len(),
{
    if l.len() == 0 {
        assert(l.push(e)[0] == e);
        assert(l.push(e).drop_first() =~= Seq::<(DynamicStateType, DynRecord)>::empty());
        assert(find_rec(l.push(e).drop_first(), ty) is None);
    } else {
        assert(l.push(e)[0] == l[0]);
        assert(l.push(e).drop_first() =~= l.drop_first().push(e));
        lemma_find_rec_push(l.drop_first(), ty, e);
    }
}

/// Pushing `(ty, rec)` onto a sequence without `ty` makes `rec` the record
/// of `ty`.
proof fn lemma_find_rec_push_find(
    l: Seq<(DynamicStateType, DynRecord)>,
    ty: DynamicStateType,
    rec: DynRecord,
)
    requires
        find_rec(l, ty) is None,
    ensures
        find_rec(l.push((ty, rec)), ty) == Some(l.len() as int),
        l.push((ty, rec))[l.len() as int].1 == rec,
    decreases l.len(),
{
    lemma_find_rec_push(l, ty, (ty, rec));
}


/// Whether `v` holds the pair `(a, b)`.
fn pair_vec_contains(v: &Vec<(u64, u64)>, a: u64, b: u64) -> (r: bool)
    ensures
        r == v@.contains((a, b)),
{
    let mut i: usize = 0;
    while i < v.len()
        invariant
            i <= v@.len(),
            forall|j: int| 0 <= j < i ==> v@[j] != (a, b),
        decreases v@.len() - i,
    {
        if v[i].0 == a && v[i].1 == b {
            proof {
                assert(v@[i as int] == (a, b));
            }
            return true;
        }
        i = i + 1;
    }
    false
}

impl FilesystemStructure {
    /// Run the collected proposals through the registrationer, reusing
    /// content-equal existing children and drawing fresh inodes otherwise.
    fn apply_proposals(
        &mut self,
        regr: &mut DynamicDirRegistrationer,
        props: Vec<Proposal>,
    )
        requires
            old(self).inv(),
            old(regr).reg_ok(*old(self)),
            old(self).reg().dom().contains(old(regr).parent_spec()) || new_has_inode(
                old(regr).news(),
                old(regr).parent_spec(),
            ),
            crate::structure::slots_ok(props@),
            old(self).next_dyn() as int + props@.len() <= u64::MAX as int,
        ensures
            final(self).inv(),
            final(regr).reg_ok(*final(self)),
            final(regr).parent_spec() == old(regr).parent_spec(),
            final(self).reg() == old(self).reg(),
            final(self).kids() == old(self).kids(),
            final(self).par() == old(self).par(),
            final(self).dyns() == old(self).dyns(),
            final(self).phs() == old(self).phs(),
            final(self).statics_used_s() == old(self).statics_used_s(),
            old(self).next_dyn() <= final(self).next_dyn(),
            final(self).next_dyn() as int <= old(self).next_dyn() as int + props@.len(),
            old(self).reg().dom().contains(final(regr).parent_spec()) || new_has_inode(
                final(regr).news(),
                final(regr).parent_spec(),
            ),
            forall|k: int|
                old(regr).news().len() <= k < final(regr).news().len()
                    ==> (#[trigger] final(regr).news()[k]).inode >= old(self).next_dyn(),
    {
        let ghost props0 = props@;
        let ghost reg0map = old(self).reg();
        let mut props = props;
        let mut issued: Vec<u64> = Vec::new();
        proof {
            assert(props@ =~= props0.skip(0));
        }
        while props.len() > 0
            invariant
                self.inv(),
                regr.reg_ok(*self),
                regr.parent_spec() == old(regr).parent_spec(),
                self.reg() == reg0map,
                self.reg() == old(self).reg(),
                self.kids() == old(self).kids(),
                self.par() == old(self).par(),
                self.dyns() == old(self).dyns(),
                self.phs() == old(self).phs(),
                self.statics_used_s() == old(self).statics_used_s(),
                old(self).next_dyn() <= self.next_dyn(),
                self.next_dyn() as int + props@.len() <= u64::MAX as int,
                self.next_dyn() as int <= old(self).next_dyn() as int + issued@.len(),
                issued@.len() + props@.len() == props0.len(),
                props@ == props0.skip(issued@.len() as int),
                crate::structure::slots_ok(props0),
                self.reg().dom().contains(regr.parent_spec()) || new_has_inode(
                    regr.news(),
                    regr.parent_spec(),
                ),
                forall|j: int|
                    0 <= j < issued@.len() ==> self.reg().dom().contains(#[trigger] issued@[j])
                        || new_has_inode(regr.news(), issued@[j]),
                old(regr).news().len() <= regr.news().len(),
                forall|k: int|
                    old(regr).news().len() <= k < regr.news().len() ==> (#[trigger] regr.news()[k]).inode
                        >= old(self).next_dyn(),
            decreases props@.len(),
        {
            let ghost done = issued@.len() as int;
            let ghost newspre = regr.news();
            let p = props.remove(0);
            proof {
                assert(props0.skip(done)[0] == props0[done]);
                assert(props@ =~= props0.skip(done + 1)) by {
                    assert forall|i: int| 0 <= i < props@.len() implies props@[i] == props0.skip(
                        done + 1,
                    )[i] by {
                        assert(props@[i] == props0.skip(done)[i + 1]);
                    }
                }
                assert(p == props0[done]);
            }
            let par: u64 = match p.slot {
                ParentSlot::Root => regr.parent(),
                ParentSlot::Prev(j) => {
                    proof {
                        assert(match props0[done].slot {
                            ParentSlot::Prev(j2) => j2 < done,
                            ParentSlot::Root => true,
                        });
                    }
                    issued[j]
                },
            };
            let ino = regr.add_entry(self, par, p.name, p.entry);
            issued.push(ino);
            proof {
                assert forall|j: int|
                    0 <= j < issued@.len() implies self.reg().dom().contains(
                    #[trigger] issued@[j],
                ) || new_has_inode(regr.news(), issued@[j]) by {
                    if j < done {
                        if !self.reg().dom().contains(issued@[j]) {
                            let k = choose|k: int|
                                0 <= k < newspre.len() && newspre[k].inode == issued@[j];
                            assert(regr.news()[k] == newspre[k]);
                            assert(new_has_inode(regr.news(), issued@[j]));
                        }
                    } else {
                        assert(issued@[j] == ino);
                    }
                }
                if !self.reg().dom().contains(regr.parent_spec()) {
                    let k = choose|k: int|
                        0 <= k < newspre.len() && newspre[k].inode == regr.parent_spec();
                    assert(regr.news()[k] == newspre[k]);
                }
            }
        }
    }

    /// Register a batch of new entries, parents before children.
    #[verifier::rlimit(100)]
    fn register_batch(&mut self, new_entries: Vec<NewEntry>)
        requires
            old(self).inv(),
            forall|k: int|
                0 <= k < new_entries@.len() ==> {
                    let ne = #[trigger] new_entries@[k];
                    &&& !old(self).reg().dom().contains(ne.inode)
                    &&& !spec_is_static(ne.inode)
                    &&& ne.parent < ne.inode
                    &&& ne.inode < old(self).next_dyn()
                    &&& (old(self).reg().dom().contains(ne.parent) || exists|j: int|
                        0 <= j < k && (#[trigger] new_entries@[j]).inode == ne.parent)
                },
            forall|k1: int, k2: int|
                0 <= k1 < k2 < new_entries@.len() ==> new_entries@[k1].inode
                    != new_entries@[k2].inode,
        ensures
            final(self).inv(),
            final(self).dyns() == old(self).dyns(),
            final(self).phs() == old(self).phs(),
            final(self).statics_used_s() == old(self).statics_used_s(),
            final(self).next_dyn() == old(self).next_dyn(),
            forall|i: u64| #[trigger]
                old(self).reg().dom().contains(i) ==> final(self).reg().dom().contains(i)
                    && final(self).reg()[i] == old(self).reg()[i],
            forall|k: int|
                0 <= k < new_entries@.len() ==> final(self).reg().dom().contains(
                    (#[trigger] new_entries@[k]).inode,
                ) && final(self).reg()[new_entries@[k].inode] == new_entries@[k].entry
                    && final(self).par().dom().contains(new_entries@[k].inode)
                    && final(self).par()[new_entries@[k].inode] == new_entries@[k].parent,
            forall|i: u64| #[trigger]
                final(self).reg().dom().contains(i) ==> old(self).reg().dom().contains(i)
                    || exists|k: int|
                    0 <= k < new_entries@.len() && (#[trigger] new_entries@[k]).inode == i,
            forall|i: u64| #[trigger]
                old(self).par().dom().contains(i) ==> final(self).par().dom().contains(i)
                    && final(self).par()[i] == old(self).par()[i],
    {
        let ghost news0 = new_entries@;
        let ghost r1 = old(self).reg();
        let ghost p1 = old(self).par();
        let mut new_entries = new_entries;
        proof {
            assert(new_entries@ =~= news0.skip(0));
        }
        while new_entries.len() > 0
            invariant
                self.inv(),
                new_entries@ == news0.skip(news0.len() - new_entries@.len()),
                new_entries@.len() <= news0.len(),
                self.dyns() == old(self).dyns(),
                self.phs() == old(self).phs(),
                self.statics_used_s() == old(self).statics_used_s(),
                self.next_dyn() == old(self).next_dyn(),
                forall|k: int|
                    0 <= k < news0.len() ==> {
                        let ne = #[trigger] news0[k];
                        &&& !r1.dom().contains(ne.inode)
                        &&& !spec_is_static(ne.inode)
                        &&& ne.parent < ne.inode
                        &&& ne.inode < self.next_dyn()
                        &&& (r1.dom().contains(ne.parent) || exists|j: int|
                            0 <= j < k && (#[trigger] news0[j]).inode == ne.parent)
                    },
                forall|k1: int, k2: int|
                    0 <= k1 < k2 < news0.len() ==> news0[k1].inode != news0[k2].inode,
                forall|i: u64| #[trigger]
                    r1.dom().contains(i) ==> self.reg().dom().contains(i) && self.reg()[i]
                        == r1[i],
                forall|k: int|
                    0 <= k < news0.len() - new_entries@.len() ==> self.reg().dom().contains(
                        (#[trigger] news0[k]).inode,
                    ) && self.reg()[news0[k].inode] == news0[k].entry && self.par().dom().contains(
                        news0[k].inode,
                    ) && self.par()[news0[k].inode] == news0[k].parent,
                forall|i: u64| #[trigger]
                    self.reg().dom().contains(i) ==> r1.dom().contains(i) || exists|k: int|
                        0 <= k < news0.len() - new_entries@.len() && (#[trigger] news0[k]).inode
                            == i,
                forall|i: u64| #[trigger]
                    p1.dom().contains(i) ==> self.par().dom().contains(i) && self.par()[i] == p1[i],
            decreases new_entries@.len(),
        {
            let ghost done = news0.len() - new_entries@.len();
            let ghost listpre = new_entries@;
            let ne = new_entries.remove(0);
            proof {
                assert(listpre[0] == ne);
                assert(news0[done as int] == ne);
                assert(new_entries@ =~= news0.skip(done + 1)) by {
                    assert forall|i: int| 0 <= i < new_entries@.len() implies new_entries@[i]
                        == news0.skip(done + 1)[i] by {
                        assert(new_entries@[i] == listpre[i + 1]);
                        assert(listpre[i + 1] == news0.skip(done as int)[i + 1]);
                    }
                }
                assert(!self.reg().dom().contains(ne.inode)) by {
                    if self.reg().dom().contains(ne.inode) {
                        if !r1.dom().contains(ne.inode) {
                            let k = choose|k: int|
                                0 <= k < done && (#[trigger] news0[k]).inode == ne.inode;
                        }
                    }
                }
                assert(self.reg().dom().contains(ne.parent)) by {
                    if !r1.dom().contains(ne.parent) {
                        let j = choose|j: int|
                            0 <= j < done && (#[trigger] news0[j]).inode == ne.parent;
                    }
                }
            }
            self.inner.register(ne.inode, ne.entry, ne.parent, ne.name);
            proof {
                assert forall|k: int|
                    0 <= k < done + 1 implies self.reg().dom().contains(
                    (#[trigger] news0[k]).inode,
                ) && self.reg()[news0[k].inode] == news0[k].entry && self.par().dom().contains(
                    news0[k].inode,
                ) && self.par()[news0[k].inode] == news0[k].parent by {
                    if k < done {
                        assert(news0[k].inode != ne.inode);
                    }
                }
            }
        }
        proof {
            assert(news0.len() - new_entries@.len() == news0.len());
        }
    }

    /// Whether no kept inode lies in the subtree rooted at `c`.
    fn none_kept_under(&self, keep: &Vec<u64>, c: u64) -> (r: bool)
        requires
            self.inv(),
        ensures
            r == (forall|j: int|
                0 <= j < keep@.len() ==> !reaches(self.par(), #[trigger] keep@[j], c)),
    {
        let mut j: usize = 0;
        while j < keep.len()
            invariant
                j <= keep@.len(),
                self.inv(),
                forall|k: int| 0 <= k < j ==> !reaches(self.par(), #[trigger] keep@[k], c),
            decreases keep@.len() - j,
        {
            if self.is_descendant(keep[j], c) {
                return false;
            }
            j = j + 1;
        }
        true
    }

    /// Unregister each stale inode that is still registered, is dynamic, is
    /// not an ancestor of the generation root, and has no kept inode in its
    /// subtree: a retained or new inode never loses its registration.
    #[verifier::rlimit(100)]
    fn purge_stale(
        &mut self,
        stale: Vec<u64>,
        keep: &Vec<u64>,
        parent: u64,
        interest: DynamicStateType,
        now_ms: u64,
    )
        requires
            old(self).inv(),
            old(self).reg().dom().contains(parent),
            old(self).dyns().dom().contains(parent),
            forall|j: int| 0 <= j < keep@.len() ==> old(self).reg().dom().contains(
                #[trigger] keep@[j],
            ),
            ({
                let rv = rec_view(old(self).dyns()[parent]@, interest);
                rv is Some && rv->Some_0.time_collected == now_ms
            }),
        ensures
            final(self).inv(),
            final(self).statics_used_s() == old(self).statics_used_s(),
            final(self).next_dyn() == old(self).next_dyn(),
            final(self).reg().dom().contains(parent),
            final(self).dyns().dom().contains(parent),
            ({
                let rv = rec_view(final(self).dyns()[parent]@, interest);
                rv is Some && rv->Some_0.time_collected == now_ms
            }),
            forall|i: u64|
                spec_is_static(i) ==> (final(self).reg().dom().contains(i) <==> old(
                    self,
                ).reg().dom().contains(i)),
            forall|i: u64| #[trigger]
                final(self).reg().dom().contains(i) ==> old(self).reg().dom().contains(i)
                    && final(self).reg()[i] == old(self).reg()[i],
            forall|j: int| 0 <= j < keep@.len() ==> final(self).reg().dom().contains(
                #[trigger] keep@[j],
            ),
    {
        let ghost reg_mid = old(self).reg();
        let mut ui: usize = 0;
        while ui < stale.len()
            invariant
                ui <= stale@.len(),
                self.inv(),
                self.statics_used_s() == old(self).statics_used_s(),
                self.next_dyn() == old(self).next_dyn(),
                self.reg().dom().contains(parent),
                self.dyns().dom().contains(parent),
                ({
                    let rv = rec_view(self.dyns()[parent]@, interest);
                    rv is Some && rv->Some_0.time_collected == now_ms
                }),
                forall|i: u64|
                    spec_is_static(i) ==> (self.reg().dom().contains(i) <==> reg_mid.dom().contains(
                        i,
                    )),
                forall|i: u64|
                    #[trigger] self.reg().dom().contains(i) ==> reg_mid.dom().contains(i)
                        && self.reg()[i] == reg_mid[i],
                forall|j: int| 0 <= j < keep@.len() ==> self.reg().dom().contains(
                    #[trigger] keep@[j],
                ),
            decreases stale@.len() - ui,
        {
            let c = stale[ui];
            let c_registered = self.inner.registry.contains_key(c);
            if c_registered && !crate::inode::is_inode_static(c) && c != 1 && !self.is_descendant(
                parent,
                c,
            ) && self.none_kept_under(keep, c) {
                let ghost pre = *self;
                let ghost vict = victim_set(pre.reg(), pre.par(), c);
                self.unregister(c);
                proof {
                    assert forall|i: u64| spec_is_static(i) implies !vict.contains(i) by {
                        if vict.contains(i) {
                            lemma_reaches_ge(pre.par(), i, c);
                        }
                    }
                    assert(!vict.contains(parent));
                    assert(self.dyns().dom().contains(parent));
                    let oldl = pre.dyns()[parent]@;
                    let newl = self.dyns()[parent]@;
                    assert(newl.len() == oldl.len());
                    lemma_find_rec_same_tys(newl, oldl, interest);
                    lemma_find_rec_props(oldl, interest);
                    let j = find_rec(oldl, interest)->Some_0;
                    assert(newl[j].1.time_collected == oldl[j].1.time_collected);
                    assert forall|j2: int| 0 <= j2 < keep@.len() implies self.reg().dom().contains(
                        #[trigger] keep@[j2],
                    ) by {
                        assert(!reaches(pre.par(), keep@[j2], c));
                        assert(!vict.contains(keep@[j2]));
                    }
                }
            }
            ui = ui + 1;
        }
    }

    /// Regenerate the children of the dynamic directory `parent` from a
    /// snapshot: propose entries, keep content-equal ones, register the new
    /// ones, refresh the generation record, and recursively unregister what
    /// went stale. Static entries are never touched, and no surviving
    /// entry's content changes. The ghost result is the retained pairs:
    /// each was reused only for a content-equal proposal, and each keeps
    /// its registration and its entry across the regeneration.
    #[verifier::rlimit(100)]
    fn register_dynamic_entries(
        &mut self,
        dyn_fn: DynamicDirFn,
        parent: u64,
        interest: DynamicStateType,
        state: &GameState,
        now_ms: u64,
    ) -> (retained: Ghost<Seq<(u64, u64)>>)
        requires
            old(self).inv(),
            old(self).reg().dom().contains(parent),
            old(self).next_dyn() as int + crate::structure::max_proposals(*state)
                <= u64::MAX as int,
        ensures
            final(self).inv(),
            forall|i: u64|
                spec_is_static(i) ==> (final(self).reg().dom().contains(i) <==> old(
                    self,
                ).reg().dom().contains(i)),
            forall|i: u64|
                spec_is_static(i) && old(self).reg().dom().contains(i) ==> final(self).reg()[i]
                    == old(self).reg()[i],
            forall|i: u64|
                old(self).reg().dom().contains(i) && #[trigger] final(self).reg().dom().contains(
                    i,
                ) ==> final(self).reg()[i] == old(self).reg()[i],
            final(self).reg().dom().contains(parent),
            final(self).dyns().dom().contains(parent),
            ({
                let rv = rec_view(final(self).dyns()[parent]@, interest);
                rv is Some && rv->Some_0.time_collected == now_ms
            }),
            final(self).statics_used_s() == old(self).statics_used_s(),
            old(self).next_dyn() <= final(self).next_dyn(),
            final(self).next_dyn() as int <= old(self).next_dyn() as int
                + crate::structure::max_proposals(*state),
            forall|i: u64| #[trigger]
                final(self).reg().dom().contains(i) ==> old(self).reg().dom().contains(i) || i
                    >= old(self).next_dyn(),
            // every retained inode was registered before and still is, with
            // its entry unchanged
            forall|k: int|
                0 <= k < retained@.len() ==> old(self).reg().dom().contains(
                    (#[trigger] retained@[k]).0,
                ) && final(self).reg().dom().contains(retained@[k].0)
                    && final(self).reg()[retained@[k].0] == old(self).reg()[retained@[k].0],
    {
        let ghost reg_in = old(self).reg();
        let props = crate::structure::generate(dyn_fn, state);
        let mut regr = DynamicDirRegistrationer::new(parent);
        self.apply_proposals(&mut regr, props);
        let (mut new_entries, to_retain) = regr.take_entries();
        let ghost news0 = new_entries@;
        let ghost retains0 = to_retain@;

        // the (inode, parent) pairs and bare inodes of the new entries
        let mut new_pairs: Vec<(u64, u64)> = Vec::new();
        let mut new_inode_list: Vec<u64> = Vec::new();
        let mut pi: usize = 0;
        while pi < new_entries.len()
            invariant
                pi <= new_entries@.len(),
                new_entries@ == news0,
                new_pairs@.len() == pi,
                new_inode_list@.len() == pi,
                forall|j: int|
                    0 <= j < pi ==> (#[trigger] new_pairs@[j]) == (news0[j].inode, news0[j].parent),
                forall|j: int| 0 <= j < pi ==> (#[trigger] new_inode_list@[j]) == news0[j].inode,
            decreases new_entries@.len() - pi,
        {
            new_pairs.push((new_entries[pi].inode, new_entries[pi].parent));
            new_inode_list.push(new_entries[pi].inode);
            pi = pi + 1;
        }

        // register every new entry, parents before children
        let ghost r1 = self.reg();
        let ghost p1 = self.par();
        self.register_batch(new_entries);

        // the refreshed record: retained dynamic pairs plus the new ones
        let mut pairs: Vec<(u64, u64)> = Vec::new();
        let mut ti: usize = 0;
        while ti < to_retain.len()
            invariant
                ti <= to_retain@.len(),
                to_retain@ == retains0,
                forall|m: int|
                    0 <= m < pairs@.len() ==> {
                        let pr = #[trigger] pairs@[m];
                        &&& self.reg().dom().contains(pr.0)
                        &&& self.par().dom().contains(pr.0)
                        &&& self.par()[pr.0] == pr.1
                        &&& !spec_is_static(pr.0)
                    },
                forall|m: int|
                    0 <= m < pairs@.len() ==> retains0.contains(#[trigger] pairs@[m])
                        || new_pairs@.contains(pairs@[m]),
                // facts carried from the earlier phases
                forall|k: int|
                    0 <= k < retains0.len() ==> r1.dom().contains((#[trigger] retains0[k]).0)
                        && p1.dom().contains(retains0[k].0) && p1[retains0[k].0] == retains0[k].1,
                forall|i: u64| #[trigger]
                    r1.dom().contains(i) ==> self.reg().dom().contains(i),
                forall|i: u64| #[trigger]
                    p1.dom().contains(i) ==> self.par().dom().contains(i) && self.par()[i] == p1[i],
                self.inv(),
            decreases to_retain@.len() - ti,
        {
            let pr = to_retain[ti];
            if !crate::inode::is_inode_static(pr.0) {
                pairs.push(pr);
            }
            ti = ti + 1;
        }
        let ghost retained_pairs_len = pairs@.len();
        let mut ni2: usize = 0;
        while ni2 < new_pairs.len()
            invariant
                ni2 <= new_pairs@.len(),
                forall|m: int|
                    0 <= m < pairs@.len() ==> {
                        let pr = #[trigger] pairs@[m];
                        &&& self.reg().dom().contains(pr.0)
                        &&& self.par().dom().contains(pr.0)
                        &&& self.par()[pr.0] == pr.1
                        &&& !spec_is_static(pr.0)
                    },
                // facts carried: every new pair is registered with its parent
                forall|j: int|
                    0 <= j < new_pairs@.len() ==> {
                        let pr = #[trigger] new_pairs@[j];
                        &&& self.reg().dom().contains(pr.0)
                        &&& self.par().dom().contains(pr.0)
                        &&& self.par()[pr.0] == pr.1
                        &&& !spec_is_static(pr.0)
                    },
                self.inv(),
            decreases new_pairs@.len() - ni2,
        {
            pairs.push(new_pairs[ni2]);
            ni2 = ni2 + 1;
        }
        let prev = self.set_record(parent, interest, DynRecord { inodes: pairs, time_collected: now_ms });

        // what went stale: previous members that were not retained, and
        // dynamic children of retained parents that are neither retained
        // nor new
        let mut stale: Vec<u64> = Vec::new();
        match prev {
            Some(prevrec) => {
                let mut si: usize = 0;
                while si < prevrec.inodes.len()
                    invariant
                        si <= prevrec.inodes@.len(),
                    decreases prevrec.inodes@.len() - si,
                {
                    let pr = prevrec.inodes[si];
                    if !pair_vec_contains(&to_retain, pr.0, pr.1) {
                        stale.push(pr.0);
                    }
                    si = si + 1;
                }
            },
            None => {},
        }
        let mut ri: usize = 0;
        while ri < to_retain.len()
            invariant
                ri <= to_retain@.len(),
                self.inv(),
            decreases to_retain@.len() - ri,
        {
            let rp = to_retain[ri].1;
            match self.lookup_children(rp) {
                Some(children) => {
                    let mut ci: usize = 0;
                    while ci < children.len()
                        invariant
                            ci <= children@.len(),
                        decreases children@.len() - ci,
                    {
                        let c = children[ci].0;
                        if !crate::inode::is_inode_static(c) && !pair_vec_contains(
                            &to_retain,
                            c,
                            rp,
                        ) && !vec_contains(&new_inode_list, c) {
                            stale.push(c);
                        }
                        ci = ci + 1;
                    }
                },
                None => {},
            }
            ri = ri + 1;
        }

        // the inodes this generation keeps alive: retained and new
        let mut keep_inodes: Vec<u64> = Vec::new();
        let mut ki: usize = 0;
        while ki < to_retain.len()
            invariant
                ki <= to_retain@.len(),
                to_retain@ == retains0,
                keep_inodes@.len() == ki,
                forall|j: int|
                    0 <= j < ki ==> (#[trigger] keep_inodes@[j]) == retains0[j].0
                        && self.reg().dom().contains(keep_inodes@[j]),
                forall|k: int|
                    0 <= k < retains0.len() ==> r1.dom().contains((#[trigger] retains0[k]).0),
                forall|i: u64| #[trigger] r1.dom().contains(i) ==> self.reg().dom().contains(i),
            decreases to_retain@.len() - ki,
        {
            keep_inodes.push(to_retain[ki].0);
            ki = ki + 1;
        }
        let mut ki2: usize = 0;
        while ki2 < new_inode_list.len()
            invariant
                ki2 <= new_inode_list@.len(),
                new_inode_list@.len() == news0.len(),
                keep_inodes@.len() == retains0.len() + ki2,
                forall|j: int|
                    0 <= j < retains0.len() ==> (#[trigger] keep_inodes@[j]) == retains0[j].0,
                forall|j: int|
                    0 <= j < keep_inodes@.len() ==> self.reg().dom().contains(
                        #[trigger] keep_inodes@[j],
                    ),
                forall|j: int|
                    0 <= j < new_inode_list@.len() ==> (#[trigger] new_inode_list@[j])
                        == news0[j].inode,
                forall|k: int|
                    0 <= k < news0.len() ==> self.reg().dom().contains(
                        (#[trigger] news0[k]).inode,
                    ),
            decreases new_inode_list@.len() - ki2,
        {
            keep_inodes.push(new_inode_list[ki2]);
            ki2 = ki2 + 1;
        }

        // unregister the stale inodes, whole subtrees at a time
        let ghost reg_mid = self.reg();
        self.purge_stale(stale, &keep_inodes, parent, interest, now_ms);
        proof {
            assert forall|i: u64|
                spec_is_static(i) implies (self.reg().dom().contains(i) <==> old(
                self,
            ).reg().dom().contains(i)) by {
                if reg_mid.dom().contains(i) && !reg_in.dom().contains(i) {
                    let k = choose|k: int|
                        0 <= k < news0.len() && (#[trigger] news0[k]).inode == i;
                }
            }
            assert forall|i: u64|
                old(self).reg().dom().contains(i) && #[trigger] self.reg().dom().contains(
                    i,
                ) implies self.reg()[i] == old(self).reg()[i] by {
                assert(reg_mid.dom().contains(i));
                assert(r1.dom().contains(i));
            }
            assert forall|i: u64| #[trigger]
                self.reg().dom().contains(i) implies old(self).reg().dom().contains(i) || i
                    >= old(self).next_dyn() by {
                assert(reg_mid.dom().contains(i));
                if !r1.dom().contains(i) {
                    let k = choose|k: int|
                        0 <= k < news0.len() && (#[trigger] news0[k]).inode == i;
                }
            }
            assert forall|k: int|
                0 <= k < retains0.len() implies old(self).reg().dom().contains(
                    (#[trigger] retains0[k]).0,
                ) && self.reg().dom().contains(retains0[k].0) && self.reg()[retains0[k].0] == old(
                self,
            ).reg()[retains0[k].0] by {
                assert(r1.dom().contains(retains0[k].0));
                assert(keep_inodes@[k] == retains0[k].0);
                assert(self.reg().dom().contains(keep_inodes@[k]));
                assert(reg_mid.dom().contains(retains0[k].0));
            }
        }
        Ghost(retains0)
    }
}


impl FilesystemStructure {
    /// Whether the dynamic inode range can absorb one generation pass over
    /// `dirs` directories for this snapshot: the bound `ensure_generated`
    /// and `lookup_finish` ask their callers to establish.
    pub fn has_headroom(&self, state: &GameState, dirs: usize) -> (r: bool)
        ensures
            r == (self.next_dyn() as int + (dirs as int + 1) * (
            crate::structure::max_proposals(*state) + 2) + 2 <= u64::MAX as int),
    {
        let mp: u128 = 16u128 + 8u128 * (state.entities.len() as u128);
        let t1: u128 = mp + 2;
        let t2: u128 = (dirs as u128) + 1;
        let m: u128 = u64::MAX as u128;
        proof {
            assert(t1 as int == crate::structure::max_proposals(*state) + 2);
        }
        if t2 > m / t1 {
            proof {
                vstd::arithmetic::div_mod::lemma_fundamental_div_mod(m as int, t1 as int);
                vstd::arithmetic::div_mod::lemma_mod_bound(m as int, t1 as int);
                assert(t1 as int * (t2 as int) > m as int) by (nonlinear_arith)
                    requires
                        t2 as int >= m as int / (t1 as int) + 1,
                        m as int == t1 as int * (m as int / (t1 as int)) + (m as int) % (
                        t1 as int),
                        0 <= (m as int) % (t1 as int) < t1 as int,
                        t1 as int > 0,
                ;
            }
            false
        } else {
            let nd = self.inner.inode_alloc.next_dyn_value();
            proof {
                vstd::arithmetic::div_mod::lemma_fundamental_div_mod(m as int, t1 as int);
                vstd::arithmetic::div_mod::lemma_mod_bound(m as int, t1 as int);
                assert(t1 as int * (t2 as int) <= m as int) by (nonlinear_arith)
                    requires
                        t2 as int <= m as int / (t1 as int),
                        m as int == t1 as int * (m as int / (t1 as int)) + (m as int) % (
                        t1 as int),
                        0 <= (m as int) % (t1 as int) < t1 as int,
                        t1 as int > 0,
                ;
            }
            (nd as u128) + t1 * t2 + 2 <= m
        }
    }

    /// Regenerate one dynamic directory, if it is one.
    fn regen_step(&mut self, i0: u64, ty: DynamicStateType, state: &GameState, now_ms: u64)
        requires
            old(self).inv(),
            old(self).next_dyn() as int + crate::structure::max_proposals(*state)
                <= u64::MAX as int,
        ensures
            final(self).inv(),
            forall|i: u64|
                spec_is_static(i) ==> (final(self).reg().dom().contains(i) <==> old(
                    self,
                ).reg().dom().contains(i)),
            forall|i: u64|
                old(self).reg().dom().contains(i) && #[trigger] final(self).reg().dom().contains(
                    i,
                ) ==> final(self).reg()[i] == old(self).reg()[i],
            forall|i: u64| #[trigger]
                final(self).reg().dom().contains(i) ==> old(self).reg().dom().contains(i) || i
                    >= old(self).next_dyn(),
            final(self).statics_used_s() == old(self).statics_used_s(),
            old(self).next_dyn() <= final(self).next_dyn(),
            final(self).next_dyn() as int <= old(self).next_dyn() as int
                + crate::structure::max_proposals(*state),
    {
        let mut chosen: Option<DynamicDirFn> = None;
        match self.lookup_inode(i0) {
            Some(e) => match e {
                Entry::Dir(d) => match d.dynamic {
                    Some((ty2, f)) => {
                        if ty2 == ty {
                            chosen = Some(f);
                        }
                    },
                    None => {},
                },
                _ => {},
            },
            None => {},
        }
        if let Some(f) = chosen {
            let _ = self.register_dynamic_entries(f, i0, ty, state, now_ms);
        }
    }

    /// Materialise the phantom directory, if one was asked for, and
    /// regenerate every dynamic directory whose state had to be fetched.
    /// Idempotent for a fixed snapshot: an entry whose regenerated content
    /// matches keeps its inode and its entry. Static entries are never
    /// touched, and no surviving entry's content changes.
    #[verifier::rlimit(100)]
    pub fn ensure_generated(&mut self, state: &GameState, dynamics: DynamicInterest, now_ms: u64)
        requires
            old(self).inv(),
            old(self).next_dyn() as int + (dynamics.inodes@.len() + 1) * (
            crate::structure::max_proposals(*state) + 2) + 2 <= u64::MAX as int,
        ensures
            final(self).inv(),
            forall|i: u64|
                spec_is_static(i) ==> (final(self).reg().dom().contains(i) <==> old(
                    self,
                ).reg().dom().contains(i)),
            forall|i: u64|
                old(self).reg().dom().contains(i) && #[trigger] final(self).reg().dom().contains(
                    i,
                ) ==> final(self).reg()[i] == old(self).reg()[i],
            final(self).statics_used_s() == old(self).statics_used_s(),
    {
        let ghost reg_in = old(self).reg();
        let ghost nd0 = old(self).next_dyn() as int;
        let ghost mp = crate::structure::max_proposals(*state);
        let ghost total = dynamics.inodes@.len() as int;
        let DynamicInterest { inodes, need_fetching, interest: _, phantom } = dynamics;
        proof {
            assert(mp >= 16);
            old(self).inner.inode_alloc.lemma_wf_bounds();
            assert forall|i: u64| #[trigger] reg_in.dom().contains(i) implies i < nd0 by {
                assert(STATIC_MAX <= old(self).next_dyn());
            }
        }
        if let Some(ph) = phantom {
            if self.inner.registry.contains_key(ph.parent) {
                let pd = self.inner.inode_alloc.allocate();
                proof {
                    StructureInner::lemma_inv_alloc_grow(old(self).inner, self.inner);
                    assert(!self.reg().dom().contains(pd));
                    assert(ph.parent < pd) by {
                        if spec_is_static(ph.parent) {
                            assert(ph.parent < STATIC_MAX);
                        }
                    }
                }
                let dir_entry = Entry::Dir(
                    DirEntry::build().associated_data(ph.dir_associated_data).finish(),
                );
                self.inner.register(pd, dir_entry, ph.parent, ph.child_name);
                proof {
                    assert(self.reg().dom().contains(pd));
                    assert(self.next_dyn() as int + mp <= u64::MAX as int) by (nonlinear_arith)
                        requires
                            self.next_dyn() as int == nd0 + 1,
                            nd0 + (total + 1) * (mp + 2) + 2 <= u64::MAX as int,
                            mp >= 16,
                            total >= 0,
                    ;
                }
                let _ = self.register_dynamic_entries(ph.dyn_fn, pd, ph.interest, state, now_ms);
            }
        }
        let mut k: usize = 0;
        while k < inodes.len()
            invariant
                self.inv(),
                k <= inodes@.len(),
                inodes@.len() == total,
                mp == crate::structure::max_proposals(*state),
                mp >= 16,
                nd0 + (total + 1) * (mp + 2) + 2 <= u64::MAX as int,
                self.next_dyn() as int <= nd0 + 1 + mp + k * mp,
                self.statics_used_s() == old(self).statics_used_s(),
                forall|i: u64|
                    spec_is_static(i) ==> (self.reg().dom().contains(i) <==> reg_in.dom().contains(
                        i,
                    )),
                forall|i: u64| #[trigger] reg_in.dom().contains(i) ==> i < nd0,
                nd0 <= self.next_dyn() as int,
                forall|i: u64|
                    reg_in.dom().contains(i) && #[trigger] self.reg().dom().contains(i)
                        ==> self.reg()[i] == reg_in[i],
            decreases inodes@.len() - k,
        {
            let (di, ty) = inodes[k];
            proof {
                assert(self.next_dyn() as int + mp <= u64::MAX as int) by (nonlinear_arith)
                    requires
                        self.next_dyn() as int <= nd0 + 1 + mp + k * mp,
                        nd0 + (total + 1) * (mp + 2) + 2 <= u64::MAX as int,
                        mp >= 16,
                        0 <= k < total,
                ;
            }
            let ghost pre = *self;
            match di {
                DynamicInode::Inode(i0) => {
                    if dst_vec_contains(&need_fetching, ty) {
                        self.regen_step(i0, ty, state, now_ms);
                    }
                },
                DynamicInode::Phantom(_) => {},
            }
            proof {
                assert forall|i: u64|
                    reg_in.dom().contains(i) && #[trigger] self.reg().dom().contains(
                        i,
                    ) implies self.reg()[i] == reg_in[i] by {
                    assert(i < nd0);
                    assert(pre.reg().dom().contains(i));
                }
                assert(self.next_dyn() as int <= nd0 + 1 + mp + (k + 1) * mp) by (nonlinear_arith)
                    requires
                        self.next_dyn() as int <= pre.next_dyn() as int + mp,
                        pre.next_dyn() as int <= nd0 + 1 + mp + k * mp,
                        mp >= 16,
                        k >= 0,
                ;
            }
            k = k + 1;
        }
    }
}

} // verus!
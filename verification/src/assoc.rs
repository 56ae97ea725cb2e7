//! A small association map from `u64` keys to values, viewed as a
//! `Map<u64, V>`. Keys are unique; operations are linear scans.

use vstd::prelude::*;

verus! {

/// Whether `s` holds an entry with key `k`.
pub open spec fn has_key<V>(s: Seq<(u64, V)>, k: u64) -> bool {
    exists|i: int| 0 <= i < s.len() && s[i].0 == k
}

/// The index of the entry with key `k` (unique when keys are distinct).
pub open spec fn index_of<V>(s: Seq<(u64, V)>, k: u64) -> int {
    choose|i: int| 0 <= i < s.len() && s[i].0 == k
}

/// Distinctness of the keys of `s`.
pub open spec fn distinct_keys<V>(s: Seq<(u64, V)>) -> bool {
    forall|i: int, j: int| 0 <= i < j < s.len() ==> s[i].0 != s[j].0
}

pub proof fn lemma_key_unique<V>(s: Seq<(u64, V)>, k: u64)
    requires
        distinct_keys(s),
        has_key(s, k),
    ensures
        0 <= index_of(s, k) < s.len(),
        s[index_of(s, k)].0 == k,
        forall|j: int| 0 <= j < s.len() && s[j].0 == k ==> j == index_of(s, k),
{
    let i = index_of(s, k);
    assert(0 <= i < s.len() && s[i].0 == k);
    assert forall|j: int| 0 <= j < s.len() && s[j].0 == k implies j == i by {
        if j < i {
            assert(s[j].0 != s[i].0);
        } else if i < j {
            assert(s[i].0 != s[j].0);
        }
    }
}

/// The map described by an association sequence with distinct keys.
pub open spec fn seq_to_map<V>(s: Seq<(u64, V)>) -> Map<u64, V> {
    Map::new(|k: u64| has_key(s, k), |k: u64| s[index_of(s, k)].1)
}

pub struct AssocVec<V> {
    entries: Vec<(u64, V)>,
}

impl<V> View for AssocVec<V> {
    type V = Map<u64, V>;

    closed spec fn view(&self) -> Map<u64, V> {
        seq_to_map(self.entries@)
    }
}

impl<V> AssocVec<V> {
    /// The underlying entry sequence, for indexed traversal.
    pub closed spec fn seq(self) -> Seq<(u64, V)> {
        self.entries@
    }

    pub closed spec fn wf(self) -> bool {
        distinct_keys(self.entries@)
    }

    /// Ties each entry of `seq()` to the map view.
    pub proof fn lemma_seq_view(self)
        requires
            self.wf(),
        ensures
            forall|i: int|
                0 <= i < self.seq().len() ==> self@.dom().contains(#[trigger] self.seq()[i].0)
                    && self@[self.seq()[i].0] == self.seq()[i].1,
            forall|k: u64| self@.dom().contains(k) ==> has_key(self.seq(), k),
            distinct_keys(self.seq()),
    {
        assert forall|i: int| 0 <= i < self.seq().len() implies self@.dom().contains(
            #[trigger] self.seq()[i].0,
        ) && self@[self.seq()[i].0] == self.seq()[i].1 by {
            let k = self.seq()[i].0;
            assert(has_key(self.seq(), k));
            lemma_key_unique(self.seq(), k);
        }
    }

    pub fn new() -> (r: Self)
        ensures
            r.wf(),
            r@ == Map::<u64, V>::empty(),
            r.seq() == Seq::<(u64, V)>::empty(),
    {
        let r = AssocVec { entries: Vec::new() };
        proof {
            assert(r@ =~= Map::<u64, V>::empty());
            assert(r.seq() =~= Seq::<(u64, V)>::empty());
        }
        r
    }

    pub fn len(&self) -> (r: usize)
        ensures
            r == self.seq().len(),
    {
        self.entries.len()
    }

    pub fn key_at(&self, i: usize) -> (r: u64)
        requires
            i < self.seq().len(),
        ensures
            r == self.seq()[i as int].0,
    {
        self.entries[i].0
    }

    pub fn val_at(&self, i: usize) -> (r: &V)
        requires
            i < self.seq().len(),
        ensures
            *r == self.seq()[i as int].1,
    {
        &self.entries[i].1
    }

    /// The position of `k` among the entries, if present.
    fn find(&self, k: u64) -> (r: Option<usize>)
        requires
            self.wf(),
        ensures
            match r {
                Some(i) => i < self.seq().len() && self.seq()[i as int].0 == k,
                None => !has_key(self.seq(), k),
            },
    {
        let mut i: usize = 0;
        while i < self.entries.len()
            invariant
                i <= self.entries@.len(),
                forall|j: int| 0 <= j < i ==> self.entries@[j].0 != k,
            decreases self.entries@.len() - i,
        {
            if self.entries[i].0 == k {
                return Some(i);
            }
            i = i + 1;
        }
        None
    }

    pub fn contains_key(&self, k: u64) -> (r: bool)
        requires
            self.wf(),
        ensures
            r == self@.dom().contains(k),
    {
        match self.find(k) {
            Some(_) => true,
            None => false,
        }
    }

    pub fn get(&self, k: u64) -> (r: Option<&V>)
        requires
            self.wf(),
        ensures
            match r {
                Some(v) => self@.dom().contains(k) && *v == self@[k],
                None => !self@.dom().contains(k),
            },
    {
        match self.find(k) {
            Some(i) => {
                proof {
                    lemma_key_unique(self.seq(), k);
                }
                Some(&self.entries[i].1)
            },
            None => None,
        }
    }

    /// Insert or replace the value of `k`.
    pub fn insert(&mut self, k: u64, v: V)
        requires
            old(self).wf(),
        ensures
            final(self).wf(),
            final(self)@ == old(self)@.insert(k, v),
            old(self)@.dom().contains(k) ==> final(self).seq() == old(self).seq().update(
                index_of(old(self).seq(), k),
                (k, v),
            ),
            !old(self)@.dom().contains(k) ==> final(self).seq() == old(self).seq().push((k, v)),
    {
        let idx = self.find(k);
        match idx {
            Some(i) => {
                proof {
                    lemma_key_unique(self.seq(), k);
                }
                self.entries[i] = (k, v);
                proof {
                    let olds = old(self).seq();
                    let news = self.seq();
                    assert(news =~= olds.update(index_of(olds, k), (k, v)));
                    assert forall|k2: u64| has_key(news, k2) == has_key(olds, k2) by {
                        if has_key(news, k2) {
                            let i2 = choose|i2: int|
                                0 <= i2 < news.len() && news[i2].0 == k2;
                            assert(olds[i2].0 == k2 || k2 == k);
                            assert(has_key(olds, k2));
                        }
                        if has_key(olds, k2) {
                            let i2 = choose|i2: int|
                                0 <= i2 < olds.len() && olds[i2].0 == k2;
                            assert(news[i2].0 == k2 || k2 == k);
                            if k2 == k {
                                assert(news[index_of(olds, k)].0 == k2);
                            }
                            assert(has_key(news, k2));
                        }
                    }
                    assert forall|k2: u64| #[trigger]
                        has_key(news, k2) implies news[index_of(news, k2)].1 == old(
                        self,
                    )@.insert(k, v)[k2] by {
                        lemma_key_unique(news, k2);
                        if k2 == k {
                            assert(news[index_of(olds, k)].0 == k);
                            assert(index_of(news, k2) == index_of(olds, k));
                        } else {
                            lemma_key_unique(olds, k2);
                            assert(news[index_of(olds, k2)].0 == k2);
                            assert(index_of(news, k2) == index_of(olds, k2));
                        }
                    }
                    assert(self@ =~= old(self)@.insert(k, v));
                }
            },
            None => {
                self.entries.push((k, v));
                proof {
                    let olds = old(self).seq();
                    let news = self.seq();
                    assert(news =~= olds.push((k, v)));
                    assert(news[olds.len() as int].0 == k);
                    assert forall|k2: u64| #[trigger]
                        has_key(news, k2) implies self@[k2] == old(self)@.insert(k, v)[k2] by {
                        lemma_key_unique(news, k2);
                        let i2 = index_of(news, k2);
                        if i2 == olds.len() {
                            assert(k2 == k);
                        } else {
                            assert(olds[i2].0 == k2);
                            assert(has_key(olds, k2));
                            lemma_key_unique(olds, k2);
                            assert(index_of(olds, k2) == i2);
                        }
                    }
                    assert forall|k2: u64| has_key(olds, k2) implies has_key(news, k2) by {
                        let i2 = choose|i2: int| 0 <= i2 < olds.len() && olds[i2].0 == k2;
                        assert(news[i2].0 == k2);
                    }
                    assert(self@ =~= old(self)@.insert(k, v));
                }
            },
        }
    }

    /// Remove `k`, returning its value if present.
    pub fn take(&mut self, k: u64) -> (r: Option<V>)
        requires
            old(self).wf(),
        ensures
            final(self).wf(),
            final(self)@ == old(self)@.remove(k),
            match r {
                Some(v) => old(self)@.dom().contains(k) && v == old(self)@[k],
                None => !old(self)@.dom().contains(k),
            },
            !old(self)@.dom().contains(k) ==> final(self).seq() == old(self).seq(),
            old(self)@.dom().contains(k) ==> final(self).seq() == old(self).seq().remove(
                index_of(old(self).seq(), k),
            ),
    {
        let idx = self.find(k);
        match idx {
            Some(i) => {
                proof {
                    lemma_key_unique(self.seq(), k);
                }
                let (_, v) = self.entries.remove(i);
                proof {
                    let olds = old(self).seq();
                    let news = self.seq();
                    assert(news =~= olds.remove(i as int));
                    assert forall|i2: int, j2: int|
                        0 <= i2 < j2 < news.len() implies news[i2].0 != news[j2].0 by {
                        let oi = if i2 < i { i2 } else { i2 + 1 };
                        let oj = if j2 < i { j2 } else { j2 + 1 };
                        assert(news[i2] == olds[oi]);
                        assert(news[j2] == olds[oj]);
                    }
                    assert forall|k2: u64| #[trigger] has_key(news, k2) implies k2 != k
                        && has_key(olds, k2) && news[index_of(news, k2)].1 == old(self)@[k2] by {
                        lemma_key_unique(news, k2);
                        let i2 = index_of(news, k2);
                        let oi = if i2 < i { i2 } else { i2 + 1 };
                        assert(news[i2] == olds[oi]);
                        assert(has_key(olds, k2));
                        lemma_key_unique(olds, k2);
                        assert(index_of(olds, k2) == oi);
                        assert(oi != i);
                    }
                    assert forall|k2: u64| has_key(olds, k2) && k2 != k implies has_key(
                        news,
                        k2,
                    ) by {
                        lemma_key_unique(olds, k2);
                        let oi = index_of(olds, k2);
                        assert(oi != i);
                        let ni = if oi < i { oi } else { oi - 1 };
                        assert(news[ni] == olds[oi]);
                    }
                    assert(self@ =~= old(self)@.remove(k));
                }
                Some(v)
            },
            None => {
                proof {
                    assert(self@ =~= old(self)@.remove(k));
                }
                None
            },
        }
    }

    /// Remove `k` and its value, if present.
    pub fn remove(&mut self, k: u64)
        requires
            old(self).wf(),
        ensures
            final(self).wf(),
            final(self)@ == old(self)@.remove(k),
            !old(self)@.dom().contains(k) ==> final(self).seq() == old(self).seq(),
            old(self)@.dom().contains(k) ==> final(self).seq() == old(self).seq().remove(
                index_of(old(self).seq(), k),
            ),
    {
        let idx = self.find(k);
        match idx {
            Some(i) => {
                proof {
                    lemma_key_unique(self.seq(), k);
                }
                let _ = self.entries.remove(i);
                proof {
                    let olds = old(self).seq();
                    let news = self.seq();
                    assert(news =~= olds.remove(i as int));
                    assert forall|i2: int, j2: int|
                        0 <= i2 < j2 < news.len() implies news[i2].0 != news[j2].0 by {
                        let oi = if i2 < i { i2 } else { i2 + 1 };
                        let oj = if j2 < i { j2 } else { j2 + 1 };
                        assert(news[i2] == olds[oi]);
                        assert(news[j2] == olds[oj]);
                    }
                    assert forall|k2: u64| #[trigger] has_key(news, k2) implies k2 != k
                        && has_key(olds, k2) && news[index_of(news, k2)].1 == old(self)@[k2] by {
                        lemma_key_unique(news, k2);
                        let i2 = index_of(news, k2);
                        let oi = if i2 < i { i2 } else { i2 + 1 };
                        assert(news[i2] == olds[oi]);
                        assert(has_key(olds, k2));
                        lemma_key_unique(olds, k2);
                        assert(index_of(olds, k2) == oi);
                        assert(oi != i);
                    }
                    assert forall|k2: u64| has_key(olds, k2) && k2 != k implies has_key(
                        news,
                        k2,
                    ) by {
                        lemma_key_unique(olds, k2);
                        let oi = index_of(olds, k2);
                        assert(oi != i);
                        let ni = if oi < i { oi } else { oi - 1 };
                        assert(news[ni] == olds[oi]);
                    }
                    assert(self@ =~= old(self)@.remove(k));
                }
            },
            None => {
                proof {
                    assert(self@ =~= old(self)@.remove(k));
                }
            },
        }
    }
}

} // verus!

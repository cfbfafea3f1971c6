//! A map from user identifiers to subscription state.
//!
//! Backed by a vector of pairs with unique keys; viewed as a mathematical
//! map from identifier bytes to the user's abstract state. The entry order
//! is exposed so callers can iterate deterministically.

use vstd::prelude::*;

use crate::ids::UserId;
use crate::user_info::{UserInfo, UserInfoV};

verus! {

pub struct UserMap {
    pub entries: Vec<(UserId, UserInfo)>,
}

impl UserMap {
    /// No two entries share a key.
    pub open spec fn wf(self) -> bool {
        forall|i: int, j: int|
            0 <= i < j < self.entries@.len() ==> self.entries@[i].0@ != self.entries@[j].0@
    }

    pub open spec fn spec_len(self) -> nat {
        self.entries@.len()
    }

    pub open spec fn spec_has(self, k: Seq<u8>) -> bool {
        exists|i: int| 0 <= i < self.entries@.len() && self.entries@[i].0@ == k
    }

    pub open spec fn spec_index_of(self, k: Seq<u8>) -> int {
        choose|i: int| 0 <= i < self.entries@.len() && self.entries@[i].0@ == k
    }
}

impl View for UserMap {
    type V = Map<Seq<u8>, UserInfoV>;

    open spec fn view(&self) -> Map<Seq<u8>, UserInfoV> {
        Map::new(
            |k: Seq<u8>| self.spec_has(k),
            |k: Seq<u8>| self.entries@[self.spec_index_of(k)].1@,
        )
    }
}

/// Every entry is present in the map view under its own key.
pub proof fn lemma_user_map_entry(m: UserMap, i: int)
    requires
        m.wf(),
        0 <= i < m.entries@.len(),
    ensures
        m@.contains_key(m.entries@[i].0@),
        m@[m.entries@[i].0@] == m.entries@[i].1@,
        m.spec_index_of(m.entries@[i].0@) == i,
{
    let k = m.entries@[i].0@;
    assert(m.spec_has(k));
    let j = m.spec_index_of(k);
    assert(0 <= j < m.entries@.len() && m.entries@[j].0@ == k);
    if i < j {
        assert(m.entries@[i].0@ != m.entries@[j].0@);
    }
    if j < i {
        assert(m.entries@[j].0@ != m.entries@[i].0@);
    }
}

impl UserMap {
    pub fn new() -> (r: Self)
        ensures
            r.wf(),
            r@ == Map::<Seq<u8>, UserInfoV>::empty(),
            r.spec_len() == 0,
    {
        let r = UserMap { entries: Vec::new() };
        proof {
            assert(r@ =~= Map::<Seq<u8>, UserInfoV>::empty());
        }
        r
    }

    pub fn len(&self) -> (r: usize)
        ensures
            r == self.spec_len(),
    {
        self.entries.len()
    }

    fn index_of_key(&self, k: &UserId) -> (r: Option<usize>)
        ensures
            match r {
                Some(i) => 0 <= i < self.entries@.len() && self.entries@[i as int].0@ == k@,
                None => !self.spec_has(k@),
            },
    {
        let mut i: usize = 0;
        while i < self.entries.len()
            invariant
                i <= self.entries@.len(),
                forall|j: int| 0 <= j < i ==> self.entries@[j].0@ != k@,
            decreases self.entries@.len() - i,
        {
            if self.entries[i].0.key_eq(k) {
                return Some(i);
            }
            i += 1;
        }
        None
    }

    pub fn contains_key(&self, k: &UserId) -> (r: bool)
        requires
            self.wf(),
        ensures
            r == self@.contains_key(k@),
    {
        match self.index_of_key(k) {
            Some(i) => {
                proof {
                    lemma_user_map_entry(*self, i as int);
                }
                true
            },
            None => false,
        }
    }

    /// Looks a user up, returning a copy of its state.
    pub fn get(&self, k: &UserId) -> (r: Option<UserInfo>)
        requires
            self.wf(),
        ensures
            match r {
                Some(info) => self@.contains_key(k@) && info@ == self@[k@],
                None => !self@.contains_key(k@),
            },
    {
        match self.index_of_key(k) {
            Some(i) => {
                proof {
                    lemma_user_map_entry(*self, i as int);
                }
                Some(self.entries[i].1.clone())
            },
            None => None,
        }
    }

    /// The key of the `i`-th entry.
    pub fn key_at(&self, i: usize) -> (r: &UserId)
        requires
            i < self.spec_len(),
        ensures
            r@ == self.entries@[i as int].0@,
    {
        &self.entries[i].0
    }

    /// A copy of the state of the `i`-th entry.
    pub fn info_at(&self, i: usize) -> (r: UserInfo)
        requires
            i < self.spec_len(),
        ensures
            r@ == self.entries@[i as int].1@,
    {
        self.entries[i].1.clone()
    }

    /// Binds `k` to `v`, replacing any previous binding.
    pub fn set(&mut self, k: &UserId, v: UserInfo)
        requires
            old(self).wf(),
        ensures
            final(self).wf(),
            final(self)@ == old(self)@.insert(k@, v@),
            final(self).spec_len() == old(self).spec_len() + (
            if old(self)@.contains_key(k@) {
                0int
            } else {
                1int
            }),
    {
        match self.index_of_key(k) {
            Some(i) => {
                proof {
                    lemma_user_map_entry(*old(self), i as int);
                }
                let entry = self.entries.remove(i);
                self.entries.insert(i, (entry.0, v));
                proof {
                    let pre = old(self).entries@;
                    let post = self.entries@;
                    assert(post =~= pre.update(i as int, (pre[i as int].0, v)));
                    assert(forall|a: int| 0 <= a < post.len() ==> post[a].0@ == pre[a].0@);
                    assert(forall|a: int| 0 <= a < post.len() && a != i ==> post[a] == pre[a]);
                    assert(self.wf());
                    assert forall|k2: Seq<u8>| self.spec_has(k2) == old(self).spec_has(k2) by {
                        if self.spec_has(k2) {
                            let w = choose|w: int| 0 <= w < post.len() && post[w].0@ == k2;
                            assert(pre[w].0@ == k2);
                        }
                        if old(self).spec_has(k2) {
                            let w = choose|w: int| 0 <= w < pre.len() && pre[w].0@ == k2;
                            assert(post[w].0@ == k2);
                        }
                    }
                    assert forall|k2: Seq<u8>| #[trigger] self@.contains_key(k2) implies self@[k2]
                        == old(self)@.insert(k@, v@)[k2] by {
                        if k2 == k@ {
                            lemma_user_map_entry(*self, i as int);
                        } else {
                            let j = old(self).spec_index_of(k2);
                            assert(0 <= j < pre.len() && pre[j].0@ == k2);
                            assert(j != i);
                            lemma_user_map_entry(*old(self), j);
                            lemma_user_map_entry(*self, j);
                        }
                    }
                    assert(self@ =~= old(self)@.insert(k@, v@));
                }
            },
            None => {
                self.entries.push((k.clone(), v));
                proof {
                    let pre = old(self).entries@;
                    let post = self.entries@;
                    assert(post =~= pre.push((post[pre.len() as int].0, v)));
                    assert(post[pre.len() as int].0@ == k@);
                    assert(forall|a: int| 0 <= a < pre.len() ==> post[a] == pre[a]);
                    assert(forall|a: int| 0 <= a < pre.len() ==> pre[a].0@ != k@) by {
                        assert(forall|a: int|
                            0 <= a < pre.len() && pre[a].0@ == k@ ==> old(self).spec_has(k@));
                    }
                    assert(self.wf());
                    assert forall|k2: Seq<u8>|
                        k2 != k@ implies self.spec_has(k2) == old(self).spec_has(k2) by {
                        if self.spec_has(k2) {
                            let w = choose|w: int| 0 <= w < post.len() && post[w].0@ == k2;
                            assert(w != pre.len());
                            assert(pre[w].0@ == k2);
                        }
                        if old(self).spec_has(k2) {
                            let w = choose|w: int| 0 <= w < pre.len() && pre[w].0@ == k2;
                            assert(post[w].0@ == k2);
                        }
                    }
                    assert forall|k2: Seq<u8>| #[trigger] self@.contains_key(k2) implies self@[k2]
                        == old(self)@.insert(k@, v@)[k2] by {
                        if k2 == k@ {
                            lemma_user_map_entry(*self, pre.len() as int);
                        } else {
                            let j = old(self).spec_index_of(k2);
                            assert(0 <= j < pre.len() && pre[j].0@ == k2);
                            lemma_user_map_entry(*old(self), j);
                            lemma_user_map_entry(*self, j);
                        }
                    }
                    assert(self@ =~= old(self)@.insert(k@, v@));
                }
            },
        }
    }

    /// Unbinds `k`; does nothing when `k` is not bound.
    pub fn remove(&mut self, k: &UserId)
        requires
            old(self).wf(),
        ensures
            final(self).wf(),
            final(self)@ == old(self)@.remove(k@),
            final(self).spec_len() == old(self).spec_len() - (
            if old(self)@.contains_key(k@) {
                1int
            } else {
                0int
            }),
    {
        match self.index_of_key(k) {
            Some(i) => {
                proof {
                    lemma_user_map_entry(*old(self), i as int);
                }
                self.entries.remove(i);
                proof {
                    let pre = old(self).entries@;
                    let post = self.entries@;
                    assert(post =~= pre.remove(i as int));
                    assert(forall|a: int| 0 <= a < i ==> post[a] == pre[a]);
                    assert(forall|a: int| i <= a < post.len() ==> post[a] == pre[a + 1]);
                    assert(self.wf());
                    assert(!self.spec_has(k@)) by {
                        if self.spec_has(k@) {
                            let w = choose|w: int| 0 <= w < post.len() && post[w].0@ == k@;
                            if w < i {
                                assert(pre[w].0@ == k@);
                                lemma_user_map_entry(*old(self), w);
                            } else {
                                assert(pre[w + 1].0@ == k@);
                                lemma_user_map_entry(*old(self), w + 1);
                            }
                        }
                    }
                    assert forall|k2: Seq<u8>|
                        k2 != k@ implies self.spec_has(k2) == old(self).spec_has(k2) by {
                        if self.spec_has(k2) {
                            let w = choose|w: int| 0 <= w < post.len() && post[w].0@ == k2;
                            if w < i {
                                assert(pre[w].0@ == k2);
                            } else {
                                assert(pre[w + 1].0@ == k2);
                            }
                        }
                        if old(self).spec_has(k2) {
                            let w = choose|w: int| 0 <= w < pre.len() && pre[w].0@ == k2;
                            assert(w != i);
                            if w < i {
                                assert(post[w].0@ == k2);
                            } else {
                                assert(post[w - 1].0@ == k2);
                            }
                        }
                    }
                    assert forall|k2: Seq<u8>| #[trigger] self@.contains_key(k2) implies self@[k2]
                        == old(self)@.remove(k@)[k2] by {
                        let j = old(self).spec_index_of(k2);
                        assert(0 <= j < pre.len() && pre[j].0@ == k2);
                        assert(j != i);
                        lemma_user_map_entry(*old(self), j);
                        if j < i {
                            lemma_user_map_entry(*self, j);
                        } else {
                            assert(post[j - 1] == pre[j]);
                            lemma_user_map_entry(*self, j - 1);
                        }
                    }
                    assert(self@ =~= old(self)@.remove(k@));
                }
            },
            None => {
                proof {
                    assert(!self@.contains_key(k@));
                    assert(self@ =~= old(self)@.remove(k@));
                }
            },
        }
    }
}

} // verus!

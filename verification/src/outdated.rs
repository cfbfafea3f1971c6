//! Outdated users and the bounded cache that holds them per block height.
//!
//! A user is outdated at height `h` exactly when `h` equals the user's
//! subscription expiry plus the renewal grace window. `OutdatedUsers` maps
//! each such user to the identifiers of its appointments; the cache keeps
//! one `OutdatedUsers` entry per height, bounded in size, so that other
//! components can still query recently purged users.

use vstd::prelude::*;

use crate::ids::{clone_bytes, UserId, UUID};

verus! {

/// View of a sequence of appointment identifiers.
pub open spec fn uuid_views(s: Seq<UUID>) -> Seq<Seq<u8>> {
    s.map_values(|u: UUID| u@)
}

/// No two entries share a user key.
pub open spec fn ou_unique(s: Seq<(Seq<u8>, Seq<Seq<u8>>)>) -> bool {
    forall|i: int, j: int| 0 <= i < j < s.len() ==> s[i].0 != s[j].0
}

/// Some entry has user key `k`.
pub open spec fn ou_has(s: Seq<(Seq<u8>, Seq<Seq<u8>>)>, k: Seq<u8>) -> bool {
    exists|i: int| 0 <= i < s.len() && s[i].0 == k
}

/// The index of the entry with user key `k`.
pub open spec fn ou_index_of(s: Seq<(Seq<u8>, Seq<Seq<u8>>)>, k: Seq<u8>) -> int {
    choose|i: int| 0 <= i < s.len() && s[i].0 == k
}

/// The appointment identifiers recorded for user key `k`.
pub open spec fn ou_value(s: Seq<(Seq<u8>, Seq<Seq<u8>>)>, k: Seq<u8>) -> Seq<Seq<u8>> {
    s[ou_index_of(s, k)].1
}

/// Some entry among the first `n` has user key `k`.
pub open spec fn ou_key_in_prefix(s: Seq<(Seq<u8>, Seq<Seq<u8>>)>, n: int, k: Seq<u8>) -> bool {
    exists|j: int| 0 <= j < n && s[j].0 == k
}

/// Appointment identifier `u` belongs to some user of the table.
pub open spec fn ou_lists_appt(s: Seq<(Seq<u8>, Seq<Seq<u8>>)>, u: Seq<u8>) -> bool {
    exists|i: int| 0 <= i < s.len() && s[i].1.contains(u)
}

/// An index holding user key `k` is the index `ou_index_of` denotes.
pub proof fn lemma_ou_index_unique(s: Seq<(Seq<u8>, Seq<Seq<u8>>)>, i: int, k: Seq<u8>)
    requires
        ou_unique(s),
        0 <= i < s.len(),
        s[i].0 == k,
    ensures
        ou_has(s, k),
        ou_index_of(s, k) == i,
        ou_value(s, k) == s[i].1,
{
    assert(ou_has(s, k));
    let j = ou_index_of(s, k);
    assert(0 <= j < s.len() && s[j].0 == k);
    if i < j {
        assert(s[i].0 != s[j].0);
    }
    if j < i {
        assert(s[j].0 != s[i].0);
    }
}

/// How appending a fresh user changes membership and values.
pub proof fn lemma_ou_push_props(s: Seq<(Seq<u8>, Seq<Seq<u8>>)>, k: Seq<u8>, v: Seq<Seq<u8>>)
    requires
        ou_unique(s),
        !ou_has(s, k),
    ensures
        ou_unique(s.push((k, v))),
        ou_has(s.push((k, v)), k),
        ou_value(s.push((k, v)), k) == v,
        forall|k2: Seq<u8>| k2 != k ==> ou_has(s.push((k, v)), k2) == ou_has(s, k2),
        forall|k2: Seq<u8>|
            k2 != k && ou_has(s, k2) ==> ou_value(s.push((k, v)), k2) == ou_value(s, k2),
{
    let s2 = s.push((k, v));
    let n = s.len() as int;
    assert(s2[n] == (k, v));
    assert(forall|a: int| 0 <= a < n ==> s2[a] == s[a]);
    assert(forall|a: int| 0 <= a < n ==> s[a].0 != k) by {
        assert(forall|a: int| 0 <= a < n && s[a].0 == k ==> ou_has(s, k));
    }
    assert(ou_unique(s2));
    lemma_ou_index_unique(s2, n, k);
    assert forall|k2: Seq<u8>| k2 != k implies ou_has(s2, k2) == ou_has(s, k2) by {
        if ou_has(s2, k2) {
            let w = choose|w: int| 0 <= w < s2.len() && s2[w].0 == k2;
            assert(w != n);
            assert(s[w].0 == k2);
        }
        if ou_has(s, k2) {
            let w = choose|w: int| 0 <= w < s.len() && s[w].0 == k2;
            assert(s2[w].0 == k2);
        }
    }
    assert forall|k2: Seq<u8>| k2 != k && ou_has(s, k2) implies ou_value(s2, k2) == ou_value(
        s,
        k2,
    ) by {
        let w = ou_index_of(s, k2);
        assert(0 <= w < s.len() && s[w].0 == k2);
        assert(s2[w] == s[w]);
        lemma_ou_index_unique(s2, w, k2);
    }
}

/// Copies a list of appointment identifiers.
pub fn clone_uuid_list(v: &Vec<UUID>) -> (r: Vec<UUID>)
    ensures
        uuid_views(r@) == uuid_views(v@),
{
    let mut r: Vec<UUID> = Vec::new();
    let mut i: usize = 0;
    while i < v.len()
        invariant
            i <= v@.len(),
            r@.len() == i,
            forall|j: int| 0 <= j < i ==> r@[j]@ == v@[j]@,
        decreases v@.len() - i,
    {
        r.push(UUID(clone_bytes(&v[i].0)));
        i += 1;
    }
    proof {
        assert(uuid_views(r@) =~= uuid_views(v@));
    }
    r
}

/// The users outdated at one block height, each with the identifiers of its
/// appointments.
pub struct OutdatedUsers {
    pub entries: Vec<(UserId, Vec<UUID>)>,
}

impl View for OutdatedUsers {
    type V = Seq<(Seq<u8>, Seq<Seq<u8>>)>;

    open spec fn view(&self) -> Seq<(Seq<u8>, Seq<Seq<u8>>)> {
        self.entries@.map_values(|e: (UserId, Vec<UUID>)| (e.0@, uuid_views(e.1@)))
    }
}

impl OutdatedUsers {
    pub open spec fn wf(self) -> bool {
        ou_unique(self@)
    }

    pub fn new() -> (r: Self)
        ensures
            r@ == Seq::<(Seq<u8>, Seq<Seq<u8>>)>::empty(),
            r.wf(),
    {
        let r = OutdatedUsers { entries: Vec::new() };
        proof {
            assert(r@ =~= Seq::<(Seq<u8>, Seq<Seq<u8>>)>::empty());
        }
        r
    }

    pub fn len(&self) -> (r: usize)
        ensures
            r == self@.len(),
    {
        self.entries.len()
    }

    /// Records `uuids` for a user not recorded yet.
    pub fn push(&mut self, user_id: UserId, uuids: Vec<UUID>)
        requires
            !ou_has(old(self)@, user_id@),
        ensures
            final(self)@ == old(self)@.push((user_id@, uuid_views(uuids@))),
            old(self).wf() ==> final(self).wf(),
    {
        let ghost pre = self@;
        let ghost key = user_id@;
        let ghost vals = uuid_views(uuids@);
        self.entries.push((user_id, uuids));
        proof {
            assert(self@ =~= pre.push((key, vals)));
            if ou_unique(pre) {
                assert(forall|a: int| 0 <= a < pre.len() ==> self@[a] == pre[a]);
                assert(forall|a: int| 0 <= a < pre.len() ==> pre[a].0 != key) by {
                    assert(forall|a: int|
                        0 <= a < pre.len() && pre[a].0 == key ==> ou_has(pre, key));
                }
                assert(ou_unique(self@));
            }
        }
    }

    fn index_of_key(&self, k: &UserId) -> (r: Option<usize>)
        ensures
            match r {
                Some(i) => 0 <= i < self@.len() && self@[i as int].0 == k@,
                None => !ou_has(self@, k@),
            },
    {
        let mut i: usize = 0;
        while i < self.entries.len()
            invariant
                i <= self.entries@.len(),
                self@.len() == self.entries@.len(),
                forall|j: int| 0 <= j < i ==> self@[j].0 != k@,
            decreases self.entries@.len() - i,
        {
            if self.entries[i].0.key_eq(k) {
                return Some(i);
            }
            i += 1;
        }
        None
    }

    pub fn contains_key(&self, k: &UserId) -> (r: bool)
        ensures
            r == ou_has(self@, k@),
    {
        self.index_of_key(k).is_some()
    }

    /// A copy of the appointment identifiers recorded for `k`.
    pub fn get(&self, k: &UserId) -> (r: Option<Vec<UUID>>)
        requires
            self.wf(),
        ensures
            match r {
                Some(uuids) => ou_has(self@, k@) && uuid_views(uuids@) == ou_value(self@, k@),
                None => !ou_has(self@, k@),
            },
    {
        match self.index_of_key(k) {
            Some(i) => {
                proof {
                    lemma_ou_index_unique(self@, i as int, k@);
                }
                Some(clone_uuid_list(&self.entries[i].1))
            },
            None => None,
        }
    }

    /// The user key of the `i`-th entry.
    pub fn key_at(&self, i: usize) -> (r: &UserId)
        requires
            i < self@.len(),
        ensures
            r@ == self@[i as int].0,
    {
        &self.entries[i].0
    }

    /// The appointment identifiers of the `i`-th entry.
    pub fn uuids_at(&self, i: usize) -> (r: &Vec<UUID>)
        requires
            i < self@.len(),
        ensures
            uuid_views(r@) == self@[i as int].1,
    {
        &self.entries[i].1
    }
}

impl Clone for OutdatedUsers {
    fn clone(&self) -> (r: Self)
        ensures
            r@ == self@,
    {
        let mut entries: Vec<(UserId, Vec<UUID>)> = Vec::new();
        let mut i: usize = 0;
        while i < self.entries.len()
            invariant
                i <= self.entries@.len(),
                self@.len() == self.entries@.len(),
                entries@.len() == i,
                forall|j: int|
                    0 <= j < i ==> entries@[j].0@ == self@[j].0 && uuid_views(entries@[j].1@)
                        == self@[j].1,
            decreases self.entries@.len() - i,
        {
            let uuids = clone_uuid_list(&self.entries[i].1);
            entries.push((self.entries[i].0.clone(), uuids));
            i += 1;
        }
        let r = OutdatedUsers { entries };
        proof {
            assert(r@ =~= self@);
        }
        r
    }
}

/// Cache of outdated users, one entry per block height, bounded in size by
/// its user (the gatekeeper).
pub struct OutdatedCache {
    pub entries: Vec<(u32, OutdatedUsers)>,
}

impl OutdatedCache {
    /// Heights are unique and every entry is itself well-formed.
    pub open spec fn wf(self) -> bool {
        &&& forall|i: int, j: int|
            0 <= i < j < self.entries@.len() ==> self.entries@[i].0 != self.entries@[j].0
        &&& forall|i: int| 0 <= i < self.entries@.len() ==> (#[trigger] self.entries@[i].1).wf()
    }

    pub open spec fn spec_len(self) -> nat {
        self.entries@.len()
    }

    pub open spec fn spec_has(self, h: u32) -> bool {
        exists|i: int| 0 <= i < self.entries@.len() && self.entries@[i].0 == h
    }

    pub open spec fn spec_index_of(self, h: u32) -> int {
        choose|i: int| 0 <= i < self.entries@.len() && self.entries@[i].0 == h
    }
}

impl View for OutdatedCache {
    type V = Map<u32, Seq<(Seq<u8>, Seq<Seq<u8>>)>>;

    open spec fn view(&self) -> Map<u32, Seq<(Seq<u8>, Seq<Seq<u8>>)>> {
        Map::new(
            |h: u32| self.spec_has(h),
            |h: u32| self.entries@[self.spec_index_of(h)].1@,
        )
    }
}

/// Every entry is present in the cache view under its own height.
pub proof fn lemma_cache_entry(c: OutdatedCache, i: int)
    requires
        c.wf(),
        0 <= i < c.entries@.len(),
    ensures
        c@.contains_key(c.entries@[i].0),
        c@[c.entries@[i].0] == c.entries@[i].1@,
        c.spec_index_of(c.entries@[i].0) == i,
{
    let h = c.entries@[i].0;
    assert(c.spec_has(h));
    let j = c.spec_index_of(h);
    assert(0 <= j < c.entries@.len() && c.entries@[j].0 == h);
    if i < j {
        assert(c.entries@[i].0 != c.entries@[j].0);
    }
    if j < i {
        assert(c.entries@[j].0 != c.entries@[i].0);
    }
}

impl OutdatedCache {
    pub fn new() -> (r: Self)
        ensures
            r.wf(),
            r@ == Map::<u32, Seq<(Seq<u8>, Seq<Seq<u8>>)>>::empty(),
            r.spec_len() == 0,
    {
        let r = OutdatedCache { entries: Vec::new() };
        proof {
            assert(r@ =~= Map::<u32, Seq<(Seq<u8>, Seq<Seq<u8>>)>>::empty());
        }
        r
    }

    pub fn len(&self) -> (r: usize)
        ensures
            r == self.spec_len(),
    {
        self.entries.len()
    }

    fn index_of_height(&self, h: u32) -> (r: Option<usize>)
        ensures
            match r {
                Some(i) => 0 <= i < self.entries@.len() && self.entries@[i as int].0 == h,
                None => !self.spec_has(h),
            },
    {
        let mut i: usize = 0;
        while i < self.entries.len()
            invariant
                i <= self.entries@.len(),
                forall|j: int| 0 <= j < i ==> self.entries@[j].0 != h,
            decreases self.entries@.len() - i,
        {
            if self.entries[i].0 == h {
                return Some(i);
            }
            i += 1;
        }
        None
    }

    pub fn contains_key(&self, h: u32) -> (r: bool)
        requires
            self.wf(),
        ensures
            r == self@.contains_key(h),
    {
        match self.index_of_height(h) {
            Some(i) => {
                proof {
                    lemma_cache_entry(*self, i as int);
                }
                true
            },
            None => false,
        }
    }

    /// A copy of the entry at height `h`.
    pub fn get(&self, h: u32) -> (r: Option<OutdatedUsers>)
        requires
            self.wf(),
        ensures
            match r {
                Some(users) => self@.contains_key(h) && users@ == self@[h] && users.wf(),
                None => !self@.contains_key(h),
            },
    {
        match self.index_of_height(h) {
            Some(i) => {
                proof {
                    lemma_cache_entry(*self, i as int);
                }
                Some(self.entries[i].1.clone())
            },
            None => None,
        }
    }

    /// Adds an entry at a height not cached yet.
    pub fn insert_new(&mut self, h: u32, users: OutdatedUsers)
        requires
            old(self).wf(),
            !old(self)@.contains_key(h),
            users.wf(),
        ensures
            final(self).wf(),
            final(self)@ == old(self)@.insert(h, users@),
            final(self).spec_len() == old(self).spec_len() + 1,
    {
        let ghost pre = *old(self);
        let ghost uv = users@;
        self.entries.push((h, users));
        proof {
            let n = pre.entries@.len() as int;
            assert(self.entries@ =~= pre.entries@.push((h, self.entries@[n].1)));
            assert(self.entries@[n].0 == h && self.entries@[n].1@ == uv);
            assert(forall|a: int| 0 <= a < n ==> self.entries@[a] == pre.entries@[a]);
            assert(forall|a: int| 0 <= a < n ==> pre.entries@[a].0 != h) by {
                assert(forall|a: int|
                    0 <= a < n && pre.entries@[a].0 == h ==> pre.spec_has(h));
            }
            assert(self.wf());
            assert forall|h2: u32| h2 != h implies self.spec_has(h2) == pre.spec_has(h2) by {
                if self.spec_has(h2) {
                    let w = choose|w: int|
                        0 <= w < self.entries@.len() && self.entries@[w].0 == h2;
                    assert(w != n);
                    assert(pre.entries@[w].0 == h2);
                }
                if pre.spec_has(h2) {
                    let w = choose|w: int| 0 <= w < n && pre.entries@[w].0 == h2;
                    assert(self.entries@[w].0 == h2);
                }
            }
            assert forall|h2: u32| #[trigger] self@.contains_key(h2) implies self@[h2]
                == old(self)@.insert(h, uv)[h2] by {
                if h2 == h {
                    lemma_cache_entry(*self, n);
                } else {
                    let j = pre.spec_index_of(h2);
                    assert(0 <= j < n && pre.entries@[j].0 == h2);
                    lemma_cache_entry(pre, j);
                    lemma_cache_entry(*self, j);
                }
            }
            assert(self@ =~= old(self)@.insert(h, uv));
        }
    }

    /// The lowest height present in the cache.
    pub fn min_key(&self) -> (r: u32)
        requires
            self.wf(),
            self.spec_len() > 0,
        ensures
            self@.contains_key(r),
            forall|h: u32| self@.contains_key(h) ==> r <= h,
    {
        let mut best: u32 = self.entries[0].0;
        let mut i: usize = 1;
        proof {
            lemma_cache_entry(*self, 0);
        }
        while i < self.entries.len()
            invariant
                1 <= i <= self.entries@.len(),
                self.wf(),
                self@.contains_key(best),
                forall|j: int| 0 <= j < i ==> best <= self.entries@[j].0,
            decreases self.entries@.len() - i,
        {
            if self.entries[i].0 < best {
                best = self.entries[i].0;
                proof {
                    lemma_cache_entry(*self, i as int);
                }
            }
            i += 1;
        }
        proof {
            assert forall|h: u32| self@.contains_key(h) implies best <= h by {
                let w = self.spec_index_of(h);
                assert(0 <= w < self.entries@.len() && self.entries@[w].0 == h);
            }
        }
        best
    }

    /// Removes and returns the entry at height `h`.
    pub fn remove(&mut self, h: u32) -> (r: OutdatedUsers)
        requires
            old(self).wf(),
            old(self)@.contains_key(h),
        ensures
            final(self).wf(),
            final(self)@ == old(self)@.remove(h),
            final(self).spec_len() == old(self).spec_len() - 1,
            r@ == old(self)@[h],
            r.wf(),
    {
        let ghost pre = *old(self);
        match self.index_of_height(h) {
            Some(i) => {
                proof {
                    lemma_cache_entry(pre, i as int);
                }
                let entry = self.entries.remove(i);
                proof {
                    let pe = pre.entries@;
                    let post = self.entries@;
                    assert(post =~= pe.remove(i as int));
                    assert(forall|a: int| 0 <= a < i ==> post[a] == pe[a]);
                    assert(forall|a: int| i <= a < post.len() ==> post[a] == pe[a + 1]);
                    assert(self.wf());
                    assert(!self.spec_has(h)) by {
                        if self.spec_has(h) {
                            let w = choose|w: int| 0 <= w < post.len() && post[w].0 == h;
                            if w < i {
                                assert(pe[w].0 == h);
                                lemma_cache_entry(pre, w);
                            } else {
                                assert(pe[w + 1].0 == h);
                                lemma_cache_entry(pre, w + 1);
                            }
                        }
                    }
                    assert forall|h2: u32|
                        h2 != h implies self.spec_has(h2) == pre.spec_has(h2) by {
                        if self.spec_has(h2) {
                            let w = choose|w: int| 0 <= w < post.len() && post[w].0 == h2;
                            if w < i {
                                assert(pe[w].0 == h2);
                            } else {
                                assert(pe[w + 1].0 == h2);
                            }
                        }
                        if pre.spec_has(h2) {
                            let w = choose|w: int| 0 <= w < pe.len() && pe[w].0 == h2;
                            assert(w != i);
                            if w < i {
                                assert(post[w].0 == h2);
                            } else {
                                assert(post[w - 1].0 == h2);
                            }
                        }
                    }
                    assert forall|h2: u32| #[trigger] self@.contains_key(h2) implies self@[h2]
                        == pre@.remove(h)[h2] by {
                        let j = pre.spec_index_of(h2);
                        assert(0 <= j < pe.len() && pe[j].0 == h2);
                        assert(j != i);
                        lemma_cache_entry(pre, j);
                        if j < i {
                            lemma_cache_entry(*self, j);
                        } else {
                            assert(post[j - 1] == pe[j]);
                            lemma_cache_entry(*self, j - 1);
                        }
                    }
                    assert(self@ =~= pre@.remove(h));
                }
                entry.1
            },
            None => {
                proof {
                    assert(false);
                }
                OutdatedUsers::new()
            },
        }
    }
}

} // verus!

//! Appointment bookkeeping for a single user.
//!
//! The gatekeeper never looks inside appointments: it stores, per user, the
//! identifier of each appointment together with the number of subscription
//! slots it consumes. The table is a vector of pairs with unique keys; its
//! view is the sequence of (identifier bytes, slots) pairs, which keeps both
//! lookup structure and insertion order.

use vstd::prelude::*;

use crate::ids::{bytes_eq, clone_bytes, UUID};

verus! {

/// What the gatekeeper reads of an appointment: the encrypted payload a user
/// asks the tower to hold. Slot cost is a function of the blob length alone.
pub struct AppointmentRef {
    pub encrypted_blob: Vec<u8>,
}

impl AppointmentRef {
    pub fn new(encrypted_blob: Vec<u8>) -> (r: Self)
        ensures
            r.encrypted_blob@ == encrypted_blob@,
    {
        AppointmentRef { encrypted_blob }
    }

    /// The encrypted payload this appointment refers to.
    pub fn encrypted_blob(&self) -> (r: &Vec<u8>)
        ensures
            r@ == self.encrypted_blob@,
    {
        &self.encrypted_blob
    }
}

/// No two entries share a key.
pub open spec fn appt_unique(s: Seq<(Seq<u8>, u32)>) -> bool {
    forall|i: int, j: int| 0 <= i < j < s.len() ==> s[i].0 != s[j].0
}

/// Some entry has key `k`.
pub open spec fn appt_has(s: Seq<(Seq<u8>, u32)>, k: Seq<u8>) -> bool {
    exists|i: int| 0 <= i < s.len() && s[i].0 == k
}

/// The index of the entry with key `k` (unique when `appt_unique` holds).
pub open spec fn appt_index_of(s: Seq<(Seq<u8>, u32)>, k: Seq<u8>) -> int {
    choose|i: int| 0 <= i < s.len() && s[i].0 == k
}

/// The slots recorded for key `k`.
pub open spec fn appt_value(s: Seq<(Seq<u8>, u32)>, k: Seq<u8>) -> u32 {
    s[appt_index_of(s, k)].1
}

/// The keys of the table, in table order.
pub open spec fn appt_keys(s: Seq<(Seq<u8>, u32)>) -> Seq<Seq<u8>> {
    s.map_values(|e: (Seq<u8>, u32)| e.0)
}

/// Total number of slots consumed by the table.
pub open spec fn appt_sum(s: Seq<(Seq<u8>, u32)>) -> int
    decreases s.len(),
{
    if s.len() == 0 {
        0
    } else {
        appt_sum(s.drop_last()) + s.last().1
    }
}

/// The table after binding `k` to `v`: updated in place when present,
/// appended otherwise.
pub open spec fn appt_set(s: Seq<(Seq<u8>, u32)>, k: Seq<u8>, v: u32) -> Seq<(Seq<u8>, u32)> {
    if appt_has(s, k) {
        s.update(appt_index_of(s, k), (k, v))
    } else {
        s.push((k, v))
    }
}

/// The table after unbinding `k` (unchanged when absent).
pub open spec fn appt_remove(s: Seq<(Seq<u8>, u32)>, k: Seq<u8>) -> Seq<(Seq<u8>, u32)> {
    if appt_has(s, k) {
        s.remove(appt_index_of(s, k))
    } else {
        s
    }
}

/// An index holding key `k` is the index `appt_index_of` denotes.
pub proof fn lemma_appt_index_unique(s: Seq<(Seq<u8>, u32)>, i: int, k: Seq<u8>)
    requires
        appt_unique(s),
        0 <= i < s.len(),
        s[i].0 == k,
    ensures
        appt_has(s, k),
        appt_index_of(s, k) == i,
        appt_value(s, k) == s[i].1,
{
    assert(appt_has(s, k));
    let j = appt_index_of(s, k);
    assert(0 <= j < s.len() && s[j].0 == k);
    if i < j {
        assert(s[i].0 != s[j].0);
    }
    if j < i {
        assert(s[j].0 != s[i].0);
    }
}

pub proof fn lemma_appt_sum_push(s: Seq<(Seq<u8>, u32)>, x: (Seq<u8>, u32))
    ensures
        appt_sum(s.push(x)) == appt_sum(s) + x.1,
{
    assert(s.push(x).drop_last() =~= s);
    assert(s.push(x).last() == x);
}

pub proof fn lemma_appt_sum_update(s: Seq<(Seq<u8>, u32)>, i: int, x: (Seq<u8>, u32))
    requires
        0 <= i < s.len(),
    ensures
        appt_sum(s.update(i, x)) == appt_sum(s) - s[i].1 + x.1,
    decreases s.len(),
{
    if i == s.len() - 1 {
        assert(s.update(i, x).drop_last() =~= s.drop_last());
        assert(s.update(i, x).last() == x);
    } else {
        assert(s.update(i, x).drop_last() =~= s.drop_last().update(i, x));
        lemma_appt_sum_update(s.drop_last(), i, x);
        assert(s.update(i, x).last() == s.last());
    }
}

pub proof fn lemma_appt_sum_remove(s: Seq<(Seq<u8>, u32)>, i: int)
    requires
        0 <= i < s.len(),
    ensures
        appt_sum(s.remove(i)) == appt_sum(s) - s[i].1,
    decreases s.len(),
{
    if i == s.len() - 1 {
        assert(s.remove(i) =~= s.drop_last());
    } else {
        assert(s.remove(i).drop_last() =~= s.drop_last().remove(i));
        lemma_appt_sum_remove(s.drop_last(), i);
        assert(s.remove(i).last() == s.last());
    }
}

/// How `appt_set` changes membership, values, keys and the slot total.
pub proof fn lemma_appt_set_props(s: Seq<(Seq<u8>, u32)>, k: Seq<u8>, v: u32)
    requires
        appt_unique(s),
    ensures
        appt_unique(appt_set(s, k, v)),
        appt_has(appt_set(s, k, v), k),
        appt_value(appt_set(s, k, v), k) == v,
        forall|k2: Seq<u8>| k2 != k ==> appt_has(appt_set(s, k, v), k2) == appt_has(s, k2),
        forall|k2: Seq<u8>|
            k2 != k && appt_has(s, k2) ==> appt_value(appt_set(s, k, v), k2) == appt_value(s, k2),
        appt_sum(appt_set(s, k, v)) == appt_sum(s) - (
        if appt_has(s, k) {
            appt_value(s, k) as int
        } else {
            0
        }) + v,
        appt_keys(appt_set(s, k, v)) == (
        if appt_has(s, k) {
            appt_keys(s)
        } else {
            appt_keys(s).push(k)
        }),
{
    let s2 = appt_set(s, k, v);
    if appt_has(s, k) {
        let i = appt_index_of(s, k);
        assert(0 <= i < s.len() && s[i].0 == k);
        assert(appt_keys(s2) =~= appt_keys(s));
        assert(appt_unique(s2)) by {
            assert(forall|a: int, b: int|
                0 <= a < b < s2.len() ==> s2[a].0 == s[a].0 && s2[b].0 == s[b].0);
        }
        lemma_appt_index_unique(s2, i, k);
        lemma_appt_sum_update(s, i, (k, v));
        assert(forall|k2: Seq<u8>| k2 != k && appt_has(s, k2) ==> appt_has(s2, k2)) by {
            assert(forall|k2: Seq<u8>|
                k2 != k && appt_has(s, k2) ==> s2[appt_index_of(s, k2)].0 == k2);
        }
        assert(forall|k2: Seq<u8>| k2 != k && appt_has(s2, k2) ==> appt_has(s, k2)) by {
            assert(forall|k2: Seq<u8>|
                k2 != k && appt_has(s2, k2) ==> s[appt_index_of(s2, k2)].0 == k2);
        }
        assert forall|k2: Seq<u8>| k2 != k && appt_has(s, k2) implies appt_value(s2, k2)
            == appt_value(s, k2) by {
            let j = appt_index_of(s, k2);
            assert(0 <= j < s.len() && s[j].0 == k2);
            assert(j != i);
            assert(s2[j] == s[j]);
            lemma_appt_index_unique(s2, j, k2);
        }
    } else {
        assert(s2 =~= s.push((k, v)));
        assert(appt_unique(s2)) by {
            assert(forall|a: int| 0 <= a < s.len() ==> s2[a] == s[a]);
            assert(forall|a: int| 0 <= a < s.len() ==> s[a].0 != k) by {
                assert(forall|a: int| 0 <= a < s.len() && s[a].0 == k ==> appt_has(s, k));
            }
        }
        lemma_appt_index_unique(s2, s.len() as int, k);
        lemma_appt_sum_push(s, (k, v));
        assert(appt_keys(s2) =~= appt_keys(s).push(k));
        assert(forall|k2: Seq<u8>| k2 != k && appt_has(s, k2) ==> appt_has(s2, k2)) by {
            assert(forall|k2: Seq<u8>|
                k2 != k && appt_has(s, k2) ==> s2[appt_index_of(s, k2)].0 == k2);
        }
        assert forall|k2: Seq<u8>| k2 != k && appt_has(s2, k2) implies appt_has(s, k2) by {
            let j = appt_index_of(s2, k2);
            assert(0 <= j < s2.len() && s2[j].0 == k2);
            assert(j != s.len());
            assert(s2[j] == s[j]);
        }
        assert forall|k2: Seq<u8>| k2 != k && appt_has(s, k2) implies appt_value(s2, k2)
            == appt_value(s, k2) by {
            let j = appt_index_of(s, k2);
            assert(0 <= j < s.len() && s[j].0 == k2);
            assert(s2[j] == s[j]);
            lemma_appt_index_unique(s2, j, k2);
        }
    }
}

/// How `appt_remove` changes membership, values and the slot total.
pub proof fn lemma_appt_remove_props(s: Seq<(Seq<u8>, u32)>, k: Seq<u8>)
    requires
        appt_unique(s),
        appt_has(s, k),
    ensures
        appt_unique(appt_remove(s, k)),
        !appt_has(appt_remove(s, k), k),
        forall|k2: Seq<u8>| k2 != k ==> appt_has(appt_remove(s, k), k2) == appt_has(s, k2),
        forall|k2: Seq<u8>|
            k2 != k && appt_has(s, k2) ==> appt_value(appt_remove(s, k), k2) == appt_value(
                s,
                k2,
            ),
        appt_sum(appt_remove(s, k)) == appt_sum(s) - appt_value(s, k),
{
    let i = appt_index_of(s, k);
    assert(0 <= i < s.len() && s[i].0 == k);
    let s2 = appt_remove(s, k);
    assert(s2 =~= s.remove(i));
    lemma_appt_sum_remove(s, i);
    assert(forall|a: int| 0 <= a < i ==> s2[a] == s[a]);
    assert(forall|a: int| i <= a < s2.len() ==> s2[a] == s[a + 1]);
    assert(appt_unique(s2));
    assert(!appt_has(s2, k)) by {
        if appt_has(s2, k) {
            let j = appt_index_of(s2, k);
            assert(0 <= j < s2.len() && s2[j].0 == k);
            if j < i {
                assert(s[j].0 == k);
                lemma_appt_index_unique(s, j, k);
            } else {
                assert(s[j + 1].0 == k);
                lemma_appt_index_unique(s, j + 1, k);
            }
        }
    }
    assert forall|k2: Seq<u8>| k2 != k && appt_has(s, k2) implies appt_has(s2, k2)
        && appt_value(s2, k2) == appt_value(s, k2) by {
        let j = appt_index_of(s, k2);
        assert(0 <= j < s.len() && s[j].0 == k2);
        assert(j != i);
        if j < i {
            assert(s2[j].0 == k2);
            lemma_appt_index_unique(s2, j, k2);
        } else {
            assert(s2[j - 1].0 == k2);
            lemma_appt_index_unique(s2, j - 1, k2);
        }
    }
    assert forall|k2: Seq<u8>| k2 != k && appt_has(s2, k2) implies appt_has(s, k2) by {
        let j = appt_index_of(s2, k2);
        assert(0 <= j < s2.len() && s2[j].0 == k2);
        if j < i {
            assert(s[j].0 == k2);
        } else {
            assert(s[j + 1].0 == k2);
        }
    }
}

/// Per-user table mapping appointment identifiers to the slots they consume.
pub struct AppointmentSlots {
    pub entries: Vec<(UUID, u32)>,
}

impl View for AppointmentSlots {
    type V = Seq<(Seq<u8>, u32)>;

    open spec fn view(&self) -> Seq<(Seq<u8>, u32)> {
        self.entries@.map_values(|e: (UUID, u32)| (e.0@, e.1))
    }
}

impl AppointmentSlots {
    pub open spec fn wf(self) -> bool {
        appt_unique(self@)
    }

    pub fn new() -> (r: Self)
        ensures
            r@ == Seq::<(Seq<u8>, u32)>::empty(),
            r.wf(),
    {
        let r = AppointmentSlots { entries: Vec::new() };
        proof {
            assert(r@ =~= Seq::<(Seq<u8>, u32)>::empty());
        }
        r
    }

    fn index_of_key(&self, uuid: &UUID) -> (r: Option<usize>)
        ensures
            match r {
                Some(i) => 0 <= i < self@.len() && self@[i as int].0 == uuid@,
                None => !appt_has(self@, uuid@),
            },
    {
        let mut i: usize = 0;
        while i < self.entries.len()
            invariant
                i <= self@.len(),
                self@.len() == self.entries@.len(),
                forall|j: int| 0 <= j < i ==> self@[j].0 != uuid@,
            decreases self@.len() - i,
        {
            if bytes_eq(&self.entries[i].0.0, &uuid.0) {
                return Some(i);
            }
            i += 1;
        }
        None
    }

    pub fn contains_key(&self, uuid: &UUID) -> (r: bool)
        ensures
            r == appt_has(self@, uuid@),
    {
        self.index_of_key(uuid).is_some()
    }

    pub fn get(&self, uuid: &UUID) -> (r: Option<u32>)
        requires
            self.wf(),
        ensures
            r == (if appt_has(self@, uuid@) {
                Some(appt_value(self@, uuid@))
            } else {
                None::<u32>
            }),
    {
        match self.index_of_key(uuid) {
            Some(i) => {
                proof {
                    lemma_appt_index_unique(self@, i as int, uuid@);
                }
                Some(self.entries[i].1)
            },
            None => None,
        }
    }

    pub fn len(&self) -> (r: usize)
        ensures
            r == self@.len(),
    {
        self.entries.len()
    }

    /// Binds `uuid` to `slots`, replacing any previous binding.
    pub fn set(&mut self, uuid: &UUID, slots: u32)
        requires
            old(self).wf(),
        ensures
            final(self).wf(),
            final(self)@ == appt_set(old(self)@, uuid@, slots),
    {
        proof {
            lemma_appt_set_props(old(self)@, uuid@, slots);
        }
        match self.index_of_key(uuid) {
            Some(i) => {
                let entry = self.entries.remove(i);
                self.entries.insert(i, (entry.0, slots));
                proof {
                    lemma_appt_index_unique(old(self)@, i as int, uuid@);
                    assert(self@ =~= old(self)@.update(i as int, (uuid@, slots)));
                }
            },
            None => {
                self.entries.push((UUID(clone_bytes(&uuid.0)), slots));
                proof {
                    assert(self@ =~= old(self)@.push((uuid@, slots)));
                }
            },
        }
    }

    /// Unbinds `uuid`, returning the slots it consumed, if it was bound.
    pub fn remove(&mut self, uuid: &UUID) -> (r: Option<u32>)
        requires
            old(self).wf(),
        ensures
            final(self).wf(),
            final(self)@ == appt_remove(old(self)@, uuid@),
            r == (if appt_has(old(self)@, uuid@) {
                Some(appt_value(old(self)@, uuid@))
            } else {
                None::<u32>
            }),
    {
        match self.index_of_key(uuid) {
            Some(i) => {
                proof {
                    lemma_appt_index_unique(old(self)@, i as int, uuid@);
                    lemma_appt_remove_props(old(self)@, uuid@);
                }
                let entry = self.entries.remove(i);
                proof {
                    assert(self@ =~= old(self)@.remove(i as int));
                }
                Some(entry.1)
            },
            None => None,
        }
    }

    /// The appointment identifiers in table order.
    pub fn key_list(&self) -> (r: Vec<UUID>)
        ensures
            r@.len() == self@.len(),
            forall|i: int| 0 <= i < r@.len() ==> r@[i]@ == self@[i].0,
    {
        let mut r: Vec<UUID> = Vec::new();
        let mut i: usize = 0;
        while i < self.entries.len()
            invariant
                i <= self@.len(),
                self@.len() == self.entries@.len(),
                r@.len() == i,
                forall|j: int| 0 <= j < i ==> r@[j]@ == self@[j].0,
            decreases self@.len() - i,
        {
            r.push(UUID(clone_bytes(&self.entries[i].0.0)));
            i += 1;
        }
        r
    }

    /// View-level equality test, used by `UserInfo`'s equality.
    pub fn entries_eq(&self, other: &Self) -> (r: bool)
        ensures
            r == (self@ == other@),
    {
        if self.entries.len() != other.entries.len() {
            proof {
                assert(self@.len() != other@.len());
            }
            return false;
        }
        let mut i: usize = 0;
        while i < self.entries.len()
            invariant
                i <= self@.len(),
                self@.len() == self.entries@.len(),
                other@.len() == other.entries@.len(),
                self@.len() == other@.len(),
                forall|j: int| 0 <= j < i ==> self@[j] == other@[j],
            decreases self@.len() - i,
        {
            if !bytes_eq(&self.entries[i].0.0, &other.entries[i].0.0) {
                proof {
                    assert(self@[i as int].0 != other@[i as int].0);
                }
                return false;
            }
            if self.entries[i].1 != other.entries[i].1 {
                proof {
                    assert(self@[i as int].1 != other@[i as int].1);
                }
                return false;
            }
            i += 1;
        }
        proof {
            assert(self@ =~= other@);
        }
        true
    }
}

impl Clone for AppointmentSlots {
    fn clone(&self) -> (r: Self)
        ensures
            r@ == self@,
    {
        let mut entries: Vec<(UUID, u32)> = Vec::new();
        let mut i: usize = 0;
        while i < self.entries.len()
            invariant
                i <= self.entries@.len(),
                entries@.len() == i,
                forall|j: int|
                    0 <= j < i ==> entries@[j].0@ == self.entries@[j].0@ && entries@[j].1
                        == self.entries@[j].1,
            decreases self.entries@.len() - i,
        {
            let slots = self.entries[i].1;
            entries.push((UUID(clone_bytes(&self.entries[i].0.0)), slots));
            i += 1;
        }
        let r = AppointmentSlots { entries };
        proof {
            assert(r@ =~= self@);
        }
        r
    }
}

} // verus!

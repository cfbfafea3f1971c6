//! The gatekeeper: the component in charge of managing access to the tower
//! resources.
//!
//! It keeps track of user subscriptions, authenticates requests, enforces
//! the slot quota, expires subscriptions against the blockchain height and
//! mirrors every mutation into the durable user store.

use vstd::prelude::*;

use crate::appointment::{appt_keys, appt_sum, AppointmentRef};
use crate::crypto::recovered_pk_of;
use crate::ids::{clone_bytes, UserId, UUID};
use crate::outdated::{
    ou_has, ou_key_in_prefix, ou_lists_appt, ou_unique, ou_value, uuid_views, OutdatedCache,
    OutdatedUsers,
};
use crate::receipts::RegistrationReceipt;
use crate::store::UserStore;
use crate::user_info::{
    appt_dropped, appt_updated, fresh_user, lemma_appt_dropped_wf, renewed, user_wf, UserInfo,
    UserInfoV,
};
use crate::user_map::{lemma_user_map_entry, UserMap};
use crate::{
    compute_appointment_slots, spec_appointment_slots, ENCRYPTED_BLOB_MAX_SIZE,
    OUTDATED_USERS_CACHE_SIZE_BLOCKS,
};

verus! {

/// Error raised if the user cannot be authenticated.
#[derive(Debug, PartialEq, Eq)]
pub struct AuthenticationFailure(pub &'static str);

/// Error raised if the user subscription has not enough slots to fit a new
/// appointment.
#[derive(Debug, PartialEq, Eq)]
pub struct NotEnoughSlots;

/// Error raised if the user subscription slots limit has been reached.
///
/// The limit is `u32::MAX`.
#[derive(Debug, PartialEq, Eq)]
pub struct MaxSlotsReached;

/// A user is outdated at `height` exactly when its expiry plus the grace
/// window equals `height`.
pub open spec fn outdated_at(v: UserInfoV, expiry_delta: u32, height: u32) -> bool {
    v.subscription_expiry + expiry_delta == height
}

/// Component in charge of managing access to the tower resources.
///
/// A user is only allowed to send data to or request data from the tower
/// while it has an ongoing subscription with available slots. This is the
/// only component with knowledge of users; every other component queries it.
pub struct Gatekeeper {
    /// Height of the last block known to the gatekeeper; the clock.
    pub last_known_height: u32,
    /// Number of slots new subscriptions (and renewals) grant.
    pub subscription_slots: u32,
    /// Blocks a subscription lasts, counted from the current height.
    pub subscription_duration: u32,
    /// Grace period given to renew subscriptions, in blocks.
    pub expiry_delta: u32,
    /// Users registered with the tower.
    pub registered_users: UserMap,
    /// Users whose subscription has been outdated, per height. Kept so other
    /// components can perform the necessary cleanups when deleting data.
    pub outdated_users_cache: OutdatedCache,
    /// The durable user store every mutation is mirrored into.
    pub dbm: UserStore,
}

impl Gatekeeper {
    /// Every registered user satisfies the slot ledger, the cache is within
    /// its bound, and all maps have unique keys.
    pub open spec fn wf(self) -> bool {
        &&& self.registered_users.wf()
        &&& forall|k: Seq<u8>| #[trigger]
            self.registered_users@.contains_key(k) ==> user_wf(self.registered_users@[k])
        &&& self.outdated_users_cache.wf()
        &&& self.outdated_users_cache.spec_len() <= OUTDATED_USERS_CACHE_SIZE_BLOCKS
        &&& self.dbm.wf()
    }

    /// The configuration fields a mutation never touches.
    pub open spec fn same_config(self, other: Gatekeeper) -> bool {
        &&& self.last_known_height == other.last_known_height
        &&& self.subscription_slots == other.subscription_slots
        &&& self.subscription_duration == other.subscription_duration
        &&& self.expiry_delta == other.expiry_delta
    }

    /// Creates a new gatekeeper with no users, an empty cache and an empty
    /// durable store.
    pub fn new(
        last_known_height: u32,
        subscription_slots: u32,
        subscription_duration: u32,
        expiry_delta: u32,
    ) -> (r: Self)
        ensures
            r.wf(),
            r.last_known_height == last_known_height,
            r.subscription_slots == subscription_slots,
            r.subscription_duration == subscription_duration,
            r.expiry_delta == expiry_delta,
            r.registered_users@ == Map::<Seq<u8>, UserInfoV>::empty(),
            r.outdated_users_cache.spec_len() == 0,
            r.dbm@ == Map::<Seq<u8>, UserInfoV>::empty(),
    {
        Gatekeeper {
            last_known_height,
            subscription_slots,
            subscription_duration,
            expiry_delta,
            registered_users: UserMap::new(),
            outdated_users_cache: OutdatedCache::new(),
            dbm: UserStore::new(),
        }
    }

    /// Authenticates a user.
    ///
    /// Recovers the signer's public key from the message and signature; the
    /// recovered key is the requester's identity, accepted when registered.
    pub fn authenticate_user(&self, message: &[u8], signature: &str) -> (r: Result<
        UserId,
        AuthenticationFailure,
    >)
        requires
            self.wf(),
        ensures
            match recovered_pk_of(message@, signature@) {
                Option::None => r matches Err(e) && e.0@ == "Wrong message or signature."@,
                Option::Some(pk) => {
                    if self.registered_users@.contains_key(pk) {
                        r matches Ok(uid) && uid@ == pk
                    } else {
                        r matches Err(e) && e.0@ == "User not found."@
                    }
                },
            },
    {
        match crate::crypto::recover_pk_bytes(message, signature) {
            Some(pk_bytes) => {
                let user_id = UserId(pk_bytes);
                if self.registered_users.contains_key(&user_id) {
                    Ok(user_id)
                } else {
                    Err(AuthenticationFailure("User not found."))
                }
            },
            None => Err(AuthenticationFailure("Wrong message or signature.")),
        }
    }

    /// Adds a new user to the tower, or renews its subscription if it is
    /// already registered.
    ///
    /// A renewal grants `subscription_slots` further slots and resets the
    /// expiry to the current height plus `subscription_duration`; it fails
    /// with `MaxSlotsReached`, changing nothing, when the quota would pass
    /// `u32::MAX`. The durable record is written on success (upserted: an
    /// outdated user that re-registers may still have a record around).
    pub fn add_update_user(&mut self, user_id: &UserId) -> (r: Result<
        RegistrationReceipt,
        MaxSlotsReached,
    >)
        requires
            old(self).wf(),
            old(self).last_known_height + old(self).subscription_duration <= u32::MAX,
        ensures
            final(self).wf(),
            final(self).same_config(*old(self)),
            final(self).outdated_users_cache == old(self).outdated_users_cache,
            ({
                let pre = old(self).registered_users@;
                let slots = old(self).subscription_slots;
                let expiry = (old(self).last_known_height + old(self).subscription_duration)
                    as u32;
                let post_info = if !pre.contains_key(user_id@) {
                    Option::Some(fresh_user(slots, expiry))
                } else {
                    renewed(pre[user_id@], slots, expiry)
                };
                match post_info {
                    Option::Some(info) => {
                        &&& (r matches Ok(receipt) && receipt.user_id@ == user_id@
                            && receipt.available_slots == info.available_slots
                            && receipt.subscription_expiry == expiry)
                        &&& final(self).registered_users@ == pre.insert(user_id@, info)
                        &&& final(self).dbm@ == old(self).dbm@.insert(user_id@, info)
                    },
                    Option::None => {
                        &&& r is Err
                        &&& final(self).registered_users@ == pre
                        &&& final(self).dbm@ == old(self).dbm@
                    },
                }
            }),
    {
        let block_count = self.last_known_height;
        let expiry = block_count + self.subscription_duration;
        match self.registered_users.get(user_id) {
            Some(info) => {
                // Existing user: renew.
                match info.available_slots.checked_add(self.subscription_slots) {
                    Some(new_slots) => {
                        let new_info = UserInfo {
                            available_slots: new_slots,
                            subscription_expiry: expiry,
                            appointments: info.appointments,
                            granted: Ghost(info.granted@ + self.subscription_slots as int),
                        };
                        self.dbm.update_user(user_id, &new_info);
                        proof {
                            let pre = old(self).registered_users@;
                            assert(new_info@ =~= renewed(
                                pre[user_id@],
                                old(self).subscription_slots,
                                expiry,
                            ).unwrap());
                        }
                        let ghost post_v = new_info@;
                        self.registered_users.set(user_id, new_info);
                        proof {
                            let pre = old(self).registered_users@;
                            crate::user_info::lemma_renewed_wf(
                                pre[user_id@],
                                old(self).subscription_slots,
                                expiry,
                            );
                            self.lemma_wf_after_user_update(*old(self), user_id@, post_v);
                        }
                        Ok(RegistrationReceipt::new(user_id.clone(), new_slots, expiry))
                    },
                    None => Err(MaxSlotsReached),
                }
            },
            None => {
                // New user.
                let new_info = UserInfo::new(self.subscription_slots, expiry);
                self.dbm.update_user(user_id, &new_info);
                let slots = self.subscription_slots;
                let ghost post_v = new_info@;
                self.registered_users.set(user_id, new_info);
                proof {
                    self.lemma_wf_after_user_update(*old(self), user_id@, post_v);
                }
                Ok(RegistrationReceipt::new(user_id.clone(), slots, expiry))
            },
        }
    }

    /// After replacing one user by a well-formed state in a well-formed
    /// gatekeeper, the gatekeeper is well-formed again.
    proof fn lemma_wf_after_user_update(self, pre: Gatekeeper, k: Seq<u8>, v: UserInfoV)
        requires
            pre.wf(),
            self.registered_users.wf(),
            self.outdated_users_cache == pre.outdated_users_cache,
            self.dbm.wf(),
            user_wf(v),
            self.registered_users@ == pre.registered_users@.insert(k, v),
        ensures
            self.wf(),
    {
        assert forall|k2: Seq<u8>| #[trigger]
            self.registered_users@.contains_key(k2) implies user_wf(
            self.registered_users@[k2],
        ) by {
            if k2 == k {
                assert(self.registered_users@[k2] == v);
            } else {
                assert(pre.registered_users@.contains_key(k2));
                assert(self.registered_users@[k2] == pre.registered_users@[k2]);
            }
        }
    }

    /// Adds an appointment to a given user, or updates it if already present
    /// (and belonging to the requester).
    ///
    /// The appointment is charged `required` slots, where `required` covers
    /// the encrypted blob in units of `ENCRYPTED_BLOB_MAX_SIZE`; on an
    /// update, only the difference with the slots already held is charged
    /// (or refunded). Fails with `NotEnoughSlots`, changing nothing, when
    /// the difference exceeds the available quota (or a refund would push
    /// it past `u32::MAX`). Callers are expected to have authenticated the
    /// user first: the user must be registered.
    pub fn add_update_appointment(
        &mut self,
        user_id: &UserId,
        uuid: &UUID,
        appointment: &AppointmentRef,
    ) -> (r: Result<u32, NotEnoughSlots>)
        requires
            old(self).wf(),
            old(self).registered_users@.contains_key(user_id@),
        ensures
            final(self).wf(),
            final(self).same_config(*old(self)),
            final(self).outdated_users_cache == old(self).outdated_users_cache,
            ({
                let pre = old(self).registered_users@;
                let required = spec_appointment_slots(
                    appointment.encrypted_blob@.len(),
                    ENCRYPTED_BLOB_MAX_SIZE as nat,
                ) as u32;
                match appt_updated(pre[user_id@], uuid@, required) {
                    Option::Some(post) => {
                        &&& r == Ok::<u32, NotEnoughSlots>(post.available_slots)
                        &&& final(self).registered_users@ == pre.insert(user_id@, post)
                        &&& final(self).dbm@ == old(self).dbm@.insert(user_id@, post)
                    },
                    Option::None => {
                        &&& r is Err
                        &&& final(self).registered_users@ == pre
                        &&& final(self).dbm@ == old(self).dbm@
                    },
                }
            }),
    {
        let info = self.registered_users.get(user_id).unwrap();
        let used: u32 = match info.appointments.get(uuid) {
            Some(x) => x,
            None => 0,
        };
        let required = compute_appointment_slots(
            appointment.encrypted_blob.len(),
            ENCRYPTED_BLOB_MAX_SIZE,
        );

        // For updates, the difference between the existing appointment size
        // and the update is charged; a negative difference is a refund.
        let diff: i64 = required as i64 - used as i64;
        if diff <= info.available_slots as i64 && info.available_slots as i64 - diff
            <= u32::MAX as i64 {
            let new_avail = (info.available_slots as i64 - diff) as u32;
            let mut new_info = info;
            new_info.appointments.set(uuid, required);
            new_info.available_slots = new_avail;
            proof {
                let pre = old(self).registered_users@;
                crate::user_info::lemma_appt_updated_wf(pre[user_id@], uuid@, required);
                assert(new_info@ =~= appt_updated(pre[user_id@], uuid@, required).unwrap());
            }
            self.dbm.update_user(user_id, &new_info);
            let ghost post_v = new_info@;
            self.registered_users.set(user_id, new_info);
            proof {
                self.lemma_wf_after_user_update(*old(self), user_id@, post_v);
            }
            Ok(new_avail)
        } else {
            Err(NotEnoughSlots)
        }
    }

    /// Checks whether a subscription has expired: returns whether the
    /// current height has reached the user's expiry, and the expiry itself.
    pub fn has_subscription_expired(&self, user_id: &UserId) -> (r: Result<
        (bool, u32),
        AuthenticationFailure,
    >)
        requires
            self.wf(),
        ensures
            ({
                let reg = self.registered_users@;
                if reg.contains_key(user_id@) {
                    r == Ok::<(bool, u32), AuthenticationFailure>(
                        (
                            self.last_known_height >= reg[user_id@].subscription_expiry,
                            reg[user_id@].subscription_expiry,
                        ),
                    )
                } else {
                    r matches Err(e) && e.0@ == "User not found."@
                }
            }),
    {
        match self.registered_users.get(user_id) {
            Some(info) => Ok(
                (self.last_known_height >= info.subscription_expiry, info.subscription_expiry),
            ),
            None => Err(AuthenticationFailure("User not found.")),
        }
    }
}

/// The outdated-users table computed from the registered users, in
/// registration order: every user outdated at `height`, with the
/// identifiers of its appointments.
pub open spec fn computed_outdated(
    entries: Seq<(UserId, UserInfo)>,
    expiry_delta: u32,
    height: u32,
) -> Seq<(Seq<u8>, Seq<Seq<u8>>)>
    decreases entries.len(),
{
    if entries.len() == 0 {
        Seq::empty()
    } else {
        let rest = computed_outdated(entries.drop_last(), expiry_delta, height);
        if outdated_at(entries.last().1@, expiry_delta, height) {
            rest.push((entries.last().0@, appt_keys(entries.last().1@.appointments)))
        } else {
            rest
        }
    }
}

/// What `get_outdated_users` returns: the cache entry at `height` when
/// present, the table computed from the registered users otherwise.
pub open spec fn spec_outdated_users(g: Gatekeeper, height: u32) -> Seq<(Seq<u8>, Seq<Seq<u8>>)> {
    if g.outdated_users_cache@.contains_key(height) {
        g.outdated_users_cache@[height]
    } else {
        computed_outdated(g.registered_users.entries@, g.expiry_delta, height)
    }
}

/// The computed outdated table has unique keys, holds exactly the entries
/// whose user is outdated at `height`, and records their appointment keys.
pub proof fn lemma_computed_outdated_props(
    entries: Seq<(UserId, UserInfo)>,
    expiry_delta: u32,
    height: u32,
)
    requires
        forall|i: int, j: int| 0 <= i < j < entries.len() ==> entries[i].0@ != entries[j].0@,
    ensures
        ou_unique(computed_outdated(entries, expiry_delta, height)),
        forall|k: Seq<u8>| #[trigger]
            ou_has(computed_outdated(entries, expiry_delta, height), k) ==> exists|j: int|
                0 <= j < entries.len() && entries[j].0@ == k,
        forall|j: int|
            0 <= j < entries.len() ==> (ou_has(
                computed_outdated(entries, expiry_delta, height),
                (#[trigger] entries[j]).0@,
            ) <==> outdated_at(entries[j].1@, expiry_delta, height)),
        forall|j: int|
            0 <= j < entries.len() && ou_has(
                computed_outdated(entries, expiry_delta, height),
                (#[trigger] entries[j]).0@,
            ) ==> ou_value(computed_outdated(entries, expiry_delta, height), entries[j].0@)
                == appt_keys(entries[j].1@.appointments),
    decreases entries.len(),
{
    let c = computed_outdated(entries, expiry_delta, height);
    if entries.len() > 0 {
        let pre = entries.drop_last();
        let n = pre.len() as int;
        assert(forall|a: int| 0 <= a < n ==> pre[a] == entries[a]);
        lemma_computed_outdated_props(pre, expiry_delta, height);
        let c0 = computed_outdated(pre, expiry_delta, height);
        let last = entries.last();
        assert(last == entries[n]);
        assert(!ou_has(c0, last.0@)) by {
            if ou_has(c0, last.0@) {
                let j = choose|j: int| 0 <= j < pre.len() && pre[j].0@ == last.0@;
                assert(entries[j].0@ != entries[n].0@);
            }
        }
        if outdated_at(last.1@, expiry_delta, height) {
            let v = appt_keys(last.1@.appointments);
            assert(c == c0.push((last.0@, v)));
            crate::outdated::lemma_ou_push_props(c0, last.0@, v);
            assert forall|k: Seq<u8>| #[trigger] ou_has(c, k) implies exists|j: int|
                0 <= j < entries.len() && entries[j].0@ == k by {
                if k == last.0@ {
                    assert(entries[n].0@ == k);
                } else {
                    assert(ou_has(c0, k));
                    let j = choose|j: int| 0 <= j < pre.len() && pre[j].0@ == k;
                    assert(entries[j].0@ == k);
                }
            }
            assert forall|j: int| 0 <= j < entries.len() implies (ou_has(
                c,
                (#[trigger] entries[j]).0@,
            ) <==> outdated_at(entries[j].1@, expiry_delta, height)) by {
                if j < n {
                    assert(entries[j].0@ != last.0@);
                    assert(ou_has(c, entries[j].0@) == ou_has(c0, pre[j].0@));
                }
            }
            assert forall|j: int|
                0 <= j < entries.len() && ou_has(c, (#[trigger] entries[j]).0@) implies ou_value(
                c,
                entries[j].0@,
            ) == appt_keys(entries[j].1@.appointments) by {
                if j < n {
                    assert(entries[j].0@ != last.0@);
                    assert(ou_has(c0, pre[j].0@));
                    assert(ou_value(c, entries[j].0@) == ou_value(c0, pre[j].0@));
                }
            }
        } else {
            assert(c == c0);
            assert forall|k: Seq<u8>| #[trigger] ou_has(c, k) implies exists|j: int|
                0 <= j < entries.len() && entries[j].0@ == k by {
                let j = choose|j: int| 0 <= j < pre.len() && pre[j].0@ == k;
                assert(entries[j].0@ == k);
            }
            assert forall|j: int| 0 <= j < entries.len() implies (ou_has(
                c,
                (#[trigger] entries[j]).0@,
            ) <==> outdated_at(entries[j].1@, expiry_delta, height)) by {
                if j < n {
                    assert(ou_has(c, entries[j].0@) == ou_has(c0, pre[j].0@));
                }
            }
            assert forall|j: int|
                0 <= j < entries.len() && ou_has(c, (#[trigger] entries[j]).0@) implies ou_value(
                c,
                entries[j].0@,
            ) == appt_keys(entries[j].1@.appointments) by {
                if j < n {
                    assert(ou_has(c0, pre[j].0@));
                }
            }
        }
    }
}

/// When `height` is not cached, `spec_outdated_users` holds exactly the
/// registered users outdated at `height`, each with its appointment keys.
pub proof fn lemma_outdated_users_spec(g: Gatekeeper, height: u32)
    requires
        g.wf(),
        !g.outdated_users_cache@.contains_key(height),
    ensures
        ({
            let c = spec_outdated_users(g, height);
            &&& ou_unique(c)
            &&& forall|k: Seq<u8>| #[trigger]
                ou_has(c, k) ==> g.registered_users@.contains_key(k) && outdated_at(
                    g.registered_users@[k],
                    g.expiry_delta,
                    height,
                ) && ou_value(c, k) == appt_keys(g.registered_users@[k].appointments)
            &&& forall|k: Seq<u8>|
                (#[trigger] g.registered_users@.contains_key(k)) && outdated_at(
                    g.registered_users@[k],
                    g.expiry_delta,
                    height,
                ) ==> ou_has(c, k)
        }),
{
    let entries = g.registered_users.entries@;
    lemma_computed_outdated_props(entries, g.expiry_delta, height);
    let c = spec_outdated_users(g, height);
    assert(c == computed_outdated(entries, g.expiry_delta, height));
    assert forall|k: Seq<u8>| #[trigger] ou_has(c, k) implies g.registered_users@.contains_key(k)
        && outdated_at(g.registered_users@[k], g.expiry_delta, height) && ou_value(c, k)
        == appt_keys(g.registered_users@[k].appointments) by {
        let j = choose|j: int| 0 <= j < entries.len() && entries[j].0@ == k;
        lemma_user_map_entry(g.registered_users, j);
    }
    assert forall|k: Seq<u8>|
        (#[trigger] g.registered_users@.contains_key(k)) && outdated_at(
            g.registered_users@[k],
            g.expiry_delta,
            height,
        ) implies ou_has(c, k) by {
        let j = choose|j: int| 0 <= j < entries.len() && entries[j].0@ == k;
        lemma_user_map_entry(g.registered_users, j);
        assert(ou_has(c, entries[j].0@) <==> outdated_at(entries[j].1@, g.expiry_delta, height));
    }
}

impl Gatekeeper {
    /// Gets the users outdated at `block_height`, each mapped to the
    /// identifiers of its appointments.
    ///
    /// The data is pulled from the cache if present, otherwise it is
    /// computed on the fly from the registered users; the computation is
    /// not written back into the cache (only `update_outdated_users_cache`
    /// writes).
    pub fn get_outdated_users(&self, block_height: u32) -> (r: OutdatedUsers)
        requires
            self.wf(),
        ensures
            r@ == spec_outdated_users(*self, block_height),
            r.wf(),
    {
        match self.outdated_users_cache.get(block_height) {
            Some(users) => users,
            None => {
                let ghost entries = self.registered_users.entries@;
                let mut users = OutdatedUsers::new();
                let mut i: usize = 0;
                proof {
                    assert(entries.take(0) =~= Seq::<(UserId, UserInfo)>::empty());
                }
                while i < self.registered_users.len()
                    invariant
                        self.wf(),
                        entries == self.registered_users.entries@,
                        i <= entries.len(),
                        users@ == computed_outdated(
                            entries.take(i as int),
                            self.expiry_delta,
                            block_height,
                        ),
                        users.wf(),
                    decreases entries.len() - i,
                {
                    proof {
                        assert(forall|a: int|
                            0 <= a < i ==> entries.take(i as int)[a] == entries[a]);
                        lemma_computed_outdated_props(
                            entries.take(i as int),
                            self.expiry_delta,
                            block_height,
                        );
                    }
                    let info = self.registered_users.info_at(i);
                    let expiry_plus_delta: u64 = info.subscription_expiry as u64
                        + self.expiry_delta as u64;
                    if expiry_plus_delta == block_height as u64 {
                        let uuids = info.appointments.key_list();
                        proof {
                            let ki = entries[i as int].0@;
                            assert(!ou_has(users@, ki)) by {
                                if ou_has(users@, ki) {
                                    let prefix = entries.take(i as int);
                                    let j = choose|j: int|
                                        0 <= j < prefix.len() && prefix[j].0@ == ki;
                                    assert(entries[j].0@ != entries[i as int].0@);
                                }
                            }
                            assert(uuid_views(uuids@) =~= appt_keys(info@.appointments));
                        }
                        users.push(self.registered_users.key_at(i).clone(), uuids);
                    }
                    i += 1;
                    proof {
                        assert(entries.take(i as int).drop_last() =~= entries.take(i - 1));
                        assert(entries.take(i as int).last() == entries[i - 1]);
                    }
                }
                proof {
                    assert(entries.take(entries.len() as int) =~= entries);
                    lemma_computed_outdated_props(entries, self.expiry_delta, block_height);
                }
                users
            },
        }
    }

    /// Gets the identifiers of the users outdated at `block_height`.
    pub fn get_outdated_user_ids(&self, block_height: u32) -> (r: Vec<UserId>)
        requires
            self.wf(),
        ensures
            ({
                let c = spec_outdated_users(*self, block_height);
                &&& r@.len() == c.len()
                &&& forall|i: int| 0 <= i < r@.len() ==> r@[i]@ == c[i].0
            }),
    {
        let users = self.get_outdated_users(block_height);
        let mut r: Vec<UserId> = Vec::new();
        let mut i: usize = 0;
        while i < users.len()
            invariant
                users@ == spec_outdated_users(*self, block_height),
                i <= users@.len(),
                r@.len() == i,
                forall|j: int| 0 <= j < i ==> r@[j]@ == users@[j].0,
            decreases users@.len() - i,
        {
            r.push(users.key_at(i).clone());
            i += 1;
        }
        r
    }

    /// Updates the outdated-users cache: adds the users outdated at
    /// `block_height` under that height, and evicts the lowest cached
    /// height when the cache would grow past its bound. Every user of an
    /// evicted entry is removed from the durable store in the same step.
    ///
    /// When `block_height` is already cached, nothing changes and an empty
    /// table is returned.
    pub fn update_outdated_users_cache(&mut self, block_height: u32) -> (r: OutdatedUsers)
        requires
            old(self).wf(),
        ensures
            final(self).wf(),
            final(self).same_config(*old(self)),
            final(self).registered_users == old(self).registered_users,
            r.wf(),
            old(self).outdated_users_cache@.contains_key(block_height) ==> {
                &&& r@ == Seq::<(Seq<u8>, Seq<Seq<u8>>)>::empty()
                &&& final(self).outdated_users_cache == old(self).outdated_users_cache
                &&& final(self).dbm@ == old(self).dbm@
            },
            !old(self).outdated_users_cache@.contains_key(block_height) ==> ({
                let computed = spec_outdated_users(*old(self), block_height);
                let grown = old(self).outdated_users_cache@.insert(block_height, computed);
                &&& r@ == computed
                &&& if old(self).outdated_users_cache.spec_len() + 1
                    <= OUTDATED_USERS_CACHE_SIZE_BLOCKS {
                    &&& final(self).outdated_users_cache@ == grown
                    &&& final(self).outdated_users_cache.spec_len() == old(
                        self,
                    ).outdated_users_cache.spec_len() + 1
                    &&& final(self).dbm@ == old(self).dbm@
                } else {
                    exists|evicted: u32|
                        {
                            &&& #[trigger] grown.contains_key(evicted)
                            &&& forall|h2: u32| #[trigger] grown.contains_key(h2) ==> evicted <= h2
                            &&& final(self).outdated_users_cache@ == grown.remove(evicted)
                            &&& final(self).outdated_users_cache.spec_len()
                                == OUTDATED_USERS_CACHE_SIZE_BLOCKS
                            &&& forall|k: Seq<u8>| #[trigger]
                                ou_has(grown[evicted], k) ==> !final(self).dbm@.contains_key(k)
                            &&& forall|k: Seq<u8>|
                                !ou_has(grown[evicted], k) ==> final(self).dbm@.contains_key(k)
                                    == old(self).dbm@.contains_key(k) && (
                                old(self).dbm@.contains_key(k) ==> final(self).dbm@[k] == old(
                                    self,
                                ).dbm@[k])
                        }
                }
            }),
    {
        if self.outdated_users_cache.contains_key(block_height) {
            return OutdatedUsers::new();
        }
        let outdated_users = self.get_outdated_users(block_height);
        self.outdated_users_cache.insert_new(block_height, outdated_users.clone());

        // Evict the lowest height if the cache grew beyond its bound, and
        // drop the durable records of the users it held.
        if self.outdated_users_cache.len() > OUTDATED_USERS_CACHE_SIZE_BLOCKS {
            let ghost grown = self.outdated_users_cache@;
            let first = self.outdated_users_cache.min_key();
            let evicted_entry = self.outdated_users_cache.remove(first);
            let ghost dbm0 = self.dbm@;
            let ghost ev = evicted_entry@;
            let ghost reg_s = self.registered_users;
            let ghost cache_s = self.outdated_users_cache;
            let mut i: usize = 0;
            while i < evicted_entry.len()
                invariant
                    evicted_entry@ == ev,
                    i <= ev.len(),
                    self.registered_users == reg_s,
                    self.outdated_users_cache == cache_s,
                    self.same_config(*old(self)),
                    self.dbm.wf(),
                    forall|k: Seq<u8>| #[trigger]
                        ou_key_in_prefix(ev, i as int, k) ==> !self.dbm@.contains_key(k),
                    forall|k: Seq<u8>|
                        !(#[trigger] ou_key_in_prefix(ev, i as int, k)) ==> self.dbm@.contains_key(
                            k,
                        ) == dbm0.contains_key(k) && (dbm0.contains_key(k) ==> self.dbm@[k]
                            == dbm0[k]),
                decreases ev.len() - i,
            {
                let ghost pre_dbm = self.dbm@;
                self.dbm.remove_user(evicted_entry.key_at(i));
                proof {
                    assert(self.dbm@ == pre_dbm.remove(ev[i as int].0));
                    assert forall|k: Seq<u8>| #[trigger]
                        ou_key_in_prefix(ev, i + 1, k) implies !self.dbm@.contains_key(k) by {
                        let j = choose|j: int| 0 <= j < i + 1 && ev[j].0 == k;
                        if j < i {
                            assert(ou_key_in_prefix(ev, i as int, k));
                            assert(!pre_dbm.contains_key(k));
                        }
                    }
                    assert forall|k: Seq<u8>|
                        !(#[trigger] ou_key_in_prefix(ev, i + 1, k)) implies self.dbm@.contains_key(
                        k,
                    ) == dbm0.contains_key(k) && (dbm0.contains_key(k) ==> self.dbm@[k]
                        == dbm0[k]) by {
                        assert(!ou_key_in_prefix(ev, i as int, k)) by {
                            if ou_key_in_prefix(ev, i as int, k) {
                                let j = choose|j: int| 0 <= j < i && ev[j].0 == k;
                                assert(ou_key_in_prefix(ev, i + 1, k));
                            }
                        }
                        assert(k != ev[i as int].0) by {
                            if k == ev[i as int].0 {
                                assert(ou_key_in_prefix(ev, i + 1, k));
                            }
                        }
                        assert(pre_dbm.contains_key(k) == dbm0.contains_key(k));
                        assert(self.dbm@.contains_key(k) == pre_dbm.contains_key(k));
                        if dbm0.contains_key(k) {
                            assert(pre_dbm[k] == dbm0[k]);
                            assert(self.dbm@[k] == pre_dbm[k]);
                        }
                    }
                }
                i += 1;
            }
            proof {
                assert(i == ev.len());
                assert forall|k: Seq<u8>| #[trigger]
                    ou_has(ev, k) implies !self.dbm@.contains_key(k) by {
                    assert(ou_key_in_prefix(ev, i as int, k));
                }
                assert forall|k: Seq<u8>| !ou_has(ev, k) implies self.dbm@.contains_key(k)
                    == dbm0.contains_key(k) && (dbm0.contains_key(k) ==> self.dbm@[k]
                    == dbm0[k]) by {
                    assert(!ou_key_in_prefix(ev, i as int, k)) by {
                        if ou_key_in_prefix(ev, i as int, k) {
                            assert(ou_has(ev, k));
                        }
                    }
                }
                assert(grown.contains_key(first) && grown[first] == ev);
                assert(self.registered_users == old(self).registered_users);
            }
        }
        outdated_users
    }

    /// Handles a newly connected block: updates the outdated-users cache
    /// for `height` and removes the users outdated at `height` from the
    /// registered users. Their durable records stay while the cache still
    /// references them.
    pub fn block_connected(&mut self, height: u32)
        requires
            old(self).wf(),
        ensures
            final(self).wf(),
            final(self).same_config(*old(self)),
            ({
                let pre_reg = old(self).registered_users@;
                let post_reg = final(self).registered_users@;
                let delta = old(self).expiry_delta;
                let cached = old(self).outdated_users_cache@.contains_key(height);
                &&& forall|k: Seq<u8>| #[trigger]
                    post_reg.contains_key(k) ==> pre_reg.contains_key(k) && post_reg[k]
                        == pre_reg[k]
                &&& !cached ==> (forall|k: Seq<u8>| #[trigger]
                    pre_reg.contains_key(k) ==> (post_reg.contains_key(k) <==> !outdated_at(
                        pre_reg[k],
                        delta,
                        height,
                    )))
                &&& !cached ==> ({
                    let computed = spec_outdated_users(*old(self), height);
                    let grown = old(self).outdated_users_cache@.insert(height, computed);
                    if old(self).outdated_users_cache.spec_len() + 1
                        <= OUTDATED_USERS_CACHE_SIZE_BLOCKS {
                        &&& final(self).outdated_users_cache@ == grown
                        &&& final(self).outdated_users_cache.spec_len() == old(
                            self,
                        ).outdated_users_cache.spec_len() + 1
                        &&& final(self).dbm@ == old(self).dbm@
                    } else {
                        exists|evicted: u32|
                            {
                                &&& #[trigger] grown.contains_key(evicted)
                                &&& forall|h2: u32| #[trigger]
                                    grown.contains_key(h2) ==> evicted <= h2
                                &&& final(self).outdated_users_cache@ == grown.remove(evicted)
                                &&& final(self).outdated_users_cache.spec_len()
                                    == OUTDATED_USERS_CACHE_SIZE_BLOCKS
                                &&& forall|k: Seq<u8>| #[trigger]
                                    ou_has(grown[evicted], k) ==> !final(self).dbm@.contains_key(
                                        k,
                                    )
                                &&& forall|k: Seq<u8>|
                                    !ou_has(grown[evicted], k) ==> final(self).dbm@.contains_key(
                                        k,
                                    ) == old(self).dbm@.contains_key(k) && (
                                    old(self).dbm@.contains_key(k) ==> final(self).dbm@[k] == old(
                                        self,
                                    ).dbm@[k])
                            }
                    }
                })
                &&& cached ==> {
                    &&& final(self).registered_users == old(self).registered_users
                    &&& final(self).outdated_users_cache == old(self).outdated_users_cache
                    &&& final(self).dbm@ == old(self).dbm@
                }
            }),
    {
        let outdated_users = self.update_outdated_users_cache(height);
        proof {
            if !old(self).outdated_users_cache@.contains_key(height) {
                lemma_outdated_users_spec(*old(self), height);
            }
        }
        let ghost od = outdated_users@;
        let ghost reg0 = self.registered_users@;
        let ghost reg_struct0 = self.registered_users;
        let ghost cache1 = self.outdated_users_cache;
        let ghost dbm1 = self.dbm;
        let mut i: usize = 0;
        while i < outdated_users.len()
            invariant
                outdated_users@ == od,
                i <= od.len(),
                self.registered_users.wf(),
                self.same_config(*old(self)),
                self.outdated_users_cache == cache1,
                self.dbm == dbm1,
                i == 0 ==> self.registered_users == reg_struct0,
                forall|k: Seq<u8>| #[trigger]
                    self.registered_users@.contains_key(k) ==> reg0.contains_key(k)
                        && self.registered_users@[k] == reg0[k],
                forall|k: Seq<u8>|
                    reg0.contains_key(k) && !ou_key_in_prefix(od, i as int, k)
                        ==> self.registered_users@.contains_key(k),
                forall|j: int|
                    0 <= j < i ==> !self.registered_users@.contains_key((#[trigger] od[j]).0),
            decreases od.len() - i,
        {
            self.registered_users.remove(outdated_users.key_at(i));
            i += 1;
            proof {
                assert forall|k: Seq<u8>|
                    reg0.contains_key(k) && !ou_key_in_prefix(od, i as int, k) implies
                    self.registered_users@.contains_key(k) by {
                    assert(!ou_key_in_prefix(od, i - 1, k)) by {
                        if ou_key_in_prefix(od, i - 1, k) {
                            let j = choose|j: int| 0 <= j < i - 1 && od[j].0 == k;
                            assert(ou_key_in_prefix(od, i as int, k));
                        }
                    }
                    assert(k != od[i - 1].0) by {
                        if k == od[i - 1].0 {
                            assert(ou_key_in_prefix(od, i as int, k));
                        }
                    }
                }
            }
        }
        proof {
            assert forall|k: Seq<u8>| #[trigger]
                self.registered_users@.contains_key(k) implies user_wf(
                self.registered_users@[k],
            ) by {
                assert(reg0.contains_key(k));
            }
            if !old(self).outdated_users_cache@.contains_key(height) {
                assert forall|k: Seq<u8>| #[trigger]
                    old(self).registered_users@.contains_key(k) implies (
                self.registered_users@.contains_key(k) <==> !outdated_at(
                    old(self).registered_users@[k],
                    old(self).expiry_delta,
                    height,
                )) by {
                    if outdated_at(old(self).registered_users@[k], old(self).expiry_delta,
                        height) {
                        assert(ou_has(od, k));
                        let j = choose|j: int| 0 <= j < od.len() && od[j].0 == k;
                        assert(!self.registered_users@.contains_key(od[j].0));
                    } else {
                        assert(!ou_has(od, k)) by {
                            if ou_has(od, k) {
                                assert(outdated_at(
                                    old(self).registered_users@[k],
                                    old(self).expiry_delta,
                                    height,
                                ));
                            }
                        }
                        assert(!ou_key_in_prefix(od, od.len() as int, k)) by {
                            if ou_key_in_prefix(od, od.len() as int, k) {
                                assert(ou_has(od, k));
                            }
                        }
                    }
                }
            }
        }
    }
}

/// View of the (appointment, user) pairs handed to `delete_appointments`.
pub open spec fn pair_views(pairs: Seq<(UUID, UserId)>) -> Seq<(Seq<u8>, Seq<u8>)> {
    pairs.map_values(|p: (UUID, UserId)| (p.0@, p.1@))
}

/// Some pair among the first `n` names user `k`.
pub open spec fn pair_user_in_prefix(pairs: Seq<(Seq<u8>, Seq<u8>)>, n: int, k: Seq<u8>) -> bool {
    exists|j: int| 0 <= j < n && pairs[j].1 == k
}

/// The registered users after de-linking each (appointment, user) pair in
/// order: a pair whose user is registered has `appt_dropped` applied to it;
/// other pairs change nothing.
pub open spec fn delete_pairs(
    users: Map<Seq<u8>, UserInfoV>,
    pairs: Seq<(Seq<u8>, Seq<u8>)>,
) -> Map<Seq<u8>, UserInfoV>
    decreases pairs.len(),
{
    if pairs.len() == 0 {
        users
    } else {
        let prev = delete_pairs(users, pairs.drop_last());
        let uuid = pairs.last().0;
        let uid = pairs.last().1;
        if prev.contains_key(uid) {
            prev.insert(uid, appt_dropped(prev[uid], uuid))
        } else {
            prev
        }
    }
}

/// Appointment identifier `u` occurs in the list.
pub open spec fn uuid_listed(s: Seq<UUID>, u: Seq<u8>) -> bool {
    exists|i: int| 0 <= i < s.len() && s[i]@ == u
}

fn uuid_vec_contains(v: &Vec<UUID>, u: &UUID) -> (r: bool)
    ensures
        r == uuid_listed(v@, u@),
{
    let mut i: usize = 0;
    while i < v.len()
        invariant
            i <= v@.len(),
            forall|j: int| 0 <= j < i ==> v@[j]@ != u@,
        decreases v@.len() - i,
    {
        if v[i].key_eq(u) {
            return true;
        }
        i += 1;
    }
    false
}

impl Gatekeeper {
    /// Gets the appointments outdated at `block_height`, from any user,
    /// without duplicates.
    pub fn get_outdated_appointments(&self, block_height: u32) -> (r: Vec<UUID>)
        requires
            self.wf(),
        ensures
            forall|a: int, b: int| 0 <= a < b < r@.len() ==> r@[a]@ != r@[b]@,
            forall|u: Seq<u8>| #[trigger]
                uuid_listed(r@, u) == ou_lists_appt(
                    spec_outdated_users(*self, block_height),
                    u,
                ),
    {
        let users = self.get_outdated_users(block_height);
        let ghost c = users@;
        let mut r: Vec<UUID> = Vec::new();
        let mut i: usize = 0;
        while i < users.len()
            invariant
                users@ == c,
                i <= c.len(),
                forall|a: int, b: int| 0 <= a < b < r@.len() ==> r@[a]@ != r@[b]@,
                forall|u: Seq<u8>| #[trigger] uuid_listed(r@, u) ==> ou_lists_appt(c, u),
                forall|i2: int, j2: int|
                    0 <= i2 < i && 0 <= j2 < c[i2].1.len() ==> uuid_listed(
                        r@,
                        #[trigger] c[i2].1[j2],
                    ),
            decreases c.len() - i,
        {
            let uuids = users.uuids_at(i);
            let mut j: usize = 0;
            while j < uuids.len()
                invariant
                    users@ == c,
                    i < c.len(),
                    uuid_views(uuids@) == c[i as int].1,
                    j <= uuids@.len(),
                    forall|a: int, b: int| 0 <= a < b < r@.len() ==> r@[a]@ != r@[b]@,
                    forall|u: Seq<u8>| #[trigger] uuid_listed(r@, u) ==> ou_lists_appt(c, u),
                    forall|i2: int, j2: int|
                        0 <= i2 < i && 0 <= j2 < c[i2].1.len() ==> uuid_listed(
                            r@,
                            #[trigger] c[i2].1[j2],
                        ),
                    forall|j2: int|
                        0 <= j2 < j ==> uuid_listed(r@, #[trigger] c[i as int].1[j2]),
                decreases uuids@.len() - j,
            {
                let ghost r0 = r@;
                let u = &uuids[j];
                proof {
                    assert(uuids@[j as int]@ == c[i as int].1[j as int]);
                }
                if !uuid_vec_contains(&r, u) {
                    r.push(UUID(clone_bytes(&u.0)));
                    proof {
                        assert(forall|a: int| 0 <= a < r0.len() ==> r@[a] == r0[a]);
                        assert(r@[r0.len() as int]@ == u@);
                        assert(forall|a: int| 0 <= a < r0.len() ==> r0[a]@ != u@) by {
                            assert(forall|a: int|
                                0 <= a < r0.len() && r0[a]@ == u@ ==> uuid_listed(r0, u@));
                        }
                        assert forall|u2: Seq<u8>| #[trigger]
                            uuid_listed(r@, u2) implies ou_lists_appt(c, u2) by {
                            let w = choose|w: int| 0 <= w < r@.len() && r@[w]@ == u2;
                            if w < r0.len() {
                                assert(uuid_listed(r0, u2));
                            } else {
                                assert(u2 == u@);
                                assert(c[i as int].1.contains(u2)) by {
                                    assert(c[i as int].1[j as int] == u2);
                                }
                            }
                        }
                    }
                }
                proof {
                    assert(uuid_listed(r@, c[i as int].1[j as int])) by {
                        if uuid_listed(r0, u@) {
                            let w = choose|w: int| 0 <= w < r0.len() && r0[w]@ == u@;
                            assert(r@[w]@ == u@);
                        } else {
                            assert(r@[r0.len() as int]@ == u@);
                        }
                    }
                    assert forall|u2: Seq<u8>| #[trigger]
                        uuid_listed(r0, u2) implies uuid_listed(r@, u2) by {
                        let w = choose|w: int| 0 <= w < r0.len() && r0[w]@ == u2;
                        assert(r@[w]@ == u2);
                    }
                }
                j += 1;
            }
            i += 1;
        }
        proof {
            assert forall|u: Seq<u8>| #[trigger]
                uuid_listed(r@, u) == ou_lists_appt(spec_outdated_users(*self, block_height), u)
            by {
                if ou_lists_appt(c, u) {
                    let i2 = choose|i2: int| 0 <= i2 < c.len() && c[i2].1.contains(u);
                    let j2 = choose|j2: int| 0 <= j2 < c[i2].1.len() && c[i2].1[j2] == u;
                    assert(uuid_listed(r@, c[i2].1[j2]));
                }
            }
        }
        r
    }

    /// Deletes a collection of appointments from the users' subscriptions,
    /// both from memory and from the durable store.
    ///
    /// Appointments are only de-linked from users, not removed: the
    /// gatekeeper holds no appointment data, just references. A pair whose
    /// user is no longer registered, or whose appointment the user no
    /// longer holds, is silently ignored; every touched registered user is
    /// persisted afterwards.
    pub fn delete_appointments(&mut self, appointments: &Vec<(UUID, UserId)>)
        requires
            old(self).wf(),
        ensures
            final(self).wf(),
            final(self).same_config(*old(self)),
            final(self).outdated_users_cache == old(self).outdated_users_cache,
            final(self).registered_users@ == delete_pairs(
                old(self).registered_users@,
                pair_views(appointments@),
            ),
            ({
                let pv = pair_views(appointments@);
                let n = pv.len() as int;
                &&& forall|k: Seq<u8>|
                    !(#[trigger] pair_user_in_prefix(pv, n, k)) ==> final(self).dbm@.contains_key(
                        k,
                    ) == old(self).dbm@.contains_key(k) && (old(self).dbm@.contains_key(k)
                        ==> final(self).dbm@[k] == old(self).dbm@[k])
                &&& forall|k: Seq<u8>| #[trigger]
                    pair_user_in_prefix(pv, n, k) && old(self).registered_users@.contains_key(k)
                        ==> final(self).dbm@.contains_key(k)
                            && final(self).dbm@[k] == final(self).registered_users@[k]
                &&& forall|k: Seq<u8>| #[trigger]
                    pair_user_in_prefix(pv, n, k) && !old(self).registered_users@.contains_key(k)
                        ==> final(self).dbm@.contains_key(k) == old(self).dbm@.contains_key(k) && (
                    old(self).dbm@.contains_key(k) ==> final(self).dbm@[k] == old(self).dbm@[k])
            }),
    {
        let ghost pv = pair_views(appointments@);
        let ghost reg0 = self.registered_users@;
        let ghost dbm0 = self.dbm@;
        let ghost cache0 = self.outdated_users_cache;
        let mut i: usize = 0;
        proof {
            assert(pv.take(0) =~= Seq::<(Seq<u8>, Seq<u8>)>::empty());
        }
        while i < appointments.len()
            invariant
                i <= appointments@.len(),
                pv == pair_views(appointments@),
                pv.len() == appointments@.len(),
                self.wf(),
                self.same_config(*old(self)),
                self.outdated_users_cache == cache0,
                self.registered_users@ == delete_pairs(reg0, pv.take(i as int)),
                forall|k: Seq<u8>| #[trigger]
                    self.registered_users@.contains_key(k) == reg0.contains_key(k),
                forall|k: Seq<u8>|
                    !(#[trigger] pair_user_in_prefix(pv, i as int, k))
                        ==> self.dbm@.contains_key(k) == dbm0.contains_key(k) && (
                    dbm0.contains_key(k) ==> self.dbm@[k] == dbm0[k]),
                forall|k: Seq<u8>| #[trigger]
                    pair_user_in_prefix(pv, i as int, k) && reg0.contains_key(k)
                        ==> self.dbm@.contains_key(k) && self.dbm@[k]
                        == self.registered_users@[k],
                forall|k: Seq<u8>| #[trigger]
                    pair_user_in_prefix(pv, i as int, k) && !reg0.contains_key(k)
                        ==> self.dbm@.contains_key(k) == dbm0.contains_key(k) && (
                    dbm0.contains_key(k) ==> self.dbm@[k] == dbm0[k]),
            decreases appointments@.len() - i,
        {
            let ghost pre_state = *self;
            let uuid = &appointments[i].0;
            let user_id = &appointments[i].1;
            proof {
                assert(pv[i as int] == (appointments@[i as int].0@, appointments@[i as int].1@));
                assert(pv.take(i + 1).drop_last() =~= pv.take(i as int));
                assert(pv.take(i + 1).last() == pv[i as int]);
            }
            match self.registered_users.get(user_id) {
                Some(info) => {
                    // Remove the appointment from the appointment list and
                    // refund the slots it took.
                    let ghost info_v = info@;
                    let mut new_info = info;
                    match new_info.appointments.get(uuid) {
                        Some(slots) => {
                            match new_info.available_slots.checked_add(slots) {
                                Some(new_avail) => {
                                    let _removed = new_info.appointments.remove(uuid);
                                    new_info.available_slots = new_avail;
                                },
                                None => {},
                            }
                        },
                        None => {},
                    }
                    proof {
                        lemma_appt_dropped_wf(info_v, uuid@);
                        assert(new_info@ =~= appt_dropped(info_v, uuid@));
                    }
                    let ghost post_v = new_info@;
                    self.dbm.update_user(user_id, &new_info);
                    self.registered_users.set(user_id, new_info);
                    proof {
                        self.lemma_wf_after_user_update(pre_state, user_id@, post_v);
                        assert(self.registered_users@ == delete_pairs(reg0, pv.take(i + 1)));
                        assert forall|k: Seq<u8>| #[trigger]
                            self.registered_users@.contains_key(k) == reg0.contains_key(k) by {
                            if k != user_id@ {
                                assert(self.registered_users@.contains_key(k)
                                    == pre_state.registered_users@.contains_key(k));
                            }
                        }
                        self.lemma_delete_step_dbm(pre_state, pv, i as int, reg0, dbm0);
                    }
                },
                None => {
                    proof {
                        assert(self.registered_users@ == delete_pairs(reg0, pv.take(i + 1)));
                        self.lemma_delete_step_dbm(pre_state, pv, i as int, reg0, dbm0);
                    }
                },
            }
            i += 1;
        }
        proof {
            assert(pv.take(pv.len() as int) =~= pv);
        }
    }

    /// One step of `delete_appointments` keeps the store in sync: the pair
    /// at `i` only rewrites its own user's record, to that user's current
    /// in-memory state.
    proof fn lemma_delete_step_dbm(
        self,
        pre: Gatekeeper,
        pv: Seq<(Seq<u8>, Seq<u8>)>,
        i: int,
        reg0: Map<Seq<u8>, UserInfoV>,
        dbm0: Map<Seq<u8>, UserInfoV>,
    )
        requires
            0 <= i < pv.len(),
            forall|k: Seq<u8>|
                !(#[trigger] pair_user_in_prefix(pv, i, k)) ==> pre.dbm@.contains_key(k)
                    == dbm0.contains_key(k) && (dbm0.contains_key(k) ==> pre.dbm@[k] == dbm0[k]),
            forall|k: Seq<u8>| #[trigger]
                pair_user_in_prefix(pv, i, k) && reg0.contains_key(k) ==> pre.dbm@.contains_key(k)
                    && pre.dbm@[k] == pre.registered_users@[k],
            forall|k: Seq<u8>| #[trigger]
                pair_user_in_prefix(pv, i, k) && !reg0.contains_key(k) ==> pre.dbm@.contains_key(
                    k,
                ) == dbm0.contains_key(k) && (dbm0.contains_key(k) ==> pre.dbm@[k] == dbm0[k]),
            forall|k: Seq<u8>| #[trigger]
                pre.registered_users@.contains_key(k) == reg0.contains_key(k),
            forall|k: Seq<u8>| #[trigger]
                self.registered_users@.contains_key(k) == reg0.contains_key(k),
            // the step only touched the user of pair `i`, and kept its
            // store record equal to its in-memory record
            reg0.contains_key(pv[i].1) ==> self.dbm@ == pre.dbm@.insert(
                pv[i].1,
                self.registered_users@[pv[i].1],
            ),
            !reg0.contains_key(pv[i].1) ==> self.dbm@ == pre.dbm@ && self.registered_users@
                == pre.registered_users@,
            forall|k: Seq<u8>|
                k != pv[i].1 && reg0.contains_key(k) ==> self.registered_users@[k]
                    == pre.registered_users@[k],
        ensures
            forall|k: Seq<u8>|
                !(#[trigger] pair_user_in_prefix(pv, i + 1, k)) ==> self.dbm@.contains_key(k)
                    == dbm0.contains_key(k) && (dbm0.contains_key(k) ==> self.dbm@[k] == dbm0[k]),
            forall|k: Seq<u8>| #[trigger]
                pair_user_in_prefix(pv, i + 1, k) && reg0.contains_key(k)
                    ==> self.dbm@.contains_key(k) && self.dbm@[k] == self.registered_users@[k],
            forall|k: Seq<u8>| #[trigger]
                pair_user_in_prefix(pv, i + 1, k) && !reg0.contains_key(k)
                    ==> self.dbm@.contains_key(k) == dbm0.contains_key(k) && (dbm0.contains_key(k)
                    ==> self.dbm@[k] == dbm0[k]),
    {
        let u = pv[i].1;
        assert forall|k: Seq<u8>|
            !(#[trigger] pair_user_in_prefix(pv, i + 1, k)) implies self.dbm@.contains_key(k)
            == dbm0.contains_key(k) && (dbm0.contains_key(k) ==> self.dbm@[k] == dbm0[k]) by {
            assert(!pair_user_in_prefix(pv, i, k)) by {
                if pair_user_in_prefix(pv, i, k) {
                    let j = choose|j: int| 0 <= j < i && pv[j].1 == k;
                    assert(pair_user_in_prefix(pv, i + 1, k));
                }
            }
            assert(k != u) by {
                if k == u {
                    assert(pair_user_in_prefix(pv, i + 1, k));
                }
            }
        }
        assert forall|k: Seq<u8>| #[trigger]
            pair_user_in_prefix(pv, i + 1, k) && reg0.contains_key(k) implies
            self.dbm@.contains_key(k) && self.dbm@[k] == self.registered_users@[k] by {
            if k != u {
                assert(pair_user_in_prefix(pv, i, k)) by {
                    let j = choose|j: int| 0 <= j < i + 1 && pv[j].1 == k;
                    assert(j != i);
                }
                assert(pre.dbm@.contains_key(k) && pre.dbm@[k] == pre.registered_users@[k]);
            }
        }
        assert forall|k: Seq<u8>| #[trigger]
            pair_user_in_prefix(pv, i + 1, k) && !reg0.contains_key(k) implies
            self.dbm@.contains_key(k) == dbm0.contains_key(k) && (dbm0.contains_key(k)
            ==> self.dbm@[k] == dbm0[k]) by {
            assert(k != u || !reg0.contains_key(u));
            if !pair_user_in_prefix(pv, i, k) {
            } else {
                assert(pre.dbm@.contains_key(k) == dbm0.contains_key(k) && (dbm0.contains_key(k)
                    ==> pre.dbm@[k] == dbm0[k]));
            }
        }
    }
}

/// A user state with its quota overridden; the ghost ledger is adjusted so
/// the slot accounting stays consistent.
pub open spec fn slots_overridden(v: UserInfoV, slots: u32) -> UserInfoV {
    UserInfoV {
        available_slots: slots,
        subscription_expiry: v.subscription_expiry,
        appointments: v.appointments,
        granted: slots + appt_sum(v.appointments),
    }
}

/// A user state with its expiry overridden.
pub open spec fn expiry_overridden(v: UserInfoV, expiry: u32) -> UserInfoV {
    UserInfoV {
        available_slots: v.available_slots,
        subscription_expiry: expiry,
        appointments: v.appointments,
        granted: v.granted,
    }
}

impl Gatekeeper {
    /// A copy of the subscription state of a registered user.
    pub fn get_user_info(&self, user_id: &UserId) -> (r: Option<UserInfo>)
        requires
            self.wf(),
        ensures
            match r {
                Some(info) => self.registered_users@.contains_key(user_id@) && info@
                    == self.registered_users@[user_id@],
                None => !self.registered_users@.contains_key(user_id@),
            },
    {
        self.registered_users.get(user_id)
    }

    /// How many users are registered.
    pub fn registered_users_count(&self) -> (r: usize)
        ensures
            r == self.registered_users.spec_len(),
    {
        self.registered_users.len()
    }

    /// How many heights the outdated-users cache holds.
    pub fn outdated_users_cache_len(&self) -> (r: usize)
        ensures
            r == self.outdated_users_cache.spec_len(),
    {
        self.outdated_users_cache.len()
    }

    /// Whether the outdated-users cache has an entry for `block_height`.
    pub fn outdated_users_cache_contains(&self, block_height: u32) -> (r: bool)
        requires
            self.wf(),
        ensures
            r == self.outdated_users_cache@.contains_key(block_height),
    {
        self.outdated_users_cache.contains_key(block_height)
    }

    /// A copy of the cache entry for `block_height`, if any.
    pub fn get_outdated_users_cache_entry(&self, block_height: u32) -> (r: Option<OutdatedUsers>)
        requires
            self.wf(),
        ensures
            match r {
                Some(users) => self.outdated_users_cache@.contains_key(block_height) && users@
                    == self.outdated_users_cache@[block_height],
                None => !self.outdated_users_cache@.contains_key(block_height),
            },
    {
        self.outdated_users_cache.get(block_height)
    }

    /// Overrides the available quota of a registered user, in memory only;
    /// the durable store is left alone.
    pub fn set_user_slots(&mut self, user_id: &UserId, slots: u32)
        requires
            old(self).wf(),
            old(self).registered_users@.contains_key(user_id@),
        ensures
            final(self).wf(),
            final(self).same_config(*old(self)),
            final(self).outdated_users_cache == old(self).outdated_users_cache,
            final(self).dbm == old(self).dbm,
            final(self).registered_users@ == old(self).registered_users@.insert(
                user_id@,
                slots_overridden(old(self).registered_users@[user_id@], slots),
            ),
    {
        let info = self.registered_users.get(user_id).unwrap();
        let mut new_info = info;
        new_info.available_slots = slots;
        new_info.granted = Ghost(slots + appt_sum(new_info.appointments@));
        let ghost post_v = new_info@;
        self.registered_users.set(user_id, new_info);
        proof {
            self.lemma_wf_after_user_update(*old(self), user_id@, post_v);
        }
    }

    /// Overrides the subscription expiry of a registered user, in memory
    /// only; the durable store is left alone.
    pub fn set_user_expiry(&mut self, user_id: &UserId, expiry: u32)
        requires
            old(self).wf(),
            old(self).registered_users@.contains_key(user_id@),
        ensures
            final(self).wf(),
            final(self).same_config(*old(self)),
            final(self).outdated_users_cache == old(self).outdated_users_cache,
            final(self).dbm == old(self).dbm,
            final(self).registered_users@ == old(self).registered_users@.insert(
                user_id@,
                expiry_overridden(old(self).registered_users@[user_id@], expiry),
            ),
    {
        let info = self.registered_users.get(user_id).unwrap();
        let mut new_info = info;
        new_info.subscription_expiry = expiry;
        let ghost post_v = new_info@;
        self.registered_users.set(user_id, new_info);
        proof {
            self.lemma_wf_after_user_update(*old(self), user_id@, post_v);
        }
    }

    /// Places an entry into the outdated-users cache at a height not cached
    /// yet. The cache must have room; eviction is the business of
    /// `update_outdated_users_cache` alone.
    pub fn insert_outdated_users_cache_entry(&mut self, block_height: u32, users: OutdatedUsers)
        requires
            old(self).wf(),
            !old(self).outdated_users_cache@.contains_key(block_height),
            old(self).outdated_users_cache.spec_len() < OUTDATED_USERS_CACHE_SIZE_BLOCKS,
            users.wf(),
        ensures
            final(self).wf(),
            final(self).same_config(*old(self)),
            final(self).registered_users == old(self).registered_users,
            final(self).dbm == old(self).dbm,
            final(self).outdated_users_cache@ == old(self).outdated_users_cache@.insert(
                block_height,
                users@,
            ),
            final(self).outdated_users_cache.spec_len() == old(
                self,
            ).outdated_users_cache.spec_len() + 1,
    {
        self.outdated_users_cache.insert_new(block_height, users);
    }
}

} // verus!

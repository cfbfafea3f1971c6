//! Per-user subscription state and the slot ledger.
//!
//! A `UserInfo` carries the remaining quota (`available_slots`), the height
//! at which the subscription expires, and the per-appointment slot table.
//! A ghost ledger field records the total number of slots ever granted to
//! the user; well-formedness says the quota and the table always account
//! for exactly that total, so slots are never overcounted or leaked.

use vstd::prelude::*;

use crate::appointment::{
    appt_has, appt_remove, appt_set, appt_sum, appt_unique, appt_value, lemma_appt_remove_props,
    lemma_appt_set_props, AppointmentSlots,
};

verus! {

/// Mathematical value of a `UserInfo`.
#[verifier::ext_equal]
pub ghost struct UserInfoV {
    pub available_slots: u32,
    pub subscription_expiry: u32,
    pub appointments: Seq<(Seq<u8>, u32)>,
    pub granted: int,
}

/// The slot ledger: the table has unique keys, and the remaining quota plus
/// the slots consumed by appointments equal the slots ever granted.
pub open spec fn user_wf(v: UserInfoV) -> bool {
    &&& appt_unique(v.appointments)
    &&& v.available_slots + appt_sum(v.appointments) == v.granted
}

/// The state of a user freshly registered with `slots` slots.
pub open spec fn fresh_user(slots: u32, expiry: u32) -> UserInfoV {
    UserInfoV {
        available_slots: slots,
        subscription_expiry: expiry,
        appointments: Seq::empty(),
        granted: slots as int,
    }
}

/// A renewal: grants `slots` further slots and resets the expiry, unless the
/// quota would pass `u32::MAX`, in which case the renewal is refused.
pub open spec fn renewed(v: UserInfoV, slots: u32, new_expiry: u32) -> Option<UserInfoV> {
    if v.available_slots + slots > u32::MAX {
        None
    } else {
        Some(
            UserInfoV {
                available_slots: (v.available_slots + slots) as u32,
                subscription_expiry: new_expiry,
                appointments: v.appointments,
                granted: v.granted + slots,
            },
        )
    }
}

/// The slots the table currently records for `uuid`, or zero.
pub open spec fn used_slots(v: UserInfoV, uuid: Seq<u8>) -> int {
    if appt_has(v.appointments, uuid) {
        appt_value(v.appointments, uuid) as int
    } else {
        0
    }
}

/// Adding or updating an appointment: binds `uuid` to `required` slots and
/// charges (or refunds) the difference against the quota. Refused when the
/// difference exceeds the quota, or when a refund would push the quota past
/// `u32::MAX`.
pub open spec fn appt_updated(v: UserInfoV, uuid: Seq<u8>, required: u32) -> Option<UserInfoV> {
    let diff = required - used_slots(v, uuid);
    if diff <= v.available_slots && v.available_slots - diff <= u32::MAX {
        Some(
            UserInfoV {
                available_slots: (v.available_slots - diff) as u32,
                subscription_expiry: v.subscription_expiry,
                appointments: appt_set(v.appointments, uuid, required),
                granted: v.granted,
            },
        )
    } else {
        None
    }
}

/// Deleting an appointment: unbinds `uuid` and refunds its slots. The user
/// is left unchanged when `uuid` is not bound, or when the refund would push
/// the quota past `u32::MAX`.
pub open spec fn appt_dropped(v: UserInfoV, uuid: Seq<u8>) -> UserInfoV {
    if appt_has(v.appointments, uuid) && v.available_slots + appt_value(v.appointments, uuid)
        <= u32::MAX {
        UserInfoV {
            available_slots: (v.available_slots + appt_value(v.appointments, uuid)) as u32,
            subscription_expiry: v.subscription_expiry,
            appointments: appt_remove(v.appointments, uuid),
            granted: v.granted,
        }
    } else {
        v
    }
}

/// Renewal preserves the slot ledger.
pub proof fn lemma_renewed_wf(v: UserInfoV, slots: u32, new_expiry: u32)
    requires
        user_wf(v),
        renewed(v, slots, new_expiry) is Some,
    ensures
        user_wf(renewed(v, slots, new_expiry).unwrap()),
{
}

/// Adding or updating an appointment preserves the slot ledger.
pub proof fn lemma_appt_updated_wf(v: UserInfoV, uuid: Seq<u8>, required: u32)
    requires
        user_wf(v),
        appt_updated(v, uuid, required) is Some,
    ensures
        user_wf(appt_updated(v, uuid, required).unwrap()),
{
    lemma_appt_set_props(v.appointments, uuid, required);
}

/// Deleting an appointment preserves the slot ledger.
pub proof fn lemma_appt_dropped_wf(v: UserInfoV, uuid: Seq<u8>)
    requires
        user_wf(v),
    ensures
        user_wf(appt_dropped(v, uuid)),
        appt_dropped(v, uuid).granted == v.granted,
{
    if appt_has(v.appointments, uuid) && v.available_slots + appt_value(v.appointments, uuid)
        <= u32::MAX {
        lemma_appt_remove_props(v.appointments, uuid);
    }
}

/// Applying the same appointment update twice gives the same user state --
/// in particular the same `available_slots` -- as applying it once.
pub proof fn lemma_appt_update_idempotent(v: UserInfoV, uuid: Seq<u8>, required: u32)
    requires
        user_wf(v),
        appt_updated(v, uuid, required) is Some,
    ensures
        appt_updated(appt_updated(v, uuid, required).unwrap(), uuid, required) == appt_updated(
            v,
            uuid,
            required,
        ),
{
    let v1 = appt_updated(v, uuid, required).unwrap();
    lemma_appt_set_props(v.appointments, uuid, required);
    assert(used_slots(v1, uuid) == required as int);
    let v2 = appt_updated(v1, uuid, required).unwrap();
    lemma_appt_set_props(v1.appointments, uuid, required);
    let i = crate::appointment::appt_index_of(v1.appointments, uuid);
    assert(0 <= i < v1.appointments.len() && v1.appointments[i].0 == uuid);
    assert(v1.appointments[i].1 == required);
    assert(v2.appointments =~= v1.appointments) by {
        assert(v2.appointments == v1.appointments.update(i, (uuid, required)));
        assert(v1.appointments[i] == (uuid, required));
    }
    assert(v2 =~= v1);
}

/// Adding a fresh appointment and then deleting it restores the quota that
/// was available before the addition.
pub proof fn lemma_add_then_delete_restores_slots(v: UserInfoV, uuid: Seq<u8>, required: u32)
    requires
        user_wf(v),
        !appt_has(v.appointments, uuid),
        appt_updated(v, uuid, required) is Some,
    ensures
        appt_dropped(appt_updated(v, uuid, required).unwrap(), uuid).available_slots
            == v.available_slots,
{
    let v1 = appt_updated(v, uuid, required).unwrap();
    lemma_appt_set_props(v.appointments, uuid, required);
    assert(appt_has(v1.appointments, uuid));
    assert(appt_value(v1.appointments, uuid) == required);
}

/// A renewal that is not refused strictly increases the available quota
/// whenever the per-registration grant is positive.
pub proof fn lemma_renewal_increases_slots(v: UserInfoV, slots: u32, new_expiry: u32)
    requires
        slots > 0,
        renewed(v, slots, new_expiry) is Some,
    ensures
        renewed(v, slots, new_expiry).unwrap().available_slots > v.available_slots,
{
}

/// Data regarding a user subscription with the tower.
pub struct UserInfo {
    /// Number of appointment slots available to the user.
    pub available_slots: u32,
    /// Block height at which the user subscription expires.
    pub subscription_expiry: u32,
    /// Appointment identifiers and how many slots each takes.
    pub appointments: AppointmentSlots,
    /// Ghost ledger: total slots ever granted to the user.
    pub granted: Ghost<int>,
}

impl View for UserInfo {
    type V = UserInfoV;

    open spec fn view(&self) -> UserInfoV {
        UserInfoV {
            available_slots: self.available_slots,
            subscription_expiry: self.subscription_expiry,
            appointments: self.appointments@,
            granted: self.granted@,
        }
    }
}

impl UserInfo {
    /// Creates a new `UserInfo` with an empty appointment table.
    pub fn new(available_slots: u32, subscription_expiry: u32) -> (r: Self)
        ensures
            r@ == fresh_user(available_slots, subscription_expiry),
            user_wf(r@),
    {
        let r = UserInfo {
            available_slots,
            subscription_expiry,
            appointments: AppointmentSlots::new(),
            granted: Ghost(available_slots as int),
        };
        proof {
            assert(r@ =~= fresh_user(available_slots, subscription_expiry));
        }
        r
    }
}

impl Clone for UserInfo {
    fn clone(&self) -> (r: Self)
        ensures
            r@ == self@,
    {
        let r = UserInfo {
            available_slots: self.available_slots,
            subscription_expiry: self.subscription_expiry,
            appointments: self.appointments.clone(),
            granted: Ghost(self.granted@),
        };
        proof {
            assert(r@ =~= self@);
        }
        r
    }
}

impl PartialEq for UserInfo {
    fn eq(&self, other: &Self) -> (r: bool) {
        self.available_slots == other.available_slots && self.subscription_expiry
            == other.subscription_expiry && self.appointments.entries_eq(&other.appointments)
    }
}

impl vstd::std_specs::cmp::PartialEqSpecImpl for UserInfo {
    open spec fn obeys_eq_spec() -> bool {
        true
    }

    open spec fn eq_spec(&self, other: &Self) -> bool {
        self.available_slots == other.available_slots && self.subscription_expiry
            == other.subscription_expiry && self.appointments@ == other.appointments@
    }
}

} // verus!

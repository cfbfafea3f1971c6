//! Receipts handed back to users when they register or renew.

use vstd::prelude::*;

use crate::ids::UserId;

verus! {

/// Proof of registration: the user, the slots now available to it, and the
/// height at which the subscription will expire.
#[derive(Debug, PartialEq, Eq)]
pub struct RegistrationReceipt {
    pub user_id: UserId,
    pub available_slots: u32,
    pub subscription_expiry: u32,
}

impl RegistrationReceipt {
    pub fn new(user_id: UserId, available_slots: u32, subscription_expiry: u32) -> (r: Self)
        ensures
            r.user_id@ == user_id@,
            r.available_slots == available_slots,
            r.subscription_expiry == subscription_expiry,
    {
        RegistrationReceipt { user_id, available_slots, subscription_expiry }
    }

    pub fn user_id(&self) -> (r: &UserId)
        ensures
            r@ == self.user_id@,
    {
        &self.user_id
    }

    pub fn available_slots(&self) -> (r: u32)
        ensures
            r == self.available_slots,
    {
        self.available_slots
    }

    pub fn subscription_expiry(&self) -> (r: u32)
        ensures
            r == self.subscription_expiry,
    {
        self.subscription_expiry
    }
}

} // verus!

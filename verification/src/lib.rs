//! Subscription management for a Lightning watchtower.
//!
//! The gatekeeper tracks user subscriptions measured in appointment slots,
//! authenticates requests by recovering the signer's public key, expires
//! subscriptions against the blockchain height, and keeps the in-memory
//! user map consistent with a durable user store.

use vstd::prelude::*;

pub mod appointment;
pub mod crypto;
pub mod gatekeeper;
pub mod ids;
pub mod outdated;
pub mod receipts;
pub mod store;
pub mod user_info;
pub mod user_map;

pub use appointment::AppointmentRef;
pub use gatekeeper::AuthenticationFailure;
pub use gatekeeper::Gatekeeper;
pub use gatekeeper::MaxSlotsReached;
pub use gatekeeper::NotEnoughSlots;
pub use ids::UserId;
pub use ids::UUID;
pub use outdated::OutdatedUsers;
pub use receipts::RegistrationReceipt;
pub use store::StoreError;
pub use store::UserStore;
pub use user_info::UserInfo;

verus! {

/// One slot covers this many bytes of encrypted blob (rounded up).
pub const ENCRYPTED_BLOB_MAX_SIZE: usize = 2 * 1024;

/// Number of distinct block heights the outdated-users cache keeps around.
pub const OUTDATED_USERS_CACHE_SIZE_BLOCKS: usize = 10;

/// Number of appointment slots a blob of `blob_size` bytes consumes:
/// `blob_size / blob_max_size` rounded up, capped at `u32::MAX`.
pub open spec fn spec_appointment_slots(blob_size: nat, blob_max_size: nat) -> nat
    recommends
        blob_max_size > 0,
{
    let q = blob_size / blob_max_size + if blob_size % blob_max_size == 0 { 0nat } else { 1nat };
    if q > u32::MAX { u32::MAX as nat } else { q }
}

/// Computes how many slots an appointment whose encrypted blob is
/// `blob_size` bytes long takes from a subscription.
pub fn compute_appointment_slots(blob_size: usize, blob_max_size: usize) -> (r: u32)
    requires
        blob_max_size > 0,
    ensures
        r == spec_appointment_slots(blob_size as nat, blob_max_size as nat),
{
    let q: usize = blob_size / blob_max_size;
    let rem: usize = blob_size % blob_max_size;
    if q >= u32::MAX as usize {
        u32::MAX
    } else if rem == 0 {
        q as u32
    } else {
        (q + 1) as u32
    }
}

} // verus!

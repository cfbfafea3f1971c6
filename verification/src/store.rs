//! The durable user store.
//!
//! Every mutation the gatekeeper performs on a user is mirrored here, so the
//! tower can be reconstructed across restarts. The store keeps full
//! `UserInfo` records, appointment table included, keyed by user identifier.

use vstd::prelude::*;

use crate::ids::UserId;
use crate::user_info::{UserInfo, UserInfoV};
use crate::user_map::UserMap;

verus! {

/// Errors the store reports.
#[derive(Debug, PartialEq, Eq)]
pub enum StoreError {
    /// `store_user` was asked to insert a user that is already present.
    AlreadyExists,
    /// `load_user` was asked for a user that is not present.
    NotFound,
}

pub struct UserStore {
    pub users: UserMap,
}

impl View for UserStore {
    type V = Map<Seq<u8>, UserInfoV>;

    open spec fn view(&self) -> Map<Seq<u8>, UserInfoV> {
        self.users@
    }
}

impl UserStore {
    pub open spec fn wf(self) -> bool {
        self.users.wf()
    }

    pub fn new() -> (r: Self)
        ensures
            r.wf(),
            r@ == Map::<Seq<u8>, UserInfoV>::empty(),
    {
        UserStore { users: UserMap::new() }
    }

    /// Inserts a record for a new user; errors without touching the store
    /// when the user is already present.
    pub fn store_user(&mut self, user_id: &UserId, info: &UserInfo) -> (r: Result<
        (),
        StoreError,
    >)
        requires
            old(self).wf(),
        ensures
            final(self).wf(),
            old(self)@.contains_key(user_id@) ==> r == Err::<(), StoreError>(
                StoreError::AlreadyExists,
            ) && final(self)@ == old(self)@,
            !old(self)@.contains_key(user_id@) ==> r == Ok::<(), StoreError>(()) && final(self)@
                == old(self)@.insert(user_id@, info@),
    {
        if self.users.contains_key(user_id) {
            Err(StoreError::AlreadyExists)
        } else {
            self.users.set(user_id, info.clone());
            Ok(())
        }
    }

    /// Writes the record for `user_id`, inserting or replacing it.
    pub fn update_user(&mut self, user_id: &UserId, info: &UserInfo)
        requires
            old(self).wf(),
        ensures
            final(self).wf(),
            final(self)@ == old(self)@.insert(user_id@, info@),
    {
        self.users.set(user_id, info.clone());
    }

    /// Loads a copy of the record for `user_id`.
    pub fn load_user(&self, user_id: &UserId) -> (r: Result<UserInfo, StoreError>)
        requires
            self.wf(),
        ensures
            self@.contains_key(user_id@) ==> (r matches Ok(info) && info@ == self@[user_id@]),
            !self@.contains_key(user_id@) ==> (r matches Err(e) && e == StoreError::NotFound),
    {
        match self.users.get(user_id) {
            Some(info) => Ok(info),
            None => Err(StoreError::NotFound),
        }
    }

    /// Removes the record for `user_id`; does nothing when absent.
    pub fn remove_user(&mut self, user_id: &UserId)
        requires
            old(self).wf(),
        ensures
            final(self).wf(),
            final(self)@ == old(self)@.remove(user_id@),
    {
        self.users.remove(user_id);
    }
}

} // verus!

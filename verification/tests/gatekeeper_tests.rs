use gatekeeper::{
    AppointmentRef, AuthenticationFailure, Gatekeeper, MaxSlotsReached, NotEnoughSlots,
    OutdatedUsers, StoreError, UserId, UserInfo, UUID, ENCRYPTED_BLOB_MAX_SIZE,
    OUTDATED_USERS_CACHE_SIZE_BLOCKS,
};
use lightning::bitcoin::secp256k1::{PublicKey, Secp256k1, SecretKey};
use lightning::util::message_signing;

const SLOTS: u32 = 21;
const DURATION: u32 = 500;
const EXPIRY_DELTA: u32 = 42;
const START_HEIGHT: usize = 100;

fn test_user_id(tag: u8) -> UserId {
    UserId(vec![tag; 33])
}

fn test_uuid(tag: u8) -> UUID {
    UUID(vec![tag; 16])
}

fn dummy_appointment() -> AppointmentRef {
    AppointmentRef::new(vec![7u8; 64])
}

fn test_keypair() -> (SecretKey, PublicKey) {
    let secp = Secp256k1::new();
    let sk = SecretKey::from_slice(&[13u8; 32]).unwrap();
    let pk = PublicKey::from_secret_key(&secp, &sk);
    (sk, pk)
}

#[test]
fn test_authenticate_user() {
    let mut gatekeeper = Gatekeeper::new(START_HEIGHT as u32, SLOTS, DURATION, EXPIRY_DELTA);

    // Authenticate user returns the UserId if the user is found in the
    // system, or an AuthenticationFailure otherwise.

    // Let's first check with an unknown user
    let message = "message".as_bytes();
    let wrong_signature = "signature";
    assert_eq!(
        gatekeeper.authenticate_user(message, wrong_signature),
        Err(AuthenticationFailure("Wrong message or signature."))
    );

    // Let's now provide data generated by an actual user, still the user is unknown
    let (user_sk, user_pk) = test_keypair();
    let signature = message_signing::sign(message, &user_sk);
    assert_eq!(
        gatekeeper.authenticate_user(message, &signature),
        Err(AuthenticationFailure("User not found."))
    );

    // Last, let's add the user to the Gatekeeper and try again.
    let user_id = UserId(user_pk.serialize().to_vec());
    gatekeeper.add_update_user(&user_id).unwrap();
    assert_eq!(gatekeeper.authenticate_user(message, &signature), Ok(user_id));
}

#[test]
fn test_add_update_user() {
    let mut gatekeeper = Gatekeeper::new(START_HEIGHT as u32, SLOTS, DURATION, EXPIRY_DELTA);

    // add_update_user adds a user to the system if it is not registered yet,
    // otherwise it adds slots to the user subscription and refreshes the
    // subscription expiry. Slots are added up to u32::MAX, a further call
    // will return a MaxSlotsReached error.

    // Let's start by adding a new user
    let user_id = test_user_id(1);
    let receipt = gatekeeper.add_update_user(&user_id).unwrap();
    // The data should have been also added to the database
    assert!(
        gatekeeper.dbm.load_user(&user_id).unwrap()
            == UserInfo::new(receipt.available_slots(), receipt.subscription_expiry())
    );

    // Let's generate a new block and add the user again to check that both
    // the slots and expiry are updated.
    gatekeeper.last_known_height += 1;
    let updated_receipt = gatekeeper.add_update_user(&user_id).unwrap();

    assert_eq!(updated_receipt.available_slots(), receipt.available_slots() * 2);
    assert_eq!(
        updated_receipt.subscription_expiry(),
        receipt.subscription_expiry() + 1
    );

    // Data in the database should have been updated too
    assert!(
        gatekeeper.dbm.load_user(&user_id).unwrap()
            == UserInfo::new(
                updated_receipt.available_slots(),
                updated_receipt.subscription_expiry()
            )
    );

    // If the slot count reaches u32::MAX we should receive an error
    gatekeeper.set_user_slots(&user_id, u32::MAX);

    assert!(matches!(
        gatekeeper.add_update_user(&user_id),
        Err(MaxSlotsReached)
    ));

    // Data in the database remains untouched
    assert!(
        gatekeeper.dbm.load_user(&user_id).unwrap()
            == UserInfo::new(
                updated_receipt.available_slots(),
                updated_receipt.subscription_expiry()
            )
    );
}

#[test]
fn test_add_update_appointment() {
    let mut gatekeeper = Gatekeeper::new(START_HEIGHT as u32, SLOTS, DURATION, EXPIRY_DELTA);

    // If a given appointment is not associated with a given user,
    // add_update_appointment adds it alongside the number of slots it
    // consumes. If the appointment is already associated with the user, it
    // updates it (both data and slot count).

    // Let's first add a user to the Gatekeeper (inputs are always sanitized
    // here, so we don't need tests for non-registered users)
    let user_id = test_user_id(1);
    gatekeeper.add_update_user(&user_id).unwrap();

    // Now let's add a new appointment
    let slots_before = gatekeeper.get_user_info(&user_id).unwrap().available_slots;
    let uuid = test_uuid(1);
    let appointment = dummy_appointment();
    let available_slots = gatekeeper
        .add_update_appointment(&user_id, &uuid, &appointment)
        .unwrap();

    assert!(gatekeeper
        .get_user_info(&user_id)
        .unwrap()
        .appointments
        .contains_key(&uuid));
    assert_eq!(slots_before, available_slots + 1);

    // Slots should have been updated in the database too. Notice the
    // appointment body won't be there; the gatekeeper only keeps references.
    let mut loaded_user = gatekeeper.dbm.load_user(&user_id).unwrap();
    assert_eq!(loaded_user.available_slots, available_slots);

    // Adding the exact same appointment should leave the slots count unchanged
    let mut updated_slot_count = gatekeeper
        .add_update_appointment(&user_id, &uuid, &appointment)
        .unwrap();
    assert!(gatekeeper
        .get_user_info(&user_id)
        .unwrap()
        .appointments
        .contains_key(&uuid));
    assert_eq!(updated_slot_count, available_slots);
    loaded_user = gatekeeper.dbm.load_user(&user_id).unwrap();
    assert_eq!(loaded_user.available_slots, updated_slot_count);

    // If we add an update to an existing appointment with a bigger data blob
    // (modulo ENCRYPTED_BLOB_MAX_SIZE), additional slots should be taken
    let bigger_appointment = AppointmentRef::new(vec![7u8; ENCRYPTED_BLOB_MAX_SIZE + 1]);
    updated_slot_count = gatekeeper
        .add_update_appointment(&user_id, &uuid, &bigger_appointment)
        .unwrap();
    assert!(gatekeeper
        .get_user_info(&user_id)
        .unwrap()
        .appointments
        .contains_key(&uuid));
    assert_eq!(updated_slot_count, available_slots - 1);
    loaded_user = gatekeeper.dbm.load_user(&user_id).unwrap();
    assert_eq!(loaded_user.available_slots, updated_slot_count);

    // Adding back a smaller update (modulo ENCRYPTED_BLOB_MAX_SIZE) should
    // reduce the count
    updated_slot_count = gatekeeper
        .add_update_appointment(&user_id, &uuid, &appointment)
        .unwrap();
    assert!(gatekeeper
        .get_user_info(&user_id)
        .unwrap()
        .appointments
        .contains_key(&uuid));
    assert_eq!(updated_slot_count, available_slots);
    loaded_user = gatekeeper.dbm.load_user(&user_id).unwrap();
    assert_eq!(loaded_user.available_slots, updated_slot_count);

    // Adding an appointment with a different uuid should not count as an update
    let new_uuid = test_uuid(2);
    updated_slot_count = gatekeeper
        .add_update_appointment(&user_id, &new_uuid, &appointment)
        .unwrap();
    assert!(gatekeeper
        .get_user_info(&user_id)
        .unwrap()
        .appointments
        .contains_key(&new_uuid));
    assert_eq!(updated_slot_count, available_slots - 1);
    loaded_user = gatekeeper.dbm.load_user(&user_id).unwrap();
    assert_eq!(loaded_user.available_slots, updated_slot_count);

    // Finally, trying to add an appointment when the user has no enough
    // slots should fail
    gatekeeper.set_user_slots(&user_id, 0);
    assert!(matches!(
        gatekeeper.add_update_appointment(&user_id, &test_uuid(3), &appointment),
        Err(NotEnoughSlots)
    ));
    // The entry in the database should remain unchanged in this case
    loaded_user = gatekeeper.dbm.load_user(&user_id).unwrap();
    assert_eq!(loaded_user.available_slots, updated_slot_count);
}

#[test]
fn test_has_subscription_expired() {
    let mut gatekeeper = Gatekeeper::new(START_HEIGHT as u32, SLOTS, DURATION, EXPIRY_DELTA);

    let user_id = test_user_id(1);

    // If the user is not registered, querying for a subscription expiry
    // check should return an error
    assert!(matches!(
        gatekeeper.has_subscription_expired(&user_id),
        Err(AuthenticationFailure(..))
    ));

    // If the user is registered and the subscription is active we should
    // get (false, expiry)
    gatekeeper.add_update_user(&user_id).unwrap();
    assert_eq!(
        gatekeeper.has_subscription_expired(&user_id),
        Ok((false, DURATION + START_HEIGHT as u32))
    );

    // If the subscription has expired, we should get (true, expiry).
    let expiry = START_HEIGHT as u32;
    gatekeeper.set_user_expiry(&user_id, expiry);
    assert_eq!(
        gatekeeper.has_subscription_expired(&user_id),
        Ok((true, expiry))
    );
}

#[test]
fn test_get_outdated_users() {
    let start_height = START_HEIGHT as u32 + EXPIRY_DELTA;
    let mut gatekeeper = Gatekeeper::new(start_height, SLOTS, DURATION, EXPIRY_DELTA);

    // Initially, the outdated_users_cache is empty, so querying any block
    // height should return an empty map
    for i in 0..start_height {
        assert_eq!(gatekeeper.get_outdated_users(i).len(), 0);
    }

    // Adding a user whose subscription is outdated should return an entry
    let user_id = test_user_id(1);
    gatekeeper.add_update_user(&user_id).unwrap();

    // Add also an appointment so we can check the returned data
    let appointment = dummy_appointment();
    let uuid = test_uuid(1);
    gatekeeper
        .add_update_appointment(&user_id, &uuid, &appointment)
        .unwrap();

    // Check that data is not in the cache before querying
    assert_eq!(gatekeeper.outdated_users_cache_len(), 0);

    gatekeeper.set_user_expiry(&user_id, START_HEIGHT as u32);

    let outdated_users = gatekeeper.get_outdated_users(start_height);
    assert_eq!(outdated_users.len(), 1);
    assert_eq!(outdated_users.get(&user_id).unwrap(), vec![uuid.clone()]);

    // If the outdated_users_cache has an entry, the data is returned
    // straightaway instead of computed on the fly
    let target_height = 2;
    assert!(!gatekeeper.outdated_users_cache_contains(target_height));
    assert_eq!(gatekeeper.get_outdated_users(target_height).len(), 0);

    let mut hm = OutdatedUsers::new();
    hm.push(user_id.clone(), vec![uuid.clone()]);
    gatekeeper.insert_outdated_users_cache_entry(target_height, hm);
    let again = gatekeeper.get_outdated_users(start_height);
    assert_eq!(again.len(), 1);
    assert_eq!(again.get(&user_id).unwrap(), vec![uuid.clone()]);
}

#[test]
fn test_get_outdated_users_cache_hit() {
    // An entry placed in the cache is returned as-is, even when no
    // registered user matches it.
    let mut gatekeeper = Gatekeeper::new(START_HEIGHT as u32, SLOTS, DURATION, EXPIRY_DELTA);
    let user_id = test_user_id(9);
    let uuid = test_uuid(9);
    let mut entry = OutdatedUsers::new();
    entry.push(user_id.clone(), vec![uuid.clone()]);
    gatekeeper.insert_outdated_users_cache_entry(5, entry);

    let cached = gatekeeper.get_outdated_users(5);
    assert_eq!(cached.len(), 1);
    assert!(cached.contains_key(&user_id));
    assert_eq!(cached.get(&user_id).unwrap(), vec![uuid]);
}

#[test]
fn test_get_outdated_appointments() {
    let start_height = START_HEIGHT as u32 + EXPIRY_DELTA;
    let mut gatekeeper = Gatekeeper::new(start_height, SLOTS, DURATION, EXPIRY_DELTA);

    // get_outdated_appointments returns a list of appointments that were
    // outdated at a given block height, indistinguishably of their user.

    // If there are no outdated users, there cannot be outdated appointments
    for i in 0..start_height {
        assert_eq!(gatekeeper.get_outdated_appointments(i).len(), 0);
    }

    // Adding data about different users and appointments should return a
    // flattened list of appointments
    let user1_id = test_user_id(1);
    let user2_id = test_user_id(2);
    gatekeeper.add_update_user(&user1_id).unwrap();
    gatekeeper.add_update_user(&user2_id).unwrap();

    // Manually set the user expiry for the test
    gatekeeper.set_user_expiry(&user1_id, START_HEIGHT as u32);
    gatekeeper.set_user_expiry(&user2_id, START_HEIGHT as u32);

    let uuid1 = test_uuid(1);
    let uuid2 = test_uuid(2);
    let appointment = dummy_appointment();

    gatekeeper
        .add_update_appointment(&user1_id, &uuid1, &appointment)
        .unwrap();
    gatekeeper
        .add_update_appointment(&user2_id, &uuid2, &appointment)
        .unwrap();

    let outdated_appointments = gatekeeper.get_outdated_appointments(start_height);
    assert_eq!(outdated_appointments.len(), 2);
    assert!(outdated_appointments.contains(&uuid1));
    assert!(outdated_appointments.contains(&uuid2));
}

#[test]
fn test_update_outdated_users_cache() {
    let start_height = START_HEIGHT as u32 + EXPIRY_DELTA;
    let mut gatekeeper = Gatekeeper::new(start_height, SLOTS, DURATION, EXPIRY_DELTA);

    // update_outdated_users_cache adds the users that get outdated at a
    // given block height to the cache and removes the oldest entry once the
    // cache has reached its maximum size.

    // If there's outdated data to be added and there's room in the cache,
    // the data will be added
    let user_id = test_user_id(1);
    gatekeeper.add_update_user(&user_id).unwrap();
    gatekeeper.set_user_expiry(&user_id, start_height - EXPIRY_DELTA - 1);

    assert_eq!(gatekeeper.outdated_users_cache_len(), 0);
    gatekeeper.update_outdated_users_cache(start_height - 1);
    assert_eq!(gatekeeper.outdated_users_cache_len(), 1);

    // If the cache has room and there's no data to add, an empty entry will
    // be added
    gatekeeper.update_outdated_users_cache(start_height);
    assert_eq!(gatekeeper.outdated_users_cache_len(), 2);
    assert_eq!(
        gatekeeper
            .get_outdated_users_cache_entry(start_height)
            .unwrap()
            .len(),
        0
    );

    // Adding data (even empty) to the cache up to its limit should remove
    // the first element
    for i in start_height + 1..start_height + OUTDATED_USERS_CACHE_SIZE_BLOCKS as u32 - 1 {
        gatekeeper.update_outdated_users_cache(i);
    }

    // Check the first key is still there and that the user can still be
    // found in the database
    assert_eq!(
        gatekeeper.outdated_users_cache_len(),
        OUTDATED_USERS_CACHE_SIZE_BLOCKS
    );
    assert!(gatekeeper.outdated_users_cache_contains(start_height - 1));
    assert!(matches!(
        gatekeeper.dbm.load_user(&user_id),
        Ok(UserInfo { .. })
    ));

    // Add one more block and check again. Data should have been removed
    // from the cache and the database
    gatekeeper
        .update_outdated_users_cache(start_height + OUTDATED_USERS_CACHE_SIZE_BLOCKS as u32 - 1);
    assert_eq!(
        gatekeeper.outdated_users_cache_len(),
        OUTDATED_USERS_CACHE_SIZE_BLOCKS
    );
    assert!(!gatekeeper.outdated_users_cache_contains(start_height - 1));
    assert!(matches!(gatekeeper.dbm.load_user(&user_id), Err(..)));
}

#[test]
fn test_delete_appointments() {
    let mut gatekeeper = Gatekeeper::new(START_HEIGHT as u32, SLOTS, DURATION, EXPIRY_DELTA);

    // delete_appointments will remove a list of appointments from the
    // Gatekeeper (as long as they exist)
    let mut all_appointments = Vec::new();
    let mut to_be_deleted = Vec::new();
    let mut rest = Vec::new();
    for i in 1..11 {
        let user_id = test_user_id(i);
        let uuid = test_uuid(i);
        all_appointments.push((uuid.clone(), user_id.clone()));

        if i % 2 == 0 {
            to_be_deleted.push((uuid, user_id));
        } else {
            rest.push((uuid, user_id));
        }
    }

    // Calling the method with unknown data should work but do nothing
    assert_eq!(gatekeeper.registered_users_count(), 0);
    gatekeeper.delete_appointments(&all_appointments);
    assert_eq!(gatekeeper.registered_users_count(), 0);

    // If there's matching data in the gatekeeper it should be deleted
    for (uuid, user_id) in to_be_deleted.iter() {
        gatekeeper.add_update_user(user_id).unwrap();
        gatekeeper
            .add_update_appointment(user_id, uuid, &dummy_appointment())
            .unwrap();
    }

    // Check before deleting
    assert_eq!(gatekeeper.registered_users_count(), 5);
    for (uuid, user_id) in to_be_deleted.iter() {
        let info = gatekeeper.get_user_info(user_id).unwrap();
        assert!(info.appointments.contains_key(uuid));

        // The slot count should be decreased now too (both in memory and in
        // the database)
        assert_ne!(info.available_slots, gatekeeper.subscription_slots);
        assert_ne!(
            gatekeeper.dbm.load_user(user_id).unwrap().available_slots,
            gatekeeper.subscription_slots
        );
    }
    for (_, user_id) in rest.iter() {
        assert!(gatekeeper.get_user_info(user_id).is_none());
    }

    // And after
    gatekeeper.delete_appointments(&all_appointments);
    for (uuid, user_id) in to_be_deleted.iter() {
        let info = gatekeeper.get_user_info(user_id).unwrap();
        assert!(!info.appointments.contains_key(uuid));

        // The slot count is back to default
        assert_eq!(info.available_slots, gatekeeper.subscription_slots);
        assert_eq!(
            gatekeeper.dbm.load_user(user_id).unwrap().available_slots,
            gatekeeper.subscription_slots
        );
    }
    for (_, user_id) in rest.iter() {
        assert!(gatekeeper.get_user_info(user_id).is_none());
    }
}

#[test]
fn test_block_connected() {
    // block_connected in the Gatekeeper is used to keep track of time in
    // order to manage the users' subscription expiry. When a new block is
    // received, the outdated_users_cache is updated and the users outdated
    // at the given height are deleted from registered_users.

    let mut gatekeeper = Gatekeeper::new(START_HEIGHT as u32, SLOTS, DURATION, EXPIRY_DELTA);
    let mut last_height = START_HEIGHT as u32;

    // Check that the cache is being updated when blocks are being received
    // (even with empty data) and its max size is not exceeded
    for i in 0..OUTDATED_USERS_CACHE_SIZE_BLOCKS * 2 {
        last_height += 1;
        gatekeeper.block_connected(last_height);
        if i < OUTDATED_USERS_CACHE_SIZE_BLOCKS {
            assert_eq!(gatekeeper.outdated_users_cache_len(), i + 1)
        } else {
            assert_eq!(
                gatekeeper.outdated_users_cache_len(),
                OUTDATED_USERS_CACHE_SIZE_BLOCKS
            )
        }
    }

    // Check that users are outdated when the expected height is hit
    let user1_id = test_user_id(1);
    let user2_id = test_user_id(2);
    let user3_id = test_user_id(3);

    last_height += 1;
    for user in [user1_id.clone(), user2_id.clone(), user3_id.clone()] {
        gatekeeper.add_update_user(&user).unwrap();
        gatekeeper.set_user_expiry(&user, last_height - EXPIRY_DELTA);
    }

    // Connect a new block so users are included in the cache
    gatekeeper.block_connected(last_height);

    // Check that users have been added to the cache and removed from
    // registered_users
    for user in [user1_id.clone(), user2_id.clone(), user3_id.clone()] {
        assert!(gatekeeper
            .get_outdated_users_cache_entry(last_height)
            .unwrap()
            .contains_key(&user));
        assert!(gatekeeper.get_user_info(&user).is_none());

        // Data is still in the database since the user is in the cache
        assert!(matches!(
            gatekeeper.dbm.load_user(&user),
            Ok(UserInfo { .. })
        ));
    }

    // Perform a full cache rotation and check that the data is not there anymore
    for _ in 0..OUTDATED_USERS_CACHE_SIZE_BLOCKS {
        last_height += 1;
        gatekeeper.block_connected(last_height);
    }

    for user in [user1_id, user2_id, user3_id] {
        assert!(matches!(
            gatekeeper.dbm.load_user(&user),
            Err(StoreError::NotFound)
        ));
    }
}

#[test]
fn test_outdated_at_exact_height() {
    // A user is outdated exactly at expiry + EXPIRY_DELTA, not before and
    // not after.
    let tip = START_HEIGHT as u32 + EXPIRY_DELTA;
    let mut gatekeeper = Gatekeeper::new(tip, SLOTS, DURATION, EXPIRY_DELTA);
    let user_id = test_user_id(1);
    let uuid = test_uuid(1);
    gatekeeper.add_update_user(&user_id).unwrap();
    gatekeeper
        .add_update_appointment(&user_id, &uuid, &dummy_appointment())
        .unwrap();
    gatekeeper.set_user_expiry(&user_id, START_HEIGHT as u32);

    let at_exact = gatekeeper.get_outdated_users(tip);
    assert_eq!(at_exact.len(), 1);
    assert_eq!(at_exact.get(&user_id).unwrap(), vec![uuid]);

    assert_eq!(gatekeeper.get_outdated_users(tip - 1).len(), 0);
    assert_eq!(gatekeeper.get_outdated_users(tip + 1).len(), 0);
}

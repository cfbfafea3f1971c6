use gatekeeper::{
    compute_appointment_slots, Gatekeeper, StoreError, UserId, UserInfo, UserStore,
    ENCRYPTED_BLOB_MAX_SIZE,
};

const SLOTS: u32 = 21;
const DURATION: u32 = 500;
const EXPIRY_DELTA: u32 = 42;
const START_HEIGHT: u32 = 100;

fn test_user_id(tag: u8) -> UserId {
    UserId(vec![tag; 33])
}

#[test]
fn test_compute_appointment_slots() {
    // An empty blob takes no slot; anything else rounds up per unit.
    assert_eq!(compute_appointment_slots(0, ENCRYPTED_BLOB_MAX_SIZE), 0);
    assert_eq!(compute_appointment_slots(1, ENCRYPTED_BLOB_MAX_SIZE), 1);
    assert_eq!(
        compute_appointment_slots(ENCRYPTED_BLOB_MAX_SIZE, ENCRYPTED_BLOB_MAX_SIZE),
        1
    );
    assert_eq!(
        compute_appointment_slots(ENCRYPTED_BLOB_MAX_SIZE + 1, ENCRYPTED_BLOB_MAX_SIZE),
        2
    );
    assert_eq!(
        compute_appointment_slots(3 * ENCRYPTED_BLOB_MAX_SIZE, ENCRYPTED_BLOB_MAX_SIZE),
        3
    );
}

#[test]
fn test_user_store() {
    let mut store = UserStore::new();
    let user_id = test_user_id(1);

    // Loading or storing against an absent user
    assert!(matches!(store.load_user(&user_id), Err(StoreError::NotFound)));

    let info = UserInfo::new(21, 600);
    store.store_user(&user_id, &info).unwrap();
    assert!(store.load_user(&user_id).unwrap() == info);

    // A second insert for the same user fails and changes nothing
    let other = UserInfo::new(42, 700);
    assert!(matches!(
        store.store_user(&user_id, &other),
        Err(StoreError::AlreadyExists)
    ));
    assert!(store.load_user(&user_id).unwrap() == info);

    // update_user upserts
    store.update_user(&user_id, &other);
    assert!(store.load_user(&user_id).unwrap() == other);

    // remove_user is idempotent
    store.remove_user(&user_id);
    assert!(matches!(store.load_user(&user_id), Err(StoreError::NotFound)));
    store.remove_user(&user_id);
    assert!(matches!(store.load_user(&user_id), Err(StoreError::NotFound)));
}

#[test]
fn test_renewal_at_consecutive_heights() {
    // First registration at height 100 yields (21, 600); renewing after one
    // block yields (42, 601).
    let mut gatekeeper = Gatekeeper::new(START_HEIGHT, SLOTS, DURATION, EXPIRY_DELTA);
    let user_id = test_user_id(1);

    let first = gatekeeper.add_update_user(&user_id).unwrap();
    assert_eq!(first.available_slots(), 21);
    assert_eq!(first.subscription_expiry(), 600);

    gatekeeper.last_known_height = 101;
    let second = gatekeeper.add_update_user(&user_id).unwrap();
    assert_eq!(second.available_slots(), 42);
    assert_eq!(second.subscription_expiry(), 601);
}

#[test]
fn test_receipt_fields() {
    let mut gatekeeper = Gatekeeper::new(START_HEIGHT, SLOTS, DURATION, EXPIRY_DELTA);
    let user_id = test_user_id(1);
    let receipt = gatekeeper.add_update_user(&user_id).unwrap();
    assert_eq!(receipt.user_id(), &user_id);
    assert_eq!(receipt.available_slots(), SLOTS);
    assert_eq!(receipt.subscription_expiry(), START_HEIGHT + DURATION);
}

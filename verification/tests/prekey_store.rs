use lm_node::prekey_store::{
    ConsumedOneTimePreKey, PreKeyBundle, PreKeyPublishError, PreKeyStore, SignedOneTimePreKeyRecord,
};

const FAR_FUTURE: u64 = 4_000_000_000;

fn bundle(user: &str, spk: u32, ids: &[u32], expires_at: u64) -> PreKeyBundle {
    PreKeyBundle {
        user_id: user.to_string(),
        signed_prekey_id: spk,
        expires_at,
        signed_prekey_expires_at: expires_at,
        one_time_prekey_ids: ids.to_vec(),
    }
}

fn record(user: &str, spk: u32, key: u32, expires_at: u64) -> SignedOneTimePreKeyRecord {
    SignedOneTimePreKeyRecord {
        user_id: user.to_string(),
        signed_prekey_id: spk,
        key_id: key,
        expires_at,
    }
}

fn accept_bundle(_b: &PreKeyBundle) -> bool {
    true
}

fn reject_bundle(_b: &PreKeyBundle) -> bool {
    false
}

/// Stands in for the signature check: a record verifies for a bundle of its own user and
/// signed prekey.
fn record_for_bundle(r: &SignedOneTimePreKeyRecord, b: &PreKeyBundle) -> bool {
    r.user_id == b.user_id && r.signed_prekey_id == b.signed_prekey_id
}

fn publish(store: &mut PreKeyStore, b: PreKeyBundle, records: Vec<SignedOneTimePreKeyRecord>) {
    store
        .publish_verified_with_signed_one_time_prekey_records(b, records, 100, &accept_bundle, &record_for_bundle)
        .unwrap();
}

fn alice() -> String {
    "alice".to_string()
}

#[test]
fn prekey_store_round_trip_keeps_consumed_one_time_prekey() {
    let mut node = PreKeyStore::default();
    publish(
        &mut node,
        bundle("alice", 7, &[], FAR_FUTURE),
        vec![record("alice", 7, 0, FAR_FUTURE), record("alice", 7, 1, FAR_FUTURE)],
    );
    assert!(node.take_for(&alice(), true).is_some());

    let bundles = node.all_bundles();
    let records = node.all_signed_one_time_prekey_records();
    let consumed: Vec<ConsumedOneTimePreKey> = node
        .consumed_for(&alice())
        .into_iter()
        .map(|key_id| ConsumedOneTimePreKey { user_id: alice(), key_id })
        .collect();

    let mut restored = PreKeyStore::new();
    restored.restore_bundles(bundles, &accept_bundle);
    restored.restore_signed_one_time_prekey_records(records, &record_for_bundle);
    restored.restore_consumed(consumed);

    assert_eq!(restored.len(), 1);
    assert_eq!(restored.consumed_for(&alice()), vec![0]);
    assert_eq!(restored.signed_one_time_prekey_records_for(&alice()).len(), 2);
}

#[test]
fn consuming_takes_hand_out_each_record_once() {
    let mut store = PreKeyStore::new();
    publish(
        &mut store,
        bundle("alice", 7, &[], FAR_FUTURE),
        vec![record("alice", 7, 1, FAR_FUTURE), record("alice", 7, 0, FAR_FUTURE)],
    );
    assert_eq!(store.published_one_time_prekeys_for(&alice()), Some(2));
    assert_eq!(store.remaining_one_time_prekeys_for(&alice()), Some(2));

    let (b, first, rec) = store.take_for_with_selected_one_time_prekey_material(&alice(), true).unwrap();
    assert_eq!(b.signed_prekey_id, 7);
    assert_eq!(first, Some(0));
    assert_eq!(rec.unwrap().key_id, 0);
    assert_eq!(store.remaining_one_time_prekeys_for(&alice()), Some(1));

    let (_, second) = store.take_for_with_selected_one_time_prekey(&alice(), true).unwrap();
    assert_eq!(second, Some(1));
    assert_eq!(store.remaining_one_time_prekeys_for(&alice()), Some(0));
    assert_eq!(store.consumed_for(&alice()), vec![0, 1]);

    // Records are held but none is fresh: no fallback to the bundle's keys.
    let (_, third) = store.take_for_with_selected_one_time_prekey_record(&alice(), true).unwrap();
    assert!(third.is_none());
    assert_eq!(store.published_one_time_prekeys_for(&alice()), Some(2));
}

#[test]
fn non_consuming_take_leaves_key_fresh() {
    let mut store = PreKeyStore::new();
    publish(&mut store, bundle("alice", 3, &[5, 6], FAR_FUTURE), Vec::new());
    let (_, id) = store.take_for_with_selected_one_time_prekey(&alice(), false).unwrap();
    assert_eq!(id, Some(5));
    let (_, id) = store.take_for_with_selected_one_time_prekey(&alice(), false).unwrap();
    assert_eq!(id, Some(5));
    assert!(store.consumed_for(&alice()).is_empty());
}

#[test]
fn bundle_keys_are_used_without_records() {
    let mut store = PreKeyStore::new();
    publish(&mut store, bundle("alice", 3, &[6, 5], FAR_FUTURE), Vec::new());
    assert_eq!(store.remaining_one_time_prekeys_for(&alice()), Some(2));
    let (_, a) = store.take_for_with_selected_one_time_prekey(&alice(), true).unwrap();
    let (_, b) = store.take_for_with_selected_one_time_prekey(&alice(), true).unwrap();
    let (_, c) = store.take_for_with_selected_one_time_prekey(&alice(), true).unwrap();
    assert_eq!((a, b, c), (Some(6), Some(5), None));
    assert_eq!(store.consumed_for(&alice()), vec![5, 6]);
    assert_eq!(store.remaining_one_time_prekeys_for(&alice()), Some(0));
}

#[test]
fn unknown_user_has_nothing() {
    let mut store = PreKeyStore::new();
    let bob = "bob".to_string();
    assert!(store.take_for(&bob, true).is_none());
    assert!(store.get_for(&bob).is_none());
    assert!(store.get_for_unchecked(&bob).is_none());
    assert_eq!(store.remaining_one_time_prekeys_for(&bob), None);
    assert_eq!(store.published_one_time_prekeys_for(&bob), None);
    assert!(store.is_empty());
}

#[test]
fn republish_same_signed_prekey_keeps_consumed_new_one_resets() {
    let mut store = PreKeyStore::new();
    publish(
        &mut store,
        bundle("alice", 7, &[], FAR_FUTURE),
        vec![record("alice", 7, 0, FAR_FUTURE), record("alice", 7, 1, FAR_FUTURE)],
    );
    store.take_for(&alice(), true).unwrap();
    assert_eq!(store.consumed_for(&alice()), vec![0]);

    publish(&mut store, bundle("alice", 7, &[], FAR_FUTURE), vec![record("alice", 7, 2, FAR_FUTURE)]);
    assert_eq!(store.consumed_for(&alice()), vec![0]);
    assert_eq!(store.signed_one_time_prekey_records_for(&alice()).len(), 3);

    publish(&mut store, bundle("alice", 8, &[], FAR_FUTURE), vec![record("alice", 8, 0, FAR_FUTURE)]);
    assert!(store.consumed_for(&alice()).is_empty());
    let held = store.signed_one_time_prekey_records_for(&alice());
    assert_eq!(held.len(), 1);
    assert_eq!((held[0].signed_prekey_id, held[0].key_id), (8, 0));
    assert_eq!(store.get_for_unchecked(&alice()).unwrap().signed_prekey_id, 8);
}

#[test]
fn publish_merges_records_by_key_in_order() {
    let mut store = PreKeyStore::new();
    publish(
        &mut store,
        bundle("alice", 7, &[], FAR_FUTURE),
        vec![
            record("alice", 7, 4, FAR_FUTURE),
            record("alice", 7, 2, 10),
            record("alice", 7, 2, FAR_FUTURE),
        ],
    );
    let held = store.signed_one_time_prekey_records_for(&alice());
    let keys: Vec<(u32, u64)> = held.iter().map(|r| (r.key_id, r.expires_at)).collect();
    assert_eq!(keys, vec![(2, FAR_FUTURE), (4, FAR_FUTURE)]);
}

#[test]
fn publish_refusals_leave_store_unchanged() {
    let mut store = PreKeyStore::new();
    let r = store.publish_verified_with_signed_one_time_prekey_records(
        bundle("alice", 7, &[], FAR_FUTURE),
        vec![
            record("alice", 7, 0, FAR_FUTURE),
            record("alice", 7, 1, FAR_FUTURE),
            record("alice", 7, 2, FAR_FUTURE),
        ],
        2,
        &accept_bundle,
        &record_for_bundle,
    );
    assert_eq!(r, Err(PreKeyPublishError::PayloadTooLarge));

    let r = store.publish_verified(bundle("alice", 7, &[], FAR_FUTURE), &reject_bundle, &record_for_bundle);
    assert_eq!(r, Err(PreKeyPublishError::InvalidBundle));

    let r = store.publish_verified_with_signed_one_time_prekey_records(
        bundle("alice", 7, &[], FAR_FUTURE),
        vec![record("alice", 7, 0, FAR_FUTURE), record("alice", 9, 1, FAR_FUTURE)],
        100,
        &accept_bundle,
        &record_for_bundle,
    );
    assert_eq!(r, Err(PreKeyPublishError::InvalidSignedOneTimePreKeyRecord));
    assert!(store.is_empty());
    assert_eq!(store.len(), 0);
    assert!(store.get_for_unchecked(&alice()).is_none());
}

#[test]
fn prune_expired_removes_expired_bundles_and_records() {
    let mut store = PreKeyStore::new();
    publish(&mut store, bundle("bob", 1, &[1], 100), Vec::new());
    publish(
        &mut store,
        bundle("alice", 7, &[], FAR_FUTURE),
        vec![record("alice", 7, 0, 150), record("alice", 7, 1, FAR_FUTURE)],
    );
    store.take_for_with_selected_one_time_prekey_material_at(&alice(), true, 50).unwrap();
    assert_eq!(store.consumed_for(&alice()), vec![0]);

    assert_eq!(store.prune_expired(99), 0);
    assert_eq!(store.len(), 2);
    assert_eq!(store.prune_expired(200), 1);
    assert_eq!(store.len(), 1);
    assert!(store.get_for_unchecked(&"bob".to_string()).is_none());
    let held = store.signed_one_time_prekey_records_for(&alice());
    assert_eq!(held.len(), 1);
    assert_eq!(held[0].key_id, 1);
    // The handed-out key went with its record.
    assert!(store.consumed_for(&alice()).is_empty());
}

#[test]
fn take_after_expiry_finds_nothing() {
    let mut store = PreKeyStore::new();
    let mut b = bundle("alice", 7, &[1, 2], 1_000);
    b.signed_prekey_expires_at = 500;
    publish(&mut store, b, Vec::new());
    assert!(store.take_for_with_selected_one_time_prekey_material_at(&alice(), true, 499).is_some());
    assert!(store.take_for_with_selected_one_time_prekey_material_at(&alice(), true, 500).is_none());
    assert!(store.is_empty());
    assert!(store.consumed_for(&alice()).is_empty());
}

#[test]
fn get_for_unchecked_gives_back_published_bundle() {
    let mut store = PreKeyStore::new();
    publish(&mut store, bundle("alice", 7, &[3, 4], FAR_FUTURE), Vec::new());
    let got = store.get_for_unchecked(&alice()).unwrap();
    assert_eq!(got.user_id, "alice");
    assert_eq!(got.signed_prekey_id, 7);
    assert_eq!(got.one_time_prekey_ids, vec![3, 4]);
    assert_eq!(store.get_for(&alice()).unwrap().expires_at, FAR_FUTURE);
}

#[test]
fn merge_bundles_counts_new_users_and_skips_rejected() {
    let mut store = PreKeyStore::new();
    publish(&mut store, bundle("alice", 7, &[1], FAR_FUTURE), Vec::new());
    let only_bob_and_carol = |b: &PreKeyBundle| b.user_id != "mallory";
    let n = store.merge_bundles(
        vec![
            bundle("alice", 7, &[1, 2], FAR_FUTURE),
            bundle("bob", 1, &[], FAR_FUTURE),
            bundle("mallory", 1, &[], FAR_FUTURE),
            bundle("carol", 1, &[], FAR_FUTURE),
            bundle("bob", 2, &[], FAR_FUTURE),
        ],
        &only_bob_and_carol,
        &record_for_bundle,
    );
    assert_eq!(n, 2);
    assert_eq!(store.len(), 3);
    assert_eq!(store.get_for_unchecked(&"bob".to_string()).unwrap().signed_prekey_id, 2);
    assert_eq!(store.published_one_time_prekeys_for(&alice()), Some(2));
    let users: Vec<String> = store.all_bundles().into_iter().map(|b| b.user_id).collect();
    assert_eq!(users, vec!["alice".to_string(), "bob".to_string(), "carol".to_string()]);
}

#[test]
fn merge_signed_records_counts_new_keys() {
    let mut store = PreKeyStore::new();
    publish(&mut store, bundle("alice", 7, &[], FAR_FUTURE), vec![record("alice", 7, 0, FAR_FUTURE)]);
    let n = store.merge_signed_one_time_prekey_records(
        vec![
            record("alice", 7, 0, FAR_FUTURE),
            record("alice", 7, 1, FAR_FUTURE),
            record("alice", 9, 2, FAR_FUTURE),
            record("nobody", 7, 3, FAR_FUTURE),
            record("alice", 7, 1, FAR_FUTURE),
        ],
        &record_for_bundle,
    );
    assert_eq!(n, 1);
    let keys: Vec<u32> = store
        .signed_one_time_prekey_records_for(&alice())
        .iter()
        .map(|r| r.key_id)
        .collect();
    assert_eq!(keys, vec![0, 1]);
    assert_eq!(store.all_signed_one_time_prekey_records().len(), 2);
}

#[test]
fn merge_consumed_keeps_valid_ids_sorted() {
    let mut store = PreKeyStore::new();
    publish(&mut store, bundle("alice", 7, &[4, 1, 9], FAR_FUTURE), Vec::new());
    store.merge_consumed(vec![
        ConsumedOneTimePreKey { user_id: alice(), key_id: 9 },
        ConsumedOneTimePreKey { user_id: alice(), key_id: 1 },
        ConsumedOneTimePreKey { user_id: alice(), key_id: 9 },
        ConsumedOneTimePreKey { user_id: alice(), key_id: 5 },
        ConsumedOneTimePreKey { user_id: "bob".to_string(), key_id: 1 },
    ]);
    assert_eq!(store.consumed_for(&alice()), vec![1, 9]);
    assert!(store.consumed_for(&"bob".to_string()).is_empty());
    assert_eq!(store.remaining_one_time_prekeys_for(&alice()), Some(1));
    store.restore_consumed(vec![ConsumedOneTimePreKey { user_id: alice(), key_id: 4 }]);
    assert_eq!(store.consumed_for(&alice()), vec![4]);
}

#[test]
fn restore_bundles_at_drops_expired_and_rejected() {
    let mut store = PreKeyStore::new();
    publish(&mut store, bundle("alice", 7, &[], FAR_FUTURE), vec![record("alice", 7, 0, FAR_FUTURE)]);
    store.restore_bundles_at(
        vec![bundle("alice", 7, &[], FAR_FUTURE), bundle("bob", 1, &[], 10)],
        &accept_bundle,
        20,
    );
    assert_eq!(store.len(), 1);
    assert!(store.signed_one_time_prekey_records_for(&alice()).is_empty());
    assert!(store.get_for_unchecked(&"bob".to_string()).is_none());
}

#[test]
fn expiring_twice_at_one_time_is_expiring_once() {
    let mut store = PreKeyStore::new();
    publish(&mut store, bundle("bob", 1, &[1], 100), Vec::new());
    publish(
        &mut store,
        bundle("alice", 7, &[], FAR_FUTURE),
        vec![record("alice", 7, 0, 150), record("alice", 7, 1, FAR_FUTURE)],
    );
    assert_eq!(store.prune_expired(200), 1);
    let records = store.signed_one_time_prekey_records_for(&alice()).len();
    assert_eq!(store.prune_expired(200), 0);
    assert_eq!(store.signed_one_time_prekey_records_for(&alice()).len(), records);
    assert_eq!(store.len(), 1);
}

use relos::store::memory::scan_prefix;
use relos::store::sorted_map::SortedMap;
use relos::store::{LocalStore, MemoryStore, ReadTransaction, WriteTransaction};

#[test]
fn test_put_and_get() {
    let mut store = MemoryStore::new();

    let mut txn = store.begin_write_txn().unwrap();
    txn.put(b"key1", b"value1").unwrap();
    txn.put(b"key2", b"value2").unwrap();
    txn.commit(&mut store).unwrap();

    let txn = store.begin_read_txn().unwrap();
    assert_eq!(txn.get(b"key1").unwrap(), Some(b"value1".to_vec()));
    assert_eq!(txn.get(b"key2").unwrap(), Some(b"value2".to_vec()));
    assert_eq!(txn.get(b"missing").unwrap(), None);
}

#[test]
fn test_put_overwrites() {
    let mut store = MemoryStore::new();

    let mut txn = store.begin_write_txn().unwrap();
    txn.put(b"k", b"v1").unwrap();
    txn.commit(&mut store).unwrap();

    let mut txn = store.begin_write_txn().unwrap();
    txn.put(b"k", b"v2").unwrap();
    txn.commit(&mut store).unwrap();

    let txn = store.begin_read_txn().unwrap();
    assert_eq!(txn.get(b"k").unwrap(), Some(b"v2".to_vec()));
}

#[test]
fn test_delete() {
    let mut store = MemoryStore::new();

    // Insert a key.
    let mut txn = store.begin_write_txn().unwrap();
    txn.put(b"key1", b"value1").unwrap();
    txn.commit(&mut store).unwrap();

    // Delete it.
    let mut txn = store.begin_write_txn().unwrap();
    txn.delete(b"key1").unwrap();
    // Should be gone within the same transaction.
    assert_eq!(txn.get(b"key1").unwrap(), None);
    txn.commit(&mut store).unwrap();

    // Confirm it's gone after commit.
    let txn = store.begin_read_txn().unwrap();
    assert_eq!(txn.get(b"key1").unwrap(), None);
}

#[test]
fn test_delete_nonexistent_key() {
    let mut store = MemoryStore::new();

    // Deleting a key that was never inserted should succeed.
    let mut txn = store.begin_write_txn().unwrap();
    txn.delete(b"nope").unwrap();
    txn.commit(&mut store).unwrap();
}

#[test]
fn test_commit() {
    let mut store = MemoryStore::new();

    let mut txn = store.begin_write_txn().unwrap();
    txn.put(b"a", b"1").unwrap();
    txn.commit(&mut store).unwrap();

    // Data should be visible in a new read transaction.
    let txn = store.begin_read_txn().unwrap();
    assert_eq!(txn.get(b"a").unwrap(), Some(b"1".to_vec()));
}

#[test]
fn test_rollback() {
    let store = MemoryStore::new();

    let mut txn = store.begin_write_txn().unwrap();
    txn.put(b"key1", b"value1").unwrap();
    txn.rollback().unwrap();

    // Data should NOT be visible after rollback.
    let txn = store.begin_read_txn().unwrap();
    assert_eq!(txn.get(b"key1").unwrap(), None);
}

#[test]
fn test_rollback_preserves_existing_data() {
    let mut store = MemoryStore::new();

    // Insert initial data.
    let mut txn = store.begin_write_txn().unwrap();
    txn.put(b"keep", b"me").unwrap();
    txn.commit(&mut store).unwrap();

    // Start a new write txn, mutate, then rollback.
    let mut txn = store.begin_write_txn().unwrap();
    txn.put(b"new", b"data").unwrap();
    txn.delete(b"keep").unwrap();
    txn.rollback().unwrap();

    // Original data should still be intact.
    let txn = store.begin_read_txn().unwrap();
    assert_eq!(txn.get(b"keep").unwrap(), Some(b"me".to_vec()));
    assert_eq!(txn.get(b"new").unwrap(), None);
}

#[test]
fn test_prefix_scan() {
    let mut store = MemoryStore::new();

    let mut txn = store.begin_write_txn().unwrap();
    txn.put(b"users/1", b"alice").unwrap();
    txn.put(b"users/2", b"bob").unwrap();
    txn.put(b"users/3", b"carol").unwrap();
    txn.put(b"orders/1", b"order1").unwrap();
    txn.put(b"orders/2", b"order2").unwrap();
    txn.commit(&mut store).unwrap();

    let txn = store.begin_read_txn().unwrap();

    let users = txn.prefix_scan(b"users/").unwrap();
    assert_eq!(users.len(), 3);
    assert_eq!(users[0], (b"users/1".to_vec(), b"alice".to_vec()));
    assert_eq!(users[1], (b"users/2".to_vec(), b"bob".to_vec()));
    assert_eq!(users[2], (b"users/3".to_vec(), b"carol".to_vec()));

    let orders = txn.prefix_scan(b"orders/").unwrap();
    assert_eq!(orders.len(), 2);

    let empty = txn.prefix_scan(b"nonexistent/").unwrap();
    assert!(empty.is_empty());
}

#[test]
fn test_prefix_scan_within_write_txn() {
    let store = MemoryStore::new();

    let mut txn = store.begin_write_txn().unwrap();
    txn.put(b"a/1", b"v1").unwrap();
    txn.put(b"a/2", b"v2").unwrap();
    txn.put(b"b/1", b"v3").unwrap();

    // Scan should see uncommitted writes within the same transaction.
    let results = txn.prefix_scan(b"a/").unwrap();
    assert_eq!(results.len(), 2);
    assert_eq!(results[0].0, b"a/1".to_vec());
    assert_eq!(results[1].0, b"a/2".to_vec());

    txn.rollback().unwrap();
}

#[test]
fn test_snapshot_isolation() {
    let mut store = MemoryStore::new();

    // Insert initial data.
    let mut txn = store.begin_write_txn().unwrap();
    txn.put(b"key1", b"value1").unwrap();
    txn.commit(&mut store).unwrap();

    // Take a read snapshot.
    let snapshot = store.begin_read_txn().unwrap();

    // Write more data after the snapshot was taken.
    let mut txn = store.begin_write_txn().unwrap();
    txn.put(b"key2", b"value2").unwrap();
    txn.put(b"key1", b"updated").unwrap();
    txn.commit(&mut store).unwrap();

    // The snapshot should NOT see the new writes.
    assert_eq!(
        snapshot.get(b"key1").unwrap(),
        Some(b"value1".to_vec()),
        "snapshot should see original value"
    );
    assert_eq!(snapshot.get(b"key2").unwrap(), None, "snapshot should not see key2");

    // A new read transaction SHOULD see the updates.
    let fresh = store.begin_read_txn().unwrap();
    assert_eq!(fresh.get(b"key1").unwrap(), Some(b"updated".to_vec()));
    assert_eq!(fresh.get(b"key2").unwrap(), Some(b"value2".to_vec()));
}

#[test]
fn test_write_txn_isolation_from_concurrent_reads() {
    let mut store = MemoryStore::new();

    let mut txn = store.begin_write_txn().unwrap();
    txn.put(b"k", b"v").unwrap();

    // Before commit, a read txn should not see the write.
    let ro = store.begin_read_txn().unwrap();
    assert_eq!(ro.get(b"k").unwrap(), None);

    txn.commit(&mut store).unwrap();

    // After commit, a NEW read txn should see it.
    let ro2 = store.begin_read_txn().unwrap();
    assert_eq!(ro2.get(b"k").unwrap(), Some(b"v".to_vec()));
}

#[test]
fn test_flush_is_noop() {
    let mut store = MemoryStore::new();
    // Should succeed without error.
    store.flush().unwrap();
}

#[test]
fn test_empty_prefix_scan_returns_all() {
    let mut store = MemoryStore::new();

    let mut txn = store.begin_write_txn().unwrap();
    txn.put(b"a", b"1").unwrap();
    txn.put(b"b", b"2").unwrap();
    txn.put(b"c", b"3").unwrap();
    txn.commit(&mut store).unwrap();

    let txn = store.begin_read_txn().unwrap();
    let all = txn.prefix_scan(b"").unwrap();
    assert_eq!(all.len(), 3);
}

#[test]
fn test_multiple_commits() {
    let mut store = MemoryStore::new();

    let mut txn = store.begin_write_txn().unwrap();
    txn.put(b"k1", b"v1").unwrap();
    txn.commit(&mut store).unwrap();

    let mut txn = store.begin_write_txn().unwrap();
    txn.put(b"k2", b"v2").unwrap();
    txn.commit(&mut store).unwrap();

    let mut txn = store.begin_write_txn().unwrap();
    txn.put(b"k3", b"v3").unwrap();
    txn.commit(&mut store).unwrap();

    let txn = store.begin_read_txn().unwrap();
    assert_eq!(txn.get(b"k1").unwrap(), Some(b"v1".to_vec()));
    assert_eq!(txn.get(b"k2").unwrap(), Some(b"v2".to_vec()));
    assert_eq!(txn.get(b"k3").unwrap(), Some(b"v3".to_vec()));
}

#[test]
fn last_commit_replaces_the_contents() {
    // A write transaction works on a snapshot, and its commit installs all of it.
    let mut store = MemoryStore::new();
    let mut early = store.begin_write_txn().unwrap();
    early.put(b"early", b"1").unwrap();
    let mut late = store.begin_write_txn().unwrap();
    late.put(b"late", b"2").unwrap();
    early.commit(&mut store).unwrap();
    late.commit(&mut store).unwrap();

    let txn = store.begin_read_txn().unwrap();
    assert_eq!(txn.get(b"early").unwrap(), None);
    assert_eq!(txn.get(b"late").unwrap(), Some(b"2".to_vec()));
}

#[test]
fn store_commits_and_rolls_back_by_the_trait() {
    let mut store = MemoryStore::default();
    let mut txn = store.begin_write_txn().unwrap();
    txn.put(b"k", b"v").unwrap();
    store.commit(txn).unwrap();
    let mut txn = store.begin_write_txn().unwrap();
    txn.delete(b"k").unwrap();
    store.rollback(txn).unwrap();
    assert_eq!(store.begin_read_txn().unwrap().get(b"k").unwrap(), Some(b"v".to_vec()));
}

#[test]
fn keys_are_ordered_by_their_bytes() {
    let mut map = SortedMap::new();
    let keys: Vec<Vec<u8>> = vec![
        vec![255],
        vec![],
        vec![1, 255],
        vec![1],
        vec![0, 0],
        vec![2],
        vec![255, 0],
    ];
    for k in &keys {
        map.insert(k.clone(), vec![k.len() as u8]);
    }
    let mut expected = keys.clone();
    expected.sort();
    let found: Vec<Vec<u8>> = map.scan(&[]).into_iter().map(|(k, _)| k).collect();
    assert_eq!(found, expected);
    assert_eq!(
        scan_prefix(&map, &[255]),
        vec![(vec![255], vec![1]), (vec![255, 0], vec![2])]
    );
    map.remove(&[1]);
    assert_eq!(scan_prefix(&map, &[1]), vec![(vec![1, 255], vec![2])]);
    assert!(map.get(&[1]).is_none());
    assert_eq!(map.get(&[]), Some(&vec![0]));
}

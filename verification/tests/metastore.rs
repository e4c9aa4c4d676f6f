use relos::log::{LogChain, MemoryMetaStore, MetaStore};

#[test]
fn test_read_initial() {
    let store = MemoryMetaStore::new(LogChain::new("loglet-0".to_string()));
    let (chain, version) = store.read().unwrap();
    assert_eq!(version, 0);
    assert_eq!(chain.segments.len(), 1);
    assert_eq!(chain.segments[0].loglet_id, "loglet-0");
}

#[test]
fn test_write_success() {
    let mut store = MemoryMetaStore::new(LogChain::new("loglet-0".to_string()));

    let mut new_chain = LogChain::new("loglet-0".to_string());
    new_chain.extend(5, "loglet-1".to_string());

    let success = store.write(new_chain, 0).unwrap();
    assert!(success);

    let (chain, version) = store.read().unwrap();
    assert_eq!(version, 1);
    assert_eq!(chain.segments.len(), 2);
}

#[test]
fn test_write_cas_failure() {
    let mut store = MemoryMetaStore::new(LogChain::new("loglet-0".to_string()));

    // First write succeeds
    let mut chain1 = LogChain::new("loglet-0".to_string());
    chain1.extend(5, "loglet-1".to_string());
    assert!(store.write(chain1, 0).unwrap());

    // Second write with stale version fails
    let mut chain2 = LogChain::new("loglet-0".to_string());
    chain2.extend(3, "loglet-2".to_string());
    let success = store.write(chain2, 0).unwrap();
    assert!(!success);

    // Version should still be 1
    let (_, version) = store.read().unwrap();
    assert_eq!(version, 1);
}

#[test]
fn test_sequential_writes() {
    let mut store = MemoryMetaStore::new(LogChain::new("loglet-0".to_string()));

    let mut chain = LogChain::new("loglet-0".to_string());
    chain.extend(5, "loglet-1".to_string());
    assert!(store.write(chain.clone(), 0).unwrap());

    chain.extend(10, "loglet-2".to_string());
    assert!(store.write(chain, 1).unwrap());

    let (final_chain, version) = store.read().unwrap();
    assert_eq!(version, 2);
    assert_eq!(final_chain.segments.len(), 3);
}

#[test]
fn failed_write_leaves_the_chain() {
    let mut store = MemoryMetaStore::new(LogChain::new("kept".to_string()));
    assert!(!store.write(LogChain::new("other".to_string()), 7).unwrap());
    let (chain, version) = store.read().unwrap();
    assert_eq!(version, 0);
    assert_eq!(chain.segments[0].loglet_id, "kept");
}

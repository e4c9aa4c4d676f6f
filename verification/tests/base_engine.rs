use relos::base::{Entry, EntryView, LogPos, RelosError};
use relos::engine::{Applicator, BaseEngine, Engine, ReturnValue};
use relos::engine::traits::Step;
use relos::log::{LogChain, Loglet, MemoryLoglet, MemoryLogletFactory, MemoryMetaStore, VirtualLog};
use relos::store::sorted_map::Contents;
use relos::store::{LocalStore, MemoryStore, ReadTransaction, WriteTransaction};

type Log = VirtualLog<MemoryLogletFactory, MemoryMetaStore>;

fn make_virtual_log() -> Log {
    let chain = LogChain::new("loglet-0".to_string());
    VirtualLog::new(MemoryMetaStore::new(chain), MemoryLogletFactory).unwrap()
}

/// A simple test applicator that stores each entry's payload under a key
/// derived from its log position: `entry:<pos>`.
struct TestApplicator;

impl Applicator for TestApplicator {
    type Model = ();

    fn model(&self) -> () {
        unreachable!()
    }

    fn step(_: (), _: Contents, _: EntryView, _: LogPos) -> Step<()> {
        unreachable!()
    }

    fn apply<T: WriteTransaction>(
        &mut self,
        txn: &mut T,
        entry: &Entry,
        pos: LogPos,
    ) -> Result<ReturnValue, RelosError> {
        let key = format!("entry:{}", pos);
        txn.put(key.as_bytes(), &entry.payload)?;
        Ok(ReturnValue::Data(entry.payload.clone()))
    }
}

fn setup() -> BaseEngine<Log, MemoryStore, TestApplicator> {
    BaseEngine::new(make_virtual_log(), MemoryStore::new(), TestApplicator).unwrap()
}

/// What the engine's store holds under a key.
fn stored<E: Engine>(engine: &E, key: &[u8]) -> Option<Vec<u8>> {
    engine.local_store().begin_read_txn().unwrap().get(key).unwrap()
}

#[test]
fn test_propose_single_entry() {
    let mut engine = setup();

    let entry = Entry::new(b"hello".to_vec());
    let rv = engine.propose(entry).unwrap();

    // Should return the payload data.
    match rv {
        ReturnValue::Data(d) => assert_eq!(d, b"hello"),
        _ => panic!("expected Data return value"),
    }

    // Verify the entry was persisted in the store.
    assert_eq!(stored(&engine, b"entry:1"), Some(b"hello".to_vec()));
}

#[test]
fn test_propose_multiple_entries() {
    let mut engine = setup();

    for i in 0..5u8 {
        let entry = Entry::new(vec![i]);
        engine.propose(entry).unwrap();
    }

    for i in 0..5u8 {
        let key = format!("entry:{}", i + 1);
        assert_eq!(stored(&engine, key.as_bytes()), Some(vec![i]));
    }
}

#[test]
fn test_sync_catches_up() {
    let mut engine = setup();

    // Append entries directly to the log (bypassing the engine).
    engine.loglet_mut().append(&Entry::new(b"external1".to_vec())).unwrap();
    engine.loglet_mut().append(&Entry::new(b"external2".to_vec())).unwrap();

    // Sync should apply those entries.
    let tail = engine.sync().unwrap();
    assert_eq!(tail, 3); // 2 entries => tail is at position 3

    // Verify both entries were applied.
    assert_eq!(stored(&engine, b"entry:1"), Some(b"external1".to_vec()));
    assert_eq!(stored(&engine, b"entry:2"), Some(b"external2".to_vec()));
}

#[test]
fn test_sync_idempotent() {
    let mut engine = setup();

    // Sync with nothing in the log.
    let tail1 = engine.sync().unwrap();
    let tail2 = engine.sync().unwrap();
    assert_eq!(tail1, tail2);
}

#[test]
fn test_propose_then_sync() {
    let mut engine = setup();

    engine.propose(Entry::new(b"first".to_vec())).unwrap();
    let tail = engine.sync().unwrap();
    assert_eq!(tail, 2);

    assert_eq!(stored(&engine, b"entry:1"), Some(b"first".to_vec()));
}

#[test]
fn test_cursor_persisted() {
    // Create engine, propose an entry, then drop.
    let (mut vlog, store, applicator) = {
        let mut engine = setup();
        engine.propose(Entry::new(b"persisted".to_vec())).unwrap();
        engine.into_parts()
    };

    // Verify cursor was persisted.
    let txn = store.begin_read_txn().unwrap();
    let cursor_bytes = txn.get(b"__cursor__").unwrap().expect("cursor should exist");
    let cursor = u64::from_le_bytes(cursor_bytes.try_into().unwrap());
    assert_eq!(cursor, 2); // next position after pos 1

    // Create a new engine — it should pick up the cursor and NOT re-apply.
    // Append another entry directly.
    vlog.append(&Entry::new(b"second".to_vec())).unwrap();

    let mut engine2 = BaseEngine::new(vlog, store, applicator).unwrap();
    assert_eq!(engine2.cursor(), 2);
    engine2.sync().unwrap();

    // entry:1 should still be "persisted" (not re-applied).
    assert_eq!(stored(&engine2, b"entry:1"), Some(b"persisted".to_vec()));
    // entry:2 should be "second".
    assert_eq!(stored(&engine2, b"entry:2"), Some(b"second".to_vec()));
}

#[test]
fn test_entries_applied_in_order() {
    let mut engine = setup();

    // Append entries directly to the log to ensure ordering.
    engine.loglet_mut().append(&Entry::new(b"a".to_vec())).unwrap();
    engine.loglet_mut().append(&Entry::new(b"b".to_vec())).unwrap();
    engine.loglet_mut().append(&Entry::new(b"c".to_vec())).unwrap();

    engine.sync().unwrap();

    assert_eq!(stored(&engine, b"entry:1"), Some(b"a".to_vec()));
    assert_eq!(stored(&engine, b"entry:2"), Some(b"b".to_vec()));
    assert_eq!(stored(&engine, b"entry:3"), Some(b"c".to_vec()));
}

#[test]
fn proposal_applies_what_came_before_it() {
    let mut engine = setup();
    engine.loglet_mut().append(&Entry::new(b"before".to_vec())).unwrap();
    match engine.propose(Entry::new(b"mine".to_vec())).unwrap() {
        ReturnValue::Data(d) => assert_eq!(d, b"mine"),
        _ => panic!("expected Data return value"),
    }
    assert_eq!(stored(&engine, b"entry:1"), Some(b"before".to_vec()));
    assert_eq!(stored(&engine, b"entry:2"), Some(b"mine".to_vec()));
    assert_eq!(engine.cursor(), 3);
}

#[test]
fn replicas_hold_the_same() {
    let mut often = BaseEngine::new(MemoryLoglet::new(), MemoryStore::new(), TestApplicator).unwrap();
    let mut once = BaseEngine::new(MemoryLoglet::new(), MemoryStore::new(), TestApplicator).unwrap();
    for i in 0..6u8 {
        often.loglet_mut().append(&Entry::new(vec![i])).unwrap();
        once.loglet_mut().append(&Entry::new(vec![i])).unwrap();
        if i % 2 == 0 {
            often.sync().unwrap();
        }
    }
    assert_eq!(often.sync().unwrap(), 7);
    assert_eq!(once.sync().unwrap(), 7);
    let a = often.local_store().begin_read_txn().unwrap().prefix_scan(b"").unwrap();
    let b = once.local_store().begin_read_txn().unwrap().prefix_scan(b"").unwrap();
    assert_eq!(a, b);
    assert_eq!(a.len(), 7);
}

#[test]
fn broken_cursor_is_refused() {
    let mut store = MemoryStore::new();
    let mut txn = store.begin_write_txn().unwrap();
    txn.put(b"__cursor__", b"short").unwrap();
    txn.commit(&mut store).unwrap();
    match BaseEngine::new(make_virtual_log(), store, TestApplicator) {
        Err(RelosError::Store(m)) => assert_eq!(m, "invalid cursor bytes"),
        _ => panic!("expected an error"),
    }
}

#[test]
fn trimmed_entries_stop_a_late_engine() {
    let mut engine = BaseEngine::new(MemoryLoglet::new(), MemoryStore::new(), TestApplicator).unwrap();
    for i in 0..3u8 {
        engine.loglet_mut().append(&Entry::new(vec![i])).unwrap();
    }
    engine.loglet_mut().trim(3).unwrap();
    assert!(matches!(engine.sync(), Err(RelosError::Trimmed(1))));
    assert!(matches!(engine.propose(Entry::new(vec![9])), Err(RelosError::Trimmed(1))));
    assert_eq!(engine.cursor(), 1);
    assert_eq!(engine.loglet().check_tail().unwrap(), 5);
}

#[test]
fn sealed_loglet_refuses_proposals() {
    let mut engine = BaseEngine::new(MemoryLoglet::new(), MemoryStore::new(), TestApplicator).unwrap();
    engine.propose(Entry::new(vec![1])).unwrap();
    engine.loglet_mut().seal().unwrap();
    assert!(matches!(engine.propose(Entry::new(vec![2])), Err(RelosError::Sealed(2))));
    assert_eq!(engine.sync().unwrap(), 2);
}

/// Refuses entries without a payload.
struct Picky;

impl Applicator for Picky {
    type Model = ();

    fn model(&self) -> () {
        unreachable!()
    }

    fn step(_: (), _: Contents, _: EntryView, _: LogPos) -> Step<()> {
        unreachable!()
    }

    fn apply<T: WriteTransaction>(
        &mut self,
        txn: &mut T,
        entry: &Entry,
        _pos: LogPos,
    ) -> Result<ReturnValue, RelosError> {
        txn.put(b"last", &entry.payload)?;
        if entry.payload.is_empty() {
            return Err(RelosError::InvalidOperation("nothing to do".to_string()));
        }
        Ok(ReturnValue::Success)
    }
}

#[test]
fn failed_entry_leaves_the_store() {
    let mut engine = BaseEngine::new(MemoryLoglet::new(), MemoryStore::new(), Picky).unwrap();
    assert!(matches!(engine.propose(Entry::new(vec![1])), Ok(ReturnValue::Success)));
    assert!(matches!(
        engine.propose(Entry::new(Vec::new())),
        Err(RelosError::InvalidOperation(_))
    ));
    assert_eq!(stored(&engine, b"last"), Some(vec![1]));
    assert_eq!(engine.cursor(), 2);
}

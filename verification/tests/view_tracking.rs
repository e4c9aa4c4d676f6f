use std::collections::BTreeMap;

use relos::base::{Entry, EntryView, LogPos, RelosError, ServerId};
use relos::engine::traits::Step;
use relos::engine::view_tracking::{ShowsViews, TracksViews};
use relos::engine::{
    Applicator, BaseEngine, BatchingApplicator, BatchingEngine, Engine, ReturnValue,
    ViewTrackingApplicator, ViewTrackingEngine,
};
use relos::log::{LogChain, Loglet, MemoryLoglet, MemoryLogletFactory, MemoryMetaStore, VirtualLog};
use relos::store::sorted_map::Contents;
use relos::store::{LocalStore, MemoryStore, ReadTransaction, WriteTransaction};

type Log = VirtualLog<MemoryLogletFactory, MemoryMetaStore>;

fn make_virtual_log() -> Log {
    let chain = LogChain::new("loglet-0".to_string());
    VirtualLog::new(MemoryMetaStore::new(chain), MemoryLogletFactory).unwrap()
}

/// Simple test applicator that stores payloads.
struct TestApplicator;

impl Applicator for TestApplicator {
    type Model = ();

    fn model(&self) {
        unreachable!()
    }

    fn step(_: (), _: Contents, _: EntryView, _: LogPos) -> Step<()> {
        unreachable!()
    }

    fn apply<T: WriteTransaction>(
        &mut self,
        txn: &mut T,
        entry: &Entry,
        pos: LogPos,
    ) -> Result<ReturnValue, RelosError> {
        let key = format!("entry:{}", pos);
        txn.put(key.as_bytes(), &entry.payload)?;
        Ok(ReturnValue::Data(entry.payload.clone()))
    }
}

#[test]
fn test_view_tracking_injects_header() {
    let server_id: ServerId = 42;

    let vt_applicator = ViewTrackingApplicator::new(TestApplicator);
    let base = BaseEngine::new(make_virtual_log(), MemoryStore::new(), vt_applicator).unwrap();
    let mut vt_engine = ViewTrackingEngine::new(base, server_id);

    // Propose an entry.
    let entry = Entry::new(b"hello".to_vec());
    vt_engine.propose(entry).unwrap();

    // Read the entry back from the log and verify it has the header.
    let log_entry = vt_engine.inner().loglet().read(1).unwrap().expect("entry should exist");
    assert!(
        log_entry.get_header("view_tracking").is_some(),
        "entry should have view_tracking header"
    );

    // Deserialize and check content.
    let metadata: (u64, u64) =
        bincode::deserialize(log_entry.get_header("view_tracking").unwrap()).unwrap();
    assert_eq!(metadata.0, 42);
}

#[test]
fn test_view_tracking_computes_min_trim_prefix() {
    // Manually populate views and check trim_prefix.
    let mut views = BTreeMap::new();
    views.insert(1, 10);
    views.insert(2, 5);
    views.insert(3, 15);

    let app = ViewTrackingApplicator::with_views(TestApplicator, views);
    let base = BaseEngine::new(MemoryLoglet::new(), MemoryStore::new(), app).unwrap();
    let engine = ViewTrackingEngine::new(base, 1);

    let prefix = engine.trim_prefix();
    assert_eq!(prefix, Some(5));
}

#[test]
fn test_view_tracking_passthrough() {
    let server_id: ServerId = 1;

    // Build the stack: ViewTrackingApplicator -> TestApplicator
    let vt_applicator = ViewTrackingApplicator::new(TestApplicator);
    let base = BaseEngine::new(make_virtual_log(), MemoryStore::new(), vt_applicator).unwrap();
    let mut vt_engine = ViewTrackingEngine::new(base, server_id);

    // Propose works.
    let rv = vt_engine.propose(Entry::new(b"data".to_vec())).unwrap();
    match rv {
        ReturnValue::Data(d) => assert_eq!(d, b"data"),
        _ => panic!("expected Data return value"),
    }

    // Sync works.
    let tail = vt_engine.sync().unwrap();
    assert_eq!(tail, 2);

    // Verify the applicator stored the entry.
    let txn = vt_engine.local_store().begin_read_txn().unwrap();
    assert_eq!(txn.get(b"entry:1").unwrap(), Some(b"data".to_vec()));
}

#[test]
fn no_views_no_prefix() {
    let app = ViewTrackingApplicator::new(TestApplicator);
    let base = BaseEngine::new(MemoryLoglet::new(), MemoryStore::new(), app).unwrap();
    let engine = ViewTrackingEngine::new(base, 1);
    assert_eq!(engine.trim_prefix(), None);
}

#[test]
fn applying_records_the_announced_cursor() {
    let app = ViewTrackingApplicator::new(TestApplicator);
    let base = BaseEngine::new(MemoryLoglet::new(), MemoryStore::new(), app).unwrap();
    let mut engine = ViewTrackingEngine::new(base, 7);
    engine.propose(Entry::new(b"a".to_vec())).unwrap();
    assert_eq!(engine.shown_views().get(&7), Some(&1));
    engine.propose(Entry::new(b"b".to_vec())).unwrap();
    assert_eq!(engine.shown_views().get(&7), Some(&2));
    assert_eq!(engine.trim_prefix(), Some(2));
    assert_eq!(engine.played_to(), 3);

    // The header carries the server and the next position that it would apply.
    let first = engine.inner().loglet().read(1).unwrap().unwrap();
    let first: (u64, u64) = bincode::deserialize(first.get_header("view_tracking").unwrap()).unwrap();
    assert_eq!(first, (7, 1));
    let second = engine.inner().loglet().read(2).unwrap().unwrap();
    assert_eq!(
        second.get_header("view_tracking").unwrap(),
        bincode::serialize(&(7u64, 2u64)).unwrap()
    );
}

#[test]
fn entry_without_header_leaves_the_views() {
    let mut app = ViewTrackingApplicator::new(TestApplicator);
    let store = MemoryStore::new();
    let mut txn = store.begin_write_txn().unwrap();
    app.apply(&mut txn, &Entry::new(b"x".to_vec()), 3).unwrap();
    assert!(app.views().is_empty());
    let header = bincode::serialize(&(7u64, 3u64)).unwrap();
    app.apply(&mut txn, &Entry::new(b"x".to_vec()).with_header("view_tracking", header), 10).unwrap();
    assert_eq!(app.views().get(&7), Some(&3));
}

#[test]
fn trim_prefix_waits_for_the_slowest_server() {
    // Another server, which has played the log up to the second position.
    let header = bincode::serialize(&(2u64, 2u64)).unwrap();
    let mut log = MemoryLoglet::new();
    for _ in 0..2 {
        log.append(&Entry::new(b"old".to_vec())).unwrap();
    }
    let theirs = Entry::new(b"theirs".to_vec()).with_header("view_tracking", header);
    log.append(&theirs).unwrap();

    let app = ViewTrackingApplicator::new(TestApplicator);
    let base = BaseEngine::new(log, MemoryStore::new(), app).unwrap();
    let mut engine = ViewTrackingEngine::new(base, 1);
    engine.propose(Entry::new(b"mine".to_vec())).unwrap();
    // This server announced itself before it played the log.
    assert_eq!(engine.trim_prefix(), Some(1));
    engine.propose(Entry::new(b"mine".to_vec())).unwrap();
    assert_eq!(engine.shown_views().get(&1), Some(&5));
    assert_eq!(engine.trim_prefix(), Some(2));
}

#[test]
fn trim_at_the_prefix_changes_nothing_for_a_server() {
    let entries = [b"a", b"b", b"c", b"d"];
    let apply = |trim: Option<LogPos>| {
        let mut log = MemoryLoglet::new();
        for e in &entries[..2] {
            log.append(&Entry::new(e.to_vec())).unwrap();
        }
        let mut engine = BaseEngine::new(log, MemoryStore::new(), TestApplicator).unwrap();
        engine.sync().unwrap();
        for e in &entries[2..] {
            engine.loglet_mut().append(&Entry::new(e.to_vec())).unwrap();
        }
        if let Some(pos) = trim {
            engine.loglet_mut().trim(pos).unwrap();
        }
        assert_eq!(engine.sync().unwrap(), 5);
        engine.local_store().begin_read_txn().unwrap().prefix_scan(b"").unwrap()
    };
    assert_eq!(apply(Some(3)), apply(None));
}

#[test]
fn broken_header_is_an_error() {
    let mut app = ViewTrackingApplicator::new(TestApplicator);
    let store = MemoryStore::new();
    let mut txn = store.begin_write_txn().unwrap();
    let entry = Entry::new(b"x".to_vec()).with_header("view_tracking", vec![1]);
    let broken: Result<(u64, u64), _> = bincode::deserialize(&[1u8]);
    match app.apply(&mut txn, &entry, 1) {
        Err(RelosError::Serialization(m)) => assert_eq!(m, broken.unwrap_err().to_string()),
        _ => panic!("expected an error"),
    }
}

#[test]
fn views_show_through_a_batching_layer() {
    let app = BatchingApplicator::new(ViewTrackingApplicator::new(TestApplicator));
    let base = BaseEngine::new(MemoryLoglet::new(), MemoryStore::new(), app).unwrap();
    let tracking = ViewTrackingEngine::new(BatchingEngine::new(base, Some(1), None), 3);
    assert!(tracking.shown_views().is_empty());
}

#[test]
fn views_are_recorded_beside_batching() {
    let app = ViewTrackingApplicator::new(BatchingApplicator::new(TestApplicator));
    let base = BaseEngine::new(MemoryLoglet::new(), MemoryStore::new(), app).unwrap();
    let mut engine = BatchingEngine::new(ViewTrackingEngine::new(base, 3), Some(10), None);
    engine.propose(Entry::new(b"a".to_vec())).unwrap();
    assert_eq!(engine.shown_views().get(&3), Some(&1));
    engine.propose(Entry::new(b"b".to_vec())).unwrap();
    assert_eq!(engine.shown_views().get(&3), Some(&2));
    assert_eq!(engine.downstream().trim_prefix(), Some(2));
}

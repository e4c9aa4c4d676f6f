use std::sync::atomic::{AtomicU64, Ordering};
use std::sync::Arc;

use relos::base::{Entry, EntryView, LogPos, RelosError};
use relos::engine::traits::Step;
use relos::engine::{
    Applicator, BaseEngine, Engine, MetricsReporter, ObserverApplicator, ObserverEngine,
    ReturnValue,
};
use relos::log::{LogChain, MemoryLogletFactory, MemoryMetaStore, VirtualLog};
use relos::store::sorted_map::Contents;
use relos::store::{LocalStore, MemoryStore, ReadTransaction, WriteTransaction};

type Log = VirtualLog<MemoryLogletFactory, MemoryMetaStore>;

fn make_virtual_log() -> Log {
    let chain = LogChain::new("loglet-0".to_string());
    VirtualLog::new(MemoryMetaStore::new(chain), MemoryLogletFactory).unwrap()
}

struct TestApplicator;

impl Applicator for TestApplicator {
    type Model = ();

    fn model(&self) {
        unreachable!()
    }

    fn step(_: (), _: Contents, _: EntryView, _: LogPos) -> Step<()> {
        unreachable!()
    }

    fn apply<T: WriteTransaction>(
        &mut self,
        txn: &mut T,
        entry: &Entry,
        pos: LogPos,
    ) -> Result<ReturnValue, RelosError> {
        let key = format!("entry:{}", pos);
        txn.put(key.as_bytes(), &entry.payload)?;
        Ok(ReturnValue::Data(entry.payload.clone()))
    }
}

/// A test metrics reporter that counts calls.
struct CountingMetrics {
    propose_count: AtomicU64,
    sync_count: AtomicU64,
    apply_count: AtomicU64,
}

impl CountingMetrics {
    fn new() -> Self {
        Self {
            propose_count: AtomicU64::new(0),
            sync_count: AtomicU64::new(0),
            apply_count: AtomicU64::new(0),
        }
    }
}

impl MetricsReporter for CountingMetrics {
    fn told_propose(&self, _: std::time::Duration) -> bool {
        unreachable!()
    }

    fn told_sync(&self, _: std::time::Duration) -> bool {
        unreachable!()
    }

    fn told_apply(&self, _: std::time::Duration) -> bool {
        unreachable!()
    }

    fn record_propose_latency(&self, _duration: std::time::Duration) {
        self.propose_count.fetch_add(1, Ordering::SeqCst);
    }

    fn record_sync_latency(&self, _duration: std::time::Duration) {
        self.sync_count.fetch_add(1, Ordering::SeqCst);
    }

    fn record_apply_latency(&self, _duration: std::time::Duration) {
        self.apply_count.fetch_add(1, Ordering::SeqCst);
    }
}

#[test]
fn test_observer_records_latencies() {
    let metrics = Arc::new(CountingMetrics::new());

    let observer_applicator = ObserverApplicator::new(TestApplicator, metrics.clone());
    let base =
        BaseEngine::new(make_virtual_log(), MemoryStore::new(), observer_applicator).unwrap();
    let mut observer = ObserverEngine::new(base, metrics.clone());

    // Propose two entries.
    observer.propose(Entry::new(b"a".to_vec())).unwrap();
    observer.propose(Entry::new(b"b".to_vec())).unwrap();

    // Sync once.
    observer.sync().unwrap();

    assert_eq!(metrics.propose_count.load(Ordering::SeqCst), 2);
    assert_eq!(metrics.sync_count.load(Ordering::SeqCst), 1);
    assert_eq!(metrics.apply_count.load(Ordering::SeqCst), 2);
}

#[test]
fn test_observer_passthrough() {
    let metrics = Arc::new(CountingMetrics::new());

    let observer_applicator = ObserverApplicator::new(TestApplicator, metrics.clone());
    let base =
        BaseEngine::new(make_virtual_log(), MemoryStore::new(), observer_applicator).unwrap();
    let mut observer = ObserverEngine::new(base, metrics.clone());

    // Propose works and returns correct data.
    let rv = observer.propose(Entry::new(b"passthrough".to_vec())).unwrap();
    match rv {
        ReturnValue::Data(d) => assert_eq!(d, b"passthrough"),
        _ => panic!("expected Data return value"),
    }

    // Sync works.
    let tail = observer.sync().unwrap();
    assert_eq!(tail, 2);

    // Data was persisted correctly.
    let txn = observer.local_store().begin_read_txn().unwrap();
    assert_eq!(txn.get(b"entry:1").unwrap(), Some(b"passthrough".to_vec()));
}

#[test]
fn failures_are_measured_too() {
    let metrics = Arc::new(CountingMetrics::new());
    let mut loglet = relos::log::MemoryLoglet::new();
    relos::log::Loglet::seal(&mut loglet).unwrap();
    let base = BaseEngine::new(loglet, MemoryStore::new(), TestApplicator).unwrap();
    let mut observer = ObserverEngine::new(base, metrics.clone());
    assert!(matches!(observer.propose(Entry::new(vec![1])), Err(RelosError::Sealed(1))));
    assert_eq!(metrics.propose_count.load(Ordering::SeqCst), 1);
    assert_eq!(observer.inner().cursor(), 1);

    // An applicator made by the engine reports to the same place.
    let mut app = observer.applicator(TestApplicator);
    let store = MemoryStore::new();
    let mut txn = store.begin_write_txn().unwrap();
    app.apply(&mut txn, &Entry::new(vec![1]), 1).unwrap();
    assert_eq!(metrics.apply_count.load(Ordering::SeqCst), 1);
}

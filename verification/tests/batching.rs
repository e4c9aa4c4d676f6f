use std::time::Duration;

use relos::base::{Entry, EntryView, LogPos, RelosError};
use relos::engine::batching::{
    BatchEvent, DEFAULT_BATCH_TIMEOUT_MS, DEFAULT_MAX_BATCH_SIZE,
};
use relos::engine::{
    Applicator, BaseEngine, BatchingApplicator, BatchingEngine, Engine, ReturnValue,
};
use relos::engine::traits::Step;
use relos::log::{LogChain, Loglet, MemoryLogletFactory, MemoryMetaStore, VirtualLog};
use relos::store::sorted_map::Contents;
use relos::store::{LocalStore, MemoryStore, ReadTransaction, WriteTransaction};

type Log = VirtualLog<MemoryLogletFactory, MemoryMetaStore>;

fn make_virtual_log() -> Log {
    let chain = LogChain::new("loglet-0".to_string());
    VirtualLog::new(MemoryMetaStore::new(chain), MemoryLogletFactory).unwrap()
}

/// Test applicator that counts how many times apply is called
/// and stores payloads.
struct CountingApplicator {
    count: usize,
}

impl CountingApplicator {
    fn new() -> Self {
        Self { count: 0 }
    }

    fn applied_count(&self) -> usize {
        self.count
    }
}

impl Applicator for CountingApplicator {
    type Model = usize;

    fn model(&self) -> usize {
        unreachable!()
    }

    fn step(_: usize, _: Contents, _: EntryView, _: LogPos) -> Step<usize> {
        unreachable!()
    }

    fn apply<T: WriteTransaction>(
        &mut self,
        txn: &mut T,
        entry: &Entry,
        _pos: LogPos,
    ) -> Result<ReturnValue, RelosError> {
        let n = self.count;
        self.count += 1;
        let key = format!("applied:{}", n);
        txn.put(key.as_bytes(), &entry.payload)?;
        Ok(ReturnValue::Data(entry.payload.clone()))
    }
}

type Batching = BatchingEngine<BaseEngine<Log, MemoryStore, BatchingApplicator<CountingApplicator>>>;

fn make_engine(max_batch_size: Option<usize>, timeout_ms: Option<u64>) -> Batching {
    let app = BatchingApplicator::new(CountingApplicator::new());
    let base = BaseEngine::new(make_virtual_log(), MemoryStore::new(), app).unwrap();
    BatchingEngine::new(base, max_batch_size, timeout_ms.map(Duration::from_millis))
}

fn applied(engine: &Batching) -> usize {
    engine.downstream().applicator().inner().applied_count()
}

#[test]
fn test_batching_applicator_unbatched() {
    let mut batching_app = BatchingApplicator::new(CountingApplicator::new());

    let mut store = MemoryStore::new();
    let mut txn = store.begin_write_txn().unwrap();

    // A normal (non-batched) entry should pass through.
    let entry = Entry::new(b"hello".to_vec());
    let rv = batching_app.apply(&mut txn, &entry, 1).unwrap();
    txn.commit(&mut store).unwrap();

    match rv {
        ReturnValue::Data(d) => assert_eq!(d, b"hello"),
        _ => panic!("expected Data"),
    }
}

#[test]
fn test_batching_applicator_batched() {
    let mut batching_app = BatchingApplicator::new(CountingApplicator::new());

    let mut store = MemoryStore::new();
    let mut txn = store.begin_write_txn().unwrap();

    // Create a batched entry manually.
    let payloads: Vec<Vec<u8>> = vec![b"a".to_vec(), b"b".to_vec(), b"c".to_vec()];
    let batched_payload = bincode::serialize(&payloads).unwrap();
    let header_bytes = bincode::serialize(&3usize).unwrap();
    let entry = Entry::new(batched_payload).with_header("batching", header_bytes);

    batching_app.apply(&mut txn, &entry, 1).unwrap();
    txn.commit(&mut store).unwrap();

    // The inner applicator should have been called 3 times.
    assert_eq!(batching_app.inner().applied_count(), 3);

    // Check that payloads were stored.
    let rtxn = store.begin_read_txn().unwrap();
    assert_eq!(rtxn.get(b"applied:0").unwrap(), Some(b"a".to_vec()));
    assert_eq!(rtxn.get(b"applied:1").unwrap(), Some(b"b".to_vec()));
    assert_eq!(rtxn.get(b"applied:2").unwrap(), Some(b"c".to_vec()));
}

#[test]
fn test_batching_engine_end_to_end() {
    // Use a large batch timeout so entries accumulate, small batch size.
    let mut batching = make_engine(Some(3), Some(10_000));

    // Send 3 proposals before the first is answered — they should be batched
    // together.
    let mut replies = Vec::new();
    for i in 0..3u8 {
        replies.extend(batching.handle(BatchEvent::Propose(vec![i])).replies);
    }

    assert_eq!(replies.len(), 3);
    for r in replies {
        r.unwrap();
    }

    // All 3 sub-entries should have been applied.
    assert_eq!(applied(&batching), 3);
    // They went into the log as one entry.
    assert_eq!(batching.downstream().loglet().check_tail().unwrap(), 2);
}

#[test]
fn test_batching_engine_timeout_flush() {
    // Small timeout, large batch size — should flush on timeout.
    let mut batching = make_engine(Some(1000), Some(10));

    // Send a single entry — should be flushed after timeout.
    assert_eq!(batching.patience(), None);
    let action = batching.handle(BatchEvent::Propose(b"timeout_flush".to_vec()));
    assert_eq!(action.replies.len(), 0);
    assert_eq!(batching.patience(), Some(Duration::from_millis(10)));
    let action = batching.handle(BatchEvent::Timeout);
    assert_eq!(action.replies.len(), 1);
    assert!(action.replies[0].is_ok());

    assert_eq!(applied(&batching), 1);
}

#[test]
fn test_batching_engine_sync() {
    let mut batching = make_engine(Some(100), Some(1));

    batching.propose(Entry::new(b"before_sync".to_vec())).unwrap();

    let tail = batching.sync().unwrap();
    assert!(tail >= 2); // At least the one entry we proposed.
}

#[test]
fn batch_in_the_log_is_encoded_as_agreed() {
    let mut batching = make_engine(Some(2), None);
    batching.handle(BatchEvent::Propose(b"x".to_vec()));
    assert_eq!(batching.pending_len(), 1);
    batching.handle(BatchEvent::Propose(b"yz".to_vec()));
    assert_eq!(batching.pending_len(), 0);
    let entry = batching.downstream().loglet().read(1).unwrap().unwrap();
    let payloads: Vec<Vec<u8>> = vec![b"x".to_vec(), b"yz".to_vec()];
    assert_eq!(entry.payload, bincode::serialize(&payloads).unwrap());
    assert_eq!(
        entry.get_header("batching"),
        Some(bincode::serialize(&2usize).unwrap().as_slice())
    );
    let back: Vec<Vec<u8>> = bincode::deserialize(&entry.payload).unwrap();
    assert_eq!(back, payloads);
}

#[test]
fn payloads_of_a_batch_succeed_together() {
    let mut batching = make_engine(Some(2), None);
    batching.handle(BatchEvent::Propose(b"x".to_vec()));
    let action = batching.handle(BatchEvent::Propose(b"y".to_vec()));
    assert_eq!(action.replies.len(), 2);
    assert!(action.replies.iter().all(|r| r.is_ok()));
}

#[test]
fn replies_of_those_that_waited_come_with_the_next_action() {
    let mut batching = make_engine(Some(10), None);
    batching.handle(BatchEvent::Propose(b"a".to_vec()));
    batching.handle(BatchEvent::Propose(b"b".to_vec()));
    // A caller that waits for its reply takes the others along.
    batching.propose(Entry::new(b"c".to_vec())).unwrap();
    assert_eq!(batching.pending_len(), 0);
    let action = batching.handle(BatchEvent::Propose(b"d".to_vec()));
    assert_eq!(action.replies.len(), 2);
    assert!(action.replies.iter().all(|r| r.is_ok()));
    assert_eq!(batching.sync().unwrap(), 3);
    assert_eq!(batching.handle(BatchEvent::Timeout).replies.len(), 1);
    assert_eq!(batching.handle(BatchEvent::Timeout).replies.len(), 0);
    assert_eq!(applied(&batching), 4);
}

#[test]
fn short_waits_can_be_given() {
    let app = BatchingApplicator::new(CountingApplicator::new());
    let base = BaseEngine::new(make_virtual_log(), MemoryStore::new(), app).unwrap();
    let engine = BatchingEngine::new(base, None, Some(Duration::from_micros(50)));
    assert_eq!(engine.batch_timeout(), Duration::from_micros(50));
}

#[test]
fn proposals_are_flushed_once_and_in_order() {
    let mut batching = make_engine(Some(3), None);
    let mut answers = 0;
    for i in 0u8..8 {
        answers += batching.handle(BatchEvent::Propose(vec![i])).replies.len();
        if i == 4 {
            answers += batching.handle(BatchEvent::Timeout).replies.len();
        }
    }
    assert_eq!(batching.pending_len(), 0);
    answers += batching.handle(BatchEvent::Propose(vec![8])).replies.len();
    assert_eq!(batching.pending_len(), 1);
    answers += batching.handle(BatchEvent::Closed).replies.len();
    assert_eq!(answers, 9);

    let log = batching.downstream().loglet();
    let mut sizes = Vec::new();
    let mut all: Vec<Vec<u8>> = Vec::new();
    for pos in 1..log.check_tail().unwrap() {
        let entry = log.read(pos).unwrap().unwrap();
        let payloads: Vec<Vec<u8>> = bincode::deserialize(&entry.payload).unwrap();
        sizes.push(payloads.len());
        all.extend(payloads);
    }
    assert_eq!(sizes, vec![3, 2, 3, 1]);
    assert_eq!(all, (0u8..9).map(|i| vec![i]).collect::<Vec<_>>());
}

#[test]
fn broken_batch_leaves_the_transaction() {
    let mut app = BatchingApplicator::new(CountingApplicator::new());
    let store = MemoryStore::new();
    let mut txn = store.begin_write_txn().unwrap();
    txn.put(b"k", b"v").unwrap();
    let entry = Entry::new(vec![1, 2, 3]).with_header("batching", vec![1]);
    assert!(app.apply(&mut txn, &entry, 1).is_err());
    assert_eq!(txn.prefix_scan(b"").unwrap(), vec![(b"k".to_vec(), b"v".to_vec())]);
}

#[test]
fn sync_and_end_flush_what_waits() {
    let mut batching = make_engine(None, None);
    assert_eq!(batching.batch_timeout(), Duration::from_millis(1));
    assert_eq!(DEFAULT_MAX_BATCH_SIZE, 100);
    assert_eq!(DEFAULT_BATCH_TIMEOUT_MS, 1);
    batching.handle(BatchEvent::Propose(b"a".to_vec()));
    let action = batching.handle(BatchEvent::Sync);
    assert_eq!(action.replies.len(), 1);
    assert!(matches!(action.synced, Some(Ok(2))));
    assert!(!action.done);
    batching.handle(BatchEvent::Propose(b"b".to_vec()));
    let action = batching.handle(BatchEvent::Closed);
    assert_eq!(action.replies.len(), 1);
    assert!(action.synced.is_none());
    assert!(action.done);
    assert_eq!(applied(&batching), 2);
    // Nothing waits, so nothing is appended.
    assert_eq!(batching.flush_batch().len(), 0);
    assert_eq!(batching.downstream().loglet().check_tail().unwrap(), 3);
}

#[test]
fn failed_flush_answers_everybody() {
    let mut batching = make_engine(Some(5), None);
    batching.handle(BatchEvent::Propose(b"a".to_vec()));
    batching.handle(BatchEvent::Propose(b"b".to_vec()));
    let app = BatchingApplicator::new(CountingApplicator::new());
    let mut loglet = relos::log::MemoryLoglet::new();
    loglet.seal().unwrap();
    let base = BaseEngine::new(loglet, MemoryStore::new(), app).unwrap();
    let mut sealed = BatchingEngine::new(base, Some(2), None);
    sealed.handle(BatchEvent::Propose(b"a".to_vec()));
    let action = sealed.handle(BatchEvent::Propose(b"b".to_vec()));
    assert_eq!(action.replies.len(), 2);
    for r in &action.replies {
        assert!(matches!(r, Err(RelosError::Sealed(1))));
    }
    assert_eq!(batching.flush_batch().len(), 2);
}

fn apply_batch(header: Vec<u8>, payload: Vec<u8>) -> (Result<ReturnValue, RelosError>, usize) {
    let mut app = BatchingApplicator::new(CountingApplicator::new());
    let store = MemoryStore::new();
    let mut txn = store.begin_write_txn().unwrap();
    let entry = Entry::new(payload).with_header("batching", header);
    let r = app.apply(&mut txn, &entry, 1);
    (r, app.inner().applied_count())
}

#[test]
fn broken_batch_is_an_error() {
    let broken_count: Result<usize, _> = bincode::deserialize(&[1u8]);
    match apply_batch(vec![1], Vec::new()) {
        (Err(RelosError::Serialization(m)), 0) => {
            assert_eq!(m, broken_count.unwrap_err().to_string())
        }
        _ => panic!("expected an error"),
    }
    let broken: Result<Vec<Vec<u8>>, _> = bincode::deserialize(&[1u8, 2, 3]);
    match apply_batch(bincode::serialize(&1usize).unwrap(), vec![1, 2, 3]) {
        (Err(RelosError::Serialization(m)), 0) => assert_eq!(m, broken.unwrap_err().to_string()),
        _ => panic!("expected an error"),
    }
    let payloads: Vec<Vec<u8>> = vec![b"a".to_vec(), b"b".to_vec()];
    let payload = bincode::serialize(&payloads).unwrap();
    match apply_batch(bincode::serialize(&3usize).unwrap(), payload) {
        (Err(RelosError::Internal(m)), 0) => {
            assert_eq!(m, "batch metadata count 3 != actual payload count 2")
        }
        _ => panic!("expected an error"),
    }
}

#[test]
fn empty_batch_succeeds() {
    let none: Vec<Vec<u8>> = Vec::new();
    let payload = bincode::serialize(&none).unwrap();
    let (r, count) = apply_batch(bincode::serialize(&0usize).unwrap(), payload);
    assert!(matches!(r, Ok(ReturnValue::Success)));
    assert_eq!(count, 0);
}

#[test]
fn batch_leaves_what_single_entries_leave() {
    let mut batched = make_engine(Some(3), None);
    let mut single = make_engine(Some(1), None);
    for payload in [b"a", b"b", b"c"] {
        batched.handle(BatchEvent::Propose(payload.to_vec()));
        single.handle(BatchEvent::Propose(payload.to_vec()));
    }
    let scan = |engine: &Batching| {
        engine.local_store().begin_read_txn().unwrap().prefix_scan(b"applied:").unwrap()
    };
    assert_eq!(scan(&batched), scan(&single));
    assert_eq!(batched.downstream().loglet().check_tail().unwrap(), 2);
    assert_eq!(single.downstream().loglet().check_tail().unwrap(), 4);
}

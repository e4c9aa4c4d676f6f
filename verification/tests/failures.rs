use std::cell::RefCell;
use std::rc::Rc;

use relos::base::{Count, Entry, EntryView, LogPos, RelosError};
use relos::engine::batching::BatchEvent;
use relos::engine::traits::Step;
use relos::engine::{
    Applicator, BaseEngine, BatchingApplicator, BatchingEngine, Engine, ReturnValue,
};
use relos::log::{
    LogChain, LogView, Loglet, LogletFactory, MemoryLoglet, MemoryMetaStore, MetaStore, VirtualLog,
};
use relos::store::sorted_map::Contents;
use relos::store::{
    LocalStore, MemoryReadTx, MemoryStore, MemoryWriteTx, ReadTransaction, WriteTransaction,
};
use relos::table::{
    ColumnDef, ColumnType, DelosTable, Row, TableApplicator, TableSchema, Value,
};

/// Which operations fail at the moment.
#[derive(Clone, Default)]
struct Switch(Rc<RefCell<Vec<&'static str>>>);

impl Switch {
    fn set(&self, failing: &[&'static str]) {
        *self.0.borrow_mut() = failing.to_vec();
    }

    fn check(&self, operation: &'static str) -> Result<(), RelosError> {
        if self.0.borrow().contains(&operation) {
            Err(RelosError::Io(operation.to_string()))
        } else {
            Ok(())
        }
    }
}

/// A loglet that can be made to fail.
struct Flaky {
    inner: MemoryLoglet,
    switch: Switch,
}

impl Loglet for Flaky {
    fn inv(&self) -> bool {
        unreachable!()
    }

    fn log(&self) -> LogView {
        unreachable!()
    }

    fn reliable(&self) -> bool {
        unreachable!()
    }

    fn coherent(&self) -> bool {
        unreachable!()
    }

    fn has_room(&self, _: Count) -> bool {
        unreachable!()
    }

    fn chained(&self) -> bool {
        unreachable!()
    }

    fn room_below_limit(&self, _: Count) {}

    fn fewer_fit(&self, _: Count, _: Count) {}

    fn others_are_coherent(&self) {}

    fn log_is_wf(&self) {}

    fn append(&mut self, entry: &Entry) -> Result<LogPos, RelosError> {
        self.switch.check("append")?;
        self.inner.append(entry)
    }

    fn check_tail(&self) -> Result<LogPos, RelosError> {
        self.switch.check("tail")?;
        self.inner.check_tail()
    }

    fn read(&self, pos: LogPos) -> Result<Option<Entry>, RelosError> {
        self.switch.check("read")?;
        self.inner.read(pos)
    }

    fn trim(&mut self, pos: LogPos) -> Result<(), RelosError> {
        self.switch.check("trim")?;
        self.inner.trim(pos)
    }

    fn seal(&mut self) -> Result<LogPos, RelosError> {
        self.switch.check("seal")?;
        self.inner.seal()
    }
}

impl LogletFactory for Switch {
    type Log = Flaky;

    fn usable(&self) -> bool {
        unreachable!()
    }

    fn reliable(&self) -> bool {
        unreachable!()
    }

    fn create(&self, _loglet_id: &str) -> Result<Flaky, RelosError> {
        self.check("create")?;
        Ok(Flaky { inner: MemoryLoglet::new(), switch: self.clone() })
    }
}

/// A store that can be made to fail.
struct FlakyStore {
    inner: MemoryStore,
    switch: Switch,
}

impl LocalStore for FlakyStore {
    type ReadTxn = MemoryReadTx;
    type WriteTxn = MemoryWriteTx;

    fn contents(&self) -> Contents {
        unreachable!()
    }

    fn reliable(&self) -> bool {
        unreachable!()
    }

    fn begin_write_txn(&self) -> Result<MemoryWriteTx, RelosError> {
        self.switch.check("write")?;
        self.inner.begin_write_txn()
    }

    fn begin_read_txn(&self) -> Result<MemoryReadTx, RelosError> {
        self.switch.check("look")?;
        self.inner.begin_read_txn()
    }

    fn commit(&mut self, txn: MemoryWriteTx) -> Result<(), RelosError> {
        self.switch.check("commit")?;
        self.inner.commit(txn)
    }

    fn rollback(&self, txn: MemoryWriteTx) -> Result<(), RelosError> {
        self.inner.rollback(txn)
    }

    fn flush(&mut self) -> Result<(), RelosError> {
        self.inner.flush()
    }
}

struct Keeper;

impl Applicator for Keeper {
    type Model = ();

    fn model(&self) {
        unreachable!()
    }

    fn step(_: (), _: Contents, _: EntryView, _: LogPos) -> Step<()> {
        unreachable!()
    }

    fn apply<T: WriteTransaction>(
        &mut self,
        txn: &mut T,
        entry: &Entry,
        pos: LogPos,
    ) -> Result<ReturnValue, RelosError> {
        txn.put(format!("entry:{}", pos).as_bytes(), &entry.payload)?;
        Ok(ReturnValue::Success)
    }
}

fn flaky_engine(switch: &Switch) -> BaseEngine<Flaky, FlakyStore, Keeper> {
    let log = Flaky { inner: MemoryLoglet::new(), switch: switch.clone() };
    let store = FlakyStore { inner: MemoryStore::new(), switch: switch.clone() };
    BaseEngine::new(log, store, Keeper).unwrap()
}

fn held<A: Applicator>(engine: &BaseEngine<Flaky, FlakyStore, A>) -> usize {
    engine.local_store().inner.begin_read_txn().unwrap().prefix_scan(b"entry:").unwrap().len()
}

fn io<T: std::fmt::Debug>(r: Result<T, RelosError>) -> String {
    match r {
        Err(RelosError::Io(m)) => m,
        other => panic!("unexpected {:?}", other),
    }
}

#[test]
fn failed_append_is_reported_and_nothing_is_applied() {
    let switch = Switch::default();
    let mut engine = flaky_engine(&switch);
    engine.propose(Entry::new(b"a".to_vec())).unwrap();
    switch.set(&["append"]);
    assert_eq!(io(engine.propose(Entry::new(b"b".to_vec()))), "append");
    assert_eq!(engine.cursor(), 2);
    assert_eq!(held(&engine), 1);
    assert_eq!(engine.sync().unwrap(), 2);
}

#[test]
fn failed_tail_check_fails_the_sync() {
    let switch = Switch::default();
    let mut engine = flaky_engine(&switch);
    engine.loglet_mut().append(&Entry::new(b"a".to_vec())).unwrap();
    switch.set(&["tail"]);
    assert_eq!(io(engine.sync()), "tail");
    assert_eq!(engine.cursor(), 1);
    switch.set(&[]);
    assert_eq!(engine.sync().unwrap(), 2);
    assert_eq!(engine.cursor(), 2);
}

#[test]
fn entry_that_could_not_be_applied_is_applied_later() {
    for failing in ["read", "write", "commit"] {
        let switch = Switch::default();
        let mut engine = flaky_engine(&switch);
        engine.propose(Entry::new(b"a".to_vec())).unwrap();
        switch.set(&[failing]);
        assert_eq!(io(engine.propose(Entry::new(b"b".to_vec()))), failing);
        // The entry stays in the log, and the cursor before it.
        assert_eq!(engine.cursor(), 2);
        assert_eq!(held(&engine), 1);
        switch.set(&[]);
        assert_eq!(engine.sync().unwrap(), 3);
        assert_eq!(held(&engine), 2);
    }
}

fn flaky_virtual_log(switch: &Switch) -> VirtualLog<Switch, MemoryMetaStore> {
    let chain = LogChain::new("loglet-0".to_string());
    VirtualLog::new(MemoryMetaStore::new(chain), switch.clone()).unwrap()
}

#[test]
fn failures_of_a_segment_are_passed_on() {
    let switch = Switch::default();
    let mut vlog = flaky_virtual_log(&switch);
    vlog.append(&Entry::new(b"a".to_vec())).unwrap();
    switch.set(&["append", "read", "trim", "tail"]);
    assert_eq!(io(vlog.append(&Entry::new(b"b".to_vec()))), "append");
    assert_eq!(io(vlog.read(1)), "read");
    assert_eq!(io(vlog.trim(1).and_then(|_| vlog.trim(2))), "trim");
    assert_eq!(io(vlog.check_tail()), "tail");
    switch.set(&[]);
    assert_eq!(vlog.check_tail().unwrap(), 2);
    assert_eq!(vlog.read(1).unwrap().unwrap().payload, b"a");
}

#[test]
fn failed_reconfiguration_keeps_the_chain() {
    let switch = Switch::default();
    let mut vlog = flaky_virtual_log(&switch);
    vlog.append(&Entry::new(b"a".to_vec())).unwrap();
    Loglet::seal(&mut vlog).unwrap();
    switch.set(&["seal"]);
    assert_eq!(io(vlog.append(&Entry::new(b"b".to_vec()))), "seal");
    assert_eq!(vlog.meta_store().read().unwrap().1, 0);
    switch.set(&[]);
    assert_eq!(vlog.append(&Entry::new(b"b".to_vec())).unwrap(), 2);
    assert_eq!(vlog.meta_store().read().unwrap().1, 1);
}

#[test]
fn failing_store_is_no_missing_row() {
    let switch = Switch::default();
    let log = Flaky { inner: MemoryLoglet::new(), switch: switch.clone() };
    let store = FlakyStore { inner: MemoryStore::new(), switch: switch.clone() };
    let engine = BaseEngine::new(log, store, TableApplicator::new()).unwrap();
    let mut table = DelosTable::new(engine);
    let schema = TableSchema {
        name: "t".to_string(),
        columns: vec![ColumnDef {
            name: "id".to_string(),
            col_type: ColumnType::Int64,
            nullable: false,
        }],
        primary_key: vec!["id".to_string()],
    };
    table.create_table(schema).unwrap();
    table.put("t", Row { values: vec![Value::Int64(1)] }).unwrap();
    switch.set(&["look"]);
    assert_eq!(io(table.get("t", &[Value::Int64(1)])), "look");
    assert_eq!(io(table.scan("t")), "look");
    switch.set(&["commit"]);
    assert_eq!(io(table.put("t", Row { values: vec![Value::Int64(2)] })), "commit");
    switch.set(&[]);
    assert!(table.get("t", &[Value::Int64(1)]).unwrap().is_some());
}

#[test]
fn batches_are_answered_where_the_engine_below_fails() {
    let switch = Switch::default();
    let log = Flaky { inner: MemoryLoglet::new(), switch: switch.clone() };
    let store = FlakyStore { inner: MemoryStore::new(), switch: switch.clone() };
    let base = BaseEngine::new(log, store, BatchingApplicator::new(Keeper)).unwrap();
    let mut batching = BatchingEngine::new(base, Some(2), None);
    switch.set(&["append"]);
    assert_eq!(batching.handle(BatchEvent::Propose(b"a".to_vec())).replies.len(), 0);
    let action = batching.handle(BatchEvent::Propose(b"b".to_vec()));
    assert_eq!(action.replies.len(), 2);
    for r in action.replies {
        assert_eq!(io(r), "append");
    }
    assert_eq!(batching.pending_len(), 0);
    switch.set(&[]);
    batching.handle(BatchEvent::Propose(b"c".to_vec()));
    let action = batching.handle(BatchEvent::Sync);
    assert_eq!(action.replies.len(), 1);
    assert!(matches!(action.synced, Some(Ok(2))));
}

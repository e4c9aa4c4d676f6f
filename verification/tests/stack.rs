use std::collections::BTreeMap;

use relos::base::{Count, Entry, EntryView, LogPos, RelosError, ServerId};
use relos::engine::traits::{Outcome, ReturnView, Step};
use relos::engine::view_tracking::{ShowsViews, TracksViews, Views};
use relos::engine::{
    Applicator, BaseEngine, Engine, EngineStackBuilder, MiddleEngine, ReturnValue,
    ViewTrackingApplicator, ViewTrackingEngine,
};
use relos::log::{LogChain, Loglet, MemoryLogletFactory, MemoryMetaStore, VirtualLog};
use relos::store::sorted_map::Contents;
use relos::store::{LocalStore, MemoryStore, ReadTransaction, WriteTransaction};

type Log = VirtualLog<MemoryLogletFactory, MemoryMetaStore>;

fn make_virtual_log() -> Log {
    let chain = LogChain::new("loglet-0".to_string());
    VirtualLog::new(MemoryMetaStore::new(chain), MemoryLogletFactory).unwrap()
}

struct TestApplicator;

impl Applicator for TestApplicator {
    type Model = ();

    fn model(&self) {
        unreachable!()
    }

    fn step(_: (), _: Contents, _: EntryView, _: LogPos) -> Step<()> {
        unreachable!()
    }

    fn apply<T: WriteTransaction>(
        &mut self,
        txn: &mut T,
        entry: &Entry,
        pos: LogPos,
    ) -> Result<ReturnValue, RelosError> {
        let key = format!("entry:{}", pos);
        txn.put(key.as_bytes(), &entry.payload)?;
        Ok(ReturnValue::Data(entry.payload.clone()))
    }
}

type Base<A> = BaseEngine<Log, MemoryStore, A>;

/// A layer that changes nothing.
struct Plain;

impl MiddleEngine for Plain {
    type Eng = Base<TestApplicator>;
    type App = TestApplicator;

    fn engine_over(&self, inner: Base<TestApplicator>) -> Base<TestApplicator> {
        inner
    }

    fn applicator_over(&self, inner: TestApplicator) -> TestApplicator {
        inner
    }

    fn wrap_engine(&self, inner: Base<TestApplicator>) -> Base<TestApplicator> {
        inner
    }

    fn wrap_applicator(&self, inner: TestApplicator) -> TestApplicator {
        inner
    }
}

#[test]
fn test_build_minimal_stack() {
    let mut engine = EngineStackBuilder::<Plain>::new()
        .build(make_virtual_log(), MemoryStore::new(), TestApplicator, |base| base)
        .unwrap();

    // Propose and verify.
    let rv = engine.propose(Entry::new(b"minimal".to_vec())).unwrap();
    match rv {
        ReturnValue::Data(d) => assert_eq!(d, b"minimal"),
        _ => panic!("expected Data return value"),
    }

    let tail = engine.sync().unwrap();
    assert_eq!(tail, 2);

    let txn = engine.local_store().begin_read_txn().unwrap();
    assert_eq!(txn.get(b"entry:1").unwrap(), Some(b"minimal".to_vec()));
}

/// An applicator with any number of view-tracking layers around it.
enum AnyApp {
    Plain(TestApplicator),
    Viewed(Box<ViewTrackingApplicator<AnyApp>>),
}

impl Applicator for AnyApp {
    type Model = ();

    fn model(&self) {
        unreachable!()
    }

    fn step(_: (), _: Contents, _: EntryView, _: LogPos) -> Step<()> {
        unreachable!()
    }

    fn apply<T: WriteTransaction>(
        &mut self,
        txn: &mut T,
        entry: &Entry,
        pos: LogPos,
    ) -> Result<ReturnValue, RelosError> {
        match self {
            AnyApp::Plain(a) => a.apply(txn, entry, pos),
            AnyApp::Viewed(a) => a.apply(txn, entry, pos),
        }
    }
}

impl TracksViews for AnyApp {
    fn views_in(_: ()) -> Views {
        unreachable!()
    }

    fn views(&self) -> &BTreeMap<ServerId, LogPos> {
        match self {
            AnyApp::Plain(_) => panic!("no views"),
            AnyApp::Viewed(a) => a.views(),
        }
    }
}

/// An engine with any number of view-tracking layers around it.
enum AnyEngine {
    Base(Base<AnyApp>),
    Viewed(Box<ViewTrackingEngine<AnyEngine>>),
}

impl AnyEngine {
    fn base(&self) -> &Base<AnyApp> {
        match self {
            AnyEngine::Base(b) => b,
            AnyEngine::Viewed(t) => t.inner().base(),
        }
    }
}

impl Engine for AnyEngine {
    type Store = MemoryStore;
    type Model = ();

    fn inv(&self) -> bool {
        unreachable!()
    }

    fn model(&self) {
        unreachable!()
    }

    fn steady(&self) -> bool {
        unreachable!()
    }

    fn coherent(&self) -> bool {
        unreachable!()
    }

    fn has_room(&self, _: Count) -> bool {
        unreachable!()
    }

    fn propose_step(_: (), _: EntryView) -> ((), Outcome<ReturnView>) {
        unreachable!()
    }

    fn sync_step(_: ()) -> ((), Outcome<LogPos>) {
        unreachable!()
    }

    fn contents_of(_: ()) -> Contents {
        unreachable!()
    }

    fn fewer_fit(&self, _: Count, _: Count) {}

    fn propose(&mut self, entry: Entry) -> Result<ReturnValue, RelosError> {
        match self {
            AnyEngine::Base(b) => b.propose(entry),
            AnyEngine::Viewed(t) => t.propose(entry),
        }
    }

    fn sync(&mut self) -> Result<LogPos, RelosError> {
        match self {
            AnyEngine::Base(b) => b.sync(),
            AnyEngine::Viewed(t) => t.sync(),
        }
    }

    fn local_store(&self) -> &MemoryStore {
        match self {
            AnyEngine::Base(b) => b.local_store(),
            AnyEngine::Viewed(t) => t.local_store(),
        }
    }
}

impl ShowsViews for AnyEngine {
    fn played(_: ()) -> LogPos {
        unreachable!()
    }

    fn played_to(&self) -> LogPos {
        self.base().cursor()
    }

    fn views_shown(_: ()) -> Views {
        unreachable!()
    }

    fn shown_views(&self) -> &BTreeMap<ServerId, LogPos> {
        match self {
            AnyEngine::Base(b) => b.shown_views(),
            AnyEngine::Viewed(t) => t.shown_views(),
        }
    }
}

/// A ViewTracking middleware.
struct ViewTrackingMiddleware {
    server_id: u64,
}

impl MiddleEngine for ViewTrackingMiddleware {
    type Eng = AnyEngine;
    type App = AnyApp;

    fn engine_over(&self, _: AnyEngine) -> AnyEngine {
        unreachable!()
    }

    fn applicator_over(&self, _: AnyApp) -> AnyApp {
        unreachable!()
    }

    fn wrap_engine(&self, inner: AnyEngine) -> AnyEngine {
        AnyEngine::Viewed(Box::new(ViewTrackingEngine::new(inner, self.server_id)))
    }

    fn wrap_applicator(&self, inner: AnyApp) -> AnyApp {
        AnyApp::Viewed(Box::new(ViewTrackingApplicator::new(inner)))
    }
}

#[test]
fn test_build_with_middleware() {
    // Create a ViewTracking middleware via the MiddleEngine trait.
    let server_id = 1u64;
    let middleware = ViewTrackingMiddleware { server_id };

    let mut engine = EngineStackBuilder::new()
        .push(middleware)
        .build(
            make_virtual_log(),
            MemoryStore::new(),
            AnyApp::Plain(TestApplicator),
            AnyEngine::Base,
        )
        .unwrap();

    // Propose an entry.
    let rv = engine.propose(Entry::new(b"stacked".to_vec())).unwrap();
    match rv {
        ReturnValue::Data(d) => assert_eq!(d, b"stacked"),
        _ => panic!("expected Data return value"),
    }

    // The view-tracking header should have been injected.
    let log_entry = engine.base().loglet().read(1).unwrap().expect("entry should exist");
    assert!(log_entry.get_header("view_tracking").is_some());

    // The view map should have been updated during apply.
    assert!(engine.shown_views().contains_key(&server_id));
}

/// An applicator that writes down which layers an entry passes.
struct Trace {
    names: Vec<String>,
}

impl Applicator for Trace {
    type Model = ();

    fn model(&self) {
        unreachable!()
    }

    fn step(_: (), _: Contents, _: EntryView, _: LogPos) -> Step<()> {
        unreachable!()
    }

    fn apply<T: WriteTransaction>(
        &mut self,
        _txn: &mut T,
        _entry: &Entry,
        _pos: LogPos,
    ) -> Result<ReturnValue, RelosError> {
        Ok(ReturnValue::Data(self.names.join(" ").into_bytes()))
    }
}

/// A layer that adds its name in front of those that see an entry after it.
struct Named(&'static str);

impl MiddleEngine for Named {
    type Eng = Base<Trace>;
    type App = Trace;

    fn engine_over(&self, _: Base<Trace>) -> Base<Trace> {
        unreachable!()
    }

    fn applicator_over(&self, _: Trace) -> Trace {
        unreachable!()
    }

    fn wrap_engine(&self, inner: Base<Trace>) -> Base<Trace> {
        inner
    }

    fn wrap_applicator(&self, inner: Trace) -> Trace {
        let mut names = vec![self.0.to_string()];
        names.extend(inner.names);
        Trace { names }
    }
}

#[test]
fn last_pushed_layer_sees_entries_first() {
    let mut engine = EngineStackBuilder::default()
        .push(Named("first"))
        .push(Named("second"))
        .push(Named("third"))
        .build(
            make_virtual_log(),
            MemoryStore::new(),
            Trace { names: vec!["application".to_string()] },
            |base| base,
        )
        .unwrap();
    match engine.propose(Entry::new(Vec::new())).unwrap() {
        ReturnValue::Data(d) => assert_eq!(d, b"third second first application"),
        _ => panic!("expected Data return value"),
    }
}

#[test]
fn broken_store_is_reported_by_build() {
    let mut store = MemoryStore::new();
    let mut txn = store.begin_write_txn().unwrap();
    txn.put(b"__cursor__", b"").unwrap();
    txn.commit(&mut store).unwrap();
    let built = EngineStackBuilder::<Plain>::new().build(
        make_virtual_log(),
        store,
        TestApplicator,
        |base| base,
    );
    assert!(matches!(built, Err(RelosError::Store(_))));
}

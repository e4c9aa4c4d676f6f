//! Measuring how long operations take.

use std::collections::BTreeMap;
use std::sync::Arc;
use std::time::{Duration, Instant};

use vstd::prelude::*;

use crate::base::entry::{Entry, EntryView};
use crate::base::error::RelosError;
use crate::base::types::{LogPos, ServerId};
use crate::engine::traits::{Applicator, Engine, Outcome, ReturnValue, ReturnView, Step};
use crate::engine::view_tracking::{ShowsViews, TracksViews, Views};
use crate::store::sorted_map::Contents;
use crate::store::traits::WriteTransaction;

verus! {

/// A point in time of the machine's monotonic clock.
#[verifier::external_type_specification]
#[verifier::external_body]
pub struct ExInstant(std::time::Instant);

/// Reads the monotonic clock with `Instant::now`. Nothing is claimed of the
/// reading.
#[verifier::external_body]
fn now() -> (t: Instant) {
    Instant::now()
}

/// The time since a reading, from `Instant::elapsed`. Nothing is claimed of it.
#[verifier::external_body]
fn since(start: &Instant) -> (d: Duration) {
    start.elapsed()
}

/// Trait for reporting engine operation latencies.
pub trait MetricsReporter {
    /// The reporter was told of a propose operation that took this long.
    spec fn told_propose(&self, duration: Duration) -> bool;

    /// The reporter was told of a sync operation that took this long.
    spec fn told_sync(&self, duration: Duration) -> bool;

    /// The reporter was told of an apply operation that took this long.
    spec fn told_apply(&self, duration: Duration) -> bool;

    /// Record the latency of a propose operation.
    fn record_propose_latency(&self, duration: Duration)
        ensures
            self.told_propose(duration),
    ;

    /// Record the latency of a sync operation.
    fn record_sync_latency(&self, duration: Duration)
        ensures
            self.told_sync(duration),
    ;

    /// Record the latency of an apply operation.
    fn record_apply_latency(&self, duration: Duration)
        ensures
            self.told_apply(duration),
    ;
}

/// ObserverEngine — lightweight pass-through that measures operation latencies.
///
/// Wraps a downstream [`Engine`] and records propose/sync latencies via a
/// pluggable [`MetricsReporter`]. Each operation tells the reporter of a duration;
/// how long that is rests on the machine's clock.
pub struct ObserverEngine<E: Engine, M: MetricsReporter> {
    inner: E,
    metrics: Arc<M>,
}

impl<E: Engine, M: MetricsReporter> ObserverEngine<E, M> {
    pub closed spec fn below(&self) -> E {
        self.inner
    }

    pub closed spec fn reporter(&self) -> Arc<M> {
        self.metrics
    }

    /// Create a new ObserverEngine wrapping the given downstream engine.
    pub fn new(inner: E, metrics: Arc<M>) -> (engine: Self)
        ensures
            engine.below() == inner,
            engine.reporter() == metrics,
    {
        ObserverEngine { inner, metrics }
    }

    /// Create a matching [`ObserverApplicator`] that shares the metrics reporter.
    pub fn applicator<A: Applicator>(&self, inner: A) -> (app: ObserverApplicator<A, M>)
        ensures
            app.inner_of() == inner,
            app.reporter() == self.reporter(),
    {
        ObserverApplicator { inner, metrics: self.metrics.clone() }
    }

    /// The engine below.
    pub fn inner(&self) -> (engine: &E)
        ensures
            *engine == self.below(),
    {
        &self.inner
    }
}

impl<E: Engine, M: MetricsReporter> Engine for ObserverEngine<E, M> {
    type Store = E::Store;

    type Model = E::Model;

    open spec fn inv(&self) -> bool {
        self.below().inv()
    }

    open spec fn model(&self) -> E::Model {
        self.below().model()
    }

    open spec fn steady(&self) -> bool {
        self.below().steady()
    }

    open spec fn coherent(&self) -> bool {
        self.below().coherent()
    }

    open spec fn has_room(&self, n: nat) -> bool {
        self.below().has_room(n)
    }

    open spec fn propose_step(model: E::Model, entry: EntryView) -> (
        E::Model,
        Outcome<ReturnView>,
    ) {
        E::propose_step(model, entry)
    }

    open spec fn sync_step(model: E::Model) -> (E::Model, Outcome<LogPos>) {
        E::sync_step(model)
    }

    open spec fn contents_of(model: E::Model) -> Contents {
        E::contents_of(model)
    }

    proof fn fewer_fit(&self, n: nat, k: nat) {
        self.below().fewer_fit(n, k);
    }

    fn propose(&mut self, entry: Entry) -> (r: Result<ReturnValue, RelosError>)
        ensures
            final(self).reporter() == old(self).reporter(),
            exists|d: Duration| #[trigger] old(self).reporter().told_propose(d),
    {
        let start = now();
        let result = self.inner.propose(entry);
        let duration = since(&start);
        self.metrics.record_propose_latency(duration);
        assert(self.reporter().told_propose(duration));
        result
    }

    fn sync(&mut self) -> (r: Result<LogPos, RelosError>)
        ensures
            final(self).reporter() == old(self).reporter(),
            exists|d: Duration| #[trigger] old(self).reporter().told_sync(d),
    {
        let start = now();
        let result = self.inner.sync();
        let duration = since(&start);
        self.metrics.record_sync_latency(duration);
        assert(self.reporter().told_sync(duration));
        result
    }

    fn local_store(&self) -> (store: &E::Store) {
        self.inner.local_store()
    }
}

impl<E: ShowsViews, M: MetricsReporter> ShowsViews for ObserverEngine<E, M> {
    open spec fn played(model: E::Model) -> LogPos {
        E::played(model)
    }

    fn played_to(&self) -> (cursor: LogPos) {
        self.inner.played_to()
    }

    open spec fn views_shown(model: E::Model) -> Views {
        E::views_shown(model)
    }

    fn shown_views(&self) -> (views: &BTreeMap<ServerId, LogPos>) {
        self.inner.shown_views()
    }
}

/// ObserverApplicator — measures apply latencies.
///
/// Wraps an upstream [`Applicator`] and records apply latencies via a
/// pluggable [`MetricsReporter`].
pub struct ObserverApplicator<A: Applicator, M: MetricsReporter> {
    inner: A,
    metrics: Arc<M>,
}

impl<A: Applicator, M: MetricsReporter> ObserverApplicator<A, M> {
    pub closed spec fn inner_of(&self) -> A {
        self.inner
    }

    pub closed spec fn reporter(&self) -> Arc<M> {
        self.metrics
    }

    /// Create an applicator that reports to `metrics`.
    pub fn new(inner: A, metrics: Arc<M>) -> (app: Self)
        ensures
            app.inner_of() == inner,
            app.reporter() == metrics,
    {
        ObserverApplicator { inner, metrics }
    }

    /// The wrapped applicator.
    pub fn inner(&self) -> (app: &A)
        ensures
            *app == self.inner_of(),
    {
        &self.inner
    }
}

impl<A: Applicator, M: MetricsReporter> Applicator for ObserverApplicator<A, M> {
    type Model = A::Model;

    open spec fn model(&self) -> A::Model {
        self.inner_of().model()
    }

    open spec fn step(model: A::Model, contents: Contents, entry: EntryView, pos: LogPos) -> Step<
        A::Model,
    > {
        A::step(model, contents, entry, pos)
    }

    fn apply<T: WriteTransaction>(&mut self, txn: &mut T, entry: &Entry, pos: LogPos) -> (r: Result<
        ReturnValue,
        RelosError,
    >)
        ensures
            final(self).reporter() == old(self).reporter(),
            exists|d: Duration| #[trigger] old(self).reporter().told_apply(d),
    {
        let start = now();
        let result = self.inner.apply(txn, entry, pos);
        let duration = since(&start);
        self.metrics.record_apply_latency(duration);
        assert(self.reporter().told_apply(duration));
        result
    }
}

impl<A: TracksViews, M: MetricsReporter> TracksViews for ObserverApplicator<A, M> {
    open spec fn views_in(model: A::Model) -> Views {
        A::views_in(model)
    }

    fn views(&self) -> (views: &BTreeMap<ServerId, LogPos>) {
        self.inner.views()
    }
}

} // verus!

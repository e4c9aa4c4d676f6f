//! The engine and applicator traits.

use vstd::prelude::*;

use crate::base::entry::{Entry, EntryView};
use crate::base::error::{ErrorView, RelosError};
use crate::base::types::{Count, LogPos};
use crate::store::sorted_map::Contents;
use crate::store::traits::{LocalStore, WriteTransaction};

verus! {

/// Return value from engine operations.
#[derive(Debug)]
pub enum ReturnValue {
    /// The operation succeeded with no data to return.
    Success,
    /// The operation succeeded and produced data.
    Data(Vec<u8>),
}

/// The contents of a [`ReturnValue`].
#[verifier::ext_equal]
pub enum ReturnView {
    Success,
    Data(Seq<u8>),
}

impl View for ReturnValue {
    type V = ReturnView;

    open spec fn view(&self) -> ReturnView {
        match self {
            ReturnValue::Success => ReturnView::Success,
            ReturnValue::Data(d) => ReturnView::Data(d@),
        }
    }
}

impl Clone for ReturnValue {
    fn clone(&self) -> (copy: Self)
        ensures
            copy@ == self@,
    {
        match self {
            ReturnValue::Success => ReturnValue::Success,
            ReturnValue::Data(d) => {
                let copy = d.clone();
                assert(copy@ == d@);
                ReturnValue::Data(copy)
            },
        }
    }
}

/// What an operation returned.
pub open spec fn returned(r: Result<ReturnValue, RelosError>) -> Result<ReturnView, ErrorView> {
    match r {
        Ok(v) => Ok(v@),
        Err(e) => Err(e@),
    }
}

/// What an operation of an engine comes to.
pub enum Outcome<T> {
    /// It succeeds.
    Done(T),
    /// It fails with this error.
    Failed(ErrorView),
}

/// Whether a proposal returned what it should.
pub open spec fn proposed(r: Result<ReturnValue, RelosError>, o: Outcome<ReturnView>) -> bool {
    match o {
        Outcome::Done(v) => r is Ok && r->Ok_0@ == v,
        Outcome::Failed(e) => r is Err && r->Err_0@ == e,
    }
}

/// Whether a sync returned what it should.
pub open spec fn synced(r: Result<LogPos, RelosError>, o: Outcome<LogPos>) -> bool {
    match o {
        Outcome::Done(p) => r is Ok && r->Ok_0 == p,
        Outcome::Failed(e) => r is Err && r->Err_0@ == e,
    }
}

/// The Engine trait — propose entries and sync state.
///
/// An engine sits between the shared log and the application. It drives a
/// replicated state machine by reading entries from the log, applying them
/// to a local store, and exposing `propose` / `sync` to callers.
///
/// An engine whose parts do not fail is `steady`; what it does is then a function
/// of its model. Of any engine that is `coherent`, the same holds of every
/// operation that succeeds.
pub trait Engine {
    /// The store to which entries are applied.
    type Store: LocalStore;

    /// The state of the engine.
    type Model;

    /// The engine is in a valid state.
    spec fn inv(&self) -> bool;

    /// The state of the engine.
    spec fn model(&self) -> Self::Model;

    /// Nothing below the engine fails.
    spec fn steady(&self) -> bool;

    /// What the engine plays is one log, and no proposal waits in the engine.
    spec fn coherent(&self) -> bool;

    /// The log holds `n` more entries.
    spec fn has_room(&self, n: Count) -> bool;

    /// What a proposal changes and what it comes to.
    spec fn propose_step(model: Self::Model, entry: EntryView) -> (
        Self::Model,
        Outcome<ReturnView>,
    );

    /// What a sync changes and what it comes to.
    spec fn sync_step(model: Self::Model) -> (Self::Model, Outcome<LogPos>);

    /// What the store holds.
    spec fn contents_of(model: Self::Model) -> Contents;

    /// Where there is room for some entries there is room for fewer.
    proof fn fewer_fit(&self, n: Count, k: Count)
        requires
            self.inv(),
            self.has_room(n),
            k <= n,
        ensures
            self.has_room(k),
    ;

    /// Propose an entry to be appended to the shared log.
    /// Blocks until the entry is applied locally, then returns the result.
    /// An engine that appends several proposals as one entry returns the result of
    /// that entry.
    fn propose(&mut self, entry: Entry) -> (r: Result<ReturnValue, RelosError>)
        requires
            old(self).inv(),
            old(self).has_room(1),
        ensures
            final(self).inv(),
            old(self).steady() ==> final(self).steady(),
            old(self).coherent() && r is Ok ==> final(self).coherent(),
            old(self).steady() || old(self).coherent() && r is Ok ==> {
                let (next, o) = Self::propose_step(old(self).model(), entry@);
                &&& final(self).model() == next
                &&& proposed(r, o)
                &&& forall|n: nat| old(self).has_room(n + 1) ==> #[trigger] final(self).has_room(n)
            },
    ;

    /// Sync: ensure all committed entries up to the current tail have been
    /// applied locally. Returns the tail position.
    fn sync(&mut self) -> (r: Result<LogPos, RelosError>)
        requires
            old(self).inv(),
        ensures
            final(self).inv(),
            old(self).steady() ==> final(self).steady(),
            old(self).coherent() && r is Ok ==> final(self).coherent(),
            old(self).steady() || old(self).coherent() && r is Ok ==> {
                let (next, o) = Self::sync_step(old(self).model());
                &&& final(self).model() == next
                &&& synced(r, o)
                &&& forall|n: nat| old(self).has_room(n) ==> #[trigger] final(self).has_room(n)
            },
    ;

    /// The store to which entries are applied.
    fn local_store(&self) -> (store: &Self::Store)
        requires
            self.inv(),
        ensures
            store.contents() == Self::contents_of(self.model()),
            self.steady() ==> store.reliable(),
    ;
}

/// What applying an entry changes and returns.
pub struct Step<M> {
    /// The applicator's state afterwards.
    pub model: M,
    /// What the transaction holds afterwards.
    pub contents: Contents,
    /// What is returned.
    pub result: Result<ReturnView, ErrorView>,
}

/// The Applicator trait — called by the engine when applying log entries.
///
/// Implementations define how each log entry mutates local state.
pub trait Applicator {
    /// What the applicator itself remembers.
    type Model;

    /// What the applicator itself remembers.
    spec fn model(&self) -> Self::Model;

    /// What applying an entry changes and returns.
    spec fn step(model: Self::Model, contents: Contents, entry: EntryView, pos: LogPos) -> Step<
        Self::Model,
    >;

    /// Apply a log entry within the given write transaction.
    /// Called by the engine's apply loop for each entry in log order.
    fn apply<T: WriteTransaction>(&mut self, txn: &mut T, entry: &Entry, pos: LogPos) -> (r: Result<
        ReturnValue,
        RelosError,
    >)
        ensures
            final(txn).reliable() == old(txn).reliable(),
            old(txn).reliable() || r is Ok ==> ({
                let s = Self::step(old(self).model(), old(txn).contents(), entry@, pos);
                final(self).model() == s.model && returned(r) == s.result
                    && final(txn).contents() == s.contents
            }),
    ;
}

} // verus!

//! Group commit: many proposals in one log entry.

use std::time::Duration;

use vstd::prelude::*;
use vstd::string::StringExecFns;

use crate::base::codec;
use crate::base::entry;
use crate::base::entry::{Entry, EntryView};
use crate::base::error::{ErrorView, RelosError};
use crate::base::text;
use crate::base::types::LogPos;
use crate::engine::traits;
use crate::engine::traits::{Applicator, Engine, Outcome, ReturnValue, ReturnView, Step};
use crate::store::sorted_map::Contents;
use crate::store::traits::WriteTransaction;

verus! {

/// Default maximum number of entries to batch before flushing.
pub const DEFAULT_MAX_BATCH_SIZE: usize = 100;

/// Default maximum time to wait before flushing a partial batch, in milliseconds.
pub const DEFAULT_BATCH_TIMEOUT_MS: u64 = 1;

/// The duration of so many milliseconds.
pub uninterp spec fn millis(ms: u64) -> Duration;

/// Calls `Duration::from_millis`, which makes a duration of a number of
/// milliseconds. Nothing is said of the duration but that it depends on the number.
#[verifier::external_body]
fn from_millis(ms: u64) -> (d: Duration)
    ensures
        d == millis(ms),
{
    Duration::from_millis(ms)
}

/// Header key used by the batching engine.
pub open spec fn batching_header() -> Seq<char> {
    "batching"@
}

/// The payloads of a batch as bytes.
pub open spec fn batch_bytes(payloads: Seq<Seq<u8>>) -> Seq<u8> {
    codec::list_bytes(payloads, |p: Seq<u8>| codec::blob_bytes(p))
}

/// The payloads that these bytes stand for.
pub open spec fn parse_batch(b: Seq<u8>) -> codec::Parsed<Seq<Seq<u8>>> {
    codec::parse_list(b, |x: Seq<u8>| codec::parse_blob(x))
}

/// The entry that carries a batch: the payloads, and their number in the header.
pub open spec fn batch_entry(payloads: Seq<Seq<u8>>) -> EntryView {
    EntryView::plain(batch_bytes(payloads)).with_header(
        batching_header(),
        codec::u64_bytes(payloads.len() as u64),
    )
}

/// The text that reports a batch whose header gives another number of payloads.
pub open spec fn count_text(stated: nat, actual: nat) -> Seq<char> {
    "batch metadata count "@ + text::decimal_text(stated) + " != actual payload count "@
        + text::decimal_text(actual)
}

/// What applying payloads one after the other changes and returns. The first
/// failure stops it; on success it returns what the last payload returned.
pub open spec fn apply_each<A: Applicator>(
    model: A::Model,
    contents: Contents,
    payloads: Seq<Seq<u8>>,
    pos: LogPos,
    last: ReturnView,
) -> Step<A::Model>
    decreases payloads.len(),
{
    if payloads.len() == 0 {
        Step { model, contents, result: Ok(last) }
    } else {
        let s = A::step(model, contents, EntryView::plain(payloads[0]), pos);
        match s.result {
            Err(e) => s,
            Ok(v) => apply_each::<A>(s.model, s.contents, payloads.drop_first(), pos, v),
        }
    }
}

/// The payloads of the batch that an entry carries, where it carries one.
pub open spec fn unpacked(entry: EntryView) -> Result<Option<Seq<Seq<u8>>>, ErrorView> {
    match entry.header(batching_header()) {
        None => Ok(None),
        Some(h) => if h.len() < 8 || vstd::bytes::spec_u64_from_le_bytes(h.take(8)) > usize::MAX {
            Err(ErrorView::Serialization(codec::usize_failure(h)))
        } else {
            match parse_batch(entry.payload) {
                Err(_) => Err(ErrorView::Serialization(codec::blobs_failure(entry.payload))),
                Ok((payloads, _)) => {
                    let count = vstd::bytes::spec_u64_from_le_bytes(h.take(8)) as nat;
                    if payloads.len() != count {
                        Err(ErrorView::Internal(count_text(count, payloads.len())))
                    } else {
                        Ok(Some(payloads))
                    }
                },
            }
        },
    }
}

/// What applying an entry changes and returns, where it may carry a batch.
pub open spec fn batched_step<A: Applicator>(
    model: A::Model,
    contents: Contents,
    entry: EntryView,
    pos: LogPos,
) -> Step<A::Model> {
    match unpacked(entry) {
        Err(e) => Step { model, contents, result: Err(e) },
        Ok(None) => A::step(model, contents, entry, pos),
        Ok(Some(payloads)) => apply_each::<A>(
            model,
            contents,
            payloads,
            pos,
            ReturnView::Success,
        ),
    }
}

/// BatchingApplicator — unwraps batched entries and applies each sub-entry.
///
/// Wraps an upstream [`Applicator`]. When it encounters an entry with a
/// `"batching"` header, it deserializes the batch and calls the wrapped
/// applicator for each sub-entry individually. Non-batched entries are
/// passed through directly.
pub struct BatchingApplicator<A: Applicator> {
    inner: A,
}

impl<A: Applicator> BatchingApplicator<A> {
    pub closed spec fn inner_of(&self) -> A {
        self.inner
    }

    pub fn new(inner: A) -> (app: Self)
        ensures
            app.inner_of() == inner,
    {
        BatchingApplicator { inner }
    }

    /// The wrapped applicator.
    pub fn inner(&self) -> (app: &A)
        ensures
            *app == self.inner_of(),
    {
        &self.inner
    }

    /// Applies payloads one after the other.
    fn apply_batch<T: WriteTransaction>(
        &mut self,
        txn: &mut T,
        payloads: &Vec<Vec<u8>>,
        pos: LogPos,
    ) -> (r: Result<ReturnValue, RelosError>)
        ensures
            final(txn).reliable() == old(txn).reliable(),
            old(txn).reliable() || r is Ok ==> ({
                let s = apply_each::<A>(
                    old(self).model(),
                    old(txn).contents(),
                    codec::blobs_view(payloads@),
                    pos,
                    ReturnView::Success,
                );
                final(self).model() == s.model && traits::returned(r) == s.result
                    && final(txn).contents() == s.contents
            }),
    {
        let ghost all = codec::blobs_view(payloads@);
        let ghost whole = apply_each::<A>(
            self.model(),
            txn.contents(),
            all,
            pos,
            ReturnView::Success,
        );
        let mut last_rv = ReturnValue::Success;
        let mut i: usize = 0;
        proof {
            assert(all.skip(0) == all);
        }
        while i < payloads.len()
            invariant
                i <= payloads@.len(),
                all == codec::blobs_view(payloads@),
                txn.reliable() == old(txn).reliable(),
                whole == apply_each::<A>(
                    old(self).model(),
                    old(txn).contents(),
                    all,
                    pos,
                    ReturnView::Success,
                ),
                apply_each::<A>(self.model(), txn.contents(), all.skip(i as int), pos, last_rv@)
                    == whole,
            decreases payloads.len() - i,
        {
            let payload = payloads[i].clone();
            proof {
                assert(payload@ == all[i as int]);
                assert(all.skip(i as int)[0] == all[i as int]);
                assert(all.skip(i as int).drop_first() == all.skip(i + 1));
            }
            let sub_entry = Entry::new(payload);
            match self.inner.apply(txn, &sub_entry, pos) {
                Ok(rv) => {
                    last_rv = rv;
                },
                Err(e) => return Err(e),
            }
            i = i + 1;
        }
        Ok(last_rv)
    }
}

impl<A: Applicator> Applicator for BatchingApplicator<A> {
    type Model = A::Model;

    open spec fn model(&self) -> A::Model {
        self.inner_of().model()
    }

    open spec fn step(model: A::Model, contents: Contents, entry: EntryView, pos: LogPos) -> Step<
        A::Model,
    > {
        batched_step::<A>(model, contents, entry, pos)
    }

    fn apply<T: WriteTransaction>(&mut self, txn: &mut T, entry: &Entry, pos: LogPos) -> (r: Result<
        ReturnValue,
        RelosError,
    >)
        ensures
            unpacked(entry@) matches Err(e) ==> {
                &&& *final(self) == *old(self)
                &&& *final(txn) == *old(txn)
                &&& traits::returned(r) == Result::<ReturnView, ErrorView>::Err(e)
            },
    {
        // Check if this is a batched entry.
        match entry.get_header("batching") {
            Some(header_bytes) => {
                let count: usize = match codec::decode_usize(header_bytes) {
                    Ok(n) => n,
                    Err(e) => return Err(RelosError::Serialization(e)),
                };
                let payloads = match codec::decode_blobs(entry.payload.as_slice()) {
                    Ok(p) => p,
                    Err(e) => return Err(RelosError::Serialization(e)),
                };
                if payloads.len() != count {
                    return Err(
                        RelosError::Internal(
                            "batch metadata count ".to_owned().concat(
                                text::decimal(count as u64).as_str(),
                            ).concat(" != actual payload count ").concat(
                                text::decimal(payloads.len() as u64).as_str(),
                            ),
                        ),
                    );
                }
                self.apply_batch(txn, &payloads, pos)
            },
            // Not a batched entry — pass through directly.
            None => self.inner.apply(txn, entry, pos),
        }
    }
}

/// The state of a [`BatchingEngine`].
#[verifier::reject_recursive_types(M)]
pub struct BatchModel<M> {
    /// The engine below.
    pub downstream: M,
    /// The payloads that wait to be flushed, in the order of their arrival.
    pub pending: Seq<Seq<u8>>,
    /// The number of payloads at which a batch is flushed.
    pub max_batch: nat,
}

/// What a flush changes, and what it comes to for every payload that waited.
/// Nothing happens where none did.
pub open spec fn flushed<E: Engine>(m: BatchModel<E::Model>) -> (
    BatchModel<E::Model>,
    Option<Outcome<ReturnView>>,
) {
    if m.pending.len() == 0 {
        (m, None)
    } else {
        let (below, outcome) = E::propose_step(m.downstream, batch_entry(m.pending));
        (BatchModel { downstream: below, pending: Seq::empty(), ..m }, Some(outcome))
    }
}

/// The state with one more payload waiting.
pub open spec fn enqueued<M>(m: BatchModel<M>, payload: Seq<u8>) -> BatchModel<M> {
    BatchModel { pending: m.pending.push(payload), ..m }
}

/// Whether the replies are what a flush of `count` payloads comes to: one for
/// each, and the same for all.
pub open spec fn replied(
    replies: Seq<Result<ReturnValue, RelosError>>,
    count: nat,
    outcome: Option<Outcome<ReturnView>>,
) -> bool {
    match outcome {
        None => replies.len() == 0,
        Some(o) => replies.len() == count && forall|i: int|
            0 <= i < replies.len() ==> traits::proposed(#[trigger] replies[i], o),
    }
}

/// What happens to a batching engine.
pub enum BatchEvent {
    /// A proposal arrives.
    Propose(Vec<u8>),
    /// Somebody asks for a sync.
    Sync,
    /// Nothing arrived in the time for which a partial batch waits.
    Timeout,
    /// Nothing more will arrive.
    Closed,
}

/// The contents of a [`BatchEvent`].
#[verifier::ext_equal]
pub enum EventView {
    Propose(Seq<u8>),
    Sync,
    Timeout,
    Closed,
}

impl View for BatchEvent {
    type V = EventView;

    open spec fn view(&self) -> EventView {
        match self {
            BatchEvent::Propose(payload) => EventView::Propose(payload@),
            BatchEvent::Sync => EventView::Sync,
            BatchEvent::Timeout => EventView::Timeout,
            BatchEvent::Closed => EventView::Closed,
        }
    }
}

/// What waits after an event, and what is flushed by it: proposals accumulate until
/// the batch is full, and a sync, a timeout or the end flush what waits.
pub open spec fn queued(waiting: Seq<Seq<u8>>, max_batch: nat, event: EventView) -> (
    Seq<Seq<u8>>,
    Seq<Seq<u8>>,
) {
    match event {
        EventView::Propose(payload) => {
            let more = waiting.push(payload);
            if more.len() >= max_batch {
                (Seq::empty(), more)
            } else {
                (more, Seq::empty())
            }
        },
        _ => (Seq::empty(), waiting),
    }
}

/// All replies say the same.
pub open spec fn agree(replies: Seq<Result<ReturnValue, RelosError>>) -> bool {
    forall|i: int, j: int|
        0 <= i < replies.len() && 0 <= j < replies.len() ==> traits::returned(
            #[trigger] replies[i],
        ) == traits::returned(#[trigger] replies[j])
}

/// No reply reports an error.
pub open spec fn all_succeed(replies: Seq<Result<ReturnValue, RelosError>>) -> bool {
    forall|i: int| 0 <= i < replies.len() ==> (#[trigger] replies[i]) is Ok
}

/// A batch that was flushed: its payloads, and what the flush came to for each.
pub struct Batch {
    pub payloads: Seq<Seq<u8>>,
    pub outcome: Outcome<ReturnView>,
}

/// What serving an event changes and comes to.
#[verifier::reject_recursive_types(M)]
pub struct Handled<M> {
    /// The state afterwards.
    pub model: BatchModel<M>,
    /// The batch that was flushed.
    pub batch: Option<Batch>,
    /// What a sync came to.
    pub synced: Option<Outcome<LogPos>>,
}

/// What serving an event by a flush changes and comes to.
pub open spec fn handled_by_flush<E: Engine>(m: BatchModel<E::Model>) -> Handled<E::Model> {
    let (model, o) = flushed::<E>(m);
    Handled {
        model,
        batch: match o {
            None => None,
            Some(outcome) => Some(Batch { payloads: m.pending, outcome }),
        },
        synced: None,
    }
}

/// What serving an event changes and comes to: proposals accumulate until the
/// batch is full, and a sync, a timeout or the end flush what waits.
pub open spec fn handled<E: Engine>(m: BatchModel<E::Model>, event: EventView) -> Handled<
    E::Model,
> {
    match event {
        EventView::Propose(payload) => {
            let more = enqueued(m, payload);
            if more.pending.len() >= more.max_batch {
                handled_by_flush::<E>(more)
            } else {
                Handled { model: more, batch: None, synced: None }
            }
        },
        EventView::Sync => {
            let h = handled_by_flush::<E>(m);
            let (downstream, tail) = E::sync_step(h.model.downstream);
            Handled {
                model: BatchModel { downstream, ..h.model },
                synced: Some(tail),
                ..h
            }
        },
        _ => handled_by_flush::<E>(m),
    }
}

/// Whether the replies are those to the payloads of a batch, where one was flushed:
/// one for each, and the same for all.
pub open spec fn answered(
    replies: Seq<Result<ReturnValue, RelosError>>,
    batch: Option<Batch>,
) -> bool {
    match batch {
        None => replies.len() == 0,
        Some(b) => replied(replies, b.payloads.len(), Some(b.outcome)),
    }
}

/// What a batching engine has to say after an event.
pub struct BatchAction {
    /// The replies to the proposals that were flushed, in the order of their
    /// arrival. Those that the engine had kept come first.
    pub replies: Vec<Result<ReturnValue, RelosError>>,
    /// The reply to a sync.
    pub synced: Option<Result<LogPos, RelosError>>,
    /// Whether the engine is done.
    pub done: bool,
}

/// Neither the replies behind the first `kept` nor a sync report an error.
pub open spec fn went_well(action: BatchAction, kept: nat) -> bool {
    all_succeed(action.replies@.skip(kept as int)) && (action.synced matches Some(r) ==> r is Ok)
}

fn copy_result(r: &Result<ReturnValue, RelosError>) -> (copy: Result<ReturnValue, RelosError>)
    ensures
        traits::returned(copy) == traits::returned(*r),
{
    match r {
        Ok(v) => Ok(v.clone()),
        Err(e) => Err(e.clone()),
    }
}

/// One result for each of `count` proposals.
fn reply_all(count: usize, result: Result<ReturnValue, RelosError>) -> (replies: Vec<
    Result<ReturnValue, RelosError>,
>)
    ensures
        replies@.len() == count,
        forall|i: int|
            0 <= i < count ==> traits::returned(#[trigger] replies@[i]) == traits::returned(result),
{
    let mut replies: Vec<Result<ReturnValue, RelosError>> = Vec::new();
    let mut i: usize = 0;
    while i < count
        invariant
            i <= count,
            replies@.len() == i,
            forall|j: int|
                0 <= j < i ==> traits::returned(#[trigger] replies@[j]) == traits::returned(result),
        decreases count - i,
    {
        replies.push(copy_result(&result));
        i = i + 1;
    }
    replies
}

/// BatchingEngine — group commit optimization.
///
/// Accumulates multiple propose calls and flushes them as a single batched
/// entry to the downstream engine. This amortises the per-entry overhead of
/// log appends across many proposals.
///
/// The proposals of a batch are answered together: each gets what the downstream
/// engine returned for the batch, which is what its last sub-entry returned.
pub struct BatchingEngine<E: Engine> {
    downstream: E,
    pending: Vec<Vec<u8>>,
    kept: Vec<Result<ReturnValue, RelosError>>,
    max_batch_size: usize,
    batch_timeout: Duration,
}

impl<E: Engine> BatchingEngine<E> {
    pub closed spec fn below(&self) -> E {
        self.downstream
    }

    pub closed spec fn waiting(&self) -> Seq<Seq<u8>> {
        codec::blobs_view(self.pending@)
    }

    /// The replies to proposals that waited when an operation flushed them. They
    /// are handed out with the next action.
    pub closed spec fn kept_replies(&self) -> Seq<Result<ReturnValue, RelosError>> {
        self.kept@
    }

    pub closed spec fn batch_limit(&self) -> nat {
        self.max_batch_size as nat
    }

    /// How long a partial batch waits.
    pub closed spec fn timeout_of(&self) -> Duration {
        self.batch_timeout
    }

    pub open spec fn state(&self) -> BatchModel<E::Model> {
        BatchModel {
            downstream: self.below().model(),
            pending: self.waiting(),
            max_batch: self.batch_limit(),
        }
    }

    /// Create a new BatchingEngine wrapping a downstream engine.
    pub fn new(
        downstream: E,
        max_batch_size: Option<usize>,
        batch_timeout: Option<Duration>,
    ) -> (engine: Self)
        ensures
            engine.below() == downstream,
            engine.waiting() == Seq::<Seq<u8>>::empty(),
            engine.kept_replies() == Seq::<Result<ReturnValue, RelosError>>::empty(),
            engine.batch_limit() == (match max_batch_size {
                Some(n) => n,
                None => DEFAULT_MAX_BATCH_SIZE,
            }),
            engine.timeout_of() == (match batch_timeout {
                Some(t) => t,
                None => millis(DEFAULT_BATCH_TIMEOUT_MS),
            }),
    {
        let engine = BatchingEngine {
            downstream,
            pending: Vec::new(),
            kept: Vec::new(),
            max_batch_size: match max_batch_size {
                Some(n) => n,
                None => DEFAULT_MAX_BATCH_SIZE,
            },
            batch_timeout: match batch_timeout {
                Some(t) => t,
                None => from_millis(DEFAULT_BATCH_TIMEOUT_MS),
            },
        };
        assert(engine.waiting() == Seq::<Seq<u8>>::empty());
        engine
    }

    /// The engine below.
    pub fn downstream(&self) -> (engine: &E)
        ensures
            *engine == self.below(),
    {
        &self.downstream
    }

    /// How long a partial batch waits.
    pub fn batch_timeout(&self) -> (d: Duration)
        ensures
            d == self.timeout_of(),
    {
        self.batch_timeout
    }

    /// How long to wait for the next event: as long as it takes where nothing waits
    /// to be flushed, else until the partial batch times out.
    pub fn patience(&self) -> (d: Option<Duration>)
        ensures
            d == if self.waiting().len() == 0 {
                None
            } else {
                Some(self.timeout_of())
            },
    {
        if self.pending.len() == 0 {
            None
        } else {
            Some(self.batch_timeout)
        }
    }

    /// The number of proposals that wait.
    pub fn pending_len(&self) -> (n: usize)
        ensures
            n == self.waiting().len(),
    {
        self.pending.len()
    }

    /// Flush accumulated proposals as a single batched entry. Returns the reply to
    /// each of them: all sub-entries of a batch succeed or fail together.
    pub fn flush_batch(&mut self) -> (replies: Vec<Result<ReturnValue, RelosError>>)
        requires
            old(self).inv(),
        ensures
            final(self).inv(),
            final(self).waiting().len() == 0,
            final(self).batch_limit() == old(self).batch_limit(),
            final(self).timeout_of() == old(self).timeout_of(),
            final(self).kept_replies() == old(self).kept_replies(),
            replies@.len() == old(self).waiting().len(),
            agree(replies@),
            old(self).steady() ==> final(self).steady(),
            old(self).below().coherent() && all_succeed(replies@) ==> final(self).coherent(),
            old(self).steady() || old(self).below().coherent() && all_succeed(replies@) ==> {
                &&& final(self).model() == flushed::<E>(old(self).model()).0
                &&& replied(
                    replies@,
                    old(self).waiting().len(),
                    flushed::<E>(old(self).model()).1,
                )
                &&& old(self).waiting().len() > 0 ==> forall|n: nat|
                    old(self).below().has_room(n + 1)
                        ==> #[trigger] final(self).below().has_room(n)
            },
            old(self).waiting().len() == 0 ==> *final(self) == *old(self),
    {
        if self.pending.len() == 0 {
            return Vec::new();
        }
        let mut batch: Vec<Vec<u8>> = Vec::new();
        std::mem::swap(&mut batch, &mut self.pending);
        assert(self.waiting() == Seq::<Seq<u8>>::empty());
        let count: usize = batch.len();

        // Serialize all payloads into a single batched payload.
        let batched_payload = match codec::encode_blobs(&batch) {
            Ok(bytes) => bytes,
            Err(e) => return reply_all(count, Err(RelosError::Serialization(e))),
        };

        // Create batch metadata header.
        let header_bytes = match codec::encode_usize(count) {
            Ok(bytes) => bytes,
            Err(e) => return reply_all(count, Err(RelosError::Serialization(e))),
        };
        let entry = Entry::new(batched_payload).with_header("batching", header_bytes);

        // Propose the batched entry to the downstream engine.
        let result = self.downstream.propose(entry);
        let replies = reply_all(count, result);
        proof {
            assert(traits::returned(replies@[0]) == traits::returned(result));
            if old(self).steady() || old(self).below().coherent() && result is Ok {
                let o = flushed::<E>(old(self).model()).1->0;
                assert forall|i: int| 0 <= i < replies@.len() implies traits::proposed(
                    #[trigger] replies@[i],
                    o,
                ) by {
                    assert(traits::returned(replies@[i]) == traits::returned(result));
                }
            }
        }
        replies
    }

    /// Serves one event: proposals accumulate until the batch is full, and a
    /// sync, a timeout or the end flush what waits.
    pub fn handle(&mut self, event: BatchEvent) -> (action: BatchAction)
        requires
            old(self).inv(),
            event is Propose ==> old(self).has_room(1),
        ensures
            final(self).inv(),
            final(self).batch_limit() == old(self).batch_limit(),
            final(self).timeout_of() == old(self).timeout_of(),
            action.done == (event is Closed),
            action.synced is Some == (event is Sync),
            ({
                let (waits, batch) = queued(old(self).waiting(), old(self).batch_limit(), event@);
                let replies = action.replies@.skip(old(self).kept_replies().len() as int);
                &&& final(self).waiting() == waits
                &&& final(self).kept_replies().len() == 0
                &&& action.replies@ == old(self).kept_replies() + replies
                &&& replies.len() == batch.len()
                &&& agree(replies)
            }),
            old(self).steady() ==> final(self).steady(),
            old(self).steady() || old(self).below().coherent() && went_well(
                action,
                old(self).kept_replies().len(),
            ) ==> {
                let h = handled::<E>(old(self).model(), event@);
                &&& final(self).model() == h.model
                &&& answered(action.replies@.skip(old(self).kept_replies().len() as int), h.batch)
                &&& h.synced matches Some(o) ==> traits::synced(action.synced->0, o)
                &&& forall|n: nat| old(self).has_room(n + 1) ==> #[trigger] final(self).has_room(n)
            },
    {
        let ghost before = self.waiting();
        let ghost start = self.downstream;
        let mut replies: Vec<Result<ReturnValue, RelosError>> = Vec::new();
        std::mem::swap(&mut replies, &mut self.kept);
        let ghost kept = replies@;
        let mut synced: Option<Result<LogPos, RelosError>> = None;
        let mut done = false;
        let mut fresh: Vec<Result<ReturnValue, RelosError>> = Vec::new();
        match event {
            BatchEvent::Propose(payload) => {
                proof {
                    if before.len() > 0 {
                        start.fewer_fit(2, 1);
                    }
                }
                self.pending.push(payload);
                assert(self.waiting() == before.push(payload@));
                if self.pending.len() >= self.max_batch_size {
                    fresh = self.flush_batch();
                    proof {
                        let good = start.steady() || start.coherent() && all_succeed(fresh@);
                        Self::room_after(start, before.len(), self, good);
                        assert(self.waiting() == Seq::<Seq<u8>>::empty());
                    }
                } else {
                    proof {
                        assert forall|n: nat|
                            old(self).has_room(n + 1) implies #[trigger] self.has_room(n) by {
                            if before.len() > 0 {
                                start.fewer_fit(n + 2, n + 1);
                            }
                        }
                    }
                }
            },
            BatchEvent::Sync => {
                // Flush any pending proposals first, then sync.
                fresh = self.flush_batch();
                let ghost middle = self.downstream;
                let result = self.downstream.sync();
                proof {
                    assert(self.waiting() == Seq::<Seq<u8>>::empty());
                    if start.steady() || start.coherent() && all_succeed(fresh@) && result is Ok {
                        assert forall|n: nat|
                            old(self).has_room(n + 1) implies #[trigger] self.has_room(n) by {
                            assert(middle.has_room(n + 1));
                            middle.fewer_fit(n + 1, n);
                            assert(self.below().has_room(n));
                        }
                    }
                }
                synced = Some(result);
            },
            BatchEvent::Timeout => {
                // Flush partial batch.
                fresh = self.flush_batch();
                proof {
                    let good = start.steady() || start.coherent() && all_succeed(fresh@);
                    Self::room_left(start, before.len(), self, good);
                    assert(self.waiting() == Seq::<Seq<u8>>::empty());
                }
            },
            BatchEvent::Closed => {
                // Flush remaining.
                fresh = self.flush_batch();
                done = true;
                proof {
                    let good = start.steady() || start.coherent() && all_succeed(fresh@);
                    Self::room_left(start, before.len(), self, good);
                    assert(self.waiting() == Seq::<Seq<u8>>::empty());
                }
            },
        }
        let ghost new = fresh@;
        replies.append(&mut fresh);
        proof {
            assert(replies@.skip(kept.len() as int) == new);
        }
        BatchAction { replies, synced, done }
    }

    /// A flush that takes one more payload with it uses the room of one entry.
    proof fn room_after(start: E, waited: nat, end: &Self, good: bool)
        requires
            start.inv(),
            end.inv(),
            end.waiting().len() == 0,
            good ==> forall|n: nat|
                start.has_room(n + 1) ==> #[trigger] end.below().has_room(n),
        ensures
            good ==> forall|n: nat|
                start.has_room(
                    (n + 1 + if waited > 0 {
                        1nat
                    } else {
                        0nat
                    }) as nat,
                ) ==> #[trigger] end.has_room(n),
    {
        if good {
            assert forall|n: nat|
                start.has_room(
                    (n + 1 + if waited > 0 {
                        1nat
                    } else {
                        0nat
                    }) as nat,
                ) implies #[trigger] end.has_room(n) by {
                if waited > 0 {
                    start.fewer_fit(n + 2, n + 1);
                }
                assert(end.below().has_room(n));
            }
        }
    }

    /// A flush of what waited uses the room that was kept for it.
    proof fn room_left(start: E, waited: nat, end: &Self, good: bool)
        requires
            start.inv(),
            end.inv(),
            end.waiting().len() == 0,
            waited == 0 ==> end.below() == start,
            good && waited > 0 ==> forall|n: nat|
                start.has_room(n + 1) ==> #[trigger] end.below().has_room(n),
        ensures
            good ==> forall|n: nat|
                start.has_room(
                    (n + 1 + if waited > 0 {
                        1nat
                    } else {
                        0nat
                    }) as nat,
                ) ==> #[trigger] end.has_room(n),
    {
        if good {
            assert forall|n: nat|
                start.has_room(
                    (n + 1 + if waited > 0 {
                        1nat
                    } else {
                        0nat
                    }) as nat,
                ) implies #[trigger] end.has_room(n) by {
                if waited > 0 {
                    start.fewer_fit(n + 2, n + 1);
                    assert(end.below().has_room(n));
                } else {
                    start.fewer_fit(n + 1, n);
                }
            }
        }
    }
}

impl<E: Engine> Engine for BatchingEngine<E> {
    type Store = E::Store;

    type Model = BatchModel<E::Model>;

    open spec fn inv(&self) -> bool {
        self.below().inv() && (self.waiting().len() > 0 ==> self.below().has_room(1))
    }

    open spec fn model(&self) -> BatchModel<E::Model> {
        self.state()
    }

    open spec fn steady(&self) -> bool {
        self.below().steady()
    }

    open spec fn coherent(&self) -> bool {
        self.below().coherent() && self.waiting().len() == 0
    }

    open spec fn has_room(&self, n: nat) -> bool {
        if self.waiting().len() > 0 {
            self.below().has_room(n + 1)
        } else {
            self.below().has_room(n)
        }
    }

    open spec fn propose_step(model: BatchModel<E::Model>, entry: EntryView) -> (
        BatchModel<E::Model>,
        Outcome<ReturnView>,
    ) {
        let (next, o) = flushed::<E>(enqueued(model, entry.payload));
        (next, o->0)
    }

    open spec fn sync_step(model: BatchModel<E::Model>) -> (
        BatchModel<E::Model>,
        Outcome<LogPos>,
    ) {
        let next = flushed::<E>(model).0;
        let (below, o) = E::sync_step(next.downstream);
        (BatchModel { downstream: below, ..next }, o)
    }

    open spec fn contents_of(model: BatchModel<E::Model>) -> Contents {
        E::contents_of(model.downstream)
    }

    proof fn fewer_fit(&self, n: nat, k: nat) {
        if self.waiting().len() > 0 {
            self.below().fewer_fit(n + 1, k + 1);
        } else {
            self.below().fewer_fit(n, k);
        }
    }

    /// The payload joins what waits, and the batch is flushed: at the latest when
    /// its time is over, which for one caller that waits for the reply is now. The
    /// replies to those that waited are kept for the next action.
    fn propose(&mut self, entry: Entry) -> (r: Result<ReturnValue, RelosError>)
        ensures
            final(self).waiting().len() == 0,
            final(self).kept_replies().len() == old(self).kept_replies().len() + old(
                self,
            ).waiting().len(),
            old(self).kept_replies().is_prefix_of(final(self).kept_replies()),
            forall|i: int|
                old(self).kept_replies().len() <= i < final(self).kept_replies().len()
                    ==> traits::returned(#[trigger] final(self).kept_replies()[i])
                    == traits::returned(r),
            old(self).below().coherent() && r is Ok ==> {
                let (next, o) = Self::propose_step(old(self).model(), entry@);
                &&& final(self).coherent()
                &&& final(self).model() == next
                &&& traits::proposed(r, o)
            },
    {
        let ghost before = self.waiting();
        let ghost start = self.downstream;
        let ghost kept = self.kept@;
        self.pending.push(entry.payload);
        assert(self.waiting() == before.push(entry@.payload));
        let mut replies = self.flush_batch();
        let ghost all = replies@;
        proof {
            assert(self.waiting() == Seq::<Seq<u8>>::empty());
            assert forall|i: int| 0 <= i < all.len() implies traits::returned(#[trigger] all[i])
                == traits::returned(all.last()) by {}
            if all.last() is Ok {
                assert forall|i: int| 0 <= i < all.len() implies (#[trigger] all[i]) is Ok by {
                    assert(traits::returned(all[i]) == traits::returned(all.last()));
                }
            }
        }
        let own = replies.pop();
        self.kept.append(&mut replies);
        proof {
            assert(self.kept@ == kept + all.drop_last());
            assert(kept == self.kept@.subrange(0, kept.len() as int));
            assert(all.last() == all[all.len() - 1]);
            if start.steady() || start.coherent() && all.last() is Ok {
                assert forall|n: nat| old(self).has_room(n + 1) implies #[trigger] self.has_room(
                    n,
                ) by {
                    if before.len() > 0 {
                        start.fewer_fit(n + 2, n + 1);
                    }
                    assert(self.below().has_room(n));
                }
            }
        }
        match own {
            Some(r) => r,
            None => Err(RelosError::Internal("batching flush loop dropped result".to_owned())),
        }
    }

    /// What waits is flushed first. The replies are kept for the next action.
    fn sync(&mut self) -> (r: Result<LogPos, RelosError>)
        ensures
            final(self).waiting().len() == 0,
            final(self).kept_replies().len() == old(self).kept_replies().len() + old(
                self,
            ).waiting().len(),
            old(self).kept_replies().is_prefix_of(final(self).kept_replies()),
            agree(final(self).kept_replies().skip(old(self).kept_replies().len() as int)),
            old(self).steady() ==> replied(
                final(self).kept_replies().skip(old(self).kept_replies().len() as int),
                old(self).waiting().len(),
                flushed::<E>(old(self).model()).1,
            ),
    {
        let ghost kept = self.kept@;
        let mut replies = self.flush_batch();
        let ghost new = replies@;
        self.kept.append(&mut replies);
        proof {
            assert(self.kept@.skip(kept.len() as int) == new);
            assert(kept == self.kept@.subrange(0, kept.len() as int));
        }
        self.downstream.sync()
    }

    fn local_store(&self) -> (store: &E::Store) {
        self.downstream.local_store()
    }
}

// Laws

/// What waits after events that came one after the other, and the batches that were
/// flushed on the way.
pub open spec fn run(waiting: Seq<Seq<u8>>, max_batch: nat, events: Seq<EventView>) -> (
    Seq<Seq<u8>>,
    Seq<Seq<Seq<u8>>>,
)
    decreases events.len(),
{
    if events.len() == 0 {
        (waiting, Seq::empty())
    } else {
        let (mid, batches) = run(waiting, max_batch, events.drop_last());
        let (next, batch) = queued(mid, max_batch, events.last());
        if batch.len() == 0 {
            (next, batches)
        } else {
            (next, batches.push(batch))
        }
    }
}

/// The payloads that events propose.
pub open spec fn proposals(events: Seq<EventView>) -> Seq<Seq<u8>>
    decreases events.len(),
{
    if events.len() == 0 {
        Seq::empty()
    } else {
        match events.last() {
            EventView::Propose(payload) => proposals(events.drop_last()).push(payload),
            _ => proposals(events.drop_last()),
        }
    }
}

/// How many payloads a batch holds at the most.
pub open spec fn batch_capacity(max_batch: nat) -> nat {
    if max_batch == 0 {
        1
    } else {
        max_batch
    }
}

/// Whatever events come, and whether or not the engine below fails, each proposal is
/// flushed once or still waits, in the order of arrival: none is lost, none comes
/// twice. No batch is empty or larger than the limit. After a sync, a timeout or the
/// end nothing waits. What [`BatchingEngine::handle`] leaves waiting, and how many
/// replies it gives, is what is said here.
pub proof fn each_proposal_once(waiting: Seq<Seq<u8>>, max_batch: nat, events: Seq<EventView>)
    requires
        waiting.len() < batch_capacity(max_batch),
    ensures
        ({
            let (next, batches) = run(waiting, max_batch, events);
            &&& batches.flatten() + next == waiting + proposals(events)
            &&& next.len() < batch_capacity(max_batch)
            &&& forall|i: int|
                0 <= i < batches.len() ==> 0 < (#[trigger] batches[i]).len() <= batch_capacity(
                    max_batch,
                )
            &&& events.len() > 0 && !(events.last() is Propose) ==> next.len() == 0
                && batches.flatten() == waiting + proposals(events)
        }),
    decreases events.len(),
{
    if events.len() == 0 {
        reveal(Seq::flatten);
        assert(Seq::<Seq<Seq<u8>>>::empty().flatten() == Seq::<Seq<u8>>::empty());
        assert(Seq::<Seq<u8>>::empty() + waiting == waiting + Seq::<Seq<u8>>::empty());
    } else {
        each_proposal_once(waiting, max_batch, events.drop_last());
        let (mid, before) = run(waiting, max_batch, events.drop_last());
        let (next, batches) = run(waiting, max_batch, events);
        let given = waiting + proposals(events.drop_last());
        let held = match events.last() {
            EventView::Propose(payload) => mid.push(payload),
            _ => mid,
        };
        assert(before.flatten() + held == waiting + proposals(events)) by {
            assert(before.flatten() + mid == given);
            if let EventView::Propose(payload) = events.last() {
                assert(before.flatten() + held == given.push(payload));
                assert(waiting + proposals(events) == given.push(payload));
            }
        }
        if queued(mid, max_batch, events.last()).1.len() > 0 {
            before.lemma_flatten_push(held);
            assert(batches == before.push(held));
            assert(next == Seq::<Seq<u8>>::empty());
            assert(batches.flatten() + next == batches.flatten());
        } else {
            assert(batches == before);
            assert(next == held);
            assert(next.len() == 0 ==> batches.flatten() + next == batches.flatten());
        }
    }
}

/// Where the engine below does what it should, what waits and what is flushed is
/// the same, and the flush proposes it as one entry.
pub proof fn handled_follows_queue<E: Engine>(m: BatchModel<E::Model>, event: EventView)
    ensures
        ({
            let (waits, batch) = queued(m.pending, m.max_batch, event);
            let h = handled::<E>(m, event);
            &&& h.model.pending == waits
            &&& h.model.max_batch == m.max_batch
            &&& h.batch is Some == (batch.len() > 0)
            &&& h.batch is Some ==> h.batch->0.payloads == batch && h.batch->0.outcome
                == E::propose_step(m.downstream, batch_entry(batch)).1
        }),
{
    if m.pending.len() == 0 {
        assert(m.pending == Seq::<Seq<u8>>::empty());
    }
}

/// The entry that carries a batch is unpacked into its payloads.
pub proof fn batch_is_unpacked(payloads: Seq<Seq<u8>>)
    requires
        payloads.len() <= usize::MAX,
        batch_bytes(payloads).len() <= u64::MAX,
    ensures
        unpacked(batch_entry(payloads)) == Result::<Option<Seq<Seq<u8>>>, ErrorView>::Ok(
            Some(payloads),
        ),
{
    let write = |p: Seq<u8>| codec::blob_bytes(p);
    let read = |x: Seq<u8>| codec::parse_blob(x);
    let count = payloads.len() as u64;
    let h = codec::u64_bytes(count);
    let plain = EntryView::plain(batch_bytes(payloads));
    assert(plain.headers == Seq::<entry::HeaderView>::empty());
    entry::header_read_back(plain, batching_header(), h, batching_header());
    vstd::bytes::lemma_auto_spec_u64_to_from_le_bytes();
    assert(h.take(8) == h);
    codec::u64_round_trip(count, Seq::empty());
    assert forall|i: int| 0 <= i < payloads.len() implies (#[trigger] write(payloads[i])).len()
        >= 8 by {
        codec::u64_round_trip(payloads[i].len() as u64, Seq::empty());
    }
    codec::items_bytes_len(payloads, write, 8);
    assert forall|i: int, t: Seq<u8>| 0 <= i < payloads.len() implies #[trigger] read(
        write(payloads[i]) + t,
    ) == codec::Parsed::Ok((payloads[i], t)) by {
        assert(write(payloads[i]).len() <= codec::items_bytes(payloads, write).len());
        codec::u64_round_trip(payloads[i].len() as u64, Seq::empty());
        codec::blob_round_trip(payloads[i], t);
    }
    codec::list_round_trip(payloads, write, read, Seq::empty());
    assert(batch_bytes(payloads) + Seq::<u8>::empty() == batch_bytes(payloads));
}

/// Applying a batch comes to the same as applying its payloads one after the
/// other, each in an entry of its own, at the position of the batch.
pub proof fn batch_is_sequence<A: Applicator>(
    model: A::Model,
    contents: Contents,
    payloads: Seq<Seq<u8>>,
    pos: LogPos,
)
    requires
        payloads.len() <= usize::MAX,
        batch_bytes(payloads).len() <= u64::MAX,
    ensures
        batched_step::<A>(model, contents, batch_entry(payloads), pos) == apply_each::<A>(
            model,
            contents,
            payloads,
            pos,
            ReturnView::Success,
        ),
{
    batch_is_unpacked(payloads);
}

} // verus!

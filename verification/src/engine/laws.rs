//! What engines and applicators do, entry by entry.

use vstd::prelude::*;

use crate::base::codec;
use crate::base::entry;
use crate::base::entry::EntryView;
use crate::base::error::{ErrorView, RelosError};
use crate::base::text;
use crate::base::types::{LogPos, ServerId, LOG_POS_BEGIN};
use crate::engine::base_engine;
use crate::engine::base_engine::{BaseEngine, BaseModel};
use crate::engine::batching;
use crate::engine::batching::{BatchModel, BatchingApplicator, BatchingEngine, EventView};
use crate::engine::observer::{MetricsReporter, ObserverApplicator, ObserverEngine};
use crate::engine::stack;
use crate::engine::stack::MiddleEngine;
use crate::engine::traits;
use crate::engine::traits::{Applicator, Engine, Outcome, ReturnValue, ReturnView, Step};
use crate::engine::view_tracking;
use crate::engine::view_tracking::{
    ShowsViews,
    TrackModel,
    TrackingEngineModel,
    ViewTrackingApplicator,
    ViewTrackingEngine,
    Views,
};
use crate::log::loglet;
use crate::log::loglet::Loglet;
use crate::store::sorted_map::Contents;
use crate::store::traits::LocalStore;

verus! {

// Batches

/// The steps of an applicator on payloads that come one after the other: the first is
/// made from the given state, and each of the others from the state that the one before
/// it left.
pub open spec fn in_turn<A: Applicator>(
    model: A::Model,
    contents: Contents,
    payloads: Seq<Seq<u8>>,
    pos: LogPos,
    steps: Seq<Step<A::Model>>,
) -> bool {
    &&& steps.len() == payloads.len()
    &&& steps.len() > 0 ==> steps[0] == A::step(
        model,
        contents,
        EntryView { headers: Seq::empty(), payload: payloads[0] },
        pos,
    )
    &&& forall|i: int, j: int|
        0 <= i < j < steps.len() && j == i + 1 ==> (#[trigger] steps[j]) == A::step(
            (#[trigger] steps[i]).model,
            steps[i].contents,
            EntryView { headers: Seq::empty(), payload: payloads[j] },
            pos,
        )
}

proof fn in_turn_rest<A: Applicator>(
    model: A::Model,
    contents: Contents,
    payloads: Seq<Seq<u8>>,
    pos: LogPos,
    steps: Seq<Step<A::Model>>,
)
    requires
        in_turn::<A>(model, contents, payloads, pos, steps),
        steps.len() > 0,
    ensures
        in_turn::<A>(
            steps[0].model,
            steps[0].contents,
            payloads.drop_first(),
            pos,
            steps.drop_first(),
        ),
{
    let rest = steps.drop_first();
    let later = payloads.drop_first();
    if rest.len() > 0 {
        assert(rest[0] == steps[1]);
        assert(steps[1] == A::step(
            steps[0].model,
            steps[0].contents,
            EntryView { headers: Seq::empty(), payload: payloads[1] },
            pos,
        ));
        assert(later[0] == payloads[1]);
    }
    assert forall|i: int, j: int| 0 <= i < j < rest.len() && j == i + 1 implies (
    #[trigger] rest[j]) == A::step(
        (#[trigger] rest[i]).model,
        rest[i].contents,
        EntryView { headers: Seq::empty(), payload: later[j] },
        pos,
    ) by {
        assert(rest[i] == steps[i + 1]);
        assert(rest[j] == steps[j + 1]);
        assert(later[j] == payloads[j + 1]);
    }
}

/// Where every step succeeds all of them are made, however many there are, and the last
/// one counts.
proof fn each_in_turn<A: Applicator>(
    model: A::Model,
    contents: Contents,
    payloads: Seq<Seq<u8>>,
    pos: LogPos,
    last: ReturnView,
    steps: Seq<Step<A::Model>>,
)
    requires
        in_turn::<A>(model, contents, payloads, pos, steps),
        steps.len() > 0,
        forall|i: int| 0 <= i < steps.len() ==> (#[trigger] steps[i]).result is Ok,
    ensures
        batching::apply_each::<A>(model, contents, payloads, pos, last) == steps.last(),
    decreases steps.len(),
{
    in_turn_rest::<A>(model, contents, payloads, pos, steps);
    let rest = steps.drop_first();
    let s = steps[0];
    assert(s.result is Ok);
    assert(EntryView::plain(payloads[0]) == (EntryView {
        headers: Seq::empty(),
        payload: payloads[0],
    }));
    if rest.len() > 0 {
        assert forall|i: int| 0 <= i < rest.len() implies (#[trigger] rest[i]).result is Ok by {
            assert(rest[i] == steps[i + 1]);
        }
        each_in_turn::<A>(s.model, s.contents, payloads.drop_first(), pos, s.result->Ok_0, rest);
    }
}

/// The first step that fails is the last that is made.
proof fn failure_in_turn<A: Applicator>(
    model: A::Model,
    contents: Contents,
    payloads: Seq<Seq<u8>>,
    pos: LogPos,
    last: ReturnView,
    steps: Seq<Step<A::Model>>,
    k: int,
)
    requires
        in_turn::<A>(model, contents, payloads, pos, steps),
        0 <= k < steps.len(),
        steps[k].result is Err,
        forall|i: int| 0 <= i < k ==> (#[trigger] steps[i]).result is Ok,
    ensures
        batching::apply_each::<A>(model, contents, payloads, pos, last) == steps[k],
    decreases steps.len(),
{
    in_turn_rest::<A>(model, contents, payloads, pos, steps);
    let rest = steps.drop_first();
    let s = steps[0];
    assert(EntryView::plain(payloads[0]) == (EntryView {
        headers: Seq::empty(),
        payload: payloads[0],
    }));
    if k > 0 {
        assert(s.result is Ok);
        assert forall|i: int| 0 <= i < k - 1 implies (#[trigger] rest[i]).result is Ok by {
            assert(rest[i] == steps[i + 1]);
        }
        assert(rest[k - 1] == steps[k]);
        failure_in_turn::<A>(
            s.model,
            s.contents,
            payloads.drop_first(),
            pos,
            s.result->Ok_0,
            rest,
            k - 1,
        );
    }
}

/// Applying a batch makes one step of the wrapped applicator for each payload, in
/// order: the `i`-th on payload `i`, from the state that the one before it left. Where
/// all succeed the batch comes to what the last one does.
pub proof fn batch_applies_every_payload<A: Applicator>(
    model: A::Model,
    contents: Contents,
    payloads: Seq<Seq<u8>>,
    pos: LogPos,
    steps: Seq<Step<A::Model>>,
)
    requires
        0 < payloads.len() <= usize::MAX,
        batching::batch_bytes(payloads).len() <= u64::MAX,
        in_turn::<A>(model, contents, payloads, pos, steps),
        forall|i: int| 0 <= i < steps.len() ==> (#[trigger] steps[i]).result is Ok,
    ensures
        BatchingApplicator::<A>::step(model, contents, batching::batch_entry(payloads), pos)
            == steps.last(),
{
    batching::batch_is_unpacked(payloads);
    each_in_turn::<A>(model, contents, payloads, pos, ReturnView::Success, steps);
}

/// The first payload of a batch that fails ends it: what the batch comes to is what
/// that payload does, and no later one is applied.
pub proof fn batch_stops_at_failure<A: Applicator>(
    model: A::Model,
    contents: Contents,
    payloads: Seq<Seq<u8>>,
    pos: LogPos,
    steps: Seq<Step<A::Model>>,
    k: int,
)
    requires
        payloads.len() <= usize::MAX,
        batching::batch_bytes(payloads).len() <= u64::MAX,
        in_turn::<A>(model, contents, payloads, pos, steps),
        0 <= k < steps.len(),
        steps[k].result is Err,
        forall|i: int| 0 <= i < k ==> (#[trigger] steps[i]).result is Ok,
    ensures
        BatchingApplicator::<A>::step(model, contents, batching::batch_entry(payloads), pos)
            == steps[k],
{
    batching::batch_is_unpacked(payloads);
    failure_in_turn::<A>(model, contents, payloads, pos, ReturnView::Success, steps, k);
}

/// A batch of a payload and others behind it comes to the step on that payload, and
/// then, where it succeeded, to the others from the state that it left.
pub proof fn batch_goes_on_behind_first<A: Applicator>(
    model: A::Model,
    contents: Contents,
    first: Seq<u8>,
    others: Seq<Seq<u8>>,
    pos: LogPos,
    last: ReturnView,
)
    ensures
        ({
            let s = A::step(
                model,
                contents,
                EntryView { headers: Seq::empty(), payload: first },
                pos,
            );
            let whole = batching::apply_each::<A>(model, contents, seq![first] + others, pos, last);
            &&& s.result is Err ==> whole == s
            &&& s.result is Ok ==> whole == batching::apply_each::<A>(
                s.model,
                s.contents,
                others,
                pos,
                s.result->Ok_0,
            )
        }),
        batching::apply_each::<A>(model, contents, Seq::empty(), pos, last) == (Step {
            model,
            contents,
            result: Ok(last),
        }),
{
    let all = seq![first] + others;
    assert(all[0] == first);
    assert(all.drop_first() == others);
    assert(EntryView::plain(first) == (EntryView { headers: Seq::empty(), payload: first }));
}

/// An entry without the batch header is handed on as it is. One whose header or
/// payload cannot be read, or whose header gives another number, changes nothing and
/// fails.
pub proof fn other_entries_pass<A: Applicator>(
    model: A::Model,
    contents: Contents,
    entry: EntryView,
    pos: LogPos,
)
    ensures
        ({
            let s = BatchingApplicator::<A>::step(model, contents, entry, pos);
            let inner = A::step(model, contents, entry, pos);
            let h = entry.header("batching"@);
            let list = codec::parse_list(entry.payload, |x: Seq<u8>| codec::parse_blob(x));
            let stated = vstd::bytes::spec_u64_from_le_bytes(h->0.take(8));
            &&& h is None ==> s == inner
            &&& h is Some && (h->0.len() < 8 || list is Err || (list is Ok && stated
                != list->Ok_0.0.len())) ==> s.result is Err && s.model == model && s.contents
                == contents
        }),
{
}

/// The entry that carries a batch has one header, which holds the number of payloads.
pub proof fn batch_entry_is_counted(payloads: Seq<Seq<u8>>)
    requires
        payloads.len() <= u64::MAX,
    ensures
        batching::batch_entry(payloads).headers.len() == 1,
        batching::batch_entry(payloads).header("batching"@) == Some(
            vstd::bytes::spec_u64_to_le_bytes(payloads.len() as u64),
        ),
{
    let plain = EntryView::plain(batching::batch_bytes(payloads));
    assert(plain.headers == Seq::<entry::HeaderView>::empty());
    entry::header_read_back(
        plain,
        batching::batching_header(),
        codec::u64_bytes(payloads.len() as u64),
        batching::batching_header(),
    );
}

/// A proposal joins what waits. All of it is flushed as soon as it makes up a full
/// batch, and not before. A sync, a timeout or the end flush what waits.
pub proof fn full_batches_are_flushed(
    waiting: Seq<Seq<u8>>,
    max_batch: nat,
    payload: Seq<u8>,
    event: EventView,
)
    ensures
        ({
            let (waits, batch) = batching::queued(
                waiting,
                max_batch,
                EventView::Propose(payload),
            );
            &&& waiting.len() + 1 >= max_batch ==> batch == waiting.push(payload) && waits
                == Seq::<Seq<u8>>::empty()
            &&& waiting.len() + 1 < max_batch ==> waits == waiting.push(payload) && batch
                == Seq::<Seq<u8>>::empty()
        }),
        !(event is Propose) ==> batching::queued(waiting, max_batch, event) == (
            Seq::<Seq<u8>>::empty(),
            waiting,
        ),
{
}

/// An event that flushes proposes one entry with all that is flushed to the engine
/// below, and one that flushes nothing proposes nothing. After the flush a sync asks
/// the engine below, and nothing else does.
pub proof fn events_reach_the_engine_below<E: Engine>(m: BatchModel<E::Model>, event: EventView)
    ensures
        ({
            let h = batching::handled::<E>(m, event);
            let batch = match event {
                EventView::Propose(payload) => if m.pending.len() + 1 >= m.max_batch {
                    m.pending.push(payload)
                } else {
                    Seq::empty()
                },
                _ => m.pending,
            };
            let (below, outcome) = E::propose_step(m.downstream, batching::batch_entry(batch));
            let after = if batch.len() > 0 {
                below
            } else {
                m.downstream
            };
            &&& h.batch is Some <==> batch.len() > 0
            &&& h.batch is Some ==> h.batch->0.payloads == batch && h.batch->0.outcome == outcome
            &&& event is Sync ==> h.model.downstream == E::sync_step(after).0 && h.synced == Some(
                E::sync_step(after).1,
            )
            &&& !(event is Sync) ==> h.model.downstream == after && h.synced is None
        }),
{
    if m.pending.len() == 0 {
        assert(m.pending == Seq::<Seq<u8>>::empty());
    }
}

/// A proposal that waits for its reply is flushed with all that waited, behind it and
/// in one entry, and gets what that entry comes to. Nothing waits afterwards. A sync
/// flushes what waits before it asks the engine below.
pub proof fn batching_engine_flushes<E: Engine>(m: BatchModel<E::Model>, entry: EntryView)
    ensures
        ({
            let (next, o) = BatchingEngine::<E>::propose_step(m, entry);
            let (below, outcome) = E::propose_step(
                m.downstream,
                batching::batch_entry(m.pending.push(entry.payload)),
            );
            &&& next.downstream == below
            &&& o == outcome
            &&& next.pending.len() == 0
            &&& next.max_batch == m.max_batch
        }),
        ({
            let (next, o) = BatchingEngine::<E>::sync_step(m);
            let after = if m.pending.len() > 0 {
                E::propose_step(m.downstream, batching::batch_entry(m.pending)).0
            } else {
                m.downstream
            };
            &&& next.downstream == E::sync_step(after).0
            &&& o == E::sync_step(after).1
            &&& next.pending.len() == 0
            &&& next.max_batch == m.max_batch
        }),
{
}

// Playing the log

/// `after` is what applying the entry at the cursor of `before`, at that position, leaves,
/// with this result. With the entry the next position is stored under the cursor's key.
pub open spec fn applied_at_cursor<A: Applicator>(
    before: BaseModel<A::Model>,
    after: BaseModel<A::Model>,
    result: ReturnView,
) -> bool {
    let pos = before.cursor;
    let s = A::step(before.app, before.contents, before.log.entries[pos], pos);
    &&& before.log.trim <= pos
    &&& before.log.entries.contains_key(pos)
    &&& s.result == Result::<ReturnView, ErrorView>::Ok(result)
    &&& after == (BaseModel {
        log: before.log,
        chained: before.chained,
        contents: s.contents.insert(
            vstd::utf8::encode_utf8("__cursor__"@),
            vstd::bytes::spec_u64_to_le_bytes((pos + 1) as u64),
        ),
        app: s.model,
        cursor: (pos + 1) as LogPos,
    })
}

/// The states through which an engine goes that applies the entries from its cursor to
/// `end` in order, each from the state that the one before it left.
pub open spec fn applied_in_turn<A: Applicator>(
    m: BaseModel<A::Model>,
    end: LogPos,
    states: Seq<BaseModel<A::Model>>,
    results: Seq<ReturnView>,
) -> bool {
    &&& m.cursor <= end
    &&& results.len() == end - m.cursor
    &&& states.len() == results.len() + 1
    &&& states[0] == m
    &&& forall|i: int, j: int|
        0 <= i < j < states.len() && j == i + 1 ==> applied_at_cursor::<A>(
            #[trigger] states[i],
            #[trigger] states[j],
            results[i],
        )
}

proof fn play_in_turn<A: Applicator>(
    m: BaseModel<A::Model>,
    end: LogPos,
    last: ReturnView,
    states: Seq<BaseModel<A::Model>>,
    results: Seq<ReturnView>,
)
    requires
        applied_in_turn::<A>(m, end, states, results),
    ensures
        base_engine::play::<A>(m, end, last) == (
            states.last(),
            Outcome::Done(
                if results.len() > 0 {
                    results.last()
                } else {
                    last
                },
            ),
        ),
    decreases results.len(),
{
    if results.len() > 0 {
        assert(applied_at_cursor::<A>(states[0], states[1], results[0]));
        let rest = states.drop_first();
        let later = results.drop_first();
        assert forall|i: int, j: int| 0 <= i < j < rest.len() && j == i + 1 implies
            applied_at_cursor::<A>(#[trigger] rest[i], #[trigger] rest[j], later[i]) by {
            assert(rest[i] == states[i + 1]);
            assert(rest[j] == states[j + 1]);
            assert(later[i] == results[i + 1]);
        }
        play_in_turn::<A>(states[1], end, results[0], rest, later);
    }
}

/// A sync applies every entry from the cursor to the tail, once and in order, however
/// many there are, and returns the tail.
pub proof fn sync_applies_every_entry<A: Applicator>(
    m: BaseModel<A::Model>,
    states: Seq<BaseModel<A::Model>>,
    results: Seq<ReturnView>,
)
    requires
        applied_in_turn::<A>(m, m.log.tail, states, results),
    ensures
        base_engine::base_sync::<A>(m) == (states.last(), Outcome::Done(m.log.tail)),
{
    play_in_turn::<A>(m, m.log.tail, ReturnView::Success, states, results);
}

/// A proposal appends its entry and applies every entry from the cursor up to it, once
/// and in order, however many there are. It returns what its own entry returned.
pub proof fn proposal_applies_every_entry<A: Applicator>(
    m: BaseModel<A::Model>,
    entry: EntryView,
    states: Seq<BaseModel<A::Model>>,
    results: Seq<ReturnView>,
)
    requires
        !m.log.sealed,
        m.cursor <= m.log.tail < u64::MAX,
        applied_in_turn::<A>(
            (BaseModel { log: m.log.appended(entry), ..m }),
            (m.log.tail + 1) as LogPos,
            states,
            results,
        ),
    ensures
        base_engine::base_propose::<A>(m, entry) == (
            states.last(),
            Outcome::Done(results.last()),
        ),
{
    play_in_turn::<A>(
        BaseModel { log: m.log.appended(entry), ..m },
        (m.log.tail + 1) as LogPos,
        ReturnView::Success,
        states,
        results,
    );
}

/// A proposal to a sealed log that does not go on by itself fails and changes nothing.
/// One to a sealed chain is appended where the chain goes on.
pub proof fn sealed_log_refuses_proposals<A: Applicator>(m: BaseModel<A::Model>, entry: EntryView)
    requires
        m.log.sealed,
    ensures
        !m.chained ==> base_engine::base_propose::<A>(m, entry) == (
            m,
            Outcome::<ReturnView>::Failed(ErrorView::Sealed(m.log.tail)),
        ),
        m.chained ==> base_engine::base_propose::<A>(m, entry) == base_engine::base_propose::<A>(
            BaseModel { log: m.log.reopened(), ..m },
            entry,
        ),
{
}

/// Where the next entry was trimmed, is missing or fails, playing stops: the store and
/// the cursor stay as they are, and the error is the one that says so.
pub proof fn play_stops_at_failure<A: Applicator>(
    m: BaseModel<A::Model>,
    end: LogPos,
    last: ReturnView,
)
    requires
        m.cursor < end,
    ensures
        ({
            let pos = m.cursor;
            let (next, o) = base_engine::play::<A>(m, end, last);
            let s = A::step(m.app, m.contents, m.log.entries[pos], pos);
            let there = pos >= m.log.trim && m.log.entries.contains_key(pos);
            &&& pos < m.log.trim ==> next == m && o == Outcome::<ReturnView>::Failed(
                loglet::refusal(m.chained, pos),
            )
            &&& pos >= m.log.trim && !m.log.entries.contains_key(pos) ==> next == m && o
                == Outcome::<ReturnView>::Failed(
                ErrorView::Internal(base_engine::missing_text(pos)),
            )
            &&& there && s.result is Err ==> next == (BaseModel { app: s.model, ..m }) && o
                == Outcome::<ReturnView>::Failed(s.result->Err_0)
            &&& there && s.result is Ok ==> (next, o) == base_engine::play::<A>(
                BaseModel {
                    app: s.model,
                    contents: s.contents.insert(
                        vstd::utf8::encode_utf8("__cursor__"@),
                        vstd::bytes::spec_u64_to_le_bytes((pos + 1) as u64),
                    ),
                    cursor: (pos + 1) as LogPos,
                    ..m
                },
                end,
                s.result->Ok_0,
            )
        }),
{
}

/// An engine starts at the position that its store holds, at the first where it holds
/// none, and fails where what it holds is no position.
pub proof fn engine_starts_at_stored_cursor(contents: Contents, pos: LogPos, bytes: Seq<u8>)
    ensures
        ({
            let key = vstd::utf8::encode_utf8("__cursor__"@);
            &&& !contents.contains_key(key) ==> base_engine::stored_cursor(contents) == Result::<
                LogPos,
                ErrorView,
            >::Ok(LOG_POS_BEGIN)
            &&& base_engine::stored_cursor(
                contents.insert(key, vstd::bytes::spec_u64_to_le_bytes(pos)),
            ) == Result::<LogPos, ErrorView>::Ok(pos)
            &&& bytes.len() != 8 ==> base_engine::stored_cursor(contents.insert(key, bytes))
                == Result::<LogPos, ErrorView>::Err(ErrorView::Store("invalid cursor bytes"@))
        }),
{
    vstd::bytes::lemma_auto_spec_u64_to_from_le_bytes();
}

// Views

/// An entry without an announcement is applied as it is, and no view changes. One with
/// a broken announcement changes nothing and fails. Any other announcement is recorded
/// as the view of the server that it names, and the entry is applied as it is.
pub proof fn views_follow_announcements<A: Applicator>(
    model: TrackModel<A::Model>,
    contents: Contents,
    entry: EntryView,
    pos: LogPos,
)
    ensures
        ({
            let s = ViewTrackingApplicator::<A>::step(model, contents, entry, pos);
            let inner = A::step(model.inner, contents, entry, pos);
            let h = entry.header("view_tracking"@);
            let broken = h is Some && h->0.len() < 16;
            &&& !broken ==> s.model.inner == inner.model && s.contents == inner.contents
                && s.result == inner.result
            &&& broken ==> s.model == model && s.contents == contents && s.result is Err
            &&& h is None ==> s.model.views == model.views
            &&& h is Some && !broken ==> s.model.views == model.views.insert(
                vstd::bytes::spec_u64_from_le_bytes(h->0.take(8)),
                vstd::bytes::spec_u64_from_le_bytes(h->0.subrange(8, 16)),
            )
        }),
{
}

/// A proposal carries the announcement of the server and of how far it has played the
/// log. The payload and the other headers are handed on as they are.
pub proof fn proposal_announces_cursor<E: ShowsViews>(
    m: TrackingEngineModel<E::Model>,
    entry: EntryView,
    other: Seq<char>,
) -> (sent: EntryView)
    requires
        entry::distinct(entry.headers),
        other != "view_tracking"@,
    ensures
        sent.payload == entry.payload,
        sent.header(other) == entry.header(other),
        sent.header("view_tracking"@) == Some(
            vstd::bytes::spec_u64_to_le_bytes(m.server_id) + vstd::bytes::spec_u64_to_le_bytes(
                E::played(m.inner),
            ),
        ),
        ({
            let (next, o) = ViewTrackingEngine::<E>::propose_step(m, entry);
            &&& next.inner == E::propose_step(m.inner, sent).0
            &&& next.server_id == m.server_id
            &&& o == E::propose_step(m.inner, sent).1
        }),
        ({
            let (next, o) = ViewTrackingEngine::<E>::sync_step(m);
            &&& next.inner == E::sync_step(m.inner).0
            &&& next.server_id == m.server_id
            &&& o == E::sync_step(m.inner).1
        }),
{
    let h = view_tracking::view_bytes(m.server_id, E::played(m.inner));
    entry::header_read_back(entry, view_tracking::view_tracking_header(), h, other);
    view_tracking::announced(entry, m.server_id, E::played(m.inner))
}

/// An announcement names the server that made it and the cursor that it announced.
pub proof fn announcement_is_read_back(server_id: ServerId, cursor: LogPos)
    ensures
        view_tracking::announced_server(view_tracking::view_bytes(server_id, cursor)) == server_id,
        view_tracking::announced_cursor(view_tracking::view_bytes(server_id, cursor)) == cursor,
        view_tracking::view_bytes(server_id, cursor).len() == 16,
{
    let h = view_tracking::view_bytes(server_id, cursor);
    codec::u64_round_trip(server_id, Seq::empty());
    codec::u64_round_trip(cursor, Seq::empty());
    vstd::bytes::lemma_auto_spec_u64_to_from_le_bytes();
    assert(h.take(8) == codec::u64_bytes(server_id));
    assert(h.subrange(8, 16) == codec::u64_bytes(cursor));
}

// Layers

/// An observer changes nothing of what the engine and the applicator that it wraps do.
pub proof fn observer_is_transparent<E: Engine, A: Applicator, M: MetricsReporter>(
    m: E::Model,
    app: A::Model,
    contents: Contents,
    entry: EntryView,
    pos: LogPos,
)
    ensures
        ObserverEngine::<E, M>::propose_step(m, entry) == E::propose_step(m, entry),
        ObserverEngine::<E, M>::sync_step(m) == E::sync_step(m),
        ObserverEngine::<E, M>::contents_of(m) == E::contents_of(m),
        ObserverApplicator::<A, M>::step(app, contents, entry, pos) == A::step(
            app,
            contents,
            entry,
            pos,
        ),
{
}

/// A stack without layers is the engine and the applicator that it was made of.
pub proof fn empty_stack_is_its_base<M: MiddleEngine>(base: M::Eng, app: M::App)
    ensures
        stack::engine_stack(Seq::<M>::empty(), base) == base,
        stack::applicator_stack(Seq::<M>::empty(), app) == app,
{
}

/// An engine is steady where what it is made of does not fail.
pub proof fn engines_are_as_steady_as_their_parts<
    L: Loglet,
    S: LocalStore,
    A: Applicator,
    E: Engine,
    V: ShowsViews,
    M: MetricsReporter,
>(
    base: BaseEngine<L, S, A>,
    batching: BatchingEngine<E>,
    observer: ObserverEngine<E, M>,
    tracking: ViewTrackingEngine<V>,
)
    ensures
        base.steady() <==> base.log_of().reliable() && base.store_of().reliable(),
        batching.steady() <==> batching.below().steady(),
        observer.steady() <==> observer.below().steady(),
        tracking.steady() <==> tracking.below().steady(),
{
}

/// The trim prefix is the least of all views: no view is smaller, and some server has it.
/// There is none exactly where there is no view.
pub proof fn trim_prefix_is_least(views: Views, least: Option<LogPos>, id: ServerId)
    requires
        view_tracking::is_least(views, least),
    ensures
        views.contains_key(id) ==> least is Some && least->0 <= views[id],
        least is Some ==> exists|k: ServerId| views.contains_key(k) && #[trigger] views[k]
            == least->0,
{
}

/// There is always an answer to what the least view is.
pub proof fn trim_prefix_exists(views: Views) -> (least: Option<LogPos>)
    requires
        views.dom().finite(),
    ensures
        view_tracking::is_least(views, least),
    decreases views.dom().len(),
{
    if views.dom().is_empty() {
        assert(views =~= Views::empty());
        None
    } else {
        let id = views.dom().choose();
        let others = views.remove(id);
        assert(others.dom() =~= views.dom().remove(id));
        let rest = trim_prefix_exists(others);
        assert(views.contains_key(id));
        if rest is Some && rest->0 <= views[id] {
            let k = choose|k: ServerId| others.contains_key(k) && #[trigger] others[k] == rest->0;
            assert(views.contains_key(k) && views[k] == rest->0);
            assert forall|k: ServerId| #[trigger] views.contains_key(k) implies rest->0
                <= views[k] by {
                if k != id {
                    assert(others.contains_key(k));
                }
            }
            rest
        } else {
            assert(views[id] == views[id]);
            assert forall|k: ServerId| #[trigger] views.contains_key(k) implies views[id]
                <= views[k] by {
                if k != id {
                    assert(others.contains_key(k));
                }
            }
            Some(views[id])
        }
    }
}

// Results

/// What an operation returned is the outcome that it is held to: success with the same
/// value, or failure with the same error.
pub proof fn results_are_the_outcomes(
    r: Result<ReturnValue, RelosError>,
    o: Outcome<ReturnView>,
    t: Result<LogPos, RelosError>,
    p: Outcome<LogPos>,
)
    ensures
        r is Ok ==> traits::returned(r) == Result::<ReturnView, ErrorView>::Ok(r->Ok_0@),
        r is Err ==> traits::returned(r) == Result::<ReturnView, ErrorView>::Err(r->Err_0@),
        traits::proposed(r, o) <==> match o {
            Outcome::Done(v) => traits::returned(r) == Result::<ReturnView, ErrorView>::Ok(v),
            Outcome::Failed(e) => traits::returned(r) == Result::<ReturnView, ErrorView>::Err(e),
        },
        traits::synced(t, p) && t is Ok ==> p == Outcome::Done(t->Ok_0),
        traits::synced(t, p) && t is Err ==> p == Outcome::<LogPos>::Failed(t->Err_0@),
{
}

/// Each payload of a batch gets one reply, and each reply is what the batch came to.
pub proof fn replies_are_the_outcome(
    replies: Seq<Result<ReturnValue, RelosError>>,
    batch: batching::Batch,
    i: int,
)
    ensures
        batching::answered(replies, Some(batch)) ==> {
            &&& replies.len() == batch.payloads.len()
            &&& 0 <= i < replies.len() ==> traits::proposed(replies[i], batch.outcome)
        },
        batching::answered(replies, None) ==> replies.len() == 0,
        batching::replied(replies, batch.payloads.len(), Some(batch.outcome)) ==> {
            &&& replies.len() == batch.payloads.len()
            &&& 0 <= i < replies.len() ==> traits::proposed(replies[i], batch.outcome)
        },
        batching::agree(replies) && 0 <= i < replies.len() ==> traits::returned(replies[i])
            == traits::returned(replies[0]),
        batching::all_succeed(replies) && 0 <= i < replies.len() ==> replies[i] is Ok,
        (forall|k: int| 0 <= k < replies.len() ==> (#[trigger] replies[k]) is Ok)
            ==> batching::all_succeed(replies),
{
}

/// An event went well where none of the replies to it, nor a sync, reports an error.
pub proof fn event_went_well(action: batching::BatchAction, kept: nat)
    requires
        kept <= action.replies@.len(),
    ensures
        batching::went_well(action, kept) <==> (forall|i: int|
            kept <= i < action.replies@.len() ==> (#[trigger] action.replies@[i]) is Ok) && (
        action.synced is Some ==> action.synced->0 is Ok),
{
    let later = action.replies@.skip(kept as int);
    if batching::all_succeed(later) {
        assert forall|i: int| kept <= i < action.replies@.len() implies (
        #[trigger] action.replies@[i]) is Ok by {
            assert(later[i - kept] == action.replies@[i]);
        }
    }
    if forall|i: int|
        kept <= i < action.replies@.len() ==> (#[trigger] action.replies@[i]) is Ok {
        assert forall|i: int| 0 <= i < later.len() implies (#[trigger] later[i]) is Ok by {
            assert(later[i] == action.replies@[i + kept]);
        }
    }
}

/// Where the log was played up to a cursor, the store holds what playing it up to there
/// leaves, without a failure.
pub proof fn store_holds_what_was_played<A: Applicator>(
    m: BaseModel<A::Model>,
    next: BaseModel<A::Model>,
)
    requires
        base_engine::played_up::<A>(m, next),
    ensures
        m.cursor <= next.cursor,
        base_engine::play::<A>(m, next.cursor, ReturnView::Success).1 is Done,
        next.contents == base_engine::play::<A>(m, next.cursor, ReturnView::Success).0.contents,
        next.cursor == base_engine::play::<A>(m, next.cursor, ReturnView::Success).0.cursor,
{
}

/// A missing entry and a batch of another length are named in the texts that say so.
pub proof fn failures_are_named(pos: LogPos, stated: nat, actual: nat)
    ensures
        base_engine::missing_text(pos) == "expected entry at position "@ + text::decimal_text(
            pos as nat,
        ) + " but got None"@,
        batching::count_text(stated, actual) == "batch metadata count "@ + text::decimal_text(
            stated,
        ) + " != actual payload count "@ + text::decimal_text(actual),
{
}

} // verus!

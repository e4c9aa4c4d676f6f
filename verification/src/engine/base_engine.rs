//! The bottom of the engine stack.

use vstd::prelude::*;
use vstd::string::StringExecFns;

use crate::base::codec;
use crate::base::entry::{Entry, EntryView};
use crate::base::error::{ErrorView, RelosError};
use crate::base::text;
use crate::base::types::{LogPos, LOG_POS_BEGIN};
use crate::engine::traits;
use crate::engine::traits::{Applicator, Engine, Outcome, ReturnValue, ReturnView};
use crate::log::loglet;
use crate::log::loglet::{LogView, Loglet};
use crate::store::sorted_map;
use crate::store::sorted_map::Contents;
use crate::store::traits::{LocalStore, ReadTransaction, WriteTransaction};

verus! {

/// Key used to persist the apply cursor position in the LocalStore.
pub open spec fn cursor_key() -> Seq<u8> {
    vstd::utf8::encode_utf8("__cursor__"@)
}

/// The cursor that a store holds: the next position to apply.
pub open spec fn stored_cursor(contents: Contents) -> Result<LogPos, ErrorView> {
    match sorted_map::value_at(contents, cursor_key()) {
        None => Ok(LOG_POS_BEGIN),
        Some(b) => if b.len() == 8 {
            Ok(vstd::bytes::spec_u64_from_le_bytes(b))
        } else {
            Err(ErrorView::Store("invalid cursor bytes"@))
        },
    }
}

/// The state of a [`BaseEngine`].
#[verifier::reject_recursive_types(M)]
pub struct BaseModel<M> {
    /// What the log holds.
    pub log: LogView,
    /// Whether the log goes on by itself after it was sealed.
    pub chained: bool,
    /// What the store holds.
    pub contents: Contents,
    /// What the applicator remembers.
    pub app: M,
    /// The next position to apply.
    pub cursor: LogPos,
}

/// What the engine persists with the entry at a position.
pub open spec fn with_cursor(contents: Contents, next: LogPos) -> Contents {
    contents.insert(cursor_key(), codec::u64_bytes(next))
}

/// The text that reports a position without an entry.
pub open spec fn missing_text(pos: LogPos) -> Seq<char> {
    "expected entry at position "@ + text::decimal_text(pos as nat) + " but got None"@
}

/// What applying the entry at the cursor changes and comes to.
pub open spec fn apply_next<A: Applicator>(m: BaseModel<A::Model>) -> (
    BaseModel<A::Model>,
    Outcome<ReturnView>,
) {
    let pos = m.cursor;
    if pos < m.log.trim {
        (m, Outcome::Failed(loglet::refusal(m.chained, pos)))
    } else {
        match m.log.entry(pos) {
            None => (m, Outcome::Failed(ErrorView::Internal(missing_text(pos)))),
            Some(entry) => {
                let s = A::step(m.app, m.contents, entry, pos);
                match s.result {
                    Err(e) => (BaseModel { app: s.model, ..m }, Outcome::Failed(e)),
                    Ok(v) => (
                        BaseModel {
                            app: s.model,
                            contents: with_cursor(s.contents, (pos + 1) as LogPos),
                            cursor: (pos + 1) as LogPos,
                            ..m
                        },
                        Outcome::Done(v),
                    ),
                }
            },
        }
    }
}

/// What playing the log forward to `end` changes and comes to: entries are
/// applied in order, and the first failure stops it. On success it comes to what
/// the last entry returned.
pub open spec fn play<A: Applicator>(
    m: BaseModel<A::Model>,
    end: LogPos,
    last: ReturnView,
) -> (BaseModel<A::Model>, Outcome<ReturnView>)
    decreases end - m.cursor,
{
    if m.cursor >= end {
        (m, Outcome::Done(last))
    } else {
        match apply_next::<A>(m) {
            (next, Outcome::Done(v)) => if next.cursor == m.cursor + 1 {
                play::<A>(next, end, v)
            } else {
                (next, Outcome::Done(v))
            },
            (next, o) => (next, o),
        }
    }
}

/// Playing the log forward from `m` gets to `next`.
pub open spec fn reached<A: Applicator>(m: BaseModel<A::Model>, next: BaseModel<A::Model>) -> bool {
    let (p, o) = play::<A>(m, next.cursor, ReturnView::Success);
    m.cursor <= next.cursor && o is Done && p == next
}

/// The cursor of `next` is one that is reached from `m`, and the store holds what
/// playing the log up to there leaves.
pub open spec fn played_up<A: Applicator>(
    m: BaseModel<A::Model>,
    next: BaseModel<A::Model>,
) -> bool {
    let (p, o) = play::<A>(m, next.cursor, ReturnView::Success);
    &&& m.cursor <= next.cursor
    &&& o is Done
    &&& p.cursor == next.cursor
    &&& p.contents == next.contents
}

/// What a proposal changes and comes to: the entry is appended, and the log is
/// played forward to it.
pub open spec fn base_propose<A: Applicator>(m: BaseModel<A::Model>, entry: EntryView) -> (
    BaseModel<A::Model>,
    Outcome<ReturnView>,
) {
    if m.log.sealed && !m.chained {
        (m, Outcome::Failed(ErrorView::Sealed(m.log.tail)))
    } else {
        let log = m.log.extended(entry);
        play::<A>(BaseModel { log, ..m }, (m.log.tail + 1) as LogPos, ReturnView::Success)
    }
}

/// What a sync changes and comes to: the log is played forward to its tail.
pub open spec fn base_sync<A: Applicator>(m: BaseModel<A::Model>) -> (
    BaseModel<A::Model>,
    Outcome<LogPos>,
) {
    match play::<A>(m, m.log.tail, ReturnView::Success) {
        (next, Outcome::Done(_)) => (next, Outcome::Done(m.log.tail)),
        (next, Outcome::Failed(e)) => (next, Outcome::Failed(e)),
    }
}

/// The BaseEngine — bottom of the engine stack.
///
/// Reads entries from the shared log and applies them, one after the other, to
/// the local store via an [`Applicator`].
pub struct BaseEngine<L: Loglet, S: LocalStore, A: Applicator> {
    loglet: L,
    store: S,
    applicator: A,
    cursor: LogPos,
}

impl<L: Loglet, S: LocalStore, A: Applicator> BaseEngine<L, S, A> {
    pub closed spec fn log_of(&self) -> L {
        self.loglet
    }

    pub closed spec fn store_of(&self) -> S {
        self.store
    }

    pub closed spec fn app_of(&self) -> A {
        self.applicator
    }

    /// The next position to apply.
    pub closed spec fn cursor_of(&self) -> LogPos {
        self.cursor
    }

    pub open spec fn state(&self) -> BaseModel<A::Model> {
        BaseModel {
            log: self.log_of().log(),
            chained: self.log_of().chained(),
            contents: self.store_of().contents(),
            app: self.app_of().model(),
            cursor: self.cursor_of(),
        }
    }

    /// Create a new BaseEngine.
    ///
    /// Reads the persisted cursor from `local_store`.
    pub fn new(loglet: L, local_store: S, applicator: A) -> (r: Result<Self, RelosError>)
        requires
            loglet.inv(),
        ensures
            local_store.reliable() ==> (r is Ok <==> stored_cursor(local_store.contents()) is Ok),
            local_store.reliable() && r is Err ==> r->Err_0@ == stored_cursor(
                local_store.contents(),
            )->Err_0,
            r is Ok ==> stored_cursor(local_store.contents()) is Ok && r->Ok_0.cursor_of()
                == stored_cursor(local_store.contents())->Ok_0 && r->Ok_0.log_of() == loglet
                && r->Ok_0.store_of() == local_store && r->Ok_0.app_of() == applicator,
    {
        // Read the persisted cursor (next position to apply).
        let key: &[u8] = "__cursor__".as_bytes();
        let txn = match local_store.begin_read_txn() {
            Ok(t) => t,
            Err(e) => return Err(e),
        };
        let held = match txn.get(key) {
            Ok(h) => h,
            Err(e) => return Err(e),
        };
        let cursor: LogPos = match held {
            Some(bytes) => {
                if bytes.len() != 8 {
                    return Err(RelosError::Store("invalid cursor bytes".to_owned()));
                }
                vstd::bytes::u64_from_le_bytes(bytes.as_slice())
            },
            None => LOG_POS_BEGIN,
        };
        Ok(BaseEngine { loglet, store: local_store, applicator, cursor })
    }

    /// The shared log.
    pub fn loglet(&self) -> (log: &L)
        ensures
            *log == self.log_of(),
    {
        &self.loglet
    }

    /// The shared log, to append to it past the engine.
    pub fn loglet_mut(&mut self) -> (log: &mut L)
        ensures
            *log == old(self).log_of(),
            final(self).log_of() == *final(log),
            final(self).store_of() == old(self).store_of(),
            final(self).app_of() == old(self).app_of(),
            final(self).cursor_of() == old(self).cursor_of(),
    {
        &mut self.loglet
    }

    /// The applicator.
    pub fn applicator(&self) -> (app: &A)
        ensures
            *app == self.app_of(),
    {
        &self.applicator
    }

    /// The next position to apply.
    pub fn cursor(&self) -> (pos: LogPos)
        ensures
            pos == self.cursor_of(),
    {
        self.cursor
    }

    /// Stops the engine and hands back its parts.
    pub fn into_parts(self) -> (parts: (L, S, A))
        ensures
            parts == (self.log_of(), self.store_of(), self.app_of()),
    {
        (self.loglet, self.store, self.applicator)
    }

    /// Apply the log entry at the cursor.
    ///
    /// Reads the entry, begins a write transaction, calls the applicator,
    /// persists the new cursor, and commits — all atomically.
    fn apply_one(&mut self) -> (r: Result<ReturnValue, RelosError>)
        requires
            old(self).inv(),
            old(self).cursor < u64::MAX,
        ensures
            final(self).inv(),
            final(self).loglet == old(self).loglet,
            r is Ok ==> final(self).cursor == old(self).cursor + 1,
            r is Err ==> final(self).cursor == old(self).cursor && final(self).store.contents()
                == old(self).store.contents(),
            old(self).steady() ==> final(self).steady(),
            old(self).steady() || old(self).loglet.coherent() && r is Ok ==> {
                &&& final(self).model() == apply_next::<A>(old(self).model()).0
                &&& traits::proposed(r, apply_next::<A>(old(self).model()).1)
            },
    {
        proof {
            self.loglet.others_are_coherent();
        }
        let pos: LogPos = self.cursor;
        let entry = match self.loglet.read(pos) {
            Ok(Some(e)) => e,
            Ok(None) => {
                return Err(
                    RelosError::Internal(
                        "expected entry at position ".to_owned().concat(
                            text::decimal(pos).as_str(),
                        ).concat(" but got None"),
                    ),
                );
            },
            Err(e) => return Err(e),
        };
        let mut txn = match self.store.begin_write_txn() {
            Ok(t) => t,
            Err(e) => return Err(e),
        };
        let rv = match self.applicator.apply(&mut txn, &entry, pos) {
            Ok(v) => v,
            Err(e) => return Err(e),
        };
        // Persist the cursor: next position to apply is pos + 1.
        let next_cursor: LogPos = pos + 1;
        let key: &[u8] = "__cursor__".as_bytes();
        let bytes = vstd::bytes::u64_to_le_bytes(next_cursor);
        match txn.put(key, bytes.as_slice()) {
            Ok(_) => {},
            Err(e) => return Err(e),
        }
        match self.store.commit(txn) {
            Ok(_) => {},
            Err(e) => return Err(e),
        }
        self.cursor = next_cursor;
        Ok(rv)
    }
}

impl<L: Loglet, S: LocalStore, A: Applicator> Engine for BaseEngine<L, S, A> {
    type Store = S;

    type Model = BaseModel<A::Model>;

    open spec fn inv(&self) -> bool {
        self.log_of().inv()
    }

    open spec fn model(&self) -> BaseModel<A::Model> {
        self.state()
    }

    open spec fn steady(&self) -> bool {
        self.log_of().reliable() && self.store_of().reliable()
    }

    open spec fn coherent(&self) -> bool {
        self.log_of().coherent()
    }

    open spec fn has_room(&self, n: nat) -> bool {
        self.log_of().has_room(n)
    }

    open spec fn propose_step(model: BaseModel<A::Model>, entry: EntryView) -> (
        BaseModel<A::Model>,
        Outcome<ReturnView>,
    ) {
        base_propose::<A>(model, entry)
    }

    open spec fn sync_step(model: BaseModel<A::Model>) -> (BaseModel<A::Model>, Outcome<LogPos>) {
        base_sync::<A>(model)
    }

    open spec fn contents_of(model: BaseModel<A::Model>) -> Contents {
        model.contents
    }

    proof fn fewer_fit(&self, n: nat, k: nat) {
        self.log_of().fewer_fit(n, k);
    }

    /// Append to the log, then play forward to the new position.
    ///
    /// Whatever it comes to, the cursor does not go back, and the store holds what
    /// playing the log up to the cursor leaves.
    fn propose(&mut self, entry: Entry) -> (r: Result<ReturnValue, RelosError>)
        ensures
            r is Ok && !old(self).log_of().log().sealed ==> final(self).cursor_of() > old(
                self,
            ).log_of().log().tail,
            old(self).log_of().log().sealed && !old(self).log_of().chained() ==> {
                &&& r is Err
                &&& final(self).cursor_of() == old(self).cursor_of()
                &&& final(self).store_of() == old(self).store_of()
                &&& final(self).app_of() == old(self).app_of()
            },
            final(self).cursor_of() >= old(self).cursor_of(),
            final(self).coherent() ==> played_up::<A>(
                (BaseModel { log: final(self).log_of().log(), ..old(self).model() }),
                final(self).model(),
            ),
    {
        proof {
            self.loglet.others_are_coherent();
        }
        // 1. Append to the shared log.
        let target_pos: LogPos = match self.loglet.append(&entry) {
            Ok(p) => p,
            Err(e) => return Err(e),
        };
        let ghost extended = self.loglet;
        let ghost end = (target_pos + 1) as LogPos;
        let ghost start = self.model();

        // 2. Play forward from cursor to target_pos (inclusive).
        let mut target_return = ReturnValue::Success;
        while self.cursor <= target_pos
            invariant
                self.inv(),
                target_pos < u64::MAX,
                end == target_pos + 1,
                self.loglet == extended,
                start == (BaseModel { log: extended.log(), ..old(self).model() }),
                old(self).cursor <= self.cursor,
                old(self).log_of().log().sealed ==> old(self).log_of().chained(),
                !old(self).log_of().log().sealed ==> target_pos == old(self).log_of().log().tail,
                old(self).steady() ==> self.steady() && old(self).coherent(),
                old(self).steady() || old(self).coherent() ==> forall|n: nat|
                    old(self).has_room(n + 1) ==> #[trigger] extended.has_room(n),
                old(self).coherent() ==> extended.coherent() && play::<A>(
                    self.model(),
                    end,
                    target_return@,
                ) == base_propose::<A>(old(self).model(), entry@),
                extended.coherent() ==> reached::<A>(start, self.model()),
            decreases end - self.cursor,
        {
            let ghost before = self.model();
            match self.apply_one() {
                Ok(rv) => {
                    proof {
                        if extended.coherent() {
                            one_more::<A>(start, before);
                        }
                    }
                    target_return = rv;
                },
                Err(e) => return Err(e),
            }
        }
        Ok(target_return)
    }

    /// Play forward to the current tail.
    ///
    /// Whatever it comes to, the cursor does not go back, and the store holds what
    /// playing the log up to the cursor leaves.
    fn sync(&mut self) -> (r: Result<LogPos, RelosError>)
        ensures
            r is Ok ==> r->Ok_0 == old(self).log_of().log().tail && final(self).cursor_of()
                >= r->Ok_0,
            final(self).log_of() == old(self).log_of(),
            final(self).cursor_of() >= old(self).cursor_of(),
            old(self).coherent() ==> played_up::<A>(old(self).model(), final(self).model()),
    {
        proof {
            self.loglet.others_are_coherent();
        }
        let tail: LogPos = match self.loglet.check_tail() {
            Ok(t) => t,
            Err(e) => return Err(e),
        };
        let ghost start = self.model();
        let ghost mut last = ReturnView::Success;

        // Play forward from cursor to tail - 1 (tail is the next-to-be-written position).
        while self.cursor < tail
            invariant
                self.inv(),
                start == old(self).model(),
                self.loglet == old(self).loglet,
                tail == start.log.tail,
                old(self).cursor <= self.cursor,
                old(self).steady() ==> self.steady() && old(self).coherent(),
                old(self).coherent() ==> play::<A>(self.model(), tail, last) == play::<A>(
                    start,
                    tail,
                    ReturnView::Success,
                ),
                old(self).coherent() ==> reached::<A>(start, self.model()),
            decreases tail - self.cursor,
        {
            let ghost before = self.model();
            match self.apply_one() {
                Ok(rv) => {
                    proof {
                        last = rv@;
                        if old(self).coherent() {
                            one_more::<A>(start, before);
                        }
                    }
                },
                Err(e) => return Err(e),
            }
        }
        Ok(tail)
    }

    fn local_store(&self) -> (store: &S) {
        &self.store
    }
}

// Laws

/// One entry more is played from where the log was played to.
proof fn one_more<A: Applicator>(m: BaseModel<A::Model>, mid: BaseModel<A::Model>)
    requires
        reached::<A>(m, mid),
        mid.cursor < u64::MAX,
        apply_next::<A>(mid).1 is Done,
    ensures
        reached::<A>(m, apply_next::<A>(mid).0),
{
    let end = (mid.cursor + 1) as LogPos;
    play_splits::<A>(m, mid.cursor, end, ReturnView::Success);
    reveal_with_fuel(play, 2);
}

/// Playing the log forward in two goes comes to the same as in one.
pub proof fn play_splits<A: Applicator>(
    m: BaseModel<A::Model>,
    mid: LogPos,
    end: LogPos,
    last: ReturnView,
)
    requires
        mid <= end,
    ensures
        play::<A>(m, mid, last).1 matches Outcome::Done(v) ==> play::<A>(m, end, last) == play::<A>(
            play::<A>(m, mid, last).0,
            end,
            v,
        ),
        !(play::<A>(m, mid, last).1 is Done) ==> play::<A>(m, end, last) == play::<A>(m, mid, last),
    decreases mid - m.cursor,
{
    if m.cursor < mid {
        let (next, o) = apply_next::<A>(m);
        if o is Done {
            play_splits::<A>(next, mid, end, o->Done_0);
        }
    }
}

/// Playing the log forward leaves the log as it is. Where it succeeds it ends at
/// the position it was asked for, or where it already was.
pub proof fn play_reaches<A: Applicator>(m: BaseModel<A::Model>, end: LogPos, last: ReturnView)
    ensures
        play::<A>(m, end, last).0.log == m.log,
        play::<A>(m, end, last).0.chained == m.chained,
        m.cursor <= play::<A>(m, end, last).0.cursor,
        m.cursor <= end ==> play::<A>(m, end, last).0.cursor <= end,
        play::<A>(m, end, last).1 is Done ==> play::<A>(m, end, last).0.cursor == if m.cursor
            < end {
            end
        } else {
            m.cursor
        },
    decreases end - m.cursor,
{
    if m.cursor < end {
        let (next, o) = apply_next::<A>(m);
        if o is Done {
            play_reaches::<A>(next, end, o->Done_0);
        }
    }
}

/// The store holds the engine's cursor.
pub open spec fn cursor_persisted<M>(m: BaseModel<M>) -> bool {
    stored_cursor(m.contents) == Result::<LogPos, ErrorView>::Ok(m.cursor)
}

proof fn play_persists<A: Applicator>(m: BaseModel<A::Model>, end: LogPos, last: ReturnView)
    requires
        cursor_persisted(m),
    ensures
        cursor_persisted(play::<A>(m, end, last).0),
    decreases end - m.cursor,
{
    if m.cursor < end {
        let (next, o) = apply_next::<A>(m);
        vstd::bytes::lemma_auto_spec_u64_to_from_le_bytes();
        if o is Done {
            play_persists::<A>(next, end, o->Done_0);
        }
    }
}

/// The cursor is committed with each entry: whatever a proposal or a sync comes
/// to, an engine that is started anew on the store goes on at the same position,
/// so that no entry is applied twice and none is left out.
pub proof fn recovery_is_exactly_once<A: Applicator>(m: BaseModel<A::Model>, entry: EntryView)
    requires
        cursor_persisted(m),
    ensures
        cursor_persisted(base_propose::<A>(m, entry).0),
        cursor_persisted(base_sync::<A>(m).0),
{
    if !(m.log.sealed && !m.chained) {
        let log = m.log.extended(entry);
        play_persists::<A>(
            BaseModel { log, ..m },
            (m.log.tail + 1) as LogPos,
            ReturnView::Success,
        );
    }
    play_persists::<A>(m, m.log.tail, ReturnView::Success);
}

/// A second sync finds nothing to apply: it changes nothing and returns the same
/// tail.
pub proof fn sync_is_idempotent<A: Applicator>(m: BaseModel<A::Model>)
    requires
        base_sync::<A>(m).1 is Done,
    ensures
        base_sync::<A>(m).1 == Outcome::Done(m.log.tail),
        base_sync::<A>(base_sync::<A>(m).0) == base_sync::<A>(m),
{
    play_reaches::<A>(m, m.log.tail, ReturnView::Success);
}

/// A replica that syncs before more entries arrive and again afterwards holds
/// what a replica holds that syncs once.
pub proof fn replicas_agree<A: Applicator>(m: BaseModel<A::Model>, longer: LogView)
    requires
        base_sync::<A>(m).1 is Done,
        m.log.tail <= longer.tail,
        longer.trim == m.log.trim,
        forall|p: LogPos| p < m.log.tail ==> #[trigger] longer.entry(p) == m.log.entry(p),
    ensures
        base_sync::<A>(BaseModel { log: longer, ..base_sync::<A>(m).0 }) == base_sync::<A>(
            BaseModel { log: longer, ..m },
        ),
{
    let n = BaseModel { log: longer, ..m };
    play_same_prefix::<A>(m, longer, m.log.tail, ReturnView::Success);
    play_splits::<A>(n, m.log.tail, longer.tail, ReturnView::Success);
    let v = play::<A>(m, m.log.tail, ReturnView::Success).1->Done_0;
    let mid = BaseModel { log: longer, ..base_sync::<A>(m).0 };
    play_last_is_free::<A>(mid, longer.tail, v, ReturnView::Success);
}

/// What is played before a position depends on the entries before it only.
pub proof fn play_same_prefix<A: Applicator>(
    m: BaseModel<A::Model>,
    longer: LogView,
    end: LogPos,
    last: ReturnView,
)
    requires
        end <= m.log.tail <= longer.tail,
        longer.trim == m.log.trim,
        forall|p: LogPos| p < m.log.tail ==> #[trigger] longer.entry(p) == m.log.entry(p),
    ensures
        play::<A>(BaseModel { log: longer, ..m }, end, last).1 == play::<A>(m, end, last).1,
        play::<A>(BaseModel { log: longer, ..m }, end, last).0 == (BaseModel {
            log: longer,
            ..play::<A>(m, end, last).0
        }),
    decreases end - m.cursor,
{
    if m.cursor < end {
        assert(longer.entry(m.cursor) == m.log.entry(m.cursor));
        let (next, o) = apply_next::<A>(m);
        if o is Done {
            play_same_prefix::<A>(next, longer, end, o->Done_0);
        }
    }
}

/// A trim at or before the cursor does not change what is played.
pub proof fn trim_below_cursor<A: Applicator>(
    m: BaseModel<A::Model>,
    pos: LogPos,
    end: LogPos,
    last: ReturnView,
)
    requires
        pos <= m.cursor,
    ensures
        play::<A>(BaseModel { log: m.log.trimmed(pos), ..m }, end, last).1 == play::<A>(
            m,
            end,
            last,
        ).1,
        play::<A>(BaseModel { log: m.log.trimmed(pos), ..m }, end, last).0 == (BaseModel {
            log: m.log.trimmed(pos),
            ..play::<A>(m, end, last).0
        }),
    decreases end - m.cursor,
{
    if m.cursor < end {
        assert(m.log.trimmed(pos).entry(m.cursor) == m.log.entry(m.cursor));
        let (next, o) = apply_next::<A>(m);
        if o is Done {
            trim_below_cursor::<A>(next, pos, end, o->Done_0);
        }
    }
}

/// What was returned before does not change what is played.
proof fn play_last_is_free<A: Applicator>(
    m: BaseModel<A::Model>,
    end: LogPos,
    a: ReturnView,
    b: ReturnView,
)
    ensures
        play::<A>(m, end, a).0 == play::<A>(m, end, b).0,
        m.cursor < end ==> play::<A>(m, end, a).1 == play::<A>(m, end, b).1,
{
}

/// A proposal that succeeds applies its entry last, at the old tail, and returns
/// what that returns.
pub proof fn proposal_is_applied_last<A: Applicator>(
    m: BaseModel<A::Model>,
    entry: EntryView,
) -> (mid: BaseModel<A::Model>)
    requires
        m.log.wf(),
        m.log.trim <= m.log.tail < u64::MAX,
        m.cursor <= m.log.tail,
        base_propose::<A>(m, entry).1 is Done,
    ensures
        ({
            let (next, o) = base_propose::<A>(m, entry);
            let s = A::step(mid.app, mid.contents, entry, m.log.tail);
            &&& mid.cursor == m.log.tail
            &&& o == Outcome::Done(s.result->Ok_0)
            &&& next.app == s.model
            &&& next.contents == with_cursor(s.contents, (m.log.tail + 1) as LogPos)
        }),
{
    let log = m.log.extended(entry);
    let start = BaseModel { log, ..m };
    let tail = m.log.tail;
    let end = (tail + 1) as LogPos;
    play_splits::<A>(start, tail, end, ReturnView::Success);
    play_reaches::<A>(start, tail, ReturnView::Success);
    let (mid, first) = play::<A>(start, tail, ReturnView::Success);
    reveal_with_fuel(play, 2);
    assert(log.entry(tail) == Some(entry));
    mid
}

/// A cursor never goes back, whatever a proposal or a sync comes to.
pub proof fn cursor_never_goes_back<A: Applicator>(m: BaseModel<A::Model>, entry: EntryView)
    ensures
        m.cursor <= base_propose::<A>(m, entry).0.cursor,
        m.cursor <= base_sync::<A>(m).0.cursor,
{
    if !(m.log.sealed && !m.chained) {
        let log = m.log.extended(entry);
        play_reaches::<A>(
            BaseModel { log, ..m },
            (m.log.tail + 1) as LogPos,
            ReturnView::Success,
        );
    }
    play_reaches::<A>(m, m.log.tail, ReturnView::Success);
}

/// An engine on a log without a gap, of which nothing behind its cursor was trimmed,
/// catches up: a sync fails only where the applicator does.
pub proof fn sync_reaches_tail<A: Applicator>(m: BaseModel<A::Model>)
    requires
        m.log.dense(),
        m.log.trim <= m.cursor <= m.log.tail,
        forall|app: A::Model, contents: Contents, entry: EntryView, pos: LogPos|
            (#[trigger] A::step(app, contents, entry, pos)).result is Ok,
    ensures
        base_sync::<A>(m).1 == Outcome::Done(m.log.tail),
        base_sync::<A>(m).0.cursor == m.log.tail,
{
    play_finds_entries::<A>(m, m.log.tail, ReturnView::Success);
    play_reaches::<A>(m, m.log.tail, ReturnView::Success);
}

proof fn play_finds_entries<A: Applicator>(m: BaseModel<A::Model>, end: LogPos, last: ReturnView)
    requires
        m.log.dense(),
        m.log.trim <= m.cursor,
        end <= m.log.tail,
        forall|app: A::Model, contents: Contents, entry: EntryView, pos: LogPos|
            (#[trigger] A::step(app, contents, entry, pos)).result is Ok,
    ensures
        play::<A>(m, end, last).1 is Done,
    decreases end - m.cursor,
{
    if m.cursor < end {
        assert(m.log.entries.contains_key(m.cursor));
        let (next, o) = apply_next::<A>(m);
        assert(o is Done);
        play_finds_entries::<A>(next, end, o->Done_0);
    }
}

/// A proposal to an engine that has applied the whole open log applies the
/// proposed entry and nothing else, and returns what applying it returns.
pub proof fn propose_applies_entry<A: Applicator>(m: BaseModel<A::Model>, entry: EntryView)
    requires
        !m.log.sealed,
        m.log.wf(),
        m.log.trim <= m.log.tail,
        m.log.tail < u64::MAX,
        m.cursor == m.log.tail,
    ensures
        ({
            let s = A::step(m.app, m.contents, entry, m.cursor);
            let next = (m.cursor + 1) as LogPos;
            &&& s.result is Err ==> base_propose::<A>(m, entry) == (
                BaseModel { log: m.log.appended(entry), app: s.model, ..m },
                Outcome::<ReturnView>::Failed(s.result->Err_0),
            )
            &&& s.result is Ok ==> base_propose::<A>(m, entry) == (
                BaseModel {
                    log: m.log.appended(entry),
                    app: s.model,
                    contents: with_cursor(s.contents, next),
                    cursor: next,
                    ..m
                },
                Outcome::Done(s.result->Ok_0),
            )
        }),
{
    reveal_with_fuel(play, 2);
}

} // verus!

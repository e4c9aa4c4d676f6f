//! Tracking how far each server has played the log.

use std::collections::BTreeMap;

use vstd::prelude::*;

use crate::base::codec;
use crate::base::entry;
use crate::base::entry::{Entry, EntryView};
use crate::base::error::{ErrorView, RelosError};
use crate::base::types::{LogPos, ServerId};
use crate::engine::base_engine;
use crate::engine::base_engine::{BaseEngine, BaseModel};
use crate::engine::batching::{BatchModel, BatchingApplicator, BatchingEngine};
use crate::engine::traits::{Applicator, Engine, Outcome, ReturnValue, ReturnView, Step};
use crate::log::loglet::Loglet;
use crate::store::sorted_map::Contents;
use crate::store::traits::{LocalStore, WriteTransaction};

verus! {

broadcast use vstd::std_specs::btree::group_btree_axioms;

/// Header key used by the view-tracking engine.
pub open spec fn view_tracking_header() -> Seq<char> {
    "view_tracking"@
}

/// The header with which a server announces itself and its cursor.
pub open spec fn view_bytes(server_id: ServerId, cursor: LogPos) -> Seq<u8> {
    codec::u64_bytes(server_id) + codec::u64_bytes(cursor)
}

/// The server that a header announces.
pub open spec fn announced_server(h: Seq<u8>) -> ServerId {
    vstd::bytes::spec_u64_from_le_bytes(h.take(8))
}

/// The cursor that a header announces.
pub open spec fn announced_cursor(h: Seq<u8>) -> LogPos {
    vstd::bytes::spec_u64_from_le_bytes(h.subrange(8, 16))
}

/// The views of the servers: for each the cursor that it announced last.
pub type Views = Map<ServerId, LogPos>;

/// The least cursor in the views.
pub open spec fn is_least(views: Views, least: Option<LogPos>) -> bool {
    match least {
        None => views == Views::empty(),
        Some(p) => {
            &&& exists|id: ServerId| views.contains_key(id) && #[trigger] views[id] == p
            &&& forall|id: ServerId| #[trigger] views.contains_key(id) ==> p <= views[id]
        },
    }
}

/// An applicator that knows the views of the servers.
pub trait TracksViews: Applicator {
    /// The views, as far as the applicator remembers them.
    spec fn views_in(model: Self::Model) -> Views;

    /// The views.
    fn views(&self) -> (views: &BTreeMap<ServerId, LogPos>)
        ensures
            views@ == Self::views_in(self.model()),
    ;
}

/// An engine whose applicator knows the views of the servers.
pub trait ShowsViews: Engine {
    /// How far the log is played: the next position to apply.
    spec fn played(model: Self::Model) -> LogPos;

    /// How far the log is played: the next position to apply.
    fn played_to(&self) -> (cursor: LogPos)
        requires
            self.inv(),
        ensures
            cursor == Self::played(self.model()),
    ;

    /// The views, as far as the engine's applicator remembers them.
    spec fn views_shown(model: Self::Model) -> Views;

    /// The views.
    fn shown_views(&self) -> (views: &BTreeMap<ServerId, LogPos>)
        requires
            self.inv(),
        ensures
            views@ == Self::views_shown(self.model()),
    ;
}

/// The least cursor in the views.
fn least_view(views: &BTreeMap<ServerId, LogPos>) -> (r: Option<LogPos>)
    ensures
        is_least(views@, r),
{
    let mut least: Option<LogPos> = None;
    let ghost all: Seq<ServerId> = vstd::std_specs::iter::IteratorSpec::remaining(
        &views.keys(),
    ).unref();
    let ghost mut seen: Seq<ServerId> = Seq::empty();
    for key in iter: views.keys()
        invariant
            all == iter.seq().unref(),
            all.to_set() == views@.dom(),
            seen == all.take(iter.index() as int),
            forall|i: int| 0 <= i < seen.len() ==> views@.contains_key(#[trigger] seen[i]),
            least is None <==> seen.len() == 0,
            least is Some ==> exists|i: int|
                0 <= i < seen.len() && views@[#[trigger] seen[i]] == least->0,
            least is Some ==> forall|i: int|
                0 <= i < seen.len() ==> least->0 <= views@[#[trigger] seen[i]],
    {
        let ghost earlier = seen;
        proof {
            assert(all[iter.index() as int] == *key);
            assert(all.to_set().contains(*key)) by {
                assert(all.contains(*key));
            }
            seen = seen.push(*key);
            assert(seen == all.take(iter.index() + 1));
        }
        match views.get(key) {
            Some(p) => {
                let pos: LogPos = *p;
                let ghost before = least;
                least = match least {
                    Some(q) => if q <= pos {
                        Some(q)
                    } else {
                        Some(pos)
                    },
                    None => Some(pos),
                };
                proof {
                    assert(seen[earlier.len() as int] == *key);
                    if before is Some && before->0 <= pos {
                        let i = choose|i: int|
                            0 <= i < earlier.len() && views@[#[trigger] earlier[i]] == before->0;
                        assert(seen[i] == earlier[i]);
                    }
                    assert forall|i: int| 0 <= i < seen.len() implies least->0
                        <= views@[#[trigger] seen[i]] by {
                        if i < earlier.len() {
                            assert(seen[i] == earlier[i]);
                        }
                    }
                }
            },
            None => {},
        }
    }
    proof {
        assert(seen == all);
        if least is Some {
            let i = choose|i: int| 0 <= i < seen.len() && views@[#[trigger] seen[i]] == least->0;
            assert(views@.contains_key(seen[i]));
            assert forall|id: ServerId| #[trigger] views@.contains_key(id) implies least->0
                <= views@[id] by {
                assert(all.to_set().contains(id));
                let j = choose|j: int| 0 <= j < all.len() && all[j] == id;
                assert(seen[j] == id);
            }
        } else {
            assert forall|id: ServerId| !views@.contains_key(id) by {
                if views@.contains_key(id) {
                    assert(all.to_set().contains(id));
                }
            }
            assert(views@ =~= Views::empty());
        }
    }
    least
}

/// The state of a [`ViewTrackingApplicator`].
#[verifier::reject_recursive_types(M)]
pub struct TrackModel<M> {
    pub views: Views,
    pub inner: M,
}

/// What applying an entry changes and returns: the cursor that a server announced
/// with the entry becomes that server's view, and the entry is handed on.
pub open spec fn tracked_step<A: Applicator>(
    model: TrackModel<A::Model>,
    contents: Contents,
    entry: EntryView,
    pos: LogPos,
) -> Step<TrackModel<A::Model>> {
    match entry.header(view_tracking_header()) {
        None => {
            let s = A::step(model.inner, contents, entry, pos);
            Step {
                model: TrackModel { inner: s.model, ..model },
                contents: s.contents,
                result: s.result,
            }
        },
        Some(h) => if h.len() < 16 {
            Step {
                model,
                contents,
                result: Err(ErrorView::Serialization(codec::u64_pair_failure(h))),
            }
        } else {
            let s = A::step(model.inner, contents, entry, pos);
            Step {
                model: TrackModel {
                    views: model.views.insert(announced_server(h), announced_cursor(h)),
                    inner: s.model,
                },
                contents: s.contents,
                result: s.result,
            }
        },
    }
}

/// ViewTrackingApplicator — extracts view-tracking headers on apply.
///
/// Wraps an upstream [`Applicator`]. On each entry that contains a
/// `"view_tracking"` header, it records the announced cursor in the view map before
/// delegating to the inner applicator.
pub struct ViewTrackingApplicator<A: Applicator> {
    inner: A,
    views: BTreeMap<ServerId, LogPos>,
}

impl<A: Applicator> ViewTrackingApplicator<A> {
    pub closed spec fn inner_of(&self) -> A {
        self.inner
    }

    pub closed spec fn recorded(&self) -> Views {
        self.views@
    }

    /// An applicator that has recorded no view.
    pub fn new(inner: A) -> (app: Self)
        ensures
            app.inner_of() == inner,
            app.recorded() == Views::empty(),
    {
        ViewTrackingApplicator { inner, views: BTreeMap::new() }
    }

    /// An applicator that starts with these views.
    pub fn with_views(inner: A, views: BTreeMap<ServerId, LogPos>) -> (app: Self)
        ensures
            app.inner_of() == inner,
            app.recorded() == views@,
    {
        ViewTrackingApplicator { inner, views }
    }

    /// The wrapped applicator.
    pub fn inner(&self) -> (app: &A)
        ensures
            *app == self.inner_of(),
    {
        &self.inner
    }
}

impl<A: Applicator> Applicator for ViewTrackingApplicator<A> {
    type Model = TrackModel<A::Model>;

    open spec fn model(&self) -> TrackModel<A::Model> {
        TrackModel { views: self.recorded(), inner: self.inner_of().model() }
    }

    open spec fn step(
        model: TrackModel<A::Model>,
        contents: Contents,
        entry: EntryView,
        pos: LogPos,
    ) -> Step<TrackModel<A::Model>> {
        tracked_step::<A>(model, contents, entry, pos)
    }

    fn apply<T: WriteTransaction>(&mut self, txn: &mut T, entry: &Entry, pos: LogPos) -> (r: Result<
        ReturnValue,
        RelosError,
    >)
        ensures
            match entry@.header(view_tracking_header()) {
                None => final(self).recorded() == old(self).recorded(),
                Some(h) => if h.len() < 16 {
                    &&& *final(self) == *old(self)
                    &&& *final(txn) == *old(txn)
                    &&& r is Err
                    &&& r->Err_0@ == ErrorView::Serialization(codec::u64_pair_failure(h))
                } else {
                    final(self).recorded() == old(self).recorded().insert(
                        announced_server(h),
                        announced_cursor(h),
                    )
                },
            },
    {
        // Extract view-tracking header if present.
        match entry.get_header("view_tracking") {
            Some(header_bytes) => {
                let (server_id, cursor) = match codec::decode_u64_pair(header_bytes) {
                    Ok(p) => p,
                    Err(e) => return Err(RelosError::Serialization(e)),
                };
                // Update the view map.
                self.views.insert(server_id, cursor);
            },
            None => {},
        }
        // Delegate to the inner applicator.
        self.inner.apply(txn, entry, pos)
    }
}

impl<A: Applicator> TracksViews for ViewTrackingApplicator<A> {
    open spec fn views_in(model: TrackModel<A::Model>) -> Views {
        model.views
    }

    fn views(&self) -> (views: &BTreeMap<ServerId, LogPos>) {
        &self.views
    }
}

impl<A: TracksViews> TracksViews for BatchingApplicator<A> {
    open spec fn views_in(model: A::Model) -> Views {
        A::views_in(model)
    }

    fn views(&self) -> (views: &BTreeMap<ServerId, LogPos>) {
        self.inner().views()
    }
}

impl<L: Loglet, S: LocalStore, A: TracksViews> ShowsViews for BaseEngine<L, S, A> {
    open spec fn played(model: BaseModel<A::Model>) -> LogPos {
        model.cursor
    }

    fn played_to(&self) -> (cursor: LogPos) {
        self.cursor()
    }

    open spec fn views_shown(model: BaseModel<A::Model>) -> Views {
        A::views_in(model.app)
    }

    fn shown_views(&self) -> (views: &BTreeMap<ServerId, LogPos>) {
        self.applicator().views()
    }
}

impl<E: ShowsViews> ShowsViews for BatchingEngine<E> {
    open spec fn played(model: BatchModel<E::Model>) -> LogPos {
        E::played(model.downstream)
    }

    fn played_to(&self) -> (cursor: LogPos) {
        self.downstream().played_to()
    }

    open spec fn views_shown(model: BatchModel<E::Model>) -> Views {
        E::views_shown(model.downstream)
    }

    fn shown_views(&self) -> (views: &BTreeMap<ServerId, LogPos>) {
        self.downstream().shown_views()
    }
}

/// The state of a [`ViewTrackingEngine`].
#[verifier::reject_recursive_types(M)]
pub struct TrackingEngineModel<M> {
    pub inner: M,
    pub server_id: ServerId,
}

/// The entry with the server's announcement.
pub open spec fn announced(entry: EntryView, server_id: ServerId, cursor: LogPos) -> EntryView {
    entry.with_header(view_tracking_header(), view_bytes(server_id, cursor))
}

/// ViewTrackingEngine — injects local playback position into proposed entries.
///
/// Each server piggybacks its playback cursor onto every proposed entry. The
/// corresponding [`ViewTrackingApplicator`], below in the stack, extracts these
/// cursors during apply and maintains the map of server views, enabling safe prefix
/// trimming of the shared log.
pub struct ViewTrackingEngine<E: ShowsViews> {
    inner: E,
    server_id: ServerId,
}

impl<E: ShowsViews> ViewTrackingEngine<E> {
    pub closed spec fn below(&self) -> E {
        self.inner
    }

    pub closed spec fn id(&self) -> ServerId {
        self.server_id
    }

    /// Create a new ViewTrackingEngine wrapping the given downstream engine.
    pub fn new(inner: E, server_id: ServerId) -> (engine: Self)
        ensures
            engine.below() == inner,
            engine.id() == server_id,
    {
        ViewTrackingEngine { inner, server_id }
    }

    /// The engine below.
    pub fn inner(&self) -> (engine: &E)
        ensures
            *engine == self.below(),
    {
        &self.inner
    }

    /// Get the current safe trim prefix — the minimum cursor across all known servers.
    ///
    /// Returns `None` if no views have been recorded yet.
    pub fn trim_prefix(&self) -> (r: Option<LogPos>)
        requires
            self.inv(),
        ensures
            is_least(E::views_shown(self.below().model()), r),
    {
        least_view(self.inner.shown_views())
    }
}

impl<E: ShowsViews> Engine for ViewTrackingEngine<E> {
    type Store = E::Store;

    type Model = TrackingEngineModel<E::Model>;

    open spec fn inv(&self) -> bool {
        self.below().inv()
    }

    open spec fn model(&self) -> TrackingEngineModel<E::Model> {
        TrackingEngineModel { inner: self.below().model(), server_id: self.id() }
    }

    open spec fn steady(&self) -> bool {
        self.below().steady()
    }

    open spec fn coherent(&self) -> bool {
        self.below().coherent()
    }

    open spec fn has_room(&self, n: nat) -> bool {
        self.below().has_room(n)
    }

    open spec fn propose_step(model: TrackingEngineModel<E::Model>, entry: EntryView) -> (
        TrackingEngineModel<E::Model>,
        Outcome<ReturnView>,
    ) {
        let (inner, o) = E::propose_step(
            model.inner,
            announced(entry, model.server_id, E::played(model.inner)),
        );
        (TrackingEngineModel { inner, ..model }, o)
    }

    open spec fn sync_step(model: TrackingEngineModel<E::Model>) -> (
        TrackingEngineModel<E::Model>,
        Outcome<LogPos>,
    ) {
        let (inner, o) = E::sync_step(model.inner);
        (TrackingEngineModel { inner, ..model }, o)
    }

    open spec fn contents_of(model: TrackingEngineModel<E::Model>) -> Contents {
        E::contents_of(model.inner)
    }

    proof fn fewer_fit(&self, n: nat, k: nat) {
        self.below().fewer_fit(n, k);
    }

    fn propose(&mut self, entry: Entry) -> (r: Result<ReturnValue, RelosError>) {
        // How far this server has played the log.
        let cursor: LogPos = self.inner.played_to();
        let header_bytes = match codec::encode_u64_pair(self.server_id, cursor) {
            Ok(b) => b,
            Err(e) => return Err(RelosError::Serialization(e)),
        };
        let entry = entry.with_header("view_tracking", header_bytes);
        self.inner.propose(entry)
    }

    fn sync(&mut self) -> (r: Result<LogPos, RelosError>) {
        self.inner.sync()
    }

    fn local_store(&self) -> (store: &E::Store) {
        self.inner.local_store()
    }
}

impl<E: ShowsViews> ShowsViews for ViewTrackingEngine<E> {
    open spec fn played(model: TrackingEngineModel<E::Model>) -> LogPos {
        E::played(model.inner)
    }

    fn played_to(&self) -> (cursor: LogPos) {
        self.inner.played_to()
    }

    open spec fn views_shown(model: TrackingEngineModel<E::Model>) -> Views {
        E::views_shown(model.inner)
    }

    fn shown_views(&self) -> (views: &BTreeMap<ServerId, LogPos>) {
        self.inner.shown_views()
    }
}

// Laws

/// Applying an entry records the cursor that its server announced as the server's
/// view, leaves the other views, and applies the entry as it is.
pub proof fn announcement_is_recorded<A: Applicator>(
    model: TrackModel<A::Model>,
    contents: Contents,
    entry: EntryView,
    server_id: ServerId,
    cursor: LogPos,
    pos: LogPos,
)
    requires
        entry::distinct(entry.headers),
    ensures
        ({
            let e = announced(entry, server_id, cursor);
            let s = tracked_step::<A>(model, contents, e, pos);
            let inner = A::step(model.inner, contents, e, pos);
            &&& s.model.views == model.views.insert(server_id, cursor)
            &&& s.model.inner == inner.model
            &&& s.contents == inner.contents
            &&& s.result == inner.result
        }),
{
    let h = view_bytes(server_id, cursor);
    entry::header_read_back(entry, view_tracking_header(), h, view_tracking_header());
    codec::u64_round_trip(server_id, Seq::empty());
    codec::u64_round_trip(cursor, Seq::empty());
    vstd::bytes::lemma_auto_spec_u64_to_from_le_bytes();
    assert(h.take(8) == codec::u64_bytes(server_id));
    assert(h.subrange(8, 16) == codec::u64_bytes(cursor));
}

/// What a server announces it has reached, before and after its proposal.
pub proof fn announced_cursor_is_reached<A: TracksViews, L: Loglet, S: LocalStore>(
    m: TrackingEngineModel<BaseModel<A::Model>>,
    entry: EntryView,
)
    requires
        entry::distinct(entry.headers),
    ensures
        ({
            let sent = announced(entry, m.server_id, m.inner.cursor);
            let next = ViewTrackingEngine::<BaseEngine<L, S, A>>::propose_step(m, entry).0;
            &&& next.inner == base_engine::base_propose::<A>(m.inner, sent).0
            &&& sent.header(view_tracking_header()) == Some(
                view_bytes(m.server_id, m.inner.cursor),
            )
            &&& m.inner.cursor <= next.inner.cursor
        }),
{
    let sent = announced(entry, m.server_id, m.inner.cursor);
    entry::header_read_back(
        entry,
        view_tracking_header(),
        view_bytes(m.server_id, m.inner.cursor),
        view_tracking_header(),
    );
    base_engine::cursor_never_goes_back::<A>(m.inner, sent);
}

/// The trim prefix is safe: a server that has played the log as far as it
/// announced, or farther, goes on after a trim as it would have without it.
pub proof fn trim_prefix_is_safe<A: Applicator>(
    views: Views,
    prefix: LogPos,
    server_id: ServerId,
    m: BaseModel<A::Model>,
)
    requires
        is_least(views, Some(prefix)),
        views.contains_key(server_id),
        views[server_id] <= m.cursor,
    ensures
        ({
            let trimmed = BaseModel { log: m.log.trimmed(prefix), ..m };
            let (kept, o) = base_engine::base_sync::<A>(m);
            base_engine::base_sync::<A>(trimmed) == (BaseModel { log: trimmed.log, ..kept }, o)
        }),
{
    base_engine::trim_below_cursor::<A>(m, prefix, m.log.tail, ReturnView::Success);
}

/// Two answers to what the least view is are the same.
pub proof fn least_is_unique(views: Views, a: Option<LogPos>, b: Option<LogPos>)
    requires
        is_least(views, a),
        is_least(views, b),
    ensures
        a == b,
{
    if a is Some {
        let i = choose|id: ServerId| views.contains_key(id) && #[trigger] views[id] == a->0;
        assert(views.contains_key(i));
    }
    if b is Some {
        let j = choose|id: ServerId| views.contains_key(id) && #[trigger] views[id] == b->0;
        assert(views.contains_key(j));
    }
}

} // verus!

//! When a virtual log is one log: the states in which its chain of loglets shows
//! the behaviour of a single loglet, and the proof that every operation keeps
//! them.

use vstd::prelude::*;

use crate::base::entry::EntryView;
use crate::base::error::ErrorView;
use crate::base::types::{LogPos, LOG_POS_BEGIN};
use crate::log::chain;
use crate::log::chain::{ChainView, SegmentView};
use crate::log::loglet;
use crate::log::loglet::LogView;
use crate::log::virtual_view;
use crate::log::virtual_view::VirtualView;

verus! {

/// The segments of the chain follow one another, no identifier occurs twice, and
/// the identifiers yet to be generated are unused.
pub open spec fn startable(chain: ChainView) -> bool {
    &&& chain.contiguous()
    &&& chain.segments.last().start < u64::MAX
    &&& forall|i: int, j: int|
        0 <= i < j < chain.segments.len() ==> (#[trigger] chain.segments[i]).id != (
        #[trigger] chain.segments[j]).id
    &&& forall|i: int, k: nat|
        0 <= i < chain.segments.len() <= k ==> (#[trigger] chain.segments[i]).id
            != #[trigger] virtual_view::generated_id(k)
}

/// A log can start on a chain of one segment, unless its identifier is one that a
/// later segment gets.
pub proof fn initial_startable(id: Seq<char>)
    requires
        forall|k: nat| 1 <= k ==> id != #[trigger] virtual_view::generated_id(k),
    ensures
        startable(ChainView::initial(id)),
{
}

impl VirtualView {
    /// The loglet that holds a position trimmed it.
    pub open spec fn trimmed_at(self, pos: LogPos) -> bool {
        let s = self.chain.find(pos)->0;
        virtual_view::local(s.start, pos) < self.loglets[s.id].trim
    }

    /// The loglet that holds a position has an entry there.
    pub open spec fn readable_at(self, pos: LogPos) -> bool {
        let s = self.chain.find(pos)->0;
        self.loglets[s.id].entries.contains_key(virtual_view::local(s.start, pos))
    }

    /// The entry that the loglet that holds a position has there.
    pub open spec fn entry_at(self, pos: LogPos) -> EntryView {
        let s = self.chain.find(pos)->0;
        self.loglets[s.id].entries[virtual_view::local(s.start, pos)]
    }

    /// What was trimmed are the positions before `g`.
    pub open spec fn trim_is(self, g: LogPos) -> bool {
        &&& LOG_POS_BEGIN <= g
        &&& forall|p: LogPos|
            LOG_POS_BEGIN <= p ==> (#[trigger] self.trimmed_at(p) <==> p < g)
    }

    /// The segments follow one another and have each a loglet of its own, what
    /// was trimmed is a prefix, the register holds this chain, and the
    /// identifiers yet to be generated are unused.
    pub open spec fn coherent(self) -> bool {
        &&& self.chain.contiguous()
        &&& self.complete()
        &&& self.version == self.meta_version
        &&& self.chain == self.meta_chain
        &&& forall|i: int, j: int|
            0 <= i < j < self.chain.segments.len() ==> (#[trigger] self.chain.segments[i]).id != (
            #[trigger] self.chain.segments[j]).id
        &&& forall|id: Seq<char>| #[trigger]
            self.loglets.contains_key(id) ==> self.loglets[id].wf()
        &&& forall|k: nat|
            self.chain.segments.len() <= k ==> !self.loglets.contains_key(
                #[trigger] virtual_view::generated_id(k),
            )
        &&& self.chain.segments.last().start + self.active_log().tail <= u64::MAX
        &&& exists|g: LogPos| self.trim_is(g)
    }

    /// The log that the chain makes up.
    pub open spec fn log(self) -> LogView {
        LogView {
            tail: self.tail(),
            sealed: self.sealed(),
            trim: if exists|g: LogPos| self.trim_is(g) {
                choose|g: LogPos| self.trim_is(g)
            } else {
                LOG_POS_BEGIN
            },
            entries: Map::new(
                |p: LogPos| LOG_POS_BEGIN <= p && self.readable_at(p),
                |p: LogPos| self.entry_at(p),
            ),
        }
    }

    /// The trim position is the only one that fits.
    proof fn trim_unique(self, g: LogPos)
        requires
            self.trim_is(g),
        ensures
            self.log().trim == g,
    {
        let h = self.log().trim;
        assert(self.trim_is(h));
        if g < h {
            assert(self.trimmed_at(g) <==> g < g);
            assert(self.trimmed_at(g) <==> g < h);
        } else if h < g {
            assert(self.trimmed_at(h) <==> h < h);
            assert(self.trimmed_at(h) <==> h < g);
        }
    }

    /// The segment of a position.
    proof fn segment_of(self, pos: LogPos) -> (i: int)
        requires
            self.chain.contiguous(),
            self.complete(),
            LOG_POS_BEGIN <= pos,
        ensures
            0 <= i < self.chain.segments.len(),
            self.chain.segments[i].covers(pos),
            self.chain.find(pos) == Some(self.chain.segments[i]),
            self.loglets.contains_key(self.chain.segments[i].id),
            i < self.chain.segments.len() - 1 ==> pos < self.chain.segments.last().start,
            i == self.chain.segments.len() - 1 ==> self.chain.active() == Some(
                self.chain.segments[i],
            ),
    {
        let i = chain::contiguous_covers(self.chain, pos);
        chain::contiguous_find(self.chain, pos, i);
        if i < self.chain.segments.len() - 1 {
            chain::starts_ascend(self.chain, i, self.chain.segments.len() - 1);
        }
        i
    }

    /// A coherent log is well-formed.
    pub proof fn coherent_wf(self)
        requires
            self.coherent(),
        ensures
            self.log().wf(),
    {
        let log = self.log();
        let n = self.chain.segments.len() as int;
        let a = self.chain.segments[n - 1];
        assert(self.loglets.contains_key(a.id));
        assert(self.trim_is(log.trim));
        assert forall|p: LogPos| #[trigger] log.entries.contains_key(p) implies log.trim <= p
            < log.tail by {
            let i = self.segment_of(p);
            let s = self.chain.segments[i];
            assert(self.loglets[s.id].wf());
            assert(self.trimmed_at(p) <==> p < log.trim);
        }
    }

    /// What a coherent log returns to a read.
    pub proof fn coherent_read(self, pos: LogPos)
        requires
            self.coherent(),
        ensures
            pos < self.log().trim ==> self.read(pos) == Result::<Option<EntryView>, ErrorView>::Err(
                loglet::refusal(true, pos),
            ),
            self.log().trim <= pos ==> self.read(pos) == Result::<
                Option<EntryView>,
                ErrorView,
            >::Ok(self.log().entry(pos)),
    {
        let log = self.log();
        assert(self.trim_is(log.trim));
        if LOG_POS_BEGIN <= pos {
            let i = self.segment_of(pos);
            assert(self.trimmed_at(pos) <==> pos < log.trim);
        } else {
            assert forall|i: int| !(#[trigger] self.chain.first_at(pos, i)) by {
                if 0 <= i < self.chain.segments.len() {
                    assert(LOG_POS_BEGIN <= self.chain.segments[i].start);
                }
            }
        }
    }

    /// The state after one loglet of the chain was changed.
    spec fn with_log(self, k: int, log: LogView) -> VirtualView {
        VirtualView { loglets: self.loglets.insert(self.chain.segments[k].id, log), ..self }
    }

    /// Changing one loglet changes what is read and trimmed in its segment only.
    proof fn with_log_elsewhere(self, k: int, log: LogView, pos: LogPos, i: int)
        requires
            self.coherent(),
            0 <= k < self.chain.segments.len(),
            0 <= i < self.chain.segments.len(),
            i != k,
            self.chain.find(pos) == Some(self.chain.segments[i]),
        ensures
            self.with_log(k, log).trimmed_at(pos) == self.trimmed_at(pos),
            self.with_log(k, log).readable_at(pos) == self.readable_at(pos),
            self.with_log(k, log).entry_at(pos) == self.entry_at(pos),
    {
        if i < k {
            assert(self.chain.segments[i].id != self.chain.segments[k].id);
        } else {
            assert(self.chain.segments[k].id != self.chain.segments[i].id);
        }
    }

    /// What a position shows after the active loglet took an entry.
    proof fn appended_at(self, entry: EntryView, p: LogPos)
        requires
            self.coherent(),
            self.fits(self.chain, 1),
            LOG_POS_BEGIN <= p,
        ensures
            ({
                let k = self.chain.segments.len() - 1;
                let next = self.with_log(k, self.active_log().appended(entry));
                let target = self.log().appended(entry);
                &&& next.trimmed_at(p) == self.trimmed_at(p)
                &&& next.readable_at(p) == target.entries.contains_key(p)
                &&& next.readable_at(p) ==> next.entry_at(p) == target.entries[p]
            }),
    {
        let k = self.chain.segments.len() - 1;
        let a = self.chain.segments[k];
        let old_log = self.active_log();
        let new_log = old_log.appended(entry);
        let g = self.log().trim;
        assert(self.chain.active() == Some(a));
        assert(self.loglets.contains_key(a.id));
        assert(old_log.wf());
        assert(a.start + self.tail_of(a.id) + 1 <= u64::MAX);
        assert(self.trim_is(g));
        let i = self.segment_of(p);
        assert(self.trimmed_at(p) <==> p < g);
        assert(self.log().entries.contains_key(p) == self.readable_at(p));
        if i != k {
            self.with_log_elsewhere(k, new_log, p, i);
            assert(p < a.start);
        } else {
            let q = virtual_view::local(a.start, p);
            assert(q == old_log.tail <==> p == self.tail());
            assert(q < old_log.trim <==> p < g);
        }
    }

    /// The state after the active loglet took an entry stays coherent.
    proof fn appended_coherent(self, entry: EntryView)
        requires
            self.coherent(),
            self.fits(self.chain, 1),
        ensures
            ({
                let k = self.chain.segments.len() - 1;
                let next = self.with_log(k, self.active_log().appended(entry));
                next.coherent() && next.trim_is(self.log().trim)
            }),
    {
        let k = self.chain.segments.len() - 1;
        let a = self.chain.segments[k];
        let new_log = self.active_log().appended(entry);
        let next = self.with_log(k, new_log);
        let g = self.log().trim;
        assert(self.chain.active() == Some(a));
        assert(self.loglets.contains_key(a.id));
        assert(self.active_log().wf());
        assert(a.start + self.tail_of(a.id) + 1 <= u64::MAX);
        assert(self.trim_is(g));
        assert forall|p: LogPos| LOG_POS_BEGIN <= p implies (#[trigger] next.trimmed_at(p) <==> p
            < g) by {
            self.appended_at(entry, p);
            assert(self.trimmed_at(p) <==> p < g);
        }
        assert(next.trim_is(g));
        assert(new_log.wf());
        assert forall|n: nat| next.chain.segments.len() <= n implies !next.loglets.contains_key(
            #[trigger] virtual_view::generated_id(n),
        ) by {
            assert(!self.loglets.contains_key(virtual_view::generated_id(n)));
        }
    }

    /// The state after the active loglet took an entry shows the entry.
    proof fn appended_log(self, entry: EntryView)
        requires
            self.coherent(),
            self.fits(self.chain, 1),
        ensures
            ({
                let k = self.chain.segments.len() - 1;
                let next = self.with_log(k, self.active_log().appended(entry));
                next.log() == self.log().appended(entry)
            }),
    {
        let k = self.chain.segments.len() - 1;
        let a = self.chain.segments[k];
        let next = self.with_log(k, self.active_log().appended(entry));
        let target = self.log().appended(entry);
        self.appended_coherent(entry);
        next.trim_unique(self.log().trim);
        self.coherent_wf();
        assert(self.chain.active() == Some(a));
        assert(next.chain.active() == Some(a));
        assert(a.start + self.tail_of(a.id) + 1 <= u64::MAX);
        assert(self.loglets.contains_key(a.id));
        let shown = next.log().entries;
        assert forall|p: LogPos| #[trigger] shown.contains_key(p) == target.entries.contains_key(
            p,
        ) by {
            if LOG_POS_BEGIN <= p {
                self.appended_at(entry, p);
            }
        }
        assert forall|p: LogPos| #[trigger] shown.contains_key(p) implies shown[p]
            == target.entries[p] by {
            self.appended_at(entry, p);
        }
        assert(shown =~= target.entries);
        assert(next.active_log() == self.active_log().appended(entry));
    }

    /// An append to an open log appends.
    pub proof fn coherent_append(self, entry: EntryView)
        requires
            self.coherent(),
            self.fits(self.chain, 1),
            !self.sealed(),
        ensures
            self.append(entry).0.coherent(),
            self.append(entry).0.log() == self.log().appended(entry),
            self.append(entry).1 == Result::<LogPos, ErrorView>::Ok(self.log().tail),
    {
        self.appended_coherent(entry);
        self.appended_log(entry);
        assert(self.chain.active() is Some);
        let k = self.chain.segments.len() - 1;
        assert(self.append(entry).0 == self.with_log(k, self.active_log().appended(entry)));
    }

    /// Sealing the active loglet seals the log.
    pub proof fn coherent_closed(self)
        requires
            self.coherent(),
        ensures
            self.closed().coherent(),
            self.closed().log() == self.log().closed(),
    {
        let k = self.chain.segments.len() - 1;
        let a = self.chain.segments[k];
        let next = self.closed();
        let new_log = self.active_log().closed();
        let g = self.log().trim;
        assert(self.chain.active() == Some(a));
        assert(self.loglets.contains_key(a.id));
        assert(next == self.with_log(k, new_log));
        assert(self.trim_is(g));
        assert forall|p: LogPos| LOG_POS_BEGIN <= p implies next.trimmed_at(p)
            == self.trimmed_at(p) && next.readable_at(p) == self.readable_at(p)
            && next.entry_at(p) == self.entry_at(p) by {
            let i = self.segment_of(p);
            if i != k {
                self.with_log_elsewhere(k, new_log, p, i);
            }
        }
        assert(next.trim_is(g)) by {
            assert forall|p: LogPos| LOG_POS_BEGIN <= p implies (#[trigger] next.trimmed_at(p)
                <==> p < g) by {
                assert(self.trimmed_at(p) <==> p < g);
            }
        }
        next.trim_unique(g);
        assert(next.coherent());
        assert(next.log().entries =~= self.log().entries);
    }

    /// The tail of a coherent log is a position of its active segment.
    pub proof fn coherent_range(self)
        requires
            self.coherent(),
        ensures
            self.chain.sound(),
            self.chain.active() is Some,
            LOG_POS_BEGIN <= self.chain.active()->0.start,
            self.chain.active()->0.start + self.active_log().tail <= u64::MAX,
    {
        let k = self.chain.segments.len() - 1;
        assert(self.chain.active() == Some(self.chain.segments[k]));
        assert(LOG_POS_BEGIN <= self.chain.segments[k].start);
    }

    /// Sealing the active loglet changes nothing else, whatever the state.
    pub proof fn closed_same(self)
        requires
            self.complete(),
            self.chain.active() is Some,
        ensures
            self.closed().log() == self.log().closed(),
            forall|n: nat| #[trigger] self.closed().has_room(n) == self.has_room(n),
    {
        let next = self.closed();
        let k = self.chain.segments.len() - 1;
        assert(self.loglets.contains_key(self.chain.segments[k].id));
        assert forall|p: LogPos| next.trimmed_at(p) == self.trimmed_at(p) && next.readable_at(p)
            == self.readable_at(p) && next.entry_at(p) == self.entry_at(p) by {}
        assert forall|g: LogPos| next.trim_is(g) == self.trim_is(g) by {
            if self.trim_is(g) {
                assert forall|p: LogPos| LOG_POS_BEGIN <= p implies (#[trigger] next.trimmed_at(p)
                    <==> p < g) by {
                    assert(self.trimmed_at(p) <==> p < g);
                }
            }
            if next.trim_is(g) {
                assert forall|p: LogPos| LOG_POS_BEGIN <= p implies (#[trigger] self.trimmed_at(p)
                    <==> p < g) by {
                    assert(next.trimmed_at(p) <==> p < g);
                }
            }
        }
        if exists|g: LogPos| self.trim_is(g) {
            let g = choose|g: LogPos| self.trim_is(g);
            self.trim_unique(g);
            assert(next.trim_is(g));
            next.trim_unique(g);
        }
        assert(next.log().entries =~= self.log().entries);
        assert forall|id: Seq<char>| next.tail_of(id) == self.tail_of(id) by {}
        assert forall|n: nat| #[trigger] next.has_room(n) == self.has_room(n) by {
            same_fits(self, next, self.chain, n);
            same_fits(self, next, self.meta_chain, n);
        }
    }

    /// A sealed log goes on behind its tail.
    pub proof fn coherent_reconfigured(self)
        requires
            self.coherent(),
            self.has_room(1),
            self.sealed(),
        ensures
            self.reconfigured().coherent(),
            self.reconfigured().log() == self.log().reopened(),
            !self.reconfigured().sealed(),
    {
        let n = self.chain.segments.len() as int;
        let a = self.chain.segments[n - 1];
        let next = self.reconfigured();
        let id = virtual_view::generated_id(self.chain.segments.len());
        let tail = self.tail();
        let g = self.log().trim;
        let h = self.log().reopened().trim;
        assert(self.chain.active() == Some(a));
        assert(self.loglets.contains_key(a.id));
        assert(self.active_log().wf());
        assert(a.start + self.tail_of(a.id) + 1 <= u64::MAX);
        assert(LOG_POS_BEGIN <= a.start);
        self.coherent_wf();
        self.reconfigured_room(1);
        chain::extend_splits(self.chain, tail, id, LOG_POS_BEGIN);
        assert(next.chain.active() == Some(SegmentView { id, start: tail, end: None }));
        assert(self.trim_is(g));
        assert(!self.loglets.contains_key(id));
        assert forall|p: LogPos| LOG_POS_BEGIN <= p implies {
            &&& p < tail ==> next.trimmed_at(p) == self.trimmed_at(p) && next.readable_at(p)
                == self.readable_at(p) && next.entry_at(p) == self.entry_at(p)
            &&& p >= tail ==> !next.trimmed_at(p) && !next.readable_at(p)
        } by {
            chain::extend_splits(self.chain, tail, id, p);
            let i = self.segment_of(p);
            assert(self.loglets.contains_key(self.chain.segments[i].id));
        }
        assert forall|p: LogPos| LOG_POS_BEGIN <= p implies (#[trigger] next.trimmed_at(p) <==> p
            < h) by {
            assert(self.trimmed_at(p) <==> p < g);
        }
        assert(next.trim_is(h));
        next.trim_unique(h);
        assert(next.coherent()) by {
            assert forall|i: int, j: int| 0 <= i < j < next.chain.segments.len() implies (
            #[trigger] next.chain.segments[i]).id != (#[trigger] next.chain.segments[j]).id by {
                assert(next.chain.segments[i].id == self.chain.segments[i].id);
                assert(self.loglets.contains_key(self.chain.segments[i].id));
                if j < n {
                    assert(next.chain.segments[j].id == self.chain.segments[j].id);
                }
            }
            assert forall|k: nat| next.chain.segments.len() <= k implies !next.loglets.contains_key(
                #[trigger] virtual_view::generated_id(k),
            ) by {
                assert(!self.loglets.contains_key(virtual_view::generated_id(k)));
                if virtual_view::generated_id(k) == id {
                    virtual_view::generated_id_injective(k, self.chain.segments.len());
                }
            }
        }
        let target = self.log().reopened();
        assert forall|p: LogPos| next.log().entries.contains_key(p) == target.entries.contains_key(
            p,
        ) && (next.log().entries.contains_key(p) ==> next.log().entries[p] == target.entries[p]) by {
            if self.log().entries.contains_key(p) {
                assert(p < tail);
            }
        }
        assert(next.log().entries =~= target.entries);
    }

    /// What a position shows after a trim.
    proof fn trimmed_position(self, pos: LogPos, p: LogPos)
        requires
            self.coherent(),
            LOG_POS_BEGIN <= p,
        ensures
            self.trimmed(pos).trimmed_at(p) <==> self.trimmed_at(p) || p < pos,
            self.trimmed(pos).readable_at(p) <==> self.readable_at(p) && pos <= p,
            self.trimmed(pos).readable_at(p) ==> self.trimmed(pos).entry_at(p) == self.entry_at(p),
    {
        let i = self.segment_of(p);
        let s = self.chain.segments[i];
        trim_segments_each(self.loglets, self.chain.segments, pos);
        assert(self.loglets[s.id].wf());
        let after = self.trimmed(pos);
        assert(after.loglets[s.id] == (if pos > s.start {
            self.loglets[s.id].trimmed(
                virtual_view::local(s.start, virtual_view::trim_in(s, pos)),
            )
        } else {
            self.loglets[s.id]
        }));
    }

    /// A log on such a chain of fresh loglets is coherent and empty.
    pub proof fn attached_coherent(chain: ChainView, version: u64)
        requires
            startable(chain),
        ensures
            VirtualView::attached(chain, version).coherent(),
            VirtualView::attached(chain, version).log() == (LogView {
                tail: chain.segments.last().start,
                ..LogView::empty()
            }),
    {
        let v = VirtualView::attached(chain, version);
        let k = chain.segments.len() - 1;
        virtual_view::all_fresh_complete(chain.segments);
        assert(v.complete());
        assert(v.loglets.contains_key(chain.segments[k].id));
        assert forall|p: LogPos| LOG_POS_BEGIN <= p implies (#[trigger] v.trimmed_at(p) <==> p
            < LOG_POS_BEGIN) by {
            let i = v.segment_of(p);
        }
        assert(v.trim_is(LOG_POS_BEGIN));
        v.trim_unique(LOG_POS_BEGIN);
        assert forall|p: LogPos| !v.log().entries.contains_key(p) by {
            if LOG_POS_BEGIN <= p {
                let i = v.segment_of(p);
            }
        }
        assert(v.log().entries =~= Map::<LogPos, EntryView>::empty());
        assert forall|n: nat| v.chain.segments.len() <= n implies !v.loglets.contains_key(
            #[trigger] virtual_view::generated_id(n),
        ) by {
            if v.loglets.contains_key(virtual_view::generated_id(n)) {
                let i = choose|i: int|
                    0 <= i < chain.segments.len() && (#[trigger] chain.segments[i]).id
                        == virtual_view::generated_id(n);
            }
        }
    }

    /// A trim takes no room.
    pub proof fn trimmed_room(self, pos: LogPos)
        requires
            self.coherent(),
        ensures
            forall|n: nat| #[trigger] self.trimmed(pos).has_room(n) == self.has_room(n),
    {
        let next = self.trimmed(pos);
        trim_segments_each(self.loglets, self.chain.segments, pos);
        assert forall|id: Seq<char>| next.tail_of(id) == self.tail_of(id) by {}
        assert forall|n: nat| #[trigger] next.has_room(n) == self.has_room(n) by {
            same_fits(self, next, self.chain, n);
        }
    }

    /// An append takes the room of one entry.
    pub proof fn append_room(self, entry: EntryView, n: nat)
        requires
            self.coherent(),
            self.has_room(n + 1),
        ensures
            self.append(entry).0.has_room(n),
    {
        self.fewer_fit(n + 1, 1);
        if self.sealed() {
            self.reconfigured_room(n + 1);
            self.coherent_reconfigured();
            let v = self.reconfigured();
            assert(self.append(entry) == v.append(entry));
            v.appended_room(entry, n);
        } else {
            self.appended_room(entry, n);
        }
    }

    /// Where there is room for some entries there is room for fewer.
    pub proof fn fewer_fit(self, n: nat, k: nat)
        requires
            self.has_room(n),
            k <= n,
        ensures
            self.has_room(k),
    {
        assert forall|i: int| 0 <= i < self.chain.segments.len() implies {
            let s = #[trigger] self.chain.segments[i];
            s.start + self.tail_of(s.id) + k <= u64::MAX && LOG_POS_BEGIN <= self.tail_of(s.id)
        } by {
            assert(self.chain.segments[i].start + self.tail_of(self.chain.segments[i].id) + n
                <= u64::MAX);
        }
        assert forall|i: int| 0 <= i < self.meta_chain.segments.len() implies {
            let s = #[trigger] self.meta_chain.segments[i];
            s.start + self.tail_of(s.id) + k <= u64::MAX && LOG_POS_BEGIN <= self.tail_of(s.id)
        } by {
            assert(self.meta_chain.segments[i].start + self.tail_of(self.meta_chain.segments[i].id)
                + n <= u64::MAX);
        }
    }

    proof fn appended_room(self, entry: EntryView, n: nat)
        requires
            self.coherent(),
            !self.sealed(),
            self.fits(self.chain, n + 1),
            self.meta_version + n <= u64::MAX,
        ensures
            self.append(entry).0.has_room(n),
    {
        let next = self.append(entry).0;
        let k = self.chain.segments.len() - 1;
        let a = self.chain.segments[k];
        assert(self.chain.active() == Some(a));
        assert(self.loglets.contains_key(a.id));
        assert(a.start + self.tail_of(a.id) + (n + 1) <= u64::MAX);
        assert(next.chain == self.chain && next.meta_chain == self.chain);
        assert forall|i: int| 0 <= i < self.chain.segments.len() implies {
            let s = #[trigger] self.chain.segments[i];
            s.start + next.tail_of(s.id) + n <= u64::MAX && LOG_POS_BEGIN <= next.tail_of(s.id)
        } by {
            let s = self.chain.segments[i];
            assert(s.start + self.tail_of(s.id) + (n + 1) <= u64::MAX);
        }
    }

    /// Trimming the loglets trims the log.
    pub proof fn coherent_trimmed(self, pos: LogPos)
        requires
            self.coherent(),
        ensures
            self.trimmed(pos).coherent(),
            self.trimmed(pos).log() == self.log().trimmed(pos),
    {
        let next = self.trimmed(pos);
        let target = self.log().trimmed(pos);
        let g = self.log().trim;
        let h = if pos > g {
            pos
        } else {
            g
        };
        let k = self.chain.segments.len() - 1;
        let a = self.chain.segments[k];
        assert(self.trim_is(g));
        self.coherent_wf();
        trim_segments_each(self.loglets, self.chain.segments, pos);
        assert(self.loglets.contains_key(a.id));
        assert(next.loglets[a.id].tail == self.loglets[a.id].tail);
        assert(next.loglets[a.id].sealed == self.loglets[a.id].sealed);
        assert forall|p: LogPos| LOG_POS_BEGIN <= p implies (#[trigger] next.trimmed_at(p) <==> p
            < h) by {
            self.trimmed_position(pos, p);
            assert(self.trimmed_at(p) <==> p < g);
        }
        assert(next.trim_is(h));
        next.trim_unique(h);
        assert forall|id: Seq<char>| #[trigger] next.loglets.contains_key(id) implies
            next.loglets[id].wf() by {
            assert(self.loglets.contains_key(id));
            assert(self.loglets[id].wf());
        }
        assert(next.complete()) by {
            assert forall|i: int| 0 <= i < next.chain.segments.len() implies
                next.loglets.contains_key((#[trigger] next.chain.segments[i]).id) by {
                assert(self.loglets.contains_key(self.chain.segments[i].id));
            }
        }
        assert forall|n: nat| next.chain.segments.len() <= n implies !next.loglets.contains_key(
            #[trigger] virtual_view::generated_id(n),
        ) by {
            assert(!self.loglets.contains_key(virtual_view::generated_id(n)));
        }
        assert(next.coherent());
        let shown = next.log().entries;
        assert forall|p: LogPos| #[trigger] shown.contains_key(p) == target.entries.contains_key(
            p,
        ) by {
            if LOG_POS_BEGIN <= p {
                self.trimmed_position(pos, p);
                assert(self.log().entries.contains_key(p) == self.readable_at(p));
            }
        }
        assert forall|p: LogPos| #[trigger] shown.contains_key(p) implies shown[p]
            == target.entries[p] by {
            self.trimmed_position(pos, p);
        }
        assert(shown =~= target.entries);
    }
}

/// A trim changes the loglet of each segment that starts before the position, and
/// no other; it keeps tails, seals and well-formedness.
proof fn trim_segments_each(
    loglets: Map<Seq<char>, LogView>,
    segments: Seq<SegmentView>,
    pos: LogPos,
)
    requires
        forall|i: int, j: int|
            0 <= i < j < segments.len() ==> (#[trigger] segments[i]).id != (
            #[trigger] segments[j]).id,
        forall|i: int|
            0 <= i < segments.len() ==> loglets.contains_key((#[trigger] segments[i]).id),
    ensures
        ({
            let after = virtual_view::trim_segments(loglets, segments, pos);
            &&& after.dom() == loglets.dom()
            &&& forall|i: int|
                0 <= i < segments.len() ==> after[(#[trigger] segments[i]).id] == if pos
                    > segments[i].start {
                    loglets[segments[i].id].trimmed(
                        virtual_view::local(
                            segments[i].start,
                            virtual_view::trim_in(segments[i], pos),
                        ),
                    )
                } else {
                    loglets[segments[i].id]
                }
            &&& forall|id: Seq<char>|
                (forall|i: int| 0 <= i < segments.len() ==> (#[trigger] segments[i]).id != id)
                    ==> #[trigger] after[id] == loglets[id]
            &&& forall|id: Seq<char>| #[trigger]
                loglets.contains_key(id) ==> after[id].tail == loglets[id].tail && after[id].sealed
                    == loglets[id].sealed && (loglets[id].wf() ==> after[id].wf())
        }),
    decreases segments.len(),
{
    if segments.len() > 0 {
        let front = segments.drop_last();
        let s = segments.last();
        let n = segments.len() - 1;
        assert forall|i: int, j: int| 0 <= i < j < front.len() implies (#[trigger] front[i]).id != (
        #[trigger] front[j]).id by {
            assert(segments[i].id != segments[j].id);
        }
        assert forall|i: int| 0 <= i < front.len() implies loglets.contains_key(
            (#[trigger] front[i]).id,
        ) by {
            assert(loglets.contains_key(segments[i].id));
        }
        trim_segments_each(loglets, front, pos);
        let done = virtual_view::trim_segments(loglets, front, pos);
        let after = virtual_view::trim_segments(loglets, segments, pos);
        assert(segments[n] == s);
        assert forall|i: int| 0 <= i < front.len() implies (#[trigger] front[i]).id != s.id by {
            assert(segments[i].id != segments[n].id);
        }
        assert(done[s.id] == loglets[s.id]);
        assert forall|i: int| 0 <= i < segments.len() implies after[(#[trigger] segments[i]).id]
            == (if pos > segments[i].start {
            loglets[segments[i].id].trimmed(
                virtual_view::local(segments[i].start, virtual_view::trim_in(segments[i], pos)),
            )
        } else {
            loglets[segments[i].id]
        }) by {
            if i < n {
                assert(front[i] == segments[i]);
                assert(segments[i].id != segments[n].id);
            }
        }
        assert forall|id: Seq<char>|
            (forall|i: int| 0 <= i < segments.len() ==> (#[trigger] segments[i]).id != id) implies
            #[trigger] after[id] == loglets[id] by {
            assert(segments[n].id != id);
            assert forall|i: int| 0 <= i < front.len() implies (#[trigger] front[i]).id != id by {
                assert(segments[i].id != id);
            }
            assert(done[id] == loglets[id]);
        }
        assert(after.dom() =~= loglets.dom());
    }
}

proof fn same_fits(v: VirtualView, w: VirtualView, chain: ChainView, n: nat)
    requires
        forall|id: Seq<char>| #[trigger] v.tail_of(id) == w.tail_of(id),
    ensures
        v.fits(chain, n) == w.fits(chain, n),
{
    if v.fits(chain, n) {
        assert forall|i: int| 0 <= i < chain.segments.len() implies (
        #[trigger] chain.segments[i]).start + w.tail_of(chain.segments[i].id) + n <= u64::MAX
            && LOG_POS_BEGIN <= w.tail_of(chain.segments[i].id) by {
            assert(v.tail_of(chain.segments[i].id) == w.tail_of(chain.segments[i].id));
        }
    }
    if w.fits(chain, n) {
        assert forall|i: int| 0 <= i < chain.segments.len() implies (
        #[trigger] chain.segments[i]).start + v.tail_of(chain.segments[i].id) + n <= u64::MAX
            && LOG_POS_BEGIN <= v.tail_of(chain.segments[i].id) by {
            assert(v.tail_of(chain.segments[i].id) == w.tail_of(chain.segments[i].id));
        }
    }
}

} // verus!

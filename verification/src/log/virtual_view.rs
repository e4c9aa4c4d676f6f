//! What a virtual log is: a chain, the loglets behind it, and the register in
//! which the chain is agreed on.

use vstd::prelude::*;

use crate::base::entry::EntryView;
use crate::base::error::ErrorView;
use crate::base::text;
use crate::base::types::{LogPos, LOG_POS_BEGIN};
use crate::log::chain::{ChainView, SegmentView};
use crate::log::loglet;
use crate::log::loglet::LogView;

verus! {

/// The state of a virtual log.
#[verifier::ext_equal]
pub struct VirtualView {
    /// The chain as this log knows it.
    pub chain: ChainView,
    /// The version of that chain.
    pub version: u64,
    /// The loglets by their identifiers.
    pub loglets: Map<Seq<char>, LogView>,
    /// The chain in the register.
    pub meta_chain: ChainView,
    /// The version of the register.
    pub meta_version: u64,
}

/// The global position of a loglet's position.
pub open spec fn global(start: LogPos, local: LogPos) -> LogPos {
    (start + local - 1) as LogPos
}

/// The position within a loglet of a global position.
pub open spec fn local(start: LogPos, pos: LogPos) -> LogPos {
    (pos - start + 1) as LogPos
}

/// The identifier of the loglet that extends a chain of `n` segments.
pub open spec fn generated_id(n: nat) -> Seq<char> {
    "loglet-"@ + text::decimal_text(n)
}

/// Chains of distinct lengths are extended under distinct identifiers.
pub proof fn generated_id_injective(a: nat, b: nat)
    requires
        generated_id(a) == generated_id(b),
    ensures
        a == b,
{
    let p = "loglet-"@;
    assert(generated_id(a).skip(p.len() as int) == text::decimal_text(a));
    assert(generated_id(b).skip(p.len() as int) == text::decimal_text(b));
    text::decimal_injective(a, b);
}

/// A global position has its place within a loglet of a segment.
pub open spec fn local_fits(start: LogPos, pos: LogPos) -> bool {
    start <= pos && pos - start < u64::MAX
}

/// The loglets with an empty one for each identifier of the chain that has none.
pub open spec fn with_missing(
    loglets: Map<Seq<char>, LogView>,
    segments: Seq<SegmentView>,
) -> Map<Seq<char>, LogView>
    decreases segments.len(),
{
    if segments.len() == 0 {
        loglets
    } else {
        let known = with_missing(loglets, segments.drop_last());
        if known.contains_key(segments.last().id) {
            known
        } else {
            known.insert(segments.last().id, LogView::empty())
        }
    }
}

/// The loglets with a fresh one for each identifier of the chain.
pub open spec fn all_fresh(segments: Seq<SegmentView>) -> Map<Seq<char>, LogView>
    decreases segments.len(),
{
    if segments.len() == 0 {
        Map::empty()
    } else {
        all_fresh(segments.drop_last()).insert(segments.last().id, LogView::empty())
    }
}

/// The loglets after the first segments were trimmed at a global position.
pub open spec fn trim_segments(
    loglets: Map<Seq<char>, LogView>,
    segments: Seq<SegmentView>,
    pos: LogPos,
) -> Map<Seq<char>, LogView>
    decreases segments.len(),
{
    if segments.len() == 0 {
        loglets
    } else {
        let done = trim_segments(loglets, segments.drop_last(), pos);
        let s = segments.last();
        if pos > s.start && done.contains_key(s.id) {
            done.insert(s.id, done[s.id].trimmed(local(s.start, trim_in(s, pos))))
        } else {
            done
        }
    }
}

/// The global position up to which a segment is trimmed.
pub open spec fn trim_in(s: SegmentView, pos: LogPos) -> LogPos {
    if s.end is Some && s.end->0 < pos {
        s.end->0
    } else {
        pos
    }
}

impl VirtualView {
    /// Every segment of the chain has its loglet.
    pub open spec fn complete(self) -> bool {
        forall|i: int|
            0 <= i < self.chain.segments.len() ==> self.loglets.contains_key(
                (#[trigger] self.chain.segments[i]).id,
            )
    }

    /// The loglet of the active segment.
    pub open spec fn active_log(self) -> LogView {
        self.loglets[self.chain.active()->0.id]
    }

    /// The active segment's loglet is sealed.
    pub open spec fn sealed(self) -> bool {
        self.chain.active() is Some && self.active_log().sealed
    }

    /// The next global position.
    pub open spec fn tail(self) -> LogPos {
        global(self.chain.active()->0.start, self.active_log().tail)
    }

    /// The tail of a loglet, where 1 is that of one that is yet to be created.
    pub open spec fn tail_of(self, id: Seq<char>) -> LogPos {
        if self.loglets.contains_key(id) {
            self.loglets[id].tail
        } else {
            LOG_POS_BEGIN
        }
    }

    /// The position space of a chain holds `n` more entries in every segment.
    pub open spec fn fits(self, chain: ChainView, n: nat) -> bool {
        forall|i: int|
            0 <= i < chain.segments.len() ==> (#[trigger] chain.segments[i]).start + self.tail_of(
                chain.segments[i].id,
            ) + n <= u64::MAX && LOG_POS_BEGIN <= self.tail_of(chain.segments[i].id)
    }

    /// The position space holds `n` more entries, with a reconfiguration before
    /// each.
    pub open spec fn has_room(self, n: nat) -> bool {
        &&& self.chain.sound()
        &&& self.meta_chain.sound()
        &&& self.fits(self.chain, n)
        &&& self.fits(self.meta_chain, n)
        &&& self.meta_version + n <= u64::MAX
    }

    /// The state of a log that has just read its chain from the register.
    pub open spec fn attached(chain: ChainView, version: u64) -> VirtualView {
        VirtualView {
            chain,
            version,
            loglets: all_fresh(chain.segments),
            meta_chain: chain,
            meta_version: version,
        }
    }

    /// The state with the active loglet sealed.
    pub open spec fn closed(self) -> VirtualView {
        VirtualView {
            loglets: self.loglets.insert(self.chain.active()->0.id, self.active_log().closed()),
            ..self
        }
    }

    /// The chain behind a new segment that starts at the tail.
    pub open spec fn next_chain(self) -> ChainView {
        self.chain.extended(self.tail(), generated_id(self.chain.segments.len()))
    }

    /// The state after the chain was read from the register.
    pub open spec fn synced(self) -> VirtualView {
        VirtualView {
            chain: self.meta_chain,
            version: self.meta_version,
            loglets: with_missing(self.loglets, self.meta_chain.segments),
            ..self
        }
    }

    /// The state after a reconfiguration: the active loglet is sealed, and either
    /// a new segment was agreed on or the register's chain was taken over.
    pub open spec fn reconfigured(self) -> VirtualView {
        if self.version == self.meta_version {
            VirtualView {
                chain: self.next_chain(),
                version: (self.version + 1) as u64,
                loglets: self.closed().loglets.insert(
                    generated_id(self.chain.segments.len()),
                    LogView::empty(),
                ),
                meta_chain: self.next_chain(),
                meta_version: (self.meta_version + 1) as u64,
            }
        } else {
            self.closed().synced()
        }
    }

    /// How many reconfigurations an append takes at most.
    pub open spec fn rank(self) -> nat {
        if self.version != self.meta_version {
            2
        } else if self.sealed() {
            1
        } else {
            0
        }
    }

    /// What an append does and returns.
    pub open spec fn append(self, entry: EntryView) -> (VirtualView, Result<LogPos, ErrorView>)
        decreases self.rank(),
        via VirtualView::append_decreases
    {
        if self.chain.active() is None {
            (self, Err(ErrorView::Internal("no active segment in chain"@)))
        } else if self.sealed() {
            self.reconfigured().append(entry)
        } else {
            (
                VirtualView {
                    loglets: self.loglets.insert(
                        self.chain.active()->0.id,
                        self.active_log().appended(entry),
                    ),
                    ..self
                },
                Ok(self.tail()),
            )
        }
    }

    #[via_fn]
    proof fn append_decreases(self, entry: EntryView) {
        if self.chain.active() is Some && self.sealed() {
            self.reconfigured_rank();
        }
    }

    /// A reconfiguration brings an append closer to its end.
    pub proof fn reconfigured_rank(self)
        requires
            self.sealed(),
        ensures
            self.reconfigured().rank() < self.rank(),
    {
        if self.version == self.meta_version {
            let next = self.reconfigured();
            assert(next.chain.active() is Some);
            assert(next.chain.active()->0.id == generated_id(self.chain.segments.len()));
        }
    }

    /// A reconfiguration leaves a loglet for every segment, and room for the
    /// entry that asked for it.
    pub proof fn reconfigured_room(self, n: nat)
        requires
            self.complete(),
            self.has_room(n),
            n >= 1,
            self.chain.active() is Some,
        ensures
            self.reconfigured().complete(),
            self.reconfigured().chain.sound(),
            self.reconfigured().fits(self.reconfigured().chain, n),
            self.reconfigured().has_room((n - 1) as nat),
            self.version != self.meta_version ==> self.reconfigured().has_room(n),
    {
        let k = self.chain.segments.len() - 1;
        let a = self.chain.segments[k];
        let next = self.reconfigured();
        if self.version == self.meta_version {
            let id = generated_id(self.chain.segments.len());
            assert forall|i: int| 0 <= i < next.chain.segments.len() implies {
                let s = #[trigger] next.chain.segments[i];
                &&& (s.end is Some ==> s.start <= s.end->0)
                &&& next.loglets.contains_key(s.id)
                &&& s.start + next.tail_of(s.id) + n <= u64::MAX
                &&& LOG_POS_BEGIN <= next.tail_of(s.id)
            } by {
                assert(a.start + self.tail_of(a.id) + n <= u64::MAX);
                assert(LOG_POS_BEGIN <= self.tail_of(a.id));
                assert(self.loglets.contains_key(a.id));
                if i <= k {
                    let s = self.chain.segments[i];
                    assert(next.chain.segments[i].id == s.id);
                    assert(next.chain.segments[i].start == s.start);
                    assert(self.loglets.contains_key(s.id));
                }
            }
        } else {
            let c = self.closed();
            with_missing_complete(c.loglets, self.meta_chain.segments);
            assert forall|i: int| 0 <= i < self.meta_chain.segments.len() implies {
                let s = #[trigger] self.meta_chain.segments[i];
                &&& s.start + next.tail_of(s.id) + n <= u64::MAX
                &&& LOG_POS_BEGIN <= next.tail_of(s.id)
            } by {
                let s = self.meta_chain.segments[i];
                assert(s.start + self.tail_of(s.id) + n <= u64::MAX);
            }
        }
    }

    /// The position has its place in the segment that holds it.
    pub open spec fn placed(self, pos: LogPos) -> bool {
        self.chain.find(pos) matches Some(s) ==> local_fits(s.start, pos)
    }

    /// Every segment can be trimmed at the position.
    pub open spec fn trimmable(self, pos: LogPos) -> bool {
        forall|i: int|
            0 <= i < self.chain.segments.len() && pos > (#[trigger] self.chain.segments[i]).start
                ==> local_fits(
                self.chain.segments[i].start,
                trim_in(self.chain.segments[i], pos),
            )
    }

    /// What a read returns.
    pub open spec fn read(self, pos: LogPos) -> Result<Option<EntryView>, ErrorView> {
        match self.chain.find(pos) {
            None => Err(ErrorView::Internal(loglet::no_segment_text(pos))),
            Some(s) => {
                let log = self.loglets[s.id];
                let p = local(s.start, pos);
                if p < log.trim {
                    Err(ErrorView::Trimmed(pos))
                } else {
                    Ok(log.entry(p))
                }
            },
        }
    }

    /// The state after a trim.
    pub open spec fn trimmed(self, pos: LogPos) -> VirtualView {
        VirtualView {
            loglets: trim_segments(self.loglets, self.chain.segments, pos),
            ..self
        }
    }
}

/// The loglets that were there stay, the chain's identifiers are all there, and
/// what is new is empty.
pub proof fn with_missing_complete(loglets: Map<Seq<char>, LogView>, segments: Seq<SegmentView>)
    ensures
        forall|i: int|
            0 <= i < segments.len() ==> with_missing(loglets, segments).contains_key(
                (#[trigger] segments[i]).id,
            ),
        forall|id: Seq<char>|
            loglets.contains_key(id) ==> #[trigger] with_missing(loglets, segments).contains_key(id)
                && with_missing(loglets, segments)[id] == loglets[id],
        forall|id: Seq<char>|
            !loglets.contains_key(id) && #[trigger] with_missing(loglets, segments).contains_key(id)
                ==> with_missing(loglets, segments)[id] == LogView::empty(),
    decreases segments.len(),
{
    if segments.len() > 0 {
        with_missing_complete(loglets, segments.drop_last());
        let known = with_missing(loglets, segments.drop_last());
        assert forall|i: int| 0 <= i < segments.len() implies with_missing(
            loglets,
            segments,
        ).contains_key((#[trigger] segments[i]).id) by {
            if i < segments.len() - 1 {
                assert(segments.drop_last()[i] == segments[i]);
                assert(known.contains_key(segments[i].id));
            }
        }
    }
}

/// Every identifier of the chain has an empty loglet, and there is no other.
pub proof fn all_fresh_complete(segments: Seq<SegmentView>)
    ensures
        forall|i: int|
            0 <= i < segments.len() ==> all_fresh(segments).contains_key(
                (#[trigger] segments[i]).id,
            ),
        forall|id: Seq<char>| #[trigger]
            all_fresh(segments).contains_key(id) ==> all_fresh(segments)[id] == LogView::empty()
                && exists|i: int| 0 <= i < segments.len() && (#[trigger] segments[i]).id == id,
    decreases segments.len(),
{
    if segments.len() > 0 {
        let front = segments.drop_last();
        all_fresh_complete(front);
        assert forall|i: int| 0 <= i < segments.len() implies all_fresh(segments).contains_key(
            (#[trigger] segments[i]).id,
        ) by {
            if i < segments.len() - 1 {
                assert(front[i] == segments[i]);
            }
        }
        assert forall|id: Seq<char>| #[trigger] all_fresh(segments).contains_key(id) implies (
        exists|i: int| 0 <= i < segments.len() && (#[trigger] segments[i]).id == id) by {
            if id == segments.last().id {
                assert(segments[segments.len() - 1].id == id);
            } else {
                assert(all_fresh(front).contains_key(id));
                let i = choose|i: int| 0 <= i < front.len() && (#[trigger] front[i]).id == id;
                assert(segments[i].id == id);
            }
        }
    }
}

} // verus!

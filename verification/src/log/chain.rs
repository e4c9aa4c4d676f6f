//! The chain of segments that makes up a log.

use vstd::prelude::*;

use crate::base::types::{LogPos, LOG_POS_BEGIN};

verus! {

/// A segment in the log chain mapping a global position range to a loglet.
#[derive(Debug)]
pub struct ChainSegment {
    /// Identifier for the loglet backing this segment.
    pub loglet_id: String,
    /// Global start position (inclusive).
    pub start_pos: LogPos,
    /// Global end position (exclusive). None means this is the active/open segment.
    pub end_pos: Option<LogPos>,
}

/// The contents of a [`ChainSegment`].
#[verifier::ext_equal]
pub struct SegmentView {
    pub id: Seq<char>,
    pub start: LogPos,
    pub end: Option<LogPos>,
}

impl SegmentView {
    /// The segment holds this global position.
    pub open spec fn covers(self, pos: LogPos) -> bool {
        self.start <= pos && (self.end is Some ==> pos < self.end->0)
    }
}

impl View for ChainSegment {
    type V = SegmentView;

    open spec fn view(&self) -> SegmentView {
        SegmentView { id: self.loglet_id@, start: self.start_pos, end: self.end_pos }
    }
}

impl Clone for ChainSegment {
    fn clone(&self) -> (copy: Self)
        ensures
            copy@ == self@,
    {
        ChainSegment {
            loglet_id: self.loglet_id.clone(),
            start_pos: self.start_pos,
            end_pos: self.end_pos,
        }
    }
}

/// The full log chain: an ordered sequence of segments.
#[derive(Debug)]
pub struct LogChain {
    pub segments: Vec<ChainSegment>,
}

/// The contents of a [`LogChain`].
#[verifier::ext_equal]
pub struct ChainView {
    pub segments: Seq<SegmentView>,
}

impl View for LogChain {
    type V = ChainView;

    open spec fn view(&self) -> ChainView {
        ChainView { segments: self.segments@.map_values(|s: ChainSegment| s@) }
    }
}

impl ChainView {
    /// The chain of one open segment.
    pub open spec fn initial(id: Seq<char>) -> ChainView {
        ChainView { segments: seq![SegmentView { id, start: LOG_POS_BEGIN, end: None }] }
    }

    /// The last segment, where it is open.
    pub open spec fn active(self) -> Option<SegmentView> {
        if self.segments.len() > 0 && self.segments.last().end is None {
            Some(self.segments.last())
        } else {
            None
        }
    }

    /// The `i`-th segment is the first that holds this position.
    pub open spec fn first_at(self, pos: LogPos, i: int) -> bool {
        &&& 0 <= i < self.segments.len()
        &&& self.segments[i].covers(pos)
        &&& forall|j: int| 0 <= j < i ==> !(#[trigger] self.segments[j]).covers(pos)
    }

    /// The first segment that holds this position.
    pub open spec fn find(self, pos: LogPos) -> Option<SegmentView> {
        if exists|i: int| self.first_at(pos, i) {
            Some(self.segments[choose|i: int| self.first_at(pos, i)])
        } else {
            None
        }
    }

    /// The chain with its last segment closed at `seal_pos` and a new open
    /// segment behind it.
    pub open spec fn extended(self, seal_pos: LogPos, id: Seq<char>) -> ChainView {
        let closed = if self.active() is Some {
            self.segments.update(
                self.segments.len() - 1,
                SegmentView { end: Some(seal_pos), ..self.segments.last() },
            )
        } else {
            self.segments
        };
        ChainView { segments: closed.push(SegmentView { id, start: seal_pos, end: None }) }
    }

    /// No segment ends before it starts.
    pub open spec fn sound(self) -> bool {
        forall|i: int|
            0 <= i < self.segments.len() && (#[trigger] self.segments[i]).end is Some
                ==> self.segments[i].start <= self.segments[i].end->0
    }

    /// The segments follow one another without a gap from the first position on,
    /// and the last one is open.
    pub open spec fn contiguous(self) -> bool {
        &&& self.sound()
        &&& self.segments.len() > 0
        &&& self.segments[0].start == LOG_POS_BEGIN
        &&& self.segments.last().end is None
        &&& forall|i: int|
            0 <= i < self.segments.len() ==> LOG_POS_BEGIN <= (#[trigger] self.segments[i]).start
        &&& forall|i: int, j: int|
            0 <= i < j < self.segments.len() && j == i + 1 ==> (#[trigger] self.segments[i]).end
                == Some((#[trigger] self.segments[j]).start)
    }
}

impl LogChain {
    /// Create a new log chain with a single open segment starting at [`LOG_POS_BEGIN`].
    pub fn new(initial_loglet_id: String) -> (chain: Self)
        ensures
            chain@ == ChainView::initial(initial_loglet_id@),
            chain@.contiguous(),
    {
        let mut segments: Vec<ChainSegment> = Vec::new();
        segments.push(
            ChainSegment {
                loglet_id: initial_loglet_id,
                start_pos: LOG_POS_BEGIN,
                end_pos: None,
            },
        );
        let chain = LogChain { segments };
        assert(chain@ == ChainView::initial(initial_loglet_id@));
        chain
    }

    /// Returns the active (last open) segment, i.e., the last segment with end_pos = None.
    pub fn active_segment(&self) -> (r: Option<&ChainSegment>)
        ensures
            match r {
                Some(s) => self@.active() == Some(s@),
                None => self@.active() is None,
            },
    {
        let n: usize = self.segments.len();
        if n > 0 && self.segments[n - 1].end_pos.is_none() {
            Some(&self.segments[n - 1])
        } else {
            None
        }
    }

    /// Find the segment containing the given global position.
    pub fn find_segment(&self, global_pos: LogPos) -> (r: Option<&ChainSegment>)
        ensures
            match r {
                Some(s) => self@.find(global_pos) == Some(s@),
                None => self@.find(global_pos) is None,
            },
    {
        let mut i: usize = 0;
        while i < self.segments.len()
            invariant
                i <= self.segments@.len(),
                forall|j: int| 0 <= j < i ==> !(#[trigger] self@.segments[j]).covers(global_pos),
            decreases self.segments.len() - i,
        {
            let s = &self.segments[i];
            let below_end = match s.end_pos {
                Some(end) => global_pos < end,
                None => true,
            };
            if global_pos >= s.start_pos && below_end {
                proof {
                    assert(self@.segments[i as int] == s@);
                    find_is(self@, global_pos, i as int);
                }
                return Some(s);
            }
            assert(!self@.segments[i as int].covers(global_pos));
            i = i + 1;
        }
        None
    }

    /// Seal the active segment at `seal_pos` and append a new segment with the given loglet.
    pub fn extend(&mut self, seal_pos: LogPos, new_loglet_id: String)
        ensures
            final(self)@ == old(self)@.extended(seal_pos, new_loglet_id@),
    {
        let ghost before = self@;
        let n: usize = self.segments.len();
        if n > 0 && self.segments[n - 1].end_pos.is_none() {
            let last = ChainSegment {
                loglet_id: self.segments[n - 1].loglet_id.clone(),
                start_pos: self.segments[n - 1].start_pos,
                end_pos: Some(seal_pos),
            };
            self.segments.set(n - 1, last);
            assert(self@.segments == before.segments.update(
                before.segments.len() - 1,
                SegmentView { end: Some(seal_pos), ..before.segments.last() },
            ));
        }
        let ghost closed = self@.segments;
        self.segments.push(
            ChainSegment { loglet_id: new_loglet_id, start_pos: seal_pos, end_pos: None },
        );
        assert(self@.segments == closed.push(
            SegmentView { id: new_loglet_id@, start: seal_pos, end: None },
        ));
    }
}

impl Clone for LogChain {
    fn clone(&self) -> (copy: Self)
        ensures
            copy@ == self@,
    {
        let mut segments: Vec<ChainSegment> = Vec::new();
        let mut i: usize = 0;
        while i < self.segments.len()
            invariant
                i <= self.segments@.len(),
                segments@.len() == i,
                forall|j: int| 0 <= j < i ==> (#[trigger] segments@[j])@ == self.segments@[j]@,
            decreases self.segments.len() - i,
        {
            segments.push(self.segments[i].clone());
            i = i + 1;
        }
        let copy = LogChain { segments };
        assert(copy@ == self@);
        copy
    }
}

/// The segment that holds a position and before which none does is the one found.
pub proof fn find_is(chain: ChainView, pos: LogPos, i: int)
    requires
        chain.first_at(pos, i),
    ensures
        chain.find(pos) == Some(chain.segments[i]),
{
    let k = choose|k: int| chain.first_at(pos, k);
    if k < i {
        assert(chain.segments[k].covers(pos));
    } else if i < k {
        assert(chain.segments[i].covers(pos));
    }
}

/// In a contiguous chain a segment ends before a later one starts.
pub proof fn starts_ascend(chain: ChainView, i: int, j: int)
    requires
        chain.contiguous(),
        0 <= i < j < chain.segments.len(),
    ensures
        chain.segments[i].end is Some,
        chain.segments[i].start <= chain.segments[i].end->0 <= chain.segments[j].start,
    decreases j - i,
{
    assert(chain.segments[i].end == Some(chain.segments[i + 1].start));
    if i + 1 < j {
        starts_ascend(chain, i + 1, j);
    }
}

/// In a contiguous chain the segment that holds a position is the only one.
pub proof fn contiguous_find(chain: ChainView, pos: LogPos, i: int)
    requires
        chain.contiguous(),
        0 <= i < chain.segments.len(),
        chain.segments[i].covers(pos),
    ensures
        chain.first_at(pos, i),
        chain.find(pos) == Some(chain.segments[i]),
{
    assert forall|j: int| 0 <= j < i implies !(#[trigger] chain.segments[j]).covers(pos) by {
        starts_ascend(chain, j, i);
    }
    find_is(chain, pos, i);
}

/// In a contiguous chain every position of the log is in some segment.
pub proof fn contiguous_covers(chain: ChainView, pos: LogPos) -> (i: int)
    requires
        chain.contiguous(),
        LOG_POS_BEGIN <= pos,
    ensures
        0 <= i < chain.segments.len(),
        chain.segments[i].covers(pos),
{
    covers_from(chain, pos, 0)
}

proof fn covers_from(chain: ChainView, pos: LogPos, k: int) -> (i: int)
    requires
        chain.contiguous(),
        0 <= k < chain.segments.len(),
        chain.segments[k].start <= pos,
    ensures
        0 <= i < chain.segments.len(),
        chain.segments[i].covers(pos),
    decreases chain.segments.len() - k,
{
    if chain.segments[k].covers(pos) {
        k
    } else {
        assert(k < chain.segments.len() - 1);
        assert(chain.segments[k].end == Some(chain.segments[k + 1].start));
        covers_from(chain, pos, k + 1)
    }
}

/// A contiguous chain that is extended at or behind the start of its last
/// segment stays contiguous. Positions before the seal position keep their
/// loglet and their place in it; positions from it on go to the new loglet.
pub proof fn extend_splits(chain: ChainView, seal_pos: LogPos, id: Seq<char>, pos: LogPos)
    requires
        chain.contiguous(),
        chain.segments.last().start <= seal_pos,
        LOG_POS_BEGIN <= pos,
    ensures
        chain.extended(seal_pos, id).contiguous(),
        chain.extended(seal_pos, id).active() == Some(
            (SegmentView { id, start: seal_pos, end: None }),
        ),
        pos < seal_pos ==> chain.find(pos) is Some && chain.extended(seal_pos, id).find(pos) is Some
            && chain.extended(seal_pos, id).find(pos)->0.id == chain.find(pos)->0.id
            && chain.extended(seal_pos, id).find(pos)->0.start == chain.find(pos)->0.start,
        pos >= seal_pos ==> chain.extended(seal_pos, id).find(pos) == Some(
            (SegmentView { id, start: seal_pos, end: None }),
        ),
{
    let longer = chain.extended(seal_pos, id);
    let n = chain.segments.len() as int;
    assert forall|i: int| 0 <= i < longer.segments.len() - 1 implies (
    #[trigger] longer.segments[i]).end == Some(longer.segments[i + 1].start) by {
        if i < n - 1 {
            assert(chain.segments[i].end == Some(chain.segments[i + 1].start));
        }
    }
    assert forall|i: int| 0 <= i < longer.segments.len() implies LOG_POS_BEGIN <= (
    #[trigger] longer.segments[i]).start && (longer.segments[i].end is Some
        ==> longer.segments[i].start <= longer.segments[i].end->0) by {
        if i < n {
            assert(longer.segments[i].start == chain.segments[i].start);
        }
        assert(LOG_POS_BEGIN <= chain.segments[n - 1].start);
    }
    let i = contiguous_covers(chain, pos);
    contiguous_find(chain, pos, i);
    if pos < seal_pos {
        assert(longer.segments[i].covers(pos));
        contiguous_find(longer, pos, i);
    } else {
        contiguous_find(longer, pos, n);
    }
}

/// In a new chain every position belongs to the initial loglet.
pub proof fn initial_covers(id: Seq<char>, pos: LogPos)
    requires
        LOG_POS_BEGIN <= pos,
    ensures
        ChainView::initial(id).contiguous(),
        ChainView::initial(id).find(pos) == Some(
            (SegmentView { id, start: LOG_POS_BEGIN, end: None }),
        ),
        ChainView::initial(id).active() == ChainView::initial(id).find(pos),
{
    contiguous_find(ChainView::initial(id), pos, 0);
}

} // verus!

//! The parts of a replicated loglet: the sequencer that assigns positions and the
//! log servers that store entries.

use std::collections::BTreeMap;

use vstd::prelude::*;

use crate::base::entry::{Entry, EntryView};
use crate::base::types::{LogPos, LOG_POS_BEGIN};

verus! {

broadcast use vstd::std_specs::btree::group_btree_axioms;

/// A request to the sequencer.
pub enum SequencerRequest {
    /// Get the next position to assign.
    NextPos,
    /// Seal the sequencer.
    Seal,
    /// Query the current tail without advancing it.
    CheckTail,
}

/// The sequencer's reply.
pub enum SequencerReply {
    /// The assigned position, or none where the sequencer is sealed.
    Assigned(Option<LogPos>),
    /// The next position.
    Tail(LogPos),
}

/// Assigns monotonic positions to append requests.
pub struct Sequencer {
    pub next_pos: LogPos,
    pub sealed: bool,
}

impl Sequencer {
    /// A sequencer that has assigned nothing.
    pub fn new() -> (s: Self)
        ensures
            s == (Sequencer { next_pos: LOG_POS_BEGIN, sealed: false }),
    {
        Sequencer { next_pos: LOG_POS_BEGIN, sealed: false }
    }

    /// The next position to assign. Returns None if sealed.
    pub fn next_pos(&mut self) -> (r: Option<LogPos>)
        requires
            old(self).sealed || old(self).next_pos < u64::MAX,
        ensures
            old(self).sealed ==> r is None && *final(self) == *old(self),
            !old(self).sealed ==> r == Some(old(self).next_pos) && *final(self) == (Sequencer {
                next_pos: (old(self).next_pos + 1) as LogPos,
                sealed: false,
            }),
    {
        if self.sealed {
            None
        } else {
            let pos: LogPos = self.next_pos;
            self.next_pos = pos + 1;
            Some(pos)
        }
    }

    /// Seal the sequencer. Returns the next position (tail) at seal time.
    pub fn seal(&mut self) -> (tail: LogPos)
        ensures
            tail == old(self).next_pos,
            *final(self) == (Sequencer { next_pos: old(self).next_pos, sealed: true }),
    {
        self.sealed = true;
        self.next_pos
    }

    /// The current tail.
    pub fn check_tail(&self) -> (tail: LogPos)
        ensures
            tail == self.next_pos,
    {
        self.next_pos
    }

    /// Serves one request.
    pub fn handle(&mut self, request: SequencerRequest) -> (reply: SequencerReply)
        requires
            request is NextPos ==> old(self).sealed || old(self).next_pos < u64::MAX,
        ensures
            match request {
                SequencerRequest::NextPos => if old(self).sealed {
                    reply == SequencerReply::Assigned(None) && *final(self) == *old(self)
                } else {
                    reply == SequencerReply::Assigned(Some(old(self).next_pos)) && *final(self) == (
                    Sequencer {
                        next_pos: (old(self).next_pos + 1) as LogPos,
                        sealed: false,
                    })
                },
                SequencerRequest::Seal => reply == SequencerReply::Tail(old(self).next_pos)
                    && *final(self) == (Sequencer { next_pos: old(self).next_pos, sealed: true }),
                SequencerRequest::CheckTail => reply == SequencerReply::Tail(old(self).next_pos)
                    && *final(self) == *old(self),
            },
    {
        match request {
            SequencerRequest::NextPos => SequencerReply::Assigned(self.next_pos()),
            SequencerRequest::Seal => SequencerReply::Tail(self.seal()),
            SequencerRequest::CheckTail => SequencerReply::Tail(self.check_tail()),
        }
    }
}

/// What a log server answers to a read.
pub enum ReadResult {
    Entry(Entry),
    Trimmed,
    NotFound,
}

/// The contents of a [`ReadResult`].
#[verifier::ext_equal]
pub enum ReadView {
    Entry(EntryView),
    Trimmed,
    NotFound,
}

impl View for ReadResult {
    type V = ReadView;

    open spec fn view(&self) -> ReadView {
        match self {
            ReadResult::Entry(e) => ReadView::Entry(e@),
            ReadResult::Trimmed => ReadView::Trimmed,
            ReadResult::NotFound => ReadView::NotFound,
        }
    }
}

/// A request to a log server.
pub enum LogServerRequest {
    /// Store an entry at the given position.
    Store { pos: LogPos, entry: Entry },
    /// Read the entry at the given position.
    Read { pos: LogPos },
    /// Seal this log server.
    Seal,
    /// Trim all entries before the given position.
    Trim { pos: LogPos },
}

/// A log server's reply.
pub enum LogServerReply {
    /// Ok(true) if stored, Ok(false) if already occupied, Err with the tail if sealed.
    Stored(Result<bool, LogPos>),
    Read(ReadResult),
    /// The local tail (next expected position).
    Sealed(LogPos),
    Trimmed,
}

/// The contents of a log server.
#[verifier::ext_equal]
pub struct ServerView {
    pub entries: Map<LogPos, EntryView>,
    pub sealed: bool,
    pub trim: LogPos,
    pub tail: LogPos,
}

impl ServerView {
    /// A server that stores nothing.
    pub open spec fn empty() -> ServerView {
        ServerView {
            entries: Map::empty(),
            sealed: false,
            trim: LOG_POS_BEGIN,
            tail: LOG_POS_BEGIN,
        }
    }

    /// A store at the position leaves a tail behind it.
    pub open spec fn takes(self, pos: LogPos) -> bool {
        pos < u64::MAX || self.sealed || self.entries.contains_key(pos)
    }

    /// What a store changes and what it answers.
    pub open spec fn store(self, pos: LogPos, entry: EntryView) -> (
        ServerView,
        Result<bool, LogPos>,
    ) {
        if self.sealed {
            (self, Err(self.tail))
        } else if self.entries.contains_key(pos) {
            (self, Ok(false))
        } else {
            (
                ServerView {
                    entries: self.entries.insert(pos, entry),
                    tail: if pos >= self.tail {
                        (pos + 1) as LogPos
                    } else {
                        self.tail
                    },
                    ..self
                },
                Ok(true),
            )
        }
    }

    /// What is answered to a read.
    pub open spec fn read(self, pos: LogPos) -> ReadView {
        if pos < self.trim {
            ReadView::Trimmed
        } else if self.entries.contains_key(pos) {
            ReadView::Entry(self.entries[pos])
        } else {
            ReadView::NotFound
        }
    }

    /// The server after it was sealed.
    pub open spec fn closed(self) -> ServerView {
        ServerView { sealed: true, ..self }
    }

    /// The server without what it stored before `pos`.
    pub open spec fn trimmed(self, pos: LogPos) -> ServerView {
        if pos > self.trim {
            ServerView {
                trim: pos,
                entries: Map::new(
                    |p: LogPos| self.entries.contains_key(p) && pos <= p,
                    |p: LogPos| self.entries[p],
                ),
                ..self
            }
        } else {
            self
        }
    }
}

/// Stores entries at assigned positions.
pub struct LogServer {
    entries: BTreeMap<LogPos, Entry>,
    sealed: bool,
    trim_pos: LogPos,
    /// The highest position stored + 1.
    tail: LogPos,
}

impl View for LogServer {
    type V = ServerView;

    closed spec fn view(&self) -> ServerView {
        ServerView {
            entries: Map::new(
                |p: LogPos| self.entries@.contains_key(p),
                |p: LogPos| self.entries@[p]@,
            ),
            sealed: self.sealed,
            trim: self.trim_pos,
            tail: self.tail,
        }
    }
}

impl LogServer {
    /// A server that stores nothing.
    pub fn new() -> (s: Self)
        ensures
            s@ == ServerView::empty(),
    {
        let s = LogServer {
            entries: BTreeMap::new(),
            sealed: false,
            trim_pos: LOG_POS_BEGIN,
            tail: LOG_POS_BEGIN,
        };
        assert(s@ == ServerView::empty());
        s
    }

    /// Store an entry at the given position. Returns Ok(true) if stored,
    /// Ok(false) if already occupied, Err if sealed.
    pub fn store(&mut self, pos: LogPos, entry: Entry) -> (r: Result<bool, LogPos>)
        requires
            old(self)@.takes(pos),
        ensures
            (final(self)@, r) == old(self)@.store(pos, entry@),
    {
        if self.sealed {
            Err(self.tail)
        } else if self.entries.contains_key(&pos) {
            Ok(false)
        } else {
            self.entries.insert(pos, entry);
            if pos >= self.tail {
                self.tail = pos + 1;
            }
            assert(self@.entries == old(self)@.entries.insert(pos, entry@));
            Ok(true)
        }
    }

    /// Read the entry at the given position.
    pub fn read(&self, pos: LogPos) -> (r: ReadResult)
        ensures
            r@ == self@.read(pos),
    {
        if pos < self.trim_pos {
            return ReadResult::Trimmed;
        }
        match self.entries.get(&pos) {
            Some(entry) => ReadResult::Entry(entry.clone()),
            None => ReadResult::NotFound,
        }
    }

    /// Seal this log server. Returns the local tail (next expected position).
    pub fn seal(&mut self) -> (tail: LogPos)
        ensures
            tail == old(self)@.tail,
            final(self)@ == old(self)@.closed(),
    {
        self.sealed = true;
        assert(self@ == old(self)@.closed());
        self.tail
    }

    /// The stored positions before `pos`.
    fn stored_before(&self, pos: LogPos) -> (r: Vec<LogPos>)
        ensures
            forall|p: LogPos|
                r@.contains(p) <==> #[trigger] self.entries@.contains_key(p) && p < pos,
    {
        let mut out: Vec<LogPos> = Vec::new();
        let ghost mut seen: Seq<LogPos> = Seq::empty();
        let ghost all: Seq<LogPos> = vstd::std_specs::iter::IteratorSpec::remaining(
            &self.entries.keys(),
        ).unref();
        for key in iter: self.entries.keys()
            invariant
                all == iter.seq().unref(),
                all.to_set() == self.entries@.dom(),
                seen == all.take(iter.index() as int),
                forall|p: LogPos| #[trigger] out@.contains(p) <==> p < pos && seen.contains(p),
        {
            let ghost before = out@;
            let ghost earlier = seen;
            proof {
                seen = seen.push(*key);
                assert(seen == all.take(iter.index() + 1));
                push_contains(earlier, *key);
                push_contains(before, *key);
            }
            if *key < pos {
                out.push(*key);
            }
        }
        proof {
            assert(seen == all);
            assert forall|p: LogPos| out@.contains(p) <==> #[trigger] self.entries@.contains_key(p)
                && p < pos by {
                assert(self.entries@.dom().contains(p) <==> seen.to_set().contains(p));
                assert(seen.to_set().contains(p) <==> seen.contains(p));
            }
        }
        out
    }

    /// Trim all entries before the given position.
    pub fn trim(&mut self, pos: LogPos)
        ensures
            final(self)@ == old(self)@.trimmed(pos),
    {
        if pos > self.trim_pos {
            self.trim_pos = pos;
            let to_remove = self.stored_before(pos);
            let mut i: usize = 0;
            while i < to_remove.len()
                invariant
                    i <= to_remove@.len(),
                    self.sealed == old(self).sealed,
                    self.tail == old(self).tail,
                    self.trim_pos == pos,
                    forall|p: LogPos| #[trigger]
                        self.entries@.contains_key(p) <==> old(self).entries@.contains_key(p)
                            && !to_remove@.take(i as int).contains(p),
                    forall|p: LogPos| #[trigger]
                        self.entries@.contains_key(p) ==> self.entries@[p] == old(self).entries@[p],
                decreases to_remove.len() - i,
            {
                self.entries.remove(&to_remove[i]);
                proof {
                    let longer = to_remove@.take(i + 1);
                    assert(longer == to_remove@.take(i as int).push(to_remove@[i as int]));
                    push_contains(to_remove@.take(i as int), to_remove@[i as int]);
                }
                i = i + 1;
            }
            proof {
                assert(to_remove@.take(i as int) == to_remove@);
                assert(self@.entries =~= old(self)@.trimmed(pos).entries);
            }
        }
    }

    /// Serves one request.
    pub fn handle(&mut self, request: LogServerRequest) -> (reply: LogServerReply)
        requires
            request is Store ==> old(self)@.takes(request->Store_pos),
        ensures
            match (request, reply) {
                (LogServerRequest::Store { pos, entry }, LogServerReply::Stored(r)) => (
                    final(self)@,
                    r,
                ) == old(self)@.store(pos, entry@),
                (LogServerRequest::Read { pos }, LogServerReply::Read(r)) => r@ == old(self)@.read(
                    pos,
                ) && final(self)@ == old(self)@,
                (LogServerRequest::Seal, LogServerReply::Sealed(tail)) => tail == old(self)@.tail
                    && final(self)@ == old(self)@.closed(),
                (LogServerRequest::Trim { pos }, LogServerReply::Trimmed) => final(self)@ == old(
                    self,
                )@.trimmed(pos),
                _ => false,
            },
    {
        match request {
            LogServerRequest::Store { pos, entry } => LogServerReply::Stored(
                self.store(pos, entry),
            ),
            LogServerRequest::Read { pos } => LogServerReply::Read(self.read(pos)),
            LogServerRequest::Seal => LogServerReply::Sealed(self.seal()),
            LogServerRequest::Trim { pos } => {
                self.trim(pos);
                LogServerReply::Trimmed
            },
        }
    }
}

proof fn push_contains(s: Seq<LogPos>, x: LogPos)
    ensures
        forall|p: LogPos| #[trigger] s.push(x).contains(p) <==> s.contains(p) || p == x,
{
    assert forall|p: LogPos| #[trigger] s.push(x).contains(p) <==> s.contains(p) || p == x by {
        let t = s.push(x);
        if s.contains(p) {
            let i = choose|i: int| 0 <= i < s.len() && s[i] == p;
            assert(t[i] == p);
        }
        if p == x {
            assert(t[s.len() as int] == p);
        }
    }
}

} // verus!

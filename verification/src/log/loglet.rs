//! The loglet trait.

use vstd::prelude::*;

use crate::base::entry::{Entry, EntryView};
use crate::base::error::{ErrorView, RelosError};
use crate::base::text;
use crate::base::types::{Count, LogPos, LOG_POS_BEGIN};

verus! {

/// What a log holds.
#[verifier::ext_equal]
pub struct LogView {
    /// The next position that would be assigned.
    pub tail: LogPos,
    /// Whether the log refuses appends.
    pub sealed: bool,
    /// The first position that was not trimmed.
    pub trim: LogPos,
    /// The entries that can be read.
    pub entries: Map<LogPos, EntryView>,
}

impl LogView {
    /// An open log without entries.
    pub open spec fn empty() -> LogView {
        LogView { tail: LOG_POS_BEGIN, sealed: false, trim: LOG_POS_BEGIN, entries: Map::empty() }
    }

    /// Positions begin at [`LOG_POS_BEGIN`], and the entries lie between the trim
    /// position and the tail.
    pub open spec fn wf(self) -> bool {
        &&& LOG_POS_BEGIN <= self.tail
        &&& LOG_POS_BEGIN <= self.trim
        &&& forall|p: LogPos| #[trigger]
            self.entries.contains_key(p) ==> self.trim <= p < self.tail
    }

    /// Every position between the trim position and the tail holds an entry.
    pub open spec fn dense(self) -> bool {
        forall|p: LogPos| self.trim <= p < self.tail ==> #[trigger] self.entries.contains_key(p)
    }

    /// The log with one more entry. An entry below the trim position takes up its
    /// position and cannot be read.
    pub open spec fn appended(self, entry: EntryView) -> LogView {
        LogView {
            tail: (self.tail + 1) as LogPos,
            entries: if self.trim <= self.tail {
                self.entries.insert(self.tail, entry)
            } else {
                self.entries
            },
            ..self
        }
    }

    /// The log without the entries before `pos`.
    pub open spec fn trimmed(self, pos: LogPos) -> LogView {
        if pos > self.trim {
            LogView {
                trim: pos,
                entries: Map::new(
                    |p: LogPos| self.entries.contains_key(p) && pos <= p,
                    |p: LogPos| self.entries[p],
                ),
                ..self
            }
        } else {
            self
        }
    }

    /// The log after it was sealed.
    pub open spec fn closed(self) -> LogView {
        LogView { sealed: true, ..self }
    }

    /// A sealed log that goes on: what was trimmed at and behind its tail is
    /// open again.
    pub open spec fn reopened(self) -> LogView {
        LogView {
            sealed: false,
            trim: if self.trim <= self.tail {
                self.trim
            } else {
                self.tail
            },
            ..self
        }
    }

    /// The log with one more entry, also where it was sealed and goes on.
    pub open spec fn extended(self, entry: EntryView) -> LogView {
        if self.sealed {
            self.reopened().appended(entry)
        } else {
            self.appended(entry)
        }
    }

    /// The entry at a position, where one can be read.
    pub open spec fn entry(self, pos: LogPos) -> Option<EntryView> {
        if self.entries.contains_key(pos) {
            Some(self.entries[pos])
        } else {
            None
        }
    }
}

/// What a read gave.
pub open spec fn read_view(r: Option<Entry>) -> Option<EntryView> {
    match r {
        Some(e) => Some(e@),
        None => None,
    }
}

/// The text that reports a position that no segment of a chain holds.
pub open spec fn no_segment_text(pos: LogPos) -> Seq<char> {
    "no segment found for position "@ + text::decimal_text(pos as nat)
}

/// The error with which a read before the trim position is refused: it names the
/// position. Before the first position a chain has no segment, and says so.
pub open spec fn refusal(chained: bool, pos: LogPos) -> ErrorView {
    if chained && pos < LOG_POS_BEGIN {
        ErrorView::Internal(no_segment_text(pos))
    } else {
        ErrorView::Trimmed(pos)
    }
}

/// The Loglet trait — minimal shared log interface.
///
/// A loglet is a pluggable log segment implementation. Each loglet maintains
/// its own position space starting at [`LOG_POS_BEGIN`].
///
/// A loglet that is `reliable` reports no errors but those that are stated here. Of
/// any loglet whose contents are `coherent`, success means what is stated here.
pub trait Loglet {
    /// The loglet is in a valid state.
    spec fn inv(&self) -> bool;

    /// What the loglet holds.
    spec fn log(&self) -> LogView;

    /// The loglet is in a state in which it does not fail.
    spec fn reliable(&self) -> bool;

    /// What the loglet holds is one log. A chain may hold less: its segments need
    /// not follow one another.
    spec fn coherent(&self) -> bool;

    /// The position space holds `n` more entries.
    spec fn has_room(&self, n: Count) -> bool;

    /// Whether the loglet is itself a chain of loglets. It then goes on by itself
    /// after it was sealed, in place of refusing appends.
    spec fn chained(&self) -> bool;

    /// A loglet that is no chain has room up to the last position.
    proof fn room_below_limit(&self, n: Count)
        requires
            self.inv(),
            self.log().tail + n <= u64::MAX,
        ensures
            !self.chained() ==> self.has_room(n),
    ;

    /// Where there is room for some entries there is room for fewer.
    proof fn fewer_fit(&self, n: Count, k: Count)
        requires
            self.inv(),
            self.has_room(n),
            k <= n,
        ensures
            self.has_room(k),
    ;

    /// Only a chain that may fail can hold less than one log.
    proof fn others_are_coherent(&self)
        requires
            self.inv(),
        ensures
            self.reliable() || !self.chained() ==> self.coherent(),
    ;

    /// What a coherent loglet holds is well-formed.
    proof fn log_is_wf(&self)
        requires
            self.inv(),
            self.coherent(),
        ensures
            self.log().wf(),
    ;

    /// Append an entry. Returns the assigned position.
    /// Returns Err(Sealed) if the loglet has been sealed.
    fn append(&mut self, entry: &Entry) -> (r: Result<LogPos, RelosError>)
        requires
            old(self).inv(),
            old(self).has_room(1),
        ensures
            final(self).inv(),
            old(self).reliable() ==> final(self).reliable(),
            old(self).reliable() || old(self).coherent() && r is Ok ==> forall|n: nat|
                old(self).has_room(n + 1) ==> #[trigger] final(self).has_room(n),
            final(self).chained() == old(self).chained(),
            r is Ok ==> r->Ok_0 < u64::MAX,
            r is Ok ==> !old(self).log().sealed || old(self).chained(),
            r is Ok && !old(self).log().sealed ==> r->Ok_0 == old(self).log().tail,
            r is Err && r->Err_0 is Sealed ==> old(self).log().sealed,
            r is Err && r->Err_0 is Sealed && !old(self).chained() ==> final(self).log() == old(
                self,
            ).log(),
            old(self).coherent() && r is Ok ==> {
                &&& final(self).coherent()
                &&& r->Ok_0 == old(self).log().tail
                &&& final(self).log() == old(self).log().extended(entry@)
            },
            old(self).reliable() && (!old(self).log().sealed || old(self).chained()) ==> r is Ok,
            old(self).reliable() && old(self).log().sealed && !old(self).chained() ==> r is Err
                && r->Err_0@ == ErrorView::Sealed(old(self).log().tail) && final(self).log()
                == old(self).log(),
    ;

    /// Returns the next position that would be assigned (tail = last_written + 1).
    fn check_tail(&self) -> (r: Result<LogPos, RelosError>)
        requires
            self.inv(),
        ensures
            self.reliable() ==> r is Ok,
            r is Ok ==> r->Ok_0 == self.log().tail,
    ;

    /// Read the entry at exactly `pos`. Returns None if no entry at that position yet.
    fn read(&self, pos: LogPos) -> (r: Result<Option<Entry>, RelosError>)
        requires
            self.inv(),
        ensures
            self.coherent() && r is Ok ==> self.log().trim <= pos && read_view(r->Ok_0)
                == self.log().entry(pos),
            self.reliable() && self.log().trim <= pos ==> r is Ok,
            self.reliable() && pos < self.log().trim ==> r is Err && r->Err_0@ == refusal(
                self.chained(),
                pos,
            ),
    ;

    /// Trim all entries before `pos` (exclusive). Trimmed positions return Err(Trimmed).
    fn trim(&mut self, pos: LogPos) -> (r: Result<(), RelosError>)
        requires
            old(self).inv(),
        ensures
            final(self).inv(),
            final(self).chained() == old(self).chained(),
            old(self).reliable() ==> final(self).reliable() && r is Ok,
            old(self).coherent() && r is Ok ==> {
                &&& final(self).coherent()
                &&& final(self).log() == old(self).log().trimmed(pos)
                &&& forall|n: nat| old(self).has_room(n) ==> #[trigger] final(self).has_room(n)
            },
    ;

    /// Seal the loglet. After sealing, all appends return Err(Sealed), except
    /// where the loglet is a chain and goes on by itself.
    /// Returns the final tail position (the position after the last entry).
    fn seal(&mut self) -> (r: Result<LogPos, RelosError>)
        requires
            old(self).inv(),
        ensures
            final(self).inv(),
            final(self).chained() == old(self).chained(),
            old(self).reliable() ==> final(self).reliable() && r is Ok,
            r is Ok ==> forall|n: nat|
                old(self).has_room(n) ==> #[trigger] final(self).has_room(n),
            r is Ok ==> r->Ok_0 == old(self).log().tail && final(self).log() == old(
                self,
            ).log().closed(),
            r is Ok && old(self).coherent() ==> final(self).coherent(),
    ;
}

} // verus!

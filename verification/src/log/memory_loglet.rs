//! An in-memory loglet.

use vstd::prelude::*;

use crate::base::entry::Entry;
use crate::base::error::RelosError;
use crate::base::types::{LogPos, LOG_POS_BEGIN};
use crate::log::loglet::{LogView, Loglet};
use crate::log::virtual_log::LogletFactory;

verus! {

/// In-memory loglet implementation.
pub struct MemoryLoglet {
    entries: Vec<Option<Entry>>,
    sealed: bool,
    trim_pos: LogPos,
}

impl MemoryLoglet {
    pub closed spec fn valid(&self) -> bool {
        &&& self.entries@.len() < u64::MAX
        &&& LOG_POS_BEGIN <= self.trim_pos
        &&& forall|i: int|
            0 <= i < self.entries@.len() && self.trim_pos <= i + LOG_POS_BEGIN
                ==> #[trigger] self.entries@[i] is Some
    }

    pub closed spec fn model(&self) -> LogView {
        let tail = (self.entries@.len() + LOG_POS_BEGIN) as LogPos;
        LogView {
            tail,
            sealed: self.sealed,
            trim: self.trim_pos,
            entries: Map::new(
                |p: LogPos| self.trim_pos <= p < tail,
                |p: LogPos| self.entries@[p - LOG_POS_BEGIN]->0@,
            ),
        }
    }

    /// A loglet has no gap: every position below the tail that was not trimmed holds
    /// an entry.
    pub proof fn has_no_gap(&self)
        requires
            self.inv(),
        ensures
            self.log().dense(),
    {
    }

    /// An open loglet without entries.
    pub fn new() -> (loglet: Self)
        ensures
            loglet.inv(),
            loglet.log() == LogView::empty(),
    {
        let loglet = MemoryLoglet { entries: Vec::new(), sealed: false, trim_pos: LOG_POS_BEGIN };
        assert(loglet.log() == LogView::empty());
        loglet
    }

    fn tail(&self) -> (tail: LogPos)
        requires
            self.inv(),
        ensures
            tail == self.log().tail,
            tail == self.entries@.len() + LOG_POS_BEGIN,
    {
        self.entries.len() as LogPos + LOG_POS_BEGIN
    }
}

impl Default for MemoryLoglet {
    fn default() -> (loglet: Self)
        ensures
            loglet.inv(),
            loglet.log() == LogView::empty(),
    {
        Self::new()
    }
}

impl Loglet for MemoryLoglet {
    open spec fn inv(&self) -> bool {
        self.valid()
    }

    open spec fn log(&self) -> LogView {
        self.model()
    }

    open spec fn reliable(&self) -> bool {
        true
    }

    open spec fn coherent(&self) -> bool {
        true
    }

    open spec fn has_room(&self, n: nat) -> bool {
        self.log().tail + n <= u64::MAX
    }

    open spec fn chained(&self) -> bool {
        false
    }

    proof fn room_below_limit(&self, n: nat) {
    }

    proof fn fewer_fit(&self, n: nat, k: nat) {
    }

    proof fn others_are_coherent(&self) {
    }

    proof fn log_is_wf(&self) {
    }

    fn append(&mut self, entry: &Entry) -> (r: Result<LogPos, RelosError>) {
        let tail: LogPos = self.tail();
        if self.sealed {
            return Err(RelosError::Sealed(tail));
        }
        self.entries.push(Some(entry.clone()));
        assert(self.log() == old(self).log().appended(entry@));
        Ok(tail)
    }

    fn check_tail(&self) -> (r: Result<LogPos, RelosError>) {
        Ok(self.tail())
    }

    fn read(&self, pos: LogPos) -> (r: Result<Option<Entry>, RelosError>) {
        if pos < self.trim_pos {
            return Err(RelosError::Trimmed(pos));
        }
        if pos >= self.tail() {
            return Ok(None);
        }
        let count: usize = self.entries.len();
        assert(pos - LOG_POS_BEGIN < count);
        let index: usize = (pos - LOG_POS_BEGIN) as usize;
        match &self.entries[index] {
            Some(entry) => Ok(Some(entry.clone())),
            None => Ok(None),
        }
    }

    fn trim(&mut self, pos: LogPos) -> (r: Result<(), RelosError>) {
        if pos > self.trim_pos {
            let tail: LogPos = self.tail();
            let end: LogPos = if pos < tail {
                pos
            } else {
                tail
            };
            self.trim_pos = pos;
            let ghost whole = self.entries@;
            let mut p: LogPos = LOG_POS_BEGIN;
            while p < end
                invariant
                    LOG_POS_BEGIN <= p <= end <= pos,
                    end <= whole.len() + LOG_POS_BEGIN,
                    whole == old(self).entries@,
                    self.entries@.len() == whole.len(),
                    self.trim_pos == pos,
                    self.sealed == old(self).sealed,
                    forall|i: int|
                        p - LOG_POS_BEGIN <= i < whole.len() ==> #[trigger] self.entries@[i]
                            == whole[i],
                decreases end - p,
            {
                let index: usize = (p - LOG_POS_BEGIN) as usize;
                self.entries.set(index, None);
                p = p + 1;
            }
            assert(self.log() == old(self).log().trimmed(pos));
        }
        Ok(())
    }

    fn seal(&mut self) -> (r: Result<LogPos, RelosError>) {
        self.sealed = true;
        assert(self.log() == old(self).log().closed());
        Ok(self.tail())
    }
}

/// Factory that creates MemoryLoglet instances.
pub struct MemoryLogletFactory;

impl LogletFactory for MemoryLogletFactory {
    type Log = MemoryLoglet;

    open spec fn usable(&self) -> bool {
        true
    }

    open spec fn reliable(&self) -> bool {
        true
    }

    fn create(&self, loglet_id: &str) -> (r: Result<MemoryLoglet, RelosError>) {
        Ok(MemoryLoglet::new())
    }
}

} // verus!

//! The register that holds the chain.

use vstd::prelude::*;

use crate::base::error::RelosError;
use crate::log::chain::{ChainView, LogChain};

verus! {

/// MetaStore — versioned register for log chain configuration.
///
/// The MetaStore stores the current LogChain and a version number.
/// Updates use compare-and-swap on the version for consistency.
///
/// An operation that succeeds does exactly what is stated here. A register that
/// is `reliable` does not fail.
pub trait MetaStore {
    /// The chain in the register.
    spec fn chain(&self) -> ChainView;

    /// The number of writes that succeeded.
    spec fn version(&self) -> u64;

    /// The register is in a state in which it does not fail.
    spec fn reliable(&self) -> bool;

    /// Read current chain and its version.
    fn read(&self) -> (r: Result<(LogChain, u64), RelosError>)
        ensures
            self.reliable() ==> r is Ok,
            r is Ok ==> r->Ok_0.0@ == self.chain() && r->Ok_0.1 == self.version(),
    ;

    /// Conditionally write new chain (CAS on version). Returns true if successful.
    fn write(&mut self, chain: LogChain, expected_version: u64) -> (r: Result<bool, RelosError>)
        requires
            old(self).version() < u64::MAX,
        ensures
            final(self).reliable() == old(self).reliable(),
            old(self).reliable() ==> r is Ok,
            r is Ok ==> r->Ok_0 == (old(self).version() == expected_version),
            r is Ok && r->Ok_0 ==> final(self).chain() == chain@ && final(self).version() == old(
                self,
            ).version() + 1,
            r is Ok && !r->Ok_0 ==> final(self).chain() == old(self).chain()
                && final(self).version() == old(self).version(),
    ;
}

/// In-memory MetaStore implementation.
pub struct MemoryMetaStore {
    chain: LogChain,
    version: u64,
}

impl MemoryMetaStore {
    pub closed spec fn held(&self) -> (ChainView, u64) {
        (self.chain@, self.version)
    }

    /// A register that holds `initial_chain` at version 0.
    pub fn new(initial_chain: LogChain) -> (store: Self)
        ensures
            store.chain() == initial_chain@,
            store.version() == 0,
    {
        MemoryMetaStore { chain: initial_chain, version: 0 }
    }
}

impl MetaStore for MemoryMetaStore {
    open spec fn chain(&self) -> ChainView {
        self.held().0
    }

    open spec fn version(&self) -> u64 {
        self.held().1
    }

    open spec fn reliable(&self) -> bool {
        true
    }

    fn read(&self) -> (r: Result<(LogChain, u64), RelosError>) {
        Ok((self.chain.clone(), self.version))
    }

    fn write(&mut self, chain: LogChain, expected_version: u64) -> (r: Result<bool, RelosError>) {
        if self.version != expected_version {
            return Ok(false);
        }
        self.chain = chain;
        self.version = self.version + 1;
        Ok(true)
    }
}

} // verus!

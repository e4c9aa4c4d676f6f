//! An in-memory store.

use vstd::prelude::*;

use crate::base::error::RelosError;
use crate::store::sorted_map;
use crate::store::sorted_map::{Contents, SortedMap};
use crate::store::traits::{LocalStore, ReadTransaction, WriteTransaction};

verus! {

/// In-memory [`LocalStore`] backed by a map in key order.
///
/// Write transactions copy the map, change the copy, and put it in the place of
/// the map on commit. Read transactions copy the map for snapshot isolation.
pub struct MemoryStore {
    data: SortedMap,
}

impl MemoryStore {
    /// What is committed.
    pub closed spec fn data(&self) -> Contents {
        self.data@
    }

    /// Create a new, empty in-memory store.
    pub fn new() -> (store: Self)
        ensures
            store.contents() == Contents::empty(),
    {
        MemoryStore { data: SortedMap::new() }
    }
}

impl Default for MemoryStore {
    fn default() -> (store: Self)
        ensures
            store.contents() == Contents::empty(),
    {
        Self::new()
    }
}

impl LocalStore for MemoryStore {
    type ReadTxn = MemoryReadTx;

    type WriteTxn = MemoryWriteTx;

    open spec fn contents(&self) -> Contents {
        self.data()
    }

    open spec fn reliable(&self) -> bool {
        true
    }

    fn begin_write_txn(&self) -> (r: Result<MemoryWriteTx, RelosError>) {
        Ok(MemoryWriteTx { working: self.data.clone() })
    }

    fn begin_read_txn(&self) -> (r: Result<MemoryReadTx, RelosError>) {
        Ok(MemoryReadTx { snapshot: self.data.clone() })
    }

    fn commit(&mut self, txn: MemoryWriteTx) -> (r: Result<(), RelosError>) {
        self.data = txn.working;
        Ok(())
    }

    fn rollback(&self, txn: MemoryWriteTx) -> (r: Result<(), RelosError>) {
        Ok(())
    }

    /// Nothing is buffered.
    fn flush(&mut self) -> (r: Result<(), RelosError>) {
        Ok(())
    }
}

/// A snapshot of a [`MemoryStore`].
pub struct MemoryReadTx {
    snapshot: SortedMap,
}

impl MemoryReadTx {
    pub closed spec fn snapshot(&self) -> Contents {
        self.snapshot@
    }
}

fn copied(v: Option<&Vec<u8>>) -> (r: Option<Vec<u8>>)
    ensures
        match (v, r) {
            (Some(x), Some(y)) => x@ == y@,
            (None, None) => true,
            _ => false,
        },
{
    match v {
        Some(x) => Some(x.clone()),
        None => None,
    }
}

/// All pairs of `map` whose keys start with `prefix`, in ascending order.
pub fn scan_prefix(map: &SortedMap, prefix: &[u8]) -> (r: Vec<(Vec<u8>, Vec<u8>)>)
    ensures
        sorted_map::is_scan(map@, prefix@, sorted_map::pairs_view(r@)),
{
    map.scan(prefix)
}

impl ReadTransaction for MemoryReadTx {
    open spec fn contents(&self) -> Contents {
        self.snapshot()
    }

    open spec fn reliable(&self) -> bool {
        true
    }

    fn get(&self, key: &[u8]) -> (r: Result<Option<Vec<u8>>, RelosError>) {
        Ok(copied(self.snapshot.get(key)))
    }

    fn prefix_scan(&self, prefix: &[u8]) -> (r: Result<Vec<(Vec<u8>, Vec<u8>)>, RelosError>) {
        Ok(scan_prefix(&self.snapshot, prefix))
    }
}

/// A working copy of a [`MemoryStore`], on which all changes happen.
pub struct MemoryWriteTx {
    working: SortedMap,
}

impl MemoryWriteTx {
    pub closed spec fn working(&self) -> Contents {
        self.working@
    }

    /// Commit the working copy to `store`.
    pub fn commit(self, store: &mut MemoryStore) -> (r: Result<(), RelosError>)
        ensures
            r is Ok,
            final(store).contents() == self.contents(),
    {
        store.commit(self)
    }

    /// Drop the working copy.
    pub fn rollback(self) -> (r: Result<(), RelosError>)
        ensures
            r is Ok,
    {
        Ok(())
    }
}

impl ReadTransaction for MemoryWriteTx {
    open spec fn contents(&self) -> Contents {
        self.working()
    }

    open spec fn reliable(&self) -> bool {
        true
    }

    fn get(&self, key: &[u8]) -> (r: Result<Option<Vec<u8>>, RelosError>) {
        Ok(copied(self.working.get(key)))
    }

    fn prefix_scan(&self, prefix: &[u8]) -> (r: Result<Vec<(Vec<u8>, Vec<u8>)>, RelosError>) {
        Ok(scan_prefix(&self.working, prefix))
    }
}

impl WriteTransaction for MemoryWriteTx {
    fn put(&mut self, key: &[u8], value: &[u8]) -> (r: Result<(), RelosError>) {
        self.working.insert(
            vstd::slice::slice_to_vec(key),
            vstd::slice::slice_to_vec(value),
        );
        Ok(())
    }

    fn delete(&mut self, key: &[u8]) -> (r: Result<(), RelosError>) {
        self.working.remove(key);
        Ok(())
    }
}

} // verus!

//! The store traits.

use vstd::prelude::*;

use crate::base::error::RelosError;
use crate::store::sorted_map;
use crate::store::sorted_map::Contents;

verus! {

/// What a lookup found.
pub open spec fn found(r: Option<Vec<u8>>) -> Option<Seq<u8>> {
    match r {
        Some(v) => Some(v@),
        None => None,
    }
}

/// A read-only transaction / snapshot.
///
/// An operation that succeeds does exactly what is stated here. A transaction
/// that is `reliable` does not fail.
pub trait ReadTransaction {
    /// What the transaction sees.
    spec fn contents(&self) -> Contents;

    /// The store behind the transaction is in a state in which it does not fail.
    spec fn reliable(&self) -> bool;

    /// Get a value by key.
    fn get(&self, key: &[u8]) -> (r: Result<Option<Vec<u8>>, RelosError>)
        ensures
            self.reliable() ==> r is Ok,
            r is Ok ==> found(r->Ok_0) == sorted_map::value_at(self.contents(), key@),
    ;

    /// Scan all key-value pairs whose keys start with the given prefix,
    /// returned in sorted (lexicographic) order.
    fn prefix_scan(&self, prefix: &[u8]) -> (r: Result<Vec<(Vec<u8>, Vec<u8>)>, RelosError>)
        ensures
            self.reliable() ==> r is Ok,
            r is Ok ==> sorted_map::is_scan(
                self.contents(),
                prefix@,
                sorted_map::pairs_view(r->Ok_0@),
            ),
    ;
}

/// A read-write transaction.
pub trait WriteTransaction: ReadTransaction {
    /// Insert or update a key-value pair.
    fn put(&mut self, key: &[u8], value: &[u8]) -> (r: Result<(), RelosError>)
        ensures
            final(self).reliable() == old(self).reliable(),
            old(self).reliable() ==> r is Ok,
            r is Ok ==> final(self).contents() == old(self).contents().insert(key@, value@),
    ;

    /// Delete a key. No-op if the key does not exist.
    fn delete(&mut self, key: &[u8]) -> (r: Result<(), RelosError>)
        ensures
            final(self).reliable() == old(self).reliable(),
            old(self).reliable() ==> r is Ok,
            r is Ok ==> final(self).contents() == old(self).contents().remove(key@),
    ;
}

/// The local store abstraction.
///
/// Every replica maintains local state in a local store. This trait provides
/// transactional read and write access to it.
pub trait LocalStore {
    type ReadTxn: ReadTransaction;

    type WriteTxn: WriteTransaction;

    /// What is committed.
    spec fn contents(&self) -> Contents;

    /// The store is in a state in which it does not fail.
    spec fn reliable(&self) -> bool;

    /// Begin a read-write transaction. It sees what is committed, and its writes
    /// are seen by nobody else before they are committed.
    fn begin_write_txn(&self) -> (r: Result<Self::WriteTxn, RelosError>)
        ensures
            self.reliable() ==> r is Ok,
            r is Ok ==> r->Ok_0.contents() == self.contents() && (self.reliable()
                ==> r->Ok_0.reliable()),
    ;

    /// Begin a read-only transaction: a snapshot of what is committed.
    fn begin_read_txn(&self) -> (r: Result<Self::ReadTxn, RelosError>)
        ensures
            self.reliable() ==> r is Ok,
            r is Ok ==> r->Ok_0.contents() == self.contents() && (self.reliable()
                ==> r->Ok_0.reliable()),
    ;

    /// Commit a transaction, making all its writes visible to future
    /// transactions. Where this fails, none of them is.
    fn commit(&mut self, txn: Self::WriteTxn) -> (r: Result<(), RelosError>)
        ensures
            final(self).reliable() == old(self).reliable(),
            old(self).reliable() ==> r is Ok,
            r is Ok ==> final(self).contents() == txn.contents(),
            r is Err ==> final(self).contents() == old(self).contents(),
    ;

    /// Roll a transaction back, discarding all its writes.
    fn rollback(&self, txn: Self::WriteTxn) -> (r: Result<(), RelosError>)
        ensures
            self.reliable() ==> r is Ok,
    ;

    /// Flush any buffered data to durable storage.
    fn flush(&mut self) -> (r: Result<(), RelosError>)
        ensures
            final(self).reliable() == old(self).reliable(),
            final(self).contents() == old(self).contents(),
            old(self).reliable() ==> r is Ok,
    ;
}

} // verus!

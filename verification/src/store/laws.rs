//! What holds between the operations of a store.

use vstd::prelude::*;

use crate::store::memory::{MemoryReadTx, MemoryStore, MemoryWriteTx};
use crate::store::sorted_map;
use crate::store::sorted_map::{Contents, PairView};
use crate::store::traits;
use crate::store::traits::{LocalStore, ReadTransaction};

verus! {

/// What was put under a key is read back, and nothing changes under other keys.
pub proof fn put_is_read_back(contents: Contents, key: Seq<u8>, value: Seq<u8>, other: Seq<u8>)
    ensures
        sorted_map::value_at(contents.insert(key, value), key) == Some(value),
        other != key ==> sorted_map::value_at(contents.insert(key, value), other)
            == sorted_map::value_at(contents, other),
{
}

/// What was deleted is not found, and nothing changes under other keys. Where the
/// key was not there nothing changes at all.
pub proof fn delete_is_seen(contents: Contents, key: Seq<u8>, other: Seq<u8>)
    ensures
        sorted_map::value_at(contents.remove(key), key) is None,
        other != key ==> sorted_map::value_at(contents.remove(key), other)
            == sorted_map::value_at(contents, other),
        !contents.contains_key(key) ==> contents.remove(key) == contents,
{
    if !contents.contains_key(key) {
        assert(contents.remove(key) =~= contents);
    }
}

/// A scan agrees with the lookups: it has a key exactly where the key starts with
/// the prefix and is found, and then with the value that a lookup gives.
pub proof fn scan_agrees_with_get(
    contents: Contents,
    prefix: Seq<u8>,
    pairs: Seq<PairView>,
    key: Seq<u8>,
    i: int,
)
    requires
        sorted_map::is_scan(contents, prefix, pairs),
    ensures
        sorted_map::has_key(pairs, key) <==> sorted_map::starts_with(key, prefix)
            && sorted_map::value_at(contents, key) is Some,
        0 <= i < pairs.len() ==> sorted_map::value_at(contents, pairs[i].0) == Some(pairs[i].1),
{
    if sorted_map::has_key(pairs, key) {
        let j = choose|j: int| 0 <= j < pairs.len() && (#[trigger] pairs[j]).0 == key;
        assert(contents.contains_key(pairs[j].0));
    }
}

/// A scan for the empty prefix has every key.
pub proof fn empty_prefix_has_every_key(contents: Contents, pairs: Seq<PairView>, key: Seq<u8>)
    requires
        sorted_map::is_scan(contents, Seq::empty(), pairs),
        contents.contains_key(key),
    ensures
        sorted_map::has_key(pairs, key),
{
    assert(Seq::<u8>::empty() == key.subrange(0, 0));
    assert(sorted_map::starts_with(key, Seq::empty()));
}

/// A key starts with a prefix where it is the prefix and something behind it.
pub proof fn prefix_is_followed(key: Seq<u8>, prefix: Seq<u8>, rest: Seq<u8>)
    ensures
        sorted_map::starts_with(prefix + rest, prefix),
        sorted_map::starts_with(key, prefix) ==> prefix.len() <= key.len() && key == prefix
            + key.skip(prefix.len() as int),
{
    assert(prefix =~= (prefix + rest).subrange(0, prefix.len() as int));
    if sorted_map::starts_with(key, prefix) {
        assert(key =~= prefix + key.skip(prefix.len() as int));
    }
}

/// Keys are ordered by the first byte in which they differ, and a key comes before one
/// that goes on behind it.
pub proof fn keys_are_ordered_by_bytes(
    common: Seq<u8>,
    x: u8,
    y: u8,
    a: Seq<u8>,
    b: Seq<u8>,
)
    ensures
        x < y ==> sorted_map::before(common + seq![x] + a, common + seq![y] + b),
        sorted_map::before(common, common + seq![x] + a),
        !sorted_map::before(common + seq![x] + a, common),
        y < x ==> !sorted_map::before(common + seq![x] + a, common + seq![y] + b),
        !sorted_map::before(common, common),
{
    let s = common + seq![x] + a;
    let t = common + seq![y] + b;
    let n = common.len() as int;
    if x < y {
        assert(sorted_map::smaller_at(s, t, n));
    }
    assert(sorted_map::smaller_at(common, s, n));
    if sorted_map::before(s, common) {
        let k = choose|k: int| sorted_map::smaller_at(s, common, k);
        assert(s[k] == common[k]);
    }
    if y < x && sorted_map::before(s, t) {
        let k = choose|k: int| sorted_map::smaller_at(s, t, k);
        if k < n {
            assert(s[k] == t[k]);
        } else if k > n {
            assert(s[n] == t[n]);
        }
    }
    sorted_map::before_irreflexive(common);
}

/// A scan of any store has every key that starts with the prefix, each once and in
/// ascending order, however many there are.
pub proof fn scan_is_complete(contents: Contents, prefix: Seq<u8>, key: Seq<u8>)
    requires
        contents.dom().finite(),
    ensures
        ({
            let pairs = sorted_map::scan_of(contents, prefix);
            let there = contents.contains_key(key) && sorted_map::starts_with(key, prefix);
            &&& there <==> exists|i: int| 0 <= i < pairs.len() && #[trigger] pairs[i] == (
                key,
                contents[key],
            )
            &&& forall|i: int, j: int|
                0 <= i < j < pairs.len() ==> sorted_map::before(
                    (#[trigger] pairs[i]).0,
                    (#[trigger] pairs[j]).0,
                )
        }),
{
    sorted_map::scan_exists(contents, prefix);
    let pairs = sorted_map::scan_of(contents, prefix);
    if contents.contains_key(key) && sorted_map::starts_with(key, prefix) {
        assert(sorted_map::has_key(pairs, key));
        let i = choose|i: int| 0 <= i < pairs.len() && (#[trigger] pairs[i]).0 == key;
        assert(pairs[i] == (key, contents[key]));
    }
}

/// The contents of keys and values, and of what a lookup found, are those of each.
pub proof fn pairs_are_seen_one_by_one(
    pairs: Seq<(Vec<u8>, Vec<u8>)>,
    value: Vec<u8>,
)
    ensures
        sorted_map::pairs_view(pairs).len() == pairs.len(),
        forall|i: int|
            0 <= i < pairs.len() ==> #[trigger] sorted_map::pairs_view(pairs)[i] == (
                pairs[i].0@,
                pairs[i].1@,
            ),
        traits::found(Some(value)) == Some(value@),
        traits::found(None) is None,
{
}

/// A store in memory does not fail, nor do its transactions.
pub proof fn memory_does_not_fail(store: MemoryStore, read: MemoryReadTx, write: MemoryWriteTx)
    ensures
        store.reliable(),
        read.reliable(),
        write.reliable(),
{
}

} // verus!

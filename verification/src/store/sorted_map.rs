//! A map from byte strings to byte strings, kept in the order of its keys.

use vstd::prelude::*;

verus! {

/// A key and its value.
pub type PairView = (Seq<u8>, Seq<u8>);

/// What a store holds.
pub type Contents = Map<Seq<u8>, Seq<u8>>;

/// The contents of a key and its value.
pub open spec fn pair_view(p: (Vec<u8>, Vec<u8>)) -> PairView {
    (p.0@, p.1@)
}

/// The contents of a list of keys and values.
pub open spec fn pairs_view(s: Seq<(Vec<u8>, Vec<u8>)>) -> Seq<PairView> {
    s.map_values(|p: (Vec<u8>, Vec<u8>)| pair_view(p))
}

/// `a` and `b` agree before `k`, where `a` ends or holds the smaller byte.
pub open spec fn smaller_at(a: Seq<u8>, b: Seq<u8>, k: int) -> bool {
    &&& 0 <= k <= a.len()
    &&& k < b.len()
    &&& forall|i: int| 0 <= i < k ==> a[i] == b[i]
    &&& (k == a.len() || a[k] < b[k])
}

/// `a` comes before `b` in lexicographic order.
pub open spec fn before(a: Seq<u8>, b: Seq<u8>) -> bool {
    exists|k: int| smaller_at(a, b, k)
}

/// The keys are in strictly ascending order.
pub open spec fn ascending(pairs: Seq<PairView>) -> bool {
    forall|i: int, j: int|
        0 <= i < j < pairs.len() ==> before((#[trigger] pairs[i]).0, (#[trigger] pairs[j]).0)
}

/// Whether a pair with this key is among `pairs`.
pub open spec fn has_key(pairs: Seq<PairView>, key: Seq<u8>) -> bool {
    exists|i: int| 0 <= i < pairs.len() && (#[trigger] pairs[i]).0 == key
}

/// The map that a list of pairs stands for.
pub open spec fn map_of(pairs: Seq<PairView>) -> Contents {
    Map::new(
        |key: Seq<u8>| has_key(pairs, key),
        |key: Seq<u8>|
            pairs[choose|i: int| 0 <= i < pairs.len() && (#[trigger] pairs[i]).0 == key].1,
    )
}

/// `key` starts with `prefix`.
pub open spec fn starts_with(key: Seq<u8>, prefix: Seq<u8>) -> bool {
    prefix.is_prefix_of(key)
}

/// `pairs` are the pairs of `contents` whose keys start with `prefix`, in
/// ascending order.
pub open spec fn is_scan(contents: Contents, prefix: Seq<u8>, pairs: Seq<PairView>) -> bool {
    &&& ascending(pairs)
    &&& forall|i: int|
        0 <= i < pairs.len() ==> starts_with((#[trigger] pairs[i]).0, prefix)
            && contents.contains_key(pairs[i].0) && contents[pairs[i].0] == pairs[i].1
    &&& forall|key: Seq<u8>|
        contents.contains_key(key) && starts_with(key, prefix) ==> #[trigger] has_key(pairs, key)
}

/// The pairs of `contents` whose keys start with `prefix`, in ascending order.
pub open spec fn scan_of(contents: Contents, prefix: Seq<u8>) -> Seq<PairView> {
    choose|pairs: Seq<PairView>| is_scan(contents, prefix, pairs)
}

/// The value under a key.
pub open spec fn value_at(contents: Contents, key: Seq<u8>) -> Option<Seq<u8>> {
    if contents.contains_key(key) {
        Some(contents[key])
    } else {
        None
    }
}

pub proof fn before_irreflexive(a: Seq<u8>)
    ensures
        !before(a, a),
{
}

pub proof fn before_transitive(a: Seq<u8>, b: Seq<u8>, c: Seq<u8>)
    requires
        before(a, b),
        before(b, c),
    ensures
        before(a, c),
{
    let j = choose|k: int| smaller_at(a, b, k);
    let k = choose|k: int| smaller_at(b, c, k);
    if j <= k {
        assert(smaller_at(a, c, j));
    } else {
        assert(smaller_at(a, c, k));
    }
}

/// Of two distinct keys one comes before the other.
pub proof fn before_total(a: Seq<u8>, b: Seq<u8>)
    requires
        a != b,
    ensures
        before(a, b) || before(b, a),
{
    first_difference(a, b, 0);
}

proof fn first_difference(a: Seq<u8>, b: Seq<u8>, k: int)
    requires
        a != b,
        0 <= k <= a.len(),
        k <= b.len(),
        forall|i: int| 0 <= i < k ==> a[i] == b[i],
    ensures
        before(a, b) || before(b, a),
    decreases a.len() - k,
{
    if k == a.len() {
        if k == b.len() {
            assert(a =~= b);
        } else {
            assert(smaller_at(a, b, k));
        }
    } else if k == b.len() {
        assert(smaller_at(b, a, k));
    } else if a[k] < b[k] {
        assert(smaller_at(a, b, k));
    } else if b[k] < a[k] {
        assert(smaller_at(b, a, k));
    } else {
        first_difference(a, b, k + 1);
    }
}

/// The place of a new key in an ascending list.
proof fn place_of(pairs: Seq<PairView>, key: Seq<u8>, n: int) -> (i: int)
    requires
        ascending(pairs),
        !has_key(pairs, key),
        0 <= n <= pairs.len(),
        forall|j: int| 0 <= j < n ==> before((#[trigger] pairs[j]).0, key),
    ensures
        n <= i <= pairs.len(),
        forall|j: int| 0 <= j < i ==> before((#[trigger] pairs[j]).0, key),
        forall|j: int| i <= j < pairs.len() ==> before(key, (#[trigger] pairs[j]).0),
    decreases pairs.len() - n,
{
    if n == pairs.len() {
        n
    } else {
        assert(pairs[n].0 != key);
        before_total(pairs[n].0, key);
        if before(pairs[n].0, key) {
            place_of(pairs, key, n + 1)
        } else {
            assert forall|j: int| n <= j < pairs.len() implies before(
                key,
                (#[trigger] pairs[j]).0,
            ) by {
                if j > n {
                    before_transitive(key, pairs[n].0, pairs[j].0);
                }
            }
            n
        }
    }
}

/// A finite map can be scanned.
pub proof fn scan_exists(contents: Contents, prefix: Seq<u8>)
    requires
        contents.dom().finite(),
    ensures
        is_scan(contents, prefix, scan_of(contents, prefix)),
    decreases contents.dom().len(),
{
    if contents.dom().len() == 0 {
        let none = Seq::<PairView>::empty();
        assert forall|key: Seq<u8>| !contents.contains_key(key) by {
            if contents.contains_key(key) {
                assert(contents.dom().contains(key));
            }
        }
        assert(is_scan(contents, prefix, none));
    } else {
        let key = contents.dom().choose();
        assert(contents.dom().contains(key));
        let less = contents.remove(key);
        scan_exists(less, prefix);
        let rest = scan_of(less, prefix);
        if starts_with(key, prefix) {
            assert(!has_key(rest, key)) by {
                if has_key(rest, key) {
                    let j = choose|j: int| 0 <= j < rest.len() && (#[trigger] rest[j]).0 == key;
                    assert(less.contains_key(rest[j].0));
                }
            }
            let i = place_of(rest, key, 0);
            let all = rest.insert(i, (key, contents[key]));
            insert_at(rest, i, key, contents[key]);
            assert forall|j: int| 0 <= j < all.len() implies starts_with(
                (#[trigger] all[j]).0,
                prefix,
            ) && contents.contains_key(all[j].0) && contents[all[j].0] == all[j].1 by {
                if j != i {
                    let x = if j < i {
                        j
                    } else {
                        j - 1
                    };
                    assert(all[j] == rest[x]);
                    assert(less.contains_key(rest[x].0));
                }
            }
            assert forall|k: Seq<u8>| contents.contains_key(k) && starts_with(
                k,
                prefix,
            ) implies #[trigger] has_key(all, k) by {
                if k == key {
                    assert(all[i].0 == k);
                } else {
                    assert(less.contains_key(k));
                    assert(has_key(rest, k));
                    let j = choose|j: int| 0 <= j < rest.len() && (#[trigger] rest[j]).0 == k;
                    let y = if j < i {
                        j
                    } else {
                        j + 1
                    };
                    assert(all[y] == rest[j]);
                }
            }
            assert(is_scan(contents, prefix, all));
        } else {
            assert forall|j: int| 0 <= j < rest.len() implies contents.contains_key(
                (#[trigger] rest[j]).0,
            ) && contents[rest[j].0] == rest[j].1 by {
                assert(less.contains_key(rest[j].0));
            }
            assert forall|k: Seq<u8>| contents.contains_key(k) && starts_with(
                k,
                prefix,
            ) implies #[trigger] has_key(rest, k) by {
                assert(less.contains_key(k));
            }
            assert(is_scan(contents, prefix, rest));
        }
    }
}

/// Two lists in ascending order with the same pairs are the same list.
pub proof fn scan_unique(contents: Contents, prefix: Seq<u8>, p: Seq<PairView>, q: Seq<PairView>)
    requires
        is_scan(contents, prefix, p),
        is_scan(contents, prefix, q),
    ensures
        p == q,
{
    ascending_unique(p, q, p.len() as int);
    ascending_unique(q, p, q.len() as int);
    assert forall|i: int| 0 <= i < p.len() implies p[i] == q[i] by {
        ascending_unique(p, q, i + 1);
    }
}

/// The first `n` keys of `p` are the first `n` keys of `q`, where the keys of
/// each are among the other's.
proof fn ascending_unique(p: Seq<PairView>, q: Seq<PairView>, n: int)
    requires
        ascending(p),
        ascending(q),
        0 <= n <= p.len(),
        forall|i: int| 0 <= i < p.len() ==> has_key(q, (#[trigger] p[i]).0),
        forall|i: int| 0 <= i < q.len() ==> has_key(p, (#[trigger] q[i]).0),
    ensures
        n <= q.len(),
        forall|i: int| 0 <= i < n ==> (#[trigger] p[i]).0 == q[i].0,
    decreases n,
{
    if n > 0 {
        ascending_unique(p, q, n - 1);
        let k = p[n - 1].0;
        let j = choose|j: int| 0 <= j < q.len() && (#[trigger] q[j]).0 == k;
        assert(has_key(q, k));
        if j < n - 1 {
            assert(p[j].0 == q[j].0);
            assert(before(p[j].0, p[n - 1].0));
            before_irreflexive(k);
        }
        let m = q[n - 1].0;
        let i = choose|i: int| 0 <= i < p.len() && (#[trigger] p[i]).0 == m;
        assert(has_key(p, m));
        if i < n - 1 {
            assert(p[i].0 == q[i].0);
            assert(before(q[i].0, q[n - 1].0));
            before_irreflexive(m);
        }
        if j > n - 1 && i > n - 1 {
            assert(before(q[n - 1].0, q[j].0));
            assert(before(p[n - 1].0, p[i].0));
            before_transitive(m, k, m);
            before_irreflexive(m);
        }
    }
}


/// How one key stands to another.
enum Side {
    Before,
    Same,
    After,
}

fn side(a: &[u8], b: &[u8]) -> (r: Side)
    ensures
        match r {
            Side::Before => before(a@, b@),
            Side::Same => a@ == b@,
            Side::After => before(b@, a@),
        },
{
    let mut i: usize = 0;
    while i < a.len() && i < b.len()
        invariant
            i <= a@.len(),
            i <= b@.len(),
            forall|j: int| 0 <= j < i ==> a@[j] == b@[j],
        decreases a.len() - i,
    {
        if a[i] < b[i] {
            assert(smaller_at(a@, b@, i as int));
            return Side::Before;
        }
        if b[i] < a[i] {
            assert(smaller_at(b@, a@, i as int));
            return Side::After;
        }
        i = i + 1;
    }
    if i < b.len() {
        assert(smaller_at(a@, b@, i as int));
        Side::Before
    } else if i < a.len() {
        assert(smaller_at(b@, a@, i as int));
        Side::After
    } else {
        assert(a@ == b@);
        Side::Same
    }
}

fn has_prefix(key: &[u8], prefix: &[u8]) -> (r: bool)
    ensures
        r == starts_with(key@, prefix@),
{
    if key.len() < prefix.len() {
        return false;
    }
    let mut i: usize = 0;
    while i < prefix.len()
        invariant
            i <= prefix@.len() <= key@.len(),
            forall|j: int| 0 <= j < i ==> key@[j] == prefix@[j],
        decreases prefix.len() - i,
    {
        if key[i] != prefix[i] {
            assert(key@.subrange(0, prefix@.len() as int)[i as int] != prefix@[i as int]);
            return false;
        }
        i = i + 1;
    }
    assert(prefix@ == key@.subrange(0, prefix@.len() as int));
    true
}

fn copy_pair(p: &(Vec<u8>, Vec<u8>)) -> (copy: (Vec<u8>, Vec<u8>))
    ensures
        pair_view(copy) == pair_view(*p),
{
    let key = p.0.clone();
    let value = p.1.clone();
    assert(key@ == p.0@);
    assert(value@ == p.1@);
    (key, value)
}

/// A map from byte strings to byte strings, in the order of its keys.
#[derive(Debug)]
pub struct SortedMap {
    pairs: Vec<(Vec<u8>, Vec<u8>)>,
}

impl View for SortedMap {
    type V = Contents;

    closed spec fn view(&self) -> Contents {
        map_of(pairs_view(self.pairs@))
    }
}

impl SortedMap {
    #[verifier::type_invariant]
    spec fn in_order(self) -> bool {
        ascending(pairs_view(self.pairs@))
    }

    /// The empty map.
    pub fn new() -> (map: Self)
        ensures
            map@ == Contents::empty(),
    {
        let map = SortedMap { pairs: Vec::new() };
        assert(map@ == Contents::empty());
        map
    }

    /// The number of keys before `key`.
    fn lower_bound(&self, key: &[u8]) -> (n: usize)
        ensures
            n <= self.pairs@.len(),
            forall|i: int| 0 <= i < n ==> before((#[trigger] self.pairs@[i]).0@, key@),
            forall|i: int|
                n <= i < self.pairs@.len() ==> !before((#[trigger] self.pairs@[i]).0@, key@),
    {
        proof {
            use_type_invariant(self);
        }
        let ghost pv = pairs_view(self.pairs@);
        let mut low: usize = 0;
        let mut high: usize = self.pairs.len();
        while low < high
            invariant
                low <= high <= self.pairs@.len(),
                pv == pairs_view(self.pairs@),
                ascending(pv),
                forall|i: int| 0 <= i < low ==> before((#[trigger] self.pairs@[i]).0@, key@),
                forall|i: int|
                    high <= i < self.pairs@.len() ==> !before(
                        (#[trigger] self.pairs@[i]).0@,
                        key@,
                    ),
            decreases high - low,
        {
            let mid: usize = low + (high - low) / 2;
            match side(self.pairs[mid].0.as_slice(), key) {
                Side::Before => {
                    assert forall|i: int| 0 <= i < mid implies before(
                        (#[trigger] self.pairs@[i]).0@,
                        key@,
                    ) by {
                        assert(before(pv[i].0, pv[mid as int].0));
                        before_transitive(pv[i].0, pv[mid as int].0, key@);
                    }
                    low = mid + 1;
                },
                _ => {
                    assert forall|i: int| mid <= i < self.pairs@.len() implies !before(
                        (#[trigger] self.pairs@[i]).0@,
                        key@,
                    ) by {
                        let m = pv[mid as int].0;
                        before_irreflexive(m);
                        if before(pv[i].0, key@) {
                            if i > mid {
                                assert(before(m, pv[i].0));
                                before_transitive(m, pv[i].0, key@);
                            }
                            if m != key@ {
                                before_transitive(m, key@, m);
                            }
                        }
                    }
                    high = mid;
                },
            }
        }
        low
    }

    /// The place of `key`, or where it would go.
    fn locate(&self, key: &[u8]) -> (r: (usize, bool))
        ensures
            r.0 <= self.pairs@.len(),
            r.1 == has_key(pairs_view(self.pairs@), key@),
            r.1 ==> r.0 < self.pairs@.len() && self.pairs@[r.0 as int].0@ == key@,
            forall|i: int| 0 <= i < r.0 ==> before((#[trigger] self.pairs@[i]).0@, key@),
            forall|i: int|
                r.0 <= i < self.pairs@.len() && self.pairs@[i].0@ != key@ ==> before(
                    key@,
                    (#[trigger] self.pairs@[i]).0@,
                ),
    {
        proof {
            use_type_invariant(self);
        }
        let n: usize = self.lower_bound(key);
        let ghost pv = pairs_view(self.pairs@);
        assert forall|i: int| 0 <= i < n implies (#[trigger] pv[i]).0 != key@ by {
            before_irreflexive(key@);
            assert(before(self.pairs@[i].0@, key@));
        }
        if n < self.pairs.len() {
            match side(self.pairs[n].0.as_slice(), key) {
                Side::Same => {
                    assert(pv[n as int].0 == key@);
                    assert forall|i: int|
                        n <= i < self.pairs@.len() && self.pairs@[i].0@ != key@ implies before(
                        key@,
                        (#[trigger] self.pairs@[i]).0@,
                    ) by {
                        assert(before(pv[n as int].0, pv[i].0));
                    }
                    (n, true)
                },
                _ => {
                    assert(before(key@, pv[n as int].0));
                    assert forall|i: int| n <= i < self.pairs@.len() implies before(
                        key@,
                        (#[trigger] self.pairs@[i]).0@,
                    ) && pv[i].0 != key@ by {
                        if i > n {
                            assert(before(pv[n as int].0, pv[i].0));
                            before_transitive(key@, pv[n as int].0, pv[i].0);
                        }
                        before_irreflexive(key@);
                    }
                    (n, false)
                },
            }
        } else {
            (n, false)
        }
    }

    /// The value under `key`.
    pub fn get(&self, key: &[u8]) -> (r: Option<&Vec<u8>>)
        ensures
            match r {
                Some(v) => value_at(self@, key@) == Some(v@),
                None => value_at(self@, key@) is None,
            },
    {
        proof {
            use_type_invariant(self);
        }
        let (i, found) = self.locate(key);
        if found {
            proof {
                map_of_at(pairs_view(self.pairs@), i as int);
            }
            Some(&self.pairs[i].1)
        } else {
            None
        }
    }

    /// Puts `value` under `key`, in place of what was there.
    pub fn insert(&mut self, key: Vec<u8>, value: Vec<u8>)
        ensures
            final(self)@ == old(self)@.insert(key@, value@),
    {
        proof {
            use_type_invariant(&*self);
        }
        let (i, found) = self.locate(key.as_slice());
        let ghost pv = pairs_view(self.pairs@);
        let mut pairs: Vec<(Vec<u8>, Vec<u8>)> = Vec::new();
        std::mem::swap(&mut pairs, &mut self.pairs);
        if found {
            pairs.set(i, (key, value));
            proof {
                assert(pairs_view(pairs@) == pv.update(i as int, (key@, value@)));
                update_at(pv, i as int, key@, value@);
            }
        } else {
            pairs.insert(i, (key, value));
            proof {
                assert(pairs_view(pairs@) == pv.insert(i as int, (key@, value@)));
                insert_at(pv, i as int, key@, value@);
            }
        }
        self.pairs = pairs;
    }

    /// Takes `key` out, where it is there.
    pub fn remove(&mut self, key: &[u8])
        ensures
            final(self)@ == old(self)@.remove(key@),
    {
        proof {
            use_type_invariant(&*self);
        }
        let (i, found) = self.locate(key);
        let ghost pv = pairs_view(self.pairs@);
        if found {
            let mut pairs: Vec<(Vec<u8>, Vec<u8>)> = Vec::new();
            std::mem::swap(&mut pairs, &mut self.pairs);
            pairs.remove(i);
            proof {
                assert(pairs_view(pairs@) == pv.remove(i as int));
                remove_at(pv, i as int, key@);
            }
            self.pairs = pairs;
        } else {
            assert(self@ == self@.remove(key@));
        }
    }

    /// The pairs whose keys start with `prefix`, in ascending order.
    pub fn scan(&self, prefix: &[u8]) -> (r: Vec<(Vec<u8>, Vec<u8>)>)
        ensures
            is_scan(self@, prefix@, pairs_view(r@)),
    {
        proof {
            use_type_invariant(self);
        }
        let ghost pv = pairs_view(self.pairs@);
        let first: usize = self.lower_bound(prefix);
        let mut i: usize = first;
        let mut out: Vec<(Vec<u8>, Vec<u8>)> = Vec::new();
        while i < self.pairs.len() && has_prefix(self.pairs[i].0.as_slice(), prefix)
            invariant
                first <= i <= self.pairs@.len(),
                pv == pairs_view(self.pairs@),
                pairs_view(out@) == pv.subrange(first as int, i as int),
                forall|j: int| first <= j < i ==> starts_with((#[trigger] pv[j]).0, prefix@),
            decreases self.pairs.len() - i,
        {
            let ghost prior = out@;
            out.push(copy_pair(&self.pairs[i]));
            assert(pairs_view(out@) == pairs_view(prior).push(pv[i as int]));
            assert(pairs_view(out@) == pv.subrange(first as int, i + 1));
            i = i + 1;
        }
        proof {
            let found = pairs_view(out@);
            assert forall|j: int| 0 <= j < found.len() implies starts_with(
                (#[trigger] found[j]).0,
                prefix@,
            ) && self@.contains_key(found[j].0) && self@[found[j].0] == found[j].1 by {
                assert(found[j] == pv[first + j]);
                map_of_at(pv, first + j);
            }
            assert forall|key: Seq<u8>| self@.contains_key(key) && starts_with(
                key,
                prefix@,
            ) implies #[trigger] has_key(found, key) by {
                let j = choose|j: int| 0 <= j < pv.len() && (#[trigger] pv[j]).0 == key;
                prefix_not_before(key, prefix@);
                assert(!before(key, prefix@));
                if j < first {
                    assert(before(self.pairs@[j].0@, prefix@));
                } else if j >= i {
                    let stop = pv[i as int].0;
                    assert(!before(self.pairs@[i as int].0@, prefix@));
                    if j > i {
                        assert(before(stop, key));
                    }
                    prefix_range(stop, key, prefix@);
                } else {
                    assert(found[j - first] == pv[j]);
                }
            }
            assert(ascending(found)) by {
                assert forall|a: int, b: int| 0 <= a < b < found.len() implies before(
                    (#[trigger] found[a]).0,
                    (#[trigger] found[b]).0,
                ) by {
                    assert(found[a] == pv[first + a]);
                    assert(found[b] == pv[first + b]);
                }
            }
        }
        out
    }
}

impl Clone for SortedMap {
    fn clone(&self) -> (copy: Self)
        ensures
            copy@ == self@,
    {
        proof {
            use_type_invariant(self);
        }
        let mut pairs: Vec<(Vec<u8>, Vec<u8>)> = Vec::new();
        let mut i: usize = 0;
        while i < self.pairs.len()
            invariant
                i <= self.pairs@.len(),
                pairs_view(pairs@) == pairs_view(self.pairs@).take(i as int),
            decreases self.pairs.len() - i,
        {
            let ghost prior = pairs@;
            pairs.push(copy_pair(&self.pairs[i]));
            assert(pairs_view(pairs@) == pairs_view(prior).push(pairs_view(self.pairs@)[i as int]));
            assert(pairs_view(pairs@) == pairs_view(self.pairs@).take(i + 1));
            i = i + 1;
        }
        assert(pairs_view(pairs@) == pairs_view(self.pairs@));
        SortedMap { pairs }
    }
}

proof fn map_of_at(pairs: Seq<PairView>, i: int)
    requires
        ascending(pairs),
        0 <= i < pairs.len(),
    ensures
        map_of(pairs).contains_key(pairs[i].0),
        map_of(pairs)[pairs[i].0] == pairs[i].1,
{
    let key = pairs[i].0;
    assert(has_key(pairs, key));
    let j = choose|j: int| 0 <= j < pairs.len() && (#[trigger] pairs[j]).0 == key;
    before_irreflexive(key);
    if j < i {
        assert(before(pairs[j].0, pairs[i].0));
    } else if i < j {
        assert(before(pairs[i].0, pairs[j].0));
    }
}

proof fn same_map(pairs: Seq<PairView>, target: Contents)
    requires
        ascending(pairs),
        forall|i: int|
            0 <= i < pairs.len() ==> target.contains_key((#[trigger] pairs[i]).0)
                && target[pairs[i].0] == pairs[i].1,
        forall|key: Seq<u8>| #[trigger] target.contains_key(key) ==> has_key(pairs, key),
    ensures
        map_of(pairs) == target,
{
    let m = map_of(pairs);
    assert forall|key: Seq<u8>| #[trigger] m.contains_key(key) implies target.contains_key(key)
        && m[key] == target[key] by {
        let j = choose|j: int| 0 <= j < pairs.len() && (#[trigger] pairs[j]).0 == key;
        map_of_at(pairs, j);
    }
    assert(m =~= target);
}

proof fn update_at(pairs: Seq<PairView>, i: int, key: Seq<u8>, value: Seq<u8>)
    requires
        ascending(pairs),
        0 <= i < pairs.len(),
        pairs[i].0 == key,
    ensures
        ascending(pairs.update(i, (key, value))),
        map_of(pairs.update(i, (key, value))) == map_of(pairs).insert(key, value),
{
    let after = pairs.update(i, (key, value));
    let target = map_of(pairs).insert(key, value);
    assert forall|a: int, b: int| 0 <= a < b < after.len() implies before(
        (#[trigger] after[a]).0,
        (#[trigger] after[b]).0,
    ) by {
        assert(after[a].0 == pairs[a].0 && after[b].0 == pairs[b].0);
    }
    assert forall|j: int| 0 <= j < after.len() implies target.contains_key((#[trigger] after[j]).0)
        && target[after[j].0] == after[j].1 by {
        map_of_at(pairs, j);
        before_irreflexive(key);
        if j < i {
            assert(before(pairs[j].0, pairs[i].0));
        } else if i < j {
            assert(before(pairs[i].0, pairs[j].0));
        }
    }
    assert forall|k: Seq<u8>| #[trigger] target.contains_key(k) implies has_key(after, k) by {
        if k == key {
            assert(after[i].0 == k);
        } else {
            let j = choose|j: int| 0 <= j < pairs.len() && (#[trigger] pairs[j]).0 == k;
            assert(has_key(pairs, k));
            assert(after[j].0 == k);
        }
    }
    same_map(after, target);
}

proof fn insert_at(pairs: Seq<PairView>, i: int, key: Seq<u8>, value: Seq<u8>)
    requires
        ascending(pairs),
        0 <= i <= pairs.len(),
        !has_key(pairs, key),
        forall|j: int| 0 <= j < i ==> before((#[trigger] pairs[j]).0, key),
        forall|j: int| i <= j < pairs.len() ==> before(key, (#[trigger] pairs[j]).0),
    ensures
        ascending(pairs.insert(i, (key, value))),
        map_of(pairs.insert(i, (key, value))) == map_of(pairs).insert(key, value),
{
    let after = pairs.insert(i, (key, value));
    let target = map_of(pairs).insert(key, value);
    assert forall|a: int, b: int| 0 <= a < b < after.len() implies before(
        (#[trigger] after[a]).0,
        (#[trigger] after[b]).0,
    ) by {
        let x = if a < i {
            a
        } else {
            a - 1
        };
        let y = if b < i {
            b
        } else {
            b - 1
        };
        if a != i {
            assert(after[a] == pairs[x]);
        }
        if b != i {
            assert(after[b] == pairs[y]);
        }
    }
    assert forall|j: int| 0 <= j < after.len() implies target.contains_key((#[trigger] after[j]).0)
        && target[after[j].0] == after[j].1 by {
        if j != i {
            let x = if j < i {
                j
            } else {
                j - 1
            };
            assert(after[j] == pairs[x]);
            map_of_at(pairs, x);
        }
    }
    assert forall|k: Seq<u8>| #[trigger] target.contains_key(k) implies has_key(after, k) by {
        if k == key {
            assert(after[i].0 == k);
        } else {
            let j = choose|j: int| 0 <= j < pairs.len() && (#[trigger] pairs[j]).0 == k;
            assert(has_key(pairs, k));
            let y = if j < i {
                j
            } else {
                j + 1
            };
            assert(after[y] == pairs[j]);
        }
    }
    same_map(after, target);
}

proof fn remove_at(pairs: Seq<PairView>, i: int, key: Seq<u8>)
    requires
        ascending(pairs),
        0 <= i < pairs.len(),
        pairs[i].0 == key,
    ensures
        ascending(pairs.remove(i)),
        map_of(pairs.remove(i)) == map_of(pairs).remove(key),
{
    let after = pairs.remove(i);
    let target = map_of(pairs).remove(key);
    assert forall|a: int, b: int| 0 <= a < b < after.len() implies before(
        (#[trigger] after[a]).0,
        (#[trigger] after[b]).0,
    ) by {
        let x = if a < i {
            a
        } else {
            a + 1
        };
        let y = if b < i {
            b
        } else {
            b + 1
        };
        assert(after[a] == pairs[x] && after[b] == pairs[y]);
    }
    assert forall|j: int| 0 <= j < after.len() implies target.contains_key((#[trigger] after[j]).0)
        && target[after[j].0] == after[j].1 by {
        let x = if j < i {
            j
        } else {
            j + 1
        };
        assert(after[j] == pairs[x]);
        map_of_at(pairs, x);
        before_irreflexive(key);
        if x < i {
            assert(before(pairs[x].0, pairs[i].0));
        } else {
            assert(before(pairs[i].0, pairs[x].0));
        }
    }
    assert forall|k: Seq<u8>| #[trigger] target.contains_key(k) implies has_key(after, k) by {
        let j = choose|j: int| 0 <= j < pairs.len() && (#[trigger] pairs[j]).0 == k;
        assert(has_key(pairs, k));
        let y = if j < i {
            j
        } else {
            j - 1
        };
        assert(after[y] == pairs[j]);
    }
    same_map(after, target);
}

proof fn prefix_not_before(key: Seq<u8>, prefix: Seq<u8>)
    requires
        starts_with(key, prefix),
    ensures
        !before(key, prefix),
{
    if before(key, prefix) {
        let k = choose|k: int| smaller_at(key, prefix, k);
        assert(prefix[k] == key.subrange(0, prefix.len() as int)[k]);
    }
}

/// Between a prefix and a key that starts with it, every key starts with it.
proof fn prefix_range(stop: Seq<u8>, key: Seq<u8>, prefix: Seq<u8>)
    requires
        starts_with(key, prefix),
        !before(stop, prefix),
        stop == key || before(stop, key),
    ensures
        starts_with(stop, prefix),
{
    if stop != key {
        let k = choose|k: int| smaller_at(stop, key, k);
        assert forall|i: int| 0 <= i < prefix.len() implies prefix[i] == key[i] by {
            assert(prefix[i] == key.subrange(0, prefix.len() as int)[i]);
        }
        if k < prefix.len() {
            assert(smaller_at(stop, prefix, k));
        }
        assert(prefix == stop.subrange(0, prefix.len() as int));
    }
}

} // verus!

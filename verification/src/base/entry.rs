//! Log entries.

use vstd::prelude::*;

use crate::base::codec;
use crate::base::error::{ErrorView, RelosError};

verus! {

/// A log entry: headers that engines attach, and the application's payload.
///
/// Every header has a name, and no name occurs twice (see [`Entry::wf`]).
#[derive(Debug)]
pub struct Entry {
    /// Engine name and serialized header, in the order in which they were added.
    pub headers: Vec<(String, Vec<u8>)>,
    /// Application payload.
    pub payload: Vec<u8>,
}

/// A header: its name and its bytes.
pub type HeaderView = (Seq<char>, Seq<u8>);

/// The contents of an [`Entry`].
#[verifier::ext_equal]
pub struct EntryView {
    pub headers: Seq<HeaderView>,
    pub payload: Seq<u8>,
}

/// The contents of a header.
pub open spec fn header_view(h: (String, Vec<u8>)) -> HeaderView {
    (h.0@, h.1@)
}

impl View for Entry {
    type V = EntryView;

    open spec fn view(&self) -> EntryView {
        EntryView {
            headers: self.headers@.map_values(|h: (String, Vec<u8>)| header_view(h)),
            payload: self.payload@,
        }
    }
}

/// Whether a header of this name is among `headers`.
pub open spec fn names(headers: Seq<HeaderView>, name: Seq<char>) -> bool {
    exists|i: int| 0 <= i < headers.len() && (#[trigger] headers[i]).0 == name
}

/// Where the header of this name is.
pub open spec fn index_of(headers: Seq<HeaderView>, name: Seq<char>) -> int {
    choose|i: int|
        0 <= i < headers.len() && (#[trigger] headers[i]).0 == name && forall|j: int|
            0 <= j < i ==> (#[trigger] headers[j]).0 != name
}

/// No name occurs twice.
pub open spec fn distinct(headers: Seq<HeaderView>) -> bool {
    forall|i: int, j: int|
        0 <= i < j < headers.len() ==> (#[trigger] headers[i]).0 != (#[trigger] headers[j]).0
}

/// The headers with this one set: in the place of the one of that name where
/// there is one, else behind the others.
pub open spec fn set_header(
    headers: Seq<HeaderView>,
    name: Seq<char>,
    bytes: Seq<u8>,
) -> Seq<HeaderView> {
    if names(headers, name) {
        headers.update(index_of(headers, name), (name, bytes))
    } else {
        headers.push((name, bytes))
    }
}

/// The headers set one after the other: of two of one name the later stays.
pub open spec fn set_all(pairs: Seq<HeaderView>) -> Seq<HeaderView>
    decreases pairs.len(),
{
    if pairs.len() == 0 {
        Seq::empty()
    } else {
        set_header(set_all(pairs.drop_last()), pairs.last().0, pairs.last().1)
    }
}

pub open spec fn header_bytes(h: HeaderView) -> Seq<u8> {
    codec::str_bytes(h.0) + codec::blob_bytes(h.1)
}

pub open spec fn parse_header(b: Seq<u8>) -> codec::Parsed<HeaderView> {
    match codec::parse_str(b) {
        Err(e) => Err(e),
        Ok((name, rest)) => match codec::parse_blob(rest) {
            Err(e) => Err(e),
            Ok((bytes, rest)) => Ok(((name, bytes), rest)),
        },
    }
}

impl EntryView {
    /// The entry that carries this payload and no header.
    pub open spec fn plain(payload: Seq<u8>) -> EntryView {
        EntryView { headers: Seq::empty(), payload }
    }

    /// The entry with this header set.
    pub open spec fn with_header(self, name: Seq<char>, bytes: Seq<u8>) -> EntryView {
        EntryView { headers: set_header(self.headers, name, bytes), payload: self.payload }
    }

    /// The header of this name.
    pub open spec fn header(self, name: Seq<char>) -> Option<Seq<u8>> {
        if names(self.headers, name) {
            Some(self.headers[index_of(self.headers, name)].1)
        } else {
            None
        }
    }

    /// The bytes of the entry: its headers as a list, then its payload.
    pub open spec fn bytes(self) -> Seq<u8> {
        codec::list_bytes(self.headers, |h: HeaderView| header_bytes(h)) + codec::blob_bytes(
            self.payload,
        )
    }

    /// The entry that these bytes stand for.
    pub open spec fn parse(b: Seq<u8>) -> Result<EntryView, Seq<char>> {
        match codec::parse_list(b, |x: Seq<u8>| parse_header(x)) {
            Err(e) => Err(e),
            Ok((pairs, rest)) => match codec::parse_blob(rest) {
                Err(e) => Err(e),
                Ok((payload, _)) => Ok(EntryView { headers: set_all(pairs), payload }),
            },
        }
    }
}

impl Entry {
    /// No header name occurs twice.
    pub open spec fn wf(&self) -> bool {
        distinct(self@.headers)
    }

    /// An entry with this payload and no header.
    pub fn new(payload: Vec<u8>) -> (entry: Self)
        ensures
            entry@ == EntryView::plain(payload@),
            entry.wf(),
    {
        Entry { headers: Vec::new(), payload }
    }

    fn find_header(&self, engine: &str) -> (r: Option<usize>)
        ensures
            match r {
                Some(i) => names(self@.headers, engine@) && i == index_of(self@.headers, engine@)
                    && i < self.headers.len(),
                None => !names(self@.headers, engine@),
            },
    {
        let name: String = engine.to_owned();
        let mut i: usize = 0;
        while i < self.headers.len()
            invariant
                name@ == engine@,
                i <= self.headers.len(),
                forall|j: int| 0 <= j < i ==> (#[trigger] self@.headers[j]).0 != engine@,
            decreases self.headers.len() - i,
        {
            if self.headers[i].0 == name {
                proof {
                    let hs = self@.headers;
                    assert(hs[i as int].0 == engine@);
                    let k = index_of(hs, engine@);
                    assert(0 <= k < hs.len() && hs[k].0 == engine@ && forall|j: int|
                        0 <= j < k ==> (#[trigger] hs[j]).0 != engine@);
                }
                return Some(i);
            }
            assert(self@.headers[i as int].0 != engine@);
            i = i + 1;
        }
        None
    }

    /// The entry with a header set, in place of one of that name.
    pub fn with_header(self, engine: &str, header: Vec<u8>) -> (entry: Self)
        ensures
            entry@ == self@.with_header(engine@, header@),
            self.wf() ==> entry.wf(),
    {
        let mut entry = self;
        let ghost before = self@;
        match entry.find_header(engine) {
            Some(i) => {
                entry.headers.set(i, (engine.to_owned(), header));
                assert(entry@.headers == before.headers.update(i as int, (engine@, header@)));
            },
            None => {
                entry.headers.push((engine.to_owned(), header));
                assert(entry@.headers == before.headers.push((engine@, header@)));
            },
        }
        proof {
            set_header_distinct(before.headers, engine@, header@);
        }
        entry
    }

    /// The header of this name.
    pub fn get_header(&self, engine: &str) -> (r: Option<&[u8]>)
        ensures
            match r {
                Some(b) => self@.header(engine@) == Some(b@),
                None => self@.header(engine@) is None,
            },
    {
        match self.find_header(engine) {
            Some(i) => Some(self.headers[i].1.as_slice()),
            None => None,
        }
    }
}

impl Entry {
    /// The bytes of the entry.
    pub fn to_bytes(&self) -> (r: Result<Vec<u8>, RelosError>)
        ensures
            r is Ok,
            r->Ok_0@ == self@.bytes(),
    {
        let mut out: Vec<u8> = Vec::new();
        codec::put_u64(&mut out, self.headers.len() as u64);
        let ghost write = |h: HeaderView| header_bytes(h);
        let ghost all = self@.headers;
        let ghost count = codec::u64_bytes(all.len() as u64);
        let mut i: usize = 0;
        proof {
            assert(all.skip(0) == all);
        }
        while i < self.headers.len()
            invariant
                i <= self.headers.len(),
                all == self@.headers,
                write == |h: HeaderView| header_bytes(h),
                out@ + codec::items_bytes(all.skip(i as int), write) == count
                    + codec::items_bytes(all, write),
            decreases self.headers.len() - i,
        {
            let ghost before = out@;
            codec::put_str(&mut out, self.headers[i].0.as_str());
            codec::put_blob(&mut out, self.headers[i].1.as_slice());
            proof {
                let left = all.skip(i as int);
                assert(left[0] == all[i as int]);
                assert(left.drop_first() == all.skip(i + 1));
                let more = codec::items_bytes(all.skip(i + 1), write);
                assert(codec::items_bytes(left, write) == header_bytes(all[i as int]) + more);
                assert(out@ == before + header_bytes(all[i as int]));
                assert(out@ + more == before + (header_bytes(all[i as int]) + more));
            }
            i = i + 1;
        }
        proof {
            assert(all.skip(i as int) == Seq::<HeaderView>::empty());
            assert(out@ + codec::items_bytes(all.skip(i as int), write) == out@);
        }
        codec::put_blob(&mut out, self.payload.as_slice());
        Ok(out)
    }

    fn take_header(input: &[u8]) -> (r: Result<((String, Vec<u8>), &[u8]), String>)
        ensures
            codec::reads(r, parse_header(input@), |h: (String, Vec<u8>)| header_view(h)),
    {
        match codec::take_str(input) {
            Err(e) => Err(e),
            Ok((name, rest)) => match codec::take_blob(rest) {
                Err(e) => Err(e),
                Ok((bytes, rest)) => Ok(((name, bytes), rest)),
            },
        }
    }

    fn parse_from(bytes: &[u8]) -> (r: Result<Self, String>)
        ensures
            match (r, EntryView::parse(bytes@)) {
                (Ok(entry), Ok(v)) => entry@ == v && entry.wf(),
                (Err(e), Err(m)) => e@ == m,
                _ => false,
            },
    {
        let (count, start) = match codec::take_u64(bytes) {
            Err(e) => return Err(e),
            Ok(p) => p,
        };
        let ghost read = |x: Seq<u8>| parse_header(x);
        let mut input: &[u8] = start;
        let mut entry = Entry::new(Vec::new());
        let ghost mut pairs: Seq<HeaderView> = Seq::empty();
        let mut i: u64 = 0;
        proof {
            codec::prepend_nothing(codec::parse_items(start@, count as nat, read));
        }
        while i < count
            invariant
                i <= count,
                entry.wf(),
                entry@.payload == Seq::<u8>::empty(),
                entry@.headers == set_all(pairs),
                read == |x: Seq<u8>| parse_header(x),
                codec::parse_items(start@, count as nat, read) == codec::prepend(
                    pairs,
                    codec::parse_items(input@, (count - i) as nat, read),
                ),
                codec::parse_u64(bytes@) == codec::Parsed::Ok((count, start@)),
            decreases count - i,
        {
            match Self::take_header(input) {
                Err(e) => {
                    return Err(e);
                },
                Ok((h, rest)) => {
                    proof {
                        let seen = header_view(h);
                        codec::prepend_item(
                            pairs,
                            input@,
                            (count - i) as nat,
                            read,
                            seen,
                            rest@,
                        );
                        assert(pairs.push(seen).drop_last() == pairs);
                        pairs = pairs.push(seen);
                    }
                    entry = entry.with_header(h.0.as_str(), h.1);
                    input = rest;
                },
            }
            i = i + 1;
        }
        proof {
            codec::prepend_to_nothing(pairs, input@, read);
        }
        match codec::take_blob(input) {
            Err(e) => Err(e),
            Ok((payload, _)) => {
                entry.payload = payload;
                assert(entry@.headers == set_all(pairs));
                Ok(entry)
            },
        }
    }

    /// The entry that these bytes stand for.
    pub fn from_bytes(bytes: &[u8]) -> (r: Result<Self, RelosError>)
        ensures
            match (r, EntryView::parse(bytes@)) {
                (Ok(entry), Ok(v)) => entry@ == v && entry.wf(),
                (Err(e), Err(m)) => e@ == ErrorView::Serialization(m),
                _ => false,
            },
    {
        match Self::parse_from(bytes) {
            Ok(entry) => Ok(entry),
            Err(e) => Err(RelosError::Serialization(e)),
        }
    }
}

impl Clone for Entry {
    fn clone(&self) -> (copy: Self)
        ensures
            copy@ == self@,
    {
        let mut headers: Vec<(String, Vec<u8>)> = Vec::new();
        let mut i: usize = 0;
        while i < self.headers.len()
            invariant
                i <= self.headers.len(),
                headers@.len() == i,
                forall|j: int|
                    0 <= j < i ==> header_view(#[trigger] headers@[j]) == header_view(
                        self.headers@[j],
                    ),
            decreases self.headers.len() - i,
        {
            headers.push((self.headers[i].0.clone(), self.headers[i].1.clone()));
            i = i + 1;
        }
        let copy = Entry { headers, payload: self.payload.clone() };
        assert(copy@.headers == self@.headers);
        copy
    }
}

impl Default for Entry {
    fn default() -> (entry: Self)
        ensures
            entry@ == EntryView::plain(Seq::empty()),
            entry.wf(),
    {
        Entry::new(Vec::new())
    }
}

proof fn index_of_holds(headers: Seq<HeaderView>, name: Seq<char>)
    requires
        names(headers, name),
    ensures
        ({
            let k = index_of(headers, name);
            0 <= k < headers.len() && headers[k].0 == name && forall|j: int|
                0 <= j < k ==> (#[trigger] headers[j]).0 != name
        }),
    decreases headers.len(),
{
    first_exists(headers, name, headers.len() as int);
}

proof fn first_exists(headers: Seq<HeaderView>, name: Seq<char>, n: int)
    requires
        0 <= n <= headers.len(),
        exists|i: int| 0 <= i < n && (#[trigger] headers[i]).0 == name,
    ensures
        exists|i: int|
            0 <= i < headers.len() && (#[trigger] headers[i]).0 == name && forall|j: int|
                0 <= j < i ==> (#[trigger] headers[j]).0 != name,
    decreases n,
{
    let i = choose|i: int| 0 <= i < n && (#[trigger] headers[i]).0 == name;
    if exists|j: int| 0 <= j < i && (#[trigger] headers[j]).0 == name {
        first_exists(headers, name, i);
    }
}

pub(crate) proof fn set_header_distinct(headers: Seq<HeaderView>, name: Seq<char>, bytes: Seq<u8>)
    ensures
        distinct(headers) ==> distinct(set_header(headers, name, bytes)),
{
    if names(headers, name) {
        index_of_holds(headers, name);
    }
}

proof fn distinct_index(headers: Seq<HeaderView>, i: int)
    requires
        distinct(headers),
        0 <= i < headers.len(),
    ensures
        names(headers, headers[i].0),
        index_of(headers, headers[i].0) == i,
{
    let name = headers[i].0;
    assert(names(headers, name));
    index_of_holds(headers, name);
}

/// A header that was set is read back, and the other headers stay.
pub proof fn header_read_back(entry: EntryView, name: Seq<char>, bytes: Seq<u8>, other: Seq<char>)
    requires
        distinct(entry.headers),
    ensures
        entry.with_header(name, bytes).header(name) == Some(bytes),
        other != name ==> entry.with_header(name, bytes).header(other) == entry.header(other),
        entry.with_header(name, bytes).payload == entry.payload,
{
    let before = entry.headers;
    let after = entry.with_header(name, bytes).headers;
    set_header_distinct(before, name, bytes);
    let k = if names(before, name) {
        index_of(before, name)
    } else {
        before.len() as int
    };
    if names(before, name) {
        index_of_holds(before, name);
    }
    assert(after[k] == (name, bytes));
    distinct_index(after, k);
    if other != name {
        if names(before, other) {
            index_of_holds(before, other);
            let i = index_of(before, other);
            assert(after[i] == before[i]);
            distinct_index(after, i);
        } else if names(after, other) {
            index_of_holds(after, other);
            let i = index_of(after, other);
            assert(i == k || after[i] == before[i]);
        }
    }
}

proof fn set_all_of_distinct(pairs: Seq<HeaderView>)
    requires
        distinct(pairs),
    ensures
        set_all(pairs) == pairs,
    decreases pairs.len(),
{
    if pairs.len() > 0 {
        let front = pairs.drop_last();
        assert(distinct(front));
        set_all_of_distinct(front);
        assert(!names(front, pairs.last().0)) by {
            if names(front, pairs.last().0) {
                index_of_holds(front, pairs.last().0);
                let i = index_of(front, pairs.last().0);
                assert(pairs[i].0 == pairs[pairs.len() - 1].0);
            }
        }
        assert(front.push(pairs.last()) == pairs);
    } else {
        assert(pairs == Seq::<HeaderView>::empty());
    }
}

/// An entry comes back from its bytes.
pub proof fn entry_round_trip(entry: EntryView)
    requires
        distinct(entry.headers),
        entry.bytes().len() <= u64::MAX,
    ensures
        EntryView::parse(entry.bytes()) == Result::<EntryView, Seq<char>>::Ok(entry),
{
    let write = |h: HeaderView| header_bytes(h);
    let read = |x: Seq<u8>| parse_header(x);
    let hs = entry.headers;
    let tail = codec::blob_bytes(entry.payload);
    codec::u64_round_trip(hs.len() as u64, tail);
    assert forall|i: int| 0 <= i < hs.len() implies (#[trigger] write(hs[i])).len() >= 16 by {
        codec::u64_round_trip(vstd::utf8::encode_utf8(hs[i].0).len() as u64, Seq::empty());
        codec::u64_round_trip(hs[i].1.len() as u64, Seq::empty());
    }
    codec::items_bytes_len(hs, write, 16);
    codec::u64_round_trip(entry.payload.len() as u64, Seq::empty());
    assert forall|i: int, t: Seq<u8>| 0 <= i < hs.len() implies #[trigger] read(write(hs[i]) + t)
        == codec::Parsed::Ok((hs[i], t)) by {
        let (name, bytes) = hs[i];
        assert(write(hs[i]).len() <= codec::items_bytes(hs, write).len());
        codec::u64_round_trip(vstd::utf8::encode_utf8(name).len() as u64, Seq::empty());
        codec::u64_round_trip(bytes.len() as u64, Seq::empty());
        assert(write(hs[i]) + t == codec::str_bytes(name) + (codec::blob_bytes(bytes) + t));
        codec::str_round_trip(name, codec::blob_bytes(bytes) + t);
        codec::blob_round_trip(bytes, t);
    }
    codec::list_round_trip(hs, write, read, tail);
    codec::blob_round_trip(entry.payload, Seq::empty());
    assert(tail + Seq::<u8>::empty() == tail);
    set_all_of_distinct(hs);
}

} // verus!

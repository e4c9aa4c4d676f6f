//! What headers, texts and encodings are, item by item and byte by byte.

use vstd::prelude::*;

use crate::base::codec;
use crate::base::codec::Parsed;
use crate::base::entry;
use crate::base::entry::{EntryView, HeaderView};
use crate::base::error::ErrorView;
use crate::base::text;

verus! {

// Headers

/// The header that an entry returns is the first of that name, and none where no header
/// has it.
pub proof fn header_is_found_by_name(e: EntryView, name: Seq<char>, i: int)
    ensures
        0 <= i < e.headers.len() && e.headers[i].0 == name && (forall|j: int|
            0 <= j < i ==> (#[trigger] e.headers[j]).0 != name) ==> e.header(name) == Some(
            e.headers[i].1,
        ),
        (forall|j: int| 0 <= j < e.headers.len() ==> (#[trigger] e.headers[j]).0 != name)
            ==> e.header(name) is None,
{
    let hs = e.headers;
    if 0 <= i < hs.len() && hs[i].0 == name && (forall|j: int|
        0 <= j < i ==> (#[trigger] hs[j]).0 != name) {
        let k = entry::index_of(hs, name);
        assert(0 <= k < hs.len() && hs[k].0 == name && forall|j: int|
            0 <= j < k ==> (#[trigger] hs[j]).0 != name);
        if k < i {
            assert(hs[k].0 != name);
        } else if i < k {
            assert(hs[i].0 != name);
        }
    }
}

/// A header of a new name comes behind the others. One of a name that is there takes the
/// place of the first of that name. All others keep theirs, and so does the payload.
pub proof fn header_takes_its_place(
    e: EntryView,
    name: Seq<char>,
    bytes: Seq<u8>,
    i: int,
    k: int,
)
    ensures
        ({
            let next = e.with_header(name, bytes);
            let absent = forall|j: int|
                0 <= j < e.headers.len() ==> (#[trigger] e.headers[j]).0 != name;
            let first = 0 <= i < e.headers.len() && e.headers[i].0 == name && forall|j: int|
                0 <= j < i ==> (#[trigger] e.headers[j]).0 != name;
            &&& next.payload == e.payload
            &&& absent ==> next.headers == e.headers.push((name, bytes))
            &&& first ==> next.headers.len() == e.headers.len() && next.headers[i] == (name, bytes)
            &&& first && 0 <= k < e.headers.len() && k != i ==> next.headers[k] == e.headers[k]
        }),
{
    let hs = e.headers;
    if 0 <= i < hs.len() && hs[i].0 == name && (forall|j: int|
        0 <= j < i ==> (#[trigger] hs[j]).0 != name) {
        let n = entry::index_of(hs, name);
        assert(0 <= n < hs.len() && hs[n].0 == name && forall|j: int|
            0 <= j < n ==> (#[trigger] hs[j]).0 != name);
        if n < i {
            assert(hs[n].0 != name);
        } else if i < n {
            assert(hs[i].0 != name);
        }
    }
}

proof fn all_set(pairs: Seq<HeaderView>, payload: Seq<u8>, name: Seq<char>)
    ensures
        ({
            let e = EntryView { headers: entry::set_all(pairs), payload };
            &&& entry::distinct(e.headers)
            &&& (forall|j: int| 0 <= j < pairs.len() ==> (#[trigger] pairs[j]).0 != name)
                ==> e.header(name) is None
            &&& forall|k: int|
                0 <= k < pairs.len() && (#[trigger] pairs[k]).0 == name && (forall|j: int|
                    k < j < pairs.len() ==> (#[trigger] pairs[j]).0 != name) ==> e.header(name)
                    == Some(pairs[k].1)
        }),
    decreases pairs.len(),
{
    if pairs.len() > 0 {
        let front = pairs.drop_last();
        let last = pairs.last();
        all_set(front, payload, name);
        let before = EntryView { headers: entry::set_all(front), payload };
        let e = EntryView { headers: entry::set_all(pairs), payload };
        assert(e == before.with_header(last.0, last.1));
        entry::set_header_distinct(before.headers, last.0, last.1);
        entry::header_read_back(before, last.0, last.1, name);
        assert(pairs[pairs.len() - 1] == last);
        if forall|j: int| 0 <= j < pairs.len() ==> (#[trigger] pairs[j]).0 != name {
            assert forall|j: int| 0 <= j < front.len() implies (#[trigger] front[j]).0 != name by {
                assert(front[j] == pairs[j]);
            }
        }
        assert forall|k: int|
            0 <= k < pairs.len() && (#[trigger] pairs[k]).0 == name && (forall|j: int|
                k < j < pairs.len() ==> (#[trigger] pairs[j]).0 != name) implies e.header(name)
            == Some(pairs[k].1) by {
            if k < front.len() {
                assert(front[k] == pairs[k]);
                assert forall|j: int| k < j < front.len() implies (#[trigger] front[j]).0
                    != name by {
                    assert(front[j] == pairs[j]);
                }
                assert(last.0 != name);
            }
        }
    }
}

/// Of headers of one name that come one after the other the last counts, and no name
/// occurs that none of them has.
pub proof fn last_header_counts(
    pairs: Seq<HeaderView>,
    payload: Seq<u8>,
    name: Seq<char>,
    k: int,
)
    ensures
        ({
            let e = EntryView { headers: entry::set_all(pairs), payload };
            &&& entry::distinct(e.headers)
            &&& (forall|j: int| 0 <= j < pairs.len() ==> (#[trigger] pairs[j]).0 != name)
                ==> e.header(name) is None
            &&& 0 <= k < pairs.len() && pairs[k].0 == name && (forall|j: int|
                k < j < pairs.len() ==> (#[trigger] pairs[j]).0 != name) ==> e.header(name)
                == Some(pairs[k].1)
        }),
{
    all_set(pairs, payload, name);
}

/// An entry without headers holds its payload and returns no header.
pub proof fn plain_entry_is_plain(payload: Seq<u8>, name: Seq<char>)
    ensures
        EntryView::plain(payload).payload == payload,
        EntryView::plain(payload).header(name) is None,
{
}

// Texts

/// The decimal notation of a number ends in its last digit, behind the notation of the
/// other digits where there are any.
pub proof fn decimal_is_digit_by_digit(n: nat)
    ensures
        text::decimal_text(n).last() == ('0' as nat + n % 10) as char,
        n < 10 ==> text::decimal_text(n).len() == 1,
        n >= 10 ==> text::decimal_text(n).drop_last() == text::decimal_text(n / 10),
{
    if n >= 10 {
        let front = text::decimal_text(n / 10);
        assert(front.push(text::digit_char(n % 10)).drop_last() == front);
    }
}

/// An error is reported with what it carries.
pub proof fn error_text_tells_the_error(e: ErrorView)
    ensures
        match e {
            ErrorView::Sealed(p) => e.text() == "log sealed at position "@ + text::decimal_text(
                p as nat,
            ),
            ErrorView::Trimmed(p) => e.text() == "position "@ + text::decimal_text(p as nat)
                + " has been trimmed"@,
            ErrorView::EndOfLog => e.text() == "end of log reached"@,
            ErrorView::VersionMismatch { expected, actual } => e.text()
                == "version mismatch: expected "@ + text::decimal_text(expected as nat)
                + ", got "@ + text::decimal_text(actual as nat),
            ErrorView::Serialization(m) => e.text() == "serialization error: "@ + m,
            ErrorView::Store(m) => e.text() == "store error: "@ + m,
            ErrorView::NotFound(m) => e.text() == "not found: "@ + m,
            ErrorView::InvalidOperation(m) => e.text() == "invalid operation: "@ + m,
            ErrorView::Io(m) => e.text() == "io error: "@ + m,
            ErrorView::Internal(m) => e.text() == "internal error: "@ + m,
        },
{
}

// Encodings

/// Numbers are little-endian and of fixed width, a truth value is one byte, and a text
/// or a list of bytes stands behind its length.
pub proof fn single_values_are_laid_out(
    a: u32,
    b: u64,
    c: i64,
    d: bool,
    bytes: Seq<u8>,
    s: Seq<char>,
)
    ensures
        codec::u32_bytes(a) == vstd::bytes::spec_u32_to_le_bytes(a),
        codec::u64_bytes(b) == vstd::bytes::spec_u64_to_le_bytes(b),
        codec::i64_bytes(c) == vstd::bytes::spec_u64_to_le_bytes(c as u64),
        codec::bool_bytes(d).len() == 1,
        codec::bool_bytes(d)[0] == if d {
            1u8
        } else {
            0u8
        },
        codec::blob_bytes(bytes) == vstd::bytes::spec_u64_to_le_bytes(bytes.len() as u64) + bytes,
        codec::str_bytes(s) == codec::blob_bytes(vstd::utf8::encode_utf8(s)),
{
}

/// A number is read from the bytes in front, as many as it has, and what follows is left.
/// With fewer bytes reading fails.
pub proof fn numbers_are_read_from_the_front(b: Seq<u8>)
    ensures
        b.len() < 4 ==> codec::parse_u32(b) is Err,
        b.len() >= 4 ==> codec::parse_u32(b) == Parsed::<u32>::Ok(
            (vstd::bytes::spec_u32_from_le_bytes(b.take(4)), b.skip(4)),
        ),
        b.len() < 8 ==> codec::parse_u64(b) is Err && codec::parse_i64(b) is Err,
        b.len() >= 8 ==> codec::parse_u64(b) == Parsed::<u64>::Ok(
            (vstd::bytes::spec_u64_from_le_bytes(b.take(8)), b.skip(8)),
        ),
        b.len() >= 8 ==> codec::parse_i64(b) == Parsed::<i64>::Ok(
            (vstd::bytes::spec_u64_from_le_bytes(b.take(8)) as i64, b.skip(8)),
        ),
        codec::parse_bool(b) is Ok <==> b.len() >= 1 && (b[0] == 0 || b[0] == 1),
        codec::parse_bool(b) is Ok ==> codec::parse_bool(b)->Ok_0 == (b[0] == 1, b.skip(1)),
{
}

/// A list of bytes is read where all that its length announces are there, and a text
/// where they are a text's bytes besides.
pub proof fn announced_bytes_are_read(b: Seq<u8>)
    ensures
        ({
            let n = vstd::bytes::spec_u64_from_le_bytes(b.take(8)) as int;
            let there = b.len() >= 8 && b.len() >= 8 + n;
            &&& codec::parse_blob(b) is Ok <==> there
            &&& there ==> codec::parse_blob(b)->Ok_0 == (b.subrange(8, 8 + n), b.skip(8 + n))
            &&& codec::parse_str(b) is Ok <==> there && vstd::utf8::valid_utf8(
                b.subrange(8, 8 + n),
            )
            &&& codec::parse_str(b) is Ok ==> codec::parse_str(b)->Ok_0 == (
                vstd::utf8::decode_utf8(b.subrange(8, 8 + n)),
                b.skip(8 + n),
            )
        }),
{
}

/// The items of a list stand one behind the other, behind their number.
pub proof fn items_follow_one_another<T>(
    first: T,
    others: Seq<T>,
    write: spec_fn(T) -> Seq<u8>,
)
    ensures
        codec::items_bytes(Seq::<T>::empty(), write) == Seq::<u8>::empty(),
        codec::items_bytes(seq![first] + others, write) == write(first) + codec::items_bytes(
            others,
            write,
        ),
        codec::list_bytes(others, write) == vstd::bytes::spec_u64_to_le_bytes(others.len() as u64)
            + codec::items_bytes(others, write),
{
    let all = seq![first] + others;
    assert(all[0] == first);
    assert(all.drop_first() == others);
}

/// Items are read one behind the other, as many as were asked for, and the first that
/// cannot be read is reported.
pub proof fn items_are_read_one_by_one<T>(
    b: Seq<u8>,
    n: nat,
    read: spec_fn(Seq<u8>) -> Parsed<T>,
)
    ensures
        codec::parse_items(b, 0, read) == Parsed::<Seq<T>>::Ok((Seq::empty(), b)),
        ({
            let whole = codec::parse_items(b, n + 1, read);
            &&& read(b) is Err ==> whole == Parsed::<Seq<T>>::Err(read(b)->Err_0)
            &&& read(b) is Ok ==> {
                let more = codec::parse_items(read(b)->Ok_0.1, n, read);
                &&& more is Err ==> whole == more
                &&& more is Ok ==> whole == Parsed::<Seq<T>>::Ok(
                    (seq![read(b)->Ok_0.0] + more->Ok_0.0, more->Ok_0.1),
                )
            }
        }),
        b.len() >= 8 ==> codec::parse_list(b, read) == codec::parse_items(
            b.skip(8),
            vstd::bytes::spec_u64_from_le_bytes(b.take(8)) as nat,
            read,
        ),
        b.len() < 8 ==> codec::parse_list(b, read) is Err,
{
}

/// An entry's bytes are its headers as a list, each a name and its bytes, and then its
/// payload.
pub proof fn entry_is_laid_out(e: EntryView, h: HeaderView)
    ensures
        entry::header_bytes(h) == codec::str_bytes(h.0) + codec::blob_bytes(h.1),
        e.bytes() == codec::list_bytes(e.headers, |x: HeaderView| entry::header_bytes(x))
            + codec::blob_bytes(e.payload),
{
}

/// A header is read as a name and, behind it, its bytes.
pub proof fn header_is_read_in_order(b: Seq<u8>)
    ensures
        ({
            let name = codec::parse_str(b);
            let bytes = codec::parse_blob(name->Ok_0.1);
            let r = entry::parse_header(b);
            &&& name is Err ==> r == Parsed::<HeaderView>::Err(name->Err_0)
            &&& name is Ok && bytes is Err ==> r == Parsed::<HeaderView>::Err(bytes->Err_0)
            &&& name is Ok && bytes is Ok ==> r == Parsed::<HeaderView>::Ok(
                ((name->Ok_0.0, bytes->Ok_0.0), bytes->Ok_0.1),
            )
        }),
{
}

/// Bytes are an entry's where its headers and its payload can be read from them, and
/// what follows is left out.
pub proof fn entry_is_read_in_order(b: Seq<u8>)
    ensures
        ({
            let headers = codec::parse_list(b, |x: Seq<u8>| entry::parse_header(x));
            let payload = codec::parse_blob(headers->Ok_0.1);
            let r = EntryView::parse(b);
            &&& headers is Err ==> r == Result::<EntryView, Seq<char>>::Err(headers->Err_0)
            &&& headers is Ok && payload is Err ==> r == Result::<EntryView, Seq<char>>::Err(
                payload->Err_0,
            )
            &&& headers is Ok && payload is Ok ==> r is Ok && r->Ok_0.payload == payload->Ok_0.0
                && r->Ok_0.headers == entry::set_all(headers->Ok_0.0)
        }),
{
}

/// What was read is the value and the rest that it is held to, or the same failure.
pub proof fn reading_is_the_parse<T, V>(
    r: Result<(T, &[u8]), String>,
    p: Parsed<V>,
    view: spec_fn(T) -> V,
)
    requires
        codec::reads(r, p, view),
    ensures
        r is Ok ==> p == Parsed::<V>::Ok((view(r->Ok_0.0), r->Ok_0.1@)),
        r is Err ==> p == Parsed::<V>::Err(r->Err_0@),
{
}

/// An alternative that there is not is named with its number and with how many there are.
pub proof fn unknown_alternative_is_named(tag: u32, count: nat)
    ensures
        codec::tag_failure(tag, count) == "invalid value: integer `"@ + text::decimal_text(
            tag as nat,
        ) + "`, expected variant index 0 <= i < "@ + text::decimal_text(count),
{
}

/// The contents of a list of byte vectors are those of each.
pub proof fn blobs_are_seen_one_by_one(v: Seq<Vec<u8>>, i: int)
    ensures
        codec::blobs_view(v).len() == v.len(),
        0 <= i < v.len() ==> codec::blobs_view(v)[i] == v[i]@,
{
}

} // verus!

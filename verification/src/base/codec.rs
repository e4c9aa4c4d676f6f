//! The byte encoding of entries, commands and rows.
//!
//! Integers are little-endian and of fixed width, a text or a list is preceded
//! by its length in eight bytes, and an alternative is preceded by its number in
//! four. The encoding of single values is bincode's; how they follow one another
//! in a larger value is stated and proved here.

use vstd::prelude::*;
use vstd::slice::slice_subrange;
use vstd::string::StringExecFns;

use crate::base::text;

verus! {

/// What reading a value off the front of a byte sequence gives: the value and
/// the bytes behind it, or the text of the failure.
pub type Parsed<T> = Result<(T, Seq<u8>), Seq<char>>;

// Encodings

pub open spec fn u32_bytes(n: u32) -> Seq<u8> {
    vstd::bytes::spec_u32_to_le_bytes(n)
}

pub open spec fn u64_bytes(n: u64) -> Seq<u8> {
    vstd::bytes::spec_u64_to_le_bytes(n)
}

pub open spec fn i64_bytes(n: i64) -> Seq<u8> {
    u64_bytes(n as u64)
}

pub open spec fn bool_bytes(b: bool) -> Seq<u8> {
    seq![
        if b {
            1u8
        } else {
            0u8
        },
    ]
}

pub open spec fn blob_bytes(b: Seq<u8>) -> Seq<u8> {
    u64_bytes(b.len() as u64) + b
}

pub open spec fn str_bytes(s: Seq<char>) -> Seq<u8> {
    blob_bytes(vstd::utf8::encode_utf8(s))
}

/// The encodings of the items, one after the other.
pub open spec fn items_bytes<T>(items: Seq<T>, item: spec_fn(T) -> Seq<u8>) -> Seq<u8>
    decreases items.len(),
{
    if items.len() == 0 {
        Seq::empty()
    } else {
        item(items[0]) + items_bytes(items.drop_first(), item)
    }
}

/// A list: the number of items, then the items.
pub open spec fn list_bytes<T>(items: Seq<T>, item: spec_fn(T) -> Seq<u8>) -> Seq<u8> {
    u64_bytes(items.len() as u64) + items_bytes(items, item)
}

// Failure texts of the decoder

/// The text of bincode's failure to read a `u32` from these bytes.
pub uninterp spec fn u32_failure(input: Seq<u8>) -> Seq<char>;

/// The text of bincode's failure to read a `u64` from these bytes.
pub uninterp spec fn u64_failure(input: Seq<u8>) -> Seq<char>;

/// The text of bincode's failure to read an `i64` from these bytes.
pub uninterp spec fn i64_failure(input: Seq<u8>) -> Seq<char>;

/// The text of bincode's failure to read a `bool` from these bytes.
pub uninterp spec fn bool_failure(input: Seq<u8>) -> Seq<char>;

/// The text of bincode's failure to read a string from these bytes.
pub uninterp spec fn str_failure(input: Seq<u8>) -> Seq<char>;

/// The text of bincode's failure to read a byte vector from these bytes.
pub uninterp spec fn blob_failure(input: Seq<u8>) -> Seq<char>;

/// The text of bincode's failure to read a list of byte vectors from these bytes.
pub uninterp spec fn blobs_failure(input: Seq<u8>) -> Seq<char>;

/// The text of bincode's failure to read a `usize` from these bytes.
pub uninterp spec fn usize_failure(input: Seq<u8>) -> Seq<char>;

/// The text of bincode's failure to read two `u64` from these bytes.
pub uninterp spec fn u64_pair_failure(input: Seq<u8>) -> Seq<char>;

/// The text that reports an alternative number outside `0 .. count`.
pub open spec fn tag_failure(tag: u32, count: nat) -> Seq<char> {
    "invalid value: integer `"@ + text::decimal_text(tag as nat)
        + "`, expected variant index 0 <= i < "@ + text::decimal_text(count)
}

// Decodings

pub open spec fn parse_u32(b: Seq<u8>) -> Parsed<u32> {
    if b.len() >= 4 {
        Ok((vstd::bytes::spec_u32_from_le_bytes(b.take(4)), b.skip(4)))
    } else {
        Err(u32_failure(b))
    }
}

pub open spec fn parse_u64(b: Seq<u8>) -> Parsed<u64> {
    if b.len() >= 8 {
        Ok((vstd::bytes::spec_u64_from_le_bytes(b.take(8)), b.skip(8)))
    } else {
        Err(u64_failure(b))
    }
}

pub open spec fn parse_i64(b: Seq<u8>) -> Parsed<i64> {
    if b.len() >= 8 {
        Ok((vstd::bytes::spec_u64_from_le_bytes(b.take(8)) as i64, b.skip(8)))
    } else {
        Err(i64_failure(b))
    }
}

pub open spec fn parse_bool(b: Seq<u8>) -> Parsed<bool> {
    if b.len() >= 1 && b[0] <= 1 {
        Ok((b[0] == 1, b.skip(1)))
    } else {
        Err(bool_failure(b))
    }
}

/// The length in front of a blob, and whether the input holds so many bytes
/// behind it.
pub open spec fn holds_blob(b: Seq<u8>) -> bool {
    b.len() >= 8 && b.len() - 8 >= vstd::bytes::spec_u64_from_le_bytes(b.take(8))
}

pub open spec fn blob_body(b: Seq<u8>) -> Seq<u8> {
    b.subrange(8, 8 + vstd::bytes::spec_u64_from_le_bytes(b.take(8)))
}

pub open spec fn parse_blob(b: Seq<u8>) -> Parsed<Seq<u8>> {
    if holds_blob(b) {
        Ok((blob_body(b), b.skip(8 + blob_body(b).len() as int)))
    } else {
        Err(blob_failure(b))
    }
}

pub open spec fn parse_str(b: Seq<u8>) -> Parsed<Seq<char>> {
    if holds_blob(b) && vstd::utf8::valid_utf8(blob_body(b)) {
        Ok((vstd::utf8::decode_utf8(blob_body(b)), b.skip(8 + blob_body(b).len() as int)))
    } else {
        Err(str_failure(b))
    }
}

/// Reads `n` items, one after the other; the first failure stops it.
pub open spec fn parse_items<T>(
    b: Seq<u8>,
    n: nat,
    item: spec_fn(Seq<u8>) -> Parsed<T>,
) -> Parsed<Seq<T>>
    decreases n,
{
    if n == 0 {
        Ok((Seq::empty(), b))
    } else {
        match item(b) {
            Err(e) => Err(e),
            Ok((first, rest)) => prepend(seq![first], parse_items(rest, (n - 1) as nat, item)),
        }
    }
}

/// `items` in front of what `more` holds.
pub open spec fn prepend<T>(items: Seq<T>, more: Parsed<Seq<T>>) -> Parsed<Seq<T>> {
    match more {
        Err(e) => Err(e),
        Ok((others, rest)) => Ok((items + others, rest)),
    }
}

/// A list: the number of items, then the items.
pub open spec fn parse_list<T>(b: Seq<u8>, item: spec_fn(Seq<u8>) -> Parsed<T>) -> Parsed<
    Seq<T>,
> {
    match parse_u64(b) {
        Err(e) => Err(e),
        Ok((n, rest)) => parse_items(rest, n as nat, item),
    }
}

/// Whether an executed reading came out as `p` says, its value seen as `v`.
pub open spec fn reads<T, V>(
    r: Result<(T, &[u8]), String>,
    p: Parsed<V>,
    view: spec_fn(T) -> V,
) -> bool {
    match (r, p) {
        (Ok((v, rest)), Ok((w, tail))) => view(v) == w && rest@ == tail,
        (Err(e), Err(m)) => e@ == m,
        _ => false,
    }
}

// Calls into bincode

/// Calls `bincode::serialize` on a `u32`: four bytes, little-endian. Writing
/// into a vector without a size limit does not fail.
#[verifier::external_body]
fn encode_u32(n: u32) -> (r: Result<Vec<u8>, String>)
    ensures
        r is Ok,
        r->Ok_0@ == u32_bytes(n),
{
    bincode::serialize(&n).map_err(|e| e.to_string())
}

/// Calls `bincode::serialize` on a `u64`: eight bytes, little-endian.
#[verifier::external_body]
fn encode_u64(n: u64) -> (r: Result<Vec<u8>, String>)
    ensures
        r is Ok,
        r->Ok_0@ == u64_bytes(n),
{
    bincode::serialize(&n).map_err(|e| e.to_string())
}

/// Calls `bincode::serialize` on an `i64`: the eight bytes of its
/// two's-complement bits, little-endian.
#[verifier::external_body]
fn encode_i64(n: i64) -> (r: Result<Vec<u8>, String>)
    ensures
        r is Ok,
        r->Ok_0@ == i64_bytes(n),
{
    bincode::serialize(&n).map_err(|e| e.to_string())
}

/// Calls `bincode::serialize` on a `bool`: one byte, 1 for true and 0 for false.
#[verifier::external_body]
fn encode_bool(v: bool) -> (r: Result<Vec<u8>, String>)
    ensures
        r is Ok,
        r->Ok_0@ == bool_bytes(v),
{
    bincode::serialize(&v).map_err(|e| e.to_string())
}

/// Calls `bincode::serialize` on a `str`: the length of its UTF-8 form in eight
/// bytes, then that form.
#[verifier::external_body]
fn encode_str(s: &str) -> (r: Result<Vec<u8>, String>)
    ensures
        r is Ok,
        r->Ok_0@ == str_bytes(s@),
{
    bincode::serialize(s).map_err(|e| e.to_string())
}

/// Calls `bincode::serialize` on a byte slice: its length in eight bytes, then
/// the bytes.
#[verifier::external_body]
fn encode_blob(v: &[u8]) -> (r: Result<Vec<u8>, String>)
    ensures
        r is Ok,
        r->Ok_0@ == blob_bytes(v@),
{
    bincode::serialize(v).map_err(|e| e.to_string())
}

/// Calls `bincode::serialize` on a list of byte vectors: their number in eight
/// bytes, then each with its own length in front.
#[verifier::external_body]
pub(crate) fn encode_blobs(v: &Vec<Vec<u8>>) -> (r: Result<Vec<u8>, String>)
    ensures
        r is Ok,
        r->Ok_0@ == list_bytes(blobs_view(v@), |p: Seq<u8>| blob_bytes(p)),
{
    bincode::serialize(v).map_err(|e| e.to_string())
}

/// Calls `bincode::serialize` on a `usize`, which is written as a `u64`.
#[verifier::external_body]
pub(crate) fn encode_usize(n: usize) -> (r: Result<Vec<u8>, String>)
    ensures
        r is Ok,
        r->Ok_0@ == u64_bytes(n as u64),
{
    bincode::serialize(&n).map_err(|e| e.to_string())
}

/// Calls `bincode::serialize` on a pair of `u64`: the first, then the second.
#[verifier::external_body]
pub(crate) fn encode_u64_pair(a: u64, b: u64) -> (r: Result<Vec<u8>, String>)
    ensures
        r is Ok,
        r->Ok_0@ == u64_bytes(a) + u64_bytes(b),
{
    bincode::serialize(&(a, b)).map_err(|e| e.to_string())
}

/// Calls `bincode::deserialize` for a `u32`: it takes the first four bytes and
/// leaves the rest unread, and fails only where there are fewer.
#[verifier::external_body]
fn decode_u32(b: &[u8]) -> (r: Result<u32, String>)
    ensures
        match r {
            Ok(n) => b@.len() >= 4 && n == vstd::bytes::spec_u32_from_le_bytes(b@.take(4)),
            Err(e) => b@.len() < 4 && e@ == u32_failure(b@),
        },
{
    bincode::deserialize(b).map_err(|e| e.to_string())
}

/// Calls `bincode::deserialize` for a `u64`: it takes the first eight bytes and
/// leaves the rest unread, and fails only where there are fewer.
#[verifier::external_body]
fn decode_u64(b: &[u8]) -> (r: Result<u64, String>)
    ensures
        match r {
            Ok(n) => b@.len() >= 8 && n == vstd::bytes::spec_u64_from_le_bytes(b@.take(8)),
            Err(e) => b@.len() < 8 && e@ == u64_failure(b@),
        },
{
    bincode::deserialize(b).map_err(|e| e.to_string())
}

/// Calls `bincode::deserialize` for an `i64`: it takes the first eight bytes as
/// two's-complement bits, and fails only where there are fewer.
#[verifier::external_body]
fn decode_i64(b: &[u8]) -> (r: Result<i64, String>)
    ensures
        match r {
            Ok(n) => b@.len() >= 8 && n == vstd::bytes::spec_u64_from_le_bytes(
                b@.take(8),
            ) as i64,
            Err(e) => b@.len() < 8 && e@ == i64_failure(b@),
        },
{
    bincode::deserialize(b).map_err(|e| e.to_string())
}

/// Calls `bincode::deserialize` for a `bool`: it takes the first byte, and fails
/// where there is none or where it is neither 0 nor 1.
#[verifier::external_body]
fn decode_bool(b: &[u8]) -> (r: Result<bool, String>)
    ensures
        match r {
            Ok(v) => b@.len() >= 1 && b@[0] <= 1 && v == (b@[0] == 1),
            Err(e) => !(b@.len() >= 1 && b@[0] <= 1) && e@ == bool_failure(b@),
        },
{
    bincode::deserialize(b).map_err(|e| e.to_string())
}

/// Calls `bincode::deserialize` for a `String`: it takes the length in the first
/// eight bytes and that many bytes behind it, and fails where there are fewer or
/// where they are not UTF-8.
#[verifier::external_body]
fn decode_str(b: &[u8]) -> (r: Result<String, String>)
    ensures
        match r {
            Ok(s) => holds_blob(b@) && vstd::utf8::valid_utf8(blob_body(b@)) && s@
                == vstd::utf8::decode_utf8(blob_body(b@)),
            Err(e) => !(holds_blob(b@) && vstd::utf8::valid_utf8(blob_body(b@))) && e@
                == str_failure(b@),
        },
{
    bincode::deserialize(b).map_err(|e| e.to_string())
}

/// Calls `bincode::deserialize` for a `Vec<u8>`: it takes the length in the
/// first eight bytes and that many bytes behind it, and fails where there are
/// fewer.
#[verifier::external_body]
fn decode_blob(b: &[u8]) -> (r: Result<Vec<u8>, String>)
    ensures
        match r {
            Ok(v) => holds_blob(b@) && v@ == blob_body(b@),
            Err(e) => !holds_blob(b@) && e@ == blob_failure(b@),
        },
{
    bincode::deserialize(b).map_err(|e| e.to_string())
}

/// Calls `bincode::deserialize` for a `Vec<Vec<u8>>`: it takes the number of
/// vectors from the first eight bytes and reads so many, each with its length in
/// front, and fails where the input ends too early.
#[verifier::external_body]
pub(crate) fn decode_blobs(b: &[u8]) -> (r: Result<Vec<Vec<u8>>, String>)
    ensures
        match r {
            Ok(v) => parse_list(b@, |x: Seq<u8>| parse_blob(x)) matches Ok((blobs, _))
                && blobs_view(v@) == blobs,
            Err(e) => parse_list(b@, |x: Seq<u8>| parse_blob(x)) is Err && e@ == blobs_failure(b@),
        },
{
    bincode::deserialize(b).map_err(|e| e.to_string())
}

/// Calls `bincode::deserialize` for a `usize`, which is read as a `u64`: it
/// fails where there are fewer than eight bytes or where the number does not fit.
#[verifier::external_body]
pub(crate) fn decode_usize(b: &[u8]) -> (r: Result<usize, String>)
    ensures
        match r {
            Ok(n) => b@.len() >= 8 && n == vstd::bytes::spec_u64_from_le_bytes(b@.take(8)),
            Err(e) => !(b@.len() >= 8 && vstd::bytes::spec_u64_from_le_bytes(b@.take(8))
                <= usize::MAX) && e@ == usize_failure(b@),
        },
{
    bincode::deserialize(b).map_err(|e| e.to_string())
}

/// Calls `bincode::deserialize` for a pair of `u64`: it takes the first sixteen
/// bytes, and fails only where there are fewer.
#[verifier::external_body]
pub(crate) fn decode_u64_pair(b: &[u8]) -> (r: Result<(u64, u64), String>)
    ensures
        match r {
            Ok((x, y)) => b@.len() >= 16 && x == vstd::bytes::spec_u64_from_le_bytes(b@.take(8))
                && y == vstd::bytes::spec_u64_from_le_bytes(b@.subrange(8, 16)),
            Err(e) => b@.len() < 16 && e@ == u64_pair_failure(b@),
        },
{
    bincode::deserialize(b).map_err(|e| e.to_string())
}

/// The contents of a list of byte vectors.
pub open spec fn blobs_view(v: Seq<Vec<u8>>) -> Seq<Seq<u8>> {
    v.map_values(|p: Vec<u8>| p@)
}

// Writing

pub(crate) fn put_u32(out: &mut Vec<u8>, n: u32)
    ensures
        final(out)@ == old(out)@ + u32_bytes(n),
{
    let mut b = encode_u32(n).unwrap();
    out.append(&mut b);
}

pub(crate) fn put_u64(out: &mut Vec<u8>, n: u64)
    ensures
        final(out)@ == old(out)@ + u64_bytes(n),
{
    let mut b = encode_u64(n).unwrap();
    out.append(&mut b);
}

pub(crate) fn put_i64(out: &mut Vec<u8>, n: i64)
    ensures
        final(out)@ == old(out)@ + i64_bytes(n),
{
    let mut b = encode_i64(n).unwrap();
    out.append(&mut b);
}

pub(crate) fn put_bool(out: &mut Vec<u8>, v: bool)
    ensures
        final(out)@ == old(out)@ + bool_bytes(v),
{
    let mut b = encode_bool(v).unwrap();
    out.append(&mut b);
}

pub(crate) fn put_str(out: &mut Vec<u8>, s: &str)
    ensures
        final(out)@ == old(out)@ + str_bytes(s@),
{
    let mut b = encode_str(s).unwrap();
    out.append(&mut b);
}

pub(crate) fn put_blob(out: &mut Vec<u8>, v: &[u8])
    ensures
        final(out)@ == old(out)@ + blob_bytes(v@),
{
    let mut b = encode_blob(v).unwrap();
    out.append(&mut b);
}

// Reading

pub(crate) fn take_u32(input: &[u8]) -> (r: Result<(u32, &[u8]), String>)
    ensures
        reads(r, parse_u32(input@), |n: u32| n),
{
    match decode_u32(input) {
        Err(e) => Err(e),
        Ok(n) => Ok((n, slice_subrange(input, 4, input.len()))),
    }
}

pub(crate) fn take_u64(input: &[u8]) -> (r: Result<(u64, &[u8]), String>)
    ensures
        reads(r, parse_u64(input@), |n: u64| n),
{
    match decode_u64(input) {
        Err(e) => Err(e),
        Ok(n) => Ok((n, slice_subrange(input, 8, input.len()))),
    }
}

pub(crate) fn take_i64(input: &[u8]) -> (r: Result<(i64, &[u8]), String>)
    ensures
        reads(r, parse_i64(input@), |n: i64| n),
{
    match decode_i64(input) {
        Err(e) => Err(e),
        Ok(n) => Ok((n, slice_subrange(input, 8, input.len()))),
    }
}

pub(crate) fn take_bool(input: &[u8]) -> (r: Result<(bool, &[u8]), String>)
    ensures
        reads(r, parse_bool(input@), |v: bool| v),
{
    match decode_bool(input) {
        Err(e) => Err(e),
        Ok(v) => Ok((v, slice_subrange(input, 1, input.len()))),
    }
}

pub(crate) fn take_str(input: &[u8]) -> (r: Result<(String, &[u8]), String>)
    ensures
        reads(r, parse_str(input@), |s: String| s@),
{
    match decode_str(input) {
        Err(e) => Err(e),
        Ok(s) => {
            proof {
                vstd::utf8::decode_utf8_encode_utf8(blob_body(input@));
            }
            let end: usize = input.len();
            let n: usize = s.as_str().as_bytes().len();
            Ok((s, slice_subrange(input, 8 + n, end)))
        },
    }
}

pub(crate) fn take_blob(input: &[u8]) -> (r: Result<(Vec<u8>, &[u8]), String>)
    ensures
        reads(r, parse_blob(input@), |v: Vec<u8>| v@),
{
    match decode_blob(input) {
        Err(e) => Err(e),
        Ok(v) => {
            let end: usize = input.len();
            let n: usize = v.len();
            Ok((v, slice_subrange(input, 8 + n, end)))
        },
    }
}

/// Writes the text that reports an alternative number outside `0 .. count`.
pub(crate) fn tag_message(tag: u32, count: u64) -> (m: String)
    ensures
        m@ == tag_failure(tag, count as nat),
{
    "invalid value: integer `".to_owned().concat(text::decimal(tag as u64).as_str()).concat(
        "`, expected variant index 0 <= i < ",
    ).concat(text::decimal(count).as_str())
}

// What was written is read back

pub proof fn u32_round_trip(n: u32, rest: Seq<u8>)
    ensures
        u32_bytes(n).len() == 4,
        parse_u32(u32_bytes(n) + rest) == Parsed::Ok((n, rest)),
{
    vstd::bytes::lemma_auto_spec_u32_to_from_le_bytes();
    let b = u32_bytes(n) + rest;
    assert(b.take(4) == u32_bytes(n));
    assert(b.skip(4) == rest);
}

pub proof fn u64_round_trip(n: u64, rest: Seq<u8>)
    ensures
        u64_bytes(n).len() == 8,
        parse_u64(u64_bytes(n) + rest) == Parsed::Ok((n, rest)),
{
    vstd::bytes::lemma_auto_spec_u64_to_from_le_bytes();
    let b = u64_bytes(n) + rest;
    assert(b.take(8) == u64_bytes(n));
    assert(b.skip(8) == rest);
}

pub proof fn i64_round_trip(n: i64, rest: Seq<u8>)
    ensures
        i64_bytes(n).len() == 8,
        parse_i64(i64_bytes(n) + rest) == Parsed::Ok((n, rest)),
{
    u64_round_trip(n as u64, rest);
    assert((n as u64) as i64 == n) by (bit_vector);
}

pub proof fn bool_round_trip(v: bool, rest: Seq<u8>)
    ensures
        parse_bool(bool_bytes(v) + rest) == Parsed::Ok((v, rest)),
{
    let b = bool_bytes(v) + rest;
    assert(b.skip(1) == rest);
}

pub proof fn blob_round_trip(v: Seq<u8>, rest: Seq<u8>)
    requires
        v.len() <= u64::MAX,
    ensures
        blob_bytes(v).len() == 8 + v.len(),
        parse_blob(blob_bytes(v) + rest) == Parsed::Ok((v, rest)),
{
    let b = blob_bytes(v) + rest;
    u64_round_trip(v.len() as u64, v + rest);
    assert(b == u64_bytes(v.len() as u64) + (v + rest));
    assert(b.take(8) == u64_bytes(v.len() as u64));
    assert(blob_body(b) == v);
    assert(b.skip(8 + v.len() as int) == rest);
}

pub proof fn str_round_trip(s: Seq<char>, rest: Seq<u8>)
    requires
        str_bytes(s).len() <= u64::MAX,
    ensures
        str_bytes(s).len() == 8 + vstd::utf8::encode_utf8(s).len(),
        parse_str(str_bytes(s) + rest) == Parsed::Ok((s, rest)),
{
    let v = vstd::utf8::encode_utf8(s);
    let b = str_bytes(s) + rest;
    u64_round_trip(v.len() as u64, v);
    blob_round_trip(v, rest);
    vstd::utf8::encode_utf8_valid_utf8(s);
    vstd::utf8::encode_utf8_decode_utf8(s);
    u64_round_trip(v.len() as u64, v + rest);
    assert(b == u64_bytes(v.len() as u64) + (v + rest));
    assert(b.take(8) == u64_bytes(v.len() as u64));
    assert(blob_body(b) == v);
}

/// Items that each come back are read back one after the other.
pub proof fn items_round_trip<T>(
    items: Seq<T>,
    write: spec_fn(T) -> Seq<u8>,
    read: spec_fn(Seq<u8>) -> Parsed<T>,
    rest: Seq<u8>,
)
    requires
        forall|i: int, tail: Seq<u8>|
            0 <= i < items.len() ==> #[trigger] read(write(items[i]) + tail) == Parsed::Ok(
                (items[i], tail),
            ),
    ensures
        parse_items(items_bytes(items, write) + rest, items.len(), read) == Parsed::Ok(
            (items, rest),
        ),
    decreases items.len(),
{
    if items.len() == 0 {
        assert(items_bytes(items, write) + rest == rest);
        assert(items == Seq::<T>::empty());
    } else {
        let others = items.drop_first();
        let tail = items_bytes(others, write) + rest;
        assert forall|i: int, t: Seq<u8>| 0 <= i < others.len() implies #[trigger] read(
            write(others[i]) + t,
        ) == Parsed::Ok((others[i], t)) by {
            assert(others[i] == items[i + 1]);
            assert(read(write(items[i + 1]) + t) == Parsed::Ok((items[i + 1], t)));
        }
        items_round_trip(others, write, read, rest);
        assert(items_bytes(items, write) + rest == write(items[0]) + tail);
        assert(read(write(items[0]) + tail) == Parsed::Ok((items[0], tail)));
        assert(seq![items[0]] + others == items);
    }
}

/// A list whose items each come back is read back.
pub proof fn list_round_trip<T>(
    items: Seq<T>,
    write: spec_fn(T) -> Seq<u8>,
    read: spec_fn(Seq<u8>) -> Parsed<T>,
    rest: Seq<u8>,
)
    requires
        items.len() <= u64::MAX,
        forall|i: int, tail: Seq<u8>|
            0 <= i < items.len() ==> #[trigger] read(write(items[i]) + tail) == Parsed::Ok(
                (items[i], tail),
            ),
    ensures
        parse_list(list_bytes(items, write) + rest, read) == Parsed::Ok((items, rest)),
{
    let tail = items_bytes(items, write) + rest;
    u64_round_trip(items.len() as u64, tail);
    assert(list_bytes(items, write) + rest == u64_bytes(items.len() as u64) + tail);
    items_round_trip(items, write, read, rest);
}

/// Reading no item in front changes nothing.
pub proof fn prepend_nothing<T>(more: Parsed<Seq<T>>)
    ensures
        prepend(Seq::<T>::empty(), more) == more,
{
    if more is Ok {
        assert(Seq::<T>::empty() + more->Ok_0.0 == more->Ok_0.0);
    }
}

/// An item that was read joins those in front.
pub proof fn prepend_item<T>(
    items: Seq<T>,
    b: Seq<u8>,
    n: nat,
    item: spec_fn(Seq<u8>) -> Parsed<T>,
    first: T,
    rest: Seq<u8>,
)
    requires
        n > 0,
        item(b) == Parsed::Ok((first, rest)),
    ensures
        prepend(items, parse_items(b, n, item)) == prepend(
            items.push(first),
            parse_items(rest, (n - 1) as nat, item),
        ),
{
    let more = parse_items(rest, (n - 1) as nat, item);
    if more is Ok {
        assert(items + (seq![first] + more->Ok_0.0) == items.push(first) + more->Ok_0.0);
    }
}

/// With nothing left to read the items in front are all.
pub proof fn prepend_to_nothing<T>(
    items: Seq<T>,
    b: Seq<u8>,
    item: spec_fn(Seq<u8>) -> Parsed<T>,
)
    ensures
        prepend(items, parse_items(b, 0, item)) == Parsed::Ok((items, b)),
{
    assert(items + Seq::<T>::empty() == items);
}

/// The items from the `i`-th on are the `i`-th and those behind it.
pub proof fn items_bytes_step<T>(items: Seq<T>, write: spec_fn(T) -> Seq<u8>, i: int)
    requires
        0 <= i < items.len(),
    ensures
        items_bytes(items.skip(i), write) == write(items[i]) + items_bytes(
            items.skip(i + 1),
            write,
        ),
{
    assert(items.skip(i)[0] == items[i]);
    assert(items.skip(i).drop_first() == items.skip(i + 1));
}

/// Each item's encoding is no longer than the encoding of them all, and no
/// shorter than `least` where every item takes so many bytes.
pub proof fn items_bytes_len<T>(items: Seq<T>, write: spec_fn(T) -> Seq<u8>, least: nat)
    requires
        forall|i: int| 0 <= i < items.len() ==> (#[trigger] write(items[i])).len() >= least,
    ensures
        items_bytes(items, write).len() >= least * items.len(),
        forall|i: int|
            0 <= i < items.len() ==> (#[trigger] write(items[i])).len() <= items_bytes(
                items,
                write,
            ).len(),
    decreases items.len(),
{
    if items.len() > 0 {
        let others = items.drop_first();
        assert forall|i: int| 0 <= i < others.len() implies (#[trigger] write(others[i])).len()
            >= least by {
            assert(others[i] == items[i + 1]);
            assert(write(items[i + 1]).len() >= least);
        }
        items_bytes_len(others, write, least);
        assert(write(items[0]).len() >= least);
        assert(least * items.len() == least + least * others.len()) by (nonlinear_arith)
            requires
                items.len() == others.len() + 1,
        ;
        assert forall|i: int| 0 <= i < items.len() implies (#[trigger] write(items[i])).len()
            <= items_bytes(items, write).len() by {
            if i > 0 {
                assert(items[i] == others[i - 1]);
                assert(write(others[i - 1]).len() <= items_bytes(others, write).len());
            }
        }
    }
}

} // verus!

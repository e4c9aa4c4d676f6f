//! Where tables and rows lie in the local store.

use vstd::prelude::*;
use vstd::string::{StrSliceExecFns, StringExecFns};

use crate::store::sorted_map;
use crate::table::schema;
use crate::table::schema::{Value, ValueView};

verus! {

/// The character of a hexadecimal digit.
pub open spec fn hex_digit(n: u8) -> char {
    if n < 10 {
        ('0' as int + n) as char
    } else {
        ('a' as int + (n - 10)) as char
    }
}

/// The hexadecimal notation of bytes: two lowercase digits for each.
pub open spec fn hex_text(b: Seq<u8>) -> Seq<char> {
    Seq::new(
        2 * b.len(),
        |i: int|
            if i % 2 == 0 {
                hex_digit(b[i / 2] / 16)
            } else {
                hex_digit(b[i / 2] % 16)
            },
    )
}

/// Calls `hex::encode`, which writes each byte as two lowercase hexadecimal
/// digits, the high one first.
#[verifier::external_body]
fn hex_encode(b: &[u8]) -> (s: String)
    ensures
        s@ == hex_text(b@),
{
    hex::encode(b)
}

/// The texts with a NUL between each two.
pub open spec fn joined(parts: Seq<Seq<char>>) -> Seq<char>
    decreases parts.len(),
{
    if parts.len() == 0 {
        Seq::empty()
    } else if parts.len() == 1 {
        parts[0]
    } else {
        joined(parts.drop_last()).push('\0') + parts.last()
    }
}

/// The texts of the values of a primary key.
pub open spec fn key_parts(values: Seq<ValueView>) -> Seq<Seq<char>> {
    values.map_values(|v: ValueView| hex_text(schema::value_bytes(v)))
}

/// A primary key as text: each value's bytes in hexadecimal, joined with NUL.
pub open spec fn key_text(values: Seq<ValueView>) -> Seq<char> {
    joined(key_parts(values))
}

/// The store key of a table's schema.
pub open spec fn schema_key(table: Seq<char>) -> Seq<u8> {
    vstd::utf8::encode_utf8("schema/"@ + table)
}

/// What the store keys of a table's rows start with.
pub open spec fn row_prefix(table: Seq<char>) -> Seq<u8> {
    vstd::utf8::encode_utf8("data/"@ + table + "/"@)
}

/// The store key of a row.
pub open spec fn row_key(table: Seq<char>, key: Seq<ValueView>) -> Seq<u8> {
    vstd::utf8::encode_utf8("data/"@ + table + "/"@ + key_text(key))
}

/// The byte of the slash that ends the parts of a store key.
pub const SLASH: u8 = 47;

/// Whether a store key is that of a row of the table: behind the table's prefix
/// stands a primary key, which holds no slash. Behind the prefix of a table `a` the
/// keys of a table `a/b` have another slash.
pub open spec fn is_row_of(table: Seq<char>, key: Seq<u8>) -> bool {
    &&& sorted_map::starts_with(key, row_prefix(table))
    &&& forall|i: int| row_prefix(table).len() <= i < key.len() ==> #[trigger] key[i] != SLASH
}

/// Whether no slash stands in a store key from `start` on.
pub fn ends_in_one_part(key: &[u8], start: usize) -> (r: bool)
    ensures
        r <==> forall|i: int| start <= i < key@.len() ==> #[trigger] key@[i] != SLASH,
{
    let mut i: usize = start;
    while i < key.len()
        invariant
            start <= i,
            forall|j: int| start <= j < i && j < key@.len() ==> #[trigger] key@[j] != SLASH,
        decreases key.len() - i,
    {
        if key[i] == SLASH {
            return false;
        }
        i = i + 1;
    }
    true
}

/// Encode primary key values into a string suitable for use in a store key.
/// Each Value is serialized and hex-encoded, joined by `\x00`.
pub fn encode_primary_key(values: &[Value]) -> (s: String)
    ensures
        s@ == key_text(schema::values_view(values@)),
{
    let ghost parts = key_parts(schema::values_view(values@));
    let mut s = String::new();
    let mut i: usize = 0;
    proof {
        assert(parts.take(0) == Seq::<Seq<char>>::empty());
        reveal_strlit("\x00");
    }
    while i < values.len()
        invariant
            i <= values@.len(),
            parts == key_parts(schema::values_view(values@)),
            s@ == joined(parts.take(i as int)),
            "\x00"@ == seq!['\0'],
        decreases values.len() - i,
    {
        let ghost before = s@;
        if i > 0 {
            s.append("\x00");
        }
        let mut bytes: Vec<u8> = Vec::new();
        schema::put_value(&mut bytes, &values[i]);
        s.append(hex_encode(bytes.as_slice()).as_str());
        proof {
            let next = parts.take(i + 1);
            assert(bytes@ == schema::value_bytes(values@[i as int]@));
            assert(next.drop_last() == parts.take(i as int));
            assert(next.last() == hex_text(bytes@));
            assert(before + seq!['\0'] == before.push('\0'));
            if i == 0 {
                assert(s@ == hex_text(bytes@));
            }
        }
        i = i + 1;
    }
    assert(parts.take(i as int) == parts);
    s
}

/// Build the store key for a table schema.
pub fn schema_key_of(table_name: &str) -> (key: Vec<u8>)
    ensures
        key@ == schema_key(table_name@),
{
    "schema/".to_owned().concat(table_name).as_str().as_bytes_vec()
}

/// Build the store key for a row.
pub fn row_key_of(table_name: &str, pk_values: &[Value]) -> (key: Vec<u8>)
    ensures
        key@ == row_key(table_name@, schema::values_view(pk_values@)),
{
    let pk_encoded = encode_primary_key(pk_values);
    "data/".to_owned().concat(table_name).concat("/").concat(
        pk_encoded.as_str(),
    ).as_str().as_bytes_vec()
}

/// Build the prefix for all rows of a table.
pub fn row_prefix_of(table_name: &str) -> (prefix: Vec<u8>)
    ensures
        prefix@ == row_prefix(table_name@),
{
    "data/".to_owned().concat(table_name).concat("/").as_str().as_bytes_vec()
}

} // verus!

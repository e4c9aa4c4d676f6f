//! Store keys keep tables and rows apart.

use vstd::prelude::*;

use crate::base::text;
use crate::engine::base_engine;
use crate::table::keys;
use crate::table::schema;
use crate::table::schema::ValueView;

verus! {

/// The encodings of a key's values are within the limits of the encoding.
pub open spec fn key_fits(key: Seq<ValueView>) -> bool {
    forall|i: int| 0 <= i < key.len() ==> (#[trigger] schema::value_bytes(key[i])).len() <= u64::MAX
}

/// The character does not occur in the text.
spec fn lacks(s: Seq<char>, c: char) -> bool {
    forall|i: int| 0 <= i < s.len() ==> #[trigger] s[i] != c
}

proof fn hex_digit_injective(a: u8, b: u8)
    requires
        a < 16,
        b < 16,
        keys::hex_digit(a) == keys::hex_digit(b),
    ensures
        a == b,
{
}

proof fn hex_text_injective(a: Seq<u8>, b: Seq<u8>)
    requires
        keys::hex_text(a) == keys::hex_text(b),
    ensures
        a == b,
{
    let s = keys::hex_text(a);
    assert(s.len() == 2 * a.len());
    assert(keys::hex_text(b).len() == 2 * b.len());
    assert forall|i: int| 0 <= i < a.len() implies a[i] == b[i] by {
        let t = keys::hex_text(b);
        assert((2 * i) / 2 == i && (2 * i) % 2 == 0);
        assert((2 * i + 1) / 2 == i && (2 * i + 1) % 2 == 1);
        assert(s[2 * i] == keys::hex_digit(a[i] / 16));
        assert(t[2 * i] == keys::hex_digit(b[i] / 16));
        assert(s[2 * i + 1] == keys::hex_digit(a[i] % 16));
        assert(t[2 * i + 1] == keys::hex_digit(b[i] % 16));
        hex_digit_injective(a[i] / 16, b[i] / 16);
        hex_digit_injective(a[i] % 16, b[i] % 16);
    }
    assert(a =~= b);
}

proof fn hex_text_lacks(b: Seq<u8>)
    ensures
        lacks(keys::hex_text(b), '/'),
        lacks(keys::hex_text(b), '\0'),
{
}

proof fn joined_lacks_slash(parts: Seq<Seq<char>>)
    requires
        forall|i: int| 0 <= i < parts.len() ==> lacks(#[trigger] parts[i], '/'),
    ensures
        lacks(keys::joined(parts), '/'),
    decreases parts.len(),
{
    if parts.len() >= 2 {
        let front = parts.drop_last();
        joined_lacks_slash(front);
        assert(lacks(parts[parts.len() - 1], '/'));
    } else if parts.len() == 1 {
        assert(lacks(parts[0], '/'));
    }
}

proof fn key_text_lacks_slash(key: Seq<ValueView>)
    ensures
        lacks(keys::key_text(key), '/'),
{
    let parts = keys::key_parts(key);
    assert forall|i: int| 0 <= i < parts.len() implies lacks(#[trigger] parts[i], '/') by {
        hex_text_lacks(schema::value_bytes(key[i]));
    }
    joined_lacks_slash(parts);
}

/// Two texts of which neither holds the mark behind it are cut at the same place.
proof fn same_cut(a: Seq<char>, x: Seq<char>, b: Seq<char>, y: Seq<char>, mark: char)
    requires
        a.push(mark) + x == b.push(mark) + y,
        lacks(x, mark),
        lacks(y, mark),
    ensures
        a == b,
        x == y,
{
    let s = a.push(mark) + x;
    let t = b.push(mark) + y;
    assert(s[a.len() as int] == mark);
    assert(t[b.len() as int] == mark);
    assert(s.len() == a.len() + 1 + x.len());
    assert(t.len() == b.len() + 1 + y.len());
    if a.len() < b.len() {
        assert(s[b.len() as int] == x[b.len() - a.len() - 1]);
    } else if b.len() < a.len() {
        assert(t[a.len() as int] == y[a.len() - b.len() - 1]);
    }
    assert(a == s.take(a.len() as int));
    assert(b == t.take(b.len() as int));
    assert(x == s.skip(a.len() as int + 1));
    assert(y == t.skip(b.len() as int + 1));
}

proof fn joined_nonempty(parts: Seq<Seq<char>>)
    requires
        parts.len() > 0,
        forall|i: int| 0 <= i < parts.len() ==> (#[trigger] parts[i]).len() > 0,
    ensures
        keys::joined(parts).len() > 0,
{
    if parts.len() == 1 {
        assert(parts[0].len() > 0);
    }
}

proof fn joined_injective(p: Seq<Seq<char>>, q: Seq<Seq<char>>)
    requires
        keys::joined(p) == keys::joined(q),
        forall|i: int|
            0 <= i < p.len() ==> (#[trigger] p[i]).len() > 0 && lacks(p[i], '\0'),
        forall|i: int|
            0 <= i < q.len() ==> (#[trigger] q[i]).len() > 0 && lacks(q[i], '\0'),
    ensures
        p == q,
    decreases p.len(),
{
    if p.len() == 0 || q.len() == 0 {
        if p.len() > 0 {
            joined_nonempty(p);
        }
        if q.len() > 0 {
            joined_nonempty(q);
        }
        assert(p =~= q);
    } else if p.len() == 1 && q.len() == 1 {
        assert(p =~= q);
    } else if p.len() == 1 {
        let front = keys::joined(q.drop_last());
        assert(lacks(p[0], '\0'));
        assert(keys::joined(q)[front.len() as int] == '\0');
    } else if q.len() == 1 {
        let front = keys::joined(p.drop_last());
        assert(lacks(q[0], '\0'));
        assert(keys::joined(p)[front.len() as int] == '\0');
    } else {
        assert(lacks(p[p.len() - 1], '\0'));
        assert(lacks(q[q.len() - 1], '\0'));
        same_cut(
            keys::joined(p.drop_last()),
            p.last(),
            keys::joined(q.drop_last()),
            q.last(),
            '\0',
        );
        joined_injective(p.drop_last(), q.drop_last());
        assert(p == p.drop_last().push(p.last()));
        assert(q == q.drop_last().push(q.last()));
    }
}

/// Distinct primary keys have distinct texts.
pub proof fn key_text_injective(a: Seq<ValueView>, b: Seq<ValueView>)
    requires
        key_fits(a),
        key_fits(b),
        keys::key_text(a) == keys::key_text(b),
    ensures
        a == b,
{
    let p = keys::key_parts(a);
    let q = keys::key_parts(b);
    assert forall|i: int| 0 <= i < p.len() implies (#[trigger] p[i]).len() > 0 && lacks(
        p[i],
        '\0',
    ) by {
        assert(schema::value_bytes(a[i]).len() <= u64::MAX);
        schema::value_round_trip(a[i], Seq::empty());
        hex_text_lacks(schema::value_bytes(a[i]));
    }
    assert forall|i: int| 0 <= i < q.len() implies (#[trigger] q[i]).len() > 0 && lacks(
        q[i],
        '\0',
    ) by {
        assert(schema::value_bytes(b[i]).len() <= u64::MAX);
        schema::value_round_trip(b[i], Seq::empty());
        hex_text_lacks(schema::value_bytes(b[i]));
    }
    joined_injective(p, q);
    assert forall|i: int| 0 <= i < a.len() implies a[i] == b[i] by {
        assert(p[i] == q[i]);
        hex_text_injective(schema::value_bytes(a[i]), schema::value_bytes(b[i]));
        assert(schema::value_bytes(a[i]).len() <= u64::MAX);
        schema::value_round_trip(a[i], Seq::empty());
        schema::value_round_trip(b[i], Seq::empty());
    }
    assert(a =~= b);
}

/// Rows of distinct tables, or with distinct primary keys, lie under distinct
/// store keys.
pub proof fn row_key_injective(
    t: Seq<char>,
    a: Seq<ValueView>,
    u: Seq<char>,
    b: Seq<ValueView>,
)
    requires
        key_fits(a),
        key_fits(b),
        keys::row_key(t, a) == keys::row_key(u, b),
    ensures
        t == u,
        a == b,
{
    let data = "data/"@;
    let slash = "/"@;
    reveal_strlit("/");
    text::utf8_injective(data + t + slash + keys::key_text(a), data + u + slash + keys::key_text(b));
    key_text_lacks_slash(a);
    key_text_lacks_slash(b);
    assert(data + t + slash + keys::key_text(a) == (data + t).push('/') + keys::key_text(a));
    assert(data + u + slash + keys::key_text(b) == (data + u).push('/') + keys::key_text(b));
    same_cut(data + t, keys::key_text(a), data + u, keys::key_text(b), '/');
    assert((data + t).skip(data.len() as int) == t);
    assert((data + u).skip(data.len() as int) == u);
    key_text_injective(a, b);
}

/// Schemas of distinct tables lie under distinct store keys.
pub proof fn schema_key_injective(t: Seq<char>, u: Seq<char>)
    requires
        keys::schema_key(t) == keys::schema_key(u),
    ensures
        t == u,
{
    let p = "schema/"@;
    text::utf8_injective(p + t, p + u);
    assert((p + t).skip(p.len() as int) == t);
    assert((p + u).skip(p.len() as int) == u);
}

/// Schemas, rows and the apply cursor never share a store key.
pub proof fn kinds_are_apart(t: Seq<char>, u: Seq<char>, key: Seq<ValueView>)
    ensures
        keys::schema_key(t) != keys::row_key(u, key),
        keys::schema_key(t) != base_engine::cursor_key(),
        keys::row_key(u, key) != base_engine::cursor_key(),
{
    reveal_strlit("schema/");
    reveal_strlit("data/");
    reveal_strlit("__cursor__");
    let s = "schema/"@ + t;
    let r = "data/"@ + u + "/"@ + keys::key_text(key);
    let c = "__cursor__"@;
    assert(s[0] == 's');
    assert(r[0] == 'd');
    assert(c[0] == '_');
    if keys::schema_key(t) == keys::row_key(u, key) {
        text::utf8_injective(s, r);
    }
    if keys::schema_key(t) == base_engine::cursor_key() {
        text::utf8_injective(s, c);
    }
    if keys::row_key(u, key) == base_engine::cursor_key() {
        text::utf8_injective(r, c);
    }
}

/// The bytes of a text without a slash hold none.
proof fn bytes_lack_slash(s: Seq<char>, i: int)
    requires
        lacks(s, '/'),
        0 <= i < vstd::utf8::encode_utf8(s).len(),
    ensures
        vstd::utf8::encode_utf8(s)[i] != keys::SLASH,
    decreases s.len(),
{
    let head = vstd::utf8::encode_scalar(s[0] as u32);
    if i < head.len() {
        vstd::utf8::char_is_scalar(s[0]);
        vstd::utf8::char_u32_cast(s[0], s[0] as u32);
        assert(s[0] != '/');
        head_lacks_slash(s[0] as u32);
    } else {
        let rest = s.drop_first();
        assert(lacks(rest, '/'));
        bytes_lack_slash(rest, i - head.len());
    }
}

/// Of all characters only the slash has its byte in its encoding.
proof fn head_lacks_slash(c: u32)
    by (bit_vector)
    requires
        c != 47,
        c <= 0x10ffff,
    ensures
        c <= 0x7f ==> vstd::utf8::leading_byte_width_1(c) != 47,
        vstd::utf8::leading_byte_width_2(c) != 47,
        vstd::utf8::leading_byte_width_3(c) != 47,
        vstd::utf8::leading_byte_width_4(c) != 47,
        vstd::utf8::last_continuation_byte(c) != 47,
        vstd::utf8::second_last_continuation_byte(c) != 47,
        vstd::utf8::third_last_continuation_byte(c) != 47,
{
}

/// Where a text holds a slash, so do its bytes, behind those of what comes before.
proof fn slash_in_bytes(front: Seq<char>, back: Seq<char>)
    ensures
        ({
            let n = vstd::utf8::encode_utf8(front).len() as int;
            let all = vstd::utf8::encode_utf8(front + "/"@ + back);
            n < all.len() && all[n] == keys::SLASH
        }),
{
    reveal_strlit("/");
    text::utf8_concat(front + "/"@, back);
    text::utf8_concat(front, "/"@);
    assert(vstd::utf8::is_ascii_chars("/"@));
    vstd::utf8::is_ascii_chars_encode_utf8("/"@);
    assert("/"@[0] as u8 == 47);
}

/// A row of a table is told from the rows of all other tables, from the schemas
/// and from the apply cursor by its store key.
pub proof fn row_tells_its_table(t: Seq<char>, u: Seq<char>, key: Seq<ValueView>)
    ensures
        keys::is_row_of(t, keys::row_key(u, key)) <==> u == t,
        !keys::is_row_of(t, keys::schema_key(u)),
        !keys::is_row_of(t, base_engine::cursor_key()),
{
    reveal_strlit("/");
    reveal_strlit("data/");
    reveal_strlit("schema/");
    reveal_strlit("__cursor__");
    let data = "data/"@;
    let slash = "/"@;
    let text = keys::key_text(key);
    let p = data + t + slash;
    let s = data + u + slash + text;
    let n = (5 + t.len()) as int;
    key_text_lacks_slash(key);
    text::utf8_prefix(p, s);
    text::utf8_prefix(p, "schema/"@ + u);
    text::utf8_prefix(p, "__cursor__"@);
    assert(p[0] == 'd');
    assert(p.len() == n + 1);
    if p.is_prefix_of("schema/"@ + u) {
        assert(p == ("schema/"@ + u).subrange(0, p.len() as int));
        assert(("schema/"@ + u)[0] == 's');
    }
    if p.is_prefix_of("__cursor__"@) {
        assert(p == "__cursor__"@.subrange(0, p.len() as int));
        assert("__cursor__"@[0] == '_');
    }
    if u == t {
        assert(p == s.subrange(0, p.len() as int));
        text::utf8_concat(p, text);
        let start = vstd::utf8::encode_utf8(p).len();
        let bytes = vstd::utf8::encode_utf8(s);
        assert forall|i: int| start <= i < bytes.len() implies #[trigger] bytes[i]
            != keys::SLASH by {
            bytes_lack_slash(text, i - start);
        }
    } else if p.is_prefix_of(s) {
        assert(p == s.subrange(0, p.len() as int));
        assert(p[n] == '/');
        assert forall|i: int| 0 <= i <= n implies p[i] == s[i] by {}
        assert forall|i: int| 0 <= i < t.len() implies p[5 + i] == t[i] by {}
        assert forall|i: int| 0 <= i < u.len() implies s[5 + i] == u[i] by {}
        assert(s[n] == '/');
        if u.len() < t.len() {
            assert(s[n] == text[n - 6 - u.len()]);
        } else if u.len() == t.len() {
            assert forall|i: int| 0 <= i < t.len() implies t[i] == u[i] by {
                assert(p[5 + i] == s[5 + i]);
            }
            assert(t =~= u);
        } else {
            // the name goes on behind the slash, and ends with another
            let more = u.skip(t.len() as int + 1);
            assert(p + more == data + u) by {
                assert forall|i: int| 0 <= i < (p + more).len() implies (p + more)[i] == (data
                    + u)[i] by {
                    if i <= n {
                        assert(p[i] == s[i]);
                    }
                }
            }
            slash_in_bytes(data + u, text);
            text::utf8_concat(p, more);
            let at = vstd::utf8::encode_utf8(data + u).len() as int;
            assert(keys::row_key(u, key)[at] == keys::SLASH);
        }
    }
}

} // verus!

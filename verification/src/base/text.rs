//! Text building: decimal numbers and named associations.

use vstd::prelude::*;
use vstd::string::StringExecFns;

verus! {

/// The character of a decimal digit.
pub open spec fn digit_char(d: nat) -> char {
    ('0' as nat + d) as char
}

/// The decimal notation of `n`, without leading zeros.
pub open spec fn decimal_text(n: nat) -> Seq<char>
    decreases n,
{
    if n < 10 {
        seq![digit_char(n)]
    } else {
        decimal_text(n / 10).push(digit_char(n % 10))
    }
}

fn digit_str(d: u64) -> (s: &'static str)
    requires
        d < 10,
    ensures
        s@ == seq![digit_char(d as nat)],
{
    proof {
        reveal_strlit("0");
        reveal_strlit("1");
        reveal_strlit("2");
        reveal_strlit("3");
        reveal_strlit("4");
        reveal_strlit("5");
        reveal_strlit("6");
        reveal_strlit("7");
        reveal_strlit("8");
        reveal_strlit("9");
    }
    match d {
        0 => "0",
        1 => "1",
        2 => "2",
        3 => "3",
        4 => "4",
        5 => "5",
        6 => "6",
        7 => "7",
        8 => "8",
        _ => "9",
    }
}

/// Writes `n` in decimal.
pub fn decimal(n: u64) -> (s: String)
    ensures
        s@ == decimal_text(n as nat),
    decreases n,
{
    if n < 10 {
        digit_str(n).to_owned()
    } else {
        let mut s = decimal(n / 10);
        s.append(digit_str(n % 10));
        s
    }
}

/// Distinct numbers have distinct decimal notations.
pub proof fn decimal_injective(a: nat, b: nat)
    requires
        decimal_text(a) == decimal_text(b),
    ensures
        a == b,
    decreases a,
{
    let s = decimal_text(a);
    let t = decimal_text(b);
    decimal_nonempty(a / 10);
    decimal_nonempty(b / 10);
    if a < 10 && b < 10 {
        assert(s[0] == digit_char(a));
        assert(t[0] == digit_char(b));
    } else if a >= 10 && b >= 10 {
        assert(s.last() == digit_char(a % 10));
        assert(t.last() == digit_char(b % 10));
        assert(s.drop_last() == decimal_text(a / 10));
        assert(t.drop_last() == decimal_text(b / 10));
        decimal_injective(a / 10, b / 10);
    }
}

proof fn decimal_nonempty(n: nat)
    ensures
        decimal_text(n).len() > 0,
    decreases n,
{
    if n >= 10 {
        decimal_nonempty(n / 10);
    }
}

/// The bytes of two texts are the bytes of the one and of the other.
pub proof fn utf8_concat(a: Seq<char>, b: Seq<char>)
    ensures
        vstd::utf8::encode_utf8(a + b) == vstd::utf8::encode_utf8(a) + vstd::utf8::encode_utf8(b),
    decreases a.len(),
{
    if a.len() == 0 {
        assert(a + b == b);
        assert(vstd::utf8::encode_utf8(a) + vstd::utf8::encode_utf8(b) == vstd::utf8::encode_utf8(
            b,
        ));
    } else {
        let rest = a.drop_first();
        utf8_concat(rest, b);
        assert((a + b)[0] == a[0]);
        assert((a + b).drop_first() == rest + b);
        let head = vstd::utf8::encode_scalar(a[0] as u32);
        assert(head + (vstd::utf8::encode_utf8(rest) + vstd::utf8::encode_utf8(b)) == (head
            + vstd::utf8::encode_utf8(rest)) + vstd::utf8::encode_utf8(b));
    }
}

/// Distinct texts have distinct bytes.
pub proof fn utf8_injective(a: Seq<char>, b: Seq<char>)
    requires
        vstd::utf8::encode_utf8(a) == vstd::utf8::encode_utf8(b),
    ensures
        a == b,
{
    vstd::utf8::encode_utf8_decode_utf8(a);
    vstd::utf8::encode_utf8_decode_utf8(b);
}

/// A text starts with another where its bytes start with the other's.
pub proof fn utf8_prefix(p: Seq<char>, s: Seq<char>)
    ensures
        vstd::utf8::encode_utf8(p).is_prefix_of(vstd::utf8::encode_utf8(s)) <==> p.is_prefix_of(s),
{
    let pb = vstd::utf8::encode_utf8(p);
    let sb = vstd::utf8::encode_utf8(s);
    if p.is_prefix_of(s) {
        let r = s.skip(p.len() as int);
        assert(p + r == s);
        utf8_concat(p, r);
        assert(pb == sb.subrange(0, pb.len() as int));
    }
    if pb.is_prefix_of(sb) {
        let n = pb.len() as int;
        let tail = sb.subrange(n, sb.len() as int);
        assert(sb.subrange(0, n) == pb);
        vstd::utf8::encode_utf8_valid_utf8(p);
        vstd::utf8::encode_utf8_valid_utf8(s);
        if !vstd::utf8::valid_utf8(tail) {
            vstd::utf8::partial_valid_partial_invalid_utf8(sb, n);
        }
        let r = vstd::utf8::decode_utf8(tail);
        vstd::utf8::decode_utf8_encode_utf8(tail);
        utf8_concat(p, r);
        assert(pb + tail == sb);
        utf8_injective(p + r, s);
        assert(p == s.subrange(0, p.len() as int));
    }
}

} // verus!

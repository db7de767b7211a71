//! Percent-encoded text.
use vstd::prelude::*;
use vstd::utf8::*;

use crate::ip;
use crate::text;

verus! {

/// What `String::from_utf8_lossy` makes of bytes: their text, with U+FFFD in
/// place of what is not UTF-8.
pub uninterp spec fn utf8_lossy(bytes: Seq<u8>) -> Seq<char>;

/// Calls `String::from_utf8_lossy`. The result depends on the bytes alone, and
/// where they are UTF-8 it is the text that they encode.
#[verifier::external_body]
fn decode_lossy(bytes: &[u8]) -> (r: String)
    ensures
        r@ == utf8_lossy(bytes@),
        valid_utf8(bytes@) ==> r@ == decode_utf8(bytes@),
{
    String::from_utf8_lossy(bytes).into_owned()
}

/// The byte that two characters after a `%` stand for, where both are
/// hexadecimal digits.
pub open spec fn escaped_byte(a: u8, b: u8) -> Option<u8> {
    match (ip::hex_value(a as char), ip::hex_value(b as char)) {
        (Some(hi), Some(lo)) => Some((hi * 16 + lo) as u8),
        _ => None,
    }
}

/// The bytes that percent-encoded bytes stand for. A `%` that is not followed
/// by two hexadecimal digits stands for itself, and so does every other byte,
/// `+` included.
pub open spec fn percent_decoded(s: Seq<u8>) -> Seq<u8>
    decreases s.len(),
{
    if s.len() == 0 {
        seq![]
    } else if s[0] == 0x25 && s.len() > 2 && escaped_byte(s[1], s[2]) is Some {
        seq![escaped_byte(s[1], s[2])->0] + percent_decoded(s.skip(3))
    } else {
        seq![s[0]] + percent_decoded(s.skip(1))
    }
}

/// The text that percent-encoded text stands for.
pub open spec fn percent_text(s: Seq<char>) -> Seq<char> {
    utf8_lossy(percent_decoded(encode_utf8(s)))
}

fn read_escaped_byte(a: u8, b: u8) -> (r: Option<u8>)
    ensures
        r == escaped_byte(a, b),
{
    match (ip::read_hex_digit(a as char), ip::read_hex_digit(b as char)) {
        (Some(hi), Some(lo)) => Some((hi as u8) * 16 + (lo as u8)),
        _ => None,
    }
}

/// Decodes percent-encoded bytes.
pub fn pct_decode_bytes(bytes: &[u8]) -> (r: Vec<u8>)
    ensures
        r@ == percent_decoded(bytes@),
{
    let n = bytes.len();
    let mut out: Vec<u8> = Vec::with_capacity(n);
    let mut i: usize = 0;
    assert(bytes@.skip(0) =~= bytes@);
    while i < n
        invariant
            n == bytes@.len(),
            i <= n,
            percent_decoded(bytes@) =~= out@ + percent_decoded(bytes@.skip(i as int)),
        decreases n - i,
    {
        let ghost rest = bytes@.skip(i as int);
        proof {
            assert(rest[0] == bytes@[i as int]);
            assert(rest.skip(1) =~= bytes@.skip(i + 1));
        }
        if bytes[i] == 0x25 && n - i > 2 {
            proof {
                assert(rest[1] == bytes@[i + 1] && rest[2] == bytes@[i + 2]);
                assert(rest.skip(3) =~= bytes@.skip(i + 3));
            }
            if let Some(b) = read_escaped_byte(bytes[i + 1], bytes[i + 2]) {
                out.push(b);
                i = i + 3;
                continue ;
            }
        }
        out.push(bytes[i]);
        i = i + 1;
    }
    out
}

/// Percent-decode a URL component WITHOUT the form-encoding `+`→space
/// substitution. Used for transport arguments, where `+` is a valid base64
/// character. Text without a `%` comes back as it is, and text whose every
/// byte was escaped comes back as it was.
pub fn pct_decode(s: &str) -> (r: String)
    ensures
        r@ == percent_text(s@),
        valid_utf8(percent_decoded(encode_utf8(s@))) ==> r@ == decode_utf8(
            percent_decoded(encode_utf8(s@)),
        ),
        !s@.contains('%') ==> r@ == s@,
        forall|t: Seq<char>| #[trigger] escapes(s@, t) ==> r@ == t,
{
    let bytes = pct_decode_bytes(s.as_bytes());
    proof {
        if !s@.contains('%') {
            lemma_percent_byte(s@);
            unescaped_bytes_stand_for_themselves(encode_utf8(s@));
            encode_utf8_valid_utf8(s@);
            encode_utf8_decode_utf8(s@);
        }
        assert forall|t: Seq<char>| #[trigger] escapes(s@, t) implies valid_utf8(bytes@)
            && decode_utf8(bytes@) == t by {
            decoding_undoes_encoding(s@, t);
        }
    }
    decode_lossy(bytes.as_slice())
}

/// Only a `%` is encoded with the byte of `%`.
proof fn lemma_percent_byte(s: Seq<char>)
    requires
        !s.contains('%'),
    ensures
        !encode_utf8(s).contains(0x25),
    decreases s.len(),
{
    if s.len() > 0 {
        let c = s[0] as u32;
        assert(s[0] != '%') by {
            assert(s.contains(s[0]));
        }
        assert(!s.drop_first().contains('%')) by {
            if s.drop_first().contains('%') {
                let i = choose|i: int| 0 <= i < s.drop_first().len() && s.drop_first()[i] == '%';
                assert(s[i + 1] == '%');
            }
        }
        lemma_percent_byte(s.drop_first());
        char_is_scalar(s[0]);
        char_u32_cast(s[0], c);
        assert(0x25u32 as char == '%');
        let first = encode_scalar(c);
        assert(!first.contains(0x25)) by {
            lemma_scalar_bytes(c);
        }
        let rest = encode_utf8(s.drop_first());
        assert(encode_utf8(s) =~= first + rest);
        assert forall|i: int| 0 <= i < (first + rest).len() implies (first + rest)[i] != 0x25 by {
            if i < first.len() {
                assert(first.contains(first[i]));
            } else {
                assert(rest.contains(rest[i - first.len()]));
            }
        }
    }
}

proof fn lemma_scalar_bytes(c: u32)
    requires
        c != 0x25,
        is_scalar(c),
    ensures
        !encode_scalar(c).contains(0x25),
{
    assert(c < 0x80 ==> c & 0x7f == c) by (bit_vector);
    assert(forall|x: u8| #[trigger] (0x80u8 | x) >= 0x80) by (bit_vector);
    assert(forall|x: u8| #[trigger] (0xc0u8 | x) >= 0x80) by (bit_vector);
    assert(forall|x: u8| #[trigger] (0xe0u8 | x) >= 0x80) by (bit_vector);
    assert(forall|x: u8| #[trigger] (0xf0u8 | x) >= 0x80) by (bit_vector);
}

/// Bytes without a `%` stand for themselves.
pub proof fn unescaped_bytes_stand_for_themselves(s: Seq<u8>)
    requires
        !s.contains(0x25),
    ensures
        percent_decoded(s) == s,
    decreases s.len(),
{
    if s.len() > 0 {
        assert(s[0] != 0x25) by {
            assert(s.contains(s[0]));
        }
        assert(!s.skip(1).contains(0x25)) by {
            if s.skip(1).contains(0x25) {
                let i = choose|i: int| 0 <= i < s.skip(1).len() && s.skip(1)[i] == 0x25;
                assert(s[i + 1] == 0x25);
            }
        }
        unescaped_bytes_stand_for_themselves(s.skip(1));
        assert(seq![s[0]] + s.skip(1) =~= s);
    } else {
        assert(percent_decoded(s) =~= s);
    }
}

/// Whether `e` is `t` with every byte of its UTF-8 form written as a `%` and
/// two hexadecimal digits of either case.
pub open spec fn escapes(e: Seq<char>, t: Seq<char>) -> bool {
    &&& e.len() == 3 * encode_utf8(t).len()
    &&& forall|i: int|
        0 <= i < encode_utf8(t).len() ==> is_escape(
            e[3 * i],
            e[3 * i + 1],
            e[3 * i + 2],
            #[trigger] encode_utf8(t)[i],
        )
}

/// Whether three characters are a `%` and the two hexadecimal digits of `b`.
pub open spec fn is_escape(p: char, hi: char, lo: char, b: u8) -> bool {
    &&& p == '%'
    &&& ip::hex_value(hi) == Some((b / 16) as nat)
    &&& ip::hex_value(lo) == Some((b % 16) as nat)
}

/// Whether the bytes at the place of the `i`th escape are a `%` and two digits
/// that stand for `b`.
spec fn escape_at(x: Seq<u8>, i: int, b: u8) -> bool {
    x[3 * i] == 0x25 && escaped_byte(x[3 * i + 1], x[3 * i + 2]) == Some(b)
}

/// Decoding undoes percent-encoding: a text whose every byte is written as a
/// `%` and two hexadecimal digits decodes to itself.
pub proof fn decoding_undoes_encoding(e: Seq<char>, t: Seq<char>)
    requires
        escapes(e, t),
    ensures
        percent_decoded(encode_utf8(e)) == encode_utf8(t),
        valid_utf8(percent_decoded(encode_utf8(e))),
        decode_utf8(percent_decoded(encode_utf8(e))) == t,
{
    let b = encode_utf8(t);
    assert forall|k: int| 0 <= k < e.len() implies '\0' <= #[trigger] e[k] <= '\u{7f}' by {
        let i = k / 3;
        assert(is_escape(e[3 * i], e[3 * i + 1], e[3 * i + 2], b[i]));
        assert(k == 3 * i || k == 3 * i + 1 || k == 3 * i + 2);
    }
    is_ascii_chars_encode_utf8(e);
    let x = encode_utf8(e);
    assert forall|i: int| 0 <= i < b.len() implies #[trigger] escape_at(x, i, b[i]) by {
        assert(is_escape(e[3 * i], e[3 * i + 1], e[3 * i + 2], b[i]));
        assert(x[3 * i] == e[3 * i] as u8);
        assert(x[3 * i + 1] == e[3 * i + 1] as u8);
        assert(x[3 * i + 2] == e[3 * i + 2] as u8);
        assert(x[3 * i + 1] as char == e[3 * i + 1]);
        assert(x[3 * i + 2] as char == e[3 * i + 2]);
    }
    lemma_escapes_decode(x, b);
    encode_utf8_valid_utf8(t);
    encode_utf8_decode_utf8(t);
}

proof fn lemma_escapes_decode(x: Seq<u8>, b: Seq<u8>)
    requires
        x.len() == 3 * b.len(),
        forall|i: int| 0 <= i < b.len() ==> #[trigger] escape_at(x, i, b[i]),
    ensures
        percent_decoded(x) == b,
    decreases b.len(),
{
    if b.len() > 0 {
        let y = x.skip(3);
        let c = b.skip(1);
        assert(escape_at(x, 0, b[0]));
        assert forall|i: int| 0 <= i < c.len() implies #[trigger] escape_at(y, i, c[i]) by {
            assert(escape_at(x, i + 1, b[i + 1]));
            assert(y[3 * i] == x[3 * (i + 1)]);
            assert(y[3 * i + 1] == x[3 * (i + 1) + 1]);
            assert(y[3 * i + 2] == x[3 * (i + 1) + 2]);
        }
        lemma_escapes_decode(y, c);
        assert(seq![b[0]] + c =~= b);
    } else {
        assert(percent_decoded(x) =~= b);
    }
}

/// A `%` and two hexadecimal digits of either case stand for the byte of those
/// digits, a `%` without them for itself, and any other byte for itself, in
/// front of whatever follows.
pub proof fn each_escape_stands_for_its_byte(a: u8, b: u8, c: u8, rest: Seq<u8>)
    ensures
        ({
            let hi = ip::hex_value(a as char);
            let lo = ip::hex_value(b as char);
            let byte = (16 * hi->0 + lo->0) as u8;
            &&& hi is Some && lo is Some ==> percent_decoded(seq![0x25u8, a, b] + rest) == seq![
                byte,
            ] + percent_decoded(rest)
            &&& hi is None || lo is None ==> percent_decoded(seq![0x25u8, a, b] + rest) == seq![
                0x25u8,
            ] + percent_decoded(seq![a, b] + rest)
            &&& c != 0x25 ==> percent_decoded(seq![c] + rest) == seq![c] + percent_decoded(rest)
            &&& percent_decoded(seq![0x25u8]) == seq![0x25u8]
            &&& percent_decoded(seq![0x25u8, a]) == seq![0x25u8] + percent_decoded(seq![a])
            &&& percent_decoded(seq![]) == Seq::<u8>::empty()
        }),
{
    let s = seq![0x25u8, a, b] + rest;
    assert(s.skip(3) =~= rest);
    assert(s.skip(1) =~= seq![a, b] + rest);
    assert((seq![c] + rest).skip(1) =~= rest);
    assert(seq![0x25u8, a].skip(1) =~= seq![a]);
    let one = seq![0x25u8];
    assert(one.skip(1) =~= Seq::<u8>::empty());
    assert(percent_decoded(Seq::<u8>::empty()) =~= Seq::<u8>::empty());
    assert(percent_decoded(one) =~= one);
}

} // verus!

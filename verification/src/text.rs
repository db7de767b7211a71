//! Characters, pieces of text and the numerals that messages and addresses
//! are written with.
use vstd::prelude::*;
use vstd::utf8::*;

verus! {

/// `String::push` appends the one character that it is given.
pub assume_specification[ String::push ](s: &mut String, c: char)
    ensures
        final(s)@ == old(s)@.push(c),
;

/// The characters of `s`.
pub fn chars_of(s: &str) -> (r: Vec<char>)
    ensures
        r@ == s@,
{
    let mut out: Vec<char> = Vec::new();
    for c in it: s.chars()
        invariant
            it.seq() == s@,
            out@ == s@.take(it.index() as int),
    {
        out.push(c);
    }
    out
}

/// The text that the characters `chars[from..to]` spell.
pub fn text_of(chars: &[char], from: usize, to: usize) -> (r: String)
    requires
        from <= to <= chars@.len(),
    ensures
        r@ == chars@.subrange(from as int, to as int),
{
    let mut out = String::new();
    let mut i: usize = from;
    while i < to
        invariant
            from <= i <= to <= chars@.len(),
            out@ == chars@.subrange(from as int, i as int),
        decreases to - i,
    {
        out.push(chars[i]);
        i = i + 1;
    }
    out
}

/// Whether two pieces of text are the same.
pub fn same_text(a: &str, b: &str) -> (r: bool)
    ensures
        r == (a@ == b@),
{
    let x = a.as_bytes();
    let y = b.as_bytes();
    proof {
        encode_utf8_decode_utf8(a@);
        encode_utf8_decode_utf8(b@);
    }
    same_bytes(x, y)
}

/// Whether two byte strings are the same.
pub fn same_bytes(x: &[u8], y: &[u8]) -> (r: bool)
    ensures
        r == (x@ == y@),
{
    if x.len() != y.len() {
        return false;
    }
    let mut i: usize = 0;
    while i < x.len()
        invariant
            x@.len() == y@.len(),
            i <= x@.len(),
            forall|j: int| 0 <= j < i ==> x@[j] == y@[j],
        decreases x@.len() - i,
    {
        if x[i] != y[i] {
            return false;
        }
        i = i + 1;
    }
    assert(x@ =~= y@);
    true
}

/// The two texts one after the other.
pub fn join(a: &str, b: &str) -> (r: String)
    ensures
        r@ == a@ + b@,
{
    let mut out = a.to_owned();
    out.append(b);
    out
}

/// The texts of a row of pairs.
pub open spec fn pair_texts(v: Seq<(String, String)>) -> Seq<(Seq<char>, Seq<char>)> {
    Seq::new(v.len(), |i: int| (v[i].0@, v[i].1@))
}

/// The texts of a row of strings.
pub open spec fn string_texts(v: Seq<String>) -> Seq<Seq<char>> {
    Seq::new(v.len(), |i: int| v[i]@)
}

/// The text of an optional string.
pub open spec fn option_text(s: Option<String>) -> Option<Seq<char>> {
    match s {
        Some(t) => Some(t@),
        None => None,
    }
}

// ---------------------------------------------------------------------------
// Searching and splitting
// ---------------------------------------------------------------------------

/// The place of the first `c` in `s`, or the length of `s` where there is none.
pub open spec fn find(s: Seq<char>, c: char) -> int
    decreases s.len(),
{
    if s.len() == 0 {
        0
    } else if s[0] == c {
        0
    } else {
        1 + find(s.drop_first(), c)
    }
}

/// What `find` returns is the least place that holds `c`.
pub proof fn lemma_find(s: Seq<char>, c: char)
    ensures
        0 <= find(s, c) <= s.len(),
        find(s, c) < s.len() ==> s[find(s, c)] == c,
        forall|j: int| 0 <= j < find(s, c) ==> s[j] != c,
    decreases s.len(),
{
    if s.len() > 0 && s[0] != c {
        let t = s.drop_first();
        lemma_find(t, c);
        assert forall|j: int| 0 <= j < find(s, c) implies s[j] != c by {
            if j > 0 {
                assert(t[j - 1] == s[j]);
            }
        }
    }
}

/// The least place that holds `c` is what `find` returns.
pub proof fn lemma_find_is(s: Seq<char>, c: char, i: int)
    requires
        0 <= i <= s.len(),
        i < s.len() ==> s[i] == c,
        forall|j: int| 0 <= j < i ==> s[j] != c,
    ensures
        find(s, c) == i,
{
    lemma_find(s, c);
    let k = find(s, c);
    if k < i {
        assert(s[k] == c);
    }
}

/// The place of the first `c` in `chars[from..to]`, or `to`.
pub fn find_char(chars: &[char], from: usize, to: usize, c: char) -> (r: usize)
    requires
        from <= to <= chars@.len(),
    ensures
        from <= r <= to,
        r - from == find(chars@.subrange(from as int, to as int), c),
{
    let ghost part = chars@.subrange(from as int, to as int);
    let mut i: usize = from;
    while i < to
        invariant
            from <= i <= to <= chars@.len(),
            part == chars@.subrange(from as int, to as int),
            forall|j: int| 0 <= j < i - from ==> part[j] != c,
        decreases to - i,
    {
        if chars[i] == c {
            proof {
                lemma_find_is(part, c, i - from);
            }
            return i;
        }
        i = i + 1;
    }
    proof {
        lemma_find_is(part, c, to - from);
    }
    to
}

/// The pieces of `s` between the characters `c`.
pub open spec fn split(s: Seq<char>, c: char) -> Seq<Seq<char>>
    decreases s.len(),
{
    let i = find(s, c);
    if 0 <= i < s.len() {
        seq![s.take(i)] + split(s.skip(i + 1), c)
    } else {
        seq![s]
    }
}

/// The last piece is how `s` ends.
pub proof fn lemma_split_last(s: Seq<char>, c: char)
    ensures
        split(s, c).len() > 0,
        split(s, c).last().len() <= s.len(),
        s.skip(s.len() - split(s, c).last().len()) == split(s, c).last(),
    decreases s.len(),
{
    lemma_find(s, c);
    let i = find(s, c);
    if i < s.len() {
        let t = s.skip(i + 1);
        lemma_split_last(t, c);
        let e = split(t, c).last();
        assert(split(s, c).last() == e);
        assert(s.skip(s.len() - e.len()) =~= t.skip(t.len() - e.len()));
    } else {
        assert(s.skip(0) =~= s);
    }
}

/// A character other than `c` lies in one of the pieces.
pub proof fn lemma_split_covers(s: Seq<char>, c: char, i: int) -> (at: (int, int))
    requires
        0 <= i < s.len(),
        s[i] != c,
    ensures
        0 <= at.0 < split(s, c).len(),
        0 <= at.1 < split(s, c)[at.0].len(),
        split(s, c)[at.0][at.1] == s[i],
    decreases s.len(),
{
    lemma_find(s, c);
    let e = find(s, c);
    if i < e {
        (0, i)
    } else {
        let t = s.skip(e + 1);
        let at = lemma_split_covers(t, c, i - e - 1);
        (at.0 + 1, at.1)
    }
}

/// Whether `p` is how `s` begins.
pub open spec fn starts_with(s: Seq<char>, p: Seq<char>) -> bool {
    p.len() <= s.len() && s.take(p.len() as int) == p
}

/// Whether the text `p` is how `chars` begins.
pub fn has_prefix(chars: &[char], p: &str) -> (r: bool)
    ensures
        r == starts_with(chars@, p@),
{
    let q = chars_of(p);
    if q.len() > chars.len() {
        return false;
    }
    let mut i: usize = 0;
    while i < q.len()
        invariant
            q@ == p@,
            i <= q@.len() <= chars@.len(),
            forall|j: int| 0 <= j < i ==> chars@[j] == q@[j],
        decreases q@.len() - i,
    {
        if chars[i] != q[i] {
            assert(chars@.take(p@.len() as int)[i as int] != p@[i as int]);
            return false;
        }
        i = i + 1;
    }
    assert(chars@.take(p@.len() as int) =~= p@);
    true
}

/// Whether the characters `chars[from..to]` spell `p`.
pub fn spells(chars: &[char], from: usize, to: usize, p: &str) -> (r: bool)
    requires
        from <= to <= chars@.len(),
    ensures
        r == (chars@.subrange(from as int, to as int) == p@),
{
    let q = chars_of(p);
    if q.len() != to - from {
        return false;
    }
    let mut i: usize = 0;
    while i < q.len()
        invariant
            q@ == p@,
            i <= q@.len(),
            q@.len() == to - from,
            from <= to <= chars@.len(),
            forall|j: int| 0 <= j < i ==> chars@[from + j] == q@[j],
        decreases q@.len() - i,
    {
        if chars[from + i] != q[i] {
            assert(chars@.subrange(from as int, to as int)[i as int] != p@[i as int]);
            return false;
        }
        i = i + 1;
    }
    assert(chars@.subrange(from as int, to as int) =~= p@);
    true
}

// ---------------------------------------------------------------------------
// Numerals
// ---------------------------------------------------------------------------

/// Whether `c` is one of `0` to `9`.
pub open spec fn is_digit(c: char) -> bool {
    '0' <= c <= '9'
}

/// The value of a decimal digit.
pub open spec fn digit_value(c: char) -> nat {
    (c as int - '0' as int) as nat
}

/// The number that a row of decimal digits stands for.
pub open spec fn decimal_value(s: Seq<char>) -> nat
    decreases s.len(),
{
    if s.len() == 0 {
        0
    } else {
        decimal_value(s.drop_last()) * 10 + digit_value(s.last())
    }
}

/// Whether `s` is made of decimal digits.
pub open spec fn all_digits(s: Seq<char>) -> bool {
    forall|i: int| 0 <= i < s.len() ==> is_digit(#[trigger] s[i])
}

/// A prefix stands for no more than the whole.
pub proof fn lemma_decimal_value_grows(s: Seq<char>, i: int)
    requires
        0 <= i <= s.len(),
    ensures
        decimal_value(s.take(i)) <= decimal_value(s),
    decreases s.len(),
{
    if i == s.len() {
        assert(s.take(i) =~= s);
    } else {
        lemma_decimal_value_grows(s.drop_last(), i);
        assert(s.drop_last().take(i) =~= s.take(i));
    }
}

/// Reads the digits `chars[from..to]`: their number, or `None` where they
/// stand for more than `max`.
pub fn read_digits(chars: &[char], from: usize, to: usize, max: u64) -> (r: Option<u64>)
    requires
        from <= to <= chars@.len(),
        all_digits(chars@.subrange(from as int, to as int)),
    ensures
        match r {
            Some(n) => n == decimal_value(chars@.subrange(from as int, to as int)) && n <= max,
            None => decimal_value(chars@.subrange(from as int, to as int)) > max,
        },
{
    let ghost part = chars@.subrange(from as int, to as int);
    let mut n: u64 = 0;
    let mut i: usize = from;
    while i < to
        invariant
            from <= i <= to <= chars@.len(),
            part == chars@.subrange(from as int, to as int),
            all_digits(part),
            n == decimal_value(part.take(i - from)),
            n <= max,
        decreases to - i,
    {
        let c = chars[i];
        proof {
            assert(part[i - from] == c);
            assert(part.take(i - from + 1).drop_last() =~= part.take(i - from));
            lemma_decimal_value_grows(part, i - from + 1);
        }
        let next: u128 = (n as u128) * 10 + ((c as u128) - ('0' as u128));
        if next > max as u128 {
            return None;
        }
        n = next as u64;
        i = i + 1;
    }
    assert(part.take(to - from) =~= part);
    Some(n)
}

/// Where the row of digits at the start of `s` ends.
pub open spec fn digits_end(s: Seq<char>) -> int
    decreases s.len(),
{
    if s.len() > 0 && is_digit(s[0]) {
        1 + digits_end(s.drop_first())
    } else {
        0
    }
}

/// What `digits_end` returns is the length of the longest prefix of digits.
pub proof fn lemma_digits_end(s: Seq<char>)
    ensures
        0 <= digits_end(s) <= s.len(),
        all_digits(s.take(digits_end(s))),
        digits_end(s) < s.len() ==> !is_digit(s[digits_end(s)]),
    decreases s.len(),
{
    if s.len() > 0 && is_digit(s[0]) {
        let t = s.drop_first();
        lemma_digits_end(t);
        let e = digits_end(s);
        assert forall|i: int| 0 <= i < e implies is_digit(#[trigger] s.take(e)[i]) by {
            if i > 0 {
                assert(t.take(e - 1)[i - 1] == s[i]);
            }
        }
        if e < s.len() {
            assert(t[e - 1] == s[e]);
        }
    }
}

/// The length of the longest prefix of digits is what `digits_end` returns.
pub proof fn lemma_digits_end_is(s: Seq<char>, e: int)
    requires
        0 <= e <= s.len(),
        forall|i: int| 0 <= i < e ==> is_digit(#[trigger] s[i]),
        e < s.len() ==> !is_digit(s[e]),
    ensures
        digits_end(s) == e,
{
    lemma_digits_end(s);
    let k = digits_end(s);
    if k < e {
        assert(is_digit(s[k]));
    }
    if e < k {
        assert(is_digit(s.take(k)[e]));
    }
}

/// The place in `chars[from..]` where the row of digits that starts it ends.
pub fn skip_digits(chars: &[char], from: usize) -> (r: usize)
    requires
        from <= chars@.len(),
    ensures
        from <= r <= chars@.len(),
        r - from == digits_end(chars@.skip(from as int)),
        all_digits(chars@.subrange(from as int, r as int)),
{
    let ghost part = chars@.skip(from as int);
    let mut i: usize = from;
    while i < chars.len() && chars[i] >= '0' && chars[i] <= '9'
        invariant
            from <= i <= chars@.len(),
            part == chars@.skip(from as int),
            forall|j: int| 0 <= j < i - from ==> is_digit(#[trigger] part[j]),
        decreases chars@.len() - i,
    {
        assert(part[i - from] == chars@[i as int]);
        i = i + 1;
    }
    proof {
        if i < chars@.len() {
            assert(part[i - from] == chars@[i as int]);
        }
        lemma_digits_end_is(part, i - from);
        let row = chars@.subrange(from as int, i as int);
        assert forall|j: int| 0 <= j < row.len() implies is_digit(#[trigger] row[j]) by {
            assert(row[j] == part[j]);
        }
    }
    i
}

/// The number that `s` spells as an unsigned decimal numeral: an optional `+`
/// and then at least one digit.
pub open spec fn unsigned_value(s: Seq<char>) -> Option<nat> {
    let body = if s.len() > 0 && s[0] == '+' {
        s.skip(1)
    } else {
        s
    };
    if body.len() > 0 && all_digits(body) {
        Some(decimal_value(body))
    } else {
        None
    }
}

/// Reads an unsigned decimal numeral: its number, or `None` where `chars`
/// spells no number or one above `max`.
pub fn read_unsigned(chars: &[char], max: u64) -> (r: Option<u64>)
    ensures
        match r {
            Some(n) => unsigned_value(chars@) == Some(n as nat) && n <= max,
            None => match unsigned_value(chars@) {
                Some(n) => n > max,
                None => true,
            },
        },
{
    let from: usize = if chars.len() > 0 && chars[0] == '+' {
        1
    } else {
        0
    };
    let end = skip_digits(chars, from);
    let ghost body = chars@.skip(from as int);
    proof {
        assert(from == 0 ==> body =~= chars@);
        lemma_digits_end(body);
        if end < chars@.len() {
            assert(!is_digit(body[end - from]));
        }
        assert(end == chars@.len() ==> chars@.subrange(from as int, end as int) =~= body);
    }
    if end < chars.len() || end == from {
        return None;
    }
    read_digits(chars, from, end, max)
}

/// The character of a decimal digit.
pub open spec fn digit(d: nat) -> char {
    ('0' as int + d) as char
}

/// The decimal numeral of `n`.
pub open spec fn decimal(n: nat) -> Seq<char>
    decreases n,
{
    if n < 10 {
        seq![digit(n)]
    } else {
        decimal(n / 10).push(digit(n % 10))
    }
}

/// A decimal numeral is made of digits and stands for its number.
pub proof fn lemma_decimal(n: nat)
    ensures
        decimal(n).len() > 0,
        all_digits(decimal(n)),
        decimal_value(decimal(n)) == n,
    decreases n,
{
    reveal_with_fuel(decimal_value, 2);
    if n < 10 {
        assert(decimal(n).drop_last() =~= Seq::<char>::empty());
    } else {
        lemma_decimal(n / 10);
        assert(decimal(n).drop_last() =~= decimal(n / 10));
        let s = decimal(n);
        assert forall|i: int| 0 <= i < s.len() implies is_digit(#[trigger] s[i]) by {
            if i < s.len() - 1 {
                assert(s[i] == decimal(n / 10)[i]);
            }
        }
    }
}

/// Appends the decimal numeral of `n`.
pub fn push_decimal(out: &mut String, n: u64)
    ensures
        final(out)@ == old(out)@ + decimal(n as nat),
    decreases n,
{
    if n >= 10 {
        push_decimal(out, n / 10);
    }
    let d: u8 = (n % 10) as u8;
    out.push((48u8 + d) as char);
    assert(out@ =~= old(out)@ + decimal(n as nat));
}

/// The character of a lower-case hexadecimal digit.
pub open spec fn hex_digit(d: nat) -> char {
    if d < 10 {
        ('0' as int + d) as char
    } else {
        ('a' as int + d - 10) as char
    }
}

/// The two lower-case hexadecimal digits of a byte.
pub open spec fn hex_byte(b: u8) -> Seq<char> {
    seq![hex_digit((b / 16) as nat), hex_digit((b % 16) as nat)]
}

/// Appends the two hexadecimal digits of `b`.
pub fn push_hex_byte(out: &mut String, b: u8)
    ensures
        final(out)@ == old(out)@ + hex_byte(b),
{
    let hi: u8 = b / 16;
    let lo: u8 = b % 16;
    let h: u8 = if hi < 10 {
        48 + hi
    } else {
        87 + hi
    };
    let l: u8 = if lo < 10 {
        48 + lo
    } else {
        87 + lo
    };
    out.push(h as char);
    out.push(l as char);
    assert(out@ =~= old(out)@ + hex_byte(b));
}

// ---------------------------------------------------------------------------
// Laws
// ---------------------------------------------------------------------------

/// A row of pieces with `c` between them.
pub open spec fn joined(pieces: Seq<Seq<char>>, c: char) -> Seq<char>
    decreases pieces.len(),
{
    if pieces.len() == 0 {
        seq![]
    } else if pieces.len() == 1 {
        pieces[0]
    } else {
        pieces[0] + seq![c] + joined(pieces.drop_first(), c)
    }
}

/// The pieces of a text hold no `c`, and with `c` between them they are the
/// text.
pub proof fn pieces_join_to_the_text(s: Seq<char>, c: char)
    ensures
        split(s, c).len() > 0,
        joined(split(s, c), c) == s,
        forall|i: int| 0 <= i < split(s, c).len() ==> !(#[trigger] split(s, c)[i]).contains(c),
    decreases s.len(),
{
    lemma_find(s, c);
    let i = find(s, c);
    let p = split(s, c);
    if i < s.len() {
        let t = s.skip(i + 1);
        pieces_join_to_the_text(t, c);
        assert(p.drop_first() =~= split(t, c));
        assert(s =~= s.take(i) + seq![c] + t);
        assert forall|k: int| 0 <= k < p.len() implies !(#[trigger] p[k]).contains(c) by {
            if k > 0 {
                assert(p[k] == split(t, c)[k - 1]);
            }
        }
    }
}

/// Pieces without `c` are what a text that joins them splits into.
pub proof fn joined_pieces_split(pieces: Seq<Seq<char>>, c: char)
    requires
        pieces.len() > 0,
        forall|i: int| 0 <= i < pieces.len() ==> !(#[trigger] pieces[i]).contains(c),
    ensures
        split(joined(pieces, c), c) == pieces,
    decreases pieces.len(),
{
    let s = joined(pieces, c);
    let first = pieces[0];
    assert(!pieces[0].contains(c));
    assert forall|j: int| 0 <= j < first.len() implies first[j] != c by {
        assert(first.contains(first[j]));
    }
    if pieces.len() == 1 {
        lemma_find_is(s, c, s.len() as int);
        assert(split(s, c) =~= pieces);
    } else {
        let rest = pieces.drop_first();
        assert forall|i: int| 0 <= i < rest.len() implies !(#[trigger] rest[i]).contains(c) by {
            assert(rest[i] == pieces[i + 1]);
        }
        joined_pieces_split(rest, c);
        let n = first.len() as int;
        lemma_find_is(s, c, n);
        assert(s.take(n) =~= first);
        assert(s.skip(n + 1) =~= joined(rest, c));
        assert(split(s, c) =~= seq![first] + rest);
        assert(seq![first] + rest =~= pieces);
    }
}

/// Ten to the power of `n`.
pub open spec fn ten_to(n: nat) -> nat
    decreases n,
{
    if n == 0 {
        1
    } else {
        10 * ten_to((n - 1) as nat)
    }
}

/// A digit counts by its place: what stands in front of a row of digits counts
/// ten times as much for each digit of the row.
pub proof fn digits_count_by_their_place(a: Seq<char>, b: Seq<char>)
    ensures
        decimal_value(a + b) == decimal_value(a) * ten_to(b.len()) + decimal_value(b),
    decreases b.len(),
{
    if b.len() == 0 {
        assert(a + b =~= a);
        assert(decimal_value(b) == 0);
        assert(ten_to(b.len()) == 1);
        assert(decimal_value(a) * 1 == decimal_value(a));
    } else {
        let c = b.drop_last();
        digits_count_by_their_place(a, c);
        assert((a + b).drop_last() =~= a + c);
        assert((a + b).last() == b.last());
        let x = decimal_value(a);
        let p = ten_to(c.len());
        assert(ten_to(b.len()) == 10 * p);
        assert((x * p) * 10 == x * (10 * p)) by (nonlinear_arith);
        assert((x * p + decimal_value(c)) * 10 == (x * p) * 10 + decimal_value(c) * 10)
            by (nonlinear_arith);
    }
}

/// The ten digits stand for zero to nine, in their order.
pub proof fn digits_stand_for_their_numbers()
    ensures
        decimal_value(seq!['0']) == 0,
        decimal_value(seq!['1']) == 1,
        decimal_value(seq!['2']) == 2,
        decimal_value(seq!['3']) == 3,
        decimal_value(seq!['4']) == 4,
        decimal_value(seq!['5']) == 5,
        decimal_value(seq!['6']) == 6,
        decimal_value(seq!['7']) == 7,
        decimal_value(seq!['8']) == 8,
        decimal_value(seq!['9']) == 9,
{
    reveal_with_fuel(decimal_value, 2);
}

/// A numeral is read as its number, with a `+` in front or without.
pub proof fn numerals_are_read(n: nat)
    ensures
        unsigned_value(decimal(n)) == Some(n),
        unsigned_value(seq!['+'] + decimal(n)) == Some(n),
{
    lemma_decimal(n);
    let d = decimal(n);
    assert(is_digit(d[0]));
    assert((seq!['+'] + d).skip(1) =~= d);
}

/// Nothing is read as a number but digits, at least one, with a `+` in front
/// or without.
pub proof fn only_numerals_are_read(s: Seq<char>)
    ensures
        unsigned_value(s) is Some <==> {
            ||| s.len() > 0 && forall|i: int| 0 <= i < s.len() ==> '0' <= #[trigger] s[i] <= '9'
            ||| s.len() > 1 && s[0] == '+' && forall|i: int|
                1 <= i < s.len() ==> '0' <= #[trigger] s[i] <= '9'
        },
        s.len() > 0 && s[0] != '+' && unsigned_value(s) is Some ==> unsigned_value(s)->0
            == decimal_value(s),
        s.len() > 0 && s[0] == '+' && unsigned_value(s) is Some ==> unsigned_value(s)->0
            == decimal_value(s.skip(1)),
{
    if s.len() > 0 && s[0] == '+' {
        let body = s.skip(1);
        if all_digits(body) {
            assert forall|i: int| 1 <= i < s.len() implies '0' <= #[trigger] s[i] <= '9' by {
                assert(is_digit(body[i - 1]));
            }
        }
        if forall|i: int| 1 <= i < s.len() ==> '0' <= #[trigger] s[i] <= '9' {
            assert forall|i: int| 0 <= i < body.len() implies is_digit(#[trigger] body[i]) by {
                assert('0' <= s[i + 1] <= '9');
            }
        }
        assert(!('0' <= s[0] <= '9'));
    } else if s.len() > 0 {
        if all_digits(s) {
            assert forall|i: int| 0 <= i < s.len() implies '0' <= #[trigger] s[i] <= '9' by {
                assert(is_digit(s[i]));
            }
        }
        if forall|i: int| 0 <= i < s.len() ==> '0' <= #[trigger] s[i] <= '9' {
            assert(all_digits(s));
        }
    }
}

/// A row of digits without a leading zero is the numeral of its number.
pub proof fn digits_are_a_numeral(s: Seq<char>)
    requires
        s.len() > 0,
        all_digits(s),
        s.len() > 1 ==> s[0] != '0',
    ensures
        decimal(decimal_value(s)) == s,
    decreases s.len(),
{
    reveal_with_fuel(decimal_value, 2);
    let d = s.last();
    assert(is_digit(s[s.len() - 1]));
    let v = digit_value(d);
    assert(v < 10 && digit(v) == d);
    if s.len() == 1 {
        assert(s.drop_last() =~= Seq::<char>::empty());
        assert(decimal(decimal_value(s)) =~= s);
    } else {
        let t = s.drop_last();
        assert forall|i: int| 0 <= i < t.len() implies is_digit(#[trigger] t[i]) by {
            assert(is_digit(s[i]));
        }
        assert(t.len() > 1 ==> t[0] == s[0]);
        digits_are_a_numeral(t);
        let n = decimal_value(t);
        assert(n > 0) by {
            if n == 0 {
                assert(decimal(0) =~= seq!['0']);
                assert(t =~= seq!['0']);
                assert(s[0] == t[0]);
            }
        }
        assert(decimal_value(s) == n * 10 + v);
        assert((n * 10 + v) / 10 == n && (n * 10 + v) % 10 == v);
        assert(decimal(n * 10 + v) == decimal(n).push(digit(v)));
        assert(t.push(d) =~= s);
    }
}

/// A numeral has no leading zero.
pub proof fn numerals_have_no_leading_zero(n: nat)
    ensures
        decimal(n).len() > 1 ==> decimal(n)[0] != '0',
        n < 10 <==> decimal(n).len() == 1,
        n < 100 ==> decimal(n).len() <= 2,
        n < 1000 ==> decimal(n).len() <= 3,
    decreases n,
{
    if n >= 10 {
        numerals_have_no_leading_zero(n / 10);
        lemma_decimal(n / 10);
        if n / 10 < 10 {
            assert(decimal(n)[0] == decimal(n / 10)[0]);
        } else {
            assert(decimal(n)[0] == decimal(n / 10)[0]);
        }
    }
}

/// A text begins with `p` exactly where it is `p` and something behind it.
pub proof fn a_prefix_is_how_a_text_begins(s: Seq<char>, p: Seq<char>, rest: Seq<char>)
    ensures
        starts_with(p + rest, p),
        starts_with(s, p) ==> s == p + s.skip(p.len() as int),
{
    assert((p + rest).take(p.len() as int) =~= p);
    if starts_with(s, p) {
        assert(s =~= s.take(p.len() as int) + s.skip(p.len() as int));
    }
}

/// The texts of rows of strings are those of each string, in their order.
pub proof fn texts_are_those_of_the_strings(
    pairs: Seq<(String, String)>,
    row: Seq<String>,
    s: String,
    i: int,
)
    ensures
        pair_texts(pairs).len() == pairs.len(),
        0 <= i < pairs.len() ==> pair_texts(pairs)[i] == (pairs[i].0@, pairs[i].1@),
        string_texts(row).len() == row.len(),
        0 <= i < row.len() ==> string_texts(row)[i] == row[i]@,
        option_text(Some(s)) == Some(s@),
        option_text(None) is None,
{
}

} // verus!

//! Internet addresses and the text they are written with.
use vstd::prelude::*;
use vstd::slice::slice_subrange;

use crate::text;

verus! {

/// An IP address, as the number that its octets spell in network order.
#[derive(Clone, Copy, Debug, PartialEq, Eq, Structural)]
pub enum IpAddr {
    V4(u32),
    V6(u128),
}

/// An IP address with a port; `scope_id` is the zone of a scoped IPv6 address
/// and otherwise zero.
#[derive(Clone, Copy, Debug, PartialEq, Eq, Structural)]
pub struct SocketAddr {
    pub ip: IpAddr,
    pub port: u16,
    pub scope_id: u32,
}

impl IpAddr {
    /// Whether the address belongs to the host itself: `127.0.0.0/8` or `::1`.
    pub open spec fn loopback(self) -> bool {
        match self {
            IpAddr::V4(bits) => bits / 0x100_0000 == 127,
            IpAddr::V6(bits) => bits == 1,
        }
    }

    /// Whether the address belongs to the host itself.
    pub fn is_loopback(&self) -> (r: bool)
        ensures
            r == self.loopback(),
    {
        match self {
            IpAddr::V4(bits) => *bits / 0x100_0000 == 127,
            IpAddr::V6(bits) => *bits == 1,
        }
    }
}

/// The `n` bytes of `x`, the most significant first.
pub open spec fn be_bytes(x: nat, n: nat) -> Seq<u8>
    decreases n,
{
    if n == 0 {
        seq![]
    } else {
        be_bytes(x / 256, (n - 1) as nat).push((x % 256) as u8)
    }
}

/// Appends the `n` low bytes of `x`, the most significant first.
pub fn push_be_bytes(out: &mut Vec<u8>, x: u128, n: u8)
    ensures
        final(out)@ == old(out)@ + be_bytes(x as nat, n as nat),
    decreases n,
{
    if n > 0 {
        push_be_bytes(out, x / 256, n - 1);
        out.push((x % 256) as u8);
    }
    assert(out@ =~= old(out)@ + be_bytes(x as nat, n as nat));
}

// ---------------------------------------------------------------------------
// The text of an address
// ---------------------------------------------------------------------------

/// One number of a dotted quad: up to three digits, no leading zero, at most 255.
pub open spec fn octet(s: Seq<char>) -> Option<nat> {
    if 1 <= s.len() <= 3 && text::all_digits(s) && (s.len() > 1 ==> s[0] != '0')
        && text::decimal_value(s) <= 255 {
        Some(text::decimal_value(s))
    } else {
        None
    }
}

/// The number that four octets spell.
pub open spec fn v4_bits(a: nat, b: nat, c: nat, d: nat) -> nat {
    ((a * 256 + b) * 256 + c) * 256 + d
}

/// The IPv4 address that `s` writes as four octets between dots.
pub open spec fn ipv4(s: Seq<char>) -> Option<nat> {
    let p = text::split(s, '.');
    if p.len() == 4 {
        match (octet(p[0]), octet(p[1]), octet(p[2]), octet(p[3])) {
            (Some(a), Some(b), Some(c), Some(d)) => Some(v4_bits(a, b, c, d)),
            _ => None,
        }
    } else {
        None
    }
}

/// The value of a hexadecimal digit of either case.
pub open spec fn hex_value(c: char) -> Option<nat> {
    if '0' <= c <= '9' {
        Some((c as int - '0' as int) as nat)
    } else if 'a' <= c <= 'f' {
        Some((c as int - 'a' as int + 10) as nat)
    } else if 'A' <= c <= 'F' {
        Some((c as int - 'A' as int + 10) as nat)
    } else {
        None
    }
}

/// The number that a row of hexadecimal digits stands for.
pub open spec fn hex_row(s: Seq<char>) -> Option<nat>
    decreases s.len(),
{
    if s.len() == 0 {
        Some(0)
    } else {
        match (hex_row(s.drop_last()), hex_value(s.last())) {
            (Some(n), Some(d)) => Some(n * 16 + d),
            _ => None,
        }
    }
}

/// One group of an IPv6 address: one to four hexadecimal digits.
pub open spec fn group(s: Seq<char>) -> Option<nat> {
    if 1 <= s.len() <= 4 {
        hex_row(s)
    } else {
        None
    }
}

/// The groups that `s` writes between colons, at least one; with `quad` the
/// last of them may be a dotted quad, which stands for two.
pub open spec fn some_groups(s: Seq<char>, quad: bool) -> Option<Seq<nat>>
    decreases s.len(),
{
    let i = text::find(s, ':');
    if 0 <= i < s.len() {
        match (group(s.take(i)), some_groups(s.skip(i + 1), quad)) {
            (Some(g), Some(rest)) => Some(seq![g] + rest),
            _ => None,
        }
    } else {
        match (group(s), ipv4(s)) {
            (Some(g), _) => Some(seq![g]),
            (None, Some(bits)) if quad => Some(seq![bits / 65536, bits % 65536]),
            _ => None,
        }
    }
}

/// The groups that `s` writes, none where it is empty.
pub open spec fn groups(s: Seq<char>, quad: bool) -> Option<Seq<nat>> {
    if s.len() == 0 {
        Some(seq![])
    } else {
        some_groups(s, quad)
    }
}

/// The place of the first `::` in `s`, or the length of `s`.
pub open spec fn find_gap(s: Seq<char>) -> int
    decreases s.len(),
{
    if s.len() == 0 {
        0
    } else if s.len() > 1 && s[0] == ':' && s[1] == ':' {
        0
    } else {
        1 + find_gap(s.drop_first())
    }
}

/// The number that eight groups spell.
pub open spec fn v6_bits(g: Seq<nat>) -> nat {
    ((((((g[0] * 65536 + g[1]) * 65536 + g[2]) * 65536 + g[3]) * 65536 + g[4]) * 65536 + g[5])
        * 65536 + g[6]) * 65536 + g[7]
}

/// The IPv6 address that `s` writes: eight groups, or fewer around a `::` that
/// stands for as many zero groups as are missing. A dotted quad may stand for
/// the last two groups.
pub open spec fn ipv6(s: Seq<char>) -> Option<nat> {
    let gap = find_gap(s);
    if 0 <= gap && gap + 2 <= s.len() {
        match (groups(s.take(gap), false), groups(s.skip(gap + 2), true)) {
            (Some(head), Some(tail)) => if head.len() + tail.len() <= 7 {
                let zeros = Seq::new((8 - head.len() - tail.len()) as nat, |i: int| 0nat);
                Some(v6_bits(head + zeros + tail))
            } else {
                None
            },
            _ => None,
        }
    } else {
        match some_groups(s, true) {
            Some(all) => if all.len() == 8 {
                Some(v6_bits(all))
            } else {
                None
            },
            None => None,
        }
    }
}

/// The address that `s` writes.
pub open spec fn ip(s: Seq<char>) -> Option<IpAddr> {
    match (ipv4(s), ipv6(s)) {
        (Some(bits), _) => Some(IpAddr::V4(bits as u32)),
        (None, Some(bits)) => Some(IpAddr::V6(bits as u128)),
        (None, None) => None,
    }
}

/// `s` without a pair of brackets around it.
pub open spec fn unbracketed(s: Seq<char>) -> Seq<char> {
    if s.len() >= 2 && s[0] == '[' && s.last() == ']' {
        s.subrange(1, s.len() - 1)
    } else {
        s
    }
}

/// The decimal number that `s` writes in digits alone, if it is at most `max`.
pub open spec fn number(s: Seq<char>, max: nat) -> Option<nat> {
    if s.len() > 0 && text::all_digits(s) && text::decimal_value(s) <= max {
        Some(text::decimal_value(s))
    } else {
        None
    }
}

/// The IPv6 address and zone that `s` writes; the zone follows a `%`.
pub open spec fn scoped_ipv6(s: Seq<char>) -> Option<(nat, nat)> {
    let i = text::find(s, '%');
    if i < s.len() {
        match (ipv6(s.take(i)), number(s.skip(i + 1), u32::MAX as nat)) {
            (Some(bits), Some(zone)) => Some((bits, zone)),
            _ => None,
        }
    } else {
        match ipv6(s) {
            Some(bits) => Some((bits, 0)),
            None => None,
        }
    }
}

/// The socket address that `s` writes: `a.b.c.d:port` or `[ipv6]:port`.
pub open spec fn socket_addr(s: Seq<char>) -> Option<SocketAddr> {
    if s.len() > 0 && s[0] == '[' {
        let close = text::find(s, ']');
        if close + 1 < s.len() && s[close + 1] == ':' {
            match (scoped_ipv6(s.subrange(1, close)), number(s.skip(close + 2), u16::MAX as nat)) {
                (Some((bits, zone)), Some(port)) => Some(
                    SocketAddr {
                        ip: IpAddr::V6(bits as u128),
                        port: port as u16,
                        scope_id: zone as u32,
                    },
                ),
                _ => None,
            }
        } else {
            None
        }
    } else {
        let colon = text::find(s, ':');
        if colon < s.len() {
            match (ipv4(s.take(colon)), number(s.skip(colon + 1), u16::MAX as nat)) {
                (Some(bits), Some(port)) => Some(
                    SocketAddr { ip: IpAddr::V4(bits as u32), port: port as u16, scope_id: 0 },
                ),
                _ => None,
            }
        } else {
            None
        }
    }
}

// ---------------------------------------------------------------------------
// Reading it
// ---------------------------------------------------------------------------

/// Whether `s` is made of digits.
fn only_digits(s: &[char]) -> (r: bool)
    ensures
        r == text::all_digits(s@),
{
    let end = text::skip_digits(s, 0);
    proof {
        assert(s@.skip(0) =~= s@);
        text::lemma_digits_end(s@);
        assert(end == s@.len() ==> s@.subrange(0, end as int) =~= s@);
    }
    end == s.len()
}

fn read_number(s: &[char], max: u64) -> (r: Option<u64>)
    ensures
        match r {
            Some(n) => number(s@, max as nat) == Some(n as nat),
            None => number(s@, max as nat) is None,
        },
{
    if s.len() == 0 || !only_digits(s) {
        return None;
    }
    assert(s@.subrange(0, s@.len() as int) =~= s@);
    text::read_digits(s, 0, s.len(), max)
}

fn read_octet(s: &[char]) -> (r: Option<u32>)
    ensures
        match r {
            Some(n) => octet(s@) == Some(n as nat) && n <= 255,
            None => octet(s@) is None,
        },
{
    if s.len() > 3 || (s.len() > 1 && s[0] == '0') {
        return None;
    }
    match read_number(s, 255) {
        Some(n) => Some(n as u32),
        None => None,
    }
}

#[verifier::rlimit(40)]
fn read_ipv4(s: &[char]) -> (r: Option<u32>)
    ensures
        match r {
            Some(bits) => ipv4(s@) == Some(bits as nat),
            None => ipv4(s@) is None,
        },
{
    let n = s.len();
    proof {
        reveal_with_fuel(text::split, 5);
        assert(s@.subrange(0, n as int) =~= s@);
    }
    let i = text::find_char(s, 0, n, '.');
    if i == n {
        return None;
    }
    let s1 = slice_subrange(s, i + 1, n);
    assert(s1@ =~= s@.skip(i + 1));
    let n1 = s1.len();
    assert(s1@.subrange(0, n1 as int) =~= s1@);
    let j = text::find_char(s1, 0, n1, '.');
    if j == n1 {
        return None;
    }
    let s2 = slice_subrange(s1, j + 1, n1);
    assert(s2@ =~= s1@.skip(j + 1));
    let n2 = s2.len();
    assert(s2@.subrange(0, n2 as int) =~= s2@);
    let k = text::find_char(s2, 0, n2, '.');
    if k == n2 {
        return None;
    }
    let s3 = slice_subrange(s2, k + 1, n2);
    assert(s3@ =~= s2@.skip(k + 1));
    let n3 = s3.len();
    assert(s3@.subrange(0, n3 as int) =~= s3@);
    let l = text::find_char(s3, 0, n3, '.');
    if l < n3 {
        return None;
    }
    let p0 = slice_subrange(s, 0, i);
    let p1 = slice_subrange(s1, 0, j);
    let p2 = slice_subrange(s2, 0, k);
    proof {
        assert(p0@ =~= s@.take(i as int));
        assert(p1@ =~= s1@.take(j as int));
        assert(p2@ =~= s2@.take(k as int));
        let p = text::split(s@, '.');
        assert(p =~= seq![p0@, p1@, p2@, s3@]);
    }
    match (read_octet(p0), read_octet(p1), read_octet(p2), read_octet(s3)) {
        (Some(a), Some(b), Some(c), Some(d)) => Some(((a * 256 + b) * 256 + c) * 256 + d),
        _ => None,
    }
}


/// A number that dotted quads and groups spell stays below its bound.
proof fn lemma_hex_row_bound(s: Seq<char>)
    requires
        s.len() <= 4,
    ensures
        hex_row(s) matches Some(n) ==> n < (if s.len() == 0 {
            1int
        } else if s.len() == 1 {
            16
        } else if s.len() == 2 {
            256
        } else if s.len() == 3 {
            4096
        } else {
            65536
        }),
    decreases s.len(),
{
    if s.len() > 0 {
        lemma_hex_row_bound(s.drop_last());
    }
}

pub(crate) fn read_hex_digit(c: char) -> (r: Option<u16>)
    ensures
        match r {
            Some(d) => hex_value(c) == Some(d as nat) && d < 16,
            None => hex_value(c) is None,
        },
{
    if c >= '0' && c <= '9' {
        Some((c as u16) - ('0' as u16))
    } else if c >= 'a' && c <= 'f' {
        Some((c as u16) - ('a' as u16) + 10)
    } else if c >= 'A' && c <= 'F' {
        Some((c as u16) - ('A' as u16) + 10)
    } else {
        None
    }
}

/// No row of digits begins with something else than a row of digits.
proof fn lemma_hex_row_prefix(s: Seq<char>, i: int)
    requires
        0 <= i <= s.len(),
        hex_row(s.take(i)) is None,
    ensures
        hex_row(s) is None,
    decreases s.len(),
{
    if i < s.len() {
        assert(s.drop_last().take(i) =~= s.take(i));
        lemma_hex_row_prefix(s.drop_last(), i);
    } else {
        assert(s.take(i) =~= s);
    }
}

fn read_group(s: &[char]) -> (r: Option<u16>)
    ensures
        match r {
            Some(g) => group(s@) == Some(g as nat),
            None => group(s@) is None,
        },
{
    if s.len() == 0 || s.len() > 4 {
        return None;
    }
    let mut n: u16 = 0;
    let mut i: usize = 0;
    while i < s.len()
        invariant
            i <= s@.len() <= 4,
            hex_row(s@.take(i as int)) == Some(n as nat),
        decreases s@.len() - i,
    {
        proof {
            lemma_hex_row_bound(s@.take(i as int));
            assert(s@.take(i + 1).drop_last() =~= s@.take(i as int));
        }
        match read_hex_digit(s[i]) {
            Some(d) => {
                n = n * 16 + d;
            },
            None => {
                proof {
                    lemma_hex_row_prefix(s@, i + 1);
                }
                return None;
            },
        }
        i = i + 1;
    }
    assert(s@.take(i as int) =~= s@);
    Some(n)
}

/// The numbers that machine groups stand for.
spec fn numbers(g: Seq<u16>) -> Seq<nat> {
    Seq::new(g.len(), |i: int| g[i] as nat)
}

/// What comes of groups read so far and what the rest comes to.
spec fn after(done: Seq<nat>, rest: Option<Seq<nat>>) -> Option<Seq<nat>> {
    match rest {
        Some(more) => Some(done + more),
        None => None,
    }
}

fn read_some_groups(s: &[char], quad: bool) -> (r: Option<Vec<u16>>)
    ensures
        match r {
            Some(g) => some_groups(s@, quad) == Some(numbers(g@)),
            None => some_groups(s@, quad) is None,
        },
{
    let n = s.len();
    let mut out: Vec<u16> = Vec::new();
    let mut at: usize = 0;
    proof {
        assert(s@.skip(0) =~= s@);
        if let Some(all) = some_groups(s@, quad) {
            assert(numbers(out@) + all =~= all);
        }
    }
    loop
        invariant
            n == s@.len(),
            at <= n,
            some_groups(s@, quad) == after(numbers(out@), some_groups(s@.skip(at as int), quad)),
        decreases n - at,
    {
        let ghost rest = s@.skip(at as int);
        assert(s@.subrange(at as int, n as int) =~= rest);
        let i = text::find_char(s, at, n, ':');
        let piece = slice_subrange(s, at, i);
        if i == n {
            assert(piece@ =~= rest);
            if let Some(g) = read_group(piece) {
                let ghost before = out@;
                out.push(g);
                assert(numbers(out@) =~= numbers(before) + seq![g as nat]);
                return Some(out);
            }
            if quad {
                if let Some(bits) = read_ipv4(piece) {
                    let ghost before = out@;
                    out.push((bits / 65536) as u16);
                    out.push((bits % 65536) as u16);
                    assert(numbers(out@) =~= numbers(before) + seq![
                        bits as nat / 65536,
                        bits as nat % 65536,
                    ]);
                    return Some(out);
                }
            }
            return None;
        }
        assert(piece@ =~= rest.take(i - at));
        match read_group(piece) {
            Some(g) => {
                let ghost before = out@;
                out.push(g);
                proof {
                    assert(rest.skip(i - at + 1) =~= s@.skip(i + 1));
                    if let Some(more) = some_groups(s@.skip(i + 1), quad) {
                        assert(numbers(out@) + more =~= numbers(before) + (seq![g as nat] + more));
                    }
                }
            },
            None => return None,
        }
        at = i + 1;
    }
}

fn read_groups(s: &[char], quad: bool) -> (r: Option<Vec<u16>>)
    ensures
        match r {
            Some(g) => groups(s@, quad) == Some(numbers(g@)),
            None => groups(s@, quad) is None,
        },
{
    if s.len() == 0 {
        let none: Vec<u16> = Vec::new();
        assert(numbers(none@) =~= seq![]);
        return Some(none);
    }
    read_some_groups(s, quad)
}

fn join_groups(g: &Vec<u16>) -> (r: u128)
    requires
        g@.len() == 8,
    ensures
        r == v6_bits(numbers(g@)),
{
    let mut bits: u128 = g[0] as u128;
    bits = bits * 65536 + g[1] as u128;
    bits = bits * 65536 + g[2] as u128;
    bits = bits * 65536 + g[3] as u128;
    bits = bits * 65536 + g[4] as u128;
    bits = bits * 65536 + g[5] as u128;
    bits = bits * 65536 + g[6] as u128;
    bits * 65536 + g[7] as u128
}

/// The place of the first `::` is what `find_gap` returns.
proof fn lemma_find_gap_is(s: Seq<char>, i: int)
    requires
        0 <= i <= s.len(),
        i < s.len() ==> i + 1 < s.len() && s[i] == ':' && s[i + 1] == ':',
        forall|j: int|
            0 <= j < i ==> !(j + 1 < s.len() && #[trigger] s[j] == ':' && s[j + 1] == ':'),
    ensures
        find_gap(s) == i,
    decreases s.len(),
{
    if i > 0 {
        assert(!(s.len() > 1 && s[0] == ':' && s[1] == ':'));
        let t = s.drop_first();
        assert forall|j: int| 0 <= j < i - 1 implies !(j + 1 < t.len() && #[trigger] t[j] == ':'
            && t[j + 1] == ':') by {
            assert(t[j] == s[j + 1]);
        }
        lemma_find_gap_is(t, i - 1);
    }
}

fn read_gap(s: &[char]) -> (r: usize)
    ensures
        r == find_gap(s@),
        r <= s@.len(),
        r < s@.len() ==> r + 2 <= s@.len(),
{
    let mut i: usize = 0;
    while i < s.len()
        invariant
            i <= s@.len(),
            forall|j: int|
                0 <= j < i ==> !(j + 1 < s@.len() && #[trigger] s@[j] == ':' && s@[j + 1] == ':'),
        decreases s@.len() - i,
    {
        if s.len() - i > 1 && s[i] == ':' && s[i + 1] == ':' {
            proof {
                lemma_find_gap_is(s@, i as int);
            }
            return i;
        }
        i = i + 1;
    }
    proof {
        lemma_find_gap_is(s@, i as int);
    }
    i
}

fn read_ipv6(s: &[char]) -> (r: Option<u128>)
    ensures
        match r {
            Some(bits) => ipv6(s@) == Some(bits as nat),
            None => ipv6(s@) is None,
        },
{
    let gap = read_gap(s);
    let n = s.len();
    if gap == n {
        return match read_some_groups(s, true) {
            Some(all) => if all.len() == 8 {
                Some(join_groups(&all))
            } else {
                None
            },
            None => None,
        };
    }
    let front = slice_subrange(s, 0, gap);
    let back = slice_subrange(s, gap + 2, n);
    proof {
        assert(front@ =~= s@.take(gap as int));
        assert(back@ =~= s@.skip(gap + 2));
    }
    let head = match read_groups(front, false) {
        Some(g) => g,
        None => return None,
    };
    let tail = match read_groups(back, true) {
        Some(g) => g,
        None => return None,
    };
    if head.len() > 7 || tail.len() > 7 - head.len() {
        return None;
    }
    let mut all: Vec<u16> = Vec::new();
    let mut i: usize = 0;
    let start: usize = 8 - tail.len();
    while i < 8
        invariant
            head@.len() + tail@.len() <= 7,
            start == 8 - tail@.len(),
            i <= 8,
            all@.len() == i,
            forall|j: int| 0 <= j < i && j < head@.len() ==> all@[j] == head@[j],
            forall|j: int| 0 <= j < i && head@.len() <= j < start ==> all@[j] == 0,
            forall|j: int| 0 <= j < i && start <= j ==> all@[j] == tail@[j - start],
        decreases 8 - i,
    {
        if i < head.len() {
            all.push(head[i]);
        } else if i < start {
            all.push(0);
        } else {
            all.push(tail[i - start]);
        }
        i = i + 1;
    }
    proof {
        let zeros = Seq::new((8 - head@.len() - tail@.len()) as nat, |i: int| 0nat);
        assert(numbers(all@) =~= numbers(head@) + zeros + numbers(tail@));
    }
    Some(join_groups(&all))
}

/// Reads an IP address.
pub fn parse_ip(s: &str) -> (r: Option<IpAddr>)
    ensures
        r == ip(s@),
{
    let chars = text::chars_of(s);
    read_ip(chars.as_slice())
}

/// `s` without a pair of brackets around it.
pub fn strip_brackets(s: &str) -> (r: String)
    ensures
        r@ == unbracketed(s@),
{
    let chars = text::chars_of(s);
    let n = chars.len();
    if n >= 2 && chars[0] == '[' && chars[n - 1] == ']' {
        text::text_of(chars.as_slice(), 1, n - 1)
    } else {
        s.to_owned()
    }
}

fn read_ip(s: &[char]) -> (r: Option<IpAddr>)
    ensures
        r == ip(s@),
{
    if let Some(bits) = read_ipv4(s) {
        return Some(IpAddr::V4(bits));
    }
    match read_ipv6(s) {
        Some(bits) => Some(IpAddr::V6(bits)),
        None => None,
    }
}

fn read_scoped_ipv6(s: &[char]) -> (r: Option<(u128, u32)>)
    ensures
        match r {
            Some((bits, zone)) => scoped_ipv6(s@) == Some((bits as nat, zone as nat)),
            None => scoped_ipv6(s@) is None,
        },
{
    let n = s.len();
    assert(s@.subrange(0, n as int) =~= s@);
    let i = text::find_char(s, 0, n, '%');
    if i == n {
        return match read_ipv6(s) {
            Some(bits) => Some((bits, 0)),
            None => None,
        };
    }
    let front = slice_subrange(s, 0, i);
    let back = slice_subrange(s, i + 1, n);
    proof {
        assert(front@ =~= s@.take(i as int));
        assert(back@ =~= s@.skip(i + 1));
    }
    match (read_ipv6(front), read_number(back, u32::MAX as u64)) {
        (Some(bits), Some(zone)) => Some((bits, zone as u32)),
        _ => None,
    }
}

/// Reads a socket address.
pub fn parse_socket_addr(s: &str) -> (r: Option<SocketAddr>)
    ensures
        r == socket_addr(s@),
{
    let chars = text::chars_of(s);
    read_socket_addr(chars.as_slice())
}

/// Reads a socket address out of its characters.
pub fn read_socket_addr(s: &[char]) -> (r: Option<SocketAddr>)
    ensures
        r == socket_addr(s@),
{
    let n = s.len();
    assert(s@.subrange(0, n as int) =~= s@);
    if n > 0 && s[0] == '[' {
        let close = text::find_char(s, 0, n, ']');
        if n - close <= 1 || s[close + 1] != ':' {
            return None;
        }
        proof {
            text::lemma_find(s@, ']');
        }
        let inner = slice_subrange(s, 1, close);
        let back = slice_subrange(s, close + 2, n);
        assert(back@ =~= s@.skip(close + 2));
        return match (read_scoped_ipv6(inner), read_number(back, u16::MAX as u64)) {
            (Some((bits, zone)), Some(port)) => Some(
                SocketAddr { ip: IpAddr::V6(bits), port: port as u16, scope_id: zone },
            ),
            _ => None,
        };
    }
    let colon = text::find_char(s, 0, n, ':');
    if colon == n {
        return None;
    }
    let front = slice_subrange(s, 0, colon);
    let back = slice_subrange(s, colon + 1, n);
    proof {
        assert(front@ =~= s@.take(colon as int));
        assert(back@ =~= s@.skip(colon + 1));
    }
    match (read_ipv4(front), read_number(back, u16::MAX as u64)) {
        (Some(bits), Some(port)) => Some(
            SocketAddr { ip: IpAddr::V4(bits), port: port as u16, scope_id: 0 },
        ),
        _ => None,
    }
}

// ---------------------------------------------------------------------------
// Laws
// ---------------------------------------------------------------------------

/// The number that bytes spell, the most significant first.
pub open spec fn be_value(b: Seq<u8>) -> nat
    decreases b.len(),
{
    if b.len() == 0 {
        0
    } else {
        be_value(b.drop_last()) * 256 + b.last() as nat
    }
}

/// Whether `n` bytes hold `x`.
pub open spec fn holds(x: nat, n: nat) -> bool
    decreases n,
{
    if n == 0 {
        x == 0
    } else {
        holds(x / 256, (n - 1) as nat)
    }
}

/// The bytes of a number that they hold spell that number, so that no two
/// addresses are written alike.
pub proof fn bytes_spell_the_number(x: nat, n: nat)
    ensures
        be_bytes(x, n).len() == n,
        holds(x, n) ==> be_value(be_bytes(x, n)) == x,
    decreases n,
{
    if n > 0 {
        bytes_spell_the_number(x / 256, (n - 1) as nat);
        assert(be_bytes(x, n).drop_last() =~= be_bytes(x / 256, (n - 1) as nat));
    }
}

/// The bytes of a dotted quad are its four numbers in their order.
pub proof fn a_dotted_quad_is_its_bytes(a: u8, b: u8, c: u8, d: u8)
    ensures
        be_bytes(v4_bits(a as nat, b as nat, c as nat, d as nat), 4) == seq![a, b, c, d],
{
    reveal_with_fuel(be_bytes, 5);
    assert(be_bytes(v4_bits(a as nat, b as nat, c as nat, d as nat), 4) =~= seq![a, b, c, d]);
}

/// An IPv4 address ends in a digit, and what follows its last dot is digits.
pub proof fn lemma_ipv4_ends_in_digits(s: Seq<char>)
    requires
        ipv4(s) is Some,
    ensures
        s.len() > 0,
        s.last() != '.',
        text::all_digits(text::split(s, '.').last()),
{
    text::lemma_split_last(s, '.');
    let p = text::split(s, '.');
    assert(p.last() == p[3]);
    let e = p[3];
    assert(s.skip(s.len() - e.len()).last() == s.last());
    assert(text::is_digit(e[e.len() - 1]));
}

/// An IPv6 address has a colon in it.
pub proof fn lemma_ipv6_has_a_colon(s: Seq<char>)
    requires
        ipv6(s) is Some,
    ensures
        exists|i: int| 0 <= i < s.len() && s[i] == ':',
{
    let gap = find_gap(s);
    if 0 <= gap && gap + 2 <= s.len() {
        lemma_gap_is_colons(s);
        assert(s[gap] == ':');
    } else {
        text::lemma_find(s, ':');
        let i = text::find(s, ':');
        if i < s.len() {
            assert(s[i] == ':');
        }
    }
}

proof fn lemma_gap_is_colons(s: Seq<char>)
    ensures
        0 <= find_gap(s) <= s.len(),
        find_gap(s) + 2 <= s.len() ==> s[find_gap(s)] == ':',
    decreases s.len(),
{
    if s.len() > 0 && !(s.len() > 1 && s[0] == ':' && s[1] == ':') {
        lemma_gap_is_colons(s.drop_first());
    }
}

/// The text of an address has no bracket in front.
pub proof fn no_address_starts_with_a_bracket(s: Seq<char>)
    requires
        s.len() > 0,
        s[0] == '[',
    ensures
        ip(s) is None,
{
    if ipv4(s) is Some {
        text::lemma_find(s, '.');
        let i = text::find(s, '.');
        let first = text::split(s, '.')[0];
        assert(first[0] == '[');
        assert(text::is_digit(first[0]));
    }
    let gap = find_gap(s);
    lemma_gap_is_colons(s);
    if 0 <= gap && gap + 2 <= s.len() {
        lemma_bracket_is_no_group(s.take(gap), false);
    } else {
        lemma_bracket_is_no_group(s, true);
    }
}

proof fn lemma_bracket_is_no_group(s: Seq<char>, quad: bool)
    requires
        s.len() > 0,
        s[0] == '[',
    ensures
        some_groups(s, quad) is None,
{
    text::lemma_find(s, ':');
    let i = text::find(s, ':');
    if i < s.len() {
        lemma_bracket_is_no_hex(s.take(i));
    } else {
        lemma_bracket_is_no_hex(s);
        if ipv4(s) is Some {
            text::lemma_find(s, '.');
            let first = text::split(s, '.')[0];
            assert(first[0] == '[');
            assert(text::is_digit(first[0]));
        }
    }
}

proof fn lemma_bracket_is_no_hex(s: Seq<char>)
    requires
        s.len() > 0,
        s[0] == '[',
    ensures
        hex_row(s) is None,
    decreases s.len(),
{
    if s.len() > 1 {
        lemma_bracket_is_no_hex(s.drop_last());
    }
}

/// Two bytes spell the first one 256 times and the second one once.
pub proof fn two_bytes_are_high_and_low(high: u8, low: u8)
    ensures
        be_value(seq![high, low]) == high * 256 + low,
        be_bytes((high * 256 + low) as nat, 2) == seq![high, low],
{
    reveal_with_fuel(be_value, 3);
    reveal_with_fuel(be_bytes, 3);
    let b = seq![high, low];
    assert(b.drop_last() =~= seq![high]);
    assert(seq![high].drop_last() =~= Seq::<u8>::empty());
    assert(be_bytes((high * 256 + low) as nat, 2) =~= b);
}

/// The hexadecimal digits stand for zero to fifteen, in either case, and no
/// other character stands for anything.
pub proof fn hex_digits_stand_for_their_numbers(c: char)
    ensures
        hex_value('0') == Some(0nat) && hex_value('1') == Some(1nat),
        hex_value('2') == Some(2nat) && hex_value('3') == Some(3nat),
        hex_value('4') == Some(4nat) && hex_value('5') == Some(5nat),
        hex_value('6') == Some(6nat) && hex_value('7') == Some(7nat),
        hex_value('8') == Some(8nat) && hex_value('9') == Some(9nat),
        hex_value('a') == Some(10nat) && hex_value('A') == Some(10nat),
        hex_value('b') == Some(11nat) && hex_value('B') == Some(11nat),
        hex_value('c') == Some(12nat) && hex_value('C') == Some(12nat),
        hex_value('d') == Some(13nat) && hex_value('D') == Some(13nat),
        hex_value('e') == Some(14nat) && hex_value('E') == Some(14nat),
        hex_value('f') == Some(15nat) && hex_value('F') == Some(15nat),
        hex_value(c) is Some ==> '0' <= c <= '9' || 'a' <= c <= 'f' || 'A' <= c <= 'F',
{
}

/// The two digits that a byte is written with stand for it, the greater one
/// first, and letters among them are small.
pub proof fn written_bytes_are_read_back(b: u8)
    ensures
        ({
            let d = text::hex_byte(b);
            &&& d.len() == 2
            &&& hex_value(d[0]) is Some
            &&& hex_value(d[1]) is Some
            &&& hex_value(d[0])->0 * 16 + hex_value(d[1])->0 == b
            &&& !('A' <= d[0] <= 'F') && !('A' <= d[1] <= 'F')
        }),
{
}

/// Each further digit makes a row of hexadecimal digits count sixteen times as
/// much; a row stands for a number exactly where it is made of such digits.
pub proof fn hex_digits_count_by_their_place(s: Seq<char>, c: char)
    ensures
        hex_row(s) is Some <==> forall|i: int|
            0 <= i < s.len() ==> hex_value(#[trigger] s[i]) is Some,
        hex_row(s) is Some && hex_value(c) is Some ==> hex_row(s.push(c)) == Some(
            (16 * hex_row(s)->0 + hex_value(c)->0) as nat,
        ),
        hex_row(seq![]) == Some(0nat),
    decreases s.len(),
{
    assert(s.push(c).drop_last() =~= s);
    if s.len() > 0 {
        let t = s.drop_last();
        hex_digits_count_by_their_place(t, c);
        if hex_row(s) is Some {
            assert forall|i: int| 0 <= i < s.len() implies hex_value(#[trigger] s[i]) is Some by {
                if i < t.len() {
                    assert(t[i] == s[i]);
                }
            }
        }
        if forall|i: int| 0 <= i < s.len() ==> hex_value(#[trigger] s[i]) is Some {
            assert forall|i: int| 0 <= i < t.len() implies hex_value(#[trigger] t[i]) is Some by {
                assert(t[i] == s[i]);
            }
            assert(hex_value(s[s.len() - 1]) is Some);
        }
    }
}

proof fn lemma_octet(n: u8)
    ensures
        octet(text::decimal(n as nat)) == Some(n as nat),
        !text::decimal(n as nat).contains('.'),
        !text::decimal(n as nat).contains(':'),
{
    let d = text::decimal(n as nat);
    text::lemma_decimal(n as nat);
    text::numerals_have_no_leading_zero(n as nat);
    assert forall|i: int| 0 <= i < d.len() implies d[i] != '.' && d[i] != ':' by {
        assert(text::is_digit(d[i]));
    }
}

/// The text of a dotted quad.
pub open spec fn quad_text(a: u8, b: u8, c: u8, d: u8) -> Seq<char> {
    text::joined(
        seq![
            text::decimal(a as nat),
            text::decimal(b as nat),
            text::decimal(c as nat),
            text::decimal(d as nat),
        ],
        '.',
    )
}

/// Four numbers of at most 255 with dots between them are read as the address
/// of those four bytes.
pub proof fn dotted_quads_are_read(a: u8, b: u8, c: u8, d: u8)
    ensures
        ip(quad_text(a, b, c, d)) is Some,
        ip(quad_text(a, b, c, d))->0 is V4,
        be_bytes(ip(quad_text(a, b, c, d))->0->V4_0 as nat, 4) == seq![a, b, c, d],
        ipv4(quad_text(a, b, c, d)) == Some(v4_bits(a as nat, b as nat, c as nat, d as nat)),
{
    let p = seq![
        text::decimal(a as nat),
        text::decimal(b as nat),
        text::decimal(c as nat),
        text::decimal(d as nat),
    ];
    lemma_octet(a);
    lemma_octet(b);
    lemma_octet(c);
    lemma_octet(d);
    assert forall|i: int| 0 <= i < p.len() implies !(#[trigger] p[i]).contains('.') by {
        assert(i == 0 || i == 1 || i == 2 || i == 3);
    }
    text::joined_pieces_split(p, '.');
    a_dotted_quad_is_its_bytes(a, b, c, d);
}

/// Nothing else is read as an IPv4 address: its text is that of four bytes.
pub proof fn only_dotted_quads_are_read(s: Seq<char>) -> (q: (u8, u8, u8, u8))
    requires
        ipv4(s) is Some,
    ensures
        s == quad_text(q.0, q.1, q.2, q.3),
{
    let p = text::split(s, '.');
    text::pieces_join_to_the_text(s, '.');
    text::digits_are_a_numeral(p[0]);
    text::digits_are_a_numeral(p[1]);
    text::digits_are_a_numeral(p[2]);
    text::digits_are_a_numeral(p[3]);
    let a = octet(p[0])->0 as u8;
    let b = octet(p[1])->0 as u8;
    let c = octet(p[2])->0 as u8;
    let d = octet(p[3])->0 as u8;
    assert(p =~= seq![
        text::decimal(a as nat),
        text::decimal(b as nat),
        text::decimal(c as nat),
        text::decimal(d as nat),
    ]);
    (a, b, c, d)
}

proof fn lemma_ipv4_chars(s: Seq<char>, i: int)
    requires
        ipv4(s) is Some,
        0 <= i < s.len(),
    ensures
        s[i] == '.' || text::is_digit(s[i]),
{
    if s[i] != '.' {
        let p = text::split(s, '.');
        let at = text::lemma_split_covers(s, '.', i);
        assert(at.0 == 0 || at.0 == 1 || at.0 == 2 || at.0 == 3);
        assert(text::is_digit(p[at.0][at.1]));
    }
}

/// Whether `s` is one to four hexadecimal digits.
pub open spec fn is_group(s: Seq<char>) -> bool {
    1 <= s.len() <= 4 && forall|i: int| 0 <= i < s.len() ==> hex_value(#[trigger] s[i]) is Some
}

/// Whether each of a row of texts is one to four hexadecimal digits.
pub open spec fn are_groups(gs: Seq<Seq<char>>) -> bool {
    forall|i: int| 0 <= i < gs.len() ==> is_group(#[trigger] gs[i])
}

/// The numbers that a row of groups stands for.
pub open spec fn group_values(gs: Seq<Seq<char>>) -> Seq<nat> {
    Seq::new(gs.len(), |i: int| hex_row(gs[i])->0)
}

proof fn lemma_group(g: Seq<char>)
    requires
        is_group(g),
    ensures
        group(g) == Some(hex_row(g)->0),
        hex_row(g)->0 < 65536,
        !g.contains(':'),
        !g.contains('.'),
        g.len() > 0,
        g[0] != ':',
        g.last() != ':',
{
    hex_digits_count_by_their_place(g, '0');
    lemma_group_bound(g);
    assert forall|i: int| 0 <= i < g.len() implies g[i] != ':' && g[i] != '.' by {
        assert(hex_value(g[i]) is Some);
    }
}

proof fn lemma_group_bound(g: Seq<char>)
    requires
        is_group(g),
        hex_row(g) is Some,
    ensures
        hex_row(g)->0 < 65536,
{
    reveal_with_fuel(hex_row, 5);
}

proof fn lemma_later_groups(gs: Seq<Seq<char>>)
    requires
        gs.len() > 0,
        are_groups(gs),
    ensures
        is_group(gs[0]),
        are_groups(gs.drop_first()),
        group_values(gs) == seq![hex_row(gs[0])->0] + group_values(gs.drop_first()),
{
    let rest = gs.drop_first();
    assert(is_group(gs[0]));
    assert forall|i: int| 0 <= i < rest.len() implies is_group(#[trigger] rest[i]) by {
        assert(rest[i] == gs[i + 1]);
    }
    assert(group_values(gs) =~= seq![hex_row(gs[0])->0] + group_values(rest));
}

/// A row of groups and something behind it that `some_groups` reads.
#[verifier::rlimit(40)]
proof fn lemma_read_groups(gs: Seq<Seq<char>>, last: Seq<char>, quad: bool)
    requires
        are_groups(gs),
        some_groups(last, quad) is Some,
        !last.contains(':'),
    ensures
        some_groups(text::joined(gs.push(last), ':'), quad) == Some(
            group_values(gs) + some_groups(last, quad)->0,
        ),
    decreases gs.len(),
{
    let all = gs.push(last);
    let s = text::joined(all, ':');
    if gs.len() == 0 {
        assert(s == last);
        assert(group_values(gs) + some_groups(last, quad)->0 =~= some_groups(last, quad)->0);
    } else {
        let rest = gs.drop_first();
        lemma_later_groups(gs);
        lemma_group(gs[0]);
        lemma_read_groups(rest, last, quad);
        assert(all.drop_first() =~= rest.push(last));
        let n = gs[0].len() as int;
        let tail = text::joined(rest.push(last), ':');
        assert(s == gs[0] + seq![':'] + tail);
        assert forall|j: int| 0 <= j < n implies s[j] != ':' by {
            assert(gs[0].contains(gs[0][j]));
        }
        text::lemma_find_is(s, ':', n);
        assert(s.take(n) =~= gs[0]);
        assert(s.skip(n + 1) =~= tail);
        assert(seq![hex_row(gs[0])->0] + (group_values(rest) + some_groups(last, quad)->0)
            =~= group_values(gs) + some_groups(last, quad)->0);
    }
}

proof fn lemma_one_group(g: Seq<char>, quad: bool)
    requires
        is_group(g),
    ensures
        some_groups(g, quad) == Some(seq![hex_row(g)->0]),
        !g.contains(':'),
{
    lemma_group(g);
    assert forall|j: int| 0 <= j < g.len() implies g[j] != ':' by {
        assert(g.contains(g[j]));
    }
    text::lemma_find_is(g, ':', g.len() as int);
}

proof fn lemma_joined_groups(gs: Seq<Seq<char>>, quad: bool)
    requires
        are_groups(gs),
    ensures
        groups(text::joined(gs, ':'), quad) == Some(group_values(gs)),
        gs.len() > 0 ==> some_groups(text::joined(gs, ':'), quad) == Some(group_values(gs)),
{
    if gs.len() == 0 {
        assert(group_values(gs) =~= seq![]);
    } else {
        let before = gs.drop_last();
        let last = gs.last();
        assert forall|i: int| 0 <= i < before.len() implies is_group(#[trigger] before[i]) by {
            assert(before[i] == gs[i]);
        }
        assert(is_group(gs[gs.len() - 1]));
        lemma_one_group(last, quad);
        lemma_read_groups(before, last, quad);
        assert(before.push(last) =~= gs);
        assert(group_values(before) + seq![hex_row(last)->0] =~= group_values(gs));
        lemma_no_gap(gs);
    }
}

/// Groups with a quad behind them.
proof fn lemma_joined_with_quad(gs: Seq<Seq<char>>, q: Seq<char>)
    requires
        are_groups(gs),
        ipv4(q) is Some,
    ensures
        groups(text::joined(gs.push(q), ':'), true) == Some(
            group_values(gs) + seq![ipv4(q)->0 / 65536, ipv4(q)->0 % 65536],
        ),
        some_groups(text::joined(gs.push(q), ':'), true) == Some(
            group_values(gs) + seq![ipv4(q)->0 / 65536, ipv4(q)->0 % 65536],
        ),
        text::joined(gs.push(q), ':').len() > 0,
{
    assert forall|j: int| 0 <= j < q.len() implies q[j] != ':' by {
        lemma_ipv4_chars(q, j);
    }
    text::lemma_find_is(q, ':', q.len() as int);
    lemma_ipv4_ends_in_digits(q);
    assert(group(q) is None) by {
        if group(q) is Some {
            hex_digits_count_by_their_place(q, '0');
            text::pieces_join_to_the_text(q, '.');
            assert(!q.contains('.')) by {
                assert forall|j: int| 0 <= j < q.len() implies q[j] != '.' by {
                    assert(hex_value(q[j]) is Some);
                }
            }
            text::lemma_find_is(q, '.', q.len() as int);
        }
    }
    lemma_read_groups(gs, q, true);
    assert(text::joined(gs.push(q), ':').len() > 0) by {
        if gs.len() > 0 {
            assert(gs.push(q).len() > 1);
        }
    }
}

/// Groups with colons between them hold no `::` and have no colon at an end.
proof fn lemma_no_gap(gs: Seq<Seq<char>>)
    requires
        gs.len() > 0,
        are_groups(gs),
    ensures
        ({
            let s = text::joined(gs, ':');
            &&& s.len() > 0
            &&& s[0] != ':'
            &&& s.last() != ':'
            &&& forall|j: int|
                0 <= j < s.len() - 1 ==> !(#[trigger] s[j] == ':' && s[j + 1] == ':')
            &&& gs.len() > 1 ==> s.contains(':')
        }),
    decreases gs.len(),
{
    let s = text::joined(gs, ':');
    lemma_later_groups(gs);
    let g = gs[0];
    lemma_group(g);
    assert forall|j: int| 0 <= j < g.len() implies g[j] != ':' by {
        assert(g.contains(g[j]));
    }
    if gs.len() > 1 {
        let rest = gs.drop_first();
        lemma_no_gap(rest);
        let tail = text::joined(rest, ':');
        let n = g.len() as int;
        assert(s == g + seq![':'] + tail);
        assert(s[n] == ':');
        assert(s.last() == tail.last());
        assert forall|j: int| 0 <= j < s.len() - 1 implies !(#[trigger] s[j] == ':' && s[j + 1]
            == ':') by {
            if j < n {
                assert(s[j] == g[j]);
            } else if j == n {
                assert(s[j + 1] == tail[0]);
            } else {
                assert(s[j] == tail[j - n - 1]);
                assert(s[j + 1] == tail[j - n]);
            }
        }
    }
}

proof fn lemma_colon_is_no_ipv4(s: Seq<char>)
    requires
        s.contains(':'),
    ensures
        ipv4(s) is None,
{
    if ipv4(s) is Some {
        let i = choose|i: int| 0 <= i < s.len() && s[i] == ':';
        lemma_ipv4_chars(s, i);
    }
}

proof fn lemma_more_bytes(x: nat, y: nat, n: nat)
    requires
        y < 65536,
    ensures
        be_bytes(x * 65536 + y, n + 2) == be_bytes(x, n) + be_bytes(y, 2),
{
    reveal_with_fuel(be_bytes, 3);
    let z = x * 65536 + y;
    assert(z / 256 == x * 256 + y / 256 && z % 256 == y % 256);
    assert((x * 256 + y / 256) / 256 == x && (x * 256 + y / 256) % 256 == y / 256);
    assert((y / 256) % 256 == y / 256);
    assert(be_bytes(z, n + 2) == be_bytes(z / 256, n + 1).push((z % 256) as u8));
    assert(be_bytes(z / 256, n + 1) == be_bytes(x, n).push((y / 256) as u8));
    assert(be_bytes(z, n + 2) =~= be_bytes(x, n) + be_bytes(y, 2));
}

/// Whether `g` is eight groups of 16 bits.
pub open spec fn eight_groups(g: Seq<nat>) -> bool {
    &&& g.len() == 8
    &&& g[0] < 65536 && g[1] < 65536 && g[2] < 65536 && g[3] < 65536
    &&& g[4] < 65536 && g[5] < 65536 && g[6] < 65536 && g[7] < 65536
}

/// The bytes of an IPv6 address are those of its eight groups, two each, in
/// their order.
pub proof fn an_ipv6_address_is_its_groups(g: Seq<nat>)
    requires
        eight_groups(g),
    ensures
        v6_bits(g) <= u128::MAX,
        be_bytes(v6_bits(g), 16) == be_bytes(g[0], 2) + be_bytes(g[1], 2) + be_bytes(g[2], 2)
            + be_bytes(g[3], 2) + be_bytes(g[4], 2) + be_bytes(g[5], 2) + be_bytes(g[6], 2)
            + be_bytes(g[7], 2),
{
    let x1 = g[0] * 65536 + g[1];
    let x2 = x1 * 65536 + g[2];
    let x3 = x2 * 65536 + g[3];
    let x4 = x3 * 65536 + g[4];
    let x5 = x4 * 65536 + g[5];
    let x6 = x5 * 65536 + g[6];
    lemma_more_bytes(g[0], g[1], 2);
    lemma_more_bytes(x1, g[2], 4);
    lemma_more_bytes(x2, g[3], 6);
    lemma_more_bytes(x3, g[4], 8);
    lemma_more_bytes(x4, g[5], 10);
    lemma_more_bytes(x5, g[6], 12);
    lemma_more_bytes(x6, g[7], 14);
}

/// Eight groups of one to four hexadecimal digits with colons between them
/// are read as the address of those groups; so are six, with a dotted quad for
/// the last two.
pub proof fn eight_groups_are_read(gs: Seq<Seq<char>>, q: Seq<char>)
    requires
        are_groups(gs),
        ipv4(q) is Some,
    ensures
        gs.len() == 8 ==> eight_groups(group_values(gs)) && ip(text::joined(gs, ':')) == Some(
            IpAddr::V6(v6_bits(group_values(gs)) as u128),
        ),
        gs.len() == 6 ==> {
            let g = group_values(gs) + seq![ipv4(q)->0 / 65536, ipv4(q)->0 % 65536];
            &&& eight_groups(g)
            &&& ip(text::joined(gs.push(q), ':')) == Some(IpAddr::V6(v6_bits(g) as u128))
        },
{
    assert forall|i: int| 0 <= i < gs.len() implies (#[trigger] group_values(gs)[i]) < 65536 by {
        assert(is_group(gs[i]));
        lemma_group(gs[i]);
    }
    if gs.len() == 8 {
        let s = text::joined(gs, ':');
        lemma_no_gap(gs);
        lemma_find_gap_is(s, s.len() as int);
        lemma_joined_groups(gs, true);
        lemma_colon_is_no_ipv4(s);
    }
    if gs.len() == 6 {
        let all = gs.push(q);
        let s = text::joined(all, ':');
        let head = text::joined(gs, ':');
        lemma_joined_with_quad(gs, q);
        lemma_no_gap(gs);
        lemma_joined_push(gs, q);
        let n = head.len() as int;
        assert(s[n] == ':');
        assert forall|j: int| 0 <= j < q.len() implies q[j] != ':' by {
            lemma_ipv4_chars(q, j);
        }
        assert forall|j: int| 0 <= j < s.len() implies !(j + 1 < s.len() && #[trigger] s[j] == ':'
            && s[j + 1] == ':') by {
            if j + 1 < n {
                assert(s[j] == head[j] && s[j + 1] == head[j + 1]);
            } else if j + 1 == n {
                assert(s[j] == head.last());
            } else if j + 1 < s.len() {
                assert(s[j + 1] == q[j - n]);
            }
        }
        lemma_find_gap_is(s, s.len() as int);
        lemma_colon_is_no_ipv4(s);
        lemma_quad_bound(q);
    }
}

proof fn lemma_quad_bound(q: Seq<char>)
    requires
        ipv4(q) is Some,
    ensures
        ipv4(q)->0 / 65536 < 65536,
{
}

proof fn lemma_joined_push(gs: Seq<Seq<char>>, q: Seq<char>)
    requires
        gs.len() > 0,
    ensures
        text::joined(gs.push(q), ':') == text::joined(gs, ':') + seq![':'] + q,
    decreases gs.len(),
{
    let all = gs.push(q);
    reveal_with_fuel(text::joined, 2);
    if gs.len() == 1 {
        assert(all.drop_first() =~= seq![q]);
        assert(text::joined(seq![q], ':') == q);
    } else {
        lemma_joined_push(gs.drop_first(), q);
        assert(all.drop_first() =~= gs.drop_first().push(q));
        assert(text::joined(all, ':') =~= text::joined(gs, ':') + seq![':'] + q);
    }
}

proof fn lemma_gap_is_read(head: Seq<Seq<char>>, t: Seq<char>)
    requires
        are_groups(head),
        groups(t, true) is Some,
        head.len() + groups(t, true)->0.len() <= 7,
    ensures
        ({
            let tail = groups(t, true)->0;
            let zeros = Seq::new((8 - head.len() - tail.len()) as nat, |i: int| 0nat);
            ip(text::joined(head, ':') + seq![':', ':'] + t) == Some(
                IpAddr::V6(v6_bits(group_values(head) + zeros + tail) as u128),
            )
        }),
{
    let h = text::joined(head, ':');
    let s = h + seq![':', ':'] + t;
    let n = h.len() as int;
    if head.len() > 0 {
        lemma_no_gap(head);
    }
    assert(s[n] == ':' && s[n + 1] == ':');
    assert forall|j: int| 0 <= j < n implies !(j + 1 < s.len() && #[trigger] s[j] == ':' && s[j + 1]
        == ':') by {
        assert(s[j] == h[j]);
        if j + 1 < n {
            assert(s[j + 1] == h[j + 1]);
        } else {
            assert(s[j] == h.last());
        }
    }
    lemma_find_gap_is(s, n);
    assert(s.take(n) =~= h);
    assert(s.skip(n + 2) =~= t);
    lemma_joined_groups(head, false);
    assert(s.contains(':'));
    lemma_colon_is_no_ipv4(s);
}

/// A `::` between at most seven groups stands for as many zero groups as are
/// missing, wherever it stands.
pub proof fn a_gap_is_filled_with_zeros(head: Seq<Seq<char>>, tail: Seq<Seq<char>>)
    requires
        are_groups(head),
        are_groups(tail),
        head.len() + tail.len() <= 7,
    ensures
        ({
            let zeros = Seq::new((8 - head.len() - tail.len()) as nat, |i: int| 0nat);
            ip(text::joined(head, ':') + seq![':', ':'] + text::joined(tail, ':')) == Some(
                IpAddr::V6(v6_bits(group_values(head) + zeros + group_values(tail)) as u128),
            )
        }),
{
    lemma_joined_groups(tail, true);
    lemma_gap_is_read(head, text::joined(tail, ':'));
}

/// Behind a `::` and any groups a dotted quad stands for two groups.
pub proof fn a_quad_may_end_a_gap(head: Seq<Seq<char>>, tail: Seq<Seq<char>>, q: Seq<char>)
    requires
        are_groups(head),
        are_groups(tail),
        ipv4(q) is Some,
        head.len() + tail.len() <= 5,
    ensures
        ({
            let zeros = Seq::new((6 - head.len() - tail.len()) as nat, |i: int| 0nat);
            ip(text::joined(head, ':') + seq![':', ':'] + text::joined(tail.push(q), ':')) == Some(
                IpAddr::V6(
                    v6_bits(
                        group_values(head) + zeros + (group_values(tail) + seq![
                            ipv4(q)->0 / 65536,
                            ipv4(q)->0 % 65536,
                        ]),
                    ) as u128,
                ),
            )
        }),
{
    lemma_joined_with_quad(tail, q);
    lemma_gap_is_read(head, text::joined(tail.push(q), ':'));
}

proof fn lemma_groups_chars(s: Seq<char>, quad: bool, i: int)
    requires
        some_groups(s, quad) is Some,
        0 <= i < s.len(),
    ensures
        s[i] == ':' || s[i] == '.' || hex_value(s[i]) is Some,
    decreases s.len(),
{
    text::lemma_find(s, ':');
    let e = text::find(s, ':');
    if e < s.len() {
        if i < e {
            hex_digits_count_by_their_place(s.take(e), '0');
            assert(hex_value(s.take(e)[i]) is Some);
        } else if i > e {
            lemma_groups_chars(s.skip(e + 1), quad, i - e - 1);
            assert(s.skip(e + 1)[i - e - 1] == s[i]);
        }
    } else if group(s) is Some {
        hex_digits_count_by_their_place(s, '0');
    } else {
        lemma_ipv4_chars(s, i);
    }
}

/// An address is written with hexadecimal digits, colons and dots alone.
pub proof fn addresses_have_no_other_characters(s: Seq<char>, i: int)
    requires
        ip(s) is Some,
        0 <= i < s.len(),
    ensures
        s[i] == ':' || s[i] == '.' || '0' <= s[i] <= '9' || 'a' <= s[i] <= 'f' || 'A' <= s[i]
            <= 'F',
{
    if ipv4(s) is Some {
        lemma_ipv4_chars(s, i);
    } else {
        let gap = find_gap(s);
        lemma_gap_is_colons(s);
        if 0 <= gap && gap + 2 <= s.len() {
            lemma_second_colon(s);
            if i < gap {
                lemma_groups_chars(s.take(gap), false, i);
            } else if i > gap + 1 {
                lemma_groups_chars(s.skip(gap + 2), true, i - gap - 2);
            }
        } else {
            lemma_groups_chars(s, true, i);
        }
    }
}

proof fn lemma_second_colon(s: Seq<char>)
    ensures
        0 <= find_gap(s) <= s.len(),
        find_gap(s) + 2 <= s.len() ==> s[find_gap(s) + 1] == ':',
    decreases s.len(),
{
    if s.len() > 0 && !(s.len() > 1 && s[0] == ':' && s[1] == ':') {
        lemma_second_colon(s.drop_first());
    }
}

/// A dotted quad, a colon and a port are read as they are.
pub proof fn ipv4_socket_addresses_are_read(a: Seq<char>, port: u16)
    requires
        ipv4(a) is Some,
    ensures
        socket_addr(a + seq![':'] + text::decimal(port as nat)) == Some(
            SocketAddr { ip: ip(a)->0, port, scope_id: 0 },
        ),
{
    let p = text::decimal(port as nat);
    text::lemma_decimal(port as nat);
    let s = a + seq![':'] + p;
    let n = a.len() as int;
    assert forall|j: int| 0 <= j < n implies s[j] != ':' by {
        lemma_ipv4_chars(a, j);
    }
    lemma_ipv4_ends_in_digits(a);
    text::lemma_find_is(s, ':', n);
    assert(s[0] == a[0]);
    lemma_ipv4_chars(a, 0);
    assert(s.take(n) =~= a);
    assert(s.skip(n + 1) =~= p);
}

/// An IPv6 address in brackets, a colon and a port are read as they are, with a
/// `%` and a zone behind the address or without.
pub proof fn ipv6_socket_addresses_are_read(a: Seq<char>, port: u16, zone: u32)
    requires
        ip(a) is Some,
        ip(a)->0 is V6,
    ensures
        socket_addr(seq!['['] + a + seq![']', ':'] + text::decimal(port as nat)) == Some(
            SocketAddr { ip: ip(a)->0, port, scope_id: 0 },
        ),
        socket_addr(
            seq!['['] + (a + seq!['%'] + text::decimal(zone as nat)) + seq![']', ':']
                + text::decimal(port as nat),
        ) == Some(SocketAddr { ip: ip(a)->0, port, scope_id: zone }),
{
    let p = text::decimal(port as nat);
    let b = a + seq!['%'] + text::decimal(zone as nat);
    let bits = ipv6(a)->0;
    text::lemma_decimal(port as nat);
    assert(ip(a)->0 == IpAddr::V6(bits as u128));
    assert forall|j: int| 0 <= j < a.len() implies a[j] != ']' && a[j] != '%' by {
        addresses_have_no_other_characters(a, j);
    }
    lemma_zone(a, zone);
    lemma_in_brackets(a, p, bits, 0, port as nat);
    lemma_in_brackets(b, p, bits, zone as nat, port as nat);
}

proof fn lemma_zone(a: Seq<char>, zone: u32)
    requires
        ipv6(a) is Some,
        forall|j: int| 0 <= j < a.len() ==> a[j] != ']' && a[j] != '%',
    ensures
        scoped_ipv6(a) == Some((ipv6(a)->0, 0nat)),
        ({
            let b = a + seq!['%'] + text::decimal(zone as nat);
            &&& scoped_ipv6(b) == Some((ipv6(a)->0, zone as nat))
            &&& forall|j: int| 0 <= j < b.len() ==> b[j] != ']'
        }),
{
    let z = text::decimal(zone as nat);
    let b = a + seq!['%'] + z;
    let n = a.len() as int;
    text::lemma_decimal(zone as nat);
    text::lemma_find_is(a, '%', n);
    text::lemma_find_is(b, '%', n);
    assert(b.take(n) =~= a);
    assert(b.skip(n + 1) =~= z);
    assert forall|j: int| 0 <= j < b.len() implies b[j] != ']' by {
        if j > n {
            assert(b[j] == z[j - n - 1]);
            assert(text::is_digit(z[j - n - 1]));
        }
    }
}

proof fn lemma_in_brackets(b: Seq<char>, p: Seq<char>, bits: nat, zone: nat, port: nat)
    requires
        forall|j: int| 0 <= j < b.len() ==> b[j] != ']',
        scoped_ipv6(b) == Some((bits, zone)),
        number(p, 65535) == Some(port),
    ensures
        socket_addr(seq!['['] + b + seq![']', ':'] + p) == Some(
            SocketAddr {
                ip: IpAddr::V6(bits as u128),
                port: port as u16,
                scope_id: zone as u32,
            },
        ),
{
    lemma_bracketed_addr(b, p);
}

proof fn lemma_bracketed_addr(b: Seq<char>, p: Seq<char>)
    requires
        forall|j: int| 0 <= j < b.len() ==> b[j] != ']',
    ensures
        ({
            let s = seq!['['] + b + seq![']', ':'] + p;
            let n = b.len() as int;
            &&& s[0] == '['
            &&& text::find(s, ']') == n + 1
            &&& n + 2 < s.len()
            &&& s[n + 2] == ':'
            &&& s.subrange(1, n + 1) == b
            &&& s.skip(n + 3) == p
        }),
{
    let s = seq!['['] + b + seq![']', ':'] + p;
    let n = b.len() as int;
    assert forall|j: int| 0 <= j < n + 1 implies s[j] != ']' by {
        if j > 0 {
            assert(s[j] == b[j - 1]);
        }
    }
    assert(s[n + 1] == ']');
    text::lemma_find_is(s, ']', n + 1);
    assert(s.subrange(1, n + 1) =~= b);
    assert(s.skip(n + 3) =~= p);
}

/// Brackets around a text are taken off, one pair of them, and nothing else is
/// changed.
pub proof fn one_pair_of_brackets_is_taken_off(s: Seq<char>)
    ensures
        unbracketed(seq!['['] + s + seq![']']) == s,
        s.len() > 0 && (s[0] != '[' || s.last() != ']') ==> unbracketed(s) == s,
{
    let b = seq!['['] + s + seq![']'];
    assert(b.subrange(1, b.len() - 1) =~= s);
}

/// The addresses of the host itself are those whose first byte is 127, and the
/// IPv6 address of seven zero groups and a one.
pub proof fn loopback_addresses(a: u8, b: u8, c: u8, d: u8, g: Seq<nat>)
    requires
        eight_groups(g),
    ensures
        IpAddr::V4(v4_bits(a as nat, b as nat, c as nat, d as nat) as u32).loopback() <==> a == 127,
        IpAddr::V6(v6_bits(g) as u128).loopback() <==> g == seq![
            0nat,
            0nat,
            0nat,
            0nat,
            0nat,
            0nat,
            0nat,
            1nat,
        ],
{
    an_ipv6_address_is_its_groups(g);
    if v6_bits(g) == 1 {
        assert(g =~= seq![0nat, 0nat, 0nat, 0nat, 0nat, 0nat, 0nat, 1nat]);
    }
}

/// The parts that an IPv6 address is written with: groups, and in the place of
/// the last two a dotted quad where it has one.
pub struct Parts {
    pub hex: Seq<Seq<char>>,
    pub quad: Option<Seq<char>>,
}

impl Parts {
    /// Whether these are parts that an address can have.
    pub open spec fn sound(self) -> bool {
        are_groups(self.hex) && (self.quad matches Some(q) ==> ipv4(q) is Some)
    }

    /// The number of groups that the parts stand for.
    pub open spec fn count(self) -> nat {
        self.hex.len() + if self.quad is Some {
            2nat
        } else {
            0
        }
    }

    /// The text of the parts, with colons between them.
    pub open spec fn text(self) -> Seq<char> {
        match self.quad {
            Some(q) => text::joined(self.hex.push(q), ':'),
            None => text::joined(self.hex, ':'),
        }
    }
}

proof fn lemma_parts(s: Seq<char>, quad: bool) -> (p: Parts)
    requires
        groups(s, quad) is Some,
    ensures
        p.sound(),
        p.quad is Some ==> quad,
        p.text() == s,
        p.count() == groups(s, quad)->0.len(),
    decreases s.len(),
{
    let none = Seq::<Seq<char>>::empty();
    text::lemma_find(s, ':');
    let i = text::find(s, ':');
    if s.len() == 0 {
        assert(text::joined(none, ':') =~= s);
        Parts { hex: none, quad: None }
    } else if i < s.len() {
        let g = s.take(i);
        let rest = s.skip(i + 1);
        hex_digits_count_by_their_place(g, '0');
        assert(is_group(g));
        assert(rest.len() > 0) by {
            if rest.len() == 0 {
                lemma_nothing_is_no_group(rest, quad);
            }
        }
        let p = lemma_parts(rest, quad);
        let hex = seq![g] + p.hex;
        assert forall|k: int| 0 <= k < hex.len() implies is_group(#[trigger] hex[k]) by {
            if k > 0 {
                assert(hex[k] == p.hex[k - 1]);
            }
        }
        assert(s =~= g + seq![':'] + rest);
        if let Some(q) = p.quad {
            assert(hex.push(q).drop_first() =~= p.hex.push(q));
            assert(hex.push(q)[0] == g);
        } else {
            assert(hex.drop_first() =~= p.hex);
            assert(p.hex.len() > 0) by {
                if p.hex.len() == 0 {
                    assert(text::joined(p.hex, ':') =~= seq![]);
                }
            }
        }
        Parts { hex, quad: p.quad }
    } else if group(s) is Some {
        hex_digits_count_by_their_place(s, '0');
        Parts { hex: seq![s], quad: None }
    } else {
        assert(none.push(s)[0] == s);
        Parts { hex: none, quad: Some(s) }
    }
}

proof fn lemma_nothing_is_no_group(s: Seq<char>, quad: bool)
    requires
        s.len() == 0,
    ensures
        some_groups(s, quad) is None,
{
    text::lemma_find(s, ':');
    if ipv4(s) is Some {
        lemma_ipv4_ends_in_digits(s);
    }
}

/// Nothing else is read as an IPv6 address: its text is eight groups with
/// colons between them, or a `::` with at most seven around it; a dotted quad
/// at the end counts as two.
pub proof fn only_groups_are_read(s: Seq<char>) -> (parts: (Parts, Parts))
    requires
        ipv6(s) is Some,
    ensures
        parts.0.sound() && parts.0.quad is None,
        parts.1.sound(),
        ({
            ||| parts.0.count() == 0 && parts.1.count() == 8 && s == parts.1.text()
            ||| parts.0.count() + parts.1.count() <= 7 && s == parts.0.text() + seq![':', ':']
                + parts.1.text()
        }),
{
    let gap = find_gap(s);
    lemma_gap_is_colons(s);
    lemma_second_colon(s);
    if 0 <= gap && gap + 2 <= s.len() {
        let head = lemma_parts(s.take(gap), false);
        let tail = lemma_parts(s.skip(gap + 2), true);
        assert(s =~= s.take(gap) + seq![':', ':'] + s.skip(gap + 2));
        (head, tail)
    } else {
        assert(s.len() > 0) by {
            if s.len() == 0 {
                lemma_nothing_is_no_group(s, true);
            }
        }
        let all = lemma_parts(s, true);
        (Parts { hex: Seq::empty(), quad: None }, all)
    }
}

/// A number is read exactly where it is digits, at least one, that stand for no
/// more than is allowed.
pub proof fn numbers_are_digits(s: Seq<char>, max: nat)
    ensures
        number(s, max) is Some <==> {
            &&& s.len() > 0
            &&& forall|i: int| 0 <= i < s.len() ==> '0' <= #[trigger] s[i] <= '9'
            &&& text::decimal_value(s) <= max
        },
        number(s, max) matches Some(n) ==> n == text::decimal_value(s),
{
    if text::all_digits(s) {
        assert forall|i: int| 0 <= i < s.len() implies '0' <= #[trigger] s[i] <= '9' by {
            assert(text::is_digit(s[i]));
        }
    }
    if forall|i: int| 0 <= i < s.len() ==> '0' <= #[trigger] s[i] <= '9' {
        assert(text::all_digits(s));
    }
}

/// Nothing else is read as a socket address: its text is a dotted quad, a colon
/// and a port, or an IPv6 address in brackets, with a `%` and a zone or
/// without, a colon and a port.
pub proof fn only_addresses_with_ports_are_read(s: Seq<char>) -> (parts: (
    Seq<char>,
    Option<Seq<char>>,
    Seq<char>,
))
    requires
        socket_addr(s) is Some,
    ensures
        ({
            let (a, zone, port) = parts;
            let r = socket_addr(s)->0;
            &&& number(port, 65535) == Some(r.port as nat)
            &&& r.ip is V4 ==> s == a + seq![':'] + port && ipv4(a) == Some(r.ip->V4_0 as nat)
                && r.scope_id == 0
            &&& r.ip is V6 ==> ipv6(a) is Some && r.ip == IpAddr::V6(ipv6(a)->0 as u128)
            &&& r.ip is V6 && zone is None ==> s == seq!['['] + a + seq![']', ':'] + port
                && r.scope_id == 0
            &&& r.ip is V6 && zone is Some ==> s == seq!['['] + (a + seq!['%'] + zone->0) + seq![
                ']',
                ':',
            ] + port && number(zone->0, 0xffff_ffff) == Some(r.scope_id as nat)
        }),
{
    if s.len() > 0 && s[0] == '[' {
        text::lemma_find(s, ']');
        let close = text::find(s, ']');
        let b = s.subrange(1, close);
        let port = s.skip(close + 2);
        assert(close > 0);
        assert(s =~= seq!['['] + b + seq![']', ':'] + port);
        text::lemma_find(b, '%');
        let i = text::find(b, '%');
        if i < b.len() {
            let a = b.take(i);
            let zone = b.skip(i + 1);
            assert(b =~= a + seq!['%'] + zone);
            (a, Some(zone), port)
        } else {
            (b, None, port)
        }
    } else {
        text::lemma_find(s, ':');
        let colon = text::find(s, ':');
        let a = s.take(colon);
        let port = s.skip(colon + 1);
        assert(s =~= a + seq![':'] + port);
        lemma_quad_fits(a);
        (a, None, port)
    }
}

proof fn lemma_quad_fits(a: Seq<char>)
    requires
        ipv4(a) is Some,
    ensures
        ipv4(a)->0 <= u32::MAX,
{
}

} // verus!

//! Lengths of time in whole seconds, and the text they are configured with.
use vstd::prelude::*;

use crate::text;

verus! {

/// A length of time in whole seconds.
#[derive(Clone, Copy, Debug, PartialEq, Eq, Structural)]
pub struct Duration {
    pub secs: u64,
}

impl Duration {
    /// The duration of `secs` seconds.
    pub fn from_secs(secs: u64) -> (r: Self)
        ensures
            r.secs == secs,
    {
        Duration { secs }
    }

    /// How many seconds it lasts.
    pub fn as_secs(&self) -> (r: u64)
        ensures
            r == self.secs,
    {
        self.secs
    }
}

/// What a duration text comes to.
pub enum DurationText {
    /// It stands for this many seconds.
    Seconds(nat),
    /// It is refused with this message.
    Refused(Seq<char>),
    /// Its components add up to more seconds than 64 bits hold.
    OutOfRange,
}

/// How many seconds a unit stands for.
pub open spec fn unit_secs(c: char) -> Option<nat> {
    if c == 'h' {
        Some(3600)
    } else if c == 'm' {
        Some(60)
    } else if c == 's' {
        Some(1)
    } else {
        None
    }
}

/// The message for text that holds no number where one is due.
pub open spec fn invalid_duration(text: Seq<char>) -> Seq<char> {
    "invalid duration: "@ + text
}

/// The message for a number with nothing after it.
pub open spec fn trailing_number(text: Seq<char>) -> Seq<char> {
    "trailing number without unit in duration: "@ + text
}

/// The message for a unit that is none of `h`, `m` and `s`.
pub open spec fn invalid_unit(unit: char, text: Seq<char>) -> Seq<char> {
    "invalid duration unit '"@ + seq![unit] + "' in: "@ + text
}

/// What the components `rest`, the end of `text`, come to after components of
/// `total` seconds; `first` says that there were none. A component is a row
/// of digits and a unit.
pub open spec fn components(
    text: Seq<char>,
    rest: Seq<char>,
    total: nat,
    first: bool,
) -> DurationText
    decreases rest.len(),
{
    let end = text::digits_end(rest);
    if end < 0 || end >= rest.len() {
        if rest.len() == 0 {
            DurationText::Seconds(total)
        } else if first {
            DurationText::Refused(invalid_duration(text))
        } else {
            DurationText::Refused(trailing_number(text))
        }
    } else {
        let n = text::decimal_value(rest.take(end));
        if end == 0 || n > u64::MAX {
            DurationText::Refused(invalid_duration(text))
        } else {
            match unit_secs(rest[end]) {
                None => DurationText::Refused(invalid_unit(rest[end], text)),
                Some(unit) => if n * unit > u64::MAX || total + n * unit > u64::MAX {
                    DurationText::OutOfRange
                } else {
                    components(text, rest.skip(end + 1), total + n * unit, false)
                },
            }
        }
    }
}

/// What a duration text comes to: a plain number counts seconds, anything
/// else is read as components such as `1h30m`.
pub open spec fn duration_text(s: Seq<char>) -> DurationText {
    match text::unsigned_value(s) {
        Some(n) if n <= u64::MAX => DurationText::Seconds(n),
        _ => components(s, s, 0, true),
    }
}

/// What one step of reading components finds.
enum Reading {
    Seconds(u64),
    Refused(String),
    OutOfRange,
}

spec fn reading(r: Reading) -> DurationText {
    match r {
        Reading::Seconds(n) => DurationText::Seconds(n as nat),
        Reading::Refused(e) => DurationText::Refused(e@),
        Reading::OutOfRange => DurationText::OutOfRange,
    }
}

fn read_duration(s: &str) -> (r: Reading)
    ensures
        reading(r) == duration_text(s@),
{
    let chars = text::chars_of(s);
    if let Some(n) = text::read_unsigned(chars.as_slice(), u64::MAX) {
        return Reading::Seconds(n);
    }
    let mut total: u64 = 0;
    let mut at: usize = 0;
    assert(chars@.skip(0) =~= chars@);
    while at < chars.len()
        invariant
            chars@ == s@,
            at <= chars@.len(),
            duration_text(s@) == components(s@, chars@.skip(at as int), total as nat, at == 0),
        decreases chars@.len() - at,
    {
        let end = text::skip_digits(chars.as_slice(), at);
        let ghost rest = chars@.skip(at as int);
        if end == chars.len() {
            return if at == 0 {
                Reading::Refused(text::join("invalid duration: ", s))
            } else {
                Reading::Refused(text::join("trailing number without unit in duration: ", s))
            };
        }
        proof {
            assert(rest.take(end - at) =~= chars@.subrange(at as int, end as int));
            assert(rest[end - at] == chars@[end as int]);
            assert(rest.skip(end - at + 1) =~= chars@.skip(end + 1));
        }
        if end == at {
            return Reading::Refused(text::join("invalid duration: ", s));
        }
        let n: u64 = match text::read_digits(chars.as_slice(), at, end, u64::MAX) {
            Some(n) => n,
            None => return Reading::Refused(text::join("invalid duration: ", s)),
        };
        let c = chars[end];
        let unit: u64 = if c == 'h' {
            3600
        } else if c == 'm' {
            60
        } else if c == 's' {
            1
        } else {
            let mut msg = String::new();
            msg.append("invalid duration unit '");
            msg.push(c);
            msg.append("' in: ");
            msg.append(s);
            assert(msg@ =~= invalid_unit(c, s@));
            return Reading::Refused(msg);
        };
        assert(n as nat * unit as nat == n * unit);
        let sum: u128 = (total as u128) + (n as u128) * (unit as u128);
        if sum > u64::MAX as u128 {
            return Reading::OutOfRange;
        }
        total = sum as u64;
        at = end + 1;
    }
    Reading::Seconds(total)
}

/// Whether the components of `s` add up to a number of seconds that 64 bits
/// hold (as far as they are read: up to the first one that is refused).
pub fn duration_in_range(s: &str) -> (r: bool)
    ensures
        r == !(duration_text(s@) is OutOfRange),
{
    match read_duration(s) {
        Reading::OutOfRange => false,
        _ => true,
    }
}

/// Parse a duration string that accepts either plain seconds ("300") or
/// Go-style duration components ("5m", "1h30m", "2h30m15s").
pub fn parse_duration_string(s: &str) -> (r: Result<Duration, String>)
    requires
        !(duration_text(s@) is OutOfRange),
    ensures
        match r {
            Ok(d) => duration_text(s@) == DurationText::Seconds(d.secs as nat),
            Err(e) => duration_text(s@) == DurationText::Refused(e@),
        },
{
    match read_duration(s) {
        Reading::Seconds(n) => Ok(Duration::from_secs(n)),
        Reading::Refused(e) => Err(e),
        Reading::OutOfRange => vstd::pervasive::unreached(),
    }
}

// ---------------------------------------------------------------------------
// Laws
// ---------------------------------------------------------------------------

/// A plain number counts seconds.
pub proof fn plain_number_counts_seconds(n: u64)
    ensures
        duration_text(text::decimal(n as nat)) == DurationText::Seconds(n as nat),
{
    text::lemma_decimal(n as nat);
    assert(text::is_digit(text::decimal(n as nat)[0]));
}

/// A number and a unit at the front of components add their product.
pub proof fn component_adds(
    text: Seq<char>,
    n: u64,
    unit: char,
    rest: Seq<char>,
    total: nat,
    first: bool,
)
    requires
        unit_secs(unit) is Some,
        total + n * unit_secs(unit)->0 <= u64::MAX,
    ensures
        components(text, text::decimal(n as nat).push(unit) + rest, total, first) == components(
            text,
            rest,
            total + n as nat * unit_secs(unit)->0,
            false,
        ),
{
    let digits = text::decimal(n as nat);
    let all = digits.push(unit) + rest;
    let end = digits.len() as int;
    text::lemma_decimal(n as nat);
    assert forall|i: int| 0 <= i < end implies text::is_digit(#[trigger] all[i]) by {
        assert(all[i] == digits[i]);
    }
    assert(all[end] == unit);
    text::lemma_digits_end_is(all, end);
    assert(all.take(end) =~= digits);
    assert(all.skip(end + 1) =~= rest);
}

/// Hours, minutes and seconds add up.
pub proof fn hours_minutes_seconds_add_up(h: u64, m: u64, s: u64)
    requires
        h * 3600 + m * 60 + s <= u64::MAX,
    ensures
        duration_text(
            text::decimal(h as nat).push('h') + (text::decimal(m as nat).push('m') + text::decimal(s as nat).push('s')),
        ) == DurationText::Seconds((h * 3600 + m * 60 + s) as nat),
{
    let last = text::decimal(s as nat).push('s');
    let tail = text::decimal(m as nat).push('m') + last;
    let text = text::decimal(h as nat).push('h') + tail;
    text::lemma_decimal(h as nat);
    let k = text::decimal(h as nat).len() as int;
    assert(text[k] == 'h');
    assert(text[0] == text::decimal(h as nat)[0]);
    assert(text::is_digit(text[0]));
    assert(!text::all_digits(text));
    assert(text::unsigned_value(text) is None);
    assert(unit_secs('h') == Some(3600nat) && unit_secs('m') == Some(60nat) && unit_secs('s') == Some(
        1nat,
    ));
    lemma_product(h as nat, 'h');
    lemma_product(m as nat, 'm');
    lemma_product(s as nat, 's');
    component_adds(text, h, 'h', tail, 0, true);
    component_adds(text, m, 'm', last, (h * 3600) as nat, false);
    assert(last =~= last + Seq::<char>::empty());
    component_adds(text, s, 's', Seq::empty(), (h * 3600 + m * 60) as nat, false);
}

/// Text that ends in a digit stands for no time unless it is a plain number.
pub proof fn trailing_number_is_refused(s: Seq<char>)
    requires
        s.len() > 0,
        text::is_digit(s.last()),
        text::unsigned_value(s) is None,
    ensures
        !(duration_text(s) is Seconds),
{
    lemma_trailing(s, s, 0, true);
}

proof fn lemma_trailing(text: Seq<char>, rest: Seq<char>, total: nat, first: bool)
    requires
        rest.len() > 0,
        text::is_digit(rest.last()),
    ensures
        !(components(text, rest, total, first) is Seconds),
    decreases rest.len(),
{
    text::lemma_digits_end(rest);
    let end = text::digits_end(rest);
    if end < rest.len() {
        let n = text::decimal_value(rest.take(end));
        if let Some(unit) = unit_secs(rest[end]) {
            assert(end < rest.len() - 1);
            let next = rest.skip(end + 1);
            assert(next.last() == rest.last());
            lemma_trailing(text, next, total + n * unit, false);
        }
    }
}

/// A component of a duration: its digits and its unit.
pub struct Component {
    pub digits: Seq<char>,
    pub unit: char,
}

/// The text of a row of components.
pub open spec fn written(cs: Seq<Component>) -> Seq<char>
    decreases cs.len(),
{
    if cs.len() == 0 {
        seq![]
    } else {
        cs[0].digits + seq![cs[0].unit] + written(cs.drop_first())
    }
}

/// How many seconds a row of components lasts: an hour has 3600, a minute 60.
pub open spec fn worth(cs: Seq<Component>) -> nat
    decreases cs.len(),
{
    if cs.len() == 0 {
        0
    } else {
        let n = text::decimal_value(cs[0].digits);
        let first = if cs[0].unit == 'h' {
            n * 3600
        } else if cs[0].unit == 'm' {
            n * 60
        } else {
            n
        };
        first + worth(cs.drop_first())
    }
}

/// Whether a component is digits, whose number 64 bits hold, and a unit.
pub open spec fn is_component(c: Component) -> bool {
    &&& c.digits.len() > 0
    &&& text::all_digits(c.digits)
    &&& text::decimal_value(c.digits) <= 0xffff_ffff_ffff_ffff
    &&& c.unit == 'h' || c.unit == 'm' || c.unit == 's'
}

/// Whether each of a row is a component.
pub open spec fn are_components(cs: Seq<Component>) -> bool {
    forall|i: int| 0 <= i < cs.len() ==> is_component(#[trigger] cs[i])
}

proof fn lemma_product(n: nat, unit: char)
    requires
        unit == 'h' || unit == 'm' || unit == 's',
    ensures
        n * unit_secs(unit)->0 == if unit == 'h' {
            n * 3600
        } else if unit == 'm' {
            n * 60
        } else {
            n
        },
{
    let secs = unit_secs(unit)->0;
    assert(secs == 3600 ==> n * secs == n * 3600) by (nonlinear_arith);
    assert(secs == 60 ==> n * secs == n * 60) by (nonlinear_arith);
    assert(secs == 1 ==> n * secs == n) by (nonlinear_arith);
}

proof fn lemma_components(
    text: Seq<char>,
    cs: Seq<Component>,
    tail: Seq<char>,
    total: nat,
    first: bool,
)
    requires
        are_components(cs),
        total <= u64::MAX,
    ensures
        components(text, written(cs) + tail, total, first) == if total + worth(cs) <= u64::MAX {
            components(text, tail, total + worth(cs), first && cs.len() == 0)
        } else {
            DurationText::OutOfRange
        },
    decreases cs.len(),
{
    if cs.len() == 0 {
        assert(written(cs) + tail =~= tail);
    } else {
        let c = cs[0];
        let rest = cs.drop_first();
        assert(is_component(cs[0]));
        assert forall|i: int| 0 <= i < rest.len() implies is_component(#[trigger] rest[i]) by {
            assert(rest[i] == cs[i + 1]);
        }
        let all = written(cs) + tail;
        let end = c.digits.len() as int;
        assert forall|i: int| 0 <= i < end implies text::is_digit(#[trigger] all[i]) by {
            assert(all[i] == c.digits[i]);
        }
        assert(all[end] == c.unit);
        text::lemma_digits_end_is(all, end);
        assert(all.take(end) =~= c.digits);
        assert(all.skip(end + 1) =~= written(rest) + tail);
        let n = text::decimal_value(c.digits);
        let unit = unit_secs(c.unit)->0;
        lemma_product(n, c.unit);
        if total + n * unit <= u64::MAX {
            lemma_components(text, rest, tail, total + n * unit, false);
        }
    }
}

proof fn lemma_not_plain(s: Seq<char>, i: int)
    requires
        0 <= i < s.len(),
        !text::is_digit(s[i]),
        i > 0 || s[i] != '+',
    ensures
        text::unsigned_value(s) is None,
{
    if s[0] == '+' {
        assert(s.skip(1)[i - 1] == s[i]);
    }
}

/// Any row of components lasts as long as all of them together, in hours of
/// 3600 seconds, minutes of 60, and seconds; a sum that 64 bits do not hold is
/// out of range.
pub proof fn components_add_up(cs: Seq<Component>)
    requires
        cs.len() > 0,
        are_components(cs),
    ensures
        duration_text(written(cs)) == if worth(cs) <= 0xffff_ffff_ffff_ffff {
            DurationText::Seconds(worth(cs))
        } else {
            DurationText::OutOfRange
        },
{
    let s = written(cs);
    let none = Seq::<char>::empty();
    lemma_components(s, cs, none, 0, true);
    assert(s + none =~= s);
    assert(is_component(cs[0]));
    let k = cs[0].digits.len() as int;
    assert(s[k] == cs[0].unit);
    lemma_not_plain(s, k);
}

/// Behind any row of components, a number without a unit, a unit that is none
/// of `h`, `m` and `s`, and a character that is no digit where a number is due
/// are refused, each with its own message about the whole text.
#[verifier::rlimit(40)]
pub proof fn everything_else_is_refused(
    cs: Seq<Component>,
    digits: Seq<char>,
    c: char,
    rest: Seq<char>,
)
    requires
        are_components(cs),
        worth(cs) <= 0xffff_ffff_ffff_ffff,
        digits.len() > 0,
        text::all_digits(digits),
        !('0' <= c <= '9'),
    ensures
        cs.len() > 0 ==> {
            let s = written(cs) + digits;
            duration_text(s) == DurationText::Refused(
                "trailing number without unit in duration: "@ + s,
            )
        },
        cs.len() == 0 && text::decimal_value(digits) > 0xffff_ffff_ffff_ffff ==> duration_text(
            digits,
        ) == DurationText::Refused("invalid duration: "@ + digits),
        c != 'h' && c != 'm' && c != 's' && text::decimal_value(digits) <= 0xffff_ffff_ffff_ffff
            ==> {
            let s = written(cs) + (digits + seq![c] + rest);
            duration_text(s) == DurationText::Refused(
                "invalid duration unit '"@ + seq![c] + "' in: "@ + s,
            )
        },
        text::decimal_value(digits) > 0xffff_ffff_ffff_ffff ==> {
            let s = written(cs) + (digits + seq![c] + rest);
            duration_text(s) == DurationText::Refused("invalid duration: "@ + s)
        },
        cs.len() > 0 || c != '+' ==> {
            let s = written(cs) + (seq![c] + rest);
            duration_text(s) == DurationText::Refused("invalid duration: "@ + s)
        },
{
    let n = written(cs).len() as int;
    let d = digits.len() as int;
    if cs.len() > 0 {
        assert(is_component(cs[0]));
        let k = cs[0].digits.len() as int;
        assert(written(cs)[k] == cs[0].unit);
        assert(written(cs).len() > k);
        let s = written(cs) + digits;
        lemma_not_plain(s, k);
        lemma_components(s, cs, digits, 0, true);
        text::lemma_digits_end_is(digits, d);
    } else {
        assert(written(cs) =~= Seq::<char>::empty());
        text::lemma_digits_end_is(digits, d);
        assert(text::is_digit(digits[0]));
    }
    let tail = digits + seq![c] + rest;
    let s = written(cs) + tail;
    assert(s[n + d] == c);
    lemma_not_plain(s, n + d);
    lemma_components(s, cs, tail, 0, true);
    assert forall|i: int| 0 <= i < d implies text::is_digit(#[trigger] tail[i]) by {
        assert(tail[i] == digits[i]);
    }
    assert(tail[d] == c);
    text::lemma_digits_end_is(tail, d);
    assert(tail.take(d) =~= digits);
    if cs.len() > 0 || c != '+' {
        let short = seq![c] + rest;
        let t = written(cs) + short;
        assert(t[n] == c);
        lemma_not_plain(t, n);
        lemma_components(t, cs, short, 0, true);
        text::lemma_digits_end_is(short, 0);
    }
}

/// Nothing else stands for a time: a text that does is a plain number, or a
/// row of components that last as long.
pub proof fn only_numbers_and_components_are_read(s: Seq<char>) -> (cs: Seq<Component>)
    requires
        duration_text(s) is Seconds,
        text::unsigned_value(s) is None || text::unsigned_value(s)->0 > 0xffff_ffff_ffff_ffff,
    ensures
        are_components(cs),
        written(cs) == s,
        worth(cs) == duration_text(s)->Seconds_0,
{
    lemma_read_components(s, s, 0, true)
}

proof fn lemma_read_components(text: Seq<char>, rest: Seq<char>, total: nat, first: bool) -> (cs:
    Seq<Component>)
    requires
        components(text, rest, total, first) is Seconds,
    ensures
        are_components(cs),
        written(cs) == rest,
        total + worth(cs) == components(text, rest, total, first)->Seconds_0,
    decreases rest.len(),
{
    text::lemma_digits_end(rest);
    if rest.len() == 0 {
        let cs = Seq::<Component>::empty();
        assert(written(cs) =~= rest);
        cs
    } else {
        let end = text::digits_end(rest);
        let digits = rest.take(end);
        let n = text::decimal_value(digits);
        let unit = unit_secs(rest[end])->0;
        let more = lemma_read_components(text, rest.skip(end + 1), total + n * unit, false);
        let c = Component { digits, unit: rest[end] };
        let cs = seq![c] + more;
        assert(cs.drop_first() =~= more);
        assert(is_component(c));
        assert forall|i: int| 0 <= i < cs.len() implies is_component(#[trigger] cs[i]) by {
            if i > 0 {
                assert(cs[i] == more[i - 1]);
            }
        }
        assert(rest =~= digits + seq![rest[end]] + rest.skip(end + 1));
        lemma_product(n, c.unit);
        cs
    }
}

} // verus!

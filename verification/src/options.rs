//! The options that a peer or listener URL carries in its query.
use vstd::prelude::*;
use vstd::slice::slice_to_vec;
use vstd::utf8::*;

use crate::duration;
use crate::duration::Duration;
use crate::ip;
use crate::link_url::LinkUrl;
use crate::link_url;
use crate::text;

verus! {

/// The longest wait between two attempts to reach a peer, unless its URL says
/// otherwise.
pub const DEFAULT_BACKOFF_LIMIT: u64 = 4096;

/// The least number of seconds that a URL may ask to be the longest wait.
pub const MINIMUM_BACKOFF_LIMIT: u64 = 5;

/// Type of link connection.
#[derive(Clone, Copy, Debug, PartialEq, Eq, Structural)]
pub enum LinkType {
    Persistent,
    Ephemeral,
    Incoming,
}

/// Options parsed from a peer URI.
#[derive(Debug)]
pub struct LinkOptions {
    /// The keys that the peer may have; any key where there is none.
    pub pinned_keys: Vec<[u8; 32]>,
    /// The least priority of the link.
    pub priority: u8,
    /// The password that both sides must know.
    pub password: Vec<u8>,
    /// The longest wait between two attempts to reach the peer.
    pub max_backoff: Duration,
    /// The server name that a TLS handshake asks for.
    pub tls_sni: Option<String>,
}

/// What link options say.
#[verifier::ext_equal]
pub struct OptionsView {
    pub pinned_keys: Seq<Seq<u8>>,
    pub priority: u8,
    pub password: Seq<u8>,
    pub max_backoff: nat,
    pub tls_sni: Option<Seq<char>>,
}

/// The bytes of a row of keys.
pub open spec fn key_bytes(keys: Seq<[u8; 32]>) -> Seq<Seq<u8>> {
    Seq::new(keys.len(), |i: int| keys[i]@)
}

impl View for LinkOptions {
    type V = OptionsView;

    open spec fn view(&self) -> OptionsView {
        OptionsView {
            pinned_keys: key_bytes(self.pinned_keys@),
            priority: self.priority,
            password: self.password@,
            max_backoff: self.max_backoff.secs as nat,
            tls_sni: text::option_text(self.tls_sni),
        }
    }
}

/// The options of a URL that gives none.
pub open spec fn default_options() -> OptionsView {
    OptionsView {
        pinned_keys: seq![],
        priority: 0,
        password: seq![],
        max_backoff: DEFAULT_BACKOFF_LIMIT as nat,
        tls_sni: None,
    }
}

impl Clone for LinkOptions {
    fn clone(&self) -> (r: Self)
        ensures
            r@ == self@,
    {
        let mut keys: Vec<[u8; 32]> = Vec::new();
        let mut i: usize = 0;
        while i < self.pinned_keys.len()
            invariant
                i <= self.pinned_keys@.len(),
                keys@ == self.pinned_keys@.take(i as int),
            decreases self.pinned_keys@.len() - i,
        {
            keys.push(self.pinned_keys[i]);
            i = i + 1;
        }
        assert(keys@ =~= self.pinned_keys@);
        LinkOptions {
            pinned_keys: keys,
            priority: self.priority,
            password: slice_to_vec(self.password.as_slice()),
            max_backoff: self.max_backoff,
            tls_sni: self.tls_sni.clone(),
        }
    }
}

impl Default for LinkOptions {
    fn default() -> (r: Self)
        ensures
            r@ == default_options(),
    {
        let r = LinkOptions {
            pinned_keys: Vec::new(),
            priority: 0,
            password: Vec::new(),
            max_backoff: Duration::from_secs(DEFAULT_BACKOFF_LIMIT),
            tls_sni: None,
        };
        assert(r@ =~= default_options());
        r
    }
}

// ---------------------------------------------------------------------------
// Values
// ---------------------------------------------------------------------------

/// Whether `b` is a hexadecimal digit.
pub open spec fn is_hex(b: u8) -> bool {
    ip::hex_value(b as char) is Some
}

/// The bytes that hexadecimal digits spell, two digits to a byte.
pub open spec fn hex_bytes(s: Seq<u8>) -> Option<Seq<u8>> {
    if s.len() % 2 == 0 && (forall|i: int| 0 <= i < s.len() ==> is_hex(#[trigger] s[i])) {
        Some(
            Seq::new(
                s.len() / 2,
                |i: int|
                    (ip::hex_value(s[2 * i] as char)->0 * 16 + ip::hex_value(
                        s[2 * i + 1] as char,
                    )->0) as u8,
            ),
        )
    } else {
        None
    }
}

/// The text of the error that `hex::decode` gives for a text.
pub uninterp spec fn hex_error(s: Seq<char>) -> Seq<char>;

/// Calls `hex::decode`: it reads the bytes of the text as hexadecimal digits of
/// either case, two to a byte, and fails where one is none or their number is
/// odd. The text of an error depends on the text alone.
#[verifier::external_body]
fn hex_decode(s: &str) -> (r: Result<Vec<u8>, String>)
    ensures
        match r {
            Ok(v) => hex_bytes(encode_utf8(s@)) == Some(v@),
            Err(e) => hex_bytes(encode_utf8(s@)) is None && e@ == hex_error(s@),
        },
        r matches Err(e) ==> (encode_utf8(s@).len() % 2 != 0 ==> e@ == "Odd number of digits"@),
{
    hex::decode(s).map_err(|e| e.to_string())
}

/// The text of the error that `str::parse::<u8>` gives for a text.
pub uninterp spec fn u8_error(s: Seq<char>) -> Seq<char>;

/// Calls `str::parse::<u8>`: it reads an optional `+` and decimal digits that
/// stand for at most 255, and fails on anything else. The text of an error
/// depends on the text alone.
#[verifier::external_body]
fn parse_u8(s: &str) -> (r: Result<u8, String>)
    ensures
        match r {
            Ok(n) => text::unsigned_value(s@) == Some(n as nat),
            Err(e) => (text::unsigned_value(s@) matches Some(n) ==> n > 255) && e@ == u8_error(s@),
        },
{
    s.parse::<u8>().map_err(|e| e.to_string())
}

// ---------------------------------------------------------------------------
// Options
// ---------------------------------------------------------------------------

/// What query parameters come to.
pub enum OptionText {
    /// These options.
    Options(OptionsView),
    /// They are refused with this message.
    Refused(Seq<char>),
    /// A `maxbackoff` adds up to more seconds than 64 bits hold.
    OutOfRange,
}

/// What a `key` parameter does.
pub open spec fn key_option(o: OptionsView, value: Seq<char>) -> OptionText {
    match hex_bytes(encode_utf8(value)) {
        None => OptionText::Refused("invalid key hex: "@ + hex_error(value)),
        Some(key) => if key.len() != 32 {
            OptionText::Refused("pinned key must be 32 bytes"@)
        } else {
            OptionText::Options(OptionsView { pinned_keys: o.pinned_keys.push(key), ..o })
        },
    }
}

/// What a `priority` parameter does.
pub open spec fn priority_option(o: OptionsView, value: Seq<char>) -> OptionText {
    match text::unsigned_value(value) {
        Some(n) if n <= 255 => OptionText::Options(OptionsView { priority: n as u8, ..o }),
        _ => OptionText::Refused("invalid priority: "@ + u8_error(value)),
    }
}

/// What a `password` parameter does.
pub open spec fn password_option(o: OptionsView, value: Seq<char>) -> OptionText {
    if encode_utf8(value).len() > 64 {
        OptionText::Refused("password too long (max 64 chars)"@)
    } else {
        OptionText::Options(OptionsView { password: encode_utf8(value), ..o })
    }
}

/// What a `maxbackoff` parameter does.
pub open spec fn maxbackoff_option(o: OptionsView, value: Seq<char>) -> OptionText {
    match duration::duration_text(value) {
        duration::DurationText::Seconds(n) => if n < MINIMUM_BACKOFF_LIMIT {
            OptionText::Refused("maxbackoff must be at least 5 seconds"@)
        } else {
            OptionText::Options(OptionsView { max_backoff: n, ..o })
        },
        duration::DurationText::Refused(e) => OptionText::Refused("invalid maxbackoff: "@ + e),
        duration::DurationText::OutOfRange => OptionText::OutOfRange,
    }
}

/// Whether a text is an IP address, in brackets or not, and no host name.
pub open spec fn is_address(s: Seq<char>) -> bool {
    ip::ip(ip::unbracketed(s)) is Some
}

/// What an `sni` parameter does: a server name is never empty and never an IP
/// address.
pub open spec fn sni_option(o: OptionsView, value: Seq<char>) -> OptionText {
    if value.len() > 0 && !is_address(value) {
        OptionText::Options(OptionsView { tls_sni: Some(value), ..o })
    } else {
        OptionText::Options(o)
    }
}

/// What one query parameter does to the options before it; one with another
/// name does nothing.
pub open spec fn one_option(o: OptionsView, name: Seq<char>, value: Seq<char>) -> OptionText {
    if name == "key"@ {
        key_option(o, value)
    } else if name == "priority"@ {
        priority_option(o, value)
    } else if name == "password"@ {
        password_option(o, value)
    } else if name == "maxbackoff"@ {
        maxbackoff_option(o, value)
    } else if name == "sni"@ {
        sni_option(o, value)
    } else {
        OptionText::Options(o)
    }
}

/// What query parameters do to the options before them, one after the other
/// up to the first that is refused.
pub open spec fn all_options(o: OptionsView, pairs: Seq<(Seq<char>, Seq<char>)>) -> OptionText
    decreases pairs.len(),
{
    if pairs.len() == 0 {
        OptionText::Options(o)
    } else {
        match one_option(o, pairs[0].0, pairs[0].1) {
            OptionText::Options(next) => all_options(next, pairs.drop_first()),
            stop => stop,
        }
    }
}

/// Without a server name of its own, a link asks for its host, unless that is
/// an IP address (an IPv6 one stands in brackets).
pub open spec fn with_host_sni(o: OptionsView, host: Option<Seq<char>>) -> OptionsView {
    match (o.tls_sni, host) {
        (None, Some(h)) if !is_address(h) => OptionsView { tls_sni: Some(h), ..o },
        _ => o,
    }
}

/// The options of a URL.
pub open spec fn link_options(url: link_url::UrlParts) -> OptionText {
    match all_options(default_options(), url.pairs) {
        OptionText::Options(o) => OptionText::Options(with_host_sni(o, url.host)),
        stop => stop,
    }
}

enum Reading {
    Options(LinkOptions),
    Refused(String),
    OutOfRange,
}

spec fn reading(r: Reading) -> OptionText {
    match r {
        Reading::Options(o) => OptionText::Options(o@),
        Reading::Refused(e) => OptionText::Refused(e@),
        Reading::OutOfRange => OptionText::OutOfRange,
    }
}

fn to_key(bytes: &Vec<u8>) -> (r: [u8; 32])
    requires
        bytes@.len() == 32,
    ensures
        r@ == bytes@,
{
    let mut key = [0u8;32];
    let mut i: usize = 0;
    while i < 32
        invariant
            bytes@.len() == 32,
            i <= 32,
            forall|j: int| 0 <= j < i ==> key@[j] == bytes@[j],
        decreases 32 - i,
    {
        key[i] = bytes[i];
        i = i + 1;
    }
    assert(key@ =~= bytes@);
    key
}

fn reads_as_address(s: &str) -> (r: bool)
    ensures
        r == is_address(s@),
{
    ip::parse_ip(ip::strip_brackets(s).as_str()).is_some()
}

fn read_option(options: LinkOptions, name: &str, value: &str) -> (r: Reading)
    ensures
        reading(r) == one_option(options@, name@, value@),
{
    let mut o = options;
    if text::same_text(name, "key") {
        let bytes = match hex_decode(value) {
            Ok(bytes) => bytes,
            Err(e) => return Reading::Refused(text::join("invalid key hex: ", e.as_str())),
        };
        if bytes.len() != 32 {
            return Reading::Refused("pinned key must be 32 bytes".to_owned());
        }
        let key = to_key(&bytes);
        o.pinned_keys.push(key);
        assert(key_bytes(o.pinned_keys@) =~= options@.pinned_keys.push(key@));
    } else if text::same_text(name, "priority") {
        match parse_u8(value) {
            Ok(n) => {
                o.priority = n;
            },
            Err(e) => return Reading::Refused(text::join("invalid priority: ", e.as_str())),
        }
    } else if text::same_text(name, "password") {
        let bytes = value.as_bytes();
        if bytes.len() > 64 {
            return Reading::Refused("password too long (max 64 chars)".to_owned());
        }
        o.password = slice_to_vec(bytes);
    } else if text::same_text(name, "maxbackoff") {
        if !duration::duration_in_range(value) {
            return Reading::OutOfRange;
        }
        match duration::parse_duration_string(value) {
            Ok(d) => {
                if d.secs < MINIMUM_BACKOFF_LIMIT {
                    return Reading::Refused("maxbackoff must be at least 5 seconds".to_owned());
                }
                o.max_backoff = d;
            },
            Err(e) => return Reading::Refused(text::join("invalid maxbackoff: ", e.as_str())),
        }
    } else if text::same_text(name, "sni") {
        if !value.is_empty() && !reads_as_address(value) {
            o.tls_sni = Some(value.to_owned());
        }
    }
    Reading::Options(o)
}

fn read_options(url: &LinkUrl) -> (r: Reading)
    ensures
        reading(r) == link_options(url@),
{
    let mut o: LinkOptions = Default::default();
    let mut i: usize = 0;
    let ghost pairs = url@.pairs;
    assert(pairs.skip(0) =~= pairs);
    while i < url.pairs.len()
        invariant
            pairs == url@.pairs,
            i <= url.pairs@.len(),
            all_options(default_options(), pairs) == all_options(o@, pairs.skip(i as int)),
        decreases url.pairs@.len() - i,
    {
        proof {
            assert(pairs.skip(i as int)[0] == pairs[i as int]);
            assert(pairs.skip(i as int).drop_first() =~= pairs.skip(i + 1));
        }
        match read_option(o, url.pairs[i].0.as_str(), url.pairs[i].1.as_str()) {
            Reading::Options(next) => {
                o = next;
            },
            stop => return stop,
        }
        i = i + 1;
    }
    if o.tls_sni.is_none() {
        if let Some(host) = &url.host {
            if !reads_as_address(host.as_str()) {
                o.tls_sni = Some(host.clone());
            }
        }
    }
    Reading::Options(o)
}

/// Whether every `maxbackoff` that is read adds up to a number of seconds
/// that 64 bits hold.
pub fn options_in_range(url: &LinkUrl) -> (r: bool)
    ensures
        r == !(link_options(url@) is OutOfRange),
{
    match read_options(url) {
        Reading::OutOfRange => false,
        _ => true,
    }
}

/// Parse link options from a URL's query parameters.
pub fn parse_link_options(url: &LinkUrl) -> (r: Result<LinkOptions, String>)
    requires
        !(link_options(url@) is OutOfRange),
    ensures
        match r {
            Ok(o) => link_options(url@) == OptionText::Options(o@) && sound_options(o@),
            Err(e) => link_options(url@) == OptionText::Refused(e@),
        },
{
    proof {
        parsed_options_are_sound(url@);
    }
    match read_options(url) {
        Reading::Options(o) => Ok(o),
        Reading::Refused(e) => Err(e),
        Reading::OutOfRange => vstd::pervasive::unreached(),
    }
}

// ---------------------------------------------------------------------------
// Laws
// ---------------------------------------------------------------------------

/// What holds of all options that a URL can give: a pinned key has 32 bytes, a
/// password at most 64, the longest wait is not below the least one, and the
/// server name is no IP address, in brackets or not.
pub open spec fn sound_options(o: OptionsView) -> bool {
    &&& forall|i: int| 0 <= i < o.pinned_keys.len() ==> (#[trigger] o.pinned_keys[i]).len() == 32
    &&& o.password.len() <= 64
    &&& MINIMUM_BACKOFF_LIMIT <= o.max_backoff <= u64::MAX
    &&& o.tls_sni matches Some(name) ==> !is_address(name)
}

/// The options that a URL gives are sound.
pub proof fn parsed_options_are_sound(url: link_url::UrlParts)
    ensures
        link_options(url) matches OptionText::Options(o) ==> sound_options(o),
{
    lemma_sound(default_options(), url.pairs);
}

proof fn lemma_duration_bound(text: Seq<char>, rest: Seq<char>, total: nat, first: bool)
    requires
        total <= u64::MAX,
    ensures
        duration::components(text, rest, total, first) matches duration::DurationText::Seconds(n)
            ==> n <= u64::MAX,
    decreases rest.len(),
{
    let end = text::digits_end(rest);
    if 0 <= end < rest.len() {
        let n = text::decimal_value(rest.take(end));
        if let Some(unit) = duration::unit_secs(rest[end]) {
            if total + n * unit <= u64::MAX {
                lemma_duration_bound(text, rest.skip(end + 1), total + n * unit, false);
            }
        }
    }
}

proof fn lemma_sound(o: OptionsView, pairs: Seq<(Seq<char>, Seq<char>)>)
    requires
        sound_options(o),
    ensures
        all_options(o, pairs) matches OptionText::Options(end) ==> sound_options(end),
    decreases pairs.len(),
{
    if pairs.len() > 0 {
        let value = pairs[0].1;
        lemma_duration_bound(value, value, 0, true);
        if let OptionText::Options(next) = one_option(o, pairs[0].0, value) {
            assert(sound_options(next));
            lemma_sound(next, pairs.drop_first());
        }
    }
}

/// A query parameter that names no link option changes nothing, wherever it
/// stands in the query.
pub proof fn other_parameters_change_nothing(
    o: OptionsView,
    before: Seq<(Seq<char>, Seq<char>)>,
    name: Seq<char>,
    value: Seq<char>,
    after: Seq<(Seq<char>, Seq<char>)>,
)
    requires
        !link_url::is_link_option(name),
    ensures
        all_options(o, before + seq![(name, value)] + after) == all_options(o, before + after),
    decreases before.len(),
{
    let with = before + seq![(name, value)] + after;
    if before.len() == 0 {
        assert(with.drop_first() =~= before + after);
    } else {
        assert(with[0] == before[0] && (before + after)[0] == before[0]);
        assert(with.drop_first() =~= before.drop_first() + seq![(name, value)] + after);
        assert((before + after).drop_first() =~= before.drop_first() + after);
        if let OptionText::Options(next) = one_option(o, before[0].0, before[0].1) {
            other_parameters_change_nothing(next, before.drop_first(), name, value, after);
        }
    }
}

/// The last value that parameters of a name have, of those that are usable.
pub open spec fn last_of(
    pairs: Seq<(Seq<char>, Seq<char>)>,
    name: Seq<char>,
    usable: spec_fn(Seq<char>) -> bool,
) -> Option<Seq<char>>
    decreases pairs.len(),
{
    if pairs.len() == 0 {
        None
    } else {
        match last_of(pairs.drop_first(), name, usable) {
            Some(v) => Some(v),
            None => if pairs[0].0 == name && usable(pairs[0].1) {
                Some(pairs[0].1)
            } else {
                None
            },
        }
    }
}

/// The keys that the parameters `key` give, in their order.
pub open spec fn all_keys(pairs: Seq<(Seq<char>, Seq<char>)>) -> Seq<Seq<u8>>
    decreases pairs.len(),
{
    if pairs.len() == 0 {
        seq![]
    } else if pairs[0].0 == "key"@ {
        seq![hex_bytes(encode_utf8(pairs[0].1))->0] + all_keys(pairs.drop_first())
    } else {
        all_keys(pairs.drop_first())
    }
}

/// Whether a server name can be asked for.
pub open spec fn usable_sni(value: Seq<char>) -> bool {
    value.len() > 0 && !is_address(value)
}

/// Of each option but `key` the last one in the query counts, and every `key`
/// does. An `sni` that is empty or an IP address counts for nothing; without
/// any other, the name is the host, unless that is an IP address.
pub proof fn the_last_of_a_name_counts(url: link_url::UrlParts)
    ensures
        link_options(url) matches OptionText::Options(o) ==> {
            let any = |v: Seq<char>| true;
            &&& o.pinned_keys == all_keys(url.pairs)
            &&& o.priority == (match last_of(url.pairs, "priority"@, any) {
                Some(v) => text::unsigned_value(v)->0,
                None => 0,
            })
            &&& o.password == (match last_of(url.pairs, "password"@, any) {
                Some(v) => encode_utf8(v),
                None => seq![],
            })
            &&& (match last_of(url.pairs, "maxbackoff"@, any) {
                Some(v) => duration::duration_text(v) == duration::DurationText::Seconds(
                    o.max_backoff,
                ),
                None => o.max_backoff == DEFAULT_BACKOFF_LIMIT,
            })
            &&& o.tls_sni == (match last_of(url.pairs, "sni"@, |v: Seq<char>| usable_sni(v)) {
                Some(v) => Some(v),
                None => match url.host {
                    Some(h) => if is_address(h) {
                        None
                    } else {
                        Some(h)
                    },
                    None => None,
                },
            })
        },
{
    lemma_last_counts(default_options(), url.pairs);
    assert(default_options().pinned_keys + all_keys(url.pairs) =~= all_keys(url.pairs));
}

proof fn lemma_last_counts(o: OptionsView, pairs: Seq<(Seq<char>, Seq<char>)>)
    ensures
        all_options(o, pairs) matches OptionText::Options(end) ==> {
            let any = |v: Seq<char>| true;
            &&& end.pinned_keys == o.pinned_keys + all_keys(pairs)
            &&& end.priority == (match last_of(pairs, "priority"@, any) {
                Some(v) => text::unsigned_value(v)->0,
                None => o.priority as nat,
            })
            &&& end.password == (match last_of(pairs, "password"@, any) {
                Some(v) => encode_utf8(v),
                None => o.password,
            })
            &&& (match last_of(pairs, "maxbackoff"@, any) {
                Some(v) => duration::duration_text(v) == duration::DurationText::Seconds(
                    end.max_backoff,
                ),
                None => end.max_backoff == o.max_backoff,
            })
            &&& end.tls_sni == (match last_of(pairs, "sni"@, |v: Seq<char>| usable_sni(v)) {
                Some(v) => Some(v),
                None => o.tls_sni,
            })
        },
    decreases pairs.len(),
{
    lemma_names_differ();
    if pairs.len() > 0 {
        let rest = pairs.drop_first();
        if let OptionText::Options(next) = one_option(o, pairs[0].0, pairs[0].1) {
            lemma_last_counts(next, rest);
            assert(next.pinned_keys + all_keys(rest) =~= o.pinned_keys + all_keys(pairs));
        }
    } else {
        assert(o.pinned_keys + all_keys(pairs) =~= o.pinned_keys);
    }
}

proof fn lemma_names_differ()
    ensures
        "key"@ != "priority"@,
        "key"@ != "password"@,
        "key"@ != "maxbackoff"@,
        "key"@ != "sni"@,
        "priority"@ != "password"@,
        "priority"@ != "maxbackoff"@,
        "priority"@ != "sni"@,
        "password"@ != "maxbackoff"@,
        "password"@ != "sni"@,
        "maxbackoff"@ != "sni"@,
{
    reveal_strlit("key");
    reveal_strlit("priority");
    reveal_strlit("password");
    reveal_strlit("maxbackoff");
    reveal_strlit("sni");
    assert("key"@[0] == 'k' && "sni"@[0] == 's');
    assert("priority"@[0] == 'p' && "priority"@[1] == 'r');
    assert("password"@[0] == 'p' && "password"@[1] == 'a');
    assert("maxbackoff"@[0] == 'm');
}

/// Digits are read two to a byte, the greater one first: bytes that are
/// written so, with digits of either case, are read back. Anything that is no
/// digit, and an odd number of them, is refused.
pub proof fn hex_digits_are_read_back(s: Seq<u8>, b: Seq<u8>)
    ensures
        hex_bytes(s) is Some <==> s.len() % 2 == 0 && forall|i: int|
            0 <= i < s.len() ==> ip::hex_value((#[trigger] s[i]) as char) is Some,
        s.len() == 2 * b.len() && (forall|i: int| 0 <= i < b.len() ==> #[trigger] digits_of(s, i, b[i]))
            ==> hex_bytes(s) == Some(b),
{
    if forall|i: int| 0 <= i < s.len() ==> ip::hex_value((#[trigger] s[i]) as char) is Some {
        assert forall|i: int| 0 <= i < s.len() implies is_hex(#[trigger] s[i]) by {}
    }
    if hex_bytes(s) is Some {
        assert forall|i: int| 0 <= i < s.len() implies ip::hex_value(
            (#[trigger] s[i]) as char,
        ) is Some by {
            assert(is_hex(s[i]));
        }
    }
    if s.len() == 2 * b.len() && (forall|i: int|
        0 <= i < b.len() ==> #[trigger] digits_of(s, i, b[i])) {
        assert forall|k: int| 0 <= k < s.len() implies is_hex(#[trigger] s[k]) by {
            let i = k / 2;
            assert(digits_of(s, i, b[i]));
            assert(k == 2 * i || k == 2 * i + 1);
        }
        let r = hex_bytes(s)->0;
        assert forall|i: int| 0 <= i < b.len() implies r[i] == b[i] by {
            assert(digits_of(s, i, b[i]));
        }
        assert(r =~= b);
    }
}

/// Whether the two digits at the place of the `i`th byte are those of `b`.
pub open spec fn digits_of(s: Seq<u8>, i: int, b: u8) -> bool {
    &&& ip::hex_value(s[2 * i] as char) == Some((b / 16) as nat)
    &&& ip::hex_value(s[2 * i + 1] as char) == Some((b % 16) as nat)
}

/// Whether a query parameter is one that can be used: a `key` of 64
/// hexadecimal digits, a `priority` of at most 255, a `password` of at most 64
/// bytes, a `maxbackoff` of at least five seconds, and any other one.
pub open spec fn acceptable(name: Seq<char>, value: Seq<char>) -> bool {
    if name == "key"@ {
        hex_bytes(encode_utf8(value)) is Some && encode_utf8(value).len() == 64
    } else if name == "priority"@ {
        text::unsigned_value(value) matches Some(n) && n <= 255
    } else if name == "password"@ {
        encode_utf8(value).len() <= 64
    } else if name == "maxbackoff"@ {
        duration::duration_text(value) matches duration::DurationText::Seconds(n) && n >= 5
    } else {
        true
    }
}

/// What is said of a query parameter that cannot be used.
pub open spec fn complaint(name: Seq<char>, value: Seq<char>) -> OptionText {
    if name == "key"@ {
        if hex_bytes(encode_utf8(value)) is Some {
            OptionText::Refused("pinned key must be 32 bytes"@)
        } else {
            OptionText::Refused("invalid key hex: "@ + hex_error(value))
        }
    } else if name == "priority"@ {
        OptionText::Refused("invalid priority: "@ + u8_error(value))
    } else if name == "password"@ {
        OptionText::Refused("password too long (max 64 chars)"@)
    } else {
        match duration::duration_text(value) {
            duration::DurationText::Seconds(_) => OptionText::Refused(
                "maxbackoff must be at least 5 seconds"@,
            ),
            duration::DurationText::Refused(e) => OptionText::Refused("invalid maxbackoff: "@ + e),
            duration::DurationText::OutOfRange => OptionText::OutOfRange,
        }
    }
}

/// The options of a URL can be read exactly where each of its parameters can
/// be used.
pub proof fn options_are_read_where_each_can_be_used(url: link_url::UrlParts)
    ensures
        link_options(url) is Options <==> forall|i: int|
            0 <= i < url.pairs.len() ==> acceptable((#[trigger] url.pairs[i]).0, url.pairs[i].1),
{
    lemma_read_where_each_can_be_used(default_options(), url.pairs);
}

proof fn lemma_one_option(o: OptionsView, name: Seq<char>, value: Seq<char>)
    ensures
        one_option(o, name, value) is Options <==> acceptable(name, value),
        !acceptable(name, value) ==> one_option(o, name, value) == complaint(name, value),
{
    lemma_names_differ();
    let s = encode_utf8(value);
    if hex_bytes(s) is Some {
        assert(hex_bytes(s)->0.len() == s.len() / 2);
    }
}

proof fn lemma_read_where_each_can_be_used(o: OptionsView, pairs: Seq<(Seq<char>, Seq<char>)>)
    ensures
        all_options(o, pairs) is Options <==> forall|i: int|
            0 <= i < pairs.len() ==> acceptable((#[trigger] pairs[i]).0, pairs[i].1),
    decreases pairs.len(),
{
    if pairs.len() > 0 {
        let rest = pairs.drop_first();
        lemma_one_option(o, pairs[0].0, pairs[0].1);
        assert forall|i: int| 0 <= i < rest.len() implies (#[trigger] rest[i]) == pairs[i + 1] by {}
        if let OptionText::Options(next) = one_option(o, pairs[0].0, pairs[0].1) {
            lemma_read_where_each_can_be_used(next, rest);
            if forall|i: int|
                0 <= i < rest.len() ==> acceptable((#[trigger] rest[i]).0, rest[i].1) {
                assert forall|i: int| 0 <= i < pairs.len() implies acceptable(
                    (#[trigger] pairs[i]).0,
                    pairs[i].1,
                ) by {
                    if i > 0 {
                        assert(acceptable(rest[i - 1].0, rest[i - 1].1));
                    }
                }
            }
            if forall|i: int|
                0 <= i < pairs.len() ==> acceptable((#[trigger] pairs[i]).0, pairs[i].1) {
                assert forall|i: int| 0 <= i < rest.len() implies acceptable(
                    (#[trigger] rest[i]).0,
                    rest[i].1,
                ) by {
                    assert(acceptable(pairs[i + 1].0, pairs[i + 1].1));
                }
            }
        } else {
            assert(!acceptable(pairs[0].0, pairs[0].1));
        }
    }
}

/// Of the parameters that cannot be used the first one is complained of,
/// whatever stands behind it.
pub proof fn the_first_unusable_parameter_is_named(
    url: link_url::UrlParts,
    before: Seq<(Seq<char>, Seq<char>)>,
    name: Seq<char>,
    value: Seq<char>,
    after: Seq<(Seq<char>, Seq<char>)>,
)
    requires
        url.pairs == before + seq![(name, value)] + after,
        forall|i: int| 0 <= i < before.len() ==> acceptable((#[trigger] before[i]).0, before[i].1),
        !acceptable(name, value),
    ensures
        link_options(url) == complaint(name, value),
{
    lemma_first_unusable(default_options(), before, name, value, after);
}

proof fn lemma_first_unusable(
    o: OptionsView,
    before: Seq<(Seq<char>, Seq<char>)>,
    name: Seq<char>,
    value: Seq<char>,
    after: Seq<(Seq<char>, Seq<char>)>,
)
    requires
        forall|i: int| 0 <= i < before.len() ==> acceptable((#[trigger] before[i]).0, before[i].1),
        !acceptable(name, value),
    ensures
        all_options(o, before + seq![(name, value)] + after) == complaint(name, value),
    decreases before.len(),
{
    let all = before + seq![(name, value)] + after;
    if before.len() == 0 {
        assert(all[0] == (name, value));
        lemma_one_option(o, name, value);
    } else {
        let rest = before.drop_first();
        assert(all[0] == before[0]);
        assert(acceptable(before[0].0, before[0].1));
        lemma_one_option(o, before[0].0, before[0].1);
        assert(all.drop_first() =~= rest + seq![(name, value)] + after);
        assert forall|i: int| 0 <= i < rest.len() implies acceptable(
            (#[trigger] rest[i]).0,
            rest[i].1,
        ) by {
            assert(rest[i] == before[i + 1]);
        }
        let next = one_option(o, before[0].0, before[0].1)->Options_0;
        lemma_first_unusable(next, rest, name, value, after);
    }
}

/// A URL without parameters and without a host pins no key, has priority zero,
/// no password, a longest wait of 4096 seconds and no server name.
pub proof fn nothing_is_asked_for_by_default(url: link_url::UrlParts)
    requires
        url.pairs.len() == 0,
        url.host is None,
    ensures
        link_options(url) == OptionText::Options(
            OptionsView {
                pinned_keys: seq![],
                priority: 0,
                password: seq![],
                max_backoff: 4096,
                tls_sni: None,
            },
        ),
{
}

/// A text is an address exactly where it is one as it stands or within one
/// pair of brackets.
pub proof fn addresses_may_stand_in_brackets(s: Seq<char>)
    ensures
        is_address(seq!['['] + s + seq![']']) <==> ip::ip(s) is Some,
        s.len() > 0 && (s[0] != '[' || s.last() != ']') ==> (is_address(s) <==> ip::ip(s) is Some),
{
    ip::one_pair_of_brackets_is_taken_off(s);
}

/// The model of options is their fields; that of a row of keys is the bytes of
/// each, in their order.
pub proof fn options_are_their_fields(o: LinkOptions, i: int)
    ensures
        o@.pinned_keys.len() == o.pinned_keys@.len(),
        0 <= i < o.pinned_keys@.len() ==> o@.pinned_keys[i] == o.pinned_keys@[i]@,
        o@.priority == o.priority && o@.password == o.password@,
        o@.max_backoff == o.max_backoff.secs,
        o@.tls_sni == text::option_text(o.tls_sni),
{
}

} // verus!

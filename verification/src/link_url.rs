//! Peer and listener URLs, and the arguments that they carry for pluggable
//! transports.
use vstd::prelude::*;

use crate::percent;
use crate::text;

verus! {

// ---------------------------------------------------------------------------
// Schemes
// ---------------------------------------------------------------------------

/// Whether `c` is an ASCII letter.
pub open spec fn is_alpha(c: char) -> bool {
    'a' <= c <= 'z' || 'A' <= c <= 'Z'
}

/// Whether `c` may stand in a URL scheme after its first character.
pub open spec fn is_scheme_char(c: char) -> bool {
    is_alpha(c) || text::is_digit(c) || c == '+' || c == '-' || c == '.'
}

/// Whether `s` is a URL scheme: `ALPHA *( ALPHA / DIGIT / "+" / "-" / "." )`.
pub open spec fn valid_scheme(s: Seq<char>) -> bool {
    &&& s.len() > 0
    &&& is_alpha(s[0])
    &&& forall|i: int| 1 <= i < s.len() ==> is_scheme_char(#[trigger] s[i])
}

/// The lower-case form of an ASCII letter; any other character is kept.
pub open spec fn ascii_lower(c: char) -> char {
    if 'A' <= c <= 'Z' {
        (c as int - 'A' as int + 'a' as int) as char
    } else {
        c
    }
}

/// `s` with its ASCII letters in lower case.
pub open spec fn lower_text(s: Seq<char>) -> Seq<char> {
    Seq::new(s.len(), |i: int| ascii_lower(s[i]))
}

/// Whether `s` is a syntactically valid URL scheme per RFC 3986:
/// `ALPHA *( ALPHA / DIGIT / "+" / "-" / "." )`.
pub fn is_valid_url_scheme(s: &str) -> (r: bool)
    ensures
        r == valid_scheme(s@),
{
    let chars = text::chars_of(s);
    if chars.len() == 0 {
        return false;
    }
    let first = chars[0];
    if !((first >= 'a' && first <= 'z') || (first >= 'A' && first <= 'Z')) {
        return false;
    }
    let mut i: usize = 1;
    while i < chars.len()
        invariant
            chars@ == s@,
            1 <= i <= chars@.len(),
            forall|j: int| 1 <= j < i ==> is_scheme_char(#[trigger] s@[j]),
        decreases chars@.len() - i,
    {
        let c = chars[i];
        if !((c >= 'a' && c <= 'z') || (c >= 'A' && c <= 'Z') || (c >= '0' && c <= '9') || c == '+'
            || c == '-' || c == '.') {
            assert(!is_scheme_char(s@[i as int]));
            return false;
        }
        i = i + 1;
    }
    true
}

/// `s` with its ASCII letters in lower case.
pub fn to_ascii_lowercase(s: &str) -> (r: String)
    ensures
        r@ == lower_text(s@),
{
    let mut out = String::new();
    for c in it: s.chars()
        invariant
            it.seq() == s@,
            out@ == lower_text(s@).take(it.index() as int),
    {
        let l: char = if c >= 'A' && c <= 'Z' {
            ((c as u8) - 65 + 97) as char
        } else {
            c
        };
        out.push(l);
        assert(l == ascii_lower(c));
    }
    assert(out@ =~= lower_text(s@));
    out
}

/// Lower case changes nothing in what is lower case already.
pub proof fn lower_text_is_stable(s: Seq<char>)
    ensures
        lower_text(lower_text(s)) == lower_text(s),
{
    assert(lower_text(lower_text(s)) =~= lower_text(s));
}

// ---------------------------------------------------------------------------
// URLs
// ---------------------------------------------------------------------------

/// The parts of a URL that links are made from.
pub struct UrlParts {
    /// The scheme.
    pub scheme: Seq<char>,
    /// The host, an IPv6 address in brackets.
    pub host: Option<Seq<char>>,
    /// The port, or the one that is known for the scheme.
    pub port: Option<u16>,
    /// The path.
    pub path: Seq<char>,
    /// The query as it stands in the URL.
    pub query: Option<Seq<char>>,
    /// The names and values of the query, form-decoded.
    pub pairs: Seq<(Seq<char>, Seq<char>)>,
}

/// A parsed URL.
#[derive(Debug)]
pub struct LinkUrl {
    /// The scheme.
    pub scheme: String,
    /// The host, an IPv6 address in brackets.
    pub host: Option<String>,
    /// The port, or the one that is known for the scheme.
    pub port: Option<u16>,
    /// The path.
    pub path: String,
    /// The query as it stands in the URL.
    pub query: Option<String>,
    /// The names and values of the query, form-decoded.
    pub pairs: Vec<(String, String)>,
}

impl View for LinkUrl {
    type V = UrlParts;

    open spec fn view(&self) -> UrlParts {
        UrlParts {
            scheme: self.scheme@,
            host: text::option_text(self.host),
            port: self.port,
            path: self.path@,
            query: text::option_text(self.query),
            pairs: text::pair_texts(self.pairs@),
        }
    }
}

/// What `url::Url::parse` makes of a text: the parts of the URL, or the text
/// of the error.
pub uninterp spec fn parsed_url(input: Seq<char>) -> Result<UrlParts, Seq<char>>;

/// Calls `url::Url::parse` and takes the parts of the URL out through its
/// getters (`scheme`, `host_str`, `port_or_known_default`, `path`, `query`,
/// `query_pairs`). The result depends on the text alone. A scheme is a valid
/// one in lower case; the schemes `ws` and `wss` have a known port; a URL
/// without a query has no pairs.
#[verifier::external_body]
fn url_parse(input: &str) -> (r: Result<LinkUrl, String>)
    ensures
        match r {
            Ok(u) => parsed_url(input@) == Ok::<UrlParts, Seq<char>>(u@),
            Err(e) => parsed_url(input@) == Err::<UrlParts, Seq<char>>(e@),
        },
        r matches Ok(u) ==> valid_scheme(u@.scheme) && lower_text(u@.scheme) == u@.scheme,
        r matches Ok(u) ==> (u@.scheme == "ws"@ || u@.scheme == "wss"@ ==> u@.port is Some),
        r matches Ok(u) ==> (u@.query is None ==> u@.pairs.len() == 0),
{
    let u = url::Url::parse(input).map_err(|e| e.to_string())?;
    Ok(LinkUrl {
        scheme: u.scheme().to_string(),
        host: u.host_str().map(|h| h.to_string()),
        port: u.port_or_known_default(),
        path: u.path().to_string(),
        query: u.query().map(|q| q.to_string()),
        pairs: u.query_pairs().into_owned().collect(),
    })
}

impl LinkUrl {
    /// Parses a URL: its parts, or the text of the error. A scheme always
    /// comes in lower case.
    pub fn parse(input: &str) -> (r: Result<LinkUrl, String>)
        ensures
            match r {
                Ok(u) => parsed_url(input@) == Ok::<UrlParts, Seq<char>>(u@),
                Err(e) => parsed_url(input@) == Err::<UrlParts, Seq<char>>(e@),
            },
            r matches Ok(u) ==> valid_scheme(u@.scheme) && lower_text(u@.scheme) == u@.scheme,
            r matches Ok(u) ==> (u@.scheme == "ws"@ || u@.scheme == "wss"@ ==> u@.port is Some),
            r matches Ok(u) ==> (u@.query is None ==> u@.pairs.len() == 0),
    {
        url_parse(input)
    }
}

// ---------------------------------------------------------------------------
// Arguments for pluggable transports
// ---------------------------------------------------------------------------

/// Whether a query parameter of this name is a link option.
pub open spec fn is_link_option(name: Seq<char>) -> bool {
    ||| name == "key"@
    ||| name == "priority"@
    ||| name == "password"@
    ||| name == "maxbackoff"@
    ||| name == "sni"@
}

/// The argument that one piece of a query carries: none where it has no `=`
/// or names a link option.
pub open spec fn piece_arg(piece: Seq<char>) -> Seq<(Seq<char>, Seq<char>)> {
    let eq = text::find(piece, '=');
    if eq < piece.len() {
        let name = percent::percent_text(piece.take(eq));
        if is_link_option(name) {
            seq![]
        } else {
            seq![(name, percent::percent_text(piece.skip(eq + 1)))]
        }
    } else {
        seq![]
    }
}

/// The arguments that the pieces of a query carry, in their order.
pub open spec fn piece_args(pieces: Seq<Seq<char>>) -> Seq<(Seq<char>, Seq<char>)>
    decreases pieces.len(),
{
    if pieces.len() == 0 {
        seq![]
    } else {
        piece_arg(pieces[0]) + piece_args(pieces.drop_first())
    }
}

/// The arguments that a query carries for a pluggable transport.
pub open spec fn pt_args(query: Option<Seq<char>>) -> Seq<(Seq<char>, Seq<char>)> {
    match query {
        Some(q) => piece_args(text::split(q, '&')),
        None => seq![],
    }
}

fn names_link_option(name: &str) -> (r: bool)
    ensures
        r == is_link_option(name@),
{
    text::same_text(name, "key") || text::same_text(name, "priority") || text::same_text(
        name,
        "password",
    ) || text::same_text(name, "maxbackoff") || text::same_text(name, "sni")
}

/// Collect all query parameters that are NOT standard Yggdrasil link options.
/// These are forwarded as PT connection arguments via the SOCKS5 username field.
///
/// Uses raw percent-decoding (not form-encoding) so that `+` characters in
/// base64 cert values are preserved as `+`, not corrupted to spaces.
pub fn extract_pt_args(url: &LinkUrl) -> (r: Vec<(String, String)>)
    ensures
        text::pair_texts(r@) == pt_args(url@.query),
{
    let mut out: Vec<(String, String)> = Vec::new();
    let query = match &url.query {
        Some(q) => text::chars_of(q.as_str()),
        None => {
            assert(text::pair_texts(out@) =~= seq![]);
            return out;
        },
    };
    let n = query.len();
    let mut at: usize = 0;
    proof {
        assert(query@.skip(0) =~= query@);
        assert(text::pair_texts(out@) =~= seq![]);
    }
    loop
        invariant
            n == query@.len(),
            at <= n,
            url@.query == Some(query@),
            pt_args(url@.query) =~= text::pair_texts(out@) + piece_args(
                text::split(query@.skip(at as int), '&'),
            ),
        decreases n - at,
    {
        let ghost rest = query@.skip(at as int);
        assert(query@.subrange(at as int, n as int) =~= rest);
        let end = text::find_char(query.as_slice(), at, n, '&');
        let eq = text::find_char(query.as_slice(), at, end, '=');
        let ghost piece = query@.subrange(at as int, end as int);
        let ghost before = out@;
        if eq < end {
            let key = percent::pct_decode(text::text_of(query.as_slice(), at, eq).as_str());
            let val = percent::pct_decode(text::text_of(query.as_slice(), eq + 1, end).as_str());
            proof {
                assert(query@.subrange(at as int, eq as int) =~= piece.take(eq - at));
                assert(query@.subrange(eq + 1, end as int) =~= piece.skip(eq - at + 1));
            }
            if !names_link_option(key.as_str()) {
                out.push((key, val));
            }
        }
        proof {
            assert(text::pair_texts(out@) =~= text::pair_texts(before) + piece_arg(piece));
            let pieces = text::split(rest, '&');
            if end < n {
                assert(rest.take(end - at) =~= piece);
                assert(rest.skip(end - at + 1) =~= query@.skip(end + 1));
                assert(pieces.drop_first() =~= text::split(query@.skip(end + 1), '&'));
            } else {
                assert(rest =~= piece);
                assert(pieces.drop_first() =~= seq![]);
            }
            assert(pieces[0] == piece);
        }
        if end == n {
            assert(piece_args(Seq::<Seq<char>>::empty()) =~= seq![]);
            return out;
        }
        at = end + 1;
    }
}

/// No link option reaches a transport as an argument.
pub proof fn link_options_stay_out_of_pt_args(query: Option<Seq<char>>, i: int)
    requires
        0 <= i < pt_args(query).len(),
    ensures
        !is_link_option(pt_args(query)[i].0),
{
    if let Some(q) = query {
        lemma_piece_args(text::split(q, '&'), i);
    }
}

proof fn lemma_piece_args(pieces: Seq<Seq<char>>, i: int)
    requires
        0 <= i < piece_args(pieces).len(),
    ensures
        !is_link_option(piece_args(pieces)[i].0),
    decreases pieces.len(),
{
    let first = piece_arg(pieces[0]);
    if i >= first.len() {
        lemma_piece_args(pieces.drop_first(), i - first.len());
    }
}

// ---------------------------------------------------------------------------
// Laws
// ---------------------------------------------------------------------------

/// A scheme starts with an ASCII letter, and everything behind it is one, a
/// digit, `+`, `-` or `.`; any text of that kind is a scheme.
pub proof fn schemes_are_letters_digits_and_marks(s: Seq<char>)
    ensures
        valid_scheme(s) <==> {
            &&& s.len() > 0
            &&& 'a' <= s[0] <= 'z' || 'A' <= s[0] <= 'Z'
            &&& forall|i: int|
                0 <= i < s.len() ==> 'a' <= #[trigger] s[i] <= 'z' || 'A' <= s[i] <= 'Z' || '0'
                    <= s[i] <= '9' || s[i] == '+' || s[i] == '-' || s[i] == '.'
        },
{
    if valid_scheme(s) {
        assert forall|i: int| 0 <= i < s.len() implies 'a' <= #[trigger] s[i] <= 'z' || 'A' <= s[i]
            <= 'Z' || '0' <= s[i] <= '9' || s[i] == '+' || s[i] == '-' || s[i] == '.' by {
            if i > 0 {
                assert(is_scheme_char(s[i]));
            }
        }
    }
}

/// Lower case replaces each of the 26 capital ASCII letters by the small one,
/// 32 places behind it, and changes nothing else.
pub proof fn lower_case_changes_capitals_alone(s: Seq<char>, i: int)
    requires
        0 <= i < s.len(),
    ensures
        lower_text(s).len() == s.len(),
        'A' <= s[i] <= 'Z' ==> lower_text(s)[i] as int == s[i] as int + 32,
        !('A' <= s[i] <= 'Z') ==> lower_text(s)[i] == s[i],
{
}

proof fn lemma_joined_add(a: Seq<Seq<char>>, b: Seq<Seq<char>>, c: char)
    requires
        a.len() > 0,
        b.len() > 0,
    ensures
        text::joined(a + b, c) == text::joined(a, c) + seq![c] + text::joined(b, c),
    decreases a.len(),
{
    let all = a + b;
    if a.len() == 1 {
        assert(all.drop_first() =~= b);
        assert(all[0] == a[0]);
    } else {
        lemma_joined_add(a.drop_first(), b, c);
        assert(all.drop_first() =~= a.drop_first() + b);
        assert(all[0] == a[0]);
        assert(text::joined(all, c) =~= text::joined(a, c) + seq![c] + text::joined(b, c));
    }
}

proof fn lemma_piece_args_add(a: Seq<Seq<char>>, b: Seq<Seq<char>>)
    ensures
        piece_args(a + b) == piece_args(a) + piece_args(b),
    decreases a.len(),
{
    let all = a + b;
    if a.len() == 0 {
        assert(all =~= b);
        assert(piece_args(a) + piece_args(b) =~= piece_args(b));
    } else {
        lemma_piece_args_add(a.drop_first(), b);
        assert(all.drop_first() =~= a.drop_first() + b);
        assert(all[0] == a[0]);
        assert(piece_args(all) =~= piece_args(a) + piece_args(b));
    }
}

/// The arguments of two queries with an `&` between them are those of the one
/// and then those of the other; no query carries none.
pub proof fn queries_carry_their_arguments_in_order(q: Seq<char>, r: Seq<char>)
    ensures
        pt_args(Some(q + seq!['&'] + r)) == pt_args(Some(q)) + pt_args(Some(r)),
        pt_args(None).len() == 0,
{
    let a = text::split(q, '&');
    let b = text::split(r, '&');
    text::pieces_join_to_the_text(q, '&');
    text::pieces_join_to_the_text(r, '&');
    lemma_joined_add(a, b, '&');
    let all = a + b;
    assert forall|i: int| 0 <= i < all.len() implies !(#[trigger] all[i]).contains('&') by {
        if i < a.len() {
            assert(all[i] == a[i]);
        } else {
            assert(all[i] == b[i - a.len()]);
        }
    }
    text::joined_pieces_split(all, '&');
    lemma_piece_args_add(a, b);
}

/// A name, the first `=` and a value are one argument, both percent-decoded,
/// unless the name is that of a link option: `key`, `priority`, `password`,
/// `maxbackoff` or `sni`. What has no `=` is no argument.
pub proof fn other_parameters_are_arguments(name: Seq<char>, value: Seq<char>)
    requires
        !name.contains('='),
        !name.contains('&'),
        !value.contains('&'),
    ensures
        ({
            let n = percent::percent_text(name);
            let option = n == "key"@ || n == "priority"@ || n == "password"@ || n == "maxbackoff"@
                || n == "sni"@;
            &&& option ==> pt_args(Some(name + seq!['='] + value)).len() == 0
            &&& !option ==> pt_args(Some(name + seq!['='] + value)) == seq![
                (n, percent::percent_text(value)),
            ]
            &&& pt_args(Some(name)).len() == 0
        }),
{
    let s = name + seq!['='] + value;
    let k = name.len() as int;
    assert forall|j: int| 0 <= j < k implies name[j] != '=' && name[j] != '&' by {
        assert(name.contains(name[j]));
    }
    assert forall|j: int| 0 <= j < s.len() implies s[j] != '&' by {
        if j > k {
            assert(s[j] == value[j - k - 1]);
            assert(value.contains(value[j - k - 1]));
        }
    }
    assert(s[k] == '=');
    text::lemma_find_is(s, '=', k);
    text::lemma_find_is(s, '&', s.len() as int);
    text::lemma_find_is(name, '=', k);
    text::lemma_find_is(name, '&', k);
    assert(s.take(k) =~= name);
    assert(s.skip(k + 1) =~= value);
    lemma_one_piece(s);
    lemma_one_piece(name);
}

proof fn lemma_one_piece(s: Seq<char>)
    requires
        text::find(s, '&') == s.len(),
    ensures
        pt_args(Some(s)) == piece_arg(s),
{
    let p = text::split(s, '&');
    assert(p =~= seq![s]);
    assert(p.drop_first() =~= Seq::<Seq<char>>::empty());
    assert(piece_args(Seq::<Seq<char>>::empty()) =~= seq![]);
    assert(piece_args(p) =~= piece_arg(s));
}

/// The model of a URL is its parts.
pub proof fn a_url_is_its_parts(u: LinkUrl)
    ensures
        u@.scheme == u.scheme@ && u@.host == text::option_text(u.host) && u@.port == u.port,
        u@.path == u.path@ && u@.query == text::option_text(u.query) && u@.pairs
            == text::pair_texts(u.pairs@),
{
}

} // verus!

//! Reaching a peer: the layers that a stream is made of, the name that a TLS
//! handshake asks for, and what is said where it fails.
use vstd::prelude::*;

use crate::ip;
use crate::ip::{IpAddr, SocketAddr};
use crate::link_url;
use crate::text;

verus! {

/// How long a connect may take, in seconds.
pub const DIAL_TIMEOUT: u64 = 5;

/// How long a dial through a pluggable transport may take, in seconds. It is
/// deliberately slow (obfuscation handshakes and rendezvous can take tens of
/// seconds), but without any cap a blackholed bridge would wedge the reconnect
/// loop forever.
pub const PT_DIAL_TIMEOUT: u64 = 60;

// ---------------------------------------------------------------------------
// Layers
// ---------------------------------------------------------------------------

/// A layer of a stream.
#[derive(Clone, Copy, Debug, PartialEq, Eq, Structural)]
pub enum Layer {
    Tcp,
    Tls,
    Ws,
}

/// The layers that a scheme puts on top of TCP.
#[derive(Clone, Copy, Debug, PartialEq, Eq, Structural)]
pub struct Layers {
    /// A TLS handshake (tls, wss).
    pub tls: bool,
    /// A WebSocket handshake (ws, wss), after the one of TLS.
    pub ws: bool,
}

/// What to do with a stream.
#[derive(Clone, Copy, Debug, PartialEq, Eq, Structural)]
pub enum LayerStep {
    /// Perform the handshake of this layer.
    Handshake(Layer),
    /// Nothing: the stream ends in this layer.
    Ready(Layer),
}

/// What to do with a stream whose uppermost layer is `top`.
pub open spec fn after_layer(layers: Layers, top: Layer) -> LayerStep {
    match top {
        Layer::Tcp => if layers.tls {
            LayerStep::Handshake(Layer::Tls)
        } else if layers.ws {
            LayerStep::Handshake(Layer::Ws)
        } else {
            LayerStep::Ready(Layer::Tcp)
        },
        Layer::Tls => if layers.ws {
            LayerStep::Handshake(Layer::Ws)
        } else {
            LayerStep::Ready(Layer::Tls)
        },
        Layer::Ws => LayerStep::Ready(Layer::Ws),
    }
}

impl Layers {
    /// What to do with a stream, accepted or dialled, whose uppermost layer is
    /// `top`.
    pub fn next(&self, top: Layer) -> (r: LayerStep)
        ensures
            r == after_layer(*self, top),
    {
        match top {
            Layer::Tcp => if self.tls {
                LayerStep::Handshake(Layer::Tls)
            } else if self.ws {
                LayerStep::Handshake(Layer::Ws)
            } else {
                LayerStep::Ready(Layer::Tcp)
            },
            Layer::Tls => if self.ws {
                LayerStep::Handshake(Layer::Ws)
            } else {
                LayerStep::Ready(Layer::Tls)
            },
            Layer::Ws => LayerStep::Ready(Layer::Ws),
        }
    }
}

/// The handshakes that follow a layer, in their order.
pub open spec fn handshakes(layers: Layers, top: Layer) -> Seq<Layer>
    decreases (match top {
        Layer::Tcp => 2int,
        Layer::Tls => 1int,
        Layer::Ws => 0int,
    }),
{
    match after_layer(layers, top) {
        LayerStep::Handshake(l) => if top != Layer::Ws && l != Layer::Tcp && l != top {
            seq![l] + handshakes(layers, l)
        } else {
            seq![]
        },
        LayerStep::Ready(_) => seq![],
    }
}

/// A stream gets exactly the handshakes that its scheme asks for, that of TLS
/// before that of WebSocket.
pub proof fn each_layer_is_handshaken_once(layers: Layers)
    ensures
        handshakes(layers, Layer::Tcp) == (if layers.tls {
            seq![Layer::Tls]
        } else {
            seq![]
        }) + (if layers.ws {
            seq![Layer::Ws]
        } else {
            seq![]
        }),
{
    reveal_with_fuel(handshakes, 3);
    assert(handshakes(layers, Layer::Tcp) =~= (if layers.tls {
        seq![Layer::Tls]
    } else {
        seq![]
    }) + (if layers.ws {
        seq![Layer::Ws]
    } else {
        seq![]
    }));
}

// ---------------------------------------------------------------------------
// Server names
// ---------------------------------------------------------------------------

/// The name that a TLS handshake asks for.
#[derive(Debug)]
pub enum ServerName {
    Dns(String),
    Ip(IpAddr),
}

/// The name that a TLS handshake asks for, in mathematical terms.
pub enum NameView {
    Dns(Seq<char>),
    Ip(IpAddr),
}

impl View for ServerName {
    type V = NameView;

    open spec fn view(&self) -> NameView {
        match self {
            ServerName::Dns(s) => NameView::Dns(s@),
            ServerName::Ip(a) => NameView::Ip(*a),
        }
    }
}

/// Whether `c` may stand in a label of a DNS name.
pub open spec fn is_label_char(c: char) -> bool {
    link_url::is_alpha(c) || text::is_digit(c) || c == '_' || c == '-'
}

/// Whether `s` is a label of a DNS name: one to 63 letters, digits, `_` and
/// `-`, with no `-` at either end.
pub open spec fn is_label(s: Seq<char>) -> bool {
    &&& 1 <= s.len() <= 63
    &&& forall|i: int| 0 <= i < s.len() ==> is_label_char(#[trigger] s[i])
    &&& s[0] != '-'
    &&& s.last() != '-'
}

/// The labels of a DNS name: what stands between its dots, a dot at its end
/// left aside.
pub open spec fn dns_labels(s: Seq<char>) -> Seq<Seq<char>> {
    text::split(
        if s.len() > 0 && s.last() == '.' {
            s.drop_last()
        } else {
            s
        },
        '.',
    )
}

/// Whether `s` is a DNS name: at most 253 characters, labels between dots, and
/// a last label that is no number.
pub open spec fn is_dns_name(s: Seq<char>) -> bool {
    &&& s.len() <= 253
    &&& forall|i: int| 0 <= i < dns_labels(s).len() ==> is_label(#[trigger] dns_labels(s)[i])
    &&& !text::all_digits(dns_labels(s).last())
}

/// The server name that a text spells.
pub open spec fn spelled_name(s: Seq<char>) -> Option<NameView> {
    if is_dns_name(s) {
        Some(NameView::Dns(s))
    } else {
        match ip::ip(s) {
            Some(a) => Some(NameView::Ip(a)),
            None => None,
        }
    }
}

/// Calls `rustls::pki_types::ServerName::try_from` on an owned string, and
/// takes the name out as plain values. A text that is a DNS name spells that
/// name; any other one that is an IP address spells that address; the rest is
/// refused. The enum has no variants but these two.
#[verifier::external_body]
fn name_try_from(s: &str) -> (r: Option<ServerName>)
    ensures
        match r {
            Some(n) => spelled_name(s@) == Some(n@),
            None => spelled_name(s@) is None,
        },
{
    match rustls::pki_types::ServerName::try_from(s.to_string()) {
        Ok(rustls::pki_types::ServerName::DnsName(d)) => {
            Some(ServerName::Dns(d.as_ref().to_string()))
        },
        Ok(rustls::pki_types::ServerName::IpAddress(rustls::pki_types::IpAddr::V4(a))) => {
            Some(ServerName::Ip(IpAddr::V4(u32::from_be_bytes(*a.as_ref()))))
        },
        Ok(rustls::pki_types::ServerName::IpAddress(rustls::pki_types::IpAddr::V6(a))) => {
            Some(ServerName::Ip(IpAddr::V6(u128::from_be_bytes(*a.as_ref()))))
        },
        _ => None,
    }
}

/// Calls `rustls::pki_types::IpAddr::try_from`, and takes the address out as a
/// plain value. It reads the texts of IP addresses and nothing else.
#[verifier::external_body]
fn ip_try_from(s: &str) -> (r: Option<IpAddr>)
    ensures
        r == ip::ip(s@),
{
    match rustls::pki_types::IpAddr::try_from(s) {
        Ok(rustls::pki_types::IpAddr::V4(a)) => Some(IpAddr::V4(u32::from_be_bytes(*a.as_ref()))),
        Ok(rustls::pki_types::IpAddr::V6(a)) => Some(IpAddr::V6(u128::from_be_bytes(*a.as_ref()))),
        Err(_) => None,
    }
}

/// The name to ask for: that of the options, or else the host, or else the
/// host as an IP address (an IPv6 one stands in brackets).
pub open spec fn asked_name(sni: Option<Seq<char>>, host: Seq<char>) -> Option<NameView> {
    match spelled_name(
        match sni {
            Some(s) => s,
            None => host,
        },
    ) {
        Some(n) => Some(n),
        None => match ip::ip(ip::unbracketed(host)) {
            Some(a) => Some(NameView::Ip(a)),
            None => None,
        },
    }
}

fn find_server_name(sni: Option<&str>, host: &str) -> (r: Option<ServerName>)
    ensures
        match r {
            Some(n) => asked_name(sni_text(sni), host@) == Some(n@),
            None => asked_name(sni_text(sni), host@) is None,
        },
{
    let name = match sni {
        Some(s) => name_try_from(s),
        None => name_try_from(host),
    };
    match name {
        Some(n) => Some(n),
        None => match ip_try_from(ip::strip_brackets(host).as_str()) {
            Some(a) => Some(ServerName::Ip(a)),
            None => None,
        },
    }
}

/// The text of an optional name.
pub open spec fn sni_text(sni: Option<&str>) -> Option<Seq<char>> {
    match sni {
        Some(s) => Some(s@),
        None => None,
    }
}

/// Whether there is a name to ask for.
pub fn has_server_name(sni: Option<&str>, host: &str) -> (r: bool)
    ensures
        r == (asked_name(sni_text(sni), host@) is Some),
{
    find_server_name(sni, host).is_some()
}

/// The name that a TLS handshake with `host` asks for: the one of the options
/// (an explicit one or the host name), else the raw host. Where that is no
/// name, the host is taken as an IP address, without the brackets that a URL
/// puts around one of version 6.
pub fn server_name(sni: Option<&str>, host: &str) -> (r: ServerName)
    requires
        asked_name(sni_text(sni), host@) is Some,
    ensures
        asked_name(sni_text(sni), host@) == Some(r@),
{
    match find_server_name(sni, host) {
        Some(n) => n,
        None => vstd::pervasive::unreached(),
    }
}

/// The text of an IP address is never taken for a DNS name.
pub proof fn no_address_is_a_dns_name(s: Seq<char>)
    requires
        ip::ip(s) is Some,
    ensures
        !is_dns_name(s),
{
    let body = if s.len() > 0 && s.last() == '.' {
        s.drop_last()
    } else {
        s
    };
    if ip::ipv4(s) is Some {
        ip::lemma_ipv4_ends_in_digits(s);
    } else {
        ip::lemma_ipv6_has_a_colon(s);
        let i = choose|i: int| 0 <= i < s.len() && s[i] == ':';
        assert(body[i] == ':');
        let at = text::lemma_split_covers(body, '.', i);
        let labels = dns_labels(s);
        assert(!is_label_char(labels[at.0][at.1]));
        assert(!is_label(labels[at.0]));
    }
}

/// What starts with a bracket spells no server name.
proof fn lemma_bracket_spells_no_name(s: Seq<char>)
    requires
        s.len() > 0,
        s[0] == '[',
    ensures
        spelled_name(s) is None,
{
    ip::no_address_starts_with_a_bracket(s);
    let body = if s.last() == '.' {
        s.drop_last()
    } else {
        s
    };
    assert(body[0] == '[');
    let at = text::lemma_split_covers(body, '.', 0);
    let labels = dns_labels(s);
    assert(!is_label_char(labels[at.0][at.1]));
    assert(!is_label(labels[at.0]));
}

/// A host that is an IP address, in brackets or not, always has a name to ask
/// for: where the options give none that can be used, it is the address.
pub proof fn an_address_is_always_a_name(sni: Option<Seq<char>>, host: Seq<char>)
    requires
        ip::ip(ip::unbracketed(host)) is Some,
    ensures
        asked_name(sni, host) is Some,
        (sni matches Some(s) ==> spelled_name(s) is None) ==> asked_name(sni, host) == Some(
            NameView::Ip(ip::ip(ip::unbracketed(host))->0),
        ),
{
    if ip::unbracketed(host) == host {
        no_address_is_a_dns_name(host);
    } else {
        lemma_bracket_spells_no_name(host);
    }
}

// ---------------------------------------------------------------------------
// Addresses and failures
// ---------------------------------------------------------------------------

/// The address of a peer that is reached through a pluggable transport: that
/// of its URL where it carries an IP address. A hostname stays unresolved, for
/// resolving it here would leak it.
pub fn pt_peer_addr(host: &str, port: u16) -> (r: Option<SocketAddr>)
    ensures
        r == ip::socket_addr(host@ + ":"@ + text::decimal(port as nat)),
{
    let mut addr = text::join(host, ":");
    text::push_decimal(&mut addr, port as u64);
    ip::parse_socket_addr(addr.as_str())
}

/// Why a peer could not be reached.
#[derive(Debug)]
pub enum DialProblem {
    /// The connect took too long.
    TimedOut,
    ConnectFailed(String),
    /// The address of the peer could not be told.
    NoPeerAddr(String),
    TlsFailed(String),
    /// The WebSocket handshake or the QUIC dial failed; the text stands alone.
    Other(String),
    /// The transport has no proxy at the moment.
    PtNotReady,
    /// The dial through the transport took too long.
    PtTimedOut,
}

/// What is said of a problem.
pub open spec fn problem_text(p: DialProblem) -> Seq<char> {
    match p {
        DialProblem::TimedOut => "Connection timed out"@,
        DialProblem::ConnectFailed(e) => "Failed to connect: "@ + e@,
        DialProblem::NoPeerAddr(e) => "peer_addr: "@ + e@,
        DialProblem::TlsFailed(e) => "TLS handshake failed: "@ + e@,
        DialProblem::Other(e) => e@,
        DialProblem::PtNotReady => "PT client not ready (process starting or crashed)"@,
        DialProblem::PtTimedOut => "PT dial timed out"@,
    }
}

impl DialProblem {
    /// What is said of it.
    pub fn message(self) -> (r: String)
        ensures
            r@ == problem_text(self),
    {
        match self {
            DialProblem::TimedOut => "Connection timed out".to_owned(),
            DialProblem::ConnectFailed(e) => text::join("Failed to connect: ", e.as_str()),
            DialProblem::NoPeerAddr(e) => text::join("peer_addr: ", e.as_str()),
            DialProblem::TlsFailed(e) => text::join("TLS handshake failed: ", e.as_str()),
            DialProblem::Other(e) => e,
            DialProblem::PtNotReady => {
                "PT client not ready (process starting or crashed)".to_owned()
            },
            DialProblem::PtTimedOut => "PT dial timed out".to_owned(),
        }
    }
}

// ---------------------------------------------------------------------------
// Laws
// ---------------------------------------------------------------------------

/// A stream that is ready ends in the layer that it has reached, and only where
/// no layer of its scheme is missing: it is never handed over before a TLS or
/// WebSocket handshake that its scheme asks for.
pub proof fn streams_are_ready_in_their_last_layer(layers: Layers, top: Layer)
    ensures
        ({
            let last = if layers.ws {
                Layer::Ws
            } else if layers.tls {
                Layer::Tls
            } else {
                Layer::Tcp
            };
            &&& after_layer(layers, last) == LayerStep::Ready(last)
            &&& after_layer(layers, top) matches LayerStep::Ready(l) ==> l == top
            &&& top == Layer::Tcp && (layers.tls || layers.ws) ==> after_layer(
                layers,
                top,
            ) is Handshake
            &&& top == Layer::Tls && layers.ws ==> after_layer(layers, top) == LayerStep::Handshake(
                Layer::Ws,
            )
            &&& after_layer(layers, top) == LayerStep::Handshake(Layer::Tls) ==> layers.tls && top
                == Layer::Tcp
            &&& after_layer(layers, top) == LayerStep::Handshake(Layer::Ws) ==> layers.ws && (
            layers.tls ==> top == Layer::Tls)
        }),
{
}

/// Labels of one to 63 letters, digits, `_` and `-`, with no `-` at either end,
/// with dots between them are a DNS name, where they have at most 253
/// characters in all and the last one is no number.
pub proof fn dns_names_are_labels_between_dots(labels: Seq<Seq<char>>)
    requires
        labels.len() > 0,
        forall|i: int| 0 <= i < labels.len() ==> is_plain_label(#[trigger] labels[i]),
        !text::all_digits(labels.last()),
        text::joined(labels, '.').len() <= 253,
    ensures
        is_dns_name(text::joined(labels, '.')),
        spelled_name(text::joined(labels, '.')) == Some(
            NameView::Dns(text::joined(labels, '.')),
        ),
        asked_name(None, text::joined(labels, '.')) == Some(
            NameView::Dns(text::joined(labels, '.')),
        ),
{
    let s = text::joined(labels, '.');
    assert forall|i: int| 0 <= i < labels.len() implies !(#[trigger] labels[i]).contains('.')
        && is_label(labels[i]) by {
        let l = labels[i];
        assert(is_plain_label(l));
        assert forall|j: int| 0 <= j < l.len() implies l[j] != '.' && is_label_char(
            #[trigger] l[j],
        ) by {
            assert(is_plain_char(l[j]));
        }
    }
    text::joined_pieces_split(labels, '.');
    text::lemma_split_last(s, '.');
    let e = labels.last();
    assert(is_plain_label(labels[labels.len() - 1]));
    assert(s.skip(s.len() - e.len()).last() == s.last());
    assert(is_plain_char(e[e.len() - 1]));
    assert(dns_labels(s) == labels);
}

/// Whether `c` is an ASCII letter, a digit, `_` or `-`.
pub open spec fn is_plain_char(c: char) -> bool {
    'a' <= c <= 'z' || 'A' <= c <= 'Z' || '0' <= c <= '9' || c == '_' || c == '-'
}

/// Whether `s` is one to 63 letters, digits, `_` and `-` with no `-` at either
/// end.
pub open spec fn is_plain_label(s: Seq<char>) -> bool {
    &&& 1 <= s.len() <= 63
    &&& s[0] != '-'
    &&& s.last() != '-'
    &&& forall|i: int| 0 <= i < s.len() ==> is_plain_char(#[trigger] s[i])
}

/// A name that the options give is asked for wherever it spells one, and the
/// host never in its place; without one, the host is. Where neither spells a
/// name, there is one to ask for exactly where the host is an address.
pub proof fn the_name_of_the_options_comes_first(sni: Option<Seq<char>>, host: Seq<char>)
    ensures
        sni matches Some(s) ==> (spelled_name(s) is Some ==> asked_name(sni, host) == spelled_name(
            s,
        )),
        sni is None && spelled_name(host) is Some ==> asked_name(sni, host) == spelled_name(host),
        sni matches Some(s) ==> (spelled_name(s) is None ==> (asked_name(sni, host) is Some
            <==> ip::ip(ip::unbracketed(host)) is Some)),
        sni is None && spelled_name(host) is None ==> (asked_name(sni, host) is Some <==> ip::ip(
            ip::unbracketed(host),
        ) is Some),
{
}

/// Why a peer could not be reached is said with what was tried.
pub proof fn dial_problems_are_named(e: String)
    ensures
        problem_text(DialProblem::TimedOut) == "Connection timed out"@,
        problem_text(DialProblem::ConnectFailed(e)) == "Failed to connect: "@ + e@,
        problem_text(DialProblem::NoPeerAddr(e)) == "peer_addr: "@ + e@,
        problem_text(DialProblem::TlsFailed(e)) == "TLS handshake failed: "@ + e@,
        problem_text(DialProblem::Other(e)) == e@,
        problem_text(DialProblem::PtNotReady)
            == "PT client not ready (process starting or crashed)"@,
        problem_text(DialProblem::PtTimedOut) == "PT dial timed out"@,
{
}

/// The host and port of a URL give the address of a peer behind a transport
/// wherever the host is an IP address, one of version 6 in brackets.
pub proof fn transports_are_told_literal_addresses(a: Seq<char>, port: u16)
    requires
        ip::ip(a) is Some,
    ensures
        ({
            let host = if ip::ip(a)->0 is V4 {
                a
            } else {
                seq!['['] + a + seq![']']
            };
            ip::socket_addr(host + ":"@ + text::decimal(port as nat)) == Some(
                SocketAddr { ip: ip::ip(a)->0, port, scope_id: 0 },
            )
        }),
{
    reveal_strlit(":");
    assert(":"@ =~= seq![':']);
    let p = text::decimal(port as nat);
    if ip::ip(a)->0 is V4 {
        ip::ipv4_socket_addresses_are_read(a, port);
    } else {
        ip::ipv6_socket_addresses_are_read(a, port, 0);
        assert(seq!['['] + a + seq![']'] + ":"@ + p =~= seq!['['] + a + seq![']', ':'] + p);
    }
}

/// A connect has five seconds, and a minute through a pluggable transport.
pub proof fn dials_have_limits()
    ensures
        DIAL_TIMEOUT == 5,
        PT_DIAL_TIMEOUT == 60,
{
}

} // verus!

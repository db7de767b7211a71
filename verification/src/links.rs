//! The configured links: peers to reach, addresses to listen on, and the
//! pluggable transports that both may use.
//!
//! Tasks, the core and the channels of transport processes belong to the
//! caller; `Links` holds a handle `T` for each task, the core `C`, and for
//! each transport a receiver `R` of the address of its proxy.
use vstd::prelude::*;

use crate::active;
use crate::active::{ActiveLinks, PeerEvent, PeerEventView};
use crate::dial::Layers;
use crate::ip::{IpAddr, SocketAddr};
use crate::link_url;
use crate::link_url::LinkUrl;
use crate::options;
use crate::options::LinkOptions;
use crate::pt_process;
use crate::pt_process::PluggableTransportConfig;
use crate::table;
use crate::table::StringTable;
use crate::text;

verus! {

/// Maximum concurrent incoming connections being processed, over all
/// listeners.
pub const MAX_CONCURRENT_INCOMING: usize = 350;

/// How long, in milliseconds, a listener waits after it failed to accept.
pub const ACCEPT_RETRY: u64 = 100;

/// How long, in seconds, a transport process has in all to shut down.
pub const PT_TEARDOWN_TIMEOUT: u64 = 6;

/// The transports that are built in beside TCP and TLS.
#[derive(Clone, Copy, Debug, PartialEq, Eq, Structural)]
pub struct Features {
    pub ws: bool,
    pub quic: bool,
    pub pt: bool,
}

// ---------------------------------------------------------------------------
// Schemes
// ---------------------------------------------------------------------------

/// Whether a scheme belongs to a transport of our own; no pluggable transport
/// may shadow it.
pub open spec fn is_reserved(scheme: Seq<char>) -> bool {
    ||| scheme == "tcp"@
    ||| scheme == "tls"@
    ||| scheme == "ws"@
    ||| scheme == "wss"@
    ||| scheme == "quic"@
}

/// The way that a URL is reached or listened on.
#[derive(Clone, Copy, Debug, PartialEq, Eq, Structural)]
pub enum Route {
    /// A TCP stream with layers on top.
    Stream(Layers),
    Quic,
    /// A pluggable transport of the name of the scheme.
    Pt,
}

/// The route of a scheme, where `pt` says whether there is a pluggable
/// transport of its name, or why there is none.
pub open spec fn route(
    features: Features,
    scheme: Seq<char>,
    pt: bool,
) -> Result<Route, Seq<char>> {
    if scheme == "tcp"@ {
        Ok(Route::Stream(Layers { tls: false, ws: false }))
    } else if scheme == "tls"@ {
        Ok(Route::Stream(Layers { tls: true, ws: false }))
    } else if scheme == "ws"@ && features.ws {
        Ok(Route::Stream(Layers { tls: false, ws: true }))
    } else if scheme == "wss"@ && features.ws {
        Ok(Route::Stream(Layers { tls: true, ws: true }))
    } else if scheme == "quic"@ && features.quic {
        Ok(Route::Quic)
    } else if scheme == "ws"@ || scheme == "wss"@ {
        Err("ws/wss support not compiled in (enable the `ws` feature)"@)
    } else if scheme == "quic"@ {
        Err("quic support not compiled in (enable the `quic` feature)"@)
    } else if pt {
        Ok(Route::Pt)
    } else {
        Err("unsupported scheme: "@ + scheme)
    }
}

proof fn lemma_schemes_differ()
    ensures
        "ws"@ != "wss"@,
        "ws"@ != "quic"@,
        "wss"@ != "quic"@,
{
    reveal_strlit("ws");
    reveal_strlit("wss");
    reveal_strlit("quic");
    assert("ws"@.len() == 2 && "wss"@.len() == 3 && "quic"@.len() == 4);
}

fn find_route(features: Features, scheme: &str, pt: bool) -> (r: Result<Route, String>)
    ensures
        match r {
            Ok(way) => route(features, scheme@, pt) == Ok::<Route, Seq<char>>(way),
            Err(e) => route(features, scheme@, pt) == Err::<Route, Seq<char>>(e@),
        },
{
    proof {
        lemma_schemes_differ();
    }
    if text::same_text(scheme, "tcp") {
        return Ok(Route::Stream(Layers { tls: false, ws: false }));
    }
    if text::same_text(scheme, "tls") {
        return Ok(Route::Stream(Layers { tls: true, ws: false }));
    }
    let ws = text::same_text(scheme, "ws");
    let wss = text::same_text(scheme, "wss");
    if ws || wss {
        if features.ws {
            return Ok(Route::Stream(Layers { tls: wss, ws: true }));
        }
        return Err("ws/wss support not compiled in (enable the `ws` feature)".to_owned());
    }
    if text::same_text(scheme, "quic") {
        if features.quic {
            return Ok(Route::Quic);
        }
        return Err("quic support not compiled in (enable the `quic` feature)".to_owned());
    }
    if pt {
        Ok(Route::Pt)
    } else {
        Err(text::join("unsupported scheme: ", scheme))
    }
}

fn reserved(scheme: &str) -> (r: bool)
    ensures
        r == is_reserved(scheme@),
{
    text::same_text(scheme, "tcp") || text::same_text(scheme, "tls") || text::same_text(
        scheme,
        "ws",
    ) || text::same_text(scheme, "wss") || text::same_text(scheme, "quic")
}

// ---------------------------------------------------------------------------
// Addresses
// ---------------------------------------------------------------------------

/// The order of IP addresses: all of version 4 before all of version 6.
pub open spec fn ip_less(a: IpAddr, b: IpAddr) -> bool {
    match (a, b) {
        (IpAddr::V4(x), IpAddr::V4(y)) => x < y,
        (IpAddr::V4(_), IpAddr::V6(_)) => true,
        (IpAddr::V6(_), IpAddr::V4(_)) => false,
        (IpAddr::V6(x), IpAddr::V6(y)) => x < y,
    }
}

/// The order of socket addresses: by IP address, then by port, then by zone.
pub open spec fn addr_less(a: SocketAddr, b: SocketAddr) -> bool {
    ||| ip_less(a.ip, b.ip)
    ||| a.ip == b.ip && a.port < b.port
    ||| a.ip == b.ip && a.port == b.port && a.scope_id < b.scope_id
}

fn ip_before(a: IpAddr, b: IpAddr) -> (r: bool)
    ensures
        r == ip_less(a, b),
{
    match (a, b) {
        (IpAddr::V4(x), IpAddr::V4(y)) => x < y,
        (IpAddr::V4(_), IpAddr::V6(_)) => true,
        (IpAddr::V6(_), IpAddr::V4(_)) => false,
        (IpAddr::V6(x), IpAddr::V6(y)) => x < y,
    }
}

fn addr_before(a: SocketAddr, b: SocketAddr) -> (r: bool)
    ensures
        r == addr_less(a, b),
{
    ip_before(a.ip, b.ip) || (a.ip == b.ip && (a.port < b.port || (a.port == b.port && a.scope_id
        < b.scope_id)))
}

/// An address that a host name resolves to, and its text.
#[derive(Debug)]
pub struct Resolved {
    pub addr: SocketAddr,
    pub text: String,
}

/// The text of the least of a row of addresses whose text is in `among`; of
/// equal addresses, that of the first.
pub open spec fn least(rs: Seq<Resolved>, among: Set<Seq<char>>) -> Option<Resolved>
    decreases rs.len(),
{
    if rs.len() == 0 {
        None
    } else {
        let before = least(rs.drop_last(), among);
        if among.contains(rs.last().text@) && (before matches Some(b) ==> addr_less(
            rs.last().addr,
            b.addr,
        )) {
            Some(rs.last())
        } else {
            before
        }
    }
}

/// What `least` returns is among those asked for and not above any of them.
pub proof fn least_is_least(rs: Seq<Resolved>, among: Set<Seq<char>>, i: int)
    requires
        0 <= i < rs.len(),
        among.contains(rs[i].text@),
    ensures
        least(rs, among) matches Some(r) && rs.contains(r) && among.contains(r.text@) && !addr_less(
            rs[i].addr,
            r.addr,
        ),
    decreases rs.len(),
{
    let t = rs.drop_last();
    if i < t.len() {
        assert(t[i] == rs[i]);
        least_is_least(t, among, i);
    }
    lemma_least_is_member(rs, among);
}

proof fn lemma_least_is_member(rs: Seq<Resolved>, among: Set<Seq<char>>)
    ensures
        least(rs, among) matches Some(r) ==> rs.contains(r) && among.contains(r.text@),
    decreases rs.len(),
{
    if rs.len() > 0 {
        let t = rs.drop_last();
        lemma_least_is_member(t, among);
        if let Some(b) = least(t, among) {
            let k = choose|k: int| 0 <= k < t.len() && t[k] == b;
            assert(rs[k] == b);
        }
        assert(rs[rs.len() - 1] == rs.last());
    }
}

fn find_least(rs: &Vec<Resolved>, known: &StringTable<String>) -> (r: Option<usize>)
    requires
        known.wf(),
    ensures
        match r {
            Some(i) => i < rs@.len() && least(rs@, known@.dom()) == Some(rs@[i as int]),
            None => least(rs@, known@.dom()) is None,
        },
{
    let ghost among = known@.dom();
    let mut best: Option<usize> = None;
    let mut i: usize = 0;
    while i < rs.len()
        invariant
            known.wf(),
            among == known@.dom(),
            i <= rs@.len(),
            match best {
                Some(b) => b < i && least(rs@.take(i as int), among) == Some(rs@[b as int]),
                None => least(rs@.take(i as int), among) is None,
            },
        decreases rs@.len() - i,
    {
        proof {
            let t = rs@.take(i + 1);
            assert(t.drop_last() =~= rs@.take(i as int));
            assert(t.last() == rs@[i as int]);
        }
        if known.contains_key(rs[i].text.as_str()) {
            let better = match best {
                Some(b) => addr_before(rs[i].addr, rs[b].addr),
                None => true,
            };
            if better {
                best = Some(i);
            }
        }
        i = i + 1;
    }
    assert(rs@.take(i as int) =~= rs@);
    best
}

fn texts_of(rs: &Vec<Resolved>) -> (r: Vec<String>)
    ensures
        text::string_texts(r@) == addr_texts(rs@),
{
    let mut out: Vec<String> = Vec::new();
    let mut i: usize = 0;
    while i < rs.len()
        invariant
            i <= rs@.len(),
            out@.len() == i,
            forall|j: int| 0 <= j < i ==> (#[trigger] out@[j])@ == rs@[j].text@,
        decreases rs@.len() - i,
    {
        out.push(rs[i].text.clone());
        i = i + 1;
    }
    assert(text::string_texts(out@) =~= addr_texts(rs@));
    out
}

// ---------------------------------------------------------------------------
// Errors of peers
// ---------------------------------------------------------------------------

/// The last error of each configured peer.
#[derive(Debug)]
pub struct PeerErrors {
    table: StringTable<Option<String>>,
}

impl View for PeerErrors {
    type V = Map<Seq<char>, Option<Seq<char>>>;

    closed spec fn view(&self) -> Map<Seq<char>, Option<Seq<char>>> {
        self.table@.map_values(|e: Option<String>| text::option_text(e))
    }
}

impl PeerErrors {
    /// No peer occurs twice.
    pub closed spec fn wf(&self) -> bool {
        self.table.wf()
    }

    /// No errors.
    pub fn new() -> (r: Self)
        ensures
            r.wf(),
            r@ == Map::<Seq<char>, Option<Seq<char>>>::empty(),
    {
        let r = PeerErrors { table: StringTable::new() };
        assert(r@ =~= Map::<Seq<char>, Option<Seq<char>>>::empty());
        r
    }

    /// Notes the last error of a peer, or that it has none.
    pub fn record(&mut self, uri: &str, error: Option<String>)
        requires
            old(self).wf(),
        ensures
            final(self).wf(),
            final(self)@ == old(self)@.insert(uri@, text::option_text(error)),
    {
        let _ = self.table.insert(uri.to_owned(), error);
        assert(self@ =~= old(self)@.insert(uri@, text::option_text(error)));
    }

    /// Forgets a peer.
    pub fn remove(&mut self, uri: &str)
        requires
            old(self).wf(),
        ensures
            final(self).wf(),
            final(self)@ == old(self)@.remove(uri@),
    {
        let _ = self.table.remove(uri);
        assert(self@ =~= old(self)@.remove(uri@));
    }

    /// The last error of a peer.
    pub fn last_error(&self, uri: &str) -> (r: Option<String>)
        requires
            self.wf(),
        ensures
            text::option_text(r) == if self@.contains_key(uri@) {
                self@[uri@]
            } else {
                None
            },
    {
        match self.table.get(uri) {
            Some(e) => match e {
                Some(m) => Some(m.clone()),
                None => None,
            },
            None => None,
        }
    }
}

// ---------------------------------------------------------------------------
// Plans
// ---------------------------------------------------------------------------

/// Where a peer is: its host, its port, and both as one text.
#[derive(Debug)]
pub struct PeerTarget {
    pub host: String,
    pub port: u16,
    pub target: String,
}

/// Where a peer is, in mathematical terms.
pub struct TargetView {
    pub host: Seq<char>,
    pub port: u16,
    pub target: Seq<char>,
}

impl View for PeerTarget {
    type V = TargetView;

    open spec fn view(&self) -> TargetView {
        TargetView { host: self.host@, port: self.port, target: self.target@ }
    }
}

/// Where the peer of a URL is, or what the URL lacks.
pub open spec fn target(url: link_url::UrlParts) -> Result<TargetView, Seq<char>> {
    match url.host {
        None => Err("missing host"@),
        Some(host) => match url.port {
            None => Err("missing port"@),
            Some(port) => Ok(
                TargetView { host, port, target: host + ":"@ + text::decimal(port as nat) },
            ),
        },
    }
}

/// Where the peer of a URL is. A port that the URL omits is the one that is
/// known for its scheme (80 for `ws`, 443 for `wss`).
pub fn peer_target(url: &LinkUrl) -> (r: Result<PeerTarget, String>)
    ensures
        match r {
            Ok(t) => target(url@) == Ok::<TargetView, Seq<char>>(t@),
            Err(e) => target(url@) == Err::<TargetView, Seq<char>>(e@),
        },
{
    match &url.host {
        None => Err("missing host".to_owned()),
        Some(host) => match url.port {
            None => Err("missing port".to_owned()),
            Some(port) => {
                let mut whole = text::join(host.as_str(), ":");
                text::push_decimal(&mut whole, port as u64);
                Ok(PeerTarget { host: host.clone(), port, target: whole })
            },
        },
    }
}

/// What a peer is added with.
#[derive(Debug)]
pub struct PeerPlan {
    pub options: LinkOptions,
    /// The texts of all addresses that the peer resolves to.
    pub addr_keys: Vec<String>,
    /// The arguments of its transport.
    pub pt_args: Vec<(String, String)>,
}

/// What a peer is added with, in mathematical terms.
pub struct PeerPlanView {
    pub options: options::OptionsView,
    pub addr_keys: Seq<Seq<char>>,
    pub pt_args: Seq<(Seq<char>, Seq<char>)>,
}

impl View for PeerPlan {
    type V = PeerPlanView;

    open spec fn view(&self) -> PeerPlanView {
        PeerPlanView {
            options: self.options@,
            addr_keys: text::string_texts(self.addr_keys@),
            pt_args: text::pair_texts(self.pt_args@),
        }
    }
}

/// What is listened with.
#[derive(Debug)]
pub struct ListenPlan {
    pub route: Route,
    /// The address to listen on, and its text.
    pub bind: Resolved,
    pub options: LinkOptions,
    /// The pluggable transport of the scheme, and its options.
    pub pt_config: Option<PluggableTransportConfig>,
    pub server_options: Vec<(String, String)>,
}

/// What is listened with, in mathematical terms.
pub struct ListenPlanView {
    pub route: Route,
    pub bind: (SocketAddr, Seq<char>),
    pub options: options::OptionsView,
    pub pt_config: Option<pt_process::TransportView>,
    pub server_options: Seq<(Seq<char>, Seq<char>)>,
}

/// The view of an optional transport.
pub open spec fn config_view(c: Option<PluggableTransportConfig>) -> Option<
    pt_process::TransportView,
> {
    match c {
        Some(c) => Some(c@),
        None => None,
    }
}

impl View for ListenPlan {
    type V = ListenPlanView;

    open spec fn view(&self) -> ListenPlanView {
        ListenPlanView {
            route: self.route,
            bind: (self.bind.addr, self.bind.text@),
            options: self.options@,
            pt_config: config_view(self.pt_config),
            server_options: text::pair_texts(self.server_options@),
        }
    }
}

// ---------------------------------------------------------------------------
// Links
// ---------------------------------------------------------------------------

/// Manages TCP peer connections and listeners.
#[derive(Debug)]
pub struct Links<C, T, R> {
    features: Features,
    core: Option<C>,
    peers: StringTable<T>,
    /// Track resolved IP:port to detect duplicate peers (e.g., same host via
    /// IP and domain): "IP:port" -> original URI.
    peer_addrs: StringTable<String>,
    listeners: StringTable<T>,
    rate_handle: Option<T>,
    /// PT protocol name -> config (used when routing peer/listen schemes).
    pt_configs: StringTable<PluggableTransportConfig>,
    /// PT protocol name -> receiver of the current SOCKS5 proxy address.
    pt_client_rxs: StringTable<R>,
    /// Manager task handles, kept for as long as the links are.
    pt_client_tasks: Vec<T>,
}

/// The configured links, in mathematical terms.
#[verifier::ext_equal]
pub struct LinksView<C, T, R> {
    pub features: Features,
    pub core: Option<C>,
    pub peers: Map<Seq<char>, T>,
    pub peer_addrs: Map<Seq<char>, Seq<char>>,
    pub listeners: Map<Seq<char>, T>,
    pub rate_handle: Option<T>,
    pub pt_configs: Map<Seq<char>, pt_process::TransportView>,
    pub pt_client_rxs: Map<Seq<char>, R>,
    pub pt_client_tasks: Seq<T>,
}

impl<C, T, R> View for Links<C, T, R> {
    type V = LinksView<C, T, R>;

    closed spec fn view(&self) -> LinksView<C, T, R> {
        LinksView {
            features: self.features,
            core: self.core,
            peers: self.peers@,
            peer_addrs: self.peer_addrs@.map_values(|s: String| s@),
            listeners: self.listeners@,
            rate_handle: self.rate_handle,
            pt_configs: self.pt_configs@.map_values(|c: PluggableTransportConfig| c@),
            pt_client_rxs: self.pt_client_rxs@,
            pt_client_tasks: self.pt_client_tasks@,
        }
    }
}

/// What always holds of the configured links: an address belongs to a peer
/// that is there; a pluggable transport is known by a valid scheme in lower
/// case that is not one of our own; only such a transport has a client.
pub open spec fn sound<C, T, R>(v: LinksView<C, T, R>) -> bool {
    &&& forall|a: Seq<char>| #[trigger]
        v.peer_addrs.contains_key(a) ==> v.peers.contains_key(v.peer_addrs[a])
    &&& forall|p: Seq<char>| #[trigger]
        v.pt_configs.contains_key(p) ==> {
            &&& v.features.pt
            &&& link_url::valid_scheme(p)
            &&& link_url::lower_text(p) == p
            &&& !is_reserved(p)
            &&& v.pt_configs[p].protocol == p
        }
    &&& forall|p: Seq<char>| #[trigger]
        v.pt_client_rxs.contains_key(p) ==> v.pt_configs.contains_key(p)
}

/// Links that nothing was configured for.
pub open spec fn no_links<C, T, R>(features: Features) -> LinksView<C, T, R> {
    LinksView {
        features,
        core: None,
        peers: Map::empty(),
        peer_addrs: Map::empty(),
        listeners: Map::empty(),
        rate_handle: None,
        pt_configs: Map::empty(),
        pt_client_rxs: Map::empty(),
        pt_client_tasks: seq![],
    }
}

/// The transports after one more was configured: one whose name is reserved,
/// no valid scheme, or taken is ignored. The name is taken in lower case, as
/// the schemes of URLs are.
pub open spec fn with_transport(
    m: Map<Seq<char>, pt_process::TransportView>,
    cfg: pt_process::TransportView,
) -> Map<Seq<char>, pt_process::TransportView> {
    let name = link_url::lower_text(cfg.protocol);
    if is_reserved(name) || !link_url::valid_scheme(name) || m.contains_key(name) {
        m
    } else {
        m.insert(name, pt_process::TransportView { protocol: name, ..cfg })
    }
}

/// The transports after a row of them was configured.
pub open spec fn with_transports(
    m: Map<Seq<char>, pt_process::TransportView>,
    configs: Seq<PluggableTransportConfig>,
) -> Map<Seq<char>, pt_process::TransportView>
    decreases configs.len(),
{
    if configs.len() == 0 {
        m
    } else {
        with_transport(with_transports(m, configs.drop_last()), configs.last()@)
    }
}

/// The route of a URL.
pub open spec fn url_route<C, T, R>(v: LinksView<C, T, R>, url: link_url::UrlParts) -> Result<
    Route,
    Seq<char>,
> {
    route(v.features, url.scheme, v.pt_configs.contains_key(url.scheme))
}

/// The message about a peer that another one stands in the way of.
pub open spec fn already_connected(uri: Seq<char>, existing: Seq<char>, addr: Seq<char>) -> Seq<
    char,
> {
    "peer "@ + uri + " already connected as "@ + existing + " (resolves to same address "@ + addr
        + ")"@
}

/// The addresses of a peer that are looked at.
pub open spec fn addresses(way: Route, resolved: Option<Seq<Resolved>>) -> Seq<Resolved> {
    if way == Route::Pt || resolved is None {
        seq![]
    } else {
        resolved->0
    }
}

/// The texts of a row of addresses.
pub open spec fn addr_texts(rs: Seq<Resolved>) -> Seq<Seq<char>> {
    Seq::new(rs.len(), |i: int| rs[i].text@)
}

/// The addresses by which peers are known, once a peer has some more.
pub open spec fn with_addresses(
    m: Map<Seq<char>, Seq<char>>,
    keys: Seq<Seq<char>>,
    uri: Seq<char>,
) -> Map<Seq<char>, Seq<char>>
    decreases keys.len(),
{
    if keys.len() == 0 {
        m
    } else {
        with_addresses(m, keys.drop_last(), uri).insert(keys.last(), uri)
    }
}

/// What a peer is added with, or why it is refused. Its addresses are not
/// looked at where it is reached through a transport, which resolves its name
/// itself.
pub open spec fn peer_plan<C, T, R>(
    v: LinksView<C, T, R>,
    uri: Seq<char>,
    url: link_url::UrlParts,
    way: Route,
    resolved: Option<Seq<Resolved>>,
) -> Result<PeerPlanView, Seq<char>> {
    let rs = addresses(way, resolved);
    match least(rs, v.peer_addrs.dom()) {
        Some(r) => Err(already_connected(uri, v.peer_addrs[r.text@], r.text@)),
        None => match options::link_options(url) {
            options::OptionText::Options(o) => match v.core {
                Some(_) => Ok(
                    PeerPlanView {
                        options: o,
                        addr_keys: addr_texts(rs),
                        pt_args: if way == Route::Pt {
                            link_url::pt_args(url.query)
                        } else {
                            seq![]
                        },
                    },
                ),
                None => Err("core not initialized"@),
            },
            options::OptionText::Refused(e) => Err(e),
            options::OptionText::OutOfRange => Err(seq![]),
        },
    }
}

/// What is listened with, or why it is refused. `resolved` is what the host of
/// the URL resolves to.
pub open spec fn listen_plan<C, T, R>(
    v: LinksView<C, T, R>,
    url: link_url::UrlParts,
    resolved: Result<Seq<Resolved>, Seq<char>>,
) -> Result<ListenPlanView, Seq<char>> {
    match resolved {
        Err(e) => Err("invalid address: "@ + e),
        Ok(rs) => if rs.len() == 0 {
            Err("no address resolved"@)
        } else {
            match options::link_options(url) {
                options::OptionText::Options(o) => if v.core is None {
                    Err("core not initialized"@)
                } else {
                    match url_route(v, url) {
                        Ok(way) => Ok(
                            ListenPlanView {
                                route: way,
                                bind: (rs[0].addr, rs[0].text@),
                                options: o,
                                pt_config: if way == Route::Pt {
                                    Some(v.pt_configs[url.scheme])
                                } else {
                                    None
                                },
                                server_options: if way == Route::Pt {
                                    link_url::pt_args(url.query)
                                } else {
                                    seq![]
                                },
                            },
                        ),
                        Err(e) => Err(e),
                    }
                },
                options::OptionText::Refused(e) => Err(e),
                options::OptionText::OutOfRange => Err(seq![]),
            }
        },
    }
}

/// What a resolution came to, in mathematical terms.
pub open spec fn resolution(r: Result<Vec<Resolved>, String>) -> Result<Seq<Resolved>, Seq<char>> {
    match r {
        Ok(v) => Ok(v@),
        Err(e) => Err(e@),
    }
}

/// The addresses of a lookup, in mathematical terms.
pub open spec fn lookup(r: Option<Vec<Resolved>>) -> Option<Seq<Resolved>> {
    match r {
        Some(v) => Some(v@),
        None => None,
    }
}

/// All tasks that are to be ended.
#[derive(Debug)]
pub struct Closed<T> {
    pub rate_handle: Option<T>,
    pub listeners: Vec<(String, T)>,
    pub peers: Vec<(String, T)>,
    /// These get time to shut their processes down.
    pub pt_client_tasks: Vec<T>,
}

impl Route {
    /// Whether the host of a peer is resolved before it is dialled. A pluggable
    /// transport resolves it inside its own channel; to resolve it here would
    /// leak a plaintext DNS query for it.
    pub fn resolves(&self) -> (r: bool)
        ensures
            r == (*self != Route::Pt),
    {
        match self {
            Route::Pt => false,
            _ => true,
        }
    }
}

impl<C, T, R> Links<C, T, R> {
    /// No entry occurs twice, and what always holds of the links does.
    pub closed spec fn wf(&self) -> bool {
        &&& self.peers.wf()
        &&& self.peer_addrs.wf()
        &&& self.listeners.wf()
        &&& self.pt_configs.wf()
        &&& self.pt_client_rxs.wf()
        &&& sound(self@)
    }

    /// No links.
    pub fn new(features: Features) -> (r: Self)
        ensures
            r.wf(),
            sound(r@),
            r@ == no_links::<C, T, R>(features),
    {
        let r = Links {
            features,
            core: None,
            peers: StringTable::new(),
            peer_addrs: StringTable::new(),
            listeners: StringTable::new(),
            rate_handle: None,
            pt_configs: StringTable::new(),
            pt_client_rxs: StringTable::new(),
            pt_client_tasks: Vec::new(),
        };
        assert(r@ =~= no_links::<C, T, R>(features));
        r
    }

    /// Set the core reference, and the task that updates rates and cleans up
    /// the ban list. Must be called before peers are added or addresses
    /// listened on. Returns the task that it replaces.
    pub fn set_core(&mut self, core: C, rate_handle: T) -> (r: Option<T>)
        requires
            old(self).wf(),
        ensures
            final(self).wf(),
            final(self)@ == (LinksView {
                core: Some(core),
                rate_handle: Some(rate_handle),
                ..old(self)@
            }),
            r == old(self)@.rate_handle,
    {
        self.core = Some(core);
        let mut task = Some(rate_handle);
        std::mem::swap(&mut self.rate_handle, &mut task);
        assert(sound(self@));
        task
    }

    /// The core, which must have been set.
    pub fn require_core(&self) -> (r: Result<&C, String>)
        ensures
            match r {
                Ok(c) => self@.core == Some(*c),
                Err(e) => self@.core is None && e@ == "core not initialized"@,
            },
    {
        match &self.core {
            Some(c) => Ok(c),
            None => Err("core not initialized".to_owned()),
        }
    }

    /// Get the list of all configured (outbound) peer URIs with their last
    /// errors, in some order.
    pub fn get_configured_peers(&self, errors: &PeerErrors) -> (r: Vec<(String, Option<String>)>)
        requires
            self.wf(),
            errors.wf(),
        ensures
            forall|i: int, j: int|
                0 <= i < j < r@.len() ==> (#[trigger] r@[i]).0@ != (#[trigger] r@[j]).0@,
            forall|i: int|
                0 <= i < r@.len() ==> self@.peers.contains_key((#[trigger] r@[i]).0@)
                    && text::option_text(r@[i].1) == if errors@.contains_key(r@[i].0@) {
                    errors@[r@[i].0@]
                } else {
                    None
                },
            forall|uri: Seq<char>|
                self@.peers.contains_key(uri) ==> exists|i: int|
                    0 <= i < r@.len() && (#[trigger] r@[i]).0@ == uri,
    {
        let uris = self.peers.keys();
        let mut out: Vec<(String, Option<String>)> = Vec::new();
        let mut i: usize = 0;
        while i < uris.len()
            invariant
                errors.wf(),
                i <= uris@.len(),
                out@.len() == i,
                forall|j: int|
                    0 <= j < i ==> (#[trigger] out@[j]).0@ == uris@[j]@ && text::option_text(
                        out@[j].1,
                    ) == if errors@.contains_key(uris@[j]@) {
                        errors@[uris@[j]@]
                    } else {
                        None
                    },
            decreases uris@.len() - i,
        {
            let error = errors.last_error(uris[i].as_str());
            out.push((uris[i].clone(), error));
            i = i + 1;
        }
        proof {
            assert forall|uri: Seq<char>| self@.peers.contains_key(uri) implies exists|i: int|
                0 <= i < out@.len() && (#[trigger] out@[i]).0@ == uri by {
                let k = choose|k: int| 0 <= k < uris@.len() && (#[trigger] uris@[k])@ == uri;
                assert(out@[k].0@ == uri);
            }
            assert forall|i: int, j: int| 0 <= i < j < out@.len() implies (#[trigger] out@[i]).0@
                != (#[trigger] out@[j]).0@ by {
                assert(uris@[i]@ != uris@[j]@);
            }
            assert forall|i: int| 0 <= i < out@.len() implies self@.peers.contains_key(
                (#[trigger] out@[i]).0@,
            ) by {
                assert(self@.peers.contains_key(uris@[i]@));
            }
        }
        out
    }

    /// Register Pluggable Transport configs so peers/listeners can reference
    /// them by URL scheme.
    ///
    /// This only records the configs; the client process of a protocol is
    /// started the first time a peer actually uses that scheme, so a
    /// bridge-server-only node never runs an idle PT client.
    pub fn load_pluggable_transports(&mut self, configs: &[PluggableTransportConfig])
        requires
            old(self).wf(),
        ensures
            final(self).wf(),
            final(self)@ == (LinksView {
                pt_configs: if old(self)@.features.pt {
                    with_transports(old(self)@.pt_configs, configs@)
                } else {
                    old(self)@.pt_configs
                },
                ..old(self)@
            }),
    {
        let ghost before = self@;
        if !self.features.pt {
            assert(self@ =~= LinksView { pt_configs: before.pt_configs, ..before });
            return;
        }
        let mut i: usize = 0;
        assert(configs@.take(0) =~= seq![]);
        while i < configs.len()
            invariant
                self.wf(),
                before.features.pt,
                i <= configs@.len(),
                self@ == (LinksView {
                    pt_configs: with_transports(before.pt_configs, configs@.take(i as int)),
                    ..before
                }),
            decreases configs@.len() - i,
        {
            let ghost was = self@;
            proof {
                let t = configs@.take(i + 1);
                assert(t.drop_last() =~= configs@.take(i as int));
                assert(t.last() == configs@[i as int]);
            }
            let protocol = link_url::to_ascii_lowercase(configs[i].protocol.as_str());
            let ghost name = protocol@;
            if !reserved(protocol.as_str()) && link_url::is_valid_url_scheme(protocol.as_str())
                && !self.pt_configs.contains_key(protocol.as_str()) {
                let mut cfg = configs[i].clone();
                cfg.protocol = protocol.clone();
                let ghost c = cfg@;
                let _ = self.pt_configs.insert(protocol, cfg);
                proof {
                    link_url::lower_text_is_stable(configs@[i as int].protocol@);
                    assert(self@.pt_configs =~= was.pt_configs.insert(name, c));
                    assert(self@ =~= LinksView {
                        pt_configs: was.pt_configs.insert(name, c),
                        ..was
                    });
                    assert(sound(self@));
                }
            }
            i = i + 1;
        }
        assert(configs@.take(i as int) =~= configs@);
    }

    /// The transport whose client has to be started before a peer of this
    /// scheme can be reached: none where it runs already, or where no transport
    /// has this name.
    pub fn pt_client_to_start(&self, protocol: &str) -> (r: Option<PluggableTransportConfig>)
        requires
            self.wf(),
        ensures
            config_view(r) == if self@.pt_configs.contains_key(protocol@)
                && !self@.pt_client_rxs.contains_key(protocol@) {
                Some(self@.pt_configs[protocol@])
            } else {
                None
            },
    {
        if self.pt_client_rxs.contains_key(protocol) {
            return None;
        }
        match self.pt_configs.get(protocol) {
            Some(c) => Some(c.clone()),
            None => None,
        }
    }

    /// Notes that the client of a transport is managed by a task, which tells
    /// the address of its proxy through a receiver.
    pub fn pt_client_started(&mut self, protocol: &str, rx: R, task: T)
        requires
            old(self).wf(),
            old(self)@.pt_configs.contains_key(protocol@),
            !old(self)@.pt_client_rxs.contains_key(protocol@),
        ensures
            final(self).wf(),
            final(self)@ == (LinksView {
                pt_client_rxs: old(self)@.pt_client_rxs.insert(protocol@, rx),
                pt_client_tasks: old(self)@.pt_client_tasks.push(task),
                ..old(self)@
            }),
    {
        let _ = self.pt_client_rxs.insert(protocol.to_owned(), rx);
        self.pt_client_tasks.push(task);
        assert(sound(self@));
    }

    /// The receiver of the address of the proxy of a transport.
    pub fn pt_receiver(&self, protocol: &str) -> (r: Result<&R, String>)
        requires
            self.wf(),
        ensures
            match r {
                Ok(rx) => self@.pt_client_rxs.contains_key(protocol@) && *rx
                    == self@.pt_client_rxs[protocol@],
                Err(e) => !self@.pt_client_rxs.contains_key(protocol@) && e@ == "PT protocol '"@
                    + protocol@ + "' has no watch receiver (internal error)"@,
            },
    {
        match self.pt_client_rxs.get(protocol) {
            Some(rx) => Ok(rx),
            None => {
                let mut msg = text::join("PT protocol '", protocol);
                msg.append("' has no watch receiver (internal error)");
                Err(msg)
            },
        }
    }

    /// The route of a URL: one of our own transports, or a pluggable transport
    /// of the name of its scheme.
    pub fn route_of(&self, url: &LinkUrl) -> (r: Result<Route, String>)
        requires
            self.wf(),
        ensures
            match r {
                Ok(way) => url_route(self@, url@) == Ok::<Route, Seq<char>>(way),
                Err(e) => url_route(self@, url@) == Err::<Route, Seq<char>>(e@),
            },
    {
        let pt = self.pt_configs.contains_key(url.scheme.as_str());
        find_route(self.features, url.scheme.as_str(), pt)
    }

    /// The URL and the route of a peer that is to be added.
    pub fn begin_peer(&self, uri: &str) -> (r: Result<(LinkUrl, Route), String>)
        requires
            self.wf(),
        ensures
            match r {
                Ok((url, way)) => {
                    &&& !self@.peers.contains_key(uri@)
                    &&& link_url::parsed_url(uri@) == Ok::<link_url::UrlParts, Seq<char>>(url@)
                    &&& url_route(self@, url@) == Ok::<Route, Seq<char>>(way)
                },
                Err(e) => {
                    ||| self@.peers.contains_key(uri@) && e@ == "peer already exists"@
                    ||| !self@.peers.contains_key(uri@) && (match link_url::parsed_url(uri@) {
                        Ok(url) => url_route(self@, url) == Err::<Route, Seq<char>>(e@),
                        Err(why) => e@ == "invalid URI: "@ + why,
                    })
                },
            },
    {
        if self.peers.contains_key(uri) {
            return Err("peer already exists".to_owned());
        }
        match LinkUrl::parse(uri) {
            Ok(url) => match self.route_of(&url) {
                Ok(way) => Ok((url, way)),
                Err(e) => Err(e),
            },
            Err(e) => Err(text::join("invalid URI: ", e.as_str())),
        }
    }

    /// Whether `plan_peer` can be asked: a peer that another one stands in the
    /// way of is refused before its options are read, and those of any other
    /// one must not hold a `maxbackoff` that 64 bits do not.
    pub fn can_plan_peer(&self, url: &LinkUrl, way: Route, resolved: &Option<Vec<Resolved>>) -> (r:
        bool)
        requires
            self.wf(),
        ensures
            r == (least(addresses(way, lookup(*resolved)), self@.peer_addrs.dom()) is None ==> !(
            options::link_options(url@) is OutOfRange)),
    {
        assert(self@.peer_addrs.dom() =~= self.peer_addrs@.dom());
        let conflict = match resolved {
            Some(rs) => way.resolves() && find_least(rs, &self.peer_addrs).is_some(),
            None => false,
        };
        conflict || options::options_in_range(url)
    }

    /// What a peer is added with. `resolved` is what its host resolves to;
    /// `None` where it was not resolved, or could not be: then no address can
    /// tell that it is there already, and its reconnect loop tries again.
    pub fn plan_peer(
        &self,
        uri: &str,
        url: &LinkUrl,
        way: Route,
        resolved: Option<Vec<Resolved>>,
    ) -> (r: Result<PeerPlan, String>)
        requires
            self.wf(),
            least(addresses(way, lookup(resolved)), self@.peer_addrs.dom()) is None ==> !(
            options::link_options(url@) is OutOfRange),
        ensures
            match r {
                Ok(p) => peer_plan(self@, uri@, url@, way, lookup(resolved)) == Ok::<
                    PeerPlanView,
                    Seq<char>,
                >(p@),
                Err(e) => peer_plan(self@, uri@, url@, way, lookup(resolved)) == Err::<
                    PeerPlanView,
                    Seq<char>,
                >(e@),
            },
    {
        let none: Vec<Resolved> = Vec::new();
        assert(none@ =~= seq![]);
        let rs: Vec<Resolved> = match resolved {
            Some(v) => if way.resolves() {
                v
            } else {
                none
            },
            None => none,
        };
        assert(rs@ == addresses(way, lookup(resolved)));
        assert(self@.peer_addrs.dom() =~= self.peer_addrs@.dom());
        if let Some(i) = find_least(&rs, &self.peer_addrs) {
            proof {
                lemma_least_is_member(rs@, self.peer_addrs@.dom());
            }
            let existing = match self.peer_addrs.get(rs[i].text.as_str()) {
                Some(u) => u,
                None => vstd::pervasive::unreached(),
            };
            let mut msg = text::join("peer ", uri);
            msg.append(" already connected as ");
            msg.append(existing.as_str());
            msg.append(" (resolves to same address ");
            msg.append(rs[i].text.as_str());
            msg.append(")");
            return Err(msg);
        }
        let options = match options::parse_link_options(url) {
            Ok(o) => o,
            Err(e) => return Err(e),
        };
        if let Err(e) = self.require_core() {
            return Err(e);
        }
        let addr_keys = texts_of(&rs);
        let pt_args = if way.resolves() {
            let no_args: Vec<(String, String)> = Vec::new();
            assert(text::pair_texts(no_args@) =~= seq![]);
            no_args
        } else {
            link_url::extract_pt_args(url)
        };
        Ok(PeerPlan { options, addr_keys, pt_args })
    }

    /// Adds a peer whose task runs, under all addresses that it resolves to.
    pub fn commit_peer(&mut self, uri: &str, addr_keys: Vec<String>, task: T)
        requires
            old(self).wf(),
        ensures
            final(self).wf(),
            final(self)@ == (LinksView {
                peers: old(self)@.peers.insert(uri@, task),
                peer_addrs: with_addresses(
                    old(self)@.peer_addrs,
                    text::string_texts(addr_keys@),
                    uri@,
                ),
                ..old(self)@
            }),
    {
        let _ = self.peers.insert(uri.to_owned(), task);
        let ghost keys = text::string_texts(addr_keys@);
        let ghost before = self@;
        assert(keys.take(0) =~= seq![]);
        assert(sound(self@));
        let mut i: usize = 0;
        while i < addr_keys.len()
            invariant
                self.wf(),
                keys == text::string_texts(addr_keys@),
                i <= addr_keys@.len(),
                before.peers.contains_key(uri@),
                self@ == (LinksView {
                    peer_addrs: with_addresses(before.peer_addrs, keys.take(i as int), uri@),
                    ..before
                }),
            decreases addr_keys@.len() - i,
        {
            let ghost was = self@;
            let ghost key = keys[i as int];
            proof {
                assert(keys.take(i + 1).drop_last() =~= keys.take(i as int));
                assert(keys.take(i + 1).last() == key);
            }
            let _ = self.peer_addrs.insert(addr_keys[i].clone(), uri.to_owned());
            proof {
                assert(self@.peer_addrs =~= was.peer_addrs.insert(key, uri@));
                assert(self@ =~= LinksView {
                    peer_addrs: was.peer_addrs.insert(key, uri@),
                    ..was
                });
                assert(sound(self@));
            }
            i = i + 1;
        }
        assert(keys.take(i as int) =~= keys);
    }

    /// Remove a peer by URI. Returns its task, which is to be ended, and the
    /// events to tell others of.
    ///
    /// Its task cannot unregister its link any more once it is ended, so that
    /// is done here.
    pub fn remove_peer(&mut self, uri: &str, errors: &mut PeerErrors, links: &mut ActiveLinks) -> (r:
        Result<(T, Vec<PeerEvent>), String>)
        requires
            old(self).wf(),
            old(errors).wf(),
            old(links).wf(),
        ensures
            final(self).wf(),
            final(errors).wf(),
            final(links).wf(),
            match r {
                Ok((task, events)) => {
                    &&& old(self)@.peers.contains_key(uri@)
                    &&& task == old(self)@.peers[uri@]
                    &&& final(self)@ == LinksView {
                        peers: old(self)@.peers.remove(uri@),
                        peer_addrs: without_peer(old(self)@.peer_addrs, uri@),
                        ..old(self)@
                    }
                    &&& final(errors)@ == old(errors)@.remove(uri@)
                    &&& final(links).ban_list == old(links).ban_list
                    &&& final(links).inner.next_id == old(links).inner.next_id
                    &&& final(links).inner.connections@ == active::without_uri(
                        old(links).inner.connections@,
                        uri@,
                    )
                    &&& exists|ids: Seq<u64>| #[trigger]
                        active::lists(
                            ids,
                            active::with_uri(old(links).inner.connections@, uri@),
                        ) && ids.len() == events@.len() && forall|i: int|
                            0 <= i < ids.len() ==> (#[trigger] events@[i])@
                                == (PeerEventView::Disconnected {
                                key: old(links).inner.connections@[ids[i]].key@,
                            })
                },
                Err(e) => {
                    &&& !old(self)@.peers.contains_key(uri@)
                    &&& e@ == "peer not found"@
                    &&& final(self)@ == old(self)@
                    &&& final(errors)@ == old(errors)@
                    &&& *final(links) == *old(links)
                },
            },
    {
        match self.peers.remove(uri) {
            Some(task) => {
                let events = links.unregister_by_uri(uri);
                self.peer_addrs.remove_values(uri);
                errors.remove(uri);
                proof {
                    assert(self@.peer_addrs =~= without_peer(old(self)@.peer_addrs, uri@));
                    assert(sound(self@));
                }
                Ok((task, events))
            },
            None => {
                assert(self@.peers =~= old(self)@.peers);
                Err("peer not found".to_owned())
            },
        }
    }

    /// The URL of an address to listen on.
    pub fn begin_listen(addr: &str) -> (r: Result<LinkUrl, String>)
        ensures
            match r {
                Ok(url) => link_url::parsed_url(addr@) == Ok::<link_url::UrlParts, Seq<char>>(url@),
                Err(e) => link_url::parsed_url(addr@) matches Err(why) && e@ == "invalid URL: "@
                    + why,
            },
    {
        match LinkUrl::parse(addr) {
            Ok(url) => Ok(url),
            Err(e) => Err(text::join("invalid URL: ", e.as_str())),
        }
    }

    /// What is listened with. `resolved` is what the host of the URL resolves
    /// to, with port 0 where it has none, or why it does not.
    pub fn plan_listen(&self, url: &LinkUrl, resolved: Result<Vec<Resolved>, String>) -> (r: Result<
        ListenPlan,
        String,
    >)
        requires
            self.wf(),
            resolution(resolved) matches Ok(rs) && rs.len() > 0 ==> !(options::link_options(
                url@,
            ) is OutOfRange),
        ensures
            match r {
                Ok(p) => listen_plan(self@, url@, resolution(resolved)) == Ok::<
                    ListenPlanView,
                    Seq<char>,
                >(p@),
                Err(e) => listen_plan(self@, url@, resolution(resolved)) == Err::<
                    ListenPlanView,
                    Seq<char>,
                >(e@),
            },
    {
        let rs = match resolved {
            Ok(v) => v,
            Err(e) => return Err(text::join("invalid address: ", e.as_str())),
        };
        if rs.len() == 0 {
            return Err("no address resolved".to_owned());
        }
        let bind = Resolved { addr: rs[0].addr, text: rs[0].text.clone() };
        let options = match options::parse_link_options(url) {
            Ok(o) => o,
            Err(e) => return Err(e),
        };
        if let Err(e) = self.require_core() {
            return Err(e);
        }
        let route = match self.route_of(url) {
            Ok(way) => way,
            Err(e) => return Err(e),
        };
        if route.resolves() {
            let server_options: Vec<(String, String)> = Vec::new();
            assert(text::pair_texts(server_options@) =~= seq![]);
            Ok(ListenPlan { route, bind, options, pt_config: None, server_options })
        } else {
            let server_options = link_url::extract_pt_args(url);
            let pt_config = match self.pt_configs.get(url.scheme.as_str()) {
                Some(c) => Some(c.clone()),
                None => None,
            };
            Ok(ListenPlan { route, bind, options, pt_config, server_options })
        }
    }

    /// Adds a listener whose task runs. Returns the one of the same address
    /// that it replaces.
    pub fn commit_listener(&mut self, addr: &str, task: T) -> (r: Option<T>)
        requires
            old(self).wf(),
        ensures
            final(self).wf(),
            final(self)@ == (LinksView {
                listeners: old(self)@.listeners.insert(addr@, task),
                ..old(self)@
            }),
            match r {
                Some(was) => old(self)@.listeners.contains_key(addr@) && was
                    == old(self)@.listeners[addr@],
                None => !old(self)@.listeners.contains_key(addr@),
            },
    {
        let was = self.listeners.insert(addr.to_owned(), task);
        assert(sound(self@));
        was
    }

    /// Stop all listeners and peers. Returns all tasks, which are to be ended:
    /// those of the transport clients are told first and then awaited, so that
    /// their processes can shut down gracefully.
    pub fn close(&mut self) -> (r: Closed<T>)
        requires
            old(self).wf(),
        ensures
            final(self).wf(),
            final(self)@ == (LinksView {
                core: old(self)@.core,
                ..no_links::<C, T, R>(old(self)@.features)
            }),
            r.rate_handle == old(self)@.rate_handle,
            table::distinct_keys(table::text_keys(r.listeners@)),
            table::pairs_map(table::text_keys(r.listeners@)) == old(self)@.listeners,
            table::distinct_keys(table::text_keys(r.peers@)),
            table::pairs_map(table::text_keys(r.peers@)) == old(self)@.peers,
            r.pt_client_tasks@ == old(self)@.pt_client_tasks,
    {
        let rate_handle = self.rate_handle.take();
        let listeners = self.listeners.drain();
        let peers = self.peers.drain();
        self.peer_addrs.clear();
        let mut pt_client_tasks: Vec<T> = Vec::new();
        std::mem::swap(&mut pt_client_tasks, &mut self.pt_client_tasks);
        self.pt_configs.clear();
        self.pt_client_rxs.clear();
        proof {
            let end: LinksView<C, T, R> = LinksView {
                core: old(self)@.core,
                ..no_links::<C, T, R>(old(self)@.features)
            };
            assert(self@ =~= end);
            assert(sound(self@));
        }
        Closed { rate_handle, listeners, peers, pt_client_tasks }
    }
}

/// The addresses without those of a peer.
pub open spec fn without_peer(m: Map<Seq<char>, Seq<char>>, uri: Seq<char>) -> Map<
    Seq<char>,
    Seq<char>,
> {
    Map::new(|a: Seq<char>| m.contains_key(a) && m[a] != uri, |a: Seq<char>| m[a])
}

/// Why an address could not be listened on.
#[derive(Debug)]
pub enum ListenProblem {
    BindFailed(String),
    LocalAddrFailed(String),
    /// The socket that a transport forwards to could not be bound.
    OrportBindFailed(String),
    OrportLocalAddrFailed(String),
}

/// What is said of a problem.
pub open spec fn problem_text(p: ListenProblem) -> Seq<char> {
    match p {
        ListenProblem::BindFailed(e) => "bind failed: "@ + e@,
        ListenProblem::LocalAddrFailed(e) => "local_addr failed: "@ + e@,
        ListenProblem::OrportBindFailed(e) => "PT ORPORT bind: "@ + e@,
        ListenProblem::OrportLocalAddrFailed(e) => "PT ORPORT local_addr: "@ + e@,
    }
}

impl ListenProblem {
    /// What is said of it.
    pub fn message(self) -> (r: String)
        ensures
            r@ == problem_text(self),
    {
        match self {
            ListenProblem::BindFailed(e) => text::join("bind failed: ", e.as_str()),
            ListenProblem::LocalAddrFailed(e) => text::join("local_addr failed: ", e.as_str()),
            ListenProblem::OrportBindFailed(e) => text::join("PT ORPORT bind: ", e.as_str()),
            ListenProblem::OrportLocalAddrFailed(e) => text::join(
                "PT ORPORT local_addr: ",
                e.as_str(),
            ),
        }
    }
}

// ---------------------------------------------------------------------------
// Laws
// ---------------------------------------------------------------------------

/// After a peer got some more addresses, it is known by them, and nothing has
/// changed for any other address.
pub proof fn addresses_are_added(
    m: Map<Seq<char>, Seq<char>>,
    keys: Seq<Seq<char>>,
    uri: Seq<char>,
    a: Seq<char>,
)
    ensures
        with_addresses(m, keys, uri).contains_key(a) <==> m.contains_key(a) || keys.contains(a),
        keys.contains(a) ==> with_addresses(m, keys, uri)[a] == uri,
        m.contains_key(a) && !keys.contains(a) ==> with_addresses(m, keys, uri)[a] == m[a],
    decreases keys.len(),
{
    if keys.len() > 0 {
        let before = keys.drop_last();
        addresses_are_added(m, before, uri, a);
        if keys.contains(a) && a != keys.last() {
            let i = choose|i: int| 0 <= i < keys.len() && keys[i] == a;
            assert(before[i] == a);
        }
        if before.contains(a) {
            let i = choose|i: int| 0 <= i < before.len() && before[i] == a;
            assert(keys[i] == a);
        }
        assert(keys[keys.len() - 1] == keys.last());
    }
}

/// Removing a peer undoes adding it: its addresses are free again, and nothing
/// else has changed.
pub proof fn removing_undoes_adding<C, T, R>(
    v: LinksView<C, T, R>,
    uri: Seq<char>,
    addr_keys: Seq<Seq<char>>,
    task: T,
)
    requires
        sound(v),
        !v.peers.contains_key(uri),
        forall|i: int|
            0 <= i < addr_keys.len() ==> !v.peer_addrs.contains_key(#[trigger] addr_keys[i]),
    ensures
        v.peers.insert(uri, task).remove(uri) == v.peers,
        without_peer(with_addresses(v.peer_addrs, addr_keys, uri), uri) == v.peer_addrs,
{
    assert(v.peers.insert(uri, task).remove(uri) =~= v.peers);
    let added = with_addresses(v.peer_addrs, addr_keys, uri);
    assert forall|a: Seq<char>|
        #![trigger added.contains_key(a)]
        #![trigger v.peer_addrs.contains_key(a)]
        (added.contains_key(a) && added[a] != uri <==> v.peer_addrs.contains_key(a)) && (
        v.peer_addrs.contains_key(a) ==> added[a] == v.peer_addrs[a]) by {
        addresses_are_added(v.peer_addrs, addr_keys, uri, a);
        if addr_keys.contains(a) {
            let i = choose|i: int| 0 <= i < addr_keys.len() && addr_keys[i] == a;
            assert(!v.peer_addrs.contains_key(addr_keys[i]));
        }
    }
    assert(without_peer(added, uri) =~= v.peer_addrs);
}

/// No address of a removed peer is left, and none of another is missing.
pub proof fn no_address_of_a_removed_peer_is_left(
    m: Map<Seq<char>, Seq<char>>,
    uri: Seq<char>,
    a: Seq<char>,
)
    ensures
        without_peer(m, uri).contains_key(a) <==> m.contains_key(a) && m[a] != uri,
        without_peer(m, uri).contains_key(a) ==> without_peer(m, uri)[a] == m[a],
{
}

/// A peer that resolves to an address of another one is refused, and the
/// message names both.
pub proof fn known_addresses_are_refused<C, T, R>(
    v: LinksView<C, T, R>,
    uri: Seq<char>,
    url: link_url::UrlParts,
    way: Route,
    resolved: Seq<Resolved>,
    i: int,
)
    requires
        way != Route::Pt,
        0 <= i < resolved.len(),
        v.peer_addrs.contains_key(resolved[i].text@),
    ensures
        peer_plan(v, uri, url, way, Some(resolved)) is Err,
        least(resolved, v.peer_addrs.dom()) matches Some(r) && peer_plan(
            v,
            uri,
            url,
            way,
            Some(resolved),
        ) == Err::<PeerPlanView, Seq<char>>(
            already_connected(uri, v.peer_addrs[r.text@], r.text@),
        ),
{
    least_is_least(resolved, v.peer_addrs.dom(), i);
}

/// An accepted peer is known by every address that it resolves to, and no other
/// peer is known by any of them.
pub proof fn accepted_peers_have_addresses_of_their_own<C, T, R>(
    v: LinksView<C, T, R>,
    uri: Seq<char>,
    url: link_url::UrlParts,
    way: Route,
    resolved: Option<Seq<Resolved>>,
)
    requires
        peer_plan(v, uri, url, way, resolved) is Ok,
    ensures
        peer_plan(v, uri, url, way, resolved)->Ok_0.addr_keys == addr_texts(
            addresses(way, resolved),
        ),
        forall|i: int|
            0 <= i < addresses(way, resolved).len() ==> !v.peer_addrs.contains_key(
                (#[trigger] addresses(way, resolved)[i]).text@,
            ),
{
    let rs = addresses(way, resolved);
    assert forall|i: int| 0 <= i < rs.len() implies !v.peer_addrs.contains_key(
        (#[trigger] rs[i]).text@,
    ) by {
        if v.peer_addrs.contains_key(rs[i].text@) {
            least_is_least(rs, v.peer_addrs.dom(), i);
        }
    }
}

/// The links once an accepted peer is committed.
pub open spec fn with_peer<C, T, R>(
    v: LinksView<C, T, R>,
    uri: Seq<char>,
    plan: PeerPlanView,
    task: T,
) -> LinksView<C, T, R> {
    LinksView {
        peers: v.peers.insert(uri, task),
        peer_addrs: with_addresses(v.peer_addrs, plan.addr_keys, uri),
        ..v
    }
}

/// The same host is found by name and by IP: once an accepted peer is
/// committed, any other URI that resolves to one of its addresses is refused.
/// The message names a peer that is known by the least address they share, and
/// that is this one unless the other URI also resolves to an address that was
/// known before.
pub proof fn a_peer_is_found_by_each_of_its_addresses<C, T, R>(
    v: LinksView<C, T, R>,
    uri: Seq<char>,
    url: link_url::UrlParts,
    way: Route,
    resolved: Option<Seq<Resolved>>,
    task: T,
    other: Seq<char>,
    other_url: link_url::UrlParts,
    other_way: Route,
    other_resolved: Seq<Resolved>,
    i: int,
    j: int,
)
    requires
        peer_plan(v, uri, url, way, resolved) is Ok,
        other_way != Route::Pt,
        0 <= i < addresses(way, resolved).len(),
        0 <= j < other_resolved.len(),
        other_resolved[j].text@ == addresses(way, resolved)[i].text@,
    ensures
        ({
            let w = with_peer(v, uri, peer_plan(v, uri, url, way, resolved)->Ok_0, task);
            let plan = peer_plan(w, other, other_url, other_way, Some(other_resolved));
            &&& plan is Err
            &&& least(other_resolved, w.peer_addrs.dom()) matches Some(r) && plan == Err::<
                PeerPlanView,
                Seq<char>,
            >(already_connected(other, w.peer_addrs[r.text@], r.text@)) && (w.peer_addrs[r.text@]
                == uri || v.peer_addrs.contains_key(r.text@))
            &&& (forall|k: int|
                0 <= k < other_resolved.len() ==> !v.peer_addrs.contains_key(
                    (#[trigger] other_resolved[k]).text@,
                )) ==> exists|a: Seq<char>|
                plan == Err::<PeerPlanView, Seq<char>>(#[trigger] already_connected(other, uri, a))
        }),
{
    let p = peer_plan(v, uri, url, way, resolved)->Ok_0;
    let w = with_peer(v, uri, p, task);
    let rs = addresses(way, resolved);
    assert(p.addr_keys[i] == rs[i].text@);
    addresses_are_added(v.peer_addrs, p.addr_keys, uri, rs[i].text@);
    known_addresses_are_refused(w, other, other_url, other_way, other_resolved, j);
    least_is_least(other_resolved, w.peer_addrs.dom(), j);
    let r = least(other_resolved, w.peer_addrs.dom())->0;
    addresses_are_added(v.peer_addrs, p.addr_keys, uri, r.text@);
    let k = choose|k: int| 0 <= k < other_resolved.len() && other_resolved[k] == r;
    if forall|k: int|
        0 <= k < other_resolved.len() ==> !v.peer_addrs.contains_key(
            (#[trigger] other_resolved[k]).text@,
        ) {
        assert(!v.peer_addrs.contains_key(other_resolved[k].text@));
        assert(peer_plan(w, other, other_url, other_way, Some(other_resolved)) == Err::<
            PeerPlanView,
            Seq<char>,
        >(already_connected(other, uri, r.text@)));
    }
}

/// What the host of a peer resolves to makes no difference where the peer is
/// reached through a pluggable transport.
pub proof fn transports_need_no_lookup<C, T, R>(
    v: LinksView<C, T, R>,
    uri: Seq<char>,
    url: link_url::UrlParts,
    resolved: Option<Seq<Resolved>>,
)
    ensures
        peer_plan(v, uri, url, Route::Pt, resolved) == peer_plan(v, uri, url, Route::Pt, None),
{
}

/// No pluggable transport takes a scheme from one of our own.
pub proof fn own_schemes_are_never_shadowed(features: Features, scheme: Seq<char>, pt: bool)
    requires
        is_reserved(scheme),
    ensures
        route(features, scheme, pt) == route(features, scheme, false),
        route(features, scheme, pt) != Ok::<Route, Seq<char>>(Route::Pt),
{
    reveal_strlit("tcp");
    reveal_strlit("tls");
    lemma_schemes_differ();
}

/// Once loaded, a transport is found by the scheme of its name in lower case,
/// however its name was written; where two have the same name, the first one
/// counts.
pub proof fn loaded_transports_are_found(
    m: Map<Seq<char>, pt_process::TransportView>,
    configs: Seq<PluggableTransportConfig>,
    i: int,
)
    requires
        0 <= i < configs.len(),
        link_url::valid_scheme(link_url::lower_text(configs[i].protocol@)),
        !is_reserved(link_url::lower_text(configs[i].protocol@)),
    ensures
        ({
            let name = link_url::lower_text(configs[i].protocol@);
            let all = with_transports(m, configs);
            &&& all.contains_key(name)
            &&& m.contains_key(name) ==> all[name] == m[name]
            &&& !m.contains_key(name) && (forall|j: int|
                0 <= j < i ==> link_url::lower_text((#[trigger] configs[j]).protocol@) != name)
                ==> all[name] == (pt_process::TransportView { protocol: name, ..configs[i]@ })
        }),
    decreases configs.len(),
{
    let name = link_url::lower_text(configs[i].protocol@);
    let before = configs.drop_last();
    lemma_transports_stay(m, before, name);
    if i < before.len() {
        assert(before[i] == configs[i]);
        loaded_transports_are_found(m, before, i);
        assert forall|j: int| 0 <= j < i implies (#[trigger] before[j]) == configs[j] by {}
    } else if !m.contains_key(name) && (forall|j: int|
        0 <= j < i ==> link_url::lower_text((#[trigger] configs[j]).protocol@) != name) {
        assert forall|j: int| 0 <= j < before.len() implies link_url::lower_text(
            (#[trigger] before[j]).protocol@,
        ) != name by {
            assert(before[j] == configs[j]);
        }
        lemma_transport_is_new(m, before, name);
    }
}

proof fn lemma_transports_stay(
    m: Map<Seq<char>, pt_process::TransportView>,
    configs: Seq<PluggableTransportConfig>,
    name: Seq<char>,
)
    ensures
        m.contains_key(name) ==> with_transports(m, configs).contains_key(name) && with_transports(
            m,
            configs,
        )[name] == m[name],
    decreases configs.len(),
{
    if configs.len() > 0 {
        lemma_transports_stay(m, configs.drop_last(), name);
    }
}

proof fn lemma_transport_is_new(
    m: Map<Seq<char>, pt_process::TransportView>,
    configs: Seq<PluggableTransportConfig>,
    name: Seq<char>,
)
    requires
        !m.contains_key(name),
        forall|j: int|
            0 <= j < configs.len() ==> link_url::lower_text((#[trigger] configs[j]).protocol@)
                != name,
    ensures
        !with_transports(m, configs).contains_key(name),
    decreases configs.len(),
{
    if configs.len() > 0 {
        let before = configs.drop_last();
        assert forall|j: int| 0 <= j < before.len() implies link_url::lower_text(
            (#[trigger] before[j]).protocol@,
        ) != name by {
            assert(before[j] == configs[j]);
        }
        lemma_transport_is_new(m, before, name);
        assert(link_url::lower_text(configs[configs.len() - 1].protocol@) != name);
    }
}

/// Whatever its route, a plan to listen binds the first of the resolved
/// addresses as it is: its IP address, its port, its zone and its text. It
/// carries the options of the URL and follows its route, and only for a
/// pluggable transport it has a configuration, the one of the scheme, and the
/// arguments of the query.
pub proof fn listeners_bind_the_first_address<C, T, R>(
    v: LinksView<C, T, R>,
    url: link_url::UrlParts,
    resolved: Result<Seq<Resolved>, Seq<char>>,
)
    requires
        listen_plan(v, url, resolved) is Ok,
    ensures
        ({
            let p = listen_plan(v, url, resolved)->Ok_0;
            &&& resolved is Ok
            &&& resolved->Ok_0.len() > 0
            &&& p.bind.0.ip == resolved->Ok_0[0].addr.ip
            &&& p.bind.0.port == resolved->Ok_0[0].addr.port
            &&& p.bind.0.scope_id == resolved->Ok_0[0].addr.scope_id
            &&& p.bind.1 == resolved->Ok_0[0].text@
            &&& options::link_options(url) == options::OptionText::Options(p.options)
            &&& url_route(v, url) == Ok::<Route, Seq<char>>(p.route)
            &&& p.pt_config is Some <==> p.route == Route::Pt
            &&& p.pt_config is Some ==> p.pt_config->0 == v.pt_configs[url.scheme]
            &&& p.route == Route::Pt ==> p.server_options == link_url::pt_args(url.query)
            &&& p.route != Route::Pt ==> p.server_options.len() == 0
        }),
{
}

/// A plan to listen is made exactly where the host resolves to some address,
/// the options can be read, there is a core, and the scheme has a route. What
/// is missing is named in that order.
pub proof fn listening_needs_address_options_core_and_route<C, T, R>(
    v: LinksView<C, T, R>,
    url: link_url::UrlParts,
    resolved: Result<Seq<Resolved>, Seq<char>>,
)
    requires
        !(options::link_options(url) is OutOfRange),
    ensures
        ({
            let plan = listen_plan(v, url, resolved);
            let found = resolved matches Ok(rs) && rs.len() > 0;
            let read = options::link_options(url) is Options;
            &&& plan is Ok <==> found && read && v.core is Some && url_route(v, url) is Ok
            &&& resolved matches Err(e) ==> plan == Err::<ListenPlanView, Seq<char>>(
                "invalid address: "@ + e,
            )
            &&& resolved matches Ok(rs) ==> (rs.len() == 0 ==> plan == Err::<
                ListenPlanView,
                Seq<char>,
            >("no address resolved"@))
            &&& found && !read ==> plan == Err::<ListenPlanView, Seq<char>>(
                options::link_options(url)->Refused_0,
            )
            &&& found && read && v.core is None ==> plan == Err::<ListenPlanView, Seq<char>>(
                "core not initialized"@,
            )
            &&& found && read && v.core is Some && url_route(v, url) is Err ==> plan == Err::<
                ListenPlanView,
                Seq<char>,
            >(url_route(v, url)->Err_0)
        }),
{
}

/// A peer is accepted exactly where none of its addresses `rs` is known (those
/// that it resolves to, unless a pluggable transport reaches it), its options
/// can be read and there is a core; it carries the options of its URL, and the
/// arguments of the query exactly where a pluggable transport reaches it. What
/// stands against it is named in that order.
pub proof fn peers_need_options_and_a_core<C, T, R>(
    v: LinksView<C, T, R>,
    uri: Seq<char>,
    url: link_url::UrlParts,
    way: Route,
    resolved: Option<Seq<Resolved>>,
    rs: Seq<Resolved>,
)
    requires
        rs == if way != Route::Pt && resolved is Some {
            resolved->0
        } else {
            seq![]
        },
        !(options::link_options(url) is OutOfRange),
    ensures
        ({
            let plan = peer_plan(v, uri, url, way, resolved);
            let free = forall|i: int|
                0 <= i < rs.len() ==> !v.peer_addrs.contains_key((#[trigger] rs[i]).text@);
            let read = options::link_options(url) is Options;
            &&& plan is Ok <==> free && read && v.core is Some
            &&& plan is Ok ==> {
                let p = plan->Ok_0;
                &&& options::link_options(url) == options::OptionText::Options(p.options)
                &&& way == Route::Pt ==> p.pt_args == link_url::pt_args(url.query)
                &&& way != Route::Pt ==> p.pt_args.len() == 0
                &&& p.addr_keys.len() == rs.len()
                &&& forall|i: int| 0 <= i < rs.len() ==> p.addr_keys[i] == (#[trigger] rs[i]).text@
            }
            &&& free && !read ==> plan == Err::<PeerPlanView, Seq<char>>(
                options::link_options(url)->Refused_0,
            )
            &&& free && read && v.core is None ==> plan == Err::<PeerPlanView, Seq<char>>(
                "core not initialized"@,
            )
        }),
{
    let among = v.peer_addrs.dom();
    assert(addresses(way, resolved) =~= rs);
    lemma_least_is_member(rs, among);
    if forall|i: int| 0 <= i < rs.len() ==> !v.peer_addrs.contains_key((#[trigger] rs[i]).text@) {
        if let Some(r) = least(rs, among) {
            let k = choose|k: int| 0 <= k < rs.len() && rs[k] == r;
            assert(!v.peer_addrs.contains_key(rs[k].text@));
        }
    } else {
        let k = choose|k: int|
            0 <= k < rs.len() && v.peer_addrs.contains_key((#[trigger] rs[k]).text@);
        least_is_least(rs, among, k);
    }
}

/// The message about a peer that another one stands in the way of names both
/// and the address that they share.
pub proof fn refusals_name_both_peers(uri: Seq<char>, existing: Seq<char>, addr: Seq<char>)
    ensures
        already_connected(uri, existing, addr) == "peer "@ + uri + " already connected as "@
            + existing + " (resolves to same address "@ + addr + ")"@,
{
}

/// Each scheme leads to its route, whatever else is configured: `tcp` and
/// `tls` always, `ws`, `wss` and `quic` where they are built in; `s` at the end
/// of a scheme is TLS, and `ws` is WebSocket. Every other scheme is that of a
/// pluggable transport, or has no route.
pub proof fn schemes_lead_to_their_routes(features: Features, scheme: Seq<char>, pt: bool)
    ensures
        route(features, "tcp"@, pt) == Ok::<Route, Seq<char>>(
            Route::Stream(Layers { tls: false, ws: false }),
        ),
        route(features, "tls"@, pt) == Ok::<Route, Seq<char>>(
            Route::Stream(Layers { tls: true, ws: false }),
        ),
        route(features, "ws"@, pt) == if features.ws {
            Ok::<Route, Seq<char>>(Route::Stream(Layers { tls: false, ws: true }))
        } else {
            Err("ws/wss support not compiled in (enable the `ws` feature)"@)
        },
        route(features, "wss"@, pt) == if features.ws {
            Ok::<Route, Seq<char>>(Route::Stream(Layers { tls: true, ws: true }))
        } else {
            Err("ws/wss support not compiled in (enable the `ws` feature)"@)
        },
        route(features, "quic"@, pt) == if features.quic {
            Ok::<Route, Seq<char>>(Route::Quic)
        } else {
            Err("quic support not compiled in (enable the `quic` feature)"@)
        },
        is_reserved(scheme) <==> scheme == "tcp"@ || scheme == "tls"@ || scheme == "ws"@ || scheme
            == "wss"@ || scheme == "quic"@,
        !is_reserved(scheme) ==> route(features, scheme, pt) == if pt {
            Ok::<Route, Seq<char>>(Route::Pt)
        } else {
            Err("unsupported scheme: "@ + scheme)
        },
{
    lemma_schemes_differ();
    reveal_strlit("tcp");
    reveal_strlit("tls");
    reveal_strlit("ws");
    reveal_strlit("wss");
    reveal_strlit("quic");
    assert("tcp"@[1] == 'c' && "tls"@[1] == 'l' && "wss"@[1] == 's');
    assert("tcp"@.len() == 3 && "tls"@.len() == 3 && "wss"@.len() == 3 && "ws"@.len() == 2
        && "quic"@.len() == 4);
}

/// A peer is where its URL says: its host and port as they are, and both as
/// one text with a colon between them. A host is missed before a port.
pub proof fn targets_are_host_and_port(url: link_url::UrlParts)
    ensures
        target(url) is Ok <==> url.host is Some && url.port is Some,
        target(url) is Ok ==> {
            let t = target(url)->Ok_0;
            &&& url.host == Some(t.host)
            &&& url.port == Some(t.port)
            &&& t.target == t.host + seq![':'] + text::decimal(t.port as nat)
        },
        url.host is None ==> target(url) == Err::<TargetView, Seq<char>>("missing host"@),
        url.host is Some && url.port is None ==> target(url) == Err::<TargetView, Seq<char>>(
            "missing port"@,
        ),
{
    reveal_strlit(":");
    assert(":"@ =~= seq![':']);
}

/// The number that socket addresses are ordered by: that of the IP address,
/// where all of version 6 come behind the 2^32 of version 4, then the port,
/// then the zone.
#[verifier::opaque]
pub open spec fn rank(a: SocketAddr) -> int {
    let ip = match a.ip {
        IpAddr::V4(x) => x as int,
        IpAddr::V6(x) => 0x1_0000_0000 + x,
    };
    (ip * 0x1_0000 + a.port) * 0x1_0000_0000 + a.scope_id
}

/// Socket addresses are ordered by one number, so that of any two that differ
/// exactly one is less.
pub proof fn addresses_are_ordered_by_their_rank(a: SocketAddr, b: SocketAddr)
    ensures
        addr_less(a, b) <==> rank(a) < rank(b),
        a != b <==> addr_less(a, b) || addr_less(b, a),
{
    reveal(rank);
}

/// Whether the `k`th of a row of addresses is one of those asked for, less
/// than any of them before it and not above any behind it.
pub open spec fn is_first_least(rs: Seq<Resolved>, among: Set<Seq<char>>, k: int) -> bool {
    &&& 0 <= k < rs.len()
    &&& among.contains(rs[k].text@)
    &&& forall|j: int|
        0 <= j < k && among.contains((#[trigger] rs[j]).text@) ==> rank(rs[k].addr) < rank(
            rs[j].addr,
        )
    &&& forall|j: int|
        k < j < rs.len() && among.contains((#[trigger] rs[j]).text@) ==> rank(rs[k].addr) <= rank(
            rs[j].addr,
        )
}

/// Of the addresses that are asked for, the least is returned, and of several
/// equal ones the first.
pub proof fn the_first_least_is_returned(rs: Seq<Resolved>, among: Set<Seq<char>>)
    ensures
        least(rs, among) is None <==> forall|i: int|
            0 <= i < rs.len() ==> !among.contains((#[trigger] rs[i]).text@),
        least(rs, among) is Some ==> exists|k: int| #[trigger]
            is_first_least(rs, among, k) && rs[k] == least(rs, among)->0,
    decreases rs.len(),
{
    if rs.len() > 0 {
        let t = rs.drop_last();
        let last = rs.last();
        let n = rs.len() - 1;
        the_first_least_is_returned(t, among);
        assert(rs[n] == last);
        assert forall|j: int| 0 <= j < n implies (#[trigger] rs[j]) == t[j] by {}
        if let Some(b) = least(t, among) {
            let k = choose|k: int| #[trigger] is_first_least(t, among, k) && t[k] == b;
            assert(rs[k] == b);
            addresses_are_ordered_by_their_rank(last.addr, b.addr);
            if among.contains(last.text@) && addr_less(last.addr, b.addr) {
                assert(is_first_least(rs, among, n));
            } else {
                assert(is_first_least(rs, among, k));
            }
        } else if least(rs, among) is Some {
            assert(is_first_least(rs, among, n));
        }
    }
}

/// A transport is loaded only where one was configured under its name, and the
/// name is a valid scheme and none of our own; it keeps its executable and its
/// directory. Nothing that was loaded before is changed.
pub proof fn only_configured_transports_are_loaded(
    m: Map<Seq<char>, pt_process::TransportView>,
    configs: Seq<PluggableTransportConfig>,
    name: Seq<char>,
)
    ensures
        m.contains_key(name) ==> with_transports(m, configs).contains_key(name) && with_transports(
            m,
            configs,
        )[name] == m[name],
        with_transports(m, configs).contains_key(name) && !m.contains_key(name) ==> {
            &&& link_url::valid_scheme(name)
            &&& name != "tcp"@ && name != "tls"@ && name != "ws"@ && name != "wss"@ && name
                != "quic"@
            &&& exists|i: int|
                {
                    &&& 0 <= i < configs.len()
                    &&& link_url::lower_text((#[trigger] configs[i]).protocol@) == name
                    &&& with_transports(m, configs)[name] == (pt_process::TransportView {
                        protocol: name,
                        binary: configs[i].binary@,
                        workdir: configs[i].workdir@,
                    })
                }
        },
    decreases configs.len(),
{
    if configs.len() > 0 {
        let before = configs.drop_last();
        let n = configs.len() - 1;
        only_configured_transports_are_loaded(m, before, name);
        let all = with_transports(m, configs);
        assert(configs[n] == configs.last());
        if all.contains_key(name) && !m.contains_key(name) {
            if with_transports(m, before).contains_key(name) {
                let i = choose|i: int|
                    {
                        &&& 0 <= i < before.len()
                        &&& link_url::lower_text((#[trigger] before[i]).protocol@) == name
                        &&& with_transports(m, before)[name] == (pt_process::TransportView {
                            protocol: name,
                            binary: before[i].binary@,
                            workdir: before[i].workdir@,
                        })
                    };
                assert(configs[i] == before[i]);
            } else {
                assert(link_url::lower_text(configs[n].protocol@) == name);
            }
        }
    }
}

/// Why an address could not be listened on is said with what was tried.
pub proof fn listen_problems_are_named(e: String)
    ensures
        problem_text(ListenProblem::BindFailed(e)) == "bind failed: "@ + e@,
        problem_text(ListenProblem::LocalAddrFailed(e)) == "local_addr failed: "@ + e@,
        problem_text(ListenProblem::OrportBindFailed(e)) == "PT ORPORT bind: "@ + e@,
        problem_text(ListenProblem::OrportLocalAddrFailed(e)) == "PT ORPORT local_addr: "@ + e@,
{
}

/// A URL is routed by its scheme: to a pluggable transport exactly where one of
/// that name is loaded and the scheme is none of our own.
pub proof fn urls_are_routed_by_their_scheme<C, T, R>(
    v: LinksView<C, T, R>,
    url: link_url::UrlParts,
)
    ensures
        url_route(v, url) == Ok::<Route, Seq<char>>(Route::Pt) <==> v.pt_configs.contains_key(
            url.scheme,
        ) && !is_reserved(url.scheme),
        is_reserved(url.scheme) ==> url_route(v, url) == route(v.features, url.scheme, false),
{
    if is_reserved(url.scheme) {
        own_schemes_are_never_shadowed(
            v.features,
            url.scheme,
            v.pt_configs.contains_key(url.scheme),
        );
    } else {
        schemes_lead_to_their_routes(
            v.features,
            url.scheme,
            v.pt_configs.contains_key(url.scheme),
        );
    }
}

/// What a resolution or a lookup came to is looked at as it came, all of it and
/// in its order.
pub proof fn resolutions_are_looked_at_as_they_came(v: Vec<Resolved>, e: String, i: int)
    requires
        0 <= i < v@.len(),
    ensures
        resolution(Ok(v)) == Ok::<Seq<Resolved>, Seq<char>>(v@),
        resolution(Err(e)) == Err::<Seq<Resolved>, Seq<char>>(e@),
        lookup(Some(v)) == Some(v@),
        lookup(None) is None,
        addr_texts(v@).len() == v@.len(),
        addr_texts(v@)[i] == v@[i].text@,
{
}

/// Links that nothing was configured for hold nothing, whatever is built in.
pub proof fn new_links_are_empty<C, T, R>(features: Features, k: Seq<char>)
    ensures
        ({
            let v = no_links::<C, T, R>(features);
            &&& v.features == features
            &&& v.core is None && v.rate_handle is None && v.pt_client_tasks.len() == 0
            &&& !v.peers.contains_key(k) && !v.peer_addrs.contains_key(k)
            &&& !v.listeners.contains_key(k) && !v.pt_configs.contains_key(k)
            &&& !v.pt_client_rxs.contains_key(k)
        }),
{
}

/// How long is waited after a failed accept, in milliseconds, and for all
/// transport processes together, in seconds.
pub proof fn listening_and_closing_have_limits()
    ensures
        ACCEPT_RETRY == 100,
        PT_TEARDOWN_TIMEOUT == 6,
{
}

/// The models of a target and of plans are their fields.
pub proof fn plans_are_their_fields(
    t: PeerTarget,
    p: PeerPlan,
    l: ListenPlan,
    c: PluggableTransportConfig,
)
    ensures
        t@.host == t.host@ && t@.port == t.port && t@.target == t.target@,
        p@.options == p.options@ && p@.addr_keys == text::string_texts(p.addr_keys@) && p@.pt_args
            == text::pair_texts(p.pt_args@),
        l@.route == l.route && l@.options == l.options@,
        l@.bind.0 == l.bind.addr && l@.bind.1 == l.bind.text@,
        l@.server_options == text::pair_texts(l.server_options@),
        l@.pt_config is Some <==> l.pt_config is Some,
        l.pt_config matches Some(x) ==> l@.pt_config == Some(x@),
        config_view(Some(c)) == Some(c@),
        config_view(None) is None,
{
}

} // verus!

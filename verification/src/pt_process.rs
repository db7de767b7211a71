//! Processes of pluggable transports: the environment that they are started
//! with and the lines in which they report what they offer (PT spec v1).
use vstd::prelude::*;

use crate::ip;
use crate::ip::SocketAddr;
use crate::pt_args;
use crate::text;

verus! {

/// How long a process has, in seconds, to report what it offers.
pub const STARTUP_TIMEOUT: u64 = 30;

/// How long a process has, in seconds, to exit once its input is closed.
pub const SHUTDOWN_TIMEOUT: u64 = 5;

/// A pluggable transport: the protocol that it speaks, its executable and the
/// directory that it keeps its state in.
#[derive(Debug)]
pub struct PluggableTransportConfig {
    pub protocol: String,
    pub binary: String,
    pub workdir: String,
}

/// A pluggable transport, in mathematical terms.
pub struct TransportView {
    pub protocol: Seq<char>,
    pub binary: Seq<char>,
    pub workdir: Seq<char>,
}

impl View for PluggableTransportConfig {
    type V = TransportView;

    open spec fn view(&self) -> TransportView {
        TransportView {
            protocol: self.protocol@,
            binary: self.binary@,
            workdir: self.workdir@,
        }
    }
}

impl Clone for PluggableTransportConfig {
    fn clone(&self) -> (r: Self)
        ensures
            r@ == self@,
    {
        PluggableTransportConfig {
            protocol: self.protocol.clone(),
            binary: self.binary.clone(),
            workdir: self.workdir.clone(),
        }
    }
}

/// Which side of a transport a process plays.
#[derive(Clone, Copy, Debug, PartialEq, Eq, Structural)]
pub enum PtRole {
    /// It offers a SOCKS5 proxy.
    Client,
    /// It accepts connections and forwards them.
    Server,
}

// ---------------------------------------------------------------------------
// Environment
// ---------------------------------------------------------------------------

/// The environment of a client process.
pub open spec fn client_env(cfg: TransportView) -> Seq<(Seq<char>, Seq<char>)> {
    seq![
        ("TOR_PT_MANAGED_TRANSPORT_VER"@, "1"@),
        ("TOR_PT_CLIENT_TRANSPORTS"@, cfg.protocol),
        ("TOR_PT_STATE_LOCATION"@, cfg.workdir),
        ("TOR_PT_EXIT_ON_STDIN_CLOSE"@, "1"@),
    ]
}

/// The environment of a server process; its options are named only where
/// there are any.
pub open spec fn server_env(
    cfg: TransportView,
    bind_addr: Seq<char>,
    orport_addr: Seq<char>,
    options: Seq<(Seq<char>, Seq<char>)>,
) -> Seq<(Seq<char>, Seq<char>)> {
    let always = seq![
        ("TOR_PT_MANAGED_TRANSPORT_VER"@, "1"@),
        ("TOR_PT_SERVER_TRANSPORTS"@, cfg.protocol),
        ("TOR_PT_SERVER_BINDADDR"@, cfg.protocol + "-"@ + bind_addr),
        ("TOR_PT_ORPORT"@, orport_addr),
        ("TOR_PT_STATE_LOCATION"@, cfg.workdir),
        ("TOR_PT_EXIT_ON_STDIN_CLOSE"@, "1"@),
    ];
    if options.len() == 0 {
        always
    } else {
        always.push(
            (
                "TOR_PT_SERVER_TRANSPORT_OPTIONS"@,
                pt_args::encoded_options(cfg.protocol, options),
            ),
        )
    }
}

/// The environment to start a client process with. A process that is asked to
/// exit when its input closes is not orphaned by a shutdown.
pub fn pt_client_env(cfg: &PluggableTransportConfig) -> (r: Vec<(String, String)>)
    ensures
        text::pair_texts(r@) == client_env(cfg@),
{
    let mut env: Vec<(String, String)> = Vec::new();
    env.push(("TOR_PT_MANAGED_TRANSPORT_VER".to_owned(), "1".to_owned()));
    env.push(("TOR_PT_CLIENT_TRANSPORTS".to_owned(), cfg.protocol.clone()));
    env.push(("TOR_PT_STATE_LOCATION".to_owned(), cfg.workdir.clone()));
    env.push(("TOR_PT_EXIT_ON_STDIN_CLOSE".to_owned(), "1".to_owned()));
    assert(text::pair_texts(env@) =~= client_env(cfg@));
    env
}

/// The environment to start a server process with.
///
/// * `bind_addr` is the public address that it should listen on
/// * `orport_addr` is the loopback address that it forwards connections to
/// * `server_options` are the options of the transport, from the query of the
///   listen URL
pub fn pt_server_env(
    cfg: &PluggableTransportConfig,
    bind_addr: &str,
    orport_addr: &str,
    server_options: &[(String, String)],
) -> (r: Vec<(String, String)>)
    ensures
        text::pair_texts(r@) == server_env(
            cfg@,
            bind_addr@,
            orport_addr@,
            text::pair_texts(server_options@),
        ),
{
    let mut bind = text::join(cfg.protocol.as_str(), "-");
    bind.append(bind_addr);
    let mut env: Vec<(String, String)> = Vec::new();
    env.push(("TOR_PT_MANAGED_TRANSPORT_VER".to_owned(), "1".to_owned()));
    env.push(("TOR_PT_SERVER_TRANSPORTS".to_owned(), cfg.protocol.clone()));
    env.push(("TOR_PT_SERVER_BINDADDR".to_owned(), bind));
    env.push(("TOR_PT_ORPORT".to_owned(), orport_addr.to_owned()));
    env.push(("TOR_PT_STATE_LOCATION".to_owned(), cfg.workdir.clone()));
    env.push(("TOR_PT_EXIT_ON_STDIN_CLOSE".to_owned(), "1".to_owned()));
    if server_options.len() > 0 {
        let encoded = pt_args::encode_server_transport_options(
            cfg.protocol.as_str(),
            server_options,
        );
        env.push(("TOR_PT_SERVER_TRANSPORT_OPTIONS".to_owned(), encoded));
    }
    assert(text::pair_texts(env@) =~= server_env(
        cfg@,
        bind_addr@,
        orport_addr@,
        text::pair_texts(server_options@),
    ));
    env
}

// ---------------------------------------------------------------------------
// Words
// ---------------------------------------------------------------------------

/// Whether `c` is ASCII whitespace.
pub open spec fn is_space(c: char) -> bool {
    c == ' ' || c == '\t' || c == '\n' || c == '\r' || c == '\x0C'
}

/// The number of characters before the first whitespace.
pub open spec fn word_len(s: Seq<char>) -> int
    decreases s.len(),
{
    if s.len() == 0 || is_space(s[0]) {
        0
    } else {
        1 + word_len(s.drop_first())
    }
}

/// The words of `s`: what stands between whitespace.
pub open spec fn words(s: Seq<char>) -> Seq<Seq<char>>
    decreases s.len(),
{
    if s.len() == 0 {
        seq![]
    } else if is_space(s[0]) {
        words(s.drop_first())
    } else {
        let n = word_len(s);
        if 0 < n <= s.len() {
            seq![s.take(n)] + words(s.skip(n))
        } else {
            seq![]
        }
    }
}

proof fn lemma_word_len(s: Seq<char>)
    ensures
        0 <= word_len(s) <= s.len(),
        s.len() > 0 && !is_space(s[0]) ==> word_len(s) > 0,
    decreases s.len(),
{
    if s.len() > 0 {
        lemma_word_len(s.drop_first());
    }
}

fn space(c: char) -> (r: bool)
    ensures
        r == is_space(c),
{
    c == ' ' || c == '\t' || c == '\n' || c == '\r' || c == '\x0C'
}

fn read_word(chars: &[char], from: usize) -> (r: usize)
    requires
        from <= chars@.len(),
    ensures
        from <= r <= chars@.len(),
        r - from == word_len(chars@.skip(from as int)),
{
    let mut at: usize = from;
    while at < chars.len() && !space(chars[at])
        invariant
            from <= at <= chars@.len(),
            word_len(chars@.skip(from as int)) == at - from + word_len(chars@.skip(at as int)),
        decreases chars@.len() - at,
    {
        assert(chars@.skip(at as int).drop_first() =~= chars@.skip(at + 1));
        at = at + 1;
    }
    at
}

/// The words of `chars[from..]`.
fn read_words(chars: &[char], from: usize) -> (r: Vec<String>)
    requires
        from <= chars@.len(),
    ensures
        text::string_texts(r@) == words(chars@.skip(from as int)),
{
    let mut out: Vec<String> = Vec::new();
    let mut at: usize = from;
    assert(text::string_texts(out@) =~= seq![]);
    while at < chars.len()
        invariant
            from <= at <= chars@.len(),
            words(chars@.skip(from as int)) =~= text::string_texts(out@) + words(chars@.skip(at as int)),
        decreases chars@.len() - at,
    {
        let ghost rest = chars@.skip(at as int);
        if space(chars[at]) {
            assert(rest.drop_first() =~= chars@.skip(at + 1));
            at = at + 1;
        } else {
            let ghost before = out@;
            let end = read_word(chars, at);
            proof {
                lemma_word_len(rest);
                assert(rest.take(end - at) =~= chars@.subrange(at as int, end as int));
                assert(rest.skip(end - at) =~= chars@.skip(end as int));
            }
            out.push(text::text_of(chars, at, end));
            assert(text::string_texts(out@) =~= text::string_texts(before).push(
                chars@.subrange(at as int, end as int),
            ));
            at = end;
        }
    }
    assert(words(chars@.skip(at as int)) =~= seq![]);
    out
}

// ---------------------------------------------------------------------------
// Method lines
// ---------------------------------------------------------------------------

/// What a line of a process says of the method that it offers.
#[verifier::ext_equal]
pub struct MethodView {
    /// The address of the method, where the line gives one that can be read.
    pub addr: Option<SocketAddr>,
    /// The arguments that clients of the method need.
    pub args: Option<Seq<char>>,
}

/// What a line of a process says of the method that it offers.
#[derive(Debug)]
pub struct Method {
    /// The address of the method, where the line gives one that can be read.
    pub addr: Option<SocketAddr>,
    /// The arguments that clients of the method need.
    pub args: Option<String>,
}

impl View for Method {
    type V = MethodView;

    open spec fn view(&self) -> MethodView {
        MethodView { addr: self.addr, args: text::option_text(self.args) }
    }
}

/// The address that the first of a row of words spells.
pub open spec fn first_addr(w: Seq<Seq<char>>) -> Option<SocketAddr> {
    if w.len() > 0 {
        ip::socket_addr(w[0])
    } else {
        None
    }
}

/// What follows `ARGS:` in the first of a row of words that begins so.
pub open spec fn args_word(w: Seq<Seq<char>>) -> Option<Seq<char>>
    decreases w.len(),
{
    if w.len() == 0 {
        None
    } else if text::starts_with(w[0], "ARGS:"@) {
        Some(w[0].skip(5))
    } else {
        args_word(w.drop_first())
    }
}

/// The method of a client line `CMETHOD <protocol> socks5 <addr>:<port> ...`.
pub open spec fn client_method(protocol: Seq<char>, line: Seq<char>) -> Option<MethodView> {
    let rest = line.skip(8);
    let i = text::find(rest, ' ');
    let after = rest.skip(i + 1);
    let j = text::find(after, ' ');
    if text::starts_with(line, "CMETHOD "@) && i < rest.len() && j < after.len() && rest.take(i)
        == protocol && after.take(j) == "socks5"@ {
        Some(MethodView { addr: first_addr(words(after.skip(j + 1))), args: None })
    } else {
        None
    }
}

/// The method of a server line `SMETHOD <protocol> <addr>:<port> [ARGS:...]`.
pub open spec fn server_method(protocol: Seq<char>, line: Seq<char>) -> Option<MethodView> {
    let rest = line.skip(8);
    let i = text::find(rest, ' ');
    if text::starts_with(line, "SMETHOD "@) && i < rest.len() && rest.take(i) == protocol {
        let w = words(rest.skip(i + 1));
        Some(
            MethodView {
                addr: first_addr(w),
                args: if w.len() > 0 {
                    args_word(w.drop_first())
                } else {
                    None
                },
            },
        )
    } else {
        None
    }
}

/// The method that a line offers.
pub open spec fn method(role: PtRole, protocol: Seq<char>, line: Seq<char>) -> Option<MethodView> {
    match role {
        PtRole::Client => client_method(protocol, line),
        PtRole::Server => server_method(protocol, line),
    }
}

fn read_first_addr(w: &Vec<String>) -> (r: Option<SocketAddr>)
    ensures
        r == first_addr(text::string_texts(w@)),
{
    if w.len() > 0 {
        ip::parse_socket_addr(w[0].as_str())
    } else {
        None
    }
}

fn read_args_word(w: &Vec<String>, from: usize) -> (r: Option<String>)
    requires
        from <= w@.len(),
    ensures
        text::option_text(r) == args_word(text::string_texts(w@).skip(from as int)),
{
    let ghost all = text::string_texts(w@);
    let mut i: usize = from;
    while i < w.len()
        invariant
            all == text::string_texts(w@),
            from <= i <= w@.len(),
            args_word(all.skip(from as int)) == args_word(all.skip(i as int)),
        decreases w@.len() - i,
    {
        let ghost rest = all.skip(i as int);
        assert(rest[0] == w@[i as int]@);
        assert(rest.drop_first() =~= all.skip(i + 1));
        let chars = text::chars_of(w[i].as_str());
        if text::has_prefix(chars.as_slice(), "ARGS:") {
            proof {
                reveal_strlit("ARGS:");
            }
            let n = chars.len();
            assert(chars@.subrange(5, n as int) =~= chars@.skip(5));
            return Some(text::text_of(chars.as_slice(), 5, n));
        }
        i = i + 1;
    }
    None
}

/// Reads a client line `CMETHOD <protocol> socks5 <addr>:<port> ...`. Only the
/// first word after `socks5` is the address; optional arguments may follow it.
pub fn parse_cmethod(protocol: &str, line: &str) -> (r: Option<Method>)
    ensures
        match r {
            Some(m) => client_method(protocol@, line@) == Some(m@),
            None => client_method(protocol@, line@) is None,
        },
{
    let chars = text::chars_of(line);
    let n = chars.len();
    if !text::has_prefix(chars.as_slice(), "CMETHOD ") {
        return None;
    }
    proof {
        reveal_strlit("CMETHOD ");
    }
    let ghost rest = line@.skip(8);
    assert(chars@.subrange(8, n as int) =~= rest);
    let a = text::find_char(chars.as_slice(), 8, n, ' ');
    if a == n {
        return None;
    }
    let ghost after = rest.skip(a - 8 + 1);
    assert(chars@.subrange(a + 1, n as int) =~= after);
    let b = text::find_char(chars.as_slice(), a + 1, n, ' ');
    if b == n {
        return None;
    }
    assert(chars@.subrange(8, a as int) =~= rest.take(a - 8));
    assert(chars@.subrange(a + 1, b as int) =~= after.take(b - a - 1));
    if text::spells(chars.as_slice(), 8, a, protocol) && text::spells(
        chars.as_slice(),
        a + 1,
        b,
        "socks5",
    ) {
        assert(after.skip(b - a) =~= chars@.skip(b + 1));
        let w = read_words(chars.as_slice(), b + 1);
        Some(Method { addr: read_first_addr(&w), args: None })
    } else {
        None
    }
}

/// Reads a server line `SMETHOD <protocol> <addr>:<port> [ARGS:...]`.
pub fn parse_smethod(protocol: &str, line: &str) -> (r: Option<Method>)
    ensures
        match r {
            Some(m) => server_method(protocol@, line@) == Some(m@),
            None => server_method(protocol@, line@) is None,
        },
{
    let chars = text::chars_of(line);
    let n = chars.len();
    if !text::has_prefix(chars.as_slice(), "SMETHOD ") {
        return None;
    }
    proof {
        reveal_strlit("SMETHOD ");
    }
    let ghost rest = line@.skip(8);
    assert(chars@.subrange(8, n as int) =~= rest);
    let a = text::find_char(chars.as_slice(), 8, n, ' ');
    if a == n {
        return None;
    }
    assert(chars@.subrange(8, a as int) =~= rest.take(a - 8));
    if text::spells(chars.as_slice(), 8, a, protocol) {
        assert(rest.skip(a - 7) =~= chars@.skip(a + 1));
        let w = read_words(chars.as_slice(), a + 1);
        let addr = read_first_addr(&w);
        let args = if w.len() > 0 {
            assert(text::string_texts(w@).skip(1) =~= text::string_texts(w@).drop_first());
            read_args_word(&w, 1)
        } else {
            None
        };
        Some(Method { addr, args })
    } else {
        None
    }
}

// ---------------------------------------------------------------------------
// Startup
// ---------------------------------------------------------------------------

/// How every message about a process begins.
pub open spec fn about(role: PtRole, protocol: Seq<char>, what: Seq<char>) -> Seq<char> {
    (match role {
        PtRole::Client => "PT client '"@,
        PtRole::Server => "PT server '"@,
    }) + protocol + "': "@ + what
}

/// The line that ends the report of a process.
pub open spec fn done_line(role: PtRole) -> Seq<char> {
    match role {
        PtRole::Client => "CMETHODS DONE"@,
        PtRole::Server => "SMETHODS DONE"@,
    }
}

/// Whether a line reports that the process cannot offer anything.
pub open spec fn is_error_line(role: PtRole, line: Seq<char>) -> bool {
    ||| text::starts_with(line, "VERSION-ERROR"@)
    ||| match role {
        PtRole::Client => text::starts_with(line, "CMETHOD-ERROR"@),
        PtRole::Server => text::starts_with(line, "SMETHOD-ERROR"@),
    }
}

/// The message about a report that ended without a method.
pub open spec fn no_method(role: PtRole, protocol: Seq<char>) -> Seq<char> {
    about(
        role,
        protocol,
        match role {
            PtRole::Client => "no CMETHOD line seen before CMETHODS DONE"@,
            PtRole::Server => "no SMETHOD line seen before SMETHODS DONE"@,
        },
    )
}

/// A process that is being started: what it has reported so far.
pub struct StartupView {
    pub role: PtRole,
    pub protocol: Seq<char>,
    pub found: MethodView,
}

/// Where a startup stands after a line.
pub enum StartupStep {
    /// More lines are needed.
    Waiting,
    /// The process is ready.
    Ready(SocketAddr, Option<Seq<char>>),
    /// The process cannot be used.
    Failed(Seq<char>),
}

/// A process that is being started: what it has reported so far.
#[derive(Debug)]
pub struct PtStartup {
    pub role: PtRole,
    pub protocol: String,
    pub found: Method,
}

impl View for PtStartup {
    type V = StartupView;

    open spec fn view(&self) -> StartupView {
        StartupView { role: self.role, protocol: self.protocol@, found: self.found@ }
    }
}

/// Where a startup stands after a line.
#[derive(Debug)]
pub enum PtProgress {
    /// More lines are needed.
    Waiting,
    /// The process is ready: a client with its proxy at this address, a server
    /// that listens at it and tells the arguments that clients need.
    Ready(SocketAddr, Option<String>),
    /// The process cannot be used, for this reason.
    Failed(String),
}

impl View for PtProgress {
    type V = StartupStep;

    open spec fn view(&self) -> StartupStep {
        match self {
            PtProgress::Waiting => StartupStep::Waiting,
            PtProgress::Ready(a, args) => StartupStep::Ready(*a, text::option_text(*args)),
            PtProgress::Failed(e) => StartupStep::Failed(e@),
        }
    }
}

/// A startup that has seen no line.
pub open spec fn startup(role: PtRole, protocol: Seq<char>) -> StartupView {
    StartupView { role, protocol, found: MethodView { addr: None, args: None } }
}

/// The startup after a line. The last line that offers the method counts, also
/// where its address cannot be read.
pub open spec fn after_line(s: StartupView, line: Seq<char>) -> (StartupView, StartupStep) {
    if is_error_line(s.role, line) {
        (s, StartupStep::Failed(about(s.role, s.protocol, line)))
    } else if line == done_line(s.role) {
        match s.found.addr {
            Some(a) => (s, StartupStep::Ready(a, s.found.args)),
            None => (s, StartupStep::Failed(no_method(s.role, s.protocol))),
        }
    } else {
        match method(s.role, s.protocol, line) {
            Some(m) => (StartupView { found: m, ..s }, StartupStep::Waiting),
            None => (s, StartupStep::Waiting),
        }
    }
}

fn message(role: PtRole, protocol: &str, what: &str) -> (r: String)
    ensures
        r@ == about(role, protocol@, what@),
{
    let mut msg = match role {
        PtRole::Client => text::join("PT client '", protocol),
        PtRole::Server => text::join("PT server '", protocol),
    };
    msg.append("': ");
    msg.append(what);
    msg
}

impl PtStartup {
    /// A startup that has seen no line.
    pub fn new(role: PtRole, protocol: &str) -> (r: Self)
        ensures
            r@ == startup(role, protocol@),
    {
        PtStartup {
            role,
            protocol: protocol.to_owned(),
            found: Method { addr: None, args: None },
        }
    }

    /// Takes a line that the process has written.
    pub fn line(&mut self, line: &str) -> (r: PtProgress)
        ensures
            (final(self)@, r@) == after_line(old(self)@, line@),
    {
        let chars = text::chars_of(line);
        let method_error = match self.role {
            PtRole::Client => text::has_prefix(chars.as_slice(), "CMETHOD-ERROR"),
            PtRole::Server => text::has_prefix(chars.as_slice(), "SMETHOD-ERROR"),
        };
        if text::has_prefix(chars.as_slice(), "VERSION-ERROR") || method_error {
            return PtProgress::Failed(message(self.role, self.protocol.as_str(), line));
        }
        let done = match self.role {
            PtRole::Client => text::same_text(line, "CMETHODS DONE"),
            PtRole::Server => text::same_text(line, "SMETHODS DONE"),
        };
        if done {
            return match self.found.addr {
                Some(a) => PtProgress::Ready(a, self.found.args.clone()),
                None => PtProgress::Failed(
                    match self.role {
                        PtRole::Client => message(
                            self.role,
                            self.protocol.as_str(),
                            "no CMETHOD line seen before CMETHODS DONE",
                        ),
                        PtRole::Server => message(
                            self.role,
                            self.protocol.as_str(),
                            "no SMETHOD line seen before SMETHODS DONE",
                        ),
                    },
                ),
            };
        }
        let offered = match self.role {
            PtRole::Client => parse_cmethod(self.protocol.as_str(), line),
            PtRole::Server => parse_smethod(self.protocol.as_str(), line),
        };
        if let Some(m) = offered {
            self.found = m;
        }
        PtProgress::Waiting
    }

    /// The reason to give up where the process could not be started.
    pub fn spawn_failed(&self, e: &str) -> (r: String)
        ensures
            r@ == about(self@.role, self@.protocol, "spawn failed: "@ + e@),
    {
        let what = text::join("spawn failed: ", e);
        message(self.role, self.protocol.as_str(), what.as_str())
    }

    /// The reason to give up where its output could not be read.
    pub fn read_failed(&self, e: &str) -> (r: String)
        ensures
            r@ == about(self@.role, self@.protocol, "read error: "@ + e@),
    {
        let what = text::join("read error: ", e);
        message(self.role, self.protocol.as_str(), what.as_str())
    }

    /// The reason to give up where its output ended.
    pub fn closed(&self) -> (r: String)
        ensures
            r@ == about(
                self@.role,
                self@.protocol,
                "stdout closed before "@ + done_line(self@.role),
            ),
    {
        let what = match self.role {
            PtRole::Client => text::join("stdout closed before ", "CMETHODS DONE"),
            PtRole::Server => text::join("stdout closed before ", "SMETHODS DONE"),
        };
        message(self.role, self.protocol.as_str(), what.as_str())
    }

    /// The reason to give up where the process took too long.
    pub fn timed_out(&self) -> (r: String)
        ensures
            r@ == about(
                self@.role,
                self@.protocol,
                "timed out waiting for "@ + done_line(self@.role),
            ),
    {
        let what = match self.role {
            PtRole::Client => text::join("timed out waiting for ", "CMETHODS DONE"),
            PtRole::Server => text::join("timed out waiting for ", "SMETHODS DONE"),
        };
        message(self.role, self.protocol.as_str(), what.as_str())
    }
}

// ---------------------------------------------------------------------------
// Laws
// ---------------------------------------------------------------------------

/// The startup after a row of lines.
pub open spec fn after_lines(s: StartupView, lines: Seq<Seq<char>>) -> StartupView
    decreases lines.len(),
{
    if lines.len() == 0 {
        s
    } else {
        after_line(after_lines(s, lines.drop_last()), lines.last()).0
    }
}

/// The last method that a row of lines offers.
pub open spec fn last_method(
    role: PtRole,
    protocol: Seq<char>,
    lines: Seq<Seq<char>>,
) -> Option<MethodView>
    decreases lines.len(),
{
    if lines.len() == 0 {
        None
    } else {
        match method(role, protocol, lines.last()) {
            Some(m) => Some(m),
            None => last_method(role, protocol, lines.drop_last()),
        }
    }
}

/// Whether no line of a row ends the report.
pub open spec fn report_goes_on(role: PtRole, lines: Seq<Seq<char>>) -> bool {
    forall|i: int|
        0 <= i < lines.len() ==> !is_error_line(role, #[trigger] lines[i]) && lines[i] != done_line(
            role,
        )
}

/// After any row of lines that go on, the end of the report makes the process
/// ready at the address of the last line that offered the method, and fails
/// where there was none or its address cannot be read.
pub proof fn ready_at_the_last_method(role: PtRole, protocol: Seq<char>, lines: Seq<Seq<char>>)
    requires
        report_goes_on(role, lines),
    ensures
        after_line(after_lines(startup(role, protocol), lines), done_line(role)).1 == (
        match last_method(role, protocol, lines) {
            Some(MethodView { addr: Some(a), args }) => StartupStep::Ready(a, args),
            _ => StartupStep::Failed(no_method(role, protocol)),
        }),
{
    lemma_found(role, protocol, lines);
    reveal_strlit("VERSION-ERROR");
    reveal_strlit("CMETHOD-ERROR");
    reveal_strlit("SMETHOD-ERROR");
    reveal_strlit("CMETHODS DONE");
    reveal_strlit("SMETHODS DONE");
    let line = done_line(role);
    assert(line.take(13)[0] == line[0]);
    assert(line.take(13)[7] == line[7]);
    assert("VERSION-ERROR"@[0] != line[0]);
}

proof fn lemma_found(role: PtRole, protocol: Seq<char>, lines: Seq<Seq<char>>)
    requires
        report_goes_on(role, lines),
    ensures
        ({
            let s = after_lines(startup(role, protocol), lines);
            &&& s.role == role
            &&& s.protocol == protocol
            &&& s.found == (match last_method(role, protocol, lines) {
                Some(m) => m,
                None => MethodView { addr: None, args: None },
            })
        }),
    decreases lines.len(),
{
    if lines.len() > 0 {
        let before = lines.drop_last();
        assert forall|i: int| 0 <= i < before.len() implies !is_error_line(
            role,
            #[trigger] before[i],
        ) && before[i] != done_line(role) by {
            assert(before[i] == lines[i]);
        }
        lemma_found(role, protocol, before);
        assert(!is_error_line(role, lines[lines.len() - 1]));
    }
}

/// A line that reports an error always ends the startup, whatever came before
/// it, and the reason repeats the line.
pub proof fn error_line_fails(s: StartupView, line: Seq<char>)
    requires
        is_error_line(s.role, line),
    ensures
        after_line(s, line).1 == StartupStep::Failed(about(s.role, s.protocol, line)),
{
}

/// Whether a text holds no space, tab, line feed, carriage return or form feed.
pub open spec fn spaceless(s: Seq<char>) -> bool {
    forall|i: int|
        0 <= i < s.len() ==> (#[trigger] s[i]) != ' ' && s[i] != '\t' && s[i] != '\n' && s[i] != '\r'
            && s[i] != '\x0C'
}

/// A word ends at the first whitespace behind it, and whitespace in front of a
/// word is no part of it.
pub proof fn words_stand_between_whitespace(w: Seq<char>, c: char, rest: Seq<char>)
    requires
        w.len() > 0,
        spaceless(w),
        c == ' ' || c == '\t' || c == '\n' || c == '\r' || c == '\x0C',
    ensures
        words(w) == seq![w],
        words(w + seq![c] + rest) == seq![w] + words(rest),
        words(seq![c] + rest) == words(rest),
        words(seq![]) == Seq::<Seq<char>>::empty(),
{
    let n = w.len() as int;
    assert(w.take(n) =~= w);
    assert(!is_space(w[0]));
    lemma_word_len_is(w, n);
    assert(w.skip(n) =~= Seq::<char>::empty());
    assert(words(Seq::<char>::empty()) =~= Seq::<Seq<char>>::empty());
    assert(words(w) =~= seq![w]);
    let s = w + seq![c] + rest;
    assert(s.take(n) =~= w);
    assert(s[0] == w[0] && s[n] == c);
    lemma_word_len_is(s, n);
    assert((seq![c] + rest).drop_first() =~= rest);
    assert(words(seq![c] + rest) == words(rest));
    assert(s.skip(n) =~= seq![c] + rest);
}

proof fn lemma_word_len_is(s: Seq<char>, n: int)
    requires
        0 <= n <= s.len(),
        spaceless(s.take(n)),
        n < s.len() ==> is_space(s[n]),
    ensures
        word_len(s) == n,
    decreases s.len(),
{
    if n > 0 {
        let t = s.drop_first();
        assert(s.take(n)[0] == s[0]);
        assert forall|i: int| 0 <= i < t.take(n - 1).len() implies (#[trigger] t.take(n - 1)[i])
            != ' ' && t.take(n - 1)[i] != '\t' && t.take(n - 1)[i] != '\n' && t.take(n - 1)[i]
            != '\r' && t.take(n - 1)[i] != '\x0C' by {
            assert(s.take(n)[i + 1] == t.take(n - 1)[i]);
        }
        lemma_word_len_is(t, n - 1);
    }
}

/// Words that are written with one space between them are read as they are.
pub proof fn words_are_read_back(ws: Seq<Seq<char>>)
    requires
        forall|i: int| 0 <= i < ws.len() ==> (#[trigger] ws[i]).len() > 0 && spaceless(ws[i]),
    ensures
        words(text::joined(ws, ' ')) == ws,
    decreases ws.len(),
{
    if ws.len() == 1 {
        words_stand_between_whitespace(ws[0], ' ', seq![]);
        assert(seq![ws[0]] =~= ws);
    } else if ws.len() > 1 {
        let rest = ws.drop_first();
        assert forall|i: int| 0 <= i < rest.len() implies (#[trigger] rest[i]).len() > 0
            && spaceless(rest[i]) by {
            assert(rest[i] == ws[i + 1]);
        }
        words_are_read_back(rest);
        words_stand_between_whitespace(ws[0], ' ', text::joined(rest, ' '));
        assert(seq![ws[0]] + rest =~= ws);
    }
}

/// Every word is read whole: none is empty, and none holds whitespace.
pub proof fn no_word_is_empty_or_holds_whitespace(s: Seq<char>)
    ensures
        forall|i: int|
            0 <= i < words(s).len() ==> (#[trigger] words(s)[i]).len() > 0 && spaceless(words(s)[i]),
    decreases s.len(),
{
    if s.len() > 0 {
        if is_space(s[0]) {
            no_word_is_empty_or_holds_whitespace(s.drop_first());
            assert(words(s) == words(s.drop_first()));
        } else {
            lemma_word_len(s);
            lemma_word_is_spaceless(s);
            let n = word_len(s);
            no_word_is_empty_or_holds_whitespace(s.skip(n));
            assert(words(s)[0] == s.take(n));
            assert forall|i: int| 0 <= i < words(s).len() implies (#[trigger] words(s)[i]).len() > 0
                && spaceless(words(s)[i]) by {
                if i > 0 {
                    assert(words(s)[i] == words(s.skip(n))[i - 1]);
                }
            }
        }
    }
}

proof fn lemma_word_is_spaceless(s: Seq<char>)
    ensures
        spaceless(s.take(word_len(s))),
    decreases s.len(),
{
    lemma_word_len(s);
    if s.len() > 0 && !is_space(s[0]) {
        let t = s.drop_first();
        lemma_word_is_spaceless(t);
        lemma_word_len(t);
        let n = word_len(s);
        assert forall|i: int| 0 <= i < s.take(n).len() implies (#[trigger] s.take(n)[i]) != ' '
            && s.take(n)[i] != '\t' && s.take(n)[i] != '\n' && s.take(n)[i] != '\r' && s.take(n)[i]
            != '\x0C' by {
            if i > 0 {
                assert(t.take(n - 1)[i - 1] == s.take(n)[i]);
            }
        }
    }
}

proof fn lemma_first_word(a: Seq<char>, rest: Seq<char>)
    requires
        a.len() > 0,
        spaceless(a),
        rest.len() > 0 ==> is_space(rest[0]),
    ensures
        words(a + rest) == seq![a] + words(rest),
{
    if rest.len() == 0 {
        words_stand_between_whitespace(a, ' ', seq![]);
        assert(a + rest =~= a);
        assert(seq![a] + words(rest) =~= seq![a]);
    } else {
        let tail = rest.drop_first();
        words_stand_between_whitespace(a, rest[0], tail);
        assert(a + seq![rest[0]] + tail =~= a + rest);
    }
}

proof fn lemma_up_to_a_space(head: Seq<char>, tail: Seq<char>)
    requires
        !head.contains(' '),
    ensures
        ({
            let s = head + seq![' '] + tail;
            let n = head.len() as int;
            &&& text::find(s, ' ') == n < s.len()
            &&& s.take(n) == head
            &&& s.skip(n + 1) == tail
        }),
{
    let s = head + seq![' '] + tail;
    let n = head.len() as int;
    assert forall|j: int| 0 <= j < n implies s[j] != ' ' by {
        assert(head.contains(head[j]));
    }
    text::lemma_find_is(s, ' ', n);
    assert(s.take(n) =~= head);
    assert(s.skip(n + 1) =~= tail);
}

proof fn lemma_method_lines_go_on(line: Seq<char>)
    ensures
        text::starts_with(line, "SMETHOD "@) ==> !is_error_line(PtRole::Server, line) && line
            != done_line(PtRole::Server),
        text::starts_with(line, "CMETHOD "@) ==> !is_error_line(PtRole::Client, line) && line
            != done_line(PtRole::Client),
{
    reveal_strlit("SMETHOD ");
    reveal_strlit("CMETHOD ");
    reveal_strlit("VERSION-ERROR");
    reveal_strlit("SMETHOD-ERROR");
    reveal_strlit("CMETHOD-ERROR");
    reveal_strlit("SMETHODS DONE");
    reveal_strlit("CMETHODS DONE");
    assert("SMETHODS DONE"@[7] == 'S' && "CMETHODS DONE"@[7] == 'S');
    assert("SMETHOD-ERROR"@[7] == '-' && "CMETHOD-ERROR"@[7] == '-');
    assert("VERSION-ERROR"@[0] == 'V');
    if line.len() >= 8 {
        assert(line.take(8)[0] == line[0] && line.take(8)[7] == line[7]);
    }
    if line.len() >= 13 {
        assert(line.take(13)[0] == line[0] && line.take(13)[7] == line[7]);
    }
}

/// The line `SMETHOD <protocol> <address>`, with or without further words,
/// offers the method at exactly the address that it gives, of either family,
/// for every protocol without a space and every address without whitespace.
#[verifier::rlimit(40)]
pub proof fn server_lines_offer_their_address(
    protocol: Seq<char>,
    a: Seq<char>,
    rest: Seq<char>,
)
    requires
        !protocol.contains(' '),
        spaceless(a),
        rest.len() > 0 ==> rest[0] == ' ',
        ip::socket_addr(a) is Some,
    ensures
        ({
            let line = "SMETHOD "@ + protocol + " "@ + a + rest;
            &&& server_method(protocol, line) matches Some(m) && m.addr == ip::socket_addr(a)
                && m.args == args_word(words(rest))
            &&& method(PtRole::Server, protocol, line) == server_method(protocol, line)
            &&& after_line(startup(PtRole::Server, protocol), line) == (
                (StartupView {
                    role: PtRole::Server,
                    protocol,
                    found: server_method(protocol, line)->0,
                }),
                StartupStep::Waiting,
            )
        }),
{
    reveal_strlit("SMETHOD ");
    reveal_strlit(" ");
    let line = "SMETHOD "@ + protocol + " "@ + a + rest;
    assert(line.take(8) =~= "SMETHOD "@);
    assert(line.skip(8) =~= protocol + seq![' '] + (a + rest));
    lemma_up_to_a_space(protocol, a + rest);
    assert(a.len() > 0);
    lemma_first_word(a, rest);
    assert((seq![a] + words(rest)).drop_first() =~= words(rest));
    lemma_method_lines_go_on(line);
}

/// The line `CMETHOD <protocol> socks5 <address>`, with or without further
/// words, offers the method at exactly the address that it gives, of either
/// family, for every protocol without a space and every address without
/// whitespace.
#[verifier::rlimit(40)]
pub proof fn client_lines_offer_their_address(
    protocol: Seq<char>,
    a: Seq<char>,
    rest: Seq<char>,
)
    requires
        !protocol.contains(' '),
        spaceless(a),
        rest.len() > 0 ==> rest[0] == ' ',
        ip::socket_addr(a) is Some,
    ensures
        ({
            let line = "CMETHOD "@ + protocol + " socks5 "@ + a + rest;
            &&& client_method(protocol, line) matches Some(m) && m.addr == ip::socket_addr(a)
                && m.args is None
            &&& method(PtRole::Client, protocol, line) == client_method(protocol, line)
            &&& after_line(startup(PtRole::Client, protocol), line) == (
                (StartupView {
                    role: PtRole::Client,
                    protocol,
                    found: client_method(protocol, line)->0,
                }),
                StartupStep::Waiting,
            )
        }),
{
    let line = "CMETHOD "@ + protocol + " socks5 "@ + a + rest;
    let tail = a + rest;
    let word = "socks5"@;
    let after = word + seq![' '] + tail;
    lemma_client_literals();
    lemma_line_parts("CMETHOD "@, protocol, word, a, rest);
    assert(line.take(8) == "CMETHOD "@);
    assert(line.skip(8) == protocol + seq![' '] + after);
    lemma_up_to_a_space(protocol, after);
    lemma_up_to_a_space(word, tail);
    assert(a.len() > 0);
    lemma_first_word(a, rest);
    assert(client_method(protocol, line) == Some(
        MethodView { addr: first_addr(words(tail)), args: None },
    ));
    lemma_method_lines_go_on(line);
}

proof fn lemma_client_literals()
    ensures
        " socks5 "@ == seq![' '] + "socks5"@ + seq![' '],
        "socks5"@.len() == 6,
        !"socks5"@.contains(' '),
        "CMETHOD "@.len() == 8,
{
    reveal_strlit(" socks5 ");
    reveal_strlit("socks5");
    reveal_strlit("CMETHOD ");
    assert(" socks5 "@ =~= seq![' '] + "socks5"@ + seq![' ']);
    let word = "socks5"@;
    assert(word[0] == 's' && word[1] == 'o' && word[2] == 'c' && word[3] == 'k' && word[4] == 's'
        && word[5] == '5');
}

proof fn lemma_line_parts(
    head: Seq<char>,
    protocol: Seq<char>,
    word: Seq<char>,
    a: Seq<char>,
    rest: Seq<char>,
)
    ensures
        ({
            let line = head + protocol + (seq![' '] + word + seq![' ']) + a + rest;
            &&& line.len() >= head.len()
            &&& line.take(head.len() as int) == head
            &&& line.skip(head.len() as int) == protocol + seq![' '] + (word + seq![' '] + (a
                + rest))
        }),
{
    let line = head + protocol + (seq![' '] + word + seq![' ']) + a + rest;
    let n = head.len() as int;
    let x = line.skip(n);
    let y = protocol + seq![' '] + (word + seq![' '] + (a + rest));
    assert(line.take(n) =~= head);
    assert(x.len() == y.len());
    assert forall|i: int| 0 <= i < x.len() implies x[i] == y[i] by {
        assert(x[i] == line[n + i]);
    }
    assert(x =~= y);
}

/// A server line offers the method of a protocol without a space exactly where
/// it begins with `SMETHOD`, the protocol and a space.
pub proof fn server_lines_are_known_by_their_start(protocol: Seq<char>, line: Seq<char>)
    requires
        !protocol.contains(' '),
    ensures
        server_method(protocol, line) is Some <==> text::starts_with(
            line,
            "SMETHOD "@ + protocol + " "@,
        ),
        method(PtRole::Server, protocol, line) == server_method(protocol, line),
{
    reveal_strlit("SMETHOD ");
    reveal_strlit(" ");
    let n = protocol.len() as int;
    let start = "SMETHOD "@ + protocol + " "@;
    let rest = line.skip(8);
    text::lemma_find(rest, ' ');
    if text::starts_with(line, start) {
        assert(start.len() == n + 9);
        assert(line.take(n + 9) == start);
        assert forall|j: int| 0 <= j < n + 9 implies line[j] == start[j] by {
            assert(line.take(n + 9)[j] == line[j]);
        }
        assert(line.take(8) =~= "SMETHOD "@);
        assert forall|j: int| 0 <= j < n implies rest[j] != ' ' by {
            assert(rest[j] == start[j + 8] && start[j + 8] == protocol[j]);
            assert(protocol.contains(protocol[j]));
        }
        assert(rest[n] == start[n + 8]);
        text::lemma_find_is(rest, ' ', n);
        assert(rest.take(n) =~= protocol);
    }
    if server_method(protocol, line) is Some {
        assert(rest.take(n) == protocol);
        assert(line.take(n + 9) =~= line.take(8) + rest.take(n) + seq![rest[n]]);
        assert(" "@ =~= seq![' ']);
        assert(line.take(n + 9) =~= start);
    }
}

/// A client line offers the method of a protocol without a space exactly where
/// it begins with `CMETHOD`, the protocol, `socks5` and a space.
#[verifier::rlimit(40)]
pub proof fn client_lines_are_known_by_their_start(protocol: Seq<char>, line: Seq<char>)
    requires
        !protocol.contains(' '),
    ensures
        client_method(protocol, line) is Some <==> text::starts_with(
            line,
            "CMETHOD "@ + protocol + " socks5 "@,
        ),
        method(PtRole::Client, protocol, line) == client_method(protocol, line),
{
    reveal_strlit("CMETHOD ");
    reveal_strlit(" socks5 ");
    reveal_strlit("socks5");
    let n = protocol.len() as int;
    let start = "CMETHOD "@ + protocol + " socks5 "@;
    let rest = line.skip(8);
    let after = rest.skip(n + 1);
    text::lemma_find(rest, ' ');
    if text::starts_with(line, start) {
        assert(start.len() == n + 16);
        assert(line.take(n + 16) == start);
        assert forall|j: int| 0 <= j < n + 16 implies line[j] == start[j] by {
            assert(line.take(n + 16)[j] == line[j]);
        }
        assert(line.take(8) =~= "CMETHOD "@);
        assert forall|j: int| 0 <= j < n implies rest[j] != ' ' by {
            assert(rest[j] == start[j + 8] && start[j + 8] == protocol[j]);
            assert(protocol.contains(protocol[j]));
        }
        assert(rest[n] == start[n + 8]);
        text::lemma_find_is(rest, ' ', n);
        assert(rest.take(n) =~= protocol);
        assert forall|j: int| 0 <= j < 7 implies after[j] == " socks5 "@[j + 1] by {
            assert(after[j] == line[n + 9 + j]);
            assert(start[n + 9 + j] == " socks5 "@[j + 1]);
        }
        text::lemma_find_is(after, ' ', 6);
        assert(after.take(6) =~= "socks5"@);
    }
    if client_method(protocol, line) is Some {
        assert(rest.take(n) == protocol);
        text::lemma_find(after, ' ');
        assert(after.take(6) == "socks5"@);
        assert(line.take(n + 16) =~= line.take(8) + rest.take(n) + seq![rest[n]] + after.take(6)
            + seq![after[6]]);
        assert(" socks5 "@ =~= seq![' '] + "socks5"@ + seq![' ']);
        assert(line.take(n + 16) =~= start);
    }
}

/// The arguments of a method are what follows `ARGS:` in the first further
/// word that begins so; where none does, there are none.
pub proof fn the_first_args_word_counts(
    before: Seq<Seq<char>>,
    x: Seq<char>,
    after: Seq<Seq<char>>,
)
    requires
        forall|i: int| 0 <= i < before.len() ==> !text::starts_with(#[trigger] before[i], "ARGS:"@),
    ensures
        args_word(before + seq!["ARGS:"@ + x] + after) == Some(x),
        args_word(before) is None,
    decreases before.len(),
{
    reveal_strlit("ARGS:");
    let word = "ARGS:"@ + x;
    let all = before + seq![word] + after;
    if before.len() == 0 {
        assert(all[0] == word);
        assert(word.take(5) =~= "ARGS:"@);
        assert(word.skip(5) =~= x);
    } else {
        let tail = before.drop_first();
        assert forall|i: int| 0 <= i < tail.len() implies !text::starts_with(
            #[trigger] tail[i],
            "ARGS:"@,
        ) by {
            assert(tail[i] == before[i + 1]);
        }
        the_first_args_word_counts(tail, x, after);
        assert(all[0] == before[0]);
        assert(!text::starts_with(before[0], "ARGS:"@));
        assert(all.drop_first() =~= tail + seq![word] + after);
    }
}

/// A process is told the version of the protocol, the one transport that it is
/// for, where to keep its state, and to exit when its input closes; a server
/// also where to listen and where to forward to, and its options exactly
/// where there are any. It is told nothing else, and nothing twice.
pub proof fn processes_are_told_what_they_need(
    cfg: TransportView,
    bind_addr: Seq<char>,
    orport_addr: Seq<char>,
    options: Seq<(Seq<char>, Seq<char>)>,
)
    ensures
        ({
            let client = client_env(cfg);
            let server = server_env(cfg, bind_addr, orport_addr, options);
            let told = (
                "TOR_PT_SERVER_TRANSPORT_OPTIONS"@,
                pt_args::encoded_options(cfg.protocol, options),
            );
            &&& client.len() == 4
            &&& client.contains(("TOR_PT_MANAGED_TRANSPORT_VER"@, "1"@))
            &&& client.contains(("TOR_PT_CLIENT_TRANSPORTS"@, cfg.protocol))
            &&& client.contains(("TOR_PT_STATE_LOCATION"@, cfg.workdir))
            &&& client.contains(("TOR_PT_EXIT_ON_STDIN_CLOSE"@, "1"@))
            &&& server.len() == if options.len() > 0 {
                7int
            } else {
                6
            }
            &&& server.contains(("TOR_PT_MANAGED_TRANSPORT_VER"@, "1"@))
            &&& server.contains(("TOR_PT_SERVER_TRANSPORTS"@, cfg.protocol))
            &&& server.contains(("TOR_PT_SERVER_BINDADDR"@, cfg.protocol + "-"@ + bind_addr))
            &&& server.contains(("TOR_PT_ORPORT"@, orport_addr))
            &&& server.contains(("TOR_PT_STATE_LOCATION"@, cfg.workdir))
            &&& server.contains(("TOR_PT_EXIT_ON_STDIN_CLOSE"@, "1"@))
            &&& options.len() > 0 ==> server.contains(told)
        }),
{
    let client = client_env(cfg);
    let server = server_env(cfg, bind_addr, orport_addr, options);
    assert(client[0] == ("TOR_PT_MANAGED_TRANSPORT_VER"@, "1"@));
    assert(client[1] == ("TOR_PT_CLIENT_TRANSPORTS"@, cfg.protocol));
    assert(client[2] == ("TOR_PT_STATE_LOCATION"@, cfg.workdir));
    assert(client[3] == ("TOR_PT_EXIT_ON_STDIN_CLOSE"@, "1"@));
    assert(server[0] == ("TOR_PT_MANAGED_TRANSPORT_VER"@, "1"@));
    assert(server[1] == ("TOR_PT_SERVER_TRANSPORTS"@, cfg.protocol));
    assert(server[2] == ("TOR_PT_SERVER_BINDADDR"@, cfg.protocol + "-"@ + bind_addr));
    assert(server[3] == ("TOR_PT_ORPORT"@, orport_addr));
    assert(server[4] == ("TOR_PT_STATE_LOCATION"@, cfg.workdir));
    assert(server[5] == ("TOR_PT_EXIT_ON_STDIN_CLOSE"@, "1"@));
    if options.len() > 0 {
        assert(server[6] == (
            "TOR_PT_SERVER_TRANSPORT_OPTIONS"@,
            pt_args::encoded_options(cfg.protocol, options),
        ));
    }
}

/// A line that begins with `VERSION-ERROR`, or with `CMETHOD-ERROR` for a
/// client and `SMETHOD-ERROR` for a server, fails the startup with a reason
/// that names the side and the protocol and repeats the line; no other line
/// fails it but the one that ends the report.
pub proof fn only_error_lines_fail_a_startup(s: StartupView, line: Seq<char>)
    ensures
        ({
            let client = s.role == PtRole::Client;
            let error = text::starts_with(line, "VERSION-ERROR"@) || text::starts_with(
                line,
                if client {
                    "CMETHOD-ERROR"@
                } else {
                    "SMETHOD-ERROR"@
                },
            );
            let done = line == if client {
                "CMETHODS DONE"@
            } else {
                "SMETHODS DONE"@
            };
            let who = (if client {
                "PT client '"@
            } else {
                "PT server '"@
            }) + s.protocol + "': "@;
            let (next, step) = after_line(s, line);
            &&& error ==> step == StartupStep::Failed(who + line)
            &&& !error && done ==> step == (match s.found.addr {
                Some(a) => StartupStep::Ready(a, s.found.args),
                None => StartupStep::Failed(
                    who + if client {
                        "no CMETHOD line seen before CMETHODS DONE"@
                    } else {
                        "no SMETHOD line seen before SMETHODS DONE"@
                    },
                ),
            })
            &&& !error && !done ==> step is Waiting
            &&& error || done ==> next == s
            &&& next == StartupView { found: next.found, ..s }
        }),
{
}

/// A process has half a minute to report, and five seconds to exit.
pub proof fn processes_have_limits()
    ensures
        STARTUP_TIMEOUT == 30,
        SHUTDOWN_TIMEOUT == 5,
{
}

/// A line of a server offers what its words behind the protocol say: the first
/// one is the address, where it can be read as one, and the arguments are
/// among the others.
pub proof fn server_lines_are_read_by_their_words(protocol: Seq<char>, tail: Seq<char>)
    requires
        !protocol.contains(' '),
    ensures
        ({
            let w = words(tail);
            server_method(protocol, "SMETHOD "@ + protocol + " "@ + tail) == Some(
                MethodView {
                    addr: if w.len() > 0 {
                        ip::socket_addr(w[0])
                    } else {
                        None
                    },
                    args: if w.len() > 0 {
                        args_word(w.skip(1))
                    } else {
                        None
                    },
                },
            )
        }),
{
    reveal_strlit("SMETHOD ");
    reveal_strlit(" ");
    let line = "SMETHOD "@ + protocol + " "@ + tail;
    assert(line.take(8) =~= "SMETHOD "@);
    assert(line.skip(8) =~= protocol + seq![' '] + tail);
    lemma_up_to_a_space(protocol, tail);
    if words(tail).len() > 0 {
        assert(words(tail).skip(1) =~= words(tail).drop_first());
    }
}

/// A line of a client offers what its words behind `socks5` say: the first one
/// is the address, where it can be read as one.
pub proof fn client_lines_are_read_by_their_words(protocol: Seq<char>, tail: Seq<char>)
    requires
        !protocol.contains(' '),
    ensures
        ({
            let w = words(tail);
            client_method(protocol, "CMETHOD "@ + protocol + " socks5 "@ + tail) == Some(
                MethodView {
                    addr: if w.len() > 0 {
                        ip::socket_addr(w[0])
                    } else {
                        None
                    },
                    args: None,
                },
            )
        }),
{
    let none = Seq::<char>::empty();
    let word = "socks5"@;
    let line = "CMETHOD "@ + protocol + " socks5 "@ + tail;
    let after = word + seq![' '] + tail;
    lemma_client_literals();
    lemma_line_parts("CMETHOD "@, protocol, word, tail, none);
    assert(line + none =~= line);
    assert(tail + none =~= tail);
    assert(line.take(8) == "CMETHOD "@);
    assert(line.skip(8) == protocol + seq![' '] + after);
    lemma_up_to_a_space(protocol, after);
    lemma_up_to_a_space(word, tail);
}

/// No line offers the method of a protocol with a space in its name.
pub proof fn protocols_are_single_words(role: PtRole, protocol: Seq<char>, line: Seq<char>)
    requires
        protocol.contains(' '),
    ensures
        method(role, protocol, line) is None,
{
    let rest = line.skip(8);
    let i = text::find(rest, ' ');
    text::lemma_find(rest, ' ');
    if i < rest.len() && rest.take(i) == protocol {
        let k = choose|k: int| 0 <= k < protocol.len() && protocol[k] == ' ';
        assert(rest.take(i)[k] == rest[k]);
    }
}

/// The model of a startup is its fields, and that of its progress what it holds.
pub proof fn a_startup_is_its_fields(
    s: PtStartup,
    m: Method,
    cfg: PluggableTransportConfig,
    a: SocketAddr,
    args: Option<String>,
    e: String,
)
    ensures
        s@.role == s.role && s@.protocol == s.protocol@ && s@.found == s.found@,
        m@.addr == m.addr && m@.args == text::option_text(m.args),
        cfg@.protocol == cfg.protocol@ && cfg@.binary == cfg.binary@ && cfg@.workdir
            == cfg.workdir@,
        PtProgress::Waiting@ is Waiting,
        PtProgress::Ready(a, args)@ == StartupStep::Ready(a, text::option_text(args)),
        PtProgress::Failed(e)@ == StartupStep::Failed(e@),
{
}

/// Every message about a process names the side that it plays and its
/// protocol, and then says what is the matter, as it is.
pub proof fn messages_name_the_side_and_the_protocol(protocol: Seq<char>, what: Seq<char>)
    ensures
        about(PtRole::Client, protocol, what) == "PT client '"@ + protocol + "': "@ + what,
        about(PtRole::Server, protocol, what) == "PT server '"@ + protocol + "': "@ + what,
        done_line(PtRole::Client) == "CMETHODS DONE"@,
        done_line(PtRole::Server) == "SMETHODS DONE"@,
{
}

} // verus!

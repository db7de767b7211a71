//! Dialling through the SOCKS5 proxy of a pluggable transport client
//! (RFC 1928), with its arguments in the username and password fields
//! (RFC 1929).
use vstd::prelude::*;
use vstd::slice::{slice_subrange, slice_to_vec};
use vstd::utf8::*;

use crate::ip;
use crate::ip::IpAddr;
use crate::pt_args;
use crate::text;

verus! {

// ---------------------------------------------------------------------------
// Addresses
// ---------------------------------------------------------------------------

/// The type and bytes of a destination address, or why there are none.
pub open spec fn socks5_addr(host: Seq<char>) -> Result<Seq<u8>, Seq<char>> {
    match ip::ip(ip::unbracketed(host)) {
        Some(IpAddr::V4(bits)) => Ok(seq![1u8] + ip::be_bytes(bits as nat, 4)),
        Some(IpAddr::V6(bits)) => Ok(seq![4u8] + ip::be_bytes(bits as nat, 16)),
        None => if encode_utf8(host).len() > 255 {
            Err("target hostname too long: "@ + host)
        } else {
            Ok(seq![3u8, encode_utf8(host).len() as u8] + encode_utf8(host))
        },
    }
}

/// Encode a SOCKS5 destination address (ATYP + address bytes, RFC 1928 §4).
///
/// IP literals — including the bracketed IPv6 form that a URL's host has — use
/// the native ATYP 0x01/0x04 encodings. Sending a literal as a "domain name"
/// instead breaks in practice: Go-based PTs (lyrebird, Snowflake) feed the
/// domain string through `net.JoinHostPort`, which double-brackets a bracketed
/// IPv6 address into an undialable `[[::1]]:port`, and Tor itself never
/// exercises the domain path for bridge IPs. Genuine hostnames keep ATYP 0x03
/// so the PT resolves them inside the obfuscated channel.
pub fn encode_socks5_addr(host: &str) -> (r: Result<Vec<u8>, String>)
    ensures
        match r {
            Ok(v) => socks5_addr(host@) == Ok::<Seq<u8>, Seq<char>>(v@),
            Err(e) => socks5_addr(host@) == Err::<Seq<u8>, Seq<char>>(e@),
        },
{
    let literal = ip::strip_brackets(host);
    let mut out: Vec<u8> = Vec::new();
    match ip::parse_ip(literal.as_str()) {
        Some(IpAddr::V4(bits)) => {
            out.push(1);
            ip::push_be_bytes(&mut out, bits as u128, 4);
            assert(out@ =~= seq![1u8] + ip::be_bytes(bits as nat, 4));
            Ok(out)
        },
        Some(IpAddr::V6(bits)) => {
            out.push(4);
            ip::push_be_bytes(&mut out, bits, 16);
            assert(out@ =~= seq![4u8] + ip::be_bytes(bits as nat, 16));
            Ok(out)
        },
        None => {
            let bytes = host.as_bytes();
            if bytes.len() > 255 {
                return Err(text::join("target hostname too long: ", host));
            }
            out.push(3);
            out.push(bytes.len() as u8);
            push_bytes(&mut out, bytes);
            assert(out@ =~= seq![3u8, bytes@.len() as u8] + bytes@);
            Ok(out)
        },
    }
}

/// A literal is never sent as a name: an IP address goes as its bytes, in
/// brackets or not, and everything else as it is written.
pub proof fn literals_are_never_sent_as_names(host: Seq<char>)
    ensures
        match ip::ip(ip::unbracketed(host)) {
            Some(IpAddr::V4(bits)) => socks5_addr(host) matches Ok(b) && b.len() == 5 && b[0] == 1
                && ip::be_value(b.skip(1)) == bits,
            Some(IpAddr::V6(bits)) => socks5_addr(host) matches Ok(b) && b.len() == 17 && b[0] == 4
                && ip::be_value(b.skip(1)) == bits,
            None => encode_utf8(host).len() <= 255 ==> (socks5_addr(host) matches Ok(b) && b[0] == 3
                && b[1] == encode_utf8(host).len() && b.skip(2) == encode_utf8(host)),
        },
{
    reveal_with_fuel(ip::holds, 17);
    match ip::ip(ip::unbracketed(host)) {
        Some(IpAddr::V4(bits)) => {
            ip::bytes_spell_the_number(bits as nat, 4);
            assert((seq![1u8] + ip::be_bytes(bits as nat, 4)).skip(1) =~= ip::be_bytes(
                bits as nat,
                4,
            ));
        },
        Some(IpAddr::V6(bits)) => {
            ip::bytes_spell_the_number(bits as nat, 16);
            assert((seq![4u8] + ip::be_bytes(bits as nat, 16)).skip(1) =~= ip::be_bytes(
                bits as nat,
                16,
            ));
        },
        None => {
            let e = encode_utf8(host);
            assert((seq![3u8, e.len() as u8] + e).skip(2) =~= e);
        },
    }
}

/// Appends bytes.
fn push_bytes(out: &mut Vec<u8>, bytes: &[u8])
    ensures
        final(out)@ == old(out)@ + bytes@,
{
    let mut i: usize = 0;
    while i < bytes.len()
        invariant
            i <= bytes@.len(),
            out@ == old(out)@ + bytes@.take(i as int),
        decreases bytes@.len() - i,
    {
        out.push(bytes[i]);
        i = i + 1;
        assert(out@ =~= old(out)@ + bytes@.take(i as int));
    }
    assert(bytes@.take(i as int) =~= bytes@);
}

// ---------------------------------------------------------------------------
// Username and password
// ---------------------------------------------------------------------------

/// The username and password that carry encoded arguments, or why they
/// cannot. An empty field is written as one NUL.
pub open spec fn auth_fields(bytes: Seq<u8>) -> Result<(Seq<u8>, Seq<u8>), Seq<char>> {
    if bytes.len() == 0 {
        Ok((seq![0u8], seq![0u8]))
    } else if bytes.len() <= 255 {
        Ok((bytes, seq![0u8]))
    } else if bytes.len() <= 510 {
        Ok((bytes.take(255), bytes.skip(255)))
    } else {
        Err(
            "PT args too long to encode in SOCKS5 auth: "@ + text::decimal(bytes.len())
                + " bytes (max 510)"@,
        )
    }
}

/// Split an encoded PT arg string into SOCKS5 username/password fields
/// (RFC 1929, as used by pt-spec §3.5).
///
/// * empty          → a single NUL username, NUL password (RFC 1929 forbids
///                    zero-length fields, and PTs expect a NUL placeholder)
/// * `len <= 255`   → all in username, NUL password
/// * `len <= 510`   → first 255 bytes username, remainder password
/// * `len > 510`    → error (cannot be represented in two 255-byte fields)
pub fn split_socks5_auth(encoded: &str) -> (r: Result<(Vec<u8>, Vec<u8>), String>)
    ensures
        match r {
            Ok((u, p)) => auth_fields(encode_utf8(encoded@)) == Ok::<
                (Seq<u8>, Seq<u8>),
                Seq<char>,
            >((u@, p@)),
            Err(e) => auth_fields(encode_utf8(encoded@)) == Err::<(Seq<u8>, Seq<u8>), Seq<char>>(
                e@,
            ),
        },
{
    let bytes = encoded.as_bytes();
    let n = bytes.len();
    if n == 0 {
        let u: Vec<u8> = vec![0u8];
        let p: Vec<u8> = vec![0u8];
        assert(u@ =~= seq![0u8] && p@ =~= seq![0u8]);
        return Ok((u, p));
    }
    if n <= 255 {
        let p: Vec<u8> = vec![0u8];
        assert(p@ =~= seq![0u8]);
        return Ok((slice_to_vec(bytes), p));
    }
    if n <= 510 {
        let u = slice_to_vec(slice_subrange(bytes, 0, 255));
        let p = slice_to_vec(slice_subrange(bytes, 255, n));
        assert(u@ =~= bytes@.take(255) && p@ =~= bytes@.skip(255));
        return Ok((u, p));
    }
    let mut msg = "PT args too long to encode in SOCKS5 auth: ".to_owned();
    text::push_decimal(&mut msg, n as u64);
    msg.append(" bytes (max 510)");
    Err(msg)
}

/// Neither field is empty or longer than 255 bytes, and together they hold the
/// arguments: all in the username, or its 255 bytes and then the password.
pub proof fn auth_fields_hold_the_arguments(bytes: Seq<u8>)
    ensures
        auth_fields(bytes) is Ok <==> bytes.len() <= 510,
        auth_fields(bytes) matches Ok((u, p)) ==> {
            &&& 1 <= u.len() <= 255
            &&& 1 <= p.len() <= 255
            &&& 0 < bytes.len() <= 255 ==> u == bytes
            &&& 255 < bytes.len() ==> u + p == bytes
        },
{
    if 255 < bytes.len() <= 510 {
        assert(bytes.take(255) + bytes.skip(255) =~= bytes);
    }
}

// ---------------------------------------------------------------------------
// The dialogue
// ---------------------------------------------------------------------------

/// What the dialler waits for.
#[derive(Clone, Copy, Debug, PartialEq, Eq, Structural)]
pub enum Socks5Phase {
    /// The method that the proxy chooses.
    Greeting,
    /// Its answer to the username and password.
    Auth,
    /// The header of its answer to the request.
    Reply,
    /// The length of the domain name in that answer.
    DomainLength,
    /// The bound address and port in that answer.
    BoundAddress,
    /// Nothing any more.
    Done,
}

/// A dialogue with the proxy.
#[derive(Debug)]
pub struct Socks5Dial {
    /// What it waits for.
    pub phase: Socks5Phase,
    /// The host to reach.
    pub host: String,
    /// The port to reach.
    pub port: u16,
    /// The encoded arguments of the transport.
    pub encoded: String,
}

/// A dialogue with the proxy, in mathematical terms.
pub struct Socks5State {
    pub phase: Socks5Phase,
    pub host: Seq<char>,
    pub port: u16,
    pub encoded: Seq<char>,
}

impl View for Socks5Dial {
    type V = Socks5State;

    open spec fn view(&self) -> Socks5State {
        Socks5State {
            phase: self.phase,
            host: self.host@,
            port: self.port,
            encoded: self.encoded@,
        }
    }
}

/// What to do next.
#[derive(Debug)]
pub enum Socks5Action {
    /// Write `send`, then read `receive` bytes and hand them over.
    Exchange { send: Vec<u8>, receive: usize },
    /// The stream is ready to carry the link protocol.
    Connected,
    /// Give up, for this reason.
    Failed(String),
}

/// What to do next, in mathematical terms.
pub enum Socks5Step {
    Exchange { send: Seq<u8>, receive: nat },
    Connected,
    Failed(Seq<char>),
}

impl View for Socks5Action {
    type V = Socks5Step;

    open spec fn view(&self) -> Socks5Step {
        match self {
            Socks5Action::Exchange { send, receive } => Socks5Step::Exchange {
                send: send@,
                receive: *receive as nat,
            },
            Socks5Action::Connected => Socks5Step::Connected,
            Socks5Action::Failed(e) => Socks5Step::Failed(e@),
        }
    }
}

/// The greeting: with arguments to deliver only username/password is offered,
/// without any also no authentication.
pub open spec fn greeting(encoded: Seq<char>) -> Seq<u8> {
    if encoded.len() == 0 {
        seq![5u8, 2, 0, 2]
    } else {
        seq![5u8, 1, 2]
    }
}

/// The message that carries a username and a password.
pub open spec fn auth_request(u: Seq<u8>, p: Seq<u8>) -> Seq<u8> {
    seq![1u8, u.len() as u8] + u + seq![p.len() as u8] + p
}

/// The request to connect to an encoded address.
pub open spec fn connect_request(addr: Seq<u8>, port: u16) -> Seq<u8> {
    seq![5u8, 1, 0] + addr + seq![(port / 256) as u8, (port % 256) as u8]
}

/// A reason that ends in a byte.
pub open spec fn about_byte(what: Seq<char>, b: u8) -> Seq<char> {
    what + text::hex_byte(b)
}

/// The dialogue after a failure.
pub open spec fn fail(s: Socks5State, reason: Seq<char>) -> (Socks5State, Socks5Step) {
    (Socks5State { phase: Socks5Phase::Done, ..s }, Socks5Step::Failed(reason))
}

/// The dialogue after an exchange.
pub open spec fn exchange(
    s: Socks5State,
    phase: Socks5Phase,
    send: Seq<u8>,
    receive: nat,
) -> (Socks5State, Socks5Step) {
    (Socks5State { phase, ..s }, Socks5Step::Exchange { send, receive })
}

/// The first step of a dialogue.
pub open spec fn socks5_start(
    host: Seq<char>,
    port: u16,
    args: Seq<(Seq<char>, Seq<char>)>,
) -> (Socks5State, Socks5Step) {
    let encoded = pt_args::encoded_args(args);
    exchange(
        Socks5State { phase: Socks5Phase::Greeting, host, port, encoded },
        Socks5Phase::Greeting,
        greeting(encoded),
        2,
    )
}

/// The step that asks for the connection.
pub open spec fn socks5_request(s: Socks5State) -> (Socks5State, Socks5Step) {
    match socks5_addr(s.host) {
        Ok(addr) => exchange(s, Socks5Phase::Reply, connect_request(addr, s.port), 4),
        Err(e) => fail(s, e),
    }
}

/// The step that follows the method chosen by the proxy.
pub open spec fn after_greeting(s: Socks5State, b: Seq<u8>) -> (Socks5State, Socks5Step) {
    if b[0] != 5 {
        fail(s, about_byte("SOCKS5: bad greeting version 0x"@, b[0]))
    } else if b[1] == 0 && s.encoded.len() == 0 {
        socks5_request(s)
    } else if b[1] == 2 {
        match auth_fields(encode_utf8(s.encoded)) {
            Ok((u, p)) => exchange(s, Socks5Phase::Auth, auth_request(u, p), 2),
            Err(e) => fail(s, e),
        }
    } else {
        fail(s, about_byte("SOCKS5: server chose unsupported method 0x"@, b[1]))
    }
}

/// The step that follows the answer to the username and password.
pub open spec fn after_auth(s: Socks5State, b: Seq<u8>) -> (Socks5State, Socks5Step) {
    if b[1] != 0 {
        fail(s, about_byte("SOCKS5 sub-neg rejected (status 0x"@, b[1]) + ")"@)
    } else {
        socks5_request(s)
    }
}

/// The step that follows the header of the answer to the request: what is
/// left of the answer is read and dropped.
pub open spec fn after_reply(s: Socks5State, b: Seq<u8>) -> (Socks5State, Socks5Step) {
    if b[1] != 0 {
        fail(s, about_byte("SOCKS5 CONNECT failed: reply 0x"@, b[1]))
    } else if b[3] == 1 {
        exchange(s, Socks5Phase::BoundAddress, seq![], 6)
    } else if b[3] == 4 {
        exchange(s, Socks5Phase::BoundAddress, seq![], 18)
    } else if b[3] == 3 {
        exchange(s, Socks5Phase::DomainLength, seq![], 1)
    } else {
        fail(s, about_byte("SOCKS5: unknown address type 0x"@, b[3]))
    }
}

/// The step that follows bytes from the proxy.
pub open spec fn socks5_step(s: Socks5State, b: Seq<u8>) -> (Socks5State, Socks5Step) {
    match s.phase {
        Socks5Phase::Greeting => after_greeting(s, b),
        Socks5Phase::Auth => after_auth(s, b),
        Socks5Phase::Reply => after_reply(s, b),
        Socks5Phase::DomainLength => exchange(
            s,
            Socks5Phase::BoundAddress,
            seq![],
            (b[0] + 2) as nat,
        ),
        _ => (Socks5State { phase: Socks5Phase::Done, ..s }, Socks5Step::Connected),
    }
}

/// Whether `n` bytes can come in a phase.
pub open spec fn awaits(phase: Socks5Phase, n: nat) -> bool {
    match phase {
        Socks5Phase::Greeting => n == 2,
        Socks5Phase::Auth => n == 2,
        Socks5Phase::Reply => n == 4,
        Socks5Phase::DomainLength => n == 1,
        Socks5Phase::BoundAddress => n >= 2,
        Socks5Phase::Done => false,
    }
}

fn byte_reason(what: &str, b: u8) -> (r: String)
    ensures
        r@ == about_byte(what@, b),
{
    let mut msg = what.to_owned();
    text::push_hex_byte(&mut msg, b);
    msg
}

impl Socks5Dial {
    /// Starts a dialogue that asks the proxy to connect to `host` at `port`
    /// and delivers the arguments `args` to its transport.
    pub fn start(host: &str, port: u16, args: &[(String, String)]) -> (r: (Self, Socks5Action))
        ensures
            (r.0@, r.1@) == socks5_start(host@, port, text::pair_texts(args@)),
    {
        let encoded = pt_args::encode_pt_args(args);
        let send: Vec<u8> = if encoded.as_str().is_empty() {
            vec![5u8, 2, 0, 2]
        } else {
            vec![5u8, 1, 2]
        };
        assert(send@ =~= greeting(encoded@));
        (
            Socks5Dial { phase: Socks5Phase::Greeting, host: host.to_owned(), port, encoded },
            Socks5Action::Exchange { send, receive: 2 },
        )
    }

    fn failed(&mut self, reason: String) -> (r: Socks5Action)
        ensures
            (final(self)@, r@) == fail(old(self)@, reason@),
    {
        self.phase = Socks5Phase::Done;
        Socks5Action::Failed(reason)
    }

    fn exchange(&mut self, phase: Socks5Phase, send: Vec<u8>, receive: usize) -> (r: Socks5Action)
        ensures
            (final(self)@, r@) == exchange(old(self)@, phase, send@, receive as nat),
    {
        self.phase = phase;
        Socks5Action::Exchange { send, receive }
    }

    fn request(&mut self) -> (r: Socks5Action)
        ensures
            (final(self)@, r@) == socks5_request(old(self)@),
    {
        match encode_socks5_addr(self.host.as_str()) {
            Ok(addr) => {
                let mut req: Vec<u8> = vec![5u8, 1, 0];
                push_bytes(&mut req, addr.as_slice());
                req.push((self.port / 256) as u8);
                req.push((self.port % 256) as u8);
                assert(req@ =~= connect_request(addr@, self.port));
                self.exchange(Socks5Phase::Reply, req, 4)
            },
            Err(e) => self.failed(e),
        }
    }

    fn authenticate(&mut self) -> (r: Socks5Action)
        ensures
            (final(self)@, r@) == (match auth_fields(encode_utf8(old(self)@.encoded)) {
                Ok((u, p)) => exchange(old(self)@, Socks5Phase::Auth, auth_request(u, p), 2),
                Err(e) => fail(old(self)@, e),
            }),
    {
        match split_socks5_auth(self.encoded.as_str()) {
            Ok((u, p)) => {
                proof {
                    auth_fields_hold_the_arguments(encode_utf8(self.encoded@));
                }
                let mut msg: Vec<u8> = vec![1u8];
                msg.push(u.len() as u8);
                push_bytes(&mut msg, u.as_slice());
                msg.push(p.len() as u8);
                push_bytes(&mut msg, p.as_slice());
                assert(msg@ =~= auth_request(u@, p@));
                self.exchange(Socks5Phase::Auth, msg, 2)
            },
            Err(e) => self.failed(e),
        }
    }

    /// Takes the bytes that the last exchange asked for and says what to do
    /// next.
    pub fn received(&mut self, b: &[u8]) -> (r: Socks5Action)
        requires
            awaits(old(self)@.phase, b@.len()),
        ensures
            (final(self)@, r@) == socks5_step(old(self)@, b@),
    {
        let none: Vec<u8> = Vec::new();
        assert(none@ =~= seq![]);
        match self.phase {
            Socks5Phase::Greeting => {
                if b[0] != 5 {
                    self.failed(byte_reason("SOCKS5: bad greeting version 0x", b[0]))
                } else if b[1] == 0 && self.encoded.as_str().is_empty() {
                    self.request()
                } else if b[1] == 2 {
                    self.authenticate()
                } else {
                    self.failed(byte_reason("SOCKS5: server chose unsupported method 0x", b[1]))
                }
            },
            Socks5Phase::Auth => {
                if b[1] != 0 {
                    let mut msg = byte_reason("SOCKS5 sub-neg rejected (status 0x", b[1]);
                    msg.append(")");
                    self.failed(msg)
                } else {
                    self.request()
                }
            },
            Socks5Phase::Reply => {
                if b[1] != 0 {
                    self.failed(byte_reason("SOCKS5 CONNECT failed: reply 0x", b[1]))
                } else if b[3] == 1 {
                    self.exchange(Socks5Phase::BoundAddress, none, 6)
                } else if b[3] == 4 {
                    self.exchange(Socks5Phase::BoundAddress, none, 18)
                } else if b[3] == 3 {
                    self.exchange(Socks5Phase::DomainLength, none, 1)
                } else {
                    self.failed(byte_reason("SOCKS5: unknown address type 0x", b[3]))
                }
            },
            Socks5Phase::DomainLength => self.exchange(
                Socks5Phase::BoundAddress,
                none,
                b[0] as usize + 2,
            ),
            _ => {
                self.phase = Socks5Phase::Done;
                Socks5Action::Connected
            },
        }
    }

    /// The reason to give up where the bytes of an exchange could not be
    /// written.
    pub fn write_failed(&self, e: &str) -> (r: String)
        requires
            write_what(self@.phase) is Some,
        ensures
            r@ == write_what(self@.phase)->0 + e@,
    {
        match self.phase {
            Socks5Phase::Greeting => text::join("SOCKS5 greeting write: ", e),
            Socks5Phase::Auth => text::join("SOCKS5 sub-neg write: ", e),
            _ => text::join("SOCKS5 CONNECT write: ", e),
        }
    }

    /// The reason to give up where the bytes of an exchange could not be read.
    pub fn read_failed(&self, e: &str) -> (r: String)
        requires
            !(self@.phase is Done),
        ensures
            r@ == read_what(self@.phase) + e@,
    {
        match self.phase {
            Socks5Phase::Greeting => text::join("SOCKS5 greeting read: ", e),
            Socks5Phase::Auth => text::join("SOCKS5 sub-neg read: ", e),
            Socks5Phase::Reply => text::join("SOCKS5 response header: ", e),
            Socks5Phase::DomainLength => text::join("SOCKS5 domain len: ", e),
            _ => text::join("SOCKS5 bound addr drain: ", e),
        }
    }
}

/// What is being written before a phase is waited for, if anything is.
pub open spec fn write_what(phase: Socks5Phase) -> Option<Seq<char>> {
    match phase {
        Socks5Phase::Greeting => Some("SOCKS5 greeting write: "@),
        Socks5Phase::Auth => Some("SOCKS5 sub-neg write: "@),
        Socks5Phase::Reply => Some("SOCKS5 CONNECT write: "@),
        _ => None,
    }
}

/// What is being read in a phase.
pub open spec fn read_what(phase: Socks5Phase) -> Seq<char> {
    match phase {
        Socks5Phase::Greeting => "SOCKS5 greeting read: "@,
        Socks5Phase::Auth => "SOCKS5 sub-neg read: "@,
        Socks5Phase::Reply => "SOCKS5 response header: "@,
        Socks5Phase::DomainLength => "SOCKS5 domain len: "@,
        _ => "SOCKS5 bound addr drain: "@,
    }
}

/// The reason to give up where the proxy at `addr` could not be reached.
pub fn connect_failed(addr: &str, e: &str) -> (r: String)
    ensures
        r@ == "SOCKS5 connect to "@ + addr@ + ": "@ + e@,
{
    let mut msg = text::join("SOCKS5 connect to ", addr);
    msg.append(": ");
    msg.append(e);
    msg
}

// ---------------------------------------------------------------------------
// Laws
// ---------------------------------------------------------------------------

/// The dialogue after a row of answers from the proxy.
pub open spec fn socks5_run(start: (Socks5State, Socks5Step), answers: Seq<Seq<u8>>) -> (
    Socks5State,
    Socks5Step,
)
    decreases answers.len(),
{
    if answers.len() == 0 {
        start
    } else {
        socks5_step(socks5_run(start, answers.drop_last()).0, answers.last())
    }
}

/// Whether each of a row of answers is one that was waited for.
pub open spec fn awaited(start: (Socks5State, Socks5Step), answers: Seq<Seq<u8>>) -> bool
    decreases answers.len(),
{
    answers.len() > 0 ==> {
        &&& awaited(start, answers.drop_last())
        &&& awaits(socks5_run(start, answers.drop_last()).0.phase, answers.last().len())
    }
}

/// What a dialogue has seen by the time it is in a phase.
spec fn seen(start: (Socks5State, Socks5Step), answers: Seq<Seq<u8>>) -> bool {
    let (s, step) = socks5_run(start, answers);
    let args = start.0.encoded.len() > 0;
    let auth = answers.len() >= 1 && answers[0][1] == 2 && answers[0][0] == 5;
    let allowed = answers.len() >= 2 && answers[1][1] == 0;
    &&& s.encoded == start.0.encoded
    &&& s.phase is Greeting ==> answers.len() == 0
    &&& s.phase is Auth ==> answers.len() == 1 && auth
    &&& s.phase is Reply ==> (answers.len() == 1 && !args) || (answers.len() == 2 && auth && allowed)
    &&& (s.phase is BoundAddress || s.phase is DomainLength || step is Connected) ==> {
        ||| answers.len() >= 2 && answers[1][1] == 0 && !args
        ||| answers.len() >= 3 && answers[2][1] == 0 && auth && allowed
    }
}

proof fn lemma_seen(start: (Socks5State, Socks5Step), answers: Seq<Seq<u8>>)
    requires
        start.0.phase is Greeting,
        start.1 is Exchange,
        awaited(start, answers),
    ensures
        seen(start, answers),
    decreases answers.len(),
{
    if answers.len() > 0 {
        let before = answers.drop_last();
        lemma_seen(start, before);
        assert(forall|i: int| 0 <= i < before.len() ==> before[i] == answers[i]);
    }
}

/// A connection is reported only where the proxy granted it, and transport
/// arguments are never left behind: where there are any, the proxy chose
/// username/password and accepted what carried them.
pub proof fn connected_means_granted(
    host: Seq<char>,
    port: u16,
    args: Seq<(Seq<char>, Seq<char>)>,
    answers: Seq<Seq<u8>>,
)
    requires
        awaited(socks5_start(host, port, args), answers),
        socks5_run(socks5_start(host, port, args), answers).1 is Connected,
    ensures
        answers.len() >= 3,
        args.len() > 0 ==> answers[0] == seq![5u8, 2u8] && answers[1][1] == 0 && answers[2][1] == 0,
        answers[1][1] == 0 || answers[2][1] == 0,
{
    let start = socks5_start(host, port, args);
    lemma_seen(start, answers);
    lemma_encoded_empty(args);
    let before = answers.drop_last();
    lemma_seen(start, before);
    assert(forall|i: int| 0 <= i < before.len() ==> before[i] == answers[i]);
    if args.len() > 0 {
        lemma_first_answer(start, answers);
        assert(answers[0] =~= seq![5u8, 2u8]);
    }
}

proof fn lemma_first_answer(start: (Socks5State, Socks5Step), answers: Seq<Seq<u8>>)
    requires
        start.0.phase is Greeting,
        awaited(start, answers),
        answers.len() > 0,
    ensures
        answers[0].len() == 2,
    decreases answers.len(),
{
    if answers.len() > 1 {
        lemma_first_answer(start, answers.drop_last());
        assert(answers.drop_last()[0] == answers[0]);
    }
}

proof fn lemma_encoded_empty(args: Seq<(Seq<char>, Seq<char>)>)
    ensures
        args.len() > 0 ==> pt_args::encoded_args(args).len() > 0,
{
    if args.len() > 0 {
        assert(pt_args::encoded_arg(args[0]).len() > 0);
    }
}

/// The username and password that are sent carry the arguments.
pub proof fn sent_credentials_carry_the_arguments(s: Socks5State, b: Seq<u8>)
    requires
        s.phase is Greeting,
        s.encoded.len() > 0,
        socks5_step(s, b).1 is Exchange,
    ensures
        ({
            let bytes = encode_utf8(s.encoded);
            let sent = socks5_step(s, b).1->send;
            if bytes.len() <= 255 {
                sent == auth_request(bytes, seq![0u8])
            } else {
                sent == auth_request(bytes.take(255), bytes.skip(255))
            }
        }),
{
    encode_utf8_decode_utf8(s.encoded);
    if encode_utf8(s.encoded).len() == 0 {
        assert(encode_utf8(s.encoded) =~= encode_utf8(seq![]));
        encode_utf8_decode_utf8(seq![]);
    }
}

/// What a proxy takes for the arguments in a username and password message:
/// the username, and the password behind it unless that is a single NUL.
pub open spec fn auth_payload(msg: Seq<u8>) -> Seq<u8> {
    let n = msg[1] as int;
    let username = msg.subrange(2, 2 + n);
    let password = msg.skip(3 + n);
    if password == seq![0u8] {
        username
    } else {
        username + password
    }
}

/// The arguments that go into a username and password message come out of it
/// at the proxy, wherever they fit into it. (A 256th byte that is NUL is taken
/// for an empty password.)
pub proof fn arguments_reach_the_proxy(args: Seq<(Seq<char>, Seq<char>)>)
    requires
        args.len() > 0,
        encode_utf8(pt_args::encoded_args(args)).len() <= 510,
        !(encode_utf8(pt_args::encoded_args(args)).len() == 256 && encode_utf8(
            pt_args::encoded_args(args),
        )[255] == 0),
    ensures
        auth_fields(encode_utf8(pt_args::encoded_args(args))) matches Ok((u, p))
            && pt_args::decoded_args(decode_utf8(auth_payload(auth_request(u, p)))) == args,
{
    let text = pt_args::encoded_args(args);
    let bytes = encode_utf8(text);
    lemma_encoded_empty(args);
    encode_utf8_decode_utf8(text);
    encode_utf8_decode_utf8(seq![]);
    pt_args::encoded_args_decode(args);
    assert(bytes.len() > 0) by {
        if bytes.len() == 0 {
            assert(encode_utf8(Seq::<char>::empty()) =~= bytes);
        }
    }
    auth_fields_hold_the_arguments(bytes);
    let (u, p) = auth_fields(bytes)->Ok_0;
    let msg = auth_request(u, p);
    assert(msg[1] == u.len());
    let n = u.len() as int;
    assert(msg.subrange(2, 2 + n) =~= u);
    assert(msg.skip(3 + n) =~= p);
    if bytes.len() > 255 {
        if p == seq![0u8] {
            assert(p[0] == bytes[255]);
        }
    }
    assert(auth_payload(msg) =~= bytes);
}

/// The request for a connection starts with 5, 1, 0, then holds the encoded
/// address of the host as it is, and ends in the port: its last two bytes
/// spell it. Four bytes of the answer are waited for. A host that cannot be
/// encoded ends the dialogue for the reason that it cannot.
pub proof fn requests_name_the_target(s: Socks5State)
    ensures
        match socks5_addr(s.host) {
            Ok(addr) => {
                let send = socks5_request(s).1->send;
                let n = send.len() as int;
                &&& socks5_request(s).1 is Exchange
                &&& socks5_request(s).1->receive == 4
                &&& socks5_request(s).0 == (Socks5State { phase: Socks5Phase::Reply, ..s })
                &&& n == 3 + addr.len() + 2
                &&& send.take(3) == seq![5u8, 1u8, 0u8]
                &&& send.subrange(3, n - 2) == addr
                &&& ip::be_value(send.skip(n - 2)) == s.port
            },
            Err(e) => socks5_request(s) == (
                (Socks5State { phase: Socks5Phase::Done, ..s }),
                Socks5Step::Failed(e),
            ),
        },
{
    if let Ok(addr) = socks5_addr(s.host) {
        let send = socks5_request(s).1->send;
        let n = send.len() as int;
        let high = (s.port / 256) as u8;
        let low = (s.port % 256) as u8;
        ip::two_bytes_are_high_and_low(high, low);
        assert(send.take(3) =~= seq![5u8, 1u8, 0u8]);
        assert(send.subrange(3, n - 2) =~= addr);
        assert(send.skip(n - 2) =~= seq![high, low]);
    }
}

/// A host is refused exactly where it is no IP address and its name is longer
/// than the 255 bytes that fit. Every other name goes as its length and its
/// bytes, and nothing behind them.
pub proof fn only_long_names_are_refused(host: Seq<char>)
    ensures
        socks5_addr(host) is Err <==> ip::ip(ip::unbracketed(host)) is None && encode_utf8(
            host,
        ).len() > 255,
        socks5_addr(host) matches Err(e) ==> e == "target hostname too long: "@ + host,
        socks5_addr(host) matches Ok(b) ==> (ip::ip(ip::unbracketed(host)) is None ==> b.len() == 2
            + encode_utf8(host).len()),
{
}

/// A greeting is the version, the number of methods and the methods, each
/// once: username/password always, and no authentication exactly where there
/// are no arguments to deliver. Two bytes of the answer are waited for.
pub proof fn greetings_offer_what_the_arguments_need(
    host: Seq<char>,
    port: u16,
    args: Seq<(Seq<char>, Seq<char>)>,
)
    ensures
        ({
            let (s, step) = socks5_start(host, port, args);
            let send = step->send;
            &&& s == (Socks5State {
                phase: Socks5Phase::Greeting,
                host,
                port,
                encoded: pt_args::encoded_args(args),
            })
            &&& step is Exchange
            &&& step->receive == 2
            &&& send[0] == 5
            &&& send[1] == send.len() - 2
            &&& send.skip(2).contains(2u8)
            &&& send.skip(2).contains(0u8) <==> args.len() == 0
            &&& forall|i: int| 2 <= i < send.len() ==> send[i] == 0 || send[i] == 2
            &&& forall|i: int, j: int| 2 <= i < j < send.len() ==> send[i] != send[j]
        }),
{
    lemma_encoded_empty(args);
    let send = socks5_start(host, port, args).1->send;
    if args.len() == 0 {
        assert(send.skip(2)[0] == 0);
        assert(send.skip(2)[1] == 2);
    } else {
        assert(send.skip(2)[0] == 2);
        assert(send.skip(2).len() == 1);
    }
}

/// Arguments of at most 255 bytes go with a password of one NUL, and none at
/// all with a username of one NUL too. Longer ones fill the username, and more
/// than both fields hold are refused with their number of bytes.
pub proof fn empty_fields_are_one_nul(bytes: Seq<u8>)
    ensures
        bytes.len() == 0 ==> (auth_fields(bytes) matches Ok((u, p)) && u == seq![0u8]),
        bytes.len() <= 255 ==> (auth_fields(bytes) matches Ok((u, p)) && p == seq![0u8]),
        255 < bytes.len() <= 510 ==> (auth_fields(bytes) matches Ok((u, p)) && u.len() == 255),
        bytes.len() > 510 ==> (auth_fields(bytes) matches Err(e) && e
            == "PT args too long to encode in SOCKS5 auth: "@ + text::decimal(bytes.len())
            + " bytes (max 510)"@),
{
}

/// A username and password message is 1, and then both fields, each behind its
/// length.
pub proof fn credentials_stand_behind_their_lengths(u: Seq<u8>, p: Seq<u8>)
    requires
        u.len() <= 255,
        p.len() <= 255,
    ensures
        ({
            let m = auth_request(u, p);
            let n = u.len() as int;
            &&& m.len() == 3 + n + p.len()
            &&& m[0] == 1
            &&& m[1] == n
            &&& m.subrange(2, 2 + n) == u
            &&& m[2 + n] == p.len()
            &&& m.skip(3 + n) == p
        }),
{
    let m = auth_request(u, p);
    let n = u.len() as int;
    assert(m.subrange(2, 2 + n) =~= u);
    assert(m.skip(3 + n) =~= p);
}

/// What is asked for is what the next phase waits for, and the dialogue keeps
/// its host, its port and its arguments to its end.
pub proof fn what_is_asked_for_is_awaited(s: Socks5State, b: Seq<u8>)
    requires
        awaits(s.phase, b.len()),
    ensures
        ({
            let (next, step) = socks5_step(s, b);
            &&& next == Socks5State { phase: next.phase, ..s }
            &&& step matches Socks5Step::Exchange { send, receive } ==> awaits(next.phase, receive)
            &&& step is Exchange <==> next.phase != Socks5Phase::Done
        }),
{
}

/// A willing proxy is used: whatever it grants, under an IPv4 address, an IPv6
/// address or a name of any length, its whole answer is read (the address and
/// two bytes for the port) and nothing behind it, and then the stream is
/// handed over.
pub proof fn a_granted_request_connects(
    s: Socks5State,
    header: Seq<u8>,
    name_length: u8,
    bound: Seq<u8>,
)
    requires
        s.phase is Reply,
        header.len() == 4,
        header[1] == 0,
        header[3] == 1 && bound.len() == 4 + 2 || header[3] == 4 && bound.len() == 16 + 2
            || header[3] == 3 && bound.len() == name_length + 2,
    ensures
        ({
            let (s1, step1) = socks5_step(s, header);
            let (s2, step2) = if header[3] == 3 {
                socks5_step(s1, seq![name_length])
            } else {
                (s1, step1)
            };
            let (s3, step3) = socks5_step(s2, bound);
            &&& header[3] == 3 ==> step1 == (Socks5Step::Exchange { send: seq![], receive: 1 })
            &&& step2 == (Socks5Step::Exchange { send: seq![], receive: bound.len() })
            &&& step3 is Connected
            &&& s3 == (Socks5State { phase: Socks5Phase::Done, ..s })
        }),
{
}

/// A proxy that chooses username/password and accepts it is asked for the
/// connection, wherever the arguments fit into the two fields; and so is one
/// that wants no authentication, where there are no arguments.
pub proof fn a_willing_proxy_is_asked(s: Socks5State, b: Seq<u8>, status: Seq<u8>)
    requires
        s.phase is Greeting,
        b == seq![5u8, 2u8] || b == seq![5u8, 0u8],
        status.len() == 2,
        status[1] == 0,
    ensures
        b[1] == 2 && encode_utf8(s.encoded).len() <= 510 ==> {
            let (s1, step1) = socks5_step(s, b);
            &&& step1 is Exchange
            &&& step1->receive == 2
            &&& auth_fields(encode_utf8(s.encoded)) matches Ok((u, p)) && step1->send
                == auth_request(u, p)
            &&& socks5_step(s1, status) == socks5_request(s)
        },
        b[1] == 0 && s.encoded.len() == 0 ==> socks5_step(s, b) == socks5_request(s),
{
}

/// A proxy that speaks another version, chooses a method that carries no
/// arguments, or refuses anything, ends the dialogue, and the reason gives the
/// byte that said so. No other byte of its answers does.
pub proof fn an_unwilling_proxy_is_left(s: Socks5State, b: Seq<u8>)
    requires
        awaits(s.phase, b.len()),
    ensures
        ({
            let step = socks5_step(s, b).1;
            match s.phase {
                Socks5Phase::Greeting => {
                    let carried = b[1] == 2 || b[1] == 0 && s.encoded.len() == 0;
                    &&& b[0] != 5 ==> step == Socks5Step::Failed(
                        "SOCKS5: bad greeting version 0x"@ + text::hex_byte(b[0]),
                    )
                    &&& b[0] == 5 && !carried ==> step == Socks5Step::Failed(
                        "SOCKS5: server chose unsupported method 0x"@ + text::hex_byte(b[1]),
                    )
                    &&& b[0] == 5 && b[1] == 2 ==> (auth_fields(encode_utf8(s.encoded)) matches Err(
                        e,
                    ) ==> step == Socks5Step::Failed(e))
                },
                Socks5Phase::Auth => b[1] != 0 ==> step == Socks5Step::Failed(
                    "SOCKS5 sub-neg rejected (status 0x"@ + text::hex_byte(b[1]) + ")"@,
                ),
                Socks5Phase::Reply => {
                    &&& b[1] != 0 ==> step == Socks5Step::Failed(
                        "SOCKS5 CONNECT failed: reply 0x"@ + text::hex_byte(b[1]),
                    )
                    &&& b[1] == 0 && b[3] != 1 && b[3] != 3 && b[3] != 4 ==> step
                        == Socks5Step::Failed(
                        "SOCKS5: unknown address type 0x"@ + text::hex_byte(b[3]),
                    )
                    &&& b[1] == 0 && (b[3] == 1 || b[3] == 3 || b[3] == 4) ==> step is Exchange
                },
                _ => !(step is Failed),
            }
        }),
{
}

/// Where an exchange fails, the reason names the message that was being
/// written or read.
pub proof fn failed_exchanges_name_their_message()
    ensures
        write_what(Socks5Phase::Greeting) == Some("SOCKS5 greeting write: "@),
        write_what(Socks5Phase::Auth) == Some("SOCKS5 sub-neg write: "@),
        write_what(Socks5Phase::Reply) == Some("SOCKS5 CONNECT write: "@),
        read_what(Socks5Phase::Greeting) == "SOCKS5 greeting read: "@,
        read_what(Socks5Phase::Auth) == "SOCKS5 sub-neg read: "@,
        read_what(Socks5Phase::Reply) == "SOCKS5 response header: "@,
        read_what(Socks5Phase::DomainLength) == "SOCKS5 domain len: "@,
        read_what(Socks5Phase::BoundAddress) == "SOCKS5 bound addr drain: "@,
{
}

/// The model of a dialogue is its fields, and that of a step what it holds.
pub proof fn a_dialogue_is_its_fields(d: Socks5Dial, send: Vec<u8>, receive: usize, e: String)
    ensures
        d@.phase == d.phase && d@.host == d.host@ && d@.port == d.port && d@.encoded == d.encoded@,
        (Socks5Action::Exchange { send, receive })@ == (Socks5Step::Exchange {
            send: send@,
            receive: receive as nat,
        }),
        Socks5Action::Connected@ is Connected,
        Socks5Action::Failed(e)@ == Socks5Step::Failed(e@),
{
}

} // verus!

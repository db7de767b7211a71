//! A connection from its first byte to its end: the handshake, the decision
//! whether the peer is let in, and its place in the registry.
//!
//! Times are nanoseconds since a moment that the caller fixes once.
use std::sync::atomic::AtomicUsize;
use std::sync::Arc;
use vstd::prelude::*;

use crate::active;
use crate::active::{ActiveLinks, PeerEvent, PeerEventView, Registered};
use crate::ban_list;
use crate::ip;
use crate::ip::IpAddr;
use crate::options;
use crate::options::{LinkOptions, LinkType};
use crate::text;

verus! {

/// How long a handshake may take, in seconds.
pub const HANDSHAKE_TIMEOUT: u64 = 6;

/// The number of bytes before the body of the peer's metadata.
pub const HEADER_LENGTH: usize = 6;

/// The least number of bytes that metadata can have: those of its signature.
pub const MINIMUM_BODY: usize = 64;

// ---------------------------------------------------------------------------
// Framing
// ---------------------------------------------------------------------------

/// The length that a header announces, or why it is refused: `meta`, and then
/// the length as a big-endian number of two bytes.
pub open spec fn body_length(header: Seq<u8>) -> Result<nat, Seq<char>> {
    let length = header[4] * 256 + header[5];
    if header.take(4) != seq![109u8, 101, 116, 97] {
        Err("invalid preamble"@)
    } else if length < MINIMUM_BODY {
        Err("metadata too short"@)
    } else {
        Ok(length as nat)
    }
}

/// Reads the length of the body out of a header.
pub fn read_body_length(header: &[u8]) -> (r: Result<usize, String>)
    requires
        header@.len() == HEADER_LENGTH,
    ensures
        match r {
            Ok(n) => body_length(header@) == Ok::<nat, Seq<char>>(n as nat),
            Err(e) => body_length(header@) == Err::<nat, Seq<char>>(e@),
        },
{
    if header[0] != 109 || header[1] != 101 || header[2] != 116 || header[3] != 97 {
        proof {
            let s = header@.take(4);
            assert(s[0] == header@[0] && s[1] == header@[1] && s[2] == header@[2] && s[3]
                == header@[3]);
        }
        return Err("invalid preamble".to_owned());
    }
    assert(header@.take(4) =~= seq![109u8, 101, 116, 97]);
    let length = (header[4] as usize) * 256 + (header[5] as usize);
    if length < MINIMUM_BODY {
        return Err("metadata too short".to_owned());
    }
    Ok(length)
}

// ---------------------------------------------------------------------------
// The verdict
// ---------------------------------------------------------------------------

/// What the metadata of a peer says.
#[derive(Clone, Copy, Debug)]
pub struct RemoteMeta {
    pub public_key: [u8; 32],
    pub priority: u8,
    pub major_ver: u64,
    pub minor_ver: u64,
    /// Whether its version can be talked to.
    pub compatible: bool,
}

/// This node.
#[derive(Clone, Copy, Debug)]
pub struct LocalNode {
    pub public_key: [u8; 32],
    pub major_ver: u64,
    pub minor_ver: u64,
}

/// What is decided of a peer.
pub enum Verdict {
    /// It is turned away for a reason, and its address gets the blame or not.
    Refuse { reason: Seq<char>, blame: bool },
    /// It is let in with a priority.
    Admit { priority: u8 },
}

/// The reason to turn away a peer of another version.
pub open spec fn incompatible(local: LocalNode, meta: RemoteMeta) -> Seq<char> {
    "incompatible version "@ + text::decimal(meta.major_ver as nat) + "."@ + text::decimal(
        meta.minor_ver as nat,
    ) + " (local "@ + text::decimal(local.major_ver as nat) + "."@ + text::decimal(
        local.minor_ver as nat,
    ) + ")"@
}

/// What is decided of a peer, in this order: its certificate (`tls_key`) must
/// be of the key that it claims, its version one that can be talked to, its
/// key not our own, one of the pinned keys where there are any, and an allowed
/// one where it has come to us; and there must be no link to it in the same
/// direction. A mistake of configuration on either side gets no blame.
pub open spec fn verdict(
    link_type: LinkType,
    opts: options::OptionsView,
    local: LocalNode,
    meta: RemoteMeta,
    tls_key: Option<[u8; 32]>,
    allowed: bool,
    twin: bool,
) -> Verdict {
    if tls_key matches Some(k) && k@ != meta.public_key@ {
        Verdict::Refuse {
            reason: "TLS certificate pubkey does not match meta handshake pubkey"@,
            blame: true,
        }
    } else if !meta.compatible {
        Verdict::Refuse { reason: incompatible(local, meta), blame: true }
    } else if meta.public_key@ == local.public_key@ {
        Verdict::Refuse { reason: "connected to self"@, blame: false }
    } else if opts.pinned_keys.len() > 0 && !opts.pinned_keys.contains(meta.public_key@) {
        Verdict::Refuse { reason: "remote key not in pinned keys"@, blame: false }
    } else if link_type == LinkType::Incoming && !allowed {
        Verdict::Refuse { reason: "remote key not allowed"@, blame: true }
    } else if twin {
        Verdict::Refuse { reason: "duplicate connection"@, blame: false }
    } else {
        Verdict::Admit {
            priority: if opts.priority >= meta.priority {
                opts.priority
            } else {
                meta.priority
            },
        }
    }
}

/// The failed attempts after an address got the blame. A loopback address
/// never gets it, for there the transports of the host itself come from, and
/// a peer without an address cannot.
pub open spec fn blamed(m: ban_list::Attempts, ip: Option<IpAddr>, now: u64) -> ban_list::Attempts {
    match ip {
        Some(a) => if a.loopback() {
            m
        } else {
            ban_list::after_failure(m, a, now)
        },
        None => m,
    }
}

/// Whether the address is turned away at once.
pub open spec fn shut_out(m: ban_list::Attempts, ip: Option<IpAddr>, now: u64) -> bool {
    ip matches Some(a) && !a.loopback() && ban_list::banned(m, a, now)
}

/// The failed attempts after the address was looked at.
pub open spec fn looked_at(
    m: ban_list::Attempts,
    ip: Option<IpAddr>,
    now: u64,
) -> ban_list::Attempts {
    match ip {
        Some(a) => if a.loopback() {
            m
        } else {
            ban_list::after_check(m, a, now)
        },
        None => m,
    }
}

/// Whether the counts have room for what a verdict adds to them: a failure or
/// a link.
pub open spec fn room_for(v: Verdict, links: ActiveLinks, ip: Option<IpAddr>, now: u64) -> bool {
    match v {
        Verdict::Refuse { reason, blame } => blame ==> (ip matches Some(a) ==> a.loopback()
            || ban_list::counted(links.ban_list@, a, now) <= usize::MAX),
        Verdict::Admit { priority } => links.inner.next_id < u64::MAX,
    }
}

/// Whether the counts have room for one more failure and one more link.
pub open spec fn room(links: ActiveLinks, ip: Option<IpAddr>, now: u64) -> bool {
    &&& links.inner.next_id < u64::MAX
    &&& ip matches Some(a) ==> ban_list::counted(links.ban_list@, a, now) <= usize::MAX
}

/// Whether the counts have room for one more failure and one more link, and
/// so for whatever is decided of a peer.
pub fn has_room(links: &ActiveLinks, ip: Option<IpAddr>, now: u64) -> (r: bool)
    requires
        links.wf(),
    ensures
        r == room(*links, ip, now),
        r ==> forall|v: Verdict| room_for(v, *links, ip, now),
{
    let counts = match ip {
        Some(a) => links.ban_list.can_record(a, now),
        None => true,
    };
    links.inner.next_id < u64::MAX && counts
}

fn is_pinned(keys: &Vec<[u8; 32]>, key: &[u8; 32]) -> (r: bool)
    ensures
        r == options::key_bytes(keys@).contains(key@),
{
    let ghost all = options::key_bytes(keys@);
    let mut i: usize = 0;
    while i < keys.len()
        invariant
            all == options::key_bytes(keys@),
            i <= keys@.len(),
            forall|j: int| 0 <= j < i ==> (#[trigger] all[j]) != key@,
        decreases keys@.len() - i,
    {
        assert(all[i as int] == keys@[i as int]@);
        if text::same_bytes(keys[i].as_slice(), key.as_slice()) {
            return true;
        }
        i = i + 1;
    }
    false
}

fn incompatible_reason(local: &LocalNode, meta: &RemoteMeta) -> (r: String)
    ensures
        r@ == incompatible(*local, *meta),
{
    let mut msg = "incompatible version ".to_owned();
    text::push_decimal(&mut msg, meta.major_ver);
    msg.append(".");
    text::push_decimal(&mut msg, meta.minor_ver);
    msg.append(" (local ");
    text::push_decimal(&mut msg, local.major_ver);
    msg.append(".");
    text::push_decimal(&mut msg, local.minor_ver);
    msg.append(")");
    msg
}

/// What came of a peer that has introduced itself.
#[derive(Debug)]
pub enum Judged {
    /// It was turned away, for this reason.
    Refused(String),
    /// It was registered, with this priority.
    Admitted(Registered, u8),
}

/// Decides of a peer that has introduced itself, notes the failure where its
/// address gets the blame, and registers the link where it is let in.
pub fn judge(
    links: &mut ActiveLinks,
    link_type: LinkType,
    opts: &LinkOptions,
    local: &LocalNode,
    uri: &str,
    peer_ip: Option<IpAddr>,
    meta: &RemoteMeta,
    tls_key: Option<[u8; 32]>,
    allowed: bool,
    now: u64,
) -> (r: Judged)
    requires
        old(links).wf(),
        room_for(
            verdict(
                link_type,
                opts@,
                *local,
                *meta,
                tls_key,
                allowed,
                active::has_twin(
                    old(links).inner.connections@,
                    meta.public_key@,
                    link_type == LinkType::Incoming,
                ),
            ),
            *old(links),
            peer_ip,
            now,
        ),
    ensures
        final(links).wf(),
        ({
            let inbound = link_type == LinkType::Incoming;
            let v = verdict(
                link_type,
                opts@,
                *local,
                *meta,
                tls_key,
                allowed,
                active::has_twin(old(links).inner.connections@, meta.public_key@, inbound),
            );
            match r {
                Judged::Refused(e) => {
                    &&& v is Refuse
                    &&& v->reason == e@
                    &&& final(links).inner == old(links).inner
                    &&& final(links).ban_list@ == if v->blame {
                        blamed(old(links).ban_list@, peer_ip, now)
                    } else {
                        old(links).ban_list@
                    }
                },
                Judged::Admitted(g, priority) => {
                    let c = final(links).inner.connections@[g.id];
                    &&& v == Verdict::Admit { priority }
                    &&& final(links).ban_list == old(links).ban_list
                    &&& g.id == old(links).inner.next_id
                    &&& final(links).inner.next_id == old(links).inner.next_id + 1
                    &&& final(links).inner.connections@ == old(links).inner.connections@.insert(
                        g.id,
                        c,
                    )
                    &&& active::new_link(c, uri@, inbound, meta.public_key@, priority, now)
                    &&& g.rx == c.rx
                    &&& g.tx == c.tx
                    &&& g.event@ == PeerEventView::Connected {
                        key: meta.public_key@,
                        uri: uri@,
                        inbound,
                    }
                },
            }
        }),
{
    if let Some(k) = tls_key {
        if !text::same_bytes(k.as_slice(), meta.public_key.as_slice()) {
            blame(links, peer_ip, now);
            return Judged::Refused(
                "TLS certificate pubkey does not match meta handshake pubkey".to_owned(),
            );
        }
    }
    if !meta.compatible {
        blame(links, peer_ip, now);
        return Judged::Refused(incompatible_reason(local, meta));
    }
    if text::same_bytes(meta.public_key.as_slice(), local.public_key.as_slice()) {
        return Judged::Refused("connected to self".to_owned());
    }
    if opts.pinned_keys.len() > 0 && !is_pinned(&opts.pinned_keys, &meta.public_key) {
        return Judged::Refused("remote key not in pinned keys".to_owned());
    }
    if link_type == LinkType::Incoming && !allowed {
        blame(links, peer_ip, now);
        return Judged::Refused("remote key not allowed".to_owned());
    }
    let priority = if opts.priority >= meta.priority {
        opts.priority
    } else {
        meta.priority
    };
    let inbound = link_type == LinkType::Incoming;
    match links.register(uri.to_owned(), inbound, meta.public_key, priority, now) {
        Some(g) => Judged::Admitted(g, priority),
        None => Judged::Refused("duplicate connection".to_owned()),
    }
}

fn blame(links: &mut ActiveLinks, ip: Option<IpAddr>, now: u64)
    requires
        old(links).wf(),
        ip matches Some(a) ==> a.loopback() || ban_list::counted(old(links).ban_list@, a, now)
            <= usize::MAX,
    ensures
        final(links).wf(),
        final(links).inner == old(links).inner,
        final(links).ban_list@ == blamed(old(links).ban_list@, ip, now),
{
    if let Some(a) = ip {
        if !a.is_loopback() {
            let _ = links.ban_list.record_failure(a, now);
        }
    }
}

// ---------------------------------------------------------------------------
// The course of a connection
// ---------------------------------------------------------------------------

/// Where a connection stands.
#[derive(Clone, Copy, Debug, PartialEq, Eq, Structural)]
pub enum ConnectionPhase {
    /// Nothing has been done.
    New,
    /// Our metadata is being sent.
    Sending,
    /// The header of the peer's metadata is being read.
    Header,
    /// The body of the peer's metadata is being read.
    Body,
    /// The peer's metadata is being decoded.
    Decoding,
    /// The link runs.
    Running,
    /// It is over.
    Done,
}

/// A connection to a peer.
#[derive(Debug)]
pub struct Connection {
    pub link_type: LinkType,
    pub options: LinkOptions,
    pub local: LocalNode,
    /// What the link is listed as.
    pub uri: String,
    /// The address of the peer, where it has one, and its text.
    pub peer_ip: Option<IpAddr>,
    pub peer_ip_text: String,
    pub phase: ConnectionPhase,
    /// The header of the peer's metadata, once it was read.
    pub header: Vec<u8>,
    /// The number of the link, once it runs.
    pub id: u64,
}

/// A connection, in mathematical terms.
pub struct ConnectionView {
    pub link_type: LinkType,
    pub options: options::OptionsView,
    pub local: LocalNode,
    pub uri: Seq<char>,
    pub peer_ip: Option<IpAddr>,
    pub peer_ip_text: Seq<char>,
    pub phase: ConnectionPhase,
    pub header: Seq<u8>,
    pub id: u64,
}

impl View for Connection {
    type V = ConnectionView;

    open spec fn view(&self) -> ConnectionView {
        ConnectionView {
            link_type: self.link_type,
            options: self.options@,
            local: self.local,
            uri: self.uri@,
            peer_ip: self.peer_ip,
            peer_ip_text: self.peer_ip_text@,
            phase: self.phase,
            header: self.header@,
            id: self.id,
        }
    }
}

/// What came of the work that a handshake asked for.
#[derive(Debug)]
pub enum HandshakeEvent {
    /// Our metadata was written and flushed.
    Sent,
    WriteFailed(String),
    FlushFailed(String),
    /// The bytes that were asked for.
    Bytes(Vec<u8>),
    ReadFailed(String),
    DecodeFailed(String),
    TimedOut,
}

/// What came of the work, in mathematical terms.
pub enum HandshakeEventView {
    Sent,
    WriteFailed(Seq<char>),
    FlushFailed(Seq<char>),
    Bytes(Seq<u8>),
    ReadFailed(Seq<char>),
    DecodeFailed(Seq<char>),
    TimedOut,
}

impl View for HandshakeEvent {
    type V = HandshakeEventView;

    open spec fn view(&self) -> HandshakeEventView {
        match self {
            HandshakeEvent::Sent => HandshakeEventView::Sent,
            HandshakeEvent::WriteFailed(e) => HandshakeEventView::WriteFailed(e@),
            HandshakeEvent::FlushFailed(e) => HandshakeEventView::FlushFailed(e@),
            HandshakeEvent::Bytes(b) => HandshakeEventView::Bytes(b@),
            HandshakeEvent::ReadFailed(e) => HandshakeEventView::ReadFailed(e@),
            HandshakeEvent::DecodeFailed(e) => HandshakeEventView::DecodeFailed(e@),
            HandshakeEvent::TimedOut => HandshakeEventView::TimedOut,
        }
    }
}

/// What to do for a handshake.
#[derive(Debug)]
pub enum HandshakeAction {
    /// Write our metadata, and flush: a buffered transport would otherwise
    /// keep it, and both sides would wait for each other.
    Send,
    /// Read exactly this many bytes, and no more: what follows them belongs to
    /// the link.
    Read(usize),
    /// Decode these bytes as metadata.
    Decode(Vec<u8>),
    /// Give up, for this reason.
    Fail(String),
}

/// What to do for a handshake, in mathematical terms.
pub enum HandshakeActionView {
    Send,
    Read(nat),
    Decode(Seq<u8>),
    Fail(Seq<char>),
}

impl View for HandshakeAction {
    type V = HandshakeActionView;

    open spec fn view(&self) -> HandshakeActionView {
        match self {
            HandshakeAction::Send => HandshakeActionView::Send,
            HandshakeAction::Read(n) => HandshakeActionView::Read(*n as nat),
            HandshakeAction::Decode(b) => HandshakeActionView::Decode(b@),
            HandshakeAction::Fail(e) => HandshakeActionView::Fail(e@),
        }
    }
}

/// Whether an event can come in a phase.
pub open spec fn can_come(c: ConnectionView, e: HandshakeEventView) -> bool {
    match e {
        HandshakeEventView::Sent => c.phase == ConnectionPhase::Sending,
        HandshakeEventView::WriteFailed(_) => c.phase == ConnectionPhase::Sending,
        HandshakeEventView::FlushFailed(_) => c.phase == ConnectionPhase::Sending,
        HandshakeEventView::Bytes(b) => {
            ||| c.phase == ConnectionPhase::Header && b.len() == HEADER_LENGTH
            ||| c.phase == ConnectionPhase::Body
        },
        HandshakeEventView::ReadFailed(_) => c.phase == ConnectionPhase::Header || c.phase
            == ConnectionPhase::Body,
        HandshakeEventView::DecodeFailed(_) => c.phase == ConnectionPhase::Decoding,
        HandshakeEventView::TimedOut => c.phase != ConnectionPhase::New && c.phase
            != ConnectionPhase::Running && c.phase != ConnectionPhase::Done,
    }
}

/// The handshake after a failure.
pub open spec fn give_up(c: ConnectionView, reason: Seq<char>) -> (
    ConnectionView,
    HandshakeActionView,
) {
    (ConnectionView { phase: ConnectionPhase::Done, ..c }, HandshakeActionView::Fail(reason))
}

/// The handshake after an event.
pub open spec fn handshake_step(c: ConnectionView, e: HandshakeEventView) -> (
    ConnectionView,
    HandshakeActionView,
) {
    match e {
        HandshakeEventView::Sent => (
            ConnectionView { phase: ConnectionPhase::Header, ..c },
            HandshakeActionView::Read(HEADER_LENGTH as nat),
        ),
        HandshakeEventView::WriteFailed(e) => give_up(c, "write handshake: "@ + e),
        HandshakeEventView::FlushFailed(e) => give_up(c, "flush handshake: "@ + e),
        HandshakeEventView::Bytes(b) => if c.phase == ConnectionPhase::Header {
            match body_length(b) {
                Ok(n) => (
                    ConnectionView { phase: ConnectionPhase::Body, header: b, ..c },
                    HandshakeActionView::Read(n),
                ),
                Err(e) => give_up(c, e),
            }
        } else {
            (
                ConnectionView { phase: ConnectionPhase::Decoding, ..c },
                HandshakeActionView::Decode(c.header + b),
            )
        },
        HandshakeEventView::ReadFailed(e) => give_up(
            c,
            if c.phase == ConnectionPhase::Header {
                "read header: "@
            } else {
                "read body: "@
            } + e,
        ),
        HandshakeEventView::DecodeFailed(e) => give_up(c, "decode handshake: "@ + e),
        HandshakeEventView::TimedOut => give_up(c, "handshake timed out"@),
    }
}

/// A link that runs: the key and the priority that it runs with, the counters
/// that its stream adds to, and the event to tell others of.
#[derive(Debug)]
pub struct RunningLink {
    pub key: [u8; 32],
    pub priority: u8,
    pub rx: Arc<AtomicUsize>,
    pub tx: Arc<AtomicUsize>,
    pub event: PeerEvent,
}

impl Connection {
    /// A connection that nothing has been done for. `peer_ip` is the address
    /// of the peer, where it has one, and `peer_ip_text` its text.
    pub fn new(
        link_type: LinkType,
        options: LinkOptions,
        local: LocalNode,
        uri: String,
        peer_ip: Option<IpAddr>,
        peer_ip_text: String,
    ) -> (r: Self)
        ensures
            r@ == (ConnectionView {
                link_type,
                options: options@,
                local,
                uri: uri@,
                peer_ip,
                peer_ip_text: peer_ip_text@,
                phase: ConnectionPhase::New,
                header: seq![],
                id: 0,
            }),
    {
        let header: Vec<u8> = Vec::new();
        assert(header@ =~= seq![]);
        Connection {
            link_type,
            options,
            local,
            uri,
            peer_ip,
            peer_ip_text,
            phase: ConnectionPhase::New,
            header,
            id: 0,
        }
    }

    /// Starts the handshake, unless the address of the peer is banned.
    /// Loopback is never banned: the connections of transports arrive from it.
    pub fn begin(&mut self, links: &mut ActiveLinks, now: u64) -> (r: HandshakeAction)
        requires
            old(self)@.phase == ConnectionPhase::New,
            old(links).wf(),
        ensures
            final(links).wf(),
            final(links).inner == old(links).inner,
            final(links).ban_list@ == looked_at(old(links).ban_list@, old(self)@.peer_ip, now),
            (final(self)@, r@) == if shut_out(old(links).ban_list@, old(self)@.peer_ip, now) {
                give_up(
                    old(self)@,
                    "IP "@ + old(self)@.peer_ip_text + " is temporarily banned"@,
                )
            } else {
                (
                    ConnectionView { phase: ConnectionPhase::Sending, ..old(self)@ },
                    HandshakeActionView::Send,
                )
            },
    {
        if let Some(ip) = self.peer_ip {
            if !ip.is_loopback() && links.ban_list.is_banned(ip, now) {
                let mut msg = text::join("IP ", self.peer_ip_text.as_str());
                msg.append(" is temporarily banned");
                self.phase = ConnectionPhase::Done;
                return HandshakeAction::Fail(msg);
            }
        }
        self.phase = ConnectionPhase::Sending;
        HandshakeAction::Send
    }

    fn fail(&mut self, reason: String) -> (r: HandshakeAction)
        ensures
            (final(self)@, r@) == give_up(old(self)@, reason@),
    {
        self.phase = ConnectionPhase::Done;
        HandshakeAction::Fail(reason)
    }

    /// Takes what came of the work that the handshake asked for, and says what
    /// to do next.
    pub fn step(&mut self, event: HandshakeEvent) -> (r: HandshakeAction)
        requires
            can_come(old(self)@, event@),
        ensures
            (final(self)@, r@) == handshake_step(old(self)@, event@),
    {
        match event {
            HandshakeEvent::Sent => {
                self.phase = ConnectionPhase::Header;
                HandshakeAction::Read(HEADER_LENGTH)
            },
            HandshakeEvent::WriteFailed(e) => self.fail(
                text::join("write handshake: ", e.as_str()),
            ),
            HandshakeEvent::FlushFailed(e) => self.fail(
                text::join("flush handshake: ", e.as_str()),
            ),
            HandshakeEvent::Bytes(b) => {
                if self.phase == ConnectionPhase::Header {
                    match read_body_length(b.as_slice()) {
                        Ok(n) => {
                            self.phase = ConnectionPhase::Body;
                            self.header = b;
                            HandshakeAction::Read(n)
                        },
                        Err(e) => self.fail(e),
                    }
                } else {
                    let mut full: Vec<u8> = Vec::new();
                    let mut body = b;
                    let ghost all = self.header@ + body@;
                    full.extend_from_slice(self.header.as_slice());
                    full.append(&mut body);
                    assert(full@ =~= all);
                    self.phase = ConnectionPhase::Decoding;
                    HandshakeAction::Decode(full)
                }
            },
            HandshakeEvent::ReadFailed(e) => {
                let msg = if self.phase == ConnectionPhase::Header {
                    text::join("read header: ", e.as_str())
                } else {
                    text::join("read body: ", e.as_str())
                };
                self.fail(msg)
            },
            HandshakeEvent::DecodeFailed(e) => self.fail(
                text::join("decode handshake: ", e.as_str()),
            ),
            HandshakeEvent::TimedOut => self.fail("handshake timed out".to_owned()),
        }
    }

    /// Takes the peer's metadata, the key of its TLS certificate where it has
    /// shown one of a kind that can be compared, and whether its key is allowed
    /// in, and decides of it.
    pub fn decoded(
        &mut self,
        links: &mut ActiveLinks,
        meta: &RemoteMeta,
        tls_key: Option<[u8; 32]>,
        allowed: bool,
        now: u64,
    ) -> (r: Result<RunningLink, String>)
        requires
            old(self)@.phase == ConnectionPhase::Decoding,
            old(links).wf(),
            room_for(
                verdict(
                    old(self)@.link_type,
                    old(self)@.options,
                    old(self)@.local,
                    *meta,
                    tls_key,
                    allowed,
                    active::has_twin(
                        old(links).inner.connections@,
                        meta.public_key@,
                        old(self)@.link_type == LinkType::Incoming,
                    ),
                ),
                *old(links),
                old(self)@.peer_ip,
                now,
            ),
        ensures
            final(links).wf(),
            ({
                let c = old(self)@;
                let inbound = c.link_type == LinkType::Incoming;
                let v = verdict(
                    c.link_type,
                    c.options,
                    c.local,
                    *meta,
                    tls_key,
                    allowed,
                    active::has_twin(old(links).inner.connections@, meta.public_key@, inbound),
                );
                match r {
                    Err(e) => {
                        &&& v is Refuse
                        &&& v->reason == e@
                        &&& final(self)@ == ConnectionView { phase: ConnectionPhase::Done, ..c }
                        &&& final(links).inner == old(links).inner
                        &&& final(links).ban_list@ == if v->blame {
                            blamed(old(links).ban_list@, c.peer_ip, now)
                        } else {
                            old(links).ban_list@
                        }
                    },
                    Ok(run) => {
                        let id = old(links).inner.next_id;
                        let link = final(links).inner.connections@[id];
                        &&& v == Verdict::Admit { priority: run.priority }
                        &&& final(self)@ == ConnectionView {
                            phase: ConnectionPhase::Running,
                            id,
                            ..c
                        }
                        &&& final(links).ban_list == old(links).ban_list
                        &&& final(links).inner.next_id == id + 1
                        &&& final(links).inner.connections@ == old(links).inner.connections@.insert(
                            id,
                            link,
                        )
                        &&& active::new_link(
                            link,
                            c.uri,
                            inbound,
                            meta.public_key@,
                            run.priority,
                            now,
                        )
                        &&& run.key@ == meta.public_key@
                        &&& run.rx == link.rx
                        &&& run.tx == link.tx
                        &&& run.event@ == PeerEventView::Connected {
                            key: meta.public_key@,
                            uri: c.uri,
                            inbound,
                        }
                    },
                }
            }),
    {
        match judge(
            links,
            self.link_type,
            &self.options,
            &self.local,
            self.uri.as_str(),
            self.peer_ip,
            meta,
            tls_key,
            allowed,
            now,
        ) {
            Judged::Refused(e) => {
                self.phase = ConnectionPhase::Done;
                Err(e)
            },
            Judged::Admitted(g, priority) => {
                self.phase = ConnectionPhase::Running;
                self.id = g.id;
                Ok(
                    RunningLink {
                        key: meta.public_key,
                        priority,
                        rx: g.rx,
                        tx: g.tx,
                        event: g.event,
                    },
                )
            },
        }
    }

    /// Takes the outcome of a link that ran, and unregisters it. Returns the
    /// outcome of the connection, and the event to tell others of, where the
    /// link was still registered.
    pub fn ended(&mut self, links: &mut ActiveLinks, result: Result<(), String>) -> (r: (
        Result<(), String>,
        Option<PeerEvent>,
    ))
        requires
            old(self)@.phase == ConnectionPhase::Running,
            old(links).wf(),
        ensures
            final(links).wf(),
            final(links).ban_list == old(links).ban_list,
            final(links).inner.next_id == old(links).inner.next_id,
            final(links).inner.connections@ == old(links).inner.connections@.remove(old(self)@.id),
            final(self)@ == (ConnectionView { phase: ConnectionPhase::Done, ..old(self)@ }),
            match result {
                Ok(_) => r.0 is Ok,
                Err(e) => r.0 matches Err(m) && m@ == "ironwood: "@ + e@,
            },
            match r.1 {
                Some(e) => old(links).inner.connections@.contains_key(old(self)@.id) && e@
                    == (PeerEventView::Disconnected {
                    key: old(links).inner.connections@[old(self)@.id].key@,
                }),
                None => !old(links).inner.connections@.contains_key(old(self)@.id),
            },
    {
        let event = links.unregister(self.id);
        self.phase = ConnectionPhase::Done;
        let outcome = match result {
            Ok(_) => Ok(()),
            Err(e) => Err(text::join("ironwood: ", e.as_str())),
        };
        (outcome, event)
    }
}

// ---------------------------------------------------------------------------
// Laws
// ---------------------------------------------------------------------------

/// A peer is let in exactly where nothing speaks against it.
pub proof fn admitted_peers_pass_every_check(
    link_type: LinkType,
    opts: options::OptionsView,
    local: LocalNode,
    meta: RemoteMeta,
    tls_key: Option<[u8; 32]>,
    allowed: bool,
    twin: bool,
)
    ensures
        verdict(link_type, opts, local, meta, tls_key, allowed, twin) is Admit <==> {
            &&& tls_key matches Some(k) ==> k@ == meta.public_key@
            &&& meta.compatible
            &&& meta.public_key@ != local.public_key@
            &&& opts.pinned_keys.len() > 0 ==> opts.pinned_keys.contains(meta.public_key@)
            &&& link_type == LinkType::Incoming ==> allowed
            &&& !twin
        },
        verdict(link_type, opts, local, meta, tls_key, allowed, twin) matches Verdict::Admit {
            priority,
        } ==> priority >= opts.priority && priority >= meta.priority && (priority == opts.priority
            || priority == meta.priority),
{
}

/// A certificate of another key, an incompatible version and a key that is not
/// allowed in get the blame; a connection to ourselves, a key that is not
/// pinned and a duplicate do not.
pub proof fn mistakes_of_configuration_get_no_blame(
    link_type: LinkType,
    opts: options::OptionsView,
    local: LocalNode,
    meta: RemoteMeta,
    tls_key: Option<[u8; 32]>,
    allowed: bool,
    twin: bool,
)
    ensures
        verdict(link_type, opts, local, meta, tls_key, allowed, twin) matches Verdict::Refuse {
            reason,
            blame,
        } ==> {
            blame <==> {
                ||| tls_key matches Some(k) && k@ != meta.public_key@
                ||| !meta.compatible
                ||| meta.public_key@ != local.public_key@ && (opts.pinned_keys.len() == 0
                    || opts.pinned_keys.contains(meta.public_key@)) && link_type
                    == LinkType::Incoming && !allowed
            }
        },
{
}

/// A peer at a loopback address, or at none, is never shut out and never
/// blamed.
pub proof fn loopback_is_never_banned(m: ban_list::Attempts, ip: Option<IpAddr>, now: u64)
    requires
        ip matches Some(a) ==> a.loopback(),
    ensures
        !shut_out(m, ip, now),
        blamed(m, ip, now) == m,
        looked_at(m, ip, now) == m,
{
}

/// An address that got the blame three times, each within the window of the
/// one before, is shut out until the ban is over, and then no longer.
pub proof fn three_blames_shut_out(
    m: ban_list::Attempts,
    ip: IpAddr,
    t1: u64,
    t2: u64,
    t3: u64,
    now: u64,
)
    requires
        !ip.loopback(),
        t2 - t1 <= ban_list::FAILED_ATTEMPT_WINDOW,
        t3 - t2 <= ban_list::FAILED_ATTEMPT_WINDOW,
        ban_list::counted(m, ip, t1) + 2 <= usize::MAX,
    ensures
        shut_out(
            blamed(blamed(blamed(m, Some(ip), t1), Some(ip), t2), Some(ip), t3),
            Some(ip),
            now,
        ) <==> now < t3 + ban_list::BAN_DURATION,
{
    ban_list::three_failures_ban(m, ip, t1, t2, t3, now);
}

/// What is handed to the decoder is the header and the body as they came, and
/// its length is the one that the header announced.
pub proof fn metadata_is_framed_by_its_header(c: ConnectionView, header: Seq<u8>, body: Seq<u8>)
    requires
        c.phase == ConnectionPhase::Header,
        header.len() == HEADER_LENGTH,
        body_length(header) matches Ok(n) && body.len() == n,
    ensures
        ({
            let (next, action) = handshake_step(c, HandshakeEventView::Bytes(header));
            &&& action == HandshakeActionView::Read(body.len())
            &&& handshake_step(next, HandshakeEventView::Bytes(body)).1
                == HandshakeActionView::Decode(header + body)
            &&& (header + body).len() == HEADER_LENGTH + header[4] * 256 + header[5]
        }),
{
}

/// A header is accepted exactly where it starts with `meta` and announces at
/// least the 64 bytes of a signature, and then the length is the number that
/// its last two bytes spell. A wrong start is blamed before a short length.
pub proof fn headers_are_accepted_exactly(header: Seq<u8>)
    requires
        header.len() == 6,
    ensures
        ({
            let meta = header[0] == 109 && header[1] == 101 && header[2] == 116 && header[3] == 97;
            let length = header[4] * 256 + header[5];
            &&& body_length(header) is Ok <==> meta && length >= 64
            &&& body_length(header) matches Ok(n) ==> n == length && n == ip::be_value(
                header.skip(4),
            )
            &&& body_length(header) matches Err(e) ==> e == if meta {
                "metadata too short"@
            } else {
                "invalid preamble"@
            }
        }),
{
    let start = header.take(4);
    assert(start[0] == header[0] && start[1] == header[1] && start[2] == header[2] && start[3]
        == header[3]);
    if header[0] == 109 && header[1] == 101 && header[2] == 116 && header[3] == 97 {
        assert(start =~= seq![109u8, 101, 116, 97]);
    }
    ip::two_bytes_are_high_and_low(header[4], header[5]);
    assert(header.skip(4) =~= seq![header[4], header[5]]);
}

/// Metadata of any length between 64 bytes and the greatest that two bytes
/// hold is read whole: behind `meta` and its length, exactly its bytes are
/// asked for, and header and body are decoded as they came.
pub proof fn framed_metadata_is_read_whole(c: ConnectionView, body: Seq<u8>)
    requires
        c.phase == ConnectionPhase::Header,
        64 <= body.len() <= 65535,
    ensures
        ({
            let header = seq![109u8, 101, 116, 97] + ip::be_bytes(body.len(), 2);
            let (next, action) = handshake_step(c, HandshakeEventView::Bytes(header));
            let (last, decode) = handshake_step(next, HandshakeEventView::Bytes(body));
            &&& header.len() == 6
            &&& action == HandshakeActionView::Read(body.len())
            &&& decode == HandshakeActionView::Decode(header + body)
            &&& next == ConnectionView { phase: ConnectionPhase::Body, header, ..c }
            &&& last == ConnectionView { phase: ConnectionPhase::Decoding, header, ..c }
        }),
{
    let length = ip::be_bytes(body.len(), 2);
    let header = seq![109u8, 101, 116, 97] + length;
    reveal_with_fuel(ip::be_bytes, 3);
    assert(length =~= seq![(body.len() / 256 % 256) as u8, (body.len() % 256) as u8]);
    headers_are_accepted_exactly(header);
}

/// A handshake goes through its phases in order: once our metadata is sent the
/// six bytes of the header are asked for, then the body, then it is decoded.
/// Every failure ends it, and the reason names the work that failed and keeps
/// what was said of it. Nothing else of the connection changes on the way.
pub proof fn handshakes_go_through_their_phases(c: ConnectionView, e: HandshakeEventView)
    requires
        can_come(c, e),
    ensures
        ({
            let (next, action) = handshake_step(c, e);
            &&& next == ConnectionView { phase: next.phase, header: next.header, ..c }
            &&& next.header == c.header || action is Read && c.phase == ConnectionPhase::Header
            &&& next.phase == ConnectionPhase::Done <==> action is Fail
            &&& e is Sent ==> action == HandshakeActionView::Read(6) && next.phase
                == ConnectionPhase::Header
            &&& e matches HandshakeEventView::Bytes(b) ==> (c.phase == ConnectionPhase::Body
                ==> action == HandshakeActionView::Decode(c.header + b) && next.phase
                == ConnectionPhase::Decoding)
            &&& e matches HandshakeEventView::Bytes(b) ==> (c.phase == ConnectionPhase::Header ==> (
            action is Read || action is Fail) && (action is Read ==> next.phase
                == ConnectionPhase::Body && next.header == b))
            &&& e matches HandshakeEventView::WriteFailed(m) ==> action
                == HandshakeActionView::Fail("write handshake: "@ + m)
            &&& e matches HandshakeEventView::FlushFailed(m) ==> action
                == HandshakeActionView::Fail("flush handshake: "@ + m)
            &&& e matches HandshakeEventView::ReadFailed(m) ==> action == HandshakeActionView::Fail(
                (if c.phase == ConnectionPhase::Header {
                    "read header: "@
                } else {
                    "read body: "@
                }) + m,
            )
            &&& e matches HandshakeEventView::DecodeFailed(m) ==> action
                == HandshakeActionView::Fail("decode handshake: "@ + m)
            &&& e is TimedOut ==> action == HandshakeActionView::Fail("handshake timed out"@)
            &&& action is Send ==> false
        }),
{
}

/// A refused peer is told of the first check that it fails: certificate,
/// version, its key being ours, the pinned keys, the allowed keys, and last
/// the link that there already is.
pub proof fn refusals_name_the_first_failed_check(
    link_type: LinkType,
    opts: options::OptionsView,
    local: LocalNode,
    meta: RemoteMeta,
    tls_key: Option<[u8; 32]>,
    allowed: bool,
    twin: bool,
)
    ensures
        ({
            let v = verdict(link_type, opts, local, meta, tls_key, allowed, twin);
            let certified = tls_key matches Some(k) ==> k@ == meta.public_key@;
            let other = meta.public_key@ != local.public_key@;
            let pinned = opts.pinned_keys.len() == 0 || opts.pinned_keys.contains(meta.public_key@);
            let welcome = link_type != LinkType::Incoming || allowed;
            &&& !certified ==> v == (Verdict::Refuse {
                reason: "TLS certificate pubkey does not match meta handshake pubkey"@,
                blame: true,
            })
            &&& certified && !meta.compatible ==> v == (Verdict::Refuse {
                reason: "incompatible version "@ + text::decimal(meta.major_ver as nat) + "."@
                    + text::decimal(meta.minor_ver as nat) + " (local "@ + text::decimal(
                    local.major_ver as nat,
                ) + "."@ + text::decimal(local.minor_ver as nat) + ")"@,
                blame: true,
            })
            &&& certified && meta.compatible && !other ==> v == (Verdict::Refuse {
                reason: "connected to self"@,
                blame: false,
            })
            &&& certified && meta.compatible && other && !pinned ==> v == (Verdict::Refuse {
                reason: "remote key not in pinned keys"@,
                blame: false,
            })
            &&& certified && meta.compatible && other && pinned && !welcome ==> v == (
            Verdict::Refuse { reason: "remote key not allowed"@, blame: true })
            &&& certified && meta.compatible && other && pinned && welcome && twin ==> v == (
            Verdict::Refuse { reason: "duplicate connection"@, blame: false })
        }),
{
}

/// A peer at an address that is not a loopback one is looked at and blamed as
/// the ban list has it, and is shut out exactly while its address is banned.
pub proof fn other_addresses_go_by_the_ban_list(m: ban_list::Attempts, a: IpAddr, now: u64)
    requires
        match a {
            IpAddr::V4(bits) => !(127 * 0x100_0000 <= bits < 128 * 0x100_0000),
            IpAddr::V6(bits) => bits != 1,
        },
    ensures
        blamed(m, Some(a), now) == ban_list::after_failure(m, a, now),
        looked_at(m, Some(a), now) == ban_list::after_check(m, a, now),
        shut_out(m, Some(a), now) == ban_list::banned(m, a, now),
{
}

/// A handshake has six seconds; a header has six bytes, and the body at least
/// the 64 of a signature.
pub proof fn handshakes_have_limits()
    ensures
        HANDSHAKE_TIMEOUT == 6,
        HEADER_LENGTH == 6,
        MINIMUM_BODY == 64,
{
}

/// There is room for whatever is decided of a peer unless the numbers of links
/// or the failures of its address are at their end.
pub proof fn there_is_room_until_a_count_is_full(
    links: ActiveLinks,
    ip: Option<IpAddr>,
    now: u64,
    v: Verdict,
)
    ensures
        room(links, ip, now) <==> links.inner.next_id < 0xffff_ffff_ffff_ffff && (ip matches Some(a)
            ==> ban_list::counted(links.ban_list@, a, now) <= usize::MAX),
        room(links, ip, now) ==> room_for(v, links, ip, now),
        v is Admit ==> (room_for(v, links, ip, now) <==> links.inner.next_id
            < 0xffff_ffff_ffff_ffff),
        v is Refuse && (!v->blame || ip is None || ip->0.loopback()) ==> room_for(
            v,
            links,
            ip,
            now,
        ),
        v is Refuse && v->blame && ip is Some && !ip->0.loopback() ==> (room_for(v, links, ip, now)
            <==> ban_list::counted(links.ban_list@, ip->0, now) <= usize::MAX),
{
}

/// What a handshake asks for can come: the work that it is done, that it fails,
/// or that the time runs out.
pub proof fn what_was_asked_for_can_come(
    c: ConnectionView,
    e: HandshakeEventView,
    b: Seq<u8>,
    m: Seq<char>,
)
    requires
        can_come(c, e),
    ensures
        ({
            let (next, action) = handshake_step(c, e);
            &&& action matches HandshakeActionView::Read(n) ==> (b.len() == n ==> can_come(
                next,
                HandshakeEventView::Bytes(b),
            ))
            &&& action is Read ==> can_come(next, HandshakeEventView::ReadFailed(m)) && can_come(
                next,
                HandshakeEventView::TimedOut,
            )
            &&& action is Decode ==> can_come(next, HandshakeEventView::DecodeFailed(m))
                && can_come(next, HandshakeEventView::TimedOut)
        }),
        ({
            let sending = ConnectionView { phase: ConnectionPhase::Sending, ..c };
            &&& can_come(sending, HandshakeEventView::Sent)
            &&& can_come(sending, HandshakeEventView::WriteFailed(m))
            &&& can_come(sending, HandshakeEventView::FlushFailed(m))
            &&& can_come(sending, HandshakeEventView::TimedOut)
        }),
{
}

/// The model of a connection is its fields.
pub proof fn a_connection_is_its_fields(c: Connection)
    ensures
        c@.link_type == c.link_type && c@.options == c.options@ && c@.local == c.local,
        c@.uri == c.uri@ && c@.peer_ip == c.peer_ip && c@.peer_ip_text == c.peer_ip_text@,
        c@.phase == c.phase && c@.header == c.header@ && c@.id == c.id,
{
}

/// The models of what a handshake asks for, and of what comes of it, are the
/// bytes, numbers and texts that they hold.
pub proof fn handshake_models_are_what_they_hold(b: Vec<u8>, e: String, n: usize)
    ensures
        HandshakeEvent::Sent@ is Sent && HandshakeEvent::TimedOut@ is TimedOut,
        HandshakeEvent::Bytes(b)@ == HandshakeEventView::Bytes(b@),
        HandshakeEvent::WriteFailed(e)@ == HandshakeEventView::WriteFailed(e@),
        HandshakeEvent::FlushFailed(e)@ == HandshakeEventView::FlushFailed(e@),
        HandshakeEvent::ReadFailed(e)@ == HandshakeEventView::ReadFailed(e@),
        HandshakeEvent::DecodeFailed(e)@ == HandshakeEventView::DecodeFailed(e@),
        HandshakeAction::Send@ is Send,
        HandshakeAction::Read(n)@ == HandshakeActionView::Read(n as nat),
        HandshakeAction::Decode(b)@ == HandshakeActionView::Decode(b@),
        HandshakeAction::Fail(e)@ == HandshakeActionView::Fail(e@),
{
}

} // verus!

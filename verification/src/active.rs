//! The registry of links that are up.
//!
//! Times are nanoseconds since a moment that the caller fixes once.
use std::collections::HashMap;
use std::sync::atomic::{AtomicUsize, Ordering};
use std::sync::Arc;
use vstd::prelude::*;

use crate::ban_list::{BanList, FailedAttempt};
use crate::ip::IpAddr;
use crate::text;

verus! {

/// Snapshot of a link's current state (for admin API).
#[derive(Debug)]
pub struct LinkPeerInfo {
    pub uri: String,
    pub up: bool,
    pub inbound: bool,
    pub key: [u8; 32],
    pub priority: u8,
    pub rx_bytes: usize,
    pub tx_bytes: usize,
    pub rx_rate: usize,
    pub tx_rate: usize,
    /// How long the link has been up, in nanoseconds.
    pub uptime: u64,
    /// The latency of the link, in nanoseconds; it is not measured here.
    pub latency: u64,
    pub cost: u64,
    pub last_error: Option<String>,
}

/// Fired when a peer connection is established or lost.
#[derive(Debug)]
pub enum PeerEvent {
    Connected { key: [u8; 32], uri: String, inbound: bool },
    Disconnected { key: [u8; 32] },
}

/// An event, in mathematical terms.
pub enum PeerEventView {
    Connected { key: Seq<u8>, uri: Seq<char>, inbound: bool },
    Disconnected { key: Seq<u8> },
}

impl View for PeerEvent {
    type V = PeerEventView;

    open spec fn view(&self) -> PeerEventView {
        match self {
            PeerEvent::Connected { key, uri, inbound } => PeerEventView::Connected {
                key: key@,
                uri: uri@,
                inbound: *inbound,
            },
            PeerEvent::Disconnected { key } => PeerEventView::Disconnected { key: key@ },
        }
    }
}

impl Clone for PeerEvent {
    fn clone(&self) -> (r: Self)
        ensures
            r@ == self@,
    {
        match self {
            PeerEvent::Connected { key, uri, inbound } => PeerEvent::Connected {
                key: *key,
                uri: uri.clone(),
                inbound: *inbound,
            },
            PeerEvent::Disconnected { key } => PeerEvent::Disconnected { key: *key },
        }
    }
}

/// A link that is up.
#[derive(Debug)]
pub struct ActiveConn {
    pub uri: String,
    pub inbound: bool,
    pub key: [u8; 32],
    pub priority: u8,
    /// The bytes that have been read, counted by the stream.
    pub rx: Arc<AtomicUsize>,
    /// The bytes that have been written, counted by the stream.
    pub tx: Arc<AtomicUsize>,
    pub rx_rate: usize,
    pub tx_rate: usize,
    pub last_rx: usize,
    pub last_tx: usize,
    /// Since when it is up.
    pub up: u64,
}

/// What is left of `a` once `b` is taken off, or nothing.
pub open spec fn less(a: nat, b: nat) -> nat {
    if a >= b {
        (a - b) as nat
    } else {
        0
    }
}

/// Whether `b` is `a` after its counters were read as `rx` and `tx`: the rates
/// are what has come since the last reading.
pub open spec fn sampled(a: ActiveConn, b: ActiveConn, rx: usize, tx: usize) -> bool {
    b == ActiveConn {
        rx_rate: less(rx as nat, a.last_rx as nat) as usize,
        tx_rate: less(tx as nat, a.last_tx as nat) as usize,
        last_rx: rx,
        last_tx: tx,
        ..a
    }
}

/// Whether `i` is the snapshot of `c` with its counters read as `rx` and `tx`.
pub open spec fn snapshot(c: ActiveConn, i: LinkPeerInfo, rx: usize, tx: usize, now: u64) -> bool {
    &&& i.uri@ == c.uri@
    &&& i.up
    &&& i.inbound == c.inbound
    &&& i.key == c.key
    &&& i.priority == c.priority
    &&& i.rx_bytes == rx
    &&& i.tx_bytes == tx
    &&& i.rx_rate == c.rx_rate
    &&& i.tx_rate == c.tx_rate
    &&& i.uptime == less(now as nat, c.up as nat)
    &&& i.latency == 0
    &&& i.cost == 0
    &&& i.last_error is None
}

impl ActiveConn {
    /// Takes a reading of the counters.
    pub fn sample(self, rx: usize, tx: usize) -> (r: Self)
        ensures
            sampled(self, r, rx, tx),
    {
        let mut c = self;
        c.rx_rate = rx.saturating_sub(c.last_rx);
        c.tx_rate = tx.saturating_sub(c.last_tx);
        c.last_rx = rx;
        c.last_tx = tx;
        c
    }

    /// The snapshot of the link, with its counters read as `rx` and `tx`.
    pub fn info(&self, rx: usize, tx: usize, now: u64) -> (r: LinkPeerInfo)
        ensures
            snapshot(*self, r, rx, tx, now),
    {
        LinkPeerInfo {
            uri: self.uri.clone(),
            up: true,
            inbound: self.inbound,
            key: self.key,
            priority: self.priority,
            rx_bytes: rx,
            tx_bytes: tx,
            rx_rate: self.rx_rate,
            tx_rate: self.tx_rate,
            uptime: now.saturating_sub(self.up),
            latency: 0,
            cost: 0,
            last_error: None,
        }
    }
}

fn read(counter: &AtomicUsize) -> usize {
    counter.load(Ordering::Relaxed)
}

/// The links by number.
pub type Connections = Map<u64, ActiveConn>;

/// The registered links.
#[derive(Debug)]
pub struct ActiveLinksInner {
    pub next_id: u64,
    pub connections: HashMap<u64, ActiveConn>,
}

/// Whether there is a link to this key in this direction.
pub open spec fn has_twin(m: Connections, key: Seq<u8>, inbound: bool) -> bool {
    exists|id: u64| #[trigger]
        m.contains_key(id) && m[id].key@ == key && m[id].inbound == inbound
}

/// Whether a row of numbers is a listing of a set, each member once.
pub open spec fn lists(ids: Seq<u64>, s: Set<u64>) -> bool {
    &&& ids.no_duplicates()
    &&& ids.to_set() == s
}

impl ActiveLinksInner {
    /// A number is never given twice, and there is at most one link to a key in
    /// either direction.
    pub open spec fn wf(&self) -> bool {
        &&& forall|id: u64| #[trigger] self.connections@.contains_key(id) ==> id < self.next_id
        &&& forall|a: u64, b: u64|
            #![trigger self.connections@[a], self.connections@[b]]
            self.connections@.contains_key(a) && self.connections@.contains_key(b)
                && self.connections@[a].key@ == self.connections@[b].key@
                && self.connections@[a].inbound == self.connections@[b].inbound ==> a == b
    }

    /// The number of a link to this key, in this direction or (`None`) in
    /// either.
    fn find(&self, key: &[u8; 32], inbound: Option<bool>) -> (r: Option<u64>)
        ensures
            match r {
                Some(id) => self.connections@.contains_key(id) && self.connections@[id].key@ == key@
                    && (inbound matches Some(b) ==> self.connections@[id].inbound == b),
                None => forall|id: u64| #[trigger]
                    self.connections@.contains_key(id) ==> self.connections@[id].key@ != key@ || (
                    inbound matches Some(b) && self.connections@[id].inbound != b),
            },
    {
        let ids = self.ids();
        let mut i: usize = 0;
        while i < ids.len()
            invariant
                lists(ids@, self.connections@.dom()),
                i <= ids@.len(),
                forall|j: int|
                    0 <= j < i ==> self.connections@[#[trigger] ids@[j]].key@ != key@ || (
                    inbound matches Some(b) && self.connections@[ids@[j]].inbound != b),
            decreases ids@.len() - i,
        {
            proof {
                assert(ids@.to_set().contains(ids@[i as int]));
            }
            if let Some(c) = self.connections.get(&ids[i]) {
                let way = match inbound {
                    Some(b) => c.inbound == b,
                    None => true,
                };
                if way && text::same_bytes(c.key.as_slice(), key.as_slice()) {
                    return Some(ids[i]);
                }
            }
            i = i + 1;
        }
        proof {
            assert forall|id: u64| #[trigger] self.connections@.contains_key(id) implies
                self.connections@[id].key@ != key@ || (inbound matches Some(b)
                && self.connections@[id].inbound != b) by {
                assert(ids@.to_set().contains(id));
                let j = choose|j: int| 0 <= j < ids@.len() && ids@[j] == id;
                assert(self.connections@[ids@[j]].key@ != key@ || (inbound matches Some(b)
                    && self.connections@[ids@[j]].inbound != b));
            }
        }
        None
    }

    /// The numbers of all links, in some order.
    fn ids(&self) -> (r: Vec<u64>)
        ensures
            lists(r@, self.connections@.dom()),
    {
        broadcast use vstd::std_specs::hash::group_hash_axioms;

        let mut out: Vec<u64> = Vec::new();
        for id in it: self.connections.keys()
            invariant
                it.seq().no_duplicates(),
                it.seq().unref().to_set() == self.connections@.dom(),
                out@ == it.seq().unref().take(it.index() as int),
                it.index() == it.seq().len() ==> out@ =~= it.seq().unref(),
        {
            out.push(*id);
        }
        out
    }
}

/// A link that was registered: its number, the counters that its stream adds
/// to, and the event to tell others of.
#[derive(Debug)]
pub struct Registered {
    pub id: u64,
    pub rx: Arc<AtomicUsize>,
    pub tx: Arc<AtomicUsize>,
    pub event: PeerEvent,
}

/// Whether `c` is a new link.
pub open spec fn new_link(
    c: ActiveConn,
    uri: Seq<char>,
    inbound: bool,
    key: Seq<u8>,
    priority: u8,
    now: u64,
) -> bool {
    &&& c.uri@ == uri
    &&& c.inbound == inbound
    &&& c.key@ == key
    &&& c.priority == priority
    &&& c.rx_rate == 0
    &&& c.tx_rate == 0
    &&& c.last_rx == 0
    &&& c.last_tx == 0
    &&& c.up == now
}

/// The links without those of a URI.
pub open spec fn without_uri(m: Connections, uri: Seq<char>) -> Connections {
    Map::new(|id: u64| m.contains_key(id) && m[id].uri@ != uri, |id: u64| m[id])
}

/// The numbers of the links of a URI.
pub open spec fn with_uri(m: Connections, uri: Seq<char>) -> Set<u64> {
    Set::new(|id: u64| m.contains_key(id) && m[id].uri@ == uri)
}

/// Shared registry of active link connections.
/// This is separate from the configured links so that the tasks that run them
/// can update it.
#[derive(Debug)]
pub struct ActiveLinks {
    pub inner: ActiveLinksInner,
    pub ban_list: BanList,
}

impl ActiveLinks {
    /// The registry and the ban list are well formed.
    pub open spec fn wf(&self) -> bool {
        self.inner.wf() && self.ban_list.wf()
    }

    /// A registry without links.
    pub fn new() -> (r: Self)
        ensures
            r.wf(),
            r.inner.next_id == 0,
            r.inner.connections@ == Map::<u64, ActiveConn>::empty(),
            r.ban_list@ == Map::<IpAddr, FailedAttempt>::empty(),
    {
        ActiveLinks {
            inner: ActiveLinksInner { next_id: 0, connections: HashMap::new() },
            ban_list: BanList::new(),
        }
    }

    /// Registers a link. Rejects a duplicate: same key and same direction.
    pub fn register(
        &mut self,
        uri: String,
        inbound: bool,
        key: [u8; 32],
        priority: u8,
        now: u64,
    ) -> (r: Option<Registered>)
        requires
            old(self).wf(),
            old(self).inner.next_id < u64::MAX || has_twin(
                old(self).inner.connections@,
                key@,
                inbound,
            ),
        ensures
            final(self).wf(),
            final(self).ban_list == old(self).ban_list,
            match r {
                None => {
                    &&& has_twin(old(self).inner.connections@, key@, inbound)
                    &&& final(self).inner == old(self).inner
                },
                Some(g) => {
                    let c = final(self).inner.connections@[g.id];
                    &&& !has_twin(old(self).inner.connections@, key@, inbound)
                    &&& g.id == old(self).inner.next_id
                    &&& final(self).inner.next_id == old(self).inner.next_id + 1
                    &&& final(self).inner.connections@ == old(self).inner.connections@.insert(
                        g.id,
                        c,
                    )
                    &&& new_link(c, uri@, inbound, key@, priority, now)
                    &&& g.rx == c.rx
                    &&& g.tx == c.tx
                    &&& g.event@ == PeerEventView::Connected { key: key@, uri: uri@, inbound }
                },
            },
    {
        if let Some(_) = self.inner.find(&key, Some(inbound)) {
            return None;
        }
        let id = self.inner.next_id;
        self.inner.next_id = id + 1;
        let rx = Arc::new(AtomicUsize::new(0));
        let tx = Arc::new(AtomicUsize::new(0));
        let conn = ActiveConn {
            uri: uri.clone(),
            inbound,
            key,
            priority,
            rx: rx.clone(),
            tx: tx.clone(),
            rx_rate: 0,
            tx_rate: 0,
            last_rx: 0,
            last_tx: 0,
            up: now,
        };
        let _ = self.inner.connections.insert(id, conn);
        Some(Registered { id, rx, tx, event: PeerEvent::Connected { key, uri, inbound } })
    }

    /// Takes a link out. Returns the event to tell others of, where there was
    /// such a link.
    pub fn unregister(&mut self, id: u64) -> (r: Option<PeerEvent>)
        requires
            old(self).wf(),
        ensures
            final(self).wf(),
            final(self).ban_list == old(self).ban_list,
            final(self).inner.next_id == old(self).inner.next_id,
            final(self).inner.connections@ == old(self).inner.connections@.remove(id),
            match r {
                Some(e) => old(self).inner.connections@.contains_key(id) && e@
                    == (PeerEventView::Disconnected { key: old(self).inner.connections@[id].key@ }),
                None => !old(self).inner.connections@.contains_key(id),
            },
    {
        match self.inner.connections.remove(&id) {
            Some(c) => Some(PeerEvent::Disconnected { key: c.key }),
            None => None,
        }
    }

    /// Remove all active connections whose URI matches `uri`. Returns an event
    /// for each of them, in some order.
    ///
    /// A peer that is removed needs this: its reconnect task is aborted, and
    /// can no longer unregister its link itself.
    pub fn unregister_by_uri(&mut self, uri: &str) -> (r: Vec<PeerEvent>)
        requires
            old(self).wf(),
        ensures
            final(self).wf(),
            final(self).ban_list == old(self).ban_list,
            final(self).inner.next_id == old(self).inner.next_id,
            final(self).inner.connections@ == without_uri(old(self).inner.connections@, uri@),
            exists|ids: Seq<u64>| #[trigger]
                lists(ids, with_uri(old(self).inner.connections@, uri@)) && ids.len() == r@.len()
                    && forall|i: int|
                    0 <= i < ids.len() ==> (#[trigger] r@[i])@ == (PeerEventView::Disconnected {
                        key: old(self).inner.connections@[ids[i]].key@,
                    }),
    {
        let ids = self.inner.ids();
        let ghost before = self.inner.connections@;
        let ghost mut gone: Seq<u64> = seq![];
        let mut events: Vec<PeerEvent> = Vec::new();
        let mut i: usize = 0;
        while i < ids.len()
            invariant
                self.wf(),
                self.ban_list == old(self).ban_list,
                self.inner.next_id == old(self).inner.next_id,
                before == old(self).inner.connections@,
                lists(ids@, before.dom()),
                i <= ids@.len(),
                forall|id: u64| #[trigger]
                    self.inner.connections@.contains_key(id) ==> before.contains_key(id)
                        && self.inner.connections@[id] == before[id],
                forall|j: int|
                    0 <= j < i ==> (self.inner.connections@.contains_key(#[trigger] ids@[j])
                        <==> before[ids@[j]].uri@ != uri@),
                forall|j: int|
                    i <= j < ids@.len() ==> self.inner.connections@.contains_key(
                        #[trigger] ids@[j],
                    ),
                gone.no_duplicates(),
                gone.len() == events@.len(),
                forall|k: int|
                    0 <= k < gone.len() ==> before.contains_key(#[trigger] gone[k])
                        && before[gone[k]].uri@ == uri@ && ids@.take(i as int).contains(gone[k]),
                forall|k: int|
                    0 <= k < gone.len() ==> (#[trigger] events@[k])@
                        == (PeerEventView::Disconnected { key: before[gone[k]].key@ }),
                forall|j: int|
                    0 <= j < i && before[ids@[j]].uri@ == uri@ ==> gone.contains(#[trigger] ids@[j]),
            decreases ids@.len() - i,
        {
            let id = ids[i];
            let ghost now = self.inner.connections@;
            assert(ids@.to_set().contains(ids@[i as int]));
            let hit = match self.inner.connections.get(&id) {
                Some(c) => text::same_text(c.uri.as_str(), uri),
                None => false,
            };
            proof {
                assert(ids@.take(i + 1)[i as int] == id);
                assert forall|x: u64| ids@.take(i as int).contains(x) implies ids@.take(
                    i + 1,
                ).contains(x) by {
                    let j = choose|j: int| 0 <= j < i && ids@.take(i as int)[j] == x;
                    assert(ids@.take(i + 1)[j] == x);
                }
            }
            if hit {
                if let Some(e) = self.unregister(id) {
                    events.push(e);
                    proof {
                        let was = gone;
                        if was.contains(id) {
                            let k = choose|k: int| 0 <= k < was.len() && was[k] == id;
                            let j = choose|j: int| 0 <= j < i && ids@.take(i as int)[j] == was[k];
                            assert(ids@[j] == ids@[i as int]);
                        }
                        gone = was.push(id);
                        assert forall|j: int|
                            0 <= j < i + 1 && before[ids@[j]].uri@ == uri@ implies gone.contains(
                            #[trigger] ids@[j],
                        ) by {
                            if j < i {
                                let k = choose|k: int| 0 <= k < was.len() && was[k] == ids@[j];
                                assert(gone[k] == ids@[j]);
                            } else {
                                assert(gone[was.len() as int] == id);
                            }
                        }
                        assert forall|x: u64| #[trigger]
                            self.inner.connections@.contains_key(x) implies before.contains_key(x)
                            && self.inner.connections@[x] == before[x] by {
                            assert(now.contains_key(x));
                        }
                    }
                }
            }
            i = i + 1;
        }
        proof {
            assert(ids@.take(i as int) =~= ids@);
            assert(gone.to_set() =~= with_uri(before, uri@)) by {
                assert forall|id: u64| with_uri(before, uri@).contains(id) implies gone.contains(
                    id,
                ) by {
                    assert(ids@.to_set().contains(id));
                    let j = choose|j: int| 0 <= j < ids@.len() && ids@[j] == id;
                    assert(gone.contains(ids@[j]));
                }
            }
            assert forall|id: u64| before.contains_key(id) implies (
            self.inner.connections@.contains_key(id) <==> before[id].uri@ != uri@) by {
                assert(ids@.to_set().contains(id));
                let j = choose|j: int| 0 <= j < ids@.len() && ids@[j] == id;
                assert(self.inner.connections@.contains_key(ids@[j]) <==> before[ids@[j]].uri@
                    != uri@);
            }
            assert(self.inner.connections@ =~= without_uri(before, uri@));
            assert(lists(gone, with_uri(before, uri@)));
        }
        events
    }

    /// Update rate counters for all connections (call every ~1 second). The
    /// rate of a link is what its counter, read now, has gained since it was
    /// read last.
    pub fn update_rates(&mut self)
        requires
            old(self).wf(),
        ensures
            final(self).wf(),
            final(self).ban_list == old(self).ban_list,
            final(self).inner.next_id == old(self).inner.next_id,
            final(self).inner.connections@.dom() == old(self).inner.connections@.dom(),
            forall|id: u64| #[trigger]
                old(self).inner.connections@.contains_key(id) ==> sampled(
                    old(self).inner.connections@[id],
                    final(self).inner.connections@[id],
                    final(self).inner.connections@[id].last_rx,
                    final(self).inner.connections@[id].last_tx,
                ),
    {
        let ids = self.inner.ids();
        let ghost before = self.inner.connections@;
        let mut i: usize = 0;
        while i < ids.len()
            invariant
                self.wf(),
                self.ban_list == old(self).ban_list,
                self.inner.next_id == old(self).inner.next_id,
                before == old(self).inner.connections@,
                lists(ids@, before.dom()),
                i <= ids@.len(),
                self.inner.connections@.dom() == before.dom(),
                forall|j: int|
                    0 <= j < i ==> sampled(
                        before[#[trigger] ids@[j]],
                        self.inner.connections@[ids@[j]],
                        self.inner.connections@[ids@[j]].last_rx,
                        self.inner.connections@[ids@[j]].last_tx,
                    ),
                forall|j: int|
                    i <= j < ids@.len() ==> self.inner.connections@[#[trigger] ids@[j]]
                        == before[ids@[j]],
            decreases ids@.len() - i,
        {
            let id = ids[i];
            assert(ids@.to_set().contains(ids@[i as int]));
            let ghost was = self.inner.connections@;
            assert(was.contains_key(id));
            if let Some(c) = self.inner.connections.remove(&id) {
                let rx = read(&c.rx);
                let tx = read(&c.tx);
                let _ = self.inner.connections.insert(id, c.sample(rx, tx));
            }
            proof {
                assert(self.inner.connections@.dom() =~= before.dom());
            }
            i = i + 1;
        }
        proof {
            assert forall|id: u64| #[trigger] before.contains_key(id) implies sampled(
                before[id],
                self.inner.connections@[id],
                self.inner.connections@[id].last_rx,
                self.inner.connections@[id].last_tx,
            ) by {
                assert(ids@.to_set().contains(id));
                let j = choose|j: int| 0 <= j < ids@.len() && ids@[j] == id;
                assert(sampled(
                    before[ids@[j]],
                    self.inner.connections@[ids@[j]],
                    self.inner.connections@[ids@[j]].last_rx,
                    self.inner.connections@[ids@[j]].last_tx,
                ));
            }
        }
    }

    /// Check if there is an active connection to the given public key.
    pub fn has_key(&self, key: &[u8; 32]) -> (r: bool)
        ensures
            r == (exists|id: u64| #[trigger]
                self.inner.connections@.contains_key(id) && self.inner.connections@[id].key@
                    == key@),
    {
        match self.inner.find(key, None) {
            Some(_) => true,
            None => false,
        }
    }

    /// Get a snapshot of all active connections for the admin API, in some
    /// order. The bytes are what the counters of a link hold when they are
    /// read.
    pub fn get_peers(&self, now: u64) -> (r: Vec<LinkPeerInfo>)
        ensures
            exists|ids: Seq<u64>| #[trigger]
                lists(ids, self.inner.connections@.dom()) && ids.len() == r@.len() && forall|i: int|
                    0 <= i < ids.len() ==> snapshot(
                        self.inner.connections@[ids[i]],
                        #[trigger] r@[i],
                        r@[i].rx_bytes,
                        r@[i].tx_bytes,
                        now,
                    ),
    {
        let ids = self.inner.ids();
        let mut out: Vec<LinkPeerInfo> = Vec::new();
        let mut i: usize = 0;
        while i < ids.len()
            invariant
                lists(ids@, self.inner.connections@.dom()),
                i <= ids@.len(),
                out@.len() == i,
                forall|j: int|
                    0 <= j < i ==> snapshot(
                        self.inner.connections@[ids@[j]],
                        #[trigger] out@[j],
                        out@[j].rx_bytes,
                        out@[j].tx_bytes,
                        now,
                    ),
            decreases ids@.len() - i,
        {
            assert(ids@.to_set().contains(ids@[i as int]));
            if let Some(c) = self.inner.connections.get(&ids[i]) {
                out.push(c.info(read(&c.rx), read(&c.tx), now));
            }
            i = i + 1;
        }
        assert(lists(ids@, self.inner.connections@.dom()));
        out
    }
}

// ---------------------------------------------------------------------------
// Laws
// ---------------------------------------------------------------------------

/// A registered link takes its key in its direction, and in no other.
pub proof fn registered_link_takes_one_place(
    m: Connections,
    id: u64,
    c: ActiveConn,
    key: Seq<u8>,
    way: bool,
)
    requires
        !m.contains_key(id),
    ensures
        has_twin(m.insert(id, c), key, way) <==> has_twin(m, key, way) || (c.key@ == key && c.inbound
            == way),
{
    let n = m.insert(id, c);
    if has_twin(m, key, way) {
        let a = choose|a: u64| #[trigger]
            m.contains_key(a) && m[a].key@ == key && m[a].inbound == way;
        assert(n.contains_key(a) && n[a] == m[a]);
    }
    if c.key@ == key && c.inbound == way {
        assert(n.contains_key(id) && n[id] == c);
    }
    if has_twin(n, key, way) {
        let a = choose|a: u64| #[trigger]
            n.contains_key(a) && n[a].key@ == key && n[a].inbound == way;
        if a != id {
            assert(m.contains_key(a));
        }
    }
}

/// Unregistering a link makes room for another to the same key in the same
/// direction.
pub proof fn unregistering_makes_room(links: ActiveLinksInner, id: u64)
    requires
        links.wf(),
        links.connections@.contains_key(id),
    ensures
        !has_twin(
            links.connections@.remove(id),
            links.connections@[id].key@,
            links.connections@[id].inbound,
        ),
{
    let m = links.connections@;
    let n = m.remove(id);
    if has_twin(n, m[id].key@, m[id].inbound) {
        let a = choose|a: u64| #[trigger]
            n.contains_key(a) && n[a].key@ == m[id].key@ && n[a].inbound == m[id].inbound;
        assert(m.contains_key(a) && m[a] == n[a]);
        assert(a == id);
    }
}

/// A link that is registered and then unregistered leaves the others as they
/// were.
pub proof fn unregistering_undoes_registering(links: ActiveLinksInner, c: ActiveConn)
    requires
        links.wf(),
    ensures
        links.connections@.insert(links.next_id, c).remove(links.next_id) == links.connections@,
{
    let m = links.connections@;
    assert(!m.contains_key(links.next_id));
    assert(m.insert(links.next_id, c).remove(links.next_id) =~= m);
}

/// Once the links of a URI are gone, none of it is left and none of another
/// is missing; to remove them again changes nothing.
pub proof fn no_link_of_a_removed_uri_is_left(m: Connections, uri: Seq<char>)
    ensures
        with_uri(without_uri(m, uri), uri) == Set::<u64>::empty(),
        forall|other: Seq<char>|
            other != uri ==> #[trigger] with_uri(without_uri(m, uri), other) == with_uri(m, other),
        without_uri(without_uri(m, uri), uri) == without_uri(m, uri),
{
    assert(with_uri(without_uri(m, uri), uri) =~= Set::<u64>::empty());
    assert forall|other: Seq<char>| other != uri implies #[trigger] with_uri(
        without_uri(m, uri),
        other,
    ) == with_uri(m, other) by {
        assert(with_uri(without_uri(m, uri), other) =~= with_uri(m, other));
    }
    assert(without_uri(without_uri(m, uri), uri) =~= without_uri(m, uri));
}

/// The sum of the rates that a row of readings gives.
pub open spec fn rate_sum(readings: Seq<nat>) -> nat
    decreases readings.len(),
{
    if readings.len() == 0 {
        0
    } else {
        let before = readings.drop_last();
        rate_sum(before) + less(
            readings.last(),
            if before.len() == 0 {
                0
            } else {
                before.last()
            },
        )
    }
}

/// The rates of a counter that only grows add up to what it holds.
pub proof fn rates_add_up(readings: Seq<nat>)
    requires
        readings.len() > 0,
        forall|i: int, j: int| 0 <= i <= j < readings.len() ==> readings[i] <= readings[j],
    ensures
        rate_sum(readings) == readings.last(),
    decreases readings.len(),
{
    let before = readings.drop_last();
    if before.len() > 0 {
        rates_add_up(before);
        assert(before.last() == readings[readings.len() - 2]);
    } else {
        assert(rate_sum(before) == 0);
    }
}

/// Registering adds one link under a number that no link has, and leaves the
/// others as they were.
pub proof fn registering_adds_one_link(links: ActiveLinksInner, c: ActiveConn)
    requires
        links.wf(),
    ensures
        ({
            let m = links.connections@;
            let n = m.insert(links.next_id, c);
            &&& !m.contains_key(links.next_id)
            &&& n[links.next_id] == c
            &&& forall|id: u64|
                id != links.next_id ==> (#[trigger] n.contains_key(id) <==> m.contains_key(id))
            &&& forall|id: u64| #[trigger] m.contains_key(id) ==> n[id] == m[id]
        }),
{
}

/// What can be done with a registry: a link is registered, or anything else,
/// which leaves the next number as it is.
pub enum RegistryUse {
    Register,
    Other,
}

/// The numbers that a row of uses gives, where the next one is `next`.
pub open spec fn numbers_given(next: nat, uses: Seq<RegistryUse>) -> Seq<nat>
    decreases uses.len(),
{
    if uses.len() == 0 {
        seq![]
    } else if uses[0] is Register {
        seq![next] + numbers_given(next + 1, uses.drop_first())
    } else {
        numbers_given(next, uses.drop_first())
    }
}

/// No number is ever given twice, also where its link is gone.
pub proof fn numbers_are_never_given_twice(next: nat, uses: Seq<RegistryUse>)
    ensures
        forall|i: int| 0 <= i < numbers_given(next, uses).len() ==> (#[trigger] numbers_given(
            next,
            uses,
        )[i]) >= next,
        numbers_given(next, uses).no_duplicates(),
    decreases uses.len(),
{
    if uses.len() > 0 {
        let rest = uses.drop_first();
        if uses[0] is Register {
            numbers_are_never_given_twice(next + 1, rest);
            let all = numbers_given(next, uses);
            assert forall|i: int| 0 < i < all.len() implies (#[trigger] all[i]) >= next + 1 by {
                assert(all[i] == numbers_given(next + 1, rest)[i - 1]);
            }
            assert forall|i: int, j: int| 0 <= i < all.len() && 0 <= j < all.len() && i != j implies
                all[i] != all[j] by {
                if i > 0 && j > 0 {
                    assert(all[i] == numbers_given(next + 1, rest)[i - 1]);
                    assert(all[j] == numbers_given(next + 1, rest)[j - 1]);
                }
            }
        } else {
            numbers_are_never_given_twice(next, rest);
        }
    }
}

/// A reading makes the rates what the counters have gained since the last one,
/// each its own, and nothing where a counter went back; the readings are kept
/// for the next time, and nothing else of the link changes.
pub proof fn rates_are_what_has_been_gained(a: ActiveConn, b: ActiveConn, rx: usize, tx: usize)
    requires
        sampled(a, b, rx, tx),
    ensures
        rx >= a.last_rx ==> a.last_rx + b.rx_rate == rx,
        rx < a.last_rx ==> b.rx_rate == 0,
        tx >= a.last_tx ==> a.last_tx + b.tx_rate == tx,
        tx < a.last_tx ==> b.tx_rate == 0,
        b.last_rx == rx && b.last_tx == tx,
        b.uri == a.uri && b.inbound == a.inbound && b.key == a.key && b.priority == a.priority,
        b.rx == a.rx && b.tx == a.tx && b.up == a.up,
{
}

/// A new link was not read yet: its first reading makes the rates all that its
/// counters hold. It is up from the moment that it was registered at.
pub proof fn a_new_link_has_gained_everything(
    c: ActiveConn,
    b: ActiveConn,
    uri: Seq<char>,
    inbound: bool,
    key: Seq<u8>,
    priority: u8,
    now: u64,
    rx: usize,
    tx: usize,
)
    requires
        new_link(c, uri, inbound, key, priority, now),
        sampled(c, b, rx, tx),
    ensures
        c.uri@ == uri && c.inbound == inbound && c.key@ == key && c.priority == priority,
        c.up == now,
        c.rx_rate == 0 && c.tx_rate == 0,
        b.rx_rate == rx && b.tx_rate == tx,
{
}

/// A snapshot is what is known of its link: its own URI, direction, key,
/// priority, bytes and rates, and the time since it is up, which is none where
/// the clock went back.
pub proof fn snapshots_tell_what_is_known(
    c: ActiveConn,
    i: LinkPeerInfo,
    rx: usize,
    tx: usize,
    now: u64,
)
    requires
        snapshot(c, i, rx, tx, now),
    ensures
        i.up && i.last_error is None && i.latency == 0 && i.cost == 0,
        i.uri@ == c.uri@ && i.inbound == c.inbound && i.key == c.key && i.priority == c.priority,
        i.rx_bytes == rx && i.tx_bytes == tx,
        i.rx_rate == c.rx_rate && i.tx_rate == c.tx_rate,
        now >= c.up ==> c.up + i.uptime == now,
        now < c.up ==> i.uptime == 0,
{
}

/// There is a link to a key in a direction exactly where some link has both.
pub proof fn a_twin_has_the_key_and_the_direction(m: Connections, id: u64, key: Seq<u8>, way: bool)
    ensures
        m.contains_key(id) ==> has_twin(m, m[id].key@, m[id].inbound),
        has_twin(m, key, way) ==> exists|a: u64| #[trigger]
            m.contains_key(a) && m[a].key@ == key && m[a].inbound == way,
{
}

/// A link is gone with its URI exactly where it has that URI, and the others
/// are as they were.
pub proof fn links_go_with_their_uri(m: Connections, uri: Seq<char>, id: u64)
    ensures
        without_uri(m, uri).contains_key(id) <==> m.contains_key(id) && m[id].uri@ != uri,
        with_uri(m, uri).contains(id) <==> m.contains_key(id) && m[id].uri@ == uri,
        without_uri(m, uri).contains_key(id) ==> without_uri(m, uri)[id] == m[id],
{
}

/// A listing names each member of a set, once, and nothing else.
pub proof fn listings_name_each_member_once(ids: Seq<u64>, s: Set<u64>)
    requires
        lists(ids, s),
    ensures
        forall|id: u64| #[trigger] s.contains(id) <==> ids.contains(id),
        forall|i: int, j: int| 0 <= i < j < ids.len() ==> ids[i] != ids[j],
        s.finite() && s.len() == ids.len(),
{
    ids.unique_seq_to_set();
    assert forall|id: u64| #[trigger] s.contains(id) <==> ids.contains(id) by {
        assert(ids.to_set().contains(id) <==> ids.contains(id));
    }
}

/// The model of an event is what it holds.
pub proof fn event_models_are_what_they_hold(key: [u8; 32], uri: String, inbound: bool)
    ensures
        (PeerEvent::Connected { key, uri, inbound })@ == (PeerEventView::Connected {
            key: key@,
            uri: uri@,
            inbound,
        }),
        (PeerEvent::Disconnected { key })@ == (PeerEventView::Disconnected { key: key@ }),
{
}

} // verus!

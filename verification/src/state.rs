//! Per-peer traffic counters and learned endpoints.

use vstd::prelude::*;

use crate::names::NameMap;
use crate::net::SocketAddr;

verus! {

/// Runtime statistics for a single peer.
#[derive(Clone, Copy, Debug, Eq, PartialEq, Structural)]
pub struct PeerStats {
    pub last_seen: Option<u64>,
    pub tx_bytes: u64,
    pub rx_bytes: u64,
    pub current_endpoint: Option<SocketAddr>,
}

impl View for PeerStats {
    type V = PeerStats;

    open spec fn view(&self) -> PeerStats {
        *self
    }
}

impl PeerStats {
    /// The statistics of a peer of which nothing is known.
    pub open spec fn none() -> PeerStats {
        PeerStats { last_seen: None, tx_bytes: 0, rx_bytes: 0, current_endpoint: None }
    }

    /// A byte counter after `bytes` more; it wraps at its width.
    pub open spec fn counted(counter: u64, bytes: usize) -> u64 {
        ((counter + bytes) % 0x1_0000_0000_0000_0000) as u64
    }
}

impl Default for PeerStats {
    fn default() -> (stats: PeerStats)
        ensures
            stats == PeerStats::none(),
    {
        PeerStats { last_seen: None, tx_bytes: 0, rx_bytes: 0, current_endpoint: None }
    }
}

/// Container for all peer stats.
pub struct PeerState {
    inner: NameMap<PeerStats>,
}

impl View for PeerState {
    type V = Map<Seq<char>, PeerStats>;

    closed spec fn view(&self) -> Map<Seq<char>, PeerStats> {
        self.inner@
    }
}

/// What a map of statistics says of a peer: nothing before its first packet.
pub open spec fn stats_of(peers: Map<Seq<char>, PeerStats>, name: Seq<char>) -> PeerStats {
    if peers.contains_key(name) {
        peers[name]
    } else {
        PeerStats::none()
    }
}

/// The statistics after `bytes` were sent to a peer.
pub open spec fn after_tx(
    peers: Map<Seq<char>, PeerStats>,
    name: Seq<char>,
    bytes: usize,
) -> Map<Seq<char>, PeerStats> {
    let stats = stats_of(peers, name);
    peers.insert(
        name,
        PeerStats { tx_bytes: PeerStats::counted(stats.tx_bytes, bytes), ..stats },
    )
}

/// The statistics after an authenticated packet of `bytes` from a peer.
pub open spec fn after_rx(
    peers: Map<Seq<char>, PeerStats>,
    name: Seq<char>,
    source: SocketAddr,
    bytes: usize,
    now: u64,
) -> Map<Seq<char>, PeerStats> {
    let stats = stats_of(peers, name);
    peers.insert(
        name,
        PeerStats {
            rx_bytes: PeerStats::counted(stats.rx_bytes, bytes),
            last_seen: Some(now),
            current_endpoint: Some(source),
            ..stats
        },
    )
}

/// The statistics after an authenticated keepalive from a peer.
pub open spec fn after_keepalive(
    peers: Map<Seq<char>, PeerStats>,
    name: Seq<char>,
    source: SocketAddr,
    now: u64,
) -> Map<Seq<char>, PeerStats> {
    let stats = stats_of(peers, name);
    peers.insert(
        name,
        PeerStats { last_seen: Some(now), current_endpoint: Some(source), ..stats },
    )
}

impl PeerState {
    pub fn new() -> (state: PeerState)
        ensures
            state@ == Map::<Seq<char>, PeerStats>::empty(),
    {
        PeerState { inner: NameMap::new() }
    }

    /// What is known of a peer, as soon as anything is.
    pub fn stats(&self, peer_name: &str) -> (stats: Option<PeerStats>)
        ensures
            match stats {
                Some(s) => self@.contains_key(peer_name@) && self@[peer_name@] == s,
                None => !self@.contains_key(peer_name@),
            },
    {
        match self.inner.get(peer_name) {
            Some(stats) => Some(*stats),
            None => None,
        }
    }

    fn entry(&self, peer_name: &str) -> (stats: PeerStats)
        ensures
            stats == stats_of(self@, peer_name@),
    {
        match self.inner.get(peer_name) {
            Some(stats) => *stats,
            None => PeerStats::default(),
        }
    }

    pub fn record_tx(&mut self, peer_name: &str, bytes: usize)
        ensures
            final(self)@ == after_tx(old(self)@, peer_name@, bytes),
    {
        let mut stats = self.entry(peer_name);
        stats.tx_bytes = stats.tx_bytes.wrapping_add(bytes as u64);
        self.inner.insert(peer_name, stats);
    }

    pub fn record_rx(&mut self, peer_name: &str, source: SocketAddr, bytes: usize, now: u64)
        ensures
            final(self)@ == after_rx(old(self)@, peer_name@, source, bytes, now),
    {
        let mut stats = self.entry(peer_name);
        stats.rx_bytes = stats.rx_bytes.wrapping_add(bytes as u64);
        stats.last_seen = Some(now);
        stats.current_endpoint = Some(source);
        self.inner.insert(peer_name, stats);
    }

    pub fn record_keepalive(&mut self, peer_name: &str, source: SocketAddr, now: u64)
        ensures
            final(self)@ == after_keepalive(old(self)@, peer_name@, source, now),
    {
        let mut stats = self.entry(peer_name);
        stats.last_seen = Some(now);
        stats.current_endpoint = Some(source);
        self.inner.insert(peer_name, stats);
    }

    /// A copy of all statistics.
    pub fn snapshot(&self) -> (copy: NameMap<PeerStats>)
        ensures
            copy@ == self@,
    {
        let mut copy: NameMap<PeerStats> = NameMap::new();
        let mut i: usize = 0;
        while i < self.inner.len()
            invariant
                i <= self.inner.count(),
                forall|name: Seq<char>| #[trigger]
                    copy@.contains_key(name) ==> self.inner@.contains_key(name) && copy@[name]
                        == self.inner@[name],
                forall|j: int|
                    #![trigger self.inner.name_at(j)]
                    0 <= j < i ==> copy@.contains_key(self.inner.name_at(j)),
            decreases self.inner.count() - i,
        {
            let (name, stats) = self.inner.entry(i);
            copy.insert(name.as_str(), *stats);
            i = i + 1;
        }
        proof {
            self.inner.lemma_names();
            assert(copy@ =~= self.inner@);
        }
        copy
    }
}

// ---------------------------------------------------------------------------
// Laws.
// ---------------------------------------------------------------------------

/// What is recorded of a peer's packets adds up, is the latest of them, and
/// touches no other peer.
pub proof fn statistics_follow_the_packets(
    peers: Map<Seq<char>, PeerStats>,
    name: Seq<char>,
    other: Seq<char>,
    source: SocketAddr,
    bytes: usize,
    now: u64,
)
    requires
        other != name,
    ensures
        ({
            let before = stats_of(peers, name);
            let sent = stats_of(after_tx(peers, name, bytes), name);
            let received = stats_of(after_rx(peers, name, source, bytes, now), name);
            let probed = stats_of(after_keepalive(peers, name, source, now), name);
            &&& before.tx_bytes + bytes <= u64::MAX ==> sent.tx_bytes == before.tx_bytes + bytes
            &&& sent.rx_bytes == before.rx_bytes && sent.last_seen == before.last_seen
                && sent.current_endpoint == before.current_endpoint
            &&& before.rx_bytes + bytes <= u64::MAX ==> received.rx_bytes == before.rx_bytes + bytes
            &&& received.tx_bytes == before.tx_bytes && received.last_seen == Some(now)
                && received.current_endpoint == Some(source)
            &&& probed.tx_bytes == before.tx_bytes && probed.rx_bytes == before.rx_bytes
                && probed.last_seen == Some(now) && probed.current_endpoint == Some(source)
            &&& stats_of(after_tx(peers, name, bytes), other) == stats_of(peers, other)
            &&& stats_of(after_rx(peers, name, source, bytes, now), other) == stats_of(peers, other)
            &&& stats_of(after_keepalive(peers, name, source, now), other) == stats_of(peers, other)
        }),
{
}

} // verus!

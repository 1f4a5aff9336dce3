//! The values and rules behind the stable C ABI that embeds the packet engine.
//!
//! Pointers, callbacks and locks belong to the application. This module says
//! what crosses the boundary, which failure a call reports, and when a runtime
//! may start, serve calls and stop.

use std::sync::Arc;

use vstd::prelude::*;
use vstd::string::*;

use crate::bytes::{is_before, read_be, u128_from_be_bytes, u128_to_be_bytes};
use crate::config::{Config, TransportConfig};
use crate::engine::{Engine, EngineAction, EngineEvent, EngineOutput, HandshakeRole};
use crate::net::{Ipv4Addr, Ipv4Net, Ipv6Addr, SocketAddr};
use crate::router::{share, Peer, Router};
use crate::scheduler::SchedulerError;
use crate::state::PeerStats;
use crate::text::decimal;

verus! {

pub const HW_CORE_ABI_VERSION: u32 = 2;
pub const ERROR_MESSAGE_CAPACITY: usize = 512;
/// Nanoseconds in a millisecond.
pub const MILLISECOND: u64 = 1_000_000;

// ---------------------------------------------------------------------------
// Status and errors.
// ---------------------------------------------------------------------------

#[derive(Clone, Copy, Debug, Eq, PartialEq, Structural)]
pub enum HwStatus {
    Success,
    InvalidArgument,
    InvalidState,
    ConfigError,
    EngineError,
    InternalError,
    Panic,
}

impl HwStatus {
    /// The number that stands for this status.
    pub open spec fn number(self) -> int {
        match self {
            HwStatus::Success => 0,
            HwStatus::InvalidArgument => 1,
            HwStatus::InvalidState => 2,
            HwStatus::ConfigError => 3,
            HwStatus::EngineError => 4,
            HwStatus::InternalError => 5,
            HwStatus::Panic => 6,
        }
    }

    pub fn code(self) -> (code: i32)
        ensures
            code == self.number(),
    {
        match self {
            HwStatus::Success => 0,
            HwStatus::InvalidArgument => 1,
            HwStatus::InvalidState => 2,
            HwStatus::ConfigError => 3,
            HwStatus::EngineError => 4,
            HwStatus::InternalError => 5,
            HwStatus::Panic => 6,
        }
    }
}

/// Why a call failed.
#[derive(Debug)]
pub struct FfiFailure {
    pub status: HwStatus,
    pub message: String,
}

impl FfiFailure {
    /// Whether this is a failure with this status and message.
    pub open spec fn says(self, status: HwStatus, message: Seq<char>) -> bool {
        self.status == status && self.message@ == message
    }

    pub fn new(status: HwStatus, message: String) -> (failure: FfiFailure)
        ensures
            failure.says(status, message@),
    {
        FfiFailure { status, message }
    }
}

/// The status number and message that a caller reads after a call.
#[derive(Clone, Debug, Eq, PartialEq)]
pub struct HwError {
    pub code: i32,
    pub message: [u8; ERROR_MESSAGE_CAPACITY],
}

impl Default for HwError {
    fn default() -> (error: HwError)
        ensures
            error.is_clear(),
    {
        HwError { code: 0, message: [0u8; ERROR_MESSAGE_CAPACITY] }
    }
}

impl HwError {
    /// Whether this holds no failure: all is zero.
    pub open spec fn is_clear(self) -> bool {
        self.code == HwStatus::Success.number() && forall|i: int|
            0 <= i < ERROR_MESSAGE_CAPACITY ==> #[trigger] self.message@[i] == 0
    }

    /// Whether this holds a failure: its number, and as many bytes of its
    /// message as leave room for a terminating zero, filled up with zeros.
    pub open spec fn reports(self, status: HwStatus, message: Seq<char>) -> bool {
        let bytes = vstd::utf8::encode_utf8(message);
        &&& self.code == status.number()
        &&& forall|i: int| #![trigger self.message@[i]]
            0 <= i < ERROR_MESSAGE_CAPACITY ==> self.message@[i] == if i < bytes.len() && i
                < ERROR_MESSAGE_CAPACITY - 1 {
                bytes[i]
            } else {
                0
            }
    }

    pub fn from_failure(failure: &FfiFailure) -> (error: HwError)
        ensures
            error.reports(failure.status, failure.message@),
    {
        let mut error = HwError::default();
        error.code = failure.status.code();
        let bytes = failure.message.as_str().as_bytes();
        let mut i: usize = 0;
        while i < bytes.len() && i < ERROR_MESSAGE_CAPACITY - 1
            invariant
                i <= bytes@.len(),
                i <= ERROR_MESSAGE_CAPACITY - 1,
                bytes@ == vstd::utf8::encode_utf8(failure.message@),
                error.code == failure.status.number(),
                forall|j: int|
                    #![trigger error.message@[j]]
                    0 <= j < ERROR_MESSAGE_CAPACITY ==> error.message@[j] == if j < i {
                        bytes@[j]
                    } else {
                        0
                    },
            decreases bytes@.len() - i,
        {
            error.message[i] = bytes[i];
            i = i + 1;
        }
        error
    }
}

/// What a finished call returns and leaves behind. No result at all means that
/// it panicked.
pub fn guarded_status(result: Option<Result<(), FfiFailure>>) -> (outcome: (HwStatus, HwError))
    ensures
        match result {
            Some(Ok(_)) => outcome.0 == HwStatus::Success && outcome.1.is_clear(),
            Some(Err(failure)) => outcome.0 == failure.status && outcome.1.reports(
                failure.status,
                failure.message@,
            ),
            None => outcome.0 == HwStatus::Panic && outcome.1.reports(
                HwStatus::Panic,
                "Rust core panicked across ABI call"@,
            ),
        },
{
    match result {
        Some(Ok(_)) => (HwStatus::Success, HwError::default()),
        Some(Err(failure)) => (failure.status, HwError::from_failure(&failure)),
        None => {
            let failure = FfiFailure::new(
                HwStatus::Panic,
                "Rust core panicked across ABI call".to_owned(),
            );
            (HwStatus::Panic, HwError::from_failure(&failure))
        },
    }
}

/// An argument that must be there.
pub fn required(present: bool, name: &str) -> (result: Result<(), FfiFailure>)
    ensures
        match result {
            Ok(_) => present,
            Err(failure) => !present && failure.says(
                HwStatus::InvalidArgument,
                name@ + " must not be null"@,
            ),
        },
{
    if present {
        return Ok(());
    }
    let mut message = name.to_owned();
    message.append(" must not be null");
    Err(FfiFailure::new(HwStatus::InvalidArgument, message))
}

/// A buffer that must be there unless it is empty.
pub fn required_bytes(present: bool, length: usize, name: &str) -> (result: Result<
    (),
    FfiFailure,
>)
    ensures
        match result {
            Ok(_) => present || length == 0,
            Err(failure) => !present && length != 0 && failure.says(
                HwStatus::InvalidArgument,
                name@ + " must not be null when length is nonzero"@,
            ),
        },
{
    if length == 0 || present {
        return Ok(());
    }
    let mut message = name.to_owned();
    message.append(" must not be null when length is nonzero");
    Err(FfiFailure::new(HwStatus::InvalidArgument, message))
}

/// A text that must be UTF-8.
pub fn required_utf8(valid: bool, name: &str) -> (result: Result<(), FfiFailure>)
    ensures
        match result {
            Ok(_) => valid,
            Err(failure) => !valid && failure.says(
                HwStatus::InvalidArgument,
                name@ + " is not valid UTF-8"@,
            ),
        },
{
    if valid {
        return Ok(());
    }
    let mut message = name.to_owned();
    message.append(" is not valid UTF-8");
    Err(FfiFailure::new(HwStatus::InvalidArgument, message))
}

/// How a tick reports an operation that failed; `cause` is the engine's error
/// as text.
pub fn tick_failure(failed: &SchedulerError, cause: &str) -> (failure: FfiFailure)
    ensures
        failure.says(
            HwStatus::EngineError,
            failed.operation.text() + " for peer "@ + failed.peer_name@ + " failed: "@ + cause@,
        ),
{
    let mut message = failed.operation.label().to_owned();
    message.append(" for peer ");
    message.append(failed.peer_name.as_str());
    message.append(" failed: ");
    message.append(cause);
    FfiFailure::new(HwStatus::EngineError, message)
}

// ---------------------------------------------------------------------------
// Values.
// ---------------------------------------------------------------------------

#[derive(Clone, Copy, Debug, Eq, PartialEq)]
pub struct HwEndpoint {
    /// `4` for IPv4 and `6` for IPv6.
    pub family: u8,
    pub address: [u8; 16],
    /// Host-byte-order port.
    pub port: u16,
    /// IPv6 scope identifier; zero for IPv4 and unscoped IPv6.
    pub scope_id: u32,
}

impl HwEndpoint {
    /// Whether all is zero.
    pub open spec fn is_blank(self) -> bool {
        &&& self.family == 0 && self.port == 0 && self.scope_id == 0
        &&& forall|i: int| 0 <= i < 16 ==> #[trigger] self.address@[i] == 0
    }

    /// Whether this stands for an endpoint; an IPv6 flow is not conveyed.
    pub open spec fn stands_for(self, endpoint: SocketAddr) -> bool {
        match endpoint {
            SocketAddr::V4 { ip, port } => {
                &&& self.family == 4 && self.port == port && self.scope_id == 0
                &&& crate::bytes::be_value(self.address@.take(4)) == ip.bits
                &&& forall|i: int| 4 <= i < 16 ==> #[trigger] self.address@[i] == 0
            },
            SocketAddr::V6 { ip, port, flowinfo: _, scope_id } => {
                &&& self.family == 6 && self.port == port && self.scope_id == scope_id
                &&& crate::bytes::be_value(self.address@) == ip.bits
            },
        }
    }

    /// The endpoint that this stands for, if it is of a known family.
    pub open spec fn meaning(self) -> Option<SocketAddr> {
        if self.family == 4 {
            Some(
                SocketAddr::V4 {
                    ip: Ipv4Addr { bits: crate::bytes::be_value(self.address@.take(4)) as u32 },
                    port: self.port,
                },
            )
        } else if self.family == 6 {
            Some(
                SocketAddr::V6 {
                    ip: Ipv6Addr { bits: crate::bytes::be_value(self.address@) as u128 },
                    port: self.port,
                    flowinfo: 0,
                    scope_id: self.scope_id,
                },
            )
        } else {
            None
        }
    }
}

impl Default for HwEndpoint {
    fn default() -> (endpoint: HwEndpoint)
        ensures
            endpoint.is_blank(),
    {
        HwEndpoint { family: 0, address: [0u8; 16], port: 0, scope_id: 0 }
    }
}

proof fn lemma_ipv4_octets(octets: Seq<u8>)
    requires
        octets.len() == 4,
    ensures
        crate::bytes::be_value(octets) == crate::net::ipv4_bits(
            octets[0],
            octets[1],
            octets[2],
            octets[3],
        ),
{
    reveal_with_fuel(crate::bytes::be_value, 5);
    let three = octets.drop_last();
    let two = three.drop_last();
    let one = two.drop_last();
    assert(one.drop_last() =~= Seq::<u8>::empty());
}

pub fn endpoint_to_ffi(endpoint: SocketAddr) -> (ffi: HwEndpoint)
    ensures
        ffi.stands_for(endpoint),
{
    match endpoint {
        SocketAddr::V4 { ip, port } => {
            let octets = ip.octets();
            let mut address: [u8; 16] = [0u8; 16];
            address[0] = octets[0];
            address[1] = octets[1];
            address[2] = octets[2];
            address[3] = octets[3];
            proof {
                assert(address@.take(4) =~= octets@);
                lemma_ipv4_octets(octets@);
            }
            HwEndpoint { family: 4, address, port, scope_id: 0 }
        },
        SocketAddr::V6 { ip, port, flowinfo: _, scope_id } => HwEndpoint {
            family: 6,
            address: u128_to_be_bytes(ip.bits),
            port,
            scope_id,
        },
    }
}

pub fn endpoint_from_ffi(endpoint: &HwEndpoint) -> (result: Result<SocketAddr, FfiFailure>)
    ensures
        match result {
            Ok(e) => endpoint.meaning() == Some(e),
            Err(failure) => endpoint.meaning() is None && failure.says(
                HwStatus::InvalidArgument,
                "unsupported endpoint address family: "@ + crate::text::decimal_text(
                    endpoint.family as nat,
                ),
            ),
        },
{
    match endpoint.family {
        4 => {
            let ip = Ipv4Addr::new(
                endpoint.address[0],
                endpoint.address[1],
                endpoint.address[2],
                endpoint.address[3],
            );
            proof {
                lemma_ipv4_octets(endpoint.address@.take(4));
            }
            Ok(SocketAddr::V4 { ip, port: endpoint.port })
        },
        6 => Ok(
            SocketAddr::V6 {
                ip: Ipv6Addr { bits: u128_from_be_bytes(&endpoint.address) },
                port: endpoint.port,
                flowinfo: 0,
                scope_id: endpoint.scope_id,
            },
        ),
        family => {
            let mut message = "unsupported endpoint address family: ".to_owned();
            message.append(decimal(family as u64).as_str());
            Err(FfiFailure::new(HwStatus::InvalidArgument, message))
        },
    }
}

#[derive(Clone, Copy, Debug, Eq, PartialEq)]
pub struct HwInterfaceConfig {
    pub address: [u8; 4],
    pub prefix_length: u8,
    /// `1` for UDP and `2` for TCP.
    pub transport: u8,
    pub mtu: u16,
    pub listen: HwEndpoint,
}

/// What the interface section of a configuration says.
pub fn interface_config(config: &Config) -> (ffi: HwInterfaceConfig)
    ensures
        crate::bytes::be_value(ffi.address@) == config.interface.address.addr.bits,
        ffi.prefix_length == config.interface.address.prefix_len,
        ffi.transport == match config.interface.transport {
            TransportConfig::Udp => 1int,
            TransportConfig::Tcp => 2,
        },
        ffi.mtu == config.interface.mtu,
        ffi.listen.stands_for(config.interface.listen),
{
    let address = config.interface.address.addr.octets();
    proof {
        lemma_ipv4_octets(address@);
    }
    let transport: u8 = match config.interface.transport {
        TransportConfig::Udp => 1,
        TransportConfig::Tcp => 2,
    };
    HwInterfaceConfig {
        address,
        prefix_length: config.interface.address.prefix_len,
        transport,
        mtu: config.interface.mtu,
        listen: endpoint_to_ffi(config.interface.listen),
    }
}

#[derive(Clone, Copy, Debug, Eq, PartialEq)]
pub struct HwRouteConfig {
    pub network: [u8; 4],
    pub prefix_length: u8,
    /// `1` for an included tunnel route and `2` for a direct-route exclusion.
    pub route_kind: u8,
    pub reserved: [u8; 2],
    pub endpoint: HwEndpoint,
    pub persistent_keepalive: u16,
    pub udp_rebind_after: u16,
    pub session_timeout: u64,
}

/// Public metadata of one route, without keys.
#[derive(Clone, Debug)]
pub struct VisitedRoute {
    pub peer_name: String,
    pub configured_endpoint: String,
    pub route: HwRouteConfig,
}

impl VisitedRoute {
    /// Whether this describes a prefix of a peer.
    pub open spec fn describes(self, prefix: Ipv4Net, peer: Peer, kind: u8) -> bool {
        &&& self.peer_name@ == peer.name@
        &&& self.configured_endpoint@ == peer.configured_endpoint.text@
        &&& crate::bytes::be_value(self.route.network@) == prefix.network_bits()
        &&& self.route.prefix_length == prefix.prefix_len
        &&& self.route.route_kind == kind
        &&& self.route.reserved@ == seq![0u8, 0u8]
        &&& self.route.endpoint.stands_for(peer.endpoint)
        &&& self.route.persistent_keepalive == peer.persistent_keepalive
        &&& self.route.udp_rebind_after == peer.udp_rebind_after
        &&& self.route.session_timeout == peer.session_timeout
    }

    fn new(prefix: &Ipv4Net, peer: &Peer, kind: u8) -> (visited: VisitedRoute)
        ensures
            visited.describes(*prefix, *peer, kind),
    {
        let network = prefix.network().octets();
        proof {
            lemma_ipv4_octets(network@);
        }
        let reserved: [u8; 2] = [0, 0];
        assert(reserved@ =~= seq![0u8, 0u8]);
        VisitedRoute {
            peer_name: peer.name.clone(),
            configured_endpoint: peer.configured_endpoint.text.clone(),
            route: HwRouteConfig {
                network,
                prefix_length: prefix.prefix_len,
                route_kind: kind,
                reserved,
                endpoint: endpoint_to_ffi(peer.endpoint),
                persistent_keepalive: peer.persistent_keepalive,
                udp_rebind_after: peer.udp_rebind_after,
                session_timeout: peer.session_timeout,
            },
        }
    }
}

/// All routes of a router, and behind them all exclusions.
pub fn visit_routes(router: &Router) -> (visited: Vec<VisitedRoute>)
    ensures
        visited@.len() == router.route_list().len() + router.exclusion_list().len(),
        forall|i: int|
            #![trigger visited@[i]]
            0 <= i < router.route_list().len() ==> visited@[i].describes(
                router.route_list()[i].prefix,
                *router.route_list()[i].peer,
                1,
            ),
        forall|i: int|
            #![trigger router.exclusion_list()[i]]
            0 <= i < router.exclusion_list().len() ==> visited@[router.route_list().len()
                + i].describes(
                router.exclusion_list()[i].prefix,
                *router.exclusion_list()[i].peer,
                2,
            ),
{
    let mut visited: Vec<VisitedRoute> = Vec::new();
    let routes = router.routes();
    let mut i: usize = 0;
    while i < routes.len()
        invariant
            i <= routes.len(),
            routes@ == router.route_list(),
            visited@.len() == i,
            forall|j: int|
                #![trigger visited@[j]]
                0 <= j < i ==> visited@[j].describes(
                    router.route_list()[j].prefix,
                    *router.route_list()[j].peer,
                    1,
                ),
        decreases routes.len() - i,
    {
        visited.push(VisitedRoute::new(&routes[i].prefix, &routes[i].peer, 1));
        i = i + 1;
    }
    let excluded = router.excluded_routes();
    let mut k: usize = 0;
    while k < excluded.len()
        invariant
            k <= excluded.len(),
            excluded@ == router.exclusion_list(),
            visited@.len() == router.route_list().len() + k,
            forall|j: int|
                #![trigger visited@[j]]
                0 <= j < router.route_list().len() ==> visited@[j].describes(
                    router.route_list()[j].prefix,
                    *router.route_list()[j].peer,
                    1,
                ),
            forall|j: int|
                #![trigger router.exclusion_list()[j]]
                0 <= j < k ==> visited@[router.route_list().len() + j].describes(
                    router.exclusion_list()[j].prefix,
                    *router.exclusion_list()[j].peer,
                    2,
                ),
        decreases excluded.len() - k,
    {
        visited.push(VisitedRoute::new(&excluded[k].prefix, &excluded[k].peer, 2));
        k = k + 1;
    }
    visited
}

#[derive(Clone, Copy, Debug, Eq, PartialEq)]
pub struct HwPeerStats {
    pub tx_bytes: u64,
    pub rx_bytes: u64,
    pub last_seen_milliseconds_ago: u64,
    pub endpoint: HwEndpoint,
    pub has_last_seen: u8,
    pub has_endpoint: u8,
    pub reserved: [u8; 6],
}

impl HwPeerStats {
    /// Whether this conveys statistics as they stand at `now`.
    pub open spec fn conveys(self, stats: PeerStats, now: u64) -> bool {
        &&& self.tx_bytes == stats.tx_bytes && self.rx_bytes == stats.rx_bytes
        &&& match stats.last_seen {
            Some(seen) => self.has_last_seen == 1 && self.last_seen_milliseconds_ago == if now
                >= seen {
                (now - seen) / MILLISECOND as int
            } else {
                0
            },
            None => self.has_last_seen == 0 && self.last_seen_milliseconds_ago == 0,
        }
        &&& match stats.current_endpoint {
            Some(endpoint) => self.has_endpoint == 1 && self.endpoint.stands_for(endpoint),
            None => self.has_endpoint == 0 && self.endpoint.is_blank(),
        }
        &&& forall|i: int| 0 <= i < 6 ==> #[trigger] self.reserved@[i] == 0
    }

    pub fn from_stats(stats: &PeerStats, now: u64) -> (ffi: HwPeerStats)
        ensures
            ffi.conveys(*stats, now),
    {
        let (has_last_seen, last_seen_milliseconds_ago): (u8, u64) = match stats.last_seen {
            Some(seen) => (1, now.saturating_sub(seen) / MILLISECOND),
            None => (0, 0),
        };
        let (has_endpoint, endpoint): (u8, HwEndpoint) = match stats.current_endpoint {
            Some(endpoint) => (1, endpoint_to_ffi(endpoint)),
            None => (0, HwEndpoint::default()),
        };
        HwPeerStats {
            tx_bytes: stats.tx_bytes,
            rx_bytes: stats.rx_bytes,
            last_seen_milliseconds_ago,
            endpoint,
            has_last_seen,
            has_endpoint,
            reserved: [0u8; 6],
        }
    }
}

/// Whether position `i` of a list holds this name.
pub open spec fn lists_at(list: Seq<(String, HwPeerStats)>, i: int, name: Seq<char>) -> bool {
    0 <= i < list.len() && list[i].0@ == name
}

/// Whether names stand in the order of their UTF-8 bytes, none twice.
pub open spec fn in_name_order(list: Seq<(String, HwPeerStats)>) -> bool {
    forall|i: int, j: int|
        #![trigger list[i], list[j]]
        0 <= i < j < list.len() ==> crate::bytes::precedes(
            vstd::utf8::encode_utf8(list[i].0@),
            vstd::utf8::encode_utf8(list[j].0@),
        )
}

proof fn lemma_names_are_ordered(a: Seq<char>, b: Seq<char>)
    requires
        a != b,
        !crate::bytes::precedes(vstd::utf8::encode_utf8(a), vstd::utf8::encode_utf8(b)),
    ensures
        crate::bytes::precedes(vstd::utf8::encode_utf8(b), vstd::utf8::encode_utf8(a)),
{
    vstd::utf8::encode_utf8_decode_utf8(a);
    vstd::utf8::encode_utf8_decode_utf8(b);
    crate::bytes::lemma_precedes_is_total(
        vstd::utf8::encode_utf8(a),
        vstd::utf8::encode_utf8(b),
    );
}

/// The statistics of all peers, in the order of their names.
pub fn visit_peer_stats(engine: &Engine, now: u64) -> (list: Vec<(String, HwPeerStats)>)
    ensures
        in_name_order(list@),
        forall|i: int|
            #![trigger list@[i]]
            0 <= i < list@.len() ==> engine@.peers.contains_key(list@[i].0@)
                && list@[i].1.conveys(engine@.peers[list@[i].0@], now),
        forall|name: Seq<char>| #[trigger]
            engine@.peers.contains_key(name) ==> exists|i: int| #[trigger]
                lists_at(list@, i, name),
{
    let ghost all = engine@.peers;
    let mut snapshot = engine.peer_stats();
    let mut list: Vec<(String, HwPeerStats)> = Vec::new();
    loop
        invariant
            all == engine@.peers,
            in_name_order(list@),
            forall|i: int|
                #![trigger list@[i]]
                0 <= i < list@.len() ==> all.contains_key(list@[i].0@) && list@[i].1.conveys(
                    all[list@[i].0@],
                    now,
                ) && !snapshot@.contains_key(list@[i].0@),
            forall|name: Seq<char>| #[trigger]
                snapshot@.contains_key(name) ==> all.contains_key(name) && snapshot@[name]
                    == all[name],
            forall|name: Seq<char>| #[trigger]
                all.contains_key(name) ==> snapshot@.contains_key(name) || exists|i: int| #[trigger]
                    lists_at(list@, i, name),
        ensures
            snapshot@ == Map::<Seq<char>, PeerStats>::empty(),
        decreases snapshot.count(),
    {
        let ghost before = snapshot@;
        let (name, stats) = match snapshot.pop() {
            Some(entry) => entry,
            None => {
                break;
            },
        };
        let ghost old_list = list@;
        let place: usize = insertion_place(&list, name.as_str());
        let ghost text = name@;
        list.insert(place, (name, HwPeerStats::from_stats(&stats, now)));
        proof {
            assert(list@[place as int].0@ == text);
            assert forall|n: Seq<char>| #[trigger] all.contains_key(n) implies
                snapshot@.contains_key(n) || exists|i: int| #[trigger] lists_at(list@, i, n) by {
                if n == text {
                    assert(lists_at(list@, place as int, n));
                } else if !before.contains_key(n) {
                    let i = choose|i: int| #[trigger] lists_at(old_list, i, n);
                    let k = if i < place {
                        i
                    } else {
                        i + 1
                    };
                    assert(list@[k] == old_list[i]);
                    assert(lists_at(list@, k, n));
                }
            }
            assert forall|i: int, j: int|
                #![trigger list@[i], list@[j]]
                0 <= i < j < list@.len() implies crate::bytes::precedes(
                vstd::utf8::encode_utf8(list@[i].0@),
                vstd::utf8::encode_utf8(list@[j].0@),
            ) by {
                let a = if i < place {
                    i
                } else {
                    i - 1
                };
                let b = if j < place {
                    j
                } else {
                    j - 1
                };
                if i != place {
                    assert(list@[i] == old_list[a]);
                }
                if j != place {
                    assert(list@[j] == old_list[b]);
                }
            }
        }
    }
    list
}

/// Where a name that a sorted list does not hold belongs.
fn insertion_place(list: &Vec<(String, HwPeerStats)>, name: &str) -> (place: usize)
    requires
        in_name_order(list@),
        forall|i: int| #![trigger list@[i]] 0 <= i < list@.len() ==> list@[i].0@ != name@,
    ensures
        place <= list@.len(),
        forall|i: int|
            #![trigger list@[i]]
            0 <= i < place ==> crate::bytes::precedes(
                vstd::utf8::encode_utf8(list@[i].0@),
                vstd::utf8::encode_utf8(name@),
            ),
        forall|i: int|
            #![trigger list@[i]]
            place <= i < list@.len() ==> crate::bytes::precedes(
                vstd::utf8::encode_utf8(name@),
                vstd::utf8::encode_utf8(list@[i].0@),
            ),
{
    let mut place: usize = 0;
    while place < list.len() && is_before(list[place].0.as_str().as_bytes(), name.as_bytes())
        invariant
            place <= list@.len(),
            forall|i: int|
                #![trigger list@[i]]
                0 <= i < place ==> crate::bytes::precedes(
                    vstd::utf8::encode_utf8(list@[i].0@),
                    vstd::utf8::encode_utf8(name@),
                ),
        decreases list@.len() - place,
    {
        place = place + 1;
    }
    proof {
        if place < list@.len() {
            lemma_names_are_ordered(list@[place as int].0@, name@);
            assert forall|i: int|
                #![trigger list@[i]]
                place <= i < list@.len() implies crate::bytes::precedes(
                vstd::utf8::encode_utf8(name@),
                vstd::utf8::encode_utf8(list@[i].0@),
            ) by {
                if i > place {
                    crate::bytes::lemma_precedes_is_transitive(
                        vstd::utf8::encode_utf8(name@),
                        vstd::utf8::encode_utf8(list@[place as int].0@),
                        vstd::utf8::encode_utf8(list@[i].0@),
                    );
                }
            }
        }
    }
    place
}

/// The number by which a callback learns our role in a handshake.
pub open spec fn role_number(role: HandshakeRole) -> int {
    match role {
        HandshakeRole::Initiator => 1,
        HandshakeRole::Responder => 2,
    }
}

fn role_code(role: HandshakeRole) -> (code: u8)
    ensures
        code == role_number(role),
{
    match role {
        HandshakeRole::Initiator => 1,
        HandshakeRole::Responder => 2,
    }
}

/// One callback to make.
#[derive(Clone, Debug)]
pub enum CallbackCall {
    HandshakeCompleted { peer_name: String, endpoint: HwEndpoint, role: u8 },
    SendTransport { peer_name: String, endpoint: HwEndpoint, frame: Vec<u8> },
    WriteIpPacket { peer_name: String, source: HwEndpoint, packet: Vec<u8> },
}

impl CallbackCall {
    /// Whether this reports an event.
    pub open spec fn reports(self, event: EngineEvent) -> bool {
        match event {
            EngineEvent::HandshakeCompleted { peer_name, endpoint, role } => match self {
                CallbackCall::HandshakeCompleted { peer_name: name, endpoint: at, role: code } => {
                    name@ == peer_name@ && at.stands_for(endpoint) && code == role_number(role)
                },
                _ => false,
            },
        }
    }

    /// Whether this performs an action.
    pub open spec fn performs(self, action: EngineAction) -> bool {
        match (action, self) {
            (
                EngineAction::SendTransport { peer_name, endpoint, frame },
                CallbackCall::SendTransport { peer_name: name, endpoint: to, frame: bytes },
            ) => name@ == peer_name@ && to.stands_for(endpoint) && bytes@ == frame@,
            (
                EngineAction::WriteIpPacket { peer_name, source, packet },
                CallbackCall::WriteIpPacket { peer_name: name, source: from, packet: bytes },
            ) => name@ == peer_name@ && from.stands_for(source) && bytes@ == packet@,
            _ => false,
        }
    }
}

/// The callbacks that an engine's output asks for: first one for each event,
/// unless handshakes are not to be reported, and then one for each action, all
/// in order.
pub fn dispatch(output: &EngineOutput, report_handshakes: bool) -> (calls: Vec<CallbackCall>)
    ensures
        ({
            let reported: int = if report_handshakes {
                output.events@.len() as int
            } else {
                0
            };
            &&& calls@.len() == reported + output.actions@.len()
            &&& forall|i: int|
                #![trigger calls@[i]]
                0 <= i < reported ==> calls@[i].reports(output.events@[i])
            &&& forall|i: int|
                #![trigger output.actions@[i]]
                0 <= i < output.actions@.len() ==> calls@[reported + i].performs(
                    output.actions@[i],
                )
        }),
{
    let mut calls: Vec<CallbackCall> = Vec::new();
    let mut i: usize = 0;
    while report_handshakes && i < output.events.len()
        invariant
            i <= output.events@.len(),
            calls@.len() == i,
            !report_handshakes ==> i == 0,
            forall|j: int|
                #![trigger calls@[j]]
                0 <= j < i ==> calls@[j].reports(output.events@[j]),
        decreases output.events@.len() - i,
    {
        match &output.events[i] {
            EngineEvent::HandshakeCompleted { peer_name, endpoint, role } => {
                calls.push(
                    CallbackCall::HandshakeCompleted {
                        peer_name: peer_name.clone(),
                        endpoint: endpoint_to_ffi(*endpoint),
                        role: role_code(*role),
                    },
                );
            },
        }
        i = i + 1;
    }
    let reported: usize = i;
    let mut k: usize = 0;
    while k < output.actions.len()
        invariant
            k <= output.actions@.len(),
            calls@.len() == reported + k,
            forall|j: int|
                #![trigger calls@[j]]
                0 <= j < reported ==> calls@[j].reports(output.events@[j]),
            forall|j: int|
                #![trigger output.actions@[j]]
                0 <= j < k ==> calls@[reported + j].performs(output.actions@[j]),
        decreases output.actions@.len() - k,
    {
        calls.push(action_call(&output.actions[k]));
        k = k + 1;
    }
    calls
}

/// The callback that performs an action.
fn action_call(action: &EngineAction) -> (call: CallbackCall)
    ensures
        call.performs(*action),
{
    match action {
        EngineAction::SendTransport { peer_name, endpoint, frame } => CallbackCall::SendTransport {
            peer_name: peer_name.clone(),
            endpoint: endpoint_to_ffi(*endpoint),
            frame: vstd::slice::slice_to_vec(frame.as_slice()),
        },
        EngineAction::WriteIpPacket { peer_name, source, packet } => CallbackCall::WriteIpPacket {
            peer_name: peer_name.clone(),
            source: endpoint_to_ffi(*source),
            packet: vstd::slice::slice_to_vec(packet.as_slice()),
        },
    }
}

/// The callbacks that a runtime cannot do without.
pub fn check_callbacks(present: bool, send_transport: bool, write_ip_packet: bool) -> (result:
    Result<(), FfiFailure>)
    ensures
        match result {
            Ok(_) => present && send_transport && write_ip_packet,
            Err(failure) => failure.says(
                HwStatus::InvalidArgument,
                if !present {
                    "callbacks must not be null"@
                } else if !send_transport {
                    "send_transport callback must not be null"@
                } else {
                    "write_ip_packet callback must not be null"@
                },
            ) && !(present && send_transport && write_ip_packet),
        },
{
    if !present {
        return Err(
            FfiFailure::new(
                HwStatus::InvalidArgument,
                "callbacks must not be null".to_owned(),
            ),
        );
    }
    if !send_transport {
        return Err(
            FfiFailure::new(
                HwStatus::InvalidArgument,
                "send_transport callback must not be null".to_owned(),
            ),
        );
    }
    if !write_ip_packet {
        return Err(
            FfiFailure::new(
                HwStatus::InvalidArgument,
                "write_ip_packet callback must not be null".to_owned(),
            ),
        );
    }
    Ok(())
}

// ---------------------------------------------------------------------------
// Lifecycle.
// ---------------------------------------------------------------------------

/// When a runtime accepts calls. Callers share the engine for as long as their
/// call lasts; stopping waits for all of them.
pub struct Lifecycle<E> {
    engine: Option<Arc<E>>,
    active_calls: usize,
    stopping: bool,
}

/// A lifecycle as plain values.
pub struct LifecycleModel<E> {
    pub engine: Option<Arc<E>>,
    pub active_calls: nat,
    pub stopping: bool,
}

impl<E> LifecycleModel<E> {
    /// A runtime that has never been started.
    pub open spec fn stopped() -> LifecycleModel<E> {
        LifecycleModel { engine: None, active_calls: 0, stopping: false }
    }

    pub open spec fn is_running(self) -> bool {
        self.engine is Some && !self.stopping
    }

    /// With one more call in flight.
    pub open spec fn with_call(self) -> LifecycleModel<E> {
        LifecycleModel { active_calls: self.active_calls + 1, ..self }
    }

    /// With one call fewer in flight.
    pub open spec fn without_call(self) -> LifecycleModel<E> {
        LifecycleModel {
            active_calls: if self.active_calls == 0 {
                0
            } else {
                (self.active_calls - 1) as nat
            },
            ..self
        }
    }

    /// With this engine.
    pub open spec fn started(self, engine: Arc<E>) -> LifecycleModel<E> {
        LifecycleModel { engine: Some(engine), ..self }
    }

    /// With all new calls refused; a runtime without an engine stays as it is.
    pub open spec fn stop_requested(self) -> LifecycleModel<E> {
        if self.engine is None {
            self
        } else {
            LifecycleModel { stopping: true, ..self }
        }
    }

    /// With the engine gone.
    pub open spec fn engine_erased(self) -> LifecycleModel<E> {
        LifecycleModel { engine: None, ..self }
    }

    /// With starting allowed again.
    pub open spec fn stop_finished(self) -> LifecycleModel<E> {
        LifecycleModel { stopping: false, ..self }
    }
}

impl<E> View for Lifecycle<E> {
    type V = LifecycleModel<E>;

    closed spec fn view(&self) -> LifecycleModel<E> {
        LifecycleModel {
            engine: self.engine,
            active_calls: self.active_calls as nat,
            stopping: self.stopping,
        }
    }
}

impl<E> Lifecycle<E> {
    pub fn new() -> (lifecycle: Lifecycle<E>)
        ensures
            lifecycle@ == LifecycleModel::<E>::stopped(),
    {
        Lifecycle { engine: None, active_calls: 0, stopping: false }
    }

    pub fn is_running(&self) -> (running: bool)
        ensures
            running == self@.is_running(),
    {
        self.engine.is_some() && !self.stopping
    }

    /// Lets a call begin and hands it the engine, as long as the runtime runs.
    /// There are never as many calls as a counter can hold.
    pub fn begin_call(&mut self) -> (call: Result<Arc<E>, FfiFailure>)
        requires
            old(self)@.active_calls < usize::MAX,
        ensures
            match call {
                Ok(engine) => old(self)@.is_running() && old(self)@.engine == Some(engine) && final(self)@
                    == old(self)@.with_call(),
                Err(failure) => !old(self)@.is_running() && failure.says(
                    HwStatus::InvalidState,
                    "runtime is not running"@,
                ) && final(self)@ == old(self)@,
            },
    {
        if !self.stopping {
            if let Some(engine) = &self.engine {
                let engine = share(engine);
                self.active_calls = self.active_calls + 1;
                return Ok(engine);
            }
        }
        Err(FfiFailure::new(HwStatus::InvalidState, "runtime is not running".to_owned()))
    }

    /// Ends a call. The result says whether that was the last one, so that
    /// whoever waits for that must be woken.
    pub fn end_call(&mut self) -> (idle: bool)
        ensures
            final(self)@ == old(self)@.without_call(),
            idle == (final(self)@.active_calls == 0),
    {
        if self.active_calls > 0 {
            self.active_calls = self.active_calls - 1;
        }
        self.active_calls == 0
    }

    /// Whether starting takes an engine, which must then be installed. A
    /// runtime that has one already stays as it is.
    pub fn start(&self) -> (needs_engine: Result<bool, FfiFailure>)
        ensures
            match needs_engine {
                Ok(needed) => !self@.stopping && needed == (self@.engine is None),
                Err(failure) => self@.stopping && failure.says(
                    HwStatus::InvalidState,
                    "runtime is currently stopping"@,
                ),
            },
    {
        if self.stopping {
            return Err(
                FfiFailure::new(
                    HwStatus::InvalidState,
                    "runtime is currently stopping".to_owned(),
                ),
            );
        }
        Ok(self.engine.is_none())
    }

    pub fn install(&mut self, engine: Arc<E>)
        ensures
            final(self)@ == old(self)@.started(engine),
    {
        self.engine = Some(engine);
    }

    /// Asks the runtime to stop. The result says whether there is anything to
    /// stop; if so, the stop is finished once the runtime is idle.
    pub fn request_stop(&mut self) -> (stopping: bool)
        ensures
            stopping == (old(self)@.engine is Some),
            final(self)@ == old(self)@.stop_requested(),
    {
        if self.engine.is_none() {
            return false;
        }
        self.stopping = true;
        true
    }

    /// Whether no call is in flight.
    pub fn is_idle(&self) -> (idle: bool)
        ensures
            idle == (self@.active_calls == 0),
    {
        self.active_calls == 0
    }

    /// Gives up the engine, and with it all its sessions, once no call uses it
    /// any more.
    pub fn erase_engine(&mut self)
        requires
            old(self)@.active_calls == 0,
        ensures
            final(self)@ == old(self)@.engine_erased(),
    {
        self.engine = None;
    }

    /// Ends the stop: the runtime can be started again.
    pub fn finish_stop(&mut self)
        ensures
            final(self)@ == old(self)@.stop_finished(),
    {
        self.stopping = false;
    }
}

// ---------------------------------------------------------------------------
// Laws.
// ---------------------------------------------------------------------------

/// An endpoint survives the way across the boundary and back, but for the flow
/// label of IPv6, which is not conveyed.
pub proof fn endpoints_round_trip(ffi: HwEndpoint, endpoint: SocketAddr)
    requires
        ffi.stands_for(endpoint),
    ensures
        ffi.meaning() == Some(
            match endpoint {
                SocketAddr::V4 { ip, port } => SocketAddr::V4 { ip, port },
                SocketAddr::V6 { ip, port, flowinfo: _, scope_id } => SocketAddr::V6 {
                    ip,
                    port,
                    flowinfo: 0,
                    scope_id,
                },
            },
        ),
{
}

/// A message in an error always ends with a zero.
pub proof fn error_messages_are_terminated(error: HwError, status: HwStatus, message: Seq<char>)
    requires
        error.reports(status, message),
    ensures
        error.message@[ERROR_MESSAGE_CAPACITY - 1] == 0,
{
}

/// From the request to stop until the stop is finished no call begins and the
/// runtime cannot be started; calls in flight keep ending; and a runtime that
/// was stopped while idle is as it was before its first start.
pub proof fn stopping_drains_the_runtime<E>(before: LifecycleModel<E>)
    requires
        before.engine is Some,
    ensures
        !before.stop_requested().is_running(),
        before.stop_requested().stopping,
        before.stop_requested().without_call().stopping,
        !before.stop_requested().without_call().is_running(),
        before.stop_requested().engine_erased().stopping,
        !before.stop_requested().engine_erased().is_running(),
        before.active_calls == 0 ==> before.stop_requested().engine_erased().stop_finished()
            == LifecycleModel::<E>::stopped(),
{
}

/// A call that begins and ends leaves the lifecycle as it was.
pub proof fn calls_balance<E>(before: LifecycleModel<E>)
    ensures
        before.with_call().without_call() == before,
{
}

/// A stopped runtime can be started again, with another engine.
pub proof fn stopped_runtime_starts_again<E>(before: LifecycleModel<E>, engine: Arc<E>)
    requires
        before.active_calls == 0,
    ensures
        before.engine_erased().stop_finished().started(engine).is_running(),
        before.engine_erased().stop_finished().started(engine).engine == Some(engine),
{
}

/// A failure's message is conveyed byte by byte, up to 511 of them, and zeros
/// follow.
pub proof fn error_messages_are_conveyed(
    error: HwError,
    status: HwStatus,
    message: Seq<char>,
    i: int,
)
    requires
        error.reports(status, message),
        0 <= i < 512,
    ensures
        ({
            let bytes = vstd::utf8::encode_utf8(message);
            &&& i < bytes.len() && i < 511 ==> error.message@[i] == bytes[i]
            &&& i >= bytes.len() || i == 511 ==> error.message@[i] == 0
        }),
{
    let byte = error.message@[i];
}

/// Success is zero, and every other status has a number of its own.
pub proof fn statuses_have_their_own_numbers(one: HwStatus, other: HwStatus)
    ensures
        HwStatus::Success.number() == 0,
        one.number() == other.number() ==> one == other,
        0 <= one.number() <= 6,
{
}

/// An IPv4 endpoint is conveyed with its octets first and its port as it is, and
/// read back the same.
pub proof fn ipv4_octets_are_conveyed_in_order(
    ffi: HwEndpoint,
    a: u8,
    b: u8,
    c: u8,
    d: u8,
    port: u16,
)
    requires
        ffi.stands_for(
            SocketAddr::V4 {
                ip: Ipv4Addr { bits: crate::net::ipv4_bits(a, b, c, d) as u32 },
                port,
            },
        ),
    ensures
        ffi.family == 4,
        ffi.port == port,
        ffi.address@[0] == a && ffi.address@[1] == b && ffi.address@[2] == c && ffi.address@[3]
            == d,
{
    let given = seq![a, b, c, d];
    let taken = ffi.address@.take(4);
    reveal_with_fuel(crate::bytes::be_value, 5);
    assert(given.drop_last() =~= seq![a, b, c]);
    assert(given.drop_last().drop_last() =~= seq![a, b]);
    assert(given.drop_last().drop_last().drop_last() =~= seq![a]);
    assert(given.drop_last().drop_last().drop_last().drop_last() =~= Seq::<u8>::empty());
    assert(crate::bytes::be_value(given) == crate::net::ipv4_bits(a, b, c, d));
    crate::bytes::lemma_be_value_injective(given, taken);
    assert(taken[0] == a && taken[1] == b && taken[2] == c && taken[3] == d);
}

/// How long ago a peer was seen is conveyed in whole milliseconds.
pub proof fn statistics_are_conveyed(ffi: HwPeerStats, stats: PeerStats, now: u64)
    requires
        ffi.conveys(stats, now),
        stats.last_seen matches Some(seen) ==> seen <= now,
    ensures
        ffi.tx_bytes == stats.tx_bytes,
        ffi.rx_bytes == stats.rx_bytes,
        stats.last_seen matches Some(seen) ==> ffi.has_last_seen == 1
            && ffi.last_seen_milliseconds_ago * 1_000_000 <= now - seen < (
        ffi.last_seen_milliseconds_ago + 1) * 1_000_000,
        stats.last_seen is None ==> ffi.has_last_seen == 0,
        stats.current_endpoint matches Some(endpoint) ==> ffi.has_endpoint == 1
            && ffi.endpoint.stands_for(endpoint),
        stats.current_endpoint is None ==> ffi.has_endpoint == 0,
{
}

/// A callback conveys what the engine asked for or reported: the same peer, the
/// same bytes, and the endpoint that stands for the engine's.
pub proof fn callbacks_convey_the_output(
    call: CallbackCall,
    action: EngineAction,
    event: EngineEvent,
)
    ensures
        call.performs(action) ==> match action {
            EngineAction::SendTransport { peer_name, endpoint, frame } => (
            call matches CallbackCall::SendTransport { peer_name: name, endpoint: to, frame: bytes }
                && name@ == peer_name@ && to.stands_for(endpoint) && bytes@ == frame@),
            EngineAction::WriteIpPacket { peer_name, source, packet } => (
            call matches CallbackCall::WriteIpPacket {
                peer_name: name,
                source: from,
                packet: bytes,
            } && name@ == peer_name@ && from.stands_for(source) && bytes@ == packet@),
        },
        call.reports(event) ==> match event {
            EngineEvent::HandshakeCompleted { peer_name, endpoint, role } => (
            call matches CallbackCall::HandshakeCompleted {
                peer_name: name,
                endpoint: at,
                role: number,
            } && name@ == peer_name@ && at.stands_for(endpoint) && number == if role
                == HandshakeRole::Initiator {
                1u8
            } else {
                2
            }),
        },
{
}

/// A route is conveyed with its network address, its length and its peer as they
/// are.
pub proof fn routes_are_conveyed(visited: VisitedRoute, prefix: Ipv4Net, peer: Peer, kind: u8)
    requires
        visited.describes(prefix, peer, kind),
    ensures
        visited.peer_name@ == peer.name@,
        visited.configured_endpoint@ == peer.configured_endpoint.text@,
        crate::bytes::be_value(visited.route.network@) == prefix.network_bits(),
        visited.route.prefix_length == prefix.prefix_len,
        visited.route.route_kind == kind,
        visited.route.endpoint.stands_for(peer.endpoint),
        visited.route.persistent_keepalive == peer.persistent_keepalive,
        visited.route.udp_rebind_after == peer.udp_rebind_after,
        visited.route.session_timeout == peer.session_timeout,
{
}

} // verus!

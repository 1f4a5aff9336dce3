//! Which peer carries a destination.

use std::sync::Arc;

use vstd::prelude::*;

use crate::config::{
    Config, ConfigKeys, KeysModel, PeerConfig, PeerEndpoint, PeerKeysModel, Resolution,
    TransportConfig,
};
use crate::net::{IpAddr, Ipv4Addr, Ipv4Net, SocketAddr};

verus! {

#[derive(Clone, Debug)]
pub struct Peer {
    pub name: String,
    pub endpoint: SocketAddr,
    pub configured_endpoint: PeerEndpoint,
    pub excluded_ips: Vec<Ipv4Net>,
    pub psk: [u8; 32],
    /// Peer's static public key (x25519) for Noise handshake.
    pub public_key: [u8; 32],
    pub persistent_keepalive: u16,
    pub udp_rebind_after: u16,
    pub session_timeout: u64,
}

#[derive(Debug)]
pub struct Route {
    pub prefix: Ipv4Net,
    pub peer: Arc<Peer>,
}

#[derive(Debug)]
pub struct ExcludedRoute {
    pub prefix: Ipv4Net,
    pub peer: Arc<Peer>,
}

#[derive(Debug)]
pub enum RouterError {
    /// Two peers are configured for one prefix.
    DuplicatePrefix { prefix: Ipv4Net, first_peer: String, second_peer: String },
    /// A peer's endpoint could not be resolved.
    EndpointResolution { peer: String, endpoint: PeerEndpoint, source: String },
}

/// A `RouterError` with its texts as sequences.
pub enum RouterFault {
    DuplicatePrefix { prefix: Ipv4Net, first_peer: Seq<char>, second_peer: Seq<char> },
    EndpointResolution { peer: Seq<char>, endpoint: Seq<char>, source: Seq<char> },
}

impl View for RouterError {
    type V = RouterFault;

    open spec fn view(&self) -> RouterFault {
        match *self {
            RouterError::DuplicatePrefix { prefix, first_peer, second_peer } =>
                RouterFault::DuplicatePrefix {
                prefix,
                first_peer: first_peer@,
                second_peer: second_peer@,
            },
            RouterError::EndpointResolution { peer, endpoint, source } =>
                RouterFault::EndpointResolution {
                peer: peer@,
                endpoint: endpoint.text@,
                source: source@,
            },
        }
    }
}

/// A prefix and the position of the peer that it belongs to.
pub type Listed = (Ipv4Net, int);

/// The prefixes of one peer, as listed in its configuration.
pub open spec fn listed(prefixes: Seq<Ipv4Net>, peer: int) -> Seq<Listed> {
    prefixes.map_values(|prefix: Ipv4Net| (prefix, peer))
}

/// The allowed prefixes of the first `n` peers, in the order of the
/// configuration.
pub open spec fn allowed(peers: Seq<PeerConfig>, n: int) -> Seq<Listed>
    decreases n,
{
    if n <= 0 {
        seq![]
    } else {
        allowed(peers, n - 1) + listed(peers[n - 1].allowed_ips@, n - 1)
    }
}

/// The excluded prefixes of the first `n` peers, in the order of the
/// configuration.
pub open spec fn excluded(peers: Seq<PeerConfig>, n: int) -> Seq<Listed>
    decreases n,
{
    if n <= 0 {
        seq![]
    } else {
        excluded(peers, n - 1) + listed(peers[n - 1].excluded_ips@, n - 1)
    }
}

/// Prefixes of at most `length` bits, longest first; prefixes of one length
/// keep their order.
pub open spec fn longest_first(list: Seq<Listed>, length: int) -> Seq<Listed>
    decreases length + 1,
{
    if length < 0 {
        seq![]
    } else {
        of_length(list, list.len() as int, length) + longest_first(list, length - 1)
    }
}

/// The prefixes of exactly `length` bits among the first `n`.
pub open spec fn of_length(list: Seq<Listed>, n: int, length: int) -> Seq<Listed>
    decreases n,
{
    if n <= 0 {
        seq![]
    } else if list[n - 1].0.prefix_len == length {
        of_length(list, n - 1, length).push(list[n - 1])
    } else {
        of_length(list, n - 1, length)
    }
}

/// The first position of a prefix in a list, from `i` on.
pub open spec fn first_owner(list: Seq<Listed>, prefix: Ipv4Net, i: int) -> Option<int>
    decreases list.len() - i,
{
    if i >= list.len() {
        None
    } else if list[i].0 == prefix {
        Some(list[i].1)
    } else {
        first_owner(list, prefix, i + 1)
    }
}

/// The first prefix of peer `i`, from its `k`th on, that is already listed.
pub open spec fn prefix_fault(peers: Seq<PeerConfig>, i: int, k: int) -> Option<RouterFault>
    decreases peers[i].allowed_ips@.len() - k,
{
    if k >= peers[i].allowed_ips@.len() {
        None
    } else {
        let prefix = peers[i].allowed_ips@[k];
        let before = allowed(peers, i) + listed(peers[i].allowed_ips@.take(k), i);
        match first_owner(before, prefix, 0) {
            Some(owner) => Some(
                RouterFault::DuplicatePrefix {
                    prefix,
                    first_peer: peers[owner].name@,
                    second_peer: peers[i].name@,
                },
            ),
            None => prefix_fault(peers, i, k + 1),
        }
    }
}

/// What keeps the peers from `i` on from being routed: an endpoint without an
/// address, or a prefix that was listed before.
pub open spec fn router_fault(
    peers: Seq<PeerConfig>,
    resolutions: Seq<Resolution>,
    i: int,
) -> Option<RouterFault>
    decreases peers.len() - i,
{
    if i >= peers.len() {
        None
    } else if resolutions[i].preferred() is None {
        Some(
            RouterFault::EndpointResolution {
                peer: peers[i].name@,
                endpoint: peers[i].endpoint.text@,
                source: resolutions[i].failure(),
            },
        )
    } else {
        match prefix_fault(peers, i, 0) {
            Some(fault) => Some(fault),
            None => router_fault(peers, resolutions, i + 1),
        }
    }
}

impl Peer {
    /// Whether this is the peer that `config` describes, with these keys and
    /// this endpoint.
    pub open spec fn described_by(
        self,
        config: PeerConfig,
        keys: PeerKeysModel,
        resolution: Resolution,
        transport: TransportConfig,
    ) -> bool {
        &&& self.name@ == config.name@
        &&& resolution.preferred() == Some(self.endpoint)
        &&& self.configured_endpoint.text@ == config.endpoint.text@
        &&& self.excluded_ips@ == config.excluded_ips@
        &&& keys.psk == Some(self.psk@)
        &&& keys.public_key == Some(self.public_key@)
        &&& self.persistent_keepalive == config.persistent_keepalive
        &&& self.udp_rebind_after == config.udp_rebind_after
        &&& self.session_timeout == config.session_timeout_seconds(transport)
    }
}

impl Config {
    /// Whether `peer` is peer `i` of the configuration.
    pub open spec fn describes(
        self,
        keys: KeysModel,
        resolutions: Seq<Resolution>,
        i: int,
        peer: Peer,
    ) -> bool {
        peer.described_by(self.peer@[i], keys.peers[i], resolutions[i], self.interface.transport)
    }

    /// Whether every peer's keys are there.
    pub open spec fn keys_complete(self, keys: KeysModel) -> bool {
        &&& keys.peers.len() == self.peer@.len()
        &&& forall|i: int|
            #![trigger keys.peers[i]]
            0 <= i < self.peer@.len() ==> keys.peers[i].psk is Some && keys.peers[i].public_key is Some
    }
}

impl Route {
    /// Whether the route takes a destination: its prefix covers it, and is
    /// longer than every exclusion of the peer that covers it too.
    pub open spec fn takes(self, destination: Ipv4Addr) -> bool {
        self.prefix.covers(destination) && forall|i: int|
            #![trigger self.peer.excluded_ips@[i]]
            0 <= i < self.peer.excluded_ips@.len() && self.peer.excluded_ips@[i].covers(destination)
                ==> self.prefix.prefix_len > self.peer.excluded_ips@[i].prefix_len
    }

    fn takes_destination(&self, destination: &Ipv4Addr) -> (r: bool)
        ensures
            r == self.takes(*destination),
    {
        if !self.prefix.contains(destination) {
            return false;
        }
        let mut i: usize = 0;
        while i < self.peer.excluded_ips.len()
            invariant
                i <= self.peer.excluded_ips.len(),
                forall|j: int|
                    #![trigger self.peer.excluded_ips@[j]]
                    0 <= j < i && self.peer.excluded_ips@[j].covers(*destination)
                        ==> self.prefix.prefix_len > self.peer.excluded_ips@[j].prefix_len,
            decreases self.peer.excluded_ips.len() - i,
        {
            if self.peer.excluded_ips[i].contains(destination) && self.prefix.prefix_len
                <= self.peer.excluded_ips[i].prefix_len {
                return false;
            }
            i = i + 1;
        }
        true
    }
}

/// `Arc::clone`: another handle on the same value.
#[verifier::external_body]
pub(crate) fn share<T>(value: &Arc<T>) -> (handle: Arc<T>)
    ensures
        handle == *value,
{
    Arc::clone(value)
}

/// Whether `routes` carry the listed prefixes, each with its peer.
pub open spec fn carries(
    config: Config,
    keys: KeysModel,
    resolutions: Seq<Resolution>,
    routes: Seq<Route>,
    list: Seq<Listed>,
) -> bool {
    &&& routes.len() == list.len()
    &&& forall|k: int|
        #![trigger routes[k]]
        0 <= k < list.len() ==> routes[k].prefix == list[k].0 && config.describes(
            keys,
            resolutions,
            list[k].1,
            *routes[k].peer,
        )
}

/// Whether `routes` carry the listed prefixes, each with its peer.
pub open spec fn excludes(
    config: Config,
    keys: KeysModel,
    resolutions: Seq<Resolution>,
    routes: Seq<ExcludedRoute>,
    list: Seq<Listed>,
) -> bool {
    &&& routes.len() == list.len()
    &&& forall|k: int|
        #![trigger routes[k]]
        0 <= k < list.len() ==> routes[k].prefix == list[k].0 && config.describes(
            keys,
            resolutions,
            list[k].1,
            *routes[k].peer,
        )
}

/// Sorts routes, longest prefixes first, and keeps the order among equals.
fn sort_routes(
    routes: &Vec<Route>,
    Ghost(config): Ghost<Config>,
    Ghost(keys): Ghost<KeysModel>,
    Ghost(resolutions): Ghost<Seq<Resolution>>,
    Ghost(list): Ghost<Seq<Listed>>,
) -> (sorted: Vec<Route>)
    requires
        carries(config, keys, resolutions, routes@, list),
    ensures
        carries(config, keys, resolutions, sorted@, longest_first(list, 255)),
{
    let mut sorted: Vec<Route> = Vec::new();
    let mut left: usize = 256;
    let ghost mut done: Seq<Listed> = seq![];
    while left > 0
        invariant
            left <= 256,
            carries(config, keys, resolutions, routes@, list),
            carries(config, keys, resolutions, sorted@, done),
            done + longest_first(list, left - 1) == longest_first(list, 255),
        decreases left,
    {
        let length: usize = left - 1;
        let ghost before = done;
        let mut i: usize = 0;
        assert(before + of_length(list, 0, length as int) =~= before);
        while i < routes.len()
            invariant
                i <= routes.len(),
                length < 256,
                carries(config, keys, resolutions, routes@, list),
                carries(config, keys, resolutions, sorted@, done),
                done == before + of_length(list, i as int, length as int),
            decreases routes.len() - i,
        {
            if routes[i].prefix.prefix_len as usize == length {
                sorted.push(Route { prefix: routes[i].prefix, peer: share(&routes[i].peer) });
                proof {
                    done = done.push(list[i as int]);
                    assert(done =~= before + of_length(list, i + 1, length as int));
                }
            }
            i = i + 1;
        }
        proof {
            assert(longest_first(list, length as int) == of_length(
                list,
                list.len() as int,
                length as int,
            ) + longest_first(list, length - 1));
            assert(done + longest_first(list, length - 1) =~= before + longest_first(
                list,
                length as int,
            ));
        }
        left = length;
    }
    assert(done + longest_first(list, -1) =~= done);
    sorted
}

proof fn lemma_of_length(list: Seq<Listed>, n: int, length: int)
    requires
        n <= list.len(),
    ensures
        forall|k: int|
            0 <= k < of_length(list, n, length).len() ==> (#[trigger] of_length(
                list,
                n,
                length,
            )[k]).0.prefix_len == length,
    decreases n,
{
    if n > 0 {
        lemma_of_length(list, n - 1, length);
        let shorter = of_length(list, n - 1, length);
        assert forall|k: int| 0 <= k < of_length(list, n, length).len() implies (
        #[trigger] of_length(list, n, length)[k]).0.prefix_len == length by {
            if k < shorter.len() {
                assert(of_length(list, n, length)[k] == shorter[k]);
            }
        }
    }
}

/// In a list sorted longest first, no prefix is longer than one before it.
pub proof fn longest_first_is_sorted(list: Seq<Listed>, length: int)
    ensures
        forall|i: int|
            0 <= i < longest_first(list, length).len() ==> (#[trigger] longest_first(
                list,
                length,
            )[i]).0.prefix_len <= length,
        forall|i: int, j: int|
            0 <= i <= j < longest_first(list, length).len() ==> (#[trigger] longest_first(
                list,
                length,
            )[i]).0.prefix_len >= (#[trigger] longest_first(list, length)[j]).0.prefix_len,
    decreases length + 1,
{
    if length >= 0 {
        lemma_of_length(list, list.len() as int, length);
        longest_first_is_sorted(list, length - 1);
        let head = of_length(list, list.len() as int, length);
        let tail = longest_first(list, length - 1);
        let whole = longest_first(list, length);
        assert(whole == head + tail);
        assert forall|i: int| 0 <= i < whole.len() implies (#[trigger] whole[i]).0.prefix_len
            <= length by {
            if i >= head.len() {
                assert(whole[i] == tail[i - head.len()]);
            } else {
                assert(whole[i] == head[i]);
            }
        }
        assert forall|i: int, j: int| 0 <= i <= j < whole.len() implies (
        #[trigger] whole[i]).0.prefix_len >= (#[trigger] whole[j]).0.prefix_len by {
            if i >= head.len() {
                assert(whole[i] == tail[i - head.len()]);
                assert(whole[j] == tail[j - head.len()]);
            } else {
                assert(whole[i] == head[i]);
                if j >= head.len() {
                    assert(whole[j] == tail[j - head.len()]);
                } else {
                    assert(whole[j] == head[j]);
                }
            }
        }
    }
}

/// The peer that a configuration entry describes.
fn peer_from_config(
    config: &PeerConfig,
    psk: [u8; 32],
    public_key: [u8; 32],
    resolution: &Resolution,
    transport: TransportConfig,
) -> (peer: Result<Peer, RouterError>)
    ensures
        match peer {
            Ok(p) => p.described_by(
                *config,
                PeerKeysModel { psk: Some(psk@), public_key: Some(public_key@) },
                *resolution,
                transport,
            ),
            Err(error) => resolution.preferred() is None && error@
                == (RouterFault::EndpointResolution {
                peer: config.name@,
                endpoint: config.endpoint.text@,
                source: resolution.failure(),
            }),
        },
{
    let endpoint = match resolution.endpoint() {
        Ok(endpoint) => endpoint,
        Err(source) => {
            return Err(
                RouterError::EndpointResolution {
                    peer: config.name.clone(),
                    endpoint: config.endpoint.clone(),
                    source,
                },
            );
        },
    };
    Ok(
        Peer {
            name: config.name.clone(),
            endpoint,
            configured_endpoint: config.endpoint.clone(),
            excluded_ips: copy_prefixes(&config.excluded_ips),
            psk,
            public_key,
            persistent_keepalive: config.persistent_keepalive,
            udp_rebind_after: config.udp_rebind_after,
            session_timeout: config.effective_session_timeout(transport),
        },
    )
}

fn copy_prefixes(prefixes: &Vec<Ipv4Net>) -> (copy: Vec<Ipv4Net>)
    ensures
        copy@ == prefixes@,
{
    let mut copy: Vec<Ipv4Net> = Vec::new();
    let mut i: usize = 0;
    while i < prefixes.len()
        invariant
            i <= prefixes.len(),
            copy@ == prefixes@.take(i as int),
        decreases prefixes.len() - i,
    {
        copy.push(prefixes[i]);
        i = i + 1;
        assert(prefixes@.take(i as int) =~= prefixes@.take(i - 1).push(prefixes@[i - 1]));
    }
    assert(copy@ =~= prefixes@);
    copy
}

impl Clone for Route {
    fn clone(&self) -> (copy: Route)
        ensures
            copy == *self,
    {
        Route { prefix: self.prefix, peer: share(&self.peer) }
    }
}

impl Clone for ExcludedRoute {
    fn clone(&self) -> (copy: ExcludedRoute)
        ensures
            copy == *self,
    {
        ExcludedRoute { prefix: self.prefix, peer: share(&self.peer) }
    }
}

impl Clone for Router {
    fn clone(&self) -> (copy: Router)
        ensures
            copy.route_list() == self.route_list(),
            copy.exclusion_list() == self.exclusion_list(),
    {
        proof {
            use_type_invariant(self);
        }
        let mut routes: Vec<Route> = Vec::new();
        let mut i: usize = 0;
        while i < self.routes.len()
            invariant
                i <= self.routes.len(),
                routes@ == self.routes@.take(i as int),
            decreases self.routes.len() - i,
        {
            routes.push(self.routes[i].clone());
            i = i + 1;
            assert(self.routes@.take(i as int) =~= self.routes@.take(i - 1).push(
                self.routes@[i - 1],
            ));
        }
        assert(routes@ =~= self.routes@);
        let mut excluded_routes: Vec<ExcludedRoute> = Vec::new();
        let mut k: usize = 0;
        while k < self.excluded_routes.len()
            invariant
                k <= self.excluded_routes.len(),
                excluded_routes@ == self.excluded_routes@.take(k as int),
            decreases self.excluded_routes.len() - k,
        {
            excluded_routes.push(self.excluded_routes[k].clone());
            k = k + 1;
            assert(self.excluded_routes@.take(k as int) =~= self.excluded_routes@.take(
                k - 1,
            ).push(self.excluded_routes@[k - 1]));
        }
        assert(excluded_routes@ =~= self.excluded_routes@);
        Router { routes, excluded_routes }
    }
}

/// Routing by longest prefix.
#[derive(Debug)]
pub struct Router {
    routes: Vec<Route>,
    excluded_routes: Vec<ExcludedRoute>,
}

impl Router {
    #[verifier::type_invariant]
    spec fn sorted(self) -> bool {
        forall|i: int, j: int|
            #![trigger self.routes@[i], self.routes@[j]]
            0 <= i <= j < self.routes@.len() ==> self.routes@[i].prefix.prefix_len
                >= self.routes@[j].prefix.prefix_len
    }

    /// The routes, in the order in which they are tried.
    pub closed spec fn route_list(&self) -> Seq<Route> {
        self.routes@
    }

    /// The exclusions, longest first.
    pub closed spec fn exclusion_list(&self) -> Seq<ExcludedRoute> {
        self.excluded_routes@
    }

    /// Whether this is the router of a configuration: its routes are the
    /// allowed prefixes, its exclusions the excluded ones, both longest first
    /// and otherwise in the order of the configuration.
    pub open spec fn routes_for(
        &self,
        config: Config,
        keys: KeysModel,
        resolutions: Seq<Resolution>,
    ) -> bool {
        let n = config.peer@.len() as int;
        &&& carries(
            config,
            keys,
            resolutions,
            self.route_list(),
            longest_first(allowed(config.peer@, n), 255),
        )
        &&& excludes(
            config,
            keys,
            resolutions,
            self.exclusion_list(),
            longest_first(excluded(config.peer@, n), 255),
        )
    }

    /// The router of a configuration whose keys decode, given what its
    /// endpoints resolved to.
    pub fn new(config: &Config, resolutions: &Vec<Resolution>) -> (router: Result<
        Router,
        RouterError,
    >)
        requires
            resolutions@.len() == config.peer@.len(),
            config.keys_complete(config.decoded_keys()),
        ensures
            match router {
                Ok(r) => router_fault(config.peer@, resolutions@, 0) is None && r.routes_for(
                    *config,
                    config.decoded_keys(),
                    resolutions@,
                ),
                Err(error) => router_fault(config.peer@, resolutions@, 0) == Some(error@),
            },
    {
        let keys = config.keys();
        Router::with_keys(config, &keys, resolutions)
    }

    /// The router of a configuration, or nothing where one of the peers' keys
    /// does not decode.
    pub fn for_config(config: &Config, resolutions: &Vec<Resolution>) -> (router: Option<
        Result<Router, RouterError>,
    >)
        requires
            resolutions@.len() == config.peer@.len(),
        ensures
            match router {
                Some(Ok(r)) => config.keys_complete(config.decoded_keys()) && router_fault(
                    config.peer@,
                    resolutions@,
                    0,
                ) is None && r.routes_for(*config, config.decoded_keys(), resolutions@),
                Some(Err(error)) => config.keys_complete(config.decoded_keys()) && router_fault(
                    config.peer@,
                    resolutions@,
                    0,
                ) == Some(error@),
                None => !config.keys_complete(config.decoded_keys()),
            },
    {
        let keys = config.keys();
        let mut i: usize = 0;
        assert(keys@.peers.len() == config.peer@.len());
        while i < keys.peers.len()
            invariant
                i <= keys.peers.len(),
                keys@ == config.decoded_keys(),
                keys@.peers.len() == config.peer@.len(),
                forall|j: int|
                    #![trigger keys@.peers[j]]
                    0 <= j < i ==> keys@.peers[j].psk is Some && keys@.peers[j].public_key is Some,
            decreases keys.peers.len() - i,
        {
            assert(keys@.peers[i as int] == keys.peers@[i as int]@);
            if keys.peers[i].psk.is_none() || keys.peers[i].public_key.is_none() {
                return None;
            }
            i = i + 1;
        }
        Some(Router::new(config, resolutions))
    }

    /// The router of a configuration, given its decoded keys and what its
    /// endpoints resolved to.
    pub fn with_keys(
        config: &Config,
        keys: &ConfigKeys,
        resolutions: &Vec<Resolution>,
    ) -> (router: Result<Router, RouterError>)
        requires
            resolutions@.len() == config.peer@.len(),
            config.keys_complete(keys@),
        ensures
            match router {
                Ok(r) => router_fault(config.peer@, resolutions@, 0) is None && r.routes_for(
                    *config,
                    keys@,
                    resolutions@,
                ),
                Err(error) => router_fault(config.peer@, resolutions@, 0) == Some(error@),
            },
    {
        let ghost km = keys@;
        let ghost rs = resolutions@;
        let mut routes: Vec<Route> = Vec::new();
        let mut exclusions: Vec<Route> = Vec::new();
        let mut i: usize = 0;
        while i < config.peer.len()
            invariant
                i <= config.peer.len(),
                km == keys@,
                rs == resolutions@,
                resolutions@.len() == config.peer@.len(),
                config.keys_complete(km),
                keys.peers@.len() == km.peers.len(),
                router_fault(config.peer@, rs, 0) == router_fault(config.peer@, rs, i as int),
                carries(*config, km, rs, routes@, allowed(config.peer@, i as int)),
                carries(*config, km, rs, exclusions@, excluded(config.peer@, i as int)),
            decreases config.peer.len() - i,
        {
            let entry = &config.peer[i];
            assert(km.peers[i as int] == keys.peers@[i as int]@);
            let (psk, public_key) = match (keys.peers[i].psk, keys.peers[i].public_key) {
                (Some(psk), Some(public_key)) => (psk, public_key),
                _ => {
                    assert(false);
                    ([0u8;32], [0u8;32])
                },
            };
            let peer = match peer_from_config(
                entry,
                psk,
                public_key,
                &resolutions[i],
                config.interface.transport,
            ) {
                Ok(peer) => Arc::new(peer),
                Err(error) => {
                    return Err(error);
                },
            };
            assert(km.peers[i as int] == (PeerKeysModel {
                psk: Some(psk@),
                public_key: Some(public_key@),
            }));
            assert(config.describes(km, rs, i as int, *peer));
            let mut k: usize = 0;
            assert(allowed(config.peer@, i as int) + listed(entry.allowed_ips@.take(0), i as int)
                =~= allowed(config.peer@, i as int));
            while k < entry.allowed_ips.len()
                invariant
                    i < config.peer.len(),
                    rs == resolutions@,
                    *entry == config.peer@[i as int],
                    k <= entry.allowed_ips.len(),
                    config.describes(km, rs, i as int, *peer),
                    rs[i as int].preferred() is Some,
                    router_fault(config.peer@, rs, 0) == router_fault(config.peer@, rs, i as int),
                    prefix_fault(config.peer@, i as int, 0) == prefix_fault(
                        config.peer@,
                        i as int,
                        k as int,
                    ),
                    carries(
                        *config,
                        km,
                        rs,
                        routes@,
                        allowed(config.peer@, i as int) + listed(
                            entry.allowed_ips@.take(k as int),
                            i as int,
                        ),
                    ),
                decreases entry.allowed_ips.len() - k,
            {
                let prefix = entry.allowed_ips[k];
                let ghost before = allowed(config.peer@, i as int) + listed(
                    entry.allowed_ips@.take(k as int),
                    i as int,
                );
                let mut j: usize = 0;
                while j < routes.len()
                    invariant
                        j <= routes.len(),
                        i < config.peer.len(),
                        rs == resolutions@,
                        *entry == config.peer@[i as int],
                        k < entry.allowed_ips.len(),
                        prefix == entry.allowed_ips@[k as int],
                        before == allowed(config.peer@, i as int) + listed(
                            entry.allowed_ips@.take(k as int),
                            i as int,
                        ),
                        carries(*config, km, rs, routes@, before),
                        rs[i as int].preferred() is Some,
                        router_fault(config.peer@, rs, 0) == router_fault(
                            config.peer@,
                            rs,
                            i as int,
                        ),
                        prefix_fault(config.peer@, i as int, 0) == prefix_fault(
                            config.peer@,
                            i as int,
                            k as int,
                        ),
                        config.describes(km, rs, i as int, *peer),
                        first_owner(before, prefix, 0) == first_owner(before, prefix, j as int),
                    decreases routes.len() - j,
                {
                    if routes[j].prefix == prefix {
                        assert(first_owner(before, prefix, j as int) == Some(before[j as int].1));
                        assert(config.describes(km, rs, before[j as int].1, *routes@[j as int].peer));
                        return Err(
                            RouterError::DuplicatePrefix {
                                prefix,
                                first_peer: routes[j].peer.name.clone(),
                                second_peer: peer.name.clone(),
                            },
                        );
                    }
                    j = j + 1;
                }
                routes.push(Route { prefix, peer: share(&peer) });
                proof {
                    let after = allowed(config.peer@, i as int) + listed(
                        entry.allowed_ips@.take(k + 1),
                        i as int,
                    );
                    assert(entry.allowed_ips@.take(k + 1) =~= entry.allowed_ips@.take(
                        k as int,
                    ).push(prefix));
                    assert(after =~= before.push((prefix, i as int)));
                }
                k = k + 1;
            }
            proof {
                assert(entry.allowed_ips@.take(k as int) =~= entry.allowed_ips@);
                assert(allowed(config.peer@, i + 1) == allowed(config.peer@, i as int) + listed(
                    entry.allowed_ips@,
                    i as int,
                ));
            }
            push_exclusions(
                &mut exclusions,
                entry,
                &peer,
                Ghost(*config),
                Ghost(km),
                Ghost(rs),
                Ghost(i as int),
            );
            i = i + 1;
        }
        let ghost n = config.peer@.len() as int;
        let sorted = sort_routes(
            &routes,
            Ghost(*config),
            Ghost(km),
            Ghost(rs),
            Ghost(allowed(config.peer@, n)),
        );
        let sorted_exclusions = sort_routes(
            &exclusions,
            Ghost(*config),
            Ghost(km),
            Ghost(rs),
            Ghost(excluded(config.peer@, n)),
        );
        let mut excluded_routes: Vec<ExcludedRoute> = Vec::new();
        let mut k: usize = 0;
        while k < sorted_exclusions.len()
            invariant
                k <= sorted_exclusions.len(),
                excluded_routes@.len() == k,
                forall|j: int|
                    #![trigger excluded_routes@[j]]
                    0 <= j < k ==> excluded_routes@[j].prefix == sorted_exclusions@[j].prefix
                        && excluded_routes@[j].peer == sorted_exclusions@[j].peer,
            decreases sorted_exclusions.len() - k,
        {
            excluded_routes.push(
                ExcludedRoute {
                    prefix: sorted_exclusions[k].prefix,
                    peer: share(&sorted_exclusions[k].peer),
                },
            );
            k = k + 1;
        }
        proof {
            let list = longest_first(allowed(config.peer@, n), 255);
            longest_first_is_sorted(allowed(config.peer@, n), 255);
            assert forall|a: int, b: int|
                #![trigger sorted@[a], sorted@[b]]
                0 <= a <= b < sorted@.len() implies sorted@[a].prefix.prefix_len
                >= sorted@[b].prefix.prefix_len by {
                assert(list[a].0.prefix_len >= list[b].0.prefix_len);
            }
            let other = longest_first(excluded(config.peer@, n), 255);
            assert forall|j: int|
                #![trigger excluded_routes@[j]]
                0 <= j < other.len() implies excluded_routes@[j].prefix == other[j].0
                && config.describes(km, rs, other[j].1, *excluded_routes@[j].peer) by {
                assert(sorted_exclusions@[j].prefix == other[j].0);
            }
        }
        Ok(Router { routes: sorted, excluded_routes })
    }

    /// The first route that takes the destination, which is also the one with
    /// the longest prefix among all that do.
    pub fn lookup(&self, destination: Ipv4Addr) -> (found: Option<&Route>)
        ensures
            match found {
                Some(route) => {
                    &&& route.takes(destination)
                    &&& exists|i: int|
                        #![trigger self.route_list()[i]]
                        0 <= i < self.route_list().len() && self.route_list()[i] == *route
                            && forall|j: int|
                            #![trigger self.route_list()[j]]
                            0 <= j < i ==> !self.route_list()[j].takes(destination)
                    &&& forall|j: int|
                        #![trigger self.route_list()[j]]
                        0 <= j < self.route_list().len() && self.route_list()[j].takes(destination)
                            ==> self.route_list()[j].prefix.prefix_len <= route.prefix.prefix_len
                },
                None => forall|j: int|
                    #![trigger self.route_list()[j]]
                    0 <= j < self.route_list().len() ==> !self.route_list()[j].takes(destination),
            },
    {
        proof {
            use_type_invariant(self);
        }
        let mut i: usize = 0;
        while i < self.routes.len()
            invariant
                i <= self.routes.len(),
                self.sorted(),
                forall|j: int|
                    #![trigger self.routes@[j]]
                    0 <= j < i ==> !self.routes@[j].takes(destination),
            decreases self.routes.len() - i,
        {
            if self.routes[i].takes_destination(&destination) {
                assert(self.route_list()[i as int] == self.routes@[i as int]);
                return Some(&self.routes[i]);
            }
            i = i + 1;
        }
        None
    }

    pub fn routes(&self) -> (routes: &[Route])
        ensures
            routes@ == self.route_list(),
    {
        self.routes.as_slice()
    }

    pub fn excluded_routes(&self) -> (routes: &[ExcludedRoute])
        ensures
            routes@ == self.exclusion_list(),
    {
        self.excluded_routes.as_slice()
    }

    /// Whether some route takes the destination.
    pub open spec fn captures(&self, destination: Ipv4Addr) -> bool {
        exists|j: int|
            #![trigger self.route_list()[j]]
            0 <= j < self.route_list().len() && self.route_list()[j].takes(destination)
    }

    /// Whether route `i`'s endpoint is a usable IPv4 endpoint that the tunnel
    /// would capture.
    pub open spec fn endpoint_captured(&self, i: int) -> bool {
        match self.route_list()[i].peer.endpoint {
            SocketAddr::V4 { ip, port } => port != 0 && ip.bits != 0 && self.captures(ip),
            SocketAddr::V6 { .. } => false,
        }
    }

    /// Among the first `n` routes, the positions whose endpoints are captured,
    /// each address once.
    pub open spec fn exceptions(&self, n: int) -> Seq<int>
        decreases n,
    {
        if n <= 0 {
            seq![]
        } else {
            let before = self.exceptions(n - 1);
            if self.endpoint_captured(n - 1) && !self.address_listed(before, n - 1) {
                before.push(n - 1)
            } else {
                before
            }
        }
    }

    /// Whether a listed route has the endpoint address of route `i`.
    pub open spec fn address_listed(&self, listed: Seq<int>, i: int) -> bool {
        exists|k: int|
            #![trigger listed[k]]
            0 <= k < listed.len() && self.route_list()[listed[k]].peer.endpoint.ip_of()
                == self.route_list()[i].peer.endpoint.ip_of()
    }

    /// Return one representative peer for each transport endpoint whose IPv4
    /// address would itself be captured by the configured tunnel routes.
    pub fn endpoint_exception_peers(&self) -> (peers: Vec<&Peer>)
        ensures
            ({
                let listed = self.exceptions(self.route_list().len() as int);
                peers@.len() == listed.len() && forall|k: int|
                    #![trigger peers@[k]]
                    0 <= k < listed.len() ==> *peers@[k] == *self.route_list()[listed[k]].peer
            }),
    {
        let mut peers: Vec<&Peer> = Vec::new();
        let mut i: usize = 0;
        while i < self.routes.len()
            invariant
                i <= self.routes.len(),
                peers@.len() == self.exceptions(i as int).len(),
                forall|k: int|
                    #![trigger self.exceptions(i as int)[k]]
                    0 <= k < peers@.len() ==> 0 <= self.exceptions(i as int)[k] < i && *peers@[k]
                        == *self.route_list()[self.exceptions(i as int)[k]].peer,
            decreases self.routes.len() - i,
        {
            let ghost before = self.exceptions(i as int);
            let peer: &Peer = &self.routes[i].peer;
            assert(*peer == *self.route_list()[i as int].peer);
            if let SocketAddr::V4 { ip, port } = peer.endpoint {
                if port != 0 && ip.bits != 0 && self.lookup(ip).is_some() {
                    let seen = address_seen(&peers, peer.endpoint.ip());
                    proof {
                        assert(self.endpoint_captured(i as int));
                        if seen {
                            let k = choose|k: int|
                                #![trigger peers@[k]]
                                0 <= k < peers@.len() && peers@[k].endpoint.ip_of()
                                    == peer.endpoint.ip_of();
                            assert(self.route_list()[before[k]].peer.endpoint.ip_of()
                                == peer.endpoint.ip_of());
                        } else if self.address_listed(before, i as int) {
                            let k = choose|k: int|
                                #![trigger before[k]]
                                0 <= k < before.len()
                                    && self.route_list()[before[k]].peer.endpoint.ip_of()
                                    == self.route_list()[i as int].peer.endpoint.ip_of();
                            assert(peers@[k].endpoint.ip_of() == peer.endpoint.ip_of());
                        }
                    }
                    if !seen {
                        peers.push(peer);
                    }
                }
            }
            i = i + 1;
            proof {
                assert forall|k: int|
                    #![trigger self.exceptions(i as int)[k]]
                    0 <= k < peers@.len() implies 0 <= self.exceptions(i as int)[k] < i && *peers@[k]
                    == *self.route_list()[self.exceptions(i as int)[k]].peer by {
                    if k < before.len() {
                        assert(before[k] == self.exceptions(i as int)[k]);
                    }
                }
            }
        }
        proof {
            let listed = self.exceptions(self.route_list().len() as int);
            assert forall|k: int|
                #![trigger peers@[k]]
                0 <= k < listed.len() implies *peers@[k] == *self.route_list()[listed[k]].peer by {
                assert(listed[k] < self.route_list().len());
            }
        }
        peers
    }
}

/// Whether one of the peers' endpoints has this address.
fn address_seen(peers: &Vec<&Peer>, ip: IpAddr) -> (seen: bool)
    ensures
        seen == exists|k: int|
            #![trigger peers@[k]]
            0 <= k < peers@.len() && peers@[k].endpoint.ip_of() == ip,
{
    let mut k: usize = 0;
    while k < peers.len()
        invariant
            k <= peers.len(),
            forall|j: int|
                #![trigger peers@[j]]
                0 <= j < k ==> peers@[j].endpoint.ip_of() != ip,
        decreases peers.len() - k,
    {
        if peers[k].endpoint.ip() == ip {
            assert(peers@[k as int].endpoint.ip_of() == ip);
            return true;
        }
        k = k + 1;
    }
    false
}

/// Adds the excluded prefixes of one peer.
fn push_exclusions(
    exclusions: &mut Vec<Route>,
    entry: &PeerConfig,
    peer: &Arc<Peer>,
    Ghost(config): Ghost<Config>,
    Ghost(keys): Ghost<KeysModel>,
    Ghost(resolutions): Ghost<Seq<Resolution>>,
    Ghost(i): Ghost<int>,
)
    requires
        0 <= i < config.peer@.len(),
        *entry == config.peer@[i],
        config.describes(keys, resolutions, i, **peer),
        carries(config, keys, resolutions, old(exclusions)@, excluded(config.peer@, i)),
    ensures
        carries(config, keys, resolutions, final(exclusions)@, excluded(config.peer@, i + 1)),
{
    let ghost start = excluded(config.peer@, i);
    let mut k: usize = 0;
    assert(start + listed(entry.excluded_ips@.take(0), i) =~= start);
    while k < entry.excluded_ips.len()
        invariant
            k <= entry.excluded_ips.len(),
            config.describes(keys, resolutions, i, **peer),
            carries(
                config,
                keys,
                resolutions,
                exclusions@,
                start + listed(entry.excluded_ips@.take(k as int), i),
            ),
        decreases entry.excluded_ips.len() - k,
    {
        let prefix = entry.excluded_ips[k];
        exclusions.push(Route { prefix, peer: share(peer) });
        proof {
            assert(entry.excluded_ips@.take(k + 1) =~= entry.excluded_ips@.take(k as int).push(
                prefix,
            ));
            assert(start + listed(entry.excluded_ips@.take(k + 1), i) =~= (start + listed(
                entry.excluded_ips@.take(k as int),
                i,
            )).push((prefix, i)));
        }
        k = k + 1;
    }
    assert(entry.excluded_ips@.take(k as int) =~= entry.excluded_ips@);
}

// ---------------------------------------------------------------------------
// Laws.
// ---------------------------------------------------------------------------

/// The prefixes of a length.
pub open spec fn has_length(length: int) -> spec_fn(Listed) -> bool {
    |entry: Listed| entry.0.prefix_len == length
}

proof fn lemma_filter_keeps_all(list: Seq<Listed>, length: int)
    requires
        forall|i: int| 0 <= i < list.len() ==> has_length(length)(#[trigger] list[i]),
    ensures
        list.filter(has_length(length)) == list,
    decreases list.len(),
{
    reveal(Seq::filter);
    if list.len() > 0 {
        lemma_filter_keeps_all(list.drop_last(), length);
        assert(has_length(length)(list[list.len() - 1]));
        assert(list.drop_last().push(list.last()) =~= list);
    }
}

proof fn lemma_of_length_is_filter(list: Seq<Listed>, n: int, length: int)
    requires
        0 <= n <= list.len(),
    ensures
        of_length(list, n, length) == list.take(n).filter(has_length(length)),
    decreases n,
{
    reveal(Seq::filter);
    if n > 0 {
        lemma_of_length_is_filter(list, n - 1, length);
        assert(list.take(n).drop_last() =~= list.take(n - 1));
        assert(list.take(n).last() == list[n - 1]);
    }
}

proof fn lemma_longest_first_filter(list: Seq<Listed>, up_to: int, length: int)
    requires
        0 <= length,
    ensures
        longest_first(list, up_to).filter(has_length(length)) == if length <= up_to {
            list.filter(has_length(length))
        } else {
            Seq::empty()
        },
    decreases up_to + 1,
{
    if up_to < 0 {
        reveal(Seq::filter);
        assert(longest_first(list, up_to).len() == 0);
    } else {
        let head = of_length(list, list.len() as int, up_to);
        let tail = longest_first(list, up_to - 1);
        lemma_longest_first_filter(list, up_to - 1, length);
        lemma_of_length_is_filter(list, list.len() as int, up_to);
        lemma_of_length(list, list.len() as int, up_to);
        assert(list.take(list.len() as int) =~= list);
        Seq::filter_distributes_over_add(head, tail, has_length(length));
        if length == up_to {
            lemma_filter_keeps_all(head, length);
            assert(head + Seq::<Listed>::empty() =~= head);
        } else {
            head.lemma_all_neg_filter_empty(has_length(length));
            assert(Seq::<Listed>::empty() + tail.filter(has_length(length)) =~= tail.filter(
                has_length(length),
            ));
        }
    }
}

/// Sorting by length loses nothing and keeps the order among prefixes of one
/// length: of each length the sorted list has what the list has, in its order.
pub proof fn sorting_keeps_the_order_within_each_length(list: Seq<Listed>, length: int)
    requires
        0 <= length <= 255,
    ensures
        longest_first(list, 255).filter(has_length(length)) == list.filter(has_length(length)),
{
    lemma_longest_first_filter(list, 255, length);
}

proof fn lemma_of_length_push(list: Seq<Listed>, entry: Listed, n: int, length: int)
    requires
        0 <= n <= list.len(),
    ensures
        of_length(list.push(entry), n, length) == of_length(list, n, length),
    decreases n,
{
    if n > 0 {
        lemma_of_length_push(list, entry, n - 1, length);
    }
}

proof fn lemma_longest_first_push(list: Seq<Listed>, entry: Listed, length: int)
    ensures
        longest_first(list.push(entry), length).to_multiset() == if entry.0.prefix_len <= length {
            longest_first(list, length).to_multiset().insert(entry)
        } else {
            longest_first(list, length).to_multiset()
        },
    decreases length + 1,
{
    broadcast use vstd::seq_lib::group_to_multiset_ensures;

    if length >= 0 {
        let n = list.len() as int;
        let more = list.push(entry);
        lemma_longest_first_push(list, entry, length - 1);
        lemma_of_length_push(list, entry, n, length);
        let head = of_length(list, n, length);
        let new_head = of_length(more, n + 1, length);
        vstd::seq_lib::lemma_multiset_commutative(head, longest_first(list, length - 1));
        vstd::seq_lib::lemma_multiset_commutative(new_head, longest_first(more, length - 1));
        assert(more[n] == entry);
        if entry.0.prefix_len == length {
            assert(new_head == head.push(entry));
        } else {
            assert(new_head == head);
        }
        assert(longest_first(more, length).to_multiset() =~= if entry.0.prefix_len <= length {
            longest_first(list, length).to_multiset().insert(entry)
        } else {
            longest_first(list, length).to_multiset()
        });
    }
}

proof fn lemma_longest_first_of_nothing(length: int)
    ensures
        longest_first(Seq::empty(), length) == Seq::<Listed>::empty(),
    decreases length + 1,
{
    if length >= 0 {
        lemma_longest_first_of_nothing(length - 1);
        assert(of_length(Seq::empty(), 0, length) =~= Seq::<Listed>::empty());
        assert(Seq::<Listed>::empty() + Seq::<Listed>::empty() =~= Seq::<Listed>::empty());
    }
}

/// The sorted list holds every entry of the list as often as that does, and
/// nothing else.
pub proof fn sorting_is_a_permutation(list: Seq<Listed>)
    ensures
        longest_first(list, 255).to_multiset() == list.to_multiset(),
        longest_first(list, 255).len() == list.len(),
    decreases list.len(),
{
    broadcast use vstd::seq_lib::group_to_multiset_ensures;

    if list.len() == 0 {
        assert(list =~= Seq::<Listed>::empty());
        lemma_longest_first_of_nothing(255);
    } else {
        let fewer = list.drop_last();
        sorting_is_a_permutation(fewer);
        assert(fewer.push(list.last()) =~= list);
        lemma_longest_first_push(fewer, list.last(), 255);
    }
    assert(longest_first(list, 255).to_multiset().len() == list.to_multiset().len());
}

/// Prefix `k` of peer `i` stands in the list of the first `n` peers' prefixes.
proof fn lemma_listed(peers: Seq<PeerConfig>, n: int, i: int, k: int)
    requires
        0 <= i < n <= peers.len(),
    ensures
        0 <= k < peers[i].allowed_ips@.len() ==> allowed(peers, n).contains(
            (peers[i].allowed_ips@[k], i),
        ),
        0 <= k < peers[i].excluded_ips@.len() ==> excluded(peers, n).contains(
            (peers[i].excluded_ips@[k], i),
        ),
    decreases n,
{
    let last_allowed = listed(peers[n - 1].allowed_ips@, n - 1);
    let last_excluded = listed(peers[n - 1].excluded_ips@, n - 1);
    if i < n - 1 {
        lemma_listed(peers, n - 1, i, k);
        if 0 <= k < peers[i].allowed_ips@.len() {
            let entry = (peers[i].allowed_ips@[k], i);
            let at = allowed(peers, n - 1).index_of(entry);
            assert(allowed(peers, n)[at] == entry);
        }
        if 0 <= k < peers[i].excluded_ips@.len() {
            let entry = (peers[i].excluded_ips@[k], i);
            let at = excluded(peers, n - 1).index_of(entry);
            assert(excluded(peers, n)[at] == entry);
        }
    } else {
        if 0 <= k < peers[i].allowed_ips@.len() {
            assert(allowed(peers, n)[allowed(peers, n - 1).len() + k] == last_allowed[k]);
        }
        if 0 <= k < peers[i].excluded_ips@.len() {
            assert(excluded(peers, n)[excluded(peers, n - 1).len() + k] == last_excluded[k]);
        }
    }
}

/// Whether prefix `k` of peer `i` is this one.
pub open spec fn allows(peers: Seq<PeerConfig>, i: int, k: int, prefix: Ipv4Net) -> bool {
    0 <= i < peers.len() && 0 <= k < peers[i].allowed_ips@.len() && peers[i].allowed_ips@[k]
        == prefix
}

/// Each entry of the list comes from the configuration.
proof fn lemma_listed_origin(peers: Seq<PeerConfig>, n: int, at: int)
    requires
        0 <= n <= peers.len(),
        0 <= at < allowed(peers, n).len(),
    ensures
        0 <= allowed(peers, n)[at].1 < n,
        exists|k: int| #[trigger]
            allows(peers, allowed(peers, n)[at].1, k, allowed(peers, n)[at].0),
    decreases n,
{
    let before = allowed(peers, n - 1);
    if at < before.len() {
        lemma_listed_origin(peers, n - 1, at);
        assert(allowed(peers, n)[at] == before[at]);
    } else {
        assert(allowed(peers, n)[at] == listed(peers[n - 1].allowed_ips@, n - 1)[at
            - before.len()]);
        assert(allows(peers, n - 1, at - before.len(), allowed(peers, n)[at].0));
    }
}

/// Every allowed prefix of every peer has a route, and the route leads to that
/// peer.
pub proof fn every_allowed_prefix_is_routed(
    router: Router,
    config: Config,
    keys: KeysModel,
    resolutions: Seq<Resolution>,
    i: int,
    k: int,
)
    requires
        router.routes_for(config, keys, resolutions),
        0 <= i < config.peer@.len(),
        0 <= k < config.peer@[i].allowed_ips@.len(),
    ensures
        exists|r: int|
            #![trigger router.route_list()[r]]
            0 <= r < router.route_list().len() && router.route_list()[r].prefix
                == config.peer@[i].allowed_ips@[k] && router.route_list()[r].peer.name@
                == config.peer@[i].name@ && keys.peers[i].public_key == Some(
                router.route_list()[r].peer.public_key@,
            ) && resolutions[i].preferred() == Some(router.route_list()[r].peer.endpoint),
{
    broadcast use vstd::seq_lib::group_to_multiset_ensures;

    let n = config.peer@.len() as int;
    let list = allowed(config.peer@, n);
    let sorted = longest_first(list, 255);
    let entry = (config.peer@[i].allowed_ips@[k], i);
    lemma_listed(config.peer@, n, i, k);
    sorting_is_a_permutation(list);
    assert(list.to_multiset().contains(entry));
    assert(sorted.contains(entry));
    let r = sorted.index_of(entry);
    assert(sorted[r] == entry);
    assert(router.route_list()[r].prefix == config.peer@[i].allowed_ips@[k]);
}

/// Every route carries a prefix that the configuration allows, to the peer that
/// it allows it for.
pub proof fn every_route_is_configured(
    router: Router,
    config: Config,
    keys: KeysModel,
    resolutions: Seq<Resolution>,
    r: int,
)
    requires
        router.routes_for(config, keys, resolutions),
        0 <= r < router.route_list().len(),
    ensures
        exists|i: int, k: int| #[trigger]
            allows(config.peer@, i, k, router.route_list()[r].prefix)
                && router.route_list()[r].peer.name@ == config.peer@[i].name@
                && keys.peers[i].public_key == Some(router.route_list()[r].peer.public_key@)
                && keys.peers[i].psk == Some(router.route_list()[r].peer.psk@),
{
    broadcast use vstd::seq_lib::group_to_multiset_ensures;

    let n = config.peer@.len() as int;
    let list = allowed(config.peer@, n);
    let sorted = longest_first(list, 255);
    sorting_is_a_permutation(list);
    assert(sorted.to_multiset().contains(sorted[r]));
    assert(list.contains(sorted[r]));
    let at = list.index_of(sorted[r]);
    lemma_listed_origin(config.peer@, n, at);
    let i = sorted[r].1;
    let k = choose|k: int| #[trigger] allows(config.peer@, i, k, sorted[r].0);
    assert(allows(config.peer@, i, k, router.route_list()[r].prefix));
}

/// Every excluded prefix of every peer is among the exclusions.
pub proof fn every_excluded_prefix_is_kept(
    router: Router,
    config: Config,
    keys: KeysModel,
    resolutions: Seq<Resolution>,
    i: int,
    k: int,
)
    requires
        router.routes_for(config, keys, resolutions),
        0 <= i < config.peer@.len(),
        0 <= k < config.peer@[i].excluded_ips@.len(),
    ensures
        exists|r: int|
            #![trigger router.exclusion_list()[r]]
            0 <= r < router.exclusion_list().len() && router.exclusion_list()[r].prefix
                == config.peer@[i].excluded_ips@[k] && router.exclusion_list()[r].peer.name@
                == config.peer@[i].name@,
{
    broadcast use vstd::seq_lib::group_to_multiset_ensures;

    let n = config.peer@.len() as int;
    let list = excluded(config.peer@, n);
    let sorted = longest_first(list, 255);
    let entry = (config.peer@[i].excluded_ips@[k], i);
    lemma_listed(config.peer@, n, i, k);
    sorting_is_a_permutation(list);
    assert(list.to_multiset().contains(entry));
    assert(sorted.contains(entry));
    let r = sorted.index_of(entry);
    assert(sorted[r] == entry);
    assert(router.exclusion_list()[r].prefix == config.peer@[i].excluded_ips@[k]);
}

/// A route whose prefix covers a destination takes it, unless the peer excludes
/// a prefix that covers the destination too and is at least as long.
pub proof fn only_a_longer_exclusion_wins(route: Route, destination: Ipv4Addr)
    ensures
        route.takes(destination) ==> route.prefix.covers(destination),
        route.prefix.covers(destination) && !route.takes(destination) ==> exists|i: int|
            #![trigger route.peer.excluded_ips@[i]]
            0 <= i < route.peer.excluded_ips@.len() && route.peer.excluded_ips@[i].covers(
                destination,
            ) && route.peer.excluded_ips@[i].prefix_len >= route.prefix.prefix_len,
        forall|i: int|
            #![trigger route.peer.excluded_ips@[i]]
            0 <= i < route.peer.excluded_ips@.len() && route.peer.excluded_ips@[i].covers(
                destination,
            ) && route.peer.excluded_ips@[i].prefix_len >= route.prefix.prefix_len
                ==> !route.takes(destination),
{
}

proof fn lemma_first_owner(list: Seq<Listed>, prefix: Ipv4Net, i: int)
    requires
        0 <= i,
    ensures
        first_owner(list, prefix, i) is None <==> forall|j: int|
            #![trigger list[j]]
            i <= j < list.len() ==> list[j].0 != prefix,
    decreases list.len() - i,
{
    if i < list.len() {
        lemma_first_owner(list, prefix, i + 1);
    }
}

/// Whether no prefix is allowed twice, be it for one peer or for two.
pub open spec fn prefixes_distinct(peers: Seq<PeerConfig>) -> bool {
    forall|i: int, k: int, j: int, l: int, prefix: Ipv4Net| #[trigger]
        allows(peers, i, k, prefix) && #[trigger] allows(peers, j, l, prefix) ==> i == j && k == l
}

proof fn lemma_no_prefix_fault(peers: Seq<PeerConfig>, i: int, k: int)
    requires
        0 <= i < peers.len(),
        0 <= k,
        prefixes_distinct(peers),
    ensures
        prefix_fault(peers, i, k) is None,
    decreases peers[i].allowed_ips@.len() - k,
{
    if k < peers[i].allowed_ips@.len() {
        let prefix = peers[i].allowed_ips@[k];
        let own = listed(peers[i].allowed_ips@.take(k), i);
        let before = allowed(peers, i) + own;
        assert(allows(peers, i, k, prefix));
        assert forall|at: int|
            #![trigger before[at]]
            0 <= at < before.len() implies before[at].0 != prefix by {
            if at < allowed(peers, i).len() {
                lemma_listed_origin(peers, i, at);
                assert(before[at] == allowed(peers, i)[at]);
                let l = choose|l: int| #[trigger] allows(peers, before[at].1, l, before[at].0);
                assert(allows(peers, before[at].1, l, before[at].0));
            } else {
                let l = at - allowed(peers, i).len();
                assert(before[at] == own[l]);
                assert(allows(peers, i, l, before[at].0));
            }
        }
        lemma_first_owner(before, prefix, 0);
        lemma_no_prefix_fault(peers, i, k + 1);
    }
}

proof fn lemma_prefix_unseen(peers: Seq<PeerConfig>, i: int, from: int, k: int)
    requires
        0 <= i < peers.len(),
        0 <= from <= k < peers[i].allowed_ips@.len(),
        prefix_fault(peers, i, from) is None,
    ensures
        forall|j: int, l: int| #[trigger]
            allows(peers, j, l, peers[i].allowed_ips@[k]) ==> j > i || (j == i && l >= k),
    decreases k - from,
{
    if from < k {
        lemma_prefix_unseen(peers, i, from + 1, k);
    } else {
        let prefix = peers[i].allowed_ips@[k];
        let own = listed(peers[i].allowed_ips@.take(k), i);
        let before = allowed(peers, i) + own;
        lemma_first_owner(before, prefix, 0);
        assert forall|j: int, l: int| #[trigger] allows(peers, j, l, prefix) implies j > i || (j
            == i && l >= k) by {
            if j < i {
                lemma_listed(peers, i, j, l);
                let at = allowed(peers, i).index_of((prefix, j));
                assert(before[at].0 == prefix);
            } else if j == i && l < k {
                assert(before[allowed(peers, i).len() + l] == own[l]);
                assert(before[allowed(peers, i).len() + l].0 == prefix);
            }
        }
    }
}

proof fn lemma_no_router_fault_at(
    peers: Seq<PeerConfig>,
    resolutions: Seq<Resolution>,
    from: int,
    i: int,
)
    requires
        0 <= from <= i < peers.len(),
        router_fault(peers, resolutions, from) is None,
    ensures
        resolutions[i].preferred() is Some,
        prefix_fault(peers, i, 0) is None,
    decreases i - from,
{
    if from < i {
        lemma_no_router_fault_at(peers, resolutions, from + 1, i);
    }
}

proof fn lemma_no_router_fault(peers: Seq<PeerConfig>, resolutions: Seq<Resolution>, from: int)
    requires
        0 <= from,
        prefixes_distinct(peers),
        forall|i: int|
            #![trigger resolutions[i]]
            0 <= i < peers.len() ==> resolutions[i].preferred() is Some,
    ensures
        router_fault(peers, resolutions, from) is None,
    decreases peers.len() - from,
{
    if from < peers.len() {
        assert(resolutions[from].preferred() is Some);
        lemma_no_prefix_fault(peers, from, 0);
        lemma_no_router_fault(peers, resolutions, from + 1);
    }
}

/// A configuration is routed exactly if every endpoint has an address and no
/// prefix is allowed twice.
pub proof fn distinct_prefixes_are_routed(peers: Seq<PeerConfig>, resolutions: Seq<Resolution>)
    ensures
        router_fault(peers, resolutions, 0) is None <==> prefixes_distinct(peers) && forall|i: int|
            #![trigger resolutions[i]]
            0 <= i < peers.len() ==> resolutions[i].preferred() is Some,
{
    if router_fault(peers, resolutions, 0) is None {
        assert forall|i: int|
            #![trigger resolutions[i]]
            0 <= i < peers.len() implies resolutions[i].preferred() is Some by {
            lemma_no_router_fault_at(peers, resolutions, 0, i);
        }
        assert forall|i: int, k: int, j: int, l: int, prefix: Ipv4Net| #[trigger]
            allows(peers, i, k, prefix) && #[trigger] allows(peers, j, l, prefix) implies i == j
            && k == l by {
            lemma_no_router_fault_at(peers, resolutions, 0, i);
            lemma_no_router_fault_at(peers, resolutions, 0, j);
            lemma_prefix_unseen(peers, i, 0, k);
            lemma_prefix_unseen(peers, j, 0, l);
        }
    } else if prefixes_distinct(peers) && forall|i: int|
        #![trigger resolutions[i]]
        0 <= i < peers.len() ==> resolutions[i].preferred() is Some {
        lemma_no_router_fault(peers, resolutions, 0);
    }
}

proof fn lemma_exceptions(router: Router, n: int)
    requires
        0 <= n <= router.route_list().len(),
    ensures
        forall|k: int|
            #![trigger router.exceptions(n)[k]]
            0 <= k < router.exceptions(n).len() ==> 0 <= router.exceptions(n)[k] < n
                && router.endpoint_captured(router.exceptions(n)[k]),
        forall|i: int| #[trigger]
            router.endpoint_captured(i) && 0 <= i < n ==> router.address_listed(
                router.exceptions(n),
                i,
            ),
        forall|k: int, l: int|
            #![trigger router.exceptions(n)[k], router.exceptions(n)[l]]
            0 <= k < l < router.exceptions(n).len()
                ==> router.route_list()[router.exceptions(n)[k]].peer.endpoint.ip_of()
                != router.route_list()[router.exceptions(n)[l]].peer.endpoint.ip_of(),
    decreases n,
{
    if n > 0 {
        lemma_exceptions(router, n - 1);
        let before = router.exceptions(n - 1);
        let after = router.exceptions(n);
        assert forall|i: int| #[trigger] router.endpoint_captured(i) && 0 <= i < n implies
            router.address_listed(after, i) by {
            if i < n - 1 || router.address_listed(before, i) {
                let k = choose|k: int|
                    #![trigger before[k]]
                    0 <= k < before.len() && router.route_list()[before[k]].peer.endpoint.ip_of()
                        == router.route_list()[i].peer.endpoint.ip_of();
                assert(after[k] == before[k]);
            } else {
                assert(after[after.len() - 1] == n - 1);
            }
        }
        assert forall|k: int, l: int|
            #![trigger router.exceptions(n)[k], router.exceptions(n)[l]]
            0 <= k < l < after.len() implies router.route_list()[after[k]].peer.endpoint.ip_of()
            != router.route_list()[after[l]].peer.endpoint.ip_of() by {
            assert(after[k] == before[k]);
            if l < before.len() {
                assert(after[l] == before[l]);
            }
        }
    }
}

/// A peer's endpoint that some route would take into the tunnel, if it can be
/// sent to at all, is among the exceptions; every exception is such an
/// endpoint; and no two have one address.
pub proof fn every_captured_endpoint_is_excepted(router: Router, i: int, ip: Ipv4Addr, port: u16)
    requires
        0 <= i < router.route_list().len(),
        router.route_list()[i].peer.endpoint == (SocketAddr::V4 { ip, port }),
        ip.bits != 0,
        port != 0,
        exists|r: int|
            #![trigger router.route_list()[r]]
            0 <= r < router.route_list().len() && router.route_list()[r].takes(ip),
    ensures
        ({
            let listed = router.exceptions(router.route_list().len() as int);
            exists|k: int|
                #![trigger listed[k]]
                0 <= k < listed.len() && router.route_list()[listed[k]].peer.endpoint.ip_of()
                    == IpAddr::V4(ip)
        }),
{
    let n = router.route_list().len() as int;
    lemma_exceptions(router, n);
    let r = choose|r: int|
        #![trigger router.route_list()[r]]
        0 <= r < router.route_list().len() && router.route_list()[r].takes(ip);
    assert(router.captures(ip)) by {
        assert(router.route_list()[r].takes(ip));
    }
    assert(router.endpoint_captured(i));
}

/// Every exception is an endpoint that some route would take, and no address is
/// excepted twice.
pub proof fn only_captured_endpoints_are_excepted(router: Router, k: int, l: int)
    requires
        ({
            let listed = router.exceptions(router.route_list().len() as int);
            0 <= k < listed.len() && 0 <= l < listed.len()
        }),
    ensures
        ({
            let listed = router.exceptions(router.route_list().len() as int);
            &&& 0 <= listed[k] < router.route_list().len()
            &&& router.route_list()[listed[k]].peer.endpoint matches SocketAddr::V4 { ip, port }
                && ip.bits != 0 && port != 0 && exists|r: int|
                #![trigger router.route_list()[r]]
                0 <= r < router.route_list().len() && router.route_list()[r].takes(ip)
            &&& router.route_list()[listed[k]].peer.endpoint.ip_of()
                == router.route_list()[listed[l]].peer.endpoint.ip_of() ==> k == l
        }),
{
    lemma_exceptions(router, router.route_list().len() as int);
}

/// A route's peer is configured as it says: apart from its prefix, its name and
/// its keys, the exclusions, the timers and the endpoint are those of the peer
/// that the prefix is allowed for.
pub proof fn routed_peers_keep_their_configuration(
    router: Router,
    config: Config,
    keys: KeysModel,
    resolutions: Seq<Resolution>,
    r: int,
)
    requires
        router.routes_for(config, keys, resolutions),
        0 <= r < router.route_list().len(),
    ensures
        exists|i: int, k: int| #[trigger]
            allows(config.peer@, i, k, router.route_list()[r].prefix) && {
                let peer = *router.route_list()[r].peer;
                &&& peer.name@ == config.peer@[i].name@
                &&& peer.excluded_ips@ == config.peer@[i].excluded_ips@
                &&& peer.persistent_keepalive == config.peer@[i].persistent_keepalive
                &&& peer.udp_rebind_after == config.peer@[i].udp_rebind_after
                &&& peer.session_timeout == config.peer@[i].session_timeout_seconds(
                    config.interface.transport,
                )
                &&& peer.configured_endpoint.text@ == config.peer@[i].endpoint.text@
                &&& resolutions[i].preferred() == Some(peer.endpoint)
                &&& keys.peers[i].psk == Some(peer.psk@)
                &&& keys.peers[i].public_key == Some(peer.public_key@)
            },
{
    broadcast use vstd::seq_lib::group_to_multiset_ensures;

    let n = config.peer@.len() as int;
    let list = allowed(config.peer@, n);
    let sorted = longest_first(list, 255);
    sorting_is_a_permutation(list);
    assert(sorted.to_multiset().contains(sorted[r]));
    assert(list.contains(sorted[r]));
    let at = list.index_of(sorted[r]);
    lemma_listed_origin(config.peer@, n, at);
    let i = sorted[r].1;
    let k = choose|k: int| #[trigger] allows(config.peer@, i, k, sorted[r].0);
    assert(allows(config.peer@, i, k, router.route_list()[r].prefix));
}

} // verus!

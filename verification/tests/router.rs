use hushwire::config::{
    Config, InterfaceConfig, PeerConfig, PeerEndpoint, Resolution, TransportConfig,
};
use hushwire::net::{IpAddr, Ipv4Addr, Ipv4Net, Ipv6Addr, SocketAddr};
use hushwire::router::{Router, RouterError};

const KEY: &str = "QkJCQkJCQkJCQkJCQkJCQkJCQkJCQkJCQkJCQkJCQkI=";

fn net(text: &str) -> Ipv4Net {
    let (address, length) = text.split_once('/').unwrap();
    Ipv4Net::new(ip(address), length.parse().unwrap()).unwrap()
}

fn ip(text: &str) -> Ipv4Addr {
    let octets: Vec<u8> = text.split('.').map(|part| part.parse().unwrap()).collect();
    Ipv4Addr::new(octets[0], octets[1], octets[2], octets[3])
}

fn endpoint(text: &str) -> SocketAddr {
    let (address, port) = text.split_once(':').unwrap();
    SocketAddr::V4 {
        ip: ip(address),
        port: port.parse().unwrap(),
    }
}

fn config(peers: Vec<PeerConfig>) -> Config {
    Config {
        interface: InterfaceConfig {
            name: "utun10".to_string(),
            address: net("10.77.0.1/24"),
            listen: endpoint("127.0.0.1:27777"),
            transport: TransportConfig::default(),
            mtu: 1280,
            private_key: KEY.to_string(),
        },
        gateway: None,
        peer: peers,
    }
}

/// Resolves endpoints that are written as addresses.
fn resolutions(config: &Config) -> Vec<Resolution> {
    config
        .peer
        .iter()
        .map(|peer| Resolution::Addresses(vec![endpoint(&peer.endpoint.text)]))
        .collect()
}

fn router(config: &Config) -> Result<Router, RouterError> {
    Router::new(config, &resolutions(config))
}

fn peer(name: &str, prefix: &str, endpoint: &str) -> PeerConfig {
    peer_multi(name, &[prefix], endpoint)
}

fn peer_multi(name: &str, prefixes: &[&str], endpoint: &str) -> PeerConfig {
    PeerConfig {
        name: name.to_string(),
        endpoint: PeerEndpoint {
            text: endpoint.to_string(),
        },
        allowed_ips: prefixes.iter().map(|p| net(p)).collect(),
        excluded_ips: vec![],
        psk: KEY.to_string(),
        public_key: KEY.to_string(),
        persistent_keepalive: 0,
        udp_rebind_after: 0,
        session_timeout: None,
    }
}

#[test]
fn picks_the_longest_matching_prefix() {
    let config = config(vec![
        peer("broad", "10.77.0.0/24", "127.0.0.1:27778"),
        peer("specific", "10.77.0.2/32", "127.0.0.1:27779"),
    ]);

    let router = router(&config).expect("router");
    let route = router
        .lookup(Ipv4Addr::new(10, 77, 0, 2))
        .expect("matching route");

    assert_eq!(route.peer.name, "specific");
    assert_eq!(route.prefix, net("10.77.0.2/32"));
}

#[test]
fn returns_none_when_no_route_matches() {
    let config = config(vec![peer("node-b", "10.77.0.2/32", "127.0.0.1:27778")]);

    let router = router(&config).expect("router");
    assert!(router.lookup(Ipv4Addr::new(8, 8, 8, 8)).is_none());
}

#[test]
fn handles_peer_with_multiple_allowed_ips() {
    let config = config(vec![peer_multi(
        "hub",
        &["10.77.0.0/24", "192.168.50.0/24"],
        "127.0.0.1:27778",
    )]);

    let router = router(&config).expect("router");
    let routes = router.routes();
    assert_eq!(routes.len(), 2);

    let in_tunnel = router.lookup(Ipv4Addr::new(10, 77, 0, 5)).expect("first");
    assert_eq!(in_tunnel.peer.name, "hub");
    assert_eq!(in_tunnel.prefix, net("10.77.0.0/24"));

    let remote = router
        .lookup(Ipv4Addr::new(192, 168, 50, 99))
        .expect("second");
    assert_eq!(remote.peer.name, "hub");
    assert_eq!(remote.prefix, net("192.168.50.0/24"));
}

#[test]
fn router_with_no_peers_has_no_routes() {
    let config = config(vec![]);

    let router = router(&config).expect("router");
    assert!(router.routes().is_empty());
    assert!(router.lookup(Ipv4Addr::new(10, 77, 0, 2)).is_none());
}

#[test]
fn rejects_duplicate_prefixes() {
    let config = config(vec![
        peer("first", "10.77.0.2/32", "127.0.0.1:27778"),
        peer("second", "10.77.0.2/32", "127.0.0.1:27779"),
    ]);

    assert!(matches!(
        router(&config),
        Err(RouterError::DuplicatePrefix { .. })
    ));
}

#[test]
fn resolves_dns_endpoint_once_when_building_router() {
    let config = config(vec![peer("node-b", "10.77.0.2/32", "localhost:27778")]);
    let found = vec![Resolution::Addresses(vec![
        SocketAddr::V6 {
            ip: Ipv6Addr { bits: 1 },
            port: 27778,
            flowinfo: 0,
            scope_id: 0,
        },
        endpoint("127.0.0.1:27778"),
    ])];

    let router = Router::new(&config, &found).expect("router");
    let peer = &router.routes()[0].peer;
    assert_eq!(peer.configured_endpoint.text, "localhost:27778");
    assert_eq!(peer.endpoint.port(), 27778);
    assert_eq!(peer.endpoint.ip(), IpAddr::V4(Ipv4Addr::new(127, 0, 0, 1)));
    assert!(peer.endpoint.is_ipv4());
}

#[test]
fn identifies_only_endpoints_captured_by_tunnel_routes() {
    let captured = config(vec![peer_multi(
        "home",
        &["10.0.0.1/32", "192.0.0.0/4"],
        "192.0.2.10:11063",
    )]);

    let router_of_captured = router(&captured).expect("router");
    let exceptions = router_of_captured.endpoint_exception_peers();
    assert_eq!(exceptions.len(), 1);
    assert_eq!(exceptions[0].name, "home");

    let uncaptured = Config {
        peer: vec![peer("home", "10.0.0.1/32", "192.0.2.10:11063")],
        ..captured
    };
    assert!(router(&uncaptured)
        .unwrap()
        .endpoint_exception_peers()
        .is_empty());
}

#[test]
fn excluded_ips_override_allowed_routes_without_hiding_other_destinations() {
    let mut home = peer("home", "0.0.0.0/0", "192.0.2.10:11063");
    home.excluded_ips = vec![net("10.0.0.0/8"), net("192.168.0.0/16")];
    let config = config(vec![home]);

    let router = router(&config).expect("router");
    assert!(router.lookup(ip("8.8.8.8")).is_some());
    assert!(router.lookup(ip("10.1.2.3")).is_none());
    assert!(router.lookup(ip("192.168.100.1")).is_none());
    assert_eq!(router.excluded_routes().len(), 2);
}

#[test]
fn more_specific_allowed_ip_overrides_a_broad_exclusion() {
    let mut home = peer_multi(
        "home",
        &["10.0.0.1/32", "172.16.1.8/32", "0.0.0.0/0"],
        "192.0.2.10:11063",
    );
    home.excluded_ips = vec![net("10.0.0.0/8"), net("172.16.0.0/12")];
    let config = config(vec![home]);

    let router = router(&config).expect("router");
    assert_eq!(
        router.lookup(ip("10.0.0.1")).unwrap().prefix,
        net("10.0.0.1/32")
    );
    assert_eq!(
        router.lookup(ip("172.16.1.8")).unwrap().prefix,
        net("172.16.1.8/32")
    );
    assert!(router.lookup(ip("10.0.0.2")).is_none());
    assert!(router.lookup(ip("172.16.1.9")).is_none());
}

#[test]
fn explicit_exclusion_also_prevents_redundant_endpoint_exception() {
    let mut home = peer("home", "0.0.0.0/0", "192.0.2.10:11063");
    home.excluded_ips = vec![net("192.0.2.0/24")];
    let config = config(vec![home]);

    let router = router(&config).expect("router");
    assert!(router.endpoint_exception_peers().is_empty());
}

#[test]
fn routes_are_sorted_longest_first() {
    let config = config(vec![peer_multi(
        "hub",
        &["0.0.0.0/0", "10.77.0.2/32", "10.77.0.0/24"],
        "127.0.0.1:27778",
    )]);
    let router = router(&config).unwrap();
    let lengths: Vec<u8> = router
        .routes()
        .iter()
        .map(|route| route.prefix.prefix_len)
        .collect();
    assert_eq!(lengths, vec![32, 24, 0]);
}

#[test]
fn an_unresolved_endpoint_is_reported() {
    let config = config(vec![peer("home", "10.0.0.1/32", "nowhere.invalid:1")]);
    let result = Router::new(&config, &vec![Resolution::Failed("unknown host".to_string())]);
    match result {
        Err(RouterError::EndpointResolution {
            peer,
            endpoint,
            source,
        }) => {
            assert_eq!(peer, "home");
            assert_eq!(endpoint.text, "nowhere.invalid:1");
            assert_eq!(source, "unknown host");
        }
        _ => panic!("expected an endpoint error"),
    }
}

#[test]
fn undecodable_keys_leave_no_router() {
    let mut bad = peer("home", "10.0.0.1/32", "192.0.2.10:11063");
    bad.psk = "AAAA".to_string();
    let config = config(vec![bad]);
    assert!(Router::for_config(&config, &resolutions(&config)).is_none());
    let good = Config {
        peer: vec![peer("home", "10.0.0.1/32", "192.0.2.10:11063")],
        ..config
    };
    assert!(Router::for_config(&good, &resolutions(&good)).unwrap().is_ok());
}

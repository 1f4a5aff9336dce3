use base64::engine::general_purpose::STANDARD;
use base64::Engine as _;

use hushwire::cli::{
    check_lines, encode_key, explain_route, genkey, key_pair_lines, plan_routes, route_line,
};
use hushwire::config::{
    Config, InterfaceConfig, PeerConfig, PeerEndpoint, Resolution, TransportConfig,
};
use hushwire::doctor::{
    check_routes, exit_node_heading, exit_node_lines, forwarding_is_on, full_tunnel_endpoints, header_lines,
    transport_name, HostRoute, Inspection,
};
use hushwire::firewall::{self, subnet_cidr, CleanupAction, FirewallManager};
use hushwire::net::{IpAddr, Ipv4Addr, Ipv4Net, Ipv6Addr, SocketAddr};
use hushwire::router::Router;
use hushwire::routing::{
    cleanup_routes, del_host_route, del_tun_route, parse_ip_route_get, parse_route_get, plan_setup,
    DeleteAction, DeleteEvent, Platform, RouteDelete, RouteInfoError, RouteKind, RouteManager,
    RouteStep, SetupAction,
};

fn net(a: u8, b: u8, c: u8, d: u8, length: u8) -> Ipv4Net {
    Ipv4Net::new(Ipv4Addr::new(a, b, c, d), length).unwrap()
}

fn v4(a: u8, b: u8, c: u8, d: u8, port: u16) -> SocketAddr {
    SocketAddr::V4 {
        ip: Ipv4Addr::new(a, b, c, d),
        port,
    }
}

fn config(allowed: Vec<Ipv4Net>, excluded: Vec<Ipv4Net>) -> Config {
    let peer = if allowed.is_empty() {
        vec![]
    } else {
        vec![PeerConfig {
            name: "home".to_string(),
            endpoint: PeerEndpoint {
                text: "192.0.2.10:11063".to_string(),
            },
            allowed_ips: allowed,
            excluded_ips: excluded,
            psk: STANDARD.encode([1; 32]),
            public_key: STANDARD.encode([2; 32]),
            persistent_keepalive: 0,
            udp_rebind_after: 0,
            session_timeout: None,
        }]
    };
    Config {
        interface: InterfaceConfig {
            name: "hw0".to_string(),
            address: net(10, 77, 0, 1, 24),
            listen: v4(0, 0, 0, 0, 27777),
            transport: TransportConfig::Udp,
            mtu: 1280,
            private_key: STANDARD.encode([3; 32]),
        },
        gateway: None,
        peer,
    }
}

fn router(config: &Config) -> Router {
    let resolutions = config
        .peer
        .iter()
        .map(|_| Resolution::Addresses(vec![v4(192, 0, 2, 10, 11063)]))
        .collect();
    Router::new(config, &resolutions).unwrap()
}

#[test]
fn addresses_print_as_usual() {
    assert_eq!(Ipv4Addr::new(10, 0, 200, 9).to_text(), "10.0.200.9");
    assert_eq!(v4(127, 0, 0, 1, 80).to_text(), "127.0.0.1:80");
    assert_eq!(net(10, 1, 2, 3, 8).to_text(), "10.1.2.3/8");
    assert_eq!(net(10, 1, 2, 3, 8).network().to_text(), "10.0.0.0");
    assert!(Ipv4Net::new(Ipv4Addr::new(0, 0, 0, 0), 33).is_none());
    for (bits, text) in [
        (0, "::"),
        (1, "::1"),
        (0x2001_0db8_0000_0000_0000_0000_0000_0005, "2001:db8::5"),
        (0x2001_0db8_0000_0001_0000_0000_0000_0000, "2001:db8:0:1::"),
        (0x0001_0000_0000_0001_0000_0000_0000_0001, "1:0:0:1::1"),
        (0x0001_0000_0002_0003_0004_0005_0006_0007, "1:0:2:3:4:5:6:7"),
        (0x0000_0000_0000_0000_0000_ffff_c000_0201, "::ffff:192.0.2.1"),
        (u128::MAX, "ffff:ffff:ffff:ffff:ffff:ffff:ffff:ffff"),
    ] {
        assert_eq!(Ipv6Addr { bits }.to_text(), text);
        assert_eq!(IpAddr::V6(Ipv6Addr { bits }).to_text(), text);
    }
    let scoped = |scope_id| SocketAddr::V6 {
        ip: Ipv6Addr { bits: 1 },
        port: 7,
        flowinfo: 0,
        scope_id,
    };
    assert_eq!(scoped(0).to_text(), "[::1]:7");
    assert_eq!(scoped(3).to_text(), "[::1%3]:7");
}

#[test]
fn prefixes_contain_their_addresses() {
    let all = net(1, 2, 3, 4, 0);
    assert!(all.contains(&Ipv4Addr::new(255, 0, 0, 1)));
    let one = net(1, 2, 3, 4, 32);
    assert!(one.contains(&Ipv4Addr::new(1, 2, 3, 4)));
    assert!(!one.contains(&Ipv4Addr::new(1, 2, 3, 5)));
    let some = net(10, 77, 3, 4, 20);
    assert!(some.contains(&Ipv4Addr::new(10, 77, 15, 255)));
    assert!(!some.contains(&Ipv4Addr::new(10, 77, 16, 0)));
    assert!(!v4(0, 0, 0, 0, 1).is_usable());
    assert!(!v4(1, 1, 1, 1, 0).is_usable());
    assert!(v4(1, 1, 1, 1, 1).is_usable());
}

#[test]
fn key_pairs_are_printed() {
    // A known pair: the secret of the first test vector of RFC 7748, 6.1.
    let secret: [u8; 32] = [
        0x77, 0x07, 0x6d, 0x0a, 0x73, 0x18, 0xa5, 0x7d, 0x3c, 0x16, 0xc1, 0x72, 0x51, 0xb2, 0x66,
        0x45, 0xdf, 0x4c, 0x2f, 0x87, 0xeb, 0xc0, 0x99, 0x2a, 0xb1, 0x77, 0xfb, 0xa5, 0x1d, 0xb9,
        0x2c, 0x2a,
    ];
    let public: [u8; 32] = [
        0x85, 0x20, 0xf0, 0x09, 0x89, 0x30, 0xa7, 0x54, 0x74, 0x8b, 0x7d, 0xdc, 0xb4, 0x3e, 0xf7,
        0x5a, 0x0d, 0xbf, 0x3a, 0x0d, 0x26, 0x38, 0x1a, 0xf4, 0xeb, 0xa4, 0xa9, 0x8e, 0xaa, 0x9b,
        0x4e, 0x6a,
    ];
    let lines = key_pair_lines(&secret);
    assert_eq!(lines[0], format!("PrivateKey = {}", STANDARD.encode(secret)));
    assert_eq!(lines[1], format!("PublicKey  = {}", STANDARD.encode(public)));
    assert_eq!(lines[2], "");
    assert_eq!(lines[3], "# Put PrivateKey in your [interface] section.");
    assert_eq!(
        lines[4],
        "# Put the peer's PublicKey in their [[peer]] section."
    );
    assert_eq!(
        encode_key(&[0x42; 32]),
        "QkJCQkJCQkJCQkJCQkJCQkJCQkJCQkJCQkJCQkJCQkI="
    );
}

#[test]
fn generated_keys_differ() {
    let first = genkey();
    let second = genkey();
    assert_eq!(first.len(), 5);
    assert_ne!(first[0], second[0]);
    assert_ne!(first[0], format!("PrivateKey = {}", STANDARD.encode([0; 32])));
}

#[test]
fn routes_are_told_and_explained() {
    let config = config(vec![net(10, 0, 0, 0, 8)], vec![]);
    let router = router(&config);
    assert_eq!(
        check_lines(&config, &router),
        vec![
            "config ok",
            "interface: hw0",
            "listen: 0.0.0.0:27777",
            "routes: 1"
        ]
    );
    assert_eq!(
        route_line(&router, Ipv4Addr::new(10, 1, 1, 1)),
        "10.1.1.1 -> peer=home endpoint=192.0.2.10:11063 via=10.0.0.0/8"
    );
    assert_eq!(
        route_line(&router, Ipv4Addr::new(8, 8, 8, 8)),
        "8.8.8.8 -> no route"
    );
    assert_eq!(
        explain_route(&config, &router, Ipv4Addr::new(10, 1, 1, 1)),
        vec![
            "Config: hw0",
            "Destination: 10.1.1.1",
            "Local tunnel address: 10.77.0.1",
            "Transport: Udp listening on 0.0.0.0:27777",
            "Decision: send",
            "Reason: 10.1.1.1 matches allowed_ips entry 10.0.0.0/8.",
            "Peer: home",
            "Peer endpoint: 192.0.2.10:11063",
        ]
    );
    assert_eq!(
        explain_route(&config, &router, Ipv4Addr::new(8, 8, 8, 8))[4..],
        [
            "Decision: drop",
            "Reason: no peer allowed_ips entry matches 8.8.8.8.",
            "Configured routes:",
            "  10.0.0.0/8 -> home",
        ]
    );
}

#[test]
fn an_empty_configuration_is_explained_too() {
    let config = config(vec![], vec![]);
    let router = router(&config);
    assert_eq!(
        explain_route(&config, &router, Ipv4Addr::new(8, 8, 8, 8))[6..],
        ["Configured routes: none"]
    );
    assert_eq!(
        plan_routes(&config, &router),
        vec![
            "Interface: hw0",
            "Tunnel address: 10.77.0.1/24",
            "Transport listen: 0.0.0.0:27777",
            "No allowed_ips routes are configured.",
        ]
    );
    assert_eq!(
        check_routes(&config, &router, &vec![]),
        vec!["WARN no peer allowed_ips routes are configured"]
    );
}

#[test]
fn route_plans_cover_hosts_networks_and_everything() {
    let config = config(
        vec![net(10, 0, 0, 1, 32), net(172, 16, 0, 0, 12), net(0, 0, 0, 0, 0)],
        vec![net(192, 168, 0, 0, 16)],
    );
    let router = router(&config);
    assert_eq!(
        plan_routes(&config, &router),
        vec![
            "Interface: hw0",
            "Tunnel address: 10.77.0.1/24",
            "Transport listen: 0.0.0.0:27777",
            "",
            "Routes HushWire will use internally:",
            "  10.0.0.1/32 -> peer home (192.0.2.10:11063)",
            "  172.16.0.0/12 -> peer home (192.0.2.10:11063)",
            "  0.0.0.0/0 -> peer home (192.0.2.10:11063)",
            "",
            "Configured routes that remain on the physical network:",
            "  192.168.0.0/16 (excluded from peer home)",
            "",
            "Host routes you need outside HushWire:",
            "  sudo route add -host 10.0.0.1 -interface hw0",
            "  sudo route add -net 172.16.0.0/12 -interface hw0",
            "",
            "Full-tunnel route detected: 0.0.0.0/0",
            "Before replacing the default route, keep the peer endpoint reachable outside the tunnel:",
            "  sudo route add -host 192.0.2.10 <current_gateway>",
            "Then route default traffic into the TUN interface:",
            "  sudo route add default -interface hw0",
            "If your OS already has a default route, replace/add semantics may differ.",
            "",
            "Exit-node peer requirements:",
            "  enable IPv4 forwarding",
            "  enable NAT/masquerade from the tunnel subnet to the outbound interface",
        ]
    );
}

#[test]
fn the_doctor_inspects_full_tunnels() {
    let full = config(vec![net(0, 0, 0, 0, 0)], vec![]);
    let full_router = router(&full);
    assert_eq!(
        header_lines(&full),
        vec![
            "HushWire doctor",
            "Interface: hw0",
            "Tunnel address: 10.77.0.1/24",
            "Transport: Udp 0.0.0.0:27777",
            "",
        ]
    );
    assert_eq!(transport_name(TransportConfig::Tcp), "Tcp");
    assert_eq!(
        full_tunnel_endpoints(&full_router),
        vec![IpAddr::V4(Ipv4Addr::new(192, 0, 2, 10))]
    );
    let looping = HostRoute {
        output: "192.0.2.10 dev hw0\n    cache\n".to_string(),
    };
    assert!(looping.uses_interface("hw0"));
    assert!(!looping.uses_interface("hw"));
    assert_eq!(
        check_routes(&full, &full_router, &vec![Inspection::Found(looping)]),
        vec![
            "Configured HushWire routes:",
            "  0.0.0.0/0 -> home (192.0.2.10:11063)",
            "WARN full-tunnel route configured",
            "  before routing default traffic into hw0, add endpoint exception routes:",
            "  endpoint 192.0.2.10 for peer home",
            "  FAIL current host route appears to use hw0; this can loop the tunnel",
            "    192.0.2.10 dev hw0",
            "  suggested macOS exception:",
            "    sudo route add -host 192.0.2.10 <current_gateway>",
        ]
    );
    let fine = HostRoute {
        output: "   gateway: 192.168.1.1\n  interface: en0\n".to_string(),
    };
    assert!(fine.uses_interface("en0"));
    assert_eq!(
        fine.summary_lines(),
        vec!["gateway: 192.168.1.1", "interface: en0"]
    );
    assert_eq!(
        check_routes(&full, &full_router, &vec![Inspection::Found(fine)])[5],
        "  OK current host route does not appear to use hw0"
    );
    assert_eq!(
        check_routes(
            &full,
            &full_router,
            &vec![Inspection::Failed("no route".to_string())]
        )[5],
        "  WARN could not inspect host route: no route"
    );
    let split = config(vec![net(10, 0, 0, 0, 8)], vec![]);
    assert_eq!(
        check_routes(&split, &router(&split), &vec![])[2],
        "OK no full-tunnel route configured"
    );
}

#[test]
fn the_doctor_checks_exit_nodes() {
    assert!(forwarding_is_on("1\n"));
    assert!(!forwarding_is_on("0\n"));
    let config = config(vec![], vec![]);
    let on = exit_node_lines(&config, Some(true));
    assert_eq!(exit_node_heading(), vec!["", "Exit-node checks:"]);
    assert_eq!(on[0], "OK IPv4 forwarding appears enabled");
    assert_eq!(on[1], "NAT: manual check required");
    assert_eq!(
        on.last().unwrap(),
        "  tunnel subnet 10.77.0.0 must be masqueraded/NATed to the outbound interface"
    );
    let off = exit_node_lines(&config, Some(false));
    assert!(off.contains(&"FAIL IPv4 forwarding appears disabled".to_string()));
    assert!(off.contains(&"  Linux: sudo sysctl -w net.ipv4.ip_forward=1".to_string()));
    assert!(exit_node_lines(&config, None)
        .contains(&"WARN IPv4 forwarding status is unknown on this OS".to_string()));
}

#[test]
fn exit_nodes_forward_and_masquerade() {
    assert_eq!(subnet_cidr(&net(10, 77, 0, 1, 24)), "10.77.0.0/24");
    let mut manager = FirewallManager::new("hw0".to_string(), "10.77.0.0/24".to_string());
    assert!(matches!(
        manager.setup(Some("0".to_string())),
        firewall::SetupAction::EnableForwarding
    ));
    let rule = |action: firewall::SetupAction| match action {
        firewall::SetupAction::AddRule(args) => args.join(" "),
        _ => panic!("expected a rule"),
    };
    assert_eq!(
        rule(manager.forwarding_enabled()),
        "-t nat -A POSTROUTING -s 10.77.0.0/24 ! -o hw0 -j MASQUERADE"
    );
    assert_eq!(rule(manager.rule_added()), "-A FORWARD -i hw0 -j ACCEPT");
    assert_eq!(rule(manager.rule_added()), "-A FORWARD -o hw0 -j ACCEPT");
    assert!(matches!(
        manager.rule_added(),
        firewall::SetupAction::Finished
    ));
    let steps: Vec<String> = manager
        .cleanup()
        .into_iter()
        .map(|action| match action {
            CleanupAction::DeleteRule(args) => args.join(" "),
            CleanupAction::RestoreForwarding(value) => format!("forwarding {value}"),
        })
        .collect();
    assert_eq!(
        steps,
        vec![
            "-t nat -D POSTROUTING -s 10.77.0.0/24 ! -o hw0 -j MASQUERADE",
            "-D FORWARD -i hw0 -j ACCEPT",
            "-D FORWARD -o hw0 -j ACCEPT",
            "forwarding 0",
        ]
    );
}

#[test]
fn forwarding_that_is_on_stays_as_it_is() {
    let mut manager = FirewallManager::new("hw0".to_string(), "10.77.0.0/24".to_string());
    assert!(matches!(
        manager.setup(Some("1".to_string())),
        firewall::SetupAction::AddRule(_)
    ));
    let mut unknown = FirewallManager::new("hw0".to_string(), "10.77.0.0/24".to_string());
    assert!(matches!(
        unknown.setup(None),
        firewall::SetupAction::EnableForwarding
    ));
    assert!(unknown.cleanup().is_empty());
}

#[test]
fn a_second_setup_adds_the_rules_once_more() {
    let mut manager = FirewallManager::new("hw0".to_string(), "10.77.0.0/24".to_string());
    manager.setup(Some("1".to_string()));
    manager.rule_added();
    let again = manager.setup(Some("0".to_string()));
    assert!(matches!(again, firewall::SetupAction::EnableForwarding));
    assert!(matches!(
        manager.forwarding_enabled(),
        firewall::SetupAction::AddRule(args) if args[0] == "-t"
    ));
    manager.rule_added();
    manager.rule_added();
    assert!(matches!(
        manager.rule_added(),
        firewall::SetupAction::Finished
    ));
    let steps: Vec<String> = manager
        .cleanup()
        .into_iter()
        .map(|action| match action {
            CleanupAction::DeleteRule(args) => args.join(" "),
            CleanupAction::RestoreForwarding(value) => format!("forwarding {value}"),
        })
        .collect();
    assert_eq!(
        steps,
        vec![
            "-t nat -D POSTROUTING -s 10.77.0.0/24 ! -o hw0 -j MASQUERADE",
            "-t nat -D POSTROUTING -s 10.77.0.0/24 ! -o hw0 -j MASQUERADE",
            "-D FORWARD -i hw0 -j ACCEPT",
            "-D FORWARD -o hw0 -j ACCEPT",
            "forwarding 0",
        ]
    );
}

#[test]
fn routes_are_installed_exceptions_first() {
    let config = config(
        vec![net(0, 0, 0, 0, 0), net(10, 9, 8, 7, 32)],
        vec![net(192, 168, 0, 0, 16)],
    );
    let router = router(&config);
    assert_eq!(
        plan_setup(&router),
        vec![
            RouteStep::Exclude(net(192, 168, 0, 0, 16)),
            RouteStep::Except(IpAddr::V4(Ipv4Addr::new(192, 0, 2, 10))),
            RouteStep::Tunnel(net(10, 9, 8, 7, 32)),
            RouteStep::Tunnel(net(0, 0, 0, 0, 1)),
            RouteStep::Tunnel(net(128, 0, 0, 0, 1)),
        ]
    );

    let mut manager = RouteManager::new("hw0".to_string());
    match manager.setup(&router, Platform::Linux) {
        SetupAction::LookUp(probe) => assert_eq!(probe, "192.168.0.1"),
        _ => panic!("expected a lookup"),
    }
    assert_eq!(
        manager
            .route_found(Platform::Linux, Some("192.0.2.254"), "eth0".to_string())
            .join(" "),
        "route add 192.168.0.0/16 via 192.0.2.254 dev eth0"
    );
    match manager.route_added(Platform::Linux) {
        SetupAction::LookUp(probe) => assert_eq!(probe, "192.0.2.10"),
        _ => panic!("expected a lookup"),
    }
    assert_eq!(
        manager
            .route_found(Platform::Linux, None, "eth0".to_string())
            .join(" "),
        "route add 192.0.2.10 dev eth0"
    );
    match manager.route_added(Platform::Linux) {
        SetupAction::Add(args) => assert_eq!(args.join(" "), "route add 10.9.8.7/32 dev hw0"),
        _ => panic!("expected a route"),
    }
    assert_eq!(manager.installed().len(), 2);
    assert_eq!(manager.installed()[0].kind, RouteKind::ExcludedPrefix);
    assert_eq!(manager.installed()[0].tun_name, "eth0");
    let deletions: Vec<String> = manager
        .setup_failed(Platform::Linux)
        .into_iter()
        .map(|deletion| deletion.args.join(" "))
        .collect();
    assert_eq!(
        deletions,
        vec![
            "route del 192.0.2.10",
            "route del 192.168.0.0/16 dev eth0"
        ]
    );
    assert!(manager.installed().is_empty());
    assert!(cleanup_routes(Platform::Linux, manager.installed()).is_empty());
}

#[test]
fn deletions_differ_by_platform() {
    assert_eq!(
        del_tun_route(Platform::Linux, "10.0.0.0/8", "hw0").args.join(" "),
        "route del 10.0.0.0/8 dev hw0"
    );
    assert_eq!(
        del_tun_route(Platform::MacOs, "10.0.0.0/8", "utun4").args.join(" "),
        "delete -net 10.0.0.0/8 -interface utun4"
    );
    assert_eq!(
        del_host_route(Platform::MacOs, "192.0.2.1").args.join(" "),
        "delete -host 192.0.2.1"
    );
}

#[test]
fn stubborn_routes_are_deleted_three_times() {
    let (mut delete, first) = RouteDelete::start();
    assert_eq!(first, DeleteAction::Run);
    assert_eq!(delete.next(DeleteEvent::CommandFailed), DeleteAction::Check);
    assert_eq!(
        delete.next(DeleteEvent::StillThere(true)),
        DeleteAction::WaitAndRun
    );
    assert_eq!(delete.next(DeleteEvent::CommandFailed), DeleteAction::Check);
    assert_eq!(
        delete.next(DeleteEvent::CheckFailed),
        DeleteAction::WaitAndRun
    );
    assert_eq!(delete.next(DeleteEvent::CommandFailed), DeleteAction::Check);
    assert_eq!(
        delete.next(DeleteEvent::CheckFailed),
        DeleteAction::Fail { check_failed: true }
    );
    let (mut gone, _) = RouteDelete::start();
    assert_eq!(gone.next(DeleteEvent::CommandFailed), DeleteAction::Check);
    assert_eq!(
        gone.next(DeleteEvent::StillThere(false)),
        DeleteAction::Succeed
    );
    let (mut quick, _) = RouteDelete::start();
    assert_eq!(quick.next(DeleteEvent::Deleted), DeleteAction::Succeed);
}

#[test]
fn route_answers_are_parsed() {
    assert_eq!(
        parse_ip_route_get("192.0.2.10 via 192.168.1.1 dev eth0 src 192.168.1.5 uid 0\n    cache\n"),
        Ok((Some("192.168.1.1".to_string()), "eth0".to_string()))
    );
    assert_eq!(
        parse_ip_route_get("192.0.2.10 dev eth0 src 192.168.1.5\n"),
        Ok((None, "eth0".to_string()))
    );
    assert_eq!(parse_ip_route_get(""), Err(RouteInfoError::Empty));
    assert_eq!(
        parse_ip_route_get("unreachable dev\n"),
        Err(RouteInfoError::NoDevice)
    );
    assert_eq!(
        parse_route_get("   route to: 192.0.2.10\n    gateway: 192.168.1.1\n  interface: en0\n"),
        Ok((Some("192.168.1.1".to_string()), "en0".to_string()))
    );
    assert_eq!(
        parse_route_get("   gateway: 192.168.1.1\n"),
        Err(RouteInfoError::NoDevice)
    );
}

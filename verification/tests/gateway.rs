use hushwire::config::{Config, GatewayConfig, InterfaceConfig, TransportConfig};
use hushwire::gateway::{
    count_owned_rules, delete_number_args, first_owned_rule, forwarding_assignment,
    forwarding_to_restore, iptables_line_has_owner, is_marker_file, list_args, lock_file_name,
    marker_contents, marker_file_name, namespace_digits, original_file_name, owned_rule_locations,
    parse_interface_mtu, parse_ip_frag_fails, removed_lines, rule_presence, trimmed_text,
    ApplyAction, ApplyEvent, GatewayApply, GatewayError, GatewayFindings, GatewayPlan,
    GatewayRemoval, OwnedSweep, PreflightError, RemoveAction, RemoveEvent, SnmpError, SweepAction,
};
use hushwire::net::{Ipv4Addr, Ipv4Net, SocketAddr};

fn config(mtu: u16, tcp_mss: Option<u16>) -> Config {
    Config {
        interface: InterfaceConfig {
            name: "stb0".to_string(),
            address: Ipv4Net::new(Ipv4Addr::new(10, 77, 4, 2), 30).unwrap(),
            listen: SocketAddr::V4 {
                ip: Ipv4Addr::new(0, 0, 0, 0),
                port: 27779,
            },
            transport: TransportConfig::Udp,
            mtu,
            private_key: "QkJCQkJCQkJCQkJCQkJCQkJCQkJCQkJCQkJCQkJCQkI=".to_string(),
        },
        gateway: Some(GatewayConfig {
            lan_interface: "eth0".to_string(),
            tcp_mss,
        }),
        peer: vec![],
    }
}

#[test]
fn derives_ipv4_mss_from_tunnel_mtu() {
    let plan = GatewayPlan::from_config(&config(1280, None)).unwrap();
    assert_eq!(plan.tcp_mss, 1240);
    assert!(!plan.tcp_mss_is_explicit);
}

#[test]
fn accepts_conservative_explicit_mss() {
    let plan = GatewayPlan::from_config(&config(1280, Some(1160))).unwrap();
    assert_eq!(plan.tcp_mss, 1160);
    assert!(plan.tcp_mss_is_explicit);
}

#[test]
fn creates_bidirectional_owned_mss_rules() {
    let plan = GatewayPlan::from_config(&config(1280, Some(1160))).unwrap();
    let rendered: Vec<_> = plan.rules.iter().map(|rule| rule.render("-A")).collect();
    assert!(rendered.iter().any(|rule| {
        rule.contains("-t mangle -A FORWARD -i eth0 -o stb0") && rule.contains("--set-mss 1160")
    }));
    assert!(rendered.iter().any(|rule| {
        rule.contains("-t mangle -A FORWARD -i stb0 -o eth0") && rule.contains("--set-mss 1160")
    }));
    assert!(rendered
        .iter()
        .all(|rule| rule.contains("hushwire-gateway:stb0")));
}

#[test]
fn matches_only_the_exact_owned_comment() {
    assert!(iptables_line_has_owner(
        r#"-A FORWARD -m comment --comment "hushwire-gateway:stb0" -j ACCEPT"#,
        "hushwire-gateway:stb0"
    ));
    assert!(!iptables_line_has_owner(
        "-A FORWARD -m comment --comment hushwire-gateway:stb01 -j ACCEPT",
        "hushwire-gateway:stb0"
    ));
}

#[test]
fn parses_linux_fragment_failure_counter() {
    let sample = "Ip: Forwarding DefaultTTL InReceives FragOKs FragFails FragCreates\n\
                  Ip: 1 64 10 2 4275 4\n";
    assert_eq!(parse_ip_frag_fails(sample).unwrap(), Some(4275));
}

#[test]
fn refuses_an_unsafe_mss_and_a_missing_section() {
    assert_eq!(
        GatewayPlan::from_config(&config(1280, Some(1241))).err(),
        Some(GatewayError::MssOutOfRange {
            tcp_mss: 1241,
            maximum_mss: 1240,
            tunnel_mtu: 1280
        })
    );
    assert_eq!(
        GatewayPlan::from_config(&config(1280, Some(535))).err(),
        Some(GatewayError::MssOutOfRange {
            tcp_mss: 535,
            maximum_mss: 1240,
            tunnel_mtu: 1280
        })
    );
    assert_eq!(
        GatewayPlan::from_config(&config(39, None)).err(),
        Some(GatewayError::MtuTooSmall)
    );
    let mut client = config(1280, None);
    client.gateway = None;
    assert_eq!(
        GatewayPlan::from_config(&client).err(),
        Some(GatewayError::NoGatewaySection)
    );
}

#[test]
fn fragment_counters_may_be_missing_or_malformed() {
    assert_eq!(parse_ip_frag_fails("Tcp: a b\nTcp: 1 2\n"), Ok(None));
    assert_eq!(parse_ip_frag_fails("Ip: Forwarding FragFails\nIp: 1\n"), Err(SnmpError::FieldCountMismatch));
    assert_eq!(parse_ip_frag_fails("Ip: FragFails\nIp: many\n"), Err(SnmpError::NotANumber));
}

fn plan() -> GatewayPlan {
    GatewayPlan::from_config(&config(1280, Some(1160))).unwrap()
}

#[test]
fn rules_render_in_full() {
    let rendered: Vec<String> = plan().rules.iter().map(|rule| rule.render("-A")).collect();
    assert_eq!(
        rendered,
        vec![
            "iptables --wait 5 -t mangle -A FORWARD -i eth0 -o stb0 -p tcp --tcp-flags SYN,RST SYN -m comment --comment hushwire-gateway:stb0 -j TCPMSS --set-mss 1160",
            "iptables --wait 5 -t mangle -A FORWARD -i stb0 -o eth0 -p tcp --tcp-flags SYN,RST SYN -m comment --comment hushwire-gateway:stb0 -j TCPMSS --set-mss 1160",
            "iptables --wait 5 -t nat -A POSTROUTING -o stb0 -m comment --comment hushwire-gateway:stb0 -j MASQUERADE",
            "iptables --wait 5 -A FORWARD -i eth0 -o stb0 -m comment --comment hushwire-gateway:stb0 -j ACCEPT",
            "iptables --wait 5 -A FORWARD -i stb0 -o eth0 -m conntrack --ctstate RELATED,ESTABLISHED -m comment --comment hushwire-gateway:stb0 -j ACCEPT",
        ]
    );
    let locations = owned_rule_locations();
    assert_eq!(
        list_args(&locations[1]),
        vec!["--wait", "5", "-t", "nat", "-S", "POSTROUTING"]
    );
    assert_eq!(
        delete_number_args(&locations[2], 12),
        vec!["--wait", "5", "-D", "FORWARD", "12"]
    );
    assert_eq!(rule_presence(Some(0)), Some(true));
    assert_eq!(rule_presence(Some(1)), Some(false));
    assert_eq!(rule_presence(Some(2)), None);
    assert_eq!(rule_presence(None), None);
}

#[test]
fn plans_print_what_they_would_do() {
    let lines = GatewayPlan::from_config(&config(1280, None))
        .unwrap()
        .plan_lines();
    assert_eq!(lines[0], "HushWire gateway plan");
    assert_eq!(lines[1], "LAN interface: eth0");
    assert_eq!(lines[2], "Tunnel interface: stb0");
    assert_eq!(lines[3], "Tunnel MTU: 1280");
    assert_eq!(lines[4], "TCP MSS: 1240 (automatic: tunnel MTU - 40)");
    assert_eq!(lines[5], "Rule owner: hushwire-gateway:stb0");
    assert_eq!(lines[6], "");
    assert_eq!(lines[7], "Changes when applied:");
    assert_eq!(lines[8], "  enable net.ipv4.ip_forward");
    assert_eq!(lines.len(), 16);
    assert_eq!(lines[15], "No changes made by plan.");
    assert_eq!(plan().plan_lines()[4], "TCP MSS: 1160 (explicit)");
    assert_eq!(
        plan().applied_lines(),
        vec![
            "gateway applied",
            "  eth0 -> stb0",
            "  TCP MSS 1160 in both directions",
            "  5 owned firewall rules active",
        ]
    );
    assert_eq!(
        removed_lines(3, Some("0")),
        vec![
            "gateway removed",
            "  removed 3 owned firewall rules",
            "  restored net.ipv4.ip_forward=0",
        ]
    );
    assert_eq!(
        removed_lines(0, None)[2],
        "  left shared net.ipv4.ip_forward unchanged"
    );
}

fn findings() -> GatewayFindings {
    GatewayFindings {
        forwarding: "1".to_string(),
        lan_interface_exists: true,
        tunnel_mtu: Some(1280),
        state_recorded: true,
        owned_rule_count: 5,
        rules_present: vec![true; 5],
    }
}

#[test]
fn status_tells_what_is_wrong() {
    let plan = plan();
    let status = plan.status(&findings());
    assert!(status.healthy());
    let lines = plan.status_lines(&status, Some(7));
    assert_eq!(
        lines,
        vec![
            "HushWire gateway status",
            "OK IPv4 forwarding",
            "OK LAN interface eth0",
            "OK tunnel interface stb0",
            "OK tunnel MTU 1280",
            "OK LAN to tunnel TCP MSS",
            "OK tunnel to LAN TCP MSS",
            "OK tunnel masquerade",
            "OK LAN to tunnel forwarding",
            "OK established return forwarding",
            "OK 5 owned firewall rules",
            "OK gateway state record",
            "INFO cumulative IPv4 fragmentation failures: 7",
        ]
    );

    let mut broken = findings();
    broken.forwarding = "0".to_string();
    broken.lan_interface_exists = false;
    broken.tunnel_mtu = Some(1400);
    broken.state_recorded = false;
    broken.owned_rule_count = 4;
    broken.rules_present[2] = false;
    let status = plan.status(&broken);
    assert!(!status.healthy());
    let lines = plan.status_lines(&status, None);
    assert_eq!(lines[1], "FAIL IPv4 forwarding");
    assert_eq!(lines[2], "FAIL LAN interface eth0");
    assert_eq!(lines[4], "FAIL tunnel MTU 1400; configuration expects 1280");
    assert_eq!(lines[7], "FAIL tunnel masquerade");
    assert_eq!(
        lines[10],
        "FAIL found 4 owned firewall rules; expected exactly 5"
    );
    assert_eq!(lines[11], "WARN gateway state record");
    assert_eq!(lines.len(), 12);

    let mut missing = findings();
    missing.tunnel_mtu = None;
    let status = plan.status(&missing);
    assert!(!status.healthy());
    assert_eq!(
        plan.status_lines(&status, None)[4],
        "FAIL tunnel MTU unavailable; configuration expects 1280"
    );
}

#[test]
fn preflight_refuses_missing_interfaces_and_other_mtus() {
    let plan = plan();
    assert!(plan.preflight_interfaces(true, Some(1280)).is_ok());
    assert!(matches!(
        plan.preflight_interfaces(false, None),
        Err(PreflightError::NoInterface(name)) if name == "eth0"
    ));
    assert!(matches!(
        plan.preflight_interfaces(true, None),
        Err(PreflightError::NoInterface(name)) if name == "stb0"
    ));
    assert!(matches!(
        plan.preflight_interfaces(true, Some(1500)),
        Err(PreflightError::WrongMtu {
            actual: 1500,
            expected: 1280
        })
    ));
}

const LISTING: &str = "-P FORWARD ACCEPT\n\
    -A FORWARD -i eth0 -j ACCEPT\n\
    -A FORWARD -m comment --comment hushwire-gateway:stb0 -j ACCEPT\n\
    -A FORWARD -m comment --comment \"hushwire-gateway:stb0\" -j DROP\n";

#[test]
fn owned_rules_are_counted_and_numbered() {
    assert_eq!(count_owned_rules(LISTING, "hushwire-gateway:stb0"), 2);
    assert_eq!(first_owned_rule(LISTING, "hushwire-gateway:stb0"), Some(2));
    assert_eq!(first_owned_rule(LISTING, "hushwire-gateway:stb1"), None);
}

#[test]
fn a_sweep_deletes_owned_rules_location_by_location() {
    let owner = "hushwire-gateway:stb0";
    let mut sweep = OwnedSweep::new();
    assert_eq!(
        sweep.on_listing(LISTING, owner),
        SweepAction::Delete {
            location: 0,
            number: 2
        }
    );
    assert_eq!(sweep.on_deleted(), SweepAction::List(0));
    assert_eq!(sweep.on_listing("", owner), SweepAction::List(1));
    assert_eq!(sweep.on_listing("", owner), SweepAction::List(2));
    assert_eq!(sweep.on_listing("", owner), SweepAction::Finished(1));
}

#[test]
fn a_sweep_refuses_endless_deletion() {
    let owner = "hushwire-gateway:stb0";
    let mut sweep = OwnedSweep::new();
    for _ in 0..128 {
        assert!(matches!(
            sweep.on_listing(LISTING, owner),
            SweepAction::Delete { .. }
        ));
        assert_eq!(sweep.on_deleted(), SweepAction::List(0));
    }
    sweep.on_listing(LISTING, owner);
    assert_eq!(sweep.on_deleted(), SweepAction::Refuse);
}

#[test]
fn applying_checks_sweeps_adds_and_forwards() {
    let (mut apply, first) = GatewayApply::start(2, "0", true, true);
    assert_eq!(first, ApplyAction::CheckRule(0));
    assert_eq!(
        apply.next(ApplyEvent::Presence(true)),
        ApplyAction::CheckRule(1)
    );
    assert_eq!(
        apply.next(ApplyEvent::Presence(false)),
        ApplyAction::CountOwned
    );
    assert_eq!(apply.next(ApplyEvent::Owned(1)), ApplyAction::RemoveOwned);
    assert_eq!(apply.next(ApplyEvent::Done), ApplyAction::CheckRule(0));
    assert_eq!(
        apply.next(ApplyEvent::Presence(false)),
        ApplyAction::AddRule(0)
    );
    assert_eq!(apply.next(ApplyEvent::Done), ApplyAction::CheckRule(1));
    assert_eq!(
        apply.next(ApplyEvent::Presence(false)),
        ApplyAction::AddRule(1)
    );
    assert_eq!(apply.next(ApplyEvent::Done), ApplyAction::EnableForwarding);
    assert_eq!(apply.next(ApplyEvent::Done), ApplyAction::Succeed);
}

#[test]
fn an_applied_gateway_is_left_alone() {
    let (mut apply, _) = GatewayApply::start(1, "1", false, false);
    assert_eq!(
        apply.next(ApplyEvent::Presence(true)),
        ApplyAction::CountOwned
    );
    assert_eq!(apply.next(ApplyEvent::Owned(1)), ApplyAction::CheckRule(0));
    assert_eq!(apply.next(ApplyEvent::Presence(true)), ApplyAction::Succeed);
}

#[test]
fn a_failed_application_is_rolled_back() {
    let (mut apply, _) = GatewayApply::start(2, "0", true, true);
    apply.next(ApplyEvent::Presence(true));
    apply.next(ApplyEvent::Presence(true));
    assert_eq!(apply.next(ApplyEvent::Owned(3)), ApplyAction::RemoveOwned);
    assert_eq!(apply.next(ApplyEvent::Done), ApplyAction::CheckRule(0));
    apply.next(ApplyEvent::Presence(false));
    apply.next(ApplyEvent::Done);
    apply.next(ApplyEvent::Presence(false));
    assert_eq!(apply.next(ApplyEvent::Done), ApplyAction::EnableForwarding);
    assert_eq!(apply.next(ApplyEvent::Failed), ApplyAction::DeleteRule(1));
    assert_eq!(apply.next(ApplyEvent::Done), ApplyAction::DeleteRule(0));
    assert_eq!(apply.next(ApplyEvent::Failed), ApplyAction::RemoveMarker);
    assert_eq!(apply.next(ApplyEvent::Done), ApplyAction::LookForMarkers);
    assert_eq!(
        apply.next(ApplyEvent::Markers(false)),
        ApplyAction::RestoreForwarding
    );
    assert_eq!(apply.next(ApplyEvent::Done), ApplyAction::RemoveOriginal);
    assert_eq!(apply.next(ApplyEvent::Done), ApplyAction::GiveUp);
}

#[test]
fn state_files_have_their_names() {
    assert_eq!(namespace_digits("net:[4026531840]").unwrap(), "4026531840");
    assert!(namespace_digits("net:[]").is_none());
    let marker = marker_file_name("42", "stb0");
    assert_eq!(marker, "gateway-42-stb0.state");
    assert!(is_marker_file(&marker, "42"));
    assert!(!is_marker_file(&marker, "4"));
    assert!(!is_marker_file("gateway-42.lock", "42"));
    assert_eq!(original_file_name("42"), "ip-forward-42.original");
    assert_eq!(lock_file_name("42"), "gateway-42.lock");
    assert_eq!(
        marker_contents(&plan(), "42"),
        "version=1\nnamespace=42\nlan_interface=eth0\ntunnel_interface=stb0\ntunnel_mtu=1280\ntcp_mss=1160\n"
    );
}

#[test]
fn system_files_are_read_leniently() {
    assert_eq!(parse_interface_mtu("1280\n"), Some(1280));
    assert_eq!(parse_interface_mtu(" 65535 "), Some(65535));
    assert_eq!(parse_interface_mtu("65536"), None);
    assert_eq!(parse_interface_mtu("-1"), None);
    assert_eq!(parse_interface_mtu("+7"), Some(7));
    assert_eq!(parse_interface_mtu(""), None);
    assert_eq!(trimmed_text(" 1\n"), "1");
    assert_eq!(forwarding_assignment("1"), "net.ipv4.ip_forward=1");
    assert_eq!(forwarding_to_restore("0\n").unwrap(), "0");
    assert_eq!(forwarding_to_restore(" 1 ").unwrap(), "1");
    assert!(forwarding_to_restore("2").is_none());
}

/// Runs a removal to its end and gives what it asked for.
fn removal(marker: bool, recorded: bool, other_markers: bool, contents: &str) -> Vec<String> {
    let (mut removal, mut action) = GatewayRemoval::start();
    let mut asked = vec![];
    loop {
        let (name, event) = match action {
            RemoveAction::RemoveOwned => ("sweep".to_string(), RemoveEvent::Removed(5)),
            RemoveAction::FindMarker => ("find marker".to_string(), RemoveEvent::Exists(marker)),
            RemoveAction::RemoveMarker => ("unmark".to_string(), RemoveEvent::Done),
            RemoveAction::FindOriginal => {
                ("find original".to_string(), RemoveEvent::Exists(recorded))
            }
            RemoveAction::LookForMarkers => {
                ("look".to_string(), RemoveEvent::Exists(other_markers))
            }
            RemoveAction::ReadOriginal => {
                ("read".to_string(), RemoveEvent::Contents(contents.to_string()))
            }
            RemoveAction::RestoreForwarding(value) => {
                (format!("restore {value}"), RemoveEvent::Done)
            }
            RemoveAction::RemoveOriginal => ("forget".to_string(), RemoveEvent::Done),
            RemoveAction::Report(lines) => {
                asked.push(lines[2].clone());
                return asked;
            }
        };
        asked.push(name);
        action = removal.next(event);
    }
}

#[test]
fn the_last_gateway_restores_forwarding() {
    assert_eq!(
        removal(true, true, false, "0\n"),
        vec![
            "sweep",
            "find marker",
            "unmark",
            "find original",
            "look",
            "read",
            "restore 0",
            "forget",
            "  restored net.ipv4.ip_forward=0",
        ]
    );
    assert_eq!(
        removal(false, true, false, "maybe"),
        vec![
            "sweep",
            "find marker",
            "find original",
            "look",
            "read",
            "forget",
            "  left shared net.ipv4.ip_forward unchanged",
        ]
    );
}

#[test]
fn forwarding_stays_while_another_gateway_needs_it() {
    assert_eq!(
        removal(true, true, true, "0"),
        vec![
            "sweep",
            "find marker",
            "unmark",
            "find original",
            "look",
            "  left shared net.ipv4.ip_forward unchanged",
        ]
    );
    assert_eq!(
        removal(true, false, false, "0"),
        vec![
            "sweep",
            "find marker",
            "unmark",
            "find original",
            "  left shared net.ipv4.ip_forward unchanged",
        ]
    );
}

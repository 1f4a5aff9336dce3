use hushwire::engine::EngineAction;
use hushwire::net::{Ipv4Addr, Ipv6Addr, SocketAddr};
use hushwire::routing::{InstalledRoute, Platform, RouteKind};
use hushwire::scheduler::SECOND;
use hushwire::state::PeerState;
use hushwire::tcp_transport::{copy_frame, encode_frame, ConnState, ReadEvent, ReadStep};
use hushwire::tunnel::{
    add_packet_information, exit_status, last_seen_ago, receiving_step, resolve_endpoint,
    sending_step, strip_packet_information, Cleanup, TunnelStep,
};

fn v4(a: u8, b: u8, c: u8, d: u8, port: u16) -> SocketAddr {
    SocketAddr::V4 {
        ip: Ipv4Addr::new(a, b, c, d),
        port,
    }
}

#[test]
fn unspecified_configured_endpoint_requires_a_learned_peer_address() {
    let mut state = PeerState::new();
    let configured = v4(0, 0, 0, 0, 27777);
    assert_eq!(resolve_endpoint(&state, "peer", configured), None);
    assert_eq!(
        resolve_endpoint(
            &state,
            "peer",
            SocketAddr::V6 {
                ip: Ipv6Addr { bits: 0 },
                port: 27777,
                flowinfo: 0,
                scope_id: 0,
            }
        ),
        None
    );
    assert_eq!(
        resolve_endpoint(&state, "peer", v4(203, 0, 113, 10, 0)),
        None
    );

    let learned = v4(198, 51, 100, 24, 45123);
    state.record_keepalive("peer", learned, SECOND);
    assert_eq!(resolve_endpoint(&state, "peer", configured), Some(learned));
}

#[test]
fn routable_configured_endpoint_is_used_before_roaming_is_learned() {
    let state = PeerState::new();
    let configured = v4(203, 0, 113, 10, 27777);
    assert_eq!(
        resolve_endpoint(&state, "peer", configured),
        Some(configured)
    );
}

/// Reads everything out of a stream, in pieces of the given size.
fn read_all(stream: &[u8], piece: usize) -> Vec<Vec<u8>> {
    let mut state = ConnState::new();
    let mut frames = vec![];
    for part in stream.chunks(piece) {
        assert!(matches!(
            state.on_read(ReadEvent::Data(part.to_vec())),
            ReadStep::ReadAgain
        ));
        loop {
            match state.on_read(ReadEvent::WouldBlock) {
                ReadStep::Done(Some(frame)) => frames.push(frame),
                ReadStep::Done(None) => break,
                _ => panic!("the connection is fine"),
            }
        }
    }
    frames
}

#[test]
fn tcp_frame_round_trip() {
    let payload = b"hello tcp";
    assert_eq!(
        read_all(&encode_frame(payload), 1024),
        vec![payload.to_vec()]
    );
}

#[test]
fn tcp_frame_partial_read_assembles() {
    let mut stream = encode_frame(b"first");
    stream.extend(encode_frame(b"second"));
    let expected = vec![b"first".to_vec(), b"second".to_vec()];
    for piece in 1..=stream.len() {
        assert_eq!(read_all(&stream, piece), expected);
    }
}

#[test]
fn the_length_prefix_is_big_endian_and_wraps() {
    assert_eq!(encode_frame(&[7; 258])[..3], [1, 2, 7]);
    assert_eq!(encode_frame(&[]), vec![0, 0]);
    let long = vec![0u8; 65_535];
    assert_eq!(read_all(&encode_frame(&long), 70_000), vec![long.clone()]);
    assert_eq!(encode_frame(&[1; 65_537])[..2], [0, 1]);
}

#[test]
fn broken_connections_are_reported() {
    let mut state = ConnState::new();
    assert!(matches!(
        state.on_read(ReadEvent::Interrupted),
        ReadStep::ReadAgain
    ));
    assert!(matches!(
        state.on_read(ReadEvent::TimedOut),
        ReadStep::ReadAgain
    ));
    assert!(matches!(
        state.on_read(ReadEvent::WouldBlock),
        ReadStep::Done(None)
    ));
    assert!(matches!(
        state.on_read(ReadEvent::Data(vec![])),
        ReadStep::Broken
    ));
    assert!(matches!(state.on_read(ReadEvent::Failed), ReadStep::Broken));
}

#[test]
fn frames_are_cut_to_the_buffer() {
    let mut small = [9u8; 2];
    assert_eq!(copy_frame(&[1, 2, 3], &mut small), 2);
    assert_eq!(small, [1, 2]);
    let mut large = [9u8; 4];
    assert_eq!(copy_frame(&[1, 2, 3], &mut large), 3);
    assert_eq!(large, [1, 2, 3, 9]);
}

#[test]
fn packet_information_is_added_and_stripped() {
    let packet = [0x45, 0, 1];
    assert_eq!(add_packet_information(&packet, false, 2), packet);
    let framed = add_packet_information(&packet, true, 2);
    assert_eq!(framed, vec![0, 0, 0, 2, 0x45, 0, 1]);
    assert_eq!(
        strip_packet_information(&framed, true),
        Some(&packet[..])
    );
    assert_eq!(
        strip_packet_information(&packet, false),
        Some(&packet[..])
    );
    assert_eq!(strip_packet_information(&packet, true), None);
    assert_eq!(strip_packet_information(&[0; 4], true), Some(&[][..]));
}

#[test]
fn actions_become_steps() {
    let send = EngineAction::SendTransport {
        peer_name: "b".to_string(),
        endpoint: v4(192, 0, 2, 1, 1),
        frame: vec![1, 2],
    };
    let write = EngineAction::WriteIpPacket {
        peer_name: "b".to_string(),
        source: v4(192, 0, 2, 1, 1),
        packet: vec![0x45],
    };
    assert!(matches!(
        sending_step(send.clone()),
        TunnelStep::Send { frame, .. } if frame == vec![1, 2]
    ));
    assert!(matches!(
        sending_step(write.clone()),
        TunnelStep::Misplaced { peer_name } if peer_name == "b"
    ));
    assert!(matches!(
        receiving_step(send, true, 2),
        TunnelStep::Send { peer_name, .. } if peer_name == "b"
    ));
    assert!(matches!(
        receiving_step(write, true, 2),
        TunnelStep::Write { output, .. } if output == vec![0, 0, 0, 2, 0x45]
    ));
}

#[test]
fn last_seen_is_told_in_whole_seconds() {
    assert_eq!(last_seen_ago(None, 5), "never");
    assert_eq!(last_seen_ago(Some(SECOND), 43 * SECOND - 1), "41s ago");
    assert_eq!(last_seen_ago(Some(9), 5), "0s ago");
}

#[test]
fn cleanup_is_handed_out_once() {
    let routes = vec![
        InstalledRoute {
            kind: RouteKind::EndpointException,
            spec: "192.0.2.1".to_string(),
            tun_name: "eth0".to_string(),
        },
        InstalledRoute {
            kind: RouteKind::Tun,
            spec: "10.0.0.0/8".to_string(),
            tun_name: "hw0".to_string(),
        },
    ];
    let mut cleanup = Cleanup::new(routes, None);
    let steps = cleanup.run(Platform::Linux);
    let targets: Vec<&str> = steps.routes.iter().map(|d| d.target.as_str()).collect();
    assert_eq!(targets, vec!["10.0.0.0/8", "192.0.2.1"]);
    assert!(steps.firewall.is_empty());
    let again = cleanup.run(Platform::Linux);
    assert!(again.routes.is_empty() && again.firewall.is_empty());
}

#[test]
fn a_hangup_asks_for_a_restart() {
    assert_eq!(exit_status(true), 1);
    assert_eq!(exit_status(false), 0);
}

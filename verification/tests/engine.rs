use base64::engine::general_purpose::STANDARD;
use base64::Engine as _;
use x25519_dalek::{PublicKey, StaticSecret};

use hushwire::config::{
    Config, InterfaceConfig, PeerConfig, PeerEndpoint, Resolution, TransportConfig,
};
use hushwire::engine::{
    Engine, EngineAction, EngineError, EngineEvent, EngineOutput, HandshakeRole,
};
use hushwire::net::{Ipv4Addr, Ipv4Net, SocketAddr};
use hushwire::noise::{self, NoiseError};
use hushwire::packet::PacketError;
use hushwire::scheduler::SECOND;

const NOW: u64 = 1_000 * SECOND;

struct TestConfig<'a> {
    name: &'a str,
    address: Ipv4Addr,
    listen: SocketAddr,
    private_key: [u8; 32],
    peer_name: &'a str,
    peer_address: Ipv4Addr,
    peer_endpoint: SocketAddr,
    peer_public_key: [u8; 32],
    psk: [u8; 32],
}

fn engine(test: TestConfig<'_>) -> Engine {
    let config = Config {
        interface: InterfaceConfig {
            name: test.name.to_string(),
            address: Ipv4Net::new(test.address, 30).unwrap(),
            listen: test.listen,
            transport: TransportConfig::Udp,
            mtu: 1280,
            private_key: STANDARD.encode(test.private_key),
        },
        gateway: None,
        peer: vec![PeerConfig {
            name: test.peer_name.to_string(),
            endpoint: PeerEndpoint {
                text: test.peer_endpoint.to_text(),
            },
            allowed_ips: vec![Ipv4Net::new(test.peer_address, 32).unwrap()],
            excluded_ips: vec![],
            psk: STANDARD.encode(test.psk),
            public_key: STANDARD.encode(test.peer_public_key),
            persistent_keepalive: 5,
            udp_rebind_after: 20,
            session_timeout: None,
        }],
    };
    Engine::new(
        &config,
        &vec![Resolution::Addresses(vec![test.peer_endpoint])],
    )
    .unwrap()
}

fn local(port: u16) -> SocketAddr {
    SocketAddr::V4 {
        ip: Ipv4Addr::new(127, 0, 0, 1),
        port,
    }
}

fn public_key(secret: &[u8; 32]) -> [u8; 32] {
    PublicKey::from(&StaticSecret::from(*secret)).to_bytes()
}

fn ipv4_packet(source: Ipv4Addr, destination: Ipv4Addr) -> Vec<u8> {
    let mut packet = vec![0_u8; 20];
    let packet_length = packet.len() as u16;
    packet[0] = 0x45;
    packet[2..4].copy_from_slice(&packet_length.to_be_bytes());
    packet[8] = 64;
    packet[9] = 17;
    packet[12..16].copy_from_slice(&source.octets());
    packet[16..20].copy_from_slice(&destination.octets());
    packet
}

fn take_send(output: EngineOutput) -> (String, SocketAddr, Vec<u8>, Vec<EngineEvent>) {
    assert_eq!(output.actions.len(), 1, "expected one transport action");
    let EngineAction::SendTransport {
        peer_name,
        endpoint,
        frame,
    } = output.actions.into_iter().next().unwrap()
    else {
        panic!("expected transport action");
    };
    (peer_name, endpoint, frame, output.events)
}

fn take_ip(output: EngineOutput) -> (String, SocketAddr, Vec<u8>) {
    assert_eq!(output.actions.len(), 1, "expected one IP action");
    let EngineAction::WriteIpPacket {
        peer_name,
        source,
        packet,
    } = output.actions.into_iter().next().unwrap()
    else {
        panic!("expected IP action");
    };
    assert!(output.events.is_empty());
    (peer_name, source, packet)
}

fn engines() -> (Engine, Engine, SocketAddr, SocketAddr) {
    let private_a = [0x11; 32];
    let private_b = [0x22; 32];
    let psk = [0x33; 32];
    let endpoint_a = local(31001);
    let endpoint_b = local(31002);
    let engine_a = engine(TestConfig {
        name: "memory-a",
        address: Ipv4Addr::new(10, 77, 80, 1),
        listen: endpoint_a,
        private_key: private_a,
        peer_name: "b",
        peer_address: Ipv4Addr::new(10, 77, 80, 2),
        peer_endpoint: endpoint_b,
        peer_public_key: public_key(&private_b),
        psk,
    });
    let engine_b = engine(TestConfig {
        name: "memory-b",
        address: Ipv4Addr::new(10, 77, 80, 2),
        listen: endpoint_b,
        private_key: private_b,
        peer_name: "a",
        peer_address: Ipv4Addr::new(10, 77, 80, 1),
        peer_endpoint: endpoint_a,
        peer_public_key: public_key(&private_a),
        psk,
    });
    (engine_a, engine_b, endpoint_a, endpoint_b)
}

#[test]
fn two_engines_handshake_and_exchange_ip_packets_in_memory() {
    let (mut engine_a, mut engine_b, endpoint_a, endpoint_b) = engines();
    let now = NOW;
    let packet_a_to_b = ipv4_packet(Ipv4Addr::new(10, 77, 80, 1), Ipv4Addr::new(10, 77, 80, 2));

    // The first IP packet starts the handshake and is intentionally
    // dropped until a session exists.
    let (_, destination, init, events) =
        take_send(engine_a.process_outbound_ip(&packet_a_to_b, now).unwrap());
    assert_eq!(destination, endpoint_b);
    assert!(events.is_empty());

    let (_, destination, response, events) = take_send(
        engine_b
            .process_inbound_transport(&init, endpoint_a, now)
            .unwrap(),
    );
    assert_eq!(destination, endpoint_a);
    assert!(events.is_empty());

    let (_, destination, confirmation, events) = take_send(
        engine_a
            .process_inbound_transport(&response, endpoint_b, now)
            .unwrap(),
    );
    assert_eq!(destination, endpoint_b);
    assert_eq!(
        events,
        vec![EngineEvent::HandshakeCompleted {
            peer_name: "b".to_string(),
            endpoint: endpoint_b,
            role: HandshakeRole::Initiator,
        }]
    );

    let (_, destination, acknowledgement, events) = take_send(
        engine_b
            .process_inbound_transport(&confirmation, endpoint_a, now)
            .unwrap(),
    );
    assert_eq!(destination, endpoint_a);
    assert_eq!(
        events,
        vec![EngineEvent::HandshakeCompleted {
            peer_name: "a".to_string(),
            endpoint: endpoint_a,
            role: HandshakeRole::Responder,
        }]
    );
    let acknowledgement_output = engine_a
        .process_inbound_transport(&acknowledgement, endpoint_b, now)
        .unwrap();
    assert!(acknowledgement_output.actions.is_empty());
    assert!(acknowledgement_output.events.is_empty());
    assert_eq!(
        engine_a.active_session_id("b"),
        engine_b.active_session_id("a")
    );

    let (peer, destination, encrypted, events) =
        take_send(engine_a.process_outbound_ip(&packet_a_to_b, now).unwrap());
    assert_eq!(peer, "b");
    assert_eq!(destination, endpoint_b);
    assert!(events.is_empty());
    engine_a.record_transport_sent(&peer, encrypted.len());
    let (peer, source, received) = take_ip(
        engine_b
            .process_inbound_transport(&encrypted, endpoint_a, now)
            .unwrap(),
    );
    assert_eq!(peer, "a");
    assert_eq!(source, endpoint_a);
    assert_eq!(received, packet_a_to_b);

    let packet_b_to_a = ipv4_packet(Ipv4Addr::new(10, 77, 80, 2), Ipv4Addr::new(10, 77, 80, 1));
    let (_, destination, encrypted, _) =
        take_send(engine_b.process_outbound_ip(&packet_b_to_a, now).unwrap());
    assert_eq!(destination, endpoint_a);
    let (_, source, received) = take_ip(
        engine_a
            .process_inbound_transport(&encrypted, endpoint_b, now)
            .unwrap(),
    );
    assert_eq!(source, endpoint_b);
    assert_eq!(received, packet_b_to_a);

    let stats_a = engine_a.peer_stats();
    assert!(stats_a.get("b").unwrap().tx_bytes > 0);
    assert_eq!(
        stats_a.get("b").unwrap().current_endpoint,
        Some(endpoint_b)
    );
}

#[test]
fn engine_rejects_non_ipv4_platform_packets_without_side_effects() {
    let private_a = [0x41; 32];
    let private_b = [0x42; 32];
    let mut engine = engine(TestConfig {
        name: "memory-a",
        address: Ipv4Addr::new(10, 77, 81, 1),
        listen: local(31101),
        private_key: private_a,
        peer_name: "b",
        peer_address: Ipv4Addr::new(10, 77, 81, 2),
        peer_endpoint: local(31102),
        peer_public_key: public_key(&private_b),
        psk: [0x43; 32],
    });
    let ipv6_header = [0x60_u8; 40];

    assert!(matches!(
        engine.process_outbound_ip(&ipv6_header, NOW),
        Err(EngineError::Packet(PacketError::NotIpv4(6)))
    ));
    assert_eq!(engine.peer_stats().len(), 0);
}

/// Both engines with a session, and a frame that carries `packet`.
fn frame_for(packet: &[u8]) -> (Engine, Engine, SocketAddr, SocketAddr, Vec<u8>) {
    let (mut engine_a, mut engine_b, endpoint_a, endpoint_b) = engines();
    let (_, _, init, _) = take_send(engine_a.initiate_handshake("b", NOW).unwrap());
    let (_, _, response, _) = take_send(
        engine_b
            .process_inbound_transport(&init, endpoint_a, NOW)
            .unwrap(),
    );
    let (_, _, confirmation, _) = take_send(
        engine_a
            .process_inbound_transport(&response, endpoint_b, NOW)
            .unwrap(),
    );
    engine_b
        .process_inbound_transport(&confirmation, endpoint_a, NOW)
        .unwrap();
    let (_, _, frame, _) = take_send(engine_a.process_outbound_ip(packet, NOW).unwrap());
    (engine_a, engine_b, endpoint_a, endpoint_b, frame)
}

#[test]
fn a_frame_is_delivered_once() {
    let packet = ipv4_packet(Ipv4Addr::new(10, 77, 80, 1), Ipv4Addr::new(10, 77, 80, 2));
    let (_, mut engine_b, endpoint_a, _, frame) = frame_for(&packet);
    let (_, _, received) = take_ip(
        engine_b
            .process_inbound_transport(&frame, endpoint_a, NOW)
            .unwrap(),
    );
    assert_eq!(received, packet);
    assert!(matches!(
        engine_b.process_inbound_transport(&frame, endpoint_a, NOW),
        Err(EngineError::Noise(NoiseError::Replay))
    ));
    assert_eq!(engine_b.peer_stats().get("a").unwrap().rx_bytes, 20);
}

#[test]
fn replies_follow_a_roaming_peer() {
    let packet = ipv4_packet(Ipv4Addr::new(10, 77, 80, 1), Ipv4Addr::new(10, 77, 80, 2));
    let (_, mut engine_b, _, _, frame) = frame_for(&packet);
    let moved = SocketAddr::V4 {
        ip: Ipv4Addr::new(198, 51, 100, 7),
        port: 4000,
    };
    engine_b
        .process_inbound_transport(&frame, moved, NOW)
        .unwrap();
    let back = ipv4_packet(Ipv4Addr::new(10, 77, 80, 2), Ipv4Addr::new(10, 77, 80, 1));
    let (_, destination, _, _) = take_send(engine_b.process_outbound_ip(&back, NOW).unwrap());
    assert_eq!(destination, moved);
}

#[test]
fn unroutable_and_foreign_packets_are_dropped() {
    let (mut engine_a, _, _, endpoint_b) = engines();
    let elsewhere = ipv4_packet(Ipv4Addr::new(10, 77, 80, 1), Ipv4Addr::new(8, 8, 8, 8));
    let output = engine_a.process_outbound_ip(&elsewhere, NOW).unwrap();
    assert!(output.actions.is_empty() && output.events.is_empty());
    let output = engine_a
        .process_inbound_transport(b"noise", endpoint_b, NOW)
        .unwrap();
    assert!(output.actions.is_empty() && output.events.is_empty());
    assert!(!engine_a.has_pending_handshake("b"));
}

#[test]
fn unknown_peers_are_errors() {
    let (mut engine_a, _, _, _) = engines();
    assert!(matches!(
        engine_a.initiate_handshake("nobody", NOW),
        Err(EngineError::UnknownPeer(name)) if name == "nobody"
    ));
    assert!(matches!(
        engine_a.create_keepalive("nobody", &[], NOW),
        Err(EngineError::UnknownPeer(name)) if name == "nobody"
    ));
}

#[test]
fn a_repeated_request_gets_the_same_answer() {
    let (mut engine_a, mut engine_b, endpoint_a, _) = engines();
    let (_, _, init, _) = take_send(engine_a.initiate_handshake("b", NOW).unwrap());
    let (_, _, first, _) = take_send(
        engine_b
            .process_inbound_transport(&init, endpoint_a, NOW)
            .unwrap(),
    );
    let (_, _, second, _) = take_send(
        engine_b
            .process_inbound_transport(&init, endpoint_a, NOW + SECOND)
            .unwrap(),
    );
    assert_eq!(first, second);
}

#[test]
fn a_given_answer_is_sent_and_kept() {
    let (_, mut engine_b, endpoint_a, _) = engines();
    let private_a = [0x11; 32];
    let private_b = [0x22; 32];
    let psk = [0x33; 32];
    let initiation = noise::initiator_start(&private_a, &public_key(&private_b), &psk).unwrap();
    let answer = noise::responder_respond(
        &private_b,
        &public_key(&private_a),
        &psk,
        initiation.handshake_id,
        &initiation.message,
        NOW,
    )
    .unwrap();
    let reply = answer.message.clone();
    let output = engine_b.answer_initiation(
        0,
        answer,
        initiation.handshake_id,
        &initiation.message,
        endpoint_a,
        NOW,
    );
    let (peer, destination, frame, _) = take_send(output);
    assert_eq!(peer, "a");
    assert_eq!(destination, endpoint_a);
    assert!(frame.ends_with(&reply));
    assert!(!engine_b.has_active_session("a", NOW));
}

#[test]
fn an_invalid_private_key_leaves_no_engine() {
    let config = Config {
        interface: InterfaceConfig {
            name: "hw0".to_string(),
            address: Ipv4Net::new(Ipv4Addr::new(10, 0, 0, 1), 24).unwrap(),
            listen: local(1),
            transport: TransportConfig::Udp,
            mtu: 1280,
            private_key: "AAAA".to_string(),
        },
        gateway: None,
        peer: vec![],
    };
    assert!(matches!(
        Engine::new(&config, &vec![]),
        Err(EngineError::InvalidPrivateKey)
    ));
}

#[test]
fn unauthenticated_packets_teach_no_endpoint() {
    let packet = ipv4_packet(Ipv4Addr::new(10, 77, 80, 1), Ipv4Addr::new(10, 77, 80, 2));
    let (mut engine_a, mut engine_b, endpoint_a, _, frame) = frame_for(&packet);
    let before = *engine_b.peer_stats().get("a").unwrap();
    assert_eq!(before.current_endpoint, Some(endpoint_a));
    let elsewhere = local(9);
    let mut tampered = frame.clone();
    *tampered.last_mut().unwrap() ^= 1;
    assert!(engine_b
        .process_inbound_transport(&tampered, elsewhere, NOW + SECOND)
        .is_err());
    assert_eq!(*engine_b.peer_stats().get("a").unwrap(), before);

    engine_a.invalidate_peer("b");
    let (_, _, init, _) = take_send(engine_a.initiate_handshake("b", NOW).unwrap());
    engine_b
        .process_inbound_transport(&init, elsewhere, NOW + SECOND)
        .unwrap();
    assert_eq!(*engine_b.peer_stats().get("a").unwrap(), before);
}

#[test]
fn a_session_carries_traffic_while_it_is_renewed() {
    let packet = ipv4_packet(Ipv4Addr::new(10, 77, 80, 1), Ipv4Addr::new(10, 77, 80, 2));
    let (mut engine_a, mut engine_b, endpoint_a, _, _) = frame_for(&packet);
    let old_session = engine_a.active_session_id("b");
    let rekey_at = NOW + noise::REKEY_AFTER_TIME;
    let output = engine_a.process_outbound_ip(&packet, rekey_at).unwrap();
    assert_eq!(output.actions.len(), 2);
    assert!(engine_a.has_pending_handshake("b"));
    assert_eq!(engine_a.active_session_id("b"), old_session);
    let EngineAction::SendTransport { frame, .. } = &output.actions[1] else {
        panic!("expected a frame");
    };
    let (_, _, received) = take_ip(
        engine_b
            .process_inbound_transport(frame, endpoint_a, rekey_at)
            .unwrap(),
    );
    assert_eq!(received, packet);
}

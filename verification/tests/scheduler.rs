use std::cell::RefCell;

use base64::engine::general_purpose::STANDARD;
use base64::Engine as _;

use hushwire::config::{
    Config, InterfaceConfig, PeerConfig, PeerEndpoint, Resolution, TransportConfig,
};
use hushwire::engine::{Engine, EngineAction};
use hushwire::net::{Ipv4Addr, Ipv4Net, SocketAddr};
use hushwire::scheduler::{
    keepalive_should_send, recovery_due, recovery_policy, EngineScheduler, RebindRequest,
    RecoveryPolicy, ScheduledOperation, SchedulerEvent, SECOND,
};

#[test]
fn udp_rebind_policy_takes_precedence_over_session_timeout() {
    assert_eq!(
        recovery_policy(TransportConfig::Udp, 90, 30),
        Some(RecoveryPolicy {
            timeout: 90 * SECOND,
            rebind_udp: true,
        })
    );
}

#[test]
fn tcp_uses_session_only_recovery() {
    assert_eq!(
        recovery_policy(TransportConfig::Tcp, 0, 15),
        Some(RecoveryPolicy {
            timeout: 15 * SECOND,
            rebind_udp: false,
        })
    );
}

#[test]
fn recovery_attempts_are_rate_limited_against_latest_health_signal() {
    let now = 1_000 * SECOND;
    let stale = now.checked_sub(180 * SECOND).unwrap();
    assert!(recovery_due(now, stale, None, 90 * SECOND));

    let recent_attempt = now.checked_sub(5 * SECOND);
    assert!(!recovery_due(now, stale, recent_attempt, 90 * SECOND));

    let recent_packet = now.checked_sub(5 * SECOND).unwrap();
    let old_attempt = now.checked_sub(120 * SECOND);
    assert!(!recovery_due(now, recent_packet, old_attempt, 90 * SECOND));
}

#[test]
fn rebind_forces_one_shot_keepalive_even_when_periodic_interval_is_zero() {
    assert!(keepalive_should_send(1_000 * SECOND, None, 0, false, true));
}

#[test]
fn peer_without_keepalive_stays_silent_without_rebind() {
    assert!(!keepalive_should_send(1_000 * SECOND, None, 0, false, false));
}

#[test]
fn no_recovery_without_any_timeout() {
    assert_eq!(recovery_policy(TransportConfig::Udp, 0, 0), None);
    assert_eq!(recovery_policy(TransportConfig::Tcp, 90, 0), None);
    assert_eq!(
        recovery_policy(TransportConfig::Udp, 0, 30),
        Some(RecoveryPolicy {
            timeout: 30 * SECOND,
            rebind_udp: false,
        })
    );
}

#[test]
fn keepalives_follow_their_interval() {
    let now = 1_000 * SECOND;
    let interval = 25 * SECOND;
    assert!(!keepalive_should_send(now, Some(now - 24 * SECOND), interval, false, false));
    assert!(keepalive_should_send(now, Some(now - 25 * SECOND), interval, false, false));
    assert!(keepalive_should_send(now, None, interval, true, false));
    assert!(!keepalive_should_send(now, None, interval, false, false));
}

#[test]
fn operations_have_labels() {
    assert_eq!(ScheduledOperation::HandshakeRetry.label(), "handshake retry");
    assert_eq!(ScheduledOperation::SessionRecovery.label(), "session recovery");
    assert_eq!(ScheduledOperation::Keepalive.label(), "keepalive");
}

fn host(a: u8, b: u8, c: u8, d: u8) -> Ipv4Net {
    Ipv4Net::new(Ipv4Addr::new(a, b, c, d), 32).unwrap()
}

fn peer(name: &str, byte: u8, udp_rebind_after: u16) -> PeerConfig {
    PeerConfig {
        name: name.to_string(),
        endpoint: PeerEndpoint {
            text: "192.0.2.1:1000".to_string(),
        },
        allowed_ips: vec![host(10, 0, 0, byte)],
        excluded_ips: vec![],
        psk: STANDARD.encode([byte; 32]),
        public_key: STANDARD.encode([byte; 32]),
        persistent_keepalive: 25,
        udp_rebind_after,
        session_timeout: None,
    }
}

fn config(peers: Vec<PeerConfig>) -> Config {
    Config {
        interface: InterfaceConfig {
            name: "hw0".to_string(),
            address: Ipv4Net::new(Ipv4Addr::new(10, 0, 0, 1), 24).unwrap(),
            listen: SocketAddr::V4 {
                ip: Ipv4Addr::new(0, 0, 0, 0),
                port: 27777,
            },
            transport: TransportConfig::Udp,
            mtu: 1280,
            private_key: STANDARD.encode([0x77; 32]),
        },
        gateway: None,
        peer: peers,
    }
}

fn endpoint() -> SocketAddr {
    SocketAddr::V4 {
        ip: Ipv4Addr::new(192, 0, 2, 1),
        port: 1000,
    }
}

fn engine(config: &Config) -> Engine {
    let resolutions = config
        .peer
        .iter()
        .map(|_| Resolution::Addresses(vec![endpoint()]))
        .collect();
    Engine::new(config, &resolutions).unwrap()
}

#[test]
fn a_tick_starts_the_handshake_of_a_peer_with_keepalive() {
    let config = config(vec![peer("b", 9, 90)]);
    let mut engine = engine(&config);
    let mut scheduler = EngineScheduler::new(&config);
    let tick = scheduler.tick(&mut engine, SECOND, |_, _| panic!("no rebind is due"));
    assert!(tick.errors.is_empty());
    assert!(tick.events.is_empty());
    assert!(engine.has_pending_handshake("b"));
    let sends: usize = tick
        .outputs
        .iter()
        .map(|scheduled| scheduled.output.actions.len())
        .sum();
    assert_eq!(sends, 1);
}

fn only_frame(actions: &[EngineAction]) -> Vec<u8> {
    assert_eq!(actions.len(), 1);
    match &actions[0] {
        EngineAction::SendTransport { frame, .. } => frame.clone(),
        EngineAction::WriteIpPacket { .. } => panic!("expected a frame to send"),
    }
}

fn public_key(secret: [u8; 32]) -> String {
    let secret = x25519_dalek::StaticSecret::from(secret);
    STANDARD.encode(x25519_dalek::PublicKey::from(&secret).to_bytes())
}

/// Two peers with a session, and the first one's configuration.
fn connected(peers: Vec<PeerConfig>, now: u64) -> (Config, Engine) {
    let mut peers = peers;
    let remote_secret = [0x55; 32];
    peers[0].public_key = public_key(remote_secret);
    let local = config(peers);
    let mut engine_a = engine(&local);

    let mut back = peer("a", 9, 0);
    back.public_key = public_key([0x77; 32]);
    let mut remote = config(vec![back]);
    remote.interface.private_key = STANDARD.encode(remote_secret);
    let mut engine_b = engine(&remote);

    let name = local.peer[0].name.clone();
    let init = only_frame(&engine_a.initiate_handshake(&name, now).unwrap().actions);
    let response = only_frame(
        &engine_b
            .process_inbound_transport(&init, endpoint(), now)
            .unwrap()
            .actions,
    );
    engine_a
        .process_inbound_transport(&response, endpoint(), now)
        .unwrap();
    assert!(engine_a.has_active_session(&name, now));
    (local, engine_a)
}

#[test]
fn a_successful_rebind_reaches_every_peer() {
    let (config, mut engine) = connected(vec![peer("b", 9, 90), peer("c", 10, 0)], 0);
    let mut scheduler = EngineScheduler::new(&config);
    let asked = RefCell::new(vec![]);
    let rebind = |peer_name: &str, silence: u64| {
        asked.borrow_mut().push((peer_name.to_string(), silence));
        true
    };
    let first = scheduler.tick(&mut engine, SECOND, &rebind);
    assert!(first.events.is_empty());
    assert!(asked.borrow().is_empty());

    let tick = scheduler.tick(&mut engine, 100 * SECOND, &rebind);
    assert_eq!(*asked.borrow(), vec![("b".to_string(), 100 * SECOND)]);
    assert_eq!(tick.events.len(), 1);
    let SchedulerEvent::Recovery {
        peer_name,
        silence,
        rebind_udp,
        rebind_succeeded,
        had_stale_state,
    } = &tick.events[0];
    assert_eq!(peer_name, "b");
    assert_eq!(*silence, 100 * SECOND);
    assert!(*rebind_udp && *rebind_succeeded && *had_stale_state);
    assert!(!engine.has_active_session("b", 100 * SECOND));
    assert!(engine.has_pending_handshake("b"));
    let keepalives = tick
        .outputs
        .iter()
        .filter(|scheduled| scheduled.operation.label() == "keepalive")
        .count();
    assert_eq!(keepalives, 2);

    // The next attempt has to wait for another timeout.
    let again = scheduler.tick(&mut engine, 101 * SECOND, &rebind);
    assert!(again.events.is_empty());
    assert_eq!(asked.borrow().len(), 1);
}

#[test]
fn a_failed_rebind_still_replaces_the_session() {
    let (config, mut engine) = connected(vec![peer("b", 9, 90)], 0);
    let mut scheduler = EngineScheduler::new(&config);
    scheduler.tick(&mut engine, SECOND, |_, _| false);
    let tick = scheduler.tick(&mut engine, 95 * SECOND, |_, _| false);
    assert!(matches!(
        &tick.events[0],
        SchedulerEvent::Recovery {
            rebind_succeeded: false,
            had_stale_state: true,
            ..
        }
    ));
    assert!(!engine.has_active_session("b", 95 * SECOND));
}

#[test]
fn a_tick_asks_for_the_rebind_that_it_reports() {
    let (config, mut engine) = connected(vec![peer("b", 9, 90), peer("c", 10, 0)], 0);
    let mut scheduler = EngineScheduler::new(&config);
    let (started, request) = scheduler.start_tick(&mut engine, SECOND);
    assert_eq!(request, None);
    let tick = scheduler.finish_tick(&mut engine, SECOND, started, true);
    assert!(tick.events.is_empty());

    let (started, request) = scheduler.start_tick(&mut engine, 95 * SECOND);
    assert_eq!(
        request,
        Some(RebindRequest {
            peer_name: "b".to_string(),
            silence: 95 * SECOND,
        })
    );
    let tick = scheduler.finish_tick(&mut engine, 95 * SECOND, started, true);
    assert_eq!(
        tick.events,
        vec![SchedulerEvent::Recovery {
            peer_name: "b".to_string(),
            silence: 95 * SECOND,
            rebind_udp: true,
            rebind_succeeded: true,
            had_stale_state: true,
        }]
    );
}

#[test]
fn a_recovery_without_rebind_asks_for_none() {
    let mut timed = peer("b", 9, 0);
    timed.session_timeout = Some(60);
    let (config, mut engine) = connected(vec![timed], 0);
    let mut scheduler = EngineScheduler::new(&config);
    scheduler.tick(&mut engine, SECOND, |_, _| panic!("no rebind is due"));
    let tick = scheduler.tick(&mut engine, 95 * SECOND, |_, _| {
        panic!("no rebind is part of the recovery")
    });
    assert_eq!(
        tick.events,
        vec![SchedulerEvent::Recovery {
            peer_name: "b".to_string(),
            silence: 95 * SECOND,
            rebind_udp: false,
            rebind_succeeded: false,
            had_stale_state: true,
        }]
    );
}

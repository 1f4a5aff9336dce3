use std::sync::Arc;

use base64::engine::general_purpose::STANDARD;
use base64::Engine as _;

use hushwire::config::{
    Config, InterfaceConfig, PeerConfig, PeerEndpoint, Resolution, TransportConfig,
};
use hushwire::engine::{Engine, EngineAction, EngineError, EngineEvent, EngineOutput, HandshakeRole};
use hushwire::ffi::{
    check_callbacks, dispatch, endpoint_from_ffi, endpoint_to_ffi, guarded_status,
    interface_config, required, required_bytes, required_utf8, tick_failure, visit_peer_stats,
    visit_routes, CallbackCall, FfiFailure, HwEndpoint, HwError, HwStatus, Lifecycle,
    ERROR_MESSAGE_CAPACITY, HW_CORE_ABI_VERSION,
};
use hushwire::net::{Ipv4Addr, Ipv4Net, Ipv6Addr, SocketAddr};
use hushwire::scheduler::{ScheduledOperation, SchedulerError, SECOND};

fn v4(a: u8, b: u8, c: u8, d: u8, port: u16) -> SocketAddr {
    SocketAddr::V4 {
        ip: Ipv4Addr::new(a, b, c, d),
        port,
    }
}

#[test]
fn endpoint_round_trip_preserves_ipv4_and_ipv6() {
    for endpoint in [
        v4(192, 0, 2, 10, 27777),
        SocketAddr::V6 {
            ip: Ipv6Addr {
                bits: 0x2001_0db8_0000_0000_0000_0000_0000_0005,
            },
            port: 27778,
            flowinfo: 0,
            scope_id: 0,
        },
    ] {
        let encoded = endpoint_to_ffi(endpoint);
        assert_eq!(endpoint_from_ffi(&encoded).unwrap(), endpoint);
    }
}

#[test]
fn endpoints_have_their_documented_layout() {
    let encoded = endpoint_to_ffi(v4(192, 0, 2, 10, 27777));
    assert_eq!(encoded.family, 4);
    assert_eq!(
        encoded.address,
        [192, 0, 2, 10, 0, 0, 0, 0, 0, 0, 0, 0, 0, 0, 0, 0]
    );
    let encoded = endpoint_to_ffi(SocketAddr::V6 {
        ip: Ipv6Addr {
            bits: 0x0102_0304_0506_0708_090a_0b0c_0d0e_0f10,
        },
        port: 1,
        flowinfo: 5,
        scope_id: 3,
    });
    assert_eq!(encoded.family, 6);
    assert_eq!(
        encoded.address,
        [1, 2, 3, 4, 5, 6, 7, 8, 9, 10, 11, 12, 13, 14, 15, 16]
    );
    assert_eq!(encoded.scope_id, 3);
    let mut unknown = HwEndpoint::default();
    unknown.family = 7;
    let failure = endpoint_from_ffi(&unknown).unwrap_err();
    assert_eq!(failure.status, HwStatus::InvalidArgument);
    assert_eq!(failure.message, "unsupported endpoint address family: 7");
}

fn text(error: &HwError) -> String {
    let end = error.message.iter().position(|byte| *byte == 0).unwrap();
    String::from_utf8(error.message[..end].to_vec()).unwrap()
}

#[test]
fn failures_are_reported_with_code_and_text() {
    let (status, error) = guarded_status(Some(Ok(())));
    assert_eq!(status, HwStatus::Success);
    assert_eq!(error, HwError::default());

    let (status, error) = guarded_status(Some(required(false, "runtime")));
    assert_eq!(status, HwStatus::InvalidArgument);
    assert_eq!(error.code, 1);
    assert_eq!(text(&error), "runtime must not be null");

    let (status, error) = guarded_status(None);
    assert_eq!(status, HwStatus::Panic);
    assert_eq!(error.code, 6);
    assert_eq!(text(&error), "Rust core panicked across ABI call");

    let codes: Vec<i32> = [
        HwStatus::Success,
        HwStatus::InvalidArgument,
        HwStatus::InvalidState,
        HwStatus::ConfigError,
        HwStatus::EngineError,
        HwStatus::InternalError,
        HwStatus::Panic,
    ]
    .iter()
    .map(|status| status.code())
    .collect();
    assert_eq!(codes, vec![0, 1, 2, 3, 4, 5, 6]);
    assert_eq!(HW_CORE_ABI_VERSION, 2);
}

#[test]
fn long_messages_are_cut_and_terminated() {
    let failure = FfiFailure::new(HwStatus::EngineError, "x".repeat(600));
    let (_, error) = guarded_status(Some(Err(failure)));
    assert_eq!(text(&error).len(), ERROR_MESSAGE_CAPACITY - 1);
    assert_eq!(error.message[ERROR_MESSAGE_CAPACITY - 1], 0);
}

#[test]
fn arguments_are_checked() {
    assert!(required(true, "runtime").is_ok());
    assert!(required_bytes(false, 0, "packet").is_ok());
    assert!(required_bytes(true, 4, "packet").is_ok());
    assert_eq!(
        required_bytes(false, 1, "config_toml").unwrap_err().message,
        "config_toml must not be null when length is nonzero"
    );
    assert!(required_utf8(true, "peer_name").is_ok());
    assert_eq!(
        required_utf8(false, "peer_name").unwrap_err().message,
        "peer_name is not valid UTF-8"
    );
    assert!(check_callbacks(true, true, true).is_ok());
    assert_eq!(
        check_callbacks(false, false, false).unwrap_err().message,
        "callbacks must not be null"
    );
    assert_eq!(
        check_callbacks(true, false, true).unwrap_err().message,
        "send_transport callback must not be null"
    );
    assert_eq!(
        check_callbacks(true, true, false).unwrap_err().message,
        "write_ip_packet callback must not be null"
    );
    let failed = SchedulerError {
        peer_name: "b".to_string(),
        operation: ScheduledOperation::Keepalive,
        error: EngineError::InvalidPrivateKey,
    };
    let failure = tick_failure(&failed, "broken");
    assert_eq!(failure.status, HwStatus::EngineError);
    assert_eq!(failure.message, "keepalive for peer b failed: broken");
}

#[test]
fn a_runtime_starts_stops_and_starts_again() {
    let mut lifecycle: Lifecycle<u8> = Lifecycle::new();
    assert!(!lifecycle.is_running());
    let refused = lifecycle.begin_call().unwrap_err();
    assert_eq!(refused.status, HwStatus::InvalidState);
    assert_eq!(refused.message, "runtime is not running");
    assert!(!lifecycle.request_stop());

    assert_eq!(lifecycle.start().unwrap(), true);
    lifecycle.install(Arc::new(1));
    assert!(lifecycle.is_running());
    assert_eq!(lifecycle.start().unwrap(), false);
    assert_eq!(*lifecycle.begin_call().unwrap(), 1);
    assert_eq!(*lifecycle.begin_call().unwrap(), 1);

    assert!(lifecycle.request_stop());
    assert!(!lifecycle.is_running());
    assert!(lifecycle.begin_call().is_err());
    assert_eq!(
        lifecycle.start().unwrap_err().message,
        "runtime is currently stopping"
    );
    assert!(!lifecycle.is_idle());
    assert!(!lifecycle.end_call());
    assert!(lifecycle.end_call());
    assert!(lifecycle.is_idle());
    lifecycle.erase_engine();
    assert!(!lifecycle.is_running());
    assert!(lifecycle.start().is_err());
    lifecycle.finish_stop();
    assert!(!lifecycle.is_running());
    assert!(!lifecycle.request_stop());

    assert_eq!(lifecycle.start().unwrap(), true);
    lifecycle.install(Arc::new(2));
    assert_eq!(*lifecycle.begin_call().unwrap(), 2);
    assert!(lifecycle.end_call());
    assert!(lifecycle.end_call());
}

#[test]
fn events_are_dispatched_before_actions() {
    let output = EngineOutput {
        actions: vec![
            EngineAction::SendTransport {
                peer_name: "b".to_string(),
                endpoint: v4(192, 0, 2, 1, 1),
                frame: vec![1],
            },
            EngineAction::WriteIpPacket {
                peer_name: "b".to_string(),
                source: v4(192, 0, 2, 1, 1),
                packet: vec![2],
            },
        ],
        events: vec![EngineEvent::HandshakeCompleted {
            peer_name: "b".to_string(),
            endpoint: v4(192, 0, 2, 1, 1),
            role: HandshakeRole::Responder,
        }],
    };
    let calls = dispatch(&output, true);
    assert_eq!(calls.len(), 3);
    assert!(matches!(
        &calls[0],
        CallbackCall::HandshakeCompleted { role: 2, .. }
    ));
    assert!(matches!(
        &calls[1],
        CallbackCall::SendTransport { frame, .. } if *frame == vec![1]
    ));
    assert!(matches!(
        &calls[2],
        CallbackCall::WriteIpPacket { packet, .. } if *packet == vec![2]
    ));
    assert_eq!(dispatch(&output, false).len(), 2);
}

fn config() -> Config {
    Config {
        interface: InterfaceConfig {
            name: "hw0".to_string(),
            address: Ipv4Net::new(Ipv4Addr::new(10, 0, 0, 1), 24).unwrap(),
            listen: v4(0, 0, 0, 0, 27777),
            transport: TransportConfig::Tcp,
            mtu: 1400,
            private_key: STANDARD.encode([0x77; 32]),
        },
        gateway: None,
        peer: vec![PeerConfig {
            name: "home".to_string(),
            endpoint: PeerEndpoint {
                text: "home.example:1000".to_string(),
            },
            allowed_ips: vec![Ipv4Net::new(Ipv4Addr::new(10, 1, 2, 3), 8).unwrap()],
            excluded_ips: vec![Ipv4Net::new(Ipv4Addr::new(10, 9, 0, 0), 16).unwrap()],
            psk: STANDARD.encode([1; 32]),
            public_key: STANDARD.encode([2; 32]),
            persistent_keepalive: 25,
            udp_rebind_after: 0,
            session_timeout: None,
        }],
    }
}

fn engine() -> Engine {
    Engine::new(
        &config(),
        &vec![Resolution::Addresses(vec![v4(192, 0, 2, 1, 1000)])],
    )
    .unwrap()
}

#[test]
fn metadata_is_exposed_without_keys() {
    let interface = interface_config(&config());
    assert_eq!(interface.address, [10, 0, 0, 1]);
    assert_eq!(interface.prefix_length, 24);
    assert_eq!(interface.transport, 2);
    assert_eq!(interface.mtu, 1400);
    assert_eq!(interface.listen.port, 27777);

    let engine = engine();
    let visited = visit_routes(engine.router());
    assert_eq!(visited.len(), 2);
    assert_eq!(visited[0].peer_name, "home");
    assert_eq!(visited[0].configured_endpoint, "home.example:1000");
    assert_eq!(visited[0].route.network, [10, 0, 0, 0]);
    assert_eq!(visited[0].route.prefix_length, 8);
    assert_eq!(visited[0].route.route_kind, 1);
    assert_eq!(visited[0].route.session_timeout, 75);
    assert_eq!(visited[1].route.network, [10, 9, 0, 0]);
    assert_eq!(visited[1].route.route_kind, 2);
}

#[test]
fn statistics_come_in_the_order_of_names() {
    let mut engine = engine();
    for name in ["home", "a", "zeta", "Zeta", "hom"] {
        engine.record_transport_sent(name, 7);
    }
    let list = visit_peer_stats(&engine, 5 * SECOND);
    let names: Vec<&str> = list.iter().map(|(name, _)| name.as_str()).collect();
    assert_eq!(names, vec!["Zeta", "a", "hom", "home", "zeta"]);
    for (_, stats) in &list {
        assert_eq!(stats.tx_bytes, 7);
        assert_eq!(stats.has_last_seen, 0);
        assert_eq!(stats.last_seen_milliseconds_ago, 0);
        assert_eq!(stats.has_endpoint, 0);
        assert_eq!(stats.endpoint, HwEndpoint::default());
    }
}

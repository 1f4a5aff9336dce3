use base64::engine::general_purpose::STANDARD;
use base64::Engine as _;

use hushwire::config::{
    decode_key, decode_psk, Config, ConfigError, GatewayConfig, InterfaceConfig, PeerConfig,
    PeerEndpoint, Resolution, TransportConfig, DEFAULT_MTU,
};
use hushwire::net::{Ipv4Addr, Ipv4Net, Ipv6Addr, SocketAddr};

/// Valid base64-encoded 32-byte PSK used across config tests.
const VALID_PSK: &str = "QkJCQkJCQkJCQkJCQkJCQkJCQkJCQkJCQkJCQkJCQkI=";
/// Valid base64-encoded 32-byte key (reused for private/public key in tests).
const VALID_KEY: &str = "QkJCQkJCQkJCQkJCQkJCQkJCQkJCQkJCQkJCQkJCQkI=";

fn interface() -> InterfaceConfig {
    InterfaceConfig {
        name: "utun10".to_string(),
        address: Ipv4Net::new(Ipv4Addr::new(10, 77, 0, 1), 24).unwrap(),
        listen: SocketAddr::V4 {
            ip: Ipv4Addr::new(127, 0, 0, 1),
            port: 27777,
        },
        transport: TransportConfig::Udp,
        mtu: 1280,
        private_key: VALID_KEY.to_string(),
    }
}

fn peer(name: &str) -> PeerConfig {
    PeerConfig {
        name: name.to_string(),
        endpoint: PeerEndpoint {
            text: "127.0.0.1:27778".to_string(),
        },
        allowed_ips: vec![Ipv4Net::new(Ipv4Addr::new(10, 77, 0, 2), 32).unwrap()],
        excluded_ips: vec![],
        psk: VALID_PSK.to_string(),
        public_key: VALID_KEY.to_string(),
        persistent_keepalive: 0,
        udp_rebind_after: 0,
        session_timeout: None,
    }
}

fn config(peers: Vec<PeerConfig>) -> Config {
    Config {
        interface: interface(),
        gateway: None,
        peer: peers,
    }
}

fn encoded_key(byte: u8) -> String {
    STANDARD.encode([byte; 32])
}

#[test]
fn accepts_minimal_valid_config() {
    let config = config(vec![peer("node-b")]);
    assert!(config.validate().is_ok());
}

#[test]
fn accepts_config_with_no_peers() {
    let config = config(vec![]);
    assert!(config.validate().is_ok());
}

#[test]
fn rejects_empty_interface_name() {
    let mut config = config(vec![]);
    config.interface.name = "   ".to_string();
    assert!(matches!(
        config.validate(),
        Err(ConfigError::EmptyInterfaceName)
    ));
}

#[test]
fn rejects_mtu_below_minimum() {
    let mut config = config(vec![]);
    config.interface.mtu = 575;
    assert!(matches!(
        config.validate(),
        Err(ConfigError::MtuTooSmall(575))
    ));
}

#[test]
fn accepts_mtu_at_boundary() {
    let mut config = config(vec![]);
    config.interface.mtu = 576;
    assert!(config.validate().is_ok());
}

#[test]
fn rejects_empty_peer_name() {
    let mut p = peer("node-b");
    p.name = "".to_string();
    let config = config(vec![p]);
    assert!(matches!(config.validate(), Err(ConfigError::EmptyPeerName)));
}

#[test]
fn rejects_duplicate_peer_names() {
    let config = config(vec![peer("dup"), peer("dup")]);
    assert!(matches!(
        config.validate(),
        Err(ConfigError::DuplicatePeerName(n)) if n == "dup"
    ));
}

#[test]
fn rejects_duplicate_peer_psks() {
    let first = peer("first");
    let mut second = peer("second");
    second.public_key = encoded_key(0x43);
    let config = config(vec![first, second]);
    assert!(matches!(
        config.validate(),
        Err(ConfigError::DuplicatePeerPsk { first, second })
            if first == "first" && second == "second"
    ));
}

#[test]
fn rejects_duplicate_peer_public_keys() {
    let first = peer("first");
    let mut second = peer("second");
    second.psk = encoded_key(0x43);
    let config = config(vec![first, second]);
    assert!(matches!(
        config.validate(),
        Err(ConfigError::DuplicatePeerPublicKey { first, second })
            if first == "first" && second == "second"
    ));
}

#[test]
fn rejects_peer_without_allowed_ips() {
    let mut p = peer("node-b");
    p.allowed_ips = vec![];
    let config = config(vec![p]);
    assert!(matches!(
        config.validate(),
        Err(ConfigError::PeerWithoutAllowedIps(_))
    ));
}

#[test]
fn rejects_invalid_psk_wrong_length() {
    let mut p = peer("node-b");
    // 16 bytes instead of 32.
    p.psk = "AAAAAAAAAAAAAAAAAAAAAA==".to_string();
    let config = config(vec![p]);
    assert!(matches!(config.validate(), Err(ConfigError::InvalidPsk(_))));
}

#[test]
fn rejects_invalid_psk_not_base64() {
    let mut p = peer("node-b");
    p.psk = "not base64 !!!".to_string();
    let config = config(vec![p]);
    assert!(matches!(config.validate(), Err(ConfigError::InvalidPsk(_))));
}

#[test]
fn accepts_udp_rebind_with_keepalive() {
    let mut p = peer("node-b");
    p.persistent_keepalive = 25;
    p.udp_rebind_after = 90;
    let config = config(vec![p]);
    assert!(config.validate().is_ok());
}

#[test]
fn rejects_udp_rebind_without_keepalive() {
    let mut p = peer("node-b");
    p.udp_rebind_after = 90;
    let config = config(vec![p]);
    assert!(matches!(
        config.validate(),
        Err(ConfigError::UdpRebindRequiresKeepalive(name)) if name == "node-b"
    ));
}

#[test]
fn rejects_udp_rebind_for_tcp() {
    let mut p = peer("node-b");
    p.persistent_keepalive = 25;
    p.udp_rebind_after = 90;
    let mut config = config(vec![p]);
    config.interface.transport = TransportConfig::Tcp;
    assert!(matches!(
        config.validate(),
        Err(ConfigError::UdpRebindRequiresUdp(name)) if name == "node-b"
    ));
}

#[test]
fn rejects_udp_rebind_before_a_probe_can_run() {
    let mut p = peer("node-b");
    p.persistent_keepalive = 25;
    p.udp_rebind_after = 25;
    let config = config(vec![p]);
    assert!(matches!(
        config.validate(),
        Err(ConfigError::UdpRebindTooSoon {
            rebind_after: 25,
            keepalive: 25,
            ..
        })
    ));
}

#[test]
fn tcp_keepalive_gets_an_automatic_session_timeout() {
    let mut p = peer("node-b");
    p.persistent_keepalive = 5;
    assert_eq!(p.effective_session_timeout(TransportConfig::Tcp), 15);
    assert_eq!(p.effective_session_timeout(TransportConfig::Udp), 0);
}

#[test]
fn explicit_session_timeout_overrides_tcp_default() {
    let mut p = peer("node-b");
    p.persistent_keepalive = 5;
    p.session_timeout = Some(30);
    assert_eq!(p.effective_session_timeout(TransportConfig::Tcp), 30);

    p.session_timeout = Some(0);
    assert_eq!(p.effective_session_timeout(TransportConfig::Tcp), 0);
}

#[test]
fn rejects_session_timeout_without_keepalive() {
    let mut p = peer("node-b");
    p.session_timeout = Some(30);
    let config = config(vec![p]);
    assert!(matches!(
        config.validate(),
        Err(ConfigError::SessionTimeoutRequiresKeepalive(name)) if name == "node-b"
    ));
}

#[test]
fn rejects_session_timeout_before_a_probe_can_run() {
    let mut p = peer("node-b");
    p.persistent_keepalive = 10;
    p.session_timeout = Some(10);
    let config = config(vec![p]);
    assert!(matches!(
        config.validate(),
        Err(ConfigError::SessionTimeoutTooSoon {
            timeout: 10,
            keepalive: 10,
            ..
        })
    ));
}

#[test]
fn decode_psk_round_trip() {
    let raw = [0x42u8; 32];
    let encoded = STANDARD.encode(raw);
    let decoded = decode_psk(&encoded).expect("valid psk");
    assert_eq!(decoded, raw);
}

#[test]
fn decode_psk_rejects_short() {
    assert!(decode_psk("AAAA").is_none());
}

#[test]
fn decode_psk_rejects_garbage() {
    assert!(decode_psk("@@@@").is_none());
}

#[test]
fn rejects_an_invalid_private_key() {
    let mut config = config(vec![]);
    config.interface.private_key = "AAAA".to_string();
    assert!(matches!(
        config.validate(),
        Err(ConfigError::InvalidPrivateKey)
    ));
}

#[test]
fn rejects_an_invalid_public_key() {
    let mut p = peer("node-b");
    p.public_key = "AAAA".to_string();
    assert!(matches!(
        config(vec![p]).validate(),
        Err(ConfigError::InvalidPublicKey(name)) if name == "node-b"
    ));
}

#[test]
fn the_automatic_timeout_is_three_intervals() {
    let mut p = peer("node-b");
    p.persistent_keepalive = 25;
    assert_eq!(p.effective_session_timeout(TransportConfig::Tcp), 75);
    p.persistent_keepalive = 0;
    assert_eq!(p.effective_session_timeout(TransportConfig::Tcp), 0);
}

#[test]
fn peers_with_credentials_of_their_own_are_accepted() {
    let mut second = peer("second");
    second.psk = encoded_key(1);
    second.public_key = encoded_key(2);
    let mut config = config(vec![peer("first"), second]);
    config.gateway = Some(GatewayConfig {
        lan_interface: "eth0".to_string(),
        tcp_mss: None,
    });
    assert!(config.validate().is_ok());
}

#[test]
fn names_that_differ_in_white_space_are_different() {
    let mut second = peer(" first");
    second.psk = encoded_key(1);
    second.public_key = encoded_key(2);
    assert!(config(vec![peer("first"), second]).validate().is_ok());
    assert!(matches!(
        config(vec![peer("\u{2003}")]).validate(),
        Err(ConfigError::EmptyPeerName)
    ));
}

#[test]
fn keys_of_a_configuration_are_decoded() {
    let keys = config(vec![peer("node-b")]).keys();
    assert_eq!(keys.private_key, Some([0x42; 32]));
    assert_eq!(keys.peers.len(), 1);
    assert_eq!(keys.peers[0].psk, Some([0x42; 32]));
    assert_eq!(keys.peers[0].public_key, decode_key(VALID_KEY));
}

#[test]
fn ipv4_is_preferred_among_resolved_endpoints() {
    let v6 = SocketAddr::V6 {
        ip: Ipv6Addr { bits: 1 },
        port: 1,
        flowinfo: 0,
        scope_id: 0,
    };
    let v4 = SocketAddr::V4 {
        ip: Ipv4Addr::new(127, 0, 0, 1),
        port: 1,
    };
    assert_eq!(Resolution::Addresses(vec![v6, v4]).endpoint(), Ok(v4));
    assert_eq!(Resolution::Addresses(vec![v6]).endpoint(), Ok(v6));
    assert_eq!(
        Resolution::Addresses(vec![]).endpoint(),
        Err("endpoint resolved to no addresses".to_string())
    );
    assert_eq!(
        Resolution::Failed("no such host".to_string()).endpoint(),
        Err("no such host".to_string())
    );
}

#[test]
fn defaults_are_as_documented() {
    assert_eq!(DEFAULT_MTU, 1280);
    assert_eq!(TransportConfig::default(), TransportConfig::Udp);
}

#[test]
fn only_the_canonical_encoding_of_a_key_is_accepted() {
    let key = [0x5a; 32];
    let text = STANDARD.encode(key);
    assert_eq!(text.len(), 44);
    assert_eq!(decode_key(&text), Some(key));
    assert_eq!(decode_psk(&text), decode_key(&text));

    // Without its padding, with too much of it, and with a bit set that
    // stands for nothing.
    assert_eq!(decode_key(&text[..43]), None);
    assert_eq!(decode_key(&format!("{text}=")), None);
    assert_eq!(&text[42..], "o=");
    assert_eq!(decode_key(&format!("{}p=", &text[..42])), None);

    // With white space, and in the alphabet for addresses.
    assert_eq!(decode_key(&format!("{text}\n")), None);
    let high = STANDARD.encode([0xff; 32]);
    assert_eq!(decode_key(&high), Some([0xff; 32]));
    assert_eq!(decode_key(&high.replace('/', "_")), None);

    // Of another length.
    assert_eq!(decode_psk(&STANDARD.encode([1; 31])), None);
    assert_eq!(decode_psk(&STANDARD.encode([1; 33])), None);
}

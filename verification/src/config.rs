//! The tunnel's configuration and the rules it has to meet.

use base64::Engine;
use vstd::prelude::*;

use crate::bytes::{same_bytes, to_array32};
use crate::net::{Ipv4Net, SocketAddr};
use crate::text::{is_blank, same_text};

verus! {

/// The MTU of an interface whose configuration names none.
pub const DEFAULT_MTU: u16 = 1280;
/// The smallest MTU that an interface may have.
pub const MINIMUM_MTU: u16 = 576;

#[derive(Clone, Debug)]
pub struct Config {
    pub interface: InterfaceConfig,
    pub gateway: Option<GatewayConfig>,
    pub peer: Vec<PeerConfig>,
}

#[derive(Clone, Debug)]
pub struct InterfaceConfig {
    pub name: String,
    pub address: Ipv4Net,
    pub listen: SocketAddr,
    pub transport: TransportConfig,
    pub mtu: u16,
    /// Base64-encoded 32-byte static private key for Noise handshake.
    pub private_key: String,
}

/// A gateway forwards a LAN into the tunnel.
#[derive(Clone, Debug)]
pub struct GatewayConfig {
    pub lan_interface: String,
    pub tcp_mss: Option<u16>,
}

#[derive(Clone, Copy, Debug, Eq, PartialEq, Structural)]
pub enum TransportConfig {
    Udp,
    Tcp,
}

impl Default for TransportConfig {
    fn default() -> (transport: TransportConfig)
        ensures
            transport == TransportConfig::Udp,
    {
        TransportConfig::Udp
    }
}

/// A peer's endpoint as configured: `host:port`, where the host may be a name.
#[derive(Debug)]
pub struct PeerEndpoint {
    pub text: String,
}

impl Clone for PeerEndpoint {
    fn clone(&self) -> (copy: PeerEndpoint)
        ensures
            copy == *self,
    {
        PeerEndpoint { text: self.text.clone() }
    }
}

/// What the resolver found for a configured endpoint.
pub enum Resolution {
    Addresses(Vec<SocketAddr>),
    Failed(String),
}

/// The first IPv4 endpoint of a list, from position `i` on.
pub open spec fn first_ipv4(addresses: Seq<SocketAddr>, i: int) -> Option<SocketAddr>
    decreases addresses.len() - i,
{
    if i >= addresses.len() {
        None
    } else if addresses[i] is V4 {
        Some(addresses[i])
    } else {
        first_ipv4(addresses, i + 1)
    }
}

impl Resolution {
    /// The endpoint to use: IPv4 is preferred, and otherwise the resolver's
    /// own order decides.
    pub open spec fn preferred(self) -> Option<SocketAddr> {
        match self {
            Resolution::Failed(_) => None,
            Resolution::Addresses(addresses) => match first_ipv4(addresses@, 0) {
                Some(address) => Some(address),
                None => if addresses@.len() > 0 {
                    Some(addresses@[0])
                } else {
                    None
                },
            },
        }
    }

    /// Why there is no endpoint to use.
    pub open spec fn failure(self) -> Seq<char> {
        match self {
            Resolution::Failed(reason) => reason@,
            Resolution::Addresses(_) => "endpoint resolved to no addresses"@,
        }
    }

    /// The endpoint to use, or why there is none.
    pub fn endpoint(&self) -> (endpoint: Result<SocketAddr, String>)
        ensures
            match endpoint {
                Ok(address) => self.preferred() == Some(address),
                Err(reason) => self.preferred() is None && reason@ == self.failure(),
            },
    {
        match self {
            Resolution::Failed(reason) => Err(reason.clone()),
            Resolution::Addresses(addresses) => {
                let mut i: usize = 0;
                while i < addresses.len()
                    invariant
                        i <= addresses.len(),
                        *self == Resolution::Addresses(*addresses),
                        first_ipv4(addresses@, 0) == first_ipv4(addresses@, i as int),
                    decreases addresses.len() - i,
                {
                    if addresses[i].is_ipv4() {
                        return Ok(addresses[i]);
                    }
                    i = i + 1;
                }
                if addresses.len() > 0 {
                    Ok(addresses[0])
                } else {
                    Err("endpoint resolved to no addresses".to_owned())
                }
            },
        }
    }
}

#[derive(Clone, Debug)]
pub struct PeerConfig {
    pub name: String,
    pub endpoint: PeerEndpoint,
    pub allowed_ips: Vec<Ipv4Net>,
    /// Destinations that stay outside the tunnel although `allowed_ips`
    /// covers them.
    pub excluded_ips: Vec<Ipv4Net>,
    /// Base64-encoded 32-byte pre-shared key (authentication factor).
    pub psk: String,
    /// Base64-encoded 32-byte static public key of this peer (for Noise handshake).
    pub public_key: String,
    /// Persistent keepalive interval in seconds (0 = disabled).
    pub persistent_keepalive: u16,
    /// Rebind the shared UDP socket to a fresh ephemeral port after this many
    /// seconds without authenticated inbound traffic (0 = disabled).
    pub udp_rebind_after: u16,
    /// Discard a stale cryptographic session and start a fresh handshake after
    /// this many seconds without authenticated inbound traffic.
    ///
    /// `0` explicitly disables the timeout. When omitted, TCP peers with
    /// persistent keepalives use an automatic timeout of three keepalive
    /// intervals (with a 15-second minimum); UDP keeps its existing explicit
    /// `udp_rebind_after` behavior.
    pub session_timeout: Option<u16>,
}

#[derive(Debug)]
pub enum ConfigError {
    EmptyInterfaceName,
    EmptyPeerName,
    DuplicatePeerName(String),
    /// Every peer must have credentials of its own.
    DuplicatePeerPsk { first: String, second: String },
    /// Every peer must have a static identity of its own.
    DuplicatePeerPublicKey { first: String, second: String },
    PeerWithoutAllowedIps(String),
    MtuTooSmall(u16),
    InvalidPsk(String),
    InvalidPublicKey(String),
    InvalidPrivateKey,
    UdpRebindRequiresUdp(String),
    UdpRebindRequiresKeepalive(String),
    UdpRebindTooSoon { peer: String, rebind_after: u16, keepalive: u16 },
    SessionTimeoutRequiresKeepalive(String),
    SessionTimeoutTooSoon { peer: String, timeout: u16, keepalive: u16 },
}

/// A `ConfigError` with its texts as sequences.
pub enum ConfigFault {
    EmptyInterfaceName,
    EmptyPeerName,
    DuplicatePeerName(Seq<char>),
    DuplicatePeerPsk { first: Seq<char>, second: Seq<char> },
    DuplicatePeerPublicKey { first: Seq<char>, second: Seq<char> },
    PeerWithoutAllowedIps(Seq<char>),
    MtuTooSmall(u16),
    InvalidPsk(Seq<char>),
    InvalidPublicKey(Seq<char>),
    InvalidPrivateKey,
    UdpRebindRequiresUdp(Seq<char>),
    UdpRebindRequiresKeepalive(Seq<char>),
    UdpRebindTooSoon { peer: Seq<char>, rebind_after: u16, keepalive: u16 },
    SessionTimeoutRequiresKeepalive(Seq<char>),
    SessionTimeoutTooSoon { peer: Seq<char>, timeout: u16, keepalive: u16 },
}

impl View for ConfigError {
    type V = ConfigFault;

    open spec fn view(&self) -> ConfigFault {
        match *self {
            ConfigError::EmptyInterfaceName => ConfigFault::EmptyInterfaceName,
            ConfigError::EmptyPeerName => ConfigFault::EmptyPeerName,
            ConfigError::DuplicatePeerName(name) => ConfigFault::DuplicatePeerName(name@),
            ConfigError::DuplicatePeerPsk { first, second } => ConfigFault::DuplicatePeerPsk {
                first: first@,
                second: second@,
            },
            ConfigError::DuplicatePeerPublicKey { first, second } =>
                ConfigFault::DuplicatePeerPublicKey { first: first@, second: second@ },
            ConfigError::PeerWithoutAllowedIps(name) => ConfigFault::PeerWithoutAllowedIps(name@),
            ConfigError::MtuTooSmall(mtu) => ConfigFault::MtuTooSmall(mtu),
            ConfigError::InvalidPsk(name) => ConfigFault::InvalidPsk(name@),
            ConfigError::InvalidPublicKey(name) => ConfigFault::InvalidPublicKey(name@),
            ConfigError::InvalidPrivateKey => ConfigFault::InvalidPrivateKey,
            ConfigError::UdpRebindRequiresUdp(name) => ConfigFault::UdpRebindRequiresUdp(name@),
            ConfigError::UdpRebindRequiresKeepalive(name) =>
                ConfigFault::UdpRebindRequiresKeepalive(name@),
            ConfigError::UdpRebindTooSoon { peer, rebind_after, keepalive } =>
                ConfigFault::UdpRebindTooSoon { peer: peer@, rebind_after, keepalive },
            ConfigError::SessionTimeoutRequiresKeepalive(name) =>
                ConfigFault::SessionTimeoutRequiresKeepalive(name@),
            ConfigError::SessionTimeoutTooSoon { peer, timeout, keepalive } =>
                ConfigFault::SessionTimeoutTooSoon { peer: peer@, timeout, keepalive },
        }
    }
}

// ---------------------------------------------------------------------------
// Keys.
// ---------------------------------------------------------------------------

/// The bytes that `base64`'s standard engine decodes a text to; none where it
/// rejects the text.
pub uninterp spec fn base64_bytes(text: Seq<char>) -> Option<Seq<u8>>;

/// The text to which `base64`'s standard engine encodes some bytes.
pub uninterp spec fn base64_text(bytes: Seq<u8>) -> Seq<char>;

/// `base64`'s `STANDARD.decode`: a function of the text alone. The engine
/// insists on its alphabet, on full padding and on unused bits that are zero,
/// so it accepts a text exactly where that is the encoding of some bytes, and
/// gives back those.
#[verifier::external_body]
fn base64_decode(text: &str) -> (bytes: Option<Vec<u8>>)
    ensures
        match bytes {
            Some(decoded) => base64_bytes(text@) == Some(decoded@),
            None => base64_bytes(text@) is None,
        },
        forall|encoded: Seq<u8>|
            #![trigger base64_text(encoded)]
            base64_text(encoded) == text@ <==> (bytes matches Some(decoded) && decoded@
                == encoded),
{
    base64::engine::general_purpose::STANDARD.decode(text).ok()
}

/// `base64`'s `STANDARD.encode`: a function of the bytes alone, which decoding
/// undoes.
#[verifier::external_body]
pub(crate) fn base64_encode(bytes: &[u8]) -> (text: String)
    requires
        bytes@.len() <= 0x1000_0000,
    ensures
        text@ == base64_text(bytes@),
        base64_bytes(text@) == Some(bytes@),
{
    base64::engine::general_purpose::STANDARD.encode(bytes)
}

/// The 32-byte key that decoded bytes stand for, if they are as many.
pub open spec fn key_of(decoded: Option<Seq<u8>>) -> Option<Seq<u8>> {
    match decoded {
        Some(bytes) => if bytes.len() == 32 {
            Some(bytes)
        } else {
            None
        },
        None => None,
    }
}

/// The bytes of a decoded text as a key: there must be thirty-two of them.
pub fn key_from_decoded(decoded: Option<Vec<u8>>) -> (key: Option<[u8; 32]>)
    ensures
        match key {
            Some(k) => decoded matches Some(bytes) && k@ == bytes@,
            None => decoded matches Some(bytes) ==> bytes@.len() != 32,
        },
{
    match decoded {
        None => None,
        Some(bytes) => if bytes.len() != 32 {
            None
        } else {
            Some(to_array32(bytes.as_slice()))
        },
    }
}

/// Whether a decoder accepts a text exactly where it is the padded standard
/// base64 encoding of a 32-byte key, and gives that key.
pub open spec fn decodes_key(text: Seq<char>, key: Option<[u8; 32]>) -> bool {
    forall|k: Seq<u8>|
        #![trigger base64_text(k)]
        k.len() == 32 ==> (base64_text(k) == text <==> key_view(key) == Some(k))
}

/// Decode a base64-encoded 32-byte pre-shared key, just as [`decode_key`] does.
pub fn decode_psk(psk: &str) -> (key: Option<[u8; 32]>)
    ensures
        key_view(key) == key_of(base64_bytes(psk@)),
        key matches Some(k) ==> base64_text(k@) == psk@,
        decodes_key(psk@, key),
{
    decode_key(psk)
}

/// Decode a base64-encoded 32-byte key (PSK, private key, or public key).
pub fn decode_key(key: &str) -> (decoded: Option<[u8; 32]>)
    ensures
        key_view(decoded) == key_of(base64_bytes(key@)),
        decoded matches Some(k) ==> base64_text(k@) == key@,
        decodes_key(key@, decoded),
{
    key_from_decoded(base64_decode(key))
}

/// The keys of one peer, as far as its texts decode.
pub struct PeerKeys {
    pub psk: Option<[u8; 32]>,
    pub public_key: Option<[u8; 32]>,
}

/// The keys of a configuration, as far as its texts decode.
pub struct ConfigKeys {
    pub private_key: Option<[u8; 32]>,
    pub peers: Vec<PeerKeys>,
}

/// The keys of one peer as byte sequences.
pub struct PeerKeysModel {
    pub psk: Option<Seq<u8>>,
    pub public_key: Option<Seq<u8>>,
}

/// The keys of a configuration as byte sequences.
pub struct KeysModel {
    pub private_key: Option<Seq<u8>>,
    pub peers: Seq<PeerKeysModel>,
}

/// An optional key as an optional byte sequence.
pub open spec fn key_view(key: Option<[u8; 32]>) -> Option<Seq<u8>> {
    match key {
        Some(k) => Some(k@),
        None => None,
    }
}

impl View for PeerKeys {
    type V = PeerKeysModel;

    open spec fn view(&self) -> PeerKeysModel {
        PeerKeysModel { psk: key_view(self.psk), public_key: key_view(self.public_key) }
    }
}

impl View for ConfigKeys {
    type V = KeysModel;

    open spec fn view(&self) -> KeysModel {
        KeysModel {
            private_key: key_view(self.private_key),
            peers: self.peers@.map_values(|keys: PeerKeys| keys@),
        }
    }
}

impl Config {
    /// The keys that the configuration's texts decode to.
    pub open spec fn decoded_keys(self) -> KeysModel {
        KeysModel {
            private_key: key_of(base64_bytes(self.interface.private_key@)),
            peers: self.peer@.map_values(
                |peer: PeerConfig|
                    PeerKeysModel {
                        psk: key_of(base64_bytes(peer.psk@)),
                        public_key: key_of(base64_bytes(peer.public_key@)),
                    },
            ),
        }
    }

    /// Decodes every key of the configuration.
    pub fn keys(&self) -> (keys: ConfigKeys)
        ensures
            keys@ == self.decoded_keys(),
    {
        let private_key = decode_key(self.interface.private_key.as_str());
        let mut peers: Vec<PeerKeys> = Vec::new();
        let mut i: usize = 0;
        while i < self.peer.len()
            invariant
                i <= self.peer.len(),
                peers@.len() == i,
                forall|j: int|
                    #![trigger peers@[j]]
                    0 <= j < i ==> peers@[j]@ == self.decoded_keys().peers[j],
            decreases self.peer.len() - i,
        {
            let psk = decode_psk(self.peer[i].psk.as_str());
            let public_key = decode_key(self.peer[i].public_key.as_str());
            peers.push(PeerKeys { psk, public_key });
            i = i + 1;
        }
        let keys = ConfigKeys { private_key, peers };
        assert(keys@.peers =~= self.decoded_keys().peers);
        keys
    }
}

// ---------------------------------------------------------------------------
// Validation.
// ---------------------------------------------------------------------------

/// The position before `end` of the first peer with this name.
pub open spec fn peer_named(peers: Seq<PeerConfig>, end: int, name: Seq<char>) -> Option<int>
    decreases end,
{
    if end <= 0 {
        None
    } else {
        match peer_named(peers, end - 1, name) {
            Some(i) => Some(i),
            None => if peers[end - 1].name@ == name {
                Some(end - 1)
            } else {
                None
            },
        }
    }
}

/// The position before `end` of the first peer with this pre-shared key.
pub open spec fn peer_with_psk(keys: Seq<PeerKeysModel>, end: int, psk: Seq<u8>) -> Option<int>
    decreases end,
{
    if end <= 0 {
        None
    } else {
        match peer_with_psk(keys, end - 1, psk) {
            Some(i) => Some(i),
            None => if keys[end - 1].psk == Some(psk) {
                Some(end - 1)
            } else {
                None
            },
        }
    }
}

/// The position before `end` of the first peer with this public key.
pub open spec fn peer_with_public_key(
    keys: Seq<PeerKeysModel>,
    end: int,
    key: Seq<u8>,
) -> Option<int>
    decreases end,
{
    if end <= 0 {
        None
    } else {
        match peer_with_public_key(keys, end - 1, key) {
            Some(i) => Some(i),
            None => if keys[end - 1].public_key == Some(key) {
                Some(end - 1)
            } else {
                None
            },
        }
    }
}

impl PeerConfig {
    /// What is wrong with the peer's timers, if anything is.
    pub open spec fn timer_fault(self, transport: TransportConfig) -> Option<ConfigFault> {
        if self.udp_rebind_after > 0 && transport != TransportConfig::Udp {
            Some(ConfigFault::UdpRebindRequiresUdp(self.name@))
        } else if self.udp_rebind_after > 0 && self.persistent_keepalive == 0 {
            Some(ConfigFault::UdpRebindRequiresKeepalive(self.name@))
        } else if self.udp_rebind_after > 0 && self.udp_rebind_after <= self.persistent_keepalive {
            Some(
                ConfigFault::UdpRebindTooSoon {
                    peer: self.name@,
                    rebind_after: self.udp_rebind_after,
                    keepalive: self.persistent_keepalive,
                },
            )
        } else {
            match self.session_timeout {
                Some(timeout) => if timeout > 0 && self.persistent_keepalive == 0 {
                    Some(ConfigFault::SessionTimeoutRequiresKeepalive(self.name@))
                } else if timeout > 0 && timeout <= self.persistent_keepalive {
                    Some(
                        ConfigFault::SessionTimeoutTooSoon {
                            peer: self.name@,
                            timeout,
                            keepalive: self.persistent_keepalive,
                        },
                    )
                } else {
                    None
                },
                None => None,
            }
        }
    }

    fn check_timers(&self, transport: TransportConfig) -> (checked: Result<(), ConfigError>)
        ensures
            match checked {
                Ok(_) => self.timer_fault(transport) is None,
                Err(error) => self.timer_fault(transport) == Some(error@),
            },
    {
        if self.udp_rebind_after > 0 {
            if transport != TransportConfig::Udp {
                return Err(ConfigError::UdpRebindRequiresUdp(self.name.clone()));
            }
            if self.persistent_keepalive == 0 {
                return Err(ConfigError::UdpRebindRequiresKeepalive(self.name.clone()));
            }
            if self.udp_rebind_after <= self.persistent_keepalive {
                return Err(
                    ConfigError::UdpRebindTooSoon {
                        peer: self.name.clone(),
                        rebind_after: self.udp_rebind_after,
                        keepalive: self.persistent_keepalive,
                    },
                );
            }
        }
        if let Some(timeout) = self.session_timeout {
            if timeout > 0 {
                if self.persistent_keepalive == 0 {
                    return Err(ConfigError::SessionTimeoutRequiresKeepalive(self.name.clone()));
                }
                if timeout <= self.persistent_keepalive {
                    return Err(
                        ConfigError::SessionTimeoutTooSoon {
                            peer: self.name.clone(),
                            timeout,
                            keepalive: self.persistent_keepalive,
                        },
                    );
                }
            }
        }
        Ok(())
    }

    /// Effective transport-independent authenticated-session timeout.
    ///
    /// TCP needs a default because reconnecting its byte stream does not
    /// recreate the Noise session that the remote process lost. An explicit
    /// zero lets operators retain the old no-timeout behavior when desired.
    pub fn effective_session_timeout(&self, transport: TransportConfig) -> (seconds: u64)
        ensures
            seconds == self.session_timeout_seconds(transport),
    {
        match self.session_timeout {
            Some(timeout) => timeout as u64,
            None => if transport == TransportConfig::Tcp && self.persistent_keepalive > 0 {
                let three: u64 = self.persistent_keepalive as u64 * 3;
                if three > 15 {
                    three
                } else {
                    15
                }
            } else {
                0
            },
        }
    }

    /// The timeout in seconds: the explicit one, or three keepalive intervals
    /// of at least fifteen seconds for TCP, or none.
    pub open spec fn session_timeout_seconds(self, transport: TransportConfig) -> int {
        match self.session_timeout {
            Some(timeout) => timeout as int,
            None => if transport == TransportConfig::Tcp && self.persistent_keepalive > 0 {
                if self.persistent_keepalive * 3 > 15 {
                    self.persistent_keepalive * 3
                } else {
                    15
                }
            } else {
                0
            },
        }
    }
}

impl Config {
    /// What is wrong with peer `i`, given that nothing is with those before.
    pub open spec fn peer_fault(self, keys: Seq<PeerKeysModel>, i: int) -> Option<ConfigFault> {
        let peer = self.peer@[i];
        if crate::text::blank(peer.name@) {
            Some(ConfigFault::EmptyPeerName)
        } else if peer_named(self.peer@, i, peer.name@) is Some {
            Some(ConfigFault::DuplicatePeerName(peer.name@))
        } else if peer.allowed_ips@.len() == 0 {
            Some(ConfigFault::PeerWithoutAllowedIps(peer.name@))
        } else {
            match keys[i].psk {
                None => Some(ConfigFault::InvalidPsk(peer.name@)),
                Some(psk) => match peer_with_psk(keys, i, psk) {
                    Some(j) => Some(
                        ConfigFault::DuplicatePeerPsk {
                            first: self.peer@[j].name@,
                            second: peer.name@,
                        },
                    ),
                    None => match keys[i].public_key {
                        None => Some(ConfigFault::InvalidPublicKey(peer.name@)),
                        Some(key) => match peer_with_public_key(keys, i, key) {
                            Some(j) => Some(
                                ConfigFault::DuplicatePeerPublicKey {
                                    first: self.peer@[j].name@,
                                    second: peer.name@,
                                },
                            ),
                            None => peer.timer_fault(self.interface.transport),
                        },
                    },
                },
            }
        }
    }

    /// The first fault of the peers from position `i` on.
    pub open spec fn peers_fault(self, keys: Seq<PeerKeysModel>, i: int) -> Option<ConfigFault>
        decreases self.peer@.len() - i,
    {
        if i >= self.peer@.len() {
            None
        } else {
            match self.peer_fault(keys, i) {
                Some(fault) => Some(fault),
                None => self.peers_fault(keys, i + 1),
            }
        }
    }

    /// The first rule that the configuration breaks, given its keys.
    pub open spec fn fault(self, keys: KeysModel) -> Option<ConfigFault> {
        if crate::text::blank(self.interface.name@) {
            Some(ConfigFault::EmptyInterfaceName)
        } else if self.interface.mtu < MINIMUM_MTU {
            Some(ConfigFault::MtuTooSmall(self.interface.mtu))
        } else if keys.private_key is None {
            Some(ConfigFault::InvalidPrivateKey)
        } else {
            self.peers_fault(keys.peers, 0)
        }
    }

    /// Checks the configuration: it is accepted exactly if it breaks no rule,
    /// and otherwise the first broken rule is reported.
    pub fn validate(&self) -> (checked: Result<(), ConfigError>)
        ensures
            match checked {
                Ok(_) => self.fault(self.decoded_keys()) is None,
                Err(error) => self.fault(self.decoded_keys()) == Some(error@),
            },
    {
        let keys = self.keys();
        assert(keys@.peers.len() == self.peer@.len());
        self.validate_keys(&keys)
    }

    /// Checks the configuration with its keys already decoded.
    pub fn validate_keys(&self, keys: &ConfigKeys) -> (checked: Result<(), ConfigError>)
        requires
            keys.peers@.len() == self.peer@.len(),
        ensures
            match checked {
                Ok(_) => self.fault(keys@) is None,
                Err(error) => self.fault(keys@) == Some(error@),
            },
    {
        if is_blank(self.interface.name.as_str()) {
            return Err(ConfigError::EmptyInterfaceName);
        }
        if self.interface.mtu < MINIMUM_MTU {
            return Err(ConfigError::MtuTooSmall(self.interface.mtu));
        }
        if keys.private_key.is_none() {
            return Err(ConfigError::InvalidPrivateKey);
        }
        let mut i: usize = 0;
        while i < self.peer.len()
            invariant
                i <= self.peer.len(),
                keys.peers@.len() == self.peer@.len(),
                self.fault(keys@) == self.peers_fault(keys@.peers, i as int),
            decreases self.peer.len() - i,
        {
            match self.check_peer(keys, i) {
                Ok(_) => {},
                Err(error) => {
                    return Err(error);
                },
            }
            i = i + 1;
        }
        Ok(())
    }

    fn check_peer(&self, keys: &ConfigKeys, i: usize) -> (checked: Result<(), ConfigError>)
        requires
            i < self.peer@.len(),
            keys.peers@.len() == self.peer@.len(),
        ensures
            match checked {
                Ok(_) => self.peer_fault(keys@.peers, i as int) is None,
                Err(error) => self.peer_fault(keys@.peers, i as int) == Some(error@),
            },
    {
        let peer = &self.peer[i];
        if is_blank(peer.name.as_str()) {
            return Err(ConfigError::EmptyPeerName);
        }
        if self.name_before(i, peer.name.as_str()) {
            return Err(ConfigError::DuplicatePeerName(peer.name.clone()));
        }
        if peer.allowed_ips.len() == 0 {
            return Err(ConfigError::PeerWithoutAllowedIps(peer.name.clone()));
        }
        assert(keys@.peers[i as int] == keys.peers@[i as int]@);
        let psk = match keys.peers[i].psk {
            Some(psk) => psk,
            None => {
                return Err(ConfigError::InvalidPsk(peer.name.clone()));
            },
        };
        if let Some(j) = psk_before(keys, i, &psk) {
            return Err(
                ConfigError::DuplicatePeerPsk {
                    first: self.peer[j].name.clone(),
                    second: peer.name.clone(),
                },
            );
        }
        let public_key = match keys.peers[i].public_key {
            Some(key) => key,
            None => {
                return Err(ConfigError::InvalidPublicKey(peer.name.clone()));
            },
        };
        if let Some(j) = public_key_before(keys, i, &public_key) {
            return Err(
                ConfigError::DuplicatePeerPublicKey {
                    first: self.peer[j].name.clone(),
                    second: peer.name.clone(),
                },
            );
        }
        peer.check_timers(self.interface.transport)
    }

    fn name_before(&self, end: usize, name: &str) -> (found: bool)
        requires
            end <= self.peer@.len(),
        ensures
            found == (peer_named(self.peer@, end as int, name@) is Some),
    {
        let mut found = false;
        let mut i: usize = 0;
        while i < end
            invariant
                i <= end <= self.peer@.len(),
                found == (peer_named(self.peer@, i as int, name@) is Some),
            decreases end - i,
        {
            if same_text(self.peer[i].name.as_str(), name) {
                found = true;
            }
            i = i + 1;
        }
        found
    }
}

fn psk_before(keys: &ConfigKeys, end: usize, psk: &[u8; 32]) -> (found: Option<usize>)
    requires
        end <= keys.peers@.len(),
    ensures
        match found {
            Some(j) => j < end && peer_with_psk(keys@.peers, end as int, psk@) == Some(j as int),
            None => peer_with_psk(keys@.peers, end as int, psk@) is None,
        },
{
    let mut found: Option<usize> = None;
    let mut i: usize = 0;
    while i < end
        invariant
            i <= end <= keys.peers@.len(),
            match found {
                Some(j) => j < i && peer_with_psk(keys@.peers, i as int, psk@) == Some(j as int),
                None => peer_with_psk(keys@.peers, i as int, psk@) is None,
            },
        decreases end - i,
    {
        if found.is_none() {
            assert(keys@.peers[i as int] == keys.peers@[i as int]@);
            if let Some(other) = keys.peers[i].psk {
                if same_bytes(other.as_slice(), psk.as_slice()) {
                    found = Some(i);
                }
            }
        }
        i = i + 1;
    }
    found
}

fn public_key_before(keys: &ConfigKeys, end: usize, key: &[u8; 32]) -> (found: Option<usize>)
    requires
        end <= keys.peers@.len(),
    ensures
        match found {
            Some(j) => j < end && peer_with_public_key(keys@.peers, end as int, key@) == Some(j as int),
            None => peer_with_public_key(keys@.peers, end as int, key@) is None,
        },
{
    let mut found: Option<usize> = None;
    let mut i: usize = 0;
    while i < end
        invariant
            i <= end <= keys.peers@.len(),
            match found {
                Some(j) => j < i && peer_with_public_key(keys@.peers, i as int, key@) == Some(j as int),
                None => peer_with_public_key(keys@.peers, i as int, key@) is None,
            },
        decreases end - i,
    {
        if found.is_none() {
            assert(keys@.peers[i as int] == keys.peers@[i as int]@);
            if let Some(other) = keys.peers[i].public_key {
                if same_bytes(other.as_slice(), key.as_slice()) {
                    found = Some(i);
                }
            }
        }
        i = i + 1;
    }
    found
}

// ---------------------------------------------------------------------------
// Laws.
// ---------------------------------------------------------------------------

proof fn lemma_no_fault_at(config: Config, keys: Seq<PeerKeysModel>, start: int, i: int)
    requires
        0 <= start <= i < config.peer@.len(),
        config.peers_fault(keys, start) is None,
    ensures
        config.peer_fault(keys, i) is None,
    decreases i - start,
{
    if start < i {
        lemma_no_fault_at(config, keys, start + 1, i);
    }
}

proof fn lemma_search_finds(
    peers: Seq<PeerConfig>,
    keys: Seq<PeerKeysModel>,
    end: int,
    i: int,
)
    requires
        0 <= i < end,
    ensures
        peer_named(peers, end, peers[i].name@) is Some,
        keys[i].psk matches Some(psk) ==> peer_with_psk(keys, end, psk) is Some,
        keys[i].public_key matches Some(key) ==> peer_with_public_key(keys, end, key) is Some,
    decreases end,
{
    if i < end - 1 {
        lemma_search_finds(peers, keys, end - 1, i);
    }
}

/// A key has one text: what decodes to the same key is the same text.
pub proof fn a_key_has_one_text(first: Seq<char>, second: Seq<char>, key: [u8; 32])
    requires
        decodes_key(first, Some(key)),
        decodes_key(second, Some(key)),
    ensures
        first == second,
{
    let text = base64_text(key@);
}

/// In an accepted configuration every key decodes, every peer has a name and
/// an allowed prefix, and no two peers share a name, a pre-shared key or a
/// public key.
pub proof fn accepted_peers_are_complete_and_distinct(config: Config, keys: KeysModel, i: int)
    requires
        config.fault(keys) is None,
        0 <= i < config.peer@.len(),
    ensures
        keys.private_key is Some,
        keys.peers[i].psk is Some,
        keys.peers[i].public_key is Some,
        !crate::text::blank(config.peer@[i].name@),
        config.peer@[i].allowed_ips@.len() > 0,
        forall|j: int|
            #![trigger config.peer@[j]]
            #![trigger keys.peers[j]]
            0 <= j < config.peer@.len() && j != i ==> {
                &&& config.peer@[j].name@ != config.peer@[i].name@
                &&& keys.peers[j].psk != keys.peers[i].psk
                &&& keys.peers[j].public_key != keys.peers[i].public_key
            },
{
    lemma_no_fault_at(config, keys.peers, 0, i);
    assert forall|j: int|
        #![trigger config.peer@[j]]
        #![trigger keys.peers[j]]
        0 <= j < config.peer@.len() && j != i implies {
        &&& config.peer@[j].name@ != config.peer@[i].name@
        &&& keys.peers[j].psk != keys.peers[i].psk
        &&& keys.peers[j].public_key != keys.peers[i].public_key
    } by {
        lemma_no_fault_at(config, keys.peers, 0, j);
        if j < i {
            lemma_search_finds(config.peer@, keys.peers, i, j);
        } else {
            lemma_search_finds(config.peer@, keys.peers, j, i);
        }
    }
}

proof fn lemma_first_ipv4(addresses: Seq<SocketAddr>, i: int)
    requires
        0 <= i,
    ensures
        match first_ipv4(addresses, i) {
            Some(address) => address is V4 && exists|j: int|
                #![trigger addresses[j]]
                i <= j < addresses.len() && addresses[j] == address && forall|l: int|
                    #![trigger addresses[l]]
                    i <= l < j ==> addresses[l] is V6,
            None => forall|j: int|
                #![trigger addresses[j]]
                i <= j < addresses.len() ==> addresses[j] is V6,
        },
    decreases addresses.len() - i,
{
    if i < addresses.len() {
        lemma_first_ipv4(addresses, i + 1);
    }
}

/// Of the addresses that an endpoint resolves to, the first IPv4 one is used;
/// where there is none, the first; and there is no endpoint only where it
/// resolves to none.
pub proof fn ipv4_endpoints_are_preferred(addresses: Vec<SocketAddr>)
    ensures
        (Resolution::Addresses(addresses)).preferred() is Some <==> addresses@.len() > 0,
        (Resolution::Addresses(addresses)).preferred() matches Some(chosen) ==> exists|j: int|
            #![trigger addresses@[j]]
            0 <= j < addresses@.len() && addresses@[j] == chosen && (chosen is V6 ==> j == 0)
                && forall|l: int|
                #![trigger addresses@[l]]
                0 <= l < addresses@.len() && addresses@[l] is V4 ==> chosen is V4 && l >= j,
{
    lemma_first_ipv4(addresses@, 0);
    if first_ipv4(addresses@, 0) is None && addresses@.len() > 0 {
        assert(addresses@[0] is V6);
    }
}

/// Whether a peer's timers are in order: a rebind needs UDP, and a rebind and a
/// session timeout each need keepalives that come before it.
pub open spec fn timers_in_order(peer: PeerConfig, transport: TransportConfig) -> bool {
    &&& peer.udp_rebind_after == 0 || (transport == TransportConfig::Udp
        && 0 < peer.persistent_keepalive < peer.udp_rebind_after)
    &&& peer.session_timeout matches Some(timeout) ==> timeout == 0 || 0
        < peer.persistent_keepalive < timeout
}

proof fn lemma_no_peers_fault(config: Config, keys: Seq<PeerKeysModel>, from: int)
    requires
        0 <= from,
        forall|i: int|
            #![trigger config.peer@[i]]
            0 <= i < config.peer@.len() ==> config.peer_fault(keys, i) is None,
    ensures
        config.peers_fault(keys, from) is None,
    decreases config.peer@.len() - from,
{
    if from < config.peer@.len() {
        assert(config.peer_fault(keys, from) is None) by {
            let peer = config.peer@[from];
        }
        lemma_no_peers_fault(config, keys, from + 1);
    }
}

proof fn lemma_search_misses(
    peers: Seq<PeerConfig>,
    keys: Seq<PeerKeysModel>,
    end: int,
    i: int,
)
    requires
        0 <= end <= i,
        forall|j: int|
            #![trigger peers[j]]
            #![trigger keys[j]]
            0 <= j < i ==> peers[j].name@ != peers[i].name@ && keys[j].psk != keys[i].psk
                && keys[j].public_key != keys[i].public_key,
        keys[i].psk is Some,
        keys[i].public_key is Some,
    ensures
        peer_named(peers, end, peers[i].name@) is None,
        peer_with_psk(keys, end, keys[i].psk->0) is None,
        peer_with_public_key(keys, end, keys[i].public_key->0) is None,
    decreases end,
{
    if end > 0 {
        lemma_search_misses(peers, keys, end - 1, i);
        let peer = peers[end - 1];
        let key = keys[end - 1];
    }
}

/// A configuration is accepted if the interface has a name, a sufficient MTU and
/// a private key that decodes, and every peer has a name, a prefix, keys that
/// decode and timers in order, and shares no name and no key with another.
pub proof fn complete_and_distinct_peers_are_accepted(config: Config, keys: KeysModel)
    requires
        !crate::text::blank(config.interface.name@),
        config.interface.mtu >= 576,
        keys.private_key is Some,
        forall|i: int|
            #![trigger config.peer@[i]]
            #![trigger keys.peers[i]]
            0 <= i < config.peer@.len() ==> {
                &&& !crate::text::blank(config.peer@[i].name@)
                &&& config.peer@[i].allowed_ips@.len() > 0
                &&& keys.peers[i].psk is Some
                &&& keys.peers[i].public_key is Some
                &&& timers_in_order(config.peer@[i], config.interface.transport)
            },
        forall|i: int, j: int|
            #![trigger config.peer@[i], config.peer@[j]]
            #![trigger keys.peers[i], keys.peers[j]]
            0 <= j < i < config.peer@.len() ==> {
                &&& config.peer@[i].name@ != config.peer@[j].name@
                &&& keys.peers[i].psk != keys.peers[j].psk
                &&& keys.peers[i].public_key != keys.peers[j].public_key
            },
    ensures
        config.fault(keys) is None,
{
    assert forall|i: int|
        #![trigger config.peer@[i]]
        0 <= i < config.peer@.len() implies config.peer_fault(keys.peers, i) is None by {
        lemma_search_misses(config.peer@, keys.peers, i, i);
    }
    lemma_no_peers_fault(config, keys.peers, 0);
}

/// In an accepted configuration every peer's timers are in order, and the
/// interface has a name and a sufficient MTU.
pub proof fn accepted_timers_are_in_order(config: Config, keys: KeysModel, i: int)
    requires
        config.fault(keys) is None,
        0 <= i < config.peer@.len(),
    ensures
        timers_in_order(config.peer@[i], config.interface.transport),
        config.interface.mtu >= 576,
        !crate::text::blank(config.interface.name@),
{
    lemma_no_fault_at(config, keys.peers, 0, i);
}

/// An explicit session timeout is taken as it is. Without one, a TCP peer with
/// keepalives gets the longer of three intervals and fifteen seconds, and every
/// other peer none.
pub proof fn session_timeouts_are_explicit_or_derived(peer: PeerConfig, transport: TransportConfig)
    ensures
        ({
            let seconds = peer.session_timeout_seconds(transport);
            &&& peer.session_timeout matches Some(timeout) ==> seconds == timeout
            &&& peer.session_timeout is None && transport == TransportConfig::Tcp
                && peer.persistent_keepalive > 0 ==> seconds >= 15 && seconds >= 3
                * peer.persistent_keepalive && (seconds == 15 || seconds == 3
                * peer.persistent_keepalive)
            &&& peer.session_timeout is None && (transport != TransportConfig::Tcp
                || peer.persistent_keepalive == 0) ==> seconds == 0
        }),
{
}

/// A key is the decoded bytes, if there are thirty-two of them, and nothing
/// otherwise.
pub proof fn keys_have_32_bytes(bytes: Seq<u8>)
    ensures
        key_of(Some(bytes)) == if bytes.len() == 32 {
            Some(bytes)
        } else {
            None
        },
        key_of(None) is None,
{
}

} // verus!

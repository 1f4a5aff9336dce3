//! Noise session handling for the HushWire v3 wire protocol.
//!
//! v3 uses `Noise_IKpsk2_25519_ChaChaPoly_BLAKE2s` through the `snow`
//! state machine. The public packet counter is passed to Noise's stateless
//! transport API as the ChaCha20-Poly1305 nonce; it is never random and never
//! reused within a sending key.
//!
//! Instants are nanoseconds of one monotonic clock.

use rand::RngCore;
use vstd::prelude::*;

use crate::auth::{self, MsgType, ParsedPacket, SESSION_ID_SIZE};
use crate::bytes::read_array8;
use crate::replay::{ReplayHistory, ReplayWindow};

verus! {

pub const NOISE_PATTERN: &'static str = "Noise_IKpsk2_25519_ChaChaPoly_BLAKE2s";

pub const REKEY_AFTER_TIME: u64 = 120_000_000_000;
pub const REJECT_AFTER_TIME: u64 = 180_000_000_000;
pub const REKEY_AFTER_MESSAGES: u64 = 0x1_0000_0000;

/// The place of the pre-shared key in the handshake pattern.
const PSK_LOCATION: u8 = 2;
pub const AEAD_TAG_SIZE: usize = 16;
pub const MAX_NOISE_MESSAGE_SIZE: usize = 65_535;

// ---------------------------------------------------------------------------
// What the Noise implementation is trusted to do.
// ---------------------------------------------------------------------------

/// `snow`'s handshake state machine, carried through without being looked into.
#[verifier::external_type_specification]
#[verifier::external_body]
pub struct ExHandshakeState(snow::HandshakeState);

/// `snow`'s transport ciphers, carried through without being looked into.
#[verifier::external_type_specification]
#[verifier::external_body]
pub struct ExStatelessTransportState(snow::StatelessTransportState);

/// The error that `snow` reports.
#[verifier::external_type_specification]
#[verifier::external_body]
pub struct ExSnowError(snow::Error);

/// What a handshake state of the pattern `NOISE_PATTERN` holds: the key
/// material it was built from and the messages that it wrote or read so far.
/// The local ephemeral key is not listed: its public half stands in the
/// message that announced it.
pub struct HandshakeRecord {
    pub initiator: bool,
    pub private_key: Seq<u8>,
    pub remote_public_key: Option<Seq<u8>>,
    pub psk: Seq<u8>,
    pub prologue: Seq<u8>,
    pub first: Option<Seq<u8>>,
    pub second: Option<Seq<u8>>,
}

impl HandshakeRecord {
    /// The initiator's state before its first message.
    pub open spec fn initiator(
        private_key: Seq<u8>,
        remote_public_key: Seq<u8>,
        psk: Seq<u8>,
        prologue: Seq<u8>,
    ) -> HandshakeRecord {
        HandshakeRecord {
            initiator: true,
            private_key,
            remote_public_key: Some(remote_public_key),
            psk,
            prologue,
            first: None,
            second: None,
        }
    }

    /// The responder's state before it has read anything.
    pub open spec fn responder(private_key: Seq<u8>, psk: Seq<u8>, prologue: Seq<u8>) -> HandshakeRecord {
        HandshakeRecord {
            initiator: false,
            private_key,
            remote_public_key: None,
            psk,
            prologue,
            first: None,
            second: None,
        }
    }

    /// Whether the next message is this side's to write.
    pub open spec fn writes_next(self) -> bool {
        self.second is None && self.initiator == (self.first is None)
    }

    /// Whether the next message is this side's to read.
    pub open spec fn reads_next(self) -> bool {
        self.second is None && self.initiator == (self.first is Some)
    }

    /// The state after `message` has been written or read.
    pub open spec fn then_message(self, message: Seq<u8>) -> HandshakeRecord {
        if self.first is None {
            HandshakeRecord { first: Some(message), ..self }
        } else {
            HandshakeRecord { second: Some(message), ..self }
        }
    }

    /// Whether a responder in state `self` can read what the initiator
    /// `writer` sends first: the initiator addressed the responder's public
    /// key, and both mixed in one prologue.
    pub open spec fn can_read_first_of(self, writer: HandshakeRecord) -> bool {
        &&& writer.initiator && !self.initiator
        &&& self.first is None && self.second is None
        &&& writer.remote_public_key == Some(static_public_key(self.private_key))
        &&& self.prologue == writer.prologue
    }

    /// Whether an initiator in state `self` can read what the responder
    /// `writer` answers: they share the first message, the prologue and the
    /// pre-shared key, and know each other's public keys.
    pub open spec fn can_read_second_of(self, writer: HandshakeRecord) -> bool {
        &&& self.initiator && !writer.initiator
        &&& self.first is Some && self.first == writer.first
        &&& self.second is None && writer.second is None
        &&& self.remote_public_key == Some(static_public_key(writer.private_key))
        &&& revealed_static_key(writer) == Some(static_public_key(self.private_key))
        &&& self.psk == writer.psk
        &&& self.prologue == writer.prologue
    }
}

/// What a `snow::HandshakeState` holds.
pub uninterp spec fn handshake_record(state: snow::HandshakeState) -> HandshakeRecord;

/// The payload that `snow::HandshakeState::read_message` finds in `message`,
/// if the message is one that a state holding `record` can read.
pub uninterp spec fn handshake_payload(record: HandshakeRecord, message: Seq<u8>) -> Option<Seq<u8>>;

/// The remote static key that `snow::HandshakeState::get_remote_static`
/// returns for a state holding `record`.
pub uninterp spec fn revealed_static_key(record: HandshakeRecord) -> Option<Seq<u8>>;

/// The two transport keys, initiator to responder first, that
/// `snow::HandshakeState::into_stateless_transport_mode` hands over from a
/// finished handshake.
pub uninterp spec fn transport_keys(record: HandshakeRecord) -> (Seq<u8>, Seq<u8>);

/// The key under which a `snow::StatelessTransportState` sends; none where
/// the handshake pattern lets this side not send at all.
pub uninterp spec fn sending_key(transport: snow::StatelessTransportState) -> Option<Seq<u8>>;

/// The key under which a `snow::StatelessTransportState` receives; none where
/// the handshake pattern lets this side not receive at all.
pub uninterp spec fn receiving_key(transport: snow::StatelessTransportState) -> Option<Seq<u8>>;

/// The ciphertext that `snow::StatelessTransportState::write_message` makes.
pub uninterp spec fn sealed(key: Seq<u8>, nonce: u64, plaintext: Seq<u8>) -> Seq<u8>;

/// The plaintext that `snow::StatelessTransportState::read_message` finds;
/// none where it refuses the ciphertext.
pub uninterp spec fn opened(key: Seq<u8>, nonce: u64, ciphertext: Seq<u8>) -> Option<Seq<u8>>;

/// The public key that `x25519_dalek::PublicKey::from` derives from a secret.
pub uninterp spec fn static_public_key(secret: Seq<u8>) -> Seq<u8>;

/// `x25519_dalek::PublicKey::from(&StaticSecret)`: the X25519 public key of a
/// secret, a function of the secret's bytes alone.
#[verifier::external_body]
pub(crate) fn x25519_public_key(secret: &[u8; 32]) -> (public_key: [u8; 32])
    ensures
        public_key@ == static_public_key(secret@),
{
    let secret = x25519_dalek::StaticSecret::from(*secret);
    x25519_dalek::PublicKey::from(&secret).to_bytes()
}

/// `rand::rngs::OsRng.fill_bytes`: overwrites every byte with one from the
/// operating system's generator, of which nothing is known. It panics only
/// where the operating system has no randomness to give.
#[verifier::external_body]
pub(crate) fn fill_random(bytes: &mut Vec<u8>)
    ensures
        final(bytes)@.len() == old(bytes)@.len(),
{
    rand::rngs::OsRng.fill_bytes(bytes)
}

/// `snow::Builder` with a private key, the remote public key, a pre-shared
/// key and a prologue, ended by `build_initiator`. For this pattern nothing
/// is missing, so it succeeds, and the state holds what it was given.
#[verifier::external_body]
fn build_initiator(
    pattern: &str,
    private_key: &[u8; 32],
    remote_public_key: &[u8; 32],
    psk_location: u8,
    psk: &[u8; 32],
    prologue: &[u8],
) -> (built: Result<snow::HandshakeState, snow::Error>)
    requires
        pattern@ == NOISE_PATTERN@,
        psk_location == PSK_LOCATION,
    ensures
        built is Ok,
        handshake_record(built->Ok_0) == HandshakeRecord::initiator(
            private_key@,
            remote_public_key@,
            psk@,
            prologue@,
        ),
{
    snow::Builder::new(pattern.parse()?)
        .local_private_key(private_key)?
        .remote_public_key(remote_public_key)?
        .psk(psk_location, psk)?
        .prologue(prologue)?
        .build_initiator()
}

/// `snow::Builder` with a private key, a pre-shared key and a prologue, ended
/// by `build_responder`. For this pattern nothing is missing, so it succeeds,
/// and the state holds what it was given.
#[verifier::external_body]
fn build_responder(
    pattern: &str,
    private_key: &[u8; 32],
    psk_location: u8,
    psk: &[u8; 32],
    prologue: &[u8],
) -> (built: Result<snow::HandshakeState, snow::Error>)
    requires
        pattern@ == NOISE_PATTERN@,
        psk_location == PSK_LOCATION,
    ensures
        built is Ok,
        handshake_record(built->Ok_0) == HandshakeRecord::responder(
            private_key@,
            psk@,
            prologue@,
        ),
{
    snow::Builder::new(pattern.parse()?)
        .local_private_key(private_key)?
        .psk(psk_location, psk)?
        .prologue(prologue)?
        .build_responder()
}

/// `snow::HandshakeState::write_message`. The ephemeral key is random, so the
/// message is not a function of the state, and the call may fail for want of
/// randomness. What holds of every message: it is this side's turn; the first
/// message adds 96 bytes to its payload and the second 48, for keys and tags;
/// the message is what the state has now written; and the peer for whom it is
/// meant reads the payload out of it. From the first message that peer learns
/// the writer's static key; after the second both sides hold the same
/// transport keys. The buffer has to have room for the keys of the first
/// message, which `snow` seals without looking for it.
#[verifier::external_body]
fn handshake_write(
    state: &mut snow::HandshakeState,
    payload: &[u8],
    message: &mut Vec<u8>,
) -> (written: Result<usize, snow::Error>)
    requires
        96 <= old(message)@.len(),
    ensures
        final(message)@.len() == old(message)@.len(),
        written matches Ok(n) ==> {
            let before = handshake_record(*old(state));
            let sent = final(message)@.take(n as int);
            &&& n <= final(message)@.len()
            &&& before.writes_next()
            &&& n == payload@.len() + if before.first is None {
                96int
            } else {
                48
            }
            &&& handshake_record(*final(state)) == before.then_message(sent)
            &&& forall|peer: HandshakeRecord|
                #![trigger handshake_payload(peer, sent)]
                before.first is None && peer.can_read_first_of(before) ==> handshake_payload(
                    peer,
                    sent,
                ) == Some(payload@) && revealed_static_key(peer.then_message(sent)) == Some(
                    static_public_key(before.private_key),
                )
            &&& forall|peer: HandshakeRecord|
                #![trigger handshake_payload(peer, sent)]
                before.first is Some && peer.can_read_second_of(before) ==> handshake_payload(
                    peer,
                    sent,
                ) == Some(payload@) && transport_keys(peer.then_message(sent)) == transport_keys(
                    before.then_message(sent),
                )
        },
{
    state.write_message(payload, message)
}

/// `snow::HandshakeState::read_message`: succeeds exactly where it is this
/// side's turn to read, the message authenticates, and the payload fits the
/// buffer; the state has then read the message.
#[verifier::external_body]
fn handshake_read(
    state: &mut snow::HandshakeState,
    message: &[u8],
    payload: &mut Vec<u8>,
) -> (read: Result<usize, snow::Error>)
    ensures
        final(payload)@.len() == old(payload)@.len(),
        match read {
            Ok(n) => {
                &&& n <= final(payload)@.len()
                &&& handshake_record(*old(state)).reads_next()
                &&& handshake_payload(handshake_record(*old(state)), message@) == Some(
                    final(payload)@.take(n as int),
                )
                &&& handshake_record(*final(state)) == handshake_record(*old(state)).then_message(
                    message@,
                )
            },
            Err(_) => {
                ||| !handshake_record(*old(state)).reads_next()
                ||| match handshake_payload(handshake_record(*old(state)), message@) {
                    Some(found) => found.len() > old(payload)@.len(),
                    None => true,
                }
            },
        },
{
    state.read_message(message, payload)
}

/// `snow::HandshakeState::get_remote_static`, copied out.
#[verifier::external_body]
fn remote_static_key(state: &snow::HandshakeState) -> (key: Option<Vec<u8>>)
    ensures
        match key {
            Some(bytes) => revealed_static_key(handshake_record(*state)) == Some(bytes@),
            None => revealed_static_key(handshake_record(*state)) is None,
        },
{
    state.get_remote_static().map(|key| key.to_vec())
}

/// `snow::HandshakeState::into_stateless_transport_mode`: succeeds exactly
/// where both messages have been exchanged. The initiator then sends under
/// the first transport key and receives under the second, the responder the
/// other way round.
#[verifier::external_body]
fn into_transport(state: snow::HandshakeState) -> (transport: Result<
    snow::StatelessTransportState,
    snow::Error,
>)
    ensures
        transport is Ok == handshake_record(state).second is Some,
        transport matches Ok(t) ==> {
            let keys = transport_keys(handshake_record(state));
            if handshake_record(state).initiator {
                sending_key(t) == Some(keys.0) && receiving_key(t) == Some(keys.1)
            } else {
                sending_key(t) == Some(keys.1) && receiving_key(t) == Some(keys.0)
            }
        },
{
    state.into_stateless_transport_mode()
}

/// `snow::StatelessTransportState::write_message`: seals the payload under
/// the sending key and the nonce, and adds a tag of sixteen bytes. It fails
/// exactly where the pattern does not let this side send, the sealed message
/// exceeds Noise's limit or the buffer, or the nonce is the reserved one.
/// What it makes opens to the payload under the same key and nonce.
#[verifier::external_body]
fn transport_write(
    transport: &snow::StatelessTransportState,
    nonce: u64,
    payload: &[u8],
    message: &mut Vec<u8>,
) -> (written: Result<usize, snow::Error>)
    ensures
        final(message)@.len() == old(message)@.len(),
        written is Ok == (sending_key(*transport) is Some && payload@.len() + AEAD_TAG_SIZE
            <= MAX_NOISE_MESSAGE_SIZE && payload@.len() + AEAD_TAG_SIZE <= old(message)@.len()
            && nonce != u64::MAX),
        written matches Ok(n) ==> {
            let key = sending_key(*transport).unwrap();
            &&& n == payload@.len() + AEAD_TAG_SIZE
            &&& final(message)@.take(n as int) == sealed(key, nonce, payload@)
            &&& opened(key, nonce, final(message)@.take(n as int)) == Some(payload@)
        },
{
    transport.write_message(nonce, payload, message)
}

/// `snow::StatelessTransportState::read_message`: opens a sealed message
/// under the receiving key and the nonce, into a buffer with room for it.
/// The reserved nonce, a message above Noise's limit and one too short for
/// its tag are refused.
#[verifier::external_body]
fn transport_read(
    transport: &snow::StatelessTransportState,
    nonce: u64,
    ciphertext: &[u8],
    message: &mut Vec<u8>,
) -> (read: Result<usize, snow::Error>)
    requires
        ciphertext@.len() <= old(message)@.len() + AEAD_TAG_SIZE,
    ensures
        final(message)@.len() == old(message)@.len(),
        read is Ok == (receiving_key(*transport) is Some && opened(
            receiving_key(*transport).unwrap(),
            nonce,
            ciphertext@,
        ) is Some),
        read matches Ok(n) ==> {
            &&& n + AEAD_TAG_SIZE == ciphertext@.len()
            &&& ciphertext@.len() <= MAX_NOISE_MESSAGE_SIZE
            &&& nonce != u64::MAX
            &&& opened(receiving_key(*transport).unwrap(), nonce, ciphertext@) == Some(
                final(message)@.take(n as int),
            )
        },
{
    transport.read_message(nonce, ciphertext, message)
}

// ---------------------------------------------------------------------------
// Sessions.
// ---------------------------------------------------------------------------

#[derive(Debug)]
pub enum NoiseError {
    /// The Noise operation itself failed.
    Snow(snow::Error),
    /// The handshake did not reveal the configured remote static key.
    MissingRemoteStatic,
    /// The handshake's remote static key is not the configured peer's.
    RemoteStaticMismatch,
    /// The handshake response contained an invalid session identifier.
    InvalidSessionId,
    /// The transport packet belongs to another session.
    WrongSession,
    /// The transport packet is malformed.
    MalformedTransport,
    /// The transport counter is a replay or outside the receive window.
    Replay,
    /// The transport sending counter is exhausted.
    CounterExhausted,
}

/// A session as plain values.
pub struct SessionModel {
    pub session_id: Seq<u8>,
    pub sending_key: Seq<u8>,
    pub receiving_key: Seq<u8>,
    pub created_at: u64,
    pub send_counter: u64,
    pub received_messages: u64,
    pub replay: ReplayHistory,
}

/// What becomes of a transport packet that reaches a session.
pub enum Decryption {
    /// It carries another session's identifier.
    WrongSession,
    /// Its counter is recorded, or too old.
    Replay,
    /// It has no room for a tag and a type byte.
    TooShort,
    /// It does not open under the receiving key.
    Unauthentic,
    /// It opens, but its type byte is unknown.
    Unreadable,
    /// It opens to a message of a known type.
    Message(MsgType, Seq<u8>),
}

impl SessionModel {
    /// A session as negotiated at `now`, before any message.
    pub open spec fn fresh(
        session_id: Seq<u8>,
        sending_key: Seq<u8>,
        receiving_key: Seq<u8>,
        now: u64,
    ) -> SessionModel {
        SessionModel {
            session_id,
            sending_key,
            receiving_key,
            created_at: now,
            send_counter: 0,
            received_messages: 0,
            replay: ReplayHistory::fresh(),
        }
    }

    /// How long the session has existed; none at all before its creation.
    pub open spec fn age(self, now: u64) -> int {
        if now >= self.created_at {
            now - self.created_at
        } else {
            0
        }
    }

    pub open spec fn should_rekey(self, now: u64) -> bool {
        self.age(now) >= REKEY_AFTER_TIME || self.send_counter >= REKEY_AFTER_MESSAGES
            || self.received_messages >= REKEY_AFTER_MESSAGES
    }

    pub open spec fn is_expired(self, now: u64) -> bool {
        self.age(now) >= REJECT_AFTER_TIME || self.send_counter == u64::MAX
    }

    /// Whether `frame` is the transport packet that carries this message
    /// under the session's next counter, and opens to it again.
    pub open spec fn seals(self, msg_type: MsgType, payload: Seq<u8>, frame: Seq<u8>) -> bool {
        let plaintext = auth::transport_plaintext(msg_type, payload);
        let ciphertext = sealed(self.sending_key, self.send_counter, plaintext);
        &&& auth::is_transport_wire(frame, self.session_id, self.send_counter, ciphertext)
        &&& ciphertext.len() == plaintext.len() + AEAD_TAG_SIZE
        &&& opened(self.sending_key, self.send_counter, ciphertext) == Some(plaintext)
    }

    /// Whether a payload, its type byte and its tag fit one Noise message.
    pub open spec fn fits(payload: Seq<u8>) -> bool {
        payload.len() + 17 <= 65_535
    }

    /// The session after its next counter has been reserved.
    pub open spec fn counter_reserved(self) -> SessionModel {
        if self.send_counter == u64::MAX {
            self
        } else {
            SessionModel { send_counter: (self.send_counter + 1) as u64, ..self }
        }
    }

    /// The session after `n` encryptions.
    pub open spec fn after_encryptions(self, n: nat) -> SessionModel
        decreases n,
    {
        if n == 0 {
            self
        } else {
            self.after_encryptions((n - 1) as nat).counter_reserved()
        }
    }

    /// What becomes of a packet with this identifier, counter and ciphertext.
    pub open spec fn decryption(
        self,
        session_id: Seq<u8>,
        counter: u64,
        ciphertext: Seq<u8>,
    ) -> Decryption {
        if session_id != self.session_id {
            Decryption::WrongSession
        } else if !self.replay.accepts(counter) {
            Decryption::Replay
        } else if ciphertext.len() < AEAD_TAG_SIZE + 1 {
            Decryption::TooShort
        } else {
            match opened(self.receiving_key, counter, ciphertext) {
                None => Decryption::Unauthentic,
                Some(plaintext) => match auth::plaintext_meaning(plaintext) {
                    None => Decryption::Unreadable,
                    Some((msg_type, payload)) => Decryption::Message(msg_type, payload),
                },
            }
        }
    }

    /// The session after that packet: only an authentic one is counted and
    /// recorded.
    pub open spec fn decrypted(
        self,
        session_id: Seq<u8>,
        counter: u64,
        ciphertext: Seq<u8>,
    ) -> SessionModel {
        match self.decryption(session_id, counter, ciphertext) {
            Decryption::Unreadable | Decryption::Message(_, _) => SessionModel {
                replay: self.replay.record(counter),
                received_messages: if self.received_messages == u64::MAX {
                    u64::MAX
                } else {
                    (self.received_messages + 1) as u64
                },
                ..self
            },
            _ => self,
        }
    }
}

/// How a decryption is reported to the caller.
pub open spec fn reports(
    result: Result<(MsgType, Vec<u8>), NoiseError>,
    decryption: Decryption,
) -> bool {
    match decryption {
        Decryption::WrongSession => result == Err::<(MsgType, Vec<u8>), _>(
            NoiseError::WrongSession,
        ),
        Decryption::Replay => result == Err::<(MsgType, Vec<u8>), _>(NoiseError::Replay),
        Decryption::TooShort | Decryption::Unreadable => result == Err::<(MsgType, Vec<u8>), _>(
            NoiseError::MalformedTransport,
        ),
        Decryption::Unauthentic => result matches Err(NoiseError::Snow(_)),
        Decryption::Message(msg_type, payload) => result matches Ok((t, p)) && t == msg_type && p@
            == payload,
    }
}

/// The ciphers of a finished handshake, able to send and to receive.
struct Transport {
    state: snow::StatelessTransportState,
}

impl Transport {
    #[verifier::type_invariant]
    spec fn both_ways(self) -> bool {
        sending_key(self.state) is Some && receiving_key(self.state) is Some
    }

    spec fn sends_under(self) -> Seq<u8> {
        sending_key(self.state).unwrap()
    }

    spec fn receives_under(self) -> Seq<u8> {
        receiving_key(self.state).unwrap()
    }

    /// Seals a plaintext under the sending key and a counter.
    fn seal(&self, counter: u64, plaintext: &[u8]) -> (ciphertext: Result<Vec<u8>, NoiseError>)
        requires
            counter != u64::MAX,
        ensures
            match ciphertext {
                Ok(c) => {
                    &&& plaintext@.len() + AEAD_TAG_SIZE <= MAX_NOISE_MESSAGE_SIZE
                    &&& c@ == sealed(self.sends_under(), counter, plaintext@)
                    &&& c@.len() == plaintext@.len() + AEAD_TAG_SIZE
                    &&& opened(self.sends_under(), counter, c@) == Some(plaintext@)
                },
                Err(NoiseError::Snow(_)) => plaintext@.len() + AEAD_TAG_SIZE
                    > MAX_NOISE_MESSAGE_SIZE,
                Err(_) => false,
            },
    {
        proof {
            use_type_invariant(self);
        }
        let room: usize = if plaintext.len() <= MAX_NOISE_MESSAGE_SIZE {
            plaintext.len() + AEAD_TAG_SIZE
        } else {
            MAX_NOISE_MESSAGE_SIZE
        };
        let mut ciphertext: Vec<u8> = vec![0u8; room];
        match transport_write(&self.state, counter, plaintext, &mut ciphertext) {
            Ok(written) => {
                ciphertext.truncate(written);
                Ok(ciphertext)
            },
            Err(error) => Err(NoiseError::Snow(error)),
        }
    }

    /// Opens a ciphertext under the receiving key and a counter.
    fn open(&self, counter: u64, ciphertext: &[u8]) -> (plaintext: Result<Vec<u8>, NoiseError>)
        requires
            ciphertext@.len() >= AEAD_TAG_SIZE,
        ensures
            match plaintext {
                Ok(p) => opened(self.receives_under(), counter, ciphertext@) == Some(p@) && p@.len()
                    + AEAD_TAG_SIZE == ciphertext@.len(),
                Err(NoiseError::Snow(_)) => opened(
                    self.receives_under(),
                    counter,
                    ciphertext@,
                ) is None,
                Err(_) => false,
            },
    {
        proof {
            use_type_invariant(self);
        }
        let room: usize = ciphertext.len() - AEAD_TAG_SIZE;
        let mut plaintext: Vec<u8> = vec![0u8; room];
        match transport_read(&self.state, counter, ciphertext, &mut plaintext) {
            Ok(written) => {
                plaintext.truncate(written);
                Ok(plaintext)
            },
            Err(error) => Err(NoiseError::Snow(error)),
        }
    }
}

/// A negotiated bidirectional transport keypair.
pub struct Session {
    pub session_id: [u8; SESSION_ID_SIZE],
    transport: Transport,
    created_at: u64,
    send_counter: u64,
    received_messages: u64,
    replay: ReplayWindow,
}

impl View for Session {
    type V = SessionModel;

    closed spec fn view(&self) -> SessionModel {
        SessionModel {
            session_id: self.session_id@,
            sending_key: self.transport.sends_under(),
            receiving_key: self.transport.receives_under(),
            created_at: self.created_at,
            send_counter: self.send_counter,
            received_messages: self.received_messages,
            replay: self.replay@,
        }
    }
}

/// Whether two byte arrays hold the same eight bytes.
pub fn same_id(a: &[u8; SESSION_ID_SIZE], b: &[u8; SESSION_ID_SIZE]) -> (same: bool)
    ensures
        same == (a@ == b@),
{
    let mut i: usize = 0;
    while i < SESSION_ID_SIZE
        invariant
            i <= SESSION_ID_SIZE,
            forall|j: int| 0 <= j < i ==> a@[j] == b@[j],
        decreases SESSION_ID_SIZE - i,
    {
        if a[i] != b[i] {
            return false;
        }
        i = i + 1;
    }
    assert(a@ =~= b@);
    true
}

impl Session {
    /// The identifier that the session's packets carry.
    pub fn id(&self) -> (id: [u8; SESSION_ID_SIZE])
        ensures
            id@ == self@.session_id,
    {
        self.session_id
    }

    fn new(session_id: [u8; SESSION_ID_SIZE], transport: Transport, now: u64) -> (session: Session)
        ensures
            session@ == SessionModel::fresh(
                session_id@,
                transport.sends_under(),
                transport.receives_under(),
                now,
            ),
    {
        Session {
            session_id,
            transport,
            created_at: now,
            send_counter: 0,
            received_messages: 0,
            replay: ReplayWindow::new(),
        }
    }

    /// Encrypt and frame a v3 transport message. The counter is reserved
    /// before encryption, so even a local error can never cause nonce reuse.
    pub fn encrypt(&mut self, msg_type: MsgType, payload: &[u8]) -> (frame: Result<
        Vec<u8>,
        NoiseError,
    >)
        ensures
            final(self)@ == old(self)@.counter_reserved(),
            match frame {
                Ok(f) => old(self)@.send_counter != u64::MAX && SessionModel::fits(payload@) && old(self)@.seals(msg_type, payload@, f@),
                Err(NoiseError::CounterExhausted) => old(self)@.send_counter == u64::MAX,
                Err(NoiseError::Snow(_)) => old(self)@.send_counter != u64::MAX
                    && !SessionModel::fits(payload@),
                Err(_) => false,
            },
    {
        let counter: u64 = self.send_counter;
        self.send_counter = match self.send_counter.checked_add(1) {
            Some(next) => next,
            None => {
                return Err(NoiseError::CounterExhausted);
            },
        };
        let plaintext = auth::encode_transport_plaintext(msg_type, payload);
        match self.transport.seal(counter, plaintext.as_slice()) {
            Ok(ciphertext) => Ok(
                auth::encode_transport(&self.session_id, counter, ciphertext.as_slice()),
            ),
            Err(error) => Err(error),
        }
    }

    /// Authenticate, replay-check, and decrypt a parsed v3 transport packet.
    /// The replay window advances only after Noise validates the AEAD tag.
    pub fn decrypt(
        &mut self,
        session_id: &[u8; SESSION_ID_SIZE],
        counter: u64,
        ciphertext: &[u8],
    ) -> (message: Result<(MsgType, Vec<u8>), NoiseError>)
        ensures
            final(self)@ == old(self)@.decrypted(session_id@, counter, ciphertext@),
            reports(message, old(self)@.decryption(session_id@, counter, ciphertext@)),
    {
        if !same_id(session_id, &self.session_id) {
            return Err(NoiseError::WrongSession);
        }
        if !self.replay.would_accept(counter) {
            return Err(NoiseError::Replay);
        }
        if ciphertext.len() < AEAD_TAG_SIZE + 1 {
            return Err(NoiseError::MalformedTransport);
        }
        let plaintext = match self.transport.open(counter, ciphertext) {
            Ok(plaintext) => plaintext,
            Err(error) => {
                return Err(error);
            },
        };
        // The first check makes this one succeed; it is kept as a hard
        // invariant at the state boundary.
        if !self.replay.mark_authenticated(counter) {
            return Err(NoiseError::Replay);
        }
        self.received_messages = self.received_messages.saturating_add(1);
        match auth::decode_transport_plaintext(plaintext.as_slice()) {
            None => Err(NoiseError::MalformedTransport),
            Some((msg_type, payload)) => Ok((msg_type, vstd::slice::slice_to_vec(payload))),
        }
    }

    /// Parses a datagram and decrypts it; anything but a transport packet is
    /// malformed.
    pub fn decrypt_packet(&mut self, packet: &[u8]) -> (message: Result<
        (MsgType, Vec<u8>),
        NoiseError,
    >)
        ensures
            match auth::packet_meaning(packet@) {
                Some(auth::PacketModel::Transport { session_id, counter, ciphertext }) => {
                    &&& final(self)@ == old(self)@.decrypted(session_id, counter, ciphertext)
                    &&& reports(message, old(self)@.decryption(session_id, counter, ciphertext))
                },
                _ => final(self)@ == old(self)@ && message == Err::<(MsgType, Vec<u8>), _>(
                    NoiseError::MalformedTransport,
                ),
            },
    {
        match auth::decode_packet(packet) {
            Some(ParsedPacket::Transport { session_id, counter, ciphertext }) => self.decrypt(
                &session_id,
                counter,
                ciphertext,
            ),
            _ => Err(NoiseError::MalformedTransport),
        }
    }

    pub fn should_rekey(&self, now: u64) -> (due: bool)
        ensures
            due == self@.should_rekey(now),
    {
        now.saturating_sub(self.created_at) >= REKEY_AFTER_TIME || self.send_counter
            >= REKEY_AFTER_MESSAGES || self.received_messages >= REKEY_AFTER_MESSAGES
    }

    pub fn is_expired(&self, now: u64) -> (expired: bool)
        ensures
            expired == self@.is_expired(now),
    {
        now.saturating_sub(self.created_at) >= REJECT_AFTER_TIME || self.send_counter == u64::MAX
    }

    pub fn send_counter(&self) -> (counter: u64)
        ensures
            counter == self@.send_counter,
    {
        self.send_counter
    }

    /// Gives up every sending counter below `counter`.
    pub fn advance_send_counter(&mut self, counter: u64)
        ensures
            final(self)@ == (SessionModel {
                send_counter: if counter > old(self)@.send_counter {
                    counter
                } else {
                    old(self)@.send_counter
                },
                ..old(self)@
            }),
    {
        if counter > self.send_counter {
            self.send_counter = counter;
        }
    }
}

// ---------------------------------------------------------------------------
// Handshakes.
// ---------------------------------------------------------------------------

/// An initiator that waits for the response, as plain values.
pub struct InitiatorModel {
    pub handshake_id: Seq<u8>,
    pub record: HandshakeRecord,
}

pub struct InitiatorState {
    handshake_id: [u8; SESSION_ID_SIZE],
    state: snow::HandshakeState,
}

impl View for InitiatorState {
    type V = InitiatorModel;

    closed spec fn view(&self) -> InitiatorModel {
        InitiatorModel { handshake_id: self.handshake_id@, record: handshake_record(self.state) }
    }
}

impl InitiatorState {
    #[verifier::type_invariant]
    spec fn awaits_response(self) -> bool {
        handshake_record(self.state).initiator && handshake_record(self.state).reads_next()
    }

    pub fn handshake_id(&self) -> (id: [u8; SESSION_ID_SIZE])
        ensures
            id@ == self@.handshake_id,
    {
        self.handshake_id
    }
}

/// Initiator's first Noise message plus the state needed to process msg2.
pub struct InitiatorHandshake {
    pub handshake_id: [u8; SESSION_ID_SIZE],
    pub message: Vec<u8>,
    pub state: InitiatorState,
}

impl InitiatorHandshake {
    pub fn into_parts(self) -> (parts: ([u8; SESSION_ID_SIZE], Vec<u8>, InitiatorState))
        ensures
            parts == (self.handshake_id, self.message, self.state),
    {
        (self.handshake_id, self.message, self.state)
    }
}

/// Responder output. The session remains a candidate until the first
/// authenticated transport packet proves the initiator received msg2.
pub struct ResponderHandshake {
    pub message: Vec<u8>,
    pub session: Session,
}

/// Whether `message` starts a handshake with these keys and this identifier,
/// and `initiator` is the state that awaits its response: every responder that
/// owns the addressed public key reads an empty payload and the initiator's
/// static key out of the message, whatever pre-shared key that responder has.
pub open spec fn is_initiation(
    private_key: Seq<u8>,
    remote_public_key: Seq<u8>,
    psk: Seq<u8>,
    handshake_id: Seq<u8>,
    message: Seq<u8>,
    initiator: InitiatorModel,
) -> bool {
    let prologue = auth::prologue_bytes(handshake_id);
    let record = HandshakeRecord::initiator(private_key, remote_public_key, psk, prologue);
    &&& initiator == InitiatorModel { handshake_id, record: record.then_message(message) }
    &&& message.len() == 96
    &&& forall|responder_key: Seq<u8>, responder_psk: Seq<u8>|
        #![trigger HandshakeRecord::responder(responder_key, responder_psk, prologue)]
        static_public_key(responder_key) == remote_public_key ==> {
            let peer = HandshakeRecord::responder(responder_key, responder_psk, prologue);
            handshake_payload(peer, message) == Some(Seq::<u8>::empty()) && revealed_static_key(
                peer.then_message(message),
            ) == Some(static_public_key(private_key))
        }
}

/// What a responder makes of a first message.
pub enum FirstMessage {
    /// Noise refuses it.
    Refused,
    /// It carries a payload, which a first message must not.
    HasPayload,
    /// It reveals no static key.
    NoStaticKey,
    /// It reveals a static key other than the expected one.
    OtherStaticKey,
    /// It comes from the expected peer.
    Accepted,
}

/// What a responder with these keys makes of `message`.
pub open spec fn first_message(
    private_key: Seq<u8>,
    expected_public_key: Seq<u8>,
    psk: Seq<u8>,
    handshake_id: Seq<u8>,
    message: Seq<u8>,
) -> FirstMessage {
    let record = HandshakeRecord::responder(private_key, psk, auth::prologue_bytes(handshake_id));
    match handshake_payload(record, message) {
        None => FirstMessage::Refused,
        Some(payload) => if payload.len() > MAX_NOISE_MESSAGE_SIZE {
            FirstMessage::Refused
        } else if payload.len() != 0 {
            FirstMessage::HasPayload
        } else {
            match revealed_static_key(record.then_message(message)) {
                None => FirstMessage::NoStaticKey,
                Some(key) => if key != expected_public_key {
                    FirstMessage::OtherStaticKey
                } else {
                    FirstMessage::Accepted
                },
            }
        },
    }
}

/// Whether `message` answers the first message `request`, and `session` is what
/// the responder holds then: the keys that the exchange settled, under an
/// identifier that every initiator which wrote `request` and shares the keys
/// reads out of the message, settling the same keys.
pub open spec fn is_response(
    private_key: Seq<u8>,
    psk: Seq<u8>,
    handshake_id: Seq<u8>,
    request: Seq<u8>,
    message: Seq<u8>,
    session: SessionModel,
    now: u64,
) -> bool {
    let prologue = auth::prologue_bytes(handshake_id);
    let record = HandshakeRecord::responder(private_key, psk, prologue).then_message(request);
    let keys = transport_keys(record.then_message(message));
    &&& message.len() == 56
    &&& session.session_id.len() == SESSION_ID_SIZE
    &&& session == SessionModel::fresh(session.session_id, keys.1, keys.0, now)
    &&& forall|peer: HandshakeRecord|
        #![trigger handshake_payload(peer, message)]
        peer.can_read_second_of(record) ==> handshake_payload(peer, message) == Some(
            session.session_id,
        ) && transport_keys(peer.then_message(message)) == keys
}

/// The session that an initiator in state `initiator` gets from `message`,
/// if the message is a response that it can read.
pub open spec fn finalized(initiator: InitiatorModel, message: Seq<u8>, now: u64) -> Option<
    SessionModel,
> {
    match handshake_payload(initiator.record, message) {
        Some(session_id) => if session_id.len() == SESSION_ID_SIZE {
            let keys = transport_keys(initiator.record.then_message(message));
            Some(SessionModel::fresh(session_id, keys.0, keys.1, now))
        } else {
            None
        },
        None => None,
    }
}

/// Eight bytes from the operating system's generator.
fn random_id() -> (id: [u8; SESSION_ID_SIZE]) {
    let mut bytes: Vec<u8> = vec![0u8; SESSION_ID_SIZE];
    fill_random(&mut bytes);
    read_array8(bytes.as_slice(), 0)
}

/// Starts a handshake under a random identifier.
pub fn initiator_start(
    local_static: &[u8; 32],
    remote_static_pub: &[u8; 32],
    psk: &[u8; 32],
) -> (started: Result<InitiatorHandshake, NoiseError>)
    ensures
        match started {
            Ok(handshake) => is_initiation(
                local_static@,
                remote_static_pub@,
                psk@,
                handshake.handshake_id@,
                handshake.message@,
                handshake.state@,
            ),
            Err(error) => error is Snow,
        },
{
    let handshake_id = random_id();
    initiator_start_with_id(local_static, remote_static_pub, psk, handshake_id)
}

/// Starts a handshake under the given identifier. It fails only where the
/// ephemeral key cannot be drawn.
pub fn initiator_start_with_id(
    local_static: &[u8; 32],
    remote_static_pub: &[u8; 32],
    psk: &[u8; 32],
    handshake_id: [u8; SESSION_ID_SIZE],
) -> (started: Result<InitiatorHandshake, NoiseError>)
    ensures
        match started {
            Ok(handshake) => handshake.handshake_id@ == handshake_id@ && is_initiation(
                local_static@,
                remote_static_pub@,
                psk@,
                handshake_id@,
                handshake.message@,
                handshake.state@,
            ),
            Err(error) => error is Snow,
        },
{
    let prologue = auth::handshake_prologue(&handshake_id);
    let mut state = match build_initiator(
        NOISE_PATTERN,
        local_static,
        remote_static_pub,
        PSK_LOCATION,
        psk,
        prologue.as_slice(),
    ) {
        Ok(state) => state,
        Err(error) => {
            return Err(NoiseError::Snow(error));
        },
    };
    let ghost record = handshake_record(state);
    let empty: [u8; 0] = [];
    let mut message: Vec<u8> = vec![0u8; MAX_NOISE_MESSAGE_SIZE];
    let written: usize = match handshake_write(&mut state, empty.as_slice(), &mut message) {
        Ok(written) => written,
        Err(error) => {
            return Err(NoiseError::Snow(error));
        },
    };
    message.truncate(written);
    proof {
        assert(empty@ =~= Seq::<u8>::empty());
        assert forall|responder_key: Seq<u8>, responder_psk: Seq<u8>|
            #![trigger HandshakeRecord::responder(responder_key, responder_psk, prologue@)]
            static_public_key(responder_key) == remote_static_pub@ implies {
            let peer = HandshakeRecord::responder(responder_key, responder_psk, prologue@);
            handshake_payload(peer, message@) == Some(Seq::<u8>::empty()) && revealed_static_key(
                peer.then_message(message@),
            ) == Some(static_public_key(local_static@))
        } by {
            let peer = HandshakeRecord::responder(responder_key, responder_psk, prologue@);
            assert(peer.can_read_first_of(record));
            let found = handshake_payload(peer, message@);
        }
    }
    Ok(
        InitiatorHandshake {
            handshake_id,
            message,
            state: InitiatorState { handshake_id, state },
        },
    )
}

/// Completes a handshake with the responder's message, whose payload is the
/// session identifier.
pub fn initiator_finalize(initiator: InitiatorState, message: &[u8], now: u64) -> (session: Result<
    Session,
    NoiseError,
>)
    ensures
        match session {
            Ok(s) => finalized(initiator@, message@, now) == Some(s@),
            Err(NoiseError::Snow(_)) => match handshake_payload(initiator@.record, message@) {
                Some(payload) => payload.len() > SESSION_ID_SIZE + AEAD_TAG_SIZE,
                None => true,
            },
            Err(NoiseError::InvalidSessionId) => match handshake_payload(
                initiator@.record,
                message@,
            ) {
                Some(payload) => payload.len() != SESSION_ID_SIZE && payload.len()
                    <= SESSION_ID_SIZE + AEAD_TAG_SIZE,
                None => false,
            },
            Err(_) => false,
        },
{
    proof {
        use_type_invariant(&initiator);
    }
    let mut state = initiator.state;
    let mut payload: Vec<u8> = vec![0u8; SESSION_ID_SIZE + AEAD_TAG_SIZE];
    let written: usize = match handshake_read(&mut state, message, &mut payload) {
        Ok(written) => written,
        Err(error) => {
            return Err(NoiseError::Snow(error));
        },
    };
    if written != SESSION_ID_SIZE {
        return Err(NoiseError::InvalidSessionId);
    }
    let session_id = read_array8(payload.as_slice(), 0);
    assert(session_id@ =~= payload@.take(8));
    match into_transport(state) {
        Ok(transport) => Ok(Session::new(session_id, Transport { state: transport }, now)),
        Err(error) => Err(NoiseError::Snow(error)),
    }
}

/// Answers a first message from the expected peer with a session under a
/// random identifier.
pub fn responder_respond(
    local_static: &[u8; 32],
    expected_remote_static: &[u8; 32],
    psk: &[u8; 32],
    handshake_id: [u8; SESSION_ID_SIZE],
    message: &[u8],
    now: u64,
) -> (answer: Result<ResponderHandshake, NoiseError>)
    ensures
        reports_first_message(
            answer,
            first_message(
                local_static@,
                expected_remote_static@,
                psk@,
                handshake_id@,
                message@,
            ),
        ),
        answer matches Ok(a) ==> is_response(
            local_static@,
            psk@,
            handshake_id@,
            message@,
            a.message@,
            a.session@,
            now,
        ),
{
    match respond(local_static, expected_remote_static, psk, handshake_id, message, now) {
        Response::Answered(handshake) => Ok(handshake),
        Response::Refused(error) => Err(error),
        Response::Unanswered(failure) => Err(failure.into_error()),
    }
}

/// What the Noise library reported when it could not write the answer to a
/// first message. Only a failed attempt to write one gives such a value.
#[derive(Debug)]
pub struct AnswerFailure {
    error: snow::Error,
}

impl AnswerFailure {
    pub fn into_error(self) -> (error: NoiseError)
        ensures
            error is Snow,
    {
        NoiseError::Snow(self.error)
    }
}

/// What came of a first message.
pub(crate) enum Response {
    /// It is not one that the expected peer sent to this responder.
    Refused(NoiseError),
    /// It is, but there was no randomness for an answer.
    Unanswered(AnswerFailure),
    Answered(ResponderHandshake),
}

/// Answers a first message from the expected peer, and tells a message that
/// is turned down from one that goes unanswered for want of randomness.
pub(crate) fn respond(
    local_static: &[u8; 32],
    expected_remote_static: &[u8; 32],
    psk: &[u8; 32],
    handshake_id: [u8; SESSION_ID_SIZE],
    message: &[u8],
    now: u64,
) -> (response: Response)
    ensures
        ({
            let verdict = first_message(
                local_static@,
                expected_remote_static@,
                psk@,
                handshake_id@,
                message@,
            );
            match response {
                Response::Refused(error) => !(verdict is Accepted) && reports_first_message(
                    Err(error),
                    verdict,
                ),
                Response::Unanswered(_) => verdict is Accepted,
                Response::Answered(handshake) => verdict is Accepted && is_response(
                    local_static@,
                    psk@,
                    handshake_id@,
                    message@,
                    handshake.message@,
                    handshake.session@,
                    now,
                ),
            }
        }),
{
    let state = match responder_read(
        local_static,
        expected_remote_static,
        psk,
        handshake_id,
        message,
    ) {
        Ok(state) => state,
        Err(error) => {
            return Response::Refused(error);
        },
    };
    let session_id = random_id();
    match responder_write(state, session_id, now) {
        Ok(handshake) => Response::Answered(handshake),
        Err(failure) => Response::Unanswered(failure),
    }
}

/// How a responder reports what it made of a first message. An accepted one
/// may still go unanswered for want of randomness.
pub open spec fn reports_first_message(
    answer: Result<ResponderHandshake, NoiseError>,
    verdict: FirstMessage,
) -> bool {
    match answer {
        Ok(_) => verdict is Accepted,
        Err(NoiseError::Snow(_)) => verdict is Refused || verdict is Accepted,
        Err(NoiseError::MalformedTransport) => verdict is HasPayload,
        Err(NoiseError::MissingRemoteStatic) => verdict is NoStaticKey,
        Err(NoiseError::RemoteStaticMismatch) => verdict is OtherStaticKey,
        Err(_) => false,
    }
}

/// Reads and checks a first message.
fn responder_read(
    local_static: &[u8; 32],
    expected_remote_static: &[u8; 32],
    psk: &[u8; 32],
    handshake_id: [u8; SESSION_ID_SIZE],
    message: &[u8],
) -> (read: Result<snow::HandshakeState, NoiseError>)
    ensures
        ({
            let verdict = first_message(
                local_static@,
                expected_remote_static@,
                psk@,
                handshake_id@,
                message@,
            );
            match read {
                Ok(state) => verdict is Accepted && handshake_record(state)
                    == HandshakeRecord::responder(
                    local_static@,
                    psk@,
                    auth::prologue_bytes(handshake_id@),
                ).then_message(message@),
                Err(NoiseError::Snow(_)) => verdict is Refused,
                Err(NoiseError::MalformedTransport) => verdict is HasPayload,
                Err(NoiseError::MissingRemoteStatic) => verdict is NoStaticKey,
                Err(NoiseError::RemoteStaticMismatch) => verdict is OtherStaticKey,
                Err(_) => false,
            }
        }),
{
    let prologue = auth::handshake_prologue(&handshake_id);
    let mut state = match build_responder(
        NOISE_PATTERN,
        local_static,
        PSK_LOCATION,
        psk,
        prologue.as_slice(),
    ) {
        Ok(state) => state,
        Err(error) => {
            return Err(NoiseError::Snow(error));
        },
    };
    let mut payload: Vec<u8> = vec![0u8; MAX_NOISE_MESSAGE_SIZE];
    let written: usize = match handshake_read(&mut state, message, &mut payload) {
        Ok(written) => written,
        Err(error) => {
            return Err(NoiseError::Snow(error));
        },
    };
    if written != 0 {
        return Err(NoiseError::MalformedTransport);
    }
    let remote_static = match remote_static_key(&state) {
        Some(key) => key,
        None => {
            return Err(NoiseError::MissingRemoteStatic);
        },
    };
    if !crate::bytes::same_bytes(remote_static.as_slice(), expected_remote_static.as_slice()) {
        return Err(NoiseError::RemoteStaticMismatch);
    }
    Ok(state)
}

/// Answers a first message that has been read with the given session
/// identifier. It fails only where the ephemeral key cannot be drawn.
fn responder_write(
    state: snow::HandshakeState,
    session_id: [u8; SESSION_ID_SIZE],
    now: u64,
) -> (answer: Result<ResponderHandshake, AnswerFailure>)
    requires
        !handshake_record(state).initiator,
        handshake_record(state).writes_next(),
    ensures
        match answer {
            Ok(a) => {
                let record = handshake_record(state);
                let message = a.message@;
                let keys = transport_keys(record.then_message(message));
                &&& message.len() == 56
                &&& a.session@ == SessionModel::fresh(session_id@, keys.1, keys.0, now)
                &&& forall|peer: HandshakeRecord|
                    #![trigger handshake_payload(peer, message)]
                    peer.can_read_second_of(record) ==> handshake_payload(peer, message) == Some(
                        session_id@,
                    ) && transport_keys(peer.then_message(message)) == keys
            },
            Err(_) => true,
        },
{
    let mut state = state;
    let mut response: Vec<u8> = vec![0u8; MAX_NOISE_MESSAGE_SIZE];
    let written: usize = match handshake_write(&mut state, session_id.as_slice(), &mut response) {
        Ok(written) => written,
        Err(error) => {
            return Err(AnswerFailure { error });
        },
    };
    response.truncate(written);
    match into_transport(state) {
        Ok(transport) => Ok(
            ResponderHandshake {
                message: response,
                session: Session::new(session_id, Transport { state: transport }, now),
            },
        ),
        Err(error) => Err(AnswerFailure { error }),
    }
}

// ---------------------------------------------------------------------------
// Laws.
// ---------------------------------------------------------------------------

/// A responder that owns the addressed key and expects the initiator accepts
/// every initiation, whatever its pre-shared key.
pub proof fn expected_initiation_is_accepted(
    initiator_key: Seq<u8>,
    responder_key: Seq<u8>,
    initiator_psk: Seq<u8>,
    responder_psk: Seq<u8>,
    handshake_id: Seq<u8>,
    message: Seq<u8>,
    initiator: InitiatorModel,
)
    requires
        is_initiation(
            initiator_key,
            static_public_key(responder_key),
            initiator_psk,
            handshake_id,
            message,
            initiator,
        ),
    ensures
        first_message(
            responder_key,
            static_public_key(initiator_key),
            responder_psk,
            handshake_id,
            message,
        ) is Accepted,
{
    let peer = HandshakeRecord::responder(
        responder_key,
        responder_psk,
        auth::prologue_bytes(handshake_id),
    );
}

/// A responder that owns the addressed key but expects another initiator
/// turns the initiation down as coming from the wrong static key.
pub proof fn unexpected_initiation_is_refused(
    initiator_key: Seq<u8>,
    responder_key: Seq<u8>,
    expected_public_key: Seq<u8>,
    initiator_psk: Seq<u8>,
    responder_psk: Seq<u8>,
    handshake_id: Seq<u8>,
    message: Seq<u8>,
    initiator: InitiatorModel,
)
    requires
        is_initiation(
            initiator_key,
            static_public_key(responder_key),
            initiator_psk,
            handshake_id,
            message,
            initiator,
        ),
        expected_public_key != static_public_key(initiator_key),
    ensures
        first_message(
            responder_key,
            expected_public_key,
            responder_psk,
            handshake_id,
            message,
        ) is OtherStaticKey,
{
    let peer = HandshakeRecord::responder(
        responder_key,
        responder_psk,
        auth::prologue_bytes(handshake_id),
    );
}

/// When an initiation and its response were made with matching keys and one
/// pre-shared key, the initiator gets a session out of the response: it has
/// the responder's session identifier, and each side sends under the key
/// under which the other receives.
pub proof fn handshake_gives_both_sides_one_session(
    initiator_key: Seq<u8>,
    responder_key: Seq<u8>,
    psk: Seq<u8>,
    handshake_id: Seq<u8>,
    request: Seq<u8>,
    initiator: InitiatorModel,
    response: Seq<u8>,
    responder_session: SessionModel,
    responder_now: u64,
    initiator_now: u64,
)
    requires
        is_initiation(
            initiator_key,
            static_public_key(responder_key),
            psk,
            handshake_id,
            request,
            initiator,
        ),
        is_response(
            responder_key,
            psk,
            handshake_id,
            request,
            response,
            responder_session,
            responder_now,
        ),
    ensures
        finalized(initiator, response, initiator_now) == Some(
            SessionModel::fresh(
                responder_session.session_id,
                responder_session.receiving_key,
                responder_session.sending_key,
                initiator_now,
            ),
        ),
{
    let prologue = auth::prologue_bytes(handshake_id);
    let peer = HandshakeRecord::responder(responder_key, psk, prologue);
    assert(initiator.record.can_read_second_of(peer.then_message(request)));
    let found = handshake_payload(initiator.record, response);
}

/// What one side of a session encrypts, the other side decrypts to the same
/// message, unless it has already recorded the counter or moved its window
/// past it.
pub proof fn decrypt_gives_back_what_encrypt_was_given(
    sender: SessionModel,
    receiver: SessionModel,
    msg_type: MsgType,
    payload: Seq<u8>,
    frame: Seq<u8>,
)
    requires
        sender.session_id.len() == SESSION_ID_SIZE,
        sender.session_id == receiver.session_id,
        sender.sending_key == receiver.receiving_key,
        receiver.replay.accepts(sender.send_counter),
        sender.seals(msg_type, payload, frame),
    ensures
        auth::packet_meaning(frame) matches Some(
            auth::PacketModel::Transport { session_id, counter, ciphertext },
        ) && counter == sender.send_counter && receiver.decryption(session_id, counter, ciphertext)
            == Decryption::Message(msg_type, payload),
{
    let plaintext = auth::transport_plaintext(msg_type, payload);
    let ciphertext = sealed(sender.sending_key, sender.send_counter, plaintext);
    auth::transport_packets_round_trip(frame, sender.session_id, sender.send_counter, ciphertext);
    auth::transport_plaintexts_round_trip(msg_type, payload);
}

/// A packet that has been accepted is a replay ever after, however many
/// authentic packets arrive in between.
pub proof fn accepted_packet_is_a_replay_ever_after(
    receiver: SessionModel,
    counter: u64,
    ciphertext: Seq<u8>,
    later: Seq<u64>,
    again: Seq<u8>,
)
    requires
        receiver.decryption(receiver.session_id, counter, ciphertext) is Message,
    ensures
        ({
            let after = receiver.decrypted(receiver.session_id, counter, ciphertext);
            (SessionModel { replay: after.replay.mark_all(later), ..after }).decryption(
                receiver.session_id,
                counter,
                again,
            ) is Replay
        }),
{
    crate::replay::recorded_counter_is_never_accepted_again(receiver.replay, counter, later);
}

/// A packet that does not authenticate changes nothing, however high its
/// counter.
pub proof fn unauthentic_packet_leaves_the_session_alone(
    receiver: SessionModel,
    session_id: Seq<u8>,
    counter: u64,
    ciphertext: Seq<u8>,
)
    requires
        opened(receiver.receiving_key, counter, ciphertext) is None,
    ensures
        receiver.decrypted(session_id, counter, ciphertext) == receiver,
{
}

/// Successive encryptions use successive counters: after `n` of them the next
/// counter is `n` further, so that no two packets under one key have the same.
pub proof fn packets_are_numbered_consecutively(session: SessionModel, n: nat)
    requires
        session.send_counter + n <= u64::MAX,
    ensures
        session.after_encryptions(n) == (SessionModel {
            send_counter: (session.send_counter + n) as u64,
            ..session
        }),
    decreases n,
{
    if n > 0 {
        packets_are_numbered_consecutively(session, (n - 1) as nat);
    }
}

/// A session is renewed from its 120th second on, or from 2^32 messages in
/// either direction, and is over from its 180th second on, or when its counter
/// is used up; and not before.
pub proof fn sessions_are_renewed_and_end_in_time(session: SessionModel, now: u64)
    requires
        now >= session.created_at,
    ensures
        session.should_rekey(now) <==> now - session.created_at >= 120_000_000_000
            || session.send_counter >= 4_294_967_296 || session.received_messages >= 4_294_967_296,
        session.is_expired(now) <==> now - session.created_at >= 180_000_000_000
            || session.send_counter == 18_446_744_073_709_551_615,
{
}

/// A message fits exactly if its frame's ciphertext, with the type byte and the
/// tag, has at most 65535 bytes.
pub proof fn messages_fit_up_to_the_noise_limit(payload: Seq<u8>)
    ensures
        SessionModel::fits(payload) <==> payload.len() <= 65_518,
{
}

/// An authentic packet is recorded and counted, whatever its message says, and
/// changes nothing else of the session; it is refused ever after.
pub proof fn authentic_packet_is_counted_once(
    receiver: SessionModel,
    counter: u64,
    ciphertext: Seq<u8>,
    plaintext: Seq<u8>,
)
    requires
        ciphertext.len() >= 17,
        opened(receiver.receiving_key, counter, ciphertext) == Some(plaintext),
        receiver.replay.accepts(counter),
        receiver.received_messages < u64::MAX,
    ensures
        ({
            let after = receiver.decrypted(receiver.session_id, counter, ciphertext);
            &&& after.received_messages == receiver.received_messages + 1
            &&& !after.replay.accepts(counter)
            &&& after.send_counter == receiver.send_counter
            &&& after.created_at == receiver.created_at
            &&& after.session_id == receiver.session_id
            &&& after.sending_key == receiver.sending_key
            &&& after.receiving_key == receiver.receiving_key
            &&& receiver.decryption(receiver.session_id, counter, ciphertext)
                == match auth::plaintext_meaning(plaintext) {
                Some((msg_type, payload)) => Decryption::Message(msg_type, payload),
                None => Decryption::Unreadable,
            }
        }),
{
}

} // verus!

//! HushWire v3 packet framing.
//!
//! Cryptography lives in `crate::noise`. This module only encodes and parses
//! the small public header that routes handshake and transport packets.

use vstd::prelude::*;
use vstd::slice::slice_subrange;

use crate::bytes::{read_array8, read_be, u64_to_be_bytes};

verus! {

pub const WIRE_VERSION: u8 = 0x03;
pub const SESSION_ID_SIZE: usize = 8;
pub const COUNTER_SIZE: usize = 8;

/// `version || kind || id`.
pub const HANDSHAKE_HEADER_SIZE: usize = 10;
/// `version || kind || session_id || counter`.
pub const TRANSPORT_HEADER_SIZE: usize = 18;
/// Every Noise transport ciphertext contains a 16-byte AEAD tag and the
/// encrypted one-byte message type.
pub const MIN_TRANSPORT_PACKET_SIZE: usize = 35;

pub const KEEPALIVE_PROBE_PAYLOAD: [u8; 1] = [0x01];
pub const KEEPALIVE_ACK_PAYLOAD: [u8; 1] = [0x02];

/// The ASCII bytes of `HushWire-v3-handshake`.
pub const HANDSHAKE_PROLOGUE_PREFIX: [u8; 21] = [
    72, 117, 115, 104, 87, 105, 114, 101, 45, 118, 51, 45, 104, 97, 110, 100, 115, 104, 97, 107, 101,
];

#[derive(Clone, Copy, Debug, Eq, PartialEq, Structural)]
pub enum PacketKind {
    Transport,
    HandshakeInit,
    HandshakeResponse,
}

impl PacketKind {
    /// The byte that stands for this kind on the wire.
    pub open spec fn code(self) -> u8 {
        match self {
            PacketKind::Transport => 0x00,
            PacketKind::HandshakeInit => 0x01,
            PacketKind::HandshakeResponse => 0x02,
        }
    }

    /// The kind that a wire byte stands for.
    pub open spec fn from_code(value: u8) -> Option<PacketKind> {
        if value == 0x00 {
            Some(PacketKind::Transport)
        } else if value == 0x01 {
            Some(PacketKind::HandshakeInit)
        } else if value == 0x02 {
            Some(PacketKind::HandshakeResponse)
        } else {
            None
        }
    }

    pub fn to_u8(self) -> (value: u8)
        ensures
            value == self.code(),
    {
        match self {
            PacketKind::Transport => 0x00,
            PacketKind::HandshakeInit => 0x01,
            PacketKind::HandshakeResponse => 0x02,
        }
    }

    fn from_u8(value: u8) -> (kind: Option<PacketKind>)
        ensures
            kind == PacketKind::from_code(value),
    {
        if value == 0x00 {
            Some(PacketKind::Transport)
        } else if value == 0x01 {
            Some(PacketKind::HandshakeInit)
        } else if value == 0x02 {
            Some(PacketKind::HandshakeResponse)
        } else {
            None
        }
    }

    /// Whether packets of this kind carry a handshake message.
    pub fn is_handshake(self) -> (b: bool)
        ensures
            b == (self != PacketKind::Transport),
    {
        match self {
            PacketKind::Transport => false,
            PacketKind::HandshakeInit => true,
            PacketKind::HandshakeResponse => true,
        }
    }
}

/// The semantic type is encrypted inside every Noise transport message so it
/// cannot be changed independently of the authenticated payload.
#[derive(Clone, Copy, Debug, Eq, PartialEq, Structural)]
pub enum MsgType {
    Data,
    Keepalive,
}

impl MsgType {
    /// The byte that stands for this type inside a transport plaintext.
    pub open spec fn code(self) -> u8 {
        match self {
            MsgType::Data => 0x00,
            MsgType::Keepalive => 0x01,
        }
    }

    /// The type that a plaintext's first byte stands for.
    pub open spec fn from_code(value: u8) -> Option<MsgType> {
        if value == 0x00 {
            Some(MsgType::Data)
        } else if value == 0x01 {
            Some(MsgType::Keepalive)
        } else {
            None
        }
    }

    pub fn to_u8(self) -> (value: u8)
        ensures
            value == self.code(),
    {
        match self {
            MsgType::Data => 0x00,
            MsgType::Keepalive => 0x01,
        }
    }

    fn from_u8(value: u8) -> (msg_type: Option<MsgType>)
        ensures
            msg_type == MsgType::from_code(value),
    {
        if value == 0x00 {
            Some(MsgType::Data)
        } else if value == 0x01 {
            Some(MsgType::Keepalive)
        } else {
            None
        }
    }
}

#[derive(Clone, Copy, Debug, Eq, PartialEq)]
pub enum ParsedPacket<'a> {
    Handshake { kind: PacketKind, handshake_id: [u8; SESSION_ID_SIZE], message: &'a [u8] },
    Transport { session_id: [u8; SESSION_ID_SIZE], counter: u64, ciphertext: &'a [u8] },
}

/// A packet as plain sequences: what a `ParsedPacket` stands for.
pub enum PacketModel {
    Handshake { kind: PacketKind, handshake_id: Seq<u8>, message: Seq<u8> },
    Transport { session_id: Seq<u8>, counter: u64, ciphertext: Seq<u8> },
}

impl<'a> View for ParsedPacket<'a> {
    type V = PacketModel;

    open spec fn view(&self) -> PacketModel {
        match *self {
            ParsedPacket::Handshake { kind, handshake_id, message } => PacketModel::Handshake {
                kind,
                handshake_id: handshake_id@,
                message: message@,
            },
            ParsedPacket::Transport { session_id, counter, ciphertext } => PacketModel::Transport {
                session_id: session_id@,
                counter,
                ciphertext: ciphertext@,
            },
        }
    }
}

/// The bytes of a handshake packet: `version || kind || id || message`.
pub open spec fn handshake_wire(kind: PacketKind, handshake_id: Seq<u8>, message: Seq<u8>) -> Seq<
    u8,
> {
    seq![WIRE_VERSION, kind.code()] + handshake_id + message
}

/// Whether `wire` is the transport packet `version || 0 || id || counter || ciphertext`.
pub open spec fn is_transport_wire(
    wire: Seq<u8>,
    session_id: Seq<u8>,
    counter: u64,
    ciphertext: Seq<u8>,
) -> bool {
    exists|counter_bytes: Seq<u8>|
        #![trigger crate::bytes::be_value(counter_bytes)]
        counter_bytes.len() == COUNTER_SIZE && crate::bytes::be_value(counter_bytes) == counter
            && wire == seq![WIRE_VERSION, PacketKind::Transport.code()] + session_id + counter_bytes
            + ciphertext
}

/// What a received datagram means: a version byte, a known kind, an eight-byte
/// identifier, and then a non-empty handshake message, or a counter and a
/// ciphertext of at least seventeen bytes.
pub open spec fn packet_meaning(packet: Seq<u8>) -> Option<PacketModel> {
    if packet.len() < HANDSHAKE_HEADER_SIZE || packet[0] != WIRE_VERSION {
        None
    } else {
        let id = packet.subrange(2, 10);
        match PacketKind::from_code(packet[1]) {
            None => None,
            Some(PacketKind::Transport) => if packet.len() < MIN_TRANSPORT_PACKET_SIZE {
                None
            } else {
                Some(
                    PacketModel::Transport {
                        session_id: id,
                        counter: crate::bytes::be_value(packet.subrange(10, 18)) as u64,
                        ciphertext: packet.skip(18),
                    },
                )
            },
            Some(kind) => if packet.len() == HANDSHAKE_HEADER_SIZE {
                None
            } else {
                Some(PacketModel::Handshake { kind, handshake_id: id, message: packet.skip(10) })
            },
        }
    }
}

/// What a decrypted transport plaintext means: a known type byte, then the payload.
pub open spec fn plaintext_meaning(plaintext: Seq<u8>) -> Option<(MsgType, Seq<u8>)> {
    if plaintext.len() == 0 {
        None
    } else {
        match MsgType::from_code(plaintext[0]) {
            None => None,
            Some(msg_type) => Some((msg_type, plaintext.skip(1))),
        }
    }
}

/// The plaintext that carries `payload` as a message of type `msg_type`.
pub open spec fn transport_plaintext(msg_type: MsgType, payload: Seq<u8>) -> Seq<u8> {
    seq![msg_type.code()] + payload
}

/// The bytes that bind a handshake identifier into the Noise transcript.
pub open spec fn prologue_bytes(handshake_id: Seq<u8>) -> Seq<u8> {
    HANDSHAKE_PROLOGUE_PREFIX@ + seq![WIRE_VERSION] + handshake_id
}

pub fn encode_handshake(
    kind: PacketKind,
    handshake_id: &[u8; SESSION_ID_SIZE],
    message: &[u8],
) -> (packet: Vec<u8>)
    requires
        kind != PacketKind::Transport,
    ensures
        packet@ == handshake_wire(kind, handshake_id@, message@),
{
    let mut packet: Vec<u8> = Vec::new();
    packet.push(WIRE_VERSION);
    packet.push(kind.to_u8());
    packet.extend_from_slice(handshake_id.as_slice());
    packet.extend_from_slice(message);
    packet
}

pub fn encode_transport(
    session_id: &[u8; SESSION_ID_SIZE],
    counter: u64,
    ciphertext: &[u8],
) -> (packet: Vec<u8>)
    ensures
        is_transport_wire(packet@, session_id@, counter, ciphertext@),
{
    let counter_bytes = u64_to_be_bytes(counter);
    let mut packet: Vec<u8> = Vec::new();
    packet.push(WIRE_VERSION);
    packet.push(PacketKind::Transport.to_u8());
    packet.extend_from_slice(session_id.as_slice());
    packet.extend_from_slice(counter_bytes.as_slice());
    packet.extend_from_slice(ciphertext);
    assert(packet@ =~= seq![WIRE_VERSION, PacketKind::Transport.code()] + session_id@
        + counter_bytes@ + ciphertext@);
    assert(crate::bytes::be_value(counter_bytes@) == counter);
    packet
}

pub fn decode_packet(packet: &[u8]) -> (parsed: Option<ParsedPacket<'_>>)
    ensures
        match parsed {
            Some(p) => packet_meaning(packet@) == Some(p@),
            None => packet_meaning(packet@) is None,
        },
{
    if packet.len() < HANDSHAKE_HEADER_SIZE || packet[0] != WIRE_VERSION {
        return None;
    }
    let kind = match PacketKind::from_u8(packet[1]) {
        Some(kind) => kind,
        None => {
            return None;
        },
    };
    let id = read_array8(packet, 2);
    if kind.is_handshake() {
        let message = slice_subrange(packet, HANDSHAKE_HEADER_SIZE, packet.len());
        if message.len() == 0 {
            return None;
        }
        assert(message@ =~= packet@.skip(10));
        return Some(ParsedPacket::Handshake { kind, handshake_id: id, message });
    }
    if packet.len() < MIN_TRANSPORT_PACKET_SIZE {
        return None;
    }
    let counter: u64 = read_be(packet, HANDSHAKE_HEADER_SIZE, COUNTER_SIZE);
    let ciphertext = slice_subrange(packet, TRANSPORT_HEADER_SIZE, packet.len());
    assert(ciphertext@ =~= packet@.skip(18));
    Some(ParsedPacket::Transport { session_id: id, counter, ciphertext })
}

pub fn encode_transport_plaintext(msg_type: MsgType, payload: &[u8]) -> (plaintext: Vec<u8>)
    ensures
        plaintext@ == transport_plaintext(msg_type, payload@),
{
    let mut plaintext: Vec<u8> = Vec::new();
    plaintext.push(msg_type.to_u8());
    plaintext.extend_from_slice(payload);
    plaintext
}

pub fn decode_transport_plaintext(plaintext: &[u8]) -> (decoded: Option<(MsgType, &[u8])>)
    ensures
        match decoded {
            Some((msg_type, payload)) => plaintext_meaning(plaintext@) == Some(
                (msg_type, payload@),
            ),
            None => plaintext_meaning(plaintext@) is None,
        },
{
    if plaintext.len() == 0 {
        return None;
    }
    match MsgType::from_u8(plaintext[0]) {
        None => None,
        Some(msg_type) => {
            let payload = slice_subrange(plaintext, 1, plaintext.len());
            assert(payload@ =~= plaintext@.skip(1));
            Some((msg_type, payload))
        },
    }
}

/// Bind the public handshake identifier and wire version into Noise's
/// transcript. A modified identifier therefore cannot produce a valid
/// response or transport state.
pub fn handshake_prologue(handshake_id: &[u8; SESSION_ID_SIZE]) -> (prologue: Vec<u8>)
    ensures
        prologue@ == prologue_bytes(handshake_id@),
{
    let prefix: [u8; 21] = HANDSHAKE_PROLOGUE_PREFIX;
    let mut prologue: Vec<u8> = Vec::new();
    prologue.extend_from_slice(prefix.as_slice());
    prologue.push(WIRE_VERSION);
    prologue.extend_from_slice(handshake_id.as_slice());
    prologue
}

/// Decoding a handshake packet gives back what was encoded, for every
/// handshake kind and every non-empty message.
pub proof fn handshake_packets_round_trip(
    kind: PacketKind,
    handshake_id: Seq<u8>,
    message: Seq<u8>,
)
    requires
        kind != PacketKind::Transport,
        handshake_id.len() == SESSION_ID_SIZE,
        message.len() > 0,
    ensures
        packet_meaning(handshake_wire(kind, handshake_id, message)) == Some(
            PacketModel::Handshake { kind, handshake_id, message },
        ),
{
    let wire = handshake_wire(kind, handshake_id, message);
    assert(wire.subrange(2, 10) =~= handshake_id);
    assert(wire.skip(10) =~= message);
}

/// Decoding a transport packet gives back what was encoded, for every
/// identifier and counter and every ciphertext of at least seventeen bytes.
pub proof fn transport_packets_round_trip(
    wire: Seq<u8>,
    session_id: Seq<u8>,
    counter: u64,
    ciphertext: Seq<u8>,
)
    requires
        session_id.len() == SESSION_ID_SIZE,
        ciphertext.len() >= 17,
        is_transport_wire(wire, session_id, counter, ciphertext),
    ensures
        packet_meaning(wire) == Some(PacketModel::Transport { session_id, counter, ciphertext }),
{
    let counter_bytes = choose|counter_bytes: Seq<u8>|
        #![trigger crate::bytes::be_value(counter_bytes)]
        counter_bytes.len() == COUNTER_SIZE && crate::bytes::be_value(counter_bytes) == counter
            && wire == seq![WIRE_VERSION, PacketKind::Transport.code()] + session_id + counter_bytes
            + ciphertext;
    assert(wire.subrange(2, 10) =~= session_id);
    assert(wire.subrange(10, 18) =~= counter_bytes);
    assert(wire.skip(18) =~= ciphertext);
}

/// A transport packet whose ciphertext is shorter than seventeen bytes is
/// never decoded.
pub proof fn short_transport_packets_are_rejected(
    wire: Seq<u8>,
    session_id: Seq<u8>,
    counter: u64,
    ciphertext: Seq<u8>,
)
    requires
        session_id.len() == SESSION_ID_SIZE,
        ciphertext.len() < 17,
        is_transport_wire(wire, session_id, counter, ciphertext),
    ensures
        packet_meaning(wire) is None,
{
}

/// Decoding a transport plaintext gives back the type and the payload.
pub proof fn transport_plaintexts_round_trip(msg_type: MsgType, payload: Seq<u8>)
    ensures
        plaintext_meaning(transport_plaintext(msg_type, payload)) == Some((msg_type, payload)),
{
    assert(transport_plaintext(msg_type, payload).skip(1) =~= payload);
}

/// Different handshake identifiers give different prologues.
pub proof fn prologue_binds_the_handshake_id(first: Seq<u8>, second: Seq<u8>)
    requires
        first.len() == SESSION_ID_SIZE,
        second.len() == SESSION_ID_SIZE,
        prologue_bytes(first) == prologue_bytes(second),
    ensures
        first == second,
{
    assert(prologue_bytes(first).skip(22) =~= first);
    assert(prologue_bytes(second).skip(22) =~= second);
}

/// What a frame is made of, byte by byte: the version three, the kind, the
/// identifier, and then the message.
pub proof fn handshake_frames_have_this_layout(
    kind: PacketKind,
    handshake_id: Seq<u8>,
    message: Seq<u8>,
)
    requires
        handshake_id.len() == 8,
    ensures
        ({
            let wire = handshake_wire(kind, handshake_id, message);
            &&& wire.len() == 10 + message.len()
            &&& wire[0] == 3
            &&& wire[1] == if kind == PacketKind::HandshakeInit {
                1u8
            } else if kind == PacketKind::HandshakeResponse {
                2
            } else {
                0
            }
            &&& wire.subrange(2, 10) == handshake_id
            &&& wire.skip(10) == message
        }),
{
    let wire = handshake_wire(kind, handshake_id, message);
    assert(wire.subrange(2, 10) =~= handshake_id);
    assert(wire.skip(10) =~= message);
}

/// A frame decodes to a handshake exactly if it has version three, the kind of
/// one, and a message after its ten header bytes; and to a transport packet
/// exactly if it has version three, kind zero, and at least thirty-five bytes.
pub proof fn frames_are_judged_by_version_kind_and_length(packet: Seq<u8>)
    ensures
        packet_meaning(packet) is Some <==> packet.len() > 10 && packet[0] == 3 && (packet[1] == 1
            || packet[1] == 2 || (packet[1] == 0 && packet.len() >= 35)),
        packet_meaning(packet) matches Some(PacketModel::Handshake { kind, handshake_id, message })
            ==> packet == handshake_wire(kind, handshake_id, message) && handshake_id.len() == 8
            && message.len() > 0 && kind != PacketKind::Transport,
        packet_meaning(packet) matches Some(
            PacketModel::Transport { session_id, counter, ciphertext },
        ) ==> is_transport_wire(packet, session_id, counter, ciphertext) && session_id.len() == 8,
{
    match packet_meaning(packet) {
        Some(PacketModel::Handshake { kind, handshake_id, message }) => {
            assert(packet =~= handshake_wire(kind, handshake_id, message));
        },
        Some(PacketModel::Transport { session_id, counter, ciphertext }) => {
            let counter_bytes = packet.subrange(10, 18);
            crate::bytes::bytes_spell_most_significant_first(counter_bytes, 0);
            assert(packet =~= seq![WIRE_VERSION, PacketKind::Transport.code()] + session_id
                + counter_bytes + ciphertext);
            assert(crate::bytes::be_value(counter_bytes) == counter);
        },
        None => {},
    }
}

/// A plaintext is a data message if it begins with zero, a keepalive if it
/// begins with one, and nothing otherwise; the payload is the rest.
pub proof fn plaintexts_are_judged_by_their_first_byte(plaintext: Seq<u8>)
    ensures
        plaintext_meaning(plaintext) == if plaintext.len() > 0 && plaintext[0] == 0 {
            Some((MsgType::Data, plaintext.skip(1)))
        } else if plaintext.len() > 0 && plaintext[0] == 1 {
            Some((MsgType::Keepalive, plaintext.skip(1)))
        } else {
            None
        },
{
}

} // verus!

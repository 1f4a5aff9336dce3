use hushwire::auth::{
    decode_packet, decode_transport_plaintext, encode_handshake, encode_transport,
    encode_transport_plaintext, handshake_prologue, MsgType, PacketKind, ParsedPacket,
    HANDSHAKE_HEADER_SIZE, HANDSHAKE_PROLOGUE_PREFIX, KEEPALIVE_PROBE_PAYLOAD,
    MIN_TRANSPORT_PACKET_SIZE, SESSION_ID_SIZE, TRANSPORT_HEADER_SIZE, WIRE_VERSION,
};

#[test]
fn handshake_packet_round_trips() {
    let id = [0x11; SESSION_ID_SIZE];
    let packet = encode_handshake(PacketKind::HandshakeInit, &id, b"noise-message");
    assert_eq!(
        decode_packet(&packet),
        Some(ParsedPacket::Handshake {
            kind: PacketKind::HandshakeInit,
            handshake_id: id,
            message: b"noise-message",
        })
    );
}

#[test]
fn transport_packet_round_trips() {
    let id = [0x22; SESSION_ID_SIZE];
    let ciphertext = vec![0xAA; 17];
    let packet = encode_transport(&id, 42, &ciphertext);
    assert_eq!(
        decode_packet(&packet),
        Some(ParsedPacket::Transport {
            session_id: id,
            counter: 42,
            ciphertext: &ciphertext,
        })
    );
}

#[test]
fn transport_semantic_type_is_inside_plaintext() {
    let plaintext = encode_transport_plaintext(MsgType::Keepalive, &KEEPALIVE_PROBE_PAYLOAD);
    let (kind, payload) = decode_transport_plaintext(&plaintext).expect("plaintext");
    assert_eq!(kind, MsgType::Keepalive);
    assert_eq!(payload, KEEPALIVE_PROBE_PAYLOAD);
}

#[test]
fn rejects_old_unknown_and_truncated_packets() {
    assert!(decode_packet(&[]).is_none());
    assert!(decode_packet(&[0x02; HANDSHAKE_HEADER_SIZE]).is_none());

    let mut unknown = vec![0u8; HANDSHAKE_HEADER_SIZE];
    unknown[0] = WIRE_VERSION;
    unknown[1] = 0xff;
    assert!(decode_packet(&unknown).is_none());

    let id = [0x33; SESSION_ID_SIZE];
    let short = encode_transport(&id, 0, &[0u8; 16]);
    assert!(decode_packet(&short).is_none());
}

#[test]
fn handshake_id_is_bound_into_the_prologue() {
    let first = handshake_prologue(&[1u8; SESSION_ID_SIZE]);
    let second = handshake_prologue(&[2u8; SESSION_ID_SIZE]);
    assert_ne!(first, second);
    assert!(first.starts_with(&HANDSHAKE_PROLOGUE_PREFIX));
}

#[test]
fn headers_have_their_documented_layout() {
    let id = [1, 2, 3, 4, 5, 6, 7, 8];
    assert_eq!(
        encode_handshake(PacketKind::HandshakeResponse, &id, &[9, 9]),
        vec![0x03, 0x02, 1, 2, 3, 4, 5, 6, 7, 8, 9, 9]
    );
    assert_eq!(
        encode_transport(&id, 0x0102_0304_0506_0708, &[]),
        vec![0x03, 0x00, 1, 2, 3, 4, 5, 6, 7, 8, 1, 2, 3, 4, 5, 6, 7, 8]
    );
    assert_eq!(
        TRANSPORT_HEADER_SIZE + 17,
        MIN_TRANSPORT_PACKET_SIZE
    );
    assert_eq!(
        encode_transport_plaintext(MsgType::Data, &[7, 8]),
        vec![0x00, 7, 8]
    );
    assert_eq!(decode_transport_plaintext(&[]), None);
    assert_eq!(decode_transport_plaintext(&[0x02, 1]), None);
    assert_eq!(
        &handshake_prologue(&id)[..22],
        b"HushWire-v3-handshake\x03"
    );
}

#[test]
fn handshake_packets_carry_a_message() {
    let id = [0x44; SESSION_ID_SIZE];
    let empty = encode_handshake(PacketKind::HandshakeInit, &id, &[]);
    assert!(decode_packet(&empty).is_none());
}

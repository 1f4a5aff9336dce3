use hushwire::auth::{self, MsgType, ParsedPacket};
use hushwire::noise::{
    initiator_finalize, initiator_start, initiator_start_with_id, responder_respond, NoiseError,
    Session, REJECT_AFTER_TIME, REKEY_AFTER_MESSAGES, REKEY_AFTER_TIME,
};
use x25519_dalek::{PublicKey, StaticSecret};

const NOW: u64 = 1_000_000_000_000;

fn public_key(secret: &[u8; 32]) -> [u8; 32] {
    PublicKey::from(&StaticSecret::from(*secret)).to_bytes()
}

fn session_pair() -> (Session, Session) {
    let initiator_static = [0x11; 32];
    let responder_static = [0x22; 32];
    let initiator_public = public_key(&initiator_static);
    let responder_public = public_key(&responder_static);
    let psk = [0x33; 32];

    let handshake = initiator_start(&initiator_static, &responder_public, &psk).unwrap();
    let (handshake_id, message, state) = handshake.into_parts();
    let response = responder_respond(
        &responder_static,
        &initiator_public,
        &psk,
        handshake_id,
        &message,
        NOW,
    )
    .unwrap();
    let initiator_session = initiator_finalize(state, &response.message, NOW).unwrap();
    (initiator_session, response.session)
}

#[test]
fn standard_noise_handshake_and_transport_are_bidirectional() {
    let (mut initiator, mut responder) = session_pair();

    let first = initiator.encrypt(MsgType::Data, b"hello").unwrap();
    assert_eq!(
        responder.decrypt_packet(&first).unwrap(),
        (MsgType::Data, b"hello".to_vec())
    );

    let second = responder
        .encrypt(MsgType::Keepalive, &auth::KEEPALIVE_ACK_PAYLOAD)
        .unwrap();
    assert_eq!(
        initiator.decrypt_packet(&second).unwrap(),
        (MsgType::Keepalive, auth::KEEPALIVE_ACK_PAYLOAD.to_vec())
    );
}

#[test]
fn consecutive_packets_use_consecutive_unique_counters() {
    let (mut initiator, _) = session_pair();
    let first = initiator.encrypt(MsgType::Data, b"one").unwrap();
    let second = initiator.encrypt(MsgType::Data, b"two").unwrap();

    let ParsedPacket::Transport { counter: a, .. } = auth::decode_packet(&first).unwrap() else {
        panic!("transport packet");
    };
    let ParsedPacket::Transport { counter: b, .. } = auth::decode_packet(&second).unwrap() else {
        panic!("transport packet");
    };
    assert_eq!((a, b), (0, 1));
    assert_eq!(initiator.send_counter(), 2);
}

#[test]
fn replay_is_rejected_but_out_of_order_packets_are_accepted() {
    let (mut initiator, mut responder) = session_pair();
    let zero = initiator.encrypt(MsgType::Data, b"zero").unwrap();
    let one = initiator.encrypt(MsgType::Data, b"one").unwrap();

    assert!(responder.decrypt_packet(&one).is_ok());
    assert!(responder.decrypt_packet(&zero).is_ok());
    assert!(matches!(
        responder.decrypt_packet(&zero),
        Err(NoiseError::Replay)
    ));
}

#[test]
fn forged_high_counter_does_not_poison_replay_window() {
    let (mut initiator, mut responder) = session_pair();
    let legitimate = initiator.encrypt(MsgType::Data, b"valid").unwrap();
    let mut forged = legitimate.clone();
    forged[auth::HANDSHAKE_HEADER_SIZE..auth::TRANSPORT_HEADER_SIZE]
        .copy_from_slice(&u64::MAX.to_be_bytes());

    assert!(responder.decrypt_packet(&forged).is_err());
    assert_eq!(responder.decrypt_packet(&legitimate).unwrap().1, b"valid");
}

#[test]
fn wrong_psk_and_wrong_configured_static_are_rejected() {
    let initiator_static = [0x41; 32];
    let responder_static = [0x42; 32];
    let responder_public = public_key(&responder_static);
    let real_initiator_public = public_key(&initiator_static);
    let wrong_initiator_public = [0x44; 32];
    let psk = [0x43; 32];

    let handshake = initiator_start(&initiator_static, &responder_public, &psk).unwrap();
    let (handshake_id, message, initiator_state) = handshake.into_parts();
    let wrong_psk_response = responder_respond(
        &responder_static,
        &real_initiator_public,
        &[0x99; 32],
        handshake_id,
        &message,
        NOW,
    )
    .expect("IK authenticates the initiator static before psk2 is mixed");
    assert!(initiator_finalize(initiator_state, &wrong_psk_response.message, NOW).is_err());

    let handshake = initiator_start(&initiator_static, &responder_public, &psk).unwrap();

    assert!(matches!(
        responder_respond(
            &responder_static,
            &wrong_initiator_public,
            &psk,
            handshake.handshake_id,
            &handshake.message,
            NOW,
        ),
        Err(NoiseError::RemoteStaticMismatch)
    ));
}

#[test]
fn handshake_identifier_is_authenticated_by_the_transcript() {
    let initiator_static = [0x51; 32];
    let responder_static = [0x52; 32];
    let initiator_public = public_key(&initiator_static);
    let responder_public = public_key(&responder_static);
    let psk = [0x53; 32];
    let handshake = initiator_start(&initiator_static, &responder_public, &psk).unwrap();
    let mut changed_id = handshake.handshake_id;
    changed_id[0] ^= 1;

    assert!(responder_respond(
        &responder_static,
        &initiator_public,
        &psk,
        changed_id,
        &handshake.message,
        NOW,
    )
    .is_err());
}

#[test]
fn sessions_request_rekey_and_eventually_expire() {
    let (mut session, _) = session_pair();
    assert!(session.should_rekey(NOW + REKEY_AFTER_TIME));
    assert!(!session.is_expired(NOW + REKEY_AFTER_TIME));

    assert!(session.is_expired(NOW + REJECT_AFTER_TIME));

    session.advance_send_counter(REKEY_AFTER_MESSAGES);
    assert!(session.should_rekey(NOW));
}

#[test]
fn young_sessions_neither_rekey_nor_expire() {
    let (session, _) = session_pair();
    assert!(!session.should_rekey(NOW));
    assert!(!session.should_rekey(NOW + REKEY_AFTER_TIME - 1));
    assert!(!session.is_expired(NOW + REJECT_AFTER_TIME - 1));
    assert!(!session.is_expired(0));
}

#[test]
fn an_exhausted_counter_sends_nothing() {
    let (mut session, _) = session_pair();
    session.advance_send_counter(u64::MAX);
    assert!(session.is_expired(NOW));
    assert!(matches!(
        session.encrypt(MsgType::Data, b"x"),
        Err(NoiseError::CounterExhausted)
    ));
    // Counters never go back.
    session.advance_send_counter(0);
    assert_eq!(session.send_counter(), u64::MAX);
}

#[test]
fn oversized_payloads_are_refused() {
    let (mut initiator, mut responder) = session_pair();
    let largest = vec![7u8; 65_535 - 17];
    let frame = initiator.encrypt(MsgType::Data, &largest).unwrap();
    assert_eq!(responder.decrypt_packet(&frame).unwrap().1, largest);
    assert!(matches!(
        initiator.encrypt(MsgType::Data, &vec![7u8; 65_535 - 16]),
        Err(NoiseError::Snow(_))
    ));
}

#[test]
fn malformed_and_foreign_packets_are_told_apart() {
    let (mut initiator, mut responder) = session_pair();
    assert!(matches!(
        responder.decrypt_packet(&[]),
        Err(NoiseError::MalformedTransport)
    ));
    let frame = initiator.encrypt(MsgType::Data, b"x").unwrap();
    let mut foreign = frame.clone();
    foreign[2] ^= 1;
    assert!(matches!(
        responder.decrypt_packet(&foreign),
        Err(NoiseError::WrongSession)
    ));
    let id = responder.id();
    assert!(matches!(
        responder.decrypt(&id, 0, &[0u8; 16]),
        Err(NoiseError::MalformedTransport)
    ));
    assert!(matches!(
        responder.decrypt(&id, 0, &[0u8; 17]),
        Err(NoiseError::Snow(_))
    ));
    assert!(responder.decrypt_packet(&frame).is_ok());
}

#[test]
fn a_chosen_identifier_is_kept() {
    let responder_static = [0x22; 32];
    let id = [9, 8, 7, 6, 5, 4, 3, 2];
    let handshake = initiator_start_with_id(
        &[0x11; 32],
        &public_key(&responder_static),
        &[0x33; 32],
        id,
    )
    .unwrap();
    assert_eq!(handshake.handshake_id, id);
    assert_eq!(handshake.state.handshake_id(), id);
    assert_eq!(handshake.message.len(), 96);
    let response = responder_respond(
        &responder_static,
        &public_key(&[0x11; 32]),
        &[0x33; 32],
        id,
        &handshake.message,
        NOW,
    )
    .unwrap();
    assert_eq!(response.message.len(), 56);
}

#[test]
fn random_identifiers_differ() {
    let public = public_key(&[0x22; 32]);
    let first = initiator_start(&[0x11; 32], &public, &[0x33; 32]).unwrap();
    let second = initiator_start(&[0x11; 32], &public, &[0x33; 32]).unwrap();
    assert_ne!(first.handshake_id, second.handshake_id);
    assert_ne!(first.message, second.message);
}

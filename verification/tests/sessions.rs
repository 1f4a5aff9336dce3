use hushwire::auth;
use hushwire::engine::{SessionManager, HANDSHAKE_ATTEMPT_LIFETIME, HANDSHAKE_RETRY_INTERVAL};
use hushwire::noise;
use hushwire::scheduler::SECOND;
use x25519_dalek::{PublicKey, StaticSecret};

const MILLISECOND: u64 = 1_000_000;
const NOW: u64 = 1_000_000_000_000;

fn public_key(secret: &[u8; 32]) -> [u8; 32] {
    PublicKey::from(&StaticSecret::from(*secret)).to_bytes()
}

fn complete_managed_handshake(
    initiator: &mut SessionManager,
    responder: &mut SessionManager,
    initiator_static: &[u8; 32],
    responder_static: &[u8; 32],
    responder_public: &[u8; 32],
    psk: &[u8; 32],
    now: u64,
) -> [u8; auth::SESSION_ID_SIZE] {
    let request_packet = initiator
        .start_or_retry_handshake("peer", initiator_static, responder_public, psk, now)
        .expect("create handshake")
        .expect("handshake request");
    let auth::ParsedPacket::Handshake {
        kind: auth::PacketKind::HandshakeInit,
        handshake_id,
        message: request,
    } = auth::decode_packet(&request_packet).expect("framed request")
    else {
        panic!("handshake init");
    };
    let initiator_public = public_key(initiator_static);
    let response = noise::responder_respond(
        responder_static,
        &initiator_public,
        psk,
        handshake_id,
        request,
        now,
    )
    .expect("handshake response");
    let session_id = response.session.session_id;
    let response_message = response.message.clone();
    let response_packet = auth::encode_handshake(
        auth::PacketKind::HandshakeResponse,
        &handshake_id,
        &response_message,
    );
    assert!(responder.store_responder_candidate(
        "peer",
        response.session,
        handshake_id,
        request.to_vec(),
        response_packet,
        now,
    ));

    // Receiving msg2 installs the initiator session and produces the
    // authenticated confirmation that promotes the responder candidate.
    let (peer, confirmation) = initiator
        .finalize_initiator(&handshake_id, &response_message, now)
        .expect("finalize handshake")
        .expect("matching pending handshake");
    assert_eq!(peer, "peer");
    let auth::ParsedPacket::Transport {
        session_id: confirmation_id,
        counter,
        ciphertext,
    } = auth::decode_packet(&confirmation).expect("confirmation packet")
    else {
        panic!("transport confirmation");
    };
    let confirmation = responder
        .decrypt_transport(&confirmation_id, counter, ciphertext, now)
        .expect("authenticate confirmation")
        .expect("candidate session");
    assert!(confirmation.promoted_responder_session);
    assert_eq!(confirmation.msg_type, auth::MsgType::Keepalive);
    assert_eq!(confirmation.payload, auth::KEEPALIVE_PROBE_PAYLOAD);

    assert!(initiator.has_active_session("peer", now));
    assert!(responder.has_active_session("peer", now));
    session_id
}

fn decrypt_managed_transport(
    manager: &mut SessionManager,
    packet: &[u8],
    now: u64,
) -> Option<(auth::MsgType, Vec<u8>, bool)> {
    let auth::ParsedPacket::Transport {
        session_id,
        counter,
        ciphertext,
    } = auth::decode_packet(packet).expect("transport packet")
    else {
        panic!("expected transport packet");
    };
    manager
        .decrypt_transport(&session_id, counter, ciphertext, now)
        .expect("decrypt transport")
        .map(|decrypted| {
            (
                decrypted.msg_type,
                decrypted.payload,
                decrypted.promoted_responder_session,
            )
        })
}

#[test]
fn rekey_keeps_previous_session_for_in_flight_packets() {
    let initiator_static = [0x31; 32];
    let responder_static = [0x32; 32];
    let responder_public = public_key(&responder_static);
    let psk = [0x33; 32];
    let mut initiator = SessionManager::new();
    let mut responder = SessionManager::new();
    let now = NOW;

    let old_session_id = complete_managed_handshake(
        &mut initiator,
        &mut responder,
        &initiator_static,
        &responder_static,
        &responder_public,
        &psk,
        now,
    );
    let delayed_to_responder = initiator
        .encrypt_for_peer(
            "peer",
            auth::MsgType::Data,
            b"old initiator packet",
            now + SECOND,
        )
        .unwrap()
        .unwrap();
    let expired_to_responder = initiator
        .encrypt_for_peer(
            "peer",
            auth::MsgType::Data,
            b"expired old packet",
            now + SECOND,
        )
        .unwrap()
        .unwrap();
    let delayed_to_initiator = responder
        .encrypt_for_peer(
            "peer",
            auth::MsgType::Data,
            b"old responder packet",
            now + SECOND,
        )
        .unwrap()
        .unwrap();

    let rekey_at = now + noise::REKEY_AFTER_TIME + SECOND;
    let new_session_id = complete_managed_handshake(
        &mut initiator,
        &mut responder,
        &initiator_static,
        &responder_static,
        &responder_public,
        &psk,
        rekey_at,
    );
    assert_ne!(old_session_id, new_session_id);

    let received =
        decrypt_managed_transport(&mut responder, &delayed_to_responder, rekey_at + SECOND)
            .expect("responder accepts previous session");
    assert_eq!(received.0, auth::MsgType::Data);
    assert_eq!(received.1, b"old initiator packet");
    assert!(!received.2);

    let received =
        decrypt_managed_transport(&mut initiator, &delayed_to_initiator, rekey_at + SECOND)
            .expect("initiator accepts previous session");
    assert_eq!(received.0, auth::MsgType::Data);
    assert_eq!(received.1, b"old responder packet");
    assert!(!received.2);

    assert!(decrypt_managed_transport(
        &mut responder,
        &expired_to_responder,
        now + noise::REJECT_AFTER_TIME + SECOND,
    )
    .is_none());
}

#[test]
fn responder_candidate_suppresses_competing_local_rekey() {
    let initiator_static = [0x34; 32];
    let responder_static = [0x35; 32];
    let initiator_public = public_key(&initiator_static);
    let responder_public = public_key(&responder_static);
    let psk = [0x36; 32];
    let mut initiator = SessionManager::new();
    let mut responder = SessionManager::new();
    let now = NOW;

    complete_managed_handshake(
        &mut initiator,
        &mut responder,
        &initiator_static,
        &responder_static,
        &responder_public,
        &psk,
        now,
    );
    let rekey_at = now + noise::REKEY_AFTER_TIME + SECOND;
    assert!(responder
        .start_or_retry_handshake("peer", &responder_static, &initiator_public, &psk, rekey_at)
        .unwrap()
        .is_some());
    assert!(responder.has_pending_init("peer"));

    let remote = noise::initiator_start(&initiator_static, &responder_public, &psk).unwrap();
    let candidate = noise::responder_respond(
        &responder_static,
        &initiator_public,
        &psk,
        remote.handshake_id,
        &remote.message,
        rekey_at,
    )
    .unwrap();
    let response = auth::encode_handshake(
        auth::PacketKind::HandshakeResponse,
        &remote.handshake_id,
        &candidate.message,
    );
    assert!(responder.store_responder_candidate(
        "peer",
        candidate.session,
        remote.handshake_id,
        remote.message,
        response,
        rekey_at,
    ));

    assert!(!responder.has_pending_init("peer"));
    assert!(responder
        .start_or_retry_handshake(
            "peer",
            &responder_static,
            &initiator_public,
            &psk,
            rekey_at + HANDSHAKE_RETRY_INTERVAL,
        )
        .unwrap()
        .is_none());
}

#[test]
fn one_sided_restart_can_replace_the_surviving_old_session() {
    let initiator_static = [0x11; 32];
    let responder_static = [0x22; 32];
    let responder_public = public_key(&responder_static);
    let psk = [0x33; 32];
    let mut initiator = SessionManager::new();
    let mut responder_before_restart = SessionManager::new();
    let now = NOW;

    let old_session_id = complete_managed_handshake(
        &mut initiator,
        &mut responder_before_restart,
        &initiator_static,
        &responder_static,
        &responder_public,
        &psk,
        now,
    );

    // The responder process restarts and loses all in-memory crypto state.
    let mut responder_after_restart = SessionManager::new();
    assert_eq!(initiator.active_session_id("peer"), Some(old_session_id));
    assert!(initiator.invalidate_peer("peer"));
    assert!(!initiator.has_active_session("peer", now));
    assert_eq!(initiator.active_session_id("peer"), None);

    complete_managed_handshake(
        &mut initiator,
        &mut responder_after_restart,
        &initiator_static,
        &responder_static,
        &responder_public,
        &psk,
        now + SECOND,
    );
}

#[test]
fn lost_handshake_response_retries_the_same_exchange() {
    let initiator_static = [0x44; 32];
    let responder_static = [0x55; 32];
    let responder_public = public_key(&responder_static);
    let psk = [0x66; 32];
    let mut initiator = SessionManager::new();
    let mut responder = SessionManager::new();
    let now = NOW;

    let first_request_packet = initiator
        .start_or_retry_handshake("peer", &initiator_static, &responder_public, &psk, now)
        .expect("create request")
        .expect("initial request");
    let auth::ParsedPacket::Handshake {
        handshake_id,
        message: first_request,
        ..
    } = auth::decode_packet(&first_request_packet).unwrap()
    else {
        panic!("handshake init");
    };
    let initiator_public = public_key(&initiator_static);
    let response = noise::responder_respond(
        &responder_static,
        &initiator_public,
        &psk,
        handshake_id,
        first_request,
        now,
    )
    .expect("response");
    let response_message = response.message.clone();
    let response_packet = auth::encode_handshake(
        auth::PacketKind::HandshakeResponse,
        &handshake_id,
        &response_message,
    );
    assert!(responder.store_responder_candidate(
        "peer",
        response.session,
        handshake_id,
        first_request.to_vec(),
        response_packet.clone(),
        now,
    ));

    // Simulate dropping msg2. The retry timer must neither spin nor create
    // a new initiator ephemeral key.
    assert!(initiator
        .start_or_retry_handshake(
            "peer",
            &initiator_static,
            &responder_public,
            &psk,
            now + (HANDSHAKE_RETRY_INTERVAL - MILLISECOND),
        )
        .unwrap()
        .is_none());
    let retry = initiator
        .start_or_retry_handshake(
            "peer",
            &initiator_static,
            &responder_public,
            &psk,
            now + HANDSHAKE_RETRY_INTERVAL,
        )
        .expect("retry operation")
        .expect("timed retry");
    assert_eq!(retry, first_request_packet);

    // The responder also returns its cached msg2 for the duplicate msg1,
    // preserving one session even if packets are delayed or reordered.
    let cached_response = responder
        .cached_responder_response("peer", &handshake_id, first_request, now)
        .expect("cached response");
    assert_eq!(cached_response, response_packet);

    let (_, confirmation) = initiator
        .finalize_initiator(&handshake_id, &response_message, now)
        .expect("finalized retry")
        .expect("pending retry");
    let auth::ParsedPacket::Transport {
        session_id,
        counter,
        ciphertext,
    } = auth::decode_packet(&confirmation).unwrap()
    else {
        panic!("confirmation");
    };
    let promoted = responder
        .decrypt_transport(&session_id, counter, ciphertext, now)
        .unwrap()
        .unwrap();
    assert!(promoted.promoted_responder_session);
    assert!(!initiator.has_pending_init("peer"));
    assert!(initiator.has_active_session("peer", now));
    assert!(responder.has_active_session("peer", now));
}

#[test]
fn unanswered_handshake_is_replaced_after_attempt_lifetime() {
    let initiator_static = [0x67; 32];
    let responder_static = [0x68; 32];
    let responder_public = public_key(&responder_static);
    let mut sessions = SessionManager::new();
    let psk = [0x69; 32];
    let now = NOW;

    let first = sessions
        .start_or_retry_handshake("peer", &initiator_static, &responder_public, &psk, now)
        .unwrap()
        .unwrap();
    let replacement = sessions
        .start_or_retry_handshake(
            "peer",
            &initiator_static,
            &responder_public,
            &psk,
            now + HANDSHAKE_ATTEMPT_LIFETIME,
        )
        .unwrap()
        .unwrap();
    assert_ne!(first, replacement);

    let auth::ParsedPacket::Handshake {
        handshake_id: first_id,
        ..
    } = auth::decode_packet(&first).unwrap()
    else {
        panic!("first handshake");
    };
    let auth::ParsedPacket::Handshake {
        handshake_id: replacement_id,
        ..
    } = auth::decode_packet(&replacement).unwrap()
    else {
        panic!("replacement handshake");
    };
    assert_ne!(first_id, replacement_id);
}

#[test]
fn simultaneous_initiation_converges_on_the_smaller_identifier() {
    let static_a = [0x6a; 32];
    let static_b = [0x6b; 32];
    let public_a = public_key(&static_a);
    let public_b = public_key(&static_b);
    let psk = [0x6c; 32];
    let mut manager_a = SessionManager::new();
    let mut manager_b = SessionManager::new();
    let now = NOW;

    let packet_a = manager_a
        .start_or_retry_handshake("peer", &static_a, &public_b, &psk, now)
        .unwrap()
        .unwrap();
    let packet_b = manager_b
        .start_or_retry_handshake("peer", &static_b, &public_a, &psk, now)
        .unwrap()
        .unwrap();
    let auth::ParsedPacket::Handshake {
        handshake_id: id_a,
        message: message_a,
        ..
    } = auth::decode_packet(&packet_a).unwrap()
    else {
        panic!("handshake A");
    };
    let auth::ParsedPacket::Handshake {
        handshake_id: id_b,
        message: message_b,
        ..
    } = auth::decode_packet(&packet_b).unwrap()
    else {
        panic!("handshake B");
    };
    assert_ne!(id_a, id_b);

    let a_accepts_b = manager_a.accept_inbound_initiation("peer", &id_b, false, now);
    let b_accepts_a = manager_b.accept_inbound_initiation("peer", &id_a, false, now);
    assert_ne!(a_accepts_b, b_accepts_a);

    let (
        winner_manager,
        responder_manager,
        winner_id,
        winner_message,
        winner_public,
        responder_static,
    ) = if id_a < id_b {
        assert!(!a_accepts_b && b_accepts_a);
        (
            &mut manager_a,
            &mut manager_b,
            id_a,
            message_a,
            &public_a,
            &static_b,
        )
    } else {
        assert!(a_accepts_b && !b_accepts_a);
        (
            &mut manager_b,
            &mut manager_a,
            id_b,
            message_b,
            &public_b,
            &static_a,
        )
    };

    let response = noise::responder_respond(
        responder_static,
        winner_public,
        &psk,
        winner_id,
        winner_message,
        now,
    )
    .unwrap();
    let response_message = response.message.clone();
    let response_packet = auth::encode_handshake(
        auth::PacketKind::HandshakeResponse,
        &winner_id,
        &response_message,
    );
    assert!(responder_manager.store_responder_candidate(
        "peer",
        response.session,
        winner_id,
        winner_message.to_vec(),
        response_packet,
        now,
    ));
    let (_, confirmation) = winner_manager
        .finalize_initiator(&winner_id, &response_message, now)
        .unwrap()
        .unwrap();
    let auth::ParsedPacket::Transport {
        session_id,
        counter,
        ciphertext,
    } = auth::decode_packet(&confirmation).unwrap()
    else {
        panic!("confirmation");
    };
    assert!(
        responder_manager
            .decrypt_transport(&session_id, counter, ciphertext, now)
            .unwrap()
            .unwrap()
            .promoted_responder_session
    );
    assert!(winner_manager.has_active_session("peer", now));
    assert!(responder_manager.has_active_session("peer", now));
}

#[test]
fn passive_peer_prefers_authenticated_inbound_restart_handshake() {
    let local_static = [0x71; 32];
    let remote_static = [0x72; 32];
    let remote_public = public_key(&remote_static);
    let mut manager = SessionManager::new();
    let now = NOW;
    let local_packet = manager
        .start_or_retry_handshake("peer", &local_static, &remote_public, &[0x73; 32], now)
        .unwrap()
        .unwrap();
    let auth::ParsedPacket::Handshake {
        handshake_id: local_id,
        ..
    } = auth::decode_packet(&local_packet).unwrap()
    else {
        panic!("local handshake");
    };

    let mut remote_id = local_id;
    let position = remote_id
        .iter()
        .position(|byte| *byte != u8::MAX)
        .expect("random identifier cannot be all 0xff in this test");
    remote_id[position] += 1;
    remote_id[position + 1..].fill(0);

    // Normal symmetric resolution keeps the smaller local exchange.
    assert!(!manager.accept_inbound_initiation("peer", &remote_id, false, now));
    assert!(manager.has_pending_init("peer"));

    // A passive peer cannot use its stale learned endpoint after the
    // remote process restarts, so the fresh authenticated inbound exchange
    // must replace that pending local attempt deterministically.
    assert!(manager.accept_inbound_initiation("peer", &remote_id, true, now));
    assert!(!manager.has_pending_init("peer"));
}

#[test]
fn replayed_handshake_cannot_replace_an_active_responder_session() {
    let initiator_static = [0x71; 32];
    let responder_static = [0x72; 32];
    let initiator_public = public_key(&initiator_static);
    let responder_public = public_key(&responder_static);
    let psk = [0x73; 32];
    let mut initiator = SessionManager::new();
    let mut responder = SessionManager::new();
    let now = NOW;
    let active_id = complete_managed_handshake(
        &mut initiator,
        &mut responder,
        &initiator_static,
        &responder_static,
        &responder_public,
        &psk,
        now,
    );

    // A valid historical/new msg1 creates only a candidate. Until a valid
    // transport confirmation arrives, the existing active session stays.
    let replay = noise::initiator_start(&initiator_static, &responder_public, &psk).unwrap();
    let candidate = noise::responder_respond(
        &responder_static,
        &initiator_public,
        &psk,
        replay.handshake_id,
        &replay.message,
        now,
    )
    .unwrap();
    let response = auth::encode_handshake(
        auth::PacketKind::HandshakeResponse,
        &replay.handshake_id,
        &candidate.message,
    );
    assert!(responder.store_responder_candidate(
        "peer",
        candidate.session,
        replay.handshake_id,
        replay.message,
        response,
        now,
    ));

    assert_eq!(responder.active_session_id("peer"), Some(active_id));
}

#[test]
fn a_passive_peer_with_a_session_keeps_the_identifier_rule() {
    let initiator_static = [0x31; 32];
    let responder_static = [0x32; 32];
    let initiator_public = public_key(&initiator_static);
    let responder_public = public_key(&responder_static);
    let psk = [0x33; 32];
    let mut initiator = SessionManager::new();
    let mut responder = SessionManager::new();
    complete_managed_handshake(
        &mut initiator,
        &mut responder,
        &initiator_static,
        &responder_static,
        &responder_public,
        &psk,
        NOW,
    );
    let rekey_at = NOW + noise::REKEY_AFTER_TIME;
    responder
        .start_or_retry_handshake("peer", &responder_static, &initiator_public, &psk, rekey_at)
        .unwrap()
        .unwrap();
    assert!(!responder.accept_inbound_initiation("peer", &[0xff; 8], true, rekey_at));
    assert!(responder.accept_inbound_initiation("peer", &[0x00; 8], true, rekey_at));
}

#[test]
fn a_passive_peer_whose_session_expired_keeps_the_identifier_rule() {
    let initiator_static = [0x31; 32];
    let responder_static = [0x32; 32];
    let initiator_public = public_key(&initiator_static);
    let responder_public = public_key(&responder_static);
    let psk = [0x33; 32];
    let mut initiator = SessionManager::new();
    let mut responder = SessionManager::new();
    complete_managed_handshake(
        &mut initiator,
        &mut responder,
        &initiator_static,
        &responder_static,
        &responder_public,
        &psk,
        NOW,
    );
    let late = NOW + noise::REJECT_AFTER_TIME;
    assert!(!responder.has_active_session("peer", late));
    responder
        .start_or_retry_handshake("peer", &responder_static, &initiator_public, &psk, late)
        .unwrap()
        .unwrap();
    assert!(!responder.accept_inbound_initiation("peer", &[0xff; 8], true, late));
    assert!(responder.has_pending_init("peer"));

    // Once it was discarded, it gives way to the next initiation, and to no
    // other.
    responder.invalidate_peer("peer");
    responder
        .start_or_retry_handshake("peer", &responder_static, &initiator_public, &psk, late)
        .unwrap()
        .unwrap();
    assert!(responder.accept_inbound_initiation("peer", &[0xff; 8], true, late));
    assert!(!responder.has_pending_init("peer"));
    responder
        .start_or_retry_handshake("peer", &responder_static, &initiator_public, &psk, late)
        .unwrap()
        .unwrap();
    assert!(!responder.accept_inbound_initiation("peer", &[0xff; 8], true, late));
}

#[test]
fn discarding_one_peer_spares_the_others() {
    let initiator_static = [0x31; 32];
    let responder_static = [0x32; 32];
    let responder_public = public_key(&responder_static);
    let psk = [0x33; 32];
    let mut initiator = SessionManager::new();
    let mut responder = SessionManager::new();
    complete_managed_handshake(
        &mut initiator,
        &mut responder,
        &initiator_static,
        &responder_static,
        &responder_public,
        &psk,
        NOW,
    );
    initiator
        .start_or_retry_handshake("other", &initiator_static, &responder_public, &psk, NOW)
        .unwrap()
        .unwrap();
    assert!(initiator.invalidate_peer("other"));
    assert!(!initiator.invalidate_peer("other"));
    assert!(initiator.has_active_session("peer", NOW));
}

#[test]
fn expired_sessions_send_nothing() {
    let initiator_static = [0x31; 32];
    let responder_static = [0x32; 32];
    let responder_public = public_key(&responder_static);
    let psk = [0x33; 32];
    let mut initiator = SessionManager::new();
    let mut responder = SessionManager::new();
    complete_managed_handshake(
        &mut initiator,
        &mut responder,
        &initiator_static,
        &responder_static,
        &responder_public,
        &psk,
        NOW,
    );
    let late = NOW + noise::REJECT_AFTER_TIME;
    assert!(!initiator.has_active_session("peer", late));
    assert!(initiator
        .encrypt_for_peer("peer", auth::MsgType::Data, b"late", late)
        .unwrap()
        .is_none());
    assert!(initiator
        .encrypt_for_peer("nobody", auth::MsgType::Data, b"x", NOW)
        .unwrap()
        .is_none());
}

#[test]
fn a_given_initiation_is_awaited() {
    let mut sessions = SessionManager::new();
    let public = public_key(&[0x32; 32]);
    let id = [1, 2, 3, 4, 5, 6, 7, 8];
    let handshake = noise::initiator_start_with_id(&[0x31; 32], &public, &[0x33; 32], id).unwrap();
    let message = handshake.message.clone();
    let packet = sessions.await_response("peer", handshake, NOW);
    assert_eq!(
        packet,
        auth::encode_handshake(auth::PacketKind::HandshakeInit, &id, &message)
    );
    assert!(sessions.has_pending_init("peer"));
    assert!(sessions
        .finalize_initiator(&[0; 8], &message, NOW)
        .unwrap()
        .is_none());
    assert!(sessions.finalize_initiator(&id, &message, NOW).is_err());
    assert!(!sessions.has_pending_init("peer"));
}

#[test]
fn cached_responses_age_and_match_exactly() {
    let initiator_static = [0x34; 32];
    let responder_static = [0x35; 32];
    let psk = [0x36; 32];
    let mut responder = SessionManager::new();
    let remote =
        noise::initiator_start(&initiator_static, &public_key(&responder_static), &psk).unwrap();
    let candidate = noise::responder_respond(
        &responder_static,
        &public_key(&initiator_static),
        &psk,
        remote.handshake_id,
        &remote.message,
        NOW,
    )
    .unwrap();
    assert!(responder.store_responder_candidate(
        "peer",
        candidate.session,
        remote.handshake_id,
        remote.message.clone(),
        vec![1, 2, 3],
        NOW,
    ));
    let id = remote.handshake_id;
    assert_eq!(
        responder.cached_responder_response("peer", &id, &remote.message, NOW + 59 * SECOND),
        Some(vec![1, 2, 3])
    );
    assert_eq!(
        responder.cached_responder_response("peer", &id, b"other", NOW),
        None
    );
    assert_eq!(
        responder.cached_responder_response("peer", &[0; 8], &remote.message, NOW),
        None
    );
    assert_eq!(
        responder.cached_responder_response("peer", &id, &remote.message, NOW + 60 * SECOND),
        None
    );
}

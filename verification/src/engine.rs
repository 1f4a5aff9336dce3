//! Platform-independent packet engine.
//!
//! It performs no TUN, socket, route, firewall, signal, or process management,
//! so both the CLI adapter and a Network Extension can drive it.

use vstd::prelude::*;

use crate::auth::{self, MsgType, PacketKind, PacketModel, ParsedPacket, SESSION_ID_SIZE};
use crate::bytes::same_bytes;
use crate::config::{self, Config, Resolution};
use crate::names::NameMap;
use crate::net::{Ipv4Addr, SocketAddr};
use crate::noise::{self, AnswerFailure, Decryption, NoiseError, Response, SessionModel};
use crate::packet::{Ipv4Packet, PacketError};
use crate::router::{ExcludedRoute, Peer, Route, Router, RouterError};
use crate::state::{PeerState, PeerStats};
use crate::text::same_text;

pub use crate::sessions::{
    CachedModel, DecryptedTransport, SessionManager, SessionsModel, Slot, HANDSHAKE_ATTEMPT_LIFETIME,
    HANDSHAKE_CACHE_LIFETIME, HANDSHAKE_RETRY_INTERVAL,
};

verus! {

/// A platform adapter operation produced by [`Engine`].
#[derive(Debug, Clone, Eq, PartialEq)]
pub enum EngineAction {
    /// Send an encoded HushWire frame through UDP, TCP, or another transport.
    SendTransport { peer_name: String, endpoint: SocketAddr, frame: Vec<u8> },
    /// Deliver an authenticated IP packet to the platform packet interface.
    WriteIpPacket { peer_name: String, source: SocketAddr, packet: Vec<u8> },
}

#[derive(Debug, Clone, Copy, Eq, PartialEq, Structural)]
pub enum HandshakeRole {
    Initiator,
    Responder,
}

/// State changes suitable for logs and future GUI callbacks.
#[derive(Debug, Clone, Eq, PartialEq)]
pub enum EngineEvent {
    HandshakeCompleted { peer_name: String, endpoint: SocketAddr, role: HandshakeRole },
}

/// All work produced while processing one packet or timer event.
#[derive(Debug)]
pub struct EngineOutput {
    pub actions: Vec<EngineAction>,
    pub events: Vec<EngineEvent>,
}

impl EngineOutput {
    /// Whether there is nothing to do and nothing to report.
    pub open spec fn is_empty(self) -> bool {
        self.actions@.len() == 0 && self.events@.len() == 0
    }
}

impl Default for EngineOutput {
    fn default() -> (output: EngineOutput)
        ensures
            output.is_empty(),
    {
        EngineOutput { actions: Vec::new(), events: Vec::new() }
    }
}

#[derive(Debug)]
pub enum EngineError {
    /// The interface has an invalid private key.
    InvalidPrivateKey,
    Router(RouterError),
    Packet(PacketError),
    Noise(NoiseError),
    UnknownPeer(String),
}

impl EngineAction {
    /// Whether this sends these bytes to a peer at an endpoint.
    pub open spec fn sends(self, peer: Seq<char>, to: SocketAddr, bytes: Seq<u8>) -> bool {
        self matches EngineAction::SendTransport { peer_name, endpoint, frame } && peer_name@
            == peer && endpoint == to && frame@ == bytes
    }

    /// Whether this delivers a packet that came from a peer.
    pub open spec fn writes(self, peer: Seq<char>, from: SocketAddr, bytes: Seq<u8>) -> bool {
        self matches EngineAction::WriteIpPacket { peer_name, source, packet } && peer_name@ == peer
            && source == from && packet@ == bytes
    }
}

impl EngineEvent {
    /// Whether this reports a handshake with a peer.
    pub open spec fn completes(self, peer: Seq<char>, at: SocketAddr, as_role: HandshakeRole) -> bool {
        self matches EngineEvent::HandshakeCompleted { peer_name, endpoint, role } && peer_name@
            == peer && endpoint == at && role == as_role
    }
}

/// An engine as plain values.
pub struct EngineModel {
    pub routes: Seq<Route>,
    pub exclusions: Seq<ExcludedRoute>,
    pub private_key: Seq<u8>,
    pub sessions: SessionsModel,
    pub peers: Map<Seq<char>, PeerStats>,
    /// Whether a peer that accepted the last initiation could not be answered.
    pub unanswered: bool,
}

impl EngineModel {
    /// Where a peer is reached: at the endpoint it was last heard from, or at
    /// the configured one, as long as it is usable.
    pub open spec fn endpoint_of(self, peer: Peer) -> Option<SocketAddr> {
        let learned = crate::state::stats_of(self.peers, peer.name@).current_endpoint;
        if learned is Some && learned->0.usable() {
            learned
        } else if peer.endpoint.usable() {
            Some(peer.endpoint)
        } else {
            None
        }
    }

    pub open spec fn with_sessions(self, sessions: SessionsModel) -> EngineModel {
        EngineModel { sessions, ..self }
    }

    pub open spec fn with_unanswered(self, unanswered: bool) -> EngineModel {
        EngineModel { unanswered, ..self }
    }

    pub open spec fn with_peers(self, peers: Map<Seq<char>, PeerStats>) -> EngineModel {
        EngineModel { peers, ..self }
    }

    /// Whether starting or retrying a handshake with a peer gives this action
    /// and leaves this state. Nothing happens where the peer has no endpoint.
    pub open spec fn initiates(
        self,
        peer: Peer,
        now: u64,
        action: Result<Option<EngineAction>, NoiseError>,
        after: EngineModel,
    ) -> bool {
        match self.endpoint_of(peer) {
            None => action matches Ok(None) && after == self,
            Some(to) => after == self.with_sessions(after.sessions) && match action {
                Ok(None) => self.starts(peer, now, Ok(None), after.sessions),
                Ok(Some(EngineAction::SendTransport { peer_name, endpoint, frame })) => peer_name@
                    == peer.name@ && endpoint == to && self.starts(
                    peer,
                    now,
                    Ok(Some(frame)),
                    after.sessions,
                ),
                Ok(Some(_)) => false,
                Err(error) => self.starts(peer, now, Err(error), after.sessions),
            },
        }
    }

    pub open spec fn starts(
        self,
        peer: Peer,
        now: u64,
        packet: Result<Option<Vec<u8>>, NoiseError>,
        after: SessionsModel,
    ) -> bool {
        self.sessions.reports_start(
            peer.name@,
            self.private_key,
            peer.public_key@,
            peer.psk@,
            now,
            packet,
            after,
        )
    }

    /// Whether the peer has a session to send under.
    pub open spec fn can_send(self, peer: Seq<char>, now: u64) -> bool {
        crate::sessions::without_expired(self.sessions.sessions, peer, now).contains_key(peer)
    }

    /// The state after a message was encrypted for a peer, or could not be.
    /// Where it does not fit, the peer's state is discarded.
    pub open spec fn after_encrypt(self, peer: Seq<char>, payload: Seq<u8>, now: u64) -> EngineModel {
        let sent = self.sessions.after_send(peer, now);
        if self.can_send(peer, now) && !SessionModel::fits(payload) {
            self.with_sessions(sent.invalidated(peer))
        } else {
            self.with_sessions(sent)
        }
    }

    /// Whether sending a message to a peer gives this output and leaves this
    /// state: a handshake packet if one is due, and then the message's frame if
    /// there is a session to send it under and an endpoint to send it to.
    pub open spec fn sends_message(
        self,
        peer: Peer,
        msg_type: MsgType,
        payload: Seq<u8>,
        now: u64,
        output: Result<EngineOutput, NoiseError>,
        after: EngineModel,
    ) -> bool {
        let encrypted = self.after_encrypt(peer.name@, payload, now);
        let to = after.endpoint_of(peer);
        let framed = self.can_send(peer.name@, now) && SessionModel::fits(payload) && to is Some;
        match output {
            Err(error) => encrypted.initiates(peer, now, Err(error), after),
            Ok(o) => {
                let frames: int = if framed {
                    1
                } else {
                    0
                };
                &&& o.events@.len() == 0
                &&& frames <= o.actions@.len() <= frames + 1
                &&& encrypted.initiates(
                    peer,
                    now,
                    Ok(
                        if o.actions@.len() > frames {
                            Some(o.actions@[0])
                        } else {
                            None
                        },
                    ),
                    after,
                )
                &&& framed ==> (o.actions@.last() matches EngineAction::SendTransport {
                    peer_name,
                    endpoint,
                    frame,
                } && peer_name@ == peer.name@ && Some(endpoint) == to
                    && self.sessions.sessions[peer.name@].seals(msg_type, payload, frame@))
            },
        }
    }
}

impl EngineModel {
    /// The first route whose peer has this name.
    pub open spec fn first_route_of(self, name: Seq<char>, i: int) -> bool {
        0 <= i < self.routes.len() && self.routes[i].peer.name@ == name && forall|j: int|
            #![trigger self.routes[j]]
            0 <= j < i ==> self.routes[j].peer.name@ != name
    }

    /// Whether route `i` takes a destination and none before it does.
    pub open spec fn first_route_to(self, destination: Ipv4Addr, i: int) -> bool {
        0 <= i < self.routes.len() && self.routes[i].takes(destination) && forall|j: int|
            #![trigger self.routes[j]]
            0 <= j < i ==> !self.routes[j].takes(destination)
    }

    /// Whether no peer has this name.
    pub open spec fn unknown(self, name: Seq<char>) -> bool {
        forall|j: int|
            #![trigger self.routes[j]]
            0 <= j < self.routes.len() ==> self.routes[j].peer.name@ != name
    }

    /// Whether an IP packet for the tunnel gives this output and leaves this
    /// state: the first route to its destination says which peer gets it, and
    /// without one it is dropped.
    pub open spec fn sends_packet(
        self,
        packet: Seq<u8>,
        now: u64,
        output: Result<EngineOutput, EngineError>,
        after: EngineModel,
    ) -> bool {
        match crate::packet::header_fault(packet) {
            Some(fault) => output matches Err(EngineError::Packet(error)) && error == fault && after
                == self,
            None => {
                let destination = Ipv4Addr { bits: crate::packet::address_at(packet, 16) as u32 };
                ||| output matches Ok(o) && o.is_empty() && after == self && forall|i: int|
                    !#[trigger] self.first_route_to(destination, i)
                ||| exists|i: int| #[trigger]
                    self.first_route_to(destination, i) && match output {
                        Ok(o) => self.sends_message(
                            *self.routes[i].peer,
                            MsgType::Data,
                            packet,
                            now,
                            Ok(o),
                            after,
                        ),
                        Err(EngineError::Noise(error)) => self.sends_message(
                            *self.routes[i].peer,
                            MsgType::Data,
                            packet,
                            now,
                            Err(error),
                            after,
                        ),
                        Err(_) => false,
                    }
            },
        }
    }

    /// Whether starting or retrying a handshake with a named peer gives this
    /// output and leaves this state. An unknown name is an error.
    pub open spec fn initiates_handshake(
        self,
        name: Seq<char>,
        now: u64,
        output: Result<EngineOutput, EngineError>,
        after: EngineModel,
    ) -> bool {
        match output {
            Err(EngineError::UnknownPeer(text)) => self.unknown(name) && text@ == name && after
                == self,
            Err(EngineError::Noise(error)) => exists|i: int| #[trigger]
                self.first_route_of(name, i) && self.initiates(
                    *self.routes[i].peer,
                    now,
                    Err(error),
                    after,
                ),
            Err(_) => false,
            Ok(o) => o.events@.len() == 0 && o.actions@.len() <= 1 && exists|i: int| #[trigger]
                self.first_route_of(name, i) && self.initiates(
                    *self.routes[i].peer,
                    now,
                    Ok(
                        if o.actions@.len() == 1 {
                            Some(o.actions@[0])
                        } else {
                            None
                        },
                    ),
                    after,
                ),
        }
    }

    /// Whether sending a keepalive to a named peer gives this output and leaves
    /// this state. An unknown name is an error.
    pub open spec fn creates_keepalive(
        self,
        name: Seq<char>,
        payload: Seq<u8>,
        now: u64,
        output: Result<EngineOutput, EngineError>,
        after: EngineModel,
    ) -> bool {
        match output {
            Err(EngineError::UnknownPeer(text)) => self.unknown(name) && text@ == name && after
                == self,
            Err(EngineError::Noise(error)) => exists|i: int| #[trigger]
                self.first_route_of(name, i) && self.sends_message(
                    *self.routes[i].peer,
                    MsgType::Keepalive,
                    payload,
                    now,
                    Err(error),
                    after,
                ),
            Err(_) => false,
            Ok(o) => exists|i: int| #[trigger]
                self.first_route_of(name, i) && self.sends_message(
                    *self.routes[i].peer,
                    MsgType::Keepalive,
                    payload,
                    now,
                    Ok(o),
                    after,
                ),
        }
    }

    /// Whether the peer of route `i`, which is the first with its name, is the
    /// one that a first message comes from.
    pub open spec fn accepts(self, i: int, handshake_id: Seq<u8>, message: Seq<u8>) -> bool {
        let peer = *self.routes[i].peer;
        &&& self.first_route_of(peer.name@, i)
        &&& noise::first_message(
            self.private_key,
            peer.public_key@,
            peer.psk@,
            handshake_id,
            message,
        ) is Accepted
    }

    /// Whether the peer of a route before `end` accepts a first message.
    pub open spec fn accepts_before(self, end: int, handshake_id: Seq<u8>, message: Seq<u8>) -> bool {
        exists|i: int| i < end && #[trigger] self.accepts(i, handshake_id, message)
    }

    /// Whether the peer of route `i` accepts a first message, and `reply` and
    /// `session` answer it.
    pub open spec fn answers(
        self,
        i: int,
        handshake_id: Seq<u8>,
        message: Seq<u8>,
        now: u64,
        reply: Seq<u8>,
        session: SessionModel,
    ) -> bool {
        &&& self.accepts(i, handshake_id, message)
        &&& noise::is_response(
            self.private_key,
            self.routes[i].peer.psk@,
            handshake_id,
            message,
            reply,
            session,
            now,
        )
    }

    /// Whether an initiation of the peer of route `i`, which could be answered
    /// by `reply` and `session`, gives this output and leaves this state. It is
    /// ignored where our own initiation takes precedence; the cached answer is
    /// repeated where the very same request was answered before; and otherwise
    /// the reply is sent and its session kept as a candidate.
    pub open spec fn takes_initiation(
        self,
        i: int,
        handshake_id: Seq<u8>,
        message: Seq<u8>,
        source: SocketAddr,
        now: u64,
        reply: Seq<u8>,
        session: SessionModel,
        output: EngineOutput,
        after: EngineModel,
    ) -> bool {
        let peer = *self.routes[i].peer;
        let passive = !peer.endpoint.usable();
        let decided = self.sessions.after_initiation(peer.name@, handshake_id, passive, now);
        let frame = auth::handshake_wire(PacketKind::HandshakeResponse, handshake_id, reply);
        let cached = CachedModel { handshake_id, request: message, response: frame, created_at: now };
        let cleaned = decided.without_stale_cache(peer.name@, now);
        &&& output.events@.len() == 0
        &&& if !self.sessions.accepts_initiation(peer.name@, handshake_id, passive, now) {
            output.actions@.len() == 0 && after == self.with_sessions(decided)
        } else {
            match decided.cached_response(peer.name@, handshake_id, message, now) {
                Some(response) => output.actions@.len() == 1 && output.actions@[0].sends(
                    peer.name@,
                    source,
                    response,
                ) && after == self.with_sessions(cleaned),
                None => after == self.with_sessions(
                    cleaned.after_store(peer.name@, session, cached),
                ) && if cleaned.in_use(session.session_id) {
                    output.actions@.len() == 0
                } else {
                    output.actions@.len() == 1 && output.actions@[0].sends(
                        peer.name@,
                        source,
                        frame,
                    )
                },
            }
        }
    }

    /// Whether a received initiation gives this output and leaves this state.
    /// Nothing is done where no peer accepts the message. Otherwise the answer
    /// of the first peer that does says what happens. A peer that accepts it
    /// may go unanswered where the Noise library fails to write an answer,
    /// which the new state tells: it is then the next one's turn.
    pub open spec fn decides_initiation(
        self,
        handshake_id: Seq<u8>,
        message: Seq<u8>,
        source: SocketAddr,
        now: u64,
        output: EngineOutput,
        after: EngineModel,
    ) -> bool {
        let noted = self.with_unanswered(after.unanswered);
        ||| {
            &&& output.is_empty() && after == noted
            &&& after.unanswered == self.accepts_before(
                self.routes.len() as int,
                handshake_id,
                message,
            )
        }
        ||| exists|i: int, reply: Seq<u8>, session: SessionModel| #[trigger]
            noted.answers(i, handshake_id, message, now, reply, session) && after.unanswered
                == self.accepts_before(i, handshake_id, message) && noted.takes_initiation(
                i,
                handshake_id,
                message,
                source,
                now,
                reply,
                session,
                output,
                after,
            )
    }

    /// Whether a received initiation gives this output and leaves this state.
    pub open spec fn receives_initiation(
        self,
        handshake_id: Seq<u8>,
        message: Seq<u8>,
        source: SocketAddr,
        now: u64,
        output: Result<EngineOutput, EngineError>,
        after: EngineModel,
    ) -> bool {
        output matches Ok(o) && self.decides_initiation(
            handshake_id,
            message,
            source,
            now,
            o,
            after,
        )
    }

    /// Whether a received response gives this output and leaves this state.
    /// A completed handshake is confirmed at once, and the peer counts as seen
    /// where the response came from.
    pub open spec fn receives_response(
        self,
        handshake_id: Seq<u8>,
        message: Seq<u8>,
        source: SocketAddr,
        now: u64,
        output: Result<EngineOutput, EngineError>,
        after: EngineModel,
    ) -> bool {
        match output {
            Err(EngineError::Noise(error)) => after == self.with_sessions(after.sessions)
                && self.sessions.reports_completion(
                handshake_id,
                message,
                now,
                Err(error),
                after.sessions,
            ),
            Err(_) => false,
            Ok(o) => if o.actions@.len() == 0 {
                o.is_empty() && after == self.with_sessions(after.sessions)
                    && self.sessions.reports_completion(
                    handshake_id,
                    message,
                    now,
                    Ok(None),
                    after.sessions,
                )
            } else {
                o.actions@.len() == 1 && o.events@.len() == 1 && match o.actions@[0] {
                    EngineAction::SendTransport { peer_name, endpoint, frame } => {
                        &&& endpoint == source
                        &&& o.events@[0].completes(peer_name@, source, HandshakeRole::Initiator)
                        &&& self.sessions.reports_completion(
                            handshake_id,
                            message,
                            now,
                            Ok(Some((peer_name, frame))),
                            after.sessions,
                        )
                        &&& after == self.with_sessions(after.sessions).with_peers(
                            crate::state::after_keepalive(self.peers, peer_name@, source, now),
                        )
                    },
                    _ => false,
                }
            },
        }
    }

    /// Whether a received transport packet gives this output and leaves this
    /// state. An unknown session is ignored. A keepalive probe is acknowledged
    /// under the active session; data is delivered if it is an IPv4 packet.
    pub open spec fn receives_transport(
        self,
        session_id: Seq<u8>,
        counter: u64,
        ciphertext: Seq<u8>,
        source: SocketAddr,
        now: u64,
        output: Result<EngineOutput, EngineError>,
        after: EngineModel,
    ) -> bool {
        let received = self.sessions.after_reception(session_id, counter, ciphertext, now);
        match self.sessions.reception(session_id, counter, ciphertext, now) {
            None => output matches Ok(o) && o.is_empty() && after == self.with_sessions(received),
            Some((slot, peer, Decryption::Message(msg_type, payload))) => {
                let promoted = slot == Slot::Candidate;
                match msg_type {
                    MsgType::Keepalive => {
                        let seen = crate::state::after_keepalive(self.peers, peer, source, now);
                        let probed = payload == auth::KEEPALIVE_PROBE_PAYLOAD@;
                        let can_reply = crate::sessions::without_expired(
                            received.sessions,
                            peer,
                            now,
                        ).contains_key(peer);
                        &&& output matches Ok(o) && reports_promotion(o, promoted, peer, source)
                            && if probed && can_reply {
                            o.actions@.len() == 1 && acknowledges(
                                o.actions@[0],
                                received.sessions[peer],
                                peer,
                                source,
                            )
                        } else {
                            o.actions@.len() == 0
                        }
                        &&& after == self.with_peers(seen).with_sessions(
                            if probed {
                                received.after_send(peer, now)
                            } else {
                                received
                            },
                        )
                    },
                    MsgType::Data => {
                        let seen = crate::state::after_rx(
                            self.peers,
                            peer,
                            source,
                            payload.len() as usize,
                            now,
                        );
                        &&& after == self.with_peers(seen).with_sessions(received)
                        &&& match crate::packet::header_fault(payload) {
                            Some(fault) => output matches Err(EngineError::Packet(error)) && error
                                == fault,
                            None => output matches Ok(o) && reports_promotion(
                                o,
                                promoted,
                                peer,
                                source,
                            ) && o.actions@.len() == 1 && o.actions@[0].writes(
                                peer,
                                source,
                                payload,
                            ),
                        }
                    },
                }
            },
            Some(other) => after == self.with_sessions(received) && (output matches Err(
                EngineError::Noise(error),
            ) && crate::sessions::reports_reception(Err(error), Some(other))),
        }
    }

    /// Whether a received datagram gives this output and leaves this state.
    /// What is not a packet is ignored.
    pub open spec fn receives(
        self,
        frame: Seq<u8>,
        source: SocketAddr,
        now: u64,
        output: Result<EngineOutput, EngineError>,
        after: EngineModel,
    ) -> bool {
        match auth::packet_meaning(frame) {
            None => output matches Ok(o) && o.is_empty() && after == self,
            Some(PacketModel::Handshake { kind, handshake_id, message }) => if kind
                == PacketKind::HandshakeInit {
                self.receives_initiation(handshake_id, message, source, now, output, after)
            } else {
                self.receives_response(handshake_id, message, source, now, output, after)
            },
            Some(PacketModel::Transport { session_id, counter, ciphertext }) =>
                self.receives_transport(
                session_id,
                counter,
                ciphertext,
                source,
                now,
                output,
                after,
            ),
        }
    }
}

/// Whether an output reports a responder's completed handshake exactly if a
/// candidate was promoted.
pub open spec fn reports_promotion(
    output: EngineOutput,
    promoted: bool,
    peer: Seq<char>,
    source: SocketAddr,
) -> bool {
    if promoted {
        output.events@.len() == 1 && output.events@[0].completes(
            peer,
            source,
            HandshakeRole::Responder,
        )
    } else {
        output.events@.len() == 0
    }
}

/// Whether an action acknowledges a keepalive probe under a session.
pub open spec fn acknowledges(
    action: EngineAction,
    session: SessionModel,
    peer: Seq<char>,
    source: SocketAddr,
) -> bool {
    action matches EngineAction::SendTransport { peer_name, endpoint, frame } && peer_name@ == peer
        && endpoint == source && session.seals(
        MsgType::Keepalive,
        auth::KEEPALIVE_ACK_PAYLOAD@,
        frame@,
    )
}

/// Platform-independent HushWire packet engine.
///
/// The caller owns packet I/O and lifecycle. `Engine` owns only immutable
/// routing metadata, cryptographic sessions, roaming endpoint state, and peer
/// counters.
pub struct Engine {
    router: Router,
    local_static: [u8; 32],
    sessions: SessionManager,
    peers: PeerState,
    unanswered: Option<AnswerFailure>,
}

impl View for Engine {
    type V = EngineModel;

    closed spec fn view(&self) -> EngineModel {
        EngineModel {
            routes: self.router.route_list(),
            exclusions: self.router.exclusion_list(),
            private_key: self.local_static@,
            sessions: self.sessions@,
            peers: self.peers@,
            unanswered: self.unanswered is Some,
        }
    }
}

impl Engine {
    /// No two sessions have one identifier.
    pub open spec fn wf(&self) -> bool {
        self@.sessions.ids_distinct()
    }

    /// Where a peer is reached.
    fn resolve_endpoint(&self, peer: &Peer) -> (endpoint: Option<SocketAddr>)
        ensures
            endpoint == self@.endpoint_of(*peer),
    {
        if let Some(stats) = self.peers.stats(peer.name.as_str()) {
            if let Some(endpoint) = stats.current_endpoint {
                if endpoint.is_usable() {
                    return Some(endpoint);
                }
            }
        }
        if peer.endpoint.is_usable() {
            Some(peer.endpoint)
        } else {
            None
        }
    }

    fn initiate_peer(&mut self, peer: &Peer, now: u64) -> (action: Result<
        Option<EngineAction>,
        NoiseError,
    >)
        requires
            old(self).wf(),
        ensures
            final(self).wf(),
            old(self)@.initiates(*peer, now, action, final(self)@),
    {
        let endpoint = match self.resolve_endpoint(peer) {
            Some(endpoint) => endpoint,
            None => {
                return Ok(None);
            },
        };
        match self.sessions.start_or_retry_handshake(
            peer.name.as_str(),
            &self.local_static,
            &peer.public_key,
            &peer.psk,
            now,
        ) {
            Ok(Some(frame)) => Ok(
                Some(EngineAction::SendTransport { peer_name: peer.name.clone(), endpoint, frame }),
            ),
            Ok(None) => Ok(None),
            Err(error) => Err(error),
        }
    }

    /// Encrypts a message for a peer and starts, retries or renews its
    /// handshake as is due.
    fn send_message(&mut self, peer: &Peer, msg_type: MsgType, payload: &[u8], now: u64) -> (output:
        Result<EngineOutput, NoiseError>)
        requires
            old(self).wf(),
        ensures
            final(self).wf(),
            old(self)@.sends_message(*peer, msg_type, payload@, now, output, final(self)@),
    {
        let ghost before = self@;
        let mut output = EngineOutput::default();
        match self.sessions.encrypt_for_peer(peer.name.as_str(), msg_type, payload, now) {
            Ok(Some(frame)) => {
                assert(self@ == before.after_encrypt(peer.name@, payload@, now));
                // A young session produces no handshake. Once its soft rekey
                // threshold is reached, the replacement handshake and data
                // frame are emitted together.
                match self.initiate_peer(peer, now) {
                    Ok(Some(action)) => {
                        output.actions.push(action);
                    },
                    Ok(None) => {},
                    Err(error) => {
                        return Err(error);
                    },
                }
                if let Some(endpoint) = self.resolve_endpoint(peer) {
                    output.actions.push(
                        EngineAction::SendTransport {
                            peer_name: peer.name.clone(),
                            endpoint,
                            frame,
                        },
                    );
                }
            },
            Ok(None) => {
                assert(self@ == before.after_encrypt(peer.name@, payload@, now));
                match self.initiate_peer(peer, now) {
                    Ok(Some(action)) => {
                        output.actions.push(action);
                    },
                    Ok(None) => {},
                    Err(error) => {
                        return Err(error);
                    },
                }
            },
            Err(_) => {
                self.sessions.invalidate_peer(peer.name.as_str());
                assert(self@ == before.after_encrypt(peer.name@, payload@, now));
                match self.initiate_peer(peer, now) {
                    Ok(Some(action)) => {
                        output.actions.push(action);
                    },
                    Ok(None) => {},
                    Err(error) => {
                        return Err(error);
                    },
                }
            },
        }
        Ok(output)
    }

    /// The engine of a configuration whose peers' keys decode, given what its
    /// endpoints resolved to.
    pub fn new(config: &Config, resolutions: &Vec<Resolution>) -> (engine: Result<
        Engine,
        EngineError,
    >)
        requires
            resolutions@.len() == config.peer@.len(),
            config.keys_complete(config.decoded_keys()),
        ensures
            match crate::router::router_fault(config.peer@, resolutions@, 0) {
                Some(fault) => engine matches Err(EngineError::Router(error)) && error@ == fault,
                None => match config.decoded_keys().private_key {
                    None => engine matches Err(EngineError::InvalidPrivateKey),
                    Some(private_key) => engine matches Ok(e) && e.is_fresh(
                        *config,
                        resolutions@,
                        private_key,
                    ),
                },
            },
    {
        match Router::new(config, resolutions) {
            Ok(router) => Engine::with_router(config, router),
            Err(error) => Err(EngineError::Router(error)),
        }
    }

    /// The engine of a configuration, or nothing where one of the peers' keys
    /// does not decode.
    pub fn for_config(config: &Config, resolutions: &Vec<Resolution>) -> (engine: Option<
        Result<Engine, EngineError>,
    >)
        requires
            resolutions@.len() == config.peer@.len(),
        ensures
            engine is Some == config.keys_complete(config.decoded_keys()),
            engine is Some ==> match crate::router::router_fault(config.peer@, resolutions@, 0) {
                Some(fault) => engine matches Some(Err(EngineError::Router(error))) && error@
                    == fault,
                None => match config.decoded_keys().private_key {
                    None => engine matches Some(Err(EngineError::InvalidPrivateKey)),
                    Some(private_key) => engine matches Some(Ok(e)) && e.is_fresh(
                        *config,
                        resolutions@,
                        private_key,
                    ),
                },
            },
    {
        match Router::for_config(config, resolutions) {
            None => None,
            Some(Err(error)) => Some(Err(EngineError::Router(error))),
            Some(Ok(router)) => Some(Engine::with_router(config, router)),
        }
    }

    /// Whether the engine routes for a configuration and has no session and no
    /// statistics yet.
    pub open spec fn is_fresh(
        &self,
        config: Config,
        resolutions: Seq<Resolution>,
        private_key: Seq<u8>,
    ) -> bool {
        let n = config.peer@.len() as int;
        &&& self.wf()
        &&& crate::router::carries(
            config,
            config.decoded_keys(),
            resolutions,
            self@.routes,
            crate::router::longest_first(crate::router::allowed(config.peer@, n), 255),
        )
        &&& crate::router::excludes(
            config,
            config.decoded_keys(),
            resolutions,
            self@.exclusions,
            crate::router::longest_first(crate::router::excluded(config.peer@, n), 255),
        )
        &&& self@.private_key == private_key
        &&& self@.sessions == SessionsModel::empty()
        &&& self@.peers == Map::<Seq<char>, PeerStats>::empty()
    }

    /// The engine of a configuration whose router is already built.
    pub fn with_router(config: &Config, router: Router) -> (engine: Result<Engine, EngineError>)
        ensures
            match config.decoded_keys().private_key {
                None => engine matches Err(EngineError::InvalidPrivateKey),
                Some(private_key) => engine matches Ok(e) && e.wf() && e@ == (EngineModel {
                    routes: router.route_list(),
                    exclusions: router.exclusion_list(),
                    private_key,
                    sessions: SessionsModel::empty(),
                    peers: Map::empty(),
                    unanswered: false,
                }),
            },
    {
        match config::decode_key(config.interface.private_key.as_str()) {
            None => Err(EngineError::InvalidPrivateKey),
            Some(local_static) => Ok(
                Engine {
                    router,
                    local_static,
                    sessions: SessionManager::new(),
                    peers: PeerState::new(),
                    unanswered: None,
                },
            ),
        }
    }

    /// The routing table that the engine was built with.
    pub fn router(&self) -> (router: &Router)
        ensures
            router.route_list() == self@.routes,
            router.exclusion_list() == self@.exclusions,
    {
        &self.router
    }

    /// Process one IP packet read from a TUN device or NEPacketTunnelFlow.
    pub fn process_outbound_ip(&mut self, packet: &[u8], now: u64) -> (output: Result<
        EngineOutput,
        EngineError,
    >)
        requires
            old(self).wf(),
        ensures
            final(self).wf(),
            old(self)@.sends_packet(packet@, now, output, final(self)@),
    {
        let ipv4 = match Ipv4Packet::parse(packet) {
            Ok(ipv4) => ipv4,
            Err(error) => {
                return Err(EngineError::Packet(error));
            },
        };
        let destination = ipv4.destination();
        let ghost target = Ipv4Addr { bits: crate::packet::address_at(packet@, 16) as u32 };
        assert(destination == target);
        let ghost before = self@;
        let peer = match self.router.lookup(destination) {
            Some(route) => {
                proof {
                    let i = choose|i: int|
                        #![trigger before.routes[i]]
                        0 <= i < before.routes.len() && before.routes[i] == *route && forall|j: int|
                            #![trigger before.routes[j]]
                            0 <= j < i ==> !before.routes[j].takes(destination);
                    assert(before.first_route_to(target, i));
                }
                crate::router::share(&route.peer)
            },
            None => {
                return Ok(EngineOutput::default());
            },
        };
        match self.send_message(&peer, MsgType::Data, packet, now) {
            Ok(output) => Ok(output),
            Err(error) => Err(EngineError::Noise(error)),
        }
    }

    /// Process one framed packet received from the configured transport.
    pub fn process_inbound_transport(
        &mut self,
        frame: &[u8],
        source: SocketAddr,
        now: u64,
    ) -> (output: Result<EngineOutput, EngineError>)
        requires
            old(self).wf(),
        ensures
            final(self).wf(),
            old(self)@.receives(frame@, source, now, output, final(self)@),
    {
        match auth::decode_packet(frame) {
            None => Ok(EngineOutput::default()),
            Some(ParsedPacket::Handshake { kind, handshake_id, message }) => match kind {
                PacketKind::HandshakeInit => Ok(
                    self.process_initiation(handshake_id, message, source, now),
                ),
                _ => self.process_response(handshake_id, message, source, now),
            },
            Some(ParsedPacket::Transport { session_id, counter, ciphertext }) =>
                self.process_transport(session_id, counter, ciphertext, source, now),
        }
    }

    /// Answers a handshake initiation, and takes note of whether a peer accepted
    /// the message and could not be answered.
    fn process_initiation(
        &mut self,
        handshake_id: [u8; SESSION_ID_SIZE],
        message: &[u8],
        source: SocketAddr,
        now: u64,
    ) -> (output: EngineOutput)
        requires
            old(self).wf(),
        ensures
            final(self).wf(),
            old(self)@.decides_initiation(
                handshake_id@,
                message@,
                source,
                now,
                output,
                final(self)@,
            ),
    {
        let ghost before = self@;
        let (found, failure) = self.decode_handshake_init(handshake_id, message, now);
        self.unanswered = failure;
        assert(self@ == before.with_unanswered(self@.unanswered));
        match found {
            Some((route, handshake)) => {
                assert(self@.answers(
                    route as int,
                    handshake_id@,
                    message@,
                    now,
                    handshake.message@,
                    handshake.session@,
                ));
                self.answer_initiation(route, handshake, handshake_id, message, source, now)
            },
            None => EngineOutput::default(),
        }
    }

    /// Takes an initiation of the peer of a route, which `handshake` answers:
    /// decides whether to answer it at all, repeats the answer to a request
    /// that was answered before, and otherwise keeps the new session as a
    /// candidate and sends the answer.
    pub fn answer_initiation(
        &mut self,
        route: usize,
        handshake: noise::ResponderHandshake,
        handshake_id: [u8; SESSION_ID_SIZE],
        message: &[u8],
        source: SocketAddr,
        now: u64,
    ) -> (output: EngineOutput)
        requires
            old(self).wf(),
            route < old(self)@.routes.len(),
        ensures
            final(self).wf(),
            old(self)@.takes_initiation(
                route as int,
                handshake_id@,
                message@,
                source,
                now,
                handshake.message@,
                handshake.session@,
                output,
                final(self)@,
            ),
    {
        let mut output = EngineOutput::default();
        let peer = crate::router::share(&self.router.routes()[route].peer);
        let passive = !peer.endpoint.is_usable();
        if !self.sessions.accept_inbound_initiation(
            peer.name.as_str(),
            &handshake_id,
            passive,
            now,
        ) {
            return output;
        }
        if let Some(response) = self.sessions.cached_responder_response(
            peer.name.as_str(),
            &handshake_id,
            message,
            now,
        ) {
            output.actions.push(
                EngineAction::SendTransport {
                    peer_name: peer.name.clone(),
                    endpoint: source,
                    frame: response,
                },
            );
            return output;
        }
        let response = auth::encode_handshake(
            PacketKind::HandshakeResponse,
            &handshake_id,
            handshake.message.as_slice(),
        );
        let frame = vstd::slice::slice_to_vec(response.as_slice());
        if self.sessions.store_responder_candidate(
            peer.name.as_str(),
            handshake.session,
            handshake_id,
            vstd::slice::slice_to_vec(message),
            response,
            now,
        ) {
            output.actions.push(
                EngineAction::SendTransport {
                    peer_name: peer.name.clone(),
                    endpoint: source,
                    frame,
                },
            );
        }
        output
    }

    /// Completes a handshake of our own.
    fn process_response(
        &mut self,
        handshake_id: [u8; SESSION_ID_SIZE],
        message: &[u8],
        source: SocketAddr,
        now: u64,
    ) -> (output: Result<EngineOutput, EngineError>)
        requires
            old(self).wf(),
        ensures
            final(self).wf(),
            old(self)@.receives_response(
                handshake_id@,
                message@,
                source,
                now,
                output,
                final(self)@,
            ),
    {
        let mut output = EngineOutput::default();
        match self.sessions.finalize_initiator(&handshake_id, message, now) {
            Err(error) => {
                return Err(EngineError::Noise(error));
            },
            Ok(None) => {},
            Ok(Some((peer_name, confirmation))) => {
                self.peers.record_keepalive(peer_name.as_str(), source, now);
                output.events.push(
                    EngineEvent::HandshakeCompleted {
                        peer_name: peer_name.clone(),
                        endpoint: source,
                        role: HandshakeRole::Initiator,
                    },
                );
                output.actions.push(
                    EngineAction::SendTransport { peer_name, endpoint: source, frame: confirmation },
                );
            },
        }
        Ok(output)
    }

    /// Decrypts a transport packet and acts on its message.
    fn process_transport(
        &mut self,
        session_id: [u8; SESSION_ID_SIZE],
        counter: u64,
        ciphertext: &[u8],
        source: SocketAddr,
        now: u64,
    ) -> (output: Result<EngineOutput, EngineError>)
        requires
            old(self).wf(),
        ensures
            final(self).wf(),
            old(self)@.receives_transport(
                session_id@,
                counter,
                ciphertext@,
                source,
                now,
                output,
                final(self)@,
            ),
    {
        let mut output = EngineOutput::default();
        let decrypted = match self.sessions.decrypt_transport(
            &session_id,
            counter,
            ciphertext,
            now,
        ) {
            Err(error) => {
                return Err(EngineError::Noise(error));
            },
            Ok(None) => {
                return Ok(output);
            },
            Ok(Some(decrypted)) => decrypted,
        };
        let peer_name = decrypted.peer_name;
        if decrypted.promoted_responder_session {
            output.events.push(
                EngineEvent::HandshakeCompleted {
                    peer_name: peer_name.clone(),
                    endpoint: source,
                    role: HandshakeRole::Responder,
                },
            );
        }
        match decrypted.msg_type {
            MsgType::Keepalive => {
                self.peers.record_keepalive(peer_name.as_str(), source, now);
                let probe: [u8; 1] = auth::KEEPALIVE_PROBE_PAYLOAD;
                if same_bytes(decrypted.payload.as_slice(), probe.as_slice()) {
                    let acknowledgement: [u8; 1] = auth::KEEPALIVE_ACK_PAYLOAD;
                    match self.sessions.encrypt_for_peer(
                        peer_name.as_str(),
                        MsgType::Keepalive,
                        acknowledgement.as_slice(),
                        now,
                    ) {
                        Err(error) => {
                            return Err(EngineError::Noise(error));
                        },
                        Ok(None) => {},
                        Ok(Some(frame)) => {
                            output.actions.push(
                                EngineAction::SendTransport { peer_name, endpoint: source, frame },
                            );
                        },
                    }
                }
            },
            MsgType::Data => {
                self.peers.record_rx(
                    peer_name.as_str(),
                    source,
                    decrypted.payload.len(),
                    now,
                );
                if let Err(error) = Ipv4Packet::parse(decrypted.payload.as_slice()) {
                    return Err(EngineError::Packet(error));
                }
                output.actions.push(
                    EngineAction::WriteIpPacket { peer_name, source, packet: decrypted.payload },
                );
            },
        }
        Ok(output)
    }

    /// Tries every peer once, in the order of the routes, until one accepts
    /// the message and can be answered. The failure tells that a peer
    /// accepted it before and could not be answered.
    fn decode_handshake_init(
        &self,
        handshake_id: [u8; SESSION_ID_SIZE],
        message: &[u8],
        now: u64,
    ) -> (found: (Option<(usize, noise::ResponderHandshake)>, Option<AnswerFailure>))
        ensures
            found.0 matches Some((i, handshake)) ==> self@.answers(
                i as int,
                handshake_id@,
                message@,
                now,
                handshake.message@,
                handshake.session@,
            ),
            found.1 is Some == self@.accepts_before(
                match found.0 {
                    Some((i, _)) => i as int,
                    None => self@.routes.len() as int,
                },
                handshake_id@,
                message@,
            ),
    {
        let routes = self.router.routes();
        let mut unanswered: Option<AnswerFailure> = None;
        let mut i: usize = 0;
        while i < routes.len()
            invariant
                i <= routes.len(),
                routes@ == self@.routes,
                unanswered is Some == self@.accepts_before(i as int, handshake_id@, message@),
            decreases routes.len() - i,
        {
            let ghost earlier = self@.accepts_before(i as int, handshake_id@, message@);
            let peer = &routes[i].peer;
            if self.route_of(peer.name.as_str()) == Some(i) {
                match noise::respond(
                    &self.local_static,
                    &peer.public_key,
                    &peer.psk,
                    handshake_id,
                    message,
                    now,
                ) {
                    Response::Answered(handshake) => {
                        return (Some((i, handshake)), unanswered);
                    },
                    Response::Unanswered(failure) => {
                        assert(self@.accepts(i as int, handshake_id@, message@));
                        unanswered = Some(failure);
                    },
                    Response::Refused(_) => {},
                }
            }
            proof {
                let accepted = self@.accepts(i as int, handshake_id@, message@);
                assert(self@.accepts_before(i + 1, handshake_id@, message@) == (earlier
                    || accepted));
            }
            i = i + 1;
        }
        (None, unanswered)
    }

    /// The first route whose peer has this name.
    fn route_of(&self, peer_name: &str) -> (route: Option<usize>)
        ensures
            match route {
                Some(i) => self@.first_route_of(peer_name@, i as int),
                None => self@.unknown(peer_name@),
            },
    {
        let routes = self.router.routes();
        let mut i: usize = 0;
        while i < routes.len()
            invariant
                i <= routes.len(),
                routes@ == self@.routes,
                forall|j: int|
                    #![trigger self@.routes[j]]
                    0 <= j < i ==> self@.routes[j].peer.name@ != peer_name@,
            decreases routes.len() - i,
        {
            if same_text(routes[i].peer.name.as_str(), peer_name) {
                return Some(i);
            }
            i = i + 1;
        }
        None
    }

    /// Record a transport action only after the adapter successfully sent it.
    pub fn record_transport_sent(&mut self, peer_name: &str, bytes: usize)
        requires
            old(self).wf(),
        ensures
            final(self).wf(),
            final(self)@ == old(self)@.with_peers(
                crate::state::after_tx(old(self)@.peers, peer_name@, bytes),
            ),
    {
        self.peers.record_tx(peer_name, bytes);
    }

    pub fn peer_stats(&self) -> (stats: NameMap<PeerStats>)
        ensures
            stats@ == self@.peers,
    {
        self.peers.snapshot()
    }

    /// Whether a peer accepted the last handshake initiation and could not be
    /// answered, because the Noise library failed to write the answer.
    pub fn left_unanswered(&self) -> (unanswered: bool)
        ensures
            unanswered == self@.unanswered,
    {
        self.unanswered.is_some()
    }

    pub fn active_session_id(&self, peer_name: &str) -> (id: Option<[u8; SESSION_ID_SIZE]>)
        ensures
            match id {
                Some(i) => self@.sessions.sessions.contains_key(peer_name@)
                    && self@.sessions.sessions[peer_name@].session_id == i@,
                None => !self@.sessions.sessions.contains_key(peer_name@),
            },
    {
        self.sessions.active_session_id(peer_name)
    }

    pub fn has_pending_handshake(&self, peer_name: &str) -> (r: bool)
        ensures
            r == self@.sessions.pending.contains_key(peer_name@),
    {
        self.sessions.has_pending_init(peer_name)
    }

    pub fn has_active_session(&self, peer_name: &str, now: u64) -> (r: bool)
        ensures
            r == self@.sessions.has_live_session(peer_name@, now),
    {
        self.sessions.has_active_session(peer_name, now)
    }

    pub fn invalidate_peer(&mut self, peer_name: &str) -> (had_state: bool)
        requires
            old(self).wf(),
        ensures
            final(self).wf(),
            final(self)@ == old(self)@.with_sessions(old(self)@.sessions.invalidated(peer_name@)),
            had_state == (old(self)@.sessions.sessions.contains_key(peer_name@)
                || old(self)@.sessions.previous.contains_key(peer_name@)
                || old(self)@.sessions.candidates.contains_key(peer_name@)
                || old(self)@.sessions.pending.contains_key(peer_name@)),
    {
        self.sessions.invalidate_peer(peer_name)
    }

    /// Start or retry a handshake for a named peer.
    pub fn initiate_handshake(&mut self, peer_name: &str, now: u64) -> (output: Result<
        EngineOutput,
        EngineError,
    >)
        requires
            old(self).wf(),
        ensures
            final(self).wf(),
            old(self)@.initiates_handshake(peer_name@, now, output, final(self)@),
    {
        let route: usize = match self.route_of(peer_name) {
            Some(route) => route,
            None => {
                return Err(EngineError::UnknownPeer(peer_name.to_owned()));
            },
        };
        let peer = crate::router::share(&self.router.routes()[route].peer);
        let mut output = EngineOutput::default();
        match self.initiate_peer(&peer, now) {
            Ok(Some(action)) => {
                output.actions.push(action);
            },
            Ok(None) => {},
            Err(error) => {
                return Err(EngineError::Noise(error));
            },
        }
        Ok(output)
    }

    /// Encrypt a keepalive or initiate a session when none is active.
    pub fn create_keepalive(&mut self, peer_name: &str, payload: &[u8], now: u64) -> (output:
        Result<EngineOutput, EngineError>)
        requires
            old(self).wf(),
        ensures
            final(self).wf(),
            old(self)@.creates_keepalive(peer_name@, payload@, now, output, final(self)@),
    {
        let route: usize = match self.route_of(peer_name) {
            Some(route) => route,
            None => {
                return Err(EngineError::UnknownPeer(peer_name.to_owned()));
            },
        };
        let peer = crate::router::share(&self.router.routes()[route].peer);
        match self.send_message(&peer, MsgType::Keepalive, payload, now) {
            Ok(output) => Ok(output),
            Err(error) => Err(EngineError::Noise(error)),
        }
    }
}

// ---------------------------------------------------------------------------
// Laws.
// ---------------------------------------------------------------------------

/// An IPv4 packet that one engine encrypts comes out of the other engine as
/// the same packet, as long as that holds the session's other end and has not
/// recorded the counter or moved past it.
pub proof fn encrypted_packet_is_delivered(
    sender: SessionModel,
    receiver: EngineModel,
    slot: Slot,
    peer: Seq<char>,
    packet: Seq<u8>,
    frame: Seq<u8>,
    source: SocketAddr,
    now: u64,
    output: Result<EngineOutput, EngineError>,
    after: EngineModel,
)
    requires
        sender.session_id.len() == SESSION_ID_SIZE,
        sender.seals(MsgType::Data, packet, frame),
        receiver.sessions.ids_distinct(),
        receiver.sessions.holds(slot, peer, sender.session_id),
        receiver.sessions.at(slot)[peer].receiving_key == sender.sending_key,
        receiver.sessions.at(slot)[peer].replay.accepts(sender.send_counter),
        !receiver.sessions.at(slot)[peer].is_expired(now),
        crate::packet::header_fault(packet) is None,
        receiver.receives(frame, source, now, output, after),
    ensures
        output matches Ok(o) && o.actions@.len() == 1 && o.actions@[0].writes(
            peer,
            source,
            packet,
        ),
{
    let session = receiver.sessions.at(slot)[peer];
    noise::decrypt_gives_back_what_encrypt_was_given(
        sender,
        session,
        MsgType::Data,
        packet,
        frame,
    );
    auth::transport_packets_round_trip(
        frame,
        sender.session_id,
        sender.send_counter,
        noise::sealed(
            sender.sending_key,
            sender.send_counter,
            auth::transport_plaintext(MsgType::Data, packet),
        ),
    );
    crate::sessions::live_session_is_found(
        receiver.sessions,
        slot,
        peer,
        sender.session_id,
        now,
    );
}

/// A frame that has been delivered once is reported as a replay when it comes
/// again, and delivers nothing.
pub proof fn delivered_frame_is_not_delivered_again(
    receiver: EngineModel,
    slot: Slot,
    peer: Seq<char>,
    session_id: Seq<u8>,
    counter: u64,
    ciphertext: Seq<u8>,
    source: SocketAddr,
    now: u64,
    output: Result<EngineOutput, EngineError>,
    after: EngineModel,
)
    requires
        receiver.sessions.ids_distinct(),
        receiver.sessions.holds(slot, peer, session_id),
        !receiver.sessions.at(slot)[peer].is_expired(now),
        !receiver.sessions.at(slot)[peer].replay.accepts(counter),
        receiver.receives_transport(session_id, counter, ciphertext, source, now, output, after),
    ensures
        output matches Err(EngineError::Noise(NoiseError::Replay)),
{
    crate::sessions::live_session_is_found(receiver.sessions, slot, peer, session_id, now);
}

/// Processing an IP packet for the tunnel never delivers a packet: all it asks
/// for is frames to send, and it reports no handshake.
pub proof fn outbound_packets_are_only_sent(
    sender: EngineModel,
    packet: Seq<u8>,
    now: u64,
    output: EngineOutput,
    after: EngineModel,
    i: int,
)
    requires
        sender.sends_packet(packet, now, Ok(output), after),
        0 <= i < output.actions@.len(),
    ensures
        output.actions@[i] is SendTransport,
        output.events@.len() == 0,
{
}

/// Every packet that the engine delivers has an IPv4 header that fits it.
pub proof fn delivered_packets_are_ipv4(
    receiver: EngineModel,
    frame: Seq<u8>,
    source: SocketAddr,
    now: u64,
    output: EngineOutput,
    after: EngineModel,
    i: int,
)
    requires
        receiver.receives(frame, source, now, Ok(output), after),
        0 <= i < output.actions@.len(),
    ensures
        output.actions@[i] matches EngineAction::WriteIpPacket { packet, .. }
            ==> crate::packet::header_fault(packet@) is None,
{
}

/// A peer is reached where its last authentic packet came from, if that is a
/// usable endpoint.
pub proof fn authentic_source_is_learned(
    receiver: EngineModel,
    peer: Peer,
    slot: Slot,
    msg_type: MsgType,
    payload: Seq<u8>,
    session_id: Seq<u8>,
    counter: u64,
    ciphertext: Seq<u8>,
    source: SocketAddr,
    now: u64,
    output: Result<EngineOutput, EngineError>,
    after: EngineModel,
)
    requires
        receiver.sessions.reception(session_id, counter, ciphertext, now) == Some(
            (slot, peer.name@, Decryption::Message(msg_type, payload)),
        ),
        source.usable(),
        receiver.receives_transport(session_id, counter, ciphertext, source, now, output, after),
    ensures
        after.endpoint_of(peer) == Some(source),
{
}

/// A transport packet that carries no authentic message, and a handshake
/// initiation in any case, leave the endpoints and the counters of all peers as
/// they are.
pub proof fn unauthenticated_packets_move_no_peer(
    receiver: EngineModel,
    frame: Seq<u8>,
    source: SocketAddr,
    now: u64,
    output: Result<EngineOutput, EngineError>,
    after: EngineModel,
)
    requires
        receiver.receives(frame, source, now, output, after),
        auth::packet_meaning(frame) matches Some(
            PacketModel::Transport { session_id, counter, ciphertext },
        ) ==> !(receiver.sessions.reception(session_id, counter, ciphertext, now) matches Some(
            (_, _, Decryption::Message(..)),
        )),
        auth::packet_meaning(frame) matches Some(PacketModel::Handshake { kind, .. }) ==> kind
            == PacketKind::HandshakeInit,
    ensures
        after.peers == receiver.peers,
{
}

/// Whether an initiator that gets this response holds the other end of a
/// session: one identifier, and each side receives under the key under which
/// the other sends.
pub open spec fn shares_session(
    initiator: noise::InitiatorModel,
    response: Seq<u8>,
    session: SessionModel,
    now: u64,
) -> bool {
    noise::finalized(initiator, response, now) matches Some(other) && other.session_id
        == session.session_id && other.sending_key == session.receiving_key && other.receiving_key
        == session.sending_key
}

/// Whether a message is an initiation of the peer of route `i`, and no other
/// peer has that peer's public key.
pub open spec fn comes_from(
    hub: EngineModel,
    i: int,
    initiator_key: Seq<u8>,
    handshake_id: Seq<u8>,
    message: Seq<u8>,
    initiator: noise::InitiatorModel,
) -> bool {
    let peer = *hub.routes[i].peer;
    &&& hub.first_route_of(peer.name@, i)
    &&& peer.public_key@ == noise::static_public_key(initiator_key)
    &&& noise::is_initiation(
        initiator_key,
        noise::static_public_key(hub.private_key),
        peer.psk@,
        handshake_id,
        message,
        initiator,
    )
    &&& handshake_id.len() == 8
    &&& forall|j: int|
        #![trigger hub.routes[j]]
        0 <= j < hub.routes.len() && hub.routes[j].peer.name@ != peer.name@
            ==> hub.routes[j].peer.public_key@ != peer.public_key@
}

proof fn lemma_only_its_peer_accepts(
    hub: EngineModel,
    i: int,
    initiator_key: Seq<u8>,
    handshake_id: Seq<u8>,
    message: Seq<u8>,
    initiator: noise::InitiatorModel,
)
    requires
        comes_from(hub, i, initiator_key, handshake_id, message, initiator),
    ensures
        hub.accepts(i, handshake_id, message),
        hub.accepts_before(hub.routes.len() as int, handshake_id, message),
        !hub.accepts_before(i, handshake_id, message),
        forall|j: int| #[trigger] hub.accepts(j, handshake_id, message) ==> j == i,
{
    let peer = *hub.routes[i].peer;
    noise::expected_initiation_is_accepted(
        initiator_key,
        hub.private_key,
        peer.psk@,
        peer.psk@,
        handshake_id,
        message,
        initiator,
    );
    assert(hub.accepts(i, handshake_id, message));
    assert forall|j: int| #[trigger] hub.accepts(j, handshake_id, message) implies j == i by {
        let other = *hub.routes[j].peer;
        if other.name@ != peer.name@ {
            noise::unexpected_initiation_is_refused(
                initiator_key,
                hub.private_key,
                other.public_key@,
                peer.psk@,
                other.psk@,
                handshake_id,
                message,
                initiator,
            );
        }
    }
}

/// An engine answers the initiation of each of its peers, however many it has:
/// unless an exchange of its own with that peer prevails, or the Noise library
/// could not write an answer, it sends one frame to where the initiation came
/// from. The initiator gets a session out of that frame, and the engine keeps
/// the other end of it as the peer's candidate. The one exception is an
/// identifier that a session in use has already.
pub proof fn initiation_of_every_peer_is_answered(
    hub: EngineModel,
    i: int,
    initiator_key: Seq<u8>,
    handshake_id: Seq<u8>,
    message: Seq<u8>,
    initiator: noise::InitiatorModel,
    source: SocketAddr,
    now: u64,
    output: Result<EngineOutput, EngineError>,
    after: EngineModel,
)
    requires
        comes_from(hub, i, initiator_key, handshake_id, message, initiator),
        hub.sessions.accepts_initiation(
            hub.routes[i].peer.name@,
            handshake_id,
            !hub.routes[i].peer.endpoint.usable(),
            now,
        ),
        !hub.sessions.cache.contains_key(hub.routes[i].peer.name@),
        hub.receives(
            auth::handshake_wire(PacketKind::HandshakeInit, handshake_id, message),
            source,
            now,
            output,
            after,
        ),
        !after.unanswered,
    ensures
        ({
            let name = hub.routes[i].peer.name@;
            output matches Ok(o) && exists|response: Seq<u8>, session: SessionModel| #[trigger]
                shares_session(initiator, response, session, now) && (hub.sessions.in_use(
                    session.session_id,
                ) || (o.actions@.len() == 1 && o.actions@[0].sends(
                    name,
                    source,
                    auth::handshake_wire(PacketKind::HandshakeResponse, handshake_id, response),
                ) && after.sessions.candidates.contains_key(name) && after.sessions.candidates[name]
                    == session))
        }),
        after.sessions.sessions == hub.sessions.sessions,
        after.peers == hub.peers,
{
    let peer = *hub.routes[i].peer;
    let name = peer.name@;
    auth::handshake_packets_round_trip(PacketKind::HandshakeInit, handshake_id, message);
    lemma_only_its_peer_accepts(hub, i, initiator_key, handshake_id, message, initiator);
    let noted = hub.with_unanswered(after.unanswered);
    let o = output->Ok_0;
    let (k, response, session) = choose|k: int, response: Seq<u8>, session: SessionModel| #[trigger]
        noted.answers(k, handshake_id, message, now, response, session) && after.unanswered
            == hub.accepts_before(k, handshake_id, message) && noted.takes_initiation(
            k,
            handshake_id,
            message,
            source,
            now,
            response,
            session,
            o,
            after,
        );
    assert(hub.accepts(k, handshake_id, message)) by {
        assert(noted.accepts(k, handshake_id, message));
        assert(noted.first_route_of(noted.routes[k].peer.name@, k));
    }
    noise::handshake_gives_both_sides_one_session(
        initiator_key,
        hub.private_key,
        peer.psk@,
        handshake_id,
        message,
        initiator,
        response,
        session,
        now,
        now,
    );
    assert(shares_session(initiator, response, session, now));
    let passive = !peer.endpoint.usable();
    let decided = hub.sessions.after_initiation(name, handshake_id, passive, now);
    let cleaned = decided.without_stale_cache(name, now);
    if cleaned.in_use(session.session_id) {
        let (slot, holder) = choose|slot: Slot, holder: Seq<char>|
            cleaned.holds(slot, holder, session.session_id);
        assert(hub.sessions.holds(slot, holder, session.session_id));
    }
}

/// An initiation that some peer accepts is never passed over in silence: unless
/// the Noise library could not write an answer, there is no answer only where an
/// exchange of our own with that peer prevails or the drawn identifier is in use.
pub proof fn no_acceptable_initiation_is_ignored(
    hub: EngineModel,
    i: int,
    handshake_id: Seq<u8>,
    message: Seq<u8>,
    source: SocketAddr,
    now: u64,
    output: EngineOutput,
    after: EngineModel,
)
    requires
        handshake_id.len() == 8,
        message.len() > 0,
        hub.first_route_of(hub.routes[i].peer.name@, i),
        noise::first_message(
            hub.private_key,
            hub.routes[i].peer.public_key@,
            hub.routes[i].peer.psk@,
            handshake_id,
            message,
        ) is Accepted,
        hub.receives(
            auth::handshake_wire(PacketKind::HandshakeInit, handshake_id, message),
            source,
            now,
            Ok(output),
            after,
        ),
        !after.unanswered,
        output.actions@.len() == 0,
    ensures
        exists|k: int|
            #![trigger hub.routes[k]]
            0 <= k <= i && noise::first_message(
                hub.private_key,
                hub.routes[k].peer.public_key@,
                hub.routes[k].peer.psk@,
                handshake_id,
                message,
            ) is Accepted && (!hub.sessions.accepts_initiation(
                hub.routes[k].peer.name@,
                handshake_id,
                !hub.routes[k].peer.endpoint.usable(),
                now,
            ) || exists|
                session: SessionModel,
                reply: Seq<u8>,
            | #[trigger]
                noise::is_response(
                    hub.private_key,
                    hub.routes[k].peer.psk@,
                    handshake_id,
                    message,
                    reply,
                    session,
                    now,
                ) && hub.sessions.in_use(session.session_id)),
{
    auth::handshake_packets_round_trip(PacketKind::HandshakeInit, handshake_id, message);
    let noted = hub.with_unanswered(after.unanswered);
    assert(hub.accepts(i, handshake_id, message));
    assert(hub.accepts_before(hub.routes.len() as int, handshake_id, message));
    let (k, reply, session) = choose|k: int, reply: Seq<u8>, session: SessionModel| #[trigger]
        noted.answers(k, handshake_id, message, now, reply, session) && after.unanswered
            == hub.accepts_before(k, handshake_id, message) && noted.takes_initiation(
            k,
            handshake_id,
            message,
            source,
            now,
            reply,
            session,
            output,
            after,
        );
    assert(noted.accepts(k, handshake_id, message));
    assert(k <= i) by {
        if i < k {
            assert(hub.accepts_before(k, handshake_id, message));
        }
    }
    let name = hub.routes[k].peer.name@;
    let passive = !hub.routes[k].peer.endpoint.usable();
    let decided = hub.sessions.after_initiation(name, handshake_id, passive, now);
    let cleaned = decided.without_stale_cache(name, now);
    if hub.sessions.accepts_initiation(name, handshake_id, passive, now) {
        assert(cleaned.in_use(session.session_id));
        let (slot, holder) = choose|slot: Slot, holder: Seq<char>|
            cleaned.holds(slot, holder, session.session_id);
        assert(hub.sessions.holds(slot, holder, session.session_id));
        assert(noise::is_response(
            hub.private_key,
            hub.routes[k].peer.psk@,
            handshake_id,
            message,
            reply,
            session,
            now,
        ) && hub.sessions.in_use(session.session_id));
    }
    let route = hub.routes[k];
}

/// The very same initiation, when it comes again within sixty seconds of its
/// answer, gets the same answer again, and starts nothing new.
pub proof fn repeated_initiation_gets_its_answer_again(
    hub: EngineModel,
    i: int,
    initiator_key: Seq<u8>,
    handshake_id: Seq<u8>,
    message: Seq<u8>,
    initiator: noise::InitiatorModel,
    source: SocketAddr,
    now: u64,
    output: Result<EngineOutput, EngineError>,
    after: EngineModel,
)
    requires
        comes_from(hub, i, initiator_key, handshake_id, message, initiator),
        hub.sessions.accepts_initiation(
            hub.routes[i].peer.name@,
            handshake_id,
            !hub.routes[i].peer.endpoint.usable(),
            now,
        ),
        hub.sessions.cache.contains_key(hub.routes[i].peer.name@),
        hub.sessions.cache[hub.routes[i].peer.name@].handshake_id == handshake_id,
        hub.sessions.cache[hub.routes[i].peer.name@].request == message,
        now >= hub.sessions.cache[hub.routes[i].peer.name@].created_at,
        now - hub.sessions.cache[hub.routes[i].peer.name@].created_at < 60_000_000_000,
        hub.receives(
            auth::handshake_wire(PacketKind::HandshakeInit, handshake_id, message),
            source,
            now,
            output,
            after,
        ),
        !after.unanswered,
    ensures
        output matches Ok(o) && o.actions@.len() == 1 && o.actions@[0].sends(
            hub.routes[i].peer.name@,
            source,
            hub.sessions.cache[hub.routes[i].peer.name@].response,
        ),
        after.sessions.candidates == hub.sessions.candidates,
        after.sessions.sessions == hub.sessions.sessions,
{
    auth::handshake_packets_round_trip(PacketKind::HandshakeInit, handshake_id, message);
    lemma_only_its_peer_accepts(hub, i, initiator_key, handshake_id, message, initiator);
    let noted = hub.with_unanswered(after.unanswered);
    let o = output->Ok_0;
    let (k, response, session) = choose|k: int, response: Seq<u8>, session: SessionModel| #[trigger]
        noted.answers(k, handshake_id, message, now, response, session) && after.unanswered
            == hub.accepts_before(k, handshake_id, message) && noted.takes_initiation(
            k,
            handshake_id,
            message,
            source,
            now,
            response,
            session,
            o,
            after,
        );
    assert(hub.accepts(k, handshake_id, message)) by {
        assert(noted.accepts(k, handshake_id, message));
        assert(noted.first_route_of(noted.routes[k].peer.name@, k));
    }
}

/// The response to a pending initiation completes the handshake: its session
/// becomes the peer's active one, the first frame under it goes to where the
/// response came from, the handshake is reported, and the peer is known to be
/// there.
pub proof fn response_completes_the_handshake(
    before: EngineModel,
    peer: Seq<char>,
    response: Seq<u8>,
    session: SessionModel,
    source: SocketAddr,
    now: u64,
    output: Result<EngineOutput, EngineError>,
    after: EngineModel,
)
    requires
        before.sessions.pending.contains_key(peer),
        before.sessions.pending[peer].handshake_id.len() == 8,
        response.len() > 0,
        forall|other: Seq<char>| #[trigger]
            before.sessions.pending.contains_key(other) && other != peer
                ==> before.sessions.pending[other].handshake_id
                != before.sessions.pending[peer].handshake_id,
        noise::finalized(before.sessions.pending[peer].initiator, response, now) == Some(session),
        !before.sessions.in_use(session.session_id),
        before.receives(
            auth::handshake_wire(
                PacketKind::HandshakeResponse,
                before.sessions.pending[peer].handshake_id,
                response,
            ),
            source,
            now,
            output,
            after,
        ),
    ensures
        output matches Ok(o) && o.actions@.len() == 1 && o.events@.len() == 1
            && o.events@[0].completes(peer, source, HandshakeRole::Initiator) && (
        o.actions@[0] matches EngineAction::SendTransport { peer_name, endpoint, frame }
            && peer_name@ == peer && endpoint == source && session.seals(
            MsgType::Keepalive,
            seq![1u8],
            frame@,
        )),
        after.sessions.sessions.contains_key(peer),
        after.sessions.sessions[peer].session_id == session.session_id,
        !after.sessions.pending.contains_key(peer),
        crate::state::stats_of(after.peers, peer).current_endpoint == Some(source),
        crate::state::stats_of(after.peers, peer).last_seen == Some(now),
{
    let id = before.sessions.pending[peer].handshake_id;
    auth::handshake_packets_round_trip(PacketKind::HandshakeResponse, id, response);
    assert(before.sessions.awaits(peer, id));
    match output {
        Ok(o) => {
            if o.actions@.len() == 0 {
                crate::sessions::readable_response_completes_the_handshake(
                    before.sessions,
                    peer,
                    response,
                    session,
                    now,
                    Ok(None),
                    after.sessions,
                );
            } else {
                match o.actions@[0] {
                    EngineAction::SendTransport { peer_name, endpoint, frame } => {
                        crate::sessions::readable_response_completes_the_handshake(
                            before.sessions,
                            peer,
                            response,
                            session,
                            now,
                            Ok(Some((peer_name, frame))),
                            after.sessions,
                        );
                    },
                    _ => {},
                }
            }
        },
        Err(EngineError::Noise(error)) => {
            crate::sessions::readable_response_completes_the_handshake(
                before.sessions,
                peer,
                response,
                session,
                now,
                Err(error),
                after.sessions,
            );
        },
        Err(_) => {},
    }
}

/// A peer is reached at the endpoint that it was last heard from, if that can be
/// sent to, otherwise at the configured one, if that can, and otherwise not at
/// all.
pub proof fn peers_are_reached_where_they_were_heard(model: EngineModel, peer: Peer)
    ensures
        ({
            let learned = crate::state::stats_of(model.peers, peer.name@).current_endpoint;
            &&& learned is Some && learned->0.usable() ==> model.endpoint_of(peer)
                == learned
            &&& !(learned is Some && learned->0.usable()) && peer.endpoint.usable()
                ==> model.endpoint_of(peer) == Some(peer.endpoint)
            &&& !(learned is Some && learned->0.usable()) && !peer.endpoint.usable()
                ==> model.endpoint_of(peer) is None
        }),
{
}

/// An IPv4 packet whose destination has a route is sent to that route's peer, as
/// one frame sealed under the peer's session, to where the peer is reached. No
/// other peer gets it, and nothing else is sent while the session needs no
/// renewal.
pub proof fn routed_packet_is_sent_to_its_peer(
    sender: EngineModel,
    i: int,
    packet: Seq<u8>,
    now: u64,
    output: Result<EngineOutput, EngineError>,
    after: EngineModel,
)
    requires
        20 <= packet.len() <= 65_518,
        0x40 <= packet[0] <= 0x4f,
        (packet[0] - 0x40) * 4 <= packet.len(),
        0 <= i < sender.routes.len(),
        ({
            let destination = Ipv4Addr {
                bits: (16777216 * packet[16] + 65536 * packet[17] + 256 * packet[18]
                    + packet[19]) as u32,
            };
            sender.routes[i].takes(destination) && forall|j: int|
                #![trigger sender.routes[j]]
                0 <= j < i ==> !sender.routes[j].takes(destination)
        }),
        ({
            let name = sender.routes[i].peer.name@;
            &&& sender.sessions.sessions.contains_key(name)
            &&& !sender.sessions.sessions[name].is_expired(now)
            &&& sender.sessions.sessions[name].send_counter < u64::MAX - 1
            &&& !sender.sessions.sessions[name].should_rekey(now)
            &&& sender.sessions.sessions[name].send_counter + 1 < 4_294_967_296
            &&& !sender.sessions.pending.contains_key(name)
        }),
        sender.endpoint_of(*sender.routes[i].peer) is Some,
        sender.sends_packet(packet, now, output, after),
    ensures
        output matches Ok(o) && o.actions@.len() == 1 && (
        o.actions@[0] matches EngineAction::SendTransport { peer_name, endpoint, frame }
            && peer_name@ == sender.routes[i].peer.name@ && Some(endpoint) == sender.endpoint_of(
            *sender.routes[i].peer,
        ) && sender.sessions.sessions[sender.routes[i].peer.name@].seals(
            MsgType::Data,
            packet,
            frame@,
        )),
        after.sessions.sessions[sender.routes[i].peer.name@].send_counter
            == sender.sessions.sessions[sender.routes[i].peer.name@].send_counter + 1,
        after.peers == sender.peers,
{
    crate::packet::packets_are_judged_by_length_and_first_byte(packet);
    crate::packet::addresses_stand_in_network_order(packet, 16);
    let destination = Ipv4Addr { bits: crate::packet::address_at(packet, 16) as u32 };
    assert(sender.first_route_to(destination, i));
    let peer = *sender.routes[i].peer;
    let name = peer.name@;
    match output {
        Ok(o) => {
            assert(forall|k: int| #[trigger] sender.first_route_to(destination, k) ==> k == i) by {
                assert forall|k: int| #[trigger] sender.first_route_to(destination, k) implies k
                    == i by {
                    let route = sender.routes[k];
                    let own = sender.routes[i];
                }
            }
            assert(sender.sends_message(peer, MsgType::Data, packet, now, Ok(o), after));
            let encrypted = sender.after_encrypt(name, packet, now);
            assert(encrypted.sessions.sessions[name]
                == sender.sessions.sessions[name].counter_reserved());
        },
        Err(error) => {},
    }
}

/// A packet without a route, and one that is not IPv4, is not sent, and changes
/// nothing.
pub proof fn unroutable_packet_is_dropped(
    sender: EngineModel,
    packet: Seq<u8>,
    now: u64,
    output: Result<EngineOutput, EngineError>,
    after: EngineModel,
)
    requires
        sender.sends_packet(packet, now, output, after),
        forall|j: int|
            #![trigger sender.routes[j]]
            0 <= j < sender.routes.len() ==> !sender.routes[j].takes(
                Ipv4Addr { bits: crate::packet::address_at(packet, 16) as u32 },
            ),
    ensures
        after == sender,
        output matches Ok(o) ==> o.is_empty(),
        crate::packet::header_fault(packet) matches Some(fault) ==> (output matches Err(
            EngineError::Packet(error),
        ) && error == fault),
        crate::packet::header_fault(packet) is None ==> output is Ok,
{
}

/// A probe that a peer sends under its session is acknowledged at once, to where
/// it came from; an acknowledgement and an empty keepalive are not.
pub proof fn probes_are_acknowledged(
    receiver: EngineModel,
    slot: Slot,
    peer: Seq<char>,
    payload: Seq<u8>,
    session_id: Seq<u8>,
    counter: u64,
    ciphertext: Seq<u8>,
    source: SocketAddr,
    now: u64,
    output: Result<EngineOutput, EngineError>,
    after: EngineModel,
)
    requires
        receiver.sessions.reception(session_id, counter, ciphertext, now) == Some(
            (slot, peer, Decryption::Message(MsgType::Keepalive, payload)),
        ),
        receiver.receives_transport(session_id, counter, ciphertext, source, now, output, after),
        ({
            let promoted = receiver.sessions.after_reception(session_id, counter, ciphertext, now);
            promoted.has_live_session(peer, now)
        }),
    ensures
        payload == seq![1u8] ==> (output matches Ok(o) && o.actions@.len() == 1 && (
        o.actions@[0] matches EngineAction::SendTransport { peer_name, endpoint, frame }
            && peer_name@ == peer && endpoint == source
            && receiver.sessions.after_reception(
            session_id,
            counter,
            ciphertext,
            now,
        ).sessions[peer].seals(MsgType::Keepalive, seq![2u8], frame@))),
        payload != seq![1u8] ==> (output matches Ok(o) && o.actions@.len() == 0),
        crate::state::stats_of(after.peers, peer).last_seen == Some(now),
        (output matches Ok(o) && (o.events@.len() == 1 <==> slot == Slot::Candidate)),
{
    assert(auth::KEEPALIVE_PROBE_PAYLOAD@ =~= seq![1u8]);
    assert(auth::KEEPALIVE_ACK_PAYLOAD@ =~= seq![2u8]);
}

/// A packet for a peer without a session starts a handshake with it: the first
/// message goes to where the peer is reached, and is kept until its response
/// comes. Only a failure of the Noise library is reported instead.
pub proof fn packet_without_session_starts_a_handshake(
    sender: EngineModel,
    i: int,
    packet: Seq<u8>,
    now: u64,
    output: Result<EngineOutput, EngineError>,
    after: EngineModel,
)
    requires
        crate::packet::header_fault(packet) is None,
        sender.first_route_to(
            Ipv4Addr { bits: crate::packet::address_at(packet, 16) as u32 },
            i,
        ),
        ({
            let name = sender.routes[i].peer.name@;
            &&& !sender.sessions.sessions.contains_key(name)
            &&& !sender.sessions.candidates.contains_key(name)
            &&& !sender.sessions.pending.contains_key(name)
        }),
        sender.endpoint_of(*sender.routes[i].peer) is Some,
        sender.sends_packet(packet, now, output, after),
    ensures
        match output {
            Ok(o) => o.actions@.len() == 1 && (
            o.actions@[0] matches EngineAction::SendTransport { peer_name, endpoint, frame }
                && peer_name@ == sender.routes[i].peer.name@ && Some(endpoint)
                == sender.endpoint_of(*sender.routes[i].peer)
                && after.sessions.pending.contains_key(peer_name@)
                && after.sessions.pending[peer_name@].packet == frame@
                && crate::sessions::initiates(
                sender.private_key,
                sender.routes[i].peer.public_key@,
                sender.routes[i].peer.psk@,
                now,
                after.sessions.pending[peer_name@],
            )),
            Err(error) => error is Noise,
        },
{
    let destination = Ipv4Addr { bits: crate::packet::address_at(packet, 16) as u32 };
    let peer = *sender.routes[i].peer;
    assert forall|k: int| #[trigger] sender.first_route_to(destination, k) implies k == i by {
        let route = sender.routes[k];
        let own = sender.routes[i];
    }
    let encrypted = sender.after_encrypt(peer.name@, packet, now);
    assert(!encrypted.sessions.sessions.contains_key(peer.name@));
}

/// A handshake that is asked for by a peer's name is started with the first route
/// of that name, where it is due and the peer can be reached; an unknown name is
/// an error, and a known one is not.
pub proof fn named_peers_get_their_handshake(
    before: EngineModel,
    name: Seq<char>,
    i: int,
    now: u64,
    output: Result<EngineOutput, EngineError>,
    after: EngineModel,
)
    requires
        before.initiates_handshake(name, now, output, after),
    ensures
        (forall|j: int|
            #![trigger before.routes[j]]
            0 <= j < before.routes.len() ==> before.routes[j].peer.name@ != name) ==> (
        output matches Err(EngineError::UnknownPeer(text)) && text@ == name && after == before),
        before.first_route_of(name, i) ==> !(output matches Err(EngineError::UnknownPeer(_))),
        before.first_route_of(name, i) && before.endpoint_of(*before.routes[i].peer) is Some
            && !before.sessions.pending.contains_key(name) && !before.sessions.candidates.contains_key(
            name,
        ) && !before.sessions.has_live_session(name, now) ==> match output {
            Ok(o) => o.actions@.len() == 1 && (
            o.actions@[0] matches EngineAction::SendTransport { peer_name, endpoint, frame }
                && peer_name@ == name && Some(endpoint) == before.endpoint_of(
                *before.routes[i].peer,
            ) && after.sessions.pending.contains_key(name) && after.sessions.pending[name].packet
                == frame@),
            Err(error) => error is Noise,
        },
{
    if before.first_route_of(name, i) {
        assert forall|k: int| #[trigger] before.first_route_of(name, k) implies k == i by {
            let one = before.routes[k];
            let other = before.routes[i];
        }
        let route = before.routes[i];
    } else {
        assert forall|k: int| (forall|j: int|
            #![trigger before.routes[j]]
            0 <= j < before.routes.len() ==> before.routes[j].peer.name@ != name)
            implies !#[trigger] before.first_route_of(name, k) by {
            let route = before.routes[k];
        }
    }
}

/// A keepalive for a peer whose session needs no renewal is one frame, sealed
/// under that session, to where the peer is reached.
pub proof fn keepalives_are_sealed_under_the_session(
    before: EngineModel,
    name: Seq<char>,
    i: int,
    payload: Seq<u8>,
    now: u64,
    output: Result<EngineOutput, EngineError>,
    after: EngineModel,
)
    requires
        before.creates_keepalive(name, payload, now, output, after),
        before.first_route_of(name, i),
        payload.len() <= 65_518,
        before.sessions.sessions.contains_key(name),
        !before.sessions.sessions[name].is_expired(now),
        !before.sessions.sessions[name].should_rekey(now),
        before.sessions.sessions[name].send_counter + 1 < 4_294_967_296,
        !before.sessions.pending.contains_key(name),
        before.endpoint_of(*before.routes[i].peer) is Some,
    ensures
        output matches Ok(o) && o.actions@.len() == 1 && (
        o.actions@[0] matches EngineAction::SendTransport { peer_name, endpoint, frame }
            && peer_name@ == name && Some(endpoint) == before.endpoint_of(*before.routes[i].peer)
            && before.sessions.sessions[name].seals(MsgType::Keepalive, payload, frame@)),
{
    assert forall|k: int| #[trigger] before.first_route_of(name, k) implies k == i by {
        let one = before.routes[k];
        let other = before.routes[i];
    }
    let route = before.routes[i];
    let encrypted = before.after_encrypt(name, payload, now);
    assert(encrypted.sessions.sessions[name] == before.sessions.sessions[name].counter_reserved());
}

/// Data that a peer sends is counted for that peer, by its length, and moves its
/// endpoint to where it came from; no other peer's numbers change.
pub proof fn received_data_is_counted(
    receiver: EngineModel,
    slot: Slot,
    peer: Seq<char>,
    other: Seq<char>,
    payload: Seq<u8>,
    session_id: Seq<u8>,
    counter: u64,
    ciphertext: Seq<u8>,
    source: SocketAddr,
    now: u64,
    output: Result<EngineOutput, EngineError>,
    after: EngineModel,
)
    requires
        receiver.sessions.reception(session_id, counter, ciphertext, now) == Some(
            (slot, peer, Decryption::Message(MsgType::Data, payload)),
        ),
        receiver.receives_transport(session_id, counter, ciphertext, source, now, output, after),
        payload.len() <= 65_535,
        crate::state::stats_of(receiver.peers, peer).rx_bytes + payload.len() <= u64::MAX,
        other != peer,
    ensures
        ({
            let before = crate::state::stats_of(receiver.peers, peer);
            let stats = crate::state::stats_of(after.peers, peer);
            &&& stats.rx_bytes == before.rx_bytes + payload.len()
            &&& stats.tx_bytes == before.tx_bytes
            &&& stats.last_seen == Some(now)
            &&& stats.current_endpoint == Some(source)
            &&& crate::state::stats_of(after.peers, other) == crate::state::stats_of(
                receiver.peers,
                other,
            )
        }),
        output is Ok <==> crate::packet::header_fault(payload) is None,
{
}

/// Every peer that has a route is found by its name, at the first of its routes,
/// and every other name is unknown.
pub proof fn every_named_peer_is_found(model: EngineModel, name: Seq<char>, j: int)
    ensures
        0 <= j < model.routes.len() && model.routes[j].peer.name@ == name ==> !model.unknown(name)
            && exists|i: int| #[trigger] model.first_route_of(name, i) && 0 <= i <= j,
        (forall|i: int|
            #![trigger model.routes[i]]
            0 <= i < model.routes.len() ==> model.routes[i].peer.name@ != name) <==> model.unknown(
            name,
        ),
        model.first_route_of(name, j) ==> 0 <= j < model.routes.len()
            && model.routes[j].peer.name@ == name,
    decreases j,
{
    if 0 <= j < model.routes.len() && model.routes[j].peer.name@ == name {
        if model.first_route_of(name, j) {
        } else {
            let k = choose|k: int|
                #![trigger model.routes[k]]
                0 <= k < j && model.routes[k].peer.name@ == name;
            assert(model.routes[k].peer.name@ == name);
            every_named_peer_is_found(model, name, k);
        }
    }
}

/// Every destination that some route takes has a first route that does.
pub proof fn every_taken_destination_has_a_route(
    model: EngineModel,
    destination: Ipv4Addr,
    j: int,
)
    requires
        0 <= j < model.routes.len(),
        model.routes[j].takes(destination),
    ensures
        exists|i: int| #[trigger] model.first_route_to(destination, i) && 0 <= i <= j,
    decreases j,
{
    if !model.first_route_to(destination, j) {
        let k = choose|k: int|
            #![trigger model.routes[k]]
            0 <= k < j && model.routes[k].takes(destination);
        assert(model.routes[k].takes(destination));
        every_taken_destination_has_a_route(model, destination, k);
    }
}

/// An action sends, or writes, exactly the bytes, to exactly the place and for
/// exactly the peer that it is said to; and so with an event.
pub proof fn actions_and_events_say_it_all(
    action: EngineAction,
    event: EngineEvent,
    peer: Seq<char>,
    place: SocketAddr,
    bytes: Seq<u8>,
    as_role: HandshakeRole,
)
    ensures
        action.sends(peer, place, bytes) <==> (
        action matches EngineAction::SendTransport { peer_name, endpoint, frame } && peer_name@
            == peer && endpoint == place && frame@ == bytes),
        action.writes(peer, place, bytes) <==> (
        action matches EngineAction::WriteIpPacket { peer_name, source, packet } && peer_name@
            == peer && source == place && packet@ == bytes),
        event.completes(peer, place, as_role) <==> (
        event matches EngineEvent::HandshakeCompleted { peer_name, endpoint, role } && peer_name@
            == peer && endpoint == place && role == as_role),
{
}

/// The first authentic message under a candidate is reported as a completed
/// handshake, with the peer and where it came from; no other message is.
pub proof fn promotion_is_reported(
    receiver: EngineModel,
    slot: Slot,
    peer: Seq<char>,
    msg_type: MsgType,
    payload: Seq<u8>,
    session_id: Seq<u8>,
    counter: u64,
    ciphertext: Seq<u8>,
    source: SocketAddr,
    now: u64,
    output: EngineOutput,
    after: EngineModel,
)
    requires
        receiver.sessions.reception(session_id, counter, ciphertext, now) == Some(
            (slot, peer, Decryption::Message(msg_type, payload)),
        ),
        receiver.receives_transport(
            session_id,
            counter,
            ciphertext,
            source,
            now,
            Ok(output),
            after,
        ),
    ensures
        slot == Slot::Candidate ==> output.events@.len() == 1 && (
        output.events@[0] matches EngineEvent::HandshakeCompleted { peer_name, endpoint, role }
            && peer_name@ == peer && endpoint == source && role == HandshakeRole::Responder),
        slot != Slot::Candidate ==> output.events@.len() == 0,
{
}

/// A transport packet that reaches no session is dropped in silence, and one that
/// a session refuses is an error; neither delivers or sends anything.
pub proof fn refused_packets_give_nothing(
    receiver: EngineModel,
    session_id: Seq<u8>,
    counter: u64,
    ciphertext: Seq<u8>,
    source: SocketAddr,
    now: u64,
    output: Result<EngineOutput, EngineError>,
    after: EngineModel,
)
    requires
        receiver.receives_transport(session_id, counter, ciphertext, source, now, output, after),
        !(receiver.sessions.reception(session_id, counter, ciphertext, now) matches Some(
            (_, _, Decryption::Message(..)),
        )),
    ensures
        receiver.sessions.reception(session_id, counter, ciphertext, now) is None ==> (
        output matches Ok(o) && o.actions@.len() == 0 && o.events@.len() == 0),
        receiver.sessions.reception(session_id, counter, ciphertext, now) is Some ==> (
        output matches Err(error) && error is Noise),
        after.peers == receiver.peers,
{
}

/// What is not a frame of this protocol is dropped, and changes nothing.
pub proof fn foreign_datagrams_are_dropped(
    receiver: EngineModel,
    frame: Seq<u8>,
    source: SocketAddr,
    now: u64,
    output: Result<EngineOutput, EngineError>,
    after: EngineModel,
)
    requires
        receiver.receives(frame, source, now, output, after),
        frame.len() <= 10 || frame[0] != 3 || frame[1] > 2,
    ensures
        output matches Ok(o) && o.actions@.len() == 0 && o.events@.len() == 0,
        after == receiver,
{
    auth::frames_are_judged_by_version_kind_and_length(frame);
}

/// While a peer has a session that has not expired, its packets and keepalives
/// keep going out under it, also while it is being renewed: unless the renewal
/// fails inside the Noise library, the last frame that is sent is the message.
pub proof fn renewal_holds_no_message_back(
    sender: EngineModel,
    peer: Peer,
    msg_type: MsgType,
    payload: Seq<u8>,
    now: u64,
    output: Result<EngineOutput, NoiseError>,
    after: EngineModel,
)
    requires
        sender.sends_message(peer, msg_type, payload, now, output, after),
        sender.sessions.sessions.contains_key(peer.name@),
        !sender.sessions.sessions[peer.name@].is_expired(now),
        payload.len() <= 65_518,
        sender.endpoint_of(peer) is Some,
    ensures
        output matches Ok(o) ==> o.actions@.len() >= 1 && (
        o.actions@[o.actions@.len() - 1] matches EngineAction::SendTransport {
            peer_name,
            endpoint,
            frame,
        } && peer_name@ == peer.name@ && Some(endpoint) == sender.endpoint_of(peer)
            && sender.sessions.sessions[peer.name@].seals(msg_type, payload, frame@)),
        output matches Err(error) ==> error is Snow,
        after.peers == sender.peers,
{
}

/// A packet for the tunnel is a data message to the peer of its first route, and
/// a keepalive is a keepalive message to the peer of that name.
pub proof fn packets_and_keepalives_are_messages(
    sender: EngineModel,
    i: int,
    name: Seq<char>,
    packet: Seq<u8>,
    payload: Seq<u8>,
    now: u64,
    sent: EngineOutput,
    kept: EngineOutput,
    after_packet: EngineModel,
    after_keepalive: EngineModel,
)
    requires
        sender.sends_packet(packet, now, Ok(sent), after_packet),
        sender.creates_keepalive(name, payload, now, Ok(kept), after_keepalive),
    ensures
        crate::packet::header_fault(packet) is None && sender.first_route_to(
            Ipv4Addr { bits: crate::packet::address_at(packet, 16) as u32 },
            i,
        ) ==> sender.sends_message(
            *sender.routes[i].peer,
            MsgType::Data,
            packet,
            now,
            Ok(sent),
            after_packet,
        ),
        sender.first_route_of(name, i) ==> sender.sends_message(
            *sender.routes[i].peer,
            MsgType::Keepalive,
            payload,
            now,
            Ok(kept),
            after_keepalive,
        ),
{
    let destination = Ipv4Addr { bits: crate::packet::address_at(packet, 16) as u32 };
    if sender.first_route_to(destination, i) {
        assert forall|k: int| #[trigger] sender.first_route_to(destination, k) implies k == i by {
            let one = sender.routes[k];
            let other = sender.routes[i];
        }
    }
    if sender.first_route_of(name, i) {
        assert forall|k: int| #[trigger] sender.first_route_of(name, k) implies k == i by {
            let one = sender.routes[k];
            let other = sender.routes[i];
        }
    }
}

} // verus!

//! Per-peer cryptographic session state: handshakes, rekeying,
//! replay-protected transport, and recovery from one-sided restarts.

use vstd::prelude::*;

use crate::auth::{self, MsgType, PacketKind, SESSION_ID_SIZE};
use crate::bytes::{read_be, same_bytes};
use crate::names::NameMap;
use crate::noise::{
    self, Decryption, InitiatorModel, InitiatorState, NoiseError, Session, SessionModel,
};

verus! {

pub const HANDSHAKE_RETRY_INTERVAL: u64 = 5_000_000_000;
pub const HANDSHAKE_ATTEMPT_LIFETIME: u64 = 30_000_000_000;
pub const HANDSHAKE_CACHE_LIFETIME: u64 = 60_000_000_000;

/// The time from `since` to `now`; none at all where `since` lies ahead.
pub open spec fn elapsed(since: u64, now: u64) -> int {
    if now >= since {
        now - since
    } else {
        0
    }
}

struct PendingInitiator {
    handshake_id: [u8; SESSION_ID_SIZE],
    state: InitiatorState,
    packet: Vec<u8>,
    created_at: u64,
    last_sent: u64,
}

/// An initiation that awaits its response, as plain values.
pub struct PendingModel {
    pub handshake_id: Seq<u8>,
    pub initiator: InitiatorModel,
    pub packet: Seq<u8>,
    pub created_at: u64,
    pub last_sent: u64,
}

impl View for PendingInitiator {
    type V = PendingModel;

    closed spec fn view(&self) -> PendingModel {
        PendingModel {
            handshake_id: self.handshake_id@,
            initiator: self.state@,
            packet: self.packet@,
            created_at: self.created_at,
            last_sent: self.last_sent,
        }
    }
}

struct CachedResponderHandshake {
    handshake_id: [u8; SESSION_ID_SIZE],
    request: Vec<u8>,
    response: Vec<u8>,
    created_at: u64,
}

/// A request that was answered, with its answer, as plain values.
pub struct CachedModel {
    pub handshake_id: Seq<u8>,
    pub request: Seq<u8>,
    pub response: Seq<u8>,
    pub created_at: u64,
}

impl View for CachedResponderHandshake {
    type V = CachedModel;

    closed spec fn view(&self) -> CachedModel {
        CachedModel {
            handshake_id: self.handshake_id@,
            request: self.request@,
            response: self.response@,
            created_at: self.created_at,
        }
    }
}

/// Where a session can be held.
#[derive(Clone, Copy, Debug, Eq, PartialEq, Structural)]
pub enum Slot {
    Active,
    Previous,
    Candidate,
}

/// The session state of all peers, as plain values.
#[verifier::ext_equal]
pub struct SessionsModel {
    pub sessions: Map<Seq<char>, SessionModel>,
    pub previous: Map<Seq<char>, SessionModel>,
    pub candidates: Map<Seq<char>, SessionModel>,
    pub pending: Map<Seq<char>, PendingModel>,
    pub cache: Map<Seq<char>, CachedModel>,
    /// The peers that have had a session, or whose preference for an inbound
    /// initiation was used, since the start or since they were discarded.
    pub settled: Set<Seq<char>>,
}

/// The sessions of a map that have not expired.
pub open spec fn unexpired(map: Map<Seq<char>, SessionModel>, now: u64) -> Map<
    Seq<char>,
    SessionModel,
> {
    Map::new(
        |name: Seq<char>| map.contains_key(name) && !map[name].is_expired(now),
        |name: Seq<char>| map[name],
    )
}

/// A map without one peer's session if that has expired.
pub open spec fn without_expired(
    map: Map<Seq<char>, SessionModel>,
    peer: Seq<char>,
    now: u64,
) -> Map<Seq<char>, SessionModel> {
    if map.contains_key(peer) && map[peer].is_expired(now) {
        map.remove(peer)
    } else {
        map
    }
}

impl SessionsModel {
    pub open spec fn empty() -> SessionsModel {
        SessionsModel {
            sessions: Map::empty(),
            previous: Map::empty(),
            candidates: Map::empty(),
            pending: Map::empty(),
            cache: Map::empty(),
            settled: Set::empty(),
        }
    }

    pub open spec fn at(self, slot: Slot) -> Map<Seq<char>, SessionModel> {
        match slot {
            Slot::Active => self.sessions,
            Slot::Previous => self.previous,
            Slot::Candidate => self.candidates,
        }
    }

    pub open spec fn with(self, slot: Slot, map: Map<Seq<char>, SessionModel>) -> SessionsModel {
        match slot {
            Slot::Active => SessionsModel { sessions: map, ..self },
            Slot::Previous => SessionsModel { previous: map, ..self },
            Slot::Candidate => SessionsModel { candidates: map, ..self },
        }
    }

    /// Whether a peer holds a session with this identifier in this slot.
    pub open spec fn holds(self, slot: Slot, peer: Seq<char>, session_id: Seq<u8>) -> bool {
        self.at(slot).contains_key(peer) && self.at(slot)[peer].session_id == session_id
    }

    /// Whether any session has this identifier.
    pub open spec fn in_use(self, session_id: Seq<u8>) -> bool {
        exists|slot: Slot, peer: Seq<char>| self.holds(slot, peer, session_id)
    }

    /// No two sessions have one identifier.
    pub open spec fn ids_distinct(self) -> bool {
        forall|a: Slot, p: Seq<char>, b: Slot, q: Seq<char>, id: Seq<u8>|
            #![trigger self.holds(a, p, id), self.holds(b, q, id)]
            self.holds(a, p, id) && self.holds(b, q, id) ==> a == b && p == q
    }

    /// Without the sessions that have expired.
    pub open spec fn pruned(self, now: u64) -> SessionsModel {
        SessionsModel {
            sessions: unexpired(self.sessions, now),
            previous: unexpired(self.previous, now),
            candidates: unexpired(self.candidates, now),
            ..self
        }
    }

    /// Where a session identifier is held.
    pub open spec fn holder(self, session_id: Seq<u8>) -> Option<(Slot, Seq<char>)> {
        if self.in_use(session_id) {
            let (slot, peer) = choose|slot: Slot, peer: Seq<char>|
                self.holds(slot, peer, session_id);
            Some((slot, peer))
        } else {
            None
        }
    }

    /// With a new active session; the one it replaces stays as the previous
    /// one.
    pub open spec fn installed(self, peer: Seq<char>, session: SessionModel) -> SessionsModel {
        SessionsModel {
            sessions: self.sessions.insert(peer, session),
            previous: if self.sessions.contains_key(peer) {
                self.previous.insert(peer, self.sessions[peer])
            } else {
                self.previous
            },
            settled: self.settled.insert(peer),
            ..self
        }
    }

    // -- sending ------------------------------------------------------------
    /// Before a message is sent to a peer: without expired previous sessions,
    /// and without the peer's own if that has expired.
    pub open spec fn ready_to_send(self, peer: Seq<char>, now: u64) -> SessionsModel {
        SessionsModel {
            sessions: without_expired(self.sessions, peer, now),
            previous: unexpired(self.previous, now),
            ..self
        }
    }

    /// After a message was sent to a peer, or tried to.
    pub open spec fn after_send(self, peer: Seq<char>, now: u64) -> SessionsModel {
        let ready = self.ready_to_send(peer, now);
        if ready.sessions.contains_key(peer) {
            SessionsModel {
                sessions: ready.sessions.insert(peer, ready.sessions[peer].counter_reserved()),
                ..ready
            }
        } else {
            ready
        }
    }

    /// How sending to a peer is reported: nothing without a session, a frame
    /// that the session seals, or an error where the payload does not fit.
    pub open spec fn reports_send(
        self,
        peer: Seq<char>,
        msg_type: MsgType,
        payload: Seq<u8>,
        now: u64,
        sent: Result<Option<Vec<u8>>, NoiseError>,
    ) -> bool {
        let sessions = without_expired(self.sessions, peer, now);
        match sent {
            Ok(None) => !sessions.contains_key(peer),
            Ok(Some(frame)) => sessions.contains_key(peer) && SessionModel::fits(payload)
                && sessions[peer].seals(msg_type, payload, frame@),
            Err(error) => sessions.contains_key(peer) && !SessionModel::fits(payload)
                && error is Snow,
        }
    }

    // -- receiving ----------------------------------------------------------
    /// What becomes of a transport packet: which session it reaches, and what
    /// that makes of it.
    pub open spec fn reception(
        self,
        session_id: Seq<u8>,
        counter: u64,
        ciphertext: Seq<u8>,
        now: u64,
    ) -> Option<(Slot, Seq<char>, Decryption)> {
        let live = self.pruned(now);
        match live.holder(session_id) {
            None => None,
            Some((slot, peer)) => Some(
                (slot, peer, live.at(slot)[peer].decryption(session_id, counter, ciphertext)),
            ),
        }
    }

    /// The state after that packet. A candidate that has authenticated a
    /// message becomes the active session and ends the peer's handshakes.
    pub open spec fn after_reception(
        self,
        session_id: Seq<u8>,
        counter: u64,
        ciphertext: Seq<u8>,
        now: u64,
    ) -> SessionsModel {
        let live = self.pruned(now);
        match self.reception(session_id, counter, ciphertext, now) {
            None => live,
            Some((slot, peer, decryption)) => {
                let session = live.at(slot)[peer].decrypted(session_id, counter, ciphertext);
                if slot == Slot::Candidate && decryption is Message {
                    let promoted = SessionsModel {
                        candidates: live.candidates.remove(peer),
                        ..live
                    }.installed(peer, session);
                    SessionsModel {
                        pending: promoted.pending.remove(peer),
                        cache: promoted.cache.remove(peer),
                        ..promoted
                    }
                } else {
                    live.with(slot, live.at(slot).insert(peer, session))
                }
            },
        }
    }

    // -- handshakes ---------------------------------------------------------
    /// Without the peer's own initiation if that has been pending too long.
    pub open spec fn without_stale_initiation(self, peer: Seq<char>, now: u64) -> SessionsModel {
        if self.pending.contains_key(peer) && elapsed(self.pending[peer].created_at, now)
            >= HANDSHAKE_ATTEMPT_LIFETIME {
            SessionsModel { pending: self.pending.remove(peer), ..self }
        } else {
            self
        }
    }

    /// Whether the peer has a session that is active and has not expired.
    pub open spec fn has_live_session(self, peer: Seq<char>, now: u64) -> bool {
        self.sessions.contains_key(peer) && !self.sessions[peer].is_expired(now)
    }

    /// Whether a peer's inbound initiation is preferred to our own: the peer
    /// is passive, and has had no session since the start or since it was
    /// discarded. The preference is good for one initiation.
    pub open spec fn prefers_inbound(self, peer: Seq<char>, passive_peer: bool) -> bool {
        passive_peer && !self.settled.contains(peer)
    }

    /// Whether an inbound initiation is accepted: always where it is
    /// preferred or none of our own is pending, and otherwise where its
    /// identifier is the smaller one.
    pub open spec fn accepts_initiation(
        self,
        peer: Seq<char>,
        remote_handshake_id: Seq<u8>,
        passive_peer: bool,
        now: u64,
    ) -> bool {
        let current = self.without_stale_initiation(peer, now);
        self.prefers_inbound(peer, passive_peer) || !current.pending.contains_key(peer) || crate::bytes::be_value(current.pending[peer].handshake_id) > crate::bytes::be_value(
            remote_handshake_id,
        )
    }

    /// The state after an inbound initiation was accepted or turned down.
    pub open spec fn after_initiation(
        self,
        peer: Seq<char>,
        remote_handshake_id: Seq<u8>,
        passive_peer: bool,
        now: u64,
    ) -> SessionsModel {
        let current = self.without_stale_initiation(peer, now);
        if self.accepts_initiation(peer, remote_handshake_id, passive_peer, now) {
            SessionsModel {
                pending: current.pending.remove(peer),
                settled: if self.prefers_inbound(peer, passive_peer) {
                    current.settled.insert(peer)
                } else {
                    current.settled
                },
                ..current
            }
        } else {
            current
        }
    }

    /// Whether the peer's cached answer is too old.
    pub open spec fn cache_expired(self, peer: Seq<char>, now: u64) -> bool {
        self.cache.contains_key(peer) && elapsed(self.cache[peer].created_at, now)
            >= HANDSHAKE_CACHE_LIFETIME
    }

    /// The answer that is cached for exactly this request.
    pub open spec fn cached_response(
        self,
        peer: Seq<char>,
        handshake_id: Seq<u8>,
        request: Seq<u8>,
        now: u64,
    ) -> Option<Seq<u8>> {
        if self.cache.contains_key(peer) && !self.cache_expired(peer, now)
            && self.cache[peer].handshake_id == handshake_id && self.cache[peer].request
            == request {
            Some(self.cache[peer].response)
        } else {
            None
        }
    }

    /// Without the peer's cached answer and its candidate if the answer is too
    /// old.
    pub open spec fn without_stale_cache(self, peer: Seq<char>, now: u64) -> SessionsModel {
        if self.cache_expired(peer, now) {
            SessionsModel {
                cache: self.cache.remove(peer),
                candidates: self.candidates.remove(peer),
                ..self
            }
        } else {
            self
        }
    }

    /// The state after a responder candidate was stored; unchanged where its
    /// identifier is in use.
    pub open spec fn after_store(
        self,
        peer: Seq<char>,
        session: SessionModel,
        cached: CachedModel,
    ) -> SessionsModel {
        if self.in_use(session.session_id) {
            self
        } else {
            SessionsModel {
                pending: self.pending.remove(peer),
                candidates: self.candidates.insert(peer, session),
                cache: self.cache.insert(peer, cached),
                ..self
            }
        }
    }

    /// Before a handshake of our own is started: without the peer's stale
    /// initiation, and, where none is pending, without an expired candidate
    /// and its cached answer, and, where no candidate is left either, without
    /// an expired session.
    pub open spec fn ready_to_start(self, peer: Seq<char>, now: u64) -> SessionsModel {
        let current = self.without_stale_initiation(peer, now);
        if current.pending.contains_key(peer) {
            current
        } else {
            let cleared = if current.candidates.contains_key(peer)
                && current.candidates[peer].is_expired(now) {
                SessionsModel {
                    candidates: current.candidates.remove(peer),
                    cache: current.cache.remove(peer),
                    ..current
                }
            } else {
                current
            };
            if cleared.candidates.contains_key(peer) {
                cleared
            } else {
                SessionsModel {
                    sessions: without_expired(cleared.sessions, peer, now),
                    ..cleared
                }
            }
        }
    }

    /// Whether the pending initiation is due to be sent again.
    pub open spec fn retry_due(self, peer: Seq<char>, now: u64) -> bool {
        let ready = self.ready_to_start(peer, now);
        ready.pending.contains_key(peer) && elapsed(ready.pending[peer].last_sent, now)
            >= HANDSHAKE_RETRY_INTERVAL
    }

    /// Whether a new initiation is due: none is pending, no candidate waits
    /// for its confirmation, and there is no session that needs no rekey.
    pub open spec fn start_due(self, peer: Seq<char>, now: u64) -> bool {
        let ready = self.ready_to_start(peer, now);
        &&& !ready.pending.contains_key(peer)
        &&& !ready.candidates.contains_key(peer)
        &&& ready.sessions.contains_key(peer) ==> ready.sessions[peer].should_rekey(now)
    }

    /// The state after the pending initiation was sent again.
    pub open spec fn after_retry(self, peer: Seq<char>, now: u64) -> SessionsModel {
        let ready = self.ready_to_start(peer, now);
        SessionsModel {
            pending: ready.pending.insert(
                peer,
                PendingModel { last_sent: now, ..ready.pending[peer] },
            ),
            ..ready
        }
    }

    /// How a start or retry is reported, and what state it leaves: nothing
    /// where neither is due, the pending packet once more where a retry is,
    /// and otherwise a fresh initiation, which fails only inside Noise.
    pub open spec fn reports_start(
        self,
        peer: Seq<char>,
        local_static: Seq<u8>,
        remote_static: Seq<u8>,
        psk: Seq<u8>,
        now: u64,
        packet: Result<Option<Vec<u8>>, NoiseError>,
        after: SessionsModel,
    ) -> bool {
        let ready = self.ready_to_start(peer, now);
        match packet {
            Ok(None) => !self.retry_due(peer, now) && !self.start_due(peer, now) && after == ready,
            Err(error) => self.start_due(peer, now) && after == ready && error is Snow,
            Ok(Some(sent)) => if ready.pending.contains_key(peer) {
                self.retry_due(peer, now) && sent@ == ready.pending[peer].packet && after
                    == self.after_retry(peer, now)
            } else {
                self.start_due(peer, now) && after.pending.contains_key(peer)
                    && after.pending[peer].packet == sent@ && initiates(
                    local_static,
                    remote_static,
                    psk,
                    now,
                    after.pending[peer],
                ) && after == (SessionsModel {
                    pending: ready.pending.insert(peer, after.pending[peer]),
                    ..ready
                })
            },
        }
    }

    /// Whether a peer's initiation with this identifier awaits its response.
    pub open spec fn awaits(self, peer: Seq<char>, handshake_id: Seq<u8>) -> bool {
        self.pending.contains_key(peer) && self.pending[peer].handshake_id == handshake_id
    }

    /// How the response to an initiation is reported, and what state it
    /// leaves. It is nothing where no initiation has the identifier. Otherwise
    /// one that has it is over: with an error where the response does not
    /// complete it or names a session that is in use, and else with the new
    /// session active and a keepalive probe sealed under it.
    pub open spec fn reports_completion(
        self,
        handshake_id: Seq<u8>,
        response: Seq<u8>,
        now: u64,
        completed: Result<Option<(String, Vec<u8>)>, NoiseError>,
        after: SessionsModel,
    ) -> bool {
        match completed {
            Ok(None) => after == self && forall|peer: Seq<char>|
                !#[trigger] self.awaits(peer, handshake_id),
            Ok(Some((name, frame))) => self.awaits(name@, handshake_id) && match noise::finalized(
                self.pending[name@].initiator,
                response,
                now,
            ) {
                Some(session) => {
                    &&& !self.in_use(session.session_id)
                    &&& session.seals(MsgType::Keepalive, auth::KEEPALIVE_PROBE_PAYLOAD@, frame@)
                    &&& after == self.completed(name@, session.counter_reserved())
                },
                None => false,
            },
            Err(error) => exists|peer: Seq<char>| #[trigger]
                self.awaits(peer, handshake_id) && after == (SessionsModel {
                    pending: self.pending.remove(peer),
                    ..self
                }) && match noise::finalized(self.pending[peer].initiator, response, now) {
                    Some(session) => self.in_use(session.session_id) && error is WrongSession,
                    None => error is Snow || error is InvalidSessionId,
                },
        }
    }

    /// Without any cryptographic state of a peer.
    pub open spec fn invalidated(self, peer: Seq<char>) -> SessionsModel {
        SessionsModel {
            sessions: self.sessions.remove(peer),
            previous: self.previous.remove(peer),
            candidates: self.candidates.remove(peer),
            pending: self.pending.remove(peer),
            cache: self.cache.remove(peer),
            settled: self.settled.remove(peer),
        }
    }

    /// The state after a peer's initiation ended in a session: the session is
    /// active, and the peer's candidate and cached answer are dropped.
    pub open spec fn completed(self, peer: Seq<char>, session: SessionModel) -> SessionsModel {
        let done = SessionsModel { pending: self.pending.remove(peer), ..self }.installed(
            peer,
            session,
        );
        SessionsModel {
            candidates: done.candidates.remove(peer),
            cache: done.cache.remove(peer),
            ..done
        }
    }
}

/// Whether `pending` is an initiation with these keys, made at `now`.
pub open spec fn initiates(
    local_static: Seq<u8>,
    remote_static: Seq<u8>,
    psk: Seq<u8>,
    now: u64,
    pending: PendingModel,
) -> bool {
    &&& pending.handshake_id.len() == SESSION_ID_SIZE
    &&& pending.created_at == now && pending.last_sent == now
    &&& exists|message: Seq<u8>|
        #![trigger auth::handshake_wire(PacketKind::HandshakeInit, pending.handshake_id, message)]
        pending.packet == auth::handshake_wire(
            PacketKind::HandshakeInit,
            pending.handshake_id,
            message,
        ) && noise::is_initiation(
            local_static,
            remote_static,
            psk,
            pending.handshake_id,
            message,
            pending.initiator,
        )
}

pub struct DecryptedTransport {
    pub peer_name: String,
    pub msg_type: MsgType,
    pub payload: Vec<u8>,
    pub promoted_responder_session: bool,
}

/// How a reception is reported to the caller.
pub open spec fn reports_reception(
    result: Result<Option<DecryptedTransport>, NoiseError>,
    reception: Option<(Slot, Seq<char>, Decryption)>,
) -> bool {
    match reception {
        None => result matches Ok(None),
        Some((slot, peer, Decryption::Message(msg_type, payload))) => result matches Ok(Some(d))
            && d.peer_name@ == peer && d.msg_type == msg_type && d.payload@ == payload
            && d.promoted_responder_session == (slot == Slot::Candidate),
        Some((_, _, Decryption::WrongSession)) => result matches Err(NoiseError::WrongSession),
        Some((_, _, Decryption::Replay)) => result matches Err(NoiseError::Replay),
        Some((_, _, Decryption::TooShort)) => result matches Err(NoiseError::MalformedTransport),
        Some((_, _, Decryption::Unreadable)) => result matches Err(NoiseError::MalformedTransport),
        Some((_, _, Decryption::Unauthentic)) => result matches Err(NoiseError::Snow(_)),
    }
}

/// Per-peer session state.
///
/// Holds one active session per peer, one receive-only previous session, and a
/// responder candidate. A candidate cannot replace the active session until
/// the initiator proves it received msg2 by sending an authenticated transport
/// packet. The previous session remains replay-protected and expires at the
/// normal hard reject deadline, allowing in-flight packets to survive rekey.
pub struct SessionManager {
    sessions: NameMap<Session>,
    previous_sessions: NameMap<Session>,
    responder_candidates: NameMap<Session>,
    pending_init: NameMap<PendingInitiator>,
    responder_cache: NameMap<CachedResponderHandshake>,
    settled: NameMap<()>,
}

impl View for SessionManager {
    type V = SessionsModel;

    closed spec fn view(&self) -> SessionsModel {
        SessionsModel {
            sessions: self.sessions@,
            previous: self.previous_sessions@,
            candidates: self.responder_candidates@,
            pending: self.pending_init@,
            cache: self.responder_cache@,
            settled: self.settled@.dom(),
        }
    }
}

/// The sessions of a map that have not expired.
fn retain_unexpired(map: &mut NameMap<Session>, now: u64)
    ensures
        final(map)@ == unexpired(old(map)@, now),
{
    let ghost before = map@;
    let mut kept: NameMap<Session> = NameMap::new();
    let mut more = true;
    while more
        invariant
            forall|name: Seq<char>|
                #![trigger before.contains_key(name)]
                before.contains_key(name) <==> map@.contains_key(name) || (kept@.contains_key(name)
                    || before.contains_key(name) && before[name].is_expired(now)),
            forall|name: Seq<char>| #[trigger]
                map@.contains_key(name) ==> before.contains_key(name) && map@[name] == before[name]
                    && !kept@.contains_key(name),
            forall|name: Seq<char>| #[trigger]
                kept@.contains_key(name) ==> before.contains_key(name) && kept@[name]
                    == before[name] && !before[name].is_expired(now),
            !more ==> map@ == Map::<Seq<char>, SessionModel>::empty(),
        decreases map.count() + if more { 1int } else { 0 },
    {
        match map.pop() {
            None => {
                more = false;
            },
            Some((name, session)) => {
                if !session.is_expired(now) {
                    kept.insert(name.as_str(), session);
                }
            },
        }
    }
    assert(kept@ =~= unexpired(before, now));
    std::mem::swap(map, &mut kept);
}

/// Takes a peer's session out if it has expired.
fn drop_expired(map: &mut NameMap<Session>, peer: &str, now: u64)
    ensures
        final(map)@ == without_expired(old(map)@, peer@, now),
{
    let expired = match map.get(peer) {
        Some(session) => session.is_expired(now),
        None => false,
    };
    if expired {
        map.remove(peer);
    }
}

/// The name under which a map holds a session with this identifier.
fn find_session(map: &NameMap<Session>, session_id: &[u8; SESSION_ID_SIZE]) -> (found: Option<
    String,
>)
    ensures
        match found {
            Some(name) => map@.contains_key(name@) && map@[name@].session_id == session_id@,
            None => forall|name: Seq<char>| #[trigger]
                map@.contains_key(name) ==> map@[name].session_id != session_id@,
        },
{
    let mut i: usize = 0;
    while i < map.len()
        invariant
            i <= map.count(),
            forall|j: int|
                #![trigger map.name_at(j)]
                0 <= j < i ==> map@[map.name_at(j)].session_id != session_id@,
        decreases map.count() - i,
    {
        let (name, session) = map.entry(i);
        if noise::same_id(&session.id(), session_id) {
            return Some(name.clone());
        }
        i = i + 1;
    }
    proof {
        map.lemma_names();
    }
    None
}

/// Whether every session of `self` is one of `other`, in the same place and
/// under the same identifier.
spec fn held_by(new: SessionsModel, old: SessionsModel) -> bool {
    forall|slot: Slot, peer: Seq<char>, id: Seq<u8>| #[trigger]
        new.holds(slot, peer, id) ==> old.holds(slot, peer, id)
}

proof fn lemma_fewer_stay_distinct(new: SessionsModel, old: SessionsModel)
    requires
        old.ids_distinct(),
        held_by(new, old),
    ensures
        new.ids_distinct(),
{
    assert forall|a: Slot, p: Seq<char>, b: Slot, q: Seq<char>, id: Seq<u8>|
        #![trigger new.holds(a, p, id), new.holds(b, q, id)]
        new.holds(a, p, id) && new.holds(b, q, id) implies a == b && p == q by {
        assert(old.holds(a, p, id) && old.holds(b, q, id));
    }
}

/// One session more keeps identifiers distinct if its own is not in use.
proof fn lemma_one_more_stays_distinct(
    new: SessionsModel,
    old: SessionsModel,
    slot: Slot,
    peer: Seq<char>,
    session_id: Seq<u8>,
)
    requires
        old.ids_distinct(),
        !old.in_use(session_id),
        forall|s: Slot, p: Seq<char>, id: Seq<u8>| #[trigger]
            new.holds(s, p, id) ==> old.holds(s, p, id) || (s == slot && p == peer && id
                == session_id),
    ensures
        new.ids_distinct(),
{
    assert forall|a: Slot, p: Seq<char>, b: Slot, q: Seq<char>, id: Seq<u8>|
        #![trigger new.holds(a, p, id), new.holds(b, q, id)]
        new.holds(a, p, id) && new.holds(b, q, id) implies a == b && p == q by {
        if id == session_id {
            assert(!old.holds(a, p, id));
            assert(!old.holds(b, q, id));
        } else {
            assert(old.holds(a, p, id) && old.holds(b, q, id));
        }
    }
}

/// A session that is held is the one that its identifier finds.
proof fn lemma_holder(model: SessionsModel, slot: Slot, peer: Seq<char>, session_id: Seq<u8>)
    requires
        model.ids_distinct(),
        model.holds(slot, peer, session_id),
    ensures
        model.holder(session_id) == Some((slot, peer)),
{
    let (s, p) = choose|s: Slot, p: Seq<char>| model.holds(s, p, session_id);
    assert(model.holds(s, p, session_id));
}

impl SessionManager {
    /// No two sessions of a manager have one identifier.
    pub open spec fn wf(&self) -> bool {
        self@.ids_distinct()
    }

    pub fn new() -> (manager: SessionManager)
        ensures
            manager.wf(),
            manager@ == SessionsModel::empty(),
    {
        let manager = SessionManager {
            sessions: NameMap::new(),
            previous_sessions: NameMap::new(),
            responder_candidates: NameMap::new(),
            pending_init: NameMap::new(),
            responder_cache: NameMap::new(),
            settled: NameMap::new(),
        };
        assert(manager@ =~= SessionsModel::empty());
        manager
    }

    /// Encrypts a message for a peer under its active session, if it has one
    /// that has not expired.
    pub fn encrypt_for_peer(
        &mut self,
        peer_name: &str,
        msg_type: MsgType,
        payload: &[u8],
        now: u64,
    ) -> (sent: Result<Option<Vec<u8>>, NoiseError>)
        requires
            old(self).wf(),
        ensures
            final(self).wf(),
            final(self)@ == old(self)@.after_send(peer_name@, now),
            old(self)@.reports_send(peer_name@, msg_type, payload@, now, sent),
    {
        let ghost before = self@;
        retain_unexpired(&mut self.previous_sessions, now);
        drop_expired(&mut self.sessions, peer_name, now);
        let ghost ready = self@;
        assert(ready =~= before.ready_to_send(peer_name@, now));
        let sent = match self.sessions.remove(peer_name) {
            None => {
                assert(self@ =~= ready);
                Ok(None)
            },
            Some(session) => {
                let mut session = session;
                let sent = session.encrypt(msg_type, payload);
                self.sessions.insert(peer_name, session);
                match sent {
                    Ok(frame) => Ok(Some(frame)),
                    Err(error) => Err(error),
                }
            },
        };
        assert(self@ =~= before.after_send(peer_name@, now));
        proof {
            lemma_fewer_stay_distinct(self@, before);
        }
        sent
    }

    /// Authenticates and decrypts a transport packet under whichever session
    /// it belongs to; the first authentic message of a candidate makes it the
    /// peer's active session.
    pub fn decrypt_transport(
        &mut self,
        session_id: &[u8; SESSION_ID_SIZE],
        counter: u64,
        ciphertext: &[u8],
        now: u64,
    ) -> (received: Result<Option<DecryptedTransport>, NoiseError>)
        requires
            old(self).wf(),
        ensures
            final(self).wf(),
            final(self)@ == old(self)@.after_reception(session_id@, counter, ciphertext@, now),
            reports_reception(
                received,
                old(self)@.reception(session_id@, counter, ciphertext@, now),
            ),
    {
        let ghost before = self@;
        let ghost id = session_id@;
        retain_unexpired(&mut self.sessions, now);
        retain_unexpired(&mut self.previous_sessions, now);
        retain_unexpired(&mut self.responder_candidates, now);
        let ghost live = self@;
        assert(live =~= before.pruned(now));
        proof {
            lemma_fewer_stay_distinct(live, before);
        }
        if let Some(peer_name) = find_session(&self.sessions, session_id) {
            proof {
                assert(live.holds(Slot::Active, peer_name@, id));
                lemma_holder(live, Slot::Active, peer_name@, id);
            }
            let message = decrypt_in(
                &mut self.sessions,
                peer_name.as_str(),
                session_id,
                counter,
                ciphertext,
            );
            assert(self@ =~= before.after_reception(id, counter, ciphertext@, now));
            proof {
                lemma_fewer_stay_distinct(self@, live);
            }
            return deliver(message, peer_name, false);
        }
        if let Some(peer_name) = find_session(&self.previous_sessions, session_id) {
            proof {
                assert(live.holds(Slot::Previous, peer_name@, id));
                lemma_holder(live, Slot::Previous, peer_name@, id);
            }
            let message = decrypt_in(
                &mut self.previous_sessions,
                peer_name.as_str(),
                session_id,
                counter,
                ciphertext,
            );
            assert(self@ =~= before.after_reception(id, counter, ciphertext@, now));
            proof {
                lemma_fewer_stay_distinct(self@, live);
            }
            return deliver(message, peer_name, false);
        }
        let peer_name = match find_session(&self.responder_candidates, session_id) {
            Some(peer_name) => peer_name,
            None => {
                proof {
                    if live.in_use(id) {
                        let (slot, peer) = choose|slot: Slot, peer: Seq<char>|
                            live.holds(slot, peer, id);
                        assert(live.at(slot).contains_key(peer));
                    }
                }
                return Ok(None);
            },
        };
        proof {
            assert(live.holds(Slot::Candidate, peer_name@, id));
            lemma_holder(live, Slot::Candidate, peer_name@, id);
        }
        let message = decrypt_in(
            &mut self.responder_candidates,
            peer_name.as_str(),
            session_id,
            counter,
            ciphertext,
        );
        let ghost decrypted = self@;
        proof {
            lemma_fewer_stay_distinct(decrypted, live);
        }
        if message.is_ok() {
            if let Some(session) = self.responder_candidates.remove(peer_name.as_str()) {
                let ghost taken = self@;
                proof {
                    lemma_fewer_stay_distinct(taken, decrypted);
                    assert(!taken.in_use(id)) by {
                        if taken.in_use(id) {
                            let (slot, peer) = choose|slot: Slot, peer: Seq<char>|
                                taken.holds(slot, peer, id);
                            assert(live.holds(slot, peer, id));
                        }
                    }
                }
                self.install_active_session(peer_name.as_str(), session);
                let ghost installed = self@;
                self.pending_init.remove(peer_name.as_str());
                self.responder_cache.remove(peer_name.as_str());
                proof {
                    lemma_fewer_stay_distinct(self@, installed);
                }
            }
        }
        assert(self@ =~= before.after_reception(id, counter, ciphertext@, now));
        deliver(message, peer_name, true)
    }

    /// Keeps the session of an answered request as a candidate, unless its
    /// identifier is in use.
    pub fn store_responder_candidate(
        &mut self,
        peer_name: &str,
        session: Session,
        handshake_id: [u8; SESSION_ID_SIZE],
        request: Vec<u8>,
        response: Vec<u8>,
        now: u64,
    ) -> (stored: bool)
        requires
            old(self).wf(),
        ensures
            final(self).wf(),
            stored == !old(self)@.in_use(session@.session_id),
            final(self)@ == old(self)@.after_store(
                peer_name@,
                session@,
                CachedModel {
                    handshake_id: handshake_id@,
                    request: request@,
                    response: response@,
                    created_at: now,
                },
            ),
    {
        let ghost before = self@;
        let ghost model = session@;
        let ghost cached = CachedModel {
            handshake_id: handshake_id@,
            request: request@,
            response: response@,
            created_at: now,
        };
        if self.session_id_in_use(&session.id()) {
            return false;
        }
        // `accept_inbound_initiation` already selected the remote exchange.
        // Clear any local rekey that raced between accepting msg1 and storing
        // its responder candidate, so two fresh sessions cannot replace each
        // other back-to-back.
        self.pending_init.remove(peer_name);
        self.responder_candidates.insert(peer_name, session);
        self.responder_cache.insert(
            peer_name,
            CachedResponderHandshake { handshake_id, request, response, created_at: now },
        );
        proof {
            assert(self@ =~= before.after_store(peer_name@, model, cached));
            lemma_one_more_stays_distinct(
                self@,
                before,
                Slot::Candidate,
                peer_name@,
                model.session_id,
            );
        }
        true
    }

    /// The answer that is cached for exactly this request, as long as it has
    /// not expired.
    pub fn cached_responder_response(
        &mut self,
        peer_name: &str,
        handshake_id: &[u8; SESSION_ID_SIZE],
        request: &[u8],
        now: u64,
    ) -> (response: Option<Vec<u8>>)
        requires
            old(self).wf(),
        ensures
            final(self).wf(),
            final(self)@ == old(self)@.without_stale_cache(peer_name@, now),
            match response {
                Some(r) => old(self)@.cached_response(
                    peer_name@,
                    handshake_id@,
                    request@,
                    now,
                ) == Some(r@),
                None => old(self)@.cached_response(
                    peer_name@,
                    handshake_id@,
                    request@,
                    now,
                ) is None,
            },
    {
        let ghost before = self@;
        let expired = match self.responder_cache.get(peer_name) {
            Some(cached) => now.saturating_sub(cached.created_at) >= HANDSHAKE_CACHE_LIFETIME,
            None => false,
        };
        if expired {
            self.responder_cache.remove(peer_name);
            self.responder_candidates.remove(peer_name);
            assert(self@ =~= before.without_stale_cache(peer_name@, now));
            proof {
                lemma_fewer_stay_distinct(self@, before);
            }
            return None;
        }
        match self.responder_cache.get(peer_name) {
            Some(cached) => {
                if noise::same_id(&cached.handshake_id, handshake_id) && same_bytes(
                    cached.request.as_slice(),
                    request,
                ) {
                    Some(vstd::slice::slice_to_vec(cached.response.as_slice()))
                } else {
                    None
                }
            },
            None => None,
        }
    }

    /// Takes the peer's own initiation out if it has been pending too long.
    fn drop_stale_initiation(&mut self, peer_name: &str, now: u64)
        requires
            old(self).wf(),
        ensures
            final(self).wf(),
            final(self)@ == old(self)@.without_stale_initiation(peer_name@, now),
    {
        let ghost before = self@;
        let stale = match self.pending_init.get(peer_name) {
            Some(pending) => now.saturating_sub(pending.created_at) >= HANDSHAKE_ATTEMPT_LIFETIME,
            None => false,
        };
        if stale {
            self.pending_init.remove(peer_name);
        }
        assert(self@ =~= before.without_stale_initiation(peer_name@, now));
        proof {
            lemma_fewer_stay_distinct(self@, before);
        }
    }

    /// Resolve simultaneous initiation deterministically. Both sides compare
    /// the same two random IDs; the smaller ID remains the initiator.
    ///
    /// A peer with no configured destination is intentionally passive and
    /// relies on a learned roaming endpoint. Before its first session, and
    /// after explicit stale-session invalidation, a locally pending exchange
    /// can still target an old learned endpoint. In that one state, an
    /// authenticated inbound initiation wins. Normal rekeys always retain the
    /// symmetric ID comparison so both peers cannot become responders
    /// simultaneously.
    pub fn accept_inbound_initiation(
        &mut self,
        peer_name: &str,
        remote_handshake_id: &[u8; SESSION_ID_SIZE],
        passive_peer: bool,
        now: u64,
    ) -> (accepted: bool)
        requires
            old(self).wf(),
        ensures
            final(self).wf(),
            accepted == old(self)@.accepts_initiation(
                peer_name@,
                remote_handshake_id@,
                passive_peer,
                now,
            ),
            final(self)@ == old(self)@.after_initiation(
                peer_name@,
                remote_handshake_id@,
                passive_peer,
                now,
            ),
    {
        let ghost before = self@;
        self.drop_stale_initiation(peer_name, now);
        let ghost current = self@;
        if passive_peer && !self.settled.contains(peer_name) {
            self.settled.insert(peer_name, ());
            self.pending_init.remove(peer_name);
            assert(self@ =~= before.after_initiation(
                peer_name@,
                remote_handshake_id@,
                passive_peer,
                now,
            ));
            proof {
                lemma_fewer_stay_distinct(self@, current);
            }
            return true;
        }
        let accepted = match self.pending_init.get(peer_name) {
            None => true,
            Some(local) => {
                let local_id: u64 = read_be(local.handshake_id.as_slice(), 0, SESSION_ID_SIZE);
                let remote_id: u64 = read_be(remote_handshake_id.as_slice(), 0, SESSION_ID_SIZE);
                assert(local.handshake_id@.subrange(0, 8) =~= local.handshake_id@);
                assert(remote_handshake_id@.subrange(0, 8) =~= remote_handshake_id@);
                local_id > remote_id
            },
        };
        if accepted {
            self.pending_init.remove(peer_name);
        }
        proof {
            assert(self@ =~= before.after_initiation(
                peer_name@,
                remote_handshake_id@,
                passive_peer,
                now,
            ));
            lemma_fewer_stay_distinct(self@, current);
        }
        accepted
    }

    /// Start a new initiator handshake, or retransmit the exact same msg1 when
    /// its response has not arrived within the retry interval.
    pub fn start_or_retry_handshake(
        &mut self,
        peer_name: &str,
        local_static: &[u8; 32],
        remote_static_pub: &[u8; 32],
        psk: &[u8; 32],
        now: u64,
    ) -> (packet: Result<Option<Vec<u8>>, NoiseError>)
        requires
            old(self).wf(),
        ensures
            final(self).wf(),
            old(self)@.reports_start(
                peer_name@,
                local_static@,
                remote_static_pub@,
                psk@,
                now,
                packet,
                final(self)@,
            ),
    {
        let ghost before = self@;
        let ghost peer = peer_name@;
        self.drop_stale_initiation(peer_name, now);
        let ghost current = self@;
        if let Some(pending) = self.pending_init.remove(peer_name) {
            let mut pending = pending;
            let due = now.saturating_sub(pending.last_sent) >= HANDSHAKE_RETRY_INTERVAL;
            let packet = if due {
                pending.last_sent = now;
                Some(vstd::slice::slice_to_vec(pending.packet.as_slice()))
            } else {
                None
            };
            self.pending_init.insert(peer_name, pending);
            proof {
                if due {
                    assert(self@ =~= before.after_retry(peer, now));
                } else {
                    assert(self@ =~= current);
                }
                lemma_fewer_stay_distinct(self@, current);
            }
            return Ok(packet);
        }
        let candidate_expired = match self.responder_candidates.get(peer_name) {
            Some(session) => session.is_expired(now),
            None => false,
        };
        if candidate_expired {
            self.responder_candidates.remove(peer_name);
            self.responder_cache.remove(peer_name);
        }
        let ghost cleared = self@;
        proof {
            lemma_fewer_stay_distinct(cleared, current);
        }
        // A valid inbound rekey is already waiting for authenticated
        // confirmation. Keep sending through the current session meanwhile,
        // but do not start a competing local exchange.
        if self.responder_candidates.contains(peer_name) {
            assert(self@ =~= before.ready_to_start(peer, now));
            return Ok(None);
        }
        drop_expired(&mut self.sessions, peer_name, now);
        let ghost ready = self@;
        assert(ready =~= before.ready_to_start(peer, now));
        proof {
            lemma_fewer_stay_distinct(ready, cleared);
        }
        if let Some(session) = self.sessions.get(peer_name) {
            if !session.should_rekey(now) {
                return Ok(None);
            }
        }
        let handshake = match noise::initiator_start(local_static, remote_static_pub, psk) {
            Ok(handshake) => handshake,
            Err(error) => {
                return Err(error);
            },
        };
        let ghost message = handshake.message@;
        let sent = self.await_response(peer_name, handshake, now);
        proof {
            let pending = self@.pending[peer];
            assert(pending.packet == auth::handshake_wire(
                PacketKind::HandshakeInit,
                pending.handshake_id,
                message,
            ));
            assert(initiates(local_static@, remote_static_pub@, psk@, now, pending));
        }
        Ok(Some(sent))
    }

    /// Keeps an initiation until its response arrives, and gives the packet
    /// that carries its message.
    pub fn await_response(
        &mut self,
        peer_name: &str,
        handshake: noise::InitiatorHandshake,
        now: u64,
    ) -> (packet: Vec<u8>)
        requires
            old(self).wf(),
        ensures
            final(self).wf(),
            packet@ == auth::handshake_wire(
                PacketKind::HandshakeInit,
                handshake.handshake_id@,
                handshake.message@,
            ),
            final(self)@ == (SessionsModel {
                pending: old(self)@.pending.insert(
                    peer_name@,
                    PendingModel {
                        handshake_id: handshake.handshake_id@,
                        initiator: handshake.state@,
                        packet: packet@,
                        created_at: now,
                        last_sent: now,
                    },
                ),
                ..old(self)@
            }),
    {
        let ghost before = self@;
        let (handshake_id, message, state) = handshake.into_parts();
        let packet = auth::encode_handshake(
            PacketKind::HandshakeInit,
            &handshake_id,
            message.as_slice(),
        );
        let sent = vstd::slice::slice_to_vec(packet.as_slice());
        let pending = PendingInitiator {
            handshake_id,
            state,
            packet,
            created_at: now,
            last_sent: now,
        };
        let ghost model = pending@;
        self.pending_init.insert(peer_name, pending);
        proof {
            assert(self@ =~= (SessionsModel {
                pending: before.pending.insert(peer_name@, model),
                ..before
            }));
            lemma_fewer_stay_distinct(self@, before);
        }
        sent
    }

    /// Completes the initiation that has this identifier with its response,
    /// and makes the new session the peer's active one. What comes back is
    /// the peer's name and the first message under the new session.
    pub fn finalize_initiator(
        &mut self,
        handshake_id: &[u8; SESSION_ID_SIZE],
        response: &[u8],
        now: u64,
    ) -> (completed: Result<Option<(String, Vec<u8>)>, NoiseError>)
        requires
            old(self).wf(),
        ensures
            final(self).wf(),
            old(self)@.reports_completion(
                handshake_id@,
                response@,
                now,
                completed,
                final(self)@,
            ),
    {
        let ghost before = self@;
        let peer_name = match self.find_pending(handshake_id) {
            Some(peer_name) => peer_name,
            None => {
                return Ok(None);
            },
        };
        let ghost peer = peer_name@;
        assert(before.awaits(peer, handshake_id@));
        let pending = match self.pending_init.remove(peer_name.as_str()) {
            Some(pending) => pending,
            None => {
                assert(false);
                return Ok(None);
            },
        };
        let ghost taken = self@;
        proof {
            assert(taken =~= (SessionsModel { pending: before.pending.remove(peer), ..before }));
            lemma_fewer_stay_distinct(taken, before);
        }
        let mut session = match noise::initiator_finalize(pending.state, response, now) {
            Ok(session) => session,
            Err(error) => {
                return Err(error);
            },
        };
        let ghost fresh = session@;
        if self.session_id_in_use(&session.id()) {
            proof {
                assert(before.in_use(fresh.session_id)) by {
                    let (slot, p) = choose|slot: Slot, p: Seq<char>|
                        taken.holds(slot, p, fresh.session_id);
                    assert(before.holds(slot, p, fresh.session_id));
                }
            }
            return Err(NoiseError::WrongSession);
        }
        let probe: [u8; 1] = auth::KEEPALIVE_PROBE_PAYLOAD;
        let confirmation = match session.encrypt(MsgType::Keepalive, probe.as_slice()) {
            Ok(frame) => frame,
            Err(error) => {
                return Err(error);
            },
        };
        self.install_active_session(peer_name.as_str(), session);
        let ghost installed = self@;
        self.responder_candidates.remove(peer_name.as_str());
        self.responder_cache.remove(peer_name.as_str());
        proof {
            lemma_fewer_stay_distinct(self@, installed);
            assert(!before.in_use(fresh.session_id)) by {
                if before.in_use(fresh.session_id) {
                    let (slot, p) = choose|slot: Slot, p: Seq<char>|
                        before.holds(slot, p, fresh.session_id);
                    assert(taken.holds(slot, p, fresh.session_id));
                }
            }
            assert(self@ =~= before.completed(peer, fresh.counter_reserved()));
        }
        Ok(Some((peer_name, confirmation)))
    }

    /// The peer whose pending initiation has this identifier.
    fn find_pending(&self, handshake_id: &[u8; SESSION_ID_SIZE]) -> (found: Option<String>)
        ensures
            match found {
                Some(name) => self@.awaits(name@, handshake_id@),
                None => forall|name: Seq<char>| !#[trigger] self@.awaits(name, handshake_id@),
            },
    {
        let mut i: usize = 0;
        while i < self.pending_init.len()
            invariant
                i <= self.pending_init.count(),
                forall|j: int|
                    #![trigger self.pending_init.name_at(j)]
                    0 <= j < i ==> self.pending_init@[self.pending_init.name_at(j)].handshake_id
                        != handshake_id@,
            decreases self.pending_init.count() - i,
        {
            let (name, pending) = self.pending_init.entry(i);
            if noise::same_id(&pending.handshake_id, handshake_id) {
                return Some(name.clone());
            }
            i = i + 1;
        }
        proof {
            self.pending_init.lemma_names();
        }
        None
    }

    /// Whether any session has this identifier.
    fn session_id_in_use(&self, session_id: &[u8; SESSION_ID_SIZE]) -> (used: bool)
        ensures
            used == self@.in_use(session_id@),
    {
        if let Some(name) = find_session(&self.sessions, session_id) {
            assert(self@.holds(Slot::Active, name@, session_id@));
            return true;
        }
        if let Some(name) = find_session(&self.previous_sessions, session_id) {
            assert(self@.holds(Slot::Previous, name@, session_id@));
            return true;
        }
        if let Some(name) = find_session(&self.responder_candidates, session_id) {
            assert(self@.holds(Slot::Candidate, name@, session_id@));
            return true;
        }
        proof {
            if self@.in_use(session_id@) {
                let (slot, peer) = choose|slot: Slot, peer: Seq<char>|
                    self@.holds(slot, peer, session_id@);
                assert(self@.at(slot).contains_key(peer));
            }
        }
        false
    }

    /// Check if a pending initiator handshake exists for a peer.
    pub fn has_pending_init(&self, peer_name: &str) -> (r: bool)
        ensures
            r == self@.pending.contains_key(peer_name@),
    {
        self.pending_init.contains(peer_name)
    }

    /// Whether the peer has an active session that has not expired.
    pub fn has_active_session(&self, peer_name: &str, now: u64) -> (r: bool)
        ensures
            r == self@.has_live_session(peer_name@, now),
    {
        match self.sessions.get(peer_name) {
            Some(session) => !session.is_expired(now),
            None => false,
        }
    }

    /// Discard all cryptographic state for a peer, to recover it. Keeping an
    /// old session after the remote process restarted prevents a new handshake
    /// because both sides continue speaking with unrelated session IDs/keys.
    pub fn invalidate_peer(&mut self, peer_name: &str) -> (had_state: bool)
        requires
            old(self).wf(),
        ensures
            final(self).wf(),
            final(self)@ == old(self)@.invalidated(peer_name@),
            had_state == (old(self)@.sessions.contains_key(peer_name@)
                || old(self)@.previous.contains_key(peer_name@)
                || old(self)@.candidates.contains_key(peer_name@)
                || old(self)@.pending.contains_key(peer_name@)),
    {
        let ghost before = self@;
        let removed_session = self.sessions.remove(peer_name).is_some();
        let removed_previous = self.previous_sessions.remove(peer_name).is_some();
        let removed_candidate = self.responder_candidates.remove(peer_name).is_some();
        let removed_pending = self.pending_init.remove(peer_name).is_some();
        self.responder_cache.remove(peer_name);
        self.settled.remove(peer_name);
        proof {
            assert(self@ =~= before.invalidated(peer_name@));
            lemma_fewer_stay_distinct(self@, before);
        }
        removed_session || removed_previous || removed_candidate || removed_pending
    }

    /// Return the active wire-session identifier for diagnostics and tests.
    ///
    /// Session identifiers are not secret key material. Exposing the value
    /// lets platform adapters report session replacement without gaining
    /// access to encryption state.
    pub fn active_session_id(&self, peer_name: &str) -> (id: Option<[u8; SESSION_ID_SIZE]>)
        ensures
            match id {
                Some(i) => self@.sessions.contains_key(peer_name@)
                    && self@.sessions[peer_name@].session_id == i@,
                None => !self@.sessions.contains_key(peer_name@),
            },
    {
        match self.sessions.get(peer_name) {
            Some(session) => Some(session.id()),
            None => None,
        }
    }

    /// Makes a session the peer's active one; the one it replaces becomes the
    /// previous one.
    fn install_active_session(&mut self, peer_name: &str, session: Session)
        requires
            old(self).wf(),
            !old(self)@.in_use(session@.session_id),
        ensures
            final(self).wf(),
            final(self)@ == old(self)@.installed(peer_name@, session@),
    {
        let ghost before = self@;
        let ghost model = session@;
        self.settled.insert(peer_name, ());
        if let Some(previous) = self.sessions.insert(peer_name, session) {
            self.previous_sessions.insert(peer_name, previous);
        }
        assert(self@ =~= before.installed(peer_name@, model));
        proof {
            lemma_installed_stays_distinct(before, peer_name@, model);
        }
    }
}

/// Installing a session whose identifier is not in use keeps identifiers
/// distinct.
proof fn lemma_installed_stays_distinct(
    before: SessionsModel,
    peer: Seq<char>,
    session: SessionModel,
)
    requires
        before.ids_distinct(),
        !before.in_use(session.session_id),
    ensures
        before.installed(peer, session).ids_distinct(),
{
    let after = before.installed(peer, session);
    assert forall|a: Slot, p: Seq<char>, b: Slot, q: Seq<char>, id: Seq<u8>|
        #![trigger after.holds(a, p, id), after.holds(b, q, id)]
        after.holds(a, p, id) && after.holds(b, q, id) implies a == b && p == q by {
        lemma_installed_holds(before, peer, session, a, p, id);
        lemma_installed_holds(before, peer, session, b, q, id);
    }
}

/// A session that is held after an installation is the new one, one that was
/// held in the same place, or the replaced one.
proof fn lemma_installed_holds(
    before: SessionsModel,
    peer: Seq<char>,
    session: SessionModel,
    slot: Slot,
    p: Seq<char>,
    id: Seq<u8>,
)
    requires
        !before.in_use(session.session_id),
        before.installed(peer, session).holds(slot, p, id),
    ensures
        if slot == Slot::Active && p == peer {
            id == session.session_id
        } else if slot == Slot::Previous && p == peer && before.sessions.contains_key(peer) {
            id != session.session_id && before.holds(Slot::Active, peer, id)
        } else {
            id != session.session_id && before.holds(slot, p, id)
        },
{
    if slot == Slot::Active && p == peer {
    } else if slot == Slot::Previous && p == peer && before.sessions.contains_key(peer) {
        assert(before.holds(Slot::Active, peer, id));
    } else {
        assert(before.holds(slot, p, id));
    }
}

/// Decrypts a packet under the session that a map holds for a peer.
fn decrypt_in(
    map: &mut NameMap<Session>,
    peer_name: &str,
    session_id: &[u8; SESSION_ID_SIZE],
    counter: u64,
    ciphertext: &[u8],
) -> (message: Result<(MsgType, Vec<u8>), NoiseError>)
    requires
        old(map)@.contains_key(peer_name@),
    ensures
        final(map)@ == old(map)@.insert(
            peer_name@,
            old(map)@[peer_name@].decrypted(session_id@, counter, ciphertext@),
        ),
        noise::reports(
            message,
            old(map)@[peer_name@].decryption(session_id@, counter, ciphertext@),
        ),
{
    let ghost before = map@;
    match map.remove(peer_name) {
        Some(session) => {
            let mut session = session;
            let message = session.decrypt(session_id, counter, ciphertext);
            map.insert(peer_name, session);
            assert(map@ =~= before.insert(
                peer_name@,
                before[peer_name@].decrypted(session_id@, counter, ciphertext@),
            ));
            message
        },
        None => {
            assert(false);
            Err(NoiseError::WrongSession)
        },
    }
}

/// A decrypted message as it is handed on.
fn deliver(
    message: Result<(MsgType, Vec<u8>), NoiseError>,
    peer_name: String,
    promoted: bool,
) -> (delivered: Result<Option<DecryptedTransport>, NoiseError>)
    ensures
        match message {
            Ok((msg_type, payload)) => delivered matches Ok(Some(d)) && d.peer_name@ == peer_name@
                && d.msg_type == msg_type && d.payload@ == payload@ && d.promoted_responder_session
                == promoted,
            Err(error) => delivered == Err::<Option<DecryptedTransport>, _>(error),
        },
{
    match message {
        Ok((msg_type, payload)) => Ok(
            Some(
                DecryptedTransport {
                    peer_name,
                    msg_type,
                    payload,
                    promoted_responder_session: promoted,
                },
            ),
        ),
        Err(error) => Err(error),
    }
}

// ---------------------------------------------------------------------------
// Laws.
// ---------------------------------------------------------------------------

/// When both sides have started a handshake with each other, exactly one of
/// them accepts the other's: the one with the larger identifier gives way. This
/// leaves out a side that prefers the other's initiation, and gives way to it
/// whatever its identifier.
pub proof fn simultaneous_initiation_has_one_winner(
    ours: SessionsModel,
    theirs: SessionsModel,
    peer: Seq<char>,
    us: Seq<char>,
    our_passive: bool,
    their_passive: bool,
    now: u64,
    their_now: u64,
)
    requires
        ours.without_stale_initiation(peer, now).pending.contains_key(peer),
        theirs.without_stale_initiation(us, their_now).pending.contains_key(us),
        ours.pending[peer].handshake_id.len() == SESSION_ID_SIZE,
        theirs.pending[us].handshake_id.len() == SESSION_ID_SIZE,
        ours.pending[peer].handshake_id != theirs.pending[us].handshake_id,
        !ours.prefers_inbound(peer, our_passive),
        !theirs.prefers_inbound(us, their_passive),
    ensures
        ours.accepts_initiation(peer, theirs.pending[us].handshake_id, our_passive, now)
            != theirs.accepts_initiation(
            us,
            ours.pending[peer].handshake_id,
            their_passive,
            their_now,
        ),
{
    let a = ours.pending[peer].handshake_id;
    let b = theirs.pending[us].handshake_id;
    if crate::bytes::be_value(a) == crate::bytes::be_value(b) {
        crate::bytes::lemma_be_value_injective(a, b);
    }
}

/// A session that has not expired is the one that its packets reach.
pub proof fn live_session_is_found(
    model: SessionsModel,
    slot: Slot,
    peer: Seq<char>,
    session_id: Seq<u8>,
    now: u64,
)
    requires
        model.ids_distinct(),
        model.holds(slot, peer, session_id),
        !model.at(slot)[peer].is_expired(now),
    ensures
        model.pruned(now).holder(session_id) == Some((slot, peer)),
        model.pruned(now).at(slot)[peer] == model.at(slot)[peer],
{
    let live = model.pruned(now);
    lemma_fewer_stay_distinct(live, model);
    assert(live.holds(slot, peer, session_id));
    lemma_holder(live, slot, peer, session_id);
}

/// Storing a candidate leaves every active and previous session as it is: an
/// answered request alone replaces nothing.
pub proof fn candidate_replaces_nothing(
    before: SessionsModel,
    peer: Seq<char>,
    session: SessionModel,
    cached: CachedModel,
)
    ensures
        before.after_store(peer, session, cached).sessions == before.sessions,
        before.after_store(peer, session, cached).previous == before.previous,
{
}

/// A packet that is not an authentic message of a candidate leaves the
/// identifiers of all active sessions that have not expired as they are.
pub proof fn only_an_authentic_message_promotes_a_candidate(
    before: SessionsModel,
    session_id: Seq<u8>,
    counter: u64,
    ciphertext: Seq<u8>,
    now: u64,
    peer: Seq<char>,
)
    requires
        before.sessions.contains_key(peer),
        !before.sessions[peer].is_expired(now),
        !(before.reception(session_id, counter, ciphertext, now) matches Some(
            (Slot::Candidate, _, Decryption::Message(_, _)),
        )),
    ensures
        before.after_reception(session_id, counter, ciphertext, now).sessions.contains_key(peer),
        before.after_reception(session_id, counter, ciphertext, now).sessions[peer].session_id
            == before.sessions[peer].session_id,
{
    let live = before.pruned(now);
    assert(live.sessions.contains_key(peer));
}

/// A session that is replaced stays as the previous one, so packets that were
/// sent under it still reach it until it expires.
pub proof fn replaced_session_still_receives(
    before: SessionsModel,
    peer: Seq<char>,
    session: SessionModel,
    counter: u64,
    ciphertext: Seq<u8>,
    now: u64,
)
    requires
        before.ids_distinct(),
        !before.in_use(session.session_id),
        before.sessions.contains_key(peer),
        !before.sessions[peer].is_expired(now),
    ensures
        before.installed(peer, session).reception(
            before.sessions[peer].session_id,
            counter,
            ciphertext,
            now,
        ) == Some(
            (
                Slot::Previous,
                peer,
                before.sessions[peer].decryption(
                    before.sessions[peer].session_id,
                    counter,
                    ciphertext,
                ),
            ),
        ),
{
    let replaced = before.sessions[peer];
    let after = before.installed(peer, session);
    lemma_installed_stays_distinct(before, peer, session);
    let live = after.pruned(now);
    lemma_fewer_stay_distinct(live, after);
    assert(live.holds(Slot::Previous, peer, replaced.session_id));
    lemma_holder(live, Slot::Previous, peer, replaced.session_id);
}

/// After a peer's state was discarded, a fresh handshake is due at once.
pub proof fn discarded_peer_starts_afresh(before: SessionsModel, peer: Seq<char>, now: u64)
    ensures
        before.invalidated(peer).start_due(peer, now),
        !before.invalidated(peer).sessions.contains_key(peer),
{
}

/// Discarding one peer's state leaves the others' alone.
pub proof fn discarding_a_peer_spares_the_others(
    before: SessionsModel,
    peer: Seq<char>,
    other: Seq<char>,
    slot: Slot,
)
    requires
        other != peer,
        before.at(slot).contains_key(other),
    ensures
        before.invalidated(peer).at(slot).contains_key(other),
        before.invalidated(peer).at(slot)[other] == before.at(slot)[other],
{
}

/// The first message that an initiator sends under a new session reaches the
/// responder's candidate, authenticates there, and thereby makes it the
/// responder's active session; both sides then hold one session identifier.
pub proof fn confirmation_promotes_the_candidate(
    responder: SessionsModel,
    peer: Seq<char>,
    initiator_session: SessionModel,
    frame: Seq<u8>,
    now: u64,
)
    requires
        responder.ids_distinct(),
        responder.candidates.contains_key(peer),
        !responder.candidates[peer].is_expired(now),
        responder.candidates[peer].replay == crate::replay::ReplayHistory::fresh(),
        initiator_session.session_id.len() == SESSION_ID_SIZE,
        initiator_session.session_id == responder.candidates[peer].session_id,
        initiator_session.sending_key == responder.candidates[peer].receiving_key,
        initiator_session.seals(MsgType::Keepalive, auth::KEEPALIVE_PROBE_PAYLOAD@, frame),
    ensures
        auth::packet_meaning(frame) matches Some(
            auth::PacketModel::Transport { session_id, counter, ciphertext },
        ) && responder.reception(session_id, counter, ciphertext, now) == Some(
            (
                Slot::Candidate,
                peer,
                Decryption::Message(MsgType::Keepalive, auth::KEEPALIVE_PROBE_PAYLOAD@),
            ),
        ) && {
            let after = responder.after_reception(session_id, counter, ciphertext, now);
            after.sessions.contains_key(peer) && after.sessions[peer].session_id
                == initiator_session.session_id && !after.pending.contains_key(peer)
        },
{
    let candidate = responder.candidates[peer];
    noise::decrypt_gives_back_what_encrypt_was_given(
        initiator_session,
        candidate,
        MsgType::Keepalive,
        auth::KEEPALIVE_PROBE_PAYLOAD@,
        frame,
    );
    let live = responder.pruned(now);
    lemma_fewer_stay_distinct(live, responder);
    assert(live.holds(Slot::Candidate, peer, candidate.session_id));
    lemma_holder(live, Slot::Candidate, peer, candidate.session_id);
    match auth::packet_meaning(frame) {
        Some(auth::PacketModel::Transport { session_id, counter, ciphertext }) => {
            auth::transport_packets_round_trip(
                frame,
                initiator_session.session_id,
                initiator_session.send_counter,
                noise::sealed(
                    initiator_session.sending_key,
                    initiator_session.send_counter,
                    auth::transport_plaintext(MsgType::Keepalive, auth::KEEPALIVE_PROBE_PAYLOAD@),
                ),
            );
        },
        _ => {},
    }
}

/// Two peers that know each other's public keys and share a pre-shared key end
/// up with one session. The packet of the initiation decodes to a message that
/// the responder accepts; from the response the initiator gets a session; and
/// the frame that it sends first promotes the responder's candidate, so that
/// both hold one identifier, and each sends under the key under which the
/// other receives.
pub proof fn handshake_completes_on_both_sides(
    initiator_key: Seq<u8>,
    responder_key: Seq<u8>,
    psk: Seq<u8>,
    pending: PendingModel,
    started_at: u64,
    request: Seq<u8>,
    response: Seq<u8>,
    responder: SessionsModel,
    peer: Seq<char>,
    answered_at: u64,
    completed_at: u64,
    confirmation: Seq<u8>,
    now: u64,
)
    requires
        initiates(initiator_key, noise::static_public_key(responder_key), psk, started_at, pending),
        pending.packet == auth::handshake_wire(
            PacketKind::HandshakeInit,
            pending.handshake_id,
            request,
        ),
        responder.ids_distinct(),
        responder.candidates.contains_key(peer),
        noise::is_response(
            responder_key,
            psk,
            pending.handshake_id,
            request,
            response,
            responder.candidates[peer],
            answered_at,
        ),
        !responder.candidates[peer].is_expired(now),
        noise::finalized(pending.initiator, response, completed_at) matches Some(session)
            ==> session.seals(MsgType::Keepalive, auth::KEEPALIVE_PROBE_PAYLOAD@, confirmation),
    ensures
        auth::packet_meaning(pending.packet) == Some(
            auth::PacketModel::Handshake {
                kind: PacketKind::HandshakeInit,
                handshake_id: pending.handshake_id,
                message: request,
            },
        ),
        noise::first_message(
            responder_key,
            noise::static_public_key(initiator_key),
            psk,
            pending.handshake_id,
            request,
        ) is Accepted,
        noise::finalized(pending.initiator, response, completed_at) matches Some(session) && {
            &&& auth::packet_meaning(confirmation) matches Some(
                auth::PacketModel::Transport { session_id, counter, ciphertext },
            )
            &&& {
                let after = responder.after_reception(session_id, counter, ciphertext, now);
                &&& after.sessions.contains_key(peer)
                &&& after.sessions[peer].session_id == session.session_id
                &&& after.sessions[peer].receiving_key == session.sending_key
                &&& after.sessions[peer].sending_key == session.receiving_key
            }
        },
{
    let id = pending.handshake_id;
    let message = choose|message: Seq<u8>|
        #![trigger auth::handshake_wire(PacketKind::HandshakeInit, id, message)]
        pending.packet == auth::handshake_wire(PacketKind::HandshakeInit, id, message)
            && noise::is_initiation(
            initiator_key,
            noise::static_public_key(responder_key),
            psk,
            id,
            message,
            pending.initiator,
        );
    assert(message =~= request) by {
        assert(pending.packet.skip(10) =~= message);
        assert(pending.packet.skip(10) =~= request);
    }
    auth::handshake_packets_round_trip(PacketKind::HandshakeInit, id, request);
    noise::expected_initiation_is_accepted(
        initiator_key,
        responder_key,
        psk,
        psk,
        id,
        request,
        pending.initiator,
    );
    noise::handshake_gives_both_sides_one_session(
        initiator_key,
        responder_key,
        psk,
        id,
        request,
        pending.initiator,
        response,
        responder.candidates[peer],
        answered_at,
        completed_at,
    );
    let session = noise::finalized(pending.initiator, response, completed_at)->0;
    confirmation_promotes_the_candidate(responder, peer, session, confirmation, now);
}

/// A passive peer that was just discarded gives way to the next inbound
/// initiation, whatever its identifier, and our own is over then. The one after
/// that is held against our own again.
pub proof fn discarded_passive_peer_gives_way_once(
    before: SessionsModel,
    peer: Seq<char>,
    remote_handshake_id: Seq<u8>,
    now: u64,
)
    ensures
        before.invalidated(peer).prefers_inbound(peer, true),
        before.prefers_inbound(peer, true) ==> before.accepts_initiation(
            peer,
            remote_handshake_id,
            true,
            now,
        ) && !before.after_initiation(
            peer,
            remote_handshake_id,
            true,
            now,
        ).pending.contains_key(peer),
        !before.after_initiation(peer, remote_handshake_id, true, now).prefers_inbound(peer, true),
{
}

/// A passive peer that has had a session is held to the identifiers, also after
/// that session has expired, until it is discarded.
pub proof fn settled_peer_keeps_the_identifier_rule(
    before: SessionsModel,
    peer: Seq<char>,
    session: SessionModel,
    now: u64,
)
    ensures
        !before.installed(peer, session).prefers_inbound(peer, true),
        !before.completed(peer, session).prefers_inbound(peer, true),
        before.settled.contains(peer) ==> {
            &&& !before.pruned(now).prefers_inbound(peer, true)
            &&& !before.after_send(peer, now).prefers_inbound(peer, true)
            &&& !before.ready_to_start(peer, now).prefers_inbound(peer, true)
        },
{
}

/// A handshake that awaits its response is sent again unchanged once the retry
/// interval has passed since it was last sent, and not before.
pub proof fn pending_handshake_is_retried_unchanged(
    before: SessionsModel,
    peer: Seq<char>,
    local_static: Seq<u8>,
    remote_static: Seq<u8>,
    psk: Seq<u8>,
    now: u64,
    packet: Result<Option<Vec<u8>>, NoiseError>,
    after: SessionsModel,
)
    requires
        before.pending.contains_key(peer),
        elapsed(before.pending[peer].created_at, now) < HANDSHAKE_ATTEMPT_LIFETIME,
        before.reports_start(peer, local_static, remote_static, psk, now, packet, after),
    ensures
        if elapsed(before.pending[peer].last_sent, now) >= HANDSHAKE_RETRY_INTERVAL {
            packet matches Ok(Some(sent)) && sent@ == before.pending[peer].packet
        } else {
            packet matches Ok(None)
        },
        after.pending.contains_key(peer),
        after.pending[peer].packet == before.pending[peer].packet,
        after.pending[peer].initiator == before.pending[peer].initiator,
{
}

/// A handshake that has not been answered for its whole lifetime is given up:
/// unless the peer has a session that needs no rekey, or a candidate, a fresh
/// one takes its place.
pub proof fn unanswered_handshake_is_replaced(
    before: SessionsModel,
    peer: Seq<char>,
    local_static: Seq<u8>,
    remote_static: Seq<u8>,
    psk: Seq<u8>,
    now: u64,
    packet: Result<Option<Vec<u8>>, NoiseError>,
    after: SessionsModel,
)
    requires
        before.pending.contains_key(peer),
        elapsed(before.pending[peer].created_at, now) >= HANDSHAKE_ATTEMPT_LIFETIME,
        !before.candidates.contains_key(peer),
        before.has_live_session(peer, now) ==> before.sessions[peer].should_rekey(now),
        before.reports_start(peer, local_static, remote_static, psk, now, packet, after),
    ensures
        match packet {
            Ok(Some(sent)) => after.pending.contains_key(peer) && after.pending[peer].packet
                == sent@ && initiates(local_static, remote_static, psk, now, after.pending[peer]),
            Ok(None) => false,
            Err(_) => !after.pending.contains_key(peer),
        },
{
}

/// Starting a handshake leaves a session that has not expired in place: it
/// carries traffic until its replacement has been negotiated.
pub proof fn rekeying_keeps_the_active_session(
    before: SessionsModel,
    peer: Seq<char>,
    local_static: Seq<u8>,
    remote_static: Seq<u8>,
    psk: Seq<u8>,
    now: u64,
    packet: Result<Option<Vec<u8>>, NoiseError>,
    after: SessionsModel,
)
    requires
        before.has_live_session(peer, now),
        before.reports_start(peer, local_static, remote_static, psk, now, packet, after),
    ensures
        after.has_live_session(peer, now),
        after.sessions[peer] == before.sessions[peer],
{
}

/// Whether a peer's initiation has been pending for less than thirty seconds.
pub open spec fn is_pending(model: SessionsModel, peer: Seq<char>, now: u64) -> bool {
    model.pending.contains_key(peer) && elapsed(model.pending[peer].created_at, now)
        < 30_000_000_000
}

/// A new initiation is made exactly where none has been pending for less than
/// thirty seconds, no candidate waits that has not expired, and there is no
/// session that has neither expired nor to be renewed. Nothing is sent where
/// one of these holds, but for the retry of a pending one five seconds after it
/// was last sent.
pub proof fn handshakes_start_when_they_are_needed(
    before: SessionsModel,
    peer: Seq<char>,
    local_static: Seq<u8>,
    remote_static: Seq<u8>,
    psk: Seq<u8>,
    now: u64,
    packet: Result<Option<Vec<u8>>, NoiseError>,
    after: SessionsModel,
)
    requires
        before.reports_start(peer, local_static, remote_static, psk, now, packet, after),
    ensures
        ({
            let waits = before.candidates.contains_key(peer) && !before.candidates[peer].is_expired(
                now,
            );
            let served = before.sessions.contains_key(peer) && !before.sessions[peer].is_expired(
                now,
            ) && !before.sessions[peer].should_rekey(now);
            if is_pending(before, peer, now) {
                if elapsed(before.pending[peer].last_sent, now) >= 5_000_000_000 {
                    packet matches Ok(Some(sent)) && sent@ == before.pending[peer].packet
                } else {
                    packet matches Ok(None)
                }
            } else if waits || served {
                packet matches Ok(None)
            } else {
                match packet {
                    Ok(Some(sent)) => after.pending.contains_key(peer) && after.pending[peer].packet
                        == sent@ && initiates(
                        local_static,
                        remote_static,
                        psk,
                        now,
                        after.pending[peer],
                    ),
                    Ok(None) => false,
                    Err(error) => error is Snow && !after.pending.contains_key(peer),
                }
            }
        }),
{
}

/// Starting or retrying a handshake with one peer touches no other peer's state.
pub proof fn handshakes_spare_the_other_peers(
    before: SessionsModel,
    peer: Seq<char>,
    other: Seq<char>,
    local_static: Seq<u8>,
    remote_static: Seq<u8>,
    psk: Seq<u8>,
    now: u64,
    packet: Result<Option<Vec<u8>>, NoiseError>,
    after: SessionsModel,
)
    requires
        other != peer,
        before.reports_start(peer, local_static, remote_static, psk, now, packet, after),
    ensures
        after.pending.contains_key(other) == before.pending.contains_key(other),
        after.pending.contains_key(other) ==> after.pending[other] == before.pending[other],
        after.sessions.contains_key(other) == before.sessions.contains_key(other),
        after.sessions.contains_key(other) ==> after.sessions[other] == before.sessions[other],
        after.candidates.contains_key(other) == before.candidates.contains_key(other),
        after.previous == before.previous,
{
}

/// A message to a peer is sealed under its session exactly if that has not
/// expired and the message fits. The session's counter then moves on by one,
/// and no other peer's session is touched.
pub proof fn live_sessions_send(
    before: SessionsModel,
    peer: Seq<char>,
    other: Seq<char>,
    msg_type: MsgType,
    payload: Seq<u8>,
    now: u64,
    sent: Result<Option<Vec<u8>>, NoiseError>,
)
    requires
        before.reports_send(peer, msg_type, payload, now, sent),
        other != peer,
    ensures
        before.has_live_session(peer, now) && payload.len() <= 65_518 ==> (sent matches Ok(
            Some(frame),
        ) && before.sessions[peer].seals(msg_type, payload, frame@)),
        !(before.sessions.contains_key(peer) && !before.sessions[peer].is_expired(now)) ==> (
        sent matches Ok(None)),
        before.has_live_session(peer, now) ==> before.after_send(peer, now).sessions.contains_key(
            peer,
        ) && before.after_send(peer, now).sessions[peer].send_counter
            == before.sessions[peer].send_counter + 1 && before.after_send(
            peer,
            now,
        ).sessions[peer].session_id == before.sessions[peer].session_id,
        before.after_send(peer, now).sessions.contains_key(other)
            == before.sessions.contains_key(other),
        before.sessions.contains_key(other) ==> before.after_send(peer, now).sessions[other]
            == before.sessions[other],
        before.after_send(peer, now).pending == before.pending,
        before.after_send(peer, now).candidates == before.candidates,
{
}

/// An answer that was stored is repeated to the very same request for sixty
/// seconds, and to no other one; storing it keeps the session as a candidate and
/// ends our own initiation.
pub proof fn stored_answer_is_repeated(
    before: SessionsModel,
    peer: Seq<char>,
    session: SessionModel,
    cached: CachedModel,
    handshake_id: Seq<u8>,
    request: Seq<u8>,
    now: u64,
)
    requires
        !before.in_use(session.session_id),
        now >= cached.created_at,
    ensures
        ({
            let after = before.after_store(peer, session, cached);
            &&& after.candidates.contains_key(peer) && after.candidates[peer] == session
            &&& !after.pending.contains_key(peer)
            &&& after.sessions == before.sessions && after.previous == before.previous
            &&& after.cached_response(peer, handshake_id, request, now) == if now
                - cached.created_at < 60_000_000_000 && handshake_id == cached.handshake_id
                && request == cached.request {
                Some(cached.response)
            } else {
                None
            }
        }),
{
}

/// A completed handshake makes its session the active one, keeps the one that it
/// replaces for what is still on its way, and leaves nothing of the exchange.
pub proof fn completed_handshake_takes_over(
    before: SessionsModel,
    peer: Seq<char>,
    other: Seq<char>,
    session: SessionModel,
)
    requires
        other != peer,
    ensures
        ({
            let after = before.completed(peer, session);
            &&& after.sessions.contains_key(peer) && after.sessions[peer] == session
            &&& before.sessions.contains_key(peer) ==> after.previous.contains_key(peer)
                && after.previous[peer] == before.sessions[peer]
            &&& !after.pending.contains_key(peer)
            &&& !after.candidates.contains_key(peer)
            &&& !after.cache.contains_key(peer)
            &&& after.sessions.contains_key(other) == before.sessions.contains_key(other)
            &&& before.sessions.contains_key(other) ==> after.sessions[other]
                == before.sessions[other]
            &&& after.pending.contains_key(other) == before.pending.contains_key(other)
            &&& before.pending.contains_key(other) ==> after.pending[other] == before.pending[other]
        }),
{
}

/// The response to our own initiation completes it: where it can be read and
/// names a session that is not in use, that session becomes active and the
/// first frame under it is sealed.
pub proof fn readable_response_completes_the_handshake(
    before: SessionsModel,
    peer: Seq<char>,
    response: Seq<u8>,
    session: SessionModel,
    now: u64,
    completed: Result<Option<(String, Vec<u8>)>, NoiseError>,
    after: SessionsModel,
)
    requires
        before.pending.contains_key(peer),
        forall|other: Seq<char>| #[trigger]
            before.pending.contains_key(other) && other != peer
                ==> before.pending[other].handshake_id != before.pending[peer].handshake_id,
        noise::finalized(before.pending[peer].initiator, response, now) == Some(session),
        !before.in_use(session.session_id),
        before.reports_completion(
            before.pending[peer].handshake_id,
            response,
            now,
            completed,
            after,
        ),
    ensures
        completed matches Ok(Some((name, frame))) && name@ == peer && session.seals(
            MsgType::Keepalive,
            seq![1u8],
            frame@,
        ),
        after.sessions.contains_key(peer),
        after.sessions[peer].session_id == session.session_id,
        after.sessions[peer].sending_key == session.sending_key,
        after.sessions[peer].receiving_key == session.receiving_key,
        !after.pending.contains_key(peer),
{
    let id = before.pending[peer].handshake_id;
    assert(before.awaits(peer, id));
    assert(auth::KEEPALIVE_PROBE_PAYLOAD@ =~= seq![1u8]);
    match completed {
        Ok(Some((name, frame))) => {
            assert(before.pending.contains_key(name@));
        },
        Ok(None) => {},
        Err(error) => {
            let waiting = choose|waiting: Seq<char>| #[trigger]
                before.awaits(waiting, id) && after == (SessionsModel {
                    pending: before.pending.remove(waiting),
                    ..before
                }) && match noise::finalized(before.pending[waiting].initiator, response, now) {
                    Some(session) => before.in_use(session.session_id) && error is WrongSession,
                    None => error is Snow || error is InvalidSessionId,
                };
            assert(before.pending.contains_key(waiting));
        },
    }
}

/// An inbound initiation is accepted where no exchange of our own is pending,
/// and otherwise, unless it is preferred, exactly where its identifier is the
/// smaller of the two; our own is over exactly where it is accepted.
pub proof fn smaller_identifier_prevails(
    before: SessionsModel,
    peer: Seq<char>,
    remote_handshake_id: Seq<u8>,
    passive: bool,
    now: u64,
)
    ensures
        !is_pending(before, peer, now) ==> before.accepts_initiation(
            peer,
            remote_handshake_id,
            passive,
            now,
        ),
        is_pending(before, peer, now) && !passive ==> (before.accepts_initiation(
            peer,
            remote_handshake_id,
            passive,
            now,
        ) <==> crate::bytes::be_value(remote_handshake_id) < crate::bytes::be_value(
            before.pending[peer].handshake_id,
        )),
        is_pending(before, peer, now) ==> (before.after_initiation(
            peer,
            remote_handshake_id,
            passive,
            now,
        ).pending.contains_key(peer) <==> !before.accepts_initiation(
            peer,
            remote_handshake_id,
            passive,
            now,
        )),
        before.after_initiation(peer, remote_handshake_id, passive, now).sessions
            == before.sessions,
        before.after_initiation(peer, remote_handshake_id, passive, now).candidates
            == before.candidates,
{
}

/// A packet reaches one session of one peer: every other session that has not
/// expired stays as it is, and so does every other peer's handshake.
pub proof fn reception_spares_the_other_peers(
    before: SessionsModel,
    session_id: Seq<u8>,
    counter: u64,
    ciphertext: Seq<u8>,
    now: u64,
    slot: Slot,
    peer: Seq<char>,
    decryption: Decryption,
    other: Seq<char>,
    place: Slot,
)
    requires
        before.reception(session_id, counter, ciphertext, now) == Some((slot, peer, decryption)),
        other != peer,
    ensures
        ({
            let after = before.after_reception(session_id, counter, ciphertext, now);
            &&& after.at(place).contains_key(other) <==> before.at(place).contains_key(other)
                && !before.at(place)[other].is_expired(now)
            &&& after.at(place).contains_key(other) ==> after.at(place)[other]
                == before.at(place)[other]
            &&& after.pending.contains_key(other) == before.pending.contains_key(other)
            &&& before.pending.contains_key(other) ==> after.pending[other] == before.pending[other]
        }),
{
}

/// A packet under a peer's active session leaves that session in place, with the
/// packet recorded in it.
pub proof fn reception_records_in_the_session(
    before: SessionsModel,
    counter: u64,
    ciphertext: Seq<u8>,
    now: u64,
    peer: Seq<char>,
)
    requires
        before.ids_distinct(),
        before.sessions.contains_key(peer),
        !before.sessions[peer].is_expired(now),
    ensures
        ({
            let session = before.sessions[peer];
            let after = before.after_reception(session.session_id, counter, ciphertext, now);
            &&& before.reception(session.session_id, counter, ciphertext, now) == Some(
                (Slot::Active, peer, session.decryption(session.session_id, counter, ciphertext)),
            )
            &&& after.sessions.contains_key(peer) && after.sessions[peer] == session.decrypted(
                session.session_id,
                counter,
                ciphertext,
            )
        }),
{
    let session = before.sessions[peer];
    assert(before.holds(Slot::Active, peer, session.session_id));
    live_session_is_found(before, Slot::Active, peer, session.session_id, now);
}

/// A packet of no session that is held, or only of one that has expired, reaches
/// nobody.
pub proof fn unknown_sessions_receive_nothing(
    before: SessionsModel,
    session_id: Seq<u8>,
    counter: u64,
    ciphertext: Seq<u8>,
    now: u64,
)
    requires
        forall|slot: Slot, peer: Seq<char>| #[trigger]
            before.holds(slot, peer, session_id) ==> before.at(slot)[peer].is_expired(now),
    ensures
        before.reception(session_id, counter, ciphertext, now) is None,
{
    let live = before.pruned(now);
    if live.in_use(session_id) {
        let (slot, peer) = choose|slot: Slot, peer: Seq<char>| live.holds(slot, peer, session_id);
        assert(before.holds(slot, peer, session_id));
    }
}

/// Time that has passed is the later time less the earlier one, and none where
/// the clock is behind.
pub proof fn time_passes_forward(from: u64, now: u64)
    ensures
        now >= from ==> elapsed(from, now) == now - from,
        now < from ==> elapsed(from, now) == 0,
{
}

/// A session is live exactly if it is the peer's active one and has not expired.
pub proof fn live_sessions_are_active_and_unexpired(model: SessionsModel, peer: Seq<char>, now: u64)
    ensures
        model.has_live_session(peer, now) <==> model.sessions.contains_key(peer)
            && !model.sessions[peer].is_expired(now),
        model.pruned(now).sessions.contains_key(peer) <==> model.has_live_session(peer, now),
        model.has_live_session(peer, now) ==> model.pruned(now).sessions[peer]
            == model.sessions[peer],
{
}

/// An initiation is kept as it was sent: its packet decodes to its identifier and
/// to a first message that the addressed peer accepts, and it is as old as the
/// moment in which it was made.
pub proof fn initiations_are_kept_as_they_were_sent(
    local_static: Seq<u8>,
    responder_key: Seq<u8>,
    psk: Seq<u8>,
    now: u64,
    pending: PendingModel,
)
    requires
        initiates(local_static, noise::static_public_key(responder_key), psk, now, pending),
    ensures
        pending.created_at == now,
        pending.last_sent == now,
        auth::packet_meaning(pending.packet) matches Some(
            auth::PacketModel::Handshake { kind, handshake_id, message },
        ) && kind == PacketKind::HandshakeInit && handshake_id == pending.handshake_id
            && noise::first_message(
            responder_key,
            noise::static_public_key(local_static),
            psk,
            handshake_id,
            message,
        ) is Accepted,
{
    let id = pending.handshake_id;
    let message = choose|message: Seq<u8>|
        #![trigger auth::handshake_wire(PacketKind::HandshakeInit, id, message)]
        pending.packet == auth::handshake_wire(PacketKind::HandshakeInit, id, message)
            && noise::is_initiation(
            local_static,
            noise::static_public_key(responder_key),
            psk,
            id,
            message,
            pending.initiator,
        );
    auth::handshake_packets_round_trip(PacketKind::HandshakeInit, id, message);
    noise::expected_initiation_is_accepted(
        local_static,
        responder_key,
        psk,
        psk,
        id,
        message,
        pending.initiator,
    );
}

/// What a session makes of a packet is reported as it is: a message with its peer,
/// and each refusal by its own error.
pub proof fn receptions_are_reported_as_they_are(
    result: Result<Option<DecryptedTransport>, NoiseError>,
    slot: Slot,
    peer: Seq<char>,
    decryption: Decryption,
)
    requires
        reports_reception(result, Some((slot, peer, decryption))),
    ensures
        decryption matches Decryption::Message(msg_type, payload) ==> (result matches Ok(Some(d))
            && d.peer_name@ == peer && d.msg_type == msg_type && d.payload@ == payload),
        decryption is Replay ==> (result matches Err(error) && error is Replay),
        decryption is WrongSession ==> (result matches Err(error) && error is WrongSession),
        decryption is Unauthentic ==> (result matches Err(error) && error is Snow),
        decryption is TooShort || decryption is Unreadable ==> (result matches Err(error)
            && error is MalformedTransport),
{
}

/// Discarding a peer leaves nothing of it: no session, no candidate, no exchange
/// and no answer.
pub proof fn discarding_leaves_nothing(before: SessionsModel, peer: Seq<char>, slot: Slot)
    ensures
        !before.invalidated(peer).at(slot).contains_key(peer),
        !before.invalidated(peer).pending.contains_key(peer),
        !before.invalidated(peer).cache.contains_key(peer),
{
}

/// The first authentic message under a candidate makes it the peer's active
/// session. The session that it replaces, unless that has expired, is kept for
/// what is still on its way, and the exchange is over.
pub proof fn promoted_candidate_takes_over(
    before: SessionsModel,
    counter: u64,
    ciphertext: Seq<u8>,
    now: u64,
    peer: Seq<char>,
    msg_type: MsgType,
    payload: Seq<u8>,
)
    requires
        before.ids_distinct(),
        before.candidates.contains_key(peer),
        !before.candidates[peer].is_expired(now),
        before.candidates[peer].decryption(
            before.candidates[peer].session_id,
            counter,
            ciphertext,
        ) == Decryption::Message(msg_type, payload),
    ensures
        ({
            let candidate = before.candidates[peer];
            let id = candidate.session_id;
            let after = before.after_reception(id, counter, ciphertext, now);
            &&& before.reception(id, counter, ciphertext, now) == Some(
                (Slot::Candidate, peer, Decryption::Message(msg_type, payload)),
            )
            &&& after.sessions.contains_key(peer) && after.sessions[peer] == candidate.decrypted(
                id,
                counter,
                ciphertext,
            )
            &&& before.has_live_session(peer, now) ==> after.previous.contains_key(peer)
                && after.previous[peer] == before.sessions[peer]
            &&& !after.candidates.contains_key(peer)
            &&& !after.pending.contains_key(peer)
            &&& !after.cache.contains_key(peer)
        }),
{
    let id = before.candidates[peer].session_id;
    assert(before.holds(Slot::Candidate, peer, id));
    live_session_is_found(before, Slot::Candidate, peer, id, now);
}

} // verus!

//! Shared session-maintenance scheduling for platform adapters.
//!
//! The CLI and Network Extension own different packet and socket APIs, but
//! they must make identical decisions about handshake retries, authenticated
//! keepalives, stale-session invalidation, and UDP NAT rebinding. This module
//! keeps that policy next to the protocol engine while leaving the actual
//! socket rebind and frame delivery to the platform adapter.

use vstd::prelude::*;

use crate::auth;
use crate::config::{Config, TransportConfig};
use crate::engine::{Engine, EngineError, EngineModel, EngineOutput};
use crate::names::NameMap;
use crate::state::PeerStats;

verus! {

/// Nanoseconds in a second.
pub const SECOND: u64 = 1_000_000_000;

#[derive(Clone, Copy, Debug, Eq, PartialEq, Structural)]
pub enum ScheduledOperation {
    HandshakeRetry,
    SessionRecovery,
    Keepalive,
}

impl ScheduledOperation {
    pub open spec fn text(self) -> Seq<char> {
        match self {
            ScheduledOperation::HandshakeRetry => "handshake retry"@,
            ScheduledOperation::SessionRecovery => "session recovery"@,
            ScheduledOperation::Keepalive => "keepalive"@,
        }
    }

    pub fn label(self) -> (label: &'static str)
        ensures
            label@ == self.text(),
    {
        match self {
            ScheduledOperation::HandshakeRetry => "handshake retry",
            ScheduledOperation::SessionRecovery => "session recovery",
            ScheduledOperation::Keepalive => "keepalive",
        }
    }
}

#[derive(Debug)]
pub struct ScheduledOutput {
    pub operation: ScheduledOperation,
    pub output: EngineOutput,
}

#[derive(Clone, Debug, Eq, PartialEq)]
pub enum SchedulerEvent {
    Recovery {
        peer_name: String,
        silence: u64,
        rebind_udp: bool,
        rebind_succeeded: bool,
        had_stale_state: bool,
    },
}

#[derive(Debug)]
pub struct SchedulerError {
    pub peer_name: String,
    pub operation: ScheduledOperation,
    pub error: EngineError,
}

#[derive(Debug)]
pub struct SchedulerTick {
    pub outputs: Vec<ScheduledOutput>,
    pub events: Vec<SchedulerEvent>,
    pub errors: Vec<SchedulerError>,
}

/// A rebind of the shared UDP socket that a tick asks for, on account of a peer
/// that has been silent for so long.
#[derive(Clone, Debug, Eq, PartialEq)]
pub struct RebindRequest {
    pub peer_name: String,
    pub silence: u64,
}

/// When a silent peer's session is given up, and whether the shared UDP socket
/// is then rebound.
#[derive(Clone, Copy, Debug, Eq, PartialEq, Structural)]
pub struct RecoveryPolicy {
    pub timeout: u64,
    pub rebind_udp: bool,
}

/// Seconds as nanoseconds, up to the longest span.
pub open spec fn nanoseconds(seconds: u64) -> u64 {
    if seconds * SECOND > u64::MAX {
        u64::MAX
    } else {
        (seconds * SECOND) as u64
    }
}

fn from_seconds(seconds: u64) -> (span: u64)
    ensures
        span == nanoseconds(seconds),
{
    match seconds.checked_mul(SECOND) {
        Some(span) => span,
        None => u64::MAX,
    }
}

/// The policy of a peer: a UDP peer's rebind takes precedence over the
/// session timeout.
pub open spec fn policy(
    transport: TransportConfig,
    udp_rebind_after: u16,
    session_timeout: u64,
) -> Option<RecoveryPolicy> {
    if transport == TransportConfig::Udp && udp_rebind_after > 0 {
        Some(RecoveryPolicy { timeout: nanoseconds(udp_rebind_after as u64), rebind_udp: true })
    } else if session_timeout > 0 {
        Some(RecoveryPolicy { timeout: nanoseconds(session_timeout), rebind_udp: false })
    } else {
        None
    }
}

pub fn recovery_policy(
    transport: TransportConfig,
    udp_rebind_after: u16,
    session_timeout: u64,
) -> (chosen: Option<RecoveryPolicy>)
    ensures
        chosen == policy(transport, udp_rebind_after, session_timeout),
{
    if transport == TransportConfig::Udp && udp_rebind_after > 0 {
        return Some(
            RecoveryPolicy { timeout: from_seconds(udp_rebind_after as u64), rebind_udp: true },
        );
    }
    if session_timeout > 0 {
        Some(RecoveryPolicy { timeout: from_seconds(session_timeout), rebind_udp: false })
    } else {
        None
    }
}

/// Whether a peer has been silent for the timeout, counted from its last
/// packet or the last attempt to recover it, whichever is later.
pub open spec fn is_recovery_due(
    now: u64,
    last_seen: u64,
    last_recovery_attempt: Option<u64>,
    timeout: u64,
) -> bool {
    let baseline = match last_recovery_attempt {
        Some(attempt) => if attempt > last_seen {
            attempt
        } else {
            last_seen
        },
        None => last_seen,
    };
    crate::sessions::elapsed(baseline, now) >= timeout
}

pub fn recovery_due(
    now: u64,
    last_seen: u64,
    last_recovery_attempt: Option<u64>,
    timeout: u64,
) -> (due: bool)
    ensures
        due == is_recovery_due(now, last_seen, last_recovery_attempt, timeout),
{
    let health_baseline: u64 = match last_recovery_attempt {
        Some(attempt) => if attempt > last_seen {
            attempt
        } else {
            last_seen
        },
        None => last_seen,
    };
    now.saturating_sub(health_baseline) >= timeout
}

/// Whether a keepalive is sent: always after a rebind, never without an
/// interval, and otherwise when the interval has passed; the first one is sent
/// at once where recovery depends on it.
pub open spec fn sends_keepalive(
    now: u64,
    last_sent: Option<u64>,
    interval: u64,
    recovery_enabled: bool,
    rebound: bool,
) -> bool {
    rebound || (interval != 0 && match last_sent {
        Some(sent) => crate::sessions::elapsed(sent, now) >= interval,
        None => recovery_enabled,
    })
}

pub fn keepalive_should_send(
    now: u64,
    last_sent: Option<u64>,
    interval: u64,
    recovery_enabled: bool,
    rebound: bool,
) -> (send: bool)
    ensures
        send == sends_keepalive(now, last_sent, interval, recovery_enabled, rebound),
{
    if rebound {
        return true;
    }
    if interval == 0 {
        return false;
    }
    match last_sent {
        Some(sent) => now.saturating_sub(sent) >= interval,
        None => recovery_enabled,
    }
}

/// Whether a recovery that includes a rebind was reported as the rebind went:
/// it was asked for the event's peer and silence, and answered what the event
/// says.
pub open spec fn reports_rebind<F: FnOnce(&str, u64) -> bool>(
    rebind_udp: F,
    event: SchedulerEvent,
) -> bool {
    match event {
        SchedulerEvent::Recovery { peer_name, silence, rebind_udp: rebind, rebind_succeeded, .. } =>
        rebind ==> exists|name: &str|
            name@ == peer_name@ && #[trigger] call_ensures(
                rebind_udp,
                (name, silence),
                rebind_succeeded,
            ),
    }
}

/// Whether a rebind that was asked for can be answered like this.
spec fn answers<F: FnOnce(&str, u64) -> bool>(
    rebind_udp: F,
    asked: RebindRequest,
    succeeded: bool,
) -> bool {
    exists|name: &str|
        name@ == asked.peer_name@ && #[trigger] call_ensures(
            rebind_udp,
            (name, asked.silence),
            succeeded,
        )
}

/// Whether an event says of a rebind that it went like this, and that none
/// succeeded where none was part of the recovery.
pub open spec fn rebind_is(event: SchedulerEvent, succeeded: bool) -> bool {
    match event {
        SchedulerEvent::Recovery { rebind_udp, rebind_succeeded, .. } => rebind_succeeded == (
        rebind_udp && succeeded),
    }
}

struct ScheduledPeer {
    name: String,
    persistent_keepalive: u64,
    recovery: Option<RecoveryPolicy>,
}

/// A scheduled peer as plain values.
pub struct ScheduledPeerModel {
    pub name: Seq<char>,
    pub persistent_keepalive: u64,
    pub recovery: Option<RecoveryPolicy>,
}

impl View for ScheduledPeer {
    type V = ScheduledPeerModel;

    closed spec fn view(&self) -> ScheduledPeerModel {
        ScheduledPeerModel {
            name: self.name@,
            persistent_keepalive: self.persistent_keepalive,
            recovery: self.recovery,
        }
    }
}

/// A scheduler as plain values.
pub struct SchedulerModel {
    pub peers: Seq<ScheduledPeerModel>,
    pub last_sent: Map<Seq<char>, u64>,
    pub last_udp_rebind_attempt: Option<u64>,
    pub last_session_recovery_attempt: Map<Seq<char>, u64>,
}

/// The value that a map holds for a name.
pub open spec fn value_of(map: Map<Seq<char>, u64>, name: Seq<char>) -> Option<u64> {
    if map.contains_key(name) {
        Some(map[name])
    } else {
        None
    }
}

/// One engine operation of a tick.
pub struct TickStep {
    pub peer: Seq<char>,
    pub operation: ScheduledOperation,
    pub before: EngineModel,
    pub result: Result<EngineOutput, EngineError>,
    pub after: EngineModel,
}

/// An error of a tick as plain values.
pub struct ErrorModel {
    pub peer: Seq<char>,
    pub operation: ScheduledOperation,
    pub error: EngineError,
}

impl View for SchedulerError {
    type V = ErrorModel;

    open spec fn view(&self) -> ErrorModel {
        ErrorModel { peer: self.peer_name@, operation: self.operation, error: self.error }
    }
}

/// The outputs that the steps of a tick gave, in their order.
pub open spec fn outputs_of(steps: Seq<TickStep>) -> Seq<ScheduledOutput>
    decreases steps.len(),
{
    if steps.len() == 0 {
        seq![]
    } else {
        let before = outputs_of(steps.drop_last());
        match steps.last().result {
            Ok(output) => before.push(
                ScheduledOutput { operation: steps.last().operation, output },
            ),
            Err(_) => before,
        }
    }
}

/// The errors that the steps of a tick ended in, in their order.
pub open spec fn errors_of(steps: Seq<TickStep>) -> Seq<ErrorModel>
    decreases steps.len(),
{
    if steps.len() == 0 {
        seq![]
    } else {
        let before = errors_of(steps.drop_last());
        match steps.last().result {
            Ok(_) => before,
            Err(error) => before.push(
                ErrorModel {
                    peer: steps.last().peer,
                    operation: steps.last().operation,
                    error,
                },
            ),
        }
    }
}

/// Whether a step retries a peer's pending handshake.
pub open spec fn is_retry(step: TickStep, peer: Seq<char>, now: u64) -> bool {
    &&& step.peer == peer && step.operation == ScheduledOperation::HandshakeRetry
    &&& step.before.sessions.pending.contains_key(peer)
    &&& step.before.initiates_handshake(peer, now, step.result, step.after)
}

/// Whether `steps` lead from `start` to `end` and retry, of the first `n`
/// peers, exactly those whose handshakes are pending.
pub open spec fn retries(
    peers: Seq<ScheduledPeerModel>,
    n: int,
    now: u64,
    start: EngineModel,
    steps: Seq<TickStep>,
    end: EngineModel,
) -> bool
    decreases n,
{
    if n <= 0 {
        steps.len() == 0 && end == start
    } else {
        let name = peers[n - 1].name;
        ||| {
            &&& steps.len() > 0
            &&& is_retry(steps.last(), name, now)
            &&& end == steps.last().after
            &&& retries(peers, n - 1, now, start, steps.drop_last(), steps.last().before)
        }
        ||| {
            &&& !end.sessions.pending.contains_key(name)
            &&& retries(peers, n - 1, now, start, steps, end)
        }
    }
}

impl SchedulerModel {
    /// Whether peer `i` is due to be recovered: it has a policy, a keepalive
    /// was sent to it, its session is active, and it has been silent too long.
    pub open spec fn recovery_due_for(self, engine: EngineModel, i: int, now: u64) -> bool {
        let peer = self.peers[i];
        let stats = crate::state::stats_of(engine.peers, peer.name);
        &&& peer.recovery is Some
        &&& self.last_sent.contains_key(peer.name)
        &&& engine.sessions.sessions.contains_key(peer.name)
        &&& !engine.sessions.sessions[peer.name].is_expired(now)
        &&& stats.last_seen is Some
        &&& is_recovery_due(
            now,
            stats.last_seen->0,
            if peer.recovery->0.rebind_udp {
                self.last_udp_rebind_attempt
            } else {
                value_of(self.last_session_recovery_attempt, peer.name)
            },
            peer.recovery->0.timeout,
        )
    }

    /// Whether peer `i` is the first that is due to be recovered.
    pub open spec fn recovers(self, engine: EngineModel, i: int, now: u64) -> bool {
        0 <= i < self.peers.len() && self.recovery_due_for(engine, i, now) && forall|j: int|
            #![trigger self.peers[j]]
            0 <= j < i ==> !self.recovery_due_for(engine, j, now)
    }

    /// Whether no peer is due to be recovered.
    pub open spec fn recovers_none(self, engine: EngineModel, now: u64) -> bool {
        forall|j: int|
            #![trigger self.peers[j]]
            0 <= j < self.peers.len() ==> !self.recovery_due_for(engine, j, now)
    }

    /// For how long peer `i` has been silent.
    pub open spec fn silence(self, engine: EngineModel, i: int, now: u64) -> u64 {
        crate::sessions::elapsed(
            crate::state::stats_of(engine.peers, self.peers[i].name).last_seen->0,
            now,
        ) as u64
    }

    /// Whether peer `i` is the first that is due to be recovered, and its
    /// recovery includes a rebind of the UDP socket.
    pub open spec fn rebinds_for(self, engine: EngineModel, i: int, now: u64) -> bool {
        self.recovers(engine, i, now) && self.peers[i].recovery->0.rebind_udp
    }

    /// Whether a tick asks for exactly this rebind.
    pub open spec fn requests(
        self,
        engine: EngineModel,
        now: u64,
        request: Option<RebindRequest>,
    ) -> bool {
        match request {
            Some(asked) => exists|i: int| #[trigger]
                self.rebinds_for(engine, i, now) && asked.peer_name@ == self.peers[i].name
                    && asked.silence == self.silence(engine, i, now),
            None => forall|i: int| !#[trigger] self.rebinds_for(engine, i, now),
        }
    }

    /// Whether a tick reports the recovery of the first peer that is due, and
    /// nothing where none is.
    pub open spec fn reports(
        self,
        events: Seq<SchedulerEvent>,
        engine: EngineModel,
        now: u64,
    ) -> bool {
        if events.len() == 0 {
            self.recovers_none(engine, now)
        } else {
            events.len() == 1 && exists|i: int| #[trigger]
                self.recovers(engine, i, now) && self.reports_recovery(events[0], engine, i, now)
        }
    }

    /// The scheduler after it has tried to recover peer `i`.
    pub open spec fn attempted(self, i: int, now: u64) -> SchedulerModel {
        let peer = self.peers[i];
        if peer.recovery->0.rebind_udp {
            SchedulerModel { last_udp_rebind_attempt: Some(now), ..self }
        } else {
            SchedulerModel {
                last_session_recovery_attempt: self.last_session_recovery_attempt.insert(
                    peer.name,
                    now,
                ),
                ..self
            }
        }
    }

    /// Whether a step recovers peer `i`: its state is discarded and a fresh
    /// handshake started.
    pub open spec fn is_recovery(self, step: TickStep, i: int, now: u64) -> bool {
        let name = self.peers[i].name;
        &&& step.peer == name && step.operation == ScheduledOperation::SessionRecovery
        &&& step.before.with_sessions(
            step.before.sessions.invalidated(name),
        ).initiates_handshake(name, now, step.result, step.after)
    }

    /// Whether an event reports the recovery of peer `i`.
    pub open spec fn reports_recovery(
        self,
        event: SchedulerEvent,
        engine: EngineModel,
        i: int,
        now: u64,
    ) -> bool {
        let name = self.peers[i].name;
        event matches SchedulerEvent::Recovery {
            peer_name,
            silence,
            rebind_udp,
            rebind_succeeded,
            had_stale_state,
        } && {
            &&& peer_name@ == name
            &&& silence == self.silence(engine, i, now)
            &&& rebind_udp == self.peers[i].recovery->0.rebind_udp
            &&& rebind_succeeded ==> rebind_udp
            &&& had_stale_state
        }
    }

    /// Whether a keepalive to peer `i` is sent.
    pub open spec fn keepalive_due(self, i: int, now: u64, rebound: bool) -> bool {
        let peer = self.peers[i];
        sends_keepalive(
            now,
            value_of(self.last_sent, peer.name),
            peer.persistent_keepalive,
            peer.recovery is Some,
            rebound,
        )
    }

    /// The scheduler after peer `i`'s keepalive was sent. A peer that recovery
    /// depends on and that has no session keeps being tried.
    pub open spec fn after_keepalive(self, engine: EngineModel, i: int, now: u64) -> SchedulerModel {
        let peer = self.peers[i];
        let active = engine.sessions.sessions.contains_key(peer.name)
            && !engine.sessions.sessions[peer.name].is_expired(now);
        if active || peer.recovery is None {
            SchedulerModel { last_sent: self.last_sent.insert(peer.name, now), ..self }
        } else {
            self
        }
    }

    /// The scheduler after peer `i`'s keepalive was not due: its interval
    /// starts now if it had not started yet.
    pub open spec fn after_waiting(self, i: int, now: u64) -> SchedulerModel {
        let peer = self.peers[i];
        if peer.persistent_keepalive != 0 && !self.last_sent.contains_key(peer.name) {
            SchedulerModel { last_sent: self.last_sent.insert(peer.name, now), ..self }
        } else {
            self
        }
    }

    /// Whether a step sends peer `i` its keepalive: a probe where recovery
    /// depends on the answer, and an empty one otherwise.
    pub open spec fn is_keepalive(self, step: TickStep, i: int, now: u64) -> bool {
        let peer = self.peers[i];
        &&& step.peer == peer.name && step.operation == ScheduledOperation::Keepalive
        &&& step.before.creates_keepalive(
            peer.name,
            if peer.recovery is Some {
                auth::KEEPALIVE_PROBE_PAYLOAD@
            } else {
                Seq::empty()
            },
            now,
            step.result,
            step.after,
        )
    }
}

/// Whether `steps` lead from `start` to `end`, and the scheduler from `from` to
/// `to`, and send keepalives to those of the first `n` peers to which one is
/// due.
pub open spec fn keepalives(
    n: int,
    now: u64,
    rebound: bool,
    from: SchedulerModel,
    start: EngineModel,
    steps: Seq<TickStep>,
    to: SchedulerModel,
    end: EngineModel,
) -> bool
    decreases n,
{
    if n <= 0 {
        steps.len() == 0 && end == start && to == from
    } else {
        exists|mid: SchedulerModel|
            #![trigger mid.keepalive_due(n - 1, now, rebound)]
            if mid.keepalive_due(n - 1, now, rebound) {
                &&& steps.len() > 0
                &&& mid.is_keepalive(steps.last(), n - 1, now)
                &&& end == steps.last().after
                &&& to == mid.after_keepalive(steps.last().before, n - 1, now)
                &&& keepalives(
                    n - 1,
                    now,
                    rebound,
                    from,
                    start,
                    steps.drop_last(),
                    mid,
                    steps.last().before,
                )
            } else {
                &&& to == mid.after_waiting(n - 1, now)
                &&& keepalives(n - 1, now, rebound, from, start, steps, mid, end)
            }
    }
}

/// How a tick went: the steps of its three parts, and the states between them.
pub struct TickRun {
    pub retry_steps: Seq<TickStep>,
    pub retried: EngineModel,
    pub recovery_steps: Seq<TickStep>,
    pub recovered: EngineModel,
    pub attempted: SchedulerModel,
    pub keepalive_steps: Seq<TickStep>,
}

/// Whether the events of a tick say that the UDP socket was rebound.
pub open spec fn rebound(events: Seq<SchedulerEvent>) -> bool {
    events.len() > 0 && match events[0] {
        SchedulerEvent::Recovery { rebind_succeeded, .. } => rebind_succeeded,
    }
}

impl TickRun {
    /// Whether the first peer that is due, if any is, was recovered.
    pub open spec fn recovers(
        self,
        from: SchedulerModel,
        now: u64,
        events: Seq<SchedulerEvent>,
    ) -> bool {
        ||| {
            &&& events.len() == 0
            &&& from.recovers_none(self.retried, now)
            &&& self.recovery_steps.len() == 0
            &&& self.recovered == self.retried
            &&& self.attempted == from
        }
        ||| {
            &&& events.len() == 1
            &&& self.recovery_steps.len() == 1
            &&& self.recovery_steps[0].before == self.retried
            &&& self.recovery_steps[0].after == self.recovered
            &&& exists|i: int| #[trigger]
                from.recovers(self.retried, i, now) && from.is_recovery(
                    self.recovery_steps[0],
                    i,
                    now,
                ) && from.reports_recovery(events[0], self.retried, i, now) && self.attempted
                    == from.attempted(i, now)
        }
    }

    /// Whether this is how a tick led from one state to the other: pending
    /// handshakes are retried, at most one peer is recovered, keepalives are
    /// sent, and the tick reports exactly what these steps gave.
    pub open spec fn explains(
        self,
        from: SchedulerModel,
        start: EngineModel,
        now: u64,
        tick: SchedulerTick,
        to: SchedulerModel,
        end: EngineModel,
    ) -> bool {
        let n = from.peers.len() as int;
        let steps = self.retry_steps + self.recovery_steps + self.keepalive_steps;
        &&& retries(from.peers, n, now, start, self.retry_steps, self.retried)
        &&& self.recovers(from, now, tick.events@)
        &&& keepalives(
            n,
            now,
            rebound(tick.events@),
            self.attempted,
            self.recovered,
            self.keepalive_steps,
            to,
            end,
        )
        &&& tick.outputs@ == outputs_of(steps)
        &&& tick.errors@.map_values(|error: SchedulerError| error@) == errors_of(steps)
    }
}

/// Mutable timing state for one running [`Engine`].
///
/// Create a fresh scheduler whenever the engine starts. Reusing one after a
/// stop would carry health timestamps from the erased cryptographic session.
pub struct EngineScheduler {
    peers: Vec<ScheduledPeer>,
    last_sent: NameMap<u64>,
    last_udp_rebind_attempt: Option<u64>,
    last_session_recovery_attempt: NameMap<u64>,
}

impl View for EngineScheduler {
    type V = SchedulerModel;

    closed spec fn view(&self) -> SchedulerModel {
        SchedulerModel {
            peers: self.peers@.map_values(|peer: ScheduledPeer| peer@),
            last_sent: self.last_sent@,
            last_udp_rebind_attempt: self.last_udp_rebind_attempt,
            last_session_recovery_attempt: self.last_session_recovery_attempt@,
        }
    }
}

/// A tick whose pending handshakes have been retried, and which waits for the
/// rebind that it asks for, if it does.
pub struct StartedTick {
    tick: SchedulerTick,
    due: Option<(usize, RecoveryPolicy, u64)>,
    began: Ghost<EngineModel>,
    steps: Ghost<Seq<TickStep>>,
}

impl StartedTick {
    /// The engine as the tick found it.
    pub closed spec fn start(self) -> EngineModel {
        self.began@
    }

    /// Whether the tick was started by this scheduler at this time, and left
    /// the engine like this.
    pub closed spec fn leads_to(self, scheduler: SchedulerModel, now: u64, engine: EngineModel) -> bool {
        &&& retries(
            scheduler.peers,
            scheduler.peers.len() as int,
            now,
            self.began@,
            self.steps@,
            engine,
        )
        &&& self.tick.events@.len() == 0
        &&& self.tick.outputs@ == outputs_of(self.steps@)
        &&& self.tick.errors@.map_values(|error: SchedulerError| error@) == errors_of(self.steps@)
        &&& is_due(scheduler, engine, now, self.due)
    }
}

/// Whether this is the first peer that is due to be recovered, with its policy
/// and for how long it has been silent.
spec fn is_due(
    scheduler: SchedulerModel,
    engine: EngineModel,
    now: u64,
    due: Option<(usize, RecoveryPolicy, u64)>,
) -> bool {
    match due {
        Some((i, policy, silence)) => scheduler.recovers(engine, i as int, now)
            && scheduler.peers[i as int].recovery == Some(policy) && silence == scheduler.silence(
            engine,
            i as int,
            now,
        ),
        None => scheduler.recovers_none(engine, now),
    }
}

/// The peers of a configuration as they are scheduled.
pub open spec fn scheduled_peers(config: Config) -> Seq<ScheduledPeerModel> {
    config.peer@.map_values(
        |peer: crate::config::PeerConfig|
            ScheduledPeerModel {
                name: peer.name@,
                persistent_keepalive: nanoseconds(peer.persistent_keepalive as u64),
                recovery: policy(
                    config.interface.transport,
                    peer.udp_rebind_after,
                    peer.session_timeout_seconds(config.interface.transport) as u64,
                ),
            },
    )
}

/// Notes what an engine operation gave.
fn push_engine_output(
    tick: &mut SchedulerTick,
    peer_name: &str,
    operation: ScheduledOperation,
    result: Result<EngineOutput, EngineError>,
    Ghost(steps): Ghost<Seq<TickStep>>,
    Ghost(step): Ghost<TickStep>,
)
    requires
        step.peer == peer_name@,
        step.operation == operation,
        step.result == result,
        old(tick).outputs@ == outputs_of(steps),
        old(tick).errors@.map_values(|error: SchedulerError| error@) == errors_of(steps),
    ensures
        final(tick).outputs@ == outputs_of(steps.push(step)),
        final(tick).errors@.map_values(|error: SchedulerError| error@) == errors_of(
            steps.push(step),
        ),
        final(tick).events@ == old(tick).events@,
{
    let ghost errors = tick.errors@;
    assert(steps.push(step).drop_last() =~= steps);
    match result {
        Ok(output) => {
            tick.outputs.push(ScheduledOutput { operation, output });
        },
        Err(error) => {
            tick.errors.push(SchedulerError { peer_name: peer_name.to_owned(), operation, error });
            assert(tick.errors@.map_values(|error: SchedulerError| error@) =~= errors.map_values(
                |error: SchedulerError| error@,
            ).push(tick.errors@.last()@));
        },
    }
}

impl EngineScheduler {
    pub fn new(config: &Config) -> (scheduler: EngineScheduler)
        ensures
            scheduler@ == (SchedulerModel {
                peers: scheduled_peers(*config),
                last_sent: Map::empty(),
                last_udp_rebind_attempt: None,
                last_session_recovery_attempt: Map::empty(),
            }),
    {
        let mut peers: Vec<ScheduledPeer> = Vec::new();
        let mut i: usize = 0;
        while i < config.peer.len()
            invariant
                i <= config.peer.len(),
                peers@.len() == i,
                forall|j: int|
                    #![trigger peers@[j]]
                    0 <= j < i ==> peers@[j]@ == scheduled_peers(*config)[j],
            decreases config.peer.len() - i,
        {
            let peer = &config.peer[i];
            peers.push(
                ScheduledPeer {
                    name: peer.name.clone(),
                    persistent_keepalive: from_seconds(peer.persistent_keepalive as u64),
                    recovery: recovery_policy(
                        config.interface.transport,
                        peer.udp_rebind_after,
                        peer.effective_session_timeout(config.interface.transport),
                    ),
                },
            );
            i = i + 1;
        }
        let scheduler = EngineScheduler {
            peers,
            last_sent: NameMap::new(),
            last_udp_rebind_attempt: None,
            last_session_recovery_attempt: NameMap::new(),
        };
        assert(scheduler@.peers =~= scheduled_peers(*config));
        scheduler
    }

    /// Run one maintenance tick.
    ///
    /// `rebind_udp` must synchronously switch the adapter's shared UDP socket
    /// to a fresh local port and return whether that switch succeeded. The
    /// scheduler invokes it before emitting the replacement handshake so the
    /// handshake leaves through the new NAT mapping. It is given the name of
    /// the silent peer and for how long the peer has been silent. It is used
    /// up by its call, and called only for the peer whose recovery the tick
    /// reports.
    pub fn tick<F: FnOnce(&str, u64) -> bool>(
        &mut self,
        engine: &mut Engine,
        now: u64,
        rebind_udp: F,
    ) -> (tick: SchedulerTick)
        requires
            old(engine).wf(),
            forall|i: int, name: &str|
                #![trigger old(self)@.rebinds_for(old(engine)@, i, now), name@]
                old(self)@.rebinds_for(old(engine)@, i, now) && name@ == old(self)@.peers[i].name
                    ==> call_requires(
                    rebind_udp,
                    (name, old(self)@.silence(old(engine)@, i, now)),
                ),
        ensures
            old(self)@.reports(tick.events@, old(engine)@, now),
            tick.events@.len() == 1 ==> reports_rebind(rebind_udp, tick.events@[0]),
            final(engine).wf(),
            exists|run: TickRun| #[trigger]
                run.explains(
                    old(self)@,
                    old(engine)@,
                    now,
                    tick,
                    final(self)@,
                    final(engine)@,
                ),
    {
        let ghost from = self@;
        let ghost start = engine@;
        let (started, request) = self.start_tick(engine, now);
        let rebind_succeeded = match &request {
            Some(asked) => {
                let name = asked.peer_name.as_str();
                let succeeded = rebind_udp(name, asked.silence);
                assert(answers(rebind_udp, *asked, succeeded)) by {
                    assert(name@ == asked.peer_name@);
                }
                succeeded
            },
            None => false,
        };
        let tick = self.finish_tick(engine, now, started, rebind_succeeded);
        proof {
            if tick.events@.len() == 1 && tick.events@[0]->rebind_udp {
                lemma_request_is_reported(from, start, now, request, tick.events@);
                let name = choose|name: &str|
                    name@ == request->0.peer_name@ && #[trigger] call_ensures(
                        rebind_udp,
                        (name, request->0.silence),
                        rebind_succeeded,
                    );
                assert(call_ensures(
                    rebind_udp,
                    (name, tick.events@[0]->silence),
                    tick.events@[0]->rebind_succeeded,
                ));
            }
        }
        tick
    }

    /// The first part of a tick: pending handshakes are retried, and the first
    /// peer that is due to be recovered is found. What comes back with it is
    /// the rebind that has to be tried before the tick is finished.
    pub fn start_tick(&self, engine: &mut Engine, now: u64) -> (started: (
        StartedTick,
        Option<RebindRequest>,
    ))
        requires
            old(engine).wf(),
        ensures
            final(engine).wf(),
            started.0.start() == old(engine)@,
            started.0.leads_to(self@, now, final(engine)@),
            self@.requests(old(engine)@, now, started.1),
    {
        let ghost start = engine@;
        let mut tick = SchedulerTick { outputs: Vec::new(), events: Vec::new(), errors: Vec::new() };
        let Ghost(steps) = self.retry_pending(engine, now, &mut tick);
        let due = self.due_peer(engine, now);
        proof {
            lemma_retries_keep_recovery(self@, now, start, steps, engine@);
        }
        let request = match due {
            Some((i, policy, silence)) => {
                assert(self@.peers[i as int] == self.peers@[i as int]@);
                if policy.rebind_udp {
                    assert(self@.rebinds_for(start, i as int, now));
                    Some(RebindRequest { peer_name: self.peers[i].name.clone(), silence })
                } else {
                    None
                }
            },
            None => None,
        };
        (StartedTick { tick, due, began: Ghost(start), steps: Ghost(steps) }, request)
    }

    /// The rest of a tick, after the rebind that it asked for was tried: at
    /// most one peer is recovered, and keepalives are sent. Where it asked for
    /// no rebind, `rebind_succeeded` counts for nothing.
    pub fn finish_tick(
        &mut self,
        engine: &mut Engine,
        now: u64,
        started: StartedTick,
        rebind_succeeded: bool,
    ) -> (tick: SchedulerTick)
        requires
            old(engine).wf(),
            started.leads_to(old(self)@, now, old(engine)@),
        ensures
            final(engine).wf(),
            old(self)@.reports(tick.events@, started.start(), now),
            tick.events@.len() == 1 ==> rebind_is(tick.events@[0], rebind_succeeded),
            exists|run: TickRun| #[trigger]
                run.explains(
                    old(self)@,
                    started.start(),
                    now,
                    tick,
                    final(self)@,
                    final(engine)@,
                ),
    {
        let ghost from = self@;
        let ghost start = started.start();
        let ghost retry_steps = started.steps@;
        let ghost retried = engine@;
        let mut tick = started.tick;
        let Ghost(recovery_steps) = self.recover_one(
            engine,
            now,
            started.due,
            rebind_succeeded,
            &mut tick,
            Ghost(retry_steps),
        );
        let ghost recovered = engine@;
        let ghost attempted = self@;
        let rebound = tick_rebound(&tick);
        let Ghost(keepalive_steps) = self.send_keepalives(
            engine,
            now,
            rebound,
            &mut tick,
            Ghost(retry_steps + recovery_steps),
        );
        proof {
            let run = TickRun {
                retry_steps,
                retried,
                recovery_steps,
                recovered,
                attempted,
                keepalive_steps,
            };
            assert(run.explains(from, start, now, tick, self@, engine@));
            assert(from.reports(tick.events@, retried, now));
            lemma_retries_keep_recovery(from, now, start, retry_steps, retried);
        }
        tick
    }

    /// Retry the exact pending msg1 even if the packet that triggered it was
    /// the only IP packet sent by the operating system.
    fn retry_pending(&self, engine: &mut Engine, now: u64, tick: &mut SchedulerTick) -> (steps:
        Ghost<Seq<TickStep>>)
        requires
            old(engine).wf(),
            old(tick).outputs@.len() == 0,
            old(tick).errors@.len() == 0,
            old(tick).events@.len() == 0,
        ensures
            final(engine).wf(),
            retries(
                self@.peers,
                self@.peers.len() as int,
                now,
                old(engine)@,
                steps@,
                final(engine)@,
            ),
            final(tick).outputs@ == outputs_of(steps@),
            final(tick).errors@.map_values(|error: SchedulerError| error@) == errors_of(steps@),
            final(tick).events@.len() == 0,
    {
        let ghost start = engine@;
        let ghost mut steps: Seq<TickStep> = seq![];
        assert(tick.errors@.map_values(|error: SchedulerError| error@) =~= errors_of(steps));
        assert(tick.outputs@ =~= outputs_of(steps));
        let mut i: usize = 0;
        while i < self.peers.len()
            invariant
                i <= self.peers.len(),
                engine.wf(),
                retries(self@.peers, i as int, now, start, steps, engine@),
                tick.outputs@ == outputs_of(steps),
                tick.errors@.map_values(|error: SchedulerError| error@) == errors_of(steps),
                tick.events@.len() == 0,
            decreases self.peers.len() - i,
        {
            let name = self.peers[i].name.as_str();
            assert(self@.peers[i as int] == self.peers@[i as int]@);
            if engine.has_pending_handshake(name) {
                let ghost before = engine@;
                let result = engine.initiate_handshake(name, now);
                let ghost step = TickStep {
                    peer: name@,
                    operation: ScheduledOperation::HandshakeRetry,
                    before,
                    result,
                    after: engine@,
                };
                push_engine_output(
                    tick,
                    name,
                    ScheduledOperation::HandshakeRetry,
                    result,
                    Ghost(steps),
                    Ghost(step),
                );
                proof {
                    assert(steps.push(step).drop_last() =~= steps);
                    steps = steps.push(step);
                    assert(is_retry(steps.last(), self@.peers[i as int].name, now));
                }
            }
            i = i + 1;
        }
        Ghost(steps)
    }

    /// Only one recovery is attempted per tick. A UDP rebind is shared by all
    /// peers, while session-only recovery remains independently rate limited
    /// per peer.
    fn recover_one(
        &mut self,
        engine: &mut Engine,
        now: u64,
        due: Option<(usize, RecoveryPolicy, u64)>,
        rebind_succeeded: bool,
        tick: &mut SchedulerTick,
        Ghost(steps): Ghost<Seq<TickStep>>,
    ) -> (recovery: Ghost<Seq<TickStep>>)
        requires
            old(engine).wf(),
            old(tick).outputs@ == outputs_of(steps),
            old(tick).errors@.map_values(|error: SchedulerError| error@) == errors_of(steps),
            old(tick).events@.len() == 0,
            is_due(old(self)@, old(engine)@, now, due),
        ensures
            final(engine).wf(),
            final(tick).events@.len() == 1 ==> rebind_is(final(tick).events@[0], rebind_succeeded),
            (TickRun {
                retry_steps: steps,
                retried: old(engine)@,
                recovery_steps: recovery@,
                recovered: final(engine)@,
                attempted: final(self)@,
                keepalive_steps: seq![],
            }).recovers(old(self)@, now, final(tick).events@),
            final(self)@.peers == old(self)@.peers,
            final(tick).outputs@ == outputs_of(steps + recovery@),
            final(tick).errors@.map_values(|error: SchedulerError| error@) == errors_of(
                steps + recovery@,
            ),
    {
        let ghost from = self@;
        let ghost retried = engine@;
        match due {
            None => {
                assert(steps + Seq::<TickStep>::empty() =~= steps);
                Ghost(Seq::empty())
            },
            Some((i, policy, silence)) => {
                let name = self.peers[i].name.clone();
                assert(from.peers[i as int] == self.peers@[i as int]@);
                if policy.rebind_udp {
                    self.last_udp_rebind_attempt = Some(now);
                } else {
                    self.last_session_recovery_attempt.insert(name.as_str(), now);
                }
                assert(self@.peers =~= from.peers);
                assert(self@ == from.attempted(i as int, now));
                let had_stale_state = engine.invalidate_peer(name.as_str());
                let result = engine.initiate_handshake(name.as_str(), now);
                let ghost step = TickStep {
                    peer: name@,
                    operation: ScheduledOperation::SessionRecovery,
                    before: retried,
                    result,
                    after: engine@,
                };
                push_engine_output(
                    tick,
                    name.as_str(),
                    ScheduledOperation::SessionRecovery,
                    result,
                    Ghost(steps),
                    Ghost(step),
                );
                tick.events.push(
                    SchedulerEvent::Recovery {
                        peer_name: name,
                        silence,
                        rebind_udp: policy.rebind_udp,
                        rebind_succeeded: policy.rebind_udp && rebind_succeeded,
                        had_stale_state,
                    },
                );
                proof {
                    assert(steps + seq![step] =~= steps.push(step));
                    assert(from.recovers(retried, i as int, now));
                    assert(from.is_recovery(step, i as int, now));
                    assert(from.reports_recovery(tick.events@[0], retried, i as int, now));
                }
                let ghost recovery = seq![step];
                Ghost(recovery)
            },
        }
    }

    /// The first peer that is due to be recovered, with its policy and for how
    /// long it has been silent.
    fn due_peer(&self, engine: &Engine, now: u64) -> (due: Option<(usize, RecoveryPolicy, u64)>)
        ensures
            is_due(self@, engine@, now, due),
    {
        let snapshot = engine.peer_stats();
        let mut i: usize = 0;
        while i < self.peers.len()
            invariant
                i <= self.peers.len(),
                snapshot@ == engine@.peers,
                forall|j: int|
                    #![trigger self@.peers[j]]
                    0 <= j < i ==> !self@.recovery_due_for(engine@, j, now),
            decreases self.peers.len() - i,
        {
            assert(self@.peers[i as int] == self.peers@[i as int]@);
            if let Some((policy, last_seen)) = self.recovery_baseline(i, engine, &snapshot, now) {
                let last_attempt = if policy.rebind_udp {
                    self.last_udp_rebind_attempt
                } else {
                    match self.last_session_recovery_attempt.get(self.peers[i].name.as_str()) {
                        Some(attempt) => Some(*attempt),
                        None => None,
                    }
                };
                if recovery_due(now, last_seen, last_attempt, policy.timeout) {
                    return Some((i, policy, now.saturating_sub(last_seen)));
                }
            }
            i = i + 1;
        }
        None
    }

    /// A peer's policy and when it was last heard from, if its health is
    /// watched at all.
    fn recovery_baseline(
        &self,
        i: usize,
        engine: &Engine,
        snapshot: &NameMap<PeerStats>,
        now: u64,
    ) -> (baseline: Option<(RecoveryPolicy, u64)>)
        requires
            i < self@.peers.len(),
            snapshot@ == engine@.peers,
        ensures
            ({
                let peer = self@.peers[i as int];
                let stats = crate::state::stats_of(engine@.peers, peer.name);
                let watched = peer.recovery is Some && self@.last_sent.contains_key(peer.name)
                    && engine@.sessions.sessions.contains_key(peer.name)
                    && !engine@.sessions.sessions[peer.name].is_expired(now)
                    && stats.last_seen is Some;
                match baseline {
                    Some((policy, last_seen)) => watched && peer.recovery == Some(policy)
                        && stats.last_seen == Some(last_seen),
                    None => !watched,
                }
            }),
    {
        let peer = &self.peers[i];
        assert(self@.peers[i as int] == self.peers@[i as int]@);
        let policy = match peer.recovery {
            Some(policy) => policy,
            None => {
                return None;
            },
        };
        if !self.last_sent.contains(peer.name.as_str()) || !engine.has_active_session(
            peer.name.as_str(),
            now,
        ) {
            return None;
        }
        match snapshot.get(peer.name.as_str()) {
            Some(stats) => match stats.last_seen {
                Some(last_seen) => Some((policy, last_seen)),
                None => None,
            },
            None => None,
        }
    }

    /// After a successful UDP rebind, every active peer gets a one-shot
    /// authenticated packet so the remote side learns the fresh source port,
    /// including peers with periodic keepalives disabled.
    fn send_keepalives(
        &mut self,
        engine: &mut Engine,
        now: u64,
        rebound: bool,
        tick: &mut SchedulerTick,
        Ghost(steps): Ghost<Seq<TickStep>>,
    ) -> (sent: Ghost<Seq<TickStep>>)
        requires
            old(engine).wf(),
            old(tick).outputs@ == outputs_of(steps),
            old(tick).errors@.map_values(|error: SchedulerError| error@) == errors_of(steps),
        ensures
            final(engine).wf(),
            keepalives(
                old(self)@.peers.len() as int,
                now,
                rebound,
                old(self)@,
                old(engine)@,
                sent@,
                final(self)@,
                final(engine)@,
            ),
            final(tick).events@ == old(tick).events@,
            final(tick).outputs@ == outputs_of(steps + sent@),
            final(tick).errors@.map_values(|error: SchedulerError| error@) == errors_of(
                steps + sent@,
            ),
    {
        let ghost from = self@;
        let ghost start = engine@;
        let ghost events = tick.events@;
        let ghost mut sent: Seq<TickStep> = seq![];
        assert(steps + sent =~= steps);
        let mut i: usize = 0;
        while i < self.peers.len()
            invariant
                i <= self.peers.len(),
                self@.peers == from.peers,
                self@.peers.len() == self.peers.len(),
                engine.wf(),
                keepalives(i as int, now, rebound, from, start, sent, self@, engine@),
                tick.events@ == events,
                tick.outputs@ == outputs_of(steps + sent),
                tick.errors@.map_values(|error: SchedulerError| error@) == errors_of(steps + sent),
            decreases self.peers.len() - i,
        {
            let ghost mid = self@;
            let ghost before = engine@;
            assert(mid.peers[i as int] == self.peers@[i as int]@);
            let name = self.peers[i].name.clone();
            let interval: u64 = self.peers[i].persistent_keepalive;
            let recovery_enabled = self.peers[i].recovery.is_some();
            let last_sent: Option<u64> = match self.last_sent.get(name.as_str()) {
                Some(sent_at) => Some(*sent_at),
                None => None,
            };
            if !keepalive_should_send(now, last_sent, interval, recovery_enabled, rebound) {
                if interval != 0 && last_sent.is_none() {
                    self.last_sent.insert(name.as_str(), now);
                }
                assert(self@.peers =~= mid.peers);
                assert(self@ == mid.after_waiting(i as int, now));
                assert(!mid.keepalive_due(i + 1 - 1, now, rebound));
            } else {
                let had_active_session = engine.has_active_session(name.as_str(), now);
                let probe: [u8; 1] = auth::KEEPALIVE_PROBE_PAYLOAD;
                let empty: [u8; 0] = [];
                assert(empty@ =~= Seq::<u8>::empty());
                let result = if recovery_enabled {
                    engine.create_keepalive(name.as_str(), probe.as_slice(), now)
                } else {
                    engine.create_keepalive(name.as_str(), empty.as_slice(), now)
                };
                let ghost step = TickStep {
                    peer: name@,
                    operation: ScheduledOperation::Keepalive,
                    before,
                    result,
                    after: engine@,
                };
                push_engine_output(
                    tick,
                    name.as_str(),
                    ScheduledOperation::Keepalive,
                    result,
                    Ghost(steps + sent),
                    Ghost(step),
                );
                // Recovery-enabled peers without a session keep retrying instead
                // of delaying the pending handshake by a full keepalive interval.
                if had_active_session || !recovery_enabled {
                    self.last_sent.insert(name.as_str(), now);
                }
                proof {
                    assert((steps + sent).push(step) =~= steps + sent.push(step));
                    assert(sent.push(step).drop_last() =~= sent);
                    sent = sent.push(step);
                    assert(self@.peers =~= mid.peers);
                    assert(self@ == mid.after_keepalive(before, i as int, now));
                    assert(mid.is_keepalive(step, i as int, now));
                    assert(mid.keepalive_due(i + 1 - 1, now, rebound));
                }
            }
            i = i + 1;
        }
        Ghost(sent)
    }
}

/// Whether the tick's events say that the UDP socket was rebound.
fn tick_rebound(tick: &SchedulerTick) -> (r: bool)
    ensures
        r == rebound(tick.events@),
{
    if tick.events.len() == 0 {
        return false;
    }
    match &tick.events[0] {
        SchedulerEvent::Recovery { rebind_succeeded, .. } => *rebind_succeeded,
    }
}

/// Retries change nothing that a recovery depends on.
proof fn lemma_retries_keep_recovery(
    scheduler: SchedulerModel,
    now: u64,
    start: EngineModel,
    steps: Seq<TickStep>,
    end: EngineModel,
)
    requires
        retries(scheduler.peers, scheduler.peers.len() as int, now, start, steps, end),
    ensures
        end.peers == start.peers,
        forall|i: int|
            #![trigger scheduler.recovery_due_for(end, i, now)]
            #![trigger scheduler.recovery_due_for(start, i, now)]
            scheduler.recovery_due_for(end, i, now) == scheduler.recovery_due_for(start, i, now),
        forall|i: int|
            #![trigger scheduler.recovers(end, i, now)]
            #![trigger scheduler.recovers(start, i, now)]
            scheduler.recovers(end, i, now) == scheduler.recovers(start, i, now),
        scheduler.recovers_none(end, now) == scheduler.recovers_none(start, now),
        forall|event: SchedulerEvent, i: int|
            #![trigger scheduler.reports_recovery(event, end, i, now)]
            #![trigger scheduler.reports_recovery(event, start, i, now)]
            scheduler.reports_recovery(event, end, i, now) == scheduler.reports_recovery(
                event,
                start,
                i,
                now,
            ),
{
    lemma_retries_keep_live_sessions(
        scheduler.peers,
        scheduler.peers.len() as int,
        now,
        start,
        steps,
        end,
    );
    assert forall|i: int|
        #![trigger scheduler.recovery_due_for(end, i, now)]
        #![trigger scheduler.recovery_due_for(start, i, now)]
        scheduler.recovery_due_for(end, i, now) == scheduler.recovery_due_for(start, i, now) by {
        assert(end.sessions.has_live_session(scheduler.peers[i].name, now)
            == start.sessions.has_live_session(scheduler.peers[i].name, now));
    }
}

/// The rebind that a tick asks for is the one that its event reports.
proof fn lemma_request_is_reported(
    scheduler: SchedulerModel,
    engine: EngineModel,
    now: u64,
    request: Option<RebindRequest>,
    events: Seq<SchedulerEvent>,
)
    requires
        scheduler.requests(engine, now, request),
        scheduler.reports(events, engine, now),
        events.len() == 1 && events[0]->rebind_udp,
    ensures
        request matches Some(asked) && asked.peer_name@ == events[0]->peer_name@ && asked.silence
            == events[0]->silence,
{
    let reported = choose|i: int| #[trigger]
        scheduler.recovers(engine, i, now) && scheduler.reports_recovery(
            events[0],
            engine,
            i,
            now,
        );
    assert(scheduler.rebinds_for(engine, reported, now));
    let asked = choose|i: int| #[trigger]
        scheduler.rebinds_for(engine, i, now) && request->0.peer_name@ == scheduler.peers[i].name
            && request->0.silence == scheduler.silence(engine, i, now);
    let peers = (scheduler.peers[asked], scheduler.peers[reported]);
    assert(asked == reported);
}

/// Starting or retrying a handshake drops no session that has not expired.
proof fn lemma_start_keeps_live_sessions(
    before: EngineModel,
    peer: Seq<char>,
    now: u64,
    output: Result<EngineOutput, EngineError>,
    after: EngineModel,
)
    requires
        before.initiates_handshake(peer, now, output, after),
    ensures
        after.peers == before.peers,
        forall|name: Seq<char>| #[trigger]
            after.sessions.has_live_session(name, now) == before.sessions.has_live_session(
                name,
                now,
            ),
{
    assert(after.sessions == before.sessions || after.sessions.sessions
        == before.sessions.sessions || exists|name: Seq<char>|
        after.sessions.sessions == #[trigger] crate::sessions::without_expired(
            before.sessions.sessions,
            name,
            now,
        ));
}

proof fn lemma_retries_keep_live_sessions(
    peers: Seq<ScheduledPeerModel>,
    n: int,
    now: u64,
    start: EngineModel,
    steps: Seq<TickStep>,
    end: EngineModel,
)
    requires
        retries(peers, n, now, start, steps, end),
    ensures
        end.peers == start.peers,
        forall|name: Seq<char>| #[trigger]
            end.sessions.has_live_session(name, now) == start.sessions.has_live_session(name, now),
    decreases n,
{
    if n > 0 {
        let name = peers[n - 1].name;
        if steps.len() > 0 && is_retry(steps.last(), name, now) && end == steps.last().after
            && retries(peers, n - 1, now, start, steps.drop_last(), steps.last().before) {
            let step = steps.last();
            lemma_start_keeps_live_sessions(step.before, name, now, step.result, step.after);
            lemma_retries_keep_live_sessions(
                peers,
                n - 1,
                now,
                start,
                steps.drop_last(),
                steps.last().before,
            );
        } else {
            lemma_retries_keep_live_sessions(peers, n - 1, now, start, steps, end);
        }
    }
}

// ---------------------------------------------------------------------------
// Laws.
// ---------------------------------------------------------------------------

/// After an attempt at recovery the next one waits for the full timeout, and so
/// does the first one after a packet was heard.
pub proof fn recovery_is_rate_limited(
    now: u64,
    last_seen: u64,
    last_recovery_attempt: Option<u64>,
    timeout: u64,
)
    requires
        timeout > 0,
        crate::sessions::elapsed(last_seen, now) < timeout || (last_recovery_attempt matches Some(
            attempt,
        ) && crate::sessions::elapsed(attempt, now) < timeout),
    ensures
        !is_recovery_due(now, last_seen, last_recovery_attempt, timeout),
{
}

/// After a successful rebind every peer gets a keepalive, also those whose
/// periodic keepalives are disabled.
pub proof fn rebind_reaches_every_peer(
    n: int,
    now: u64,
    from: SchedulerModel,
    start: EngineModel,
    steps: Seq<TickStep>,
    to: SchedulerModel,
    end: EngineModel,
    i: int,
)
    requires
        0 <= i < n <= from.peers.len(),
        keepalives(n, now, true, from, start, steps, to, end),
    ensures
        to.peers == from.peers,
        steps.len() == n,
        steps[i].peer == from.peers[i].name,
        steps[i].operation == ScheduledOperation::Keepalive,
    decreases n,
{
    let mid = choose|mid: SchedulerModel|
        #![trigger mid.keepalive_due(n - 1, now, true)]
        if mid.keepalive_due(n - 1, now, true) {
            &&& steps.len() > 0
            &&& mid.is_keepalive(steps.last(), n - 1, now)
            &&& end == steps.last().after
            &&& to == mid.after_keepalive(steps.last().before, n - 1, now)
            &&& keepalives(
                n - 1,
                now,
                true,
                from,
                start,
                steps.drop_last(),
                mid,
                steps.last().before,
            )
        } else {
            &&& to == mid.after_waiting(n - 1, now)
            &&& keepalives(n - 1, now, true, from, start, steps, mid, end)
        };
    assert(mid.keepalive_due(n - 1, now, true));
    if n > 1 {
        rebind_reaches_every_peer(
            n - 1,
            now,
            from,
            start,
            steps.drop_last(),
            mid,
            steps.last().before,
            if i < n - 1 { i } else { 0 },
        );
    }
}

/// Recovery is due as soon as the timeout has passed since the peer's last
/// packet and, where there was an attempt, since that too; however many there
/// were before.
pub proof fn recovery_is_due_after_the_timeout(
    now: u64,
    last_seen: u64,
    last_recovery_attempt: Option<u64>,
    timeout: u64,
)
    requires
        now >= last_seen,
        last_recovery_attempt matches Some(attempt) ==> now >= attempt,
    ensures
        is_recovery_due(now, last_seen, last_recovery_attempt, timeout) <==> now - last_seen
            >= timeout && (last_recovery_attempt matches Some(attempt) ==> now - attempt
            >= timeout),
{
}

/// A UDP peer with a rebind interval is recovered after that interval, with a
/// rebind; every other peer with a session timeout after that, without one; and
/// the rest never.
pub proof fn policies_follow_the_configuration(
    transport: TransportConfig,
    udp_rebind_after: u16,
    session_timeout: u64,
)
    requires
        session_timeout <= 1_000_000,
    ensures
        transport == TransportConfig::Udp && udp_rebind_after > 0 ==> (policy(
            transport,
            udp_rebind_after,
            session_timeout,
        ) matches Some(chosen) && chosen.rebind_udp && chosen.timeout == udp_rebind_after
            * 1_000_000_000),
        !(transport == TransportConfig::Udp && udp_rebind_after > 0) && session_timeout > 0 ==> (
        policy(transport, udp_rebind_after, session_timeout) matches Some(chosen)
            && !chosen.rebind_udp && chosen.timeout == session_timeout * 1_000_000_000),
        !(transport == TransportConfig::Udp && udp_rebind_after > 0) && session_timeout == 0
            ==> policy(transport, udp_rebind_after, session_timeout) is None,
{
}

/// A keepalive is sent after every rebind. Otherwise a peer with an interval gets
/// one whenever that has passed since the last, and its first one at once where
/// recovery depends on it; a peer without an interval gets none.
pub proof fn keepalives_are_sent_at_their_interval(
    now: u64,
    last_sent: Option<u64>,
    interval: u64,
    recovery_enabled: bool,
    rebound: bool,
)
    requires
        last_sent matches Some(sent) ==> now >= sent,
    ensures
        rebound ==> sends_keepalive(now, last_sent, interval, recovery_enabled, rebound),
        !rebound && interval == 0 ==> !sends_keepalive(
            now,
            last_sent,
            interval,
            recovery_enabled,
            rebound,
        ),
        !rebound && interval > 0 && last_sent is Some ==> (sends_keepalive(
            now,
            last_sent,
            interval,
            recovery_enabled,
            rebound,
        ) <==> now - last_sent->0 >= interval),
        !rebound && interval > 0 && last_sent is None ==> (sends_keepalive(
            now,
            last_sent,
            interval,
            recovery_enabled,
            rebound,
        ) <==> recovery_enabled),
{
}

/// Whether a step of a tick does this for a peer.
pub open spec fn does(
    steps: Seq<TickStep>,
    k: int,
    peer: Seq<char>,
    operation: ScheduledOperation,
) -> bool {
    0 <= k < steps.len() && steps[k].peer == peer && steps[k].operation == operation
}

/// Starting or retrying a handshake with one peer leaves the others' pending
/// ones alone.
proof fn lemma_start_keeps_other_pending(
    before: EngineModel,
    peer: Seq<char>,
    other: Seq<char>,
    now: u64,
    output: Result<EngineOutput, EngineError>,
    after: EngineModel,
)
    requires
        before.initiates_handshake(peer, now, output, after),
        other != peer,
    ensures
        after.sessions.pending.contains_key(other) == before.sessions.pending.contains_key(other),
{
}

proof fn lemma_pending_until_retried(
    peers: Seq<ScheduledPeerModel>,
    n: int,
    now: u64,
    start: EngineModel,
    steps: Seq<TickStep>,
    end: EngineModel,
    name: Seq<char>,
)
    requires
        0 <= n <= peers.len(),
        retries(peers, n, now, start, steps, end),
        forall|k: int| !#[trigger] does(steps, k, name, ScheduledOperation::HandshakeRetry),
    ensures
        end.sessions.pending.contains_key(name) == start.sessions.pending.contains_key(name),
    decreases n,
{
    if n > 0 {
        let own = peers[n - 1].name;
        if steps.len() > 0 && is_retry(steps.last(), own, now) && end == steps.last().after
            && retries(peers, n - 1, now, start, steps.drop_last(), steps.last().before) {
            let step = steps.last();
            let fewer = steps.drop_last();
            assert(own != name) by {
                assert(!does(steps, steps.len() - 1, name, ScheduledOperation::HandshakeRetry));
            }
            assert forall|k: int| !#[trigger] does(
                fewer,
                k,
                name,
                ScheduledOperation::HandshakeRetry,
            ) by {
                assert(!does(steps, k, name, ScheduledOperation::HandshakeRetry));
            }
            lemma_start_keeps_other_pending(step.before, own, name, now, step.result, step.after);
            lemma_pending_until_retried(peers, n - 1, now, start, fewer, step.before, name);
        } else {
            lemma_pending_until_retried(peers, n - 1, now, start, steps, end, name);
        }
    }
}

/// Every peer whose handshake is pending has it retried in each tick, and every
/// retry of a tick is of a pending handshake.
pub proof fn every_pending_handshake_is_retried(
    peers: Seq<ScheduledPeerModel>,
    n: int,
    now: u64,
    start: EngineModel,
    steps: Seq<TickStep>,
    end: EngineModel,
    i: int,
)
    requires
        0 <= i < n <= peers.len(),
        retries(peers, n, now, start, steps, end),
        start.sessions.pending.contains_key(peers[i].name),
    ensures
        exists|k: int| #[trigger]
            does(steps, k, peers[i].name, ScheduledOperation::HandshakeRetry),
    decreases n,
{
    let name = peers[i].name;
    let own = peers[n - 1].name;
    if steps.len() > 0 && is_retry(steps.last(), own, now) && end == steps.last().after && retries(
        peers,
        n - 1,
        now,
        start,
        steps.drop_last(),
        steps.last().before,
    ) {
        if i == n - 1 {
            assert(does(steps, steps.len() - 1, name, ScheduledOperation::HandshakeRetry));
        } else {
            let fewer = steps.drop_last();
            every_pending_handshake_is_retried(
                peers,
                n - 1,
                now,
                start,
                fewer,
                steps.last().before,
                i,
            );
            let k = choose|k: int| #[trigger]
                does(fewer, k, name, ScheduledOperation::HandshakeRetry);
            assert(does(steps, k, name, ScheduledOperation::HandshakeRetry));
        }
    } else if i == n - 1 {
        if forall|k: int| !#[trigger] does(steps, k, name, ScheduledOperation::HandshakeRetry) {
            lemma_pending_until_retried(peers, n - 1, now, start, steps, end, name);
        }
    } else {
        every_pending_handshake_is_retried(peers, n - 1, now, start, steps, end, i);
    }
}

/// The scheduler as it comes to peer `n` of the keepalives still has, of that
/// peer and those after it, what it had at the start.
proof fn lemma_keepalives_keep_later(
    n: int,
    now: u64,
    rebound: bool,
    from: SchedulerModel,
    start: EngineModel,
    steps: Seq<TickStep>,
    to: SchedulerModel,
    end: EngineModel,
    name: Seq<char>,
)
    requires
        0 <= n <= from.peers.len(),
        keepalives(n, now, rebound, from, start, steps, to, end),
        forall|j: int| #![trigger from.peers[j]] 0 <= j < n ==> from.peers[j].name != name,
    ensures
        to.peers == from.peers,
        value_of(to.last_sent, name) == value_of(from.last_sent, name),
        to.last_udp_rebind_attempt == from.last_udp_rebind_attempt,
        to.last_session_recovery_attempt == from.last_session_recovery_attempt,
    decreases n,
{
    if n > 0 {
        let mid = choose|mid: SchedulerModel|
            #![trigger mid.keepalive_due(n - 1, now, rebound)]
            if mid.keepalive_due(n - 1, now, rebound) {
                &&& steps.len() > 0
                &&& mid.is_keepalive(steps.last(), n - 1, now)
                &&& end == steps.last().after
                &&& to == mid.after_keepalive(steps.last().before, n - 1, now)
                &&& keepalives(
                    n - 1,
                    now,
                    rebound,
                    from,
                    start,
                    steps.drop_last(),
                    mid,
                    steps.last().before,
                )
            } else {
                &&& to == mid.after_waiting(n - 1, now)
                &&& keepalives(n - 1, now, rebound, from, start, steps, mid, end)
            };
        if mid.keepalive_due(n - 1, now, rebound) {
            lemma_keepalives_keep_later(
                n - 1,
                now,
                rebound,
                from,
                start,
                steps.drop_last(),
                mid,
                steps.last().before,
                name,
            );
        } else {
            lemma_keepalives_keep_later(n - 1, now, rebound, from, start, steps, mid, end, name);
        }
        assert(from.peers[n - 1].name != name);
    }
}

/// Every peer to which a keepalive is due gets one in the tick, and no peer to
/// which none is due does.
pub proof fn every_due_keepalive_is_sent(
    n: int,
    now: u64,
    rebound: bool,
    from: SchedulerModel,
    start: EngineModel,
    steps: Seq<TickStep>,
    to: SchedulerModel,
    end: EngineModel,
    i: int,
)
    requires
        0 <= i < n <= from.peers.len(),
        keepalives(n, now, rebound, from, start, steps, to, end),
        forall|a: int, b: int|
            #![trigger from.peers[a], from.peers[b]]
            0 <= a < b < from.peers.len() ==> from.peers[a].name != from.peers[b].name,
    ensures
        (exists|k: int| #[trigger]
            does(steps, k, from.peers[i].name, ScheduledOperation::Keepalive)) <==> sends_keepalive(
            now,
            value_of(from.last_sent, from.peers[i].name),
            from.peers[i].persistent_keepalive,
            from.peers[i].recovery is Some,
            rebound,
        ),
    decreases n,
{
    let name = from.peers[i].name;
    let mid = choose|mid: SchedulerModel|
        #![trigger mid.keepalive_due(n - 1, now, rebound)]
        if mid.keepalive_due(n - 1, now, rebound) {
            &&& steps.len() > 0
            &&& mid.is_keepalive(steps.last(), n - 1, now)
            &&& end == steps.last().after
            &&& to == mid.after_keepalive(steps.last().before, n - 1, now)
            &&& keepalives(
                n - 1,
                now,
                rebound,
                from,
                start,
                steps.drop_last(),
                mid,
                steps.last().before,
            )
        } else {
            &&& to == mid.after_waiting(n - 1, now)
            &&& keepalives(n - 1, now, rebound, from, start, steps, mid, end)
        };
    let due = mid.keepalive_due(n - 1, now, rebound);
    let fewer = if due {
        steps.drop_last()
    } else {
        steps
    };
    let middle = if due {
        steps.last().before
    } else {
        end
    };
    assert forall|j: int|
        #![trigger from.peers[j]]
        0 <= j < n - 1 implies from.peers[j].name != from.peers[n - 1].name by {
        let last = from.peers[n - 1];
    }
    lemma_keepalives_keep_later(
        n - 1,
        now,
        rebound,
        from,
        start,
        fewer,
        mid,
        middle,
        from.peers[n - 1].name,
    );
    if i < n - 1 {
        every_due_keepalive_is_sent(n - 1, now, rebound, from, start, fewer, mid, middle, i);
        assert(from.peers[n - 1].name != name);
        if exists|k: int| #[trigger] does(fewer, k, name, ScheduledOperation::Keepalive) {
            let k = choose|k: int| #[trigger] does(fewer, k, name, ScheduledOperation::Keepalive);
            assert(does(steps, k, name, ScheduledOperation::Keepalive));
        }
        if exists|k: int| #[trigger] does(steps, k, name, ScheduledOperation::Keepalive) {
            let k = choose|k: int| #[trigger] does(steps, k, name, ScheduledOperation::Keepalive);
            assert(does(fewer, k, name, ScheduledOperation::Keepalive));
        }
    } else if due {
        assert(does(steps, steps.len() - 1, name, ScheduledOperation::Keepalive));
    } else {
        lemma_no_step_for_later_peers(
            n - 1,
            now,
            rebound,
            from,
            start,
            fewer,
            mid,
            middle,
            name,
        );
    }
}

proof fn lemma_no_step_for_later_peers(
    n: int,
    now: u64,
    rebound: bool,
    from: SchedulerModel,
    start: EngineModel,
    steps: Seq<TickStep>,
    to: SchedulerModel,
    end: EngineModel,
    name: Seq<char>,
)
    requires
        0 <= n <= from.peers.len(),
        keepalives(n, now, rebound, from, start, steps, to, end),
        forall|j: int| #![trigger from.peers[j]] 0 <= j < n ==> from.peers[j].name != name,
    ensures
        to.peers == from.peers,
        forall|k: int| !#[trigger] does(steps, k, name, ScheduledOperation::Keepalive),
    decreases n,
{
    if n > 0 {
        let mid = choose|mid: SchedulerModel|
            #![trigger mid.keepalive_due(n - 1, now, rebound)]
            if mid.keepalive_due(n - 1, now, rebound) {
                &&& steps.len() > 0
                &&& mid.is_keepalive(steps.last(), n - 1, now)
                &&& end == steps.last().after
                &&& to == mid.after_keepalive(steps.last().before, n - 1, now)
                &&& keepalives(
                    n - 1,
                    now,
                    rebound,
                    from,
                    start,
                    steps.drop_last(),
                    mid,
                    steps.last().before,
                )
            } else {
                &&& to == mid.after_waiting(n - 1, now)
                &&& keepalives(n - 1, now, rebound, from, start, steps, mid, end)
            };
        assert(from.peers[n - 1].name != name);
        if mid.keepalive_due(n - 1, now, rebound) {
            let fewer = steps.drop_last();
            lemma_no_step_for_later_peers(
                n - 1,
                now,
                rebound,
                from,
                start,
                fewer,
                mid,
                steps.last().before,
                name,
            );
            assert forall|k: int| !#[trigger] does(
                steps,
                k,
                name,
                ScheduledOperation::Keepalive,
            ) by {
                assert(!does(fewer, k, name, ScheduledOperation::Keepalive));
            }
        } else {
            lemma_no_step_for_later_peers(n - 1, now, rebound, from, start, steps, mid, end, name);
        }
    }
}

/// A peer that has gone silent is recovered: where one has a policy, was sent a
/// keepalive, has a session that has not expired, and has not been heard from
/// for the policy's timeout, nor tried to be recovered within it, the tick
/// reports a recovery.
pub proof fn silent_peer_is_recovered(
    from: SchedulerModel,
    engine: EngineModel,
    now: u64,
    events: Seq<SchedulerEvent>,
    i: int,
    recovery: RecoveryPolicy,
    last_seen: u64,
)
    requires
        from.reports(events, engine, now),
        0 <= i < from.peers.len(),
        from.peers[i].recovery == Some(recovery),
        from.last_sent.contains_key(from.peers[i].name),
        engine.sessions.sessions.contains_key(from.peers[i].name),
        !engine.sessions.sessions[from.peers[i].name].is_expired(now),
        crate::state::stats_of(engine.peers, from.peers[i].name).last_seen == Some(last_seen),
        now >= last_seen,
        now - last_seen >= recovery.timeout,
        recovery.rebind_udp ==> (from.last_udp_rebind_attempt matches Some(attempt) ==> now
            >= attempt && now - attempt >= recovery.timeout),
        !recovery.rebind_udp ==> (value_of(
            from.last_session_recovery_attempt,
            from.peers[i].name,
        ) matches Some(attempt) ==> now >= attempt && now - attempt >= recovery.timeout),
    ensures
        events.len() == 1,
{
    let peer = from.peers[i];
    assert(from.recovery_due_for(engine, i, now));
}

/// A peer that answers is left alone: none is recovered that was heard from
/// within its timeout, or has no policy or no session.
pub proof fn live_peer_is_not_recovered(
    from: SchedulerModel,
    engine: EngineModel,
    now: u64,
    events: Seq<SchedulerEvent>,
    name: Seq<char>,
)
    requires
        from.reports(events, engine, now),
        forall|i: int|
            #![trigger from.peers[i]]
            0 <= i < from.peers.len() && from.peers[i].name == name ==> {
                ||| from.peers[i].recovery is None
                ||| !engine.sessions.has_live_session(name, now)
                ||| (crate::state::stats_of(engine.peers, name).last_seen matches Some(seen) && (now
                    < seen || now - seen < from.peers[i].recovery->0.timeout)
                    && from.peers[i].recovery->0.timeout > 0)
                ||| crate::state::stats_of(engine.peers, name).last_seen is None
            },
    ensures
        events.len() == 1 ==> events[0]->peer_name@ != name,
{
    if events.len() == 1 {
        let i = choose|i: int| #[trigger]
            from.recovers(engine, i, now) && from.reports_recovery(events[0], engine, i, now);
        let peer = from.peers[i];
    }
}

/// Recovering a peer discards its session and starts a fresh handshake: the first
/// message goes to where the peer is reached, unless the Noise library fails.
pub proof fn recovered_peer_gets_a_fresh_handshake(
    from: SchedulerModel,
    step: TickStep,
    i: int,
    r: int,
    now: u64,
)
    requires
        from.is_recovery(step, i, now),
        step.before.first_route_of(from.peers[i].name, r),
        step.before.endpoint_of(*step.before.routes[r].peer) is Some,
    ensures
        !step.after.sessions.sessions.contains_key(from.peers[i].name),
        step.result matches Ok(o) ==> o.actions@.len() == 1 && (
        o.actions@[0] matches crate::engine::EngineAction::SendTransport {
            peer_name,
            endpoint,
            frame,
        } && peer_name@ == from.peers[i].name && Some(endpoint) == step.before.endpoint_of(
            *step.before.routes[r].peer,
        ) && step.after.sessions.pending.contains_key(from.peers[i].name)
            && step.after.sessions.pending[from.peers[i].name].packet == frame@),
        step.result matches Err(error) ==> error is Noise,
{
    let name = from.peers[i].name;
    let cleared = step.before.with_sessions(step.before.sessions.invalidated(name));
    assert(cleared.first_route_of(name, r)) by {
        assert(cleared.routes == step.before.routes);
    }
    assert forall|k: int| #[trigger] cleared.first_route_of(name, k) implies k == r by {
        let one = cleared.routes[k];
        let other = cleared.routes[r];
    }
}

/// After a keepalive the interval starts anew, except for a peer that recovery
/// depends on and that has no session yet: that is tried again at once. A first
/// keepalive that is not due yet is counted from now.
pub proof fn keepalive_intervals_start_anew(
    model: SchedulerModel,
    engine: EngineModel,
    i: int,
    now: u64,
    other: Seq<char>,
)
    requires
        0 <= i < model.peers.len(),
        other != model.peers[i].name,
    ensures
        ({
            let name = model.peers[i].name;
            let sent = model.after_keepalive(engine, i, now);
            let waited = model.after_waiting(i, now);
            &&& engine.sessions.has_live_session(name, now) || model.peers[i].recovery is None
                ==> value_of(sent.last_sent, name) == Some(now)
            &&& !engine.sessions.has_live_session(name, now) && model.peers[i].recovery is Some
                ==> sent == model
            &&& model.peers[i].persistent_keepalive > 0 && value_of(model.last_sent, name) is None
                ==> value_of(waited.last_sent, name) == Some(now)
            &&& value_of(model.last_sent, name) is Some ==> waited == model
            &&& value_of(sent.last_sent, other) == value_of(model.last_sent, other)
            &&& value_of(waited.last_sent, other) == value_of(model.last_sent, other)
        }),
{
}

/// An attempt at recovery is remembered: for all peers where it rebound the
/// socket, and for the one peer where it did not.
pub proof fn recovery_attempts_are_remembered(
    model: SchedulerModel,
    i: int,
    now: u64,
    other: Seq<char>,
)
    requires
        0 <= i < model.peers.len(),
        model.peers[i].recovery is Some,
        other != model.peers[i].name,
    ensures
        ({
            let after = model.attempted(i, now);
            &&& model.peers[i].recovery->0.rebind_udp ==> after.last_udp_rebind_attempt == Some(now)
                && after.last_session_recovery_attempt == model.last_session_recovery_attempt
            &&& !model.peers[i].recovery->0.rebind_udp ==> value_of(
                after.last_session_recovery_attempt,
                model.peers[i].name,
            ) == Some(now) && value_of(after.last_session_recovery_attempt, other) == value_of(
                model.last_session_recovery_attempt,
                other,
            ) && after.last_udp_rebind_attempt == model.last_udp_rebind_attempt
            &&& after.last_sent == model.last_sent
        }),
{
}

/// Everything that the steps of a tick gave is handed out, and every failure is
/// reported: one or the other for each step, in their order.
pub proof fn every_step_is_accounted_for(steps: Seq<TickStep>, k: int)
    requires
        0 <= k < steps.len(),
    ensures
        outputs_of(steps).len() + errors_of(steps).len() == steps.len(),
        steps[k].result matches Ok(output) ==> outputs_of(steps).contains(
            ScheduledOutput { operation: steps[k].operation, output },
        ),
        steps[k].result matches Err(error) ==> errors_of(steps).contains(
            ErrorModel { peer: steps[k].peer, operation: steps[k].operation, error },
        ),
    decreases steps.len(),
{
    let before = steps.drop_last();
    assert(outputs_of(Seq::<TickStep>::empty()).len() == 0);
    assert(errors_of(Seq::<TickStep>::empty()).len() == 0);
    if before.len() > 0 {
        every_step_is_accounted_for(before, if k < before.len() { k } else { 0 });
    } else {
        assert(before =~= Seq::<TickStep>::empty());
    }
    let last = steps.last();
    match last.result {
        Ok(output) => {
            assert(outputs_of(steps)[outputs_of(steps).len() - 1] == ScheduledOutput {
                operation: last.operation,
                output,
            });
        },
        Err(error) => {
            assert(errors_of(steps)[errors_of(steps).len() - 1] == ErrorModel {
                peer: last.peer,
                operation: last.operation,
                error,
            });
        },
    }
    if k < before.len() {
        assert(steps[k] == before[k]);
        match steps[k].result {
            Ok(output) => {
                let entry = ScheduledOutput { operation: steps[k].operation, output };
                let at = outputs_of(before).index_of(entry);
                assert(outputs_of(steps)[at] == entry);
            },
            Err(error) => {
                let entry = ErrorModel {
                    peer: steps[k].peer,
                    operation: steps[k].operation,
                    error,
                };
                let at = errors_of(before).index_of(entry);
                assert(errors_of(steps)[at] == entry);
            },
        }
    }
}

/// Every configured peer is scheduled, with its keepalive interval in seconds and
/// the policy that its timers call for.
pub proof fn every_peer_is_scheduled(config: Config, i: int)
    requires
        0 <= i < config.peer@.len(),
    ensures
        scheduled_peers(config).len() == config.peer@.len(),
        scheduled_peers(config)[i].name == config.peer@[i].name@,
        scheduled_peers(config)[i].persistent_keepalive == config.peer@[i].persistent_keepalive
            * 1_000_000_000,
        config.interface.transport == TransportConfig::Udp && config.peer@[i].udp_rebind_after > 0
            ==> (scheduled_peers(config)[i].recovery matches Some(chosen) && chosen.rebind_udp
            && chosen.timeout == config.peer@[i].udp_rebind_after * 1_000_000_000),
        !(config.interface.transport == TransportConfig::Udp && config.peer@[i].udp_rebind_after
            > 0) && config.peer@[i].session_timeout_seconds(config.interface.transport) > 0 ==> (
        scheduled_peers(config)[i].recovery matches Some(chosen) && !chosen.rebind_udp
            && chosen.timeout == config.peer@[i].session_timeout_seconds(config.interface.transport)
            * 1_000_000_000),
{
    policies_follow_the_configuration(
        config.interface.transport,
        config.peer@[i].udp_rebind_after,
        config.peer@[i].session_timeout_seconds(config.interface.transport) as u64,
    );
}

/// A reported recovery tells the peer, for how long it was silent, and whether the
/// socket was rebound, which only a policy with a rebind allows.
pub proof fn recoveries_are_reported_as_they_are(
    from: SchedulerModel,
    event: SchedulerEvent,
    engine: EngineModel,
    i: int,
    now: u64,
    last_seen: u64,
)
    requires
        from.reports_recovery(event, engine, i, now),
        crate::state::stats_of(engine.peers, from.peers[i].name).last_seen == Some(last_seen),
        now >= last_seen,
    ensures
        event->peer_name@ == from.peers[i].name,
        event->silence == now - last_seen,
        event->rebind_udp == from.peers[i].recovery->0.rebind_udp,
        event->rebind_succeeded ==> event->rebind_udp,
        rebound(seq![event]) == event->rebind_succeeded,
        !rebound(Seq::empty()),
{
}

} // verus!

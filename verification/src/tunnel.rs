//! What the running tunnel does between its packet interface, its transport and
//! its timers.
//!
//! Devices, sockets, threads and signals belong to the application. It hands
//! over what it read and performs the steps that come back.

use vstd::prelude::*;
use vstd::slice::slice_subrange;
use vstd::string::*;

use crate::auth;
use crate::bytes::u32_to_be_bytes;
use crate::engine::{Engine, EngineAction, EngineError, EngineOutput};
use crate::firewall::{CleanupAction, FirewallManager};
use crate::net::SocketAddr;
use crate::packet::{Ipv4Packet, PacketError};
use crate::routing::{cleanup_routes, InstalledRoute, Platform, RouteDeletion};
use crate::scheduler::SECOND;
use crate::state::PeerState;
use crate::text::decimal;

verus! {

/// The size of the buffer for one packet.
pub const MAX_PACKET_SIZE: usize = 65_535;
/// The size of the header that some packet interfaces put before each packet.
pub const PACKET_INFO_SIZE: usize = 4;

// ---------------------------------------------------------------------------
// Packet information.
// ---------------------------------------------------------------------------

/// What was read from the packet interface, without the header that it put
/// before the packet; nothing where the header is incomplete.
pub open spec fn without_packet_information(frame: Seq<u8>, packet_information: bool) -> Option<
    Seq<u8>,
> {
    if !packet_information {
        Some(frame)
    } else if frame.len() >= PACKET_INFO_SIZE {
        Some(frame.skip(PACKET_INFO_SIZE as int))
    } else {
        None
    }
}

/// Whether `output` is what the packet interface expects for a packet: the
/// packet itself, or behind the big-endian number of its address family.
pub open spec fn carries_packet_information(
    output: Seq<u8>,
    frame: Seq<u8>,
    packet_information: bool,
    family: u32,
) -> bool {
    if packet_information {
        &&& output.len() == PACKET_INFO_SIZE + frame.len()
        &&& crate::bytes::be_value(output.take(PACKET_INFO_SIZE as int)) == family
        &&& output.skip(PACKET_INFO_SIZE as int) == frame
    } else {
        output == frame
    }
}

pub fn strip_packet_information(frame: &[u8], packet_information: bool) -> (packet: Option<&[u8]>)
    ensures
        match packet {
            Some(p) => without_packet_information(frame@, packet_information) == Some(p@),
            None => without_packet_information(frame@, packet_information) is None,
        },
{
    if !packet_information {
        Some(frame)
    } else if frame.len() >= PACKET_INFO_SIZE {
        let packet = slice_subrange(frame, PACKET_INFO_SIZE, frame.len());
        assert(packet@ =~= frame@.skip(PACKET_INFO_SIZE as int));
        Some(packet)
    } else {
        None
    }
}

/// `family` is the platform's number for IPv4.
pub fn add_packet_information(frame: &[u8], packet_information: bool, family: u32) -> (output: Vec<
    u8,
>)
    ensures
        carries_packet_information(output@, frame@, packet_information, family),
{
    if !packet_information {
        return vstd::slice::slice_to_vec(frame);
    }
    let header = u32_to_be_bytes(family);
    let mut output = vstd::slice::slice_to_vec(header.as_slice());
    output.extend_from_slice(frame);
    assert(output@.take(PACKET_INFO_SIZE as int) =~= header@);
    assert(output@.skip(PACKET_INFO_SIZE as int) =~= frame@);
    output
}

// ---------------------------------------------------------------------------
// Packets.
// ---------------------------------------------------------------------------

/// What became of a packet that was read from the packet interface.
#[derive(Debug)]
pub enum TunPacket {
    /// It was shorter than the header that goes before a packet.
    Short,
    /// It was no IPv4 packet.
    NotRoutable(PacketError),
    /// The packet engine rejected it.
    Rejected(EngineError),
    Processed(EngineOutput),
}

/// What became of a datagram or frame that the transport received.
#[derive(Debug)]
pub enum TransportPacket {
    /// It was malformed, or of an incompatible version.
    Malformed,
    /// The packet engine rejected it.
    Rejected(EngineError),
    Processed(EngineOutput),
}

/// Hands what was read from the packet interface to the engine.
pub fn process_tun_packet(
    engine: &mut Engine,
    read: &[u8],
    packet_information: bool,
    now: u64,
) -> (result: TunPacket)
    requires
        old(engine).wf(),
    ensures
        final(engine).wf(),
        match without_packet_information(read@, packet_information) {
            None => result is Short && final(engine)@ == old(engine)@,
            Some(packet) => match crate::packet::header_fault(packet) {
                Some(fault) => result matches TunPacket::NotRoutable(error) && error == fault
                    && final(engine)@ == old(engine)@,
                None => match result {
                    TunPacket::Processed(output) => old(engine)@.sends_packet(
                        packet,
                        now,
                        Ok(output),
                        final(engine)@,
                    ),
                    TunPacket::Rejected(error) => old(engine)@.sends_packet(
                        packet,
                        now,
                        Err(error),
                        final(engine)@,
                    ),
                    _ => false,
                },
            },
        },
{
    let frame = match strip_packet_information(read, packet_information) {
        Some(frame) => frame,
        None => {
            return TunPacket::Short;
        },
    };
    if let Err(error) = Ipv4Packet::parse(frame) {
        return TunPacket::NotRoutable(error);
    }
    match engine.process_outbound_ip(frame, now) {
        Ok(output) => TunPacket::Processed(output),
        Err(error) => TunPacket::Rejected(error),
    }
}

/// Hands what the transport received to the engine.
pub fn process_transport_packet(
    engine: &mut Engine,
    frame: &[u8],
    source: SocketAddr,
    now: u64,
) -> (result: TransportPacket)
    requires
        old(engine).wf(),
    ensures
        final(engine).wf(),
        match result {
            TransportPacket::Malformed => auth::packet_meaning(frame@) is None && final(engine)@
                == old(engine)@,
            TransportPacket::Rejected(error) => auth::packet_meaning(frame@) is Some && old(engine)@.receives(frame@, source, now, Err(error), final(engine)@),
            TransportPacket::Processed(output) => auth::packet_meaning(frame@) is Some && old(engine)@.receives(frame@, source, now, Ok(output), final(engine)@),
        },
{
    if auth::decode_packet(frame).is_none() {
        return TransportPacket::Malformed;
    }
    match engine.process_inbound_transport(frame, source, now) {
        Ok(output) => TransportPacket::Processed(output),
        Err(error) => TransportPacket::Rejected(error),
    }
}

/// One thing for the application to do.
#[derive(Debug)]
pub enum TunnelStep {
    /// Send a frame through the transport, and report how that went.
    Send { peer_name: String, endpoint: SocketAddr, frame: Vec<u8> },
    /// Write these bytes to the packet interface.
    Write { peer_name: String, source: SocketAddr, output: Vec<u8> },
    /// Nothing: a packet cannot be delivered from here.
    Misplaced { peer_name: String },
}

impl TunnelStep {
    /// Whether this is how an action is performed where packets cannot be
    /// delivered, that is, for outbound packets and timers.
    pub open spec fn performs_sending(self, action: EngineAction) -> bool {
        match action {
            EngineAction::SendTransport { peer_name, endpoint, frame } => self
                == (TunnelStep::Send { peer_name, endpoint, frame }),
            EngineAction::WriteIpPacket { peer_name, .. } => self == (TunnelStep::Misplaced {
                peer_name,
            }),
        }
    }

    /// Whether this is how an action on a received packet is performed.
    pub open spec fn performs(
        self,
        action: EngineAction,
        packet_information: bool,
        family: u32,
    ) -> bool {
        match action {
            EngineAction::SendTransport { peer_name, endpoint, frame } => self
                == (TunnelStep::Send { peer_name, endpoint, frame }),
            EngineAction::WriteIpPacket { peer_name, source, packet } => match self {
                TunnelStep::Write { peer_name: name, source: from, output } => name == peer_name
                    && from == source && carries_packet_information(
                    output@,
                    packet@,
                    packet_information,
                    family,
                ),
                _ => false,
            },
        }
    }
}

/// How an action is performed that an outbound packet or a timer gave.
pub fn sending_step(action: EngineAction) -> (step: TunnelStep)
    ensures
        step.performs_sending(action),
{
    match action {
        EngineAction::SendTransport { peer_name, endpoint, frame } => TunnelStep::Send {
            peer_name,
            endpoint,
            frame,
        },
        EngineAction::WriteIpPacket { peer_name, source: _, packet: _ } => TunnelStep::Misplaced {
            peer_name,
        },
    }
}

/// How an action is performed that a received packet gave.
pub fn receiving_step(action: EngineAction, packet_information: bool, family: u32) -> (step:
    TunnelStep)
    ensures
        step.performs(action, packet_information, family),
{
    match action {
        EngineAction::SendTransport { peer_name, endpoint, frame } => TunnelStep::Send {
            peer_name,
            endpoint,
            frame,
        },
        EngineAction::WriteIpPacket { peer_name, source, packet } => {
            let output = add_packet_information(packet.as_slice(), packet_information, family);
            TunnelStep::Write { peer_name, source, output }
        },
    }
}

/// Takes note of how a send went: only what was sent is counted.
pub fn send_engine_frame(engine: &mut Engine, peer_name: &str, bytes: usize, sent: bool)
    requires
        old(engine).wf(),
    ensures
        final(engine).wf(),
        final(engine)@ == if sent {
            old(engine)@.with_peers(crate::state::after_tx(old(engine)@.peers, peer_name@, bytes))
        } else {
            old(engine)@
        },
{
    if sent {
        engine.record_transport_sent(peer_name, bytes);
    }
}

// ---------------------------------------------------------------------------
// Endpoints and statistics.
// ---------------------------------------------------------------------------

/// Resolve the destination endpoint for outbound packets to a peer.
///
/// Prefers the address learned from a recent inbound packet (NAT traversal /
/// roaming) and falls back to the statically configured endpoint when no
/// packet has been received from the peer yet. This lets peers behind NAT
/// establish connectivity by sending keepalives: once the server sees a
/// packet from the peer's real source address, it replies there instead of
/// the (possibly unreachable) configured endpoint.
pub fn resolve_endpoint(state: &PeerState, peer_name: &str, configured: SocketAddr) -> (endpoint:
    Option<SocketAddr>)
    ensures
        endpoint == match crate::state::stats_of(state@, peer_name@).current_endpoint {
            Some(learned) if learned.usable() => Some(learned),
            _ => if configured.usable() {
                Some(configured)
            } else {
                None
            },
        },
{
    if let Some(stats) = state.stats(peer_name) {
        if let Some(learned) = stats.current_endpoint {
            if learned.is_usable() {
                return Some(learned);
            }
        }
    }
    if configured.is_usable() {
        Some(configured)
    } else {
        None
    }
}

/// How long ago a peer was last seen, as text: in whole seconds, or never.
pub open spec fn last_seen_text(last_seen: Option<u64>, now: u64) -> Seq<char> {
    match last_seen {
        None => "never"@,
        Some(seen) => {
            let elapsed: int = if now >= seen {
                now - seen
            } else {
                0
            };
            crate::text::decimal_text((elapsed / SECOND as int) as nat) + "s ago"@
        },
    }
}

pub fn last_seen_ago(last_seen: Option<u64>, now: u64) -> (text: String)
    ensures
        text@ == last_seen_text(last_seen, now),
{
    match last_seen {
        None => "never".to_owned(),
        Some(seen) => {
            let mut text = decimal(now.saturating_sub(seen) / SECOND);
            text.append("s ago");
            text
        },
    }
}

// ---------------------------------------------------------------------------
// Shutdown.
// ---------------------------------------------------------------------------

/// What there is to undo when the tunnel ends.
pub struct Cleanup {
    routes: Vec<InstalledRoute>,
    firewall: Option<FirewallManager>,
}

/// The steps that undo it.
pub struct CleanupSteps {
    pub routes: Vec<RouteDeletion>,
    pub firewall: Vec<CleanupAction>,
}

impl Cleanup {
    pub closed spec fn installed(&self) -> Seq<InstalledRoute> {
        self.routes@
    }

    pub closed spec fn rules(&self) -> Option<FirewallManager> {
        self.firewall
    }

    pub fn new(routes: Vec<InstalledRoute>, firewall: Option<FirewallManager>) -> (cleanup: Cleanup)
        ensures
            cleanup.installed() == routes@,
            cleanup.rules() == firewall,
    {
        Cleanup { routes, firewall }
    }

    /// Everything that is left to undo: routes newest first, then the
    /// firewall. It is handed out once, so that undoing twice does no harm.
    pub fn run(&mut self, platform: Platform) -> (steps: CleanupSteps)
        ensures
            final(self).installed() == Seq::<InstalledRoute>::empty(),
            final(self).rules() is None,
            crate::routing::deletion_models(steps.routes@) == crate::routing::deletions_of(
                platform,
                crate::routing::installed_models(old(self).installed()),
                old(self).installed().len() as int,
            ),
            steps.firewall@.map_values(|action: CleanupAction| action@) == match old(self).rules() {
                Some(manager) => manager@.whole_cleanup(),
                None => Seq::empty(),
            },
    {
        let mut routes: Vec<InstalledRoute> = Vec::new();
        std::mem::swap(&mut routes, &mut self.routes);
        let mut firewall: Option<FirewallManager> = None;
        std::mem::swap(&mut firewall, &mut self.firewall);
        let deletions = cleanup_routes(platform, routes.as_slice());
        let actions = match &firewall {
            Some(manager) => manager.cleanup(),
            None => Vec::new(),
        };
        assert(firewall is None ==> actions@.map_values(|action: CleanupAction| action@)
            =~= Seq::empty());
        CleanupSteps { routes: deletions, firewall: actions }
    }
}

/// The status with which the program ends on a signal: a hangup asks to be
/// started again.
pub fn exit_status(hangup: bool) -> (status: i32)
    ensures
        status == if hangup {
            1int
        } else {
            0
        },
{
    if hangup {
        1
    } else {
        0
    }
}

// ---------------------------------------------------------------------------
// Laws.
// ---------------------------------------------------------------------------

/// Reading back what was written to the packet interface gives the packet.
pub proof fn packet_information_round_trips(
    output: Seq<u8>,
    frame: Seq<u8>,
    packet_information: bool,
    family: u32,
)
    requires
        carries_packet_information(output, frame, packet_information, family),
    ensures
        without_packet_information(output, packet_information) == Some(frame),
{
}

/// An outbound packet never gives a step that is out of place.
pub proof fn outbound_steps_are_in_place(
    engine: crate::engine::EngineModel,
    packet: Seq<u8>,
    now: u64,
    output: EngineOutput,
    after: crate::engine::EngineModel,
    i: int,
    step: TunnelStep,
)
    requires
        engine.sends_packet(packet, now, Ok(output), after),
        0 <= i < output.actions@.len(),
        step.performs_sending(output.actions@[i]),
    ensures
        step is Send,
{
    crate::engine::outbound_packets_are_only_sent(engine, packet, now, output, after, i);
}

/// The header of the packet interface is four bytes: what follows is the packet,
/// and without a header it is all of it.
pub proof fn packet_information_is_four_bytes(header: Seq<u8>, packet: Seq<u8>)
    ensures
        header.len() == 4 ==> without_packet_information(header + packet, true) == Some(packet),
        header.len() < 4 ==> without_packet_information(header, true) is None,
        without_packet_information(packet, false) == Some(packet),
{
    if header.len() == 4 {
        assert((header + packet).skip(4) =~= packet);
    }
}

/// A step does what the engine asked for: the frame that it sends, and the packet
/// that it writes, are those of the action, and go where that says.
pub proof fn steps_carry_what_the_engine_asked_for(
    action: EngineAction,
    step: TunnelStep,
    packet_information: bool,
    family: u32,
)
    requires
        step.performs(action, packet_information, family),
    ensures
        action matches EngineAction::SendTransport { peer_name, endpoint, frame } ==> (
        step matches TunnelStep::Send { peer_name: name, endpoint: to, frame: bytes } && name@
            == peer_name@ && to == endpoint && bytes@ == frame@),
        action matches EngineAction::WriteIpPacket { peer_name, source, packet } ==> (
        step matches TunnelStep::Write { peer_name: name, source: from, output } && name@
            == peer_name@ && from == source && without_packet_information(
            output@,
            packet_information,
        ) == Some(packet@)),
{
}

/// A frame that an outbound packet or a timer gave is sent as it is.
pub proof fn outbound_frames_are_sent_unchanged(action: EngineAction, step: TunnelStep)
    requires
        step.performs_sending(action),
    ensures
        action matches EngineAction::SendTransport { peer_name, endpoint, frame } ==> (
        step matches TunnelStep::Send { peer_name: name, endpoint: to, frame: bytes } && name@
            == peer_name@ && to == endpoint && bytes@ == frame@),
        action is WriteIpPacket ==> step is Misplaced,
{
}

/// How long ago a peer was seen is told in whole seconds.
pub proof fn last_seen_is_told_in_seconds(seen: u64, now: u64, seconds: nat)
    requires
        seen <= now,
        seconds * 1_000_000_000 <= now - seen < (seconds + 1) * 1_000_000_000,
    ensures
        last_seen_text(Some(seen), now) == crate::text::decimal_text(seconds) + "s ago"@,
        last_seen_text(None, now) == "never"@,
{
    assert((now - seen) / 1_000_000_000 == seconds);
}

} // verus!

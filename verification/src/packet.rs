//! IPv4 headers of packets that enter and leave the tunnel.

use vstd::prelude::*;

use crate::net::Ipv4Addr;

verus! {

/// A packet that begins with an IPv4 header.
#[derive(Clone, Copy, Debug)]
pub struct Ipv4Packet<'a> {
    bytes: &'a [u8],
}

#[derive(Clone, Copy, Debug, Eq, PartialEq, Structural)]
pub enum PacketError {
    /// The packet is too short for an IPv4 header.
    TooShort(usize),
    /// The version field is not four.
    NotIpv4(u8),
    /// The header length field exceeds the packet.
    HeaderTooLong { header_len: usize, packet_len: usize },
}

/// The version field: the upper half of the first byte.
pub open spec fn version_field(bytes: Seq<u8>) -> u8 {
    (bytes[0] / 16) as u8
}

/// The header length in bytes: four times the lower half of the first byte.
pub open spec fn header_length(bytes: Seq<u8>) -> int {
    bytes[0] % 16 * 4
}

/// Why a packet has no IPv4 header that fits it, if it has none.
pub open spec fn header_fault(bytes: Seq<u8>) -> Option<PacketError> {
    if bytes.len() < 20 {
        Some(PacketError::TooShort(bytes.len() as usize))
    } else if version_field(bytes) != 4 {
        Some(PacketError::NotIpv4(version_field(bytes)))
    } else if header_length(bytes) > bytes.len() {
        Some(
            PacketError::HeaderTooLong {
                header_len: header_length(bytes) as usize,
                packet_len: bytes.len() as usize,
            },
        )
    } else {
        None
    }
}

/// The four bytes from `start` on as an address.
pub open spec fn address_at(bytes: Seq<u8>, start: int) -> int {
    crate::net::ipv4_bits(bytes[start], bytes[start + 1], bytes[start + 2], bytes[start + 3])
}

impl<'a> View for Ipv4Packet<'a> {
    type V = Seq<u8>;

    closed spec fn view(&self) -> Seq<u8> {
        self.bytes@
    }
}

impl<'a> Ipv4Packet<'a> {
    #[verifier::type_invariant]
    spec fn has_header(self) -> bool {
        self.bytes@.len() >= 20
    }

    pub fn parse(bytes: &'a [u8]) -> (parsed: Result<Ipv4Packet<'a>, PacketError>)
        ensures
            match parsed {
                Ok(packet) => header_fault(bytes@) is None && packet@ == bytes@,
                Err(error) => header_fault(bytes@) == Some(error),
            },
    {
        if bytes.len() < 20 {
            return Err(PacketError::TooShort(bytes.len()));
        }
        let first: u8 = bytes[0];
        let version: u8 = first >> 4;
        assert(first >> 4 == first / 16) by (bit_vector);
        if version != 4 {
            return Err(PacketError::NotIpv4(version));
        }
        let words: u8 = first & 0x0f;
        assert(first & 0x0f == first % 16) by (bit_vector);
        let header_len: usize = words as usize * 4;
        if header_len > bytes.len() {
            return Err(PacketError::HeaderTooLong { header_len, packet_len: bytes.len() });
        }
        Ok(Ipv4Packet { bytes })
    }

    pub fn source(&self) -> (address: Ipv4Addr)
        ensures
            address.bits == address_at(self@, 12),
    {
        proof {
            use_type_invariant(self);
        }
        Ipv4Addr::new(self.bytes[12], self.bytes[13], self.bytes[14], self.bytes[15])
    }

    pub fn destination(&self) -> (address: Ipv4Addr)
        ensures
            address.bits == address_at(self@, 16),
    {
        proof {
            use_type_invariant(self);
        }
        Ipv4Addr::new(self.bytes[16], self.bytes[17], self.bytes[18], self.bytes[19])
    }

    pub fn protocol(&self) -> (protocol: u8)
        ensures
            protocol == self@[9],
    {
        proof {
            use_type_invariant(self);
        }
        self.bytes[9]
    }
}

// ---------------------------------------------------------------------------
// Laws.
// ---------------------------------------------------------------------------

/// A packet is accepted exactly if it has at least twenty bytes, its first one
/// lies between `0x40` and `0x4f`, and four times what that exceeds `0x40` by is
/// no more than the packet has. Each refusal names the first of these that
/// fails, with the numbers that show it.
pub proof fn packets_are_judged_by_length_and_first_byte(bytes: Seq<u8>)
    ensures
        header_fault(bytes) is None <==> bytes.len() >= 20 && 0x40 <= bytes[0] <= 0x4f && (bytes[0]
            - 0x40) * 4 <= bytes.len(),
        header_fault(bytes) matches Some(PacketError::TooShort(length)) ==> length < 20 && length
            == bytes.len(),
        bytes.len() < 20 ==> header_fault(bytes) is Some && header_fault(bytes)->0 is TooShort,
        header_fault(bytes) matches Some(PacketError::NotIpv4(version)) ==> version != 4 && version
            * 16 <= bytes[0] < version * 16 + 16,
        bytes.len() >= 20 && !(0x40 <= bytes[0] <= 0x4f) ==> header_fault(bytes) is Some
            && header_fault(bytes)->0 is NotIpv4,
        header_fault(bytes) matches Some(PacketError::HeaderTooLong { header_len, packet_len })
            ==> header_len > packet_len && packet_len == bytes.len() && header_len == (bytes[0]
            - 0x40) * 4,
{
}

/// Whatever follows a header, the packet is accepted: an IPv4 header of at least
/// twenty bytes that has the length that it states can carry any payload.
pub proof fn every_payload_is_accepted(header: Seq<u8>, payload: Seq<u8>)
    requires
        header.len() >= 20,
        0x40 <= header[0] <= 0x4f,
        header.len() == (header[0] - 0x40) * 4,
    ensures
        header_fault(header + payload) is None,
{
    assert((header + payload)[0] == header[0]);
}

/// The addresses of a packet are its bytes twelve to fifteen and sixteen to
/// nineteen, the first one on the left, and nothing else of the packet matters.
pub proof fn addresses_stand_in_network_order(bytes: Seq<u8>, start: int)
    ensures
        address_at(bytes, start) == 16777216 * bytes[start] + 65536 * bytes[start + 1] + 256
            * bytes[start + 2] + bytes[start + 3],
{
}

} // verus!

//! Addresses, prefixes and endpoints.

use vstd::arithmetic::power2::*;
use vstd::prelude::*;
use vstd::string::*;

use crate::text::{decimal, hexadecimal};

verus! {

/// An IPv4 address; its four octets are the big-endian bytes of `bits`.
#[derive(Clone, Copy, Debug, Eq, PartialEq, Structural, Hash, PartialOrd, Ord)]
pub struct Ipv4Addr {
    pub bits: u32,
}

/// An IPv6 address; its sixteen octets are the big-endian bytes of `bits`.
#[derive(Clone, Copy, Debug, Eq, PartialEq, Structural, Hash, PartialOrd, Ord)]
pub struct Ipv6Addr {
    pub bits: u128,
}

#[derive(Clone, Copy, Debug, Eq, PartialEq, Structural, Hash)]
pub enum IpAddr {
    V4(Ipv4Addr),
    V6(Ipv6Addr),
}

/// An internet endpoint: address and port, and for IPv6 flow and scope.
#[allow(inconsistent_fields)]
#[derive(Clone, Copy, Debug, Eq, PartialEq, Structural, Hash)]
pub enum SocketAddr {
    V4 { ip: Ipv4Addr, port: u16 },
    V6 { ip: Ipv6Addr, port: u16, flowinfo: u32, scope_id: u32 },
}

/// The 32-bit number whose big-endian bytes are these octets.
pub open spec fn ipv4_bits(a: u8, b: u8, c: u8, d: u8) -> int {
    a * 0x100_0000 + b * 0x1_0000 + c * 0x100 + d
}

impl Ipv4Addr {
    pub fn new(a: u8, b: u8, c: u8, d: u8) -> (address: Ipv4Addr)
        ensures
            address.bits == ipv4_bits(a, b, c, d),
    {
        Ipv4Addr { bits: a as u32 * 0x100_0000 + b as u32 * 0x1_0000 + c as u32 * 0x100 + d as u32 }
    }

    /// The four octets, most significant first.
    pub fn octets(&self) -> (octets: [u8; 4])
        ensures
            self.bits == ipv4_bits(octets@[0], octets@[1], octets@[2], octets@[3]),
    {
        [
            (self.bits / 0x100_0000) as u8,
            (self.bits / 0x1_0000 % 0x100) as u8,
            (self.bits / 0x100 % 0x100) as u8,
            (self.bits % 0x100) as u8,
        ]
    }

    /// The address in dotted decimal.
    pub open spec fn text(self) -> Seq<char> {
        crate::text::decimal_text((self.bits / 0x100_0000) as nat) + "."@
            + crate::text::decimal_text((self.bits / 0x1_0000 % 0x100) as nat) + "."@
            + crate::text::decimal_text((self.bits / 0x100 % 0x100) as nat) + "."@
            + crate::text::decimal_text((self.bits % 0x100) as nat)
    }

    /// The address in dotted decimal.
    pub fn to_text(&self) -> (text: String)
        ensures
            text@ == self.text(),
    {
        let mut text = decimal((self.bits / 0x100_0000) as u64);
        text.append(".");
        text.append(decimal((self.bits / 0x1_0000 % 0x100) as u64).as_str());
        text.append(".");
        text.append(decimal((self.bits / 0x100 % 0x100) as u64).as_str());
        text.append(".");
        text.append(decimal((self.bits % 0x100) as u64).as_str());
        text
    }
}

/// A run of neighbouring segments.
pub struct Run {
    pub start: int,
    pub len: int,
}

impl Ipv6Addr {
    /// The sixteen-bit segments, most significant first.
    pub open spec fn segments(self) -> Seq<nat> {
        Seq::new(8, |i: int| segment(self.bits, i))
    }

    /// The IPv4 address that `::ffff:a.b.c.d` stands for.
    pub open spec fn mapped(self) -> Option<Ipv4Addr> {
        if self.bits / 0x1_0000_0000 == 0xffff {
            Some(Ipv4Addr { bits: (self.bits % 0x1_0000_0000) as u32 })
        } else {
            None
        }
    }

    /// The address as text: an IPv4-mapped one shows its IPv4 address, and
    /// otherwise the first of the longest runs of zero segments, if it is
    /// longer than one, is left out.
    pub open spec fn text(self) -> Seq<char> {
        match self.mapped() {
            Some(v4) => "::ffff:"@ + v4.text(),
            None => {
                let zeros = longest_zeros(self.segments(), 8);
                if zeros.len > 1 {
                    segments_text(self.segments(), 0, zeros.start) + "::"@ + segments_text(
                        self.segments(),
                        zeros.start + zeros.len,
                        8,
                    )
                } else {
                    segments_text(self.segments(), 0, 8)
                }
            },
        }
    }
}

/// Segment `i` of an address, most significant first.
pub open spec fn segment(bits: u128, i: int) -> nat {
    if i <= 0 {
        (bits / 0x1_0000_0000_0000_0000_0000_0000_0000) as nat
    } else if i == 1 {
        (bits / 0x1_0000_0000_0000_0000_0000_0000 % 0x1_0000) as nat
    } else if i == 2 {
        (bits / 0x1_0000_0000_0000_0000_0000 % 0x1_0000) as nat
    } else if i == 3 {
        (bits / 0x1_0000_0000_0000_0000 % 0x1_0000) as nat
    } else if i == 4 {
        (bits / 0x1_0000_0000_0000 % 0x1_0000) as nat
    } else if i == 5 {
        (bits / 0x1_0000_0000 % 0x1_0000) as nat
    } else if i == 6 {
        (bits / 0x1_0000 % 0x1_0000) as nat
    } else {
        (bits % 0x1_0000) as nat
    }
}

/// The run of zeros that ends right before position `n`.
pub open spec fn zeros_before(segments: Seq<nat>, n: int) -> Run
    decreases n,
{
    if n <= 0 || segments[n - 1] != 0 {
        Run { start: n, len: 0 }
    } else {
        let before = zeros_before(segments, n - 1);
        Run { start: before.start, len: before.len + 1 }
    }
}

/// The first of the longest runs of zeros before position `n`.
pub open spec fn longest_zeros(segments: Seq<nat>, n: int) -> Run
    decreases n,
{
    if n <= 0 {
        Run { start: 0, len: 0 }
    } else {
        let longest = longest_zeros(segments, n - 1);
        let current = zeros_before(segments, n);
        if current.len > longest.len {
            current
        } else {
            longest
        }
    }
}

/// The segments from `start` to `end` in hexadecimal, separated by colons.
pub open spec fn segments_text(segments: Seq<nat>, start: int, end: int) -> Seq<char>
    decreases end - start,
{
    if end <= start {
        seq![]
    } else if end == start + 1 {
        crate::text::hex_text(segments[start])
    } else {
        segments_text(segments, start, end - 1) + ":"@ + crate::text::hex_text(segments[end - 1])
    }
}

fn push_segments(text: &mut String, segments: &[u16; 8], start: usize, end: usize)
    requires
        start <= end <= 8,
    ensures
        final(text)@ == old(text)@ + segments_text(
            segments@.map_values(|s: u16| s as nat),
            start as int,
            end as int,
        ),
{
    let ghost before = text@;
    let ghost values = segments@.map_values(|s: u16| s as nat);
    let mut i: usize = start;
    assert(before + segments_text(values, start as int, start as int) =~= before);
    while i < end
        invariant
            start <= i <= end <= 8,
            values == segments@.map_values(|s: u16| s as nat),
            text@ == before + segments_text(values, start as int, i as int),
        decreases end - i,
    {
        if i > start {
            text.append(":");
        }
        text.append(hexadecimal(segments[i] as u64).as_str());
        i = i + 1;
        assert(text@ =~= before + segments_text(values, start as int, i as int));
    }
}

impl Ipv6Addr {
    fn to_segments(&self) -> (segments: [u16; 8])
        ensures
            segments@.map_values(|s: u16| s as nat) == self.segments(),
    {
        let b: u128 = self.bits;
        let segments: [u16; 8] = [
            (b / 0x1_0000_0000_0000_0000_0000_0000_0000) as u16,
            (b / 0x1_0000_0000_0000_0000_0000_0000 % 0x1_0000) as u16,
            (b / 0x1_0000_0000_0000_0000_0000 % 0x1_0000) as u16,
            (b / 0x1_0000_0000_0000_0000 % 0x1_0000) as u16,
            (b / 0x1_0000_0000_0000 % 0x1_0000) as u16,
            (b / 0x1_0000_0000 % 0x1_0000) as u16,
            (b / 0x1_0000 % 0x1_0000) as u16,
            (b % 0x1_0000) as u16,
        ];
        assert(segments@.map_values(|s: u16| s as nat) =~= self.segments());
        segments
    }

    /// The address as text.
    pub fn to_text(&self) -> (text: String)
        ensures
            text@ == self.text(),
    {
        if self.bits / 0x1_0000_0000 == 0xffff {
            let v4 = Ipv4Addr { bits: (self.bits % 0x1_0000_0000) as u32 };
            let mut text = "::ffff:".to_owned();
            text.append(v4.to_text().as_str());
            return text;
        }
        let segments = self.to_segments();
        let ghost values = self.segments();
        let mut longest_start: usize = 0;
        let mut longest_len: usize = 0;
        let mut current_start: usize = 0;
        let mut current_len: usize = 0;
        let mut i: usize = 0;
        while i < 8
            invariant
                i <= 8,
                values == segments@.map_values(|s: u16| s as nat),
                current_start + current_len == i,
                zeros_before(values, i as int) == (Run {
                    start: current_start as int,
                    len: current_len as int,
                }),
                longest_start + longest_len <= i,
                longest_zeros(values, i as int) == (Run {
                    start: longest_start as int,
                    len: longest_len as int,
                }),
            decreases 8 - i,
        {
            assert(values[i as int] == segments@[i as int]);
            if segments[i] == 0 {
                current_len = current_len + 1;
            } else {
                current_start = i + 1;
                current_len = 0;
            }
            if current_len > longest_len {
                longest_start = current_start;
                longest_len = current_len;
            }
            i = i + 1;
        }
        let mut text = String::new();
        if longest_len > 1 {
            push_segments(&mut text, &segments, 0, longest_start);
            text.append("::");
            push_segments(&mut text, &segments, longest_start + longest_len, 8);
        } else {
            push_segments(&mut text, &segments, 0, 8);
        }
        assert(text@ =~= self.text());
        text
    }
}

impl IpAddr {
    pub open spec fn text(self) -> Seq<char> {
        match self {
            IpAddr::V4(ip) => ip.text(),
            IpAddr::V6(ip) => ip.text(),
        }
    }

    /// The address as text.
    pub fn to_text(&self) -> (text: String)
        ensures
            text@ == self.text(),
    {
        match self {
            IpAddr::V4(ip) => ip.to_text(),
            IpAddr::V6(ip) => ip.to_text(),
        }
    }
}

impl SocketAddr {
    /// The endpoint as text: an IPv6 address stands in brackets, with its
    /// scope unless that is zero.
    pub open spec fn text(self) -> Seq<char> {
        match self {
            SocketAddr::V4 { ip, port } => ip.text() + ":"@ + crate::text::decimal_text(
                port as nat,
            ),
            SocketAddr::V6 { ip, port, scope_id, .. } => "["@ + ip.text() + (if scope_id == 0 {
                Seq::<char>::empty()
            } else {
                "%"@ + crate::text::decimal_text(scope_id as nat)
            }) + "]:"@ + crate::text::decimal_text(port as nat),
        }
    }

    /// The endpoint as text.
    pub fn to_text(&self) -> (text: String)
        ensures
            text@ == self.text(),
    {
        match *self {
            SocketAddr::V4 { ip, port } => {
                let mut text = ip.to_text();
                text.append(":");
                text.append(decimal(port as u64).as_str());
                text
            },
            SocketAddr::V6 { ip, port, scope_id, .. } => {
                let mut text = "[".to_owned();
                text.append(ip.to_text().as_str());
                if scope_id != 0 {
                    text.append("%");
                    text.append(decimal(scope_id as u64).as_str());
                }
                text.append("]:");
                text.append(decimal(port as u64).as_str());
                assert(text@ =~= self.text());
                text
            },
        }
    }

    pub open spec fn ip_of(self) -> IpAddr {
        match self {
            SocketAddr::V4 { ip, .. } => IpAddr::V4(ip),
            SocketAddr::V6 { ip, .. } => IpAddr::V6(ip),
        }
    }

    pub open spec fn port_of(self) -> u16 {
        match self {
            SocketAddr::V4 { port, .. } => port,
            SocketAddr::V6 { port, .. } => port,
        }
    }

    /// Whether the address is `0.0.0.0` or `::`.
    pub open spec fn unspecified(self) -> bool {
        match self {
            SocketAddr::V4 { ip, .. } => ip.bits == 0,
            SocketAddr::V6 { ip, .. } => ip.bits == 0,
        }
    }

    pub fn ip(&self) -> (ip: IpAddr)
        ensures
            ip == self.ip_of(),
    {
        match *self {
            SocketAddr::V4 { ip, .. } => IpAddr::V4(ip),
            SocketAddr::V6 { ip, .. } => IpAddr::V6(ip),
        }
    }

    pub fn port(&self) -> (port: u16)
        ensures
            port == self.port_of(),
    {
        match *self {
            SocketAddr::V4 { port, .. } => port,
            SocketAddr::V6 { port, .. } => port,
        }
    }

    /// Whether a packet can be sent there: a specified address and a port
    /// other than zero.
    pub open spec fn usable(self) -> bool {
        !self.unspecified() && self.port_of() != 0
    }

    pub fn is_usable(&self) -> (r: bool)
        ensures
            r == self.usable(),
    {
        match *self {
            SocketAddr::V4 { ip, port } => ip.bits != 0 && port != 0,
            SocketAddr::V6 { ip, port, .. } => ip.bits != 0 && port != 0,
        }
    }

    pub fn is_ipv4(&self) -> (r: bool)
        ensures
            r == (self is V4),
    {
        match *self {
            SocketAddr::V4 { .. } => true,
            SocketAddr::V6 { .. } => false,
        }
    }
}

/// An IPv4 prefix as written: the host bits of `addr` are kept, and two
/// prefixes that differ in them are different.
#[derive(Clone, Copy, Debug, Eq, PartialEq, Structural, Hash)]
pub struct Ipv4Net {
    pub addr: Ipv4Addr,
    pub prefix_len: u8,
}

/// The number of host bits under a prefix length; none from 32 on.
pub open spec fn host_bits(prefix_len: u8) -> nat {
    if prefix_len >= 32 {
        0
    } else {
        (32 - prefix_len) as nat
    }
}

/// The block of `2^host_bits` addresses in which an address lies, counted
/// from zero.
pub open spec fn block_index(bits: u32, prefix_len: u8) -> int {
    bits as int / pow2(host_bits(prefix_len)) as int
}

proof fn lemma_edge_blocks(bits: u32, prefix_len: u8)
    ensures
        prefix_len >= 32 ==> block_index(bits, prefix_len) == bits && pow2(host_bits(prefix_len))
            == 1,
        prefix_len == 0 ==> block_index(bits, prefix_len) == 0,
{
    lemma2_to64();
    lemma2_to64_rest();
    if prefix_len >= 32 {
        assert(pow2(host_bits(prefix_len)) == 1);
        assert(bits as int / 1 == bits);
    } else if prefix_len == 0 {
        assert(pow2(host_bits(prefix_len)) == 0x1_0000_0000);
        assert(bits as int / 0x1_0000_0000 == 0);
    }
}

impl Ipv4Net {
    /// A prefix has at most 32 bits.
    pub open spec fn wf(self) -> bool {
        self.prefix_len <= 32
    }

    /// Whether the first `prefix_len` bits of `address` are the prefix's.
    pub open spec fn covers(self, address: Ipv4Addr) -> bool {
        block_index(address.bits, self.prefix_len) == block_index(self.addr.bits, self.prefix_len)
    }

    /// The lowest address of the prefix.
    pub open spec fn network_bits(self) -> int {
        block_index(self.addr.bits, self.prefix_len) * pow2(host_bits(self.prefix_len))
    }

    /// A prefix, unless the length exceeds 32.
    pub fn new(addr: Ipv4Addr, prefix_len: u8) -> (net: Option<Ipv4Net>)
        ensures
            net == if prefix_len <= 32 {
                Some(Ipv4Net { addr, prefix_len })
            } else {
                None::<Ipv4Net>
            },
    {
        if prefix_len <= 32 {
            Some(Ipv4Net { addr, prefix_len })
        } else {
            None
        }
    }

    pub fn contains(&self, address: &Ipv4Addr) -> (r: bool)
        ensures
            r == self.covers(*address),
    {
        proof {
            lemma_edge_blocks(self.addr.bits, self.prefix_len);
            lemma_edge_blocks(address.bits, self.prefix_len);
        }
        if self.prefix_len >= 32 {
            return self.addr.bits == address.bits;
        }
        if self.prefix_len == 0 {
            return true;
        }
        let shift: u32 = 32 - self.prefix_len as u32;
        proof {
            vstd::bits::lemma_u32_shr_is_div(address.bits, shift);
            vstd::bits::lemma_u32_shr_is_div(self.addr.bits, shift);
        }
        (address.bits >> shift) == (self.addr.bits >> shift)
    }

    /// The lowest address of the prefix.
    pub fn network(&self) -> (address: Ipv4Addr)
        ensures
            address.bits == self.network_bits(),
    {
        proof {
            lemma_edge_blocks(self.addr.bits, self.prefix_len);
        }
        if self.prefix_len >= 32 {
            return self.addr;
        }
        if self.prefix_len == 0 {
            return Ipv4Addr { bits: 0 };
        }
        let shift: u32 = 32 - self.prefix_len as u32;
        let bits: u32 = self.addr.bits;
        let block: u32 = bits >> shift;
        let size: u32 = 1u32 << shift;
        proof {
            vstd::bits::lemma_u32_shr_is_div(bits, shift);
            lemma_pow2_pos(shift as nat);
            lemma_pow2_strictly_increases(shift as nat, 32);
            lemma2_to64();
            vstd::bits::lemma_u32_shl_is_mul(1, shift);
            vstd::arithmetic::div_mod::lemma_fundamental_div_mod(
                bits as int,
                pow2(shift as nat) as int,
            );
            assert(block as int * size as int == size as int * block as int) by (nonlinear_arith);
        }
        Ipv4Addr { bits: block * size }
    }

    /// The prefix as text: the address as written, a slash, and the length.
    pub open spec fn text(self) -> Seq<char> {
        self.addr.text() + "/"@ + crate::text::decimal_text(self.prefix_len as nat)
    }

    pub fn to_text(&self) -> (text: String)
        ensures
            text@ == self.text(),
    {
        let mut text = self.addr.to_text();
        text.append("/");
        text.append(decimal(self.prefix_len as u64).as_str());
        text
    }
}

/// A prefix of length zero covers every address.
pub proof fn default_prefix_covers_everything(addr: Ipv4Addr, address: Ipv4Addr)
    ensures
        (Ipv4Net { addr, prefix_len: 0 }).covers(address),
{
    lemma_edge_blocks(addr.bits, 0);
    lemma_edge_blocks(address.bits, 0);
}

/// A full-length prefix covers its own address alone.
pub proof fn host_prefix_covers_one_address(addr: Ipv4Addr, address: Ipv4Addr)
    ensures
        (Ipv4Net { addr, prefix_len: 32 }).covers(address) == (address == addr),
{
    lemma_edge_blocks(addr.bits, 32);
    lemma_edge_blocks(address.bits, 32);
}

/// Different octets make different addresses.
pub proof fn octets_identify_an_address(
    a: u8,
    b: u8,
    c: u8,
    d: u8,
    e: u8,
    f: u8,
    g: u8,
    h: u8,
)
    requires
        ipv4_bits(a, b, c, d) == ipv4_bits(e, f, g, h),
    ensures
        a == e && b == f && c == g && d == h,
{
}

/// A prefix of `n` bits covers exactly the addresses that agree with it in
/// their first `n` bits.
pub proof fn prefix_covers_equal_leading_bits(net: Ipv4Net, address: Ipv4Addr)
    requires
        1 <= net.prefix_len <= 32,
    ensures
        net.covers(address) <==> address.bits >> ((32 - net.prefix_len) as u32) == net.addr.bits
            >> ((32 - net.prefix_len) as u32),
{
    let shift = (32 - net.prefix_len) as u32;
    lemma_edge_blocks(net.addr.bits, net.prefix_len);
    lemma_edge_blocks(address.bits, net.prefix_len);
    if net.prefix_len == 32 {
        let a = address.bits;
        let b = net.addr.bits;
        assert(a >> 0u32 == a) by (bit_vector);
        assert(b >> 0u32 == b) by (bit_vector);
    } else {
        vstd::bits::lemma_u32_shr_is_div(address.bits, shift);
        vstd::bits::lemma_u32_shr_is_div(net.addr.bits, shift);
    }
}

/// The addresses that a prefix of `n` bits covers are the `2^(32 - n)` from its
/// network address on, and its own address is among them.
pub proof fn prefix_covers_one_block(net: Ipv4Net, address: Ipv4Addr)
    requires
        net.prefix_len <= 32,
    ensures
        net.covers(net.addr),
        net.network_bits() <= net.addr.bits,
        net.covers(address) <==> net.network_bits() <= address.bits < net.network_bits() + pow2(
            (32 - net.prefix_len) as nat,
        ),
{
    let size = pow2((32 - net.prefix_len) as nat) as int;
    lemma_pow2_pos((32 - net.prefix_len) as nat);
    let own = net.addr.bits as int / size;
    let other = address.bits as int / size;
    vstd::arithmetic::div_mod::lemma_fundamental_div_mod(net.addr.bits as int, size);
    vstd::arithmetic::div_mod::lemma_fundamental_div_mod(address.bits as int, size);
    vstd::arithmetic::div_mod::lemma_mod_bound(net.addr.bits as int, size);
    vstd::arithmetic::div_mod::lemma_mod_bound(address.bits as int, size);
    assert(own * size == size * own && other * size == size * other) by (nonlinear_arith);
    if own < other {
        assert(size * other >= size * own + size) by (nonlinear_arith)
            requires
                own < other,
                size > 0,
        ;
    } else if other < own {
        assert(size * own >= size * other + size) by (nonlinear_arith)
            requires
                other < own,
                size > 0,
        ;
    }
}

/// An endpoint can be sent to exactly if neither its address nor its port is
/// all zeros, whatever else it says.
pub proof fn endpoints_are_usable_unless_zero(endpoint: SocketAddr)
    ensures
        endpoint matches SocketAddr::V4 { ip, port } ==> (endpoint.usable() <==> ip.bits != 0
            && port != 0),
        endpoint matches SocketAddr::V6 { ip, port, flowinfo: _, scope_id: _ } ==> (
        endpoint.usable() <==> ip.bits != 0 && port != 0),
{
}

/// An address is written as its four octets in decimal, with dots between them.
pub proof fn addresses_are_written_by_octets(address: Ipv4Addr, a: u8, b: u8, c: u8, d: u8)
    requires
        address.bits == ipv4_bits(a, b, c, d),
    ensures
        address.text() == crate::text::decimal_text(a as nat) + "."@ + crate::text::decimal_text(
            b as nat,
        ) + "."@ + crate::text::decimal_text(c as nat) + "."@ + crate::text::decimal_text(d as nat),
{
    let bits = address.bits as int;
    assert(bits / 0x100_0000 == a);
    assert(bits / 0x1_0000 == a * 0x100 + b);
    assert(bits / 0x1_0000 % 0x100 == b);
    assert(bits / 0x100 == a * 0x1_0000 + b * 0x100 + c);
    assert(bits / 0x100 % 0x100 == c);
    assert(bits % 0x100 == d);
}

/// The segments of an IPv6 address, the first of which counts most, make up the
/// address.
pub proof fn segments_make_up_the_address(address: Ipv6Addr)
    ensures
        address.segments().len() == 8,
        forall|i: int|
            #![trigger address.segments()[i]]
            0 <= i < 8 ==> address.segments()[i] < 65536,
        address.bits == ((((((address.segments()[0] * 65536 + address.segments()[1]) * 65536
            + address.segments()[2]) * 65536 + address.segments()[3]) * 65536
            + address.segments()[4]) * 65536 + address.segments()[5]) * 65536
            + address.segments()[6]) * 65536 + address.segments()[7],
{
    let bits = address.bits as int;
    let s = address.segments();
    let q7 = bits / 65536;
    let q6 = q7 / 65536;
    let q5 = q6 / 65536;
    let q4 = q5 / 65536;
    let q3 = q4 / 65536;
    let q2 = q3 / 65536;
    let q1 = q2 / 65536;
    assert(s[7] == bits % 65536);
    assert(q6 == bits / 0x1_0000_0000);
    assert(q5 == bits / 0x1_0000_0000_0000);
    assert(q4 == bits / 0x1_0000_0000_0000_0000);
    assert(q3 == bits / 0x1_0000_0000_0000_0000_0000);
    assert(q2 == bits / 0x1_0000_0000_0000_0000_0000_0000);
    assert(q1 == bits / 0x1_0000_0000_0000_0000_0000_0000_0000);
    assert(s[6] == q7 % 65536 && s[5] == q6 % 65536 && s[4] == q5 % 65536 && s[3] == q4 % 65536);
    assert(s[2] == q3 % 65536 && s[1] == q2 % 65536 && s[0] == q1);
}

proof fn lemma_zeros_before(segments: Seq<nat>, n: int)
    requires
        0 <= n <= segments.len(),
    ensures
        ({
            let run = zeros_before(segments, n);
            &&& 0 <= run.start && run.start + run.len == n && run.len >= 0
            &&& forall|j: int| #![trigger segments[j]] run.start <= j < n ==> segments[j] == 0
            &&& run.start > 0 ==> segments[run.start - 1] != 0
        }),
    decreases n,
{
    if n > 0 && segments[n - 1] == 0 {
        lemma_zeros_before(segments, n - 1);
    }
}

/// What an IPv6 address leaves out is a run of zeros, and there is none longer,
/// nor one as long before it.
pub proof fn the_longest_zeros_are_left_out(segments: Seq<nat>, n: int, start: int, end: int)
    requires
        0 <= n <= segments.len(),
        0 <= start <= end <= n,
        forall|j: int| #![trigger segments[j]] start <= j < end ==> segments[j] == 0,
    ensures
        ({
            let run = longest_zeros(segments, n);
            &&& 0 <= run.start && run.start + run.len <= n && run.len >= 0
            &&& forall|j: int|
                #![trigger segments[j]]
                run.start <= j < run.start + run.len ==> segments[j] == 0
            &&& end - start <= run.len
            &&& end - start == run.len && run.len > 0 ==> run.start <= start
        }),
    decreases n,
{
    if n > 0 {
        lemma_zeros_before(segments, n);
        let current = zeros_before(segments, n);
        if end < n {
            the_longest_zeros_are_left_out(segments, n - 1, start, end);
        } else {
            let first = if start < n {
                start
            } else {
                n - 1
            };
            the_longest_zeros_are_left_out(segments, n - 1, first, n - 1);
            if start < current.start {
                assert(segments[current.start - 1] == 0);
            }
        }
    }
}

} // verus!

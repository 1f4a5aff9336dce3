//! Big-endian integers and byte-slice helpers.

use vstd::arithmetic::power::*;
use vstd::prelude::*;

verus! {

/// The number that a byte sequence spells, most significant byte first.
pub open spec fn be_value(s: Seq<u8>) -> nat
    decreases s.len(),
{
    if s.len() == 0 {
        0
    } else {
        be_value(s.drop_last()) * 256 + s.last() as nat
    }
}

proof fn lemma_be_value_push(s: Seq<u8>, b: u8)
    ensures
        be_value(s.push(b)) == be_value(s) * 256 + b,
{
    assert(s.push(b).drop_last() =~= s);
}

/// Two byte sequences of one length that spell the same number are equal.
pub proof fn lemma_be_value_injective(a: Seq<u8>, b: Seq<u8>)
    requires
        a.len() == b.len(),
        be_value(a) == be_value(b),
    ensures
        a == b,
    decreases a.len(),
{
    if a.len() > 0 {
        lemma_be_value_injective(a.drop_last(), b.drop_last());
        assert(a == a.drop_last().push(a.last()));
        assert(b == b.drop_last().push(b.last()));
    }
    assert(a =~= b);
}

/// The eight big-endian bytes of `x`.
pub fn u64_to_be_bytes(x: u64) -> (bytes: [u8; 8])
    ensures
        be_value(bytes@) == x,
{
    let x1: u64 = x / 256;
    let x2: u64 = x1 / 256;
    let x3: u64 = x2 / 256;
    let x4: u64 = x3 / 256;
    let x5: u64 = x4 / 256;
    let x6: u64 = x5 / 256;
    let x7: u64 = x6 / 256;
    let bytes: [u8; 8] = [
        x7 as u8,
        (x6 % 256) as u8,
        (x5 % 256) as u8,
        (x4 % 256) as u8,
        (x3 % 256) as u8,
        (x2 % 256) as u8,
        (x1 % 256) as u8,
        (x % 256) as u8,
    ];
    proof {
        let s1 = Seq::<u8>::empty().push(bytes@[0]);
        let s2 = s1.push(bytes@[1]);
        let s3 = s2.push(bytes@[2]);
        let s4 = s3.push(bytes@[3]);
        let s5 = s4.push(bytes@[4]);
        let s6 = s5.push(bytes@[5]);
        let s7 = s6.push(bytes@[6]);
        lemma_be_value_push(Seq::<u8>::empty(), bytes@[0]);
        lemma_be_value_push(s1, bytes@[1]);
        lemma_be_value_push(s2, bytes@[2]);
        lemma_be_value_push(s3, bytes@[3]);
        lemma_be_value_push(s4, bytes@[4]);
        lemma_be_value_push(s5, bytes@[5]);
        lemma_be_value_push(s6, bytes@[6]);
        lemma_be_value_push(s7, bytes@[7]);
        assert(bytes@ =~= s7.push(bytes@[7]));
    }
    bytes
}

/// The two big-endian bytes of `x`.
pub fn u16_to_be_bytes(x: u16) -> (bytes: [u8; 2])
    ensures
        be_value(bytes@) == x,
{
    let bytes: [u8; 2] = [(x / 256) as u8, (x % 256) as u8];
    proof {
        let high = Seq::<u8>::empty().push(bytes@[0]);
        lemma_be_value_push(Seq::<u8>::empty(), bytes@[0]);
        lemma_be_value_push(high, bytes@[1]);
        assert(bytes@ =~= high.push(bytes@[1]));
    }
    bytes
}

/// The four big-endian bytes of `x`.
pub fn u32_to_be_bytes(x: u32) -> (bytes: [u8; 4])
    ensures
        be_value(bytes@) == x,
{
    let bytes: [u8; 4] = [
        (x / 0x100_0000) as u8,
        (x / 0x1_0000 % 0x100) as u8,
        (x / 0x100 % 0x100) as u8,
        (x % 0x100) as u8,
    ];
    proof {
        let s1 = Seq::<u8>::empty().push(bytes@[0]);
        let s2 = s1.push(bytes@[1]);
        let s3 = s2.push(bytes@[2]);
        lemma_be_value_push(Seq::<u8>::empty(), bytes@[0]);
        lemma_be_value_push(s1, bytes@[1]);
        lemma_be_value_push(s2, bytes@[2]);
        lemma_be_value_push(s3, bytes@[3]);
        assert(bytes@ =~= s3.push(bytes@[3]));
    }
    bytes
}

proof fn lemma_be_value_append(a: Seq<u8>, b: Seq<u8>)
    ensures
        be_value(a + b) == be_value(a) * pow(256, b.len()) + be_value(b),
    decreases b.len(),
{
    if b.len() == 0 {
        assert(a + b =~= a);
        lemma_pow0(256);
    } else {
        let shorter = b.drop_last();
        assert((a + b).drop_last() =~= a + shorter);
        lemma_be_value_append(a, shorter);
        reveal(pow);
        assert(pow(256, b.len()) == 256 * pow(256, shorter.len()));
        assert((be_value(a) * pow(256, shorter.len()) + be_value(shorter)) * 256 == be_value(a) * (
        256 * pow(256, shorter.len())) + be_value(shorter) * 256) by (nonlinear_arith);
    }
}

/// Eight bytes in front of eight others count 2^64 times as much.
proof fn lemma_be_value_halves(high: Seq<u8>, low: Seq<u8>)
    requires
        low.len() == 8,
    ensures
        be_value(high + low) == be_value(high) * 0x1_0000_0000_0000_0000 + be_value(low),
{
    lemma_be_value_append(high, low);
    assert(pow(256, 8) == 0x1_0000_0000_0000_0000) by {
        reveal_with_fuel(pow, 9);
    }
}

/// The sixteen big-endian bytes of `x`.
pub fn u128_to_be_bytes(x: u128) -> (bytes: [u8; 16])
    ensures
        be_value(bytes@) == x,
{
    let high = u64_to_be_bytes((x / 0x1_0000_0000_0000_0000) as u64);
    let low = u64_to_be_bytes((x % 0x1_0000_0000_0000_0000) as u64);
    let bytes: [u8; 16] = [
        high[0],
        high[1],
        high[2],
        high[3],
        high[4],
        high[5],
        high[6],
        high[7],
        low[0],
        low[1],
        low[2],
        low[3],
        low[4],
        low[5],
        low[6],
        low[7],
    ];
    proof {
        assert(bytes@ =~= high@ + low@);
        lemma_be_value_halves(high@, low@);
    }
    bytes
}

/// The number that sixteen bytes spell.
pub fn u128_from_be_bytes(bytes: &[u8; 16]) -> (value: u128)
    ensures
        value == be_value(bytes@),
{
    let high: u64 = read_be(bytes.as_slice(), 0, 8);
    let low: u64 = read_be(bytes.as_slice(), 8, 8);
    proof {
        assert(bytes@ =~= bytes@.subrange(0, 8) + bytes@.subrange(8, 16));
        lemma_be_value_halves(bytes@.subrange(0, 8), bytes@.subrange(8, 16));
    }
    high as u128 * 0x1_0000_0000_0000_0000 + low as u128
}

/// Reads the number that `count` bytes of `data` at `start` spell.
pub fn read_be(data: &[u8], start: usize, count: usize) -> (value: u64)
    requires
        count <= 8,
        start + count <= data@.len(),
    ensures
        value == be_value(data@.subrange(start as int, start + count)),
{
    let mut value: u64 = 0;
    let mut i: usize = 0;
    let ghost mut bound: int = 1;
    while i < count
        invariant
            i <= count <= 8,
            start + count <= data.len(),
            data.len() == data@.len(),
            value == be_value(data@.subrange(start as int, start + i)),
            value < bound,
            i < 8 ==> bound <= 0x100_0000_0000_0000,
            i == 0 ==> bound == 1,
            i == 1 ==> bound == 0x100,
            i == 2 ==> bound == 0x1_0000,
            i == 3 ==> bound == 0x100_0000,
            i == 4 ==> bound == 0x1_0000_0000,
            i == 5 ==> bound == 0x100_0000_0000,
            i == 6 ==> bound == 0x1_0000_0000_0000,
            i == 7 ==> bound == 0x100_0000_0000_0000,
        decreases count - i,
    {
        let ghost whole = data@.subrange(start as int, start + i + 1);
        assert(whole.drop_last() =~= data@.subrange(start as int, start + i));
        value = value * 256 + data[start + i] as u64;
        proof {
            bound = bound * 256;
        }
        i = i + 1;
    }
    value
}

/// The first eight bytes of `data` from `start` on, as an array.
pub fn read_array8(data: &[u8], start: usize) -> (out: [u8; 8])
    requires
        start + 8 <= data@.len(),
    ensures
        out@ == data@.subrange(start as int, start + 8),
{
    let out: [u8; 8] = [
        data[start],
        data[start + 1],
        data[start + 2],
        data[start + 3],
        data[start + 4],
        data[start + 5],
        data[start + 6],
        data[start + 7],
    ];
    assert(out@ =~= data@.subrange(start as int, start + 8));
    out
}

/// Whether two byte strings are equal.
pub fn same_bytes(a: &[u8], b: &[u8]) -> (same: bool)
    ensures
        same == (a@ == b@),
{
    if a.len() != b.len() {
        return false;
    }
    let mut i: usize = 0;
    while i < a.len()
        invariant
            i <= a.len(),
            a@.len() == b@.len(),
            forall|j: int| 0 <= j < i ==> a@[j] == b@[j],
        decreases a.len() - i,
    {
        if a[i] != b[i] {
            return false;
        }
        i = i + 1;
    }
    assert(a@ =~= b@);
    true
}

/// The lexicographic order of byte strings.
pub open spec fn precedes(a: Seq<u8>, b: Seq<u8>) -> bool
    decreases a.len(),
{
    if b.len() == 0 {
        false
    } else if a.len() == 0 {
        true
    } else if a[0] == b[0] {
        precedes(a.drop_first(), b.drop_first())
    } else {
        a[0] < b[0]
    }
}

pub proof fn lemma_precedes_is_transitive(a: Seq<u8>, b: Seq<u8>, c: Seq<u8>)
    requires
        precedes(a, b),
        precedes(b, c),
    ensures
        precedes(a, c),
    decreases a.len(),
{
    if a.len() > 0 && a[0] == b[0] && b[0] == c[0] {
        lemma_precedes_is_transitive(a.drop_first(), b.drop_first(), c.drop_first());
    }
}

/// Of two different byte strings one precedes the other.
pub proof fn lemma_precedes_is_total(a: Seq<u8>, b: Seq<u8>)
    requires
        a != b,
    ensures
        precedes(a, b) || precedes(b, a),
    decreases a.len(),
{
    if a.len() > 0 && b.len() > 0 && a[0] == b[0] {
        if a.drop_first() == b.drop_first() {
            assert(a =~= seq![a[0]] + a.drop_first());
            assert(b =~= seq![b[0]] + b.drop_first());
        }
        lemma_precedes_is_total(a.drop_first(), b.drop_first());
    } else if a.len() == 0 && b.len() == 0 {
        assert(a =~= b);
    }
}

/// Whether one byte string precedes another.
pub fn is_before(a: &[u8], b: &[u8]) -> (before: bool)
    ensures
        before == precedes(a@, b@),
{
    let mut i: usize = 0;
    assert(a@.skip(0) =~= a@);
    assert(b@.skip(0) =~= b@);
    while i < a.len() && i < b.len()
        invariant
            i <= a@.len(),
            i <= b@.len(),
            precedes(a@, b@) == precedes(a@.skip(i as int), b@.skip(i as int)),
        decreases a@.len() - i,
    {
        if a[i] != b[i] {
            return a[i] < b[i];
        }
        assert(a@.skip(i as int).drop_first() =~= a@.skip(i + 1));
        assert(b@.skip(i as int).drop_first() =~= b@.skip(i + 1));
        i = i + 1;
    }
    i < b.len()
}

/// Thirty-two bytes as an array.
pub fn to_array32(data: &[u8]) -> (out: [u8; 32])
    requires
        data@.len() == 32,
    ensures
        out@ == data@,
{
    let mut out: [u8; 32] = [0u8;32];
    let mut i: usize = 0;
    while i < 32
        invariant
            i <= 32,
            data@.len() == 32,
            forall|j: int| 0 <= j < i ==> out@[j] == data@[j],
        decreases 32 - i,
    {
        out[i] = data[i];
        i = i + 1;
    }
    assert(out@ =~= data@);
    out
}

/// Every byte that follows multiplies a number by 256 and adds itself; nothing
/// spells zero; and eight bytes spell what a 64-bit number can hold.
pub proof fn bytes_spell_most_significant_first(s: Seq<u8>, b: u8)
    ensures
        be_value(Seq::empty()) == 0,
        be_value(s.push(b)) == 256 * be_value(s) + b,
        s.len() <= 8 ==> be_value(s) <= 18_446_744_073_709_551_615,
{
    lemma_be_value_push(s, b);
    lemma_be_value_limit(s);
    if s.len() <= 8 {
        assert(pow(256, s.len()) <= pow(256, 8)) by {
            lemma_pow_increases(256, s.len(), 8);
        }
        assert(pow(256, 8) == 18_446_744_073_709_551_616) by {
            reveal_with_fuel(pow, 9);
        }
    }
}

proof fn lemma_be_value_limit(s: Seq<u8>)
    ensures
        be_value(s) < pow(256, s.len()),
    decreases s.len(),
{
    reveal(pow);
    if s.len() > 0 {
        lemma_be_value_limit(s.drop_last());
        let rest = s.drop_last();
        assert(pow(256, s.len()) == 256 * pow(256, rest.len()));
    }
}

} // verus!

//! Plain values that the network drivers exchange: addresses, media and times.

use vstd::prelude::*;

verus! {

/// A point in time, in microseconds since the clock started.
pub type Instant = i64;

/// The number that a sequence of bytes spells, most significant byte first.
pub open spec fn be_value(bytes: Seq<u8>) -> nat
    decreases bytes.len(),
{
    if bytes.len() == 0 {
        0
    } else {
        be_value(bytes.drop_last()) * 256 + bytes.last() as nat
    }
}

/// The layer at which a device moves its frames.
#[derive(Clone, Copy, Debug, PartialEq, Eq, Structural)]
pub enum Medium {
    Ethernet,
    Ip,
}

/// What travels with a packet besides its bytes.
#[derive(Clone, Copy, Debug, PartialEq, Eq, Structural)]
pub struct PacketMeta {
    pub id: u32,
}

/// A 48-bit hardware address, as the numbers that its first two and its last four octets spell.
#[derive(Clone, Copy, Debug, PartialEq, Eq, Structural)]
pub struct EthernetAddress {
    pub high: u16,
    pub low: u32,
}

impl EthernetAddress {
    /// The six octets, in the order in which they are sent.
    pub open spec fn spec_octets(self) -> Seq<u8> {
        seq![
            (self.high / 0x100) as u8,
            (self.high % 0x100) as u8,
            (self.low / 0x100_0000) as u8,
            (self.low / 0x1_0000 % 0x100) as u8,
            (self.low / 0x100 % 0x100) as u8,
            (self.low % 0x100) as u8,
        ]
    }

    /// The address that is sent to every station.
    pub fn broadcast() -> (r: Self)
        ensures
            r == (EthernetAddress { high: 0xffff, low: 0xffff_ffff }),
    {
        EthernetAddress { high: 0xffff, low: 0xffff_ffff }
    }

    /// The address with the given octets.
    pub fn new(octets: [u8; 6]) -> (r: Self)
        ensures
            r.spec_octets() == octets@,
    {
        let r = EthernetAddress {
            high: octets[0] as u16 * 0x100 + octets[1] as u16,
            low: octets[2] as u32 * 0x100_0000 + octets[3] as u32 * 0x1_0000 + octets[4] as u32
                * 0x100 + octets[5] as u32,
        };
        proof {
            lemma_split_four(octets[2], octets[3], octets[4], octets[5]);
            assert(r.high / 0x100 == octets[0] && r.high % 0x100 == octets[1]);
            assert(r.spec_octets() =~= octets@);
        }
        r
    }

    /// The octets of the address.
    pub fn octets(&self) -> (r: [u8; 6])
        ensures
            r@ == self.spec_octets(),
    {
        let r: [u8; 6] = [
            (self.high / 0x100) as u8,
            (self.high % 0x100) as u8,
            (self.low / 0x100_0000) as u8,
            (self.low / 0x1_0000 % 0x100) as u8,
            (self.low / 0x100 % 0x100) as u8,
            (self.low % 0x100) as u8,
        ];
        assert(r@ =~= self.spec_octets());
        r
    }

    /// One number that stands for the address.
    pub open spec fn spec_key(self) -> u64 {
        (self.high as u64 * 0x1_0000_0000 + self.low) as u64
    }

    /// One number that stands for the address.
    pub fn key(&self) -> (r: u64)
        ensures
            r == self.spec_key(),
    {
        self.high as u64 * 0x1_0000_0000 + self.low as u64
    }
}

/// An IPv4 address, as the number that its four octets spell.
#[derive(Clone, Copy, Debug, PartialEq, Eq, Structural)]
pub struct Ipv4Address {
    pub bits: u32,
}

impl Ipv4Address {
    /// The address with the given octets.
    pub fn new(a: u8, b: u8, c: u8, d: u8) -> (r: Self)
        ensures
            r.bits == be_value(seq![a, b, c, d]),
    {
        proof {
            lemma_be_value_four(a, b, c, d);
        }
        Ipv4Address {
            bits: a as u32 * 0x100_0000 + b as u32 * 0x1_0000 + c as u32 * 0x100 + d as u32,
        }
    }

    /// The four octets of the address.
    pub fn octets(&self) -> (r: [u8; 4])
        ensures
            be_value(r@) == self.bits,
    {
        let v: u32 = self.bits;
        let r: [u8; 4] = [
            (v / 0x100_0000) as u8,
            (v / 0x1_0000 % 0x100) as u8,
            (v / 0x100 % 0x100) as u8,
            (v % 0x100) as u8,
        ];
        proof {
            assert(r@ =~= seq![r[0], r[1], r[2], r[3]]);
            lemma_be_value_four(r[0], r[1], r[2], r[3]);
        }
        r
    }
}

/// An IPv6 address, as the numbers that its two halves spell.
#[derive(Clone, Copy, Debug, PartialEq, Eq, Structural)]
pub struct Ipv6Address {
    pub high: u64,
    pub low: u64,
}

impl Ipv6Address {
    /// The address with the given octets.
    pub fn new(octets: [u8; 16]) -> (r: Self)
        ensures
            r.high == be_value(octets@.subrange(0, 8)),
            r.low == be_value(octets@.subrange(8, 16)),
    {
        Ipv6Address { high: be_u64(&octets, 0), low: be_u64(&octets, 8) }
    }

    /// The address as one number.
    pub open spec fn spec_value(self) -> int {
        self.high * 0x1_0000_0000_0000_0000 + self.low
    }

    /// The address as one number.
    pub fn value(&self) -> (r: u128)
        ensures
            r == self.spec_value(),
    {
        self.high as u128 * 0x1_0000_0000_0000_0000 + self.low as u128
    }
}

/// The number that the eight bytes from `start` on spell.
fn be_u64(bytes: &[u8; 16], start: usize) -> (r: u64)
    requires
        start <= 8,
    ensures
        r == be_value(bytes@.subrange(start as int, start + 8)),
{
    let mut r: u64 = 0;
    let mut i: usize = 0;
    let ghost mut bound: nat = 1;
    while i < 8
        invariant
            i <= 8,
            start <= 8,
            bytes@.len() == 16,
            r == be_value(bytes@.subrange(start as int, start + i)),
            r < bound,
            i == 0 ==> bound == 1,
            i == 1 ==> bound == 0x100,
            i == 2 ==> bound == 0x1_0000,
            i == 3 ==> bound == 0x100_0000,
            i == 4 ==> bound == 0x1_0000_0000,
            i == 5 ==> bound == 0x100_0000_0000,
            i == 6 ==> bound == 0x1_0000_0000_0000,
            i == 7 ==> bound == 0x100_0000_0000_0000,
        decreases 8 - i,
    {
        let ghost s = bytes@.subrange(start as int, start + i + 1);
        assert(s.drop_last() =~= bytes@.subrange(start as int, start + i));
        assert(r <= 0xff_ffff_ffff_ffff);
        r = r * 256 + bytes[start + i] as u64;
        i = i + 1;
        proof {
            bound = bound * 256;
        }
    }
    r
}

proof fn lemma_split_four(a: u8, b: u8, c: u8, d: u8)
    ensures
        ({
            let v = a * 0x100_0000 + b * 0x1_0000 + c * 0x100 + d;
            &&& 0 <= v <= 0xffff_ffff
            &&& v / 0x100_0000 == a
            &&& v / 0x1_0000 % 0x100 == b
            &&& v / 0x100 % 0x100 == c
            &&& v % 0x100 == d
        }),
{
    let v = a * 0x100_0000 + b * 0x1_0000 + c * 0x100 + d;
    assert(v / 0x1_0000 == a * 0x100 + b);
    assert(v / 0x100 == a * 0x1_0000 + b * 0x100 + c);
}

proof fn lemma_be_value_four(a: u8, b: u8, c: u8, d: u8)
    ensures
        be_value(seq![a, b, c, d]) == a * 0x100_0000 + b * 0x1_0000 + c * 0x100 + d,
{
    reveal_with_fuel(be_value, 5);
    assert(seq![a, b, c, d].drop_last() =~= seq![a, b, c]);
    assert(seq![a, b, c].drop_last() =~= seq![a, b]);
    assert(seq![a, b].drop_last() =~= seq![a]);
    assert(seq![a].drop_last() =~= Seq::<u8>::empty());
}

/// An address of either family.
#[derive(Clone, Copy, Debug, PartialEq, Eq, Structural)]
pub enum IpAddress {
    Ipv4(Ipv4Address),
    Ipv6(Ipv6Address),
}

/// The octets of a hardware address are the digits of the number that stands for it, the first octet
/// counting most; so two addresses with the same octets, or the same number, are the same.
pub proof fn law_octets(mac: EthernetAddress, other: EthernetAddress)
    ensures
        ({
            let o = mac.spec_octets();
            &&& o.len() == 6
            &&& mac.spec_key() == ((((o[0] * 256 + o[1]) * 256 + o[2]) * 256 + o[3]) * 256 + o[4]) * 256
                + o[5]
        }),
        mac.spec_octets() == other.spec_octets() ==> mac == other,
        mac.spec_key() == other.spec_key() ==> mac == other,
{
    let a = mac.spec_octets();
    let b = other.spec_octets();
    let m = mac.low;
    let n = other.low;
    assert(m == (m / 0x100_0000) * 0x100_0000 + (m / 0x1_0000 % 0x100) * 0x1_0000 + (m / 0x100
        % 0x100) * 0x100 + m % 0x100);
    assert(n == (n / 0x100_0000) * 0x100_0000 + (n / 0x1_0000 % 0x100) * 0x1_0000 + (n / 0x100
        % 0x100) * 0x100 + n % 0x100);
    if a == b {
        assert(a[0] == b[0] && a[1] == b[1] && a[2] == b[2] && a[3] == b[3] && a[4] == b[4] && a[5]
            == b[5]);
    }
}

} // verus!

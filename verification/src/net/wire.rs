//! Packet headers, read through the protocol library.

use vstd::arithmetic::power2;
use vstd::prelude::*;
use crate::net::addr;
use crate::net::addr::{IpAddress, Ipv4Address};
use crate::net::iface::IpCidr;

verus! {

/// The version of an IP packet.
#[derive(Clone, Copy, Debug, PartialEq, Eq, Structural)]
pub enum IpVersion {
    Ipv4,
    Ipv6,
}

/// The version that the first byte of an IP packet names.
pub open spec fn version_of(packet: Seq<u8>) -> Option<IpVersion> {
    let nibble = packet[0] >> 4;
    if nibble == 4 {
        Some(IpVersion::Ipv4)
    } else if nibble == 6 {
        Some(IpVersion::Ipv6)
    } else {
        None
    }
}

/// Calls `smoltcp::wire::IpVersion::of_packet`.
///
/// Claimed of the call: it looks at the upper half of the first byte, which is 4 for IPv4 and 6
/// for IPv6, and fails on any other value. It reads the first byte without testing for one.
#[verifier::external_body]
pub(crate) fn ip_version(packet: &[u8]) -> (r: Option<IpVersion>)
    requires
        packet@.len() > 0,
    ensures
        r == version_of(packet@),
{
    match smoltcp::wire::IpVersion::of_packet(packet) {
        Ok(smoltcp::wire::IpVersion::Ipv4) => Some(IpVersion::Ipv4),
        Ok(smoltcp::wire::IpVersion::Ipv6) => Some(IpVersion::Ipv6),
        Err(_) => None,
    }
}

/// The length of an Ethernet header.
pub const ETHERNET_HEADER: usize = 14;

/// The Ethernet type of IPv4.
pub const ETHERTYPE_IPV4: u16 = 0x0800;

/// Calls `smoltcp::wire::EthernetFrame::new_checked` and tells whether it succeeded.
///
/// Claimed of the call: it accepts exactly the frames that hold a whole header.
#[verifier::external_body]
pub(crate) fn ethernet_frame_ok(frame: &[u8]) -> (r: bool)
    ensures
        r == (frame@.len() >= ETHERNET_HEADER),
{
    smoltcp::wire::EthernetFrame::new_checked(frame).is_ok()
}

/// Calls `smoltcp::wire::EthernetFrame::dst_addr`.
///
/// Claimed of the call: it returns the first six bytes, and panics on a frame without them.
#[verifier::external_body]
pub(crate) fn ethernet_destination(frame: &[u8]) -> (r: [u8; 6])
    requires
        frame@.len() >= ETHERNET_HEADER,
    ensures
        r@ == frame@.subrange(0, 6),
{
    smoltcp::wire::EthernetFrame::new_unchecked(frame).dst_addr().0
}

/// Calls `smoltcp::wire::EthernetFrame::src_addr`.
///
/// Claimed of the call: it returns the six bytes after the destination, and panics on a frame
/// without them.
#[verifier::external_body]
pub(crate) fn ethernet_source(frame: &[u8]) -> (r: [u8; 6])
    requires
        frame@.len() >= ETHERNET_HEADER,
    ensures
        r@ == frame@.subrange(6, 12),
{
    smoltcp::wire::EthernetFrame::new_unchecked(frame).src_addr().0
}

/// Calls `smoltcp::wire::EthernetFrame::ethertype`, whose result turns into its number.
///
/// Claimed of the call: it returns the big-endian number in the two bytes after the addresses, and
/// panics on a frame without them.
#[verifier::external_body]
pub(crate) fn ethernet_type(frame: &[u8]) -> (r: u16)
    requires
        frame@.len() >= ETHERNET_HEADER,
    ensures
        r == frame@[12] * 0x100 + frame@[13],
{
    smoltcp::wire::EthernetFrame::new_unchecked(frame).ethertype().into()
}

/// The header of an IPv4 packet fits the packet's bytes.
pub open spec fn ipv4_ok(packet: Seq<u8>) -> bool {
    let header = (packet[0] & 0x0f) * 4;
    let total = packet[2] * 0x100 + packet[3];
    packet.len() >= 20 && packet.len() >= header && header <= total && packet.len() >= total
}

/// Calls `smoltcp::wire::Ipv4Packet::new_checked` and tells whether it succeeded.
///
/// Claimed of the call: it accepts exactly the packets that hold a minimal header, whose header
/// length and total length lie within the bytes, and whose header is no longer than the total.
#[verifier::external_body]
pub(crate) fn ipv4_packet_ok(packet: &[u8]) -> (r: bool)
    ensures
        r == ipv4_ok(packet@),
{
    smoltcp::wire::Ipv4Packet::new_checked(packet).is_ok()
}

/// Calls `smoltcp::wire::Ipv4Packet::hop_limit`.
///
/// Claimed of the call: it returns the ninth byte, and panics on a packet without one.
#[verifier::external_body]
pub(crate) fn ipv4_hop_limit(packet: &[u8]) -> (r: u8)
    requires
        packet@.len() >= 20,
    ensures
        r == packet@[8],
{
    smoltcp::wire::Ipv4Packet::new_unchecked(packet).hop_limit()
}

/// Calls `smoltcp::wire::Ipv4Packet::dst_addr`.
///
/// Claimed of the call: it returns the four bytes before the options, and panics on a packet
/// without them.
#[verifier::external_body]
pub(crate) fn ipv4_destination(packet: &[u8]) -> (r: [u8; 4])
    requires
        packet@.len() >= 20,
    ensures
        r@ == packet@.subrange(16, 20),
{
    smoltcp::wire::Ipv4Packet::new_unchecked(packet).dst_addr().octets()
}

/// Calls `smoltcp::wire::Ipv4Cidr::contains_addr`, with the addresses as their numbers.
///
/// Claimed of the call: an address lies in a block if both agree in the bits of the block's prefix.
/// A block cannot be made with a prefix that is longer than the address.
#[verifier::external_body]
fn ipv4_block_contains(block: u32, prefix_len: u8, addr: u32) -> (r: bool)
    requires
        prefix_len <= 32,
    ensures
        r == (block as int / power2::pow2((32 - prefix_len) as nat) as int == addr as int / power2::pow2(
            (32 - prefix_len) as nat,
        ) as int),
{
    smoltcp::wire::Ipv4Cidr::new(block.into(), prefix_len).contains_addr(&addr.into())
}

/// Calls `smoltcp::wire::Ipv6Cidr::contains_addr`, with the addresses as their numbers.
///
/// Claimed of the call: an address lies in a block if both agree in the bits of the block's prefix.
/// A block cannot be made with a prefix that is longer than the address.
#[verifier::external_body]
fn ipv6_block_contains(block: u128, prefix_len: u8, addr: u128) -> (r: bool)
    requires
        prefix_len <= 128,
    ensures
        r == (block as int / power2::pow2((128 - prefix_len) as nat) as int == addr as int / power2::pow2(
            (128 - prefix_len) as nat,
        ) as int),
{
    smoltcp::wire::Ipv6Cidr::new(block.into(), prefix_len).contains_addr(&addr.into())
}

/// Whether a block contains an address. Blocks and addresses of different families never match.
pub fn cidr_contains(cidr: &IpCidr, addr: &IpAddress) -> (r: bool)
    requires
        cidr.wf(),
    ensures
        r == cidr.covers(*addr),
{
    match (cidr.address, *addr) {
        (IpAddress::Ipv4(block), IpAddress::Ipv4(addr)) => ipv4_block_contains(
            block.bits,
            cidr.prefix_len,
            addr.bits,
        ),
        (IpAddress::Ipv6(block), IpAddress::Ipv6(addr)) => ipv6_block_contains(
            block.value(),
            cidr.prefix_len,
            addr.value(),
        ),
        _ => false,
    }
}

/// The IPv4 destination that a frame is to be forwarded to: none if the frame is not a sound IPv4
/// frame or may not take another hop.
pub open spec fn spec_forwarded_to(frame: Seq<u8>) -> Option<Ipv4Address> {
    let packet = frame.subrange(ETHERNET_HEADER as int, frame.len() as int);
    if frame.len() < ETHERNET_HEADER || frame[12] * 0x100 + frame[13] != ETHERTYPE_IPV4
        || !ipv4_ok(packet) || packet[8] <= 1 {
        None
    } else {
        Some(Ipv4Address { bits: addr::be_value(packet.subrange(16, 20)) as u32 })
    }
}

/// The IPv4 destination that a frame is to be forwarded to.
pub fn forwarded_to(frame: &[u8]) -> (r: Option<Ipv4Address>)
    ensures
        r == spec_forwarded_to(frame@),
{
    if !ethernet_frame_ok(frame) {
        return None;
    }
    if ethernet_type(frame) != ETHERTYPE_IPV4 {
        return None;
    }
    let packet = vstd::slice::slice_subrange(frame, ETHERNET_HEADER, frame.len());
    if !ipv4_packet_ok(packet) {
        return None;
    }
    let octets = ipv4_destination(packet);
    if ipv4_hop_limit(packet) <= 1 {
        return None;
    }
    let destination = Ipv4Address::new(octets[0], octets[1], octets[2], octets[3]);
    assert(seq![octets[0], octets[1], octets[2], octets[3]] =~= packet@.subrange(16, 20));
    Some(destination)
}

/// A frame is forwarded exactly if it is an IPv4 frame whose packet is whole and has more than one hop
/// left, to the address that stands in the last four bytes of the fixed part of its header.
pub proof fn law_forwarded_to(frame: Seq<u8>)
    ensures
        spec_forwarded_to(frame) is Some <==> {
            &&& frame.len() >= 34
            &&& frame[12] == 0x08 && frame[13] == 0x00
            &&& frame.len() - 14 >= (frame[14] & 0x0f) * 4
            &&& (frame[14] & 0x0f) * 4 <= frame[16] * 0x100 + frame[17]
            &&& frame[16] * 0x100 + frame[17] <= frame.len() - 14
            &&& frame[22] > 1
        },
        spec_forwarded_to(frame) matches Some(dst) ==> dst.bits == frame[30] * 0x100_0000 + frame[31]
            * 0x1_0000 + frame[32] * 0x100 + frame[33],
{
    if frame.len() >= 34 {
        let packet = frame.subrange(14, frame.len() as int);
        assert(packet[0] == frame[14] && packet[2] == frame[16] && packet[3] == frame[17]
            && packet[8] == frame[22]);
        let d = packet.subrange(16, 20);
        assert(d =~= seq![frame[30], frame[31], frame[32], frame[33]]);
        reveal_with_fuel(addr::be_value, 5);
        assert(d.drop_last().drop_last().drop_last().drop_last() =~= Seq::<u8>::empty());
        assert(d.drop_last().drop_last().drop_last() =~= seq![frame[30]]);
        assert(d.drop_last().drop_last() =~= seq![frame[30], frame[31]]);
        assert(d.drop_last() =~= seq![frame[30], frame[31], frame[32]]);
    }
}

} // verus!

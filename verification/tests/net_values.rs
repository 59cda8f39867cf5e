//! Addresses, flags and the formats on the wire.

use kdrivers::error::SystemError;
use kdrivers::net::addr::{EthernetAddress, IpAddress, Ipv4Address, Ipv6Address};
use kdrivers::net::iface::IpCidr;
use kdrivers::net::tx_admission::TxAdmission;
use kdrivers::net::types::{InterfaceFlags, InterfaceType, NetDeivceState};
use kdrivers::net::wire::{cidr_contains, forwarded_to};

#[test]
fn hardware_addresses_keep_their_octets() {
    let mac = EthernetAddress::new([0x02, 0x11, 0x22, 0x33, 0x44, 0x55]);
    assert_eq!(mac.octets(), [0x02, 0x11, 0x22, 0x33, 0x44, 0x55]);
    assert_eq!(mac.key(), 0x0211_2233_4455);
    assert_eq!(EthernetAddress::broadcast().octets(), [0xff; 6]);
    assert_eq!(EthernetAddress::broadcast().key(), 0xffff_ffff_ffff);
}

#[test]
fn addresses_spell_their_octets() {
    let v4 = Ipv4Address::new(192, 168, 1, 254);
    assert_eq!(v4.bits, 0xc0a8_01fe);
    assert_eq!(v4.octets(), [192, 168, 1, 254]);
    let v6 = Ipv6Address::new([0xfd, 0, 0, 0, 0, 0, 0, 1, 0, 0, 0, 0, 0, 0, 0, 2]);
    assert_eq!(v6.high, 0xfd00_0000_0000_0001);
    assert_eq!(v6.low, 2);
    assert_eq!(v6.value(), 0xfd00_0000_0000_0001_0000_0000_0000_0002);
}

#[test]
fn interface_types_and_numbers_go_both_ways() {
    for number in 0..=u16::MAX {
        match InterfaceType::try_from(number) {
            Ok(kind) => assert_eq!(kind.number(), number),
            Err(error) => assert_eq!(error, SystemError::EINVAL),
        }
    }
    assert_eq!(InterfaceType::ETHER.number(), 1);
    assert_eq!(InterfaceType::LOOPBACK.number(), 772);
    assert_eq!(InterfaceType::try_from(772), Ok(InterfaceType::LOOPBACK));
}

#[test]
fn flags_are_cut_to_the_known_ones() {
    let mut flags = InterfaceFlags::from_bits_truncate(0xfff8_0001);
    assert_eq!(flags.bits(), 0x1);
    flags.insert(InterfaceFlags::PROMISC | InterfaceFlags::RUNNING);
    assert!(flags.contains(InterfaceFlags::PROMISC));
    assert!(!flags.contains(InterfaceFlags::PROMISC | InterfaceFlags::ALLMULTI));
    flags.remove(InterfaceFlags::PROMISC);
    assert_eq!(flags.bits(), 0x41);
    assert_eq!(InterfaceFlags::empty().bits(), 0);

    let state = NetDeivceState::empty().with(NetDeivceState::LINK_STATE_START);
    assert!(state.contains(NetDeivceState::LINK_STATE_START));
    assert!(!state.without(NetDeivceState::LINK_STATE_START).contains(NetDeivceState::LINK_STATE_START));
}

#[test]
fn blocks_contain_the_addresses_of_their_prefix() {
    let block = IpCidr { address: IpAddress::Ipv4(Ipv4Address::new(10, 0, 0, 5)), prefix_len: 24 };
    assert!(cidr_contains(&block, &IpAddress::Ipv4(Ipv4Address::new(10, 0, 0, 200))));
    assert!(!cidr_contains(&block, &IpAddress::Ipv4(Ipv4Address::new(10, 0, 1, 5))));
    let everything = IpCidr { address: IpAddress::Ipv4(Ipv4Address::new(1, 2, 3, 4)), prefix_len: 0 };
    assert!(cidr_contains(&everything, &IpAddress::Ipv4(Ipv4Address::new(255, 0, 0, 1))));
    let net6 = IpCidr {
        address: IpAddress::Ipv6(Ipv6Address { high: 0x2001_0db8_0000_0000, low: 0 }),
        prefix_len: 32,
    };
    assert!(cidr_contains(&net6, &IpAddress::Ipv6(Ipv6Address { high: 0x2001_0db8_ffff_0000, low: 9 })));
    assert!(!cidr_contains(&net6, &IpAddress::Ipv6(Ipv6Address { high: 0x2001_0db9_0000_0000, low: 9 })));
    let host6 = IpCidr { address: IpAddress::Ipv6(Ipv6Address { high: 1, low: 2 }), prefix_len: 128 };
    assert!(cidr_contains(&host6, &IpAddress::Ipv6(Ipv6Address { high: 1, low: 2 })));
    assert!(!cidr_contains(&host6, &IpAddress::Ipv6(Ipv6Address { high: 1, low: 3 })));
    assert!(!cidr_contains(&everything, &IpAddress::Ipv6(Ipv6Address { high: 1, low: 2 })));
}

fn ipv4_frame(hop_limit: u8, ethertype: [u8; 2]) -> Vec<u8> {
    let mut frame = vec![0xff; 12];
    frame.extend_from_slice(&ethertype);
    frame.extend_from_slice(&[
        0x45, 0, 0, 20, 0, 0, 0, 0, hop_limit, 17, 0, 0, 10, 0, 0, 1, 192, 0, 2, 77,
    ]);
    frame
}

#[test]
fn only_sound_ipv4_frames_with_hops_left_are_forwarded() {
    assert_eq!(forwarded_to(&ipv4_frame(64, [8, 0])), Some(Ipv4Address::new(192, 0, 2, 77)));
    assert_eq!(forwarded_to(&ipv4_frame(2, [8, 0])), Some(Ipv4Address::new(192, 0, 2, 77)));
    assert_eq!(forwarded_to(&ipv4_frame(1, [8, 0])), None);
    assert_eq!(forwarded_to(&ipv4_frame(64, [8, 6])), None);
    assert_eq!(forwarded_to(&ipv4_frame(64, [8, 0])[..33]), None);
    assert_eq!(forwarded_to(&[0; 13]), None);
    let mut short_header = ipv4_frame(64, [8, 0]);
    short_header[14] = 0x4f;
    assert_eq!(forwarded_to(&short_header), None);
}

#[test]
fn the_send_path_closes_once_everyone_left() {
    let mut admission = TxAdmission::new(true);
    assert!(admission.try_enter());
    assert!(admission.try_enter());
    assert!(!admission.close());
    assert!(!admission.try_enter());
    admission.leave();
    assert!(!admission.drained());
    admission.leave();
    assert!(admission.drained());
    admission.open();
    assert!(admission.try_enter());
    assert!(!TxAdmission::new(false).try_enter());
}

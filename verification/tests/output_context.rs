//! How the path of a packet travels through the stack.

use kdrivers::net::addr::{IpAddress, Ipv4Address, Ipv6Address};
use kdrivers::net::local_queue::LocalOutputDisposition;

#[test]
fn routed_context_preserves_both_families_and_full_ipv6_address() {
    let addresses = [
        IpAddress::Ipv4(Ipv4Address::new(192, 0, 2, 1)),
        IpAddress::Ipv6(Ipv6Address::new([
            0xfd, 0x12, 0x34, 0x56, 0x78, 0x9a, 0xbc, 0xde, 0xf0, 0x11, 0x22, 0x33, 0xc0, 0, 2, 1,
        ])),
    ];
    for address in addresses {
        for ifindex in [1, 42, i32::MAX as u32] {
            let context = LocalOutputDisposition::routed_context(ifindex, address);
            let LocalOutputDisposition::Routed { oif, next_hop, ip_mtu } =
                LocalOutputDisposition::from_context(context, 1280)
            else {
                panic!("routed context changed disposition")
            };
            assert_eq!((oif, next_hop, ip_mtu), (ifindex, address, 1280));
        }
    }
    assert!(matches!(
        LocalOutputDisposition::from_context(LocalOutputDisposition::local_context(42), 1500),
        LocalOutputDisposition::Local { oif: 42, ip_mtu: 1500 }
    ));
    assert!(matches!(
        LocalOutputDisposition::from_context(LocalOutputDisposition::NATIVE_CONTEXT, 1500),
        LocalOutputDisposition::NativeOwner
    ));
    assert!(matches!(
        LocalOutputDisposition::from_context(LocalOutputDisposition::DROP_CONTEXT, 1500),
        LocalOutputDisposition::Drop
    ));
    // Unknown tags and malformed IPv4 payloads fail closed.
    for context in [[(42 << 32) | 3, 0, 0], [(42 << 32) | 4, 1, 0], [6, 1, 2]] {
        assert!(matches!(
            LocalOutputDisposition::from_context(context, 1500),
            LocalOutputDisposition::Drop
        ));
    }
}

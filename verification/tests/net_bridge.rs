//! The learning bridge.

use kdrivers::net::addr::EthernetAddress;
use kdrivers::net::bridge::{Bridge, BridgeCommonData, BridgeDriver, BridgePort};

const A: [u8; 6] = [2, 0, 0, 0, 0, 0xa];
const B: [u8; 6] = [2, 0, 0, 0, 0, 0xb];

fn frame(destination: [u8; 6], source: [u8; 6]) -> Vec<u8> {
    let mut frame = Vec::new();
    frame.extend_from_slice(&destination);
    frame.extend_from_slice(&source);
    frame.extend_from_slice(&[0x08, 0x00, 1, 2, 3]);
    frame
}

fn bridge_of_three() -> BridgeDriver {
    let mut bridge = BridgeDriver::new(String::from("bridge0"));
    assert_eq!(bridge.add_device(100, 7, true).map(|port| port.id), Some(0));
    assert_eq!(bridge.add_device(101, 7, true).map(|port| port.id), Some(1));
    assert_eq!(bridge.add_device(102, 7, true).map(|port| port.id), Some(2));
    bridge
}

#[test]
fn unknown_and_broadcast_frames_leave_through_all_other_ports() {
    let mut bridge = bridge_of_three();
    assert_eq!(bridge.handle_frame(0, &frame(B, A), 0), vec![1, 2]);
    assert_eq!(bridge.handle_frame(1, &frame([0xff; 6], B), 10), vec![0, 2]);
}

#[test]
fn a_learned_address_is_served_by_its_port_alone() {
    let mut bridge = bridge_of_three();
    bridge.handle_frame(0, &frame(B, A), 0);
    assert_eq!(bridge.handle_frame(2, &frame(A, B), 10), vec![0]);
    assert_eq!(bridge.handle_frame(0, &frame(B, A), 20), vec![2]);
    // The address moved to another port.
    bridge.handle_frame(1, &frame(B, A), 30);
    assert_eq!(bridge.handle_frame(2, &frame(A, B), 40), vec![1]);
    // It is served even on the port that a frame for it comes from.
    assert_eq!(bridge.handle_frame(1, &frame(A, B), 50), vec![1]);
}

#[test]
fn short_frames_are_dropped_and_teach_nothing() {
    let mut bridge = bridge_of_three();
    assert_eq!(bridge.handle_frame(0, &frame(B, A)[..13], 0), Vec::<usize>::new());
    assert_eq!(bridge.handle_frame(2, &frame(A, B), 10), vec![0, 1]);
}

#[test]
fn addresses_are_forgotten_after_five_minutes() {
    let mut bridge = bridge_of_three();
    bridge.handle_frame(0, &frame(B, A), 0);
    // Swept at the end of a frame that comes late enough.
    bridge.handle_frame(1, &frame([0xff; 6], B), 299_999_999);
    assert_eq!(bridge.handle_frame(2, &frame(A, [2, 0, 0, 0, 0, 0xc]), 299_999_999), vec![0]);
    bridge.handle_frame(1, &frame([0xff; 6], B), 300_000_000);
    assert_eq!(bridge.handle_frame(2, &frame(A, [2, 0, 0, 0, 0, 0xc]), 300_000_000), vec![0, 1]);
}

#[test]
fn a_removed_port_is_forgotten_with_its_addresses() {
    let mut bridge = bridge_of_three();
    bridge.handle_frame(0, &frame(B, A), 0);
    assert!(!bridge.remove_device(None));
    assert!(bridge.remove_device(Some(BridgeCommonData { id: 0, bridge: 1 })));
    assert_eq!(bridge.handle_frame(2, &frame(A, B), 10), vec![1]);
}

#[test]
fn a_bridge_takes_interfaces_of_its_own_namespace_only() {
    let mut bridge = bridge_of_three();
    bridge.set_netns(7);
    assert_eq!(bridge.netns(true), Some(7));
    assert_eq!(bridge.netns(false), None);
    assert!(bridge.add_device(103, 8, true).is_none());
    assert_eq!(bridge.add_device(103, 7, true).map(|port| port.id), Some(3));
    assert_eq!(bridge.add_device(104, 8, false).map(|port| port.id), Some(4));
    assert_eq!(bridge.name(), "bridge0");
}

#[test]
fn a_port_that_does_not_exist_gets_nothing() {
    let mut bridge = Bridge::new(String::from("b"));
    bridge.add_port(0, BridgePort { id: 0, device: 1 });
    bridge.insert_or_update_mac_entry(EthernetAddress::new(A).key(), 5, 0);
    assert_eq!(bridge.handle_frame(0, &frame(A, B), 0), Vec::<usize>::new());
    bridge.remove_port(5);
    bridge.add_port(1, BridgePort { id: 1, device: 2 });
    assert_eq!(bridge.handle_frame(0, &frame(A, B), 0), vec![1]);
    bridge.sweep_mac_table(400_000_000);
    assert_eq!(bridge.handle_frame(1, &frame(B, A), 400_000_000), vec![0]);
}

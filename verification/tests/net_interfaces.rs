//! Loopback, veth and routed interfaces, and what all interfaces share.

use kdrivers::error::SystemError;
use kdrivers::base::device::{DeviceCommonData, DeviceType};
use kdrivers::net::addr::{EthernetAddress, IpAddress, Ipv4Address};
use kdrivers::net::bridge::{BridgeCommonData, BridgePort};
use kdrivers::net::iface::{
    project_user_visible_flags, register_netdevice, BootstrapRoute, IpCidr, NetDeviceCommonData,
    RegistrationStep, StaticNeighborEntry,
};
use kdrivers::net::iface_common::{DeadlineAction, IfaceCommon, PollModeRecheck};
use kdrivers::net::local_output::{IfacePollScope, LocalOutputDrainResult, LocalOutputDrainState};
use kdrivers::net::loopback::{loopback_driver_init, Loopback, LoopbackDriver, LoopbackTxToken};
use kdrivers::net::napi::NapiPollResult;
use kdrivers::net::router::{
    handle_routable_packet, RoutableOutcome, RouteEntry, Router, RouterInterface,
};
use kdrivers::net::sysfs::{netdev_register_kobject, operstate_text, NetAttr, NetClass};
use kdrivers::net::types::{InterfaceFlags, InterfaceType, NetDeivceState, Operstate};
use kdrivers::net::veth::{
    host_route, veth_route_test, IngressDisposition, IngressScan, IngressStep, RouteNumbers,
    RouteScopes, VethDriver, VethInterface,
};

fn v4(a: u8, b: u8, c: u8, d: u8) -> IpAddress {
    IpAddress::Ipv4(Ipv4Address::new(a, b, c, d))
}

fn cidr(address: IpAddress, prefix_len: u8) -> IpCidr {
    IpCidr { address, prefix_len }
}

fn common(flags: u32) -> IfaceCommon {
    IfaceCommon::new(
        4,
        InterfaceType::ETHER,
        String::from("eth4"),
        1500,
        InterfaceFlags::from_bits_truncate(flags),
    )
}

#[test]
fn loopback_returns_packets_in_order() {
    let mut loopback = Loopback::new();
    assert_eq!(loopback.loopback_receive(), Vec::<u8>::new());
    loopback.loopback_transmit(vec![1]);
    loopback.loopback_transmit(vec![2]);
    assert_eq!(loopback.loopback_receive(), vec![1]);
    assert_eq!(loopback.loopback_receive(), vec![2]);

    let mut driver = LoopbackDriver::new();
    assert!(driver.receive().is_none());
    let token = driver.transmit().unwrap();
    LoopbackTxToken::consume(token, &mut driver, vec![7, 8]);
    let (rx, _) = driver.receive().unwrap();
    assert_eq!(rx.consume(), vec![7, 8]);
}

#[test]
fn the_loopback_interface_is_the_local_host() {
    let mut lo = loopback_driver_init(1);
    assert_eq!(lo.iface_name(), "lo");
    assert_eq!(lo.nic_id(), 1);
    assert_eq!(lo.mac().octets(), [0; 6]);
    assert!(matches!(lo.dev_type(), DeviceType::Net));
    assert_eq!(lo.update_ip_addrs(&[]), Err(SystemError::EINVAL));
    assert_eq!(lo.update_ip_addrs(&[cidr(v4(127, 0, 0, 2), 8)]), Ok(()));
    assert_eq!(lo.poll(true), Ok(()));
    assert_eq!(lo.poll(false), Err(SystemError::EAGAIN_OR_EWOULDBLOCK));
    lo.set_operstate(Operstate::IF_OPER_UP);
    assert!(matches!(lo.operstate(), Operstate::IF_OPER_UP));
}

#[test]
fn visible_flags_follow_the_link() {
    let configured = InterfaceFlags::from_bits_truncate(
        InterfaceFlags::UP | InterfaceFlags::BROADCAST | InterfaceFlags::RUNNING,
    );
    let off = project_user_visible_flags(configured, NetDeivceState::empty(), Operstate::IF_OPER_UP);
    assert_eq!(off.bits(), InterfaceFlags::UP | InterfaceFlags::BROADCAST);
    let started = NetDeivceState::empty().with(NetDeivceState::LINK_STATE_START);
    let up = project_user_visible_flags(configured, started, Operstate::IF_OPER_UP);
    assert_eq!(
        up.bits(),
        InterfaceFlags::UP | InterfaceFlags::BROADCAST | InterfaceFlags::RUNNING | InterfaceFlags::LOWER_UP
    );
    let no_carrier = started.with(NetDeivceState::LINK_STATE_NOCARRIER);
    let down = project_user_visible_flags(configured, no_carrier, Operstate::IF_OPER_DOWN);
    assert_eq!(down.bits(), InterfaceFlags::UP | InterfaceFlags::BROADCAST);
}

#[test]
fn registration_marks_the_device_present_or_rolls_back() {
    let (state, step) = register_netdevice(NetDeivceState::empty(), Ok(()));
    assert!(state.contains(NetDeivceState::LINK_STATE_PRESENT));
    assert!(matches!(step, RegistrationStep::Announce));
    let (state, step) = register_netdevice(NetDeivceState::empty(), Err(SystemError::EEXIST));
    assert!(!state.contains(NetDeivceState::LINK_STATE_PRESENT));
    assert!(matches!(step, RegistrationStep::RollBack(SystemError::EEXIST)));
}

#[test]
fn receive_modes_are_counted() {
    let mut common = common(InterfaceFlags::UP);
    assert_eq!(common.adjust_promiscuity(1), Ok(()));
    assert!(common.flags().contains(InterfaceFlags::PROMISC));
    assert!(!common.configured_flags().contains(InterfaceFlags::PROMISC));
    assert_eq!(common.adjust_promiscuity(1), Ok(()));
    assert_eq!(common.adjust_promiscuity(-1), Ok(()));
    assert!(common.flags().contains(InterfaceFlags::PROMISC));
    assert_eq!(common.adjust_promiscuity(-1), Ok(()));
    assert!(!common.flags().contains(InterfaceFlags::PROMISC));
    assert_eq!(common.adjust_promiscuity(-1), Err(SystemError::EINVAL));
    assert_eq!(common.adjust_allmulti(2), Err(SystemError::EINVAL));
    assert_eq!(common.adjust_allmulti(1), Ok(()));
    assert!(common.flags().contains(InterfaceFlags::ALLMULTI));
    assert_eq!(common.adjust_receive_mode(InterfaceFlags::UP, 1), Err(SystemError::EINVAL));
    assert_eq!(IfaceCommon::total_receive_mode_count(u32::MAX, true), Err(SystemError::EOVERFLOW));
    assert_eq!(IfaceCommon::total_receive_mode_count(3, true), Ok(4));

    let wanted = InterfaceFlags::from_bits_truncate(InterfaceFlags::PROMISC);
    let prepared = common.prepare_configured_flags(wanted, wanted).unwrap();
    assert_eq!(prepared.old_flags().bits(), InterfaceFlags::UP);
    assert_eq!(prepared.new_flags().bits(), InterfaceFlags::UP | InterfaceFlags::PROMISC);
    common.publish_configured_flags(prepared);
    let seen = common.link_flags_snapshot().unwrap();
    assert_eq!((seen.promiscuity, seen.allmulti), (1, 1));
}

#[test]
fn groups_are_joined_once_per_member() {
    let mut common = common(0);
    let group = Ipv4Address::new(224, 0, 0, 251);
    assert!(!common.ipv4_multicast_join_ref(group, false));
    assert!(common.ipv4_multicast_join_ref(group, true));
    assert!(common.ipv4_multicast_join_ref(group, false));
    assert!(!common.ipv4_multicast_leave_ref(group));
    assert!(common.ipv4_multicast_leave_ref(group));
    assert!(!common.ipv4_multicast_leave_ref(group));
}

#[test]
fn sockets_are_bound_once_and_told_in_order() {
    let mut common = common(0);
    common.bind_socket(5);
    common.bind_socket(6);
    common.bind_socket(5);
    assert_eq!(common.notify_all_bound_sockets(), vec![5, 6]);
    assert_eq!(common.bound_socket_count, 2);
    common.unbind_socket(5);
    common.unbind_socket(99);
    assert_eq!(common.notify_all_bound_sockets(), vec![6]);
    assert_eq!(common.prefix_len(&vec![cidr(v4(10, 0, 0, 1), 24)]), Some(24));
    assert_eq!(common.prefix_len(&Vec::new()), None);
}

fn bootstrap(oif: u32) -> BootstrapRoute {
    let numbers = RouteNumbers { table: 254, protocol: 3, kind: 1 };
    host_route(v4(10, 0, 0, 9), None, 253, oif, numbers)
}

#[test]
fn bootstrap_routes_are_staged_before_publication() {
    let mut common = common(0);
    assert_eq!(common.stage_bootstrap_route(bootstrap(4)), Ok(()));
    assert_eq!(common.stage_bootstrap_route(bootstrap(4)), Err(SystemError::EEXIST));
    assert_eq!(common.stage_bootstrap_route(bootstrap(5)), Err(SystemError::EINVAL));
    assert_eq!(common.with_unpublished(), Ok(()));
    let taken = common.take_bootstrap_routes();
    assert_eq!(taken.len(), 1);
    common.restore_bootstrap_routes(taken);
    assert_eq!(common.stage_reserved_route(host_route(v4(1, 1, 1, 1), None, 0, 4, RouteNumbers { table: 1, protocol: 1, kind: 1 }), false), Err(SystemError::ENOMEM));
    common.set_net_namespace(3);
    assert_eq!(common.stage_bootstrap_route(bootstrap(4)), Err(SystemError::EBUSY));
    assert_eq!(common.with_unpublished(), Err(SystemError::EBUSY));
    common.clear_net_namespace();
    assert_eq!(common.net_namespace(), None);
}

#[test]
fn configured_neighbors_are_replaced_by_address() {
    let mut common = common(0);
    let entry = StaticNeighborEntry {
        ip_addr: v4(10, 0, 0, 1),
        hw_addr: EthernetAddress::new([1, 2, 3, 4, 5, 6]),
        state: 0x80,
        flags: 0,
    };
    common.set_static_neighbor(entry);
    common.set_static_neighbor(StaticNeighborEntry { state: 0x40, ..entry });
    assert_eq!(common.static_neighbors.len(), 1);
    assert_eq!(common.static_neighbors[0].state, 0x40);
    assert!(common.remove_static_neighbor(v4(10, 0, 0, 1)));
    assert!(!common.remove_static_neighbor(v4(10, 0, 0, 1)));
}

#[test]
fn polls_are_planned_from_the_state_of_the_interface() {
    let mut down = common(0);
    assert!(matches!(down.poll_scope(), IfacePollScope::Nothing));
    assert!(down.poll_plan(false, Some(true)).is_none());
    down.bind_socket(1);
    assert!(matches!(down.poll_scope(), IfacePollScope::LocalOnly));
    let plan = down.poll_plan(false, Some(false)).unwrap();
    assert!(plan.routed_this_round && !plan.owner_is_up);
    assert!(down.polls_local(plan));

    let up = common(InterfaceFlags::UP);
    let plan = up.poll_plan(false, Some(false)).unwrap();
    assert!(!plan.needs_routed_poll && plan.owner_is_up);
    assert!(up.poll_plan(true, None).unwrap().needs_routed_poll);
    assert!(!up.poll_plan(true, None).unwrap().routed_this_round);
    assert_eq!(up.recheck_poll_mode(true, false, false), PollModeRecheck::Authoritative);
    assert_eq!(up.recheck_poll_mode(false, false, false), PollModeRecheck::Current);
    assert_eq!(down.recheck_poll_mode(false, false, false), PollModeRecheck::Routed);
    let quiet = LocalOutputDrainResult::new(0, LocalOutputDrainState::Quiescent);
    assert!(!up.poll_with_authoritative_mode(false, false, false, false, quiet));
    assert!(up.poll_with_authoritative_mode(false, true, false, false, quiet));

    assert_eq!(IfaceCommon::publish_poll_deadline(5, Some(5)), (true, DeadlineAction::Disarm));
    assert_eq!(
        IfaceCommon::publish_poll_deadline(5, Some(9)),
        (false, DeadlineAction::PublishFuture { now_us: 5, deadline_us: 9 })
    );
    assert_eq!(IfaceCommon::publish_poll_deadline(5, None), (false, DeadlineAction::Disarm));
    assert_eq!(IfaceCommon::defer_local_output_retry_at(5, 3), (5, 6));
    assert_eq!(IfaceCommon::defer_local_output_retry_at(-5, 30), (0, 30));
}

#[test]
fn the_delay_after_a_refusal_doubles_up_to_a_limit() {
    let mut common = common(0);
    assert_eq!(common.next_local_output_tx_backoff_us(), 1_000);
    assert_eq!(common.next_local_output_tx_backoff_us(), 2_000);
    for _ in 0..10 {
        common.next_local_output_tx_backoff_us();
    }
    assert_eq!(common.next_local_output_tx_backoff_us(), 100_000);
    common.reset_local_output_tx_backoff();
    assert_eq!(common.next_local_output_tx_backoff_us(), 1_000);
    assert!(!common.release_tx_backpressure());
    assert_eq!(common.tx_completion_generation, 1);
    assert!(!common.release_tx_backpressure_after(1));
}

#[test]
fn the_longest_prefix_wins() {
    let mut router = Router::new(String::from("r"));
    router.add_route(RouteEntry::new_default(v4(10, 0, 0, 254), 1));
    router.add_route(RouteEntry::new_connected(cidr(v4(192, 168, 0, 0), 16), 2));
    router.add_route(RouteEntry::new_static(cidr(v4(192, 168, 7, 0), 24), v4(192, 168, 0, 9), 2, 5));
    let alive = [1, 2];
    let near = router.lookup_route(v4(192, 168, 1, 1), &alive).unwrap();
    assert_eq!((near.interface, near.next_hop), (2, v4(192, 168, 1, 1)));
    let far = router.lookup_route(v4(192, 168, 7, 1), &alive).unwrap();
    assert_eq!((far.interface, far.next_hop), (2, v4(192, 168, 0, 9)));
    let other = router.lookup_route(v4(8, 8, 8, 8), &alive).unwrap();
    assert_eq!((other.interface, other.next_hop), (1, v4(10, 0, 0, 254)));
    assert!(router.lookup_route(v4(8, 8, 8, 8), &[2]).is_none());
    router.cleanup_routes(&[1]);
    assert_eq!(router.route_table.len(), 1);
    router.remove_route(cidr(v4(0, 0, 0, 0), 0));
    assert_eq!(router.route_table.len(), 0);
}

fn ipv4_frame(destination: [u8; 4]) -> Vec<u8> {
    let mut frame = vec![0; 12];
    frame.extend_from_slice(&[8, 0]);
    frame.extend_from_slice(&[0x45, 0, 0, 20, 0, 0, 0, 0, 64, 17, 0, 0, 1, 1, 1, 1]);
    frame.extend_from_slice(&destination);
    frame
}

fn named(id: u64, name: &str) -> RouterInterface {
    RouterInterface { id, name: String::from(name) }
}

#[test]
fn a_packet_does_not_leave_by_an_interface_of_the_same_name() {
    let mut router = Router::new(String::from("r"));
    router.add_route(RouteEntry::new_connected(cidr(v4(10, 0, 0, 0), 8), 2));
    let alive = [named(1, "eth0"), named(2, "eth0")];
    let frame = ipv4_frame([10, 1, 2, 3]);
    assert!(matches!(
        handle_routable_packet(&router, &frame, "eth0", &[], &alive),
        RoutableOutcome::LoopAvoided(_)
    ));
    assert!(matches!(
        handle_routable_packet(&router, &frame, "eth1", &[], &alive),
        RoutableOutcome::Forward { .. }
    ));
    assert!(matches!(
        handle_routable_packet(&router, &frame, "eth1", &[], &alive[..1]),
        RoutableOutcome::NoRoute(_)
    ));
}

#[test]
fn routable_packets_are_forwarded_without_their_header() {
    let mut router = Router::new(String::from("r"));
    router.add_route(RouteEntry::new_connected(cidr(v4(10, 0, 0, 0), 8), 2));
    let own = [v4(172, 16, 0, 1)];
    let alive = [named(1, "one"), named(2, "two")];
    let frame = ipv4_frame([10, 1, 2, 3]);
    match handle_routable_packet(&router, &frame, "one", &own, &alive) {
        RoutableOutcome::Forward { decision, packet } => {
            assert_eq!(decision.interface, 2);
            assert_eq!(decision.next_hop, v4(10, 1, 2, 3));
            assert_eq!(packet, frame[14..].to_vec());
        }
        _ => panic!("the packet is forwarded"),
    }
    assert!(matches!(
        handle_routable_packet(&router, &frame, "two", &own, &alive),
        RoutableOutcome::LoopAvoided(_)
    ));
    assert!(matches!(
        handle_routable_packet(&router, &ipv4_frame([172, 16, 0, 1]), "one", &own, &alive),
        RoutableOutcome::Local(_)
    ));
    assert!(matches!(
        handle_routable_packet(&router, &ipv4_frame([9, 9, 9, 9]), "one", &own, &alive),
        RoutableOutcome::NoRoute(_)
    ));
    assert!(matches!(
        handle_routable_packet(&router, &frame[..20], "one", &own, &alive),
        RoutableOutcome::Ignored
    ));
}

#[test]
fn the_ends_of_a_pair_reach_each_other() {
    let (mut a, mut b) = VethInterface::new_pair(
        String::from("veth_a"),
        String::from("veth_b"),
        5,
        0x1_0006,
        50,
        60,
    );
    assert_eq!(a.name(), "veth_a");
    assert_eq!(a.peer_veth(), 60);
    assert_eq!(b.peer_veth(), 50);
    assert_eq!(a.mac().octets(), [2, 0, 0, 0, 0, 5]);
    assert_eq!(b.mac().octets(), [2, 0, 0, 0, 0, 6]);
    let (peer, copy) = a.driver.try_raw_transmit(&[1, 2, 3], true).unwrap();
    assert_eq!((peer, copy.clone()), (60, vec![1, 2, 3]));
    assert_eq!(b.driver.inner.to_peer_owned(copy, true), Ok(()));
    assert!(b.driver.has_pending_ingress());
    let mut scan = IngressScan::new(1);
    let data = b.driver.next_pending(&mut scan).unwrap();
    assert_eq!((scan.left, scan.scanned), (0, 1));
    b.driver.prepare_ingress(data, IngressDisposition::Local);
    assert!(b.driver.has_local_ingress());
    assert_eq!(b.driver.receive(), Some(vec![1, 2, 3]));
    assert_eq!(b.driver.receive(), None);
    assert_eq!(a.driver.try_raw_transmit(&[1], false).err(), Some(SystemError::ENOBUFS));
    assert_eq!(a.driver.inner.to_peer_owned(vec![1], false), Err(SystemError::ENOBUFS));
    assert!(b.driver.next_pending(&mut scan).is_none());
    let mut scan = IngressScan::new(4);
    assert!(b.driver.next_pending(&mut scan).is_none());
    assert_eq!((scan.left, scan.scanned), (4, 0));
    a.set_operstate(Operstate::IF_OPER_UP);
    assert_eq!(a.driver.capabilities().max_transmission_unit, 1514);
}

#[test]
fn long_frames_need_a_tag() {
    assert_eq!(VethDriver::validate_frame_len(&vec![0; 1514]), Ok(()));
    assert_eq!(VethDriver::validate_frame_len(&vec![0; 1515]), Err(SystemError::EMSGSIZE));
    let mut tagged = vec![0; 1518];
    tagged[12] = 0x81;
    assert_eq!(VethDriver::validate_frame_len(&tagged), Ok(()));
    tagged[12] = 0x88;
    tagged[13] = 0xa8;
    assert_eq!(VethDriver::validate_frame_len(&tagged), Ok(()));
    tagged.push(0);
    assert_eq!(VethDriver::validate_frame_len(&tagged), Err(SystemError::EMSGSIZE));
}

#[test]
fn arriving_frames_are_bridged_routed_or_kept() {
    let bridge = BridgeCommonData { id: 1, bridge: 2 };
    assert!(matches!(VethDriver::classify(&[0; 20], false, Some(bridge)), IngressStep::Local));
    assert!(matches!(VethDriver::classify(&[0; 20], true, Some(bridge)), IngressStep::Bridge(_)));
    assert!(matches!(VethDriver::classify(&[0; 13], true, None), IngressStep::Local));
    assert!(matches!(VethDriver::classify(&[0; 14], true, None), IngressStep::Route));
    assert_eq!(
        VethDriver::classify_and_consume(IngressStep::Route, Err(None)),
        IngressDisposition::Local
    );
    assert_eq!(
        VethDriver::classify_and_consume(IngressStep::Route, Err(Some(SystemError::EIO))),
        IngressDisposition::Consumed
    );
    assert_eq!(
        VethDriver::classify_and_consume(IngressStep::Bridge(bridge), Ok(())),
        IngressDisposition::Consumed
    );
}

#[test]
fn a_batch_of_frames_ends_with_its_budget_or_its_queue() {
    let (mut a, _) = VethInterface::new_pair(String::from("a"), String::from("b"), 1, 2, 10, 20);
    for at in 0..5 {
        a.driver.inner.pending_rx_queue.push_back(vec![at]);
    }
    for (budget, scanned, local) in [(3, 3, vec![vec![0], vec![2]]), (64, 2, vec![vec![4]])] {
        let mut scan = IngressScan::new(budget);
        while let Some(data) = a.driver.next_pending(&mut scan) {
            let disposition = if data[0] % 2 == 0 {
                IngressDisposition::Local
            } else {
                IngressDisposition::Consumed
            };
            a.driver.prepare_ingress(data, disposition);
        }
        assert_eq!(scan, IngressScan { scan_budget: budget, left: budget - scanned, scanned });
        for frame in local {
            assert_eq!(a.driver.receive(), Some(frame));
        }
        assert_eq!(a.driver.receive(), None);
    }
    assert!(!a.driver.has_pending_ingress());
}

#[test]
fn a_veth_poll_counts_what_it_prepared() {
    let (mut a, _) = VethInterface::new_pair(String::from("a"), String::from("b"), 1, 2, 10, 20);
    let stack = NapiPollResult::new(3, false);
    let two = IngressScan { scan_budget: 7, left: 5, scanned: 2 };
    let none = IngressScan::new(7);
    assert_eq!(a.poll_napi(IfacePollScope::Full, 10, stack, two).work_done, 5);
    assert!(!a.poll_napi(IfacePollScope::Full, 10, stack, two).poll_again);
    assert_eq!(a.poll_napi(IfacePollScope::Nothing, 10, stack, two).work_done, 0);
    assert_eq!(a.poll_napi(IfacePollScope::LocalOnly, 10, stack, two), stack);
    assert!(a.poll(IfacePollScope::Full, two, false));
    assert!(!a.poll(IfacePollScope::Full, none, false));
    assert_eq!(VethInterface::scan_budget(IfacePollScope::Full), 64);
    assert_eq!(VethInterface::scan_budget(IfacePollScope::LocalOnly), 0);
    assert_eq!(VethInterface::napi_scan_budget(10, stack), 7);
    assert_eq!(a.napi_local_budget(9), 9);
    a.driver.inner.pending_rx_queue.push_back(vec![1]);
    a.driver.inner.local_rx_queue.push_back(vec![2]);
    assert_eq!(a.napi_local_budget(9), 5);
    assert!(a.poll_napi(IfacePollScope::Full, 10, stack, none).poll_again);
    assert!(a.poll(IfacePollScope::Full, none, false));
    assert!(!a.poll(IfacePollScope::LocalOnly, two, false));
    a.set_common_bridge_data(&BridgePort { id: 3, device: 10 }, 77);
    assert_eq!(a.common_bridge_data().map(|data| (data.id, data.bridge)), Some((3, 77)));
    assert_eq!(a.receive_from_bridge(true), Some(20));
    assert_eq!(a.receive_from_bridge(false), None);
}

#[test]
fn the_far_ends_of_two_pairs_route_through_the_near_ends() {
    let routes = veth_route_test(
        [v4(192, 168, 1, 1), v4(192, 168, 1, 254), v4(192, 168, 2, 254), v4(192, 168, 2, 3)],
        1,
        2,
        3,
        4,
        RouteScopes { universe: 0, link: 253 },
        RouteNumbers { table: 254, protocol: 3, kind: 1 },
    );
    assert_eq!(routes.len(), 4);
    assert_eq!(routes[0].destination, cidr(v4(192, 168, 2, 3), 32));
    assert_eq!((routes[0].gateway, routes[0].scope, routes[0].oif), (Some(v4(192, 168, 1, 254)), 0, 1));
    assert_eq!((routes[1].gateway, routes[1].scope, routes[1].oif), (Some(v4(192, 168, 2, 254)), 0, 2));
    assert_eq!((routes[2].gateway, routes[2].scope, routes[2].oif), (None, 253, 3));
    assert_eq!(routes[3].destination, cidr(v4(192, 168, 2, 3), 32));
}

#[test]
fn attributes_of_an_interface_are_shown() {
    let class = NetClass::new();
    assert_eq!(class.name(), "net");
    let attrs = class.dev_groups().attrs();
    assert_eq!(attrs.len(), 20);
    let mut device = NetDeviceCommonData::default();
    device.operstate = Operstate::IF_OPER_UP;
    device.net_device_type = 1;
    let mac = EthernetAddress::new([0x02, 0, 0, 0, 0xab, 0x0c]);
    assert_eq!(NetAttr::Address.show(&mut device, &mac), "02-00-00-00-ab-0c\n");
    assert_eq!(NetAttr::Operstate.show(&mut device, &mac), "down\n");
    device.operstate = Operstate::IF_OPER_UP;
    device.state = device.state.with(NetDeivceState::LINK_STATE_START);
    assert_eq!(NetAttr::Operstate.show(&mut device, &mac), "up\n");
    assert_eq!(NetAttr::Carrier.show(&mut device, &mac), "1\n");
    assert_eq!(NetAttr::Type.show(&mut device, &mac), "1\n");
    assert_eq!(operstate_text(Operstate::IF_OPER_LOWERLAYERDOWN), "lowerlayerdown");
    let mut base = DeviceCommonData::default();
    assert_eq!(netdev_register_kobject(&mut base, 9, &String::from("eth0")), "eth0");
    assert_eq!(base.class(true), Some(9));
}

#[test]
fn of_equal_prefixes_the_smaller_metric_wins() {
    let block = cidr(v4(192, 168, 0, 0), 16);
    let mut router = Router::new(String::from("r"));
    router.add_route(RouteEntry::new_static(block, v4(10, 0, 0, 9), 1, 20));
    router.add_route(RouteEntry::new_static(block, v4(10, 0, 0, 5), 2, 5));
    router.add_route(RouteEntry::new_static(block, v4(10, 0, 0, 7), 3, 7));
    let found = router.lookup_route(v4(192, 168, 1, 1), &[1, 2, 3]).unwrap();
    assert_eq!((found.interface, found.next_hop), (2, v4(10, 0, 0, 5)));
    let found = router.lookup_route(v4(192, 168, 1, 1), &[1, 3]).unwrap();
    assert_eq!((found.interface, found.next_hop), (3, v4(10, 0, 0, 7)));
    // A longer prefix goes before a smaller metric.
    router.add_route(RouteEntry::new_static(cidr(v4(192, 168, 1, 0), 24), v4(10, 0, 0, 1), 1, 90));
    let found = router.lookup_route(v4(192, 168, 1, 1), &[1, 2, 3]).unwrap();
    assert_eq!((found.interface, found.next_hop), (1, v4(10, 0, 0, 1)));
    // Of routes that are equal in both, the one that was added last counts.
    router.add_route(RouteEntry::new_static(block, v4(10, 0, 0, 6), 3, 5));
    let found = router.lookup_route(v4(192, 168, 2, 1), &[1, 2, 3]).unwrap();
    assert_eq!((found.interface, found.next_hop), (3, v4(10, 0, 0, 6)));
}

//! How output is classified, admitted, drained and sent.

use kdrivers::error::SystemError;
use kdrivers::net::addr::{EthernetAddress, IpAddress, Ipv4Address, Ipv6Address, Medium, PacketMeta};
use kdrivers::net::egress::{poll_waker, PollWaker};
use kdrivers::net::iface::{
    frame_capacity, route_and_send, route_send_result, DispatchOutcome, RouteSendError,
    StaticNeighborEntry,
};
use kdrivers::net::iface_common::{IfaceCommon, RoutedMemory};
use kdrivers::net::local_output::{
    check_routed_output, local_tx_token, output_error, transmit_local_delivery,
    transmit_local_stack_output, transmit_native_output, transmit_native_output_if_up,
    transmit_routed_stack_output, EgressState, LocalInputScratch, LocalInputTxToken, LocalOutputDrainState,
    LocalOutputTransmitResult, OutputBackendDecision, OutputBackendPolicy, OutputRouteDecision,
    RoutedTxBackend, RoutedTxToken, TransmitPlan, TxEgressOverride,
};
use kdrivers::net::local_queue::{LocalInputQueue, LocalOutputDisposition, LocalOutputPacket};
use kdrivers::net::output_drain::{AdmittedRoutedOutput, DrainStep, ExistingDeferredEnqueue};
use kdrivers::net::types::{InterfaceFlags, InterfaceType};
use kdrivers::net::wire::IpVersion;

const HOP: Ipv4Address = Ipv4Address { bits: 0xc0a8_0101 };

fn route(local: bool, oif: u32) -> OutputRouteDecision {
    OutputRouteDecision {
        local,
        default_table: false,
        oif,
        next_hop: IpAddress::Ipv4(HOP),
        ip_mtu: 1400,
    }
}

fn packet(disposition: LocalOutputDisposition, frame: Vec<u8>) -> LocalOutputPacket {
    LocalOutputPacket { medium: Medium::Ip, meta: PacketMeta { id: 0 }, disposition, frame, charge: 0 }
}

fn routed_packet(ip_mtu: usize, frame: Vec<u8>) -> LocalOutputPacket {
    packet(
        LocalOutputDisposition::Routed { oif: 2, next_hop: IpAddress::Ipv4(HOP), ip_mtu },
        frame,
    )
}

#[test]
fn the_owner_sends_what_it_can_send_itself() {
    let policy = OutputBackendPolicy {
        owner_ifindex: 2,
        owner_is_up: true,
        authoritative_ipv4_output: false,
    };
    assert_eq!(
        policy.classify(IpVersion::Ipv6, None, false),
        OutputBackendDecision::NativeOwner
    );
    assert_eq!(
        policy.classify(IpVersion::Ipv4, Some(route(false, 2)), false),
        OutputBackendDecision::NativeOwner
    );
    assert_eq!(
        policy.classify(IpVersion::Ipv4, Some(route(false, 2)), true),
        OutputBackendDecision::Deferred(Some(route(false, 2)))
    );
    assert_eq!(
        policy.classify(IpVersion::Ipv4, Some(route(true, 2)), false),
        OutputBackendDecision::Deferred(Some(route(true, 2)))
    );
    assert_eq!(
        policy.classify(IpVersion::Ipv4, Some(route(false, 3)), false),
        OutputBackendDecision::Deferred(Some(route(false, 3)))
    );
    assert_eq!(
        policy.classify(IpVersion::Ipv4, None, false),
        OutputBackendDecision::Deferred(None)
    );
    let authoritative = OutputBackendPolicy { authoritative_ipv4_output: true, ..policy };
    let by_default = OutputRouteDecision { default_table: true, ..route(false, 2) };
    assert_eq!(
        authoritative.classify(IpVersion::Ipv4, Some(by_default), false),
        OutputBackendDecision::Deferred(Some(by_default))
    );
    let down = OutputBackendPolicy { owner_is_up: false, ..policy };
    assert_eq!(
        down.classify(IpVersion::Ipv4, Some(route(false, 2)), false),
        OutputBackendDecision::Deferred(Some(route(false, 2)))
    );
    assert_eq!(OutputBackendPolicy::constrained_oif(PacketMeta { id: 0 }), None);
    assert_eq!(OutputBackendPolicy::constrained_oif(PacketMeta { id: 5 }), Some(5));
}

#[test]
fn a_token_takes_over_the_route() {
    let mut queue = LocalInputQueue::new();
    let mut token = local_tx_token(&mut queue, Medium::Ethernet, 1514, 1500).unwrap();
    assert_eq!(queue.output.reserved_frames, 1);
    let told = token.apply_backend_decision(
        OutputBackendDecision::Deferred(Some(route(false, 7))),
        &mut queue.output,
        &mut queue.response_scratch,
    );
    assert_eq!((told.medium, told.ip_mtu), (Medium::Ip, 1400));
    assert_eq!(told.context, LocalOutputDisposition::routed_context(7, IpAddress::Ipv4(HOP)));
    token.set_meta(PacketMeta { id: 9 });
    token.consume(&[0x45, 1, 2], &mut queue.output);
    assert_eq!((queue.output.frames, queue.output.reserved_frames), (1, 0));
    let sent = queue.output.packets.pop_back().unwrap();
    assert_eq!(sent.frame, vec![0x45, 1, 2]);
    assert_eq!((sent.medium, sent.meta.id), (Medium::Ip, 9));
    assert_eq!(
        sent.disposition,
        LocalOutputDisposition::Routed { oif: 7, next_hop: IpAddress::Ipv4(HOP), ip_mtu: 1400 }
    );
}

#[test]
fn a_token_drops_what_has_no_route() {
    let mut queue = LocalInputQueue::new();
    let mut token = local_tx_token(&mut queue, Medium::Ethernet, 1514, 1500).unwrap();
    let told = token.apply_decision(OutputBackendDecision::Deferred(None), true);
    assert_eq!(told.context, LocalOutputDisposition::DROP_CONTEXT);
    assert_eq!(token.disposition, LocalOutputDisposition::Drop);
    let six = OutputRouteDecision {
        next_hop: IpAddress::Ipv6(Ipv6Address { high: 1, low: 1 }),
        ..route(false, 7)
    };
    let told = token.apply_decision(OutputBackendDecision::Deferred(Some(six)), true);
    assert_eq!(told.context, LocalOutputDisposition::DROP_CONTEXT);
    // A route to this host, for which the buffer could not be grown.
    let wide = OutputRouteDecision { ip_mtu: 70_000, ..route(true, 7) };
    let told = token.apply_decision(OutputBackendDecision::Deferred(Some(wide)), false);
    assert_eq!(told.ip_mtu, 1500);
    let told = token.apply_decision(OutputBackendDecision::Deferred(Some(wide)), true);
    assert_eq!(told.ip_mtu, 65_535);
    assert_eq!(LocalInputTxToken::wanted_capacity(OutputBackendDecision::Deferred(Some(wide))), Some(65_535));
    assert_eq!(LocalInputTxToken::wanted_capacity(OutputBackendDecision::Deferred(Some(six))), None);
    token.release(&mut queue);
    assert_eq!((queue.output.reserved_frames, queue.output.reserved_bytes), (0, 0));
}

#[test]
fn fragments_follow_the_saved_decision() {
    let mut queue = LocalInputQueue::new();
    let mut token = local_tx_token(&mut queue, Medium::Ethernet, 1514, 1500).unwrap();
    let saved = TxEgressOverride {
        medium: Medium::Ip,
        ip_mtu: 1300,
        context: LocalOutputDisposition::local_context(3),
    };
    assert!(token.apply_egress_override(Some(saved), &mut queue.output, &mut queue.response_scratch));
    assert_eq!(token.disposition, LocalOutputDisposition::Local { oif: 3, ip_mtu: 1300 });
    assert!(token.apply_egress_override(None, &mut queue.output, &mut queue.response_scratch));
    assert_eq!(token.disposition, LocalOutputDisposition::NativeOwner);
    token.release(&mut queue);
}

#[test]
fn a_device_token_serves_the_native_path_only() {
    let mut queue = LocalInputQueue::new();
    let mut without = RoutedTxToken::new(None, Medium::Ethernet, 1514, 1500);
    assert!(without.egress_override(OutputBackendDecision::NativeOwner, &mut queue).is_none());
    assert!(!without.apply_egress_override(None, &mut queue));

    let mut native = RoutedTxToken::new(Some(PacketMeta { id: 0 }), Medium::Ethernet, 1514, 1500);
    let told = native.egress_override(OutputBackendDecision::NativeOwner, &mut queue).unwrap();
    assert_eq!((told.medium, told.ip_mtu), (Medium::Ethernet, 1500));
    assert_eq!(told.context, LocalOutputDisposition::NATIVE_CONTEXT);
    native.set_meta(PacketMeta { id: 4 });
    assert_eq!(
        native.consume(&[1], &mut queue.output),
        RoutedTxBackend::Physical(PacketMeta { id: 4 })
    );
    assert_eq!(queue.output.packets.len(), 0);

    let mut routed = RoutedTxToken::new(None, Medium::Ethernet, 1514, 1500);
    assert!(routed
        .egress_override(OutputBackendDecision::Deferred(Some(route(false, 6))), &mut queue)
        .is_some());
    assert_eq!(routed.consume(&[0x45], &mut queue.output), RoutedTxBackend::Queued);
    assert_eq!(queue.output.packets.len(), 1);

    let mut rest = RoutedTxToken::new(None, Medium::Ethernet, 1514, 1500);
    let saved = TxEgressOverride {
        medium: Medium::Ip,
        ip_mtu: 1300,
        context: LocalOutputDisposition::routed_context(6, IpAddress::Ipv4(HOP)),
    };
    assert!(rest.apply_egress_override(Some(saved), &mut queue));
    assert_eq!(rest.consume(&[0x45], &mut queue.output), RoutedTxBackend::Queued);
    assert_eq!((queue.output.frames, queue.output.reserved_frames), (2, 0));
}

#[test]
fn routed_packets_are_checked_against_their_interface() {
    let good = routed_packet(1500, vec![0x45; 40]);
    assert_eq!(check_routed_output(&good, true, 1500), None);
    assert_eq!(check_routed_output(&good, false, 1500), Some(SystemError::ENETDOWN));
    assert_eq!(check_routed_output(&good, true, 39), Some(SystemError::EMSGSIZE));
    assert_eq!(
        check_routed_output(&routed_packet(39, vec![0x45; 40]), true, 1500),
        Some(SystemError::EINVAL)
    );
    assert_eq!(
        check_routed_output(&routed_packet(1500, vec![0x60; 40]), true, 1500),
        Some(SystemError::EINVAL)
    );
    assert_eq!(
        check_routed_output(&packet(LocalOutputDisposition::Drop, vec![0x45]), true, 1500),
        Some(SystemError::EINVAL)
    );
    assert!(matches!(
        transmit_routed_stack_output(good, true, 1500, Ok(())),
        LocalOutputTransmitResult::Sent(_)
    ));
    let later = Err(RouteSendError::RetryAt { retry_at: 77, probe_sent: true });
    assert!(matches!(
        transmit_routed_stack_output(routed_packet(1500, vec![0x45]), true, 1500, later),
        LocalOutputTransmitResult::RetryAt { retry_at: 77, probe_sent: true, .. }
    ));
    let failed = Err(RouteSendError::Failed(SystemError::ENOBUFS));
    assert!(matches!(
        transmit_routed_stack_output(routed_packet(1500, vec![0x45]), true, 1500, failed),
        LocalOutputTransmitResult::RetrySoon(_)
    ));
}

#[test]
fn every_path_has_its_outcome() {
    let native = || packet(LocalOutputDisposition::NativeOwner, vec![1]);
    assert!(matches!(transmit_native_output(native(), true), LocalOutputTransmitResult::Sent(_)));
    assert!(matches!(
        transmit_native_output(native(), false),
        LocalOutputTransmitResult::RetrySoon(_)
    ));
    assert!(matches!(
        transmit_native_output_if_up(native(), false, true),
        LocalOutputTransmitResult::Drop(_, SystemError::ENETDOWN)
    ));
    assert!(matches!(
        transmit_native_output_if_up(native(), true, true),
        LocalOutputTransmitResult::Sent(_)
    ));
    assert!(matches!(
        transmit_local_delivery(native(), Err(SystemError::ENOBUFS)),
        LocalOutputTransmitResult::Drop(_, SystemError::ENOBUFS)
    ));
    assert!(matches!(
        output_error(native(), SystemError::EAGAIN_OR_EWOULDBLOCK),
        LocalOutputTransmitResult::RetrySoon(_)
    ));
    assert!(matches!(
        output_error(native(), SystemError::EINVAL),
        LocalOutputTransmitResult::Drop(_, SystemError::EINVAL)
    ));

    let here = Some(EgressState { up: true, mtu: 1500 });
    assert!(matches!(
        transmit_local_stack_output(&native(), false, None),
        TransmitPlan::Refuse(SystemError::ENETDOWN)
    ));
    assert!(matches!(transmit_local_stack_output(&native(), true, None), TransmitPlan::Native));
    let dropped = packet(LocalOutputDisposition::Drop, vec![1]);
    assert!(matches!(
        transmit_local_stack_output(&dropped, true, here),
        TransmitPlan::Refuse(SystemError::ENETUNREACH)
    ));
    let local = packet(LocalOutputDisposition::Local { oif: 1, ip_mtu: 1500 }, vec![0x45; 20]);
    assert!(matches!(transmit_local_stack_output(&local, true, here), TransmitPlan::Inject));
    assert!(matches!(
        transmit_local_stack_output(&local, true, None),
        TransmitPlan::Refuse(SystemError::ENODEV)
    ));
    assert!(matches!(
        transmit_local_stack_output(&local, true, Some(EgressState { up: true, mtu: 19 })),
        TransmitPlan::Refuse(SystemError::EMSGSIZE)
    ));
    let routed = routed_packet(1500, vec![0x45; 20]);
    assert!(matches!(
        transmit_local_stack_output(&routed, true, here),
        TransmitPlan::Route(IpAddress::Ipv4(HOP))
    ));
    assert!(matches!(
        transmit_local_stack_output(&routed, true, None),
        TransmitPlan::Refuse(SystemError::ENODEV)
    ));
}

#[test]
fn sending_to_a_next_hop_starts_with_its_neighbor() {
    let mac = EthernetAddress::new([2, 0, 0, 0, 0, 1]);
    let neighbors = vec![StaticNeighborEntry { ip_addr: IpAddress::Ipv4(HOP), hw_addr: mac, state: 0, flags: 0 }];
    let start = route_and_send(IpAddress::Ipv4(HOP), 20, true, &neighbors).unwrap();
    assert_eq!(start.next_hop, HOP);
    assert_eq!(start.frame_capacity, 42);
    assert_eq!(start.permanent_neighbor, Some(mac));
    let other = IpAddress::Ipv4(Ipv4Address { bits: 1 });
    assert_eq!(route_and_send(other, 100, true, &neighbors).unwrap().permanent_neighbor, None);
    assert_eq!(frame_capacity(100), 114);
    assert_eq!(
        route_and_send(other, 100, false, &neighbors),
        Err(RouteSendError::Failed(SystemError::ENOMEM))
    );
    let six = IpAddress::Ipv6(Ipv6Address { high: 1, low: 1 });
    assert_eq!(
        route_and_send(six, 100, true, &neighbors),
        Err(RouteSendError::Failed(SystemError::EAFNOSUPPORT))
    );
    assert_eq!(route_send_result(DispatchOutcome::Done, true, Ok(())), Ok(()));
    assert_eq!(
        route_send_result(DispatchOutcome::NeighborPending { retry_at: 5 }, true, Ok(())),
        Err(RouteSendError::RetryAt { retry_at: 5, probe_sent: true })
    );
    assert_eq!(
        route_send_result(DispatchOutcome::Done, true, Err(SystemError::EIO)),
        Err(RouteSendError::Failed(SystemError::EIO))
    );
    assert_eq!(
        route_send_result(DispatchOutcome::NoRoute, false, Ok(())),
        Err(RouteSendError::Failed(SystemError::ENETUNREACH))
    );
    assert_eq!(
        route_send_result(DispatchOutcome::Exhausted, false, Ok(())),
        Err(RouteSendError::Failed(SystemError::EAGAIN_OR_EWOULDBLOCK))
    );
    assert_eq!(
        route_send_result(DispatchOutcome::Malformed, false, Ok(())),
        Err(RouteSendError::Failed(SystemError::EINVAL))
    );
}

fn interface() -> IfaceCommon {
    IfaceCommon::new(
        2,
        InterfaceType::ETHER,
        String::from("eth0"),
        1500,
        InterfaceFlags::from_bits_truncate(InterfaceFlags::UP),
    )
}

#[test]
fn a_packet_that_cannot_leave_waits_for_its_neighbor() {
    let mut common = interface();
    let ip = vec![0x45; 40];
    assert_eq!(common.enqueue_existing_routed_output(2, HOP, &ip), Ok(None));
    let sent = Err(RouteSendError::RetryAt { retry_at: 900, probe_sent: true });
    assert_eq!(common.route_and_send_or_queue(HOP, &ip, sent, 0, 100), Ok(Some(900)));
    assert_eq!(common.enqueue_existing_routed_output(2, HOP, &ip), Ok(Some(900)));
    let waker = poll_waker(true, false);
    assert_eq!(waker, Some(PollWaker::Napi));
    assert_eq!(common.join_routed_output(IpAddress::Ipv4(HOP), &ip, waker), Ok(Some(900)));
    assert_eq!(
        common.join_routed_output(IpAddress::Ipv4(HOP), &ip, None),
        Err(SystemError::ENODEV)
    );
    assert_eq!(
        common.join_routed_output(IpAddress::Ipv6(Ipv6Address { high: 0, low: 1 }), &ip, waker),
        Err(SystemError::EAFNOSUPPORT)
    );
    assert_eq!(
        common.enqueue_existing_routed_output(2, HOP, &vec![0x45; 1501]),
        Err(SystemError::EMSGSIZE)
    );
    assert_eq!(common.local_input_queue.output.frames, 3);
    common.release_resolved_routed_outputs(&[HOP]);
    assert_eq!(common.local_input_queue.output.packets.len(), 3);
    assert_eq!(common.local_input_queue.output.packets[0].frame, ip);
}

#[test]
fn a_refused_packet_waits_for_the_device() {
    let mut common = interface();
    let refused = Err(RouteSendError::Failed(SystemError::ENOBUFS));
    assert_eq!(
        common.route_and_send_or_queue(HOP, &[0x45; 20], refused, 0, 5_000),
        Ok(Some(6_000))
    );
    assert_eq!(common.local_input_queue.output.backpressured.len(), 1);
    // The delay doubles.
    assert_eq!(
        common.route_and_send_or_queue(HOP, &[0x45; 20], refused, 0, 5_000),
        Ok(Some(7_000))
    );
    // A transmission that ended meanwhile makes all of them ready.
    common.tx_completion_generation = 1;
    assert_eq!(
        common.route_and_send_or_queue(HOP, &[0x45; 20], refused, 0, 5_000),
        Ok(Some(5_000))
    );
    assert_eq!(common.local_input_queue.output.packets.len(), 3);
    let failed = Err(RouteSendError::Failed(SystemError::EIO));
    assert_eq!(
        common.route_and_send_or_queue(HOP, &[0x45; 20], failed, 0, 5_000),
        Err(SystemError::EIO)
    );
    assert!(common
        .defer_native_output_after_tx_backpressure(
            Medium::Ethernet,
            PacketMeta { id: 1 },
            vec![9, 9],
            1,
            10,
        )
        .is_ok());
    assert_eq!(common.local_input_queue.output.backpressured[0].packet.frame, vec![9, 9]);
    assert!(common.notify_tx_available());
    assert!(!common.notify_tx_available());
}

#[test]
fn local_packets_are_delivered_to_a_polled_interface() {
    let mut common = interface();
    let mac = EthernetAddress::new([2, 0, 0, 0, 0, 1]);
    let from = EthernetAddress::new([2, 0, 0, 0, 0, 2]);
    assert_eq!(
        common.inject_local_ipv4_packet(mac, 3, from, &[0x45], false, None),
        Err(SystemError::ENODEV)
    );
    let waker = poll_waker(false, true);
    assert_eq!(waker, Some(PollWaker::Namespace));
    assert_eq!(poll_waker(false, false), None);
    assert_eq!(common.inject_local_ipv4_packet(mac, 3, from, &[0x45], false, waker), Ok(()));
    assert_eq!(common.inject_local_ipv4_packet(mac, 3, from, &[0x45], true, waker), Ok(()));
    let first = common.local_input_queue.state.pop().unwrap();
    assert_eq!((first.ingress_ifindex, first.destination_mac), (3, mac));
    let second = common.local_input_queue.state.pop().unwrap();
    assert_eq!(second.destination_mac, EthernetAddress::broadcast());
    assert!(common.namespace_routed_stack);
}

#[test]
fn a_drain_hands_out_packets_until_its_budget_is_spent() {
    let mut common = interface();
    assert_eq!(
        common.begin_output_drain(8).err().map(|result| result.state),
        Some(LocalOutputDrainState::Quiescent)
    );
    common.set_net_namespace(1);
    for tag in 0..3u8 {
        let mut token =
            local_tx_token(&mut common.local_input_queue, Medium::Ethernet, 100, 86).unwrap();
        token.set_meta(PacketMeta { id: 0 });
        token.consume(&[tag], &mut common.local_input_queue.output);
    }
    let mut drain = common.begin_output_drain(2).unwrap();
    assert_eq!(
        common.begin_output_drain(2).err().map(|result| result.state),
        Some(LocalOutputDrainState::BudgetExhausted)
    );
    for tag in 0..2u8 {
        match common.drain_local_outputs(&mut drain, 0) {
            DrainStep::Transmit { packet, reservation, probe } => {
                assert_eq!(packet.frame, vec![tag]);
                assert!(probe.is_none());
                let result = transmit_native_output(packet, true);
                assert_eq!(common.complete_transmit(reservation, probe, result, 0, 0), None);
            }
            _ => panic!("a packet is handed out"),
        }
    }
    match common.drain_local_outputs(&mut drain, 0) {
        DrainStep::Finished(result, _) => {
            assert_eq!(result.work_done, 2);
            assert_eq!(result.state, LocalOutputDrainState::BudgetExhausted);
            assert!(result.needs_immediate_poll());
        }
        _ => panic!("the budget is spent"),
    }
    assert_eq!(common.local_input_queue.output.frames, 1);

    let mut drain = common.begin_output_drain(8).unwrap();
    match common.drain_local_outputs(&mut drain, 0) {
        DrainStep::Transmit { packet, reservation, probe } => {
            let result = transmit_native_output(packet, false);
            assert_eq!(common.complete_transmit(reservation, probe, result, 0, 50), Some(1_050));
        }
        _ => panic!("a packet is handed out"),
    }
    match common.drain_local_outputs(&mut drain, 60) {
        DrainStep::Finished(result, at) => {
            assert_eq!(result.state, LocalOutputDrainState::Backpressured);
            assert_eq!(at, Some(1_050));
        }
        _ => panic!("the rest waits for the device"),
    }
}

#[test]
fn an_admitted_packet_is_sent_queued_or_dropped() {
    let mut common = interface();
    let (sent, reservation) =
        common.prepare_routed_output(2, IpAddress::Ipv4(HOP), &[0x45; 20]).unwrap();
    let result = LocalOutputTransmitResult::Sent(sent);
    assert!(matches!(
        common.transmit_admitted_routed_output(reservation, result, 0, 0),
        AdmittedRoutedOutput::Sent(_)
    ));
    let (late, reservation) =
        common.prepare_routed_output(2, IpAddress::Ipv4(HOP), &[0x45; 20]).unwrap();
    let result = LocalOutputTransmitResult::RetryAt { packet: late, retry_at: 70, probe_sent: false };
    assert!(matches!(
        common.transmit_admitted_routed_output(reservation, result, 0, 0),
        AdmittedRoutedOutput::Queued(70)
    ));
    let (bad, reservation) =
        common.prepare_routed_output(2, IpAddress::Ipv4(HOP), &[0x45; 20]).unwrap();
    let result = LocalOutputTransmitResult::Drop(bad, SystemError::EINVAL);
    assert!(matches!(
        common.transmit_admitted_routed_output(reservation, result, 0, 0),
        AdmittedRoutedOutput::Drop(_, SystemError::EINVAL)
    ));
    assert_eq!((common.local_input_queue.output.frames, common.local_input_queue.output.reserved_frames), (1, 0));
    assert_eq!(IfaceCommon::recheck_neighbor(70, true, 5), 5);
    assert_eq!(IfaceCommon::recheck_neighbor(70, false, 5), 70);
    let reserved = common.local_input_queue.output.reserve_output().unwrap();
    assert_eq!(
        common.fill_routed_output(reserved, None, 2, IpAddress::Ipv4(HOP), &[0x45]).err(),
        Some(SystemError::ENOMEM)
    );
    assert_eq!(common.local_input_queue.output.reserved_frames, 0);
}

#[test]
fn a_token_holds_a_buffer_for_the_largest_packet() {
    let mut queue = LocalInputQueue::new();
    let token = local_tx_token(&mut queue, Medium::Ethernet, 1514, 1500).unwrap();
    assert!(token.scratch.capacity >= 1514);
    assert_eq!(queue.output.reserved_bytes, token.scratch.capacity);
    assert_eq!(queue.output.reserved_frames, 1);
    let far = LocalInputQueue::MAX_BYTES + 1;
    assert!(local_tx_token(&mut queue, Medium::Ethernet, far, 1500).is_none());
    assert_eq!(queue.output.reserved_frames, 1);
    assert_eq!(queue.output.reserved_bytes, token.scratch.capacity);
}

#[test]
fn a_token_announces_no_more_than_its_buffer_holds() {
    let mut queue = LocalInputQueue::new();
    let mut token = local_tx_token(&mut queue, Medium::Ethernet, 100, 86).unwrap();
    let before = token.scratch.capacity;
    let told = token.apply_backend_decision(
        OutputBackendDecision::Deferred(Some(route(false, 7))),
        &mut queue.output,
        &mut queue.response_scratch,
    );
    assert_eq!(told.ip_mtu, 1400);
    assert!(token.scratch.capacity >= 1400 && before < 1400);
    assert_eq!(queue.output.reserved_bytes, token.scratch.capacity);
    // With no room left in the queue, the buffer stays as it is.
    let mut queue = LocalInputQueue::new();
    let mut small = local_tx_token(&mut queue, Medium::Ethernet, 100, 86).unwrap();
    let mut rest = queue.output.reserve_output().unwrap();
    let room = LocalInputQueue::MAX_BYTES - queue.output.reserved_bytes;
    assert!(rest.try_resize(&mut queue.output, room));
    let before = small.scratch.capacity;
    let told = small.apply_backend_decision(
        OutputBackendDecision::Deferred(Some(route(false, 7))),
        &mut queue.output,
        &mut queue.response_scratch,
    );
    assert_eq!((told.ip_mtu, small.scratch.capacity), (86, before));
    let wide = TxEgressOverride {
        medium: Medium::Ip,
        ip_mtu: 1400,
        context: LocalOutputDisposition::local_context(3),
    };
    assert!(!small.apply_egress_override(Some(wide), &mut queue.output, &mut queue.response_scratch));
    let mut device = RoutedTxToken::new(None, Medium::Ethernet, 100, 86);
    let away = OutputBackendDecision::Deferred(None);
    assert!(device.egress_through(away, None, &mut queue).is_none());
    assert!(!device.saved_through(wide, None, &mut queue));
    assert!(device.egress_through(away, Some(small), &mut queue).is_some());
    assert!(device.routed.is_some());
}

fn memory(room: bool, capacity: Option<usize>, bucket_room: bool) -> RoutedMemory {
    let scratch =
        capacity.map(|capacity| LocalInputScratch { buffer: Some(Vec::new()), capacity });
    RoutedMemory { room, scratch, bucket_room }
}

#[test]
fn a_packet_waits_exactly_if_there_is_memory_for_it() {
    let mut common = interface();
    let ip = [0x45; 40];
    let retry = Err(RouteSendError::RetryAt { retry_at: 900, probe_sent: false });
    for (given, error) in [
        (memory(false, Some(40), true), SystemError::ENOBUFS),
        (memory(true, None, true), SystemError::ENOMEM),
        (memory(true, Some(LocalInputQueue::MAX_BYTES + 1), true), SystemError::ENOBUFS),
        (memory(true, Some(40), false), SystemError::ENOBUFS),
    ] {
        assert_eq!(common.settle_send(HOP, &ip, retry, 0, 5, given), Err(error));
        assert_eq!(common.local_input_queue.output.frames, 0);
        assert_eq!(common.local_input_queue.output.reserved_frames, 0);
    }
    let none = memory(true, Some(40), true);
    assert_eq!(common.join_prepared(2, HOP, &ip, none), Ok(None));
    let given = memory(true, Some(40), true);
    assert_eq!(common.settle_send(HOP, &ip, retry, 0, 5, given), Ok(Some(900)));
    assert_eq!(common.local_input_queue.output.bytes, 40);
    let given = memory(true, Some(50), false);
    assert_eq!(common.join_prepared(2, HOP, &ip, given), Err(SystemError::ENOBUFS));
    let given = memory(true, Some(50), true);
    let waker = poll_waker(true, false);
    let hop = IpAddress::Ipv4(HOP);
    assert_eq!(common.join_routed_prepared(hop, &ip, waker, given), Ok(Some(900)));
    assert_eq!(common.local_input_queue.output.bytes, 90);
    let refused = Err(RouteSendError::Failed(SystemError::ENOBUFS));
    let given = memory(true, Some(60), false);
    assert_eq!(common.settle_send(HOP, &ip, refused, 0, 5_000, given), Ok(Some(6_000)));
    assert_eq!(common.local_input_queue.output.backpressured.len(), 1);
    assert_eq!(common.settle_send(HOP, &ip, Ok(()), 0, 5, memory(true, Some(8), true)), Ok(None));
}

#[test]
fn a_packet_of_another_interface_is_admitted_exactly_if_it_fits() {
    let mut common = interface();
    let offered = |charge| LocalOutputPacket { charge, ..routed_packet(1500, vec![0x45; 30]) };
    assert!(matches!(common.offer_reserved(offered(30), false, true), ExistingDeferredEnqueue::Full(_)));
    let far = offered(LocalInputQueue::MAX_BYTES + 1);
    assert!(matches!(common.offer_reserved(far, true, true), ExistingDeferredEnqueue::Full(_)));
    match common.offer_reserved(offered(30), true, true) {
        ExistingDeferredEnqueue::Missing(packet, reservation) => {
            assert_eq!((packet.charge, reservation.bytes), (30, 30));
            assert_eq!(common.local_input_queue.output.reserved_bytes, 30);
            reservation.release(&mut common.local_input_queue.output);
        }
        _ => panic!("nothing waits for the neighbor"),
    }
    common.enqueue_routed_output(2, HOP, &[0x45; 20], 700, false).unwrap();
    assert!(matches!(common.offer_reserved(offered(30), true, false), ExistingDeferredEnqueue::Full(_)));
    match common.offer_reserved(offered(30), true, true) {
        ExistingDeferredEnqueue::Queued(at) => assert_eq!(at, 700),
        _ => panic!("the packet joins the other"),
    }
    match common.enqueue_existing_deferred_output(offered(31)) {
        ExistingDeferredEnqueue::Queued(at) => assert_eq!(at, 700),
        _ => panic!("the packet joins the others"),
    }
    assert_eq!(common.local_input_queue.output.frames, 3);
    let meta = PacketMeta { id: 1 };
    let ethernet = Medium::Ethernet;
    let kept = common.keep_native_frame(ethernet, meta, vec![9], 4, 0, 10, false);
    assert_eq!(kept, Err(vec![9]));
    let far = LocalInputQueue::MAX_BYTES;
    let kept = common.keep_native_frame(ethernet, meta, vec![9], far, 0, 10, true);
    assert_eq!(kept, Err(vec![9]));
    let kept = common.keep_native_frame(ethernet, meta, vec![9], 4, 0, 10, true);
    assert_eq!(kept, Ok(1_010));
    assert_eq!(common.local_input_queue.output.backpressured[0].packet.charge, 4);
}

#[test]
fn a_packet_whose_interface_is_gone_is_sent_here() {
    let mut common = interface();
    let mut reservation = common.local_input_queue.output.reserve_output().unwrap();
    assert!(reservation.try_resize(&mut common.local_input_queue.output, 30));
    let step = |reservation| DrainStep::Egress {
        oif: 2,
        packet: LocalOutputPacket { charge: 30, ..routed_packet(1500, vec![0x45; 30]) },
        reservation,
    };
    let kept = match step(reservation).with_egress(true) {
        DrainStep::Egress { oif, reservation, .. } => {
            assert_eq!(oif, 2);
            reservation
        }
        _ => panic!("the interface takes the packet"),
    };
    match step(kept).with_egress(false) {
        DrainStep::Transmit { packet, reservation, probe } => {
            assert_eq!((packet.frame.len(), reservation.bytes), (30, 30));
            assert!(probe.is_none());
        }
        _ => panic!("the packet is sent"),
    }
    assert!(matches!(DrainStep::Absorbed(None).with_egress(false), DrainStep::Absorbed(None)));
}

#[test]
fn a_packet_without_a_known_neighbor_waits_or_gives_its_room_back() {
    let mut common = interface();
    let take = |common: &mut IfaceCommon| {
        let mut reservation = common.local_input_queue.output.reserve_output().unwrap();
        assert!(reservation.try_resize(&mut common.local_input_queue.output, 30));
        let packet = LocalOutputPacket { charge: 30, ..routed_packet(1500, vec![0x45; 30]) };
        (packet, reservation)
    };
    let (packet, reservation) = take(&mut common);
    match common.admit_own_reserved(packet, reservation, false) {
        DrainStep::Transmit { packet, reservation, .. } => {
            assert!(common.await_neighbor(reservation, packet, 800, true, false).is_err());
        }
        _ => panic!("nothing waits for the neighbor"),
    }
    assert_eq!(common.local_input_queue.output.reserved_bytes, 0);
    let (packet, reservation) = take(&mut common);
    assert!(common.await_neighbor(reservation, packet, 800, true, true).is_ok());
    assert_eq!(common.local_input_queue.output.frames, 1);
    let (packet, reservation) = take(&mut common);
    assert!(matches!(
        common.admit_own_reserved(packet, reservation, true),
        DrainStep::Absorbed(Some(800))
    ));
    let (packet, reservation) = take(&mut common);
    assert!(matches!(
        common.admit_own_reserved(packet, reservation, false),
        DrainStep::Absorbed(None)
    ));
    assert_eq!(common.local_input_queue.output.frames, 2);
    assert_eq!(common.local_input_queue.output.reserved_frames, 0);
}

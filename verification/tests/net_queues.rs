//! The bounded queues of an interface.

use std::collections::VecDeque;

use kdrivers::error::SystemError;
use kdrivers::net::addr::{EthernetAddress, IpAddress, Ipv4Address, Medium, PacketMeta};
use kdrivers::net::deferred_index::DeferredRouteIndex;
use kdrivers::net::deferred_queue::{
    DeferredRouteKey, DeferredRouteLimits, DeferredRouteQueue, JoinDeferredResult,
};
use kdrivers::net::local_output::LocalInputScratch;
use kdrivers::net::local_queue::{
    ExistingDeferredCommit, LocalInputPacket, LocalInputQueue, LocalInputQueueState,
    LocalOutputDisposition, LocalOutputPacket, LocalOutputPop, LocalOutputQueueState,
    LocalOutputReservation, LocalOutputScratchPool,
};

const HOP: Ipv4Address = Ipv4Address { bits: 0x0a00_0001 };

fn routed(oif: u32, next_hop: Ipv4Address, tag: u8) -> LocalOutputPacket {
    LocalOutputPacket {
        medium: Medium::Ip,
        meta: PacketMeta { id: 0 },
        disposition: LocalOutputDisposition::Routed {
            oif,
            next_hop: IpAddress::Ipv4(next_hop),
            ip_mtu: 1500,
        },
        frame: vec![tag],
        charge: 1,
    }
}

fn limits() -> DeferredRouteLimits {
    DeferredRouteLimits { frames: 3, bytes: 100 }
}

#[test]
fn the_index_finds_every_key_until_it_is_removed() {
    let mut index = DeferredRouteIndex::new();
    let keys = [0u64, 1, u64::MAX, 0x8000_0000_0000_0000, 0x1234, 0x1235, 7];
    for (slot, key) in keys.iter().enumerate() {
        assert!(index.try_reserve_insert().is_ok());
        index.insert_prepared(*key, slot);
    }
    assert_eq!(index.len(), 7);
    for (slot, key) in keys.iter().enumerate() {
        assert_eq!(index.get(*key).map(|(_, found)| found), Some(slot));
    }
    assert!(index.get(2).is_none());
    let (leaf, _) = index.get(0x1234).unwrap();
    index.set_slot(leaf, 0x1234, 99);
    assert_eq!(index.remove(0x1234), Some(99));
    assert_eq!(index.remove(0x1234), None);
    assert_eq!(index.get(0x1235).map(|(_, slot)| slot), Some(5));
    for key in [0u64, 1, u64::MAX, 0x8000_0000_0000_0000, 0x1235, 7] {
        assert!(index.remove(key).is_some());
    }
    assert_eq!(index.len(), 0);
}

#[test]
fn packets_wait_for_their_neighbor_in_order() {
    let mut queue = DeferredRouteQueue::new();
    assert!(queue.is_empty());
    assert_eq!(queue.next_retry(), None);
    assert_eq!(queue.try_enqueue(routed(1, HOP, 1), 100, false, false, limits()).ok(), Some(100));
    let other = Ipv4Address { bits: 0x0a00_0002 };
    assert_eq!(queue.try_enqueue(routed(1, other, 2), 50, false, false, limits()).ok(), Some(50));
    assert_eq!(queue.next_retry(), Some(50));
    assert!(!queue.has_due(49));
    assert!(queue.has_due(50));
    match queue.try_join(routed(1, HOP, 3), limits()) {
        JoinDeferredResult::Queued(at) => assert_eq!(at, 100),
        _ => panic!("the packet joins those that wait"),
    }
    assert!(matches!(
        queue.try_join(routed(2, HOP, 4), limits()),
        JoinDeferredResult::Missing(_)
    ));
    let mut ready = VecDeque::new();
    assert!(queue.release_neighbor(DeferredRouteKey { oif: 1, next_hop: HOP }, &mut ready));
    let tags: Vec<u8> = ready.iter().map(|packet| packet.frame[0]).collect();
    assert_eq!(tags, vec![1, 3]);
    assert!(!queue.contains(DeferredRouteKey { oif: 1, next_hop: HOP }));
    assert!(queue.contains(DeferredRouteKey { oif: 1, next_hop: other }));
    assert!(!queue.release_neighbor(DeferredRouteKey { oif: 1, next_hop: HOP }, &mut ready));
}

#[test]
fn a_neighbor_holds_a_limited_number_of_packets() {
    let mut queue = DeferredRouteQueue::new();
    for tag in 0..3 {
        assert!(queue.try_enqueue(routed(1, HOP, tag), 100, false, false, limits()).is_ok());
    }
    let refused = queue.try_enqueue(routed(1, HOP, 9), 100, false, false, limits());
    assert_eq!(refused.err().map(|packet| packet.frame), Some(vec![9]));
    assert!(matches!(queue.try_join(routed(1, HOP, 8), limits()), JoinDeferredResult::Full(_)));
    // Without memory nothing is queued.
    let other = Ipv4Address { bits: 5 };
    assert!(queue.enqueue_reserved(routed(1, other, 1), 1, false, false, limits(), false).is_err());
    assert!(matches!(
        queue.join_reserved(routed(1, HOP, 1), limits(), false),
        JoinDeferredResult::Full(_)
    ));
}

#[test]
fn a_due_neighbor_is_probed_and_its_probe_goes_back_in_front() {
    let mut queue = DeferredRouteQueue::new();
    let key = DeferredRouteKey { oif: 1, next_hop: HOP };
    queue.try_enqueue(routed(1, HOP, 1), 100, true, false, limits()).ok();
    queue.try_enqueue(routed(1, HOP, 2), 100, false, false, limits()).ok();
    let mut ready = VecDeque::new();
    assert!(queue.pop_due(99, 3, &mut ready).is_none());
    let (probe, of) = queue.pop_due(100, 3, &mut ready).unwrap();
    assert_eq!(probe.frame, vec![1]);
    assert_eq!(of, Some(key));
    assert_eq!(queue.finish_probe(probe, key, 200, true, &mut ready).ok(), Some(false));
    let (probe, _) = queue.pop_due(200, 3, &mut ready).unwrap();
    assert_eq!(probe.frame, vec![1]);
    queue.complete_probe_success(key, &mut ready);
    assert_eq!(ready.pop_front().map(|packet| packet.frame), Some(vec![2]));
    assert!(queue.is_empty());
}

#[test]
fn resolved_neighbors_let_their_packets_go() {
    let mut queue = DeferredRouteQueue::new();
    let other = Ipv4Address { bits: 0x0a00_0002 };
    queue.try_enqueue(routed(1, HOP, 1), 100, false, false, limits()).ok();
    queue.try_enqueue(routed(2, HOP, 2), 100, false, false, limits()).ok();
    queue.try_enqueue(routed(1, other, 3), 100, false, false, limits()).ok();
    let mut ready = VecDeque::new();
    queue.release_resolved(&[HOP], &mut ready);
    let mut tags: Vec<u8> = ready.iter().map(|packet| packet.frame[0]).collect();
    tags.sort();
    assert_eq!(tags, vec![1, 2]);
    assert!(queue.contains(DeferredRouteKey { oif: 1, next_hop: other }));
}

#[test]
fn packets_become_ready_in_the_order_of_the_backlog() {
    let mut queue = DeferredRouteQueue::new();
    for (oif, retry_at) in [(1, 500), (2, 100), (3, 200)] {
        queue.try_enqueue(routed(oif, HOP, oif as u8), retry_at, false, false, limits()).ok();
        queue.try_enqueue(routed(oif, HOP, 10 + oif as u8), retry_at, false, false, limits()).ok();
    }
    let mut ready = VecDeque::new();
    queue.release_resolved(&[HOP], &mut ready);
    let tags: Vec<u8> = ready.iter().map(|packet| packet.frame[0]).collect();
    assert_eq!(tags, vec![2, 12, 1, 11, 3, 13]);
    assert!(queue.is_empty());
}

fn input(len: usize) -> LocalInputPacket {
    let mut ip_packet = vec![0; len];
    if len > 0 {
        ip_packet[0] = 0x45;
    }
    LocalInputPacket {
        ingress_ifindex: 4,
        destination_mac: EthernetAddress::new([1, 2, 3, 4, 5, 6]),
        source_mac: EthernetAddress::new([6, 5, 4, 3, 2, 1]),
        ip_packet,
    }
}

#[test]
fn input_is_framed_for_its_medium() {
    assert_eq!(input(3).into_frame(Medium::Ip).ok(), Some(vec![0x45, 0, 0]));
    assert_eq!(
        input(2).into_frame(Medium::Ethernet).ok(),
        Some(vec![1, 2, 3, 4, 5, 6, 6, 5, 4, 3, 2, 1, 8, 0, 0x45, 0])
    );
    let mut v6 = input(1);
    v6.ip_packet[0] = 0x60;
    assert_eq!(v6.into_frame(Medium::Ethernet).ok().map(|frame| (frame[12], frame[13])), Some((0x86, 0xdd)));
    let mut odd = input(1);
    odd.ip_packet[0] = 0x50;
    assert_eq!(odd.into_frame(Medium::Ethernet).err(), Some(SystemError::EINVAL));
    assert_eq!(
        input(1).framed(Medium::Ethernet, Vec::new(), false).err(),
        Some(SystemError::ENOMEM)
    );
}

#[test]
fn the_input_queue_is_bounded_in_packets_and_bytes() {
    let mut state = LocalInputQueueState { packets: VecDeque::new(), bytes: 0 };
    assert!(state.is_empty());
    for _ in 0..LocalInputQueue::MAX_FRAMES {
        assert_eq!(state.enqueue(input(1)), Ok(()));
    }
    assert_eq!(state.enqueue(input(1)), Err(SystemError::ENOBUFS));
    assert_eq!(state.pop().map(|packet| packet.len()), Some(1));
    assert_eq!(state.enqueue(input(LocalInputQueue::MAX_BYTES)), Err(SystemError::ENOBUFS));
    assert_eq!(state.enqueue_reserved(input(1), false), Err(SystemError::ENOMEM));
    assert_eq!(state.enqueue_reserved(input(1), true), Ok(()));
}

fn committed(output: &mut LocalOutputQueueState) -> LocalOutputReservation {
    let mut reservation = output.reserve_output().unwrap();
    assert!(reservation.try_resize(output, 1));
    reservation
}

#[test]
fn reserved_room_is_given_back_or_spent() {
    let mut output = LocalOutputQueueState::new();
    let reservation = committed(&mut output);
    assert_eq!((output.reserved_frames, output.reserved_bytes), (1, 1));
    reservation.release(&mut output);
    assert_eq!((output.reserved_frames, output.reserved_bytes), (0, 0));

    let reservation = committed(&mut output);
    reservation.commit_packet(&mut output, routed(1, HOP, 2));
    assert_eq!((output.frames, output.bytes), (1, 1));
    assert!(output.has_ready_output(0));

    let mut too_much = output.reserve_output().unwrap();
    assert!(!too_much.try_resize(&mut output, LocalInputQueue::MAX_BYTES));
    too_much.release(&mut output);
    assert!(output.reserve(false).is_none());
}

#[test]
fn refused_packets_wait_for_the_device() {
    let mut output = LocalOutputQueueState::new();
    let reservation = committed(&mut output);
    reservation.requeue_backpressured(&mut output, routed(1, HOP, 1), 500);
    assert!(output.has_output());
    assert!(!output.has_ready_output(499));
    assert!(output.has_ready_output(500));
    assert!(matches!(output.pop_ready_output(0, false), LocalOutputPop::DeferredUntil(500)));
    assert!(output.release_backpressured_outputs());
    assert!(!output.release_backpressured_outputs());
    match output.pop_ready_output(0, false) {
        LocalOutputPop::Ready(packet, reservation, probe) => {
            assert_eq!(packet.frame, vec![1]);
            assert_eq!(reservation.bytes, 1);
            assert!(probe.is_none());
            reservation.release(&mut output);
        }
        _ => panic!("a packet is ready"),
    }
    assert!(matches!(output.pop_ready_output(0, false), LocalOutputPop::Empty));
    assert_eq!((output.frames, output.reserved_frames), (0, 0));
}

#[test]
fn deferred_packets_join_and_leave_the_queue() {
    let mut output = LocalOutputQueueState::new();
    let reservation = committed(&mut output);
    assert!(reservation
        .commit_deferred_packet(&mut output, routed(1, HOP, 1), 700, false, false)
        .is_ok());
    assert!(output.has_deferred_output());
    let reservation = committed(&mut output);
    match reservation.commit_existing_deferred(&mut output, routed(1, HOP, 2)) {
        ExistingDeferredCommit::Queued(at) => assert_eq!(at, 700),
        _ => panic!("the packet joins those that wait"),
    }
    let reservation = committed(&mut output);
    match reservation.commit_existing_deferred(&mut output, routed(9, HOP, 3)) {
        ExistingDeferredCommit::Missing(packet, reservation) => {
            assert_eq!(packet.frame, vec![3]);
            reservation.release(&mut output);
        }
        _ => panic!("nothing waits for this neighbor"),
    }
    assert!(matches!(output.pop_ready_output(0, true), LocalOutputPop::DeferredUntil(700)));
    assert!(output.release_neighbor(1, IpAddress::Ipv4(HOP)));
    assert_eq!(output.packets.len(), 2);
    assert_eq!(output.frames, 2);
}

#[test]
fn buffers_are_kept_within_limits() {
    let mut pool = LocalOutputScratchPool::new();
    assert!(pool.keep(vec![1, 2, 3], 100, true));
    assert!(!pool.keep(Vec::new(), LocalInputQueue::MAX_SCRATCH_BYTES, true));
    assert!(!pool.keep(Vec::new(), 1, false));
    assert_eq!(pool.take(), Vec::<u8>::new());
    for _ in 0..LocalInputQueue::MAX_SCRATCH_FRAMES {
        assert!(pool.keep(Vec::new(), 1, true));
    }
    assert!(!pool.keep(Vec::new(), 1, true));
    pool.recycle_scratch(Vec::with_capacity(8));
    assert_eq!(pool.buffers.len(), LocalInputQueue::MAX_SCRATCH_FRAMES);
}

#[test]
fn one_drain_runs_at_a_time() {
    let mut queue = LocalInputQueue::new();
    assert!(queue.try_begin_output_drain());
    assert!(!queue.try_begin_output_drain());
    assert!(!queue.finish_output_drain());
    assert!(queue.try_begin_output_drain());
    let reservation = committed(&mut queue.output);
    reservation.commit_packet(&mut queue.output, routed(1, HOP, 1));
    assert!(queue.finish_output_drain());
    assert!(queue.clear_routed_if_idle(true, 0, false));
}

#[test]
fn a_kept_buffer_is_handed_out_again_without_growing() {
    let mut pool = LocalOutputScratchPool::new();
    pool.recycle_scratch(Vec::with_capacity(64));
    let kept = pool.buffers[0].capacity;
    assert!(kept >= 64);
    let scratch = LocalInputScratch::checkout(&mut pool, 64).unwrap();
    assert_eq!(scratch.capacity, kept);
    assert_eq!(scratch.buffer, Some(Vec::new()));
    assert!(pool.buffers.is_empty());
    assert!(LocalInputScratch::checkout(&mut pool, 2000).unwrap().capacity >= 2000);
    assert!(LocalInputScratch::prepared(&mut pool, Vec::new(), 10, None).is_none());
    assert!(LocalInputScratch::prepared(&mut pool, Vec::new(), 10, Some(9)).is_none());
    assert!(LocalInputScratch::prepared(&mut pool, Vec::new(), 10, Some(10)).is_some());
}

#[test]
fn a_buffer_grows_within_its_reserved_room() {
    let mut queue = LocalInputQueue::new();
    let mut scratch = LocalInputScratch::checkout(&mut queue.response_scratch, 100).unwrap();
    let mut reservation = queue.output.reserve_output().unwrap();
    assert!(reservation.try_resize(&mut queue.output, scratch.capacity));
    let (output, pool) = (&mut queue.output, &mut queue.response_scratch);
    assert!(scratch.try_ensure_capacity(300, &mut reservation, output, pool));
    assert!(scratch.capacity >= 300);
    assert_eq!(reservation.bytes, scratch.capacity);
    assert_eq!(output.reserved_bytes, scratch.capacity);
    let before = scratch.capacity;
    let far = LocalInputQueue::MAX_BYTES + 1;
    assert!(!scratch.try_ensure_capacity(far, &mut reservation, output, pool));
    assert_eq!((scratch.capacity, output.reserved_bytes), (before, before));
    assert!(scratch.replace_buffer(Vec::new(), 7, &mut reservation, output, pool));
    assert_eq!((scratch.capacity, output.reserved_bytes), (7, 7));
    assert!(!scratch.replace_buffer(Vec::new(), far, &mut reservation, output, pool));
}

#[test]
fn slots_that_a_removed_key_left_are_used_again() {
    let mut index = DeferredRouteIndex::new();
    for key in [3u64, 5] {
        assert!(index.try_reserve_insert().is_ok());
        index.insert_prepared(key, 0);
    }
    assert_eq!(index.remove(3), Some(0));
    assert!(index.try_reserve_insert().is_ok());
    index.insert_prepared(9, 4);
    assert_eq!(index.get(9).map(|(_, slot)| slot), Some(4));
    assert_eq!(index.len(), 2);
}

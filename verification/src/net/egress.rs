//! Packets that other parts of the host hand to an interface.

use vstd::prelude::*;
use crate::error::SystemError;
use crate::net::addr::{EthernetAddress, Instant, IpAddress, Ipv4Address, Medium, PacketMeta};
use crate::net::deferred_queue;
use crate::net::deferred_queue::{DeferredRouteKey, JoinDeferredResult};
use crate::net::iface::{RouteSendError, StaticNeighborEntry};
use crate::net::iface_common::{IfaceCommon, RoutedMemory};
use crate::net::iface_common;
use crate::net::local_output::LocalOutputTransmitResult;
use crate::net::local_queue;
use crate::net::local_queue::{
    BackpressuredLocalOutput, ExistingDeferredCommit, LocalInputPacket, LocalInputQueue,
    LocalOutputDisposition, LocalOutputPacket, LocalOutputQueueState, LocalOutputReservation,
};
use crate::net::memory::{byte_capacity, try_reserve_bytes, try_reserve_deque};
use crate::net::output_drain;
use crate::net::output_drain::{AdmittedRoutedOutput, ExistingDeferredEnqueue};

verus! {

/// Who polls an interface that was given work.
#[derive(Clone, Copy, Debug, PartialEq, Eq, Structural)]
pub enum PollWaker {
    /// The interface's own poll instance.
    Napi,
    /// The poll thread of its namespace.
    Namespace,
}

/// Chooses who polls an interface. An interface without either cannot be given work.
pub fn poll_waker(has_napi: bool, has_namespace: bool) -> (r: Option<PollWaker>)
    ensures
        r == (if has_napi {
            Some(PollWaker::Napi)
        } else if has_namespace {
            Some(PollWaker::Namespace)
        } else {
            None
        }),
{
    if has_napi {
        Some(PollWaker::Napi)
    } else if has_namespace {
        Some(PollWaker::Namespace)
    } else {
        None
    }
}

/// The packet that carries `bytes` to `next_hop`.
pub open spec fn carries(
    packet: LocalOutputPacket,
    oif: u32,
    next_hop: IpAddress,
    mtu: usize,
    bytes: Seq<u8>,
) -> bool {
    &&& packet.medium == Medium::Ip
    &&& packet.meta.id == 0
    &&& packet.disposition == (LocalOutputDisposition::Routed { oif, next_hop, ip_mtu: mtu })
    &&& packet.frame@ == bytes
}

/// An IPv4 address is known as a neighbor, by configuration or to the stack.
pub open spec fn neighbor_known(
    neighbors: Seq<StaticNeighborEntry>,
    resolved: Seq<Ipv4Address>,
    address: Ipv4Address,
) -> bool {
    ||| exists|i: int|
        0 <= i < neighbors.len() && (#[trigger] neighbors[i]).ip_addr == IpAddress::Ipv4(address)
    ||| resolved.contains(address)
}

/// Packets whose neighbor is in `known` became ready, and no others, in the order in which the
/// neighbors stood in the backlog.
pub open spec fn outputs_released(
    o: &LocalOutputQueueState,
    known: Seq<Ipv4Address>,
    n: &LocalOutputQueueState,
) -> bool {
    &&& forall|k: u64| #[trigger]
        n.deferred_routes@.contains_key(k) == (o.deferred_routes@.contains_key(k)
            && !deferred_queue::leaves(o.deferred_routes@[k], known))
    &&& forall|k: u64| #[trigger]
        n.deferred_routes@.contains_key(k) ==> n.deferred_routes@[k] == deferred_queue::marked(
            o.deferred_routes@[k],
            known,
        )
    &&& deferred_queue::in_order(o.deferred_routes@, o.deferred_routes.order())
    &&& n.packets@ == o.packets@ + deferred_queue::packets_of(
        o.deferred_routes@,
        deferred_queue::leaving(o.deferred_routes@, o.deferred_routes.order(), known),
    )
}

impl IfaceCommon {
    /// Adds a packet to those that already wait for its neighbor, in the memory that was found for
    /// it. Returns the deadline of that neighbor, or nothing if no packet waits for it.
    pub fn join_prepared(
        &mut self,
        oif: u32,
        next_hop: Ipv4Address,
        ip_packet: &[u8],
        memory: RoutedMemory,
    ) -> (r: Result<Option<Instant>, SystemError>)
        requires
            old(self).wf(),
            memory.wf(),
        ensures
            final(self).wf(),
            join_outcome(old(self), oif, next_hop, ip_packet@, memory, final(self), r),
            final(self).local_input_queue.output.packets@
                == old(self).local_input_queue.output.packets@,
            final(self).local_input_queue.output.backpressured@
                == old(self).local_input_queue.output.backpressured@,
            final(self).settings_kept(old(self)),
            final(self).local_output_tx_backoff_us == old(self).local_output_tx_backoff_us,
    {
        let key = DeferredRouteKey { oif, next_hop };
        if !self.local_input_queue.output.deferred_routes.contains(key) {
            if let Some(scratch) = memory.scratch {
                scratch.discard(&mut self.local_input_queue.response_scratch);
            }
            return Ok(None);
        }
        let bucket_room = memory.bucket_room;
        let (packet, reservation) = match self.prepare_reserved(
            oif,
            IpAddress::Ipv4(next_hop),
            ip_packet,
            memory,
        ) {
            Ok(prepared) => prepared,
            Err(error) => {
                return Err(error);
            },
        };
        let ghost p = packet;
        proof {
            assert(DeferredRouteKey::spec_of(p.disposition) == Some(key));
        }
        let committed = reservation.commit_existing_reserved(
            &mut self.local_input_queue.output,
            packet,
            bucket_room,
        );
        match committed {
            ExistingDeferredCommit::Queued(retry_at) => {
                assert(bucket_joined(old(self), oif, next_hop, p, self));
                Ok(Some(retry_at))
            },
            ExistingDeferredCommit::Missing(packet, reservation) => {
                reservation.release(&mut self.local_input_queue.output);
                self.local_input_queue.recycle_output(packet.frame);
                Ok(None)
            },
            ExistingDeferredCommit::Full(packet, reservation) => {
                reservation.release(&mut self.local_input_queue.output);
                self.local_input_queue.recycle_output(packet.frame);
                Err(SystemError::ENOBUFS)
            },
        }
    }

    /// Adds a packet to those that already wait for its neighbor. Returns the deadline of that
    /// neighbor, or nothing if no packet waits for it. Allocation may fail.
    pub fn enqueue_existing_routed_output(
        &mut self,
        oif: u32,
        next_hop: Ipv4Address,
        ip_packet: &[u8],
    ) -> (r: Result<Option<Instant>, SystemError>)
        requires
            old(self).wf(),
        ensures
            final(self).wf(),
            exists|memory: RoutedMemory|
                (memory.scratch matches Some(scratch) ==> scratch.capacity >= ip_packet@.len())
                    && #[trigger] join_outcome(
                    old(self),
                    oif,
                    next_hop,
                    ip_packet@,
                    memory,
                    final(self),
                    r,
                ),
            final(self).local_input_queue.output.packets@
                == old(self).local_input_queue.output.packets@,
            final(self).local_input_queue.output.backpressured@
                == old(self).local_input_queue.output.backpressured@,
            final(self).settings_kept(old(self)),
            final(self).local_output_tx_backoff_us == old(self).local_output_tx_backoff_us,
    {
        let key = DeferredRouteKey { oif, next_hop };
        let memory = if ip_packet.len() > self.mtu
            || !self.local_input_queue.output.deferred_routes.contains(key) {
            RoutedMemory { room: false, scratch: None, bucket_room: false }
        } else {
            self.allocate_routed(ip_packet.len(), Some(key))
        };
        let ghost given = memory;
        let ghost mid = *self;
        let r = self.join_prepared(oif, next_hop, ip_packet, memory);
        proof {
            lemma_join_outcome(old(self), &mid, oif, next_hop, ip_packet@, given, self, r);
        }
        r
    }

    /// Offers the packet of another interface to this one, which is to send it. `room` and
    /// `join_room` tell whether memory was set aside for it in the queue and among the packets that
    /// wait for its neighbor.
    pub fn offer_reserved(&mut self, packet: LocalOutputPacket, room: bool, join_room: bool) -> (r:
        ExistingDeferredEnqueue)
        requires
            old(self).wf(),
        ensures
            final(self).wf(),
            offer_outcome(
                &old(self).local_input_queue.output,
                packet,
                room,
                join_room,
                &final(self).local_input_queue.output,
                r,
            ),
            final(self).local_input_queue.output.packets@
                == old(self).local_input_queue.output.packets@,
            final(self).local_input_queue.output.backpressured@
                == old(self).local_input_queue.output.backpressured@,
            final(self).settings_kept(old(self)),
            final(self).local_output_tx_backoff_us == old(self).local_output_tx_backoff_us,
    {
        let mut reservation = match self.local_input_queue.output.reserve(room) {
            Some(reservation) => reservation,
            None => {
                return ExistingDeferredEnqueue::Full(packet);
            },
        };
        if !reservation.try_resize(&mut self.local_input_queue.output, packet.charge) {
            reservation.release(&mut self.local_input_queue.output);
            return ExistingDeferredEnqueue::Full(packet);
        }
        let committed = reservation.commit_existing_reserved(
            &mut self.local_input_queue.output,
            packet,
            join_room,
        );
        match committed {
            ExistingDeferredCommit::Queued(retry_at) => ExistingDeferredEnqueue::Queued(retry_at),
            ExistingDeferredCommit::Missing(packet, reservation) =>
                ExistingDeferredEnqueue::Missing(packet, reservation),
            ExistingDeferredCommit::Full(packet, reservation) => {
                reservation.release(&mut self.local_input_queue.output);
                ExistingDeferredEnqueue::Full(packet)
            },
        }
    }

    /// Offers the packet of another interface to this one, which is to send it. Allocation may
    /// fail.
    pub fn enqueue_existing_deferred_output(&mut self, packet: LocalOutputPacket) -> (r:
        ExistingDeferredEnqueue)
        requires
            old(self).wf(),
        ensures
            final(self).wf(),
            exists|room: bool, join_room: bool| #[trigger]
                offer_outcome(
                    &old(self).local_input_queue.output,
                    packet,
                    room,
                    join_room,
                    &final(self).local_input_queue.output,
                    r,
                ),
            final(self).local_input_queue.output.packets@
                == old(self).local_input_queue.output.packets@,
            final(self).local_input_queue.output.backpressured@
                == old(self).local_input_queue.output.backpressured@,
            final(self).settings_kept(old(self)),
            final(self).local_output_tx_backoff_us == old(self).local_output_tx_backoff_us,
    {
        let room = self.local_input_queue.output.make_room();
        let join_room = room && self.local_input_queue.output.admits(packet.charge)
            && self.local_input_queue.output.deferred_routes.reserve_join(&packet);
        let r = self.offer_reserved(packet, room, join_room);
        assert(offer_outcome(
            &old(self).local_input_queue.output,
            packet,
            room,
            join_room,
            &self.local_input_queue.output,
            r,
        ));
        r
    }

    /// Marks the interface as routed by its namespace and tells when its output is retried: the
    /// time of now and the deadline.
    pub fn schedule_local_output(&mut self, now: Instant, retry_at: Instant) -> (r: (u64, u64))
        requires
            old(self).wf(),
        ensures
            final(self).wf(),
            *final(self) == (IfaceCommon { namespace_routed_stack: true, ..*old(self) }),
            ({
                let now_us = if now > 0 {
                    now as int
                } else {
                    0
                };
                let retry_us = if retry_at > 0 {
                    retry_at as int
                } else {
                    0
                };
                &&& r.0 == now_us
                &&& r.1 == (if retry_us > now_us {
                    retry_us
                } else {
                    now_us + 1
                })
            }),
    {
        self.namespace_routed_stack = true;
        Self::defer_local_output_retry_at(now, retry_at)
    }

    /// Keeps the interface routed by its namespace while fragments of a packet are under way.
    pub fn retain_namespace_routing_for_pending_fragments(&mut self, fragments_pending: bool)
        ensures
            *final(self) == (IfaceCommon {
                namespace_routed_stack: old(self).namespace_routed_stack || fragments_pending,
                ..*old(self)
            }),
    {
        if fragments_pending {
            self.namespace_routed_stack = true;
        }
    }

    /// Makes the packets ready whose neighbor is known. `resolved` are those that the stack knows.
    pub fn release_resolved_routed_outputs(&mut self, resolved: &[Ipv4Address])
        requires
            old(self).wf(),
        ensures
            final(self).wf(),
            exists|known: Seq<Ipv4Address>|
                {
                    &&& forall|a: Ipv4Address| #[trigger]
                        known.contains(a) == neighbor_known(
                            old(self).static_neighbors@,
                            resolved@,
                            a,
                        )
                    &&& #[trigger] outputs_released(
                        &old(self).local_input_queue.output,
                        known,
                        &final(self).local_input_queue.output,
                    )
                },
            final(self).local_input_queue.output.backpressured@
                == old(self).local_input_queue.output.backpressured@,
            final(self).settings_kept(old(self)),
            final(self).local_output_tx_backoff_us == old(self).local_output_tx_backoff_us,
    {
        let mut known: Vec<Ipv4Address> = Vec::new();
        known.extend_from_slice(resolved);
        let ghost all = self.static_neighbors@;
        let mut i: usize = 0;
        assert(known@ =~= resolved@);
        while i < self.static_neighbors.len()
            invariant
                i <= all.len(),
                all == self.static_neighbors@,
                *self == *old(self),
                forall|a: Ipv4Address| #[trigger]
                    known@.contains(a) == neighbor_known(all.take(i as int), resolved@, a),
            decreases all.len() - i,
        {
            let ghost before = known@;
            let entry = self.static_neighbors[i].ip_addr;
            if let IpAddress::Ipv4(address) = entry {
                known.push(address);
            }
            proof {
                let t = all.take(i as int);
                let u = all.take(i + 1);
                assert forall|a: Ipv4Address| #[trigger]
                    known@.contains(a) == neighbor_known(u, resolved@, a) by {
                    assert(before.contains(a) == neighbor_known(t, resolved@, a));
                    assert(u[i as int] == all[i as int]);
                    if known@.contains(a) && !before.contains(a) {
                        let j = choose|j: int| 0 <= j < known@.len() && known@[j] == a;
                        if j < before.len() {
                            assert(before[j] == a);
                        }
                        assert(u[i as int].ip_addr == IpAddress::Ipv4(a));
                    }
                    if before.contains(a) {
                        let j = choose|j: int| 0 <= j < before.len() && before[j] == a;
                        assert(known@[j] == a);
                        if !resolved@.contains(a) {
                            let x = choose|x: int|
                                0 <= x < t.len() && (#[trigger] t[x]).ip_addr == IpAddress::Ipv4(a);
                            assert(u[x] == t[x]);
                        }
                    }
                    if neighbor_known(u, resolved@, a) && !resolved@.contains(a) {
                        let x = choose|x: int|
                            0 <= x < u.len() && (#[trigger] u[x]).ip_addr == IpAddress::Ipv4(a);
                        if x < i {
                            assert(t[x] == u[x]);
                        } else {
                            assert(known@[known@.len() - 1] == a);
                        }
                    }
                }
            }
            i = i + 1;
        }
        assert(all.take(all.len() as int) =~= all);
        self.local_input_queue.output.release_resolved_outputs(known.as_slice());
        assert(outputs_released(
            &old(self).local_input_queue.output,
            known@,
            &self.local_input_queue.output,
        ));
    }

    /// Ends the transmission of a packet that this interface admitted for another one.
    ///
    /// A packet whose neighbor is unknown waits for it; the caller looks the neighbor up once more
    /// and tells `recheck_neighbor` whether that released packets.
    pub fn transmit_admitted_routed_output(
        &mut self,
        reservation: LocalOutputReservation,
        result: LocalOutputTransmitResult,
        observed_generation: u64,
        now: Instant,
    ) -> (r: AdmittedRoutedOutput)
        requires
            old(self).wf(),
            old(self).local_input_queue.output.holds(reservation),
            output_drain::returned_packet(result).charge == reservation.bytes,
            now + Self::LOCAL_OUTPUT_TX_BACKOFF_MAX_US <= i64::MAX,
        ensures
            final(self).wf(),
            final(self).settings_kept(old(self)),
            match output_drain::returned_packet(result).disposition {
                LocalOutputDisposition::Routed { oif, next_hop, .. } => admitted_effect(
                    old(self),
                    oif,
                    next_hop,
                    reservation,
                    result,
                    observed_generation,
                    now,
                    final(self),
                    r,
                ),
                _ => {
                    &&& r == AdmittedRoutedOutput::Drop(
                        output_drain::returned_packet(result),
                        SystemError::EINVAL,
                    )
                    &&& output_drain::room_returned(
                        &old(self).local_input_queue.output,
                        &final(self).local_input_queue.output,
                        reservation,
                    )
                    &&& output_drain::packets_kept(
                        &old(self).local_input_queue.output,
                        &final(self).local_input_queue.output,
                    )
                    &&& final(self).local_output_tx_backoff_us
                        == old(self).local_output_tx_backoff_us
                },
            },
    {
        match result {
            LocalOutputTransmitResult::Sent(packet) => {
                match packet.disposition {
                    LocalOutputDisposition::Routed { oif, next_hop, .. } => {
                        self.reset_local_output_tx_backoff();
                        let _released = self.local_input_queue.output.release_neighbor(
                            oif,
                            next_hop,
                        );
                        reservation.release(&mut self.local_input_queue.output);
                        AdmittedRoutedOutput::Sent(packet)
                    },
                    _ => self.refuse_admitted(reservation, packet),
                }
            },
            LocalOutputTransmitResult::RetrySoon(packet) => {
                match packet.disposition {
                    LocalOutputDisposition::Routed { .. } => {
                        AdmittedRoutedOutput::Queued(
                            self.park_refused(reservation, packet, observed_generation, now),
                        )
                    },
                    _ => self.refuse_admitted(reservation, packet),
                }
            },
            LocalOutputTransmitResult::RetryAt { packet, retry_at, probe_sent } => {
                match packet.disposition {
                    LocalOutputDisposition::Routed { .. } => {
                        self.reset_local_output_tx_backoff();
                        let room = self.local_input_queue.output.room_for(&packet);
                        let queued = self.await_neighbor(
                            reservation,
                            packet,
                            retry_at,
                            probe_sent,
                            room,
                        );
                        assert(output_drain::neighbor_awaited(
                            &old(self).local_input_queue.output,
                            reservation,
                            packet,
                            retry_at,
                            probe_sent,
                            room,
                            &self.local_input_queue.output,
                            queued is Ok,
                        ));
                        assert(output_drain::neighbor_awaited_or_not(
                            &old(self).local_input_queue.output,
                            reservation,
                            packet,
                            retry_at,
                            probe_sent,
                            &self.local_input_queue.output,
                            queued is Ok,
                        ));
                        match queued {
                            Ok(_) => AdmittedRoutedOutput::Queued(retry_at),
                            Err(packet) => AdmittedRoutedOutput::Drop(packet, SystemError::ENOBUFS),
                        }
                    },
                    _ => self.refuse_admitted(reservation, packet),
                }
            },
            LocalOutputTransmitResult::Drop(packet, error) => {
                match packet.disposition {
                    LocalOutputDisposition::Routed { .. } => {
                        self.reset_local_output_tx_backoff();
                        reservation.release(&mut self.local_input_queue.output);
                        AdmittedRoutedOutput::Drop(packet, error)
                    },
                    _ => self.refuse_admitted(reservation, packet),
                }
            },
        }
    }

    fn refuse_admitted(&mut self, reservation: LocalOutputReservation, packet: LocalOutputPacket)
        -> (r: AdmittedRoutedOutput)
        requires
            old(self).wf(),
            old(self).local_input_queue.output.holds(reservation),
        ensures
            final(self).wf(),
            final(self).settings_kept(old(self)),
            final(self).local_output_tx_backoff_us == old(self).local_output_tx_backoff_us,
            r == AdmittedRoutedOutput::Drop(packet, SystemError::EINVAL),
            output_drain::room_returned(
                &old(self).local_input_queue.output,
                &final(self).local_input_queue.output,
                reservation,
            ),
            output_drain::packets_kept(
                &old(self).local_input_queue.output,
                &final(self).local_input_queue.output,
            ),
    {
        reservation.release(&mut self.local_input_queue.output);
        AdmittedRoutedOutput::Drop(packet, SystemError::EINVAL)
    }

    /// Lets a packet that the device refused wait for it, unless one of its transmissions ended in
    /// the meantime. Returns when the packet is tried again.
    fn park_refused(
        &mut self,
        reservation: LocalOutputReservation,
        packet: LocalOutputPacket,
        observed_generation: u64,
        now: Instant,
    ) -> (r: Instant)
        requires
            old(self).wf(),
            old(self).local_input_queue.output.holds(reservation),
            packet.charge == reservation.bytes,
            now + Self::LOCAL_OUTPUT_TX_BACKOFF_MAX_US <= i64::MAX,
        ensures
            final(self).wf(),
            final(self).settings_kept(old(self)),
            refusal_parked(
                old(self),
                reservation,
                packet,
                observed_generation,
                now,
                final(self),
                r,
            ),
    {
        let delay: u64 = self.next_local_output_tx_backoff_us();
        let retry_at: i64 = now + delay as i64;
        reservation.requeue_backpressured(&mut self.local_input_queue.output, packet, retry_at);
        assert(self.local_input_queue.output.backpressured@.len() > 0);
        if self.release_tx_backpressure_after(observed_generation) {
            now
        } else {
            retry_at
        }
    }

    /// When a packet that waits for its neighbor is tried again, given whether looking the
    /// neighbor up released it.
    pub fn recheck_neighbor(retry_at: Instant, released: bool, now: Instant) -> (r: Instant)
        ensures
            r == (if released {
                now
            } else {
                retry_at
            }),
    {
        if released {
            now
        } else {
            retry_at
        }
    }

    /// Keeps a frame that the device could not take, in a buffer of `capacity` bytes. `room` tells
    /// whether memory was set aside for it. Returns when it is tried again, or the frame if the
    /// queue is full.
    pub fn keep_native_frame(
        &mut self,
        medium: Medium,
        meta: PacketMeta,
        frame: Vec<u8>,
        capacity: usize,
        observed_generation: u64,
        now: Instant,
        room: bool,
    ) -> (r: Result<Instant, Vec<u8>>)
        requires
            old(self).wf(),
            now + Self::LOCAL_OUTPUT_TX_BACKOFF_MAX_US <= i64::MAX,
        ensures
            final(self).wf(),
            final(self).settings_kept(old(self)),
            native_outcome(
                old(self),
                medium,
                meta,
                frame,
                capacity,
                observed_generation,
                now,
                room,
                final(self),
                r,
            ),
    {
        let mut reservation = match self.local_input_queue.output.reserve(room) {
            Some(reservation) => reservation,
            None => {
                return Err(frame);
            },
        };
        if !reservation.try_resize(&mut self.local_input_queue.output, capacity) {
            reservation.release(&mut self.local_input_queue.output);
            return Err(frame);
        }
        let packet = LocalOutputPacket {
            medium,
            meta,
            disposition: LocalOutputDisposition::NativeOwner,
            frame,
            charge: reservation.bytes,
        };
        let ghost p = packet;
        let retry_at = self.park_refused(reservation, packet, observed_generation, now);
        assert(native_parked(old(self), p, observed_generation, now, self, retry_at));
        assert(frame_kept(
            old(self),
            medium,
            meta,
            p.frame,
            capacity,
            observed_generation,
            now,
            self,
            retry_at,
        ));
        Ok(retry_at)
    }

    /// Keeps a frame that the device could not take. Returns when it is tried again, or the frame
    /// if the queue is full. Allocation may fail.
    pub fn defer_native_output_after_tx_backpressure(
        &mut self,
        medium: Medium,
        meta: PacketMeta,
        frame: Vec<u8>,
        observed_generation: u64,
        now: Instant,
    ) -> (r: Result<Instant, Vec<u8>>)
        requires
            old(self).wf(),
            now + Self::LOCAL_OUTPUT_TX_BACKOFF_MAX_US <= i64::MAX,
        ensures
            final(self).wf(),
            final(self).settings_kept(old(self)),
            exists|capacity: usize, room: bool|
                capacity >= frame@.len() && #[trigger] native_outcome(
                    old(self),
                    medium,
                    meta,
                    frame,
                    capacity,
                    observed_generation,
                    now,
                    room,
                    final(self),
                    r,
                ),
    {
        let room = self.local_input_queue.output.make_room();
        let capacity: usize = byte_capacity(&frame);
        let ghost mid = *self;
        let ghost kept = frame;
        let r = self.keep_native_frame(
            medium,
            meta,
            frame,
            capacity,
            observed_generation,
            now,
            room,
        );
        proof {
            if let Ok(retry_at) = r {
                let packet = choose|packet: LocalOutputPacket|
                    native_packet(packet, medium, meta, kept, capacity)
                        && #[trigger] native_parked(
                        &mid,
                        packet,
                        observed_generation,
                        now,
                        self,
                        retry_at,
                    );
                assert(native_parked(
                    old(self),
                    packet,
                    observed_generation,
                    now,
                    self,
                    retry_at,
                ));
            }
            assert(native_outcome(
                old(self),
                medium,
                meta,
                kept,
                capacity,
                observed_generation,
                now,
                room,
                self,
                r,
            ));
        }
        r
    }

    /// Makes packets ready that waited for the device. Returns whether the interface has to be
    /// polled.
    pub fn notify_tx_available(&mut self) -> (r: bool)
        requires
            old(self).wf(),
        ensures
            final(self).wf(),
            r == (old(self).local_input_queue.output.backpressured@.len() > 0),
            old(self).device_writable(final(self)),
            final(self).tx_completion_generation == (if old(self).tx_completion_generation
                == u64::MAX {
                0
            } else {
                (old(self).tx_completion_generation + 1) as u64
            }),
            *final(self) == (IfaceCommon {
                local_input_queue: final(self).local_input_queue,
                local_output_tx_backoff_us: final(self).local_output_tx_backoff_us,
                tx_completion_generation: final(self).tx_completion_generation,
                ..*old(self)
            }),
    {
        self.release_tx_backpressure()
    }

    /// Decides whether a packet from elsewhere is sent to an IPv4 neighbor at once: `None` means
    /// that it is. Otherwise it joined those that wait for the neighbor until the deadline that is
    /// returned, in the memory that was found for it.
    pub fn join_routed_prepared(
        &mut self,
        next_hop: IpAddress,
        ip_packet: &[u8],
        waker: Option<PollWaker>,
        memory: RoutedMemory,
    ) -> (r: Result<Option<Instant>, SystemError>)
        requires
            old(self).wf(),
            memory.wf(),
        ensures
            final(self).wf(),
            join_routed_outcome(old(self), next_hop, ip_packet@, waker, memory, final(self), r),
            final(self).local_input_queue.output.packets@
                == old(self).local_input_queue.output.packets@,
            final(self).local_input_queue.output.backpressured@
                == old(self).local_input_queue.output.backpressured@,
            final(self).settings_kept(old(self)),
            final(self).local_output_tx_backoff_us == old(self).local_output_tx_backoff_us,
    {
        if let IpAddress::Ipv4(next_hop) = next_hop {
            if waker.is_some() {
                let oif: u32 = self.iface_id as u32;
                return self.join_prepared(oif, next_hop, ip_packet, memory);
            }
        }
        if let Some(scratch) = memory.scratch {
            scratch.discard(&mut self.local_input_queue.response_scratch);
        }
        match next_hop {
            IpAddress::Ipv6(_) => Err(SystemError::EAFNOSUPPORT),
            IpAddress::Ipv4(_) => Err(SystemError::ENODEV),
        }
    }

    /// Decides whether a packet from elsewhere is sent to an IPv4 neighbor at once: `None` means
    /// that it is. Otherwise it joined those that wait for the neighbor until the deadline that is
    /// returned. Allocation may fail.
    pub fn join_routed_output(
        &mut self,
        next_hop: IpAddress,
        ip_packet: &[u8],
        waker: Option<PollWaker>,
    ) -> (r: Result<Option<Instant>, SystemError>)
        requires
            old(self).wf(),
        ensures
            final(self).wf(),
            exists|memory: RoutedMemory|
                (memory.scratch matches Some(scratch) ==> scratch.capacity >= ip_packet@.len())
                    && #[trigger] join_routed_outcome(
                    old(self),
                    next_hop,
                    ip_packet@,
                    waker,
                    memory,
                    final(self),
                    r,
                ),
            final(self).local_input_queue.output.packets@
                == old(self).local_input_queue.output.packets@,
            final(self).local_input_queue.output.backpressured@
                == old(self).local_input_queue.output.backpressured@,
            final(self).settings_kept(old(self)),
            final(self).local_output_tx_backoff_us == old(self).local_output_tx_backoff_us,
    {
        match next_hop {
            IpAddress::Ipv4(hop) => {
                if waker.is_some() {
                    let oif: u32 = self.iface_id as u32;
                    let r = self.enqueue_existing_routed_output(oif, hop, ip_packet);
                    proof {
                        let memory = choose|memory: RoutedMemory|
                            (memory.scratch matches Some(scratch) ==> scratch.capacity
                                >= ip_packet@.len()) && #[trigger] join_outcome(
                                old(self),
                                oif,
                                hop,
                                ip_packet@,
                                memory,
                                self,
                                r,
                            );
                        assert(join_routed_outcome(
                            old(self),
                            next_hop,
                            ip_packet@,
                            waker,
                            memory,
                            self,
                            r,
                        ));
                    }
                    return r;
                }
            },
            IpAddress::Ipv6(_) => {},
        }
        let memory = RoutedMemory { room: false, scratch: None, bucket_room: false };
        self.join_routed_prepared(next_hop, ip_packet, waker, memory)
    }

    /// Ends the attempt to send a packet from elsewhere to an IPv4 neighbor: a packet that could
    /// not be sent for now is queued until the deadline that is returned, in the memory that was
    /// found for it.
    pub fn settle_send(
        &mut self,
        next_hop: Ipv4Address,
        ip_packet: &[u8],
        sent: Result<(), RouteSendError>,
        observed_generation: u64,
        now: Instant,
        memory: RoutedMemory,
    ) -> (r: Result<Option<Instant>, SystemError>)
        requires
            old(self).wf(),
            now + Self::LOCAL_OUTPUT_TX_BACKOFF_MAX_US <= i64::MAX,
            memory.wf(),
        ensures
            final(self).wf(),
            final(self).settings_kept(old(self)),
            send_settled(
                old(self),
                next_hop,
                ip_packet@,
                sent,
                observed_generation,
                now,
                memory,
                final(self),
                r,
            ),
    {
        let oif: u32 = self.iface_id as u32;
        match sent {
            Ok(_) => {
                if let Some(scratch) = memory.scratch {
                    scratch.discard(&mut self.local_input_queue.response_scratch);
                }
                Ok(None)
            },
            Err(RouteSendError::RetryAt { retry_at, probe_sent }) => {
                match self.queue_prepared(
                    oif,
                    next_hop,
                    ip_packet,
                    retry_at,
                    probe_sent,
                    memory,
                ) {
                    Ok(_) => Ok(Some(retry_at)),
                    Err(error) => Err(error),
                }
            },
            Err(RouteSendError::Failed(error)) => {
                if error == SystemError::ENOBUFS || error == SystemError::EAGAIN_OR_EWOULDBLOCK {
                    self.park_prepared(oif, next_hop, ip_packet, observed_generation, now, memory)
                } else {
                    if let Some(scratch) = memory.scratch {
                        scratch.discard(&mut self.local_input_queue.response_scratch);
                    }
                    Err(error)
                }
            },
        }
    }

    /// Ends the attempt to send a packet from elsewhere to an IPv4 neighbor: a packet that could
    /// not be sent for now is queued until the deadline that is returned. Allocation may fail.
    pub fn route_and_send_or_queue(
        &mut self,
        next_hop: Ipv4Address,
        ip_packet: &[u8],
        sent: Result<(), RouteSendError>,
        observed_generation: u64,
        now: Instant,
    ) -> (r: Result<Option<Instant>, SystemError>)
        requires
            old(self).wf(),
            now + Self::LOCAL_OUTPUT_TX_BACKOFF_MAX_US <= i64::MAX,
        ensures
            final(self).wf(),
            final(self).settings_kept(old(self)),
            exists|memory: RoutedMemory|
                (memory.scratch matches Some(scratch) ==> scratch.capacity >= ip_packet@.len())
                    && #[trigger] send_settled(
                    old(self),
                    next_hop,
                    ip_packet@,
                    sent,
                    observed_generation,
                    now,
                    memory,
                    final(self),
                    r,
                ),
    {
        let oif: u32 = self.iface_id as u32;
        let none = RoutedMemory { room: false, scratch: None, bucket_room: false };
        let memory = if ip_packet.len() > self.mtu {
            none
        } else {
            match sent {
                Ok(_) => none,
                Err(RouteSendError::RetryAt { .. }) => self.allocate_routed(
                    ip_packet.len(),
                    Some(DeferredRouteKey { oif, next_hop }),
                ),
                Err(RouteSendError::Failed(error)) => {
                    if error == SystemError::ENOBUFS || error
                        == SystemError::EAGAIN_OR_EWOULDBLOCK {
                        let memory = self.allocate_routed(ip_packet.len(), None);
                        RoutedMemory { bucket_room: false, ..memory }
                    } else {
                        none
                    }
                },
            }
        };
        let ghost given = memory;
        let ghost mid = *self;
        let r = self.settle_send(next_hop, ip_packet, sent, observed_generation, now, memory);
        proof {
            lemma_send_settled(
                old(self),
                &mid,
                next_hop,
                ip_packet@,
                sent,
                observed_generation,
                now,
                given,
                self,
                r,
            );
        }
        r
    }

    fn park_prepared(
        &mut self,
        oif: u32,
        next_hop: Ipv4Address,
        ip_packet: &[u8],
        observed_generation: u64,
        now: Instant,
        memory: RoutedMemory,
    ) -> (r: Result<Option<Instant>, SystemError>)
        requires
            old(self).wf(),
            now + Self::LOCAL_OUTPUT_TX_BACKOFF_MAX_US <= i64::MAX,
            memory.wf(),
        ensures
            final(self).wf(),
            final(self).settings_kept(old(self)),
            routed_parked(
                old(self),
                oif,
                next_hop,
                ip_packet@,
                observed_generation,
                now,
                memory,
                final(self),
                r,
            ),
    {
        let delay: u64 = self.next_local_output_tx_backoff_us();
        let retry_at: i64 = now + delay as i64;
        let (packet, reservation) = match self.prepare_reserved(
            oif,
            IpAddress::Ipv4(next_hop),
            ip_packet,
            memory,
        ) {
            Ok(prepared) => prepared,
            Err(error) => {
                return Err(error);
            },
        };
        let ghost p = packet;
        reservation.requeue_backpressured(&mut self.local_input_queue.output, packet, retry_at);
        assert(self.local_input_queue.output.backpressured@.len() > 0);
        let deadline: i64 = if self.release_tx_backpressure_after(observed_generation) {
            now
        } else {
            retry_at
        };
        assert(parked_until(old(self), p, observed_generation, now, self, deadline));
        assert(waits_for_device(
            old(self),
            oif,
            next_hop,
            ip_packet@,
            observed_generation,
            now,
            memory,
            self,
            deadline,
        ));
        Ok(Some(deadline))
    }

    /// Hands a packet to the stack of this interface, if somebody polls it. `room` tells whether
    /// memory was set aside for it.
    pub fn deliver_local_packet(
        &mut self,
        packet: LocalInputPacket,
        waker: Option<PollWaker>,
        room: bool,
    ) -> (r: Result<(), SystemError>)
        requires
            old(self).wf(),
        ensures
            final(self).wf(),
            r == (if waker is None {
                Err(SystemError::ENODEV)
            } else if !old(self).local_input_queue.state.has_room(packet.ip_packet@.len()) {
                Err(SystemError::ENOBUFS)
            } else if !room {
                Err(SystemError::ENOMEM)
            } else {
                Ok(())
            }),
            final(self).local_input_queue.state.packets@ == (if r is Ok {
                old(self).local_input_queue.state.packets@.push(packet)
            } else {
                old(self).local_input_queue.state.packets@
            }),
            *final(self) == (IfaceCommon {
                local_input_queue: LocalInputQueue {
                    state: final(self).local_input_queue.state,
                    ..old(self).local_input_queue
                },
                namespace_routed_stack: old(self).namespace_routed_stack || r is Ok,
                ..*old(self)
            }),
    {
        if waker.is_none() {
            return Err(SystemError::ENODEV);
        }
        match self.local_input_queue.state.enqueue_reserved(packet, room) {
            Ok(_) => {
                self.namespace_routed_stack = true;
                Ok(())
            },
            Err(error) => Err(error),
        }
    }

    /// Hands an IP packet that stays on this host to the stack of the interface. Allocation may
    /// fail.
    pub fn inject_local_ipv4_packet(
        &mut self,
        mac: EthernetAddress,
        ingress_ifindex: u32,
        source_mac: EthernetAddress,
        ip_packet: &[u8],
        broadcast: bool,
        waker: Option<PollWaker>,
    ) -> (r: Result<(), SystemError>)
        requires
            old(self).wf(),
        ensures
            final(self).wf(),
            r matches Err(e) ==> e == SystemError::ENOMEM || (e == SystemError::ENODEV && waker
                is None) || (e == SystemError::ENOBUFS && waker is Some && !old(self).local_input_queue.state.has_room(ip_packet@.len())),
            r is Ok ==> {
                &&& waker is Some
                &&& old(self).local_input_queue.state.has_room(ip_packet@.len())
                &&& exists|packet: LocalInputPacket|
                    {
                        &&& #[trigger] delivers(
                            packet,
                            ingress_ifindex,
                            target_mac(mac, broadcast),
                            source_mac,
                            ip_packet@,
                        )
                        &&& final(self).local_input_queue.state.packets@ == old(self).local_input_queue.state.packets@.push(packet)
                    }
            },
            r is Err ==> final(self).local_input_queue.state.packets@ == old(self).local_input_queue.state.packets@,
            *final(self) == (IfaceCommon {
                local_input_queue: LocalInputQueue {
                    state: final(self).local_input_queue.state,
                    ..old(self).local_input_queue
                },
                namespace_routed_stack: old(self).namespace_routed_stack || r is Ok,
                ..*old(self)
            }),
    {
        let mut owned: Vec<u8> = Vec::new();
        if !try_reserve_bytes(&mut owned, ip_packet.len()) {
            return Err(SystemError::ENOMEM);
        }
        owned.extend_from_slice(ip_packet);
        assert(owned@ =~= ip_packet@);
        let destination_mac = if broadcast {
            EthernetAddress::broadcast()
        } else {
            mac
        };
        let packet = LocalInputPacket {
            ingress_ifindex,
            destination_mac,
            source_mac,
            ip_packet: owned,
        };
        assert(delivers(
            packet,
            ingress_ifindex,
            target_mac(mac, broadcast),
            source_mac,
            ip_packet@,
        ));
        let room = try_reserve_deque(&mut self.local_input_queue.state.packets, 1);
        self.deliver_local_packet(packet, waker, room)
    }
}

/// The address that a packet for the interface with address `mac` is sent to.
pub open spec fn target_mac(mac: EthernetAddress, broadcast: bool) -> EthernetAddress {
    if broadcast {
        EthernetAddress { high: 0xffff, low: 0xffff_ffff }
    } else {
        mac
    }
}

/// The packet delivers `bytes` as received on `ingress_ifindex`.
pub open spec fn delivers(
    packet: LocalInputPacket,
    ingress_ifindex: u32,
    destination_mac: EthernetAddress,
    source_mac: EthernetAddress,
    bytes: Seq<u8>,
) -> bool {
    &&& packet.ingress_ifindex == ingress_ifindex
    &&& packet.destination_mac == destination_mac
    &&& packet.source_mac == source_mac
    &&& packet.ip_packet@ == bytes
}

/// A packet that the device refused waits for it, unless one of its transmissions ended in the
/// meantime.
pub open spec fn parked_until(
    o: &IfaceCommon,
    packet: LocalOutputPacket,
    observed_generation: u64,
    now: Instant,
    n: &IfaceCommon,
    deadline: Instant,
) -> bool {
    let retry_at = (now + o.local_output_tx_backoff_us) as i64;
    let before = &o.local_input_queue.output;
    let after = &n.local_input_queue.output;
    let waiting = before.backpressured@.insert(
        local_queue::insertion_point(before.backpressured@, retry_at) as int,
        BackpressuredLocalOutput { retry_at, packet },
    );
    &&& after.deferred_routes@ == before.deferred_routes@
    &&& if o.tx_completion_generation != observed_generation {
        &&& after.packets@ == before.packets@ + local_queue::parked(waiting)
        &&& after.backpressured@.len() == 0
        &&& n.local_output_tx_backoff_us == IfaceCommon::LOCAL_OUTPUT_TX_BACKOFF_MIN_US
        &&& deadline == now
    } else {
        &&& after.packets@ == before.packets@
        &&& after.backpressured@ == waiting
        &&& n.local_output_tx_backoff_us == o.doubled_backoff()
        &&& deadline == retry_at
    }
}

/// The room of the packet that waits was spent.
pub open spec fn refusal_parked(
    o: &IfaceCommon,
    reservation: LocalOutputReservation,
    packet: LocalOutputPacket,
    observed_generation: u64,
    now: Instant,
    n: &IfaceCommon,
    deadline: Instant,
) -> bool {
    &&& n.local_input_queue.output.spent(&o.local_input_queue.output, reservation)
    &&& parked_until(o, packet, observed_generation, now, n, deadline)
}

/// The packet waits, and its room came out of the free room.
pub open spec fn native_parked(
    o: &IfaceCommon,
    packet: LocalOutputPacket,
    observed_generation: u64,
    now: Instant,
    n: &IfaceCommon,
    deadline: Instant,
) -> bool {
    &&& iface_common::one_more(o, n, packet.charge)
    &&& parked_until(o, packet, observed_generation, now, n, deadline)
}

/// The packet is a frame of the interface's own device.
pub open spec fn native_packet(
    packet: LocalOutputPacket,
    medium: Medium,
    meta: PacketMeta,
    frame: Vec<u8>,
    capacity: usize,
) -> bool {
    &&& packet.medium == medium
    &&& packet.meta == meta
    &&& packet.disposition == LocalOutputDisposition::NativeOwner
    &&& packet.frame == frame
    &&& packet.charge == capacity
}

/// A frame of the interface's own device waits for it.
pub open spec fn frame_kept(
    o: &IfaceCommon,
    medium: Medium,
    meta: PacketMeta,
    frame: Vec<u8>,
    capacity: usize,
    observed_generation: u64,
    now: Instant,
    n: &IfaceCommon,
    deadline: Instant,
) -> bool {
    exists|packet: LocalOutputPacket|
        native_packet(packet, medium, meta, frame, capacity) && #[trigger] native_parked(
            o,
            packet,
            observed_generation,
            now,
            n,
            deadline,
        )
}

/// What becomes of a frame that the interface's own device could not take.
pub open spec fn native_outcome(
    o: &IfaceCommon,
    medium: Medium,
    meta: PacketMeta,
    frame: Vec<u8>,
    capacity: usize,
    observed_generation: u64,
    now: Instant,
    room: bool,
    n: &IfaceCommon,
    r: Result<Instant, Vec<u8>>,
) -> bool {
    &&& r is Ok <==> room && o.local_input_queue.output.spec_admits(capacity)
    &&& match r {
        Ok(deadline) => frame_kept(
            o,
            medium,
            meta,
            frame,
            capacity,
            observed_generation,
            now,
            n,
            deadline,
        ),
        Err(f) => {
            &&& f == frame
            &&& n.local_input_queue.output.same(&o.local_input_queue.output)
            &&& n.local_output_tx_backoff_us == o.local_output_tx_backoff_us
        },
    }
}

/// What becomes of a packet that is offered to the interface that is to send it.
pub open spec fn offer_outcome(
    before: &LocalOutputQueueState,
    packet: LocalOutputPacket,
    room: bool,
    join_room: bool,
    after: &LocalOutputQueueState,
    r: ExistingDeferredEnqueue,
) -> bool {
    if !room || !before.spec_admits(packet.charge) {
        r == ExistingDeferredEnqueue::Full(packet) && after.same(before)
    } else {
        let joined = match r {
            ExistingDeferredEnqueue::Queued(retry_at) => JoinDeferredResult::Queued(retry_at),
            ExistingDeferredEnqueue::Missing(p, _) => JoinDeferredResult::Missing(p),
            ExistingDeferredEnqueue::Full(p) => JoinDeferredResult::Full(p),
        };
        &&& deferred_queue::join_effect(
            before.deferred_routes@,
            packet,
            LocalInputQueue::limits(),
            join_room,
            after.deferred_routes@,
            joined,
        )
        &&& match r {
            ExistingDeferredEnqueue::Queued(_) => {
                &&& after.frames == before.frames + 1
                &&& after.bytes == before.bytes + packet.charge
                &&& after.reserved_frames == before.reserved_frames
                &&& after.reserved_bytes == before.reserved_bytes
            },
            ExistingDeferredEnqueue::Missing(_, reservation) => {
                &&& reservation.bytes == packet.charge
                &&& after.holds(reservation)
                &&& after.frames == before.frames
                &&& after.bytes == before.bytes
                &&& after.reserved_frames == before.reserved_frames + 1
                &&& after.reserved_bytes == before.reserved_bytes + packet.charge
            },
            ExistingDeferredEnqueue::Full(_) => after.same(before),
        }
    }
}

/// The packet is the last of those that wait for its neighbor.
pub open spec fn bucket_joined(
    o: &IfaceCommon,
    oif: u32,
    next_hop: Ipv4Address,
    packet: LocalOutputPacket,
    n: &IfaceCommon,
) -> bool {
    let m = o.local_input_queue.output.deferred_routes@;
    let k = (DeferredRouteKey { oif, next_hop }).spec_packed();
    n.local_input_queue.output.deferred_routes@ == m.insert(
        k,
        deferred_queue::joined_bucket(m[k], packet),
    )
}

/// What becomes of a packet for a neighbor that others may wait for, given what the allocator gave
/// for it.
pub open spec fn join_outcome(
    o: &IfaceCommon,
    oif: u32,
    next_hop: Ipv4Address,
    bytes: Seq<u8>,
    memory: RoutedMemory,
    n: &IfaceCommon,
    r: Result<Option<Instant>, SystemError>,
) -> bool {
    let m = o.local_input_queue.output.deferred_routes@;
    let k = (DeferredRouteKey { oif, next_hop }).spec_packed();
    let kept = n.local_input_queue.output.same(&o.local_input_queue.output);
    if !m.contains_key(k) {
        r == Ok::<Option<Instant>, SystemError>(None) && kept
    } else {
        match iface_common::refusal(o, bytes.len(), memory) {
            Some(error) => r == Err::<Option<Instant>, SystemError>(error) && kept,
            None => if memory.bucket_room && m[k].has_room(
                memory.scratch->0.capacity,
                LocalInputQueue::limits(),
            ) {
                &&& r == Ok::<Option<Instant>, SystemError>(Some(m[k].retry_at))
                &&& iface_common::one_more(o, n, memory.scratch->0.capacity)
                &&& exists|packet: LocalOutputPacket|
                    iface_common::routed_packet(
                        o,
                        oif,
                        IpAddress::Ipv4(next_hop),
                        bytes,
                        memory,
                        packet,
                    ) && #[trigger] bucket_joined(o, oif, next_hop, packet, n)
            } else {
                r == Err::<Option<Instant>, SystemError>(SystemError::ENOBUFS) && kept
            },
        }
    }
}

/// Asking the allocator does not change what becomes of a packet.
proof fn lemma_join_outcome(
    o: &IfaceCommon,
    mid: &IfaceCommon,
    oif: u32,
    next_hop: Ipv4Address,
    bytes: Seq<u8>,
    memory: RoutedMemory,
    n: &IfaceCommon,
    r: Result<Option<Instant>, SystemError>,
)
    requires
        mid.local_input_queue.output.same(&o.local_input_queue.output),
        mid.mtu == o.mtu,
        join_outcome(mid, oif, next_hop, bytes, memory, n, r),
    ensures
        join_outcome(o, oif, next_hop, bytes, memory, n, r),
{
    if r matches Ok(Some(_)) {
        let packet = choose|packet: LocalOutputPacket|
            iface_common::routed_packet(
                mid,
                oif,
                IpAddress::Ipv4(next_hop),
                bytes,
                memory,
                packet,
            ) && #[trigger] bucket_joined(mid, oif, next_hop, packet, n);
        assert(bucket_joined(o, oif, next_hop, packet, n));
    }
}

/// What becomes of a packet from elsewhere before it is sent.
pub open spec fn join_routed_outcome(
    o: &IfaceCommon,
    next_hop: IpAddress,
    bytes: Seq<u8>,
    waker: Option<PollWaker>,
    memory: RoutedMemory,
    n: &IfaceCommon,
    r: Result<Option<Instant>, SystemError>,
) -> bool {
    match next_hop {
        IpAddress::Ipv6(_) => {
            &&& r == Err::<Option<Instant>, SystemError>(SystemError::EAFNOSUPPORT)
            &&& n.local_input_queue.output == o.local_input_queue.output
        },
        IpAddress::Ipv4(hop) => if waker is None {
            &&& r == Err::<Option<Instant>, SystemError>(SystemError::ENODEV)
            &&& n.local_input_queue.output == o.local_input_queue.output
        } else {
            join_outcome(o, o.iface_id as u32, hop, bytes, memory, n, r)
        },
    }
}

/// A packet with these bytes waits for the device.
pub open spec fn waits_for_device(
    o: &IfaceCommon,
    oif: u32,
    next_hop: Ipv4Address,
    bytes: Seq<u8>,
    observed_generation: u64,
    now: Instant,
    memory: RoutedMemory,
    n: &IfaceCommon,
    deadline: Instant,
) -> bool {
    exists|packet: LocalOutputPacket|
        iface_common::routed_packet(o, oif, IpAddress::Ipv4(next_hop), bytes, memory, packet)
            && #[trigger] parked_until(o, packet, observed_generation, now, n, deadline)
}

/// What becomes of a packet that was to be sent but found the device full.
pub open spec fn routed_parked(
    o: &IfaceCommon,
    oif: u32,
    next_hop: Ipv4Address,
    bytes: Seq<u8>,
    observed_generation: u64,
    now: Instant,
    memory: RoutedMemory,
    n: &IfaceCommon,
    r: Result<Option<Instant>, SystemError>,
) -> bool {
    match iface_common::refusal(o, bytes.len(), memory) {
        Some(error) => {
            &&& r == Err::<Option<Instant>, SystemError>(error)
            &&& n.local_input_queue.output.same(&o.local_input_queue.output)
            &&& n.local_output_tx_backoff_us == o.doubled_backoff()
        },
        None => {
            &&& r matches Ok(Some(deadline))
            &&& iface_common::one_more(o, n, memory.scratch->0.capacity)
            &&& waits_for_device(
                o,
                oif,
                next_hop,
                bytes,
                observed_generation,
                now,
                memory,
                n,
                deadline,
            )
        },
    }
}

/// What becomes of a packet from elsewhere, given what sending it returned and what the allocator
/// gave for it.
pub open spec fn send_settled(
    o: &IfaceCommon,
    next_hop: Ipv4Address,
    bytes: Seq<u8>,
    sent: Result<(), RouteSendError>,
    observed_generation: u64,
    now: Instant,
    memory: RoutedMemory,
    n: &IfaceCommon,
    r: Result<Option<Instant>, SystemError>,
) -> bool {
    let oif = o.iface_id as u32;
    let untouched = n.local_input_queue.output == o.local_input_queue.output
        && n.local_output_tx_backoff_us == o.local_output_tx_backoff_us;
    match sent {
        Ok(_) => r == Ok::<Option<Instant>, SystemError>(None) && untouched,
        Err(RouteSendError::RetryAt { retry_at, probe_sent }) => {
            &&& n.local_output_tx_backoff_us == o.local_output_tx_backoff_us
            &&& n.local_input_queue.output.packets@ == o.local_input_queue.output.packets@
            &&& n.local_input_queue.output.backpressured@
                == o.local_input_queue.output.backpressured@
            &&& match r {
                Ok(deadline) => deadline == Some(retry_at),
                Err(_) => true,
            }
            &&& iface_common::queue_outcome(
                o,
                oif,
                next_hop,
                bytes,
                retry_at,
                probe_sent,
                memory,
                n,
                match r {
                    Ok(_) => Ok(()),
                    Err(error) => Err(error),
                },
            )
        },
        Err(RouteSendError::Failed(error)) => if error == SystemError::ENOBUFS || error
            == SystemError::EAGAIN_OR_EWOULDBLOCK {
            routed_parked(o, oif, next_hop, bytes, observed_generation, now, memory, n, r)
        } else {
            r == Err::<Option<Instant>, SystemError>(error) && untouched
        },
    }
}

/// Asking the allocator does not change what becomes of a packet.
proof fn lemma_send_settled(
    o: &IfaceCommon,
    mid: &IfaceCommon,
    next_hop: Ipv4Address,
    bytes: Seq<u8>,
    sent: Result<(), RouteSendError>,
    observed_generation: u64,
    now: Instant,
    memory: RoutedMemory,
    n: &IfaceCommon,
    r: Result<Option<Instant>, SystemError>,
)
    requires
        mid.local_input_queue.output.same(&o.local_input_queue.output),
        *mid == (IfaceCommon { local_input_queue: mid.local_input_queue, ..*o }),
        *mid == *o || (sent matches Err(error) && !(error matches RouteSendError::Failed(e) && e
            != SystemError::ENOBUFS && e != SystemError::EAGAIN_OR_EWOULDBLOCK)),
        send_settled(mid, next_hop, bytes, sent, observed_generation, now, memory, n, r),
    ensures
        send_settled(o, next_hop, bytes, sent, observed_generation, now, memory, n, r),
{
    let oif = o.iface_id as u32;
    match sent {
        Err(RouteSendError::RetryAt { retry_at, probe_sent }) => {
            iface_common::lemma_queue_outcome(
                o,
                mid,
                oif,
                next_hop,
                bytes,
                retry_at,
                probe_sent,
                memory,
                n,
                match r {
                    Ok(_) => Ok(()),
                    Err(error) => Err(error),
                },
            );
        },
        _ => {
            if let Ok(Some(deadline)) = r {
                let packet = choose|packet: LocalOutputPacket|
                    iface_common::routed_packet(
                        mid,
                        oif,
                        IpAddress::Ipv4(next_hop),
                        bytes,
                        memory,
                        packet,
                    ) && #[trigger] parked_until(
                        mid,
                        packet,
                        observed_generation,
                        now,
                        n,
                        deadline,
                    );
                assert(parked_until(o, packet, observed_generation, now, n, deadline));
            }
        },
    }
}

/// What the end of an admitted transmission does.
pub open spec fn admitted_effect(
    o: &IfaceCommon,
    oif: u32,
    next_hop: IpAddress,
    reservation: LocalOutputReservation,
    result: LocalOutputTransmitResult,
    observed_generation: u64,
    now: Instant,
    n: &IfaceCommon,
    r: AdmittedRoutedOutput,
) -> bool {
    let before = &o.local_input_queue.output;
    let after = &n.local_input_queue.output;
    match result {
        LocalOutputTransmitResult::Sent(packet) => {
            &&& r == AdmittedRoutedOutput::Sent(packet)
            &&& n.local_output_tx_backoff_us == IfaceCommon::LOCAL_OUTPUT_TX_BACKOFF_MIN_US
            &&& output_drain::neighbor_released(before, oif, next_hop, after)
            &&& output_drain::room_returned(before, after, reservation)
        },
        LocalOutputTransmitResult::RetrySoon(packet) => {
            &&& r matches AdmittedRoutedOutput::Queued(deadline)
            &&& refusal_parked(o, reservation, packet, observed_generation, now, n, deadline)
        },
        LocalOutputTransmitResult::RetryAt { packet, retry_at, probe_sent } => {
            &&& n.local_output_tx_backoff_us == IfaceCommon::LOCAL_OUTPUT_TX_BACKOFF_MIN_US
            &&& output_drain::neighbor_awaited_or_not(
                before,
                reservation,
                packet,
                retry_at,
                probe_sent,
                after,
                r is Queued,
            )
            &&& r == (if r is Queued {
                AdmittedRoutedOutput::Queued(retry_at)
            } else {
                AdmittedRoutedOutput::Drop(packet, SystemError::ENOBUFS)
            })
        },
        LocalOutputTransmitResult::Drop(packet, error) => {
            &&& r == AdmittedRoutedOutput::Drop(packet, error)
            &&& n.local_output_tx_backoff_us == IfaceCommon::LOCAL_OUTPUT_TX_BACKOFF_MIN_US
            &&& output_drain::room_returned(before, after, reservation)
            &&& output_drain::packets_kept(before, after)
        },
    }
}

/// A packet for every station goes to the address whose octets are all ones, and every other one to the
/// interface.
pub proof fn law_target_mac(mac: EthernetAddress, broadcast: bool)
    ensures
        broadcast ==> forall|i: int|
            0 <= i < 6 ==> #[trigger] target_mac(mac, broadcast).spec_octets()[i] == 0xff,
        !broadcast ==> target_mac(mac, broadcast) == mac,
{
}

/// A packet that the device refused is still queued: it waits for the delay of the interface, which
/// then doubles up to a tenth of a second, or is ready at once if one of the device's transmissions
/// ended in the meantime; then nothing waits for the device any longer.
pub proof fn law_parked_until(
    o: IfaceCommon,
    packet: LocalOutputPacket,
    observed_generation: u64,
    now: Instant,
    n: IfaceCommon,
    deadline: Instant,
)
    requires
        o.wf(),
        now + 100_000 <= i64::MAX,
        parked_until(&o, packet, observed_generation, now, &n, deadline),
    ensures
        ({
            let before = o.local_input_queue.output;
            let after = n.local_input_queue.output;
            &&& after.deferred_routes@ == before.deferred_routes@
            &&& if o.tx_completion_generation == observed_generation {
                &&& deadline == now + o.local_output_tx_backoff_us
                &&& after.packets@ == before.packets@
                &&& after.backpressured@.len() == before.backpressured@.len() + 1
                &&& exists|i: int|
                    0 <= i < after.backpressured@.len() && (
                    #[trigger] after.backpressured@[i]).packet == packet
                        && after.backpressured@[i].retry_at == deadline
                &&& n.local_output_tx_backoff_us == (if o.local_output_tx_backoff_us <= 50_000 {
                    2 * o.local_output_tx_backoff_us
                } else {
                    100_000
                })
            } else {
                &&& deadline == now
                &&& after.backpressured@.len() == 0
                &&& after.packets@.len() == before.packets@.len() + before.backpressured@.len() + 1
                &&& after.packets@.contains(packet)
                &&& n.local_output_tx_backoff_us == 1000
            }
        }),
{
    let w = o.local_input_queue.output.backpressured@;
    let at = (now + o.local_output_tx_backoff_us) as i64;
    local_queue::law_insertion_point(w, at);
    let p = local_queue::insertion_point(w, at) as int;
    let entry = BackpressuredLocalOutput { retry_at: at, packet };
    let waiting = w.insert(p, entry);
    assert(waiting[p] == entry);
    assert(local_queue::parked(waiting)[p] == packet);
    if o.tx_completion_generation != observed_generation {
        let ready = n.local_input_queue.output.packets@;
        let m = o.local_input_queue.output.packets@.len();
        assert(ready[m + p] == packet);
    }
}

/// A packet that is offered to its interface joins those that wait for its neighbor if there are any,
/// so that it overtakes none; if there are none it comes back with room for it set aside; and it comes
/// back with nothing changed if there is no room.
pub proof fn law_offer(
    before: LocalOutputQueueState,
    packet: LocalOutputPacket,
    room: bool,
    join_room: bool,
    after: LocalOutputQueueState,
    r: ExistingDeferredEnqueue,
    oif: u32,
    next_hop: Ipv4Address,
)
    requires
        offer_outcome(&before, packet, room, join_room, &after, r),
        packet.disposition matches LocalOutputDisposition::Routed { oif: o, next_hop: h, .. } && o
            == oif && h == IpAddress::Ipv4(next_hop),
    ensures
        ({
            let k = (oif * 0x1_0000_0000 + next_hop.bits) as u64;
            match r {
                ExistingDeferredEnqueue::Full(p) => p == packet && after.frames == before.frames
                    && after.reserved_frames == before.reserved_frames && after.deferred_routes@
                    == before.deferred_routes@,
                ExistingDeferredEnqueue::Missing(p, reservation) => {
                    &&& p == packet
                    &&& !before.deferred_routes@.contains_key(k)
                    &&& after.deferred_routes@ == before.deferred_routes@
                    &&& reservation.bytes == packet.charge
                    &&& after.reserved_frames == before.reserved_frames + 1
                    &&& after.reserved_bytes == before.reserved_bytes + packet.charge
                    &&& after.frames == before.frames
                },
                ExistingDeferredEnqueue::Queued(at) => {
                    &&& before.deferred_routes@.contains_key(k)
                    &&& at == before.deferred_routes@[k].retry_at
                    &&& after.deferred_routes@[k].packets.last() == packet
                    &&& after.deferred_routes@[k].packets.drop_last()
                        == before.deferred_routes@[k].packets
                    &&& after.frames == before.frames + 1
                    &&& after.bytes == before.bytes + packet.charge
                },
            }
        }),
        room && before.frames + before.reserved_frames + 1 <= 1024 && before.bytes
            + before.reserved_bytes + packet.charge <= 0x40_0000
            && !before.deferred_routes@.contains_key((oif * 0x1_0000_0000 + next_hop.bits) as u64)
            ==> r is Missing,
        ({
            let w = before.deferred_routes@[(oif * 0x1_0000_0000 + next_hop.bits) as u64];
            room && join_room && before.frames + before.reserved_frames + 1 <= 1024 && before.bytes
                + before.reserved_bytes + packet.charge <= 0x40_0000
                && before.deferred_routes@.contains_key(
                (oif * 0x1_0000_0000 + next_hop.bits) as u64,
            ) && w.packets.len() + 1 + (if w.probe_in_flight {
                1int
            } else {
                0
            }) <= 64 && w.bytes + w.probe_bytes + packet.charge <= 0x4_0000 ==> r is Queued
        }),
{
    if room && before.spec_admits(packet.charge) {
        let joined = match r {
            ExistingDeferredEnqueue::Queued(retry_at) => JoinDeferredResult::Queued(retry_at),
            ExistingDeferredEnqueue::Missing(p, _) => JoinDeferredResult::Missing(p),
            ExistingDeferredEnqueue::Full(p) => JoinDeferredResult::Full(p),
        };
        deferred_queue::law_join(
            before.deferred_routes@,
            packet,
            LocalInputQueue::limits(),
            join_room,
            after.deferred_routes@,
            joined,
            oif,
            next_hop,
        );
    }
}

/// A packet from elsewhere joins those that wait for its neighbor before anything is sent: nothing
/// comes back exactly if nobody waits; otherwise it waits behind them, with the bytes that it had, until
/// their time, or is refused with nothing changed.
pub proof fn law_join_outcome(
    o: IfaceCommon,
    oif: u32,
    next_hop: Ipv4Address,
    bytes: Seq<u8>,
    memory: RoutedMemory,
    n: IfaceCommon,
    r: Result<Option<Instant>, SystemError>,
)
    requires
        join_outcome(&o, oif, next_hop, bytes, memory, &n, r),
    ensures
        ({
            let before = o.local_input_queue.output;
            let after = n.local_input_queue.output;
            let k = (oif * 0x1_0000_0000 + next_hop.bits) as u64;
            &&& r == Ok::<Option<Instant>, SystemError>(None)
                <==> !before.deferred_routes@.contains_key(k)
            &&& before.deferred_routes@.contains_key(k) ==> (r is Ok <==> {
                let charge = memory.scratch->0.capacity;
                let w = before.deferred_routes@[k];
                &&& bytes.len() <= o.mtu
                &&& memory.room
                &&& memory.bucket_room
                &&& memory.scratch is Some
                &&& before.frames + before.reserved_frames + 1 <= 1024
                &&& before.bytes + before.reserved_bytes + charge <= 0x40_0000
                &&& w.packets.len() + 1 + (if w.probe_in_flight {
                    1int
                } else {
                    0
                }) <= 64
                &&& w.bytes + w.probe_bytes + charge <= 0x4_0000
            })
            &&& match r {
                Ok(Some(at)) => {
                    let b = after.deferred_routes@[k];
                    &&& at == before.deferred_routes@[k].retry_at
                    &&& b.retry_at == at
                    &&& b.packets.last().frame@ == bytes
                    &&& b.packets.last().disposition == (LocalOutputDisposition::Routed {
                        oif,
                        next_hop: IpAddress::Ipv4(next_hop),
                        ip_mtu: o.mtu,
                    })
                    &&& b.packets.drop_last() == before.deferred_routes@[k].packets
                    &&& after.frames == before.frames + 1
                    &&& bytes.len() <= o.mtu
                },
                _ => after.same(&before),
            }
        }),
{
    let m = o.local_input_queue.output.deferred_routes@;
    let k = (DeferredRouteKey { oif, next_hop }).spec_packed();
    if let Ok(Some(_)) = r {
        let packet = choose|packet: LocalOutputPacket|
            iface_common::routed_packet(
                &o,
                oif,
                IpAddress::Ipv4(next_hop),
                bytes,
                memory,
                packet,
            ) && #[trigger] bucket_joined(&o, oif, next_hop, packet, &n);
        assert(m[k].packets.push(packet).drop_last() =~= m[k].packets);
    }
}

/// What becomes of a packet from elsewhere by what sending it returned: nothing is kept of one that was
/// sent; one whose neighbor is not known waits for it until the time that was named; one that found the
/// device full waits for the device; and any other failure is passed on with the queues untouched. A
/// packet is never dropped for lack of room in the device while the queue takes it.
pub proof fn law_send_settled(
    o: IfaceCommon,
    next_hop: Ipv4Address,
    bytes: Seq<u8>,
    sent: Result<(), RouteSendError>,
    observed_generation: u64,
    now: Instant,
    memory: RoutedMemory,
    n: IfaceCommon,
    r: Result<Option<Instant>, SystemError>,
)
    requires
        o.wf(),
        now + 100_000 <= i64::MAX,
        send_settled(
            &o,
            next_hop,
            bytes,
            sent,
            observed_generation,
            now,
            memory,
            &n,
            r,
        ),
    ensures
        ({
            let before = o.local_input_queue.output;
            let after = n.local_input_queue.output;
            match sent {
                Ok(_) => r == Ok::<Option<Instant>, SystemError>(None) && after == before,
                Err(RouteSendError::RetryAt { retry_at, .. }) => {
                    &&& after.packets@ == before.packets@
                    &&& after.backpressured@ == before.backpressured@
                    &&& r is Ok ==> r == Ok::<Option<Instant>, SystemError>(Some(retry_at))
                        && after.frames == before.frames + 1
                    &&& r is Err ==> after.frames == before.frames && after.deferred_routes@
                        == before.deferred_routes@
                    &&& r is Ok ==> after.deferred_routes@[((o.iface_id as u32) * 0x1_0000_0000
                        + next_hop.bits) as u64].packets.last().frame@ == bytes
                },
                Err(RouteSendError::Failed(e)) => if e == SystemError::ENOBUFS || e
                    == SystemError::EAGAIN_OR_EWOULDBLOCK {
                    &&& r is Ok ==> r->Ok_0 is Some && after.frames == before.frames + 1
                        && after.deferred_routes@ == before.deferred_routes@
                    &&& r is Ok && o.tx_completion_generation == observed_generation ==> r->Ok_0
                        == Some((now + o.local_output_tx_backoff_us) as i64)
                    &&& r is Ok && o.tx_completion_generation != observed_generation ==> r->Ok_0
                        == Some(now)
                    &&& r is Err ==> after.same(&before)
                    &&& r is Ok && o.tx_completion_generation == observed_generation ==> exists|i: int|
                        0 <= i < after.backpressured@.len() && (
                        #[trigger] after.backpressured@[i]).packet.frame@ == bytes
                            && Some(after.backpressured@[i].retry_at) == r->Ok_0
                    &&& r is Ok <==> bytes.len() <= o.mtu && memory.room && memory.scratch is Some
                        && before.frames + before.reserved_frames + 1 <= 1024 && before.bytes
                        + before.reserved_bytes + memory.scratch->0.capacity <= 0x40_0000
                } else {
                    r == Err::<Option<Instant>, SystemError>(e) && after == before
                },
            }
        }),
{
    let oif = o.iface_id as u32;
    match sent {
        Err(RouteSendError::RetryAt { retry_at, probe_sent }) => {
            iface_common::law_queue_outcome(
                o,
                oif,
                next_hop,
                bytes,
                retry_at,
                probe_sent,
                memory,
                n,
                match r {
                    Ok(_) => Ok(()),
                    Err(error) => Err(error),
                },
            );
        },
        Err(RouteSendError::Failed(e)) => {
            if let Ok(Some(deadline)) = r {
                let packet = choose|packet: LocalOutputPacket|
                    iface_common::routed_packet(
                        &o,
                        oif,
                        IpAddress::Ipv4(next_hop),
                        bytes,
                        memory,
                        packet,
                    ) && #[trigger] parked_until(
                        &o,
                        packet,
                        observed_generation,
                        now,
                        &n,
                        deadline,
                    );
                law_parked_until(o, packet, observed_generation, now, n, deadline);
                if o.tx_completion_generation == observed_generation {
                    let waiting = n.local_input_queue.output.backpressured@;
                    let i = choose|i: int|
                        0 <= i < waiting.len() && (#[trigger] waiting[i]).packet == packet
                            && waiting[i].retry_at == deadline;
                    assert(waiting[i].packet.frame@ == bytes);
                }
            }
        },
        _ => {},
    }
}

/// What the end of an admitted transmission does: a packet that was sent or dropped gives its room
/// back; one that the device refused is queued with its room spent; one whose neighbor is not known
/// waits until the time that was named, or is dropped for lack of room.
pub proof fn law_admitted(
    o: IfaceCommon,
    oif: u32,
    next_hop: IpAddress,
    reservation: LocalOutputReservation,
    result: LocalOutputTransmitResult,
    observed_generation: u64,
    now: Instant,
    n: IfaceCommon,
    r: AdmittedRoutedOutput,
)
    requires
        admitted_effect(
            &o,
            oif,
            next_hop,
            reservation,
            result,
            observed_generation,
            now,
            &n,
            r,
        ),
    ensures
        ({
            let before = o.local_input_queue.output;
            let after = n.local_input_queue.output;
            &&& match (result, r) {
                (LocalOutputTransmitResult::Sent(p), AdmittedRoutedOutput::Sent(q)) => p == q
                    && after.frames == before.frames && n.local_output_tx_backoff_us == 1000,
                (LocalOutputTransmitResult::Drop(p, e), AdmittedRoutedOutput::Drop(q, f)) => p == q
                    && e == f && after.frames == before.frames && n.local_output_tx_backoff_us
                    == 1000,
                (LocalOutputTransmitResult::RetrySoon(_), AdmittedRoutedOutput::Queued(at)) => {
                    &&& after.frames == before.frames + 1
                    &&& at == (if o.tx_completion_generation == observed_generation {
                        (now + o.local_output_tx_backoff_us) as i64
                    } else {
                        now
                    })
                },
                (
                    LocalOutputTransmitResult::RetryAt { retry_at, .. },
                    AdmittedRoutedOutput::Queued(at),
                ) => at == retry_at && after.frames == before.frames + 1
                    && n.local_output_tx_backoff_us == 1000,
                (
                    LocalOutputTransmitResult::RetryAt { packet, .. },
                    AdmittedRoutedOutput::Drop(q, e),
                ) => q == packet && e == SystemError::ENOBUFS && after.frames == before.frames
                    && n.local_output_tx_backoff_us == 1000,
                _ => false,
            }
            &&& r is Queued ==> after.frames + after.reserved_frames == before.frames
                + before.reserved_frames
            &&& !(r is Queued) ==> after.reserved_frames == before.reserved_frames - 1
            &&& r is Drop ==> after.packets@ == before.packets@ && after.deferred_routes@
                == before.deferred_routes@
            &&& next_hop matches IpAddress::Ipv4(hop) ==> {
                let k = (oif * 0x1_0000_0000 + hop.bits) as u64;
                let m = before.deferred_routes@;
                result is Sent && m.contains_key(k) && !m[k].probe_in_flight ==> after.packets@
                    == before.packets@ + m[k].packets && !after.deferred_routes@.contains_key(k)
            }
        }),
{
    if result is Sent {
        output_drain::law_neighbor_released(
            o.local_input_queue.output,
            oif,
            next_hop,
            n.local_input_queue.output,
        );
    }
}

/// A frame that the interface's own device could not take waits for it as it is, marked for that device,
/// or comes back as it is with nothing changed; it comes back only if the queue is full or there is no
/// memory.
pub proof fn law_native(
    o: IfaceCommon,
    medium: Medium,
    meta: PacketMeta,
    frame: Vec<u8>,
    capacity: usize,
    observed_generation: u64,
    now: Instant,
    room: bool,
    n: IfaceCommon,
    r: Result<Instant, Vec<u8>>,
)
    requires
        o.wf(),
        now + 100_000 <= i64::MAX,
        native_outcome(
            &o,
            medium,
            meta,
            frame,
            capacity,
            observed_generation,
            now,
            room,
            &n,
            r,
        ),
    ensures
        ({
            let before = o.local_input_queue.output;
            let after = n.local_input_queue.output;
            &&& r is Ok <==> room && before.frames + before.reserved_frames + 1 <= 1024
                && before.bytes + before.reserved_bytes + capacity <= 0x40_0000
            &&& r matches Err(back) ==> back == frame && after.same(&before)
            &&& r matches Ok(at) ==> {
                &&& after.frames == before.frames + 1
                &&& after.bytes == before.bytes + capacity
                &&& after.deferred_routes@ == before.deferred_routes@
                &&& o.tx_completion_generation == observed_generation ==> {
                    &&& at == now + o.local_output_tx_backoff_us
                    &&& after.packets@ == before.packets@
                    &&& exists|i: int|
                        0 <= i < after.backpressured@.len() && (
                        #[trigger] after.backpressured@[i]).retry_at == at
                            && after.backpressured@[i].packet.frame == frame
                            && after.backpressured@[i].packet.disposition is NativeOwner
                            && after.backpressured@[i].packet.medium == medium
                }
                &&& o.tx_completion_generation != observed_generation ==> {
                    &&& at == now
                    &&& after.backpressured@.len() == 0
                    &&& exists|i: int|
                        0 <= i < after.packets@.len() && (#[trigger] after.packets@[i]).frame == frame
                            && after.packets@[i].disposition is NativeOwner
                }
            }
        }),
{
    if let Ok(at) = r {
        let packet = choose|packet: LocalOutputPacket|
            native_packet(packet, medium, meta, frame, capacity) && #[trigger] native_parked(
                &o,
                packet,
                observed_generation,
                now,
                &n,
                at,
            );
        law_parked_until(o, packet, observed_generation, now, n, at);
        let after = n.local_input_queue.output;
        if o.tx_completion_generation == observed_generation {
            let i = choose|i: int|
                0 <= i < after.backpressured@.len() && (#[trigger] after.backpressured@[i]).packet
                    == packet && after.backpressured@[i].retry_at == at;
            assert(after.backpressured@[i].packet.frame == frame);
        } else {
            let i = choose|i: int| 0 <= i < after.packets@.len() && after.packets@[i] == packet;
            assert(after.packets@[i].frame == frame);
        }
    }
}

/// Packets from elsewhere are queued for IPv4 neighbors only, and only where somebody polls the
/// interface; they leave through that interface.
pub proof fn law_join_routed(
    o: IfaceCommon,
    next_hop: IpAddress,
    bytes: Seq<u8>,
    waker: Option<PollWaker>,
    memory: RoutedMemory,
    n: IfaceCommon,
    r: Result<Option<Instant>, SystemError>,
)
    requires
        join_routed_outcome(&o, next_hop, bytes, waker, memory, &n, r),
    ensures
        next_hop is Ipv6 ==> r == Err::<Option<Instant>, SystemError>(SystemError::EAFNOSUPPORT)
            && n.local_input_queue.output == o.local_input_queue.output,
        next_hop is Ipv4 && waker is None ==> r == Err::<Option<Instant>, SystemError>(
            SystemError::ENODEV,
        ) && n.local_input_queue.output == o.local_input_queue.output,
        next_hop matches IpAddress::Ipv4(hop) ==> waker is Some ==> (r == Ok::<
            Option<Instant>,
            SystemError,
        >(None) <==> !o.local_input_queue.output.deferred_routes@.contains_key(
            ((o.iface_id as u32) * 0x1_0000_0000 + hop.bits) as u64,
        )),
{
    if let IpAddress::Ipv4(hop) = next_hop {
        if waker is Some {
            law_join_outcome(o, o.iface_id as u32, hop, bytes, memory, n, r);
        }
    }
}

/// When neighbors become known, all that waits for them without a probe out becomes ready behind what
/// was ready, and what waits for others goes on waiting as it did.
pub proof fn law_outputs_released(
    o: LocalOutputQueueState,
    known: Seq<Ipv4Address>,
    n: LocalOutputQueueState,
    k: u64,
)
    requires
        o.deferred_routes.wf(),
        outputs_released(&o, known, &n),
        o.deferred_routes@.contains_key(k),
    ensures
        ({
            let b = o.deferred_routes@[k];
            let found = known.contains(b.key.next_hop);
            &&& n.deferred_routes@.contains_key(k) <==> !found || b.probe_in_flight
            &&& !found ==> n.deferred_routes@[k] == b
            &&& found && b.probe_in_flight ==> n.deferred_routes@[k].resolved
                && n.deferred_routes@[k].packets == b.packets
            &&& n.packets@.len() >= o.packets@.len()
            &&& forall|i: int| 0 <= i < o.packets@.len() ==> #[trigger] n.packets@[i] == o.packets@[i]
        }),
{
    assert(n.deferred_routes@.contains_key(k) == (o.deferred_routes@.contains_key(k)
        && !deferred_queue::leaves(o.deferred_routes@[k], known)));
}

/// An address is known as a neighbor exactly if it is configured or the stack resolved it.
pub proof fn law_neighbor_known(
    neighbors: Seq<StaticNeighborEntry>,
    resolved: Seq<Ipv4Address>,
    address: Ipv4Address,
    i: int,
)
    ensures
        resolved.contains(address) ==> neighbor_known(neighbors, resolved, address),
        0 <= i < neighbors.len() && neighbors[i].ip_addr == IpAddress::Ipv4(address)
            ==> neighbor_known(neighbors, resolved, address),
        neighbors.len() == 0 && neighbor_known(neighbors, resolved, address) ==> resolved.contains(
            address,
        ),
        resolved.len() == 0 && neighbor_known(neighbors, resolved, address) ==> exists|j: int|
            0 <= j < neighbors.len() && (#[trigger] neighbors[j]).ip_addr == IpAddress::Ipv4(address),
{
}

} // verus!

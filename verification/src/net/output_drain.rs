//! Draining the output queue of an interface, packet by packet.

use vstd::prelude::*;
use crate::error::SystemError;
use crate::net::addr::{Instant, IpAddress, Ipv4Address};
use crate::net::deferred_queue;
use crate::net::deferred_queue::{DeferredRouteKey, JoinDeferredResult};
use crate::net::iface_common::IfaceCommon;
use crate::net::local_output::{
    LocalOutputDrainResult, LocalOutputDrainState, LocalOutputTransmitResult,
};
use crate::net::local_queue;
use crate::net::local_queue::{
    BackpressuredLocalOutput, ExistingDeferredCommit, LocalInputQueue, LocalOutputDisposition,
    LocalOutputPacket, LocalOutputPop, LocalOutputQueueState, LocalOutputReservation,
};

verus! {

/// One drain of an output queue.
#[derive(Clone, Copy, Debug, PartialEq, Eq, Structural)]
pub struct OutputDrain {
    /// How many packets may still be taken.
    pub budget: usize,
    pub work_done: usize,
    /// Neighbors that are due come first.
    pub prefer_deferred: bool,
}

/// What one step of a drain asks of the outside.
pub enum DrainStep {
    /// The drain is over. A deadline is published if there is one.
    Finished(LocalOutputDrainResult, Option<Instant>),
    /// The packet was dealt with. A deadline is published if there is one.
    Absorbed(Option<Instant>),
    /// The packet leaves through interface `oif`, whose queue has to admit it.
    Egress { oif: u32, packet: LocalOutputPacket, reservation: LocalOutputReservation },
    /// The packet is to be sent.
    Transmit {
        packet: LocalOutputPacket,
        reservation: LocalOutputReservation,
        probe: Option<DeferredRouteKey>,
    },
}

impl DrainStep {
    /// The step once it is known whether the interface that a packet leaves through is there. A
    /// packet whose interface is gone is sent by the interface that it waited at.
    pub fn with_egress(self, present: bool) -> (r: Self)
        ensures
            r == (match self {
                DrainStep::Egress { oif, packet, reservation } => if present {
                    self
                } else {
                    DrainStep::Transmit { packet, reservation, probe: None }
                },
                _ => self,
            }),
    {
        match self {
            DrainStep::Egress { oif, packet, reservation } => if present {
                DrainStep::Egress { oif, packet, reservation }
            } else {
                DrainStep::Transmit { packet, reservation, probe: None }
            },
            step => step,
        }
    }
}

/// The outcome of offering a packet to the interface that is to send it.
pub enum ExistingDeferredEnqueue {
    Queued(Instant),
    Missing(LocalOutputPacket, LocalOutputReservation),
    Full(LocalOutputPacket),
}

/// What became of a packet that its interface admitted.
pub enum AdmittedRoutedOutput {
    Sent(LocalOutputPacket),
    Queued(Instant),
    Drop(LocalOutputPacket, SystemError),
}

/// The packet that a transmission returned.
pub open spec fn returned_packet(result: LocalOutputTransmitResult) -> LocalOutputPacket {
    match result {
        LocalOutputTransmitResult::Sent(packet) => packet,
        LocalOutputTransmitResult::RetrySoon(packet) => packet,
        LocalOutputTransmitResult::RetryAt { packet, .. } => packet,
        LocalOutputTransmitResult::Drop(packet, _) => packet,
    }
}

/// The room of `reservation` was given back, and nothing else was counted differently.
pub open spec fn room_returned(
    o: &LocalOutputQueueState,
    n: &LocalOutputQueueState,
    reservation: LocalOutputReservation,
) -> bool {
    &&& n.frames == o.frames
    &&& n.bytes == o.bytes
    &&& n.reserved_frames == o.reserved_frames - 1
    &&& n.reserved_bytes == o.reserved_bytes - reservation.bytes
}

/// The queued packets are the same.
pub open spec fn packets_kept(o: &LocalOutputQueueState, n: &LocalOutputQueueState) -> bool {
    &&& n.packets@ == o.packets@
    &&& n.backpressured@ == o.backpressured@
    &&& n.deferred_routes@ == o.deferred_routes@
}

/// What the end of a probe that got through does to the packets.
pub open spec fn probe_success(
    o: &LocalOutputQueueState,
    key: DeferredRouteKey,
    n: &LocalOutputQueueState,
) -> bool {
    &&& n.backpressured@ == o.backpressured@
    &&& if deferred_queue::in_flight_in(o.deferred_routes@, key) {
        &&& n.deferred_routes@ == o.deferred_routes@.remove(key.spec_packed())
        &&& n.packets@ == o.packets@ + o.deferred_routes@[key.spec_packed()].packets
    } else {
        &&& n.deferred_routes@ == o.deferred_routes@
        &&& n.packets@ == o.packets@
    }
}

/// What the resolution of a neighbor does to the packets.
pub open spec fn neighbor_released(
    o: &LocalOutputQueueState,
    oif: u32,
    next_hop: IpAddress,
    n: &LocalOutputQueueState,
) -> bool {
    match next_hop {
        IpAddress::Ipv6(_) => packets_kept(o, n),
        IpAddress::Ipv4(next_hop) => {
            &&& n.backpressured@ == o.backpressured@
            &&& deferred_queue::release_effect(
                o.deferred_routes@,
                DeferredRouteKey { oif, next_hop },
                o.packets@,
                n.deferred_routes@,
                n.packets@,
            )
        },
    }
}

/// What a step does with a packet that leaves through the interface that it waited at, given whether
/// memory was set aside for it: it joins those that wait for its neighbor, is dropped if they are too
/// many, and is sent if there are none.
pub open spec fn own_step(
    mid: &LocalOutputQueueState,
    packet: LocalOutputPacket,
    reservation: LocalOutputReservation,
    room: bool,
    after: &LocalOutputQueueState,
    step: DrainStep,
) -> bool {
    let outcome = match step {
        DrainStep::Absorbed(Some(retry_at)) => JoinDeferredResult::Queued(retry_at),
        DrainStep::Absorbed(None) => JoinDeferredResult::Full(packet),
        _ => JoinDeferredResult::Missing(packet),
    };
    &&& after.packets@ == mid.packets@
    &&& after.backpressured@ == mid.backpressured@
    &&& deferred_queue::join_effect(
        mid.deferred_routes@,
        packet,
        LocalInputQueue::limits(),
        room,
        after.deferred_routes@,
        outcome,
    )
    &&& match outcome {
        JoinDeferredResult::Queued(_) => after.spent(mid, reservation),
        JoinDeferredResult::Full(_) => room_returned(mid, after, reservation),
        JoinDeferredResult::Missing(_) => step == (DrainStep::Transmit {
            packet,
            reservation,
            probe: None,
        }) && after.same(mid),
    }
}

/// What a step does with a packet that was taken, from the queue `mid` that it left.
pub open spec fn step_of(
    iface_id: usize,
    mid: &LocalOutputQueueState,
    packet: LocalOutputPacket,
    reservation: LocalOutputReservation,
    probe: Option<DeferredRouteKey>,
    after: &LocalOutputQueueState,
    step: DrainStep,
) -> bool {
    match (packet.disposition, probe) {
        (LocalOutputDisposition::Routed { oif, .. }, None) => if oif == iface_id as u32 {
            exists|room: bool| #[trigger]
                own_step(mid, packet, reservation, room, after, step)
        } else {
            step == (DrainStep::Egress { oif, packet, reservation }) && after.same(mid)
        },
        _ => step == (DrainStep::Transmit { packet, reservation, probe }) && after.same(mid),
    }
}

/// What one step does, given what was taken from the queue.
pub open spec fn step_result(
    o: &IfaceCommon,
    drain: OutputDrain,
    mid: &LocalOutputQueueState,
    pop: LocalOutputPop,
    n: &IfaceCommon,
    drained: OutputDrain,
    step: DrainStep,
) -> bool {
    match pop {
        LocalOutputPop::Ready(packet, reservation, probe) => {
            &&& drained == (OutputDrain {
                budget: (drain.budget - 1) as usize,
                work_done: (drain.work_done + 1) as usize,
                prefer_deferred: false,
            })
            &&& n.local_input_queue.output_draining == o.local_input_queue.output_draining
            &&& step_of(
                o.iface_id,
                mid,
                packet,
                reservation,
                probe,
                &n.local_input_queue.output,
                step,
            )
        },
        LocalOutputPop::DeferredUntil(retry_at) => {
            &&& drained == drain
            &&& !n.local_input_queue.output_draining
            &&& n.local_input_queue.output.same(&o.local_input_queue.output)
            &&& step == DrainStep::Finished(
                LocalOutputDrainResult {
                    work_done: drain.work_done,
                    state: LocalOutputDrainState::Backpressured,
                },
                Some(retry_at),
            )
        },
        LocalOutputPop::Empty => {
            &&& drained == drain
            &&& drain_ended(o, drain, n, step)
        },
    }
}

/// The drain ends because nothing is ready or the budget is spent.
pub open spec fn drain_ended(
    o: &IfaceCommon,
    drain: OutputDrain,
    n: &IfaceCommon,
    step: DrainStep,
) -> bool {
    &&& !n.local_input_queue.output_draining
    &&& n.local_input_queue.output.same(&o.local_input_queue.output)
    &&& step == DrainStep::Finished(
        LocalOutputDrainResult {
            work_done: drain.work_done,
            state: if o.local_input_queue.output.occupied() {
                LocalOutputDrainState::BudgetExhausted
            } else {
                LocalOutputDrainState::Quiescent
            },
        },
        None,
    )
}

/// What a transmission that the device refused does: the packet waits for the device, unless one
/// of its transmissions ended in the meantime. `middle` are the packets that were ready before.
pub open spec fn refused(
    o: &IfaceCommon,
    middle: Seq<LocalOutputPacket>,
    packet: LocalOutputPacket,
    observed_generation: u64,
    now: Instant,
    n: &IfaceCommon,
    deadline: Option<Instant>,
) -> bool {
    let retry_at = (now + o.local_output_tx_backoff_us) as i64;
    let w = o.local_input_queue.output.backpressured@;
    let waiting = w.insert(
        local_queue::insertion_point(w, retry_at) as int,
        BackpressuredLocalOutput { retry_at, packet },
    );
    if o.tx_completion_generation != observed_generation {
        &&& n.local_input_queue.output.packets@ == middle + local_queue::parked(waiting)
        &&& n.local_input_queue.output.backpressured@.len() == 0
        &&& n.local_output_tx_backoff_us == IfaceCommon::LOCAL_OUTPUT_TX_BACKOFF_MIN_US
        &&& deadline is None
    } else {
        &&& n.local_input_queue.output.packets@ == middle
        &&& n.local_input_queue.output.backpressured@ == waiting
        &&& n.local_output_tx_backoff_us == o.doubled_backoff()
        &&& deadline == Some(retry_at)
    }
}

/// What the end of a transmission does to the queues, and which deadline it asks for.
pub open spec fn transmit_effect(
    o: &IfaceCommon,
    reservation: LocalOutputReservation,
    probe: Option<DeferredRouteKey>,
    result: LocalOutputTransmitResult,
    observed_generation: u64,
    now: Instant,
    n: &IfaceCommon,
    deadline: Option<Instant>,
) -> bool {
    let before = &o.local_input_queue.output;
    let after = &n.local_input_queue.output;
    match result {
        LocalOutputTransmitResult::Sent(packet) => {
            &&& deadline is None
            &&& n.local_output_tx_backoff_us == IfaceCommon::LOCAL_OUTPUT_TX_BACKOFF_MIN_US
            &&& room_returned(before, after, reservation)
            &&& match (probe, packet.disposition) {
                (Some(key), _) => probe_success(before, key, after),
                (None, LocalOutputDisposition::Routed { oif, next_hop, .. }) => neighbor_released(
                    before,
                    oif,
                    next_hop,
                    after,
                ),
                _ => packets_kept(before, after),
            }
        },
        LocalOutputTransmitResult::Drop(..) => {
            &&& deadline is None
            &&& n.local_output_tx_backoff_us == IfaceCommon::LOCAL_OUTPUT_TX_BACKOFF_MIN_US
            &&& room_returned(before, after, reservation)
            &&& match probe {
                Some(key) => after.backpressured@ == before.backpressured@
                    && deferred_queue::failure_effect(
                    before.deferred_routes@,
                    key,
                    before.packets@,
                    after.deferred_routes@,
                    after.packets@,
                ),
                None => packets_kept(before, after),
            }
        },
        LocalOutputTransmitResult::RetrySoon(packet) => {
            &&& after.spent(before, reservation)
            &&& match probe {
                Some(key) => exists|middle: Seq<LocalOutputPacket>| #[trigger]
                    deferred_queue::failure_effect(
                        before.deferred_routes@,
                        key,
                        before.packets@,
                        after.deferred_routes@,
                        middle,
                    ) && refused(o, middle, packet, observed_generation, now, n, deadline),
                None => after.deferred_routes@ == before.deferred_routes@ && refused(
                    o,
                    before.packets@,
                    packet,
                    observed_generation,
                    now,
                    n,
                    deadline,
                ),
            }
        },
        LocalOutputTransmitResult::RetryAt { packet, retry_at, probe_sent } => {
            &&& n.local_output_tx_backoff_us == IfaceCommon::LOCAL_OUTPUT_TX_BACKOFF_MIN_US
            &&& match (probe, packet.disposition) {
                (Some(key), _) => probe_returned(
                    before,
                    reservation,
                    packet,
                    key,
                    retry_at,
                    probe_sent,
                    after,
                    deadline,
                ),
                (None, LocalOutputDisposition::Routed { oif, .. }) => if oif == o.iface_id as u32 {
                    &&& neighbor_awaited_or_not(
                        before,
                        reservation,
                        packet,
                        retry_at,
                        probe_sent,
                        after,
                        deadline is Some,
                    )
                    &&& deadline is Some ==> deadline == Some(retry_at)
                } else {
                    &&& deadline is None
                    &&& room_returned(before, after, reservation)
                    &&& packets_kept(before, after)
                },
                _ => false,
            }
        },
    }
}

/// What a probe that found no neighbor does.
pub open spec fn probe_returned(
    before: &LocalOutputQueueState,
    reservation: LocalOutputReservation,
    packet: LocalOutputPacket,
    key: DeferredRouteKey,
    retry_at: Instant,
    probe_sent: bool,
    after: &LocalOutputQueueState,
    deadline: Option<Instant>,
) -> bool {
    let k = key.spec_packed();
    let b = before.deferred_routes@[k];
    &&& after.backpressured@ == before.backpressured@
    &&& if !deferred_queue::in_flight_in(before.deferred_routes@, key) {
        &&& deadline is None
        &&& packets_kept(before, after)
        &&& room_returned(before, after, reservation)
    } else if b.resolved {
        &&& deadline is None
        &&& after.deferred_routes@ == before.deferred_routes@.remove(k)
        &&& after.packets@ == before.packets@ + (seq![packet] + b.packets)
        &&& after.spent(before, reservation)
    } else {
        &&& deadline == Some(retry_at)
        &&& after.deferred_routes@ == before.deferred_routes@.insert(
            k,
            deferred_queue::returned_bucket(b, packet, retry_at, probe_sent),
        )
        &&& after.packets@ == before.packets@
        &&& after.spent(before, reservation)
    }
}

/// What becomes of a packet whose neighbor is not known, given whether memory was set aside for it:
/// it waits if the queue takes it, and gives its room back otherwise.
pub open spec fn neighbor_awaited(
    before: &LocalOutputQueueState,
    reservation: LocalOutputReservation,
    packet: LocalOutputPacket,
    retry_at: Instant,
    probe_sent: bool,
    room: bool,
    after: &LocalOutputQueueState,
    queued: bool,
) -> bool {
    &&& after.packets@ == before.packets@
    &&& after.backpressured@ == before.backpressured@
    &&& queued ==> after.spent(before, reservation)
    &&& !queued ==> room_returned(before, after, reservation)
    &&& match DeferredRouteKey::spec_of(packet.disposition) {
        None => !queued && after.deferred_routes@ == before.deferred_routes@,
        Some(key) => {
            let m = before.deferred_routes@;
            let k = key.spec_packed();
            &&& queued <==> room && (m.contains_key(k) ==> m[k].has_room(
                packet.charge,
                LocalInputQueue::limits(),
            ))
            &&& after.deferred_routes@ == (if !queued {
                m
            } else {
                m.insert(
                    k,
                    if m.contains_key(k) {
                        deferred_queue::enqueued_bucket(m[k], packet, retry_at, probe_sent, true)
                    } else {
                        deferred_queue::fresh_bucket(key, packet, retry_at, probe_sent)
                    },
                )
            })
        },
    }
}

/// What becomes of a packet whose neighbor is not known, where the allocator decides whether there is
/// memory for it.
pub open spec fn neighbor_awaited_or_not(
    before: &LocalOutputQueueState,
    reservation: LocalOutputReservation,
    packet: LocalOutputPacket,
    retry_at: Instant,
    probe_sent: bool,
    after: &LocalOutputQueueState,
    queued: bool,
) -> bool {
    exists|room: bool| #[trigger]
        neighbor_awaited(
            before,
            reservation,
            packet,
            retry_at,
            probe_sent,
            room,
            after,
            queued,
        )
}

impl IfaceCommon {
    /// The delay after the next one.
    pub open spec fn doubled_backoff(&self) -> u64 {
        if 2 * self.local_output_tx_backoff_us < Self::LOCAL_OUTPUT_TX_BACKOFF_MAX_US {
            (2 * self.local_output_tx_backoff_us) as u64
        } else {
            Self::LOCAL_OUTPUT_TX_BACKOFF_MAX_US
        }
    }

    /// Everything but the queues and the delay stays.
    pub open spec fn settings_kept(&self, o: &IfaceCommon) -> bool {
        *self == (IfaceCommon {
            local_input_queue: self.local_input_queue,
            local_output_tx_backoff_us: self.local_output_tx_backoff_us,
            ..*o
        }) && self.local_input_queue.state == o.local_input_queue.state
    }

    /// Starts a drain of at most `budget` packets. An interface without a namespace has nothing to
    /// drain, and only one drain runs at a time.
    pub fn begin_output_drain(&mut self, budget: usize) -> (r: Result<
        OutputDrain,
        LocalOutputDrainResult,
    >)
        requires
            old(self).wf(),
        ensures
            final(self).wf(),
            r == (if old(self).net_namespace is None {
                Err(
                    LocalOutputDrainResult {
                        work_done: 0,
                        state: LocalOutputDrainState::Quiescent,
                    },
                )
            } else if old(self).local_input_queue.output_draining {
                Err(
                    LocalOutputDrainResult {
                        work_done: 0,
                        state: if old(self).local_input_queue.output.occupied() {
                            LocalOutputDrainState::BudgetExhausted
                        } else {
                            LocalOutputDrainState::Contended
                        },
                    },
                )
            } else {
                Ok(OutputDrain { budget, work_done: 0, prefer_deferred: true })
            }),
            *final(self) == (IfaceCommon {
                local_input_queue: LocalInputQueue {
                    output_draining: old(self).local_input_queue.output_draining || r is Ok,
                    ..old(self).local_input_queue
                },
                ..*old(self)
            }),
    {
        if self.net_namespace.is_none() {
            return Err(LocalOutputDrainResult::new(0, LocalOutputDrainState::Quiescent));
        }
        if !self.local_input_queue.try_begin_output_drain() {
            return if self.local_input_queue.output.has_output() {
                Err(LocalOutputDrainResult::new(0, LocalOutputDrainState::BudgetExhausted))
            } else {
                Err(LocalOutputDrainResult::new(0, LocalOutputDrainState::Contended))
            };
        }
        Ok(OutputDrain { budget, work_done: 0, prefer_deferred: true })
    }

    fn end_output_drain(&mut self, drain: &OutputDrain) -> (r: DrainStep)
        requires
            old(self).wf(),
        ensures
            final(self).wf(),
            drain_ended(old(self), *drain, final(self), r),
            final(self).settings_kept(old(self)),
            final(self).local_output_tx_backoff_us == old(self).local_output_tx_backoff_us,
    {
        let state = if self.local_input_queue.finish_output_drain() {
            LocalOutputDrainState::BudgetExhausted
        } else {
            LocalOutputDrainState::Quiescent
        };
        DrainStep::Finished(LocalOutputDrainResult::new(drain.work_done, state), None)
    }

    /// Takes the next packet of a drain and decides what happens to it.
    ///
    /// A packet that leaves through this interface joins those that already wait for its
    /// neighbor, so that none overtakes them.
    pub fn drain_local_outputs(&mut self, drain: &mut OutputDrain, now: Instant) -> (r: DrainStep)
        requires
            old(self).wf(),
            old(drain).work_done + old(drain).budget <= usize::MAX,
        ensures
            final(self).wf(),
            final(drain).work_done + final(drain).budget == old(drain).work_done
                + old(drain).budget,
            final(self).settings_kept(old(self)),
            final(self).local_output_tx_backoff_us == old(self).local_output_tx_backoff_us,
            if old(drain).budget == 0 {
                &&& *final(drain) == *old(drain)
                &&& drain_ended(old(self), *old(drain), final(self), r)
            } else {
                exists|mid: LocalOutputQueueState, pop: LocalOutputPop|
                    {
                        &&& #[trigger] local_queue::pop_result(
                            &old(self).local_input_queue.output,
                            now,
                            old(drain).prefer_deferred,
                            &mid,
                            pop,
                        )
                        &&& step_result(
                            old(self),
                            *old(drain),
                            &mid,
                            pop,
                            final(self),
                            *final(drain),
                            r,
                        )
                    }
            },
            match r {
                DrainStep::Egress { packet, reservation, .. } => {
                    &&& final(self).local_input_queue.output.holds(reservation)
                    &&& reservation.bytes == packet.charge
                },
                DrainStep::Transmit { packet, reservation, .. } => {
                    &&& final(self).local_input_queue.output.holds(reservation)
                    &&& reservation.bytes == packet.charge
                },
                _ => true,
            },
    {
        if drain.budget == 0 {
            return self.end_output_drain(drain);
        }
        let pop = self.local_input_queue.output.pop_ready_output(now, drain.prefer_deferred);
        let ghost taken = pop;
        let ghost mid = self.local_input_queue.output;
        assert(local_queue::pop_result(
            &old(self).local_input_queue.output,
            now,
            old(drain).prefer_deferred,
            &mid,
            taken,
        ));
        match pop {
            LocalOutputPop::DeferredUntil(retry_at) => {
                self.local_input_queue.output_draining = false;
                DrainStep::Finished(
                    LocalOutputDrainResult::new(
                        drain.work_done,
                        LocalOutputDrainState::Backpressured,
                    ),
                    Some(retry_at),
                )
            },
            LocalOutputPop::Empty => { self.end_output_drain(drain) },
            LocalOutputPop::Ready(packet, reservation, probe) => {
                drain.budget = drain.budget - 1;
                drain.work_done = drain.work_done + 1;
                drain.prefer_deferred = false;
                if probe.is_none() {
                    if let LocalOutputDisposition::Routed { oif, .. } = packet.disposition {
                        if oif != self.iface_id as u32 {
                            return DrainStep::Egress { oif, packet, reservation };
                        }
                        return self.admit_own_output(packet, reservation);
                    }
                }
                DrainStep::Transmit { packet, reservation, probe }
            },
        }
    }

    /// Decides what happens to a packet that leaves through this interface. `room` tells whether
    /// memory was set aside for it among those that wait for its neighbor.
    pub fn admit_own_reserved(
        &mut self,
        packet: LocalOutputPacket,
        reservation: LocalOutputReservation,
        room: bool,
    ) -> (r: DrainStep)
        requires
            old(self).wf(),
            old(self).local_input_queue.output.holds(reservation),
            packet.charge == reservation.bytes,
        ensures
            final(self).wf(),
            own_step(
                &old(self).local_input_queue.output,
                packet,
                reservation,
                room,
                &final(self).local_input_queue.output,
                r,
            ),
            final(self).settings_kept(old(self)),
            final(self).local_output_tx_backoff_us == old(self).local_output_tx_backoff_us,
            final(self).local_input_queue.output_draining
                == old(self).local_input_queue.output_draining,
    {
        let committed = reservation.commit_existing_reserved(
            &mut self.local_input_queue.output,
            packet,
            room,
        );
        match committed {
            ExistingDeferredCommit::Queued(retry_at) => DrainStep::Absorbed(Some(retry_at)),
            ExistingDeferredCommit::Missing(packet, reservation) => DrainStep::Transmit {
                packet,
                reservation,
                probe: None,
            },
            ExistingDeferredCommit::Full(packet, reservation) => {
                reservation.release(&mut self.local_input_queue.output);
                self.local_input_queue.recycle_output(packet.frame);
                DrainStep::Absorbed(None)
            },
        }
    }

    fn admit_own_output(
        &mut self,
        packet: LocalOutputPacket,
        reservation: LocalOutputReservation,
    ) -> (r: DrainStep)
        requires
            old(self).wf(),
            old(self).local_input_queue.output.holds(reservation),
            packet.charge == reservation.bytes,
            packet.disposition matches LocalOutputDisposition::Routed { oif, .. } && oif == old(self).iface_id as u32,
        ensures
            final(self).wf(),
            step_of(
                old(self).iface_id,
                &old(self).local_input_queue.output,
                packet,
                reservation,
                None,
                &final(self).local_input_queue.output,
                r,
            ),
            final(self).settings_kept(old(self)),
            final(self).local_output_tx_backoff_us == old(self).local_output_tx_backoff_us,
            final(self).local_input_queue.output_draining == old(self).local_input_queue.output_draining,
            r matches DrainStep::Transmit { packet, reservation, .. } ==> {
                &&& final(self).local_input_queue.output.holds(reservation)
                &&& reservation.bytes == packet.charge
            },
            !(r is Egress),
    {
        let room = self.local_input_queue.output.deferred_routes.reserve_join(&packet);
        let r = self.admit_own_reserved(packet, reservation, room);
        assert(own_step(
            &old(self).local_input_queue.output,
            packet,
            reservation,
            room,
            &self.local_input_queue.output,
            r,
        ));
        r
    }

    /// Gives the room of a packet back that another interface took over, and keeps its buffer if
    /// the packet is done.
    pub fn settle_output(&mut self, reservation: LocalOutputReservation, frame: Option<Vec<u8>>)
        requires
            old(self).wf(),
            old(self).local_input_queue.output.holds(reservation),
        ensures
            final(self).wf(),
            room_returned(
                &old(self).local_input_queue.output,
                &final(self).local_input_queue.output,
                reservation,
            ),
            packets_kept(
                &old(self).local_input_queue.output,
                &final(self).local_input_queue.output,
            ),
            final(self).settings_kept(old(self)),
            final(self).local_output_tx_backoff_us == old(self).local_output_tx_backoff_us,
    {
        reservation.release(&mut self.local_input_queue.output);
        if let Some(frame) = frame {
            self.local_input_queue.recycle_output(frame);
        }
    }

    /// Lets a packet wait whose neighbor is not known, or gives its room back. `room` tells whether
    /// memory was set aside for it.
    pub fn await_neighbor(
        &mut self,
        reservation: LocalOutputReservation,
        packet: LocalOutputPacket,
        retry_at: Instant,
        probe_sent: bool,
        room: bool,
    ) -> (r: Result<(), LocalOutputPacket>)
        requires
            old(self).wf(),
            old(self).local_input_queue.output.holds(reservation),
            packet.charge == reservation.bytes,
        ensures
            final(self).wf(),
            neighbor_awaited(
                &old(self).local_input_queue.output,
                reservation,
                packet,
                retry_at,
                probe_sent,
                room,
                &final(self).local_input_queue.output,
                r is Ok,
            ),
            r matches Err(p) ==> p == packet,
            final(self).settings_kept(old(self)),
            final(self).local_output_tx_backoff_us == old(self).local_output_tx_backoff_us,
            final(self).local_input_queue.output_draining
                == old(self).local_input_queue.output_draining,
    {
        match reservation.commit_deferred_reserved(
            &mut self.local_input_queue.output,
            packet,
            retry_at,
            probe_sent,
            true,
            room,
        ) {
            Ok(_) => Ok(()),
            Err(packet) => Err(packet),
        }
    }

    /// Ends the transmission of a packet of a drain. Returns the deadline to publish.
    pub fn complete_transmit(
        &mut self,
        reservation: LocalOutputReservation,
        probe: Option<DeferredRouteKey>,
        result: LocalOutputTransmitResult,
        observed_generation: u64,
        now: Instant,
    ) -> (r: Option<Instant>)
        requires
            old(self).wf(),
            old(self).local_input_queue.output.holds(reservation),
            returned_packet(result).charge == reservation.bytes,
            now + Self::LOCAL_OUTPUT_TX_BACKOFF_MAX_US <= i64::MAX,
            result is RetryAt ==> returned_packet(result).disposition is Routed,
            probe matches Some(key) ==> deferred_queue::in_flight_in(
                old(self).local_input_queue.output.deferred_routes@,
                key,
            ) ==> old(self).local_input_queue.output.deferred_routes@[key.spec_packed()].probe_bytes
                == reservation.bytes,
        ensures
            final(self).wf(),
            transmit_effect(
                old(self),
                reservation,
                probe,
                result,
                observed_generation,
                now,
                final(self),
                r,
            ),
            final(self).settings_kept(old(self)),
    {
        match result {
            LocalOutputTransmitResult::Sent(packet) => {
                self.reset_local_output_tx_backoff();
                match probe {
                    Some(key) => {
                        self.local_input_queue.output.complete_deferred_probe_success(key);
                    },
                    None => {
                        if let LocalOutputDisposition::Routed { oif, next_hop, .. } =
                            packet.disposition {
                            let _released = self.local_input_queue.output.release_neighbor(
                                oif,
                                next_hop,
                            );
                        }
                    },
                }
                reservation.release(&mut self.local_input_queue.output);
                self.local_input_queue.recycle_output(packet.frame);
                None
            },
            LocalOutputTransmitResult::Drop(packet, _) => {
                self.reset_local_output_tx_backoff();
                if let Some(key) = probe {
                    self.local_input_queue.output.complete_deferred_packet_failure(key);
                }
                reservation.release(&mut self.local_input_queue.output);
                self.local_input_queue.recycle_output(packet.frame);
                None
            },
            LocalOutputTransmitResult::RetrySoon(packet) => {
                self.retry_refused(reservation, probe, packet, observed_generation, now)
            },
            LocalOutputTransmitResult::RetryAt { packet, retry_at, probe_sent } => {
                self.reset_local_output_tx_backoff();
                match probe {
                    Some(key) => self.return_probe(reservation, packet, key, retry_at, probe_sent),
                    None => {
                        let own = match packet.disposition {
                            LocalOutputDisposition::Routed { oif, .. } => oif
                                == self.iface_id as u32,
                            _ => false,
                        };
                        if !own {
                            reservation.release(&mut self.local_input_queue.output);
                            self.local_input_queue.recycle_output(packet.frame);
                            return None;
                        }
                        let room = self.local_input_queue.output.room_for(&packet);
                        let queued = self.await_neighbor(
                            reservation,
                            packet,
                            retry_at,
                            probe_sent,
                            room,
                        );
                        assert(neighbor_awaited(
                            &old(self).local_input_queue.output,
                            reservation,
                            packet,
                            retry_at,
                            probe_sent,
                            room,
                            &self.local_input_queue.output,
                            queued is Ok,
                        ));
                        assert(neighbor_awaited_or_not(
                            &old(self).local_input_queue.output,
                            reservation,
                            packet,
                            retry_at,
                            probe_sent,
                            &self.local_input_queue.output,
                            queued is Ok,
                        ));
                        match queued {
                            Ok(_) => Some(retry_at),
                            Err(packet) => {
                                self.local_input_queue.recycle_output(packet.frame);
                                None
                            },
                        }
                    },
                }
            },
        }
    }

    fn retry_refused(
        &mut self,
        reservation: LocalOutputReservation,
        probe: Option<DeferredRouteKey>,
        packet: LocalOutputPacket,
        observed_generation: u64,
        now: Instant,
    ) -> (r: Option<Instant>)
        requires
            old(self).wf(),
            old(self).local_input_queue.output.holds(reservation),
            packet.charge == reservation.bytes,
            now + Self::LOCAL_OUTPUT_TX_BACKOFF_MAX_US <= i64::MAX,
        ensures
            final(self).wf(),
            transmit_effect(
                old(self),
                reservation,
                probe,
                LocalOutputTransmitResult::RetrySoon(packet),
                observed_generation,
                now,
                final(self),
                r,
            ),
            final(self).settings_kept(old(self)),
    {
        let delay: u64 = self.next_local_output_tx_backoff_us();
        let retry_at: i64 = now + delay as i64;
        if let Some(key) = probe {
            self.local_input_queue.output.complete_deferred_packet_failure(key);
        }
        let ghost middle = self.local_input_queue.output.packets@;
        reservation.requeue_backpressured(&mut self.local_input_queue.output, packet, retry_at);
        let ghost waiting = self.local_input_queue.output.backpressured@;
        assert(waiting.len() > 0);
        if self.release_tx_backpressure_after(observed_generation) {
            None
        } else {
            Some(retry_at)
        }
    }

    fn return_probe(
        &mut self,
        reservation: LocalOutputReservation,
        packet: LocalOutputPacket,
        key: DeferredRouteKey,
        retry_at: Instant,
        probe_sent: bool,
    ) -> (r: Option<Instant>)
        requires
            old(self).wf(),
            old(self).local_input_queue.output.holds(reservation),
            packet.charge == reservation.bytes,
            deferred_queue::in_flight_in(old(self).local_input_queue.output.deferred_routes@, key)
                ==> old(self).local_input_queue.output.deferred_routes@[key.spec_packed()].probe_bytes
                == reservation.bytes,
        ensures
            final(self).wf(),
            probe_returned(
                &old(self).local_input_queue.output,
                reservation,
                packet,
                key,
                retry_at,
                probe_sent,
                &final(self).local_input_queue.output,
                r,
            ),
            final(self).settings_kept(old(self)),
            final(self).local_output_tx_backoff_us == old(self).local_output_tx_backoff_us,
    {
        let finished = reservation.finish_deferred_probe(
            &mut self.local_input_queue.output,
            packet,
            key,
            retry_at,
            probe_sent,
        );
        match finished {
            Ok(resolved) => {
                if resolved {
                    None
                } else {
                    Some(retry_at)
                }
            },
            Err(packet) => {
                self.local_input_queue.output.complete_deferred_packet_failure(key);
                self.local_input_queue.recycle_output(packet.frame);
                None
            },
        }
    }
}

/// What the end of a transmission does. A packet that was sent or dropped gives its room back, and the
/// delay starts over. One that the device refused is still queued: until the delay has passed, which
/// then doubles up to a tenth of a second, or at once if one of the device's transmissions ended in the
/// meantime.
pub proof fn law_transmit(
    o: IfaceCommon,
    reservation: LocalOutputReservation,
    probe: Option<DeferredRouteKey>,
    result: LocalOutputTransmitResult,
    observed_generation: u64,
    now: Instant,
    n: IfaceCommon,
    deadline: Option<Instant>,
)
    requires
        o.wf(),
        now + 100_000 <= i64::MAX,
        transmit_effect(
            &o,
            reservation,
            probe,
            result,
            observed_generation,
            now,
            &n,
            deadline,
        ),
    ensures
        ({
            let before = o.local_input_queue.output;
            let after = n.local_input_queue.output;
            match result {
                LocalOutputTransmitResult::Sent(_) | LocalOutputTransmitResult::Drop(..) => {
                    &&& deadline is None
                    &&& n.local_output_tx_backoff_us == 1000
                    &&& after.frames == before.frames
                    &&& after.bytes == before.bytes
                    &&& after.reserved_frames == before.reserved_frames - 1
                    &&& after.reserved_bytes == before.reserved_bytes - reservation.bytes
                    &&& after.backpressured@ == before.backpressured@
                },
                LocalOutputTransmitResult::RetrySoon(packet) => {
                    &&& after.frames == before.frames + 1
                    &&& after.frames + after.reserved_frames == before.frames
                        + before.reserved_frames
                    &&& after.bytes + after.reserved_bytes == before.bytes + before.reserved_bytes
                    &&& if o.tx_completion_generation == observed_generation {
                        &&& deadline == Some((now + o.local_output_tx_backoff_us) as i64)
                        &&& after.backpressured@.len() == before.backpressured@.len() + 1
                        &&& exists|i: int|
                            0 <= i < after.backpressured@.len() && (
                            #[trigger] after.backpressured@[i]).packet == packet
                                && after.backpressured@[i].retry_at == now
                                + o.local_output_tx_backoff_us
                        &&& n.local_output_tx_backoff_us == (if o.local_output_tx_backoff_us
                            <= 50_000 {
                            2 * o.local_output_tx_backoff_us
                        } else {
                            100_000
                        })
                    } else {
                        &&& deadline is None
                        &&& after.backpressured@.len() == 0
                        &&& after.packets@.contains(packet)
                        &&& n.local_output_tx_backoff_us == 1000
                    }
                },
                LocalOutputTransmitResult::RetryAt { retry_at, .. } => {
                    &&& n.local_output_tx_backoff_us == 1000
                    &&& deadline is Some ==> deadline == Some(retry_at)
                    &&& after.backpressured@ == before.backpressured@
                    &&& after.frames + after.reserved_frames <= before.frames
                        + before.reserved_frames
                    &&& deadline is Some ==> after.frames == before.frames + 1
                },
            }
        }),
        ({
            let before = o.local_input_queue.output;
            let after = n.local_input_queue.output;
            let m = before.deferred_routes@;
            match (result, probe) {
                (LocalOutputTransmitResult::Sent(_), Some(key)) => {
                    let k = (key.oif * 0x1_0000_0000 + key.next_hop.bits) as u64;
                    m.contains_key(k) && m[k].probe_in_flight ==> !after.deferred_routes@.contains_key(
                        k,
                    ) && after.packets@ == before.packets@ + m[k].packets
                },
                (LocalOutputTransmitResult::Sent(packet), None) => match packet.disposition {
                    LocalOutputDisposition::Routed { oif, next_hop: IpAddress::Ipv4(hop), .. } => {
                        let k = (oif * 0x1_0000_0000 + hop.bits) as u64;
                        m.contains_key(k) && !m[k].probe_in_flight
                            ==> !after.deferred_routes@.contains_key(k) && after.packets@
                            == before.packets@ + m[k].packets
                    },
                    _ => after.packets@ == before.packets@ && after.deferred_routes@ == m,
                },
                (LocalOutputTransmitResult::Drop(..), None) => after.packets@ == before.packets@
                    && after.deferred_routes@ == m,
                (LocalOutputTransmitResult::Drop(..), Some(key)) => {
                    let k = (key.oif * 0x1_0000_0000 + key.next_hop.bits) as u64;
                    after.deferred_routes@.contains_key(k)
                        ==> !after.deferred_routes@[k].probe_in_flight
                },
                (LocalOutputTransmitResult::RetrySoon(_), Some(key)) => {
                    let k = (key.oif * 0x1_0000_0000 + key.next_hop.bits) as u64;
                    after.deferred_routes@.contains_key(k)
                        ==> !after.deferred_routes@[k].probe_in_flight
                },
                (LocalOutputTransmitResult::RetrySoon(_), None) => after.deferred_routes@ == m,
                (LocalOutputTransmitResult::RetryAt { packet, .. }, None) => {
                    &&& after.packets@ == before.packets@
                    &&& packet.disposition matches LocalOutputDisposition::Routed { oif, .. } && (oif
                        != o.iface_id as u32 ==> deadline is None && after.deferred_routes@ == m
                        && after.reserved_frames == before.reserved_frames - 1)
                },
                (LocalOutputTransmitResult::RetryAt { .. }, Some(_)) => true,
            }
        }),
{
    let w = o.local_input_queue.output.backpressured@;
    let at = (now + o.local_output_tx_backoff_us) as i64;
    local_queue::law_insertion_point(w, at);
    if let (LocalOutputTransmitResult::Sent(packet), None) = (result, probe) {
        if let LocalOutputDisposition::Routed { oif, next_hop: IpAddress::Ipv4(hop), .. } =
            packet.disposition {
            law_neighbor_released(
                o.local_input_queue.output,
                oif,
                IpAddress::Ipv4(hop),
                n.local_input_queue.output,
            );
        }
    }
    if let LocalOutputTransmitResult::RetrySoon(packet) = result {
        let p = local_queue::insertion_point(w, at) as int;
        let entry = BackpressuredLocalOutput { retry_at: at, packet };
        let waiting = w.insert(p, entry);
        assert(waiting[p] == entry);
        assert(local_queue::parked(waiting)[p] == packet);
        if o.tx_completion_generation != observed_generation {
            let ready = n.local_input_queue.output.packets@;
            let m = ready.len() - local_queue::parked(waiting).len();
            assert(ready[m + p] == packet);
        }
    }
}

/// What a packet that was sent does for others: if it was a probe, its neighbor is known, and all that
/// waited for it become ready behind those that are, in their order; nobody waits for it any longer.
pub proof fn law_sent_frees_neighbor(
    o: LocalOutputQueueState,
    key: DeferredRouteKey,
    n: LocalOutputQueueState,
)
    requires
        probe_success(&o, key, &n),
    ensures
        ({
            let k = (key.oif * 0x1_0000_0000 + key.next_hop.bits) as u64;
            let waited = o.deferred_routes@.contains_key(k) && o.deferred_routes@[k].probe_in_flight;
            &&& n.backpressured@ == o.backpressured@
            &&& waited ==> {
                &&& !n.deferred_routes@.contains_key(k)
                &&& n.packets@.len() == o.packets@.len() + o.deferred_routes@[k].packets.len()
                &&& forall|i: int| 0 <= i < o.packets@.len() ==> #[trigger] n.packets@[i] == o.packets@[i]
                &&& forall|i: int|
                    0 <= i < o.deferred_routes@[k].packets.len() ==> n.packets@[o.packets@.len() + i]
                        == #[trigger] o.deferred_routes@[k].packets[i]
            }
            &&& !waited ==> n.packets@ == o.packets@ && n.deferred_routes@ == o.deferred_routes@
            &&& forall|j: u64| j != k ==> #[trigger] n.deferred_routes@.contains_key(j)
                == o.deferred_routes@.contains_key(j)
            &&& forall|j: u64|
                j != k && #[trigger] o.deferred_routes@.contains_key(j) ==> n.deferred_routes@[j]
                    == o.deferred_routes@[j]
        }),
{
}

/// What a step does with a packet that was taken: a routed one for another interface goes there; one
/// for this interface joins those that wait for its neighbor, so that it overtakes none, and is sent
/// only if nobody waits; a probe and everything else is sent. Whatever is sent or handed over keeps its
/// room until that is settled.
pub proof fn law_step(
    iface_id: usize,
    mid: LocalOutputQueueState,
    packet: LocalOutputPacket,
    reservation: LocalOutputReservation,
    probe: Option<DeferredRouteKey>,
    after: LocalOutputQueueState,
    step: DrainStep,
    to: u32,
    next_hop: Ipv4Address,
    ip_mtu: usize,
)
    requires
        step_of(iface_id, &mid, packet, reservation, probe, &after, step),
    ensures
        probe is Some || !(packet.disposition is Routed) ==> {
            &&& step == (DrainStep::Transmit { packet, reservation, probe })
            &&& after.same(&mid)
        },
        probe is None && packet.disposition == (LocalOutputDisposition::Routed {
            oif: to,
            next_hop: IpAddress::Ipv4(next_hop),
            ip_mtu,
        }) ==> {
            let k = (to * 0x1_0000_0000 + next_hop.bits) as u64;
            if to != iface_id as u32 {
                &&& step == (DrainStep::Egress { oif: to, packet, reservation })
                &&& after.same(&mid)
            } else if !mid.deferred_routes@.contains_key(k) {
                &&& step == (DrainStep::Transmit { packet, reservation, probe: None })
                &&& after.same(&mid)
            } else {
                let w = mid.deferred_routes@[k];
                let fits = w.packets.len() + 1 + (if w.probe_in_flight {
                    1int
                } else {
                    0
                }) <= 64 && w.bytes + w.probe_bytes + packet.charge <= 0x4_0000;
                &&& !fits ==> step == DrainStep::Absorbed(None)
                &&& step matches DrainStep::Absorbed(queued) && match queued {
                    Some(at) => {
                        &&& at == mid.deferred_routes@[k].retry_at
                        &&& after.deferred_routes@.contains_key(k)
                        &&& after.deferred_routes@[k].packets.last() == packet
                        &&& after.deferred_routes@[k].packets.drop_last()
                            == mid.deferred_routes@[k].packets
                        &&& after.frames == mid.frames + 1
                        &&& after.reserved_frames == mid.reserved_frames - 1
                    },
                    None => {
                        &&& after.deferred_routes@ == mid.deferred_routes@
                        &&& after.frames == mid.frames
                        &&& after.reserved_frames == mid.reserved_frames - 1
                    },
                }
                &&& after.packets@ == mid.packets@
                &&& after.backpressured@ == mid.backpressured@
            }
        },
{
    if probe is None && packet.disposition == (LocalOutputDisposition::Routed {
        oif: to,
        next_hop: IpAddress::Ipv4(next_hop),
        ip_mtu,
    }) && to == iface_id as u32 {
        let room = choose|room: bool| #[trigger]
            own_step(&mid, packet, reservation, room, &after, step);
        let outcome = match step {
            DrainStep::Absorbed(Some(retry_at)) => JoinDeferredResult::Queued(retry_at),
            DrainStep::Absorbed(None) => JoinDeferredResult::Full(packet),
            _ => JoinDeferredResult::Missing(packet),
        };
        deferred_queue::law_join(
            mid.deferred_routes@,
            packet,
            LocalInputQueue::limits(),
            room,
            after.deferred_routes@,
            outcome,
            to,
            next_hop,
        );
    }
}

/// A drain takes one packet for each unit of its budget, prefers neighbors only for its first, and ends
/// with the next time to try if all that is left waits, and with nothing to do at once only if nothing
/// is left.
pub proof fn law_drain(
    o: IfaceCommon,
    drain: OutputDrain,
    mid: LocalOutputQueueState,
    pop: LocalOutputPop,
    n: IfaceCommon,
    drained: OutputDrain,
    step: DrainStep,
)
    requires
        drain.budget > 0,
        drain.work_done + drain.budget <= usize::MAX,
        o.wf(),
        step_result(&o, drain, &mid, pop, &n, drained, step),
    ensures
        pop is Ready ==> {
            &&& drained.budget == drain.budget - 1
            &&& drained.work_done == drain.work_done + 1
            &&& !drained.prefer_deferred
            &&& !(step is Finished)
        },
        !(pop is Ready) ==> {
            &&& drained == drain
            &&& !n.local_input_queue.output_draining
            &&& step matches DrainStep::Finished(result, at) && {
                &&& result.work_done == drain.work_done
                &&& match pop {
                    LocalOutputPop::DeferredUntil(t) => at == Some(t) && result.state
                        is Backpressured,
                    _ => {
                        &&& at is None
                        &&& o.local_input_queue.output.packets@.len() > 0
                            || o.local_input_queue.output.backpressured@.len() > 0
                            ==> result.state is BudgetExhausted
                        &&& result.state is Quiescent ==> forall|k: u64|
                            !(#[trigger] o.local_input_queue.output.deferred_routes@.contains_key(
                                k,
                            ))
                        &&& result.state is Quiescent || result.state is BudgetExhausted
                    },
                }
            }
        },
{
}

/// A probe that found no neighbor goes back in front of those that wait, which are tried again at the time
/// that was named; if the neighbor was found in the meantime they all become ready, the probe first;
/// and if nobody knows of the probe it gives its room back.
pub proof fn law_probe_returned(
    before: LocalOutputQueueState,
    reservation: LocalOutputReservation,
    packet: LocalOutputPacket,
    key: DeferredRouteKey,
    retry_at: Instant,
    probe_sent: bool,
    after: LocalOutputQueueState,
    deadline: Option<Instant>,
)
    requires
        probe_returned(
            &before,
            reservation,
            packet,
            key,
            retry_at,
            probe_sent,
            &after,
            deadline,
        ),
    ensures
        ({
            let k = (key.oif * 0x1_0000_0000 + key.next_hop.bits) as u64;
            let m = before.deferred_routes@;
            let out = m.contains_key(k) && m[k].probe_in_flight;
            &&& after.backpressured@ == before.backpressured@
            &&& !out ==> deadline is None && after.packets@ == before.packets@
                && after.deferred_routes@ == m && after.frames == before.frames
            &&& out && m[k].resolved ==> {
                &&& deadline is None
                &&& !after.deferred_routes@.contains_key(k)
                &&& after.packets@.len() == before.packets@.len() + 1 + m[k].packets.len()
                &&& after.packets@[before.packets@.len() as int] == packet
                &&& forall|i: int|
                    0 <= i < m[k].packets.len() ==> after.packets@[before.packets@.len() + 1 + i]
                        == #[trigger] m[k].packets[i]
            }
            &&& out && !m[k].resolved ==> {
                let b = after.deferred_routes@[k];
                &&& deadline == Some(retry_at)
                &&& after.deferred_routes@.contains_key(k)
                &&& b.retry_at == retry_at
                &&& !b.probe_in_flight
                &&& b.packets[0] == packet
                &&& b.packets.skip(1) == m[k].packets
                &&& after.packets@ == before.packets@
                &&& after.frames == before.frames + 1
            }
        }),
{
    let k = key.spec_packed();
    let m = before.deferred_routes@;
    if m.contains_key(k) && m[k].probe_in_flight && !m[k].resolved {
        let b = after.deferred_routes@[k];
        assert(b.packets.skip(1) =~= m[k].packets);
    }
}

/// A packet whose neighbor is not known waits for it behind the others, until the time that was named,
/// or gives its room back because there is no memory or too many wait; nothing else changes.
pub proof fn law_neighbor_awaited(
    before: LocalOutputQueueState,
    reservation: LocalOutputReservation,
    packet: LocalOutputPacket,
    retry_at: Instant,
    probe_sent: bool,
    room: bool,
    after: LocalOutputQueueState,
    queued: bool,
    oif: u32,
    next_hop: Ipv4Address,
)
    requires
        neighbor_awaited(
            &before,
            reservation,
            packet,
            retry_at,
            probe_sent,
            room,
            &after,
            queued,
        ),
        packet.disposition matches LocalOutputDisposition::Routed { oif: o, next_hop: h, .. } && o
            == oif && h == IpAddress::Ipv4(next_hop),
    ensures
        ({
            let k = (oif * 0x1_0000_0000 + next_hop.bits) as u64;
            let m = before.deferred_routes@;
            let b = after.deferred_routes@[k];
            &&& after.packets@ == before.packets@
            &&& after.backpressured@ == before.backpressured@
            &&& queued <==> room && (m.contains_key(k) ==> m[k].packets.len() + 1 + (
            if m[k].probe_in_flight {
                1int
            } else {
                0
            }) <= 64 && m[k].bytes + m[k].probe_bytes + packet.charge <= 0x4_0000)
            &&& queued ==> {
                &&& after.deferred_routes@.contains_key(k)
                &&& b.packets.last() == packet
                &&& b.retry_at == retry_at
                &&& m.contains_key(k) ==> b.packets.drop_last() == m[k].packets
                &&& !m.contains_key(k) ==> b.packets.len() == 1
                &&& after.frames == before.frames + 1
                &&& after.reserved_frames == before.reserved_frames - 1
            }
            &&& !queued ==> {
                &&& after.deferred_routes@ == m
                &&& after.frames == before.frames
                &&& after.reserved_frames == before.reserved_frames - 1
                &&& after.reserved_bytes == before.reserved_bytes - reservation.bytes
            }
        }),
{
    let k = (DeferredRouteKey { oif, next_hop }).spec_packed();
    let m = before.deferred_routes@;
    if m.contains_key(k) {
        assert(m[k].packets.push(packet).drop_last() =~= m[k].packets);
    }
}

/// A packet that reached an IPv4 neighbor without a probe frees those that wait for that neighbor on
/// the same interface, and one to an IPv6 neighbor frees none.
pub proof fn law_neighbor_released(
    o: LocalOutputQueueState,
    oif: u32,
    next_hop: IpAddress,
    n: LocalOutputQueueState,
)
    requires
        neighbor_released(&o, oif, next_hop, &n),
    ensures
        n.backpressured@ == o.backpressured@,
        next_hop is Ipv6 ==> n.packets@ == o.packets@ && n.deferred_routes@ == o.deferred_routes@,
        next_hop matches IpAddress::Ipv4(hop) ==> {
            let k = (oif * 0x1_0000_0000 + hop.bits) as u64;
            &&& n.deferred_routes@.contains_key(k) ==> n.deferred_routes@[k].probe_in_flight
            &&& o.deferred_routes@.contains_key(k) && !o.deferred_routes@[k].probe_in_flight
                ==> n.packets@ == o.packets@ + o.deferred_routes@[k].packets
            &&& forall|j: u64| j != k ==> #[trigger] n.deferred_routes@.contains_key(j)
                == o.deferred_routes@.contains_key(j)
        },
{
    if let IpAddress::Ipv4(hop) = next_hop {
        deferred_queue::law_release(
            o.deferred_routes@,
            DeferredRouteKey { oif, next_hop: hop },
            o.packets@,
            n.deferred_routes@,
            n.packets@,
        );
        let k = (DeferredRouteKey { oif, next_hop: hop }).spec_packed();
        if o.deferred_routes@.contains_key(k) && !o.deferred_routes@[k].probe_in_flight {
            assert(n.packets@ =~= o.packets@ + o.deferred_routes@[k].packets);
        }
    }
}

} // verus!

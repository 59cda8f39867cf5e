//! Output of the TCP stack of a namespace, which has no device of its own.

use vstd::prelude::*;
use crate::net::addr::{Instant, Medium};
use crate::net::deferred_queue;
use crate::net::deferred_queue::BucketView;
use crate::net::local_queue;
use crate::net::local_queue::{
    LocalInputQueue, LocalOutputDisposition, LocalOutputPacket, LocalOutputPop,
    LocalOutputReservation,
};
use crate::net::output_drain;
use crate::net::phy::DeviceCapabilities;

verus! {

/// The output queue of a namespace.
pub struct TcpOutputQueue {
    pub queue: LocalInputQueue,
}

/// What a packet asks of the outside.
pub enum TcpDrainStep {
    /// The drain is over. Tells whether packets are left.
    Finished(bool),
    /// The packet is offered to interface `oif`.
    Route { oif: u32, packet: LocalOutputPacket, reservation: LocalOutputReservation },
    /// The packet is handed to the stack of interface `oif`, if it fits.
    Deliver { oif: u32, ip_mtu: usize, packet: LocalOutputPacket, reservation: LocalOutputReservation },
    /// The packet was dropped.
    Dropped,
}

/// No packet is for a device of the queue's owner.
pub open spec fn none_native(packets: Seq<LocalOutputPacket>) -> bool {
    forall|i: int| 0 <= i < packets.len() ==> !((#[trigger] packets[i]).disposition is NativeOwner)
}

impl TcpOutputQueue {
    /// The queue is sound, and nothing in it waits for a neighbor or a device: those packets wait
    /// at the interface that they leave through.
    pub open spec fn wf(&self) -> bool {
        &&& self.queue.wf()
        &&& self.queue.output.backpressured@.len() == 0
        &&& self.queue.output.deferred_routes@ == Map::<u64, BucketView>::empty()
        &&& none_native(self.queue.output.packets@)
    }

    /// A queue without packets.
    pub fn new() -> (r: Self)
        ensures
            r.wf(),
            !r.queue.output.occupied(),
            !r.queue.output_draining,
    {
        TcpOutputQueue { queue: LocalInputQueue::new() }
    }

    /// Starts a drain. If one is under way, tells whether packets are left.
    pub fn begin_drain(&mut self) -> (r: Result<(), bool>)
        requires
            old(self).wf(),
        ensures
            final(self).wf(),
            r == (if old(self).queue.output_draining {
                Err(old(self).queue.output.occupied())
            } else {
                Ok(())
            }),
            final(self).queue.output_draining,
            final(self).queue.output == old(self).queue.output,
            final(self).queue.state == old(self).queue.state,
    {
        if !self.queue.try_begin_output_drain() {
            return Err(self.queue.output.has_output());
        }
        Ok(())
    }

    /// Takes the next packet of a drain. `budget` tells how many may still be taken.
    pub fn drain(&mut self, budget: usize, now: Instant) -> (r: TcpDrainStep)
        requires
            old(self).wf(),
        ensures
            final(self).wf(),
            final(self).queue.state == old(self).queue.state,
            ({
                let before = old(self).queue.output;
                let after = final(self).queue.output;
                if budget == 0 || before.packets@.len() == 0 {
                    &&& r == TcpDrainStep::Finished(before.occupied())
                    &&& !final(self).queue.output_draining
                    &&& after.same(&before)
                } else {
                    let packet = before.packets@[0];
                    &&& final(self).queue.output_draining == old(self).queue.output_draining
                    &&& after.packets@ == before.packets@.skip(1)
                    &&& match packet.disposition {
                        LocalOutputDisposition::Routed { oif, .. } => r == (TcpDrainStep::Route {
                            oif,
                            packet,
                            reservation: LocalOutputReservation { bytes: packet.charge },
                        }),
                        LocalOutputDisposition::Local { oif, ip_mtu } => r == (
                        TcpDrainStep::Deliver {
                            oif,
                            ip_mtu,
                            packet,
                            reservation: LocalOutputReservation { bytes: packet.charge },
                        }),
                        _ => r is Dropped,
                    }
                    &&& after.frames == before.frames - 1
                    &&& after.bytes == before.bytes - packet.charge
                    &&& if r is Dropped {
                        &&& after.reserved_frames == before.reserved_frames
                        &&& after.reserved_bytes == before.reserved_bytes
                    } else {
                        &&& after.reserved_frames == before.reserved_frames + 1
                        &&& after.reserved_bytes == before.reserved_bytes + packet.charge
                        &&& after.holds(LocalOutputReservation { bytes: packet.charge })
                    }
                }
            }),
    {
        let ghost before = self.queue.output;
        proof {
            assert(before.lined_up(now) =~= before.packets@) by {
                assert(before.backpressured@.take(0) =~= before.backpressured@);
                assert(local_queue::parked(before.backpressured@) =~= Seq::empty());
                assert(local_queue::ripe(before.backpressured@, now) == 0);
            }
            assert(before.backpressured@.skip(0) =~= before.backpressured@);
        }
        if budget == 0 {
            return TcpDrainStep::Finished(self.queue.finish_output_drain());
        }
        let pop = self.queue.output.pop_ready_output(now, false);
        match pop {
            LocalOutputPop::Ready(packet, reservation, _) => {
                proof {
                    let rest = self.queue.output.packets@;
                    assert(rest =~= before.packets@.skip(1));
                    assert forall|i: int| 0 <= i < rest.len() implies !((
                    #[trigger] rest[i]).disposition is NativeOwner) by {
                        assert(rest[i] == before.packets@[i + 1]);
                    }
                    assert(!(before.packets@[0].disposition is NativeOwner));
                }
                match packet.disposition {
                    LocalOutputDisposition::Routed { oif, .. } => TcpDrainStep::Route {
                        oif,
                        packet,
                        reservation,
                    },
                    LocalOutputDisposition::Local { oif, ip_mtu } => TcpDrainStep::Deliver {
                        oif,
                        ip_mtu,
                        packet,
                        reservation,
                    },
                    _ => {
                        reservation.release(&mut self.queue.output);
                        self.queue.recycle_output(packet.frame);
                        TcpDrainStep::Dropped
                    },
                }
            },
            LocalOutputPop::Empty => TcpDrainStep::Finished(self.queue.finish_output_drain()),
            LocalOutputPop::DeferredUntil(_) => {
                proof {
                    assert(false);
                }
                TcpDrainStep::Dropped
            },
        }
    }

    /// Whether a packet fits the interface that it is delivered to.
    pub fn fits(packet: &LocalOutputPacket, ip_mtu: usize, iface_mtu: usize) -> (r: bool)
        ensures
            r == (packet.frame@.len() <= ip_mtu && packet.frame@.len() <= iface_mtu),
    {
        packet.frame.len() <= ip_mtu && packet.frame.len() <= iface_mtu
    }

    /// Gives the room of a packet back that was dealt with, and keeps its buffer if nobody else
    /// has it.
    pub fn settle(&mut self, reservation: LocalOutputReservation, frame: Option<Vec<u8>>)
        requires
            old(self).wf(),
            old(self).queue.output.holds(reservation),
        ensures
            final(self).wf(),
            output_drain::room_returned(
                &old(self).queue.output,
                &final(self).queue.output,
                reservation,
            ),
            output_drain::packets_kept(&old(self).queue.output, &final(self).queue.output),
            final(self).queue.state == old(self).queue.state,
            final(self).queue.output_draining == old(self).queue.output_draining,
    {
        reservation.release(&mut self.queue.output);
        if let Some(frame) = frame {
            self.queue.recycle_output(frame);
        }
    }
}

/// The limits of the TCP stack: bare IP packets of any length that IP allows.
pub fn transport_capabilities() -> (r: DeviceCapabilities)
    ensures
        r == (DeviceCapabilities {
            medium: Medium::Ip,
            max_transmission_unit: 65535,
            max_burst_size: None,
        }),
{
    DeviceCapabilities { medium: Medium::Ip, max_transmission_unit: 65535, max_burst_size: None }
}

} // verus!

//! Bounded queues between an interface's poll loop and the local stack.

use std::collections::VecDeque;
use vstd::prelude::*;
use crate::error::SystemError;
use crate::net::addr::{
    EthernetAddress, Instant, IpAddress, Ipv4Address, Ipv6Address, Medium, PacketMeta,
};
use crate::net::deferred_queue;
use crate::net::deferred_queue::{
    BucketView, DeferredRouteKey, DeferredRouteLimits, DeferredRouteQueue, JoinDeferredResult,
};
use crate::net::memory::{byte_capacity, try_reserve_bytes, try_reserve_deque};
use crate::net::wire;
use crate::net::wire::{ip_version, IpVersion};

verus! {

/// Everything that waits on its way through the local stack of one interface.
pub struct LocalInputQueue {
    pub state: LocalInputQueueState,
    pub response_scratch: LocalOutputScratchPool,
    pub output: LocalOutputQueueState,
    pub output_draining: bool,
}

impl LocalInputQueue {
    /// How many packets a queue holds at most.
    pub const MAX_FRAMES: usize = 1024;

    /// How many bytes a queue holds at most.
    pub const MAX_BYTES: usize = 0x40_0000;

    /// How many packets wait for one neighbor at most.
    pub const MAX_DEFERRED_FRAMES_PER_NEIGHBOR: usize = 64;

    /// How many bytes wait for one neighbor at most.
    pub const MAX_DEFERRED_BYTES_PER_NEIGHBOR: usize = 0x4_0000;

    /// How often a neighbor is probed before its packets are given up.
    pub const MAX_NEIGHBOR_PROBES: u8 = 3;

    /// What may wait for one neighbor.
    pub open spec fn limits() -> DeferredRouteLimits {
        DeferredRouteLimits {
            frames: Self::MAX_DEFERRED_FRAMES_PER_NEIGHBOR,
            bytes: Self::MAX_DEFERRED_BYTES_PER_NEIGHBOR,
        }
    }

    /// What may wait for one neighbor.
    pub fn deferred_route_limits() -> (r: DeferredRouteLimits)
        ensures
            r == Self::limits(),
    {
        DeferredRouteLimits {
            frames: Self::MAX_DEFERRED_FRAMES_PER_NEIGHBOR,
            bytes: Self::MAX_DEFERRED_BYTES_PER_NEIGHBOR,
        }
    }

    /// How many buffers are kept for reuse at most.
    pub const MAX_SCRATCH_FRAMES: usize = 64;

    /// How many bytes of buffers are kept for reuse at most.
    pub const MAX_SCRATCH_BYTES: usize = 0x4_0000;
}

/// What to do with an output packet, chosen before it is queued.
#[derive(Clone, Copy, Debug, PartialEq, Eq, Structural)]
pub enum LocalOutputDisposition {
    /// Hand it to the device that owns the queue.
    NativeOwner,
    /// Deliver it to an address of this host.
    Local { oif: u32, ip_mtu: usize },
    /// Send it through `oif` to `next_hop`.
    Routed { oif: u32, next_hop: IpAddress, ip_mtu: usize },
    /// Discard it.
    Drop,
}

impl LocalOutputDisposition {
    /// The context of a packet to discard.
    pub const DROP_CONTEXT: [u64; 3] = [0, 0, 0];

    /// The context of a packet for the device that owns the queue.
    pub const NATIVE_CONTEXT: [u64; 3] = [1, 0, 0];

    const LOCAL_TAG: u64 = 2;

    const IPV4_TAG: u64 = 4;

    const IPV6_TAG: u64 = 6;

    /// The three words that stand for a route.
    pub open spec fn spec_routed_context(oif: u32, next_hop: IpAddress) -> Seq<u64> {
        match next_hop {
            IpAddress::Ipv4(address) => seq![
                ((oif as u64) << 32) | 4u64,
                0u64,
                address.bits as u64,
            ],
            IpAddress::Ipv6(address) => seq![
                ((oif as u64) << 32) | 6u64,
                address.high,
                address.low,
            ],
        }
    }

    /// The three words that stand for delivery on this host.
    pub open spec fn spec_local_context(oif: u32) -> Seq<u64> {
        seq![((oif as u64) << 32) | 2u64, 0u64, 0u64]
    }

    /// What three words stand for. Words that no route writes mean "discard".
    pub open spec fn spec_from_context(context: Seq<u64>, ip_mtu: usize) -> Self {
        let oif = (context[0] >> 32) as u32;
        let tag = context[0] & 0xffff_ffffu64;
        if context =~= seq![1u64, 0u64, 0u64] {
            LocalOutputDisposition::NativeOwner
        } else if oif == 0 {
            LocalOutputDisposition::Drop
        } else if tag == 2 && context[1] == 0 && context[2] == 0 {
            LocalOutputDisposition::Local { oif, ip_mtu }
        } else if tag == 4 && context[1] == 0 && context[2] <= u32::MAX {
            LocalOutputDisposition::Routed {
                oif,
                next_hop: IpAddress::Ipv4(Ipv4Address { bits: context[2] as u32 }),
                ip_mtu,
            }
        } else if tag == 6 {
            LocalOutputDisposition::Routed {
                oif,
                next_hop: IpAddress::Ipv6(Ipv6Address { high: context[1], low: context[2] }),
                ip_mtu,
            }
        } else {
            LocalOutputDisposition::Drop
        }
    }

    /// Encodes a route through interface `oif`.
    pub fn routed_context(oif: u32, next_hop: IpAddress) -> (r: [u64; 3])
        requires
            oif != 0,
        ensures
            r@ == Self::spec_routed_context(oif, next_hop),
    {
        let r: [u64; 3] = match next_hop {
            IpAddress::Ipv4(address) => [
                ((oif as u64) << 32) | Self::IPV4_TAG,
                0,
                address.bits as u64,
            ],
            IpAddress::Ipv6(address) => [
                ((oif as u64) << 32) | Self::IPV6_TAG,
                address.high,
                address.low,
            ],
        };
        assert(r@ =~= Self::spec_routed_context(oif, next_hop));
        r
    }

    /// Encodes delivery on this host for interface `oif`.
    pub fn local_context(oif: u32) -> (r: [u64; 3])
        requires
            oif != 0,
        ensures
            r@ == Self::spec_local_context(oif),
    {
        let r: [u64; 3] = [((oif as u64) << 32) | Self::LOCAL_TAG, 0, 0];
        assert(r@ =~= Self::spec_local_context(oif));
        r
    }

    /// Decodes three words that came back from the stack.
    pub fn from_context(context: [u64; 3], ip_mtu: usize) -> (r: Self)
        ensures
            r == Self::spec_from_context(context@, ip_mtu),
    {
        let native = Self::NATIVE_CONTEXT;
        if context[0] == native[0] && context[1] == native[1] && context[2] == native[2] {
            assert(context@ =~= seq![1u64, 0u64, 0u64]);
            return LocalOutputDisposition::NativeOwner;
        }
        let oif: u32 = (context[0] >> 32) as u32;
        if oif == 0 {
            return LocalOutputDisposition::Drop;
        }
        let tag: u64 = context[0] & 0xffff_ffff;
        if tag == Self::LOCAL_TAG && context[1] == 0 && context[2] == 0 {
            return LocalOutputDisposition::Local { oif, ip_mtu };
        }
        if tag == Self::IPV4_TAG && context[1] == 0 && context[2] <= u32::MAX as u64 {
            let bits: u32 = context[2] as u32;
            return LocalOutputDisposition::Routed {
                oif,
                next_hop: IpAddress::Ipv4(Ipv4Address { bits }),
                ip_mtu,
            };
        }
        if tag == Self::IPV6_TAG {
            return LocalOutputDisposition::Routed {
                oif,
                next_hop: IpAddress::Ipv6(Ipv6Address { high: context[1], low: context[2] }),
                ip_mtu,
            };
        }
        LocalOutputDisposition::Drop
    }
}

/// Decoding an encoded route gives back the interface and the whole next-hop address.
pub proof fn law_routed_context_round_trip(oif: u32, next_hop: IpAddress, ip_mtu: usize)
    requires
        oif != 0,
    ensures
        LocalOutputDisposition::spec_from_context(
            LocalOutputDisposition::spec_routed_context(oif, next_hop),
            ip_mtu,
        ) == (LocalOutputDisposition::Routed { oif, next_hop, ip_mtu }),
{
    lemma_context_word(oif, 4);
    lemma_context_word(oif, 6);
}

/// Decoding an encoded local delivery gives back the interface.
pub proof fn law_local_context_round_trip(oif: u32, ip_mtu: usize)
    requires
        oif != 0,
    ensures
        LocalOutputDisposition::spec_from_context(
            LocalOutputDisposition::spec_local_context(oif),
            ip_mtu,
        ) == (LocalOutputDisposition::Local { oif, ip_mtu }),
{
    lemma_context_word(oif, 2);
}

/// The fixed contexts decode to what they stand for.
pub proof fn law_fixed_contexts(ip_mtu: usize)
    ensures
        LocalOutputDisposition::spec_from_context(
            LocalOutputDisposition::NATIVE_CONTEXT@,
            ip_mtu,
        ) == LocalOutputDisposition::NativeOwner,
        LocalOutputDisposition::spec_from_context(
            LocalOutputDisposition::DROP_CONTEXT@,
            ip_mtu,
        ) == LocalOutputDisposition::Drop,
{
    assert((0u64 >> 32) as u32 == 0u32) by (bit_vector);
    assert(LocalOutputDisposition::NATIVE_CONTEXT@ =~= seq![1u64, 0u64, 0u64]);
}

/// An interface number and a tag can be read back from the word that holds both.
proof fn lemma_context_word(oif: u32, tag: u64)
    requires
        tag <= 0xf,
    ensures
        ((((oif as u64) << 32) | tag) >> 32) as u32 == oif,
        (((oif as u64) << 32) | tag) & 0xffff_ffffu64 == tag,
        oif != 0 ==> (((oif as u64) << 32) | tag) != 1,
{
    assert(tag <= 0xf ==> ((((oif as u64) << 32) | tag) >> 32) as u32 == oif
        && (((oif as u64) << 32) | tag) & 0xffff_ffffu64 == tag && (oif != 0 ==> (((oif as u64)
        << 32) | tag) != 1)) by (bit_vector);
}

/// A packet on its way out of the local stack.
#[derive(Debug)]
pub struct LocalOutputPacket {
    pub medium: Medium,
    pub meta: PacketMeta,
    pub disposition: LocalOutputDisposition,
    pub frame: Vec<u8>,
    /// The bytes that the packet's buffer takes from the queue's budget.
    pub charge: usize,
}

/// An output packet that waits for its device until `retry_at`.
#[derive(Debug)]
pub struct BackpressuredLocalOutput {
    pub retry_at: Instant,
    pub packet: LocalOutputPacket,
}

/// A packet that was routed to this host.
#[derive(Debug)]
pub struct LocalInputPacket {
    pub ingress_ifindex: u32,
    pub destination_mac: EthernetAddress,
    pub source_mac: EthernetAddress,
    pub ip_packet: Vec<u8>,
}

impl LocalInputPacket {
    /// The bytes of the packet.
    pub fn len(&self) -> (r: usize)
        ensures
            r == self.ip_packet@.len(),
    {
        self.ip_packet.len()
    }

    /// The frame that a device of the given medium would have received, for a packet whose
    /// version is known.
    pub open spec fn spec_frame(&self, medium: Medium) -> Seq<u8> {
        if medium == Medium::Ip {
            self.ip_packet@
        } else {
            self.destination_mac.spec_octets() + self.source_mac.spec_octets() + (
            if wire::version_of(self.ip_packet@) == Some(IpVersion::Ipv4) {
                seq![0x08u8, 0x00u8]
            } else {
                seq![0x86u8, 0xddu8]
            }) + self.ip_packet@
        }
    }

    /// Puts the packet into a frame of the given medium, into an empty buffer. `room` tells whether
    /// memory was set aside for the frame.
    pub fn framed(self, medium: Medium, buffer: Vec<u8>, room: bool) -> (r: Result<
        Vec<u8>,
        SystemError,
    >)
        requires
            self.ip_packet@.len() > 0,
            buffer@.len() == 0,
        ensures
            match r {
                Ok(frame) => {
                    &&& wire::version_of(self.ip_packet@) is Some
                    &&& medium == Medium::Ip || (room && 14 + self.ip_packet@.len() <= usize::MAX)
                    &&& frame@ == self.spec_frame(medium)
                },
                Err(e) => if wire::version_of(self.ip_packet@) is None {
                    e == SystemError::EINVAL
                } else {
                    &&& medium == Medium::Ethernet
                    &&& if 14 + self.ip_packet@.len() > usize::MAX {
                        e == SystemError::EMSGSIZE
                    } else {
                        !room && e == SystemError::ENOMEM
                    }
                },
            },
    {
        let version = match ip_version(self.ip_packet.as_slice()) {
            Some(version) => version,
            None => {
                return Err(SystemError::EINVAL);
            },
        };
        if medium == Medium::Ip {
            return Ok(self.ip_packet);
        }
        if self.ip_packet.len() > usize::MAX - 14 {
            return Err(SystemError::EMSGSIZE);
        }
        if !room {
            return Err(SystemError::ENOMEM);
        }
        let mut frame = buffer;
        let destination = self.destination_mac.octets();
        let source = self.source_mac.octets();
        let ethertype: [u8; 2] = if version == IpVersion::Ipv4 {
            [0x08, 0x00]
        } else {
            [0x86, 0xdd]
        };
        frame.extend_from_slice(&destination);
        frame.extend_from_slice(&source);
        frame.extend_from_slice(&ethertype);
        frame.extend_from_slice(&self.ip_packet);
        assert(frame@ =~= self.spec_frame(medium));
        Ok(frame)
    }

    /// Puts the packet into a frame of the given medium. Allocation may fail.
    pub fn into_frame(self, medium: Medium) -> (r: Result<Vec<u8>, SystemError>)
        requires
            self.ip_packet@.len() > 0,
        ensures
            r matches Ok(frame) ==> wire::version_of(self.ip_packet@) is Some && frame@
                == self.spec_frame(medium),
            medium == Medium::Ip ==> (r is Ok <==> wire::version_of(self.ip_packet@) is Some),
            r == Err::<Vec<u8>, SystemError>(SystemError::EINVAL) <==> wire::version_of(self.ip_packet@)
                is None,
            r == Err::<Vec<u8>, SystemError>(SystemError::EMSGSIZE) <==> wire::version_of(
                self.ip_packet@,
            ) is Some && medium == Medium::Ethernet && 14 + self.ip_packet@.len() > usize::MAX,
            r matches Err(e) ==> e == SystemError::EINVAL || e == SystemError::EMSGSIZE || (e
                == SystemError::ENOMEM && medium == Medium::Ethernet),
    {
        let mut buffer: Vec<u8> = Vec::new();
        let frame_len: usize = 14usize.saturating_add(self.ip_packet.len());
        let room = medium == Medium::Ip || try_reserve_bytes(&mut buffer, frame_len);
        self.framed(medium, buffer, room)
    }
}

/// Packets that were routed to this host and wait for the stack.
#[derive(Debug)]
pub struct LocalInputQueueState {
    pub packets: VecDeque<LocalInputPacket>,
    pub bytes: usize,
}

/// The total length of `packets`.
pub open spec fn input_bytes(packets: Seq<LocalInputPacket>) -> nat
    decreases packets.len(),
{
    if packets.len() == 0 {
        0
    } else {
        input_bytes(packets.drop_last()) + packets.last().ip_packet@.len()
    }
}

proof fn lemma_input_bytes_add(a: Seq<LocalInputPacket>, b: Seq<LocalInputPacket>)
    ensures
        input_bytes(a + b) == input_bytes(a) + input_bytes(b),
    decreases b.len(),
{
    if b.len() == 0 {
        assert(a + b =~= a);
    } else {
        assert((a + b).drop_last() =~= a + b.drop_last());
        lemma_input_bytes_add(a, b.drop_last());
    }
}

impl LocalInputQueueState {
    /// The queue is within its limits and its byte count is right.
    pub open spec fn wf(&self) -> bool {
        &&& self.packets@.len() <= LocalInputQueue::MAX_FRAMES
        &&& self.bytes == input_bytes(self.packets@)
        &&& self.bytes <= LocalInputQueue::MAX_BYTES
    }

    /// One more packet of `len` bytes is within the limits.
    pub open spec fn has_room(&self, len: nat) -> bool {
        &&& self.packets@.len() < LocalInputQueue::MAX_FRAMES
        &&& self.bytes + len <= LocalInputQueue::MAX_BYTES
    }

    /// Appends a packet. `room` tells whether memory was set aside for it.
    pub fn enqueue_reserved(&mut self, packet: LocalInputPacket, room: bool) -> (r: Result<
        (),
        SystemError,
    >)
        requires
            old(self).wf(),
        ensures
            final(self).wf(),
            r == (if !old(self).has_room(packet.ip_packet@.len()) {
                Err(SystemError::ENOBUFS)
            } else if !room {
                Err(SystemError::ENOMEM)
            } else {
                Ok(())
            }),
            final(self).packets@ == (if r is Ok {
                old(self).packets@.push(packet)
            } else {
                old(self).packets@
            }),
    {
        if self.packets.len() >= LocalInputQueue::MAX_FRAMES || self.bytes.saturating_add(
            packet.len(),
        ) > LocalInputQueue::MAX_BYTES {
            return Err(SystemError::ENOBUFS);
        }
        if !room {
            return Err(SystemError::ENOMEM);
        }
        self.bytes = self.bytes + packet.len();
        self.packets.push_back(packet);
        assert(self.packets@.drop_last() =~= old(self).packets@);
        Ok(())
    }

    /// Appends a packet. Allocation may fail.
    pub fn enqueue(&mut self, packet: LocalInputPacket) -> (r: Result<(), SystemError>)
        requires
            old(self).wf(),
        ensures
            final(self).wf(),
            r == Err::<(), SystemError>(SystemError::ENOBUFS) <==> !old(self).has_room(
                packet.ip_packet@.len(),
            ),
            r matches Err(e) ==> e == SystemError::ENOBUFS || e == SystemError::ENOMEM,
            final(self).packets@ == (if r is Ok {
                old(self).packets@.push(packet)
            } else {
                old(self).packets@
            }),
    {
        let room = try_reserve_deque(&mut self.packets, 1);
        self.enqueue_reserved(packet, room)
    }

    /// Takes the oldest packet.
    pub fn pop(&mut self) -> (r: Option<LocalInputPacket>)
        requires
            old(self).wf(),
        ensures
            final(self).wf(),
            r == (if old(self).packets@.len() > 0 {
                Some(old(self).packets@[0])
            } else {
                None
            }),
            final(self).packets@ == (if old(self).packets@.len() > 0 {
                old(self).packets@.skip(1)
            } else {
                old(self).packets@
            }),
    {
        let packet = match self.packets.pop_front() {
            Some(packet) => packet,
            None => {
                return None;
            },
        };
        proof {
            let all = old(self).packets@;
            let rest = all.skip(1);
            assert(all =~= seq![packet] + rest);
            lemma_input_bytes_add(seq![packet], rest);
            reveal_with_fuel(input_bytes, 2);
            assert(seq![packet].drop_last() =~= Seq::<LocalInputPacket>::empty());
            assert(self.packets@ =~= rest);
        }
        self.bytes = self.bytes - packet.len();
        Some(packet)
    }

    /// Whether no packet waits.
    pub fn is_empty(&self) -> (r: bool)
        ensures
            r == (self.packets@.len() == 0),
    {
        self.packets.len() == 0
    }
}

/// Output packets of an interface, wherever they wait, and what is set aside for more.
pub struct LocalOutputQueueState {
    pub packets: VecDeque<LocalOutputPacket>,
    pub backpressured: VecDeque<BackpressuredLocalOutput>,
    pub deferred_routes: DeferredRouteQueue,
    pub frames: usize,
    pub bytes: usize,
    pub reserved_frames: usize,
    pub reserved_bytes: usize,
}

/// The packets of a list of waiting outputs.
pub open spec fn parked(waiting: Seq<BackpressuredLocalOutput>) -> Seq<LocalOutputPacket> {
    waiting.map_values(|q: BackpressuredLocalOutput| q.packet)
}

/// Deadlines do not decrease along the list.
pub open spec fn by_deadline(waiting: Seq<BackpressuredLocalOutput>) -> bool {
    forall|i: int, j: int|
        #![trigger waiting[i], waiting[j]]
        0 <= i <= j < waiting.len() ==> waiting[i].retry_at <= waiting[j].retry_at
}

/// How many outputs at the head of the list may be retried at time `now`.
pub open spec fn ripe(waiting: Seq<BackpressuredLocalOutput>, now: Instant) -> nat
    decreases waiting.len(),
{
    if waiting.len() > 0 && waiting[0].retry_at <= now {
        1 + ripe(waiting.skip(1), now)
    } else {
        0
    }
}

/// Where an output with deadline `retry_at` goes: after all that are due no later.
pub open spec fn insertion_point(waiting: Seq<BackpressuredLocalOutput>, retry_at: Instant) -> nat
    decreases waiting.len(),
{
    if waiting.len() == 0 {
        0
    } else if waiting.last().retry_at <= retry_at {
        waiting.len()
    } else {
        insertion_point(waiting.drop_last(), retry_at)
    }
}

/// Room for one output packet. It is given back, or spent by queueing a packet.
#[derive(Debug)]
pub struct LocalOutputReservation {
    pub bytes: usize,
}

/// The outcome of taking an output packet.
pub enum LocalOutputPop {
    /// A packet, the room that it occupied, and the neighbor that it probes.
    Ready(LocalOutputPacket, LocalOutputReservation, Option<DeferredRouteKey>),
    /// Nothing is ready before this time.
    DeferredUntil(Instant),
    Empty,
}

/// The outcome of joining packets that wait for the same neighbor.
pub enum ExistingDeferredCommit {
    Queued(Instant),
    Missing(LocalOutputPacket, LocalOutputReservation),
    Full(LocalOutputPacket, LocalOutputReservation),
}

impl LocalOutputQueueState {
    /// Counts match the packets, limits hold, and deadlines are in order.
    pub open spec fn wf(&self) -> bool {
        &&& self.deferred_routes.wf()
        &&& self.frames == self.packets@.len() + self.backpressured@.len()
            + self.deferred_routes.frames()
        &&& self.bytes == deferred_queue::charge_sum(self.packets@) + deferred_queue::charge_sum(parked(self.backpressured@))
            + self.deferred_routes.bytes()
        &&& self.frames + self.reserved_frames <= LocalInputQueue::MAX_FRAMES
        &&& self.bytes + self.reserved_bytes <= LocalInputQueue::MAX_BYTES
        &&& by_deadline(self.backpressured@)
    }

    /// `reservation` was taken from this queue and is still outstanding.
    pub open spec fn holds(&self, reservation: LocalOutputReservation) -> bool {
        self.reserved_frames > 0 && reservation.bytes <= self.reserved_bytes
    }

    /// Nothing but the room of `reservation` changes hands.
    pub open spec fn spent(&self, o: &LocalOutputQueueState, reservation: LocalOutputReservation) -> bool {
        &&& self.frames == o.frames + 1
        &&& self.bytes == o.bytes + reservation.bytes
        &&& self.reserved_frames == o.reserved_frames - 1
        &&& self.reserved_bytes == o.reserved_bytes - reservation.bytes
    }

    /// Queues and counts are the same.
    pub open spec fn same(&self, o: &LocalOutputQueueState) -> bool {
        &&& self.packets@ == o.packets@
        &&& self.backpressured@ == o.backpressured@
        &&& self.deferred_routes@ == o.deferred_routes@
        &&& self.frames == o.frames
        &&& self.bytes == o.bytes
        &&& self.reserved_frames == o.reserved_frames
        &&& self.reserved_bytes == o.reserved_bytes
    }

    /// Some packet waits somewhere.
    pub open spec fn occupied(&self) -> bool {
        ||| self.packets@.len() > 0
        ||| self.backpressured@.len() > 0
        ||| self.deferred_routes@ != Map::<u64, BucketView>::empty()
    }

    /// A queue without packets.
    pub fn new() -> (r: Self)
        ensures
            r.wf(),
            !r.occupied(),
            r.reserved_frames == 0,
            r.reserved_bytes == 0,
    {
        let r = LocalOutputQueueState {
            packets: VecDeque::new(),
            backpressured: VecDeque::new(),
            deferred_routes: DeferredRouteQueue::new(),
            frames: 0,
            bytes: 0,
            reserved_frames: 0,
            reserved_bytes: 0,
        };
        assert(parked(r.backpressured@) =~= Seq::empty());
        r
    }

    /// Whether some packet waits somewhere.
    pub fn has_output(&self) -> (r: bool)
        requires
            self.wf(),
        ensures
            r == self.occupied(),
    {
        self.packets.len() > 0 || self.backpressured.len() > 0 || !self.deferred_routes.is_empty()
    }

    /// Some packet can be taken at time `now`.
    pub open spec fn ready(&self, now: Instant) -> bool {
        ||| self.packets@.len() > 0
        ||| (self.backpressured@.len() > 0 && self.backpressured@[0].retry_at <= now)
        ||| exists|k: u64| deferred_queue::due_in(self.deferred_routes@, k, now)
    }

    /// Whether some packet can be taken at time `now`.
    pub fn has_ready_output(&self, now: Instant) -> (r: bool)
        requires
            self.wf(),
        ensures
            r == self.ready(now),
    {
        self.packets.len() > 0 || (self.backpressured.len() > 0 && self.backpressured[0].retry_at
            <= now) || self.deferred_routes.has_due(now)
    }

    /// Whether packets wait for neighbors.
    pub fn has_deferred_output(&self) -> (r: bool)
        requires
            self.wf(),
        ensures
            r == (self.deferred_routes@ != Map::<u64, BucketView>::empty()),
    {
        !self.deferred_routes.is_empty()
    }

    /// Sets room for one packet aside. `room` tells whether memory was set aside for it.
    pub fn reserve(&mut self, room: bool) -> (r: Option<LocalOutputReservation>)
        requires
            old(self).wf(),
        ensures
            final(self).wf(),
            r is Some <==> room && old(self).frames + old(self).reserved_frames
                < LocalInputQueue::MAX_FRAMES,
            r matches Some(reservation) ==> {
                &&& reservation.bytes == 0
                &&& final(self).holds(reservation)
                &&& final(self).reserved_frames == old(self).reserved_frames + 1
                &&& final(self).packets@ == old(self).packets@
                &&& final(self).backpressured@ == old(self).backpressured@
                &&& final(self).deferred_routes@ == old(self).deferred_routes@
                &&& final(self).frames == old(self).frames
                &&& final(self).bytes == old(self).bytes
                &&& final(self).reserved_bytes == old(self).reserved_bytes
            },
            r is None ==> final(self).same(old(self)),
    {
        if self.frames.saturating_add(self.reserved_frames) >= LocalInputQueue::MAX_FRAMES {
            return None;
        }
        if !room {
            return None;
        }
        self.reserved_frames = self.reserved_frames + 1;
        Some(LocalOutputReservation { bytes: 0 })
    }

    /// One more packet of `charge` bytes stays within the limits.
    pub open spec fn spec_admits(&self, charge: usize) -> bool {
        &&& self.frames + self.reserved_frames < LocalInputQueue::MAX_FRAMES
        &&& self.bytes + self.reserved_bytes + charge <= LocalInputQueue::MAX_BYTES
    }

    /// Whether one more packet of `charge` bytes stays within the limits.
    pub fn admits(&self, charge: usize) -> (r: bool)
        ensures
            r == self.spec_admits(charge),
    {
        self.frames.saturating_add(self.reserved_frames) < LocalInputQueue::MAX_FRAMES
            && self.bytes.saturating_add(self.reserved_bytes).saturating_add(charge)
            <= LocalInputQueue::MAX_BYTES
    }

    /// Sets memory aside for one more packet. Returns whether there was memory.
    pub fn make_room(&mut self) -> (r: bool)
        requires
            old(self).wf(),
        ensures
            final(self).wf(),
            final(self).same(old(self)),
    {
        let total: usize = self.frames.saturating_add(self.reserved_frames).saturating_add(1);
        let more: usize = total.saturating_sub(self.packets.len());
        let room = try_reserve_deque(&mut self.packets, more);
        let more: usize = total.saturating_sub(self.backpressured.len());
        try_reserve_deque(&mut self.backpressured, more) && room
    }

    /// Sets memory aside for one more packet that waits for its neighbor. Returns whether there was
    /// memory.
    pub fn room_for(&mut self, packet: &LocalOutputPacket) -> (r: bool)
        requires
            old(self).wf(),
        ensures
            final(self).wf(),
            final(self).same(old(self)),
    {
        match DeferredRouteKey::of(packet.disposition) {
            Some(key) => self.deferred_routes.reserve_for(key),
            None => false,
        }
    }

    /// Sets room for one packet aside. Allocation may fail.
    pub fn reserve_output(&mut self) -> (r: Option<LocalOutputReservation>)
        requires
            old(self).wf(),
        ensures
            final(self).wf(),
            r is Some ==> old(self).frames + old(self).reserved_frames
                < LocalInputQueue::MAX_FRAMES,
            r matches Some(reservation) ==> {
                &&& reservation.bytes == 0
                &&& final(self).holds(reservation)
                &&& final(self).reserved_frames == old(self).reserved_frames + 1
                &&& final(self).packets@ == old(self).packets@
                &&& final(self).backpressured@ == old(self).backpressured@
                &&& final(self).deferred_routes@ == old(self).deferred_routes@
                &&& final(self).frames == old(self).frames
                &&& final(self).bytes == old(self).bytes
                &&& final(self).reserved_bytes == old(self).reserved_bytes
            },
            r is None ==> final(self).same(old(self)),
    {
        let room = self.make_room();
        self.reserve(room)
    }

    /// Makes every packet that waits for its device ready. Returns whether there was one.
    pub fn release_backpressured_outputs(&mut self) -> (r: bool)
        requires
            old(self).wf(),
        ensures
            final(self).wf(),
            r == (old(self).backpressured@.len() > 0),
            final(self).packets@ == old(self).packets@ + parked(old(self).backpressured@),
            final(self).backpressured@.len() == 0,
            final(self).deferred_routes@ == old(self).deferred_routes@,
            final(self).frames == old(self).frames,
            final(self).bytes == old(self).bytes,
            final(self).reserved_frames == old(self).reserved_frames,
            final(self).reserved_bytes == old(self).reserved_bytes,
    {
        let ghost all = self.backpressured@;
        if self.backpressured.len() == 0 {
            assert(parked(all) =~= Seq::empty());
            assert(self.packets@ + parked(all) =~= self.packets@);
            return false;
        }
        proof {
            assert(parked(all.take(0)) =~= Seq::empty());
            assert(all.skip(0) =~= all);
            assert(self.packets@ + parked(all.take(0)) =~= self.packets@);
        }
        while self.backpressured.len() > 0
            invariant
                all == old(self).backpressured@,
                self.backpressured@.len() <= all.len(),
                self.backpressured@ == all.skip(all.len() - self.backpressured@.len()),
                self.packets@ == old(self).packets@ + parked(
                    all.take(all.len() - self.backpressured@.len()),
                ),
                self.deferred_routes == old(self).deferred_routes,
                self.frames == old(self).frames,
                self.bytes == old(self).bytes,
                self.reserved_frames == old(self).reserved_frames,
                self.reserved_bytes == old(self).reserved_bytes,
            decreases self.backpressured@.len(),
        {
            let ghost n = all.len() - self.backpressured@.len();
            let queued = self.backpressured.pop_front().unwrap();
            self.packets.push_back(queued.packet);
            proof {
                assert(self.backpressured@ =~= all.skip(n + 1));
                assert(self.packets@ =~= old(self).packets@ + parked(all.take(n + 1)));
            }
        }
        proof {
            assert(all.take(all.len() as int) =~= all);
            deferred_queue::lemma_charge_sum_add(old(self).packets@, parked(all));
            assert(parked(self.backpressured@) =~= Seq::empty());
        }
        true
    }

    /// Makes the packets whose neighbor is in `resolved` ready, in the order in which the neighbors
    /// stand in the backlog.
    pub fn release_resolved_outputs(&mut self, resolved: &[Ipv4Address])
        requires
            old(self).wf(),
        ensures
            final(self).wf(),
            forall|k: u64| #[trigger]
                final(self).deferred_routes@.contains_key(k) == (
                old(self).deferred_routes@.contains_key(k) && !deferred_queue::leaves(
                    old(self).deferred_routes@[k],
                    resolved@,
                )),
            forall|k: u64| #[trigger]
                final(self).deferred_routes@.contains_key(k) ==> final(self).deferred_routes@[k]
                    == deferred_queue::marked(old(self).deferred_routes@[k], resolved@),
            deferred_queue::in_order(
                old(self).deferred_routes@,
                old(self).deferred_routes.order(),
            ),
            final(self).packets@ == old(self).packets@ + deferred_queue::packets_of(
                old(self).deferred_routes@,
                deferred_queue::leaving(
                    old(self).deferred_routes@,
                    old(self).deferred_routes.order(),
                    resolved@,
                ),
            ),
            final(self).backpressured@ == old(self).backpressured@,
            final(self).frames == old(self).frames,
            final(self).bytes == old(self).bytes,
            final(self).reserved_frames == old(self).reserved_frames,
            final(self).reserved_bytes == old(self).reserved_bytes,
    {
        self.deferred_routes.release_resolved(resolved, &mut self.packets);
    }

    /// Records that a neighbor was resolved. Returns whether packets waited for it.
    ///
    /// Packets for IPv6 neighbors are never deferred.
    pub fn release_neighbor(&mut self, oif: u32, next_hop: IpAddress) -> (r: bool)
        requires
            old(self).wf(),
        ensures
            final(self).wf(),
            match next_hop {
                IpAddress::Ipv6(_) => !r && final(self).same(old(self)),
                IpAddress::Ipv4(next_hop) => {
                    let key = DeferredRouteKey { oif, next_hop };
                    &&& r == old(self).deferred_routes@.contains_key(key.spec_packed())
                    &&& deferred_queue::release_effect(
                        old(self).deferred_routes@,
                        key,
                        old(self).packets@,
                        final(self).deferred_routes@,
                        final(self).packets@,
                    )
                },
            },
            final(self).backpressured@ == old(self).backpressured@,
            final(self).frames == old(self).frames,
            final(self).bytes == old(self).bytes,
            final(self).reserved_frames == old(self).reserved_frames,
            final(self).reserved_bytes == old(self).reserved_bytes,
    {
        match next_hop {
            IpAddress::Ipv4(next_hop) => {
                let key = DeferredRouteKey { oif, next_hop };
                self.deferred_routes.release_neighbor(key, &mut self.packets)
            },
            IpAddress::Ipv6(_) => false,
        }
    }

    /// Ends a probe that got through.
    pub fn complete_deferred_probe_success(&mut self, key: DeferredRouteKey)
        requires
            old(self).wf(),
        ensures
            final(self).wf(),
            if deferred_queue::in_flight_in(old(self).deferred_routes@, key) {
                &&& final(self).deferred_routes@ == old(self).deferred_routes@.remove(
                    key.spec_packed(),
                )
                &&& final(self).packets@ == old(self).packets@
                    + old(self).deferred_routes@[key.spec_packed()].packets
            } else {
                &&& final(self).deferred_routes@ == old(self).deferred_routes@
                &&& final(self).packets@ == old(self).packets@
            },
            final(self).backpressured@ == old(self).backpressured@,
            final(self).frames == old(self).frames,
            final(self).bytes == old(self).bytes,
            final(self).reserved_frames == old(self).reserved_frames,
            final(self).reserved_bytes == old(self).reserved_bytes,
    {
        self.deferred_routes.complete_probe_success(key, &mut self.packets);
    }

    /// Ends a probe whose packet failed. Other packets to the neighbor stay eligible.
    pub fn complete_deferred_packet_failure(&mut self, key: DeferredRouteKey)
        requires
            old(self).wf(),
        ensures
            final(self).wf(),
            deferred_queue::failure_effect(
                old(self).deferred_routes@,
                key,
                old(self).packets@,
                final(self).deferred_routes@,
                final(self).packets@,
            ),
            final(self).backpressured@ == old(self).backpressured@,
            final(self).frames == old(self).frames,
            final(self).bytes == old(self).bytes,
            final(self).reserved_frames == old(self).reserved_frames,
            final(self).reserved_bytes == old(self).reserved_bytes,
    {
        self.deferred_routes.complete_packet_failure(key, &mut self.packets);
    }

    /// The packets that are ready at time `now`, without those that wait for neighbors.
    pub open spec fn lined_up(&self, now: Instant) -> Seq<LocalOutputPacket> {
        self.packets@ + parked(self.backpressured@.take(ripe(self.backpressured@, now) as int))
    }

    /// Moves the outputs whose deadline has come to the end of the ready queue.
    fn promote_ripe(&mut self, now: Instant)
        requires
            old(self).wf(),
        ensures
            final(self).wf(),
            final(self).packets@ == old(self).lined_up(now),
            final(self).backpressured@ == old(self).backpressured@.skip(
                ripe(old(self).backpressured@, now) as int,
            ),
            ripe(final(self).backpressured@, now) == 0,
            ripe(old(self).backpressured@, now) <= old(self).backpressured@.len(),
            final(self).deferred_routes == old(self).deferred_routes,
            final(self).frames == old(self).frames,
            final(self).bytes == old(self).bytes,
            final(self).reserved_frames == old(self).reserved_frames,
            final(self).reserved_bytes == old(self).reserved_bytes,
    {
        let ghost all = self.backpressured@;
        let ghost mut n: int = 0;
        proof {
            lemma_ripe_bound(all, now);
            assert(parked(all.take(0)) =~= Seq::empty());
            assert(all.skip(0) =~= all);
            assert(self.packets@ + parked(all.take(0)) =~= self.packets@);
        }
        while self.backpressured.len() > 0 && self.backpressured[0].retry_at <= now
            invariant
                all == old(self).backpressured@,
                0 <= n <= all.len(),
                n + ripe(all.skip(n), now) == ripe(all, now),
                self.backpressured@ == all.skip(n),
                self.packets@ == old(self).packets@ + parked(all.take(n)),
                self.deferred_routes == old(self).deferred_routes,
                self.frames == old(self).frames,
                self.bytes == old(self).bytes,
                self.reserved_frames == old(self).reserved_frames,
                self.reserved_bytes == old(self).reserved_bytes,
            decreases self.backpressured@.len(),
        {
            let queued = self.backpressured.pop_front().unwrap();
            self.packets.push_back(queued.packet);
            proof {
                assert(all.skip(n).skip(1) =~= all.skip(n + 1));
                assert(self.backpressured@ =~= all.skip(n + 1));
                assert(self.packets@ =~= old(self).packets@ + parked(all.take(n + 1)));
                n = n + 1;
            }
        }
        proof {
            deferred_queue::lemma_charge_sum_add(old(self).packets@, parked(all.take(n)));
            deferred_queue::lemma_charge_sum_add(parked(all.take(n)), parked(all.skip(n)));
            assert(parked(all) =~= parked(all.take(n)) + parked(all.skip(n)));
        }
    }

    /// Takes the next packet that is ready at time `now`, with the room that it occupied.
    ///
    /// A neighbor that is due comes first if `prefer_deferred` says so or nothing else is ready.
    pub fn pop_ready_output(&mut self, now: Instant, prefer_deferred: bool) -> (r: LocalOutputPop)
        requires
            old(self).wf(),
        ensures
            final(self).wf(),
            pop_result(old(self), now, prefer_deferred, final(self), r),
            r matches LocalOutputPop::Ready(packet, reservation, _) ==> {
                &&& reservation.bytes == packet.charge
                &&& final(self).holds(reservation)
                &&& final(self).frames == old(self).frames - 1
                &&& final(self).bytes == old(self).bytes - packet.charge
                &&& final(self).reserved_frames == old(self).reserved_frames + 1
                &&& final(self).reserved_bytes == old(self).reserved_bytes + packet.charge
            },
            !(r is Ready) ==> final(self).same(old(self)),
    {
        self.promote_ripe(now);
        let ghost mid = *self;
        let due = self.deferred_routes.has_due(now);
        let next: Option<(LocalOutputPacket, Option<DeferredRouteKey>)> = if due && (prefer_deferred
            || self.packets.len() == 0) {
            self.deferred_routes.pop_due(
                now,
                LocalInputQueue::MAX_NEIGHBOR_PROBES,
                &mut self.packets,
            )
        } else {
            match self.packets.pop_front() {
                Some(packet) => {
                    proof {
                        let rest = mid.packets@.skip(1);
                        assert(mid.packets@ =~= seq![packet] + rest);
                        deferred_queue::lemma_charge_sum_add(seq![packet], rest);
                        deferred_queue::lemma_charge_sum_one(packet);
                        assert(self.packets@ =~= rest);
                    }
                    Some((packet, None))
                },
                None => None,
            }
        };
        if let Some((packet, probe_key)) = next {
            let bytes: usize = packet.charge;
            self.frames = self.frames - 1;
            self.bytes = self.bytes - bytes;
            self.reserved_frames = self.reserved_frames + 1;
            self.reserved_bytes = self.reserved_bytes + bytes;
            return LocalOutputPop::Ready(packet, LocalOutputReservation { bytes }, probe_key);
        }
        proof {
            assert(mid.packets@.len() == 0);
            assert(old(self).packets@ =~= mid.packets@);
            assert(old(self).backpressured@.skip(0) =~= old(self).backpressured@);
        }
        match self.deferred_routes.next_retry() {
            Some(retry_at) => {
                if self.backpressured.len() > 0 && self.backpressured[0].retry_at < retry_at {
                    LocalOutputPop::DeferredUntil(self.backpressured[0].retry_at)
                } else {
                    LocalOutputPop::DeferredUntil(retry_at)
                }
            },
            None => {
                if self.backpressured.len() > 0 {
                    LocalOutputPop::DeferredUntil(self.backpressured[0].retry_at)
                } else {
                    LocalOutputPop::Empty
                }
            },
        }
    }
}

/// `t` is the earliest time at which something that waits can be retried.
pub open spec fn earliest(q: &LocalOutputQueueState, t: Instant) -> bool {
    let m = q.deferred_routes@;
    let w = q.backpressured@;
    &&& (w.len() > 0 && w[0].retry_at == t) || exists|k: u64| #[trigger]
        m.contains_key(k) && !m[k].probe_in_flight && m[k].retry_at == t
    &&& w.len() > 0 ==> t <= w[0].retry_at
    &&& forall|k: u64| #[trigger]
        m.contains_key(k) && !m[k].probe_in_flight ==> t <= m[k].retry_at
}

/// Which packet is taken at time `now`, and what stays.
pub open spec fn pop_result(
    before: &LocalOutputQueueState,
    now: Instant,
    prefer_deferred: bool,
    after: &LocalOutputQueueState,
    r: LocalOutputPop,
) -> bool {
    let line = before.lined_up(now);
    let m = before.deferred_routes@;
    let due = exists|k: u64| deferred_queue::due_in(m, k, now);
    if due && (prefer_deferred || line.len() == 0) {
        &&& r matches LocalOutputPop::Ready(packet, _, key)
        &&& exists|k: u64|
            deferred_queue::first_in(m, k) && deferred_queue::due_in(m, k, now)
                && deferred_queue::pop_effect(
                m,
                k,
                LocalInputQueue::MAX_NEIGHBOR_PROBES,
                line,
                after.deferred_routes@,
                after.packets@,
                packet,
                key,
            )
        &&& after.backpressured@ == before.backpressured@.skip(
            ripe(before.backpressured@, now) as int,
        )
    } else if line.len() > 0 {
        &&& r matches LocalOutputPop::Ready(packet, _, key)
        &&& packet == line[0]
        &&& key is None
        &&& after.packets@ == line.skip(1)
        &&& after.deferred_routes@ == m
        &&& after.backpressured@ == before.backpressured@.skip(
            ripe(before.backpressured@, now) as int,
        )
    } else {
        match r {
            LocalOutputPop::Ready(..) => false,
            LocalOutputPop::DeferredUntil(t) => earliest(before, t),
            LocalOutputPop::Empty => {
                &&& before.backpressured@.len() == 0
                &&& forall|k: u64| #[trigger] m.contains_key(k) ==> m[k].probe_in_flight
            },
        }
    }
}

proof fn lemma_ripe_bound(waiting: Seq<BackpressuredLocalOutput>, now: Instant)
    ensures
        ripe(waiting, now) <= waiting.len(),
    decreases waiting.len(),
{
    if waiting.len() > 0 && waiting[0].retry_at <= now {
        lemma_ripe_bound(waiting.skip(1), now);
    }
}

impl LocalOutputReservation {
    /// Gives the room back unused.
    pub fn release(self, output: &mut LocalOutputQueueState)
        requires
            old(output).wf(),
            old(output).holds(self),
        ensures
            final(output).wf(),
            final(output).reserved_frames == old(output).reserved_frames - 1,
            final(output).reserved_bytes == old(output).reserved_bytes - self.bytes,
            final(output).packets@ == old(output).packets@,
            final(output).backpressured@ == old(output).backpressured@,
            final(output).deferred_routes@ == old(output).deferred_routes@,
            final(output).frames == old(output).frames,
            final(output).bytes == old(output).bytes,
    {
        output.reserved_frames = output.reserved_frames - 1;
        output.reserved_bytes = output.reserved_bytes - self.bytes;
    }

    /// Changes how many bytes are set aside. Returns whether the queue had them.
    pub fn try_resize(&mut self, output: &mut LocalOutputQueueState, bytes: usize) -> (r: bool)
        requires
            old(output).wf(),
            old(output).holds(*old(self)),
        ensures
            final(output).wf(),
            final(output).holds(*final(self)),
            r == (old(output).bytes + old(output).reserved_bytes - old(self).bytes + bytes
                <= LocalInputQueue::MAX_BYTES),
            final(self).bytes == (if r {
                bytes
            } else {
                old(self).bytes
            }),
            final(output).reserved_bytes == old(output).reserved_bytes - old(self).bytes + final(self).bytes,
            !r ==> *final(output) == *old(output),
            final(output).reserved_frames == old(output).reserved_frames,
            final(output).packets@ == old(output).packets@,
            final(output).backpressured@ == old(output).backpressured@,
            final(output).deferred_routes@ == old(output).deferred_routes@,
            final(output).frames == old(output).frames,
            final(output).bytes == old(output).bytes,
    {
        let unreserved: usize = output.reserved_bytes - self.bytes;
        if output.bytes.saturating_add(unreserved).saturating_add(bytes)
            > LocalInputQueue::MAX_BYTES {
            return false;
        }
        output.reserved_bytes = unreserved + bytes;
        self.bytes = bytes;
        true
    }

    /// Moves the room of this reservation to the packets that are queued.
    fn spend(&self, output: &mut LocalOutputQueueState)
        requires
            old(output).holds(*self),
            old(output).frames < usize::MAX,
            old(output).bytes + self.bytes <= usize::MAX,
        ensures
            final(output).spent(old(output), *self),
            final(output).packets == old(output).packets,
            final(output).backpressured == old(output).backpressured,
            final(output).deferred_routes == old(output).deferred_routes,
    {
        output.reserved_frames = output.reserved_frames - 1;
        output.reserved_bytes = output.reserved_bytes - self.bytes;
        output.frames = output.frames + 1;
        output.bytes = output.bytes + self.bytes;
    }

    /// Appends `packet` to the ready queue.
    pub fn commit_packet(self, output: &mut LocalOutputQueueState, packet: LocalOutputPacket)
        requires
            old(output).wf(),
            old(output).holds(self),
            packet.charge == self.bytes,
        ensures
            final(output).wf(),
            final(output).spent(old(output), self),
            final(output).packets@ == old(output).packets@.push(packet),
            final(output).backpressured@ == old(output).backpressured@,
            final(output).deferred_routes@ == old(output).deferred_routes@,
    {
        self.spend(output);
        output.packets.push_back(packet);
        assert(output.packets@.drop_last() =~= old(output).packets@);
    }

    /// Lets `packet` wait for its device until `retry_at`, after all that are due no later.
    pub fn requeue_backpressured(
        self,
        output: &mut LocalOutputQueueState,
        packet: LocalOutputPacket,
        retry_at: Instant,
    )
        requires
            old(output).wf(),
            old(output).holds(self),
            packet.charge == self.bytes,
        ensures
            final(output).wf(),
            final(output).spent(old(output), self),
            final(output).backpressured@ == old(output).backpressured@.insert(
                insertion_point(old(output).backpressured@, retry_at) as int,
                (BackpressuredLocalOutput { retry_at, packet }),
            ),
            final(output).packets@ == old(output).packets@,
            final(output).deferred_routes@ == old(output).deferred_routes@,
    {
        let ghost w = output.backpressured@;
        self.spend(output);
        let queued = BackpressuredLocalOutput { retry_at, packet };
        let count: usize = output.backpressured.len();
        let mut index: usize = 0;
        while index < count && output.backpressured[index].retry_at <= retry_at
            invariant
                index <= count,
                count == output.backpressured@.len(),
                output.backpressured@ == w,
                forall|j: int| 0 <= j < index ==> (#[trigger] w[j]).retry_at <= retry_at,
            decreases count - index,
        {
            index = index + 1;
        }
        proof {
            lemma_insertion_point(w, retry_at, index as int);
            lemma_parked_insert(w, index as int, queued);
            let n = w.insert(index as int, queued);
            assert forall|i: int, j: int|
                #![trigger n[i], n[j]]
                0 <= i <= j < n.len() implies n[i].retry_at <= n[j].retry_at by {
                let a = if i < index {
                    i
                } else {
                    i - 1
                };
                let b = if j < index {
                    j
                } else {
                    j - 1
                };
                if i != index && j != index {
                    assert(w[a].retry_at <= w[b].retry_at);
                } else if i == index && j != index {
                    assert(w[index as int].retry_at <= w[b].retry_at);
                }
            }
        }
        output.backpressured.insert(index, queued);
    }

    /// Lets a frame of the device that owns the queue wait until `retry_at`.
    pub fn requeue_native_backpressured(
        self,
        output: &mut LocalOutputQueueState,
        medium: Medium,
        meta: PacketMeta,
        frame: Vec<u8>,
        retry_at: Instant,
    )
        requires
            old(output).wf(),
            old(output).holds(self),
        ensures
            final(output).wf(),
            final(output).spent(old(output), self),
            final(output).backpressured@ == old(output).backpressured@.insert(
                insertion_point(old(output).backpressured@, retry_at) as int,
                (BackpressuredLocalOutput {
                    retry_at,
                    packet: LocalOutputPacket {
                        medium,
                        meta,
                        disposition: LocalOutputDisposition::NativeOwner,
                        frame,
                        charge: self.bytes,
                    },
                }),
            ),
            final(output).packets@ == old(output).packets@,
            final(output).deferred_routes@ == old(output).deferred_routes@,
    {
        let packet = LocalOutputPacket {
            medium,
            meta,
            disposition: LocalOutputDisposition::NativeOwner,
            frame,
            charge: self.bytes,
        };
        self.requeue_backpressured(output, packet, retry_at);
    }

    /// Lets `packet` wait for its neighbor, or gives its room back. `room` tells whether memory was
    /// set aside for it.
    pub fn commit_deferred_reserved(
        self,
        output: &mut LocalOutputQueueState,
        packet: LocalOutputPacket,
        retry_at: Instant,
        probe_sent: bool,
        advance_existing_probe: bool,
        room: bool,
    ) -> (r: Result<Instant, LocalOutputPacket>)
        requires
            old(output).wf(),
            old(output).holds(self),
            packet.charge == self.bytes,
        ensures
            final(output).wf(),
            deferred_queue::enqueue_effect(
                old(output).deferred_routes@,
                packet,
                retry_at,
                probe_sent,
                advance_existing_probe,
                LocalInputQueue::limits(),
                room,
                final(output).deferred_routes@,
                r,
            ),
            r is Ok ==> final(output).spent(old(output), self),
            r is Err ==> {
                &&& final(output).frames == old(output).frames
                &&& final(output).bytes == old(output).bytes
                &&& final(output).reserved_frames == old(output).reserved_frames - 1
                &&& final(output).reserved_bytes == old(output).reserved_bytes - self.bytes
            },
            final(output).packets@ == old(output).packets@,
            final(output).backpressured@ == old(output).backpressured@,
    {
        let queued = output.deferred_routes.enqueue_reserved(
            packet,
            retry_at,
            probe_sent,
            advance_existing_probe,
            LocalInputQueue::deferred_route_limits(),
            room,
        );
        if queued.is_ok() {
            self.spend(output);
        } else {
            self.release(output);
        }
        queued
    }

    /// Lets `packet` wait for its neighbor. Allocation may fail; the room is then given back.
    pub fn commit_deferred_packet(
        self,
        output: &mut LocalOutputQueueState,
        packet: LocalOutputPacket,
        retry_at: Instant,
        probe_sent: bool,
        advance_existing_probe: bool,
    ) -> (r: Result<(), LocalOutputPacket>)
        requires
            old(output).wf(),
            old(output).holds(self),
            packet.charge == self.bytes,
        ensures
            final(output).wf(),
            exists|room: bool, q: Result<Instant, LocalOutputPacket>|
                #![trigger deferred_queue::enqueue_effect(
                    old(output).deferred_routes@,
                    packet,
                    retry_at,
                    probe_sent,
                    advance_existing_probe,
                    LocalInputQueue::limits(),
                    room,
                    final(output).deferred_routes@,
                    q,
                )]
                deferred_queue::enqueue_effect(
                    old(output).deferred_routes@,
                    packet,
                    retry_at,
                    probe_sent,
                    advance_existing_probe,
                    LocalInputQueue::limits(),
                    room,
                    final(output).deferred_routes@,
                    q,
                ) && (q is Ok <==> r is Ok),
            r is Ok ==> final(output).spent(old(output), self),
            r matches Err(p) ==> {
                &&& p == packet
                &&& final(output).frames == old(output).frames
                &&& final(output).bytes == old(output).bytes
                &&& final(output).reserved_frames == old(output).reserved_frames - 1
                &&& final(output).reserved_bytes == old(output).reserved_bytes - self.bytes
            },
            final(output).packets@ == old(output).packets@,
            final(output).backpressured@ == old(output).backpressured@,
    {
        let room = output.room_for(&packet);
        let queued = self.commit_deferred_reserved(
            output,
            packet,
            retry_at,
            probe_sent,
            advance_existing_probe,
            room,
        );
        match queued {
            Ok(_) => Ok(()),
            Err(packet) => Err(packet),
        }
    }

    /// Lets `packet` wait for its neighbor, whose next probe moves to `retry_at`.
    pub fn requeue_deferred(
        self,
        output: &mut LocalOutputQueueState,
        packet: LocalOutputPacket,
        retry_at: Instant,
        probe_sent: bool,
    ) -> (r: Result<(), LocalOutputPacket>)
        requires
            old(output).wf(),
            old(output).holds(self),
            packet.charge == self.bytes,
        ensures
            final(output).wf(),
            exists|room: bool, q: Result<Instant, LocalOutputPacket>|
                #![trigger deferred_queue::enqueue_effect(
                    old(output).deferred_routes@,
                    packet,
                    retry_at,
                    probe_sent,
                    true,
                    LocalInputQueue::limits(),
                    room,
                    final(output).deferred_routes@,
                    q,
                )]
                deferred_queue::enqueue_effect(
                    old(output).deferred_routes@,
                    packet,
                    retry_at,
                    probe_sent,
                    true,
                    LocalInputQueue::limits(),
                    room,
                    final(output).deferred_routes@,
                    q,
                ) && (q is Ok <==> r is Ok),
            r is Ok ==> final(output).spent(old(output), self),
            r matches Err(p) ==> {
                &&& p == packet
                &&& final(output).frames == old(output).frames
                &&& final(output).bytes == old(output).bytes
                &&& final(output).reserved_frames == old(output).reserved_frames - 1
                &&& final(output).reserved_bytes == old(output).reserved_bytes - self.bytes
            },
            final(output).packets@ == old(output).packets@,
            final(output).backpressured@ == old(output).backpressured@,
    {
        self.commit_deferred_packet(output, packet, retry_at, probe_sent, true)
    }

    /// Adds `packet` to those that already wait for its neighbor. `room` tells whether memory was
    /// set aside for it.
    pub fn commit_existing_reserved(
        self,
        output: &mut LocalOutputQueueState,
        packet: LocalOutputPacket,
        room: bool,
    ) -> (r: ExistingDeferredCommit)
        requires
            old(output).wf(),
            old(output).holds(self),
            packet.charge == self.bytes,
        ensures
            final(output).wf(),
            deferred_queue::join_effect(
                old(output).deferred_routes@,
                packet,
                LocalInputQueue::limits(),
                room,
                final(output).deferred_routes@,
                joined(r),
            ),
            match r {
                ExistingDeferredCommit::Queued(_) => final(output).spent(old(output), self),
                ExistingDeferredCommit::Missing(p, reservation) => p == packet && reservation
                    == self && final(output).same(old(output)),
                ExistingDeferredCommit::Full(p, reservation) => p == packet && reservation == self
                    && final(output).same(old(output)),
            },
            final(output).packets@ == old(output).packets@,
            final(output).backpressured@ == old(output).backpressured@,
    {
        let result = output.deferred_routes.join_reserved(
            packet,
            LocalInputQueue::deferred_route_limits(),
            room,
        );
        let ghost outcome = result;
        let r = match result {
            JoinDeferredResult::Queued(retry_at) => {
                self.spend(output);
                ExistingDeferredCommit::Queued(retry_at)
            },
            JoinDeferredResult::Missing(packet) => ExistingDeferredCommit::Missing(packet, self),
            JoinDeferredResult::Full(packet) => ExistingDeferredCommit::Full(packet, self),
        };
        assert(joined(r) == outcome);
        r
    }

    /// Adds `packet` to those that already wait for its neighbor. Allocation may fail.
    pub fn commit_existing_deferred(
        self,
        output: &mut LocalOutputQueueState,
        packet: LocalOutputPacket,
    ) -> (r: ExistingDeferredCommit)
        requires
            old(output).wf(),
            old(output).holds(self),
            packet.charge == self.bytes,
        ensures
            final(output).wf(),
            exists|room: bool|
                deferred_queue::join_effect(
                    old(output).deferred_routes@,
                    packet,
                    LocalInputQueue::limits(),
                    room,
                    final(output).deferred_routes@,
                    joined(r),
                ),
            match r {
                ExistingDeferredCommit::Queued(_) => final(output).spent(old(output), self),
                ExistingDeferredCommit::Missing(p, reservation) => p == packet && reservation
                    == self && final(output).same(old(output)),
                ExistingDeferredCommit::Full(p, reservation) => p == packet && reservation == self
                    && final(output).same(old(output)),
            },
            final(output).packets@ == old(output).packets@,
            final(output).backpressured@ == old(output).backpressured@,
    {
        let room = output.deferred_routes.reserve_join(&packet);
        self.commit_existing_reserved(output, packet, room)
    }

    /// Puts the probe of `key` back in front of the packets that wait for that neighbor.
    pub fn finish_deferred_probe(
        self,
        output: &mut LocalOutputQueueState,
        packet: LocalOutputPacket,
        key: DeferredRouteKey,
        retry_at: Instant,
        probe_sent: bool,
    ) -> (r: Result<bool, LocalOutputPacket>)
        requires
            old(output).wf(),
            old(output).holds(self),
            packet.charge == self.bytes,
            deferred_queue::in_flight_in(old(output).deferred_routes@, key)
                ==> old(output).deferred_routes@[key.spec_packed()].probe_bytes == packet.charge,
        ensures
            final(output).wf(),
            if !deferred_queue::in_flight_in(old(output).deferred_routes@, key) {
                &&& r == Err::<bool, LocalOutputPacket>(packet)
                &&& final(output).deferred_routes@ == old(output).deferred_routes@
                &&& final(output).packets@ == old(output).packets@
                &&& final(output).frames == old(output).frames
                &&& final(output).bytes == old(output).bytes
                &&& final(output).reserved_frames == old(output).reserved_frames - 1
                &&& final(output).reserved_bytes == old(output).reserved_bytes - self.bytes
            } else {
                let k = key.spec_packed();
                let b = old(output).deferred_routes@[k];
                &&& r == Ok::<bool, LocalOutputPacket>(b.resolved)
                &&& final(output).deferred_routes@ == (if b.resolved {
                    old(output).deferred_routes@.remove(k)
                } else {
                    old(output).deferred_routes@.insert(
                        k,
                        deferred_queue::returned_bucket(b, packet, retry_at, probe_sent),
                    )
                })
                &&& final(output).packets@ == (if b.resolved {
                    old(output).packets@ + (seq![packet] + b.packets)
                } else {
                    old(output).packets@
                })
                &&& final(output).spent(old(output), self)
            },
            final(output).backpressured@ == old(output).backpressured@,
    {
        let result = output.deferred_routes.finish_probe(
            packet,
            key,
            retry_at,
            probe_sent,
            &mut output.packets,
        );
        match result {
            Ok(resolved) => {
                self.spend(output);
                Ok(resolved)
            },
            Err(packet) => {
                self.release(output);
                Err(packet)
            },
        }
    }
}

/// What joining a bucket returned, without the reservation.
pub open spec fn joined(r: ExistingDeferredCommit) -> JoinDeferredResult {
    match r {
        ExistingDeferredCommit::Queued(t) => JoinDeferredResult::Queued(t),
        ExistingDeferredCommit::Missing(p, _) => JoinDeferredResult::Missing(p),
        ExistingDeferredCommit::Full(p, _) => JoinDeferredResult::Full(p),
    }
}

proof fn lemma_insertion_point(w: Seq<BackpressuredLocalOutput>, retry_at: Instant, index: int)
    requires
        by_deadline(w),
        0 <= index <= w.len(),
        forall|j: int| 0 <= j < index ==> (#[trigger] w[j]).retry_at <= retry_at,
        index < w.len() ==> w[index].retry_at > retry_at,
    ensures
        insertion_point(w, retry_at) == index,
    decreases w.len(),
{
    if w.len() > 0 {
        if index < w.len() {
            assert(w[index].retry_at <= w[w.len() - 1].retry_at);
            let v = w.drop_last();
            assert(by_deadline(v)) by {
                assert forall|i: int, j: int|
                    #![trigger v[i], v[j]]
                    0 <= i <= j < v.len() implies v[i].retry_at <= v[j].retry_at by {
                    assert(w[i].retry_at <= w[j].retry_at);
                }
            }
            assert forall|j: int| 0 <= j < index implies (#[trigger] v[j]).retry_at <= retry_at by {
                assert(v[j] == w[j]);
            }
            lemma_insertion_point(v, retry_at, index);
        } else {
            assert(w[w.len() - 1].retry_at <= retry_at);
        }
    }
}

proof fn lemma_parked_insert(
    w: Seq<BackpressuredLocalOutput>,
    index: int,
    q: BackpressuredLocalOutput,
)
    requires
        0 <= index <= w.len(),
    ensures
        deferred_queue::charge_sum(parked(w.insert(index, q))) == deferred_queue::charge_sum(
            parked(w),
        ) + q.packet.charge,
{
    let a = parked(w.take(index));
    let b = parked(w.skip(index));
    let m = seq![q.packet];
    assert(parked(w) =~= a + b);
    assert(parked(w.insert(index, q)) =~= (a + m) + b);
    deferred_queue::lemma_charge_sum_add(a, b);
    deferred_queue::lemma_charge_sum_add(a + m, b);
    deferred_queue::lemma_charge_sum_add(a, m);
    deferred_queue::lemma_charge_sum_one(q.packet);
}

/// A buffer that is kept for reuse.
#[derive(Debug)]
pub struct ScratchBuffer {
    pub data: Vec<u8>,
    /// How many bytes the buffer holds without growing.
    pub capacity: usize,
}

/// Buffers that are kept for reuse.
#[derive(Debug)]
pub struct LocalOutputScratchPool {
    pub buffers: Vec<ScratchBuffer>,
    pub bytes: usize,
}

/// The total capacity of `buffers`.
pub open spec fn capacity_sum(buffers: Seq<ScratchBuffer>) -> nat
    decreases buffers.len(),
{
    if buffers.len() == 0 {
        0
    } else {
        capacity_sum(buffers.drop_last()) + buffers.last().capacity as nat
    }
}

/// A buffer that held `len` bytes was freed, or was emptied and put behind the others.
pub open spec fn kept_or_freed(
    before: Seq<ScratchBuffer>,
    len: nat,
    after: Seq<ScratchBuffer>,
) -> bool {
    after == before || {
        &&& after.len() == before.len() + 1
        &&& after.drop_last() == before
        &&& after.last().data@.len() == 0
        &&& after.last().capacity >= len
    }
}

impl LocalOutputScratchPool {
    /// The byte count is right and the limits hold.
    pub open spec fn wf(&self) -> bool {
        &&& self.bytes == capacity_sum(self.buffers@)
        &&& self.bytes <= LocalInputQueue::MAX_SCRATCH_BYTES
        &&& self.buffers@.len() <= LocalInputQueue::MAX_SCRATCH_FRAMES
        &&& forall|i: int|
            0 <= i < self.buffers@.len() ==> (#[trigger] self.buffers@[i]).data@.len() == 0
    }

    /// The limits leave room for a buffer of `capacity` bytes.
    pub open spec fn accepts(&self, capacity: usize) -> bool {
        &&& self.buffers@.len() < LocalInputQueue::MAX_SCRATCH_FRAMES
        &&& self.bytes + capacity <= LocalInputQueue::MAX_SCRATCH_BYTES
    }

    /// The buffers that stay when the one that was kept last is taken.
    pub open spec fn without_last(&self) -> Seq<ScratchBuffer> {
        if self.buffers@.len() == 0 {
            self.buffers@
        } else {
            self.buffers@.drop_last()
        }
    }

    /// How many bytes the buffer that was kept last holds without growing; a new one holds none.
    pub open spec fn last_capacity(&self) -> usize {
        if self.buffers@.len() == 0 {
            0
        } else {
            self.buffers@.last().capacity
        }
    }

    /// A pool without buffers.
    pub fn new() -> (r: Self)
        ensures
            r.wf(),
            r.buffers@.len() == 0,
    {
        LocalOutputScratchPool { buffers: Vec::new(), bytes: 0 }
    }

    /// Keeps an emptied buffer of `capacity` bytes, or frees it. `room` tells whether memory was
    /// set aside for it.
    pub fn keep(&mut self, frame: Vec<u8>, capacity: usize, room: bool) -> (r: bool)
        requires
            old(self).wf(),
        ensures
            final(self).wf(),
            r == (room && old(self).accepts(capacity)),
            !r ==> final(self).buffers@ == old(self).buffers@,
            r ==> {
                &&& final(self).buffers@.len() == old(self).buffers@.len() + 1
                &&& final(self).buffers@.drop_last() == old(self).buffers@
                &&& final(self).buffers@.last().capacity == capacity
            },
    {
        if self.buffers.len() >= LocalInputQueue::MAX_SCRATCH_FRAMES || self.bytes.saturating_add(
            capacity,
        ) > LocalInputQueue::MAX_SCRATCH_BYTES || !room {
            return false;
        }
        let mut data = frame;
        data.clear();
        self.bytes = self.bytes + capacity;
        self.buffers.push(ScratchBuffer { data, capacity });
        assert(self.buffers@.drop_last() =~= old(self).buffers@);
        true
    }

    /// Keeps a buffer for reuse if the limits and the allocator allow it. A buffer whose bytes alone
    /// are too many is never kept.
    pub fn recycle_scratch(&mut self, frame: Vec<u8>)
        requires
            old(self).wf(),
        ensures
            final(self).wf(),
            kept_or_freed(old(self).buffers@, frame@.len(), final(self).buffers@),
            !old(self).accepts(frame@.len() as usize) ==> final(self).buffers@
                == old(self).buffers@,
    {
        let capacity: usize = byte_capacity(&frame);
        let room = self.buffers.try_reserve(1).is_ok();
        let _kept = self.keep(frame, capacity, room);
    }

    /// Takes the buffer that was kept last, or a new one.
    pub fn take(&mut self) -> (r: Vec<u8>)
        requires
            old(self).wf(),
        ensures
            final(self).wf(),
            r@.len() == 0,
            final(self).buffers@ == (if old(self).buffers@.len() == 0 {
                old(self).buffers@
            } else {
                old(self).buffers@.drop_last()
            }),
            old(self).buffers@.len() > 0 ==> r == old(self).buffers@.last().data,
    {
        match self.buffers.pop() {
            Some(buffer) => {
                assert(self.buffers@ =~= old(self).buffers@.drop_last());
                assert(old(self).buffers@[old(self).buffers@.len() - 1].data@.len() == 0);
                self.bytes = self.bytes - buffer.capacity;
                buffer.data
            },
            None => Vec::new(),
        }
    }
}

impl LocalInputQueue {
    /// All queues of the interface are consistent.
    pub open spec fn wf(&self) -> bool {
        self.state.wf() && self.response_scratch.wf() && self.output.wf()
    }

    /// Queues without packets.
    pub fn new() -> (r: Self)
        ensures
            r.wf(),
            r.state.packets@.len() == 0,
            !r.output.occupied(),
            !r.output_draining,
    {
        LocalInputQueue {
            state: LocalInputQueueState { packets: VecDeque::new(), bytes: 0 },
            response_scratch: LocalOutputScratchPool::new(),
            output: LocalOutputQueueState::new(),
            output_draining: false,
        }
    }

    /// Nothing is queued or under way that needs the interface's routed path.
    pub open spec fn idle(&self, bound_socket_count: usize, routed_fragments_pending: bool) -> bool {
        &&& self.state.packets@.len() == 0
        &&& !self.output.occupied()
        &&& self.output.reserved_frames == 0
        &&& bound_socket_count == 0
        &&& !routed_fragments_pending
    }

    /// Ends the routed mode of an idle interface: returns the new value of `routed`.
    pub fn clear_routed_if_idle(
        &self,
        routed: bool,
        bound_socket_count: usize,
        routed_fragments_pending: bool,
    ) -> (r: bool)
        requires
            self.wf(),
        ensures
            r == (routed && !self.idle(bound_socket_count, routed_fragments_pending)),
    {
        if self.state.packets.len() == 0 && !self.output.has_output()
            && self.output.reserved_frames == 0 && bound_socket_count == 0
            && !routed_fragments_pending {
            false
        } else {
            routed
        }
    }

    /// Claims the output queue for one drain. Returns whether the claim succeeded.
    pub fn try_begin_output_drain(&mut self) -> (r: bool)
        requires
            old(self).wf(),
        ensures
            final(self).wf(),
            r == !old(self).output_draining,
            final(self).output_draining,
            final(self).state == old(self).state,
            final(self).response_scratch == old(self).response_scratch,
            final(self).output == old(self).output,
    {
        if self.output_draining {
            return false;
        }
        self.output_draining = true;
        true
    }

    /// Ends a drain. Returns whether packets are left.
    pub fn finish_output_drain(&mut self) -> (r: bool)
        requires
            old(self).wf(),
        ensures
            final(self).wf(),
            r == old(self).output.occupied(),
            !final(self).output_draining,
            final(self).state == old(self).state,
            final(self).response_scratch == old(self).response_scratch,
            final(self).output == old(self).output,
    {
        self.output_draining = false;
        self.output.has_output()
    }

    /// Keeps the buffer of a packet that is done.
    pub fn recycle_output(&mut self, frame: Vec<u8>)
        requires
            old(self).wf(),
        ensures
            final(self).wf(),
            final(self).state == old(self).state,
            final(self).output == old(self).output,
            final(self).output_draining == old(self).output_draining,
            final(self).response_scratch.buffers@ == old(self).response_scratch.buffers@ || final(self).response_scratch.buffers@.drop_last() == old(self).response_scratch.buffers@,
    {
        self.response_scratch.recycle_scratch(frame);
    }
}

/// The words for a route hold the interface in the upper half of the first, and in its lower half 4 for
/// an IPv4 next hop and 6 for an IPv6 one. Whatever decodes to a route or to delivery is what the
/// encoding of that route or delivery writes, so no other words pass for one.
pub proof fn law_context_words(
    oif: u32,
    next_hop: IpAddress,
    context: Seq<u64>,
    ip_mtu: usize,
)
    requires
        context.len() == 3,
    ensures
        ({
            let routed = LocalOutputDisposition::spec_routed_context(oif, next_hop);
            let local = LocalOutputDisposition::spec_local_context(oif);
            &&& routed.len() == 3 && local.len() == 3
            &&& routed[0] / 0x1_0000_0000 == oif && local[0] / 0x1_0000_0000 == oif
            &&& local[0] % 0x1_0000_0000 == 2 && local[1] == 0 && local[2] == 0
            &&& match next_hop {
                IpAddress::Ipv4(address) => routed[0] % 0x1_0000_0000 == 4 && routed[1] == 0
                    && routed[2] == address.bits,
                IpAddress::Ipv6(address) => routed[0] % 0x1_0000_0000 == 6 && routed[1]
                    == address.high && routed[2] == address.low,
            }
        }),
        match LocalOutputDisposition::spec_from_context(context, ip_mtu) {
            LocalOutputDisposition::NativeOwner => context == seq![1u64, 0u64, 0u64],
            LocalOutputDisposition::Local { oif: o, ip_mtu: m } => {
                &&& m == ip_mtu
                &&& o != 0
                &&& context == LocalOutputDisposition::spec_local_context(o)
            },
            LocalOutputDisposition::Routed { oif: o, next_hop: h, ip_mtu: m } => {
                &&& m == ip_mtu
                &&& o != 0
                &&& context == LocalOutputDisposition::spec_routed_context(o, h)
            },
            LocalOutputDisposition::Drop => true,
        },
{
    let word = context[0];
    assert({
        let high = (word >> 32) as u32;
        let low = word & 0xffff_ffffu64;
        &&& low == 2 ==> word == ((high as u64) << 32) | 2u64
        &&& low == 4 ==> word == ((high as u64) << 32) | 4u64
        &&& low == 6 ==> word == ((high as u64) << 32) | 6u64
        &&& (((oif as u64) << 32) | 2u64) == oif * 0x1_0000_0000 + 2
        &&& (((oif as u64) << 32) | 4u64) == oif * 0x1_0000_0000 + 4
        &&& (((oif as u64) << 32) | 6u64) == oif * 0x1_0000_0000 + 6
    }) by (bit_vector);
    match LocalOutputDisposition::spec_from_context(context, ip_mtu) {
        LocalOutputDisposition::Local { oif: o, .. } => {
            assert(context =~= LocalOutputDisposition::spec_local_context(o));
        },
        LocalOutputDisposition::Routed { oif: o, next_hop: h, .. } => {
            assert(context =~= LocalOutputDisposition::spec_routed_context(o, h));
        },
        _ => {},
    }
}

/// A packet that was routed to this host comes to the stack as a device would have received it: bare,
/// or behind the two addresses, the destination first, and the type of its version.
pub proof fn law_input_frame(packet: LocalInputPacket, medium: Medium)
    requires
        packet.ip_packet@.len() > 0,
    ensures
        ({
            let frame = packet.spec_frame(medium);
            let head = if medium == Medium::Ip {
                0int
            } else {
                14
            };
            &&& frame.len() == head + packet.ip_packet@.len()
            &&& frame.skip(head) == packet.ip_packet@
            &&& medium != Medium::Ip ==> {
                &&& frame.take(6) == packet.destination_mac.spec_octets()
                &&& frame.subrange(6, 12) == packet.source_mac.spec_octets()
                &&& packet.ip_packet@[0] >> 4 == 4 ==> frame[12] == 0x08 && frame[13] == 0x00
                &&& packet.ip_packet@[0] >> 4 == 6 ==> frame[12] == 0x86 && frame[13] == 0xdd
            }
        }),
{
    let frame = packet.spec_frame(medium);
    if medium == Medium::Ip {
        assert(frame.skip(0) =~= packet.ip_packet@);
    } else {
        assert(frame.skip(14) =~= packet.ip_packet@);
        assert(frame.take(6) =~= packet.destination_mac.spec_octets());
        assert(frame.subrange(6, 12) =~= packet.source_mac.spec_octets());
    }
}

/// How much may wait: 1024 packets and four mebibytes in a queue, room that is set aside included; 64
/// packets and 256 kibibytes for one neighbor; and as much in buffers that are kept.
pub proof fn law_limits(
    input: LocalInputQueueState,
    output: LocalOutputQueueState,
    pool: LocalOutputScratchPool,
    len: nat,
    charge: usize,
)
    ensures
        LocalInputQueue::limits().frames == 64,
        LocalInputQueue::limits().bytes == 0x4_0000,
        input.wf() ==> input.packets@.len() <= 1024 && input.bytes <= 0x40_0000,
        input.has_room(len) <==> input.packets@.len() < 1024 && input.bytes + len <= 0x40_0000,
        output.wf() ==> output.frames + output.reserved_frames <= 1024 && output.bytes
            + output.reserved_bytes <= 0x40_0000,
        output.wf() ==> output.packets@.len() + output.backpressured@.len() <= output.frames,
        output.spec_admits(charge) <==> output.frames + output.reserved_frames + 1 <= 1024
            && output.bytes + output.reserved_bytes + charge <= 0x40_0000,
        pool.wf() ==> pool.buffers@.len() <= 64 && pool.bytes <= 0x4_0000,
        pool.accepts(charge) <==> pool.buffers@.len() + 1 <= 64 && pool.bytes + charge <= 0x4_0000,
{
}

/// Of the packets that wait for the device, those are taken whose time has come: a stretch at the head
/// of the list that ends before the first whose time is still to come. In a list that is ordered by
/// time, these are all.
pub proof fn law_ripe(waiting: Seq<BackpressuredLocalOutput>, now: Instant)
    ensures
        ({
            let n = ripe(waiting, now) as int;
            &&& 0 <= n <= waiting.len()
            &&& forall|i: int| 0 <= i < n ==> (#[trigger] waiting[i]).retry_at <= now
            &&& n < waiting.len() ==> waiting[n].retry_at > now
            &&& by_deadline(waiting) ==> forall|i: int|
                n <= i < waiting.len() ==> (#[trigger] waiting[i]).retry_at > now
        }),
    decreases waiting.len(),
{
    if waiting.len() > 0 && waiting[0].retry_at <= now {
        let rest = waiting.skip(1);
        law_ripe(rest, now);
        let n = ripe(waiting, now) as int;
        assert forall|i: int| 0 <= i < n implies (#[trigger] waiting[i]).retry_at <= now by {
            if i > 0 {
                assert(waiting[i] == rest[i - 1]);
            }
        }
        if n < waiting.len() {
            assert(waiting[n] == rest[n - 1]);
        }
    }
    let n = ripe(waiting, now) as int;
    if by_deadline(waiting) && n < waiting.len() {
        assert forall|i: int| n <= i < waiting.len() implies (#[trigger] waiting[i]).retry_at > now by {
            assert(waiting[n].retry_at <= waiting[i].retry_at);
        }
    }
}

/// A packet that starts to wait for its device takes its place behind all that are due no later and
/// before all that are due later, so that among equals the first comes first.
pub proof fn law_insertion_point(waiting: Seq<BackpressuredLocalOutput>, retry_at: Instant)
    requires
        by_deadline(waiting),
    ensures
        ({
            let at = insertion_point(waiting, retry_at) as int;
            &&& 0 <= at <= waiting.len()
            &&& forall|i: int| 0 <= i < at ==> (#[trigger] waiting[i]).retry_at <= retry_at
            &&& forall|i: int| at <= i < waiting.len() ==> (#[trigger] waiting[i]).retry_at > retry_at
        }),
    decreases waiting.len(),
{
    if waiting.len() > 0 {
        if waiting.last().retry_at <= retry_at {
            assert forall|i: int| 0 <= i < waiting.len() implies (#[trigger] waiting[i]).retry_at
                <= retry_at by {
                assert(waiting[i].retry_at <= waiting[waiting.len() - 1].retry_at);
            }
        } else {
            let rest = waiting.drop_last();
            assert forall|i: int, j: int|
                #![trigger rest[i], rest[j]]
                0 <= i <= j < rest.len() implies rest[i].retry_at <= rest[j].retry_at by {
                assert(waiting[i].retry_at <= waiting[j].retry_at);
            }
            law_insertion_point(rest, retry_at);
            let at = insertion_point(waiting, retry_at) as int;
            assert forall|i: int| 0 <= i < at implies (#[trigger] waiting[i]).retry_at <= retry_at by {
                assert(rest[i] == waiting[i]);
            }
            assert forall|i: int| at <= i < waiting.len() implies (#[trigger] waiting[i]).retry_at
                > retry_at by {
                if i < rest.len() {
                    assert(rest[i] == waiting[i]);
                }
            }
        }
    }
}

/// Which packet is taken. Nothing leaves the wait for the device before its time, and nothing stays
/// there whose time has come. Packets that are ready leave in their order. A neighbor is served before
/// them only if it is preferred, and otherwise only if none of them is ready; it is one that is due,
/// has no probe out, and comes first of all that wait. If nothing can be taken, the time that is named
/// is later than now and is the first at which something can be.
pub proof fn law_pop(
    before: LocalOutputQueueState,
    now: Instant,
    prefer_deferred: bool,
    after: LocalOutputQueueState,
    r: LocalOutputPop,
)
    requires
        before.wf(),
        pop_result(&before, now, prefer_deferred, &after, r),
    ensures
        r is Ready ==> {
            &&& forall|i: int|
                0 <= i < after.backpressured@.len() ==> (#[trigger] after.backpressured@[i]).retry_at
                    > now
            &&& forall|i: int|
                0 <= i < before.backpressured@.len() && (#[trigger] before.backpressured@[i]).retry_at
                    > now ==> after.backpressured@.contains(before.backpressured@[i])
        },
        r matches LocalOutputPop::Ready(packet, _, None) ==> {
            ||| before.packets@.len() > 0 && packet == before.packets@[0]
            ||| before.packets@.len() == 0 && before.backpressured@.len() > 0
                && before.backpressured@[0].retry_at <= now && packet
                == before.backpressured@[0].packet
            ||| exists|k: u64| #[trigger]
                before.deferred_routes@.contains_key(k) && !after.deferred_routes@.contains_key(k)
                    && !before.deferred_routes@[k].probe_in_flight
                    && before.deferred_routes@[k].retry_at <= now && (
                before.deferred_routes@[k].resolved || before.deferred_routes@[k].probes >= 3)
        },
        r matches LocalOutputPop::Ready(packet, _, Some(key)) ==> exists|k: u64| #[trigger]
            before.deferred_routes@.contains_key(k) && {
                let b = before.deferred_routes@[k];
                &&& b.key == key
                &&& !b.resolved
                &&& !b.probe_in_flight
                &&& b.probes < 3
                &&& b.retry_at <= now
                &&& packet == b.packets[0]
                &&& prefer_deferred || before.packets@.len() == 0
            },
        prefer_deferred && (exists|k: u64|
            deferred_queue::due_in(before.deferred_routes@, k, now)) ==> (
        r matches LocalOutputPop::Ready(packet, _, key) && exists|k: u64| #[trigger]
            before.deferred_routes@.contains_key(k) && {
                let b = before.deferred_routes@[k];
                &&& !b.probe_in_flight
                &&& b.retry_at <= now
                &&& b.packets.len() > 0 ==> packet.frame == b.packets[0].frame
                &&& key == Some(b.key) || !after.deferred_routes@.contains_key(k)
            }),
        !prefer_deferred && before.packets@.len() > 0 ==> (r matches LocalOutputPop::Ready(
            packet,
            _,
            None,
        ) && packet == before.packets@[0]),
        r matches LocalOutputPop::DeferredUntil(t) ==> {
            &&& t > now
            &&& before.packets@.len() == 0
            &&& forall|i: int|
                0 <= i < before.backpressured@.len() ==> t <= (
                #[trigger] before.backpressured@[i]).retry_at
            &&& forall|k: u64| #[trigger]
                before.deferred_routes@.contains_key(k) && !before.deferred_routes@[k].probe_in_flight
                    ==> t <= before.deferred_routes@[k].retry_at
        },
        r is Empty ==> {
            &&& before.packets@.len() == 0
            &&& before.backpressured@.len() == 0
            &&& forall|k: u64| #[trigger]
                before.deferred_routes@.contains_key(k) ==> before.deferred_routes@[k].probe_in_flight
        },
{
    let w = before.backpressured@;
    let m = before.deferred_routes@;
    let n = ripe(w, now) as int;
    let line = before.lined_up(now);
    law_ripe(w, now);
    let due = exists|k: u64| deferred_queue::due_in(m, k, now);
    assert(line.len() == before.packets@.len() + n);
    if before.packets@.len() > 0 {
        assert(line[0] == before.packets@[0]);
    } else if n > 0 {
        assert(line[0] == w[0].packet);
    }
    if r is Ready {
        assert(after.backpressured@ == w.skip(n));
        assert forall|i: int| 0 <= i < after.backpressured@.len() implies (
        #[trigger] after.backpressured@[i]).retry_at > now by {
            assert(after.backpressured@[i] == w[n + i]);
        }
        assert forall|i: int|
            0 <= i < w.len() && (#[trigger] w[i]).retry_at > now implies after.backpressured@.contains(
            w[i],
        ) by {
            assert(after.backpressured@[i - n] == w[i]);
        }
    }
    if due && (prefer_deferred || line.len() == 0) {
        if let LocalOutputPop::Ready(packet, _, key) = r {
            let k = choose|k: u64|
                deferred_queue::first_in(m, k) && deferred_queue::due_in(m, k, now)
                    && deferred_queue::pop_effect(
                    m,
                    k,
                    LocalInputQueue::MAX_NEIGHBOR_PROBES,
                    line,
                    after.deferred_routes@,
                    after.packets@,
                    packet,
                    key,
                );
            assert(m.contains_key(k));
        }
    }
    if let LocalOutputPop::DeferredUntil(t) = r {
        assert(n == 0);
        assert forall|k: u64| #[trigger] m.contains_key(k) && !m[k].probe_in_flight implies m[k].retry_at
            > now by {
            assert(!deferred_queue::due_in(m, k, now));
        }
        assert forall|i: int| 0 <= i < w.len() implies t <= (#[trigger] w[i]).retry_at by {
            assert(w[0].retry_at <= w[i].retry_at);
        }
    }
}

/// Room only changes hands: what a queued packet takes is what was set aside for it.
pub proof fn law_spent(
    before: LocalOutputQueueState,
    reservation: LocalOutputReservation,
    after: LocalOutputQueueState,
)
    requires
        after.spent(&before, reservation),
    ensures
        after.frames + after.reserved_frames == before.frames + before.reserved_frames,
        after.bytes + after.reserved_bytes == before.bytes + before.reserved_bytes,
        after.frames > before.frames,
        after.bytes - before.bytes == reservation.bytes,
        before.reserved_frames - after.reserved_frames == 1,
{
}

/// The routed mode ends only when nothing waits on its way in or out, nothing is set aside, no socket
/// is bound and no fragments are left.
pub proof fn law_idle(queue: LocalInputQueue, bound_socket_count: usize, fragments: bool)
    requires
        queue.wf(),
    ensures
        queue.idle(bound_socket_count, fragments) <==> {
            &&& queue.state.packets@.len() == 0
            &&& queue.output.packets@.len() == 0
            &&& queue.output.backpressured@.len() == 0
            &&& forall|k: u64| !(#[trigger] queue.output.deferred_routes@.contains_key(k))
            &&& queue.output.reserved_frames == 0
            &&& bound_socket_count == 0
            &&& !fragments
        },
{
    let m = queue.output.deferred_routes@;
    if forall|k: u64| !(#[trigger] m.contains_key(k)) {
        assert(m =~= Map::<u64, BucketView>::empty());
    }
    if m != Map::<u64, BucketView>::empty() && forall|k: u64| !(#[trigger] m.contains_key(k)) {
        assert(m =~= Map::<u64, BucketView>::empty());
    }
}

/// The bytes of a queue are those of its packets, one by one, in whatever order they came; and so it is
/// with the buffers that are kept.
pub proof fn law_sums(
    packets: Seq<LocalInputPacket>,
    packet: LocalInputPacket,
    buffers: Seq<ScratchBuffer>,
    buffer: ScratchBuffer,
)
    ensures
        input_bytes(Seq::empty()) == 0,
        input_bytes(packets.push(packet)) == input_bytes(packets) + packet.ip_packet@.len(),
        input_bytes(seq![packet] + packets) == input_bytes(packets) + packet.ip_packet@.len(),
        capacity_sum(Seq::empty()) == 0,
        capacity_sum(buffers.push(buffer)) == capacity_sum(buffers) + buffer.capacity,
{
    assert(packets.push(packet).drop_last() =~= packets);
    assert(buffers.push(buffer).drop_last() =~= buffers);
    lemma_input_bytes_add(seq![packet], packets);
    reveal_with_fuel(input_bytes, 2);
    assert(seq![packet].drop_last() =~= Seq::<LocalInputPacket>::empty());
}

/// A buffer that is given back is kept only empty, and with no less room than it held; the others stay.
pub proof fn law_kept_or_freed(before: Seq<ScratchBuffer>, len: nat, after: Seq<ScratchBuffer>)
    requires
        kept_or_freed(before, len, after),
    ensures
        after.len() == before.len() || after.len() == before.len() + 1,
        forall|i: int| 0 <= i < before.len() ==> #[trigger] after[i] == before[i],
        after.len() > before.len() ==> after.last().data@.len() == 0 && after.last().capacity >= len,
{
    assert forall|i: int| 0 <= i < before.len() implies #[trigger] after[i] == before[i] by {
        if after.len() > before.len() {
            assert(after.drop_last()[i] == before[i]);
        }
    }
}

} // verus!

//! How the output of the local stack is classified, admitted and sent.

use vstd::prelude::*;
use crate::error::SystemError;
use crate::net::addr::{Instant, IpAddress, Medium, PacketMeta};
use crate::net::iface::RouteSendError;
use crate::net::local_queue;
use crate::net::local_queue::{
    LocalInputQueue, LocalOutputDisposition, LocalOutputPacket, LocalOutputQueueState,
    LocalOutputReservation, LocalOutputScratchPool,
};
use crate::net::memory::{byte_capacity, try_reserve_bytes};
use crate::net::wire::IpVersion;

verus! {

/// What of an interface may be polled.
#[derive(Clone, Copy, Debug, PartialEq, Eq, Structural)]
pub enum IfacePollScope {
    Nothing,
    LocalOnly,
    Full,
}

/// How a drain of the output queue ended.
#[derive(Clone, Copy, Debug, PartialEq, Eq, Structural)]
pub enum LocalOutputDrainState {
    Quiescent,
    BudgetExhausted,
    Backpressured,
    Contended,
}

/// How much a drain did and how it ended.
#[derive(Clone, Copy, Debug, PartialEq, Eq, Structural)]
pub struct LocalOutputDrainResult {
    pub work_done: usize,
    pub state: LocalOutputDrainState,
}

impl LocalOutputDrainResult {
    pub fn new(work_done: usize, state: LocalOutputDrainState) -> (r: Self)
        ensures
            r.work_done == work_done,
            r.state == state,
    {
        LocalOutputDrainResult { work_done, state }
    }

    /// Whether the interface has to be polled again at once.
    pub fn needs_immediate_poll(self) -> (r: bool)
        ensures
            r == (self.state == LocalOutputDrainState::BudgetExhausted),
    {
        self.state == LocalOutputDrainState::BudgetExhausted
    }
}

/// What the routing table said about a destination.
#[derive(Clone, Copy, Debug, PartialEq, Eq, Structural)]
pub struct OutputRouteDecision {
    /// The destination is an address of this host.
    pub local: bool,
    /// The route is in the default table.
    pub default_table: bool,
    pub oif: u32,
    pub next_hop: IpAddress,
    pub ip_mtu: usize,
}

/// Which path an output packet takes.
#[derive(Clone, Copy, Debug, PartialEq, Eq, Structural)]
pub enum OutputBackendDecision {
    /// The device that owns the stack.
    NativeOwner,
    /// The output queue, with the route if there is one.
    Deferred(Option<OutputRouteDecision>),
}

/// What decides between the two paths.
#[derive(Clone, Copy, Debug, PartialEq, Eq, Structural)]
pub struct OutputBackendPolicy {
    pub owner_ifindex: u32,
    pub owner_is_up: bool,
    pub authoritative_ipv4_output: bool,
}

impl OutputBackendPolicy {
    /// The interface to which a packet is bound, if any.
    pub fn constrained_oif(meta: PacketMeta) -> (r: Option<u32>)
        ensures
            r == (if meta.id != 0 {
                Some(meta.id)
            } else {
                None
            }),
    {
        if meta.id != 0 {
            Some(meta.id)
        } else {
            None
        }
    }

    /// The owner's device can send by `route` as well as the output queue can.
    pub open spec fn natively_sent(self, route: OutputRouteDecision, configured_neighbor: bool) -> bool {
        &&& !route.local
        &&& route.oif == self.owner_ifindex
        &&& self.owner_is_up
        &&& !configured_neighbor
        &&& !self.authoritative_ipv4_output || !route.default_table
    }

    /// Chooses the path of a packet, given what the routing table said about its destination and
    /// whether the next hop is a configured neighbor.
    pub fn classify(
        self,
        version: IpVersion,
        route: Option<OutputRouteDecision>,
        configured_neighbor: bool,
    ) -> (r: OutputBackendDecision)
        ensures
            r == (if version != IpVersion::Ipv4 || (route matches Some(found)
                && self.natively_sent(found, configured_neighbor)) {
                OutputBackendDecision::NativeOwner
            } else {
                OutputBackendDecision::Deferred(route)
            }),
    {
        if version != IpVersion::Ipv4 {
            return OutputBackendDecision::NativeOwner;
        }
        match route {
            Some(found) => {
                if !found.local && found.oif == self.owner_ifindex && self.owner_is_up
                    && !configured_neighbor && (!self.authoritative_ipv4_output
                    || !found.default_table) {
                    OutputBackendDecision::NativeOwner
                } else {
                    OutputBackendDecision::Deferred(route)
                }
            },
            None => OutputBackendDecision::Deferred(route),
        }
    }
}

/// A buffer for one packet, taken from an interface's pool.
#[derive(Debug)]
pub struct LocalInputScratch {
    pub buffer: Option<Vec<u8>>,
    /// How many bytes the buffer holds without growing.
    pub capacity: usize,
}

impl LocalInputScratch {
    /// Hands `buffer` out if the allocator gave it at least `wanted` bytes, and back to `pool`
    /// otherwise. `given` is how many bytes it holds without growing, unless allocation failed.
    pub fn prepared(
        pool: &mut LocalOutputScratchPool,
        buffer: Vec<u8>,
        wanted: usize,
        given: Option<usize>,
    ) -> (r: Option<Self>)
        requires
            old(pool).wf(),
        ensures
            final(pool).wf(),
            match r {
                Some(scratch) => {
                    &&& given == Some(scratch.capacity)
                    &&& scratch.capacity >= wanted
                    &&& scratch.buffer == Some(buffer)
                    &&& *final(pool) == *old(pool)
                },
                None => {
                    &&& given matches Some(capacity) ==> capacity < wanted
                    &&& local_queue::kept_or_freed(old(pool).buffers@, buffer@.len(), final(pool).buffers@)
                },
            },
    {
        if let Some(capacity) = given {
            if capacity >= wanted {
                return Some(LocalInputScratch { buffer: Some(buffer), capacity });
            }
        }
        pool.recycle_scratch(buffer);
        None
    }

    /// Takes a buffer for `capacity` bytes from `pool`: the one that was kept last, grown if it is
    /// too small. Only growing may fail; the buffer then goes back, if the pool keeps it.
    pub fn checkout(pool: &mut LocalOutputScratchPool, capacity: usize) -> (r: Option<Self>)
        requires
            old(pool).wf(),
        ensures
            final(pool).wf(),
            old(pool).last_capacity() >= capacity ==> r is Some && r->0.capacity
                == old(pool).last_capacity(),
            r matches Some(scratch) ==> {
                &&& scratch.buffer matches Some(buffer)
                &&& buffer@.len() == 0
                &&& scratch.capacity >= capacity
                &&& final(pool).buffers@ == old(pool).without_last()
            },
            r is None ==> local_queue::kept_or_freed(old(pool).without_last(), 0, final(pool).buffers@),
    {
        let count: usize = pool.buffers.len();
        let kept: usize = if count == 0 {
            0
        } else {
            pool.buffers[count - 1].capacity
        };
        let mut buffer = pool.take();
        if kept >= capacity {
            return Some(LocalInputScratch { buffer: Some(buffer), capacity: kept });
        }
        let given: Option<usize> = if try_reserve_bytes(&mut buffer, capacity) {
            Some(byte_capacity(&buffer))
        } else {
            None
        };
        Self::prepared(pool, buffer, capacity, given)
    }

    /// Makes the buffer hold `len` bytes of zero.
    pub fn resize(&mut self, len: usize)
        requires
            old(self).buffer is Some,
        ensures
            final(self).buffer matches Some(buffer) && buffer@ == Seq::new(
                len as nat,
                |i: int| 0u8,
            ),
            final(self).capacity == old(self).capacity,
    {
        let mut buffer: Vec<u8> = Vec::new();
        std::mem::swap(&mut buffer, self.buffer.as_mut().unwrap());
        buffer.clear();
        buffer.resize(len, 0);
        assert(buffer@ =~= Seq::new(len as nat, |i: int| 0u8));
        self.buffer = Some(buffer);
    }

    /// Makes the buffer hold a copy of `bytes`.
    pub fn fill(&mut self, bytes: &[u8])
        requires
            old(self).buffer is Some,
        ensures
            final(self).buffer matches Some(buffer) && buffer@ == bytes@,
            final(self).capacity == old(self).capacity,
    {
        let mut buffer: Vec<u8> = Vec::new();
        std::mem::swap(&mut buffer, self.buffer.as_mut().unwrap());
        buffer.clear();
        buffer.extend_from_slice(bytes);
        assert(buffer@ =~= bytes@);
        self.buffer = Some(buffer);
    }

    /// Puts a buffer of `grown` bytes in the place of the old one, if `reservation` can be given so
    /// many. The old one goes back to `pool`; otherwise nothing changes.
    pub fn replace_buffer(
        &mut self,
        replacement: Vec<u8>,
        grown: usize,
        reservation: &mut LocalOutputReservation,
        output: &mut LocalOutputQueueState,
        pool: &mut LocalOutputScratchPool,
    ) -> (r: bool)
        requires
            old(self).buffer is Some,
            old(output).wf(),
            old(output).holds(*old(reservation)),
            old(reservation).bytes == old(self).capacity,
            old(pool).wf(),
        ensures
            final(output).wf(),
            final(output).holds(*final(reservation)),
            final(reservation).bytes == final(self).capacity,
            final(pool).wf(),
            r == (old(output).bytes + old(output).reserved_bytes - old(reservation).bytes + grown
                <= LocalInputQueue::MAX_BYTES),
            r ==> {
                &&& final(self).buffer == Some(replacement)
                &&& final(self).capacity == grown
                &&& local_queue::kept_or_freed(
                    old(pool).buffers@,
                    (old(self).buffer->0)@.len(),
                    final(pool).buffers@,
                )
            },
            !r ==> *final(self) == *old(self) && *final(reservation) == *old(reservation)
                && *final(output) == *old(output) && *final(pool) == *old(pool),
            final(output).packets@ == old(output).packets@,
            final(output).backpressured@ == old(output).backpressured@,
            final(output).deferred_routes@ == old(output).deferred_routes@,
            final(output).frames == old(output).frames,
            final(output).bytes == old(output).bytes,
            final(output).reserved_frames == old(output).reserved_frames,
            final(output).reserved_bytes == old(output).reserved_bytes - old(reservation).bytes
                + final(reservation).bytes,
    {
        if !reservation.try_resize(output, grown) {
            return false;
        }
        let mut buffer = Some(replacement);
        std::mem::swap(&mut buffer, &mut self.buffer);
        self.capacity = grown;
        pool.recycle_scratch(buffer.unwrap());
        true
    }

    /// Makes the buffer hold at least `capacity` bytes, within what `reservation` can be given. A
    /// buffer that is too small is replaced by an empty one and goes back to `pool`. Allocation may
    /// fail; nothing then changes.
    pub fn try_ensure_capacity(
        &mut self,
        capacity: usize,
        reservation: &mut LocalOutputReservation,
        output: &mut LocalOutputQueueState,
        pool: &mut LocalOutputScratchPool,
    ) -> (r: bool)
        requires
            old(self).buffer is Some,
            old(output).wf(),
            old(output).holds(*old(reservation)),
            old(reservation).bytes == old(self).capacity,
            old(pool).wf(),
        ensures
            final(self).buffer is Some,
            final(output).wf(),
            final(output).holds(*final(reservation)),
            final(reservation).bytes == final(self).capacity,
            final(pool).wf(),
            old(self).capacity >= capacity ==> r && *final(self) == *old(self)
                && *final(reservation) == *old(reservation) && *final(output) == *old(output)
                && *final(pool) == *old(pool),
            old(self).capacity < capacity && old(output).bytes + old(output).reserved_bytes
                - old(reservation).bytes + capacity > LocalInputQueue::MAX_BYTES ==> !r,
            r ==> final(self).capacity >= capacity,
            r && old(self).capacity < capacity ==> {
                &&& (final(self).buffer->0)@.len() == 0
                &&& local_queue::kept_or_freed(
                    old(pool).buffers@,
                    (old(self).buffer->0)@.len(),
                    final(pool).buffers@,
                )
            },
            !r ==> *final(self) == *old(self) && *final(reservation) == *old(reservation)
                && *final(output) == *old(output) && *final(pool) == *old(pool),
            final(output).packets@ == old(output).packets@,
            final(output).backpressured@ == old(output).backpressured@,
            final(output).deferred_routes@ == old(output).deferred_routes@,
            final(output).frames == old(output).frames,
            final(output).bytes == old(output).bytes,
            final(output).reserved_frames == old(output).reserved_frames,
            final(output).reserved_bytes == old(output).reserved_bytes - old(reservation).bytes
                + final(reservation).bytes,
    {
        if self.capacity >= capacity {
            return true;
        }
        let mut replacement: Vec<u8> = Vec::new();
        if !try_reserve_bytes(&mut replacement, capacity) {
            return false;
        }
        let grown: usize = byte_capacity(&replacement);
        if grown < capacity {
            return false;
        }
        self.replace_buffer(replacement, grown, reservation, output, pool)
    }

    /// Takes the buffer out.
    pub fn take(&mut self) -> (r: Option<Vec<u8>>)
        ensures
            r == old(self).buffer,
            final(self).buffer is None,
            final(self).capacity == old(self).capacity,
    {
        let mut buffer: Option<Vec<u8>> = None;
        std::mem::swap(&mut buffer, &mut self.buffer);
        buffer
    }

    /// Gives an unused buffer back to its pool.
    pub fn discard(self, pool: &mut LocalOutputScratchPool)
        requires
            old(pool).wf(),
        ensures
            final(pool).wf(),
            self.buffer is None ==> *final(pool) == *old(pool),
            self.buffer matches Some(buffer) ==> local_queue::kept_or_freed(
                old(pool).buffers@,
                buffer@.len(),
                final(pool).buffers@,
            ),
    {
        if let Some(buffer) = self.buffer {
            pool.recycle_scratch(buffer);
        }
    }
}

/// What the stack is told about a packet that it is about to frame.
#[derive(Clone, Copy, Debug)]
pub struct TxEgressOverride {
    pub medium: Medium,
    pub ip_mtu: usize,
    pub context: [u64; 3],
}

/// Room for one response of the local stack.
#[derive(Debug)]
pub struct LocalInputTxToken {
    pub medium: Medium,
    pub meta: PacketMeta,
    pub disposition: LocalOutputDisposition,
    pub owner_ip_mtu: usize,
    pub reservation: LocalOutputReservation,
    pub scratch: LocalInputScratch,
}

/// The largest packet on `route`: IPv4 allows no more than 65535 bytes.
pub open spec fn route_mtu(route: OutputRouteDecision) -> usize {
    if route.ip_mtu < 0xffff {
        route.ip_mtu
    } else {
        0xffff
    }
}

/// The largest packet that is made, given whether the buffer could be grown for the route.
pub open spec fn chosen_mtu(route: OutputRouteDecision, owner_ip_mtu: usize, grown: bool) -> usize {
    if grown || route_mtu(route) < owner_ip_mtu {
        route_mtu(route)
    } else {
        owner_ip_mtu
    }
}

/// Where a packet goes and what the stack is told, for each decision.
pub open spec fn backend_effect(
    medium: Medium,
    disposition: LocalOutputDisposition,
    owner_ip_mtu: usize,
    decision: OutputBackendDecision,
    grown: bool,
) -> (Medium, LocalOutputDisposition, usize, Seq<u64>) {
    match decision {
        OutputBackendDecision::NativeOwner => (
            medium,
            disposition,
            owner_ip_mtu,
            LocalOutputDisposition::NATIVE_CONTEXT@,
        ),
        OutputBackendDecision::Deferred(None) => (
            Medium::Ip,
            LocalOutputDisposition::Drop,
            owner_ip_mtu,
            LocalOutputDisposition::DROP_CONTEXT@,
        ),
        OutputBackendDecision::Deferred(Some(route)) => {
            let ip_mtu = chosen_mtu(route, owner_ip_mtu, grown);
            if route.local {
                (
                    Medium::Ip,
                    LocalOutputDisposition::Local { oif: route.oif, ip_mtu },
                    ip_mtu,
                    LocalOutputDisposition::spec_local_context(route.oif),
                )
            } else if route.next_hop is Ipv6 {
                (
                    Medium::Ip,
                    LocalOutputDisposition::Drop,
                    owner_ip_mtu,
                    LocalOutputDisposition::DROP_CONTEXT@,
                )
            } else {
                (
                    Medium::Ip,
                    LocalOutputDisposition::Routed { oif: route.oif, next_hop: route.next_hop, ip_mtu },
                    ip_mtu,
                    LocalOutputDisposition::spec_routed_context(route.oif, route.next_hop),
                )
            }
        },
    }
}

/// The buffer size that a decision asks for.
pub open spec fn wanted_for(decision: OutputBackendDecision) -> Option<usize> {
    match decision {
        OutputBackendDecision::Deferred(Some(route)) => if route.local || route.next_hop is Ipv4 {
            Some(route_mtu(route))
        } else {
            None
        },
        _ => None,
    }
}

/// A decision was applied to a token, and `grown` tells whether the buffer holds what the decision
/// asks for. A buffer that holds it already is kept, and so is one that could not be grown.
pub open spec fn decision_applied(
    before: LocalInputTxToken,
    output: &LocalOutputQueueState,
    decision: OutputBackendDecision,
    grown: bool,
    after: LocalInputTxToken,
    egress: TxEgressOverride,
) -> bool {
    &&& (after.medium, after.disposition, egress.ip_mtu, egress.context@) == backend_effect(
        before.medium,
        before.disposition,
        before.owner_ip_mtu,
        decision,
        grown,
    )
    &&& egress.medium == after.medium
    &&& after.meta == before.meta
    &&& after.owner_ip_mtu == before.owner_ip_mtu
    &&& match wanted_for(decision) {
        None => grown && after.scratch == before.scratch,
        Some(wanted) => {
            &&& grown ==> after.scratch.capacity >= wanted
            &&& before.scratch.capacity >= wanted ==> grown && after.scratch == before.scratch
            &&& before.scratch.capacity < wanted && output.bytes + output.reserved_bytes
                - before.reservation.bytes + wanted > LocalInputQueue::MAX_BYTES ==> !grown
            &&& !grown ==> after.scratch == before.scratch
        },
    }
}

impl LocalInputTxToken {
    /// The token's room is set aside in `output`.
    pub open spec fn wf(&self, output: &LocalOutputQueueState) -> bool {
        &&& self.scratch.buffer is Some
        &&& self.reservation.bytes == self.scratch.capacity
        &&& output.holds(self.reservation)
    }

    /// The buffer size that a decision asks for.
    pub fn wanted_capacity(decision: OutputBackendDecision) -> (r: Option<usize>)
        ensures
            r == wanted_for(decision),
    {
        match decision {
            OutputBackendDecision::NativeOwner => None,
            OutputBackendDecision::Deferred(route) => match route {
                None => None,
                Some(route) => {
                    let mtu: usize = if route.ip_mtu < 0xffff {
                        route.ip_mtu
                    } else {
                        0xffff
                    };
                    if route.local {
                        return Some(mtu);
                    }
                    match route.next_hop {
                        IpAddress::Ipv4(_) => Some(mtu),
                        IpAddress::Ipv6(_) => None,
                    }
                },
            },
        }
    }

    /// Applies a decision. `grown` tells whether the buffer holds what the decision asks for.
    pub fn apply_decision(&mut self, decision: OutputBackendDecision, grown: bool) -> (r:
        TxEgressOverride)
        requires
            decision matches OutputBackendDecision::Deferred(Some(route)) ==> route.oif != 0,
        ensures
            (final(self).medium, final(self).disposition, r.ip_mtu, r.context@) == backend_effect(
                old(self).medium,
                old(self).disposition,
                old(self).owner_ip_mtu,
                decision,
                grown,
            ),
            r.medium == final(self).medium,
            final(self).meta == old(self).meta,
            final(self).owner_ip_mtu == old(self).owner_ip_mtu,
            final(self).reservation == old(self).reservation,
            final(self).scratch == old(self).scratch,
    {
        let route = match decision {
            OutputBackendDecision::NativeOwner => {
                return TxEgressOverride {
                    medium: self.medium,
                    ip_mtu: self.owner_ip_mtu,
                    context: LocalOutputDisposition::NATIVE_CONTEXT,
                };
            },
            OutputBackendDecision::Deferred(route) => route,
        };
        self.medium = Medium::Ip;
        if let Some(route) = route {
            let route_ip_mtu: usize = if route.ip_mtu < 0xffff {
                route.ip_mtu
            } else {
                0xffff
            };
            let ip_mtu: usize = if grown || route_ip_mtu < self.owner_ip_mtu {
                route_ip_mtu
            } else {
                self.owner_ip_mtu
            };
            if route.local {
                self.disposition = LocalOutputDisposition::Local { oif: route.oif, ip_mtu };
                return TxEgressOverride {
                    medium: Medium::Ip,
                    ip_mtu,
                    context: LocalOutputDisposition::local_context(route.oif),
                };
            }
            if let IpAddress::Ipv4(_) = route.next_hop {
                self.disposition =
                LocalOutputDisposition::Routed { oif: route.oif, next_hop: route.next_hop, ip_mtu };
                return TxEgressOverride {
                    medium: Medium::Ip,
                    ip_mtu,
                    context: LocalOutputDisposition::routed_context(route.oif, route.next_hop),
                };
            }
        }
        self.disposition = LocalOutputDisposition::Drop;
        TxEgressOverride {
            medium: Medium::Ip,
            ip_mtu: self.owner_ip_mtu,
            context: LocalOutputDisposition::DROP_CONTEXT,
        }
    }

    /// Grows the buffer as far as the decision asks for it and memory allows, and applies the
    /// decision.
    pub fn apply_backend_decision(
        &mut self,
        decision: OutputBackendDecision,
        output: &mut LocalOutputQueueState,
        pool: &mut LocalOutputScratchPool,
    ) -> (r: TxEgressOverride)
        requires
            old(output).wf(),
            old(self).wf(old(output)),
            old(pool).wf(),
            decision matches OutputBackendDecision::Deferred(Some(route)) ==> route.oif != 0,
        ensures
            final(output).wf(),
            final(self).wf(final(output)),
            final(pool).wf(),
            exists|grown: bool| #[trigger]
                decision_applied(*old(self), old(output), decision, grown, *final(self), r),
            final(self).scratch.capacity >= old(self).scratch.capacity,
            old(self).owner_ip_mtu <= old(self).scratch.capacity ==> r.ip_mtu
                <= final(self).scratch.capacity,
            final(self).scratch == old(self).scratch ==> *final(output) == *old(output)
                && *final(pool) == *old(pool),
            final(output).reserved_bytes == old(output).reserved_bytes - old(self).reservation.bytes
                + final(self).reservation.bytes,
            final(output).packets@ == old(output).packets@,
            final(output).backpressured@ == old(output).backpressured@,
            final(output).deferred_routes@ == old(output).deferred_routes@,
            final(output).frames == old(output).frames,
            final(output).bytes == old(output).bytes,
            final(output).reserved_frames == old(output).reserved_frames,
    {
        let grown = match Self::wanted_capacity(decision) {
            Some(capacity) => self.scratch.try_ensure_capacity(
                capacity,
                &mut self.reservation,
                output,
                pool,
            ),
            None => true,
        };
        let r = self.apply_decision(decision, grown);
        assert(decision_applied(*old(self), old(output), decision, grown, *self, r));
        r
    }

    /// Takes over what the stack saved of an earlier decision for the rest of a packet.
    /// Returns whether there was room for it.
    pub fn apply_egress_override(
        &mut self,
        egress: Option<TxEgressOverride>,
        output: &mut LocalOutputQueueState,
        pool: &mut LocalOutputScratchPool,
    ) -> (r: bool)
        requires
            old(output).wf(),
            old(self).wf(old(output)),
            old(pool).wf(),
        ensures
            final(output).wf(),
            final(self).wf(final(output)),
            final(pool).wf(),
            match egress {
                None => {
                    &&& r
                    &&& final(self).disposition == LocalOutputDisposition::NativeOwner
                    &&& final(self).medium == old(self).medium
                    &&& final(self).scratch == old(self).scratch
                    &&& *final(output) == *old(output)
                    &&& *final(pool) == *old(pool)
                },
                Some(egress) => {
                    &&& r ==> final(self).medium == egress.medium && final(self).disposition
                        == LocalOutputDisposition::spec_from_context(
                        egress.context@,
                        egress.ip_mtu,
                    ) && final(self).scratch.capacity >= egress.ip_mtu
                    &&& !r ==> final(self).medium == old(self).medium && final(self).disposition
                        == LocalOutputDisposition::Drop && final(self).reservation == old(
                        self,
                    ).reservation && final(self).scratch == old(self).scratch && *final(output)
                        == *old(output) && *final(pool) == *old(pool)
                    &&& old(self).scratch.capacity >= egress.ip_mtu ==> r && final(self).scratch
                        == old(self).scratch && *final(output) == *old(output) && *final(pool)
                        == *old(pool)
                    &&& old(self).scratch.capacity < egress.ip_mtu && old(output).bytes
                        + old(output).reserved_bytes - old(self).reservation.bytes + egress.ip_mtu
                        > LocalInputQueue::MAX_BYTES ==> !r
                },
            },
            final(self).meta == old(self).meta,
            final(self).owner_ip_mtu == old(self).owner_ip_mtu,
            final(output).packets@ == old(output).packets@,
            final(output).backpressured@ == old(output).backpressured@,
            final(output).deferred_routes@ == old(output).deferred_routes@,
            final(output).frames == old(output).frames,
            final(output).bytes == old(output).bytes,
            final(output).reserved_frames == old(output).reserved_frames,
    {
        let egress = match egress {
            Some(egress) => egress,
            None => {
                self.disposition = LocalOutputDisposition::NativeOwner;
                return true;
            },
        };
        if !self.scratch.try_ensure_capacity(
            egress.ip_mtu,
            &mut self.reservation,
            output,
            pool,
        ) {
            self.disposition = LocalOutputDisposition::Drop;
            return false;
        }
        self.medium = egress.medium;
        self.disposition = LocalOutputDisposition::from_context(egress.context, egress.ip_mtu);
        true
    }

    /// Queues the frame that the stack wrote.
    pub fn consume(self, frame: &[u8], output: &mut LocalOutputQueueState)
        requires
            old(output).wf(),
            self.wf(old(output)),
        ensures
            final(output).wf(),
            final(output).spent(old(output), self.reservation),
            final(output).packets@.len() == old(output).packets@.len() + 1,
            final(output).packets@.drop_last() == old(output).packets@,
            final(output).packets@.last().medium == self.medium,
            final(output).packets@.last().meta == self.meta,
            final(output).packets@.last().disposition == self.disposition,
            final(output).packets@.last().frame@ == frame@,
            final(output).backpressured@ == old(output).backpressured@,
            final(output).deferred_routes@ == old(output).deferred_routes@,
    {
        let mut scratch = self.scratch;
        scratch.fill(frame);
        let packet = LocalOutputPacket {
            medium: self.medium,
            meta: self.meta,
            disposition: self.disposition,
            frame: scratch.take().unwrap(),
            charge: self.reservation.bytes,
        };
        self.reservation.commit_packet(output, packet);
        assert(output.packets@.drop_last() =~= old(output).packets@);
    }

    /// Remembers what travels with the packet.
    pub fn set_meta(&mut self, meta: PacketMeta)
        ensures
            *final(self) == (LocalInputTxToken { meta, ..*old(self) }),
    {
        self.meta = meta;
    }

    /// Gives the room and the buffer of an unused token back.
    pub fn release(self, queue: &mut LocalInputQueue)
        requires
            old(queue).wf(),
            self.wf(&old(queue).output),
        ensures
            final(queue).wf(),
            final(queue).state == old(queue).state,
            final(queue).output.reserved_frames == old(queue).output.reserved_frames - 1,
            final(queue).output.reserved_bytes == old(queue).output.reserved_bytes
                - self.reservation.bytes,
            final(queue).output.packets@ == old(queue).output.packets@,
            final(queue).output.backpressured@ == old(queue).output.backpressured@,
            final(queue).output.deferred_routes@ == old(queue).output.deferred_routes@,
            final(queue).output.frames == old(queue).output.frames,
            final(queue).output.bytes == old(queue).output.bytes,
    {
        self.scratch.discard(&mut queue.response_scratch);
        self.reservation.release(&mut queue.output);
    }
}

/// A token with the buffer that was found for it, if one was found and its size fits into the room
/// that is left; otherwise the room of `reservation` is given back.
pub fn reserved_tx_token(
    queue: &mut LocalInputQueue,
    reservation: LocalOutputReservation,
    scratch: Option<LocalInputScratch>,
    medium: Medium,
    ip_mtu: usize,
) -> (r: Option<LocalInputTxToken>)
    requires
        old(queue).wf(),
        old(queue).output.holds(reservation),
        reservation.bytes == 0,
        scratch matches Some(scratch) ==> scratch.buffer is Some,
    ensures
        final(queue).wf(),
        r is Some <==> scratch is Some && old(queue).output.bytes
            + old(queue).output.reserved_bytes + scratch->0.capacity
            <= LocalInputQueue::MAX_BYTES,
        r matches Some(token) ==> {
            &&& token.wf(&final(queue).output)
            &&& token.medium == medium
            &&& token.meta.id == 0
            &&& token.disposition == LocalOutputDisposition::NativeOwner
            &&& token.owner_ip_mtu == ip_mtu
            &&& token.scratch == scratch->0
            &&& final(queue).response_scratch == old(queue).response_scratch
            &&& final(queue).output.reserved_frames == old(queue).output.reserved_frames
            &&& final(queue).output.reserved_bytes == old(queue).output.reserved_bytes
                + token.scratch.capacity
        },
        r is None ==> final(queue).output.reserved_frames == old(queue).output.reserved_frames - 1
            && final(queue).output.reserved_bytes == old(queue).output.reserved_bytes,
        scratch is None ==> final(queue).response_scratch == old(queue).response_scratch,
        r is None && scratch is Some ==> local_queue::kept_or_freed(
            old(queue).response_scratch.buffers@,
            (scratch->0.buffer->0)@.len(),
            final(queue).response_scratch.buffers@,
        ),
        final(queue).state == old(queue).state,
        final(queue).output_draining == old(queue).output_draining,
        final(queue).output.packets@ == old(queue).output.packets@,
        final(queue).output.backpressured@ == old(queue).output.backpressured@,
        final(queue).output.deferred_routes@ == old(queue).output.deferred_routes@,
        final(queue).output.frames == old(queue).output.frames,
        final(queue).output.bytes == old(queue).output.bytes,
{
    let mut reservation = reservation;
    let scratch = match scratch {
        Some(scratch) => scratch,
        None => {
            reservation.release(&mut queue.output);
            return None;
        },
    };
    if !reservation.try_resize(&mut queue.output, scratch.capacity) {
        scratch.discard(&mut queue.response_scratch);
        reservation.release(&mut queue.output);
        return None;
    }
    Some(
        LocalInputTxToken {
            medium,
            meta: PacketMeta { id: 0 },
            disposition: LocalOutputDisposition::NativeOwner,
            owner_ip_mtu: ip_mtu,
            reservation,
            scratch,
        },
    )
}

/// Sets room and a buffer for one response aside. Allocation may fail.
pub fn local_tx_token(
    queue: &mut LocalInputQueue,
    medium: Medium,
    max_transmission_unit: usize,
    ip_mtu: usize,
) -> (r: Option<LocalInputTxToken>)
    requires
        old(queue).wf(),
    ensures
        final(queue).wf(),
        r matches Some(token) ==> {
            &&& token.wf(&final(queue).output)
            &&& token.medium == medium
            &&& token.meta.id == 0
            &&& token.disposition == LocalOutputDisposition::NativeOwner
            &&& token.owner_ip_mtu == ip_mtu
            &&& token.scratch.capacity >= max_transmission_unit
            &&& (token.scratch.buffer->0)@.len() == 0
            &&& final(queue).response_scratch.buffers@
                == old(queue).response_scratch.without_last()
            &&& old(queue).output.frames + old(queue).output.reserved_frames
                < LocalInputQueue::MAX_FRAMES
            &&& final(queue).output.reserved_frames == old(queue).output.reserved_frames + 1
            &&& final(queue).output.reserved_bytes == old(queue).output.reserved_bytes
                + token.scratch.capacity
        },
        old(queue).output.frames + old(queue).output.reserved_frames >= LocalInputQueue::MAX_FRAMES
            ==> r is None,
        old(queue).output.bytes + old(queue).output.reserved_bytes + max_transmission_unit
            > LocalInputQueue::MAX_BYTES ==> r is None,
        r is None ==> final(queue).output.reserved_frames == old(queue).output.reserved_frames
            && final(queue).output.reserved_bytes == old(queue).output.reserved_bytes,
        r is None ==> final(queue).response_scratch == old(queue).response_scratch
            || local_queue::kept_or_freed(
            old(queue).response_scratch.without_last(),
            0,
            final(queue).response_scratch.buffers@,
        ),
        final(queue).state == old(queue).state,
        final(queue).output_draining == old(queue).output_draining,
        final(queue).output.packets@ == old(queue).output.packets@,
        final(queue).output.backpressured@ == old(queue).output.backpressured@,
        final(queue).output.deferred_routes@ == old(queue).output.deferred_routes@,
        final(queue).output.frames == old(queue).output.frames,
        final(queue).output.bytes == old(queue).output.bytes,
{
    let reservation = match queue.output.reserve_output() {
        Some(reservation) => reservation,
        None => {
            return None;
        },
    };
    let scratch = LocalInputScratch::checkout(&mut queue.response_scratch, max_transmission_unit);
    reserved_tx_token(queue, reservation, scratch, medium, ip_mtu)
}

/// A transmit token of the owner's device, with room in the output queue taken only for a packet
/// that the device cannot send.
#[derive(Debug)]
pub struct RoutedTxToken {
    /// The metadata of the device's own token, while there is one.
    pub physical: Option<PacketMeta>,
    pub routed: Option<LocalInputTxToken>,
    pub medium: Medium,
    pub max_transmission_unit: usize,
    pub ip_mtu: usize,
}

/// Who sends the frame that the stack wrote.
#[derive(Clone, Copy, Debug, PartialEq, Eq, Structural)]
pub enum RoutedTxBackend {
    /// The output queue took it.
    Queued,
    /// It goes to the device, with this metadata.
    Physical(PacketMeta),
}

/// The context stands for the device that owns the stack.
pub open spec fn names_native_owner(egress: Option<TxEgressOverride>) -> bool {
    egress matches Some(egress) ==> egress.context@ == LocalOutputDisposition::NATIVE_CONTEXT@
}

impl RoutedTxToken {
    pub fn new(
        physical: Option<PacketMeta>,
        medium: Medium,
        max_transmission_unit: usize,
        ip_mtu: usize,
    ) -> (r: Self)
        ensures
            r == (RoutedTxToken { physical, routed: None, medium, max_transmission_unit, ip_mtu }),
    {
        RoutedTxToken { physical, routed: None, medium, max_transmission_unit, ip_mtu }
    }

    /// The room that the token took is set aside in `output`.
    pub open spec fn wf(&self, output: &LocalOutputQueueState) -> bool {
        self.routed matches Some(routed) ==> routed.wf(output)
    }

    /// Applies a decision that the device's own token does not serve. `routed` is the room in the
    /// output queue, if there was any.
    pub fn egress_through(
        &mut self,
        decision: OutputBackendDecision,
        routed: Option<LocalInputTxToken>,
        queue: &mut LocalInputQueue,
    ) -> (r: Option<TxEgressOverride>)
        requires
            old(queue).wf(),
            old(self).routed is None,
            routed matches Some(token) ==> token.wf(&old(queue).output),
            decision matches OutputBackendDecision::Deferred(Some(route)) ==> route.oif != 0,
        ensures
            final(queue).wf(),
            final(self).wf(&final(queue).output),
            r is Some <==> routed is Some,
            *final(self) == (RoutedTxToken { routed: final(self).routed, ..*old(self) }),
            match routed {
                None => *final(self) == *old(self) && *final(queue) == *old(queue),
                Some(token) => {
                    let taken = final(self).routed->0;
                    &&& final(self).routed is Some
                    &&& exists|grown: bool| #[trigger]
                        decision_applied(token, &old(queue).output, decision, grown, taken, r->0)
                    &&& taken.scratch.capacity >= token.scratch.capacity
                    &&& token.owner_ip_mtu <= token.scratch.capacity ==> (r->0).ip_mtu
                        <= taken.scratch.capacity
                },
            },
            final(queue).state == old(queue).state,
            final(queue).output_draining == old(queue).output_draining,
            final(queue).output.packets@ == old(queue).output.packets@,
            final(queue).output.backpressured@ == old(queue).output.backpressured@,
            final(queue).output.deferred_routes@ == old(queue).output.deferred_routes@,
            final(queue).output.frames == old(queue).output.frames,
            final(queue).output.bytes == old(queue).output.bytes,
            final(queue).output.reserved_frames == old(queue).output.reserved_frames,
    {
        let mut routed = match routed {
            Some(routed) => routed,
            None => {
                return None;
            },
        };
        let egress = routed.apply_backend_decision(
            decision,
            &mut queue.output,
            &mut queue.response_scratch,
        );
        self.routed = Some(routed);
        Some(egress)
    }

    /// Applies a decision. The device's own token serves the native path; any other path takes
    /// room in the output queue. `None` means that there was no token or no room.
    pub fn egress_override(
        &mut self,
        decision: OutputBackendDecision,
        queue: &mut LocalInputQueue,
    ) -> (r: Option<TxEgressOverride>)
        requires
            old(queue).wf(),
            old(self).routed is None,
            decision matches OutputBackendDecision::Deferred(Some(route)) ==> route.oif != 0,
        ensures
            final(queue).wf(),
            final(self).wf(&final(queue).output),
            final(self).physical == old(self).physical,
            final(self).medium == old(self).medium,
            final(self).max_transmission_unit == old(self).max_transmission_unit,
            final(self).ip_mtu == old(self).ip_mtu,
            decision is NativeOwner ==> *final(self) == *old(self) && *final(queue) == *old(queue)
                && (r is Some <==> old(self).physical is Some),
            decision is NativeOwner ==> (r matches Some(egress) ==> egress.medium
                == old(self).medium && egress.ip_mtu == old(self).ip_mtu && egress.context@
                == LocalOutputDisposition::NATIVE_CONTEXT@),
            decision is Deferred ==> (r is Some <==> final(self).routed is Some),
            decision is Deferred && r is Some ==> old(queue).output.frames
                + old(queue).output.reserved_frames < LocalInputQueue::MAX_FRAMES
                && final(queue).output.reserved_frames == old(queue).output.reserved_frames + 1,
            decision is Deferred && r is None ==> final(queue).output.reserved_frames
                == old(queue).output.reserved_frames && final(queue).output.reserved_bytes
                == old(queue).output.reserved_bytes,
            decision is Deferred ==> (r matches Some(egress) ==> {
                let routed = final(self).routed->0;
                &&& routed.meta.id == 0
                &&& routed.owner_ip_mtu == old(self).ip_mtu
                &&& egress.medium == routed.medium
                &&& routed.scratch.capacity >= old(self).max_transmission_unit
                &&& old(self).ip_mtu <= old(self).max_transmission_unit ==> egress.ip_mtu
                    <= routed.scratch.capacity
                &&& exists|grown: bool|
                    {
                        &&& (routed.medium, routed.disposition, egress.ip_mtu, egress.context@)
                            == #[trigger] backend_effect(
                            old(self).medium,
                            LocalOutputDisposition::NativeOwner,
                            old(self).ip_mtu,
                            decision,
                            grown,
                        )
                        &&& wanted_for(decision) matches Some(wanted) ==> (grown
                            <==> routed.scratch.capacity >= wanted)
                    }
            }),
            decision is Deferred && (old(queue).output.frames + old(queue).output.reserved_frames
                >= LocalInputQueue::MAX_FRAMES || old(queue).output.bytes
                + old(queue).output.reserved_bytes + old(self).max_transmission_unit
                > LocalInputQueue::MAX_BYTES) ==> r is None,
            final(queue).state == old(queue).state,
            final(queue).output.packets@ == old(queue).output.packets@,
            final(queue).output.backpressured@ == old(queue).output.backpressured@,
            final(queue).output.deferred_routes@ == old(queue).output.deferred_routes@,
    {
        if let OutputBackendDecision::NativeOwner = decision {
            if self.physical.is_none() {
                return None;
            }
            return Some(
                TxEgressOverride {
                    medium: self.medium,
                    ip_mtu: self.ip_mtu,
                    context: LocalOutputDisposition::NATIVE_CONTEXT,
                },
            );
        }
        let routed = local_tx_token(queue, self.medium, self.max_transmission_unit, self.ip_mtu);
        let ghost token = routed;
        let ghost mid = queue.output;
        let r = self.egress_through(decision, routed, queue);
        proof {
            if let Some(egress) = r {
                let taken = self.routed->0;
                let grown = choose|grown: bool| #[trigger]
                    decision_applied(token->0, &mid, decision, grown, taken, egress);
                assert((taken.medium, taken.disposition, egress.ip_mtu, egress.context@)
                    == backend_effect(
                    old(self).medium,
                    LocalOutputDisposition::NativeOwner,
                    old(self).ip_mtu,
                    decision,
                    grown,
                ));
            }
        }
        r
    }

    /// Takes over what the stack saved of an earlier decision that the device's own token does not
    /// serve. `routed` is the room in the output queue, if there was any; it is given back if the
    /// buffer cannot be grown.
    pub fn saved_through(
        &mut self,
        saved: TxEgressOverride,
        routed: Option<LocalInputTxToken>,
        queue: &mut LocalInputQueue,
    ) -> (r: bool)
        requires
            old(queue).wf(),
            old(self).routed is None,
            routed matches Some(token) ==> token.wf(&old(queue).output),
        ensures
            final(queue).wf(),
            final(self).wf(&final(queue).output),
            *final(self) == (RoutedTxToken { routed: final(self).routed, ..*old(self) }),
            r == (final(self).routed is Some),
            match routed {
                None => !r && *final(queue) == *old(queue),
                Some(token) => {
                    let taken = final(self).routed->0;
                    &&& token.scratch.capacity >= saved.ip_mtu ==> r && taken.scratch
                        == token.scratch
                    &&& token.scratch.capacity < saved.ip_mtu && old(queue).output.bytes
                        + old(queue).output.reserved_bytes - token.reservation.bytes + saved.ip_mtu
                        > LocalInputQueue::MAX_BYTES ==> !r
                    &&& r ==> {
                        &&& taken.meta == token.meta
                        &&& taken.owner_ip_mtu == token.owner_ip_mtu
                        &&& taken.medium == saved.medium
                        &&& taken.disposition == LocalOutputDisposition::spec_from_context(
                            saved.context@,
                            saved.ip_mtu,
                        )
                        &&& taken.scratch.capacity >= saved.ip_mtu
                        &&& final(queue).output.reserved_frames
                            == old(queue).output.reserved_frames
                    }
                    &&& !r ==> final(queue).output.reserved_frames
                        == old(queue).output.reserved_frames - 1
                        && final(queue).output.reserved_bytes == old(queue).output.reserved_bytes
                        - token.reservation.bytes
                },
            },
            final(queue).state == old(queue).state,
            final(queue).output.packets@ == old(queue).output.packets@,
            final(queue).output.backpressured@ == old(queue).output.backpressured@,
            final(queue).output.deferred_routes@ == old(queue).output.deferred_routes@,
            final(queue).output.frames == old(queue).output.frames,
            final(queue).output.bytes == old(queue).output.bytes,
    {
        let mut routed = match routed {
            Some(routed) => routed,
            None => {
                return false;
            },
        };
        if !routed.apply_egress_override(
            Some(saved),
            &mut queue.output,
            &mut queue.response_scratch,
        ) {
            routed.release(queue);
            return false;
        }
        self.routed = Some(routed);
        true
    }

    /// Takes over what the stack saved of an earlier decision for the rest of a packet. Returns
    /// whether there was a token or room for it.
    pub fn apply_egress_override(
        &mut self,
        egress: Option<TxEgressOverride>,
        queue: &mut LocalInputQueue,
    ) -> (r: bool)
        requires
            old(queue).wf(),
            old(self).routed is None,
        ensures
            final(queue).wf(),
            final(self).wf(&final(queue).output),
            final(self).physical == old(self).physical,
            final(self).medium == old(self).medium,
            final(self).max_transmission_unit == old(self).max_transmission_unit,
            final(self).ip_mtu == old(self).ip_mtu,
            names_native_owner(egress) ==> *final(self) == *old(self) && *final(queue) == *old(
                queue,
            ) && r == (old(self).physical is Some),
            !names_native_owner(egress) ==> (r <==> final(self).routed is Some),
            !names_native_owner(egress) && r ==> {
                let routed = final(self).routed->0;
                &&& routed.meta.id == 0
                &&& routed.owner_ip_mtu == old(self).ip_mtu
                &&& routed.medium == egress->0.medium
                &&& routed.disposition == LocalOutputDisposition::spec_from_context(
                    egress->0.context@,
                    egress->0.ip_mtu,
                )
                &&& routed.scratch.capacity >= egress->0.ip_mtu
                &&& old(queue).output.frames + old(queue).output.reserved_frames
                    < LocalInputQueue::MAX_FRAMES
                &&& final(queue).output.reserved_frames == old(queue).output.reserved_frames + 1
            },
            !r ==> final(queue).output.reserved_frames == old(queue).output.reserved_frames
                && final(queue).output.reserved_bytes == old(queue).output.reserved_bytes,
            final(queue).state == old(queue).state,
            final(queue).output.packets@ == old(queue).output.packets@,
            final(queue).output.backpressured@ == old(queue).output.backpressured@,
            final(queue).output.deferred_routes@ == old(queue).output.deferred_routes@,
    {
        let native = LocalOutputDisposition::NATIVE_CONTEXT;
        let saved = match egress {
            Some(saved) => saved,
            None => {
                return self.physical.is_some();
            },
        };
        if saved.context[0] == native[0] && saved.context[1] == native[1] && saved.context[2]
            == native[2] {
            assert(saved.context@ =~= native@);
            return self.physical.is_some();
        }
        let routed = local_tx_token(queue, self.medium, self.max_transmission_unit, self.ip_mtu);
        self.saved_through(saved, routed, queue)
    }

    /// Hands the frame that the stack wrote to the path that was chosen.
    pub fn consume(self, frame: &[u8], output: &mut LocalOutputQueueState) -> (r: RoutedTxBackend)
        requires
            old(output).wf(),
            self.wf(old(output)),
            self.routed is Some || self.physical is Some,
        ensures
            final(output).wf(),
            self.routed is None ==> *final(output) == *old(output) && r
                == RoutedTxBackend::Physical(self.physical->0),
            self.routed matches Some(routed) ==> {
                &&& r == RoutedTxBackend::Queued
                &&& final(output).spent(old(output), routed.reservation)
                &&& final(output).packets@.len() == old(output).packets@.len() + 1
                &&& final(output).packets@.drop_last() == old(output).packets@
                &&& final(output).packets@.last().medium == routed.medium
                &&& final(output).packets@.last().meta == routed.meta
                &&& final(output).packets@.last().disposition == routed.disposition
                &&& final(output).packets@.last().frame@ == frame@
                &&& final(output).backpressured@ == old(output).backpressured@
                &&& final(output).deferred_routes@ == old(output).deferred_routes@
            },
    {
        match self.routed {
            Some(routed) => {
                routed.consume(frame, output);
                RoutedTxBackend::Queued
            },
            None => RoutedTxBackend::Physical(self.physical.unwrap()),
        }
    }

    /// Remembers what travels with the packet, on whichever path it goes.
    pub fn set_meta(&mut self, meta: PacketMeta)
        ensures
            final(self).physical == (if old(self).physical is Some {
                Some(meta)
            } else {
                None
            }),
            final(self).routed == (match old(self).routed {
                Some(routed) => Some(LocalInputTxToken { meta, ..routed }),
                None => None,
            }),
            final(self).medium == old(self).medium,
            final(self).max_transmission_unit == old(self).max_transmission_unit,
            final(self).ip_mtu == old(self).ip_mtu,
    {
        if self.physical.is_some() {
            self.physical = Some(meta);
        }
        if let Some(routed) = self.routed.as_mut() {
            routed.set_meta(meta);
        }
    }
}

/// The outcome of sending one queued packet.
pub enum LocalOutputTransmitResult {
    Sent(LocalOutputPacket),
    RetrySoon(LocalOutputPacket),
    RetryAt { packet: LocalOutputPacket, retry_at: Instant, probe_sent: bool },
    Drop(LocalOutputPacket, SystemError),
}

/// What a send error means for the packet: a full queue is tried again, the rest is dropped.
pub fn output_error(packet: LocalOutputPacket, error: SystemError) -> (r: LocalOutputTransmitResult)
    ensures
        r == (if error == SystemError::ENOBUFS || error == SystemError::EAGAIN_OR_EWOULDBLOCK {
            LocalOutputTransmitResult::RetrySoon(packet)
        } else {
            LocalOutputTransmitResult::Drop(packet, error)
        }),
{
    if error == SystemError::ENOBUFS || error == SystemError::EAGAIN_OR_EWOULDBLOCK {
        LocalOutputTransmitResult::RetrySoon(packet)
    } else {
        LocalOutputTransmitResult::Drop(packet, error)
    }
}

/// The packet is a bare IPv4 packet of at most `ip_mtu` bytes.
pub open spec fn fits_ipv4(packet: LocalOutputPacket, ip_mtu: usize) -> bool {
    &&& packet.medium == Medium::Ip
    &&& packet.frame@.len() <= ip_mtu
    &&& packet.frame@.len() > 0
    &&& packet.frame@[0] >> 4 == 4
}

fn is_ipv4_within(packet: &LocalOutputPacket, ip_mtu: usize) -> (r: bool)
    ensures
        r == fits_ipv4(*packet, ip_mtu),
{
    packet.medium == Medium::Ip && packet.frame.len() <= ip_mtu && packet.frame.len() > 0
        && packet.frame[0] >> 4 == 4
}

/// Why a routed packet may not be sent through an interface, if there is a reason.
pub open spec fn routed_refusal(
    packet: LocalOutputPacket,
    egress_up: bool,
    egress_mtu: usize,
) -> Option<SystemError> {
    match packet.disposition {
        LocalOutputDisposition::Routed { ip_mtu, .. } => if !fits_ipv4(packet, ip_mtu) {
            Some(SystemError::EINVAL)
        } else if !egress_up {
            Some(SystemError::ENETDOWN)
        } else if packet.frame@.len() > egress_mtu {
            Some(SystemError::EMSGSIZE)
        } else {
            None
        },
        _ => Some(SystemError::EINVAL),
    }
}

/// Checks a routed packet against the interface that is to send it.
pub fn check_routed_output(packet: &LocalOutputPacket, egress_up: bool, egress_mtu: usize) -> (r:
    Option<SystemError>)
    ensures
        r == routed_refusal(*packet, egress_up, egress_mtu),
{
    match packet.disposition {
        LocalOutputDisposition::Routed { ip_mtu, .. } => {
            if !is_ipv4_within(packet, ip_mtu) {
                return Some(SystemError::EINVAL);
            }
            if !egress_up {
                return Some(SystemError::ENETDOWN);
            }
            if packet.frame.len() > egress_mtu {
                return Some(SystemError::EMSGSIZE);
            }
            None
        },
        _ => Some(SystemError::EINVAL),
    }
}

/// The outcome of sending a routed packet, given what the interface answered.
pub open spec fn routed_outcome(
    packet: LocalOutputPacket,
    egress_up: bool,
    egress_mtu: usize,
    sent: Result<(), RouteSendError>,
) -> LocalOutputTransmitResult {
    match routed_refusal(packet, egress_up, egress_mtu) {
        Some(error) => LocalOutputTransmitResult::Drop(packet, error),
        None => match sent {
            Ok(_) => LocalOutputTransmitResult::Sent(packet),
            Err(RouteSendError::RetryAt { retry_at, probe_sent }) =>
                LocalOutputTransmitResult::RetryAt { packet, retry_at, probe_sent },
            Err(RouteSendError::Failed(error)) => if error == SystemError::ENOBUFS || error
                == SystemError::EAGAIN_OR_EWOULDBLOCK {
                LocalOutputTransmitResult::RetrySoon(packet)
            } else {
                LocalOutputTransmitResult::Drop(packet, error)
            },
        },
    }
}

/// Turns the answer of the sending interface into the packet's fate. The interface is only asked
/// if `check_routed_output` finds no fault; otherwise `sent` is not looked at.
pub fn transmit_routed_stack_output(
    packet: LocalOutputPacket,
    egress_up: bool,
    egress_mtu: usize,
    sent: Result<(), RouteSendError>,
) -> (r: LocalOutputTransmitResult)
    ensures
        r == routed_outcome(packet, egress_up, egress_mtu, sent),
{
    if let Some(error) = check_routed_output(&packet, egress_up, egress_mtu) {
        return LocalOutputTransmitResult::Drop(packet, error);
    }
    match sent {
        Ok(_) => LocalOutputTransmitResult::Sent(packet),
        Err(error) => match error {
            RouteSendError::RetryAt { retry_at, probe_sent } =>
                LocalOutputTransmitResult::RetryAt { packet, retry_at, probe_sent },
            RouteSendError::Failed(error) => output_error(packet, error),
        },
    }
}

/// The outcome of a packet for the owner's device, given whether the device had a token.
pub fn transmit_native_output(packet: LocalOutputPacket, device_ready: bool) -> (r:
    LocalOutputTransmitResult)
    ensures
        r == (if device_ready {
            LocalOutputTransmitResult::Sent(packet)
        } else {
            LocalOutputTransmitResult::RetrySoon(packet)
        }),
{
    if !device_ready {
        return LocalOutputTransmitResult::RetrySoon(packet);
    }
    LocalOutputTransmitResult::Sent(packet)
}

/// The outcome of a packet for the owner's device, which takes none while it is down.
pub fn transmit_native_output_if_up(
    packet: LocalOutputPacket,
    owner_is_up: bool,
    device_ready: bool,
) -> (r: LocalOutputTransmitResult)
    ensures
        r == (if !owner_is_up {
            LocalOutputTransmitResult::Drop(packet, SystemError::ENETDOWN)
        } else if device_ready {
            LocalOutputTransmitResult::Sent(packet)
        } else {
            LocalOutputTransmitResult::RetrySoon(packet)
        }),
{
    if !owner_is_up {
        return LocalOutputTransmitResult::Drop(packet, SystemError::ENETDOWN);
    }
    transmit_native_output(packet, device_ready)
}

/// The outcome of a packet for this host. A full input queue loses it: no transmit completion
/// can make that queue writable.
pub fn transmit_local_delivery(packet: LocalOutputPacket, injected: Result<(), SystemError>) -> (r:
    LocalOutputTransmitResult)
    ensures
        r == (match injected {
            Ok(_) => LocalOutputTransmitResult::Sent(packet),
            Err(error) => LocalOutputTransmitResult::Drop(packet, error),
        }),
{
    match injected {
        Ok(_) => LocalOutputTransmitResult::Sent(packet),
        Err(error) => LocalOutputTransmitResult::Drop(packet, error),
    }
}

/// What sending one packet asks of the outside.
pub enum TransmitPlan {
    /// Nothing: the packet is dropped for this reason.
    Refuse(SystemError),
    /// Copy the frame into the owner's device.
    Native,
    /// Hand the packet to the input queue of this interface.
    Inject,
    /// Ask the interface to send the packet to this neighbor.
    Route(IpAddress),
}

/// The interface that a queued packet names, if it exists.
#[derive(Clone, Copy, Debug, PartialEq, Eq, Structural)]
pub struct EgressState {
    pub up: bool,
    pub mtu: usize,
}

/// What sending `packet` asks of the outside, given the interface that it names.
pub open spec fn spec_transmit_plan(
    packet: LocalOutputPacket,
    owner_is_up: bool,
    egress: Option<EgressState>,
) -> TransmitPlan {
    match packet.disposition {
        LocalOutputDisposition::NativeOwner => if owner_is_up {
            TransmitPlan::Native
        } else {
            TransmitPlan::Refuse(SystemError::ENETDOWN)
        },
        LocalOutputDisposition::Drop => TransmitPlan::Refuse(SystemError::ENETUNREACH),
        LocalOutputDisposition::Local { ip_mtu, .. } => if !fits_ipv4(packet, ip_mtu) {
            TransmitPlan::Refuse(SystemError::EINVAL)
        } else if egress is None {
            TransmitPlan::Refuse(SystemError::ENODEV)
        } else if packet.frame@.len() > egress->0.mtu {
            TransmitPlan::Refuse(SystemError::EMSGSIZE)
        } else {
            TransmitPlan::Inject
        },
        LocalOutputDisposition::Routed { next_hop, .. } => if egress is None {
            TransmitPlan::Refuse(SystemError::ENODEV)
        } else {
            match routed_refusal(packet, egress->0.up, egress->0.mtu) {
                Some(error) => TransmitPlan::Refuse(error),
                None => TransmitPlan::Route(next_hop),
            }
        },
    }
}

/// Decides how a queued packet is sent.
pub fn transmit_local_stack_output(
    packet: &LocalOutputPacket,
    owner_is_up: bool,
    egress: Option<EgressState>,
) -> (r: TransmitPlan)
    ensures
        r == spec_transmit_plan(*packet, owner_is_up, egress),
{
    match packet.disposition {
        LocalOutputDisposition::NativeOwner => {
            if owner_is_up {
                TransmitPlan::Native
            } else {
                TransmitPlan::Refuse(SystemError::ENETDOWN)
            }
        },
        LocalOutputDisposition::Drop => TransmitPlan::Refuse(SystemError::ENETUNREACH),
        LocalOutputDisposition::Local { ip_mtu, .. } => {
            if !is_ipv4_within(packet, ip_mtu) {
                return TransmitPlan::Refuse(SystemError::EINVAL);
            }
            match egress {
                None => TransmitPlan::Refuse(SystemError::ENODEV),
                Some(egress) => {
                    if packet.frame.len() > egress.mtu {
                        TransmitPlan::Refuse(SystemError::EMSGSIZE)
                    } else {
                        TransmitPlan::Inject
                    }
                },
            }
        },
        LocalOutputDisposition::Routed { next_hop, .. } => match egress {
            None => TransmitPlan::Refuse(SystemError::ENODEV),
            Some(egress) => match check_routed_output(packet, egress.up, egress.mtu) {
                Some(error) => TransmitPlan::Refuse(error),
                None => TransmitPlan::Route(next_hop),
            },
        },
    }
}

/// A packet takes the path of the device that owns the stack only if its route leads through that
/// device, which is up, to a neighbor that nobody configured, and if the default table is not what
/// decides about IPv4. Every other IPv4 packet takes the output queue.
pub proof fn law_natively_sent(
    policy: OutputBackendPolicy,
    route: OutputRouteDecision,
    configured_neighbor: bool,
)
    ensures
        policy.natively_sent(route, configured_neighbor) ==> route.oif == policy.owner_ifindex
            && policy.owner_is_up && !route.local && !configured_neighbor,
        route.local || route.oif != policy.owner_ifindex || !policy.owner_is_up
            || configured_neighbor ==> !policy.natively_sent(route, configured_neighbor),
        policy.authoritative_ipv4_output && route.default_table ==> !policy.natively_sent(
            route,
            configured_neighbor,
        ),
        !route.local && route.oif == policy.owner_ifindex && policy.owner_is_up
            && !configured_neighbor && !(policy.authoritative_ipv4_output && route.default_table)
            ==> policy.natively_sent(route, configured_neighbor),
{
}

/// The packets that are made for a route are as large as the route allows, but never over 65535
/// bytes, and no larger than the owner allows where the buffer could not be grown.
pub proof fn law_chosen_mtu(route: OutputRouteDecision, owner_ip_mtu: usize, grown: bool)
    ensures
        ({
            let mtu = chosen_mtu(route, owner_ip_mtu, grown);
            &&& mtu <= route.ip_mtu
            &&& mtu <= 65535
            &&& !grown ==> mtu <= owner_ip_mtu
            &&& mtu == route.ip_mtu || mtu == 65535 || !grown && mtu == owner_ip_mtu
            &&& route_mtu(route) <= route.ip_mtu && route_mtu(route) <= 65535
            &&& route_mtu(route) == route.ip_mtu || route_mtu(route) == 65535
        }),
{
}

/// What the stack is told of a packet and what the packet is marked with agree: the context decodes to
/// the mark. A packet that the device that owns the stack does not send leaves as a bare IP packet;
/// without a route, or with one to an IPv6 neighbor, it is discarded.
pub proof fn law_backend(
    medium: Medium,
    disposition: LocalOutputDisposition,
    owner_ip_mtu: usize,
    decision: OutputBackendDecision,
    grown: bool,
)
    requires
        decision matches OutputBackendDecision::Deferred(Some(route)) ==> route.oif != 0,
    ensures
        ({
            let (m, d, mtu, context) = backend_effect(
                medium,
                disposition,
                owner_ip_mtu,
                decision,
                grown,
            );
            let decoded = LocalOutputDisposition::spec_from_context(context, mtu);
            match decision {
                OutputBackendDecision::NativeOwner => {
                    &&& m == medium
                    &&& d == disposition
                    &&& mtu == owner_ip_mtu
                    &&& decoded is NativeOwner
                },
                OutputBackendDecision::Deferred(None) => {
                    &&& m == Medium::Ip
                    &&& d is Drop
                    &&& decoded is Drop
                    &&& mtu == owner_ip_mtu
                },
                OutputBackendDecision::Deferred(Some(route)) => {
                    &&& m == Medium::Ip
                    &&& decoded == d
                    &&& match d {
                        LocalOutputDisposition::Local { oif, ip_mtu } => route.local && oif
                            == route.oif && ip_mtu == mtu && mtu <= route.ip_mtu,
                        LocalOutputDisposition::Routed { oif, next_hop, ip_mtu } => !route.local
                            && oif == route.oif && next_hop == route.next_hop && next_hop is Ipv4
                            && ip_mtu == mtu && mtu <= route.ip_mtu,
                        LocalOutputDisposition::Drop => !route.local && route.next_hop is Ipv6
                            && mtu == owner_ip_mtu,
                        LocalOutputDisposition::NativeOwner => false,
                    }
                },
            }
        }),
{
    local_queue::law_fixed_contexts(owner_ip_mtu);
    if let OutputBackendDecision::Deferred(Some(route)) = decision {
        let mtu = chosen_mtu(route, owner_ip_mtu, grown);
        local_queue::law_local_context_round_trip(route.oif, mtu);
        local_queue::law_routed_context_round_trip(route.oif, route.next_hop, mtu);
    }
}

/// What is asked of the outside for a packet: a packet that is marked for discarding is refused, one
/// for the owner's device goes there only while that is up, one for this host is handed in, and one
/// for a neighbor goes through its interface, which must be there, be up and take packets of its size.
/// Only a bare IPv4 packet of no more bytes than it was marked with is handed in or sent to a neighbor.
pub proof fn law_transmit_plan(
    packet: LocalOutputPacket,
    owner_is_up: bool,
    egress: Option<EgressState>,
)
    ensures
        ({
            let plan = spec_transmit_plan(packet, owner_is_up, egress);
            let len = packet.frame@.len();
            let is_ipv4 = packet.medium == Medium::Ip && len > 0 && packet.frame@[0] >> 4 == 4;
            match packet.disposition {
                LocalOutputDisposition::Drop => plan == TransmitPlan::Refuse(
                    SystemError::ENETUNREACH,
                ),
                LocalOutputDisposition::NativeOwner => match plan {
                    TransmitPlan::Native => owner_is_up,
                    TransmitPlan::Refuse(e) => !owner_is_up && e == SystemError::ENETDOWN,
                    _ => false,
                },
                LocalOutputDisposition::Local { ip_mtu, .. } => match plan {
                    TransmitPlan::Inject => is_ipv4 && len <= ip_mtu && (egress matches Some(e)
                        && len <= e.mtu),
                    TransmitPlan::Refuse(SystemError::EINVAL) => !is_ipv4 || len > ip_mtu,
                    TransmitPlan::Refuse(SystemError::ENODEV) => egress is None,
                    TransmitPlan::Refuse(e) => e == SystemError::EMSGSIZE && (egress matches Some(
                        state,
                    ) && len > state.mtu),
                    _ => false,
                },
                LocalOutputDisposition::Routed { next_hop, ip_mtu, .. } => match plan {
                    TransmitPlan::Route(to) => to == next_hop && is_ipv4 && len <= ip_mtu && (
                    egress matches Some(e) && e.up && len <= e.mtu),
                    TransmitPlan::Refuse(SystemError::ENODEV) => egress is None,
                    TransmitPlan::Refuse(SystemError::EINVAL) => !is_ipv4 || len > ip_mtu,
                    TransmitPlan::Refuse(SystemError::ENETDOWN) => egress matches Some(e) && !e.up,
                    TransmitPlan::Refuse(e) => e == SystemError::EMSGSIZE && (egress matches Some(
                        state,
                    ) && len > state.mtu),
                    _ => false,
                },
            }
        }),
{
}

/// A packet that was sent to a neighbor is never lost for lack of room: it is tried again. It is
/// dropped only if it may not be sent at all or if sending failed for good.
pub proof fn law_routed_outcome(
    packet: LocalOutputPacket,
    egress_up: bool,
    egress_mtu: usize,
    sent: Result<(), RouteSendError>,
)
    ensures
        match routed_outcome(packet, egress_up, egress_mtu, sent) {
            LocalOutputTransmitResult::Sent(p) => p == packet && sent is Ok && egress_up,
            LocalOutputTransmitResult::RetrySoon(p) => {
                &&& p == packet
                &&& egress_up
                &&& sent matches Err(RouteSendError::Failed(e)) && (e == SystemError::ENOBUFS || e
                    == SystemError::EAGAIN_OR_EWOULDBLOCK)
            },
            LocalOutputTransmitResult::RetryAt { packet: p, retry_at, probe_sent } => {
                &&& p == packet
                &&& egress_up
                &&& sent matches Err(RouteSendError::RetryAt { retry_at: at, probe_sent: was }) && at
                    == retry_at && was == probe_sent
            },
            LocalOutputTransmitResult::Drop(p, e) => {
                &&& p == packet
                &&& e != SystemError::ENOBUFS
                &&& e != SystemError::EAGAIN_OR_EWOULDBLOCK
                &&& routed_refusal(packet, egress_up, egress_mtu) is None ==> sent == Err::<
                    (),
                    RouteSendError,
                >(RouteSendError::Failed(e))
            },
        },
        routed_refusal(packet, egress_up, egress_mtu) matches Some(error) ==> routed_outcome(
            packet,
            egress_up,
            egress_mtu,
            sent,
        ) == LocalOutputTransmitResult::Drop(packet, error),
        routed_refusal(packet, egress_up, egress_mtu) is None ==> {
            &&& egress_up
            &&& packet.disposition is Routed
            &&& packet.frame@.len() <= egress_mtu
        },
{
}

/// What applying a decision leaves of a token: its packet is marked as the context says that the stack is
/// told, and its buffer is replaced only by one that holds what the route asks for. If the buffer cannot
/// be grown the packet is made no larger than its owner allows.
pub proof fn law_decision_applied(
    before: LocalInputTxToken,
    output: LocalOutputQueueState,
    decision: OutputBackendDecision,
    grown: bool,
    after: LocalInputTxToken,
    egress: TxEgressOverride,
)
    requires
        decision_applied(before, &output, decision, grown, after, egress),
        decision matches OutputBackendDecision::Deferred(Some(route)) ==> route.oif != 0,
    ensures
        egress.medium == after.medium,
        after.meta == before.meta,
        after.owner_ip_mtu == before.owner_ip_mtu,
        decision is NativeOwner ==> after.disposition == before.disposition && after.medium
            == before.medium && after.scratch == before.scratch,
        decision is Deferred ==> after.medium == Medium::Ip
            && LocalOutputDisposition::spec_from_context(egress.context@, egress.ip_mtu)
            == after.disposition,
        decision matches OutputBackendDecision::Deferred(Some(route)) ==> (route.local
            || route.next_hop is Ipv4) ==> {
            let wanted = if route.ip_mtu < 65535 {
                route.ip_mtu
            } else {
                65535
            };
            &&& egress.ip_mtu <= wanted
            &&& grown ==> egress.ip_mtu == wanted && after.scratch.capacity >= wanted
            &&& !grown ==> egress.ip_mtu <= before.owner_ip_mtu && after.scratch == before.scratch
            &&& before.scratch.capacity >= wanted ==> egress.ip_mtu == wanted && after.scratch
                == before.scratch
        },
{
    law_backend(before.medium, before.disposition, before.owner_ip_mtu, decision, grown);
    if let OutputBackendDecision::Deferred(Some(route)) = decision {
        law_chosen_mtu(route, before.owner_ip_mtu, grown);
    }
}

} // verus!

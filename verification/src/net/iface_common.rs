//! The state that every interface carries, and the decisions of its poll loop.

use vstd::prelude::*;
use crate::error::SystemError;
use crate::net::addr::{Instant, IpAddress, Ipv4Address, Medium, PacketMeta};
use crate::net::deferred_queue;
use crate::net::deferred_queue::DeferredRouteKey;
use crate::net::egress;
use crate::net::iface::{
    BootstrapRoute, IpCidr, LinkFlagsSnapshot, PreparedConfiguredFlags, ReceiveModeState,
    StaticNeighborEntry,
};
use crate::net::local_output::{IfacePollScope, LocalInputScratch};
use crate::net::local_queue::{
    LocalInputQueue, LocalOutputDisposition, LocalOutputPacket, LocalOutputReservation,
};
use crate::net::types::{InterfaceFlags, InterfaceType};

verus! {

/// The shared state of an interface.
pub struct IfaceCommon {
    pub iface_id: usize,
    pub type_: InterfaceType,
    pub name: String,
    /// The flags in effect.
    pub flags: u32,
    pub mtu: usize,
    /// The sockets that are told about progress, by number.
    pub bounds: Vec<u64>,
    pub bound_socket_count: usize,
    /// Sockets that can already send but are not in `bounds` yet.
    pub pending_routed_socket_count: usize,
    /// Output has to be routed by the namespace until the stack is quiet.
    pub namespace_routed_stack: bool,
    /// Closed connections that still have to be wound up.
    pub tcp_close_pending: bool,
    pub local_output_tx_backoff_us: u64,
    pub tx_completion_generation: u64,
    /// The namespace that the interface was published in, by number.
    pub net_namespace: Option<u64>,
    pub local_input_queue: LocalInputQueue,
    pub bootstrap_routes: Vec<BootstrapRoute>,
    pub static_neighbors: Vec<StaticNeighborEntry>,
    pub ipv4_multicast_refcnt: Vec<(Ipv4Address, usize)>,
    pub receive_mode: ReceiveModeState,
}

/// What the allocator gave for one routed packet.
#[derive(Debug)]
pub struct RoutedMemory {
    /// The queues can hold one more packet.
    pub room: bool,
    /// A buffer for the packet.
    pub scratch: Option<LocalInputScratch>,
    /// The packets that wait for the neighbor can be one more.
    pub bucket_room: bool,
}

impl RoutedMemory {
    /// There is a buffer where one was found.
    pub open spec fn wf(&self) -> bool {
        self.scratch matches Some(scratch) ==> scratch.buffer is Some
    }
}

/// Why a packet of `len` bytes is not queued, given what the allocator gave for it.
pub open spec fn refusal(common: &IfaceCommon, len: nat, memory: RoutedMemory) -> Option<SystemError> {
    let output = common.local_input_queue.output;
    if len > common.mtu {
        Some(SystemError::EMSGSIZE)
    } else if !memory.room || output.frames + output.reserved_frames >= LocalInputQueue::MAX_FRAMES {
        Some(SystemError::ENOBUFS)
    } else if memory.scratch is None {
        Some(SystemError::ENOMEM)
    } else if output.bytes + output.reserved_bytes + memory.scratch->0.capacity
        > LocalInputQueue::MAX_BYTES {
        Some(SystemError::ENOBUFS)
    } else {
        None
    }
}

/// The packet carries `bytes` to `next_hop` in the buffer that was found for it.
pub open spec fn routed_packet(
    common: &IfaceCommon,
    oif: u32,
    next_hop: IpAddress,
    bytes: Seq<u8>,
    memory: RoutedMemory,
    packet: LocalOutputPacket,
) -> bool {
    egress::carries(packet, oif, next_hop, common.mtu, bytes) && packet.charge
        == memory.scratch->0.capacity
}

/// One more packet of `charge` bytes is queued.
pub open spec fn one_more(o: &IfaceCommon, n: &IfaceCommon, charge: usize) -> bool {
    let before = o.local_input_queue.output;
    let after = n.local_input_queue.output;
    &&& after.frames == before.frames + 1
    &&& after.bytes == before.bytes + charge
    &&& after.reserved_frames == before.reserved_frames
    &&& after.reserved_bytes == before.reserved_bytes
}

/// The neighbor has room for one more packet of `charge` bytes.
pub open spec fn neighbor_has_room(o: &IfaceCommon, oif: u32, next_hop: Ipv4Address, charge: usize) -> bool {
    let m = o.local_input_queue.output.deferred_routes@;
    let k = (DeferredRouteKey { oif, next_hop }).spec_packed();
    m.contains_key(k) ==> m[k].has_room(charge, LocalInputQueue::limits())
}

/// The packet waits for its neighbor among those that did before.
pub open spec fn neighbor_joined(
    o: &IfaceCommon,
    oif: u32,
    next_hop: Ipv4Address,
    packet: LocalOutputPacket,
    retry_at: Instant,
    probe_sent: bool,
    n: &IfaceCommon,
) -> bool {
    let m = o.local_input_queue.output.deferred_routes@;
    let key = DeferredRouteKey { oif, next_hop };
    let k = key.spec_packed();
    n.local_input_queue.output.deferred_routes@ == m.insert(
        k,
        if m.contains_key(k) {
            deferred_queue::enqueued_bucket(m[k], packet, retry_at, probe_sent, false)
        } else {
            deferred_queue::fresh_bucket(key, packet, retry_at, probe_sent)
        },
    )
}

/// What becomes of a routed packet that is to wait for its neighbor, given what the allocator gave
/// for it.
pub open spec fn queue_outcome(
    o: &IfaceCommon,
    oif: u32,
    next_hop: Ipv4Address,
    bytes: Seq<u8>,
    retry_at: Instant,
    probe_sent: bool,
    memory: RoutedMemory,
    n: &IfaceCommon,
    r: Result<(), SystemError>,
) -> bool {
    match refusal(o, bytes.len(), memory) {
        Some(error) => r == Err::<(), SystemError>(error) && n.local_input_queue.output.same(
            &o.local_input_queue.output,
        ),
        None => if memory.bucket_room && neighbor_has_room(
            o,
            oif,
            next_hop,
            memory.scratch->0.capacity,
        ) {
            &&& r == Ok::<(), SystemError>(())
            &&& one_more(o, n, memory.scratch->0.capacity)
            &&& exists|packet: LocalOutputPacket|
                routed_packet(o, oif, IpAddress::Ipv4(next_hop), bytes, memory, packet)
                    && #[trigger] neighbor_joined(
                    o,
                    oif,
                    next_hop,
                    packet,
                    retry_at,
                    probe_sent,
                    n,
                )
        } else {
            r == Err::<(), SystemError>(SystemError::ENOBUFS) && n.local_input_queue.output.same(
                &o.local_input_queue.output,
            )
        },
    }
}

/// The flags in effect for a receive mode.
pub open spec fn effective_flags(state: ReceiveModeState) -> u32 {
    let promisc = if state.packet_promiscuity != 0 {
        state.configured_flags | InterfaceFlags::PROMISC
    } else {
        state.configured_flags
    };
    if state.packet_allmulti != 0 {
        promisc | InterfaceFlags::ALLMULTI
    } else {
        promisc
    }
}

/// How many users a receive mode has, or an error if they cannot be counted.
pub open spec fn spec_total_count(packet: u32, configured: bool) -> Result<u32, SystemError> {
    if configured && packet == u32::MAX {
        Err(SystemError::EOVERFLOW)
    } else if configured {
        Ok((packet + 1) as u32)
    } else {
        Ok(packet)
    }
}

/// How often `group` was joined.
pub open spec fn group_refs(list: Seq<(Ipv4Address, usize)>, group: Ipv4Address) -> nat
    decreases list.len(),
{
    if list.len() == 0 {
        0
    } else if list.last().0 == group {
        list.last().1 as nat
    } else {
        group_refs(list.drop_last(), group)
    }
}

/// No group occurs twice, and every group that occurs was joined.
pub open spec fn groups_ok(list: Seq<(Ipv4Address, usize)>) -> bool {
    &&& forall|i: int, j: int|
        #![trigger list[i], list[j]]
        0 <= i < j < list.len() ==> list[i].0 != list[j].0
    &&& forall|i: int| 0 <= i < list.len() ==> (#[trigger] list[i]).1 > 0
}

/// A group got one member more, unless its count was at its limit.
pub open spec fn refs_joined(
    before: Seq<(Ipv4Address, usize)>,
    after: Seq<(Ipv4Address, usize)>,
    group: Ipv4Address,
) -> bool {
    &&& group_refs(after, group) == (if group_refs(before, group) == usize::MAX {
        group_refs(before, group)
    } else {
        group_refs(before, group) + 1
    })
    &&& forall|g: Ipv4Address|
        g != group ==> #[trigger] group_refs(after, g) == group_refs(before, g)
}

/// A group got one member less, unless it had none.
pub open spec fn refs_left(
    before: Seq<(Ipv4Address, usize)>,
    after: Seq<(Ipv4Address, usize)>,
    group: Ipv4Address,
) -> bool {
    &&& group_refs(after, group) == (if group_refs(before, group) == 0 {
        0
    } else {
        (group_refs(before, group) - 1) as nat
    })
    &&& forall|g: Ipv4Address|
        g != group ==> #[trigger] group_refs(after, g) == group_refs(before, g)
}

/// Whether the routing mode of a poll is still the right one.
#[derive(Clone, Copy, Debug, PartialEq, Eq, Structural)]
pub enum PollModeRecheck {
    Current,
    Routed,
    Authoritative,
}

/// How an interface is polled in one round.
#[derive(Clone, Copy, Debug, PartialEq, Eq, Structural)]
pub struct PollPlan {
    pub scope: IfacePollScope,
    pub authoritative_ipv4_output: bool,
    pub needs_routed_poll: bool,
    pub routed_this_round: bool,
    pub owner_is_up: bool,
}

/// What to do with the deadline of the protocol stack.
#[derive(Clone, Copy, Debug, PartialEq, Eq, Structural)]
pub enum DeadlineAction {
    Disarm,
    PublishFuture { now_us: u64, deadline_us: u64 },
}

impl IfaceCommon {
    /// How many packets one poll drains from the output queue.
    pub const LOCAL_OUTPUT_POLL_BUDGET: usize = 64;

    /// The first delay after the device refused a packet.
    pub const LOCAL_OUTPUT_TX_BACKOFF_MIN_US: u64 = 1_000;

    /// The longest delay after the device refused packets.
    pub const LOCAL_OUTPUT_TX_BACKOFF_MAX_US: u64 = 100_000;

    /// The state is consistent.
    pub open spec fn wf(&self) -> bool {
        &&& self.local_input_queue.wf()
        &&& self.bound_socket_count == self.bounds@.len()
        &&& self.bounds@.no_duplicates()
        &&& self.flags == effective_flags(self.receive_mode)
        &&& Self::LOCAL_OUTPUT_TX_BACKOFF_MIN_US <= self.local_output_tx_backoff_us
            <= Self::LOCAL_OUTPUT_TX_BACKOFF_MAX_US
        &&& groups_ok(self.ipv4_multicast_refcnt@)
    }

    /// An interface that nobody uses yet.
    pub fn new(
        iface_id: usize,
        type_: InterfaceType,
        name: String,
        mtu: usize,
        flags: InterfaceFlags,
    ) -> (r: Self)
        ensures
            r.wf(),
            r.name == name,
            r.iface_id == iface_id,
            r.type_ == type_,
            r.mtu == mtu,
            r.flags == flags.bits,
            r.receive_mode == (ReceiveModeState {
                configured_flags: flags.bits,
                packet_promiscuity: 0,
                packet_allmulti: 0,
            }),
            r.bounds@.len() == 0,
            r.pending_routed_socket_count == 0,
            !r.namespace_routed_stack,
            !r.tcp_close_pending,
            r.local_output_tx_backoff_us == Self::LOCAL_OUTPUT_TX_BACKOFF_MIN_US,
            r.tx_completion_generation == 0,
            r.net_namespace is None,
            r.local_input_queue.state.packets@.len() == 0,
            !r.local_input_queue.output.occupied(),
            r.bootstrap_routes@.len() == 0,
            r.static_neighbors@.len() == 0,
            r.ipv4_multicast_refcnt@.len() == 0,
    {
        IfaceCommon {
            iface_id,
            type_,
            name,
            flags: flags.bits,
            mtu,
            bounds: Vec::new(),
            bound_socket_count: 0,
            pending_routed_socket_count: 0,
            namespace_routed_stack: false,
            tcp_close_pending: false,
            local_output_tx_backoff_us: Self::LOCAL_OUTPUT_TX_BACKOFF_MIN_US,
            tx_completion_generation: 0,
            net_namespace: None,
            local_input_queue: LocalInputQueue::new(),
            bootstrap_routes: Vec::new(),
            static_neighbors: Vec::new(),
            ipv4_multicast_refcnt: Vec::new(),
            receive_mode: ReceiveModeState {
                configured_flags: flags.bits,
                packet_promiscuity: 0,
                packet_allmulti: 0,
            },
        }
    }

    /// The flags in effect, as far as they exist.
    pub fn flags(&self) -> (r: InterfaceFlags)
        ensures
            r.bits == self.flags & InterfaceFlags::ALL,
    {
        InterfaceFlags::from_bits_truncate(self.flags)
    }

    /// Counts the users of a receive mode.
    pub fn total_receive_mode_count(packet: u32, configured: bool) -> (r: Result<u32, SystemError>)
        ensures
            r == spec_total_count(packet, configured),
    {
        if !configured {
            return Ok(packet);
        }
        match packet.checked_add(1) {
            Some(total) => Ok(total),
            None => Err(SystemError::EOVERFLOW),
        }
    }

    /// Puts the flags of the receive mode into effect.
    fn publish_effective_flags(&mut self)
        ensures
            *final(self) == (IfaceCommon {
                flags: effective_flags(old(self).receive_mode),
                ..*old(self)
            }),
    {
        let mut effective: u32 = self.receive_mode.configured_flags;
        if self.receive_mode.packet_promiscuity != 0 {
            effective = effective | InterfaceFlags::PROMISC;
        }
        if self.receive_mode.packet_allmulti != 0 {
            effective = effective | InterfaceFlags::ALLMULTI;
        }
        self.flags = effective;
    }

    /// The configured flags after the flags of `change_mask` were taken from `requested`.
    pub open spec fn changed_flags(&self, requested: InterfaceFlags, change_mask: InterfaceFlags) -> u32 {
        (self.receive_mode.configured_flags & !change_mask.bits) | (requested.bits
            & change_mask.bits)
    }

    /// Checks a change of the configured flags without making it.
    pub fn prepare_configured_flags(
        &self,
        requested: InterfaceFlags,
        change_mask: InterfaceFlags,
    ) -> (r: Result<PreparedConfiguredFlags, SystemError>)
        ensures
            ({
                let configured = self.changed_flags(requested, change_mask);
                let overflow = spec_total_count(
                    self.receive_mode.packet_promiscuity,
                    configured & InterfaceFlags::PROMISC != 0,
                ) is Err || spec_total_count(
                    self.receive_mode.packet_allmulti,
                    configured & InterfaceFlags::ALLMULTI != 0,
                ) is Err;
                match r {
                    Ok(prepared) => {
                        &&& !overflow
                        &&& prepared.old.bits == self.receive_mode.configured_flags
                            & InterfaceFlags::ALL
                        &&& prepared.new.bits == configured & InterfaceFlags::ALL
                    },
                    Err(e) => overflow && e == SystemError::EOVERFLOW,
                }
            }),
    {
        let old = InterfaceFlags::from_bits_truncate(self.receive_mode.configured_flags);
        let configured: u32 = (self.receive_mode.configured_flags & !change_mask.bits) | (
        requested.bits & change_mask.bits);
        if let Err(error) = Self::total_receive_mode_count(
            self.receive_mode.packet_promiscuity,
            configured & InterfaceFlags::PROMISC != 0,
        ) {
            return Err(error);
        }
        if let Err(error) = Self::total_receive_mode_count(
            self.receive_mode.packet_allmulti,
            configured & InterfaceFlags::ALLMULTI != 0,
        ) {
            return Err(error);
        }
        Ok(PreparedConfiguredFlags { old, new: InterfaceFlags::from_bits_truncate(configured) })
    }

    /// Makes a change that was checked before.
    pub fn publish_configured_flags(&mut self, prepared: PreparedConfiguredFlags)
        requires
            old(self).wf(),
        ensures
            final(self).wf(),
            final(self).receive_mode == (ReceiveModeState {
                configured_flags: prepared.new.bits,
                ..old(self).receive_mode
            }),
            *final(self) == (IfaceCommon {
                receive_mode: final(self).receive_mode,
                flags: effective_flags(final(self).receive_mode),
                ..*old(self)
            }),
    {
        self.receive_mode.configured_flags = prepared.new_flags().bits();
        self.publish_effective_flags();
    }

    /// One consistent reading of flags and receive-mode counts.
    pub fn link_flags_snapshot(&self) -> (r: Result<LinkFlagsSnapshot, SystemError>)
        ensures
            ({
                let configured = InterfaceFlags {
                    bits: self.receive_mode.configured_flags & InterfaceFlags::ALL,
                };
                let promiscuity = spec_total_count(
                    self.receive_mode.packet_promiscuity,
                    configured.has(InterfaceFlags::PROMISC),
                );
                let allmulti = spec_total_count(
                    self.receive_mode.packet_allmulti,
                    configured.has(InterfaceFlags::ALLMULTI),
                );
                r == (if promiscuity is Ok && allmulti is Ok {
                    Ok(
                        LinkFlagsSnapshot {
                            configured,
                            promiscuity: promiscuity->Ok_0,
                            allmulti: allmulti->Ok_0,
                        },
                    )
                } else {
                    Err(SystemError::EOVERFLOW)
                })
            }),
    {
        let configured = self.configured_flags();
        let promiscuity: u32 = match Self::total_receive_mode_count(
            self.receive_mode.packet_promiscuity,
            configured.contains(InterfaceFlags::PROMISC),
        ) {
            Ok(promiscuity) => promiscuity,
            Err(error) => {
                return Err(error);
            },
        };
        let allmulti: u32 = match Self::total_receive_mode_count(
            self.receive_mode.packet_allmulti,
            configured.contains(InterfaceFlags::ALLMULTI),
        ) {
            Ok(allmulti) => allmulti,
            Err(error) => {
                return Err(error);
            },
        };
        Ok(LinkFlagsSnapshot { configured, promiscuity, allmulti })
    }

    /// The configured flags, as far as they exist.
    pub fn configured_flags(&self) -> (r: InterfaceFlags)
        ensures
            r.bits == self.receive_mode.configured_flags & InterfaceFlags::ALL,
    {
        InterfaceFlags::from_bits_truncate(self.receive_mode.configured_flags)
    }

    /// The new number of packet sockets after a change by `inc`.
    pub open spec fn adjusted_count(count: u32, inc: i32) -> Result<u32, SystemError> {
        if inc == 1 {
            if count == u32::MAX {
                Err(SystemError::EOVERFLOW)
            } else {
                Ok((count + 1) as u32)
            }
        } else if inc == -1 && count > 0 {
            Ok((count - 1) as u32)
        } else {
            Err(SystemError::EINVAL)
        }
    }

    /// Counts a packet socket that asks for a receive mode, or that no longer does.
    pub fn adjust_receive_mode(&mut self, flag: u32, inc: i32) -> (r: Result<(), SystemError>)
        requires
            old(self).wf(),
        ensures
            final(self).wf(),
            // One count changes by one, and only if the change can be made.
            r is Err ==> *final(self) == *old(self),
            r is Ok ==> {
                let before = old(self).receive_mode;
                let after = final(self).receive_mode;
                &&& flag == 0x100 || flag == 0x200
                &&& inc == 1 || inc == -1
                &&& after.configured_flags == before.configured_flags
                &&& after.packet_promiscuity == before.packet_promiscuity + (if flag == 0x100 {
                    inc as int
                } else {
                    0
                })
                &&& after.packet_allmulti == before.packet_allmulti + (if flag == 0x200 {
                    inc as int
                } else {
                    0
                })
            },
            ({
                let known = flag == InterfaceFlags::PROMISC || flag == InterfaceFlags::ALLMULTI;
                let count = if flag == InterfaceFlags::PROMISC {
                    old(self).receive_mode.packet_promiscuity
                } else {
                    old(self).receive_mode.packet_allmulti
                };
                let configured = old(self).receive_mode.configured_flags & flag != 0;
                let adjusted = Self::adjusted_count(count, inc);
                if !known {
                    r == Err::<(), SystemError>(SystemError::EINVAL) && *final(self) == *old(self)
                } else if adjusted is Err {
                    r == Err::<(), SystemError>(adjusted->Err_0) && *final(self) == *old(self)
                } else if spec_total_count(adjusted->Ok_0, configured) is Err {
                    r == Err::<(), SystemError>(SystemError::EOVERFLOW) && *final(self) == *old(self)
                } else {
                    let mode = if flag == InterfaceFlags::PROMISC {
                        ReceiveModeState {
                            packet_promiscuity: adjusted->Ok_0,
                            ..old(self).receive_mode
                        }
                    } else {
                        ReceiveModeState {
                            packet_allmulti: adjusted->Ok_0,
                            ..old(self).receive_mode
                        }
                    };
                    r is Ok && *final(self) == (IfaceCommon {
                        receive_mode: mode,
                        flags: effective_flags(mode),
                        ..*old(self)
                    })
                }
            }),
    {
        let old_count: u32 = if flag == InterfaceFlags::PROMISC {
            self.receive_mode.packet_promiscuity
        } else if flag == InterfaceFlags::ALLMULTI {
            self.receive_mode.packet_allmulti
        } else {
            return Err(SystemError::EINVAL);
        };
        let new_count: u32 = if inc == 1 {
            if old_count == u32::MAX {
                return Err(SystemError::EOVERFLOW);
            }
            old_count + 1
        } else if inc == -1 && old_count > 0 {
            old_count - 1
        } else {
            return Err(SystemError::EINVAL);
        };
        let configured = self.receive_mode.configured_flags & flag != 0;
        if let Err(error) = Self::total_receive_mode_count(new_count, configured) {
            return Err(error);
        }
        if flag == InterfaceFlags::PROMISC {
            self.receive_mode.packet_promiscuity = new_count;
        } else {
            self.receive_mode.packet_allmulti = new_count;
        }
        self.publish_effective_flags();
        Ok(())
    }

    /// Joins a multicast group. `joined` is what the stack answered; it is only asked, and only
    /// looked at, when nobody joined the group before.
    pub fn ipv4_multicast_join_ref(&mut self, group: Ipv4Address, joined: bool) -> (r: bool)
        requires
            old(self).wf(),
        ensures
            final(self).wf(),
            r == (joined || group_refs(old(self).ipv4_multicast_refcnt@, group) > 0),
            r ==> refs_joined(
                old(self).ipv4_multicast_refcnt@,
                final(self).ipv4_multicast_refcnt@,
                group,
            ),
            !r ==> final(self).ipv4_multicast_refcnt@ == old(self).ipv4_multicast_refcnt@,
            r <==> group_refs(final(self).ipv4_multicast_refcnt@, group) > 0,
            *final(self) == (IfaceCommon {
                ipv4_multicast_refcnt: final(self).ipv4_multicast_refcnt,
                ..*old(self)
            }),
    {
        let ghost list = self.ipv4_multicast_refcnt@;
        match self.find_group(group) {
            Some(index) => {
                let count: usize = self.ipv4_multicast_refcnt[index].1.saturating_add(1);
                self.ipv4_multicast_refcnt.set(index, (group, count));
                proof {
                    lemma_group_refs(list, index as int);
                    lemma_group_refs(self.ipv4_multicast_refcnt@, index as int);
                    assert forall|g: Ipv4Address| g != group implies #[trigger] group_refs(
                        self.ipv4_multicast_refcnt@,
                        g,
                    ) == group_refs(list, g) by {
                        lemma_group_refs_update(list, index as int, (group, count), g);
                    }
                }
                true
            },
            None => {
                if !joined {
                    return false;
                }
                self.ipv4_multicast_refcnt.push((group, 1));
                proof {
                    let n = self.ipv4_multicast_refcnt@;
                    assert(n.drop_last() =~= list);
                    assert forall|a: int, b: int|
                        #![trigger n[a], n[b]]
                        0 <= a < b < n.len() implies n[a].0 != n[b].0 by {
                        assert(n[a] == list[a]);
                        if b < list.len() {
                            assert(n[b] == list[b]);
                        }
                    }
                }
                true
            },
        }
    }

    /// Leaves a multicast group. Returns whether nobody is left, so the stack has to leave it too.
    pub fn ipv4_multicast_leave_ref(&mut self, group: Ipv4Address) -> (r: bool)
        requires
            old(self).wf(),
        ensures
            final(self).wf(),
            r == (group_refs(old(self).ipv4_multicast_refcnt@, group) == 1),
            r <==> group_refs(old(self).ipv4_multicast_refcnt@, group) > 0 && group_refs(
                final(self).ipv4_multicast_refcnt@,
                group,
            ) == 0,
            refs_left(
                old(self).ipv4_multicast_refcnt@,
                final(self).ipv4_multicast_refcnt@,
                group,
            ),
            *final(self) == (IfaceCommon {
                ipv4_multicast_refcnt: final(self).ipv4_multicast_refcnt,
                ..*old(self)
            }),
    {
        let ghost list = self.ipv4_multicast_refcnt@;
        let index: usize = match self.find_group(group) {
            Some(index) => index,
            None => {
                return false;
            },
        };
        proof {
            lemma_group_refs(list, index as int);
        }
        let count: usize = self.ipv4_multicast_refcnt[index].1;
        if count > 1 {
            self.ipv4_multicast_refcnt.set(index, (group, count - 1));
            proof {
                lemma_group_refs(self.ipv4_multicast_refcnt@, index as int);
                assert forall|g: Ipv4Address| g != group implies #[trigger] group_refs(
                    self.ipv4_multicast_refcnt@,
                    g,
                ) == group_refs(list, g) by {
                    lemma_group_refs_update(
                        list,
                        index as int,
                        (group, (count - 1) as usize),
                        g,
                    );
                }
            }
            return false;
        }
        let _removed = self.ipv4_multicast_refcnt.swap_remove(index);
        proof {
            let n = self.ipv4_multicast_refcnt@;
            assert forall|g: Ipv4Address| #[trigger] group_refs(n, g) == (if g == group {
                0
            } else {
                group_refs(list, g)
            }) by {
                lemma_group_refs_swap_remove(list, index as int, g);
            }
        }
        true
    }

    /// The place of `group` in the list.
    fn find_group(&self, group: Ipv4Address) -> (r: Option<usize>)
        requires
            groups_ok(self.ipv4_multicast_refcnt@),
        ensures
            match r {
                Some(index) => index < self.ipv4_multicast_refcnt@.len()
                    && self.ipv4_multicast_refcnt@[index as int].0 == group && group_refs(
                    self.ipv4_multicast_refcnt@,
                    group,
                ) == self.ipv4_multicast_refcnt@[index as int].1,
                None => group_refs(self.ipv4_multicast_refcnt@, group) == 0 && forall|j: int|
                    0 <= j < self.ipv4_multicast_refcnt@.len() ==> (
                    #[trigger] self.ipv4_multicast_refcnt@[j]).0 != group,
            },
    {
        let mut i: usize = 0;
        while i < self.ipv4_multicast_refcnt.len()
            invariant
                i <= self.ipv4_multicast_refcnt@.len(),
                groups_ok(self.ipv4_multicast_refcnt@),
                forall|j: int|
                    0 <= j < i ==> (#[trigger] self.ipv4_multicast_refcnt@[j]).0 != group,
            decreases self.ipv4_multicast_refcnt@.len() - i,
        {
            if self.ipv4_multicast_refcnt[i].0 == group {
                proof {
                    lemma_group_refs(self.ipv4_multicast_refcnt@, i as int);
                }
                return Some(i);
            }
            i = i + 1;
        }
        proof {
            lemma_group_absent(self.ipv4_multicast_refcnt@, group);
        }
        None
    }
}

impl IfaceCommon {
    /// Adds a socket to those that are told about progress.
    pub fn bind_socket(&mut self, socket: u64)
        requires
            old(self).wf(),
        ensures
            final(self).wf(),
            final(self).bounds@ == (if old(self).bounds@.contains(socket) {
                old(self).bounds@
            } else {
                old(self).bounds@.push(socket)
            }),
            *final(self) == (IfaceCommon {
                bounds: final(self).bounds,
                bound_socket_count: final(self).bound_socket_count,
                ..*old(self)
            }),
    {
        if self.find_socket(socket).is_some() {
            return;
        }
        self.bounds.push(socket);
        self.bound_socket_count = self.bounds.len();
    }

    /// Takes a socket out of those that are told about progress.
    pub fn unbind_socket(&mut self, socket: u64)
        requires
            old(self).wf(),
        ensures
            final(self).wf(),
            !final(self).bounds@.contains(socket),
            final(self).bounds@ == (if old(self).bounds@.contains(socket) {
                old(self).bounds@.remove(old(self).bounds@.index_of(socket))
            } else {
                old(self).bounds@
            }),
            *final(self) == (IfaceCommon {
                bounds: final(self).bounds,
                bound_socket_count: final(self).bound_socket_count,
                ..*old(self)
            }),
    {
        if let Some(index) = self.find_socket(socket) {
            let ghost list = self.bounds@;
            let _socket = self.bounds.remove(index);
            self.bound_socket_count = self.bounds.len();
            proof {
                let i = list.index_of(socket);
                assert(list[i] == socket && list[index as int] == socket);
                let n = self.bounds@;
                assert forall|a: int, b: int|
                    0 <= a < n.len() && 0 <= b < n.len() && a != b implies n[a] != n[b] by {
                    let x = if a < index {
                        a
                    } else {
                        a + 1
                    };
                    let y = if b < index {
                        b
                    } else {
                        b + 1
                    };
                    assert(n[a] == list[x] && n[b] == list[y]);
                }
                assert forall|a: int| 0 <= a < n.len() implies n[a] != socket by {
                    let x = if a < index {
                        a
                    } else {
                        a + 1
                    };
                    assert(n[a] == list[x]);
                }
            }
        }
    }

    fn find_socket(&self, socket: u64) -> (r: Option<usize>)
        ensures
            match r {
                Some(index) => index < self.bounds@.len() && self.bounds@[index as int] == socket,
                None => !self.bounds@.contains(socket),
            },
    {
        let mut i: usize = 0;
        while i < self.bounds.len()
            invariant
                i <= self.bounds@.len(),
                forall|j: int| 0 <= j < i ==> self.bounds@[j] != socket,
            decreases self.bounds@.len() - i,
        {
            if self.bounds[i] == socket {
                return Some(i);
            }
            i = i + 1;
        }
        None
    }

    /// Announces a socket that can send before it is in `bounds`.
    pub fn begin_routed_socket_publication(&mut self)
        requires
            old(self).pending_routed_socket_count < usize::MAX,
        ensures
            *final(self) == (IfaceCommon {
                pending_routed_socket_count: (old(self).pending_routed_socket_count + 1) as usize,
                ..*old(self)
            }),
    {
        self.pending_routed_socket_count = self.pending_routed_socket_count + 1;
    }

    /// Ends the announcement of a socket.
    pub fn finish_routed_socket_publication(&mut self)
        requires
            old(self).pending_routed_socket_count > 0,
        ensures
            *final(self) == (IfaceCommon {
                pending_routed_socket_count: (old(self).pending_routed_socket_count - 1) as usize,
                ..*old(self)
            }),
    {
        self.pending_routed_socket_count = self.pending_routed_socket_count - 1;
    }

    /// Adds a route to an interface that is not published yet. `room` tells whether memory was set
    /// aside for it.
    pub fn stage_reserved_route(&mut self, route: BootstrapRoute, room: bool) -> (r: Result<
        (),
        SystemError,
    >)
        requires
            old(self).wf(),
        ensures
            final(self).wf(),
            r == (if old(self).net_namespace is Some {
                Err(SystemError::EBUSY)
            } else if old(self).iface_id > u32::MAX {
                Err(SystemError::EOVERFLOW)
            } else if route.oif != old(self).iface_id {
                Err(SystemError::EINVAL)
            } else if old(self).bootstrap_routes@.contains(route) {
                Err(SystemError::EEXIST)
            } else if !room {
                Err(SystemError::ENOMEM)
            } else {
                Ok(())
            }),
            final(self).bootstrap_routes@ == (if r is Ok {
                old(self).bootstrap_routes@.push(route)
            } else {
                old(self).bootstrap_routes@
            }),
            *final(self) == (IfaceCommon {
                bootstrap_routes: final(self).bootstrap_routes,
                ..*old(self)
            }),
    {
        if self.net_namespace.is_some() {
            return Err(SystemError::EBUSY);
        }
        if self.iface_id > 0xffff_ffff {
            return Err(SystemError::EOVERFLOW);
        }
        if route.oif as usize != self.iface_id {
            return Err(SystemError::EINVAL);
        }
        let mut i: usize = 0;
        #[verifier::loop_isolation(false)]
        while i < self.bootstrap_routes.len()
            invariant
                i <= self.bootstrap_routes@.len(),
                forall|j: int| 0 <= j < i ==> self.bootstrap_routes@[j] != route,
            decreases self.bootstrap_routes@.len() - i,
        {
            if self.bootstrap_routes[i] == route {
                return Err(SystemError::EEXIST);
            }
            i = i + 1;
        }
        if !room {
            return Err(SystemError::ENOMEM);
        }
        self.bootstrap_routes.push(route);
        Ok(())
    }

    /// Adds a route to an interface that is not published yet. Allocation may fail.
    pub fn stage_bootstrap_route(&mut self, route: BootstrapRoute) -> (r: Result<(), SystemError>)
        requires
            old(self).wf(),
        ensures
            final(self).wf(),
            r == Err::<(), SystemError>(SystemError::EBUSY) <==> old(self).net_namespace is Some,
            r == Err::<(), SystemError>(SystemError::EOVERFLOW) <==> old(self).net_namespace is None
                && old(self).iface_id > u32::MAX,
            r == Err::<(), SystemError>(SystemError::EINVAL) <==> old(self).net_namespace is None
                && old(self).iface_id <= u32::MAX && route.oif != old(self).iface_id,
            r == Err::<(), SystemError>(SystemError::EEXIST) <==> old(self).net_namespace is None
                && route.oif == old(self).iface_id && old(self).bootstrap_routes@.contains(route),
            r matches Err(e) ==> e == SystemError::EBUSY || e == SystemError::EOVERFLOW || e
                == SystemError::EINVAL || e == SystemError::EEXIST || e == SystemError::ENOMEM,
            final(self).bootstrap_routes@ == (if r is Ok {
                old(self).bootstrap_routes@.push(route)
            } else {
                old(self).bootstrap_routes@
            }),
            *final(self) == (IfaceCommon {
                bootstrap_routes: final(self).bootstrap_routes,
                ..*old(self)
            }),
    {
        let room = self.bootstrap_routes.try_reserve(1).is_ok();
        self.stage_reserved_route(route, room)
    }

    /// Changes a setting that is fixed once the interface is published. Returns the error for a
    /// published interface.
    pub fn with_unpublished(&self) -> (r: Result<(), SystemError>)
        ensures
            r == (if self.net_namespace is Some {
                Err(SystemError::EBUSY)
            } else {
                Ok(())
            }),
    {
        if self.net_namespace.is_some() {
            Err(SystemError::EBUSY)
        } else {
            Ok(())
        }
    }

    /// The namespace that the interface was published in.
    pub fn net_namespace(&self) -> (r: Option<u64>)
        ensures
            r == self.net_namespace,
    {
        self.net_namespace
    }

    /// Publishes the interface in a namespace.
    pub fn set_net_namespace(&mut self, namespace: u64)
        ensures
            *final(self) == (IfaceCommon { net_namespace: Some(namespace), ..*old(self) }),
    {
        self.net_namespace = Some(namespace);
    }

    /// Withdraws the interface from its namespace.
    pub fn clear_net_namespace(&mut self)
        ensures
            *final(self) == (IfaceCommon { net_namespace: None, ..*old(self) }),
    {
        self.net_namespace = None;
    }

    /// The name of the interface.
    pub fn name(&self) -> (r: String)
        ensures
            r@ == self.name@,
    {
        self.name.clone()
    }

    /// The length of the prefix of the first of the addresses that the stack holds.
    pub fn prefix_len(&self, ip_addrs: &Vec<IpCidr>) -> (r: Option<u8>)
        ensures
            r == (if ip_addrs@.len() == 0 {
                None
            } else {
                Some(ip_addrs@[0].prefix_len)
            }),
    {
        if ip_addrs.len() == 0 {
            return None;
        }
        Some(ip_addrs[0].prefix_len)
    }

    /// The sockets that are told, in order, whether or not the stack saw an event for them.
    pub fn notify_all_bound_sockets(&self) -> (r: Vec<u64>)
        ensures
            r@ == self.bounds@,
    {
        self.bounds.clone()
    }

    /// Renames the interface.
    pub fn set_name(&mut self, name: String)
        ensures
            *final(self) == (IfaceCommon { name, ..*old(self) }),
    {
        self.name = name;
    }

    /// The hardware type of the interface.
    pub fn type_(&self) -> (r: InterfaceType)
        ensures
            r == self.type_,
    {
        self.type_
    }

    /// The largest IP packet that the interface sends.
    pub fn mtu(&self) -> (r: usize)
        ensures
            r == self.mtu,
    {
        self.mtu
    }

    /// Changes the largest IP packet that the interface sends.
    pub fn set_mtu(&mut self, mtu: usize)
        ensures
            *final(self) == (IfaceCommon { mtu, ..*old(self) }),
    {
        self.mtu = mtu;
    }

    /// Counts a packet socket that wants every frame, or that no longer does.
    pub fn adjust_promiscuity(&mut self, inc: i32) -> (r: Result<(), SystemError>)
        requires
            old(self).wf(),
        ensures
            final(self).wf(),
            ({
                let state = old(self).receive_mode;
                let adjusted = Self::adjusted_count(state.packet_promiscuity, inc);
                let configured = state.configured_flags & InterfaceFlags::PROMISC != 0;
                match adjusted {
                    Err(e) => r == Err::<(), SystemError>(e) && *final(self) == *old(self),
                    Ok(count) => if spec_total_count(count, configured) is Err {
                        r == Err::<(), SystemError>(SystemError::EOVERFLOW) && *final(self)
                            == *old(self)
                    } else {
                        let changed = ReceiveModeState { packet_promiscuity: count, ..state };
                        r is Ok && *final(self) == (IfaceCommon {
                            receive_mode: changed,
                            flags: effective_flags(changed),
                            ..*old(self)
                        })
                    },
                }
            }),
    {
        self.adjust_receive_mode(InterfaceFlags::PROMISC, inc)
    }

    /// Counts a packet socket that wants every multicast frame, or that no longer does.
    pub fn adjust_allmulti(&mut self, inc: i32) -> (r: Result<(), SystemError>)
        requires
            old(self).wf(),
        ensures
            final(self).wf(),
            ({
                let state = old(self).receive_mode;
                let adjusted = Self::adjusted_count(state.packet_allmulti, inc);
                let configured = state.configured_flags & InterfaceFlags::ALLMULTI != 0;
                match adjusted {
                    Err(e) => r == Err::<(), SystemError>(e) && *final(self) == *old(self),
                    Ok(count) => if spec_total_count(count, configured) is Err {
                        r == Err::<(), SystemError>(SystemError::EOVERFLOW) && *final(self)
                            == *old(self)
                    } else {
                        let changed = ReceiveModeState { packet_allmulti: count, ..state };
                        r is Ok && *final(self) == (IfaceCommon {
                            receive_mode: changed,
                            flags: effective_flags(changed),
                            ..*old(self)
                        })
                    },
                }
            }),
    {
        self.adjust_receive_mode(InterfaceFlags::ALLMULTI, inc)
    }

    /// Hands the routes over that were added before publication.
    pub fn take_bootstrap_routes(&mut self) -> (r: Vec<BootstrapRoute>)
        requires
            old(self).wf(),
        ensures
            final(self).wf(),
            r@ == old(self).bootstrap_routes@,
            final(self).bootstrap_routes@.len() == 0,
            *final(self) == (IfaceCommon {
                bootstrap_routes: final(self).bootstrap_routes,
                ..*old(self)
            }),
    {
        let mut routes: Vec<BootstrapRoute> = Vec::new();
        std::mem::swap(&mut routes, &mut self.bootstrap_routes);
        routes
    }

    /// Takes the routes back after a publication that failed.
    pub fn restore_bootstrap_routes(&mut self, routes: Vec<BootstrapRoute>)
        requires
            old(self).wf(),
            old(self).bootstrap_routes@.len() == 0,
        ensures
            final(self).wf(),
            *final(self) == (IfaceCommon { bootstrap_routes: routes, ..*old(self) }),
    {
        self.bootstrap_routes = routes;
    }

    /// Adds or replaces a configured neighbor. Returns whether packets became ready by it.
    pub fn set_static_neighbor(&mut self, entry: StaticNeighborEntry) -> (r: bool)
        requires
            old(self).wf(),
        ensures
            final(self).wf(),
            final(self).static_neighbors@ == with_neighbor(old(self).static_neighbors@, entry),
            match entry.ip_addr {
                IpAddress::Ipv6(_) => !r && final(self).local_input_queue
                    == old(self).local_input_queue,
                IpAddress::Ipv4(next_hop) => {
                    let key = DeferredRouteKey { oif: old(self).iface_id as u32, next_hop };
                    &&& r == old(self).local_input_queue.output.deferred_routes@.contains_key(key.spec_packed())
                    &&& deferred_queue::release_effect(
                        old(self).local_input_queue.output.deferred_routes@,
                        key,
                        old(self).local_input_queue.output.packets@,
                        final(self).local_input_queue.output.deferred_routes@,
                        final(self).local_input_queue.output.packets@,
                    )
                },
            },
            *final(self) == (IfaceCommon {
                static_neighbors: final(self).static_neighbors,
                local_input_queue: final(self).local_input_queue,
                ..*old(self)
            }),
    {
        let ghost list = self.static_neighbors@;
        let mut i: usize = 0;
        while i < self.static_neighbors.len() && self.static_neighbors[i].ip_addr != entry.ip_addr
            invariant
                i <= self.static_neighbors@.len(),
                self.static_neighbors@ == list,
                forall|j: int| 0 <= j < i ==> (#[trigger] list[j]).ip_addr != entry.ip_addr,
            decreases self.static_neighbors@.len() - i,
        {
            i = i + 1;
        }
        proof {
            lemma_neighbor_slot(list, entry.ip_addr, i as int);
        }
        if i < self.static_neighbors.len() {
            self.static_neighbors.set(i, entry);
        } else {
            self.static_neighbors.push(entry);
        }
        match entry.ip_addr {
            IpAddress::Ipv4(_) => {
                let oif: u32 = self.iface_id as u32;
                self.local_input_queue.output.release_neighbor(oif, entry.ip_addr)
            },
            IpAddress::Ipv6(_) => false,
        }
    }

    /// Removes the configured neighbors with an address. Returns whether there was one.
    pub fn remove_static_neighbor(&mut self, ip_addr: IpAddress) -> (r: bool)
        requires
            old(self).wf(),
        ensures
            final(self).wf(),
            final(self).static_neighbors@ == old(self).static_neighbors@.filter(
                |e: StaticNeighborEntry| e.ip_addr != ip_addr,
            ),
            r == exists|i: int|
                0 <= i < old(self).static_neighbors@.len() && (
                #[trigger] old(self).static_neighbors@[i]).ip_addr == ip_addr,
            *final(self) == (IfaceCommon {
                static_neighbors: final(self).static_neighbors,
                ..*old(self)
            }),
    {
        let ghost list = self.static_neighbors@;
        let ghost keep = |e: StaticNeighborEntry| e.ip_addr != ip_addr;
        let mut kept: Vec<StaticNeighborEntry> = Vec::new();
        let mut removed = false;
        let mut i: usize = 0;
        assert(list.take(0).filter(keep) =~= Seq::empty()) by {
            reveal(Seq::filter);
        }
        while i < self.static_neighbors.len()
            invariant
                i <= list.len(),
                self.static_neighbors@ == list,
                keep == (|e: StaticNeighborEntry| e.ip_addr != ip_addr),
                kept@ == list.take(i as int).filter(keep),
                removed == exists|j: int| 0 <= j < i && (#[trigger] list[j]).ip_addr == ip_addr,
            decreases list.len() - i,
        {
            let entry = self.static_neighbors[i];
            proof {
                let t = list.take(i + 1);
                assert(t.drop_last() =~= list.take(i as int));
                reveal(Seq::filter);
            }
            if entry.ip_addr != ip_addr {
                kept.push(entry);
            } else {
                removed = true;
            }
            i = i + 1;
        }
        assert(list.take(list.len() as int) =~= list);
        self.static_neighbors = kept;
        removed
    }

    /// Copies a packet into the buffer that was found for it, if one was found and its size fits
    /// into the room that is left; otherwise the room of `reservation` is given back.
    pub fn fill_routed_output(
        &mut self,
        reservation: LocalOutputReservation,
        scratch: Option<LocalInputScratch>,
        oif: u32,
        next_hop: IpAddress,
        ip_packet: &[u8],
    ) -> (r: Result<(LocalOutputPacket, LocalOutputReservation), SystemError>)
        requires
            old(self).wf(),
            old(self).local_input_queue.output.holds(reservation),
            reservation.bytes == 0,
            scratch matches Some(scratch) ==> scratch.buffer is Some,
        ensures
            final(self).wf(),
            match r {
                Ok((packet, reserved)) => {
                    &&& scratch is Some
                    &&& old(self).local_input_queue.output.bytes
                        + old(self).local_input_queue.output.reserved_bytes + scratch->0.capacity
                        <= LocalInputQueue::MAX_BYTES
                    &&& packet.medium == Medium::Ip
                    &&& packet.meta.id == 0
                    &&& packet.disposition == (LocalOutputDisposition::Routed {
                        oif,
                        next_hop,
                        ip_mtu: old(self).mtu,
                    })
                    &&& packet.frame@ == ip_packet@
                    &&& packet.charge == scratch->0.capacity
                    &&& reserved.bytes == scratch->0.capacity
                    &&& final(self).local_input_queue.output.holds(reserved)
                    &&& final(self).local_input_queue.output.reserved_frames
                        == old(self).local_input_queue.output.reserved_frames
                    &&& final(self).local_input_queue.output.reserved_bytes
                        == old(self).local_input_queue.output.reserved_bytes + scratch->0.capacity
                },
                Err(e) => {
                    &&& e == (if scratch is None {
                        SystemError::ENOMEM
                    } else {
                        SystemError::ENOBUFS
                    })
                    &&& scratch is Some ==> old(self).local_input_queue.output.bytes
                        + old(self).local_input_queue.output.reserved_bytes + scratch->0.capacity
                        > LocalInputQueue::MAX_BYTES
                    &&& final(self).local_input_queue.output.reserved_frames
                        == old(self).local_input_queue.output.reserved_frames - 1
                    &&& final(self).local_input_queue.output.reserved_bytes
                        == old(self).local_input_queue.output.reserved_bytes
                },
            },
            queues_kept(old(self), final(self)),
            *final(self) == (IfaceCommon {
                local_input_queue: final(self).local_input_queue,
                ..*old(self)
            }),
    {
        let mut reservation = reservation;
        let mut scratch = match scratch {
            Some(scratch) => scratch,
            None => {
                reservation.release(&mut self.local_input_queue.output);
                return Err(SystemError::ENOMEM);
            },
        };
        if !reservation.try_resize(&mut self.local_input_queue.output, scratch.capacity) {
            scratch.discard(&mut self.local_input_queue.response_scratch);
            reservation.release(&mut self.local_input_queue.output);
            return Err(SystemError::ENOBUFS);
        }
        scratch.fill(ip_packet);
        let frame = scratch.take().unwrap();
        let packet = LocalOutputPacket {
            medium: Medium::Ip,
            meta: PacketMeta { id: 0 },
            disposition: LocalOutputDisposition::Routed { oif, next_hop, ip_mtu: self.mtu },
            frame,
            charge: reservation.bytes,
        };
        Ok((packet, reservation))
    }

    /// Asks the allocator for what a packet of `len` bytes needs, in the order in which it is used.
    /// `bucket` is the neighbor that the packet is to wait for.
    pub fn allocate_routed(&mut self, len: usize, bucket: Option<DeferredRouteKey>) -> (r:
        RoutedMemory)
        requires
            old(self).wf(),
        ensures
            final(self).wf(),
            r.wf(),
            r.scratch matches Some(scratch) ==> scratch.capacity >= len,
            final(self).local_input_queue.output.same(&old(self).local_input_queue.output),
            queues_kept(old(self), final(self)),
            *final(self) == (IfaceCommon {
                local_input_queue: final(self).local_input_queue,
                ..*old(self)
            }),
    {
        let room = self.local_input_queue.output.make_room();
        if !room || !self.local_input_queue.output.admits(0) {
            return RoutedMemory { room, scratch: None, bucket_room: false };
        }
        let scratch = LocalInputScratch::checkout(
            &mut self.local_input_queue.response_scratch,
            len,
        );
        let fits = match &scratch {
            Some(scratch) => self.local_input_queue.output.admits(scratch.capacity),
            None => false,
        };
        let bucket_room = match bucket {
            Some(key) => fits && self.local_input_queue.output.deferred_routes.reserve_for(key),
            None => fits,
        };
        RoutedMemory { room, scratch, bucket_room }
    }

    /// Copies a packet into the buffer that was found for it and sets room aside for it.
    pub fn prepare_reserved(
        &mut self,
        oif: u32,
        next_hop: IpAddress,
        ip_packet: &[u8],
        memory: RoutedMemory,
    ) -> (r: Result<(LocalOutputPacket, LocalOutputReservation), SystemError>)
        requires
            old(self).wf(),
            memory.wf(),
        ensures
            final(self).wf(),
            match r {
                Ok((packet, reservation)) => {
                    &&& refusal(old(self), ip_packet@.len(), memory) is None
                    &&& routed_packet(old(self), oif, next_hop, ip_packet@, memory, packet)
                    &&& reservation.bytes == packet.charge
                    &&& final(self).local_input_queue.output.holds(reservation)
                    &&& final(self).local_input_queue.output.reserved_frames
                        == old(self).local_input_queue.output.reserved_frames + 1
                    &&& final(self).local_input_queue.output.reserved_bytes
                        == old(self).local_input_queue.output.reserved_bytes + packet.charge
                },
                Err(error) => {
                    &&& refusal(old(self), ip_packet@.len(), memory) == Some(error)
                    &&& final(self).local_input_queue.output.same(
                        &old(self).local_input_queue.output,
                    )
                },
            },
            queues_kept(old(self), final(self)),
            *final(self) == (IfaceCommon {
                local_input_queue: final(self).local_input_queue,
                ..*old(self)
            }),
    {
        let RoutedMemory { room, scratch, .. } = memory;
        let reservation = if ip_packet.len() > self.mtu {
            None
        } else {
            self.local_input_queue.output.reserve(room)
        };
        let reservation = match reservation {
            Some(reservation) => reservation,
            None => {
                if let Some(scratch) = scratch {
                    scratch.discard(&mut self.local_input_queue.response_scratch);
                }
                return Err(
                    if ip_packet.len() > self.mtu {
                        SystemError::EMSGSIZE
                    } else {
                        SystemError::ENOBUFS
                    },
                );
            },
        };
        self.fill_routed_output(reservation, scratch, oif, next_hop, ip_packet)
    }

    /// Copies a packet into a buffer and sets room aside for it. Allocation may fail.
    pub fn prepare_routed_output(&mut self, oif: u32, next_hop: IpAddress, ip_packet: &[u8]) -> (r:
        Result<(LocalOutputPacket, LocalOutputReservation), SystemError>)
        requires
            old(self).wf(),
        ensures
            final(self).wf(),
            r == Err::<(LocalOutputPacket, LocalOutputReservation), SystemError>(
                SystemError::EMSGSIZE,
            ) <==> ip_packet@.len() > old(self).mtu,
            r matches Err(e) ==> e == SystemError::EMSGSIZE || e == SystemError::ENOBUFS || e
                == SystemError::ENOMEM,
            r matches Ok((packet, reservation)) ==> {
                &&& egress::carries(packet, oif, next_hop, old(self).mtu, ip_packet@)
                &&& packet.charge == reservation.bytes
                &&& packet.charge >= ip_packet@.len()
                &&& old(self).local_input_queue.output.spec_admits(packet.charge)
                &&& final(self).local_input_queue.output.holds(reservation)
                &&& final(self).local_input_queue.output.reserved_frames
                    == old(self).local_input_queue.output.reserved_frames + 1
                &&& final(self).local_input_queue.output.reserved_bytes
                    == old(self).local_input_queue.output.reserved_bytes + reservation.bytes
            },
            r is Err ==> final(self).local_input_queue.output.same(
                &old(self).local_input_queue.output,
            ),
            queues_kept(old(self), final(self)),
            *final(self) == (IfaceCommon {
                local_input_queue: final(self).local_input_queue,
                ..*old(self)
            }),
    {
        if ip_packet.len() > self.mtu {
            return Err(SystemError::EMSGSIZE);
        }
        let memory = self.allocate_routed(ip_packet.len(), None);
        self.prepare_reserved(oif, next_hop, ip_packet, memory)
    }

    /// Lets a routed packet wait for its neighbor, in the memory that was found for it.
    pub fn queue_prepared(
        &mut self,
        oif: u32,
        next_hop: Ipv4Address,
        ip_packet: &[u8],
        retry_at: Instant,
        probe_sent: bool,
        memory: RoutedMemory,
    ) -> (r: Result<(), SystemError>)
        requires
            old(self).wf(),
            memory.wf(),
        ensures
            final(self).wf(),
            queue_outcome(
                old(self),
                oif,
                next_hop,
                ip_packet@,
                retry_at,
                probe_sent,
                memory,
                final(self),
                r,
            ),
            final(self).local_input_queue.state == old(self).local_input_queue.state,
            final(self).local_input_queue.output_draining
                == old(self).local_input_queue.output_draining,
            final(self).local_input_queue.output.packets@
                == old(self).local_input_queue.output.packets@,
            final(self).local_input_queue.output.backpressured@
                == old(self).local_input_queue.output.backpressured@,
            *final(self) == (IfaceCommon {
                local_input_queue: final(self).local_input_queue,
                ..*old(self)
            }),
    {
        let bucket_room = memory.bucket_room;
        let ghost given = memory;
        let (packet, reservation) = match self.prepare_reserved(
            oif,
            IpAddress::Ipv4(next_hop),
            ip_packet,
            memory,
        ) {
            Ok(prepared) => prepared,
            Err(error) => {
                return Err(error);
            },
        };
        let ghost p = packet;
        proof {
            assert(DeferredRouteKey::spec_of(p.disposition) == Some(
                DeferredRouteKey { oif, next_hop },
            ));
        }
        let committed = reservation.commit_deferred_reserved(
            &mut self.local_input_queue.output,
            packet,
            retry_at,
            probe_sent,
            false,
            bucket_room,
        );
        match committed {
            Ok(_) => {
                assert(neighbor_joined(old(self), oif, next_hop, p, retry_at, probe_sent, self));
                Ok(())
            },
            Err(packet) => {
                self.local_input_queue.recycle_output(packet.frame);
                Err(SystemError::ENOBUFS)
            },
        }
    }

    /// Lets a routed packet wait for its neighbor. Allocation may fail.
    pub fn enqueue_routed_output(
        &mut self,
        oif: u32,
        next_hop: Ipv4Address,
        ip_packet: &[u8],
        retry_at: Instant,
        probe_sent: bool,
    ) -> (r: Result<(), SystemError>)
        requires
            old(self).wf(),
        ensures
            final(self).wf(),
            r == Err::<(), SystemError>(SystemError::EMSGSIZE) <==> ip_packet@.len() > old(self).mtu,
            exists|memory: RoutedMemory|
                (memory.scratch matches Some(scratch) ==> scratch.capacity >= ip_packet@.len())
                    && #[trigger] queue_outcome(
                    old(self),
                    oif,
                    next_hop,
                    ip_packet@,
                    retry_at,
                    probe_sent,
                    memory,
                    final(self),
                    r,
                ),
            final(self).local_input_queue.state == old(self).local_input_queue.state,
            final(self).local_input_queue.output.packets@
                == old(self).local_input_queue.output.packets@,
            final(self).local_input_queue.output.backpressured@
                == old(self).local_input_queue.output.backpressured@,
            *final(self) == (IfaceCommon {
                local_input_queue: final(self).local_input_queue,
                ..*old(self)
            }),
    {
        let memory = if ip_packet.len() > self.mtu {
            RoutedMemory { room: false, scratch: None, bucket_room: false }
        } else {
            self.allocate_routed(ip_packet.len(), Some(DeferredRouteKey { oif, next_hop }))
        };
        let ghost given = memory;
        let ghost mid = *self;
        let r = self.queue_prepared(oif, next_hop, ip_packet, retry_at, probe_sent, memory);
        proof {
            lemma_queue_outcome(
                old(self),
                &mid,
                oif,
                next_hop,
                ip_packet@,
                retry_at,
                probe_sent,
                given,
                self,
                r,
            );
        }
        r
    }
}

/// Asking the allocator does not change what becomes of a packet.
pub proof fn lemma_queue_outcome(
    o: &IfaceCommon,
    mid: &IfaceCommon,
    oif: u32,
    next_hop: Ipv4Address,
    bytes: Seq<u8>,
    retry_at: Instant,
    probe_sent: bool,
    memory: RoutedMemory,
    n: &IfaceCommon,
    r: Result<(), SystemError>,
)
    requires
        mid.local_input_queue.output.same(&o.local_input_queue.output),
        mid.mtu == o.mtu,
        queue_outcome(mid, oif, next_hop, bytes, retry_at, probe_sent, memory, n, r),
    ensures
        queue_outcome(o, oif, next_hop, bytes, retry_at, probe_sent, memory, n, r),
{
    if r is Ok {
        let packet = choose|packet: LocalOutputPacket|
            routed_packet(mid, oif, IpAddress::Ipv4(next_hop), bytes, memory, packet)
                && #[trigger] neighbor_joined(
                mid,
                oif,
                next_hop,
                packet,
                retry_at,
                probe_sent,
                n,
            );
        assert(neighbor_joined(o, oif, next_hop, packet, retry_at, probe_sent, n));
    }
}

/// Nothing that is queued changed.
pub open spec fn queues_kept(o: &IfaceCommon, n: &IfaceCommon) -> bool {
    &&& n.local_input_queue.state == o.local_input_queue.state
    &&& n.local_input_queue.output.packets@ == o.local_input_queue.output.packets@
    &&& n.local_input_queue.output.backpressured@ == o.local_input_queue.output.backpressured@
    &&& n.local_input_queue.output.deferred_routes@ == o.local_input_queue.output.deferred_routes@
    &&& n.local_input_queue.output.frames == o.local_input_queue.output.frames
    &&& n.local_input_queue.output.bytes == o.local_input_queue.output.bytes
    &&& n.local_input_queue.output_draining == o.local_input_queue.output_draining
}

/// The place of the neighbor with an address, or the end of the list.
pub open spec fn neighbor_slot(list: Seq<StaticNeighborEntry>, ip_addr: IpAddress) -> int
    decreases list.len(),
{
    if list.len() == 0 {
        0
    } else if list[0].ip_addr == ip_addr {
        0
    } else {
        1 + neighbor_slot(list.skip(1), ip_addr)
    }
}

/// `list` after `entry` was added or replaced the neighbor with its address.
pub open spec fn with_neighbor(list: Seq<StaticNeighborEntry>, entry: StaticNeighborEntry) -> Seq<
    StaticNeighborEntry,
> {
    let slot = neighbor_slot(list, entry.ip_addr);
    if slot < list.len() {
        list.update(slot, entry)
    } else {
        list.push(entry)
    }
}

proof fn lemma_neighbor_slot(list: Seq<StaticNeighborEntry>, ip_addr: IpAddress, i: int)
    requires
        0 <= i <= list.len(),
        forall|j: int| 0 <= j < i ==> (#[trigger] list[j]).ip_addr != ip_addr,
        i < list.len() ==> list[i].ip_addr == ip_addr,
    ensures
        neighbor_slot(list, ip_addr) == i,
    decreases list.len(),
{
    if list.len() > 0 && i > 0 {
        assert(list[0].ip_addr != ip_addr);
        let t = list.skip(1);
        assert forall|j: int| 0 <= j < i - 1 implies (#[trigger] t[j]).ip_addr != ip_addr by {
            assert(t[j] == list[j + 1]);
        }
        lemma_neighbor_slot(t, ip_addr, i - 1);
    }
}

proof fn lemma_group_refs(list: Seq<(Ipv4Address, usize)>, i: int)
    requires
        groups_ok(list),
        0 <= i < list.len(),
    ensures
        group_refs(list, list[i].0) == list[i].1,
    decreases list.len(),
{
    let t = list.drop_last();
    if i < list.len() - 1 {
        assert(list[i].0 != list[list.len() - 1].0);
        assert(groups_ok(t)) by {
            assert forall|a: int, b: int|
                #![trigger t[a], t[b]]
                0 <= a < b < t.len() implies t[a].0 != t[b].0 by {
                assert(list[a].0 != list[b].0);
            }
            assert forall|a: int| 0 <= a < t.len() implies (#[trigger] t[a]).1 > 0 by {
                assert(list[a].1 > 0);
            }
        }
        assert(t[i] == list[i]);
        lemma_group_refs(t, i);
    }
}

proof fn lemma_group_absent(list: Seq<(Ipv4Address, usize)>, group: Ipv4Address)
    requires
        forall|j: int| 0 <= j < list.len() ==> (#[trigger] list[j]).0 != group,
    ensures
        group_refs(list, group) == 0,
    decreases list.len(),
{
    if list.len() > 0 {
        let t = list.drop_last();
        assert(list[list.len() - 1].0 != group);
        assert forall|j: int| 0 <= j < t.len() implies (#[trigger] t[j]).0 != group by {
            assert(list[j].0 != group);
        }
        lemma_group_absent(t, group);
    }
}

proof fn lemma_group_refs_update(
    list: Seq<(Ipv4Address, usize)>,
    i: int,
    entry: (Ipv4Address, usize),
    g: Ipv4Address,
)
    requires
        0 <= i < list.len(),
        entry.0 == list[i].0,
        g != entry.0,
    ensures
        group_refs(list.update(i, entry), g) == group_refs(list, g),
    decreases list.len(),
{
    let n = list.update(i, entry);
    if i == list.len() - 1 {
        assert(n.drop_last() =~= list.drop_last());
    } else {
        assert(n.drop_last() =~= list.drop_last().update(i, entry));
        lemma_group_refs_update(list.drop_last(), i, entry, g);
    }
}

proof fn lemma_group_refs_swap_remove(
    list: Seq<(Ipv4Address, usize)>,
    i: int,
    g: Ipv4Address,
)
    requires
        groups_ok(list),
        0 <= i < list.len(),
    ensures
        group_refs(list.update(i, list.last()).drop_last(), g) == (if g == list[i].0 {
            0
        } else {
            group_refs(list, g)
        }),
        groups_ok(list.update(i, list.last()).drop_last()),
{
    let n = list.update(i, list.last()).drop_last();
    let last = list.len() - 1;
    assert(groups_ok(n)) by {
        assert forall|a: int, b: int|
            #![trigger n[a], n[b]]
            0 <= a < b < n.len() implies n[a].0 != n[b].0 by {
            let x = if a == i {
                last
            } else {
                a
            };
            let y = if b == i {
                last
            } else {
                b
            };
            assert(n[a] == list[x] && n[b] == list[y]);
            assert(list[x].0 != list[y].0);
        }
        assert forall|a: int| 0 <= a < n.len() implies (#[trigger] n[a]).1 > 0 by {
            assert(list[a].1 > 0 && list[last].1 > 0);
        }
    }
    if exists|j: int| 0 <= j < list.len() && (#[trigger] list[j]).0 == g {
        let j = choose|j: int| 0 <= j < list.len() && (#[trigger] list[j]).0 == g;
        lemma_group_refs(list, j);
        if j == i {
            assert forall|a: int| 0 <= a < n.len() implies (#[trigger] n[a]).0 != g by {
                let x = if a == i {
                    last
                } else {
                    a
                };
                assert(n[a] == list[x]);
                assert(x != i);
                assert(list[x].0 != list[i].0);
            }
            lemma_group_absent(n, g);
        } else if j == last {
            assert(n[i] == list[last]);
            lemma_group_refs(n, i);
        } else {
            assert(n[j] == list[j]);
            lemma_group_refs(n, j);
            if list[i].0 == g {
                assert(list[i].0 != list[j].0);
            }
        }
    } else {
        lemma_group_absent(list, g);
        assert forall|a: int| 0 <= a < n.len() implies (#[trigger] n[a]).0 != g by {
            assert(n[a] == list[a] || n[a] == list[last]);
        }
        lemma_group_absent(n, g);
        assert(list[i].0 != g);
    }
}

/// Leaving a group that was just joined leaves every group with the members that it had, unless the
/// count was at its limit. `joined` is the list after joining, `left` the one after leaving.
pub proof fn law_leave_undoes_join(
    list: Seq<(Ipv4Address, usize)>,
    joined: Seq<(Ipv4Address, usize)>,
    left: Seq<(Ipv4Address, usize)>,
    group: Ipv4Address,
    other: Ipv4Address,
)
    requires
        refs_joined(list, joined, group),
        refs_left(joined, left, group),
        group_refs(list, group) < usize::MAX,
    ensures
        group_refs(left, other) == group_refs(list, other),
{
    if other != group {
        assert(group_refs(joined, other) == group_refs(list, other));
    }
}

/// A socket that is bound and then taken out again leaves the others in their order.
pub proof fn law_unbind_undoes_bind(bounds: Seq<u64>, socket: u64)
    requires
        !bounds.contains(socket),
    ensures
        ({
            let bound = bounds.push(socket);
            bound.contains(socket) && bound.remove(bound.index_of(socket)) == bounds
        }),
{
    let bound = bounds.push(socket);
    let last = bounds.len() as int;
    assert(bound[last] == socket);
    let at = bound.index_of(socket);
    assert(bound[at] == socket);
    if at < last {
        assert(bounds[at] == socket);
    }
    assert(bound.remove(last) =~= bounds);
}

/// An interface receives everything exactly if that is configured or some packet socket asks for it,
/// and all groups likewise. Every other flag is as configured.
pub proof fn law_effective_flags(state: ReceiveModeState)
    ensures
        ({
            let flags = effective_flags(state);
            &&& (flags & 0x100 != 0) == (state.configured_flags & 0x100 != 0
                || state.packet_promiscuity > 0)
            &&& (flags & 0x200 != 0) == (state.configured_flags & 0x200 != 0
                || state.packet_allmulti > 0)
            &&& flags & 0xffff_fcff == state.configured_flags & 0xffff_fcff
        }),
{
    let c = state.configured_flags;
    assert({
        let p = c | 0x100u32;
        let a = c | 0x200u32;
        let both = p | 0x200u32;
        &&& p & 0x100 != 0 && (p & 0x200 != 0) == (c & 0x200 != 0) && p & 0xffff_fcff == c
            & 0xffff_fcff
        &&& a & 0x200 != 0 && (a & 0x100 != 0) == (c & 0x100 != 0) && a & 0xffff_fcff == c
            & 0xffff_fcff
        &&& both & 0x100 != 0 && both & 0x200 != 0 && both & 0xffff_fcff == c & 0xffff_fcff
    }) by (bit_vector);
}

/// A change of the configured flags takes those of the mask from what is requested and leaves every
/// other one as it was.
pub proof fn law_changed_flags(
    common: IfaceCommon,
    requested: InterfaceFlags,
    change_mask: InterfaceFlags,
)
    ensures
        ({
            let changed = common.changed_flags(requested, change_mask);
            &&& changed & change_mask.bits == requested.bits & change_mask.bits
            &&& changed & !change_mask.bits == common.receive_mode.configured_flags
                & !change_mask.bits
        }),
{
    let c = common.receive_mode.configured_flags;
    let r = requested.bits;
    let m = change_mask.bits;
    assert({
        let changed = (c & !m) | (r & m);
        &&& changed & m == r & m
        &&& changed & !m == c & !m
    }) by (bit_vector);
}

/// How packet sockets that ask for a receive mode are counted: one more or one less, never below zero
/// or beyond what can be counted, and each undoes the other. A mode that is configured has one user
/// more.
pub proof fn law_receive_mode_counts(count: u32, inc: i32, configured: bool)
    ensures
        match IfaceCommon::adjusted_count(count, inc) {
            Ok(n) => n == count + inc && (inc == 1 || inc == -1),
            Err(e) => if inc == 1 {
                count == u32::MAX && e == SystemError::EOVERFLOW
            } else {
                e == SystemError::EINVAL && (inc != -1 || count == 0)
            },
        },
        IfaceCommon::adjusted_count(count, 1) matches Ok(n) ==> IfaceCommon::adjusted_count(
            n,
            (-1int) as i32,
        ) == Ok::<u32, SystemError>(count),
        match spec_total_count(count, configured) {
            Ok(n) => n - count == (if configured {
                1int
            } else {
                0
            }),
            Err(e) => configured && count == u32::MAX && e == SystemError::EOVERFLOW,
        },
{
}

/// How often a group was joined is what its entry says, and zero exactly if it has none.
pub proof fn law_group_refs(list: Seq<(Ipv4Address, usize)>, group: Ipv4Address)
    requires
        groups_ok(list),
    ensures
        forall|i: int|
            0 <= i < list.len() && (#[trigger] list[i]).0 == group ==> group_refs(list, group)
                == list[i].1,
        group_refs(list, group) == 0 <==> forall|i: int|
            0 <= i < list.len() ==> (#[trigger] list[i]).0 != group,
{
    assert forall|i: int| 0 <= i < list.len() && (#[trigger] list[i]).0 == group implies group_refs(
        list,
        group,
    ) == list[i].1 by {
        lemma_group_refs(list, i);
    }
    if forall|i: int| 0 <= i < list.len() ==> (#[trigger] list[i]).0 != group {
        lemma_group_absent(list, group);
    } else {
        let i = choose|i: int| 0 <= i < list.len() && (#[trigger] list[i]).0 == group;
        lemma_group_refs(list, i);
    }
}

/// Joining a group counts one member more and leaving it one less, and other groups do not notice.
pub proof fn law_membership(
    before: Seq<(Ipv4Address, usize)>,
    after: Seq<(Ipv4Address, usize)>,
    group: Ipv4Address,
    other: Ipv4Address,
)
    requires
        group_refs(before, group) < usize::MAX,
    ensures
        refs_joined(before, after, group) ==> group_refs(after, group) - group_refs(before, group)
            == 1,
        refs_left(before, after, group) && group_refs(before, group) > 0 ==> group_refs(
            before,
            group,
        ) - group_refs(after, group) == 1,
        refs_left(before, after, group) && group_refs(before, group) == 0 ==> group_refs(
            after,
            group,
        ) == 0,
        (refs_joined(before, after, group) || refs_left(before, after, group)) && other != group
            ==> group_refs(after, other) == group_refs(before, other),
{
}

/// A configured neighbor is found under its address afterwards, every other one stays what and where it
/// was, and the list grows only if the address was not in it.
pub proof fn law_with_neighbor(list: Seq<StaticNeighborEntry>, entry: StaticNeighborEntry)
    ensures
        ({
            let after = with_neighbor(list, entry);
            let known = exists|i: int|
                0 <= i < list.len() && (#[trigger] list[i]).ip_addr == entry.ip_addr;
            &&& after.contains(entry)
            &&& after.len() == list.len() + (if known {
                0int
            } else {
                1
            })
            &&& forall|i: int|
                0 <= i < list.len() && (#[trigger] list[i]).ip_addr != entry.ip_addr ==> after[i]
                    == list[i]
            &&& forall|i: int|
                0 <= i < list.len() ==> (#[trigger] after[i]).ip_addr == list[i].ip_addr
        }),
{
    lemma_slot_is_first(list, entry.ip_addr);
    let slot = neighbor_slot(list, entry.ip_addr);
    let after = with_neighbor(list, entry);
    if slot < list.len() {
        assert(list[slot].ip_addr == entry.ip_addr);
        assert(after[slot] == entry);
    } else {
        assert(after[list.len() as int] == entry);
    }
}

proof fn lemma_slot_is_first(list: Seq<StaticNeighborEntry>, ip_addr: IpAddress)
    ensures
        0 <= neighbor_slot(list, ip_addr) <= list.len(),
        neighbor_slot(list, ip_addr) < list.len() ==> list[neighbor_slot(list, ip_addr)].ip_addr
            == ip_addr,
        forall|i: int|
            0 <= i < neighbor_slot(list, ip_addr) ==> (#[trigger] list[i]).ip_addr != ip_addr,
    decreases list.len(),
{
    if list.len() > 0 && list[0].ip_addr != ip_addr {
        let rest = list.skip(1);
        lemma_slot_is_first(rest, ip_addr);
        let n = neighbor_slot(rest, ip_addr);
        if n < rest.len() {
            assert(rest[n] == list[n + 1]);
        }
        assert forall|i: int| 0 <= i < n + 1 implies (#[trigger] list[i]).ip_addr != ip_addr by {
            if i > 0 {
                assert(rest[i - 1] == list[i]);
            }
        }
    }
}

/// Why a packet from elsewhere is not queued: it is longer than the interface sends, 1024 packets or
/// four mebibytes would be exceeded, or there is no memory.
pub proof fn law_refusal(common: IfaceCommon, len: nat, memory: RoutedMemory)
    ensures
        ({
            let output = common.local_input_queue.output;
            match refusal(&common, len, memory) {
                Some(SystemError::EMSGSIZE) => len > common.mtu,
                Some(SystemError::ENOMEM) => len <= common.mtu && memory.scratch is None,
                Some(e) => {
                    &&& e == SystemError::ENOBUFS
                    &&& len <= common.mtu
                    &&& !memory.room || output.frames + output.reserved_frames + 1 > 1024 || (
                    memory.scratch matches Some(s) && output.bytes + output.reserved_bytes
                        + s.capacity > 0x40_0000)
                },
                None => {
                    &&& len <= common.mtu
                    &&& memory.room
                    &&& output.frames + output.reserved_frames + 1 <= 1024
                    &&& memory.scratch matches Some(s) && output.bytes + output.reserved_bytes
                        + s.capacity <= 0x40_0000
                },
            }
        }),
{
}

/// A routed packet that is to wait for its neighbor waits behind the others for it, with the bytes that
/// it had, marked with the interface and the neighbor; or it is refused, and nothing that is queued
/// changes. The neighbor is tried no later than this packet asks for, and at that time if it was just
/// probed or is new.
pub proof fn law_queue_outcome(
    o: IfaceCommon,
    oif: u32,
    next_hop: Ipv4Address,
    bytes: Seq<u8>,
    retry_at: Instant,
    probe_sent: bool,
    memory: RoutedMemory,
    n: IfaceCommon,
    r: Result<(), SystemError>,
)
    requires
        queue_outcome(&o, oif, next_hop, bytes, retry_at, probe_sent, memory, &n, r),
    ensures
        ({
            let before = o.local_input_queue.output;
            let after = n.local_input_queue.output;
            let k = (oif * 0x1_0000_0000 + next_hop.bits) as u64;
            &&& r is Ok <==> {
                let charge = memory.scratch->0.capacity;
                let w = before.deferred_routes@[k];
                &&& bytes.len() <= o.mtu
                &&& memory.room
                &&& memory.bucket_room
                &&& memory.scratch is Some
                &&& before.frames + before.reserved_frames + 1 <= 1024
                &&& before.bytes + before.reserved_bytes + charge <= 0x40_0000
                &&& before.deferred_routes@.contains_key(k) ==> w.packets.len() + 1 + (
                if w.probe_in_flight {
                    1int
                } else {
                    0
                }) <= 64 && w.bytes + w.probe_bytes + charge <= 0x4_0000
            }
            &&& r is Err ==> after.same(&before)
            &&& r is Ok ==> {
                let b = after.deferred_routes@[k];
                &&& bytes.len() <= o.mtu
                &&& after.deferred_routes@.contains_key(k)
                &&& b.packets.last().frame@ == bytes
                &&& b.packets.last().medium == Medium::Ip
                &&& b.packets.last().disposition == (LocalOutputDisposition::Routed {
                    oif,
                    next_hop: IpAddress::Ipv4(next_hop),
                    ip_mtu: o.mtu,
                })
                &&& before.deferred_routes@.contains_key(k) ==> b.packets.drop_last()
                    == before.deferred_routes@[k].packets
                &&& !before.deferred_routes@.contains_key(k) ==> b.packets.len() == 1
                &&& b.retry_at <= retry_at
                &&& probe_sent || !before.deferred_routes@.contains_key(k) ==> b.retry_at == retry_at
                &&& after.frames == before.frames + 1
                &&& after.reserved_frames == before.reserved_frames
                &&& forall|j: u64| j != k ==> #[trigger] after.deferred_routes@.contains_key(j)
                    == before.deferred_routes@.contains_key(j)
                &&& forall|j: u64|
                    j != k && #[trigger] before.deferred_routes@.contains_key(j)
                        ==> after.deferred_routes@[j] == before.deferred_routes@[j]
            }
        }),
{
    if r is Ok {
        let m = o.local_input_queue.output.deferred_routes@;
        let k = (DeferredRouteKey { oif, next_hop }).spec_packed();
        let packet = choose|packet: LocalOutputPacket|
            routed_packet(&o, oif, IpAddress::Ipv4(next_hop), bytes, memory, packet)
                && #[trigger] neighbor_joined(
                &o,
                oif,
                next_hop,
                packet,
                retry_at,
                probe_sent,
                &n,
            );
        if m.contains_key(k) {
            assert(m[k].packets.push(packet).drop_last() =~= m[k].packets);
        }
    }
}

} // verus!

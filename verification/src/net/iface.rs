//! What every interface shares: its published state and how packets leave it.

use vstd::arithmetic::power2;
use vstd::prelude::*;
use crate::error::SystemError;
use crate::net::addr::{EthernetAddress, Instant, IpAddress, Ipv4Address};
use crate::net::types::{InterfaceFlags, NetDeivceState, Operstate};

verus! {

/// Why a routed packet did not leave.
#[derive(Clone, Copy, Debug, PartialEq, Eq, Structural)]
pub enum RouteSendError {
    /// The neighbor is being resolved; retrying before `retry_at` is of no use.
    RetryAt { retry_at: Instant, probe_sent: bool },
    /// The device or the packet failed.
    Failed(SystemError),
}

/// How the stack answered when it was asked to frame a routed packet.
#[derive(Clone, Copy, Debug, PartialEq, Eq, Structural)]
pub enum DispatchOutcome {
    Done,
    NeighborPending { retry_at: Instant },
    NoRoute,
    Exhausted,
    Malformed,
    InvalidHardwareAddress,
}

/// The result of sending a routed packet, from what the stack and the device answered.
pub open spec fn spec_route_send_result(
    dispatch: DispatchOutcome,
    probe_sent: bool,
    transmitted: Result<(), SystemError>,
) -> Result<(), RouteSendError> {
    if probe_sent && transmitted is Err {
        Err(RouteSendError::Failed(transmitted->Err_0))
    } else {
        match dispatch {
            DispatchOutcome::Done => Ok(()),
            DispatchOutcome::NeighborPending { retry_at } => Err(
                RouteSendError::RetryAt { retry_at, probe_sent },
            ),
            DispatchOutcome::NoRoute => Err(RouteSendError::Failed(SystemError::ENETUNREACH)),
            DispatchOutcome::Exhausted => Err(
                RouteSendError::Failed(SystemError::EAGAIN_OR_EWOULDBLOCK),
            ),
            DispatchOutcome::Malformed => Err(RouteSendError::Failed(SystemError::EINVAL)),
            DispatchOutcome::InvalidHardwareAddress => Err(
                RouteSendError::Failed(SystemError::EINVAL),
            ),
        }
    }
}

/// The result of sending a routed packet. `probe_sent` tells whether the stack made a frame, and
/// `transmitted` what the device said to it.
pub fn route_send_result(
    dispatch: DispatchOutcome,
    probe_sent: bool,
    transmitted: Result<(), SystemError>,
) -> (r: Result<(), RouteSendError>)
    ensures
        r == spec_route_send_result(dispatch, probe_sent, transmitted),
{
    if probe_sent {
        if let Err(error) = transmitted {
            return Err(RouteSendError::Failed(error));
        }
    }
    match dispatch {
        DispatchOutcome::Done => Ok(()),
        DispatchOutcome::NeighborPending { retry_at } => Err(
            RouteSendError::RetryAt { retry_at, probe_sent },
        ),
        DispatchOutcome::NoRoute => Err(RouteSendError::Failed(SystemError::ENETUNREACH)),
        DispatchOutcome::Exhausted => Err(
            RouteSendError::Failed(SystemError::EAGAIN_OR_EWOULDBLOCK),
        ),
        DispatchOutcome::Malformed => Err(RouteSendError::Failed(SystemError::EINVAL)),
        DispatchOutcome::InvalidHardwareAddress => Err(RouteSendError::Failed(SystemError::EINVAL)),
    }
}

/// The room that framing a packet of `len` bytes takes: at least that of an address request.
pub fn frame_capacity(len: usize) -> (r: usize)
    requires
        len <= usize::MAX - 14,
    ensures
        r == (if len + 14 < 42 {
            42
        } else {
            len + 14
        }),
        r >= len + 14,
        r >= 14 + 28,
        r == len + 14 || r == 14 + 28,
{
    let framed: usize = 14 + len;
    if framed < 42 {
        42
    } else {
        framed
    }
}

/// What the stack is given to frame a routed packet.
#[derive(Clone, Copy, Debug, PartialEq, Eq, Structural)]
pub struct RouteSendStart {
    pub next_hop: Ipv4Address,
    /// The room that the frame was given.
    pub frame_capacity: usize,
    /// The address of the neighbor, if the interface was configured with one.
    pub permanent_neighbor: Option<EthernetAddress>,
}

/// The address of the first configured neighbor for `ip` from position `k` on.
pub open spec fn configured_neighbor(
    neighbors: Seq<StaticNeighborEntry>,
    ip: IpAddress,
    k: int,
) -> Option<EthernetAddress>
    decreases neighbors.len() - k,
{
    if k < 0 || k >= neighbors.len() {
        None
    } else if neighbors[k].ip_addr == ip {
        Some(neighbors[k].hw_addr)
    } else {
        configured_neighbor(neighbors, ip, k + 1)
    }
}

/// What the stack is given to frame a packet of `len` bytes for a next hop, which has to be an
/// IPv4 address. `room` tells whether there was memory for the frame.
pub fn route_and_send(
    next_hop: IpAddress,
    len: usize,
    room: bool,
    neighbors: &Vec<StaticNeighborEntry>,
) -> (r: Result<RouteSendStart, RouteSendError>)
    requires
        len <= usize::MAX - 14,
    ensures
        r == (match next_hop {
            IpAddress::Ipv6(_) => Err(RouteSendError::Failed(SystemError::EAFNOSUPPORT)),
            IpAddress::Ipv4(hop) => if room {
                Ok(
                    RouteSendStart {
                        next_hop: hop,
                        frame_capacity: (if len + 14 < 42 {
                            42
                        } else {
                            len + 14
                        }) as usize,
                        permanent_neighbor: configured_neighbor(neighbors@, next_hop, 0),
                    },
                )
            } else {
                Err(RouteSendError::Failed(SystemError::ENOMEM))
            },
        }),
{
    let hop = match next_hop {
        IpAddress::Ipv4(hop) => hop,
        IpAddress::Ipv6(_) => {
            return Err(RouteSendError::Failed(SystemError::EAFNOSUPPORT));
        },
    };
    let frame_capacity: usize = frame_capacity(len);
    if !room {
        return Err(RouteSendError::Failed(SystemError::ENOMEM));
    }
    let mut k: usize = 0;
    while k < neighbors.len()
        invariant
            k <= neighbors@.len(),
            next_hop == IpAddress::Ipv4(hop),
            room,
            frame_capacity == (if len + 14 < 42 {
                42
            } else {
                len + 14
            }),
            configured_neighbor(neighbors@, next_hop, k as int) == configured_neighbor(
                neighbors@,
                next_hop,
                0,
            ),
        decreases neighbors@.len() - k,
    {
        if neighbors[k].ip_addr == next_hop {
            return Ok(
                RouteSendStart {
                    next_hop: hop,
                    frame_capacity,
                    permanent_neighbor: Some(neighbors[k].hw_addr),
                },
            );
        }
        k = k + 1;
    }
    Ok(RouteSendStart { next_hop: hop, frame_capacity, permanent_neighbor: None })
}

/// The flags that user space sees of an interface whose flags are `configured`.
pub open spec fn spec_user_visible_flags(
    configured: InterfaceFlags,
    state: NetDeivceState,
    operstate: Operstate,
) -> u32 {
    let base = configured.bits & !0x3_0040u32;
    if !state.has(NetDeivceState::LINK_STATE_START) {
        base
    } else {
        let running = if operstate == Operstate::IF_OPER_UP || operstate
            == Operstate::IF_OPER_UNKNOWN {
            base | InterfaceFlags::RUNNING
        } else {
            base
        };
        let lower_up = if state.has(NetDeivceState::LINK_STATE_NOCARRIER) {
            running
        } else {
            running | InterfaceFlags::LOWER_UP
        };
        if state.has(NetDeivceState::LINK_STATE_DORMANT) {
            lower_up | InterfaceFlags::DORMANT
        } else {
            lower_up
        }
    }
}

/// Derives the flags that user space sees from life cycle, carrier and operational state.
pub fn project_user_visible_flags(
    configured: InterfaceFlags,
    state: NetDeivceState,
    operstate: Operstate,
) -> (r: InterfaceFlags)
    ensures
        r.bits == spec_user_visible_flags(configured, state, operstate),
{
    let mut flags = configured;
    proof {
        assert(0x40u32 | 0x1_0000u32 | 0x2_0000u32 == 0x3_0040u32) by (bit_vector);
    }
    flags.remove(InterfaceFlags::RUNNING | InterfaceFlags::LOWER_UP | InterfaceFlags::DORMANT);
    if !state.contains(NetDeivceState::LINK_STATE_START) {
        return flags;
    }
    if operstate == Operstate::IF_OPER_UP || operstate == Operstate::IF_OPER_UNKNOWN {
        flags.insert(InterfaceFlags::RUNNING);
    }
    if !state.contains(NetDeivceState::LINK_STATE_NOCARRIER) {
        flags.insert(InterfaceFlags::LOWER_UP);
    }
    if state.contains(NetDeivceState::LINK_STATE_DORMANT) {
        flags.insert(InterfaceFlags::DORMANT);
    }
    flags
}

/// An interface that was not started shows none of the flags that depend on its link, and the
/// other flags are always shown as configured.
pub proof fn law_user_visible_flags(
    configured: InterfaceFlags,
    state: NetDeivceState,
    operstate: Operstate,
)
    ensures
        spec_user_visible_flags(configured, state, operstate) & !0x3_0040u32 == configured.bits
            & !0x3_0040u32,
        !state.has(NetDeivceState::LINK_STATE_START) ==> spec_user_visible_flags(
            configured,
            state,
            operstate,
        ) & 0x3_0040u32 == 0,
{
    let b = configured.bits;
    let started = state.has(NetDeivceState::LINK_STATE_START);
    let r = started && (operstate == Operstate::IF_OPER_UP || operstate
        == Operstate::IF_OPER_UNKNOWN);
    let l = started && !state.has(NetDeivceState::LINK_STATE_NOCARRIER);
    let d = started && state.has(NetDeivceState::LINK_STATE_DORMANT);
    let x = b & !0x3_0040u32;
    let y = if r {
        x | 0x40u32
    } else {
        x
    };
    let z = if l {
        y | 0x1_0000u32
    } else {
        y
    };
    let w = if d {
        z | 0x2_0000u32
    } else {
        z
    };
    assert(w == spec_user_visible_flags(configured, state, operstate));
    assert(w & !0x3_0040u32 == b & !0x3_0040u32 && x & 0x3_0040u32 == 0) by (bit_vector)
        requires
            x == b & !0x3_0040u32,
            y == x || y == x | 0x40u32,
            z == y || z == y | 0x1_0000u32,
            w == z || w == z | 0x2_0000u32,
    ;
}

/// What sysfs shows of a network device.
#[derive(Clone, Copy, Debug, PartialEq, Eq, Structural)]
pub struct NetDeviceCommonData {
    pub addr_assign_type: u8,
    pub net_device_type: u16,
    pub state: NetDeivceState,
    pub operstate: Operstate,
}

impl Default for NetDeviceCommonData {
    /// An Ethernet device with a permanent address, not started.
    fn default() -> (r: Self)
        ensures
            r.addr_assign_type == 0,
            r.net_device_type == 1,
            r.state.bits == 0,
            r.operstate == Operstate::IF_OPER_UNKNOWN,
    {
        NetDeviceCommonData {
            addr_assign_type: 0,
            net_device_type: 1,
            state: NetDeivceState::empty(),
            operstate: Operstate::IF_OPER_UNKNOWN,
        }
    }
}

/// A neighbor that was configured by hand.
#[derive(Clone, Copy, Debug, PartialEq, Eq, Structural)]
pub struct StaticNeighborEntry {
    pub ip_addr: IpAddress,
    pub hw_addr: EthernetAddress,
    pub state: u16,
    pub flags: u8,
}

/// An address block.
#[derive(Clone, Copy, Debug, PartialEq, Eq, Structural)]
pub struct IpCidr {
    pub address: IpAddress,
    pub prefix_len: u8,
}

impl IpCidr {
    /// The block with this address and prefix length, if the length fits the address.
    pub open spec fn wf(self) -> bool {
        match self.address {
            IpAddress::Ipv4(_) => self.prefix_len <= 32,
            IpAddress::Ipv6(_) => self.prefix_len <= 128,
        }
    }

    /// The block contains `addr`: both agree in the bits of the prefix.
    pub open spec fn covers(self, addr: IpAddress) -> bool {
        match (self.address, addr) {
            (IpAddress::Ipv4(block), IpAddress::Ipv4(addr)) => {
                let unit = power2::pow2((32 - self.prefix_len) as nat) as int;
                block.bits as int / unit == addr.bits as int / unit
            },
            (IpAddress::Ipv6(block), IpAddress::Ipv6(addr)) => {
                let unit = power2::pow2((128 - self.prefix_len) as nat) as int;
                block.spec_value() / unit == addr.spec_value() / unit
            },
            _ => false,
        }
    }
}

/// A route that was added while an interface was being made.
#[derive(Clone, Copy, Debug, PartialEq, Eq, Structural)]
pub struct BootstrapRoute {
    pub destination: IpCidr,
    pub source: Option<IpCidr>,
    pub preferred_source: Option<IpAddress>,
    pub table: u32,
    pub priority: u32,
    pub tos: u8,
    pub protocol: u8,
    pub scope: u8,
    pub kind: u8,
    pub oif: u32,
    pub gateway: Option<IpAddress>,
    pub nexthop_flags: u8,
}

/// The receive mode as configured, and how many packet sockets ask for more.
#[derive(Clone, Copy, Debug, PartialEq, Eq, Structural)]
pub struct ReceiveModeState {
    pub configured_flags: u32,
    pub packet_promiscuity: u32,
    pub packet_allmulti: u32,
}

/// One consistent reading of an interface's flags and receive-mode counts.
#[derive(Clone, Copy, Debug, PartialEq, Eq, Structural)]
pub struct LinkFlagsSnapshot {
    pub configured: InterfaceFlags,
    pub promiscuity: u32,
    pub allmulti: u32,
}

/// A checked change of the configured flags.
#[derive(Clone, Copy, Debug, PartialEq, Eq, Structural)]
pub struct PreparedConfiguredFlags {
    pub old: InterfaceFlags,
    pub new: InterfaceFlags,
}

impl PreparedConfiguredFlags {
    /// The flags before the change.
    pub fn old_flags(self) -> (r: InterfaceFlags)
        ensures
            r == self.old,
    {
        self.old
    }

    /// The flags after the change.
    pub fn new_flags(self) -> (r: InterfaceFlags)
        ensures
            r == self.new,
    {
        self.new
    }
}

/// Whether a device that was registered in sysfs stays registered.
pub enum RegistrationStep {
    /// Announce the device.
    Announce,
    /// Take the device out of sysfs again and report the error.
    RollBack(SystemError),
}

/// Decides how the registration of a device ends, and with which state.
///
/// The device is marked present before its namespace is asked to take it; if the namespace
/// refuses, the mark goes away again.
pub fn register_netdevice(state: NetDeivceState, added: Result<(), SystemError>) -> (r: (
    NetDeivceState,
    RegistrationStep,
))
    ensures
        match added {
            Ok(_) => r.1 is Announce && r.0.bits == state.bits
                | NetDeivceState::LINK_STATE_PRESENT,
            Err(e) => r.1 == RegistrationStep::RollBack(e) && r.0.bits == (state.bits
                | NetDeivceState::LINK_STATE_PRESENT) & !NetDeivceState::LINK_STATE_PRESENT,
        },
{
    let present = state.with(NetDeivceState::LINK_STATE_PRESENT);
    match added {
        Ok(_) => (present, RegistrationStep::Announce),
        Err(error) => (
            present.without(NetDeivceState::LINK_STATE_PRESENT),
            RegistrationStep::RollBack(error),
        ),
    }
}

/// A block with the whole length of an address as its prefix holds that address alone, one with none
/// holds every address of its family, and a shorter prefix holds all that a longer one does. No block
/// holds an address of the other family.
pub proof fn law_blocks(block: IpCidr, shorter: IpCidr, addr: IpAddress)
    requires
        block.wf(),
        shorter.address == block.address,
        shorter.prefix_len <= block.prefix_len,
    ensures
        block.covers(block.address),
        block.covers(addr) ==> shorter.covers(addr),
        block.address is Ipv4 != addr is Ipv4 ==> !block.covers(addr),
        block.address is Ipv4 && block.prefix_len == 32 ==> (block.covers(addr) <==> addr
            == block.address),
        block.prefix_len == 0 && block.address is Ipv4 == addr is Ipv4 ==> block.covers(addr),
        block.address is Ipv6 && block.prefix_len == 128 ==> (block.covers(addr) <==> addr
            == block.address),
        block.address matches IpAddress::Ipv4(a) ==> (addr matches IpAddress::Ipv4(b) ==> (
        block.prefix_len > 0 ==> (block.covers(addr) <==> a.bits >> ((32 - block.prefix_len) as u32)
            == b.bits >> ((32 - block.prefix_len) as u32)))),
{
    power2::lemma2_to64();
    match (block.address, addr) {
        (IpAddress::Ipv4(a), IpAddress::Ipv4(b)) => {
            let n = (32 - block.prefix_len) as nat;
            let m = (32 - shorter.prefix_len) as nat;
            power2::lemma_pow2_pos(n);
            power2::lemma_pow2_pos((m - n) as nat);
            power2::lemma_pow2_adds(n, (m - n) as nat);
            let u = power2::pow2(n) as int;
            let v = power2::pow2((m - n) as nat) as int;
            vstd::arithmetic::div_mod::lemma_div_denominator(a.bits as int, u, v);
            vstd::arithmetic::div_mod::lemma_div_denominator(b.bits as int, u, v);
            if block.prefix_len == 0 {
                vstd::arithmetic::div_mod::lemma_basic_div(a.bits as int, 0x1_0000_0000);
                vstd::arithmetic::div_mod::lemma_basic_div(b.bits as int, 0x1_0000_0000);
            } else {
                vstd::bits::lemma_u32_shr_is_div(a.bits, n as u32);
                vstd::bits::lemma_u32_shr_is_div(b.bits, n as u32);
            }
            if block.prefix_len == 32 {
                assert(power2::pow2(n) == 1);
                vstd::arithmetic::div_mod::lemma_div_basics(a.bits as int);
                vstd::arithmetic::div_mod::lemma_div_basics(b.bits as int);
                assert(block.covers(addr) ==> a.bits == b.bits);
            }
        },
        (IpAddress::Ipv6(a), IpAddress::Ipv6(b)) => {
            let n = (128 - block.prefix_len) as nat;
            let m = (128 - shorter.prefix_len) as nat;
            power2::lemma_pow2_pos(n);
            power2::lemma_pow2_pos((m - n) as nat);
            power2::lemma_pow2_adds(n, (m - n) as nat);
            let u = power2::pow2(n) as int;
            let v = power2::pow2((m - n) as nat) as int;
            vstd::arithmetic::div_mod::lemma_div_denominator(a.spec_value(), u, v);
            vstd::arithmetic::div_mod::lemma_div_denominator(b.spec_value(), u, v);
            if block.prefix_len == 0 {
                power2::lemma_pow2_adds(64, 64);
                let half = 0x1_0000_0000_0000_0000int;
                assert(half * half == u);
                assert(a.spec_value() < half * half && b.spec_value() < half * half)
                    by (nonlinear_arith)
                    requires
                        a.spec_value() == a.high * half + a.low,
                        b.spec_value() == b.high * half + b.low,
                        a.high < half,
                        b.high < half,
                        a.low < half,
                        b.low < half,
                ;
                vstd::arithmetic::div_mod::lemma_basic_div(a.spec_value(), u);
                vstd::arithmetic::div_mod::lemma_basic_div(b.spec_value(), u);
            }
            if block.prefix_len == 128 {
                assert(power2::pow2(n) == 1);
                vstd::arithmetic::div_mod::lemma_div_basics(a.spec_value());
                vstd::arithmetic::div_mod::lemma_div_basics(b.spec_value());
                assert(block.covers(addr) ==> a.high == b.high && a.low == b.low);
            }
        },
        _ => {},
    }
}

/// A packet has left exactly if the stack is done with it and the device did not refuse the frame that
/// the stack made. What the device refused fails with its error. Only a packet whose neighbor is being
/// looked for is tried again, at the time that the stack names, and then it is told whether a request
/// went out.
pub proof fn law_route_send(
    dispatch: DispatchOutcome,
    probe_sent: bool,
    transmitted: Result<(), SystemError>,
)
    ensures
        ({
            let r = spec_route_send_result(dispatch, probe_sent, transmitted);
            let refused = probe_sent && transmitted is Err;
            &&& r is Ok <==> dispatch is Done && !refused
            &&& refused ==> r == Err::<(), RouteSendError>(
                RouteSendError::Failed(transmitted->Err_0),
            )
            &&& (r matches Err(RouteSendError::RetryAt { .. })) <==> dispatch is NeighborPending
                && !refused
            &&& r matches Err(RouteSendError::RetryAt { retry_at, probe_sent: sent }) ==> dispatch
                == (DispatchOutcome::NeighborPending { retry_at }) && sent == probe_sent
            &&& dispatch is NoRoute && !refused ==> r == Err::<(), RouteSendError>(
                RouteSendError::Failed(SystemError::ENETUNREACH),
            )
            &&& dispatch is Exhausted && !refused ==> r == Err::<(), RouteSendError>(
                RouteSendError::Failed(SystemError::EAGAIN_OR_EWOULDBLOCK),
            )
            &&& (dispatch is Malformed || dispatch is InvalidHardwareAddress) && !refused ==> r
                == Err::<(), RouteSendError>(RouteSendError::Failed(SystemError::EINVAL))
        }),
{
}

proof fn lemma_configured_neighbor(neighbors: Seq<StaticNeighborEntry>, ip: IpAddress, k: int)
    requires
        0 <= k <= neighbors.len(),
    ensures
        match configured_neighbor(neighbors, ip, k) {
            Some(hw) => exists|i: int|
                k <= i < neighbors.len() && (#[trigger] neighbors[i]).ip_addr == ip
                    && neighbors[i].hw_addr == hw && forall|j: int|
                    k <= j < i ==> (#[trigger] neighbors[j]).ip_addr != ip,
            None => forall|j: int| k <= j < neighbors.len() ==> (#[trigger] neighbors[j]).ip_addr != ip,
        },
    decreases neighbors.len() - k,
{
    if k < neighbors.len() && neighbors[k].ip_addr != ip {
        lemma_configured_neighbor(neighbors, ip, k + 1);
        if let Some(hw) = configured_neighbor(neighbors, ip, k + 1) {
            let i = choose|i: int|
                k + 1 <= i < neighbors.len() && (#[trigger] neighbors[i]).ip_addr == ip
                    && neighbors[i].hw_addr == hw && forall|j: int|
                    k + 1 <= j < i ==> (#[trigger] neighbors[j]).ip_addr != ip;
            assert(neighbors[i].ip_addr == ip);
        }
    } else if k < neighbors.len() {
        assert(neighbors[k].ip_addr == ip);
    }
}

/// The neighbor that was configured first for an address counts.
pub proof fn law_configured_neighbor(neighbors: Seq<StaticNeighborEntry>, ip: IpAddress)
    ensures
        match configured_neighbor(neighbors, ip, 0) {
            Some(hw) => exists|i: int|
                0 <= i < neighbors.len() && (#[trigger] neighbors[i]).ip_addr == ip
                    && neighbors[i].hw_addr == hw && forall|j: int|
                    0 <= j < i ==> (#[trigger] neighbors[j]).ip_addr != ip,
            None => forall|j: int| 0 <= j < neighbors.len() ==> (#[trigger] neighbors[j]).ip_addr != ip,
        },
{
    lemma_configured_neighbor(neighbors, ip, 0);
}

/// An interface that was started is shown as running exactly if its operational state is up or not
/// known, as having a carrier exactly if it does not say that it has none, and as dormant exactly if it
/// says so.
pub proof fn law_link_flags(
    configured: InterfaceFlags,
    state: NetDeivceState,
    operstate: Operstate,
)
    ensures
        ({
            let shown = spec_user_visible_flags(configured, state, operstate);
            let started = state.has(NetDeivceState::LINK_STATE_START);
            &&& shown & 0x40 != 0 <==> started && (operstate == Operstate::IF_OPER_UP || operstate
                == Operstate::IF_OPER_UNKNOWN)
            &&& shown & 0x1_0000 != 0 <==> started && !state.has(NetDeivceState::LINK_STATE_NOCARRIER)
            &&& shown & 0x2_0000 != 0 <==> started && state.has(NetDeivceState::LINK_STATE_DORMANT)
        }),
{
    let x = configured.bits & !0x3_0040u32;
    let started = state.has(NetDeivceState::LINK_STATE_START);
    let r = started && (operstate == Operstate::IF_OPER_UP || operstate
        == Operstate::IF_OPER_UNKNOWN);
    let l = started && !state.has(NetDeivceState::LINK_STATE_NOCARRIER);
    let d = started && state.has(NetDeivceState::LINK_STATE_DORMANT);
    let y = if r {
        x | 0x40u32
    } else {
        x
    };
    let z = if l {
        y | 0x1_0000u32
    } else {
        y
    };
    let w = if d {
        z | 0x2_0000u32
    } else {
        z
    };
    assert(w == spec_user_visible_flags(configured, state, operstate));
    let b = configured.bits;
    assert(((w & 0x40 != 0) == r) && ((w & 0x1_0000 != 0) == l) && ((w & 0x2_0000 != 0) == d))
        by (bit_vector)
        requires
            x == b & !0x3_0040u32,
            y == (if r {
                x | 0x40u32
            } else {
                x
            }),
            z == (if l {
                y | 0x1_0000u32
            } else {
                y
            }),
            w == (if d {
                z | 0x2_0000u32
            } else {
                z
            }),
    ;
}

} // verus!

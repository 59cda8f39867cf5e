//! Interface kinds and flags, with the numbers that user space knows them by.

use vstd::prelude::*;
use crate::error::SystemError;

verus! {

/// The hardware type of an interface.
#[derive(Clone, Copy, Debug, PartialEq, Eq, Structural)]
pub enum InterfaceType {
    /// NET/ROM pseudo device.
    NETROM,
    /// Ethernet.
    ETHER,
    /// Experimental Ethernet.
    EETHER,
    /// IPv4 tunnel.
    TUNNEL,
    /// IPv6 tunnel.
    TUNNEL6,
    /// Frame relay access device.
    FRAD,
    /// SKIP device.
    SKIP,
    /// Loopback device.
    LOOPBACK,
    /// LocalTalk device.
    LOCALTALK,
}

impl InterfaceType {
    /// The number of the type.
    pub open spec fn spec_number(self) -> u16 {
        match self {
            InterfaceType::NETROM => 0,
            InterfaceType::ETHER => 1,
            InterfaceType::EETHER => 2,
            InterfaceType::TUNNEL => 768,
            InterfaceType::TUNNEL6 => 769,
            InterfaceType::FRAD => 770,
            InterfaceType::SKIP => 771,
            InterfaceType::LOOPBACK => 772,
            InterfaceType::LOCALTALK => 773,
        }
    }

    /// The number of the type.
    pub fn number(&self) -> (r: u16)
        ensures
            r == self.spec_number(),
    {
        match self {
            InterfaceType::NETROM => 0,
            InterfaceType::ETHER => 1,
            InterfaceType::EETHER => 2,
            InterfaceType::TUNNEL => 768,
            InterfaceType::TUNNEL6 => 769,
            InterfaceType::FRAD => 770,
            InterfaceType::SKIP => 771,
            InterfaceType::LOOPBACK => 772,
            InterfaceType::LOCALTALK => 773,
        }
    }

    /// The type with the given number.
    pub fn try_from(value: u16) -> (r: Result<InterfaceType, SystemError>)
        ensures
            r matches Ok(t) ==> t.spec_number() == value,
            r is Err <==> forall|t: InterfaceType| #[trigger] t.spec_number() != value,
            r matches Err(e) ==> e == SystemError::EINVAL,
    {
        let r = match value {
            0 => Ok(InterfaceType::NETROM),
            1 => Ok(InterfaceType::ETHER),
            2 => Ok(InterfaceType::EETHER),
            768 => Ok(InterfaceType::TUNNEL),
            769 => Ok(InterfaceType::TUNNEL6),
            770 => Ok(InterfaceType::FRAD),
            771 => Ok(InterfaceType::SKIP),
            772 => Ok(InterfaceType::LOOPBACK),
            773 => Ok(InterfaceType::LOCALTALK),
            _ => Err(SystemError::EINVAL),
        };
        proof {
            if let Ok(t) = r {
                assert(t.spec_number() == value);
            }
        }
        r
    }
}

/// A type is found again by its number.
pub proof fn law_interface_type_numbers(a: InterfaceType, b: InterfaceType)
    ensures
        a.spec_number() == b.spec_number() ==> a == b,
        match a.spec_number() {
            0 => a is NETROM,
            1 => a is ETHER,
            2 => a is EETHER,
            768 => a is TUNNEL,
            769 => a is TUNNEL6,
            770 => a is FRAD,
            771 => a is SKIP,
            772 => a is LOOPBACK,
            773 => a is LOCALTALK,
            _ => false,
        },
{
}

/// A set of interface flags.
#[derive(Clone, Copy, Debug, PartialEq, Eq, Structural)]
pub struct InterfaceFlags {
    pub bits: u32,
}

impl InterfaceFlags {
    /// The interface is up.
    pub const UP: u32 = 0x1;

    /// The broadcast address is valid.
    pub const BROADCAST: u32 = 0x2;

    /// Debugging is on.
    pub const DEBUG: u32 = 0x4;

    /// The interface is a loopback.
    pub const LOOPBACK: u32 = 0x8;

    /// The interface is a point-to-point link.
    pub const POINTOPOINT: u32 = 0x10;

    /// Trailers are avoided.
    pub const NOTRAILERS: u32 = 0x20;

    /// The interface is operational.
    pub const RUNNING: u32 = 0x40;

    /// There is no address resolution.
    pub const NOARP: u32 = 0x80;

    /// All packets are received.
    pub const PROMISC: u32 = 0x100;

    /// All multicast packets are received.
    pub const ALLMULTI: u32 = 0x200;

    /// The interface leads a load balancer.
    pub const MASTER: u32 = 0x400;

    /// The interface belongs to a load balancer.
    pub const SLAVE: u32 = 0x800;

    /// Multicast is supported.
    pub const MULTICAST: u32 = 0x1000;

    /// The media type can be set.
    pub const PORTSEL: u32 = 0x2000;

    /// The media type is selected automatically.
    pub const AUTOMEDIA: u32 = 0x4000;

    /// Addresses are lost when the interface goes down.
    pub const DYNAMIC: u32 = 0x8000;

    /// The driver signals a link.
    pub const LOWER_UP: u32 = 0x1_0000;

    /// The driver signals that the link is dormant.
    pub const DORMANT: u32 = 0x2_0000;

    /// Sent packets are echoed.
    pub const ECHO: u32 = 0x4_0000;

    /// All flags that exist.
    pub const ALL: u32 = 0x7_ffff;

    /// All flags of `mask` are set.
    pub open spec fn has(self, mask: u32) -> bool {
        self.bits & mask == mask
    }

    /// The set without flags.
    pub fn empty() -> (r: Self)
        ensures
            r.bits == 0,
    {
        InterfaceFlags { bits: 0 }
    }

    /// The flags of `bits` that exist.
    pub fn from_bits_truncate(bits: u32) -> (r: Self)
        ensures
            r.bits == bits & Self::ALL,
    {
        InterfaceFlags { bits: bits & Self::ALL }
    }

    /// The flags as a number.
    pub fn bits(&self) -> (r: u32)
        ensures
            r == self.bits,
    {
        self.bits
    }

    /// Whether all flags of `mask` are set.
    pub fn contains(&self, mask: u32) -> (r: bool)
        ensures
            r == self.has(mask),
    {
        self.bits & mask == mask
    }

    /// Sets the flags of `mask`.
    pub fn insert(&mut self, mask: u32)
        ensures
            final(self).bits == old(self).bits | mask,
    {
        self.bits = self.bits | mask;
    }

    /// Clears the flags of `mask`.
    pub fn remove(&mut self, mask: u32)
        ensures
            final(self).bits == old(self).bits & !mask,
    {
        self.bits = self.bits & !mask;
    }
}

/// The life cycle of a network device.
#[derive(Clone, Copy, Debug, PartialEq, Eq, Structural)]
pub struct NetDeivceState {
    pub bits: u16,
}

impl NetDeivceState {
    /// The device was started.
    pub const LINK_STATE_START: u16 = 0x1;

    /// The device is registered.
    pub const LINK_STATE_PRESENT: u16 = 0x2;

    /// The device sees no carrier.
    pub const LINK_STATE_NOCARRIER: u16 = 0x4;

    /// A link event waits to be handled.
    pub const LINK_STATE_LINKWATCH_PENDING: u16 = 0x8;

    /// The device is dormant.
    pub const LINK_STATE_DORMANT: u16 = 0x10;

    /// All bits of `mask` are set.
    pub open spec fn has(self, mask: u16) -> bool {
        self.bits & mask == mask
    }

    /// The state of a device that was just made.
    pub fn empty() -> (r: Self)
        ensures
            r.bits == 0,
    {
        NetDeivceState { bits: 0 }
    }

    /// Whether all bits of `mask` are set.
    pub fn contains(&self, mask: u16) -> (r: bool)
        ensures
            r == self.has(mask),
    {
        self.bits & mask == mask
    }

    /// This state with the bits of `mask` set.
    pub fn with(&self, mask: u16) -> (r: Self)
        ensures
            r.bits == self.bits | mask,
    {
        NetDeivceState { bits: self.bits | mask }
    }

    /// This state with the bits of `mask` cleared.
    pub fn without(&self, mask: u16) -> (r: Self)
        ensures
            r.bits == self.bits & !mask,
    {
        NetDeivceState { bits: self.bits & !mask }
    }
}

/// The operational state of an interface.
#[allow(non_camel_case_types)]
#[derive(Clone, Copy, Debug, PartialEq, Eq, Structural)]
pub enum Operstate {
    /// The state is not known.
    IF_OPER_UNKNOWN,
    /// The hardware is missing.
    IF_OPER_NOTPRESENT,
    /// The interface is disabled or unplugged.
    IF_OPER_DOWN,
    /// The interface below is down.
    IF_OPER_LOWERLAYERDOWN,
    /// The interface is being tested.
    IF_OPER_TESTING,
    /// The interface waits for an event.
    IF_OPER_DORMANT,
    /// The interface passes packets.
    IF_OPER_UP,
}

} // verus!

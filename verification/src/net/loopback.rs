//! The loopback interface: what is sent comes back.

use std::collections::VecDeque;
use vstd::prelude::*;
use crate::base::device::{DeviceCommonData, DeviceType, IdTable, KObjectCommonData};
use crate::error::SystemError;
use crate::net::addr::{EthernetAddress, IpAddress, Ipv4Address, Medium};
use crate::net::iface::{IpCidr, NetDeviceCommonData};
use crate::net::phy::DeviceCapabilities;
use crate::net::types::{NetDeivceState, Operstate};

verus! {

/// A frame that came back.
#[derive(Debug)]
pub struct LoopbackRxToken {
    pub buffer: Vec<u8>,
}

impl LoopbackRxToken {
    /// Hands the frame over.
    pub fn consume(self) -> (r: Vec<u8>)
        ensures
            r == self.buffer,
    {
        self.buffer
    }
}

/// The permission to send one frame.
#[derive(Debug)]
pub struct LoopbackTxToken {
}

impl LoopbackTxToken {
    /// Sends the frame.
    pub fn consume(self, driver: &mut LoopbackDriver, buffer: Vec<u8>)
        ensures
            final(driver).inner.queue@ == old(driver).inner.queue@.push(buffer),
    {
        driver.inner.loopback_transmit(buffer);
    }
}

/// Frames that were sent and not yet received.
#[derive(Debug)]
pub struct Loopback {
    pub queue: VecDeque<Vec<u8>>,
}

impl Loopback {
    /// A device without frames.
    pub fn new() -> (r: Self)
        ensures
            r.queue@.len() == 0,
    {
        Loopback { queue: VecDeque::new() }
    }

    /// Takes the oldest frame, or an empty one if there is none.
    pub fn loopback_receive(&mut self) -> (r: Vec<u8>)
        ensures
            old(self).queue@.len() == 0 ==> r@.len() == 0 && final(self).queue@ == old(self).queue@,
            old(self).queue@.len() > 0 ==> r == old(self).queue@[0] && final(self).queue@
                == old(self).queue@.subrange(1, old(self).queue@.len() as int),
    {
        match self.queue.pop_front() {
            Some(buffer) => buffer,
            None => Vec::new(),
        }
    }

    /// Appends a frame.
    pub fn loopback_transmit(&mut self, buffer: Vec<u8>)
        ensures
            final(self).queue@ == old(self).queue@.push(buffer),
    {
        self.queue.push_back(buffer);
    }
}

/// The driver of the loopback device.
#[derive(Debug)]
pub struct LoopbackDriver {
    pub inner: Loopback,
}

impl LoopbackDriver {
    /// A driver without frames.
    pub fn new() -> (r: Self)
        ensures
            r.inner.queue@.len() == 0,
    {
        LoopbackDriver { inner: Loopback::new() }
    }

    /// The limits of the device.
    pub fn capabilities(&self) -> (r: DeviceCapabilities)
        ensures
            r == (DeviceCapabilities {
                medium: Medium::Ethernet,
                max_transmission_unit: 65535,
                max_burst_size: Some(1),
            }),
    {
        DeviceCapabilities {
            medium: Medium::Ethernet,
            max_transmission_unit: 65535,
            max_burst_size: Some(1),
        }
    }

    /// Takes the oldest frame. A frame without bytes is dropped as if there were none.
    pub fn receive(&mut self) -> (r: Option<(LoopbackRxToken, LoopbackTxToken)>)
        ensures
            ({
                let q = old(self).inner.queue@;
                &&& r is Some <==> q.len() > 0 && q[0]@.len() > 0
                &&& r matches Some(tokens) ==> tokens.0.buffer == q[0]
                &&& final(self).inner.queue@ == (if q.len() > 0 {
                    q.subrange(1, q.len() as int)
                } else {
                    q
                })
            }),
    {
        let buffer = self.inner.loopback_receive();
        if buffer.len() == 0 {
            return None;
        }
        Some((LoopbackRxToken { buffer }, LoopbackTxToken {  }))
    }

    /// The permission to send one frame. It is always given.
    pub fn transmit(&mut self) -> (r: Option<LoopbackTxToken>)
        ensures
            r is Some,
            *final(self) == *old(self),
    {
        Some(LoopbackTxToken {  })
    }
}

/// The queue after frames were sent, one by one.
pub open spec fn after_transmits(queue: Seq<Vec<u8>>, sent: Seq<Vec<u8>>) -> Seq<Vec<u8>>
    decreases sent.len(),
{
    if sent.len() == 0 {
        queue
    } else {
        after_transmits(queue, sent.drop_last()).push(sent.last())
    }
}

/// The queue after `n` frames were received, one by one.
pub open spec fn after_receives(queue: Seq<Vec<u8>>, n: nat) -> Seq<Vec<u8>>
    decreases n,
{
    if n == 0 {
        queue
    } else {
        let rest = after_receives(queue, (n - 1) as nat);
        rest.subrange(1, rest.len() as int)
    }
}

/// Frames come back in the order in which they were sent, after those that were queued before.
pub proof fn law_loopback_order(queue: Seq<Vec<u8>>, sent: Seq<Vec<u8>>, n: nat)
    requires
        n < queue.len() + sent.len(),
    ensures
        after_receives(after_transmits(queue, sent), n).len() == queue.len() + sent.len() - n,
        after_receives(after_transmits(queue, sent), n)[0] == (if n < queue.len() {
            queue[n as int]
        } else {
            sent[n - queue.len()]
        }),
{
    lemma_after_transmits(queue, sent);
    lemma_after_receives(queue + sent, n);
}

proof fn lemma_after_transmits(queue: Seq<Vec<u8>>, sent: Seq<Vec<u8>>)
    ensures
        after_transmits(queue, sent) == queue + sent,
    decreases sent.len(),
{
    if sent.len() > 0 {
        lemma_after_transmits(queue, sent.drop_last());
        assert((queue + sent.drop_last()).push(sent.last()) =~= queue + sent);
    } else {
        assert(queue + sent =~= queue);
    }
}

proof fn lemma_after_receives(queue: Seq<Vec<u8>>, n: nat)
    requires
        n <= queue.len(),
    ensures
        after_receives(queue, n) == queue.skip(n as int),
    decreases n,
{
    if n > 0 {
        lemma_after_receives(queue, (n - 1) as nat);
        let rest = queue.skip(n - 1);
        assert(rest.subrange(1, rest.len() as int) =~= queue.skip(n as int));
    } else {
        assert(queue.skip(0) =~= queue);
    }
}

/// What the device tree knows of the loopback interface.
#[derive(Clone, Copy, Debug, PartialEq, Eq, Structural)]
pub struct InnerLoopbackInterface {
    pub netdevice_common: NetDeviceCommonData,
    pub device_common: DeviceCommonData,
    pub kobj_common: KObjectCommonData,
}

/// The loopback interface.
#[derive(Debug)]
pub struct LoopbackInterface {
    pub driver: LoopbackDriver,
    pub iface_id: usize,
    pub name: String,
    pub ip_addrs: Vec<IpCidr>,
    pub inner: InnerLoopbackInterface,
}

/// The address block of the loopback interface.
pub open spec fn loopback_block() -> IpCidr {
    IpCidr { address: IpAddress::Ipv4(Ipv4Address { bits: 0x7f00_0001 }), prefix_len: 8 }
}

impl LoopbackInterface {
    /// An interface with the address of the local host.
    pub fn new(driver: LoopbackDriver, iface_id: usize) -> (r: Self)
        ensures
            r.driver == driver,
            r.iface_id == iface_id,
            r.name@ == "lo"@,
            r.ip_addrs@ == seq![loopback_block()],
            r.inner.netdevice_common.state.bits == 0,
            r.inner.netdevice_common.operstate == Operstate::IF_OPER_UNKNOWN,
            r.inner.netdevice_common.addr_assign_type == 0,
            r.inner.netdevice_common.net_device_type == 1,
            r.inner.device_common.bus is None,
            r.inner.kobj_common.parent is None,
    {
        let mut ip_addrs: Vec<IpCidr> = Vec::new();
        ip_addrs.push(
            IpCidr { address: IpAddress::Ipv4(Ipv4Address { bits: 0x7f00_0001 }), prefix_len: 8 },
        );
        assert(ip_addrs@ =~= seq![loopback_block()]);
        LoopbackInterface {
            driver,
            iface_id,
            name: "lo".to_owned(),
            ip_addrs,
            inner: InnerLoopbackInterface {
                netdevice_common: NetDeviceCommonData::default(),
                device_common: DeviceCommonData::default(),
                kobj_common: KObjectCommonData::default(),
            },
        }
    }

    /// The name of the interface.
    pub fn name(&self) -> (r: String)
        ensures
            r@ == self.name@,
    {
        self.name.clone()
    }

    /// The loopback interface keeps its name.
    pub fn set_name(&mut self, _name: String)
        ensures
            *final(self) == *old(self),
    {
    }

    /// A network device.
    pub fn dev_type(&self) -> (r: DeviceType)
        ensures
            r == DeviceType::Net,
    {
        DeviceType::Net
    }

    /// How the interface is identified to drivers.
    pub fn id_table(&self) -> (r: IdTable)
        ensures
            r.name@ == "loopback"@,
            r.id is None,
    {
        IdTable::new("loopback".to_owned(), None)
    }

    /// The interface is never gone.
    pub fn is_dead(&self) -> (r: bool)
        ensures
            !r,
    {
        false
    }

    /// The state of the interface is always in step.
    pub fn state_synced(&self) -> (r: bool)
        ensures
            r,
    {
        true
    }

    /// The hardware address, which is all zero.
    pub fn mac(&self) -> (r: EthernetAddress)
        ensures
            r == (EthernetAddress { high: 0, low: 0 }),
    {
        EthernetAddress { high: 0, low: 0 }
    }

    /// The number of the interface.
    pub fn nic_id(&self) -> (r: usize)
        ensures
            r == self.iface_id,
    {
        self.iface_id
    }

    /// The name of the interface.
    pub fn iface_name(&self) -> (r: String)
        ensures
            r@ == self.name@,
    {
        self.name.clone()
    }

    /// Replaces the first address. Exactly one address has to be given.
    pub fn update_ip_addrs(&mut self, ip_addrs: &[IpCidr]) -> (r: Result<(), SystemError>)
        ensures
            r == (if ip_addrs@.len() != 1 {
                Err(SystemError::EINVAL)
            } else {
                Ok(())
            }),
            final(self).ip_addrs@ == (if r is Err {
                old(self).ip_addrs@
            } else if old(self).ip_addrs@.len() > 0 {
                old(self).ip_addrs@.update(0, ip_addrs@[0])
            } else {
                seq![ip_addrs@[0]]
            }),
            *final(self) == (LoopbackInterface { ip_addrs: final(self).ip_addrs, ..*old(self) }),
    {
        if ip_addrs.len() != 1 {
            return Err(SystemError::EINVAL);
        }
        if self.ip_addrs.len() > 0 {
            self.ip_addrs.set(0, ip_addrs[0]);
        } else {
            self.ip_addrs.push(ip_addrs[0]);
            assert(self.ip_addrs@ =~= seq![ip_addrs@[0]]);
        }
        Ok(())
    }

    /// Whether a poll got anywhere.
    pub fn poll(&self, progress: bool) -> (r: Result<(), SystemError>)
        ensures
            r == (if progress {
                Ok(())
            } else {
                Err(SystemError::EAGAIN_OR_EWOULDBLOCK)
            }),
    {
        if progress {
            Ok(())
        } else {
            Err(SystemError::EAGAIN_OR_EWOULDBLOCK)
        }
    }

    /// How the hardware address was assigned.
    pub fn addr_assign_type(&self) -> (r: u8)
        ensures
            r == self.inner.netdevice_common.addr_assign_type,
    {
        self.inner.netdevice_common.addr_assign_type
    }

    /// Marks the interface as a loopback device and returns that type.
    pub fn net_device_type(&mut self) -> (r: u16)
        ensures
            r == 24,
            *final(self) == (LoopbackInterface {
                inner: InnerLoopbackInterface {
                    netdevice_common: NetDeviceCommonData {
                        net_device_type: 24,
                        ..old(self).inner.netdevice_common
                    },
                    ..old(self).inner
                },
                ..*old(self)
            }),
    {
        self.inner.netdevice_common.net_device_type = 24;
        self.inner.netdevice_common.net_device_type
    }

    /// The state of the device.
    pub fn net_state(&self) -> (r: NetDeivceState)
        ensures
            r == self.inner.netdevice_common.state,
    {
        self.inner.netdevice_common.state
    }

    /// Adds flags to the state of the device.
    pub fn set_net_state(&mut self, state: NetDeivceState)
        ensures
            *final(self) == (LoopbackInterface {
                inner: InnerLoopbackInterface {
                    netdevice_common: NetDeviceCommonData {
                        state: NetDeivceState {
                            bits: old(self).inner.netdevice_common.state.bits | state.bits,
                        },
                        ..old(self).inner.netdevice_common
                    },
                    ..old(self).inner
                },
                ..*old(self)
            }),
    {
        self.inner.netdevice_common.state = self.inner.netdevice_common.state.with(state.bits);
    }

    /// The operational state.
    pub fn operstate(&self) -> (r: Operstate)
        ensures
            r == self.inner.netdevice_common.operstate,
    {
        self.inner.netdevice_common.operstate
    }

    /// Sets the operational state.
    pub fn set_operstate(&mut self, state: Operstate)
        ensures
            *final(self) == (LoopbackInterface {
                inner: InnerLoopbackInterface {
                    netdevice_common: NetDeviceCommonData {
                        operstate: state,
                        ..old(self).inner.netdevice_common
                    },
                    ..old(self).inner
                },
                ..*old(self)
            }),
    {
        self.inner.netdevice_common.operstate = state;
    }
}

/// Makes the loopback interface.
pub fn loopback_probe(iface_id: usize) -> (r: LoopbackInterface)
    ensures
        r.iface_id == iface_id,
        r.name@ == "lo"@,
        r.ip_addrs@ == seq![loopback_block()],
        r.driver.inner.queue@.len() == 0,
        r.inner.netdevice_common.state.bits == 0u16 | NetDeivceState::LINK_STATE_START,
{
    loopback_driver_init(iface_id)
}

/// Makes the loopback interface and marks it as started.
pub fn loopback_driver_init(iface_id: usize) -> (r: LoopbackInterface)
    ensures
        r.iface_id == iface_id,
        r.name@ == "lo"@,
        r.ip_addrs@ == seq![loopback_block()],
        r.driver.inner.queue@.len() == 0,
        r.inner.netdevice_common.state.bits == 0u16 | NetDeivceState::LINK_STATE_START,
{
    let driver = LoopbackDriver::new();
    let mut iface = LoopbackInterface::new(driver, iface_id);
    iface.set_net_state(NetDeivceState::empty().with(NetDeivceState::LINK_STATE_START));
    assert(0u16 | (0u16 | 1u16) == 0u16 | 1u16) by (bit_vector);
    iface
}

/// The local host has the address 127.0.0.1, in a block whose addresses agree in the first octet.
pub proof fn law_loopback_block()
    ensures
        loopback_block().prefix_len == 8,
        loopback_block().address matches IpAddress::Ipv4(address) && address.bits == 127 * 0x100_0000
            + 1,
{
}

} // verus!

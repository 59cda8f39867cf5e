//! The e1000e controllers as network interfaces.

use vstd::prelude::*;
use crate::base::device::{DeviceCommonData, DeviceType, IdTable, KObjectCommonData};
use crate::base::handle_table::{self, HandleTable};
use crate::base::text;
use crate::error::SystemError;
use crate::net::addr::{EthernetAddress, Medium};
use crate::net::e1000e::{E1000EBuffer, E1000EDevice, E1000ERecvDesc, E1000EReceived};
use crate::net::e1000e::{E1000ETransDesc, E1000ETransmitted, RING_LENGTH};
use crate::net::iface::{IpCidr, NetDeviceCommonData};
use crate::net::irq_handle::{IrqAction, IrqReturn};
use crate::net::phy::DeviceCapabilities;
use crate::net::types::{NetDeivceState, Operstate};
use crate::net::virtio_net::eth_name;

verus! {

/// A packet that was received.
#[derive(Clone, Copy, Debug, PartialEq, Eq, Structural)]
pub struct E1000ERxToken {
    pub buffer: E1000EBuffer,
}

impl E1000ERxToken {
    /// The page that is given back once the packet was looked at.
    pub fn consume(self) -> (r: Option<E1000EBuffer>)
        ensures
            r == self.buffer.spec_freed(),
    {
        self.buffer.free_buffer()
    }
}

/// The right to send a packet.
#[derive(Clone, Copy, Debug, PartialEq, Eq, Structural)]
pub struct E1000ETxToken {}

/// A controller as something that packets come from and go to.
#[derive(Debug)]
pub struct E1000EDriver {
    pub inner: E1000EDevice,
}

impl E1000ETxToken {
    /// Sends the packet that was written to `buffer`.
    pub fn consume(
        self,
        driver: &mut E1000EDriver,
        tdt: u32,
        desc: E1000ETransDesc,
        buffer: E1000EBuffer,
    ) -> (r: E1000ETransmitted)
        requires
            old(driver).inner.wf(),
            buffer.length != 0,
        ensures
            final(driver).inner.wf(),
            r.index == tdt % RING_LENGTH as u32,
            r.tdt == (tdt + 1) % RING_LENGTH as int,
            r.desc == (E1000ETransDesc {
                addr: buffer.paddr as u64,
                len: buffer.length as u16,
                status: 0,
                cmd: 0x0b,
                ..desc
            }),
            r.freed == old(driver).inner.trans_buffers@[r.index as int].spec_freed(),
            final(driver).inner.trans_buffers@ == old(driver).inner.trans_buffers@.update(
                r.index as int,
                buffer,
            ),
            final(driver).inner == (E1000EDevice {
                trans_buffers: final(driver).inner.trans_buffers,
                first_trans: false,
                ..old(driver).inner
            }),
    {
        driver.inner.e1000e_transmit(tdt, desc, buffer)
    }
}

impl E1000EDriver {
    /// The driver of a controller.
    pub fn new(device: E1000EDevice) -> (r: Self)
        ensures
            r.inner == device,
    {
        E1000EDriver { inner: device }
    }

    /// Takes the next packet, if one arrived, and the right to answer it.
    pub fn receive(&mut self, rdt: u32, desc: E1000ERecvDesc, fresh: E1000EBuffer) -> (r: Option<
        (E1000ERxToken, E1000ETxToken, E1000EReceived),
    >)
        requires
            old(self).inner.wf(),
            desc.status & 1 != 0 ==> fresh.length != 0,
        ensures
            final(self).inner.wf(),
            match r {
                None => {
                    &&& desc.status & 1 == 0
                    &&& *final(self) == *old(self)
                },
                Some(taken) => {
                    let index = (rdt + 1) % RING_LENGTH as int;
                    &&& desc.status & 1 != 0
                    &&& taken.0.buffer == (E1000EBuffer {
                        length: desc.len as usize,
                        ..old(self).inner.recv_buffers@[index]
                    })
                    &&& taken.2 == (E1000EReceived {
                        buffer: taken.0.buffer,
                        index: index as usize,
                        desc: E1000ERecvDesc { addr: fresh.paddr as u64, ..desc },
                        rdt: index as u32,
                    })
                    &&& final(self).inner.recv_buffers@ == old(self).inner.recv_buffers@.update(
                        index,
                        fresh,
                    )
                    &&& final(self).inner.trans_buffers == old(self).inner.trans_buffers
                },
            },
    {
        match self.inner.e1000e_receive(rdt, desc, fresh) {
            Some(taken) => Some(
                (E1000ERxToken { buffer: taken.buffer }, E1000ETxToken {  }, taken),
            ),
            None => None,
        }
    }

    /// The right to send a packet, if the next descriptor is free.
    pub fn transmit(&self, desc: &E1000ETransDesc) -> (r: Option<E1000ETxToken>)
        ensures
            r == (if desc.status & 1 != 0 {
                Some(E1000ETxToken {  })
            } else {
                None
            }),
    {
        if E1000EDevice::e1000e_can_transmit(desc) {
            Some(E1000ETxToken {  })
        } else {
            None
        }
    }

    /// The limits of the device.
    pub fn capabilities(&self) -> (r: DeviceCapabilities)
        ensures
            r == (DeviceCapabilities {
                medium: Medium::Ethernet,
                max_transmission_unit: 1536,
                max_burst_size: Some(1),
            }),
    {
        DeviceCapabilities {
            medium: Medium::Ethernet,
            max_transmission_unit: 1536,
            max_burst_size: Some(1),
        }
    }
}

/// What an interface keeps of its place in the system.
#[derive(Clone, Copy, Debug, PartialEq, Eq, Structural)]
pub struct InnerE1000EInterface {
    pub netdevice_common: NetDeviceCommonData,
    pub device_common: DeviceCommonData,
    pub kobj_common: KObjectCommonData,
}

/// The interface of a controller.
#[derive(Debug)]
pub struct E1000EInterface {
    pub driver: E1000EDriver,
    pub iface_id: usize,
    pub name: String,
    pub ip_addrs: Vec<IpCidr>,
    pub inner: InnerE1000EInterface,
}

impl E1000EInterface {
    /// The interface of a controller, with this number.
    pub fn new(driver: E1000EDriver, iface_id: usize) -> (r: Self)
        ensures
            r.driver == driver,
            r.iface_id == iface_id,
            r.name@ == "eth"@ + text::number(iface_id as nat, 10),
            r.ip_addrs@.len() == 0,
            r.inner.netdevice_common.state.bits == 0,
            r.inner.netdevice_common.operstate == Operstate::IF_OPER_UNKNOWN,
    {
        E1000EInterface {
            driver,
            iface_id,
            name: eth_name(iface_id),
            ip_addrs: Vec::new(),
            inner: InnerE1000EInterface {
                netdevice_common: NetDeviceCommonData::default(),
                device_common: DeviceCommonData::default(),
                kobj_common: KObjectCommonData::default(),
            },
        }
    }

    /// The interface is a network device.
    pub fn dev_type(&self) -> (r: DeviceType)
        ensures
            r == DeviceType::Net,
    {
        DeviceType::Net
    }

    /// How the interface is identified.
    pub fn id_table(&self) -> (r: IdTable)
        ensures
            r.name@ == "e1000e"@,
            r.id is None,
    {
        IdTable::new("e1000e".to_owned(), None)
    }

    /// The address of the interface.
    pub fn mac(&self) -> (r: EthernetAddress)
        ensures
            r.spec_octets() == self.driver.inner.mac@,
    {
        EthernetAddress::new(self.driver.inner.mac_address())
    }

    /// The number of the interface.
    pub fn nic_id(&self) -> (r: usize)
        ensures
            r == self.iface_id,
    {
        self.iface_id
    }

    /// The name of the interface.
    pub fn iface_name(&self) -> (r: String)
        ensures
            r@ == self.name@,
    {
        self.name.clone()
    }

    /// Does nothing: the interface keeps its name.
    pub fn set_name(&mut self, name: String)
        ensures
            *final(self) == *old(self),
    {
    }

    /// Sets the address block of the interface. There must be exactly one; it takes the place of
    /// the first that the interface has.
    pub fn update_ip_addrs(&mut self, ip_addrs: &[IpCidr]) -> (r: Result<(), SystemError>)
        ensures
            r == (if ip_addrs@.len() != 1 {
                Err(SystemError::EINVAL)
            } else {
                Ok(())
            }),
            final(self).ip_addrs@ == (if r is Err {
                old(self).ip_addrs@
            } else if old(self).ip_addrs@.len() > 0 {
                old(self).ip_addrs@.update(0, ip_addrs@[0])
            } else {
                seq![ip_addrs@[0]]
            }),
            *final(self) == (E1000EInterface { ip_addrs: final(self).ip_addrs, ..*old(self) }),
    {
        if ip_addrs.len() != 1 {
            return Err(SystemError::EINVAL);
        }
        if self.ip_addrs.len() > 0 {
            self.ip_addrs.set(0, ip_addrs[0]);
        } else {
            self.ip_addrs.push(ip_addrs[0]);
            assert(self.ip_addrs@ =~= seq![ip_addrs@[0]]);
        }
        Ok(())
    }

    /// What a poll tells: that there is nothing more to do if the stack did not do anything.
    pub fn poll(&self, progress: bool) -> (r: Result<(), SystemError>)
        ensures
            r == (if progress {
                Ok(())
            } else {
                Err(SystemError::EAGAIN_OR_EWOULDBLOCK)
            }),
    {
        if progress {
            Ok(())
        } else {
            Err(SystemError::EAGAIN_OR_EWOULDBLOCK)
        }
    }

    /// How the address was assigned.
    pub fn addr_assign_type(&self) -> (r: u8)
        ensures
            r == self.inner.netdevice_common.addr_assign_type,
    {
        self.inner.netdevice_common.addr_assign_type
    }

    /// Marks the interface as an Ethernet device and returns that type.
    pub fn net_device_type(&mut self) -> (r: u16)
        ensures
            r == 1,
            *final(self) == (E1000EInterface {
                inner: InnerE1000EInterface {
                    netdevice_common: NetDeviceCommonData {
                        net_device_type: 1,
                        ..old(self).inner.netdevice_common
                    },
                    ..old(self).inner
                },
                ..*old(self)
            }),
    {
        self.inner.netdevice_common.net_device_type = 1;
        self.inner.netdevice_common.net_device_type
    }

    /// The state of the interface.
    pub fn net_state(&self) -> (r: NetDeivceState)
        ensures
            r == self.inner.netdevice_common.state,
    {
        self.inner.netdevice_common.state
    }

    /// Adds flags to the state of the interface.
    pub fn set_net_state(&mut self, state: NetDeivceState)
        ensures
            *final(self) == (E1000EInterface {
                inner: InnerE1000EInterface {
                    netdevice_common: NetDeviceCommonData {
                        state: NetDeivceState {
                            bits: old(self).inner.netdevice_common.state.bits | state.bits,
                        },
                        ..old(self).inner.netdevice_common
                    },
                    ..old(self).inner
                },
                ..*old(self)
            }),
    {
        self.inner.netdevice_common.state = self.inner.netdevice_common.state.with(state.bits);
    }

    /// The operational state.
    pub fn operstate(&self) -> (r: Operstate)
        ensures
            r == self.inner.netdevice_common.operstate,
    {
        self.inner.netdevice_common.operstate
    }

    /// Sets the operational state.
    pub fn set_operstate(&mut self, state: Operstate)
        ensures
            *final(self) == (E1000EInterface {
                inner: InnerE1000EInterface {
                    netdevice_common: NetDeviceCommonData {
                        operstate: state,
                        ..old(self).inner.netdevice_common
                    },
                    ..old(self).inner
                },
                ..*old(self)
            }),
    {
        self.inner.netdevice_common.operstate = state;
    }
}

/// Makes the interface of a controller and marks it as started. Registering it comes next.
pub fn e1000e_driver_init(device: E1000EDevice, iface_id: usize) -> (r: E1000EInterface)
    ensures
        r.driver.inner == device,
        r.iface_id == iface_id,
        r.name@ == "eth"@ + text::number(iface_id as nat, 10),
        r.inner.netdevice_common.state.bits == 0u16 | NetDeivceState::LINK_STATE_START,
{
    let driver = E1000EDriver::new(device);
    let mut iface = E1000EInterface::new(driver, iface_id);
    iface.set_net_state(NetDeivceState { bits: NetDeivceState::LINK_STATE_START });
    iface
}

/// Which instance polls for the interrupts of which device, both by number.
#[derive(Debug)]
pub struct E1000EIrqManager {
    map: HandleTable,
}

impl E1000EIrqManager {
    /// The instances by devices.
    pub closed spec fn view(self) -> Map<u64, u64> {
        handle_table::handles(self.map)
    }

    /// No device has an instance.
    pub fn new() -> (r: Self)
        ensures
            r@ == Map::<u64, u64>::empty(),
    {
        E1000EIrqManager { map: HandleTable::new() }
    }

    /// Gives a device its instance. It keeps one that it has.
    pub fn register_napi(&mut self, dev_id: u64, napi: u64) -> (r: Result<(), SystemError>)
        ensures
            match r {
                Ok(_) => !old(self)@.contains_key(dev_id) && final(self)@ == old(self)@.insert(
                    dev_id,
                    napi,
                ),
                Err(e) => old(self)@.contains_key(dev_id) && e == SystemError::EEXIST
                    && *final(self) == *old(self),
            },
    {
        if self.map.get(dev_id).is_some() {
            return Err(SystemError::EEXIST);
        }
        self.map.insert(dev_id, napi);
        Ok(())
    }

    /// The instance of a device.
    pub fn lookup_napi(&self, dev_id: u64) -> (r: Option<u64>)
        ensures
            r == (if self@.contains_key(dev_id) {
                Some(self@[dev_id])
            } else {
                None
            }),
    {
        self.map.get(dev_id)
    }
}

/// A handler that has the instance of the device polled.
#[derive(Clone, Copy, Debug, PartialEq, Eq, Structural)]
pub struct DefaultE1000EIrqHandler {}

impl DefaultE1000EIrqHandler {
    /// Has the instance of the device polled. The device must be known to the handler, by number;
    /// one without an instance is not for it.
    pub fn handle(&self, manager: &E1000EIrqManager, dev_id: Option<u64>) -> (r: Result<
        (IrqReturn, IrqAction),
        SystemError,
    >)
        ensures
            r == (match dev_id {
                None => Err(SystemError::EINVAL),
                Some(id) => if manager@.contains_key(id) {
                    Ok((IrqReturn::Handled, IrqAction::Schedule(manager@[id])))
                } else {
                    Ok((IrqReturn::NotHandled, IrqAction::Nothing))
                },
            }),
    {
        match dev_id {
            None => Err(SystemError::EINVAL),
            Some(id) => match manager.lookup_napi(id) {
                Some(napi) => Ok((IrqReturn::Handled, IrqAction::Schedule(napi))),
                None => Ok((IrqReturn::NotHandled, IrqAction::Nothing)),
            },
        }
    }
}

} // verus!

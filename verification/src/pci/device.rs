//! PCI devices as devices of the system, and the bus itself as one.

use vstd::prelude::*;
use crate::base::device::{DeviceCommonData, DeviceType, IdTable, KObjectCommonData};
use crate::pci::dev_id::PciDeviceID;
use crate::pci::header::IrqType;

verus! {

/// What can be said of a PCI device.
#[derive(Clone, Copy, Debug, PartialEq, Eq, Structural)]
pub struct PciFacts {
    /// The identity by which drivers find the device.
    pub dynid: PciDeviceID,
    pub vendor: u16,
    pub device_id: u16,
    pub subsystem_vendor: u16,
    pub subsystem_device: u16,
    pub class_code: u8,
    pub revision: u8,
    pub irq_type: IrqType,
    pub irq_line: u8,
    pub interface_code: u8,
    pub subclass: u8,
}

/// A PCI device that is a device of the system.
pub trait PciDevice {
    /// What can be said of the device.
    spec fn spec_facts(&self) -> PciFacts;

    /// What can be said of the device.
    fn facts(&self) -> (r: PciFacts)
        ensures
            r == self.spec_facts(),
    ;

    /// The identity by which drivers find the device.
    fn dynid(&self) -> (r: PciDeviceID)
        ensures
            r == self.spec_facts().dynid,
    {
        self.facts().dynid
    }

    fn vendor(&self) -> (r: u16)
        ensures
            r == self.spec_facts().vendor,
    {
        self.facts().vendor
    }

    fn device_id(&self) -> (r: u16)
        ensures
            r == self.spec_facts().device_id,
    {
        self.facts().device_id
    }

    fn subsystem_vendor(&self) -> (r: u16)
        ensures
            r == self.spec_facts().subsystem_vendor,
    {
        self.facts().subsystem_vendor
    }

    fn subsystem_device(&self) -> (r: u16)
        ensures
            r == self.spec_facts().subsystem_device,
    {
        self.facts().subsystem_device
    }

    fn class_code(&self) -> (r: u8)
        ensures
            r == self.spec_facts().class_code,
    {
        self.facts().class_code
    }

    fn revision(&self) -> (r: u8)
        ensures
            r == self.spec_facts().revision,
    {
        self.facts().revision
    }

    fn irq_type(&self) -> (r: IrqType)
        ensures
            r == self.spec_facts().irq_type,
    {
        self.facts().irq_type
    }

    fn irq_line(&self) -> (r: u8)
        ensures
            r == self.spec_facts().irq_line,
    {
        self.facts().irq_line
    }

    fn interface_code(&self) -> (r: u8)
        ensures
            r == self.spec_facts().interface_code,
    {
        self.facts().interface_code
    }

    fn subclass(&self) -> (r: u8)
        ensures
            r == self.spec_facts().subclass,
    {
        self.facts().subclass
    }
}

/// Puts PCI devices into the system.
#[derive(Clone, Copy, Debug, PartialEq, Eq, Structural)]
pub struct PciDeviceManager {}

/// What puts PCI devices into the system.
pub fn pci_device_manager() -> (r: PciDeviceManager)
    ensures
        r == (PciDeviceManager {  }),
{
    PciDeviceManager {  }
}

impl PciDeviceManager {
    /// Puts a device into its place: on the bus, and below it unless it is below something else.
    /// The bus as a device and the bus are given by number. Matching it with drivers comes next.
    pub fn device_add(
        &self,
        kobject: &mut KObjectCommonData,
        device: &mut DeviceCommonData,
        bus_device: u64,
        bus: u64,
    )
        ensures
            *final(kobject) == (KObjectCommonData {
                parent: if old(kobject).parent is None {
                    Some(bus_device)
                } else {
                    old(kobject).parent
                },
                ..*old(kobject)
            }),
            *final(device) == (DeviceCommonData { bus: Some(bus), ..*old(device) }),
    {
        if kobject.parent().is_none() {
            kobject.set_parent(Some(bus_device));
        }
        device.set_bus(Some(bus));
    }
}

/// The bus as a device.
#[derive(Debug)]
pub struct PciBusDevice {
    pub device_data: DeviceCommonData,
    pub kobj_data: KObjectCommonData,
    pub name: String,
}

impl PciBusDevice {
    /// The bus below `parent`.
    pub fn new(parent: Option<u64>) -> (r: Self)
        ensures
            r.kobj_data == (KObjectCommonData {
                kern_inode: None,
                parent,
                kset: None,
                kobj_type: None,
                state: 0,
            }),
            r.device_data == (DeviceCommonData {
                bus: None,
                class: None,
                driver: None,
                parent: None,
                can_match: false,
            }),
            r.name@ == "pci"@,
    {
        let mut kobj_data = KObjectCommonData::default();
        kobj_data.set_parent(parent);
        PciBusDevice {
            device_data: DeviceCommonData::default(),
            kobj_data,
            name: "pci".to_owned(),
        }
    }

    /// The name of the bus.
    pub fn name(&self) -> (r: String)
        ensures
            r@ == self.name@,
    {
        self.name.clone()
    }

    /// Does nothing: the bus keeps its name.
    pub fn set_name(&mut self, name: String)
        ensures
            *final(self) == *old(self),
    {
    }

    /// The bus is a bus.
    pub fn dev_type(&self) -> (r: DeviceType)
        ensures
            r == DeviceType::Bus,
    {
        DeviceType::Bus
    }

    /// How the bus is identified.
    pub fn id_table(&self) -> (r: IdTable)
        ensures
            r.name@ == "pci"@,
            r.id is None,
    {
        IdTable::new("pci".to_owned(), None)
    }

    /// The bus never dies.
    pub fn is_dead(&self) -> (r: bool)
        ensures
            !r,
    {
        false
    }
}

/// Where a bus is in its life.
#[derive(Clone, Copy, Debug, PartialEq, Eq, Structural)]
pub enum BusState {
    NotInitialized,
    Initialized,
    UnDefined,
}

/// The bus as a device that keeps everything in one place.
#[derive(Debug)]
pub struct InnerPciBusDevice {
    pub name: String,
    /// What identifies the bus.
    pub data: IdTable,
    pub state: BusState,
    pub parent: Option<u64>,
    pub kernfs_inode: Option<u64>,
    pub bus: Option<u64>,
    pub driver: Option<u64>,
    pub ktype: Option<u64>,
    pub kset: Option<u64>,
}

impl InnerPciBusDevice {
    /// The bus below `parent`, before it is initialised.
    pub fn new(data: IdTable, parent: Option<u64>) -> (r: Self)
        ensures
            r.name@ == "pci"@,
            r.data == data,
            r.state == BusState::NotInitialized,
            r.parent == parent,
            r.kernfs_inode is None,
            r.bus is None,
            r.driver is None,
            r.ktype is None,
            r.kset is None,
    {
        InnerPciBusDevice {
            name: "pci".to_owned(),
            data,
            state: BusState::NotInitialized,
            parent,
            kernfs_inode: None,
            bus: None,
            driver: None,
            ktype: None,
            kset: None,
        }
    }
}

} // verus!

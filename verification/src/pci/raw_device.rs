//! Ordinary devices as devices of the system.

use vstd::prelude::*;
use crate::base::device::{DeviceCommonData, DeviceType, IdTable, KObjectCommonData};
use crate::pci::dev_id::PciDeviceID;
use crate::pci::device::{PciDevice, PciFacts};
use crate::pci::header::{self, PciDeviceStructureGeneralDevice};
use crate::pci::types::BusDeviceFunction;

verus! {

/// An ordinary device.
#[derive(Debug)]
pub struct PciGeneralDevice {
    pub name: Option<String>,
    pub kobject_common: KObjectCommonData,
    pub device_common: DeviceCommonData,
    pub dev_id: PciDeviceID,
    pub header: PciDeviceStructureGeneralDevice,
}

impl PciGeneralDevice {
    /// The name of the device.
    pub open spec fn spec_name(self) -> Option<Seq<char>> {
        match self.name {
            Some(name) => Some(name@),
            None => None,
        }
    }

    /// The device with this header, under a name. It is for drivers that take any device.
    pub fn from_header(header: PciDeviceStructureGeneralDevice, name: String) -> (r: Self)
        ensures
            r.header == header,
            r.spec_name() == Some(name@),
            r.dev_id == (PciDeviceID {
                vendor: 0xffff_ffff,
                device_id: 0xffff_ffff,
                subvendor: 0xffff_ffff,
                subdevice: 0xffff_ffff,
                class: 0xffff_ffff,
                class_mask: 0xffff_ffff,
                driver_data: 0,
                override_only: 0xffff_ffff,
                special_data: None,
            }),
            r.kobject_common == (KObjectCommonData {
                kern_inode: None,
                parent: None,
                kset: None,
                kobj_type: None,
                state: 0,
            }),
            r.device_common == (DeviceCommonData {
                bus: None,
                class: None,
                driver: None,
                parent: None,
                can_match: false,
            }),
    {
        let mut device = PciGeneralDevice {
            name: None,
            kobject_common: KObjectCommonData::default(),
            device_common: DeviceCommonData::default(),
            dev_id: PciDeviceID::dummpy(),
            header,
        };
        device.set_name(name);
        device
    }

    /// The name of the device, which it has from the start.
    pub fn name(&self) -> (r: String)
        requires
            self.spec_name() is Some,
        ensures
            Some(r@) == self.spec_name(),
    {
        match &self.name {
            Some(name) => name.clone(),
            None => "".to_owned(),
        }
    }

    /// Sets the name of the device.
    pub fn set_name(&mut self, name: String)
        ensures
            final(self).spec_name() == Some(name@),
            final(self).header == old(self).header,
            final(self).dev_id == old(self).dev_id,
            final(self).kobject_common == old(self).kobject_common,
            final(self).device_common == old(self).device_common,
    {
        self.name = Some(name);
    }

    /// The device is a PCI device.
    pub fn dev_type(&self) -> (r: DeviceType)
        ensures
            r == DeviceType::Pci,
    {
        DeviceType::Pci
    }

    /// How the device is identified.
    pub fn id_table(&self) -> (r: IdTable)
        ensures
            r.name@ == "testPci"@,
            r.id is None,
    {
        IdTable::new("testPci".to_owned(), None)
    }

    /// Drivers may always be matched with the device.
    pub fn can_match(&self) -> (r: bool)
        ensures
            r,
    {
        true
    }

    /// The device never dies.
    pub fn is_dead(&self) -> (r: bool)
        ensures
            !r,
    {
        false
    }

    /// The device has nothing to be in step with.
    pub fn state_synced(&self) -> (r: bool)
        ensures
            r,
    {
        true
    }
}

impl PciDevice for PciGeneralDevice {
    open spec fn spec_facts(&self) -> PciFacts {
        let header = self.header;
        PciFacts {
            dynid: self.dev_id,
            vendor: header.common_header.vendor_id,
            device_id: header.common_header.device_id,
            subsystem_vendor: header.subsystem_vendor_id,
            subsystem_device: header.subsystem_id,
            class_code: header.common_header.class_code,
            revision: header.common_header.revision_id,
            irq_type: header.irq_type,
            irq_line: header.interrupt_line,
            interface_code: header.common_header.prog_if,
            subclass: header.common_header.subclass,
        }
    }

    fn facts(&self) -> (r: PciFacts) {
        let header = &self.header;
        PciFacts {
            dynid: self.dev_id,
            vendor: header.common_header.vendor_id,
            device_id: header.common_header.device_id,
            subsystem_vendor: header.subsystem_vendor_id,
            subsystem_device: header.subsystem_id,
            class_code: header.common_header.class_code,
            revision: header.common_header.revision_id,
            irq_type: header.irq_type,
            irq_line: header.interrupt_line,
            interface_code: header.common_header.prog_if,
            subclass: header.common_header.subclass,
        }
    }
}

/// What the system learns of a device is what the registers of its function hold: who made it and
/// what it is in the first, its class, its subclass, its interface and its revision in the third,
/// highest first, and the line of its interrupt in the lowest byte of the sixteenth.
pub proof fn law_facts(device: PciGeneralDevice, place: BusDeviceFunction, regs: Seq<u32>)
    requires
        header::is_general_device(
            device.header,
            header::spec_common_header(place, regs),
            regs,
        ),
    ensures
        ({
            let facts = device.spec_facts();
            &&& facts.dynid == device.dev_id
            &&& facts.vendor == regs[0] % 0x1_0000
            &&& facts.device_id == regs[0] / 0x1_0000
            &&& facts.revision == regs[2] % 0x100
            &&& facts.interface_code == (regs[2] / 0x100) % 0x100
            &&& facts.subclass == (regs[2] / 0x1_0000) % 0x100
            &&& facts.class_code == regs[2] / 0x100_0000
            &&& facts.subsystem_vendor == regs[11] % 0x1_0000
            &&& facts.subsystem_device == regs[11] / 0x1_0000
            &&& facts.irq_line == regs[15] % 0x100
            &&& facts.irq_type == device.header.irq_type
        }),
{
    header::law_common_header(place, regs);
    header::law_general_device(device.header, header::spec_common_header(place, regs), regs);
}

} // verus!

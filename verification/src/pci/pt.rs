//! A device and a driver that only show that the bus works.

use vstd::prelude::*;
use crate::base::device::{DeviceCommonData, DeviceType, IdTable, KObjectCommonData};
use crate::base::driver::DriverCommonData;
use crate::base::sysfs::{AttrMode, SysFSOpsSupport};
use crate::error::SystemError;
use crate::pci::dev_id::{PciDeviceID, PCI_ANY_ID};
use crate::pci::device::{PciDevice, PciDeviceManager, PciFacts};
use crate::pci::driver::{PciDriver, PciDriverManager};
use crate::pci::header::IrqType;

verus! {

/// A device that is only made up.
#[derive(Clone, Copy, Debug, PartialEq, Eq, Structural)]
pub struct TestDevice {
    pub device_data: DeviceCommonData,
    pub kobj_data: KObjectCommonData,
    pub static_type: IrqType,
}

impl TestDevice {
    /// The device, before it is on the bus.
    pub fn new() -> (r: Self)
        ensures
            r.device_data.bus is None,
            r.device_data.class is None,
            r.device_data.driver is None,
            r.device_data.parent is None,
            r.kobj_data.parent is None,
            r.kobj_data.kern_inode is None,
            r.kobj_data.kset is None,
            r.kobj_data.kobj_type is None,
            r.kobj_data.state == 0,
            r.static_type == IrqType::Unused,
    {
        TestDevice {
            device_data: DeviceCommonData::default(),
            kobj_data: KObjectCommonData::default(),
            static_type: IrqType::Unused,
        }
    }

    /// The name of the device.
    pub fn name(&self) -> (r: String)
        ensures
            r@ == "PciTest"@,
    {
        "PciTest".to_owned()
    }

    /// Does nothing: the device keeps its name.
    pub fn set_name(&mut self, name: String)
        ensures
            *final(self) == *old(self),
    {
    }

    /// The device is a PCI device.
    pub fn dev_type(&self) -> (r: DeviceType)
        ensures
            r == DeviceType::Pci,
    {
        DeviceType::Pci
    }

    /// How the device is identified.
    pub fn id_table(&self) -> (r: IdTable)
        ensures
            r.name@ == "testPci"@,
            r.id is None,
    {
        IdTable::new("testPci".to_owned(), None)
    }

    /// Drivers may always be matched with the device.
    pub fn can_match(&self) -> (r: bool)
        ensures
            r,
    {
        true
    }

    /// The device never dies.
    pub fn is_dead(&self) -> (r: bool)
        ensures
            !r,
    {
        false
    }

    /// The device has nothing to be in step with.
    pub fn state_synced(&self) -> (r: bool)
        ensures
            r,
    {
        true
    }
}

impl PciDevice for TestDevice {
    open spec fn spec_facts(&self) -> PciFacts {
        PciFacts {
            dynid: PciDeviceID {
                vendor: PCI_ANY_ID,
                device_id: PCI_ANY_ID,
                subvendor: PCI_ANY_ID,
                subdevice: PCI_ANY_ID,
                class: PCI_ANY_ID,
                class_mask: PCI_ANY_ID,
                driver_data: 0,
                override_only: PCI_ANY_ID,
                special_data: None,
            },
            vendor: 0xffff,
            device_id: 0xffff,
            subsystem_vendor: 0xffff,
            subsystem_device: 0xffff,
            class_code: 0xff,
            revision: 0xff,
            irq_type: self.static_type,
            irq_line: 0xff,
            interface_code: 0xff,
            subclass: 0xff,
        }
    }

    fn facts(&self) -> (r: PciFacts) {
        PciFacts {
            dynid: PciDeviceID::dummpy(),
            vendor: 0xffff,
            device_id: 0xffff,
            subsystem_vendor: 0xffff,
            subsystem_device: 0xffff,
            class_code: 0xff,
            revision: 0xff,
            irq_type: self.static_type,
            irq_line: 0xff,
            interface_code: 0xff,
            subclass: 0xff,
        }
    }
}

/// The attributes of the device.
#[derive(Clone, Copy, Debug, PartialEq, Eq, Structural)]
pub struct HelloAttr {}

impl HelloAttr {
    /// The directory of the attributes.
    pub fn name(&self) -> (r: Option<&'static str>)
        ensures
            r is Some,
            (r->0)@ == "TestAttr"@,
    {
        Some("TestAttr")
    }

    /// The attributes: only one.
    pub fn attrs(&self) -> (r: Vec<Hello>)
        ensures
            r@ == seq![Hello {  }],
    {
        let mut all: Vec<Hello> = Vec::new();
        all.push(Hello {  });
        assert(all@ =~= seq![Hello {  }]);
        all
    }

    /// What may be done with an attribute: what it says itself.
    pub fn is_visible(&self, attr: Hello) -> (r: Option<AttrMode>)
        ensures
            r == Some(AttrMode::ReadOnly),
    {
        Some(attr.mode())
    }
}

/// An attribute that says hello.
#[derive(Clone, Copy, Debug, PartialEq, Eq, Structural)]
pub struct Hello {}

impl Hello {
    /// The file may only be read.
    pub fn mode(&self) -> (r: AttrMode)
        ensures
            r == AttrMode::ReadOnly,
    {
        AttrMode::ReadOnly
    }

    /// The name of the file.
    pub fn name(&self) -> (r: &'static str)
        ensures
            r@ == "Hello"@,
    {
        "Hello"
    }

    /// What the file shows.
    pub fn show(&self) -> (r: String)
        ensures
            r@ == "Hello Pci"@,
    {
        "Hello Pci".to_owned()
    }

    /// The file can be shown.
    pub fn support(&self) -> (r: SysFSOpsSupport)
        ensures
            r == (SysFSOpsSupport { show: true, store: false }),
    {
        SysFSOpsSupport { show: true, store: false }
    }
}

/// A driver for any device.
#[derive(Debug)]
pub struct TestDriver {
    pub driver_data: DriverCommonData,
    pub kobj_data: KObjectCommonData,
    pub locked_dynid_list: Vec<PciDeviceID>,
}

impl TestDriver {
    /// The driver, before it is on the bus. It is for no device yet.
    pub fn new() -> (r: Self)
        ensures
            r.driver_data.bus is None,
            r.driver_data.devices@.len() == 0,
            r.kobj_data.parent is None,
            r.locked_dynid_list@.len() == 0,
    {
        TestDriver {
            driver_data: DriverCommonData::default(),
            kobj_data: KObjectCommonData::default(),
            locked_dynid_list: Vec::new(),
        }
    }

    /// The name of the driver.
    pub fn name(&self) -> (r: String)
        ensures
            r@ == "PciTestDriver"@,
    {
        "PciTestDriver".to_owned()
    }

    /// How the driver is identified.
    pub fn id_table(&self) -> (r: Option<IdTable>)
        ensures
            r is Some,
            (r->0).name@ == "PciTestDriver"@,
            (r->0).id is None,
    {
        Some(IdTable::new("PciTestDriver".to_owned(), None))
    }
}

impl PciDriver for TestDriver {
    open spec fn spec_ids(&self) -> Option<Seq<PciDeviceID>> {
        Some(self.locked_dynid_list@)
    }

    fn probe(&self, device: u64, id: &PciDeviceID) -> (r: Result<(), SystemError>)
        ensures
            r == Ok::<(), SystemError>(()),
    {
        Ok(())
    }

    fn remove(&self, device: u64) -> (r: Result<(), SystemError>)
        ensures
            r == Ok::<(), SystemError>(()),
    {
        Ok(())
    }

    fn shutdown(&self, device: u64) -> (r: Result<(), SystemError>)
        ensures
            r == Ok::<(), SystemError>(()),
    {
        Ok(())
    }

    fn suspend(&self, device: u64) -> (r: Result<(), SystemError>)
        ensures
            r == Ok::<(), SystemError>(()),
    {
        Ok(())
    }

    fn resume(&self, device: u64) -> (r: Result<(), SystemError>)
        ensures
            r == Ok::<(), SystemError>(()),
    {
        Ok(())
    }

    fn add_dynid(&mut self, id: PciDeviceID) -> (r: Result<(), SystemError>)
        ensures
            r == Ok::<(), SystemError>(()),
            final(self).locked_dynid_list@ == old(self).locked_dynid_list@.push(id),
            final(self).driver_data == old(self).driver_data,
            final(self).kobj_data == old(self).kobj_data,
    {
        self.locked_dynid_list.push(id);
        Ok(())
    }

    fn locked_dynid_list(&self) -> (r: Option<&Vec<PciDeviceID>>) {
        Some(&self.locked_dynid_list)
    }
}

/// Makes the device and the driver and puts both onto the bus, which are given by number.
pub fn pt_init(bus_device: u64, bus: u64) -> (r: (TestDevice, TestDriver))
    ensures
        r.0.kobj_data.parent == Some(bus_device),
        r.0.device_data.bus == Some(bus),
        r.1.driver_data.bus == Some(bus),
        r.1.locked_dynid_list@.len() == 1,
        r.1.locked_dynid_list@[0] == r.0.spec_facts().dynid,
{
    let mut device = TestDevice::new();
    let mut driver = TestDriver::new();
    let added = driver.add_dynid(PciDeviceID::dummpy());
    let devices = PciDeviceManager {  };
    devices.device_add(&mut device.kobj_data, &mut device.device_data, bus_device, bus);
    let drivers = PciDriverManager {  };
    drivers.register(&mut driver.driver_data, bus);
    (device, driver)
}

} // verus!

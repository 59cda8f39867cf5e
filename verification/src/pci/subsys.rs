//! The bus and how it brings devices and drivers together.

use vstd::prelude::*;
use crate::base::sysfs::AttrMode;
use crate::error::SystemError;
use crate::pci::dev_id::PciDeviceID;
use crate::pci::device::PciDevice;
use crate::pci::driver::{self, PciDriver};

verus! {

/// The bus.
#[derive(Clone, Copy, Debug, PartialEq, Eq, Structural)]
pub struct PciBus {}

/// The driver accepts the device.
pub open spec fn accepts<D: PciDriver, V: PciDevice>(driver: D, device: V) -> Option<PciDeviceID> {
    match driver.spec_ids() {
        Some(ids) => driver::first_match(ids, device.spec_facts().dynid, 0),
        None => None,
    }
}

impl PciBus {
    /// The bus.
    pub fn new() -> (r: Self)
        ensures
            r == (PciBus {  }),
    {
        PciBus {  }
    }

    /// The name of the bus.
    pub fn name(&self) -> (r: String)
        ensures
            r@ == "pci"@,
    {
        "pci".to_owned()
    }

    /// The name of devices of the bus.
    pub fn dev_name(&self) -> (r: String)
        ensures
            r@ == "pci"@,
    {
        self.name()
    }

    /// The attributes that all devices of the bus have.
    pub fn dev_groups(&self) -> (r: PciDeviceAttrGroup)
        ensures
            r == (PciDeviceAttrGroup {  }),
    {
        PciDeviceAttrGroup {  }
    }

    /// By which identity the driver of a device takes it. The driver must be there and be for PCI
    /// devices, and the device must be one that it accepts.
    pub fn probe<D: PciDriver, V: PciDevice>(&self, driver: Option<&D>, device: Option<&V>) -> (r:
        Result<PciDeviceID, SystemError>)
        ensures
            r == (match (driver, device) {
                (Some(d), Some(v)) => match accepts(*d, *v) {
                    Some(id) => Ok(id),
                    None => Err(SystemError::EINVAL),
                },
                _ => Err(SystemError::EINVAL),
            }),
    {
        match (driver, device) {
            (Some(d), Some(v)) => match d.match_dev(&v.dynid()) {
                Some(id) => Ok(id),
                None => Err(SystemError::EINVAL),
            },
            _ => Err(SystemError::EINVAL),
        }
    }

    /// Whether a driver is for a device: it accepts the device, or its table or itself has the name
    /// of the device. It is an error if one of them is not of this bus.
    pub fn match_device<D: PciDriver, V: PciDevice>(
        &self,
        driver: Option<&D>,
        device: Option<&V>,
        driver_name: &String,
        table_name: Option<&String>,
        device_name: &String,
    ) -> (r: Result<bool, SystemError>)
        ensures
            r == (match (driver, device) {
                (Some(d), Some(v)) => Ok(
                    accepts(*d, *v) is Some || (match table_name {
                        Some(name) => name@ == device_name@,
                        None => false,
                    }) || device_name@ == driver_name@,
                ),
                _ => Err(SystemError::EINVAL),
            }),
    {
        match (driver, device) {
            (Some(d), Some(v)) => {
                if d.match_dev(&v.dynid()).is_some() {
                    return Ok(true);
                }
                if let Some(name) = table_name {
                    if *name == *device_name {
                        return Ok(true);
                    }
                }
                Ok(*device_name == *driver_name)
            },
            _ => Err(SystemError::EINVAL),
        }
    }
}

/// The attributes that all devices of the bus have. There are none.
#[derive(Clone, Copy, Debug, PartialEq, Eq, Structural)]
pub struct PciDeviceAttrGroup {}

impl PciDeviceAttrGroup {
    /// The directory of the attributes. They have none of their own.
    pub fn name(&self) -> (r: Option<&'static str>)
        ensures
            r is None,
    {
        None
    }

    /// The attributes.
    pub fn attrs(&self) -> (r: Vec<&'static str>)
        ensures
            r@.len() == 0,
    {
        Vec::new()
    }

    /// What may be done with an attribute: what it says itself.
    pub fn is_visible(&self, mode: AttrMode) -> (r: Option<AttrMode>)
        ensures
            r == Some(mode),
    {
        Some(mode)
    }
}

/// A driver that is for a device by its identities is matched with it and takes it, and under the
/// same identity.
pub proof fn law_match_and_probe<D: PciDriver, V: PciDevice>(
    driver: D,
    device: V,
    ids: Seq<PciDeviceID>,
    at: int,
)
    requires
        driver.spec_ids() == Some(ids),
        0 <= at < ids.len(),
        ids[at].spec_match_dev(device.spec_facts().dynid),
    ensures
        accepts(driver, device) is Some,
        ids.contains(accepts(driver, device)->0),
        (accepts(driver, device)->0).spec_match_dev(device.spec_facts().dynid),
{
    lemma_first_match(ids, device.spec_facts().dynid, 0, at);
}

proof fn lemma_first_match(ids: Seq<PciDeviceID>, dynid: PciDeviceID, from: int, at: int)
    requires
        0 <= from <= at < ids.len(),
        ids[at].spec_match_dev(dynid),
    ensures
        driver::first_match(ids, dynid, from) is Some,
        ids.contains(driver::first_match(ids, dynid, from)->0),
        (driver::first_match(ids, dynid, from)->0).spec_match_dev(dynid),
    decreases ids.len() - from,
{
    if !ids[from].spec_match_dev(dynid) {
        lemma_first_match(ids, dynid, from + 1, at);
    }
}

} // verus!

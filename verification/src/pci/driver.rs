//! Drivers for PCI devices.

use vstd::prelude::*;
use crate::base::driver::DriverCommonData;
use crate::error::SystemError;
use crate::pci::dev_id::PciDeviceID;

verus! {

/// The first of the identities from position `from` on that accepts the device.
pub open spec fn first_match(ids: Seq<PciDeviceID>, dynid: PciDeviceID, from: int) -> Option<
    PciDeviceID,
>
    decreases ids.len() - from,
{
    if from < 0 || from >= ids.len() {
        None
    } else if ids[from].spec_match_dev(dynid) {
        Some(ids[from])
    } else {
        first_match(ids, dynid, from + 1)
    }
}

/// The first of the identities that accepts the device.
pub fn find_match(ids: &Vec<PciDeviceID>, dynid: &PciDeviceID) -> (r: Option<PciDeviceID>)
    ensures
        r == first_match(ids@, *dynid, 0),
{
    let mut i: usize = 0;
    while i < ids.len()
        invariant
            0 <= i <= ids@.len(),
            first_match(ids@, *dynid, 0) == first_match(ids@, *dynid, i as int),
        decreases ids@.len() - i,
    {
        if ids[i].match_dev(dynid) {
            return Some(ids[i]);
        }
        i = i + 1;
    }
    None
}

/// A driver for PCI devices. Devices are given by number.
pub trait PciDriver {
    /// The identities of the devices that the driver is for, if it can tell.
    spec fn spec_ids(&self) -> Option<Seq<PciDeviceID>>;

    /// Takes a device that one of the identities accepts.
    fn probe(&self, device: u64, id: &PciDeviceID) -> (r: Result<(), SystemError>);

    /// Lets a device go.
    fn remove(&self, device: u64) -> (r: Result<(), SystemError>);

    /// Shuts a device down.
    fn shutdown(&self, device: u64) -> (r: Result<(), SystemError>);

    /// Puts a device to sleep.
    fn suspend(&self, device: u64) -> (r: Result<(), SystemError>);

    /// Wakes a device up.
    fn resume(&self, device: u64) -> (r: Result<(), SystemError>);

    /// Makes the driver be for one more kind of devices.
    fn add_dynid(&mut self, id: PciDeviceID) -> (r: Result<(), SystemError>);

    /// The identities of the devices that the driver is for.
    fn locked_dynid_list(&self) -> (r: Option<&Vec<PciDeviceID>>)
        ensures
            match r {
                Some(ids) => self.spec_ids() == Some(ids@),
                None => self.spec_ids() is None,
            },
    ;

    /// The identity by which the driver accepts a device, if it does.
    fn match_dev(&self, dynid: &PciDeviceID) -> (r: Option<PciDeviceID>)
        ensures
            r == (match self.spec_ids() {
                Some(ids) => first_match(ids, *dynid, 0),
                None => None,
            }),
    {
        match self.locked_dynid_list() {
            Some(ids) => find_match(ids, dynid),
            None => None,
        }
    }
}

/// Puts drivers onto the bus.
#[derive(Clone, Copy, Debug, PartialEq, Eq, Structural)]
pub struct PciDriverManager {}

/// What puts drivers onto the bus.
pub fn pci_driver_manager() -> (r: PciDriverManager)
    ensures
        r == (PciDriverManager {  }),
{
    PciDriverManager {  }
}

impl PciDriverManager {
    /// Puts a driver onto the bus with this number. Matching it with devices comes next.
    pub fn register(&self, driver: &mut DriverCommonData, bus: u64)
        ensures
            *final(driver) == (DriverCommonData { bus: Some(bus), ..*old(driver) }),
    {
        driver.set_bus(Some(bus));
    }
}

/// What a driver keeps when it keeps everything in one place.
#[derive(Debug)]
pub struct InnerPciDriver {
    pub ktype: Option<u64>,
    pub kset: Option<u64>,
    pub parent: Option<u64>,
    pub kernfs_inode: Option<u64>,
    pub devices: Vec<u64>,
    pub bus: Option<u64>,
    pub locked_dynid_list: Vec<PciDeviceID>,
}

impl InnerPciDriver {
    /// The identities of the devices that the driver is for.
    pub fn id_list(&self) -> (r: &Vec<PciDeviceID>)
        ensures
            *r == self.locked_dynid_list,
    {
        &self.locked_dynid_list
    }

    /// Makes the driver be for one more kind of devices.
    pub fn insert_id(&mut self, id: PciDeviceID)
        ensures
            final(self).locked_dynid_list@ == old(self).locked_dynid_list@.push(id),
            *final(self) == (InnerPciDriver {
                locked_dynid_list: final(self).locked_dynid_list,
                ..*old(self)
            }),
    {
        self.locked_dynid_list.push(id);
    }
}

/// The identity by which a driver takes a device is the first in its list that matches, and there is
/// one as soon as any matches.
pub proof fn law_first_match(ids: Seq<PciDeviceID>, dynid: PciDeviceID)
    ensures
        match first_match(ids, dynid, 0) {
            Some(id) => exists|i: int|
                #![trigger ids[i]]
                0 <= i < ids.len() && ids[i] == id && id.spec_match_dev(dynid) && forall|j: int|
                    0 <= j < i ==> !(#[trigger] ids[j]).spec_match_dev(dynid),
            None => forall|i: int|
                0 <= i < ids.len() ==> !(#[trigger] ids[i]).spec_match_dev(dynid),
        },
{
    lemma_match_from(ids, dynid, 0);
}

proof fn lemma_match_from(ids: Seq<PciDeviceID>, dynid: PciDeviceID, from: int)
    requires
        0 <= from <= ids.len(),
    ensures
        match first_match(ids, dynid, from) {
            Some(id) => exists|i: int|
                #![trigger ids[i]]
                from <= i < ids.len() && ids[i] == id && id.spec_match_dev(dynid) && forall|j: int|
                    from <= j < i ==> !(#[trigger] ids[j]).spec_match_dev(dynid),
            None => forall|i: int|
                from <= i < ids.len() ==> !(#[trigger] ids[i]).spec_match_dev(dynid),
        },
    decreases ids.len() - from,
{
    if from < ids.len() {
        if ids[from].spec_match_dev(dynid) {
            assert(ids[from].spec_match_dev(dynid));
        } else {
            lemma_match_from(ids, dynid, from + 1);
            if let Some(id) = first_match(ids, dynid, from + 1) {
                let i = choose|i: int|
                    #![trigger ids[i]]
                    from + 1 <= i < ids.len() && ids[i] == id && id.spec_match_dev(dynid)
                        && forall|j: int|
                        from + 1 <= j < i ==> !(#[trigger] ids[j]).spec_match_dev(dynid);
                assert(forall|j: int|
                    from <= j < i ==> !(#[trigger] ids[j]).spec_match_dev(dynid));
            }
        }
    }
}

} // verus!

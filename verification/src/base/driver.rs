//! What every driver keeps.

use vstd::prelude::*;

verus! {

/// The bus and the devices of a driver, by number.
#[derive(Debug)]
pub struct DriverCommonData {
    pub bus: Option<u64>,
    pub devices: Vec<u64>,
}

impl Default for DriverCommonData {
    /// A driver that belongs nowhere.
    fn default() -> (r: Self)
        ensures
            r.bus is None,
            r.devices@.len() == 0,
    {
        DriverCommonData { bus: None, devices: Vec::new() }
    }
}

impl DriverCommonData {
    /// The bus of the driver.
    pub fn bus(&self) -> (r: Option<u64>)
        ensures
            r == self.bus,
    {
        self.bus
    }

    /// Sets the bus of the driver.
    pub fn set_bus(&mut self, bus: Option<u64>)
        ensures
            *final(self) == (DriverCommonData { bus, ..*old(self) }),
    {
        self.bus = bus;
    }

    /// The devices of the driver.
    pub fn devices(&self) -> (r: &Vec<u64>)
        ensures
            *r == self.devices,
    {
        &self.devices
    }

    /// Adds a device, unless the driver has it already.
    pub fn add_device(&mut self, device: u64)
        ensures
            final(self).bus == old(self).bus,
            final(self).devices@ == (if old(self).devices@.contains(device) {
                old(self).devices@
            } else {
                old(self).devices@.push(device)
            }),
    {
        let mut i: usize = 0;
        while i < self.devices.len()
            invariant
                0 <= i <= self.devices@.len(),
                *self == *old(self),
                forall|j: int| 0 <= j < i ==> self.devices@[j] != device,
            decreases self.devices@.len() - i,
        {
            if self.devices[i] == device {
                assert(self.devices@[i as int] == device);
                return;
            }
            i = i + 1;
        }
        self.devices.push(device);
    }

    /// Removes a device wherever it is listed.
    pub fn delete_device(&mut self, device: u64)
        ensures
            final(self).bus == old(self).bus,
            final(self).devices@ == old(self).devices@.filter(|d: u64| d != device),
    {
        let mut kept: Vec<u64> = Vec::new();
        let ghost stays = |d: u64| d != device;
        let mut i: usize = 0;
        proof {
            assert(self.devices@.take(0).filter(stays) =~= Seq::<u64>::empty()) by {
                reveal(Seq::filter);
            }
        }
        while i < self.devices.len()
            invariant
                0 <= i <= self.devices@.len(),
                *self == *old(self),
                stays == (|d: u64| d != device),
                kept@ == self.devices@.take(i as int).filter(stays),
            decreases self.devices@.len() - i,
        {
            let d: u64 = self.devices[i];
            proof {
                let past = self.devices@.take(i as int);
                let now = self.devices@.take(i + 1);
                assert(now.drop_last() =~= past);
                assert(now.last() == d);
                reveal(Seq::filter);
            }
            if d != device {
                kept.push(d);
            }
            i = i + 1;
        }
        assert(self.devices@.take(self.devices@.len() as int) =~= self.devices@);
        self.devices = kept;
    }
}

} // verus!

//! How drivers say which devices they are for.

use vstd::prelude::*;

verus! {

/// Stands for any number.
pub const PCI_ANY_ID: u32 = 0xffff_ffff;

/// A way of its own in which a device is recognised. No device is given one yet.
#[derive(Clone, Copy, Debug, PartialEq, Eq, PartialOrd, Ord, Structural)]
pub enum PciSpecifiedData {
    /// The device speaks virtio.
    Virtio,
}

impl PciSpecifiedData {
    /// Whether the other side is recognised in the same way.
    pub fn match_dev(&self, data: Option<Self>) -> (r: bool)
        ensures
            r == (data == Some(*self)),
    {
        match data {
            Some(other) => *self == other,
            None => false,
        }
    }
}

/// What a device is, or which devices a driver is for.
#[derive(Clone, Copy, Debug, PartialEq, Eq, Structural)]
pub struct PciDeviceID {
    pub vendor: u32,
    pub device_id: u32,
    pub subvendor: u32,
    pub subdevice: u32,
    pub class: u32,
    /// Which bits of the class count.
    pub class_mask: u32,
    pub driver_data: u64,
    pub override_only: u32,
    /// A way of its own in which the device is recognised; it goes before the numbers.
    pub special_data: Option<PciSpecifiedData>,
}

impl PciDeviceID {
    /// The number is the one that is asked for, or any is.
    pub open spec fn accepts(wanted: u32, given: u32) -> bool {
        wanted == given || wanted == PCI_ANY_ID
    }

    /// The classes agree in the bits that count.
    pub open spec fn spec_class_check(self, id: Self) -> bool {
        (self.class ^ id.class) & self.class_mask == 0
    }

    /// The numbers of the device are those that are asked for.
    pub open spec fn spec_general_match(self, id: Self) -> bool {
        &&& Self::accepts(self.vendor, id.vendor)
        &&& Self::accepts(self.device_id, id.device_id)
        &&& Self::accepts(self.subvendor, id.subvendor)
        &&& Self::accepts(self.subdevice, id.subdevice)
        &&& self.spec_class_check(id)
    }

    /// The device is one that is asked for. A way of its own, of either side, decides alone.
    pub open spec fn spec_match_dev(self, dynid: Self) -> bool {
        if dynid.special_data is Some || self.special_data is Some {
            dynid.special_data == self.special_data
        } else {
            self.spec_general_match(dynid)
        }
    }

    /// Sets a way of its own in which the device is recognised.
    pub fn set_special(&mut self, data: PciSpecifiedData)
        ensures
            *final(self) == (PciDeviceID { special_data: Some(data), ..*old(self) }),
    {
        self.special_data = Some(data);
    }

    /// Stands for any device of the class of all ones.
    pub fn dummpy() -> (r: Self)
        ensures
            r == (PciDeviceID {
                vendor: PCI_ANY_ID,
                device_id: PCI_ANY_ID,
                subvendor: PCI_ANY_ID,
                subdevice: PCI_ANY_ID,
                class: PCI_ANY_ID,
                class_mask: PCI_ANY_ID,
                driver_data: 0,
                override_only: PCI_ANY_ID,
                special_data: None,
            }),
    {
        PciDeviceID {
            vendor: PCI_ANY_ID,
            device_id: PCI_ANY_ID,
            subvendor: PCI_ANY_ID,
            subdevice: PCI_ANY_ID,
            class: PCI_ANY_ID,
            class_mask: PCI_ANY_ID,
            driver_data: 0,
            override_only: PCI_ANY_ID,
            special_data: None,
        }
    }

    /// Whether the device with the identity `dynid` is one that is asked for.
    pub fn match_dev(&self, dynid: &PciDeviceID) -> (r: bool)
        ensures
            r == self.spec_match_dev(*dynid),
    {
        if let Some(data) = dynid.special_data {
            return data.match_dev(self.special_data);
        }
        if let Some(data) = self.special_data {
            data.match_dev(dynid.special_data)
        } else {
            self.general_match(*dynid)
        }
    }

    /// Whether the numbers of the device are those that are asked for.
    pub fn general_match(&self, id: PciDeviceID) -> (r: bool)
        ensures
            r == self.spec_general_match(id),
    {
        (self.vendor == id.vendor() || self.vendor == PCI_ANY_ID) && (self.device_id
            == id.device_id() || self.device_id == PCI_ANY_ID) && (self.subvendor == id.subvendor()
            || self.subvendor == PCI_ANY_ID) && (self.subdevice == id.subdevice() || self.subdevice
            == PCI_ANY_ID) && self.class_check(&id)
    }

    /// Whether the classes agree in the bits that count.
    pub fn class_check(&self, id: &Self) -> (r: bool)
        ensures
            r == self.spec_class_check(*id),
    {
        (self.class ^ id.class()) & self.class_mask == 0
    }

    pub fn vendor(&self) -> (r: u32)
        ensures
            r == self.vendor,
    {
        self.vendor
    }

    pub fn device_id(&self) -> (r: u32)
        ensures
            r == self.device_id,
    {
        self.device_id
    }

    pub fn subvendor(&self) -> (r: u32)
        ensures
            r == self.subvendor,
    {
        self.subvendor
    }

    pub fn subdevice(&self) -> (r: u32)
        ensures
            r == self.subdevice,
    {
        self.subdevice
    }

    pub fn class(&self) -> (r: u32)
        ensures
            r == self.class,
    {
        self.class
    }

    pub fn class_mask(&self) -> (r: u32)
        ensures
            r == self.class_mask,
    {
        self.class_mask
    }
}

/// An identity that is made of any numbers accepts every device of the same class, and itself.
pub proof fn law_any_matches(id: PciDeviceID, dynid: PciDeviceID)
    requires
        id.vendor == PCI_ANY_ID,
        id.device_id == PCI_ANY_ID,
        id.subvendor == PCI_ANY_ID,
        id.subdevice == PCI_ANY_ID,
        id.class == dynid.class,
    ensures
        id.spec_general_match(dynid),
        id.spec_general_match(id),
{
    let class = id.class;
    let mask = id.class_mask;
    assert((class ^ class) & mask == 0) by (bit_vector);
}

/// A driver that says what it is for by numbers takes a device exactly if each number is that of the
/// device or stands for any, and the bits of the class that count are those of the device. One of a
/// special kind takes devices of that kind and no others, whatever the numbers.
pub proof fn law_match(id: PciDeviceID, dynid: PciDeviceID)
    ensures
        id.special_data is None && dynid.special_data is None ==> (id.spec_match_dev(dynid) <==> {
            &&& id.vendor == dynid.vendor || id.vendor == 0xffff_ffff
            &&& id.device_id == dynid.device_id || id.device_id == 0xffff_ffff
            &&& id.subvendor == dynid.subvendor || id.subvendor == 0xffff_ffff
            &&& id.subdevice == dynid.subdevice || id.subdevice == 0xffff_ffff
            &&& id.class & id.class_mask == dynid.class & id.class_mask
        }),
        id.special_data is Some || dynid.special_data is Some ==> (id.spec_match_dev(dynid)
            <==> id.special_data is Some && dynid.special_data is Some && id.special_data->0
            == dynid.special_data->0),
        id.special_data is None && dynid.special_data is None ==> id.spec_general_match(dynid)
            == id.spec_match_dev(dynid),
{
    let a = id.class;
    let b = dynid.class;
    let mask = id.class_mask;
    assert(((a ^ b) & mask == 0) == (a & mask == b & mask)) by (bit_vector);
}

} // verus!

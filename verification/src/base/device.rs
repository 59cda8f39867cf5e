//! The place of a device in the device tree, as handles of other objects.

use vstd::prelude::*;

verus! {

/// What kind of device something is.
#[derive(Clone, Copy, Debug, PartialEq, Eq, Structural)]
pub enum DeviceType {
    Bus,
    Net,
    Pci,
}

/// How a device is identified to drivers.
#[derive(Debug)]
pub struct IdTable {
    pub name: String,
    pub id: Option<u32>,
}

impl IdTable {
    /// The identity with this name and number.
    pub fn new(name: String, id: Option<u32>) -> (r: Self)
        ensures
            r.name == name,
            r.id == id,
    {
        IdTable { name, id }
    }
}

/// The place of an object among kernel objects. Other objects are given by number.
#[derive(Clone, Copy, Debug, PartialEq, Eq, Structural)]
pub struct KObjectCommonData {
    pub kern_inode: Option<u64>,
    pub parent: Option<u64>,
    pub kset: Option<u64>,
    pub kobj_type: Option<u64>,
    /// The state of the object, as flags.
    pub state: u32,
}

impl Default for KObjectCommonData {
    /// An object that stands alone.
    fn default() -> (r: Self)
        ensures
            r == (KObjectCommonData {
                kern_inode: None,
                parent: None,
                kset: None,
                kobj_type: None,
                state: 0,
            }),
    {
        KObjectCommonData { kern_inode: None, parent: None, kset: None, kobj_type: None, state: 0 }
    }
}

impl KObjectCommonData {
    /// Sets the inode that shows the object.
    pub fn set_inode(&mut self, inode: Option<u64>)
        ensures
            *final(self) == (KObjectCommonData { kern_inode: inode, ..*old(self) }),
    {
        self.kern_inode = inode;
    }

    /// The inode that shows the object.
    pub fn inode(&self) -> (r: Option<u64>)
        ensures
            r == self.kern_inode,
    {
        self.kern_inode
    }

    /// The object that this one belongs to.
    pub fn parent(&self) -> (r: Option<u64>)
        ensures
            r == self.parent,
    {
        self.parent
    }

    /// Sets the object that this one belongs to.
    pub fn set_parent(&mut self, parent: Option<u64>)
        ensures
            *final(self) == (KObjectCommonData { parent, ..*old(self) }),
    {
        self.parent = parent;
    }

    /// The set that the object belongs to.
    pub fn kset(&self) -> (r: Option<u64>)
        ensures
            r == self.kset,
    {
        self.kset
    }

    /// Sets the set that the object belongs to.
    pub fn set_kset(&mut self, kset: Option<u64>)
        ensures
            *final(self) == (KObjectCommonData { kset, ..*old(self) }),
    {
        self.kset = kset;
    }

    /// The type of the object.
    pub fn kobj_type(&self) -> (r: Option<u64>)
        ensures
            r == self.kobj_type,
    {
        self.kobj_type
    }

    /// Sets the type of the object.
    pub fn set_kobj_type(&mut self, kobj_type: Option<u64>)
        ensures
            *final(self) == (KObjectCommonData { kobj_type, ..*old(self) }),
    {
        self.kobj_type = kobj_type;
    }

    /// The state of the object.
    pub fn kobj_state(&self) -> (r: u32)
        ensures
            r == self.state,
    {
        self.state
    }

    /// Sets the state of the object.
    pub fn set_kobj_state(&mut self, state: u32)
        ensures
            *final(self) == (KObjectCommonData { state, ..*old(self) }),
    {
        self.state = state;
    }
}

/// The place of a device among buses, classes and drivers. Other objects are given by number.
#[derive(Clone, Copy, Debug, PartialEq, Eq, Structural)]
pub struct DeviceCommonData {
    pub bus: Option<u64>,
    pub class: Option<u64>,
    pub driver: Option<u64>,
    pub parent: Option<u64>,
    pub can_match: bool,
}

impl Default for DeviceCommonData {
    /// A device that belongs nowhere.
    fn default() -> (r: Self)
        ensures
            r == (DeviceCommonData {
                bus: None,
                class: None,
                driver: None,
                parent: None,
                can_match: false,
            }),
    {
        DeviceCommonData { bus: None, class: None, driver: None, parent: None, can_match: false }
    }
}

impl DeviceCommonData {
    /// The bus of the device.
    pub fn bus(&self) -> (r: Option<u64>)
        ensures
            r == self.bus,
    {
        self.bus
    }

    /// Sets the bus of the device.
    pub fn set_bus(&mut self, bus: Option<u64>)
        ensures
            *final(self) == (DeviceCommonData { bus, ..*old(self) }),
    {
        self.bus = bus;
    }

    /// The class of the device. A class that is gone is forgotten.
    pub fn class(&mut self, alive: bool) -> (r: Option<u64>)
        ensures
            r == (if alive {
                old(self).class
            } else {
                None
            }),
            *final(self) == (DeviceCommonData { class: r, ..*old(self) }),
    {
        if !alive {
            self.class = None;
        }
        self.class
    }

    /// Sets the class of the device.
    pub fn set_class(&mut self, class: Option<u64>)
        ensures
            *final(self) == (DeviceCommonData { class, ..*old(self) }),
    {
        self.class = class;
    }

    /// The driver of the device. A driver that is gone is forgotten.
    pub fn driver(&mut self, alive: bool) -> (r: Option<u64>)
        ensures
            r == (if alive {
                old(self).driver
            } else {
                None
            }),
            *final(self) == (DeviceCommonData { driver: r, ..*old(self) }),
    {
        if !alive {
            self.driver = None;
        }
        self.driver
    }

    /// Sets the driver of the device.
    pub fn set_driver(&mut self, driver: Option<u64>)
        ensures
            *final(self) == (DeviceCommonData { driver, ..*old(self) }),
    {
        self.driver = driver;
    }

    /// Whether drivers may be matched with the device.
    pub fn can_match(&self) -> (r: bool)
        ensures
            r == self.can_match,
    {
        self.can_match
    }

    /// Sets whether drivers may be matched with the device.
    pub fn set_can_match(&mut self, can_match: bool)
        ensures
            *final(self) == (DeviceCommonData { can_match, ..*old(self) }),
    {
        self.can_match = can_match;
    }

    /// The device that this one is attached to. A device that is gone is forgotten.
    pub fn dev_parent(&mut self, alive: bool) -> (r: Option<u64>)
        ensures
            r == (if alive {
                old(self).parent
            } else {
                None
            }),
            *final(self) == (DeviceCommonData { parent: r, ..*old(self) }),
    {
        if !alive {
            self.parent = None;
        }
        self.parent
    }

    /// Sets the device that this one is attached to.
    pub fn set_dev_parent(&mut self, parent: Option<u64>)
        ensures
            *final(self) == (DeviceCommonData { parent, ..*old(self) }),
    {
        self.parent = parent;
    }
}

} // verus!

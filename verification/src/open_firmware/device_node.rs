//! The nodes of the device tree as objects of the system. Other objects are given by number.

use vstd::prelude::*;

verus! {

/// A property of a node.
#[derive(Debug)]
pub struct Property {
    pub name: String,
    pub value: Vec<u8>,
    pub bin_attr: Option<u64>,
}

impl Property {
    /// A property with a name and a value, and the file that shows it.
    pub fn new(name: String, value: Vec<u8>, battr: Option<u64>) -> (r: Self)
        ensures
            r == (Property { name, value, bin_attr: battr }),
    {
        Property { name, value, bin_attr: battr }
    }
}

/// What a driver keeps with a node.
pub trait DeviceNodePrivateData {

}

/// A node.
#[derive(Debug)]
pub struct DeviceNode {
    pub full_name: Option<&'static str>,
    pub full_name_allocated: Option<String>,
    pub properties: Vec<Property>,
    pub parent: Option<u64>,
    pub children: Vec<u64>,
    pub sibling: Option<u64>,
    pub private_data: Option<u64>,
}

impl DeviceNode {
    /// A node that stands alone. It must have a name.
    pub fn new(full_name: Option<&'static str>, full_name_allocated: Option<String>) -> (r: Option<
        Self,
    >)
        ensures
            match r {
                None => full_name is None && full_name_allocated is None,
                Some(node) => {
                    &&& full_name is Some || full_name_allocated is Some
                    &&& node.full_name == full_name
                    &&& node.full_name_allocated == full_name_allocated
                    &&& node.properties@.len() == 0
                    &&& node.parent is None
                    &&& node.children@.len() == 0
                    &&& node.sibling is None
                    &&& node.private_data is None
                },
            },
    {
        if full_name.is_none() && full_name_allocated.is_none() {
            return None;
        }
        Some(
            DeviceNode {
                full_name,
                full_name_allocated,
                properties: Vec::new(),
                parent: None,
                children: Vec::new(),
                sibling: None,
                private_data: None,
            },
        )
    }

    /// Adds a property.
    pub fn add_property(&mut self, prop: Property)
        ensures
            final(self).properties@ == old(self).properties@.push(prop),
            *final(self) == (DeviceNode { properties: final(self).properties, ..*old(self) }),
    {
        self.properties.push(prop);
    }

    /// The properties, in the order in which they were added.
    pub fn properties(&self) -> (r: &Vec<Property>)
        ensures
            *r == self.properties,
    {
        &self.properties
    }

    /// The node that this one lies in, if it still is there.
    pub fn parent(&self, alive: bool) -> (r: Option<u64>)
        ensures
            r == (if alive {
                self.parent
            } else {
                None
            }),
    {
        if alive {
            self.parent
        } else {
            None
        }
    }

    /// Sets the node that this one lies in.
    pub fn set_parent(&mut self, parent: u64)
        ensures
            *final(self) == (DeviceNode { parent: Some(parent), ..*old(self) }),
    {
        self.parent = Some(parent);
    }

    /// The nodes that lie in this one, in the order in which they were added.
    pub fn children(&self) -> (r: &Vec<u64>)
        ensures
            *r == self.children,
    {
        &self.children
    }

    /// Adds a node that lies in this one.
    pub fn add_child(&mut self, child: u64)
        ensures
            final(self).children@ == old(self).children@.push(child),
            *final(self) == (DeviceNode { children: final(self).children, ..*old(self) }),
    {
        self.children.push(child);
    }

    /// The node beside this one, if it still is there.
    pub fn sibling(&self, alive: bool) -> (r: Option<u64>)
        ensures
            r == (if alive {
                self.sibling
            } else {
                None
            }),
    {
        if alive {
            self.sibling
        } else {
            None
        }
    }

    /// Sets the node beside this one.
    pub fn set_sibling(&mut self, sibling: u64)
        ensures
            *final(self) == (DeviceNode { sibling: Some(sibling), ..*old(self) }),
    {
        self.sibling = Some(sibling);
    }

    /// What a driver keeps with the node.
    pub fn private_data(&self) -> (r: Option<u64>)
        ensures
            r == self.private_data,
    {
        self.private_data
    }

    /// Sets what a driver keeps with the node.
    pub fn set_private_data(&mut self, data: u64)
        ensures
            *final(self) == (DeviceNode { private_data: Some(data), ..*old(self) }),
    {
        self.private_data = Some(data);
    }
}

} // verus!

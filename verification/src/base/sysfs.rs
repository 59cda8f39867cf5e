//! Attributes of devices that are shown as files.

use vstd::prelude::*;

verus! {

/// What may be done with the file of an attribute.
#[derive(Clone, Copy, Debug, PartialEq, Eq, Structural)]
pub enum AttrMode {
    /// It may be read.
    ReadOnly,
    /// It may be read and written.
    ReadWrite,
}

/// Which operations the file of an attribute has.
#[derive(Clone, Copy, Debug, PartialEq, Eq, Structural)]
pub struct SysFSOpsSupport {
    pub show: bool,
    pub store: bool,
}

impl AttrMode {
    /// The operations that go with what may be done.
    pub open spec fn spec_support(self) -> SysFSOpsSupport {
        SysFSOpsSupport { show: true, store: self == AttrMode::ReadWrite }
    }
}

} // verus!

//! What a device can do.

use vstd::prelude::*;
use crate::net::addr::Medium;

verus! {

/// The limits of a device.
#[derive(Clone, Copy, Debug, PartialEq, Eq, Structural)]
pub struct DeviceCapabilities {
    pub medium: Medium,
    /// The longest frame, header and all.
    pub max_transmission_unit: usize,
    /// How many frames the device takes at once, if that is limited.
    pub max_burst_size: Option<usize>,
}

} // verus!

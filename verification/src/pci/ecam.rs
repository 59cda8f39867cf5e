//! Roots whose configuration space is in memory.

use vstd::prelude::*;
use crate::pci::root::{PciCam, PciRoot, PciRootManager};
use crate::pci::types::SegmentGroupNumber;

verus! {

/// What firmware says of a root whose configuration space is in memory.
#[derive(Clone, Copy, Debug, PartialEq, Eq, Structural)]
pub struct EcamRootInfo {
    /// The number of the group.
    pub segment_group_number: SegmentGroupNumber,
    /// The first bus.
    pub bus_begin: u8,
    /// The last bus.
    pub bus_end: u8,
    /// Where configuration space starts.
    pub physical_address_base: usize,
}

impl EcamRootInfo {
    /// A root with these properties.
    pub fn new(
        segment_group_number: SegmentGroupNumber,
        bus_begin: u8,
        bus_end: u8,
        physical_address_base: usize,
    ) -> (r: Self)
        ensures
            r == (EcamRootInfo {
                segment_group_number,
                bus_begin,
                bus_end,
                physical_address_base,
            }),
    {
        EcamRootInfo { segment_group_number, bus_begin, bus_end, physical_address_base }
    }
}

/// Notes the roots that firmware describes.
#[derive(Clone, Copy, Debug, PartialEq, Eq, Structural)]
pub struct EcamRootInfoManager {}

/// What notes the roots that firmware describes.
pub fn pci_ecam_root_info_manager() -> (r: EcamRootInfoManager)
    ensures
        r == (EcamRootInfoManager {  }),
{
    EcamRootInfoManager {  }
}

impl EcamRootInfoManager {
    /// Notes a root, unless its group has one already or its configuration space could not be
    /// mapped. `mapped` tells where it was mapped.
    pub fn add_ecam_root_info(
        &self,
        roots: &mut PciRootManager,
        ecam_root_info: EcamRootInfo,
        mapped: Option<usize>,
    )
        requires
            old(roots).wf(),
        ensures
            final(roots).wf(),
            final(roots)@ == (if old(roots)@.contains_key(ecam_root_info.segment_group_number)
                || mapped is None {
                old(roots)@
            } else {
                old(roots)@.insert(
                    ecam_root_info.segment_group_number,
                    PciRoot {
                        ecam_root_info: Some(ecam_root_info),
                        mmio_guard: mapped,
                        cam: PciCam::Ecam,
                        bus_begin: ecam_root_info.bus_begin,
                        bus_end: ecam_root_info.bus_end,
                    },
                )
            }),
    {
        if !roots.has_root(ecam_root_info.segment_group_number) {
            let root = PciRoot::new(
                Some(ecam_root_info),
                PciCam::Ecam,
                ecam_root_info.bus_begin,
                ecam_root_info.bus_end,
                mapped,
            );
            if let Ok(root) = root {
                roots.add_pci_root(root);
            }
        }
    }
}

} // verus!

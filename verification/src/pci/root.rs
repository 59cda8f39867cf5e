//! The roots of the buses, and where the registers of their functions are.

use vstd::prelude::*;
use crate::base::handle_table::{self, HandleTable};
use crate::pci::ecam::EcamRootInfo;
use crate::pci::header::ExternalCapabilityIterator;
use crate::pci::types::{BusDeviceFunction, PciError, SegmentGroupNumber};

verus! {

/// How configuration space is reached.
#[derive(Clone, Copy, Debug, PartialEq, Eq, Structural)]
pub enum PciCam {
    /// Through ports.
    Portiocam,
    /// In memory, 256 bytes for each function.
    MmioCam,
    /// In memory, 4096 bytes for each function.
    Ecam,
}

impl PciCam {
    /// How many bytes each function has.
    pub open spec fn stride(self) -> int {
        match self {
            PciCam::Portiocam => 16,
            PciCam::MmioCam => 256,
            PciCam::Ecam => 4096,
        }
    }
}

/// The bytes that two buses have in memory.
pub const PAGE_2M_SIZE: usize = 0x20_0000;

/// The root of a group of buses.
#[derive(Clone, Copy, Debug, PartialEq, Eq, Structural)]
pub struct PciRoot {
    pub ecam_root_info: Option<EcamRootInfo>,
    /// Where configuration space is mapped.
    pub mmio_guard: Option<usize>,
    /// How configuration space is reached.
    pub cam: PciCam,
    /// The first bus.
    pub bus_begin: u8,
    /// The last bus.
    pub bus_end: u8,
}

/// Where a register of configuration space is.
#[derive(Clone, Copy, Debug, PartialEq, Eq, Structural)]
pub enum ConfigPlace {
    /// In memory, at this address.
    Memory(usize),
    /// Where the processor reaches it by itself, at this offset of the function.
    Processor(u8),
}

proof fn lemma_place(bus: u32, device: u32, function: u32)
    requires
        bus < 256,
        device < 32,
        function < 8,
    ensures
        (bus << 8u32 | device << 3u32 | function) == bus * 256 + device * 8 + function,
{
    assert((bus << 8u32 | device << 3u32 | function) == bus * 256 + device * 8 + function)
        by (bit_vector)
        requires
            bus < 256,
            device < 32,
            function < 8,
    ;
}

proof fn lemma_register(place: u32, register: u32)
    requires
        place < 65536,
    ensures
        register < 16 ==> (place << 4u32 | register) == place * 16 + register,
        register < 256 ==> (place << 8u32 | register) == place * 256 + register,
        register < 4096 ==> (place << 12u32 | register) == place * 4096 + register,
{
    assert({
        &&& register < 16 ==> (place << 4u32 | register) == place * 16 + register
        &&& register < 256 ==> (place << 8u32 | register) == place * 256 + register
        &&& register < 4096 ==> (place << 12u32 | register) == place * 4096 + register
    }) by (bit_vector)
        requires
            place < 65536,
    ;
}

/// The number of a function among those of a group of buses that starts with `bus_begin`.
pub open spec fn function_number(place: BusDeviceFunction, bus_begin: u8) -> int {
    (place.bus - bus_begin) * 256 + place.device * 8 + place.function
}

impl PciRoot {
    /// How many bytes of memory hold the registers of the buses from `bus_begin` to `bus_end`:
    /// each bus has half of a large page, and only whole ones are mapped.
    pub fn map_size(bus_begin: u8, bus_end: u8) -> (r: usize)
        requires
            bus_begin <= bus_end,
        ensures
            r == ((bus_end - bus_begin) / 2 + 1) * PAGE_2M_SIZE,
            r % 0x20_0000 == 0,
            (bus_end - bus_begin + 1) * 0x10_0000 <= r < (bus_end - bus_begin + 1) * 0x10_0000
                + 0x20_0000,
    {
        let bus_number: u32 = (bus_end - bus_begin) as u32 + 1;
        let bus_number_double: u32 = (bus_number - 1) / 2 + 1;
        (bus_number_double as usize) * PAGE_2M_SIZE
    }

    /// The root of a group of buses. `mapped` tells where its configuration space was mapped, if
    /// that succeeded; only one that is in memory is mapped.
    pub fn new(
        ecam_root_info: Option<EcamRootInfo>,
        cam: PciCam,
        bus_begin: u8,
        bus_end: u8,
        mapped: Option<usize>,
    ) -> (r: Result<Self, PciError>)
        ensures
            r == (if ecam_root_info is Some && mapped is None {
                Err(PciError::CreateMmioError)
            } else {
                Ok(
                    PciRoot {
                        ecam_root_info,
                        mmio_guard: if ecam_root_info is Some {
                            mapped
                        } else {
                            None
                        },
                        cam,
                        bus_begin,
                        bus_end,
                    },
                )
            }),
    {
        let mut root = PciRoot { ecam_root_info, mmio_guard: None, cam, bus_begin, bus_end };
        if ecam_root_info.is_some() {
            if mapped.is_none() {
                return Err(PciError::CreateMmioError);
            }
            root.mmio_guard = mapped;
        }
        Ok(root)
    }

    /// Where a register is, from the start of configuration space.
    pub open spec fn spec_cam_offset(
        self,
        bus_device_function: BusDeviceFunction,
        register_offset: u16,
    ) -> u32 {
        let begin = (self.ecam_root_info->0).bus_begin;
        let place = function_number(bus_device_function, begin) as u32;
        match self.cam {
            PciCam::Portiocam => place << 4u32 | register_offset as u32,
            PciCam::MmioCam => place << 8u32 | register_offset as u32,
            PciCam::Ecam => place << 12u32 | register_offset as u32,
        }
    }

    /// Configuration space is in memory, the place can be on one of its buses, and the register
    /// stands at a multiple of four.
    pub open spec fn reaches(
        self,
        bus_device_function: BusDeviceFunction,
        register_offset: u16,
    ) -> bool {
        &&& self.ecam_root_info is Some
        &&& bus_device_function.spec_valid()
        &&& (self.ecam_root_info->0).bus_begin <= bus_device_function.bus
        &&& register_offset % 4 == 0
    }

    /// Where a register is, from the start of configuration space.
    pub fn cam_offset(&self, bus_device_function: BusDeviceFunction, register_offset: u16) -> (r:
        u32)
        requires
            self.reaches(bus_device_function, register_offset),
        ensures
            r == self.spec_cam_offset(bus_device_function, register_offset),
            register_offset < self.cam.stride() ==> r == function_number(
                bus_device_function,
                (self.ecam_root_info->0).bus_begin,
            ) * self.cam.stride() + register_offset,
    {
        let begin: u8 = match self.ecam_root_info {
            Some(info) => info.bus_begin,
            None => 0,
        };
        let bus: u32 = (bus_device_function.bus - begin) as u32;
        let device: u32 = bus_device_function.device as u32;
        let function: u32 = bus_device_function.function as u32;
        let place: u32 = bus << 8u32 | device << 3u32 | function;
        let register: u32 = register_offset as u32;
        proof {
            lemma_place(bus, device, function);
            lemma_register(place, register);
        }
        match self.cam {
            PciCam::Portiocam => place << 4u32 | register,
            PciCam::MmioCam => place << 8u32 | register,
            PciCam::Ecam => place << 12u32 | register,
        }
    }

    /// Where a register of a function is reached.
    pub fn config_place(&self, bus_device_function: BusDeviceFunction, register_offset: u16) -> (r:
        ConfigPlace)
        requires
            self.ecam_root_info is Some ==> self.reaches(bus_device_function, register_offset)
                && self.mmio_guard is Some && self.mmio_guard->0 + self.spec_cam_offset(
                bus_device_function,
                register_offset,
            ) <= usize::MAX,
        ensures
            r == (if self.ecam_root_info is Some {
                ConfigPlace::Memory(
                    (self.mmio_guard->0 + self.spec_cam_offset(
                        bus_device_function,
                        register_offset,
                    )) as usize,
                )
            } else {
                ConfigPlace::Processor(register_offset as u8)
            }),
            self.ecam_root_info matches Some(info) ==> self.cam is Ecam && register_offset < 4096
                ==> (r matches ConfigPlace::Memory(address) && address == self.mmio_guard->0 + (
            bus_device_function.bus - info.bus_begin) * 0x10_0000 + bus_device_function.device
                * 0x8000 + bus_device_function.function * 0x1000 + register_offset),
    {
        proof {
            if self.reaches(bus_device_function, register_offset) {
                law_cam_offset(*self, bus_device_function, register_offset);
            }
        }
        if self.ecam_root_info.is_some() {
            let offset: u32 = self.cam_offset(bus_device_function, register_offset);
            let base: usize = match self.mmio_guard {
                Some(base) => base,
                None => 0,
            };
            ConfigPlace::Memory(base + offset as usize)
        } else {
            ConfigPlace::Processor(register_offset as u8)
        }
    }

    /// A walk along the extended capabilities of a function.
    pub fn external_capabilities(&self, bus_device_function: BusDeviceFunction) -> (r:
        ExternalCapabilityIterator)
        ensures
            r == (ExternalCapabilityIterator {
                bus_device_function,
                next_capability_offset: Some(0x100),
            }),
    {
        ExternalCapabilityIterator { bus_device_function, next_capability_offset: Some(0x100) }
    }

    /// The number by which the root is found: that of its group, or that of its first bus.
    pub open spec fn spec_key(self) -> u16 {
        match self.ecam_root_info {
            Some(info) => info.segment_group_number,
            None => self.bus_begin as u16,
        }
    }
}

/// Where a register is: in memory of the large layout each bus has a mebibyte, each device of a bus
/// 32 kibibytes and each function of a device four; in that of the small layout a sixteenth of
/// each; and through ports sixteen bytes for each function.
pub proof fn law_cam_offset(root: PciRoot, place: BusDeviceFunction, register_offset: u16)
    requires
        root.reaches(place, register_offset),
    ensures
        root.ecam_root_info matches Some(info) && {
            let offset = root.spec_cam_offset(place, register_offset);
            let bus = place.bus - info.bus_begin;
            match root.cam {
                PciCam::Ecam => register_offset < 4096 ==> offset == bus * 0x10_0000 + place.device
                    * 0x8000 + place.function * 0x1000 + register_offset,
                PciCam::MmioCam => register_offset < 256 ==> offset == bus * 0x1_0000 + place.device
                    * 0x800 + place.function * 0x100 + register_offset,
                PciCam::Portiocam => register_offset < 16 ==> offset == bus * 0x1000 + place.device
                    * 0x80 + place.function * 0x10 + register_offset,
            }
        },
{
    let begin = (root.ecam_root_info->0).bus_begin;
    let a = function_number(place, begin);
    assert(0 <= a < 65536);
    lemma_register(a as u32, register_offset as u32);
}

/// No two registers share a place in memory: from where a register is, its function and its offset
/// can be told.
pub proof fn law_cam_offsets_differ(
    root: PciRoot,
    place: BusDeviceFunction,
    register_offset: u16,
    other: BusDeviceFunction,
    other_offset: u16,
)
    requires
        root.reaches(place, register_offset),
        root.reaches(other, other_offset),
        register_offset < root.cam.stride(),
        other_offset < root.cam.stride(),
        root.spec_cam_offset(place, register_offset) == root.spec_cam_offset(other, other_offset),
    ensures
        place == other,
        register_offset == other_offset,
{
    let begin = (root.ecam_root_info->0).bus_begin;
    let a = function_number(place, begin);
    let b = function_number(other, begin);
    assert(0 <= a < 65536 && 0 <= b < 65536);
    lemma_register(a as u32, register_offset as u32);
    lemma_register(b as u32, other_offset as u32);
    let stride = root.cam.stride();
    assert(a * stride + register_offset == b * stride + other_offset);
    assert(a == b);
}

/// The roots of all groups of buses.
#[derive(Debug)]
pub struct PciRootManager {
    table: HandleTable,
    roots: Vec<PciRoot>,
}

impl PciRootManager {
    /// Every entry of the table is the position of a root, and its key is the number of a group.
    pub closed spec fn wf(self) -> bool {
        forall|key: u64|
            #![trigger handle_table::handles(self.table).contains_key(key)]
            handle_table::handles(self.table).contains_key(key) ==> key <= u16::MAX
                && handle_table::handles(self.table)[key] < self.roots@.len()
    }

    /// The roots by the numbers by which they are found.
    pub closed spec fn view(self) -> Map<u16, PciRoot> {
        Map::new(
            |key: u16| handle_table::handles(self.table).contains_key(key as u64),
            |key: u16| self.roots@[handle_table::handles(self.table)[key as u64] as int],
        )
    }

    /// There is no root.
    pub fn new() -> (r: Self)
        ensures
            r.wf(),
            r@ == Map::<u16, PciRoot>::empty(),
    {
        let r = PciRootManager { table: HandleTable::new(), roots: Vec::new() };
        assert(r@ =~= Map::<u16, PciRoot>::empty());
        r
    }

    /// Notes a root. It takes the place of one with the same number.
    pub fn add_pci_root(&mut self, pci_root: PciRoot)
        requires
            old(self).wf(),
        ensures
            final(self).wf(),
            final(self)@ =~= old(self)@.insert(pci_root.spec_key(), pci_root),
    {
        let key: u16 = match pci_root.ecam_root_info {
            Some(info) => info.segment_group_number,
            None => pci_root.bus_begin as u16,
        };
        let at: u64 = self.roots.len() as u64;
        let ghost before = handle_table::handles(self.table);
        self.roots.push(pci_root);
        self.table.insert(key as u64, at);
        proof {
            assert forall|other: u64|
                #![trigger handle_table::handles(self.table).contains_key(other)]
                handle_table::handles(self.table).contains_key(other) implies other <= u16::MAX
                && handle_table::handles(self.table)[other] < self.roots@.len() by {
                if other != key as u64 {
                    assert(before.contains_key(other));
                }
            }
            assert forall|other: u16| #[trigger] self@.contains_key(other) implies self@[other]
                == old(self)@.insert(pci_root.spec_key(), pci_root)[other] by {
                if other != key {
                    assert(before.contains_key(other as u64));
                }
            }
        }
    }

    /// Whether there is a root with this number.
    pub fn has_root(&self, segement_group_number: SegmentGroupNumber) -> (r: bool)
        ensures
            r == self@.contains_key(segement_group_number),
    {
        self.table.get(segement_group_number as u64).is_some()
    }

    /// The root with this number.
    pub fn get_pci_root(&self, segement_group_number: SegmentGroupNumber) -> (r: Option<PciRoot>)
        requires
            self.wf(),
        ensures
            r == (if self@.contains_key(segement_group_number) {
                Some(self@[segement_group_number])
            } else {
                None
            }),
    {
        let count: usize = self.roots.len();
        match self.table.get(segement_group_number as u64) {
            Some(at) => {
                assert(handle_table::handles(self.table).contains_key(
                    segement_group_number as u64,
                ));
                assert(at < count);
                Some(self.roots[at as usize])
            },
            None => None,
        }
    }

    /// All roots, each once. In which order is left open.
    pub fn iter(&self) -> (r: Vec<(SegmentGroupNumber, PciRoot)>)
        requires
            self.wf(),
        ensures
            forall|i: int|
                0 <= i < r@.len() ==> self@.contains_key((#[trigger] r@[i]).0) && self@[r@[i].0]
                    == r@[i].1,
            forall|i: int, j: int|
                0 <= i < j < r@.len() ==> (#[trigger] r@[i]).0 != (#[trigger] r@[j]).0,
            forall|key: u16| #[trigger]
                self@.contains_key(key) ==> exists|i: int|
                    0 <= i < r@.len() && (#[trigger] r@[i]).0 == key,
    {
        let keys: Vec<u64> = self.table.keys();
        let mut all: Vec<(SegmentGroupNumber, PciRoot)> = Vec::new();
        let count: usize = self.roots.len();
        let mut i: usize = 0;
        while i < keys.len()
            invariant
                0 <= i <= keys@.len(),
                self.wf(),
                count == self.roots@.len(),
                keys@.no_duplicates(),
                keys@.to_set() == handle_table::handles(self.table).dom(),
                all@.len() == i,
                forall|k: int|
                    0 <= k < i ==> (#[trigger] all@[k]).0 == keys@[k] && self@.contains_key(
                        all@[k].0,
                    ) && self@[all@[k].0] == all@[k].1,
            decreases keys@.len() - i,
        {
            let key: u64 = keys[i];
            proof {
                assert(keys@.to_set().contains(keys@[i as int]));
                assert(handle_table::handles(self.table).contains_key(key));
            }
            let segment: u16 = key as u16;
            assert(segment as u64 == key);
            match self.table.get(key) {
                Some(at) => {
                    all.push((segment, self.roots[at as usize]));
                },
                None => {},
            }
            i = i + 1;
        }
        proof {
            assert forall|key: u16| #[trigger] self@.contains_key(key) implies exists|i: int|
                0 <= i < all@.len() && (#[trigger] all@[i]).0 == key by {
                assert(keys@.to_set().contains(key as u64));
                let at = choose|at: int| 0 <= at < keys@.len() && keys@[at] == key as u64;
                assert(all@[at].0 == key);
            }
        }
        all
    }
}

/// The root of the first group, which must be there.
pub fn pci_root_0(manager: &PciRootManager) -> (r: PciRoot)
    requires
        manager.wf(),
        manager@.contains_key(0),
    ensures
        r == manager@[0],
{
    manager.get_pci_root(0).unwrap()
}

} // verus!

//! Base address registers: how they are measured, what of them is mapped, and who uses which part.

use vstd::prelude::*;
use crate::base::text;
use crate::base::text::{push_decimal, push_wide_hex};
use crate::pci::types::{BusDeviceFunction, PciError};

verus! {

/// Where the first base address register stands in configuration space.
pub const BAR0_OFFSET: u8 = 0x10;

/// The size of a page.
pub const PAGE_SIZE: usize = 4096;

/// Where a memory region may be placed.
#[derive(Clone, Copy, Debug, PartialEq, Eq, Structural)]
pub enum MemoryBarType {
    /// Anywhere in the space of 32-bit addresses.
    Width32,
    /// Below one mebibyte.
    Below1MiB,
    /// Anywhere in the space of 64-bit addresses.
    Width64,
}

impl MemoryBarType {
    /// The number of the type.
    pub open spec fn spec_number(self) -> u8 {
        match self {
            MemoryBarType::Width32 => 0,
            MemoryBarType::Below1MiB => 1,
            MemoryBarType::Width64 => 2,
        }
    }

    /// The type with a number. There is none above 2.
    pub fn try_from(value: u8) -> (r: Result<Self, PciError>)
        ensures
            match r {
                Ok(t) => t.spec_number() == value,
                Err(e) => value > 2 && e == PciError::InvalidBarType,
            },
    {
        match value {
            0 => Ok(MemoryBarType::Width32),
            1 => Ok(MemoryBarType::Below1MiB),
            2 => Ok(MemoryBarType::Width64),
            _ => Err(PciError::InvalidBarType),
        }
    }
}

impl From<MemoryBarType> for u8 {
    fn from(bar_type: MemoryBarType) -> (r: u8) {
        match bar_type {
            MemoryBarType::Width32 => 0,
            MemoryBarType::Below1MiB => 1,
            MemoryBarType::Width64 => 2,
        }
    }
}

impl vstd::std_specs::convert::FromSpecImpl<MemoryBarType> for u8 {
    open spec fn obeys_from_spec() -> bool {
        true
    }

    open spec fn from_spec(bar_type: MemoryBarType) -> u8 {
        bar_type.spec_number()
    }
}

/// A part of a region that is mapped by itself.
#[derive(Clone, Copy, Debug, PartialEq, Eq, Structural)]
pub struct PciBarMappedRange {
    /// Where the part starts in the region.
    pub offset: u64,
    pub length: u64,
    /// Where the part is mapped.
    pub vaddr: usize,
}

impl PciBarMappedRange {
    /// The bytes from `offset` up to `end` lie in the part.
    pub open spec fn covers(self, offset: int, end: int) -> bool {
        self.offset + self.length <= u64::MAX && self.offset <= offset && end <= self.offset
            + self.length
    }
}

/// What a base address register stands for.
#[allow(inconsistent_fields)]
#[derive(Debug)]
pub enum BarInfo {
    /// A region of memory.
    Memory {
        /// Where the region may be placed.
        address_type: MemoryBarType,
        /// Whether reads have no side effects.
        prefetchable: bool,
        /// Where the region is, for the bus.
        address: u64,
        /// How many bytes the region has.
        size: u64,
        /// Where the whole region is mapped, if it is.
        mmio_guard: Option<usize>,
        /// The parts that are mapped by themselves.
        mapped_ranges: Vec<PciBarMappedRange>,
    },
    /// A range of ports.
    IO {
        address: u32,
        size: u32,
    },
    /// Nothing.
    Unused,
}

/// Where the bytes from `offset` up to `end` are mapped by the first part that covers them, of the
/// parts from number `from` on.
pub open spec fn mapped_at(ranges: Seq<PciBarMappedRange>, offset: int, end: int, from: int) -> Option<
    int,
>
    decreases ranges.len() - from,
{
    if from >= ranges.len() || from < 0 {
        None
    } else if ranges[from].covers(offset, end) {
        Some(ranges[from].vaddr + (offset - ranges[from].offset))
    } else {
        mapped_at(ranges, offset, end, from + 1)
    }
}

/// The words for whether something holds.
pub open spec fn bool_text(holds: bool) -> Seq<char> {
    if holds {
        "true"@
    } else {
        "false"@
    }
}

impl MemoryBarType {
    /// The name of the type.
    pub open spec fn spec_name(self) -> Seq<char> {
        match self {
            MemoryBarType::Width32 => "Width32"@,
            MemoryBarType::Below1MiB => "Below1MiB"@,
            MemoryBarType::Width64 => "Width64"@,
        }
    }

    /// The name of the type.
    pub fn name(&self) -> (r: &'static str)
        ensures
            r@ == self.spec_name(),
    {
        match self {
            MemoryBarType::Width32 => "Width32",
            MemoryBarType::Below1MiB => "Below1MiB",
            MemoryBarType::Width64 => "Width64",
        }
    }
}

impl BarInfo {
    /// What the register stands for in words, where `mmio_guard` are the words for the mapping.
    pub open spec fn spec_text(self, mmio_guard: Seq<char>) -> Seq<char> {
        match self {
            BarInfo::Memory { address_type, prefetchable, address, size, .. } =>
                "Memory space at 0x"@ + text::wide_hex(address as nat, 8) + ", size "@
                + text::number(size as nat, 10) + ", type "@ + address_type.spec_name()
                + ", prefetchable "@ + bool_text(prefetchable) + ", mmio_guard: "@ + mmio_guard,
            BarInfo::IO { address, size } => "I/O space at 0x"@ + text::wide_hex(address as nat, 8)
                + ", size "@ + text::number(size as nat, 10),
            BarInfo::Unused => "Unused bar"@,
        }
    }

    /// What the register stands for in words, where `mmio_guard` are the words for the mapping.
    pub fn text(&self, mmio_guard: &str) -> (r: String)
        ensures
            r@ == self.spec_text(mmio_guard@),
    {
        match self {
            BarInfo::Memory { address_type, prefetchable, address, size, .. } => {
                let mut shown: String = "Memory space at 0x".to_owned();
                push_wide_hex(&mut shown, *address, 8);
                shown.append(", size ");
                push_decimal(&mut shown, *size);
                shown.append(", type ");
                shown.append(address_type.name());
                shown.append(", prefetchable ");
                shown.append(
                    if *prefetchable {
                        "true"
                    } else {
                        "false"
                    },
                );
                shown.append(", mmio_guard: ");
                shown.append(mmio_guard);
                shown
            },
            BarInfo::IO { address, size } => {
                let mut shown: String = "I/O space at 0x".to_owned();
                push_wide_hex(&mut shown, *address as u64, 8);
                shown.append(", size ");
                push_decimal(&mut shown, *size as u64);
                shown
            },
            BarInfo::Unused => "Unused bar".to_owned(),
        }
    }

    /// Everything that is mapped lies in the address space.
    pub open spec fn wf(self) -> bool {
        match self {
            BarInfo::Memory { size, mmio_guard, mapped_ranges, .. } => {
                &&& mmio_guard is Some ==> mmio_guard->0 + size <= usize::MAX
                &&& forall|i: int|
                    #![trigger mapped_ranges@[i]]
                    0 <= i < mapped_ranges@.len() ==> mapped_ranges@[i].vaddr
                        + mapped_ranges@[i].length <= usize::MAX
            },
            _ => true,
        }
    }

    /// The address and the size of a memory region.
    pub open spec fn spec_memory_address_size(self) -> Option<(u64, u64)> {
        match self {
            BarInfo::Memory { address, size, .. } => Some((address, size)),
            _ => None,
        }
    }

    /// Where a memory region is mapped.
    pub open spec fn spec_virtual_address(self) -> Option<usize> {
        match self {
            BarInfo::Memory { mmio_guard, .. } => mmio_guard,
            _ => None,
        }
    }

    /// Where the `length` bytes at `offset` of the region are mapped.
    pub open spec fn spec_virtual_address_at(self, offset: int, length: int) -> Option<int> {
        match self {
            BarInfo::Memory { size, mmio_guard, mapped_ranges, .. } => {
                if offset + length > size {
                    None
                } else if mmio_guard is Some {
                    Some(mmio_guard->0 + offset)
                } else {
                    mapped_at(mapped_ranges@, offset, offset + length, 0)
                }
            },
            _ => None,
        }
    }

    /// The address and the size of a memory region, nothing for ports.
    pub fn memory_address_size(&self) -> (r: Option<(u64, u64)>)
        ensures
            r == self.spec_memory_address_size(),
    {
        match self {
            BarInfo::Memory { address, size, .. } => Some((*address, *size)),
            _ => None,
        }
    }

    /// Where the whole region is mapped, nothing for ports or if only parts are mapped.
    pub fn virtual_address(&self) -> (r: Option<usize>)
        ensures
            r == self.spec_virtual_address(),
    {
        match self {
            BarInfo::Memory { mmio_guard, .. } => *mmio_guard,
            _ => None,
        }
    }

    /// Where `length` bytes at `offset` of the region are mapped, if they are mapped in one piece.
    #[verifier::loop_isolation(false)]
    pub fn virtual_address_at(&self, offset: u64, length: usize) -> (r: Option<usize>)
        requires
            self.wf(),
        ensures
            match r {
                Some(v) => self.spec_virtual_address_at(offset as int, length as int) == Some(
                    v as int,
                ),
                None => self.spec_virtual_address_at(offset as int, length as int) is None,
            },
            self matches BarInfo::Memory { size, mmio_guard: Some(start), .. } ==> (r is Some <==> offset
                + length <= *size) && (r matches Some(v) ==> v - *start == offset),
            !(self is Memory) ==> r is None,
    {
        match self {
            BarInfo::Memory { size, mmio_guard, mapped_ranges, .. } => {
                let length: u64 = length as u64;
                if length > *size || offset > *size - length {
                    return None;
                }
                let end: u64 = offset + length;
                if let Some(vaddr) = mmio_guard {
                    return Some(*vaddr + offset as usize);
                }
                let mut i: usize = 0;
                while i < mapped_ranges.len()
                    invariant
                        0 <= i <= mapped_ranges@.len(),
                        mapped_at(mapped_ranges@, offset as int, end as int, 0) == mapped_at(
                            mapped_ranges@,
                            offset as int,
                            end as int,
                            i as int,
                        ),
                    decreases mapped_ranges@.len() - i,
                {
                    let range: PciBarMappedRange = mapped_ranges[i];
                    if range.offset <= offset && range.length <= u64::MAX - range.offset && end
                        <= range.offset + range.length {
                        return Some(range.vaddr + (offset - range.offset) as usize);
                    }
                    i = i + 1;
                }
                None
            },
            _ => None,
        }
    }
}

/// A demand that a part of a region be mapped.
#[derive(Clone, Copy, Debug, PartialEq, Eq, Structural)]
pub struct PciBarMappingRequest {
    pub bar: u8,
    pub offset: u64,
    pub length: u64,
}

impl PciBarMappingRequest {
    /// The part is not empty and lies in a region of `size` bytes.
    pub open spec fn fits(self, size: u64) -> bool {
        self.length != 0 && self.offset + self.length <= size
    }
}

/// Some request is for this register.
pub open spec fn requested(requests: Seq<PciBarMappingRequest>, bar: u8) -> bool {
    exists|i: int| 0 <= i < requests.len() && (#[trigger] requests[i]).bar == bar
}

/// Whether a region that has no address is nevertheless demanded.
pub fn unallocated_bar_has_required_mapping(
    address: u64,
    bar: u8,
    required_mappings: &[PciBarMappingRequest],
) -> (r: bool)
    ensures
        r == (address == 0 && requested(required_mappings@, bar)),
{
    if address != 0 {
        return false;
    }
    let mut i: usize = 0;
    while i < required_mappings.len()
        invariant
            0 <= i <= required_mappings@.len(),
            address == 0,
            forall|j: int| 0 <= j < i ==> (#[trigger] required_mappings@[j]).bar != bar,
        decreases required_mappings@.len() - i,
    {
        if required_mappings[i].bar == bar {
            assert(required_mappings@[i as int].bar == bar);
            return true;
        }
        i = i + 1;
    }
    false
}

/// What the six registers of an ordinary device stand for.
#[derive(Debug)]
pub struct PciStandardDeviceBar {
    pub bar0: BarInfo,
    pub bar1: BarInfo,
    pub bar2: BarInfo,
    pub bar3: BarInfo,
    pub bar4: BarInfo,
    pub bar5: BarInfo,
}

/// What the registers of a device stand for.
pub trait PciDeviceBar {

}

impl PciDeviceBar for PciStandardDeviceBar {

}

impl Default for PciStandardDeviceBar {
    /// Registers that stand for nothing.
    fn default() -> (r: Self)
        ensures
            r == PciStandardDeviceBar::unused(),
    {
        PciStandardDeviceBar {
            bar0: BarInfo::Unused,
            bar1: BarInfo::Unused,
            bar2: BarInfo::Unused,
            bar3: BarInfo::Unused,
            bar4: BarInfo::Unused,
            bar5: BarInfo::Unused,
        }
    }
}

impl PciStandardDeviceBar {
    /// Registers that stand for nothing.
    pub open spec fn unused() -> Self {
        PciStandardDeviceBar {
            bar0: BarInfo::Unused,
            bar1: BarInfo::Unused,
            bar2: BarInfo::Unused,
            bar3: BarInfo::Unused,
            bar4: BarInfo::Unused,
            bar5: BarInfo::Unused,
        }
    }

    /// The registers in order.
    pub open spec fn view(self) -> Seq<BarInfo> {
        seq![self.bar0, self.bar1, self.bar2, self.bar3, self.bar4, self.bar5]
    }

    /// What the registers stand for in words, where `mmio_guards` are the words for the mappings.
    pub fn text(&self, mmio_guards: &[&str; 6]) -> (r: String)
        ensures
            r@ == "\r\nBar0:"@ + self.bar0.spec_text(mmio_guards@[0]@) + "\r\nBar1:"@
                + self.bar1.spec_text(mmio_guards@[1]@) + "\r\nBar2:"@ + self.bar2.spec_text(
                mmio_guards@[2]@,
            ) + "\r\nBar3:"@ + self.bar3.spec_text(mmio_guards@[3]@) + "\r\nBar4:"@
                + self.bar4.spec_text(mmio_guards@[4]@) + "\r\nBar5:"@ + self.bar5.spec_text(
                mmio_guards@[5]@,
            ),
    {
        let mut shown: String = "\r\nBar0:".to_owned();
        shown.append(self.bar0.text(mmio_guards[0]).as_str());
        shown.append("\r\nBar1:");
        shown.append(self.bar1.text(mmio_guards[1]).as_str());
        shown.append("\r\nBar2:");
        shown.append(self.bar2.text(mmio_guards[2]).as_str());
        shown.append("\r\nBar3:");
        shown.append(self.bar3.text(mmio_guards[3]).as_str());
        shown.append("\r\nBar4:");
        shown.append(self.bar4.text(mmio_guards[4]).as_str());
        shown.append("\r\nBar5:");
        shown.append(self.bar5.text(mmio_guards[5]).as_str());
        shown
    }

    /// What a register stands for. There are six of them.
    pub fn get_bar(&self, bar_index: u8) -> (r: Result<&BarInfo, PciError>)
        ensures
            match r {
                Ok(info) => bar_index < 6 && *info == self@[bar_index as int],
                Err(e) => bar_index >= 6 && e == PciError::InvalidBarType,
            },
    {
        match bar_index {
            0 => Ok(&self.bar0),
            1 => Ok(&self.bar1),
            2 => Ok(&self.bar2),
            3 => Ok(&self.bar3),
            4 => Ok(&self.bar4),
            5 => Ok(&self.bar5),
            _ => Err(PciError::InvalidBarType),
        }
    }

    /// Notes what a register stands for.
    pub fn set_bar(&mut self, bar_index: u8, info: BarInfo)
        requires
            bar_index < 6,
        ensures
            final(self)@ =~= old(self)@.update(bar_index as int, info),
    {
        match bar_index {
            0 => self.bar0 = info,
            1 => self.bar1 = info,
            2 => self.bar2 = info,
            3 => self.bar3 = info,
            4 => self.bar4 = info,
            _ => self.bar5 = info,
        }
    }
}

/// A part of a region that somebody uses.
#[derive(Clone, Copy, Debug, PartialEq, Eq, Structural)]
pub struct PciBarSubresource {
    pub bdf: BusDeviceFunction,
    pub bar: u8,
    pub offset: u64,
    pub length: u64,
    pub physical_start: u64,
}

impl PciBarSubresource {
    /// The address behind the part.
    pub open spec fn end(self) -> int {
        self.physical_start + self.length
    }

    /// The two parts share an address.
    pub open spec fn overlaps(self, other: Self) -> bool {
        self.physical_start < other.end() && other.physical_start < self.end()
    }
}

/// The parts of regions that are in use.
#[derive(Debug)]
pub struct PciBarSubresources {
    resources: Vec<PciBarSubresource>,
}

impl PciBarSubresources {
    /// The parts, in the order in which they were taken.
    pub closed spec fn view(self) -> Seq<PciBarSubresource> {
        self.resources@
    }

    /// No part wraps round, and no two share an address.
    pub open spec fn wf(self) -> bool {
        &&& forall|i: int| 0 <= i < self@.len() ==> (#[trigger] self@[i]).end() <= u64::MAX
        &&& forall|i: int, j: int|
            0 <= i < j < self@.len() ==> !(#[trigger] self@[i]).overlaps(#[trigger] self@[j])
    }

    /// Some part in use shares an address with this one.
    pub open spec fn taken(self, resource: PciBarSubresource) -> bool {
        exists|i: int| 0 <= i < self@.len() && resource.overlaps(#[trigger] self@[i])
    }

    /// No part is in use.
    pub fn new() -> (r: Self)
        ensures
            r@ == Seq::<PciBarSubresource>::empty(),
            r.wf(),
    {
        PciBarSubresources { resources: Vec::new() }
    }
}

/// The right to use a part of a region.
#[derive(Clone, Copy, Debug, PartialEq, Eq, Structural)]
pub struct PciBarSubresourceGuard {
    resource: PciBarSubresource,
}

impl PciBarSubresourceGuard {
    /// The part.
    pub closed spec fn view(self) -> PciBarSubresource {
        self.resource
    }

    /// Why `length` bytes at `offset` of a register cannot be taken, whoever uses what.
    pub open spec fn refusal(bars: PciStandardDeviceBar, bar: u8, offset: u64, length: u64) -> Option<
        PciError,
    > {
        if length == 0 || offset + length > u64::MAX {
            Some(PciError::InvalidBarRange)
        } else if bar >= 6 || bars@[bar as int].spec_memory_address_size() is None {
            Some(PciError::InvalidBarType)
        } else if offset + length > (bars@[bar as int].spec_memory_address_size()->0).1 {
            Some(PciError::InvalidBarRange)
        } else {
            None
        }
    }

    /// Takes `length` bytes at `offset` of a register of a device. The bytes must lie in a memory
    /// region, and nobody may use one of them. `room` says whether memory was left to note it.
    pub fn reserve(
        resources: &mut PciBarSubresources,
        bdf: BusDeviceFunction,
        bars: &PciStandardDeviceBar,
        bar: u8,
        offset: u64,
        length: u64,
        physical_start: u64,
        room: bool,
    ) -> (r: Result<Self, PciError>)
        requires
            old(resources).wf(),
        ensures
            final(resources).wf(),
            ({
                let resource = PciBarSubresource { bdf, bar, offset, length, physical_start };
                let refusal = Self::refusal(*bars, bar, offset, length);
                match r {
                    Ok(guard) => {
                        &&& refusal is None
                        &&& resource.end() <= u64::MAX
                        &&& !old(resources).taken(resource)
                        &&& room
                        &&& guard@ == resource
                        &&& final(resources)@ == old(resources)@.push(resource)
                    },
                    Err(e) => {
                        &&& final(resources)@ == old(resources)@
                        &&& if refusal is Some {
                            e == refusal->0
                        } else if resource.end() > u64::MAX || old(resources).taken(resource) {
                            e == PciError::InvalidBarRange
                        } else {
                            !room && e == PciError::CreateMmioError
                        }
                    },
                }
            }),
    {
        if length == 0 || length > u64::MAX - offset {
            return Err(PciError::InvalidBarRange);
        }
        let end: u64 = offset + length;
        let info: &BarInfo = match bars.get_bar(bar) {
            Ok(info) => info,
            Err(e) => return Err(e),
        };
        let bar_size: u64 = match info.memory_address_size() {
            Some(region) => region.1,
            None => return Err(PciError::InvalidBarType),
        };
        if end > bar_size {
            return Err(PciError::InvalidBarRange);
        }
        let resource = PciBarSubresource { bdf, bar, offset, length, physical_start };
        if length > u64::MAX - physical_start {
            return Err(PciError::InvalidBarRange);
        }
        let physical_end: u64 = physical_start + length;
        let mut i: usize = 0;
        while i < resources.resources.len()
            invariant
                0 <= i <= resources@.len(),
                *resources == *old(resources),
                resources.wf(),
                resource.end() <= u64::MAX,
                physical_end == resource.end(),
                physical_start == resource.physical_start,
                PciBarSubresourceGuard::refusal(*bars, bar, offset, length) is None,
                resource == (PciBarSubresource { bdf, bar, offset, length, physical_start }),
                forall|j: int| 0 <= j < i ==> !resource.overlaps(#[trigger] resources@[j]),
            decreases resources@.len() - i,
        {
            let existing: PciBarSubresource = resources.resources[i];
            assert(existing == resources@[i as int]);
            if physical_start < existing.physical_start + existing.length
                && existing.physical_start < physical_end {
                assert(resource.overlaps(resources@[i as int]));
                return Err(PciError::InvalidBarRange);
            }
            i = i + 1;
        }
        if !room {
            return Err(PciError::CreateMmioError);
        }
        resources.resources.push(resource);
        Ok(PciBarSubresourceGuard { resource })
    }

    /// Gives the part back.
    pub fn release(self, resources: &mut PciBarSubresources)
        requires
            old(resources).wf(),
        ensures
            final(resources).wf(),
            final(resources)@ == (if old(resources)@.contains(self@) {
                old(resources)@.remove(old(resources)@.index_of_first(self@)->0)
            } else {
                old(resources)@
            }),
    {
        broadcast use vstd::seq_lib::group_seq_properties;

        let mut i: usize = 0;
        while i < resources.resources.len()
            invariant
                0 <= i <= resources@.len(),
                *resources == *old(resources),
                resources.wf(),
                forall|j: int| 0 <= j < i ==> (#[trigger] resources@[j]) != self@,
            decreases resources@.len() - i,
        {
            if resources.resources[i] == self.resource {
                proof {
                    resources@.index_of_first_ensures(self@);
                    let first = resources@.index_of_first(self@);
                    assert(resources@.contains(self@)) by {
                        assert(resources@[i as int] == self@);
                    }
                    assert(first == Some(i as int));
                }
                let removed = resources.resources.remove(i);
                return;
            }
            i = i + 1;
        }
    }
}

/// Whoever uses what, two holders of a right to a part never share an address: what is in use
/// stays disjoint when parts are taken and given back.
pub proof fn law_subresources_disjoint(resources: PciBarSubresources, i: int, j: int, address: int)
    requires
        resources.wf(),
        0 <= i < resources@.len(),
        0 <= j < resources@.len(),
        resources@[i].physical_start <= address < resources@[i].end(),
        resources@[j].physical_start <= address < resources@[j].end(),
    ensures
        i == j,
{
    if i < j {
        assert(!resources@[i].overlaps(resources@[j]));
    } else if j < i {
        assert(!resources@[j].overlaps(resources@[i]));
    }
}

/// Giving back the right to a part that was just taken leaves in use what was in use before.
pub proof fn law_release_undoes_reserve(resources: PciBarSubresources, resource: PciBarSubresource)
    requires
        resource.length > 0,
        !resources.taken(resource),
    ensures
        ({
            let held = resources@.push(resource);
            held.contains(resource) && held.remove(held.index_of_first(resource)->0) == resources@
        }),
{
    let held = resources@.push(resource);
    let last = resources@.len() as int;
    assert(held[last] == resource);
    held.index_of_first_ensures(resource);
    let first = held.index_of_first(resource)->0;
    if first < last {
        assert(resource.overlaps(resources@[first]));
    }
    assert(held.remove(last) =~= resources@);
}

/// Bytes of a region are reached only if they lie in it. If the whole region is mapped, they are as
/// far behind the start of the mapping as they are behind the start of the region. Otherwise they
/// are found in the first part that holds all of them, as far behind its start there as here; and
/// if no part holds all of them, they are not found.
pub proof fn law_virtual_address(info: BarInfo, offset: int, length: int)
    requires
        0 <= offset,
        0 <= length,
    ensures
        match (info, info.spec_virtual_address_at(offset, length)) {
            (BarInfo::Memory { size, mmio_guard: Some(start), .. }, found) => {
                if offset + length <= size {
                    found == Some(start + offset)
                } else {
                    found is None
                }
            },
            (BarInfo::Memory { size, mmio_guard: None, mapped_ranges, .. }, Some(found)) => {
                &&& offset + length <= size
                &&& exists|i: int|
                    #![trigger mapped_ranges@[i]]
                    0 <= i < mapped_ranges@.len() && {
                        let part = mapped_ranges@[i];
                        &&& part.offset <= offset
                        &&& offset + length <= part.offset + part.length
                        &&& found - part.vaddr == offset - part.offset
                        &&& forall|j: int|
                            0 <= j < i ==> {
                                let earlier = #[trigger] mapped_ranges@[j];
                                ||| offset < earlier.offset
                                ||| earlier.offset + earlier.length < offset + length
                                ||| earlier.offset + earlier.length > u64::MAX
                            }
                    }
            },
            (BarInfo::Memory { size, mmio_guard: None, mapped_ranges, .. }, None) => {
                offset + length <= size ==> forall|i: int|
                    0 <= i < mapped_ranges@.len() ==> {
                        let part = #[trigger] mapped_ranges@[i];
                        ||| offset < part.offset
                        ||| part.offset + part.length < offset + length
                        ||| part.offset + part.length > u64::MAX
                    }
            },
            (_, found) => found is None,
        },
{
    if let BarInfo::Memory { size, mmio_guard, mapped_ranges, .. } = info {
        if offset + length <= size && mmio_guard is None {
            lemma_mapped_at(mapped_ranges@, offset, offset + length, 0);
            if info.spec_virtual_address_at(offset, length) is None {
                assert forall|i: int| 0 <= i < mapped_ranges@.len() implies {
                    let part = #[trigger] mapped_ranges@[i];
                    ||| offset < part.offset
                    ||| part.offset + part.length < offset + length
                    ||| part.offset + part.length > u64::MAX
                } by {
                    assert(!mapped_ranges@[i].covers(offset, offset + length));
                }
            } else {
                let i = choose|i: int|
                    #![trigger mapped_ranges@[i]]
                    0 <= i < mapped_ranges@.len() && mapped_ranges@[i].covers(
                        offset,
                        offset + length,
                    ) && info.spec_virtual_address_at(offset, length) == Some(
                        mapped_ranges@[i].vaddr + (offset - mapped_ranges@[i].offset),
                    ) && forall|j: int|
                        0 <= j < i ==> !(#[trigger] mapped_ranges@[j]).covers(
                            offset,
                            offset + length,
                        );
                assert forall|j: int| 0 <= j < i implies {
                    let earlier = #[trigger] mapped_ranges@[j];
                    ||| offset < earlier.offset
                    ||| earlier.offset + earlier.length < offset + length
                    ||| earlier.offset + earlier.length > u64::MAX
                } by {
                    assert(!mapped_ranges@[j].covers(offset, offset + length));
                }
            }
        }
    }
}

proof fn lemma_mapped_at(ranges: Seq<PciBarMappedRange>, offset: int, end: int, from: int)
    requires
        0 <= from <= ranges.len(),
    ensures
        match mapped_at(ranges, offset, end, from) {
            Some(v) => exists|i: int|
                #![trigger ranges[i]]
                from <= i < ranges.len() && ranges[i].covers(offset, end) && v == ranges[i].vaddr + (
                offset - ranges[i].offset) && forall|j: int|
                    from <= j < i ==> !(#[trigger] ranges[j]).covers(offset, end),
            None => forall|i: int|
                from <= i < ranges.len() ==> !(#[trigger] ranges[i]).covers(offset, end),
        },
    decreases ranges.len() - from,
{
    if from < ranges.len() && !ranges[from].covers(offset, end) {
        lemma_mapped_at(ranges, offset, end, from + 1);
        if mapped_at(ranges, offset, end, from + 1) is Some {
            let i = choose|i: int|
                #![trigger ranges[i]]
                from + 1 <= i < ranges.len() && ranges[i].covers(offset, end) && mapped_at(
                    ranges,
                    offset,
                    end,
                    from + 1,
                ) == Some(ranges[i].vaddr + (offset - ranges[i].offset)) && forall|j: int|
                    from + 1 <= j < i ==> !(#[trigger] ranges[j]).covers(offset, end);
            assert(forall|j: int|
                from <= j < i ==> !(#[trigger] ranges[j]).covers(offset, end));
        }
    } else if from < ranges.len() {
        assert(ranges[from].covers(offset, end));
    }
}

/// A part is taken exactly if some address of it belongs to a part in use: two parts that only touch
/// do not stand in each other's way.
pub proof fn law_taken(resources: PciBarSubresources, resource: PciBarSubresource)
    requires
        resource.length > 0,
        forall|i: int| 0 <= i < resources@.len() ==> (#[trigger] resources@[i]).length > 0,
    ensures
        resources.taken(resource) <==> exists|i: int, address: int|
            #![trigger resources@[i], shares(resource, address)]
            0 <= i < resources@.len() && shares(resource, address) && shares(
                resources@[i],
                address,
            ),
{
    if resources.taken(resource) {
        let i = choose|i: int| 0 <= i < resources@.len() && resource.overlaps(
            #[trigger] resources@[i],
        );
        let address = if resource.physical_start < resources@[i].physical_start {
            resources@[i].physical_start as int
        } else {
            resource.physical_start as int
        };
        assert(shares(resource, address) && shares(resources@[i], address));
    }
    if exists|i: int, address: int|
        #![trigger resources@[i], shares(resource, address)]
        0 <= i < resources@.len() && shares(resource, address) && shares(resources@[i], address) {
        let (i, address) = choose|i: int, address: int|
            #![trigger resources@[i], shares(resource, address)]
            0 <= i < resources@.len() && shares(resource, address) && shares(
                resources@[i],
                address,
            );
        assert(resource.overlaps(resources@[i]));
    }
}

/// An address belongs to a part.
pub open spec fn shares(resource: PciBarSubresource, address: int) -> bool {
    resource.physical_start <= address < resource.physical_start + resource.length
}

/// What of a register can be taken at all: at least one byte, and only bytes of a memory region.
pub proof fn law_refusal(bars: PciStandardDeviceBar, bar: u8, offset: u64, length: u64)
    ensures
        ({
            let region = match bar {
                0 => bars.bar0,
                1 => bars.bar1,
                2 => bars.bar2,
                3 => bars.bar3,
                4 => bars.bar4,
                5 => bars.bar5,
                _ => BarInfo::Unused,
            };
            match PciBarSubresourceGuard::refusal(bars, bar, offset, length) {
                None => {
                    &&& bar < 6
                    &&& length > 0
                    &&& region matches BarInfo::Memory { size, .. } && offset + length <= size
                },
                Some(PciError::InvalidBarType) => {
                    &&& length > 0
                    &&& offset + length <= u64::MAX
                    &&& bar >= 6 || !(region is Memory)
                },
                Some(e) => {
                    &&& e == PciError::InvalidBarRange
                    &&& length == 0 || offset + length > u64::MAX || (
                    region matches BarInfo::Memory { size, .. } && offset + length > size)
                },
            }
        }),
{
}

} // verus!

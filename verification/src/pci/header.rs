//! The headers of functions in configuration space.

use vstd::prelude::*;
use crate::pci::bar::PciStandardDeviceBar;
use crate::pci::types::{BusDeviceFunction, Command, ConfigWrite, HeaderType, IrqNumber};
use crate::pci::types::{PciError, Status};
use crate::pci::types::{COMMAND_FLAGS, STATUS_CAPABILITIES_LIST, STATUS_COMMAND_OFFSET};
use crate::pci::types::{STATUS_FLAGS, PCI_CAP_ID_MSI, PCI_CAP_ID_MSIX};

verus! {

/// How many registers of four bytes a header has at most.
pub const HEADER_REGISTERS: usize = 18;

/// How a function asks for attention.
#[allow(inconsistent_fields)]
#[derive(Clone, Copy, Debug, PartialEq, Eq, Structural)]
pub enum IrqType {
    /// By a message that configuration space describes.
    Msi {
        address_64: bool,
        maskable: bool,
        irq_max_num: u16,
        cap_offset: u8,
    },
    /// By one of several messages that a table in memory describes.
    Msix {
        msix_table_bar: u8,
        msix_table_offset: u32,
        pending_table_bar: u8,
        pending_table_offset: u32,
        irq_max_num: u16,
        cap_offset: u8,
    },
    /// By a wire.
    Legacy,
    /// Not at all so far.
    Unused,
}

/// What every header starts with.
#[derive(Clone, Copy, Debug, PartialEq, Eq, Structural)]
pub struct PciDeviceStructureHeader {
    /// Where the function is.
    pub bus_device_function: BusDeviceFunction,
    pub vendor_id: u16,
    pub device_id: u16,
    pub command: u16,
    pub status: u16,
    pub revision_id: u8,
    pub prog_if: u8,
    pub subclass: u8,
    pub class_code: u8,
    pub cache_line_size: u8,
    pub latency_timer: u8,
    pub header_type: u8,
    pub bist: u8,
}

/// The header of an ordinary device, and how the device is used.
#[derive(Debug)]
pub struct PciDeviceStructureGeneralDevice {
    pub common_header: PciDeviceStructureHeader,
    /// How the device asks for attention.
    pub irq_type: IrqType,
    /// The interrupts that it raises.
    pub irq_vector: Vec<IrqNumber>,
    pub standard_device_bar: PciStandardDeviceBar,
    pub cardbus_cis_pointer: u32,
    pub subsystem_vendor_id: u16,
    pub subsystem_id: u16,
    pub expansion_rom_base_address: u32,
    pub capabilities_pointer: u8,
    pub reserved0: u8,
    pub reserved1: u16,
    pub reserved2: u32,
    pub interrupt_line: u8,
    pub interrupt_pin: u8,
    pub min_grant: u8,
    pub max_latency: u8,
}

/// The header of a bridge to another PCI bus.
#[derive(Debug)]
pub struct PciDeviceStructurePciToPciBridge {
    pub common_header: PciDeviceStructureHeader,
    /// How the bridge asks for attention.
    pub irq_type: IrqType,
    /// The interrupts that it raises.
    pub irq_vector: Vec<IrqNumber>,
    pub bar0: u32,
    pub bar1: u32,
    pub primary_bus_number: u8,
    pub secondary_bus_number: u8,
    pub subordinate_bus_number: u8,
    pub secondary_latency_timer: u8,
    pub io_base: u8,
    pub io_limit: u8,
    pub secondary_status: u16,
    pub memory_base: u16,
    pub memory_limit: u16,
    pub prefetchable_memory_base: u16,
    pub prefetchable_memory_limit: u16,
    pub prefetchable_base_upper_32_bits: u32,
    pub prefetchable_limit_upper_32_bits: u32,
    pub io_base_upper_16_bits: u16,
    pub io_limit_upper_16_bits: u16,
    pub capability_pointer: u8,
    pub reserved0: u8,
    pub reserved1: u16,
    pub expansion_rom_base_address: u32,
    pub interrupt_line: u8,
    pub interrupt_pin: u8,
    pub bridge_control: u16,
}

/// The header of a bridge to a CardBus bus.
#[derive(Debug)]
pub struct PciDeviceStructurePciToCardbusBridge {
    pub common_header: PciDeviceStructureHeader,
    pub cardbus_socket_ex_ca_base_address: u32,
    pub offset_of_capabilities_list: u8,
    pub reserved: u8,
    pub secondary_status: u16,
    pub pci_bus_number: u8,
    pub card_bus_bus_number: u8,
    pub subordinate_bus_number: u8,
    pub card_bus_latency_timer: u8,
    pub memory_base_address0: u32,
    pub memory_limit0: u32,
    pub memory_base_address1: u32,
    pub memory_limit1: u32,
    pub io_base_address0: u32,
    pub io_limit0: u32,
    pub io_base_address1: u32,
    pub io_limit1: u32,
    pub interrupt_line: u8,
    pub interrupt_pin: u8,
    pub bridge_control: u16,
    pub subsystem_device_id: u16,
    pub subsystem_vendor_id: u16,
    pub pc_card_legacy_mode_base_address_16_bit: u32,
}

/// What every header starts with, as the registers hold it.
pub open spec fn spec_common_header(bus_device_function: BusDeviceFunction, regs: Seq<u32>) -> PciDeviceStructureHeader {
    PciDeviceStructureHeader {
        bus_device_function,
        vendor_id: regs[0] as u16,
        device_id: (regs[0] >> 16u32) as u16,
        command: regs[1] as u16,
        status: (regs[1] >> 16u32) as u16,
        revision_id: regs[2] as u8,
        prog_if: (regs[2] >> 8u32) as u8,
        subclass: (regs[2] >> 16u32) as u8,
        class_code: (regs[2] >> 24u32) as u8,
        cache_line_size: regs[3] as u8,
        latency_timer: (regs[3] >> 8u32) as u8,
        header_type: (regs[3] >> 16u32) as u8,
        bist: (regs[3] >> 24u32) as u8,
    }
}

/// The device is as the registers tell, and not in use yet.
pub open spec fn is_general_device(
    r: PciDeviceStructureGeneralDevice,
    common_header: PciDeviceStructureHeader,
    regs: Seq<u32>,
) -> bool {
    &&& r.common_header == common_header
    &&& r.irq_type == IrqType::Unused
    &&& r.irq_vector@.len() == 0
    &&& r.standard_device_bar == PciStandardDeviceBar::unused()
    &&& r.cardbus_cis_pointer == regs[10]
    &&& r.subsystem_vendor_id == regs[11] as u16
    &&& r.subsystem_id == (regs[11] >> 16u32) as u16
    &&& r.expansion_rom_base_address == regs[12]
    &&& r.capabilities_pointer == regs[13] as u8
    &&& r.reserved0 == (regs[13] >> 8u32) as u8
    &&& r.reserved1 == (regs[13] >> 16u32) as u16
    &&& r.reserved2 == regs[14]
    &&& r.interrupt_line == regs[15] as u8
    &&& r.interrupt_pin == (regs[15] >> 8u32) as u8
    &&& r.min_grant == (regs[15] >> 16u32) as u8
    &&& r.max_latency == (regs[15] >> 24u32) as u8
}

/// The bridge is as the registers tell, and not in use yet.
pub open spec fn is_pci_bridge(
    r: PciDeviceStructurePciToPciBridge,
    common_header: PciDeviceStructureHeader,
    regs: Seq<u32>,
) -> bool {
    &&& r.common_header == common_header
    &&& r.irq_type == IrqType::Unused
    &&& r.irq_vector@.len() == 0
    &&& r.bar0 == regs[4]
    &&& r.bar1 == regs[5]
    &&& r.primary_bus_number == regs[6] as u8
    &&& r.secondary_bus_number == (regs[6] >> 8u32) as u8
    &&& r.subordinate_bus_number == (regs[6] >> 16u32) as u8
    &&& r.secondary_latency_timer == (regs[6] >> 24u32) as u8
    &&& r.io_base == regs[7] as u8
    &&& r.io_limit == (regs[7] >> 8u32) as u8
    &&& r.secondary_status == (regs[7] >> 16u32) as u16
    &&& r.memory_base == regs[8] as u16
    &&& r.memory_limit == (regs[8] >> 16u32) as u16
    &&& r.prefetchable_memory_base == regs[9] as u16
    &&& r.prefetchable_memory_limit == (regs[9] >> 16u32) as u16
    &&& r.prefetchable_base_upper_32_bits == regs[10]
    &&& r.prefetchable_limit_upper_32_bits == regs[11]
    &&& r.io_base_upper_16_bits == regs[12] as u16
    &&& r.io_limit_upper_16_bits == (regs[12] >> 16u32) as u16
    &&& r.capability_pointer == regs[13] as u8
    &&& r.reserved0 == (regs[13] >> 8u32) as u8
    &&& r.reserved1 == (regs[13] >> 16u32) as u16
    &&& r.expansion_rom_base_address == regs[14]
    &&& r.interrupt_line == regs[15] as u8
    &&& r.interrupt_pin == (regs[15] >> 8u32) as u8
    &&& r.bridge_control == (regs[15] >> 16u32) as u16
}

/// The bridge is as the registers tell.
pub open spec fn is_cardbus_bridge(
    r: PciDeviceStructurePciToCardbusBridge,
    common_header: PciDeviceStructureHeader,
    regs: Seq<u32>,
) -> bool {
    &&& r.common_header == common_header
    &&& r.cardbus_socket_ex_ca_base_address == regs[4]
    &&& r.offset_of_capabilities_list == regs[5] as u8
    &&& r.reserved == (regs[5] >> 8u32) as u8
    &&& r.secondary_status == (regs[5] >> 16u32) as u16
    &&& r.pci_bus_number == regs[6] as u8
    &&& r.card_bus_bus_number == (regs[6] >> 8u32) as u8
    &&& r.subordinate_bus_number == (regs[6] >> 16u32) as u8
    &&& r.card_bus_latency_timer == (regs[6] >> 24u32) as u8
    &&& r.memory_base_address0 == regs[7]
    &&& r.memory_limit0 == regs[8]
    &&& r.memory_base_address1 == regs[9]
    &&& r.memory_limit1 == regs[10]
    &&& r.io_base_address0 == regs[11]
    &&& r.io_limit0 == regs[12]
    &&& r.io_base_address1 == regs[13]
    &&& r.io_limit1 == regs[14]
    &&& r.interrupt_line == regs[15] as u8
    &&& r.interrupt_pin == (regs[15] >> 8u32) as u8
    &&& r.bridge_control == (regs[15] >> 16u32) as u16
    &&& r.subsystem_device_id == regs[16] as u16
    &&& r.subsystem_vendor_id == (regs[16] >> 16u32) as u16
    &&& r.pc_card_legacy_mode_base_address_16_bit == regs[17]
}

/// Reads what an ordinary device has beyond what every header starts with.
fn pci_read_general_device_header(
    common_header: PciDeviceStructureHeader,
    regs: &[u32],
) -> (r: PciDeviceStructureGeneralDevice)
    requires
        regs@.len() == HEADER_REGISTERS,
    ensures
        is_general_device(r, common_header, regs@),
{
    PciDeviceStructureGeneralDevice {
        common_header,
        irq_type: IrqType::Unused,
        irq_vector: Vec::new(),
        standard_device_bar: PciStandardDeviceBar::default(),
        cardbus_cis_pointer: regs[10],
        subsystem_vendor_id: regs[11] as u16,
        subsystem_id: (regs[11] >> 16u32) as u16,
        expansion_rom_base_address: regs[12],
        capabilities_pointer: regs[13] as u8,
        reserved0: (regs[13] >> 8u32) as u8,
        reserved1: (regs[13] >> 16u32) as u16,
        reserved2: regs[14],
        interrupt_line: regs[15] as u8,
        interrupt_pin: (regs[15] >> 8u32) as u8,
        min_grant: (regs[15] >> 16u32) as u8,
        max_latency: (regs[15] >> 24u32) as u8,
    }
}

/// Reads what a bridge to another PCI bus has beyond what every header starts with.
fn pci_read_pci_to_pci_bridge_header(
    common_header: PciDeviceStructureHeader,
    regs: &[u32],
) -> (r: PciDeviceStructurePciToPciBridge)
    requires
        regs@.len() == HEADER_REGISTERS,
    ensures
        is_pci_bridge(r, common_header, regs@),
{
    PciDeviceStructurePciToPciBridge {
        common_header,
        irq_type: IrqType::Unused,
        irq_vector: Vec::new(),
        bar0: regs[4],
        bar1: regs[5],
        primary_bus_number: regs[6] as u8,
        secondary_bus_number: (regs[6] >> 8u32) as u8,
        subordinate_bus_number: (regs[6] >> 16u32) as u8,
        secondary_latency_timer: (regs[6] >> 24u32) as u8,
        io_base: regs[7] as u8,
        io_limit: (regs[7] >> 8u32) as u8,
        secondary_status: (regs[7] >> 16u32) as u16,
        memory_base: regs[8] as u16,
        memory_limit: (regs[8] >> 16u32) as u16,
        prefetchable_memory_base: regs[9] as u16,
        prefetchable_memory_limit: (regs[9] >> 16u32) as u16,
        prefetchable_base_upper_32_bits: regs[10],
        prefetchable_limit_upper_32_bits: regs[11],
        io_base_upper_16_bits: regs[12] as u16,
        io_limit_upper_16_bits: (regs[12] >> 16u32) as u16,
        capability_pointer: regs[13] as u8,
        reserved0: (regs[13] >> 8u32) as u8,
        reserved1: (regs[13] >> 16u32) as u16,
        expansion_rom_base_address: regs[14],
        interrupt_line: regs[15] as u8,
        interrupt_pin: (regs[15] >> 8u32) as u8,
        bridge_control: (regs[15] >> 16u32) as u16,
    }
}

/// Reads what a bridge to a CardBus bus has beyond what every header starts with.
fn pci_read_pci_to_cardbus_bridge_header(
    common_header: PciDeviceStructureHeader,
    regs: &[u32],
) -> (r: PciDeviceStructurePciToCardbusBridge)
    requires
        regs@.len() == HEADER_REGISTERS,
    ensures
        is_cardbus_bridge(r, common_header, regs@),
{
    PciDeviceStructurePciToCardbusBridge {
        common_header,
        cardbus_socket_ex_ca_base_address: regs[4],
        offset_of_capabilities_list: regs[5] as u8,
        reserved: (regs[5] >> 8u32) as u8,
        secondary_status: (regs[5] >> 16u32) as u16,
        pci_bus_number: regs[6] as u8,
        card_bus_bus_number: (regs[6] >> 8u32) as u8,
        subordinate_bus_number: (regs[6] >> 16u32) as u8,
        card_bus_latency_timer: (regs[6] >> 24u32) as u8,
        memory_base_address0: regs[7],
        memory_limit0: regs[8],
        memory_base_address1: regs[9],
        memory_limit1: regs[10],
        io_base_address0: regs[11],
        io_limit0: regs[12],
        io_base_address1: regs[13],
        io_limit1: regs[14],
        interrupt_line: regs[15] as u8,
        interrupt_pin: (regs[15] >> 8u32) as u8,
        bridge_control: (regs[15] >> 16u32) as u16,
        subsystem_device_id: regs[16] as u16,
        subsystem_vendor_id: (regs[16] >> 16u32) as u16,
        pc_card_legacy_mode_base_address_16_bit: regs[17],
    }
}

/// A function of any kind.
#[derive(Debug)]
pub enum PciFunction {
    General(PciDeviceStructureGeneralDevice),
    PciBridge(PciDeviceStructurePciToPciBridge),
    CardbusBridge(PciDeviceStructurePciToCardbusBridge),
}

/// Reads the header of a function from its first registers, each of four bytes. Registers of a
/// place where no function is read as ones.
pub fn pci_read_header(bus_device_function: BusDeviceFunction, regs: &[u32]) -> (r: Result<
    PciFunction,
    PciError,
>)
    requires
        regs@.len() == HEADER_REGISTERS,
    ensures
        ({
            let common = spec_common_header(bus_device_function, regs@);
            let kind = HeaderType::of_number(common.header_type & 0x7f);
            match r {
                Ok(PciFunction::General(device)) => common.vendor_id != 0xffff && kind is Standard
                    && is_general_device(device, common, regs@),
                Ok(PciFunction::PciBridge(bridge)) => common.vendor_id != 0xffff
                    && kind is PciPciBridge && is_pci_bridge(bridge, common, regs@),
                Ok(PciFunction::CardbusBridge(bridge)) => common.vendor_id != 0xffff
                    && kind is PciCardbusBridge && is_cardbus_bridge(bridge, common, regs@),
                Err(e) => if common.vendor_id == 0xffff {
                    e == PciError::GetWrongHeader
                } else {
                    kind is Unrecognised && e == PciError::UnrecognisedHeaderType
                },
            }
        }),
        ({
            let kind = (regs@[3] / 0x1_0000) % 128;
            match r {
                Ok(PciFunction::General(_)) => regs@[0] % 0x1_0000 != 0xffff && kind == 0,
                Ok(PciFunction::PciBridge(_)) => regs@[0] % 0x1_0000 != 0xffff && kind == 1,
                Ok(PciFunction::CardbusBridge(_)) => regs@[0] % 0x1_0000 != 0xffff && kind == 2,
                Err(PciError::GetWrongHeader) => regs@[0] % 0x1_0000 == 0xffff,
                Err(_) => regs@[0] % 0x1_0000 != 0xffff && kind > 2,
            }
        }),
{
    proof {
        let first = regs@[0];
        let last = regs@[3];
        assert({
            &&& first as u16 == first % 0x1_0000
            &&& ((last >> 16u32) as u8) & 0x7f == (last / 0x1_0000) % 128
        }) by (bit_vector);
    }
    let header = PciDeviceStructureHeader {
        bus_device_function,
        vendor_id: regs[0] as u16,
        device_id: (regs[0] >> 16u32) as u16,
        command: regs[1] as u16,
        status: (regs[1] >> 16u32) as u16,
        revision_id: regs[2] as u8,
        prog_if: (regs[2] >> 8u32) as u8,
        subclass: (regs[2] >> 16u32) as u8,
        class_code: (regs[2] >> 24u32) as u8,
        cache_line_size: regs[3] as u8,
        latency_timer: (regs[3] >> 8u32) as u8,
        header_type: (regs[3] >> 16u32) as u8,
        bist: (regs[3] >> 24u32) as u8,
    };
    if header.vendor_id == 0xffff {
        return Err(PciError::GetWrongHeader);
    }
    match HeaderType::from(header.header_type & 0x7f) {
        HeaderType::Standard => Ok(
            PciFunction::General(pci_read_general_device_header(header, regs)),
        ),
        HeaderType::PciPciBridge => Ok(
            PciFunction::PciBridge(pci_read_pci_to_pci_bridge_header(header, regs)),
        ),
        HeaderType::PciCardbusBridge => Ok(
            PciFunction::CardbusBridge(pci_read_pci_to_cardbus_bridge_header(header, regs)),
        ),
        HeaderType::Unrecognised(_) => Err(PciError::UnrecognisedHeaderType),
    }
}

/// A function of the bus.
pub trait PciDeviceStructure: Sized {
    /// The kind of the function.
    spec fn spec_header_type(&self) -> HeaderType;

    /// What its header starts with.
    spec fn spec_header(&self) -> PciDeviceStructureHeader;

    /// The function with another start of its header.
    spec fn with_header(&self, header: PciDeviceStructureHeader) -> Self;

    /// Where its list of capabilities starts, if it keeps one.
    spec fn spec_capabilities(&self) -> Option<CapabilityIterator>;

    /// The kind of the function.
    fn header_type(&self) -> (r: HeaderType)
        ensures
            r == self.spec_header_type(),
    ;

    /// What its header starts with.
    fn common_header(&self) -> (r: &PciDeviceStructureHeader)
        ensures
            *r == self.spec_header(),
    ;

    /// What its header starts with, to be changed.
    fn common_header_mut(&mut self) -> (r: &mut PciDeviceStructureHeader)
        ensures
            *r == old(self).spec_header(),
            *final(self) == old(self).with_header(*final(r)),
    ;

    /// Its list of capabilities.
    fn capabilities(&self) -> (r: Option<CapabilityIterator>)
        ensures
            r == self.spec_capabilities(),
    ;

    /// The status and command registers.
    fn status_command(&self) -> (r: (Status, Command))
        ensures
            r.0.bits == self.spec_header().status & STATUS_FLAGS,
            r.1.bits == self.spec_header().command & COMMAND_FLAGS,
    {
        let header: &PciDeviceStructureHeader = self.common_header();
        (Status::from_bits_truncate(header.status), Command::from_bits_truncate(header.command))
    }

    /// Notes a new value of the command register, and gives the write that puts it there.
    fn set_command(&mut self, command: Command) -> (r: ConfigWrite)
        ensures
            r == (ConfigWrite { offset: STATUS_COMMAND_OFFSET, value: command.bits as u32 }),
            r.offset == 4,
            *final(self) == old(self).with_header(
                (PciDeviceStructureHeader { command: command.bits, ..old(self).spec_header() }),
            ),
    {
        let header: &mut PciDeviceStructureHeader = self.common_header_mut();
        header.command = command.bits;
        ConfigWrite { offset: STATUS_COMMAND_OFFSET, value: command.bits as u32 }
    }

    /// Lets the function answer on its ports and in its memory, and act on the bus by itself.
    fn enable_master(&mut self) -> (r: ConfigWrite)
        ensures
            r == (ConfigWrite { offset: STATUS_COMMAND_OFFSET, value: 7 }),
            r.offset == 4,
            *final(self) == old(self).with_header(
                (PciDeviceStructureHeader { command: 7, ..old(self).spec_header() }),
            ),
    {
        self.set_command(Command { bits: 7 })
    }

    /// Where the MSI-X capability stands, if the capabilities have these headers in turn.
    fn msix_capability_offset(&self, headers: &[u32]) -> (r: Option<u8>)
        ensures
            r == (match self.spec_capabilities() {
                Some(walk) => first_capability(
                    walk.next_capability_offset,
                    headers@,
                    PCI_CAP_ID_MSIX,
                ),
                None => None,
            }),
    {
        match self.capabilities() {
            Some(walk) => find_capability(walk, headers, PCI_CAP_ID_MSIX),
            None => None,
        }
    }

    /// Where the MSI capability stands, if the capabilities have these headers in turn.
    fn msi_capability_offset(&self, headers: &[u32]) -> (r: Option<u8>)
        ensures
            r == (match self.spec_capabilities() {
                Some(walk) => first_capability(
                    walk.next_capability_offset,
                    headers@,
                    PCI_CAP_ID_MSI,
                ),
                None => None,
            }),
    {
        match self.capabilities() {
            Some(walk) => find_capability(walk, headers, PCI_CAP_ID_MSI),
            None => None,
        }
    }
}

impl PciDeviceStructure for PciDeviceStructureGeneralDevice {
    open spec fn spec_header_type(&self) -> HeaderType {
        HeaderType::Standard
    }

    open spec fn spec_header(&self) -> PciDeviceStructureHeader {
        self.common_header
    }

    open spec fn with_header(&self, header: PciDeviceStructureHeader) -> Self {
        PciDeviceStructureGeneralDevice { common_header: header, ..*self }
    }

    open spec fn spec_capabilities(&self) -> Option<CapabilityIterator> {
        Some(
            CapabilityIterator {
                bus_device_function: self.common_header.bus_device_function,
                next_capability_offset: Some(self.capabilities_pointer),
            },
        )
    }

    fn header_type(&self) -> (r: HeaderType) {
        HeaderType::Standard
    }

    fn common_header(&self) -> (r: &PciDeviceStructureHeader) {
        &self.common_header
    }

    fn common_header_mut(&mut self) -> (r: &mut PciDeviceStructureHeader) {
        &mut self.common_header
    }

    fn capabilities(&self) -> (r: Option<CapabilityIterator>) {
        Some(
            CapabilityIterator {
                bus_device_function: self.common_header.bus_device_function,
                next_capability_offset: Some(self.capabilities_pointer),
            },
        )
    }
}

impl PciDeviceStructure for PciDeviceStructurePciToPciBridge {
    open spec fn spec_header_type(&self) -> HeaderType {
        HeaderType::PciPciBridge
    }

    open spec fn spec_header(&self) -> PciDeviceStructureHeader {
        self.common_header
    }

    open spec fn with_header(&self, header: PciDeviceStructureHeader) -> Self {
        PciDeviceStructurePciToPciBridge { common_header: header, ..*self }
    }

    open spec fn spec_capabilities(&self) -> Option<CapabilityIterator> {
        None
    }

    fn header_type(&self) -> (r: HeaderType) {
        HeaderType::PciPciBridge
    }

    fn common_header(&self) -> (r: &PciDeviceStructureHeader) {
        &self.common_header
    }

    fn common_header_mut(&mut self) -> (r: &mut PciDeviceStructureHeader) {
        &mut self.common_header
    }

    fn capabilities(&self) -> (r: Option<CapabilityIterator>) {
        None
    }
}

impl PciDeviceStructure for PciDeviceStructurePciToCardbusBridge {
    open spec fn spec_header_type(&self) -> HeaderType {
        HeaderType::PciCardbusBridge
    }

    open spec fn spec_header(&self) -> PciDeviceStructureHeader {
        self.common_header
    }

    open spec fn with_header(&self, header: PciDeviceStructureHeader) -> Self {
        PciDeviceStructurePciToCardbusBridge { common_header: header, ..*self }
    }

    open spec fn spec_capabilities(&self) -> Option<CapabilityIterator> {
        None
    }

    fn header_type(&self) -> (r: HeaderType) {
        HeaderType::PciCardbusBridge
    }

    fn common_header(&self) -> (r: &PciDeviceStructureHeader) {
        &self.common_header
    }

    fn common_header_mut(&mut self) -> (r: &mut PciDeviceStructureHeader) {
        &mut self.common_header
    }

    fn capabilities(&self) -> (r: Option<CapabilityIterator>) {
        None
    }
}

impl PciFunction {
    /// What the header starts with.
    pub open spec fn header(self) -> PciDeviceStructureHeader {
        match self {
            PciFunction::General(device) => device.common_header,
            PciFunction::PciBridge(bridge) => bridge.common_header,
            PciFunction::CardbusBridge(bridge) => bridge.common_header,
        }
    }

    /// What the header starts with.
    pub fn common_header(&self) -> (r: &PciDeviceStructureHeader)
        ensures
            *r == self.header(),
    {
        match self {
            PciFunction::General(device) => &device.common_header,
            PciFunction::PciBridge(bridge) => &bridge.common_header,
            PciFunction::CardbusBridge(bridge) => &bridge.common_header,
        }
    }

    /// The kind of the function.
    pub fn header_type(&self) -> (r: HeaderType)
        ensures
            r == (match self {
                PciFunction::General(_) => HeaderType::Standard,
                PciFunction::PciBridge(_) => HeaderType::PciPciBridge,
                PciFunction::CardbusBridge(_) => HeaderType::PciCardbusBridge,
            }),
    {
        match self {
            PciFunction::General(device) => device.header_type(),
            PciFunction::PciBridge(bridge) => bridge.header_type(),
            PciFunction::CardbusBridge(bridge) => bridge.header_type(),
        }
    }

    /// The function as an ordinary device, if it is one.
    pub fn as_standard_device(&self) -> (r: Option<&PciDeviceStructureGeneralDevice>)
        ensures
            match r {
                Some(device) => *self == PciFunction::General(*device),
                None => !(self is General),
            },
    {
        match self {
            PciFunction::General(device) => Some(device),
            _ => None,
        }
    }

    /// The function as an ordinary device that can be changed, if it is one.
    pub fn as_standard_device_mut(&mut self) -> (r: Option<&mut PciDeviceStructureGeneralDevice>)
        ensures
            match r {
                Some(device) => *old(self) == PciFunction::General(*device) && *final(self)
                    == PciFunction::General(*final(device)),
                None => !(*old(self) is General) && *final(self) == *old(self),
            },
    {
        match self {
            PciFunction::General(device) => Some(device),
            _ => None,
        }
    }

    /// The function as a bridge to another PCI bus, if it is one.
    pub fn as_pci_to_pci_bridge_device(&self) -> (r: Option<&PciDeviceStructurePciToPciBridge>)
        ensures
            match r {
                Some(bridge) => *self == PciFunction::PciBridge(*bridge),
                None => !(self is PciBridge),
            },
    {
        match self {
            PciFunction::PciBridge(bridge) => Some(bridge),
            _ => None,
        }
    }

    /// The function as a bridge to another PCI bus that can be changed, if it is one.
    pub fn as_pci_to_pci_bridge_device_mut(&mut self) -> (r: Option<
        &mut PciDeviceStructurePciToPciBridge,
    >)
        ensures
            match r {
                Some(bridge) => *old(self) == PciFunction::PciBridge(*bridge) && *final(self)
                    == PciFunction::PciBridge(*final(bridge)),
                None => !(*old(self) is PciBridge) && *final(self) == *old(self),
            },
    {
        match self {
            PciFunction::PciBridge(bridge) => Some(bridge),
            _ => None,
        }
    }

    /// The function as a bridge to a CardBus bus, if it is one.
    pub fn as_pci_to_carbus_bridge_device(&self) -> (r: Option<
        &PciDeviceStructurePciToCardbusBridge,
    >)
        ensures
            match r {
                Some(bridge) => *self == PciFunction::CardbusBridge(*bridge),
                None => !(self is CardbusBridge),
            },
    {
        match self {
            PciFunction::CardbusBridge(bridge) => Some(bridge),
            _ => None,
        }
    }

    /// The function as a bridge to a CardBus bus that can be changed, if it is one.
    pub fn as_pci_to_carbus_bridge_device_mut(&mut self) -> (r: Option<
        &mut PciDeviceStructurePciToCardbusBridge,
    >)
        ensures
            match r {
                Some(bridge) => *old(self) == PciFunction::CardbusBridge(*bridge) && *final(self)
                    == PciFunction::CardbusBridge(*final(bridge)),
                None => !(*old(self) is CardbusBridge) && *final(self) == *old(self),
            },
    {
        match self {
            PciFunction::CardbusBridge(bridge) => Some(bridge),
            _ => None,
        }
    }
}

/// What a capability says of itself.
#[derive(Clone, Copy, Debug, PartialEq, Eq, Structural)]
pub struct CapabilityInfo {
    /// Where the capability stands in configuration space.
    pub offset: u8,
    /// What it is.
    pub id: u8,
    /// The third and fourth of its bytes.
    pub private_header: u16,
}

/// A walk along the capabilities of a function.
#[derive(Clone, Copy, Debug, PartialEq, Eq, Structural)]
pub struct CapabilityIterator {
    pub bus_device_function: BusDeviceFunction,
    /// Where the next capability stands.
    pub next_capability_offset: Option<u8>,
}

/// Where the capability behind one with this header stands. Capabilities stand behind the header of
/// the function, at multiples of four; a place that is none ends the walk.
pub open spec fn next_capability(capability_header: u32) -> Option<u8> {
    let next = (capability_header >> 8u32) as u8;
    if next < 64 || next & 3 != 0 {
        None
    } else {
        Some(next)
    }
}

impl CapabilityIterator {
    /// The next capability, whose first four bytes are `capability_header`.
    pub fn next(&mut self, capability_header: u32) -> (r: Option<CapabilityInfo>)
        ensures
            final(self).bus_device_function == old(self).bus_device_function,
            r matches Some(info) ==> info.id == capability_header % 256 && info.private_header
                == capability_header / 0x1_0000,
            match old(self).next_capability_offset {
                Some(offset) => {
                    &&& r == Some(
                        CapabilityInfo {
                            offset,
                            id: capability_header as u8,
                            private_header: (capability_header >> 16u32) as u16,
                        },
                    )
                    &&& final(self).next_capability_offset == next_capability(capability_header)
                },
                None => r is None && *final(self) == *old(self),
            },
    {
        proof {
            lemma_parts(capability_header);
            lemma_digits(capability_header);
        }
        let offset: u8 = match self.next_capability_offset {
            Some(offset) => offset,
            None => return None,
        };
        let next_offset: u8 = (capability_header >> 8u32) as u8;
        self.next_capability_offset = if next_offset == 0 || next_offset < 64 || next_offset & 3
            != 0 {
            None
        } else {
            Some(next_offset)
        };
        Some(
            CapabilityInfo {
                offset,
                id: capability_header as u8,
                private_header: (capability_header >> 16u32) as u16,
            },
        )
    }

    /// Goes on to the next capability, whose first four bytes are `capability_header`, and tells
    /// where it stands if it is the one with this identifier.
    pub fn step_to(&mut self, id: u8, capability_header: u32) -> (r: Option<u8>)
        ensures
            final(self).bus_device_function == old(self).bus_device_function,
            match old(self).next_capability_offset {
                Some(offset) => {
                    &&& r == (if capability_header as u8 == id {
                        Some(offset)
                    } else {
                        None
                    })
                    &&& final(self).next_capability_offset == next_capability(capability_header)
                },
                None => r is None && *final(self) == *old(self),
            },
    {
        match self.next(capability_header) {
            Some(info) => if info.id == id {
                Some(info.offset)
            } else {
                None
            },
            None => None,
        }
    }
}

/// Where the walk along `headers` comes across the capability with this identifier first: at
/// `offset` stands a capability with the first header, and each tells where the next one is.
pub open spec fn first_capability(offset: Option<u8>, headers: Seq<u32>, id: u8) -> Option<u8>
    decreases headers.len(),
{
    if offset is None || headers.len() == 0 {
        None
    } else if headers[0] as u8 == id {
        offset
    } else {
        first_capability(next_capability(headers[0]), headers.drop_first(), id)
    }
}

/// Where the capability with this identifier stands, of a list that starts at `walk` and whose
/// capabilities have these headers.
pub fn find_capability(walk: CapabilityIterator, headers: &[u32], id: u8) -> (r: Option<u8>)
    ensures
        r == first_capability(walk.next_capability_offset, headers@, id),
{
    let mut here: CapabilityIterator = walk;
    let mut i: usize = 0;
    proof {
        assert(headers@.skip(0) =~= headers@);
    }
    while i < headers.len()
        invariant
            0 <= i <= headers@.len(),
            first_capability(walk.next_capability_offset, headers@, id) == first_capability(
                here.next_capability_offset,
                headers@.skip(i as int),
                id,
            ),
        decreases headers@.len() - i,
    {
        let ghost rest = headers@.skip(i as int);
        if here.next_capability_offset.is_none() {
            return None;
        }
        proof {
            assert(rest[0] == headers@[i as int]);
            assert(rest.drop_first() =~= headers@.skip(i + 1));
        }
        if let Some(offset) = here.step_to(id, headers[i]) {
            return Some(offset);
        }
        i = i + 1;
    }
    None
}

/// Where the list of capabilities of a function starts, if it keeps one.
pub fn capabilities_offset(status_command: u32, pointer: u32) -> (r: Option<u8>)
    ensures
        r == (if ((status_command >> 16u32) as u16) & STATUS_FLAGS & STATUS_CAPABILITIES_LIST
            != 0 {
            Some(pointer as u8 & 0xfc)
        } else {
            None
        }),
        r is Some <==> (status_command / 0x10_0000) % 2 == 1,
        r matches Some(start) ==> start == pointer % 256 - pointer % 4,
{
    assert({
        &&& (((status_command >> 16u32) as u16) & STATUS_FLAGS & STATUS_CAPABILITIES_LIST != 0)
            == ((status_command / 0x10_0000) % 2 == 1)
        &&& pointer as u8 & 0xfc == pointer % 256 - pointer % 4
    }) by (bit_vector);
    let status = Status::from_bits_truncate((status_command >> 16u32) as u16);
    if status.has_capabilities() {
        Some(pointer as u8 & 0xfc)
    } else {
        None
    }
}

/// What an extended capability says of itself.
#[derive(Clone, Copy, Debug, PartialEq, Eq, Structural)]
pub struct ExternalCapabilityInfo {
    /// Where the capability stands in configuration space.
    pub offset: u16,
    /// What it is.
    pub id: u16,
    /// In which version.
    pub capability_version: u8,
}

/// A walk along the extended capabilities of a function.
#[derive(Clone, Copy, Debug, PartialEq, Eq, Structural)]
pub struct ExternalCapabilityIterator {
    pub bus_device_function: BusDeviceFunction,
    /// Where the next capability stands.
    pub next_capability_offset: Option<u16>,
}

/// Where the extended capability behind one with this header stands. Such capabilities stand behind
/// the first 256 bytes, at multiples of four; a place that is none ends the walk.
pub open spec fn next_external_capability(capability_header: u32) -> Option<u16> {
    let next = (capability_header >> 20u32) as u16;
    if next < 0x100 || next & 3 != 0 {
        None
    } else {
        Some(next)
    }
}

impl ExternalCapabilityIterator {
    /// The next capability, whose first four bytes are `capability_header`.
    pub fn next(&mut self, capability_header: u32) -> (r: Option<ExternalCapabilityInfo>)
        ensures
            final(self).bus_device_function == old(self).bus_device_function,
            r matches Some(info) ==> info.id == capability_header % 0x1_0000
                && info.capability_version == (capability_header / 0x1_0000) % 16,
            match old(self).next_capability_offset {
                Some(offset) => {
                    &&& r == Some(
                        ExternalCapabilityInfo {
                            offset,
                            id: capability_header as u16,
                            capability_version: ((capability_header >> 16u32) & 0xf) as u8,
                        },
                    )
                    &&& final(self).next_capability_offset == next_external_capability(
                        capability_header,
                    )
                },
                None => r is None && *final(self) == *old(self),
            },
    {
        proof {
            lemma_digits(capability_header);
        }
        let offset: u16 = match self.next_capability_offset {
            Some(offset) => offset,
            None => return None,
        };
        let next_offset: u16 = (capability_header >> 20u32) as u16;
        self.next_capability_offset = if next_offset == 0 || next_offset < 0x100 || next_offset
            & 3 != 0 {
            None
        } else {
            Some(next_offset)
        };
        Some(
            ExternalCapabilityInfo {
                offset,
                id: capability_header as u16,
                capability_version: ((capability_header >> 16u32) & 0xf) as u8,
            },
        )
    }
}

/// A register of four bytes is made of the halves and the bytes that are read out of it.
proof fn lemma_parts(r: u32)
    ensures
        r == r as u16 + 0x1_0000 * ((r >> 16u32) as u16),
        r == r as u8 + 0x100 * ((r >> 8u32) as u8) + 0x1_0000 * ((r >> 16u32) as u16),
        r == r as u8 + 0x100 * ((r >> 8u32) as u8) + 0x1_0000 * ((r >> 16u32) as u8) + 0x100_0000 * ((
        r >> 24u32) as u8),
{
    assert({
        &&& r == r as u16 + 0x1_0000 * ((r >> 16u32) as u16)
        &&& r == r as u8 + 0x100 * ((r >> 8u32) as u8) + 0x1_0000 * ((r >> 16u32) as u16)
        &&& r == r as u8 + 0x100 * ((r >> 8u32) as u8) + 0x1_0000 * ((r >> 16u32) as u8) + 0x100_0000
            * ((r >> 24u32) as u8)
    }) by (bit_vector);
}

/// The parts of the header of a capability as numbers.
proof fn lemma_digits(h: u32)
    ensures
        h as u8 == h % 256,
        h as u16 == h % 0x1_0000,
        (h >> 16u32) as u16 == h / 0x1_0000,
        ((h >> 16u32) & 0xf) as u8 == (h / 0x1_0000) % 16,
        (h >> 8u32) as u8 == (h / 256) % 256,
        ((h >> 8u32) as u8) & 3 == (h / 256) % 4,
        (h >> 20u32) as u16 == h / 0x10_0000,
        ((h >> 20u32) as u16) & 3 == (h / 0x10_0000) % 4,
{
    assert({
        &&& h as u8 == h % 256
        &&& h as u16 == h % 0x1_0000
        &&& (h >> 16u32) as u16 == h / 0x1_0000
        &&& ((h >> 16u32) & 0xf) as u8 == (h / 0x1_0000) % 16
        &&& (h >> 8u32) as u8 == (h / 256) % 256
        &&& ((h >> 8u32) as u8) & 3 == (h / 256) % 4
        &&& (h >> 20u32) as u16 == h / 0x10_0000
        &&& ((h >> 20u32) as u16) & 3 == (h / 0x10_0000) % 4
    }) by (bit_vector);
}

/// The first four registers are made of the fields that every header starts with, the lowest first:
/// none of them is lost, and none stands elsewhere.
pub proof fn law_common_header(place: BusDeviceFunction, regs: Seq<u32>)
    ensures
        ({
            let h = spec_common_header(place, regs);
            &&& h.bus_device_function == place
            &&& regs[0] == h.vendor_id + 0x1_0000 * h.device_id
            &&& regs[1] == h.command + 0x1_0000 * h.status
            &&& regs[2] == h.revision_id + 0x100 * h.prog_if + 0x1_0000 * h.subclass + 0x100_0000
                * h.class_code
            &&& regs[3] == h.cache_line_size + 0x100 * h.latency_timer + 0x1_0000 * h.header_type
                + 0x100_0000 * h.bist
        }),
{
    lemma_parts(regs[0]);
    lemma_parts(regs[1]);
    lemma_parts(regs[2]);
    lemma_parts(regs[3]);
}

/// The registers of an ordinary device behind the six for its regions are made of its fields.
pub proof fn law_general_device(
    d: PciDeviceStructureGeneralDevice,
    common_header: PciDeviceStructureHeader,
    regs: Seq<u32>,
)
    requires
        is_general_device(d, common_header, regs),
    ensures
        d.common_header == common_header,
        d.irq_type is Unused,
        d.irq_vector@.len() == 0,
        forall|i: int| 0 <= i < 6 ==> (#[trigger] d.standard_device_bar@[i]) is Unused,
        regs[10] == d.cardbus_cis_pointer,
        regs[11] == d.subsystem_vendor_id + 0x1_0000 * d.subsystem_id,
        regs[12] == d.expansion_rom_base_address,
        regs[13] == d.capabilities_pointer + 0x100 * d.reserved0 + 0x1_0000 * d.reserved1,
        regs[14] == d.reserved2,
        regs[15] == d.interrupt_line + 0x100 * d.interrupt_pin + 0x1_0000 * d.min_grant
            + 0x100_0000 * d.max_latency,
{
    lemma_parts(regs[11]);
    lemma_parts(regs[13]);
    lemma_parts(regs[15]);
}

/// The registers of a bridge to another PCI bus are made of its fields.
pub proof fn law_pci_bridge(
    b: PciDeviceStructurePciToPciBridge,
    common_header: PciDeviceStructureHeader,
    regs: Seq<u32>,
)
    requires
        is_pci_bridge(b, common_header, regs),
    ensures
        b.common_header == common_header,
        b.irq_type is Unused,
        b.irq_vector@.len() == 0,
        regs[4] == b.bar0,
        regs[5] == b.bar1,
        regs[6] == b.primary_bus_number + 0x100 * b.secondary_bus_number + 0x1_0000
            * b.subordinate_bus_number + 0x100_0000 * b.secondary_latency_timer,
        regs[7] == b.io_base + 0x100 * b.io_limit + 0x1_0000 * b.secondary_status,
        regs[8] == b.memory_base + 0x1_0000 * b.memory_limit,
        regs[9] == b.prefetchable_memory_base + 0x1_0000 * b.prefetchable_memory_limit,
        regs[10] == b.prefetchable_base_upper_32_bits,
        regs[11] == b.prefetchable_limit_upper_32_bits,
        regs[12] == b.io_base_upper_16_bits + 0x1_0000 * b.io_limit_upper_16_bits,
        regs[13] == b.capability_pointer + 0x100 * b.reserved0 + 0x1_0000 * b.reserved1,
        regs[14] == b.expansion_rom_base_address,
        regs[15] == b.interrupt_line + 0x100 * b.interrupt_pin + 0x1_0000 * b.bridge_control,
{
    lemma_parts(regs[6]);
    lemma_parts(regs[7]);
    lemma_parts(regs[8]);
    lemma_parts(regs[9]);
    lemma_parts(regs[12]);
    lemma_parts(regs[13]);
    lemma_parts(regs[15]);
}

/// The registers of a bridge to a CardBus bus are made of its fields.
pub proof fn law_cardbus_bridge(
    b: PciDeviceStructurePciToCardbusBridge,
    common_header: PciDeviceStructureHeader,
    regs: Seq<u32>,
)
    requires
        is_cardbus_bridge(b, common_header, regs),
    ensures
        b.common_header == common_header,
        regs[4] == b.cardbus_socket_ex_ca_base_address,
        regs[5] == b.offset_of_capabilities_list + 0x100 * b.reserved + 0x1_0000
            * b.secondary_status,
        regs[6] == b.pci_bus_number + 0x100 * b.card_bus_bus_number + 0x1_0000
            * b.subordinate_bus_number + 0x100_0000 * b.card_bus_latency_timer,
        regs[7] == b.memory_base_address0,
        regs[8] == b.memory_limit0,
        regs[9] == b.memory_base_address1,
        regs[10] == b.memory_limit1,
        regs[11] == b.io_base_address0,
        regs[12] == b.io_limit0,
        regs[13] == b.io_base_address1,
        regs[14] == b.io_limit1,
        regs[15] == b.interrupt_line + 0x100 * b.interrupt_pin + 0x1_0000 * b.bridge_control,
        regs[16] == b.subsystem_device_id + 0x1_0000 * b.subsystem_vendor_id,
        regs[17] == b.pc_card_legacy_mode_base_address_16_bit,
{
    lemma_parts(regs[5]);
    lemma_parts(regs[6]);
    lemma_parts(regs[15]);
    lemma_parts(regs[16]);
}

/// The second byte of a capability tells where the next one stands, and the three highest hexadecimal
/// digits of an extended one do. Both stand at multiples of four: a capability behind the 64 bytes of
/// the header, an extended one behind the first 256 bytes. Anything else ends the list.
pub proof fn law_next_capability(h: u32)
    ensures
        match next_capability(h) {
            Some(next) => next == (h / 256) % 256 && next >= 64 && next % 4 == 0,
            None => (h / 256) % 256 < 64 || (h / 256) % 4 != 0,
        },
        match next_external_capability(h) {
            Some(next) => next == h / 0x10_0000 && next >= 256 && next % 4 == 0,
            None => h / 0x10_0000 < 256 || (h / 0x10_0000) % 4 != 0,
        },
{
    lemma_digits(h);
    assert(((h / 256) % 256) % 4 == (h / 256) % 4);
}

/// The list goes on from each of the first `n` capabilities.
pub open spec fn goes_on(headers: Seq<u32>, n: int) -> bool {
    forall|j: int|
        0 <= j < n ==> ((#[trigger] headers[j]) / 256) % 256 >= 64 && (headers[j] / 256) % 4 == 0
}

/// Looking for a capability gives the place of the first one in the list whose lowest byte is its
/// identifier, and nothing if the list ends before one comes.
pub proof fn law_first_capability(offset: Option<u8>, headers: Seq<u32>, id: u8)
    ensures
        match first_capability(offset, headers, id) {
            Some(at) => exists|i: int|
                #![trigger headers[i]]
                0 <= i < headers.len() && headers[i] % 256 == id && goes_on(headers, i) && (forall|
                    j: int,
                |
                    0 <= j < i ==> (#[trigger] headers[j]) % 256 != id) && offset is Some && at == (
                if i == 0 {
                    offset->0 as int
                } else {
                    ((headers[i - 1] / 256) % 256) as int
                }),
            None => offset is None || forall|i: int|
                0 <= i < headers.len() && goes_on(headers, i) ==> (#[trigger] headers[i]) % 256
                    != id,
        },
    decreases headers.len(),
{
    if offset is Some && headers.len() > 0 {
        lemma_digits(headers[0]);
        law_next_capability(headers[0]);
        if headers[0] as u8 != id {
            let rest = headers.drop_first();
            let next = next_capability(headers[0]);
            law_first_capability(next, rest, id);
            match first_capability(next, rest, id) {
                Some(at) => {
                    let i = choose|i: int|
                        #![trigger rest[i]]
                        0 <= i < rest.len() && rest[i] % 256 == id && goes_on(rest, i) && (forall|
                            j: int,
                        |
                            0 <= j < i ==> (#[trigger] rest[j]) % 256 != id) && at == (if i == 0 {
                            next->0 as int
                        } else {
                            ((rest[i - 1] / 256) % 256) as int
                        });
                    assert(headers[i + 1] == rest[i]);
                    assert(goes_on(headers, i + 1)) by {
                        assert forall|j: int| 0 <= j < i + 1 implies ((#[trigger] headers[j]) / 256)
                            % 256 >= 64 && (headers[j] / 256) % 4 == 0 by {
                            if j > 0 {
                                assert(rest[j - 1] == headers[j]);
                            }
                        }
                    }
                    assert forall|j: int| 0 <= j < i + 1 implies (#[trigger] headers[j]) % 256
                        != id by {
                        if j > 0 {
                            assert(rest[j - 1] == headers[j]);
                        }
                    }
                },
                None => {
                    assert forall|i: int| 0 <= i < headers.len() && goes_on(headers, i) implies (
                    #[trigger] headers[i]) % 256 != id by {
                        if i > 0 {
                            assert(rest[i - 1] == headers[i]);
                            assert(((headers[0]) / 256) % 256 >= 64);
                            assert(goes_on(rest, i - 1)) by {
                                assert forall|j: int| 0 <= j < i - 1 implies ((#[trigger] rest[j])
                                    / 256) % 256 >= 64 && (rest[j] / 256) % 4 == 0 by {
                                    assert(headers[j + 1] == rest[j]);
                                }
                            }
                        }
                    }
                },
            }
        } else {
            assert(headers[0] % 256 == id);
            assert(goes_on(headers, 0));
        }
    }
}

/// An ordinary device says where its list of capabilities starts, and bridges keep no list. A change of
/// the start of a header changes nothing else.
pub proof fn law_capability_lists(
    device: PciDeviceStructureGeneralDevice,
    bridge: PciDeviceStructurePciToPciBridge,
    cardbus: PciDeviceStructurePciToCardbusBridge,
    header: PciDeviceStructureHeader,
)
    ensures
        device.spec_capabilities() matches Some(walk) && walk.next_capability_offset == Some(
            device.capabilities_pointer,
        ) && walk.bus_device_function == device.common_header.bus_device_function,
        bridge.spec_capabilities() is None,
        cardbus.spec_capabilities() is None,
        device.with_header(header).common_header == header,
        device.with_header(header).with_header(device.common_header) == device,
        bridge.with_header(header).common_header == header,
        bridge.with_header(header).with_header(bridge.common_header) == bridge,
        cardbus.with_header(header).common_header == header,
        cardbus.with_header(header).with_header(cardbus.common_header) == cardbus,
        device.spec_header() == device.common_header,
        bridge.spec_header() == bridge.common_header,
        cardbus.spec_header() == cardbus.common_header,
        device.spec_header_type() is Standard,
        bridge.spec_header_type() is PciPciBridge,
        cardbus.spec_header_type() is PciCardbusBridge,
        PCI_CAP_ID_MSI == 0x05,
        PCI_CAP_ID_MSIX == 0x11,
{
}

} // verus!

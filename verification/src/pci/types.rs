//! Identifiers, registers and errors of PCI functions.

use std::cmp::Ordering;
use vstd::prelude::*;
use crate::base::text;
use crate::base::text::push_decimal;

verus! {

/// The number of a group of buses.
pub type SegmentGroupNumber = u16;

/// Where the status and command registers stand in configuration space.
pub const STATUS_COMMAND_OFFSET: u8 = 0x04;

/// The identifier of a vendor-specific capability.
pub const PCI_CAP_ID_VNDR: u8 = 0x09;

/// The identifier of the MSI capability.
pub const PCI_CAP_ID_MSI: u8 = 0x05;

/// The identifier of the MSI-X capability.
pub const PCI_CAP_ID_MSIX: u8 = 0x11;

/// The port that takes the address of a configuration register.
pub const PORT_PCI_CONFIG_ADDRESS: u16 = 0xcf8;

/// The port that holds the value of a configuration register.
pub const PORT_PCI_CONFIG_DATA: u16 = 0xcfc;

/// The number of an interrupt.
#[derive(Clone, Copy, Debug, PartialEq, Eq, Structural)]
pub struct IrqNumber {
    pub number: u32,
}

impl IrqNumber {
    /// The interrupt with this number.
    pub fn new(number: u32) -> (r: Self)
        ensures
            r.number == number,
    {
        IrqNumber { number }
    }

    /// The number of the interrupt.
    pub fn data(&self) -> (r: u32)
        ensures
            r == self.number,
    {
        self.number
    }
}

/// Why the interrupts of a function could not be set up.
#[derive(Clone, Copy, Debug, PartialEq, Eq, Structural)]
pub enum PciIrqError {
    IrqTypeNotSupported,
    PciDeviceNotSupportIrq,
    IrqTypeUnmatch,
    InvalidIrqIndex(u16),
    InvalidIrqNum(IrqNumber),
    IrqNumOccupied(IrqNumber),
    DeviceIrqOverflow,
    MxiIrqNumWrong,
    PciBarNotInited,
    BarGetVaddrFailed,
    MaskNotSupported,
    IrqNotInited,
}

/// Why a function could not be used.
#[derive(Clone, Copy, Debug, PartialEq, Eq, Structural)]
pub enum PciError {
    /// The device reported an invalid type of base address register.
    InvalidBarType,
    /// A range does not lie in its base address register, or is taken.
    InvalidBarRange,
    /// The registers could not be mapped.
    CreateMmioError,
    InvalidBusDeviceFunction,
    SegmentNotFound,
    McfgTableNotFound,
    /// No function answers.
    GetWrongHeader,
    UnrecognisedHeaderType,
    PciDeviceStructureTransformError,
    PciIrqError(PciIrqError),
}

impl PciError {
    /// The error in words, where `irq_error` are the words for what went wrong with an interrupt.
    pub fn message(&self, irq_error: &str) -> (r: String)
        ensures
            r@ == self.spec_message(irq_error@),
    {
        let mut text: String = (match self {
            PciError::InvalidBarType => "Invalid PCI BAR type.",
            PciError::InvalidBarRange => "Invalid PCI BAR range.",
            PciError::CreateMmioError => "Error occurred while creating mmio.",
            PciError::InvalidBusDeviceFunction => "Found invalid BusDeviceFunction.",
            PciError::SegmentNotFound => "Target segment not found",
            PciError::McfgTableNotFound => "ACPI MCFG Table not found",
            PciError::GetWrongHeader => "GetWrongHeader with vendor id 0xffff",
            PciError::UnrecognisedHeaderType => "Found device with unrecognised header type",
            PciError::PciDeviceStructureTransformError =>
                "Found None When transform Pci device structure",
            PciError::PciIrqError(_) => "Error occurred while setting irq :",
        }).to_owned();
        if let PciError::PciIrqError(_) = self {
            text.append(irq_error);
            text.append(".");
        }
        text
    }

    /// The error in words, where `irq_error` are the words for what went wrong with an interrupt.
    pub open spec fn spec_message(self, irq_error: Seq<char>) -> Seq<char> {
        match self {
            PciError::InvalidBarType => "Invalid PCI BAR type."@,
            PciError::InvalidBarRange => "Invalid PCI BAR range."@,
            PciError::CreateMmioError => "Error occurred while creating mmio."@,
            PciError::InvalidBusDeviceFunction => "Found invalid BusDeviceFunction."@,
            PciError::SegmentNotFound => "Target segment not found"@,
            PciError::McfgTableNotFound => "ACPI MCFG Table not found"@,
            PciError::GetWrongHeader => "GetWrongHeader with vendor id 0xffff"@,
            PciError::UnrecognisedHeaderType => "Found device with unrecognised header type"@,
            PciError::PciDeviceStructureTransformError =>
                "Found None When transform Pci device structure"@,
            PciError::PciIrqError(_) => "Error occurred while setting irq :"@ + irq_error + "."@,
        }
    }
}

/// An address as the devices on the bus see it.
#[derive(Clone, Copy, Debug, PartialEq, Eq, Ord, Structural)]
pub struct PciAddr {
    pub address: usize,
}

impl PartialOrd for PciAddr {
    fn partial_cmp(&self, other: &Self) -> (r: Option<Ordering>) {
        if self.address < other.address {
            Some(Ordering::Less)
        } else if self.address == other.address {
            Some(Ordering::Equal)
        } else {
            Some(Ordering::Greater)
        }
    }
}

impl vstd::std_specs::cmp::PartialOrdSpecImpl for PciAddr {
    open spec fn obeys_partial_cmp_spec() -> bool {
        true
    }

    open spec fn partial_cmp_spec(&self, other: &Self) -> Option<Ordering> {
        if self.address < other.address {
            Some(Ordering::Less)
        } else if self.address == other.address {
            Some(Ordering::Equal)
        } else {
            Some(Ordering::Greater)
        }
    }
}

/// Addresses are ordered as their values, and two are the same only if their values are.
pub proof fn law_address_order(a: usize, b: usize)
    ensures
        ({
            let x = PciAddr { address: a };
            let y = PciAddr { address: b };
            let order = vstd::std_specs::cmp::PartialOrdSpec::partial_cmp_spec(&x, &y);
            &&& order == Some(Ordering::Less) <==> a < b
            &&& order == Some(Ordering::Equal) <==> a == b
            &&& x == y <==> a == b
        }),
{
}

impl PciAddr {
    /// The address with this value.
    pub fn new(address: usize) -> (r: Self)
        ensures
            r.address == address,
    {
        PciAddr { address }
    }

    /// The value of the address.
    pub fn data(&self) -> (r: usize)
        ensures
            r == self.address,
    {
        self.address
    }

    /// The address that lies `offset` bytes behind this one.
    pub fn add(self, offset: usize) -> (r: Self)
        requires
            self.address + offset <= usize::MAX,
        ensures
            r.address == self.address + offset,
    {
        PciAddr { address: self.address + offset }
    }

    /// Whether no bit of the address below those of `align` is set. For a power of two, whether
    /// the address is a multiple of it.
    pub fn check_aligned(&self, align: usize) -> (r: bool)
        requires
            align > 0,
        ensures
            r == (self.address & ((align - 1) as usize) == 0),
    {
        self.address & (align - 1) == 0
    }
}

/// The place of a function: its bus, its device and its number in the device.
#[derive(Clone, Copy, Debug, PartialEq, Eq, Structural)]
pub struct BusDeviceFunction {
    /// The number of the bus.
    pub bus: u8,
    /// The number of the device on the bus, below 32.
    pub device: u8,
    /// The number of the function in the device, below 8.
    pub function: u8,
}

impl BusDeviceFunction {
    /// The device and the function have numbers that a bus can hold.
    pub open spec fn spec_valid(self) -> bool {
        self.device < 32 && self.function < 8
    }

    /// Whether the device and the function have numbers that a bus can hold.
    pub fn valid(&self) -> (r: bool)
        ensures
            r == self.spec_valid(),
            r == (self.device < 32 && self.function < 8),
    {
        self.device < 32 && self.function < 8
    }

    /// The place in words.
    pub open spec fn spec_text(self) -> Seq<char> {
        "bus "@ + text::number(self.bus as nat, 10) + " device "@ + text::number(
            self.device as nat,
            10,
        ) + " function"@ + text::number(self.function as nat, 10)
    }

    /// The place in words.
    pub fn text(&self) -> (r: String)
        ensures
            r@ == self.spec_text(),
    {
        let mut shown: String = "bus ".to_owned();
        push_decimal(&mut shown, self.bus as u64);
        shown.append(" device ");
        push_decimal(&mut shown, self.device as u64);
        shown.append(" function");
        push_decimal(&mut shown, self.function as u64);
        shown
    }
}

/// The type of the header of a function.
#[derive(Clone, Copy, Debug, PartialEq, Eq, Structural)]
pub enum HeaderType {
    /// An ordinary device.
    Standard,
    /// A bridge to another PCI bus.
    PciPciBridge,
    /// A bridge to a CardBus bus.
    PciCardbusBridge,
    /// Anything else.
    Unrecognised(u8),
}

impl HeaderType {
    /// The type that a number stands for.
    pub open spec fn of_number(value: u8) -> Self {
        if value == 0 {
            HeaderType::Standard
        } else if value == 1 {
            HeaderType::PciPciBridge
        } else if value == 2 {
            HeaderType::PciCardbusBridge
        } else {
            HeaderType::Unrecognised(value)
        }
    }
}

impl From<u8> for HeaderType {
    fn from(value: u8) -> (r: Self) {
        match value {
            0 => HeaderType::Standard,
            1 => HeaderType::PciPciBridge,
            2 => HeaderType::PciCardbusBridge,
            _ => HeaderType::Unrecognised(value),
        }
    }
}

impl vstd::std_specs::convert::FromSpecImpl<u8> for HeaderType {
    open spec fn obeys_from_spec() -> bool {
        true
    }

    open spec fn from_spec(value: u8) -> Self {
        HeaderType::of_number(value)
    }
}

/// The flags of the status register that have a meaning.
pub const STATUS_FLAGS: u16 = 0xf9b8;

/// The device has a list of capabilities.
pub const STATUS_CAPABILITIES_LIST: u16 = 0x0010;

/// The flags of the command register that have a meaning.
pub const COMMAND_FLAGS: u16 = 0x077f;

/// The device answers on its ports.
pub const COMMAND_IO_SPACE: u16 = 0x0001;

/// The device answers in its memory.
pub const COMMAND_MEMORY_SPACE: u16 = 0x0002;

/// The device may act on the bus by itself.
pub const COMMAND_BUS_MASTER: u16 = 0x0004;

/// The status register.
#[derive(Clone, Copy, Debug, PartialEq, Eq, Structural)]
pub struct Status {
    pub bits: u16,
}

impl Status {
    /// The status with the flags of `bits` that have a meaning.
    pub fn from_bits_truncate(bits: u16) -> (r: Self)
        ensures
            r.bits == bits & STATUS_FLAGS,
    {
        Status { bits: bits & STATUS_FLAGS }
    }

    /// Whether the device has a list of capabilities.
    pub fn has_capabilities(&self) -> (r: bool)
        ensures
            r == (self.bits & STATUS_CAPABILITIES_LIST != 0),
    {
        self.bits & STATUS_CAPABILITIES_LIST != 0
    }
}

/// The command register.
#[derive(Clone, Copy, Debug, PartialEq, Eq, Structural)]
pub struct Command {
    pub bits: u16,
}

impl Command {
    /// The command with the flags of `bits` that have a meaning.
    pub fn from_bits_truncate(bits: u16) -> (r: Self)
        ensures
            r.bits == bits & COMMAND_FLAGS,
    {
        Command { bits: bits & COMMAND_FLAGS }
    }

    /// The flags.
    pub fn bits(&self) -> (r: u16)
        ensures
            r == self.bits,
    {
        self.bits
    }
}

/// A write to a register of configuration space.
#[derive(Clone, Copy, Debug, PartialEq, Eq, Structural)]
pub struct ConfigWrite {
    pub offset: u8,
    pub value: u32,
}

} // verus!

//! Interrupts that devices raise by messages.
//!
//! Each step of setting them up takes the registers that it depends on and gives the writes to
//! perform, so that the caller talks to the device and to the interrupt controller.

use vstd::prelude::*;
use crate::error::SystemError;
use crate::pci::header::{IrqType, PciDeviceStructureGeneralDevice};
use crate::pci::types::{ConfigWrite, IrqNumber, PciError, PciIrqError};

verus! {

/// How an interrupt is triggered.
#[derive(Clone, Copy, Debug, PartialEq, Eq, Structural)]
pub enum TriggerMode {
    EdgeTrigger,
    AssertHigh,
    AssertLow,
}

/// What depends on how a device asks for attention.
#[derive(Clone, Copy, Debug, PartialEq, Eq, Structural)]
pub enum IrqSpecificMsg {
    /// By a wire.
    Legacy,
    /// By a message.
    Msi {
        processor: u16,
        trigger_mode: TriggerMode,
    },
}

impl IrqSpecificMsg {
    /// Messages to the first processor, triggered by edges.
    pub fn msi_default() -> (r: Self)
        ensures
            r == (IrqSpecificMsg::Msi { processor: 0, trigger_mode: TriggerMode::EdgeTrigger }),
    {
        IrqSpecificMsg::Msi { processor: 0, trigger_mode: TriggerMode::EdgeTrigger }
    }
}

/// What is the same for all interrupts. The handler and the device are given by number.
#[derive(Debug)]
pub struct IrqCommonMsg {
    /// The position of the interrupt among those of the device.
    pub irq_index: u16,
    pub irq_name: String,
    pub irq_hander: u64,
    pub dev_id: u64,
}

impl IrqCommonMsg {
    /// The interrupt at position `irq_index`, with its name, its handler and its device.
    pub fn init_from(irq_index: u16, irq_name: String, irq_hander: u64, dev_id: u64) -> (r: Self)
        ensures
            r == (IrqCommonMsg { irq_index, irq_name, irq_hander, dev_id }),
    {
        IrqCommonMsg { irq_index, irq_name, irq_hander, dev_id }
    }

    /// Sets the handler.
    pub fn set_handler(&mut self, irq_hander: u64)
        ensures
            *final(self) == (IrqCommonMsg { irq_hander, ..*old(self) }),
    {
        self.irq_hander = irq_hander;
    }

    /// The device.
    pub fn dev_id(&self) -> (r: u64)
        ensures
            r == self.dev_id,
    {
        self.dev_id
    }
}

/// What has to be known to set up an interrupt.
#[derive(Debug)]
pub struct PciIrqMsg {
    pub irq_common_message: IrqCommonMsg,
    pub irq_specific_message: IrqSpecificMsg,
}

/// The ways of asking for attention that a driver accepts.
#[allow(clippy::upper_case_acronyms)]
#[derive(Clone, Copy, Debug, PartialEq, Eq, Structural)]
pub struct IRQ {
    pub legacy: bool,
    pub msi: bool,
    pub msix: bool,
}

impl IRQ {
    /// Every way.
    pub fn all_types() -> (r: Self)
        ensures
            r == (IRQ { legacy: true, msi: true, msix: true }),
    {
        IRQ { legacy: true, msi: true, msix: true }
    }
}

/// The registers of an MSI-X capability.
#[derive(Clone, Copy, Debug, PartialEq, Eq, Structural)]
pub struct MsixCapability {
    pub cap_offset: u8,
    /// The first four bytes.
    pub header: u32,
    /// The next four.
    pub table: u32,
    /// The next four.
    pub pending: u32,
}

/// The registers of an MSI capability.
#[derive(Clone, Copy, Debug, PartialEq, Eq, Structural)]
pub struct MsiCapability {
    pub cap_offset: u8,
    /// The first four bytes.
    pub header: u32,
}

impl MsixCapability {
    /// What the capability says.
    pub open spec fn spec_irq_type(self) -> IrqType {
        IrqType::Msix {
            msix_table_bar: (self.table & 7) as u8,
            msix_table_offset: self.table & !7u32,
            pending_table_bar: (self.pending & 7) as u8,
            pending_table_offset: self.pending & !7u32,
            irq_max_num: (((self.header >> 16u32) & 0x7ff) + 1) as u16,
            cap_offset: self.cap_offset,
        }
    }

    /// What the capability says.
    pub fn irq_type(&self) -> (r: IrqType)
        ensures
            r == self.spec_irq_type(),
    {
        let last: u32 = (self.header >> 16u32) & 0x7ff;
        let header: u32 = self.header;
        assert((header >> 16u32) & 0x7ff <= 0x7ff) by (bit_vector);
        IrqType::Msix {
            msix_table_bar: (self.table & 7) as u8,
            msix_table_offset: self.table & !7u32,
            pending_table_bar: (self.pending & 7) as u8,
            pending_table_offset: self.pending & !7u32,
            irq_max_num: (last + 1) as u16,
            cap_offset: self.cap_offset,
        }
    }
}

/// How many messages the control register of an MSI capability counts.
pub open spec fn msi_count(control: u16) -> int {
    vstd::arithmetic::power2::pow2((((control & 0x0e) >> 1u16) + 1) as nat) as int
}

impl MsiCapability {
    /// The control register.
    pub open spec fn control(self) -> u16 {
        (self.header >> 16u32) as u16
    }

    /// What the capability says.
    pub open spec fn spec_irq_type(self) -> IrqType {
        IrqType::Msi {
            address_64: self.control() & 0x0080 != 0,
            maskable: self.control() & 0x0100 != 0,
            irq_max_num: msi_count(self.control()) as u16,
            cap_offset: self.cap_offset,
        }
    }

    /// What the capability says.
    pub fn irq_type(&self) -> (r: IrqType)
        ensures
            r == self.spec_irq_type(),
            msi_count(self.control()) <= 256,
    {
        let control: u16 = (self.header >> 16u32) as u16;
        assert((control & 0x0e) >> 1u16 <= 7) by (bit_vector);
        let exponent: u16 = ((control & 0x0e) >> 1u16) + 1;
        let irq_max_num: u16 = match exponent {
            1 => 2,
            2 => 4,
            3 => 8,
            4 => 16,
            5 => 32,
            6 => 64,
            7 => 128,
            _ => 256,
        };
        proof {
            vstd::arithmetic::power2::lemma2_to64();
        }
        IrqType::Msi {
            address_64: control & 0x0080 != 0,
            maskable: control & 0x0100 != 0,
            irq_max_num,
            cap_offset: self.cap_offset,
        }
    }
}

/// A write to the memory of a device.
#[derive(Clone, Copy, Debug, PartialEq, Eq, Structural)]
pub struct MemoryWrite {
    pub address: usize,
    pub value: u32,
}

/// How many bytes an entry of the table of messages has.
pub const MSIX_ENTRY_SIZE: usize = 16;

/// The error that concerns interrupts.
pub open spec fn irq_error(e: PciIrqError) -> PciError {
    PciError::PciIrqError(e)
}

/// What an operation for one kind of messages says to a device that does not send them.
pub open spec fn wrong_type(irq_type: IrqType) -> PciError {
    if irq_type is Unused {
        irq_error(PciIrqError::IrqNotInited)
    } else {
        irq_error(PciIrqError::IrqTypeUnmatch)
    }
}

/// What an operation for messages says to a device that does not send any.
pub open spec fn no_messages(irq_type: IrqType) -> PciError {
    if irq_type is Unused {
        irq_error(PciIrqError::IrqNotInited)
    } else {
        irq_error(PciIrqError::IrqTypeNotSupported)
    }
}

/// The writes that put a message into an entry of the table.
pub open spec fn entry_writes(entry: int, msg_address: u32, msg_data: u32) -> Seq<MemoryWrite> {
    seq![
        MemoryWrite { address: (entry + 12) as usize, value: 0 },
        MemoryWrite { address: (entry + 8) as usize, value: msg_data },
        MemoryWrite { address: (entry + 4) as usize, value: 0 },
        MemoryWrite { address: entry as usize, value: msg_address },
    ]
}

/// The writes that clear the first `count` entries of a table.
pub open spec fn cleared_entries(table: int, count: nat) -> Seq<MemoryWrite>
    decreases count,
{
    if count == 0 {
        Seq::empty()
    } else {
        cleared_entries(table, (count - 1) as nat) + entry_writes(table + (count - 1) * 16, 0, 0)
    }
}

/// The error for an interrupt that was not given.
pub open spec fn request_error(irq: IrqNumber, result: Result<(), SystemError>) -> Option<PciError> {
    match result {
        Ok(_) => None,
        Err(SystemError::EINVAL) => Some(irq_error(PciIrqError::InvalidIrqNum(irq))),
        Err(_) => Some(irq_error(PciIrqError::IrqNumOccupied(irq))),
    }
}

/// What has to be done to take the interrupts of a device out of use.
#[derive(Debug)]
pub struct IrqUninstall {
    /// The interrupts that are given back.
    pub freed: Vec<IrqNumber>,
    pub config: Vec<ConfigWrite>,
    pub memory: Vec<MemoryWrite>,
}

/// How a mask is changed.
#[derive(Clone, Copy, Debug, PartialEq, Eq, Structural)]
pub enum MaskWrite {
    Config(ConfigWrite),
    Memory(MemoryWrite),
}

/// What became of asking for an interrupt.
pub fn irq_requested(irq: IrqNumber, result: Result<(), SystemError>) -> (r: Result<(), PciError>)
    ensures
        r == (match request_error(irq, result) {
            None => Ok::<(), PciError>(()),
            Some(e) => Err::<(), PciError>(e),
        }),
{
    match result {
        Ok(_) => Ok(()),
        Err(SystemError::EINVAL) => Err(PciError::PciIrqError(PciIrqError::InvalidIrqNum(irq))),
        Err(_) => Err(PciError::PciIrqError(PciIrqError::IrqNumOccupied(irq))),
    }
}

/// How the message of an interrupt is triggered.
pub fn trigger_mode(msg: &IrqSpecificMsg) -> (r: Result<TriggerMode, PciError>)
    ensures
        r == (match msg {
            IrqSpecificMsg::Legacy => Err(irq_error(PciIrqError::IrqTypeUnmatch)),
            IrqSpecificMsg::Msi { trigger_mode, .. } => Ok(*trigger_mode),
        }),
{
    match msg {
        IrqSpecificMsg::Legacy => Err(PciError::PciIrqError(PciIrqError::IrqTypeUnmatch)),
        IrqSpecificMsg::Msi { trigger_mode, .. } => Ok(*trigger_mode),
    }
}

/// The writes that put a message into an entry of the table. What the entry may do is set first,
/// where it goes to last.
pub fn write_entry(entry: usize, msg_address: u32, msg_data: u32) -> (r: Vec<MemoryWrite>)
    requires
        entry + 12 <= usize::MAX,
    ensures
        r@ == entry_writes(entry as int, msg_address, msg_data),
{
    let mut writes: Vec<MemoryWrite> = Vec::new();
    writes.push(MemoryWrite { address: entry + 12, value: 0 });
    writes.push(MemoryWrite { address: entry + 8, value: msg_data });
    writes.push(MemoryWrite { address: entry + 4, value: 0 });
    writes.push(MemoryWrite { address: entry, value: msg_address });
    assert(writes@ =~= entry_writes(entry as int, msg_address, msg_data));
    writes
}

impl PciDeviceStructureGeneralDevice {
    /// Chooses how the device asks for attention: by one of several messages if it can, by a
    /// message otherwise, and by a wire if it can do neither. The arguments are the capabilities
    /// that it has.
    pub fn irq_init(
        &mut self,
        flag: IRQ,
        msix: Option<MsixCapability>,
        msi: Option<MsiCapability>,
    ) -> (r: Option<IrqType>)
        ensures
            r == (if flag.msix && msix is Some {
                Some((msix->0).spec_irq_type())
            } else if flag.msi && msi is Some {
                Some((msi->0).spec_irq_type())
            } else if flag.legacy {
                Some(IrqType::Legacy)
            } else {
                None
            }),
            *final(self) == (PciDeviceStructureGeneralDevice {
                irq_type: if r is Some {
                    r->0
                } else {
                    old(self).irq_type
                },
                ..*old(self)
            }),
    {
        if flag.msix {
            if let Some(capability) = msix {
                let irq_type: IrqType = capability.irq_type();
                self.irq_type = irq_type;
                return Some(irq_type);
            }
        }
        if flag.msi {
            if let Some(capability) = msi {
                let irq_type: IrqType = capability.irq_type();
                self.irq_type = irq_type;
                return Some(irq_type);
            }
        }
        if flag.legacy {
            self.irq_type = IrqType::Legacy;
            return Some(IrqType::Legacy);
        }
        None
    }

    /// Where the capability stands by which the device sends messages.
    pub fn irq_register(&self) -> (r: Option<u8>)
        ensures
            r == (match self.irq_type {
                IrqType::Msix { cap_offset, .. } => Some(cap_offset),
                IrqType::Msi { cap_offset, .. } => Some(cap_offset),
                _ => None,
            }),
    {
        match self.irq_type {
            IrqType::Msix { cap_offset, .. } => Some(cap_offset),
            IrqType::Msi { cap_offset, .. } => Some(cap_offset),
            _ => None,
        }
    }

    /// The write that lets the device send messages from its table or not, where the header of the
    /// capability is `message`.
    pub open spec fn spec_msix_enable(self, enable: bool, message: u32) -> Result<
        ConfigWrite,
        PciError,
    > {
        match self.irq_type {
            IrqType::Msix { cap_offset, .. } => Ok(
                ConfigWrite {
                    offset: cap_offset,
                    value: if enable {
                        message | 0x8000_0000
                    } else {
                        message & !0x8000_0000u32
                    },
                },
            ),
            _ => Err(wrong_type(self.irq_type)),
        }
    }

    /// The write that lets the device send messages from its table or not, where the header of the
    /// capability is `message`.
    pub fn msix_enable(&self, enable: bool, message: u32) -> (r: Result<ConfigWrite, PciError>)
        ensures
            r == self.spec_msix_enable(enable, message),
    {
        match self.irq_type {
            IrqType::Msix { cap_offset, .. } => Ok(
                ConfigWrite {
                    offset: cap_offset,
                    value: if enable {
                        message | 0x8000_0000
                    } else {
                        message & !0x8000_0000u32
                    },
                },
            ),
            IrqType::Unused => Err(PciError::PciIrqError(PciIrqError::IrqNotInited)),
            _ => Err(PciError::PciIrqError(PciIrqError::IrqTypeUnmatch)),
        }
    }

    /// The write that lets the device send its message or not, where the header of the capability
    /// is `message`.
    pub open spec fn spec_msi_enable(self, enable: bool, message: u32) -> Result<
        ConfigWrite,
        PciError,
    > {
        match self.irq_type {
            IrqType::Msi { cap_offset, .. } => Ok(
                ConfigWrite {
                    offset: cap_offset,
                    value: if enable {
                        message | 0x0001_0000
                    } else {
                        message & !0x0001_0000u32
                    },
                },
            ),
            _ => Err(wrong_type(self.irq_type)),
        }
    }

    /// The write that lets the device send its message or not, where the header of the capability
    /// is `message`.
    pub fn msi_enable(&self, enable: bool, message: u32) -> (r: Result<ConfigWrite, PciError>)
        ensures
            r == self.spec_msi_enable(enable, message),
    {
        match self.irq_type {
            IrqType::Msi { cap_offset, .. } => Ok(
                ConfigWrite {
                    offset: cap_offset,
                    value: if enable {
                        message | 0x0001_0000
                    } else {
                        message & !0x0001_0000u32
                    },
                },
            ),
            IrqType::Unused => Err(PciError::PciIrqError(PciIrqError::IrqNotInited)),
            _ => Err(PciError::PciIrqError(PciIrqError::IrqTypeUnmatch)),
        }
    }

    /// The write that lets the device send messages or not.
    pub open spec fn spec_irq_enable(self, enable: bool, message: u32) -> Result<
        ConfigWrite,
        PciError,
    > {
        match self.irq_type {
            IrqType::Msix { .. } => self.spec_msix_enable(enable, message),
            IrqType::Msi { .. } => self.spec_msi_enable(enable, message),
            _ => Err(no_messages(self.irq_type)),
        }
    }

    /// The write that lets the device send messages or not, where the header of the capability is
    /// `message`.
    pub fn irq_enable(&self, enable: bool, message: u32) -> (r: Result<ConfigWrite, PciError>)
        ensures
            r == self.spec_irq_enable(enable, message),
    {
        match self.irq_type {
            IrqType::Msix { .. } => self.msix_enable(enable, message),
            IrqType::Msi { .. } => self.msi_enable(enable, message),
            IrqType::Legacy => Err(PciError::PciIrqError(PciIrqError::IrqTypeNotSupported)),
            IrqType::Unused => Err(PciError::PciIrqError(PciIrqError::IrqNotInited)),
        }
    }

    /// The device has more interrupts than it can send messages for.
    pub open spec fn irqs_overflow(self) -> bool {
        match self.irq_type {
            IrqType::Msi { irq_max_num, .. } => self.irq_vector@.len() > irq_max_num,
            IrqType::Msix { irq_max_num, .. } => self.irq_vector@.len() > irq_max_num,
            _ => false,
        }
    }

    /// The interrupt that is asked for on behalf of the message at a position.
    pub fn msi_irq(&self, irq_index: u16) -> (r: Result<IrqNumber, PciError>)
        requires
            self.irq_type is Msi && !self.irqs_overflow() ==> irq_index < self.irq_vector@.len(),
        ensures
            r == (match self.irq_type {
                IrqType::Msi { irq_max_num, .. } => if self.irq_vector@.len() > irq_max_num {
                    Err(irq_error(PciIrqError::DeviceIrqOverflow))
                } else {
                    Ok(self.irq_vector@[irq_index as int])
                },
                _ => Err(wrong_type(self.irq_type)),
            }),
    {
        match self.irq_type {
            IrqType::Msi { irq_max_num, .. } => {
                if self.irq_vector.len() > irq_max_num as usize {
                    return Err(PciError::PciIrqError(PciIrqError::DeviceIrqOverflow));
                }
                Ok(self.irq_vector[irq_index as usize])
            },
            IrqType::Unused => Err(PciError::PciIrqError(PciIrqError::IrqNotInited)),
            _ => Err(PciError::PciIrqError(PciIrqError::IrqTypeUnmatch)),
        }
    }

    /// How the message is triggered that has to be written for the interrupt at a position. There
    /// is one message for all interrupts of the device, written with the first of them.
    pub fn msi_trigger(&self, irq_index: u16, msg: &IrqSpecificMsg) -> (r: Result<
        Option<TriggerMode>,
        PciError,
    >)
        ensures
            r == (if irq_index != 0 {
                Ok(None)
            } else {
                match msg {
                    IrqSpecificMsg::Legacy => Err(irq_error(PciIrqError::IrqTypeUnmatch)),
                    IrqSpecificMsg::Msi { trigger_mode, .. } => Ok(Some(*trigger_mode)),
                }
            }),
    {
        if irq_index != 0 {
            return Ok(None);
        }
        match trigger_mode(msg) {
            Ok(t) => Ok(Some(t)),
            Err(e) => Err(e),
        }
    }

    /// The message of the device lies in the first 256 bytes of configuration space.
    pub open spec fn message_in_space(self) -> bool {
        self.irq_type matches IrqType::Msi { cap_offset, address_64, .. } ==> cap_offset + (
        if address_64 {
            12int
        } else {
            8
        }) <= 255
    }

    /// The writes that put the message into the capability at `cap_offset`.
    pub open spec fn message_writes(
        cap_offset: u8,
        address_64: bool,
        msg_address: u32,
        msg_data: u32,
    ) -> Seq<ConfigWrite> {
        let first = ConfigWrite { offset: (cap_offset + 4) as u8, value: msg_address };
        if address_64 {
            seq![
                first,
                ConfigWrite { offset: (cap_offset + 8) as u8, value: 0 },
                ConfigWrite { offset: (cap_offset + 12) as u8, value: msg_data },
            ]
        } else {
            seq![first, ConfigWrite { offset: (cap_offset + 8) as u8, value: msg_data }]
        }
    }

    /// The writes that put the message into its capability.
    pub fn msi_message(&self, msg_address: u32, msg_data: u32) -> (r: Result<
        Vec<ConfigWrite>,
        PciError,
    >)
        requires
            self.message_in_space(),
        ensures
            match self.irq_type {
                IrqType::Msi { cap_offset, address_64, .. } => r is Ok && (r->Ok_0)@
                    == Self::message_writes(cap_offset, address_64, msg_address, msg_data),
                _ => r == Err::<Vec<ConfigWrite>, PciError>(wrong_type(self.irq_type)),
            },
    {
        match self.irq_type {
            IrqType::Msi { cap_offset, address_64, .. } => {
                let mut writes: Vec<ConfigWrite> = Vec::new();
                writes.push(ConfigWrite { offset: cap_offset + 4, value: msg_address });
                if address_64 {
                    writes.push(ConfigWrite { offset: cap_offset + 8, value: 0 });
                    writes.push(ConfigWrite { offset: cap_offset + 12, value: msg_data });
                } else {
                    writes.push(ConfigWrite { offset: cap_offset + 8, value: msg_data });
                }
                assert(writes@ =~= Self::message_writes(
                    cap_offset,
                    address_64,
                    msg_address,
                    msg_data,
                ));
                Ok(writes)
            },
            IrqType::Unused => Err(PciError::PciIrqError(PciIrqError::IrqNotInited)),
            _ => Err(PciError::PciIrqError(PciIrqError::IrqTypeUnmatch)),
        }
    }

    /// The number that stands for so many messages in the control register, which must be a power
    /// of two up to 32.
    pub open spec fn count_code(count: nat) -> Option<u16> {
        if count == 1 {
            Some(0x00)
        } else if count == 2 {
            Some(0x10)
        } else if count == 4 {
            Some(0x20)
        } else if count == 8 {
            Some(0x30)
        } else if count == 16 {
            Some(0x40)
        } else if count == 32 {
            Some(0x50)
        } else {
            None
        }
    }

    /// The write that tells the device how many messages it may send.
    pub open spec fn spec_msi_control(self, data: u32) -> Result<ConfigWrite, PciError> {
        match self.irq_type {
            IrqType::Msi { cap_offset, .. } => match Self::count_code(self.irq_vector@.len()) {
                Some(code) => Ok(
                    ConfigWrite {
                        offset: cap_offset,
                        value: ((((data >> 16u32) as u16) & !0x0070u16 | code) as u32) << 16u32,
                    },
                ),
                None => Err(irq_error(PciIrqError::MxiIrqNumWrong)),
            },
            _ => Err(wrong_type(self.irq_type)),
        }
    }

    /// The write that tells the device how many messages it may send, where the header of the
    /// capability is `data`. It also keeps it quiet.
    pub fn msi_control(&self, data: u32) -> (r: Result<ConfigWrite, PciError>)
        ensures
            r == self.spec_msi_control(data),
            r matches Ok(write) ==> self.irq_vector@.len() == vstd::arithmetic::power2::pow2(
                ((write.value >> 20u32) & 7u32) as nat,
            ),
    {
        proof {
            law_messages_allowed(*self, data);
        }
        match self.irq_type {
            IrqType::Msi { cap_offset, .. } => {
                let kept: u16 = ((data >> 16u32) as u16) & !0x0070u16;
                let code: u16 = match self.irq_vector.len() {
                    1 => 0x00,
                    2 => 0x10,
                    4 => 0x20,
                    8 => 0x30,
                    16 => 0x40,
                    32 => 0x50,
                    _ => return Err(PciError::PciIrqError(PciIrqError::MxiIrqNumWrong)),
                };
                Ok(ConfigWrite { offset: cap_offset, value: ((kept | code) as u32) << 16u32 })
            },
            IrqType::Unused => Err(PciError::PciIrqError(PciIrqError::IrqNotInited)),
            _ => Err(PciError::PciIrqError(PciIrqError::IrqTypeUnmatch)),
        }
    }

    /// The interrupt that is asked for on behalf of the message of the table at a position.
    pub fn msix_irq(&self, irq_index: u16) -> (r: Result<IrqNumber, PciError>)
        requires
            self.irq_type is Msix && !self.irqs_overflow() ==> irq_index < self.irq_vector@.len(),
        ensures
            r == (match self.irq_type {
                IrqType::Msix { irq_max_num, .. } => if self.irq_vector@.len() > irq_max_num {
                    Err(irq_error(PciIrqError::DeviceIrqOverflow))
                } else {
                    Ok(self.irq_vector@[irq_index as int])
                },
                _ => Err(wrong_type(self.irq_type)),
            }),
    {
        match self.irq_type {
            IrqType::Msix { irq_max_num, .. } => {
                if self.irq_vector.len() > irq_max_num as usize {
                    return Err(PciError::PciIrqError(PciIrqError::DeviceIrqOverflow));
                }
                Ok(self.irq_vector[irq_index as usize])
            },
            IrqType::Unused => Err(PciError::PciIrqError(PciIrqError::IrqNotInited)),
            _ => Err(PciError::PciIrqError(PciIrqError::IrqTypeUnmatch)),
        }
    }

    /// Where a register is mapped, if it is one of the six and its whole region is mapped.
    pub open spec fn spec_bar_vaddr(self, bar: u8) -> Result<usize, PciError> {
        if bar >= 6 {
            Err(PciError::InvalidBarType)
        } else {
            match self.standard_device_bar@[bar as int].spec_virtual_address() {
                Some(v) => Ok(v),
                None => Err(irq_error(PciIrqError::BarGetVaddrFailed)),
            }
        }
    }

    fn bar_vaddr(&self, bar: u8) -> (r: Result<usize, PciError>)
        ensures
            r == self.spec_bar_vaddr(bar),
    {
        match self.standard_device_bar.get_bar(bar) {
            Ok(info) => match info.virtual_address() {
                Some(v) => Ok(v),
                None => Err(PciError::PciIrqError(PciIrqError::BarGetVaddrFailed)),
            },
            Err(e) => Err(e),
        }
    }

    /// Where the entry of the table at a position is mapped.
    pub open spec fn entry_at(self, irq_index: int) -> int {
        match self.irq_type {
            IrqType::Msix { msix_table_bar, msix_table_offset, .. } => (self.spec_bar_vaddr(
                msix_table_bar,
            )->Ok_0) + msix_table_offset + irq_index * 16,
            _ => 0,
        }
    }

    /// The table of messages is mapped.
    pub open spec fn table_mapped(self) -> bool {
        self.irq_type matches IrqType::Msix { msix_table_bar, .. } && self.spec_bar_vaddr(
            msix_table_bar,
        ) is Ok
    }

    /// The writes that put a message into the table at a position.
    pub fn msix_message(&self, irq_index: u16, msg_address: u32, msg_data: u32) -> (r: Result<
        Vec<MemoryWrite>,
        PciError,
    >)
        requires
            self.table_mapped() ==> self.entry_at(irq_index as int) + 16 <= usize::MAX,
        ensures
            match self.irq_type {
                IrqType::Msix { msix_table_bar, .. } => match self.spec_bar_vaddr(msix_table_bar) {
                    Ok(_) => r is Ok && (r->Ok_0)@ == entry_writes(
                        self.entry_at(irq_index as int),
                        msg_address,
                        msg_data,
                    ),
                    Err(e) => r == Err::<Vec<MemoryWrite>, PciError>(e),
                },
                _ => r == Err::<Vec<MemoryWrite>, PciError>(wrong_type(self.irq_type)),
            },
    {
        match self.irq_type {
            IrqType::Msix { msix_table_bar, msix_table_offset, .. } => {
                match self.bar_vaddr(msix_table_bar) {
                    Ok(v) => {
                        let entry: usize = v + msix_table_offset as usize + irq_index as usize
                            * MSIX_ENTRY_SIZE;
                        Ok(write_entry(entry, msg_address, msg_data))
                    },
                    Err(e) => Err(e),
                }
            },
            IrqType::Unused => Err(PciError::PciIrqError(PciIrqError::IrqNotInited)),
            _ => Err(PciError::PciIrqError(PciIrqError::IrqTypeUnmatch)),
        }
    }

    /// Starts to set up the interrupt of a device that a message names.
    pub fn irq_install(&self, msg: &IrqCommonMsg) -> (r: IrqInstall)
        requires
            msg.irq_index == self.irq_vector@.len() ==> message_capability(self.irq_type) is None
                || self.irqs_overflow(),
        ensures
            r.irq_index == msg.irq_index,
            !r.quiet,
            r.step == (if msg.irq_index > self.irq_vector@.len() {
                IrqInstallStep::Finished(
                    Err(irq_error(PciIrqError::InvalidIrqIndex(msg.irq_index))),
                )
            } else {
                match message_capability(self.irq_type) {
                    Some(cap_offset) => IrqInstallStep::ReadHeader(cap_offset),
                    None => IrqInstallStep::Finished(Err(no_messages(self.irq_type))),
                }
            }),
            r.wf(*self),
    {
        let irq_index: u16 = msg.irq_index;
        let step = if irq_index as usize > self.irq_vector.len() {
            IrqInstallStep::Finished(
                Err(PciError::PciIrqError(PciIrqError::InvalidIrqIndex(irq_index))),
            )
        } else {
            match self.irq_type {
                IrqType::Msi { cap_offset, .. } => IrqInstallStep::ReadHeader(cap_offset),
                IrqType::Msix { cap_offset, .. } => IrqInstallStep::ReadHeader(cap_offset),
                IrqType::Unused => IrqInstallStep::Finished(
                    Err(PciError::PciIrqError(PciIrqError::IrqNotInited)),
                ),
                IrqType::Legacy => IrqInstallStep::Finished(
                    Err(PciError::PciIrqError(PciIrqError::IrqTypeNotSupported)),
                ),
            }
        };
        IrqInstall { step, irq_index, quiet: false }
    }

    /// The interrupts of the device, one by one.
    fn all_irqs(&self) -> (r: Vec<IrqNumber>)
        ensures
            r@ == self.irq_vector@,
    {
        let mut freed: Vec<IrqNumber> = Vec::new();
        let mut i: usize = 0;
        while i < self.irq_vector.len()
            invariant
                0 <= i <= self.irq_vector@.len(),
                freed@ == self.irq_vector@.take(i as int),
            decreases self.irq_vector@.len() - i,
        {
            freed.push(self.irq_vector[i]);
            i = i + 1;
            assert(freed@ =~= self.irq_vector@.take(i as int));
        }
        assert(self.irq_vector@.take(self.irq_vector@.len() as int) =~= self.irq_vector@);
        freed
    }

    /// The writes that clear the capability at `cap_offset`.
    pub open spec fn msi_clearing(cap_offset: u8, address_64: bool) -> Seq<ConfigWrite> {
        let start = seq![
            ConfigWrite { offset: cap_offset, value: 0 },
            ConfigWrite { offset: (cap_offset + 4) as u8, value: 0 },
            ConfigWrite { offset: (cap_offset + 8) as u8, value: 0 },
        ];
        if address_64 {
            start.push(ConfigWrite { offset: (cap_offset + 12) as u8, value: 0 })
        } else {
            start
        }
    }

    /// What takes the message of the device out of use: its interrupts are given back and the
    /// capability is cleared.
    pub fn msi_uninstall(&self) -> (r: Result<IrqUninstall, PciError>)
        requires
            self.message_in_space(),
        ensures
            match self.irq_type {
                IrqType::Msi { cap_offset, address_64, .. } => {
                    &&& r is Ok
                    &&& (r->Ok_0).freed@ == self.irq_vector@
                    &&& (r->Ok_0).config@ == Self::msi_clearing(cap_offset, address_64)
                    &&& (r->Ok_0).memory@.len() == 0
                },
                _ => r == Err::<IrqUninstall, PciError>(wrong_type(self.irq_type)),
            },
    {
        match self.irq_type {
            IrqType::Msi { cap_offset, address_64, .. } => {
                let mut config: Vec<ConfigWrite> = Vec::new();
                config.push(ConfigWrite { offset: cap_offset, value: 0 });
                config.push(ConfigWrite { offset: cap_offset + 4, value: 0 });
                config.push(ConfigWrite { offset: cap_offset + 8, value: 0 });
                if address_64 {
                    config.push(ConfigWrite { offset: cap_offset + 12, value: 0 });
                }
                assert(config@ =~= Self::msi_clearing(cap_offset, address_64));
                Ok(IrqUninstall { freed: self.all_irqs(), config, memory: Vec::new() })
            },
            IrqType::Unused => Err(PciError::PciIrqError(PciIrqError::IrqNotInited)),
            _ => Err(PciError::PciIrqError(PciIrqError::IrqTypeUnmatch)),
        }
    }

    /// What takes the messages of the table out of use: the interrupts are given back, and the
    /// capability and every entry of the table are cleared.
    pub fn msix_uninstall(&self) -> (r: Result<IrqUninstall, PciError>)
        requires
            self.irq_type matches IrqType::Msix { irq_max_num, .. } ==> self.table_mapped()
                && self.entry_at(irq_max_num as int) <= usize::MAX,
        ensures
            match self.irq_type {
                IrqType::Msix { cap_offset, irq_max_num, .. } => {
                    &&& r is Ok
                    &&& (r->Ok_0).freed@ == self.irq_vector@
                    &&& (r->Ok_0).config@ == seq![ConfigWrite { offset: cap_offset, value: 0 }]
                    &&& (r->Ok_0).memory@ == cleared_entries(self.entry_at(0), irq_max_num as nat)
                },
                _ => r == Err::<IrqUninstall, PciError>(wrong_type(self.irq_type)),
            },
    {
        match self.irq_type {
            IrqType::Msix { msix_table_bar, msix_table_offset, cap_offset, irq_max_num, .. } => {
                let table: usize = match self.bar_vaddr(msix_table_bar) {
                    Ok(v) => v + msix_table_offset as usize,
                    Err(e) => return Err(e),
                };
                let mut config: Vec<ConfigWrite> = Vec::new();
                config.push(ConfigWrite { offset: cap_offset, value: 0 });
                assert(config@ =~= seq![ConfigWrite { offset: cap_offset, value: 0 }]);
                let mut memory: Vec<MemoryWrite> = Vec::new();
                let mut index: u16 = 0;
                while index < irq_max_num
                    invariant
                        0 <= index <= irq_max_num,
                        table + irq_max_num * 16 <= usize::MAX,
                        memory@ == cleared_entries(table as int, index as nat),
                    decreases irq_max_num - index,
                {
                    let mut entry: Vec<MemoryWrite> = write_entry(
                        table + index as usize * MSIX_ENTRY_SIZE,
                        0,
                        0,
                    );
                    memory.append(&mut entry);
                    index = index + 1;
                }
                Ok(IrqUninstall { freed: self.all_irqs(), config, memory })
            },
            IrqType::Unused => Err(PciError::PciIrqError(PciIrqError::IrqNotInited)),
            _ => Err(PciError::PciIrqError(PciIrqError::IrqTypeUnmatch)),
        }
    }

    /// What takes the interrupts of the device out of use: first the write that makes it quiet,
    /// where the header of the capability is `message`.
    pub fn irq_uninstall(&self, message: u32) -> (r: Result<(ConfigWrite, IrqUninstall), PciError>)
        requires
            self.message_in_space(),
            self.irq_type matches IrqType::Msix { irq_max_num, .. } ==> self.table_mapped()
                && self.entry_at(irq_max_num as int) <= usize::MAX,
        ensures
            r is Ok <==> self.irq_type is Msi || self.irq_type is Msix,
            r matches Ok((quiet, _)) ==> self.spec_irq_enable(false, message) == Ok::<
                ConfigWrite,
                PciError,
            >(quiet),
            r matches Ok((_, rest)) ==> {
                &&& rest.freed@ == self.irq_vector@
                &&& match self.irq_type {
                    IrqType::Msi { cap_offset, address_64, .. } => {
                        &&& rest.config@ == Self::msi_clearing(cap_offset, address_64)
                        &&& rest.memory@.len() == 0
                    },
                    IrqType::Msix { cap_offset, irq_max_num, .. } => {
                        &&& rest.config@ == seq![ConfigWrite { offset: cap_offset, value: 0 }]
                        &&& rest.memory@ == cleared_entries(self.entry_at(0), irq_max_num as nat)
                    },
                    _ => false,
                }
            },
            r matches Err(e) ==> e == no_messages(self.irq_type),
    {
        let quiet = match self.irq_enable(false, message) {
            Ok(quiet) => quiet,
            Err(e) => {
                return Err(e);
            },
        };
        let rest = match self.irq_type {
            IrqType::Msix { .. } => self.msix_uninstall(),
            _ => self.msi_uninstall(),
        };
        match rest {
            Ok(rest) => Ok((quiet, rest)),
            Err(e) => Err(e),
        }
    }

    /// Where the mask of the messages stands in configuration space.
    pub open spec fn mask_offset(cap_offset: u8, address_64: bool) -> int {
        cap_offset + (if address_64 {
            16int
        } else {
            12
        })
    }

    /// The mask of the messages lies in the first 256 bytes of configuration space, and `past`
    /// bytes behind it do too.
    pub open spec fn mask_in_space(self, past: int) -> bool {
        self.irq_type matches IrqType::Msi { maskable: true, cap_offset, address_64, .. }
            ==> Self::mask_offset(cap_offset, address_64) + past <= 255
    }

    /// The mask has a bit for the message at this position, if there is such a message.
    pub open spec fn has_mask_bit(self, irq_index: u16) -> bool {
        self.irq_type matches IrqType::Msi { maskable: true, irq_max_num, .. } ==> irq_index
            < irq_max_num ==> irq_index < 32
    }

    /// The write that masks the message at a position, or lifts its mask, where the mask register
    /// holds `mask`.
    pub open spec fn spec_msi_mask(self, irq_index: u16, masked: bool, mask: u32) -> Result<
        ConfigWrite,
        PciError,
    > {
        match self.irq_type {
            IrqType::Msi { maskable, address_64, cap_offset, irq_max_num } => {
                if irq_index >= irq_max_num {
                    Err(irq_error(PciIrqError::InvalidIrqIndex(irq_index)))
                } else if maskable {
                    Ok(
                        ConfigWrite {
                            offset: Self::mask_offset(cap_offset, address_64) as u8,
                            value: if masked {
                                mask | (1u32 << irq_index)
                            } else {
                                mask & !(1u32 << irq_index)
                            },
                        },
                    )
                } else {
                    Err(irq_error(PciIrqError::MaskNotSupported))
                }
            },
            _ => Err(wrong_type(self.irq_type)),
        }
    }

    /// Where the mask register stands, if the device can mask its messages.
    pub fn msi_mask_register(&self) -> (r: Option<u8>)
        requires
            self.mask_in_space(0),
        ensures
            r == (match self.irq_type {
                IrqType::Msi { maskable: true, address_64, cap_offset, .. } => Some(
                    Self::mask_offset(cap_offset, address_64) as u8,
                ),
                _ => None,
            }),
    {
        match self.irq_type {
            IrqType::Msi { maskable: true, address_64, cap_offset, .. } => Some(
                if address_64 {
                    cap_offset + 16
                } else {
                    cap_offset + 12
                },
            ),
            _ => None,
        }
    }

    fn msi_change_mask(&self, irq_index: u16, masked: bool, mask: u32) -> (r: Result<
        ConfigWrite,
        PciError,
    >)
        requires
            self.mask_in_space(0),
            self.has_mask_bit(irq_index),
        ensures
            r == self.spec_msi_mask(irq_index, masked, mask),
    {
        match self.irq_type {
            IrqType::Msi { maskable, address_64, cap_offset, irq_max_num } => {
                if irq_index >= irq_max_num {
                    return Err(PciError::PciIrqError(PciIrqError::InvalidIrqIndex(irq_index)));
                }
                if maskable {
                    let offset: u8 = if address_64 {
                        cap_offset + 16
                    } else {
                        cap_offset + 12
                    };
                    let value: u32 = if masked {
                        mask | (1u32 << irq_index)
                    } else {
                        mask & !(1u32 << irq_index)
                    };
                    return Ok(ConfigWrite { offset, value });
                }
                Err(PciError::PciIrqError(PciIrqError::MaskNotSupported))
            },
            IrqType::Unused => Err(PciError::PciIrqError(PciIrqError::IrqNotInited)),
            _ => Err(PciError::PciIrqError(PciIrqError::IrqTypeUnmatch)),
        }
    }

    /// The write that masks the message at a position.
    pub fn msi_mask(&self, irq_index: u16, mask: u32) -> (r: Result<ConfigWrite, PciError>)
        requires
            self.mask_in_space(0),
            self.has_mask_bit(irq_index),
        ensures
            r == self.spec_msi_mask(irq_index, true, mask),
    {
        self.msi_change_mask(irq_index, true, mask)
    }

    /// The write that lifts the mask of the message at a position.
    pub fn msi_unmask(&self, irq_index: u16, mask: u32) -> (r: Result<ConfigWrite, PciError>)
        requires
            self.mask_in_space(0),
            self.has_mask_bit(irq_index),
        ensures
            r == self.spec_msi_mask(irq_index, false, mask),
    {
        self.msi_change_mask(irq_index, false, mask)
    }

    /// The write that masks the message of the table at a position, or lifts its mask.
    pub open spec fn spec_msix_mask(self, irq_index: u16, masked: bool) -> Result<
        MemoryWrite,
        PciError,
    > {
        match self.irq_type {
            IrqType::Msix { irq_max_num, .. } => {
                if irq_index >= irq_max_num {
                    Err(irq_error(PciIrqError::InvalidIrqIndex(irq_index)))
                } else {
                    Ok(
                        MemoryWrite {
                            address: (self.entry_at(irq_index as int) + 12) as usize,
                            value: if masked {
                                1
                            } else {
                                0
                            },
                        },
                    )
                }
            },
            _ => Err(wrong_type(self.irq_type)),
        }
    }

    /// If the device has a table with a message at this position, the table is mapped and the
    /// entry lies in the address space.
    pub open spec fn entry_ready(self, irq_index: u16) -> bool {
        self.irq_type matches IrqType::Msix { irq_max_num, .. } ==> irq_index < irq_max_num
            ==> self.table_mapped() && self.entry_at(irq_index as int) + 16 <= usize::MAX
    }

    fn msix_change_mask(&self, irq_index: u16, masked: bool) -> (r: Result<MemoryWrite, PciError>)
        requires
            self.entry_ready(irq_index),
        ensures
            r == self.spec_msix_mask(irq_index, masked),
    {
        match self.irq_type {
            IrqType::Msix { msix_table_bar, msix_table_offset, irq_max_num, .. } => {
                if irq_index >= irq_max_num {
                    return Err(PciError::PciIrqError(PciIrqError::InvalidIrqIndex(irq_index)));
                }
                match self.bar_vaddr(msix_table_bar) {
                    Ok(v) => {
                        let entry: usize = v + msix_table_offset as usize + irq_index as usize
                            * MSIX_ENTRY_SIZE;
                        let value: u32 = if masked {
                            1
                        } else {
                            0
                        };
                        Ok(MemoryWrite { address: entry + 12, value })
                    },
                    Err(e) => Err(e),
                }
            },
            IrqType::Unused => Err(PciError::PciIrqError(PciIrqError::IrqNotInited)),
            _ => Err(PciError::PciIrqError(PciIrqError::IrqTypeUnmatch)),
        }
    }

    /// The write that masks the message of the table at a position.
    pub fn msix_mask(&self, irq_index: u16) -> (r: Result<MemoryWrite, PciError>)
        requires
            self.entry_ready(irq_index),
        ensures
            r == self.spec_msix_mask(irq_index, true),
    {
        self.msix_change_mask(irq_index, true)
    }

    /// The write that lifts the mask of the message of the table at a position.
    pub fn msix_unmask(&self, irq_index: u16) -> (r: Result<MemoryWrite, PciError>)
        requires
            self.entry_ready(irq_index),
        ensures
            r == self.spec_msix_mask(irq_index, false),
    {
        self.msix_change_mask(irq_index, false)
    }

    /// The write that masks the interrupt at a position, or lifts its mask.
    pub open spec fn spec_irq_mask(self, irq_index: u16, masked: bool, mask: u32) -> Result<
        MaskWrite,
        PciError,
    > {
        match self.irq_type {
            IrqType::Msix { .. } => match self.spec_msix_mask(irq_index, masked) {
                Ok(write) => Ok(MaskWrite::Memory(write)),
                Err(e) => Err(e),
            },
            IrqType::Msi { .. } => match self.spec_msi_mask(irq_index, masked, mask) {
                Ok(write) => Ok(MaskWrite::Config(write)),
                Err(e) => Err(e),
            },
            _ => Err(no_messages(self.irq_type)),
        }
    }

    fn irq_change_mask(&self, irq_index: u16, masked: bool, mask: u32) -> (r: Result<
        MaskWrite,
        PciError,
    >)
        requires
            self.mask_in_space(0),
            self.has_mask_bit(irq_index),
            self.entry_ready(irq_index),
        ensures
            r == self.spec_irq_mask(irq_index, masked, mask),
    {
        match self.irq_type {
            IrqType::Msix { .. } => match self.msix_change_mask(irq_index, masked) {
                Ok(write) => Ok(MaskWrite::Memory(write)),
                Err(e) => Err(e),
            },
            IrqType::Msi { .. } => match self.msi_change_mask(irq_index, masked, mask) {
                Ok(write) => Ok(MaskWrite::Config(write)),
                Err(e) => Err(e),
            },
            IrqType::Unused => Err(PciError::PciIrqError(PciIrqError::IrqNotInited)),
            _ => Err(PciError::PciIrqError(PciIrqError::IrqTypeNotSupported)),
        }
    }

    /// The write that masks the interrupt at a position, where the mask register holds `mask`.
    pub fn irq_mask(&self, irq_index: u16, mask: u32) -> (r: Result<MaskWrite, PciError>)
        requires
            self.mask_in_space(0),
            self.has_mask_bit(irq_index),
            self.entry_ready(irq_index),
        ensures
            r == self.spec_irq_mask(irq_index, true, mask),
    {
        self.irq_change_mask(irq_index, true, mask)
    }

    /// The write that lifts the mask of the interrupt at a position, where the mask register holds
    /// `mask`.
    pub fn irq_unmask(&self, irq_index: u16, mask: u32) -> (r: Result<MaskWrite, PciError>)
        requires
            self.mask_in_space(0),
            self.has_mask_bit(irq_index),
            self.entry_ready(irq_index),
        ensures
            r == self.spec_irq_mask(irq_index, false, mask),
    {
        self.irq_change_mask(irq_index, false, mask)
    }

    /// Where the register of pending messages stands, if the device can mask its messages.
    pub fn msi_pending_register(&self) -> (r: Option<u8>)
        requires
            self.mask_in_space(4),
        ensures
            r == (match self.irq_type {
                IrqType::Msi { maskable: true, address_64, cap_offset, .. } => Some(
                    (Self::mask_offset(cap_offset, address_64) + 4) as u8,
                ),
                _ => None,
            }),
    {
        match self.irq_type {
            IrqType::Msi { maskable: true, address_64, cap_offset, .. } => Some(
                if address_64 {
                    cap_offset + 20
                } else {
                    cap_offset + 16
                },
            ),
            _ => None,
        }
    }

    /// Whether the message at a position waits behind its mask, where the register of pending
    /// messages holds `pending`.
    pub open spec fn spec_msi_check_pending(self, irq_index: u16, pending: u32) -> Result<
        bool,
        PciError,
    > {
        match self.irq_type {
            IrqType::Msi { maskable, irq_max_num, .. } => {
                if irq_index >= irq_max_num {
                    Err(irq_error(PciIrqError::InvalidIrqIndex(irq_index)))
                } else if maskable {
                    Ok(pending & (1u32 << irq_index) != 0)
                } else {
                    Err(irq_error(PciIrqError::PciDeviceNotSupportIrq))
                }
            },
            _ => Err(wrong_type(self.irq_type)),
        }
    }

    /// Whether the message at a position waits behind its mask, where the register of pending
    /// messages holds `pending`.
    pub fn msi_check_pending(&self, irq_index: u16, pending: u32) -> (r: Result<bool, PciError>)
        requires
            self.has_mask_bit(irq_index),
        ensures
            r == self.spec_msi_check_pending(irq_index, pending),
    {
        match self.irq_type {
            IrqType::Msi { maskable, irq_max_num, .. } => {
                if irq_index >= irq_max_num {
                    return Err(PciError::PciIrqError(PciIrqError::InvalidIrqIndex(irq_index)));
                }
                if maskable {
                    return Ok(pending & (1u32 << irq_index) != 0);
                }
                Err(PciError::PciIrqError(PciIrqError::PciDeviceNotSupportIrq))
            },
            IrqType::Unused => Err(PciError::PciIrqError(PciIrqError::IrqNotInited)),
            _ => Err(PciError::PciIrqError(PciIrqError::IrqTypeUnmatch)),
        }
    }

    /// Where the eight bytes are mapped in which the message of the table at a position is shown
    /// as pending.
    pub open spec fn pending_at(self, irq_index: int) -> int {
        match self.irq_type {
            IrqType::Msix { pending_table_bar, pending_table_offset, .. } => (self.spec_bar_vaddr(
                pending_table_bar,
            )->Ok_0) + pending_table_offset + (irq_index / 64) * 8,
            _ => 0,
        }
    }

    /// The address of the eight bytes in which the message of the table at a position is shown as
    /// pending.
    pub fn msix_pending_entry(&self, irq_index: u16) -> (r: Result<usize, PciError>)
        requires
            self.irq_type matches IrqType::Msix { irq_max_num, pending_table_bar, .. }
                ==> irq_index < irq_max_num ==> self.spec_bar_vaddr(pending_table_bar) is Ok
                && self.pending_at(irq_index as int) <= usize::MAX,
        ensures
            r == (match self.irq_type {
                IrqType::Msix { irq_max_num, .. } => if irq_index >= irq_max_num {
                    Err(irq_error(PciIrqError::InvalidIrqIndex(irq_index)))
                } else {
                    Ok(self.pending_at(irq_index as int) as usize)
                },
                _ => Err(wrong_type(self.irq_type)),
            }),
    {
        match self.irq_type {
            IrqType::Msix { pending_table_bar, pending_table_offset, irq_max_num, .. } => {
                if irq_index >= irq_max_num {
                    return Err(PciError::PciIrqError(PciIrqError::InvalidIrqIndex(irq_index)));
                }
                match self.bar_vaddr(pending_table_bar) {
                    Ok(v) => Ok(
                        v + pending_table_offset as usize + (irq_index as usize / 64) * 8,
                    ),
                    Err(e) => Err(e),
                }
            },
            IrqType::Unused => Err(PciError::PciIrqError(PciIrqError::IrqNotInited)),
            _ => Err(PciError::PciIrqError(PciIrqError::IrqTypeUnmatch)),
        }
    }

    /// Whether the interrupt at a position waits behind its mask. `pending` is what was read for
    /// it: the register of pending messages, or the eight bytes of the pending table.
    pub fn irq_check_pending(&self, irq_index: u16, pending: u64) -> (r: Result<bool, PciError>)
        requires
            self.has_mask_bit(irq_index),
            self.irq_type is Msi ==> pending <= u32::MAX,
        ensures
            r == (match self.irq_type {
                IrqType::Msix { irq_max_num, .. } => if irq_index >= irq_max_num {
                    Err(irq_error(PciIrqError::InvalidIrqIndex(irq_index)))
                } else {
                    Ok(pending & (1u64 << (irq_index as u64 % 64)) != 0)
                },
                IrqType::Msi { .. } => self.spec_msi_check_pending(irq_index, pending as u32),
                IrqType::Unused => Err(irq_error(PciIrqError::IrqNotInited)),
                IrqType::Legacy => Err(irq_error(PciIrqError::IrqTypeNotSupported)),
            }),
    {
        match self.irq_type {
            IrqType::Msix { irq_max_num, .. } => {
                if irq_index >= irq_max_num {
                    return Err(PciError::PciIrqError(PciIrqError::InvalidIrqIndex(irq_index)));
                }
                Ok(msix_check_pending(irq_index, pending))
            },
            IrqType::Msi { .. } => self.msi_check_pending(irq_index, pending as u32),
            IrqType::Unused => Err(PciError::PciIrqError(PciIrqError::IrqNotInited)),
            IrqType::Legacy => Err(PciError::PciIrqError(PciIrqError::IrqTypeNotSupported)),
        }
    }
}

/// Whether the message of a table at a position waits behind its mask, where its eight bytes of the
/// pending table are `entry`.
pub fn msix_check_pending(irq_index: u16, entry: u64) -> (r: bool)
    ensures
        r == (entry & (1u64 << (irq_index as u64 % 64)) != 0),
{
    entry & (1u64 << (irq_index as u64 % 64)) != 0
}

/// What is to be done next to set an interrupt up.
#[derive(Clone, Copy, Debug)]
pub enum IrqInstallStep {
    /// Read the header of the capability, which stands here.
    ReadHeader(u8),
    /// Ask for the interrupt.
    Request(IrqNumber),
    /// Find out where the processor takes messages, and the message for this interrupt.
    Message(IrqNumber, TriggerMode),
    /// Nothing: this is how it ended.
    Finished(Result<u8, PciError>),
}

/// What has to be written.
#[derive(Debug)]
pub struct IrqWrites {
    pub config: Vec<ConfigWrite>,
    pub memory: Vec<MemoryWrite>,
}

/// The work of setting an interrupt of a device up, which `irq_install` starts. The device is made
/// quiet before anything else is done. After that the interrupt is asked for and its message is
/// written: to the capability itself for MSI, to its entry of the table for MSI-X.
#[derive(Clone, Copy, Debug)]
pub struct IrqInstall {
    pub step: IrqInstallStep,
    /// The position of the interrupt.
    pub irq_index: u16,
    /// The device was made quiet.
    pub quiet: bool,
}

/// Where the capability of a device stands by which it sends messages.
pub open spec fn message_capability(irq_type: IrqType) -> Option<u8> {
    match irq_type {
        IrqType::Msi { cap_offset, .. } => Some(cap_offset),
        IrqType::Msix { cap_offset, .. } => Some(cap_offset),
        _ => None,
    }
}

impl IrqInstall {
    /// The interrupt that is asked for, or why none is.
    pub open spec fn wanted(self, device: PciDeviceStructureGeneralDevice) -> IrqInstallStep {
        if device.irqs_overflow() {
            IrqInstallStep::Finished(Err(irq_error(PciIrqError::DeviceIrqOverflow)))
        } else {
            IrqInstallStep::Request(device.irq_vector@[self.irq_index as int])
        }
    }

    /// What follows once the interrupt was given. The message of a device without a table is
    /// written with its first interrupt only.
    pub open spec fn given(
        self,
        device: PciDeviceStructureGeneralDevice,
        irq: IrqNumber,
        msg: IrqSpecificMsg,
    ) -> IrqInstallStep {
        if device.irq_type is Msi && self.irq_index != 0 {
            IrqInstallStep::Finished(Ok(0))
        } else {
            match msg {
                IrqSpecificMsg::Legacy => IrqInstallStep::Finished(
                    Err(irq_error(PciIrqError::IrqTypeUnmatch)),
                ),
                IrqSpecificMsg::Msi { trigger_mode, .. } => IrqInstallStep::Message(
                    irq,
                    trigger_mode,
                ),
            }
        }
    }

    /// The work is about this device: as long as it is not done, the device sends messages and has
    /// the interrupt, or has too many of them. The device is quiet before the interrupt is asked for, and its header is read
    /// a second time only for MSI.
    pub open spec fn wf(self, device: PciDeviceStructureGeneralDevice) -> bool {
        self.step is Finished || {
            &&& message_capability(device.irq_type) is Some
            &&& self.irq_index < device.irq_vector@.len() || device.irqs_overflow()
            &&& self.step is Request || self.step is Message ==> self.quiet
            &&& self.quiet && self.step is ReadHeader ==> device.irq_type is Msi
        }
    }

    /// How many steps are left at most.
    pub open spec fn steps_left(self) -> nat {
        match self.step {
            IrqInstallStep::ReadHeader(_) => if self.quiet {
                1
            } else {
                4
            },
            IrqInstallStep::Request(_) => 3,
            IrqInstallStep::Message(_, _) => 2,
            IrqInstallStep::Finished(_) => 0,
        }
    }

    /// Takes the header of the capability and tells what is written. The first header serves to
    /// make the device quiet, the second to tell it how many messages it may send.
    pub fn header_read(&mut self, device: &PciDeviceStructureGeneralDevice, header: u32) -> (r: Vec<
        ConfigWrite,
    >)
        requires
            old(self).wf(*device),
            old(self).step is ReadHeader,
        ensures
            final(self).wf(*device),
            final(self).steps_left() < old(self).steps_left(),
            final(self).quiet,
            final(self).irq_index == old(self).irq_index,
            !old(self).quiet ==> {
                &&& r@.len() == 1
                &&& Ok::<ConfigWrite, PciError>(r@[0]) == device.spec_irq_enable(false, header)
                &&& final(self).step == old(self).wanted(*device)
            },
            old(self).quiet ==> match device.spec_msi_control(header) {
                Ok(write) => r@ == seq![write] && final(self).step == IrqInstallStep::Finished(
                    Ok(0),
                ),
                Err(e) => r@.len() == 0 && final(self).step == IrqInstallStep::Finished(Err(e)),
            },
    {
        let mut writes: Vec<ConfigWrite> = Vec::new();
        if self.quiet {
            match device.msi_control(header) {
                Ok(write) => {
                    writes.push(write);
                    self.step = IrqInstallStep::Finished(Ok(0));
                    assert(writes@ =~= seq![write]);
                },
                Err(e) => {
                    self.step = IrqInstallStep::Finished(Err(e));
                },
            }
            return writes;
        }
        self.quiet = true;
        if let Ok(write) = device.irq_enable(false, header) {
            writes.push(write);
        }
        let irq = match device.irq_type {
            IrqType::Msix { .. } => device.msix_irq(self.irq_index),
            _ => device.msi_irq(self.irq_index),
        };
        self.step =
        match irq {
            Ok(irq) => IrqInstallStep::Request(irq),
            Err(e) => IrqInstallStep::Finished(Err(e)),
        };
        writes
    }

    /// Takes the answer to asking for the interrupt.
    pub fn requested(
        &mut self,
        device: &PciDeviceStructureGeneralDevice,
        msg: &IrqSpecificMsg,
        result: Result<(), SystemError>,
    )
        requires
            old(self).wf(*device),
            old(self).step is Request,
        ensures
            final(self).wf(*device),
            final(self).steps_left() < old(self).steps_left(),
            final(self).quiet == old(self).quiet,
            final(self).irq_index == old(self).irq_index,
            old(self).step matches IrqInstallStep::Request(irq) ==> final(self).step == (
            match request_error(irq, result) {
                Some(e) => IrqInstallStep::Finished(Err(e)),
                None => old(self).given(*device, irq, *msg),
            }),
    {
        if let IrqInstallStep::Request(irq) = self.step {
            if let Err(e) = irq_requested(irq, result) {
                self.step = IrqInstallStep::Finished(Err(e));
                return ;
            }
            let trigger = match device.irq_type {
                IrqType::Msi { .. } => device.msi_trigger(self.irq_index, msg),
                _ => match trigger_mode(msg) {
                    Ok(t) => Ok(Some(t)),
                    Err(e) => Err(e),
                },
            };
            self.step =
            match trigger {
                Ok(Some(t)) => IrqInstallStep::Message(irq, t),
                Ok(None) => IrqInstallStep::Finished(Ok(0)),
                Err(e) => IrqInstallStep::Finished(Err(e)),
            };
        }
    }

    /// Takes the message for the interrupt and tells what is written. A device without a table is
    /// told how many messages it may send after that.
    pub fn message_made(
        &mut self,
        device: &PciDeviceStructureGeneralDevice,
        msg_address: u32,
        msg_data: u32,
    ) -> (r: IrqWrites)
        requires
            old(self).wf(*device),
            old(self).step is Message,
            device.message_in_space(),
            device.table_mapped() ==> device.entry_at(old(self).irq_index as int) + 16
                <= usize::MAX,
        ensures
            final(self).wf(*device),
            final(self).steps_left() < old(self).steps_left(),
            final(self).quiet == old(self).quiet,
            final(self).irq_index == old(self).irq_index,
            match device.irq_type {
                IrqType::Msi { cap_offset, address_64, .. } => {
                    &&& final(self).step == IrqInstallStep::ReadHeader(cap_offset)
                    &&& r.memory@.len() == 0
                    &&& r.config@ == PciDeviceStructureGeneralDevice::message_writes(
                        cap_offset,
                        address_64,
                        msg_address,
                        msg_data,
                    )
                },
                IrqType::Msix { msix_table_bar, .. } => {
                    &&& r.config@.len() == 0
                    &&& match device.spec_bar_vaddr(msix_table_bar) {
                        Ok(_) => {
                            &&& final(self).step == IrqInstallStep::Finished(Ok(0))
                            &&& r.memory@ == entry_writes(
                                device.entry_at(old(self).irq_index as int),
                                msg_address,
                                msg_data,
                            )
                        },
                        Err(e) => {
                            &&& final(self).step == IrqInstallStep::Finished(Err(e))
                            &&& r.memory@.len() == 0
                        },
                    }
                },
                _ => true,
            },
    {
        match device.irq_type {
            IrqType::Msi { cap_offset, .. } => {
                self.step = IrqInstallStep::ReadHeader(cap_offset);
                match device.msi_message(msg_address, msg_data) {
                    Ok(config) => IrqWrites { config, memory: Vec::new() },
                    Err(_) => IrqWrites { config: Vec::new(), memory: Vec::new() },
                }
            },
            _ => match device.msix_message(self.irq_index, msg_address, msg_data) {
                Ok(memory) => {
                    self.step = IrqInstallStep::Finished(Ok(0));
                    IrqWrites { config: Vec::new(), memory }
                },
                Err(e) => {
                    self.step = IrqInstallStep::Finished(Err(e));
                    IrqWrites { config: Vec::new(), memory: Vec::new() }
                },
            },
        }
    }
}

/// Masking the message at a position and lifting the mask again leaves every other bit of the mask
/// register as it was, and the message is let through.
pub proof fn law_mask_unmask(
    device: PciDeviceStructureGeneralDevice,
    irq_index: u16,
    mask: u32,
    other: u16,
)
    requires
        device.spec_msi_mask(irq_index, true, mask) is Ok,
        irq_index < 32,
        other < 32,
    ensures
        ({
            let masked = device.spec_msi_mask(irq_index, true, mask)->Ok_0;
            let lifted = device.spec_msi_mask(irq_index, false, masked.value)->Ok_0;
            &&& masked.offset == lifted.offset
            &&& masked.value & (1u32 << irq_index) != 0
            &&& lifted.value & (1u32 << irq_index) == 0
            &&& other != irq_index ==> lifted.value & (1u32 << other) == mask & (1u32 << other)
        }),
{
    assert({
        let masked = mask | (1u32 << irq_index);
        let lifted = masked & !(1u32 << irq_index);
        &&& masked & (1u32 << irq_index) != 0
        &&& lifted & (1u32 << irq_index) == 0
        &&& other != irq_index ==> lifted & (1u32 << other) == mask & (1u32 << other)
    }) by (bit_vector)
        requires
            irq_index < 32,
            other < 32,
    ;
}

/// A device that sends messages is allowed exactly as many of them as it has interrupts: the field for
/// their number, bits 4 to 6 of the control register in the upper half of the word, holds the
/// exponent of that power of two. All other bits of the register are kept, the lower half is zero, and
/// the write goes to the capability. A number of interrupts that is no such power, or is over 32, is
/// refused.
pub proof fn law_messages_allowed(device: PciDeviceStructureGeneralDevice, data: u32)
    ensures
        ({
            let n = device.irq_vector@.len();
            match device.spec_msi_control(data) {
                Ok(write) => {
                    let e = (write.value >> 20u32) & 7u32;
                    &&& device.irq_type matches IrqType::Msi { cap_offset, .. } && write.offset
                        == cap_offset
                    &&& e <= 5
                    &&& n == vstd::arithmetic::power2::pow2(e as nat)
                    &&& write.value & 0xff8f_0000u32 == data & 0xff8f_0000u32
                    &&& write.value & 0xffffu32 == 0
                },
                Err(e) => if device.irq_type is Msi {
                    &&& e == PciError::PciIrqError(PciIrqError::MxiIrqNumWrong)
                    &&& forall|k: nat|
                        k <= 5 ==> n != #[trigger] vstd::arithmetic::power2::pow2(k)
                } else if device.irq_type is Unused {
                    e == PciError::PciIrqError(PciIrqError::IrqNotInited)
                } else {
                    e == PciError::PciIrqError(PciIrqError::IrqTypeUnmatch)
                },
            }
        }),
{
    vstd::arithmetic::power2::lemma2_to64();
    assert forall|k: nat| k <= 5 implies #[trigger] vstd::arithmetic::power2::pow2(k) == 1
        || vstd::arithmetic::power2::pow2(k) == 2 || vstd::arithmetic::power2::pow2(k) == 4
        || vstd::arithmetic::power2::pow2(k) == 8 || vstd::arithmetic::power2::pow2(k) == 16
        || vstd::arithmetic::power2::pow2(k) == 32 by {
        assert(k == 0 || k == 1 || k == 2 || k == 3 || k == 4 || k == 5);
    }
    if let Some(code) = PciDeviceStructureGeneralDevice::count_code(device.irq_vector@.len()) {
        let value = ((((data >> 16u32) as u16) & !0x0070u16 | code) as u32) << 16u32;
        assert((value >> 20u32) & 7u32 == (code >> 4u16) as u32 && value & 0xff8f_0000u32 == data
            & 0xff8f_0000u32 && value & 0xffffu32 == 0) by (bit_vector)
            requires
                value == ((((data >> 16u32) as u16) & !0x0070u16 | code) as u32) << 16u32,
                code == 0x00u16 || code == 0x10u16 || code == 0x20u16 || code == 0x30u16 || code
                    == 0x40u16 || code == 0x50u16,
        ;
        assert(0x00u16 >> 4u16 == 0u16 && 0x10u16 >> 4u16 == 1u16 && 0x20u16 >> 4u16 == 2u16
            && 0x30u16 >> 4u16 == 3u16 && 0x40u16 >> 4u16 == 4u16 && 0x50u16 >> 4u16 == 5u16)
            by (bit_vector);
    }
}

/// Letting a device send messages, or not, changes one bit of the first word of its capability and
/// nothing else: the topmost for a device with a table, the lowest of the upper half for one
/// without. A device without messages is refused.
pub proof fn law_enable(device: PciDeviceStructureGeneralDevice, enable: bool, message: u32)
    ensures
        match (device.irq_type, device.spec_irq_enable(enable, message)) {
            (IrqType::Msix { cap_offset, .. }, Ok(write)) => {
                &&& write.offset == cap_offset
                &&& (write.value >= 0x8000_0000u32) == enable
                &&& write.value % 0x8000_0000u32 == message % 0x8000_0000u32
            },
            (IrqType::Msi { cap_offset, .. }, Ok(write)) => {
                &&& write.offset == cap_offset
                &&& ((write.value / 0x1_0000u32) % 2u32 == 1) == enable
                &&& write.value % 0x1_0000u32 == message % 0x1_0000u32
                &&& write.value / 0x2_0000u32 == message / 0x2_0000u32
            },
            (IrqType::Unused, Err(e)) => e == PciError::PciIrqError(PciIrqError::IrqNotInited),
            (IrqType::Legacy, Err(e)) => e == PciError::PciIrqError(
                PciIrqError::IrqTypeNotSupported,
            ),
            _ => false,
        },
        device.irq_type is Msix ==> device.spec_msix_enable(enable, message)
            == device.spec_irq_enable(enable, message) && device.spec_msi_enable(enable, message)
            == Err::<ConfigWrite, PciError>(PciError::PciIrqError(PciIrqError::IrqTypeUnmatch)),
        device.irq_type is Msi ==> device.spec_msi_enable(enable, message)
            == device.spec_irq_enable(enable, message) && device.spec_msix_enable(enable, message)
            == Err::<ConfigWrite, PciError>(PciError::PciIrqError(PciIrqError::IrqTypeUnmatch)),
{
    assert({
        let up = message | 0x8000_0000u32;
        let down = message & !0x8000_0000u32;
        &&& up >= 0x8000_0000u32
        &&& down < 0x8000_0000u32
        &&& up % 0x8000_0000u32 == message % 0x8000_0000u32
        &&& down % 0x8000_0000u32 == message % 0x8000_0000u32
    }) by (bit_vector);
    assert({
        let on = message | 0x0001_0000u32;
        let off = message & !0x0001_0000u32;
        &&& (on / 0x1_0000u32) % 2u32 == 1
        &&& (off / 0x1_0000u32) % 2u32 == 0
        &&& on % 0x1_0000u32 == message % 0x1_0000u32
        &&& off % 0x1_0000u32 == message % 0x1_0000u32
        &&& on / 0x2_0000u32 == message / 0x2_0000u32
        &&& off / 0x2_0000u32 == message / 0x2_0000u32
    }) by (bit_vector);
}

/// The registers of a capability as numbers. A table says in the low three bits of a word which
/// region it lies in and in the rest how far inside, and has one entry more than the eleven low
/// bits of the upper half of its first word count. A device without a table counts its messages by
/// three bits, as a power of two.
pub proof fn law_capabilities(table: MsixCapability, single: MsiCapability)
    ensures
        table.spec_irq_type() matches IrqType::Msix {
            msix_table_bar,
            msix_table_offset,
            pending_table_bar,
            pending_table_offset,
            irq_max_num,
            cap_offset,
        } && {
            &&& msix_table_bar < 8
            &&& msix_table_offset % 8u32 == 0
            &&& msix_table_bar + msix_table_offset == table.table
            &&& pending_table_bar < 8
            &&& pending_table_offset % 8u32 == 0
            &&& pending_table_bar + pending_table_offset == table.pending
            &&& irq_max_num == (table.header / 0x1_0000u32) % 2048u32 + 1
            &&& cap_offset == table.cap_offset
        },
        single.spec_irq_type() matches IrqType::Msi {
            address_64,
            maskable,
            irq_max_num,
            cap_offset,
        } && {
            &&& address_64 == ((single.header / 0x80_0000u32) % 2u32 == 1)
            &&& maskable == ((single.header / 0x100_0000u32) % 2u32 == 1)
            &&& irq_max_num == 2 * vstd::arithmetic::power2::pow2(
                ((single.header / 0x2_0000u32) % 8u32) as nat,
            )
            &&& cap_offset == single.cap_offset
        },
{
    let word = table.table;
    let pending = table.pending;
    let header = table.header;
    assert({
        &&& word & 7u32 < 8
        &&& (word & !7u32) % 8u32 == 0
        &&& (word & 7u32) + (word & !7u32) == word
        &&& pending & 7u32 < 8
        &&& (pending & !7u32) % 8u32 == 0
        &&& (pending & 7u32) + (pending & !7u32) == pending
        &&& (header >> 16u32) & 0x7ff == (header / 0x1_0000u32) % 2048u32
    }) by (bit_vector);
    let first = single.header;
    assert({
        let control = (first >> 16u32) as u16;
        &&& (control & 0x0080 != 0) == ((first / 0x80_0000u32) % 2u32 == 1)
        &&& (control & 0x0100 != 0) == ((first / 0x100_0000u32) % 2u32 == 1)
        &&& ((control & 0x0e) >> 1u16) as u32 == (first / 0x2_0000u32) % 8u32
    }) by (bit_vector);
    let k = (first / 0x2_0000u32) % 8u32;
    vstd::arithmetic::power2::lemma_pow2_unfold((k + 1) as nat);
    vstd::arithmetic::power2::lemma2_to64();
    assert(k == 0 || k == 1 || k == 2 || k == 3 || k == 4 || k == 5 || k == 6 || k == 7);
}

/// Where the parts of a capability without a table stand: the address of the message four bytes
/// behind the first word, its upper half behind that if the device takes one, the message behind
/// them, and the mask right behind the message. Taking it out of use clears the first word and every
/// word that the message was written to.
pub proof fn law_message_layout(cap_offset: u8, address_64: bool, address: u32, data: u32)
    requires
        cap_offset + 12 <= 255,
    ensures
        ({
            let writes = PciDeviceStructureGeneralDevice::message_writes(
                cap_offset,
                address_64,
                address,
                data,
            );
            let clearing = PciDeviceStructureGeneralDevice::msi_clearing(cap_offset, address_64);
            &&& writes.len() == (if address_64 {
                3int
            } else {
                2
            })
            &&& forall|i: int|
                0 <= i < writes.len() ==> (#[trigger] writes[i]).offset == cap_offset + 4 + 4 * i
            &&& writes[0].value == address
            &&& writes.last().value == data
            &&& address_64 ==> writes[1].value == 0
            &&& PciDeviceStructureGeneralDevice::mask_offset(cap_offset, address_64)
                == writes.last().offset + 4
            &&& clearing.len() == writes.len() + 1
            &&& clearing[0].offset == cap_offset
            &&& forall|i: int| 0 <= i < clearing.len() ==> (#[trigger] clearing[i]).value == 0
            &&& forall|i: int|
                0 <= i < writes.len() ==> clearing[i + 1].offset == (#[trigger] writes[i]).offset
        }),
{
}

/// Masking a message sets its bit of the mask register, lifting the mask clears it, and every other
/// bit stays. The register stands twelve bytes behind the start of the capability, or sixteen for a
/// device that takes long addresses. A message that the device does not have is refused, and so is
/// every message of a device without masks.
pub proof fn law_mask(
    device: PciDeviceStructureGeneralDevice,
    irq_index: u16,
    masked: bool,
    mask: u32,
    other: u16,
)
    requires
        irq_index < 32,
        other < 32,
        device.mask_in_space(0),
    ensures
        match (device.irq_type, device.spec_msi_mask(irq_index, masked, mask)) {
            (IrqType::Msi { maskable, address_64, cap_offset, irq_max_num }, Ok(write)) => {
                &&& irq_index < irq_max_num
                &&& maskable
                &&& write.offset == cap_offset + (if address_64 {
                    16int
                } else {
                    12
                })
                &&& ((write.value >> irq_index) & 1u32 == 1) == masked
                &&& other != irq_index ==> (write.value >> other) & 1u32 == (mask >> other) & 1u32
            },
            (IrqType::Msi { maskable, irq_max_num, .. }, Err(e)) => {
                if irq_index >= irq_max_num {
                    e == PciError::PciIrqError(PciIrqError::InvalidIrqIndex(irq_index))
                } else {
                    !maskable && e == PciError::PciIrqError(PciIrqError::MaskNotSupported)
                }
            },
            (IrqType::Unused, r) => r == Err::<ConfigWrite, PciError>(
                PciError::PciIrqError(PciIrqError::IrqNotInited),
            ),
            (_, r) => r == Err::<ConfigWrite, PciError>(
                PciError::PciIrqError(PciIrqError::IrqTypeUnmatch),
            ),
        },
{
    assert({
        let set = mask | (1u32 << irq_index);
        let cleared = mask & !(1u32 << irq_index);
        &&& (set >> irq_index) & 1u32 == 1
        &&& (cleared >> irq_index) & 1u32 == 0
        &&& other != irq_index ==> (set >> other) & 1u32 == (mask >> other) & 1u32
        &&& other != irq_index ==> (cleared >> other) & 1u32 == (mask >> other) & 1u32
    }) by (bit_vector)
        requires
            irq_index < 32,
            other < 32,
    ;
}

/// A message waits behind its mask exactly if its bit of the pending register is set.
pub proof fn law_pending(device: PciDeviceStructureGeneralDevice, irq_index: u16, pending: u32)
    requires
        irq_index < 32,
    ensures
        match device.spec_msi_check_pending(irq_index, pending) {
            Ok(waits) => {
                &&& device.irq_type matches IrqType::Msi { maskable, irq_max_num, .. } && maskable
                    && irq_index < irq_max_num
                &&& waits == ((pending >> irq_index) & 1u32 == 1)
            },
            Err(e) => match device.irq_type {
                IrqType::Msi { maskable, irq_max_num, .. } => if irq_index >= irq_max_num {
                    e == PciError::PciIrqError(PciIrqError::InvalidIrqIndex(irq_index))
                } else {
                    !maskable && e == PciError::PciIrqError(PciIrqError::PciDeviceNotSupportIrq)
                },
                IrqType::Unused => e == PciError::PciIrqError(PciIrqError::IrqNotInited),
                _ => e == PciError::PciIrqError(PciIrqError::IrqTypeUnmatch),
            },
        },
{
    assert((pending & (1u32 << irq_index) != 0) == ((pending >> irq_index) & 1u32 == 1))
        by (bit_vector)
        requires
            irq_index < 32,
    ;
}

/// The table stands in its region at its offset, with sixteen bytes for each message: the address
/// of the message, the upper half of that address, the message, and the mask of the entry, which is
/// written first and lets the message through. Masking a message of the table writes to that word
/// alone.
pub proof fn law_table_entry(
    device: PciDeviceStructureGeneralDevice,
    irq_index: u16,
    masked: bool,
    address: u32,
    data: u32,
)
    requires
        device.table_mapped(),
        device.entry_ready(irq_index),
        device.entry_at(irq_index as int) + 16 <= usize::MAX,
    ensures
        device.irq_type matches IrqType::Msix {
            msix_table_bar,
            msix_table_offset,
            irq_max_num,
            ..
        } && {
            let entry = device.entry_at(irq_index as int);
            let writes = entry_writes(entry, address, data);
            &&& msix_table_bar < 6
            &&& device.standard_device_bar@[msix_table_bar as int].spec_virtual_address() == Some(
                (entry - msix_table_offset - 16 * irq_index) as usize,
            )
            &&& entry >= msix_table_offset + 16 * irq_index
            &&& writes.len() == 4
            &&& writes[0].address == entry + 12 && writes[0].value == 0
            &&& writes[1].address == entry + 8 && writes[1].value == data
            &&& writes[2].address == entry + 4 && writes[2].value == 0
            &&& writes[3].address == entry && writes[3].value == address
            &&& match device.spec_msix_mask(irq_index, masked) {
                Ok(write) => {
                    &&& irq_index < irq_max_num
                    &&& write.address == writes[0].address
                    &&& (write.value == 1) == masked
                    &&& write.value <= 1
                },
                Err(e) => irq_index >= irq_max_num && e == PciError::PciIrqError(
                    PciIrqError::InvalidIrqIndex(irq_index),
                ),
            }
        },
{
}

/// Taking a table out of use writes zero to every word of every entry, and to nothing outside of
/// them.
pub proof fn law_table_cleared(table: int, count: nat)
    requires
        0 <= table,
        table + count * 16 <= usize::MAX,
    ensures
        cleared_entries(table, count).len() == 4 * count,
        forall|i: int|
            0 <= i < cleared_entries(table, count).len() ==> {
                let write = #[trigger] cleared_entries(table, count)[i];
                &&& write.value == 0
                &&& table <= write.address < table + 16 * count
            },
        forall|entry: int, word: int|
            0 <= entry < count && 0 <= word < 4 ==> cleared_entries(table, count).contains(
                #[trigger] zero_at(table + 16 * entry + 4 * word),
            ),
    decreases count,
{
    if count > 0 {
        let before = (count - 1) as nat;
        law_table_cleared(table, before);
        let rest = cleared_entries(table, before);
        let last = entry_writes(table + before * 16, 0, 0);
        let all = cleared_entries(table, count);
        assert(all == rest + last);
        assert forall|i: int| 0 <= i < all.len() implies {
            let write = #[trigger] all[i];
            &&& write.value == 0
            &&& table <= write.address < table + 16 * count
        } by {
            if i < rest.len() {
                assert(all[i] == rest[i]);
            } else {
                assert(all[i] == last[i - rest.len()]);
            }
        }
        assert forall|entry: int, word: int|
            0 <= entry < count && 0 <= word < 4 implies all.contains(
            #[trigger] zero_at(table + 16 * entry + 4 * word),
        ) by {
            let write = zero_at(table + 16 * entry + 4 * word);
            if entry < before {
                assert(rest.contains(write));
                let i = choose|i: int| 0 <= i < rest.len() && rest[i] == write;
                assert(all[i] == write);
            } else {
                assert(last[3 - word] == write);
                assert(all[rest.len() + 3 - word] == write);
            }
        }
    }
}

/// The write of zero to an address.
pub open spec fn zero_at(address: int) -> MemoryWrite {
    MemoryWrite { address: address as usize, value: 0 }
}

/// An interrupt is asked for only if the device has at most as many as it can send messages for,
/// and then it is the one at the position that is set up. Once it was given, a device without a
/// table has its message written with the first interrupt and with no other one, and a device with
/// a table has it written with each.
pub proof fn law_install(
    install: IrqInstall,
    device: PciDeviceStructureGeneralDevice,
    irq: IrqNumber,
    msg: IrqSpecificMsg,
)
    requires
        message_capability(device.irq_type) is Some,
    ensures
        ({
            let limit = match device.irq_type {
                IrqType::Msi { irq_max_num, .. } => irq_max_num as int,
                IrqType::Msix { irq_max_num, .. } => irq_max_num as int,
                _ => 0,
            };
            match install.wanted(device) {
                IrqInstallStep::Request(wanted) => {
                    &&& device.irq_vector@.len() <= limit
                    &&& wanted == device.irq_vector@[install.irq_index as int]
                },
                step => {
                    &&& device.irq_vector@.len() > limit
                    &&& step == IrqInstallStep::Finished(
                        Err(PciError::PciIrqError(PciIrqError::DeviceIrqOverflow)),
                    )
                },
            }
        }),
        match install.given(device, irq, msg) {
            IrqInstallStep::Message(of, mode) => {
                &&& of == irq
                &&& msg matches IrqSpecificMsg::Msi { trigger_mode, .. } && mode == trigger_mode
                &&& device.irq_type is Msi ==> install.irq_index == 0
            },
            IrqInstallStep::Finished(Ok(n)) => {
                &&& n == 0
                &&& device.irq_type is Msi
                &&& install.irq_index > 0
            },
            IrqInstallStep::Finished(Err(e)) => {
                &&& msg is Legacy
                &&& e == PciError::PciIrqError(PciIrqError::IrqTypeUnmatch)
            },
            _ => false,
        },
        forall|result: Result<(), SystemError>|
            match #[trigger] request_error(irq, result) {
                None => result is Ok,
                Some(PciError::PciIrqError(PciIrqError::InvalidIrqNum(n))) => {
                    &&& n == irq
                    &&& result == Err::<(), SystemError>(SystemError::EINVAL)
                },
                Some(PciError::PciIrqError(PciIrqError::IrqNumOccupied(n))) => {
                    &&& n == irq
                    &&& result is Err
                    &&& result != Err::<(), SystemError>(SystemError::EINVAL)
                },
                _ => false,
            },
{
}

/// An interrupt is masked where its device keeps masks: in its table if it has one, in its capability
/// otherwise. A device that sends no messages has nothing to mask.
pub proof fn law_irq_mask(
    device: PciDeviceStructureGeneralDevice,
    irq_index: u16,
    masked: bool,
    mask: u32,
)
    ensures
        match (device.irq_type, device.spec_irq_mask(irq_index, masked, mask)) {
            (IrqType::Msix { .. }, Ok(MaskWrite::Memory(write))) => device.spec_msix_mask(
                irq_index,
                masked,
            ) == Ok::<MemoryWrite, PciError>(write),
            (IrqType::Msix { .. }, Err(e)) => device.spec_msix_mask(irq_index, masked) == Err::<
                MemoryWrite,
                PciError,
            >(e),
            (IrqType::Msi { .. }, Ok(MaskWrite::Config(write))) => device.spec_msi_mask(
                irq_index,
                masked,
                mask,
            ) == Ok::<ConfigWrite, PciError>(write),
            (IrqType::Msi { .. }, Err(e)) => device.spec_msi_mask(irq_index, masked, mask) == Err::<
                ConfigWrite,
                PciError,
            >(e),
            (IrqType::Unused, r) => r == Err::<MaskWrite, PciError>(
                PciError::PciIrqError(PciIrqError::IrqNotInited),
            ),
            (IrqType::Legacy, r) => r == Err::<MaskWrite, PciError>(
                PciError::PciIrqError(PciIrqError::IrqTypeNotSupported),
            ),
            _ => false,
        },
{
}

/// The table of pending messages has a bit for each message, in words of eight bytes: 64 messages share a
/// word, and the next 64 have the word behind it.
pub proof fn law_pending_words(device: PciDeviceStructureGeneralDevice, a: int, b: int)
    requires
        device.irq_type is Msix,
        0 <= a,
        0 <= b,
    ensures
        a / 64 == b / 64 ==> device.pending_at(a) == device.pending_at(b),
        device.pending_at(a + 64) == device.pending_at(a) + 8,
        device.irq_type matches IrqType::Msix { pending_table_bar, pending_table_offset, .. } && (
        pending_table_bar < 6 ==> (device.standard_device_bar@[pending_table_bar as int]
            .spec_virtual_address() matches Some(start) ==> device.pending_at(0) == start
            + pending_table_offset)),
{
}

} // verus!

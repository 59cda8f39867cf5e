//! Messages that stand for interrupts.

use kdrivers::error::SystemError;
use kdrivers::pci::bar::{BarInfo, MemoryBarType};
use kdrivers::pci::header::{pci_read_header, IrqType, PciDeviceStructureGeneralDevice, PciFunction};
use kdrivers::pci::irq::{
    irq_requested, msix_check_pending, IrqCommonMsg, IrqInstallStep, IrqSpecificMsg, MaskWrite,
    MemoryWrite, MsiCapability, MsixCapability, PciIrqMsg, IRQ,
};
use kdrivers::pci::types::{BusDeviceFunction, ConfigWrite, IrqNumber, PciError, PciIrqError};

fn device() -> PciDeviceStructureGeneralDevice {
    let mut regs = [0u32; 18];
    regs[0] = 0x1000_1af4;
    let place = BusDeviceFunction { bus: 0, device: 3, function: 0 };
    match pci_read_header(place, &regs) {
        Ok(PciFunction::General(device)) => device,
        _ => panic!("an ordinary function"),
    }
}

fn msi(vectors: usize) -> PciDeviceStructureGeneralDevice {
    let mut device = device();
    let capability = MsiCapability { cap_offset: 0x50, header: 0x0188_0005 };
    device.irq_init(IRQ { legacy: false, msi: true, msix: false }, None, Some(capability));
    for number in 0..vectors {
        device.irq_vector.push(IrqNumber::new(60 + number as u32));
    }
    device
}

fn msix() -> PciDeviceStructureGeneralDevice {
    let mut device = device();
    let capability =
        MsixCapability { cap_offset: 0x70, header: 0x0003_0011, table: 0x2001, pending: 0x3001 };
    device.irq_init(IRQ::all_types(), Some(capability), None);
    device.standard_device_bar.set_bar(
        1,
        BarInfo::Memory {
            address_type: MemoryBarType::Width32,
            prefetchable: false,
            address: 0xf000_0000,
            size: 0x1_0000,
            mmio_guard: Some(0x10_0000),
            mapped_ranges: Vec::new(),
        },
    );
    device.irq_vector.push(IrqNumber::new(70));
    device.irq_vector.push(IrqNumber::new(71));
    device
}

fn message(irq_index: u16, specific: IrqSpecificMsg) -> PciIrqMsg {
    PciIrqMsg {
        irq_common_message: IrqCommonMsg::init_from(irq_index, String::from("irq"), 1, 2),
        irq_specific_message: specific,
    }
}

/// What was written to set an interrupt up, and how it ended. The header of the capability reads as
/// given both times, and asking for the interrupt is answered as given.
struct Installed {
    outcome: Result<u8, PciError>,
    config: Vec<ConfigWrite>,
    memory: Vec<MemoryWrite>,
}

fn install(
    device: &PciDeviceStructureGeneralDevice,
    msg: &PciIrqMsg,
    headers: [u32; 2],
    answer: Result<(), SystemError>,
) -> Installed {
    let mut work = device.irq_install(&msg.irq_common_message);
    let (mut config, mut memory) = (Vec::new(), Vec::new());
    loop {
        match work.step {
            IrqInstallStep::ReadHeader(_) => {
                let header = headers[work.quiet as usize];
                config.extend(work.header_read(device, header));
            }
            IrqInstallStep::Request(_) => {
                work.requested(device, &msg.irq_specific_message, answer)
            }
            IrqInstallStep::Message(_, _) => {
                let writes = work.message_made(device, 0xfee0_0000, 0x4060);
                config.extend(writes.config);
                memory.extend(writes.memory);
            }
            IrqInstallStep::Finished(outcome) => return Installed { outcome, config, memory },
        }
    }
}

fn irq_error(error: PciIrqError) -> PciError {
    PciError::PciIrqError(error)
}

#[test]
fn capabilities_tell_the_kind_of_messages() {
    assert_eq!(
        msi(0).irq_type,
        IrqType::Msi { address_64: true, maskable: true, irq_max_num: 32, cap_offset: 0x50 }
    );
    assert_eq!(
        msix().irq_type,
        IrqType::Msix {
            msix_table_bar: 1,
            msix_table_offset: 0x2000,
            pending_table_bar: 1,
            pending_table_offset: 0x3000,
            irq_max_num: 4,
            cap_offset: 0x70,
        }
    );
    let mut none = device();
    assert_eq!(none.irq_init(IRQ { legacy: false, msi: false, msix: true }, None, None), None);
    assert_eq!(none.irq_type, IrqType::Unused);
    assert_eq!(none.irq_init(IRQ::all_types(), None, None), Some(IrqType::Legacy));
}

#[test]
fn messages_are_switched_on_and_off() {
    assert_eq!(
        msi(1).irq_enable(true, 0x0080_0005),
        Ok(ConfigWrite { offset: 0x50, value: 0x0081_0005 })
    );
    assert_eq!(
        msix().irq_enable(false, 0x8003_0011),
        Ok(ConfigWrite { offset: 0x70, value: 0x0003_0011 })
    );
    assert_eq!(device().irq_enable(true, 0), Err(irq_error(PciIrqError::IrqNotInited)));
    assert_eq!(msi(1).msix_enable(true, 0), Err(irq_error(PciIrqError::IrqTypeUnmatch)));
}

#[test]
fn the_first_interrupt_writes_the_message() {
    let default = message(0, IrqSpecificMsg::msi_default());
    let installed = install(&msi(2), &default, [0x0181_0005, 0x01ff_0005], Ok(()));
    assert_eq!(installed.outcome, Ok(0));
    assert_eq!(
        installed.config,
        vec![
            ConfigWrite { offset: 0x50, value: 0x0180_0005 },
            ConfigWrite { offset: 0x54, value: 0xfee0_0000 },
            ConfigWrite { offset: 0x58, value: 0 },
            ConfigWrite { offset: 0x5c, value: 0x4060 },
            ConfigWrite { offset: 0x50, value: 0x019f_0000 },
        ]
    );
    let second = install(&msi(2), &message(1, IrqSpecificMsg::Legacy), [0x0181_0005, 0], Ok(()));
    assert_eq!(second.outcome, Ok(0));
    assert_eq!(second.config, vec![ConfigWrite { offset: 0x50, value: 0x0180_0005 }]);
}

#[test]
fn an_interrupt_that_cannot_be_set_up_says_why() {
    let default = || message(0, IrqSpecificMsg::msi_default());
    let refused = install(&msi(1), &default(), [0, 0], Err(SystemError::EINVAL));
    assert_eq!(refused.outcome, Err(irq_error(PciIrqError::InvalidIrqNum(IrqNumber::new(60)))));
    let taken = install(&msi(1), &default(), [0, 0], Err(SystemError::ENOMEM));
    assert_eq!(taken.outcome, Err(irq_error(PciIrqError::IrqNumOccupied(IrqNumber::new(60)))));
    let legacy = install(&msi(1), &message(0, IrqSpecificMsg::Legacy), [0, 0], Ok(()));
    assert_eq!(legacy.outcome, Err(irq_error(PciIrqError::IrqTypeUnmatch)));
    let overflow = install(&msi(33), &default(), [0, 0], Ok(()));
    assert_eq!(overflow.outcome, Err(irq_error(PciIrqError::DeviceIrqOverflow)));
    let odd = install(&msi(3), &default(), [0, 0], Ok(()));
    assert_eq!(odd.outcome, Err(irq_error(PciIrqError::MxiIrqNumWrong)));
    assert_eq!(odd.config.len(), 4);
    let fresh = install(&device(), &default(), [0, 0], Ok(()));
    assert_eq!(fresh.outcome, Err(irq_error(PciIrqError::IrqNotInited)));
    let far = message(2, IrqSpecificMsg::msi_default());
    let beyond = install(&msi(1), &far, [0, 0], Ok(()));
    assert_eq!(beyond.outcome, Err(irq_error(PciIrqError::InvalidIrqIndex(2))));
    assert_eq!(irq_requested(IrqNumber::new(1), Ok(())), Ok(()));
}

#[test]
fn a_table_holds_one_message_for_each_interrupt() {
    let second = message(1, IrqSpecificMsg::msi_default());
    let installed = install(&msix(), &second, [0x8003_0011, 0], Ok(()));
    assert_eq!(installed.config, vec![ConfigWrite { offset: 0x70, value: 0x0003_0011 }]);
    assert_eq!(installed.outcome, Ok(0));
    assert_eq!(
        installed.memory,
        vec![
            MemoryWrite { address: 0x10_201c, value: 0 },
            MemoryWrite { address: 0x10_2018, value: 0x4060 },
            MemoryWrite { address: 0x10_2014, value: 0 },
            MemoryWrite { address: 0x10_2010, value: 0xfee0_0000 },
        ]
    );
    let (quiet, rest) = msix().irq_uninstall(0x8003_0011).unwrap();
    assert_eq!(quiet, ConfigWrite { offset: 0x70, value: 0x0003_0011 });
    assert_eq!(rest.freed, vec![IrqNumber::new(70), IrqNumber::new(71)]);
    assert_eq!(rest.config, vec![ConfigWrite { offset: 0x70, value: 0 }]);
    assert_eq!(rest.memory.len(), 16);
    let (_, rest) = msi(1).irq_uninstall(0).unwrap();
    assert_eq!(rest.config.len(), 4);
    assert_eq!(device().irq_uninstall(0).err(), Some(irq_error(PciIrqError::IrqNotInited)));
}

#[test]
fn masks_concern_one_interrupt() {
    let device = msi(4);
    assert_eq!(device.msi_mask_register(), Some(0x60));
    assert_eq!(
        device.irq_mask(3, 0x1),
        Ok(MaskWrite::Config(ConfigWrite { offset: 0x60, value: 0x9 }))
    );
    assert_eq!(
        device.irq_unmask(3, 0x9),
        Ok(MaskWrite::Config(ConfigWrite { offset: 0x60, value: 0x1 }))
    );
    assert_eq!(device.irq_mask(32, 0), Err(irq_error(PciIrqError::InvalidIrqIndex(32))));
    assert_eq!(
        msix().irq_mask(1, 0),
        Ok(MaskWrite::Memory(MemoryWrite { address: 0x10_201c, value: 1 }))
    );
    assert_eq!(
        msix().irq_unmask(1, 0),
        Ok(MaskWrite::Memory(MemoryWrite { address: 0x10_201c, value: 0 }))
    );
}

#[test]
fn pending_interrupts_are_seen_behind_their_mask() {
    assert_eq!(msi(4).msi_pending_register(), Some(0x64));
    assert_eq!(msi(4).irq_check_pending(2, 0x4), Ok(true));
    assert_eq!(msi(4).irq_check_pending(2, 0xb), Ok(false));
    assert_eq!(msix().msix_pending_entry(3), Ok(0x10_3000));
    assert_eq!(msix().irq_check_pending(3, 0x8), Ok(true));
    assert_eq!(msix().irq_check_pending(9, 0x8), Err(irq_error(PciIrqError::InvalidIrqIndex(9))));
    assert_eq!(device().irq_check_pending(0, 0), Err(irq_error(PciIrqError::IrqNotInited)));
    assert!(msix_check_pending(65, 0x2));
}

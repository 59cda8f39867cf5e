//! Roots, headers, the search of the buses, and which driver takes which device.

use kdrivers::base::device::{DeviceCommonData, KObjectCommonData};
use kdrivers::base::driver::DriverCommonData;
use kdrivers::error::SystemError;
use kdrivers::net::e1000e::{e1000e_probe, known_controller};
use kdrivers::pci::attr::{BasicPciReadOnlyAttrs, PciAttr};
use kdrivers::pci::dev_id::{PciDeviceID, PciSpecifiedData, PCI_ANY_ID};
use kdrivers::pci::device::{pci_device_manager, PciBusDevice, PciDevice};
use kdrivers::pci::driver::{find_match, pci_driver_manager, InnerPciDriver, PciDriver};
use kdrivers::pci::ecam::{pci_ecam_root_info_manager, EcamRootInfo};
use kdrivers::pci::header::{
    capabilities_offset, find_capability, pci_read_header, CapabilityIterator,
    ExternalCapabilityIterator, PciDeviceStructure, PciFunction,
};
use kdrivers::pci::pt::pt_init;
use kdrivers::pci::raw_device::PciGeneralDevice;
use kdrivers::pci::root::{pci_root_0, ConfigPlace, PciCam, PciRoot, PciRootManager};
use kdrivers::pci::scan::{get_pci_device_structure, pci_init};
use kdrivers::pci::subsys::PciBus;
use kdrivers::pci::types::{BusDeviceFunction, HeaderType, PciAddr, PciError, PciIrqError};

fn place(bus: u8, device: u8, function: u8) -> BusDeviceFunction {
    BusDeviceFunction { bus, device, function }
}

/// The registers of an ordinary function.
fn general(vendor: u16, device: u16, class: u8, subclass: u8, header_type: u8) -> [u32; 18] {
    let mut regs = [0u32; 18];
    regs[0] = (device as u32) << 16 | vendor as u32;
    regs[1] = 0x0010_0007;
    regs[2] = (class as u32) << 24 | (subclass as u32) << 16 | 0x0203;
    regs[3] = (header_type as u32) << 16;
    regs[11] = 0x1100_1af4;
    regs[13] = 0x40;
    regs[15] = 0x0000_010b;
    regs
}

/// The registers of a bridge to another bus.
fn bridge(secondary: u8) -> [u32; 18] {
    let mut regs = general(0x1b36, 1, 6, 4, 1);
    regs[6] = (secondary as u32) << 8;
    regs
}

#[test]
fn places_are_valid_and_told_in_words() {
    assert!(place(255, 31, 7).valid());
    assert!(!place(0, 32, 0).valid());
    assert!(!place(0, 0, 8).valid());
    assert_eq!(place(1, 2, 3).text(), "bus 1 device 2 function3");
    assert_eq!(PciError::SegmentNotFound.message(""), "Target segment not found");
    assert_eq!(
        PciError::PciIrqError(PciIrqError::IrqNotInited).message("IrqNotInited"),
        "Error occurred while setting irq :IrqNotInited."
    );
    assert!(PciAddr::new(0x1000).check_aligned(0x100));
    assert!(!PciAddr::new(0x1001).check_aligned(0x100));
    assert_eq!(PciAddr::new(0x1000).add(4).data(), 0x1004);
    assert!(PciAddr::new(2) < PciAddr::new(10));
    assert!(PciAddr::new(10) > PciAddr::new(2) && PciAddr::new(3) <= PciAddr::new(3));
    assert!(PciAddr::new(3) == PciAddr::new(3) && PciAddr::new(3) != PciAddr::new(4));
    assert!(matches!(HeaderType::from(2), HeaderType::PciCardbusBridge));
    assert!(matches!(HeaderType::from(9), HeaderType::Unrecognised(9)));
}

#[test]
fn headers_are_read_by_their_type() {
    let function = pci_read_header(place(0, 3, 0), &general(0x1af4, 0x1000, 2, 0, 0)).unwrap();
    let device = function.as_standard_device().unwrap();
    assert_eq!(device.common_header.vendor_id, 0x1af4);
    assert_eq!(device.common_header.device_id, 0x1000);
    assert_eq!((device.common_header.class_code, device.common_header.subclass), (2, 0));
    assert_eq!((device.common_header.prog_if, device.common_header.revision_id), (2, 3));
    assert_eq!((device.subsystem_vendor_id, device.subsystem_id), (0x1af4, 0x1100));
    assert_eq!(device.capabilities_pointer, 0x40);
    assert_eq!((device.interrupt_line, device.interrupt_pin), (0x0b, 1));
    assert!(function.as_pci_to_pci_bridge_device().is_none());

    let function = pci_read_header(place(0, 1, 0), &bridge(4)).unwrap();
    assert_eq!(function.as_pci_to_pci_bridge_device().map(|b| b.secondary_bus_number), Some(4));
    let cardbus = pci_read_header(place(0, 2, 0), &general(1, 2, 6, 7, 2)).unwrap();
    assert!(cardbus.as_pci_to_carbus_bridge_device().is_some());

    assert_eq!(
        pci_read_header(place(0, 0, 0), &general(0xffff, 0xffff, 0, 0, 0)).err(),
        Some(PciError::GetWrongHeader)
    );
    assert_eq!(
        pci_read_header(place(0, 0, 0), &general(1, 2, 0, 0, 5)).err(),
        Some(PciError::UnrecognisedHeaderType)
    );
}

#[test]
fn capabilities_are_walked_to_the_end() {
    assert_eq!(capabilities_offset(0x0010_0000, 0x40), Some(0x40));
    assert_eq!(capabilities_offset(0, 0x40), None);
    let mut walk = CapabilityIterator {
        bus_device_function: place(0, 0, 0),
        next_capability_offset: Some(0x40),
    };
    let first = walk.next(0x1234_5005).unwrap();
    assert_eq!((first.offset, first.id, first.private_header), (0x40, 5, 0x1234));
    let last = walk.next(0x0000_0011).unwrap();
    assert_eq!((last.offset, last.id), (0x50, 0x11));
    assert!(walk.next(0).is_none());

    let headers = [0x0000_5009, 0x0000_0011];
    let start = CapabilityIterator {
        bus_device_function: place(0, 0, 0),
        next_capability_offset: Some(0x40),
    };
    assert_eq!(find_capability(start, &headers, 0x11), Some(0x50));
    let start = CapabilityIterator {
        bus_device_function: place(0, 0, 0),
        next_capability_offset: Some(0x40),
    };
    assert_eq!(find_capability(start, &headers, 5), None);

    let mut walk = ExternalCapabilityIterator {
        bus_device_function: place(0, 0, 0),
        next_capability_offset: Some(0x100),
    };
    let first = walk.next(0x1501_0001).unwrap();
    assert_eq!((first.offset, first.id, first.capability_version), (0x100, 1, 1));
    let next = walk.next(0x0000_0003).map(|info| info.offset);
    assert_eq!(next, Some(0x150));
}

fn root(segment: u16, begin: u8, end: u8) -> PciRoot {
    let info = EcamRootInfo::new(segment, begin, end, 0xb000_0000);
    PciRoot::new(Some(info), PciCam::Ecam, begin, end, Some(0x1_0000_0000)).unwrap()
}

#[test]
fn every_function_has_its_own_part_of_configuration_space() {
    let ecam = root(0, 2, 255);
    assert_eq!(ecam.cam_offset(place(2, 0, 0), 0x10), 0x10);
    assert_eq!(ecam.cam_offset(place(3, 1, 2), 0x10), 0x10_a010);
    assert_eq!(
        ecam.config_place(place(3, 1, 2), 0x10),
        ConfigPlace::Memory(0x1_0010_a010)
    );
    assert_eq!(PciRoot::map_size(0, 0), 0x20_0000);
    assert_eq!(PciRoot::map_size(0, 255), 0x1000_0000);
    let info = EcamRootInfo::new(1, 0, 1, 0xb000_0000);
    assert_eq!(
        PciRoot::new(Some(info), PciCam::Ecam, 0, 1, None).err(),
        Some(PciError::CreateMmioError)
    );
    let ports = PciRoot::new(None, PciCam::Portiocam, 0, 255, None).unwrap();
    assert_eq!(ports.config_place(place(0, 1, 0), 8), ConfigPlace::Processor(8));
    assert_eq!(ecam.external_capabilities(place(2, 0, 0)).next_capability_offset, Some(0x100));
}

#[test]
fn roots_are_found_by_their_segment() {
    let mut roots = PciRootManager::new();
    assert!(!roots.has_root(0));
    roots.add_pci_root(root(0, 0, 255));
    roots.add_pci_root(root(7, 0, 1));
    roots.add_pci_root(root(7, 0, 3));
    assert!(roots.has_root(7));
    assert_eq!(roots.get_pci_root(7).map(|found| found.bus_end), Some(3));
    assert!(roots.get_pci_root(1).is_none());
    let mut segments: Vec<u16> = roots.iter().iter().map(|(segment, _)| *segment).collect();
    segments.sort();
    assert_eq!(segments, vec![0, 7]);
    assert_eq!(pci_root_0(&roots).bus_end, 255);
    let info = EcamRootInfo::new(9, 0, 1, 0xb000_0000);
    pci_ecam_root_info_manager().add_ecam_root_info(&mut roots, info, None);
    assert!(!roots.has_root(9));
    pci_ecam_root_info_manager().add_ecam_root_info(&mut roots, info, Some(0x5000));
    assert!(roots.has_root(9));
}

#[test]
fn the_search_follows_bridges_and_functions() {
    let mut scan = pci_init();
    let mut asked = 0;
    while let Some(at) = scan.next() {
        asked += 1;
        let regs = match (at.bus, at.device, at.function) {
            (0, 0, 0) => general(0x8086, 0x1237, 6, 0, 0),
            (0, 2, 0) => general(0x8086, 0x10d3, 2, 0, 0x80),
            (0, 2, 1) => general(0x8086, 0x10d3, 2, 0, 0),
            (0, 3, 0) => bridge(1),
            (1, 4, 0) => general(0x1af4, 0x1000, 2, 0, 0),
            _ => general(0xffff, 0xffff, 0, 0, 0),
        };
        assert_eq!(scan.supply(pci_read_header(at, &regs)), Ok(()));
    }
    assert!(asked > 64);
    assert_eq!(scan.list.num(), 5);
    let found: Vec<(u8, u8, u8)> = scan
        .list
        .read()
        .iter()
        .map(|function| function.common_header().bus_device_function)
        .map(|at| (at.bus, at.device, at.function))
        .collect();
    assert!(found.contains(&(1, 4, 0)));
    assert!(found.contains(&(0, 2, 1)));
    let network = get_pci_device_structure(scan.list.read(), 2, 0);
    assert_eq!(network.len(), 3);
    let controllers = e1000e_probe(scan.list.read());
    assert_eq!(controllers.len(), 2);
    assert!(known_controller(scan.list.read()[controllers[0]].common_header()));
}

#[test]
fn the_search_ends_without_a_host_bridge() {
    let mut scan = pci_init();
    let at = scan.next().unwrap();
    let missing = pci_read_header(at, &general(0xffff, 0xffff, 0, 0, 0));
    assert_eq!(scan.supply(missing), Err(PciError::GetWrongHeader));
}

fn identity(vendor: u32, device_id: u32) -> PciDeviceID {
    let mut id = PciDeviceID::dummpy();
    id.vendor = vendor;
    id.device_id = device_id;
    id
}

#[test]
fn an_identity_matches_itself_and_anything() {
    let any = PciDeviceID::dummpy();
    let some = identity(0x1af4, 0x1000);
    assert!(any.match_dev(&some));
    assert!(some.match_dev(&some));
    assert!(!some.match_dev(&identity(0x1af4, 0x1001)));
    assert_eq!(any.vendor(), PCI_ANY_ID);
    let mut special = any;
    special.set_special(PciSpecifiedData::Virtio);
    assert!(!special.match_dev(&some));
    let ids = vec![identity(1, 2), some, any];
    assert_eq!(find_match(&ids, &some).map(|id| id.vendor()), Some(0x1af4));
    assert_eq!(find_match(&ids, &identity(9, 9)).map(|id| id.vendor()), Some(PCI_ANY_ID));
    assert!(find_match(&vec![identity(1, 2)], &some).is_none());
}

fn virtio_device() -> PciGeneralDevice {
    match pci_read_header(place(0, 3, 0), &general(0x1af4, 0x1000, 2, 0, 0)) {
        Ok(PciFunction::General(device)) => {
            PciGeneralDevice::from_header(device, String::from("0000:00:03.0"))
        }
        _ => panic!("an ordinary function"),
    }
}

#[test]
fn the_bus_brings_drivers_and_devices_together() {
    let device = virtio_device();
    assert_eq!(device.name(), "0000:00:03.0");
    let (test_device, mut driver) = pt_init(1, 2);
    let bus = PciBus::new();
    assert_eq!(bus.name(), "pci");
    driver.locked_dynid_list.clear();
    assert_eq!(bus.probe(Some(&driver), Some(&device)).err(), Some(SystemError::EINVAL));
    driver.locked_dynid_list.push(device.dynid());
    let by = bus.probe(Some(&driver), Some(&device)).unwrap();
    assert_eq!(by.vendor(), device.dynid().vendor());
    assert_eq!(
        bus.match_device(Some(&driver), Some(&device), &String::from("d"), None, &device.name()),
        Ok(true)
    );
    assert_eq!(bus.probe::<kdrivers::pci::pt::TestDriver, PciGeneralDevice>(None, Some(&device)).err(), Some(SystemError::EINVAL));
    driver.locked_dynid_list.clear();
    let name = String::from("same");
    assert_eq!(bus.match_device(Some(&driver), Some(&test_device), &name, None, &name), Ok(true));
    let other = String::from("other");
    assert_eq!(bus.match_device(Some(&driver), Some(&test_device), &name, Some(&other), &other), Ok(true));
    assert_eq!(bus.match_device(Some(&driver), Some(&test_device), &name, None, &other), Ok(false));
    assert!(driver.match_dev(&device.dynid()).is_none());
}

#[test]
fn devices_and_drivers_are_put_on_the_bus() {
    let mut kobject = KObjectCommonData::default();
    let mut device = DeviceCommonData::default();
    pci_device_manager().device_add(&mut kobject, &mut device, 11, 12);
    assert_eq!(device.bus(), Some(12));
    let mut driver = DriverCommonData::default();
    pci_driver_manager().register(&mut driver, 12);
    assert_eq!(driver.bus(), Some(12));
    let bus_device = PciBusDevice::new(Some(4));
    assert_eq!(bus_device.name(), "pci");
    let mut inner = InnerPciDriver {
        ktype: None,
        kset: None,
        parent: None,
        kernfs_inode: None,
        devices: Vec::new(),
        bus: None,
        locked_dynid_list: Vec::new(),
    };
    inner.insert_id(identity(1, 2));
    assert_eq!(inner.id_list().len(), 1);
}

#[test]
fn attributes_of_a_device_are_shown() {
    let facts = virtio_device().facts();
    assert_eq!(PciAttr::Vendor.show(&facts), "0x1af4");
    assert_eq!(PciAttr::DeviceID.show(&facts), "0x1000");
    assert_eq!(PciAttr::SubsystemDevice.show(&facts), "0x1100");
    assert_eq!(PciAttr::Revision.show(&facts), "0x03");
    assert_eq!(PciAttr::Class.show(&facts), "0x000002");
    assert_eq!(PciAttr::Irq.show(&facts), "11");
    assert_eq!(
        PciAttr::Modalias.show(&facts),
        "pci:v00001AF4d00001000sv00001AF4sd00001100bc02sc00i02"
    );
    assert_eq!(BasicPciReadOnlyAttrs {}.attrs().len(), 8);
}

#[test]
fn a_device_is_let_onto_the_bus_and_knows_its_capabilities() {
    let regs = general(0x1af4, 0x1000, 2, 0, 0);
    let Ok(PciFunction::General(mut device)) = pci_read_header(place(0, 3, 0), &regs) else {
        panic!("an ordinary function");
    };
    let headers = [0x0000_5009, 0x0188_6005, 0x0003_0011];
    assert_eq!(device.msi_capability_offset(&headers), Some(0x50));
    assert_eq!(device.msix_capability_offset(&headers), Some(0x60));
    assert_eq!(device.msix_capability_offset(&headers[..2]), None);
    let write = device.enable_master();
    assert_eq!((write.offset, write.value), (4, 7));
    assert_eq!(device.common_header.command, 7);
    let (status, command) = device.status_command();
    assert!(status.has_capabilities());
    assert_eq!(command.bits(), 7);
}

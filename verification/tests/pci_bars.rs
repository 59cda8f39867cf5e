//! Base address registers.

use kdrivers::pci::bar::{
    unallocated_bar_has_required_mapping, BarInfo, MemoryBarType, PciBarMappedRange,
    PciBarMappingRequest, PciBarSubresourceGuard, PciBarSubresources, PciStandardDeviceBar,
};
use kdrivers::pci::bar_init::{
    probe, probe_ops, range_mapping, BarInit, BarMapping, BarPlan, BarProbe, BarReading, ConfigOp,
    RangeMapping,
};
use kdrivers::pci::types::{BusDeviceFunction, ConfigWrite, PciError};

#[test]
fn rejects_required_mapping_for_unallocated_bar() {
    let mappings = [PciBarMappingRequest { bar: 2, offset: 0x1000, length: 0x1000 }];

    assert!(unallocated_bar_has_required_mapping(0, 2, &mappings));
    assert!(!unallocated_bar_has_required_mapping(0, 1, &mappings));
    assert!(!unallocated_bar_has_required_mapping(0x1000, 2, &mappings));
}

#[test]
fn the_lowest_bits_tell_how_a_register_is_measured() {
    assert_eq!(probe(0, 0xe001), Ok(BarProbe::Io));
    assert_eq!(probe(0, 0xfe00_0000), Ok(BarProbe::Memory32(MemoryBarType::Width32)));
    assert_eq!(probe(0, 0x2), Ok(BarProbe::Memory32(MemoryBarType::Below1MiB)));
    assert_eq!(probe(4, 0xc), Ok(BarProbe::Memory64));
    assert_eq!(probe(5, 0x4), Err(PciError::InvalidBarType));
    assert_eq!(probe(0, 0x6), Err(PciError::InvalidBarType));
    assert_eq!(u8::from(MemoryBarType::Width64), 2);
    assert_eq!(MemoryBarType::try_from(1), Ok(MemoryBarType::Below1MiB));
    assert_eq!(MemoryBarType::try_from(3), Err(PciError::InvalidBarType));
}

#[test]
fn measuring_puts_registers_back() {
    assert_eq!(
        probe_ops(1, BarProbe::Io, 0xe001, 0),
        vec![
            ConfigOp::Write(0x14, 0xffff_ffff),
            ConfigOp::Read(0x14),
            ConfigOp::Write(0x14, 0xe001),
        ]
    );
    assert_eq!(
        probe_ops(4, BarProbe::Memory64, 0xc, 7),
        vec![
            ConfigOp::Write(0x20, 0xffff_ffff),
            ConfigOp::Write(0x24, 0xffff_ffff),
            ConfigOp::Read(0x20),
            ConfigOp::Read(0x24),
            ConfigOp::Write(0x20, 0xc),
            ConfigOp::Write(0x24, 7),
        ]
    );
}

#[test]
fn masks_tell_sizes() {
    let ports = BarReading { orig: 0xe001, mask: 0xffff_ffe1, top: 0, top_mask: 0 };
    assert_eq!(ports.io_length(), 32);
    let narrow = BarReading { orig: 0xfe00_0008, mask: 0xfffe_0008, top: 0, top_mask: 0 };
    assert_eq!(narrow.region(BarProbe::Memory32(MemoryBarType::Width32)), (0xfe00_0000, 0x2_0000));
    let wide = BarReading { orig: 0x4, mask: 0x4, top: 8, top_mask: 0xffff_fffc };
    assert_eq!(wide.region(BarProbe::Memory64), (0x8_0000_0000, 0x4_0000_0000));
    let none = BarReading { orig: 0, mask: 0, top: 0, top_mask: 0 };
    assert_eq!(none.region(BarProbe::Memory32(MemoryBarType::Width32)).1, 0);
}

fn absent() -> BarReading {
    BarReading { orig: 0, mask: 0, top: 0, top_mask: 0 }
}

const WIDTH32: BarProbe = BarProbe::Memory32(MemoryBarType::Width32);

fn skip_rest(work: &mut BarInit) {
    while work.next_bar().is_some() {
        let plan = work.plan_bar(WIDTH32, absent()).unwrap();
        assert!(matches!(plan, BarPlan::Absent));
        assert_eq!(work.commit(WIDTH32, plan, Some(Vec::new())), Ok(()));
    }
}

#[test]
fn a_device_is_measured_register_by_register() {
    let mut work = BarInit::begin(Vec::new(), Vec::new(), true).unwrap();
    assert_eq!(work.disable_decode(0x0010_0007), ConfigWrite { offset: 4, value: 4 });
    assert_eq!(work.next_bar(), Some(0));
    let wide = BarReading { orig: 0xfe00_000c, mask: 0xffff_000c, top: 1, top_mask: 0xffff_ffff };
    let plan = work.plan_bar(BarProbe::Memory64, wide).unwrap();
    assert!(matches!(plan, BarPlan::Memory { mapping: BarMapping::Whole(0x1_0000), .. }));
    assert_eq!(work.commit(BarProbe::Memory64, plan, Some(vec![0x7000_0000])), Ok(()));
    // The upper half is no register of its own.
    assert_eq!(work.next_bar(), Some(2));
    let ports = BarReading { orig: 0xe001, mask: 0xffff_ffe1, top: 0, top_mask: 0 };
    let plan = work.plan_bar(BarProbe::Io, ports).unwrap();
    assert_eq!(work.commit(BarProbe::Io, plan, Some(Vec::new())), Ok(()));
    skip_rest(&mut work);
    assert_eq!(work.restore_decode(), ConfigWrite { offset: 4, value: 7 });
    let bars = work.finish().unwrap();
    let bar0 = bars.get_bar(0).unwrap();
    assert_eq!(bar0.memory_address_size(), Some((0x1_fe00_0000, 0x1_0000)));
    assert_eq!(bar0.virtual_address(), Some(0x7000_0000));
    assert_eq!(bar0.virtual_address_at(0x10, 4), Some(0x7000_0010));
    assert_eq!(bar0.virtual_address_at(0xffff, 2), None);
    assert!(matches!(bars.get_bar(1), Ok(BarInfo::Unused)));
    assert!(matches!(bars.get_bar(2), Ok(BarInfo::IO { address: 0xe000, size: 32 })));
    assert!(matches!(bars.get_bar(6), Err(PciError::InvalidBarType)));
}

#[test]
fn only_the_pages_of_what_is_demanded_are_mapped() {
    let demands = vec![
        PciBarMappingRequest { bar: 0, offset: 0x5010, length: 0x20 },
        PciBarMappingRequest { bar: 0, offset: 0x1ff0, length: 0x20 },
        PciBarMappingRequest { bar: 0, offset: 0x2000, length: 0x1000 },
    ];
    let mut work = BarInit::begin(vec![0], demands, true).unwrap();
    let reading = BarReading { orig: 0xf000_0000, mask: 0xfff0_0000, top: 0, top_mask: 0 };
    let plan = work.plan_bar(WIDTH32, reading).unwrap();
    match &plan {
        BarPlan::Memory { mapping: BarMapping::Ranges(ranges), .. } => {
            assert_eq!(*ranges, vec![(0x1000, 0x3000), (0x5000, 0x6000)]);
        }
        _ => panic!("parts are mapped"),
    }
    assert_eq!(work.commit(WIDTH32, plan, Some(vec![0x10_0000, 0x20_0000])), Ok(()));
    skip_rest(&mut work);
    let bars = work.finish().unwrap();
    let bar0 = bars.get_bar(0).unwrap();
    assert_eq!(bar0.virtual_address(), None);
    assert_eq!(bar0.virtual_address_at(0x5010, 0x20), Some(0x20_0010));
    assert_eq!(bar0.virtual_address_at(0x1ff0, 0x20), Some(0x10_0ff0));
    assert_eq!(bar0.virtual_address_at(0x3000, 1), None);
}

#[test]
fn demands_that_cannot_be_met_are_errors() {
    let reading = BarReading { orig: 0xf000_0000, mask: 0xffff_f000, top: 0, top_mask: 0 };
    let past_end = vec![PciBarMappingRequest { bar: 0, offset: 0x800, length: 0x801 }];
    let work = BarInit::begin(vec![0], past_end.clone(), true).unwrap();
    assert_eq!(work.plan_bar(WIDTH32, reading).err(), Some(PciError::InvalidBarRange));
    let work = BarInit::begin(Vec::new(), past_end, true).unwrap();
    assert_eq!(work.plan_bar(WIDTH32, reading).err(), Some(PciError::InvalidBarRange));
    let nowhere = vec![PciBarMappingRequest { bar: 3, offset: 0, length: 1 }];
    let mut work = BarInit::begin(Vec::new(), nowhere, true).unwrap();
    skip_rest(&mut work);
    assert_eq!(work.finish().err(), Some(PciError::InvalidBarRange));
    let unallocated = vec![PciBarMappingRequest { bar: 0, offset: 0, length: 1 }];
    let work = BarInit::begin(Vec::new(), unallocated, true).unwrap();
    let at_zero = BarReading { orig: 0, mask: 0xffff_f000, top: 0, top_mask: 0 };
    assert_eq!(work.plan_bar(WIDTH32, at_zero).err(), Some(PciError::InvalidBarRange));
    assert_eq!(BarInit::begin(Vec::new(), Vec::new(), false).err(), Some(PciError::CreateMmioError));
    let mut work = BarInit::begin(Vec::new(), Vec::new(), true).unwrap();
    let plan = work.plan_bar(WIDTH32, reading).unwrap();
    assert_eq!(work.commit(WIDTH32, plan, None), Err(PciError::CreateMmioError));
}

#[test]
fn parts_are_mapped_by_whole_pages() {
    assert_eq!(
        range_mapping(0x8010, 0x1000, 0x1800),
        Ok(RangeMapping { paddr: 0x9010, length: 0x800, mapped_length: 0x1000 })
    );
    assert_eq!(
        range_mapping(0x8f00, 0, 0x1000),
        Ok(RangeMapping { paddr: 0x8f00, length: 0x1000, mapped_length: 0x2000 })
    );
    assert_eq!(range_mapping(0, 2, 1), Err(PciError::InvalidBarRange));
    assert_eq!(range_mapping(usize::MAX, 1, 2), Err(PciError::InvalidBarRange));
}

fn memory_bars(size: u64) -> PciStandardDeviceBar {
    let mut bars = PciStandardDeviceBar::default();
    bars.set_bar(
        1,
        BarInfo::Memory {
            address_type: MemoryBarType::Width64,
            prefetchable: true,
            address: 0x1_8000_0000,
            size,
            mmio_guard: None,
            mapped_ranges: vec![PciBarMappedRange { offset: 0, length: 0x1000, vaddr: 0x4000 }],
        },
    );
    bars
}

const PLACE: BusDeviceFunction = BusDeviceFunction { bus: 0, device: 3, function: 0 };

#[test]
fn parts_of_a_region_have_one_user_at_a_time() {
    let bars = memory_bars(0x10_0000);
    let mut used = PciBarSubresources::new();
    let take = |used: &mut PciBarSubresources, offset: u64, length: u64| {
        PciBarSubresourceGuard::reserve(used, PLACE, &bars, 1, offset, length, 0x1_8000_0000 + offset, true)
    };
    let first = take(&mut used, 0x1000, 0x1000).unwrap();
    assert!(take(&mut used, 0x1fff, 1).is_err());
    assert!(take(&mut used, 0x2000, 0x1000).is_ok());
    first.release(&mut used);
    assert!(take(&mut used, 0x1fff, 1).is_ok());
    assert_eq!(take(&mut used, 0, 0).err(), Some(PciError::InvalidBarRange));
    assert_eq!(take(&mut used, 0xf_ffff, 2).err(), Some(PciError::InvalidBarRange));
    let ports = PciBarSubresourceGuard::reserve(&mut used, PLACE, &bars, 0, 0, 1, 0, true);
    assert_eq!(ports.err(), Some(PciError::InvalidBarType));
    assert!(PciBarSubresourceGuard::reserve(&mut used, PLACE, &bars, 1, 0x9000, 1, 0x1_8000_9000, false).is_err());
}

#[test]
fn registers_are_told_in_words() {
    let bars = memory_bars(0x2000);
    assert_eq!(
        bars.get_bar(1).unwrap().text("None"),
        "Memory space at 0x180000000, size 8192, type Width64, prefetchable true, mmio_guard: None"
    );
    assert_eq!(
        BarInfo::IO { address: 0xe000, size: 32 }.text(""),
        "I/O space at 0x0000e000, size 32"
    );
    let all = PciStandardDeviceBar::default().text(&["", "", "", "", "", ""]);
    assert_eq!(
        all,
        "\r\nBar0:Unused bar\r\nBar1:Unused bar\r\nBar2:Unused bar\r\nBar3:Unused bar\r\nBar4:Unused bar\r\nBar5:Unused bar"
    );
}

#[test]
fn addresses_are_aligned_whatever_was_read() {
    let reading = BarReading { orig: 0xfebd_101f, mask: 0, top: 0x1, top_mask: 0 };
    let (address, _) = reading.region(BarProbe::Memory64);
    assert_eq!(address, 0x1_febd_1010);
    assert_eq!(address % 16, 0);
}

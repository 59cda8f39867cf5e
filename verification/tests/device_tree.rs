//! Flattened device trees.

use kdrivers::error::SystemError;
use kdrivers::open_firmware::blob::{
    check, check_header, check_reserved, memory_reservations, total_size,
};
use kdrivers::open_firmware::device_node::{DeviceNode, Property};
use kdrivers::open_firmware::fdt::{
    node_is_compatible, open_firmware_fdt_driver, read_cell, read_tree, reserved_mem_reserve_reg,
    FdtGlobalData, FdtNode, FdtProperty, ReserveStep, ReservedRange,
};

/// Writes a tree piece by piece.
struct Writer {
    structure: Vec<u8>,
    strings: Vec<u8>,
}

impl Writer {
    fn new() -> Self {
        Writer { structure: Vec::new(), strings: Vec::new() }
    }

    fn word(&mut self, value: u32) {
        self.structure.extend_from_slice(&value.to_be_bytes());
    }

    fn fill(&mut self) {
        while self.structure.len() % 4 != 0 {
            self.structure.push(0);
        }
    }

    fn begin(&mut self, name: &str) {
        self.word(1);
        self.structure.extend_from_slice(name.as_bytes());
        self.structure.push(0);
        self.fill();
    }

    fn end(&mut self) {
        self.word(2);
    }

    fn property(&mut self, name: &str, value: &[u8]) {
        let at = self.strings.len() as u32;
        self.strings.extend_from_slice(name.as_bytes());
        self.strings.push(0);
        self.word(3);
        self.word(value.len() as u32);
        self.word(at);
        self.structure.extend_from_slice(value);
        self.fill();
    }

    fn finish(mut self, reservations: &[(u64, u64)]) -> Vec<u8> {
        self.word(9);
        let len = self.structure.len();
        self.structure[len - 4..].copy_from_slice(&5u32.to_be_bytes());
        let reserved = 40;
        let structure = reserved + 16 * (reservations.len() + 1);
        let strings = structure + self.structure.len();
        let total = strings + self.strings.len();
        let mut blob = Vec::new();
        for word in [
            0xd00d_feed,
            total as u32,
            structure as u32,
            strings as u32,
            reserved as u32,
            17,
            16,
            0,
            self.strings.len() as u32,
            self.structure.len() as u32,
        ] {
            blob.extend_from_slice(&u32::to_be_bytes(word));
        }
        for (address, size) in reservations {
            blob.extend_from_slice(&address.to_be_bytes());
            blob.extend_from_slice(&size.to_be_bytes());
        }
        blob.extend_from_slice(&[0; 16]);
        blob.extend_from_slice(&self.structure);
        blob.extend_from_slice(&self.strings);
        blob
    }
}

fn cells(words: &[u32]) -> Vec<u8> {
    words.iter().flat_map(|word| word.to_be_bytes()).collect()
}

fn board() -> Vec<u8> {
    let mut tree = Writer::new();
    tree.begin("");
    tree.property("#address-cells", &cells(&[2]));
    tree.property("#size-cells", &cells(&[1]));
    tree.begin("chosen");
    tree.property("bootargs", b"console=ttyS0\0");
    tree.end();
    tree.begin("memory@80000000");
    tree.property("device_type", b"memory\0");
    tree.property("reg", &cells(&[0, 0x8000_0000, 0x1000_0000]));
    tree.end();
    tree.begin("memory@off");
    tree.property("device_type", b"memory\0");
    tree.property("status", b"disabled\0");
    tree.property("reg", &cells(&[0, 0x9000_0000, 0x1000]));
    tree.end();
    tree.begin("reserved-memory");
    tree.begin("firmware@80000000");
    tree.property("reg", &cells(&[0, 0x8000_0000, 0x2000]));
    tree.property("no-map", b"");
    tree.end();
    tree.begin("odd");
    tree.property("reg", &cells(&[1]));
    tree.end();
    tree.end();
    tree.begin("uart@10000000");
    tree.property("compatible", b"ns16550a\0snps,uart\0");
    tree.end();
    tree.end();
    tree.finish(&[(0x4000, 0), (0x8800_0000, 0x3000)])
}

#[test]
fn a_sound_tree_is_read() {
    let blob = board();
    assert!(check_header(&blob));
    assert!(check(&blob));
    assert_eq!(total_size(&blob), blob.len());
    assert_eq!(memory_reservations(&blob), vec![(0x4000, 0), (0x8800_0000, 0x3000)]);
    let tree = read_tree(&blob).unwrap();
    let root = tree.root.as_ref().unwrap();
    assert_eq!(root.property("#address-cells"), Some(&vec![0, 0, 0, 2]));
    assert_eq!(root.property("#none"), None);
    let names: Vec<&str> = tree.nodes.iter().map(|node| node.name.as_str()).collect();
    assert!(names.contains(&"uart@10000000"));
    assert!(names.contains(&"firmware@80000000"));
    assert_eq!(tree.chosen.as_ref().map(|node| node.name.as_str()), Some("chosen"));
    assert!(tree.chosen_at_0.is_none());
    let reserved: Vec<&str> =
        tree.reserved.as_ref().unwrap().iter().map(|node| node.name.as_str()).collect();
    assert_eq!(reserved, vec!["firmware@80000000", "odd"]);
    assert!(check_reserved(&blob));
}

#[test]
fn broken_trees_are_not_read() {
    let blob = board();
    assert!(read_tree(&blob[..39]).is_none());
    let mut wrong_magic = blob.clone();
    wrong_magic[0] = 0;
    assert!(!check_header(&wrong_magic));
    assert!(read_tree(&wrong_magic).is_none());
    let mut not_closed = Writer::new();
    not_closed.begin("");
    not_closed.begin("a");
    assert!(!check(&not_closed.finish(&[])));
    let mut named_root = Writer::new();
    named_root.begin("x");
    named_root.end();
    assert!(!check(&named_root.finish(&[])));
    let mut bad_text = Writer::new();
    bad_text.begin("");
    bad_text.begin("a");
    bad_text.end();
    bad_text.end();
    let mut bytes = bad_text.finish(&[]);
    let at = bytes.iter().rposition(|byte| *byte == b'a').unwrap();
    bytes[at] = 0xff;
    assert!(!check(&bytes));
}

#[test]
fn a_missing_or_foreign_tree_is_an_error() {
    let driver = open_firmware_fdt_driver();
    assert_eq!(driver.fdt_ref(None).err(), Some(SystemError::ENODEV));
    assert_eq!(driver.fdt_ref(Some(&[0; 64])).err(), Some(SystemError::EINVAL));
    assert!(driver.fdt_ref(Some(&board())).is_ok());
}

#[test]
fn the_scan_finds_memory_and_the_command_line() {
    let driver = open_firmware_fdt_driver();
    let mut known = FdtGlobalData::new();
    assert_eq!(
        driver.early_scan_device_tree(None, &mut known).err(),
        Some(SystemError::ENODEV)
    );
    assert_eq!(
        driver.early_scan_device_tree(Some(&[0; 64]), &mut known).err(),
        Some(SystemError::EINVAL)
    );
    let scan = driver.early_scan_device_tree(Some(&board()), &mut known).unwrap().unwrap();
    assert_eq!((known.root_addr_cells, known.root_size_cells), (2, 1));
    assert_eq!(known.chosen_node_name, Some("/chosen"));
    assert_eq!(scan.bootargs, Some(b"console=ttyS0".to_vec()));
    assert_eq!(scan.memory, vec![(0x8000_0000, 0x1000_0000)]);
    assert_eq!(driver.early_init_scan_root(&None, &mut known), Err(SystemError::ENODEV));
    let mut nameless = Writer::new();
    nameless.begin("x");
    nameless.end();
    let nameless = nameless.finish(&[]);
    assert!(driver.early_scan_device_tree(Some(&nameless), &mut known).unwrap().is_none());
}

#[test]
fn every_region_of_a_memory_node_is_found() {
    let driver = open_firmware_fdt_driver();
    let mut tree = Writer::new();
    tree.begin("");
    tree.property("#address-cells", &cells(&[2]));
    tree.property("#size-cells", &cells(&[2]));
    tree.begin("memory@80000000");
    tree.property("device_type", b"memory\0");
    tree.property(
        "reg",
        &cells(&[0, 0x8000_0000, 0, 0x1000, 1, 0, 0, 0x2000, 2, 0, 0, 0, 3, 0, 0, 0x3000]),
    );
    tree.end();
    tree.end();
    let mut known = FdtGlobalData::new();
    let blob = tree.finish(&[]);
    let scan = driver.early_scan_device_tree(Some(&blob), &mut known).unwrap().unwrap();
    assert_eq!(
        scan.memory,
        vec![(0x8000_0000, 0x1000), (0x1_0000_0000, 0x2000), (0x3_0000_0000, 0x3000)]
    );
    assert_eq!(known.chosen_node_name, None);
}

#[test]
fn what_does_not_count_is_passed_over() {
    let driver = open_firmware_fdt_driver();
    let mut tree = Writer::new();
    tree.word(4);
    tree.begin("");
    tree.word(4);
    tree.property("#address-cells", &cells(&[1]));
    tree.word(4);
    tree.property("/odd", b"");
    tree.property("#size-cells", &cells(&[1]));
    tree.word(4);
    tree.begin("memory");
    tree.property("device_type", b"memory\0");
    tree.property("reg", &cells(&[0x1000, 0x2000]));
    tree.end();
    tree.word(4);
    tree.end();
    let blob = tree.finish(&[]);
    assert!(check(&blob));
    let read = read_tree(&blob).unwrap();
    assert_eq!(read.root.as_ref().unwrap().properties.len(), 3);
    assert!(read.chosen.is_none());
    assert_eq!(read.nodes.len(), 1);
    let mut known = FdtGlobalData::new();
    assert!(driver.early_scan_device_tree(Some(&blob), &mut known).unwrap().is_some());

    let mut tree = Writer::new();
    tree.begin("");
    tree.begin("chosen@1");
    tree.property("bootargs", b"quiet\0");
    tree.word(4);
    tree.property("late", b"x");
    tree.end();
    tree.word(4);
    tree.begin("memory");
    tree.property("device_type", b"memory\0");
    tree.property("reg", &cells(&[0x1000, 0x2000]));
    tree.end();
    let mut blob = tree.finish(&[]);
    // No token ends the tree.
    let struct_at = u32::from_be_bytes([blob[8], blob[9], blob[10], blob[11]]) as usize;
    let struct_len = u32::from_be_bytes([blob[36], blob[37], blob[38], blob[39]]) - 4;
    blob[36..40].copy_from_slice(&struct_len.to_be_bytes());
    assert_eq!(blob[struct_at + struct_len as usize + 3], 5);
    let scan = driver.early_scan_device_tree(Some(&blob), &mut known).unwrap().unwrap();
    assert_eq!(scan.bootargs, Some(b"quiet".to_vec()));
}

#[test]
fn a_node_that_stands_in_the_way_of_a_search_is_noticed() {
    let mut tree = Writer::new();
    tree.begin("");
    tree.begin("a");
    tree.word(4);
    tree.property("late", b"x");
    tree.end();
    tree.begin("chosen");
    tree.end();
    tree.end();
    let blob = tree.finish(&[]);
    assert!(!check(&blob));
    assert!(read_tree(&blob).unwrap().root.is_none());

    let mut tree = Writer::new();
    tree.begin("");
    tree.begin("aliases");
    tree.property("/chosen", b"/chosen\0");
    tree.end();
    tree.end();
    assert!(!check(&tree.finish(&[])));
}

fn small_memory(tree: &mut Writer) {
    tree.begin("memory");
    tree.property("device_type", b"memory\0");
    tree.property("reg", &cells(&[0x1000, 0x2000]));
    tree.end();
}

fn with_aliases(aliases: &[(&str, &[u8])]) -> Vec<u8> {
    let mut tree = Writer::new();
    tree.begin("");
    small_memory(&mut tree);
    tree.begin("soc@1");
    tree.begin("other");
    tree.end();
    tree.begin("choice@7");
    tree.property("bootargs", b"named\0");
    tree.end();
    tree.end();
    tree.begin("aliases");
    for (name, value) in aliases {
        tree.property(name, value);
    }
    tree.end();
    tree.end();
    tree.finish(&[])
}

#[test]
fn a_path_may_be_another_name_of_a_node() {
    let driver = open_firmware_fdt_driver();
    let scan = |blob: &[u8]| {
        let mut known = FdtGlobalData::new();
        let scan = driver.early_scan_device_tree(Some(blob), &mut known).unwrap();
        scan.map(|scan| {
            assert_eq!(scan.memory, vec![(0x1000, 0x2000)]);
            (scan.bootargs, known.chosen_node_name)
        })
    };
    let direct: &[(&str, &[u8])] = &[("/chosen", b"/soc/choice\0")];
    assert_eq!(
        scan(&with_aliases(direct)),
        Some((Some(b"named".to_vec()), Some("/chosen")))
    );
    let chain: &[(&str, &[u8])] =
        &[("pick", b"/soc@1/choice@7/"), ("/chosen", b"first\0"), ("first", b"pick\0\0")];
    assert_eq!(
        scan(&with_aliases(chain)),
        Some((Some(b"named".to_vec()), Some("/chosen")))
    );
    let second: &[(&str, &[u8])] =
        &[("/chosen", b"/soc/none\0"), ("/chosen@0", b"/soc/choice@7\0")];
    assert_eq!(
        scan(&with_aliases(second)),
        Some((Some(b"named".to_vec()), Some("/chosen@0")))
    );
    let no_text: &[(&str, &[u8])] = &[("/chosen", &[0xff, 0])];
    assert_eq!(scan(&with_aliases(no_text)), Some((None, None)));
    let circle: &[(&str, &[u8])] = &[("/chosen", b"a\0"), ("a", b"/chosen\0")];
    assert_eq!(scan(&with_aliases(circle)), None);
}

#[test]
fn a_property_that_cannot_be_read_hides_only_what_follows() {
    let driver = open_firmware_fdt_driver();
    let broken = |before: bool| {
        let mut tree = Writer::new();
        tree.begin("");
        small_memory(&mut tree);
        tree.begin("chosen");
        tree.property("device_type", b"none\0");
        if before {
            tree.property("bootargs", b"quiet\0");
        }
        tree.word(4);
        tree.word(3);
        tree.word(0);
        tree.word(0x7fff_ffff);
        if !before {
            tree.property("bootargs", b"quiet\0");
        }
        tree.end();
        tree.end();
        tree.finish(&[])
    };
    let mut known = FdtGlobalData::new();
    let scan = driver.early_scan_device_tree(Some(&broken(true)), &mut known).unwrap().unwrap();
    assert_eq!(scan.bootargs, Some(b"quiet".to_vec()));
    assert_eq!(scan.memory, vec![(0x1000, 0x2000)]);
    let tree = read_tree(&broken(false)).unwrap();
    let chosen = tree.chosen.as_ref().unwrap();
    assert!(chosen.properties.len() == 1 && !chosen.complete);
    assert!(!chosen.is_decided("bootargs"));
    assert!(tree.nodes[0].complete && tree.nodes[1].complete && !tree.nodes[2].complete);
    assert!(!driver.can_scan(&tree, &known));
    assert!(driver.early_scan_device_tree(Some(&broken(false)), &mut known).unwrap().is_none());
}

#[test]
fn a_tree_is_not_too_deep() {
    let nested = |depth: usize| {
        let mut tree = Writer::new();
        tree.begin("");
        for _ in 1..depth {
            tree.begin("n");
        }
        for _ in 1..depth {
            tree.end();
        }
        tree.end();
        tree.finish(&[])
    };
    assert!(check(&nested(63)));
    assert!(read_tree(&nested(63)).unwrap().nodes.len() == 63);
    assert!(!check(&nested(64)));
    assert!(!check_reserved(&nested(64)));
    assert!(!check(&nested(100_000)));
}

#[test]
fn memory_is_given_in_whole_pages_between_the_bounds() {
    let driver = open_firmware_fdt_driver();
    assert_eq!(
        driver.early_init_dt_add_memory(0x1800, 0x3000, 0, usize::MAX),
        Some((0x1000, 0x2000))
    );
    assert_eq!(driver.early_init_dt_add_memory(0x1000, 0x3000, 0x2000, 0x2fff), Some((0x2000, 0x1000)));
    assert_eq!(driver.early_init_dt_add_memory(0x1000, 0x1000, 0x8000, usize::MAX), None);
    assert_eq!(driver.early_reserve_fdt_itself(0x5010, 0xff0), (0x5000, 0x1000));
    assert_eq!(driver.early_reserve_fdt_itself(0x5010, 0xff1), (0x5000, 0x2000));
}

#[test]
fn reserved_memory_is_kept_back() {
    let driver = open_firmware_fdt_driver();
    let tree = read_tree(&board());
    let mut known = FdtGlobalData::new();
    known.root_addr_cells = 2;
    known.root_size_cells = 1;
    let kept = driver.early_init_fdt_scan_reserved_mem(&tree, 0x8700_0000, &known).unwrap();
    assert_eq!(kept.own, (0x8700_0000, 0x1000));
    assert_eq!(kept.listed, vec![(0x8800_0000, 0x3000)]);
    assert_eq!(
        kept.named,
        vec![ReservedRange { base: 0x8000_0000, size: 0x2000, nomap: true }]
    );
    assert!(driver.early_init_fdt_scan_reserved_mem(&None, 0, &known).is_none());
    assert_eq!(driver.fdt_scan_reserved_mem(&None, &known).err(), Some(SystemError::ENODEV));
    let nodes = tree.unwrap().reserved.unwrap();
    assert_eq!(reserved_mem_reserve_reg(&nodes[1], &known).err(), Some(SystemError::EINVAL));
    let bare = FdtNode { name: String::from("bare"), properties: Vec::new(), complete: true };
    assert_eq!(reserved_mem_reserve_reg(&bare, &known).err(), Some(SystemError::ENOENT));
    assert!(matches!(driver.early_init_dt_reserve_memory(false, true, true), ReserveStep::Reserve));
    assert!(matches!(driver.early_init_dt_reserve_memory(true, true, false), ReserveStep::MarkNomap));
    assert!(matches!(
        driver.early_init_dt_reserve_memory(true, true, true),
        ReserveStep::Refuse(SystemError::EBUSY)
    ));
}

#[test]
fn nodes_are_found_by_what_they_are_compatible_with() {
    let driver = open_firmware_fdt_driver();
    let tree = read_tree(&board()).unwrap();
    let found = driver.find_node_by_compatible(&tree.nodes, &b"snps,uart".to_vec());
    assert_eq!(found.len(), 1);
    assert_eq!(tree.nodes[found[0]].name, "uart@10000000");
    assert!(driver.find_node_by_compatible(&tree.nodes, &b"uart".to_vec()).is_empty());
    assert!(node_is_compatible(&tree.nodes[found[0]], &b"ns16550a".to_vec()));
}

#[test]
fn nodes_are_available_unless_they_say_otherwise() {
    let driver = open_firmware_fdt_driver();
    let node = |status: Option<&[u8]>| FdtNode {
        name: String::from("n"),
        properties: status
            .map(|value| FdtProperty { name: String::from("status"), value: value.to_vec() })
            .into_iter()
            .collect(),
        complete: true,
    };
    assert!(driver.is_device_avaliable(&node(None)));
    assert!(driver.is_device_avaliable(&node(Some(b"okay\0"))));
    assert!(driver.is_device_avaliable(&node(Some(b"ok\0"))));
    assert!(!driver.is_device_avaliable(&node(Some(b"disabled\0"))));
    assert_eq!(read_cell(&[0, 0, 1, 0, 0, 0, 0, 2], 4, 1), (2, 8));
    assert_eq!(read_cell(&[0, 0, 1, 0, 0, 0, 0, 2], 0, 2), (0x100_0000_0002, 8));
}

#[test]
fn device_nodes_keep_their_place() {
    assert!(DeviceNode::new(None, None).is_none());
    let mut node = DeviceNode::new(Some("/soc"), None).unwrap();
    node.add_property(Property::new(String::from("reg"), vec![1], None));
    node.add_child(4);
    node.set_parent(1);
    node.set_sibling(2);
    node.set_private_data(3);
    assert_eq!(node.properties().len(), 1);
    assert_eq!(*node.children(), vec![4]);
    assert_eq!((node.parent(true), node.parent(false)), (Some(1), None));
    assert_eq!((node.sibling(true), node.sibling(false)), (Some(2), None));
    assert_eq!(node.private_data(), Some(3));
}

#[test]
fn trees_that_cannot_be_scanned_are_told_apart() {
    let driver = open_firmware_fdt_driver();
    let known = FdtGlobalData::new();
    let mut tree = read_tree(&board()).unwrap();
    assert!(driver.can_scan(&tree, &known));
    let cells = FdtGlobalData { root_size_cells: 1, root_addr_cells: 2, ..FdtGlobalData::new() };
    assert!(driver.can_scan_reserved(&tree, 0x8000_0000, &cells));
    let none = FdtGlobalData { root_size_cells: 0, root_addr_cells: 0, ..FdtGlobalData::new() };
    assert!(!driver.can_scan_reserved(&tree, 0x8000_0000, &none));
    tree.root.as_mut().unwrap().properties[0].value.pop();
    assert!(!driver.can_scan(&tree, &known));
    tree.root = None;
    assert!(!driver.can_scan(&tree, &known));
    tree.reserved = None;
    assert!(!driver.can_scan_reserved(&tree, 0x8000_0000, &cells));
}

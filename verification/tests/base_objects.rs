//! What kernel objects, devices and drivers keep, and how numbers are written.

use kdrivers::base::device::{DeviceCommonData, IdTable, KObjectCommonData};
use kdrivers::base::driver::DriverCommonData;
use kdrivers::base::text::{push_capitals, push_decimal, push_hex, push_wide_hex};

#[test]
fn numbers_are_written_in_base_ten_and_sixteen() {
    let mut text = String::from("n=");
    push_decimal(&mut text, 0);
    text.push(' ');
    push_decimal(&mut text, 18_446_744_073_709_551_615);
    assert_eq!(text, "n=0 18446744073709551615");

    let mut hex = String::new();
    push_hex(&mut hex, 0x1af4, 6);
    assert_eq!(hex, "001af4");
    let mut cut = String::new();
    push_hex(&mut cut, 0x12345, 4);
    assert_eq!(cut, "2345");

    let mut wide = String::new();
    push_wide_hex(&mut wide, 0xfe00, 8);
    assert_eq!(wide, "0000fe00");
    let mut wider = String::new();
    push_wide_hex(&mut wider, 0x1_2345_6789, 8);
    assert_eq!(wider, "123456789");
    let mut zero = String::new();
    push_wide_hex(&mut zero, 0, 0);
    assert_eq!(zero, "0");

    let mut capitals = String::new();
    push_capitals(&mut capitals, 0xabcdef, 8);
    assert_eq!(capitals, "00ABCDEF");
}

#[test]
fn objects_remember_what_they_were_given() {
    let mut kobj = KObjectCommonData::default();
    assert_eq!(kobj.inode(), None);
    kobj.set_inode(Some(3));
    kobj.set_parent(Some(4));
    kobj.set_kset(Some(5));
    kobj.set_kobj_type(Some(6));
    kobj.set_kobj_state(7);
    assert_eq!(kobj.inode(), Some(3));
    assert_eq!(kobj.parent(), Some(4));
    assert_eq!(kobj.kset(), Some(5));
    assert_eq!(kobj.kobj_type(), Some(6));
    assert_eq!(kobj.kobj_state(), 7);

    let table = IdTable::new(String::from("veth0"), Some(2));
    assert_eq!(table.name, "veth0");
    assert_eq!(table.id, Some(2));
}

#[test]
fn devices_forget_what_is_gone() {
    let mut device = DeviceCommonData::default();
    device.set_class(Some(1));
    device.set_driver(Some(2));
    device.set_dev_parent(Some(3));
    device.set_bus(Some(4));
    device.set_can_match(true);
    assert_eq!(device.class(true), Some(1));
    assert_eq!(device.class(false), None);
    assert_eq!(device.class(true), None);
    assert_eq!(device.driver(true), Some(2));
    assert_eq!(device.driver(false), None);
    assert_eq!(device.dev_parent(true), Some(3));
    assert_eq!(device.dev_parent(false), None);
    assert_eq!(device.bus(), Some(4));
    assert!(device.can_match());
}

#[test]
fn drivers_list_each_device_until_it_is_deleted() {
    let mut driver = DriverCommonData::default();
    driver.add_device(10);
    driver.add_device(11);
    assert_eq!(*driver.devices(), vec![10, 11]);
    driver.delete_device(10);
    assert_eq!(*driver.devices(), vec![11]);
    driver.delete_device(99);
    assert_eq!(*driver.devices(), vec![11]);
    driver.set_bus(Some(1));
    assert_eq!(driver.bus(), Some(1));
}

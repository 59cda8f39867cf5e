//! The attributes of PCI devices that are shown as files.

use vstd::prelude::*;
use crate::base::sysfs::{AttrMode, SysFSOpsSupport};
use crate::base::text::{self, push_capitals, push_decimal, push_hex};
use crate::pci::device::PciFacts;
use crate::pci::header::IrqType;

verus! {

/// An attribute of a device.
#[derive(Clone, Copy, Debug, PartialEq, Eq, Structural)]
pub enum PciAttr {
    Vendor,
    DeviceID,
    SubsystemVendor,
    SubsystemDevice,
    Revision,
    Class,
    Irq,
    Modalias,
}

/// The text `0x` and the last `width` digits of a number.
pub open spec fn hex_text(n: nat, width: nat) -> Seq<char> {
    "0x"@ + text::padded(n, 16, width)
}

/// The text by which modules for a device are found.
pub open spec fn modalias_text(facts: PciFacts) -> Seq<char> {
    "pci:v"@ + text::capitals(facts.vendor as nat, 8) + "d"@ + text::capitals(
        facts.device_id as nat,
        8,
    ) + "sv"@ + text::capitals(facts.subsystem_vendor as nat, 8) + "sd"@ + text::capitals(
        facts.subsystem_device as nat,
        8,
    ) + "bc"@ + text::capitals(facts.class_code as nat, 2) + "sc"@ + text::capitals(
        facts.subclass as nat,
        2,
    ) + "i"@ + text::capitals(facts.interface_code as nat, 2)
}

fn hex(n: u64, width: usize) -> (r: String)
    ensures
        r@ == hex_text(n as nat, width as nat),
{
    let mut shown: String = "0x".to_owned();
    push_hex(&mut shown, n, width);
    shown
}

impl PciAttr {
    /// The name of the file.
    pub fn name(&self) -> (r: &'static str)
        ensures
            r@ == (match self {
                PciAttr::Vendor => "vendor"@,
                PciAttr::DeviceID => "device"@,
                PciAttr::SubsystemVendor => "subsystem_vendor"@,
                PciAttr::SubsystemDevice => "subsystem_device"@,
                PciAttr::Revision => "revision"@,
                PciAttr::Class => "class"@,
                PciAttr::Irq => "irq"@,
                PciAttr::Modalias => "modalias"@,
            }),
    {
        match self {
            PciAttr::Vendor => "vendor",
            PciAttr::DeviceID => "device",
            PciAttr::SubsystemVendor => "subsystem_vendor",
            PciAttr::SubsystemDevice => "subsystem_device",
            PciAttr::Revision => "revision",
            PciAttr::Class => "class",
            PciAttr::Irq => "irq",
            PciAttr::Modalias => "modalias",
        }
    }

    /// The file may only be read.
    pub fn mode(&self) -> (r: AttrMode)
        ensures
            r == AttrMode::ReadOnly,
    {
        AttrMode::ReadOnly
    }

    /// The file can be shown.
    pub fn support(&self) -> (r: SysFSOpsSupport)
        ensures
            r == (SysFSOpsSupport { show: true, store: false }),
    {
        SysFSOpsSupport { show: true, store: false }
    }

    /// What the file shows of a device.
    pub open spec fn text(self, facts: PciFacts) -> Seq<char> {
        match self {
            PciAttr::Vendor => hex_text(facts.vendor as nat, 4),
            PciAttr::DeviceID => hex_text(facts.device_id as nat, 4),
            PciAttr::SubsystemVendor => hex_text(facts.subsystem_vendor as nat, 4),
            PciAttr::SubsystemDevice => hex_text(facts.subsystem_device as nat, 4),
            PciAttr::Revision => hex_text(facts.revision as nat, 2),
            PciAttr::Class => hex_text(facts.class_code as nat, 6),
            PciAttr::Irq => if facts.irq_type is Msi {
                "todo:sry,msi device is unimplemented now"@
            } else {
                text::number(facts.irq_line as nat, 10)
            },
            PciAttr::Modalias => modalias_text(facts),
        }
    }

    /// What the file shows of a device.
    pub fn show(&self, facts: &PciFacts) -> (r: String)
        ensures
            r@ == self.text(*facts),
    {
        match self {
            PciAttr::Vendor => hex(facts.vendor as u64, 4),
            PciAttr::DeviceID => hex(facts.device_id as u64, 4),
            PciAttr::SubsystemVendor => hex(facts.subsystem_vendor as u64, 4),
            PciAttr::SubsystemDevice => hex(facts.subsystem_device as u64, 4),
            PciAttr::Revision => hex(facts.revision as u64, 2),
            PciAttr::Class => hex(facts.class_code as u64, 6),
            PciAttr::Irq => {
                if let IrqType::Msi { .. } = facts.irq_type {
                    return "todo:sry,msi device is unimplemented now".to_owned();
                }
                let mut shown: String = String::new();
                push_decimal(&mut shown, facts.irq_line as u64);
                assert(shown@ =~= text::number(facts.irq_line as nat, 10));
                shown
            },
            PciAttr::Modalias => {
                let mut shown: String = "pci:v".to_owned();
                push_capitals(&mut shown, facts.vendor as u64, 8);
                shown.append("d");
                push_capitals(&mut shown, facts.device_id as u64, 8);
                shown.append("sv");
                push_capitals(&mut shown, facts.subsystem_vendor as u64, 8);
                shown.append("sd");
                push_capitals(&mut shown, facts.subsystem_device as u64, 8);
                shown.append("bc");
                push_capitals(&mut shown, facts.class_code as u64, 2);
                shown.append("sc");
                push_capitals(&mut shown, facts.subclass as u64, 2);
                shown.append("i");
                push_capitals(&mut shown, facts.interface_code as u64, 2);
                shown
            },
        }
    }
}

/// The attributes that every PCI device has.
#[derive(Clone, Copy, Debug, PartialEq, Eq, Structural)]
pub struct BasicPciReadOnlyAttrs {}

impl BasicPciReadOnlyAttrs {
    /// The directory of the attributes. They have none of their own.
    pub fn name(&self) -> (r: Option<&'static str>)
        ensures
            r is None,
    {
        None
    }

    /// The attributes.
    pub fn attrs(&self) -> (r: Vec<PciAttr>)
        ensures
            r@ == seq![
                PciAttr::Vendor,
                PciAttr::DeviceID,
                PciAttr::SubsystemVendor,
                PciAttr::SubsystemDevice,
                PciAttr::Revision,
                PciAttr::Class,
                PciAttr::Irq,
                PciAttr::Modalias,
            ],
    {
        let mut all: Vec<PciAttr> = Vec::new();
        all.push(PciAttr::Vendor);
        all.push(PciAttr::DeviceID);
        all.push(PciAttr::SubsystemVendor);
        all.push(PciAttr::SubsystemDevice);
        all.push(PciAttr::Revision);
        all.push(PciAttr::Class);
        all.push(PciAttr::Irq);
        all.push(PciAttr::Modalias);
        assert(all@ =~= seq![
            PciAttr::Vendor,
            PciAttr::DeviceID,
            PciAttr::SubsystemVendor,
            PciAttr::SubsystemDevice,
            PciAttr::Revision,
            PciAttr::Class,
            PciAttr::Irq,
            PciAttr::Modalias,
        ]);
        all
    }

    /// What may be done with an attribute: what it says itself.
    pub fn is_visible(&self, attr: PciAttr) -> (r: Option<AttrMode>)
        ensures
            r == Some(AttrMode::ReadOnly),
    {
        Some(attr.mode())
    }
}

/// What the files show: the numbers of a device in base sixteen behind `0x`, with four digits for who
/// made it and what it is, two for its revision and six for its class; and the line of its interrupt
/// in base ten, unless it sends messages.
pub proof fn law_attr_text(facts: PciFacts)
    ensures
        ({
            let vendor = PciAttr::Vendor.text(facts);
            let device = PciAttr::DeviceID.text(facts);
            let subsystem_vendor = PciAttr::SubsystemVendor.text(facts);
            let subsystem_device = PciAttr::SubsystemDevice.text(facts);
            let revision = PciAttr::Revision.text(facts);
            let class = PciAttr::Class.text(facts);
            let irq = PciAttr::Irq.text(facts);
            &&& vendor.len() == 6 && vendor.take(2) == "0x"@ && text::value_of(vendor.skip(2), 16)
                == facts.vendor
            &&& device.len() == 6 && device.take(2) == "0x"@ && text::value_of(device.skip(2), 16)
                == facts.device_id
            &&& subsystem_vendor.len() == 6 && subsystem_vendor.take(2) == "0x"@ && text::value_of(
                subsystem_vendor.skip(2),
                16,
            ) == facts.subsystem_vendor
            &&& subsystem_device.len() == 6 && subsystem_device.take(2) == "0x"@ && text::value_of(
                subsystem_device.skip(2),
                16,
            ) == facts.subsystem_device
            &&& revision.len() == 4 && revision.take(2) == "0x"@ && text::value_of(
                revision.skip(2),
                16,
            ) == facts.revision
            &&& class.len() == 8 && class.take(2) == "0x"@ && text::value_of(class.skip(2), 16)
                == facts.class_code
            &&& !(facts.irq_type is Msi) ==> text::value_of(irq, 10) == facts.irq_line
            &&& facts.irq_type is Msi ==> irq == "todo:sry,msi device is unimplemented now"@
        }),
{
    assert(vstd::arithmetic::power::pow(16, 4) == 65536 && vstd::arithmetic::power::pow(16, 2) == 256
        && vstd::arithmetic::power::pow(16, 6) == 16777216) by {
        reveal_with_fuel(vstd::arithmetic::power::pow, 8);
    }
    reveal_strlit("0x");
    lemma_hex_text(facts.vendor as nat, 4);
    lemma_hex_text(facts.device_id as nat, 4);
    lemma_hex_text(facts.subsystem_vendor as nat, 4);
    lemma_hex_text(facts.subsystem_device as nat, 4);
    lemma_hex_text(facts.revision as nat, 2);
    lemma_hex_text(facts.class_code as nat, 6);
    text::law_number(facts.irq_line as nat);
}

proof fn lemma_hex_text(n: nat, width: nat)
    requires
        n < vstd::arithmetic::power::pow(16, width),
    ensures
        hex_text(n, width).len() == width + 2,
        hex_text(n, width).take(2) == "0x"@,
        text::value_of(hex_text(n, width).skip(2), 16) == n,
{
    reveal_strlit("0x");
    text::law_fixed_hex(n, width);
    assert(hex_text(n, width).take(2) =~= "0x"@);
    assert(hex_text(n, width).skip(2) =~= text::padded(n, 16, width));
}

/// The name by which a driver is looked for holds seven numbers of the device, each behind the letters
/// that tell which one it is: the maker, the device, those of the subsystem, and the three parts of
/// the class.
pub proof fn law_modalias(facts: PciFacts)
    ensures
        ({
            let shown = PciAttr::Modalias.text(facts);
            &&& shown.len() == 53
            &&& shown.subrange(0, 5) == "pci:v"@
            &&& text::value_of(shown.subrange(5, 13), 16) == facts.vendor
            &&& shown.subrange(13, 14) == "d"@
            &&& text::value_of(shown.subrange(14, 22), 16) == facts.device_id
            &&& shown.subrange(22, 24) == "sv"@
            &&& text::value_of(shown.subrange(24, 32), 16) == facts.subsystem_vendor
            &&& shown.subrange(32, 34) == "sd"@
            &&& text::value_of(shown.subrange(34, 42), 16) == facts.subsystem_device
            &&& shown.subrange(42, 44) == "bc"@
            &&& text::value_of(shown.subrange(44, 46), 16) == facts.class_code
            &&& shown.subrange(46, 48) == "sc"@
            &&& text::value_of(shown.subrange(48, 50), 16) == facts.subclass
            &&& shown.subrange(50, 51) == "i"@
            &&& text::value_of(shown.subrange(51, 53), 16) == facts.interface_code
        }),
{
    assert(vstd::arithmetic::power::pow(16, 8) == 4294967296 && vstd::arithmetic::power::pow(16, 2)
        == 256) by {
        reveal_with_fuel(vstd::arithmetic::power::pow, 10);
    }
    reveal_strlit("pci:v");
    reveal_strlit("d");
    reveal_strlit("sv");
    reveal_strlit("sd");
    reveal_strlit("bc");
    reveal_strlit("sc");
    reveal_strlit("i");
    let v = facts.vendor as nat;
    let d = facts.device_id as nat;
    let sv = facts.subsystem_vendor as nat;
    let sd = facts.subsystem_device as nat;
    let bc = facts.class_code as nat;
    let sc = facts.subclass as nat;
    let i = facts.interface_code as nat;
    text::law_fixed_hex(v, 8);
    text::law_fixed_hex(d, 8);
    text::law_fixed_hex(sv, 8);
    text::law_fixed_hex(sd, 8);
    text::law_fixed_hex(bc, 2);
    text::law_fixed_hex(sc, 2);
    text::law_fixed_hex(i, 2);
    let shown = PciAttr::Modalias.text(facts);
    assert(shown.subrange(0, 5) =~= "pci:v"@);
    assert(shown.subrange(5, 13) =~= text::capitals(v, 8));
    assert(shown.subrange(13, 14) =~= "d"@);
    assert(shown.subrange(14, 22) =~= text::capitals(d, 8));
    assert(shown.subrange(22, 24) =~= "sv"@);
    assert(shown.subrange(24, 32) =~= text::capitals(sv, 8));
    assert(shown.subrange(32, 34) =~= "sd"@);
    assert(shown.subrange(34, 42) =~= text::capitals(sd, 8));
    assert(shown.subrange(42, 44) =~= "bc"@);
    assert(shown.subrange(44, 46) =~= text::capitals(bc, 2));
    assert(shown.subrange(46, 48) =~= "sc"@);
    assert(shown.subrange(48, 50) =~= text::capitals(sc, 2));
    assert(shown.subrange(50, 51) =~= "i"@);
    assert(shown.subrange(51, 53) =~= text::capitals(i, 2));
}

} // verus!

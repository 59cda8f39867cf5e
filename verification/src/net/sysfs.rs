//! The attributes of network interfaces that are shown as files.

use vstd::prelude::*;
use crate::base::device::DeviceCommonData;
use crate::base::sysfs::{AttrMode, SysFSOpsSupport};
use crate::base::text::{self, push_decimal, push_hex};
use crate::net::addr::EthernetAddress;
use crate::net::iface::NetDeviceCommonData;
use crate::net::types::{NetDeivceState, Operstate};

verus! {

/// Puts an interface into the class with this number, and gives the name under which it is shown.
/// Adding it to the system comes next.
pub fn netdev_register_kobject(
    device: &mut DeviceCommonData,
    net_class: u64,
    iface_name: &String,
) -> (r: String)
    ensures
        r@ == iface_name@,
        *final(device) == (DeviceCommonData { class: Some(net_class), ..*old(device) }),
{
    device.set_class(Some(net_class));
    iface_name.clone()
}

/// An attribute of an interface.
#[derive(Clone, Copy, Debug, PartialEq, Eq, Structural)]
pub enum NetAttr {
    /// How the address was assigned.
    AddrAssignType,
    AddrLen,
    DevId,
    Ifalias,
    Iflink,
    Ifindex,
    Features,
    /// Which kind of interface it is.
    Type,
    LinkMode,
    /// The address.
    Address,
    Broadcast,
    /// Whether the link is up.
    Carrier,
    Speed,
    Duplex,
    Dormant,
    /// What the interface is doing.
    Operstate,
    Mtu,
    Flags,
    TxQueueLen,
    NetdevGroup,
}

/// The address in words: its bytes in base sixteen with dashes between them.
pub open spec fn address_text(mac: EthernetAddress) -> Seq<char> {
    let o = mac.spec_octets();
    text::padded(o[0] as nat, 16, 2) + "-"@ + text::padded(o[1] as nat, 16, 2) + "-"@
        + text::padded(o[2] as nat, 16, 2) + "-"@ + text::padded(o[3] as nat, 16, 2) + "-"@
        + text::padded(o[4] as nat, 16, 2) + "-"@ + text::padded(o[5] as nat, 16, 2)
}

/// Appends the address in words.
pub fn push_address(shown: &mut String, mac: &EthernetAddress)
    ensures
        final(shown)@ =~= old(shown)@ + address_text(*mac),
{
    let octets: [u8; 6] = mac.octets();
    push_hex(shown, octets[0] as u64, 2);
    shown.append("-");
    push_hex(shown, octets[1] as u64, 2);
    shown.append("-");
    push_hex(shown, octets[2] as u64, 2);
    shown.append("-");
    push_hex(shown, octets[3] as u64, 2);
    shown.append("-");
    push_hex(shown, octets[4] as u64, 2);
    shown.append("-");
    push_hex(shown, octets[5] as u64, 2);
}

/// The operational state in words.
pub open spec fn spec_operstate_text(state: Operstate) -> Seq<char> {
    match state {
        Operstate::IF_OPER_UP => "up"@,
        Operstate::IF_OPER_DOWN => "down"@,
        Operstate::IF_OPER_DORMANT => "dormant"@,
        Operstate::IF_OPER_TESTING => "testing"@,
        Operstate::IF_OPER_UNKNOWN => "unknown"@,
        Operstate::IF_OPER_NOTPRESENT => "notpresent"@,
        Operstate::IF_OPER_LOWERLAYERDOWN => "lowerlayerdown"@,
    }
}

/// The operational state in words.
pub fn operstate_text(state: Operstate) -> (r: &'static str)
    ensures
        r@ == spec_operstate_text(state),
{
    match state {
        Operstate::IF_OPER_UP => "up",
        Operstate::IF_OPER_DOWN => "down",
        Operstate::IF_OPER_DORMANT => "dormant",
        Operstate::IF_OPER_TESTING => "testing",
        Operstate::IF_OPER_UNKNOWN => "unknown",
        Operstate::IF_OPER_NOTPRESENT => "notpresent",
        Operstate::IF_OPER_LOWERLAYERDOWN => "lowerlayerdown",
    }
}

/// The interface is started.
pub open spec fn is_started(device: NetDeviceCommonData) -> bool {
    device.state.bits & NetDeivceState::LINK_STATE_START != 0
}

/// The interface is started and its link is up.
pub open spec fn has_carrier(device: NetDeviceCommonData) -> bool {
    is_started(device) && device.state.bits & NetDeivceState::LINK_STATE_NOCARRIER == 0
}

impl NetAttr {
    /// The name of the file.
    pub open spec fn spec_name(self) -> Seq<char> {
        match self {
            NetAttr::AddrAssignType => "addr_assign_type"@,
            NetAttr::AddrLen => "addr_len"@,
            NetAttr::DevId => "dev_id"@,
            NetAttr::Ifalias => "ifalias"@,
            NetAttr::Iflink => "iflink"@,
            NetAttr::Ifindex => "ifindex"@,
            NetAttr::Features => "features"@,
            NetAttr::Type => "type"@,
            NetAttr::LinkMode => "link_mode"@,
            NetAttr::Address => "address"@,
            NetAttr::Broadcast => "broadcast"@,
            NetAttr::Carrier => "carrier"@,
            NetAttr::Speed => "speed"@,
            NetAttr::Duplex => "duplex"@,
            NetAttr::Dormant => "dormant"@,
            NetAttr::Operstate => "operstate"@,
            NetAttr::Mtu => "mtu"@,
            NetAttr::Flags => "flags"@,
            NetAttr::TxQueueLen => "tx_queue_len"@,
            NetAttr::NetdevGroup => "netdev_group"@,
        }
    }

    /// The name of the file.
    pub fn name(&self) -> (r: &'static str)
        ensures
            r@ == self.spec_name(),
    {
        match self {
            NetAttr::AddrAssignType => "addr_assign_type",
            NetAttr::AddrLen => "addr_len",
            NetAttr::DevId => "dev_id",
            NetAttr::Ifalias => "ifalias",
            NetAttr::Iflink => "iflink",
            NetAttr::Ifindex => "ifindex",
            NetAttr::Features => "features",
            NetAttr::Type => "type",
            NetAttr::LinkMode => "link_mode",
            NetAttr::Address => "address",
            NetAttr::Broadcast => "broadcast",
            NetAttr::Carrier => "carrier",
            NetAttr::Speed => "speed",
            NetAttr::Duplex => "duplex",
            NetAttr::Dormant => "dormant",
            NetAttr::Operstate => "operstate",
            NetAttr::Mtu => "mtu",
            NetAttr::Flags => "flags",
            NetAttr::TxQueueLen => "tx_queue_len",
            NetAttr::NetdevGroup => "netdev_group",
        }
    }

    /// What may be done with the file. Only the alias may be written.
    pub open spec fn spec_mode(self) -> AttrMode {
        if self == NetAttr::Ifalias {
            AttrMode::ReadWrite
        } else {
            AttrMode::ReadOnly
        }
    }

    /// What may be done with the file.
    pub fn mode(&self) -> (r: AttrMode)
        ensures
            r == self.spec_mode(),
    {
        match self {
            NetAttr::Ifalias => AttrMode::ReadWrite,
            _ => AttrMode::ReadOnly,
        }
    }

    /// Which operations the file has.
    pub fn support(&self) -> (r: SysFSOpsSupport)
        ensures
            r == self.spec_mode().spec_support(),
    {
        match self {
            NetAttr::Ifalias => SysFSOpsSupport { show: true, store: true },
            _ => SysFSOpsSupport { show: true, store: false },
        }
    }

    /// The attribute can be told of an interface.
    pub open spec fn told(self) -> bool {
        ||| self == NetAttr::AddrAssignType
        ||| self == NetAttr::Type
        ||| self == NetAttr::Address
        ||| self == NetAttr::Carrier
        ||| self == NetAttr::Operstate
    }

    /// The operational state that is shown: an interface that is not started is down.
    pub open spec fn shown_operstate(device: NetDeviceCommonData) -> Operstate {
        if is_started(device) {
            device.operstate
        } else {
            Operstate::IF_OPER_DOWN
        }
    }

    /// What the file shows of an interface.
    pub open spec fn text(self, device: NetDeviceCommonData, mac: EthernetAddress) -> Seq<char> {
        match self {
            NetAttr::AddrAssignType => text::number(device.addr_assign_type as nat, 10) + "\n"@,
            NetAttr::Type => text::number(device.net_device_type as nat, 10) + "\n"@,
            NetAttr::Address => address_text(mac) + "\n"@,
            NetAttr::Carrier => if has_carrier(device) {
                "1\n"@
            } else {
                "0\n"@
            },
            _ => spec_operstate_text(Self::shown_operstate(device)) + "\n"@,
        }
    }

    /// What the file shows of an interface with this address. Showing what the interface is doing
    /// notes that one that is not started is down.
    pub fn show(&self, device: &mut NetDeviceCommonData, mac: &EthernetAddress) -> (r: String)
        requires
            self.told(),
        ensures
            r@ =~= self.text(*old(device), *mac),
            *final(device) == (if *self == NetAttr::Operstate {
                NetDeviceCommonData {
                    operstate: Self::shown_operstate(*old(device)),
                    ..*old(device)
                }
            } else {
                *old(device)
            }),
    {
        let started: bool = device.state.bits & NetDeivceState::LINK_STATE_START != 0;
        match self {
            NetAttr::AddrAssignType => {
                let mut shown: String = String::new();
                push_decimal(&mut shown, device.addr_assign_type as u64);
                shown.append("\n");
                shown
            },
            NetAttr::Type => {
                let mut shown: String = String::new();
                push_decimal(&mut shown, device.net_device_type as u64);
                shown.append("\n");
                shown
            },
            NetAttr::Address => {
                let mut shown: String = String::new();
                push_address(&mut shown, mac);
                shown.append("\n");
                shown
            },
            NetAttr::Carrier => {
                if started && device.state.bits & NetDeivceState::LINK_STATE_NOCARRIER == 0 {
                    "1\n".to_owned()
                } else {
                    "0\n".to_owned()
                }
            },
            _ => {
                if !started {
                    device.operstate = Operstate::IF_OPER_DOWN;
                }
                let mut shown: String = operstate_text(device.operstate).to_owned();
                shown.append("\n");
                shown
            },
        }
    }
}

/// The attributes of every interface, in order.
pub open spec fn all_attrs() -> Seq<NetAttr> {
    seq![
        NetAttr::AddrAssignType,
        NetAttr::AddrLen,
        NetAttr::DevId,
        NetAttr::Ifalias,
        NetAttr::Iflink,
        NetAttr::Ifindex,
        NetAttr::Features,
        NetAttr::Type,
        NetAttr::LinkMode,
        NetAttr::Address,
        NetAttr::Broadcast,
        NetAttr::Carrier,
        NetAttr::Speed,
        NetAttr::Duplex,
        NetAttr::Dormant,
        NetAttr::Operstate,
        NetAttr::Mtu,
        NetAttr::Flags,
        NetAttr::TxQueueLen,
        NetAttr::NetdevGroup,
    ]
}

/// The attributes of every interface.
#[derive(Clone, Copy, Debug, PartialEq, Eq, Structural)]
pub struct NetAttrGroup {}

impl NetAttrGroup {
    /// The directory of the attributes. They have none of their own.
    pub fn name(&self) -> (r: Option<&'static str>)
        ensures
            r is None,
    {
        None
    }

    /// The attributes.
    pub fn attrs(&self) -> (r: Vec<NetAttr>)
        ensures
            r@ == all_attrs(),
    {
        let mut all: Vec<NetAttr> = Vec::new();
        all.push(NetAttr::AddrAssignType);
        all.push(NetAttr::AddrLen);
        all.push(NetAttr::DevId);
        all.push(NetAttr::Ifalias);
        all.push(NetAttr::Iflink);
        all.push(NetAttr::Ifindex);
        all.push(NetAttr::Features);
        all.push(NetAttr::Type);
        all.push(NetAttr::LinkMode);
        all.push(NetAttr::Address);
        all.push(NetAttr::Broadcast);
        all.push(NetAttr::Carrier);
        all.push(NetAttr::Speed);
        all.push(NetAttr::Duplex);
        all.push(NetAttr::Dormant);
        all.push(NetAttr::Operstate);
        all.push(NetAttr::Mtu);
        all.push(NetAttr::Flags);
        all.push(NetAttr::TxQueueLen);
        all.push(NetAttr::NetdevGroup);
        assert(all@ =~= all_attrs());
        all
    }

    /// What may be done with an attribute: what it says itself.
    pub fn is_visible(&self, attr: NetAttr) -> (r: Option<AttrMode>)
        ensures
            r == Some(attr.spec_mode()),
    {
        Some(attr.mode())
    }
}

/// The class of network interfaces.
#[derive(Clone, Copy, Debug, PartialEq, Eq, Structural)]
pub struct NetClass {}

impl NetClass {
    /// The class.
    pub fn new() -> (r: Self)
        ensures
            r == (NetClass {  }),
    {
        NetClass {  }
    }

    /// The name of the class.
    pub fn name(&self) -> (r: &'static str)
        ensures
            r@ == "net"@,
    {
        "net"
    }

    /// The attributes that every interface of the class has.
    pub fn dev_groups(&self) -> (r: NetAttrGroup)
        ensures
            r == (NetAttrGroup {  }),
    {
        NetAttrGroup {  }
    }
}

/// An address is shown as six bytes in base sixteen, the first one first, with dashes between them.
pub proof fn law_address_text(mac: EthernetAddress, i: int)
    requires
        0 <= i < 6,
    ensures
        address_text(mac).len() == 17,
        text::value_of(address_text(mac).subrange(3 * i, 3 * i + 2), 16) == mac.spec_octets()[i],
        i < 5 ==> address_text(mac)[3 * i + 2] == '-',
{
    reveal_strlit("-");
    let o = mac.spec_octets();
    assert(vstd::arithmetic::power::pow(16, 2) == 256) by {
        reveal_with_fuel(vstd::arithmetic::power::pow, 4);
    }
    text::law_fixed_hex(o[0] as nat, 2);
    text::law_fixed_hex(o[1] as nat, 2);
    text::law_fixed_hex(o[2] as nat, 2);
    text::law_fixed_hex(o[3] as nat, 2);
    text::law_fixed_hex(o[4] as nat, 2);
    text::law_fixed_hex(o[5] as nat, 2);
    let shown = address_text(mac);
    assert(shown.subrange(3 * i, 3 * i + 2) =~= text::padded(o[i] as nat, 16, 2)) by {
        assert(i == 0 || i == 1 || i == 2 || i == 3 || i == 4 || i == 5);
    }
}

/// What is shown of a link: it is up only if the interface is started and its link is not missing, and
/// an interface that is not started is down whatever it says.
pub proof fn law_link_text(device: NetDeviceCommonData, mac: EthernetAddress)
    ensures
        ({
            let bits = device.state.bits;
            let carrier = NetAttr::Carrier.text(device, mac);
            let state = NetAttr::Operstate.text(device, mac);
            &&& carrier == (if bits % 2 == 1 && (bits / 4) % 2 == 0 {
                "1\n"@
            } else {
                "0\n"@
            })
            &&& bits % 2 == 0 ==> state == "down"@ + "\n"@
            &&& bits % 2 == 1 ==> state == (match device.operstate {
                Operstate::IF_OPER_UP => "up"@,
                Operstate::IF_OPER_DOWN => "down"@,
                Operstate::IF_OPER_DORMANT => "dormant"@,
                Operstate::IF_OPER_TESTING => "testing"@,
                Operstate::IF_OPER_UNKNOWN => "unknown"@,
                Operstate::IF_OPER_NOTPRESENT => "notpresent"@,
                Operstate::IF_OPER_LOWERLAYERDOWN => "lowerlayerdown"@,
            }) + "\n"@
        }),
{
    let bits = device.state.bits;
    assert({
        &&& (bits & 1u16 != 0) == (bits % 2 == 1)
        &&& (bits & 4u16 == 0) == ((bits / 4) % 2 == 0)
    }) by (bit_vector);
}

/// The kind of an interface and how its address was assigned are shown in base ten, each on a line.
pub proof fn law_number_text(device: NetDeviceCommonData, mac: EthernetAddress)
    ensures
        ({
            let kind = NetAttr::Type.text(device, mac);
            let assigned = NetAttr::AddrAssignType.text(device, mac);
            &&& kind.last() == '\n' && text::value_of(kind.drop_last(), 10)
                == device.net_device_type
            &&& assigned.last() == '\n' && text::value_of(assigned.drop_last(), 10)
                == device.addr_assign_type
        }),
{
    reveal_strlit("\n");
    text::law_number(device.net_device_type as nat);
    text::law_number(device.addr_assign_type as nat);
    assert(NetAttr::Type.text(device, mac).drop_last() =~= text::number(
        device.net_device_type as nat,
        10,
    ));
    assert(NetAttr::AddrAssignType.text(device, mac).drop_last() =~= text::number(
        device.addr_assign_type as nat,
        10,
    ));
}

/// Every attribute is listed, and no attribute twice. Only the alias of an interface can be changed.
pub proof fn law_all_attrs(attr: NetAttr)
    ensures
        all_attrs().contains(attr),
        all_attrs().no_duplicates(),
        attr.spec_mode() == AttrMode::ReadWrite <==> attr is Ifalias,
{
    let all = all_attrs();
    assert(all[0] == NetAttr::AddrAssignType && all[1] == NetAttr::AddrLen && all[2]
        == NetAttr::DevId && all[3] == NetAttr::Ifalias && all[4] == NetAttr::Iflink && all[5]
        == NetAttr::Ifindex && all[6] == NetAttr::Features && all[7] == NetAttr::Type && all[8]
        == NetAttr::LinkMode && all[9] == NetAttr::Address && all[10] == NetAttr::Broadcast
        && all[11] == NetAttr::Carrier && all[12] == NetAttr::Speed && all[13] == NetAttr::Duplex
        && all[14] == NetAttr::Dormant && all[15] == NetAttr::Operstate && all[16] == NetAttr::Mtu
        && all[17] == NetAttr::Flags && all[18] == NetAttr::TxQueueLen && all[19]
        == NetAttr::NetdevGroup);
}

} // verus!

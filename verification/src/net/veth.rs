//! A pair of virtual Ethernet interfaces, each of which receives what the other sends.

use std::collections::VecDeque;
use vstd::prelude::*;
use crate::base::device::{DeviceCommonData, DeviceType, IdTable, KObjectCommonData};
use crate::error::SystemError;
use crate::net::addr::{EthernetAddress, IpAddress, Medium};
use crate::net::bridge::{BridgeCommonData, BridgePort};
use crate::net::iface::{BootstrapRoute, IpCidr, NetDeviceCommonData};
use crate::net::iface_common::IfaceCommon;
use crate::net::local_output::IfacePollScope;
use crate::net::napi::{NapiPollResult, NapiStruct};
use crate::net::phy::DeviceCapabilities;
use crate::net::types::{InterfaceFlags, InterfaceType, NetDeivceState, Operstate};
use crate::net::wire::{ethernet_frame_ok, ethernet_type, ETHERNET_HEADER};

verus! {

/// The longest IP packet of a veth interface.
pub const VETH_IP_MTU: usize = 1500;

/// The longest frame that the stack of a veth interface sends.
pub const VETH_MAX_FRAME_SIZE: usize = 1514;

/// One end of a pair.
pub struct Veth {
    pub name: String,
    /// Frames that nobody has looked at yet.
    pub pending_rx_queue: VecDeque<Vec<u8>>,
    /// Frames for the stack of this end.
    pub local_rx_queue: VecDeque<Vec<u8>>,
    /// The interface at the other end, by number.
    pub peer: Option<u64>,
}

impl Veth {
    /// An end without frames that is not connected.
    pub fn new(name: String) -> (r: Self)
        ensures
            r.name == name,
            r.pending_rx_queue@.len() == 0,
            r.local_rx_queue@.len() == 0,
            r.peer is None,
    {
        Veth {
            name,
            pending_rx_queue: VecDeque::new(),
            local_rx_queue: VecDeque::new(),
            peer: None,
        }
    }

    /// Connects this end with another.
    pub fn set_peer_iface(&mut self, peer: u64)
        ensures
            *final(self) == (Veth { peer: Some(peer), ..*old(self) }),
    {
        self.peer = Some(peer);
    }

    /// Takes a frame that the other end sent. Fails if nothing polls this end.
    pub fn to_peer_owned(&mut self, data: Vec<u8>, has_napi: bool) -> (r: Result<(), SystemError>)
        ensures
            r == (if has_napi {
                Ok(())
            } else {
                Err(SystemError::ENOBUFS)
            }),
            final(self).pending_rx_queue@ == (if has_napi {
                old(self).pending_rx_queue@.push(data)
            } else {
                old(self).pending_rx_queue@
            }),
            *final(self) == (Veth { pending_rx_queue: final(self).pending_rx_queue, ..*old(self) }),
    {
        if !has_napi {
            return Err(SystemError::ENOBUFS);
        }
        self.pending_rx_queue.push_back(data);
        Ok(())
    }

    /// Takes the oldest frame for the stack.
    pub fn recv_local(&mut self) -> (r: Option<Vec<u8>>)
        ensures
            ({
                let q = old(self).local_rx_queue@;
                &&& r == (if q.len() > 0 {
                    Some(q[0])
                } else {
                    None
                })
                &&& final(self).local_rx_queue@ == (if q.len() > 0 {
                    q.subrange(1, q.len() as int)
                } else {
                    q
                })
            }),
            *final(self) == (Veth { local_rx_queue: final(self).local_rx_queue, ..*old(self) }),
    {
        self.local_rx_queue.pop_front()
    }

    /// The name of this end.
    pub fn name(&self) -> (r: &str)
        ensures
            r@ == self.name@,
    {
        self.name.as_str()
    }
}

/// What becomes of a frame that arrived.
#[derive(Clone, Copy, Debug, PartialEq, Eq, Structural)]
pub enum IngressDisposition {
    /// The bridge or the router took it.
    Consumed,
    /// It is for the stack of this end.
    Local,
}

/// Who looks at a frame that arrived.
#[derive(Clone, Copy, Debug, PartialEq, Eq, Structural)]
pub enum IngressStep {
    /// Nobody: it is for the stack.
    Local,
    /// The bridge that the interface belongs to.
    Bridge(BridgeCommonData),
    /// The router.
    Route,
}

/// How far a batch of arrived frames was looked at.
#[derive(Clone, Copy, Debug, PartialEq, Eq, Structural)]
pub struct IngressScan {
    /// How many frames the batch may have.
    pub scan_budget: usize,
    /// How many more frames may be looked at.
    pub left: usize,
    /// How many frames were looked at.
    pub scanned: usize,
}

impl IngressScan {
    /// Every frame that was looked at was taken off the budget.
    pub open spec fn wf(self) -> bool {
        self.left + self.scanned == self.scan_budget
    }

    /// A batch of which no frame was looked at yet.
    pub fn new(scan_budget: usize) -> (r: Self)
        ensures
            r.wf(),
            r == (IngressScan { scan_budget, left: scan_budget, scanned: 0 }),
    {
        IngressScan { scan_budget, left: scan_budget, scanned: 0 }
    }
}

/// The queues of one end while a batch of frames is looked at.
pub struct IngressView {
    pub pending: Seq<Vec<u8>>,
    pub local: Seq<Vec<u8>>,
    pub scan: IngressScan,
}

impl IngressView {
    /// The batch is over: the budget is used up, or no frame waits.
    pub open spec fn over(self) -> bool {
        self.scan.left == 0 || self.pending.len() == 0
    }

    /// The queues after the next frame was looked at.
    pub open spec fn step(self, disposition: IngressDisposition) -> IngressView {
        IngressView {
            pending: self.pending.skip(1),
            local: if disposition == IngressDisposition::Local {
                self.local.push(self.pending[0])
            } else {
                self.local
            },
            scan: IngressScan {
                left: (self.scan.left - 1) as usize,
                scanned: (self.scan.scanned + 1) as usize,
                ..self.scan
            },
        }
    }

    /// The queues at the end of the batch. `dispositions` tells of the frames, in the order in which
    /// they wait, what becomes of each.
    pub open spec fn run(self, dispositions: Seq<IngressDisposition>) -> IngressView
        decreases self.scan.left,
    {
        if self.over() {
            self
        } else {
            self.step(dispositions[0]).run(dispositions.skip(1))
        }
    }
}

/// The first `n` of the frames that are for the stack.
pub open spec fn local_frames(
    frames: Seq<Vec<u8>>,
    dispositions: Seq<IngressDisposition>,
    n: int,
) -> Seq<Vec<u8>>
    decreases n,
{
    if n <= 0 {
        Seq::empty()
    } else if dispositions[0] == IngressDisposition::Local {
        seq![frames[0]] + local_frames(frames.skip(1), dispositions.skip(1), n - 1)
    } else {
        local_frames(frames.skip(1), dispositions.skip(1), n - 1)
    }
}

/// A batch looks at as many of the waiting frames as its budget allows, in the order in which they
/// came. It counts each of them, puts those for the stack behind the frames that wait for it, and
/// leaves the others behind it as they are.
pub proof fn law_ingress_batch(v: IngressView, dispositions: Seq<IngressDisposition>)
    requires
        v.scan.wf(),
    ensures
        ({
            let n = if v.scan.left <= v.pending.len() {
                v.scan.left as int
            } else {
                v.pending.len() as int
            };
            let end = v.run(dispositions);
            &&& end.over()
            &&& end.scan.wf()
            &&& end.scan.scan_budget == v.scan.scan_budget
            &&& end.scan.scanned == v.scan.scanned + n
            &&& end.pending == v.pending.skip(n)
            &&& end.local == v.local + local_frames(v.pending, dispositions, n)
        }),
    decreases v.scan.left,
{
    let n = if v.scan.left <= v.pending.len() {
        v.scan.left as int
    } else {
        v.pending.len() as int
    };
    if v.over() {
        assert(v.pending.skip(0) =~= v.pending);
        assert(v.local + Seq::<Vec<u8>>::empty() =~= v.local);
    } else {
        let w = v.step(dispositions[0]);
        let rest = dispositions.skip(1);
        law_ingress_batch(w, rest);
        assert(w.pending.skip(n - 1) =~= v.pending.skip(n));
        assert(w.local + local_frames(w.pending, rest, n - 1) =~= v.local + local_frames(
            v.pending,
            dispositions,
            n,
        ));
    }
}

/// The driver of one end.
pub struct VethDriver {
    pub inner: Veth,
    /// The interface of this end, by number.
    pub iface: Option<u64>,
}

/// The frame carries a VLAN tag.
pub open spec fn vlan_tagged(frame: Seq<u8>) -> bool {
    let kind = frame[12] * 0x100 + frame[13];
    frame.len() >= ETHERNET_HEADER && (kind == 0x8100 || kind == 0x88a8)
}

/// The frame is not too long.
pub open spec fn frame_len_ok(frame: Seq<u8>) -> bool {
    frame.len() <= VethDriver::MAX_UNTAGGED_FRAME_LEN || (vlan_tagged(frame) && frame.len()
        <= VethDriver::MAX_VLAN_FRAME_LEN)
}

impl VethDriver {
    /// The longest frame without a VLAN tag.
    pub const MAX_UNTAGGED_FRAME_LEN: usize = 1514;

    /// The longest frame with a VLAN tag.
    pub const MAX_VLAN_FRAME_LEN: usize = 1518;

    /// The queues of this end during a batch.
    pub open spec fn ingress(&self, scan: IngressScan) -> IngressView {
        IngressView {
            pending: self.inner.pending_rx_queue@,
            local: self.inner.local_rx_queue@,
            scan,
        }
    }

    /// Takes the next frame of a batch and counts it. There is none once the budget is used up or no
    /// frame waits: the count of the batch is then `scan.scanned`.
    pub fn next_pending(&mut self, scan: &mut IngressScan) -> (r: Option<Vec<u8>>)
        requires
            old(scan).wf(),
        ensures
            final(scan).wf(),
            ({
                let v = old(self).ingress(*old(scan));
                let w = final(self).ingress(*final(scan));
                if v.over() {
                    r is None && w == v
                } else {
                    r == Some(v.pending[0]) && w == v.step(IngressDisposition::Consumed)
                }
            }),
            final(self).inner.peer == old(self).inner.peer,
            final(self).inner.name == old(self).inner.name,
            final(self).iface == old(self).iface,
    {
        if scan.left == 0 {
            return None;
        }
        let data = self.inner.pending_rx_queue.pop_front();
        if data.is_some() {
            scan.left = scan.left - 1;
            scan.scanned = scan.scanned + 1;
        }
        proof {
            let q = old(self).inner.pending_rx_queue@;
            if q.len() > 0 {
                assert(q.subrange(1, q.len() as int) =~= q.skip(1));
            }
        }
        data
    }

    /// Decides who looks at a frame. `iface_alive` tells whether the interface still exists.
    pub fn classify(data: &[u8], iface_alive: bool, bridge: Option<BridgeCommonData>) -> (r:
        IngressStep)
        ensures
            r == (if !iface_alive {
                IngressStep::Local
            } else {
                match bridge {
                    Some(bridge) => IngressStep::Bridge(bridge),
                    None => if data@.len() < ETHERNET_HEADER {
                        IngressStep::Local
                    } else {
                        IngressStep::Route
                    },
                }
            }),
            r is Route <==> iface_alive && bridge is None && data@.len() >= 14,
            r is Bridge <==> iface_alive && bridge is Some,
    {
        if !iface_alive {
            return IngressStep::Local;
        }
        if let Some(bridge) = bridge {
            return IngressStep::Bridge(bridge);
        }
        if !ethernet_frame_ok(data) {
            return IngressStep::Local;
        }
        IngressStep::Route
    }

    /// What becomes of a frame, given what the router answered: it took the frame, it failed, or
    /// the frame is not its own.
    pub fn classify_and_consume(step: IngressStep, routed: Result<(), Option<SystemError>>) -> (r:
        IngressDisposition)
        ensures
            r == (match step {
                IngressStep::Local => IngressDisposition::Local,
                IngressStep::Bridge(_) => IngressDisposition::Consumed,
                IngressStep::Route => if routed == Err::<(), Option<SystemError>>(None) {
                    IngressDisposition::Local
                } else {
                    IngressDisposition::Consumed
                },
            }),
    {
        match step {
            IngressStep::Local => IngressDisposition::Local,
            IngressStep::Bridge(_) => IngressDisposition::Consumed,
            IngressStep::Route => match routed {
                Ok(_) => IngressDisposition::Consumed,
                Err(Some(_)) => IngressDisposition::Consumed,
                Err(None) => IngressDisposition::Local,
            },
        }
    }

    /// Puts a frame of a batch that was looked at where it belongs.
    pub fn prepare_ingress(&mut self, data: Vec<u8>, disposition: IngressDisposition)
        ensures
            final(self).inner.local_rx_queue@ == (if disposition == IngressDisposition::Local {
                old(self).inner.local_rx_queue@.push(data)
            } else {
                old(self).inner.local_rx_queue@
            }),
            final(self).inner.pending_rx_queue@ == old(self).inner.pending_rx_queue@,
            final(self).inner.peer == old(self).inner.peer,
            final(self).inner.name == old(self).inner.name,
            final(self).iface == old(self).iface,
    {
        match disposition {
            IngressDisposition::Local => {
                self.inner.local_rx_queue.push_back(data);
            },
            IngressDisposition::Consumed => {},
        }
    }

    /// Whether frames wait that nobody has looked at.
    pub fn has_pending_ingress(&self) -> (r: bool)
        ensures
            r == (self.inner.pending_rx_queue@.len() > 0),
    {
        self.inner.pending_rx_queue.len() > 0
    }

    /// Whether frames wait for the stack.
    pub fn has_local_ingress(&self) -> (r: bool)
        ensures
            r == (self.inner.local_rx_queue@.len() > 0),
    {
        self.inner.local_rx_queue.len() > 0
    }

    /// Checks the length of a frame. A VLAN tag allows four bytes more.
    pub fn validate_frame_len(frame: &[u8]) -> (r: Result<(), SystemError>)
        ensures
            r == (if frame_len_ok(frame@) {
                Ok(())
            } else {
                Err(SystemError::EMSGSIZE)
            }),
    {
        if frame.len() <= Self::MAX_UNTAGGED_FRAME_LEN {
            return Ok(());
        }
        let kind: u16 = ethernet_type(frame);
        if (kind == 0x8100 || kind == 0x88a8) && frame.len() <= Self::MAX_VLAN_FRAME_LEN {
            Ok(())
        } else {
            Err(SystemError::EMSGSIZE)
        }
    }

    /// Two ends that are not connected yet.
    pub fn new_pair(name1: String, name2: String) -> (r: (VethDriver, VethDriver))
        ensures
            r.0.inner.name == name1,
            r.1.inner.name == name2,
            r.0.inner.pending_rx_queue@.len() == 0,
            r.1.inner.pending_rx_queue@.len() == 0,
            r.0.inner.local_rx_queue@.len() == 0,
            r.1.inner.local_rx_queue@.len() == 0,
            r.0.inner.peer is None,
            r.1.inner.peer is None,
            r.0.iface is None,
            r.1.iface is None,
    {
        (
            VethDriver { inner: Veth::new(name1), iface: None },
            VethDriver { inner: Veth::new(name2), iface: None },
        )
    }

    /// The name of this end.
    pub fn name(&self) -> (r: String)
        ensures
            r@ == self.inner.name@,
    {
        self.inner.name.clone()
    }

    /// Sets the interface of this end.
    pub fn set_iface(&mut self, iface: u64)
        ensures
            *final(self) == (VethDriver { iface: Some(iface), ..*old(self) }),
    {
        self.iface = Some(iface);
    }

    /// The interface of this end.
    pub fn iface(&self) -> (r: Option<u64>)
        ensures
            r == self.iface,
    {
        self.iface
    }

    /// Decides to which interface a frame goes. `peer_alive` tells whether the other end still
    /// exists.
    pub fn submit_frame(&self, frame: &[u8], peer_alive: bool) -> (r: Result<u64, SystemError>)
        ensures
            r == (if !frame_len_ok(frame@) {
                Err(SystemError::EMSGSIZE)
            } else if self.inner.peer is None || !peer_alive {
                Err(SystemError::ENOBUFS)
            } else {
                Ok(self.inner.peer->0)
            }),
    {
        if let Err(error) = Self::validate_frame_len(frame) {
            return Err(error);
        }
        match self.inner.peer {
            Some(peer) => {
                if peer_alive {
                    Ok(peer)
                } else {
                    Err(SystemError::ENOBUFS)
                }
            },
            None => Err(SystemError::ENOBUFS),
        }
    }

    /// Copies a frame that is not too long, and decides to which interface it goes.
    pub fn try_raw_transmit(&self, frame: &[u8], peer_alive: bool) -> (r: Result<
        (u64, Vec<u8>),
        SystemError,
    >)
        ensures
            match r {
                Ok((peer, copy)) => {
                    &&& frame_len_ok(frame@)
                    &&& peer_alive
                    &&& self.inner.peer == Some(peer)
                    &&& copy@ == frame@
                },
                Err(e) => if !frame_len_ok(frame@) {
                    e == SystemError::EMSGSIZE
                } else {
                    e == SystemError::ENOBUFS && (self.inner.peer is None || !peer_alive)
                },
            },
    {
        match self.submit_frame(frame, peer_alive) {
            Ok(peer) => {
                let mut copy: Vec<u8> = Vec::new();
                copy.extend_from_slice(frame);
                assert(copy@ =~= frame@);
                Ok((peer, copy))
            },
            Err(error) => Err(error),
        }
    }

    /// The limits of the device.
    pub fn capabilities(&self) -> (r: DeviceCapabilities)
        ensures
            r == (DeviceCapabilities {
                medium: Medium::Ethernet,
                max_transmission_unit: VETH_MAX_FRAME_SIZE,
                max_burst_size: None,
            }),
    {
        DeviceCapabilities {
            medium: Medium::Ethernet,
            max_transmission_unit: VETH_MAX_FRAME_SIZE,
            max_burst_size: None,
        }
    }

    /// Takes the oldest frame for the stack.
    pub fn receive(&mut self) -> (r: Option<Vec<u8>>)
        ensures
            ({
                let q = old(self).inner.local_rx_queue@;
                &&& r == (if q.len() > 0 {
                    Some(q[0])
                } else {
                    None
                })
                &&& final(self).inner.local_rx_queue@ == (if q.len() > 0 {
                    q.subrange(1, q.len() as int)
                } else {
                    q
                })
            }),
            final(self).inner.pending_rx_queue@ == old(self).inner.pending_rx_queue@,
            final(self).inner.peer == old(self).inner.peer,
            final(self).inner.name == old(self).inner.name,
            final(self).iface == old(self).iface,
    {
        self.inner.recv_local()
    }
}

/// What the device tree and the bridge know of one end.
#[derive(Clone, Copy, Debug, PartialEq, Eq, Structural)]
pub struct VethCommonData {
    pub netdevice_common: NetDeviceCommonData,
    pub device_common: DeviceCommonData,
    pub kobj_common: KObjectCommonData,
    pub peer_veth: Option<u64>,
    pub bridge_common_data: Option<BridgeCommonData>,
}

/// One end as an interface.
pub struct VethInterface {
    pub driver: VethDriver,
    pub common: IfaceCommon,
    pub mac_address: EthernetAddress,
    pub napi: NapiStruct,
    pub inner: VethCommonData,
}

/// The flags of a new veth interface.
pub const VETH_FLAGS: u32 = 0x1_1043;

/// The hardware address of the interface with this number.
pub open spec fn veth_mac(iface_id: usize) -> EthernetAddress {
    EthernetAddress { high: 0x0200, low: (iface_id % 0x1_0000) as u32 }
}

impl VethInterface {
    /// An interface for one end.
    pub fn new(driver: VethDriver, iface_id: usize, own: u64) -> (r: Self)
        ensures
            r.driver.inner == driver.inner,
            r.driver.iface == Some(own),
            r.common.wf(),
            r.common.iface_id == iface_id,
            r.common.type_ == InterfaceType::ETHER,
            r.common.name@ == driver.inner.name@,
            r.common.mtu == VETH_IP_MTU,
            r.common.flags == VETH_FLAGS,
            r.mac_address == veth_mac(iface_id),
            r.napi == (NapiStruct { weight: 10, napi_id: iface_id }),
            r.inner.peer_veth is None,
            r.inner.bridge_common_data is None,
    {
        let mut driver = driver;
        let name = driver.name();
        driver.set_iface(own);
        VethInterface {
            driver,
            common: IfaceCommon::new(
                iface_id,
                InterfaceType::ETHER,
                name,
                VETH_IP_MTU,
                InterfaceFlags { bits: VETH_FLAGS },
            ),
            mac_address: EthernetAddress { high: 0x0200, low: (iface_id % 0x1_0000) as u32 },
            napi: NapiStruct::new(iface_id, 10),
            inner: VethCommonData {
                netdevice_common: NetDeviceCommonData::default(),
                device_common: DeviceCommonData::default(),
                kobj_common: KObjectCommonData::default(),
                peer_veth: None,
                bridge_common_data: None,
            },
        }
    }

    /// Connects this end with another.
    pub fn set_peer_iface(&mut self, peer: u64)
        ensures
            final(self).inner == (VethCommonData { peer_veth: Some(peer), ..old(self).inner }),
            final(self).driver.inner == (Veth { peer: Some(peer), ..old(self).driver.inner }),
            final(self).driver.iface == old(self).driver.iface,
            final(self).common == old(self).common,
            final(self).mac_address == old(self).mac_address,
            final(self).napi == old(self).napi,
    {
        self.inner.peer_veth = Some(peer);
        self.driver.inner.set_peer_iface(peer);
    }

    /// The other end.
    pub fn peer_veth(&self) -> (r: u64)
        requires
            self.inner.peer_veth is Some,
        ensures
            Some(r) == self.inner.peer_veth,
    {
        self.inner.peer_veth.unwrap()
    }

    /// Two interfaces with these numbers that are connected with each other.
    pub fn new_pair(
        name1: String,
        name2: String,
        iface_id1: usize,
        iface_id2: usize,
        own1: u64,
        own2: u64,
    ) -> (r: (VethInterface, VethInterface))
        ensures
            r.0.common.wf(),
            r.1.common.wf(),
            r.0.common.name@ == name1@,
            r.1.common.name@ == name2@,
            r.0.common.iface_id == iface_id1,
            r.1.common.iface_id == iface_id2,
            r.0.inner.peer_veth == Some(own2),
            r.1.inner.peer_veth == Some(own1),
            r.0.driver.inner.peer == Some(own2),
            r.1.driver.inner.peer == Some(own1),
            r.0.mac_address == veth_mac(iface_id1),
            r.1.mac_address == veth_mac(iface_id2),
    {
        let (driver1, driver2) = VethDriver::new_pair(name1, name2);
        let mut iface1 = VethInterface::new(driver1, iface_id1, own1);
        let mut iface2 = VethInterface::new(driver2, iface_id2, own2);
        iface1.set_peer_iface(own2);
        iface2.set_peer_iface(own1);
        (iface1, iface2)
    }

    /// The name of the interface.
    pub fn name(&self) -> (r: String)
        ensures
            r@ == self.common.name@,
    {
        self.common.name()
    }

    /// Renames the interface.
    pub fn set_name(&mut self, name: String)
        ensures
            *final(self) == (VethInterface {
                common: IfaceCommon { name, ..old(self).common },
                ..*old(self)
            }),
    {
        self.common.set_name(name);
    }

    /// A network device.
    pub fn dev_type(&self) -> (r: DeviceType)
        ensures
            r == DeviceType::Net,
    {
        DeviceType::Net
    }

    /// How the interface is identified to drivers.
    pub fn id_table(&self) -> (r: IdTable)
        ensures
            r.name@ == self.common.name@,
            r.id is None,
    {
        IdTable::new(self.common.name(), None)
    }

    /// The hardware address.
    pub fn mac(&self) -> (r: EthernetAddress)
        ensures
            r == self.mac_address,
    {
        self.mac_address
    }

    /// How many frames are looked at before a poll in each scope: none unless the interface is up.
    pub fn scan_budget(scope: IfacePollScope) -> (r: usize)
        ensures
            r == (if scope == IfacePollScope::Full {
                64usize
            } else {
                0
            }),
    {
        if scope == IfacePollScope::Full {
            64
        } else {
            0
        }
    }

    /// Whether a poll has to be followed by another one, given the batch that was looked at before it
    /// and what the poll of the stack returned.
    pub fn poll(&self, scope: IfacePollScope, scan: IngressScan, polled: bool) -> (r: bool)
        ensures
            r == (match scope {
                IfacePollScope::Nothing => false,
                IfacePollScope::LocalOnly => polled,
                IfacePollScope::Full => polled || scan.scanned != 0
                    || self.driver.inner.pending_rx_queue@.len() > 0,
            }),
    {
        match scope {
            IfacePollScope::Nothing => false,
            IfacePollScope::LocalOnly => polled,
            IfacePollScope::Full => polled || scan.scanned != 0
                || self.driver.has_pending_ingress(),
        }
    }

    /// How much of a budget the stack may use: half of it if both queues have frames.
    pub fn napi_local_budget(&self, budget: usize) -> (r: usize)
        ensures
            r == (if (self.driver.inner.local_rx_queue@.len() > 0
                || self.common.local_input_queue.state.packets@.len() > 0)
                && self.driver.inner.pending_rx_queue@.len() > 0 {
                (budget / 2 + budget % 2) as usize
            } else {
                budget
            }),
            r <= budget,
            r == budget || budget <= 2 * r <= budget + 1,
            self.driver.inner.pending_rx_queue@.len() == 0 ==> r == budget,
    {
        let local_backlogged = self.driver.has_local_ingress() || self.common.has_local_input();
        if local_backlogged && self.driver.has_pending_ingress() {
            budget / 2 + budget % 2
        } else {
            budget
        }
    }

    /// How many frames are looked at after the stack used a part of the budget.
    pub fn napi_scan_budget(budget: usize, stack: NapiPollResult) -> (r: usize)
        requires
            stack.work_done <= budget,
        ensures
            r == budget - stack.work_done,
    {
        budget - stack.work_done
    }

    /// What a bounded poll did, given what the stack did and the batch that was looked at after it.
    /// Every frame of the batch is charged to the budget.
    pub fn poll_napi(
        &self,
        scope: IfacePollScope,
        budget: usize,
        stack: NapiPollResult,
        scan: IngressScan,
    ) -> (r: NapiPollResult)
        requires
            scope == IfacePollScope::Full ==> stack.work_done <= budget && scan.wf()
                && scan.scan_budget == budget - stack.work_done,
        ensures
            r == (match scope {
                IfacePollScope::Nothing => NapiPollResult { work_done: 0, poll_again: false },
                IfacePollScope::LocalOnly => stack,
                IfacePollScope::Full => NapiPollResult {
                    work_done: (scan.scanned + stack.work_done) as usize,
                    poll_again: stack.poll_again || self.driver.inner.pending_rx_queue@.len() > 0
                        || self.driver.inner.local_rx_queue@.len() > 0,
                },
            }),
            scope == IfacePollScope::Full ==> r.work_done == scan.scanned + stack.work_done
                && r.work_done <= budget,
    {
        match scope {
            IfacePollScope::Nothing => NapiPollResult::idle(),
            IfacePollScope::LocalOnly => stack,
            IfacePollScope::Full => NapiPollResult::new(
                scan.scanned + stack.work_done,
                stack.poll_again || self.driver.has_pending_ingress()
                    || self.driver.has_local_ingress(),
            ),
        }
    }

    /// Marks the interface as an Ethernet device and returns that type.
    pub fn net_device_type(&mut self) -> (r: u16)
        ensures
            r == 1,
            *final(self) == (VethInterface {
                inner: VethCommonData {
                    netdevice_common: NetDeviceCommonData {
                        net_device_type: 1,
                        ..old(self).inner.netdevice_common
                    },
                    ..old(self).inner
                },
                ..*old(self)
            }),
    {
        self.inner.netdevice_common.net_device_type = 1;
        self.inner.netdevice_common.net_device_type
    }

    /// Adds flags to the state of the device.
    pub fn set_net_state(&mut self, state: NetDeivceState)
        ensures
            *final(self) == (VethInterface {
                inner: VethCommonData {
                    netdevice_common: NetDeviceCommonData {
                        state: NetDeivceState {
                            bits: old(self).inner.netdevice_common.state.bits | state.bits,
                        },
                        ..old(self).inner.netdevice_common
                    },
                    ..old(self).inner
                },
                ..*old(self)
            }),
    {
        self.inner.netdevice_common.state = self.inner.netdevice_common.state.with(state.bits);
    }

    /// Takes flags away from the state of the device.
    pub fn clear_net_state(&mut self, state: NetDeivceState)
        ensures
            *final(self) == (VethInterface {
                inner: VethCommonData {
                    netdevice_common: NetDeviceCommonData {
                        state: NetDeivceState {
                            bits: old(self).inner.netdevice_common.state.bits & !state.bits,
                        },
                        ..old(self).inner.netdevice_common
                    },
                    ..old(self).inner
                },
                ..*old(self)
            }),
    {
        self.inner.netdevice_common.state = self.inner.netdevice_common.state.without(state.bits);
    }

    /// Sets the operational state.
    pub fn set_operstate(&mut self, state: Operstate)
        ensures
            *final(self) == (VethInterface {
                inner: VethCommonData {
                    netdevice_common: NetDeviceCommonData {
                        operstate: state,
                        ..old(self).inner.netdevice_common
                    },
                    ..old(self).inner
                },
                ..*old(self)
            }),
    {
        self.inner.netdevice_common.operstate = state;
    }

    /// To which interface a frame from the bridge goes: the other end, unless the bridge is gone.
    pub fn receive_from_bridge(&self, bridge_alive: bool) -> (r: Option<u64>)
        requires
            self.inner.peer_veth is Some,
            self.inner.bridge_common_data is Some,
        ensures
            r == (if bridge_alive {
                self.inner.peer_veth
            } else {
                None
            }),
    {
        if bridge_alive {
            Some(self.peer_veth())
        } else {
            None
        }
    }

    /// Records the port of the bridge that the interface belongs to.
    pub fn set_common_bridge_data(&mut self, port: &BridgePort, bridge: u64)
        ensures
            *final(self) == (VethInterface {
                inner: VethCommonData {
                    bridge_common_data: Some(BridgeCommonData { id: port.id, bridge }),
                    ..old(self).inner
                },
                ..*old(self)
            }),
    {
        self.inner.bridge_common_data = Some(BridgeCommonData { id: port.id, bridge });
    }

    /// The port of the bridge that the interface belongs to.
    pub fn common_bridge_data(&self) -> (r: Option<BridgeCommonData>)
        ensures
            r == self.inner.bridge_common_data,
    {
        self.inner.bridge_common_data
    }
}

/// The numbers that a host route is made with.
#[derive(Clone, Copy, Debug, PartialEq, Eq, Structural)]
pub struct RouteNumbers {
    pub table: u32,
    pub protocol: u8,
    pub kind: u8,
}

/// The route to one host through an interface, at its gateway or on its link.
pub open spec fn spec_host_route(
    destination: IpAddress,
    gateway: Option<IpAddress>,
    scope: u8,
    oif: u32,
    numbers: RouteNumbers,
) -> BootstrapRoute {
    BootstrapRoute {
        destination: IpCidr { address: destination, prefix_len: 32 },
        source: None,
        preferred_source: None,
        table: numbers.table,
        priority: 0,
        tos: 0,
        protocol: numbers.protocol,
        scope,
        kind: numbers.kind,
        oif,
        gateway,
        nexthop_flags: 0,
    }
}

/// The route to one host through an interface, at its gateway or on its link.
pub fn host_route(
    destination: IpAddress,
    gateway: Option<IpAddress>,
    scope: u8,
    oif: u32,
    numbers: RouteNumbers,
) -> (r: BootstrapRoute)
    ensures
        r == spec_host_route(destination, gateway, scope, oif, numbers),
{
    BootstrapRoute {
        destination: IpCidr { address: destination, prefix_len: 32 },
        source: None,
        preferred_source: None,
        table: numbers.table,
        priority: 0,
        tos: 0,
        protocol: numbers.protocol,
        scope,
        kind: numbers.kind,
        oif,
        gateway,
        nexthop_flags: 0,
    }
}

/// The scopes of the routes between two pairs that meet on the host.
#[derive(Clone, Copy, Debug, PartialEq, Eq, Structural)]
pub struct RouteScopes {
    pub universe: u8,
    pub link: u8,
}

/// The routes by which the far ends of two pairs reach one another through the ends on the host.
/// The far ends own the first and the last address, the near ends the two between.
pub fn veth_route_test(
    addresses: [IpAddress; 4],
    ns1: u32,
    ns2: u32,
    host1: u32,
    host2: u32,
    scopes: RouteScopes,
    numbers: RouteNumbers,
) -> (r: Vec<BootstrapRoute>)
    ensures
        r@.len() == 4,
        r@[0] == spec_host_route(addresses@[3], Some(addresses@[1]), scopes.universe, ns1, numbers),
        r@[1] == spec_host_route(addresses@[0], Some(addresses@[2]), scopes.universe, ns2, numbers),
        r@[2] == spec_host_route(addresses@[0], None, scopes.link, host1, numbers),
        r@[3] == spec_host_route(addresses@[3], None, scopes.link, host2, numbers),
{
    let mut routes: Vec<BootstrapRoute> = Vec::new();
    routes.push(host_route(addresses[3], Some(addresses[1]), scopes.universe, ns1, numbers));
    routes.push(host_route(addresses[0], Some(addresses[2]), scopes.universe, ns2, numbers));
    routes.push(host_route(addresses[0], None, scopes.link, host1, numbers));
    routes.push(host_route(addresses[3], None, scopes.link, host2, numbers));
    routes
}

/// A frame is tagged exactly if the two bytes behind the addresses are 81 00 or 88 a8. Frames have up to
/// 1514 bytes, and four more if they are tagged.
pub proof fn law_frame_len(frame: Seq<u8>)
    ensures
        vlan_tagged(frame) <==> frame.len() >= 14 && (frame[12] == 0x81 && frame[13] == 0x00
            || frame[12] == 0x88 && frame[13] == 0xa8),
        frame.len() <= 1514 ==> frame_len_ok(frame),
        frame.len() > 1518 ==> !frame_len_ok(frame),
        1514 < frame.len() <= 1518 ==> (frame_len_ok(frame) <==> frame[12] == 0x81 && frame[13] == 0x00
            || frame[12] == 0x88 && frame[13] == 0xa8),
{
}

/// The address of an interface is local and names one station: its octets are 02, three zeros, and the
/// two lowest bytes of the interface's number, the higher first.
pub proof fn law_veth_mac(iface_id: usize)
    ensures
        ({
            let o = veth_mac(iface_id).spec_octets();
            &&& o[0] == 2 && o[1] == 0 && o[2] == 0 && o[3] == 0
            &&& o[4] * 256 + o[5] == iface_id % 0x1_0000
        }),
{
}

/// The frames for the stack are those of the first `n` that are marked so, each once and in the order
/// in which they came.
pub proof fn law_local_frames(
    frames: Seq<Vec<u8>>,
    dispositions: Seq<IngressDisposition>,
    n: int,
)
    requires
        0 <= n <= frames.len(),
        n <= dispositions.len(),
    ensures
        local_frames(frames, dispositions, n).len() <= n,
        forall|i: int|
            0 <= i < n && (#[trigger] dispositions[i]) == IngressDisposition::Local ==> local_frames(
                frames,
                dispositions,
                n,
            ).contains(frames[i]),
        forall|j: int|
            0 <= j < local_frames(frames, dispositions, n).len() ==> exists|i: int|
                0 <= i < n && (#[trigger] dispositions[i]) == IngressDisposition::Local && frames[i]
                    == (#[trigger] local_frames(frames, dispositions, n)[j]),
        n > 0 && dispositions[0] == IngressDisposition::Local ==> local_frames(
            frames,
            dispositions,
            n,
        )[0] == frames[0],
        (forall|i: int| 0 <= i < n ==> (#[trigger] dispositions[i]) == IngressDisposition::Local)
            ==> local_frames(frames, dispositions, n) == frames.take(n),
        (forall|i: int| 0 <= i < n ==> (#[trigger] dispositions[i]) != IngressDisposition::Local)
            ==> local_frames(frames, dispositions, n).len() == 0,
    decreases n,
{
    if n > 0 {
        let f = frames.skip(1);
        let d = dispositions.skip(1);
        law_local_frames(f, d, n - 1);
        let rest = local_frames(f, d, n - 1);
        let all = local_frames(frames, dispositions, n);
        let first = dispositions[0] == IngressDisposition::Local;
        let shift = if first {
            1int
        } else {
            0
        };
        assert(all.len() == rest.len() + shift);
        assert forall|i: int|
            0 <= i < n && (#[trigger] dispositions[i]) == IngressDisposition::Local implies all.contains(
            frames[i],
        ) by {
            if i == 0 {
                assert(all[0] == frames[0]);
            } else {
                assert(d[i - 1] == dispositions[i]);
                assert(rest.contains(f[i - 1]));
                let j = choose|j: int| 0 <= j < rest.len() && rest[j] == f[i - 1];
                assert(all[j + shift] == frames[i]);
            }
        }
        assert forall|j: int| 0 <= j < all.len() implies exists|i: int|
            0 <= i < n && (#[trigger] dispositions[i]) == IngressDisposition::Local && frames[i] == (
            #[trigger] all[j]) by {
            if j < shift {
                assert(dispositions[0] == IngressDisposition::Local);
            } else {
                assert(all[j] == rest[j - shift]);
                let i = choose|i: int|
                    0 <= i < n - 1 && (#[trigger] d[i]) == IngressDisposition::Local && f[i]
                        == rest[j - shift];
                assert(dispositions[i + 1] == d[i]);
                assert(frames[i + 1] == f[i]);
            }
        }
        if forall|i: int| 0 <= i < n ==> (#[trigger] dispositions[i]) == IngressDisposition::Local {
            assert forall|i: int| 0 <= i < n - 1 implies (#[trigger] d[i])
                == IngressDisposition::Local by {
                assert(d[i] == dispositions[i + 1]);
            }
            assert(dispositions[0] == IngressDisposition::Local);
            assert(all =~= frames.take(n));
        }
        if forall|i: int| 0 <= i < n ==> (#[trigger] dispositions[i]) != IngressDisposition::Local {
            assert forall|i: int| 0 <= i < n - 1 implies (#[trigger] d[i])
                != IngressDisposition::Local by {
                assert(d[i] == dispositions[i + 1]);
            }
            assert(dispositions[0] != IngressDisposition::Local);
        }
    } else {
        assert(local_frames(frames, dispositions, n) =~= frames.take(0));
    }
}

/// The sizes of a pair fit together: a frame is an IP packet of up to 1500 bytes behind a header of
/// fourteen, and a tag takes four bytes more. A new end is up and running, on a link that is up, and
/// knows broadcast and multicast.
pub proof fn law_sizes()
    ensures
        VETH_IP_MTU == 1500,
        VETH_MAX_FRAME_SIZE == VETH_IP_MTU + 14,
        VethDriver::MAX_UNTAGGED_FRAME_LEN == VETH_MAX_FRAME_SIZE,
        VethDriver::MAX_VLAN_FRAME_LEN == VethDriver::MAX_UNTAGGED_FRAME_LEN + 4,
        VETH_FLAGS == InterfaceFlags::UP + InterfaceFlags::BROADCAST + InterfaceFlags::RUNNING
            + InterfaceFlags::MULTICAST + InterfaceFlags::LOWER_UP,
{
}

} // verus!

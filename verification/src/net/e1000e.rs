//! The e1000e Ethernet controllers.
//!
//! The controller and the driver share two rings of descriptors. Descriptors and registers are read
//! and written outside; what is done with them is decided here.

use vstd::prelude::*;
use crate::pci::bar::{BarInfo, PciStandardDeviceBar};
use crate::pci::header::{PciDeviceStructureHeader, PciFunction};
use crate::pci::irq::{IrqCommonMsg, IrqSpecificMsg, PciIrqMsg, TriggerMode};
use crate::pci::scan::{self, get_pci_device_structure};
use crate::pci::types::PciError;

verus! {

/// How many bytes a buffer has, and each ring.
pub const PAGE_SIZE: usize = 4096;

/// How many descriptors a ring has. Each has 16 bytes.
pub const RING_LENGTH: usize = 256;

/// How many packets wait at most between the ring and whoever takes them.
pub const E1000E_RECV_NAPI: usize = 1024;

/// How many bytes of registers a controller has.
pub const E1000E_BAR_REG_SIZE: u64 = 131072;

/// The interrupt of received packets.
pub const E1000E_RECV_VECTOR: u32 = 57;

pub const NETWORK_CLASS: u8 = 2;

pub const ETHERNET_SUBCLASS: u8 = 0;

pub const INTEL_VENDOR: u16 = 0x8086;

pub const REG_CTRL: u32 = 0x0000;

pub const REG_STATUS: u32 = 0x0008;

pub const REG_ICR: u32 = 0x00c0;

pub const REG_IMS: u32 = 0x00d0;

pub const REG_IMC: u32 = 0x00d8;

pub const REG_RCTL: u32 = 0x0100;

pub const REG_TCTL: u32 = 0x0400;

pub const REG_TIPG: u32 = 0x0410;

pub const REG_RDBAL0: u32 = 0x2800;

pub const REG_RDBAH0: u32 = 0x2804;

pub const REG_RDLEN0: u32 = 0x2808;

pub const REG_RDH0: u32 = 0x2810;

pub const REG_RDT0: u32 = 0x2818;

pub const REG_TDBAL0: u32 = 0x3800;

pub const REG_TDBAH0: u32 = 0x3804;

pub const REG_TDLEN0: u32 = 0x3808;

pub const REG_TDH0: u32 = 0x3810;

pub const REG_TDT0: u32 = 0x3818;

pub const REG_TXDCTL: u32 = 0x3828;

pub const REG_MTA: u32 = 0x5200;

pub const REG_RAL0: u32 = 0x5400;

pub const REG_RAH0: u32 = 0x5404;

pub const REG_GCR: u32 = 0x5b00;

/// The receive timer has expired.
pub const E1000E_IMS_RXT0: u32 = 0x80;

/// Why a controller could not be set up.
#[derive(Clone, Copy, Debug, PartialEq, Eq, Structural)]
pub enum E1000EPciError {
    /// The registers are not in memory.
    UnexpectedBarType,
    /// The registers have no address.
    BarNotAllocated,
    /// The registers are not mapped.
    BarGetVaddrFailed,
    /// There are no registers.
    BarGetFailed,
    /// There are not as many registers as expected.
    UnexpectedBarSize,
    Pci(PciError),
}

impl From<PciError> for E1000EPciError {
    fn from(error: PciError) -> (r: Self) {
        E1000EPciError::Pci(error)
    }
}

impl vstd::std_specs::convert::FromSpecImpl<PciError> for E1000EPciError {
    open spec fn obeys_from_spec() -> bool {
        true
    }

    open spec fn from_spec(error: PciError) -> Self {
        E1000EPciError::Pci(error)
    }
}

/// A write to a register of the controller.
#[derive(Clone, Copy, Debug, PartialEq, Eq, Structural)]
pub struct RegWrite {
    pub offset: u32,
    pub value: u32,
}

/// A page that holds a packet. One of length 0 only stands for one and has no page.
#[derive(Clone, Copy, Debug, PartialEq, Eq, Structural)]
pub struct E1000EBuffer {
    /// Where the page is mapped.
    pub buffer: u64,
    /// Where the page is.
    pub paddr: usize,
    pub length: usize,
}

impl E1000EBuffer {
    /// A buffer of so many bytes in a page that was allocated for it. For length 0 none is used.
    pub fn new(length: usize, page: (usize, u64)) -> (r: Self)
        requires
            length <= PAGE_SIZE,
        ensures
            r == (if length == 0 {
                E1000EBuffer { buffer: 0, paddr: 0, length: 0 }
            } else {
                E1000EBuffer { buffer: page.1, paddr: page.0, length }
            }),
    {
        if length == 0 {
            E1000EBuffer { buffer: 0, paddr: 0, length: 0 }
        } else {
            E1000EBuffer { buffer: page.1, paddr: page.0, length }
        }
    }

    /// Where the page is mapped.
    pub fn as_addr(&self) -> (r: u64)
        requires
            self.length != 0,
        ensures
            r == self.buffer,
    {
        self.buffer
    }

    /// Where the page is mapped, as a number.
    pub fn as_addr_u64(&self) -> (r: u64)
        requires
            self.length != 0,
        ensures
            r == self.buffer,
    {
        self.buffer
    }

    /// Where the page is.
    pub fn as_paddr(&self) -> (r: usize)
        requires
            self.length != 0,
        ensures
            r == self.paddr,
    {
        self.paddr
    }

    /// Sets how many bytes of the page count.
    pub fn set_length(&mut self, length: usize)
        ensures
            *final(self) == (E1000EBuffer { length, ..*old(self) }),
    {
        self.length = length;
    }

    /// How many bytes of the page count.
    pub fn len(&self) -> (r: usize)
        ensures
            r == self.length,
    {
        self.length
    }

    /// The page that is given back with the buffer, if it has one.
    pub open spec fn spec_freed(self) -> Option<E1000EBuffer> {
        if self.length != 0 {
            Some(self)
        } else {
            None
        }
    }

    /// The page that is given back with the buffer, if it has one.
    pub fn free_buffer(self) -> (r: Option<E1000EBuffer>)
        ensures
            r == self.spec_freed(),
    {
        if self.length != 0 {
            Some(self)
        } else {
            None
        }
    }
}

/// A descriptor of a packet to be sent.
#[derive(Clone, Copy, Debug, PartialEq, Eq, Structural)]
pub struct E1000ETransDesc {
    pub addr: u64,
    pub len: u16,
    pub cso: u8,
    pub cmd: u8,
    pub status: u8,
    pub css: u8,
    pub special: u8,
}

/// A descriptor of a packet that is received.
#[derive(Clone, Copy, Debug, PartialEq, Eq, Structural)]
pub struct E1000ERecvDesc {
    pub addr: u64,
    pub len: u16,
    pub chksum: u16,
    pub status: u16,
    pub error: u8,
    pub special: u8,
}

/// A packet that was taken from the ring, and how the ring goes on.
#[derive(Clone, Copy, Debug, PartialEq, Eq, Structural)]
pub struct E1000EReceived {
    pub buffer: E1000EBuffer,
    /// The descriptor that gets another page.
    pub index: usize,
    pub desc: E1000ERecvDesc,
    /// The tail of the ring.
    pub rdt: u32,
}

/// A packet that was put into the ring, and how the ring goes on.
#[derive(Clone, Copy, Debug, PartialEq, Eq, Structural)]
pub struct E1000ETransmitted {
    /// The descriptor of the packet.
    pub index: usize,
    pub desc: E1000ETransDesc,
    /// The tail of the ring.
    pub tdt: u32,
    /// The page that was in its place before.
    pub freed: Option<E1000EBuffer>,
}

/// Packets that were taken from the ring but not by whoever they are for.
#[derive(Debug)]
pub struct NapiRing {
    buffers: Vec<E1000EBuffer>,
    head: usize,
    tail: usize,
    empty: bool,
}

impl NapiRing {
    /// The positions lie in the ring, and head and tail differ unless it is empty or full.
    pub closed spec fn wf(self) -> bool {
        &&& self.buffers@.len() == E1000E_RECV_NAPI
        &&& self.head < E1000E_RECV_NAPI
        &&& self.tail < E1000E_RECV_NAPI
        &&& self.empty ==> self.head == self.tail
    }

    /// How many packets wait.
    pub closed spec fn count(self) -> nat {
        if self.empty {
            0
        } else if self.tail > self.head {
            (self.tail - self.head) as nat
        } else {
            (E1000E_RECV_NAPI - self.head + self.tail) as nat
        }
    }

    /// The packets that wait, the first of them first.
    pub closed spec fn view(self) -> Seq<E1000EBuffer> {
        Seq::new(
            self.count(),
            |i: int| self.buffers@[(self.head + i) % E1000E_RECV_NAPI as int],
        )
    }

    /// No packet waits.
    pub fn new() -> (r: Self)
        ensures
            r.wf(),
            r@ == Seq::<E1000EBuffer>::empty(),
    {
        let mut buffers: Vec<E1000EBuffer> = Vec::new();
        let mut i: usize = 0;
        while i < E1000E_RECV_NAPI
            invariant
                0 <= i <= E1000E_RECV_NAPI,
                buffers@.len() == i,
            decreases E1000E_RECV_NAPI - i,
        {
            buffers.push(E1000EBuffer::new(0, (0, 0)));
            i = i + 1;
        }
        let r = NapiRing { buffers, head: 0, tail: 0, empty: true };
        assert(r@ =~= Seq::<E1000EBuffer>::empty());
        r
    }

    /// Whether no packet waits.
    pub fn is_empty(&self) -> (r: bool)
        requires
            self.wf(),
        ensures
            r == (self@.len() == 0),
    {
        self.empty
    }

    /// Whether no more packet can wait.
    pub fn is_full(&self) -> (r: bool)
        requires
            self.wf(),
        ensures
            r == (self@.len() == E1000E_RECV_NAPI),
    {
        self.tail == self.head && !self.empty
    }

    /// Lets a packet wait behind the others.
    pub fn push(&mut self, buffer: E1000EBuffer)
        requires
            old(self).wf(),
            old(self)@.len() < E1000E_RECV_NAPI,
        ensures
            final(self).wf(),
            final(self)@ == old(self)@.push(buffer),
    {
        let ghost before = *self;
        let at: usize = self.tail;
        self.buffers.set(at, buffer);
        self.tail = (at + 1) % E1000E_RECV_NAPI;
        self.empty = false;
        proof {
            assert(self@.len() == before@.len() + 1);
            assert forall|i: int| 0 <= i < self@.len() implies self@[i] == before@.push(
                buffer,
            )[i] by {
                let p = (self.head + i) % E1000E_RECV_NAPI as int;
                if i < before@.len() {
                    assert(p != at);
                } else {
                    assert(p == at);
                }
            }
            assert(self@ =~= before@.push(buffer));
        }
    }

    /// Takes the first packet. One of length 0 is no packet: it stays, and so does what is behind
    /// it.
    pub fn pop(&mut self) -> (r: Option<E1000EBuffer>)
        requires
            old(self).wf(),
        ensures
            final(self).wf(),
            match r {
                Some(buffer) => {
                    &&& old(self)@.len() > 0
                    &&& buffer == old(self)@[0]
                    &&& buffer.length != 0
                    &&& final(self)@ == old(self)@.drop_first()
                },
                None => {
                    &&& old(self)@.len() == 0 || old(self)@[0].length == 0
                    &&& *final(self) == *old(self)
                },
            },
    {
        if self.empty {
            return None;
        }
        let ghost before = *self;
        let buffer: E1000EBuffer = self.buffers[self.head];
        assert(before@[0] == buffer);
        if buffer.len() == 0 {
            return None;
        }
        self.head = (self.head + 1) % E1000E_RECV_NAPI;
        if self.head == self.tail {
            self.empty = true;
        }
        proof {
            assert(self@.len() == before@.len() - 1);
            assert forall|i: int| 0 <= i < self@.len() implies self@[i]
                == before@.drop_first()[i] by {
                assert((self.head + i) % E1000E_RECV_NAPI as int == (before.head + i + 1)
                    % E1000E_RECV_NAPI as int);
            }
            assert(self@ =~= before@.drop_first());
        }
        Some(buffer)
    }
}

/// A controller that is set up.
#[derive(Debug)]
pub struct E1000EDevice {
    pub recv_ring_pa: usize,
    pub trans_ring_pa: usize,
    /// The pages that the descriptors of the receive ring point to.
    pub recv_buffers: Vec<E1000EBuffer>,
    /// The pages that the descriptors of the transmit ring point to.
    pub trans_buffers: Vec<E1000EBuffer>,
    pub mac: [u8; 6],
    /// No packet was sent yet.
    pub first_trans: bool,
    pub napi: NapiRing,
}

/// Where the registers of a controller are mapped.
pub open spec fn spec_check_bar(bars: PciStandardDeviceBar) -> Result<usize, E1000EPciError> {
    match bars@[0].spec_memory_address_size() {
        None => Err(E1000EPciError::UnexpectedBarType),
        Some(region) => if region.0 == 0 {
            Err(E1000EPciError::BarNotAllocated)
        } else if region.1 != E1000E_BAR_REG_SIZE {
            Err(E1000EPciError::UnexpectedBarSize)
        } else {
            match bars@[0].spec_virtual_address() {
                None => Err(E1000EPciError::BarGetVaddrFailed),
                Some(v) => Ok(v),
            }
        },
    }
}

/// Where the registers of a controller are mapped, if they are the ones that are expected.
pub fn check_bar(bars: &PciStandardDeviceBar) -> (r: Result<usize, E1000EPciError>)
    ensures
        r == spec_check_bar(*bars),
{
    match bars.get_bar(0) {
        Err(e) => Err(E1000EPciError::from(e)),
        Ok(info) => match info.memory_address_size() {
            None => Err(E1000EPciError::UnexpectedBarType),
            Some(region) => {
                if region.0 == 0 {
                    return Err(E1000EPciError::BarNotAllocated);
                }
                if region.1 != E1000E_BAR_REG_SIZE {
                    return Err(E1000EPciError::UnexpectedBarSize);
                }
                match info.virtual_address() {
                    None => Err(E1000EPciError::BarGetVaddrFailed),
                    Some(v) => Ok(v),
                }
            },
        },
    }
}

/// The message by which the interrupt of received packets is set up. The handler and the device are
/// given by number.
pub fn recv_irq_msg(handler: u64, dev_id: u64) -> (r: PciIrqMsg)
    ensures
        r.irq_common_message.irq_index == 0,
        r.irq_common_message.irq_name@ == "E1000E_RECV_IRQ"@,
        r.irq_common_message.irq_hander == handler,
        r.irq_common_message.dev_id == dev_id,
        r.irq_specific_message == (IrqSpecificMsg::Msi {
            processor: 0,
            trigger_mode: TriggerMode::EdgeTrigger,
        }),
{
    PciIrqMsg {
        irq_common_message: IrqCommonMsg::init_from(
            0,
            "E1000E_RECV_IRQ".to_owned(),
            handler,
            dev_id,
        ),
        irq_specific_message: IrqSpecificMsg::msi_default(),
    }
}

/// The writes that reset the controller, where the control register holds `ctrl`.
pub fn reset(ctrl: u32) -> (r: Vec<RegWrite>)
    ensures
        r@ == seq![
            RegWrite { offset: REG_IMC, value: 0xffff_ffff },
            RegWrite { offset: REG_CTRL, value: ctrl | 0x0400_0000 },
        ],
{
    let mut writes: Vec<RegWrite> = Vec::new();
    writes.push(RegWrite { offset: REG_IMC, value: 0xffff_ffff });
    writes.push(RegWrite { offset: REG_CTRL, value: ctrl | 0x0400_0000 });
    assert(writes@ =~= seq![
        RegWrite { offset: REG_IMC, value: 0xffff_ffff },
        RegWrite { offset: REG_CTRL, value: ctrl | 0x0400_0000 },
    ]);
    writes
}

/// The writes that reset the physical layer behind that, where the control register holds `ctrl`.
/// The reset of the controller lets interrupts through again, so they are closed once more.
pub fn reset_phy(ctrl: u32) -> (r: Vec<RegWrite>)
    ensures
        r@ == seq![
            RegWrite { offset: REG_CTRL, value: ctrl | 0x8000_0000 },
            RegWrite { offset: REG_CTRL, value: ctrl },
            RegWrite { offset: REG_IMC, value: 0xffff_ffff },
        ],
{
    let mut writes: Vec<RegWrite> = Vec::new();
    writes.push(RegWrite { offset: REG_CTRL, value: ctrl | 0x8000_0000 });
    writes.push(RegWrite { offset: REG_CTRL, value: ctrl });
    writes.push(RegWrite { offset: REG_IMC, value: 0xffff_ffff });
    assert(writes@ =~= seq![
        RegWrite { offset: REG_CTRL, value: ctrl | 0x8000_0000 },
        RegWrite { offset: REG_CTRL, value: ctrl },
        RegWrite { offset: REG_IMC, value: 0xffff_ffff },
    ]);
    writes
}

/// The write that sets up the general registers, where the one for PCIe holds `gcr`.
pub fn set_general(gcr: u32) -> (r: RegWrite)
    ensures
        r == (RegWrite { offset: REG_GCR, value: gcr | 0x0040_0000 }),
{
    RegWrite { offset: REG_GCR, value: gcr | 0x0040_0000 }
}

/// The write that brings the link up and lets both sides agree on speed and duplex, where the
/// control register holds `ctrl`.
pub fn set_link(ctrl: u32) -> (r: RegWrite)
    ensures
        r == (RegWrite { offset: REG_CTRL, value: (ctrl & !0x1800u32) | 0x40 }),
{
    RegWrite { offset: REG_CTRL, value: (ctrl & !0x1800u32) | 0x40 }
}

/// The address of the controller, from its two address registers.
pub fn mac_of(ral: u32, rah: u32) -> (r: [u8; 6])
    ensures
        r@ == seq![
            (ral & 0xff) as u8,
            ((ral >> 8u32) & 0xff) as u8,
            ((ral >> 16u32) & 0xff) as u8,
            ((ral >> 24u32) & 0xff) as u8,
            (rah & 0xff) as u8,
            ((rah >> 8u32) & 0xff) as u8,
        ],
        r@[0] + r@[1] * 0x100 + r@[2] * 0x1_0000 + r@[3] * 0x100_0000 == ral,
        r@[4] + r@[5] * 0x100 == rah % 0x1_0000,
{
    assert((ral & 0xff) + ((ral >> 8u32) & 0xff) * 0x100 + ((ral >> 16u32) & 0xff) * 0x1_0000 + ((
    ral >> 24u32) & 0xff) * 0x100_0000 == ral && (rah & 0xff) + ((rah >> 8u32) & 0xff) * 0x100
        == rah % 0x1_0000 && (ral & 0xff) < 256 && ((ral >> 8u32) & 0xff) < 256 && ((ral >> 16u32)
        & 0xff) < 256 && ((ral >> 24u32) & 0xff) < 256 && (rah & 0xff) < 256 && ((rah >> 8u32)
        & 0xff) < 256) by (bit_vector);
    let mac: [u8; 6] = [
        (ral & 0xff) as u8,
        ((ral >> 8u32) & 0xff) as u8,
        ((ral >> 16u32) & 0xff) as u8,
        ((ral >> 24u32) & 0xff) as u8,
        (rah & 0xff) as u8,
        ((rah >> 8u32) & 0xff) as u8,
    ];
    assert(mac@ =~= seq![
        (ral & 0xff) as u8,
        ((ral >> 8u32) & 0xff) as u8,
        ((ral >> 16u32) & 0xff) as u8,
        ((ral >> 24u32) & 0xff) as u8,
        (rah & 0xff) as u8,
        ((rah >> 8u32) & 0xff) as u8,
    ]);
    mac
}

/// The writes that clear the table of multicast addresses, of 128 registers.
pub open spec fn cleared_table() -> Seq<RegWrite> {
    Seq::new(128, |i: int| RegWrite { offset: (REG_MTA + 4 * i) as u32, value: 0 })
}

/// The writes that clear the table of multicast addresses.
pub fn clear_multicast_table() -> (r: Vec<RegWrite>)
    ensures
        r@ == cleared_table(),
{
    let mut writes: Vec<RegWrite> = Vec::new();
    let mut i: u32 = 0;
    while i < 128
        invariant
            0 <= i <= 128,
            writes@ == cleared_table().take(i as int),
        decreases 128 - i,
    {
        writes.push(RegWrite { offset: REG_MTA + 4 * i, value: 0 });
        i = i + 1;
        assert(writes@ =~= cleared_table().take(i as int));
    }
    assert(cleared_table().take(128) =~= cleared_table());
    writes
}

/// The writes that set up the receive ring at `pa`, with every descriptor given to the controller,
/// and switch receiving on.
pub open spec fn receive_setup(pa: u64) -> Seq<RegWrite> {
    seq![
        RegWrite { offset: REG_RDBAL0, value: pa as u32 },
        RegWrite { offset: REG_RDBAH0, value: (pa >> 32u64) as u32 },
        RegWrite { offset: REG_RDLEN0, value: 4096 },
        RegWrite { offset: REG_RDH0, value: 0 },
        RegWrite { offset: REG_RDT0, value: 255 },
        RegWrite { offset: REG_RCTL, value: 0x0603_8002 },
    ]
}

/// The writes that set up the receive ring at `pa` and switch receiving on: broadcasts are taken,
/// buffers have 4096 bytes, and the checksum of the frame is stripped.
pub fn setup_receive(pa: u64) -> (r: Vec<RegWrite>)
    ensures
        r@ == receive_setup(pa),
        left_in(r@, 0x2804) is Some && left_in(r@, 0x2800) is Some,
        (left_in(r@, 0x2804)->0) * 0x1_0000_0000 + (left_in(r@, 0x2800)->0) == pa,
{
    let mut writes: Vec<RegWrite> = Vec::new();
    writes.push(RegWrite { offset: REG_RDBAL0, value: pa as u32 });
    writes.push(RegWrite { offset: REG_RDBAH0, value: (pa >> 32u64) as u32 });
    writes.push(RegWrite { offset: REG_RDLEN0, value: 4096 });
    writes.push(RegWrite { offset: REG_RDH0, value: 0 });
    writes.push(RegWrite { offset: REG_RDT0, value: 255 });
    writes.push(RegWrite { offset: REG_RCTL, value: 0x0603_8002 });
    assert(writes@ =~= receive_setup(pa));
    proof {
        law_ring_addresses(pa);
    }
    writes
}

/// The writes that set up the transmit ring at `pa`, with no descriptor given to the controller, and
/// switch sending on.
pub open spec fn transmit_setup(pa: u64) -> Seq<RegWrite> {
    seq![
        RegWrite { offset: REG_TXDCTL, value: 0x0101_0000 },
        RegWrite { offset: REG_TDBAL0, value: pa as u32 },
        RegWrite { offset: REG_TDBAH0, value: (pa >> 32u64) as u32 },
        RegWrite { offset: REG_TDLEN0, value: 4096 },
        RegWrite { offset: REG_TDH0, value: 0 },
        RegWrite { offset: REG_TDT0, value: 0 },
        RegWrite { offset: REG_TIPG, value: 0x00a0_0808 },
        RegWrite { offset: REG_TCTL, value: 0x0003_f0fa },
    ]
}

/// The writes that set up the transmit ring at `pa` and switch sending on: descriptors are written
/// back, and short packets are padded.
pub fn setup_transmit(pa: u64) -> (r: Vec<RegWrite>)
    ensures
        r@ == transmit_setup(pa),
        left_in(r@, 0x3804) is Some && left_in(r@, 0x3800) is Some,
        (left_in(r@, 0x3804)->0) * 0x1_0000_0000 + (left_in(r@, 0x3800)->0) == pa,
{
    let mut writes: Vec<RegWrite> = Vec::new();
    writes.push(RegWrite { offset: REG_TXDCTL, value: 0x0101_0000 });
    writes.push(RegWrite { offset: REG_TDBAL0, value: pa as u32 });
    writes.push(RegWrite { offset: REG_TDBAH0, value: (pa >> 32u64) as u32 });
    writes.push(RegWrite { offset: REG_TDLEN0, value: 4096 });
    writes.push(RegWrite { offset: REG_TDH0, value: 0 });
    writes.push(RegWrite { offset: REG_TDT0, value: 0 });
    writes.push(RegWrite { offset: REG_TIPG, value: 0x00a0_0808 });
    writes.push(RegWrite { offset: REG_TCTL, value: 0x0003_f0fa });
    assert(writes@ =~= transmit_setup(pa));
    proof {
        law_ring_addresses(pa);
    }
    writes
}

/// The write that forgets the causes of interrupts so far, where their register holds `icr`.
pub fn clear_causes(icr: u32) -> (r: RegWrite)
    ensures
        r == (RegWrite { offset: REG_ICR, value: icr }),
{
    RegWrite { offset: REG_ICR, value: icr }
}

/// The write that lets interrupts through. What the register held does not count.
pub fn enable_interrupts() -> (r: RegWrite)
    ensures
        r == (RegWrite { offset: REG_IMS, value: 0x0100_0094 }),
{
    RegWrite { offset: REG_IMS, value: 0x0100_0094 }
}

/// The buffers have pages, and no two of them the same.
pub open spec fn pages_apart(buffers: Seq<E1000EBuffer>) -> bool {
    forall|i: int, j: int|
        0 <= i < j < buffers.len() && (#[trigger] buffers[i]).length != 0 && (
        #[trigger] buffers[j]).length != 0 ==> buffers[i].paddr != buffers[j].paddr
}

/// Some buffer has this page.
pub open spec fn has_page(buffers: Seq<E1000EBuffer>, paddr: usize) -> bool {
    exists|i: int|
        0 <= i < buffers.len() && (#[trigger] buffers[i]).length != 0 && buffers[i].paddr == paddr
}

/// Which register is read next while a controller is set up.
#[derive(Clone, Copy, Debug, PartialEq, Eq, Structural)]
pub enum StartupPhase {
    /// The control register, before the controller is reset.
    Reset,
    /// The control register, before the physical layer is reset.
    ResetPhy,
    /// The general register for PCIe.
    General,
    /// The control register, before the link is brought up.
    Link,
    /// The status register, of which nothing is kept.
    Status,
    /// The two address registers.
    AddressLow,
    AddressHigh,
    /// The register of causes, before they are forgotten.
    Causes,
    /// The register of what is let through, before interrupts are.
    Masks,
    /// None: the controller is set up.
    Done,
}

impl StartupPhase {
    /// The register that is read in a phase.
    pub open spec fn register(self) -> Option<u32> {
        match self {
            StartupPhase::Reset => Some(REG_CTRL),
            StartupPhase::ResetPhy => Some(REG_CTRL),
            StartupPhase::General => Some(REG_GCR),
            StartupPhase::Link => Some(REG_CTRL),
            StartupPhase::Status => Some(REG_STATUS),
            StartupPhase::AddressLow => Some(REG_RAL0),
            StartupPhase::AddressHigh => Some(REG_RAH0),
            StartupPhase::Causes => Some(REG_ICR),
            StartupPhase::Masks => Some(REG_IMS),
            StartupPhase::Done => None,
        }
    }

    /// The phase behind this one.
    pub open spec fn follower(self) -> Self {
        match self {
            StartupPhase::Reset => StartupPhase::ResetPhy,
            StartupPhase::ResetPhy => StartupPhase::General,
            StartupPhase::General => StartupPhase::Link,
            StartupPhase::Link => StartupPhase::Status,
            StartupPhase::Status => StartupPhase::AddressLow,
            StartupPhase::AddressLow => StartupPhase::AddressHigh,
            StartupPhase::AddressHigh => StartupPhase::Causes,
            StartupPhase::Causes => StartupPhase::Masks,
            StartupPhase::Masks => StartupPhase::Done,
            StartupPhase::Done => StartupPhase::Done,
        }
    }

    /// What is written once the register of a phase was read, for rings at `recv_pa` and
    /// `trans_pa`.
    pub open spec fn writes(self, value: u32, recv_pa: u64, trans_pa: u64) -> Seq<RegWrite> {
        match self {
            StartupPhase::Reset => seq![
                RegWrite { offset: REG_IMC, value: 0xffff_ffff },
                RegWrite { offset: REG_CTRL, value: value | 0x0400_0000 },
            ],
            StartupPhase::ResetPhy => seq![
                RegWrite { offset: REG_CTRL, value: value | 0x8000_0000 },
                RegWrite { offset: REG_CTRL, value },
                RegWrite { offset: REG_IMC, value: 0xffff_ffff },
            ],
            StartupPhase::General => seq![RegWrite { offset: REG_GCR, value: value | 0x0040_0000 }],
            StartupPhase::Link => seq![
                RegWrite { offset: REG_CTRL, value: (value & !0x1800u32) | 0x40 },
            ],
            StartupPhase::Status => Seq::empty(),
            StartupPhase::AddressLow => Seq::empty(),
            StartupPhase::AddressHigh => cleared_table() + receive_setup(recv_pa) + transmit_setup(
                trans_pa,
            ),
            StartupPhase::Causes => seq![RegWrite { offset: REG_ICR, value }],
            StartupPhase::Masks => seq![RegWrite { offset: REG_IMS, value: 0x0100_0094 }],
            StartupPhase::Done => Seq::empty(),
        }
    }
}

/// A controller that is being set up.
#[derive(Clone, Copy, Debug, PartialEq, Eq, Structural)]
pub struct E1000EStartup {
    pub phase: StartupPhase,
    /// Where the rings are.
    pub recv_pa: u64,
    pub trans_pa: u64,
    /// What the address registers hold, as far as they were read.
    pub ral: u32,
    pub rah: u32,
}

impl E1000EStartup {
    /// Starts with the reset of a controller, for rings at `recv_pa` and `trans_pa`.
    pub fn begin(recv_pa: u64, trans_pa: u64) -> (r: Self)
        ensures
            r == (E1000EStartup {
                phase: StartupPhase::Reset,
                recv_pa,
                trans_pa,
                ral: 0,
                rah: 0,
            }),
    {
        E1000EStartup { phase: StartupPhase::Reset, recv_pa, trans_pa, ral: 0, rah: 0 }
    }

    /// The register that is read next, unless the controller is set up.
    pub fn next(&self) -> (r: Option<u32>)
        ensures
            r == self.phase.register(),
    {
        match self.phase {
            StartupPhase::Reset => Some(REG_CTRL),
            StartupPhase::ResetPhy => Some(REG_CTRL),
            StartupPhase::General => Some(REG_GCR),
            StartupPhase::Link => Some(REG_CTRL),
            StartupPhase::Status => Some(REG_STATUS),
            StartupPhase::AddressLow => Some(REG_RAL0),
            StartupPhase::AddressHigh => Some(REG_RAH0),
            StartupPhase::Causes => Some(REG_ICR),
            StartupPhase::Masks => Some(REG_IMS),
            StartupPhase::Done => None,
        }
    }

    /// Takes what the register held that was to be read, and tells what is written before the next
    /// one is.
    pub fn supply(&mut self, value: u32) -> (r: Vec<RegWrite>)
        ensures
            r@ == old(self).phase.writes(value, old(self).recv_pa, old(self).trans_pa),
            *final(self) == (E1000EStartup {
                phase: old(self).phase.follower(),
                ral: if old(self).phase == StartupPhase::AddressLow {
                    value
                } else {
                    old(self).ral
                },
                rah: if old(self).phase == StartupPhase::AddressHigh {
                    value
                } else {
                    old(self).rah
                },
                ..*old(self)
            }),
    {
        match self.phase {
            StartupPhase::Reset => {
                self.phase = StartupPhase::ResetPhy;
                reset(value)
            },
            StartupPhase::ResetPhy => {
                self.phase = StartupPhase::General;
                reset_phy(value)
            },
            StartupPhase::General => {
                self.phase = StartupPhase::Link;
                let mut writes: Vec<RegWrite> = Vec::new();
                writes.push(set_general(value));
                writes
            },
            StartupPhase::Link => {
                self.phase = StartupPhase::Status;
                let mut writes: Vec<RegWrite> = Vec::new();
                writes.push(set_link(value));
                writes
            },
            StartupPhase::Status => {
                self.phase = StartupPhase::AddressLow;
                Vec::new()
            },
            StartupPhase::AddressLow => {
                self.phase = StartupPhase::AddressHigh;
                self.ral = value;
                Vec::new()
            },
            StartupPhase::AddressHigh => {
                self.phase = StartupPhase::Causes;
                self.rah = value;
                let mut writes = clear_multicast_table();
                let mut receive = setup_receive(self.recv_pa);
                let mut transmit = setup_transmit(self.trans_pa);
                writes.append(&mut receive);
                writes.append(&mut transmit);
                writes
            },
            StartupPhase::Causes => {
                self.phase = StartupPhase::Masks;
                let mut writes: Vec<RegWrite> = Vec::new();
                writes.push(clear_causes(value));
                writes
            },
            StartupPhase::Masks => {
                self.phase = StartupPhase::Done;
                let mut writes: Vec<RegWrite> = Vec::new();
                writes.push(enable_interrupts());
                writes
            },
            StartupPhase::Done => Vec::new(),
        }
    }

    /// The address of the controller, once its address registers were read.
    pub fn mac(&self) -> (r: [u8; 6])
        ensures
            r@ == seq![
                (self.ral & 0xff) as u8,
                ((self.ral >> 8u32) & 0xff) as u8,
                ((self.ral >> 16u32) & 0xff) as u8,
                ((self.ral >> 24u32) & 0xff) as u8,
                (self.rah & 0xff) as u8,
                ((self.rah >> 8u32) & 0xff) as u8,
            ],
            r@[0] + r@[1] * 0x100 + r@[2] * 0x1_0000 + r@[3] * 0x100_0000 == self.ral,
            r@[4] + r@[5] * 0x100 == self.rah % 0x1_0000,
    {
        mac_of(self.ral, self.rah)
    }
}

/// Nothing that is written before the last step lets an interrupt through.
pub proof fn law_startup_is_quiet(phase: StartupPhase, value: u32, recv_pa: u64, trans_pa: u64, i: int)
    requires
        phase != StartupPhase::Masks,
        0 <= i < phase.writes(value, recv_pa, trans_pa).len(),
    ensures
        phase.writes(value, recv_pa, trans_pa)[i].offset != REG_IMS,
{
    if phase == StartupPhase::AddressHigh {
        let table = cleared_table();
        let receive = receive_setup(recv_pa);
        let transmit = transmit_setup(trans_pa);
        if i < table.len() {
            assert((table + receive + transmit)[i] == table[i]);
        } else if i < table.len() + receive.len() {
            assert((table + receive + transmit)[i] == receive[i - table.len()]);
        } else {
            assert((table + receive + transmit)[i] == transmit[i - table.len() - receive.len()]);
        }
    }
}

impl E1000EDevice {
    /// Every descriptor has its buffer, and those of the receive ring have pages.
    pub open spec fn wf(self) -> bool {
        &&& self.recv_buffers@.len() == RING_LENGTH
        &&& self.trans_buffers@.len() == RING_LENGTH
        &&& forall|i: int|
            0 <= i < RING_LENGTH ==> (#[trigger] self.recv_buffers@[i]).length != 0
        &&& self.napi.wf()
    }

    /// No page is in two places of the rings.
    pub open spec fn apart(self) -> bool {
        &&& pages_apart(self.recv_buffers@)
        &&& pages_apart(self.trans_buffers@)
        &&& forall|i: int|
            #![trigger self.recv_buffers@[i]]
            0 <= i < self.recv_buffers@.len() ==> !has_page(
                self.trans_buffers@,
                self.recv_buffers@[i].paddr,
            )
    }

    /// The page is in one of the rings.
    pub open spec fn holds(self, paddr: usize) -> bool {
        has_page(self.recv_buffers@, paddr) || has_page(self.trans_buffers@, paddr)
    }

    /// A controller with this address and with these rings, filled with these buffers.
    pub fn new(
        mac: [u8; 6],
        recv_ring_pa: usize,
        trans_ring_pa: usize,
        recv_buffers: Vec<E1000EBuffer>,
        trans_buffers: Vec<E1000EBuffer>,
    ) -> (r: Self)
        requires
            recv_buffers@.len() == RING_LENGTH,
            trans_buffers@.len() == RING_LENGTH,
            forall|i: int| 0 <= i < RING_LENGTH ==> (#[trigger] recv_buffers@[i]).length != 0,
        ensures
            r.wf(),
            r.mac == mac,
            r.recv_ring_pa == recv_ring_pa,
            r.trans_ring_pa == trans_ring_pa,
            r.recv_buffers == recv_buffers,
            r.trans_buffers == trans_buffers,
            r.first_trans,
            r.napi@.len() == 0,
    {
        E1000EDevice {
            recv_ring_pa,
            trans_ring_pa,
            recv_buffers,
            trans_buffers,
            mac,
            first_trans: true,
            napi: NapiRing::new(),
        }
    }

    /// What a new receive descriptor says of its buffer: where it is, and that it is free.
    pub fn recv_desc(buffer: &E1000EBuffer, desc: E1000ERecvDesc) -> (r: E1000ERecvDesc)
        requires
            buffer.length != 0,
        ensures
            r == (E1000ERecvDesc { addr: buffer.paddr as u64, status: 0, ..desc }),
    {
        E1000ERecvDesc { addr: buffer.as_paddr() as u64, status: 0, ..desc }
    }

    /// What a new transmit descriptor says of its buffer: where it is, and that it is done with.
    pub fn trans_desc(buffer: &E1000EBuffer, desc: E1000ETransDesc) -> (r: E1000ETransDesc)
        requires
            buffer.length != 0,
        ensures
            r == (E1000ETransDesc { addr: buffer.paddr as u64, status: 1, ..desc }),
    {
        E1000ETransDesc { addr: buffer.as_paddr() as u64, status: 1, ..desc }
    }

    /// The receive descriptor that comes next, where the tail of the ring is `rdt`.
    pub fn recv_index(rdt: u32) -> (r: usize)
        ensures
            r == (rdt + 1) % RING_LENGTH as int,
            r < 256,
            rdt < 255 ==> r == rdt + 1,
            rdt == 255 ==> r == 0,
    {
        ((rdt as u64 + 1) % RING_LENGTH as u64) as usize
    }

    /// Whether the controller is done with a receive descriptor.
    pub fn recv_done(desc: &E1000ERecvDesc) -> (r: bool)
        ensures
            r == (desc.status & 1 != 0),
    {
        desc.status & 1 != 0
    }

    /// Takes the packet of the next receive descriptor, if the controller is done with it, and gives
    /// the descriptor the page of `fresh`. The descriptor is `desc`, and the tail of the ring `rdt`.
    pub fn e1000e_receive(&mut self, rdt: u32, desc: E1000ERecvDesc, fresh: E1000EBuffer) -> (r:
        Option<E1000EReceived>)
        requires
            old(self).wf(),
            desc.status & 1 != 0 ==> fresh.length != 0,
        ensures
            final(self).wf(),
            match r {
                None => {
                    &&& desc.status & 1 == 0
                    &&& *final(self) == *old(self)
                },
                Some(taken) => {
                    let index = (rdt + 1) % RING_LENGTH as int;
                    &&& desc.status & 1 != 0
                    &&& taken.index == index
                    &&& taken.buffer == (E1000EBuffer {
                        length: desc.len as usize,
                        ..old(self).recv_buffers@[index]
                    })
                    &&& taken.desc == (E1000ERecvDesc { addr: fresh.paddr as u64, ..desc })
                    &&& taken.rdt == index
                    &&& final(self).recv_buffers@ == old(self).recv_buffers@.update(index, fresh)
                    &&& *final(self) == (E1000EDevice {
                        recv_buffers: final(self).recv_buffers,
                        ..*old(self)
                    })
                    // The packet lies in the page that was given to the descriptor, the descriptor
                    // gets the page that the table now has for it, and becomes the tail.
                    &&& taken.buffer.paddr == old(self).recv_buffers@[taken.index as int].paddr
                    &&& taken.buffer.length == desc.len
                    &&& taken.desc.addr == final(self).recv_buffers@[taken.index as int].paddr
                    &&& taken.rdt == taken.index
                    &&& rdt < 255 ==> taken.rdt == rdt + 1
                    &&& rdt == 255 ==> taken.rdt == 0
                },
            },
    {
        let index: usize = Self::recv_index(rdt);
        if !Self::recv_done(&desc) {
            return None;
        }
        let mut buffer: E1000EBuffer = self.recv_buffers[index];
        self.recv_buffers.set(index, fresh);
        buffer.set_length(desc.len as usize);
        Some(
            E1000EReceived {
                buffer,
                index,
                desc: E1000ERecvDesc { addr: fresh.as_paddr() as u64, ..desc },
                rdt: index as u32,
            },
        )
    }

    /// The transmit descriptor that comes next, where the tail of the ring is `tdt`.
    pub fn trans_index(tdt: u32) -> (r: usize)
        ensures
            r == tdt % RING_LENGTH as u32,
            tdt < 256 ==> r == tdt,
    {
        assert(RING_LENGTH as u32 == 256);
        assert(tdt < 256 ==> tdt % 256 == tdt);
        (tdt % RING_LENGTH as u32) as usize
    }

    /// Whether a packet can be sent: the controller is done with the next transmit descriptor.
    pub fn e1000e_can_transmit(desc: &E1000ETransDesc) -> (r: bool)
        ensures
            r == (desc.status & 1 != 0),
    {
        desc.status & 1 != 0
    }

    /// Puts a packet into the next transmit descriptor. The descriptor is `desc`, and the tail of
    /// the ring `tdt`. What was in its place before is given back.
    pub fn e1000e_transmit(&mut self, tdt: u32, desc: E1000ETransDesc, packet: E1000EBuffer) -> (r:
        E1000ETransmitted)
        requires
            old(self).wf(),
            packet.length != 0,
        ensures
            final(self).wf(),
            ({
                let index = (tdt % RING_LENGTH as u32) as int;
                &&& r.index == index
                &&& r.desc == (E1000ETransDesc {
                    addr: packet.paddr as u64,
                    len: packet.length as u16,
                    status: 0,
                    cmd: 0x0b,
                    ..desc
                })
                &&& r.tdt == (tdt + 1) % RING_LENGTH as int
                &&& r.freed == old(self).trans_buffers@[index].spec_freed()
                &&& final(self).trans_buffers@ == old(self).trans_buffers@.update(index, packet)
                &&& *final(self) == (E1000EDevice {
                    trans_buffers: final(self).trans_buffers,
                    first_trans: false,
                    ..*old(self)
                })
            }),
            // The descriptor points to the packet that the table now has for it, and the controller
            // is to send it as a whole, with a checksum, and to tell when it is done.
            r.desc.addr == final(self).trans_buffers@[r.index as int].paddr,
            final(self).trans_buffers@[r.index as int] == packet,
            packet.length <= 0xffff ==> r.desc.len == packet.length,
            r.desc.status == 0,
            r.desc.cmd == 1 + 2 + 8,
            tdt < 256 ==> r.index == tdt,
            tdt < 255 ==> r.tdt == tdt + 1,
            tdt == 255 ==> r.tdt == 0,
    {
        let index: usize = Self::trans_index(tdt);
        let old_buffer: E1000EBuffer = self.trans_buffers[index];
        self.trans_buffers.set(index, packet);
        let freed: Option<E1000EBuffer> = old_buffer.free_buffer();
        self.first_trans = false;
        E1000ETransmitted {
            index,
            desc: E1000ETransDesc {
                addr: packet.as_paddr() as u64,
                len: packet.len() as u16,
                status: 0,
                cmd: 0x0b,
                ..desc
            },
            tdt: ((tdt as u64 + 1) % RING_LENGTH as u64) as u32,
            freed,
        }
    }

    /// The address of the controller.
    pub fn mac_address(&self) -> (r: [u8; 6])
        ensures
            r == self.mac,
    {
        self.mac
    }

    /// The write that tells the controller that its interrupt was seen, where the register of causes
    /// holds `icr`.
    pub fn e1000e_intr(icr: u32) -> (r: RegWrite)
        ensures
            r == (RegWrite { offset: REG_ICR, value: icr }),
    {
        RegWrite { offset: REG_ICR, value: icr }
    }

    /// The write that lets the interrupt of received packets through or not, where the mask register
    /// holds `ims`.
    pub fn e1000e_intr_set(ims: u32, state: bool) -> (r: RegWrite)
        ensures
            r == (RegWrite {
                offset: REG_IMS,
                value: if state {
                    ims | E1000E_IMS_RXT0
                } else {
                    ims & !E1000E_IMS_RXT0
                },
            }),
            r.offset == 0xd0,
            (r.value & 0x80 != 0) == state,
            r.value & 0xffff_ff7f == ims & 0xffff_ff7f,
    {
        assert((ims | 0x80) & 0x80 != 0 && (ims & !0x80u32) & 0x80 == 0 && (ims | 0x80)
            & 0xffff_ff7f == ims & 0xffff_ff7f && (ims & !0x80u32) & 0xffff_ff7f == ims
            & 0xffff_ff7f) by (bit_vector);
        let value: u32 = if state {
            ims | E1000E_IMS_RXT0
        } else {
            ims & !E1000E_IMS_RXT0
        };
        RegWrite { offset: REG_IMS, value }
    }

    /// Takes one packet. If none waits, all those that arrived meanwhile are let wait first.
    pub fn e1000e_receive2(&mut self, arrived: &Vec<E1000EBuffer>) -> (r: Option<E1000EBuffer>)
        requires
            old(self).wf(),
            old(self).napi@.len() == 0 ==> arrived@.len() <= E1000E_RECV_NAPI,
        ensures
            final(self).wf(),
            ({
                let waiting = if old(self).napi@.len() == 0 {
                    arrived@
                } else {
                    old(self).napi@
                };
                match r {
                    Some(buffer) => {
                        &&& waiting.len() > 0
                        &&& buffer == waiting[0]
                        &&& buffer.length != 0
                        &&& final(self).napi@ == waiting.drop_first()
                    },
                    None => {
                        &&& waiting.len() == 0 || waiting[0].length == 0
                        &&& final(self).napi@ == waiting
                    },
                }
            }),
            *final(self) == (E1000EDevice { napi: final(self).napi, ..*old(self) }),
    {
        if self.napi.is_empty() {
            let mut i: usize = 0;
            assert(arrived@.take(0) =~= self.napi@);
            while i < arrived.len()
                invariant
                    0 <= i <= arrived@.len(),
                    arrived@.len() <= E1000E_RECV_NAPI,
                    self.napi.wf(),
                    self.napi@ == arrived@.take(i as int),
                    *self == (E1000EDevice { napi: self.napi, ..*old(self) }),
                decreases arrived@.len() - i,
            {
                self.napi.push(arrived[i]);
                i = i + 1;
                assert(self.napi@ =~= arrived@.take(i as int));
            }
            assert(arrived@.take(arrived@.len() as int) =~= arrived@);
        }
        self.napi.pop()
    }

    /// The pages that are given back when the controller is no longer used: those of all buffers.
    /// The pages of the rings come on top.
    pub fn release(&self) -> (r: Vec<E1000EBuffer>)
        requires
            self.wf(),
        ensures
            r@ == (self.recv_buffers@ + self.trans_buffers@).filter(
                |b: E1000EBuffer| b.length != 0,
            ),
    {
        let mut freed: Vec<E1000EBuffer> = Vec::new();
        let ghost all = self.recv_buffers@ + self.trans_buffers@;
        let ghost live = |b: E1000EBuffer| b.length != 0;
        let mut i: usize = 0;
        proof {
            reveal(Seq::filter);
            assert(all.take(0).filter(live) =~= Seq::<E1000EBuffer>::empty());
        }
        while i < 2 * RING_LENGTH
            invariant
                0 <= i <= 2 * RING_LENGTH,
                self.wf(),
                all == self.recv_buffers@ + self.trans_buffers@,
                live == (|b: E1000EBuffer| b.length != 0),
                freed@ == all.take(i as int).filter(live),
            decreases 2 * RING_LENGTH - i,
        {
            let buffer: E1000EBuffer = if i < RING_LENGTH {
                self.recv_buffers[i]
            } else {
                self.trans_buffers[i - RING_LENGTH]
            };
            proof {
                let past = all.take(i as int);
                let now = all.take(i + 1);
                assert(now.drop_last() =~= past);
                assert(now.last() == buffer);
                reveal(Seq::filter);
            }
            if let Some(page) = buffer.free_buffer() {
                freed.push(page);
            }
            i = i + 1;
        }
        assert(all.take(2 * RING_LENGTH as int) =~= all);
        freed
    }
}

/// If a packet is taken and the descriptor gets a page that no ring has, no page is in two places,
/// and the page of the packet is in none.
pub proof fn law_receive_keeps_pages_apart(
    before: E1000EDevice,
    after: E1000EDevice,
    index: int,
    fresh: E1000EBuffer,
)
    requires
        before.wf(),
        before.apart(),
        0 <= index < RING_LENGTH,
        fresh.length != 0,
        !before.holds(fresh.paddr),
        after.recv_buffers@ == before.recv_buffers@.update(index, fresh),
        after.trans_buffers == before.trans_buffers,
    ensures
        after.apart(),
        !after.holds(before.recv_buffers@[index].paddr),
{
    let b = before.recv_buffers@;
    let a = after.recv_buffers@;
    assert forall|i: int, j: int|
        0 <= i < j < a.len() && (#[trigger] a[i]).length != 0 && (
        #[trigger] a[j]).length != 0 implies a[i].paddr != a[j].paddr by {
        if i != index {
            assert(b[i] == a[i]);
        }
        if j != index {
            assert(b[j] == a[j]);
        }
    }
    assert forall|i: int| #![trigger after.recv_buffers@[i]] 0 <= i < a.len() implies !has_page(
        after.trans_buffers@,
        a[i].paddr,
    ) by {
        if i != index {
            assert(b[i] == a[i]);
            assert(before.recv_buffers@[i] == b[i]);
        }
    }
    let gone = b[index].paddr;
    assert(before.recv_buffers@[index] == b[index]);
    if has_page(a, gone) {
        let k = choose|k: int|
            0 <= k < a.len() && (#[trigger] a[k]).length != 0 && a[k].paddr == gone;
        if k == index {
            assert(b[index].length != 0 && b[index].paddr == fresh.paddr);
            assert(has_page(b, fresh.paddr));
        } else {
            assert(b[k] == a[k]);
            if k < index {
                assert(b[k].paddr != b[index].paddr);
            } else {
                assert(b[index].paddr != b[k].paddr);
            }
        }
    }
}

/// If a packet is sent whose page no ring has, no page is in two places, and the page that is given
/// back is in none.
pub proof fn law_transmit_keeps_pages_apart(
    before: E1000EDevice,
    after: E1000EDevice,
    index: int,
    packet: E1000EBuffer,
)
    requires
        before.wf(),
        before.apart(),
        0 <= index < RING_LENGTH,
        packet.length != 0,
        !before.holds(packet.paddr),
        after.trans_buffers@ == before.trans_buffers@.update(index, packet),
        after.recv_buffers == before.recv_buffers,
    ensures
        after.apart(),
        before.trans_buffers@[index].length != 0 ==> !after.holds(
            before.trans_buffers@[index].paddr,
        ),
{
    let b = before.trans_buffers@;
    let a = after.trans_buffers@;
    assert forall|i: int, j: int|
        0 <= i < j < a.len() && (#[trigger] a[i]).length != 0 && (
        #[trigger] a[j]).length != 0 implies a[i].paddr != a[j].paddr by {
        if i != index {
            assert(b[i] == a[i]);
        }
        if j != index {
            assert(b[j] == a[j]);
        }
    }
    assert forall|i: int| #![trigger after.recv_buffers@[i]] 0 <= i < after.recv_buffers@.len() implies !has_page(
        a,
        after.recv_buffers@[i].paddr,
    ) by {
        let p = after.recv_buffers@[i].paddr;
        assert(before.recv_buffers@[i].length != 0);
        if has_page(a, p) {
            let k = choose|k: int|
                0 <= k < a.len() && (#[trigger] a[k]).length != 0 && a[k].paddr == p;
            if k == index {
                assert(has_page(before.recv_buffers@, packet.paddr));
            } else {
                assert(b[k] == a[k]);
                assert(has_page(b, p));
            }
        }
    }
    if b[index].length != 0 {
        let gone = b[index].paddr;
        if has_page(a, gone) {
            let k = choose|k: int|
                0 <= k < a.len() && (#[trigger] a[k]).length != 0 && a[k].paddr == gone;
            if k == index {
                assert(has_page(b, packet.paddr));
            } else {
                assert(b[k] == a[k]);
                if k < index {
                    assert(b[k].paddr != b[index].paddr);
                } else {
                    assert(b[index].paddr != b[k].paddr);
                }
            }
        }
        if has_page(after.recv_buffers@, gone) {
            let k = choose|k: int|
                0 <= k < after.recv_buffers@.len() && (
                #[trigger] after.recv_buffers@[k]).length != 0 && after.recv_buffers@[k].paddr
                    == gone;
            assert(before.recv_buffers@[k].paddr == gone);
            assert(has_page(b, gone));
        }
    }
}

/// The function is an e1000e controller, by its vendor and its number.
pub open spec fn is_e1000e(header: PciDeviceStructureHeader) -> bool {
    &&& header.vendor_id == INTEL_VENDOR
    &&& {
        ||| header.device_id == 0x10d3
        ||| header.device_id == 0x10cc
        ||| header.device_id == 0x10cd
        ||| header.device_id == 0x105f
        ||| header.device_id == 0x1060
        ||| header.device_id == 0x107f
        ||| header.device_id == 0x109a
        ||| header.device_id == 0x10ea
        ||| header.device_id == 0x10eb
        ||| header.device_id == 0x10ef
        ||| header.device_id == 0x10f0
        ||| header.device_id == 0x1502
        ||| header.device_id == 0x1503
        ||| header.device_id == 0x150c
    }
}

/// Whether the function is an e1000e controller.
pub fn known_controller(header: &PciDeviceStructureHeader) -> (r: bool)
    ensures
        r == is_e1000e(*header),
{
    if header.vendor_id != INTEL_VENDOR {
        return false;
    }
    match header.device_id {
        0x10d3 | 0x10cc | 0x10cd | 0x105f | 0x1060 | 0x107f | 0x109a => true,
        0x10ea | 0x10eb | 0x10ef | 0x10f0 | 0x1502 | 0x1503 | 0x150c => true,
        _ => false,
    }
}

/// The function is an Ethernet controller that is an e1000e.
pub open spec fn is_candidate(function: PciFunction) -> bool {
    scan::of_class(function, NETWORK_CLASS, ETHERNET_SUBCLASS) && is_e1000e(function.header())
}

/// The positions of all controllers in the list of functions, in order. Setting each of them up
/// comes next.
pub fn e1000e_probe(list: &Vec<PciFunction>) -> (r: Vec<usize>)
    requires
        forall|k: int|
            #![trigger list@[k]]
            0 <= k < list@.len() && scan::of_class(list@[k], NETWORK_CLASS, ETHERNET_SUBCLASS)
                ==> list@[k] is General,
    ensures
        forall|i: int, j: int| 0 <= i < j < r@.len() ==> r@[i] < r@[j],
        forall|i: int|
            0 <= i < r@.len() ==> #[trigger] r@[i] < list@.len() && is_candidate(
                list@[r@[i] as int],
            ),
        forall|k: int|
            #![trigger list@[k]]
            0 <= k < list@.len() && is_candidate(list@[k]) ==> r@.contains(k as usize),
{
    let ethernet: Vec<usize> = get_pci_device_structure(list, NETWORK_CLASS, ETHERNET_SUBCLASS);
    let count: usize = list.len();
    let mut found: Vec<usize> = Vec::new();
    let mut i: usize = 0;
    while i < ethernet.len()
        invariant
            0 <= i <= ethernet@.len(),
            scan::positions_of_class(ethernet@, list@, NETWORK_CLASS, ETHERNET_SUBCLASS),
            forall|a: int, b: int| 0 <= a < b < found@.len() ==> found@[a] < found@[b],
            forall|a: int|
                0 <= a < found@.len() ==> #[trigger] found@[a] < list@.len() && is_candidate(
                    list@[found@[a] as int],
                ) && ethernet@.take(i as int).contains(found@[a]),
            forall|a: int|
                #![trigger ethernet@[a]]
                0 <= a < i && is_e1000e(list@[ethernet@[a] as int].header()) ==> found@.contains(
                    ethernet@[a],
                ),
        decreases ethernet@.len() - i,
    {
        let at: usize = ethernet[i];
        let ghost before = found@;
        let ghost past = ethernet@.take(i as int);
        let ghost now = ethernet@.take(i + 1);
        proof {
            assert forall|a: int| 0 <= a < before.len() implies now.contains(
                #[trigger] before[a],
            ) && before[a] < at by {
                assert(past.contains(before[a]));
                let k = choose|k: int| 0 <= k < past.len() && past[k] == before[a];
                assert(now[k] == before[a]);
                assert(ethernet@[k] < ethernet@[i as int]);
            }
            assert(now[i as int] == at);
        }
        if known_controller(list[at].common_header()) {
            found.push(at);
            proof {
                assert(found@[before.len() as int] == at);
                assert forall|a: int|
                    #![trigger ethernet@[a]]
                    0 <= a < i + 1 && is_e1000e(
                        list@[ethernet@[a] as int].header(),
                    ) implies found@.contains(ethernet@[a]) by {
                    if a < i {
                        let k = choose|k: int| 0 <= k < before.len() && before[k] == ethernet@[a];
                        assert(found@[k] == ethernet@[a]);
                    }
                }
            }
        }
        i = i + 1;
    }
    proof {
        assert forall|k: int|
            #![trigger list@[k]]
            0 <= k < list@.len() && is_candidate(list@[k]) implies found@.contains(k as usize) by {
            assert(k < count);
            assert(ethernet@.contains(k as usize));
            let a = choose|a: int| 0 <= a < ethernet@.len() && ethernet@[a] == k as usize;
            assert(found@.contains(ethernet@[a]));
        }
    }
    found
}

/// What probing tells: the first error, or 1 if a controller was set up and 0 if none was. `setups`
/// holds what became of each controller, up to the first error.
pub fn e1000e_probed(setups: &Vec<Result<(), E1000EPciError>>) -> (r: Result<u64, E1000EPciError>)
    ensures
        match r {
            Ok(code) => {
                &&& forall|i: int| 0 <= i < setups@.len() ==> (#[trigger] setups@[i]) is Ok
                &&& code == (if setups@.len() > 0 {
                    1u64
                } else {
                    0
                })
            },
            Err(e) => exists|i: int|
                {
                    &&& 0 <= i < setups@.len()
                    &&& (#[trigger] setups@[i]) == Err::<(), E1000EPciError>(e)
                    &&& forall|j: int| 0 <= j < i ==> (#[trigger] setups@[j]) is Ok
                },
        },
{
    let mut i: usize = 0;
    while i < setups.len()
        invariant
            0 <= i <= setups@.len(),
            forall|j: int| 0 <= j < i ==> (#[trigger] setups@[j]) is Ok,
        decreases setups@.len() - i,
    {
        if let Err(e) = &setups[i] {
            assert(setups@[i as int] == Err::<(), E1000EPciError>(*e));
            return Err(*e);
        }
        i = i + 1;
    }
    if setups.len() > 0 {
        Ok(1)
    } else {
        Ok(0)
    }
}

/// What is reported once probing is over.
#[derive(Clone, Copy, Debug, PartialEq, Eq, Structural)]
pub enum E1000EReport {
    /// A controller was set up.
    Initialized,
    /// There is no controller.
    Nothing,
    /// A controller could not be set up.
    Failed(E1000EPciError),
}

/// What is reported once probing is over.
pub fn e1000e_init(probed: Result<u64, E1000EPciError>) -> (r: E1000EReport)
    ensures
        r == (match probed {
            Ok(code) => if code == 1 {
                E1000EReport::Initialized
            } else {
                E1000EReport::Nothing
            },
            Err(e) => E1000EReport::Failed(e),
        }),
{
    match probed {
        Ok(code) => if code == 1 {
            E1000EReport::Initialized
        } else {
            E1000EReport::Nothing
        },
        Err(e) => E1000EReport::Failed(e),
    }
}

/// The value that a list of writes leaves in a register, if it writes it.
pub open spec fn left_in(writes: Seq<RegWrite>, offset: u32) -> Option<u32>
    decreases writes.len(),
{
    if writes.len() == 0 {
        None
    } else if writes.last().offset == offset {
        Some(writes.last().value)
    } else {
        left_in(writes.drop_last(), offset)
    }
}

proof fn lemma_left_in_join(a: Seq<RegWrite>, b: Seq<RegWrite>, offset: u32)
    ensures
        left_in(a + b, offset) == (if left_in(b, offset) is Some {
            left_in(b, offset)
        } else {
            left_in(a, offset)
        }),
    decreases b.len(),
{
    if b.len() == 0 {
        assert(a + b =~= a);
    } else {
        assert((a + b).drop_last() =~= a + b.drop_last());
        lemma_left_in_join(a, b.drop_last(), offset);
    }
}

/// A register that none of the writes names is left alone.
proof fn lemma_left_alone(writes: Seq<RegWrite>, offset: u32)
    requires
        forall|i: int| 0 <= i < writes.len() ==> (#[trigger] writes[i]).offset != offset,
    ensures
        left_in(writes, offset) is None,
    decreases writes.len(),
{
    if writes.len() > 0 {
        lemma_left_alone(writes.drop_last(), offset);
    }
}

/// A register that is written once holds that value.
proof fn lemma_left_value(writes: Seq<RegWrite>, k: int)
    requires
        0 <= k < writes.len(),
        forall|i: int| k < i < writes.len() ==> (#[trigger] writes[i]).offset != writes[k].offset,
    ensures
        left_in(writes, writes[k].offset) == Some(writes[k].value),
    decreases writes.len(),
{
    if k < writes.len() - 1 {
        lemma_left_value(writes.drop_last(), k);
    }
}

/// The controller is given each ring where it is: the two registers for its address spell that
/// address, the higher half in the higher register. A ring has 256 descriptors of 16 bytes. All but
/// one of those for receiving belong to the controller at first, and none of those for sending.
/// Receiving and sending are switched on.
pub proof fn law_ring_addresses(pa: u64)
    ensures
        ({
            let w = receive_setup(pa);
            &&& left_in(w, 0x2800) is Some && left_in(w, 0x2804) is Some
            &&& (left_in(w, 0x2804)->0) * 0x1_0000_0000 + (left_in(w, 0x2800)->0) == pa
            &&& left_in(w, 0x2808) == Some((16 * RING_LENGTH) as u32)
            &&& left_in(w, 0x2810) == Some(0u32)
            &&& left_in(w, 0x2818) == Some((RING_LENGTH - 1) as u32)
            &&& w.last().offset == 0x100
            &&& w.last().value == 0x2 + 0x8000 + 0x0203_0000 + 0x0400_0000
            &&& RING_LENGTH == 256
        }),
        ({
            let w = transmit_setup(pa);
            &&& left_in(w, 0x3800) is Some && left_in(w, 0x3804) is Some
            &&& (left_in(w, 0x3804)->0) * 0x1_0000_0000 + (left_in(w, 0x3800)->0) == pa
            &&& left_in(w, 0x3808) == Some((16 * RING_LENGTH) as u32)
            &&& left_in(w, 0x3810) == Some(0u32)
            &&& left_in(w, 0x3818) == Some(0u32)
            &&& left_in(w, 0x3828) == Some(0x0101_0000u32)
            &&& left_in(w, 0x410) == Some((8 + 8 * 0x100 + 10 * 0x10_0000) as u32)
            &&& w.last().offset == 0x400
            &&& w.last().value == 0x2 + 0x8 + 0x10 * 0xf + 0x1000 * 0x3f
        }),
{
    let r = receive_setup(pa);
    let t = transmit_setup(pa);
    assert((pa >> 32u64) * 0x1_0000_0000 + (pa & 0xffff_ffff) == pa && (pa >> 32u64) <= 0xffff_ffff
        && (pa as u32) as u64 == pa & 0xffff_ffff && ((pa >> 32u64) as u32) as u64 == pa >> 32u64)
        by (bit_vector);
    lemma_left_value(r, 0);
    lemma_left_value(r, 1);
    lemma_left_value(r, 2);
    lemma_left_value(r, 3);
    lemma_left_value(r, 4);
    lemma_left_value(t, 0);
    lemma_left_value(t, 1);
    lemma_left_value(t, 2);
    lemma_left_value(t, 3);
    lemma_left_value(t, 4);
    lemma_left_value(t, 5);
    lemma_left_value(t, 6);
}

/// While a controller is set up, it is given both rings where they are, and its table of multicast
/// addresses, of 128 registers, is cleared.
pub proof fn law_startup_gives_rings(value: u32, recv_pa: u64, trans_pa: u64)
    ensures
        ({
            let w = StartupPhase::AddressHigh.writes(value, recv_pa, trans_pa);
            &&& left_in(w, 0x2800) is Some && left_in(w, 0x2804) is Some
            &&& left_in(w, 0x3800) is Some && left_in(w, 0x3804) is Some
            &&& (left_in(w, 0x2804)->0) * 0x1_0000_0000 + (left_in(w, 0x2800)->0) == recv_pa
            &&& (left_in(w, 0x3804)->0) * 0x1_0000_0000 + (left_in(w, 0x3800)->0) == trans_pa
            &&& forall|k: int|
                0 <= k < 128 ==> #[trigger] left_in(w, (0x5200 + 4 * k) as u32) == Some(0u32)
        }),
{
    let table = cleared_table();
    let r = receive_setup(recv_pa);
    let t = transmit_setup(trans_pa);
    let w = table + r + t;
    assert(StartupPhase::AddressHigh.writes(value, recv_pa, trans_pa) == w);
    law_ring_addresses(recv_pa);
    law_ring_addresses(trans_pa);
    assert forall|o: u32| #[trigger] left_in(w, o) == (if left_in(t, o) is Some {
        left_in(t, o)
    } else if left_in(r, o) is Some {
        left_in(r, o)
    } else {
        left_in(table, o)
    }) by {
        lemma_left_in_join(table + r, t, o);
        lemma_left_in_join(table, r, o);
    }
    lemma_left_alone(t, 0x2800);
    lemma_left_alone(t, 0x2804);
    assert forall|k: int| 0 <= k < 128 implies #[trigger] left_in(w, (0x5200 + 4 * k) as u32) == Some(
        0u32,
    ) by {
        let o = (0x5200 + 4 * k) as u32;
        lemma_left_alone(r, o);
        lemma_left_alone(t, o);
        assert(table[k].offset == o && table[k].value == 0);
        lemma_left_value(table, k);
    }
}

/// A controller is set up in nine steps. It is reset, with all interrupts closed before and after,
/// and the reset of the physical layer is ended again; the link is brought up with speed and duplex
/// left to both sides; the two address registers are read; and only at the end are the interrupts let
/// through that are used: those for received packets, for a change of the link, and for other causes.
pub proof fn law_startup_steps(value: u32, recv_pa: u64, trans_pa: u64)
    ensures
        ({
            let p0 = StartupPhase::Reset;
            let p1 = p0.follower();
            let p2 = p1.follower();
            let p3 = p2.follower();
            let p4 = p3.follower();
            let p5 = p4.follower();
            let p6 = p5.follower();
            let p7 = p6.follower();
            let p8 = p7.follower();
            let w0 = p0.writes(value, recv_pa, trans_pa);
            let w1 = p1.writes(value, recv_pa, trans_pa);
            let w2 = p2.writes(value, recv_pa, trans_pa);
            let w3 = p3.writes(value, recv_pa, trans_pa);
            let w7 = p7.writes(value, recv_pa, trans_pa);
            let w8 = p8.writes(value, recv_pa, trans_pa);
            &&& p0.register() == Some(0u32) && p1.register() == Some(0u32)
            &&& p2.register() == Some(0x5b00u32) && p3.register() == Some(0u32)
            &&& p4.register() == Some(8u32) && p5 == StartupPhase::AddressLow
            &&& p5.register() == Some(0x5400u32) && p6 == StartupPhase::AddressHigh
            &&& p6.register() == Some(0x5404u32) && p7.register() == Some(0xc0u32)
            &&& p8.register() == Some(0xd0u32)
            &&& p8.follower() == StartupPhase::Done && p8.follower().register() is None
            &&& w0.len() == 2 && w0[0].offset == 0xd8 && w0[0].value == u32::MAX
            &&& w0[1].offset == 0 && w0[1].value & 0x0400_0000 != 0
            &&& w0[1].value & 0xfbff_ffff == value & 0xfbff_ffff
            &&& w1.len() == 3 && w1[0].offset == 0 && w1[0].value & 0x8000_0000 != 0
            &&& w1[0].value & 0x7fff_ffff == value & 0x7fff_ffff
            &&& w1[1].offset == 0 && w1[1].value == value
            &&& w1[2].offset == 0xd8 && w1[2].value == u32::MAX
            &&& w2.len() == 1 && w2[0].offset == 0x5b00 && w2[0].value & 0x0040_0000 != 0
            &&& w2[0].value & 0xffbf_ffff == value & 0xffbf_ffff
            &&& w3.len() == 1 && w3[0].offset == 0 && w3[0].value & 0x40 != 0
            &&& w3[0].value & 0x1800 == 0 && w3[0].value & 0xffff_e7bf == value & 0xffff_e7bf
            &&& p4.writes(value, recv_pa, trans_pa).len() == 0
            &&& p5.writes(value, recv_pa, trans_pa).len() == 0
            &&& w7.len() == 1 && w7[0].offset == 0xc0 && w7[0].value == value
            &&& w8.len() == 1 && w8[0].offset == 0xd0
            &&& w8[0].value == 0x80 + 0x10 + 0x4 + 0x100_0000
        }),
{
    assert((value | 0x0400_0000) & 0x0400_0000 != 0 && (value | 0x0400_0000) & 0xfbff_ffff == value
        & 0xfbff_ffff && (value | 0x8000_0000) & 0x8000_0000 != 0 && (value | 0x8000_0000)
        & 0x7fff_ffff == value & 0x7fff_ffff && (value | 0x0040_0000) & 0x0040_0000 != 0 && (value
        | 0x0040_0000) & 0xffbf_ffff == value & 0xffbf_ffff && ((value & !0x1800u32) | 0x40) & 0x40
        != 0 && ((value & !0x1800u32) | 0x40) & 0x1800 == 0 && ((value & !0x1800u32) | 0x40)
        & 0xffff_e7bf == value & 0xffff_e7bf) by (bit_vector);
}

/// The registers of a controller are used only if its first region is memory with an address, has 128
/// kibibytes, and is mapped; each of these failing has its own error, the first one first.
pub proof fn law_check_bar(bars: PciStandardDeviceBar)
    ensures
        match (bars.bar0, spec_check_bar(bars)) {
            (BarInfo::Memory { address, size, mmio_guard, .. }, Ok(v)) => address != 0 && size == 128
                * 1024 && mmio_guard == Some(v),
            (BarInfo::Memory { address, .. }, Err(E1000EPciError::BarNotAllocated)) => address == 0,
            (BarInfo::Memory { address, size, .. }, Err(E1000EPciError::UnexpectedBarSize)) => address
                != 0 && size != 128 * 1024,
            (
                BarInfo::Memory { address, size, mmio_guard, .. },
                Err(E1000EPciError::BarGetVaddrFailed),
            ) => address != 0 && size == 128 * 1024 && mmio_guard is None,
            (BarInfo::Memory { .. }, _) => false,
            (_, r) => r == Err::<usize, E1000EPciError>(E1000EPciError::UnexpectedBarType),
        },
{
}

/// A controller is an Ethernet device of the network class that Intel made; the maker alone, or the
/// class alone, is not enough.
pub proof fn law_candidate(function: PciFunction)
    ensures
        is_candidate(function) ==> {
            &&& function.header().class_code == 2
            &&& function.header().subclass == 0
            &&& function.header().vendor_id == 0x8086
        },
        function.header().class_code == 2 && function.header().subclass == 0
            && function.header().vendor_id == 0x8086 ==> (is_candidate(function) <==> seq![
            0x105fu16,
            0x1060,
            0x107f,
            0x109a,
            0x10cc,
            0x10cd,
            0x10d3,
            0x10ea,
            0x10eb,
            0x10ef,
            0x10f0,
            0x1502,
            0x1503,
            0x150c,
        ].contains(function.header().device_id)),
{
    let known = seq![
        0x105fu16,
        0x1060,
        0x107f,
        0x109a,
        0x10cc,
        0x10cd,
        0x10d3,
        0x10ea,
        0x10eb,
        0x10ef,
        0x10f0,
        0x1502,
        0x1503,
        0x150c,
    ];
    assert(known[0] == 0x105f && known[1] == 0x1060 && known[2] == 0x107f && known[3] == 0x109a
        && known[4] == 0x10cc && known[5] == 0x10cd && known[6] == 0x10d3 && known[7] == 0x10ea
        && known[8] == 0x10eb && known[9] == 0x10ef && known[10] == 0x10f0 && known[11] == 0x1502
        && known[12] == 0x1503 && known[13] == 0x150c);
    let id = function.header().device_id;
    if known.contains(id) {
        let i = choose|i: int| 0 <= i < known.len() && known[i] == id;
        assert(i == 0 || i == 1 || i == 2 || i == 3 || i == 4 || i == 5 || i == 6 || i == 7 || i == 8
            || i == 9 || i == 10 || i == 11 || i == 12 || i == 13);
    }
}

/// A buffer is given back exactly if it holds memory, and as it is.
pub proof fn law_freed(buffer: E1000EBuffer)
    ensures
        buffer.spec_freed() is Some <==> buffer.length > 0,
        buffer.spec_freed() matches Some(freed) ==> freed == buffer,
{
}

} // verus!

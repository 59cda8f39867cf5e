//! The virtio network device: which DMA buffer belongs to whom.
//!
//! The device answers with tokens. Each token names a slot, and each slot holds the buffer that
//! the device owns under it. A token that does not fit stops the device for good.

use vstd::prelude::*;
use crate::base::device::{DeviceCommonData, DeviceType, IdTable, KObjectCommonData};
use crate::base::text;
use crate::base::text::push_decimal;
use crate::error::SystemError;
use crate::net::addr::Medium;
use crate::net::iface::NetDeviceCommonData;
use crate::net::iface_common::IfaceCommon;
use crate::net::napi::{NapiPollResult, NapiStruct};
use crate::net::phy::DeviceCapabilities;
use crate::net::types::{InterfaceFlags, InterfaceType, NetDeivceState, Operstate};

verus! {

/// How many slots each queue has.
pub const VIRTIO_NET_QUEUE_SIZE: usize = 64;

/// The length of a DMA buffer.
pub const VIRTIO_NET_BUFFER_SIZE: usize = 4096;

/// The longest IP packet.
pub const VIRTIO_NET_IP_MTU: usize = 1500;

/// The longest frame.
pub const VIRTIO_NET_MAX_FRAME_SIZE: usize = 1514;

/// The number of network devices among virtio devices.
pub const VIRTIO_NETWORK: u32 = 1;

/// A buffer for a frame that arrives.
#[derive(Debug, PartialEq, Eq, Structural)]
pub struct RxDmaBuffer {
    /// The memory of the buffer, by number.
    pub dma: u64,
    pub dma_len: usize,
    pub packet_offset: usize,
    pub packet_len: usize,
}

impl RxDmaBuffer {
    /// A buffer that holds no frame.
    pub fn new(dma: u64) -> (r: Self)
        ensures
            r == (RxDmaBuffer {
                dma,
                dma_len: VIRTIO_NET_BUFFER_SIZE,
                packet_offset: 0,
                packet_len: 0,
            }),
    {
        RxDmaBuffer { dma, dma_len: VIRTIO_NET_BUFFER_SIZE, packet_offset: 0, packet_len: 0 }
    }

    /// The frame lies within the buffer.
    pub open spec fn wf(&self) -> bool {
        self.packet_offset + self.packet_len <= self.dma_len
    }

    /// Where the frame starts and ends in the buffer.
    pub fn packet(&self) -> (r: (usize, usize))
        requires
            self.wf(),
        ensures
            r.0 == self.packet_offset,
            r.1 == self.packet_offset + self.packet_len,
            r.0 <= r.1 <= self.dma_len,
    {
        (self.packet_offset, self.packet_offset + self.packet_len)
    }
}

/// A buffer for a frame that leaves.
#[derive(Debug, PartialEq, Eq, Structural)]
pub struct TxDmaBuffer {
    /// The memory of the buffer, by number.
    pub dma: u64,
    pub dma_len: usize,
    pub used_len: usize,
}

impl TxDmaBuffer {
    /// A buffer that holds no frame.
    pub fn new(dma: u64) -> (r: Self)
        ensures
            r == (TxDmaBuffer { dma, dma_len: VIRTIO_NET_BUFFER_SIZE, used_len: 0 }),
    {
        TxDmaBuffer { dma, dma_len: VIRTIO_NET_BUFFER_SIZE, used_len: 0 }
    }

    /// Claims the bytes behind a header of `header_len` bytes for a frame of `len` bytes. Returns
    /// where the frame ends.
    pub fn claim(&mut self, header_len: usize, len: usize) -> (r: usize)
        requires
            header_len + len <= old(self).dma_len,
        ensures
            r == header_len + len,
            *final(self) == (TxDmaBuffer { used_len: r, ..*old(self) }),
    {
        self.used_len = header_len + len;
        self.used_len
    }
}

/// The buffers of a device.
#[derive(Debug)]
pub struct VirtIoNetImpl {
    /// Buffers that the device fills, by token.
    pub rx_slots: Vec<Option<RxDmaBuffer>>,
    /// Buffers that the device sends, by token.
    pub tx_inflight: Vec<Option<TxDmaBuffer>>,
    pub tx_free: Vec<TxDmaBuffer>,
    /// Buffers that the device may still write to although no token names them.
    pub rx_quarantine: Vec<RxDmaBuffer>,
    /// Buffers that the device may still read although no token names them.
    pub tx_quarantine: Vec<TxDmaBuffer>,
    /// The device broke the protocol and is not used any more.
    pub poisoned: bool,
}

/// The slot of a token holds a buffer.
pub open spec fn rx_held(slots: Seq<Option<RxDmaBuffer>>, token: u16) -> bool {
    token < slots.len() && slots[token as int] is Some
}

/// The slot of a token holds a buffer.
pub open spec fn tx_held(slots: Seq<Option<TxDmaBuffer>>, token: u16) -> bool {
    token < slots.len() && slots[token as int] is Some
}

/// The slot of a token exists and is free.
pub open spec fn rx_vacant(slots: Seq<Option<RxDmaBuffer>>, token: u16) -> bool {
    token < slots.len() && slots[token as int] is None
}

/// The slot of a token exists and is free.
pub open spec fn tx_vacant(slots: Seq<Option<TxDmaBuffer>>, token: u16) -> bool {
    token < slots.len() && slots[token as int] is None
}

/// How many slots hold a buffer.
pub open spec fn rx_count(slots: Seq<Option<RxDmaBuffer>>) -> nat
    decreases slots.len(),
{
    if slots.len() == 0 {
        0
    } else {
        rx_count(slots.drop_last()) + if slots.last() is Some {
            1nat
        } else {
            0
        }
    }
}

/// How many slots hold a buffer.
pub open spec fn tx_count(slots: Seq<Option<TxDmaBuffer>>) -> nat
    decreases slots.len(),
{
    if slots.len() == 0 {
        0
    } else {
        tx_count(slots.drop_last()) + if slots.last() is Some {
            1nat
        } else {
            0
        }
    }
}

proof fn lemma_rx_count_update(slots: Seq<Option<RxDmaBuffer>>, i: int, b: Option<RxDmaBuffer>)
    requires
        0 <= i < slots.len(),
    ensures
        rx_count(slots.update(i, b)) == rx_count(slots) - (if slots[i] is Some {
            1int
        } else {
            0
        }) + (if b is Some {
            1int
        } else {
            0
        }),
    decreases slots.len(),
{
    let t = slots.update(i, b);
    if i < slots.len() - 1 {
        lemma_rx_count_update(slots.drop_last(), i, b);
        assert(t.drop_last() =~= slots.drop_last().update(i, b));
    } else {
        assert(t.drop_last() =~= slots.drop_last());
    }
}

proof fn lemma_tx_count_update(slots: Seq<Option<TxDmaBuffer>>, i: int, b: Option<TxDmaBuffer>)
    requires
        0 <= i < slots.len(),
    ensures
        tx_count(slots.update(i, b)) == tx_count(slots) - (if slots[i] is Some {
            1int
        } else {
            0
        }) + (if b is Some {
            1int
        } else {
            0
        }),
    decreases slots.len(),
{
    let t = slots.update(i, b);
    if i < slots.len() - 1 {
        lemma_tx_count_update(slots.drop_last(), i, b);
        assert(t.drop_last() =~= slots.drop_last().update(i, b));
    } else {
        assert(t.drop_last() =~= slots.drop_last());
    }
}

/// Whether the device offers queues that are long enough.
pub fn check_queue_sizes(rx_size: u32, tx_size: u32) -> (r: Result<(), SystemError>)
    ensures
        r == (if rx_size < VIRTIO_NET_QUEUE_SIZE || tx_size < VIRTIO_NET_QUEUE_SIZE {
            Err(SystemError::ENODEV)
        } else {
            Ok(())
        }),
{
    if rx_size < VIRTIO_NET_QUEUE_SIZE as u32 || tx_size < VIRTIO_NET_QUEUE_SIZE as u32 {
        Err(SystemError::ENODEV)
    } else {
        Ok(())
    }
}

impl VirtIoNetImpl {
    /// Each queue has all its slots.
    pub open spec fn wf(&self) -> bool {
        &&& self.rx_slots@.len() == VIRTIO_NET_QUEUE_SIZE
        &&& self.tx_inflight@.len() == VIRTIO_NET_QUEUE_SIZE
    }

    /// How many receive buffers the tables hold.
    pub open spec fn rx_total(&self) -> nat {
        rx_count(self.rx_slots@) + self.rx_quarantine@.len()
    }

    /// How many send buffers the tables hold.
    pub open spec fn tx_total(&self) -> nat {
        tx_count(self.tx_inflight@) + self.tx_free@.len() + self.tx_quarantine@.len()
    }

    /// Nothing but the poison mark changed.
    pub open spec fn same_buffers(&self, o: &VirtIoNetImpl) -> bool {
        &&& self.rx_slots@ == o.rx_slots@
        &&& self.tx_inflight@ == o.tx_inflight@
        &&& self.tx_free@ == o.tx_free@
        &&& self.rx_quarantine@ == o.rx_quarantine@
        &&& self.tx_quarantine@ == o.tx_quarantine@
    }

    /// The send side did not change.
    pub open spec fn tx_same(&self, o: &VirtIoNetImpl) -> bool {
        &&& self.tx_inflight@ == o.tx_inflight@
        &&& self.tx_free@ == o.tx_free@
        &&& self.tx_quarantine@ == o.tx_quarantine@
    }

    /// The receive side did not change.
    pub open spec fn rx_same(&self, o: &VirtIoNetImpl) -> bool {
        &&& self.rx_slots@ == o.rx_slots@
        &&& self.rx_quarantine@ == o.rx_quarantine@
    }

    /// Tables with these send buffers and no receive buffers yet.
    pub fn new(tx_free: Vec<TxDmaBuffer>) -> (r: Self)
        ensures
            r.wf(),
            r.tx_free == tx_free,
            !r.poisoned,
            forall|i: int| 0 <= i < VIRTIO_NET_QUEUE_SIZE ==> (#[trigger] r.rx_slots@[i]) is None,
            forall|i: int| 0 <= i < VIRTIO_NET_QUEUE_SIZE ==> (#[trigger] r.tx_inflight@[i]) is None,
            r.rx_quarantine@.len() == 0,
            r.tx_quarantine@.len() == 0,
    {
        let mut rx_slots: Vec<Option<RxDmaBuffer>> = Vec::new();
        let mut tx_inflight: Vec<Option<TxDmaBuffer>> = Vec::new();
        let mut i: usize = 0;
        while i < VIRTIO_NET_QUEUE_SIZE
            invariant
                i <= VIRTIO_NET_QUEUE_SIZE,
                rx_slots@.len() == i,
                tx_inflight@.len() == i,
                forall|j: int| 0 <= j < i ==> (#[trigger] rx_slots@[j]) is None,
                forall|j: int| 0 <= j < i ==> (#[trigger] tx_inflight@[j]) is None,
            decreases VIRTIO_NET_QUEUE_SIZE - i,
        {
            rx_slots.push(None);
            tx_inflight.push(None);
            i = i + 1;
        }
        VirtIoNetImpl {
            rx_slots,
            tx_inflight,
            tx_free,
            rx_quarantine: Vec::new(),
            tx_quarantine: Vec::new(),
            poisoned: false,
        }
    }

    /// Hands a receive buffer to the device while it is being set up. `token` is what the device
    /// answered.
    pub fn post_rx(&mut self, buffer: RxDmaBuffer, token: u16) -> (r: Result<(), SystemError>)
        requires
            old(self).wf(),
        ensures
            final(self).wf(),
            r == (if rx_vacant(old(self).rx_slots@, token) {
                Ok(())
            } else {
                Err(SystemError::EIO)
            }),
            final(self).rx_slots@ == (if r is Ok {
                old(self).rx_slots@.update(token as int, Some(buffer))
            } else {
                old(self).rx_slots@
            }),
            final(self).rx_quarantine@ == (if r is Ok {
                old(self).rx_quarantine@
            } else {
                old(self).rx_quarantine@.push(buffer)
            }),
            final(self).tx_same(old(self)),
            final(self).poisoned == old(self).poisoned,
            final(self).rx_total() == old(self).rx_total() + 1,
    {
        let index: usize = token as usize;
        if index >= self.rx_slots.len() || self.rx_slots[index].is_some() {
            self.rx_quarantine.push(buffer);
            return Err(SystemError::EIO);
        }
        proof {
            lemma_rx_count_update(self.rx_slots@, index as int, Some(buffer));
        }
        self.rx_slots.set(index, Some(buffer));
        Ok(())
    }

    /// Stops using the device. Returns whether its interrupts have to be masked.
    pub fn poison(&mut self) -> (r: bool)
        ensures
            r == !old(self).poisoned,
            final(self).poisoned,
            final(self).rx_slots == old(self).rx_slots,
            final(self).tx_inflight == old(self).tx_inflight,
            final(self).tx_free == old(self).tx_free,
            final(self).rx_quarantine == old(self).rx_quarantine,
            final(self).tx_quarantine == old(self).tx_quarantine,
    {
        let first = !self.poisoned;
        self.poisoned = true;
        first
    }

    /// Claims the buffer of a frame that arrived. `polled` is the token that the device reported,
    /// if any, or an error for a token that cannot be.
    pub fn receive_claim(&mut self, polled: Result<Option<u16>, ()>) -> (r: Result<
        Option<(u16, RxDmaBuffer)>,
        SystemError,
    >)
        requires
            old(self).wf(),
        ensures
            final(self).wf(),
            final(self).tx_same(old(self)),
            final(self).rx_quarantine@ == old(self).rx_quarantine@,
            if old(self).poisoned {
                &&& r == Err::<Option<(u16, RxDmaBuffer)>, SystemError>(SystemError::EIO)
                &&& final(self).poisoned
                &&& final(self).rx_slots@ == old(self).rx_slots@
            } else {
                match polled {
                    Err(_) => {
                        &&& r == Err::<Option<(u16, RxDmaBuffer)>, SystemError>(SystemError::EIO)
                        &&& final(self).poisoned
                        &&& final(self).rx_slots@ == old(self).rx_slots@
                    },
                    Ok(None) => {
                        &&& r == Ok::<Option<(u16, RxDmaBuffer)>, SystemError>(None)
                        &&& !final(self).poisoned
                        &&& final(self).rx_slots@ == old(self).rx_slots@
                    },
                    Ok(Some(token)) => if rx_held(old(self).rx_slots@, token) {
                        &&& r == Ok::<Option<(u16, RxDmaBuffer)>, SystemError>(
                            Some((token, old(self).rx_slots@[token as int]->0)),
                        )
                        &&& !final(self).poisoned
                        &&& final(self).rx_slots@ == old(self).rx_slots@.update(token as int, None)
                    } else {
                        &&& r == Err::<Option<(u16, RxDmaBuffer)>, SystemError>(SystemError::EIO)
                        &&& final(self).poisoned
                        &&& final(self).rx_slots@ == old(self).rx_slots@
                    },
                }
            },
            final(self).rx_total() == old(self).rx_total() - (if r matches Ok(Some(_)) {
                1int
            } else {
                0
            }),
    {
        if self.poisoned {
            return Err(SystemError::EIO);
        }
        let token: u16 = match polled {
            Ok(Some(token)) => token,
            Ok(None) => {
                return Ok(None);
            },
            Err(_) => {
                let _mask = self.poison();
                return Err(SystemError::EIO);
            },
        };
        let index: usize = token as usize;
        if index >= self.rx_slots.len() {
            let _mask = self.poison();
            return Err(SystemError::EIO);
        }
        let mut taken: Option<RxDmaBuffer> = None;
        self.rx_slots.set_and_swap(index, &mut taken);
        match taken {
            Some(buffer) => {
                proof {
                    lemma_rx_count_update(old(self).rx_slots@, index as int, None);
                    assert(self.rx_slots@ =~= old(self).rx_slots@.update(index as int, None));
                }
                Ok(Some((token, buffer)))
            },
            None => {
                assert(self.rx_slots@ =~= old(self).rx_slots@);
                let _mask = self.poison();
                Err(SystemError::EIO)
            },
        }
    }

    /// Ends the reception of a frame. `completed` are the lengths of the header and the frame that
    /// the device reported, or an error if it did not own the buffer.
    pub fn receive(
        &mut self,
        token: u16,
        buffer: RxDmaBuffer,
        completed: Result<(usize, usize), ()>,
    ) -> (r: Result<RxDmaBuffer, SystemError>)
        requires
            old(self).wf(),
            rx_vacant(old(self).rx_slots@, token),
        ensures
            final(self).wf(),
            final(self).tx_same(old(self)),
            match completed {
                Err(_) => {
                    &&& r == Err::<RxDmaBuffer, SystemError>(SystemError::EIO)
                    &&& final(self).poisoned
                    &&& final(self).rx_slots@ == old(self).rx_slots@.update(
                        token as int,
                        Some(buffer),
                    )
                    &&& final(self).rx_quarantine@ == old(self).rx_quarantine@
                },
                Ok((header_len, packet_len)) => {
                    &&& final(self).rx_slots@ == old(self).rx_slots@
                    &&& if header_len + packet_len > usize::MAX {
                        &&& r == Err::<RxDmaBuffer, SystemError>(SystemError::EIO)
                        &&& final(self).poisoned
                        &&& final(self).rx_quarantine@ == old(self).rx_quarantine@
                    } else if header_len + packet_len > buffer.dma_len {
                        &&& r == Err::<RxDmaBuffer, SystemError>(SystemError::EIO)
                        &&& final(self).poisoned
                        &&& final(self).rx_quarantine@ == old(self).rx_quarantine@.push(buffer)
                    } else {
                        &&& r == Ok::<RxDmaBuffer, SystemError>(
                            RxDmaBuffer {
                                packet_offset: header_len,
                                packet_len,
                                ..buffer
                            },
                        )
                        &&& final(self).poisoned == old(self).poisoned
                        &&& final(self).rx_quarantine@ == old(self).rx_quarantine@
                    }
                },
            },
    {
        let (header_len, packet_len) = match completed {
            Ok(lengths) => lengths,
            Err(_) => {
                self.rx_slots.set(token as usize, Some(buffer));
                let _mask = self.poison();
                return Err(SystemError::EIO);
            },
        };
        let end: usize = match header_len.checked_add(packet_len) {
            Some(end) => end,
            None => {
                let _mask = self.poison();
                return Err(SystemError::EIO);
            },
        };
        if end > buffer.dma_len {
            self.rx_quarantine.push(buffer);
            let _mask = self.poison();
            return Err(SystemError::EIO);
        }
        Ok(
            RxDmaBuffer {
                dma: buffer.dma,
                dma_len: buffer.dma_len,
                packet_offset: header_len,
                packet_len,
            },
        )
    }

    /// Whether a buffer may be handed back to the device.
    pub fn may_recycle(&self) -> (r: Result<(), SystemError>)
        ensures
            r == (if self.poisoned {
                Err(SystemError::EIO)
            } else {
                Ok(())
            }),
    {
        if self.poisoned {
            Err(SystemError::EIO)
        } else {
            Ok(())
        }
    }

    /// Hands a receive buffer back to the device. `begun` is the token that the device answered
    /// with, or an error if it took nothing.
    pub fn recycle_rx(&mut self, buffer: RxDmaBuffer, begun: Result<u16, ()>) -> (r: Result<
        (),
        SystemError,
    >)
        requires
            old(self).wf(),
        ensures
            final(self).wf(),
            final(self).tx_same(old(self)),
            ({
                let fresh = RxDmaBuffer { packet_offset: 0, packet_len: 0, ..buffer };
                if old(self).poisoned || begun is Err {
                    &&& r == Err::<(), SystemError>(SystemError::EIO)
                    &&& final(self).same_buffers(old(self))
                    &&& final(self).poisoned == old(self).poisoned
                } else if rx_vacant(old(self).rx_slots@, begun->Ok_0) {
                    &&& r is Ok
                    &&& final(self).rx_slots@ == old(self).rx_slots@.update(
                        begun->Ok_0 as int,
                        Some(fresh),
                    )
                    &&& final(self).rx_quarantine@ == old(self).rx_quarantine@
                    &&& !final(self).poisoned
                } else {
                    &&& r == Err::<(), SystemError>(SystemError::EIO)
                    &&& final(self).rx_slots@ == old(self).rx_slots@
                    &&& final(self).rx_quarantine@ == old(self).rx_quarantine@.push(fresh)
                    &&& final(self).poisoned
                }
            }),
    {
        if self.poisoned {
            return Err(SystemError::EIO);
        }
        let fresh = RxDmaBuffer {
            dma: buffer.dma,
            dma_len: buffer.dma_len,
            packet_offset: 0,
            packet_len: 0,
        };
        let token: u16 = match begun {
            Ok(token) => token,
            Err(_) => {
                return Err(SystemError::EIO);
            },
        };
        match self.post_rx(fresh, token) {
            Ok(_) => Ok(()),
            Err(error) => {
                let _mask = self.poison();
                Err(error)
            },
        }
    }

    /// Claims the buffer of a frame that was sent. `polled` is the token that the device reported.
    pub fn reap_claim(&mut self, polled: Result<Option<u16>, ()>) -> (r: Result<
        Option<(u16, TxDmaBuffer)>,
        SystemError,
    >)
        requires
            old(self).wf(),
        ensures
            final(self).wf(),
            final(self).rx_same(old(self)),
            final(self).tx_free@ == old(self).tx_free@,
            final(self).tx_quarantine@ == old(self).tx_quarantine@,
            match polled {
                Ok(None) => {
                    &&& r == Ok::<Option<(u16, TxDmaBuffer)>, SystemError>(None)
                    &&& final(self).tx_inflight@ == old(self).tx_inflight@
                    &&& final(self).poisoned == old(self).poisoned
                },
                Ok(Some(token)) => if tx_held(old(self).tx_inflight@, token) {
                    &&& r == Ok::<Option<(u16, TxDmaBuffer)>, SystemError>(
                        Some((token, old(self).tx_inflight@[token as int]->0)),
                    )
                    &&& final(self).tx_inflight@ == old(self).tx_inflight@.update(
                        token as int,
                        None,
                    )
                    &&& final(self).poisoned == old(self).poisoned
                } else {
                    &&& r == Err::<Option<(u16, TxDmaBuffer)>, SystemError>(SystemError::EIO)
                    &&& final(self).tx_inflight@ == old(self).tx_inflight@
                    &&& final(self).poisoned
                },
                Err(_) => {
                    &&& r == Err::<Option<(u16, TxDmaBuffer)>, SystemError>(SystemError::EIO)
                    &&& final(self).tx_inflight@ == old(self).tx_inflight@
                    &&& final(self).poisoned
                },
            },
            final(self).tx_total() == old(self).tx_total() - (if r matches Ok(Some(_)) {
                1int
            } else {
                0
            }),
    {
        let token: u16 = match polled {
            Ok(Some(token)) => token,
            Ok(None) => {
                return Ok(None);
            },
            Err(_) => {
                let _mask = self.poison();
                return Err(SystemError::EIO);
            },
        };
        let index: usize = token as usize;
        if index >= self.tx_inflight.len() {
            let _mask = self.poison();
            return Err(SystemError::EIO);
        }
        let mut taken: Option<TxDmaBuffer> = None;
        self.tx_inflight.set_and_swap(index, &mut taken);
        match taken {
            Some(buffer) => {
                proof {
                    lemma_tx_count_update(old(self).tx_inflight@, index as int, None);
                    assert(self.tx_inflight@ =~= old(self).tx_inflight@.update(index as int, None));
                }
                Ok(Some((token, buffer)))
            },
            None => {
                assert(self.tx_inflight@ =~= old(self).tx_inflight@);
                let _mask = self.poison();
                Err(SystemError::EIO)
            },
        }
    }

    /// Ends the sending of a frame. `completed` tells whether the device owned the buffer. Returns
    /// for how many frames that was done, where it was done for `count` frames before.
    pub fn reap_tx_completions(
        &mut self,
        token: u16,
        buffer: TxDmaBuffer,
        completed: bool,
        count: usize,
    ) -> (r: Result<usize, SystemError>)
        requires
            old(self).wf(),
            tx_vacant(old(self).tx_inflight@, token),
            count < usize::MAX,
        ensures
            final(self).wf(),
            final(self).rx_same(old(self)),
            final(self).tx_quarantine@ == old(self).tx_quarantine@,
            r == (if completed {
                Ok((count + 1) as usize)
            } else {
                Err(SystemError::EIO)
            }),
            if completed {
                &&& final(self).tx_inflight@ == old(self).tx_inflight@
                &&& final(self).tx_free@ == old(self).tx_free@.push(buffer)
                &&& final(self).poisoned == old(self).poisoned
            } else {
                &&& final(self).tx_inflight@ == old(self).tx_inflight@.update(
                    token as int,
                    Some(buffer),
                )
                &&& final(self).tx_free@ == old(self).tx_free@
                &&& final(self).poisoned
            },
            final(self).tx_total() == old(self).tx_total() + 1,
    {
        if !completed {
            proof {
                lemma_tx_count_update(self.tx_inflight@, token as int, Some(buffer));
            }
            self.tx_inflight.set(token as usize, Some(buffer));
            let _mask = self.poison();
            return Err(SystemError::EIO);
        }
        self.tx_free.push(buffer);
        Ok(count + 1)
    }

    /// Whether a frame arrived.
    pub fn has_rx_completion(&mut self, polled: Result<Option<u16>, ()>) -> (r: Result<
        bool,
        SystemError,
    >)
        ensures
            r == (match polled {
                Ok(token) => Ok::<bool, SystemError>(token is Some),
                Err(_) => Err::<bool, SystemError>(SystemError::EIO),
            }),
            final(self).same_buffers(old(self)),
            final(self).poisoned == (old(self).poisoned || polled is Err),
    {
        match polled {
            Ok(token) => Ok(token.is_some()),
            Err(_) => {
                let _mask = self.poison();
                Err(SystemError::EIO)
            },
        }
    }

    /// Takes a send buffer. `reaped` tells whether claiming sent buffers went well. One buffer
    /// always stays behind.
    pub fn reserve_tx(&mut self, reaped: bool) -> (r: Option<TxDmaBuffer>)
        ensures
            r is Some <==> !old(self).poisoned && reaped && old(self).tx_free@.len() >= 2,
            r matches Some(buffer) ==> {
                &&& buffer == old(self).tx_free@.last()
                &&& final(self).tx_free@ == old(self).tx_free@.drop_last()
            },
            r is None ==> final(self).tx_free@ == old(self).tx_free@,
            final(self).rx_same(old(self)),
            final(self).tx_inflight@ == old(self).tx_inflight@,
            final(self).tx_quarantine@ == old(self).tx_quarantine@,
            final(self).poisoned == old(self).poisoned,
    {
        if self.poisoned || !reaped || self.tx_free.len() < 2 {
            return None;
        }
        self.tx_free.pop()
    }

    /// Takes a send buffer back that was not used.
    pub fn release_tx(&mut self, buffer: TxDmaBuffer)
        ensures
            final(self).tx_free@ == old(self).tx_free@.push(
                (TxDmaBuffer { used_len: 0, ..buffer }),
            ),
            final(self).rx_same(old(self)),
            final(self).tx_inflight@ == old(self).tx_inflight@,
            final(self).tx_quarantine@ == old(self).tx_quarantine@,
            final(self).poisoned == old(self).poisoned,
    {
        self.tx_free.push(
            TxDmaBuffer { dma: buffer.dma, dma_len: buffer.dma_len, used_len: 0 },
        );
    }

    /// Hands a send buffer to the device. `begun` is the token that the device answered with, or an
    /// error if it took nothing. A device that is not used any more is not asked.
    pub fn submit_tx(&mut self, buffer: TxDmaBuffer, begun: Result<u16, ()>) -> (r: Result<
        (),
        SystemError,
    >)
        requires
            old(self).wf(),
        ensures
            final(self).wf(),
            final(self).rx_same(old(self)),
            ({
                let unused = TxDmaBuffer { used_len: 0, ..buffer };
                if old(self).poisoned || begun is Err {
                    &&& r == Err::<(), SystemError>(SystemError::EIO)
                    &&& final(self).tx_free@ == old(self).tx_free@.push(unused)
                    &&& final(self).tx_inflight@ == old(self).tx_inflight@
                    &&& final(self).tx_quarantine@ == old(self).tx_quarantine@
                    &&& final(self).poisoned
                } else if tx_vacant(old(self).tx_inflight@, begun->Ok_0) {
                    &&& r is Ok
                    &&& final(self).tx_free@ == old(self).tx_free@
                    &&& final(self).tx_inflight@ == old(self).tx_inflight@.update(
                        begun->Ok_0 as int,
                        Some(buffer),
                    )
                    &&& final(self).tx_quarantine@ == old(self).tx_quarantine@
                    &&& !final(self).poisoned
                } else {
                    &&& r == Err::<(), SystemError>(SystemError::EIO)
                    &&& final(self).tx_free@ == old(self).tx_free@
                    &&& final(self).tx_inflight@ == old(self).tx_inflight@
                    &&& final(self).tx_quarantine@ == old(self).tx_quarantine@.push(buffer)
                    &&& final(self).poisoned
                }
            }),
            final(self).tx_total() == old(self).tx_total() + 1,
    {
        if self.poisoned {
            self.release_tx(buffer);
            return Err(SystemError::EIO);
        }
        let token: u16 = match begun {
            Ok(token) => token,
            Err(_) => {
                let _mask = self.poison();
                self.release_tx(buffer);
                return Err(SystemError::EIO);
            },
        };
        let index: usize = token as usize;
        if index >= self.tx_inflight.len() || self.tx_inflight[index].is_some() {
            self.tx_quarantine.push(buffer);
            let _mask = self.poison();
            return Err(SystemError::EIO);
        }
        proof {
            lemma_tx_count_update(self.tx_inflight@, index as int, Some(buffer));
        }
        self.tx_inflight.set(index, Some(buffer));
        Ok(())
    }

    /// Takes a send buffer for a frame, if the frame is short enough and a buffer is free.
    pub fn try_raw_transmit(&mut self, frame_len: usize, reaped: bool) -> (r: Result<
        TxDmaBuffer,
        SystemError,
    >)
        ensures
            frame_len > 1514 ==> r == Err::<TxDmaBuffer, SystemError>(SystemError::EMSGSIZE),
            r == Err::<TxDmaBuffer, SystemError>(SystemError::EMSGSIZE) ==> frame_len > 1514,
            match r {
                Ok(buffer) => {
                    &&& frame_len <= VIRTIO_NET_MAX_FRAME_SIZE
                    &&& !old(self).poisoned && reaped && old(self).tx_free@.len() >= 2
                    &&& buffer == old(self).tx_free@.last()
                    &&& final(self).tx_free@ == old(self).tx_free@.drop_last()
                },
                Err(e) => {
                    &&& e == (if frame_len > VIRTIO_NET_MAX_FRAME_SIZE {
                        SystemError::EMSGSIZE
                    } else {
                        SystemError::ENOBUFS
                    })
                    &&& e == SystemError::ENOBUFS ==> old(self).poisoned || !reaped
                        || old(self).tx_free@.len() < 2
                    &&& final(self).tx_free@ == old(self).tx_free@
                },
            },
            final(self).rx_same(old(self)),
            final(self).tx_inflight@ == old(self).tx_inflight@,
            final(self).tx_quarantine@ == old(self).tx_quarantine@,
            final(self).poisoned == old(self).poisoned,
    {
        if frame_len > VIRTIO_NET_MAX_FRAME_SIZE {
            return Err(SystemError::EMSGSIZE);
        }
        match self.reserve_tx(reaped) {
            Some(buffer) => Ok(buffer),
            None => Err(SystemError::ENOBUFS),
        }
    }

    /// Whether a bounded poll goes on to the stack. A device that is not used any more returns
    /// without work, so that it can be completed once more.
    pub fn poll_napi(&self) -> (r: Option<NapiPollResult>)
        ensures
            r == (if self.poisoned {
                Some(NapiPollResult { work_done: 0, poll_again: false })
            } else {
                None
            }),
    {
        if self.poisoned {
            Some(NapiPollResult::idle())
        } else {
            None
        }
    }

    /// Whether interrupts are masked when a poll begins.
    pub fn napi_poll_begin(&self) -> (r: bool)
        ensures
            r == !self.poisoned,
    {
        !self.poisoned
    }
}

/// A send buffer that is taken, filled and submitted under a free token is still in the tables, and
/// the device owns it: nothing is lost on the way.
pub proof fn law_send_keeps_buffers(
    before: VirtIoNetImpl,
    reserved: VirtIoNetImpl,
    buffer: TxDmaBuffer,
    token: u16,
    after: VirtIoNetImpl,
)
    requires
        before.wf(),
        before.tx_free@.len() >= 2,
        buffer.dma == before.tx_free@.last().dma,
        reserved.tx_free@ == before.tx_free@.drop_last(),
        reserved.tx_inflight@ == before.tx_inflight@,
        reserved.tx_quarantine@ == before.tx_quarantine@,
        tx_vacant(reserved.tx_inflight@, token),
        after.tx_free@ == reserved.tx_free@,
        after.tx_inflight@ == reserved.tx_inflight@.update(token as int, Some(buffer)),
        after.tx_quarantine@ == reserved.tx_quarantine@,
    ensures
        after.tx_total() == before.tx_total(),
        tx_held(after.tx_inflight@, token),
        after.tx_free@.len() >= 1,
{
    lemma_tx_count_update(reserved.tx_inflight@, token as int, Some(buffer));
}

/// What completing a poll instance asks of the outside.
#[derive(Clone, Copy, Debug, PartialEq, Eq, Structural)]
pub enum VirtioNapiComplete {
    /// Stop the instance for good.
    Disable,
    /// Mask the interrupts and publish the instance again.
    Reschedule,
    /// Nothing more.
    Done,
}

/// Decides how completing an instance ends after interrupts were unmasked: work that was missed or
/// that arrived meanwhile is polled at once.
///
/// `prepared` tells whether this caller became the owner again; it is only asked for if there is
/// work.
pub fn napi_complete(
    poisoned: bool,
    missed: bool,
    interrupt_pending: bool,
    tx_completed: usize,
    has_rx: bool,
    prepared: bool,
) -> (r: VirtioNapiComplete)
    ensures
        r == (if poisoned {
            VirtioNapiComplete::Disable
        } else if missed {
            VirtioNapiComplete::Reschedule
        } else if (interrupt_pending || tx_completed != 0 || has_rx) && prepared {
            VirtioNapiComplete::Reschedule
        } else {
            VirtioNapiComplete::Done
        }),
{
    if poisoned {
        return VirtioNapiComplete::Disable;
    }
    if missed {
        return VirtioNapiComplete::Reschedule;
    }
    let has_work = interrupt_pending || tx_completed != 0 || has_rx;
    if has_work && prepared {
        VirtioNapiComplete::Reschedule
    } else {
        VirtioNapiComplete::Done
    }
}

/// How the making of a device goes on.
#[derive(Clone, Copy, Debug, PartialEq, Eq, Structural)]
pub enum VirtioNetStep {
    /// There is no device.
    Nothing,
    /// The device cannot have its interrupt.
    Abort(SystemError),
    /// Add the device to its bus.
    AddDevice,
}

/// Decides how the making of a device goes on: whether it exists, and whether installing its
/// interrupt, if that was put off, went well.
pub fn virtio_net(created: bool, deferred_irq: Option<Result<(), SystemError>>) -> (r:
    VirtioNetStep)
    ensures
        r == (if !created {
            VirtioNetStep::Nothing
        } else {
            match deferred_irq {
                Some(Err(e)) => VirtioNetStep::Abort(e),
                _ => VirtioNetStep::AddDevice,
            }
        }),
{
    if !created {
        return VirtioNetStep::Nothing;
    }
    match deferred_irq {
        Some(Err(error)) => VirtioNetStep::Abort(error),
        _ => VirtioNetStep::AddDevice,
    }
}

/// The device as the device tree sees it.
pub struct VirtIONetDevice {
    /// The number of the device.
    pub dev_id: u64,
    pub name: Option<String>,
    pub virtio_index: Option<u32>,
    pub kobj_common: KObjectCommonData,
    pub device_common: DeviceCommonData,
    /// The interface of the device, by number.
    pub iface_ref: Option<u64>,
    pub irq_is_msix: bool,
}

impl VirtIONetDevice {
    /// A device without a name and without an interface.
    pub fn new(dev_id: u64, irq_is_msix: bool) -> (r: Self)
        ensures
            r.dev_id == dev_id,
            r.irq_is_msix == irq_is_msix,
            r.name is None,
            r.virtio_index is None,
            r.iface_ref is None,
    {
        VirtIONetDevice {
            dev_id,
            name: None,
            virtio_index: None,
            kobj_common: KObjectCommonData::default(),
            device_common: DeviceCommonData::default(),
            iface_ref: None,
            irq_is_msix,
        }
    }

    /// Sets the interface of the device.
    pub fn set_iface(&mut self, iface: u64)
        ensures
            *final(self) == (VirtIONetDevice { iface_ref: Some(iface), ..*old(self) }),
    {
        self.iface_ref = Some(iface);
    }

    /// The interface of the device.
    pub fn iface(&self) -> (r: Option<u64>)
        ensures
            r == self.iface_ref,
    {
        self.iface_ref
    }

    /// A network device.
    pub fn dev_type(&self) -> (r: DeviceType)
        ensures
            r == DeviceType::Net,
    {
        DeviceType::Net
    }

    /// How the device is identified to drivers.
    pub fn id_table(&self) -> (r: IdTable)
        ensures
            r.name@ == "virtio_net"@,
            r.id is None,
    {
        IdTable::new("virtio_net".to_owned(), None)
    }

    /// Whether an interrupt leads to a poll: only if the device has an interface that is polled.
    /// The interrupt counts as handled in any case.
    pub fn handle_irq(&self, has_napi: bool) -> (r: bool)
        ensures
            r == (self.iface_ref is Some && has_napi),
    {
        self.iface_ref.is_some() && has_napi
    }

    /// Names the device.
    pub fn set_device_name(&mut self, name: String)
        ensures
            *final(self) == (VirtIONetDevice { name: Some(name), ..*old(self) }),
    {
        self.name = Some(name);
    }

    /// The name of the device.
    pub fn device_name(&self) -> (r: String)
        ensures
            r@ == (match self.name {
                Some(name) => name@,
                None => "virtio_net"@,
            }),
    {
        match &self.name {
            Some(name) => name.clone(),
            None => "virtio_net".to_owned(),
        }
    }

    /// Numbers the device among virtio devices.
    pub fn set_virtio_device_index(&mut self, index: u32)
        ensures
            *final(self) == (VirtIONetDevice { virtio_index: Some(index), ..*old(self) }),
    {
        self.virtio_index = Some(index);
    }

    /// The number of the device among virtio devices.
    pub fn virtio_device_index(&self) -> (r: Option<u32>)
        ensures
            r == self.virtio_index,
    {
        self.virtio_index
    }

    /// The kind of the device among virtio devices.
    pub fn device_type_id(&self) -> (r: u32)
        ensures
            r == VIRTIO_NETWORK,
    {
        VIRTIO_NETWORK
    }
}

/// The interface of a device.
pub struct VirtioInterface {
    pub iface_common: IfaceCommon,
    pub napi: NapiStruct,
    pub kobj_common: KObjectCommonData,
    pub device_common: DeviceCommonData,
    pub netdevice_common: NetDeviceCommonData,
}

/// The flags of a new interface.
pub const VIRTIO_NET_FLAGS: u32 = 0x1_1043;

/// The name of the Ethernet interface with this number.
pub fn eth_name(iface_id: usize) -> (r: String)
    ensures
        r@ == "eth"@ + text::number(iface_id as nat, 10),
{
    let mut name = "eth".to_owned();
    push_decimal(&mut name, iface_id as u64);
    name
}

impl VirtioInterface {
    /// An interface with this number.
    pub fn new(iface_id: usize) -> (r: Self)
        ensures
            r.iface_common.wf(),
            r.iface_common.iface_id == iface_id,
            r.iface_common.type_ == InterfaceType::ETHER,
            r.iface_common.name@ == "eth"@ + text::number(iface_id as nat, 10),
            r.iface_common.mtu == VIRTIO_NET_IP_MTU,
            r.iface_common.flags == VIRTIO_NET_FLAGS,
            r.napi == (NapiStruct { weight: 64, napi_id: iface_id }),
    {
        VirtioInterface {
            iface_common: IfaceCommon::new(
                iface_id,
                InterfaceType::ETHER,
                eth_name(iface_id),
                VIRTIO_NET_IP_MTU,
                InterfaceFlags { bits: VIRTIO_NET_FLAGS },
            ),
            napi: NapiStruct::new(iface_id, 64),
            kobj_common: KObjectCommonData::default(),
            device_common: DeviceCommonData::default(),
            netdevice_common: NetDeviceCommonData::default(),
        }
    }

    /// The limits of the device.
    pub fn capabilities(&self) -> (r: DeviceCapabilities)
        ensures
            r == (DeviceCapabilities {
                medium: Medium::Ethernet,
                max_transmission_unit: VIRTIO_NET_MAX_FRAME_SIZE,
                max_burst_size: None,
            }),
    {
        DeviceCapabilities {
            medium: Medium::Ethernet,
            max_transmission_unit: VIRTIO_NET_MAX_FRAME_SIZE,
            max_burst_size: None,
        }
    }

    /// A poll only asks for a bounded poll: it tells that nothing was done here.
    pub fn poll(&self) -> (r: bool)
        ensures
            !r,
    {
        false
    }

    /// Marks the interface as an Ethernet device and returns that type.
    pub fn net_device_type(&mut self) -> (r: u16)
        ensures
            r == 1,
            *final(self) == (VirtioInterface {
                netdevice_common: NetDeviceCommonData {
                    net_device_type: 1,
                    ..old(self).netdevice_common
                },
                ..*old(self)
            }),
    {
        self.netdevice_common.net_device_type = 1;
        self.netdevice_common.net_device_type
    }

    /// Adds flags to the state of the device.
    pub fn set_net_state(&mut self, state: NetDeivceState)
        ensures
            *final(self) == (VirtioInterface {
                netdevice_common: NetDeviceCommonData {
                    state: NetDeivceState { bits: old(self).netdevice_common.state.bits | state.bits },
                    ..old(self).netdevice_common
                },
                ..*old(self)
            }),
    {
        self.netdevice_common.state = self.netdevice_common.state.with(state.bits);
    }

    /// Sets the operational state.
    pub fn set_operstate(&mut self, state: Operstate)
        ensures
            *final(self) == (VirtioInterface {
                netdevice_common: NetDeviceCommonData {
                    operstate: state,
                    ..old(self).netdevice_common
                },
                ..*old(self)
            }),
    {
        self.netdevice_common.operstate = state;
    }
}

/// What kind of virtio device a driver is for.
#[derive(Clone, Copy, Debug, PartialEq, Eq, Structural)]
pub struct VirtioDeviceId {
    pub device: u32,
    pub vendor: u32,
}

/// The driver of virtio network devices.
#[derive(Debug)]
pub struct VirtIONetDriver {
    pub id_table: Vec<VirtioDeviceId>,
    /// The devices of the driver, by number.
    pub devices: Vec<u64>,
    pub kobj_common: KObjectCommonData,
}

/// How probing a device ends.
#[derive(Clone, Copy, Debug, PartialEq, Eq, Structural)]
pub enum VirtioProbe {
    /// The device belongs to another driver.
    Refuse(SystemError),
    /// The interrupt could not be registered.
    Fail(SystemError),
    /// The interface could not be registered: its interrupt goes away again.
    RollBack(SystemError),
    /// The interface is in place. It is polled once, so that no early interrupt is lost.
    Linked,
}

impl VirtIONetDriver {
    /// A driver for the network devices of this vendor.
    pub fn new(vendor: u32) -> (r: Self)
        ensures
            r.id_table@ == seq![VirtioDeviceId { device: VIRTIO_NETWORK, vendor }],
            r.devices@.len() == 0,
    {
        let mut driver = VirtIONetDriver {
            id_table: Vec::new(),
            devices: Vec::new(),
            kobj_common: KObjectCommonData::default(),
        };
        driver.add_virtio_id(VirtioDeviceId { device: VIRTIO_NETWORK, vendor });
        assert(driver.id_table@ =~= seq![VirtioDeviceId { device: VIRTIO_NETWORK, vendor }]);
        driver
    }

    /// Decides how probing ends, given each step in turn: whether the device is a network device,
    /// and what registering its interrupt and its interface returned.
    pub fn probe(
        is_net_device: bool,
        irq: Result<(), SystemError>,
        registered: Result<(), SystemError>,
    ) -> (r: VirtioProbe)
        ensures
            r == (if !is_net_device {
                VirtioProbe::Refuse(SystemError::EINVAL)
            } else {
                match irq {
                    Err(e) => VirtioProbe::Fail(e),
                    Ok(_) => match registered {
                        Err(e) => VirtioProbe::RollBack(e),
                        Ok(_) => VirtioProbe::Linked,
                    },
                }
            }),
    {
        if !is_net_device {
            return VirtioProbe::Refuse(SystemError::EINVAL);
        }
        match irq {
            Err(error) => VirtioProbe::Fail(error),
            Ok(_) => match registered {
                Err(error) => VirtioProbe::RollBack(error),
                Ok(_) => VirtioProbe::Linked,
            },
        }
    }

    /// Makes the driver responsible for one more kind of device.
    pub fn add_virtio_id(&mut self, id: VirtioDeviceId)
        ensures
            final(self).id_table@ == old(self).id_table@.push(id),
            final(self).devices == old(self).devices,
            final(self).kobj_common == old(self).kobj_common,
    {
        self.id_table.push(id);
    }

    /// Adds a device to those of the driver.
    pub fn add_device(&mut self, device: u64)
        ensures
            final(self).devices@ == old(self).devices@.push(device),
            final(self).id_table == old(self).id_table,
            final(self).kobj_common == old(self).kobj_common,
    {
        self.devices.push(device);
    }

    /// Removes a device from those of the driver.
    pub fn delete_device(&mut self, device: u64)
        requires
            old(self).devices@.contains(device),
        ensures
            exists|i: int|
                {
                    &&& 0 <= i < old(self).devices@.len()
                    &&& (#[trigger] old(self).devices@[i]) == device
                    &&& forall|j: int| 0 <= j < i ==> old(self).devices@[j] != device
                    &&& final(self).devices@ == old(self).devices@.remove(i)
                },
            final(self).id_table == old(self).id_table,
            final(self).kobj_common == old(self).kobj_common,
    {
        let count: usize = self.devices.len();
        let mut index: usize = 0;
        while self.devices[index] != device
            invariant
                count == self.devices@.len(),
                self.devices == old(self).devices,
                self.id_table == old(self).id_table,
                self.kobj_common == old(self).kobj_common,
                index < self.devices@.len(),
                forall|j: int| 0 <= j < index ==> self.devices@[j] != device,
                self.devices@.contains(device),
            decreases self.devices@.len() - index,
        {
            proof {
                let i = choose|i: int| 0 <= i < self.devices@.len() && self.devices@[i] == device;
                assert(i > index);
            }
            index = index + 1;
        }
        let _device = self.devices.remove(index);
    }
}

/// The sizes of a device fit together: a frame is an IP packet of up to 1500 bytes behind a header of
/// fourteen, a buffer holds the longest frame behind any header of the device, and each queue has 64
/// slots. A new interface is up and running, on a link that is up, and knows broadcast and multicast.
pub proof fn law_sizes(tables: VirtIoNetImpl, token: u16)
    ensures
        VIRTIO_NET_IP_MTU == 1500,
        VIRTIO_NET_MAX_FRAME_SIZE == VIRTIO_NET_IP_MTU + 14,
        VIRTIO_NET_BUFFER_SIZE == 4096,
        VIRTIO_NETWORK == 1,
        VIRTIO_NET_FLAGS == InterfaceFlags::UP + InterfaceFlags::BROADCAST + InterfaceFlags::RUNNING
            + InterfaceFlags::MULTICAST + InterfaceFlags::LOWER_UP,
        tables.wf() ==> tables.rx_slots@.len() == 64 && tables.tx_inflight@.len() == 64,
        tables.wf() && token >= 64 ==> !rx_held(tables.rx_slots@, token) && !rx_vacant(
            tables.rx_slots@,
            token,
        ) && !tx_held(tables.tx_inflight@, token) && !tx_vacant(tables.tx_inflight@, token),
        tables.wf() && token < 64 ==> rx_held(tables.rx_slots@, token) == !rx_vacant(
            tables.rx_slots@,
            token,
        ) && tx_held(tables.tx_inflight@, token) == !tx_vacant(tables.tx_inflight@, token),
{
}

/// How many slots hold a buffer: none of an empty table, each once, and never more than there are slots.
pub proof fn law_counts(rx: Seq<Option<RxDmaBuffer>>, tx: Seq<Option<TxDmaBuffer>>, i: int)
    ensures
        rx_count(rx) <= rx.len(),
        tx_count(tx) <= tx.len(),
        (forall|j: int| 0 <= j < rx.len() ==> (#[trigger] rx[j]) is None) ==> rx_count(rx) == 0,
        (forall|j: int| 0 <= j < tx.len() ==> (#[trigger] tx[j]) is None) ==> tx_count(tx) == 0,
        (forall|j: int| 0 <= j < rx.len() ==> (#[trigger] rx[j]) is Some) ==> rx_count(rx) == rx.len(),
        (forall|j: int| 0 <= j < tx.len() ==> (#[trigger] tx[j]) is Some) ==> tx_count(tx) == tx.len(),
        0 <= i < rx.len() && rx[i] is Some ==> rx_count(rx.update(i, None)) + 1 == rx_count(rx),
        0 <= i < tx.len() && tx[i] is Some ==> tx_count(tx.update(i, None)) + 1 == tx_count(tx),
    decreases rx.len() + tx.len(),
{
    if 0 <= i < rx.len() {
        lemma_rx_count_update(rx, i, None);
    }
    if 0 <= i < tx.len() {
        lemma_tx_count_update(tx, i, None);
    }
    if rx.len() > 0 {
        let r = rx.drop_last();
        law_counts(r, tx, -1);
        assert(forall|j: int| 0 <= j < r.len() ==> (#[trigger] r[j]) == rx[j]);
        assert(rx.last() == rx[rx.len() - 1]);
    }
    if tx.len() > 0 {
        let t = tx.drop_last();
        law_counts(rx, t, -1);
        assert(forall|j: int| 0 <= j < t.len() ==> (#[trigger] t[j]) == tx[j]);
        assert(tx.last() == tx[tx.len() - 1]);
    }
}

} // verus!

//! The controllers: rings, buffers and their registers.

use kdrivers::error::SystemError;
use kdrivers::net::addr::{IpAddress, Ipv4Address, Medium, PacketMeta};
use kdrivers::net::e1000e::{
    check_bar, clear_causes, clear_multicast_table, e1000e_init, e1000e_probed, enable_interrupts, mac_of,
    recv_irq_msg, reset, reset_phy, set_general, set_link, setup_receive, setup_transmit,
    E1000EBuffer, E1000EDevice, E1000EPciError, E1000ERecvDesc, E1000EReport, E1000EStartup,
    E1000ETransDesc, NapiRing, RegWrite, E1000E_RECV_NAPI, PAGE_SIZE, RING_LENGTH,
};
use kdrivers::net::e1000e_driver::{
    e1000e_driver_init, DefaultE1000EIrqHandler, E1000EDriver, E1000EIrqManager, E1000ETxToken,
};
use kdrivers::net::irq_handle::{DefaultNetIrqHandler, IrqAction, IrqReturn};
use kdrivers::net::local_queue::{LocalOutputDisposition, LocalOutputPacket};
use kdrivers::net::napi::NapiPollResult;
use kdrivers::net::tcp_output::{transport_capabilities, TcpDrainStep, TcpOutputQueue};
use kdrivers::net::types::InterfaceFlags;
use kdrivers::net::virtio_net::{
    check_queue_sizes, eth_name, napi_complete, virtio_net, RxDmaBuffer, TxDmaBuffer,
    VirtIONetDevice, VirtIONetDriver, VirtIoNetImpl, VirtioInterface, VirtioNapiComplete,
    VirtioNetStep, VirtioProbe,
};
use kdrivers::pci::bar::{BarInfo, MemoryBarType, PciStandardDeviceBar};

fn page(paddr: usize) -> E1000EBuffer {
    E1000EBuffer::new(PAGE_SIZE, (paddr, 0xffff_0000 + paddr as u64))
}

fn device() -> E1000EDevice {
    let recv: Vec<E1000EBuffer> = (0..RING_LENGTH).map(|i| page(0x10_0000 + i * PAGE_SIZE)).collect();
    let trans: Vec<E1000EBuffer> = (0..RING_LENGTH).map(|i| page(0x50_0000 + i * PAGE_SIZE)).collect();
    E1000EDevice::new([2, 0, 0, 0, 0, 9], 0x1000, 0x2000, recv, trans)
}

fn recv_desc(len: u16, status: u16) -> E1000ERecvDesc {
    E1000ERecvDesc { addr: 0, len, chksum: 0, status, error: 0, special: 0 }
}

fn trans_desc(status: u8) -> E1000ETransDesc {
    E1000ETransDesc { addr: 0, len: 0, cso: 0, cmd: 0, status, css: 0, special: 0 }
}

#[test]
fn the_controller_is_set_up_register_by_register() {
    assert_eq!(
        reset(0x10),
        vec![
            RegWrite { offset: 0xd8, value: 0xffff_ffff },
            RegWrite { offset: 0, value: 0x0400_0010 },
        ]
    );
    assert_eq!(
        reset_phy(0x10),
        vec![
            RegWrite { offset: 0, value: 0x8000_0010 },
            RegWrite { offset: 0, value: 0x10 },
            RegWrite { offset: 0xd8, value: 0xffff_ffff },
        ]
    );
    assert_eq!(set_general(1), RegWrite { offset: 0x5b00, value: 0x0040_0001 });
    assert_eq!(set_link(0x1801), RegWrite { offset: 0, value: 0x41 });
    assert_eq!(mac_of(0x4433_2211, 0x8000_6655), [0x11, 0x22, 0x33, 0x44, 0x55, 0x66]);
    let table = clear_multicast_table();
    assert_eq!(table.len(), 128);
    assert_eq!(table[0], RegWrite { offset: 0x5200, value: 0 });
    assert_eq!(table[127], RegWrite { offset: 0x53fc, value: 0 });
    let receive = setup_receive(0x1_2345_6000);
    assert_eq!(receive[0], RegWrite { offset: 0x2800, value: 0x2345_6000 });
    assert_eq!(receive[1], RegWrite { offset: 0x2804, value: 1 });
    assert_eq!(receive[4], RegWrite { offset: 0x2818, value: 255 });
    assert_eq!(receive[5], RegWrite { offset: 0x100, value: 0x0603_8002 });
    let transmit = setup_transmit(0x2000);
    assert_eq!(transmit[0], RegWrite { offset: 0x3828, value: 0x0101_0000 });
    assert_eq!(transmit[7], RegWrite { offset: 0x400, value: 0x0003_f0fa });
    assert_eq!(clear_causes(4), RegWrite { offset: 0xc0, value: 4 });
    assert_eq!(enable_interrupts(), RegWrite { offset: 0xd0, value: 0x0100_0094 });
    assert_eq!(E1000EDevice::e1000e_intr_set(0, true).value, 0x80);
    assert_eq!(E1000EDevice::e1000e_intr_set(0xff, false).value, 0x7f);
    assert_eq!(E1000EDevice::e1000e_intr(5), RegWrite { offset: 0xc0, value: 5 });
    let message = recv_irq_msg(1, 2);
    assert_eq!(message.irq_common_message.irq_name, "E1000E_RECV_IRQ");
}

#[test]
fn the_controller_is_brought_up_in_order() {
    let mut startup = E1000EStartup::begin(0x1000, 0x2000);
    let mut read = Vec::new();
    let mut writes = Vec::new();
    while let Some(register) = startup.next() {
        read.push(register);
        let value = match register {
            0x5400 => 0x4433_2211,
            0x5404 => 0x8000_6655,
            _ => 0x1800,
        };
        let last = register == 0xd0;
        for write in startup.supply(value) {
            assert!(last || write.offset != 0xd0);
            writes.push(write);
        }
    }
    assert_eq!(read, vec![0, 0, 0x5b00, 0, 8, 0x5400, 0x5404, 0xc0, 0xd0]);
    assert_eq!(writes.len(), 2 + 3 + 1 + 1 + 128 + 6 + 8 + 2);
    assert_eq!(writes[0], RegWrite { offset: 0xd8, value: 0xffff_ffff });
    assert_eq!(writes[6], RegWrite { offset: 0, value: 0x40 });
    assert_eq!(startup.mac(), [0x11, 0x22, 0x33, 0x44, 0x55, 0x66]);
    assert!(startup.supply(1).is_empty());
}

fn bars(bar0: BarInfo) -> PciStandardDeviceBar {
    let mut bars = PciStandardDeviceBar::default();
    bars.set_bar(0, bar0);
    bars
}

fn memory(address: u64, size: u64, mmio_guard: Option<usize>) -> BarInfo {
    BarInfo::Memory {
        address_type: MemoryBarType::Width32,
        prefetchable: false,
        address,
        size,
        mmio_guard,
        mapped_ranges: Vec::new(),
    }
}

#[test]
fn the_registers_must_be_where_they_are_expected() {
    assert_eq!(check_bar(&bars(BarInfo::Unused)), Err(E1000EPciError::UnexpectedBarType));
    assert_eq!(
        check_bar(&bars(memory(0, 131_072, Some(1)))),
        Err(E1000EPciError::BarNotAllocated)
    );
    assert_eq!(
        check_bar(&bars(memory(0xfe00_0000, 65_536, Some(1)))),
        Err(E1000EPciError::UnexpectedBarSize)
    );
    assert_eq!(
        check_bar(&bars(memory(0xfe00_0000, 131_072, None))),
        Err(E1000EPciError::BarGetVaddrFailed)
    );
    assert_eq!(check_bar(&bars(memory(0xfe00_0000, 131_072, Some(0x9000)))), Ok(0x9000));
    assert_eq!(e1000e_probed(&Vec::new()), Ok(0));
    assert_eq!(e1000e_probed(&vec![Ok(()), Ok(())]), Ok(1));
    let failed = e1000e_probed(&vec![Ok(()), Err(E1000EPciError::BarNotAllocated)]);
    assert_eq!(failed, Err(E1000EPciError::BarNotAllocated));
    assert!(matches!(e1000e_init(Ok(1)), E1000EReport::Initialized));
    assert!(matches!(e1000e_init(Ok(0)), E1000EReport::Nothing));
    assert!(matches!(e1000e_init(failed), E1000EReport::Failed(_)));
}

#[test]
fn received_pages_leave_the_ring_for_fresh_ones() {
    let mut device = device();
    assert!(device.e1000e_receive(255, recv_desc(60, 0), page(0x99_0000)).is_none());
    let taken = device.e1000e_receive(255, recv_desc(60, 1), page(0x99_0000)).unwrap();
    assert_eq!((taken.index, taken.rdt), (0, 0));
    assert_eq!((taken.buffer.as_paddr(), taken.buffer.len()), (0x10_0000, 60));
    assert_eq!(taken.desc.addr, 0x99_0000);
    assert_eq!(device.recv_buffers[0].as_paddr(), 0x99_0000);
    assert_eq!(E1000EDevice::recv_index(255), 0);
    assert_eq!(E1000EDevice::recv_index(7), 8);
}

#[test]
fn sent_pages_stay_in_the_ring_until_their_turn_comes_again() {
    let mut device = device();
    let mut packet = page(0x77_0000);
    packet.set_length(100);
    let sent = device.e1000e_transmit(255, trans_desc(1), packet);
    assert_eq!((sent.index, sent.tdt), (255, 0));
    assert_eq!((sent.desc.addr, sent.desc.len, sent.desc.cmd, sent.desc.status), (0x77_0000, 100, 0x0b, 0));
    assert_eq!(sent.freed.map(|page| page.as_paddr()), Some(0x50_0000 + 255 * PAGE_SIZE));
    assert_eq!(device.trans_buffers[255].as_paddr(), 0x77_0000);
    assert!(!device.first_trans);
    assert!(E1000EDevice::e1000e_can_transmit(&trans_desc(1)));
    assert!(!E1000EDevice::e1000e_can_transmit(&trans_desc(0)));
    assert_eq!(device.release().len(), 2 * RING_LENGTH);

    let mut driver = E1000EDriver::new(device);
    assert!(driver.transmit(&trans_desc(0)).is_none());
    let token = driver.transmit(&trans_desc(1)).unwrap();
    let sent = E1000ETxToken::consume(token, &mut driver, 0, trans_desc(1), page(0x88_0000));
    assert_eq!(sent.desc.addr, 0x88_0000);
    let (rx, _, _) = driver.receive(3, recv_desc(40, 1), page(0xaa_0000)).unwrap();
    assert_eq!(rx.consume().map(|page| page.as_paddr()), Some(0x10_0000 + 4 * PAGE_SIZE));
}

#[test]
fn received_pages_queue_up_for_the_stack() {
    let mut ring = NapiRing::new();
    assert!(ring.is_empty());
    for i in 0..E1000E_RECV_NAPI {
        ring.push(page(0x1000 * (i + 1)));
    }
    assert!(ring.is_full());
    assert_eq!(ring.pop().map(|page| page.as_paddr()), Some(0x1000));
    ring.push(page(0x5));
    assert_eq!(ring.pop().map(|page| page.as_paddr()), Some(0x2000));

    let mut device = device();
    assert!(device.e1000e_receive2(&Vec::new()).is_none());
    let first = device.e1000e_receive2(&vec![page(0x1000), page(0x2000)]).unwrap();
    assert_eq!(first.as_paddr(), 0x1000);
    let second = device.e1000e_receive2(&Vec::new()).unwrap();
    assert_eq!(second.as_paddr(), 0x2000);
    assert!(device.e1000e_receive2(&Vec::new()).is_none());
    assert!(E1000EBuffer::new(0, (0, 0)).free_buffer().is_none());
}

#[test]
fn interrupts_find_their_instance() {
    let mut manager = E1000EIrqManager::new();
    assert_eq!(manager.register_napi(7, 70), Ok(()));
    assert!(manager.register_napi(7, 71).is_err());
    assert_eq!(manager.lookup_napi(7), Some(70));
    assert_eq!(manager.lookup_napi(8), None);
    let handler = DefaultE1000EIrqHandler {};
    assert_eq!(
        handler.handle(&manager, Some(7)),
        Ok((IrqReturn::Handled, IrqAction::Schedule(70)))
    );
    assert!(handler.handle(&manager, None).is_err());
    let (answer, action) = DefaultNetIrqHandler {}.handle();
    assert_eq!((answer, action), (IrqReturn::Handled, IrqAction::WakePollThread));
}

#[test]
fn the_interface_of_a_controller_carries_its_address() {
    let iface = e1000e_driver_init(device(), 3);
    assert_eq!(iface.mac().octets(), [2, 0, 0, 0, 0, 9]);
    assert_eq!(iface.nic_id(), 3);
    assert_eq!(iface.iface_name(), "eth3");
    assert_eq!(iface.poll(false), Err(SystemError::EAGAIN_OR_EWOULDBLOCK));
}

fn filled() -> VirtIoNetImpl {
    let free: Vec<TxDmaBuffer> = (0..4).map(TxDmaBuffer::new).collect();
    let mut net = VirtIoNetImpl::new(free);
    for token in 0..64u16 {
        assert_eq!(net.post_rx(RxDmaBuffer::new(100 + token as u64), token), Ok(()));
    }
    net
}

#[test]
fn receive_buffers_come_back_with_their_packet() {
    assert_eq!(check_queue_sizes(63, 64), Err(SystemError::ENODEV));
    assert_eq!(check_queue_sizes(64, 64), Ok(()));
    let mut net = filled();
    assert_eq!(net.receive_claim(Ok(None)), Ok(None));
    let (token, buffer) = net.receive_claim(Ok(Some(5))).unwrap().unwrap();
    assert_eq!((token, buffer.dma), (5, 105));
    let buffer = net.receive(token, buffer, Ok((12, 60))).unwrap();
    assert_eq!(buffer.packet(), (12, 72));
    assert_eq!(net.recycle_rx(buffer, Ok(5)), Ok(()));
    assert!(!net.poisoned);
    // A token that is in use already poisons the device, and the buffer stays alive.
    let (_, other) = net.receive_claim(Ok(Some(6))).unwrap().unwrap();
    assert_eq!(net.recycle_rx(other, Ok(5)), Err(SystemError::EIO));
    assert!(net.poisoned);
    assert_eq!(net.rx_quarantine.len(), 1);
    assert_eq!(net.receive_claim(Ok(Some(7))), Err(SystemError::EIO));
    assert_eq!(net.may_recycle(), Err(SystemError::EIO));
    assert_eq!(net.poll_napi(), Some(NapiPollResult { work_done: 0, poll_again: false }));
}

#[test]
fn a_completion_that_does_not_fit_poisons_the_device() {
    let mut net = filled();
    let (token, buffer) = net.receive_claim(Ok(Some(1))).unwrap().unwrap();
    assert_eq!(net.receive(token, buffer, Ok((12, 4_090))), Err(SystemError::EIO));
    assert!(net.poisoned);
    let mut net = filled();
    assert_eq!(net.receive_claim(Ok(Some(64))), Err(SystemError::EIO));
    assert!(net.poisoned);
    let mut net = filled();
    assert_eq!(net.receive_claim(Err(())), Err(SystemError::EIO));
    let mut net = filled();
    assert_eq!(net.has_rx_completion(Ok(Some(1))), Ok(true));
    assert_eq!(net.has_rx_completion(Err(())), Err(SystemError::EIO));
    assert!(net.poisoned);
}

#[test]
fn transmit_buffers_are_lent_and_reaped() {
    let mut net = filled();
    let buffer = net.try_raw_transmit(1_514, true).unwrap();
    assert_eq!(net.try_raw_transmit(1_515, true).err(), Some(SystemError::EMSGSIZE));
    assert_eq!(net.try_raw_transmit(60, false).err(), Some(SystemError::ENOBUFS));
    assert_eq!(net.submit_tx(buffer, Ok(2)), Ok(()));
    assert_eq!(net.tx_free.len(), 3);
    assert_eq!(net.reap_claim(Ok(None)), Ok(None));
    let (token, buffer) = net.reap_claim(Ok(Some(2))).unwrap().unwrap();
    assert_eq!(net.reap_tx_completions(token, buffer, true, 3), Ok(4));
    assert_eq!(net.tx_free.len(), 4);
    // One buffer is always kept back.
    let one = net.reserve_tx(true).unwrap();
    let two = net.reserve_tx(true).unwrap();
    let three = net.reserve_tx(true).unwrap();
    assert!(net.reserve_tx(true).is_none());
    net.release_tx(one);
    assert_eq!(net.submit_tx(two, Err(())), Err(SystemError::EIO));
    assert!(net.poisoned);
    assert_eq!(net.submit_tx(three, Ok(1)), Err(SystemError::EIO));
    assert_eq!(net.tx_free.len(), 4);
    assert!(!net.napi_poll_begin());
}

#[test]
fn completion_of_a_poll_looks_once_more() {
    assert!(matches!(napi_complete(true, true, true, 1, true, true), VirtioNapiComplete::Disable));
    assert!(matches!(napi_complete(false, true, false, 0, false, false), VirtioNapiComplete::Reschedule));
    assert!(matches!(napi_complete(false, false, false, 0, true, true), VirtioNapiComplete::Reschedule));
    assert!(matches!(napi_complete(false, false, false, 0, true, false), VirtioNapiComplete::Done));
    assert!(matches!(napi_complete(false, false, false, 0, false, true), VirtioNapiComplete::Done));
}

#[test]
fn virtio_devices_are_probed_and_named() {
    assert!(matches!(virtio_net(false, None), VirtioNetStep::Nothing));
    assert!(matches!(virtio_net(true, Some(Err(SystemError::EIO))), VirtioNetStep::Abort(SystemError::EIO)));
    assert!(matches!(virtio_net(true, Some(Ok(()))), VirtioNetStep::AddDevice));
    assert!(matches!(
        VirtIONetDriver::probe(false, Ok(()), Ok(())),
        VirtioProbe::Refuse(SystemError::EINVAL)
    ));
    assert!(matches!(
        VirtIONetDriver::probe(true, Err(SystemError::EIO), Ok(())),
        VirtioProbe::Fail(SystemError::EIO)
    ));
    assert!(matches!(
        VirtIONetDriver::probe(true, Ok(()), Err(SystemError::EIO)),
        VirtioProbe::RollBack(SystemError::EIO)
    ));
    assert!(matches!(VirtIONetDriver::probe(true, Ok(()), Ok(())), VirtioProbe::Linked));
    assert_eq!(eth_name(12), "eth12");
    let mut device = VirtIONetDevice::new(4, true);
    assert!(!device.handle_irq(true));
    device.set_iface(9);
    assert!(device.handle_irq(true));
    assert!(!device.handle_irq(false));
    assert_eq!(device.device_type_id(), 1);
    let iface = VirtioInterface::new(2);
    assert_eq!(iface.iface_common.name(), "eth2");
    assert!(iface.iface_common.flags().contains(InterfaceFlags::MULTICAST));
    assert_eq!(iface.capabilities().max_transmission_unit, 1_514);
}

#[test]
fn transport_output_is_drained_in_order() {
    let mut tcp = TcpOutputQueue::new();
    assert_eq!(transport_capabilities().max_transmission_unit, 65_535);
    for (tag, disposition) in [
        LocalOutputDisposition::Routed {
            oif: 3,
            next_hop: IpAddress::Ipv4(Ipv4Address { bits: 1 }),
            ip_mtu: 1500,
        },
        LocalOutputDisposition::Local { oif: 4, ip_mtu: 900 },
        LocalOutputDisposition::Drop,
    ]
    .into_iter()
    .enumerate()
    {
        let mut reservation = tcp.queue.output.reserve_output().unwrap();
        assert!(reservation.try_resize(&mut tcp.queue.output, 1));
        reservation.commit_packet(
            &mut tcp.queue.output,
            LocalOutputPacket {
                medium: Medium::Ip,
                meta: PacketMeta { id: 0 },
                disposition,
                frame: vec![tag as u8],
                charge: 1,
            },
        );
    }
    assert_eq!(tcp.begin_drain(), Ok(()));
    assert!(tcp.begin_drain().is_err());
    match tcp.drain(5, 0) {
        TcpDrainStep::Route { oif, packet, reservation } => {
            assert_eq!((oif, packet.frame.clone()), (3, vec![0]));
            assert_eq!((tcp.queue.output.reserved_frames, tcp.queue.output.reserved_bytes), (1, 1));
            tcp.settle(reservation, Some(packet.frame));
        }
        _ => panic!("the first packet is routed"),
    }
    match tcp.drain(4, 0) {
        TcpDrainStep::Deliver { oif, ip_mtu, packet, reservation } => {
            assert_eq!((oif, ip_mtu, packet.frame.clone()), (4, 900, vec![1]));
            tcp.settle(reservation, Some(packet.frame));
        }
        _ => panic!("the second packet is delivered"),
    }
    assert!(matches!(tcp.drain(3, 0), TcpDrainStep::Dropped));
    assert!(matches!(tcp.drain(2, 0), TcpDrainStep::Finished(false)));
    assert_eq!((tcp.queue.output.frames, tcp.queue.output.reserved_frames), (0, 0));
}

# kdrivers

The logic of kernel drivers for networks, the PCI bus and device trees, verified with Verus.

Nothing in the library touches hardware. A driver that has to read registers, map memory or wait is
written as a machine of steps: the library says what is to be done next, the caller does it and hands
the answer back. What the steps decide is stated in the contracts.

## Layout

- `src/base`: devices, drivers and the files by which users see them.
- `src/net`: interfaces, their queues, polling and routing; bridges and virtual pairs; the e1000e,
  virtio and loopback drivers.
  - `deferred_index`, `deferred_queue`: packets that wait for a neighbor, indexed by a Patricia trie.
  - `local_queue`, `local_output`, `output_drain`, `egress`: packets on their way out, and the bytes
    that they may take.
  - `napi`, `iface_poll`: how packets and time are shared out while interfaces are polled.
  - `wire`, `mac_table`, `memory`: the boundary to `smoltcp`, `hashbrown` and the allocator.
- `src/pci`: headers and capabilities, base addresses, interrupts by message, the scan of the buses.
- `src/open_firmware`: device trees. `blob` tells which of them the `fdt` crate can read, `fdt` reads
  them.
- `tests`: the library on concrete values.
- `app`: access to a machine, and the loops that carry out the steps.

Laws that relate several functions stand beside them as `law_..` proof functions.

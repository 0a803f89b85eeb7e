# oxide_kernel

The verified core of an agent-native microkernel: capability tables with delegation and
cascading revocation, agent lifecycle and supervision trees, message passing, shared
memory, pub/sub and request/reply, a three-level priority scheduler that gives every level a share of the CPU, a bitmap frame
allocator, a content-addressed filesystem with its on-disk image, a per-agent context
store, virtio and PCI driver decisions, capability tags and agent signatures, the ELF
checks of the loader and the system-call handlers.

- `src/` is the library, written in Verus: every public function carries a contract, and
  the properties that relate several calls (for instance that loading a synced filesystem
  image gives back its live files, or that killing an agent removes everything below it)
  are stated and proved as proof functions next to the code they speak of.
- `app/` is the kernel bring-up around the library: port and memory-mapped I/O, page
  tables, the heap, the network stack and the serial console.
- `tests/` runs the library on concrete values.

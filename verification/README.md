# sos

The logic of the S.O.S. framekernel as a Verus-verified library, with the
host tools around it.

- `src/` is the library, verified with Verus: the buddy and slab
  allocators and the kernel heap, spinlock/mutex/bitmap primitives, the
  sosfs superblock format and its consistency report, the write-ahead log and the
  copy-on-write indices of the storage engine, process isolation and IPC,
  the console and its program service, the packet-filter schema validation
  and nft script renderer, the network readiness suite, TCP tuning, the
  VirtIO driver's frame ring and DMA buffers, the TLS session states, and
  path-bound key derivation and payload encryption (SHA-256, HKDF and
  ChaCha20-Poly1305 are called through specified wrappers).
- `app/` holds what the library leaves to a program: the `fsck-sosfs`,
  `mkfs-sosfs`, `sos-pf` and `sos-readiness` command lines with their file
  and process I/O, the YAML/JSON forms of the packet-filter configuration,
  the smoltcp network stack and embedded-tls sessions, and the boot
  sequence with its console on a terminal.
- `tests/` exercises the library.

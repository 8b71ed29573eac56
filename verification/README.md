# swagos

The logic of a small x86-64 hobby kernel, written in Verus and proved against its
contracts: a network stack (Ethernet, ARP, IPv4, ICMP, UDP, TCP, DHCP, DNS, an HTTP/1.1
client), the driver-side bookkeeping of the e1000 and virtio network cards, a round-robin
task scheduler, the VGA text writer, the keyboard map and the shell line editor.

Layout:

- `src/` — the verified library. Each module states what its functions return or change
  over spec functions and views; the public `lemma_*` proof functions state the laws that
  span several calls (checksums verify after they are filled in, a header survives
  serialisation, the scheduler neither loses nor duplicates tasks, a cached DNS answer is
  read back until it expires, a DHCP offer followed by its acknowledgement configures the
  interface, ...).
- `app/` — the kernel glue that cannot be verified: port and memory-mapped I/O, DMA
  memory, interrupt-safe locks, the global state, and the loops that sleep and wait. The
  loops call the library's step functions (`dhcp_on_datagram`, `lookup_on_reply`,
  `read_step`, `connect_step`, ...) for every decision.
- `tests/` — scenarios run against the compiled library.

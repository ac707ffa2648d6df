# vm_devices

Verified cores of two virtual-machine devices.

- The device side of a virtio queue, split or packed: making a queue, finding
  the work that a driver has made available, following its descriptor chains and
  indirect tables, and completing the work.
- What a user-mode network back end knows of addresses and frames: IPv6 subnets,
  TCP SYN frames, and telling whether a frame came back to the guest.

A queue never touches guest memory itself. Each operation is a function from a
state and an event to the next state and a step: one request to guest memory, or
the operation's result. `src/memory.rs` defines requests, events and steps, and
what guest memory owes in reply.

| path | what it holds |
| --- | --- |
| `src/queue.rs`, `src/get_work.rs`, `src/complete_work.rs` | a queue and its two halves |
| `src/split.rs`, `src/packed.rs` | the two layouts of a queue |
| `src/descriptor.rs` | descriptors and the chains they form |
| `src/layout.rs`, `src/le.rs` | the structures that a queue shares with its driver |
| `src/laws/` | what holds of a queue as a whole |
| `src/net/` | addresses, frames, and loopback |
| `app/` | performs the requests of a queue on guest memory |
| `tests/` | queues run against a simulated guest, and frames parsed again |

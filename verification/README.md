# xsk_rs

Ownership of AF_XDP sockets, verified with Verus.

libxdp keeps pointers to the rings it is handed when creating a socket or
a UMEM, and reads the rings again when deleting either. This crate decides
when a socket or a UMEM is deleted and when a ring is freed, such that a
ring neither moves nor goes while libxdp may still read it, whatever the
order in which the queues of a socket are dropped.

- `src/table.rs`: reference counted objects, held in a table.
- `src/ring.rs`: producer and consumer rings, the single wrapper that
  accesses each of them, and handles that only keep them alive.
- `src/xsk/`: the heap of sockets, UMEMs and rings (`mod.rs`), handles on a
  UMEM (`umem.rs`), creating and deleting sockets (`socket.rs`), the queues
  (`queue.rs`), what holds of the heap as a whole (`laws.rs`), and where
  rings are and when their memory is freed (`memory.rs`).
- `app/`: the calls of libxdp and the memory of the rings.
- `tests/`: the library against a simulated libxdp.

The library does not call libxdp itself. Creating a socket takes the two
calls that this needs as arguments, is told by them what libxdp has
returned, and lists the deletions that are due as actions, to be carried
out in order.

//! Ownership of AF_XDP sockets and of the rings that libxdp keeps
//! pointers to.
//!
//! libxdp does not copy the rings it is handed when creating a socket or
//! a UMEM: it keeps the pointers and reads the rings again when deleting
//! either. If a ring has moved or has been freed by then, the deletion
//! unmaps a garbage address, and the device queue is never released.
//!
//! A [`Heap`] decides what is deleted and freed, and when. It is handed
//! the outcome of the calls of libxdp as plain values, and lists the
//! deletions that are due as [`Action`]s; the calls themselves are made
//! by whoever holds the heap. Creating and deleting both take the heap by
//! mutable reference, so that a lock around it serialises the two.

pub mod ring;
pub mod table;
pub mod xsk;

pub use crate::xsk::queue::{CompQueue, FillQueue, RxQueue, TxQueue};
pub use crate::xsk::socket::{
    CreateReply, CreateRequest, CtxMemory, RingArg, RingMemory, Socket, SocketConfig,
    SocketCreateError, XSK_LIBXDP_FLAGS_INHIBIT_PROG_LOAD,
};
pub use crate::xsk::umem::Umem;
pub use crate::xsk::{Action, Heap};

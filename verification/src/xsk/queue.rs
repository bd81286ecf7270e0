//! The queues of a socket.
//!
//! Each queue has a ring to itself and holds a handle to the socket,
//! which is deleted once the last of them is dropped.

use crate::ring::{XskRingCons, XskRingProd};
use crate::xsk::socket::Socket;
use crate::xsk::{Heap, Model};
use vstd::prelude::*;

verus! {

/// The transmitting side of an AF_XDP socket.
pub struct TxQueue {
    ring: XskRingProd,
    socket: Socket,
}

impl TxQueue {
    pub closed spec fn spec_ring(&self) -> XskRingProd {
        self.ring
    }

    pub closed spec fn spec_socket(&self) -> Socket {
        self.socket
    }

    /// Whether this is a queue of a socket that is alive.
    pub open spec fn valid(&self, m: Model) -> bool {
        let h = self.spec_socket().spec_handle();
        let inner = m.sockets[h.slot()].value;
        &&& crate::table::holds(m.sockets, h)
        &&& self.spec_ring().owns(m.prod)
        &&& inner.queues@.tx == h.ticket()
        &&& inner.tx_ring.spec_handle().slot() == self.spec_ring().spec_handle().slot()
    }

    pub(super) fn new(ring: XskRingProd, socket: Socket) -> (queue: TxQueue)
        ensures
            queue.spec_ring() == ring,
            queue.spec_socket() == socket,
    {
        TxQueue { ring, socket }
    }

    /// The socket that the queue belongs to.
    pub fn socket(&self) -> (socket: &Socket)
        ensures
            *socket == self.spec_socket(),
    {
        &self.socket
    }

    /// The address of the queue's ring, which stays the same for as long
    /// as the queue exists.
    pub fn ring_ptr(&self, heap: &Heap) -> (mem: usize)
        requires
            heap.wf(),
            self.valid(heap@),
        ensures
            mem == self.spec_ring().cell(heap@.prod).mem,
            mem != 0,
    {
        self.ring.as_ptr(&heap.prod)
    }

    /// Gives up the queue, and with it its ring and its handle on the
    /// socket.
    pub fn drop(self, heap: &mut Heap)
        requires
            old(heap).wf(),
            self.valid(old(heap)@),
        ensures
            final(heap).wf(),
            final(heap)@ == old(heap)@.release_prod(
                self.spec_ring().spec_handle(),
            ).release_socket(self.spec_socket().spec_handle()),
    {
        let ghost m = heap@;
        let ghost cu = heap.cons_users@;
        let ghost pu = heap.prod_users@;
        let ghost s = self.socket.spec_handle().slot();
        let ghost t = self.socket.spec_handle().ticket();
        let ghost r = self.ring.spec_handle();
        proof {
            assert(m.socket_ok(cu, pu, s));
            let kept = m.sockets[s].value.tx_ring.spec_handle();
            assert(m.prod[r.slot()].holders.contains(kept.ticket()));
        }
        self.ring.drop(&mut heap.prod);
        proof {
            let n = heap.with_socket(s, m.sockets[s].value, m.sockets[s].holders.remove(t));
            assert(n.prod.dom() =~= m.prod.dom());
            crate::xsk::lemma_holder_removed(m, n, cu, pu, s, t);
        }
        self.socket.release(heap);
    }
}

/// The receiving side of an AF_XDP socket.
pub struct RxQueue {
    ring: XskRingCons,
    socket: Socket,
}

impl RxQueue {
    pub closed spec fn spec_ring(&self) -> XskRingCons {
        self.ring
    }

    pub closed spec fn spec_socket(&self) -> Socket {
        self.socket
    }

    /// Whether this is a queue of a socket that is alive.
    pub open spec fn valid(&self, m: Model) -> bool {
        let h = self.spec_socket().spec_handle();
        let inner = m.sockets[h.slot()].value;
        &&& crate::table::holds(m.sockets, h)
        &&& self.spec_ring().owns(m.cons)
        &&& inner.queues@.rx == h.ticket()
        &&& inner.rx_ring.spec_handle().slot() == self.spec_ring().spec_handle().slot()
    }

    pub(super) fn new(ring: XskRingCons, socket: Socket) -> (queue: RxQueue)
        ensures
            queue.spec_ring() == ring,
            queue.spec_socket() == socket,
    {
        RxQueue { ring, socket }
    }

    /// The socket that the queue belongs to.
    pub fn socket(&self) -> (socket: &Socket)
        ensures
            *socket == self.spec_socket(),
    {
        &self.socket
    }

    /// The address of the queue's ring, which stays the same for as long
    /// as the queue exists.
    pub fn ring_ptr(&self, heap: &Heap) -> (mem: usize)
        requires
            heap.wf(),
            self.valid(heap@),
        ensures
            mem == self.spec_ring().cell(heap@.cons).mem,
            mem != 0,
    {
        self.ring.as_ptr(&heap.cons)
    }

    /// Gives up the queue, and with it its ring and its handle on the
    /// socket.
    pub fn drop(self, heap: &mut Heap)
        requires
            old(heap).wf(),
            self.valid(old(heap)@),
        ensures
            final(heap).wf(),
            final(heap)@ == old(heap)@.release_cons(
                self.spec_ring().spec_handle(),
            ).release_socket(self.spec_socket().spec_handle()),
    {
        let ghost m = heap@;
        let ghost cu = heap.cons_users@;
        let ghost pu = heap.prod_users@;
        let ghost s = self.socket.spec_handle().slot();
        let ghost t = self.socket.spec_handle().ticket();
        let ghost r = self.ring.spec_handle();
        proof {
            assert(m.socket_ok(cu, pu, s));
            let kept = m.sockets[s].value.rx_ring.spec_handle();
            assert(m.cons[r.slot()].holders.contains(kept.ticket()));
        }
        self.ring.drop(&mut heap.cons);
        proof {
            let n = heap.with_socket(s, m.sockets[s].value, m.sockets[s].holders.remove(t));
            assert(n.cons.dom() =~= m.cons.dom());
            crate::xsk::lemma_holder_removed(m, n, cu, pu, s, t);
        }
        self.socket.release(heap);
    }
}

/// Used to transfer ownership of frames from user-space to kernel-space.
pub struct FillQueue {
    ring: XskRingProd,
    socket: Socket,
}

impl FillQueue {
    pub closed spec fn spec_ring(&self) -> XskRingProd {
        self.ring
    }

    pub closed spec fn spec_socket(&self) -> Socket {
        self.socket
    }

    /// Whether this is a queue of a socket that is alive.
    pub open spec fn valid(&self, m: Model) -> bool {
        let h = self.spec_socket().spec_handle();
        let inner = m.sockets[h.slot()].value;
        &&& crate::table::holds(m.sockets, h)
        &&& self.spec_ring().owns(m.prod)
        &&& inner.queues@.ctx matches Some(c)
        &&& c.fill == h.ticket()
        &&& m.umems[inner.umem.spec_handle().slot()].value.ctxs[c.index].fill.spec_handle().slot()
            == self.spec_ring().spec_handle().slot()
    }

    pub(super) fn new(ring: XskRingProd, socket: Socket) -> (queue: FillQueue)
        ensures
            queue.spec_ring() == ring,
            queue.spec_socket() == socket,
    {
        FillQueue { ring, socket }
    }

    /// The socket that the queue belongs to.
    pub fn socket(&self) -> (socket: &Socket)
        ensures
            *socket == self.spec_socket(),
    {
        &self.socket
    }

    /// The address of the queue's ring, which stays the same for as long
    /// as the queue exists.
    pub fn ring_ptr(&self, heap: &Heap) -> (mem: usize)
        requires
            heap.wf(),
            self.valid(heap@),
        ensures
            mem == self.spec_ring().cell(heap@.prod).mem,
            mem != 0,
    {
        self.ring.as_ptr(&heap.prod)
    }

    /// Gives up the queue, and with it its ring and its handle on the
    /// socket.
    pub fn drop(self, heap: &mut Heap)
        requires
            old(heap).wf(),
            self.valid(old(heap)@),
        ensures
            final(heap).wf(),
            final(heap)@ == old(heap)@.release_prod(
                self.spec_ring().spec_handle(),
            ).release_socket(self.spec_socket().spec_handle()),
    {
        let ghost m = heap@;
        let ghost cu = heap.cons_users@;
        let ghost pu = heap.prod_users@;
        let ghost s = self.socket.spec_handle().slot();
        let ghost t = self.socket.spec_handle().ticket();
        let ghost r = self.ring.spec_handle();
        proof {
            assert(m.socket_ok(cu, pu, s));
            let u = m.sockets[s].value.umem.spec_handle().slot();
            let j = m.sockets[s].value.queues@.ctx->0.index;
            let ctx = m.umems[u].value.ctxs[j];
            assert(m.ctx_ok(cu, pu, u, j));
            let kept = ctx.fill.spec_handle();
            assert(m.prod[r.slot()].holders.contains(kept.ticket()));
        }
        self.ring.drop(&mut heap.prod);
        proof {
            let n = heap.with_socket(s, m.sockets[s].value, m.sockets[s].holders.remove(t));
            assert(n.prod.dom() =~= m.prod.dom());
            crate::xsk::lemma_holder_removed(m, n, cu, pu, s, t);
        }
        self.socket.release(heap);
    }
}

/// Used to transfer ownership of frames from kernel-space to user-space.
pub struct CompQueue {
    ring: XskRingCons,
    socket: Socket,
}

impl CompQueue {
    pub closed spec fn spec_ring(&self) -> XskRingCons {
        self.ring
    }

    pub closed spec fn spec_socket(&self) -> Socket {
        self.socket
    }

    /// Whether this is a queue of a socket that is alive.
    pub open spec fn valid(&self, m: Model) -> bool {
        let h = self.spec_socket().spec_handle();
        let inner = m.sockets[h.slot()].value;
        &&& crate::table::holds(m.sockets, h)
        &&& self.spec_ring().owns(m.cons)
        &&& inner.queues@.ctx matches Some(c)
        &&& c.comp == h.ticket()
        &&& m.umems[inner.umem.spec_handle().slot()].value.ctxs[c.index].comp.spec_handle().slot()
            == self.spec_ring().spec_handle().slot()
    }

    pub(super) fn new(ring: XskRingCons, socket: Socket) -> (queue: CompQueue)
        ensures
            queue.spec_ring() == ring,
            queue.spec_socket() == socket,
    {
        CompQueue { ring, socket }
    }

    /// The socket that the queue belongs to.
    pub fn socket(&self) -> (socket: &Socket)
        ensures
            *socket == self.spec_socket(),
    {
        &self.socket
    }

    /// The address of the queue's ring, which stays the same for as long
    /// as the queue exists.
    pub fn ring_ptr(&self, heap: &Heap) -> (mem: usize)
        requires
            heap.wf(),
            self.valid(heap@),
        ensures
            mem == self.spec_ring().cell(heap@.cons).mem,
            mem != 0,
    {
        self.ring.as_ptr(&heap.cons)
    }

    /// Gives up the queue, and with it its ring and its handle on the
    /// socket.
    pub fn drop(self, heap: &mut Heap)
        requires
            old(heap).wf(),
            self.valid(old(heap)@),
        ensures
            final(heap).wf(),
            final(heap)@ == old(heap)@.release_cons(
                self.spec_ring().spec_handle(),
            ).release_socket(self.spec_socket().spec_handle()),
    {
        let ghost m = heap@;
        let ghost cu = heap.cons_users@;
        let ghost pu = heap.prod_users@;
        let ghost s = self.socket.spec_handle().slot();
        let ghost t = self.socket.spec_handle().ticket();
        let ghost r = self.ring.spec_handle();
        proof {
            assert(m.socket_ok(cu, pu, s));
            let u = m.sockets[s].value.umem.spec_handle().slot();
            let j = m.sockets[s].value.queues@.ctx->0.index;
            let ctx = m.umems[u].value.ctxs[j];
            assert(m.ctx_ok(cu, pu, u, j));
            let kept = ctx.comp.spec_handle();
            assert(m.cons[r.slot()].holders.contains(kept.ticket()));
        }
        self.ring.drop(&mut heap.cons);
        proof {
            let n = heap.with_socket(s, m.sockets[s].value, m.sockets[s].holders.remove(t));
            assert(n.cons.dom() =~= m.cons.dom());
            crate::xsk::lemma_holder_removed(m, n, cu, pu, s, t);
        }
        self.socket.release(heap);
    }
}

} // verus!

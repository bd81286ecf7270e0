//! What calls of the library's functions return and leave behind, alone and
//! one after the other.

use crate::ring::{
    RingTable, XskRing, XskRingCons, XskRingConsHandle, XskRingProd, XskRingProdHandle,
};
use crate::table::{Handle, RefTable};
use crate::xsk::laws::Holder;
use crate::xsk::queue::{CompQueue, FillQueue, RxQueue, TxQueue};
use crate::xsk::socket::{
    CreateReply, CreateRequest, Created, RingMemory, Socket, SocketConfig, SocketCreateError,
};
use crate::xsk::umem::Umem;
use crate::xsk::{Action, Device, Heap};
use vstd::prelude::*;

verus! {

/// An object that is put into a table is in a slot of its own, as it is, with
/// the returned handle for its only holder. All others are as they were.
pub proof fn law_call_share<T>(table: &mut RefTable<T>, value: T, h: Handle, k: usize, t: nat)
    requires
        call_ensures(RefTable::<T>::share, (table, value), h),
    ensures
        final(table).wf(),
        !old(table)@.contains_key(h.slot()),
        final(table)@.contains_key(h.slot()),
        final(table)@[h.slot()].value == value,
        final(table)@[h.slot()].holders.contains(t) <==> t == h.ticket(),
        k != h.slot() ==> (final(table)@.contains_key(k) <==> old(table)@.contains_key(k)),
        old(table)@.contains_key(k) ==> final(table)@[k] == old(table)@[k],
{
}

/// Another handle on an object is a holder more, and nothing else.
pub proof fn law_call_retain<T>(
    table: &mut RefTable<T>,
    h: &Handle,
    r: Handle,
    k: usize,
    t: nat,
)
    requires
        old(table)@.contains_key(h.slot()),
        call_ensures(RefTable::<T>::retain, (table, h), r),
    ensures
        final(table).wf(),
        r.slot() == h.slot(),
        final(table)@.contains_key(k) <==> old(table)@.contains_key(k),
        old(table)@.contains_key(k) ==> {
            &&& final(table)@[k].value == old(table)@[k].value
            &&& final(table)@[k].holders.contains(t) <==> old(table)@[k].holders.contains(t) || k
                == h.slot() && t == r.ticket()
        },
{
}

/// A handle that is given up is a holder fewer. The object leaves the table
/// and is handed back exactly if there was no other.
pub proof fn law_call_release<T>(
    table: &mut RefTable<T>,
    h: Handle,
    r: Option<T>,
    k: usize,
    t: nat,
)
    requires
        old(table)@.contains_key(h.slot()),
        old(table)@[h.slot()].holders.contains(h.ticket()),
        call_ensures(RefTable::<T>::release, (table, h), r),
    ensures
        final(table).wf(),
        r is None <==> exists|o: nat| #[trigger]
            old(table)@[h.slot()].holders.contains(o) && o != h.ticket(),
        r matches Some(value) ==> value == old(table)@[h.slot()].value,
        final(table)@.contains_key(k) <==> old(table)@.contains_key(k) && (k != h.slot()
            || r is None),
        final(table)@.contains_key(k) ==> {
            &&& final(table)@[k].value == old(table)@[k].value
            &&& final(table)@[k].holders.contains(t) <==> old(table)@[k].holders.contains(t) && !(k
                == h.slot() && t == h.ticket())
        },
{
    crate::xsk::effects::law_last_holder_is_alone(old(table)@[h.slot()], h.ticket());
    if r is None {
        let o = choose|o: nat| #[trigger]
            old(table)@[h.slot()].holders.contains(o) && o != h.ticket();
        assert(old(table)@[h.slot()].holders.contains(o));
    }
}

/// A handle reads the object in its own slot.
pub proof fn law_call_get<T>(table: &RefTable<T>, h: &Handle, value: &T)
    requires
        call_ensures(RefTable::<T>::get, (table, h), value),
    ensures
        *value == table@[h.slot()].value,
{
}

/// What is done to an object through a handle is done to the object in its
/// slot, and to no other. Its holders stay what they are.
pub proof fn law_call_get_mut<T>(
    table: &mut RefTable<T>,
    h: &Handle,
    value: &mut T,
    k: usize,
)
    requires
        old(table)@.contains_key(h.slot()),
        call_ensures(RefTable::<T>::get_mut, (table, h), value),
    ensures
        final(table).wf(),
        *old(value) == old(table)@[h.slot()].value,
        final(table)@[h.slot()].value == *final(value),
        final(table)@.contains_key(k) <==> old(table)@.contains_key(k),
        old(table)@.contains_key(k) ==> final(table)@[k].holders == old(table)@[k].holders,
        old(table)@.contains_key(k) && k != h.slot() ==> final(table)@[k] == old(table)@[k],
{
}

/// There is nothing in a new table.
pub proof fn law_call_table_new<T>(table: RefTable<T>, k: usize)
    requires
        call_ensures(RefTable::<T>::new, (), table),
    ensures
        table.wf(),
        !table@.contains_key(k),
{
}

/// A ring that libxdp has not set up holds zeroes and null pointers only.
pub proof fn law_call_default(ring: XskRing)
    requires
        call_ensures(<XskRing as Default>::default, (), ring),
    ensures
        crate::xsk::effects::zero(ring),
{
}

/// Nothing is alive on a new heap, and nothing is due.
pub proof fn law_call_heap_new(heap: Heap, k: usize)
    requires
        call_ensures(Heap::new, (), heap),
    ensures
        heap.wf(),
        !heap@.sockets.contains_key(k),
        !heap@.umems.contains_key(k),
        !heap@.cons.contains_key(k),
        !heap@.prod.contains_key(k),
        heap@.actions.len() == 0,
{
}

/// The actions that are due are handed out in order, and are then no longer
/// due. All else is as it was.
pub proof fn law_call_take_actions(heap: &mut Heap, actions: Vec<Action>)
    requires
        call_ensures(Heap::take_actions, (heap,), actions),
    ensures
        final(heap).wf(),
        actions@ == old(heap)@.actions,
        final(heap)@.actions.len() == 0,
        final(heap)@.sockets == old(heap)@.sockets,
        final(heap)@.umems == old(heap)@.umems,
        final(heap)@.cons == old(heap)@.cons,
        final(heap)@.prod == old(heap)@.prod,
{
}

/// A new UMEM is at the address that it was created with, and its rings are
/// where they were set up, with what they hold. See
/// [`law_new_umem`](crate::xsk::effects::law_new_umem).
pub proof fn law_call_umem_new(
    heap: &mut Heap,
    ptr: usize,
    fill_mem: usize,
    fill: XskRing,
    comp_mem: usize,
    comp: XskRing,
    umem: Umem,
)
    requires
        call_ensures(Umem::new, (heap, ptr, fill_mem, fill, comp_mem, comp), umem),
    ensures
        final(heap).wf(),
        umem.valid(final(heap)@),
        final(heap)@.umems[umem.spec_handle().slot()].value.ptr == ptr,
        crate::xsk::umem::umem_added(
            old(heap)@,
            final(heap)@,
            umem,
            ptr,
            fill_mem,
            fill,
            comp_mem,
            comp,
        ),
{
}

/// A UMEM can be created with rings in vacant memory, which is not the same
/// for both.
pub proof fn law_can_call_umem_new(
    heap: &mut Heap,
    ptr: usize,
    fill_mem: usize,
    fill: XskRing,
    comp_mem: usize,
    comp: XskRing,
)
    requires
        old(heap).wf(),
        old(heap)@.vacant(fill_mem),
        old(heap)@.vacant(comp_mem),
        fill_mem != comp_mem,
    ensures
        call_requires(Umem::new, (heap, ptr, fill_mem, fill, comp_mem, comp)),
{
}

/// A UMEM says that it has saved rings exactly if it has those that it was
/// created with.
pub proof fn law_call_has_saved_rings(umem: &Umem, heap: &Heap, b: bool)
    requires
        call_ensures(Umem::has_saved_rings, (umem, heap), b),
    ensures
        b <==> heap@.umems[umem.spec_handle().slot()].value.saved is Some,
{
}

/// A clone of a handle on a UMEM is another handle on the same UMEM. See
/// [`law_umem_clone_adds_a_holder`](crate::xsk::effects::law_umem_clone_adds_a_holder).
pub proof fn law_call_umem_clone(umem: &Umem, heap: &mut Heap, other: Umem)
    requires
        call_ensures(Umem::clone, (umem, heap), other),
    ensures
        final(heap).wf(),
        umem.valid(final(heap)@),
        other.valid(final(heap)@),
        other.spec_handle().slot() == umem.spec_handle().slot(),
        other.spec_handle() != umem.spec_handle(),
        !crate::table::holds(old(heap)@.umems, other.spec_handle()),
        final(heap)@ == old(heap)@.retain_umem(other.spec_handle()),
{
}

/// Requests through a handle on a UMEM and through its clone name the same
/// UMEM, which is that of a request before the clone was made.
pub proof fn law_clone_requests_the_same_umem(
    umem: &Umem,
    heap: &mut Heap,
    other: Umem,
    config: SocketConfig,
    if_name: Vec<u8>,
    queue_id: u32,
    mem: RingMemory,
    before: CreateRequest,
    after: CreateRequest,
    through: CreateRequest,
)
    requires
        umem.valid(old(heap)@),
        call_ensures(Umem::clone, (umem, heap), other),
        call_ensures(
            Socket::request,
            (&*old(heap), umem, config, if_name, queue_id, mem),
            before,
        ),
        call_ensures(
            Socket::request,
            (&*final(heap), umem, config, if_name, queue_id, mem),
            after,
        ),
        call_ensures(
            Socket::request,
            (&*final(heap), &other, config, if_name, queue_id, mem),
            through,
        ),
    ensures
        before.umem == old(heap)@.umems[umem.spec_handle().slot()].value.ptr,
        after.umem == before.umem,
        through.umem == before.umem,
        through.fill == before.fill,
        through.comp == before.comp,
        through.rx == before.rx,
        through.tx == before.tx,
{
}

/// Giving up a handle on a UMEM is as
/// [`law_umem_drop_removes_a_holder`](crate::xsk::effects::law_umem_drop_removes_a_holder)
/// and
/// [`law_last_umem_drop_deletes_it`](crate::xsk::effects::law_last_umem_drop_deletes_it)
/// say.
pub proof fn law_call_umem_drop(umem: Umem, heap: &mut Heap)
    requires
        call_ensures(Umem::drop, (umem, heap), ()),
    ensures
        final(heap).wf(),
        final(heap)@ == old(heap)@.release_umem(umem.spec_handle()),
{
}

/// A handle on a UMEM can always be given up.
pub proof fn law_can_call_umem_drop(umem: Umem, heap: &mut Heap)
    requires
        old(heap).wf(),
        umem.valid(old(heap)@),
    ensures
        call_requires(Umem::drop, (umem, heap)),
{
}

/// A request is for what was asked. See
/// [`law_request_asks_for_what_was_given`](crate::xsk::effects::law_request_asks_for_what_was_given).
pub proof fn law_call_request(
    heap: &Heap,
    umem: &Umem,
    config: SocketConfig,
    if_name: Vec<u8>,
    queue_id: u32,
    mem: RingMemory,
    request: CreateRequest,
)
    requires
        call_ensures(Socket::request, (heap, umem, config, if_name, queue_id, mem), request),
    ensures
        request.fits(heap@, umem.spec_handle().slot()),
        request.asks(config, if_name@, queue_id, mem),
        request.umem == heap@.umems[umem.spec_handle().slot()].value.ptr,
        request.if_name@ == if_name@,
        request.queue_id == queue_id,
        request.config == config,
        request.rx.mem == mem.rx,
        request.tx.mem == mem.tx,
{
}

/// A socket can be asked for with memory that fits, provided that it is not
/// the second on a device to have a program loaded for it.
pub proof fn law_can_call_request(
    heap: &Heap,
    umem: &Umem,
    config: SocketConfig,
    if_name: Vec<u8>,
    queue_id: u32,
    mem: RingMemory,
)
    requires
        heap.wf(),
        umem.valid(heap@),
        mem.fits(heap@, umem.spec_handle().slot()),
        heap@.bound(umem.spec_handle().slot(), (Device { if_name: if_name@, queue_id }))
            ==> config.libxdp_flags & 1u32 != 0,
    ensures
        call_requires(Socket::request, (heap, umem, config, if_name, queue_id, mem)),
{
}

/// What comes of a reply is as the laws on outcomes say.
pub proof fn law_call_complete(
    heap: &mut Heap,
    umem: &Umem,
    request: &CreateRequest,
    reply: &CreateReply,
    fd: Option<i32>,
    res: Created,
)
    requires
        call_ensures(Socket::complete, (heap, umem, request, reply, fd), res),
    ensures
        final(heap).wf(),
        umem.valid(final(heap)@),
        crate::xsk::socket::outcome(
            old(heap)@,
            final(heap)@,
            umem.spec_handle().slot(),
            *request,
            *reply,
            fd,
            res,
        ),
{
}

/// Any reply to a request is accepted, with a file descriptor exactly if there
/// is a socket to have one.
pub proof fn law_can_call_complete(
    heap: &mut Heap,
    umem: &Umem,
    request: &CreateRequest,
    reply: &CreateReply,
    fd: Option<i32>,
)
    requires
        old(heap).wf(),
        umem.valid(old(heap)@),
        old(heap)@.umems[umem.spec_handle().slot()].holders.len() < usize::MAX,
        request.fits(old(heap)@, umem.spec_handle().slot()),
        (fd is Some) <==> reply.err == 0 && reply.socket != 0,
    ensures
        call_requires(Socket::complete, (heap, umem, request, reply, fd)),
{
}

/// Creating a socket asks libxdp for one, once, with a request for what was
/// asked, asks for the file descriptor exactly if there is a socket, and
/// returns what comes of the reply: a socket if and only if nothing is wrong
/// with it.
pub proof fn law_call_new<F: FnOnce(&CreateRequest) -> CreateReply, G: FnOnce(usize) -> i32>(
    heap: &mut Heap,
    umem: &Umem,
    config: SocketConfig,
    if_name: Vec<u8>,
    queue_id: u32,
    mem: RingMemory,
    create: F,
    fd_of: G,
    res: Created,
)
    requires
        call_ensures(
            Socket::new::<F, G>,
            (heap, umem, config, if_name, queue_id, mem, create, fd_of),
            res,
        ),
    ensures
        final(heap).wf(),
        umem.valid(final(heap)@),
        exists|request: CreateRequest, reply: CreateReply, fd: Option<i32>|
            {
                &&& request.fits(old(heap)@, umem.spec_handle().slot())
                &&& request.umem == old(heap)@.umems[umem.spec_handle().slot()].value.ptr
                &&& request.if_name@ == if_name@
                &&& request.queue_id == queue_id
                &&& request.config == config
                &&& request.rx.mem == mem.rx
                &&& request.tx.mem == mem.tx
                &&& call_ensures(create, (&request,), reply)
                &&& fd is Some <==> reply.err == 0 && reply.socket != 0
                &&& fd matches Some(fd) ==> call_ensures(fd_of, (reply.socket,), fd)
                &&& res is Ok <==> {
                    &&& reply.err == 0
                    &&& reply.socket != 0
                    &&& fd->0 >= 0
                    &&& reply.tx.ring != 0
                    &&& reply.rx.ring != 0
                    &&& reply.fill.ring == 0 <==> reply.comp.ring == 0
                }
                &&& #[trigger] crate::xsk::socket::outcome(
                    old(heap)@,
                    final(heap)@,
                    umem.spec_handle().slot(),
                    request,
                    reply,
                    fd,
                    res,
                )
            },
{
}

/// A reply makes a socket exactly if it reports no error, has a socket and
/// rings for transmitting and receiving, both or neither of the fill and comp
/// rings, and a file descriptor that is not negative.
pub proof fn law_complete_succeeds_when(
    heap: &mut Heap,
    umem: &Umem,
    request: &CreateRequest,
    reply: &CreateReply,
    fd: Option<i32>,
    res: Created,
)
    requires
        (fd is Some) <==> reply.err == 0 && reply.socket != 0,
        call_ensures(Socket::complete, (heap, umem, request, reply, fd), res),
    ensures
        res is Ok <==> {
            &&& reply.err == 0
            &&& reply.socket != 0
            &&& fd matches Some(fd)
            &&& fd >= 0
            &&& reply.tx.ring != 0
            &&& reply.rx.ring != 0
            &&& reply.fill.ring == 0 <==> reply.comp.ring == 0
        },
        res matches Ok((_, _, ctx_q)) ==> (ctx_q is Some <==> reply.fill.ring != 0
            && reply.comp.ring != 0),
{
}

/// The text and the number of an error are those of the outcome that it comes
/// from: a negative result of libxdp is reported by its positive number.
pub proof fn law_error_of_a_refused_socket(
    heap: &mut Heap,
    umem: &Umem,
    request: &CreateRequest,
    reply: &CreateReply,
    fd: Option<i32>,
    e: SocketCreateError,
    text: String,
    source: Option<i32>,
)
    requires
        (fd is Some) <==> reply.err == 0 && reply.socket != 0,
        call_ensures(Socket::complete, (heap, umem, request, reply, fd), Err(e)),
        call_ensures(SocketCreateError::to_string, (&e,), text),
        call_ensures(SocketCreateError::source, (&e,), source),
    ensures
        source is Some <==> reply.err != 0,
        reply.err != 0 && reply.err != i32::MIN ==> source->0 + reply.err == 0,
        reply.err == i32::MIN ==> source->0 == i32::MIN,
        reply.err != 0 ==> text@ == "non-zero error code returned when creating AF_XDP socket"@,
        reply.err == 0 && reply.socket == 0 ==> text@ == "returned socket pointer was null"@,
        reply.err == 0 && reply.socket != 0 ==> {
            let (tx, rx) = (reply.tx.ring, reply.rx.ring);
            &&& fd->0 < 0 ==> text@ == "failed to retrieve AF_XDP socket file descriptor"@
            &&& fd->0 >= 0 && tx == 0 ==> text@ == "returned tx queue ring is null"@
            &&& fd->0 >= 0 && tx != 0 && rx == 0 ==> text@ == "returned rx queue ring is null"@
            &&& fd->0 >= 0 && tx != 0 && rx != 0 ==> text@
                == "fill queue xor comp queue ring is null, either both or neither should be non-null"@
        },
{
    crate::xsk::effects::law_refusal_is_explained(
        old(heap)@,
        final(heap)@,
        umem.spec_handle().slot(),
        *request,
        *reply,
        fd,
        e,
    );
}

/// Queues of a socket that has been created have the file descriptor that
/// libxdp has given, belong to the socket that it has returned, and access
/// rings at the addresses that it was handed.
pub proof fn law_queues_are_what_libxdp_has_made(
    heap: &mut Heap,
    umem: &Umem,
    request: &CreateRequest,
    reply: &CreateReply,
    fd: Option<i32>,
    tx_q: TxQueue,
    rx_q: RxQueue,
    ctx_q: Option<(FillQueue, CompQueue)>,
    tx_fd: i32,
    rx_fd: i32,
    tx_mem: usize,
    rx_mem: usize,
    ptr: usize,
    rx_ring: usize,
    tx_ring: usize,
)
    requires
        call_ensures(
            Socket::complete,
            (heap, umem, request, reply, fd),
            Ok((tx_q, rx_q, ctx_q)),
        ),
        call_ensures(Socket::fd, (&tx_q.spec_socket(),), tx_fd),
        call_ensures(Socket::fd, (&rx_q.spec_socket(),), rx_fd),
        call_ensures(TxQueue::ring_ptr, (&tx_q, &*final(heap)), tx_mem),
        call_ensures(RxQueue::ring_ptr, (&rx_q, &*final(heap)), rx_mem),
        call_ensures(Socket::as_ptr, (&rx_q.spec_socket(), &*final(heap)), ptr),
        call_ensures(Socket::rx_ring_ptr, (&tx_q.spec_socket(), &*final(heap)), rx_ring),
        call_ensures(Socket::tx_ring_ptr, (&rx_q.spec_socket(), &*final(heap)), tx_ring),
    ensures
        tx_fd == fd->0,
        rx_fd == fd->0,
        tx_mem == request.tx.mem,
        rx_mem == request.rx.mem,
        ptr == reply.socket,
        rx_ring == request.rx.mem,
        tx_ring == request.tx.mem,
{
}

/// Fill and completion queues that are returned have the file descriptor that
/// libxdp has given and access rings at the addresses that it was handed.
pub proof fn law_ctx_queues_are_what_libxdp_has_made(
    heap: &mut Heap,
    umem: &Umem,
    request: &CreateRequest,
    reply: &CreateReply,
    fd: Option<i32>,
    tx_q: TxQueue,
    rx_q: RxQueue,
    fq: FillQueue,
    cq: CompQueue,
    fill_fd: i32,
    comp_fd: i32,
    fill_mem: usize,
    comp_mem: usize,
)
    requires
        call_ensures(
            Socket::complete,
            (heap, umem, request, reply, fd),
            Ok((tx_q, rx_q, Some((fq, cq)))),
        ),
        call_ensures(Socket::fd, (&fq.spec_socket(),), fill_fd),
        call_ensures(Socket::fd, (&cq.spec_socket(),), comp_fd),
        call_ensures(FillQueue::ring_ptr, (&fq, &*final(heap)), fill_mem),
        call_ensures(CompQueue::ring_ptr, (&cq, &*final(heap)), comp_mem),
    ensures
        fill_fd == fd->0,
        comp_fd == fd->0,
        fill_mem == request.fill.mem,
        comp_mem == request.comp.mem,
{
}

/// A clone of a socket is another handle on the same socket, with the same
/// file descriptor. See
/// [`law_clone_adds_a_holder`](crate::xsk::effects::law_clone_adds_a_holder).
pub proof fn law_call_clone(socket: &Socket, heap: &mut Heap, other: Socket)
    requires
        call_ensures(Socket::clone, (socket, heap), other),
    ensures
        final(heap).wf(),
        other.valid(final(heap)@),
        other.spec_handle().slot() == socket.spec_handle().slot(),
        !crate::table::holds(old(heap)@.sockets, other.spec_handle()),
        final(heap)@ == old(heap)@.retain_socket(other.spec_handle()),
{
}

/// Through a socket and through its clone the file descriptor, the address of
/// the socket and those of its rings are what they were before.
pub proof fn law_clone_is_of_the_same_socket(
    socket: &Socket,
    heap: &mut Heap,
    other: Socket,
    fds: (i32, i32),
    ptrs: (usize, usize, usize),
    rx_rings: (usize, usize),
    tx_rings: (usize, usize),
)
    requires
        old(heap)@.sockets.contains_key(socket.spec_handle().slot()),
        call_ensures(Socket::clone, (socket, heap), other),
        call_ensures(Socket::fd, (socket,), fds.0),
        call_ensures(Socket::fd, (&other,), fds.1),
        call_ensures(Socket::as_ptr, (socket, &*old(heap)), ptrs.0),
        call_ensures(Socket::as_ptr, (socket, &*final(heap)), ptrs.1),
        call_ensures(Socket::as_ptr, (&other, &*final(heap)), ptrs.2),
        call_ensures(Socket::rx_ring_ptr, (socket, &*old(heap)), rx_rings.0),
        call_ensures(Socket::rx_ring_ptr, (&other, &*final(heap)), rx_rings.1),
        call_ensures(Socket::tx_ring_ptr, (socket, &*old(heap)), tx_rings.0),
        call_ensures(Socket::tx_ring_ptr, (&other, &*final(heap)), tx_rings.1),
    ensures
        fds.0 == fds.1,
        ptrs.0 == ptrs.1,
        ptrs.0 == ptrs.2,
        rx_rings.0 == rx_rings.1,
        tx_rings.0 == tx_rings.1,
{
}

/// A handle on a socket that is alive can be cloned, unless there are too many
/// to count.
pub proof fn law_can_call_clone(socket: &Socket, heap: &mut Heap)
    requires
        old(heap).wf(),
        old(heap)@.sockets.contains_key(socket.spec_handle().slot()),
        old(heap)@.sockets[socket.spec_handle().slot()].holders.contains(
            socket.spec_handle().ticket(),
        ),
        old(heap)@.sockets[socket.spec_handle().slot()].holders.len() < usize::MAX,
    ensures
        call_requires(Socket::clone, (socket, heap)),
{
}

/// A handle on a UMEM that is alive can be cloned, unless there are too many
/// to count.
pub proof fn law_can_call_umem_clone(umem: &Umem, heap: &mut Heap)
    requires
        old(heap).wf(),
        umem.valid(old(heap)@),
        old(heap)@.umems[umem.spec_handle().slot()].holders.len() < usize::MAX,
    ensures
        call_requires(Umem::clone, (umem, heap)),
{
}

/// Dropping a tx queue is as the laws on [`Holder`] say.
pub proof fn law_call_tx_drop(queue: TxQueue, heap: &mut Heap)
    requires
        call_ensures(TxQueue::drop, (queue, heap), ()),
    ensures
        final(heap).wf(),
        final(heap)@ == Holder::Tx(queue).dropped(old(heap)@),
{
}

/// A tx queue can always be dropped.
pub proof fn law_can_call_tx_drop(queue: TxQueue, heap: &mut Heap)
    requires
        old(heap).wf(),
        queue.valid(old(heap)@),
    ensures
        call_requires(TxQueue::drop, (queue, heap)),
{
}

/// Dropping an rx queue is as the laws on [`Holder`] say.
pub proof fn law_call_rx_drop(queue: RxQueue, heap: &mut Heap)
    requires
        call_ensures(RxQueue::drop, (queue, heap), ()),
    ensures
        final(heap).wf(),
        final(heap)@ == Holder::Rx(queue).dropped(old(heap)@),
{
}

/// An rx queue can always be dropped.
pub proof fn law_can_call_rx_drop(queue: RxQueue, heap: &mut Heap)
    requires
        old(heap).wf(),
        queue.valid(old(heap)@),
    ensures
        call_requires(RxQueue::drop, (queue, heap)),
{
}

/// Dropping a fill queue is as the laws on [`Holder`] say.
pub proof fn law_call_fill_drop(queue: FillQueue, heap: &mut Heap)
    requires
        call_ensures(FillQueue::drop, (queue, heap), ()),
    ensures
        final(heap).wf(),
        final(heap)@ == Holder::Fill(queue).dropped(old(heap)@),
{
}

/// A fill queue can always be dropped.
pub proof fn law_can_call_fill_drop(queue: FillQueue, heap: &mut Heap)
    requires
        old(heap).wf(),
        queue.valid(old(heap)@),
    ensures
        call_requires(FillQueue::drop, (queue, heap)),
{
}

/// Dropping a completion queue is as the laws on [`Holder`] say.
pub proof fn law_call_comp_drop(queue: CompQueue, heap: &mut Heap)
    requires
        call_ensures(CompQueue::drop, (queue, heap), ()),
    ensures
        final(heap).wf(),
        final(heap)@ == Holder::Comp(queue).dropped(old(heap)@),
{
}

/// A completion queue can always be dropped.
pub proof fn law_can_call_comp_drop(queue: CompQueue, heap: &mut Heap)
    requires
        old(heap).wf(),
        queue.valid(old(heap)@),
    ensures
        call_requires(CompQueue::drop, (queue, heap)),
{
}

/// Dropping a handle on a socket is as the laws on [`Holder`] say.
pub proof fn law_call_socket_drop(socket: Socket, heap: &mut Heap)
    requires
        call_ensures(Socket::drop, (socket, heap), ()),
    ensures
        final(heap).wf(),
        final(heap)@ == Holder::Socket(socket).dropped(old(heap)@),
{
}

/// A handle on a socket can always be dropped.
pub proof fn law_can_call_socket_drop(socket: Socket, heap: &mut Heap)
    requires
        old(heap).wf(),
        socket.valid(old(heap)@),
    ensures
        call_requires(Socket::drop, (socket, heap)),
{
}

/// A queue's socket and ring are its own: the ring is at the address of the
/// ring in its slot.
pub proof fn law_call_tx_ring_ptr(queue: &TxQueue, heap: &Heap, mem: usize, socket: &Socket)
    requires
        call_ensures(TxQueue::ring_ptr, (queue, heap), mem),
        call_ensures(TxQueue::socket, (queue,), socket),
    ensures
        mem == heap@.prod[queue.spec_ring().spec_handle().slot()].value.mem,
        *socket == queue.spec_socket(),
{
}

/// A queue's socket and ring are its own: the ring is at the address of the
/// ring in its slot.
pub proof fn law_call_rx_ring_ptr(queue: &RxQueue, heap: &Heap, mem: usize, socket: &Socket)
    requires
        call_ensures(RxQueue::ring_ptr, (queue, heap), mem),
        call_ensures(RxQueue::socket, (queue,), socket),
    ensures
        mem == heap@.cons[queue.spec_ring().spec_handle().slot()].value.mem,
        *socket == queue.spec_socket(),
{
}

/// A queue's socket and ring are its own: the ring is at the address of the
/// ring in its slot.
pub proof fn law_call_fill_ring_ptr(queue: &FillQueue, heap: &Heap, mem: usize, socket: &Socket)
    requires
        call_ensures(FillQueue::ring_ptr, (queue, heap), mem),
        call_ensures(FillQueue::socket, (queue,), socket),
    ensures
        mem == heap@.prod[queue.spec_ring().spec_handle().slot()].value.mem,
        *socket == queue.spec_socket(),
{
}

/// A queue's socket and ring are its own: the ring is at the address of the
/// ring in its slot.
pub proof fn law_call_comp_ring_ptr(queue: &CompQueue, heap: &Heap, mem: usize, socket: &Socket)
    requires
        call_ensures(CompQueue::ring_ptr, (queue, heap), mem),
        call_ensures(CompQueue::socket, (queue,), socket),
    ensures
        mem == heap@.cons[queue.spec_ring().spec_handle().slot()].value.mem,
        *socket == queue.spec_socket(),
{
}

/// A new consumer ring is as
/// [`law_new_ring_is_zeroed`](crate::xsk::effects::law_new_ring_is_zeroed)
/// says, and its wrapper reads it at its address and as zeroes.
pub proof fn law_call_cons_default(
    table: &mut RingTable,
    mem: usize,
    ring: XskRingCons,
    ptr: usize,
    read: &XskRing,
    null: bool,
)
    requires
        call_ensures(XskRingCons::default, (table, mem), ring),
        call_ensures(XskRingCons::as_ptr, (&ring, &*final(table)), ptr),
        call_ensures(XskRingCons::as_ref, (&ring, &*final(table)), read),
        call_ensures(XskRingCons::is_ring_null, (&ring, &*final(table)), null),
    ensures
        crate::ring::created(old(table), final(table), ring.spec_handle(), mem),
        ptr == mem,
        crate::xsk::effects::zero(*read),
        null,
{
}

/// A handle on a consumer ring is as
/// [`law_ring_handle_adds_a_holder`](crate::xsk::effects::law_ring_handle_adds_a_holder)
/// says, and has the address of the ring.
pub proof fn law_call_cons_handle(
    ring: &XskRingCons,
    table: &mut RingTable,
    handle: XskRingConsHandle,
    before: usize,
    after: usize,
    through: usize,
)
    requires
        old(table)@.contains_key(ring.spec_handle().slot()),
        call_ensures(XskRingCons::handle, (ring, table), handle),
        call_ensures(XskRingCons::as_ptr, (ring, &*old(table)), before),
        call_ensures(XskRingCons::as_ptr, (ring, &*final(table)), after),
        call_ensures(XskRingConsHandle::as_ptr, (&handle, &*final(table)), through),
    ensures
        crate::ring::retained(
            old(table),
            final(table),
            ring.spec_handle(),
            handle.spec_handle(),
        ),
        after == before,
        through == before,
{
}

/// The wrapper of a consumer ring reads what the ring in its slot holds, and
/// finds it null exactly if it has no descriptors.
pub proof fn law_call_cons_read(
    ring: &XskRingCons,
    table: &RingTable,
    ptr: usize,
    read: &XskRing,
    null: bool,
)
    requires
        call_ensures(XskRingCons::as_ptr, (ring, table), ptr),
        call_ensures(XskRingCons::as_ref, (ring, table), read),
        call_ensures(XskRingCons::is_ring_null, (ring, table), null),
    ensures
        ptr == table@[ring.spec_handle().slot()].value.mem,
        ptr != 0,
        *read == table@[ring.spec_handle().slot()].value.ring,
        null <==> read.ring == 0,
{
}

/// What is written through the wrapper of a consumer ring is what the ring in
/// its slot then holds. See
/// [`law_write_changes_one_ring`](crate::xsk::effects::law_write_changes_one_ring).
pub proof fn law_call_cons_write(
    ring: &mut XskRingCons,
    table: &mut RingTable,
    access: &mut XskRing,
)
    requires
        call_ensures(XskRingCons::as_mut, (ring, table), access),
    ensures
        *old(access) == old(table)@[old(ring).spec_handle().slot()].value.ring,
        *final(ring) == *old(ring),
        final(table)@ == crate::ring::written(
            old(table)@,
            old(ring).spec_handle().slot(),
            *final(access),
        ),
{
}

/// Giving up the wrapper of a consumer ring is as
/// [`law_ring_release_removes_a_holder`](crate::xsk::effects::law_ring_release_removes_a_holder)
/// says.
pub proof fn law_call_cons_drop(ring: XskRingCons, table: &mut RingTable, freed: Option<usize>)
    requires
        call_ensures(XskRingCons::drop, (ring, table), freed),
    ensures
        crate::ring::released(old(table), final(table), ring.spec_handle(), freed),
{
}

/// Giving up a handle on a consumer ring is as
/// [`law_ring_release_removes_a_holder`](crate::xsk::effects::law_ring_release_removes_a_holder)
/// says.
pub proof fn law_call_cons_handle_drop(
    handle: XskRingConsHandle,
    table: &mut RingTable,
    freed: Option<usize>,
)
    requires
        call_ensures(XskRingConsHandle::drop, (handle, table), freed),
    ensures
        crate::ring::released(old(table), final(table), handle.spec_handle(), freed),
{
}

/// A new producer ring is as
/// [`law_new_ring_is_zeroed`](crate::xsk::effects::law_new_ring_is_zeroed)
/// says, and its wrapper reads it at its address and as zeroes.
pub proof fn law_call_prod_default(
    table: &mut RingTable,
    mem: usize,
    ring: XskRingProd,
    ptr: usize,
    read: &XskRing,
    null: bool,
)
    requires
        call_ensures(XskRingProd::default, (table, mem), ring),
        call_ensures(XskRingProd::as_ptr, (&ring, &*final(table)), ptr),
        call_ensures(XskRingProd::as_ref, (&ring, &*final(table)), read),
        call_ensures(XskRingProd::is_ring_null, (&ring, &*final(table)), null),
    ensures
        crate::ring::created(old(table), final(table), ring.spec_handle(), mem),
        ptr == mem,
        crate::xsk::effects::zero(*read),
        null,
{
}

/// A handle on a producer ring is as
/// [`law_ring_handle_adds_a_holder`](crate::xsk::effects::law_ring_handle_adds_a_holder)
/// says, and has the address of the ring.
pub proof fn law_call_prod_handle(
    ring: &XskRingProd,
    table: &mut RingTable,
    handle: XskRingProdHandle,
    before: usize,
    after: usize,
    through: usize,
)
    requires
        old(table)@.contains_key(ring.spec_handle().slot()),
        call_ensures(XskRingProd::handle, (ring, table), handle),
        call_ensures(XskRingProd::as_ptr, (ring, &*old(table)), before),
        call_ensures(XskRingProd::as_ptr, (ring, &*final(table)), after),
        call_ensures(XskRingProdHandle::as_ptr, (&handle, &*final(table)), through),
    ensures
        crate::ring::retained(
            old(table),
            final(table),
            ring.spec_handle(),
            handle.spec_handle(),
        ),
        after == before,
        through == before,
{
}

/// The wrapper of a producer ring reads what the ring in its slot holds, and
/// finds it null exactly if it has no descriptors.
pub proof fn law_call_prod_read(
    ring: &XskRingProd,
    table: &RingTable,
    ptr: usize,
    read: &XskRing,
    null: bool,
)
    requires
        call_ensures(XskRingProd::as_ptr, (ring, table), ptr),
        call_ensures(XskRingProd::as_ref, (ring, table), read),
        call_ensures(XskRingProd::is_ring_null, (ring, table), null),
    ensures
        ptr == table@[ring.spec_handle().slot()].value.mem,
        ptr != 0,
        *read == table@[ring.spec_handle().slot()].value.ring,
        null <==> read.ring == 0,
{
}

/// What is written through the wrapper of a producer ring is what the ring in
/// its slot then holds. See
/// [`law_write_changes_one_ring`](crate::xsk::effects::law_write_changes_one_ring).
pub proof fn law_call_prod_write(
    ring: &mut XskRingProd,
    table: &mut RingTable,
    access: &mut XskRing,
)
    requires
        call_ensures(XskRingProd::as_mut, (ring, table), access),
    ensures
        *old(access) == old(table)@[old(ring).spec_handle().slot()].value.ring,
        *final(ring) == *old(ring),
        final(table)@ == crate::ring::written(
            old(table)@,
            old(ring).spec_handle().slot(),
            *final(access),
        ),
{
}

/// Giving up the wrapper of a producer ring is as
/// [`law_ring_release_removes_a_holder`](crate::xsk::effects::law_ring_release_removes_a_holder)
/// says.
pub proof fn law_call_prod_drop(ring: XskRingProd, table: &mut RingTable, freed: Option<usize>)
    requires
        call_ensures(XskRingProd::drop, (ring, table), freed),
    ensures
        crate::ring::released(old(table), final(table), ring.spec_handle(), freed),
{
}

/// Giving up a handle on a producer ring is as
/// [`law_ring_release_removes_a_holder`](crate::xsk::effects::law_ring_release_removes_a_holder)
/// says.
pub proof fn law_call_prod_handle_drop(
    handle: XskRingProdHandle,
    table: &mut RingTable,
    freed: Option<usize>,
)
    requires
        call_ensures(XskRingProdHandle::drop, (handle, table), freed),
    ensures
        crate::ring::released(old(table), final(table), handle.spec_handle(), freed),
{
}

} // verus!

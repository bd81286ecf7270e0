//! What each operation does, in terms of what it is given and of what is
//! there before and after.

use crate::ring::{RingTable, Rings, XskRing, XskRingCons, XskRingProd};
use crate::table::{Handle, Shared};
use crate::xsk::laws::Holder;
use crate::xsk::queue::{CompQueue, FillQueue, RxQueue, TxQueue};
use crate::xsk::socket::{
    CreateReply, CreateRequest, Created, RingMemory, SocketConfig, SocketCreateError,
};
use crate::xsk::umem::Umem;
use crate::xsk::{Action, Ctx, Device, Heap, Model};
use vstd::prelude::*;

verus! {

/// One holder more leaves the object as it is and all other holders what
/// they were.
pub proof fn law_one_holder_more<T>(object: Shared<T>, ticket: nat, t: nat)
    ensures
        object.held_by(ticket).value == object.value,
        object.held_by(ticket).holders.contains(t) <==> object.holders.contains(t) || t == ticket,
{
}

/// One holder fewer leaves the object as it is and all other holders what
/// they were.
pub proof fn law_one_holder_fewer<T>(object: Shared<T>, ticket: nat, t: nat)
    ensures
        object.released_by(ticket).value == object.value,
        object.released_by(ticket).holders.contains(t) <==> object.holders.contains(t) && t
            != ticket,
{
}

/// A holder is the last one exactly if there is no other.
pub proof fn law_last_holder_is_alone<T>(object: Shared<T>, ticket: nat)
    requires
        object.holders.contains(ticket),
    ensures
        object.last_holder(ticket) <==> forall|t: nat| #[trigger]
            object.holders.contains(t) ==> t == ticket,
{
    if forall|t: nat| #[trigger] object.holders.contains(t) ==> t == ticket {
        assert(object.holders =~= set![ticket]);
    }
}

/// A new ring holds zeroes and null pointers only, is at the address that it
/// was created for and has one holder. All other rings are as they were.
pub proof fn law_new_ring_is_zeroed(
    before: &RingTable,
    after: &RingTable,
    h: Handle,
    mem: usize,
    r: usize,
    t: nat,
)
    requires
        crate::ring::created(before, after, h, mem),
    ensures
        after@.contains_key(h.slot()),
        !before@.contains_key(h.slot()),
        after@[h.slot()].value.mem == mem,
        after@[h.slot()].value.ring.cached_prod == 0,
        after@[h.slot()].value.ring.cached_cons == 0,
        after@[h.slot()].value.ring.mask == 0,
        after@[h.slot()].value.ring.size == 0,
        after@[h.slot()].value.ring.producer == 0,
        after@[h.slot()].value.ring.consumer == 0,
        after@[h.slot()].value.ring.ring == 0,
        after@[h.slot()].value.ring.flags == 0,
        after@[h.slot()].value.owner@ == h.ticket(),
        after@[h.slot()].holders.contains(t) <==> t == h.ticket(),
        r != h.slot() ==> (after@.contains_key(r) <==> before@.contains_key(r)),
        before@.contains_key(r) ==> after@[r] == before@[r],
{
}

/// Taking a handle on a ring adds that handle to its holders and does
/// nothing else.
pub proof fn law_ring_handle_adds_a_holder(
    before: &RingTable,
    after: &RingTable,
    h: Handle,
    handle: Handle,
    r: usize,
    t: nat,
)
    requires
        before@.contains_key(h.slot()),
        crate::ring::retained(before, after, h, handle),
    ensures
        handle.slot() == h.slot(),
        after@.contains_key(r) <==> before@.contains_key(r),
        before@.contains_key(r) ==> after@[r].value == before@[r].value,
        before@.contains_key(r) ==> (after@[r].holders.contains(t)
            <==> before@[r].holders.contains(t) || r == h.slot() && t == handle.ticket()),
{
}

/// Giving up a wrapper or a handle of a ring takes it from the holders. If
/// there is no other, the ring goes and its address is reported, and
/// otherwise it stays and none is. Nothing else is done.
pub proof fn law_ring_release_removes_a_holder(
    before: &RingTable,
    after: &RingTable,
    h: Handle,
    freed: Option<usize>,
    r: usize,
    t: nat,
)
    requires
        before@.contains_key(h.slot()),
        before@[h.slot()].holders.contains(h.ticket()),
        crate::ring::released(before, after, h, freed),
    ensures
        r != h.slot() ==> (after@.contains_key(r) <==> before@.contains_key(r)),
        r != h.slot() && before@.contains_key(r) ==> after@[r] == before@[r],
        freed matches Some(mem) ==> {
            &&& mem == before@[h.slot()].value.mem
            &&& !after@.contains_key(h.slot())
            &&& before@[h.slot()].holders.contains(t) ==> t == h.ticket()
        },
        freed is None ==> {
            &&& after@.contains_key(h.slot())
            &&& after@[h.slot()].value == before@[h.slot()].value
            &&& after@[h.slot()].holders.contains(t) <==> before@[h.slot()].holders.contains(t) && t
                != h.ticket()
            &&& exists|k: nat| #[trigger]
                before@[h.slot()].holders.contains(k) && k != h.ticket()
        },
{
    let object = before@[h.slot()];
    law_last_holder_is_alone(object, h.ticket());
    if freed is Some {
        if object.holders.contains(t) {
            assert(set![h.ticket()].contains(t));
        }
    } else {
        let k = choose|k: nat| #[trigger] object.holders.contains(k) && k != h.ticket();
        assert(object.holders.contains(k));
    }
}

/// Writing to a ring changes what it holds to what is written, and nothing
/// else.
pub proof fn law_write_changes_one_ring(rings: Rings, w: usize, ring: XskRing, r: usize)
    requires
        rings.contains_key(w),
    ensures
        ({
            let after = crate::ring::written(rings, w, ring);
            &&& after.dom() == rings.dom()
            &&& after[w].value.ring == ring
            &&& after[w].value.mem == rings[w].value.mem
            &&& after[w].value.owner == rings[w].value.owner
            &&& after[w].holders == rings[w].holders
            &&& rings.contains_key(r) && r != w ==> after[r] == rings[r]
        }),
{
    assert(crate::ring::written(rings, w, ring).dom() =~= rings.dom());
}

/// A wrapper of a consumer ring reads the ring in its own slot.
pub proof fn law_cons_wrapper_reads_its_ring(rings: Rings, ring: XskRingCons)
    ensures
        ring.cell(rings) == rings[ring.spec_handle().slot()].value,
{
}

/// A wrapper of a producer ring reads the ring in its own slot.
pub proof fn law_prod_wrapper_reads_its_ring(rings: Rings, ring: XskRingProd)
    ensures
        ring.cell(rings) == rings[ring.spec_handle().slot()].value,
{
}

/// Taking another handle on a socket leaves every socket, UMEM and ring and
/// the actions that are due as they were. The holders of that socket grow
/// by the new ticket.
pub proof fn law_clone_adds_a_holder(m: Model, h: Handle, s: usize, t: nat)
    requires
        m.sockets.contains_key(h.slot()),
    ensures
        ({
            let n = m.retain_socket(h);
            &&& n.cons == m.cons
            &&& n.prod == m.prod
            &&& n.umems == m.umems
            &&& n.actions == m.actions
            &&& n.sockets.contains_key(s) <==> m.sockets.contains_key(s)
            &&& m.sockets.contains_key(s) ==> {
                &&& n.sockets[s].value == m.sockets[s].value
                &&& n.sockets[s].holders.contains(t) <==> m.sockets[s].holders.contains(t) || s
                    == h.slot() && t == h.ticket()
            }
        }),
{
}

/// Taking another handle on a socket keeps sockets distinct.
pub proof fn law_clone_keeps_sockets_distinct(m: Model, h: Handle)
    requires
        m.sockets.contains_key(h.slot()),
        crate::xsk::laws::distinct_sockets(m),
    ensures
        crate::xsk::laws::distinct_sockets(m.retain_socket(h)),
{
}

/// A handle that is taken on a socket and given up again makes no
/// difference.
pub proof fn law_dropping_undoes_cloning(m: Model, h: Handle, other: nat)
    requires
        m.sockets.contains_key(h.slot()),
        !m.sockets[h.slot()].holders.contains(h.ticket()),
        m.sockets[h.slot()].holders.contains(other),
    ensures
        m.retain_socket(h).release_socket(h) == m,
{
    let n = m.retain_socket(h);
    assert(n.sockets[h.slot()].holders.contains(other));
    assert(!n.sockets[h.slot()].last_holder(h.ticket())) by {
        law_last_holder_is_alone(n.sockets[h.slot()], h.ticket());
    }
    assert(n.sockets[h.slot()].holders.remove(h.ticket()) =~= m.sockets[h.slot()].holders);
    assert(n.release_socket(h).sockets =~= m.sockets);
}

/// Taking another handle on a UMEM leaves every UMEM, socket and ring and
/// the actions that are due as they were. The holders of that UMEM grow by
/// the new ticket.
pub proof fn law_umem_clone_adds_a_holder(m: Model, h: Handle, u: usize, t: nat)
    requires
        m.umems.contains_key(h.slot()),
    ensures
        ({
            let n = m.retain_umem(h);
            &&& n.cons == m.cons
            &&& n.prod == m.prod
            &&& n.sockets == m.sockets
            &&& n.actions == m.actions
            &&& n.umems.contains_key(u) <==> m.umems.contains_key(u)
            &&& m.umems.contains_key(u) ==> {
                &&& n.umems[u].value == m.umems[u].value
                &&& n.umems[u].holders.contains(t) <==> m.umems[u].holders.contains(t) || u
                    == h.slot() && t == h.ticket()
            }
        }),
{
}

/// Taking another handle on a UMEM keeps UMEMs distinct.
pub proof fn law_umem_clone_keeps_umems_distinct(m: Model, h: Handle)
    requires
        m.umems.contains_key(h.slot()),
        crate::xsk::laws::distinct_umems(m),
    ensures
        crate::xsk::laws::distinct_umems(m.retain_umem(h)),
{
}

/// A handle that is taken on a UMEM and given up again makes no difference.
pub proof fn law_dropping_undoes_umem_cloning(m: Model, h: Handle, other: nat)
    requires
        m.umems.contains_key(h.slot()),
        !m.umems[h.slot()].holders.contains(h.ticket()),
        m.umems[h.slot()].holders.contains(other),
    ensures
        m.retain_umem(h).release_umem(h) == m,
{
    let n = m.retain_umem(h);
    assert(n.umems[h.slot()].holders.contains(other));
    assert(!n.umems[h.slot()].last_holder(h.ticket())) by {
        law_last_holder_is_alone(n.umems[h.slot()], h.ticket());
    }
    assert(n.umems[h.slot()].holders.remove(h.ticket()) =~= m.umems[h.slot()].holders);
    assert(n.release_umem(h).umems =~= m.umems);
}

/// A request for a socket that is made after a handle has been taken on its
/// UMEM names the address that the UMEM has had before.
pub proof fn law_clone_asks_for_the_same_umem(m: Model, h: Handle, request: CreateRequest)
    requires
        m.umems.contains_key(h.slot()),
        request.fits(m.retain_umem(h), h.slot()),
    ensures
        request.umem == m.umems[h.slot()].value.ptr,
{
}

/// A UMEM that has been created is at its address, has one handle and the
/// two rings that it was created with, which are where they were set up and
/// hold what they held, each with one holder. All else is as it was.
pub proof fn law_new_umem(
    m: Model,
    n: Model,
    umem: Umem,
    ptr: usize,
    fill_mem: usize,
    fill: XskRing,
    comp_mem: usize,
    comp: XskRing,
)
    requires
        crate::xsk::umem::umem_added(m, n, umem, ptr, fill_mem, fill, comp_mem, comp),
    ensures
        ({
            let u = umem.spec_handle().slot();
            &&& n.sockets == m.sockets
            &&& n.actions == m.actions
            &&& !m.umems.contains_key(u)
            &&& n.umems.remove(u) == m.umems
            &&& n.umems.contains_key(u)
            &&& n.umems[u].holders == Set::<nat>::empty().insert(umem.spec_handle().ticket())
            &&& n.umems[u].value.ptr == ptr
            &&& n.umems[u].value.ctxs.len() == 0
            &&& n.umems[u].value.saved matches Some(rings)
            &&& {
                let f = rings.fill.spec_handle();
                let c = rings.comp.spec_handle();
                &&& !m.prod.contains_key(f.slot())
                &&& n.prod.contains_key(f.slot())
                &&& n.prod.remove(f.slot()) == m.prod
                &&& n.prod[f.slot()].value.mem == fill_mem
                &&& n.prod[f.slot()].value.ring == fill
                &&& n.prod[f.slot()].value.owner@ == f.ticket()
                &&& n.prod[f.slot()].holders == Set::<nat>::empty().insert(f.ticket())
                &&& !m.cons.contains_key(c.slot())
                &&& n.cons.contains_key(c.slot())
                &&& n.cons.remove(c.slot()) == m.cons
                &&& n.cons[c.slot()].value.mem == comp_mem
                &&& n.cons[c.slot()].value.ring == comp
                &&& n.cons[c.slot()].value.owner@ == c.ticket()
                &&& n.cons[c.slot()].holders == Set::<nat>::empty().insert(c.ticket())
            }
        }),
{
    let u = umem.spec_handle().slot();
    let rings = n.umems[u].value.saved->0;
    assert(n.umems.remove(u) =~= m.umems);
    assert(n.prod.remove(rings.fill.spec_handle().slot()) =~= m.prod);
    assert(n.cons.remove(rings.comp.spec_handle().slot()) =~= m.cons);
}

/// The handle on a UMEM that has been created can be used.
pub proof fn law_new_umem_is_valid(
    heap: Heap,
    n: Model,
    umem: Umem,
    ptr: usize,
    fill_mem: usize,
    fill: XskRing,
    comp_mem: usize,
    comp: XskRing,
)
    requires
        heap.wf(),
        crate::xsk::umem::umem_added(heap@, n, umem, ptr, fill_mem, fill, comp_mem, comp),
    ensures
        umem.valid(n),
{
    assert forall|s: usize| #[trigger] n.sockets.contains_key(s) implies
        n.sockets[s].value.umem.spec_handle() != umem.spec_handle() by {
        assert(heap@.socket_ok(heap.cons_users@, heap.prod_users@, s));
    }
}

/// A request says what was asked for: the config, the interface and the
/// queue, the UMEM at its address, and new zeroed rings in the given memory
/// for receiving and transmitting.
pub proof fn law_request_asks_for_what_was_given(
    m: Model,
    u: usize,
    config: SocketConfig,
    if_name: Seq<u8>,
    queue_id: u32,
    mem: RingMemory,
    request: CreateRequest,
)
    requires
        request.fits(m, u),
        request.asks(config, if_name, queue_id, mem),
    ensures
        request.config.rx_size == config.rx_size,
        request.config.tx_size == config.tx_size,
        request.config.libxdp_flags == config.libxdp_flags,
        request.config.xdp_flags == config.xdp_flags,
        request.config.bind_flags == config.bind_flags,
        request.if_name@ == if_name,
        request.queue_id == queue_id,
        request.umem == m.umems[u].value.ptr,
        request.rx.mem == mem.rx,
        zero(request.rx.ring),
        request.tx.mem == mem.tx,
        zero(request.tx.ring),
{
}

/// Whether a ring holds zeroes and null pointers only.
pub open spec fn zero(ring: XskRing) -> bool {
    &&& ring.cached_prod == 0
    &&& ring.cached_cons == 0
    &&& ring.mask == 0
    &&& ring.size == 0
    &&& ring.producer == 0
    &&& ring.consumer == 0
    &&& ring.ring == 0
    &&& ring.flags == 0
}

/// A request is for the rings that the UMEM was created with, where they are
/// and with what they hold, for as long as the UMEM has them.
pub proof fn law_request_uses_first_rings(
    m: Model,
    u: usize,
    request: CreateRequest,
    f: usize,
    c: usize,
)
    requires
        request.fits(m, u),
        m.umems[u].value.saved is Some,
        f == m.umems[u].value.saved->0.fill.spec_handle().slot(),
        c == m.umems[u].value.saved->0.comp.spec_handle().slot(),
    ensures
        request.saved,
        request.fill.mem == m.prod[f].value.mem,
        request.fill.ring == m.prod[f].value.ring,
        request.comp.mem == m.cons[c].value.mem,
        request.comp.ring == m.cons[c].value.ring,
{
}

/// A request is for new zeroed fill and comp rings, in the given memory, once
/// the UMEM no longer has those that it was created with.
pub proof fn law_request_uses_new_rings(
    m: Model,
    u: usize,
    config: SocketConfig,
    if_name: Seq<u8>,
    queue_id: u32,
    mem: RingMemory,
    request: CreateRequest,
)
    requires
        request.fits(m, u),
        request.asks(config, if_name, queue_id, mem),
        m.umems[u].value.saved is None,
    ensures
        !request.saved,
        mem.ctx is Some,
        request.fill.mem == mem.ctx->0.fill,
        zero(request.fill.ring),
        request.comp.mem == mem.ctx->0.comp,
        zero(request.comp.ring),
{
}

/// The rings that are asked for are at four different addresses, none of
/// which is null. No ring is at those of the new ones, nor is anything there
/// still to be freed.
pub proof fn law_request_is_for_separate_rings(heap: Heap, u: usize, request: CreateRequest)
    requires
        heap.wf(),
        heap@.umems.contains_key(u),
        request.fits(heap@, u),
    ensures
        request.rx.mem != 0,
        request.tx.mem != 0,
        request.fill.mem != 0,
        request.comp.mem != 0,
        request.rx.mem != request.tx.mem,
        request.rx.mem != request.fill.mem,
        request.rx.mem != request.comp.mem,
        request.tx.mem != request.fill.mem,
        request.tx.mem != request.comp.mem,
        request.fill.mem != request.comp.mem,
        forall|r: usize| #[trigger]
            heap@.cons.contains_key(r) ==> {
                let mem = heap@.cons[r].value.mem;
                &&& mem != request.rx.mem
                &&& mem != request.tx.mem
                &&& !request.saved ==> mem != request.fill.mem && mem != request.comp.mem
            },
        forall|r: usize| #[trigger]
            heap@.prod.contains_key(r) ==> {
                let mem = heap@.prod[r].value.mem;
                &&& mem != request.rx.mem
                &&& mem != request.tx.mem
                &&& !request.saved ==> mem != request.fill.mem && mem != request.comp.mem
            },
        forall|i: int|
            0 <= i < heap@.actions.len() ==> {
                &&& #[trigger] heap@.actions[i] != Action::FreeCons(request.rx.mem)
                &&& heap@.actions[i] != Action::FreeProd(request.tx.mem)
                &&& heap@.actions[i] != Action::FreeProd(request.fill.mem)
                &&& heap@.actions[i] != Action::FreeCons(request.comp.mem)
            },
{
    let m = heap@;
    assert(m.saved_ok(heap.cons_users@, heap.prod_users@, u));
    assert forall|i: int| 0 <= i < m.actions.len() implies {
        &&& #[trigger] m.actions[i] != Action::FreeCons(request.rx.mem)
        &&& m.actions[i] != Action::FreeProd(request.tx.mem)
        &&& m.actions[i] != Action::FreeProd(request.fill.mem)
        &&& m.actions[i] != Action::FreeCons(request.comp.mem)
    } by {
        assert(m.actions[i].freed() matches Some(mem) ==> m.pending(mem));
    }
}

/// Memory that has been freed can be used again once the actions have been
/// taken.
pub proof fn law_freed_memory_is_vacant(heap: Heap, i: int, mem: usize)
    requires
        heap.wf(),
        0 <= i < heap@.actions.len(),
        heap@.actions[i] == Action::FreeCons(mem) || heap@.actions[i] == Action::FreeProd(mem),
    ensures
        (Model { actions: Seq::empty(), ..heap@ }).vacant(mem),
{
    assert(heap@.unoccupied(heap@.actions[i].freed()->0));
}

/// Memory is vacant exactly if it is not at the null address, where no ring
/// is, and not still to be freed.
pub proof fn law_vacant_memory(m: Model, mem: usize)
    ensures
        m.vacant(mem) <==> {
            &&& mem != 0
            &&& forall|r: usize| #[trigger] m.cons.contains_key(r) ==> m.cons[r].value.mem != mem
            &&& forall|r: usize| #[trigger] m.prod.contains_key(r) ==> m.prod[r].value.mem != mem
            &&& forall|i: int|
                0 <= i < m.actions.len() ==> #[trigger] m.actions[i] != Action::FreeCons(mem)
                    && m.actions[i] != Action::FreeProd(mem)
        },
{
    if forall|i: int|
        0 <= i < m.actions.len() ==> #[trigger] m.actions[i] != Action::FreeCons(mem)
            && m.actions[i] != Action::FreeProd(mem) {
        assert(!m.pending(mem)) by {
            if m.pending(mem) {
                let i = choose|i: int|
                    0 <= i < m.actions.len() && (#[trigger] m.actions[i]).freed() == Some(mem);
                assert(m.actions[i].freed() == Some(mem));
            }
        }
    }
    if m.vacant(mem) {
        assert forall|i: int| 0 <= i < m.actions.len() implies #[trigger] m.actions[i]
            != Action::FreeCons(mem) && m.actions[i] != Action::FreeProd(mem) by {
            assert(m.actions[i].freed() != Some(mem));
        }
    }
}

/// Memory fits a request if it is vacant and separate for each new ring, with
/// none for fill and comp rings for as long as the UMEM has its own.
pub proof fn law_separate_vacant_memory_fits(m: Model, u: usize, mem: RingMemory)
    requires
        m.vacant(mem.rx),
        m.vacant(mem.tx),
        mem.rx != mem.tx,
        match mem.ctx {
            Some(ctx) => {
                &&& m.umems[u].value.saved is None
                &&& m.vacant(ctx.fill)
                &&& m.vacant(ctx.comp)
                &&& ctx.fill != ctx.comp
                &&& ctx.fill != mem.rx
                &&& ctx.fill != mem.tx
                &&& ctx.comp != mem.rx
                &&& ctx.comp != mem.tx
            },
            None => m.umems[u].value.saved is Some,
        },
    ensures
        mem.fits(m, u),
{
}

/// A device is bound exactly if there is a socket that shares the UMEM and
/// was created for that queue of that interface.
pub proof fn law_bound_device(m: Model, u: usize, if_name: Seq<u8>, queue_id: u32)
    ensures
        m.bound(u, Device { if_name, queue_id }) <==> exists|s: usize| #[trigger]
            m.sockets.contains_key(s) && {
                &&& m.sockets[s].value.umem.spec_handle().slot() == u
                &&& m.sockets[s].value.device@.if_name == if_name
                &&& m.sockets[s].value.device@.queue_id == queue_id
            },
{
    let device = Device { if_name, queue_id };
    if m.bound(u, device) {
        let s = choose|s: usize| #[trigger]
            m.sockets.contains_key(s) && m.is_bound_by(s, u, device);
        assert(m.sockets.contains_key(s));
    }
    if exists|s: usize| #[trigger]
        m.sockets.contains_key(s) && {
            &&& m.sockets[s].value.umem.spec_handle().slot() == u
            &&& m.sockets[s].value.device@.if_name == if_name
            &&& m.sockets[s].value.device@.queue_id == queue_id
        } {
        let s = choose|s: usize| #[trigger]
            m.sockets.contains_key(s) && {
                &&& m.sockets[s].value.umem.spec_handle().slot() == u
                &&& m.sockets[s].value.device@.if_name == if_name
                &&& m.sockets[s].value.device@.queue_id == queue_id
            };
        assert(m.sockets.contains_key(s) && m.is_bound_by(s, u, device));
    }
}

/// A program may be loaded for a socket exactly if the lowest bit of its
/// flags is not set.
pub proof fn law_lowest_flag_inhibits_program(config: SocketConfig)
    ensures
        config.inhibits_prog_load() <==> config.libxdp_flags & 1u32 != 0,
{
}

/// A second socket on the same queue of an interface, created from the same
/// UMEM, is asked for without a program being loaded for it.
pub proof fn law_second_socket_loads_no_program(
    m: Model,
    u: usize,
    request: CreateRequest,
    s: usize,
)
    requires
        request.fits(m, u),
        m.sockets.contains_key(s),
        m.sockets[s].value.umem.spec_handle().slot() == u,
        m.sockets[s].value.device@.if_name == request.if_name@,
        m.sockets[s].value.device@.queue_id == request.queue_id,
    ensures
        request.config.libxdp_flags & 1u32 != 0,
{
    assert(m.sockets[s].value.device@ == request.device());
    assert(m.is_bound_by(s, u, request.device()));
}

/// Each reason for a refusal is given when it applies and none of those
/// before it does. An error number is that which libxdp has returned with
/// the opposite sign.
pub proof fn law_refusal_is_explained(
    m: Model,
    n: Model,
    u: usize,
    request: CreateRequest,
    reply: CreateReply,
    fd: Option<i32>,
    e: SocketCreateError,
)
    requires
        crate::xsk::socket::outcome(m, n, u, request, reply, fd, Err(e)),
        (fd is Some) == (reply.err == 0 && reply.socket != 0),
    ensures
        e.cause().1 is Some <==> reply.err != 0,
        reply.err != 0 ==> {
            &&& e.cause().0 == "non-zero error code returned when creating AF_XDP socket"@
            &&& reply.err != i32::MIN ==> e.cause().1->0 + reply.err == 0
            &&& reply.err == i32::MIN ==> e.cause().1->0 == i32::MIN
        },
        reply.err == 0 && reply.socket == 0 ==> e.cause().0 == "returned socket pointer was null"@,
        reply.err == 0 && reply.socket != 0 ==> {
            let (tx, rx) = (reply.tx.ring, reply.rx.ring);
            &&& fd->0 < 0 ==> e.cause().0 == "failed to retrieve AF_XDP socket file descriptor"@
            &&& fd->0 >= 0 && tx == 0 ==> e.cause().0 == "returned tx queue ring is null"@
            &&& fd->0 >= 0 && tx != 0 && rx == 0 ==> e.cause().0
                == "returned rx queue ring is null"@
            &&& fd->0 >= 0 && tx != 0 && rx != 0 ==> e.cause().0
                == "fill queue xor comp queue ring is null, either both or neither should be non-null"@
        },
{
}

/// An error that libxdp reports is passed on with its positive number.
pub proof fn law_error_number_is_positive(
    m: Model,
    n: Model,
    u: usize,
    request: CreateRequest,
    reply: CreateReply,
    fd: Option<i32>,
    res: Created,
)
    requires
        crate::xsk::socket::outcome(m, n, u, request, reply, fd, res),
        reply.err < 0,
        reply.err != i32::MIN,
    ensures
        res matches Err(e) && e.cause().1 matches Some(code) && code > 0 && code + reply.err == 0,
{
}

/// Whether a ring is at `mem`, holds `ring` and is kept alive by the two
/// handles `a` and `b`, which are not the same, and by nothing else.
pub open spec fn ring_with_two_holders(
    rings: Rings,
    r: usize,
    mem: usize,
    ring: XskRing,
    a: Handle,
    b: Handle,
) -> bool {
    &&& rings.contains_key(r)
    &&& rings[r].value.mem == mem
    &&& rings[r].value.ring == ring
    &&& a.slot() == r
    &&& b.slot() == r
    &&& a.ticket() != b.ticket()
    &&& rings[r].value.owner@ == a.ticket()
    &&& forall|t: nat| #[trigger]
        rings[r].holders.contains(t) <==> t == a.ticket() || t == b.ticket()
}

/// What a socket is once it has been created: it has the address that libxdp
/// has returned, is bound as requested, and is kept alive by its queues and
/// nothing else, no two of which share a handle. All other sockets are as
/// they were.
pub proof fn law_created_socket(
    m: Model,
    n: Model,
    u: usize,
    request: CreateRequest,
    reply: CreateReply,
    fd: Option<i32>,
    tx_q: TxQueue,
    rx_q: RxQueue,
    ctx_q: Option<(FillQueue, CompQueue)>,
    t: nat,
)
    requires
        crate::xsk::socket::outcome(m, n, u, request, reply, fd, Ok((tx_q, rx_q, ctx_q))),
    ensures
        ({
            let s = tx_q.spec_socket().spec_handle().slot();
            let inner = n.sockets[s].value;
            let tx = tx_q.spec_socket().spec_handle().ticket();
            let rx = rx_q.spec_socket().spec_handle().ticket();
            &&& !m.sockets.contains_key(s)
            &&& n.sockets.contains_key(s)
            &&& n.sockets.remove(s) == m.sockets
            &&& inner.ptr == reply.socket
            &&& inner.ptr != 0
            &&& inner.device@.if_name == request.if_name@
            &&& inner.device@.queue_id == request.queue_id
            &&& inner.config@ == request.config
            &&& inner.umem.spec_handle().slot() == u
            &&& tx_q.spec_socket().spec_fd() == fd->0
            &&& rx_q.spec_socket().spec_fd() == fd->0
            &&& rx_q.spec_socket().spec_handle().slot() == s
            &&& tx != rx
            &&& match ctx_q {
                Some((fq, cq)) => {
                    let fill = fq.spec_socket().spec_handle().ticket();
                    let comp = cq.spec_socket().spec_handle().ticket();
                    &&& fq.spec_socket().spec_fd() == fd->0
                    &&& cq.spec_socket().spec_fd() == fd->0
                    &&& fq.spec_socket().spec_handle().slot() == s
                    &&& cq.spec_socket().spec_handle().slot() == s
                    &&& fill != tx && fill != rx && comp != tx && comp != rx && fill != comp
                    &&& n.sockets[s].holders.contains(t) <==> t == tx || t == rx || t == fill || t
                        == comp
                },
                None => n.sockets[s].holders.contains(t) <==> t == tx || t == rx,
            }
        }),
{
    let s = tx_q.spec_socket().spec_handle().slot();
    assert(n.sockets.remove(s) =~= m.sockets);
}

/// The queues of a socket that has been created access rings that are at the
/// addresses that libxdp was handed and hold what it has left there. Each is
/// kept alive by its queue and by one handle, that of the socket or of the
/// UMEM.
pub proof fn law_created_rings(
    m: Model,
    n: Model,
    u: usize,
    request: CreateRequest,
    reply: CreateReply,
    fd: Option<i32>,
    tx_q: TxQueue,
    rx_q: RxQueue,
    ctx_q: Option<(FillQueue, CompQueue)>,
)
    requires
        crate::xsk::socket::outcome(m, n, u, request, reply, fd, Ok((tx_q, rx_q, ctx_q))),
    ensures
        ({
            let inner = n.sockets[tx_q.spec_socket().spec_handle().slot()].value;
            let tx = tx_q.spec_ring().spec_handle();
            let rx = rx_q.spec_ring().spec_handle();
            &&& ring_with_two_holders(
                n.prod,
                tx.slot(),
                request.tx.mem,
                reply.tx,
                tx,
                inner.tx_ring.spec_handle(),
            )
            &&& ring_with_two_holders(
                n.cons,
                rx.slot(),
                request.rx.mem,
                reply.rx,
                rx,
                inner.rx_ring.spec_handle(),
            )
            &&& ctx_q matches Some((fq, cq)) ==> {
                let ctxs = n.umems[u].value.ctxs;
                let fill = fq.spec_ring().spec_handle();
                let comp = cq.spec_ring().spec_handle();
                &&& ring_with_two_holders(
                    n.prod,
                    fill.slot(),
                    request.fill.mem,
                    reply.fill,
                    fill,
                    ctxs[ctxs.len() - 1].fill.spec_handle(),
                )
                &&& ring_with_two_holders(
                    n.cons,
                    comp.slot(),
                    request.comp.mem,
                    reply.comp,
                    comp,
                    ctxs[ctxs.len() - 1].comp.spec_handle(),
                )
                &&& fill.slot() != tx.slot()
                &&& comp.slot() != rx.slot()
            }
        }),
{
}

/// The queues of a socket that has been created can be used: each keeps the
/// socket alive and is the one that accesses its ring.
pub proof fn law_created_queues_are_valid(
    m: Model,
    n: Model,
    u: usize,
    request: CreateRequest,
    reply: CreateReply,
    fd: Option<i32>,
    tx_q: TxQueue,
    rx_q: RxQueue,
    ctx_q: Option<(FillQueue, CompQueue)>,
)
    requires
        crate::xsk::socket::outcome(m, n, u, request, reply, fd, Ok((tx_q, rx_q, ctx_q))),
    ensures
        tx_q.valid(n),
        rx_q.valid(n),
        ctx_q matches Some((fq, cq)) ==> fq.valid(n) && cq.valid(n),
{
}

/// When a socket is created, fill and comp queues are returned exactly if
/// libxdp has set up both rings. The UMEM then keeps these alive, nothing
/// becomes due, and otherwise they are freed, and nothing else.
pub proof fn law_created_queues(
    m: Model,
    n: Model,
    u: usize,
    request: CreateRequest,
    reply: CreateReply,
    fd: Option<i32>,
    tx_q: TxQueue,
    rx_q: RxQueue,
    ctx_q: Option<(FillQueue, CompQueue)>,
)
    requires
        m.umems.contains_key(u),
        crate::xsk::socket::outcome(m, n, u, request, reply, fd, Ok((tx_q, rx_q, ctx_q))),
    ensures
        ctx_q is Some <==> reply.fill.ring != 0 && reply.comp.ring != 0,
        ctx_q is None <==> reply.fill.ring == 0 && reply.comp.ring == 0,
        n.actions == (if reply.fill.ring != 0 && reply.comp.ring != 0 {
            m.actions
        } else {
            m.actions.push(Action::FreeProd(request.fill.mem)).push(
                Action::FreeCons(request.comp.mem),
            )
        }),
        ({
            let before = m.umems[u];
            let after = n.umems[u];
            let h = n.sockets[tx_q.spec_socket().spec_handle().slot()].value.umem.spec_handle();
            &&& n.umems.contains_key(u)
            &&& n.umems.remove(u) == m.umems.remove(u)
            &&& after.value.ptr == before.value.ptr
            &&& after.value.saved is None
            &&& !before.holders.contains(h.ticket())
            &&& after.holders == before.holders.insert(h.ticket())
            &&& ctx_q is None ==> after.value.ctxs == before.value.ctxs
            &&& ctx_q is Some ==> {
                &&& after.value.ctxs.len() == before.value.ctxs.len() + 1
                &&& forall|j: int|
                    0 <= j < before.value.ctxs.len() ==> #[trigger] after.value.ctxs[j]
                        == before.value.ctxs[j]
            }
        }),
{
    assert(n.umems.remove(u) =~= m.umems.remove(u));
    assert(n.actions =~= (if reply.fill.ring != 0 && reply.comp.ring != 0 {
        m.actions
    } else {
        m.actions.push(Action::FreeProd(request.fill.mem)).push(Action::FreeCons(request.comp.mem))
    }));
}

/// Creating a socket adds the rings of its queues and leaves all others as
/// they were, but for those that the UMEM was created with, which are no
/// longer the UMEM's.
pub proof fn law_created_rings_are_added(
    m: Model,
    n: Model,
    u: usize,
    request: CreateRequest,
    reply: CreateReply,
    fd: Option<i32>,
    tx_q: TxQueue,
    rx_q: RxQueue,
    ctx_q: Option<(FillQueue, CompQueue)>,
    r: usize,
)
    requires
        m.umems.contains_key(u),
        crate::xsk::socket::outcome(m, n, u, request, reply, fd, Ok((tx_q, rx_q, ctx_q))),
    ensures
        ({
            let saved = m.umems[u].value.saved matches Some(rings) && r
                == rings.fill.spec_handle().slot();
            let added = r == tx_q.spec_ring().spec_handle().slot() || (ctx_q matches Some((fq, _))
                && r == fq.spec_ring().spec_handle().slot());
            &&& n.prod.contains_key(r) <==> added || m.prod.contains_key(r) && !saved
            &&& m.prod.contains_key(r) && !saved ==> !added && n.prod[r] == m.prod[r]
        }),
        ({
            let saved = m.umems[u].value.saved matches Some(rings) && r
                == rings.comp.spec_handle().slot();
            let added = r == rx_q.spec_ring().spec_handle().slot() || (ctx_q matches Some((_, cq))
                && r == cq.spec_ring().spec_handle().slot());
            &&& n.cons.contains_key(r) <==> added || m.cons.contains_key(r) && !saved
            &&& m.cons.contains_key(r) && !saved ==> !added && n.cons[r] == m.cons[r]
        }),
{
}

/// When libxdp reports an error, the rx and tx rings are freed, and so are
/// new fill and comp rings, before them. Those that the UMEM was created with
/// stay with it and hold what libxdp has left there. All else is as it was.
pub proof fn law_error_leaves_all_as_it_was(
    heap: Heap,
    n: Model,
    u: usize,
    request: CreateRequest,
    reply: CreateReply,
    fd: Option<i32>,
    res: Created,
    r: usize,
)
    requires
        heap.wf(),
        heap@.umems.contains_key(u),
        request.fits(heap@, u),
        crate::xsk::socket::outcome(heap@, n, u, request, reply, fd, res),
        reply.err != 0,
    ensures
        res is Err,
        n.sockets == heap@.sockets,
        n.umems == heap@.umems,
        ({
            let m = heap@;
            match m.umems[u].value.saved {
                Some(rings) => {
                    let f = rings.fill.spec_handle().slot();
                    let c = rings.comp.spec_handle().slot();
                    &&& n.actions == m.actions.push(Action::FreeCons(request.rx.mem)).push(
                        Action::FreeProd(request.tx.mem),
                    )
                    &&& n.prod.dom() == m.prod.dom()
                    &&& m.prod.contains_key(r) && r != f ==> n.prod[r] == m.prod[r]
                    &&& n.prod[f].value.mem == m.prod[f].value.mem
                    &&& n.prod[f].value.ring == reply.fill
                    &&& n.prod[f].value.owner == m.prod[f].value.owner
                    &&& n.prod[f].holders == m.prod[f].holders
                    &&& n.cons.dom() == m.cons.dom()
                    &&& m.cons.contains_key(r) && r != c ==> n.cons[r] == m.cons[r]
                    &&& n.cons[c].value.mem == m.cons[c].value.mem
                    &&& n.cons[c].value.ring == reply.comp
                    &&& n.cons[c].value.owner == m.cons[c].value.owner
                    &&& n.cons[c].holders == m.cons[c].holders
                },
                None => {
                    &&& n.actions == m.actions.push(Action::FreeProd(request.fill.mem)).push(
                        Action::FreeCons(request.comp.mem),
                    ).push(Action::FreeCons(request.rx.mem)).push(Action::FreeProd(request.tx.mem))
                    &&& n.prod == m.prod
                    &&& n.cons == m.cons
                },
            }
        }),
{
    let m = heap@;
    assert(m.saved_ok(heap.cons_users@, heap.prod_users@, u));
    if m.umems[u].value.saved is Some {
        assert(n.actions =~= m.actions.push(Action::FreeCons(request.rx.mem)).push(
            Action::FreeProd(request.tx.mem),
        ));
        assert(n.prod.dom() =~= m.prod.dom());
        assert(n.cons.dom() =~= m.cons.dom());
    } else {
        assert(n.actions =~= m.actions.push(Action::FreeProd(request.fill.mem)).push(
            Action::FreeCons(request.comp.mem),
        ).push(Action::FreeCons(request.rx.mem)).push(Action::FreeProd(request.tx.mem)));
    }
}

/// When a socket is refused although libxdp reports no error, what it has
/// created is deleted, if anything, before the rx and tx rings are freed.
/// Fill and comp rings are freed first if libxdp has set up neither.
/// No socket is added.
pub proof fn law_refused_socket_is_deleted(
    m: Model,
    n: Model,
    u: usize,
    request: CreateRequest,
    reply: CreateReply,
    fd: Option<i32>,
    e: SocketCreateError,
)
    requires
        crate::xsk::socket::outcome(m, n, u, request, reply, fd, Err(e)),
        reply.err == 0,
    ensures
        n.sockets == m.sockets,
        ({
            let unused = if reply.fill.ring == 0 && reply.comp.ring == 0 {
                m.actions.push(Action::FreeProd(request.fill.mem)).push(
                    Action::FreeCons(request.comp.mem),
                )
            } else {
                m.actions
            };
            let deleted = if reply.socket != 0 {
                unused.push(Action::DeleteSocket(reply.socket))
            } else {
                unused
            };
            n.actions == deleted.push(Action::FreeCons(request.rx.mem)).push(
                Action::FreeProd(request.tx.mem),
            )
        }),
{
    let unused = if reply.fill.ring == 0 && reply.comp.ring == 0 {
        m.actions.push(Action::FreeProd(request.fill.mem)).push(Action::FreeCons(request.comp.mem))
    } else {
        m.actions
    };
    let deleted = if reply.socket != 0 {
        unused.push(Action::DeleteSocket(reply.socket))
    } else {
        unused
    };
    assert(n.actions =~= deleted.push(Action::FreeCons(request.rx.mem)).push(
        Action::FreeProd(request.tx.mem),
    ));
}

/// When a socket is refused although libxdp reports no error, the UMEM keeps
/// alive the fill and comp rings if libxdp has set up either, with a handle
/// on each, where libxdp has them and with what it has left there. All other
/// rings are as they were, but for those that the UMEM was created with,
/// which are no longer the UMEM's.
pub proof fn law_refused_rings_stay_with_umem(
    m: Model,
    n: Model,
    u: usize,
    request: CreateRequest,
    reply: CreateReply,
    fd: Option<i32>,
    e: SocketCreateError,
    r: usize,
)
    requires
        m.umems.contains_key(u),
        crate::xsk::socket::outcome(m, n, u, request, reply, fd, Err(e)),
        reply.err == 0,
    ensures
        ({
            let before = m.umems[u];
            let after = n.umems[u];
            let kept = reply.fill.ring != 0 || reply.comp.ring != 0;
            let ctxs = after.value.ctxs;
            let f = ctxs[ctxs.len() - 1].fill.spec_handle();
            let c = ctxs[ctxs.len() - 1].comp.spec_handle();
            let saved_f = before.value.saved matches Some(rings) && r
                == rings.fill.spec_handle().slot();
            let saved_c = before.value.saved matches Some(rings) && r
                == rings.comp.spec_handle().slot();
            &&& n.umems.contains_key(u)
            &&& n.umems.remove(u) == m.umems.remove(u)
            &&& after.holders == before.holders
            &&& after.value.ptr == before.value.ptr
            &&& after.value.saved is None
            &&& !kept ==> ctxs == before.value.ctxs
            &&& kept ==> {
                &&& ctxs.len() == before.value.ctxs.len() + 1
                &&& forall|j: int|
                    0 <= j < before.value.ctxs.len() ==> #[trigger] ctxs[j]
                        == before.value.ctxs[j]
                &&& n.prod[f.slot()].value.mem == request.fill.mem
                &&& n.prod[f.slot()].value.ring == reply.fill
                &&& n.prod[f.slot()].value.owner@ != f.ticket()
                &&& n.prod[f.slot()].holders == Set::<nat>::empty().insert(f.ticket())
                &&& n.cons[c.slot()].value.mem == request.comp.mem
                &&& n.cons[c.slot()].value.ring == reply.comp
                &&& n.cons[c.slot()].value.owner@ != c.ticket()
                &&& n.cons[c.slot()].holders == Set::<nat>::empty().insert(c.ticket())
            }
            &&& n.prod.contains_key(r) <==> kept && r == f.slot() || m.prod.contains_key(r)
                && !saved_f
            &&& m.prod.contains_key(r) && !saved_f ==> n.prod[r] == m.prod[r]
            &&& n.cons.contains_key(r) <==> kept && r == c.slot() || m.cons.contains_key(r)
                && !saved_c
            &&& m.cons.contains_key(r) && !saved_c ==> n.cons[r] == m.cons[r]
        }),
{
    assert(n.umems.remove(u) =~= m.umems.remove(u));
}

/// Fill and comp rings that libxdp has kept pointers to are alive, and
/// nothing that is due frees them.
pub proof fn law_kept_rings_are_not_freed(
    heap: Heap,
    after: Heap,
    u: usize,
    request: CreateRequest,
    reply: CreateReply,
    fd: Option<i32>,
    res: Created,
)
    requires
        heap.wf(),
        after.wf(),
        heap@.umems.contains_key(u),
        request.fits(heap@, u),
        crate::xsk::socket::outcome(heap@, after@, u, request, reply, fd, res),
        reply.err == 0,
        reply.fill.ring != 0 || reply.comp.ring != 0,
    ensures
        exists|r: usize| #[trigger]
            after@.prod.contains_key(r) && after@.prod[r].value.mem == request.fill.mem,
        exists|r: usize| #[trigger]
            after@.cons.contains_key(r) && after@.cons[r].value.mem == request.comp.mem,
        forall|i: int|
            0 <= i < after@.actions.len() ==> #[trigger] after@.actions[i] != Action::FreeProd(
                request.fill.mem,
            ) && after@.actions[i] != Action::FreeCons(request.comp.mem),
{
    let n = after@;
    let ctx = n.umems[u].value.ctxs.last();
    let f = ctx.fill.spec_handle().slot();
    let c = ctx.comp.spec_handle().slot();
    assert(n.prod.contains_key(f) && n.prod[f].value.mem == request.fill.mem);
    assert(n.cons.contains_key(c) && n.cons[c].value.mem == request.comp.mem);
    assert forall|i: int| 0 <= i < n.actions.len() implies #[trigger] n.actions[i]
        != Action::FreeProd(request.fill.mem) && n.actions[i] != Action::FreeCons(
        request.comp.mem,
    ) by {
        assert(n.actions[i].freed() matches Some(mem) ==> n.unoccupied(mem));
    }
}

/// What is due for a UMEM that nothing keeps alive.
proof fn lemma_umem_actions(m: Model, h: Handle)
    requires
        m.umems[h.slot()].last_holder(h.ticket()),
    ensures
        ({
            let umem = m.umems[h.slot()].value;
            let due = crate::xsk::laws::umem_actions(m, h);
            let x: int = if umem.saved is Some {
                3
            } else {
                1
            };
            &&& due.len() == x + 2 * umem.ctxs.len()
            &&& due[0] == Action::DeleteUmem(umem.ptr)
            &&& umem.saved matches Some(rings) ==> {
                &&& due[1] == Action::FreeProd(m.prod[rings.fill.spec_handle().slot()].value.mem)
                &&& due[2] == Action::FreeCons(m.cons[rings.comp.spec_handle().slot()].value.mem)
            }
            &&& forall|j: int|
                #![trigger umem.ctxs[j]]
                0 <= j < umem.ctxs.len() ==> {
                    &&& due[x + 2 * j] == Action::FreeProd(
                        m.prod[umem.ctxs[j].fill.spec_handle().slot()].value.mem,
                    )
                    &&& due[x + 2 * j + 1] == Action::FreeCons(
                        m.cons[umem.ctxs[j].comp.spec_handle().slot()].value.mem,
                    )
                }
        }),
{
    let umem = m.umems[h.slot()].value;
    let due = crate::xsk::laws::umem_actions(m, h);
    let frees = m.ctx_frees(umem.ctxs);
    let x: int = if umem.saved is Some {
        3
    } else {
        1
    };
    crate::xsk::memory::lemma_ctx_victims(m, umem.ctxs);
    assert forall|j: int|
        #![trigger umem.ctxs[j]]
        0 <= j < umem.ctxs.len() implies {
        &&& due[x + 2 * j] == Action::FreeProd(
            m.prod[umem.ctxs[j].fill.spec_handle().slot()].value.mem,
        )
        &&& due[x + 2 * j + 1] == Action::FreeCons(
            m.cons[umem.ctxs[j].comp.spec_handle().slot()].value.mem,
        )
    } by {
        assert(due[x + 2 * j] == frees[2 * j]);
        assert(due[x + 2 * j + 1] == frees[2 * j + 1]);
        assert(crate::xsk::memory::ctx_victims(umem.ctxs)[2 * j] == crate::xsk::memory::Ring::Prod(
            umem.ctxs[j].fill.spec_handle().slot(),
        ));
        assert(crate::xsk::memory::ctx_victims(umem.ctxs)[2 * j + 1]
            == crate::xsk::memory::Ring::Cons(umem.ctxs[j].comp.spec_handle().slot()));
    }
}

/// Giving up a handle on a UMEM that has another takes it from the holders
/// and does nothing else.
pub proof fn law_umem_drop_removes_a_holder(m: Model, h: Handle, other: nat, u: usize, t: nat)
    requires
        m.umems.contains_key(h.slot()),
        m.umems[h.slot()].holders.contains(other),
        other != h.ticket(),
    ensures
        ({
            let n = m.release_umem(h);
            &&& n.cons == m.cons
            &&& n.prod == m.prod
            &&& n.sockets == m.sockets
            &&& n.actions == m.actions
            &&& n.umems.contains_key(u) <==> m.umems.contains_key(u)
            &&& m.umems.contains_key(u) ==> {
                &&& n.umems[u].value == m.umems[u].value
                &&& n.umems[u].holders.contains(t) <==> m.umems[u].holders.contains(t) && !(u
                    == h.slot() && t == h.ticket())
            }
        }),
{
    if m.umems[h.slot()].last_holder(h.ticket()) {
        assert(set![h.ticket()].contains(other));
    }
}

/// Giving up the last handle on a UMEM deletes it, at the address that it
/// has. After that the rings that it was created with are freed if it still
/// has them, and then those of its sockets, in the order in which it got
/// them. Sockets are left as they were.
pub proof fn law_last_umem_drop_deletes_it(heap: Heap, umem: Umem)
    requires
        heap.wf(),
        umem.valid(heap@),
        forall|t: nat| #[trigger]
            heap@.umems[umem.spec_handle().slot()].holders.contains(t) ==> t
                == umem.spec_handle().ticket(),
    ensures
        ({
            let m = heap@;
            let u = umem.spec_handle().slot();
            let n = m.release_umem(umem.spec_handle());
            let gone = m.umems[u].value;
            let k = m.actions.len() as int;
            let x: int = if gone.saved is Some {
                k + 3
            } else {
                k + 1
            };
            &&& n.sockets == m.sockets
            &&& n.umems == m.umems.remove(u)
            &&& n.actions.len() == x + 2 * gone.ctxs.len()
            &&& forall|i: int| 0 <= i < k ==> #[trigger] n.actions[i] == m.actions[i]
            &&& n.actions[k] == Action::DeleteUmem(gone.ptr)
            &&& gone.saved matches Some(rings) ==> {
                &&& n.actions[k + 1] == Action::FreeProd(
                    m.prod[rings.fill.spec_handle().slot()].value.mem,
                )
                &&& n.actions[k + 2] == Action::FreeCons(
                    m.cons[rings.comp.spec_handle().slot()].value.mem,
                )
            }
            &&& forall|j: int|
                #![trigger gone.ctxs[j]]
                0 <= j < gone.ctxs.len() ==> {
                    &&& n.actions[x + 2 * j] == Action::FreeProd(
                        m.prod[gone.ctxs[j].fill.spec_handle().slot()].value.mem,
                    )
                    &&& n.actions[x + 2 * j + 1] == Action::FreeCons(
                        m.cons[gone.ctxs[j].comp.spec_handle().slot()].value.mem,
                    )
                }
        }),
{
    let m = heap@;
    let h = umem.spec_handle();
    let u = h.slot();
    let n = m.release_umem(h);
    let ctxs = m.umems[u].value.ctxs;
    let due = crate::xsk::laws::umem_actions(m, h);
    let k = m.actions.len() as int;
    law_last_holder_is_alone(m.umems[u], h.ticket());
    assert(m.saved_ok(heap.cons_users@, heap.prod_users@, u));
    assert forall|j: int| 0 <= j < ctxs.len() implies {
        &&& m.unsaved(u).prod[(#[trigger] ctxs[j]).fill.spec_handle().slot()].value.mem
            == m.prod[ctxs[j].fill.spec_handle().slot()].value.mem
        &&& m.unsaved(u).cons[ctxs[j].comp.spec_handle().slot()].value.mem
            == m.cons[ctxs[j].comp.spec_handle().slot()].value.mem
    } by {
        assert(m.umems[u].value.ctxs[j] == ctxs[j]);
        assert(m.ctx_ok(heap.cons_users@, heap.prod_users@, u, j));
    }
    crate::xsk::laws::lemma_ctx_frees(m.unsaved(u), m, ctxs);
    lemma_umem_actions(m, h);
    assert(n.actions =~= m.actions + due);
    let x: int = if m.umems[u].value.saved is Some {
        3
    } else {
        1
    };
    assert forall|j: int|
        #![trigger ctxs[j]]
        0 <= j < ctxs.len() implies {
        &&& n.actions[k + x + 2 * j] == Action::FreeProd(
            m.prod[ctxs[j].fill.spec_handle().slot()].value.mem,
        )
        &&& n.actions[k + x + 2 * j + 1] == Action::FreeCons(
            m.cons[ctxs[j].comp.spec_handle().slot()].value.mem,
        )
    } by {
        assert(n.actions[k + x + 2 * j] == due[x + 2 * j]);
        assert(n.actions[k + x + 2 * j + 1] == due[x + 2 * j + 1]);
    }
}

/// Giving up the last handle on a UMEM takes its rings and no others.
pub proof fn law_last_umem_drop_takes_its_rings(heap: Heap, umem: Umem, r: usize)
    requires
        heap.wf(),
        umem.valid(heap@),
        forall|t: nat| #[trigger]
            heap@.umems[umem.spec_handle().slot()].holders.contains(t) ==> t
                == umem.spec_handle().ticket(),
    ensures
        ({
            let m = heap@;
            let n = m.release_umem(umem.spec_handle());
            let gone = m.umems[umem.spec_handle().slot()].value;
            &&& n.prod.contains_key(r) <==> {
                &&& m.prod.contains_key(r)
                &&& gone.saved matches Some(rings) ==> r != rings.fill.spec_handle().slot()
                &&& forall|j: int|
                    0 <= j < gone.ctxs.len() ==> r != (
                    #[trigger] gone.ctxs[j]).fill.spec_handle().slot()
            }
            &&& n.prod.contains_key(r) ==> n.prod[r] == m.prod[r]
            &&& n.cons.contains_key(r) <==> {
                &&& m.cons.contains_key(r)
                &&& gone.saved matches Some(rings) ==> r != rings.comp.spec_handle().slot()
                &&& forall|j: int|
                    0 <= j < gone.ctxs.len() ==> r != (
                    #[trigger] gone.ctxs[j]).comp.spec_handle().slot()
            }
            &&& n.cons.contains_key(r) ==> n.cons[r] == m.cons[r]
        }),
{
    let m = heap@;
    let h = umem.spec_handle();
    let gone = m.umems[h.slot()].value;
    law_last_holder_is_alone(m.umems[h.slot()], h.ticket());
    lemma_slots(gone.ctxs, r);
}

/// The slots of rings, each way.
proof fn lemma_slots(ctxs: Seq<Ctx>, r: usize)
    ensures
        crate::xsk::fill_slots(ctxs).contains(r) <==> !(forall|j: int|
            0 <= j < ctxs.len() ==> r != (#[trigger] ctxs[j]).fill.spec_handle().slot()),
        crate::xsk::comp_slots(ctxs).contains(r) <==> !(forall|j: int|
            0 <= j < ctxs.len() ==> r != (#[trigger] ctxs[j]).comp.spec_handle().slot()),
{
    if crate::xsk::fill_slots(ctxs).contains(r) {
        let j = choose|j: int|
            0 <= j < ctxs.len() && #[trigger] ctxs[j].fill.spec_handle().slot() == r;
        assert(r == ctxs[j].fill.spec_handle().slot());
    }
    if crate::xsk::comp_slots(ctxs).contains(r) {
        let j = choose|j: int|
            0 <= j < ctxs.len() && #[trigger] ctxs[j].comp.spec_handle().slot() == r;
        assert(r == ctxs[j].comp.spec_handle().slot());
    }
}

impl Holder {
    /// Whether dropping this takes the holder `t` from the producer ring in
    /// slot `r`: a tx or fill queue gives up its own ring.
    pub open spec fn lets_go_of_prod(self, r: usize, t: nat) -> bool {
        match self {
            Holder::Tx(q) => r == q.spec_ring().spec_handle().slot() && t
                == q.spec_ring().spec_handle().ticket(),
            Holder::Fill(q) => r == q.spec_ring().spec_handle().slot() && t
                == q.spec_ring().spec_handle().ticket(),
            _ => false,
        }
    }

    /// Whether dropping this takes the holder `t` from the consumer ring in
    /// slot `r`: an rx or completion queue gives up its own ring.
    pub open spec fn lets_go_of_cons(self, r: usize, t: nat) -> bool {
        match self {
            Holder::Rx(q) => r == q.spec_ring().spec_handle().slot() && t
                == q.spec_ring().spec_handle().ticket(),
            Holder::Comp(q) => r == q.spec_ring().spec_handle().slot() && t
                == q.spec_ring().spec_handle().ticket(),
            _ => false,
        }
    }
}

/// Dropping a queue, or a handle on a socket, lets go of the queue's own ring
/// and of no other. Rings that stay are where they were and hold what they
/// held.
pub proof fn law_drop_lets_go_of_its_ring(heap: Heap, q: Holder, r: usize, t: nat)
    requires
        heap.wf(),
        q.valid(heap@),
    ensures
        ({
            let m = heap@;
            let n = q.dropped(m);
            &&& n.prod.contains_key(r) ==> {
                &&& m.prod.contains_key(r)
                &&& n.prod[r].value == m.prod[r].value
                &&& n.prod[r].holders.contains(t) <==> m.prod[r].holders.contains(t)
                    && !q.lets_go_of_prod(r, t)
            }
            &&& n.cons.contains_key(r) ==> {
                &&& m.cons.contains_key(r)
                &&& n.cons[r].value == m.cons[r].value
                &&& n.cons[r].holders.contains(t) <==> m.cons[r].holders.contains(t)
                    && !q.lets_go_of_cons(r, t)
            }
        }),
{
}

/// Dropping a queue, or a handle on a socket, while something else keeps the
/// socket alive takes it from the holders of the socket. No ring goes, and
/// nothing becomes due.
pub proof fn law_drop_removes_a_holder(heap: Heap, q: Holder, other: nat, s: usize, t: nat)
    requires
        heap.wf(),
        q.valid(heap@),
        heap@.sockets[q.handle().slot()].holders.contains(other),
        other != q.handle().ticket(),
    ensures
        ({
            let m = heap@;
            let n = q.dropped(m);
            &&& n.umems == m.umems
            &&& n.actions == m.actions
            &&& n.prod.dom() == m.prod.dom()
            &&& n.cons.dom() == m.cons.dom()
            &&& n.sockets.contains_key(s) <==> m.sockets.contains_key(s)
            &&& m.sockets.contains_key(s) ==> {
                &&& n.sockets[s].value == m.sockets[s].value
                &&& n.sockets[s].holders.contains(t) <==> m.sockets[s].holders.contains(t) && !(s
                    == q.handle().slot() && t == q.handle().ticket())
            }
        }),
{
    let m = heap@;
    let n = q.dropped(m);
    if m.sockets[q.handle().slot()].last_holder(q.handle().ticket()) {
        assert(set![q.handle().ticket()].contains(other));
    }
    assert(n.prod.dom() =~= m.prod.dom());
    assert(n.cons.dom() =~= m.cons.dom());
}

/// Dropping what alone keeps a socket alive deletes the socket, at the
/// address that it has, and frees its rx and its tx ring after that. If
/// something else keeps its UMEM alive, its handle on that is given up, and
/// nothing else is done.
pub proof fn law_last_drop_deletes_socket(
    heap: Heap,
    q: Holder,
    other: nat,
    r: usize,
    u: usize,
    t: nat,
)
    requires
        heap.wf(),
        q.valid(heap@),
        forall|k: nat| #[trigger]
            heap@.sockets[q.handle().slot()].holders.contains(k) ==> k == q.handle().ticket(),
        ({
            let h = heap@.sockets[q.handle().slot()].value.umem.spec_handle();
            heap@.umems[h.slot()].holders.contains(other) && other != h.ticket()
        }),
    ensures
        ({
            let m = heap@;
            let n = q.dropped(m);
            let inner = m.sockets[q.handle().slot()].value;
            let h = inner.umem.spec_handle();
            let rx = inner.rx_ring.spec_handle().slot();
            let tx = inner.tx_ring.spec_handle().slot();
            &&& n.sockets == m.sockets.remove(q.handle().slot())
            &&& n.actions == m.actions.push(Action::DeleteSocket(inner.ptr)).push(
                Action::FreeCons(m.cons[rx].value.mem),
            ).push(Action::FreeProd(m.prod[tx].value.mem))
            &&& n.cons.contains_key(r) <==> m.cons.contains_key(r) && r != rx
            &&& n.prod.contains_key(r) <==> m.prod.contains_key(r) && r != tx
            &&& n.umems.contains_key(u) <==> m.umems.contains_key(u)
            &&& m.umems.contains_key(u) ==> {
                &&& n.umems[u].value == m.umems[u].value
                &&& n.umems[u].holders.contains(t) <==> m.umems[u].holders.contains(t) && !(u
                    == h.slot() && t == h.ticket())
            }
        }),
{
    let m = heap@;
    let n = q.dropped(m);
    let s = q.handle().slot();
    let inner = m.sockets[s].value;
    let h = inner.umem.spec_handle();
    let rx = inner.rx_ring.spec_handle().slot();
    let tx = inner.tx_ring.spec_handle().slot();
    assert(m.socket_ok(heap.cons_users@, heap.prod_users@, s));
    law_last_holder_is_alone(m.sockets[s], q.handle().ticket());
    if m.umems[h.slot()].last_holder(h.ticket()) {
        assert(set![h.ticket()].contains(other));
    }
    assert(n.sockets =~= m.sockets.remove(s));
    assert(n.actions =~= m.actions.push(Action::DeleteSocket(inner.ptr)).push(
        Action::FreeCons(m.cons[rx].value.mem),
    ).push(Action::FreeProd(m.prod[tx].value.mem)));
}

/// If nothing but the socket has kept its UMEM alive, the UMEM is deleted
/// after the socket and its rings, and the rings of its pairs are freed after
/// that, in the order in which it got them.
pub proof fn law_last_drop_deletes_umem(heap: Heap, q: Holder, r: usize)
    requires
        heap.wf(),
        q.valid(heap@),
        forall|k: nat| #[trigger]
            heap@.sockets[q.handle().slot()].holders.contains(k) ==> k == q.handle().ticket(),
        ({
            let h = heap@.sockets[q.handle().slot()].value.umem.spec_handle();
            forall|k: nat| #[trigger]
                heap@.umems[h.slot()].holders.contains(k) ==> k == h.ticket()
        }),
    ensures
        ({
            let m = heap@;
            let n = q.dropped(m);
            let inner = m.sockets[q.handle().slot()].value;
            let u = inner.umem.spec_handle().slot();
            let rx = inner.rx_ring.spec_handle().slot();
            let tx = inner.tx_ring.spec_handle().slot();
            let ctxs = m.umems[u].value.ctxs;
            let k = m.actions.len() as int;
            &&& n.sockets == m.sockets.remove(q.handle().slot())
            &&& n.umems == m.umems.remove(u)
            &&& n.actions.len() == k + 4 + 2 * ctxs.len()
            &&& forall|i: int| 0 <= i < k ==> #[trigger] n.actions[i] == m.actions[i]
            &&& n.actions[k] == Action::DeleteSocket(inner.ptr)
            &&& n.actions[k + 1] == Action::FreeCons(m.cons[rx].value.mem)
            &&& n.actions[k + 2] == Action::FreeProd(m.prod[tx].value.mem)
            &&& n.actions[k + 3] == Action::DeleteUmem(m.umems[u].value.ptr)
            &&& forall|j: int|
                #![trigger ctxs[j]]
                0 <= j < ctxs.len() ==> {
                    &&& n.actions[k + 4 + 2 * j] == Action::FreeProd(
                        m.prod[ctxs[j].fill.spec_handle().slot()].value.mem,
                    )
                    &&& n.actions[k + 5 + 2 * j] == Action::FreeCons(
                        m.cons[ctxs[j].comp.spec_handle().slot()].value.mem,
                    )
                }
            &&& n.prod.contains_key(r) <==> m.prod.contains_key(r) && r != tx && forall|j: int|
                0 <= j < ctxs.len() ==> r != (#[trigger] ctxs[j]).fill.spec_handle().slot()
            &&& n.cons.contains_key(r) <==> m.cons.contains_key(r) && r != rx && forall|j: int|
                0 <= j < ctxs.len() ==> r != (#[trigger] ctxs[j]).comp.spec_handle().slot()
        }),
{
    let m = heap@;
    let n = q.dropped(m);
    let s = q.handle().slot();
    let inner = m.sockets[s].value;
    let h = inner.umem.spec_handle();
    let u = h.slot();
    let rx = inner.rx_ring.spec_handle().slot();
    let tx = inner.tx_ring.spec_handle().slot();
    let ctxs = m.umems[u].value.ctxs;
    let k = m.actions.len() as int;
    let due = crate::xsk::laws::umem_actions(m, h);
    let first = seq![
        Action::DeleteSocket(inner.ptr),
        Action::FreeCons(m.cons[rx].value.mem),
        Action::FreeProd(m.prod[tx].value.mem),
    ];
    assert(m.socket_ok(heap.cons_users@, heap.prod_users@, s));
    law_last_holder_is_alone(m.sockets[s], q.handle().ticket());
    law_last_holder_is_alone(m.umems[u], h.ticket());
    let all = seq![q];
    assert(all.drop_last() =~= seq![]);
    assert(crate::xsk::laws::dropped(m, all.drop_last()) == m);
    assert(crate::xsk::laws::all_holders(m, s, all)) by {
        assert forall|k: nat| #[trigger] m.sockets[s].holders.contains(k) implies exists|i: int|
            0 <= i < all.len() && (#[trigger] all[i]).handle().ticket() == k by {
            assert(all[0].handle().ticket() == k);
        }
    }
    crate::xsk::laws::law_any_drop_order(heap, s, all);
    assert(n.actions =~= m.actions + (first + due));
    lemma_umem_actions(m, h);
    lemma_slots(ctxs, r);
    assert(n.umems =~= m.umems.remove(u));
    assert forall|j: int|
        #![trigger ctxs[j]]
        0 <= j < ctxs.len() implies {
        &&& n.actions[k + 4 + 2 * j] == Action::FreeProd(
            m.prod[ctxs[j].fill.spec_handle().slot()].value.mem,
        )
        &&& n.actions[k + 5 + 2 * j] == Action::FreeCons(
            m.cons[ctxs[j].comp.spec_handle().slot()].value.mem,
        )
    } by {
        assert(n.actions[k + 4 + 2 * j] == due[1 + 2 * j]);
        assert(n.actions[k + 5 + 2 * j] == due[2 + 2 * j]);
    }
}

} // verus!

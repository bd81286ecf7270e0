//! What holds of the heap as a whole.

use crate::ring::{Rings, XskRing, XskRingCons, XskRingProd};
use crate::table::Handle;
use crate::xsk::queue::{CompQueue, FillQueue, RxQueue, TxQueue};
use crate::xsk::socket::{CreateReply, CreateRequest, Created, Socket};
use crate::xsk::umem::Umem;
use crate::xsk::{Action, Ctx, Device, Heap, Model, RingPair};
use vstd::prelude::*;

verus! {

/// Anything that keeps a socket alive: one of its queues, or a handle that
/// is no queue's.
pub enum Holder {
    Tx(TxQueue),
    Rx(RxQueue),
    Fill(FillQueue),
    Comp(CompQueue),
    Socket(Socket),
}

impl Holder {
    /// The handle on the socket.
    pub open spec fn handle(self) -> Handle {
        match self {
            Holder::Tx(q) => q.spec_socket().spec_handle(),
            Holder::Rx(q) => q.spec_socket().spec_handle(),
            Holder::Fill(q) => q.spec_socket().spec_handle(),
            Holder::Comp(q) => q.spec_socket().spec_handle(),
            Holder::Socket(socket) => socket.spec_handle(),
        }
    }

    pub open spec fn valid(self, m: Model) -> bool {
        match self {
            Holder::Tx(q) => q.valid(m),
            Holder::Rx(q) => q.valid(m),
            Holder::Fill(q) => q.valid(m),
            Holder::Comp(q) => q.valid(m),
            Holder::Socket(socket) => socket.valid(m),
        }
    }

    /// What is alive once a queue has given up its ring.
    pub open spec fn ringless(self, m: Model) -> Model {
        match self {
            Holder::Tx(q) => m.release_prod(q.spec_ring().spec_handle()),
            Holder::Rx(q) => m.release_cons(q.spec_ring().spec_handle()),
            Holder::Fill(q) => m.release_prod(q.spec_ring().spec_handle()),
            Holder::Comp(q) => m.release_cons(q.spec_ring().spec_handle()),
            Holder::Socket(_) => m,
        }
    }

    /// What is alive once the queue or the handle has been dropped.
    pub open spec fn dropped(self, m: Model) -> Model {
        self.ringless(m).release_socket(self.handle())
    }
}

/// What is alive once `holders` have been dropped, in this order.
pub open spec fn dropped(m: Model, holders: Seq<Holder>) -> Model
    decreases holders.len(),
{
    if holders.len() == 0 {
        m
    } else {
        holders.last().dropped(dropped(m, holders.drop_last()))
    }
}

/// Whether `holders` are all that keeps the socket in slot `s` alive, each
/// once.
pub open spec fn all_holders(m: Model, s: usize, holders: Seq<Holder>) -> bool {
    &&& m.sockets.contains_key(s)
    &&& forall|i: int|
        0 <= i < holders.len() ==> (#[trigger] holders[i]).valid(m) && holders[i].handle().slot()
            == s
    &&& forall|i: int, j: int|
        0 <= i < j < holders.len() ==> (#[trigger] holders[i]).handle().ticket() != (
        #[trigger] holders[j]).handle().ticket()
    &&& forall|t: nat| #[trigger]
        m.sockets[s].holders.contains(t) ==> exists|i: int|
            0 <= i < holders.len() && (#[trigger] holders[i]).handle().ticket() == t
}

/// What is done about the UMEM when the handle `h` on it is given up.
pub open spec fn umem_actions(m: Model, h: Handle) -> Seq<Action> {
    let umem = m.umems[h.slot()];
    if umem.last_holder(h.ticket()) {
        seq![Action::DeleteUmem(umem.value.ptr)] + m.saved_frees(h.slot()) + m.ctx_frees(
            umem.value.ctxs,
        )
    } else {
        seq![]
    }
}

/// Whether the rings are the same but for what keeps them alive.
pub open spec fn same_rings(a: Rings, b: Rings) -> bool {
    &&& a.dom() == b.dom()
    &&& forall|r: usize| #[trigger] a.contains_key(r) ==> a[r].value == b[r].value
}

/// While a socket is alive, so are the rings that libxdp dereferences
/// when deleting it: its rx and tx rings, and all fill and comp rings of
/// its UMEM. None of the handles that keep them so grants access.
pub proof fn law_rings_outlive_socket(heap: Heap, s: usize, j: int)
    requires
        heap.wf(),
        heap@.sockets.contains_key(s),
    ensures
        ({
            let inner = heap@.sockets[s].value;
            let umem = inner.umem.spec_handle();
            let ctxs = heap@.umems[umem.slot()].value.ctxs;
            &&& crate::table::holds(heap@.cons, inner.rx_ring.spec_handle())
            &&& !crate::ring::grants_access(heap@.cons, inner.rx_ring.spec_handle())
            &&& crate::table::holds(heap@.prod, inner.tx_ring.spec_handle())
            &&& !crate::ring::grants_access(heap@.prod, inner.tx_ring.spec_handle())
            &&& crate::table::holds(heap@.umems, umem)
            &&& 0 <= j < ctxs.len() ==> {
                &&& crate::table::holds(heap@.prod, ctxs[j].fill.spec_handle())
                &&& !crate::ring::grants_access(heap@.prod, ctxs[j].fill.spec_handle())
                &&& crate::table::holds(heap@.cons, ctxs[j].comp.spec_handle())
                &&& !crate::ring::grants_access(heap@.cons, ctxs[j].comp.spec_handle())
            }
        }),
{
    let m = heap@;
    assert(m.socket_ok(heap.cons_users@, heap.prod_users@, s));
    let u = m.sockets[s].value.umem.spec_handle().slot();
    if 0 <= j < m.umems[u].value.ctxs.len() {
        let ctx = m.umems[u].value.ctxs[j];
        assert(m.ctx_ok(heap.cons_users@, heap.prod_users@, u, j));
    }
}

/// While a UMEM is alive, so are the rings that it was created with.
pub proof fn law_saved_rings_outlive_umem(heap: Heap, u: usize, rings: RingPair)
    requires
        heap.wf(),
        heap@.umems.contains_key(u),
        heap@.umems[u].value.saved == Some(rings),
    ensures
        rings.fill.owns(heap@.prod),
        rings.comp.owns(heap@.cons),
{
    assert(heap@.saved_ok(heap.cons_users@, heap.prod_users@, u));
}

/// While a UMEM is alive, so are all fill and comp rings that its sockets
/// have been created with.
pub proof fn law_rings_outlive_umem(heap: Heap, u: usize, j: int)
    requires
        heap.wf(),
        heap@.umems.contains_key(u),
        0 <= j < heap@.umems[u].value.ctxs.len(),
    ensures
        crate::table::holds(heap@.prod, heap@.umems[u].value.ctxs[j].fill.spec_handle()),
        crate::table::holds(heap@.cons, heap@.umems[u].value.ctxs[j].comp.spec_handle()),
{
    let ctx = heap@.umems[u].value.ctxs[j];
    assert(heap@.ctx_ok(heap.cons_users@, heap.prod_users@, u, j));
}

/// Nothing is left behind: when there is neither a socket nor a UMEM,
/// there is no ring either.
pub proof fn law_nothing_leaks(heap: Heap)
    requires
        heap.wf(),
        heap@.sockets =~= Map::empty(),
        heap@.umems =~= Map::empty(),
    ensures
        heap@.cons =~= Map::empty(),
        heap@.prod =~= Map::empty(),
{
    let m = heap@;
    assert forall|r: usize| !m.cons.contains_key(r) by {
        if m.cons.contains_key(r) {
            assert(heap.cons_users@.contains_key(r));
        }
    }
    assert forall|r: usize| !m.prod.contains_key(r) by {
        if m.prod.contains_key(r) {
            assert(heap.prod_users@.contains_key(r));
        }
    }
}

/// A ring is only ever accessed through a single wrapper: two wrappers
/// that access the same consumer ring are one and the same.
pub proof fn law_single_cons_wrapper(rings: Rings, a: XskRingCons, b: XskRingCons)
    requires
        a.owns(rings),
        b.owns(rings),
        a.spec_handle().slot() == b.spec_handle().slot(),
    ensures
        a.spec_handle() == b.spec_handle(),
{
    crate::table::handle_ext(a.spec_handle(), b.spec_handle());
}

/// A ring is only ever accessed through a single wrapper: two wrappers
/// that access the same producer ring are one and the same.
pub proof fn law_single_prod_wrapper(rings: Rings, a: XskRingProd, b: XskRingProd)
    requires
        a.owns(rings),
        b.owns(rings),
        a.spec_handle().slot() == b.spec_handle().slot(),
    ensures
        a.spec_handle() == b.spec_handle(),
{
    crate::table::handle_ext(a.spec_handle(), b.spec_handle());
}

/// What is freed depends on the addresses alone.
pub(super) proof fn lemma_ctx_frees(a: Model, b: Model, ctxs: Seq<Ctx>)
    requires
        forall|j: int|
            0 <= j < ctxs.len() ==> a.prod[(#[trigger] ctxs[j]).fill.spec_handle().slot()].value.mem
                == b.prod[ctxs[j].fill.spec_handle().slot()].value.mem,
        forall|j: int|
            0 <= j < ctxs.len() ==> a.cons[(#[trigger] ctxs[j]).comp.spec_handle().slot()].value.mem
                == b.cons[ctxs[j].comp.spec_handle().slot()].value.mem,
    ensures
        a.ctx_frees(ctxs) == b.ctx_frees(ctxs),
    decreases ctxs.len(),
{
    if ctxs.len() > 0 {
        let rest = ctxs.drop_last();
        assert forall|j: int| 0 <= j < rest.len() implies rest[j] == #[trigger] ctxs[j] by {}
        lemma_ctx_frees(a, b, rest);
        assert(ctxs.last() == ctxs[ctxs.len() - 1]);
    }
}

/// What is left of a socket when some of its holders have gone.
proof fn lemma_some_dropped(heap: Heap, s: usize, holders: Seq<Holder>, n: int)
    requires
        heap.wf(),
        all_holders(heap@, s, holders),
        0 <= n < holders.len(),
    ensures
        ({
            let m = heap@;
            let after = dropped(m, holders.take(n));
            &&& after.actions == m.actions
            &&& after.umems == m.umems
            &&& same_rings(m.cons, after.cons)
            &&& same_rings(m.prod, after.prod)
            &&& after.sockets.contains_key(s)
            &&& after.sockets == m.sockets.insert(s, after.sockets[s])
            &&& after.sockets[s].value == m.sockets[s].value
            &&& forall|i: int|
                n <= i < holders.len() ==> after.sockets[s].holders.contains(
                    (#[trigger] holders[i]).handle().ticket(),
                )
            &&& forall|t: nat| #[trigger]
                after.sockets[s].holders.contains(t) ==> exists|i: int|
                    n <= i < holders.len() && (#[trigger] holders[i]).handle().ticket() == t
        }),
    decreases n,
{
    let m = heap@;
    if n == 0 {
        assert(holders.take(0).len() == 0);
        assert(m.sockets =~= m.sockets.insert(s, m.sockets[s]));
        assert forall|i: int| 0 <= i < holders.len() implies m.sockets[s].holders.contains(
            (#[trigger] holders[i]).handle().ticket(),
        ) by {
            assert(holders[i].valid(m));
        }
    } else {
        lemma_some_dropped(heap, s, holders, n - 1);
        let before = dropped(m, holders.take(n - 1));
        let q = holders[n - 1];
        let after = dropped(m, holders.take(n));
        assert(holders.take(n).drop_last() =~= holders.take(n - 1));
        assert(holders.take(n).last() == q);
        assert(q.valid(m));
        assert(before.sockets[s].holders.contains(holders[n].handle().ticket()));
        assert(holders[n].handle().ticket() != q.handle().ticket());
        assert(!before.sockets[s].last_holder(q.handle().ticket()));
        assert(after.sockets[s] == before.sockets[s].released_by(q.handle().ticket()));
        assert(after.sockets =~= m.sockets.insert(s, after.sockets[s]));
        assert(same_rings(m.cons, after.cons)) by {
            assert(after.cons.dom() =~= m.cons.dom());
        }
        assert(same_rings(m.prod, after.prod)) by {
            assert(after.prod.dom() =~= m.prod.dom());
        }
    }
}

/// The queues of a socket, and the other handles on it, can be dropped in
/// any order. Until the last of them goes the socket is alive, no ring is
/// freed or moves, and nothing is to be done. With the last one the socket is deleted, this once,
/// and only then are its rings freed. Nothing else is deleted or freed,
/// except for the UMEM when nothing else has kept it alive.
pub proof fn law_any_drop_order(heap: Heap, s: usize, holders: Seq<Holder>)
    requires
        heap.wf(),
        all_holders(heap@, s, holders),
    ensures
        forall|n: int|
            0 <= n < holders.len() ==> {
                let after = #[trigger] dropped(heap@, holders.take(n));
                &&& after.actions == heap@.actions
                &&& after.sockets.contains_key(s)
                &&& after.sockets[s].value == heap@.sockets[s].value
                &&& after.umems == heap@.umems
                &&& same_rings(heap@.cons, after.cons)
                &&& same_rings(heap@.prod, after.prod)
            },
        ({
            let inner = heap@.sockets[s].value;
            let rx = inner.rx_ring.spec_handle().slot();
            let tx = inner.tx_ring.spec_handle().slot();
            let after = dropped(heap@, holders);
            &&& after.sockets == heap@.sockets.remove(s)
            &&& !after.cons.contains_key(rx)
            &&& !after.prod.contains_key(tx)
            &&& after.actions == heap@.actions + seq![
                Action::DeleteSocket(inner.ptr),
                Action::FreeCons(heap@.cons[rx].value.mem),
                Action::FreeProd(heap@.prod[tx].value.mem),
            ] + umem_actions(heap@, inner.umem.spec_handle())
            &&& !heap@.umems[inner.umem.spec_handle().slot()].last_holder(
                inner.umem.spec_handle().ticket(),
            ) ==> {
                let u = inner.umem.spec_handle().slot();
                &&& after.cons.dom() == heap@.cons.dom().remove(rx)
                &&& after.prod.dom() == heap@.prod.dom().remove(tx)
                &&& after.umems == heap@.umems.insert(
                    u,
                    heap@.umems[u].released_by(inner.umem.spec_handle().ticket()),
                )
            }
        }),
{
    let m = heap@;
    let inner = m.sockets[s].value;
    let rx = inner.rx_ring.spec_handle().slot();
    let tx = inner.tx_ring.spec_handle().slot();
    assert forall|n: int| 0 <= n < holders.len() implies {
        let after = #[trigger] dropped(m, holders.take(n));
        &&& after.actions == m.actions
        &&& after.sockets.contains_key(s)
        &&& after.sockets[s].value == m.sockets[s].value
        &&& after.umems == m.umems
        &&& same_rings(m.cons, after.cons)
        &&& same_rings(m.prod, after.prod)
    } by {
        lemma_some_dropped(heap, s, holders, n);
    }
    heap.sockets.lemma_wf(s);
    let t = m.sockets[s].holders.choose();
    assert(m.sockets[s].holders.contains(t));
    let n = holders.len() - 1;
    lemma_some_dropped(heap, s, holders, n);
    let before = dropped(m, holders.take(n));
    let q = holders[n];
    assert(holders.drop_last() =~= holders.take(n));
    assert(q.valid(m));
    assert(before.sockets[s].holders =~= set![q.handle().ticket()]);
    let after = dropped(m, holders);
    assert(after.sockets =~= m.sockets.remove(s));
    assert(m.socket_ok(heap.cons_users@, heap.prod_users@, s));
    let h = inner.umem.spec_handle();
    let ctxs = m.umems[h.slot()].value.ctxs;
    let ringless = q.ringless(before);
    let deleted = Model {
        sockets: ringless.sockets.remove(s),
        cons: ringless.cons.remove(rx),
        prod: ringless.prod.remove(tx),
        actions: m.actions + seq![
            Action::DeleteSocket(inner.ptr),
            Action::FreeCons(m.cons[rx].value.mem),
            Action::FreeProd(m.prod[tx].value.mem),
        ],
        ..ringless
    };
    assert(after == deleted.release_umem(h));
    assert(m.saved_ok(heap.cons_users@, heap.prod_users@, h.slot()));
    assert(deleted.saved_frees(h.slot()) =~= m.saved_frees(h.slot()));
    let rest = deleted.unsaved(h.slot());
    assert forall|j: int| 0 <= j < ctxs.len() implies {
        &&& rest.prod[(#[trigger] ctxs[j]).fill.spec_handle().slot()].value.mem
            == m.prod[ctxs[j].fill.spec_handle().slot()].value.mem
        &&& rest.cons[ctxs[j].comp.spec_handle().slot()].value.mem
            == m.cons[ctxs[j].comp.spec_handle().slot()].value.mem
    } by {
        assert(m.ctx_ok(heap.cons_users@, heap.prod_users@, h.slot(), j));
    }
    lemma_ctx_frees(rest, m, ctxs);
    assert(ringless.cons.dom() =~= m.cons.dom());
    assert(ringless.prod.dom() =~= m.prod.dom());
    assert(after.actions =~= m.actions + seq![
        Action::DeleteSocket(inner.ptr),
        Action::FreeCons(m.cons[rx].value.mem),
        Action::FreeProd(m.prod[tx].value.mem),
    ] + umem_actions(m, h));
}

/// A device that a socket was created for and whose queues have all been
/// dropped can be bound again, and again: the sockets, the rings and the
/// handles on the UMEM are what they were, but for the fill and comp
/// rings that stay with the UMEM. The socket has been deleted once, and
/// its rx and tx rings have been freed after that.
pub proof fn law_dropping_undoes_creation(
    m: Model,
    heap: Heap,
    umem: Umem,
    request: CreateRequest,
    reply: CreateReply,
    fd: i32,
    tx_q: TxQueue,
    rx_q: RxQueue,
    ctx_q: Option<(FillQueue, CompQueue)>,
    holders: Seq<Holder>,
)
    requires
        umem.valid(m),
        heap.wf(),
        crate::xsk::socket::opened(
            m,
            heap@,
            umem.spec_handle().slot(),
            request,
            reply,
            fd,
            tx_q,
            rx_q,
            ctx_q,
        ),
        all_holders(heap@, tx_q.spec_socket().spec_handle().slot(), holders),
    ensures
        ({
            let u = umem.spec_handle().slot();
            let ctx = heap@.umems[u].value.ctxs.last();
            let base = m.unsaved(u);
            let after = dropped(heap@, holders);
            &&& after.sockets == m.sockets
            &&& forall|device: Device| #[trigger] after.bound(u, device) <==> m.bound(u, device)
            &&& after.umems.dom() == m.umems.dom()
            &&& after.umems[u].holders == m.umems[u].holders
            &&& after.cons.dom() == if reply.fill.ring == 0 && reply.comp.ring == 0 {
                base.cons.dom()
            } else {
                base.cons.dom().insert(ctx.comp.spec_handle().slot())
            }
            &&& after.prod.dom() == if reply.fill.ring == 0 && reply.comp.ring == 0 {
                base.prod.dom()
            } else {
                base.prod.dom().insert(ctx.fill.spec_handle().slot())
            }
            &&& after.actions == m.actions + (if reply.fill.ring == 0 && reply.comp.ring == 0 {
                seq![Action::FreeProd(request.fill.mem), Action::FreeCons(request.comp.mem)]
            } else {
                seq![]
            }) + seq![
                Action::DeleteSocket(reply.socket),
                Action::FreeCons(request.rx.mem),
                Action::FreeProd(request.tx.mem),
            ]
        }),
{
    let n = heap@;
    let u = umem.spec_handle().slot();
    let s = tx_q.spec_socket().spec_handle().slot();
    let h = n.sockets[s].value.umem.spec_handle();
    let base = m.unsaved(u);
    let after = dropped(n, holders);
    law_any_drop_order(heap, s, holders);
    assert(n.umems[u].holders.contains(umem.spec_handle().ticket()));
    assert(!n.umems[u].last_holder(h.ticket()));
    assert(after.sockets =~= m.sockets);
    assert(after.umems[u].holders =~= m.umems[u].holders);
    assert(after.umems.dom() =~= m.umems.dom());
    assert(heap@.socket_ok(heap.cons_users@, heap.prod_users@, s));
    if !reply.existing() {
        let j = n.umems[u].value.ctxs.len() - 1;
        assert(n.umems[u].value.ctxs[j] == n.umems[u].value.ctxs.last());
        assert(n.ctx_ok(heap.cons_users@, heap.prod_users@, u, j));
        assert(after.cons.dom() =~= base.cons.dom().insert(
            n.umems[u].value.ctxs.last().comp.spec_handle().slot(),
        ));
        assert(after.prod.dom() =~= base.prod.dom().insert(
            n.umems[u].value.ctxs.last().fill.spec_handle().slot(),
        ));
    } else {
        assert(after.cons.dom() =~= base.cons.dom());
        assert(after.prod.dom() =~= base.prod.dom());
    }
}

/// Dropping just the [`TxQueue`] and [`RxQueue`] of a socket does not
/// release the device while another of its queues is there, nor does it
/// free a ring.
pub proof fn law_tx_and_rx_do_not_release_device(
    heap: Heap,
    tx_q: TxQueue,
    rx_q: RxQueue,
    kept: Holder,
)
    requires
        heap.wf(),
        tx_q.valid(heap@),
        rx_q.valid(heap@),
        kept.valid(heap@),
        kept is Fill || kept is Comp,
        rx_q.spec_socket().spec_handle().slot() == tx_q.spec_socket().spec_handle().slot(),
        kept.handle().slot() == tx_q.spec_socket().spec_handle().slot(),
    ensures
        ({
            let inner = heap@.sockets[kept.handle().slot()].value;
            let u = inner.umem.spec_handle().slot();
            let tx_first = dropped(heap@, seq![Holder::Tx(tx_q), Holder::Rx(rx_q)]);
            let rx_first = dropped(heap@, seq![Holder::Rx(rx_q), Holder::Tx(tx_q)]);
            &&& tx_first.actions == heap@.actions
            &&& tx_first.bound(u, inner.device@)
            &&& rx_first.actions == heap@.actions
            &&& rx_first.bound(u, inner.device@)
        }),
{
    let m = heap@;
    let s = kept.handle().slot();
    let tx = Holder::Tx(tx_q);
    let rx = Holder::Rx(rx_q);
    let u = m.sockets[s].value.umem.spec_handle().slot();
    let device = m.sockets[s].value.device@;
    assert(m.socket_ok(heap.cons_users@, heap.prod_users@, s));
    assert(seq![tx, rx].drop_last() =~= seq![tx]);
    assert(seq![rx, tx].drop_last() =~= seq![rx]);
    assert(seq![tx].drop_last() =~= seq![]);
    assert(seq![rx].drop_last() =~= seq![]);
    reveal_with_fuel(dropped, 3);
    let t = kept.handle().ticket();
    assert(m.sockets[s].holders.contains(t));
    let first = tx.dropped(m);
    assert(first.sockets[s].holders.contains(t));
    let second = rx.dropped(first);
    assert(second.sockets.contains_key(s) && second.is_bound_by(s, u, device));
    let first = rx.dropped(m);
    assert(first.sockets[s].holders.contains(t));
    let second = tx.dropped(first);
    assert(second.sockets.contains_key(s) && second.is_bound_by(s, u, device));
}

/// A device stays bound when a handle on a socket is given up, unless it
/// was the last handle on the last socket that shares the UMEM and is
/// bound to the device.
pub proof fn law_device_released_with_last_socket(m: Model, h: Handle, u: usize, device: Device)
    requires
        crate::table::holds(m.sockets, h),
    ensures
        m.release_socket(h).bound(u, device) <==> exists|s: usize| #[trigger]
            m.sockets.contains_key(s) && m.is_bound_by(s, u, device) && (s != h.slot()
                || !m.sockets[s].last_holder(h.ticket())),
{
    let n = m.release_socket(h);
    if n.bound(u, device) {
        let s = choose|s: usize| #[trigger]
            n.sockets.contains_key(s) && n.is_bound_by(s, u, device);
        assert(m.sockets.contains_key(s) && m.is_bound_by(s, u, device));
    }
    if exists|s: usize| #[trigger]
        m.sockets.contains_key(s) && m.is_bound_by(s, u, device) && (s != h.slot()
            || !m.sockets[s].last_holder(h.ticket())) {
        let s = choose|s: usize| #[trigger]
            m.sockets.contains_key(s) && m.is_bound_by(s, u, device) && (s != h.slot()
                || !m.sockets[s].last_holder(h.ticket()));
        assert(n.sockets.contains_key(s) && n.is_bound_by(s, u, device));
    }
}

/// A device stays bound when a queue, or a handle on a socket, is dropped,
/// unless it was all that kept alive the last socket that shares the UMEM
/// and is bound to the device.
pub proof fn law_device_released_with_last_holder(
    heap: Heap,
    q: Holder,
    u: usize,
    device: Device,
)
    requires
        heap.wf(),
        q.valid(heap@),
    ensures
        q.dropped(heap@).bound(u, device) <==> exists|s: usize| #[trigger]
            heap@.sockets.contains_key(s) && heap@.is_bound_by(s, u, device) && (s
                != q.handle().slot() || !heap@.sockets[s].last_holder(q.handle().ticket())),
{
    law_device_released_with_last_socket(q.ringless(heap@), q.handle(), u, device);
}

/// Given that libxdp sets up the fill and comp rings it is handed exactly
/// when the device is not bound yet, a [`FillQueue`] and a [`CompQueue`]
/// are returned exactly then. That is so whenever no other socket shares
/// the UMEM.
pub proof fn law_ctx_queues_for_unbound_device(
    m: Model,
    n: Model,
    u: usize,
    request: CreateRequest,
    reply: CreateReply,
    fd: i32,
    tx_q: TxQueue,
    rx_q: RxQueue,
    ctx_q: Option<(FillQueue, CompQueue)>,
)
    requires
        crate::xsk::socket::opened(m, n, u, request, reply, fd, tx_q, rx_q, ctx_q),
        reply.fill.ring == 0 && reply.comp.ring == 0 <==> m.bound(u, request.device()),
    ensures
        ctx_q is Some <==> !m.bound(u, request.device()),
        (forall|s: usize| #[trigger]
            m.sockets.contains_key(s) ==> m.sockets[s].value.umem.spec_handle().slot() != u)
            ==> ctx_q is Some,
        n.bound(u, request.device()),
{
    let s = tx_q.spec_socket().spec_handle().slot();
    assert(n.sockets.contains_key(s) && n.is_bound_by(s, u, request.device()));
}

/// A UMEM is not deleted while a socket shares it.
pub proof fn law_umem_outlives_its_sockets(heap: Heap, umem: Umem, s: usize)
    requires
        heap.wf(),
        umem.valid(heap@),
        heap@.sockets.contains_key(s),
        heap@.sockets[s].value.umem.spec_handle().slot() == umem.spec_handle().slot(),
    ensures
        heap@.release_umem(umem.spec_handle()).umems.contains_key(umem.spec_handle().slot()),
        heap@.release_umem(umem.spec_handle()).actions == heap@.actions,
        heap@.release_umem(umem.spec_handle()).cons == heap@.cons,
        heap@.release_umem(umem.spec_handle()).prod == heap@.prod,
{
    let m = heap@;
    let h = m.sockets[s].value.umem.spec_handle();
    assert(m.socket_ok(heap.cons_users@, heap.prod_users@, s));
    crate::table::handle_ext(h, umem.spec_handle());
    assert(m.umems[h.slot()].holders.contains(h.ticket()));
}

/// Dropping a queue or a handle on a socket leaves all others, of whatever
/// socket, as good as they were.
pub proof fn law_drop_leaves_holders_alone(heap: Heap, q: Holder, other: Holder)
    requires
        heap.wf(),
        q.valid(heap@),
        other.valid(heap@),
        other.handle() != q.handle(),
    ensures
        other.valid(q.dropped(heap@)),
{
    let m = heap@;
    let cu = heap.cons_users@;
    let pu = heap.prod_users@;
    let s = q.handle().slot();
    let k = other.handle().slot();
    crate::table::handle_ext(q.handle(), other.handle());
    assert(m.socket_ok(cu, pu, s));
    assert(m.socket_ok(cu, pu, k));
    let h = m.sockets[s].value.umem.spec_handle();
    let u = m.sockets[k].value.umem.spec_handle();
    crate::table::handle_ext(h, u);
    assert(m.umems[u.slot()].holders.contains(u.ticket()));
    if let Some(c) = m.sockets[k].value.queues@.ctx {
        let ctx = m.umems[u.slot()].value.ctxs[c.index];
        assert(m.ctx_ok(cu, pu, u.slot(), c.index));
    }
    if let Some(c) = m.sockets[s].value.queues@.ctx {
        let ctx = m.umems[h.slot()].value.ctxs[c.index];
        assert(m.ctx_ok(cu, pu, h.slot(), c.index));
    }
    assert(m.saved_ok(cu, pu, h.slot()));
    crate::xsk::lemma_ctx_users(m, cu, pu, h.slot());
}

/// Dropping a queue or a handle on a socket leaves all handles on UMEMs as
/// good as they were.
pub proof fn law_drop_leaves_umems_alone(heap: Heap, q: Holder, umem: Umem)
    requires
        heap.wf(),
        q.valid(heap@),
        umem.valid(heap@),
    ensures
        umem.valid(q.dropped(heap@)),
{
    let m = heap@;
    let s = q.handle().slot();
    assert(m.socket_ok(heap.cons_users@, heap.prod_users@, s));
    crate::table::handle_ext(m.sockets[s].value.umem.spec_handle(), umem.spec_handle());
}

/// Giving up a handle on a UMEM leaves all queues and all handles on
/// sockets as good as they were.
pub proof fn law_umem_drop_leaves_holders_alone(heap: Heap, umem: Umem, q: Holder)
    requires
        heap.wf(),
        umem.valid(heap@),
        q.valid(heap@),
    ensures
        q.valid(heap@.release_umem(umem.spec_handle())),
{
    let m = heap@;
    let cu = heap.cons_users@;
    let pu = heap.prod_users@;
    let s = q.handle().slot();
    let h = umem.spec_handle();
    let u = m.sockets[s].value.umem.spec_handle();
    crate::table::handle_ext(h, u);
    assert(m.socket_ok(cu, pu, s));
    if let Some(c) = m.sockets[s].value.queues@.ctx {
        let ctx = m.umems[u.slot()].value.ctxs[c.index];
        assert(m.ctx_ok(cu, pu, u.slot(), c.index));
    }
    assert(m.saved_ok(cu, pu, h.slot()));
    crate::xsk::lemma_ctx_users(m, cu, pu, h.slot());
}

/// Giving up a handle on a UMEM leaves all other handles on UMEMs as good
/// as they were.
pub proof fn law_umem_drop_leaves_umems_alone(heap: Heap, umem: Umem, other: Umem)
    requires
        heap.wf(),
        umem.valid(heap@),
        other.valid(heap@),
        other.spec_handle() != umem.spec_handle(),
    ensures
        other.valid(heap@.release_umem(umem.spec_handle())),
{
    crate::table::handle_ext(umem.spec_handle(), other.spec_handle());
}

/// Another handle on a socket leaves all queues and all handles on sockets
/// as good as they were.
pub proof fn law_clone_leaves_holders_alone(m: Model, socket: Socket, q: Holder)
    requires
        m.sockets.contains_key(socket.spec_handle().slot()),
        q.valid(m),
    ensures
        q.valid(m.retain_socket(socket.spec_handle())),
{
}

/// Another handle on a socket leaves all handles on UMEMs as good as they
/// were.
pub proof fn law_clone_leaves_umems_alone(m: Model, socket: Socket, umem: Umem)
    requires
        m.sockets.contains_key(socket.spec_handle().slot()),
        umem.valid(m),
    ensures
        umem.valid(m.retain_socket(socket.spec_handle())),
{
}

/// Another handle on a UMEM leaves all queues and all handles on sockets as
/// good as they were.
pub proof fn law_umem_clone_leaves_holders_alone(m: Model, umem: Umem, q: Holder)
    requires
        m.umems.contains_key(umem.spec_handle().slot()),
        q.valid(m),
    ensures
        q.valid(m.retain_umem(umem.spec_handle())),
{
}

/// Another handle on a UMEM leaves all handles on UMEMs as good as they
/// were.
pub proof fn law_umem_clone_leaves_umems_alone(m: Model, umem: Umem, other: Umem)
    requires
        m.umems.contains_key(umem.spec_handle().slot()),
        other.valid(m),
    ensures
        other.valid(m.retain_umem(umem.spec_handle())),
{
}

/// Creating a UMEM leaves all queues and all handles on sockets as good as
/// they were.
pub proof fn law_umem_creation_leaves_holders_alone(
    heap: Heap,
    n: Model,
    umem: Umem,
    ptr: usize,
    fill_mem: usize,
    fill: XskRing,
    comp_mem: usize,
    comp: XskRing,
    q: Holder,
)
    requires
        heap.wf(),
        crate::xsk::umem::umem_added(heap@, n, umem, ptr, fill_mem, fill, comp_mem, comp),
        q.valid(heap@),
    ensures
        q.valid(n),
{
    assert(heap@.socket_ok(heap.cons_users@, heap.prod_users@, q.handle().slot()));
}

/// Creating a UMEM leaves all handles on UMEMs as good as they were.
pub proof fn law_umem_creation_leaves_umems_alone(
    m: Model,
    n: Model,
    umem: Umem,
    ptr: usize,
    fill_mem: usize,
    fill: XskRing,
    comp_mem: usize,
    comp: XskRing,
    other: Umem,
)
    requires
        crate::xsk::umem::umem_added(m, n, umem, ptr, fill_mem, fill, comp_mem, comp),
        other.valid(m),
    ensures
        other.valid(n),
{
}

/// Creating a socket, or failing to, leaves all queues and all handles on
/// sockets as good as they were.
pub proof fn law_creation_leaves_holders_alone(
    heap: Heap,
    n: Model,
    u: usize,
    request: CreateRequest,
    reply: CreateReply,
    fd: Option<i32>,
    res: Created,
    q: Holder,
)
    requires
        heap.wf(),
        heap@.umems.contains_key(u),
        request.fits(heap@, u),
        crate::xsk::socket::outcome(heap@, n, u, request, reply, fd, res),
        q.valid(heap@),
    ensures
        q.valid(n),
{
    let m = heap@;
    let cu = heap.cons_users@;
    let pu = heap.prod_users@;
    let s = q.handle().slot();
    let h = m.sockets[s].value.umem.spec_handle();
    assert(m.saved_ok(cu, pu, u));
    assert(m.socket_ok(cu, pu, s));
    if let Some(c) = m.sockets[s].value.queues@.ctx {
        let ctx = m.umems[h.slot()].value.ctxs[c.index];
        assert(m.ctx_ok(cu, pu, h.slot(), c.index));
        assert(n.umems[h.slot()].value.ctxs[c.index] == ctx);
    }
}

/// Creating a socket, or failing to, leaves all handles on UMEMs as good as
/// they were.
pub proof fn law_creation_leaves_umems_alone(
    m: Model,
    n: Model,
    u: usize,
    request: CreateRequest,
    reply: CreateReply,
    fd: Option<i32>,
    res: Created,
    umem: Umem,
)
    requires
        m.umems.contains_key(u),
        crate::xsk::socket::outcome(m, n, u, request, reply, fd, res),
        umem.valid(m),
    ensures
        umem.valid(n),
{
    if let Ok((tx_q, rx_q, ctx_q)) = res {
        let s = tx_q.spec_socket().spec_handle().slot();
        crate::table::handle_ext(n.sockets[s].value.umem.spec_handle(), umem.spec_handle());
    }
}

/// A socket is created exactly when libxdp has returned zero, a pointer
/// that is not null, a file descriptor that is not negative and rings for
/// transmitting and receiving, and has set up both or neither of the fill
/// and comp rings.
pub proof fn law_created_when(
    m: Model,
    n: Model,
    u: usize,
    request: CreateRequest,
    reply: CreateReply,
    fd: Option<i32>,
    res: Created,
)
    requires
        crate::xsk::socket::outcome(m, n, u, request, reply, fd, res),
        (fd is Some) == (reply.err == 0 && reply.socket != 0),
    ensures
        res is Ok <==> {
            &&& reply.err == 0
            &&& reply.socket != 0
            &&& fd matches Some(fd)
            &&& fd >= 0
            &&& reply.tx.ring != 0
            &&& reply.rx.ring != 0
            &&& (reply.fill.ring == 0) == (reply.comp.ring == 0)
        },
{
}

/// When no socket can be made of it, what libxdp has created is deleted,
/// once, and after that its rx and tx rings are freed, but not the fill and
/// comp rings that libxdp has kept pointers to. Otherwise nothing is
/// deleted.
pub proof fn law_failure_deletes_socket_once(
    m: Model,
    n: Model,
    u: usize,
    request: CreateRequest,
    reply: CreateReply,
    fd: Option<i32>,
    res: Created,
)
    requires
        crate::xsk::socket::outcome(m, n, u, request, reply, fd, res),
    ensures
        ({
            let new = n.actions.skip(m.actions.len() as int);
            let k = new.len() - 3;
            &&& n.actions == m.actions + new
            &&& forall|i: int|
                0 <= i < new.len() ==> ((#[trigger] new[i] is DeleteSocket) <==> i == k
                    && res is Err && reply.err == 0 && reply.socket != 0)
            &&& forall|i: int| 0 <= i < new.len() ==> !(#[trigger] new[i] is DeleteUmem)
            &&& res is Err && reply.err == 0 && reply.socket != 0 ==> k >= 0 && new[k]
                == Action::DeleteSocket(reply.socket)
            &&& (if reply.err == 0 {
                reply.fill.ring != 0 || reply.comp.ring != 0
            } else {
                request.saved
            }) ==> forall|i: int|
                0 <= i <= k && i < new.len() ==> #[trigger] new[i] is DeleteSocket
            &&& res is Err ==> {
                &&& new[k + 1] == Action::FreeCons(request.rx.mem)
                &&& new[k + 2] == Action::FreeProd(request.tx.mem)
                &&& n.sockets == m.sockets
            }
        }),
{
    let new = match res {
        Ok(_) => reply.ctx_actions(request),
        Err(_) => reply.failure_actions(request),
    };
    assert(n.actions == m.actions + new);
    assert(n.actions.skip(m.actions.len() as int) =~= new);
}

/// Until libxdp has been asked for a socket successfully, a UMEM keeps the
/// rings that it was created with, which stay where they are, and asks for
/// the next socket with them again.
pub proof fn law_first_rings_are_kept(
    heap: Heap,
    n: Model,
    u: usize,
    request: CreateRequest,
    reply: CreateReply,
    fd: Option<i32>,
    res: Created,
    next: CreateRequest,
)
    requires
        heap.wf(),
        heap@.umems.contains_key(u),
        request.fits(heap@, u),
        crate::xsk::socket::outcome(heap@, n, u, request, reply, fd, res),
        reply.err != 0,
        next.fits(n, u),
    ensures
        n.umems == heap@.umems,
        request.saved ==> next.saved && next.fill.mem == request.fill.mem && next.comp.mem
            == request.comp.mem,
        !request.saved ==> !next.saved,
{
    assert(heap@.saved_ok(heap.cons_users@, heap.prod_users@, u));
}

/// Once libxdp has been asked for a socket successfully, the UMEM no longer
/// has the rings that it was created with.
pub proof fn law_first_rings_are_handed_over(
    m: Model,
    n: Model,
    u: usize,
    request: CreateRequest,
    reply: CreateReply,
    fd: Option<i32>,
    res: Created,
)
    requires
        m.umems.contains_key(u),
        crate::xsk::socket::outcome(m, n, u, request, reply, fd, res),
        reply.err == 0,
    ensures
        n.umems.contains_key(u),
        n.umems[u].value.saved is None,
{
}

/// A UMEM that a socket shares no longer has the rings that it was created
/// with.
pub proof fn law_sharing_takes_the_first_rings(heap: Heap, s: usize)
    requires
        heap.wf(),
        heap@.sockets.contains_key(s),
    ensures
        heap@.umems[heap@.sockets[s].value.umem.spec_handle().slot()].value.saved is None,
{
    assert(heap@.socket_ok(heap.cons_users@, heap.prod_users@, s));
}

/// The address of a socket is not null.
pub proof fn law_socket_is_not_null(heap: Heap, s: usize)
    requires
        heap.wf(),
        heap@.sockets.contains_key(s),
    ensures
        heap@.sockets[s].value.ptr != 0,
{
    assert(heap@.socket_ok(heap.cons_users@, heap.prod_users@, s));
}

/// Of any two sockets that share a UMEM and are bound to the same device,
/// one at least has been created without libxdp loading a program for it.
pub proof fn law_one_program_per_device(heap: Heap, s: usize, t: usize)
    requires
        heap.wf(),
        heap@.sockets.contains_key(s),
        heap@.sockets.contains_key(t),
        s != t,
        heap@.sockets[s].value.umem.spec_handle().slot()
            == heap@.sockets[t].value.umem.spec_handle().slot(),
        heap@.sockets[s].value.device@ == heap@.sockets[t].value.device@,
    ensures
        heap@.sockets[s].value.config@.libxdp_flags & 1u32 != 0
            || heap@.sockets[t].value.config@.libxdp_flags & 1u32 != 0,
{
}

/// Whether no two sockets are at the same address, alive or still to be
/// deleted.
pub open spec fn distinct_sockets(m: Model) -> bool {
    &&& forall|s: usize, t: usize|
        #![trigger m.sockets.contains_key(s), m.sockets.contains_key(t)]
        m.sockets.contains_key(s) && m.sockets.contains_key(t) && s != t
            ==> m.sockets[s].value.ptr != m.sockets[t].value.ptr
    &&& forall|i: int, s: usize|
        #![trigger m.actions[i], m.sockets.contains_key(s)]
        0 <= i < m.actions.len() && m.sockets.contains_key(s) ==> m.actions[i]
            != Action::DeleteSocket(m.sockets[s].value.ptr)
    &&& forall|i: int, j: int|
        0 <= i < j < m.actions.len() && #[trigger] m.actions[i] is DeleteSocket ==> m.actions[i]
            != #[trigger] m.actions[j]
}

/// Whether no two UMEMs are at the same address, alive or still to be
/// deleted.
pub open spec fn distinct_umems(m: Model) -> bool {
    &&& forall|u: usize, v: usize|
        #![trigger m.umems.contains_key(u), m.umems.contains_key(v)]
        m.umems.contains_key(u) && m.umems.contains_key(v) && u != v ==> m.umems[u].value.ptr
            != m.umems[v].value.ptr
    &&& forall|i: int, u: usize|
        #![trigger m.actions[i], m.umems.contains_key(u)]
        0 <= i < m.actions.len() && m.umems.contains_key(u) ==> m.actions[i] != Action::DeleteUmem(
            m.umems[u].value.ptr,
        )
    &&& forall|i: int, j: int|
        0 <= i < j < m.actions.len() && #[trigger] m.actions[i] is DeleteUmem ==> m.actions[i]
            != #[trigger] m.actions[j]
}

/// Freeing the rings of a UMEM deletes nothing.
proof fn lemma_ctx_frees_delete_nothing(m: Model, ctxs: Seq<Ctx>)
    ensures
        forall|i: int|
            0 <= i < m.ctx_frees(ctxs).len() ==> (#[trigger] m.ctx_frees(ctxs)[i]).freed() is Some,
    decreases ctxs.len(),
{
    if ctxs.len() > 0 {
        lemma_ctx_frees_delete_nothing(m, ctxs.drop_last());
    }
}

/// What becomes due when a handle on a UMEM is given up.
proof fn lemma_umem_release_actions(m: Model, h: Handle) -> (new: Seq<Action>)
    ensures
        m.release_umem(h).actions == m.actions + new,
        forall|i: int|
            0 < i < new.len() ==> (#[trigger] new[i]).freed() is Some,
        m.umems[h.slot()].last_holder(h.ticket()) ==> new.len() > 0 && new[0] == Action::DeleteUmem(
            m.umems[h.slot()].value.ptr,
        ),
        !m.umems[h.slot()].last_holder(h.ticket()) ==> new.len() == 0,
{
    let u = h.slot();
    let umem = m.umems[u];
    if umem.last_holder(h.ticket()) {
        let frees = m.unsaved(u).ctx_frees(umem.value.ctxs);
        lemma_ctx_frees_delete_nothing(m.unsaved(u), umem.value.ctxs);
        let new = seq![Action::DeleteUmem(umem.value.ptr)] + m.saved_frees(u) + frees;
        let k = 1 + m.saved_frees(u).len();
        assert forall|i: int| 0 < i < new.len() implies (#[trigger] new[i]).freed() is Some by {
            if i < k {
                assert(new[i] == m.saved_frees(u)[i - 1]);
            } else {
                assert(new[i] == frees[i - k]);
            }
        }
        assert(m.release_umem(h).actions =~= m.actions + new);
        new
    } else {
        assert(m.release_umem(h).actions =~= m.actions + Seq::<Action>::empty());
        seq![]
    }
}

/// Given that libxdp does not hand out the address of a socket that has not
/// been deleted yet, there is never more than one owner of a socket, and
/// none of one that is to be deleted.
pub proof fn law_one_owner_per_socket(
    m: Model,
    n: Model,
    u: usize,
    request: CreateRequest,
    reply: CreateReply,
    fd: Option<i32>,
    res: Created,
)
    requires
        distinct_sockets(m),
        reply.err == 0 && reply.socket != 0 ==> forall|s: usize| #[trigger]
            m.sockets.contains_key(s) ==> m.sockets[s].value.ptr != reply.socket,
        reply.err == 0 && reply.socket != 0 ==> forall|i: int|
            0 <= i < m.actions.len() ==> #[trigger] m.actions[i] != Action::DeleteSocket(
                reply.socket,
            ),
        crate::xsk::socket::outcome(m, n, u, request, reply, fd, res),
    ensures
        distinct_sockets(n),
{
    let new = match res {
        Ok(_) => reply.ctx_actions(request),
        Err(_) => reply.failure_actions(request),
    };
    lemma_sockets_stay_distinct(m, n, new);
}

/// Sockets stay distinct if at most one deletion has become due, of one that
/// was neither alive nor to be deleted, or was alive and is no longer.
proof fn lemma_sockets_stay_distinct(m: Model, n: Model, new: Seq<Action>)
    requires
        n.actions == m.actions + new,
        forall|s: usize, t: usize|
            #![trigger n.sockets.contains_key(s), n.sockets.contains_key(t)]
            n.sockets.contains_key(s) && n.sockets.contains_key(t) && s != t
                ==> n.sockets[s].value.ptr != n.sockets[t].value.ptr,
        forall|i: int, s: usize|
            #![trigger m.actions[i], n.sockets.contains_key(s)]
            0 <= i < m.actions.len() && n.sockets.contains_key(s) ==> m.actions[i]
                != Action::DeleteSocket(n.sockets[s].value.ptr),
        forall|i: int, s: usize|
            #![trigger new[i], n.sockets.contains_key(s)]
            0 <= i < new.len() && n.sockets.contains_key(s) ==> new[i] != Action::DeleteSocket(
                n.sockets[s].value.ptr,
            ),
        forall|i: int, j: int|
            0 <= i < j < m.actions.len() && #[trigger] m.actions[i] is DeleteSocket ==> m.actions[i]
                != #[trigger] m.actions[j],
        forall|i: int, j: int|
            0 <= i < m.actions.len() && 0 <= j < new.len()
                && #[trigger] m.actions[i] is DeleteSocket ==> m.actions[i] != #[trigger] new[j],
        forall|i: int, j: int|
            0 <= i < j < new.len() && #[trigger] new[i] is DeleteSocket ==> new[i]
                != #[trigger] new[j],
    ensures
        distinct_sockets(n),
{
    let k = m.actions.len() as int;
    assert forall|i: int, s: usize|
        #![trigger n.actions[i], n.sockets.contains_key(s)]
        0 <= i < n.actions.len() && n.sockets.contains_key(s) implies n.actions[i]
        != Action::DeleteSocket(n.sockets[s].value.ptr) by {
        if i < k {
            assert(n.actions[i] == m.actions[i]);
        } else {
            assert(n.actions[i] == new[i - k]);
        }
    }
    assert forall|i: int, j: int|
        0 <= i < j < n.actions.len()
            && #[trigger] n.actions[i] is DeleteSocket implies n.actions[i]
        != #[trigger] n.actions[j] by {
        if j < k {
            assert(n.actions[i] == m.actions[i] && n.actions[j] == m.actions[j]);
        } else if i < k {
            assert(n.actions[i] == m.actions[i] && n.actions[j] == new[j - k]);
        } else {
            assert(n.actions[i] == new[i - k] && n.actions[j] == new[j - k]);
        }
    }
}

/// A socket that is to be deleted is no longer there to be deleted again,
/// and none is deleted that is.
pub proof fn law_deleted_once(m: Model, h: Handle)
    requires
        distinct_sockets(m),
        crate::table::holds(m.sockets, h),
    ensures
        distinct_sockets(m.release_socket(h)),
        m.sockets[h.slot()].last_holder(h.ticket()) ==> forall|s: usize| #[trigger]
            m.release_socket(h).sockets.contains_key(s) ==> m.release_socket(
                h,
            ).sockets[s].value.ptr != m.sockets[h.slot()].value.ptr,
{
    let n = m.release_socket(h);
    let s = h.slot();
    assert forall|t: usize| #[trigger] n.sockets.contains_key(t) implies m.sockets.contains_key(t)
        && n.sockets[t].value == m.sockets[t].value by {}
    if m.sockets[s].last_holder(h.ticket()) {
        let inner = m.sockets[s].value;
        let rx = inner.rx_ring.spec_handle().slot();
        let tx = inner.tx_ring.spec_handle().slot();
        let first = seq![
            Action::DeleteSocket(inner.ptr),
            Action::FreeCons(m.cons[rx].value.mem),
            Action::FreeProd(m.prod[tx].value.mem),
        ];
        let deleted = Model {
            sockets: m.sockets.remove(s),
            cons: m.cons.remove(rx),
            prod: m.prod.remove(tx),
            actions: m.actions + first,
            ..m
        };
        let rest = lemma_umem_release_actions(deleted, inner.umem.spec_handle());
        let new = first + rest;
        assert(n.actions =~= m.actions + new);
        assert forall|i: int| 0 < i < new.len() implies !(#[trigger] new[i] is DeleteSocket) by {
            if i >= 3 {
                assert(new[i] == rest[i - 3]);
            }
        }
        lemma_sockets_stay_distinct(m, n, new);
    } else {
        lemma_sockets_stay_distinct(m, n, seq![]);
    }
}

/// Dropping a queue, or a handle on a socket, deletes a socket at most once,
/// and none that is alive.
pub proof fn law_drop_deletes_socket_once(heap: Heap, q: Holder)
    requires
        heap.wf(),
        q.valid(heap@),
        distinct_sockets(heap@),
    ensures
        distinct_sockets(q.dropped(heap@)),
{
    law_deleted_once(q.ringless(heap@), q.handle());
}

/// Giving up a handle on a UMEM deletes no socket.
pub proof fn law_umem_drop_deletes_no_socket(m: Model, h: Handle)
    requires
        distinct_sockets(m),
    ensures
        distinct_sockets(m.release_umem(h)),
        m.release_umem(h).sockets == m.sockets,
{
    let new = lemma_umem_release_actions(m, h);
    lemma_sockets_stay_distinct(m, m.release_umem(h), new);
}

/// Given that libxdp does not hand out the address of a UMEM that has not
/// been deleted yet, there is never more than one owner of a UMEM, and none
/// of one that is to be deleted.
pub proof fn law_one_owner_per_umem(
    m: Model,
    n: Model,
    umem: Umem,
    ptr: usize,
    fill_mem: usize,
    fill: XskRing,
    comp_mem: usize,
    comp: XskRing,
)
    requires
        distinct_umems(m),
        forall|u: usize| #[trigger] m.umems.contains_key(u) ==> m.umems[u].value.ptr != ptr,
        forall|i: int|
            0 <= i < m.actions.len() ==> #[trigger] m.actions[i] != Action::DeleteUmem(ptr),
        crate::xsk::umem::umem_added(m, n, umem, ptr, fill_mem, fill, comp_mem, comp),
    ensures
        distinct_umems(n),
{
}

/// A UMEM that is to be deleted is no longer there to be deleted again, and
/// none is deleted that is.
pub proof fn law_umem_deleted_once(m: Model, h: Handle)
    requires
        distinct_umems(m),
        crate::table::holds(m.umems, h),
    ensures
        distinct_umems(m.release_umem(h)),
        m.umems[h.slot()].last_holder(h.ticket()) ==> forall|u: usize| #[trigger]
            m.release_umem(h).umems.contains_key(u) ==> m.release_umem(h).umems[u].value.ptr
                != m.umems[h.slot()].value.ptr,
{
    let n = m.release_umem(h);
    let new = lemma_umem_release_actions(m, h);
    let k = m.actions.len() as int;
    assert forall|v: usize| #[trigger] n.umems.contains_key(v) implies m.umems.contains_key(v)
        && n.umems[v].value == m.umems[v].value by {}
    assert forall|i: int, u: usize|
        #![trigger n.actions[i], n.umems.contains_key(u)]
        0 <= i < n.actions.len() && n.umems.contains_key(u) implies n.actions[i]
        != Action::DeleteUmem(n.umems[u].value.ptr) by {
        if i < k {
            assert(n.actions[i] == m.actions[i]);
        } else {
            assert(n.actions[i] == new[i - k]);
        }
    }
    assert forall|i: int, j: int|
        0 <= i < j < n.actions.len() && #[trigger] n.actions[i] is DeleteUmem implies n.actions[i]
        != #[trigger] n.actions[j] by {
        if j < k {
            assert(n.actions[i] == m.actions[i] && n.actions[j] == m.actions[j]);
        } else if i < k {
            assert(n.actions[i] == m.actions[i] && n.actions[j] == new[j - k]);
        } else {
            assert(n.actions[i] == new[i - k] && n.actions[j] == new[j - k]);
        }
    }
}

/// Dropping a queue, or a handle on a socket, deletes a UMEM at most once,
/// and none that is alive.
pub proof fn law_drop_deletes_umem_once(heap: Heap, q: Holder)
    requires
        heap.wf(),
        q.valid(heap@),
        distinct_umems(heap@),
    ensures
        distinct_umems(q.dropped(heap@)),
{
    let m = q.ringless(heap@);
    let s = q.handle().slot();
    assert(heap@.socket_ok(heap.cons_users@, heap.prod_users@, s));
    if m.sockets[s].last_holder(q.handle().ticket()) {
        let inner = m.sockets[s].value;
        let rx = inner.rx_ring.spec_handle().slot();
        let tx = inner.tx_ring.spec_handle().slot();
        let first = seq![
            Action::DeleteSocket(inner.ptr),
            Action::FreeCons(m.cons[rx].value.mem),
            Action::FreeProd(m.prod[tx].value.mem),
        ];
        let deleted = Model {
            sockets: m.sockets.remove(s),
            cons: m.cons.remove(rx),
            prod: m.prod.remove(tx),
            actions: m.actions + first,
            ..m
        };
        assert(distinct_umems(deleted)) by {
            assert forall|i: int| m.actions.len() <= i < deleted.actions.len() implies !(
            #[trigger] deleted.actions[i] is DeleteUmem) by {
                assert(deleted.actions[i] == first[i - m.actions.len()]);
            }
            assert forall|i: int| 0 <= i < m.actions.len() implies #[trigger] deleted.actions[i]
                == m.actions[i] by {}
        }
        law_umem_deleted_once(deleted, inner.umem.spec_handle());
    }
}

/// Creating a socket, or failing to, deletes no UMEM.
pub proof fn law_creation_deletes_no_umem(
    m: Model,
    n: Model,
    u: usize,
    request: CreateRequest,
    reply: CreateReply,
    fd: Option<i32>,
    res: Created,
)
    requires
        distinct_umems(m),
        m.umems.contains_key(u),
        crate::xsk::socket::outcome(m, n, u, request, reply, fd, res),
    ensures
        distinct_umems(n),
        n.umems.dom() == m.umems.dom(),
{
    let new = match res {
        Ok(_) => reply.ctx_actions(request),
        Err(_) => reply.failure_actions(request),
    };
    let k = m.actions.len() as int;
    assert(n.umems.dom() =~= m.umems.dom());
    assert forall|v: usize| #[trigger] n.umems.contains_key(v) implies m.umems.contains_key(v)
        && n.umems[v].value.ptr == m.umems[v].value.ptr by {}
    assert forall|i: int| k <= i < n.actions.len() implies !(
    #[trigger] n.actions[i] is DeleteUmem) by {
        assert(n.actions[i] == new[i - k]);
    }
    assert forall|i: int| 0 <= i < k implies #[trigger] n.actions[i] == m.actions[i] by {}
}

} // verus!

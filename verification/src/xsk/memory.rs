//! Where rings are, and when their memory is freed.

use crate::ring::{RingTable, Rings, XskRing, XskRingCons, XskRingProd};
use crate::table::Handle;
use crate::xsk::laws::Holder;
use crate::xsk::socket::{CreateReply, CreateRequest, Created};
use crate::xsk::umem::Umem;
use crate::xsk::{Action, Ctx, Heap, Model, User};
use vstd::prelude::*;

verus! {

/// A ring of either kind, by slot.
pub enum Ring {
    Cons(usize),
    Prod(usize),
}

impl Ring {
    pub open spec fn alive(self, m: Model) -> bool {
        match self {
            Ring::Cons(r) => m.cons.contains_key(r),
            Ring::Prod(r) => m.prod.contains_key(r),
        }
    }

    /// Where the ring is.
    pub open spec fn mem(self, m: Model) -> usize {
        match self {
            Ring::Cons(r) => m.cons[r].value.mem,
            Ring::Prod(r) => m.prod[r].value.mem,
        }
    }

    /// What is to be done about the ring once it is no longer alive.
    pub open spec fn free(self, m: Model) -> Action {
        match self {
            Ring::Cons(r) => Action::FreeCons(m.cons[r].value.mem),
            Ring::Prod(r) => Action::FreeProd(m.prod[r].value.mem),
        }
    }

    /// What keeps the ring alive.
    spec fn user(self, cons_users: Map<usize, User>, prod_users: Map<usize, User>) -> User {
        match self {
            Ring::Cons(r) => cons_users[r],
            Ring::Prod(r) => prod_users[r],
        }
    }
}

/// What has become due between `m` and `n`.
pub open spec fn since(m: Model, n: Model) -> Seq<Action> {
    n.actions.skip(m.actions.len() as int)
}

/// Whether those rings that were alive in `m` and are not alive in `n` are
/// freed, each once, and no memory where there is a ring.
pub open spec fn frees_exactly(m: Model, n: Model) -> bool {
    let new = since(m, n);
    &&& n.actions == m.actions + new
    &&& forall|ring: Ring| #[trigger]
        ring.alive(m) && !ring.alive(n) ==> new.contains(ring.free(m))
    &&& forall|i: int|
        0 <= i < new.len() && (#[trigger] new[i]).freed() is Some ==> exists|ring: Ring| #[trigger]
            ring.alive(m) && !ring.alive(n) && new[i] == ring.free(m)
    &&& forall|i: int, j: int|
        0 <= i < j < new.len() && (#[trigger] new[i]).freed() is Some ==> new[i].freed() != (
        #[trigger] new[j]).freed()
    &&& forall|i: int|
        0 <= i < new.len() ==> ((#[trigger] new[i]).freed() matches Some(mem) ==> n.unoccupied(mem))
}

/// Every ring that is alive has an address, which is not null, to itself.
pub proof fn law_rings_have_addresses(heap: Heap)
    requires
        heap.wf(),
    ensures
        heap@.distinct_rings(),
{
}

/// None of the actions that are due frees memory where there is a ring.
pub proof fn law_live_rings_are_not_freed(heap: Heap, i: int, ring: Ring)
    requires
        heap.wf(),
        0 <= i < heap@.actions.len(),
        ring.alive(heap@),
    ensures
        heap@.actions[i] != Action::FreeCons(ring.mem(heap@)),
        heap@.actions[i] != Action::FreeProd(ring.mem(heap@)),
{
    assert(heap@.actions[i].freed() matches Some(mem) ==> heap@.unoccupied(mem));
}

/// No two of the actions that are due free the same memory.
pub proof fn law_memory_is_freed_once(heap: Heap, i: int, j: int, mem: usize)
    requires
        heap.wf(),
        0 <= i < j < heap@.actions.len(),
        heap@.actions[i] == Action::FreeCons(mem) || heap@.actions[i] == Action::FreeProd(mem),
    ensures
        heap@.actions[j] != Action::FreeCons(mem),
        heap@.actions[j] != Action::FreeProd(mem),
{
    assert(heap@.actions[i].freed() != heap@.actions[j].freed());
}

/// Dropping a queue, or a handle on a socket, leaves every ring an address
/// to itself.
pub proof fn law_drop_keeps_rings_apart(heap: Heap, q: Holder)
    requires
        heap.wf(),
        q.valid(heap@),
    ensures
        q.dropped(heap@).distinct_rings(),
{
    crate::xsk::lemma_fewer_rings(heap@, q.dropped(heap@));
}

/// Giving up a handle on a UMEM leaves every ring an address to itself.
pub proof fn law_umem_drop_keeps_rings_apart(m: Model, h: Handle)
    requires
        m.distinct_rings(),
    ensures
        m.release_umem(h).distinct_rings(),
{
    crate::xsk::lemma_fewer_rings(m, m.release_umem(h));
}

/// Creating a UMEM with rings in vacant memory leaves every ring an address
/// to itself.
pub proof fn law_umem_creation_keeps_rings_apart(
    m: Model,
    n: Model,
    umem: Umem,
    ptr: usize,
    fill_mem: usize,
    fill: XskRing,
    comp_mem: usize,
    comp: XskRing,
)
    requires
        m.distinct_rings(),
        m.unoccupied(fill_mem),
        m.unoccupied(comp_mem),
        fill_mem != comp_mem,
        crate::xsk::umem::umem_added(m, n, umem, ptr, fill_mem, fill, comp_mem, comp),
    ensures
        n.distinct_rings(),
{
}

/// Creating a socket, or failing to, leaves every ring an address to itself,
/// given vacant memory for the new ones.
pub proof fn law_creation_keeps_rings_apart(
    heap: Heap,
    n: Model,
    u: usize,
    request: CreateRequest,
    reply: CreateReply,
    fd: Option<i32>,
    res: Created,
)
    requires
        heap.wf(),
        heap@.umems.contains_key(u),
        request.fits(heap@, u),
        crate::xsk::socket::outcome(heap@, n, u, request, reply, fd, res),
    ensures
        n.distinct_rings(),
{
    let m = heap@;
    let base = m.unsaved(u);
    assert(m.saved_ok(heap.cons_users@, heap.prod_users@, u));
    crate::xsk::lemma_fewer_rings(m, base);
    if reply.returns_rings(request) {
        crate::xsk::lemma_fewer_rings(m, n);
    } else {
        let ctx = n.umems[u].value.ctxs.last();
        let (rx, tx): (usize, usize) = match res {
            Ok((tx_q, _, _)) => {
                let inner = n.sockets[tx_q.spec_socket().spec_handle().slot()].value;
                (inner.rx_ring.spec_handle().slot(), inner.tx_ring.spec_handle().slot())
            },
            Err(_) => (0, 0),
        };
        crate::xsk::lemma_more_rings(
            base,
            n,
            rx,
            ctx.comp.spec_handle().slot(),
            tx,
            ctx.fill.spec_handle().slot(),
            request.rx.mem,
            request.comp.mem,
            request.tx.mem,
            request.fill.mem,
        );
    }
}

/// Two rings that are alive are at different addresses, neither of which is
/// null.
pub proof fn law_rings_are_apart(heap: Heap, a: Ring, b: Ring)
    requires
        heap.wf(),
        a.alive(heap@),
        b.alive(heap@),
        a != b,
    ensures
        a.mem(heap@) != 0,
        b.mem(heap@) != 0,
        a.mem(heap@) != b.mem(heap@),
{
}

/// Two wrappers access consumer rings at different addresses.
pub proof fn law_cons_wrappers_are_apart(rings: Rings, a: XskRingCons, b: XskRingCons)
    requires
        crate::ring::addressed(rings),
        a.owns(rings),
        b.owns(rings),
        a.spec_handle() != b.spec_handle(),
    ensures
        a.cell(rings).mem != b.cell(rings).mem,
{
    crate::table::handle_ext(a.spec_handle(), b.spec_handle());
}

/// Two wrappers access producer rings at different addresses.
pub proof fn law_prod_wrappers_are_apart(rings: Rings, a: XskRingProd, b: XskRingProd)
    requires
        crate::ring::addressed(rings),
        a.owns(rings),
        b.owns(rings),
        a.spec_handle() != b.spec_handle(),
    ensures
        a.cell(rings).mem != b.cell(rings).mem,
{
    crate::table::handle_ext(a.spec_handle(), b.spec_handle());
}

/// Writing to a consumer ring neither moves it nor makes a difference to
/// any other.
pub proof fn law_cons_write_is_local(
    rings: Rings,
    a: XskRingCons,
    b: XskRingCons,
    ring: XskRing,
)
    requires
        a.owns(rings),
        b.owns(rings),
        a.spec_handle() != b.spec_handle(),
    ensures
        ({
            let after = crate::ring::written(rings, a.spec_handle().slot(), ring);
            &&& a.owns(after)
            &&& a.cell(after).ring == ring
            &&& a.cell(after).mem == a.cell(rings).mem
            &&& b.owns(after)
            &&& b.cell(after) == b.cell(rings)
        }),
{
    crate::table::handle_ext(a.spec_handle(), b.spec_handle());
}

/// Writing to a producer ring neither moves it nor makes a difference to
/// any other.
pub proof fn law_prod_write_is_local(
    rings: Rings,
    a: XskRingProd,
    b: XskRingProd,
    ring: XskRing,
)
    requires
        a.owns(rings),
        b.owns(rings),
        a.spec_handle() != b.spec_handle(),
    ensures
        ({
            let after = crate::ring::written(rings, a.spec_handle().slot(), ring);
            &&& a.owns(after)
            &&& a.cell(after).ring == ring
            &&& a.cell(after).mem == a.cell(rings).mem
            &&& b.owns(after)
            &&& b.cell(after) == b.cell(rings)
        }),
{
    crate::table::handle_ext(a.spec_handle(), b.spec_handle());
}

/// When a wrapper or a handle of a ring is given up, every ring that is still
/// alive is where it was and holds what it held. Only the ring that it was
/// the last to keep alive goes.
pub proof fn law_release_does_not_move_rings(
    before: &RingTable,
    after: &RingTable,
    h: Handle,
    freed: Option<usize>,
    r: usize,
)
    requires
        crate::table::holds(before@, h),
        crate::ring::released(before, after, h, freed),
    ensures
        after@.contains_key(r) ==> before@.contains_key(r) && after@[r].value == before@[r].value,
        before@.contains_key(r) && !after@.contains_key(r) ==> r == h.slot() && freed == Some(
            before@[r].value.mem,
        ),
{
}

/// When a handle is taken on a ring, every ring stays where it is and holds
/// what it held.
pub proof fn law_handle_does_not_move_rings(
    before: &RingTable,
    after: &RingTable,
    h: Handle,
    handle: Handle,
    r: usize,
)
    requires
        crate::table::holds(before@, h),
        crate::ring::retained(before, after, h, handle),
    ensures
        after@.contains_key(r) <==> before@.contains_key(r),
        before@.contains_key(r) ==> after@[r].value == before@[r].value,
{
}

/// When a ring is created, every other stays as it was.
pub proof fn law_default_does_not_move_rings(
    before: &RingTable,
    after: &RingTable,
    h: Handle,
    mem: usize,
    r: usize,
)
    requires
        crate::ring::created(before, after, h, mem),
        before@.contains_key(r),
    ensures
        after@.contains_key(r),
        after@[r] == before@[r],
        r != h.slot(),
{
}

/// A ring that stays alive when a queue, or a handle on a socket, is dropped
/// stays where it is and holds what it held. No ring comes to life.
pub proof fn law_drop_does_not_move_rings(heap: Heap, q: Holder, r: usize)
    requires
        heap.wf(),
        q.valid(heap@),
    ensures
        q.dropped(heap@).cons.contains_key(r) ==> heap@.cons.contains_key(r) && q.dropped(
            heap@,
        ).cons[r].value == heap@.cons[r].value,
        q.dropped(heap@).prod.contains_key(r) ==> heap@.prod.contains_key(r) && q.dropped(
            heap@,
        ).prod[r].value == heap@.prod[r].value,
{
}

/// A ring that stays alive when a handle on a UMEM is given up stays as it
/// was. No ring comes to life.
pub proof fn law_umem_drop_does_not_move_rings(m: Model, h: Handle, r: usize)
    ensures
        m.release_umem(h).cons.contains_key(r) ==> m.cons.contains_key(r) && m.release_umem(
            h,
        ).cons[r] == m.cons[r],
        m.release_umem(h).prod.contains_key(r) ==> m.prod.contains_key(r) && m.release_umem(
            h,
        ).prod[r] == m.prod[r],
{
}

/// Creating a socket, or failing to, leaves every ring as it was, except for
/// those that the UMEM was created with. While these are alive they stay
/// where they are.
pub proof fn law_creation_does_not_move_rings(
    m: Model,
    n: Model,
    u: usize,
    request: CreateRequest,
    reply: CreateReply,
    fd: Option<i32>,
    res: Created,
    r: usize,
)
    requires
        m.umems.contains_key(u),
        request.fits(m, u),
        crate::xsk::socket::outcome(m, n, u, request, reply, fd, res),
    ensures
        m.unsaved(u).cons.contains_key(r) ==> n.cons.contains_key(r) && n.cons[r] == m.cons[r],
        m.unsaved(u).prod.contains_key(r) ==> n.prod.contains_key(r) && n.prod[r] == m.prod[r],
        (if reply.err == 0 {
            reply.fill.ring != 0 || reply.comp.ring != 0
        } else {
            request.saved
        }) ==> {
            &&& exists|c: usize| #[trigger]
                n.cons.contains_key(c) && n.cons[c].value.mem == request.comp.mem
            &&& exists|f: usize| #[trigger]
                n.prod.contains_key(f) && n.prod[f].value.mem == request.fill.mem
        },
{
    if reply.keeps_ctx() {
        let ctx = n.umems[u].value.ctxs.last();
        assert(n.cons.contains_key(ctx.comp.spec_handle().slot()));
        assert(n.prod.contains_key(ctx.fill.spec_handle().slot()));
    } else if reply.returns_rings(request) {
        let rings = m.umems[u].value.saved->0;
        assert(n.cons.contains_key(rings.comp.spec_handle().slot()));
        assert(n.prod.contains_key(rings.fill.spec_handle().slot()));
    }
}

/// Creating a socket, or failing to, frees only memory that was set aside
/// for its rings and holds none now, and none of it twice.
pub proof fn law_creation_frees_unoccupied_memory(
    heap: Heap,
    after: Heap,
    u: usize,
    request: CreateRequest,
    reply: CreateReply,
    fd: Option<i32>,
    res: Created,
)
    requires
        heap.wf(),
        after.wf(),
        heap@.umems.contains_key(u),
        request.fits(heap@, u),
        crate::xsk::socket::outcome(heap@, after@, u, request, reply, fd, res),
    ensures
        ({
            let new = since(heap@, after@);
            &&& after@.actions == heap@.actions + new
            &&& forall|i: int|
                0 <= i < new.len() ==> ((#[trigger] new[i]).freed() matches Some(mem) ==> {
                    &&& after@.unoccupied(mem)
                    &&& mem == request.rx.mem || mem == request.tx.mem || mem == request.fill.mem
                        || mem == request.comp.mem
                })
            &&& forall|i: int, j: int|
                0 <= i < j < new.len() && (#[trigger] new[i]).freed() is Some ==> new[i].freed()
                    != (#[trigger] new[j]).freed()
        }),
{
    let m = heap@;
    let n = after@;
    assert(m.saved_ok(heap.cons_users@, heap.prod_users@, u));
    let new = match res {
        Ok(_) => reply.ctx_actions(request),
        Err(_) => reply.failure_actions(request),
    };
    assert(since(m, n) =~= new);
}

/// The rings that go when the UMEM in slot `u` is deleted, in the order in
/// which they are freed.
spec fn victims(m: Model, u: usize) -> Seq<Ring> {
    let umem = m.umems[u].value;
    let saved = match umem.saved {
        Some(rings) => seq![
            Ring::Prod(rings.fill.spec_handle().slot()),
            Ring::Cons(rings.comp.spec_handle().slot()),
        ],
        None => seq![],
    };
    saved + ctx_victims(umem.ctxs)
}

/// The rings of `ctxs`, in the order in which they are freed.
pub(super) open spec fn ctx_victims(ctxs: Seq<Ctx>) -> Seq<Ring> {
    Seq::new(
        2 * ctxs.len(),
        |i: int|
            if i % 2 == 0 {
                Ring::Prod(ctxs[i / 2].fill.spec_handle().slot())
            } else {
                Ring::Cons(ctxs[i / 2].comp.spec_handle().slot())
            },
    )
}

pub(super) proof fn lemma_ctx_victims(m: Model, ctxs: Seq<Ctx>)
    ensures
        m.ctx_frees(ctxs).len() == 2 * ctxs.len(),
        forall|i: int|
            0 <= i < 2 * ctxs.len() ==> #[trigger] m.ctx_frees(ctxs)[i] == ctx_victims(
                ctxs,
            )[i].free(m),
    decreases ctxs.len(),
{
    if ctxs.len() > 0 {
        let rest = ctxs.drop_last();
        lemma_ctx_victims(m, rest);
        assert forall|i: int| 0 <= i < 2 * ctxs.len() implies #[trigger] m.ctx_frees(ctxs)[i]
            == ctx_victims(ctxs)[i].free(m) by {
            if i < 2 * rest.len() {
                assert(m.ctx_frees(ctxs)[i] == m.ctx_frees(rest)[i]);
                assert(rest[i / 2] == ctxs[i / 2]);
                assert(ctx_victims(ctxs)[i] == ctx_victims(rest)[i]);
            } else {
                assert(ctxs[i / 2] == ctxs.last());
            }
        }
    }
}

/// What is known of the rings that go with a UMEM.
proof fn lemma_victims(
    m: Model,
    cons_users: Map<usize, User>,
    prod_users: Map<usize, User>,
    u: usize,
)
    requires
        m.inv(cons_users, prod_users),
        m.umems.contains_key(u),
    ensures
        ({
            let v = victims(m, u);
            let frees = m.saved_frees(u) + m.ctx_frees(m.umems[u].value.ctxs);
            let left = m.release_umem_rings(u);
            &&& frees.len() == v.len()
            &&& forall|i: int|
                0 <= i < v.len() ==> (#[trigger] v[i]).alive(m) && !v[i].alive(left) && frees[i]
                    == v[i].free(m) && !(v[i].user(cons_users, prod_users) is Socket)
            &&& forall|i: int, j: int|
                0 <= i < j < v.len() ==> #[trigger] v[i] != #[trigger] v[j]
            &&& forall|ring: Ring| #[trigger]
                ring.alive(m) && !ring.alive(left) ==> v.contains(ring)
        }),
{
    let umem = m.umems[u].value;
    let ctxs = umem.ctxs;
    let v = victims(m, u);
    let c = ctx_victims(ctxs);
    let k = v.len() - c.len();
    let frees = m.saved_frees(u) + m.ctx_frees(ctxs);
    let left = m.release_umem_rings(u);
    lemma_ctx_victims(m, ctxs);
    assert(m.saved_ok(cons_users, prod_users, u));
    assert forall|i: int| 0 <= i < v.len() implies (#[trigger] v[i]).alive(m) && !v[i].alive(left)
        && frees[i] == v[i].free(m) && v[i].user(cons_users, prod_users) == (if i < k {
        User::Saved(u)
    } else {
        User::Ctx(u, (i - k) / 2)
    }) by {
        if i >= k {
            let j = (i - k) / 2;
            let ctx = m.umems[u].value.ctxs[j];
            assert(v[i] == c[i - k]);
            assert(frees[i] == m.ctx_frees(ctxs)[i - k]);
            assert(m.ctx_ok(cons_users, prod_users, u, j));
            assert(ctxs[j].fill.spec_handle().slot() == ctx.fill.spec_handle().slot());
            assert(crate::xsk::fill_slots(ctxs).contains(ctx.fill.spec_handle().slot()));
            assert(crate::xsk::comp_slots(ctxs).contains(ctx.comp.spec_handle().slot()));
        }
    }
    assert forall|i: int, j: int| 0 <= i < j < v.len() implies #[trigger] v[i]
        != #[trigger] v[j] by {
        if i >= k {
            assert(v[i] == c[i - k]);
            assert(v[j] == c[j - k]);
        }
    }
    assert forall|ring: Ring| #[trigger] ring.alive(m) && !ring.alive(left) implies v.contains(
        ring,
    ) by {
        if k > 0 && ring == v[0] {
        } else if k > 0 && ring == v[1] {
        } else {
            match ring {
                Ring::Cons(r) => {
                    assert(crate::xsk::comp_slots(ctxs).contains(r));
                    let j = choose|j: int|
                        0 <= j < ctxs.len() && #[trigger] ctxs[j].comp.spec_handle().slot() == r;
                    assert(c[2 * j + 1] == ring);
                    assert(v[k + 2 * j + 1] == ring);
                },
                Ring::Prod(r) => {
                    assert(crate::xsk::fill_slots(ctxs).contains(r));
                    let j = choose|j: int|
                        0 <= j < ctxs.len() && #[trigger] ctxs[j].fill.spec_handle().slot() == r;
                    assert(c[2 * j] == ring);
                    assert(v[k + 2 * j] == ring);
                },
            }
        }
    }
}

/// Freeing the rings that are no longer alive, each once, is all that is
/// asked.
proof fn lemma_frees_exactly(
    m: Model,
    n: Model,
    new: Seq<Action>,
    gone: Seq<Option<Ring>>,
)
    requires
        m.distinct_rings(),
        n.actions == m.actions + new,
        new.len() == gone.len(),
        forall|r: usize| #[trigger]
            n.cons.contains_key(r) ==> m.cons.contains_key(r) && n.cons[r].value.mem
                == m.cons[r].value.mem,
        forall|r: usize| #[trigger]
            n.prod.contains_key(r) ==> m.prod.contains_key(r) && n.prod[r].value.mem
                == m.prod[r].value.mem,
        forall|i: int|
            0 <= i < new.len() ==> match #[trigger] gone[i] {
                Some(ring) => ring.alive(m) && !ring.alive(n) && new[i] == ring.free(m),
                None => new[i].freed() is None,
            },
        forall|i: int, j: int|
            0 <= i < j < gone.len() && #[trigger] gone[i] is Some ==> gone[i]
                != #[trigger] gone[j],
        forall|ring: Ring| #[trigger]
            ring.alive(m) && !ring.alive(n) ==> gone.contains(Some(ring)),
    ensures
        frees_exactly(m, n),
{
    assert(since(m, n) =~= new);
    assert forall|ring: Ring| #[trigger] ring.alive(m) && !ring.alive(n) implies new.contains(
        ring.free(m),
    ) by {
        let i = choose|i: int| 0 <= i < gone.len() && gone[i] == Some(ring);
        assert(new[i] == ring.free(m));
    }
    assert forall|i: int| 0 <= i < new.len() && (#[trigger] new[i]).freed() is Some implies exists|
        ring: Ring,
    | #[trigger]
        ring.alive(m) && !ring.alive(n) && new[i] == ring.free(m) by {
        assert(gone[i] is Some);
        let ring = gone[i]->0;
        assert(ring.alive(m));
    }
    assert forall|i: int| 0 <= i < new.len() implies ((#[trigger] new[i]).freed() matches Some(mem)
        ==> n.unoccupied(mem)) by {
        if let Some(ring) = gone[i] {
            assert(ring.alive(m));
        }
    }
    assert forall|i: int, j: int|
        0 <= i < j < new.len() && (#[trigger] new[i]).freed() is Some implies new[i].freed() != (
    #[trigger] new[j]).freed() by {
        assert(gone[i] is Some);
        if let Some(other) = gone[j] {
            let ring = gone[i]->0;
            assert(ring.alive(m) && other.alive(m));
        }
    }
}

/// What giving up a handle on a UMEM frees.
pub(super) proof fn lemma_umem_drop(
    m: Model,
    cons_users: Map<usize, User>,
    prod_users: Map<usize, User>,
    h: Handle,
)
    requires
        m.inv(cons_users, prod_users),
        m.distinct_rings(),
        m.umems.contains_key(h.slot()),
    ensures
        frees_exactly(m, m.release_umem(h)),
{
    let n = m.release_umem(h);
    let u = h.slot();
    let v = victims(m, u);
    if m.umems[u].last_holder(h.ticket()) {
        let ctxs = m.umems[u].value.ctxs;
        let new = seq![Action::DeleteUmem(m.umems[u].value.ptr)] + m.saved_frees(u) + m.ctx_frees(
            ctxs,
        );
        let gone = Seq::new(
            new.len(),
            |i: int|
                if i == 0 {
                    None
                } else {
                    Some(v[i - 1])
                },
        );
        lemma_victims(m, cons_users, prod_users, u);
        assert(m.saved_ok(cons_users, prod_users, u));
        assert forall|j: int| 0 <= j < ctxs.len() implies {
            &&& m.unsaved(u).prod[(#[trigger] ctxs[j]).fill.spec_handle().slot()].value.mem
                == m.prod[ctxs[j].fill.spec_handle().slot()].value.mem
            &&& m.unsaved(u).cons[ctxs[j].comp.spec_handle().slot()].value.mem
                == m.cons[ctxs[j].comp.spec_handle().slot()].value.mem
        } by {
            assert(m.umems[u].value.ctxs[j] == ctxs[j]);
            assert(m.ctx_ok(cons_users, prod_users, u, j));
        }
        crate::xsk::laws::lemma_ctx_frees(m.unsaved(u), m, ctxs);
        assert(n.actions =~= m.actions + new);
        assert forall|ring: Ring| #[trigger] ring.alive(m) && !ring.alive(n) implies gone.contains(
            Some(ring),
        ) by {
            assert(!ring.alive(m.release_umem_rings(u)));
            let i = choose|i: int| 0 <= i < v.len() && v[i] == ring;
            assert(gone[i + 1] == Some(ring));
        }
        lemma_frees_exactly(m, n, new, gone);
    } else {
        assert(n.actions =~= m.actions + Seq::<Action>::empty());
        lemma_frees_exactly(m, n, seq![], seq![]);
    }
}

/// Rings are spared if exactly those that are no longer alive are freed.
pub(super) proof fn lemma_still_spared(m: Model, n: Model)
    requires
        m.distinct_rings(),
        m.spares_rings(),
        frees_exactly(m, n),
        forall|r: usize| #[trigger]
            n.cons.contains_key(r) ==> m.cons.contains_key(r) && n.cons[r].value.mem
                == m.cons[r].value.mem,
        forall|r: usize| #[trigger]
            n.prod.contains_key(r) ==> m.prod.contains_key(r) && n.prod[r].value.mem
                == m.prod[r].value.mem,
    ensures
        n.spares_rings(),
{
    let new = since(m, n);
    assert forall|i: int| 0 <= i < new.len() implies ((#[trigger] new[i]).freed() matches Some(mem)
        ==> n.unoccupied(mem) && !m.pending(mem)) by {
        if new[i].freed() is Some {
            let ring = choose|ring: Ring| #[trigger]
                ring.alive(m) && !ring.alive(n) && new[i] == ring.free(m);
            assert(ring.alive(m));
        }
    }
    crate::xsk::lemma_spares_rings(m, n, new);
}

/// Giving up a handle on a UMEM frees those rings that are no longer alive,
/// each once, and no memory where there is a ring.
pub proof fn law_umem_drop_frees_exactly(heap: Heap, umem: Umem)
    requires
        heap.wf(),
        umem.valid(heap@),
    ensures
        frees_exactly(heap@, heap@.release_umem(umem.spec_handle())),
{
    lemma_umem_drop(heap@, heap.cons_users@, heap.prod_users@, umem.spec_handle());
}

/// Dropping a queue, or a handle on a socket, frees those rings that are no
/// longer alive, each once, and no memory where there is a ring.
pub proof fn law_drop_frees_exactly(heap: Heap, q: Holder)
    requires
        heap.wf(),
        q.valid(heap@),
    ensures
        frees_exactly(heap@, q.dropped(heap@)),
{
    let m = heap@;
    let n = q.dropped(m);
    let cu = heap.cons_users@;
    let pu = heap.prod_users@;
    let s = q.handle().slot();
    let t = q.handle().ticket();
    assert(m.socket_ok(cu, pu, s));
    if m.sockets[s].last_holder(t) {
        let inner = m.sockets[s].value;
        let h = inner.umem.spec_handle();
        let u = h.slot();
        let v = victims(m, u);
        let rx = Ring::Cons(inner.rx_ring.spec_handle().slot());
        let tx = Ring::Prod(inner.tx_ring.spec_handle().slot());
        let rest = crate::xsk::laws::umem_actions(m, h);
        let new = seq![Action::DeleteSocket(inner.ptr), rx.free(m), tx.free(m)] + rest;
        let all = seq![q];
        assert(all.drop_last() =~= seq![]);
        assert(crate::xsk::laws::dropped(m, all.drop_last()) == m);
        assert(crate::xsk::laws::all_holders(m, s, all)) by {
            assert forall|k: nat| #[trigger] m.sockets[s].holders.contains(k) implies exists|
                i: int,
            | 0 <= i < all.len() && (#[trigger] all[i]).handle().ticket() == k by {
                assert(all[0].handle().ticket() == k);
            }
        }
        crate::xsk::laws::law_any_drop_order(heap, s, all);
        assert(n.actions =~= m.actions + new);
        let last = m.umems[u].last_holder(h.ticket());
        let gone = Seq::new(
            new.len(),
            |i: int|
                if i == 1 {
                    Some(rx)
                } else if i == 2 {
                    Some(tx)
                } else if i < 4 {
                    None
                } else {
                    Some(v[i - 4])
                },
        );
        lemma_victims(m, cu, pu, u);
        assert(rx.user(cu, pu) is Socket);
        assert(tx.user(cu, pu) is Socket);
        assert(gone[1] == Some(rx));
        assert(gone[2] == Some(tx));
        assert forall|ring: Ring| #[trigger] ring.alive(m) && !ring.alive(n) implies gone.contains(
            Some(ring),
        ) by {
            if ring != rx && ring != tx {
                assert(!ring.alive(m.release_umem_rings(u)));
                let i = choose|i: int| 0 <= i < v.len() && v[i] == ring;
                assert(gone[i + 4] == Some(ring));
            }
        }
        lemma_frees_exactly(m, n, new, gone);
    } else {
        assert(n.actions =~= m.actions + Seq::<Action>::empty());
        assert(n.cons.dom() =~= m.cons.dom());
        assert(n.prod.dom() =~= m.prod.dom());
        lemma_frees_exactly(m, n, seq![], seq![]);
    }
}

} // verus!

//! The sockets and UMEMs that are alive, and what keeps them so.
//!
//! libxdp dereferences the rings of a socket when deleting it, and those
//! of a UMEM when deleting that. The [`Heap`] therefore counts, for each
//! socket, UMEM and ring, the handles that keep it alive, and decides
//! when it is deleted or freed. It does not call libxdp itself: each
//! deletion that is due is recorded as an [`Action`], to be carried out
//! in order by whoever holds the heap.

pub mod calls;
pub mod effects;
pub mod laws;
pub mod memory;
pub mod queue;
pub mod socket;
pub mod umem;

use crate::ring::{
    RingTable, Rings, XskRing, XskRingCons, XskRingConsHandle, XskRingProd, XskRingProdHandle,
};
use crate::table::{Handle, RefTable, Shared};
use crate::xsk::socket::SocketConfig;
use crate::xsk::umem::Umem;
use vstd::prelude::*;

verus! {

/// What is to be done about an object that nothing keeps alive.
#[derive(Clone, Copy, Debug, PartialEq, Eq, Structural)]
pub enum Action {
    /// Call `xsk_socket__delete` on the socket at this address.
    DeleteSocket(usize),
    /// Call `xsk_umem__delete` on the UMEM at this address.
    DeleteUmem(usize),
    /// Free the consumer ring at this address.
    FreeCons(usize),
    /// Free the producer ring at this address.
    FreeProd(usize),
}

impl Action {
    /// The address of the memory that is to be freed.
    pub open spec fn freed(self) -> Option<usize> {
        match self {
            Action::FreeCons(mem) => Some(mem),
            Action::FreeProd(mem) => Some(mem),
            _ => None,
        }
    }
}

/// A device queue, which is what sockets are bound to.
pub struct Device {
    pub if_name: Seq<u8>,
    pub queue_id: u32,
}

/// The tickets of the handles that the queues of a socket have on it.
pub struct Queues {
    pub tx: nat,
    pub rx: nat,
    pub ctx: Option<CtxQueues>,
}

/// The tickets of a fill queue and a completion queue, and which of the
/// UMEM's pairs of rings the two access.
pub struct CtxQueues {
    pub index: int,
    pub fill: nat,
    pub comp: nat,
}

impl Queues {
    /// No two queues share a handle.
    pub open spec fn distinct(self) -> bool {
        &&& self.tx != self.rx
        &&& self.ctx matches Some(c) ==> {
            &&& c.fill != c.comp
            &&& c.fill != self.tx
            &&& c.fill != self.rx
            &&& c.comp != self.tx
            &&& c.comp != self.rx
        }
    }

    /// Whether one of the queues has the handle with this ticket.
    pub open spec fn has(self, ticket: nat) -> bool {
        ||| ticket == self.tx
        ||| ticket == self.rx
        ||| self.ctx matches Some(c) && (ticket == c.fill || ticket == c.comp)
    }
}

/// An AF_XDP socket, along with everything libxdp dereferences when
/// deleting it.
///
/// `xsk_socket__delete` reads back the rx and tx rings it was handed at
/// creation to work out which memory to unmap, so they have to outlive
/// it - as do the UMEM's fill and comp rings, which the `umem` handle
/// keeps alive.
pub struct SocketInner {
    /// The address of the socket, which is not null.
    pub ptr: usize,
    pub rx_ring: XskRingConsHandle,
    pub tx_ring: XskRingProdHandle,
    pub umem: Umem,
    /// What the socket is bound to.
    pub device: Ghost<Device>,
    /// What the socket was created with.
    pub config: Ghost<SocketConfig>,
    pub queues: Ghost<Queues>,
}

/// A fill ring and a completion ring that libxdp has pointers to.
pub struct Ctx {
    pub fill: XskRingProdHandle,
    pub comp: XskRingConsHandle,
    /// The slot of the socket that was handed queues for these rings.
    pub socket: Ghost<Option<usize>>,
}

/// A fill ring and a completion ring, and access to both.
pub struct RingPair {
    pub fill: XskRingProd,
    pub comp: XskRingCons,
}

/// A UMEM, along with the rings that libxdp dereferences when deleting
/// it or the sockets that share it.
pub struct UmemInner {
    /// The address of the UMEM.
    pub ptr: usize,
    /// The rings that the UMEM was created with, until a socket gets
    /// them. libxdp expects to be handed these with the first socket.
    pub saved: Option<RingPair>,
    /// The rings that sockets have been created with.
    pub ctxs: Vec<Ctx>,
}

/// What a [`UmemInner`] holds.
pub struct UmemModel {
    pub ptr: usize,
    pub saved: Option<RingPair>,
    pub ctxs: Seq<Ctx>,
}

impl View for UmemInner {
    type V = UmemModel;

    open spec fn view(&self) -> UmemModel {
        UmemModel { ptr: self.ptr, saved: self.saved, ctxs: self.ctxs@ }
    }
}

/// Everything that is alive, by slot, and what is still to be done about
/// what is not.
#[verifier::ext_equal]
pub struct Model {
    pub cons: Rings,
    pub prod: Rings,
    pub sockets: Map<usize, Shared<SocketInner>>,
    pub umems: Map<usize, Shared<UmemModel>>,
    pub actions: Seq<Action>,
}

/// What keeps a ring alive, besides the wrapper that accesses it.
pub enum User {
    /// The socket in this slot.
    Socket(usize),
    /// The UMEM in this slot, with the pair of rings at this index.
    Ctx(usize, int),
    /// The UMEM in this slot, with the pair of rings that it was created
    /// with. These are kept alive by their wrappers alone.
    Saved(usize),
}

/// The tickets of a ring that is kept alive by one handle and, while it
/// is `accessed`, by its wrapper.
pub open spec fn ring_holders(handle: nat, wrapper: nat, accessed: bool) -> Set<nat> {
    if accessed {
        set![handle, wrapper]
    } else {
        set![handle]
    }
}

/// Whether `after` has one ring more than `before`: a ring that holds
/// `ring`, at the address `mem`, kept alive by `h` and, while it is
/// `accessed`, by its wrapper.
pub open spec fn ring_added(
    before: Rings,
    after: Rings,
    h: Handle,
    mem: usize,
    ring: XskRing,
    accessed: bool,
) -> bool {
    &&& !before.contains_key(h.slot())
    &&& after == before.insert(h.slot(), after[h.slot()])
    &&& ring_is(after, h, mem, ring, accessed)
}

/// Whether `h` keeps alive a ring that holds `ring` and is at the
/// address `mem`, together with the wrapper of that ring while it is
/// `accessed`.
pub open spec fn ring_is(
    rings: Rings,
    h: Handle,
    mem: usize,
    ring: XskRing,
    accessed: bool,
) -> bool {
    &&& rings.contains_key(h.slot())
    &&& rings[h.slot()].value.mem == mem
    &&& rings[h.slot()].value.ring == ring
    &&& rings[h.slot()].value.owner@ != h.ticket()
    &&& rings[h.slot()].holders == ring_holders(
        h.ticket(),
        rings[h.slot()].value.owner@,
        accessed,
    )
}

/// Whether `after` has one ring more than `before`: a ring that holds
/// `ring`, at the address `mem`, kept alive by the wrapper with the handle
/// `h` alone.
pub open spec fn wrapper_added(
    before: Rings,
    after: Rings,
    h: Handle,
    mem: usize,
    ring: XskRing,
) -> bool {
    &&& !before.contains_key(h.slot())
    &&& after == before.insert(h.slot(), after[h.slot()])
    &&& crate::ring::grants_access(after, h)
    &&& after[h.slot()].last_holder(h.ticket())
    &&& after[h.slot()].value.mem == mem
    &&& after[h.slot()].value.ring == ring
}

/// The slots of the fill rings of `ctxs`.
pub open spec fn fill_slots(ctxs: Seq<Ctx>) -> Set<usize> {
    Set::new(
        |r: usize|
            exists|j: int| 0 <= j < ctxs.len() && #[trigger] ctxs[j].fill.spec_handle().slot() == r,
    )
}

/// The slots of the completion rings of `ctxs`.
pub open spec fn comp_slots(ctxs: Seq<Ctx>) -> Set<usize> {
    Set::new(
        |r: usize|
            exists|j: int| 0 <= j < ctxs.len() && #[trigger] ctxs[j].comp.spec_handle().slot() == r,
    )
}

impl Model {
    /// Whether the socket in slot `s` was handed the queues of the pair
    /// of rings `j` of the UMEM in slot `u`.
    pub open spec fn serves(self, s: usize, u: usize, j: int) -> bool {
        &&& self.sockets.contains_key(s)
        &&& self.sockets[s].value.umem.spec_handle().slot() == u
        &&& self.sockets[s].value.queues@.ctx matches Some(c)
        &&& c.index == j
    }

    /// Whether there is a fill queue for the pair of rings `j` of the
    /// UMEM in slot `u`.
    pub open spec fn fill_accessed(self, u: usize, j: int) -> bool {
        &&& self.umems[u].value.ctxs[j].socket@ matches Some(s)
        &&& self.serves(s, u, j)
        &&& self.sockets[s].holders.contains(self.sockets[s].value.queues@.ctx->0.fill)
    }

    /// Whether there is a completion queue for the pair of rings `j` of
    /// the UMEM in slot `u`.
    pub open spec fn comp_accessed(self, u: usize, j: int) -> bool {
        &&& self.umems[u].value.ctxs[j].socket@ matches Some(s)
        &&& self.serves(s, u, j)
        &&& self.sockets[s].holders.contains(self.sockets[s].value.queues@.ctx->0.comp)
    }

    /// The ring in slot `h.slot()` is kept alive by `h` for the sake of
    /// `user` and, while it is `accessed`, by its wrapper.
    pub open spec fn ring_ok(
        rings: Rings,
        users: Map<usize, User>,
        h: Handle,
        user: User,
        accessed: bool,
    ) -> bool {
        &&& rings.contains_key(h.slot())
        &&& users.contains_key(h.slot())
        &&& users[h.slot()] == user
        &&& rings[h.slot()].value.owner@ != h.ticket()
        &&& rings[h.slot()].holders == ring_holders(
            h.ticket(),
            rings[h.slot()].value.owner@,
            accessed,
        )
    }

    pub open spec fn cons_user_ok(self, r: usize, user: User) -> bool {
        match user {
            User::Socket(s) => {
                &&& self.sockets.contains_key(s)
                &&& self.sockets[s].value.rx_ring.spec_handle().slot() == r
            },
            User::Ctx(u, j) => {
                &&& self.umems.contains_key(u)
                &&& 0 <= j < self.umems[u].value.ctxs.len()
                &&& self.umems[u].value.ctxs[j].comp.spec_handle().slot() == r
            },
            User::Saved(u) => {
                &&& self.umems.contains_key(u)
                &&& self.umems[u].value.saved matches Some(rings)
                &&& rings.comp.spec_handle().slot() == r
            },
        }
    }

    pub open spec fn prod_user_ok(self, r: usize, user: User) -> bool {
        match user {
            User::Socket(s) => {
                &&& self.sockets.contains_key(s)
                &&& self.sockets[s].value.tx_ring.spec_handle().slot() == r
            },
            User::Ctx(u, j) => {
                &&& self.umems.contains_key(u)
                &&& 0 <= j < self.umems[u].value.ctxs.len()
                &&& self.umems[u].value.ctxs[j].fill.spec_handle().slot() == r
            },
            User::Saved(u) => {
                &&& self.umems.contains_key(u)
                &&& self.umems[u].value.saved matches Some(rings)
                &&& rings.fill.spec_handle().slot() == r
            },
        }
    }

    /// The socket in slot `s` keeps its two rings and its UMEM alive, which
    /// no longer has the rings that it was created with.
    pub open spec fn socket_ok(
        self,
        cons_users: Map<usize, User>,
        prod_users: Map<usize, User>,
        s: usize,
    ) -> bool {
        let inner = self.sockets[s].value;
        let queues = inner.queues@;
        let holders = self.sockets[s].holders;
        &&& inner.ptr != 0
        &&& queues.distinct()
        &&& Self::ring_ok(
            self.cons,
            cons_users,
            inner.rx_ring.spec_handle(),
            User::Socket(s),
            holders.contains(queues.rx),
        )
        &&& Self::ring_ok(
            self.prod,
            prod_users,
            inner.tx_ring.spec_handle(),
            User::Socket(s),
            holders.contains(queues.tx),
        )
        &&& crate::table::holds(self.umems, inner.umem.spec_handle())
        &&& self.umems[inner.umem.spec_handle().slot()].value.saved is None
        &&& queues.ctx matches Some(c) ==> {
            let ctxs = self.umems[inner.umem.spec_handle().slot()].value.ctxs;
            &&& 0 <= c.index < ctxs.len()
            &&& ctxs[c.index].socket@ == Some(s)
        }
    }

    /// The wrapper with the handle `h` is all that keeps a ring alive, for
    /// the sake of `user`.
    pub open spec fn wrapper_ok(
        rings: Rings,
        users: Map<usize, User>,
        h: Handle,
        user: User,
    ) -> bool {
        &&& crate::ring::grants_access(rings, h)
        &&& rings[h.slot()].last_holder(h.ticket())
        &&& users.contains_key(h.slot())
        &&& users[h.slot()] == user
    }

    /// The UMEM in slot `u` keeps the rings that it was created with
    /// alive, unless a socket has got them.
    pub open spec fn saved_ok(
        self,
        cons_users: Map<usize, User>,
        prod_users: Map<usize, User>,
        u: usize,
    ) -> bool {
        self.umems[u].value.saved matches Some(rings) ==> {
            &&& Self::wrapper_ok(self.prod, prod_users, rings.fill.spec_handle(), User::Saved(u))
            &&& Self::wrapper_ok(self.cons, cons_users, rings.comp.spec_handle(), User::Saved(u))
        }
    }

    /// What is alive if the UMEM in slot `u` gives away the rings that it
    /// was created with.
    pub open spec fn unsaved(self, u: usize) -> Model {
        let umem = self.umems[u];
        match umem.value.saved {
            Some(rings) => Model {
                prod: self.prod.remove(rings.fill.spec_handle().slot()),
                cons: self.cons.remove(rings.comp.spec_handle().slot()),
                umems: self.umems.insert(
                    u,
                    Shared {
                        value: UmemModel { saved: None, ..umem.value },
                        holders: umem.holders,
                    },
                ),
                ..self
            },
            None => self,
        }
    }

    /// Frees the rings that the UMEM in slot `u` was created with.
    pub open spec fn saved_frees(self, u: usize) -> Seq<Action> {
        match self.umems[u].value.saved {
            Some(rings) => seq![
                Action::FreeProd(rings.fill.cell(self.prod).mem),
                Action::FreeCons(rings.comp.cell(self.cons).mem),
            ],
            None => seq![],
        }
    }

    /// Whether no ring is at `mem`, which is not null.
    pub open spec fn unoccupied(self, mem: usize) -> bool {
        &&& mem != 0
        &&& !crate::ring::has_address(self.cons, mem)
        &&& !crate::ring::has_address(self.prod, mem)
    }

    /// Whether the memory at `mem` is still to be freed.
    pub open spec fn pending(self, mem: usize) -> bool {
        exists|i: int|
            0 <= i < self.actions.len() && (#[trigger] self.actions[i]).freed() == Some(mem)
    }

    /// Whether the memory at `mem` can be used for a new ring.
    pub open spec fn vacant(self, mem: usize) -> bool {
        self.unoccupied(mem) && !self.pending(mem)
    }

    /// Whether none of the actions that are due frees memory where there is
    /// a ring, and no two of them free the same memory.
    pub open spec fn spares_rings(self) -> bool {
        &&& forall|i: int|
            0 <= i < self.actions.len() ==> ((#[trigger] self.actions[i]).freed() matches Some(mem)
                ==> self.unoccupied(mem))
        &&& forall|i: int, j: int|
            0 <= i < j < self.actions.len() && (#[trigger] self.actions[i]).freed() is Some
                ==> self.actions[i].freed() != (#[trigger] self.actions[j]).freed()
    }

    /// Whether every ring has an address, which is not null, to itself.
    pub open spec fn distinct_rings(self) -> bool {
        &&& crate::ring::addressed(self.cons)
        &&& crate::ring::addressed(self.prod)
        &&& forall|r: usize, s: usize|
            #![trigger self.cons.contains_key(r), self.prod.contains_key(s)]
            self.cons.contains_key(r) && self.prod.contains_key(s) ==> self.cons[r].value.mem
                != self.prod[s].value.mem
    }

    /// Whether of all sockets that share a UMEM and are bound to the same
    /// device at most one has been created without
    /// `XSK_LIBXDP_FLAGS_INHIBIT_PROG_LOAD`.
    pub open spec fn one_program(self) -> bool {
        forall|s: usize, t: usize|
            #![trigger self.sockets.contains_key(s), self.sockets.contains_key(t)]
            self.sockets.contains_key(s) && self.sockets.contains_key(t) && s != t
                && self.sockets[s].value.umem.spec_handle().slot()
                == self.sockets[t].value.umem.spec_handle().slot()
                && self.sockets[s].value.device@ == self.sockets[t].value.device@
                ==> self.sockets[s].value.config@.inhibits_prog_load()
                || self.sockets[t].value.config@.inhibits_prog_load()
    }

    /// The UMEM in slot `u` keeps its pair of rings `j` alive.
    pub open spec fn ctx_ok(
        self,
        cons_users: Map<usize, User>,
        prod_users: Map<usize, User>,
        u: usize,
        j: int,
    ) -> bool {
        let ctx = self.umems[u].value.ctxs[j];
        &&& Self::ring_ok(
            self.cons,
            cons_users,
            ctx.comp.spec_handle(),
            User::Ctx(u, j),
            self.comp_accessed(u, j),
        )
        &&& Self::ring_ok(
            self.prod,
            prod_users,
            ctx.fill.spec_handle(),
            User::Ctx(u, j),
            self.fill_accessed(u, j),
        )
    }

    /// Another handle on a socket.
    pub open spec fn retain_socket(self, h: Handle) -> Model {
        Model {
            sockets: self.sockets.insert(h.slot(), self.sockets[h.slot()].held_by(h.ticket())),
            ..self
        }
    }

    /// Another handle on a UMEM.
    pub open spec fn retain_umem(self, h: Handle) -> Model {
        Model {
            umems: self.umems.insert(h.slot(), self.umems[h.slot()].held_by(h.ticket())),
            ..self
        }
    }

    /// What is alive without the rings of the UMEM in slot `u`.
    pub open spec fn release_umem_rings(self, u: usize) -> Model {
        let rest = self.unsaved(u);
        Model {
            cons: rest.cons.remove_keys(comp_slots(self.umems[u].value.ctxs)),
            prod: rest.prod.remove_keys(fill_slots(self.umems[u].value.ctxs)),
            ..self
        }
    }

    /// Gives up the handle `h` on a UMEM. When it is the last one, the
    /// UMEM is deleted, and after that its rings are freed.
    pub open spec fn release_umem(self, h: Handle) -> Model {
        let umem = self.umems[h.slot()];
        if umem.last_holder(h.ticket()) {
            Model {
                umems: self.umems.remove(h.slot()),
                actions: self.actions.push(Action::DeleteUmem(umem.value.ptr)) + self.saved_frees(
                    h.slot(),
                ) + self.unsaved(h.slot()).ctx_frees(umem.value.ctxs),
                ..self.release_umem_rings(h.slot())
            }
        } else {
            Model { umems: self.umems.insert(h.slot(), umem.released_by(h.ticket())), ..self }
        }
    }

    /// Frees the rings of `ctxs`, in order.
    pub open spec fn ctx_frees(self, ctxs: Seq<Ctx>) -> Seq<Action>
        decreases ctxs.len(),
    {
        if ctxs.len() == 0 {
            seq![]
        } else {
            let ctx = ctxs.last();
            self.ctx_frees(ctxs.drop_last()).push(
                Action::FreeProd(self.prod[ctx.fill.spec_handle().slot()].value.mem),
            ).push(Action::FreeCons(self.cons[ctx.comp.spec_handle().slot()].value.mem))
        }
    }

    /// The wrapper with the handle `h` no longer accesses a consumer ring.
    pub open spec fn release_cons(self, h: Handle) -> Model {
        Model {
            cons: self.cons.insert(h.slot(), self.cons[h.slot()].released_by(h.ticket())),
            ..self
        }
    }

    /// The wrapper with the handle `h` no longer accesses a producer ring.
    pub open spec fn release_prod(self, h: Handle) -> Model {
        Model {
            prod: self.prod.insert(h.slot(), self.prod[h.slot()].released_by(h.ticket())),
            ..self
        }
    }

    /// Gives up the handle `h` on a socket. When it is the last one, the
    /// socket is deleted, and after that its rings are freed and its
    /// handle on the UMEM is given up.
    pub open spec fn release_socket(self, h: Handle) -> Model {
        let socket = self.sockets[h.slot()];
        if socket.last_holder(h.ticket()) {
            self.delete_socket(h.slot())
        } else {
            Model { sockets: self.sockets.insert(h.slot(), socket.released_by(h.ticket())), ..self }
        }
    }

    /// Deletes the socket in slot `s`.
    pub open spec fn delete_socket(self, s: usize) -> Model {
        let inner = self.sockets[s].value;
        let rx = inner.rx_ring.spec_handle().slot();
        let tx = inner.tx_ring.spec_handle().slot();
        Model {
            sockets: self.sockets.remove(s),
            cons: self.cons.remove(rx),
            prod: self.prod.remove(tx),
            actions: self.actions + seq![
                Action::DeleteSocket(inner.ptr),
                Action::FreeCons(self.cons[rx].value.mem),
                Action::FreeProd(self.prod[tx].value.mem),
            ],
            ..self
        }.release_umem(inner.umem.spec_handle())
    }

    /// Whether a socket that shares the UMEM in slot `u` is bound to
    /// `device`.
    pub open spec fn bound(self, u: usize, device: Device) -> bool {
        exists|s: usize| #[trigger] self.sockets.contains_key(s) && self.is_bound_by(s, u, device)
    }

    /// Whether the socket in slot `s` shares the UMEM in slot `u` and is
    /// bound to `device`.
    pub open spec fn is_bound_by(self, s: usize, u: usize, device: Device) -> bool {
        &&& self.sockets[s].value.umem.spec_handle().slot() == u
        &&& self.sockets[s].value.device@ == device
    }

    /// Every socket keeps its rx and tx rings and its UMEM alive, every
    /// UMEM its fill and comp rings, and no other ring is alive.
    pub open spec fn inv(
        self,
        cons_users: Map<usize, User>,
        prod_users: Map<usize, User>,
    ) -> bool {
        &&& cons_users.dom() == self.cons.dom()
        &&& prod_users.dom() == self.prod.dom()
        &&& forall|r: usize| #[trigger]
            cons_users.contains_key(r) ==> self.cons_user_ok(r, cons_users[r])
        &&& forall|r: usize| #[trigger]
            prod_users.contains_key(r) ==> self.prod_user_ok(r, prod_users[r])
        &&& forall|s: usize| #[trigger]
            self.sockets.contains_key(s) ==> self.socket_ok(cons_users, prod_users, s)
        &&& forall|s: usize, t: usize|
            #![trigger self.sockets.contains_key(s), self.sockets.contains_key(t)]
            self.sockets.contains_key(s) && self.sockets.contains_key(t) && s != t
                ==> self.sockets[s].value.umem.spec_handle()
                != self.sockets[t].value.umem.spec_handle()
        &&& forall|u: usize| #[trigger]
            self.umems.contains_key(u) ==> self.saved_ok(cons_users, prod_users, u)
        &&& forall|u: usize, j: int|
            #![trigger self.umems[u].value.ctxs[j]]
            self.umems.contains_key(u) && 0 <= j < self.umems[u].value.ctxs.len()
                ==> self.ctx_ok(cons_users, prod_users, u, j)
    }
}

/// The slots of the first `i + 1` pairs of rings are those of the first
/// `i` and one more of each kind.
proof fn lemma_slots_taken(ctxs: Seq<Ctx>, i: int)
    requires
        0 <= i < ctxs.len(),
    ensures
        fill_slots(ctxs.take(i + 1)) == fill_slots(ctxs.take(i)).insert(
            ctxs[i].fill.spec_handle().slot(),
        ),
        comp_slots(ctxs.take(i + 1)) == comp_slots(ctxs.take(i)).insert(
            ctxs[i].comp.spec_handle().slot(),
        ),
{
    let some = ctxs.take(i);
    let more = ctxs.take(i + 1);
    assert(more[i] == ctxs[i]);
    assert forall|r: usize| fill_slots(more).contains(r) <==> fill_slots(some).insert(
        ctxs[i].fill.spec_handle().slot(),
    ).contains(r) by {
        if fill_slots(some).contains(r) {
            let j = choose|j: int|
                0 <= j < some.len() && #[trigger] some[j].fill.spec_handle().slot() == r;
            assert(more[j] == some[j]);
        }
        if fill_slots(more).contains(r) && r != ctxs[i].fill.spec_handle().slot() {
            let j = choose|j: int|
                0 <= j < more.len() && #[trigger] more[j].fill.spec_handle().slot() == r;
            assert(more[j] == some[j]);
        }
    }
    assert(fill_slots(more) =~= fill_slots(some).insert(ctxs[i].fill.spec_handle().slot()));
    assert forall|r: usize| comp_slots(more).contains(r) <==> comp_slots(some).insert(
        ctxs[i].comp.spec_handle().slot(),
    ).contains(r) by {
        if comp_slots(some).contains(r) {
            let j = choose|j: int|
                0 <= j < some.len() && #[trigger] some[j].comp.spec_handle().slot() == r;
            assert(more[j] == some[j]);
        }
        if comp_slots(more).contains(r) && r != ctxs[i].comp.spec_handle().slot() {
            let j = choose|j: int|
                0 <= j < more.len() && #[trigger] more[j].comp.spec_handle().slot() == r;
            assert(more[j] == some[j]);
        }
    }
    assert(comp_slots(more) =~= comp_slots(some).insert(ctxs[i].comp.spec_handle().slot()));
}

/// The fill and comp rings of a UMEM are in nobody else's use.
proof fn lemma_ctx_users(
    m: Model,
    cons_users: Map<usize, User>,
    prod_users: Map<usize, User>,
    u: usize,
)
    requires
        m.inv(cons_users, prod_users),
        m.umems.contains_key(u),
    ensures
        forall|r: usize| #[trigger]
            comp_slots(m.umems[u].value.ctxs).contains(r) ==> (cons_users[r] matches User::Ctx(v, _)
                && v == u),
        forall|r: usize| #[trigger]
            fill_slots(m.umems[u].value.ctxs).contains(r) ==> (prod_users[r] matches User::Ctx(v, _)
                && v == u),
{
    let all = m.umems[u].value.ctxs;
    assert forall|r: usize| #[trigger] comp_slots(all).contains(r) implies (
    cons_users[r] matches User::Ctx(v, _) && v == u) by {
        let j = choose|j: int|
            0 <= j < all.len() && #[trigger] all[j].comp.spec_handle().slot() == r;
        assert(m.umems[u].value.ctxs[j] == all[j]);
        assert(m.ctx_ok(cons_users, prod_users, u, j));
    }
    assert forall|r: usize| #[trigger] fill_slots(all).contains(r) implies (
    prod_users[r] matches User::Ctx(v, _) && v == u) by {
        let j = choose|j: int|
            0 <= j < all.len() && #[trigger] all[j].fill.spec_handle().slot() == r;
        assert(m.umems[u].value.ctxs[j] == all[j]);
        assert(m.ctx_ok(cons_users, prod_users, u, j));
    }
}

/// The invariant outlives a socket that nothing keeps alive, provided
/// that its rings go with it.
proof fn lemma_socket_removed(
    m: Model,
    n: Model,
    cons_users: Map<usize, User>,
    prod_users: Map<usize, User>,
    s: usize,
)
    requires
        m.inv(cons_users, prod_users),
        m.sockets.contains_key(s),
        m.sockets[s].holders == Set::<nat>::empty(),
        n.sockets == m.sockets.remove(s),
        n.cons == m.cons.remove(m.sockets[s].value.rx_ring.spec_handle().slot()),
        n.prod == m.prod.remove(m.sockets[s].value.tx_ring.spec_handle().slot()),
        n.umems == m.umems,
    ensures
        n.inv(
            cons_users.remove(m.sockets[s].value.rx_ring.spec_handle().slot()),
            prod_users.remove(m.sockets[s].value.tx_ring.spec_handle().slot()),
        ),
        m.sockets[s].value.umem.valid(n),
{
    let rx = m.sockets[s].value.rx_ring.spec_handle().slot();
    let tx = m.sockets[s].value.tx_ring.spec_handle().slot();
    let cu = cons_users.remove(rx);
    let pu = prod_users.remove(tx);
    assert(m.socket_ok(cons_users, prod_users, s));
    assert(cu.dom() =~= n.cons.dom());
    assert(pu.dom() =~= n.prod.dom());
    assert forall|r: usize| #[trigger] cu.contains_key(r) implies n.cons_user_ok(r, cu[r]) by {
        assert(cons_users.contains_key(r));
    }
    assert forall|r: usize| #[trigger] pu.contains_key(r) implies n.prod_user_ok(r, pu[r]) by {
        assert(prod_users.contains_key(r));
    }
    assert forall|t: usize| #[trigger] n.sockets.contains_key(t) implies n.socket_ok(cu, pu, t) by {
        assert(m.socket_ok(cons_users, prod_users, t));
    }
    assert forall|u: usize| #[trigger] n.umems.contains_key(u) implies n.saved_ok(cu, pu, u) by {
        assert(m.saved_ok(cons_users, prod_users, u));
    }
    assert forall|u: usize, j: int|
        #![trigger n.umems[u].value.ctxs[j]]
        n.umems.contains_key(u) && 0 <= j < n.umems[u].value.ctxs.len() implies n.ctx_ok(
        cu,
        pu,
        u,
        j,
    ) by {
        assert(m.ctx_ok(cons_users, prod_users, u, j));
    }
}

/// The invariant does not mind one handle more on a socket, as long as
/// it is not that of a queue.
proof fn lemma_holder_added(
    m: Model,
    n: Model,
    cons_users: Map<usize, User>,
    prod_users: Map<usize, User>,
    s: usize,
    t: nat,
)
    requires
        m.inv(cons_users, prod_users),
        m.sockets.contains_key(s),
        !m.sockets[s].value.queues@.has(t),
        n == (Model { sockets: m.sockets.insert(s, m.sockets[s].held_by(t)), ..m }),
    ensures
        n.inv(cons_users, prod_users),
{
    assert forall|k: usize| #[trigger] n.sockets.contains_key(k) implies n.socket_ok(
        cons_users,
        prod_users,
        k,
    ) by {
        assert(m.socket_ok(cons_users, prod_users, k));
    }
    assert forall|u: usize| #[trigger] n.umems.contains_key(u) implies n.saved_ok(
        cons_users,
        prod_users,
        u,
    ) by {
        assert(m.saved_ok(cons_users, prod_users, u));
    }
    assert forall|u: usize, j: int|
        #![trigger n.umems[u].value.ctxs[j]]
        n.umems.contains_key(u) && 0 <= j < n.umems[u].value.ctxs.len() implies n.ctx_ok(
        cons_users,
        prod_users,
        u,
        j,
    ) by {
        assert(m.ctx_ok(cons_users, prod_users, u, j));
    }
}

/// Whether the consumer ring in slot `r` is the one that the queue with
/// the handle `t` on the socket in slot `s` accesses.
spec fn accesses_cons(m: Model, s: usize, t: nat, r: usize) -> bool {
    let inner = m.sockets[s].value;
    let ctxs = m.umems[inner.umem.spec_handle().slot()].value.ctxs;
    ||| t == inner.queues@.rx && r == inner.rx_ring.spec_handle().slot()
    ||| inner.queues@.ctx matches Some(c) && t == c.comp
        && r == ctxs[c.index].comp.spec_handle().slot()
}

/// Whether the producer ring in slot `r` is the one that the queue with
/// the handle `t` on the socket in slot `s` accesses.
spec fn accesses_prod(m: Model, s: usize, t: nat, r: usize) -> bool {
    let inner = m.sockets[s].value;
    let ctxs = m.umems[inner.umem.spec_handle().slot()].value.ctxs;
    ||| t == inner.queues@.tx && r == inner.tx_ring.spec_handle().slot()
    ||| inner.queues@.ctx matches Some(c) && t == c.fill
        && r == ctxs[c.index].fill.spec_handle().slot()
}

/// The invariant does not mind one handle fewer on a socket, provided
/// that a queue gives up its ring as well.
proof fn lemma_holder_removed(
    m: Model,
    n: Model,
    cons_users: Map<usize, User>,
    prod_users: Map<usize, User>,
    s: usize,
    t: nat,
)
    requires
        m.inv(cons_users, prod_users),
        m.sockets.contains_key(s),
        n.sockets == m.sockets.insert(s, m.sockets[s].released_by(t)),
        n.umems == m.umems,
        n.cons.dom() == m.cons.dom(),
        n.prod.dom() == m.prod.dom(),
        forall|r: usize| #[trigger]
            m.cons.contains_key(r) ==> n.cons[r] == (if accesses_cons(m, s, t, r) {
                m.cons[r].released_by(m.cons[r].value.owner@)
            } else {
                m.cons[r]
            }),
        forall|r: usize| #[trigger]
            m.prod.contains_key(r) ==> n.prod[r] == (if accesses_prod(m, s, t, r) {
                m.prod[r].released_by(m.prod[r].value.owner@)
            } else {
                m.prod[r]
            }),
    ensures
        n.inv(cons_users, prod_users),
{
    assert(m.socket_ok(cons_users, prod_users, s));
    let v = m.sockets[s].value.umem.spec_handle().slot();
    if let Some(c) = m.sockets[s].value.queues@.ctx {
        assert(m.umems[v].value.ctxs[c.index] == n.umems[v].value.ctxs[c.index]);
        assert(m.ctx_ok(cons_users, prod_users, v, c.index));
    }
    assert forall|k: usize| #[trigger] n.sockets.contains_key(k) implies n.socket_ok(
        cons_users,
        prod_users,
        k,
    ) by {
        assert(m.socket_ok(cons_users, prod_users, k));
        let rx = m.sockets[k].value.rx_ring.spec_handle();
        let tx = m.sockets[k].value.tx_ring.spec_handle();
        assert(m.cons.contains_key(rx.slot()));
        assert(m.prod.contains_key(tx.slot()));
        assert(n.cons[rx.slot()].holders =~= ring_holders(
            rx.ticket(),
            n.cons[rx.slot()].value.owner@,
            n.sockets[k].holders.contains(n.sockets[k].value.queues@.rx),
        ));
        assert(n.prod[tx.slot()].holders =~= ring_holders(
            tx.ticket(),
            n.prod[tx.slot()].value.owner@,
            n.sockets[k].holders.contains(n.sockets[k].value.queues@.tx),
        ));
    }
    assert forall|u: usize| #[trigger] n.umems.contains_key(u) implies n.saved_ok(
        cons_users,
        prod_users,
        u,
    ) by {
        assert(m.saved_ok(cons_users, prod_users, u));
    }
    assert forall|u: usize, j: int|
        #![trigger n.umems[u].value.ctxs[j]]
        n.umems.contains_key(u) && 0 <= j < n.umems[u].value.ctxs.len() implies n.ctx_ok(
        cons_users,
        prod_users,
        u,
        j,
    ) by {
        assert(m.ctx_ok(cons_users, prod_users, u, j));
        let comp = m.umems[u].value.ctxs[j].comp.spec_handle();
        let fill = m.umems[u].value.ctxs[j].fill.spec_handle();
        assert(m.cons.contains_key(comp.slot()));
        assert(m.prod.contains_key(fill.slot()));
        assert(n.cons[comp.slot()].holders =~= ring_holders(
            comp.ticket(),
            n.cons[comp.slot()].value.owner@,
            n.comp_accessed(u, j),
        ));
        assert(n.prod[fill.slot()].holders =~= ring_holders(
            fill.ticket(),
            n.prod[fill.slot()].value.owner@,
            n.fill_accessed(u, j),
        ));
    }
}

/// The invariant grows with a socket, with a pair of rings that a UMEM
/// keeps alive, or with both, provided that their rings come with them.
proof fn lemma_added(
    m: Model,
    n: Model,
    cons_users: Map<usize, User>,
    prod_users: Map<usize, User>,
    new_cons_users: Map<usize, User>,
    new_prod_users: Map<usize, User>,
    u: usize,
    socket: Option<usize>,
    has_ctx: bool,
)
    requires
        m.inv(cons_users, prod_users),
        m.umems.contains_key(u),
        n.umems == m.umems.insert(u, n.umems[u]),
        m.umems[u].holders.subset_of(n.umems[u].holders),
        n.umems[u].value.saved == m.umems[u].value.saved,
        if has_ctx {
            n.umems[u].value.ctxs == m.umems[u].value.ctxs.push(n.umems[u].value.ctxs.last())
        } else {
            n.umems[u].value.ctxs == m.umems[u].value.ctxs
        },
        match socket {
            Some(k) => {
                let h = n.sockets[k].value.umem.spec_handle();
                let queues = n.sockets[k].value.queues@;
                &&& n.sockets[k].value.ptr != 0
                &&& m.umems[u].value.saved is None
                &&& !m.sockets.contains_key(k)
                &&& n.sockets == m.sockets.insert(k, n.sockets[k])
                &&& queues.distinct()
                &&& h.slot() == u
                &&& n.umems[u].holders.contains(h.ticket())
                &&& !m.umems[u].holders.contains(h.ticket())
                &&& queues.ctx matches Some(c) ==> {
                    &&& has_ctx
                    &&& c.index == m.umems[u].value.ctxs.len()
                    &&& n.umems[u].value.ctxs.last().socket@ == Some(k)
                }
                &&& Model::ring_ok(
                    n.cons,
                    new_cons_users,
                    n.sockets[k].value.rx_ring.spec_handle(),
                    User::Socket(k),
                    n.sockets[k].holders.contains(queues.rx),
                )
                &&& Model::ring_ok(
                    n.prod,
                    new_prod_users,
                    n.sockets[k].value.tx_ring.spec_handle(),
                    User::Socket(k),
                    n.sockets[k].holders.contains(queues.tx),
                )
            },
            None => n.sockets == m.sockets,
        },
        has_ctx ==> n.ctx_ok(
            new_cons_users,
            new_prod_users,
            u,
            m.umems[u].value.ctxs.len() as int,
        ),
        new_cons_users.dom() == n.cons.dom(),
        new_prod_users.dom() == n.prod.dom(),
        forall|r: usize| #[trigger]
            cons_users.contains_key(r) ==> new_cons_users.contains_key(r) && new_cons_users[r]
                == cons_users[r] && n.cons[r] == m.cons[r],
        forall|r: usize| #[trigger]
            prod_users.contains_key(r) ==> new_prod_users.contains_key(r) && new_prod_users[r]
                == prod_users[r] && n.prod[r] == m.prod[r],
        forall|r: usize| #[trigger]
            new_cons_users.contains_key(r) && !cons_users.contains_key(r) ==> n.cons_user_ok(
                r,
                new_cons_users[r],
            ),
        forall|r: usize| #[trigger]
            new_prod_users.contains_key(r) && !prod_users.contains_key(r) ==> n.prod_user_ok(
                r,
                new_prod_users[r],
            ),
    ensures
        n.inv(new_cons_users, new_prod_users),
{
    let last = m.umems[u].value.ctxs.len() as int;
    assert forall|r: usize| #[trigger] new_cons_users.contains_key(r) implies n.cons_user_ok(
        r,
        new_cons_users[r],
    ) by {
        if cons_users.contains_key(r) {
            assert(m.cons_user_ok(r, cons_users[r]));
        }
    }
    assert forall|r: usize| #[trigger] new_prod_users.contains_key(r) implies n.prod_user_ok(
        r,
        new_prod_users[r],
    ) by {
        if prod_users.contains_key(r) {
            assert(m.prod_user_ok(r, prod_users[r]));
        }
    }
    assert forall|s: usize| #[trigger] n.sockets.contains_key(s) implies n.socket_ok(
        new_cons_users,
        new_prod_users,
        s,
    ) by {
        if m.sockets.contains_key(s) {
            assert(m.socket_ok(cons_users, prod_users, s));
        }
    }
    assert forall|s: usize, t: usize|
        #![trigger n.sockets.contains_key(s), n.sockets.contains_key(t)]
        n.sockets.contains_key(s) && n.sockets.contains_key(t) && s
            != t implies n.sockets[s].value.umem.spec_handle()
        != n.sockets[t].value.umem.spec_handle() by {
        if m.sockets.contains_key(s) {
            assert(m.socket_ok(cons_users, prod_users, s));
        }
        if m.sockets.contains_key(t) {
            assert(m.socket_ok(cons_users, prod_users, t));
        }
    }
    assert forall|v: usize| #[trigger] n.umems.contains_key(v) implies n.saved_ok(
        new_cons_users,
        new_prod_users,
        v,
    ) by {
        assert(m.saved_ok(cons_users, prod_users, v));
    }
    assert forall|v: usize, j: int|
        #![trigger n.umems[v].value.ctxs[j]]
        n.umems.contains_key(v) && 0 <= j < n.umems[v].value.ctxs.len() implies n.ctx_ok(
        new_cons_users,
        new_prod_users,
        v,
        j,
    ) by {
        if v != u || j < last {
            assert(m.umems[v].value.ctxs[j] == n.umems[v].value.ctxs[j]);
            assert(m.ctx_ok(cons_users, prod_users, v, j));
        }
    }
}

/// The invariant does not mind if a UMEM gives away the rings that it was
/// created with.
proof fn lemma_unsaved(
    m: Model,
    cons_users: Map<usize, User>,
    prod_users: Map<usize, User>,
    u: usize,
)
    requires
        m.inv(cons_users, prod_users),
        m.umems.contains_key(u),
        m.umems[u].value.saved is Some,
    ensures
        m.unsaved(u).inv(
            cons_users.remove(m.umems[u].value.saved->0.comp.spec_handle().slot()),
            prod_users.remove(m.umems[u].value.saved->0.fill.spec_handle().slot()),
        ),
{
    let n = m.unsaved(u);
    let cu = cons_users.remove(m.umems[u].value.saved->0.comp.spec_handle().slot());
    let pu = prod_users.remove(m.umems[u].value.saved->0.fill.spec_handle().slot());
    assert(m.saved_ok(cons_users, prod_users, u));
    assert(cu.dom() =~= n.cons.dom());
    assert(pu.dom() =~= n.prod.dom());
    assert forall|r: usize| #[trigger] cu.contains_key(r) implies n.cons_user_ok(r, cu[r]) by {
        assert(m.cons_user_ok(r, cons_users[r]));
    }
    assert forall|r: usize| #[trigger] pu.contains_key(r) implies n.prod_user_ok(r, pu[r]) by {
        assert(m.prod_user_ok(r, prod_users[r]));
    }
    assert forall|t: usize| #[trigger] n.sockets.contains_key(t) implies n.socket_ok(cu, pu, t) by {
        assert(m.socket_ok(cons_users, prod_users, t));
    }
    assert forall|v: usize| #[trigger] n.umems.contains_key(v) implies n.saved_ok(cu, pu, v) by {
        assert(m.saved_ok(cons_users, prod_users, v));
    }
    assert forall|v: usize, j: int|
        #![trigger n.umems[v].value.ctxs[j]]
        n.umems.contains_key(v) && 0 <= j < n.umems[v].value.ctxs.len() implies n.ctx_ok(
        cu,
        pu,
        v,
        j,
    ) by {
        assert(m.umems[v].value.ctxs[j] == n.umems[v].value.ctxs[j]);
        assert(m.ctx_ok(cons_users, prod_users, v, j));
    }
}

/// The invariant does not mind what the rings hold.
proof fn lemma_contents(
    m: Model,
    n: Model,
    cons_users: Map<usize, User>,
    prod_users: Map<usize, User>,
)
    requires
        m.inv(cons_users, prod_users),
        n.sockets == m.sockets,
        n.umems == m.umems,
        n.cons.dom() == m.cons.dom(),
        n.prod.dom() == m.prod.dom(),
        forall|r: usize| #[trigger]
            m.cons.contains_key(r) ==> n.cons[r].holders == m.cons[r].holders
                && n.cons[r].value.owner == m.cons[r].value.owner,
        forall|r: usize| #[trigger]
            m.prod.contains_key(r) ==> n.prod[r].holders == m.prod[r].holders
                && n.prod[r].value.owner == m.prod[r].value.owner,
    ensures
        n.inv(cons_users, prod_users),
{
    assert forall|r: usize| #[trigger] cons_users.contains_key(r) implies n.cons_user_ok(
        r,
        cons_users[r],
    ) by {
        assert(m.cons_user_ok(r, cons_users[r]));
    }
    assert forall|r: usize| #[trigger] prod_users.contains_key(r) implies n.prod_user_ok(
        r,
        prod_users[r],
    ) by {
        assert(m.prod_user_ok(r, prod_users[r]));
    }
    assert forall|t: usize| #[trigger] n.sockets.contains_key(t) implies n.socket_ok(
        cons_users,
        prod_users,
        t,
    ) by {
        assert(m.socket_ok(cons_users, prod_users, t));
    }
    assert forall|v: usize| #[trigger] n.umems.contains_key(v) implies n.saved_ok(
        cons_users,
        prod_users,
        v,
    ) by {
        assert(m.saved_ok(cons_users, prod_users, v));
    }
    assert forall|v: usize, j: int|
        #![trigger n.umems[v].value.ctxs[j]]
        n.umems.contains_key(v) && 0 <= j < n.umems[v].value.ctxs.len() implies n.ctx_ok(
        cons_users,
        prod_users,
        v,
        j,
    ) by {
        assert(m.ctx_ok(cons_users, prod_users, v, j));
    }
}

/// Rings keep their addresses when others go.
proof fn lemma_fewer_rings(m: Model, n: Model)
    requires
        m.distinct_rings(),
        forall|r: usize| #[trigger]
            n.cons.contains_key(r) ==> m.cons.contains_key(r) && n.cons[r].value.mem
                == m.cons[r].value.mem,
        forall|r: usize| #[trigger]
            n.prod.contains_key(r) ==> m.prod.contains_key(r) && n.prod[r].value.mem
                == m.prod[r].value.mem,
    ensures
        n.distinct_rings(),
{
}

/// Rings keep their addresses to themselves when others come, up to two of
/// each kind, provided that these are in memory of their own.
proof fn lemma_more_rings(
    m: Model,
    n: Model,
    rx: usize,
    comp: usize,
    tx: usize,
    fill: usize,
    rx_mem: usize,
    comp_mem: usize,
    tx_mem: usize,
    fill_mem: usize,
)
    requires
        m.distinct_rings(),
        m.unoccupied(rx_mem),
        m.unoccupied(comp_mem),
        m.unoccupied(tx_mem),
        m.unoccupied(fill_mem),
        rx_mem != comp_mem,
        rx_mem != tx_mem,
        rx_mem != fill_mem,
        comp_mem != tx_mem,
        comp_mem != fill_mem,
        tx_mem != fill_mem,
        forall|r: usize| #[trigger]
            n.cons.contains_key(r) ==> {
                ||| m.cons.contains_key(r) && n.cons[r].value.mem == m.cons[r].value.mem
                ||| r == rx && n.cons[r].value.mem == rx_mem
                ||| r == comp && n.cons[r].value.mem == comp_mem
            },
        forall|r: usize| #[trigger]
            n.prod.contains_key(r) ==> {
                ||| m.prod.contains_key(r) && n.prod[r].value.mem == m.prod[r].value.mem
                ||| r == tx && n.prod[r].value.mem == tx_mem
                ||| r == fill && n.prod[r].value.mem == fill_mem
            },
    ensures
        n.distinct_rings(),
{
}

/// Rings are spared if what has become due frees memory where there is
/// none, and none that is to be freed already, each once, and if no ring is
/// where memory is to be freed already.
proof fn lemma_spares_rings(m: Model, n: Model, new: Seq<Action>)
    requires
        m.spares_rings(),
        n.actions == m.actions + new,
        forall|i: int|
            0 <= i < new.len() ==> ((#[trigger] new[i]).freed() matches Some(mem) ==> n.unoccupied(
                mem,
            ) && !m.pending(mem)),
        forall|i: int, j: int|
            0 <= i < j < new.len() && (#[trigger] new[i]).freed() is Some ==> new[i].freed() != (
            #[trigger] new[j]).freed(),
        forall|r: usize| #[trigger] n.cons.contains_key(r) ==> !m.pending(n.cons[r].value.mem),
        forall|r: usize| #[trigger] n.prod.contains_key(r) ==> !m.pending(n.prod[r].value.mem),
    ensures
        n.spares_rings(),
{
    let k = m.actions.len() as int;
    assert forall|i: int| 0 <= i < n.actions.len() implies (
    (#[trigger] n.actions[i]).freed() matches Some(mem) ==> n.unoccupied(mem)) by {
        if i < k {
            assert(n.actions[i] == m.actions[i]);
        } else {
            assert(n.actions[i] == new[i - k]);
        }
    }
    assert forall|i: int, j: int|
        0 <= i < j < n.actions.len() && (
        #[trigger] n.actions[i]).freed() is Some implies n.actions[i].freed() != (
    #[trigger] n.actions[j]).freed() by {
        if j < k {
            assert(n.actions[i] == m.actions[i] && n.actions[j] == m.actions[j]);
        } else if i < k {
            assert(n.actions[i] == m.actions[i] && n.actions[j] == new[j - k]);
        } else {
            assert(n.actions[i] == new[i - k] && n.actions[j] == new[j - k]);
        }
    }
}

/// The sockets, UMEMs and rings that are alive.
pub struct Heap {
    cons: RingTable,
    prod: RingTable,
    sockets: RefTable<SocketInner>,
    umems: RefTable<UmemInner>,
    actions: Vec<Action>,
    cons_users: Ghost<Map<usize, User>>,
    prod_users: Ghost<Map<usize, User>>,
}

/// The same UMEMs, each by what it holds.
pub open spec fn umem_models(umems: Map<usize, Shared<UmemInner>>) -> Map<
    usize,
    Shared<UmemModel>,
> {
    Map::new(
        |u: usize| umems.contains_key(u),
        |u: usize| Shared { value: umems[u].value@, holders: umems[u].holders },
    )
}

impl View for Heap {
    type V = Model;

    closed spec fn view(&self) -> Model {
        Model {
            cons: self.cons@,
            prod: self.prod@,
            sockets: self.sockets@,
            umems: umem_models(self.umems@),
            actions: self.actions@,
        }
    }
}

impl Heap {
    spec fn tables_wf(&self) -> bool {
        &&& self.cons.wf()
        &&& self.prod.wf()
        &&& self.sockets.wf()
        &&& self.umems.wf()
    }

    /// The tickets of queues have been handed out.
    spec fn roles_wf(&self) -> bool {
        forall|s: usize, t: nat| #[trigger]
            self.sockets@.contains_key(s) && #[trigger] self.sockets@[s].value.queues@.has(t)
                ==> t < self.sockets.next()
    }

    /// The same of the queues of all sockets but the one in slot `but`.
    spec fn roles_wf_but(&self, but: usize) -> bool {
        forall|s: usize, t: nat|
            s != but && #[trigger] self.sockets@.contains_key(s)
                && #[trigger] self.sockets@[s].value.queues@.has(t) ==> t < self.sockets.next()
    }

    /// What is alive if `inner` is in slot `s`, kept alive by `holders`.
    spec fn with_socket(&self, s: usize, inner: SocketInner, holders: Set<nat>) -> Model {
        Model { sockets: self@.sockets.insert(s, Shared { value: inner, holders }), ..self@ }
    }

    /// What every operation on the heap relies on and preserves.
    pub closed spec fn wf(&self) -> bool {
        &&& self.tables_wf()
        &&& self.roles_wf()
        &&& self@.distinct_rings()
        &&& self@.spares_rings()
        &&& self@.one_program()
        &&& self@.inv(self.cons_users@, self.prod_users@)
    }

    /// Whatever is alive is kept so by a number of handles that is finite
    /// and not zero.
    pub proof fn lemma_holders(&self)
        requires
            self.wf(),
        ensures
            forall|s: usize| #[trigger]
                self@.sockets.contains_key(s) ==> self@.sockets[s].holders.finite()
                    && self@.sockets[s].holders.len() > 0,
            forall|u: usize| #[trigger]
                self@.umems.contains_key(u) ==> self@.umems[u].holders.finite()
                    && self@.umems[u].holders.len() > 0,
            forall|r: usize| #[trigger]
                self@.cons.contains_key(r) ==> self@.cons[r].holders.finite()
                    && self@.cons[r].holders.len() > 0,
            forall|r: usize| #[trigger]
                self@.prod.contains_key(r) ==> self@.prod[r].holders.finite()
                    && self@.prod[r].holders.len() > 0,
    {
        broadcast use RefTable::lemma_wf;

        assert forall|u: usize| #[trigger]
            self@.umems.contains_key(u) implies self@.umems[u].holders.finite()
            && self@.umems[u].holders.len() > 0 by {
            assert(self.umems@.contains_key(u));
        }
    }

    /// A heap on which nothing is alive.
    pub fn new() -> (heap: Heap)
        ensures
            heap.wf(),
            heap@ == (Model {
                cons: Map::empty(),
                prod: Map::empty(),
                sockets: Map::empty(),
                umems: Map::empty(),
                actions: Seq::empty(),
            }),
    {
        let heap = Heap {
            cons: RefTable::new(),
            prod: RefTable::new(),
            sockets: RefTable::new(),
            umems: RefTable::new(),
            actions: Vec::new(),
            cons_users: Ghost(Map::empty()),
            prod_users: Ghost(Map::empty()),
        };
        assert(heap@.umems =~= Map::empty());
        heap
    }

    /// Gives up the wrapper of a consumer ring, which is to be freed if
    /// nothing else keeps it alive.
    fn drop_cons(&mut self, ring: XskRingCons)
        requires
            old(self).tables_wf(),
            ring.owns(old(self)@.cons),
        ensures
            final(self).tables_wf(),
            final(self)@ == if old(self)@.cons[ring.spec_handle().slot()].last_holder(
                ring.spec_handle().ticket(),
            ) {
                Model {
                    cons: old(self)@.cons.remove(ring.spec_handle().slot()),
                    actions: old(self)@.actions.push(
                        Action::FreeCons(ring.cell(old(self)@.cons).mem),
                    ),
                    ..old(self)@
                }
            } else {
                old(self)@.release_cons(ring.spec_handle())
            },
            final(self).cons_users == old(self).cons_users,
            final(self).prod_users == old(self).prod_users,
            final(self).cons.next() == old(self).cons.next(),
            final(self).prod == old(self).prod,
            final(self).sockets == old(self).sockets,
            final(self).umems == old(self).umems,
    {
        if let Some(mem) = ring.drop(&mut self.cons) {
            self.actions.push(Action::FreeCons(mem));
        }
    }

    /// Gives up the wrapper of a producer ring, which is to be freed if
    /// nothing else keeps it alive.
    fn drop_prod(&mut self, ring: XskRingProd)
        requires
            old(self).tables_wf(),
            ring.owns(old(self)@.prod),
        ensures
            final(self).tables_wf(),
            final(self)@ == if old(self)@.prod[ring.spec_handle().slot()].last_holder(
                ring.spec_handle().ticket(),
            ) {
                Model {
                    prod: old(self)@.prod.remove(ring.spec_handle().slot()),
                    actions: old(self)@.actions.push(
                        Action::FreeProd(ring.cell(old(self)@.prod).mem),
                    ),
                    ..old(self)@
                }
            } else {
                old(self)@.release_prod(ring.spec_handle())
            },
            final(self).cons_users == old(self).cons_users,
            final(self).prod_users == old(self).prod_users,
            final(self).prod.next() == old(self).prod.next(),
            final(self).cons == old(self).cons,
            final(self).sockets == old(self).sockets,
            final(self).umems == old(self).umems,
    {
        if let Some(mem) = ring.drop(&mut self.prod) {
            self.actions.push(Action::FreeProd(mem));
        }
    }

    /// Takes the actions that are due, in the order in which they are to
    /// be carried out.
    pub fn take_actions(&mut self) -> (actions: Vec<Action>)
        requires
            old(self).wf(),
        ensures
            final(self).wf(),
            actions@ == old(self)@.actions,
            final(self)@ == (Model { actions: Seq::empty(), ..old(self)@ }),
    {
        let mut actions = Vec::new();
        std::mem::swap(&mut actions, &mut self.actions);
        actions
    }
}

} // verus!

//! Creating, sharing and deleting AF_XDP sockets.

use crate::ring::{XskRing, XskRingCons, XskRingConsHandle, XskRingProd, XskRingProdHandle};
use crate::table::{Handle, RefTable, Shared};
use crate::xsk::queue::{CompQueue, FillQueue, RxQueue, TxQueue};
use crate::xsk::umem::Umem;
use crate::xsk::{Action, CtxQueues, Device, Heap, Model, Queues, RingPair, SocketInner, User};
use vstd::prelude::*;

verus! {

impl SocketInner {
    /// Only one instance of this struct may exist for `ptr` since the
    /// socket is deleted when it goes. `umem` must be on the UMEM that
    /// the socket was created from, and the two rings the ones it was
    /// created with.
    fn new(
        ptr: usize,
        rx_ring: XskRingConsHandle,
        tx_ring: XskRingProdHandle,
        umem: Umem,
        device: Ghost<Device>,
        config: Ghost<SocketConfig>,
        queues: Ghost<Queues>,
    ) -> (inner: SocketInner)
        requires
            ptr != 0,
        ensures
            inner == (SocketInner { ptr, rx_ring, tx_ring, umem, device, config, queues }),
            inner.ptr != 0,
    {
        SocketInner { ptr, rx_ring, tx_ring, umem, device, config, queues }
    }

    fn as_ptr(&self) -> (ptr: usize)
        requires
            self.ptr != 0,
        ensures
            ptr == self.ptr,
            ptr != 0,
    {
        self.ptr
    }

    /// Deletes the socket, which was in slot `s`. Every ring that libxdp
    /// is about to dereference is alive until then.
    fn drop(self, heap: &mut Heap, Ghost(s): Ghost<usize>)
        requires
            old(heap).tables_wf(),
            old(heap).roles_wf(),
            !old(heap).sockets@.contains_key(s),
            old(heap).with_socket(s, self, Set::empty()).inv(
                old(heap).cons_users@,
                old(heap).prod_users@,
            ),
            old(heap)@.distinct_rings(),
            old(heap)@.spares_rings(),
            old(heap)@.one_program(),
        ensures
            final(heap).wf(),
            final(heap)@ == old(heap).with_socket(s, self, Set::empty()).delete_socket(s),
    {
        let ghost m = heap.with_socket(s, self, Set::empty());
        let ghost cu = heap.cons_users@;
        let ghost pu = heap.prod_users@;
        let ghost rx = self.rx_ring.spec_handle();
        let ghost tx = self.tx_ring.spec_handle();
        assert(m.sockets.contains_key(s));
        heap.actions.push(Action::DeleteSocket(self.as_ptr()));
        if let Some(mem) = self.rx_ring.drop(&mut heap.cons) {
            heap.actions.push(Action::FreeCons(mem));
        }
        if let Some(mem) = self.tx_ring.drop(&mut heap.prod) {
            heap.actions.push(Action::FreeProd(mem));
        }
        heap.cons_users = Ghost(cu.remove(rx.slot()));
        heap.prod_users = Ghost(pu.remove(tx.slot()));
        proof {
            let n = heap@;
            assert(n.sockets =~= m.sockets.remove(s));
            assert(n.cons =~= m.cons.remove(rx.slot()));
            assert(n.prod =~= m.prod.remove(tx.slot()));
            assert(n.actions =~= m.actions + seq![
                Action::DeleteSocket(self.ptr),
                Action::FreeCons(m.cons[rx.slot()].value.mem),
                Action::FreeProd(m.prod[tx.slot()].value.mem),
            ]);
            crate::xsk::lemma_socket_removed(m, n, cu, pu, s);
            crate::xsk::lemma_fewer_rings(m, n);
        }
        self.umem.drop(heap);
    }
}

/// An AF_XDP socket.
///
/// More details can be found in the
/// [docs](https://www.kernel.org/doc/html/latest/networking/af_xdp.html)
pub struct Socket {
    fd: i32,
    handle: Handle,
}

/// The flag that keeps libxdp from loading a program for the socket.
pub const XSK_LIBXDP_FLAGS_INHIBIT_PROG_LOAD: u32 = 1;

/// What a socket is to be created with.
#[derive(Clone, Copy, Debug, PartialEq, Eq, Structural)]
pub struct SocketConfig {
    pub rx_size: u32,
    pub tx_size: u32,
    pub libxdp_flags: u32,
    pub xdp_flags: u32,
    pub bind_flags: u16,
}

impl SocketConfig {
    /// Whether [`XSK_LIBXDP_FLAGS_INHIBIT_PROG_LOAD`] is set.
    pub open spec fn inhibits_prog_load(self) -> bool {
        self.libxdp_flags & XSK_LIBXDP_FLAGS_INHIBIT_PROG_LOAD != 0
    }
}

/// The addresses of the memory that has been set aside for the rings of
/// a socket.
#[derive(Clone, Copy, Debug)]
pub struct RingMemory {
    pub rx: usize,
    pub tx: usize,
    /// None if the UMEM still has the rings that it was created with.
    pub ctx: Option<CtxMemory>,
}

/// The addresses of the memory that has been set aside for a fill ring and
/// a completion ring.
#[derive(Clone, Copy, Debug)]
pub struct CtxMemory {
    pub fill: usize,
    pub comp: usize,
}

impl RingMemory {
    /// Whether this is vacant memory for each new ring of a socket that
    /// shares the UMEM in slot `u`.
    pub open spec fn fits(self, m: Model, u: usize) -> bool {
        &&& m.vacant(self.rx)
        &&& m.vacant(self.tx)
        &&& self.rx != self.tx
        &&& (self.ctx is None) == (m.umems[u].value.saved is Some)
        &&& self.ctx matches Some(ctx) ==> {
            &&& m.vacant(ctx.fill)
            &&& m.vacant(ctx.comp)
            &&& ctx.fill != ctx.comp
            &&& ctx.fill != self.rx
            &&& ctx.fill != self.tx
            &&& ctx.comp != self.rx
            &&& ctx.comp != self.tx
        }
    }
}

/// A ring to hand to libxdp: where it is, and what it holds.
#[derive(Clone, Copy, Debug)]
pub struct RingArg {
    pub mem: usize,
    pub ring: XskRing,
}

/// What `xsk_socket__create_shared` is to be called with.
#[derive(Debug)]
pub struct CreateRequest {
    pub if_name: Vec<u8>,
    pub queue_id: u32,
    /// The address of the UMEM.
    pub umem: usize,
    pub rx: RingArg,
    pub tx: RingArg,
    pub fill: RingArg,
    pub comp: RingArg,
    pub config: SocketConfig,
    /// Whether the fill and comp rings are those that the UMEM was created
    /// with.
    pub saved: bool,
}

impl CreateRequest {
    /// What the socket is to be bound to.
    pub open spec fn device(&self) -> Device {
        Device { if_name: self.if_name@, queue_id: self.queue_id }
    }

    /// Whether this asks for a socket that shares the UMEM in slot `u`,
    /// with new rings for receiving and transmitting and either those
    /// that the UMEM was created with or new ones for filling and
    /// completion.
    pub open spec fn fits(&self, m: Model, u: usize) -> bool {
        &&& self.umem == m.umems[u].value.ptr
        &&& self.rx.ring == XskRing::zeroed()
        &&& self.tx.ring == XskRing::zeroed()
        &&& self.mem().fits(m, u)
        &&& self.saved == (m.umems[u].value.saved is Some)
        &&& match m.umems[u].value.saved {
            Some(rings) => {
                &&& self.fill.mem == rings.fill.cell(m.prod).mem
                &&& self.fill.ring == rings.fill.cell(m.prod).ring
                &&& self.comp.mem == rings.comp.cell(m.cons).mem
                &&& self.comp.ring == rings.comp.cell(m.cons).ring
            },
            None => {
                &&& self.fill.ring == XskRing::zeroed()
                &&& self.comp.ring == XskRing::zeroed()
            },
        }
        &&& m.bound(u, self.device()) ==> self.config.inhibits_prog_load()
    }

    /// The memory of the new rings.
    pub open spec fn mem(&self) -> RingMemory {
        RingMemory {
            rx: self.rx.mem,
            tx: self.tx.mem,
            ctx: if self.saved {
                None
            } else {
                Some(CtxMemory { fill: self.fill.mem, comp: self.comp.mem })
            },
        }
    }

    /// Whether this asks for a socket with the given config, bound to the
    /// given queue of an interface, with new rings in the given memory.
    pub open spec fn asks(
        &self,
        config: SocketConfig,
        if_name: Seq<u8>,
        queue_id: u32,
        mem: RingMemory,
    ) -> bool {
        &&& self.config == config
        &&& self.if_name@ == if_name
        &&& self.queue_id == queue_id
        &&& self.mem() == mem
    }
}

/// What has come of the call of `xsk_socket__create_shared`.
#[derive(Clone, Copy, Debug)]
pub struct CreateReply {
    /// What the call returned.
    pub err: i32,
    /// The address of the socket, or zero.
    pub socket: usize,
    /// What the rings hold now.
    pub rx: XskRing,
    pub tx: XskRing,
    pub fill: XskRing,
    pub comp: XskRing,
}

/// The error code of the operating system that libxdp has returned
/// negated. The least number has no negation and stands for itself.
pub open spec fn os_code(err: i32) -> i32 {
    if err == i32::MIN {
        err
    } else {
        (-err) as i32
    }
}

impl CreateReply {
    /// Whether there is a socket, which can be asked for its file
    /// descriptor and has to be deleted.
    pub open spec fn has_socket(&self) -> bool {
        self.err == 0 && self.socket != 0
    }

    /// Why no socket can be made of this reply and the file descriptor
    /// `fd`: the reason and the error code of the operating system, if
    /// there is one.
    pub open spec fn failure(&self, fd: Option<i32>) -> Option<(Seq<char>, Option<i32>)> {
        if self.err != 0 {
            Some(
                (
                    "non-zero error code returned when creating AF_XDP socket"@,
                    Some(os_code(self.err)),
                ),
            )
        } else if self.socket == 0 {
            Some(("returned socket pointer was null"@, None))
        } else if fd->0 < 0 {
            Some(("failed to retrieve AF_XDP socket file descriptor"@, None))
        } else if self.tx.ring == 0 {
            Some(("returned tx queue ring is null"@, None))
        } else if self.rx.ring == 0 {
            Some(("returned rx queue ring is null"@, None))
        } else if (self.fill.ring == 0) != (self.comp.ring == 0) {
            Some(
                (
                    "fill queue xor comp queue ring is null, either both or neither should be non-null"@,
                    None,
                ),
            )
        } else {
            None
        }
    }

    /// Whether libxdp has left the fill and comp rings alone, which it
    /// does when the device queue has rings already.
    pub open spec fn existing(&self) -> bool {
        self.fill.ring == 0 && self.comp.ring == 0
    }

    /// Whether libxdp has kept the pointers to the fill and comp rings.
    pub open spec fn keeps_ctx(&self) -> bool {
        self.err == 0 && !self.existing()
    }

    /// Whether the UMEM gets back the rings that it was created with.
    pub open spec fn returns_rings(&self, request: CreateRequest) -> bool {
        self.err != 0 && request.saved
    }

    /// What is to be done about the fill and comp rings at once.
    pub open spec fn ctx_actions(&self, request: CreateRequest) -> Seq<Action> {
        if self.keeps_ctx() || self.returns_rings(request) {
            seq![]
        } else {
            seq![Action::FreeProd(request.fill.mem), Action::FreeCons(request.comp.mem)]
        }
    }

    /// What is to be done when no socket can be made of this reply. If
    /// there is one all the same, it is deleted before its rings go.
    pub open spec fn failure_actions(&self, request: CreateRequest) -> Seq<Action> {
        let deletion = if self.has_socket() {
            seq![Action::DeleteSocket(self.socket)]
        } else {
            seq![]
        };
        self.ctx_actions(request) + deletion + seq![
            Action::FreeCons(request.rx.mem),
            Action::FreeProd(request.tx.mem),
        ]
    }
}

/// Whether a UMEM has taken charge of a pair of rings that libxdp has
/// kept pointers to, and of nothing else.
pub open spec fn ctx_kept(m: Model, n: Model, u: usize) -> bool {
    &&& n.umems == m.umems.insert(u, n.umems[u])
    &&& n.umems[u].value.ptr == m.umems[u].value.ptr
    &&& n.umems[u].value.saved == m.umems[u].value.saved
    &&& n.umems[u].value.ctxs == m.umems[u].value.ctxs.push(n.umems[u].value.ctxs.last())
}

/// What is alive after a socket could not be created: what was alive
/// before, and those fill and comp rings that libxdp has pointers to.
pub open spec fn failed(
    m: Model,
    n: Model,
    u: usize,
    request: CreateRequest,
    reply: CreateReply,
) -> bool {
    let base = m.unsaved(u);
    &&& n.sockets == m.sockets
    &&& n.actions == m.actions + reply.failure_actions(request)
    &&& if reply.keeps_ctx() {
        let ctx = n.umems[u].value.ctxs.last();
        &&& ctx_kept(base, n, u)
        &&& n.umems[u].holders == m.umems[u].holders
        &&& crate::xsk::ring_added(
            base.cons,
            n.cons,
            ctx.comp.spec_handle(),
            request.comp.mem,
            reply.comp,
            false,
        )
        &&& crate::xsk::ring_added(
            base.prod,
            n.prod,
            ctx.fill.spec_handle(),
            request.fill.mem,
            reply.fill,
            false,
        )
    } else if reply.returns_rings(request) {
        let rings = m.umems[u].value.saved->0;
        &&& n.cons == crate::ring::written(m.cons, rings.comp.spec_handle().slot(), reply.comp)
        &&& n.prod == crate::ring::written(m.prod, rings.fill.spec_handle().slot(), reply.fill)
        &&& n.umems == m.umems
    } else {
        &&& n.cons == base.cons
        &&& n.prod == base.prod
        &&& n.umems == base.umems
    }
}

/// What is alive after a socket has been created: what was alive before,
/// the socket with its rx and tx rings, and its fill and comp rings if
/// libxdp has set them up. The queues are all that keep the socket
/// alive.
pub open spec fn opened(
    before: Model,
    n: Model,
    u: usize,
    request: CreateRequest,
    reply: CreateReply,
    fd: i32,
    tx_q: TxQueue,
    rx_q: RxQueue,
    ctx_q: Option<(FillQueue, CompQueue)>,
) -> bool {
    let m = before.unsaved(u);
    let tx = tx_q.spec_socket();
    let rx = rx_q.spec_socket();
    let s = tx.spec_handle().slot();
    let inner = n.sockets[s].value;
    let tx_ring = inner.tx_ring.spec_handle();
    let rx_ring = inner.rx_ring.spec_handle();
    &&& reply.err == 0
    &&& !m.sockets.contains_key(s)
    &&& n.sockets == m.sockets.insert(s, n.sockets[s])
    &&& inner.ptr == reply.socket
    &&& inner.ptr != 0
    &&& inner.device@ == request.device()
    &&& inner.config@ == request.config
    &&& inner.queues@.distinct()
    &&& inner.umem.spec_handle().slot() == u
    &&& !m.umems[u].holders.contains(inner.umem.spec_handle().ticket())
    &&& n.umems == m.umems.insert(u, n.umems[u])
    &&& n.umems[u].holders == m.umems[u].holders.insert(inner.umem.spec_handle().ticket())
    &&& tx_q.valid(n)
    &&& tx.spec_fd() == fd
    &&& rx_q.valid(n)
    &&& rx.spec_fd() == fd
    &&& rx.spec_handle().slot() == s
    &&& !m.prod.contains_key(tx_ring.slot())
    &&& crate::xsk::ring_is(n.prod, tx_ring, request.tx.mem, reply.tx, true)
    &&& !m.cons.contains_key(rx_ring.slot())
    &&& crate::xsk::ring_is(n.cons, rx_ring, request.rx.mem, reply.rx, true)
    &&& n.actions == m.actions + reply.ctx_actions(request)
    &&& match ctx_q {
        Some((fq, cq)) => {
            let ctx = n.umems[u].value.ctxs.last();
            let fill = ctx.fill.spec_handle();
            let comp = ctx.comp.spec_handle();
            &&& !reply.existing()
            &&& n.sockets[s].holders == set![
                tx.spec_handle().ticket(),
                rx.spec_handle().ticket(),
                fq.spec_socket().spec_handle().ticket(),
                cq.spec_socket().spec_handle().ticket(),
            ]
            &&& fq.valid(n)
            &&& fq.spec_socket().spec_fd() == fd
            &&& fq.spec_socket().spec_handle().slot() == s
            &&& fq.spec_ring().spec_handle().slot() == fill.slot()
            &&& cq.valid(n)
            &&& cq.spec_socket().spec_fd() == fd
            &&& cq.spec_socket().spec_handle().slot() == s
            &&& cq.spec_ring().spec_handle().slot() == comp.slot()
            &&& ctx_kept(m, n, u)
            &&& fill.slot() != tx_ring.slot()
            &&& comp.slot() != rx_ring.slot()
            &&& !m.prod.contains_key(fill.slot())
            &&& crate::xsk::ring_is(n.prod, fill, request.fill.mem, reply.fill, true)
            &&& !m.cons.contains_key(comp.slot())
            &&& crate::xsk::ring_is(n.cons, comp, request.comp.mem, reply.comp, true)
            &&& n.prod == m.prod.insert(tx_ring.slot(), n.prod[tx_ring.slot()]).insert(
                fill.slot(),
                n.prod[fill.slot()],
            )
            &&& n.cons == m.cons.insert(rx_ring.slot(), n.cons[rx_ring.slot()]).insert(
                comp.slot(),
                n.cons[comp.slot()],
            )
        },
        None => {
            &&& reply.existing()
            &&& n.sockets[s].holders == set![tx.spec_handle().ticket(), rx.spec_handle().ticket()]
            &&& n.umems[u].value == m.umems[u].value
            &&& n.prod == m.prod.insert(tx_ring.slot(), n.prod[tx_ring.slot()])
            &&& n.cons == m.cons.insert(rx_ring.slot(), n.cons[rx_ring.slot()])
        },
    }
}

/// What creating a socket returns.
pub type Created = Result<(TxQueue, RxQueue, Option<(FillQueue, CompQueue)>), SocketCreateError>;

/// What has come of a request for a socket, given what libxdp has replied
/// and the file descriptor of the socket, if there is one.
pub open spec fn outcome(
    m: Model,
    n: Model,
    u: usize,
    request: CreateRequest,
    reply: CreateReply,
    fd: Option<i32>,
    res: Created,
) -> bool {
    match res {
        Ok((tx_q, rx_q, ctx_q)) => {
            &&& reply.failure(fd) is None
            &&& opened(m, n, u, request, reply, fd->0, tx_q, rx_q, ctx_q)
        },
        Err(e) => {
            &&& reply.failure(fd) == Some(e.cause())
            &&& failed(m, n, u, request, reply)
        },
    }
}

impl Socket {
    pub closed spec fn spec_fd(&self) -> i32 {
        self.fd
    }

    pub closed spec fn spec_handle(&self) -> Handle {
        self.handle
    }

    /// Whether this is a handle on a socket, and not the one that a queue
    /// has.
    pub open spec fn valid(&self, m: Model) -> bool {
        &&& crate::table::holds(m.sockets, self.spec_handle())
        &&& !m.sockets[self.spec_handle().slot()].value.queues@.has(self.spec_handle().ticket())
    }

    /// Creates a new AF_XDP socket that shares `umem` and binds it to a
    /// queue of an interface.
    ///
    /// `create` calls `xsk_socket__create_shared` as requested. If that has
    /// made a socket, `fd_of` calls `xsk_socket__fd` on it. `mem` is memory
    /// that has been allocated for the rings.
    ///
    /// Whether the fill queue and the completion queue are returned depends
    /// on what libxdp has made of their rings: they are when the
    /// `(if_name, queue_id)` pair was not bound to from this [`Umem`], and
    /// otherwise those originally returned for the pair are to be used.
    ///
    /// Every queue returned here holds a handle to the socket, which is
    /// deleted once the last of them is dropped. That includes the
    /// [`FillQueue`] and [`CompQueue`], as libxdp unmaps their rings when
    /// the last socket created from this [`Umem`] and bound to this
    /// `(if_name, queue_id)` pair goes away, so dropping just the
    /// [`TxQueue`] and [`RxQueue`] will not release the device.
    ///
    /// If sharing the [`Umem`] and the `(if_name, queue_id)` pair is
    /// already bound to, then [`XSK_LIBXDP_FLAGS_INHIBIT_PROG_LOAD`] must be
    /// set. Otherwise, a double-free may occur when dropping sockets if the
    /// program has already been detached.
    pub fn new<F: FnOnce(&CreateRequest) -> CreateReply, G: FnOnce(usize) -> i32>(
        heap: &mut Heap,
        umem: &Umem,
        config: SocketConfig,
        if_name: Vec<u8>,
        queue_id: u32,
        mem: RingMemory,
        create: F,
        fd_of: G,
    ) -> (res: Created)
        requires
            old(heap).wf(),
            umem.valid(old(heap)@),
            old(heap)@.umems[umem.spec_handle().slot()].holders.len() < usize::MAX,
            mem.fits(old(heap)@, umem.spec_handle().slot()),
            old(heap)@.bound(
                umem.spec_handle().slot(),
                (Device { if_name: if_name@, queue_id }),
            ) ==> config.inhibits_prog_load(),
            forall|request: CreateRequest|
                request.fits(old(heap)@, umem.spec_handle().slot()) && request.asks(
                    config,
                    if_name@,
                    queue_id,
                    mem,
                ) ==> #[trigger] call_requires(create, (&request,)),
            forall|request: CreateRequest, reply: CreateReply| #[trigger]
                call_ensures(create, (&request,), reply) && reply.err == 0 && reply.socket != 0
                    ==> call_requires(fd_of, (reply.socket,)),
        ensures
            final(heap).wf(),
            umem.valid(final(heap)@),
            exists|request: CreateRequest, reply: CreateReply, fd: Option<i32>|
                {
                    &&& request.fits(old(heap)@, umem.spec_handle().slot())
                    &&& request.asks(config, if_name@, queue_id, mem)
                    &&& call_ensures(create, (&request,), reply)
                    &&& (fd is Some) == (reply.err == 0 && reply.socket != 0)
                    &&& fd matches Some(fd) ==> call_ensures(fd_of, (reply.socket,), fd)
                    &&& #[trigger] outcome(
                        old(heap)@,
                        final(heap)@,
                        umem.spec_handle().slot(),
                        request,
                        reply,
                        fd,
                        res,
                    )
                },
    {
        let request = Self::request(heap, umem, config, if_name, queue_id, mem);
        let reply = create(&request);
        let fd = if reply.err == 0 && reply.socket != 0 {
            Some(fd_of(reply.socket))
        } else {
            None
        };
        Self::complete(heap, umem, &request, &reply, fd)
    }

    /// What to call `xsk_socket__create_shared` with, to create a socket
    /// that shares `umem` and bind it to a queue of an interface.
    ///
    /// Until it has been created successfully, the first socket of the UMEM
    /// is to get the fill and comp rings that the UMEM was created with:
    /// these libxdp leaves mapped should it fail, while the mappings of any
    /// others that it was handed it would undo.
    pub fn request(
        heap: &Heap,
        umem: &Umem,
        config: SocketConfig,
        if_name: Vec<u8>,
        queue_id: u32,
        mem: RingMemory,
    ) -> (request: CreateRequest)
        requires
            heap.wf(),
            umem.valid(heap@),
            mem.fits(heap@, umem.spec_handle().slot()),
            heap@.bound(
                umem.spec_handle().slot(),
                (Device { if_name: if_name@, queue_id }),
            ) ==> config.inhibits_prog_load(),
        ensures
            request.fits(heap@, umem.spec_handle().slot()),
            request.asks(config, if_name@, queue_id, mem),
    {
        let inner = umem.inner(&heap.umems);
        proof {
            let u = umem.spec_handle().slot();
            assert(heap@.umems.contains_key(u));
            assert(heap@.saved_ok(heap.cons_users@, heap.prod_users@, u));
        }
        let empty = <XskRing as Default>::default();
        let (fill, comp) = match (&inner.saved, mem.ctx) {
            (Some(rings), _) => (
                RingArg {
                    mem: rings.fill.as_ptr(&heap.prod),
                    ring: *rings.fill.as_ref(&heap.prod),
                },
                RingArg {
                    mem: rings.comp.as_ptr(&heap.cons),
                    ring: *rings.comp.as_ref(&heap.cons),
                },
            ),
            (None, Some(ctx)) => (
                RingArg { mem: ctx.fill, ring: empty },
                RingArg { mem: ctx.comp, ring: empty },
            ),
            (None, None) => (RingArg { mem: 0, ring: empty }, RingArg { mem: 0, ring: empty }),
        };
        CreateRequest {
            if_name,
            queue_id,
            umem: inner.ptr,
            rx: RingArg { mem: mem.rx, ring: empty },
            tx: RingArg { mem: mem.tx, ring: empty },
            fill,
            comp,
            config,
            saved: inner.saved.is_some(),
        }
    }

    /// Takes charge of a new AF_XDP socket that shares `umem`, once
    /// libxdp has been called as requested. `fd` is the file descriptor of
    /// the socket, if there is one.
    ///
    /// If the reply does not make a socket, what there is of it is
    /// deleted.
    #[verifier::rlimit(50)]
    pub fn complete(
        heap: &mut Heap,
        umem: &Umem,
        request: &CreateRequest,
        reply: &CreateReply,
        fd: Option<i32>,
    ) -> (res: Created)
        requires
            old(heap).wf(),
            umem.valid(old(heap)@),
            old(heap)@.umems[umem.spec_handle().slot()].holders.len() < usize::MAX,
            request.fits(old(heap)@, umem.spec_handle().slot()),
            (fd is Some) == (reply.err == 0 && reply.socket != 0),
        ensures
            final(heap).wf(),
            umem.valid(final(heap)@),
            outcome(
                old(heap)@,
                final(heap)@,
                umem.spec_handle().slot(),
                *request,
                *reply,
                fd,
                res,
            ),
    {
        broadcast use RefTable::lemma_wf;

        let ghost before = heap@;
        let ghost u = umem.spec_handle().slot();
        let ghost m = before.unsaved(u);
        proof {
            assert(before.umems.contains_key(u));
            assert(before.saved_ok(heap.cons_users@, heap.prod_users@, u));
            crate::xsk::lemma_fewer_rings(before, m);
        }

        let mut tx_q = XskRingProd::default(&mut heap.prod, request.tx.mem);
        let mut rx_q = XskRingCons::default(&mut heap.cons, request.rx.mem);
        let (mut fq, mut cq) = match umem.take_rings(heap) {
            Some(rings) => (rings.fill, rings.comp),
            None => (
                XskRingProd::default(&mut heap.prod, request.fill.mem),
                XskRingCons::default(&mut heap.cons, request.comp.mem),
            ),
        };

        *tx_q.as_mut(&mut heap.prod) = reply.tx;
        *rx_q.as_mut(&mut heap.cons) = reply.rx;
        *fq.as_mut(&mut heap.prod) = reply.fill;
        *cq.as_mut(&mut heap.cons) = reply.comp;

        if reply.err != 0 {
            if request.saved {
                umem.put_rings(heap, RingPair { fill: fq, comp: cq });
            } else {
                heap.drop_prod(fq);
                heap.drop_cons(cq);
            }
            heap.drop_cons(rx_q);
            heap.drop_prod(tx_q);
            proof {
                let n = heap@;
                assert(n.actions =~= before.actions + reply.failure_actions(*request));
                assert(n.umems =~= before.umems);
                if request.saved {
                    let f = fq.spec_handle().slot();
                    let c = cq.spec_handle().slot();
                    assert(n.prod =~= crate::ring::written(before.prod, f, reply.fill));
                    assert(n.cons =~= crate::ring::written(before.cons, c, reply.comp));
                    assert(n.prod.dom() =~= before.prod.dom());
                    assert(n.cons.dom() =~= before.cons.dom());
                } else {
                    assert(n.prod =~= before.prod);
                    assert(n.cons =~= before.cons);
                }
                crate::xsk::lemma_contents(before, n, heap.cons_users@, heap.prod_users@);
                crate::xsk::lemma_fewer_rings(before, n);
            }
            let code = if reply.err == i32::MIN {
                reply.err
            } else {
                -reply.err
            };
            return Err(
                SocketCreateError {
                    reason: "non-zero error code returned when creating AF_XDP socket",
                    err: Some(code),
                },
            );
        }
        let ghost mut cu = heap.cons_users@;
        let ghost mut pu = heap.prod_users@;
        proof {
            if request.saved {
                crate::xsk::lemma_unsaved(before, cu, pu, u);
                cu = cu.remove(cq.spec_handle().slot());
                pu = pu.remove(fq.spec_handle().slot());
            }
            assert(m.inv(cu, pu));
            assert(heap@.umems =~= m.umems);
            assert(m.vacant(request.rx.mem));
            assert(m.vacant(request.tx.mem));
            assert(m.vacant(request.fill.mem));
            assert(m.vacant(request.comp.mem));
        }
        let ghost rx_h = rx_q.spec_handle();
        let ghost tx_h = tx_q.spec_handle();
        let ghost fq_h = fq.spec_handle();
        let ghost cq_h = cq.spec_handle();
        let ghost len = m.umems[u].value.ctxs.len() as int;
        let ghost ctx_cu = if reply.keeps_ctx() {
            cu.insert(cq_h.slot(), User::Ctx(u, len))
        } else {
            cu
        };
        let ghost ctx_pu = if reply.keeps_ctx() {
            pu.insert(fq_h.slot(), User::Ctx(u, len))
        } else {
            pu
        };
        let rings = CtxRings::sort(heap, fq, cq);

        if reply.socket == 0 {
            rings.abandon(heap, umem);
            heap.drop_cons(rx_q);
            heap.drop_prod(tx_q);
            heap.cons_users = Ghost(ctx_cu);
            heap.prod_users = Ghost(ctx_pu);
            proof {
                let n = heap@;
                assert(n.actions =~= m.actions + reply.failure_actions(*request));
                if reply.keeps_ctx() {
                    assert(n.prod =~= m.prod.insert(fq_h.slot(), n.prod[fq_h.slot()]));
                    assert(n.cons =~= m.cons.insert(cq_h.slot(), n.cons[cq_h.slot()]));
                } else {
                    assert(n.prod =~= m.prod);
                    assert(n.cons =~= m.cons);
                    assert(n.umems =~= m.umems.insert(u, n.umems[u]));
                }
                assert(ctx_cu.dom() =~= n.cons.dom());
                assert(ctx_pu.dom() =~= n.prod.dom());
                crate::xsk::lemma_more_rings(
                    m,
                    heap@,
                    rx_h.slot(),
                    cq_h.slot(),
                    tx_h.slot(),
                    fq_h.slot(),
                    request.rx.mem,
                    request.comp.mem,
                    request.tx.mem,
                    request.fill.mem,
                );
                crate::xsk::lemma_added(
                    m,
                    n,
                    cu,
                    pu,
                    ctx_cu,
                    ctx_pu,
                    u,
                    None,
                    reply.keeps_ctx(),
                );
            }
            return Err(SocketCreateError { reason: "returned socket pointer was null", err: None });
        }
        let ghost n0 = heap.sockets.next();
        let ghost queues = Queues {
            tx: n0 + 1,
            rx: n0 + 2,
            ctx: if reply.failure(fd) is None && !reply.existing() {
                Some(CtxQueues { index: len, fill: n0 + 3, comp: n0 })
            } else {
                None
            },
        };
        proof {
            assert(heap@.umems.contains_key(u));
            assert(heap@.umems[u].holders == before.umems[u].holders);
            assert(crate::table::holds(heap.umems@, umem.spec_handle()));
        }
        let inner = SocketInner::new(
            reply.socket,
            rx_q.handle(&mut heap.cons),
            tx_q.handle(&mut heap.prod),
            umem.another(&mut heap.umems),
            Ghost(request.device()),
            Ghost(request.config),
            Ghost(queues),
        );
        let ghost inn = inner;
        let socket_fd = fd.unwrap();
        let socket = Socket { fd: socket_fd, handle: heap.sockets.share(inner) };
        let ghost s = socket.handle.slot();
        let ghost new_cu = ctx_cu.insert(rx_h.slot(), User::Socket(s));
        let ghost new_pu = ctx_pu.insert(tx_h.slot(), User::Socket(s));

        let failure = if socket_fd < 0 {
            Some("failed to retrieve AF_XDP socket file descriptor")
        } else if tx_q.is_ring_null(&heap.prod) {
            Some("returned tx queue ring is null")
        } else if rx_q.is_ring_null(&heap.cons) {
            Some("returned rx queue ring is null")
        } else {
            match &rings {
                CtxRings::Mismatched(_, _) => Some(
                    "fill queue xor comp queue ring is null, either both or neither should be non-null",
                ),
                _ => None,
            }
        };

        if let Some(reason) = failure {
            rings.abandon(heap, umem);
            heap.drop_cons(rx_q);
            heap.drop_prod(tx_q);
            heap.cons_users = Ghost(new_cu);
            heap.prod_users = Ghost(new_pu);
            proof {
                let n = heap.with_socket(s, inn, Set::empty());
                assert(heap@.sockets[s].holders.remove(socket.handle.ticket()) =~= Set::empty());
                assert(n.prod[tx_h.slot()].holders =~= set![inn.tx_ring.spec_handle().ticket()]);
                assert(n.cons[rx_h.slot()].holders =~= set![inn.rx_ring.spec_handle().ticket()]);
                assert(new_cu.dom() =~= n.cons.dom());
                assert(new_pu.dom() =~= n.prod.dom());
                assert(n.sockets =~= m.sockets.insert(s, n.sockets[s]));
                assert(n.umems =~= m.umems.insert(u, n.umems[u]));
                crate::xsk::lemma_more_rings(
                    m,
                    heap@,
                    rx_h.slot(),
                    cq_h.slot(),
                    tx_h.slot(),
                    fq_h.slot(),
                    request.rx.mem,
                    request.comp.mem,
                    request.tx.mem,
                    request.fill.mem,
                );
                crate::xsk::lemma_added(
                    m,
                    n,
                    cu,
                    pu,
                    new_cu,
                    new_pu,
                    u,
                    Some(s),
                    reply.keeps_ctx(),
                );
            }
            let ghost during = heap@;
            socket.release(heap);
            proof {
                let n = heap@;
                let h = inn.umem.spec_handle();
                assert(during.umems[u].holders.contains(umem.spec_handle().ticket()));
                assert(!during.umems[u].last_holder(h.ticket()));
                assert(n.sockets =~= m.sockets);
                assert(n.actions =~= m.actions + reply.failure_actions(*request));
                assert(n.umems[u].holders =~= m.umems[u].holders);
                if reply.keeps_ctx() {
                    assert(n.umems =~= m.umems.insert(u, n.umems[u]));
                    assert(n.prod =~= m.prod.insert(fq_h.slot(), n.prod[fq_h.slot()]));
                    assert(n.cons =~= m.cons.insert(cq_h.slot(), n.cons[cq_h.slot()]));
                } else {
                    assert(n.umems =~= m.umems);
                    assert(n.prod =~= m.prod);
                    assert(n.cons =~= m.cons);
                }
            }
            return Err(SocketCreateError { reason, err: None });
        }
        let tx_s = socket.another(&mut heap.sockets);
        let rx_s = socket.another(&mut heap.sockets);
        let tx_q = TxQueue::new(tx_q, tx_s);
        let rx_q = RxQueue::new(rx_q, rx_s);

        let ctx_q = if let CtxRings::New(fq, cq) = rings {
            umem.keep_rings(heap, &fq, &cq, Ghost(Some(s)));
            let fq_s = socket.another(&mut heap.sockets);
            let fq = FillQueue::new(fq, fq_s);
            let cq = CompQueue::new(cq, socket);
            heap.cons_users = Ghost(new_cu);
            heap.prod_users = Ghost(new_pu);
            proof {
                let n = heap@;
                let ctx = n.umems[u].value.ctxs.last();
                assert(n.prod[tx_h.slot()].holders =~= set![
                    inn.tx_ring.spec_handle().ticket(),
                    tx_h.ticket(),
                ]);
                assert(n.cons[rx_h.slot()].holders =~= set![
                    inn.rx_ring.spec_handle().ticket(),
                    rx_h.ticket(),
                ]);
                assert(n.prod[fq_h.slot()].holders =~= set![
                    ctx.fill.spec_handle().ticket(),
                    fq_h.ticket(),
                ]);
                assert(n.cons[cq_h.slot()].holders =~= set![
                    ctx.comp.spec_handle().ticket(),
                    cq_h.ticket(),
                ]);
                assert(n.sockets[s].holders =~= set![n0 + 1, n0 + 2, n0 + 3, n0]);
                assert(new_cu.dom() =~= n.cons.dom());
                assert(new_pu.dom() =~= n.prod.dom());
                assert(n.sockets =~= m.sockets.insert(s, n.sockets[s]));
                assert(n.umems =~= m.umems.insert(u, n.umems[u]));
                crate::xsk::lemma_more_rings(
                    m,
                    heap@,
                    rx_h.slot(),
                    cq_h.slot(),
                    tx_h.slot(),
                    fq_h.slot(),
                    request.rx.mem,
                    request.comp.mem,
                    request.tx.mem,
                    request.fill.mem,
                );
                crate::xsk::lemma_added(m, n, cu, pu, new_cu, new_pu, u, Some(s), true);
                assert(n.prod =~= m.prod.insert(tx_h.slot(), n.prod[tx_h.slot()]).insert(
                    fq_h.slot(),
                    n.prod[fq_h.slot()],
                ));
                assert(n.cons =~= m.cons.insert(rx_h.slot(), n.cons[rx_h.slot()]).insert(
                    cq_h.slot(),
                    n.cons[cq_h.slot()],
                ));
            }
            Some((fq, cq))
        } else {
            heap.cons_users = Ghost(new_cu);
            heap.prod_users = Ghost(new_pu);
            proof {
                let holders = heap@.sockets[s].holders.remove(n0);
                let n = heap.with_socket(s, inn, holders);
                assert(n.prod[tx_h.slot()].holders =~= set![
                    inn.tx_ring.spec_handle().ticket(),
                    tx_h.ticket(),
                ]);
                assert(n.cons[rx_h.slot()].holders =~= set![
                    inn.rx_ring.spec_handle().ticket(),
                    rx_h.ticket(),
                ]);
                assert(holders =~= set![n0 + 1, n0 + 2]);
                assert(new_cu.dom() =~= n.cons.dom());
                assert(new_pu.dom() =~= n.prod.dom());
                assert(n.sockets =~= m.sockets.insert(s, n.sockets[s]));
                assert(n.umems =~= m.umems.insert(u, n.umems[u]));
                crate::xsk::lemma_more_rings(
                    m,
                    heap@,
                    rx_h.slot(),
                    cq_h.slot(),
                    tx_h.slot(),
                    fq_h.slot(),
                    request.rx.mem,
                    request.comp.mem,
                    request.tx.mem,
                    request.fill.mem,
                );
                crate::xsk::lemma_added(m, n, cu, pu, new_cu, new_pu, u, Some(s), false);
                assert(heap@.sockets[s].holders.contains(n0 + 1));
                assert(!heap@.sockets[s].last_holder(n0));
            }
            socket.release(heap);
            proof {
                let n = heap@;
                assert(n.sockets[s].holders =~= set![n0 + 1, n0 + 2]);
                assert(n.sockets =~= m.sockets.insert(s, n.sockets[s]));
                assert(n.prod =~= m.prod.insert(tx_h.slot(), n.prod[tx_h.slot()]));
                assert(n.cons =~= m.cons.insert(rx_h.slot(), n.cons[rx_h.slot()]));
                assert(n.actions =~= m.actions + reply.ctx_actions(*request));
            }
            None
        };
        Ok((tx_q, rx_q, ctx_q))
    }

    /// The file descriptor of the socket.
    pub fn fd(&self) -> (fd: i32)
        ensures
            fd == self.spec_fd(),
    {
        self.fd
    }

    /// The address of the socket.
    pub fn as_ptr(&self, heap: &Heap) -> (ptr: usize)
        requires
            heap.wf(),
            crate::table::holds(heap@.sockets, self.spec_handle()),
        ensures
            ptr == heap@.sockets[self.spec_handle().slot()].value.ptr,
            ptr != 0,
    {
        proof {
            let s = self.handle.slot();
            assert(heap@.socket_ok(heap.cons_users@, heap.prod_users@, s));
        }
        heap.sockets.get(&self.handle).as_ptr()
    }

    /// The address of the socket's rx ring.
    pub fn rx_ring_ptr(&self, heap: &Heap) -> (mem: usize)
        requires
            heap.wf(),
            crate::table::holds(heap@.sockets, self.spec_handle()),
        ensures
            ({
                let inner = heap@.sockets[self.spec_handle().slot()].value;
                mem == heap@.cons[inner.rx_ring.spec_handle().slot()].value.mem
            }),
            mem != 0,
    {
        proof {
            let s = self.handle.slot();
            assert(heap@.socket_ok(heap.cons_users@, heap.prod_users@, s));
        }
        heap.sockets.get(&self.handle).rx_ring.as_ptr(&heap.cons)
    }

    /// The address of the socket's tx ring.
    pub fn tx_ring_ptr(&self, heap: &Heap) -> (mem: usize)
        requires
            heap.wf(),
            crate::table::holds(heap@.sockets, self.spec_handle()),
        ensures
            ({
                let inner = heap@.sockets[self.spec_handle().slot()].value;
                mem == heap@.prod[inner.tx_ring.spec_handle().slot()].value.mem
            }),
            mem != 0,
    {
        proof {
            let s = self.handle.slot();
            assert(heap@.socket_ok(heap.cons_users@, heap.prod_users@, s));
        }
        heap.sockets.get(&self.handle).tx_ring.as_ptr(&heap.prod)
    }

    /// Another handle on the socket of `sockets` that this one keeps alive.
    fn another(&self, sockets: &mut RefTable<SocketInner>) -> (socket: Socket)
        requires
            old(sockets).wf(),
            crate::table::holds(old(sockets)@, self.spec_handle()),
            old(sockets)@[self.spec_handle().slot()].holders.len() < usize::MAX,
        ensures
            final(sockets).wf(),
            socket.spec_fd() == self.spec_fd(),
            socket.spec_handle().slot() == self.spec_handle().slot(),
            socket.spec_handle().ticket() == old(sockets).next(),
            final(sockets).next() == old(sockets).next() + 1,
            final(sockets)@ == old(sockets)@.insert(
                self.spec_handle().slot(),
                old(sockets)@[self.spec_handle().slot()].held_by(socket.spec_handle().ticket()),
            ),
    {
        Socket { fd: self.fd, handle: sockets.retain(&self.handle) }
    }

    /// Another handle on the same socket.
    pub fn clone(&self, heap: &mut Heap) -> (socket: Socket)
        requires
            old(heap).wf(),
            crate::table::holds(old(heap)@.sockets, self.spec_handle()),
            old(heap)@.sockets[self.spec_handle().slot()].holders.len() < usize::MAX,
        ensures
            final(heap).wf(),
            socket.valid(final(heap)@),
            socket.spec_fd() == self.spec_fd(),
            socket.spec_handle().slot() == self.spec_handle().slot(),
            !crate::table::holds(old(heap)@.sockets, socket.spec_handle()),
            final(heap)@ == old(heap)@.retain_socket(socket.spec_handle()),
    {
        broadcast use RefTable::lemma_wf;

        let socket = self.another(&mut heap.sockets);
        proof {
            let m = old(heap)@;
            let n = heap@;
            let s = self.handle.slot();
            let t = socket.handle.ticket();
            if m.sockets[s].value.queues@.has(t) {
                assert(old(heap).sockets@.contains_key(s));
            }
            crate::xsk::lemma_holder_added(m, n, heap.cons_users@, heap.prod_users@, s, t);
        }
        socket
    }

    /// Gives up a handle, whose part in keeping rings alive has been
    /// given up already.
    pub(super) fn release(self, heap: &mut Heap)
        requires
            old(heap).tables_wf(),
            old(heap).roles_wf_but(self.spec_handle().slot()),
            old(heap).roles_wf() || old(heap)@.sockets[self.spec_handle().slot()].last_holder(
                self.spec_handle().ticket(),
            ),
            crate::table::holds(old(heap)@.sockets, self.spec_handle()),
            old(heap).with_socket(
                self.spec_handle().slot(),
                old(heap)@.sockets[self.spec_handle().slot()].value,
                old(heap)@.sockets[self.spec_handle().slot()].holders.remove(
                    self.spec_handle().ticket(),
                ),
            ).inv(old(heap).cons_users@, old(heap).prod_users@),
            old(heap)@.distinct_rings(),
            old(heap)@.spares_rings(),
            old(heap)@.one_program(),
        ensures
            final(heap).wf(),
            final(heap)@ == old(heap)@.release_socket(self.spec_handle()),
    {
        let ghost m = heap@;
        let ghost h = self.handle;
        let ghost s = h.slot();
        let ghost was = heap.sockets@[s];
        if let Some(inner) = heap.sockets.release(self.handle) {
            proof {
                assert(was.holders.remove(h.ticket()) =~= Set::empty());
                assert(heap.with_socket(s, inner, Set::empty()).sockets =~= m.sockets.insert(
                    s,
                    Shared { value: inner, holders: Set::empty() },
                ));
                assert(heap.with_socket(s, inner, Set::empty()).delete_socket(s).sockets
                    =~= m.delete_socket(s).sockets);
                assert(heap.with_socket(s, inner, Set::empty()).sockets.remove(s)
                    =~= m.sockets.remove(s));
            }
            inner.drop(heap, Ghost(s));
        }
    }

    /// Gives up the handle. When nothing else keeps the socket alive it
    /// is to be deleted.
    pub fn drop(self, heap: &mut Heap)
        requires
            old(heap).wf(),
            self.valid(old(heap)@),
        ensures
            final(heap).wf(),
            final(heap)@ == old(heap)@.release_socket(self.spec_handle()),
    {
        proof {
            let s = self.handle.slot();
            let t = self.handle.ticket();
            crate::xsk::lemma_holder_removed(
                heap@,
                heap.with_socket(s, heap@.sockets[s].value, heap@.sockets[s].holders.remove(t)),
                heap.cons_users@,
                heap.prod_users@,
                s,
                t,
            );
        }
        self.release(heap);
    }
}

/// The fill and comp rings that libxdp was handed for a socket, by what
/// it has made of them.
enum CtxRings {
    /// It has set up both.
    New(XskRingProd, XskRingCons),
    /// It has set up neither, as the device queue has rings already.
    Existing,
    /// It has set up one of them only.
    Mismatched(XskRingProd, XskRingCons),
}

impl CtxRings {
    /// The rings, unless libxdp has set up neither.
    spec fn rings(&self) -> Option<(XskRingProd, XskRingCons)> {
        match *self {
            CtxRings::New(fq, cq) => Some((fq, cq)),
            CtxRings::Existing => None,
            CtxRings::Mismatched(fq, cq) => Some((fq, cq)),
        }
    }

    /// Sorts out what libxdp has made of the rings. Those that it has not
    /// set up it has not kept pointers to either, so they are freed.
    fn sort(heap: &mut Heap, fq: XskRingProd, cq: XskRingCons) -> (rings: CtxRings)
        requires
            old(heap).tables_wf(),
            fq.owns(old(heap)@.prod),
            cq.owns(old(heap)@.cons),
            old(heap)@.prod[fq.spec_handle().slot()].last_holder(fq.spec_handle().ticket()),
            old(heap)@.cons[cq.spec_handle().slot()].last_holder(cq.spec_handle().ticket()),
        ensures
            final(heap).tables_wf(),
            ({
                let fq_null = fq.cell(old(heap)@.prod).ring.ring == 0;
                let cq_null = cq.cell(old(heap)@.cons).ring.ring == 0;
                &&& (rings is New) == (!fq_null && !cq_null)
                &&& (rings is Existing) == (fq_null && cq_null)
            }),
            rings.rings() matches Some(r) ==> r == (fq, cq) && *final(heap) == *old(heap),
            rings is Existing ==> final(heap)@ == (Model {
                prod: old(heap)@.prod.remove(fq.spec_handle().slot()),
                cons: old(heap)@.cons.remove(cq.spec_handle().slot()),
                actions: old(heap)@.actions.push(
                    Action::FreeProd(fq.cell(old(heap)@.prod).mem),
                ).push(Action::FreeCons(cq.cell(old(heap)@.cons).mem)),
                ..old(heap)@
            }),
            final(heap).cons_users == old(heap).cons_users,
            final(heap).prod_users == old(heap).prod_users,
            final(heap).cons.next() == old(heap).cons.next(),
            final(heap).prod.next() == old(heap).prod.next(),
            final(heap).sockets == old(heap).sockets,
            final(heap).umems == old(heap).umems,
    {
        match (fq.is_ring_null(&heap.prod), cq.is_ring_null(&heap.cons)) {
            (false, false) => CtxRings::New(fq, cq),
            (true, true) => {
                heap.drop_prod(fq);
                heap.drop_cons(cq);
                CtxRings::Existing
            },
            _ => CtxRings::Mismatched(fq, cq),
        }
    }

    /// Leaves the rings to the UMEM.
    fn abandon(self, heap: &mut Heap, umem: &Umem)
        requires
            old(heap).tables_wf(),
            crate::table::holds(old(heap)@.umems, umem.spec_handle()),
            self.rings() matches Some((fq, cq)) ==> {
                &&& fq.owns(old(heap)@.prod)
                &&& cq.owns(old(heap)@.cons)
                &&& old(heap)@.prod[fq.spec_handle().slot()].last_holder(fq.spec_handle().ticket())
                &&& old(heap)@.cons[cq.spec_handle().slot()].last_holder(cq.spec_handle().ticket())
            },
        ensures
            final(heap).tables_wf(),
            self is Existing ==> *final(heap) == *old(heap),
            self.rings() matches Some((fq, cq)) ==> {
                let u = umem.spec_handle().slot();
                let ctx = final(heap)@.umems[u].value.ctxs.last();
                &&& ctx.socket@ is None
                &&& ctx.fill.spec_handle().slot() == fq.spec_handle().slot()
                &&& ctx.comp.spec_handle().slot() == cq.spec_handle().slot()
                &&& ctx_kept(old(heap)@, final(heap)@, u)
                &&& final(heap)@.umems[u].holders == old(heap)@.umems[u].holders
                &&& final(heap)@.prod == old(heap)@.prod.insert(
                    fq.spec_handle().slot(),
                    final(heap)@.prod[fq.spec_handle().slot()],
                )
                &&& final(heap)@.cons == old(heap)@.cons.insert(
                    cq.spec_handle().slot(),
                    final(heap)@.cons[cq.spec_handle().slot()],
                )
                &&& crate::xsk::ring_is(
                    final(heap)@.prod,
                    ctx.fill.spec_handle(),
                    fq.cell(old(heap)@.prod).mem,
                    fq.cell(old(heap)@.prod).ring,
                    false,
                )
                &&& crate::xsk::ring_is(
                    final(heap)@.cons,
                    ctx.comp.spec_handle(),
                    cq.cell(old(heap)@.cons).mem,
                    cq.cell(old(heap)@.cons).ring,
                    false,
                )
            },
            final(heap)@.actions == old(heap)@.actions,
            final(heap).cons_users == old(heap).cons_users,
            final(heap).prod_users == old(heap).prod_users,
            final(heap).sockets == old(heap).sockets,
    {
        broadcast use RefTable::lemma_wf;

        match self {
            CtxRings::New(fq, cq) | CtxRings::Mismatched(fq, cq) => {
                umem.keep_rings(heap, &fq, &cq, Ghost(None));
                proof {
                    let ctx = heap@.umems[umem.spec_handle().slot()].value.ctxs.last();
                    assert(heap@.prod[fq.spec_handle().slot()].holders.contains(
                        ctx.fill.spec_handle().ticket(),
                    ));
                    assert(heap@.cons[cq.spec_handle().slot()].holders.contains(
                        ctx.comp.spec_handle().ticket(),
                    ));
                    assert(heap@.prod[fq.spec_handle().slot()].holders.remove(
                        fq.spec_handle().ticket(),
                    ) =~= set![ctx.fill.spec_handle().ticket()]);
                    assert(heap@.cons[cq.spec_handle().slot()].holders.remove(
                        cq.spec_handle().ticket(),
                    ) =~= set![ctx.comp.spec_handle().ticket()]);
                }
                heap.drop_prod(fq);
                heap.drop_cons(cq);
                proof {
                    assert(heap@.prod =~= old(heap)@.prod.insert(
                        fq.spec_handle().slot(),
                        heap@.prod[fq.spec_handle().slot()],
                    ));
                    assert(heap@.cons =~= old(heap)@.cons.insert(
                        cq.spec_handle().slot(),
                        heap@.cons[cq.spec_handle().slot()],
                    ));
                }
            },
            CtxRings::Existing => {},
        }
    }
}

/// Error detailing why [`Socket`] creation failed.
#[derive(Debug)]
pub struct SocketCreateError {
    reason: &'static str,
    err: Option<i32>,
}

impl SocketCreateError {
    /// The reason and the error code of the operating system.
    pub closed spec fn cause(&self) -> (Seq<char>, Option<i32>) {
        (self.reason@, self.err)
    }

    /// The reason, in words.
    pub fn to_string(&self) -> (text: String)
        ensures
            text@ == self.cause().0,
    {
        self.reason.to_owned()
    }

    /// The error code that the operating system has given, if any.
    pub fn source(&self) -> (err: Option<i32>)
        ensures
            err == self.cause().1,
    {
        self.err
    }
}

} // verus!

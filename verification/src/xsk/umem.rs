//! Handles on a UMEM.

use crate::ring::{XskRing, XskRingCons, XskRingProd};
use crate::table::{Handle, RefTable, Shared};
use crate::xsk::{Action, Ctx, Heap, Model, RingPair, UmemInner, UmemModel, User};
use vstd::prelude::*;

verus! {

/// A handle that keeps a UMEM alive.
pub struct Umem {
    handle: Handle,
}

/// Whether there is one UMEM more, kept alive by `umem` alone, with the
/// two rings that it was created with, and nothing else has changed.
pub open spec fn umem_added(
    m: Model,
    n: Model,
    umem: Umem,
    ptr: usize,
    fill_mem: usize,
    fill: XskRing,
    comp_mem: usize,
    comp: XskRing,
) -> bool {
    let u = umem.spec_handle().slot();
    let added = n.umems[u];
    &&& !m.umems.contains_key(u)
    &&& n.umems == m.umems.insert(u, added)
    &&& added.holders == set![umem.spec_handle().ticket()]
    &&& added.value.ptr == ptr
    &&& added.value.ctxs == Seq::<Ctx>::empty()
    &&& n.sockets == m.sockets
    &&& n.actions == m.actions
    &&& added.value.saved matches Some(rings)
    &&& crate::xsk::wrapper_added(m.prod, n.prod, rings.fill.spec_handle(), fill_mem, fill)
    &&& crate::xsk::wrapper_added(m.cons, n.cons, rings.comp.spec_handle(), comp_mem, comp)
}

impl Umem {
    pub closed spec fn spec_handle(&self) -> Handle {
        self.handle
    }

    /// Whether this handle keeps a UMEM alive on its own account, and
    /// not on that of a socket.
    pub open spec fn valid(&self, m: Model) -> bool {
        &&& crate::table::holds(m.umems, self.spec_handle())
        &&& forall|s: usize| #[trigger]
            m.sockets.contains_key(s) ==> m.sockets[s].value.umem.spec_handle()
                != self.spec_handle()
    }

    /// Takes charge of the UMEM at `ptr`, which libxdp has created.
    ///
    /// `fill_mem` and `comp_mem` are the addresses of the rings that
    /// libxdp was handed for it, `fill` and `comp` what these now hold. The
    /// UMEM keeps the two for its first socket.
    pub fn new(
        heap: &mut Heap,
        ptr: usize,
        fill_mem: usize,
        fill: XskRing,
        comp_mem: usize,
        comp: XskRing,
    ) -> (umem: Umem)
        requires
            old(heap).wf(),
            old(heap)@.vacant(fill_mem),
            old(heap)@.vacant(comp_mem),
            fill_mem != comp_mem,
        ensures
            final(heap).wf(),
            umem.valid(final(heap)@),
            umem_added(
                old(heap)@,
                final(heap)@,
                umem,
                ptr,
                fill_mem,
                fill,
                comp_mem,
                comp,
            ),
    {
        broadcast use RefTable::lemma_wf;

        let mut fq = XskRingProd::default(&mut heap.prod, fill_mem);
        *fq.as_mut(&mut heap.prod) = fill;
        let mut cq = XskRingCons::default(&mut heap.cons, comp_mem);
        *cq.as_mut(&mut heap.cons) = comp;
        let ghost fill_h = fq.spec_handle();
        let ghost comp_h = cq.spec_handle();
        let saved = Some(RingPair { fill: fq, comp: cq });
        let ctxs: Vec<Ctx> = Vec::new();
        let umem = Umem { handle: heap.umems.share(UmemInner { ptr, saved, ctxs }) };
        let ghost u = umem.handle.slot();
        heap.cons_users = Ghost(heap.cons_users@.insert(comp_h.slot(), User::Saved(u)));
        heap.prod_users = Ghost(heap.prod_users@.insert(fill_h.slot(), User::Saved(u)));
        proof {
            let m = old(heap)@;
            let n = heap@;
            assert(n.umems =~= m.umems.insert(u, n.umems[u]));
            assert(n.cons =~= m.cons.insert(comp_h.slot(), n.cons[comp_h.slot()]));
            assert(n.prod =~= m.prod.insert(fill_h.slot(), n.prod[fill_h.slot()]));
            let cu = heap.cons_users@;
            let pu = heap.prod_users@;
            assert forall|s: usize| #[trigger] n.sockets.contains_key(s) implies n.socket_ok(
                cu,
                pu,
                s,
            ) && n.sockets[s].value.umem.spec_handle() != umem.spec_handle() by {
                assert(m.socket_ok(old(heap).cons_users@, old(heap).prod_users@, s));
            }
            assert forall|v: usize| #[trigger] n.umems.contains_key(v) implies n.saved_ok(
                cu,
                pu,
                v,
            ) by {
                if v != u {
                    assert(m.saved_ok(old(heap).cons_users@, old(heap).prod_users@, v));
                }
            }
            assert forall|v: usize, j: int|
                #![trigger n.umems[v].value.ctxs[j]]
                n.umems.contains_key(v) && 0 <= j < n.umems[v].value.ctxs.len() implies n.ctx_ok(
                cu,
                pu,
                v,
                j,
            ) by {
                assert(m.umems[v].value.ctxs[j] == n.umems[v].value.ctxs[j]);
                assert(m.ctx_ok(old(heap).cons_users@, old(heap).prod_users@, v, j));
            }
            assert forall|r: usize| #[trigger] cu.contains_key(r) implies n.cons_user_ok(
                r,
                cu[r],
            ) by {
                if r != comp_h.slot() {
                    assert(m.cons_user_ok(r, cu[r]));
                }
            }
            assert forall|r: usize| #[trigger] pu.contains_key(r) implies n.prod_user_ok(
                r,
                pu[r],
            ) by {
                if r != fill_h.slot() {
                    assert(m.prod_user_ok(r, pu[r]));
                }
            }
            assert(cu.dom() =~= n.cons.dom());
            assert(pu.dom() =~= n.prod.dom());
        }
        umem
    }

    /// Whether the UMEM still has the rings that it was created with, which
    /// its next socket then gets.
    pub fn has_saved_rings(&self, heap: &Heap) -> (b: bool)
        requires
            heap.wf(),
            self.valid(heap@),
        ensures
            b == (heap@.umems[self.spec_handle().slot()].value.saved is Some),
    {
        self.inner(&heap.umems).saved.is_some()
    }

    /// Takes the rings that the UMEM was created with.
    pub(super) fn take_rings(&self, heap: &mut Heap) -> (rings: Option<RingPair>)
        requires
            old(heap).tables_wf(),
            crate::table::holds(old(heap)@.umems, self.spec_handle()),
        ensures
            final(heap).tables_wf(),
            final(heap).cons == old(heap).cons,
            final(heap).prod == old(heap).prod,
            final(heap).sockets == old(heap).sockets,
            final(heap).umems.next() == old(heap).umems.next(),
            final(heap).cons_users == old(heap).cons_users,
            final(heap).prod_users == old(heap).prod_users,
            rings == old(heap)@.umems[self.spec_handle().slot()].value.saved,
            final(heap)@ == (Model {
                umems: old(heap)@.umems.insert(
                    self.spec_handle().slot(),
                    (Shared {
                        value: UmemModel {
                            saved: None,
                            ..old(heap)@.umems[self.spec_handle().slot()].value
                        },
                        holders: old(heap)@.umems[self.spec_handle().slot()].holders,
                    }),
                ),
                ..old(heap)@
            }),
    {
        let rings = heap.umems.get_mut(&self.handle).saved.take();
        proof {
            let u = self.handle.slot();
            assert(heap@.umems =~= old(heap)@.umems.insert(
                u,
                Shared {
                    value: UmemModel { saved: None, ..old(heap)@.umems[u].value },
                    holders: old(heap)@.umems[u].holders,
                },
            ));
        }
        rings
    }

    /// Puts back the rings that the UMEM was created with.
    pub(super) fn put_rings(&self, heap: &mut Heap, rings: RingPair)
        requires
            old(heap).tables_wf(),
            crate::table::holds(old(heap)@.umems, self.spec_handle()),
        ensures
            final(heap).tables_wf(),
            final(heap).cons == old(heap).cons,
            final(heap).prod == old(heap).prod,
            final(heap).sockets == old(heap).sockets,
            final(heap).umems.next() == old(heap).umems.next(),
            final(heap).cons_users == old(heap).cons_users,
            final(heap).prod_users == old(heap).prod_users,
            final(heap)@ == (Model {
                umems: old(heap)@.umems.insert(
                    self.spec_handle().slot(),
                    (Shared {
                        value: UmemModel {
                            saved: Some(rings),
                            ..old(heap)@.umems[self.spec_handle().slot()].value
                        },
                        holders: old(heap)@.umems[self.spec_handle().slot()].holders,
                    }),
                ),
                ..old(heap)@
            }),
    {
        heap.umems.get_mut(&self.handle).saved = Some(rings);
        proof {
            let u = self.handle.slot();
            assert(heap@.umems =~= old(heap)@.umems.insert(
                u,
                Shared {
                    value: UmemModel { saved: Some(rings), ..old(heap)@.umems[u].value },
                    holders: old(heap)@.umems[u].holders,
                },
            ));
        }
    }

    /// Another handle on the UMEM of `umems` that this one keeps alive.
    pub(super) fn another(&self, umems: &mut RefTable<UmemInner>) -> (umem: Umem)
        requires
            old(umems).wf(),
            crate::table::holds(old(umems)@, self.spec_handle()),
            old(umems)@[self.spec_handle().slot()].holders.len() < usize::MAX,
        ensures
            final(umems).wf(),
            umem.spec_handle().slot() == self.spec_handle().slot(),
            umem.spec_handle().ticket() == old(umems).next(),
            final(umems).next() == old(umems).next() + 1,
            final(umems)@ == old(umems)@.insert(
                self.spec_handle().slot(),
                old(umems)@[self.spec_handle().slot()].held_by(umem.spec_handle().ticket()),
            ),
    {
        Umem { handle: umems.retain(&self.handle) }
    }

    /// The UMEM of `umems` that this handle keeps alive.
    pub(super) fn inner<'a>(&self, umems: &'a RefTable<UmemInner>) -> (inner: &'a UmemInner)
        requires
            umems.wf(),
            crate::table::holds(umems@, self.spec_handle()),
        ensures
            *inner == umems@[self.spec_handle().slot()].value,
    {
        umems.get(&self.handle)
    }

    /// The UMEM takes handles on a pair of rings that libxdp has pointers
    /// to. `socket` is the slot of the socket that is handed queues for
    /// them.
    pub(super) fn keep_rings(
        &self,
        heap: &mut Heap,
        fq: &XskRingProd,
        cq: &XskRingCons,
        socket: Ghost<Option<usize>>,
    )
        requires
            old(heap).tables_wf(),
            crate::table::holds(old(heap)@.umems, self.spec_handle()),
            fq.owns(old(heap)@.prod),
            cq.owns(old(heap)@.cons),
            old(heap)@.prod[fq.spec_handle().slot()].holders.len() < usize::MAX,
            old(heap)@.cons[cq.spec_handle().slot()].holders.len() < usize::MAX,
        ensures
            final(heap).tables_wf(),
            final(heap).cons_users == old(heap).cons_users,
            final(heap).prod_users == old(heap).prod_users,
            final(heap).sockets == old(heap).sockets,
            final(heap)@.actions == old(heap)@.actions,
            ({
                let u = self.spec_handle().slot();
                let ctx = final(heap)@.umems[u].value.ctxs.last();
                &&& ctx.socket == socket
                &&& ctx.fill.spec_handle().slot() == fq.spec_handle().slot()
                &&& ctx.fill.spec_handle().ticket() == old(heap).prod.next()
                &&& ctx.comp.spec_handle().slot() == cq.spec_handle().slot()
                &&& ctx.comp.spec_handle().ticket() == old(heap).cons.next()
                &&& final(heap)@.prod == old(heap)@.prod.insert(
                    fq.spec_handle().slot(),
                    old(heap)@.prod[fq.spec_handle().slot()].held_by(
                        ctx.fill.spec_handle().ticket(),
                    ),
                )
                &&& final(heap)@.cons == old(heap)@.cons.insert(
                    cq.spec_handle().slot(),
                    old(heap)@.cons[cq.spec_handle().slot()].held_by(
                        ctx.comp.spec_handle().ticket(),
                    ),
                )
                &&& final(heap)@.umems == old(heap)@.umems.insert(
                    u,
                    (Shared {
                        value: UmemModel {
                            ctxs: old(heap)@.umems[u].value.ctxs.push(ctx),
                            ..old(heap)@.umems[u].value
                        },
                        holders: old(heap)@.umems[u].holders,
                    }),
                )
            }),
    {
        let ctx = Ctx { fill: fq.handle(&mut heap.prod), comp: cq.handle(&mut heap.cons), socket };
        let ghost c = ctx;
        heap.umems.get_mut(&self.handle).ctxs.push(ctx);
        proof {
            let u = self.handle.slot();
            assert(heap.umems@[u].value.ctxs@ == old(heap).umems@[u].value.ctxs@.push(c));
            assert(heap@.umems =~= old(heap)@.umems.insert(
                u,
                Shared {
                    value: UmemModel {
                        ctxs: old(heap)@.umems[u].value.ctxs.push(c),
                        ..old(heap)@.umems[u].value
                    },
                    holders: old(heap)@.umems[u].holders,
                },
            ));
        }
    }

    /// Another handle on the same UMEM.
    pub fn clone(&self, heap: &mut Heap) -> (umem: Umem)
        requires
            old(heap).wf(),
            self.valid(old(heap)@),
            old(heap)@.umems[self.spec_handle().slot()].holders.len() < usize::MAX,
        ensures
            final(heap).wf(),
            self.valid(final(heap)@),
            umem.valid(final(heap)@),
            umem.spec_handle() != self.spec_handle(),
            umem.spec_handle().slot() == self.spec_handle().slot(),
            !crate::table::holds(old(heap)@.umems, umem.spec_handle()),
            final(heap)@ == old(heap)@.retain_umem(umem.spec_handle()),
    {
        broadcast use RefTable::lemma_wf;

        let umem = self.another(&mut heap.umems);
        proof {
            let m = old(heap)@;
            let n = heap@;
            assert(n.umems =~= m.umems.insert(
                self.spec_handle().slot(),
                m.umems[self.spec_handle().slot()].held_by(umem.spec_handle().ticket()),
            ));
            assert forall|s: usize| #[trigger] n.sockets.contains_key(s) implies n.socket_ok(
                heap.cons_users@,
                heap.prod_users@,
                s,
            ) && n.sockets[s].value.umem.spec_handle() != umem.spec_handle() by {
                assert(m.socket_ok(heap.cons_users@, heap.prod_users@, s));
            }
            assert forall|u: usize| #[trigger] n.umems.contains_key(u) implies n.saved_ok(
                heap.cons_users@,
                heap.prod_users@,
                u,
            ) by {
                assert(m.saved_ok(heap.cons_users@, heap.prod_users@, u));
            }
            assert forall|u: usize, j: int|
                #![trigger n.umems[u].value.ctxs[j]]
                n.umems.contains_key(u) && 0 <= j < n.umems[u].value.ctxs.len() implies n.ctx_ok(
                heap.cons_users@,
                heap.prod_users@,
                u,
                j,
            ) by {
                assert(m.umems[u].value.ctxs[j] == n.umems[u].value.ctxs[j]);
                assert(m.ctx_ok(heap.cons_users@, heap.prod_users@, u, j));
            }
        }
        umem
    }

    /// Gives up the handle. When nothing else keeps the UMEM alive it is
    /// to be deleted, and its rings are to be freed after that.
    pub fn drop(self, heap: &mut Heap)
        requires
            old(heap).wf(),
            self.valid(old(heap)@),
        ensures
            final(heap).wf(),
            final(heap)@ == old(heap)@.release_umem(self.spec_handle()),
    {
        broadcast use RefTable::lemma_wf;

        let ghost before = *heap;
        let ghost m = heap@;
        let ghost h = self.handle;
        let ghost u = h.slot();
        proof {
            assert(m.umems[u].last_holder(h.ticket()) == heap.umems@[u].last_holder(h.ticket()));
        }
        if let Some(inner) = heap.umems.release(self.handle) {
            heap.actions.push(Action::DeleteUmem(inner.ptr));
            let ghost base = m.unsaved(u);
            let ghost mut cu = before.cons_users@;
            let ghost mut pu = before.prod_users@;
            proof {
                assert(m.saved_ok(cu, pu, u));
                assert forall|s: usize| #[trigger]
                    m.sockets.contains_key(s) implies m.sockets[s].value.umem.spec_handle().slot()
                    != u by {
                    assert(m.socket_ok(cu, pu, s));
                    crate::table::handle_ext(m.sockets[s].value.umem.spec_handle(), h);
                }
            }
            if let Some(rings) = inner.saved {
                proof {
                    crate::xsk::lemma_unsaved(m, cu, pu, u);
                    cu = cu.remove(rings.comp.spec_handle().slot());
                    pu = pu.remove(rings.fill.spec_handle().slot());
                }
                heap.drop_prod(rings.fill);
                heap.drop_cons(rings.comp);
            }
            proof {
                assert(heap@.actions =~= m.actions.push(Action::DeleteUmem(inner.ptr))
                    + m.saved_frees(u));
                assert(heap@.umems =~= base.umems.remove(u));
                assert(base.umems.remove(u) =~= m.umems.remove(u));
            }
            UmemInner::free_rings(inner.ctxs, heap, Ghost(u), Ghost(base), Ghost(cu), Ghost(pu));
            proof {
                crate::xsk::memory::lemma_umem_drop(m, before.cons_users@, before.prod_users@, h);
                crate::xsk::lemma_fewer_rings(m, heap@);
                crate::xsk::memory::lemma_still_spared(m, heap@);
            }
        } else {
            proof {
                let n = heap@;
                assert(n.umems =~= m.umems.insert(u, m.umems[u].released_by(h.ticket())));
                assert forall|s: usize| #[trigger] n.sockets.contains_key(s) implies n.socket_ok(
                    heap.cons_users@,
                    heap.prod_users@,
                    s,
                ) by {
                    assert(m.socket_ok(heap.cons_users@, heap.prod_users@, s));
                    crate::table::handle_ext(m.sockets[s].value.umem.spec_handle(), h);
                }
                assert forall|v: usize| #[trigger] n.umems.contains_key(v) implies n.saved_ok(
                    heap.cons_users@,
                    heap.prod_users@,
                    v,
                ) by {
                    assert(m.saved_ok(heap.cons_users@, heap.prod_users@, v));
                }
                assert forall|v: usize, j: int|
                    #![trigger n.umems[v].value.ctxs[j]]
                    n.umems.contains_key(v) && 0 <= j
                        < n.umems[v].value.ctxs.len() implies n.ctx_ok(
                    heap.cons_users@,
                    heap.prod_users@,
                    v,
                    j,
                ) by {
                    assert(m.umems[v].value.ctxs[j] == n.umems[v].value.ctxs[j]);
                    assert(m.ctx_ok(heap.cons_users@, heap.prod_users@, v, j));
                }
            }
        }
    }
}

impl UmemInner {
    /// Gives up the rings of the UMEM in slot `u`, which has been deleted.
    /// `m` is what was alive before, used by `cons_users` and
    /// `prod_users`.
    fn free_rings(
        ctxs: Vec<Ctx>,
        heap: &mut Heap,
        Ghost(u): Ghost<usize>,
        Ghost(m): Ghost<Model>,
        Ghost(cu): Ghost<Map<usize, User>>,
        Ghost(pu): Ghost<Map<usize, User>>,
    )
        requires
            m.inv(cu, pu),
            m.umems.contains_key(u),
            m.umems[u].value.ctxs == ctxs@,
            m.umems[u].value.saved is None,
            forall|s: usize| #[trigger]
                m.sockets.contains_key(s) ==> m.sockets[s].value.umem.spec_handle().slot() != u,
            old(heap).tables_wf(),
            old(heap).roles_wf(),
            old(heap)@.cons == m.cons,
            old(heap)@.prod == m.prod,
            old(heap)@.sockets == m.sockets,
            old(heap)@.umems == m.umems.remove(u),
        ensures
            final(heap).tables_wf(),
            final(heap).roles_wf(),
            final(heap)@.inv(final(heap).cons_users@, final(heap).prod_users@),
            final(heap)@ == (Model {
                umems: m.umems.remove(u),
                cons: m.cons.remove_keys(crate::xsk::comp_slots(ctxs@)),
                prod: m.prod.remove_keys(crate::xsk::fill_slots(ctxs@)),
                actions: old(heap)@.actions + m.ctx_frees(ctxs@),
                ..m
            }),
    {
        let ghost before = *heap;
        let ghost all = ctxs@;
        let ghost start = heap.actions@;
        let mut ctxs = ctxs;
        let ghost mut i: int = 0;
        proof {
            assert(all.skip(0) =~= all);
            assert(m.cons.remove_keys(crate::xsk::comp_slots(all.take(0))) =~= m.cons);
            assert(m.prod.remove_keys(crate::xsk::fill_slots(all.take(0))) =~= m.prod);
            assert(start + m.ctx_frees(all.take(0)) =~= start);
        }
        while ctxs.len() > 0
            invariant
                m.inv(cu, pu),
                m.umems.contains_key(u),
                m.umems[u].value.ctxs == all,
                forall|s: usize| #[trigger]
                    m.sockets.contains_key(s) ==> m.sockets[s].value.umem.spec_handle().slot() != u,
                0 <= i <= all.len(),
                ctxs@ == all.skip(i),
                heap.tables_wf(),
                heap.cons@ == m.cons.remove_keys(crate::xsk::comp_slots(all.take(i))),
                heap.prod@ == m.prod.remove_keys(crate::xsk::fill_slots(all.take(i))),
                heap.sockets == before.sockets,
                heap.umems == before.umems,
                heap.actions@ == start + m.ctx_frees(all.take(i)),
            decreases ctxs.len(),
        {
            let ctx = ctxs.remove(0);
            let ghost f = ctx.fill.spec_handle();
            let ghost c = ctx.comp.spec_handle();
            proof {
                assert(ctx == all[i]);
                assert(m.umems[u].value.ctxs[i] == ctx);
                assert(m.ctx_ok(cu, pu, u, i));
                assert forall|j: int| 0 <= j < i implies #[trigger] all[j].fill.spec_handle().slot()
                    != f.slot() && all[j].comp.spec_handle().slot() != c.slot() by {
                    assert(m.umems[u].value.ctxs[j] == all[j]);
                    assert(m.ctx_ok(cu, pu, u, j));
                }
                assert(!crate::xsk::fill_slots(all.take(i)).contains(f.slot()));
                assert(!crate::xsk::comp_slots(all.take(i)).contains(c.slot()));
                assert(all.take(i + 1).drop_last() =~= all.take(i));
                crate::xsk::lemma_slots_taken(all, i);
            }
            if let Some(mem) = ctx.fill.drop(&mut heap.prod) {
                heap.actions.push(Action::FreeProd(mem));
            }
            if let Some(mem) = ctx.comp.drop(&mut heap.cons) {
                heap.actions.push(Action::FreeCons(mem));
            }
            proof {
                assert(heap.prod@ =~= m.prod.remove_keys(crate::xsk::fill_slots(all.take(i + 1))));
                assert(heap.cons@ =~= m.cons.remove_keys(crate::xsk::comp_slots(all.take(i + 1))));
                assert(heap.actions@ =~= start + m.ctx_frees(all.take(i + 1)));
                i = i + 1;
                assert(ctxs@ =~= all.skip(i));
            }
        }
        heap.cons_users = Ghost(cu.remove_keys(crate::xsk::comp_slots(all)));
        heap.prod_users = Ghost(pu.remove_keys(crate::xsk::fill_slots(all)));
        proof {
            assert(all.take(i) =~= all);
            let n = heap@;
            assert(heap.cons_users@.dom() =~= n.cons.dom());
            assert(heap.prod_users@.dom() =~= n.prod.dom());
            assert forall|r: usize| #[trigger]
                heap.cons_users@.contains_key(r) implies n.cons_user_ok(r, heap.cons_users@[r]) by {
                assert(cu.contains_key(r));
                if let User::Ctx(v, j) = cu[r] {
                    if v == u {
                        assert(all[j].comp.spec_handle().slot() == r);
                    }
                }
            }
            assert forall|r: usize| #[trigger]
                heap.prod_users@.contains_key(r) implies n.prod_user_ok(r, heap.prod_users@[r]) by {
                assert(pu.contains_key(r));
                if let User::Ctx(v, j) = pu[r] {
                    if v == u {
                        assert(all[j].fill.spec_handle().slot() == r);
                    }
                }
            }
            crate::xsk::lemma_ctx_users(m, cu, pu, u);
            assert forall|s: usize| #[trigger] n.sockets.contains_key(s) implies n.socket_ok(
                heap.cons_users@,
                heap.prod_users@,
                s,
            ) by {
                assert(m.socket_ok(cu, pu, s));
            }
            assert forall|v: usize| #[trigger] n.umems.contains_key(v) implies n.saved_ok(
                heap.cons_users@,
                heap.prod_users@,
                v,
            ) by {
                assert(m.saved_ok(cu, pu, v));
            }
            assert forall|v: usize, j: int|
                #![trigger n.umems[v].value.ctxs[j]]
                n.umems.contains_key(v) && 0 <= j < n.umems[v].value.ctxs.len() implies n.ctx_ok(
                heap.cons_users@,
                heap.prod_users@,
                v,
                j,
            ) by {
                assert(m.umems[v].value.ctxs[j] == n.umems[v].value.ctxs[j]);
                assert(m.ctx_ok(cu, pu, v, j));
            }
        }
    }
}

} // verus!

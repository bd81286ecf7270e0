//! The producer and consumer rings that libxdp is handed.
//!
//! libxdp does not copy the rings it is passed when creating a UMEM or
//! a socket, it retains the pointers and dereferences them again during
//! teardown to work out which memory to unmap. A ring must therefore
//! neither move nor be freed until libxdp is done with it, which is why
//! the rings live at a fixed address and are reference counted.
//!
//! Since whatever owns the socket or UMEM needs to keep the rings alive
//! but has no business reading them, sharing is done through the
//! access-free handles returned by `handle`.

use crate::table::{Handle, RefTable, Shared};
use vstd::prelude::*;

verus! {

/// What a ring structure of libxdp holds. The pointers stand here as
/// addresses, zero being the null pointer.
#[derive(Clone, Copy, Debug, PartialEq, Eq, Structural)]
pub struct XskRing {
    pub cached_prod: u32,
    pub cached_cons: u32,
    pub mask: u32,
    pub size: u32,
    pub producer: usize,
    pub consumer: usize,
    pub ring: usize,
    pub flags: usize,
}

impl XskRing {
    /// All counters are zero and all pointers are null.
    pub open spec fn zeroed() -> XskRing {
        XskRing {
            cached_prod: 0,
            cached_cons: 0,
            mask: 0,
            size: 0,
            producer: 0,
            consumer: 0,
            ring: 0,
            flags: 0,
        }
    }
}

impl Default for XskRing {
    /// A ring that libxdp has not set up.
    fn default() -> (ring: XskRing)
        ensures
            ring == XskRing::zeroed(),
    {
        XskRing {
            cached_prod: 0,
            cached_cons: 0,
            mask: 0,
            size: 0,
            producer: 0,
            consumer: 0,
            ring: 0,
            flags: 0,
        }
    }
}

/// A ring and the address of the memory it occupies.
pub struct RingCell {
    /// Where the ring is. This is the pointer that libxdp retains.
    pub mem: usize,
    /// What the ring was last seen to hold.
    pub ring: XskRing,
    /// The ticket of the one wrapper that may access the ring.
    pub owner: Ghost<nat>,
}

/// The rings of one kind that are alive.
pub type RingTable = RefTable<RingCell>;

/// The rings of a [`RingTable`], by slot.
pub type Rings = Map<usize, Shared<RingCell>>;

/// Whether `h` is the handle that a ring was created with, which is the
/// only one that grants access to it.
pub open spec fn grants_access(rings: Rings, h: Handle) -> bool {
    &&& crate::table::holds(rings, h)
    &&& rings[h.slot()].value.owner@ == h.ticket()
}

/// Whether one of the rings is at the address `mem`.
pub open spec fn has_address(rings: Rings, mem: usize) -> bool {
    exists|r: usize| #[trigger] rings.contains_key(r) && rings[r].value.mem == mem
}

/// Whether every ring has an address, which is not null, to itself.
pub open spec fn addressed(rings: Rings) -> bool {
    &&& forall|r: usize| #[trigger] rings.contains_key(r) ==> rings[r].value.mem != 0
    &&& forall|r: usize, s: usize|
        #![trigger rings.contains_key(r), rings.contains_key(s)]
        rings.contains_key(r) && rings.contains_key(s) && r != s ==> rings[r].value.mem
            != rings[s].value.mem
}

/// The rings once the one in slot `r` holds `ring`.
pub open spec fn written(rings: Rings, r: usize, ring: XskRing) -> Rings {
    rings.insert(
        r,
        Shared {
            value: RingCell { ring, ..rings[r].value },
            holders: rings[r].holders,
        },
    )
}

/// What a new ring does to the rings: it is in a slot of its own, zeroed and
/// at the address `mem`, and `h` is all that keeps it alive and what
/// grants access to it.
pub open spec fn created(before: &RingTable, after: &RingTable, h: Handle, mem: usize) -> bool {
    &&& after.wf()
    &&& after.next() == before.next() + 1
    &&& addressed(after@)
    &&& !before@.contains_key(h.slot())
    &&& h.ticket() == before.next()
    &&& grants_access(after@, h)
    &&& after@[h.slot()].value.mem == mem
    &&& after@[h.slot()].value.ring == XskRing::zeroed()
    &&& after@ == before@.insert(
        h.slot(),
        Shared { value: after@[h.slot()].value, holders: set![h.ticket()] },
    )
}

/// What taking another handle `r` on the ring that `h` keeps alive does to
/// the rings.
pub open spec fn retained(before: &RingTable, after: &RingTable, h: Handle, r: Handle) -> bool {
    &&& after.wf()
    &&& after.next() == before.next() + 1
    &&& addressed(before@) ==> addressed(after@)
    &&& r.slot() == h.slot()
    &&& r.ticket() == before.next()
    &&& after@ == before@.insert(h.slot(), before@[h.slot()].held_by(r.ticket()))
}

/// What giving up `h` does to the rings: the ring goes, and its address
/// is reported, exactly when `h` was all that kept it alive.
pub open spec fn released(
    before: &RingTable,
    after: &RingTable,
    h: Handle,
    freed: Option<usize>,
) -> bool {
    &&& after.wf()
    &&& after.next() == before.next()
    &&& addressed(before@) ==> addressed(after@)
    &&& if before@[h.slot()].last_holder(h.ticket()) {
        &&& freed == Some(before@[h.slot()].value.mem)
        &&& after@ == before@.remove(h.slot())
    } else {
        &&& freed is None
        &&& after@ == before@.insert(h.slot(), before@[h.slot()].released_by(h.ticket()))
    }
}

/// A consumer ring.
///
/// A ring is only ever accessed through the single `XskRingCons` that wraps
/// it: this type cannot be duplicated, and the handles returned by
/// [`handle`] grant no access to the ring.
///
/// [`handle`]: Self::handle
pub struct XskRingCons {
    handle: Handle,
}

impl XskRingCons {
    pub closed spec fn spec_handle(&self) -> Handle {
        self.handle
    }

    /// Whether this wrapper is the one that accesses a ring of `rings`.
    pub open spec fn owns(&self, rings: Rings) -> bool {
        grants_access(rings, self.spec_handle())
    }

    /// The ring of `rings` that this wrapper accesses.
    pub open spec fn cell(&self, rings: Rings) -> RingCell {
        rings[self.spec_handle().slot()].value
    }

    /// A new ring, which libxdp has not set up, in the memory at `mem`.
    ///
    /// The memory must have been allocated for this ring, so that no other
    /// ring is there.
    pub fn default(table: &mut RingTable, mem: usize) -> (ring: XskRingCons)
        requires
            old(table).wf(),
            addressed(old(table)@),
            mem != 0,
            !has_address(old(table)@, mem),
        ensures
            created(old(table), final(table), ring.spec_handle(), mem),
            ring.owns(final(table)@),
    {
        let owner: Ghost<nat> = Ghost(table.next());
        let ring = <XskRing as Default>::default();
        XskRingCons { handle: table.share(RingCell { mem, ring, owner }) }
    }

    /// A handle that keeps this ring's memory alive but grants no access
    /// to it.
    ///
    /// Should be held by whatever owns the socket or UMEM this ring was
    /// passed to, to guarantee the ring outlives libxdp's use of it.
    pub fn handle(&self, table: &mut RingTable) -> (handle: XskRingConsHandle)
        requires
            old(table).wf(),
            self.owns(old(table)@),
            old(table)@[self.spec_handle().slot()].holders.len() < usize::MAX,
        ensures
            retained(old(table), final(table), self.spec_handle(), handle.spec_handle()),
            self.owns(final(table)@),
            handle.keeps_alive(final(table)@),
            !grants_access(final(table)@, handle.spec_handle()),
    {
        broadcast use RefTable::lemma_wf;

        XskRingConsHandle { handle: table.retain(&self.handle) }
    }

    /// The address of the ring, for handing to libxdp.
    pub fn as_ptr(&self, table: &RingTable) -> (mem: usize)
        requires
            table.wf(),
            addressed(table@),
            self.owns(table@),
        ensures
            mem == self.cell(table@).mem,
            mem != 0,
    {
        table.get(&self.handle).mem
    }

    /// What the ring is known to hold, for updating. Takes the wrapper by
    /// mutable reference, so that nothing else accesses the ring meanwhile.
    pub fn as_mut<'a>(&'a mut self, table: &'a mut RingTable) -> (ring: &'a mut XskRing)
        requires
            old(table).wf(),
            old(self).owns(old(table)@),
        ensures
            *ring == old(self).cell(old(table)@).ring,
            *final(self) == *old(self),
            final(table).wf(),
            addressed(old(table)@) ==> addressed(final(table)@),
            final(table).next() == old(table).next(),
            final(table)@ == written(old(table)@, old(self).spec_handle().slot(), *final(ring)),
    {
        &mut table.get_mut(&self.handle).ring
    }

    /// What the ring is known to hold.
    pub fn as_ref<'a>(&'a self, table: &'a RingTable) -> (ring: &'a XskRing)
        requires
            table.wf(),
            self.owns(table@),
        ensures
            *ring == self.cell(table@).ring,
    {
        &table.get(&self.handle).ring
    }

    /// Whether libxdp has left the ring without descriptors.
    pub fn is_ring_null(&self, table: &RingTable) -> (b: bool)
        requires
            table.wf(),
            self.owns(table@),
        ensures
            b == (self.cell(table@).ring.ring == 0),
    {
        self.as_ref(table).ring == 0
    }

    /// Gives up the wrapper. Returns the address of the ring if nothing
    /// else keeps it alive, in which case its memory is to be freed.
    pub fn drop(self, table: &mut RingTable) -> (freed: Option<usize>)
        requires
            old(table).wf(),
            self.owns(old(table)@),
        ensures
            released(old(table), final(table), self.spec_handle(), freed),
    {
        match table.release(self.handle) {
            Some(cell) => Some(cell.mem),
            None => None,
        }
    }
}

/// Keeps an [`XskRingCons`]'s memory alive without granting any access to it.
pub struct XskRingConsHandle {
    handle: Handle,
}

impl XskRingConsHandle {
    pub closed spec fn spec_handle(&self) -> Handle {
        self.handle
    }

    /// Whether this handle keeps a ring of `rings` alive.
    pub open spec fn keeps_alive(&self, rings: Rings) -> bool {
        crate::table::holds(rings, self.spec_handle())
    }

    /// The address of the ring that the handle keeps alive. What is there
    /// may only be accessed through the wrapper.
    pub fn as_ptr(&self, table: &RingTable) -> (mem: usize)
        requires
            table.wf(),
            addressed(table@),
            self.keeps_alive(table@),
        ensures
            mem == table@[self.spec_handle().slot()].value.mem,
            mem != 0,
    {
        table.get(&self.handle).mem
    }

    /// Gives up the handle. Returns the address of the ring if nothing
    /// else keeps it alive, in which case its memory is to be freed.
    pub fn drop(self, table: &mut RingTable) -> (freed: Option<usize>)
        requires
            old(table).wf(),
            self.keeps_alive(old(table)@),
        ensures
            released(old(table), final(table), self.spec_handle(), freed),
    {
        match table.release(self.handle) {
            Some(cell) => Some(cell.mem),
            None => None,
        }
    }
}

/// A producer ring.
///
/// A ring is only ever accessed through the single `XskRingProd` that wraps
/// it: this type cannot be duplicated, and the handles returned by
/// [`handle`] grant no access to the ring.
///
/// [`handle`]: Self::handle
pub struct XskRingProd {
    handle: Handle,
}

impl XskRingProd {
    pub closed spec fn spec_handle(&self) -> Handle {
        self.handle
    }

    /// Whether this wrapper is the one that accesses a ring of `rings`.
    pub open spec fn owns(&self, rings: Rings) -> bool {
        grants_access(rings, self.spec_handle())
    }

    /// The ring of `rings` that this wrapper accesses.
    pub open spec fn cell(&self, rings: Rings) -> RingCell {
        rings[self.spec_handle().slot()].value
    }

    /// A new ring, which libxdp has not set up, in the memory at `mem`.
    ///
    /// The memory must have been allocated for this ring, so that no other
    /// ring is there.
    pub fn default(table: &mut RingTable, mem: usize) -> (ring: XskRingProd)
        requires
            old(table).wf(),
            addressed(old(table)@),
            mem != 0,
            !has_address(old(table)@, mem),
        ensures
            created(old(table), final(table), ring.spec_handle(), mem),
            ring.owns(final(table)@),
    {
        let owner: Ghost<nat> = Ghost(table.next());
        let ring = <XskRing as Default>::default();
        XskRingProd { handle: table.share(RingCell { mem, ring, owner }) }
    }

    /// A handle that keeps this ring's memory alive but grants no access
    /// to it.
    ///
    /// Should be held by whatever owns the socket or UMEM this ring was
    /// passed to, to guarantee the ring outlives libxdp's use of it.
    pub fn handle(&self, table: &mut RingTable) -> (handle: XskRingProdHandle)
        requires
            old(table).wf(),
            self.owns(old(table)@),
            old(table)@[self.spec_handle().slot()].holders.len() < usize::MAX,
        ensures
            retained(old(table), final(table), self.spec_handle(), handle.spec_handle()),
            self.owns(final(table)@),
            handle.keeps_alive(final(table)@),
            !grants_access(final(table)@, handle.spec_handle()),
    {
        broadcast use RefTable::lemma_wf;

        XskRingProdHandle { handle: table.retain(&self.handle) }
    }

    /// The address of the ring, for handing to libxdp.
    pub fn as_ptr(&self, table: &RingTable) -> (mem: usize)
        requires
            table.wf(),
            addressed(table@),
            self.owns(table@),
        ensures
            mem == self.cell(table@).mem,
            mem != 0,
    {
        table.get(&self.handle).mem
    }

    /// What the ring is known to hold, for updating. Takes the wrapper by
    /// mutable reference, so that nothing else accesses the ring meanwhile.
    pub fn as_mut<'a>(&'a mut self, table: &'a mut RingTable) -> (ring: &'a mut XskRing)
        requires
            old(table).wf(),
            old(self).owns(old(table)@),
        ensures
            *ring == old(self).cell(old(table)@).ring,
            *final(self) == *old(self),
            final(table).wf(),
            addressed(old(table)@) ==> addressed(final(table)@),
            final(table).next() == old(table).next(),
            final(table)@ == written(old(table)@, old(self).spec_handle().slot(), *final(ring)),
    {
        &mut table.get_mut(&self.handle).ring
    }

    /// What the ring is known to hold.
    pub fn as_ref<'a>(&'a self, table: &'a RingTable) -> (ring: &'a XskRing)
        requires
            table.wf(),
            self.owns(table@),
        ensures
            *ring == self.cell(table@).ring,
    {
        &table.get(&self.handle).ring
    }

    /// Whether libxdp has left the ring without descriptors.
    pub fn is_ring_null(&self, table: &RingTable) -> (b: bool)
        requires
            table.wf(),
            self.owns(table@),
        ensures
            b == (self.cell(table@).ring.ring == 0),
    {
        self.as_ref(table).ring == 0
    }

    /// Gives up the wrapper. Returns the address of the ring if nothing
    /// else keeps it alive, in which case its memory is to be freed.
    pub fn drop(self, table: &mut RingTable) -> (freed: Option<usize>)
        requires
            old(table).wf(),
            self.owns(old(table)@),
        ensures
            released(old(table), final(table), self.spec_handle(), freed),
    {
        match table.release(self.handle) {
            Some(cell) => Some(cell.mem),
            None => None,
        }
    }
}

/// Keeps an [`XskRingProd`]'s memory alive without granting any access to it.
pub struct XskRingProdHandle {
    handle: Handle,
}

impl XskRingProdHandle {
    pub closed spec fn spec_handle(&self) -> Handle {
        self.handle
    }

    /// Whether this handle keeps a ring of `rings` alive.
    pub open spec fn keeps_alive(&self, rings: Rings) -> bool {
        crate::table::holds(rings, self.spec_handle())
    }

    /// The address of the ring that the handle keeps alive. What is there
    /// may only be accessed through the wrapper.
    pub fn as_ptr(&self, table: &RingTable) -> (mem: usize)
        requires
            table.wf(),
            addressed(table@),
            self.keeps_alive(table@),
        ensures
            mem == table@[self.spec_handle().slot()].value.mem,
            mem != 0,
    {
        table.get(&self.handle).mem
    }

    /// Gives up the handle. Returns the address of the ring if nothing
    /// else keeps it alive, in which case its memory is to be freed.
    pub fn drop(self, table: &mut RingTable) -> (freed: Option<usize>)
        requires
            old(table).wf(),
            self.keeps_alive(old(table)@),
        ensures
            released(old(table), final(table), self.spec_handle(), freed),
    {
        match table.release(self.handle) {
            Some(cell) => Some(cell.mem),
            None => None,
        }
    }
}

} // verus!

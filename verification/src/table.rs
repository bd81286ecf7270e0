//! Reference counted objects, held in a table.
//!
//! A [`RefTable`] owns its objects and counts the [`Handle`]s that
//! keep each of them alive. An object leaves the table, and is given
//! back to the caller, when the last of its handles is released.

use vstd::prelude::*;

verus! {

/// An object of a table, together with the tickets of the handles that
/// keep it alive.
pub struct Shared<T> {
    pub value: T,
    pub holders: Set<nat>,
}

impl<T> Shared<T> {
    /// The same object with one holder more.
    pub open spec fn held_by(self, ticket: nat) -> Shared<T> {
        Shared { value: self.value, holders: self.holders.insert(ticket) }
    }

    /// The same object with one holder fewer.
    pub open spec fn released_by(self, ticket: nat) -> Shared<T> {
        Shared { value: self.value, holders: self.holders.remove(ticket) }
    }

    /// Whether `ticket` is all that keeps the object alive.
    pub open spec fn last_holder(self, ticket: nat) -> bool {
        self.holders == set![ticket]
    }
}

/// Keeps one object of a table alive.
///
/// A handle can be neither copied nor made up: it comes from
/// [`RefTable::share`] or [`RefTable::retain`], each time with a ticket
/// that no other handle of the table has ever had.
pub struct Handle {
    slot: usize,
    ticket: Ghost<nat>,
}

impl Handle {
    pub closed spec fn slot(&self) -> usize {
        self.slot
    }

    pub closed spec fn ticket(&self) -> nat {
        self.ticket@
    }
}

/// Whether `h` is one of the handles that keep an object of `objects`
/// alive.
pub open spec fn holds<T>(objects: Map<usize, Shared<T>>, h: Handle) -> bool {
    objects.contains_key(h.slot()) && objects[h.slot()].holders.contains(h.ticket())
}

/// A handle is its slot and its ticket.
pub proof fn handle_ext(a: Handle, b: Handle)
    ensures
        a == b <==> a.slot() == b.slot() && a.ticket() == b.ticket(),
{
}

struct Slot<T> {
    value: T,
    count: usize,
    holders: Ghost<Set<nat>>,
}

impl<T> Slot<T> {
    /// The count is the number of holders, which is not zero, and their
    /// tickets are before `next`.
    spec fn wf(&self, next: nat) -> bool {
        &&& self.holders@.finite()
        &&& self.count == self.holders@.len()
        &&& self.count > 0
        &&& forall|t: nat| #[trigger] self.holders@.contains(t) ==> t < next
    }
}

/// A table of reference counted objects.
pub struct RefTable<T> {
    slots: Vec<Option<Slot<T>>>,
    next: Ghost<nat>,
}

impl<T> View for RefTable<T> {
    type V = Map<usize, Shared<T>>;

    closed spec fn view(&self) -> Map<usize, Shared<T>> {
        Map::new(
            |k: usize| k < self.slots.len() && self.slots[k as int] is Some,
            |k: usize|
                Shared {
                    value: self.slots[k as int]->0.value,
                    holders: self.slots[k as int]->0.holders@,
                },
        )
    }
}

impl<T> RefTable<T> {
    /// The ticket that the next new handle gets.
    pub closed spec fn next(&self) -> nat {
        self.next@
    }

    /// The count of every object is the number of its holders, which is
    /// not zero, and no ticket is handed out twice.
    pub closed spec fn wf(&self) -> bool {
        forall|k: int|
            0 <= k < self.slots.len() && #[trigger] self.slots[k] is Some
                ==> self.slots[k]->0.wf(self.next@)
    }

    /// Tickets in use have been handed out before, and an object that
    /// is in the table has a holder.
    pub broadcast proof fn lemma_wf(&self, k: usize)
        requires
            self.wf(),
            #[trigger] self@.contains_key(k),
        ensures
            self@[k].holders.finite(),
            self@[k].holders.len() > 0,
            forall|t: nat| #[trigger] self@[k].holders.contains(t) ==> t < self.next(),
    {
        assert(self.slots[k as int] is Some);
    }

    /// A table without objects.
    pub fn new() -> (table: RefTable<T>)
        ensures
            table.wf(),
            table@ == Map::<usize, Shared<T>>::empty(),
    {
        let table = RefTable { slots: Vec::new(), next: Ghost(0) };
        assert(table@ =~= Map::<usize, Shared<T>>::empty());
        table
    }

    /// Puts an object into the table, kept alive by the handle that is
    /// returned.
    pub fn share(&mut self, value: T) -> (h: Handle)
        requires
            old(self).wf(),
        ensures
            final(self).wf(),
            !old(self)@.contains_key(h.slot()),
            h.ticket() == old(self).next(),
            final(self).next() == old(self).next() + 1,
            final(self)@ == old(self)@.insert(
                h.slot(),
                (Shared { value, holders: set![h.ticket()] }),
            ),
    {
        let ticket: Ghost<nat> = Ghost(self.next@);
        let entry = Some(Slot { value, count: 1, holders: Ghost(Set::empty().insert(ticket@)) });
        let mut i: usize = 0;
        while i < self.slots.len() && self.slots[i].is_some()
            invariant
                i <= self.slots.len(),
                *self == *old(self),
            decreases self.slots.len() - i,
        {
            i += 1;
        }
        if i < self.slots.len() {
            self.slots[i] = entry;
        } else {
            self.slots.push(entry);
        }
        self.next = Ghost(self.next@ + 1);
        proof {
            assert(self@ =~= old(self)@.insert(
                i,
                Shared { value, holders: set![ticket@] },
            ));
            assert forall|k: int|
                0 <= k < self.slots.len()
                    && #[trigger] self.slots[k] is Some implies self.slots[k]->0.wf(self.next@) by {
                if k != i {
                    assert(self.slots[k] == old(self).slots[k]);
                }
            }
        }
        Handle { slot: i, ticket }
    }

    /// Another handle on the object that `h` keeps alive.
    pub fn retain(&mut self, h: &Handle) -> (r: Handle)
        requires
            old(self).wf(),
            holds(old(self)@, *h),
            old(self)@[h.slot()].holders.len() < usize::MAX,
        ensures
            final(self).wf(),
            r.slot() == h.slot(),
            r.ticket() == old(self).next(),
            final(self).next() == old(self).next() + 1,
            final(self)@ == old(self)@.insert(h.slot(), old(self)@[h.slot()].held_by(r.ticket())),
    {
        let ticket: Ghost<nat> = Ghost(self.next@);
        let i = h.slot;
        assert(self.slots[i as int] is Some);
        if let Some(slot) = &mut self.slots[i] {
            slot.count += 1;
            slot.holders = Ghost(slot.holders@.insert(ticket@));
        }
        self.next = Ghost(self.next@ + 1);
        proof {
            assert(self@ =~= old(self)@.insert(i, old(self)@[i].held_by(ticket@)));
            assert forall|k: int|
                0 <= k < self.slots.len()
                    && #[trigger] self.slots[k] is Some implies self.slots[k]->0.wf(self.next@) by {
                assert(old(self).slots[k] is Some);
            }
        }
        Handle { slot: i, ticket }
    }

    /// Gives up a handle. The object is handed back when no other
    /// handle keeps it alive.
    pub fn release(&mut self, h: Handle) -> (r: Option<T>)
        requires
            old(self).wf(),
            holds(old(self)@, h),
        ensures
            final(self).wf(),
            final(self).next() == old(self).next(),
            r is Some <==> old(self)@[h.slot()].last_holder(h.ticket()),
            r matches Some(value) ==> {
                &&& value == old(self)@[h.slot()].value
                &&& final(self)@ == old(self)@.remove(h.slot())
            },
            r is None ==> final(self)@ == old(self)@.insert(
                h.slot(),
                old(self)@[h.slot()].released_by(h.ticket()),
            ),
    {
        let i = h.slot;
        assert(self.slots[i as int] is Some);
        let ghost held = self@[i].holders;
        let mut r = None;
        let mut entry = None;
        if let Some(slot) = self.slots[i].take() {
            if slot.count == 1 {
                r = Some(slot.value);
            } else {
                entry = Some(
                    Slot {
                        value: slot.value,
                        count: slot.count - 1,
                        holders: Ghost(slot.holders@.remove(h.ticket@)),
                    },
                );
            }
        }
        self.slots[i] = entry;
        proof {
            if held.len() == 1 {
                assert forall|t: nat| held.contains(t) implies t == h.ticket@ by {
                    if t != h.ticket@ {
                        assert(held.remove(h.ticket@).contains(t));
                    }
                }
                assert(held =~= set![h.ticket@]);
                assert(self@ =~= old(self)@.remove(i));
            } else {
                assert(self@ =~= old(self)@.insert(i, old(self)@[i].released_by(h.ticket@)));
                if held == set![h.ticket@] {
                    assert(held.len() == 1);
                }
            }
            assert forall|k: int|
                0 <= k < self.slots.len()
                    && #[trigger] self.slots[k] is Some implies self.slots[k]->0.wf(self.next@) by {
                assert(old(self).slots[k] is Some);
            }
        }
        r
    }

    /// The object that `h` keeps alive.
    pub fn get(&self, h: &Handle) -> (value: &T)
        requires
            self.wf(),
            holds(self@, *h),
        ensures
            *value == self@[h.slot()].value,
    {
        &self.slots[h.slot].as_ref().unwrap().value
    }

    /// Exclusive access to the object that `h` keeps alive.
    pub fn get_mut(&mut self, h: &Handle) -> (value: &mut T)
        requires
            old(self).wf(),
            holds(old(self)@, *h),
        ensures
            *value == old(self)@[h.slot()].value,
            final(self).wf(),
            final(self).next() == old(self).next(),
            final(self)@ == old(self)@.insert(
                h.slot(),
                (Shared { value: *final(value), holders: old(self)@[h.slot()].holders }),
            ),
    {
        &mut self.slots[h.slot].as_mut().unwrap().value
    }
}

} // verus!

//! A count of free slots that bounds how many screenshots are read at once.
use vstd::prelude::*;

verus! {

/// What taking a slot from `n` free ones gives: whether one was taken, and
/// how many are left free.
pub open spec fn after_acquire(n: u32) -> (bool, u32) {
    if n > 0 {
        (true, (n - 1) as u32)
    } else {
        (false, n)
    }
}

/// The free slots after giving one back to `n` free ones.
pub open spec fn after_release(n: u32) -> u32
    recommends
        n < u32::MAX,
{
    (n + 1) as u32
}

/// Free slots for concurrent work, out of a fixed number made at the start.
pub struct Permits {
    available: u32,
    capacity: u32,
}

impl View for Permits {
    /// (free slots, slots made at the start)
    type V = (u32, u32);

    closed spec fn view(&self) -> (u32, u32) {
        (self.available, self.capacity)
    }
}

impl Permits {
    #[verifier::type_invariant]
    spec fn never_over(self) -> bool {
        self.available <= self.capacity
    }

    /// `n` slots, all free.
    pub fn new(n: u32) -> (r: Permits)
        ensures
            r@ == (n, n),
    {
        Permits { available: n, capacity: n }
    }

    /// The number of free slots; never more than were made.
    pub fn available(&self) -> (r: u32)
        ensures
            r == self@.0,
            r <= self@.1,
    {
        proof {
            use_type_invariant(self);
        }
        self.available
    }

    /// The number of slots made at the start.
    pub fn capacity(&self) -> (r: u32)
        ensures
            r == self@.1,
    {
        self.capacity
    }

    /// Takes a slot if one is free; says whether it did.
    pub fn try_acquire(&mut self) -> (r: bool)
        ensures
            (r, final(self)@.0) == after_acquire(old(self)@.0),
            final(self)@.1 == old(self)@.1,
            final(self)@.0 <= final(self)@.1,
    {
        proof {
            use_type_invariant(&*self);
        }
        if self.available > 0 {
            self.available = self.available - 1;
            true
        } else {
            false
        }
    }

    /// Gives back a slot that was taken: one can only be given back while
    /// fewer than all are free.
    pub fn release(&mut self)
        requires
            old(self)@.0 < old(self)@.1,
        ensures
            final(self)@.0 == after_release(old(self)@.0),
            final(self)@.1 == old(self)@.1,
            final(self)@.0 <= final(self)@.1,
    {
        self.available = self.available + 1;
    }
}

/// Slot law: taking a slot and giving it back leaves as many free as before.
pub proof fn lemma_acquire_release(n: u32)
    requires
        after_acquire(n).0,
    ensures
        after_release(after_acquire(n).1) == n,
{
}

/// Slot law: a slot is taken exactly when one is free.
pub proof fn lemma_acquire_when_free(n: u32)
    ensures
        after_acquire(n).0 <==> n > 0,
        after_acquire(n).0 ==> after_acquire(n).1 == n - 1,
        !after_acquire(n).0 ==> after_acquire(n).1 == n,
{
}

/// What a reader does with the slots: tries to take one, or gives back
/// the one it holds.
pub enum SlotEvent {
    Take,
    GiveBack,
}

/// From `capacity` free slots, after `events`: the free slots and the
/// slots held by readers. None where a slot is given back while no reader
/// holds one.
pub open spec fn slots_after(capacity: u32, events: Seq<SlotEvent>) -> Option<(u32, nat)>
    decreases events.len(),
{
    if events.len() == 0 {
        Some((capacity, 0))
    } else {
        match slots_after(capacity, events.drop_last()) {
            None => None,
            Some((free, held)) => match events.last() {
                SlotEvent::Take => {
                    let (taken, left) = after_acquire(free);
                    Some((left, if taken { held + 1 } else { held }))
                },
                SlotEvent::GiveBack => if held == 0 {
                    None
                } else {
                    Some((after_release(free), (held - 1) as nat))
                },
            },
        }
    }
}

/// Slot law: over any run of takes and give-backs from `capacity` free
/// slots, the free slots and the slots held add up to `capacity`, so no
/// more than `capacity` readers hold a slot at once; and a reader that
/// holds a slot may always give it back (fewer than all are free).
pub proof fn lemma_slots_conserved(capacity: u32, events: Seq<SlotEvent>)
    requires
        slots_after(capacity, events) is Some,
    ensures
        ({
            let (free, held) = slots_after(capacity, events).unwrap();
            &&& free + held == capacity
            &&& held <= capacity
            &&& held > 0 ==> free < capacity
        }),
    decreases events.len(),
{
    if events.len() > 0 {
        lemma_slots_conserved(capacity, events.drop_last());
    }
}

} // verus!

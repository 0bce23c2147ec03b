use crate::input::In;
use crate::system::Event;
use vstd::prelude::*;

verus! {

/// Unbounded queue slot policy: holds every received event, in arrival order.
pub struct Unbounded<T: Event>(pub Vec<T>);

impl<T: Event> Default for Unbounded<T> {
    fn default() -> (r: Self)
        ensures
            r.0@ =~= Seq::<T>::empty(),
    {
        Unbounded(Vec::new())
    }
}

impl<T: Event> Unbounded<T> {
    /// How many events are queued.
    pub fn len(&self) -> (r: usize)
        ensures
            r == self.0@.len(),
    {
        self.0.len()
    }

    /// Read the queued event at `index`, oldest first.
    pub fn get(&self, index: usize) -> (r: &T)
        requires
            index < self.0@.len(),
        ensures
            *r == self.0@[index as int],
    {
        &self.0[index]
    }

    /// Remove and return every queued event, oldest first.
    pub fn take_all(&mut self) -> (r: Vec<T>)
        ensures
            r@ == old(self).0@,
            final(self).0@ =~= Seq::<T>::empty(),
    {
        let mut drained: Vec<T> = Vec::new();
        core::mem::swap(&mut drained, &mut self.0);
        drained
    }
}

impl<T: Event> In for Unbounded<T> {
    type Event = T;

    open spec fn buffered(&self) -> Seq<T> {
        self.0@
    }

    open spec fn buffered_after(&self, event: T) -> Seq<T> {
        self.0@.push(event)
    }

    open spec fn marks_dirty(&self, event: T) -> bool {
        true
    }

    fn push(&mut self, event: &T) -> (dirty: bool) {
        self.0.push(event.dup());
        true
    }
}

/// Unbounded ordering: events pushed into an unbounded slot are buffered in
/// arrival order.  The premises are exactly what three consecutive pushes of
/// `e1`, `e2`, `e3` into an initially empty slot establish.
pub proof fn lemma_unbounded_ordering<T: Event>(
    q0: Unbounded<T>,
    q1: Unbounded<T>,
    q2: Unbounded<T>,
    q3: Unbounded<T>,
    e1: T,
    e2: T,
    e3: T,
)
    requires
        q0.buffered() == Seq::<T>::empty(),
        q1.buffered() == q0.buffered_after(e1),
        q2.buffered() == q1.buffered_after(e2),
        q3.buffered() == q2.buffered_after(e3),
    ensures
        q3.buffered() =~= seq![e1, e2, e3],
{
}

} // verus!

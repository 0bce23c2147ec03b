use crate::input::In;
use crate::system::Event;
use vstd::prelude::*;

verus! {

/// Latch-last slot policy: holds at most one pending event, overwritten on
/// each push.
pub struct StoreLast<T: Event>(pub Option<T>);

impl<T: Event> Default for StoreLast<T> {
    fn default() -> (r: Self)
        ensures
            r.0 is None,
    {
        StoreLast(None)
    }
}

impl<T: Event> StoreLast<T> {
    pub fn new(event: T) -> (r: Self)
        ensures
            r.0 == Some(event),
    {
        StoreLast(Some(event))
    }

    pub fn try_get(&self) -> (r: Option<&T>)
        ensures
            match r {
                Some(e) => self.0 == Some(*e),
                None => self.0 is None,
            },
    {
        self.0.as_ref()
    }

    pub fn take(&mut self) -> (r: Option<T>)
        ensures
            r == old(self).0,
            final(self).0 is None,
    {
        self.0.take()
    }

    /// Get the stored value; the slot must hold one.
    pub fn get(&self) -> (r: &T)
        requires
            self.0 is Some,
        ensures
            self.0 == Some(*r),
    {
        match self.try_get() {
            Some(e) => e,
            None => unreached(),
        }
    }
}

impl<T: Event> In for StoreLast<T> {
    type Event = T;

    open spec fn buffered(&self) -> Seq<T> {
        match self.0 {
            Some(e) => seq![e],
            None => Seq::empty(),
        }
    }

    open spec fn buffered_after(&self, event: T) -> Seq<T> {
        seq![event]
    }

    open spec fn marks_dirty(&self, event: T) -> bool {
        true
    }

    fn push(&mut self, event: &T) -> (dirty: bool) {
        self.0 = Some(event.dup());
        true
    }
}

/// Latch-last overwrite: however many events a latch-last slot receives, only
/// the most recent one stays visible.  The premises are exactly what three
/// consecutive pushes of `e1`, `e2`, `e3` establish, from any starting state.
pub proof fn lemma_latch_last_overwrite<T: Event>(
    s0: StoreLast<T>,
    s1: StoreLast<T>,
    s2: StoreLast<T>,
    s3: StoreLast<T>,
    e1: T,
    e2: T,
    e3: T,
)
    requires
        s1.buffered() == s0.buffered_after(e1),
        s2.buffered() == s1.buffered_after(e2),
        s3.buffered() == s2.buffered_after(e3),
    ensures
        s3.0 == Some(e3),
        s3.buffered() =~= seq![e3],
{
    assert(s3.buffered() =~= seq![e3]);
    match s3.0 {
        Some(e) => {
            assert(s3.buffered()[0] == e);
        },
        None => {
            assert(s3.buffered().len() == 0);
        },
    }
}

} // verus!

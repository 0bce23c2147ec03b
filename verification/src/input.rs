use crate::system::Event;
use vstd::prelude::*;

verus! {

/// Unique id of an input set.
#[derive(Clone, Copy, Debug, PartialEq, Eq, Structural)]
pub struct InputSetId(pub u64);

impl InputSetId {
    pub fn new(raw: u64) -> (r: Self)
        ensures
            r.0 == raw,
    {
        InputSetId(raw)
    }
}

/// An input of a `Behaviour`: the buffering policy of one input position.
/// Pushing never fails; the returned flag says whether the push should mark
/// the owning input set dirty.
pub trait In: Sized {
    type Event: Event;

    /// The buffered events, oldest first.
    spec fn buffered(&self) -> Seq<Self::Event>;

    /// The buffer that results from receiving one more event.
    spec fn buffered_after(&self, event: Self::Event) -> Seq<Self::Event>;

    /// Whether receiving `event` marks the owning input set dirty.
    spec fn marks_dirty(&self, event: Self::Event) -> bool;

    /// Store one event according to this slot's policy.
    fn push(&mut self, event: &Self::Event) -> (dirty: bool)
        ensures
            final(self).buffered() == old(self).buffered_after(*event),
            dirty == old(self).marks_dirty(*event),
    ;
}

/// The input set of a `Behaviour`: all input positions of one node, with an
/// aggregate dirty flag and a process-unique identity.
pub trait InputSet<E: Event>: Sized {
    /// The set's identity.
    spec fn id_spec(&self) -> u64;

    /// The declared event-type tag of each slot, by position.
    spec fn tags_spec(&self) -> Seq<u64>;

    /// Whether any push marked the set dirty since the last reset.
    spec fn dirty_spec(&self) -> bool;

    /// Whether the slot table is internally consistent; the library's
    /// constructors establish this and every operation keeps it.
    spec fn slots_wf(&self) -> bool;

    /// The buffered events of each slot, by position, oldest first.
    spec fn slots_spec(&self) -> Seq<Seq<E>>;

    /// The slot buffers after one event lands in `pin`, as that pin's
    /// buffering policy defines it; slots other than `pin` keep their buffer.
    spec fn slots_pushed(&self, pin: int, event: E) -> Seq<Seq<E>>;

    /// Whether the policy at `pin` asks that receiving `event` mark the
    /// whole set dirty.
    spec fn push_marks(&self, pin: int, event: E) -> bool;

    fn id(&self) -> (r: InputSetId)
        ensures
            r.0 == self.id_spec(),
    ;

    /// Give the set its identity; done once, at registration time.
    fn assign_id(&mut self, id: InputSetId)
        ensures
            final(self).id_spec() == id.0,
            final(self).tags_spec() == old(self).tags_spec(),
            final(self).dirty_spec() == old(self).dirty_spec(),
            final(self).slots_spec() == old(self).slots_spec(),
            final(self).slots_wf() == old(self).slots_wf(),
    ;

    /// The declared event-type tag of the slot at `pin`, or `None` for an
    /// unknown pin.
    fn tag_of(&self, pin: usize) -> (r: Option<u64>)
        ensures
            match r {
                Some(tag) => pin < self.tags_spec().len() && tag == self.tags_spec()[pin as int],
                None => pin >= self.tags_spec().len(),
            },
    ;

    /// Deliver an erased event, tagged with its event type, to the slot at
    /// `pin`: the slot buffers it by its own policy, and the policy's verdict
    /// is ORed into the set's dirty flag.  Indexing an unknown pin, or
    /// delivering under a tag that differs from the slot's declared one, is a
    /// contract violation, not a recoverable condition: callers check first.
    fn push(&mut self, pin: usize, tag: u64, event: &E)
        requires
            old(self).slots_wf(),
            pin < old(self).tags_spec().len(),
            tag == old(self).tags_spec()[pin as int],
        ensures
            final(self).id_spec() == old(self).id_spec(),
            final(self).tags_spec() == old(self).tags_spec(),
            final(self).slots_wf(),
            final(self).slots_spec() == old(self).slots_pushed(pin as int, *event),
            final(self).dirty_spec() == (old(self).dirty_spec() || old(self).push_marks(
                pin as int,
                *event,
            )),
    ;

    /// Whether events were submitted since the last reset.
    fn is_dirty(&self) -> (r: bool)
        ensures
            r == self.dirty_spec(),
    ;

    /// Clear the dirty flag; the slot buffers survive untouched.
    fn reset_dirty(&mut self)
        ensures
            final(self).id_spec() == old(self).id_spec(),
            final(self).tags_spec() == old(self).tags_spec(),
            final(self).slots_spec() == old(self).slots_spec(),
            final(self).slots_wf() == old(self).slots_wf(),
            !final(self).dirty_spec(),
    ;
}

/// Dynamic set of inputs constructed programmatically: any number of slots of
/// one policy type, each with its own declared event-type tag.
pub struct DynamicInputSet<I: In> {
    pub id: InputSetId,
    pub tags: Vec<u64>,
    pub inputs: Vec<I>,
    pub dirty: bool,
}

impl<I: In> DynamicInputSet<I> {
    /// A well-formed set holds one declared tag per slot.
    pub open spec fn wf(&self) -> bool {
        self.tags@.len() == self.inputs@.len()
    }

    pub fn new() -> (r: Self)
        ensures
            r.id.0 == 0,
            r.tags@ =~= Seq::<u64>::empty(),
            r.inputs@ =~= Seq::<I>::empty(),
            !r.dirty,
            r.wf(),
    {
        DynamicInputSet { id: InputSetId(0), tags: Vec::new(), inputs: Vec::new(), dirty: false }
    }

    /// Add one slot with the given declared event-type tag; returns the new
    /// slot's pin index.
    pub fn add(&mut self, tag: u64, input: I) -> (pin: usize)
        requires
            old(self).wf(),
        ensures
            final(self).wf(),
            pin == old(self).inputs@.len(),
            final(self).tags@ == old(self).tags@.push(tag),
            final(self).inputs@ == old(self).inputs@.push(input),
            final(self).id == old(self).id,
            final(self).dirty == old(self).dirty,
    {
        let pin = self.inputs.len();
        self.tags.push(tag);
        self.inputs.push(input);
        pin
    }
}

impl<I: In> InputSet<<I as In>::Event> for DynamicInputSet<I> {
    open spec fn id_spec(&self) -> u64 {
        self.id.0
    }

    open spec fn tags_spec(&self) -> Seq<u64> {
        self.tags@
    }

    open spec fn dirty_spec(&self) -> bool {
        self.dirty
    }

    open spec fn slots_wf(&self) -> bool {
        self.wf()
    }

    open spec fn slots_spec(&self) -> Seq<Seq<<I as In>::Event>> {
        self.inputs@.map(|i: int, slot: I| slot.buffered())
    }

    open spec fn slots_pushed(&self, pin: int, event: <I as In>::Event) -> Seq<
        Seq<<I as In>::Event>,
    > {
        self.slots_spec().update(pin, self.inputs@[pin].buffered_after(event))
    }

    open spec fn push_marks(&self, pin: int, event: <I as In>::Event) -> bool {
        self.inputs@[pin].marks_dirty(event)
    }

    fn id(&self) -> (r: InputSetId) {
        self.id
    }

    fn assign_id(&mut self, id: InputSetId) {
        self.id = id;
    }

    fn tag_of(&self, pin: usize) -> (r: Option<u64>) {
        if pin < self.tags.len() {
            Some(self.tags[pin])
        } else {
            None
        }
    }

    fn push(&mut self, pin: usize, tag: u64, event: &<I as In>::Event) {
        let slot = &mut self.inputs[pin];
        let marked = slot.push(event);
        self.dirty = self.dirty || marked;
        proof {
            assert(self.slots_spec() =~= old(self).slots_pushed(pin as int, *event));
        }
    }

    fn is_dirty(&self) -> (r: bool) {
        self.dirty
    }

    fn reset_dirty(&mut self) {
        self.dirty = false;
    }
}

/// Static definition of a set with a single input position.
pub struct FixedInputSet<I: In> {
    pub id: InputSetId,
    pub tag: u64,
    pub input: I,
    pub dirty: bool,
}

impl<I: In> FixedInputSet<I> {
    pub fn new(tag: u64, input: I) -> (r: Self)
        ensures
            r.id.0 == 0,
            r.tag == tag,
            r.input == input,
            !r.dirty,
    {
        FixedInputSet { id: InputSetId(0), tag, input, dirty: false }
    }
}

impl<I: In> InputSet<<I as In>::Event> for FixedInputSet<I> {
    open spec fn id_spec(&self) -> u64 {
        self.id.0
    }

    open spec fn tags_spec(&self) -> Seq<u64> {
        seq![self.tag]
    }

    open spec fn dirty_spec(&self) -> bool {
        self.dirty
    }

    open spec fn slots_wf(&self) -> bool {
        true
    }

    open spec fn slots_spec(&self) -> Seq<Seq<<I as In>::Event>> {
        seq![self.input.buffered()]
    }

    open spec fn slots_pushed(&self, pin: int, event: <I as In>::Event) -> Seq<
        Seq<<I as In>::Event>,
    > {
        self.slots_spec().update(pin, self.input.buffered_after(event))
    }

    open spec fn push_marks(&self, pin: int, event: <I as In>::Event) -> bool {
        self.input.marks_dirty(event)
    }

    fn id(&self) -> (r: InputSetId) {
        self.id
    }

    fn assign_id(&mut self, id: InputSetId) {
        self.id = id;
    }

    fn tag_of(&self, pin: usize) -> (r: Option<u64>) {
        if pin == 0 {
            Some(self.tag)
        } else {
            None
        }
    }

    fn push(&mut self, pin: usize, tag: u64, event: &<I as In>::Event) {
        let marked = self.input.push(event);
        self.dirty = self.dirty || marked;
        proof {
            assert(self.slots_spec() =~= old(self).slots_pushed(0, *event));
        }
    }

    fn is_dirty(&self) -> (r: bool) {
        self.dirty
    }

    fn reset_dirty(&mut self) {
        self.dirty = false;
    }
}

/// Type-erased handle to an input position: the target set's id, the pin
/// index within it, and the event-type tag claimed for that pin.  The handle
/// is non-owning: delivery through a handle whose set has vanished is a
/// silent no-op.
#[derive(Clone, Copy, Debug, PartialEq, Eq, Structural)]
pub struct InHandle {
    pub input_set: InputSetId,
    pub event_type: u64,
    pub pin_id: usize,
}

impl InHandle {
    pub fn new(input_set: InputSetId, pin_id: usize, event_type: u64) -> (r: Self)
        ensures
            r.input_set == input_set,
            r.pin_id == pin_id,
            r.event_type == event_type,
    {
        InHandle { input_set, event_type, pin_id }
    }

    pub fn event_type_id(&self) -> (r: u64)
        ensures
            r == self.event_type,
    {
        self.event_type
    }
}

/// Handle to an input position whose event-type tag was fixed when the pin
/// layout was built; the sanctioned way to obtain a well-tagged `InHandle`.
#[derive(Clone, Copy, Debug, PartialEq, Eq, Structural)]
pub struct TypedInHandle {
    pub handle: InHandle,
}

impl TypedInHandle {
    pub fn new(input_set: InputSetId, pin_id: usize, event_type: u64) -> (r: Self)
        ensures
            r.handle == (InHandle { input_set, event_type, pin_id }),
    {
        TypedInHandle { handle: InHandle::new(input_set, pin_id, event_type) }
    }

    pub fn handle(&self) -> (r: &InHandle)
        ensures
            r == self.handle,
    {
        &self.handle
    }
}

} // verus!

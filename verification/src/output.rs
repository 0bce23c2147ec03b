use crate::error::Error;
use crate::input::InHandle;
use crate::system::Event;
use vstd::prelude::*;

verus! {

/// Unique id of an output set.
#[derive(Clone, Copy, Debug, PartialEq, Eq, Structural)]
pub struct OutputSetId(pub u64);

impl OutputSetId {
    pub fn new(raw: u64) -> (r: Self)
        ensures
            r.0 == raw,
    {
        OutputSetId(raw)
    }
}

/// Mathematical model of one output pin: its declared event-type tag, the
/// listeners registered on it in registration order, and the events sent on
/// it that are still awaiting delivery, in send order.
#[verifier::ext_equal]
pub struct OutView<E> {
    pub event_type: u64,
    pub listeners: Seq<InHandle>,
    pub pending: Seq<E>,
}

/// One delivery per listener, in registration order, of one event.
pub open spec fn row<E>(listeners: Seq<InHandle>, event: E) -> Seq<(InHandle, E)>
    decreases listeners.len(),
{
    if listeners.len() == 0 {
        Seq::empty()
    } else {
        seq![(listeners[0], event)] + row(listeners.drop_first(), event)
    }
}

/// The deliveries produced by a list of pending events: for each event in
/// send order, one delivery per listener in registration order.
pub open spec fn fanout<E>(listeners: Seq<InHandle>, pending: Seq<E>) -> Seq<(InHandle, E)>
    decreases pending.len(),
{
    if pending.len() == 0 {
        Seq::empty()
    } else {
        row(listeners, pending[0]) + fanout(listeners, pending.drop_first())
    }
}

/// The deliveries of a whole output set, pin by pin.
pub open spec fn deliveries_of<E>(pins: Seq<OutView<E>>) -> Seq<(InHandle, E)>
    decreases pins.len(),
{
    if pins.len() == 0 {
        Seq::empty()
    } else {
        fanout(pins[0].listeners, pins[0].pending) + deliveries_of(pins.drop_first())
    }
}

/// The same pins with every pending buffer emptied.
pub open spec fn cleared<E>(pins: Seq<OutView<E>>) -> Seq<OutView<E>> {
    pins.map(
        |i: int, p: OutView<E>|
            (OutView { event_type: p.event_type, listeners: p.listeners, pending: Seq::empty() }),
    )
}

proof fn lemma_row_snoc<E>(listeners: Seq<InHandle>, h: InHandle, event: E)
    ensures
        row(listeners.push(h), event) =~= row(listeners, event).push((h, event)),
    decreases listeners.len(),
{
    if listeners.len() == 0 {
        assert(listeners.push(h).drop_first() =~= listeners);
    } else {
        assert(listeners.push(h).drop_first() =~= listeners.drop_first().push(h));
        lemma_row_snoc(listeners.drop_first(), h, event);
    }
}

proof fn lemma_fanout_snoc<E>(listeners: Seq<InHandle>, pending: Seq<E>, event: E)
    ensures
        fanout(listeners, pending.push(event)) =~= fanout(listeners, pending) + row(
            listeners,
            event,
        ),
    decreases pending.len(),
{
    if pending.len() == 0 {
        assert(pending.push(event).drop_first() =~= pending);
    } else {
        assert(pending.push(event).drop_first() =~= pending.drop_first().push(event));
        lemma_fanout_snoc(listeners, pending.drop_first(), event);
    }
}

proof fn lemma_deliveries_snoc<E>(pins: Seq<OutView<E>>, pin: OutView<E>)
    ensures
        deliveries_of(pins.push(pin)) =~= deliveries_of(pins) + fanout(pin.listeners, pin.pending),
    decreases pins.len(),
{
    if pins.len() == 0 {
        assert(pins.push(pin).drop_first() =~= pins);
    } else {
        assert(pins.push(pin).drop_first() =~= pins.drop_first().push(pin));
        lemma_deliveries_snoc(pins.drop_first(), pin);
    }
}

/// An output of a `Behaviour`: one output pin with its fan-out list.  Sending
/// buffers the event for delivery to every registered listener; the system
/// performs the deliveries when it drains the pin during a propagation round.
pub struct Out<T: Event> {
    pub event_type: u64,
    pub listeners: Vec<InHandle>,
    pub pending: Vec<T>,
}

impl<T: Event> View for Out<T> {
    type V = OutView<T>;

    open spec fn view(&self) -> OutView<T> {
        OutView { event_type: self.event_type, listeners: self.listeners@, pending: self.pending@ }
    }
}

impl<T: Event> Out<T> {
    pub fn new(event_type: u64) -> (r: Self)
        ensures
            r@ == (OutView::<T> {
                event_type,
                listeners: Seq::empty(),
                pending: Seq::empty(),
            }),
    {
        Out { event_type, listeners: Vec::new(), pending: Vec::new() }
    }

    pub fn event_type_id(&self) -> (r: u64)
        ensures
            r == self.event_type,
    {
        self.event_type
    }

    /// Queue one event for every registered listener.
    pub fn send(&mut self, event: &T)
        ensures
            final(self)@ == (OutView {
                pending: old(self)@.pending.push(*event),
                ..old(self)@
            }),
    {
        let copy = event.dup();
        self.pending.push(copy);
    }

    /// Queue one erased event, checking its tag against this pin's declared
    /// event type; a mismatch changes nothing.
    pub fn send_any(&mut self, tag: u64, event: &T) -> (r: Result<(), Error>)
        ensures
            tag == old(self).event_type ==> r is Ok && final(self)@ == (OutView {
                pending: old(self)@.pending.push(*event),
                ..old(self)@
            }),
            tag != old(self).event_type ==> r == Err::<(), Error>(Error::UnexpectedEventType)
                && *final(self) == *old(self),
    {
        if tag == self.event_type {
            self.send(event);
            Ok(())
        } else {
            Err(Error::UnexpectedEventType)
        }
    }

    /// Register a listener, checking the handle's claimed event type against
    /// this pin's declared one; on a mismatch nothing is registered.
    pub fn connect_any(&mut self, handle: InHandle) -> (r: Result<(), Error>)
        ensures
            handle.event_type == old(self).event_type ==> r is Ok && final(self)@ == (OutView {
                listeners: old(self)@.listeners.push(handle),
                ..old(self)@
            }),
            handle.event_type != old(self).event_type ==> r == Err::<(), Error>(
                Error::UnexpectedEventType,
            ) && *final(self) == *old(self),
    {
        if handle.event_type_id() == self.event_type {
            self.listeners.push(handle);
            Ok(())
        } else {
            Err(Error::UnexpectedEventType)
        }
    }

    /// Empty the pending buffer into the list of deliveries it owes: for each
    /// pending event in send order, one copy per listener in registration
    /// order.
    pub fn drain(&mut self) -> (ds: Vec<(InHandle, T)>)
        ensures
            ds@ == fanout(old(self)@.listeners, old(self)@.pending),
            final(self)@ == (OutView { pending: Seq::empty(), ..old(self)@ }),
    {
        let mut ds: Vec<(InHandle, T)> = Vec::new();
        let mut i: usize = 0;
        while i < self.pending.len()
            invariant
                i <= self.pending@.len(),
                *self == *old(self),
                ds@ =~= fanout(self@.listeners, self@.pending.take(i as int)),
            decreases self.pending@.len() - i,
        {
            let ghost row_done = ds@;
            let mut j: usize = 0;
            while j < self.listeners.len()
                invariant
                    i < self.pending@.len(),
                    j <= self.listeners@.len(),
                    *self == *old(self),
                    ds@ =~= row_done + row(
                        self@.listeners.take(j as int),
                        self@.pending[i as int],
                    ),
                decreases self.listeners@.len() - j,
            {
                let handle = self.listeners[j];
                let copy = self.pending[i].dup();
                ds.push((handle, copy));
                proof {
                    assert(self@.listeners.take(j + 1) =~= self@.listeners.take(j as int).push(
                        self@.listeners[j as int],
                    ));
                    lemma_row_snoc(
                        self@.listeners.take(j as int),
                        self@.listeners[j as int],
                        self@.pending[i as int],
                    );
                }
                j = j + 1;
            }
            proof {
                assert(self@.listeners.take(self@.listeners.len() as int) =~= self@.listeners);
                assert(self@.pending.take(i + 1) =~= self@.pending.take(i as int).push(
                    self@.pending[i as int],
                ));
                lemma_fanout_snoc(
                    self@.listeners,
                    self@.pending.take(i as int),
                    self@.pending[i as int],
                );
            }
            i = i + 1;
        }
        proof {
            assert(self@.pending.take(self@.pending.len() as int) =~= self@.pending);
        }
        self.pending.clear();
        ds
    }
}

/// The output set of a `Behaviour`: all output positions of one node, with a
/// process-unique identity.
pub trait OutputSet<E: Event>: Sized {
    /// The set's identity.
    spec fn id_spec(&self) -> u64;

    /// The model of each output pin, by position.
    spec fn pins_spec(&self) -> Seq<OutView<E>>;

    fn id(&self) -> (r: OutputSetId)
        ensures
            r.0 == self.id_spec(),
    ;

    /// Give the set its identity; done once, at registration time.
    fn assign_id(&mut self, id: OutputSetId)
        ensures
            final(self).id_spec() == id.0,
            final(self).pins_spec() == old(self).pins_spec(),
    ;

    /// The declared event-type tag of the pin, or `None` for an unknown pin.
    fn pin_tag(&self, pin: usize) -> (r: Option<u64>)
        ensures
            match r {
                Some(tag) => pin < self.pins_spec().len() && tag == self.pins_spec()[
                    pin as int
                ].event_type,
                None => pin >= self.pins_spec().len(),
            },
    ;

    /// Register a listener on the pin after checking the handle's claimed
    /// event type against the pin's declared one; a failed connect registers
    /// nothing.  Indexing a pin outside the set's declared arity is a
    /// contract violation, not a recoverable condition: callers check first.
    fn connect(&mut self, pin: usize, in_handle: InHandle) -> (r: Result<(), Error>)
        requires
            pin < old(self).pins_spec().len(),
        ensures
            final(self).id_spec() == old(self).id_spec(),
            in_handle.event_type == old(self).pins_spec()[pin as int].event_type ==> r is Ok
                && final(self).pins_spec() == old(self).pins_spec().update(
                pin as int,
                (OutView {
                    event_type: old(self).pins_spec()[pin as int].event_type,
                    listeners: old(self).pins_spec()[pin as int].listeners.push(in_handle),
                    pending: old(self).pins_spec()[pin as int].pending,
                }),
            ),
            in_handle.event_type != old(self).pins_spec()[pin as int].event_type ==> r == Err::<
                (),
                Error,
            >(Error::UnexpectedEventType) && final(self).pins_spec() == old(self).pins_spec(),
    ;

    /// Empty every pin's pending buffer into one list of deliveries, pin by
    /// pin.
    fn drain(&mut self) -> (ds: Vec<(InHandle, E)>)
        ensures
            final(self).id_spec() == old(self).id_spec(),
            final(self).pins_spec() == cleared(old(self).pins_spec()),
            ds@ == deliveries_of(old(self).pins_spec()),
    ;
}

/// Dynamic set of outputs constructed programmatically.
pub struct DynamicOutSet<E: Event> {
    pub set_id: OutputSetId,
    pub outputs: Vec<Out<E>>,
}

impl<E: Event> DynamicOutSet<E> {
    pub fn new() -> (r: Self)
        ensures
            r.set_id.0 == 0,
            r.pins_spec() =~= Seq::<OutView<E>>::empty(),
    {
        DynamicOutSet { set_id: OutputSetId(0), outputs: Vec::new() }
    }

    /// Add one output pin with the given declared event-type tag; returns the
    /// new pin's index.
    pub fn add(&mut self, event_type: u64) -> (pin: usize)
        ensures
            pin == old(self).pins_spec().len(),
            final(self).set_id == old(self).set_id,
            final(self).pins_spec() =~= old(self).pins_spec().push(
                (OutView { event_type, listeners: Seq::empty(), pending: Seq::empty() }),
            ),
    {
        let pin = self.outputs.len();
        self.outputs.push(Out::new(event_type));
        pin
    }

    /// Resolve a typed handle to the output pin it names: the handle must
    /// carry this set's id, a known pin index, and that pin's declared event
    /// type.
    pub fn get(&self, handle: &TypedOutHandle) -> (r: Option<&Out<E>>)
        ensures
            match r {
                Some(out) => handle.handle.set_id == self.set_id && handle.handle.pin_id
                    < self.outputs@.len() && *out == self.outputs@[handle.handle.pin_id as int]
                    && handle.handle.event_type == out.event_type,
                None => handle.handle.set_id != self.set_id || handle.handle.pin_id
                    >= self.outputs@.len() || handle.handle.event_type != self.outputs@[
                    handle.handle.pin_id as int
                ].event_type,
            },
    {
        if handle.handle.set_id.0 == self.set_id.0 && handle.handle.pin_id < self.outputs.len() {
            let out = &self.outputs[handle.handle.pin_id];
            if handle.handle.event_type == out.event_type {
                Some(out)
            } else {
                None
            }
        } else {
            None
        }
    }
}

impl<E: Event> OutputSet<E> for DynamicOutSet<E> {
    open spec fn id_spec(&self) -> u64 {
        self.set_id.0
    }

    open spec fn pins_spec(&self) -> Seq<OutView<E>> {
        self.outputs@.map(|i: int, o: Out<E>| o@)
    }

    fn id(&self) -> (r: OutputSetId) {
        self.set_id
    }

    fn assign_id(&mut self, id: OutputSetId) {
        self.set_id = id;
        proof {
            assert(self.pins_spec() =~= old(self).pins_spec());
        }
    }

    fn pin_tag(&self, pin: usize) -> (r: Option<u64>) {
        if pin < self.outputs.len() {
            Some(self.outputs[pin].event_type)
        } else {
            None
        }
    }

    fn connect(&mut self, pin: usize, in_handle: InHandle) -> (r: Result<(), Error>) {
        let out = &mut self.outputs[pin];
        let r = out.connect_any(in_handle);
        proof {
            if in_handle.event_type == old(self).pins_spec()[pin as int].event_type {
                assert(self.pins_spec() =~= old(self).pins_spec().update(
                    pin as int,
                    (OutView {
                        event_type: old(self).pins_spec()[pin as int].event_type,
                        listeners: old(self).pins_spec()[pin as int].listeners.push(in_handle),
                        pending: old(self).pins_spec()[pin as int].pending,
                    }),
                ));
            } else {
                assert(self.pins_spec() =~= old(self).pins_spec());
            }
        }
        r
    }

    fn drain(&mut self) -> (ds: Vec<(InHandle, E)>) {
        let mut ds: Vec<(InHandle, E)> = Vec::new();
        let mut i: usize = 0;
        while i < self.outputs.len()
            invariant
                i <= self.outputs@.len(),
                self.outputs@.len() == old(self).outputs@.len(),
                self.set_id == old(self).set_id,
                forall|k: int|
                    0 <= k < i ==> #[trigger] self.outputs@[k]@ == (OutView {
                        event_type: old(self).outputs@[k]@.event_type,
                        listeners: old(self).outputs@[k]@.listeners,
                        pending: Seq::<E>::empty(),
                    }),
                forall|k: int|
                    i <= k < self.outputs@.len() ==> #[trigger] self.outputs@[k] == old(
                        self,
                    ).outputs@[k],
                ds@ =~= deliveries_of(old(self).pins_spec().take(i as int)),
            decreases self.outputs@.len() - i,
        {
            proof {
                assert(old(self).pins_spec().take(i + 1) =~= old(self).pins_spec().take(
                    i as int,
                ).push(old(self).outputs@[i as int]@));
                lemma_deliveries_snoc(
                    old(self).pins_spec().take(i as int),
                    old(self).outputs@[i as int]@,
                );
            }
            let ghost prev = self.outputs@[i as int];
            let out = &mut self.outputs[i];
            let mut chunk = out.drain();
            ds.append(&mut chunk);
            proof {
                assert(prev == old(self).outputs@[i as int]);
            }
            i = i + 1;
        }
        proof {
            assert(old(self).pins_spec().take(old(self).pins_spec().len() as int) =~= old(
                self,
            ).pins_spec());
            assert(self.pins_spec() =~= cleared(old(self).pins_spec()));
        }
        ds
    }
}

/// Static definition of a set of outputs; `O` is either `()` for a node with
/// no outputs, or a single output pin `Out<T>`.
pub struct FixedOutSet<O> {
    pub id: OutputSetId,
    pub outputs: O,
}

impl<O> FixedOutSet<O> {
    pub fn new(outputs: O) -> (r: Self)
        ensures
            r.id.0 == 0,
            r.outputs == outputs,
    {
        FixedOutSet { id: OutputSetId(0), outputs }
    }
}

impl<E: Event> OutputSet<E> for FixedOutSet<()> {
    open spec fn id_spec(&self) -> u64 {
        self.id.0
    }

    open spec fn pins_spec(&self) -> Seq<OutView<E>> {
        Seq::empty()
    }

    fn id(&self) -> (r: OutputSetId) {
        self.id
    }

    fn assign_id(&mut self, id: OutputSetId) {
        self.id = id;
    }

    fn pin_tag(&self, pin: usize) -> (r: Option<u64>) {
        None
    }

    fn connect(&mut self, pin: usize, in_handle: InHandle) -> (r: Result<(), Error>) {
        // a set with no pins has no pin to connect to
        unreached()
    }

    fn drain(&mut self) -> (ds: Vec<(InHandle, E)>) {
        Vec::new()
    }
}

impl<E: Event> OutputSet<E> for FixedOutSet<Out<E>> {
    open spec fn id_spec(&self) -> u64 {
        self.id.0
    }

    open spec fn pins_spec(&self) -> Seq<OutView<E>> {
        seq![self.outputs@]
    }

    fn id(&self) -> (r: OutputSetId) {
        self.id
    }

    fn assign_id(&mut self, id: OutputSetId) {
        self.id = id;
    }

    fn pin_tag(&self, pin: usize) -> (r: Option<u64>) {
        if pin == 0 {
            Some(self.outputs.event_type)
        } else {
            None
        }
    }

    fn connect(&mut self, pin: usize, in_handle: InHandle) -> (r: Result<(), Error>) {
        let r = self.outputs.connect_any(in_handle);
        proof {
            if in_handle.event_type == old(self).pins_spec()[0].event_type {
                assert(self.pins_spec() =~= old(self).pins_spec().update(
                    0,
                    (OutView {
                        event_type: old(self).pins_spec()[0].event_type,
                        listeners: old(self).pins_spec()[0].listeners.push(in_handle),
                        pending: old(self).pins_spec()[0].pending,
                    }),
                ));
            }
        }
        r
    }

    fn drain(&mut self) -> (ds: Vec<(InHandle, E)>) {
        let ds = self.outputs.drain();
        proof {
            assert(deliveries_of(old(self).pins_spec()) =~= fanout(
                old(self).pins_spec()[0].listeners,
                old(self).pins_spec()[0].pending,
            ) + deliveries_of(old(self).pins_spec().drop_first()));
            assert(old(self).pins_spec().drop_first() =~= Seq::<OutView<E>>::empty());
            assert(self.pins_spec() =~= cleared(old(self).pins_spec()));
        }
        ds
    }
}

/// Type-erased handle to an output pin: the owning set's id, the pin index,
/// and the pin's declared event-type tag.
#[derive(Clone, Copy, Debug, PartialEq, Eq, Structural)]
pub struct OutHandle {
    pub set_id: OutputSetId,
    pub event_type: u64,
    pub pin_id: usize,
}

impl OutHandle {
    pub fn new(set_id: OutputSetId, pin_id: usize, event_type: u64) -> (r: Self)
        ensures
            r.set_id == set_id,
            r.pin_id == pin_id,
            r.event_type == event_type,
    {
        OutHandle { set_id, event_type, pin_id }
    }

    pub fn event_type_id(&self) -> (r: u64)
        ensures
            r == self.event_type,
    {
        self.event_type
    }

    pub fn set_id(&self) -> (r: OutputSetId)
        ensures
            r == self.set_id,
    {
        self.set_id
    }

    pub fn pin_id(&self) -> (r: usize)
        ensures
            r == self.pin_id,
    {
        self.pin_id
    }
}

/// Handle to an output pin whose event-type tag was fixed when the pin layout
/// was built; the sanctioned way to obtain a well-tagged `OutHandle`.
#[derive(Clone, Copy, Debug, PartialEq, Eq, Structural)]
pub struct TypedOutHandle {
    pub handle: OutHandle,
}

impl TypedOutHandle {
    pub fn new(set_id: OutputSetId, pin_id: usize, event_type: u64) -> (r: Self)
        ensures
            r.handle == (OutHandle { set_id, event_type, pin_id }),
    {
        TypedOutHandle { handle: OutHandle::new(set_id, pin_id, event_type) }
    }

    pub fn set_id(&self) -> (r: OutputSetId)
        ensures
            r == self.handle.set_id,
    {
        self.handle.set_id
    }

    pub fn pin_id(&self) -> (r: usize)
        ensures
            r == self.handle.pin_id,
    {
        self.handle.pin_id
    }

    pub fn handle(&self) -> (r: &OutHandle)
        ensures
            r == self.handle,
    {
        &self.handle
    }
}

} // verus!

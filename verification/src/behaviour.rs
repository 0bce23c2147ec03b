use crate::error::Error;
use crate::input::InHandle;
use crate::input::InputSet;
use crate::output::cleared;
use crate::output::deliveries_of;
use crate::output::OutputSet;
use crate::output::TypedOutHandle;
use crate::system::Event;
use vstd::prelude::*;

verus! {

/// Implements the core logic of one node: consume buffered input, produce
/// output events.
pub trait Behaviour<E: Event>: Sized {
    type InputSet: InputSet<E>;

    type OutputSet: OutputSet<E>;

    type PinLayout;

    /// Which outcomes one `behave` invocation may leave: a relation over the
    /// behaviour's own state and both of its sets, before and after the
    /// call.  Each implementation fixes its own relation, and the
    /// propagation contracts of `BehaviourNode` and `System` are stated
    /// through it.
    spec fn behaved(
        pre: Self,
        post: Self,
        pre_inputs: Self::InputSet,
        post_inputs: Self::InputSet,
        pre_outputs: Self::OutputSet,
        post_outputs: Self::OutputSet,
    ) -> bool;

    /// The pin layout this behaviour reports for the given sets.
    spec fn pins_of(
        behaviour: Self,
        input_set: Self::InputSet,
        output_set: Self::OutputSet,
    ) -> Self::PinLayout;

    /// Perform the logic to consume inputs and trigger the outputs.  Invoked
    /// only while the owning node's input set is dirty; slots may still be
    /// empty if they were never pushed, and the behaviour must tolerate that.
    /// The behaviour owns both sets for the duration of the call, but must
    /// leave their identities in place, and what it did must fall under its
    /// declared `behaved` relation.
    fn behave(&mut self, input_set: &mut Self::InputSet, output_set: &mut Self::OutputSet)
        ensures
            final(input_set).id_spec() == old(input_set).id_spec(),
            final(input_set).slots_wf() == old(input_set).slots_wf(),
            final(output_set).id_spec() == old(output_set).id_spec(),
            Self::behaved(
                *old(self),
                *final(self),
                *old(input_set),
                *final(input_set),
                *old(output_set),
                *final(output_set),
            ),
    ;

    /// Return the input/output pin layout for clients to connect the
    /// behaviour into a graph; a pure query, independent of execution.
    fn get_pins(&self, input_set: &Self::InputSet, output_set: &Self::OutputSet) -> (r:
        Self::PinLayout)
        ensures
            r == Self::pins_of(*self, *input_set, *output_set),
    ;
}

/// A behaviour bound to the input and output sets it owns.
pub struct BehaviourNode<E: Event, B: Behaviour<E>> {
    pub input_set: B::InputSet,
    pub output_set: B::OutputSet,
    pub behaviour: B,
}

/// How a processed node relates to what it was.  A node found clean is left
/// untouched and owes no deliveries.  A node found dirty has run its
/// behaviour exactly once over its own sets — some intermediate states
/// witness the behaviour's declared relation — then reset its dirty flag,
/// and drained every event the behaviour sent into the deliveries `ds`.
pub open spec fn processed<E: Event, B: Behaviour<E>>(
    pre: BehaviourNode<E, B>,
    post: BehaviourNode<E, B>,
    ds: Seq<(InHandle, E)>,
) -> bool {
    &&& post.input_set.id_spec() == pre.input_set.id_spec()
    &&& post.input_set.slots_wf() == pre.input_set.slots_wf()
    &&& post.output_set.id_spec() == pre.output_set.id_spec()
    &&& !post.input_set.dirty_spec()
    &&& (!pre.input_set.dirty_spec() ==> post == pre && ds == Seq::<(InHandle, E)>::empty())
    &&& (pre.input_set.dirty_spec() ==> exists|
        mid_inputs: B::InputSet,
        mid_outputs: B::OutputSet,
    |
        {
            &&& #[trigger] B::behaved(
                pre.behaviour,
                post.behaviour,
                pre.input_set,
                mid_inputs,
                pre.output_set,
                mid_outputs,
            )
            &&& post.input_set.id_spec() == mid_inputs.id_spec()
            &&& post.input_set.tags_spec() == mid_inputs.tags_spec()
            &&& post.input_set.slots_spec() == mid_inputs.slots_spec()
            &&& post.input_set.slots_wf() == mid_inputs.slots_wf()
            &&& post.output_set.id_spec() == mid_outputs.id_spec()
            &&& post.output_set.pins_spec() == cleared(mid_outputs.pins_spec())
            &&& ds == deliveries_of(mid_outputs.pins_spec())
        })
}

impl<E: Event, B: Behaviour<E>> BehaviourNode<E, B> {
    pub fn new(input_set: B::InputSet, output_set: B::OutputSet, behaviour: B) -> (r: Self)
        ensures
            r.input_set == input_set,
            r.output_set == output_set,
            r.behaviour == behaviour,
    {
        BehaviourNode { input_set, output_set, behaviour }
    }

    pub fn get_pins(&self) -> (r: B::PinLayout)
        ensures
            r == B::pins_of(self.behaviour, self.input_set, self.output_set),
    {
        self.behaviour.get_pins(&self.input_set, &self.output_set)
    }

    /// One visit of this node within a propagation round: if the input set is
    /// dirty, invoke the behaviour, reset the dirty flag afterwards, and hand
    /// back the deliveries the outputs now owe; a clean node is left
    /// untouched.  A node is never revisited within the same round, so events
    /// arriving after its visit stay latched for the next round.
    pub fn process(&mut self) -> (ds: Vec<(InHandle, E)>)
        ensures
            processed(*old(self), *final(self), ds@),
    {
        if self.input_set.is_dirty() {
            self.behaviour.behave(&mut self.input_set, &mut self.output_set);
            let ghost mid_inputs = self.input_set;
            let ghost mid_outputs = self.output_set;
            self.input_set.reset_dirty();
            let ds = self.output_set.drain();
            proof {
                assert(B::behaved(
                    old(self).behaviour,
                    self.behaviour,
                    old(self).input_set,
                    mid_inputs,
                    old(self).output_set,
                    mid_outputs,
                ));
            }
            ds
        } else {
            Vec::new()
        }
    }
}

/// Conversion of a behaviour into a registrable node with freshly built sets.
pub trait IntoBehaviourNode<E: Event>: Sized {
    type Behaviour: Behaviour<E>;

    /// Build the node; the slot table of the input set it constructs must be
    /// internally consistent.
    fn into_behaviour_node(self) -> (r: Result<BehaviourNode<E, Self::Behaviour>, Error>)
        ensures
            r matches Ok(node) ==> node.input_set.slots_wf(),
    ;
}

/// Where one input of a behaviour is expected to be wired from.
pub enum BehaviourInput {
    /// Internal to the system.
    Internal,
    /// Connected to an input of the system.
    System(TypedOutHandle),
}

} // verus!

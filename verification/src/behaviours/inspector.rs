use crate::behaviour::Behaviour;
use crate::behaviour::BehaviourNode;
use crate::behaviour::IntoBehaviourNode;
use crate::error::Error;
use crate::input::FixedInputSet;
use crate::input::InHandle;
use crate::input::InputSet;
use crate::input::TypedInHandle;
use crate::inputs::store_last::StoreLast;
use crate::output::FixedOutSet;
use crate::system::Event;
use vstd::prelude::*;

verus! {

/// Pin layout of an `Inspector`: its single input.
pub struct InspectorPinLayout {
    pub input: TypedInHandle,
}

/// A sink node that records the last event it observed.  It has one
/// latch-last input, no outputs, and keeps the most recent value for the
/// host to inspect.
pub struct Inspector<T: Event> {
    /// The event-type tag of the single input pin.
    pub tag: u64,
    /// The last event observed, if any round delivered one yet.
    pub seen: Option<T>,
}

impl<T: Event> Inspector<T> {
    pub fn new(tag: u64) -> (r: Self)
        ensures
            r.tag == tag,
            r.seen is None,
    {
        Inspector { tag, seen: None }
    }
}

impl<T: Event> Behaviour<T> for Inspector<T> {
    type InputSet = FixedInputSet<StoreLast<T>>;

    type OutputSet = FixedOutSet<()>;

    type PinLayout = InspectorPinLayout;

    /// The inspector drains its latch and records the event it held, if any;
    /// it touches nothing else and sends nothing.
    open spec fn behaved(
        pre: Self,
        post: Self,
        pre_inputs: FixedInputSet<StoreLast<T>>,
        post_inputs: FixedInputSet<StoreLast<T>>,
        pre_outputs: FixedOutSet<()>,
        post_outputs: FixedOutSet<()>,
    ) -> bool {
        &&& post.tag == pre.tag
        &&& post.seen == if pre_inputs.input.0 is Some {
            pre_inputs.input.0
        } else {
            pre.seen
        }
        &&& post_inputs == (FixedInputSet { input: StoreLast(None), ..pre_inputs })
        &&& post_outputs == pre_outputs
    }

    open spec fn pins_of(
        behaviour: Self,
        input_set: FixedInputSet<StoreLast<T>>,
        output_set: FixedOutSet<()>,
    ) -> InspectorPinLayout {
        InspectorPinLayout {
            input: TypedInHandle {
                handle: InHandle {
                    input_set: input_set.id,
                    event_type: input_set.tag,
                    pin_id: 0,
                },
            },
        }
    }

    fn behave(
        &mut self,
        input_set: &mut FixedInputSet<StoreLast<T>>,
        output_set: &mut FixedOutSet<()>,
    ) {
        match input_set.input.take() {
            Some(event) => {
                self.seen = Some(event);
            },
            None => {},
        }
        proof {
            assert(input_set.id_spec() == old(input_set).id_spec());
        }
    }

    fn get_pins(
        &self,
        input_set: &FixedInputSet<StoreLast<T>>,
        output_set: &FixedOutSet<()>,
    ) -> (r: InspectorPinLayout) {
        InspectorPinLayout { input: TypedInHandle::new(input_set.id, 0, input_set.tag) }
    }
}

impl<T: Event> IntoBehaviourNode<T> for Inspector<T> {
    type Behaviour = Self;

    fn into_behaviour_node(self) -> Result<BehaviourNode<T, Self>, Error> {
        let tag = self.tag;
        let input_set = FixedInputSet::new(tag, StoreLast::default());
        let output_set = FixedOutSet::new(());
        Ok(BehaviourNode::new(input_set, output_set, self))
    }
}

} // verus!

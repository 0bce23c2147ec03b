use frp::Behaviour;
use frp::BehaviourNode;
use frp::Error;
use frp::FixedInputSet;
use frp::FixedOutSet;
use frp::InHandle;
use frp::InputSetId;
use frp::Inspector;
use frp::InspectorPinLayout;
use frp::IntoBehaviourNode;
use frp::Out;
use frp::OutHandle;
use frp::OutputSetId;
use frp::StoreLast;
use frp::System;
use frp::TypedInHandle;
use frp::TypedOutHandle;

const STRING_TAG: u64 = 7;
const OTHER_TAG: u64 = 9;

pub struct StringDublicatorPinLayout {
    pub input: TypedInHandle,
    pub output: TypedOutHandle,
}

#[derive(Default)]
pub struct StringDublicator;

pub enum SimpleNode {
    Dup(StringDublicator),
    Inspect(Inspector<String>),
}

pub enum SimplePins {
    Dup(StringDublicatorPinLayout),
    Inspect(InspectorPinLayout),
}

impl SimplePins {
    fn dup(self) -> StringDublicatorPinLayout {
        match self {
            SimplePins::Dup(pins) => pins,
            SimplePins::Inspect(_) => panic!("expected duplicator pins"),
        }
    }

    fn inspect(self) -> InspectorPinLayout {
        match self {
            SimplePins::Inspect(pins) => pins,
            SimplePins::Dup(_) => panic!("expected inspector pins"),
        }
    }
}

impl Behaviour<String> for SimpleNode {
    type InputSet = FixedInputSet<StoreLast<String>>;
    type OutputSet = FixedOutSet<Out<String>>;
    type PinLayout = SimplePins;

    // an unverified node promises nothing of its behaviour
    fn behaved(
        _pre: Self,
        _post: Self,
        _pre_inputs: Self::InputSet,
        _post_inputs: Self::InputSet,
        _pre_outputs: Self::OutputSet,
        _post_outputs: Self::OutputSet,
    ) -> bool {
        true
    }

    fn pins_of(behaviour: Self, input_set: Self::InputSet, output_set: Self::OutputSet) -> SimplePins {
        match behaviour {
            SimpleNode::Dup(_) => SimplePins::Dup(StringDublicatorPinLayout {
                input: TypedInHandle::new(input_set.id, 0, input_set.tag),
                output: TypedOutHandle::new(output_set.id, 0, output_set.outputs.event_type),
            }),
            SimpleNode::Inspect(_) => SimplePins::Inspect(InspectorPinLayout {
                input: TypedInHandle::new(input_set.id, 0, input_set.tag),
            }),
        }
    }

    fn behave(&mut self, input_set: &mut Self::InputSet, output_set: &mut Self::OutputSet) {
        match self {
            SimpleNode::Dup(_) => {
                let input = input_set.input.get().clone();
                output_set.outputs.send(&format!("{}{}", input, input));
            }
            SimpleNode::Inspect(inspector) => {
                if let Some(event) = input_set.input.take() {
                    inspector.seen = Some(event);
                }
            }
        }
    }

    fn get_pins(&self, input_set: &Self::InputSet, output_set: &Self::OutputSet) -> SimplePins {
        match self {
            SimpleNode::Dup(_) => SimplePins::Dup(StringDublicatorPinLayout {
                input: TypedInHandle::new(input_set.id, 0, input_set.tag),
                output: TypedOutHandle::new(output_set.id, 0, output_set.outputs.event_type),
            }),
            SimpleNode::Inspect(_) => SimplePins::Inspect(InspectorPinLayout {
                input: TypedInHandle::new(input_set.id, 0, input_set.tag),
            }),
        }
    }
}

impl IntoBehaviourNode<String> for SimpleNode {
    type Behaviour = Self;

    fn into_behaviour_node(self) -> Result<BehaviourNode<String, Self>, Error> {
        let input_set = FixedInputSet::new(STRING_TAG, StoreLast::default());
        let output_set = FixedOutSet::new(Out::new(STRING_TAG));
        Ok(BehaviourNode::new(input_set, output_set, self))
    }
}

fn seen_of(system: &System<String, SimpleNode>, node_index: usize) -> Option<String> {
    match &system.nodes[node_index].behaviour {
        SimpleNode::Inspect(inspector) => inspector.seen.clone(),
        SimpleNode::Dup(_) => panic!("node is not an inspector"),
    }
}

#[test]
fn simple() {
    let mut system: System<String, SimpleNode> = System::default();
    let input = system.create_input(STRING_TAG);

    let string_dup = system
        .add_behaviour(SimpleNode::Dup(StringDublicator::default()))
        .unwrap()
        .dup();
    let inspect = system
        .add_behaviour(SimpleNode::Inspect(Inspector::new(STRING_TAG)))
        .unwrap()
        .inspect();

    system.connect(&input, &string_dup.input).unwrap();
    system.connect(&string_dup.output, &inspect.input).unwrap();

    system.run_on(&input, &"Hello World".to_string()).unwrap();
}

#[test]
fn end_to_end_scenario() {
    let mut system: System<String, SimpleNode> = System::default();
    let input = system.create_input(STRING_TAG);

    let dup = system
        .add_behaviour(SimpleNode::Dup(StringDublicator::default()))
        .unwrap()
        .dup();
    let log = system
        .add_behaviour(SimpleNode::Inspect(Inspector::new(STRING_TAG)))
        .unwrap()
        .inspect();

    system.connect(&input, &dup.input).unwrap();
    system.connect(&dup.output, &log.input).unwrap();

    system.run_on(&input, &"hi".to_string()).unwrap();

    assert_eq!(seen_of(&system, 1), Some("hihi".to_string()));
}

#[test]
fn type_safety_mismatched_connect() {
    let mut system: System<String, SimpleNode> = System::default();
    let typed_input = system.create_input(OTHER_TAG);

    let dup = system
        .add_behaviour(SimpleNode::Dup(StringDublicator::default()))
        .unwrap()
        .dup();
    let log = system
        .add_behaviour(SimpleNode::Inspect(Inspector::new(STRING_TAG)))
        .unwrap()
        .inspect();

    // the system input carries a different event type than the node's pin
    let result = system.connect(&typed_input, &dup.input);
    assert!(matches!(result, Err(Error::IncompatiblePinTypes)));

    // no listener was registered: an injection reaches nobody
    system.connect(&dup.output, &log.input).unwrap();
    system.run_on(&typed_input, &"x".to_string()).unwrap();
    assert_eq!(seen_of(&system, 1), None);
}

#[test]
fn acyclicity_rejects_closing_connection() {
    let mut system: System<String, SimpleNode> = System::default();
    let input = system.create_input(STRING_TAG);

    let a = system
        .add_behaviour(SimpleNode::Dup(StringDublicator::default()))
        .unwrap()
        .dup();
    let b = system
        .add_behaviour(SimpleNode::Dup(StringDublicator::default()))
        .unwrap()
        .dup();
    let c = system
        .add_behaviour(SimpleNode::Dup(StringDublicator::default()))
        .unwrap()
        .dup();

    system.connect(&a.output, &b.input).unwrap();
    system.connect(&b.output, &c.input).unwrap();
    let closing = system.connect(&c.output, &a.input);
    assert!(matches!(closing, Err(Error::Cycle)));

    // the edge set is unchanged and the graph still runs in dependency order
    let log = system
        .add_behaviour(SimpleNode::Inspect(Inspector::new(STRING_TAG)))
        .unwrap()
        .inspect();
    system.connect(&input, &a.input).unwrap();
    system.connect(&c.output, &log.input).unwrap();
    system.run_on(&input, &"x".to_string()).unwrap();
    assert_eq!(seen_of(&system, 3), Some("xxxxxxxx".to_string()));
}

#[test]
fn run_on_foreign_handle_is_input_not_found() {
    let mut system: System<String, SimpleNode> = System::default();
    let _input = system.create_input(STRING_TAG);

    let foreign = TypedOutHandle::new(OutputSetId(4242), 0, STRING_TAG);
    let result = system.run_on(&foreign, &"x".to_string());
    assert!(matches!(result, Err(Error::InputNotFound)));

    let stale_pin = TypedOutHandle::new(OutputSetId(0), 5, STRING_TAG);
    let result = system.run_on(&stale_pin, &"x".to_string());
    assert!(matches!(result, Err(Error::InputNotFound)));
}

#[test]
fn connect_unknown_output_is_output_not_found() {
    let mut system: System<String, SimpleNode> = System::default();
    let dup = system
        .add_behaviour(SimpleNode::Dup(StringDublicator::default()))
        .unwrap()
        .dup();

    let unknown = OutHandle::new(OutputSetId(4242), 0, STRING_TAG);
    let result = system.connect_any(&unknown, dup.input.handle());
    assert!(matches!(result, Err(Error::OutputNotFound)));
}

#[test]
fn connect_with_lying_tag_is_unexpected_event_type() {
    let mut system: System<String, SimpleNode> = System::default();
    let _input = system.create_input(STRING_TAG);

    // both handles claim the same type, but the real system pin differs
    let lying_out = OutHandle::new(OutputSetId(0), 0, OTHER_TAG);
    let lying_in = InHandle::new(InputSetId(4242), 0, OTHER_TAG);
    let result = system.connect_any(&lying_out, &lying_in);
    assert!(matches!(result, Err(Error::UnexpectedEventType)));
}

#[test]
fn connect_validates_registered_input_side() {
    let mut system: System<String, SimpleNode> = System::default();
    let _typed = system.create_input(OTHER_TAG);
    let dup = system
        .add_behaviour(SimpleNode::Dup(StringDublicator::default()))
        .unwrap()
        .dup();
    let log = system
        .add_behaviour(SimpleNode::Inspect(Inspector::new(STRING_TAG)))
        .unwrap()
        .inspect();

    // a handle into the registered inspector set, but naming a pin it lacks
    let log_set = log.input.handle.input_set;
    let bad_pin = InHandle::new(log_set, 5, STRING_TAG);
    let result = system.connect_any(dup.output.handle(), &bad_pin);
    assert!(matches!(result, Err(Error::InputNotFound)));

    // a handle whose claimed type differs from the registered slot's
    let bad_tag = InHandle::new(log_set, 0, OTHER_TAG);
    let system_out = OutHandle::new(OutputSetId(0), 0, OTHER_TAG);
    let result = system.connect_any(&system_out, &bad_tag);
    assert!(matches!(result, Err(Error::UnexpectedEventType)));
}

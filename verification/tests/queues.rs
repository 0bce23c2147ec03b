use frp::Behaviour;
use frp::BehaviourNode;
use frp::DynamicInputSet;
use frp::DynamicOutSet;
use frp::Error;
use frp::IntoBehaviourNode;
use frp::System;
use frp::TypedInHandle;
use frp::TypedOutHandle;
use frp::Unbounded;

use std::cell::RefCell;
use std::rc::Rc;

const TAG: u64 = 3;

/// An echo sends two marked copies of each event it receives; a collector
/// buffers everything that arrives in one unbounded slot and records the
/// arrival order.
pub enum QueueNode {
    Echo,
    Collector(Rc<RefCell<Vec<String>>>),
}

pub struct QueuePins {
    pub input: TypedInHandle,
    pub output: Option<TypedOutHandle>,
}

impl Behaviour<String> for QueueNode {
    type InputSet = DynamicInputSet<Unbounded<String>>;
    type OutputSet = DynamicOutSet<String>;
    type PinLayout = QueuePins;

    // an unverified node promises nothing of its behaviour
    fn behaved(
        _pre: Self,
        _post: Self,
        _pre_inputs: Self::InputSet,
        _post_inputs: Self::InputSet,
        _pre_outputs: Self::OutputSet,
        _post_outputs: Self::OutputSet,
    ) -> bool {
        true
    }

    fn pins_of(behaviour: Self, input_set: Self::InputSet, output_set: Self::OutputSet) -> QueuePins {
        QueuePins {
            input: TypedInHandle::new(input_set.id, 0, input_set.tags[0]),
            output: match behaviour {
                QueueNode::Echo => Some(TypedOutHandle::new(
                    output_set.set_id,
                    0,
                    output_set.outputs[0].event_type,
                )),
                QueueNode::Collector(_) => None,
            },
        }
    }

    fn behave(&mut self, input_set: &mut Self::InputSet, output_set: &mut Self::OutputSet) {
        match self {
            QueueNode::Echo => {
                for event in input_set.inputs[0].take_all() {
                    output_set.outputs[0].send(&format!("{}1", event));
                    output_set.outputs[0].send(&format!("{}2", event));
                }
            }
            QueueNode::Collector(seen) => {
                seen.borrow_mut().extend(input_set.inputs[0].take_all());
            }
        }
    }

    fn get_pins(&self, input_set: &Self::InputSet, output_set: &Self::OutputSet) -> QueuePins {
        QueuePins {
            input: TypedInHandle::new(input_set.id, 0, input_set.tags[0]),
            output: match self {
                QueueNode::Echo => Some(TypedOutHandle::new(
                    output_set.set_id,
                    0,
                    output_set.outputs[0].event_type,
                )),
                QueueNode::Collector(_) => None,
            },
        }
    }
}

impl IntoBehaviourNode<String> for QueueNode {
    type Behaviour = Self;

    fn into_behaviour_node(self) -> Result<BehaviourNode<String, Self>, Error> {
        let mut input_set = DynamicInputSet::new();
        let mut output_set = DynamicOutSet::new();
        input_set.add(TAG, Unbounded::default());
        if let QueueNode::Echo = &self {
            output_set.add(TAG);
        }
        Ok(BehaviourNode::new(input_set, output_set, self))
    }
}

#[test]
fn multiple_sends_arrive_in_order() {
    // one round in which the echo node sends twice on the same pin: the
    // collector receives both copies, in send order
    let mut system: System<String, QueueNode> = System::default();
    let input = system.create_input(TAG);

    let seen = Rc::new(RefCell::new(Vec::new()));
    let echo = system.add_behaviour(QueueNode::Echo).unwrap();
    let collector = system
        .add_behaviour(QueueNode::Collector(Rc::clone(&seen)))
        .unwrap();

    system.connect(&input, &echo.input).unwrap();
    system
        .connect(echo.output.as_ref().unwrap(), &collector.input)
        .unwrap();

    system.run_on(&input, &"e".to_string()).unwrap();
    assert_eq!(*seen.borrow(), vec!["e1".to_string(), "e2".to_string()]);

    // the next round buffers afresh
    system.run_on(&input, &"f".to_string()).unwrap();
    assert_eq!(
        *seen.borrow(),
        vec![
            "e1".to_string(),
            "e2".to_string(),
            "f1".to_string(),
            "f2".to_string()
        ]
    );
}

#[test]
fn empty_graph_round_runs() {
    let mut system: System<String, QueueNode> = System::default();
    let input = system.create_input(TAG);
    system.run_on(&input, &"lost".to_string()).unwrap();
}

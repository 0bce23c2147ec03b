use frp::Behaviour;
use frp::BehaviourNode;
use frp::DynamicInputSet;
use frp::DynamicOutSet;
use frp::Error;
use frp::InHandle;
use frp::InputSetId;
use frp::IntoBehaviourNode;
use frp::StoreLast;
use frp::System;
use frp::TypedInHandle;
use frp::TypedOutHandle;

use std::cell::RefCell;
use std::rc::Rc;

const TAG: u64 = 1;

/// A mapper appends its marker to the event and counts its invocations; a
/// join has two inputs and records what both held when it ran.
pub enum DiamondNode {
    Mapper {
        marker: &'static str,
        runs: Rc<RefCell<u32>>,
    },
    Join {
        runs: Rc<RefCell<u32>>,
        observed: Rc<RefCell<Option<(Option<String>, Option<String>)>>>,
    },
}

pub struct DiamondPins {
    pub inputs: Vec<TypedInHandle>,
    pub output: Option<TypedOutHandle>,
}

impl Behaviour<String> for DiamondNode {
    type InputSet = DynamicInputSet<StoreLast<String>>;
    type OutputSet = DynamicOutSet<String>;
    type PinLayout = DiamondPins;

    // an unverified node promises nothing of its behaviour
    fn behaved(
        _pre: Self,
        _post: Self,
        _pre_inputs: Self::InputSet,
        _post_inputs: Self::InputSet,
        _pre_outputs: Self::OutputSet,
        _post_outputs: Self::OutputSet,
    ) -> bool {
        true
    }

    fn pins_of(behaviour: Self, input_set: Self::InputSet, output_set: Self::OutputSet) -> DiamondPins {
        let mut inputs = Vec::new();
        for pin in 0..input_set.tags.len() {
            inputs.push(TypedInHandle::new(input_set.id, pin, input_set.tags[pin]));
        }
        let output = if output_set.outputs.is_empty() {
            None
        } else {
            Some(TypedOutHandle::new(
                output_set.set_id,
                0,
                output_set.outputs[0].event_type,
            ))
        };
        let _ = behaviour;
        DiamondPins { inputs, output }
    }

    fn behave(&mut self, input_set: &mut Self::InputSet, output_set: &mut Self::OutputSet) {
        match self {
            DiamondNode::Mapper { marker, runs } => {
                *runs.borrow_mut() += 1;
                if let Some(event) = input_set.inputs[0].take() {
                    let mapped = format!("{}{}", event, marker);
                    output_set.outputs[0].send(&mapped);
                }
            }
            DiamondNode::Join { runs, observed } => {
                *runs.borrow_mut() += 1;
                let left = input_set.inputs[0].try_get().cloned();
                let right = input_set.inputs[1].try_get().cloned();
                *observed.borrow_mut() = Some((left, right));
            }
        }
    }

    fn get_pins(&self, input_set: &Self::InputSet, output_set: &Self::OutputSet) -> DiamondPins {
        let mut inputs = Vec::new();
        for pin in 0..input_set.tags.len() {
            inputs.push(TypedInHandle::new(input_set.id, pin, input_set.tags[pin]));
        }
        let output = if output_set.outputs.is_empty() {
            None
        } else {
            Some(TypedOutHandle::new(
                output_set.set_id,
                0,
                output_set.outputs[0].event_type,
            ))
        };
        DiamondPins { inputs, output }
    }
}

impl IntoBehaviourNode<String> for DiamondNode {
    type Behaviour = Self;

    fn into_behaviour_node(self) -> Result<BehaviourNode<String, Self>, Error> {
        let mut input_set = DynamicInputSet::new();
        let mut output_set = DynamicOutSet::new();
        match &self {
            DiamondNode::Mapper { .. } => {
                input_set.add(TAG, StoreLast::default());
                output_set.add(TAG);
            }
            DiamondNode::Join { .. } => {
                input_set.add(TAG, StoreLast::default());
                input_set.add(TAG, StoreLast::default());
            }
        }
        Ok(BehaviourNode::new(input_set, output_set, self))
    }
}

fn mapper(marker: &'static str, runs: &Rc<RefCell<u32>>) -> DiamondNode {
    DiamondNode::Mapper {
        marker,
        runs: Rc::clone(runs),
    }
}

#[test]
fn single_visit_per_round() {
    // diamond: input fans out to two mappers, which both feed one join
    let mut system: System<String, DiamondNode> = System::default();
    let input = system.create_input(TAG);

    let n1_runs = Rc::new(RefCell::new(0));
    let n2_runs = Rc::new(RefCell::new(0));
    let join_runs = Rc::new(RefCell::new(0));
    let observed = Rc::new(RefCell::new(None));

    let n1 = system.add_behaviour(mapper("A", &n1_runs)).unwrap();
    let n2 = system.add_behaviour(mapper("B", &n2_runs)).unwrap();
    let join = system
        .add_behaviour(DiamondNode::Join {
            runs: Rc::clone(&join_runs),
            observed: Rc::clone(&observed),
        })
        .unwrap();

    system.connect(&input, &n1.inputs[0]).unwrap();
    system.connect(&input, &n2.inputs[0]).unwrap();
    system
        .connect(n1.output.as_ref().unwrap(), &join.inputs[0])
        .unwrap();
    system
        .connect(n2.output.as_ref().unwrap(), &join.inputs[1])
        .unwrap();

    system.run_on(&input, &"e".to_string()).unwrap();

    // the join ran exactly once, and saw both producers' outputs of this round
    assert_eq!(*join_runs.borrow(), 1);
    assert_eq!(
        *observed.borrow(),
        Some((Some("eA".to_string()), Some("eB".to_string())))
    );
    assert_eq!(*n1_runs.borrow(), 1);
    assert_eq!(*n2_runs.borrow(), 1);
}

#[test]
fn dirty_reset_skips_clean_nodes() {
    // two independent chains; triggering one must not re-invoke the other
    let mut system: System<String, DiamondNode> = System::default();
    let input_a = system.create_input(TAG);
    let input_b = system.create_input(TAG);

    let a_runs = Rc::new(RefCell::new(0));
    let b_runs = Rc::new(RefCell::new(0));

    let a = system.add_behaviour(mapper("A", &a_runs)).unwrap();
    let b = system.add_behaviour(mapper("B", &b_runs)).unwrap();

    system.connect(&input_a, &a.inputs[0]).unwrap();
    system.connect(&input_b, &b.inputs[0]).unwrap();

    system.run_on(&input_a, &"x".to_string()).unwrap();
    assert_eq!(*a_runs.borrow(), 1);
    assert_eq!(*b_runs.borrow(), 0);

    // node a was not re-pushed: it is clean and is not invoked this round
    system.run_on(&input_b, &"y".to_string()).unwrap();
    assert_eq!(*a_runs.borrow(), 1);
    assert_eq!(*b_runs.borrow(), 1);
}

#[test]
fn dead_target_tolerance() {
    // the only listener of the mapper's output names a set id that no
    // registered node owns, as after that node's teardown
    let mut system: System<String, DiamondNode> = System::default();
    let input = system.create_input(TAG);

    let runs = Rc::new(RefCell::new(0));
    let n1 = system.add_behaviour(mapper("A", &runs)).unwrap();

    system.connect(&input, &n1.inputs[0]).unwrap();
    let vanished = InHandle::new(InputSetId(4242), 0, TAG);
    system
        .connect_any(n1.output.as_ref().unwrap().handle(), &vanished)
        .unwrap();

    // sending succeeds and delivers to no one
    system.run_on(&input, &"x".to_string()).unwrap();
    assert_eq!(*runs.borrow(), 1);
}

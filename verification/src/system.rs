use crate::behaviour::processed;
use crate::behaviour::Behaviour;
use crate::behaviour::BehaviourNode;
use crate::behaviour::IntoBehaviourNode;
use crate::error::Error;
use crate::graph::compute_order;
use crate::graph::lemma_order_extend;
use crate::graph::schedulable;
use crate::graph::valid_order;
use crate::input::InHandle;
use crate::input::InputSet;
use crate::input::InputSetId;
use crate::input::TypedInHandle;
use crate::output::cleared;
use crate::output::deliveries_of;
use crate::output::DynamicOutSet;
use crate::output::OutHandle;
use crate::output::OutputSet;
use crate::output::OutputSetId;
use crate::output::OutView;
use crate::output::TypedOutHandle;
use vstd::prelude::*;

verus! {

/// A value type usable as a signal on a connection.  An event must be
/// duplicable, because sending it through an output pin delivers one copy to
/// every registered listener.
pub trait Event: Sized {
    /// Produce a copy of the event, equal to the original.
    fn dup(&self) -> (copy: Self)
        ensures
            copy == *self,
    ;
}

impl Event for String {
    fn dup(&self) -> (copy: Self) {
        self.clone()
    }
}

impl Event for u64 {
    fn dup(&self) -> (copy: Self) {
        *self
    }
}

impl Event for bool {
    fn dup(&self) -> (copy: Self) {
        *self
    }
}

/// Draw the next unique id from a monotonic counter.  Ids handed out by one
/// counter are never reused for that counter's lifetime.
pub fn next_id(counter: &mut u64) -> (id: u64)
    requires
        *old(counter) < u64::MAX,
    ensures
        *final(counter) == *old(counter) + 1,
        id == *old(counter),
{
    let id = *counter;
    *counter = *counter + 1;
    id
}

/// First match in a side table of set references: the node index registered
/// for a set id, if any.
pub open spec fn spec_find_ref(refs: Seq<(u64, usize)>, sid: u64) -> Option<usize>
    decreases refs.len(),
{
    if refs.len() == 0 {
        None
    } else if refs[0].0 == sid {
        Some(refs[0].1)
    } else {
        spec_find_ref(refs.drop_first(), sid)
    }
}

proof fn lemma_find_ref_member(refs: Seq<(u64, usize)>, sid: u64, idx: usize)
    requires
        spec_find_ref(refs, sid) == Some(idx),
    ensures
        exists|k: int| 0 <= k < refs.len() && refs[k] == (sid, idx),
    decreases refs.len(),
{
    if refs.len() > 0 {
        if refs[0].0 == sid {
            assert(refs[0] == (sid, idx));
        } else {
            lemma_find_ref_member(refs.drop_first(), sid, idx);
            let k = choose|k: int|
                0 <= k < refs.drop_first().len() && refs.drop_first()[k] == (sid, idx);
            assert(refs[k + 1] == (sid, idx));
        }
    }
}

fn find_ref(refs: &Vec<(u64, usize)>, sid: u64) -> (r: Option<usize>)
    ensures
        r == spec_find_ref(refs@, sid),
{
    let mut i: usize = 0;
    proof {
        assert(refs@.skip(0) =~= refs@);
    }
    while i < refs.len()
        invariant
            i <= refs@.len(),
            spec_find_ref(refs@, sid) == spec_find_ref(refs@.skip(i as int), sid),
        decreases refs@.len() - i,
    {
        proof {
            assert(refs@.skip(i as int)[0] == refs@[i as int]);
            assert(refs@.skip(i as int).drop_first() =~= refs@.skip(i + 1));
        }
        if refs[i].0 == sid {
            return Some(refs[i].1);
        }
        i = i + 1;
    }
    proof {
        assert(refs@.skip(refs@.len() as int) =~= Seq::<(u64, usize)>::empty());
    }
    None
}

fn copy_edges(edges: &Vec<(usize, usize)>) -> (r: Vec<(usize, usize)>)
    ensures
        r@ == edges@,
{
    let mut r: Vec<(usize, usize)> = Vec::new();
    let mut i: usize = 0;
    while i < edges.len()
        invariant
            i <= edges@.len(),
            r@ =~= edges@.take(i as int),
        decreases edges@.len() - i,
    {
        r.push(edges[i]);
        proof {
            assert(edges@.take(i + 1) =~= edges@.take(i as int).push(edges@[i as int]));
        }
        i = i + 1;
    }
    proof {
        assert(edges@.take(edges@.len() as int) =~= edges@);
    }
    r
}

/// Stores a dataflow graph: every node, the side tables that resolve set ids
/// to nodes, the node-level edge set, and a topological visiting order that
/// is kept current as edges are added.
pub struct System<E: Event, B: Behaviour<E>> {
    /// Source of the fresh ids handed to registered sets.
    pub id_counter: u64,
    /// Inputs of the system: the output pins that trigger graph execution.
    pub system_inputs: DynamicOutSet<E>,
    /// Which node owns each registered input set, by set id.
    pub input_set_references: Vec<(u64, usize)>,
    /// Which node owns each registered output set, by set id.
    pub output_set_references: Vec<(u64, usize)>,
    /// Every node of the graph; the system owns them exclusively.
    pub nodes: Vec<BehaviourNode<E, B>>,
    /// The node-level connection edges, as (source, target) node indices.
    pub edges: Vec<(usize, usize)>,
    /// A topological order of the nodes under `edges`, recomputed on every
    /// successful connect; propagation rounds visit nodes in this order.
    pub order: Vec<usize>,
}

impl<E: Event, B: Behaviour<E>> System<E, B> {
    /// Well-formedness: the side tables point at live nodes and record their
    /// true set identities; every registered id was minted by the counter,
    /// each table's keys are distinct, and no registered output set id
    /// aliases the system input set's; every node's slot table is
    /// consistent; every edge joins two live nodes; and the stored visiting
    /// order is a topological order of the node graph — so the edge set is
    /// acyclic by construction.
    pub open spec fn wf(&self) -> bool {
        &&& forall|k: int|
            0 <= k < self.input_set_references@.len() ==> {
                let entry = #[trigger] self.input_set_references@[k];
                entry.1 < self.nodes@.len() && self.nodes@[entry.1 as int].input_set.id_spec()
                    == entry.0 && entry.0 < self.id_counter
            }
        &&& forall|k: int|
            0 <= k < self.output_set_references@.len() ==> {
                let entry = #[trigger] self.output_set_references@[k];
                entry.1 < self.nodes@.len() && self.nodes@[entry.1 as int].output_set.id_spec()
                    == entry.0 && entry.0 < self.id_counter && entry.0
                    != self.system_inputs.id_spec()
            }
        &&& self.system_inputs.id_spec() < self.id_counter
        &&& forall|k1: int, k2: int|
            0 <= k1 < k2 < self.input_set_references@.len()
                ==> (#[trigger] self.input_set_references@[k1]).0
                != (#[trigger] self.input_set_references@[k2]).0
        &&& forall|k1: int, k2: int|
            0 <= k1 < k2 < self.output_set_references@.len()
                ==> (#[trigger] self.output_set_references@[k1]).0
                != (#[trigger] self.output_set_references@[k2]).0
        &&& forall|i: int|
            0 <= i < self.nodes@.len() ==> (#[trigger] self.nodes@[i]).input_set.slots_wf()
        &&& forall|k: int|
            0 <= k < self.edges@.len() ==> (#[trigger] self.edges@[k]).0 < self.nodes@.len()
                && self.edges@[k].1 < self.nodes@.len()
        &&& valid_order(self.order@, self.nodes@.len() as nat, self.edges@)
    }

    fn add_input_set_reference(&mut self, set_id: u64, node_index: usize)
        ensures
            final(self).input_set_references@ == old(self).input_set_references@.push(
                (set_id, node_index),
            ),
            final(self).output_set_references == old(self).output_set_references,
            final(self).nodes == old(self).nodes,
            final(self).edges == old(self).edges,
            final(self).order == old(self).order,
            final(self).system_inputs == old(self).system_inputs,
            final(self).id_counter == old(self).id_counter,
    {
        self.input_set_references.push((set_id, node_index));
    }

    fn add_output_set_reference(&mut self, set_id: u64, node_index: usize)
        ensures
            final(self).output_set_references@ == old(self).output_set_references@.push(
                (set_id, node_index),
            ),
            final(self).input_set_references == old(self).input_set_references,
            final(self).nodes == old(self).nodes,
            final(self).edges == old(self).edges,
            final(self).order == old(self).order,
            final(self).system_inputs == old(self).system_inputs,
            final(self).id_counter == old(self).id_counter,
    {
        self.output_set_references.push((set_id, node_index));
    }

    /// Create a new externally triggerable input of the system, carrying the
    /// given event-type tag; host code injects events through the returned
    /// handle.
    pub fn create_input(&mut self, event_type: u64) -> (r: TypedOutHandle)
        requires
            old(self).wf(),
        ensures
            final(self).wf(),
            final(self).system_inputs.id_spec() == old(self).system_inputs.id_spec(),
            final(self).system_inputs.pins_spec() == old(self).system_inputs.pins_spec().push(
                (OutView::<E> { event_type, listeners: Seq::empty(), pending: Seq::empty() }),
            ),
            r.handle.set_id.0 == old(self).system_inputs.id_spec(),
            r.handle.pin_id == old(self).system_inputs.pins_spec().len(),
            r.handle.event_type == event_type,
            final(self).input_set_references == old(self).input_set_references,
            final(self).output_set_references == old(self).output_set_references,
            final(self).nodes == old(self).nodes,
            final(self).edges == old(self).edges,
            final(self).order == old(self).order,
            final(self).id_counter == old(self).id_counter,
    {
        let pin_id = self.system_inputs.add(event_type);
        let set_id = self.system_inputs.id();
        TypedOutHandle::new(set_id, pin_id, event_type)
    }

    /// Add a new behaviour to the system: build its node, hand its sets
    /// fresh ids, register them in the side tables, extend the visiting
    /// order with the new node, and return its pin layout for wiring.
    pub fn add_behaviour<N: IntoBehaviourNode<E, Behaviour = B>>(&mut self, behaviour: N) -> (r:
        Result<B::PinLayout, Error>)
        requires
            old(self).wf(),
            old(self).id_counter <= u64::MAX - 2,
            old(self).nodes@.len() < usize::MAX,
        ensures
            final(self).wf(),
            r is Err ==> *final(self) == *old(self),
            r is Ok ==> {
                &&& final(self).nodes@.len() == old(self).nodes@.len() + 1
                &&& (forall|i: int|
                    0 <= i < old(self).nodes@.len() ==> final(self).nodes@[i] == old(
                        self,
                    ).nodes@[i])
                &&& final(self).nodes@[old(self).nodes@.len() as int].input_set.id_spec() == old(
                    self,
                ).id_counter
                &&& final(self).nodes@[old(self).nodes@.len() as int].output_set.id_spec() == old(
                    self,
                ).id_counter + 1
                &&& final(self).id_counter == old(self).id_counter + 2
                &&& final(self).input_set_references@ == old(self).input_set_references@.push(
                    (old(self).id_counter, old(self).nodes@.len() as usize),
                )
                &&& final(self).output_set_references@ == old(self).output_set_references@.push(
                    ((old(self).id_counter + 1) as u64, old(self).nodes@.len() as usize),
                )
                &&& final(self).edges == old(self).edges
                &&& final(self).system_inputs == old(self).system_inputs
                &&& final(self).order@ == old(self).order@.push(old(self).nodes@.len() as usize)
            },
            r matches Ok(layout) ==> layout == B::pins_of(
                final(self).nodes@[old(self).nodes@.len() as int].behaviour,
                final(self).nodes@[old(self).nodes@.len() as int].input_set,
                final(self).nodes@[old(self).nodes@.len() as int].output_set,
            ),
    {
        let mut node = match behaviour.into_behaviour_node() {
            Ok(node) => node,
            Err(e) => {
                return Err(e);
            },
        };
        let in_id = next_id(&mut self.id_counter);
        let out_id = next_id(&mut self.id_counter);
        node.input_set.assign_id(InputSetId::new(in_id));
        node.output_set.assign_id(OutputSetId::new(out_id));
        let pin_layout = node.get_pins();
        let node_index = self.nodes.len();
        self.add_input_set_reference(in_id, node_index);
        self.add_output_set_reference(out_id, node_index);
        self.nodes.push(node);
        self.order.push(node_index);
        proof {
            lemma_order_extend(
                old(self).order@,
                old(self).nodes@.len() as nat,
                old(self).edges@,
            );
        }
        Ok(pin_layout)
    }

    /// What a proposed connection must answer, judged before any mutation:
    /// the two handles' event types must match, the output pin must resolve
    /// and carry the claimed type, and — when both endpoints belong to
    /// registered nodes — the new edge must leave the graph schedulable.
    pub open spec fn connect_verdict(&self, pin_out: OutHandle, pin_in: InHandle) -> Result<
        (),
        Error,
    > {
        if pin_out.event_type != pin_in.event_type {
            Err(Error::IncompatiblePinTypes)
        } else if pin_out.set_id.0 == self.system_inputs.id_spec() {
            if pin_out.pin_id >= self.system_inputs.pins_spec().len() {
                Err(Error::OutputNotFound)
            } else if self.system_inputs.pins_spec()[pin_out.pin_id as int].event_type
                != pin_out.event_type {
                Err(Error::UnexpectedEventType)
            } else {
                match spec_find_ref(self.input_set_references@, pin_in.input_set.0) {
                    None => Ok(()),
                    Some(v) => {
                        let in_tags = self.nodes@[v as int].input_set.tags_spec();
                        if pin_in.pin_id >= in_tags.len() {
                            Err(Error::InputNotFound)
                        } else if in_tags[pin_in.pin_id as int] != pin_in.event_type {
                            Err(Error::UnexpectedEventType)
                        } else {
                            Ok(())
                        }
                    },
                }
            }
        } else {
            match spec_find_ref(self.output_set_references@, pin_out.set_id.0) {
                None => Err(Error::OutputNotFound),
                Some(u) => {
                    let pins = self.nodes@[u as int].output_set.pins_spec();
                    if pin_out.pin_id >= pins.len() {
                        Err(Error::OutputNotFound)
                    } else if pins[pin_out.pin_id as int].event_type != pin_out.event_type {
                        Err(Error::UnexpectedEventType)
                    } else {
                        match spec_find_ref(self.input_set_references@, pin_in.input_set.0) {
                            None => Ok(()),
                            Some(v) => {
                                let in_tags = self.nodes@[v as int].input_set.tags_spec();
                                if pin_in.pin_id >= in_tags.len() {
                                    Err(Error::InputNotFound)
                                } else if in_tags[pin_in.pin_id as int] != pin_in.event_type {
                                    Err(Error::UnexpectedEventType)
                                } else if schedulable(
                                    self.nodes@.len() as nat,
                                    self.edges@.push((u, v)),
                                ) {
                                    Ok(())
                                } else {
                                    Err(Error::Cycle)
                                }
                            },
                        }
                    }
                },
            }
        }
    }

    /// Try to connect the output and input, see `connect_any`.
    pub fn connect(&mut self, pin_out: &TypedOutHandle, pin_in: &TypedInHandle) -> (r: Result<
        (),
        Error,
    >)
        requires
            old(self).wf(),
        ensures
            final(self).wf(),
            r == old(self).connect_verdict(pin_out.handle, pin_in.handle),
            r is Err ==> *final(self) == *old(self),
            r is Ok ==> old(self).connected(*final(self), pin_out.handle, pin_in.handle),
    {
        self.connect_any(pin_out.handle(), pin_in.handle())
    }

    /// How a system that accepted a connection relates to what it was: the
    /// target handle is appended to the named output pin's listeners, a node
    /// to node edge is recorded exactly when both endpoints are registered,
    /// and nothing else changes — the visiting order is replaced by one that
    /// is again topological for the grown edge set, which `wf` records.
    pub open spec fn connected(&self, post: Self, pin_out: OutHandle, pin_in: InHandle) -> bool {
        &&& post.input_set_references == self.input_set_references
        &&& post.output_set_references == self.output_set_references
        &&& post.id_counter == self.id_counter
        &&& post.nodes@.len() == self.nodes@.len()
        &&& if pin_out.set_id.0 == self.system_inputs.id_spec() {
            &&& post.system_inputs.id_spec() == self.system_inputs.id_spec()
            &&& post.system_inputs.pins_spec() == self.system_inputs.pins_spec().update(
                pin_out.pin_id as int,
                (OutView {
                    event_type: self.system_inputs.pins_spec()[pin_out.pin_id as int].event_type,
                    listeners: self.system_inputs.pins_spec()[
                        pin_out.pin_id as int
                    ].listeners.push(pin_in),
                    pending: self.system_inputs.pins_spec()[pin_out.pin_id as int].pending,
                }),
            )
            &&& post.nodes == self.nodes
            &&& post.edges == self.edges
            &&& post.order == self.order
        } else {
            let u = spec_find_ref(self.output_set_references@, pin_out.set_id.0).unwrap();
            &&& post.system_inputs == self.system_inputs
            &&& (forall|i: int|
                0 <= i < self.nodes@.len() && i != u as int ==> post.nodes@[i] == self.nodes@[i])
            &&& post.nodes@[u as int].input_set == self.nodes@[u as int].input_set
            &&& post.nodes@[u as int].behaviour == self.nodes@[u as int].behaviour
            &&& post.nodes@[u as int].output_set.id_spec() == self.nodes@[
                u as int
            ].output_set.id_spec()
            &&& post.nodes@[u as int].output_set.pins_spec() == self.nodes@[
                u as int
            ].output_set.pins_spec().update(
                pin_out.pin_id as int,
                (OutView {
                    event_type: self.nodes@[u as int].output_set.pins_spec()[
                        pin_out.pin_id as int
                    ].event_type,
                    listeners: self.nodes@[u as int].output_set.pins_spec()[
                        pin_out.pin_id as int
                    ].listeners.push(pin_in),
                    pending: self.nodes@[u as int].output_set.pins_spec()[
                        pin_out.pin_id as int
                    ].pending,
                }),
            )
            &&& match spec_find_ref(self.input_set_references@, pin_in.input_set.0) {
                None => post.edges == self.edges && post.order == self.order,
                Some(v) => post.edges@ == self.edges@.push((u, v)),
            }
        }
    }

    /// Try to connect the output and input.  The operation fails if the
    /// handles' event types differ, if the output cannot be resolved or does
    /// not carry the claimed type, or if the connection would close a cycle
    /// in the graph; a failed connect leaves the system exactly as it was.
    pub fn connect_any(&mut self, pin_out: &OutHandle, pin_in: &InHandle) -> (r: Result<(), Error>)
        requires
            old(self).wf(),
        ensures
            final(self).wf(),
            r == old(self).connect_verdict(*pin_out, *pin_in),
            r is Err ==> *final(self) == *old(self),
            r is Ok ==> old(self).connected(*final(self), *pin_out, *pin_in),
    {
        if pin_out.event_type_id() != pin_in.event_type_id() {
            return Err(Error::IncompatiblePinTypes);
        }
        let sys_id = self.system_inputs.id();
        if pin_out.set_id.0 == sys_id.0 {
            // a system-level source has no inputs, so it can close no cycle
            let tag = match self.system_inputs.pin_tag(pin_out.pin_id) {
                Some(tag) => tag,
                None => {
                    return Err(Error::OutputNotFound);
                },
            };
            if tag != pin_out.event_type {
                return Err(Error::UnexpectedEventType);
            }
            match find_ref(&self.input_set_references, pin_in.input_set.0) {
                None => {},
                Some(v) => {
                    proof {
                        lemma_find_ref_member(self.input_set_references@, pin_in.input_set.0, v);
                    }
                    match self.nodes[v].input_set.tag_of(pin_in.pin_id) {
                        None => {
                            return Err(Error::InputNotFound);
                        },
                        Some(in_tag) => {
                            if in_tag != pin_in.event_type {
                                return Err(Error::UnexpectedEventType);
                            }
                        },
                    }
                },
            }
            match self.system_inputs.connect(pin_out.pin_id, *pin_in) {
                Ok(()) => Ok(()),
                Err(e) => {
                    proof {
                        assert(false);
                    }
                    Err(e)
                },
            }
        } else {
            let u = match find_ref(&self.output_set_references, pin_out.set_id.0) {
                Some(u) => u,
                None => {
                    return Err(Error::OutputNotFound);
                },
            };
            proof {
                lemma_find_ref_member(self.output_set_references@, pin_out.set_id.0, u);
            }
            let node = &self.nodes[u];
            let tag = match node.output_set.pin_tag(pin_out.pin_id) {
                Some(tag) => tag,
                None => {
                    return Err(Error::OutputNotFound);
                },
            };
            if tag != pin_out.event_type {
                return Err(Error::UnexpectedEventType);
            }
            match find_ref(&self.input_set_references, pin_in.input_set.0) {
                Some(v) => {
                    proof {
                        lemma_find_ref_member(self.input_set_references@, pin_in.input_set.0, v);
                    }
                    // the target is registered and can be checked: the
                    // handle's pin and claimed event type must fit its slot
                    // table, before anything mutates
                    match self.nodes[v].input_set.tag_of(pin_in.pin_id) {
                        None => {
                            return Err(Error::InputNotFound);
                        },
                        Some(in_tag) => {
                            if in_tag != pin_in.event_type {
                                return Err(Error::UnexpectedEventType);
                            }
                        },
                    }
                    // judge acyclicity of the candidate edge set before
                    // committing anything
                    let mut candidate = copy_edges(&self.edges);
                    candidate.push((u, v));
                    match compute_order(self.nodes.len(), &candidate) {
                        None => Err(Error::Cycle),
                        Some(new_order) => {
                            let node = &mut self.nodes[u];
                            match node.output_set.connect(pin_out.pin_id, *pin_in) {
                                Ok(()) => {
                                    self.edges.push((u, v));
                                    self.order = new_order;
                                    Ok(())
                                },
                                Err(e) => {
                                    proof {
                                        assert(false);
                                    }
                                    Err(e)
                                },
                            }
                        },
                    }
                },
                None => {
                    let node = &mut self.nodes[u];
                    match node.output_set.connect(pin_out.pin_id, *pin_in) {
                        Ok(()) => Ok(()),
                        Err(e) => {
                            proof {
                                assert(false);
                            }
                            Err(e)
                        },
                    }
                },
            }
        }
    }

    /// Whether a handle names a live input pin of the system itself, with
    /// that pin's declared event type.
    pub open spec fn names_system_input(&self, h: OutHandle) -> bool {
        &&& h.set_id.0 == self.system_inputs.id_spec()
        &&& h.pin_id < self.system_inputs.pins_spec().len()
        &&& h.event_type == self.system_inputs.pins_spec()[h.pin_id as int].event_type
    }

    /// How one delivery to the node at `idx` relates the system afterwards to
    /// the system before: every other node is untouched; a delivery whose pin
    /// or claimed event type does not fit the target's slot table changes
    /// nothing; and a fitting delivery buffers the event by the target slot's
    /// own policy and ORs the policy's verdict into the target's dirty flag.
    pub open spec fn delivered_at(
        &self,
        post: Self,
        idx: usize,
        target: InHandle,
        event: E,
    ) -> bool {
        let tgt = self.nodes@[idx as int].input_set;
        &&& (forall|i: int|
            0 <= i < self.nodes@.len() && i != idx as int ==> post.nodes@[i] == self.nodes@[i])
        &&& ((target.pin_id >= tgt.tags_spec().len() || target.event_type != tgt.tags_spec()[
            target.pin_id as int
        ]) ==> post.nodes@ == self.nodes@)
        &&& ((tgt.slots_wf() && target.pin_id < tgt.tags_spec().len() && target.event_type
            == tgt.tags_spec()[target.pin_id as int]) ==> {
            let landed = post.nodes@[idx as int].input_set;
            &&& landed.slots_spec() == tgt.slots_pushed(target.pin_id as int, event)
            &&& landed.dirty_spec() == (tgt.dirty_spec() || tgt.push_marks(
                target.pin_id as int,
                event,
            ))
        })
    }

    /// The effect of delivering one erased event through a handle, as
    /// `deliver` leaves it: every part of the system but the resolved target
    /// node is untouched, an unresolvable handle changes nothing at all, and
    /// a resolved one lands as `delivered_at` says.
    pub open spec fn delivered_one(self, post: Self, target: InHandle, event: E) -> bool {
        &&& post.system_inputs == self.system_inputs
        &&& post.input_set_references == self.input_set_references
        &&& post.output_set_references == self.output_set_references
        &&& post.edges == self.edges
        &&& post.order == self.order
        &&& post.id_counter == self.id_counter
        &&& post.nodes@.len() == self.nodes@.len()
        &&& (forall|i: int|
            0 <= i < self.nodes@.len() ==> {
                &&& (#[trigger] post.nodes@[i]).output_set == self.nodes@[i].output_set
                &&& post.nodes@[i].behaviour == self.nodes@[i].behaviour
                &&& post.nodes@[i].input_set.id_spec() == self.nodes@[i].input_set.id_spec()
                &&& post.nodes@[i].input_set.tags_spec() == self.nodes@[i].input_set.tags_spec()
                &&& post.nodes@[i].input_set.slots_wf() == self.nodes@[i].input_set.slots_wf()
            })
        &&& (spec_find_ref(self.input_set_references@, target.input_set.0) is None ==> post
            == self)
        &&& (spec_find_ref(self.input_set_references@, target.input_set.0) matches Some(idx)
            ==> self.delivered_at(post, idx, target, event))
    }

    /// Deliver one erased event to the input pin a handle names.  A handle
    /// whose set id resolves to no registered node — a vanished or foreign
    /// target — is tolerated: the delivery is a silent no-op.
    fn deliver(&mut self, target: &InHandle, event: &E)
        requires
            old(self).wf(),
        ensures
            final(self).wf(),
            old(self).delivered_one(*final(self), *target, *event),
    {
        match find_ref(&self.input_set_references, target.input_set.0) {
            Some(node_index) => {
                proof {
                    lemma_find_ref_member(
                        self.input_set_references@,
                        target.input_set.0,
                        node_index,
                    );
                }
                let fits = match self.nodes[node_index].input_set.tag_of(target.pin_id) {
                    Some(tag) => tag == target.event_type,
                    None => false,
                };
                if fits {
                    let node = &mut self.nodes[node_index];
                    node.input_set.push(target.pin_id, target.event_type, event);
                }
            },
            None => {},
        }
    }

    /// Each consecutive pair of `trace` is one delivery step: entry `i`
    /// delivers `ds[i]` and becomes entry `i + 1`.
    pub open spec fn delivery_chain(trace: Seq<Self>, ds: Seq<(InHandle, E)>) -> bool {
        &&& trace.len() == ds.len() + 1
        &&& (forall|i: int|
            0 <= i < ds.len() ==> (#[trigger] trace[i]).delivered_one(
                trace[i + 1],
                ds[i].0,
                ds[i].1,
            ))
    }

    /// Every delivery of `ds` happens, in order, leading from this system to
    /// `post`: a trace of intermediate systems witnesses each single step.
    pub open spec fn delivered_all(self, post: Self, ds: Seq<(InHandle, E)>) -> bool {
        exists|trace: Seq<Self>|
            #[trigger] Self::delivery_chain(trace, ds) && trace.first() == self && trace.last()
                == post
    }

    /// The node at `idx` was processed — `processed` relates it to what it
    /// was, and it owes the deliveries `ds` — while every other part of the
    /// system stayed untouched.
    pub open spec fn processed_at(self, post: Self, idx: int, ds: Seq<(InHandle, E)>) -> bool {
        &&& 0 <= idx < self.nodes@.len()
        &&& post.system_inputs == self.system_inputs
        &&& post.input_set_references == self.input_set_references
        &&& post.output_set_references == self.output_set_references
        &&& post.edges == self.edges
        &&& post.order == self.order
        &&& post.id_counter == self.id_counter
        &&& post.nodes@.len() == self.nodes@.len()
        &&& (forall|i: int|
            0 <= i < self.nodes@.len() && i != idx ==> #[trigger] post.nodes@[i]
                == self.nodes@[i])
        &&& processed(self.nodes@[idx], post.nodes@[idx], ds)
    }

    /// One full visit of the node at `idx`: the node was processed exactly
    /// once, and every delivery it owed was then delivered, in order.
    pub open spec fn visited(self, post: Self, idx: int) -> bool {
        exists|mid: Self, ds: Seq<(InHandle, E)>|
            #[trigger] self.processed_at(mid, idx, ds) && mid.delivered_all(post, ds)
    }

    /// Each consecutive pair of `trace` is one node visit, following `order`.
    pub open spec fn round_chain(trace: Seq<Self>, order: Seq<usize>) -> bool {
        &&& trace.len() == order.len() + 1
        &&& (forall|i: int|
            0 <= i < order.len() ==> (#[trigger] trace[i]).visited(
                trace[i + 1],
                order[i] as int,
            ))
    }

    /// One full round over `order`, leading from this system to `post`:
    /// every listed node was visited exactly once, in order, and a trace of
    /// intermediate systems witnesses each visit.
    pub open spec fn round(self, post: Self, order: Seq<usize>) -> bool {
        exists|trace: Seq<Self>|
            #[trigger] Self::round_chain(trace, order) && trace.first() == self && trace.last()
                == post
    }

    /// One propagation round: visit the nodes in the stored topological
    /// order, which puts every node after the nodes that feed it.  A node
    /// found dirty at its visit is processed exactly once — its behaviour
    /// runs, its dirty flag is reset afterwards, and the events it sent are
    /// delivered onward — and a node found clean is left untouched.  A node
    /// is never revisited within a round: an event that reaches it after its
    /// visit stays latched for the next round.
    fn run(&mut self)
        requires
            old(self).wf(),
        ensures
            final(self).wf(),
            final(self).system_inputs == old(self).system_inputs,
            final(self).input_set_references == old(self).input_set_references,
            final(self).output_set_references == old(self).output_set_references,
            final(self).edges == old(self).edges,
            final(self).order == old(self).order,
            final(self).id_counter == old(self).id_counter,
            final(self).nodes@.len() == old(self).nodes@.len(),
            old(self).round(*final(self), old(self).order@),
    {
        let mut k: usize = 0;
        let round_length = self.order.len();
        let ghost mut rtrace: Seq<System<E, B>> = seq![*self];
        while k < round_length
            invariant
                k <= round_length,
                round_length == self.order@.len(),
                self.wf(),
                self.system_inputs == old(self).system_inputs,
                self.input_set_references == old(self).input_set_references,
                self.output_set_references == old(self).output_set_references,
                self.edges == old(self).edges,
                self.order == old(self).order,
                self.id_counter == old(self).id_counter,
                self.nodes@.len() == old(self).nodes@.len(),
                Self::round_chain(rtrace, old(self).order@.take(k as int)),
                rtrace.first() == *old(self),
                rtrace.last() == *self,
            decreases round_length - k,
        {
            let ghost at_visit = *self;
            let node_index = self.order[k];
            proof {
                assert(self.order@[k as int] == node_index);
                assert((node_index as nat) < self.nodes@.len() as nat);
            }
            let node = &mut self.nodes[node_index];
            let deliveries = node.process();
            let ghost fanned = *self;
            proof {
                assert(at_visit.processed_at(fanned, node_index as int, deliveries@));
            }
            let ghost mut dtrace: Seq<System<E, B>> = seq![*self];
            let mut d: usize = 0;
            while d < deliveries.len()
                invariant
                    d <= deliveries@.len(),
                    self.wf(),
                    self.system_inputs == old(self).system_inputs,
                    self.input_set_references == old(self).input_set_references,
                    self.output_set_references == old(self).output_set_references,
                    self.edges == old(self).edges,
                    self.order == old(self).order,
                    self.id_counter == old(self).id_counter,
                    self.nodes@.len() == old(self).nodes@.len(),
                    Self::delivery_chain(dtrace, deliveries@.take(d as int)),
                    dtrace.first() == fanned,
                    dtrace.last() == *self,
                decreases deliveries@.len() - d,
            {
                let ghost before = *self;
                let item = &deliveries[d];
                self.deliver(&item.0, &item.1);
                proof {
                    dtrace = dtrace.push(*self);
                    assert(deliveries@.take(d + 1) =~= deliveries@.take(d as int).push(
                        deliveries@[d as int],
                    ));
                    assert(before.delivered_one(
                        *self,
                        deliveries@[d as int].0,
                        deliveries@[d as int].1,
                    ));
                    assert(Self::delivery_chain(dtrace, deliveries@.take(d + 1))) by {
                        assert(forall|i: int|
                            0 <= i < d ==> #[trigger] dtrace[i] == dtrace.drop_last()[i]);
                        assert(dtrace[d as int] == before);
                        assert(dtrace[d + 1] == *self);
                    }
                }
                d = d + 1;
            }
            proof {
                assert(deliveries@.take(deliveries@.len() as int) =~= deliveries@);
                assert(fanned.delivered_all(*self, deliveries@)) by {
                    assert(Self::delivery_chain(dtrace, deliveries@));
                }
                assert(at_visit.visited(*self, node_index as int));
                rtrace = rtrace.push(*self);
                assert(old(self).order@.take(k + 1) =~= old(self).order@.take(k as int).push(
                    old(self).order@[k as int],
                ));
                assert(Self::round_chain(rtrace, old(self).order@.take(k + 1))) by {
                    assert(forall|i: int|
                        0 <= i < k ==> #[trigger] rtrace[i] == rtrace.drop_last()[i]);
                    assert(rtrace[k as int] == at_visit);
                    assert(rtrace[k + 1] == *self);
                }
            }
            k = k + 1;
        }
        proof {
            assert(old(self).order@.take(round_length as int) =~= old(self).order@);
            assert(old(self).round(*self, old(self).order@)) by {
                assert(Self::round_chain(rtrace, old(self).order@));
            }
        }
    }

    /// The injection step of `run_on`: the event is appended to the named
    /// system pin's pending buffer, then every system pin is drained into
    /// the fan-out deliveries `ds` — for each pending event in send order,
    /// one copy per registered listener in registration order — with
    /// everything else untouched.
    pub open spec fn injected(self, post: Self, pin: int, event: E, ds: Seq<(InHandle, E)>) -> bool {
        let pushed = self.system_inputs.pins_spec().update(
            pin,
            (OutView {
                event_type: self.system_inputs.pins_spec()[pin].event_type,
                listeners: self.system_inputs.pins_spec()[pin].listeners,
                pending: self.system_inputs.pins_spec()[pin].pending.push(event),
            }),
        );
        &&& post.input_set_references == self.input_set_references
        &&& post.output_set_references == self.output_set_references
        &&& post.nodes == self.nodes
        &&& post.edges == self.edges
        &&& post.order == self.order
        &&& post.id_counter == self.id_counter
        &&& post.system_inputs.id_spec() == self.system_inputs.id_spec()
        &&& post.system_inputs.pins_spec() == cleared(pushed)
        &&& ds == deliveries_of(pushed)
    }

    /// Send an event to an input of the system and run one propagation round
    /// of the graph to completion.  A handle that does not name a live system
    /// input of the event's declared type is rejected, and nothing changes.
    /// An accepted injection does three things, and the contract names the
    /// intermediate systems that witness them: the event fans out to every
    /// listener of the named pin, the fan-out is delivered in order, and one
    /// full round then visits every node in the stored topological order.
    pub fn run_on(&mut self, input: &TypedOutHandle, event: &E) -> (r: Result<(), Error>)
        requires
            old(self).wf(),
        ensures
            final(self).wf(),
            r is Ok <==> old(self).names_system_input(input.handle),
            r is Err ==> r == Err::<(), Error>(Error::InputNotFound) && *final(self) == *old(self),
            r is Ok ==> {
                &&& final(self).system_inputs.id_spec() == old(self).system_inputs.id_spec()
                &&& final(self).system_inputs.pins_spec() == cleared(
                    old(self).system_inputs.pins_spec(),
                )
                &&& final(self).input_set_references == old(self).input_set_references
                &&& final(self).output_set_references == old(self).output_set_references
                &&& final(self).edges == old(self).edges
                &&& final(self).order == old(self).order
                &&& final(self).id_counter == old(self).id_counter
                &&& final(self).nodes@.len() == old(self).nodes@.len()
            },
            r is Ok ==> exists|fanned: Self, readied: Self, ds: Seq<(InHandle, E)>|
                #![trigger old(self).injected(fanned, input.handle.pin_id as int, *event, ds), fanned.delivered_all(readied, ds)]
                {
                    &&& old(self).injected(fanned, input.handle.pin_id as int, *event, ds)
                    &&& fanned.delivered_all(readied, ds)
                    &&& readied.round(*final(self), readied.order@)
                },
    {
        let sys_id = self.system_inputs.id();
        if input.set_id().0 != sys_id.0 {
            return Err(Error::InputNotFound);
        }
        let pin = input.pin_id();
        let tag = match self.system_inputs.pin_tag(pin) {
            Some(tag) => tag,
            None => {
                return Err(Error::InputNotFound);
            },
        };
        if tag != input.handle.event_type {
            return Err(Error::InputNotFound);
        }
        let out = &mut self.system_inputs.outputs[pin];
        out.send(event);
        let ghost pushed = self.system_inputs.pins_spec();
        proof {
            assert(pushed =~= old(self).system_inputs.pins_spec().update(
                pin as int,
                (OutView {
                    event_type: old(self).system_inputs.pins_spec()[pin as int].event_type,
                    listeners: old(self).system_inputs.pins_spec()[pin as int].listeners,
                    pending: old(self).system_inputs.pins_spec()[
                        pin as int
                    ].pending.push(*event),
                }),
            ));
        }
        let deliveries = self.system_inputs.drain();
        let ghost fanned = *self;
        proof {
            assert(fanned.system_inputs.pins_spec() =~= cleared(
                old(self).system_inputs.pins_spec(),
            ));
            assert(old(self).injected(fanned, pin as int, *event, deliveries@));
        }
        let ghost mut dtrace: Seq<System<E, B>> = seq![*self];
        let mut d: usize = 0;
        while d < deliveries.len()
            invariant
                d <= deliveries@.len(),
                self.wf(),
                self.system_inputs == fanned.system_inputs,
                self.input_set_references == fanned.input_set_references,
                self.output_set_references == fanned.output_set_references,
                self.edges == fanned.edges,
                self.order == fanned.order,
                self.id_counter == fanned.id_counter,
                self.nodes@.len() == fanned.nodes@.len(),
                Self::delivery_chain(dtrace, deliveries@.take(d as int)),
                dtrace.first() == fanned,
                dtrace.last() == *self,
            decreases deliveries@.len() - d,
        {
            let ghost before = *self;
            let item = &deliveries[d];
            self.deliver(&item.0, &item.1);
            proof {
                dtrace = dtrace.push(*self);
                assert(deliveries@.take(d + 1) =~= deliveries@.take(d as int).push(
                    deliveries@[d as int],
                ));
                assert(before.delivered_one(
                    *self,
                    deliveries@[d as int].0,
                    deliveries@[d as int].1,
                ));
                assert(Self::delivery_chain(dtrace, deliveries@.take(d + 1))) by {
                    assert(forall|i: int|
                        0 <= i < d ==> #[trigger] dtrace[i] == dtrace.drop_last()[i]);
                    assert(dtrace[d as int] == before);
                    assert(dtrace[d + 1] == *self);
                }
            }
            d = d + 1;
        }
        let ghost readied = *self;
        proof {
            assert(deliveries@.take(deliveries@.len() as int) =~= deliveries@);
            assert(fanned.delivered_all(readied, deliveries@)) by {
                assert(Self::delivery_chain(dtrace, deliveries@));
            }
        }
        self.run();
        proof {
            assert(readied.round(*self, readied.order@));
        }
        Ok(())
    }
}

impl<E: Event, B: Behaviour<E>> Default for System<E, B> {
    /// A fresh system: no nodes, no edges, and an empty system input set
    /// carrying the first id the counter hands out.
    fn default() -> (s: Self)
        ensures
            s.wf(),
            s.id_counter == 1,
            s.system_inputs.id_spec() == 0,
            s.system_inputs.pins_spec() == Seq::<OutView<E>>::empty(),
            s.input_set_references@ == Seq::<(u64, usize)>::empty(),
            s.output_set_references@ == Seq::<(u64, usize)>::empty(),
            s.nodes@.len() == 0,
            s.edges@ == Seq::<(usize, usize)>::empty(),
            s.order@ == Seq::<usize>::empty(),
    {
        let mut counter: u64 = 0;
        let sys_id = next_id(&mut counter);
        let mut system_inputs: DynamicOutSet<E> = DynamicOutSet::new();
        system_inputs.assign_id(OutputSetId::new(sys_id));
        let s = System {
            id_counter: counter,
            system_inputs,
            input_set_references: Vec::new(),
            output_set_references: Vec::new(),
            nodes: Vec::new(),
            edges: Vec::new(),
            order: Vec::new(),
        };
        proof {
            assert(s.system_inputs.pins_spec() =~= Seq::<OutView<E>>::empty());
            assert(valid_order(s.order@, s.nodes@.len() as nat, s.edges@));
        }
        s
    }
}

} // verus!

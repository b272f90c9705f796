//! The records that can be attached to an entity of the circuit.

use vstd::prelude::*;

pub mod nodes;

use crate::components::nodes::{arity_in, arity_out, evaluate, Node, NodeTy};

verus! {

/// An entity's identity: the index of its slot in the store and the
/// generation of that slot. A reference is weak: it names an entity and
/// finds nothing once the entity is gone.
#[derive(Clone, Copy, Debug, PartialEq, Eq, Hash, Structural)]
pub struct Entity {
    pub index: u32,
    pub generation: i32,
}

/// One of the four cardinal rotations.
#[derive(Clone, Copy, Debug, PartialEq, Eq, Structural)]
pub enum Orientation {
    Up,
    Down,
    Left,
    Right,
}

/// Where an entity is drawn, in whole canvas units.
#[derive(Clone, Copy, Debug, PartialEq, Eq, Structural)]
pub struct Pos {
    pub orientation: Orientation,
    pub x: i32,
    pub y: i32,
}

/// The grid increment that committed positions are snapped to.
pub const SNAP: i32 = 75;

/// The multiple of the grid increment nearest to `x`.
pub open spec fn snap(x: int) -> int {
    ((x + SNAP / 2) / (SNAP as int)) * SNAP
}

/// The grid line nearest to `x` lies within half an increment of it; because
/// the increment is odd there is never a tie.
pub proof fn lemma_snap_is_nearest(x: int)
    ensures
        snap(x) % (SNAP as int) == 0,
        -(SNAP / 2) <= snap(x) - x <= SNAP / 2,
{
    let t = x + 37;
    vstd::arithmetic::div_mod::lemma_fundamental_div_mod(t, 75);
    vstd::arithmetic::div_mod::lemma_mod_multiples_basic(t / 75, 75);
    assert(snap(x) == (t / 75) * 75);
    assert(0 <= t % 75 < 75);
}

/// Snapping a value that is already on the grid leaves it there.
pub proof fn lemma_snap_idempotent(x: int)
    ensures
        snap(snap(x)) == snap(x),
{
    let q = (x + 37) / 75;
    assert(snap(x) == q * 75);
    vstd::arithmetic::div_mod::lemma_fundamental_div_mod_converse(q * 75 + 37, 75, q, 37);
}

/// Snaps one coordinate to the grid.
pub fn round_to_snap(x: i32) -> (snapped: i32)
    ensures
        snapped == snap(x as int),
{
    let step: i64 = SNAP as i64;
    let shifted: i64 = x as i64 + step / 2;
    let cells: i64 = if shifted >= 0 {
        shifted / step
    } else {
        -((step - 1 - shifted) / step)
    };
    proof {
        assert(step == 75);
        let t = shifted as int;
        vstd::arithmetic::div_mod::lemma_fundamental_div_mod(t, 75);
        if t < 0 {
            let u = 74 - t;
            vstd::arithmetic::div_mod::lemma_fundamental_div_mod(u, 75);
            vstd::arithmetic::div_mod::lemma_fundamental_div_mod_converse(
                t,
                75,
                -(u / 75),
                74 - u % 75,
            );
        }
        assert(cells == t / 75);
        assert(-28633116 <= cells <= 28633116);
    }
    let snapped: i64 = cells * step;
    proof {
        lemma_snap_is_nearest(x as int);
    }
    snapped as i32
}

impl Pos {
    /// A placement snapped to the grid, facing right.
    pub fn from_vec(x: i32, y: i32) -> (pos: Pos)
        ensures
            pos.orientation == Orientation::Right,
            pos.x == snap(x as int),
            pos.y == snap(y as int),
    {
        Pos { orientation: Orientation::Right, x: round_to_snap(x), y: round_to_snap(y) }
    }

    /// A placement exactly where it is asked for, facing right.
    pub fn from_vec_unrounded(x: i32, y: i32) -> (pos: Pos)
        ensures
            pos == (Pos { orientation: Orientation::Right, x, y }),
    {
        Pos { orientation: Orientation::Right, x, y }
    }
}

/// The direction of a port, seen from its node.
#[derive(Clone, Copy, Debug, PartialEq, Eq, Structural)]
pub enum ConnectionTy {
    Input,
    Output,
}

/// A port: the attachment point between one slot of a node and at most one
/// wire. It references both and owns neither.
#[derive(Clone, Copy, Debug, PartialEq, Eq, Structural)]
pub struct Connection {
    /// The wire bound to this port, if any.
    pub wire: Option<Entity>,
    /// Whether the port feeds the node or is fed by it.
    pub ty: ConnectionTy,
    /// The position of this port in the node's input or output list.
    pub index: usize,
    /// The node that this port belongs to.
    pub node: Entity,
}

/// A wire: one boolean signal. It knows nothing of its endpoints.
#[derive(Clone, Copy, Debug, PartialEq, Eq, Structural)]
pub struct Wire {
    pub signal: bool,
}

/// A node instance: a kind and the ports on its inputs and outputs.
#[derive(Debug, PartialEq, Eq)]
pub struct Connected {
    node: NodeTy,
    inputs: Vec<Option<Entity>>,
    outputs: Vec<Option<Entity>>,
}

/// What a node instance holds.
pub struct ConnectedView {
    pub node: NodeTy,
    pub inputs: Seq<Option<Entity>>,
    pub outputs: Seq<Option<Entity>>,
}

impl ConnectedView {
    /// The reference lists have exactly the lengths that the kind declares.
    pub open spec fn wf(self) -> bool {
        &&& self.inputs.len() == arity_in(self.node)
        &&& self.outputs.len() == arity_out(self.node)
    }

    /// A node of the given kind with nothing connected.
    pub open spec fn unconnected(kind: NodeTy) -> ConnectedView {
        ConnectedView {
            node: kind,
            inputs: Seq::new(arity_in(kind), |i: int| None::<Entity>),
            outputs: Seq::new(arity_out(kind), |i: int| None::<Entity>),
        }
    }
}

impl View for Connected {
    type V = ConnectedView;

    closed spec fn view(&self) -> ConnectedView {
        ConnectedView { node: self.node, inputs: self.inputs@, outputs: self.outputs@ }
    }
}

impl Connected {
    /// The arity invariant of this node.
    pub open spec fn wf(&self) -> bool {
        self@.wf()
    }

    /// A node of the given kind with every input and output unconnected.
    pub fn new(kind: NodeTy) -> (node: Connected)
        ensures
            node.wf(),
            node@ == ConnectedView::unconnected(kind),
    {
        let mut inputs: Vec<Option<Entity>> = Vec::new();
        let mut outputs: Vec<Option<Entity>> = Vec::new();
        let n_in: usize = kind.inputs();
        let n_out: usize = kind.outputs();
        while inputs.len() < n_in
            invariant
                inputs@.len() <= n_in,
                forall|i: int| 0 <= i < inputs@.len() ==> inputs@[i] == None::<Entity>,
            decreases n_in - inputs@.len(),
        {
            inputs.push(None);
        }
        while outputs.len() < n_out
            invariant
                outputs@.len() <= n_out,
                forall|i: int| 0 <= i < outputs@.len() ==> outputs@[i] == None::<Entity>,
            decreases n_out - outputs@.len(),
        {
            outputs.push(None);
        }
        let node = Connected { node: kind, inputs, outputs };
        assert(node@.inputs =~= ConnectedView::unconnected(kind).inputs);
        assert(node@.outputs =~= ConnectedView::unconnected(kind).outputs);
        node
    }

    /// A node of the given kind on the given ports. The lists are taken only
    /// if they have the lengths that the kind declares.
    pub fn wired(
        kind: NodeTy,
        inputs: Vec<Option<Entity>>,
        outputs: Vec<Option<Entity>>,
    ) -> (node: Option<Connected>)
        ensures
            node is Some <==> inputs@.len() == arity_in(kind) && outputs@.len() == arity_out(kind),
            node matches Some(built) ==> built.wf() && built@ == (ConnectedView {
                node: kind,
                inputs: inputs@,
                outputs: outputs@,
            }),
    {
        if inputs.len() == kind.inputs() && outputs.len() == kind.outputs() {
            Some(Connected { node: kind, inputs, outputs })
        } else {
            None
        }
    }

    /// The kind of this node.
    pub fn node(&self) -> (kind: NodeTy)
        ensures
            kind == self@.node,
    {
        self.node
    }

    /// The references on the inputs, in slot order.
    pub fn inputs(&self) -> (refs: &Vec<Option<Entity>>)
        ensures
            refs@ == self@.inputs,
    {
        &self.inputs
    }

    /// The references on the outputs, in slot order.
    pub fn outputs(&self) -> (refs: &Vec<Option<Entity>>)
        ensures
            refs@ == self@.outputs,
    {
        &self.outputs
    }

    /// Points input `slot` at `target`. A slot that the kind does not have is
    /// refused, and the lists are never resized.
    pub fn set_input(&mut self, slot: usize, target: Option<Entity>) -> (done: bool)
        ensures
            done == (slot < old(self)@.inputs.len()),
            done ==> final(self)@ == (ConnectedView {
                inputs: old(self)@.inputs.update(slot as int, target),
                ..old(self)@
            }),
            !done ==> final(self)@ == old(self)@,
    {
        if slot < self.inputs.len() {
            self.inputs.set(slot, target);
            true
        } else {
            false
        }
    }

    /// Points output `slot` at `target`. A slot that the kind does not have
    /// is refused, and the lists are never resized.
    pub fn set_output(&mut self, slot: usize, target: Option<Entity>) -> (done: bool)
        ensures
            done == (slot < old(self)@.outputs.len()),
            done ==> final(self)@ == (ConnectedView {
                outputs: old(self)@.outputs.update(slot as int, target),
                ..old(self)@
            }),
            !done ==> final(self)@ == old(self)@,
    {
        if slot < self.outputs.len() {
            self.outputs.set(slot, target);
            true
        } else {
            false
        }
    }

    /// Evaluates the node's kind on one input vector.
    pub fn calculate_state(&self, inputs: &Vec<bool>) -> (outputs: Vec<bool>)
        requires
            inputs@.len() == arity_in(self@.node),
        ensures
            outputs@ == evaluate(self@.node, inputs@),
            outputs@.len() == arity_out(self@.node),
    {
        self.node.calculate_state(inputs)
    }

    /// A copy of this node.
    pub fn duplicate(&self) -> (copy: Connected)
        ensures
            copy@ == self@,
    {
        let mut inputs: Vec<Option<Entity>> = Vec::new();
        let mut outputs: Vec<Option<Entity>> = Vec::new();
        let mut i: usize = 0;
        while i < self.inputs.len()
            invariant
                i <= self.inputs@.len(),
                inputs@ == self.inputs@.subrange(0, i as int),
            decreases self.inputs@.len() - i,
        {
            inputs.push(self.inputs[i]);
            assert(inputs@ =~= self.inputs@.subrange(0, i + 1));
            i += 1;
        }
        let mut j: usize = 0;
        while j < self.outputs.len()
            invariant
                j <= self.outputs@.len(),
                outputs@ == self.outputs@.subrange(0, j as int),
            decreases self.outputs@.len() - j,
        {
            outputs.push(self.outputs[j]);
            assert(outputs@ =~= self.outputs@.subrange(0, j + 1));
            j += 1;
        }
        assert(inputs@ =~= self.inputs@);
        assert(outputs@ =~= self.outputs@);
        Connected { node: self.node, inputs, outputs }
    }
}

/// The role of an entity in the circuit. An entity has at most one.
#[derive(Debug, PartialEq, Eq)]
pub enum Record {
    Node(Connected),
    Wire(Wire),
    Port(Connection),
}

/// What a record holds.
pub enum RecordView {
    Node(ConnectedView),
    Wire(Wire),
    Port(Connection),
}

impl View for Record {
    type V = RecordView;

    open spec fn view(&self) -> RecordView {
        match self {
            Record::Node(node) => RecordView::Node(node@),
            Record::Wire(wire) => RecordView::Wire(*wire),
            Record::Port(port) => RecordView::Port(*port),
        }
    }
}

/// What an optional record holds.
pub open spec fn shown(record: Option<Record>) -> Option<RecordView> {
    match record {
        Some(record) => Some(record@),
        None => None,
    }
}

impl RecordView {
    /// A node record obeys the arity invariant; the others have none.
    pub open spec fn wf(self) -> bool {
        self matches RecordView::Node(node) ==> node.wf()
    }
}

impl Record {
    /// The record's own invariant.
    pub open spec fn wf(&self) -> bool {
        self@.wf()
    }
}

} // verus!

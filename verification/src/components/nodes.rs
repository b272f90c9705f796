//! The catalog of node kinds: how many inputs and outputs each kind has, what
//! it computes, and where its ports sit relative to the node.

use vstd::prelude::*;

verus! {

/// The closed set of node kinds.
#[derive(Clone, Copy, Debug, PartialEq, Eq, Structural)]
pub enum NodeTy {
    /// Constant source, always `true`.
    On,
    /// Constant source, always `false`.
    Off,
    /// Logical negation.
    Not,
    /// Two-input conjunction.
    And,
    /// Two-input disjunction.
    Or,
    /// Negated conjunction.
    Nand,
    /// Negated disjunction.
    Nor,
    /// Exclusive or.
    Xor,
    /// Negated exclusive or.
    Xnor,
    /// Passthrough, the trivial node behind a bare wire.
    Wire,
}

/// Horizontal distance between a node and each of its ports.
pub const PORT_REACH: i32 = 50;

/// Vertical distance between two neighbouring ports on one side of a node.
pub const PORT_PITCH: i32 = 50;

/// Number of inputs of a kind.
pub open spec fn arity_in(kind: NodeTy) -> nat {
    match kind {
        NodeTy::On | NodeTy::Off => 0,
        NodeTy::Not | NodeTy::Wire => 1,
        NodeTy::And | NodeTy::Or | NodeTy::Nand | NodeTy::Nor | NodeTy::Xor | NodeTy::Xnor => 2,
    }
}

/// Number of outputs of a kind.
pub open spec fn arity_out(kind: NodeTy) -> nat {
    1
}

/// The output vector of a kind on an input vector of its arity.
pub open spec fn evaluate(kind: NodeTy, inputs: Seq<bool>) -> Seq<bool> {
    match kind {
        NodeTy::On => seq![true],
        NodeTy::Off => seq![false],
        NodeTy::Not => seq![!inputs[0]],
        NodeTy::Wire => seq![inputs[0]],
        NodeTy::And => seq![inputs[0] && inputs[1]],
        NodeTy::Or => seq![inputs[0] || inputs[1]],
        NodeTy::Nand => seq![!(inputs[0] && inputs[1])],
        NodeTy::Nor => seq![!(inputs[0] || inputs[1])],
        NodeTy::Xor => seq![inputs[0] != inputs[1]],
        NodeTy::Xnor => seq![inputs[0] == inputs[1]],
    }
}

/// Evaluation is pure: what a kind computes depends on its inputs alone,
/// so equal input vectors always give equal output vectors, of the kind's
/// output arity.
pub proof fn lemma_evaluate_is_pure(kind: NodeTy, first: Seq<bool>, second: Seq<bool>)
    requires
        first.len() == arity_in(kind),
        second.len() == arity_in(kind),
        forall|i: int| 0 <= i < first.len() ==> first[i] == second[i],
    ensures
        evaluate(kind, first) == evaluate(kind, second),
        evaluate(kind, first).len() == arity_out(kind),
{
    assert(first =~= second);
}

/// Vertical offset of port `slot` among `count` ports on one side: the ports
/// are spread evenly around the node's own height.
pub open spec fn spec_port_rise(slot: int, count: int) -> int {
    PORT_PITCH * slot - (PORT_PITCH / 2) * (count - 1)
}

/// Vertical offset of port `slot` among `count` ports on one side.
pub fn port_rise(slot: usize, count: usize) -> (rise: i32)
    requires
        slot < count <= 2,
    ensures
        rise == spec_port_rise(slot as int, count as int),
{
    let above: i32 = PORT_PITCH * (slot as i32);
    let half: i32 = (PORT_PITCH / 2) * (count as i32 - 1);
    above - half
}

/// Offset of input port `slot` from the node.
pub open spec fn input_offset(kind: NodeTy, slot: int) -> (int, int) {
    (-(PORT_REACH as int), spec_port_rise(slot, arity_in(kind) as int))
}

/// Offset of output port `slot` from the node.
pub open spec fn output_offset(kind: NodeTy, slot: int) -> (int, int) {
    (PORT_REACH as int, spec_port_rise(slot, arity_out(kind) as int))
}

/// A fixed-arity pure function over boolean signals.
pub trait Node {
    /// Length of the input vector.
    spec fn input_arity(&self) -> nat;

    /// Length of the output vector.
    spec fn output_arity(&self) -> nat;

    /// The function itself: it depends on the inputs and on nothing else.
    spec fn state(&self, inputs: Seq<bool>) -> Seq<bool>;

    /// Computes the outputs for one input vector.
    fn calculate_state(&self, inputs: &Vec<bool>) -> (outputs: Vec<bool>)
        requires
            inputs@.len() == self.input_arity(),
        ensures
            outputs@ == self.state(inputs@),
            outputs@.len() == self.output_arity(),
    ;
}

impl Node for NodeTy {
    open spec fn input_arity(&self) -> nat {
        arity_in(*self)
    }

    open spec fn output_arity(&self) -> nat {
        arity_out(*self)
    }

    open spec fn state(&self, inputs: Seq<bool>) -> Seq<bool> {
        evaluate(*self, inputs)
    }

    fn calculate_state(&self, inputs: &Vec<bool>) -> (outputs: Vec<bool>) {
        let value = match self {
            NodeTy::On => true,
            NodeTy::Off => false,
            NodeTy::Not => !inputs[0],
            NodeTy::Wire => inputs[0],
            NodeTy::And => inputs[0] && inputs[1],
            NodeTy::Or => inputs[0] || inputs[1],
            NodeTy::Nand => !(inputs[0] && inputs[1]),
            NodeTy::Nor => !(inputs[0] || inputs[1]),
            NodeTy::Xor => inputs[0] != inputs[1],
            NodeTy::Xnor => inputs[0] == inputs[1],
        };
        let mut outputs: Vec<bool> = Vec::new();
        outputs.push(value);
        assert(outputs@ =~= evaluate(*self, inputs@));
        outputs
    }
}

impl NodeTy {
    /// Number of inputs of this kind.
    pub fn inputs(&self) -> (n: usize)
        ensures
            n == arity_in(*self),
    {
        match self {
            NodeTy::On | NodeTy::Off => 0,
            NodeTy::Not | NodeTy::Wire => 1,
            _ => 2,
        }
    }

    /// Number of outputs of this kind.
    pub fn outputs(&self) -> (n: usize)
        ensures
            n == arity_out(*self),
    {
        1
    }

    /// Offset of input port `slot` from the node.
    pub fn input_offset(&self, slot: usize) -> (offset: (i32, i32))
        requires
            slot < arity_in(*self),
        ensures
            offset.0 == input_offset(*self, slot as int).0,
            offset.1 == input_offset(*self, slot as int).1,
    {
        (-PORT_REACH, port_rise(slot, self.inputs()))
    }

    /// Offset of output port `slot` from the node.
    pub fn output_offset(&self, slot: usize) -> (offset: (i32, i32))
        requires
            slot < arity_out(*self),
        ensures
            offset.0 == output_offset(*self, slot as int).0,
            offset.1 == output_offset(*self, slot as int).1,
    {
        (PORT_REACH, port_rise(slot, self.outputs()))
    }
}

} // verus!

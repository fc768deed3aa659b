use vstd::prelude::*;

verus! {

use crate::binary_decision_diagram::{
    assign_of, eval, handle_inv, node_inv_at, rank, BinaryDecisionDiagram,
};
use crate::binary_index::BinaryIndex;

/// A lightweight reference to a diagram value: one of the two terminal
/// leaves, or an internal node named by its index in the store's arena.
///
/// Handles are only meaningful together with the store they point into;
/// equality of handles is constant-time identity.
#[derive(Clone, Copy, PartialEq, Eq, Structural, Debug)]
pub enum NodeHandler {
    Node(usize),
    Leaf(bool),
}

/// What a handle decides on: the variable of an internal node, or the
/// Boolean value of a terminal leaf.
#[derive(Clone, Copy, PartialEq, Eq, Structural, Debug)]
pub enum Element {
    Variable(usize),
    Binary(bool),
}

impl NodeHandler {
    /// True exactly when the handle is one of the two terminal leaves.
    pub fn is_leaf(&self) -> (r: bool)
        ensures
            r == (*self matches NodeHandler::Leaf(_)),
    {
        matches!(self, NodeHandler::Leaf(_))
    }

    /// The element this handle decides on, read from the given store.
    pub fn get_element(&self, diagram: &BinaryDecisionDiagram) -> (r: Element)
        requires
            handle_inv(diagram@, *self),
        ensures
            (match *self {
                NodeHandler::Node(i) => r == Element::Variable(diagram@[i as int].variable),
                NodeHandler::Leaf(value) => r == Element::Binary(value),
            }),
    {
        match self {
            NodeHandler::Node(i) => Element::Variable(diagram.node_at(*i).variable),
            NodeHandler::Leaf(value) => Element::Binary(*value),
        }
    }

    /// The requested child of an internal node, or `None` on a leaf.
    pub fn get_child(&self, diagram: &BinaryDecisionDiagram, child_index: BinaryIndex) -> (r:
        Option<NodeHandler>)
        requires
            handle_inv(diagram@, *self),
        ensures
            (match *self {
                NodeHandler::Node(i) => r == Some(
                    if child_index is Right {
                        diagram@[i as int].high
                    } else {
                        diagram@[i as int].low
                    },
                ),
                NodeHandler::Leaf(_) => r is None,
            }),
    {
        match self {
            NodeHandler::Node(i) => Some(
                match child_index {
                    BinaryIndex::Left => diagram.node_at(*i).low,
                    BinaryIndex::Right => diagram.node_at(*i).high,
                },
            ),
            NodeHandler::Leaf(_) => None,
        }
    }

    /// Decide the diagram under a concrete assignment: descend from this
    /// handle, taking the low child where the assignment clears the node's
    /// variable and the high child where it sets it. Variables beyond the
    /// vector's end count as 0. The answer is exactly the Boolean function
    /// the handle denotes, at that assignment.
    pub fn evaluate(&self, diagram: &BinaryDecisionDiagram, assignment: &Vec<bool>) -> (r: bool)
        requires
            diagram.inv(),
            handle_inv(diagram@, *self),
        ensures
            r == eval(diagram@, *self, assign_of(assignment@)),
        decreases rank(*self),
    {
        match self {
            NodeHandler::Leaf(value) => *value,
            NodeHandler::Node(i) => {
                let node = diagram.node_at(*i);
                proof {
                    assert(node_inv_at(diagram@, *i as int));
                }
                let value = if node.variable < assignment.len() {
                    assignment[node.variable]
                } else {
                    false
                };
                if value {
                    node.high.evaluate(diagram, assignment)
                } else {
                    node.low.evaluate(diagram, assignment)
                }
            },
        }
    }
}

} // verus!

use vstd::prelude::*;

verus! {

use crate::binary_decision_diagram::{
    above, eval, extends, handle_inv, lemma_above_extends, lemma_eval_extends, lemma_extends_trans,
    node_inv_at, op_eval, rank, vars_below, BinaryDecisionDiagram,
};
use crate::node_handler::NodeHandler;
use crate::{BinaryOperation, UnaryOperation};

/// Lift a unary connective over a diagram: the result denotes the
/// pointwise negation of the operand. Terminals flip; an internal node is
/// rebuilt from its negated children through the store, which keeps the
/// result canonical. The operand and every previously stored node survive
/// unchanged, and the result's root variable is no smaller than the
/// operand's.
pub fn apply_unary(
    diagram: &mut BinaryDecisionDiagram,
    operand: NodeHandler,
    operation: UnaryOperation,
) -> (r: NodeHandler)
    requires
        old(diagram).inv(),
        handle_inv(old(diagram)@, operand),
    ensures
        final(diagram).inv(),
        extends(old(diagram)@, final(diagram)@),
        handle_inv(final(diagram)@, r),
        forall|v: int| above(old(diagram)@, operand, v) ==> above(final(diagram)@, r, v),
        forall|b: int| vars_below(old(diagram)@, b) ==> vars_below(final(diagram)@, b),
        operand is Leaf ==> final(diagram)@ == old(diagram)@,
        forall|a: spec_fn(usize) -> bool| #[trigger] eval(final(diagram)@, r, a) == !eval(
            old(diagram)@,
            operand,
            a,
        ),
    decreases rank(operand),
{
    match operation {
        UnaryOperation::Not => match operand {
            NodeHandler::Leaf(value) => {
                if value {
                    NodeHandler::Leaf(false)
                } else {
                    NodeHandler::Leaf(true)
                }
            },
            NodeHandler::Node(index) => {
                let ghost d0 = diagram@;
                let node = diagram.node_at(index);
                proof {
                    assert(node_inv_at(d0, index as int));
                }
                let c0 = apply_unary(diagram, node.low, operation);
                let ghost d1 = diagram@;
                let c1 = apply_unary(diagram, node.high, operation);
                let ghost d2 = diagram@;
                proof {
                    lemma_above_extends(d0, d1, node.high, node.variable + 1);
                    lemma_above_extends(d1, d2, c0, node.variable + 1);
                }
                let r = diagram.add_node_if_necessary(node.variable, (c0, c1));
                proof {
                    let d3 = diagram@;
                    lemma_extends_trans(d0, d1, d2);
                    lemma_extends_trans(d0, d2, d3);
                    assert forall|a: spec_fn(usize) -> bool| #[trigger] eval(d3, r, a) == !eval(
                        d0,
                        operand,
                        a,
                    ) by {
                        lemma_eval_extends(d0, d1, node.high, a);
                        lemma_eval_extends(d1, d2, c0, a);
                    }
                    assert forall|v: int| above(d0, operand, v) implies above(d3, r, v) by {
                        assert(above(d3, r, node.variable as int));
                        match r {
                            NodeHandler::Leaf(_) => {},
                            NodeHandler::Node(k) => {},
                        }
                    }
                }
                r
            },
        },
    }
}

/// Lift a binary connective over two diagrams of one store: the result
/// denotes the connective applied pointwise to the operands' functions.
///
/// Terminal operands are resolved by the connective's truth table; when
/// both operands are internal the recursion branches on the smaller of the
/// two root variables and reassembles through the store, so the result is
/// canonical. Previously stored nodes survive unchanged, and the result's
/// root variable is no smaller than the smaller operand root variable.
pub fn apply_binary(
    diagram: &mut BinaryDecisionDiagram,
    operands: (NodeHandler, NodeHandler),
    operation: BinaryOperation,
) -> (r: NodeHandler)
    requires
        old(diagram).inv(),
        handle_inv(old(diagram)@, operands.0),
        handle_inv(old(diagram)@, operands.1),
    ensures
        final(diagram).inv(),
        extends(old(diagram)@, final(diagram)@),
        handle_inv(final(diagram)@, r),
        forall|v: int|
            above(old(diagram)@, operands.0, v) && above(old(diagram)@, operands.1, v) ==> above(
                final(diagram)@,
                r,
                v,
            ),
        forall|b: int| vars_below(old(diagram)@, b) ==> vars_below(final(diagram)@, b),
        (operands.0 is Leaf || operands.1 is Leaf) && (operation is And || operation is Or)
            ==> final(diagram)@ == old(diagram)@,
        operands.0 is Leaf && operands.1 is Leaf ==> final(diagram)@ == old(diagram)@,
        forall|a: spec_fn(usize) -> bool| #[trigger] eval(final(diagram)@, r, a) == op_eval(
            operation,
            eval(old(diagram)@, operands.0, a),
            eval(old(diagram)@, operands.1, a),
        ),
    decreases rank(operands.0) + rank(operands.1),
{
    // Terminal short-circuits, first on the left operand, then on the right.
    if let NodeHandler::Leaf(value) = operands.0 {
        match value {
            true => match operation {
                BinaryOperation::And => return operands.1,
                BinaryOperation::Or => return BinaryDecisionDiagram::get_leaf(true),
                BinaryOperation::Implication => return operands.1,
                BinaryOperation::Equivalence => return operands.1,
            },
            false => match operation {
                BinaryOperation::And => return BinaryDecisionDiagram::get_leaf(false),
                BinaryOperation::Or => return operands.1,
                BinaryOperation::Implication => return BinaryDecisionDiagram::get_leaf(true),
                BinaryOperation::Equivalence => {
                    return apply_unary(diagram, operands.1, UnaryOperation::Not);
                },
            },
        }
    }
    if let NodeHandler::Leaf(value) = operands.1 {
        match value {
            true => match operation {
                BinaryOperation::And => return operands.0,
                BinaryOperation::Or => return BinaryDecisionDiagram::get_leaf(true),
                BinaryOperation::Implication => return BinaryDecisionDiagram::get_leaf(true),
                BinaryOperation::Equivalence => return operands.0,
            },
            false => match operation {
                BinaryOperation::And => return BinaryDecisionDiagram::get_leaf(false),
                BinaryOperation::Or => return operands.0,
                BinaryOperation::Implication => {
                    return apply_unary(diagram, operands.0, UnaryOperation::Not);
                },
                BinaryOperation::Equivalence => {
                    return apply_unary(diagram, operands.0, UnaryOperation::Not);
                },
            },
        }
    }
    let ghost d0 = diagram@;
    let (index_a, index_b) = match (operands.0, operands.1) {
        (NodeHandler::Node(index_a), NodeHandler::Node(index_b)) => (index_a, index_b),
        _ => {
            proof {
                assert(false);
            }
            (0usize, 0usize)
        },
    };
    let node_a = diagram.node_at(index_a);
    let node_b = diagram.node_at(index_b);
    proof {
        assert(node_inv_at(d0, index_a as int));
        assert(node_inv_at(d0, index_b as int));
    }
    if node_a.variable == node_b.variable {
        // Both operands decide the branch variable: recurse pairwise.
        let branch = node_a.variable;
        let c0 = apply_binary(diagram, (node_a.low, node_b.low), operation);
        let ghost d1 = diagram@;
        let c1 = apply_binary(diagram, (node_a.high, node_b.high), operation);
        let ghost d2 = diagram@;
        proof {
            lemma_above_extends(d0, d1, node_a.high, branch + 1);
            lemma_above_extends(d0, d1, node_b.high, branch + 1);
            lemma_above_extends(d1, d2, c0, branch + 1);
        }
        let r = diagram.add_node_if_necessary(branch, (c0, c1));
        proof {
            let d3 = diagram@;
            lemma_extends_trans(d0, d1, d2);
            lemma_extends_trans(d0, d2, d3);
            assert forall|a: spec_fn(usize) -> bool| #[trigger] eval(d3, r, a) == op_eval(
                operation,
                eval(d0, operands.0, a),
                eval(d0, operands.1, a),
            ) by {
                lemma_eval_extends(d0, d1, node_a.high, a);
                lemma_eval_extends(d0, d1, node_b.high, a);
                lemma_eval_extends(d1, d2, c0, a);
            }
            assert forall|v: int|
                above(d0, operands.0, v) && above(d0, operands.1, v) implies above(d3, r, v) by {
                assert(above(d3, r, branch as int));
            }
        }
        r
    } else if node_a.variable < node_b.variable {
        // Only the left operand decides the branch variable.
        let branch = node_a.variable;
        let c0 = apply_binary(diagram, (node_a.low, operands.1), operation);
        let ghost d1 = diagram@;
        let c1 = apply_binary(diagram, (node_a.high, operands.1), operation);
        let ghost d2 = diagram@;
        proof {
            lemma_above_extends(d0, d1, node_a.high, branch + 1);
            lemma_above_extends(d0, d1, operands.1, branch + 1);
            lemma_above_extends(d1, d2, c0, branch + 1);
        }
        let r = diagram.add_node_if_necessary(branch, (c0, c1));
        proof {
            let d3 = diagram@;
            lemma_extends_trans(d0, d1, d2);
            lemma_extends_trans(d0, d2, d3);
            assert forall|a: spec_fn(usize) -> bool| #[trigger] eval(d3, r, a) == op_eval(
                operation,
                eval(d0, operands.0, a),
                eval(d0, operands.1, a),
            ) by {
                lemma_eval_extends(d0, d1, node_a.high, a);
                lemma_eval_extends(d0, d1, operands.1, a);
                lemma_eval_extends(d1, d2, c0, a);
            }
            assert forall|v: int|
                above(d0, operands.0, v) && above(d0, operands.1, v) implies above(d3, r, v) by {
                assert(above(d3, r, branch as int));
            }
        }
        r
    } else {
        // Only the right operand decides the branch variable.
        let branch = node_b.variable;
        let c0 = apply_binary(diagram, (operands.0, node_b.low), operation);
        let ghost d1 = diagram@;
        let c1 = apply_binary(diagram, (operands.0, node_b.high), operation);
        let ghost d2 = diagram@;
        proof {
            lemma_above_extends(d0, d1, node_b.high, branch + 1);
            lemma_above_extends(d0, d1, operands.0, branch + 1);
            lemma_above_extends(d1, d2, c0, branch + 1);
        }
        let r = diagram.add_node_if_necessary(branch, (c0, c1));
        proof {
            let d3 = diagram@;
            lemma_extends_trans(d0, d1, d2);
            lemma_extends_trans(d0, d2, d3);
            assert forall|a: spec_fn(usize) -> bool| #[trigger] eval(d3, r, a) == op_eval(
                operation,
                eval(d0, operands.0, a),
                eval(d0, operands.1, a),
            ) by {
                lemma_eval_extends(d0, d1, node_b.high, a);
                lemma_eval_extends(d0, d1, operands.0, a);
                lemma_eval_extends(d1, d2, c0, a);
            }
            assert forall|v: int|
                above(d0, operands.0, v) && above(d0, operands.1, v) implies above(d3, r, v) by {
                assert(above(d3, r, branch as int));
            }
        }
        r
    }
}

} // verus!

use vstd::prelude::*;

verus! {

use crate::binary_decision_diagram::{
    diagram_inv, eval, extends, handle_inv, lemma_eval_extends, node_inv_at, rank, Node,
};
use crate::node_handler::NodeHandler;

/// The larger of two ranks; the induction measure of the canonicity proof.
pub open spec fn max2(x: nat, y: nat) -> nat {
    if x >= y {
        x
    } else {
        y
    }
}

/// The assignment that agrees with `a` everywhere except at `v`, which it
/// sets to `b`.
pub open spec fn assign_update(a: spec_fn(usize) -> bool, v: usize, b: bool) -> spec_fn(
    usize,
) -> bool {
    |w: usize|
        if w == v {
            b
        } else {
            a(w)
        }
}

/// A diagram mentions only variables at or above its root variable, so its
/// function cannot depend on any variable below `v`: two assignments that
/// agree from `v` upward evaluate it alike.
pub proof fn lemma_eval_independent(
    nodes: Seq<Node>,
    h: NodeHandler,
    a1: spec_fn(usize) -> bool,
    a2: spec_fn(usize) -> bool,
    v: int,
)
    requires
        diagram_inv(nodes),
        handle_inv(nodes, h),
        crate::binary_decision_diagram::above(nodes, h, v),
        forall|w: usize| v <= w ==> #[trigger] a1(w) == a2(w),
    ensures
        eval(nodes, h, a1) == eval(nodes, h, a2),
    decreases rank(h),
{
    match h {
        NodeHandler::Leaf(_) => {},
        NodeHandler::Node(i) => {
            assert(node_inv_at(nodes, i as int));
            let n = nodes[i as int];
            assert(a1(n.variable) == a2(n.variable));
            let c = if a1(n.variable) {
                n.high
            } else {
                n.low
            };
            lemma_eval_independent(nodes, c, a1, a2, v);
        },
    }
}

/// Evaluating one child of a stored node is evaluating the node itself
/// under the assignment forced to the matching side at its variable.
pub proof fn lemma_eval_children(nodes: Seq<Node>, i: usize, a: spec_fn(usize) -> bool)
    requires
        diagram_inv(nodes),
        i < nodes.len(),
    ensures
        eval(nodes, nodes[i as int].low, a) == eval(
            nodes,
            NodeHandler::Node(i),
            assign_update(a, nodes[i as int].variable, false),
        ),
        eval(nodes, nodes[i as int].high, a) == eval(
            nodes,
            NodeHandler::Node(i),
            assign_update(a, nodes[i as int].variable, true),
        ),
{
    assert(node_inv_at(nodes, i as int));
    let n = nodes[i as int];
    let a0 = assign_update(a, n.variable, false);
    let a1 = assign_update(a, n.variable, true);
    assert(eval(nodes, NodeHandler::Node(i), a0) == eval(nodes, n.low, a0));
    assert(eval(nodes, NodeHandler::Node(i), a1) == eval(nodes, n.high, a1));
    assert forall|w: usize| n.variable + 1 <= w implies #[trigger] a0(w) == a(w) by {}
    assert forall|w: usize| n.variable + 1 <= w implies #[trigger] a1(w) == a(w) by {}
    lemma_eval_independent(nodes, n.low, a0, a, n.variable + 1);
    lemma_eval_independent(nodes, n.high, a1, a, n.variable + 1);
}

/// When both children of a stored node denote the same function they are
/// the same handle — which non-redundancy rules out, so at every use this
/// lemma closes an impossible case.
proof fn lemma_equal_children_identified(nodes: Seq<Node>, i: usize)
    requires
        diagram_inv(nodes),
        i < nodes.len(),
        forall|a: spec_fn(usize) -> bool| #[trigger] eval(nodes, nodes[i as int].low, a) == eval(
            nodes,
            nodes[i as int].high,
            a,
        ),
    ensures
        nodes[i as int].low == nodes[i as int].high,
    decreases rank(NodeHandler::Node(i)), 0int,
{
    assert(node_inv_at(nodes, i as int));
    lemma_canonicity(nodes, nodes[i as int].low, nodes[i as int].high);
}

/// Canonicity: in one store that keeps the invariants, two handles that
/// denote the same Boolean function are the same handle.
pub proof fn lemma_canonicity(nodes: Seq<Node>, h1: NodeHandler, h2: NodeHandler)
    requires
        diagram_inv(nodes),
        handle_inv(nodes, h1),
        handle_inv(nodes, h2),
        forall|a: spec_fn(usize) -> bool| #[trigger] eval(nodes, h1, a) == eval(nodes, h2, a),
    ensures
        h1 == h2,
    decreases max2(rank(h1), rank(h2)), 1int,
{
    match (h1, h2) {
        (NodeHandler::Leaf(b1), NodeHandler::Leaf(b2)) => {
            let aw: spec_fn(usize) -> bool = |w: usize| false;
            assert(eval(nodes, h1, aw) == eval(nodes, h2, aw));
        },
        (NodeHandler::Leaf(b1), NodeHandler::Node(i2)) => {
            assert(node_inv_at(nodes, i2 as int));
            let n2 = nodes[i2 as int];
            assert forall|a: spec_fn(usize) -> bool| #[trigger] eval(nodes, n2.low, a) == eval(
                nodes,
                n2.high,
                a,
            ) by {
                lemma_eval_children(nodes, i2, a);
                let a0 = assign_update(a, n2.variable, false);
                let a1 = assign_update(a, n2.variable, true);
                assert(eval(nodes, h1, a0) == eval(nodes, h2, a0));
                assert(eval(nodes, h1, a1) == eval(nodes, h2, a1));
            }
            lemma_equal_children_identified(nodes, i2);
        },
        (NodeHandler::Node(i1), NodeHandler::Leaf(b2)) => {
            assert(node_inv_at(nodes, i1 as int));
            let n1 = nodes[i1 as int];
            assert forall|a: spec_fn(usize) -> bool| #[trigger] eval(nodes, n1.low, a) == eval(
                nodes,
                n1.high,
                a,
            ) by {
                lemma_eval_children(nodes, i1, a);
                let a0 = assign_update(a, n1.variable, false);
                let a1 = assign_update(a, n1.variable, true);
                assert(eval(nodes, h1, a0) == eval(nodes, h2, a0));
                assert(eval(nodes, h1, a1) == eval(nodes, h2, a1));
            }
            lemma_equal_children_identified(nodes, i1);
        },
        (NodeHandler::Node(i1), NodeHandler::Node(i2)) => {
            assert(node_inv_at(nodes, i1 as int));
            assert(node_inv_at(nodes, i2 as int));
            let n1 = nodes[i1 as int];
            let n2 = nodes[i2 as int];
            if n1.variable == n2.variable {
                assert forall|a: spec_fn(usize) -> bool| #[trigger] eval(nodes, n1.low, a) == eval(
                    nodes,
                    n2.low,
                    a,
                ) by {
                    lemma_eval_children(nodes, i1, a);
                    lemma_eval_children(nodes, i2, a);
                    let a0 = assign_update(a, n1.variable, false);
                    assert(eval(nodes, h1, a0) == eval(nodes, h2, a0));
                }
                assert forall|a: spec_fn(usize) -> bool| #[trigger] eval(nodes, n1.high, a)
                    == eval(nodes, n2.high, a) by {
                    lemma_eval_children(nodes, i1, a);
                    lemma_eval_children(nodes, i2, a);
                    let a1 = assign_update(a, n1.variable, true);
                    assert(eval(nodes, h1, a1) == eval(nodes, h2, a1));
                }
                lemma_canonicity(nodes, n1.low, n2.low);
                lemma_canonicity(nodes, n1.high, n2.high);
                if i1 != i2 {
                    assert(!(nodes[i1 as int].variable == nodes[i2 as int].variable
                        && nodes[i1 as int].low == nodes[i2 as int].low && nodes[i1 as int].high
                        == nodes[i2 as int].high));
                }
            } else if n1.variable < n2.variable {
                assert forall|a: spec_fn(usize) -> bool| #[trigger] eval(nodes, n1.low, a) == eval(
                    nodes,
                    n1.high,
                    a,
                ) by {
                    lemma_eval_children(nodes, i1, a);
                    let a0 = assign_update(a, n1.variable, false);
                    let a1 = assign_update(a, n1.variable, true);
                    assert forall|w: usize| n1.variable + 1 <= w implies #[trigger] a0(w) == a(w) by {}
                    assert forall|w: usize| n1.variable + 1 <= w implies #[trigger] a1(w) == a(w) by {}
                    lemma_eval_independent(nodes, h2, a0, a, n1.variable + 1);
                    lemma_eval_independent(nodes, h2, a1, a, n1.variable + 1);
                    assert(eval(nodes, h1, a0) == eval(nodes, h2, a0));
                    assert(eval(nodes, h1, a1) == eval(nodes, h2, a1));
                }
                lemma_equal_children_identified(nodes, i1);
            } else {
                assert forall|a: spec_fn(usize) -> bool| #[trigger] eval(nodes, n2.low, a) == eval(
                    nodes,
                    n2.high,
                    a,
                ) by {
                    lemma_eval_children(nodes, i2, a);
                    let a0 = assign_update(a, n2.variable, false);
                    let a1 = assign_update(a, n2.variable, true);
                    assert forall|w: usize| n2.variable + 1 <= w implies #[trigger] a0(w) == a(w) by {}
                    assert forall|w: usize| n2.variable + 1 <= w implies #[trigger] a1(w) == a(w) by {}
                    lemma_eval_independent(nodes, h1, a0, a, n2.variable + 1);
                    lemma_eval_independent(nodes, h1, a1, a, n2.variable + 1);
                    assert(eval(nodes, h1, a0) == eval(nodes, h2, a0));
                    assert(eval(nodes, h1, a1) == eval(nodes, h2, a1));
                }
                lemma_equal_children_identified(nodes, i2);
            }
        },
    }
}

/// A handle produced into a grown store that denotes the same function as
/// a handle of the original store is that handle: engine operations that
/// rebuild an existing function always hand the existing diagram back.
pub proof fn lemma_function_determines_handle(
    pre: Seq<Node>,
    post: Seq<Node>,
    h: NodeHandler,
    r: NodeHandler,
)
    requires
        diagram_inv(pre),
        diagram_inv(post),
        extends(pre, post),
        handle_inv(pre, h),
        handle_inv(post, r),
        forall|a: spec_fn(usize) -> bool| #[trigger] eval(post, r, a) == eval(pre, h, a),
    ensures
        r == h,
{
    assert(handle_inv(post, h));
    assert forall|a: spec_fn(usize) -> bool| #[trigger] eval(post, r, a) == eval(post, h, a) by {
        lemma_eval_extends(pre, post, h, a);
    }
    lemma_canonicity(post, r, h);
}

} // verus!

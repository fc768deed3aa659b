use vstd::prelude::*;

verus! {

use crate::binary_decision_diagram::{
    diagram_inv, eval, extends, handle_inv, lemma_eval_extends, lemma_extends_trans, op_eval, Node,
};
use crate::canonicity::{lemma_canonicity, lemma_function_determines_handle};
use crate::formula_parser::{formula_eval, formula_eval_named, ParserNode};
use crate::node_handler::NodeHandler;
use crate::{denotes, renames_to, BinaryOperation};

/// Negation is an involution on handles: negating twice, through any two
/// store states the negate engine produces, ends at the very handle it
/// started from. The hypotheses are exactly what two runs of the negate
/// engine ensure.
pub proof fn lemma_negate_involution(
    d0: Seq<Node>,
    d1: Seq<Node>,
    d2: Seq<Node>,
    h0: NodeHandler,
    h1: NodeHandler,
    h2: NodeHandler,
)
    requires
        diagram_inv(d0),
        diagram_inv(d1),
        diagram_inv(d2),
        extends(d0, d1),
        extends(d1, d2),
        handle_inv(d0, h0),
        handle_inv(d1, h1),
        handle_inv(d2, h2),
        forall|a: spec_fn(usize) -> bool| #[trigger] eval(d1, h1, a) == !eval(d0, h0, a),
        forall|a: spec_fn(usize) -> bool| #[trigger] eval(d2, h2, a) == !eval(d1, h1, a),
    ensures
        h2 == h0,
{
    lemma_extends_trans(d0, d1, d2);
    assert forall|a: spec_fn(usize) -> bool| #[trigger] eval(d2, h2, a) == eval(d0, h0, a) by {
        assert(eval(d1, h1, a) == !eval(d0, h0, a));
    }
    lemma_function_determines_handle(d0, d2, h0, h2);
}

/// Conjunction with `⊤` is the identity: whatever the apply engine built
/// for `h ∧ ⊤`, it is `h` itself.
pub proof fn lemma_apply_and_true(d0: Seq<Node>, d1: Seq<Node>, h: NodeHandler, r: NodeHandler)
    requires
        diagram_inv(d0),
        diagram_inv(d1),
        extends(d0, d1),
        handle_inv(d0, h),
        handle_inv(d1, r),
        forall|a: spec_fn(usize) -> bool| #[trigger] eval(d1, r, a) == op_eval(
            BinaryOperation::And,
            eval(d0, h, a),
            eval(d0, NodeHandler::Leaf(true), a),
        ),
    ensures
        r == h,
{
    assert forall|a: spec_fn(usize) -> bool| #[trigger] eval(d1, r, a) == eval(d0, h, a) by {}
    lemma_function_determines_handle(d0, d1, h, r);
}

/// Conjunction with `⊥` annihilates: `h ∧ ⊥` is the `⊥` terminal.
pub proof fn lemma_apply_and_false(d0: Seq<Node>, d1: Seq<Node>, h: NodeHandler, r: NodeHandler)
    requires
        diagram_inv(d0),
        diagram_inv(d1),
        extends(d0, d1),
        handle_inv(d0, h),
        handle_inv(d1, r),
        forall|a: spec_fn(usize) -> bool| #[trigger] eval(d1, r, a) == op_eval(
            BinaryOperation::And,
            eval(d0, h, a),
            eval(d0, NodeHandler::Leaf(false), a),
        ),
    ensures
        r == NodeHandler::Leaf(false),
{
    assert forall|a: spec_fn(usize) -> bool| #[trigger] eval(d1, r, a) == eval(
        d1,
        NodeHandler::Leaf(false),
        a,
    ) by {}
    lemma_canonicity(d1, r, NodeHandler::Leaf(false));
}

/// Disjunction with `⊥` is the identity: `h ∨ ⊥` is `h` itself.
pub proof fn lemma_apply_or_false(d0: Seq<Node>, d1: Seq<Node>, h: NodeHandler, r: NodeHandler)
    requires
        diagram_inv(d0),
        diagram_inv(d1),
        extends(d0, d1),
        handle_inv(d0, h),
        handle_inv(d1, r),
        forall|a: spec_fn(usize) -> bool| #[trigger] eval(d1, r, a) == op_eval(
            BinaryOperation::Or,
            eval(d0, h, a),
            eval(d0, NodeHandler::Leaf(false), a),
        ),
    ensures
        r == h,
{
    assert forall|a: spec_fn(usize) -> bool| #[trigger] eval(d1, r, a) == eval(d0, h, a) by {}
    lemma_function_determines_handle(d0, d1, h, r);
}

/// Disjunction with `⊤` saturates: `h ∨ ⊤` is the `⊤` terminal.
pub proof fn lemma_apply_or_true(d0: Seq<Node>, d1: Seq<Node>, h: NodeHandler, r: NodeHandler)
    requires
        diagram_inv(d0),
        diagram_inv(d1),
        extends(d0, d1),
        handle_inv(d0, h),
        handle_inv(d1, r),
        forall|a: spec_fn(usize) -> bool| #[trigger] eval(d1, r, a) == op_eval(
            BinaryOperation::Or,
            eval(d0, h, a),
            eval(d0, NodeHandler::Leaf(true), a),
        ),
    ensures
        r == NodeHandler::Leaf(true),
{
    assert forall|a: spec_fn(usize) -> bool| #[trigger] eval(d1, r, a) == eval(
        d1,
        NodeHandler::Leaf(true),
        a,
    ) by {}
    lemma_canonicity(d1, r, NodeHandler::Leaf(true));
}

/// `⊥` implies everything: `⊥ → h` is the `⊤` terminal.
pub proof fn lemma_apply_implies_from_false(
    d0: Seq<Node>,
    d1: Seq<Node>,
    h: NodeHandler,
    r: NodeHandler,
)
    requires
        diagram_inv(d0),
        diagram_inv(d1),
        extends(d0, d1),
        handle_inv(d0, h),
        handle_inv(d1, r),
        forall|a: spec_fn(usize) -> bool| #[trigger] eval(d1, r, a) == op_eval(
            BinaryOperation::Implication,
            eval(d0, NodeHandler::Leaf(false), a),
            eval(d0, h, a),
        ),
    ensures
        r == NodeHandler::Leaf(true),
{
    assert forall|a: spec_fn(usize) -> bool| #[trigger] eval(d1, r, a) == eval(
        d1,
        NodeHandler::Leaf(true),
        a,
    ) by {}
    lemma_canonicity(d1, r, NodeHandler::Leaf(true));
}

/// Everything implies `⊤`: `h → ⊤` is the `⊤` terminal.
pub proof fn lemma_apply_implies_to_true(
    d0: Seq<Node>,
    d1: Seq<Node>,
    h: NodeHandler,
    r: NodeHandler,
)
    requires
        diagram_inv(d0),
        diagram_inv(d1),
        extends(d0, d1),
        handle_inv(d0, h),
        handle_inv(d1, r),
        forall|a: spec_fn(usize) -> bool| #[trigger] eval(d1, r, a) == op_eval(
            BinaryOperation::Implication,
            eval(d0, h, a),
            eval(d0, NodeHandler::Leaf(true), a),
        ),
    ensures
        r == NodeHandler::Leaf(true),
{
    assert forall|a: spec_fn(usize) -> bool| #[trigger] eval(d1, r, a) == eval(
        d1,
        NodeHandler::Leaf(true),
        a,
    ) by {}
    lemma_canonicity(d1, r, NodeHandler::Leaf(true));
}

/// Everything is equivalent to itself: `h ↔ h` is the `⊤` terminal.
pub proof fn lemma_apply_iff_self(d0: Seq<Node>, d1: Seq<Node>, h: NodeHandler, r: NodeHandler)
    requires
        diagram_inv(d0),
        diagram_inv(d1),
        extends(d0, d1),
        handle_inv(d0, h),
        handle_inv(d1, r),
        forall|a: spec_fn(usize) -> bool| #[trigger] eval(d1, r, a) == op_eval(
            BinaryOperation::Equivalence,
            eval(d0, h, a),
            eval(d0, h, a),
        ),
    ensures
        r == NodeHandler::Leaf(true),
{
    assert forall|a: spec_fn(usize) -> bool| #[trigger] eval(d1, r, a) == eval(
        d1,
        NodeHandler::Leaf(true),
        a,
    ) by {}
    lemma_canonicity(d1, r, NodeHandler::Leaf(true));
}

/// Nothing is equivalent to its own negation: `h ↔ ¬h` is the `⊥`
/// terminal, for any result the negate engine handed back for `¬h`.
pub proof fn lemma_apply_iff_negation(
    d0: Seq<Node>,
    d1: Seq<Node>,
    d2: Seq<Node>,
    h: NodeHandler,
    hn: NodeHandler,
    r: NodeHandler,
)
    requires
        diagram_inv(d0),
        diagram_inv(d1),
        diagram_inv(d2),
        extends(d0, d1),
        extends(d1, d2),
        handle_inv(d0, h),
        handle_inv(d1, hn),
        handle_inv(d2, r),
        forall|a: spec_fn(usize) -> bool| #[trigger] eval(d1, hn, a) == !eval(d0, h, a),
        forall|a: spec_fn(usize) -> bool| #[trigger] eval(d2, r, a) == op_eval(
            BinaryOperation::Equivalence,
            eval(d1, h, a),
            eval(d1, hn, a),
        ),
    ensures
        r == NodeHandler::Leaf(false),
{
    assert forall|a: spec_fn(usize) -> bool| #[trigger] eval(d2, r, a) == eval(
        d2,
        NodeHandler::Leaf(false),
        a,
    ) by {
        lemma_eval_extends(d0, d1, h, a);
        assert(eval(d1, hn, a) == !eval(d0, h, a));
    }
    lemma_canonicity(d2, r, NodeHandler::Leaf(false));
}

/// The commutative connectives commute on handles: applying `op` to
/// `(x, y)` and then to `(y, x)`, in whatever store states the engine
/// went through, yields one and the same handle.
pub proof fn lemma_apply_commutative(
    d0: Seq<Node>,
    d1: Seq<Node>,
    d2: Seq<Node>,
    x: NodeHandler,
    y: NodeHandler,
    r1: NodeHandler,
    r2: NodeHandler,
    op: BinaryOperation,
)
    requires
        !(op is Implication),
        diagram_inv(d0),
        diagram_inv(d1),
        diagram_inv(d2),
        extends(d0, d1),
        extends(d1, d2),
        handle_inv(d0, x),
        handle_inv(d0, y),
        handle_inv(d1, r1),
        handle_inv(d2, r2),
        forall|a: spec_fn(usize) -> bool| #[trigger] eval(d1, r1, a) == op_eval(
            op,
            eval(d0, x, a),
            eval(d0, y, a),
        ),
        forall|a: spec_fn(usize) -> bool| #[trigger] eval(d2, r2, a) == op_eval(
            op,
            eval(d1, y, a),
            eval(d1, x, a),
        ),
    ensures
        r2 == r1,
{
    assert forall|a: spec_fn(usize) -> bool| #[trigger] eval(d2, r2, a) == eval(d1, r1, a) by {
        lemma_eval_extends(d0, d1, x, a);
        lemma_eval_extends(d0, d1, y, a);
    }
    lemma_function_determines_handle(d1, d2, r1, r2);
}

/// De Morgan on handles: `¬(x ∧ y)` and `(¬x) ∨ (¬y)`, built one after
/// the other in one store, are the same handle.
pub proof fn lemma_de_morgan(
    d0: Seq<Node>,
    d1: Seq<Node>,
    d2: Seq<Node>,
    d3: Seq<Node>,
    d4: Seq<Node>,
    d5: Seq<Node>,
    x: NodeHandler,
    y: NodeHandler,
    r_and: NodeHandler,
    r1: NodeHandler,
    nx: NodeHandler,
    ny: NodeHandler,
    r2: NodeHandler,
)
    requires
        diagram_inv(d0),
        diagram_inv(d1),
        diagram_inv(d2),
        diagram_inv(d3),
        diagram_inv(d4),
        diagram_inv(d5),
        extends(d0, d1),
        extends(d1, d2),
        extends(d2, d3),
        extends(d3, d4),
        extends(d4, d5),
        handle_inv(d0, x),
        handle_inv(d0, y),
        handle_inv(d1, r_and),
        handle_inv(d2, r1),
        handle_inv(d3, nx),
        handle_inv(d4, ny),
        handle_inv(d5, r2),
        forall|a: spec_fn(usize) -> bool| #[trigger] eval(d1, r_and, a) == op_eval(
            BinaryOperation::And,
            eval(d0, x, a),
            eval(d0, y, a),
        ),
        forall|a: spec_fn(usize) -> bool| #[trigger] eval(d2, r1, a) == !eval(d1, r_and, a),
        forall|a: spec_fn(usize) -> bool| #[trigger] eval(d3, nx, a) == !eval(d2, x, a),
        forall|a: spec_fn(usize) -> bool| #[trigger] eval(d4, ny, a) == !eval(d3, y, a),
        forall|a: spec_fn(usize) -> bool| #[trigger] eval(d5, r2, a) == op_eval(
            BinaryOperation::Or,
            eval(d4, nx, a),
            eval(d4, ny, a),
        ),
    ensures
        r2 == r1,
{
    lemma_extends_trans(d0, d1, d2);
    lemma_extends_trans(d1, d2, d3);
    lemma_extends_trans(d2, d3, d4);
    lemma_extends_trans(d2, d4, d5);
    assert forall|a: spec_fn(usize) -> bool| #[trigger] eval(d5, r2, a) == eval(d2, r1, a) by {
        lemma_eval_extends(d0, d2, x, a);
        lemma_eval_extends(d0, d1, y, a);
        lemma_eval_extends(d1, d3, y, a);
        lemma_eval_extends(d3, d4, nx, a);
        assert(eval(d1, r_and, a) == op_eval(BinaryOperation::And, eval(d0, x, a), eval(d0, y, a)));
        assert(eval(d3, nx, a) == !eval(d2, x, a));
        assert(eval(d4, ny, a) == !eval(d3, y, a));
    }
    lemma_function_determines_handle(d2, d5, r1, r2);
}

/// Canonicity at the driver: two formula trees that denote the same
/// Boolean function receive one and the same root handle, whatever the
/// order the driver built them in one store.
pub proof fn lemma_driver_canonicity(
    d0: Seq<Node>,
    d1: Seq<Node>,
    t1: ParserNode<usize>,
    t2: ParserNode<usize>,
    root1: NodeHandler,
    root2: NodeHandler,
)
    requires
        diagram_inv(d0),
        diagram_inv(d1),
        extends(d0, d1),
        handle_inv(d0, root1),
        handle_inv(d1, root2),
        denotes(d0, root1, t1),
        denotes(d1, root2, t2),
        forall|a: spec_fn(usize) -> bool| #[trigger] formula_eval(t1, a) == formula_eval(t2, a),
    ensures
        root2 == root1,
{
    assert forall|a: spec_fn(usize) -> bool| #[trigger] eval(d1, root2, a) == eval(
        d0,
        root1,
        a,
    ) by {
        assert(eval(d1, root2, a) == formula_eval(t2, a));
        assert(eval(d0, root1, a) == formula_eval(t1, a));
    }
    lemma_function_determines_handle(d0, d1, root1, root2);
}

/// The integer assignment that reads each identifier's name through the
/// table and asks the named assignment; identifiers without a table entry
/// count as 0.
pub open spec fn assign_via_table(an: spec_fn(Seq<char>) -> bool, table: Seq<String>) -> spec_fn(
    usize,
) -> bool {
    |i: usize| i < table.len() && an(table[i as int]@)
}

/// Renaming preserves meaning: a renamed tree under an integer assignment
/// agrees with the original tree under any named assignment that matches
/// it through the table.
pub proof fn lemma_rename_preserves_semantics(
    t: ParserNode<Seq<char>>,
    r: ParserNode<usize>,
    table: Seq<String>,
    a: spec_fn(usize) -> bool,
    an: spec_fn(Seq<char>) -> bool,
)
    requires
        renames_to(t, r, table),
        forall|i: usize| i < table.len() ==> #[trigger] a(i) == an(table[i as int]@),
    ensures
        formula_eval(r, a) == formula_eval_named(t, an),
    decreases t,
{
    match (t, r) {
        (ParserNode::Unary(op1, x1), ParserNode::Unary(op2, x2)) => {
            lemma_rename_preserves_semantics(*x1, *x2, table, a, an);
        },
        (ParserNode::Binary(op1, p1), ParserNode::Binary(op2, p2)) => {
            lemma_rename_preserves_semantics(*p1.0, *p2.0, table, a, an);
            lemma_rename_preserves_semantics(*p1.1, *p2.1, table, a, an);
        },
        _ => {},
    }
}

/// Decision agreement: descending the diagram under any assignment of the
/// variable names yields the truth value of the source formula under that
/// assignment.
pub proof fn lemma_decision_agreement(
    nodes: Seq<Node>,
    root: NodeHandler,
    t: ParserNode<Seq<char>>,
    rt: ParserNode<usize>,
    table: Seq<String>,
    an: spec_fn(Seq<char>) -> bool,
)
    requires
        renames_to(t, rt, table),
        denotes(nodes, root, rt),
    ensures
        eval(nodes, root, assign_via_table(an, table)) == formula_eval_named(t, an),
{
    let a = assign_via_table(an, table);
    assert(eval(nodes, root, a) == formula_eval(rt, a));
    assert forall|i: usize| i < table.len() implies #[trigger] a(i) == an(table[i as int]@) by {}
    lemma_rename_preserves_semantics(t, rt, table, a, an);
}

} // verus!

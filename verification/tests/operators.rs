use reduced_ordered_binary_decision_diagram::{
    apply_binary, apply_unary, construct_robdd_from_parser_tree, formula_parse, rename_variable,
    BinaryDecisionDiagram, BinaryOperation, NodeHandler, UnaryOperation,
};

/// Parse, rename into the shared table, and build into the shared store.
fn build(
    diagram: &mut BinaryDecisionDiagram,
    table: &mut Vec<String>,
    formula: &str,
) -> NodeHandler {
    let tree = formula_parse(formula).unwrap();
    let renamed = rename_variable(&tree, table);
    construct_robdd_from_parser_tree(&renamed, diagram)
}

#[test]
fn negating_terminals_flips_without_allocating() {
    let mut diagram = BinaryDecisionDiagram::default();
    let t = BinaryDecisionDiagram::get_leaf(true);
    let f = BinaryDecisionDiagram::get_leaf(false);
    assert_eq!(apply_unary(&mut diagram, t, UnaryOperation::Not), f);
    assert_eq!(apply_unary(&mut diagram, f, UnaryOperation::Not), t);
    assert_eq!(diagram.node_count(), 0);
}

#[test]
fn negation_is_an_involution() {
    let mut diagram = BinaryDecisionDiagram::default();
    let mut table = Vec::new();
    let h = build(&mut diagram, &mut table, "(a -> b) & c");
    let negated = apply_unary(&mut diagram, h, UnaryOperation::Not);
    assert_ne!(negated, h);
    let back = apply_unary(&mut diagram, negated, UnaryOperation::Not);
    assert_eq!(back, h);
}

#[test]
fn and_with_terminals() {
    let mut diagram = BinaryDecisionDiagram::default();
    let mut table = Vec::new();
    let h = build(&mut diagram, &mut table, "a & b");
    let t = BinaryDecisionDiagram::get_leaf(true);
    let f = BinaryDecisionDiagram::get_leaf(false);
    assert_eq!(apply_binary(&mut diagram, (h, t), BinaryOperation::And), h);
    assert_eq!(apply_binary(&mut diagram, (h, f), BinaryOperation::And), f);
}

#[test]
fn or_with_terminals() {
    let mut diagram = BinaryDecisionDiagram::default();
    let mut table = Vec::new();
    let h = build(&mut diagram, &mut table, "a | !b");
    let t = BinaryDecisionDiagram::get_leaf(true);
    let f = BinaryDecisionDiagram::get_leaf(false);
    assert_eq!(apply_binary(&mut diagram, (h, f), BinaryOperation::Or), h);
    assert_eq!(apply_binary(&mut diagram, (h, t), BinaryOperation::Or), t);
}

#[test]
fn implication_with_terminals() {
    let mut diagram = BinaryDecisionDiagram::default();
    let mut table = Vec::new();
    let h = build(&mut diagram, &mut table, "a & !b");
    let t = BinaryDecisionDiagram::get_leaf(true);
    let f = BinaryDecisionDiagram::get_leaf(false);
    assert_eq!(
        apply_binary(&mut diagram, (f, h), BinaryOperation::Implication),
        t
    );
    assert_eq!(
        apply_binary(&mut diagram, (h, t), BinaryOperation::Implication),
        t
    );
}

#[test]
fn equivalence_with_self_and_negation() {
    let mut diagram = BinaryDecisionDiagram::default();
    let mut table = Vec::new();
    let h = build(&mut diagram, &mut table, "(a | b) & c");
    let t = BinaryDecisionDiagram::get_leaf(true);
    let f = BinaryDecisionDiagram::get_leaf(false);
    assert_eq!(
        apply_binary(&mut diagram, (h, h), BinaryOperation::Equivalence),
        t
    );
    let negated = apply_unary(&mut diagram, h, UnaryOperation::Not);
    assert_eq!(
        apply_binary(&mut diagram, (h, negated), BinaryOperation::Equivalence),
        f
    );
}

#[test]
fn commutative_operators_commute_on_handles() {
    let mut diagram = BinaryDecisionDiagram::default();
    let mut table = Vec::new();
    let x = build(&mut diagram, &mut table, "a -> b");
    let y = build(&mut diagram, &mut table, "b | c");
    for op in [
        BinaryOperation::And,
        BinaryOperation::Or,
        BinaryOperation::Equivalence,
    ] {
        let r1 = apply_binary(&mut diagram, (x, y), op);
        let r2 = apply_binary(&mut diagram, (y, x), op);
        assert_eq!(r1, r2);
    }
}

#[test]
fn de_morgan_on_handles() {
    let mut diagram = BinaryDecisionDiagram::default();
    let mut table = Vec::new();
    let x = build(&mut diagram, &mut table, "a & (b -> c)");
    let y = build(&mut diagram, &mut table, "c | !a");
    let both = apply_binary(&mut diagram, (x, y), BinaryOperation::And);
    let lhs = apply_unary(&mut diagram, both, UnaryOperation::Not);
    let not_x = apply_unary(&mut diagram, x, UnaryOperation::Not);
    let not_y = apply_unary(&mut diagram, y, UnaryOperation::Not);
    let rhs = apply_binary(&mut diagram, (not_x, not_y), BinaryOperation::Or);
    assert_eq!(lhs, rhs);
}

#[test]
fn rebuilding_a_function_reuses_its_diagram() {
    let mut diagram = BinaryDecisionDiagram::default();
    let mut table = Vec::new();
    let first = build(&mut diagram, &mut table, "(a | b) & (b | c)");
    let count = diagram.node_count();
    let second = build(&mut diagram, &mut table, "(a | b) & (b | c)");
    assert_eq!(first, second);
    assert_eq!(diagram.node_count(), count);
}

use reduced_ordered_binary_decision_diagram::{
    construct_robdd, construct_robdd_from_parser_tree, formula_parse, rename_variable,
    BinaryDecisionDiagram, BinaryIndex, Element, NodeHandler,
};

#[test]
fn construct_test() {
    let (diagram, root) = construct_robdd("(!x1 | x2) & (x1 | !x3) & (!x1 | !x2 | x3)").unwrap();
    println!("{}", root.generic_fmt(&diagram));
}

/// Parse, rename into the shared table, and build into the shared store.
fn build(
    diagram: &mut BinaryDecisionDiagram,
    table: &mut Vec<String>,
    formula: &str,
) -> NodeHandler {
    let tree = formula_parse(formula).unwrap();
    let renamed = rename_variable(&tree, table);
    construct_robdd_from_parser_tree(&renamed, diagram)
}

#[test]
fn tautology_input_true() {
    let (_, root) = construct_robdd("true").unwrap();
    assert_eq!(root.0, NodeHandler::Leaf(true));
}

#[test]
fn contradiction_collapses_to_false() {
    let (_, root) = construct_robdd("a & !a").unwrap();
    assert_eq!(root.0, NodeHandler::Leaf(false));
}

#[test]
fn excluded_middle_collapses_to_true() {
    let (_, root) = construct_robdd("a | !a").unwrap();
    assert_eq!(root.0, NodeHandler::Leaf(true));
}

#[test]
fn equivalent_syntaxes_share_one_handle() {
    let mut diagram = BinaryDecisionDiagram::default();
    let mut table = Vec::new();
    let h1 = build(&mut diagram, &mut table, "(a -> b) & (b -> a)");
    let h2 = build(&mut diagram, &mut table, "a <-> b");
    assert_eq!(h1, h2);
}

#[test]
fn three_clause_formula_is_canonical() {
    let mut diagram = BinaryDecisionDiagram::default();
    let mut table = Vec::new();
    let h1 = build(
        &mut diagram,
        &mut table,
        "(!x1 | x2) & (x1 | !x3) & (!x1 | !x2 | x3)",
    );
    let h2 = build(
        &mut diagram,
        &mut table,
        "(x1 -> x2) & (x3 -> x1) & ((x1 & x2) -> x3)",
    );
    assert_eq!(h1, h2);
    for mask in 0..8u32 {
        let x1 = mask & 1 != 0;
        let x2 = mask & 2 != 0;
        let x3 = mask & 4 != 0;
        let expected = (!x1 || x2) && (x1 || !x3) && (!x1 || !x2 || x3);
        let assignment = vec![x1, x2, x3];
        assert_eq!(h1.evaluate(&diagram, &assignment), expected);
    }
}

#[test]
fn single_variable_has_elementary_shape() {
    let (diagram, root) = construct_robdd("a").unwrap();
    let handle = root.0;
    assert!(!handle.is_leaf());
    assert_eq!(handle.get_element(&diagram), Element::Variable(0));
    assert_eq!(
        handle.get_child(&diagram, BinaryIndex::Left),
        Some(NodeHandler::Leaf(false))
    );
    assert_eq!(
        handle.get_child(&diagram, BinaryIndex::Right),
        Some(NodeHandler::Leaf(true))
    );
    // One internal node plus the two terminals: three nodes in all.
    assert_eq!(diagram.node_count(), 1);
}

#[test]
fn decision_agreement_on_all_assignments() {
    let (diagram, root) = construct_robdd("(a -> b) & c").unwrap();
    for mask in 0..8u32 {
        let a = mask & 1 != 0;
        let b = mask & 2 != 0;
        let c = mask & 4 != 0;
        let expected = (!a || b) && c;
        let assignment = vec![a, b, c];
        assert_eq!(root.0.evaluate(&diagram, &assignment), expected);
    }
}

#[test]
fn evaluate_treats_missing_variables_as_false() {
    let (diagram, root) = construct_robdd("a").unwrap();
    let empty: Vec<bool> = vec![];
    assert!(!root.0.evaluate(&diagram, &empty));
    assert!(root.0.evaluate(&diagram, &vec![true]));
}

#[test]
fn rename_assigns_dense_first_seen_identifiers() {
    let tree = formula_parse("b & a & b").unwrap();
    let mut table = Vec::new();
    rename_variable(&tree, &mut table);
    assert_eq!(table, vec!["b".to_string(), "a".to_string()]);
}

#[test]
fn store_invariants_hold_after_construction() {
    let (diagram, _) = construct_robdd("(a -> b) & (c | !a) & (b <-> c)").unwrap();
    let count = diagram.node_count();
    for i in 0..count {
        let n = diagram.node_at(i);
        // Non-redundancy: no node has two equal children.
        assert_ne!(n.low, n.high);
        // Well-formedness and ordering for both children.
        for child in [n.low, n.high] {
            if let NodeHandler::Node(j) = child {
                assert!(j < i);
                assert!(diagram.node_at(j).variable > n.variable);
            }
        }
        // Uniqueness: no other node carries the same triple.
        for j in 0..count {
            if i != j {
                let m = diagram.node_at(j);
                assert!(!(m.variable == n.variable && m.low == n.low && m.high == n.high));
            }
        }
    }
}

#[test]
fn interning_is_idempotent() {
    let mut diagram = BinaryDecisionDiagram::default();
    let first = diagram.add_variable(0);
    let second = diagram.add_variable(0);
    assert_eq!(first, second);
    assert_eq!(diagram.node_count(), 1);
}

#[test]
fn interning_equal_children_returns_the_child() {
    let mut diagram = BinaryDecisionDiagram::default();
    let r = diagram.add_node_if_necessary(3, (NodeHandler::Leaf(true), NodeHandler::Leaf(true)));
    assert_eq!(r, NodeHandler::Leaf(true));
    assert_eq!(diagram.node_count(), 0);
}

#[test]
fn get_leaves_are_the_two_terminals() {
    assert_eq!(
        BinaryDecisionDiagram::get_leaves(),
        (NodeHandler::Leaf(false), NodeHandler::Leaf(true))
    );
    assert_eq!(
        BinaryDecisionDiagram::get_leaf(false),
        NodeHandler::Leaf(false)
    );
    assert!(NodeHandler::Leaf(true).is_leaf());
}

use reduced_ordered_binary_decision_diagram::{
    BinaryIndex, BinaryOperation, ChildIndex, Operation, UnaryOperation,
};

#[test]
fn binary_index_converts_to_bool_and_usize() {
    assert_eq!(bool::from(BinaryIndex::Left), false);
    assert_eq!(bool::from(BinaryIndex::Right), true);
    assert_eq!(usize::from(BinaryIndex::Left), 0);
    assert_eq!(usize::from(BinaryIndex::Right), 1);
}

#[test]
fn child_index_converts_to_bool_and_usize() {
    assert_eq!(bool::from(ChildIndex::Left), false);
    assert_eq!(bool::from(ChildIndex::Right), true);
    assert_eq!(usize::from(ChildIndex::Left), 0);
    assert_eq!(usize::from(ChildIndex::Right), 1);
}

#[test]
fn operation_wraps_both_kinds() {
    let ops = [
        Operation::Binary(BinaryOperation::And),
        Operation::Binary(BinaryOperation::Or),
        Operation::Binary(BinaryOperation::Implication),
        Operation::Binary(BinaryOperation::Equivalence),
        Operation::Unary(UnaryOperation::Not),
    ];
    let binary = ops
        .iter()
        .filter(|op| matches!(op, Operation::Binary(_)))
        .count();
    assert_eq!(binary, 4);
}

use reduced_ordered_binary_decision_diagram::{
    formula_parse, BinaryOperation, ParseError, ParserNode, UnaryOperation,
};

#[test]
fn parse() {
    println!("{:?}", formula_parse("(a->b)&c").unwrap());
}

#[test]
fn parse_precedence_implication_under_and() {
    let tree = formula_parse("(a->b)&c").unwrap();
    let expected = ParserNode::Binary(
        BinaryOperation::And,
        (
            Box::new(ParserNode::Binary(
                BinaryOperation::Implication,
                (
                    Box::new(ParserNode::Variable("a".to_string())),
                    Box::new(ParserNode::Variable("b".to_string())),
                ),
            )),
            Box::new(ParserNode::Variable("c".to_string())),
        ),
    );
    assert_eq!(tree, expected);
}

#[test]
fn parse_precedence_not_binds_tightest() {
    let tree = formula_parse("!a & b").unwrap();
    let expected = ParserNode::Binary(
        BinaryOperation::And,
        (
            Box::new(ParserNode::Unary(
                UnaryOperation::Not,
                Box::new(ParserNode::Variable("a".to_string())),
            )),
            Box::new(ParserNode::Variable("b".to_string())),
        ),
    );
    assert_eq!(tree, expected);
}

#[test]
fn parse_and_binds_tighter_than_or() {
    let tree = formula_parse("a | b & c").unwrap();
    let expected = ParserNode::Binary(
        BinaryOperation::Or,
        (
            Box::new(ParserNode::Variable("a".to_string())),
            Box::new(ParserNode::Binary(
                BinaryOperation::And,
                (
                    Box::new(ParserNode::Variable("b".to_string())),
                    Box::new(ParserNode::Variable("c".to_string())),
                ),
            )),
        ),
    );
    assert_eq!(tree, expected);
}

#[test]
fn parse_arrows_right_associative() {
    let tree = formula_parse("a -> b <-> c").unwrap();
    let expected = ParserNode::Binary(
        BinaryOperation::Implication,
        (
            Box::new(ParserNode::Variable("a".to_string())),
            Box::new(ParserNode::Binary(
                BinaryOperation::Equivalence,
                (
                    Box::new(ParserNode::Variable("b".to_string())),
                    Box::new(ParserNode::Variable("c".to_string())),
                ),
            )),
        ),
    );
    assert_eq!(tree, expected);
}

#[test]
fn parse_constants_and_identifiers() {
    assert_eq!(formula_parse("true").unwrap(), ParserNode::Leaf(true));
    assert_eq!(formula_parse("false").unwrap(), ParserNode::Leaf(false));
    assert_eq!(
        formula_parse("x1y").unwrap(),
        ParserNode::Variable("x1y".to_string())
    );
}

#[test]
fn parse_whitespace_is_insignificant() {
    assert_eq!(
        formula_parse(" a\t&\r\n b ").unwrap(),
        formula_parse("a&b").unwrap()
    );
}

#[test]
fn parse_error_invalid_token() {
    assert_eq!(
        formula_parse("a $ b"),
        Err(ParseError::InvalidToken { location: 2 })
    );
    assert_eq!(
        formula_parse("-a"),
        Err(ParseError::InvalidToken { location: 0 })
    );
    assert_eq!(
        formula_parse("<-"),
        Err(ParseError::InvalidToken { location: 0 })
    );
}

#[test]
fn parse_error_unexpected_end() {
    assert_eq!(formula_parse(""), Err(ParseError::UnrecognizedEof));
    assert_eq!(formula_parse("a &"), Err(ParseError::UnrecognizedEof));
    assert_eq!(formula_parse("(a"), Err(ParseError::UnrecognizedEof));
}

#[test]
fn parse_error_unexpected_token() {
    assert_eq!(
        formula_parse("( )"),
        Err(ParseError::UnrecognizedToken { location: 1 })
    );
    assert_eq!(
        formula_parse("& a"),
        Err(ParseError::UnrecognizedToken { location: 0 })
    );
}

#[test]
fn parse_error_extra_token() {
    assert_eq!(
        formula_parse("a b"),
        Err(ParseError::ExtraToken { location: 1 })
    );
    assert_eq!(
        formula_parse("a ) b"),
        Err(ParseError::ExtraToken { location: 1 })
    );
}

#[test]
fn parser_node_accept_applies_visitor() {
    let tree = formula_parse("!a").unwrap();
    let is_unary = tree.accept(|t| matches!(t, ParserNode::Unary(_, _)));
    assert!(is_unary);
}

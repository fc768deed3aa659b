//! Construction of Reduced Ordered Binary Decision Diagrams from
//! propositional logic formulas given as text.
//!
//! The diagram engine keeps every internal node in a single arena owned by
//! [`BinaryDecisionDiagram`]; handles are terminal tags or arena indices.
//! The store enforces the canonical-form invariants (variable ordering on
//! every path, uniqueness of triples, no node with two equal children), so
//! two handles into one store denote the same Boolean function exactly when
//! they are equal.

use vstd::prelude::*;

mod apply;
mod binary_decision_diagram;
mod binary_index;
mod canonicity;
mod child_index;
mod formula_parser;
mod formula_root;
mod laws;
mod node_handler;

pub use apply::{apply_binary, apply_unary};
pub use binary_decision_diagram::{
    above, diagram_inv, eval, extends, handle_inv, lemma_eval_extends, lemma_extends_trans,
    assign_of, lemma_above_extends, node_inv_at, op_eval, rank, BinaryDecisionDiagram, Node,
};
pub use binary_index::BinaryIndex;
pub use canonicity::{assign_update, lemma_canonicity, lemma_eval_children, lemma_eval_independent, lemma_function_determines_handle, max2};
pub use child_index::ChildIndex;
pub use formula_parser::{
    cons_token, formula_eval, formula_eval_named, formula_parse, parse_step_view,
    spec_formula_parse, spec_ident_end, spec_is_identifier_char, spec_is_letter, spec_parse_and,
    spec_parse_formula, spec_parse_or, spec_parse_primary, spec_parse_unary, spec_and_rest,
    spec_or_rest, spec_tokenize_from, tokens_view, tree_view, ParseError, ParserNode, Token,
    TokenView,
};
pub use formula_root::{
    assigned_total, dec_str, digit_str_view, edge_line, label_line, nats_of, spec_dot,
    spec_fmt_rec, spec_get_index, FormulaRoot,
};
pub use laws::{
    assign_via_table, lemma_apply_and_false, lemma_apply_and_true, lemma_apply_commutative,
    lemma_apply_iff_negation, lemma_apply_iff_self, lemma_apply_implies_from_false,
    lemma_apply_implies_to_true, lemma_apply_or_false, lemma_apply_or_true, lemma_de_morgan,
    lemma_decision_agreement, lemma_driver_canonicity, lemma_negate_involution,
    lemma_rename_preserves_semantics,
};
pub use node_handler::{Element, NodeHandler};

verus! {

use crate::binary_decision_diagram::vars_below;

/// A propositional connective: either a binary one or a unary one.
#[derive(Clone, Copy, Debug)]
pub enum Operation {
    Binary(BinaryOperation),
    Unary(UnaryOperation),
}

/// The binary connectives the apply engine supports.
#[derive(Clone, Copy, Debug, PartialEq, Eq)]
pub enum BinaryOperation {
    And,
    Or,
    Implication,
    Equivalence,
}

/// The unary connectives the negate engine supports.
#[derive(Clone, Copy, Debug, PartialEq, Eq)]
pub enum UnaryOperation {
    Not,
}

/// No two entries of the name table read the same.
pub open spec fn distinct_names(table: Seq<String>) -> bool {
    forall|i: int, j: int|
        0 <= i < table.len() && 0 <= j < table.len() && i != j ==> (#[trigger] table[i]@)
            != (#[trigger] table[j]@)
}

/// The renamed tree `r` is the named tree `t` with every variable name
/// replaced by an identifier that the table maps back to that name, and
/// everything else kept.
pub open spec fn renames_to(
    t: ParserNode<Seq<char>>,
    r: ParserNode<usize>,
    table: Seq<String>,
) -> bool
    decreases t,
{
    match (t, r) {
        (ParserNode::Unary(op1, x1), ParserNode::Unary(op2, x2)) => op1 == op2 && renames_to(
            *x1,
            *x2,
            table,
        ),
        (ParserNode::Binary(op1, p1), ParserNode::Binary(op2, p2)) => op1 == op2 && renames_to(
            *p1.0,
            *p2.0,
            table,
        ) && renames_to(*p1.1, *p2.1, table),
        (ParserNode::Variable(name), ParserNode::Variable(id)) => id < table.len() && table[
            id as int
        ]@ == name,
        (ParserNode::Leaf(b1), ParserNode::Leaf(b2)) => b1 == b2,
        _ => false,
    }
}

/// The table's entries as character sequences.
pub open spec fn names_of(table: Seq<String>) -> Seq<Seq<char>> {
    table.map_values(|s: String| s@)
}

/// The name is already one of the sequence's entries.
pub open spec fn contains_name(names: Seq<Seq<char>>, name: Seq<char>) -> bool {
    exists|i: int| 0 <= i < names.len() && names[i] == name
}

/// The name table after walking a tree in evaluation order: every
/// variable name not yet present is appended at its first occurrence,
/// and nothing else is added.
pub open spec fn first_seen(t: ParserNode<Seq<char>>, names: Seq<Seq<char>>) -> Seq<Seq<char>>
    decreases t,
{
    match t {
        ParserNode::Unary(_, x) => first_seen(*x, names),
        ParserNode::Binary(_, p) => first_seen(*p.1, first_seen(*p.0, names)),
        ParserNode::Variable(name) => if contains_name(names, name) {
            names
        } else {
            names.push(name)
        },
        ParserNode::Leaf(_) => names,
    }
}

proof fn lemma_names_of_push(table: Seq<String>, s: String)
    ensures
        names_of(table.push(s)) =~= names_of(table).push(s@),
{
}

/// Every variable identifier in the tree lies below `bound`.
pub open spec fn formula_vars_below(t: ParserNode<usize>, bound: int) -> bool
    decreases t,
{
    match t {
        ParserNode::Unary(_, x) => formula_vars_below(*x, bound),
        ParserNode::Binary(_, p) => formula_vars_below(*p.0, bound) && formula_vars_below(
            *p.1,
            bound,
        ),
        ParserNode::Variable(v) => v < bound,
        ParserNode::Leaf(_) => true,
    }
}

/// A renaming stays a renaming when the table grows at the end.
pub proof fn lemma_renames_to_extend(
    t: ParserNode<Seq<char>>,
    r: ParserNode<usize>,
    table1: Seq<String>,
    table2: Seq<String>,
)
    requires
        renames_to(t, r, table1),
        table1.len() <= table2.len(),
        forall|i: int| 0 <= i < table1.len() ==> table2[i] == table1[i],
    ensures
        renames_to(t, r, table2),
    decreases t,
{
    match (t, r) {
        (ParserNode::Unary(op1, x1), ParserNode::Unary(op2, x2)) => {
            lemma_renames_to_extend(*x1, *x2, table1, table2);
        },
        (ParserNode::Binary(op1, p1), ParserNode::Binary(op2, p2)) => {
            lemma_renames_to_extend(*p1.0, *p2.0, table1, table2);
            lemma_renames_to_extend(*p1.1, *p2.1, table1, table2);
        },
        _ => {},
    }
}

/// A tree renamed against a table mentions only identifiers the table
/// resolves.
pub proof fn lemma_renames_to_vars_below(
    t: ParserNode<Seq<char>>,
    r: ParserNode<usize>,
    table: Seq<String>,
)
    requires
        renames_to(t, r, table),
    ensures
        formula_vars_below(r, table.len() as int),
    decreases t,
{
    match (t, r) {
        (ParserNode::Unary(op1, x1), ParserNode::Unary(op2, x2)) => {
            lemma_renames_to_vars_below(*x1, *x2, table);
        },
        (ParserNode::Binary(op1, p1), ParserNode::Binary(op2, p2)) => {
            lemma_renames_to_vars_below(*p1.0, *p2.0, table);
            lemma_renames_to_vars_below(*p1.1, *p2.1, table);
        },
        _ => {},
    }
}

/// Replace every variable name by a dense integer identifier, first-seen
/// order, recording the inverse in `inverse_table`. Names already in the
/// table keep their identifier, so equal names share one identifier and
/// the table stays duplicate-free.
pub fn rename_variable(input: &ParserNode<String>, inverse_table: &mut Vec<String>) -> (r:
    ParserNode<usize>)
    requires
        distinct_names(old(inverse_table)@),
    ensures
        distinct_names(final(inverse_table)@),
        old(inverse_table)@.len() <= final(inverse_table)@.len(),
        forall|i: int|
            0 <= i < old(inverse_table)@.len() ==> final(inverse_table)@[i] == old(
                inverse_table,
            )@[i],
        renames_to(tree_view(*input), r, final(inverse_table)@),
        names_of(final(inverse_table)@) == first_seen(
            tree_view(*input),
            names_of(old(inverse_table)@),
        ),
    decreases *input,
{
    match input {
        ParserNode::Unary(op, operand) => {
            let renamed = rename_variable(operand, inverse_table);
            ParserNode::Unary(*op, Box::new(renamed))
        },
        ParserNode::Binary(op, pair) => {
            let left = rename_variable(&pair.0, inverse_table);
            let ghost table1 = inverse_table@;
            let right = rename_variable(&pair.1, inverse_table);
            proof {
                lemma_renames_to_extend(tree_view(*pair.0), left, table1, inverse_table@);
            }
            ParserNode::Binary(*op, (Box::new(left), Box::new(right)))
        },
        ParserNode::Variable(name) => {
            let count = inverse_table.len();
            let mut k: usize = 0;
            while k < count
                invariant
                    k <= count,
                    count == inverse_table@.len(),
                    inverse_table@ == old(inverse_table)@,
                    distinct_names(old(inverse_table)@),
                    *input == ParserNode::Variable(*name),
                    forall|i: int| 0 <= i < k ==> (#[trigger] inverse_table@[i]@) != name@,
                decreases count - k,
            {
                if inverse_table[k].eq(name) {
                    proof {
                        assert(names_of(inverse_table@)[k as int] == name@);
                        assert(contains_name(names_of(inverse_table@), name@));
                    }
                    return ParserNode::Variable(k);
                }
                k += 1;
            }
            let id = inverse_table.len();
            proof {
                assert forall|i: int|
                    0 <= i < names_of(inverse_table@).len() implies names_of(inverse_table@)[i]
                    != name@ by {
                    assert(names_of(inverse_table@)[i] == inverse_table@[i]@);
                }
                assert(!contains_name(names_of(inverse_table@), name@));
            }
            inverse_table.push(name.clone());
            proof {
                lemma_names_of_push(old(inverse_table)@, inverse_table@[id as int]);
                assert forall|i: int, j: int|
                    0 <= i < inverse_table@.len() && 0 <= j < inverse_table@.len() && i
                        != j implies (#[trigger] inverse_table@[i]@) != (
                    #[trigger] inverse_table@[j]@) by {
                    if i < id && j < id {
                        assert(inverse_table@[i] == old(inverse_table)@[i]);
                        assert(inverse_table@[j] == old(inverse_table)@[j]);
                    }
                }
                assert(names_of(inverse_table@) =~= names_of(old(inverse_table)@).push(name@));
            }
            ParserNode::Variable(id)
        },
        ParserNode::Leaf(value) => ParserNode::Leaf(*value),
    }
}

/// Build the diagram of a variable-renamed formula tree, post-order:
/// variables become elementary diagrams, `!` goes through the negate
/// engine, binary connectives through the apply engine. The root denotes
/// exactly the formula's Boolean function, and the store keeps its
/// invariants and its existing nodes.
pub fn construct_robdd_from_parser_tree(
    input: &ParserNode<usize>,
    diagram: &mut BinaryDecisionDiagram,
) -> (root: NodeHandler)
    requires
        old(diagram).inv(),
    ensures
        final(diagram).inv(),
        extends(old(diagram)@, final(diagram)@),
        handle_inv(final(diagram)@, root),
        forall|b: int|
            vars_below(old(diagram)@, b) && formula_vars_below(*input, b) ==> vars_below(
                final(diagram)@,
                b,
            ),
        forall|a: spec_fn(usize) -> bool| #[trigger] eval(final(diagram)@, root, a)
            == formula_eval(*input, a),
    decreases *input,
{
    match input {
        ParserNode::Unary(op, operand) => match op {
            UnaryOperation::Not => {
                let ghost d0 = diagram@;
                let sub = construct_robdd_from_parser_tree(operand, diagram);
                let ghost d1 = diagram@;
                let root = apply_unary(diagram, sub, *op);
                proof {
                    lemma_extends_trans(d0, d1, diagram@);
                    assert forall|b: int|
                        vars_below(d0, b) && formula_vars_below(*input, b) implies vars_below(
                        diagram@,
                        b,
                    ) by {
                        assert(formula_vars_below(**operand, b));
                        assert(vars_below(d1, b));
                    }
                }
                root
            },
        },
        ParserNode::Binary(op, pair) => {
            let ghost d0 = diagram@;
            let left = construct_robdd_from_parser_tree(&pair.0, diagram);
            let ghost d1 = diagram@;
            let right = construct_robdd_from_parser_tree(&pair.1, diagram);
            let ghost d2 = diagram@;
            let root = apply_binary(diagram, (left, right), *op);
            proof {
                let d3 = diagram@;
                lemma_extends_trans(d0, d1, d2);
                lemma_extends_trans(d0, d2, d3);
                assert forall|a: spec_fn(usize) -> bool| #[trigger] eval(d3, root, a)
                    == formula_eval(*input, a) by {
                    lemma_eval_extends(d1, d2, left, a);
                }
                assert forall|b: int|
                    vars_below(d0, b) && formula_vars_below(*input, b) implies vars_below(
                    d3,
                    b,
                ) by {
                    assert(formula_vars_below(*pair.0, b));
                    assert(formula_vars_below(*pair.1, b));
                    assert(vars_below(d1, b));
                    assert(vars_below(d2, b));
                }
            }
            root
        },
        ParserNode::Variable(var) => diagram.add_variable(*var),
        ParserNode::Leaf(value) => BinaryDecisionDiagram::get_leaf(*value),
    }
}

/// The root handle of `nodes` denotes exactly the Boolean function of the
/// renamed formula tree `rt`.
pub open spec fn denotes(nodes: Seq<Node>, root: NodeHandler, rt: ParserNode<usize>) -> bool {
    forall|a: spec_fn(usize) -> bool| #[trigger] eval(nodes, root, a) == formula_eval(rt, a)
}

/// Parse a formula, rename its variables to dense identifiers, and build
/// its diagram.
///
/// The result is `Ok` exactly when [`spec_formula_parse`] accepts the
/// input, and carries the input's parse tree through: the store satisfies
/// the canonical-form invariants, the root is a valid handle, the table
/// holds the input's variable names in first-seen order and nothing else,
/// and the root denotes the Boolean function of the parsed formula under
/// some renaming into that table. A rejected input returns exactly the
/// error [`spec_formula_parse`] assigns it, and no diagram escapes.
pub fn construct_robdd(input: &str) -> (r: Result<
    (BinaryDecisionDiagram, FormulaRoot),
    ParseError,
>)
    ensures
        (match r {
            Ok(pair) => spec_formula_parse(input@) matches Ok(tv) && {
                &&& pair.0.inv()
                &&& handle_inv(pair.0@, pair.1.0)
                &&& distinct_names(pair.1.1@)
                &&& vars_below(pair.0@, pair.1.1@.len() as int)
                &&& names_of(pair.1.1@) == first_seen(tv, Seq::<Seq<char>>::empty())
                &&& exists|rt: ParserNode<usize>|
                    #[trigger] renames_to(tv, rt, pair.1.1@) && denotes(pair.0@, pair.1.0, rt)
            },
            Err(e) => spec_formula_parse(input@) == Err::<ParserNode<Seq<char>>, ParseError>(e),
        }),
{
    let mut diagram = BinaryDecisionDiagram::default();
    let mut inverse_table: Vec<String> = Vec::new();
    let tree = match formula_parse(input) {
        Ok(tree) => tree,
        Err(e) => {
            return Err(e);
        },
    };
    proof {
        assert(names_of(inverse_table@) =~= Seq::<Seq<char>>::empty());
    }
    let renamed = rename_variable(&tree, &mut inverse_table);
    let root = construct_robdd_from_parser_tree(&renamed, &mut diagram);
    proof {
        lemma_renames_to_vars_below(tree_view(tree), renamed, inverse_table@);
        assert(renames_to(tree_view(tree), renamed, inverse_table@) && denotes(
            diagram@,
            root,
            renamed,
        ));
    }
    Ok((diagram, FormulaRoot::new(root, inverse_table)))
}

} // verus!

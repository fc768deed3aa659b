use vstd::prelude::*;

verus! {

use vstd::string::StrSliceExecFns;
use vstd::string::StringExecFns;

use crate::binary_decision_diagram::op_eval;
use crate::{BinaryOperation, UnaryOperation};

/// The abstract syntax tree of a propositional formula over variables of
/// type `T`.
#[derive(Debug, PartialEq)]
pub enum ParserNode<T> {
    Unary(UnaryOperation, Box<ParserNode<T>>),
    Binary(BinaryOperation, (Box<ParserNode<T>>, Box<ParserNode<T>>)),
    Variable(T),
    Leaf(bool),
}

impl<T> ParserNode<T> {
    /// Hand this tree to a visitor and return what it computes.
    pub fn accept<U, F: Fn(&Self) -> U>(&self, f: F) -> (r: U)
        requires
            f.requires((self,)),
        ensures
            f.ensures((self,), r),
    {
        f(self)
    }
}

/// A tree over `String` variables read at the specification level: each
/// name replaced by its character sequence.
pub open spec fn tree_view(t: ParserNode<String>) -> ParserNode<Seq<char>>
    decreases t,
{
    match t {
        ParserNode::Unary(op, x) => ParserNode::Unary(op, Box::new(tree_view(*x))),
        ParserNode::Binary(op, p) => ParserNode::Binary(
            op,
            (Box::new(tree_view(*p.0)), Box::new(tree_view(*p.1))),
        ),
        ParserNode::Variable(name) => ParserNode::Variable(name@),
        ParserNode::Leaf(value) => ParserNode::Leaf(value),
    }
}

/// The truth value of a formula over integer variable identifiers under a
/// total assignment.
pub open spec fn formula_eval(t: ParserNode<usize>, a: spec_fn(usize) -> bool) -> bool
    decreases t,
{
    match t {
        ParserNode::Unary(op, operand) => match op {
            UnaryOperation::Not => !formula_eval(*operand, a),
        },
        ParserNode::Binary(op, pair) => op_eval(op, formula_eval(*pair.0, a), formula_eval(*pair.1, a)),
        ParserNode::Variable(v) => a(v),
        ParserNode::Leaf(value) => value,
    }
}

/// The truth value of a formula over named variables under a total
/// assignment of its names.
pub open spec fn formula_eval_named(t: ParserNode<Seq<char>>, an: spec_fn(Seq<char>) -> bool) -> bool
    decreases t,
{
    match t {
        ParserNode::Unary(op, operand) => match op {
            UnaryOperation::Not => !formula_eval_named(*operand, an),
        },
        ParserNode::Binary(op, pair) => op_eval(
            op,
            formula_eval_named(*pair.0, an),
            formula_eval_named(*pair.1, an),
        ),
        ParserNode::Variable(name) => an(name),
        ParserNode::Leaf(value) => value,
    }
}

/// Why a formula was rejected, with the character or token position the
/// reader stopped at.
#[derive(Clone, Copy, PartialEq, Eq, Structural, Debug)]
pub enum ParseError {
    /// A character that starts no token of the grammar, at a character
    /// position of the input.
    InvalidToken { location: usize },
    /// The formula ended where more input was owed.
    UnrecognizedEof,
    /// A well-formed token in a place the grammar does not allow, at a
    /// token position.
    UnrecognizedToken { location: usize },
    /// Input left over after a complete formula, at a token position.
    ExtraToken { location: usize },
}

/// One lexical token of the formula grammar.
#[derive(Debug)]
pub enum Token {
    Not,
    And,
    Or,
    Implies,
    Iff,
    LeftParen,
    RightParen,
    Constant(bool),
    Identifier(String),
}

/// A token read at the specification level: identifiers carry their
/// character sequence.
pub enum TokenView {
    Not,
    And,
    Or,
    Implies,
    Iff,
    LeftParen,
    RightParen,
    Constant(bool),
    Identifier(Seq<char>),
}

impl View for Token {
    type V = TokenView;

    open spec fn view(&self) -> TokenView {
        match self {
            Token::Not => TokenView::Not,
            Token::And => TokenView::And,
            Token::Or => TokenView::Or,
            Token::Implies => TokenView::Implies,
            Token::Iff => TokenView::Iff,
            Token::LeftParen => TokenView::LeftParen,
            Token::RightParen => TokenView::RightParen,
            Token::Constant(value) => TokenView::Constant(*value),
            Token::Identifier(name) => TokenView::Identifier(name@),
        }
    }
}

/// A token sequence read at the specification level.
pub open spec fn tokens_view(s: Seq<Token>) -> Seq<TokenView> {
    s.map_values(|t: Token| t@)
}

/// A letter of the grammar: `A`–`Z` or `a`–`z`.
pub open spec fn spec_is_letter(c: char) -> bool {
    (65 <= c as u32 && c as u32 <= 90) || (97 <= c as u32 && c as u32 <= 122)
}

/// A character that may continue an identifier: a letter or a digit.
pub open spec fn spec_is_identifier_char(c: char) -> bool {
    spec_is_letter(c) || (48 <= c as u32 && c as u32 <= 57)
}

fn is_letter(c: char) -> (r: bool)
    ensures
        r == spec_is_letter(c),
{
    let u = c as u32;
    (65 <= u && u <= 90) || (97 <= u && u <= 122)
}

fn is_identifier_char(c: char) -> (r: bool)
    ensures
        r == spec_is_identifier_char(c),
{
    let u = c as u32;
    (65 <= u && u <= 90) || (97 <= u && u <= 122) || (48 <= u && u <= 57)
}

/// Where the identifier that continues at `i` ends: the first position at
/// or after `i` that is past the input or not an identifier character.
pub open spec fn spec_ident_end(input: Seq<char>, i: int) -> int
    decreases input.len() - i,
{
    if 0 <= i < input.len() && spec_is_identifier_char(input[i]) {
        spec_ident_end(input, i + 1)
    } else {
        i
    }
}

/// Prepend one token to a lexing result, passing an error through.
pub open spec fn cons_token(t: TokenView, r: Result<Seq<TokenView>, ParseError>) -> Result<
    Seq<TokenView>,
    ParseError,
> {
    match r {
        Ok(rest) => Ok(seq![t] + rest),
        Err(e) => Err(e),
    }
}

/// The tokens of the input from position `i` on, or the first lexical
/// error: whitespace is skipped; `! & | ( )` stand alone; `-` must begin
/// `->` and `<` must begin `<->`; a letter begins the longest identifier,
/// which reads as a constant when it is `true` or `false`; anything else
/// is an invalid token at its position. (The bounds test on the
/// identifier's end keeps the recursion well-founded; it always holds.)
pub open spec fn spec_tokenize_from(input: Seq<char>, i: int) -> Result<Seq<TokenView>, ParseError>
    decreases input.len() - i,
{
    if !(0 <= i < input.len()) {
        Ok(Seq::<TokenView>::empty())
    } else {
        let c = input[i];
        if c == ' ' || c == '\t' || c == '\r' || c == '\n' {
            spec_tokenize_from(input, i + 1)
        } else if c == '!' {
            cons_token(TokenView::Not, spec_tokenize_from(input, i + 1))
        } else if c == '&' {
            cons_token(TokenView::And, spec_tokenize_from(input, i + 1))
        } else if c == '|' {
            cons_token(TokenView::Or, spec_tokenize_from(input, i + 1))
        } else if c == '(' {
            cons_token(TokenView::LeftParen, spec_tokenize_from(input, i + 1))
        } else if c == ')' {
            cons_token(TokenView::RightParen, spec_tokenize_from(input, i + 1))
        } else if c == '-' {
            if i + 1 < input.len() && input[i + 1] == '>' {
                cons_token(TokenView::Implies, spec_tokenize_from(input, i + 2))
            } else {
                Err(ParseError::InvalidToken { location: i as usize })
            }
        } else if c == '<' {
            if i + 1 < input.len() && input[i + 1] == '-' && i + 2 < input.len() && input[i + 2]
                == '>' {
                cons_token(TokenView::Iff, spec_tokenize_from(input, i + 3))
            } else {
                Err(ParseError::InvalidToken { location: i as usize })
            }
        } else if spec_is_letter(c) {
            let e = spec_ident_end(input, i + 1);
            if i < e <= input.len() {
                let name = input.subrange(i, e);
                if name == "true"@ {
                    cons_token(TokenView::Constant(true), spec_tokenize_from(input, e))
                } else if name == "false"@ {
                    cons_token(TokenView::Constant(false), spec_tokenize_from(input, e))
                } else {
                    cons_token(TokenView::Identifier(name), spec_tokenize_from(input, e))
                }
            } else {
                Err(ParseError::InvalidToken { location: i as usize })
            }
        } else {
            Err(ParseError::InvalidToken { location: i as usize })
        }
    }
}

/// Tokens already read, followed by the rest of a lexing result.
pub open spec fn tok_combine(prefix: Seq<TokenView>, r: Result<Seq<TokenView>, ParseError>) -> Result<
    Seq<TokenView>,
    ParseError,
> {
    match r {
        Ok(rest) => Ok(prefix + rest),
        Err(e) => Err(e),
    }
}

proof fn lemma_tok_combine_empty(r: Result<Seq<TokenView>, ParseError>)
    ensures
        tok_combine(Seq::<TokenView>::empty(), r) == r,
{
    match r {
        Ok(rest) => {
            assert(Seq::<TokenView>::empty() + rest =~= rest);
        },
        Err(_) => {},
    }
}

proof fn lemma_tok_combine_push(prefix: Seq<TokenView>, t: TokenView, r: Result<
    Seq<TokenView>,
    ParseError,
>)
    ensures
        tok_combine(prefix, cons_token(t, r)) == tok_combine(prefix.push(t), r),
{
    match r {
        Ok(rest) => {
            assert(prefix + (seq![t] + rest) =~= prefix.push(t) + rest);
        },
        Err(_) => {},
    }
}

proof fn lemma_tokens_view_push(s: Seq<Token>, t: Token)
    ensures
        tokens_view(s.push(t)) =~= tokens_view(s).push(t@),
{
}

/// Split the input into tokens exactly as [`spec_tokenize_from`] reads it
/// from the start, or report the same first lexical error.
fn tokenize(input: &str) -> (r: Result<Vec<Token>, ParseError>)
    ensures
        (match r {
            Ok(tokens) => spec_tokenize_from(input@, 0) == Ok::<Seq<TokenView>, ParseError>(
                tokens_view(tokens@),
            ),
            Err(e) => spec_tokenize_from(input@, 0) == Err::<Seq<TokenView>, ParseError>(e),
        }),
{
    let len = input.unicode_len();
    let mut tokens: Vec<Token> = Vec::new();
    let mut i: usize = 0;
    proof {
        lemma_tok_combine_empty(spec_tokenize_from(input@, 0));
        assert(tokens_view(tokens@) =~= Seq::<TokenView>::empty());
    }
    while i < len
        invariant
            i <= len,
            len == input@.len(),
            spec_tokenize_from(input@, 0) == tok_combine(
                tokens_view(tokens@),
                spec_tokenize_from(input@, i as int),
            ),
        decreases len - i,
    {
        let ghost toks0 = tokens@;
        let ghost prefix = tokens_view(tokens@);
        let c = input.get_char(i);
        if c == ' ' || c == '\t' || c == '\r' || c == '\n' {
            i += 1;
        } else if c == '!' {
            tokens.push(Token::Not);
            proof {
                lemma_tokens_view_push(toks0, Token::Not);
                lemma_tok_combine_push(prefix, TokenView::Not, spec_tokenize_from(input@, i + 1));
            }
            i += 1;
        } else if c == '&' {
            tokens.push(Token::And);
            proof {
                lemma_tokens_view_push(toks0, Token::And);
                lemma_tok_combine_push(prefix, TokenView::And, spec_tokenize_from(input@, i + 1));
            }
            i += 1;
        } else if c == '|' {
            tokens.push(Token::Or);
            proof {
                lemma_tokens_view_push(toks0, Token::Or);
                lemma_tok_combine_push(prefix, TokenView::Or, spec_tokenize_from(input@, i + 1));
            }
            i += 1;
        } else if c == '(' {
            tokens.push(Token::LeftParen);
            proof {
                lemma_tokens_view_push(toks0, Token::LeftParen);
                lemma_tok_combine_push(
                    prefix,
                    TokenView::LeftParen,
                    spec_tokenize_from(input@, i + 1),
                );
            }
            i += 1;
        } else if c == ')' {
            tokens.push(Token::RightParen);
            proof {
                lemma_tokens_view_push(toks0, Token::RightParen);
                lemma_tok_combine_push(
                    prefix,
                    TokenView::RightParen,
                    spec_tokenize_from(input@, i + 1),
                );
            }
            i += 1;
        } else if c == '-' {
            if i + 1 < len && input.get_char(i + 1) == '>' {
                tokens.push(Token::Implies);
                proof {
                    lemma_tokens_view_push(toks0, Token::Implies);
                    lemma_tok_combine_push(
                        prefix,
                        TokenView::Implies,
                        spec_tokenize_from(input@, i + 2),
                    );
                }
                i += 2;
            } else {
                return Err(ParseError::InvalidToken { location: i });
            }
        } else if c == '<' {
            if i + 1 < len && input.get_char(i + 1) == '-' && i + 2 < len && input.get_char(i
                + 2) == '>' {
                tokens.push(Token::Iff);
                proof {
                    lemma_tokens_view_push(toks0, Token::Iff);
                    lemma_tok_combine_push(
                        prefix,
                        TokenView::Iff,
                        spec_tokenize_from(input@, i + 3),
                    );
                }
                i += 3;
            } else {
                return Err(ParseError::InvalidToken { location: i });
            }
        } else if is_letter(c) {
            let start = i;
            i += 1;
            while i < len && is_identifier_char(input.get_char(i))
                invariant
                    start < i <= len,
                    len == input@.len(),
                    spec_ident_end(input@, i as int) == spec_ident_end(input@, start + 1),
                decreases len - i,
            {
                i += 1;
            }
            proof {
                assert(spec_ident_end(input@, i as int) == i as int);
            }
            let name = String::from_str(input.substring_char(start, i));
            let token = if name == String::from_str("true") {
                Token::Constant(true)
            } else if name == String::from_str("false") {
                Token::Constant(false)
            } else {
                Token::Identifier(name)
            };
            let ghost tv = token@;
            tokens.push(token);
            proof {
                lemma_tokens_view_push(toks0, token);
                lemma_tok_combine_push(prefix, tv, spec_tokenize_from(input@, i as int));
            }
        } else {
            return Err(ParseError::InvalidToken { location: i });
        }
    }
    proof {
        assert(tokens_view(tokens@) + Seq::<TokenView>::empty() =~= tokens_view(tokens@));
    }
    Ok(tokens)
}

/// The result of one descent step, read at the specification level.
pub open spec fn parse_step_view(r: Result<(ParserNode<String>, usize), ParseError>) -> Result<
    (ParserNode<Seq<char>>, int),
    ParseError,
> {
    match r {
        Ok(p) => Ok((tree_view(p.0), p.1 as int)),
        Err(e) => Err(e),
    }
}

/// The atom beginning at `pos`: a constant, a variable, or a
/// parenthesized formula; anything else is rejected at its position.
pub open spec fn spec_parse_primary(tokens: Seq<TokenView>, pos: int) -> Result<
    (ParserNode<Seq<char>>, int),
    ParseError,
>
    decreases tokens.len() - pos, 0int,
{
    if !(0 <= pos < tokens.len()) {
        Err(ParseError::UnrecognizedEof)
    } else {
        match tokens[pos] {
            TokenView::Constant(value) => Ok((ParserNode::Leaf(value), pos + 1)),
            TokenView::Identifier(name) => Ok((ParserNode::Variable(name), pos + 1)),
            TokenView::LeftParen => match spec_parse_formula(tokens, pos + 1) {
                Ok(p) => if 0 <= p.1 < tokens.len() {
                    if tokens[p.1] is RightParen {
                        Ok((p.0, p.1 + 1))
                    } else {
                        Err(ParseError::UnrecognizedToken { location: p.1 as usize })
                    }
                } else {
                    Err(ParseError::UnrecognizedEof)
                },
                Err(e) => Err(e),
            },
            _ => Err(ParseError::UnrecognizedToken { location: pos as usize }),
        }
    }
}

/// Any run of `!` in front of an atom.
pub open spec fn spec_parse_unary(tokens: Seq<TokenView>, pos: int) -> Result<
    (ParserNode<Seq<char>>, int),
    ParseError,
>
    decreases tokens.len() - pos, 1int,
{
    if 0 <= pos < tokens.len() && tokens[pos] is Not {
        match spec_parse_unary(tokens, pos + 1) {
            Ok(p) => Ok((ParserNode::Unary(UnaryOperation::Not, Box::new(p.0)), p.1)),
            Err(e) => Err(e),
        }
    } else {
        spec_parse_primary(tokens, pos)
    }
}

/// The rest of a left-associative `&` chain after `lhs`. (The bounds
/// tests on consumed positions keep the recursion well-founded; the
/// descent always satisfies them.)
pub open spec fn spec_and_rest(tokens: Seq<TokenView>, lhs: ParserNode<Seq<char>>, pos: int) -> Result<
    (ParserNode<Seq<char>>, int),
    ParseError,
>
    decreases tokens.len() - pos, 2int,
{
    if 0 <= pos < tokens.len() && tokens[pos] is And {
        match spec_parse_unary(tokens, pos + 1) {
            Ok(p) => if pos < p.1 <= tokens.len() {
                spec_and_rest(
                    tokens,
                    ParserNode::Binary(BinaryOperation::And, (Box::new(lhs), Box::new(p.0))),
                    p.1,
                )
            } else {
                Err(ParseError::UnrecognizedEof)
            },
            Err(e) => Err(e),
        }
    } else {
        Ok((lhs, pos))
    }
}

/// A left-associative chain of negation-level formulas joined by `&`.
pub open spec fn spec_parse_and(tokens: Seq<TokenView>, pos: int) -> Result<
    (ParserNode<Seq<char>>, int),
    ParseError,
>
    decreases tokens.len() - pos, 3int,
{
    match spec_parse_unary(tokens, pos) {
        Ok(p) => if pos < p.1 <= tokens.len() {
            spec_and_rest(tokens, p.0, p.1)
        } else {
            Err(ParseError::UnrecognizedEof)
        },
        Err(e) => Err(e),
    }
}

/// The rest of a left-associative `|` chain after `lhs`, guarded as
/// [`spec_and_rest`] is.
pub open spec fn spec_or_rest(tokens: Seq<TokenView>, lhs: ParserNode<Seq<char>>, pos: int) -> Result<
    (ParserNode<Seq<char>>, int),
    ParseError,
>
    decreases tokens.len() - pos, 4int,
{
    if 0 <= pos < tokens.len() && tokens[pos] is Or {
        match spec_parse_and(tokens, pos + 1) {
            Ok(p) => if pos < p.1 <= tokens.len() {
                spec_or_rest(
                    tokens,
                    ParserNode::Binary(BinaryOperation::Or, (Box::new(lhs), Box::new(p.0))),
                    p.1,
                )
            } else {
                Err(ParseError::UnrecognizedEof)
            },
            Err(e) => Err(e),
        }
    } else {
        Ok((lhs, pos))
    }
}

/// A left-associative chain of conjunction-level formulas joined by `|`.
pub open spec fn spec_parse_or(tokens: Seq<TokenView>, pos: int) -> Result<
    (ParserNode<Seq<char>>, int),
    ParseError,
>
    decreases tokens.len() - pos, 5int,
{
    match spec_parse_and(tokens, pos) {
        Ok(p) => if pos < p.1 <= tokens.len() {
            spec_or_rest(tokens, p.0, p.1)
        } else {
            Err(ParseError::UnrecognizedEof)
        },
        Err(e) => Err(e),
    }
}

/// A whole formula: a disjunction-level formula, optionally followed by
/// `->` or `<->` and a whole formula, both right-associative and tied at
/// the lowest precedence.
pub open spec fn spec_parse_formula(tokens: Seq<TokenView>, pos: int) -> Result<
    (ParserNode<Seq<char>>, int),
    ParseError,
>
    decreases tokens.len() - pos, 6int,
{
    match spec_parse_or(tokens, pos) {
        Ok(p) => {
            let next = p.1;
            if 0 <= next < tokens.len() && (tokens[next] is Implies || tokens[next] is Iff) {
                if pos < next + 1 <= tokens.len() {
                    match spec_parse_formula(tokens, next + 1) {
                        Ok(q) => Ok(
                            (
                                ParserNode::Binary(
                                    if tokens[next] is Implies {
                                        BinaryOperation::Implication
                                    } else {
                                        BinaryOperation::Equivalence
                                    },
                                    (Box::new(p.0), Box::new(q.0)),
                                ),
                                q.1,
                            ),
                        ),
                        Err(e) => Err(e),
                    }
                } else {
                    Err(ParseError::UnrecognizedEof)
                }
            } else {
                Ok(p)
            }
        },
        Err(e) => Err(e),
    }
}

/// What parsing the whole input yields: its tokens parsed as one formula
/// with nothing left over, or the first error — lexical, syntactic, or a
/// trailing token.
pub open spec fn spec_formula_parse(input: Seq<char>) -> Result<ParserNode<Seq<char>>, ParseError> {
    match spec_tokenize_from(input, 0) {
        Ok(tokens) => match spec_parse_formula(tokens, 0) {
            Ok(p) => if p.1 == tokens.len() {
                Ok(p.0)
            } else {
                Err(ParseError::ExtraToken { location: p.1 as usize })
            },
            Err(e) => Err(e),
        },
        Err(e) => Err(e),
    }
}

fn peek_is_or(tokens: &Vec<Token>, pos: usize) -> (r: bool)
    ensures
        r == (pos < tokens@.len() && tokens_view(tokens@)[pos as int] is Or),
{
    let r = pos < tokens.len() && matches!(&tokens[pos], Token::Or);
    proof {
        if pos < tokens@.len() {
            assert(tokens_view(tokens@)[pos as int] == tokens@[pos as int]@);
        }
    }
    r
}

fn peek_is_and(tokens: &Vec<Token>, pos: usize) -> (r: bool)
    ensures
        r == (pos < tokens@.len() && tokens_view(tokens@)[pos as int] is And),
{
    let r = pos < tokens.len() && matches!(&tokens[pos], Token::And);
    proof {
        if pos < tokens@.len() {
            assert(tokens_view(tokens@)[pos as int] == tokens@[pos as int]@);
        }
    }
    r
}

/// Lowest precedence: a disjunction-level formula, optionally followed by
/// `->` or `<->` and a whole formula, both right-associative.
fn parse_formula(tokens: &Vec<Token>, pos: usize) -> (r: Result<
    (ParserNode<String>, usize),
    ParseError,
>)
    requires
        pos <= tokens@.len(),
    ensures
        r matches Ok(p) ==> pos < p.1 <= tokens@.len(),
        parse_step_view(r) == spec_parse_formula(tokens_view(tokens@), pos as int),
    decreases tokens@.len() - pos, 4int,
{
    let ghost tv = tokens_view(tokens@);
    let (lhs, next) = parse_or(tokens, pos)?;
    if next < tokens.len() {
        proof {
            assert(tv[next as int] == tokens@[next as int]@);
        }
        match &tokens[next] {
            Token::Implies => {
                let (rhs, after) = parse_formula(tokens, next + 1)?;
                Ok(
                    (
                        ParserNode::Binary(
                            BinaryOperation::Implication,
                            (Box::new(lhs), Box::new(rhs)),
                        ),
                        after,
                    ),
                )
            },
            Token::Iff => {
                let (rhs, after) = parse_formula(tokens, next + 1)?;
                Ok(
                    (
                        ParserNode::Binary(
                            BinaryOperation::Equivalence,
                            (Box::new(lhs), Box::new(rhs)),
                        ),
                        after,
                    ),
                )
            },
            _ => Ok((lhs, next)),
        }
    } else {
        Ok((lhs, next))
    }
}

/// A left-associative chain of conjunction-level formulas joined by `|`.
fn parse_or(tokens: &Vec<Token>, pos: usize) -> (r: Result<
    (ParserNode<String>, usize),
    ParseError,
>)
    requires
        pos <= tokens@.len(),
    ensures
        r matches Ok(p) ==> pos < p.1 <= tokens@.len(),
        parse_step_view(r) == spec_parse_or(tokens_view(tokens@), pos as int),
    decreases tokens@.len() - pos, 3int,
{
    let ghost tv = tokens_view(tokens@);
    let (first, start) = parse_and(tokens, pos)?;
    let n = tokens.len();
    let mut lhs = first;
    let mut p = start;
    while peek_is_or(tokens, p)
        invariant
            pos < p <= tokens@.len(),
            n == tokens@.len(),
            tv == tokens_view(tokens@),
            spec_or_rest(tv, tree_view(lhs), p as int) == spec_parse_or(tv, pos as int),
        decreases tokens@.len() - p,
    {
        let (rhs, after) = parse_and(tokens, p + 1)?;
        lhs = ParserNode::Binary(BinaryOperation::Or, (Box::new(lhs), Box::new(rhs)));
        p = after;
    }
    Ok((lhs, p))
}

/// A left-associative chain of negation-level formulas joined by `&`.
fn parse_and(tokens: &Vec<Token>, pos: usize) -> (r: Result<
    (ParserNode<String>, usize),
    ParseError,
>)
    requires
        pos <= tokens@.len(),
    ensures
        r matches Ok(p) ==> pos < p.1 <= tokens@.len(),
        parse_step_view(r) == spec_parse_and(tokens_view(tokens@), pos as int),
    decreases tokens@.len() - pos, 2int,
{
    let ghost tv = tokens_view(tokens@);
    let (first, start) = parse_unary(tokens, pos)?;
    let n = tokens.len();
    let mut lhs = first;
    let mut p = start;
    while peek_is_and(tokens, p)
        invariant
            pos < p <= tokens@.len(),
            n == tokens@.len(),
            tv == tokens_view(tokens@),
            spec_and_rest(tv, tree_view(lhs), p as int) == spec_parse_and(tv, pos as int),
        decreases tokens@.len() - p,
    {
        let (rhs, after) = parse_unary(tokens, p + 1)?;
        lhs = ParserNode::Binary(BinaryOperation::And, (Box::new(lhs), Box::new(rhs)));
        p = after;
    }
    Ok((lhs, p))
}

/// Highest precedence before atoms: any run of `!` in front of an atom.
fn parse_unary(tokens: &Vec<Token>, pos: usize) -> (r: Result<
    (ParserNode<String>, usize),
    ParseError,
>)
    requires
        pos <= tokens@.len(),
    ensures
        r matches Ok(p) ==> pos < p.1 <= tokens@.len(),
        parse_step_view(r) == spec_parse_unary(tokens_view(tokens@), pos as int),
    decreases tokens@.len() - pos, 1int,
{
    let ghost tv = tokens_view(tokens@);
    proof {
        if pos < tokens@.len() {
            assert(tv[pos as int] == tokens@[pos as int]@);
        }
    }
    if pos < tokens.len() && matches!(&tokens[pos], Token::Not) {
        let (operand, after) = parse_unary(tokens, pos + 1)?;
        Ok((ParserNode::Unary(UnaryOperation::Not, Box::new(operand)), after))
    } else {
        parse_primary(tokens, pos)
    }
}

/// An atom: a constant, a variable, or a parenthesized formula.
fn parse_primary(tokens: &Vec<Token>, pos: usize) -> (r: Result<
    (ParserNode<String>, usize),
    ParseError,
>)
    requires
        pos <= tokens@.len(),
    ensures
        r matches Ok(p) ==> pos < p.1 <= tokens@.len(),
        parse_step_view(r) == spec_parse_primary(tokens_view(tokens@), pos as int),
    decreases tokens@.len() - pos, 0int,
{
    let ghost tv = tokens_view(tokens@);
    if pos >= tokens.len() {
        return Err(ParseError::UnrecognizedEof);
    }
    proof {
        assert(tv[pos as int] == tokens@[pos as int]@);
    }
    match &tokens[pos] {
        Token::Constant(value) => Ok((ParserNode::Leaf(*value), pos + 1)),
        Token::Identifier(name) => Ok((ParserNode::Variable(name.clone()), pos + 1)),
        Token::LeftParen => {
            let (inner, p) = parse_formula(tokens, pos + 1)?;
            if p < tokens.len() {
                proof {
                    assert(tv[p as int] == tokens@[p as int]@);
                }
                match &tokens[p] {
                    Token::RightParen => Ok((inner, p + 1)),
                    _ => Err(ParseError::UnrecognizedToken { location: p }),
                }
            } else {
                Err(ParseError::UnrecognizedEof)
            }
        },
        _ => Err(ParseError::UnrecognizedToken { location: pos }),
    }
}

/// Parse a formula over named variables, or report why it is malformed:
/// exactly what [`spec_formula_parse`] yields on the input's characters.
///
/// Operator precedence, high to low: `!`, `&`, `|`, then `->` and `<->`
/// tied at the lowest level and right-associative; parentheses override.
pub fn formula_parse(formula: &str) -> (r: Result<ParserNode<String>, ParseError>)
    ensures
        (match r {
            Ok(t) => spec_formula_parse(formula@) == Ok::<ParserNode<Seq<char>>, ParseError>(
                tree_view(t),
            ),
            Err(e) => spec_formula_parse(formula@) == Err::<ParserNode<Seq<char>>, ParseError>(e),
        }),
{
    let tokens = tokenize(formula)?;
    let (tree, consumed) = parse_formula(&tokens, 0)?;
    proof {
        assert(tokens_view(tokens@).len() == tokens@.len());
    }
    if consumed < tokens.len() {
        return Err(ParseError::ExtraToken { location: consumed });
    }
    Ok(tree)
}

} // verus!

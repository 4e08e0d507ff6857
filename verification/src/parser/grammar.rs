//! The grammar, as functions on a token stream.
//!
//! ```text
//! expression → equality
//! equality   → comparison ( ("!=" | "==") comparison )*
//! comparison → term ( (">" | ">=" | "<" | "<=") term )*
//! term       → factor ( ("+" | "-") factor )*
//! factor     → unary ( ("/" | "*") unary )*
//! unary      → ("!" | "-") unary | primary
//! primary    → NUMBER | STRING | "true" | "false" | "nil" | "(" expression ")"
//! ```
//!
//! The four binary rules differ in their operators only. They are numbered
//! from the loosest, `equality` at level 0, to the tightest, `factor` at
//! level 3; `unary` stands at level 4 and `primary` at level 5.

use crate::lexer::token::{kind_name, LiteralView, TokenKind, TokenView};
use crate::syntax::expr::ExprView;
use vstd::prelude::*;

verus! {

/// A syntax error as contracts see it.
pub enum ParserErrorView {
    /// What was expected, and the token that stood there instead.
    UnexpectedToken(Seq<char>, TokenView),
    Test,
}

/// What a rule makes of the tokens from some position on: a tree or an error,
/// and the number of tokens that it has consumed either way.
pub struct Parsed {
    pub result: Result<ExprView, ParserErrorView>,
    pub consumed: nat,
}

/// The level of `unary`.
pub open spec fn unary_level() -> nat {
    4
}

/// The level of `primary`.
pub open spec fn primary_level() -> nat {
    5
}

/// The kind of the token at `pos`; `EOF` beyond the stream.
pub open spec fn kind_at(tokens: Seq<TokenView>, pos: int) -> TokenKind {
    if 0 <= pos < tokens.len() {
        tokens[pos].kind
    } else {
        TokenKind::EOF
    }
}

/// The number of tokens from `pos` to the end of the stream.
pub open spec fn tokens_left(tokens: Seq<TokenView>, pos: int) -> nat {
    if pos < tokens.len() {
        (tokens.len() - pos) as nat
    } else {
        0
    }
}

/// The level of the binary rule that `kind` is an operator of.
pub open spec fn binary_level(kind: TokenKind) -> Option<nat> {
    match kind {
        TokenKind::BangEqual | TokenKind::EqualEqual => Some(0nat),
        TokenKind::Greater | TokenKind::GreaterEqual | TokenKind::Less | TokenKind::LessEqual => Some(
            1nat,
        ),
        TokenKind::Plus | TokenKind::Minus => Some(2nat),
        TokenKind::Slash | TokenKind::Star => Some(3nat),
        _ => None,
    }
}

/// Whether `kind` is an operator of `unary`.
pub open spec fn is_unary_operator(kind: TokenKind) -> bool {
    kind == TokenKind::Bang || kind == TokenKind::Minus
}

/// The literal that a keyword stands for.
pub open spec fn keyword_literal(text: Seq<char>) -> ExprView {
    ExprView::Literal { value: LiteralView::Str { val: text, terminated: true } }
}

/// What `primary` says it expected where no alternative matches.
pub open spec fn primary_expected() -> Seq<char> {
    "`false`, `true`, `nil`, `NUMBER`, `STRING`, or `(`"@
}

/// A tree, and the number of tokens that it took.
pub open spec fn accepted(tree: ExprView, consumed: nat) -> Parsed {
    Parsed { result: Ok(tree), consumed }
}

/// An error at the token `found`, after `consumed` tokens.
pub open spec fn rejected(expected: Seq<char>, found: TokenView, consumed: nat) -> Parsed {
    Parsed { result: Err(ParserErrorView::UnexpectedToken(expected, found)), consumed }
}

/// The same outcome, `before` tokens later.
pub open spec fn after(before: nat, parsed: Parsed) -> Parsed {
    Parsed { result: parsed.result, consumed: before + parsed.consumed }
}

/// The measure by which the rules are ordered where they stand at the same
/// position: a rule calls only rules of a lower rank there.
pub open spec fn level_rank(level: nat) -> nat {
    if level >= 4 {
        2
    } else {
        (10 - 2 * level) as nat
    }
}

/// `primary` at `pos`.
pub open spec fn parse_primary(tokens: Seq<TokenView>, pos: int) -> Parsed
    decreases tokens_left(tokens, pos), 0nat,
{
    match kind_at(tokens, pos) {
        TokenKind::False => accepted(keyword_literal("false"@), 1),
        TokenKind::True => accepted(keyword_literal("true"@), 1),
        TokenKind::Nil => accepted(keyword_literal("null"@), 1),
        TokenKind::Number | TokenKind::String => accepted(
            ExprView::Literal { value: tokens[pos].literal.unwrap() },
            1,
        ),
        TokenKind::LeftParen => {
            let inner = parse_binary(tokens, pos + 1, 0);
            match inner.result {
                Ok(expression) => {
                    if kind_at(tokens, pos + 1 + inner.consumed) == TokenKind::RightParen {
                        accepted(
                            ExprView::Grouping { expression: Box::new(expression) },
                            inner.consumed + 2,
                        )
                    } else {
                        rejected(
                            kind_name(TokenKind::RightParen),
                            tokens[pos + 1 + inner.consumed],
                            inner.consumed + 1,
                        )
                    }
                },
                Err(_) => after(1, inner),
            }
        },
        _ => rejected(primary_expected(), tokens[pos], 0),
    }
}

/// `unary` at `pos`.
pub open spec fn parse_unary(tokens: Seq<TokenView>, pos: int) -> Parsed
    decreases tokens_left(tokens, pos), 1nat,
{
    if is_unary_operator(kind_at(tokens, pos)) {
        let operand = parse_unary(tokens, pos + 1);
        match operand.result {
            Ok(right) => accepted(
                ExprView::Unary { operator: tokens[pos], right: Box::new(right) },
                operand.consumed + 1,
            ),
            Err(_) => after(1, operand),
        }
    } else {
        parse_primary(tokens, pos)
    }
}

/// The binary rule of `level` at `pos`: one operand of the next level, then
/// operators of this level and further operands for as long as they come.
/// From level 4 on this is `unary`.
pub open spec fn parse_binary(tokens: Seq<TokenView>, pos: int, level: nat) -> Parsed
    decreases tokens_left(tokens, pos), level_rank(level),
{
    if level >= 4 {
        parse_unary(tokens, pos)
    } else {
        let first = parse_binary(tokens, pos, level + 1);
        match first.result {
            Ok(left) => after(first.consumed, parse_rest(tokens, pos + first.consumed, level, left)),
            Err(_) => first,
        }
    }
}

/// What the binary rule of `level` makes of the tokens at `pos` once it has
/// read `left`: where an operator of its level stands at `pos`, it reads the
/// operand behind it, joins the two under the operator and goes on with the
/// result as its left operand. This is what makes the operators lean to the
/// left.
pub open spec fn parse_rest(tokens: Seq<TokenView>, pos: int, level: nat, left: ExprView) -> Parsed
    decreases tokens_left(tokens, pos), (level_rank(level) - 1) as nat,
{
    if level < 4 && binary_level(kind_at(tokens, pos)) == Some(level) {
        let operand = parse_binary(tokens, pos + 1, level + 1);
        match operand.result {
            Ok(right) => after(
                operand.consumed + 1,
                parse_rest(
                    tokens,
                    pos + 1 + operand.consumed,
                    level,
                    ExprView::Binary {
                        left: Box::new(left),
                        operator: tokens[pos],
                        right: Box::new(right),
                    },
                ),
            ),
            Err(_) => after(1, operand),
        }
    } else {
        accepted(left, 0)
    }
}

/// `expression` at `pos`.
pub open spec fn parse_expression(tokens: Seq<TokenView>, pos: int) -> Parsed {
    parse_binary(tokens, pos, 0)
}

} // verus!

//! What holds of every parse: the tree mirrors the precedence and the
//! direction of the operators, it covers exactly the tokens consumed, and the
//! parse goes on for as long as an operator of its level follows.

use crate::lexer::token::{TokenKind, TokenView};
use crate::parser::grammar::{
    accepted, binary_level, is_unary_operator, keyword_literal, kind_at, level_rank,
    parse_binary, parse_expression, parse_primary, parse_rest, parse_unary, tokens_left,
};
use crate::syntax::expr::ExprView;
use vstd::prelude::*;

verus! {

/// How tightly the node at the root of `e` binds: the level of the rule that
/// makes such a node. Literals and groupings bind tightest.
pub open spec fn level_of(e: ExprView) -> nat {
    match e {
        ExprView::Binary { operator, .. } => match binary_level(operator.kind) {
            Some(level) => level,
            None => 0,
        },
        ExprView::Unary { .. } => 4,
        ExprView::Grouping { .. } => 5,
        ExprView::Literal { .. } => 5,
    }
}

/// Whether the shape of `e` is the one that precedence and direction demand:
/// under a binary operator the left operand binds at least as tightly as the
/// operator and the right operand strictly tighter, and under a unary
/// operator stands nothing looser than a unary operator. So `*` and `/` stand
/// below `+` and `-`, these below the comparisons, these below `==` and `!=`,
/// and operators of one level lean to the left. Inside a grouping everything
/// starts anew.
pub open spec fn respects_precedence(e: ExprView) -> bool
    decreases e,
{
    match e {
        ExprView::Binary { left, operator, right } => {
            &&& binary_level(operator.kind) is Some
            &&& level_of(*left) >= level_of(e)
            &&& level_of(*right) > level_of(e)
            &&& respects_precedence(*left)
            &&& respects_precedence(*right)
        },
        ExprView::Unary { operator, right } => {
            &&& is_unary_operator(operator.kind)
            &&& level_of(*right) >= 4
            &&& respects_precedence(*right)
        },
        ExprView::Grouping { expression } => respects_precedence(*expression),
        ExprView::Literal { .. } => true,
    }
}

/// The number of tokens that `e` is written with.
pub open spec fn width(e: ExprView) -> nat
    decreases e,
{
    match e {
        ExprView::Binary { left, right, .. } => width(*left) + 1 + width(*right),
        ExprView::Unary { right, .. } => 1 + width(*right),
        ExprView::Grouping { expression } => width(*expression) + 2,
        ExprView::Literal { .. } => 1,
    }
}

/// The literal that a token stands for, where it stands for one.
pub open spec fn token_literal(token: TokenView) -> Option<ExprView> {
    match token.kind {
        TokenKind::False => Some(keyword_literal("false"@)),
        TokenKind::True => Some(keyword_literal("true"@)),
        TokenKind::Nil => Some(keyword_literal("null"@)),
        TokenKind::Number | TokenKind::String => Some(
            ExprView::Literal { value: token.literal.unwrap() },
        ),
        _ => None,
    }
}

/// Whether `e` is written with exactly the tokens from `pos` on, `width(e)`
/// of them: read from left to right, its literals, operators and parentheses
/// are those tokens, in that order.
pub open spec fn spans(e: ExprView, tokens: Seq<TokenView>, pos: int) -> bool
    decreases e,
{
    &&& 0 <= pos
    &&& pos + width(e) <= tokens.len()
    &&& match e {
        ExprView::Binary { left, operator, right } => {
            &&& spans(*left, tokens, pos)
            &&& tokens[pos + width(*left)] == operator
            &&& spans(*right, tokens, pos + width(*left) + 1)
        },
        ExprView::Unary { operator, right } => {
            &&& tokens[pos] == operator
            &&& spans(*right, tokens, pos + 1)
        },
        ExprView::Grouping { expression } => {
            &&& tokens[pos].kind == TokenKind::LeftParen
            &&& spans(*expression, tokens, pos + 1)
            &&& tokens[pos + 1 + width(*expression)].kind == TokenKind::RightParen
        },
        ExprView::Literal { .. } => token_literal(tokens[pos]) == Some(e),
    }
}

/// Whether the binary rule of `level` has nothing to go on with at `pos`: no
/// operator of its level or of a tighter one stands there.
pub open spec fn stops_at(tokens: Seq<TokenView>, pos: int, level: nat) -> bool {
    match binary_level(kind_at(tokens, pos)) {
        Some(found) => found < level,
        None => true,
    }
}

/// Whether `e`, made of `consumed` tokens at `pos` by the rule of `level`, is
/// a sound parse.
pub open spec fn sound(
    tokens: Seq<TokenView>,
    pos: int,
    level: nat,
    e: ExprView,
    consumed: nat,
) -> bool {
    &&& respects_precedence(e)
    &&& level_of(e) >= level || level_of(e) >= 4
    &&& consumed == width(e)
    &&& spans(e, tokens, pos)
    &&& stops_at(tokens, pos + consumed, level)
}

/// Every tree that `primary` yields is a sound parse.
pub proof fn lemma_primary_sound(tokens: Seq<TokenView>, pos: int)
    ensures
        parse_primary(tokens, pos).result matches Ok(e) ==> sound(
            tokens,
            pos,
            5,
            e,
            parse_primary(tokens, pos).consumed,
        ),
    decreases tokens_left(tokens, pos), 0nat,
{
    if kind_at(tokens, pos) == TokenKind::LeftParen {
        lemma_binary_sound(tokens, pos + 1, 0);
    }
}

/// Every tree that `unary` yields is a sound parse.
pub proof fn lemma_unary_sound(tokens: Seq<TokenView>, pos: int)
    ensures
        parse_unary(tokens, pos).result matches Ok(e) ==> sound(
            tokens,
            pos,
            4,
            e,
            parse_unary(tokens, pos).consumed,
        ),
    decreases tokens_left(tokens, pos), 1nat,
{
    if is_unary_operator(kind_at(tokens, pos)) {
        lemma_unary_sound(tokens, pos + 1);
    } else {
        lemma_primary_sound(tokens, pos);
    }
}

/// Every tree that a binary rule yields is a sound parse.
pub proof fn lemma_binary_sound(tokens: Seq<TokenView>, pos: int, level: nat)
    ensures
        parse_binary(tokens, pos, level).result matches Ok(e) ==> sound(
            tokens,
            pos,
            level,
            e,
            parse_binary(tokens, pos, level).consumed,
        ),
    decreases tokens_left(tokens, pos), level_rank(level),
{
    if level >= 4 {
        lemma_unary_sound(tokens, pos);
    } else {
        let first = parse_binary(tokens, pos, level + 1);
        lemma_binary_sound(tokens, pos, level + 1);
        match first.result {
            Ok(left) => {
                lemma_rest_sound(tokens, pos, first.consumed, level, left);
            },
            Err(_) => {},
        }
    }
}

/// Where the binary rule of `level` has read the sound `left` from `start`
/// on, every tree that it goes on to yield is a sound parse from `start`.
pub proof fn lemma_rest_sound(
    tokens: Seq<TokenView>,
    start: int,
    before: nat,
    level: nat,
    left: ExprView,
)
    requires
        level < 4,
        respects_precedence(left),
        level_of(left) >= level,
        before == width(left),
        spans(left, tokens, start),
        stops_at(tokens, start + before, level + 1),
    ensures
        parse_rest(tokens, start + before, level, left).result matches Ok(e) ==> sound(
            tokens,
            start,
            level,
            e,
            before + parse_rest(tokens, start + before, level, left).consumed,
        ),
    decreases tokens_left(tokens, start + before), (level_rank(level) - 1) as nat,
{
    let pos = start + before;
    if binary_level(kind_at(tokens, pos)) == Some(level) {
        let operand = parse_binary(tokens, pos + 1, level + 1);
        lemma_binary_sound(tokens, pos + 1, level + 1);
        match operand.result {
            Ok(right) => {
                let joined = ExprView::Binary {
                    left: Box::new(left),
                    operator: tokens[pos],
                    right: Box::new(right),
                };
                lemma_rest_sound(tokens, start, before + 1 + operand.consumed, level, joined);
            },
            Err(_) => {},
        }
    }
}

/// The tree of every successful parse mirrors the precedence and the
/// direction of the operators, is written with exactly the tokens that the
/// parse has consumed, and ends where no binary operator follows.
pub proof fn lemma_parse_sound(tokens: Seq<TokenView>, pos: int)
    ensures
        parse_expression(tokens, pos).result matches Ok(e) ==> {
            &&& respects_precedence(e)
            &&& parse_expression(tokens, pos).consumed == width(e)
            &&& spans(e, tokens, pos)
            &&& binary_level(kind_at(tokens, pos + width(e))) is None
        },
{
    lemma_binary_sound(tokens, pos, 0);
}

/// Whether `acc` stands on the left edge of `e`, with nothing but operators
/// of `level` above it: `e` is `acc`, or a binary node of `level` on whose
/// left edge `acc` stands.
pub open spec fn on_left_edge(e: ExprView, acc: ExprView, level: nat) -> bool
    decreases e,
{
    e == acc || match e {
        ExprView::Binary { left, operator, .. } => binary_level(operator.kind) == Some(level)
            && on_left_edge(*left, acc, level),
        _ => false,
    }
}

/// The first operand of the chain of operators of `level` at the root of `e`:
/// the node furthest down the left edge of `e` that has only operators of
/// `level` above it.
pub open spec fn first_operand(e: ExprView, level: nat) -> ExprView
    decreases e,
{
    match e {
        ExprView::Binary { left, operator, .. } => if binary_level(operator.kind) == Some(level) {
            first_operand(*left, level)
        } else {
            e
        },
        _ => e,
    }
}

/// The node on the left edge of `e` whose left operand is `acc`.
pub open spec fn node_above(e: ExprView, acc: ExprView) -> ExprView
    decreases e,
{
    match e {
        ExprView::Binary { left, .. } => if *left == acc {
            e
        } else {
            node_above(*left, acc)
        },
        _ => e,
    }
}

/// Every tree is written with at least one token.
pub proof fn lemma_width_positive(e: ExprView)
    ensures
        width(e) >= 1,
    decreases e,
{
    match e {
        ExprView::Binary { left, right, .. } => {
            lemma_width_positive(*left);
            lemma_width_positive(*right);
        },
        ExprView::Unary { right, .. } => {
            lemma_width_positive(*right);
        },
        ExprView::Grouping { expression } => {
            lemma_width_positive(*expression);
        },
        ExprView::Literal { .. } => {},
    }
}

/// The first operand of a chain stands on the left edge of the chain, binds
/// tighter than the chain, and is written with the first tokens of the chain.
proof fn lemma_first_operand(e: ExprView, level: nat, tokens: Seq<TokenView>, pos: int)
    requires
        level < 4,
        respects_precedence(e),
        level_of(e) >= level,
        spans(e, tokens, pos),
    ensures
        on_left_edge(e, first_operand(e, level), level),
        respects_precedence(first_operand(e, level)),
        level_of(first_operand(e, level)) > level,
        spans(first_operand(e, level), tokens, pos),
        width(first_operand(e, level)) <= width(e),
        first_operand(e, level) != e ==> width(first_operand(e, level)) < width(e),
    decreases e,
{
    match e {
        ExprView::Binary { left, operator, right } => {
            if binary_level(operator.kind) == Some(level) {
                lemma_first_operand(*left, level, tokens, pos);
                lemma_width_positive(*right);
            }
        },
        _ => {},
    }
}

/// What holds of the node above `acc` on the left edge of a chain `e`: its
/// left operand is `acc`, its operator is one of the chain, it stands on the
/// left edge of `e` itself, and it is written with the first tokens of `e`.
/// Behind it stands the end of `e` or a further operator of the chain.
proof fn lemma_node_above(
    e: ExprView,
    acc: ExprView,
    level: nat,
    tokens: Seq<TokenView>,
    pos: int,
)
    requires
        level < 4,
        e != acc,
        on_left_edge(e, acc, level),
        respects_precedence(e),
        spans(e, tokens, pos),
        stops_at(tokens, pos + width(e), level + 1),
    ensures
        node_above(e, acc) matches ExprView::Binary { left, operator, right } && *left == acc
            && binary_level(operator.kind) == Some(level),
        on_left_edge(e, node_above(e, acc), level),
        respects_precedence(node_above(e, acc)),
        spans(node_above(e, acc), tokens, pos),
        width(acc) < width(node_above(e, acc)) <= width(e),
        stops_at(tokens, pos + width(node_above(e, acc)), level + 1),
    decreases e,
{
    match e {
        ExprView::Binary { left, operator, right } => {
            lemma_width_positive(*right);
            if *left == acc {
            } else {
                assert(tokens[pos + width(*left)] == operator);
                lemma_node_above(*left, acc, level, tokens, pos);
            }
        },
        _ => {},
    }
}

/// Where the binary rule of `level` has read `acc` on the left edge of the
/// chain `e`, it goes on to yield `e`.
proof fn lemma_rest_complete(
    tokens: Seq<TokenView>,
    start: int,
    level: nat,
    acc: ExprView,
    e: ExprView,
)
    requires
        level < 4,
        on_left_edge(e, acc, level),
        respects_precedence(e),
        spans(e, tokens, start),
        stops_at(tokens, start + width(e), level),
        width(acc) <= width(e),
    ensures
        parse_rest(tokens, start + width(acc), level, acc) == accepted(
            e,
            (width(e) - width(acc)) as nat,
        ),
    decreases width(e), 0nat, width(e) - width(acc),
{
    if e == acc {
    } else {
        lemma_node_above(e, acc, level, tokens, start);
        let above = node_above(e, acc);
        match above {
            ExprView::Binary { left, operator, right } => {
                let pos = start + width(acc);
                assert(tokens[pos] == operator);
                assert(kind_at(tokens, pos) == operator.kind);
                lemma_width_positive(acc);
                lemma_binary_complete(tokens, pos + 1, level + 1, *right);
                lemma_rest_complete(tokens, start, level, above, e);
            },
            _ => {},
        }
    }
}

/// The binary rule of `level` yields every tree that is sound for it: a tree
/// of the right shape that is written with the tokens at `pos` and ends where
/// the rule has nothing to go on with.
pub proof fn lemma_binary_complete(tokens: Seq<TokenView>, pos: int, level: nat, e: ExprView)
    requires
        respects_precedence(e),
        level_of(e) >= level || level_of(e) >= 4,
        spans(e, tokens, pos),
        stops_at(tokens, pos + width(e), level),
    ensures
        parse_binary(tokens, pos, level) == accepted(e, width(e)),
    decreases width(e), 1nat, 5 - level,
{
    lemma_width_positive(e);
    if level >= 4 {
        match e {
            ExprView::Unary { operator, right } => {
                lemma_width_positive(*right);
                lemma_binary_complete(tokens, pos + 1, 4, *right);
                assert(parse_binary(tokens, pos + 1, 4) == parse_unary(tokens, pos + 1));
                assert(parse_binary(tokens, pos, level) == parse_unary(tokens, pos));
            },
            ExprView::Grouping { expression } => {
                lemma_width_positive(*expression);
                lemma_binary_complete(tokens, pos + 1, 0, *expression);
                assert(parse_binary(tokens, pos, level) == parse_unary(tokens, pos));
                assert(parse_unary(tokens, pos) == parse_primary(tokens, pos));
            },
            ExprView::Literal { .. } => {
                assert(parse_binary(tokens, pos, level) == parse_unary(tokens, pos));
                assert(parse_unary(tokens, pos) == parse_primary(tokens, pos));
            },
            ExprView::Binary { .. } => {},
        }
    } else {
        let first = first_operand(e, level);
        lemma_first_operand(e, level, tokens, pos);
        if first != e {
            lemma_rest_stops(e, first, level, tokens, pos);
        }
        lemma_binary_complete(tokens, pos, level + 1, first);
        lemma_rest_complete(tokens, pos, level, first, e);
    }
}

/// Behind a node that stands below the root on the left edge of a chain
/// stands a further operator of the chain.
proof fn lemma_rest_stops(
    e: ExprView,
    acc: ExprView,
    level: nat,
    tokens: Seq<TokenView>,
    pos: int,
)
    requires
        level < 4,
        e != acc,
        on_left_edge(e, acc, level),
        respects_precedence(e),
        spans(e, tokens, pos),
    ensures
        stops_at(tokens, pos + width(acc), level + 1),
    decreases e,
{
    match e {
        ExprView::Binary { left, operator, right } => {
            lemma_width_positive(*right);
            if *left == acc {
                assert(tokens[pos + width(*left)] == operator);
            } else {
                lemma_rest_stops(*left, acc, level, tokens, pos);
            }
        },
        _ => {},
    }
}

/// The parse is the one reading of the tokens: whatever tree has the shape
/// that precedence and direction demand, is written with the tokens from
/// `pos` on and ends where no binary operator follows, that tree is what the
/// parser yields.
pub proof fn lemma_parse_complete(tokens: Seq<TokenView>, pos: int, e: ExprView)
    requires
        respects_precedence(e),
        spans(e, tokens, pos),
        binary_level(kind_at(tokens, pos + width(e))) is None,
    ensures
        parse_expression(tokens, pos) == accepted(e, width(e)),
{
    lemma_binary_complete(tokens, pos, 0, e);
}

} // verus!

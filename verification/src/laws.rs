//! What holds of the whole way from an input to the prefix form of its tree.

use crate::lexer::laws::{lemma_scan_finalized, scanned_in};
use crate::lexer::rules::{
    eof_token, lemma_scanned_number_is_decimal, number_text, scan, token_at,
};
use crate::lexer::token::{
    canonical_decimal, lemma_canonical_decimal, lemma_decimal_chars, TokenKind, TokenView,
};
use crate::parser::grammar::{binary_level, is_unary_operator, parse_expression};
use crate::parser::laws::{lemma_parse_sound, respects_precedence, spans, token_literal, width};
use crate::syntax::expr::{ast_text, literal_value_text, ExprView};
use crate::syntax::laws::{
    balanced, count_char, lemma_ast_text_balanced, operations, plain, plain_atoms,
};
use crate::text::is_digit_char;
use vstd::prelude::*;

verus! {

/// Whether what `token` gives to a tree holds no parenthesis: its lexeme
/// where it is an operator, the text of its literal where it stands for one.
pub open spec fn plain_token(token: TokenView) -> bool {
    &&& binary_level(token.kind) is Some || is_unary_operator(token.kind) ==> plain(token.lexeme)
    &&& token_literal(token) matches Some(ExprView::Literal { value }) ==> plain(
        literal_value_text(value),
    )
}

/// Every token that the scanner finds, but for strings, gives no parenthesis
/// to a tree.
pub proof fn lemma_scanned_token_plain(s: Seq<char>, token: TokenView)
    requires
        scanned_in(s, token),
        token.kind != TokenKind::String,
    ensures
        plain_token(token),
{
    reveal_strlit("false");
    reveal_strlit("true");
    reveal_strlit("null");
    if exists|i: int, line: int| 0 <= i < s.len() && #[trigger] token_at(s, i, line) == Some(token) {
        let (i, line) = choose|i: int, line: int|
            0 <= i < s.len() && #[trigger] token_at(s, i, line) == Some(token);
        if is_digit_char(s[i]) {
            let text = number_text(seq![s[i]], s, i + 1);
            lemma_scanned_number_is_decimal(s, i);
            lemma_canonical_decimal(text);
            lemma_decimal_chars(canonical_decimal(text));
        }
    } else {
        let line = choose|line: int| token == #[trigger] eof_token(line);
    }
}

/// A tree that is written with tokens that give no parenthesis holds none in
/// its operators and literals.
pub proof fn lemma_spans_plain(e: ExprView, tokens: Seq<TokenView>, pos: int)
    requires
        spans(e, tokens, pos),
        respects_precedence(e),
        forall|k: int| 0 <= k < tokens.len() ==> plain_token(#[trigger] tokens[k]),
    ensures
        plain_atoms(e),
    decreases e,
{
    match e {
        ExprView::Binary { left, operator, right } => {
            lemma_spans_plain(*left, tokens, pos);
            lemma_spans_plain(*right, tokens, pos + width(*left) + 1);
            assert(plain_token(tokens[pos + width(*left)]));
        },
        ExprView::Unary { operator, right } => {
            lemma_spans_plain(*right, tokens, pos + 1);
            assert(plain_token(tokens[pos]));
        },
        ExprView::Grouping { expression } => {
            lemma_spans_plain(*expression, tokens, pos + 1);
        },
        ExprView::Literal { value } => {
            assert(plain_token(tokens[pos]));
        },
    }
}

/// For every input without string literals that parses, the tree mirrors the
/// precedence and the direction of the operators, and its prefix form is
/// fully parenthesized: the parentheses match in pairs, one pair for every
/// operator and every grouping.
pub proof fn lemma_expression_tree(s: Seq<char>)
    requires
        forall|k: int| 0 <= k < scan(s).len() ==> (#[trigger] scan(s)[k]).kind != TokenKind::String,
    ensures
        parse_expression(scan(s), 0).result matches Ok(e) ==> {
            &&& respects_precedence(e)
            &&& spans(e, scan(s), 0)
            &&& balanced(ast_text(e))
            &&& count_char(ast_text(e), '(') == operations(e)
            &&& count_char(ast_text(e), ')') == operations(e)
        },
{
    let tokens = scan(s);
    match parse_expression(tokens, 0).result {
        Ok(e) => {
            lemma_parse_sound(tokens, 0);
            lemma_scan_finalized(s);
            assert forall|k: int| 0 <= k < tokens.len() implies plain_token(
                #[trigger] tokens[k],
            ) by {
                lemma_scanned_token_plain(s, tokens[k]);
            }
            lemma_spans_plain(e, tokens, 0);
            lemma_ast_text_balanced(e);
        },
        Err(_) => {},
    }
}

} // verus!

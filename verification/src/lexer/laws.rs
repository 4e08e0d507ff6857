//! What holds of every input: the token stream is fit for the parser, lines
//! count line feeds, a lexeme is the text that it was scanned from, and a
//! lexeme scans to its own token again.

use crate::lexer::rules::{
    alpha_numeric, comment_close, comment_terminated, comment_text, digit, eof_token,
    lemma_comment_close_bounds, lemma_lexeme_end_bounds, lemma_number_end_bounds,
    lemma_scanned_number_is_decimal, lexeme_end, line_after, number_end, number_text, scan,
    token_at, tokens_from, word_end, word_text,
};
use crate::lexer::token::{LiteralView, TokenKind, TokenView};
use crate::text::{
    char_at, count_newlines, is_alpha_char, is_digit_char, lemma_count_newlines_take,
    lemma_span_end_bounds, lemma_span_end_run, lemma_span_end_unique, not_char, span_end,
};
use vstd::prelude::*;

verus! {

/// Whether a token stream is fit for the parser: it ends with `EOF`, which
/// stands nowhere else, and every number and string carries its literal.
pub open spec fn finalized(tokens: Seq<TokenView>) -> bool {
    &&& tokens.len() > 0
    &&& forall|k: int|
        0 <= k < tokens.len() ==> ((#[trigger] tokens[k]).kind == TokenKind::EOF <==> k
            == tokens.len() - 1)
    &&& forall|k: int|
        0 <= k < tokens.len() && ((#[trigger] tokens[k]).kind == TokenKind::Number
            || tokens[k].kind == TokenKind::String) ==> tokens[k].literal is Some
}

/// Whether `token` is one that the scanner finds in `s`: the token at some
/// position, or the end marker.
pub open spec fn scanned_in(s: Seq<char>, token: TokenView) -> bool {
    ||| exists|i: int, line: int| 0 <= i < s.len() && #[trigger] token_at(s, i, line) == Some(token)
    ||| exists|line: int| token == #[trigger] eof_token(line)
}

/// No token that starts within the input is the end marker, and numbers and
/// strings carry their literals.
pub proof fn lemma_token_at_shape(s: Seq<char>, i: int, line: int)
    requires
        0 <= i < s.len(),
    ensures
        token_at(s, i, line) matches Some(token) ==> token.kind != TokenKind::EOF && (token.kind
            == TokenKind::Number || token.kind == TokenKind::String ==> token.literal is Some),
{
}

/// Whether `token` may stand in a token stream: blank space and comments do
/// not, but for a block comment that the end of the input cut short.
pub open spec fn meaningful(token: TokenView) -> bool {
    &&& token.kind != TokenKind::Comment
    &&& token.kind != TokenKind::Whitespace
    &&& token.kind != TokenKind::Newline
    &&& token.kind == TokenKind::BlockComment ==> (token.literal matches Some(
        LiteralView::Str { terminated, .. },
    ) && !terminated)
}

/// Blank space and comments never come out of the scanner: every token that
/// it finds is a meaningful one.
pub proof fn lemma_scanned_meaningful(s: Seq<char>, token: TokenView)
    requires
        scanned_in(s, token),
    ensures
        meaningful(token),
{
    if exists|i: int, line: int| 0 <= i < s.len() && #[trigger] token_at(s, i, line) == Some(token) {
        let (i, line) = choose|i: int, line: int|
            0 <= i < s.len() && #[trigger] token_at(s, i, line) == Some(token);
    } else {
        let line = choose|line: int| token == #[trigger] eof_token(line);
    }
}

/// The tokens from any position on are fit for the parser, and each of them
/// is one that the scanner finds in the input.
pub proof fn lemma_tokens_from_finalized(s: Seq<char>, i: int, line: int)
    requires
        0 <= i,
    ensures
        finalized(tokens_from(s, i, line)),
        forall|k: int|
            0 <= k < tokens_from(s, i, line).len() ==> scanned_in(
                s,
                #[trigger] tokens_from(s, i, line)[k],
            ),
    decreases s.len() - i,
{
    let tokens = tokens_from(s, i, line);
    if i < s.len() {
        lemma_lexeme_end_bounds(s, i);
        lemma_token_at_shape(s, i, line);
        let rest = tokens_from(s, lexeme_end(s, i), line_after(s, i, line));
        lemma_tokens_from_finalized(s, lexeme_end(s, i), line_after(s, i, line));
        match token_at(s, i, line) {
            Some(token) => {
                assert(tokens == seq![token] + rest);
                assert forall|k: int| 0 <= k < tokens.len() implies scanned_in(
                    s,
                    #[trigger] tokens[k],
                ) by {
                    if k == 0 {
                        assert(token_at(s, i, line) == Some(tokens[0]));
                    } else {
                        assert(tokens[k] == rest[k - 1]);
                    }
                }
                assert forall|k: int| 0 <= k < tokens.len() implies ((#[trigger] tokens[k]).kind
                    == TokenKind::EOF <==> k == tokens.len() - 1) by {
                    if k > 0 {
                        assert(tokens[k] == rest[k - 1]);
                    }
                }
                assert forall|k: int|
                    0 <= k < tokens.len() && ((#[trigger] tokens[k]).kind == TokenKind::Number
                        || tokens[k].kind == TokenKind::String) implies tokens[k].literal
                    is Some by {
                    if k > 0 {
                        assert(tokens[k] == rest[k - 1]);
                    }
                }
            },
            None => {},
        }
    } else {
        assert(tokens[0] == eof_token(line));
    }
}

/// The token stream of any input is fit for the parser: it ends with the one
/// `EOF`, and numbers and strings carry their literals. Every token in it is
/// one that the scanner finds in the input, and a meaningful one.
pub proof fn lemma_scan_finalized(s: Seq<char>)
    ensures
        finalized(scan(s)),
        forall|k: int| 0 <= k < scan(s).len() ==> scanned_in(s, #[trigger] scan(s)[k]),
        forall|k: int| 0 <= k < scan(s).len() ==> meaningful(#[trigger] scan(s)[k]),
{
    lemma_tokens_from_finalized(s, 0, 1);
    assert forall|k: int| 0 <= k < scan(s).len() implies meaningful(#[trigger] scan(s)[k]) by {
        lemma_scanned_meaningful(s, scan(s)[k]);
    }
}

/// The line of a position: one more than the line feeds before it.
pub open spec fn line_at(s: Seq<char>, i: int) -> int {
    1 + count_newlines(s.take(i)) as int
}

/// Lines count line feeds: where the line before a lexeme is the line of its
/// position, the line after it is the line of the position behind it.
pub proof fn lemma_line_after_counts_newlines(s: Seq<char>, i: int)
    requires
        0 <= i < s.len(),
    ensures
        line_after(s, i, line_at(s, i)) == line_at(s, lexeme_end(s, i)),
        1 <= line_at(s, i) <= line_at(s, lexeme_end(s, i)) <= 1 + count_newlines(s),
{
    lemma_lexeme_end_bounds(s, i);
    lemma_count_newlines_take(s, i, lexeme_end(s, i));
}

/// A lexeme is the text that it was scanned from.
pub proof fn lemma_lexeme_is_source(s: Seq<char>, i: int, line: int)
    requires
        0 <= i < s.len(),
    ensures
        token_at(s, i, line) matches Some(token) ==> token.lexeme == s.subrange(
            i,
            lexeme_end(s, i),
        ),
{
    let c = s[i];
    let e = lexeme_end(s, i);
    lemma_lexeme_end_bounds(s, i);
    if c == '"' {
        lemma_span_end_bounds(s, i + 1, not_char('"'));
        lemma_span_end_run(s, i + 1, not_char('"'));
        let quote = span_end(s, i + 1, not_char('"'));
        let val = s.subrange(i + 1, quote);
        if quote < s.len() {
            assert(!not_char('"')(s[quote]));
            assert(seq!['"'] + val + seq!['"'] =~= s.subrange(i, e));
        } else {
            assert(seq!['"'] + val =~= s.subrange(i, e));
        }
    } else if is_digit_char(c) {
        lemma_scanned_number_is_decimal(s, i);
    } else if is_alpha_char(c) {
        lemma_span_end_bounds(s, i + 1, alpha_numeric());
        assert(word_text(seq![c], s, i + 1) =~= s.subrange(i, e));
    } else if c == '/' {
        if char_at(s, i + 1) == '/' {
        } else if char_at(s, i + 1) == '*' {
            if !comment_terminated(s, i + 2) {
                assert(comment_text(seq!['/', '*'], s, i + 2) =~= s.subrange(i, e));
            }
        } else {
            assert(seq![c] =~= s.subrange(i, e));
        }
    } else {
        if e == i + 2 {
            assert(seq![c, '='] =~= s.subrange(i, e));
        } else {
            assert(seq![c] =~= s.subrange(i, e));
        }
    }
}

/// Within a lexeme, a run of characters ends where it ends in the input, or
/// at the end of the lexeme.
proof fn lemma_span_end_within(
    s: Seq<char>,
    i: int,
    e: int,
    p: int,
    accepts: spec_fn(char) -> bool,
)
    requires
        0 <= i <= p <= e <= s.len(),
    ensures
        span_end(s.subrange(i, e), p - i, accepts) == if span_end(s, p, accepts) <= e {
            span_end(s, p, accepts) - i
        } else {
            e - i
        },
{
    lemma_span_end_bounds(s, p, accepts);
    lemma_span_end_run(s, p, accepts);
    let l = s.subrange(i, e);
    let end = if span_end(s, p, accepts) <= e {
        span_end(s, p, accepts)
    } else {
        e
    };
    assert forall|j: int| p - i <= j < end - i implies accepts(#[trigger] l[j]) by {
        assert(l[j] == s[i + j]);
        assert(accepts(s[i + j]));
    }
    if end - i < l.len() {
        assert(l[end - i] == s[end]);
    }
    lemma_span_end_unique(l, p - i, end - i, accepts);
}

/// A comment that is open in the input is open in what is left of the input
/// from any earlier position on.
proof fn lemma_comment_close_within(s: Seq<char>, i: int, k: int)
    requires
        0 <= i <= s.len(),
        i + 1 <= k,
        comment_close(s, k) == s.len(),
    ensures
        comment_close(s.skip(i), k - i) == s.skip(i).len(),
    decreases s.len() - k,
{
    let l = s.skip(i);
    if k >= s.len() {
    } else {
        assert(l[k - i] == s[k]);
        assert(l[k - i - 1] == s[k - 1]);
        lemma_comment_close_within(s, i, k + 1);
    }
}

/// Scanning a lexeme gives its token again: the kind, the lexeme and the
/// literal are those of the token in the input, and nothing of the lexeme is
/// left over.
pub proof fn lemma_rescan_token(s: Seq<char>, i: int, line: int)
    requires
        0 <= i < s.len(),
    ensures
        token_at(s, i, line) matches Some(token) ==> {
            &&& token.lexeme.len() > 0
            &&& lexeme_end(token.lexeme, 0) == token.lexeme.len()
            &&& token_at(token.lexeme, 0, 1) matches Some(again)
            &&& again.kind == token.kind
            &&& again.lexeme == token.lexeme
            &&& again.literal == token.literal
        },
{
    if token_at(s, i, line) is Some {
        let token = token_at(s, i, line).unwrap();
        let c = s[i];
        let e = lexeme_end(s, i);
        let l = s.subrange(i, e);
        lemma_lexeme_end_bounds(s, i);
        lemma_lexeme_is_source(s, i, line);
        assert(token.lexeme == l);
        assert(l[0] == c);
        if c == '"' {
            lemma_span_end_bounds(s, i + 1, not_char('"'));
            lemma_span_end_within(s, i, e, i + 1, not_char('"'));
            lemma_span_end_run(s, i + 1, not_char('"'));
            let quote = span_end(s, i + 1, not_char('"'));
            if quote < s.len() {
                assert(l[quote - i] == s[quote]);
                assert(!not_char('"')(s[quote]));
                assert(span_end(l, 1, not_char('"')) == quote - i);
            }
            assert(l.subrange(1, quote - i) =~= s.subrange(i + 1, quote));
            assert(token_at(l, 0, 1).unwrap().lexeme == token.lexeme);
        } else if is_digit_char(c) {
            lemma_number_end_bounds(s, i + 1);
            lemma_span_end_within(s, i, e, i + 1, digit());
            let whole_end = span_end(s, i + 1, digit());
            if e != whole_end {
                lemma_span_end_within(s, i, e, whole_end + 1, digit());
                assert(l[whole_end - i] == s[whole_end]);
                assert(l[whole_end - i + 1] == s[whole_end + 1]);
            }
            assert(number_end(l, 1) == l.len());
            assert(number_text(seq![c], l, 1) =~= l);
        } else if is_alpha_char(c) {
            lemma_span_end_bounds(s, i + 1, alpha_numeric());
            lemma_span_end_within(s, i, e, i + 1, alpha_numeric());
            assert(word_end(l, 1) == l.len());
            assert(word_text(seq![c], l, 1) =~= l);
        } else if c == '/' && char_at(s, i + 1) == '*' {
            assert(!comment_terminated(s, i + 2));
            assert(e == s.len());
            assert(l =~= s.skip(i));
            assert(l[1] == s[i + 1]);
            lemma_comment_close_bounds(s, i + 3);
            lemma_comment_close_within(s, i, i + 3);
            assert(comment_text(seq!['/', '*'], l, 2) =~= l);
        } else {
            if e == i + 2 {
                assert(l[1] == s[i + 1]);
            }
        }
    }
}

/// Scanning the lexeme of any token of a token stream gives that token again,
/// up to its line: the first token of the new stream has the same kind, the
/// same lexeme and the same literal, and only the end marker follows it.
pub proof fn lemma_rescan(s: Seq<char>, k: int)
    requires
        0 <= k < scan(s).len(),
    ensures
        scan(scan(s)[k].lexeme).len() == if scan(s)[k].kind == TokenKind::EOF {
            1int
        } else {
            2int
        },
        scan(scan(s)[k].lexeme)[0].kind == scan(s)[k].kind,
        scan(scan(s)[k].lexeme)[0].lexeme == scan(s)[k].lexeme,
        scan(scan(s)[k].lexeme)[0].literal == scan(s)[k].literal,
        scan(scan(s)[k].lexeme).last().kind == TokenKind::EOF,
{
    lemma_scan_finalized(s);
    let token = scan(s)[k];
    let l = token.lexeme;
    assert(scanned_in(s, token));
    if exists|i: int, line: int| 0 <= i < s.len() && #[trigger] token_at(s, i, line) == Some(token) {
        let (i, line) = choose|i: int, line: int|
            0 <= i < s.len() && #[trigger] token_at(s, i, line) == Some(token);
        lemma_rescan_token(s, i, line);
        lemma_token_at_shape(s, i, line);
        let again = token_at(l, 0, 1).unwrap();
        let rest = tokens_from(l, lexeme_end(l, 0), line_after(l, 0, 1));
        assert(rest =~= seq![eof_token(line_after(l, 0, 1))]);
        assert(scan(l) =~= seq![again] + rest);
    } else {
        let line = choose|line: int| token == #[trigger] eof_token(line);
        assert(l =~= Seq::<char>::empty());
        assert(scan(l) =~= seq![eof_token(1)]);
    }
}

} // verus!

//! The lexical rules, as functions on the characters of an input.
//!
//! A position `i` is an index into the input `s`; a `line` is the number of
//! the line on which position `i` lies. `token_at` says which token starts at
//! `i`, `lexeme_end` where its text ends, and `tokens_from` strings these
//! together into the token stream.

use crate::lexer::token::{
    canonical_decimal, is_decimal, lemma_decimal_parts, LiteralView, TokenKind, TokenView,
};
use crate::text::{
    char_at, count_newlines, is_alpha_char, is_alpha_numeric_char, is_digit_char,
    lemma_count_newlines_add, lemma_span_end_bounds, lemma_span_end_run, not_char, span_end,
};
use vstd::prelude::*;

verus! {

/// The decimal digits.
pub open spec fn digit() -> spec_fn(char) -> bool {
    |c: char| is_digit_char(c)
}

/// The characters that may continue an identifier.
pub open spec fn alpha_numeric() -> spec_fn(char) -> bool {
    |c: char| is_alpha_numeric_char(c)
}

/// The reserved word that `text` spells, if it spells one.
pub open spec fn keyword_kind(text: Seq<char>) -> Option<TokenKind> {
    if text == "and"@ {
        Some(TokenKind::And)
    } else if text == "class"@ {
        Some(TokenKind::Class)
    } else if text == "else"@ {
        Some(TokenKind::Else)
    } else if text == "false"@ {
        Some(TokenKind::False)
    } else if text == "for"@ {
        Some(TokenKind::For)
    } else if text == "fun"@ {
        Some(TokenKind::Fun)
    } else if text == "if"@ {
        Some(TokenKind::If)
    } else if text == "nil"@ {
        Some(TokenKind::Nil)
    } else if text == "or"@ {
        Some(TokenKind::Or)
    } else if text == "print"@ {
        Some(TokenKind::Print)
    } else if text == "return"@ {
        Some(TokenKind::Return)
    } else if text == "super"@ {
        Some(TokenKind::Super)
    } else if text == "this"@ {
        Some(TokenKind::This)
    } else if text == "true"@ {
        Some(TokenKind::True)
    } else if text == "var"@ {
        Some(TokenKind::Var)
    } else if text == "while"@ {
        Some(TokenKind::While)
    } else {
        None
    }
}

/// The kind of a word: its keyword, or `Identifier`.
pub open spec fn text_kind(text: Seq<char>) -> TokenKind {
    match keyword_kind(text) {
        Some(kind) => kind,
        None => TokenKind::Identifier,
    }
}

/// The kind of a character that is a token by itself, whatever follows it.
pub open spec fn symbol_kind(c: char) -> Option<TokenKind> {
    if c == '(' {
        Some(TokenKind::LeftParen)
    } else if c == ')' {
        Some(TokenKind::RightParen)
    } else if c == '{' {
        Some(TokenKind::LeftBrace)
    } else if c == '}' {
        Some(TokenKind::RightBrace)
    } else if c == ',' {
        Some(TokenKind::Comma)
    } else if c == '.' {
        Some(TokenKind::Dot)
    } else if c == '-' {
        Some(TokenKind::Minus)
    } else if c == '+' {
        Some(TokenKind::Plus)
    } else if c == '*' {
        Some(TokenKind::Star)
    } else if c == ';' {
        Some(TokenKind::Semicolon)
    } else {
        None
    }
}

/// Whether `c` starts an operator that a following `=` extends.
pub open spec fn extends_with_equal(c: char) -> bool {
    c == '!' || c == '=' || c == '<' || c == '>'
}

/// The kind of the operator that starts with `c`, with or without `=` behind it.
pub open spec fn operator_kind(c: char, with_equal: bool) -> TokenKind {
    if c == '!' {
        if with_equal {
            TokenKind::BangEqual
        } else {
            TokenKind::Bang
        }
    } else if c == '=' {
        if with_equal {
            TokenKind::EqualEqual
        } else {
            TokenKind::Equal
        }
    } else if c == '<' {
        if with_equal {
            TokenKind::LessEqual
        } else {
            TokenKind::Less
        }
    } else {
        if with_equal {
            TokenKind::GreaterEqual
        } else {
            TokenKind::Greater
        }
    }
}

/// Blanks, tabs, carriage returns and line feeds.
pub open spec fn is_blank(c: char) -> bool {
    c == ' ' || c == '\r' || c == '\t' || c == '\n'
}

/// A token without a literal.
pub open spec fn plain_token(kind: TokenKind, lexeme: Seq<char>, line: int) -> TokenView {
    TokenView { kind, lexeme, line: line as u32, literal: None }
}

/// Where a string whose opening quote stands just before `p` ends: behind
/// its closing quote, or at the end of the input.
pub open spec fn string_end(s: Seq<char>, p: int) -> int {
    let quote = span_end(s, p, not_char('"'));
    if quote < s.len() {
        quote + 1
    } else {
        quote
    }
}

/// The token of a string whose opening quote stands just before `p`, where
/// `p` lies on `line`. Its line is that of its last character.
pub open spec fn string_token(s: Seq<char>, p: int, line: int) -> TokenView {
    let quote = span_end(s, p, not_char('"'));
    let val = s.subrange(p, quote);
    let terminated = quote < s.len();
    TokenView {
        kind: TokenKind::String,
        lexeme: if terminated {
            seq!['"'] + val + seq!['"']
        } else {
            seq!['"'] + val
        },
        line: (line + count_newlines(val)) as u32,
        literal: Some(LiteralView::Str { val, terminated }),
    }
}

/// Where a number ends whose digits so far end at `p`: behind the digits that
/// follow, and behind a point and further digits where a digit follows the
/// point.
pub open spec fn number_end(s: Seq<char>, p: int) -> int {
    let whole_end = span_end(s, p, digit());
    if char_at(s, whole_end) == '.' && is_digit_char(char_at(s, whole_end + 1)) {
        span_end(s, whole_end + 1, digit())
    } else {
        whole_end
    }
}

/// The text of a number that starts with `prefix` and goes on at `p`.
pub open spec fn number_text(prefix: Seq<char>, s: Seq<char>, p: int) -> Seq<char> {
    prefix + s.subrange(p, number_end(s, p))
}

/// The token of a number that starts with `prefix` and goes on at `p`.
pub open spec fn number_token(prefix: Seq<char>, s: Seq<char>, p: int, line: int) -> TokenView {
    TokenView {
        kind: TokenKind::Number,
        lexeme: number_text(prefix, s, p),
        line: line as u32,
        literal: Some(LiteralView::Num { val: canonical_decimal(number_text(prefix, s, p)) }),
    }
}

/// Where a word that goes on at `p` ends.
pub open spec fn word_end(s: Seq<char>, p: int) -> int {
    span_end(s, p, alpha_numeric())
}

/// The text of a word that starts with `prefix` and goes on at `p`.
pub open spec fn word_text(prefix: Seq<char>, s: Seq<char>, p: int) -> Seq<char> {
    prefix + s.subrange(p, word_end(s, p))
}

/// The token of a word that starts with `prefix` and goes on at `p`.
pub open spec fn word_token(prefix: Seq<char>, s: Seq<char>, p: int, line: int) -> TokenView {
    plain_token(text_kind(word_text(prefix, s, p)), word_text(prefix, s, p), line)
}

/// The position of the first `/` at or after `k` that stands directly behind
/// a `*`; the length of the input where there is none.
pub open spec fn comment_close(s: Seq<char>, k: int) -> int
    decreases s.len() - k,
{
    if k >= s.len() {
        s.len() as int
    } else if k >= 1 && s[k - 1] == '*' && s[k] == '/' {
        k
    } else {
        comment_close(s, k + 1)
    }
}

/// Whether the block comment whose body starts at `p` is closed. The `*` of
/// the closing `*/` belongs to the body: `/*/` closes nothing.
pub open spec fn comment_terminated(s: Seq<char>, p: int) -> bool {
    comment_close(s, p + 1) < s.len()
}

/// Where the block comment whose body starts at `p` ends: behind its closing
/// `*/`, or at the end of the input.
pub open spec fn comment_end(s: Seq<char>, p: int) -> int {
    if comment_terminated(s, p) {
        comment_close(s, p + 1) + 1
    } else {
        s.len() as int
    }
}

/// The text of a block comment that starts with `prefix` and whose body
/// starts at `p`.
pub open spec fn comment_text(prefix: Seq<char>, s: Seq<char>, p: int) -> Seq<char> {
    prefix + s.subrange(p, comment_end(s, p))
}

/// The token of a block comment that starts with `prefix` and whose body
/// starts at `p`, where the comment starts on `line`.
pub open spec fn comment_token(prefix: Seq<char>, s: Seq<char>, p: int, line: int) -> TokenView {
    TokenView {
        kind: TokenKind::BlockComment,
        lexeme: comment_text(prefix, s, p),
        line: line as u32,
        literal: Some(
            LiteralView::Str {
                val: comment_text(prefix, s, p),
                terminated: comment_terminated(s, p),
            },
        ),
    }
}

/// Where the lexeme that starts at `i` ends.
pub open spec fn lexeme_end(s: Seq<char>, i: int) -> int {
    let c = s[i];
    if c == '"' {
        string_end(s, i + 1)
    } else if is_digit_char(c) {
        number_end(s, i + 1)
    } else if is_alpha_char(c) {
        word_end(s, i + 1)
    } else if c == '/' && char_at(s, i + 1) == '/' {
        span_end(s, i + 2, not_char('\n'))
    } else if c == '/' && char_at(s, i + 1) == '*' {
        comment_end(s, i + 2)
    } else if extends_with_equal(c) && char_at(s, i + 1) == '=' {
        i + 2
    } else {
        i + 1
    }
}

/// The token that starts at `i`, which lies on `line`; `None` where blank
/// space, a line comment or a closed block comment starts there.
pub open spec fn token_at(s: Seq<char>, i: int, line: int) -> Option<TokenView> {
    let c = s[i];
    if c == '"' {
        Some(string_token(s, i + 1, line))
    } else if is_digit_char(c) {
        Some(number_token(seq![c], s, i + 1, line))
    } else if is_alpha_char(c) {
        Some(word_token(seq![c], s, i + 1, line))
    } else if c == '/' {
        if char_at(s, i + 1) == '/' {
            None
        } else if char_at(s, i + 1) == '*' {
            if comment_terminated(s, i + 2) {
                None
            } else {
                Some(comment_token(seq!['/', '*'], s, i + 2, line))
            }
        } else {
            Some(plain_token(TokenKind::Slash, seq![c], line))
        }
    } else if is_blank(c) {
        None
    } else if extends_with_equal(c) {
        if char_at(s, i + 1) == '=' {
            Some(plain_token(operator_kind(c, true), seq![c, '='], line))
        } else {
            Some(plain_token(operator_kind(c, false), seq![c], line))
        }
    } else {
        match symbol_kind(c) {
            Some(kind) => Some(plain_token(kind, seq![c], line)),
            None => Some(plain_token(TokenKind::Unknown, seq![c], line)),
        }
    }
}

/// The line on which the lexeme that starts at `i` ends.
pub open spec fn line_after(s: Seq<char>, i: int, line: int) -> int {
    line + count_newlines(s.subrange(i, lexeme_end(s, i)))
}

/// The marker of the end of the input.
pub open spec fn eof_token(line: int) -> TokenView {
    plain_token(TokenKind::EOF, Seq::empty(), line)
}

/// The tokens from position `i`, which lies on `line`, to the end of the
/// input, closed by the end marker.
pub open spec fn tokens_from(s: Seq<char>, i: int, line: int) -> Seq<TokenView>
    decreases s.len() - i,
    via tokens_from_decreases
{
    if 0 <= i < s.len() {
        let rest = tokens_from(s, lexeme_end(s, i), line_after(s, i, line));
        match token_at(s, i, line) {
            Some(token) => seq![token] + rest,
            None => rest,
        }
    } else {
        seq![eof_token(line)]
    }
}

#[via_fn]
proof fn tokens_from_decreases(s: Seq<char>, i: int, line: int) {
    if 0 <= i < s.len() {
        lemma_lexeme_end_bounds(s, i);
    }
}

/// The token stream of an input.
pub open spec fn scan(s: Seq<char>) -> Seq<TokenView> {
    tokens_from(s, 0, 1)
}

/// The closing `/` of a comment lies within the input, at or after `k`.
pub proof fn lemma_comment_close_bounds(s: Seq<char>, k: int)
    requires
        0 <= k,
    ensures
        k <= comment_close(s, k) || comment_close(s, k) == s.len(),
        comment_close(s, k) <= s.len(),
        comment_close(s, k) < s.len() ==> k <= comment_close(s, k) && 1 <= comment_close(s, k)
            && s[comment_close(s, k) - 1] == '*' && s[comment_close(s, k)] == '/',
    decreases s.len() - k,
{
    if k >= s.len() {
    } else if k >= 1 && s[k - 1] == '*' && s[k] == '/' {
    } else {
        lemma_comment_close_bounds(s, k + 1);
    }
}

/// Every lexeme holds at least one character and ends within the input.
pub proof fn lemma_lexeme_end_bounds(s: Seq<char>, i: int)
    requires
        0 <= i < s.len(),
    ensures
        i < lexeme_end(s, i) <= s.len(),
{
    let c = s[i];
    if c == '"' {
        lemma_span_end_bounds(s, i + 1, not_char('"'));
    } else if is_digit_char(c) {
        lemma_number_end_bounds(s, i + 1);
    } else if is_alpha_char(c) {
        lemma_span_end_bounds(s, i + 1, alpha_numeric());
    } else if c == '/' && char_at(s, i + 1) == '/' {
        lemma_span_end_bounds(s, i + 2, not_char('\n'));
    } else if c == '/' && char_at(s, i + 1) == '*' {
        lemma_comment_close_bounds(s, i + 3);
    } else {
    }
}

/// A number ends within the input, at or after `p`.
pub proof fn lemma_number_end_bounds(s: Seq<char>, p: int)
    requires
        0 <= p <= s.len(),
    ensures
        p <= span_end(s, p, digit()) <= number_end(s, p) <= s.len(),
        number_end(s, p) != span_end(s, p, digit()) ==> span_end(s, p, digit()) + 2 <= number_end(
            s,
            p,
        ),
{
    lemma_span_end_bounds(s, p, digit());
    let whole_end = span_end(s, p, digit());
    if char_at(s, whole_end) == '.' && is_digit_char(char_at(s, whole_end + 1)) {
        lemma_span_end_bounds(s, whole_end + 1, digit());
        lemma_span_end_bounds(s, whole_end + 2, digit());
        assert(digit()(s[whole_end + 1]));
    }
}

/// The line feeds from `p` on are those of `[p, e)` and those from `e` on.
pub proof fn lemma_count_newlines_split(s: Seq<char>, p: int, e: int)
    requires
        0 <= p <= e <= s.len(),
    ensures
        count_newlines(s.skip(p)) == count_newlines(s.subrange(p, e)) + count_newlines(s.skip(e)),
{
    assert(s.skip(p) =~= s.subrange(p, e) + s.skip(e));
    lemma_count_newlines_add(s.subrange(p, e), s.skip(e));
}

/// A stretch of the input without a line feed counts no line.
pub proof fn lemma_no_newlines(s: Seq<char>, from: int, to: int)
    requires
        0 <= from <= to <= s.len(),
        forall|j: int| from <= j < to ==> #[trigger] s[j] != '\n',
    ensures
        count_newlines(s.subrange(from, to)) == 0,
    decreases to - from,
{
    if from < to {
        assert(s.subrange(from, to).drop_last() =~= s.subrange(from, to - 1));
        lemma_no_newlines(s, from, to - 1);
    }
}

/// A number holds no line feed.
pub proof fn lemma_no_newlines_digits(s: Seq<char>, i: int)
    requires
        0 <= i < s.len(),
        is_digit_char(s[i]),
    ensures
        count_newlines(s.subrange(i, number_end(s, i + 1))) == 0,
{
    lemma_number_end_bounds(s, i + 1);
    let whole_end = span_end(s, i + 1, digit());
    lemma_span_end_run(s, i + 1, digit());
    if number_end(s, i + 1) != whole_end {
        lemma_span_end_run(s, whole_end + 1, digit());
        lemma_span_end_bounds(s, whole_end + 1, digit());
    }
    assert forall|j: int| i <= j < number_end(s, i + 1) implies #[trigger] s[j] != '\n' by {
        if j == i {
        } else if j < whole_end {
            assert(digit()(s[j]));
        } else if j == whole_end {
        } else {
            assert(digit()(s[j]));
        }
    }
    lemma_no_newlines(s, i, number_end(s, i + 1));
}

/// A word holds no line feed.
pub proof fn lemma_no_newlines_word(s: Seq<char>, i: int)
    requires
        0 <= i < s.len(),
        is_alpha_char(s[i]),
    ensures
        count_newlines(s.subrange(i, word_end(s, i + 1))) == 0,
{
    lemma_span_end_bounds(s, i + 1, alpha_numeric());
    lemma_span_end_run(s, i + 1, alpha_numeric());
    assert forall|j: int| i <= j < word_end(s, i + 1) implies #[trigger] s[j] != '\n' by {
        if j > i {
            assert(alpha_numeric()(s[j]));
        }
    }
    lemma_no_newlines(s, i, word_end(s, i + 1));
}

/// The text of a number in the input is a decimal.
pub proof fn lemma_scanned_number_is_decimal(s: Seq<char>, i: int)
    requires
        0 <= i < s.len(),
        is_digit_char(s[i]),
    ensures
        is_decimal(number_text(seq![s[i]], s, i + 1)),
        number_text(seq![s[i]], s, i + 1) == s.subrange(i, number_end(s, i + 1)),
{
    lemma_number_end_bounds(s, i + 1);
    let e = number_end(s, i + 1);
    let whole_end = span_end(s, i + 1, digit());
    let text = number_text(seq![s[i]], s, i + 1);
    assert(text =~= s.subrange(i, e));
    lemma_span_end_run(s, i + 1, digit());
    let whole = s.subrange(i, whole_end);
    assert forall|j: int| 0 <= j < whole.len() implies is_digit_char(#[trigger] whole[j]) by {
        if j > 0 {
            assert(digit()(s[i + j]));
        }
    }
    if e == whole_end {
        lemma_decimal_parts(whole, Seq::empty());
        assert(text =~= whole);
    } else {
        lemma_span_end_run(s, whole_end + 1, digit());
        let fraction = s.subrange(whole_end + 1, e);
        assert forall|j: int| 0 <= j < fraction.len() implies is_digit_char(
            #[trigger] fraction[j],
        ) by {
            assert(digit()(s[whole_end + 1 + j]));
        }
        lemma_decimal_parts(whole, fraction);
        assert(text =~= whole + seq!['.'] + fraction);
    }
}

/// Only line feeds, strings and block comments move the line on: the line
/// after any other lexeme is the line before it.
pub proof fn lemma_line_after(s: Seq<char>, i: int, line: int)
    requires
        0 <= i < s.len(),
    ensures
        s[i] == '\n' ==> line_after(s, i, line) == line + 1,
        s[i] == '"' ==> line_after(s, i, line) == line + count_newlines(
            s.subrange(i + 1, string_end(s, i + 1)),
        ),
        s[i] == '/' && char_at(s, i + 1) == '*' ==> line_after(s, i, line) == line
            + count_newlines(s.subrange(i + 2, comment_end(s, i + 2))),
        s[i] != '\n' && s[i] != '"' && !(s[i] == '/' && char_at(s, i + 1) == '*') ==> line_after(
            s,
            i,
            line,
        ) == line,
{
    let c = s[i];
    let e = lexeme_end(s, i);
    lemma_lexeme_end_bounds(s, i);
    assert(s.subrange(i, e) =~= s.subrange(i, i + 1) + s.subrange(i + 1, e));
    lemma_count_newlines_add(s.subrange(i, i + 1), s.subrange(i + 1, e));
    assert(s.subrange(i, i + 1).drop_last() =~= Seq::<char>::empty());
    assert(count_newlines(Seq::<char>::empty()) == 0);
    assert(s.subrange(i, i + 1).last() == c);
    assert(count_newlines(s.subrange(i, i + 1)) == if c == '\n' {
        1nat
    } else {
        0nat
    });
    if c == '"' {
    } else if is_digit_char(c) {
        lemma_no_newlines_digits(s, i);
    } else if is_alpha_char(c) {
        lemma_no_newlines_word(s, i);
    } else if c == '/' && char_at(s, i + 1) == '/' {
        lemma_span_end_bounds(s, i + 2, not_char('\n'));
        lemma_span_end_run(s, i + 2, not_char('\n'));
        assert forall|j: int| i <= j < e implies #[trigger] s[j] != '\n' by {
            if j >= i + 2 {
                assert(not_char('\n')(s[j]));
            }
        }
        lemma_no_newlines(s, i, e);
    } else if c == '/' && char_at(s, i + 1) == '*' {
        lemma_comment_close_bounds(s, i + 3);
        assert(s.subrange(i + 1, e) =~= s.subrange(i + 1, i + 2) + s.subrange(i + 2, e));
        lemma_count_newlines_add(s.subrange(i + 1, i + 2), s.subrange(i + 2, e));
        lemma_no_newlines(s, i + 1, i + 2);
    } else if extends_with_equal(c) && char_at(s, i + 1) == '=' {
        lemma_no_newlines(s, i + 1, i + 2);
    } else {
        assert(s.subrange(i + 1, e) =~= Seq::<char>::empty());
    }
}

} // verus!

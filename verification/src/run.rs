//! One pass over an input: the tokens to show, and the lexical errors to
//! report once the whole input has been scanned. And one step of a prompt:
//! what to do with the line that was read.

use crate::error_handling::{IOError, LexError};
use crate::lexer::rules::scan;
use crate::lexer::scan_tokens;
use crate::lexer::token::{token_text, token_views, Literal, LiteralView, Token, TokenKind, TokenView};
use crate::parser::grammar::parse_expression;
use crate::parser::parser::{outcome_view, Parser, ParserError};
use crate::syntax::expr::Expr;
use crate::text::count_newlines;
use vstd::prelude::*;

verus! {

/// What is wrong with `token`, where it marks a lexical error: a character
/// that starts no token, or a string or block comment that the end of the
/// input cut short.
pub open spec fn lex_error_message(token: TokenView) -> Option<Seq<char>> {
    if token.kind == TokenKind::Unknown {
        Some("Unknown token"@)
    } else if token.kind == TokenKind::String && cut_short(token.literal) {
        Some("Unterminated string"@)
    } else if token.kind == TokenKind::BlockComment && cut_short(token.literal) {
        Some("Unterminated block comment"@)
    } else {
        None
    }
}

/// Whether `literal` is a text that the end of the input cut short.
pub open spec fn cut_short(literal: Option<LiteralView>) -> bool {
    match literal {
        Some(LiteralView::Str { terminated, .. }) => !terminated,
        _ => false,
    }
}

/// A lexical error as contracts see it.
pub struct LexErrorView {
    pub message: Seq<char>,
    pub line: u32,
}

/// The lexical errors that `tokens` mark, in the order of the tokens, each on
/// the line of its token.
pub open spec fn lex_errors(tokens: Seq<TokenView>) -> Seq<LexErrorView>
    decreases tokens.len(),
{
    if tokens.len() == 0 {
        Seq::empty()
    } else {
        let before = lex_errors(tokens.drop_last());
        match lex_error_message(tokens.last()) {
            Some(message) => before.push(LexErrorView { message, line: tokens.last().line }),
            None => before,
        }
    }
}

/// The texts of the tokens that mark no error, in the order of the tokens.
pub open spec fn shown_tokens(tokens: Seq<TokenView>) -> Seq<Seq<char>>
    decreases tokens.len(),
{
    if tokens.len() == 0 {
        Seq::empty()
    } else {
        let before = shown_tokens(tokens.drop_last());
        match lex_error_message(tokens.last()) {
            Some(_) => before,
            None => before.push(token_text(tokens.last())),
        }
    }
}

/// What a pass over an input yields.
pub struct Report {
    /// One text for each token that is no error marker.
    pub tokens: Vec<String>,
    /// The lexical errors.
    pub errors: Vec<LexError>,
}

impl Report {
    /// The texts of the tokens shown.
    pub open spec fn token_texts(&self) -> Seq<Seq<char>> {
        Seq::new(self.tokens@.len(), |i: int| self.tokens@[i]@)
    }

    /// The errors as contracts see them.
    pub open spec fn error_views(&self) -> Seq<LexErrorView> {
        Seq::new(
            self.errors@.len(),
            |i: int| LexErrorView { message: self.errors@[i].message@, line: self.errors@[i].line },
        )
    }
}

/// The message of the error that `token` marks, if it marks one.
fn error_message(token: &Token) -> (message: Option<String>)
    ensures
        match message {
            Some(text) => lex_error_message(token@) == Some(text@),
            None => lex_error_message(token@) is None,
        },
{
    if token.kind == TokenKind::Unknown {
        return Some(String::from_str("Unknown token"));
    }
    match &token.literal {
        Some(Literal::Str { terminated, .. }) => {
            if !*terminated && token.kind == TokenKind::String {
                Some(String::from_str("Unterminated string"))
            } else if !*terminated && token.kind == TokenKind::BlockComment {
                Some(String::from_str("Unterminated block comment"))
            } else {
                None
            }
        },
        _ => None,
    }
}

/// Sorts `tokens` into those to show and the errors to report.
pub fn examine(tokens: &Vec<Token>) -> (report: Report)
    ensures
        report.token_texts() == shown_tokens(token_views(tokens@)),
        report.error_views() == lex_errors(token_views(tokens@)),
{
    let mut report = Report { tokens: Vec::new(), errors: Vec::new() };
    let ghost views = token_views(tokens@);
    assert(views.take(0) =~= Seq::<TokenView>::empty());
    assert(report.token_texts() =~= shown_tokens(views.take(0)));
    assert(report.error_views() =~= lex_errors(views.take(0)));
    let mut i: usize = 0;
    while i < tokens.len()
        invariant
            i <= tokens.len(),
            views == token_views(tokens@),
            report.token_texts() == shown_tokens(views.take(i as int)),
            report.error_views() == lex_errors(views.take(i as int)),
        decreases tokens.len() - i,
    {
        let token: &Token = &tokens[i];
        let ghost texts = report.token_texts();
        let ghost errors = report.error_views();
        proof {
            assert(views.take(i + 1).drop_last() =~= views.take(i as int));
            assert(views.take(i + 1).last() == token@);
        }
        match error_message(token) {
            Some(message) => {
                report.errors.push(LexError::new(message, token.line));
                assert(report.error_views() =~= errors.push(
                    LexErrorView { message: message@, line: token.line },
                ));
                assert(report.token_texts() =~= texts);
            },
            None => {
                report.tokens.push(token.to_string());
                assert(report.token_texts() =~= texts.push(token_text(token@)));
                assert(report.error_views() =~= errors);
            },
        }
        i += 1;
    }
    assert(views.take(i as int) =~= views);
    report
}

/// Scans `input` and sorts what comes out: the tokens to show, and the
/// lexical errors of the whole input.
pub fn run(input: &str) -> (report: Report)
    requires
        1 + count_newlines(input@) <= u32::MAX,
    ensures
        report.token_texts() == shown_tokens(scan(input@)),
        report.error_views() == lex_errors(scan(input@)),
{
    let tokens = scan_tokens(input);
    examine(&tokens)
}

/// Scans `input` and parses the expression at its start: the tree, or the
/// first syntax error.
pub fn parse_source(input: &str) -> (result: Result<Expr, ParserError>)
    requires
        1 + count_newlines(input@) <= u32::MAX,
    ensures
        outcome_view(result) == parse_expression(scan(input@), 0).result,
{
    let mut parser = Parser::new(scan_tokens(input));
    proof {
        parser.lemma_finalized_wf();
    }
    parser.parse()
}

/// A text without the white space at its end, as `str::trim_end` gives it.
pub uninterp spec fn trimmed_end(text: Seq<char>) -> Seq<char>;

/// `str::trim_end`: `text` without the white space at its end, which depends
/// on `text` alone.
#[verifier::external_body]
fn trim_end(text: &str) -> (kept: &str)
    ensures
        kept@ == trimmed_end(text@),
{
    text.trim_end()
}

/// What a prompt does next.
pub enum PromptStep {
    /// The prompt ends.
    Stop,
    /// The prompt ends with an error.
    Fail(IOError),
    /// The input is run, and the prompt goes on.
    Run(String),
}

/// What a prompt does with a line that it has read and stripped of the white
/// space at its end: an empty line ends the prompt, any other line is run.
pub fn line_step(input: &str) -> (step: PromptStep)
    ensures
        input@.len() == 0 ==> step is Stop,
        input@.len() > 0 ==> (step matches PromptStep::Run(text) && text@ == input@),
{
    if input.unicode_len() == 0 {
        PromptStep::Stop
    } else {
        PromptStep::Run(String::from_str(input))
    }
}

/// What a prompt does after its attempt to read line number `line`: where
/// reading has failed, it ends with an error on that line; otherwise it goes
/// by the line without the white space at its end, as `line_step` says.
pub fn prompt_step(line: u32, read: Result<String, std::io::Error>) -> (step: PromptStep)
    ensures
        read is Err ==> (step matches PromptStep::Fail(error) && error.line == line),
        read matches Ok(buf) ==> {
            &&& trimmed_end(buf@).len() == 0 ==> step is Stop
            &&& trimmed_end(buf@).len() > 0 ==> (step matches PromptStep::Run(text) && text@
                == trimmed_end(buf@))
        },
{
    match read {
        Ok(buf) => line_step(trim_end(buf.as_str())),
        Err(x) => PromptStep::Fail(IOError::new(line, x)),
    }
}

} // verus!

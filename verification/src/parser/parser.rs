//! A recursive-descent parser with one token of lookahead. It never goes back
//! behind a token that it has consumed, and it stops at the first error.

use crate::lexer::laws::finalized;
use crate::lexer::token::{kind_name, token_text, token_views, Literal, Token, TokenKind, TokenView};
use crate::parser::grammar::{
    after, binary_level, keyword_literal, kind_at, parse_binary, parse_expression,
    parse_primary, parse_rest, parse_unary, Parsed, ParserErrorView,
};
use crate::syntax::expr::{BinaryExpr, Expr, ExprView, GroupingExpr, LiteralExpr, UnaryExpr};
use crate::text::{decimal, push_decimal};
use vstd::prelude::*;

verus! {

/// The state of a parse: the tokens, and the index of the next one.
pub struct Parser {
    pub tokens: Vec<Token>,
    pub current: usize,
}

/// A syntax error.
#[derive(Debug)]
pub enum ParserError {
    /// What was expected, and the token that stood there instead.
    UnexpectedToken(String, Token),
    Test,
}

impl View for ParserError {
    type V = ParserErrorView;

    open spec fn view(&self) -> ParserErrorView {
        match self {
            ParserError::UnexpectedToken(expected, found) => ParserErrorView::UnexpectedToken(
                expected@,
                found@,
            ),
            ParserError::Test => ParserErrorView::Test,
        }
    }
}

/// How a syntax error is shown.
pub open spec fn error_text(error: ParserErrorView) -> Seq<char> {
    match error {
        ParserErrorView::UnexpectedToken(expected, found) => "Expected "@ + expected
            + " at line="@ + decimal(found.line as nat) + ", got: "@ + token_text(found),
        ParserErrorView::Test => "Test"@,
    }
}

impl ParserError {
    /// The error as text: what was expected, the line, and the token found.
    pub fn to_string(&self) -> (text: String)
        ensures
            text@ == error_text(self@),
    {
        match self {
            ParserError::UnexpectedToken(expected, found) => {
                let mut text = String::from_str("Expected ");
                text.append(expected.as_str());
                text.append(" at line=");
                push_decimal(&mut text, found.line);
                text.append(", got: ");
                let token = found.to_string();
                text.append(token.as_str());
                assert(text@ =~= error_text(self@));
                text
            },
            ParserError::Test => String::from_str("Test"),
        }
    }
}

/// The view of what a rule returns.
pub open spec fn outcome_view(result: Result<Expr, ParserError>) -> Result<
    ExprView,
    ParserErrorView,
> {
    match result {
        Ok(expr) => Ok(expr@),
        Err(error) => Err(error@),
    }
}

// the grammar
impl Parser {
    /// Parses one expression from the current token on. On success the parser
    /// stands behind the expression; on an error it stands at the token that
    /// the error names.
    pub fn parse(&mut self) -> (result: Result<Expr, ParserError>)
        requires
            old(self).wf(),
        ensures
            final(self).applied(
                old(self),
                parse_expression(old(self).views(), old(self).current as int),
                result,
            ),
    {
        self.expression()
    }

    /// `expression → equality`
    pub fn expression(&mut self) -> (result: Result<Expr, ParserError>)
        requires
            old(self).wf(),
        ensures
            final(self).applied(
                old(self),
                parse_expression(old(self).views(), old(self).current as int),
                result,
            ),
        decreases old(self).tokens.len() - old(self).current, 40nat,
    {
        self.equality()
    }

    /// `equality → comparison ( ("!=" | "==") comparison )*`
    pub fn equality(&mut self) -> (result: Result<Expr, ParserError>)
        requires
            old(self).wf(),
        ensures
            final(self).applied(
                old(self),
                parse_binary(old(self).views(), old(self).current as int, 0),
                result,
            ),
        decreases old(self).tokens.len() - old(self).current, 38nat,
    {
        self.left_assoc(0)
    }

    /// `comparison → term ( (">" | ">=" | "<" | "<=") term )*`
    pub fn comparison(&mut self) -> (result: Result<Expr, ParserError>)
        requires
            old(self).wf(),
        ensures
            final(self).applied(
                old(self),
                parse_binary(old(self).views(), old(self).current as int, 1),
                result,
            ),
        decreases old(self).tokens.len() - old(self).current, 35nat,
    {
        self.left_assoc(1)
    }

    /// `term → factor ( ("+" | "-") factor )*`
    pub fn term(&mut self) -> (result: Result<Expr, ParserError>)
        requires
            old(self).wf(),
        ensures
            final(self).applied(
                old(self),
                parse_binary(old(self).views(), old(self).current as int, 2),
                result,
            ),
        decreases old(self).tokens.len() - old(self).current, 32nat,
    {
        self.left_assoc(2)
    }

    /// `factor → unary ( ("/" | "*") unary )*`
    pub fn factor(&mut self) -> (result: Result<Expr, ParserError>)
        requires
            old(self).wf(),
        ensures
            final(self).applied(
                old(self),
                parse_binary(old(self).views(), old(self).current as int, 3),
                result,
            ),
        decreases old(self).tokens.len() - old(self).current, 29nat,
    {
        self.left_assoc(3)
    }

    /// The operand of the binary rule of `level`: the rule of the next level.
    fn operand(&mut self, level: u8) -> (result: Result<Expr, ParserError>)
        requires
            old(self).wf(),
            level < 4,
        ensures
            final(self).applied(
                old(self),
                parse_binary(old(self).views(), old(self).current as int, level as nat + 1),
                result,
            ),
        decreases old(self).tokens.len() - old(self).current, 36 - 3 * level,
    {
        if level == 0 {
            self.comparison()
        } else if level == 1 {
            self.term()
        } else if level == 2 {
            self.factor()
        } else {
            self.unary()
        }
    }

    /// Consumes the next token where it is an operator of the binary rule of
    /// `level`, and says whether it did.
    fn match_operator(&mut self, level: u8) -> (matched: bool)
        requires
            old(self).wf(),
            level < 4,
        ensures
            matched == (binary_level(kind_at(old(self).views(), old(self).current as int))
                == Some(level as nat)),
            final(self).moved(old(self), if matched {
                1
            } else {
                0
            }),
    {
        if level == 0 {
            self.match_any(&[TokenKind::BangEqual, TokenKind::EqualEqual])
        } else if level == 1 {
            self.match_any(
                &[
                    TokenKind::Greater,
                    TokenKind::GreaterEqual,
                    TokenKind::Less,
                    TokenKind::LessEqual,
                ],
            )
        } else if level == 2 {
            self.match_any(&[TokenKind::Plus, TokenKind::Minus])
        } else {
            self.match_any(&[TokenKind::Slash, TokenKind::Star])
        }
    }

    /// The binary rule of `level`: operands of the next level, joined from
    /// the left under the operators between them.
    fn left_assoc(&mut self, level: u8) -> (result: Result<Expr, ParserError>)
        requires
            old(self).wf(),
            level < 4,
        ensures
            final(self).applied(
                old(self),
                parse_binary(old(self).views(), old(self).current as int, level as nat),
                result,
            ),
        decreases old(self).tokens.len() - old(self).current, 37 - 3 * level,
    {
        let ghost tokens = self.views();
        let ghost start = self.current as int;
        let ghost goal = parse_binary(tokens, start, level as nat);
        let mut expr = match self.operand(level) {
            Ok(expr) => expr,
            Err(error) => {
                return Err(error);
            },
        };
        loop
            invariant
                level < 4,
                self.wf(),
                self.tokens@ == old(self).tokens@,
                tokens == self.views(),
                tokens == old(self).views(),
                goal == parse_binary(tokens, start, level as nat),
                start == old(self).current,
                start <= self.current,
                goal == after(
                    (self.current - start) as nat,
                    parse_rest(tokens, self.current as int, level as nat, expr@),
                ),
            ensures
                self.applied(old(self), goal, Ok(expr)),
            decreases self.tokens.len() - self.current,
        {
            let ghost at = self.current as int;
            let ghost left = expr@;
            if !self.match_operator(level) {
                break ;
            }
            let op: Token = self.prev().clone();
            let ghost operand = parse_binary(tokens, at + 1, level as nat + 1);
            let right: Expr = match self.operand(level) {
                Ok(expr) => expr,
                Err(error) => {
                    assert(parse_rest(tokens, at, level as nat, left) == after(1, operand));
                    return Err(error);
                },
            };
            expr = Expr::Binary(BinaryExpr::new(Box::new(expr), op, Box::new(right)));
            assert(expr@ == ExprView::Binary {
                left: Box::new(left),
                operator: tokens[at],
                right: Box::new(right@),
            });
        }
        Ok(expr)
    }

    /// `unary → ("!" | "-") unary | primary`
    pub fn unary(&mut self) -> (result: Result<Expr, ParserError>)
        requires
            old(self).wf(),
        ensures
            final(self).applied(
                old(self),
                parse_unary(old(self).views(), old(self).current as int),
                result,
            ),
        decreases old(self).tokens.len() - old(self).current, 26nat,
    {
        if self.match_any(&[TokenKind::Bang, TokenKind::Minus]) {
            let op: Token = self.prev().clone();
            match self.unary() {
                Ok(right) => Ok(Expr::Unary(UnaryExpr::new(op, Box::new(right)))),
                Err(error) => Err(error),
            }
        } else {
            let ret = self.primary();
            ret
        }
    }

    /// `primary → NUMBER | STRING | "true" | "false" | "nil" | "(" expression ")"`
    pub fn primary(&mut self) -> (result: Result<Expr, ParserError>)
        requires
            old(self).wf(),
        ensures
            final(self).applied(
                old(self),
                parse_primary(old(self).views(), old(self).current as int),
                result,
            ),
        decreases old(self).tokens.len() - old(self).current, 25nat,
    {
        let kind: TokenKind = self.peek().kind;
        if kind == TokenKind::False {
            self.advance();
            Ok(Self::keyword("false"))
        } else if kind == TokenKind::True {
            self.advance();
            Ok(Self::keyword("true"))
        } else if kind == TokenKind::Nil {
            self.advance();
            Ok(Self::keyword("null"))
        } else if kind == TokenKind::Number || kind == TokenKind::String {
            self.advance();
            match &self.prev().literal {
                Some(value) => Ok(Expr::Literal(LiteralExpr::new(value.clone()))),
                None => {
                    assert(false);
                    Err(ParserError::Test)
                },
            }
        } else if kind == TokenKind::LeftParen {
            self.advance();
            match self.expression() {
                Ok(expr) => {
                    let found = self.peek().clone();
                    match self.consume(found, TokenKind::RightParen) {
                        Ok(_) => Ok(Expr::Grouping(GroupingExpr::new(Box::new(expr)))),
                        Err(error) => Err(error),
                    }
                },
                Err(error) => Err(error),
            }
        } else {
            let found = self.peek().clone();
            Err(
                self.unexpected_token_with_expected_types(
                    found,
                    String::from_str("`false`, `true`, `nil`, `NUMBER`, `STRING`, or `(`"),
                ),
            )
        }
    }

    /// The literal that the keyword spelled `text` stands for.
    fn keyword(text: &str) -> (expr: Expr)
        ensures
            expr@ == keyword_literal(text@),
    {
        Expr::Literal(LiteralExpr::new(Literal::Str { val: String::from_str(text), terminated: true }))
    }
}

// helpers
impl Parser {
    /// The parser's validity: the tokens end with `EOF`, the current token is
    /// one of them, and every number and string carries its literal.
    pub open spec fn wf(&self) -> bool {
        &&& self.current < self.tokens.len()
        &&& self.tokens[self.tokens.len() - 1].kind == TokenKind::EOF
        &&& forall|i: int|
            0 <= i < self.tokens.len() && ((#[trigger] self.tokens[i]).kind == TokenKind::Number
                || self.tokens[i].kind == TokenKind::String) ==> self.tokens[i].literal is Some
    }

    /// The tokens as contracts see them.
    pub open spec fn views(&self) -> Seq<TokenView> {
        token_views(self.tokens@)
    }

    /// Whether `self` is `before`, `steps` tokens further on.
    pub open spec fn moved(&self, before: &Parser, steps: int) -> bool {
        &&& self.wf()
        &&& self.tokens@ == before.tokens@
        &&& self.current == before.current + steps
    }

    /// Whether `self` and `result` are what the outcome `parsed` of a rule
    /// makes of `before`.
    pub open spec fn applied(
        &self,
        before: &Parser,
        parsed: Parsed,
        result: Result<Expr, ParserError>,
    ) -> bool {
        &&& self.moved(before, parsed.consumed as int)
        &&& outcome_view(result) == parsed.result
    }

    /// Whether the parser is valid: whether the rules can be called on it.
    pub fn well_formed(&self) -> (yes: bool)
        ensures
            yes == self.wf(),
    {
        let n: usize = self.tokens.len();
        if self.current >= n {
            return false;
        }
        if self.tokens[n - 1].kind != TokenKind::EOF {
            return false;
        }
        let mut i: usize = 0;
        while i < n
            invariant
                i <= n,
                n == self.tokens.len(),
                forall|j: int|
                    0 <= j < i && ((#[trigger] self.tokens[j]).kind == TokenKind::Number
                        || self.tokens[j].kind == TokenKind::String)
                        ==> self.tokens[j].literal is Some,
            decreases n - i,
        {
            let token: &Token = &self.tokens[i];
            if (token.kind == TokenKind::Number || token.kind == TokenKind::String)
                && token.literal.is_none() {
                return false;
            }
            i += 1;
        }
        true
    }

    /// A stream that is fit for the parser makes a valid parser.
    pub proof fn lemma_finalized_wf(&self)
        requires
            finalized(self.views()),
            self.current < self.tokens.len(),
        ensures
            self.wf(),
    {
        let views = self.views();
        assert(views[self.tokens.len() - 1].kind == TokenKind::EOF);
        assert forall|i: int|
            0 <= i < self.tokens.len() && ((#[trigger] self.tokens[i]).kind == TokenKind::Number
                || self.tokens[i].kind == TokenKind::String) implies self.tokens[i].literal
            is Some by {
            assert(views[i].literal is Some);
        }
    }

    /// A parser at the first of `tokens`.
    pub fn new(tokens: Vec<Token>) -> (parser: Parser)
        ensures
            parser.tokens == tokens,
            parser.current == 0,
    {
        Parser { tokens, current: 0 }
    }

    /// The token before the current one.
    pub fn prev(&self) -> (token: &Token)
        requires
            1 <= self.current <= self.tokens.len(),
        ensures
            *token == self.tokens[self.current - 1],
    {
        &self.tokens[self.current - 1]
    }

    /// Consumes the current token where its kind is one of `token_types` and
    /// it is not `EOF`, and says whether it did.
    pub fn match_any(&mut self, token_types: &[TokenKind]) -> (matched: bool)
        requires
            old(self).wf(),
        ensures
            matched == (old(self).tokens[old(self).current as int].kind != TokenKind::EOF
                && token_types@.contains(old(self).tokens[old(self).current as int].kind)),
            final(self).moved(old(self), if matched {
                1
            } else {
                0
            }),
    {
        let mut i: usize = 0;
        while i < token_types.len()
            invariant
                i <= token_types.len(),
                *self == *old(self),
                self.wf(),
                forall|j: int|
                    0 <= j < i ==> !(self.tokens[self.current as int].kind != TokenKind::EOF
                        && #[trigger] token_types@[j] == self.tokens[self.current as int].kind),
            decreases token_types.len() - i,
        {
            if self.check(token_types[i]) {
                self.advance();
                return true;
            }
            i += 1;
        }
        false
    }

    /// Whether the current token is of kind `token_type` and not `EOF`.
    pub fn check(&mut self, token_type: TokenKind) -> (same: bool)
        requires
            old(self).current < old(self).tokens.len(),
        ensures
            *final(self) == *old(self),
            same == (old(self).tokens[old(self).current as int].kind != TokenKind::EOF && old(
                self,
            ).tokens[old(self).current as int].kind == token_type),
    {
        !self.is_at_end() && self.peek().kind == token_type
    }

    /// Consumes the current token unless it is `EOF`, and returns the token
    /// that then stands before the current one.
    pub fn advance(&mut self) -> (token: &Token)
        requires
            old(self).wf(),
            old(self).current > 0 || old(self).tokens[0].kind != TokenKind::EOF,
        ensures
            final(self).moved(
                old(self),
                if old(self).tokens[old(self).current as int].kind != TokenKind::EOF {
                    1
                } else {
                    0
                },
            ),
            *token == final(self).tokens[final(self).current - 1],
    {
        if !self.is_at_end() {
            self.current += 1;
        }
        self.prev()
    }

    /// The current token.
    pub fn peek(&self) -> (token: &Token)
        requires
            self.current < self.tokens.len(),
        ensures
            *token == self.tokens[self.current as int],
    {
        &self.tokens[self.current]
    }

    /// Whether the current token is `EOF`.
    pub fn is_at_end(&self) -> (at_end: bool)
        requires
            self.current < self.tokens.len(),
        ensures
            at_end == (self.tokens[self.current as int].kind == TokenKind::EOF),
    {
        self.peek().kind == TokenKind::EOF
    }

    /// Consumes the current token where it is of kind `ttype` and not `EOF`.
    /// Otherwise nothing is consumed, and the error names `ttype` as what was
    /// expected and `found_token` as what was found.
    pub fn consume(&mut self, found_token: Token, ttype: TokenKind) -> (result: Result<
        (),
        ParserError,
    >)
        requires
            old(self).wf(),
        ensures
            result is Ok <==> old(self).tokens[old(self).current as int].kind != TokenKind::EOF
                && old(self).tokens[old(self).current as int].kind == ttype,
            final(self).moved(old(self), if result is Ok {
                1
            } else {
                0
            }),
            result matches Err(error) ==> error@ == ParserErrorView::UnexpectedToken(
                kind_name(ttype),
                found_token@,
            ),
    {
        if self.check(ttype) {
            self.advance();
            Ok(())
        } else {
            Err(ParserError::UnexpectedToken(ttype.to_string(), found_token))
        }
    }

    /// The error for `found_token` where `expected_types` was expected.
    pub fn unexpected_token_with_expected_types(
        &mut self,
        found_token: Token,
        expected_types: String,
    ) -> (error: ParserError)
        ensures
            *final(self) == *old(self),
            error@ == ParserErrorView::UnexpectedToken(expected_types@, found_token@),
    {
        ParserError::UnexpectedToken(expected_types, found_token)
    }
}

} // verus!

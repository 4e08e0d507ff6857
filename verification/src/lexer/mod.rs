//! The scanner: from the characters of an input to its tokens.

pub mod cursor;
pub mod laws;
pub mod rules;
pub mod token;

use crate::lexer::cursor::Cursor;
use crate::lexer::laws::{finalized, lemma_scan_finalized};
use crate::lexer::rules::{
    alpha_numeric, comment_close, comment_end, comment_token, digit, lemma_count_newlines_split,
    lemma_lexeme_end_bounds, lemma_line_after, lemma_no_newlines,
    lemma_scanned_number_is_decimal, lexeme_end, line_after, number_end, number_text,
    number_token, plain_token, scan, string_end, string_token, text_kind, token_at, tokens_from,
    word_end, word_token,
};
use crate::lexer::token::{is_decimal, token_views, Literal, Number, Token, TokenKind, TokenView};
use crate::text::{
    chars_of, count_newlines, is_alpha_char, is_alpha_numeric_char, is_digit_char,
    lemma_count_newlines_add, lemma_count_newlines_step, lemma_count_newlines_take,
    lemma_span_end_run, lemma_span_end_unique, not_char, push_char, span_end, str_eq, string_of,
};
use vstd::prelude::*;

verus! {

/// The view of an optional token.
pub open spec fn token_view(token: Option<Token>) -> Option<TokenView> {
    match token {
        Some(t) => Some(t@),
        None => None,
    }
}

/// Whether the lines of `input` can be counted: whether `scan_tokens` can be
/// called on it.
pub fn lines_fit(input: &str) -> (fits: bool)
    ensures
        fits == (1 + count_newlines(input@) <= u32::MAX),
{
    let chars = chars_of(input);
    let mut lines: usize = 0;
    let mut i: usize = 0;
    assert(chars@.take(0) =~= Seq::<char>::empty());
    while i < chars.len()
        invariant
            i <= chars.len(),
            lines <= i,
            lines == count_newlines(chars@.take(i as int)),
        decreases chars.len() - i,
    {
        proof {
            lemma_count_newlines_step(chars@, i as int);
        }
        if chars[i] == '\n' {
            lines = lines + 1;
        }
        i += 1;
    }
    assert(chars@.take(i as int) =~= chars@);
    lines < 0xffff_ffff
}

/// Scans `input` from its start to its end. The result holds every token in
/// the order of the input, blank space and closed comments left out, and ends
/// with the one `EOF` token.
pub fn scan_tokens(input: &str) -> (tokens: Vec<Token>)
    requires
        1 + count_newlines(input@) <= u32::MAX,
    ensures
        token_views(tokens@) == scan(input@),
        finalized(token_views(tokens@)),
{
    proof {
        lemma_scan_finalized(input@);
    }
    let mut cursor = Cursor::new(input);
    let mut tokens: Vec<Token> = Vec::new();
    assert(cursor.remaining() =~= input@);
    assert(token_views(tokens@) + tokens_from(input@, 0, 1) =~= scan(input@));
    while !cursor.is_eof()
        invariant
            cursor.wf(),
            cursor.line_room(),
            cursor.text() == input@,
            token_views(tokens@) + tokens_from(input@, cursor.position(), cursor.line as int)
                == scan(input@),
        decreases cursor.text().len() - cursor.position(),
    {
        let ghost before = token_views(tokens@);
        let ghost at = cursor.position();
        let ghost line = cursor.line as int;
        proof {
            lemma_lexeme_end_bounds(input@, at);
        }
        cursor.reset_len_consumed();
        match cursor.scan_token() {
            Some(token) => {
                tokens.push(token);
                assert(token_views(tokens@) =~= before + seq![token@]);
                assert(token_views(tokens@) + tokens_from(
                    input@,
                    cursor.position(),
                    cursor.line as int,
                ) =~= before + tokens_from(input@, at, line));
            },
            None => {},
        }
    }
    let end = Token::new(TokenKind::EOF, String::new(), cursor.line);
    let ghost before = token_views(tokens@);
    tokens.push(end);
    assert(token_views(tokens@) =~= before + seq![end@]);
    tokens
}

impl Cursor {
    /// Whether the line counter has room for the line feeds that are still to
    /// be consumed.
    pub open spec fn line_room(&self) -> bool {
        self.line + count_newlines(self.remaining()) <= u32::MAX
    }

    /// Whether `self` is `before` moved on to position `pos` and line `line`.
    pub open spec fn moved(&self, before: &Cursor, pos: int, line: int) -> bool {
        &&& self.wf()
        &&& self.text() == before.text()
        &&& self.counted_from() == before.counted_from()
        &&& self.position() == pos
        &&& self.line == line
    }

    /// Consumes the next character where it is `c`, and says whether it did.
    pub fn advance_if_next(&mut self, c: char) -> (eaten: bool)
        requires
            old(self).wf(),
        ensures
            eaten == (old(self).position() < old(self).text().len() && old(self).text()[old(
                self,
            ).position()] == c),
            final(self).moved(
                old(self),
                if eaten {
                    old(self).position() + 1
                } else {
                    old(self).position()
                },
                old(self).line as int,
            ),
    {
        if self.is_eof() {
            false
        } else {
            if c == self.first() {
                self.advance();
                true
            } else {
                false
            }
        }
    }

    /// The number of line feeds in `chars[from..to]`.
    fn count_lines(&self, from: usize, to: usize) -> (lines: u32)
        requires
            from <= to <= self.chars.len(),
            count_newlines(self.chars@.subrange(from as int, to as int)) <= u32::MAX,
        ensures
            lines == count_newlines(self.chars@.subrange(from as int, to as int)),
    {
        let mut lines: u32 = 0;
        let mut i: usize = from;
        while i < to
            invariant
                from <= i <= to <= self.chars.len(),
                lines == count_newlines(self.chars@.subrange(from as int, i as int)),
                count_newlines(self.chars@.subrange(from as int, to as int)) <= u32::MAX,
            decreases to - i,
        {
            proof {
                let part = self.chars@.subrange(from as int, to as int);
                assert(part.take(i - from) =~= self.chars@.subrange(from as int, i as int));
                assert(part.take(i - from + 1) =~= self.chars@.subrange(from as int, i + 1));
                lemma_count_newlines_step(part, i - from);
                lemma_count_newlines_take(part, i - from + 1, part.len() as int);
                assert(part.take(part.len() as int) =~= part);
            }
            if self.chars[i] == '\n' {
                lines = lines + 1;
            }
            i += 1;
        }
        lines
    }

    /// Eats as `eat_while` does, and appends what it has eaten to `literal`.
    fn eat_onto<F: Fn(char) -> bool>(
        &mut self,
        literal: &mut String,
        predicate: F,
        Ghost(accepts): Ghost<spec_fn(char) -> bool>,
    )
        requires
            old(self).wf(),
            forall|c: char| predicate.requires((c,)),
            forall|c: char, b: bool| predicate.ensures((c,), b) ==> b == accepts(c),
        ensures
            final(self).moved(
                old(self),
                span_end(old(self).text(), old(self).position(), accepts),
                old(self).line as int,
            ),
            old(self).position() <= final(self).position() <= old(self).text().len(),
            final(literal)@ == old(literal)@ + old(self).text().subrange(
                old(self).position(),
                final(self).position(),
            ),
    {
        let start: usize = self.pos;
        self.eat_while(predicate);
        let end: usize = self.pos;
        proof {
            assert forall|j: int| start <= j < end implies accepts(#[trigger] self.text()[j]) by {
                assert(predicate.ensures((self.text()[j],), true));
            }
            lemma_span_end_unique(self.text(), start as int, end as int, accepts);
        }
        let eaten = string_of(&self.chars, start, end);
        literal.append(eaten.as_str());
    }

    /// Scans the rest of a string literal, the opening quote of which has just
    /// been consumed: up to and including the closing quote, or up to the end
    /// of the input. The line feeds inside the literal are counted.
    pub fn string(&mut self) -> (token: Token)
        requires
            old(self).wf(),
            old(self).line_room(),
        ensures
            token@ == string_token(old(self).text(), old(self).position(), old(self).line as int),
            final(self).moved(
                old(self),
                string_end(old(self).text(), old(self).position()),
                old(self).line + count_newlines(
                    old(self).text().subrange(
                        old(self).position(),
                        string_end(old(self).text(), old(self).position()),
                    ),
                ),
            ),
            final(self).line == token.line,
            final(self).line_room(),
    {
        let start: usize = self.pos;
        let mut literal = String::new();
        self.eat_onto(
            &mut literal,
            |c: char| -> (b: bool) ensures b == (c != '"') { c != '"' },
            Ghost(not_char('"')),
        );
        let end: usize = self.pos;
        proof {
            lemma_count_newlines_split(self.text(), start as int, end as int);
            assert(literal@ =~= self.text().subrange(start as int, end as int));
        }
        let lines: u32 = self.count_lines(start, end);
        self.line = self.line + lines;
        let mut lexeme = String::new();
        push_char(&mut lexeme, '"');
        lexeme.append(literal.as_str());
        if self.is_eof() {
            proof {
                assert(lexeme@ =~= seq!['"'] + literal@);
            }
            Token::new(TokenKind::String, lexeme, self.line).literal(
                Literal::Str { val: literal, terminated: false },
            )
        } else {
            proof {
                let s = self.text();
                let body = s.subrange(start as int, end as int);
                let quote = s.subrange(end as int, end + 1);
                lemma_span_end_run(s, start as int, not_char('"'));
                assert(!not_char('"')(s[end as int]));
                lemma_no_newlines(s, end as int, end + 1);
                assert(s.subrange(start as int, end + 1) =~= body + quote);
                lemma_count_newlines_add(body, quote);
                lemma_count_newlines_split(s, end as int, end + 1);
            }
            self.advance();
            push_char(&mut lexeme, '"');
            proof {
                assert(lexeme@ =~= seq!['"'] + literal@ + seq!['"']);
            }
            Token::new(TokenKind::String, lexeme, self.line).literal(
                Literal::Str { val: literal, terminated: true },
            )
        }
    }

    /// Scans the rest of a number that starts with `literal`: the digits that
    /// follow and, where a point and a digit come next, the point and the
    /// digits behind it. A point that no digit follows is left in the input.
    pub fn number(&mut self, literal: String) -> (token: Token)
        requires
            old(self).wf(),
            is_decimal(number_text(literal@, old(self).text(), old(self).position())),
        ensures
            token@ == number_token(
                literal@,
                old(self).text(),
                old(self).position(),
                old(self).line as int,
            ),
            final(self).moved(
                old(self),
                number_end(old(self).text(), old(self).position()),
                old(self).line as int,
            ),
    {
        let ghost prefix = literal@;
        let ghost start = self.position();
        let mut literal = literal;
        self.eat_onto(
            &mut literal,
            |c: char| -> (b: bool) ensures b == is_digit_char(c) { is_digit(c) },
            Ghost(digit()),
        );
        let ghost whole_end = self.position();
        if self.first() == '.' && is_digit(self.second()) {
            self.advance();
            push_char(&mut literal, '.');
            self.eat_onto(
                &mut literal,
                |c: char| -> (b: bool) ensures b == is_digit_char(c) { is_digit(c) },
                Ghost(digit()),
            );
            proof {
                let s = self.text();
                assert(digit()(s[whole_end + 1]));
                assert(literal@ =~= prefix + s.subrange(start, self.position()));
            }
        }
        assert(literal@ == number_text(prefix, self.text(), start));
        match Number::from_text(literal.as_str()) {
            Some(val) => Token::new(TokenKind::Number, literal, self.line).literal(
                Literal::Num { val },
            ),
            None => {
                assert(false);
                Token::new(TokenKind::Number, literal, self.line)
            },
        }
    }

    /// Scans the rest of a word that starts with `literal`: the letters,
    /// digits and underscores that follow. The word is a keyword where it
    /// spells one, and an identifier otherwise.
    pub fn identifer_or_keyword(&mut self, literal: String) -> (token: Token)
        requires
            old(self).wf(),
        ensures
            token@ == word_token(
                literal@,
                old(self).text(),
                old(self).position(),
                old(self).line as int,
            ),
            final(self).moved(
                old(self),
                word_end(old(self).text(), old(self).position()),
                old(self).line as int,
            ),
    {
        let mut literal = literal;
        self.eat_onto(
            &mut literal,
            |c: char| -> (b: bool) ensures b == is_alpha_numeric_char(c) { is_alpha_numeric(c) },
            Ghost(alpha_numeric()),
        );
        Token::new(get_text_type(&literal), literal, self.line)
    }

    /// Scans the body of a block comment that starts with `literal` (the
    /// opening `/*`, already consumed): up to and including the closing `*/`,
    /// or up to the end of the input. The token keeps the line on which the
    /// comment starts and says whether the comment was closed; the line feeds
    /// inside the comment are counted.
    pub fn block_comment(&mut self, literal: String) -> (token: Token)
        requires
            old(self).wf(),
            old(self).line_room(),
        ensures
            token@ == comment_token(
                literal@,
                old(self).text(),
                old(self).position(),
                old(self).line as int,
            ),
            final(self).moved(
                old(self),
                comment_end(old(self).text(), old(self).position()),
                old(self).line + count_newlines(
                    old(self).text().subrange(
                        old(self).position(),
                        comment_end(old(self).text(), old(self).position()),
                    ),
                ),
            ),
            final(self).line_room(),
    {
        let ghost prefix = literal@;
        let ghost s = self.text();
        let ghost room = self.line + count_newlines(self.remaining());
        let mut literal = literal;
        let start: usize = self.pos;
        let start_line: u32 = self.line;
        let mut finish_line: u32 = start_line;
        let mut prev_c: char = ' ';
        let mut terminated: bool = false;
        proof {
            assert(s.subrange(start as int, start as int) =~= Seq::<char>::empty());
            assert(literal@ =~= prefix + s.subrange(start as int, start as int));
        }
        while !terminated && !self.is_eof()
            invariant
                self.moved(old(self), self.position(), start_line as int),
                s == self.text(),
                start <= self.position() <= s.len(),
                literal@ == prefix + s.subrange(start as int, self.position()),
                finish_line == start_line + count_newlines(
                    s.subrange(start as int, self.position()),
                ),
                finish_line + count_newlines(s.skip(self.position())) == room,
                room <= u32::MAX,
                !terminated ==> prev_c == (if self.position() > start {
                    s[self.position() - 1]
                } else {
                    ' '
                }),
                !terminated ==> comment_close(s, start + 1) == comment_close(
                    s,
                    if self.position() > start {
                        self.position()
                    } else {
                        start + 1
                    },
                ),
                terminated ==> comment_close(s, start + 1) == self.position() - 1
                    && self.position() - 1 < s.len(),
            decreases s.len() - self.position() + if terminated { 0int } else { 1int },
        {
            let ghost k = self.position();
            let c: char = self.first();
            self.advance();
            push_char(&mut literal, c);
            proof {
                assert(s.subrange(start as int, k + 1) =~= s.subrange(start as int, k).push(c));
                assert(s.subrange(start as int, k + 1).drop_last() =~= s.subrange(
                    start as int,
                    k,
                ));
                assert(s.skip(k) =~= s.skip(start as int).skip(k - start));
                lemma_count_newlines_step(s.skip(start as int), k - start);
                assert(s.skip(start as int).take(k - start) =~= s.subrange(start as int, k));
                assert(s.skip(start as int).take(k - start + 1) =~= s.subrange(
                    start as int,
                    k + 1,
                ));
                lemma_count_newlines_split(s, start as int, k);
                lemma_count_newlines_split(s, start as int, k + 1);
            }
            if prev_c == '*' && c == '/' {
                terminated = true;
            } else {
                if c == '\n' {
                    finish_line = finish_line + 1;
                }
                prev_c = c;
            }
        }
        self.line = finish_line;
        let lexeme = literal.clone();
        Token::new(TokenKind::BlockComment, lexeme, start_line).literal(
            Literal::Str { val: literal, terminated },
        )
    }

    /// Scans the lexeme that starts at the cursor. `None` where it is blank
    /// space, a line comment or a closed block comment.
    pub fn scan_token(&mut self) -> (token: Option<Token>)
        requires
            old(self).wf(),
            old(self).line_room(),
            old(self).position() < old(self).text().len(),
        ensures
            token_view(token) == token_at(
                old(self).text(),
                old(self).position(),
                old(self).line as int,
            ),
            final(self).moved(
                old(self),
                lexeme_end(old(self).text(), old(self).position()),
                line_after(old(self).text(), old(self).position(), old(self).line as int),
            ),
            final(self).line_room(),
    {
        let ghost s = self.text();
        let ghost i = self.position();
        let ghost line0 = self.line as int;
        let first_char: char = self.first();
        self.advance();
        proof {
            lemma_lexeme_end_bounds(s, i);
            lemma_line_after(s, i, line0);
            lemma_count_newlines_split(s, i, i + 1);
            lemma_count_newlines_split(s, i, lexeme_end(s, i));
        }
        if first_char == '(' {
            Some(self.symbol(TokenKind::LeftParen, first_char))
        } else if first_char == ')' {
            Some(self.symbol(TokenKind::RightParen, first_char))
        } else if first_char == '{' {
            Some(self.symbol(TokenKind::LeftBrace, first_char))
        } else if first_char == '}' {
            Some(self.symbol(TokenKind::RightBrace, first_char))
        } else if first_char == ',' {
            Some(self.symbol(TokenKind::Comma, first_char))
        } else if first_char == '.' {
            Some(self.symbol(TokenKind::Dot, first_char))
        } else if first_char == '-' {
            Some(self.symbol(TokenKind::Minus, first_char))
        } else if first_char == '+' {
            Some(self.symbol(TokenKind::Plus, first_char))
        } else if first_char == '*' {
            Some(self.symbol(TokenKind::Star, first_char))
        } else if first_char == ';' {
            Some(self.symbol(TokenKind::Semicolon, first_char))
        } else if first_char == '!' {
            Some(self.operator(first_char, TokenKind::Bang, TokenKind::BangEqual))
        } else if first_char == '=' {
            Some(self.operator(first_char, TokenKind::Equal, TokenKind::EqualEqual))
        } else if first_char == '<' {
            Some(self.operator(first_char, TokenKind::Less, TokenKind::LessEqual))
        } else if first_char == '>' {
            Some(self.operator(first_char, TokenKind::Greater, TokenKind::GreaterEqual))
        } else if first_char == '/' {
            if self.advance_if_next('/') {
                self.eat_while(
                    |c: char| -> (b: bool) ensures b == (c != '\n') { c != '\n' },
                );
                proof {
                    let e = self.position();
                    assert forall|j: int| i + 2 <= j < e implies not_char('\n')(
                        #[trigger] s[j],
                    ) by {}
                    lemma_span_end_unique(s, i + 2, e, not_char('\n'));
                }
                None
            } else if self.advance_if_next('*') {
                let mut literal = String::new();
                push_char(&mut literal, '/');
                push_char(&mut literal, '*');
                proof {
                    lemma_count_newlines_split(s, i + 1, i + 2);
                    assert(literal@ =~= seq!['/', '*']);
                }
                let comment = self.block_comment(literal);
                match &comment.literal {
                    Some(Literal::Str { val, terminated }) => {
                        if *terminated {
                            None
                        } else {
                            Some(comment)
                        }
                    },
                    _ => None,
                }
            } else {
                Some(self.symbol(TokenKind::Slash, first_char))
            }
        } else if first_char == ' ' || first_char == '\r' || first_char == '\t' {
            None
        } else if first_char == '\n' {
            self.line = self.line + 1;
            None
        } else if first_char == '"' {
            Some(self.string())
        } else if is_digit(first_char) {
            let mut literal = String::new();
            push_char(&mut literal, first_char);
            proof {
                lemma_scanned_number_is_decimal(s, i);
                assert(literal@ =~= seq![first_char]);
            }
            Some(self.number(literal))
        } else if is_alpha(first_char) {
            let mut literal = String::new();
            push_char(&mut literal, first_char);
            proof {
                assert(literal@ =~= seq![first_char]);
            }
            Some(self.identifer_or_keyword(literal))
        } else {
            Some(self.symbol(TokenKind::Unknown, first_char))
        }
    }

    /// The token of the one character `c`, which has just been consumed.
    fn symbol(&self, kind: TokenKind, c: char) -> (token: Token)
        ensures
            token@ == plain_token(kind, seq![c], self.line as int),
    {
        let mut lexeme = String::new();
        push_char(&mut lexeme, c);
        assert(lexeme@ =~= seq![c]);
        Token::new(kind, lexeme, self.line)
    }

    /// The token of an operator whose first character `c` has just been
    /// consumed: `with_equal` where `=` follows, which is consumed too, and
    /// `alone` otherwise.
    fn operator(&mut self, c: char, alone: TokenKind, with_equal: TokenKind) -> (token: Token)
        requires
            old(self).wf(),
        ensures
            old(self).position() < old(self).text().len() && old(self).text()[old(
                self,
            ).position()] == '=' ==> token@ == plain_token(
                with_equal,
                seq![c, '='],
                old(self).line as int,
            ) && final(self).moved(old(self), old(self).position() + 1, old(self).line as int),
            !(old(self).position() < old(self).text().len() && old(self).text()[old(
                self,
            ).position()] == '=') ==> token@ == plain_token(
                alone,
                seq![c],
                old(self).line as int,
            ) && final(self).moved(old(self), old(self).position(), old(self).line as int),
    {
        let mut lexeme = String::new();
        push_char(&mut lexeme, c);
        if self.advance_if_next('=') {
            push_char(&mut lexeme, '=');
            assert(lexeme@ =~= seq![c, '=']);
            Token::new(with_equal, lexeme, self.line)
        } else {
            assert(lexeme@ =~= seq![c]);
            Token::new(alone, lexeme, self.line)
        }
    }
}

/// Whether `c` is a decimal digit.
pub fn is_digit(c: char) -> (yes: bool)
    ensures
        yes == is_digit_char(c),
{
    c >= '0' && c <= '9'
}

/// Whether `c` is an ASCII letter or the underscore.
pub fn is_alpha(c: char) -> (yes: bool)
    ensures
        yes == is_alpha_char(c),
{
    (c >= 'a' && c <= 'z') || (c >= 'A' && c <= 'Z') || c == '_'
}

/// Whether `c` may continue an identifier.
pub fn is_alpha_numeric(c: char) -> (yes: bool)
    ensures
        yes == is_alpha_numeric_char(c),
{
    is_digit(c) || is_alpha(c)
}

/// The kind of the word `s`: its keyword, or `Identifier`.
pub fn get_text_type(s: &String) -> (kind: TokenKind)
    ensures
        kind == text_kind(s@),
{
    let text: &str = s.as_str();
    if str_eq(text, "and") {
        TokenKind::And
    } else if str_eq(text, "class") {
        TokenKind::Class
    } else if str_eq(text, "else") {
        TokenKind::Else
    } else if str_eq(text, "false") {
        TokenKind::False
    } else if str_eq(text, "for") {
        TokenKind::For
    } else if str_eq(text, "fun") {
        TokenKind::Fun
    } else if str_eq(text, "if") {
        TokenKind::If
    } else if str_eq(text, "nil") {
        TokenKind::Nil
    } else if str_eq(text, "or") {
        TokenKind::Or
    } else if str_eq(text, "print") {
        TokenKind::Print
    } else if str_eq(text, "return") {
        TokenKind::Return
    } else if str_eq(text, "super") {
        TokenKind::Super
    } else if str_eq(text, "this") {
        TokenKind::This
    } else if str_eq(text, "true") {
        TokenKind::True
    } else if str_eq(text, "var") {
        TokenKind::Var
    } else if str_eq(text, "while") {
        TokenKind::While
    } else {
        TokenKind::Identifier
    }
}

} // verus!

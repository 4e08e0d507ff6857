//! Tokens: what the scanner hands to the parser and the printers.

use crate::text::{
    all_digits, chars_of, is_digit_char, lemma_span_end_unique, not_char, push_char, span_end,
    string_of,
};
use vstd::prelude::*;

verus! {

/// The closed set of lexical categories.
#[derive(Debug, Clone, Copy, PartialEq, Eq, Structural)]
pub enum TokenKind {
    // single character tokens
    LeftParen,
    RightParen,
    LeftBrace,
    RightBrace,
    Comma,
    Dot,
    Minus,
    Plus,
    Semicolon,
    Slash,
    Star,
    // one or two character tokens
    Bang,
    BangEqual,
    Equal,
    EqualEqual,
    Greater,
    GreaterEqual,
    Less,
    LessEqual,
    // literals
    Identifier,
    String,
    Number,
    // keywords
    And,
    Class,
    Else,
    False,
    Fun,
    For,
    If,
    Nil,
    Or,
    Print,
    Return,
    Super,
    This,
    True,
    Var,
    While,
    // categories that never reach the parser when well formed
    Comment,
    BlockComment,
    Whitespace,
    Newline,
    // a character that starts no token
    Unknown,
    // the end of the input
    EOF,
}

/// The name of a token kind, as it is shown to users.
pub open spec fn kind_name(kind: TokenKind) -> Seq<char> {
    match kind {
        TokenKind::LeftParen => "LeftParen"@,
        TokenKind::RightParen => "RightParen"@,
        TokenKind::LeftBrace => "LeftBrace"@,
        TokenKind::RightBrace => "RightBrace"@,
        TokenKind::Comma => "Comma"@,
        TokenKind::Dot => "Dot"@,
        TokenKind::Minus => "Minus"@,
        TokenKind::Plus => "Plus"@,
        TokenKind::Semicolon => "Semicolon"@,
        TokenKind::Slash => "Slash"@,
        TokenKind::Star => "Star"@,
        TokenKind::Bang => "Bang"@,
        TokenKind::BangEqual => "BangEqual"@,
        TokenKind::Equal => "Equal"@,
        TokenKind::EqualEqual => "EqualEqual"@,
        TokenKind::Greater => "Greater"@,
        TokenKind::GreaterEqual => "GreaterEqual"@,
        TokenKind::Less => "Less"@,
        TokenKind::LessEqual => "LessEqual"@,
        TokenKind::Identifier => "Identifier"@,
        TokenKind::String => "String"@,
        TokenKind::Number => "Number"@,
        TokenKind::And => "And"@,
        TokenKind::Class => "Class"@,
        TokenKind::Else => "Else"@,
        TokenKind::False => "False"@,
        TokenKind::Fun => "Fun"@,
        TokenKind::For => "For"@,
        TokenKind::If => "If"@,
        TokenKind::Nil => "Nil"@,
        TokenKind::Or => "Or"@,
        TokenKind::Print => "Print"@,
        TokenKind::Return => "Return"@,
        TokenKind::Super => "Super"@,
        TokenKind::This => "This"@,
        TokenKind::True => "True"@,
        TokenKind::Var => "Var"@,
        TokenKind::While => "While"@,
        TokenKind::Comment => "Comment"@,
        TokenKind::BlockComment => "BlockComment"@,
        TokenKind::Whitespace => "Whitespace"@,
        TokenKind::Newline => "Newline"@,
        TokenKind::Unknown => "Unknown"@,
        TokenKind::EOF => "EOF"@,
    }
}

impl TokenKind {
    /// The kind's name.
    pub fn to_string(&self) -> (name: String)
        ensures
            name@ == kind_name(*self),
    {
        let name: &str = match self {
            TokenKind::LeftParen => "LeftParen",
            TokenKind::RightParen => "RightParen",
            TokenKind::LeftBrace => "LeftBrace",
            TokenKind::RightBrace => "RightBrace",
            TokenKind::Comma => "Comma",
            TokenKind::Dot => "Dot",
            TokenKind::Minus => "Minus",
            TokenKind::Plus => "Plus",
            TokenKind::Semicolon => "Semicolon",
            TokenKind::Slash => "Slash",
            TokenKind::Star => "Star",
            TokenKind::Bang => "Bang",
            TokenKind::BangEqual => "BangEqual",
            TokenKind::Equal => "Equal",
            TokenKind::EqualEqual => "EqualEqual",
            TokenKind::Greater => "Greater",
            TokenKind::GreaterEqual => "GreaterEqual",
            TokenKind::Less => "Less",
            TokenKind::LessEqual => "LessEqual",
            TokenKind::Identifier => "Identifier",
            TokenKind::String => "String",
            TokenKind::Number => "Number",
            TokenKind::And => "And",
            TokenKind::Class => "Class",
            TokenKind::Else => "Else",
            TokenKind::False => "False",
            TokenKind::Fun => "Fun",
            TokenKind::For => "For",
            TokenKind::If => "If",
            TokenKind::Nil => "Nil",
            TokenKind::Or => "Or",
            TokenKind::Print => "Print",
            TokenKind::Return => "Return",
            TokenKind::Super => "Super",
            TokenKind::This => "This",
            TokenKind::True => "True",
            TokenKind::Var => "Var",
            TokenKind::While => "While",
            TokenKind::Comment => "Comment",
            TokenKind::BlockComment => "BlockComment",
            TokenKind::Whitespace => "Whitespace",
            TokenKind::Newline => "Newline",
            TokenKind::Unknown => "Unknown",
            TokenKind::EOF => "EOF",
        };
        String::from_str(name)
    }
}

/// Where the whole part of a decimal ends: at its first `'.'`, or at its end.
pub open spec fn dot_index(s: Seq<char>) -> int {
    span_end(s, 0, not_char('.'))
}

/// The digits before the point.
pub open spec fn whole_part(s: Seq<char>) -> Seq<char> {
    s.take(dot_index(s))
}

/// The digits after the point; empty where there is no point.
pub open spec fn fraction_part(s: Seq<char>) -> Seq<char> {
    if dot_index(s) < s.len() {
        s.skip(dot_index(s) + 1)
    } else {
        Seq::empty()
    }
}

/// Whether `s` is one or more digits, optionally followed by a point and one
/// or more digits.
pub open spec fn is_decimal(s: Seq<char>) -> bool {
    &&& 0 <= dot_index(s) <= s.len()
    &&& whole_part(s).len() > 0
    &&& all_digits(whole_part(s))
    &&& dot_index(s) < s.len() ==> fraction_part(s).len() > 0 && all_digits(fraction_part(s))
}

/// `s` without its leading zeros, but never empty where `s` is not.
pub open spec fn trim_leading_zeros(s: Seq<char>) -> Seq<char>
    decreases s.len(),
{
    if s.len() > 1 && s[0] == '0' {
        trim_leading_zeros(s.skip(1))
    } else {
        s
    }
}

/// `s` without its trailing zeros.
pub open spec fn trim_trailing_zeros(s: Seq<char>) -> Seq<char>
    decreases s.len(),
{
    if s.len() > 0 && s.last() == '0' {
        trim_trailing_zeros(s.drop_last())
    } else {
        s
    }
}

/// The shortest decimal with the value of `s`: no leading zeros in the whole
/// part, no trailing zeros in the fraction, and no point before an empty
/// fraction.
pub open spec fn canonical_decimal(s: Seq<char>) -> Seq<char> {
    let whole = trim_leading_zeros(whole_part(s));
    let fraction = trim_trailing_zeros(fraction_part(s));
    if fraction.len() == 0 {
        whole
    } else {
        whole + seq!['.'] + fraction
    }
}

/// Whether `s` is a decimal in its shortest form.
pub open spec fn is_canonical_decimal(s: Seq<char>) -> bool {
    is_decimal(s) && canonical_decimal(s) == s
}

/// What trimming leading zeros keeps.
pub proof fn lemma_trim_leading_zeros(s: Seq<char>)
    requires
        s.len() > 0,
    ensures
        trim_leading_zeros(s).len() > 0,
        trim_leading_zeros(s).len() <= s.len(),
        trim_leading_zeros(s) == s.skip(s.len() - trim_leading_zeros(s).len()),
        trim_leading_zeros(s).len() == 1 || trim_leading_zeros(s)[0] != '0',
        trim_leading_zeros(trim_leading_zeros(s)) == trim_leading_zeros(s),
        all_digits(s) ==> all_digits(trim_leading_zeros(s)),
    decreases s.len(),
{
    if s.len() > 1 && s[0] == '0' {
        let t = s.skip(1);
        lemma_trim_leading_zeros(t);
        let r = trim_leading_zeros(t);
        assert(t.skip(t.len() - r.len()) =~= s.skip(s.len() - r.len()));
        if all_digits(s) {
            assert forall|i: int| 0 <= i < t.len() implies is_digit_char(#[trigger] t[i]) by {
                assert(t[i] == s[i + 1]);
            }
        }
    } else {
        assert(s.skip(0) =~= s);
    }
}

/// What trimming trailing zeros keeps.
pub proof fn lemma_trim_trailing_zeros(s: Seq<char>)
    ensures
        trim_trailing_zeros(s).len() <= s.len(),
        trim_trailing_zeros(s) == s.take(trim_trailing_zeros(s).len() as int),
        trim_trailing_zeros(s).len() == 0 || trim_trailing_zeros(s).last() != '0',
        trim_trailing_zeros(trim_trailing_zeros(s)) == trim_trailing_zeros(s),
        all_digits(s) ==> all_digits(trim_trailing_zeros(s)),
    decreases s.len(),
{
    if s.len() > 0 && s.last() == '0' {
        let t = s.drop_last();
        lemma_trim_trailing_zeros(t);
        let r = trim_trailing_zeros(t);
        assert(t.take(r.len() as int) =~= s.take(r.len() as int));
        if all_digits(s) {
            assert forall|i: int| 0 <= i < t.len() implies is_digit_char(#[trigger] t[i]) by {
                assert(t[i] == s[i]);
            }
        }
    } else {
        assert(s.take(s.len() as int) =~= s);
    }
}

/// A text made of digits, a point and digits splits at the point.
pub proof fn lemma_decimal_parts(whole: Seq<char>, fraction: Seq<char>)
    requires
        all_digits(whole),
        all_digits(fraction),
    ensures
        dot_index(whole) == whole.len(),
        whole_part(whole) == whole,
        fraction_part(whole) == Seq::<char>::empty(),
        dot_index(whole + seq!['.'] + fraction) == whole.len(),
        whole_part(whole + seq!['.'] + fraction) == whole,
        fraction_part(whole + seq!['.'] + fraction) == fraction,
{
    let p = not_char('.');
    assert forall|j: int| 0 <= j < whole.len() implies p(#[trigger] whole[j]) by {
        assert(is_digit_char(whole[j]));
    }
    lemma_span_end_unique(whole, 0, whole.len() as int, p);
    assert(whole.take(whole.len() as int) =~= whole);
    let s = whole + seq!['.'] + fraction;
    assert forall|j: int| 0 <= j < whole.len() implies p(#[trigger] s[j]) by {
        assert(s[j] == whole[j]);
        assert(is_digit_char(whole[j]));
    }
    assert(s[whole.len() as int] == '.');
    lemma_span_end_unique(s, 0, whole.len() as int, p);
    assert(s.take(whole.len() as int) =~= whole);
    assert(s.skip(whole.len() as int + 1) =~= fraction);
}

/// The shortest form of a decimal is a decimal in its shortest form.
pub proof fn lemma_canonical_decimal(s: Seq<char>)
    requires
        is_decimal(s),
    ensures
        is_canonical_decimal(canonical_decimal(s)),
{
    let whole = trim_leading_zeros(whole_part(s));
    let fraction = trim_trailing_zeros(fraction_part(s));
    lemma_trim_leading_zeros(whole_part(s));
    lemma_trim_trailing_zeros(fraction_part(s));
    if dot_index(s) >= s.len() {
        assert(all_digits(fraction_part(s)));
    }
    lemma_decimal_parts(whole, fraction);
    let r = canonical_decimal(s);
    if fraction.len() == 0 {
        assert(trim_trailing_zeros(Seq::<char>::empty()) =~= Seq::<char>::empty());
        assert(canonical_decimal(r) =~= r);
    } else {
        assert(canonical_decimal(r) =~= r);
    }
}

/// A decimal holds digits and at most one point, nothing else.
pub proof fn lemma_decimal_chars(s: Seq<char>)
    requires
        is_decimal(s),
    ensures
        forall|j: int| 0 <= j < s.len() ==> is_digit_char(#[trigger] s[j]) || s[j] == '.',
{
    let d = dot_index(s);
    assert forall|j: int| 0 <= j < s.len() implies is_digit_char(#[trigger] s[j]) || s[j]
        == '.' by {
        if j < d {
            assert(whole_part(s)[j] == s[j]);
        } else if j == d {
            crate::text::lemma_span_end_run(s, 0, not_char('.'));
        } else {
            assert(fraction_part(s)[j - d - 1] == s[j]);
        }
    }
}

/// A number as it was written: a decimal in its shortest form. The value is
/// exact; no rounding to a binary format takes place.
#[derive(Debug)]
pub struct Number {
    text: String,
}

impl View for Number {
    type V = Seq<char>;

    closed spec fn view(&self) -> Seq<char> {
        self.text@
    }
}

impl Number {
    #[verifier::type_invariant]
    spec fn shortest_form(&self) -> bool {
        is_canonical_decimal(self.text@)
    }

    /// Reads a decimal. `None` where `text` is not digits, optionally followed
    /// by a point and digits.
    pub fn from_text(text: &str) -> (number: Option<Number>)
        ensures
            number is Some <==> is_decimal(text@),
            number matches Some(n) ==> n@ == canonical_decimal(text@),
    {
        let v = chars_of(text);
        let n: usize = v.len();
        let ghost not_dot = not_char('.');
        let mut d: usize = 0;
        while d < n && v[d] != '.'
            invariant
                d <= n,
                n == v.len(),
                forall|j: int| 0 <= j < d ==> v@[j] != '.',
            decreases n - d,
        {
            d += 1;
        }
        proof {
            assert forall|j: int| 0 <= j < d implies not_dot(#[trigger] v@[j]) by {}
            lemma_span_end_unique(v@, 0, d as int, not_dot);
            assert(dot_index(v@) == d);
        }
        if d == 0 || !Self::digits_only(&v, 0, d) {
            return None;
        }
        if d < n && (d + 1 == n || !Self::digits_only(&v, d + 1, n)) {
            return None;
        }
        proof {
            assert(v@.take(d as int) =~= v@.subrange(0, d as int));
            if d < n {
                assert(v@.skip(d + 1) =~= v@.subrange(d + 1, n as int));
            }
            assert(is_decimal(v@));
        }
        let mut a: usize = 0;
        while a + 1 < d && v[a] == '0'
            invariant
                a < d <= n,
                n == v.len(),
                trim_leading_zeros(whole_part(v@)) == trim_leading_zeros(
                    v@.subrange(a as int, d as int),
                ),
            decreases d - a,
        {
            assert(v@.subrange(a as int, d as int).skip(1) =~= v@.subrange(a + 1, d as int));
            a += 1;
        }
        let mut b: usize = n;
        if d < n {
            while b > d + 1 && v[b - 1] == '0'
                invariant
                    d + 1 <= b <= n,
                    n == v.len(),
                    trim_trailing_zeros(fraction_part(v@)) == trim_trailing_zeros(
                        v@.subrange(d + 1, b as int),
                    ),
                decreases b - d,
            {
                assert(v@.subrange(d + 1, b as int).drop_last() =~= v@.subrange(d + 1, b - 1));
                b -= 1;
            }
        }
        let mut out = string_of(&v, a, d);
        if d < n && b > d + 1 {
            push_char(&mut out, '.');
            let mut i: usize = d + 1;
            while i < b
                invariant
                    d + 1 <= i <= b <= n,
                    n == v.len(),
                    out@ == v@.subrange(a as int, d as int) + seq!['.'] + v@.subrange(
                        d + 1,
                        i as int,
                    ),
                decreases b - i,
            {
                push_char(&mut out, v[i]);
                assert(v@.subrange(d + 1, i + 1) =~= v@.subrange(d + 1, i as int).push(v@[i as int]));
                i += 1;
            }
        }
        proof {
            assert(out@ =~= canonical_decimal(v@));
            lemma_canonical_decimal(v@);
        }
        Some(Number { text: out })
    }

    /// Whether `v[from..to]` holds digits only.
    fn digits_only(v: &Vec<char>, from: usize, to: usize) -> (yes: bool)
        requires
            from <= to <= v.len(),
        ensures
            yes == all_digits(v@.subrange(from as int, to as int)),
    {
        let mut i: usize = from;
        while i < to
            invariant
                from <= i <= to <= v.len(),
                forall|j: int| from <= j < i ==> is_digit_char(#[trigger] v@[j]),
            decreases to - i,
        {
            let c: char = v[i];
            if !(c >= '0' && c <= '9') {
                assert(!is_digit_char(v@.subrange(from as int, to as int)[i - from]));
                return false;
            }
            i += 1;
        }
        true
    }

    /// The number's text.
    pub fn as_str(&self) -> (text: &str)
        ensures
            text@ == self@,
            is_canonical_decimal(self@),
    {
        proof {
            use_type_invariant(self);
        }
        self.text.as_str()
    }

    /// The number's text, as an owned string.
    pub fn to_string(&self) -> (text: String)
        ensures
            text@ == self@,
            is_canonical_decimal(self@),
    {
        proof {
            use_type_invariant(self);
        }
        self.text.clone()
    }
}

impl Clone for Number {
    fn clone(&self) -> (copy: Number)
        ensures
            copy@ == self@,
    {
        proof {
            use_type_invariant(self);
        }
        Number { text: self.text.clone() }
    }
}

/// The typed payload of a literal token.
#[derive(Debug)]
#[allow(inconsistent_fields)]
pub enum Literal {
    /// The characters of a string literal, and whether its closing quote was
    /// seen before the input ended.
    Str { val: String, terminated: bool },
    /// The value of a number literal.
    Num { val: Number },
}

/// A literal as contracts see it.
#[allow(inconsistent_fields)]
pub enum LiteralView {
    Str { val: Seq<char>, terminated: bool },
    Num { val: Seq<char> },
}

impl View for Literal {
    type V = LiteralView;

    open spec fn view(&self) -> LiteralView {
        match self {
            Literal::Str { val, terminated } => LiteralView::Str {
                val: val@,
                terminated: *terminated,
            },
            Literal::Num { val } => LiteralView::Num { val: val@ },
        }
    }
}

impl Clone for Literal {
    fn clone(&self) -> (copy: Literal)
        ensures
            copy@ == self@,
    {
        match self {
            Literal::Str { val, terminated } => Literal::Str {
                val: val.clone(),
                terminated: *terminated,
            },
            Literal::Num { val } => Literal::Num { val: val.clone() },
        }
    }
}

/// A classified, line-tagged piece of the input.
#[derive(Debug)]
pub struct Token {
    pub kind: TokenKind,
    /// The source text that the token was scanned from.
    pub lexeme: String,
    /// The 1-based line that the token is attributed to.
    pub line: u32,
    pub literal: Option<Literal>,
}

/// A token as contracts see it.
pub struct TokenView {
    pub kind: TokenKind,
    pub lexeme: Seq<char>,
    pub line: u32,
    pub literal: Option<LiteralView>,
}

/// The view of an optional literal.
pub open spec fn literal_view(literal: Option<Literal>) -> Option<LiteralView> {
    match literal {
        Some(l) => Some(l@),
        None => None,
    }
}

impl View for Token {
    type V = TokenView;

    open spec fn view(&self) -> TokenView {
        TokenView {
            kind: self.kind,
            lexeme: self.lexeme@,
            line: self.line,
            literal: literal_view(self.literal),
        }
    }
}

/// The views of a sequence of tokens.
pub open spec fn token_views(tokens: Seq<Token>) -> Seq<TokenView> {
    Seq::new(tokens.len(), |i: int| tokens[i]@)
}

/// How a literal is shown after its token.
pub open spec fn literal_text(literal: Option<LiteralView>) -> Seq<char> {
    match literal {
        Some(LiteralView::Str { val, terminated }) => (if terminated {
            "terminated"@
        } else {
            "unterminated"@
        }) + " "@ + val,
        Some(LiteralView::Num { val }) => val,
        None => Seq::empty(),
    }
}

/// How a token is shown: its kind, its lexeme and its literal, separated by
/// single spaces.
pub open spec fn token_text(token: TokenView) -> Seq<char> {
    kind_name(token.kind) + " "@ + token.lexeme + " "@ + literal_text(token.literal)
}

impl Token {
    /// A token without a literal.
    pub fn new(kind: TokenKind, lexeme: String, line: u32) -> (token: Token)
        ensures
            token@ == (TokenView { kind, lexeme: lexeme@, line, literal: None }),
    {
        Token { kind, lexeme, line, literal: None }
    }

    /// The same token, carrying `literal`.
    pub fn literal(self, literal: Literal) -> (token: Token)
        ensures
            token@ == (TokenView {
                kind: self.kind,
                lexeme: self.lexeme@,
                line: self.line,
                literal: Some(literal@),
            }),
    {
        Token { kind: self.kind, lexeme: self.lexeme, line: self.line, literal: Some(literal) }
    }

    /// The token as text.
    pub fn to_string(&self) -> (text: String)
        ensures
            text@ == token_text(self@),
    {
        let mut text = self.kind.to_string();
        text.append(" ");
        text.append(self.lexeme.as_str());
        text.append(" ");
        match &self.literal {
            Some(Literal::Str { val, terminated }) => {
                if *terminated {
                    text.append("terminated");
                } else {
                    text.append("unterminated");
                }
                text.append(" ");
                text.append(val.as_str());
            },
            Some(Literal::Num { val }) => {
                text.append(val.as_str());
            },
            None => {},
        }
        assert(text@ =~= token_text(self@));
        text
    }
}

impl Clone for Token {
    fn clone(&self) -> (copy: Token)
        ensures
            copy@ == self@,
    {
        let literal = match &self.literal {
            Some(l) => Some(l.clone()),
            None => None,
        };
        Token { kind: self.kind, lexeme: self.lexeme.clone(), line: self.line, literal }
    }
}

} // verus!

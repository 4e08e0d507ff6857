//! Character sequences: the vocabulary shared by the scanner, the printers and
//! the error reports.
//!
//! Contracts throughout the crate speak of text as `Seq<char>`. The executable
//! helpers here move between `&str`, `String` and `Vec<char>` and say exactly
//! which sequence comes out.

use vstd::prelude::*;

verus! {

/// The character at `i`, or the end marker `'\0'` where `i` is out of range.
pub open spec fn char_at(s: Seq<char>, i: int) -> char {
    if 0 <= i < s.len() {
        s[i]
    } else {
        '\0'
    }
}

/// The end of the longest run of characters satisfying `p` that starts at `i`.
pub open spec fn span_end(s: Seq<char>, i: int, p: spec_fn(char) -> bool) -> int
    decreases s.len() - i,
{
    if 0 <= i < s.len() && p(s[i]) {
        span_end(s, i + 1, p)
    } else {
        i
    }
}

/// Every character but `x`.
pub open spec fn not_char(x: char) -> spec_fn(char) -> bool {
    |c: char| c != x
}

/// `span_end` stays within the text and moves forward only.
pub proof fn lemma_span_end_bounds(s: Seq<char>, i: int, p: spec_fn(char) -> bool)
    requires
        0 <= i <= s.len(),
    ensures
        i <= span_end(s, i, p) <= s.len(),
    decreases s.len() - i,
{
    if i < s.len() && p(s[i]) {
        lemma_span_end_bounds(s, i + 1, p);
    }
}

/// `span_end` is the one position `e` such that every character of `[i, e)`
/// satisfies `p` and the run cannot be extended.
pub proof fn lemma_span_end_unique(s: Seq<char>, i: int, e: int, p: spec_fn(char) -> bool)
    requires
        0 <= i <= e <= s.len(),
        forall|j: int| i <= j < e ==> p(#[trigger] s[j]),
        e < s.len() ==> !p(s[e]),
    ensures
        span_end(s, i, p) == e,
    decreases e - i,
{
    if i < e {
        lemma_span_end_unique(s, i + 1, e, p);
    }
}

/// Every character of the run satisfies `p`, and the character after it does not.
pub proof fn lemma_span_end_run(s: Seq<char>, i: int, p: spec_fn(char) -> bool)
    requires
        0 <= i <= s.len(),
    ensures
        forall|j: int| i <= j < span_end(s, i, p) ==> p(#[trigger] s[j]),
        span_end(s, i, p) < s.len() ==> !p(s[span_end(s, i, p)]),
    decreases s.len() - i,
{
    if i < s.len() && p(s[i]) {
        lemma_span_end_run(s, i + 1, p);
    }
}

/// `'0'` to `'9'`.
pub open spec fn is_digit_char(c: char) -> bool {
    '0' <= c <= '9'
}

/// An ASCII letter or the underscore.
pub open spec fn is_alpha_char(c: char) -> bool {
    ('a' <= c <= 'z') || ('A' <= c <= 'Z') || c == '_'
}

/// A character that may continue an identifier.
pub open spec fn is_alpha_numeric_char(c: char) -> bool {
    is_digit_char(c) || is_alpha_char(c)
}

/// Whether `s` holds decimal digits only.
pub open spec fn all_digits(s: Seq<char>) -> bool {
    forall|i: int| 0 <= i < s.len() ==> is_digit_char(#[trigger] s[i])
}

/// The number of line feeds in `s`.
pub open spec fn count_newlines(s: Seq<char>) -> nat
    decreases s.len(),
{
    if s.len() == 0 {
        0
    } else {
        count_newlines(s.drop_last()) + if s.last() == '\n' {
            1nat
        } else {
            0nat
        }
    }
}

/// Line feeds add up over concatenation.
pub proof fn lemma_count_newlines_add(a: Seq<char>, b: Seq<char>)
    ensures
        count_newlines(a + b) == count_newlines(a) + count_newlines(b),
    decreases b.len(),
{
    if b.len() == 0 {
        assert(a + b =~= a);
    } else {
        assert((a + b).drop_last() =~= a + b.drop_last());
        lemma_count_newlines_add(a, b.drop_last());
    }
}

/// A text holds no more line feeds than characters.
pub proof fn lemma_count_newlines_bound(s: Seq<char>)
    ensures
        count_newlines(s) <= s.len(),
    decreases s.len(),
{
    if s.len() > 0 {
        lemma_count_newlines_bound(s.drop_last());
    }
}

/// The line feeds of a prefix and of the stretch behind it add up, and a
/// prefix holds no more line feeds than the whole.
pub proof fn lemma_count_newlines_take(s: Seq<char>, i: int, j: int)
    requires
        0 <= i <= j <= s.len(),
    ensures
        count_newlines(s.take(j)) == count_newlines(s.take(i)) + count_newlines(s.subrange(i, j)),
        count_newlines(s.take(i)) <= count_newlines(s.take(j)) <= count_newlines(s),
{
    assert(s.take(j) =~= s.take(i) + s.subrange(i, j));
    lemma_count_newlines_add(s.take(i), s.subrange(i, j));
    assert(s =~= s.take(j) + s.skip(j));
    lemma_count_newlines_add(s.take(j), s.skip(j));
}

/// Stepping over one character.
pub proof fn lemma_count_newlines_step(s: Seq<char>, i: int)
    requires
        0 <= i < s.len(),
    ensures
        count_newlines(s.take(i + 1)) == count_newlines(s.take(i)) + if s[i] == '\n' {
            1nat
        } else {
            0nat
        },
{
    assert(s.take(i + 1).drop_last() =~= s.take(i));
}

/// The number of bytes of the UTF-8 encoding of `c`.
pub open spec fn utf8_width(c: char) -> nat {
    if (c as u32) < 0x80 {
        1
    } else if (c as u32) < 0x800 {
        2
    } else if (c as u32) < 0x10000 {
        3
    } else {
        4
    }
}

/// The number of bytes of the UTF-8 encoding of `s`.
pub open spec fn utf8_len(s: Seq<char>) -> nat
    decreases s.len(),
{
    if s.len() == 0 {
        0
    } else {
        utf8_len(s.drop_last()) + utf8_width(s.last())
    }
}

/// The number of bytes that `c` takes in UTF-8.
pub fn char_width(c: char) -> (w: u32)
    ensures
        w == utf8_width(c),
{
    let code: u32 = c as u32;
    if code < 0x80 {
        1
    } else if code < 0x800 {
        2
    } else if code < 0x10000 {
        3
    } else {
        4
    }
}

/// `String::push`: the string afterwards is the string before with `c` at its end.
#[verifier::external_body]
pub(crate) fn push_char(s: &mut String, c: char)
    ensures
        final(s)@ == old(s)@.push(c),
{
    s.push(c)
}

/// The characters of `s`, in order.
pub fn chars_of(s: &str) -> (v: Vec<char>)
    ensures
        v@ == s@,
{
    let mut v: Vec<char> = Vec::new();
    for c in it: s.chars()
        invariant
            v@ == it.seq().take(it.index() as int),
            it.seq() == s@,
    {
        v.push(c);
    }
    v
}

/// The text made of the characters `v[from..to]`.
pub fn string_of(v: &Vec<char>, from: usize, to: usize) -> (s: String)
    requires
        from <= to <= v.len(),
    ensures
        s@ == v@.subrange(from as int, to as int),
{
    let mut s = String::new();
    let mut i: usize = from;
    while i < to
        invariant
            from <= i <= to <= v.len(),
            s@ == v@.subrange(from as int, i as int),
        decreases to - i,
    {
        push_char(&mut s, v[i]);
        assert(v@.subrange(from as int, i + 1) =~= v@.subrange(from as int, i as int).push(
            v@[i as int],
        ));
        i += 1;
    }
    s
}

/// Whether two texts hold the same characters.
pub fn str_eq(a: &str, b: &str) -> (same: bool)
    ensures
        same == (a@ == b@),
{
    let n: usize = a.unicode_len();
    if n != b.unicode_len() {
        return false;
    }
    let mut i: usize = 0;
    while i < n
        invariant
            i <= n,
            n == a@.len(),
            n == b@.len(),
            forall|j: int| 0 <= j < i ==> a@[j] == b@[j],
        decreases n - i,
    {
        if a.get_char(i) != b.get_char(i) {
            return false;
        }
        i += 1;
    }
    assert(a@ =~= b@);
    true
}

/// The decimal digit for `d`.
pub open spec fn digit_char(d: int) -> char {
    if d == 0 {
        '0'
    } else if d == 1 {
        '1'
    } else if d == 2 {
        '2'
    } else if d == 3 {
        '3'
    } else if d == 4 {
        '4'
    } else if d == 5 {
        '5'
    } else if d == 6 {
        '6'
    } else if d == 7 {
        '7'
    } else if d == 8 {
        '8'
    } else {
        '9'
    }
}

/// `n` written in decimal, without a sign or leading zeros.
pub open spec fn decimal(n: nat) -> Seq<char>
    decreases n,
{
    if n < 10 {
        seq![digit_char(n as int)]
    } else {
        decimal(n / 10).push(digit_char((n % 10) as int))
    }
}

fn digit_of(d: u32) -> (c: char)
    requires
        d < 10,
    ensures
        c == digit_char(d as int),
{
    if d == 0 {
        '0'
    } else if d == 1 {
        '1'
    } else if d == 2 {
        '2'
    } else if d == 3 {
        '3'
    } else if d == 4 {
        '4'
    } else if d == 5 {
        '5'
    } else if d == 6 {
        '6'
    } else if d == 7 {
        '7'
    } else if d == 8 {
        '8'
    } else {
        '9'
    }
}

/// Appends `n` in decimal to `out`.
pub fn push_decimal(out: &mut String, n: u32)
    ensures
        final(out)@ == old(out)@ + decimal(n as nat),
    decreases n,
{
    if n >= 10 {
        push_decimal(out, n / 10);
    }
    push_char(out, digit_of(n % 10));
    assert(final(out)@ =~= old(out)@ + decimal(n as nat));
}

/// `n` in decimal.
pub fn u32_to_string(n: u32) -> (s: String)
    ensures
        s@ == decimal(n as nat),
{
    let mut s = String::new();
    push_decimal(&mut s, n);
    assert(s@ =~= decimal(n as nat));
    s
}

} // verus!

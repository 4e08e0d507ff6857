//! A cursor over the characters of an input: one character of state, two of
//! lookahead.

use crate::text::{char_at, char_width, chars_of, utf8_len, utf8_width};
use vstd::prelude::*;

verus! {

/// What `first`, `second` and `prev` return where there is no character.
pub const EOF_CHAR: char = '\0';

/// A position in an input text, with the line that the scanner has counted
/// so far and a resettable count of the bytes consumed.
pub struct Cursor {
    /// The whole input.
    pub chars: Vec<char>,
    /// The number of characters consumed so far.
    pub pos: usize,
    /// The position at which the count of consumed bytes was last reset.
    pub mark: usize,
    /// The bytes consumed since the last reset, modulo 2^32.
    pub consumed: u32,
    /// The current line, starting at 1. The cursor itself never changes it:
    /// the scanner counts the line feeds of what it consumes.
    pub line: u32,
}

impl Cursor {
    /// The whole input.
    pub open spec fn text(&self) -> Seq<char> {
        self.chars@
    }

    /// The number of characters consumed so far.
    pub open spec fn position(&self) -> int {
        self.pos as int
    }

    /// The position at which the count of consumed bytes was last reset.
    pub open spec fn counted_from(&self) -> int {
        self.mark as int
    }

    /// The cursor's validity: it stands within its input, and its byte count
    /// is that of the characters consumed since the last reset, modulo 2^32.
    pub open spec fn wf(&self) -> bool {
        &&& self.mark <= self.pos <= self.chars.len()
        &&& self.consumed as int == utf8_len(
            self.chars@.subrange(self.mark as int, self.pos as int),
        ) % 0x1_0000_0000
    }

    /// The input that is still to be consumed.
    pub open spec fn remaining(&self) -> Seq<char> {
        self.text().skip(self.position())
    }

    /// A cursor at the start of `input`, on line 1.
    pub fn new(input: &str) -> (cursor: Cursor)
        ensures
            cursor.wf(),
            cursor.text() == input@,
            cursor.position() == 0,
            cursor.counted_from() == 0,
            cursor.line == 1,
    {
        let chars = chars_of(input);
        assert(chars@.subrange(0, 0) =~= Seq::<char>::empty());
        Cursor { chars, pos: 0, mark: 0, consumed: 0, line: 1 }
    }

    /// The last character consumed, `EOF_CHAR` before the first.
    pub fn prev(&self) -> (c: char)
        ensures
            c == char_at(self.text(), self.position() - 1),
    {
        if 0 < self.pos && self.pos <= self.chars.len() {
            self.chars[self.pos - 1]
        } else {
            EOF_CHAR
        }
    }

    /// The next character, without consuming it; `EOF_CHAR` at the end.
    pub fn first(&self) -> (c: char)
        ensures
            c == char_at(self.text(), self.position()),
    {
        if self.pos < self.chars.len() {
            self.chars[self.pos]
        } else {
            EOF_CHAR
        }
    }

    /// The character after the next, without consuming anything; `EOF_CHAR`
    /// where there is none.
    pub fn second(&self) -> (c: char)
        ensures
            c == char_at(self.text(), self.position() + 1),
    {
        if self.pos < self.chars.len() && self.pos + 1 < self.chars.len() {
            self.chars[self.pos + 1]
        } else {
            EOF_CHAR
        }
    }

    /// Whether the whole input has been consumed.
    pub fn is_eof(&self) -> (at_end: bool)
        ensures
            at_end == (self.position() == self.text().len()),
    {
        self.pos == self.chars.len()
    }

    /// The number of bytes consumed since the last reset, modulo 2^32.
    pub fn len_consumed(&self) -> (bytes: u32)
        requires
            self.wf(),
        ensures
            bytes as int == utf8_len(
                self.text().subrange(self.counted_from(), self.position()),
            ) % 0x1_0000_0000,
    {
        self.consumed
    }

    /// Starts the count of consumed bytes anew.
    pub fn reset_len_consumed(&mut self)
        requires
            old(self).wf(),
        ensures
            final(self).wf(),
            final(self).text() == old(self).text(),
            final(self).position() == old(self).position(),
            final(self).line == old(self).line,
            final(self).counted_from() == old(self).position(),
    {
        self.mark = self.pos;
        self.consumed = 0;
        assert(self.chars@.subrange(self.pos as int, self.pos as int) =~= Seq::<char>::empty());
    }

    /// Consumes the next character and returns it; `None` at the end of the
    /// input, where nothing changes.
    pub fn advance(&mut self) -> (eaten: Option<char>)
        requires
            old(self).wf(),
        ensures
            final(self).wf(),
            final(self).text() == old(self).text(),
            final(self).line == old(self).line,
            final(self).counted_from() == old(self).counted_from(),
            old(self).position() < old(self).text().len() ==> eaten == Some(
                old(self).text()[old(self).position()],
            ) && final(self).position() == old(self).position() + 1,
            old(self).position() >= old(self).text().len() ==> eaten is None
                && final(self).position() == old(self).position(),
    {
        if self.pos < self.chars.len() {
            let c: char = self.chars[self.pos];
            proof {
                let before = self.chars@.subrange(self.mark as int, self.pos as int);
                let after = self.chars@.subrange(self.mark as int, self.pos + 1);
                assert(after.drop_last() =~= before);
                assert(after.last() == c);
                assert(utf8_len(after) == utf8_len(before) + utf8_width(c));
            }
            self.consumed = self.consumed.wrapping_add(char_width(c));
            self.pos = self.pos + 1;
            Some(c)
        } else {
            None
        }
    }

    /// Consumes characters for as long as `predicate` accepts the next one and
    /// the input has not ended.
    pub fn eat_while<F: Fn(char) -> bool>(&mut self, predicate: F)
        requires
            old(self).wf(),
            forall|c: char| predicate.requires((c,)),
        ensures
            final(self).wf(),
            final(self).text() == old(self).text(),
            final(self).line == old(self).line,
            final(self).counted_from() == old(self).counted_from(),
            old(self).position() <= final(self).position() <= old(self).text().len(),
            forall|i: int|
                old(self).position() <= i < final(self).position() ==> predicate.ensures(
                    (#[trigger] old(self).text()[i],),
                    true,
                ),
            final(self).position() < old(self).text().len() ==> predicate.ensures(
                (old(self).text()[final(self).position()],),
                false,
            ),
    {
        while !self.is_eof()
            invariant
                self.wf(),
                self.text() == old(self).text(),
                self.line == old(self).line,
                self.counted_from() == old(self).counted_from(),
                old(self).position() <= self.position() <= self.text().len(),
                forall|c: char| predicate.requires((c,)),
                forall|i: int|
                    old(self).position() <= i < self.position() ==> predicate.ensures(
                        (#[trigger] old(self).text()[i],),
                        true,
                    ),
            decreases self.text().len() - self.position(),
        {
            if !predicate(self.first()) {
                return ;
            }
            self.advance();
        }
    }
}

} // verus!

//! The character cursor the tokenizer walks, with built-in lookahead helpers.

use crate::types::{annotate, position_after, AsStr, Position, Positional, Span, Spannable, Stream};
use crate::unicode::str_chars;
use vstd::prelude::*;

verus! {

/// A cursor over the characters of a buffer that tracks the position of the
/// character under the cursor and can look ahead without consuming.
#[derive(Debug, Clone)]
pub struct TokenizerChars<'buf> {
    pub buf: &'buf str,
    pub chars: Vec<char>,
    pub pos: Position,
}

impl<'buf> TokenizerChars<'buf> {
    /// The whole buffer, as characters.
    pub open spec fn text(&self) -> Seq<char> {
        self.chars@
    }

    /// The index of the character under the cursor.
    pub open spec fn at(&self) -> int {
        self.pos.offset as int
    }

    /// The characters still to be read.
    pub open spec fn rest(&self) -> Seq<char> {
        self.text().skip(self.at())
    }

    /// The cursor holds the buffer's own characters, stands inside it, and
    /// its line and column stay small enough to keep advancing.
    pub open spec fn inv(&self) -> bool {
        &&& self.chars@ == self.buf@
        &&& self.pos.offset <= self.chars@.len()
        &&& self.chars@.len() < usize::MAX
        &&& self.pos.line <= self.pos.offset + 1
        &&& self.pos.column <= self.pos.offset
    }

    /// Create a cursor at the start of `buf`.
    pub fn new(buf: &'buf str) -> (r: TokenizerChars<'buf>)
        requires
            buf@.len() < usize::MAX,
        ensures
            r.inv(),
            r.buf == buf,
            r.at() == 0,
            r.pos == (Position { line: 1, column: 0, offset: 0 }),
            r.text() == buf@,
    {
        TokenizerChars { buf, chars: str_chars(buf), pos: Position::default() }
    }

    /// Move the cursor past the character under it, returning the character
    /// and the position it stood at.
    pub fn next_ch(&mut self) -> (r: Option<(Position, char)>)
        requires
            old(self).inv(),
        ensures
            final(self).inv(),
            final(self).buf == old(self).buf,
            final(self).chars == old(self).chars,
            match r {
                Some(pc) => old(self).rest().len() > 0 && pc.0 == old(self).pos && pc.1 == old(
                    self,
                ).rest()[0] && final(self).at() == old(self).at() + 1 && final(self).pos
                    == position_after(old(self).pos, old(self).rest()[0]),
                None => old(self).rest().len() == 0 && *final(self) == *old(self),
            },
    {
        if self.pos.offset < self.chars.len() {
            let ch = self.chars[self.pos.offset];
            let item = (self.pos, ch);
            self.pos = self.pos.extend(ch);
            Some(item)
        } else {
            None
        }
    }

    /// The characters from `from` up to the cursor, as a string.
    pub fn lexeme(&self, from: usize) -> (r: String)
        requires
            self.inv(),
            from <= self.pos.offset,
        ensures
            r@ == self.text().subrange(from as int, self.at()),
    {
        let mut v: Vec<char> = Vec::new();
        let mut i: usize = from;
        while i < self.pos.offset
            invariant
                from <= i <= self.pos.offset,
                self.inv(),
                v@ == self.text().subrange(from as int, i as int),
            decreases self.pos.offset - i,
        {
            v.push(self.chars[i]);
            i = i + 1;
            proof {
                assert(self.text().subrange(from as int, i as int) =~= self.text().subrange(
                    from as int,
                    i - 1,
                ).push(self.text()[i - 1]));
            }
        }
        crate::unicode::chars_to_string(&v)
    }

    /// The character under the cursor, with its position, without moving.
    pub fn peek(&self) -> (r: Option<(Position, char)>)
        requires
            self.inv(),
        ensures
            match r {
                Some(pc) => self.rest().len() > 0 && pc.0 == self.pos && pc.1 == self.rest()[0],
                None => self.rest().len() == 0,
            },
    {
        if self.pos.offset < self.chars.len() {
            Some((self.pos, self.chars[self.pos.offset]))
        } else {
            None
        }
    }

    /// The position of the character under the cursor.
    pub fn pos(&self) -> (r: Position)
        ensures
            r == self.pos,
    {
        self.pos
    }

    /// The buffer the cursor walks.
    pub fn as_str(&self) -> (r: &'buf str)
        ensures
            r == self.buf,
    {
        self.buf
    }

    /// Consume and return the next character only if `func` accepts it.
    pub fn next_if<F: Fn(&(Position, char)) -> bool>(&mut self, func: F) -> (r: Option<
        (Position, char),
    >)
        requires
            old(self).inv(),
            forall|x: &(Position, char)| #[trigger] func.requires((x,)),
        ensures
            final(self).inv(),
            final(self).buf == old(self).buf,
            final(self).chars == old(self).chars,
            match r {
                Some(pc) => old(self).rest().len() > 0 && pc.0 == old(self).pos && pc.1 == old(
                    self,
                ).rest()[0] && final(self).at() == old(self).at() + 1 && func.ensures((&pc,), true),
                None => final(self).pos == old(self).pos && (old(self).rest().len() > 0
                    ==> func.ensures((&(old(self).pos, old(self).rest()[0]),), false)),
            },
    {
        match self.peek() {
            Some(pc) => {
                if func(&pc) {
                    self.next_ch();
                    Some(pc)
                } else {
                    None
                }
            },
            None => None,
        }
    }
}

impl<'buf> Stream for TokenizerChars<'buf> {
    type Item = (Position, char);

    open spec fn wf(&self) -> bool {
        self.inv()
    }

    open spec fn remaining(&self) -> Seq<(Position, char)> {
        annotate(self.pos, self.rest())
    }

    /// Move the cursor past the character under it.
    fn next(&mut self) -> (r: Option<(Position, char)>) {
        let r = self.next_ch();
        proof {
            let s = old(self).rest();
            if s.len() > 0 {
                assert(annotate(old(self).pos, s)[0] == (old(self).pos, s[0]));
                assert(annotate(old(self).pos, s).drop_first() =~= annotate(
                    position_after(old(self).pos, s[0]),
                    s.drop_first(),
                ));
                assert(self.rest() =~= s.drop_first());
            }
        }
        r
    }
}

impl<'buf> Positional for TokenizerChars<'buf> {
    /// The position of the character under the cursor.
    fn pos(&self) -> Position {
        self.pos
    }
}

impl<'buf> Spannable<'buf> for TokenizerChars<'buf> {
    /// An empty span at the cursor.
    fn span(&self) -> Span<'buf> {
        Span::new(self.pos, self.pos, self.buf)
    }

    /// A span from the cursor to `to`.
    fn span_to(&self, to: Position) -> Span<'buf> {
        Span::new(self.pos, to, self.buf)
    }
}

impl<'buf> AsStr<'buf> for TokenizerChars<'buf> {
    /// The buffer the cursor walks.
    fn as_str(&self) -> &'buf str {
        self.buf
    }
}

} // verus!

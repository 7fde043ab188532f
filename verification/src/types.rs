//! Source locations and the peekable stream the lexers run on.

use vstd::prelude::*;
use vstd::std_specs::iter::IteratorSpec;

verus! {

/// A location in a source buffer: one-based line, column within the line,
/// and the index of the character from the start of the buffer.
#[derive(Debug, Clone, Copy, PartialEq, Eq, Structural)]
pub struct Position {
    pub line: usize,
    pub column: usize,
    pub offset: usize,
}

/// The location a position moves to after reading one character:
/// a line break starts the next line, anything else advances the column.
pub open spec fn position_after(p: Position, ch: char) -> Position {
    if ch == '\n' {
        Position { line: (p.line + 1) as usize, column: 1, offset: (p.offset + 1) as usize }
    } else {
        Position { line: p.line, column: (p.column + 1) as usize, offset: (p.offset + 1) as usize }
    }
}

/// The location a position moves to after reading a whole sequence.
pub open spec fn position_after_seq(p: Position, s: Seq<char>) -> Position
    decreases s.len(),
{
    if s.len() == 0 {
        p
    } else {
        position_after_seq(position_after(p, s[0]), s.drop_first())
    }
}

impl Position {
    /// Advance past one character.
    pub fn extend(self, ch: char) -> (r: Position)
        requires
            self.line < usize::MAX,
            self.column < usize::MAX,
            self.offset < usize::MAX,
        ensures
            r == position_after(self, ch),
    {
        let mut next = self;
        if ch == '\n' {
            next.line = next.line + 1;
            next.column = 1;
        } else {
            next.column = next.column + 1;
        }
        next.offset = next.offset + 1;
        next
    }

    /// Advance past every character of a string in order.
    pub fn extend_str(self, value: &str) -> (r: Position)
        requires
            self.line + value@.len() <= usize::MAX,
            self.column + value@.len() <= usize::MAX,
            self.offset + value@.len() <= usize::MAX,
        ensures
            r == position_after_seq(self, value@),
    {
        let ghost all = value@;
        let mut here = self;
        let mut it = value.chars();
        let ghost mut taken: int = 0;
        loop
            invariant
                0 <= taken <= all.len(),
                it.remaining() == all.skip(taken),
                here == position_after_seq(self, all.take(taken)),
                here.line <= self.line + taken,
                here.column <= self.column + taken,
                here.offset == self.offset + taken,
                self.line + all.len() <= usize::MAX,
                self.column + all.len() <= usize::MAX,
                self.offset + all.len() <= usize::MAX,
            ensures
                here == position_after_seq(self, all),
            decreases all.len() - taken,
        {
            match it.next() {
                Some(ch) => {
                    proof {
                        assert(all.skip(taken).len() > 0);
                        assert(all.take(taken + 1) == all.take(taken).push(all[taken]));
                        lemma_position_after_seq_push(self, all.take(taken), all[taken]);
                    }
                    here = here.extend(ch);
                    proof {
                        taken = taken + 1;
                    }
                }
                None => {
                    proof {
                        assert(all.skip(taken).len() == 0);
                        assert(taken == all.len());
                        assert(all.take(taken) =~= all);
                    }
                    break;
                }
            }
        }
        here
    }
}

/// Moving past a sequence and then one more character is the same as moving
/// past the sequence with that character appended.
pub proof fn lemma_position_after_seq_push(p: Position, s: Seq<char>, ch: char)
    ensures
        position_after_seq(p, s.push(ch)) == position_after(position_after_seq(p, s), ch),
    decreases s.len(),
{
    let t = s.push(ch);
    assert(t.len() == s.len() + 1);
    if s.len() == 0 {
        assert(t[0] == ch);
        assert(t.drop_first() =~= Seq::<char>::empty());
        assert(position_after_seq(p, t) == position_after_seq(
            position_after(p, ch),
            t.drop_first(),
        ));
        assert(position_after_seq(position_after(p, ch), t.drop_first()) == position_after(
            p,
            ch,
        ));
        assert(position_after_seq(p, s) == p);
    } else {
        assert(t[0] == s[0]);
        assert(t.drop_first() =~= s.drop_first().push(ch));
        assert(position_after_seq(p, t) == position_after_seq(
            position_after(p, s[0]),
            s.drop_first().push(ch),
        ));
        lemma_position_after_seq_push(position_after(p, s[0]), s.drop_first(), ch);
        assert(position_after_seq(p, s) == position_after_seq(
            position_after(p, s[0]),
            s.drop_first(),
        ));
    }
}

/// A region of a source buffer between two positions, kept for diagnostics.
/// Offsets count characters from the start of the buffer.
#[derive(Debug, Clone)]
pub struct Span<'buf> {
    pub beg: Position,
    pub end: Position,
    pub buf: &'buf str,
}

impl<'buf> Span<'buf> {
    /// A span of nothing at the start of an empty buffer.
    pub fn eof() -> (r: Span<'buf>)
        ensures
            r.beg == (Position { line: 1, column: 0, offset: 0 }),
            r.end == (Position { line: 1, column: 0, offset: 0 }),
            r.buf@ == Seq::<char>::empty(),
    {
        proof {
            reveal_strlit("");
            assert(""@ =~= Seq::<char>::empty());
        }
        Span { beg: Position::default(), end: Position::default(), buf: "" }
    }

    /// A span over `buf` from `beg` up to (not including) `end`.
    pub fn new(beg: Position, end: Position, buf: &'buf str) -> (r: Span<'buf>)
        ensures
            r.beg == beg,
            r.end == end,
            r.buf == buf,
    {
        Span { beg, end, buf }
    }

    /// The characters the span covers.
    pub fn as_str(&self) -> (r: &'buf str)
        requires
            self.beg.offset <= self.end.offset <= self.buf@.len(),
        ensures
            r@ == self.buf@.subrange(self.beg.offset as int, self.end.offset as int),
    {
        self.buf.substring_char(self.beg.offset, self.end.offset)
    }
}

impl Default for Position {
    /// The start of a buffer: line one, before the first column.
    fn default() -> (r: Self)
        ensures
            r == (Position { line: 1, column: 0, offset: 0 }),
    {
        Position { line: 1, column: 0, offset: 0 }
    }
}

/// Pair every character of a sequence with the position it starts at,
/// beginning from `p`.
pub open spec fn annotate(p: Position, s: Seq<char>) -> Seq<(Position, char)>
    decreases s.len(),
{
    if s.len() == 0 {
        Seq::empty()
    } else {
        seq![(p, s[0])] + annotate(position_after(p, s[0]), s.drop_first())
    }
}

/// Something with a current source position.
pub trait Positional {
    fn pos(&self) -> Position;
}

/// Something that can describe where it stands in a buffer as a span.
pub trait Spannable<'buf> {
    fn span(&self) -> Span<'buf>;

    fn span_to(&self, to: Position) -> Span<'buf>;
}

/// Something that can hand out the buffer it reads from.
pub trait AsStr<'a> {
    fn as_str(&self) -> &'a str;
}

/// A cursor over a sequence of values, with a ghost view of what is still
/// to come.
pub trait Stream: Sized {
    type Item;

    /// Whether the cursor is in a usable state.
    spec fn wf(&self) -> bool;

    /// The values the cursor will still yield, in order.
    spec fn remaining(&self) -> Seq<Self::Item>;

    /// Yield the next value, or `None` at the end.
    fn next(&mut self) -> (r: Option<Self::Item>)
        requires
            old(self).wf(),
        ensures
            final(self).wf(),
            match r {
                Some(x) => old(self).remaining().len() > 0 && x == old(self).remaining()[0]
                    && final(self).remaining() == old(self).remaining().drop_first(),
                None => old(self).remaining().len() == 0 && final(self).remaining() == old(
                    self,
                ).remaining(),
            },
    ;
}

/// Wrap a stream so that the next value can be looked at without being
/// consumed.
pub trait IntoPeekableExt: Stream {
    fn peekable_ext(self) -> (r: PeekableExt<Self>)
        requires
            self.wf(),
        ensures
            r.wf(),
            r.remaining() == self.remaining(),
    ;
}

impl<I: Stream> IntoPeekableExt for I {
    fn peekable_ext(self) -> (r: PeekableExt<I>) {
        PeekableExt::new(self)
    }
}

/// A stream with a one-value lookahead buffer.
pub struct PeekableExt<I: Stream> {
    iter: I,
    /// Remember a value that was looked at early, even if it was the end.
    peeked: Option<Option<I::Item>>,
}

impl<I: Stream> PeekableExt<I> {
    /// Whether the wrapped cursor is usable and the lookahead buffer agrees
    /// with it.
    pub closed spec fn wf(&self) -> bool {
        &&& self.iter.wf()
        &&& (self.peeked matches Some(None) ==> self.iter.remaining().len() == 0)
    }

    /// The values still to come, lookahead buffer first.
    pub closed spec fn remaining(&self) -> Seq<I::Item> {
        match self.peeked {
            Some(Some(x)) => seq![x] + self.iter.remaining(),
            _ => self.iter.remaining(),
        }
    }

    pub fn new(iter: I) -> (r: PeekableExt<I>)
        requires
            iter.wf(),
        ensures
            r.wf(),
            r.remaining() == iter.remaining(),
    {
        PeekableExt { iter, peeked: None }
    }

    /// Consume and return the next value.
    pub fn next(&mut self) -> (r: Option<I::Item>)
        requires
            old(self).wf(),
        ensures
            final(self).wf(),
            match r {
                Some(x) => old(self).remaining().len() > 0 && x == old(self).remaining()[0]
                    && final(self).remaining() == old(self).remaining().drop_first(),
                None => old(self).remaining().len() == 0 && final(self).remaining() == old(
                    self,
                ).remaining(),
            },
    {
        let mut taken: Option<Option<I::Item>> = None;
        core::mem::swap(&mut taken, &mut self.peeked);
        match taken {
            Some(v) => {
                proof {
                    if v is Some {
                        assert(old(self).remaining().drop_first() =~= self.iter.remaining());
                    }
                }
                v
            },
            None => self.iter.next(),
        }
    }

    /// Look at the next value without consuming it.
    pub fn peek(&mut self) -> (r: Option<&I::Item>)
        requires
            old(self).wf(),
        ensures
            final(self).wf(),
            final(self).remaining() == old(self).remaining(),
            match r {
                Some(x) => old(self).remaining().len() > 0 && *x == old(self).remaining()[0],
                None => old(self).remaining().len() == 0,
            },
    {
        if self.peeked.is_none() {
            let n = self.iter.next();
            self.peeked = Some(n);
            proof {
                if n is Some {
                    assert(self.remaining() =~= old(self).remaining());
                }
            }
        }
        match &self.peeked {
            Some(Some(x)) => Some(x),
            _ => None,
        }
    }

    /// Look at the next value without consuming it, through a mutable
    /// reference: what the caller writes there is what the stream will
    /// yield next.
    pub fn peek_mut(&mut self) -> (r: Option<&mut I::Item>)
        requires
            old(self).wf(),
        ensures
            match r {
                Some(x) => old(self).remaining().len() > 0 && *x == old(self).remaining()[0]
                    && final(self).wf() && final(self).remaining() == old(
                    self,
                ).remaining().update(0, *final(x)),
                None => old(self).remaining().len() == 0 && final(self).wf() && final(self).remaining() == old(self).remaining(),
            },
    {
        if self.peeked.is_none() {
            let n = self.iter.next();
            self.peeked = Some(n);
            proof {
                if n is Some {
                    assert(self.remaining() =~= old(self).remaining());
                }
            }
        }
        match &mut self.peeked {
            Some(Some(x)) => Some(x),
            _ => None,
        }
    }

    /// Consume and return the next value only if `func` accepts it.
    pub fn next_if<F: Fn(&I::Item) -> bool>(&mut self, func: F) -> (r: Option<I::Item>)
        requires
            old(self).wf(),
            forall|x: &I::Item| #[trigger] func.requires((x,)),
        ensures
            final(self).wf(),
            match r {
                Some(x) => old(self).remaining().len() > 0 && x == old(self).remaining()[0]
                    && final(self).remaining() == old(self).remaining().drop_first()
                    && func.ensures((&x,), true),
                None => final(self).remaining() == old(self).remaining() && (old(
                    self,
                ).remaining().len() > 0 ==> func.ensures((&old(self).remaining()[0],), false)),
            },
    {
        let mut taken: Option<Option<I::Item>> = None;
        core::mem::swap(&mut taken, &mut self.peeked);
        let got: Option<I::Item> = match taken {
            Some(v) => v,
            None => self.iter.next(),
        };
        match got {
            Some(matched) => {
                if func(&matched) {
                    proof {
                        assert(final(self).remaining() =~= old(self).remaining().drop_first());
                    }
                    Some(matched)
                } else {
                    self.peeked = Some(Some(matched));
                    proof {
                        assert(self.remaining() =~= old(self).remaining());
                    }
                    None
                }
            },
            None => {
                self.peeked = Some(None);
                None
            },
        }
    }
}

} // verus!

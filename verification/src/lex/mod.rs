//! Lexing: source text to tokens.

pub mod chars;
pub mod error;
pub mod token;

use crate::types::{position_after, position_after_seq, Position, Span};
use crate::unicode::{
    char_alphabetic, char_ascii_digit, char_numeric, char_whitespace, is_alphabetic_char,
    is_ascii_digit_char, is_numeric_char, is_whitespace_char,
};
use chars::LexerChars;
use error::{LexError, LexResult};
use token::{Token, TokenKind};
use vstd::prelude::*;

verus! {

/// How many characters a comment occupies, counted from just after its `#`
/// up to and including the line break that ends it (or the end of the
/// buffer).
pub open spec fn comment_len(s: Seq<char>) -> int
    decreases s.len(),
{
    if s.len() == 0 {
        0
    } else if s[0] == '\n' {
        1
    } else {
        1 + comment_len(s.drop_first())
    }
}

pub broadcast proof fn lemma_comment_len_bounds(s: Seq<char>)
    ensures
        0 <= #[trigger] comment_len(s) <= s.len(),
    decreases s.len(),
{
    if s.len() > 0 && s[0] != '\n' {
        lemma_comment_len_bounds(s.drop_first());
    }
}

/// How many leading characters are whitespace or comments.
pub open spec fn ws_len(s: Seq<char>) -> int
    decreases s.len(),
    via ws_len_decreases
{
    if s.len() == 0 {
        0
    } else if s[0] == '#' {
        let c = 1 + comment_len(s.drop_first());
        c + ws_len(s.skip(c))
    } else if char_whitespace(s[0]) {
        1 + ws_len(s.drop_first())
    } else {
        0
    }
}

#[via_fn]
proof fn ws_len_decreases(s: Seq<char>) {
    if s.len() > 0 && s[0] == '#' {
        lemma_comment_len_bounds(s.drop_first());
    }
}

pub broadcast proof fn lemma_ws_len_bounds(s: Seq<char>)
    ensures
        0 <= #[trigger] ws_len(s) <= s.len(),
    decreases s.len(),
{
    if s.len() > 0 {
        if s[0] == '#' {
            lemma_comment_len_bounds(s.drop_first());
            let c = 1 + comment_len(s.drop_first());
            lemma_ws_len_bounds(s.skip(c));
        } else if char_whitespace(s[0]) {
            lemma_ws_len_bounds(s.drop_first());
        }
    }
}

/// Taking one more element: `s.take(k + 1)` is `s.take(k)` with `s[k]`
/// appended.
pub proof fn lemma_take_one_more<A>(s: Seq<A>, k: int)
    requires
        0 <= k < s.len(),
    ensures
        s.take(k + 1) == s.take(k).push(s[k]),
{
    assert(s.take(k + 1) =~= s.take(k).push(s[k]));
}

/// Whether a character may stand inside an identifier.
pub open spec fn is_ident_char(c: char) -> bool {
    char_alphabetic(c) || c == '_' || char_numeric(c)
}

/// How many leading characters belong to an identifier.
pub open spec fn ident_len(s: Seq<char>) -> int
    decreases s.len(),
{
    if s.len() == 0 || !is_ident_char(s[0]) {
        0
    } else {
        1 + ident_len(s.drop_first())
    }
}

pub broadcast proof fn lemma_ident_len_bounds(s: Seq<char>)
    ensures
        0 <= #[trigger] ident_len(s) <= s.len(),
    decreases s.len(),
{
    if s.len() > 0 && is_ident_char(s[0]) {
        lemma_ident_len_bounds(s.drop_first());
    }
}

/// An identifier scan is rejected exactly when it has seen no alphabetic or
/// underscore character yet and a numeric character comes first.
pub open spec fn ident_rejected(s: Seq<char>, has_alpha_or_underscore: bool) -> bool {
    &&& !has_alpha_or_underscore
    &&& s.len() > 0
    &&& !char_alphabetic(s[0])
    &&& s[0] != '_'
    &&& char_numeric(s[0])
}

/// How many characters a string literal's body runs before the character
/// that ends the scan: the closing quote, a line break, or the end of the
/// buffer.
pub open spec fn string_body_len(s: Seq<char>, quote: char) -> int
    decreases s.len(),
{
    if s.len() == 0 || s[0] == quote || s[0] == '\n' {
        0
    } else {
        1 + string_body_len(s.drop_first(), quote)
    }
}

pub broadcast proof fn lemma_string_body_len_bounds(s: Seq<char>, quote: char)
    ensures
        0 <= #[trigger] string_body_len(s, quote) <= s.len(),
    decreases s.len(),
{
    if s.len() > 0 && s[0] != quote && s[0] != '\n' {
        lemma_string_body_len_bounds(s.drop_first(), quote);
    }
}

/// How many leading characters look numeric: Unicode numerals and decimal
/// points.
pub open spec fn number_len(s: Seq<char>) -> int
    decreases s.len(),
{
    if s.len() == 0 || !(char_numeric(s[0]) || s[0] == '.') {
        0
    } else {
        1 + number_len(s.drop_first())
    }
}

pub broadcast proof fn lemma_number_len_bounds(s: Seq<char>)
    ensures
        0 <= #[trigger] number_len(s) <= s.len(),
    decreases s.len(),
{
    if s.len() > 0 && (char_numeric(s[0]) || s[0] == '.') {
        lemma_number_len_bounds(s.drop_first());
    }
}

/// How many decimal points a sequence holds.
pub open spec fn count_dots(s: Seq<char>) -> int
    decreases s.len(),
{
    if s.len() == 0 {
        0
    } else {
        (if s[0] == '.' {
            1int
        } else {
            0int
        }) + count_dots(s.drop_first())
    }
}

pub proof fn lemma_count_dots_push(s: Seq<char>, c: char)
    ensures
        count_dots(s.push(c)) == count_dots(s) + (if c == '.' {
            1int
        } else {
            0int
        }),
    decreases s.len(),
{
    let t = s.push(c);
    assert(t.len() == s.len() + 1);
    assert(t[0] == if s.len() == 0 { c } else { s[0] });
    if s.len() == 0 {
        assert(t.drop_first() =~= Seq::<char>::empty());
        assert(count_dots(t) == (if t[0] == '.' { 1int } else { 0int }) + count_dots(
            t.drop_first(),
        ));
        assert(count_dots(t.drop_first()) == 0);
        assert(count_dots(s) == 0);
    } else {
        assert(t.drop_first() =~= s.drop_first().push(c));
        lemma_count_dots_push(s.drop_first(), c);
        assert(count_dots(t) == (if t[0] == '.' { 1int } else { 0int }) + count_dots(
            t.drop_first(),
        ));
        assert(count_dots(s) == (if s[0] == '.' { 1int } else { 0int }) + count_dots(
            s.drop_first(),
        ));
    }
}

/// Whether every character is an ASCII decimal digit or a decimal point.
pub open spec fn digits_or_dots(s: Seq<char>) -> bool {
    forall|i: int| 0 <= i < s.len() ==> char_ascii_digit(#[trigger] s[i]) || s[i] == '.'
}

/// A readable number spelling: decimal digits around at most one decimal
/// point.
pub open spec fn valid_number(s: Seq<char>) -> bool {
    digits_or_dots(s) && count_dots(s) <= 1
}

/// The span a token is stamped with: from `beg` to the position after the
/// token, collapsed back to `beg` when the buffer is exhausted.
pub open spec fn close_span<'buf>(beg: Position, post: LexerChars<'buf>) -> Span<'buf> {
    Span {
        beg,
        end: if post.rest().len() > 0 {
            post.pos
        } else {
            beg
        },
        buf: post.buf,
    }
}

/// A token whose kind is `kind` and whose span runs from `beg` to the
/// cursor `post`.
pub open spec fn is_token_at<'buf>(
    t: Token<'buf>,
    kind: TokenKind,
    beg: Position,
    post: LexerChars<'buf>,
) -> bool {
    t.0 == close_span(beg, post) && t.1 == kind
}

/// What one call that reads a token does, with the cursor at `pre` before
/// the call and at `post` after it: which token or error comes back, and
/// how far the cursor moves.  Whitespace is not skipped here; the cursor
/// stands on the token's first character.
pub open spec fn token_step<'buf>(
    pre: LexerChars<'buf>,
    r: LexResult<'buf, Option<Token<'buf>>>,
    post: LexerChars<'buf>,
) -> bool {
    let rem = pre.rest();
    let text = pre.text();
    let at0 = pre.at();
    let pos0 = pre.pos;
    let moved = |k: int| post.at() == at0 + k && post.pos == position_after_seq(
        pos0,
        rem.take(k),
    );
    if rem.len() == 0 {
        &&& r matches Ok(t) && t is None
        &&& post.at() == at0
        &&& post.pos == pos0
    } else {
        let c0 = rem[0];
        let s1 = rem.drop_first();
        if c0 == '(' {
            r matches Ok(t) && t matches Some(tok) && is_token_at(tok, TokenKind::LParen, pos0, post)
                && moved(1)
        } else if c0 == ')' {
            r matches Ok(t) && t matches Some(tok) && is_token_at(tok, TokenKind::RParen, pos0, post)
                && moved(1)
        } else if c0 == '$' {
            if ident_rejected(s1, false) {
                &&& r matches Err(e)
                &&& e matches LexError::BadIdent(_, sp)
                &&& sp.beg == position_after(pos0, '$')
                &&& sp.end == position_after(pos0, '$')
                &&& sp.buf == pre.buf
                &&& moved(1)
            } else {
                let k = ident_len(s1);
                &&& r matches Ok(t)
                &&& t matches Some(tok)
                &&& tok.0 == close_span(pos0, post)
                &&& tok.1 matches TokenKind::Var(v)
                &&& v@ == text.subrange(at0 + 1, at0 + 1 + k)
                &&& moved(1 + k)
            }
        } else if char_alphabetic(c0) || c0 == '_' {
            let k = ident_len(s1);
            &&& r matches Ok(t)
            &&& t matches Some(tok)
            &&& tok.0 == close_span(pos0, post)
            &&& tok.1 matches TokenKind::Ident(v)
            &&& v@ == text.subrange(at0, at0 + 1 + k)
            &&& moved(1 + k)
        } else if c0 == '"' || c0 == '\'' {
            let kb = string_body_len(s1, c0);
            if kb < s1.len() && s1[kb] == c0 {
                &&& r matches Ok(t)
                &&& t matches Some(tok)
                &&& tok.0 == close_span(pos0, post)
                &&& tok.1 matches TokenKind::String(v)
                &&& v@ == text.subrange(at0 + 1, at0 + 1 + kb)
                &&& moved(2 + kb)
            } else if kb < s1.len() {
                &&& r matches Err(e)
                &&& e matches LexError::BadString(_, sp)
                &&& sp.beg == pos0
                &&& sp.end == position_after_seq(pos0, rem.take(1 + kb))
                &&& sp.buf == pre.buf
                &&& moved(1 + kb)
            } else {
                &&& r matches Err(e)
                &&& e matches LexError::BadString(_, sp)
                &&& sp.beg == pos0
                &&& sp.end == pos0
                &&& sp.buf == pre.buf
                &&& moved(rem.len() as int)
            }
        } else if char_numeric(c0) {
            let n = number_len(s1);
            let raw = text.subrange(at0, at0 + 1 + n);
            if valid_number(raw) {
                &&& r matches Ok(t)
                &&& t matches Some(tok)
                &&& tok.0 == close_span(pos0, post)
                &&& tok.1 matches TokenKind::Number(v)
                &&& v@ == raw
                &&& moved(1 + n)
            } else {
                &&& r matches Err(e)
                &&& e matches LexError::BadNumber(_, sp)
                &&& sp.beg == pos0
                &&& sp.buf == pre.buf
                &&& sp.end == (if 1 + n < rem.len() {
                    position_after_seq(pos0, rem.take(1 + n))
                } else {
                    pos0
                })
                &&& moved(1 + n)
            }
        } else if c0 == '*' {
            r matches Ok(t) && t matches Some(tok) && is_token_at(tok, TokenKind::Mul, pos0, post)
                && moved(1)
        } else if c0 == '/' {
            r matches Ok(t) && t matches Some(tok) && is_token_at(tok, TokenKind::Div, pos0, post)
                && moved(1)
        } else if c0 == '^' {
            r matches Ok(t) && t matches Some(tok) && is_token_at(tok, TokenKind::Pow, pos0, post)
                && moved(1)
        } else if c0 == '%' {
            r matches Ok(t) && t matches Some(tok) && is_token_at(tok, TokenKind::Mod, pos0, post)
                && moved(1)
        } else if c0 == '|' {
            r matches Ok(t) && t matches Some(tok) && is_token_at(tok, TokenKind::BOr, pos0, post)
                && moved(1)
        } else if c0 == '&' {
            r matches Ok(t) && t matches Some(tok) && is_token_at(tok, TokenKind::BAnd, pos0, post)
                && moved(1)
        } else if c0 == '!' {
            r matches Ok(t) && t matches Some(tok) && is_token_at(tok, TokenKind::BNot, pos0, post)
                && moved(1)
        } else if c0 == '+' {
            if s1.len() > 0 && s1[0] == '+' {
                r matches Ok(t) && t matches Some(tok) && is_token_at(
                    tok,
                    TokenKind::AddInc,
                    pos0,
                    post,
                ) && moved(2)
            } else {
                r matches Ok(t) && t matches Some(tok) && is_token_at(
                    tok,
                    TokenKind::Add,
                    pos0,
                    post,
                ) && moved(1)
            }
        } else if c0 == '-' {
            if s1.len() > 0 && s1[0] == '-' {
                r matches Ok(t) && t matches Some(tok) && is_token_at(
                    tok,
                    TokenKind::SubInc,
                    pos0,
                    post,
                ) && moved(2)
            } else {
                r matches Ok(t) && t matches Some(tok) && is_token_at(
                    tok,
                    TokenKind::Sub,
                    pos0,
                    post,
                ) && moved(1)
            }
        } else if c0 == '<' {
            if s1.len() > 0 && s1[0] == '<' {
                r matches Ok(t) && t matches Some(tok) && is_token_at(
                    tok,
                    TokenKind::BLShift,
                    pos0,
                    post,
                ) && moved(2)
            } else if s1.len() > 0 && s1[0] == '=' {
                r matches Ok(t) && t matches Some(tok) && is_token_at(
                    tok,
                    TokenKind::LtEq,
                    pos0,
                    post,
                ) && moved(2)
            } else {
                r matches Ok(t) && t matches Some(tok) && is_token_at(tok, TokenKind::Lt, pos0, post)
                    && moved(1)
            }
        } else if c0 == '>' {
            if s1.len() > 0 && s1[0] == '>' {
                r matches Ok(t) && t matches Some(tok) && is_token_at(
                    tok,
                    TokenKind::BRShift,
                    pos0,
                    post,
                ) && moved(2)
            } else if s1.len() > 0 && s1[0] == '=' {
                r matches Ok(t) && t matches Some(tok) && is_token_at(
                    tok,
                    TokenKind::GtEq,
                    pos0,
                    post,
                ) && moved(2)
            } else {
                r matches Ok(t) && t matches Some(tok) && is_token_at(tok, TokenKind::Gt, pos0, post)
                    && moved(1)
            }
        } else {
            &&& r matches Err(e)
            &&& e matches LexError::Unexpected(_, sp)
            &&& sp.beg == pos0
            &&& sp.end == position_after(pos0, c0)
            &&& sp.buf == pre.buf
            &&& moved(1)
        }
    }
}

/// An iterator over the tokens of a str.
///
/// # Lifetimes
/// * `'buf` - The lifetime of the source buffer.
#[derive(Debug, Clone)]
pub struct Lexer<'buf> {
    pub buf: &'buf str,
    pub chars: LexerChars<'buf>,
}

impl<'buf> Lexer<'buf> {
    /// The lexer's cursor is usable and walks the lexer's own buffer.
    pub open spec fn inv(&self) -> bool {
        &&& self.chars.inv()
        &&& self.chars.buf == self.buf
    }

    /// The characters still to be lexed.
    pub open spec fn rest(&self) -> Seq<char> {
        self.chars.rest()
    }

    /// Create new instance of lexer.
    ///
    /// # Arguments
    /// * `buf` - The source buffer to lex.
    pub fn new(buf: &'buf str) -> (r: Lexer<'buf>)
        requires
            buf@.len() < usize::MAX,
        ensures
            r.inv(),
            r.buf == buf,
            r.chars.at() == 0,
            r.chars.text() == buf@,
            r.chars.pos == (Position { line: 1, column: 0, offset: 0 }),
    {
        Lexer { buf, chars: LexerChars::new(buf) }
    }

    /// A span from `beg` to the character under the cursor, or collapsed to
    /// `beg` when the buffer is exhausted.
    fn span_at(&self, beg: Position) -> (r: Span<'buf>)
        requires
            self.inv(),
        ensures
            r.buf == self.buf,
            r.beg == beg,
            r.end == if self.rest().len() > 0 {
                self.chars.pos
            } else {
                beg
            },
    {
        match self.chars.peek() {
            Some((end, _)) => Span::new(beg, end, self.buf),
            None => Span::new(beg, beg, self.buf),
        }
    }

    /// Consume one character, maintaining the ghost bookkeeping that ties
    /// the cursor back to the state `base` a scan started from.
    fn advance_tracked(&mut self, Ghost(base): Ghost<Lexer<'buf>>) -> (r: char)
        requires
            old(self).inv(),
            old(self).rest().len() > 0,
            base.inv(),
            base.buf == old(self).buf,
            base.chars.text() == old(self).chars.text(),
            base.chars.at() <= old(self).chars.at(),
            old(self).chars.pos == position_after_seq(
                base.chars.pos,
                base.rest().take(old(self).chars.at() - base.chars.at()),
            ),
        ensures
            final(self).inv(),
            final(self).buf == old(self).buf,
            final(self).chars.chars == old(self).chars.chars,
            final(self).chars.at() == old(self).chars.at() + 1,
            final(self).rest() == old(self).rest().drop_first(),
            r == old(self).rest()[0],
            final(self).chars.pos == position_after_seq(
                base.chars.pos,
                base.rest().take(final(self).chars.at() - base.chars.at()),
            ),
            final(self).chars.pos == position_after(old(self).chars.pos, old(self).rest()[0]),
    {
        let got = self.chars.next_ch();
        proof {
            assert(got is Some);
            let ch = old(self).rest()[0];
            let k = old(self).chars.at() - base.chars.at();
            assert(base.rest()[k] == ch);
            lemma_take_one_more(base.rest(), k);
            crate::types::lemma_position_after_seq_push(base.chars.pos, base.rest().take(k), ch);
            assert(self.rest() =~= old(self).rest().drop_first());
        }
        match got {
            Some((_, ch)) => ch,
            None => ' ',  // unreachable: the cursor was not at the end
        }
    }

    /// Move the cursor past every leading whitespace character and comment.
    pub fn eat_whitespace_and_comments(&mut self)
        requires
            old(self).inv(),
        ensures
            final(self).inv(),
            final(self).buf == old(self).buf,
            final(self).chars.chars == old(self).chars.chars,
            final(self).chars.at() == old(self).chars.at() + ws_len(old(self).rest()),
            final(self).chars.pos == position_after_seq(
                old(self).chars.pos,
                old(self).rest().take(ws_len(old(self).rest())),
            ),
    {
        loop
            invariant
                old(self).inv(),
                self.inv(),
                self.buf == old(self).buf,
                self.chars.chars == old(self).chars.chars,
                old(self).chars.at() <= self.chars.at(),
                ws_len(old(self).rest()) == (self.chars.at() - old(self).chars.at()) + ws_len(
                    self.rest(),
                ),
                self.chars.pos == position_after_seq(
                    old(self).chars.pos,
                    old(self).rest().take(self.chars.at() - old(self).chars.at()),
                ),
            ensures
                ws_len(self.rest()) == 0,
            decreases self.rest().len(),
        {
            let ghost pre = *self;
            let more = match self.chars.peek() {
                Some((_, h)) => {
                    if h == '#' {
                        proof {
                            lemma_comment_len_bounds(pre.rest().drop_first());
                        }
                        // Consume the `#`, then the rest of the comment line.
                        self.advance_tracked(Ghost(*old(self)));
                        loop
                            invariant_except_break
                                pre.chars.at() < self.chars.at(),
                                pre.chars.at() + 1 + comment_len(pre.rest().drop_first())
                                    == self.chars.at() + comment_len(self.rest()),
                            invariant
                                old(self).inv(),
                                pre.inv(),
                                self.inv(),
                                self.buf == old(self).buf,
                                self.chars.chars == old(self).chars.chars,
                                old(self).chars.at() <= self.chars.at(),
                                self.chars.pos == position_after_seq(
                                    old(self).chars.pos,
                                    old(self).rest().take(
                                        self.chars.at() - old(self).chars.at(),
                                    ),
                                ),
                            ensures
                                self.inv(),
                                self.buf == old(self).buf,
                                self.chars.chars == old(self).chars.chars,
                                old(self).chars.at() <= self.chars.at(),
                                self.chars.at() == pre.chars.at() + 1 + comment_len(
                                    pre.rest().drop_first(),
                                ),
                                self.chars.pos == position_after_seq(
                                    old(self).chars.pos,
                                    old(self).rest().take(
                                        self.chars.at() - old(self).chars.at(),
                                    ),
                                ),
                            decreases self.rest().len(),
                        {
                            let ghost mid = *self;
                            if self.chars.peek().is_none() {
                                break ;
                            }
                            let ch = self.advance_tracked(Ghost(*old(self)));
                            if ch == '\n' {
                                proof {
                                    assert(comment_len(mid.rest()) == 1);
                                }
                                break ;
                            }
                        }
                        proof {
                            let c = 1 + comment_len(pre.rest().drop_first());
                            assert(pre.rest()[0] == '#');
                            assert(ws_len(pre.rest()) == c + ws_len(pre.rest().skip(c)));
                            assert(self.rest() =~= pre.rest().skip(c));
                        }
                        true
                    } else if is_whitespace_char(h) {
                        self.advance_tracked(Ghost(*old(self)));
                        proof {
                            assert(self.rest() =~= pre.rest().drop_first());
                        }
                        true
                    } else {
                        false
                    }
                },
                None => false,
            };
            if !more {
                break ;
            }
        }
    }

    /// Consume var or identifier token metadata.
    ///
    /// # Arguments
    /// * `beg` - The position before token starts (used for marking locations in errors)
    /// * `has_alpha_or_underscore` - If prior chars are alphabetic or underscore.
    pub fn eat_ident(&mut self, beg: Position, has_alpha_or_underscore: bool) -> (r: LexResult<
        'buf,
        String,
    >)
        requires
            old(self).inv(),
            beg.offset <= old(self).chars.at(),
        ensures
            final(self).inv(),
            final(self).buf == old(self).buf,
            final(self).chars.chars == old(self).chars.chars,
            if ident_rejected(old(self).rest(), has_alpha_or_underscore) {
                &&& r matches Err(e)
                &&& e matches LexError::BadIdent(m, sp) && sp.beg == beg && sp.end == old(
                    self,
                ).chars.pos && sp.buf == old(self).buf && m@
                    == "Invalid variable name, expected alphabetic or `_` before numeric"@
                &&& final(self).chars.at() == old(self).chars.at()
                &&& final(self).chars.pos == old(self).chars.pos
            } else {
                &&& r matches Ok(lexeme) && lexeme@ == old(self).chars.text().subrange(
                    beg.offset as int,
                    old(self).chars.at() + ident_len(old(self).rest()),
                )
                &&& final(self).chars.at() == old(self).chars.at() + ident_len(old(self).rest())
                &&& final(self).chars.pos == position_after_seq(
                    old(self).chars.pos,
                    old(self).rest().take(ident_len(old(self).rest())),
                )
            },
    {
        proof {
            lemma_ident_len_bounds(old(self).rest());
        }
        let mut has = has_alpha_or_underscore;
        loop
            invariant
                old(self).inv(),
                self.inv(),
                self.buf == old(self).buf,
                self.chars.chars == old(self).chars.chars,
                old(self).chars.at() <= self.chars.at(),
                beg.offset <= old(self).chars.at(),
                ident_len(old(self).rest()) == (self.chars.at() - old(self).chars.at())
                    + ident_len(self.rest()),
                has == (has_alpha_or_underscore || self.chars.at() > old(self).chars.at()),
                ident_rejected(old(self).rest(), has_alpha_or_underscore) ==> self.chars.at()
                    == old(self).chars.at(),
                self.chars.pos == position_after_seq(
                    old(self).chars.pos,
                    old(self).rest().take(self.chars.at() - old(self).chars.at()),
                ),
            ensures
                ident_len(self.rest()) == 0,
            decreases self.rest().len(),
        {
            let ghost pre = *self;
            match self.chars.peek() {
                Some((_, ch)) => {
                    if is_alphabetic_char(ch) || ch == '_' {
                        has = true;
                        self.advance_tracked(Ghost(*old(self)));
                        proof {
                            assert(self.rest() =~= pre.rest().drop_first());
                        }
                    } else if is_numeric_char(ch) {
                        // A numeric character before any alphabetic or
                        // underscore character makes the name invalid.
                        if !(has) {
                            proof {
                                assert(self.chars.at() == old(self).chars.at());
                                assert(self.rest() =~= old(self).rest());
                                assert(old(self).rest().take(0) =~= Seq::<char>::empty());
                                assert(self.chars.pos == old(self).chars.pos);
                            }
                            return Err(LexError::bad_ident_numeric_before_alpha(
                                Span::new(beg, self.chars.pos, self.buf),
                            ));
                        }
                        self.advance_tracked(Ghost(*old(self)));
                        proof {
                            assert(self.rest() =~= pre.rest().drop_first());
                        }
                    } else {
                        break ;
                    }
                },
                None => {
                    break ;
                },
            }
        }
        proof {
            if ident_rejected(old(self).rest(), has_alpha_or_underscore) {
                assert(is_ident_char(old(self).rest()[0]));
                lemma_ident_len_bounds(old(self).rest().drop_first());
                assert(ident_len(old(self).rest()) >= 1);
                assert(self.rest() =~= old(self).rest());
                assert(false);
            }
        }
        Ok(self.chars.lexeme(beg.offset))
    }

    /// Consume the rest of a string literal.
    ///
    /// # Arguments
    /// * `beg` - The position before token starts (used for marking locations in errors)
    /// * `quote` - The opening quote character.
    pub fn eat_string(&mut self, beg: Position, quote: char) -> (r: LexResult<'buf, String>)
        requires
            old(self).inv(),
            beg.offset < old(self).chars.at(),
        ensures
            final(self).inv(),
            final(self).buf == old(self).buf,
            final(self).chars.chars == old(self).chars.chars,
            ({
                let rem = old(self).rest();
                let k = string_body_len(rem, quote);
                if k < rem.len() && rem[k] == quote {
                    &&& r matches Ok(lexeme) && lexeme@ == old(self).chars.text().subrange(
                        beg.offset + 1,
                        old(self).chars.at() + k,
                    )
                    &&& final(self).chars.at() == old(self).chars.at() + k + 1
                    &&& final(self).chars.pos == position_after_seq(
                        old(self).chars.pos,
                        rem.take(k + 1),
                    )
                } else if k < rem.len() {
                    &&& r matches Err(e)
                    &&& e matches LexError::BadString(m, sp) && sp.beg == beg && sp.end
                        == position_after_seq(old(self).chars.pos, rem.take(k)) && sp.buf == old(
                        self,
                    ).buf && m@ == "Invalid string, expected closing quote, got end of line"@
                    &&& final(self).chars.at() == old(self).chars.at() + k
                    &&& final(self).chars.pos == position_after_seq(
                        old(self).chars.pos,
                        rem.take(k),
                    )
                } else {
                    &&& r matches Err(e)
                    &&& e matches LexError::BadString(m, sp) && sp.beg == beg && sp.end == beg
                        && sp.buf == old(self).buf && m@
                        == "Invalid string, expected closing quote, got end of file"@
                    &&& final(self).chars.at() == old(self).chars.at() + rem.len()
                    &&& final(self).chars.pos == position_after_seq(
                        old(self).chars.pos,
                        rem.take(rem.len() as int),
                    )
                }
            }),
    {
        proof {
            lemma_string_body_len_bounds(old(self).rest(), quote);
        }
        loop
            invariant
                old(self).inv(),
                self.inv(),
                self.buf == old(self).buf,
                self.chars.chars == old(self).chars.chars,
                old(self).chars.at() <= self.chars.at(),
                beg.offset < old(self).chars.at(),
                string_body_len(old(self).rest(), quote) == (self.chars.at() - old(
                    self,
                ).chars.at()) + string_body_len(self.rest(), quote),
                self.chars.pos == position_after_seq(
                    old(self).chars.pos,
                    old(self).rest().take(self.chars.at() - old(self).chars.at()),
                ),
            decreases self.rest().len(),
        {
            let ghost pre = *self;
            let ghost rem = old(self).rest();
            let ghost k = string_body_len(rem, quote);
            match self.chars.peek() {
                Some((_, ch)) => {
                    if ch == quote {
                        proof {
                            assert(string_body_len(pre.rest(), quote) == 0);
                            assert(pre.rest()[0] == quote);
                            assert(self.chars.at() - old(self).chars.at() == k);
                            assert(k < rem.len() && rem[k] == quote);
                        }
                        let lexeme = self.chars.lexeme(beg.offset + 1);
                        // Consume quote
                        self.advance_tracked(Ghost(*old(self)));
                        return Ok(lexeme);
                    } else if ch == '\n' {
                        proof {
                            assert(string_body_len(pre.rest(), quote) == 0);
                            assert(self.chars.at() - old(self).chars.at() == k);
                            assert(k < rem.len() && rem[k] == '\n' && rem[k] != quote);
                        }
                        return Err(LexError::bad_string_unexpected_eol(self.span_at(beg)));
                    } else {
                        self.advance_tracked(Ghost(*old(self)));
                        proof {
                            assert(self.rest() =~= pre.rest().drop_first());
                        }
                    }
                },
                None => {
                    proof {
                        assert(string_body_len(pre.rest(), quote) == 0);
                        assert(self.rest().len() == 0);
                        assert(self.chars.at() - old(self).chars.at() == rem.len());
                    }
                    return Err(LexError::bad_string_unexpected_eof(self.span_at(beg)));
                },
            }
        }
    }

    /// Consume the rest of the number token.
    ///
    /// # Arguments
    /// * `beg` - The position before token starts (used for marking locations in errors)
    pub fn eat_number(&mut self, beg: Position) -> (r: LexResult<'buf, String>)
        requires
            old(self).inv(),
            beg.offset <= old(self).chars.at(),
        ensures
            final(self).inv(),
            final(self).buf == old(self).buf,
            final(self).chars.chars == old(self).chars.chars,
            ({
                let rem = old(self).rest();
                let n = number_len(rem);
                let raw = old(self).chars.text().subrange(
                    beg.offset as int,
                    old(self).chars.at() + n,
                );
                &&& final(self).chars.at() == old(self).chars.at() + n
                &&& final(self).chars.pos == position_after_seq(old(self).chars.pos, rem.take(n))
                &&& if valid_number(raw) {
                    r matches Ok(lexeme) && lexeme@ == raw
                } else {
                    &&& r matches Err(e)
                    &&& e matches LexError::BadNumber(_, sp) && sp.beg == beg && sp.buf == old(
                        self,
                    ).buf && sp.end == (if n < rem.len() {
                        position_after_seq(old(self).chars.pos, rem.take(n))
                    } else {
                        beg
                    })
                }
            }),
    {
        proof {
            lemma_number_len_bounds(old(self).rest());
        }
        // Consume numeric characters and decimal characters.
        loop
            invariant
                old(self).inv(),
                self.inv(),
                self.buf == old(self).buf,
                self.chars.chars == old(self).chars.chars,
                old(self).chars.at() <= self.chars.at(),
                beg.offset <= old(self).chars.at(),
                number_len(old(self).rest()) == (self.chars.at() - old(self).chars.at())
                    + number_len(self.rest()),
                self.chars.pos == position_after_seq(
                    old(self).chars.pos,
                    old(self).rest().take(self.chars.at() - old(self).chars.at()),
                ),
            ensures
                number_len(self.rest()) == 0,
            decreases self.rest().len(),
        {
            let ghost pre = *self;
            match self.chars.peek() {
                Some((_, ch)) => {
                    if is_numeric_char(ch) || ch == '.' {
                        self.advance_tracked(Ghost(*old(self)));
                        proof {
                            assert(self.rest() =~= pre.rest().drop_first());
                        }
                    } else {
                        break ;
                    }
                },
                None => {
                    break ;
                },
            }
        }
        // Check the spelling: decimal digits around at most one decimal
        // point.
        let ghost raw = self.chars.text().subrange(beg.offset as int, self.chars.at());
        let mut i: usize = beg.offset;
        let mut dots: usize = 0;
        let mut digits_ok = true;
        while i < self.chars.pos.offset
            invariant
                self.inv(),
                beg.offset <= i <= self.chars.at(),
                raw == self.chars.text().subrange(beg.offset as int, self.chars.at()),
                dots <= i - beg.offset,
                dots == count_dots(self.chars.text().subrange(beg.offset as int, i as int)),
                digits_ok == digits_or_dots(
                    self.chars.text().subrange(beg.offset as int, i as int),
                ),
            decreases self.chars.at() - i,
        {
            let ghost sofar = self.chars.text().subrange(beg.offset as int, i as int);
            let c = self.chars.chars[i];
            if c == '.' {
                dots = dots + 1;
            } else if !is_ascii_digit_char(c) {
                digits_ok = false;
            }
            i = i + 1;
            proof {
                let now = self.chars.text().subrange(beg.offset as int, i as int);
                assert(now =~= sofar.push(c));
                lemma_count_dots_push(sofar, c);
                if digits_ok {
                    assert forall|j: int| 0 <= j < now.len() implies char_ascii_digit(
                        #[trigger] now[j],
                    ) || now[j] == '.' by {
                        if j < sofar.len() {
                            assert(sofar[j] == now[j]);
                        } else {
                            assert(now[j] == c);
                        }
                    }
                } else {
                    if digits_or_dots(sofar) {
                        // the character read this round was at fault
                        assert(now[sofar.len() as int] == c);
                        assert(!(char_ascii_digit(c) || c == '.'));
                    } else {
                        let j = choose|j: int|
                            0 <= j < sofar.len() && !(char_ascii_digit(#[trigger] sofar[j])
                                || sofar[j] == '.');
                        assert(now[j] == sofar[j]);
                        assert(!(char_ascii_digit(now[j]) || now[j] == '.'));
                    }
                    assert(!digits_or_dots(now));
                }
            }
        }
        proof {
            assert(self.chars.text().subrange(beg.offset as int, self.chars.at()) == raw);
        }
        if digits_ok && dots <= 1 {
            Ok(self.chars.lexeme(beg.offset))
        } else {
            Err(LexError::bad_number(self.span_at(beg)))
        }
    }

    /// Consume next token and return.
    pub fn next_token(&mut self) -> (r: LexResult<'buf, Option<Token<'buf>>>)
        requires
            old(self).inv(),
        ensures
            final(self).inv(),
            final(self).buf == old(self).buf,
            final(self).chars.chars == old(self).chars.chars,
            token_step(old(self).chars, r, final(self).chars),
    {
        let ghost pre = old(self).chars;
        let ghost rem = pre.rest();
        let first = self.chars.next_ch();
        if first.is_none() {
            return Ok(None);
        }
        let pc = first.unwrap();
        let pos = pc.0;
        let ch = pc.1;
        proof {
            assert(self.chars.rest() =~= rem.drop_first());
            lemma_pos_after_one(pre.pos, rem);
        }
        let ghost m1 = self.chars;
        // Prioritize parens
        let kind: TokenKind = if ch == '(' {
            TokenKind::LParen
        } else if ch == ')' {
            TokenKind::RParen
        } else if ch == '$' {
            // Var
            let beg2 = pos.extend('$');
            let name = match self.eat_ident(beg2, false) {
                Ok(name) => name,
                Err(e) => {
                    proof {
                        lemma_pos_after_one(pre.pos, rem);
                    }
                    return Err(e);
                },
            };
            proof {
                lemma_ident_len_bounds(m1.rest());
                lemma_pos_seq_step(pre.pos, rem, ident_len(m1.rest()));
            }
            TokenKind::Var(name)
        } else if is_alphabetic_char(ch) || ch == '_' {
            // Ident
            let name = match self.eat_ident(pos, true) {
                Ok(name) => name,
                Err(e) => {
                    // unreachable: a leading letter or underscore is never
                    // rejected
                    return Err(e);
                },
            };
            proof {
                lemma_ident_len_bounds(m1.rest());
                lemma_pos_seq_step(pre.pos, rem, ident_len(m1.rest()));
            }
            TokenKind::Ident(name)
        } else if ch == '"' || ch == '\'' {
            // String
            let ghost kb = string_body_len(m1.rest(), ch);
            let body = match self.eat_string(pos, ch) {
                Ok(body) => body,
                Err(e) => {
                    proof {
                        lemma_string_body_len_bounds(m1.rest(), ch);
                        if kb < m1.rest().len() && m1.rest()[kb] != ch {
                            lemma_pos_seq_step(pre.pos, rem, kb);
                        } else {
                            assert(m1.rest().take(m1.rest().len() as int) =~= m1.rest());
                            assert(rem.take(rem.len() as int) =~= rem);
                        }
                    }
                    return Err(e);
                },
            };
            proof {
                lemma_string_body_len_bounds(m1.rest(), ch);
                lemma_pos_seq_step(pre.pos, rem, kb + 1);
            }
            TokenKind::String(body)
        } else if is_numeric_char(ch) {
            // Number
            let ghost n = number_len(m1.rest());
            let spelled = match self.eat_number(pos) {
                Ok(spelled) => spelled,
                Err(e) => {
                    proof {
                        lemma_number_len_bounds(m1.rest());
                        lemma_pos_seq_step(pre.pos, rem, n);
                    }
                    return Err(e);
                },
            };
            proof {
                lemma_number_len_bounds(m1.rest());
                lemma_pos_seq_step(pre.pos, rem, n);
            }
            TokenKind::Number(spelled)
        } else if ch == '*' {
            TokenKind::Mul
        } else if ch == '/' {
            TokenKind::Div
        } else if ch == '^' {
            TokenKind::Pow
        } else if ch == '%' {
            TokenKind::Mod
        } else if ch == '|' {
            TokenKind::BOr
        } else if ch == '&' {
            TokenKind::BAnd
        } else if ch == '!' {
            TokenKind::BNot
        } else if ch == '+' {
            let next_ch = self.peek_char();
            if next_ch == Some('+') {
                // Consume peeked `+`
                self.second_op_char(Ghost(pre));
                TokenKind::AddInc
            } else {
                TokenKind::Add
            }
        } else if ch == '-' {
            let next_ch = self.peek_char();
            if next_ch == Some('-') {
                // Consume peeked `-`
                self.second_op_char(Ghost(pre));
                TokenKind::SubInc
            } else {
                TokenKind::Sub
            }
        } else if ch == '<' {
            let next_ch = self.peek_char();
            if next_ch == Some('<') {
                // Consume peeked `<`
                self.second_op_char(Ghost(pre));
                TokenKind::BLShift
            } else if next_ch == Some('=') {
                // Consume peeked `=`
                self.second_op_char(Ghost(pre));
                TokenKind::LtEq
            } else {
                TokenKind::Lt
            }
        } else if ch == '>' {
            let next_ch = self.peek_char();
            if next_ch == Some('>') {
                // Consume peeked `>`
                self.second_op_char(Ghost(pre));
                TokenKind::BRShift
            } else if next_ch == Some('=') {
                // Consume peeked `=`
                self.second_op_char(Ghost(pre));
                TokenKind::GtEq
            } else {
                TokenKind::Gt
            }
        } else {
            // Handle unexpected character
            proof {
                assert(pos.offset < usize::MAX);
            }
            let span = Span::new(pos, pos.extend(ch), self.buf);
            let error = LexError::unexpected_char(span);
            return Err(error);
        };
        let span = self.span_at(pos);
        Ok(Some(kind.into_token(span)))
    }

    /// Consume and return the next token: `None` at the end of the buffer,
    /// and the error if the next token is malformed.  Whitespace and
    /// comments before the token are consumed.
    pub fn next(&mut self) -> (r: Option<LexResult<'buf, Token<'buf>>>)
        requires
            old(self).inv(),
        ensures
            final(self).inv(),
            final(self).buf == old(self).buf,
            final(self).chars.chars == old(self).chars.chars,
            ({
                let mid = after_ws_cursor(old(self).chars);
                match r {
                    None => token_step(mid, Ok(None), final(self).chars),
                    Some(t) => token_step(
                        mid,
                        match t {
                            Ok(tok) => Ok(Some(tok)),
                            Err(e) => Err(e),
                        },
                        final(self).chars,
                    ),
                }
            }),
    {
        self.eat_whitespace_and_comments();
        proof {
            assert(self.chars == after_ws_cursor(old(self).chars));
        }
        match self.next_token() {
            Ok(Some(tok)) => Some(Ok(tok)),
            Ok(None) => None,
            Err(e) => Some(Err(e)),
        }
    }

    /// Collect every remaining token.  An error ends the collection and is
    /// returned in its place.
    pub fn tokens(&mut self) -> (r: Result<Vec<Token<'buf>>, LexError<'buf>>)
        requires
            old(self).inv(),
        ensures
            final(self).inv(),
            final(self).buf == old(self).buf,
            final(self).chars.chars == old(self).chars.chars,
            match r {
                Ok(ts) => lex_ended(old(self).chars, ts@, final(self).chars),
                Err(e) => lex_failed(old(self).chars, e, final(self).chars),
            },
    {
        let mut out: Vec<Token<'buf>> = Vec::new();
        let ghost mut states: Seq<LexerChars<'buf>> = seq![old(self).chars];
        loop
            invariant
                old(self).inv(),
                self.inv(),
                self.buf == old(self).buf,
                self.chars.chars == old(self).chars.chars,
                states.len() == out@.len() + 1,
                states[0] == old(self).chars,
                states.last() == self.chars,
                lex_steps(states, out@),
            decreases self.rest().len() + 1,
        {
            let ghost mid_before = *self;
            let ghost outg = out@;
            let ghost states0 = states;
            match self.next() {
                Some(Ok(tok)) => {
                    out.push(tok);
                    proof {
                        states = states.push(self.chars);
                        assert(out@ =~= outg.push(tok));
                        assert(states.last() == self.chars);
                        assert forall|i: int| 0 <= i < out@.len() implies token_step(
                            after_ws_cursor(#[trigger] states[i]),
                            Ok(Some(out@[i])),
                            states[i + 1],
                        ) by {
                            if i < outg.len() {
                                assert(states[i] == states0[i]);
                                assert(states[i + 1] == states0[i + 1]);
                                assert(out@[i] == outg[i]);
                            } else {
                                assert(states[i] == mid_before.chars);
                                assert(states[i + 1] == self.chars);
                                assert(out@[i] == tok);
                            }
                        }
                        // each token consumes at least one character
                        lemma_ws_len_bounds(mid_before.rest());
                        let midc = after_ws_cursor(mid_before.chars);
                        lemma_position_after_seq_offset(
                            mid_before.chars.pos,
                            mid_before.rest().take(ws_len(mid_before.rest())),
                        );
                        assert(midc.at() == mid_before.chars.at() + ws_len(mid_before.rest()));
                        assert(midc.rest().len() > 0);
                        let s1 = midc.rest().drop_first();
                        lemma_ident_len_bounds(s1);
                        lemma_number_len_bounds(s1);
                        if midc.rest()[0] == '"' || midc.rest()[0] == '\'' {
                            lemma_string_body_len_bounds(s1, midc.rest()[0]);
                        }
                        assert(self.chars.at() >= midc.at() + 1);
                        assert(self.rest().len() < mid_before.rest().len());
                    }
                },
                Some(Err(e)) => {
                    proof {
                        assert(lex_steps(states, out@));
                        assert(token_step(after_ws_cursor(states.last()), Err(e), self.chars));
                    }
                    return Err(e);
                },
                None => {
                    proof {
                        assert(lex_steps(states, out@));
                        assert(self.chars == after_ws_cursor(states.last()));
                    }
                    return Ok(out);
                },
            }
        }
    }

    /// The character under the cursor, without consuming it.
    fn peek_char(&self) -> (r: Option<char>)
        requires
            self.inv(),
        ensures
            match r {
                Some(c) => self.rest().len() > 0 && c == self.rest()[0],
                None => self.rest().len() == 0,
            },
    {
        match self.chars.peek() {
            Some((_, c)) => Some(c),
            None => None,
        }
    }

    /// Consume the second character of a two-character operator.
    fn second_op_char(&mut self, Ghost(pre): Ghost<LexerChars<'buf>>)
        requires
            old(self).inv(),
            old(self).rest().len() > 0,
            pre.rest().len() >= 2,
            old(self).chars.text() == pre.text(),
            old(self).chars.at() == pre.at() + 1,
            old(self).chars.pos == position_after_seq(pre.pos, pre.rest().take(1)),
        ensures
            final(self).inv(),
            final(self).buf == old(self).buf,
            final(self).chars.chars == old(self).chars.chars,
            final(self).chars.at() == pre.at() + 2,
            final(self).chars.pos == position_after_seq(pre.pos, pre.rest().take(2)),
    {
        let got = self.chars.next_ch();
        proof {
            assert(got is Some);
            let rem = pre.rest();
            assert(old(self).rest() =~= rem.drop_first());
            lemma_pos_after_one(pre.pos, rem);
            lemma_pos_seq_step(pre.pos, rem, 1);
            assert(rem.drop_first().take(1) =~= seq![rem.drop_first()[0]]);
            lemma_pos_after_one(old(self).chars.pos, rem.drop_first());
        }
    }
}

/// Where the cursor stands after the leading whitespace and comments.
pub open spec fn after_ws_cursor<'buf>(c: LexerChars<'buf>) -> LexerChars<'buf> {
    LexerChars { buf: c.buf, chars: c.chars, pos: position_after_seq(c.pos, c.rest().take(ws_len(c.rest()))) }
}

/// The cursor states of a walk that reads one token per step: `states[i]`
/// stands before the `i`-th token (whitespace included), and each step reads
/// exactly that token.
pub open spec fn lex_steps<'buf>(states: Seq<LexerChars<'buf>>, toks: Seq<Token<'buf>>) -> bool {
    &&& states.len() == toks.len() + 1
    &&& forall|i: int|
        0 <= i < toks.len() ==> token_step(
            after_ws_cursor(#[trigger] states[i]),
            Ok(Some(toks[i])),
            states[i + 1],
        )
}

/// Reading from `pre` yields exactly the tokens of `toks` and ends cleanly
/// at the end of the buffer, with the cursor at `post`.
pub open spec fn lex_ended<'buf>(
    pre: LexerChars<'buf>,
    toks: Seq<Token<'buf>>,
    post: LexerChars<'buf>,
) -> bool {
    exists|states: Seq<LexerChars<'buf>>|
        {
            &&& #[trigger] lex_steps(states, toks)
            &&& states[0] == pre
            &&& post == after_ws_cursor(states.last())
            &&& post.rest().len() == 0
        }
}

/// Reading from `pre` yields some tokens and then the error `e`, with the
/// cursor at `post`.
pub open spec fn lex_failed<'buf>(
    pre: LexerChars<'buf>,
    e: LexError<'buf>,
    post: LexerChars<'buf>,
) -> bool {
    exists|states: Seq<LexerChars<'buf>>, toks: Seq<Token<'buf>>|
        {
            &&& #[trigger] lex_steps(states, toks)
            &&& states[0] == pre
            &&& token_step(after_ws_cursor(states.last()), Err(e), post)
        }
}

/// Moving past a sequence advances the character offset by its length.
pub proof fn lemma_position_after_seq_offset(p: Position, s: Seq<char>)
    requires
        p.offset + s.len() <= usize::MAX,
    ensures
        position_after_seq(p, s).offset == p.offset + s.len(),
    decreases s.len(),
{
    if s.len() > 0 {
        lemma_position_after_seq_offset(position_after(p, s[0]), s.drop_first());
    }
}

/// Moving past the first element of a sequence covers the same ground as a
/// one-element take.
pub proof fn lemma_pos_after_one(p: Position, s: Seq<char>)
    requires
        s.len() >= 1,
    ensures
        position_after_seq(p, s.take(1)) == position_after(p, s[0]),
{
    let t = s.take(1);
    assert(t.len() == 1 && t[0] == s[0]);
    assert(t.drop_first() =~= Seq::<char>::empty());
    assert(position_after_seq(p, t) == position_after_seq(position_after(p, s[0]), t.drop_first()));
    assert(position_after_seq(position_after(p, s[0]), Seq::<char>::empty()) == position_after(
        p,
        s[0],
    ));
}

/// Moving past `1 + k` characters is moving past the first and then `k`
/// more.
pub proof fn lemma_pos_seq_step(p: Position, s: Seq<char>, k: int)
    requires
        s.len() >= 1,
        0 <= k <= s.len() - 1,
    ensures
        position_after_seq(p, s.take(1 + k)) == position_after_seq(
            position_after(p, s[0]),
            s.drop_first().take(k),
        ),
{
    let t = s.take(1 + k);
    assert(t.len() == 1 + k);
    assert(t[0] == s[0]);
    assert(t.drop_first() =~= s.drop_first().take(k));
}

} // verus!

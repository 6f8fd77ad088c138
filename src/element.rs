use vstd::prelude::*;

use crate::token::{LexerToken, TokenKind, TokenView, token_view};

verus! {

/// Where a token stands in the source: a half-open range of character offsets
/// (`char_start..char_end`) and the lines, counted from 1, of its two ends.
#[derive(Clone, Copy, Debug, PartialEq, Eq, Structural)]
pub struct LexerPosition {
    pub char_end: usize,
    pub char_start: usize,
    pub line_end: usize,
    pub line_start: usize,
}

/// A token with its position: one entry of the lexer's output.
#[derive(Debug, PartialEq)]
pub struct LexerElement {
    pub position: LexerPosition,
    pub token: LexerToken,
}

/// An element in specifications.
pub struct ElementView {
    pub position: LexerPosition,
    pub token: TokenView,
}

impl View for LexerElement {
    type V = ElementView;

    open spec fn view(&self) -> ElementView {
        ElementView { position: self.position, token: self.token@ }
    }
}

/// Whether the scanner is outside any tag (`Initial`) or inside one (`Code`).
#[derive(Clone, Copy, Debug, PartialEq, Eq, Structural)]
pub enum LexerState {
    Code,
    Initial,
}

/// Why lexing stopped.
#[derive(Clone, Copy, Debug, PartialEq, Eq, Structural)]
pub enum LexerError {
    /// A quoted string that no closing quote ends; the position runs from the
    /// opening quote to the end of the source.
    UnterminatedString(LexerPosition),
}

impl LexerError {
    /// A short description of the error.
    pub fn message(&self) -> (r: String)
        ensures
            r@ == "unterminated string literal"@,
    {
        match self {
            LexerError::UnterminatedString(_) => String::from_str("unterminated string literal"),
        }
    }
}

/// The views of a sequence of elements.
pub open spec fn elements_view(v: Seq<LexerElement>) -> Seq<ElementView> {
    v.map_values(|e: LexerElement| e@)
}

/// The number of line feeds in `s`.
pub open spec fn newline_count(s: Seq<char>) -> nat
    decreases s.len(),
{
    if s.len() == 0 {
        0
    } else {
        newline_count(s.drop_last()) + if s.last() == '\n' { 1nat } else { 0nat }
    }
}

/// The line, counted from 1, on which offset `p` of `s` stands.
pub open spec fn line_at(s: Seq<char>, p: int) -> nat {
    1 + newline_count(s.take(p))
}

/// The position of the range `start..end` of `s`.
pub open spec fn position_of(s: Seq<char>, start: int, end: int) -> LexerPosition {
    LexerPosition {
        char_end: end as usize,
        char_start: start as usize,
        line_end: line_at(s, end) as usize,
        line_start: line_at(s, start) as usize,
    }
}

/// The element of kind `kind` over the range `start..end` of `s`, taking its
/// text from `text`.
pub open spec fn element_of(s: Seq<char>, start: int, end: int, kind: TokenKind, text: Seq<char>) -> ElementView {
    ElementView { position: position_of(s, start, end), token: token_view(kind, text) }
}

/// Line feeds add up over a concatenation.
pub proof fn lemma_newline_count_append(a: Seq<char>, b: Seq<char>)
    ensures
        newline_count(a + b) == newline_count(a) + newline_count(b),
    decreases b.len(),
{
    if b.len() == 0 {
        assert(a + b =~= a);
    } else {
        lemma_newline_count_append(a, b.drop_last());
        assert((a + b).drop_last() =~= a + b.drop_last());
    }
}

/// A text has no more line feeds than characters.
pub proof fn lemma_newline_count_bound(s: Seq<char>)
    ensures
        newline_count(s) <= s.len(),
    decreases s.len(),
{
    if s.len() > 0 {
        lemma_newline_count_bound(s.drop_last());
    }
}

/// The line at `end` is the line at `start` plus the line feeds in between.
pub proof fn lemma_line_at_range(s: Seq<char>, start: int, end: int)
    requires
        0 <= start <= end <= s.len(),
    ensures
        line_at(s, end) == line_at(s, start) + newline_count(s.subrange(start, end)),
        line_at(s, end) <= 1 + end,
{
    lemma_newline_count_append(s.take(start), s.subrange(start, end));
    assert(s.take(start) + s.subrange(start, end) =~= s.take(end));
    lemma_newline_count_bound(s.take(end));
}

/// Stepping over one character moves to the next line exactly at a line feed.
pub proof fn lemma_line_at_next(s: Seq<char>, p: int)
    requires
        0 <= p < s.len(),
    ensures
        line_at(s, p + 1) == line_at(s, p) + if s[p] == '\n' { 1nat } else { 0nat },
{
    assert(s.take(p + 1).drop_last() =~= s.take(p));
}

/// Counts the line feeds among `chars[from..to]`.
pub fn newlines_between(chars: &Vec<char>, from: usize, to: usize) -> (r: usize)
    requires
        from <= to <= chars@.len(),
    ensures
        r == newline_count(chars@.subrange(from as int, to as int)),
        r <= to - from,
{
    let mut r: usize = 0;
    let mut i: usize = from;
    while i < to
        invariant
            from <= i <= to <= chars@.len(),
            r == newline_count(chars@.subrange(from as int, i as int)),
            r <= i - from,
        decreases to - i,
    {
        proof {
            assert(chars@.subrange(from as int, i + 1).drop_last() =~= chars@.subrange(from as int, i as int));
        }
        if chars[i] == '\n' {
            r = r + 1;
        }
        i = i + 1;
    }
    r
}

/// The characters of `s`, in order.
pub fn chars_of(s: &str) -> (r: Vec<char>)
    ensures
        r@ == s@,
{
    let mut r: Vec<char> = Vec::new();
    for c in it: s.chars()
        invariant
            r@ == it.seq().take(it.index() as int),
            it.seq() == s@,
    {
        r.push(c);
    }
    r
}

} // verus!

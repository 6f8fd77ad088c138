use vstd::prelude::*;

use crate::element::{
    LexerElement, LexerError, LexerPosition, LexerState, ElementView, element_of, elements_view,
    line_at, lemma_line_at_range, newlines_between, position_of, chars_of,
};
use crate::token::{LexerToken, TokenKind};

verus! {

/// How a matcher recognises its token at the start of the unread source.
#[derive(Debug, PartialEq)]
pub enum LexerTokenMatchPattern {
    /// A fixed string, compared without regard to letter case.
    Literal(String),
    /// A regular expression, tried only at the start of the unread source.
    Regex(String),
}

/// A pattern in specifications.
pub enum PatternView {
    Literal(Seq<char>),
    Regex(Seq<char>),
}

impl View for LexerTokenMatchPattern {
    type V = PatternView;

    open spec fn view(&self) -> PatternView {
        match self {
            LexerTokenMatchPattern::Literal(s) => PatternView::Literal(s@),
            LexerTokenMatchPattern::Regex(s) => PatternView::Regex(s@),
        }
    }
}

/// What a matcher emits when it fires.
#[derive(Clone, Copy, Debug, PartialEq, Eq, Structural)]
pub enum MatcherAction {
    /// One token of the given kind over the matched text.
    Emit(TokenKind),
    /// A call name over the matched text but its last character, then an
    /// opening parenthesis over that character.
    Call,
    /// A double-quoted string, read up to its closing quote.
    DoubleQuoted,
    /// A single-quoted string, read up to its closing quote.
    SingleQuoted,
    /// Pending inline text, if any, then a tag opening of the given kind;
    /// the scanner enters code.
    Open(TokenKind),
    /// A tag closing of the given kind; the scanner leaves code.
    Close(TokenKind),
}

/// One rule of the lexer: a pattern, the scanner state in which it applies,
/// and what it emits.
pub struct LexerTokenMatcher {
    pub action: MatcherAction,
    pub pattern: LexerTokenMatchPattern,
    pub state: LexerState,
}

/// A matcher in specifications.
pub struct MatcherView {
    pub pattern: PatternView,
    pub state: LexerState,
    pub action: MatcherAction,
}

impl View for LexerTokenMatcher {
    type V = MatcherView;

    open spec fn view(&self) -> MatcherView {
        MatcherView { pattern: self.pattern@, state: self.state, action: self.action }
    }
}

/// The views of a sequence of matchers.
pub open spec fn matchers_view(v: Seq<LexerTokenMatcher>) -> Seq<MatcherView> {
    v.map_values(|m: LexerTokenMatcher| m@)
}

/// The lowercase form of `s`, as `str::to_lowercase` gives it.
pub uninterp spec fn lower_of(s: Seq<char>) -> Seq<char>;

/// `s` starts with `lit`, letter case aside: the first `lit.len()`
/// characters of `s` and `lit` have the same lowercase form.
pub open spec fn literal_matches(lit: Seq<char>, s: Seq<char>) -> bool {
    &&& lit.len() <= s.len()
    &&& lower_of(s.take(lit.len() as int)) == lower_of(lit)
}

/// The regular expression `p` held to the start of the text it is tried on.
pub open spec fn anchored(p: Seq<char>) -> Seq<char> {
    "^(?:"@ + p + ")"@
}

/// The leftmost match of the regular expression `pattern` in `haystack`, as the
/// byte offset where it starts and the text it covers; `None` where there is
/// no match or the pattern does not compile.
pub uninterp spec fn regex_first_match(pattern: Seq<char>, haystack: Seq<char>) -> Option<(int, Seq<char>)>;

/// The number of characters at the start of `s` that `p` recognises; 0 for none.
pub open spec fn match_len(p: PatternView, s: Seq<char>) -> nat {
    match p {
        PatternView::Literal(lit) => if literal_matches(lit, s) { lit.len() } else { 0 },
        PatternView::Regex(r) => match regex_first_match(anchored(r), s) {
            Some(m) => if m.0 == 0 && m.1.len() <= s.len() && s.take(m.1.len() as int) == m.1 {
                m.1.len()
            } else {
                0
            },
            None => 0,
        },
    }
}

/// A match never runs past the end of the text.
pub proof fn lemma_match_len_bound(p: PatternView, s: Seq<char>)
    ensures
        match_len(p, s) <= s.len(),
{
}

/// Relies on `regex::Regex::new`, which compiles `pattern`, and on
/// `regex::Regex::find`, which gives the leftmost match in `haystack`: its
/// start (`Match::start`, a byte offset) and its text (`Match::as_str`, the
/// haystack from that start to the match's end). A pattern that does not
/// compile gives `None`.
#[verifier::external_body]
fn regex_find(pattern: &str, haystack: &str) -> (r: Option<(usize, String)>)
    ensures
        r matches Some(m) ==> regex_first_match(pattern@, haystack@) == Some((m.0 as int, m.1@)),
        r is None ==> regex_first_match(pattern@, haystack@) is None,
        r matches Some(m) ==> (m.0 == 0 ==> m.1@.len() <= haystack@.len() && haystack@.take(
            m.1@.len() as int,
        ) == m.1@),
{
    match regex::Regex::new(pattern) {
        Ok(re) => re.find(haystack).map(|m| (m.start(), m.as_str().to_string())),
        Err(_) => None,
    }
}

/// Relies on `str::to_lowercase`, whose result depends on the characters
/// of `s` alone.
#[verifier::external_body]
fn lowercase(s: &str) -> (r: String)
    ensures
        r@ == lower_of(s@),
{
    s.to_lowercase()
}

/// The offset of the closing `q` of a quoted string whose contents start at
/// `i`: a backslash makes the character after it part of the
/// contents, whatever it is. `None` where the string is never closed.
pub open spec fn closing_quote(s: Seq<char>, i: int, q: char) -> Option<int>
    decreases s.len() - i,
{
    if i < 0 || i >= s.len() {
        None
    } else if s[i] == '\\' {
        if i + 1 >= s.len() {
            None
        } else {
            closing_quote(s, i + 2, q)
        }
    } else if s[i] == q {
        Some(i)
    } else {
        closing_quote(s, i + 1, q)
    }
}

/// A closing quote that is found lies at or after `i`, within `s`, and is `q`.
pub proof fn lemma_closing_quote_range(s: Seq<char>, i: int, q: char)
    ensures
        closing_quote(s, i, q) matches Some(c) ==> i <= c < s.len() && s[c] == q,
    decreases s.len() - i,
{
    if 0 <= i < s.len() {
        if s[i] == '\\' {
            if i + 1 < s.len() {
                lemma_closing_quote_range(s, i + 2, q);
            }
        } else if s[i] != q {
            lemma_closing_quote_range(s, i + 1, q);
        }
    }
}

/// Finds the closing `q` of a quoted string whose contents start at `from`.
pub fn find_closing_quote(chars: &Vec<char>, from: usize, q: char) -> (r: Option<usize>)
    ensures
        r matches Some(c) ==> closing_quote(chars@, from as int, q) == Some(c as int),
        r is None ==> closing_quote(chars@, from as int, q) is None,
{
    let mut i: usize = from;
    while i < chars.len()
        invariant
            closing_quote(chars@, from as int, q) == closing_quote(chars@, i as int, q),
        decreases chars.len() - i,
    {
        let c = chars[i];
        if c == '\\' {
            if i + 1 >= chars.len() {
                return None;
            }
            i = i + 2;
        } else if c == q {
            return Some(i);
        } else {
            i = i + 1;
        }
    }
    None
}

/// What firing a matcher does: the elements it emits, how many characters it
/// consumes and the scanner state after it.
pub struct Step {
    pub emitted: Seq<ElementView>,
    pub consumed: int,
    pub state: LexerState,
}

/// The inline-text element for the pending text `flush..cursor`, if it is not empty.
pub open spec fn pending_text(s: Seq<char>, flush: int, cursor: int) -> Seq<ElementView> {
    if flush < cursor {
        seq![element_of(s, flush, cursor, TokenKind::Inline, s.subrange(flush, cursor))]
    } else {
        Seq::empty()
    }
}

/// Reading a string quoted by `q` whose opening quote stands at `cursor`: the
/// element spans both quotes and holds the text between them.
pub open spec fn quoted(s: Seq<char>, cursor: int, q: char, kind: TokenKind, state: LexerState) -> Result<Step, LexerError> {
    match closing_quote(s, cursor + 1, q) {
        Some(c) => Ok(
            Step {
                emitted: seq![element_of(s, cursor, c + 1, kind, s.subrange(cursor + 1, c))],
                consumed: c + 1 - cursor,
                state,
            },
        ),
        None => Err(LexerError::UnterminatedString(position_of(s, cursor, s.len() as int))),
    }
}

/// Firing `action` on a match of `len` characters at `cursor` of `s`, with
/// inline text pending from `flush` and the scanner in `state`.
pub open spec fn fire(s: Seq<char>, action: MatcherAction, cursor: int, flush: int, len: int, state: LexerState) -> Result<Step, LexerError> {
    let matched = s.subrange(cursor, cursor + len);
    match action {
        MatcherAction::Emit(kind) => Ok(
            Step {
                emitted: seq![element_of(s, cursor, cursor + len, kind, matched)],
                consumed: len,
                state,
            },
        ),
        MatcherAction::Call => Ok(
            Step {
                emitted: seq![
                    element_of(s, cursor, cursor + len - 1, TokenKind::Call, s.subrange(cursor, cursor + len - 1)),
                    element_of(s, cursor + len - 1, cursor + len, TokenKind::OpenParenthesis, Seq::empty()),
                ],
                consumed: len,
                state,
            },
        ),
        MatcherAction::DoubleQuoted => quoted(s, cursor, '"', TokenKind::DoubleQuotedString, state),
        MatcherAction::SingleQuoted => quoted(s, cursor, '\'', TokenKind::SingleQuotedString, state),
        MatcherAction::Open(kind) => Ok(
            Step {
                emitted: pending_text(s, flush, cursor) + seq![element_of(s, cursor, cursor + len, kind, matched)],
                consumed: len,
                state: LexerState::Code,
            },
        ),
        MatcherAction::Close(kind) => Ok(
            Step {
                emitted: seq![element_of(s, cursor, cursor + len, kind, matched)],
                consumed: len,
                state: LexerState::Initial,
            },
        ),
    }
}

/// A firing consumes at least one character and stays within the source.
pub proof fn lemma_fire_consumes(s: Seq<char>, action: MatcherAction, cursor: int, flush: int, len: int, state: LexerState)
    requires
        0 <= cursor,
        0 < len,
        cursor + len <= s.len(),
    ensures
        fire(s, action, cursor, flush, len, state) matches Ok(step) ==> 0 < step.consumed && cursor
            + step.consumed <= s.len(),
{
    lemma_closing_quote_range(s, cursor + 1, '"');
    lemma_closing_quote_range(s, cursor + 1, '\'');
}

/// The element of kind `kind` over `start..end`, its text taken from the source.
pub(crate) fn element(chars: &Vec<char>, buffer: &str, start: usize, end: usize, line_start: usize, line_end: usize, kind: TokenKind) -> (r: LexerElement)
    requires
        chars@ == buffer@,
        start <= end <= chars@.len(),
        line_start == line_at(chars@, start as int),
        line_end == line_at(chars@, end as int),
    ensures
        r@ == element_of(chars@, start as int, end as int, kind, chars@.subrange(start as int, end as int)),
{
    let text = String::from_str(buffer.substring_char(start, end));
    LexerElement {
        position: LexerPosition { char_end: end, char_start: start, line_end, line_start },
        token: LexerToken::new(kind, text),
    }
}

impl LexerTokenMatcher {
    /// A matcher that, in scanner state `state`, recognises `pattern` and then does `action`.
    pub fn new(pattern: LexerTokenMatchPattern, state: LexerState, action: MatcherAction) -> (r: Self)
        ensures
            r@ == (MatcherView { pattern: pattern@, state, action }),
    {
        LexerTokenMatcher { action, pattern, state }
    }

    /// The number of characters at the start of `buffer` that this matcher's
    /// pattern recognises; 0 where it does not match there.
    pub fn test(&self, buffer: &str) -> (r: usize)
        ensures
            r == match_len(self@.pattern, buffer@),
    {
        let chars = chars_of(buffer);
        assert(chars@.skip(0) =~= chars@);
        self.match_length(buffer, &chars, 0)
    }

    /// `test` on `rest`, the source from offset `at` of `chars` on.
    pub fn match_length(&self, rest: &str, chars: &Vec<char>, at: usize) -> (r: usize)
        requires
            at <= chars@.len(),
            rest@ == chars@.skip(at as int),
        ensures
            r == match_len(self@.pattern, rest@),
    {
        match &self.pattern {
            LexerTokenMatchPattern::Literal(lit) => {
                let k = lit.as_str().unicode_len();
                if k > chars.len() - at {
                    return 0;
                }
                let prefix = lowercase(rest.substring_char(0, k));
                let pattern = lowercase(lit.as_str());
                if prefix == pattern {
                    k
                } else {
                    0
                }
            },
            LexerTokenMatchPattern::Regex(r) => {
                let mut pattern = String::from_str("^(?:");
                pattern.append(r.as_str());
                pattern.append(")");
                match regex_find(pattern.as_str(), rest) {
                    Some((start, text)) => {
                        if start == 0 {
                            text.as_str().unicode_len()
                        } else {
                            0
                        }
                    },
                    None => 0,
                }
            },
        }
    }

    /// Fires this matcher on a match of `*length` characters at `*char_index`
    /// of `buffer`, with inline text pending from `*char_end`, the end of the
    /// previous match. `*line_index` and `*line_start` are the lines of
    /// `*char_end` and `*char_index`; the start of the previous match,
    /// `_char_start`, is not read. What the matcher emits is appended to `elements`;
    /// `length` becomes the number of characters consumed, `line_end` the line
    /// at their end, and `state` the scanner state after the match. A quoted
    /// string that is never closed is an error, and then nothing changes.
    pub fn execute(
        &self,
        buffer: &str,
        char_index: &usize,
        _char_start: &usize,
        char_end: &usize,
        length: &mut usize,
        line_index: &usize,
        line_start: &usize,
        line_end: &mut usize,
        elements: &mut Vec<LexerElement>,
        state: &mut LexerState,
    ) -> (r: Result<(), LexerError>)
        requires
            buffer@.len() < usize::MAX,
            *char_end <= *char_index,
            0 < *old(length),
            *char_index + *old(length) <= buffer@.len(),
            *line_index == line_at(buffer@, *char_end as int),
            *line_start == line_at(buffer@, *char_index as int),
        ensures
            fire(buffer@, self@.action, *char_index as int, *char_end as int, *old(length) as int, *old(state))
                matches Ok(step) ==> {
                &&& r is Ok
                &&& *final(length) == step.consumed
                &&& *final(line_end) == line_at(buffer@, *char_index + *final(length))
                &&& elements_view(final(elements)@) == elements_view(old(elements)@) + step.emitted
                &&& *final(state) == step.state
            },
            fire(buffer@, self@.action, *char_index as int, *char_end as int, *old(length) as int, *old(state))
                matches Err(e) ==> {
                &&& r == Err::<(), LexerError>(e)
                &&& *final(length) == *old(length)
                &&& *final(line_end) == *old(line_end)
                &&& final(elements)@ == old(elements)@
                &&& *final(state) == *old(state)
            },
    {
        let chars = chars_of(buffer);
        match self.apply(buffer, &chars, *char_index, *char_end, *length, *line_index, *line_start, elements, state) {
            Ok((consumed, end_line)) => {
                *length = consumed;
                *line_end = end_line;
                Ok(())
            },
            Err(e) => Err(e),
        }
    }

    /// Fires this matcher on a match of `length` characters at `cursor` of
    /// `chars` (the characters of `buffer`), with inline text pending from
    /// `flush`. `flush_line` and `line` are the lines of `flush` and `cursor`.
    /// Appends what it emits to `elements`, updates `state`, and gives the
    /// number of characters consumed with the line at the end of them.
    pub fn apply(
        &self,
        buffer: &str,
        chars: &Vec<char>,
        cursor: usize,
        flush: usize,
        length: usize,
        flush_line: usize,
        line: usize,
        elements: &mut Vec<LexerElement>,
        state: &mut LexerState,
    ) -> (r: Result<(usize, usize), LexerError>)
        requires
            chars@ == buffer@,
            chars@.len() < usize::MAX,
            flush <= cursor,
            0 < length,
            cursor + length <= chars@.len(),
            flush_line == line_at(chars@, flush as int),
            line == line_at(chars@, cursor as int),
        ensures
            fire(chars@, self@.action, cursor as int, flush as int, length as int, *old(state)) matches Ok(step)
                ==> {
                &&& r matches Ok(p)
                &&& p.0 == step.consumed
                &&& p.1 == line_at(chars@, cursor + p.0)
                &&& elements_view(final(elements)@) == elements_view(old(elements)@) + step.emitted
                &&& *final(state) == step.state
            },
            fire(chars@, self@.action, cursor as int, flush as int, length as int, *old(state)) matches Err(e)
                ==> {
                &&& r == Err::<(usize, usize), LexerError>(e)
                &&& final(elements)@ == old(elements)@
                &&& *final(state) == *old(state)
            },
    {
        let n = chars.len();
        let end = cursor + length;
        proof {
            lemma_line_at_range(chars@, cursor as int, end as int);
            lemma_line_at_range(chars@, 0, n as int);
            lemma_line_at_range(chars@, 0, cursor as int);
        }
        let ghost before = elements_view(elements@);
        match self.action {
            MatcherAction::Emit(kind) => {
                let end_line = line + newlines_between(chars, cursor, end);
                elements.push(element(chars, buffer, cursor, end, line, end_line, kind));
                assert(elements_view(elements@) =~= before + fire(chars@, self@.action, cursor as int, flush as int, length as int, *old(state))->Ok_0.emitted);
                Ok((length, end_line))
            },
            MatcherAction::Call => {
                let end_line = line + newlines_between(chars, cursor, end);
                let name_end = end - 1;
                let name_line = line + newlines_between(chars, cursor, name_end);
                proof {
                    lemma_line_at_range(chars@, cursor as int, name_end as int);
                }
                elements.push(element(chars, buffer, cursor, name_end, line, name_line, TokenKind::Call));
                elements.push(element(chars, buffer, name_end, end, name_line, end_line, TokenKind::OpenParenthesis));
                assert(elements_view(elements@) =~= before + fire(chars@, self@.action, cursor as int, flush as int, length as int, *old(state))->Ok_0.emitted);
                Ok((length, end_line))
            },
            MatcherAction::DoubleQuoted => {
                self.apply_quoted(buffer, chars, cursor, line, '"', TokenKind::DoubleQuotedString, *state, elements)
            },
            MatcherAction::SingleQuoted => {
                self.apply_quoted(buffer, chars, cursor, line, '\'', TokenKind::SingleQuotedString, *state, elements)
            },
            MatcherAction::Open(kind) => {
                let end_line = line + newlines_between(chars, cursor, end);
                if flush < cursor {
                    elements.push(element(chars, buffer, flush, cursor, flush_line, line, TokenKind::Inline));
                }
                elements.push(element(chars, buffer, cursor, end, line, end_line, kind));
                *state = LexerState::Code;
                assert(elements_view(elements@) =~= before + fire(chars@, self@.action, cursor as int, flush as int, length as int, *old(state))->Ok_0.emitted);
                Ok((length, end_line))
            },
            MatcherAction::Close(kind) => {
                let end_line = line + newlines_between(chars, cursor, end);
                elements.push(element(chars, buffer, cursor, end, line, end_line, kind));
                *state = LexerState::Initial;
                assert(elements_view(elements@) =~= before + fire(chars@, self@.action, cursor as int, flush as int, length as int, *old(state))->Ok_0.emitted);
                Ok((length, end_line))
            },
        }
    }

    /// Fires a quoted-string matcher whose opening quote `q` stands at `cursor`.
    fn apply_quoted(
        &self,
        buffer: &str,
        chars: &Vec<char>,
        cursor: usize,
        line: usize,
        q: char,
        kind: TokenKind,
        state: LexerState,
        elements: &mut Vec<LexerElement>,
    ) -> (r: Result<(usize, usize), LexerError>)
        requires
            chars@ == buffer@,
            chars@.len() < usize::MAX,
            cursor < chars@.len(),
            line == line_at(chars@, cursor as int),
        ensures
            quoted(chars@, cursor as int, q, kind, state) matches Ok(step)
                ==> {
                &&& r matches Ok(p)
                &&& p.0 == step.consumed
                &&& p.1 == line_at(chars@, cursor + p.0)
                &&& elements_view(final(elements)@) == elements_view(old(elements)@) + step.emitted
            },
            quoted(chars@, cursor as int, q, kind, state) matches Err(e)
                ==> {
                &&& r == Err::<(usize, usize), LexerError>(e)
                &&& final(elements)@ == old(elements)@
            },
    {
        let n = chars.len();
        proof {
            lemma_closing_quote_range(chars@, cursor + 1, q);
            lemma_line_at_range(chars@, cursor as int, n as int);
            lemma_line_at_range(chars@, 0, n as int);
        }
        let ghost before = elements_view(elements@);
        match find_closing_quote(chars, cursor + 1, q) {
            Some(close) => {
                let end = close + 1;
                proof {
                    lemma_line_at_range(chars@, cursor as int, end as int);
                }
                let end_line = line + newlines_between(chars, cursor, end);
                let text = String::from_str(buffer.substring_char(cursor + 1, close));
                elements.push(
                    LexerElement {
                        position: LexerPosition { char_end: end, char_start: cursor, line_end: end_line, line_start: line },
                        token: LexerToken::new(kind, text),
                    },
                );
                assert(elements_view(elements@) =~= before + seq![element_of(chars@, cursor as int, end as int, kind, chars@.subrange(cursor + 1, close as int))]);
                Ok((end - cursor, end_line))
            },
            None => {
                let end_line = line + newlines_between(chars, cursor, n);
                Err(
                    LexerError::UnterminatedString(
                        LexerPosition { char_end: n, char_start: cursor, line_end: end_line, line_start: line },
                    ),
                )
            },
        }
    }
}

} // verus!

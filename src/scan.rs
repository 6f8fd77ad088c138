use vstd::prelude::*;

use crate::element::{
    ElementView, LexerElement, LexerError, LexerPosition, LexerState, chars_of, element_of,
    elements_view, lemma_line_at_next, lemma_line_at_range, line_at,
};
use crate::matcher::{
    LexerTokenMatcher, MatcherView, element, fire, pending_text, lemma_fire_consumes, lemma_match_len_bound, match_len,
    matchers_view,
};
use crate::token::{LexerToken, TokenKind};

verus! {

/// How many characters at the start of `s` matcher `m` takes in scanner state
/// `state`: none where `m` belongs to the other state.
pub open spec fn candidate_len(m: MatcherView, state: LexerState, s: Seq<char>) -> nat {
    if m.state == state {
        match_len(m.pattern, s)
    } else {
        0
    }
}

/// The longest match among the first `k` matchers of `items`, as its index and
/// its length; of equally long matches the first one. A length of 0 means
/// that none of them matches.
pub open spec fn select(items: Seq<MatcherView>, state: LexerState, s: Seq<char>, k: int) -> (int, nat)
    decreases k,
{
    if k <= 0 {
        (0, 0)
    } else {
        let (best, best_len) = select(items, state, s, k - 1);
        let len = candidate_len(items[k - 1], state, s);
        if len > best_len {
            (k - 1, len)
        } else {
            (best, best_len)
        }
    }
}

/// A selected match is a valid index whose candidate length it is, and no
/// longer than the text.
pub proof fn lemma_select_bound(items: Seq<MatcherView>, state: LexerState, s: Seq<char>, k: int)
    requires
        k <= items.len(),
    ensures
        select(items, state, s, k).1 <= s.len(),
        select(items, state, s, k).1 > 0 ==> 0 <= select(items, state, s, k).0 < k,
        select(items, state, s, k).1 > 0 ==> select(items, state, s, k).1 == candidate_len(
            items[select(items, state, s, k).0],
            state,
            s,
        ),
    decreases k,
{
    if k > 0 {
        lemma_select_bound(items, state, s, k - 1);
        lemma_match_len_bound(items[k - 1].pattern, s);
    }
}

/// The output of a scan that reached the end of the source in `state`,
/// having emitted `acc` with text pending from `flush`: where nothing was
/// emitted, the whole source as one inline text; outside a tag, `acc` with
/// the pending text, if any, as a last inline element.
pub open spec fn finish(s: Seq<char>, acc: Seq<ElementView>, flush: int, state: LexerState) -> Seq<ElementView> {
    if acc.len() == 0 {
        seq![element_of(s, 0, s.len() as int, TokenKind::Inline, s)]
    } else if state == LexerState::Initial {
        acc + pending_text(s, flush, s.len() as int)
    } else {
        acc
    }
}

/// The rest of a scan of `s` with the matchers `items`, from offset `cursor`
/// in scanner state `state`, with inline text pending from `flush` and `acc`
/// emitted so far. Where no matcher matches, the character stays pending and
/// the scan moves on by one; otherwise the longest match fires and the scan
/// goes on after what it consumed.
pub open spec fn scan_from(
    s: Seq<char>,
    items: Seq<MatcherView>,
    cursor: int,
    flush: int,
    state: LexerState,
    acc: Seq<ElementView>,
) -> Result<Seq<ElementView>, LexerError>
    decreases s.len() - cursor,
{
    if cursor < 0 || cursor >= s.len() {
        Ok(finish(s, acc, flush, state))
    } else {
        let (best, len) = select(items, state, s.skip(cursor), items.len() as int);
        if len == 0 {
            scan_from(s, items, cursor + 1, flush, state, acc)
        } else {
            match fire(s, items[best].action, cursor, flush, len as int, state) {
                Err(e) => Err(e),
                Ok(step) => {
                    proof {
                        lemma_select_bound(items, state, s.skip(cursor), items.len() as int);
                        lemma_fire_consumes(s, items[best].action, cursor, flush, len as int, state);
                    }
                    scan_from(
                        s,
                        items,
                        cursor + step.consumed,
                        cursor + step.consumed,
                        step.state,
                        acc + step.emitted,
                    )
                },
            }
        }
    }
}

/// Lexing `s` with the matchers `items`: a scan from offset 0, outside any tag.
pub open spec fn lex_with_spec(s: Seq<char>, items: Seq<MatcherView>) -> Result<Seq<ElementView>, LexerError> {
    scan_from(s, items, 0, 0, LexerState::Initial, Seq::empty())
}

/// The view of a lexing result.
pub open spec fn result_view(r: Result<Vec<LexerElement>, LexerError>) -> Result<Seq<ElementView>, LexerError> {
    match r {
        Ok(v) => Ok(elements_view(v@)),
        Err(e) => Err(e),
    }
}

/// The longest of the first `k` lengths in `lens`, as its index and its
/// value; of equal lengths the first. A value of 0 means all are 0.
pub open spec fn longest_of(lens: Seq<usize>, k: int) -> (int, nat)
    decreases k,
{
    if k <= 0 {
        (0, 0)
    } else {
        let (best, best_len) = longest_of(lens, k - 1);
        if lens[k - 1] > best_len {
            (k - 1, lens[k - 1] as nat)
        } else {
            (best, best_len)
        }
    }
}

/// Choosing by candidate lengths is choosing the longest match: where
/// `lens[j]` is what matcher `j` takes, `select` and `longest_of` agree.
pub proof fn lemma_select_is_longest_of(items: Seq<MatcherView>, state: LexerState, s: Seq<char>, lens: Seq<usize>, k: int)
    requires
        0 <= k <= lens.len(),
        k <= items.len(),
        forall|j: int| 0 <= j < k ==> lens[j] == candidate_len(#[trigger] items[j], state, s),
    ensures
        select(items, state, s, k) == longest_of(lens, k),
    decreases k,
{
    if k > 0 {
        lemma_select_is_longest_of(items, state, s, lens, k - 1);
    }
}

/// Picks, among the candidates' match lengths `lens`, the longest: its index
/// and length, the first of equally long ones. A length of 0 means that no
/// candidate matches.
pub fn pick_longest(lens: &Vec<usize>) -> (r: (usize, usize))
    ensures
        (r.0 as int, r.1 as nat) == longest_of(lens@, lens@.len() as int),
{
    let mut best: usize = 0;
    let mut best_len: usize = 0;
    let mut i: usize = 0;
    while i < lens.len()
        invariant
            i <= lens@.len(),
            (best as int, best_len as nat) == longest_of(lens@, i as int),
        decreases lens@.len() - i,
    {
        if lens[i] > best_len {
            best = i;
            best_len = lens[i];
        }
        i = i + 1;
    }
    (best, best_len)
}

/// The matcher that takes the most characters at offset `at` of `chars` in
/// scanner state `state`, the first of equally long ones, as its index and
/// the length of its match; `rest` is the source from `at` on.
pub fn best_match(items: &Vec<LexerTokenMatcher>, state: LexerState, rest: &str, chars: &Vec<char>, at: usize) -> (r: (usize, usize))
    requires
        at <= chars@.len(),
        rest@ == chars@.skip(at as int),
    ensures
        (r.0 as int, r.1 as nat) == select(matchers_view(items@), state, rest@, items@.len() as int),
{
    let mut lens: Vec<usize> = Vec::new();
    let mut i: usize = 0;
    while i < items.len()
        invariant
            at <= chars@.len(),
            rest@ == chars@.skip(at as int),
            i <= items@.len(),
            lens@.len() == i,
            forall|j: int| 0 <= j < i ==> lens@[j] == candidate_len(#[trigger] matchers_view(items@)[j], state, rest@),
        decreases items@.len() - i,
    {
        let item = &items[i];
        if item.state == state {
            lens.push(item.match_length(rest, chars, at));
        } else {
            lens.push(0);
        }
        i = i + 1;
    }
    proof {
        lemma_select_is_longest_of(matchers_view(items@), state, rest@, lens@, items@.len() as int);
    }
    pick_longest(&lens)
}

/// Lexes `form` with the matchers `items`, in order of registration.
pub fn lex_with(form: &str, items: &Vec<LexerTokenMatcher>) -> (r: Result<Vec<LexerElement>, LexerError>)
    requires
        form@.len() < usize::MAX,
    ensures
        result_view(r) == lex_with_spec(form@, matchers_view(items@)),
{
    let chars = chars_of(form);
    let n = chars.len();
    let ghost s = form@;
    let ghost spec_items = matchers_view(items@);
    let mut cursor: usize = 0;
    let mut flush: usize = 0;
    let mut line: usize = 1;
    let mut flush_line: usize = 1;
    let mut state = LexerState::Initial;
    let mut elements: Vec<LexerElement> = Vec::new();
    proof {
        assert(s.take(0) =~= Seq::<char>::empty());
        assert(elements_view(elements@) =~= Seq::<ElementView>::empty());
    }
    while cursor < n
        invariant
            chars@ == s,
            s == form@,
            spec_items == matchers_view(items@),
            n == s.len(),
            n < usize::MAX,
            flush <= cursor <= n,
            line == line_at(s, cursor as int),
            flush_line == line_at(s, flush as int),
            scan_from(s, spec_items, cursor as int, flush as int, state, elements_view(elements@))
                == lex_with_spec(s, spec_items),
        decreases n - cursor,
    {
        let rest = form.substring_char(cursor, n);
        assert(rest@ =~= s.skip(cursor as int));
        let (best, len) = best_match(items, state, rest, &chars, cursor);
        proof {
            lemma_select_bound(spec_items, state, rest@, spec_items.len() as int);
            lemma_line_at_range(s, 0, cursor + 1);
        }
        if len == 0 {
            proof {
                lemma_line_at_next(s, cursor as int);
            }
            if chars[cursor] == '\n' {
                line = line + 1;
            }
            cursor = cursor + 1;
        } else {
            proof {
                lemma_fire_consumes(s, spec_items[best as int].action, cursor as int, flush as int, len as int, state);
            }
            match items[best].apply(form, &chars, cursor, flush, len, flush_line, line, &mut elements, &mut state) {
                Ok((consumed, end_line)) => {
                    cursor = cursor + consumed;
                    flush = cursor;
                    line = end_line;
                    flush_line = end_line;
                },
                Err(e) => {
                    return Err(e);
                },
            }
        }
    }
    if elements.len() == 0 {
        proof {
            lemma_line_at_range(s, 0, n as int);
            assert(s.take(0) =~= Seq::<char>::empty());
        }
        let text = String::from_str(form);
        elements.push(
            LexerElement {
                position: LexerPosition { char_end: n, char_start: 0, line_end: line, line_start: 1 },
                token: LexerToken::new(TokenKind::Inline, text),
            },
        );
        proof {
            assert(s.subrange(0, n as int) =~= s);
            assert(elements_view(elements@) =~= finish(s, Seq::empty(), flush as int, state));
        }
    } else if state == LexerState::Initial && flush < n {
        let ghost before = elements_view(elements@);
        elements.push(element(&chars, form, flush, n, flush_line, line, TokenKind::Inline));
        proof {
            assert(elements_view(elements@) =~= before + pending_text(s, flush as int, n as int));
        }
    } else {
        proof {
            if state == LexerState::Initial {
                assert(pending_text(s, flush as int, n as int) =~= Seq::<ElementView>::empty());
                assert(elements_view(elements@) + pending_text(s, flush as int, n as int) =~= elements_view(elements@));
            }
        }
    }
    Ok(elements)
}

} // verus!

use vstd::prelude::*;

use crate::element::{ElementView, LexerState, element_of};
use crate::lex_spec;
use crate::matcher::{
    pending_text, MatcherAction, MatcherView, Step, closing_quote, fire, lemma_closing_quote_range,
    lemma_fire_consumes, literal_matches, match_len, quoted,
};
use crate::scan::{candidate_len, finish, lemma_select_bound, scan_from, select};
use crate::token::TokenKind;
use crate::tokens::standard_matchers;

verus! {

/// Of the matchers that apply in the scanner's state, the one selected at an
/// offset has the longest match there: no matcher matches more, and every one
/// registered before it matches strictly less. A two-character operator is
/// therefore never shadowed by a one-character prefix registered earlier.
pub proof fn lemma_longest_match_wins(items: Seq<MatcherView>, state: LexerState, s: Seq<char>)
    ensures
        forall|j: int|
            0 <= j < items.len() && items[j].state == state ==> match_len(items[j].pattern, s)
                <= #[trigger] select(items, state, s, items.len() as int).1,
        select(items, state, s, items.len() as int).1 > 0 ==> {
            let (best, len) = select(items, state, s, items.len() as int);
            &&& 0 <= best < items.len()
            &&& match_len(items[best].pattern, s) == len
            &&& forall|j: int|
                0 <= j < best && items[j].state == state ==> #[trigger] match_len(items[j].pattern, s) < len
        },
{
    lemma_select_longest(items, state, s, items.len() as int);
}

/// `select` over the first `k` matchers picks the first longest candidate.
proof fn lemma_select_longest(items: Seq<MatcherView>, state: LexerState, s: Seq<char>, k: int)
    requires
        0 <= k <= items.len(),
    ensures
        forall|j: int| 0 <= j < k ==> candidate_len(items[j], state, s) <= #[trigger] select(items, state, s, k).1,
        select(items, state, s, k).1 > 0 ==> {
            let (best, len) = select(items, state, s, k);
            &&& 0 <= best < k
            &&& candidate_len(items[best], state, s) == len
            &&& forall|j: int| 0 <= j < best ==> #[trigger] candidate_len(items[j], state, s) < len
        },
    decreases k,
{
    if k > 0 {
        lemma_select_longest(items, state, s, k - 1);
    }
}

/// A matcher fires only in the scanner state it is registered under: the
/// selected matcher, where any matches, belongs to the current state, and
/// matchers of the other state take no part in the choice.
pub proof fn lemma_state_scoping(items: Seq<MatcherView>, state: LexerState, s: Seq<char>)
    ensures
        select(items, state, s, items.len() as int).1 > 0 ==> items[select(items, state, s, items.len() as int).0].state
            == state,
        forall|j: int| 0 <= j < items.len() && items[j].state != state ==> #[trigger] candidate_len(items[j], state, s) == 0,
{
    lemma_select_longest(items, state, s, items.len() as int);
}

/// A tag opening first emits the text pending since the last flush as one
/// inline element, just before the opening itself, when that text is not
/// empty; when it is empty, only the opening is emitted. The scanner then
/// enters code.
pub proof fn lemma_tag_opening_flushes(
    s: Seq<char>,
    kind: TokenKind,
    cursor: int,
    flush: int,
    len: int,
    state: LexerState,
)
    requires
        0 <= flush <= cursor,
        0 < len,
        cursor + len <= s.len(),
    ensures
        fire(s, MatcherAction::Open(kind), cursor, flush, len, state) matches Ok(step) && step.state
            == LexerState::Code && step.consumed == len,
        flush < cursor ==> fire(s, MatcherAction::Open(kind), cursor, flush, len, state)->Ok_0.emitted == seq![
            element_of(s, flush, cursor, TokenKind::Inline, s.subrange(flush, cursor)),
            element_of(s, cursor, cursor + len, kind, s.subrange(cursor, cursor + len)),
        ],
        flush == cursor ==> fire(s, MatcherAction::Open(kind), cursor, flush, len, state)->Ok_0.emitted == seq![
            element_of(s, cursor, cursor + len, kind, s.subrange(cursor, cursor + len)),
        ],
{
    let emitted = fire(s, MatcherAction::Open(kind), cursor, flush, len, state)->Ok_0.emitted;
    if flush < cursor {
        assert(emitted =~= seq![
            element_of(s, flush, cursor, TokenKind::Inline, s.subrange(flush, cursor)),
            element_of(s, cursor, cursor + len, kind, s.subrange(cursor, cursor + len)),
        ]);
    } else {
        assert(emitted =~= seq![element_of(s, cursor, cursor + len, kind, s.subrange(cursor, cursor + len))]);
    }
}

/// Scanning the contents of a string quoted by `q`: a quote that the scan
/// reaches unescaped ends the string there, and a backslash takes the
/// character after it into the contents, so an escaped quote never ends it.
pub proof fn lemma_quote_scanning(s: Seq<char>, i: int, q: char)
    requires
        0 <= i < s.len(),
        q != '\\',
    ensures
        s[i] == q ==> closing_quote(s, i, q) == Some(i),
        s[i] == '\\' && i + 1 < s.len() ==> closing_quote(s, i, q) == closing_quote(s, i + 2, q)
            && closing_quote(s, i, q) != Some(i + 1),
{
    if s[i] == '\\' && i + 1 < s.len() {
        lemma_closing_quote_range(s, i + 2, q);
    }
}

/// A closed quoted string becomes one element that spans both quotes and
/// whose text is what lies strictly between them, escapes left as written.
pub proof fn lemma_quoted_string_element(s: Seq<char>, cursor: int, q: char, kind: TokenKind, state: LexerState)
    requires
        0 <= cursor < s.len(),
        closing_quote(s, cursor + 1, q) is Some,
    ensures
        ({
            let c = closing_quote(s, cursor + 1, q)->Some_0;
            &&& cursor + 1 <= c < s.len()
            &&& s[c] == q
            &&& quoted(s, cursor, q, kind, state) == Ok::<Step, crate::element::LexerError>(
                Step {
                    emitted: seq![element_of(s, cursor, c + 1, kind, s.subrange(cursor + 1, c))],
                    consumed: c + 1 - cursor,
                    state,
                },
            )
        }),
{
    lemma_closing_quote_range(s, cursor + 1, q);
}

/// No tag opening anywhere in `s`: neither "{% " nor "{{ ", letter case aside,
/// starts at any offset.
pub open spec fn has_no_tag_opening(s: Seq<char>) -> bool {
    forall|i: int|
        0 <= i < s.len() ==> !literal_matches("{% "@, #[trigger] s.skip(i)) && !literal_matches("{{ "@, s.skip(i))
}

/// Source without a tag opening lexes to exactly one element: inline text
/// holding the whole source, from offset 0 to its end.
pub proof fn lemma_plain_text_is_one_inline(s: Seq<char>)
    requires
        has_no_tag_opening(s),
    ensures
        lex_spec(s) == Ok::<Seq<ElementView>, crate::element::LexerError>(
            seq![element_of(s, 0, s.len() as int, TokenKind::Inline, s)],
        ),
{
    let items = standard_matchers();
    assert forall|c: int| 0 <= c < s.len() implies #[trigger] select(items, LexerState::Initial, s.skip(c), items.len() as int).1 == 0 by {
        let t = s.skip(c);
        assert forall|j: int| 0 <= j < items.len() implies #[trigger] candidate_len(items[j], LexerState::Initial, t) == 0 by {
            assert(items[j].state == LexerState::Code || j == 32 || j == 33);
        }
        lemma_select_longest(items, LexerState::Initial, t, items.len() as int);
    }
    lemma_scan_idle(s, items, 0, 0, LexerState::Initial, Seq::empty());
    assert(finish(s, Seq::empty(), 0, LexerState::Initial) =~= seq![element_of(s, 0, s.len() as int, TokenKind::Inline, s)]);
}

/// While no matcher of the scanner's state matches at any offset ahead, the
/// scan emits nothing more.
proof fn lemma_scan_idle(
    s: Seq<char>,
    items: Seq<MatcherView>,
    cursor: int,
    flush: int,
    state: LexerState,
    acc: Seq<ElementView>,
)
    requires
        0 <= cursor,
        forall|c: int| cursor <= c < s.len() ==> #[trigger] select(items, state, s.skip(c), items.len() as int).1 == 0,
    ensures
        scan_from(s, items, cursor, flush, state, acc) == Ok::<Seq<ElementView>, crate::element::LexerError>(finish(s, acc, flush, state)),
    decreases s.len() - cursor,
{
    if cursor < s.len() {
        lemma_scan_idle(s, items, cursor + 1, flush, state, acc);
    }
}

/// Every span lies within `0..limit`, and the spans run left to right
/// without overlapping.
pub open spec fn spans_in_order(els: Seq<ElementView>, limit: int) -> bool {
    &&& forall|i: int|
        0 <= i < els.len() ==> (#[trigger] els[i]).position.char_start <= els[i].position.char_end <= limit
    &&& forall|i: int, j: int|
        0 <= i < j < els.len() ==> (#[trigger] els[i]).position.char_end <= (#[trigger] els[j]).position.char_start
}

/// The spans leave no character of `0..n` out: the first starts at 0, each
/// starts where the one before it ends, and the last ends at `n`.
pub open spec fn spans_leave_no_gap(els: Seq<ElementView>, n: int) -> bool {
    &&& els.len() > 0
    &&& els[0].position.char_start == 0
    &&& els.last().position.char_end == n
    &&& forall|i: int| 0 <= i < els.len() - 1 ==> #[trigger] abuts(els, i)
}

/// Element `i + 1` starts where element `i` ends.
pub open spec fn abuts(els: Seq<ElementView>, i: int) -> bool {
    els[i].position.char_end == els[i + 1].position.char_start
}

/// The source text under the elements' spans, joined in order.
pub open spec fn joined_spans(s: Seq<char>, els: Seq<ElementView>) -> Seq<char>
    decreases els.len(),
{
    if els.len() == 0 {
        Seq::empty()
    } else {
        joined_spans(s, els.drop_last()) + s.subrange(
            els.last().position.char_start as int,
            els.last().position.char_end as int,
        )
    }
}

/// Lexing never repeats source text: the output is never empty, its first
/// element starts at offset 0, and the elements' spans lie within the source
/// and run left to right without overlapping.
pub proof fn lemma_spans_in_order(s: Seq<char>)
    requires
        s.len() < usize::MAX,
    ensures
        lex_spec(s) matches Ok(els) ==> els.len() > 0 && els[0].position.char_start == 0 && spans_in_order(
            els,
            s.len() as int,
        ),
{
    let items = standard_matchers();
    assert forall|j: int| 0 <= j < items.len() && (#[trigger] items[j]).state == LexerState::Initial implies items[j].action is Open by {
        assert(items[j].state == LexerState::Code || j == 32 || j == 33);
    }
    assert(spans_in_order(Seq::empty(), 0));
    lemma_scan_in_order(s, items, 0, 0, LexerState::Initial, Seq::empty());
}

/// From offset `cursor` on, the scan of `s` never passes over a character
/// inside a tag (every character there is taken by some matcher) and does
/// not end inside a tag.
pub open spec fn takes_all_in_tags(
    s: Seq<char>,
    items: Seq<MatcherView>,
    cursor: int,
    flush: int,
    state: LexerState,
) -> bool
    decreases s.len() - cursor,
{
    if cursor < 0 || cursor >= s.len() {
        state == LexerState::Initial
    } else {
        let (best, len) = select(items, state, s.skip(cursor), items.len() as int);
        if len == 0 {
            state == LexerState::Initial && takes_all_in_tags(s, items, cursor + 1, flush, state)
        } else {
            match fire(s, items[best].action, cursor, flush, len as int, state) {
                Err(_) => true,
                Ok(step) => {
                    proof {
                        lemma_select_bound(items, state, s.skip(cursor), items.len() as int);
                        lemma_fire_consumes(s, items[best].action, cursor, flush, len as int, state);
                    }
                    takes_all_in_tags(s, items, cursor + step.consumed, cursor + step.consumed, step.state)
                },
            }
        }
    }
}

/// Where lexing passes over no character inside a tag and does not end
/// inside one, joining the source text under the elements' spans gives back
/// the source exactly: no character is lost or repeated. Inputs left out
/// have a character inside a tag that no matcher takes (such as the blank
/// before `=` in `{% a = 1 %}`), or a tag that is never closed.
pub proof fn lemma_spans_rebuild_input(s: Seq<char>)
    requires
        s.len() < usize::MAX,
        takes_all_in_tags(s, standard_matchers(), 0, 0, LexerState::Initial),
    ensures
        lex_spec(s) matches Ok(els) ==> joined_spans(s, els) == s,
{
    let items = standard_matchers();
    assert forall|j: int| 0 <= j < items.len() implies #[trigger] kinds_fit(items[j]) by {
        assert(items[j].state == LexerState::Code || j == 32 || j == 33);
    }
    lemma_scan_no_gap(s, items, 0, 0, LexerState::Initial, Seq::empty());
    lemma_spans_in_order(s);
    if let Ok(els) = lex_spec(s) {
        lemma_joined_prefix(s, els, els.len() as int);
        assert(els.take(els.len() as int) =~= els);
        assert(s.subrange(0, s.len() as int) =~= s);
    }
}

/// Where the rest of the scan takes every character inside tags, the output
/// leaves no gap.
#[verifier::spinoff_prover]
#[verifier::rlimit(40)]
proof fn lemma_scan_no_gap(
    s: Seq<char>,
    items: Seq<MatcherView>,
    cursor: int,
    flush: int,
    state: LexerState,
    acc: Seq<ElementView>,
)
    requires
        s.len() < usize::MAX,
        forall|j: int| 0 <= j < items.len() ==> #[trigger] kinds_fit(items[j]),
        takes_all_in_tags(s, items, cursor, flush, state),
        0 <= flush <= cursor <= s.len(),
        state == LexerState::Code ==> flush == cursor,
        acc.len() == 0 ==> flush == 0 && state == LexerState::Initial,
        acc.len() > 0 ==> acc[0].position.char_start == 0 && acc.last().position.char_end == flush,
        forall|i: int| 0 <= i < acc.len() - 1 ==> #[trigger] abuts(acc, i),
    ensures
        scan_from(s, items, cursor, flush, state, acc) matches Ok(els) ==> spans_leave_no_gap(els, s.len() as int),
    decreases s.len() - cursor,
{
    if cursor >= s.len() {
        if acc.len() > 0 {
            let rest = pending_text(s, flush, s.len() as int);
            let els = acc + rest;
            assert forall|i: int| 0 <= i < els.len() - 1 implies #[trigger] abuts(els, i) by {
                if i < acc.len() - 1 {
                    assert(els[i] == acc[i] && els[i + 1] == acc[i + 1]);
                    assert(abuts(acc, i));
                } else {
                    assert(els[i] == acc.last() && els[i + 1] == rest[0]);
                }
            }
            assert(els[0] == acc[0]);
            if rest.len() == 0 {
                assert(els =~= acc);
            }
        }
    } else {
        let t = s.skip(cursor);
        let (best, len) = select(items, state, t, items.len() as int);
        lemma_select_bound(items, state, t, items.len() as int);
        if len == 0 {
            lemma_scan_no_gap(s, items, cursor + 1, flush, state, acc);
        } else {
            let action = items[best].action;
            assert(kinds_fit(items[best]));
            lemma_fire_consumes(s, action, cursor, flush, len as int, state);
            lemma_fire_shape(s, action, cursor, flush, len as int, state);
            if let Ok(step) = fire(s, action, cursor, flush, len as int, state) {
                let next = cursor + step.consumed;
                let e = step.emitted;
                let acc2 = acc + e;
                assert(e[0].position.char_start == flush);
                assert forall|i: int| 0 <= i < acc2.len() - 1 implies #[trigger] abuts(acc2, i) by {
                    if i < acc.len() - 1 {
                        assert(acc2[i] == acc[i] && acc2[i + 1] == acc[i + 1]);
                        assert(abuts(acc, i));
                    } else if i == acc.len() - 1 {
                        assert(acc2[i] == acc.last() && acc2[i + 1] == e[0]);
                    } else {
                        let k = i - acc.len();
                        assert(acc2[i] == e[k] && acc2[i + 1] == e[k + 1]);
                        assert(abuts(e, k));
                    }
                }
                assert(acc2.last() == e.last());
                if acc.len() == 0 {
                    assert(acc2[0] == e[0]);
                } else {
                    assert(acc2[0] == acc[0]);
                }
                lemma_scan_no_gap(s, items, next, next, step.state, acc2);
            }
        }
    }
}

/// Over abutting spans from 0, the joined text of the first `k` elements is
/// the source up to the end of element `k - 1`.
proof fn lemma_joined_prefix(s: Seq<char>, els: Seq<ElementView>, k: int)
    requires
        spans_in_order(els, s.len() as int),
        spans_leave_no_gap(els, s.len() as int),
        0 < k <= els.len(),
    ensures
        joined_spans(s, els.take(k)) == s.subrange(0, els[k - 1].position.char_end as int),
    decreases k,
{
    assert(els.take(k).drop_last() =~= els.take(k - 1));
    if k == 1 {
        assert(els.take(0) =~= Seq::<ElementView>::empty());
        assert(joined_spans(s, els.take(0)) =~= Seq::<char>::empty());
    } else {
        lemma_joined_prefix(s, els, k - 1);
        assert(abuts(els, k - 2));
    }
    assert(joined_spans(s, els.take(k)) =~= s.subrange(0, els[k - 1].position.char_end as int));
}

/// Ordered spans followed by ordered spans that start after the first ones' limit stay ordered.
proof fn lemma_concat_in_order(a: Seq<ElementView>, b: Seq<ElementView>, f: int, g: int)
    requires
        spans_in_order(a, f),
        spans_in_order(b, g),
        f <= g,
        b.len() > 0 ==> f <= b[0].position.char_start,
    ensures
        spans_in_order(a + b, g),
{
    let c = a + b;
    assert forall|i: int, j: int| 0 <= i < j < c.len() implies (#[trigger] c[i]).position.char_end <= (#[trigger] c[j]).position.char_start by {
        if j < a.len() {
        } else if i < a.len() {
            assert(c[j] == b[j - a.len()]);
            assert(b[0].position.char_start <= b[j - a.len()].position.char_start) by {
                if j > a.len() {
                    assert(b[0].position.char_end <= b[j - a.len()].position.char_start);
                }
            }
        } else {
            assert(c[i] == b[i - a.len()]);
            assert(c[j] == b[j - a.len()]);
        }
    }
    assert forall|i: int| 0 <= i < c.len() implies (#[trigger] c[i]).position.char_start <= c[i].position.char_end <= g by {
        if i < a.len() {
        } else {
            assert(c[i] == b[i - a.len()]);
        }
    }
}

/// A firing emits at least one element, in order, from the pending-text mark on,
/// and a tag opening's first element starts exactly at that mark.
proof fn lemma_fire_in_order(s: Seq<char>, action: MatcherAction, cursor: int, flush: int, len: int, state: LexerState)
    requires
        s.len() < usize::MAX,
        0 <= flush <= cursor,
        0 < len,
        cursor + len <= s.len(),
    ensures
        fire(s, action, cursor, flush, len, state) matches Ok(step) ==> {
            &&& step.emitted.len() > 0
            &&& spans_in_order(step.emitted, cursor + step.consumed)
            &&& flush <= step.emitted[0].position.char_start
            &&& action is Open ==> step.emitted[0].position.char_start == flush
        },
{
    lemma_fire_consumes(s, action, cursor, flush, len, state);
    lemma_closing_quote_range(s, cursor + 1, '"');
    lemma_closing_quote_range(s, cursor + 1, '\'');
}

/// The spans of a scan stay ordered when every matcher outside tags opens a tag.
#[verifier::spinoff_prover]
proof fn lemma_scan_in_order(
    s: Seq<char>,
    items: Seq<MatcherView>,
    cursor: int,
    flush: int,
    state: LexerState,
    acc: Seq<ElementView>,
)
    requires
        s.len() < usize::MAX,
        forall|j: int| 0 <= j < items.len() && (#[trigger] items[j]).state == LexerState::Initial ==> items[j].action is Open,
        0 <= flush <= cursor <= s.len(),
        spans_in_order(acc, flush),
        acc.len() > 0 ==> acc[0].position.char_start == 0,
        acc.len() == 0 ==> flush == 0 && state == LexerState::Initial,
    ensures
        scan_from(s, items, cursor, flush, state, acc) matches Ok(els) ==> els.len() > 0
            && els[0].position.char_start == 0 && spans_in_order(els, s.len() as int),
    decreases s.len() - cursor,
{
    if cursor >= s.len() {
        if acc.len() == 0 {
            let whole = finish(s, acc, flush, state);
            assert(spans_in_order(whole, s.len() as int));
        } else if state == LexerState::Initial {
            let rest = pending_text(s, flush, s.len() as int);
            lemma_concat_in_order(acc, rest, flush, s.len() as int);
            assert((acc + rest)[0] == acc[0]);
        }
    } else {
        let t = s.skip(cursor);
        let (best, len) = select(items, state, t, items.len() as int);
        lemma_select_bound(items, state, t, items.len() as int);
        if len == 0 {
            lemma_scan_in_order(s, items, cursor + 1, flush, state, acc);
        } else {
            let action = items[best].action;
            lemma_fire_consumes(s, action, cursor, flush, len as int, state);
            lemma_fire_in_order(s, action, cursor, flush, len as int, state);
            if let Ok(step) = fire(s, action, cursor, flush, len as int, state) {
                let next = cursor + step.consumed;
                lemma_concat_in_order(acc, step.emitted, flush, next);
                let acc2 = acc + step.emitted;
                assert(acc2.len() > 0);
                if acc.len() == 0 {
                    assert(acc2[0] == step.emitted[0]);
                } else {
                    assert(acc2[0] == acc[0]);
                }
                lemma_scan_in_order(s, items, next, next, step.state, acc2);
            }
        }
    }
}

/// Whether `k` closes a tag.
pub open spec fn closes_tag(k: TokenKind) -> bool {
    k == TokenKind::CloseTag || k == TokenKind::CloseTagWithEcho
}

/// Where characters lie between element `i` and the next, element `i` is
/// not a tag closing: the scanner was inside a tag.
pub open spec fn gap_is_inside_tag(els: Seq<ElementView>, i: int) -> bool {
    els[i].position.char_end < els[i + 1].position.char_start ==> !closes_tag(els[i].token.kind)
}

/// Where the last element ends before the end of the source, it is neither
/// inline text nor a tag closing: the scan ended inside a tag.
pub open spec fn ends_inside_tag_if_short(els: Seq<ElementView>, n: int) -> bool {
    els.len() > 0 && els.last().position.char_end < n ==> !closes_tag(els.last().token.kind)
        && els.last().token.kind != TokenKind::Inline
}

/// Text outside tags is never lost: a character that falls
/// between two consecutive elements always follows an element after which
/// the scanner was inside a tag (one that the scan passed over there, as no
/// matcher took it), and text after the last tag closing ends the output as
/// inline text. So characters go missing only inside tags: between code
/// tokens, or at the end of a tag that is never closed.
pub proof fn lemma_gaps_only_inside_tags(s: Seq<char>)
    requires
        s.len() < usize::MAX,
    ensures
        lex_spec(s) matches Ok(els) ==> forall|i: int| 0 <= i < els.len() - 1 ==> #[trigger] gap_is_inside_tag(els, i),
        lex_spec(s) matches Ok(els) ==> ends_inside_tag_if_short(els, s.len() as int),
{
    let items = standard_matchers();
    assert forall|j: int| 0 <= j < items.len() implies #[trigger] kinds_fit(items[j]) by {
        assert(items[j].state == LexerState::Code || j == 32 || j == 33);
    }
    lemma_scan_gaps(s, items, 0, 0, LexerState::Initial, Seq::empty());
}

/// A matcher outside tags opens one, only tag closings emit a closing kind,
/// and no matcher emits inline text of its own.
pub open spec fn kinds_fit(m: MatcherView) -> bool {
    &&& m.state == LexerState::Initial ==> m.action is Open
    &&& m.action matches MatcherAction::Emit(k) ==> !closes_tag(k) && k != TokenKind::Inline
    &&& m.action matches MatcherAction::Open(k) ==> !closes_tag(k) && k != TokenKind::Inline
    &&& m.action matches MatcherAction::Close(k) ==> k != TokenKind::Inline
}

/// What a firing emits: at least one element, each starting where the one
/// before it ends, the last ending where the firing stops; only a tag
/// closing emits a closing kind, and it leaves the scanner outside tags.
proof fn lemma_fire_shape(s: Seq<char>, action: MatcherAction, cursor: int, flush: int, len: int, state: LexerState)
    requires
        s.len() < usize::MAX,
        0 <= flush <= cursor,
        0 < len,
        cursor + len <= s.len(),
        action matches MatcherAction::Emit(k) ==> !closes_tag(k) && k != TokenKind::Inline,
        action matches MatcherAction::Open(k) ==> !closes_tag(k) && k != TokenKind::Inline,
        action matches MatcherAction::Close(k) ==> k != TokenKind::Inline,
    ensures
        fire(s, action, cursor, flush, len, state) matches Ok(step) ==> {
            &&& step.emitted.len() > 0
            &&& forall|i: int| 0 <= i < step.emitted.len() - 1 ==> #[trigger] abuts(step.emitted, i)
            &&& (action is Open ==> step.emitted[0].position.char_start == flush)
            &&& step.emitted.last().position.char_end == cursor + step.consumed
            &&& closes_tag(step.emitted.last().token.kind) ==> step.state == LexerState::Initial
            &&& step.emitted.last().token.kind != TokenKind::Inline
        },
{
    lemma_fire_consumes(s, action, cursor, flush, len, state);
    lemma_closing_quote_range(s, cursor + 1, '"');
    lemma_closing_quote_range(s, cursor + 1, '\'');
}

/// The gap property is kept by every step of a scan.
#[verifier::spinoff_prover]
proof fn lemma_scan_gaps(
    s: Seq<char>,
    items: Seq<MatcherView>,
    cursor: int,
    flush: int,
    state: LexerState,
    acc: Seq<ElementView>,
)
    requires
        s.len() < usize::MAX,
        forall|j: int| 0 <= j < items.len() ==> #[trigger] kinds_fit(items[j]),
        0 <= flush <= cursor <= s.len(),
        acc.len() > 0 && closes_tag(acc.last().token.kind) ==> state == LexerState::Initial
            && acc.last().position.char_end == flush,
        forall|i: int| 0 <= i < acc.len() - 1 ==> #[trigger] gap_is_inside_tag(acc, i),
        acc.len() > 0 ==> acc.last().token.kind != TokenKind::Inline,
        acc.len() == 0 ==> state == LexerState::Initial,
    ensures
        scan_from(s, items, cursor, flush, state, acc) matches Ok(els) ==> {
            &&& forall|i: int| 0 <= i < els.len() - 1 ==> #[trigger] gap_is_inside_tag(els, i)
            &&& ends_inside_tag_if_short(els, s.len() as int)
        },
    decreases s.len() - cursor,
{
    if cursor >= s.len() {
        if acc.len() > 0 && state == LexerState::Initial {
            let rest = pending_text(s, flush, s.len() as int);
            let els = acc + rest;
            assert forall|i: int| 0 <= i < els.len() - 1 implies #[trigger] gap_is_inside_tag(els, i) by {
                if i < acc.len() - 1 {
                    assert(els[i] == acc[i] && els[i + 1] == acc[i + 1]);
                    assert(gap_is_inside_tag(acc, i));
                } else {
                    assert(els[i] == acc.last() && els[i + 1] == rest[0]);
                }
            }
            if rest.len() == 0 {
                assert(els =~= acc);
            }
        }
    } else {
        let t = s.skip(cursor);
        let (best, len) = select(items, state, t, items.len() as int);
        lemma_select_bound(items, state, t, items.len() as int);
        if len == 0 {
            lemma_scan_gaps(s, items, cursor + 1, flush, state, acc);
        } else {
            let action = items[best].action;
            assert(kinds_fit(items[best]));
            lemma_fire_consumes(s, action, cursor, flush, len as int, state);
            lemma_fire_shape(s, action, cursor, flush, len as int, state);
            if let Ok(step) = fire(s, action, cursor, flush, len as int, state) {
                let next = cursor + step.consumed;
                let e = step.emitted;
                let acc2 = acc + e;
                assert forall|i: int| 0 <= i < acc2.len() - 1 implies #[trigger] gap_is_inside_tag(acc2, i) by {
                    if i < acc.len() - 1 {
                        assert(acc2[i] == acc[i] && acc2[i + 1] == acc[i + 1]);
                        assert(gap_is_inside_tag(acc, i));
                    } else if i == acc.len() - 1 {
                        assert(acc2[i] == acc.last() && acc2[i + 1] == e[0]);
                        if closes_tag(acc.last().token.kind) {
                            assert(items[best].state == LexerState::Initial);
                        }
                    } else {
                        let k = i - acc.len();
                        assert(acc2[i] == e[k] && acc2[i + 1] == e[k + 1]);
                        assert(abuts(e, k));
                    }
                }
                assert(acc2.last() == e.last());
                assert(acc2.len() > 0);
                lemma_scan_gaps(s, items, next, next, step.state, acc2);
            }
        }
    }
}

/// Whether `k` opens a tag.
pub open spec fn opens_tag(k: TokenKind) -> bool {
    k == TokenKind::OpenTag || k == TokenKind::OpenTagWithEcho
}

/// Whether the elements `els`, read in order, leave the reader inside a tag:
/// the last tag opening or closing among them is an opening.
pub open spec fn inside_after(els: Seq<ElementView>) -> bool
    decreases els.len(),
{
    if els.len() == 0 {
        false
    } else if opens_tag(els.last().token.kind) {
        true
    } else if closes_tag(els.last().token.kind) {
        false
    } else {
        inside_after(els.drop_last())
    }
}

/// Element `i` stands where its kind belongs: inline text and tag openings
/// outside tags, every other token (code tokens and tag closings) inside one.
pub open spec fn at_right_depth(els: Seq<ElementView>, i: int) -> bool {
    let k = els[i].token.kind;
    if k == TokenKind::Inline || opens_tag(k) {
        !inside_after(els.take(i))
    } else {
        inside_after(els.take(i))
    }
}

/// Matchers never fire outside their state, seen on the output: tags never
/// nest, inline text and tag openings stand only outside tags, and every
/// code token and tag closing stands inside one.
pub proof fn lemma_tokens_at_right_depth(s: Seq<char>)
    ensures
        lex_spec(s) matches Ok(els) ==> forall|i: int| 0 <= i < els.len() ==> #[trigger] at_right_depth(els, i),
{
    let items = standard_matchers();
    assert forall|j: int| 0 <= j < items.len() implies #[trigger] depth_fit(items[j]) by {
        assert(items[j].state == LexerState::Code || j == 32 || j == 33);
    }
    lemma_scan_depth(s, items, 0, 0, LexerState::Initial, Seq::empty());
}

/// Tag openings are exactly the matchers outside tags and emit an opening
/// kind, tag closings emit a closing kind, and other fixed tokens neither.
pub open spec fn depth_fit(m: MatcherView) -> bool {
    &&& (m.action is Open) == (m.state == LexerState::Initial)
    &&& m.action matches MatcherAction::Open(k) ==> opens_tag(k)
    &&& m.action matches MatcherAction::Close(k) ==> closes_tag(k)
    &&& m.action matches MatcherAction::Emit(k) ==> k != TokenKind::Inline && !opens_tag(k) && !closes_tag(k)
}

/// Appending elements that neither open nor close a tag keeps the reader
/// where it was.
proof fn lemma_inside_after_plain(a: Seq<ElementView>, b: Seq<ElementView>)
    requires
        forall|j: int| 0 <= j < b.len() ==> !opens_tag((#[trigger] b[j]).token.kind) && !closes_tag(b[j].token.kind),
    ensures
        inside_after(a + b) == inside_after(a),
    decreases b.len(),
{
    if b.len() == 0 {
        assert(a + b =~= a);
    } else {
        assert((a + b).drop_last() =~= a + b.drop_last());
        assert((a + b).last() == b.last());
        assert(b.last() == b[b.len() - 1]);
        lemma_inside_after_plain(a, b.drop_last());
    }
}

/// Every step of a scan keeps each element at its depth, and the reader is
/// inside a tag exactly when the scanner is in code.
#[verifier::spinoff_prover]
proof fn lemma_scan_depth(
    s: Seq<char>,
    items: Seq<MatcherView>,
    cursor: int,
    flush: int,
    state: LexerState,
    acc: Seq<ElementView>,
)
    requires
        forall|j: int| 0 <= j < items.len() ==> #[trigger] depth_fit(items[j]),
        0 <= cursor,
        inside_after(acc) == (state == LexerState::Code),
        forall|i: int| 0 <= i < acc.len() ==> #[trigger] at_right_depth(acc, i),
    ensures
        scan_from(s, items, cursor, flush, state, acc) matches Ok(els) ==> forall|i: int|
            0 <= i < els.len() ==> #[trigger] at_right_depth(els, i),
    decreases s.len() - cursor,
{
    if cursor >= s.len() {
        let els = finish(s, acc, flush, state);
        if acc.len() == 0 {
            assert(els.take(0) =~= Seq::<ElementView>::empty());
            assert(at_right_depth(els, 0));
        } else if state == LexerState::Initial {
            let rest = pending_text(s, flush, s.len() as int);
            assert forall|i: int| 0 <= i < els.len() implies #[trigger] at_right_depth(els, i) by {
                if i < acc.len() {
                    assert(els.take(i) =~= acc.take(i));
                    assert(els[i] == acc[i]);
                    assert(at_right_depth(acc, i));
                } else {
                    assert(els.take(i) =~= acc);
                }
            }
        }
    } else {
        let t = s.skip(cursor);
        let (best, len) = select(items, state, t, items.len() as int);
        lemma_select_bound(items, state, t, items.len() as int);
        if len == 0 {
            lemma_scan_depth(s, items, cursor + 1, flush, state, acc);
        } else {
            let action = items[best].action;
            assert(depth_fit(items[best]));
            lemma_fire_consumes(s, action, cursor, flush, len as int, state);
            if let Ok(step) = fire(s, action, cursor, flush, len as int, state) {
                let e = step.emitted;
                let acc2 = acc + e;
                assert forall|i: int| 0 <= i < acc2.len() implies #[trigger] at_right_depth(acc2, i) by {
                    if i < acc.len() {
                        assert(acc2.take(i) =~= acc.take(i));
                        assert(acc2[i] == acc[i]);
                        assert(at_right_depth(acc, i));
                    } else {
                        let k = i - acc.len();
                        assert(acc2.take(i) =~= acc + e.take(k));
                        assert(acc2[i] == e[k]);
                        lemma_inside_after_plain(acc, e.take(k));
                    }
                }
                lemma_inside_after_plain(acc, e.drop_last());
                assert(acc2.drop_last() =~= acc + e.drop_last());
                assert(acc2.last() == e.last());
                lemma_scan_depth(s, items, cursor + step.consumed, cursor + step.consumed, step.state, acc2);
            }
        }
    }
}

} // verus!

use milstian_templates::scan::pick_longest;
use milstian_templates::tokens::get_lexer_items;
use milstian_templates::{
    LexerElement, LexerError, LexerPosition, LexerState, LexerToken, LexerTokenMatchPattern,
    LexerTokenMatcher, MatcherAction, Template, TokenKind,
};

fn lex(form: &str) -> Result<Vec<LexerElement>, LexerError> {
    Template::new(form.to_string(), None).lex()
}

fn tokens(form: &str) -> Vec<LexerToken> {
    lex(form).unwrap().into_iter().map(|e| e.token).collect()
}

fn joined_spans(form: &str) -> String {
    let chars: Vec<char> = form.chars().collect();
    lex(form)
        .unwrap()
        .iter()
        .map(|e| chars[e.position.char_start..e.position.char_end].iter().collect::<String>())
        .collect()
}

#[test]
fn plain_text_is_one_inline_element() {
    let elements = lex("Just text, { and % but no tag }").unwrap();
    assert_eq!(elements.len(), 1);
    assert_eq!(elements[0].token, LexerToken::Inline("Just text, { and % but no tag }".to_string()));
    assert_eq!(elements[0].position, LexerPosition { char_end: 31, char_start: 0, line_end: 1, line_start: 1 });
}

#[test]
fn plain_text_on_several_lines() {
    let elements = lex("one\ntwo\nthree").unwrap();
    assert_eq!(elements.len(), 1);
    assert_eq!(elements[0].position, LexerPosition { char_end: 13, char_start: 0, line_end: 3, line_start: 1 });
}

#[test]
fn spans_rebuild_the_input() {
    let form = "Hello {{ name }}, you have {% n>1 %}";
    assert_eq!(joined_spans(form), form);
    let form = "x{%  a %}";
    assert_eq!(joined_spans(form), "x{% a %}");
}

#[test]
fn spans_are_ordered() {
    let form = "a {% b = 1 %} c {{ d }} e";
    let elements = lex(form).unwrap();
    assert_eq!(elements[0].position.char_start, 0);
    for pair in elements.windows(2) {
        assert!(pair[0].position.char_end <= pair[1].position.char_start);
    }
}

#[test]
fn characters_go_missing_only_inside_tags() {
    let form = "a {% b = 1 %} c {{ d }}";
    let elements = lex(form).unwrap();
    for pair in elements.windows(2) {
        if pair[0].position.char_end < pair[1].position.char_start {
            assert_ne!(pair[0].token, LexerToken::CloseTag);
            assert_ne!(pair[0].token, LexerToken::CloseTagWithEcho);
        }
    }
    assert_eq!(joined_spans(form), "a {% b=1 %} c {{ d }}");
    assert_eq!(joined_spans("{% a %} tail"), "{% a %} tail");
    assert_eq!(joined_spans("{% a  tail"), "{% atail");
}

#[test]
fn text_after_the_last_tag_is_kept() {
    let elements = lex("a {% x %}b").unwrap();
    assert_eq!(elements.last().unwrap().token, LexerToken::Inline("b".to_string()));
    assert_eq!(elements.last().unwrap().position, LexerPosition { char_end: 10, char_start: 9, line_end: 1, line_start: 1 });
    let template = Template::new("a {% x %}b".to_string(), None);
    assert_eq!(template.process(), Ok("a b".to_string()));
    assert_eq!(tokens("{% x %}").last().unwrap(), &LexerToken::CloseTag);
}

#[test]
fn numbers_of_any_length() {
    assert_eq!(tokens("{% 0 %}")[1], LexerToken::Integer("0".to_string()));
    assert_eq!(tokens("{% 120 %}")[1], LexerToken::Integer("120".to_string()));
    assert_eq!(tokens("{% 12.5 %}")[1], LexerToken::Float("12.5".to_string()));
}

#[test]
fn literals_ignore_unicode_letter_case() {
    let accented = LexerTokenMatcher::new(
        LexerTokenMatchPattern::Literal("é".to_string()),
        LexerState::Code,
        MatcherAction::Emit(TokenKind::Variable),
    );
    assert_eq!(accented.test("Éa"), 1);
    assert_eq!(accented.test("e"), 0);
    assert_eq!(tokens("{% ElSeIf %}")[1], LexerToken::ElseIf);
}

#[test]
fn longest_match_wins() {
    assert_eq!(
        tokens("{% a<=b %}"),
        vec![
            LexerToken::OpenTag,
            LexerToken::Variable("a".to_string()),
            LexerToken::LesserOrEqualThan,
            LexerToken::Variable("b".to_string()),
            LexerToken::CloseTag,
        ]
    );
    assert_eq!(tokens("{% ifx %}")[1], LexerToken::Variable("ifx".to_string()));
    assert_eq!(tokens("{% elseif %}")[1], LexerToken::ElseIf);
    assert_eq!(tokens("{% 1.5 %}")[1], LexerToken::Float("1.5".to_string()));
}

#[test]
fn equal_lengths_go_to_the_first_registered() {
    assert_eq!(tokens("{% if %}")[1], LexerToken::If);
    assert_eq!(tokens("{% IF %}")[1], LexerToken::If);
    assert_eq!(tokens("{% else %}")[1], LexerToken::Else);
}

#[test]
fn code_matchers_stay_out_of_text() {
    assert_eq!(tokens("a + b; if (x)"), vec![LexerToken::Inline("a + b; if (x)".to_string())]);
}

#[test]
fn text_matchers_stay_out_of_code() {
    assert_eq!(
        tokens("{% a {% b %}"),
        vec![
            LexerToken::OpenTag,
            LexerToken::Variable("a".to_string()),
            LexerToken::OpenCurlyBracket,
            LexerToken::Variable("b".to_string()),
            LexerToken::CloseTag,
        ]
    );
}

#[test]
fn tag_opening_flushes_pending_text() {
    let elements = lex("ab{% x %}").unwrap();
    assert_eq!(elements[0].token, LexerToken::Inline("ab".to_string()));
    assert_eq!(elements[0].position.char_start, 0);
    assert_eq!(elements[0].position.char_end, 2);
    assert_eq!(elements[1].token, LexerToken::OpenTag);
}

#[test]
fn tag_opening_without_pending_text() {
    let elements = lex("{% x %}{{ y }}").unwrap();
    assert_eq!(
        elements.into_iter().map(|e| e.token).collect::<Vec<_>>(),
        vec![
            LexerToken::OpenTag,
            LexerToken::Variable("x".to_string()),
            LexerToken::CloseTag,
            LexerToken::OpenTagWithEcho,
            LexerToken::Variable("y".to_string()),
            LexerToken::CloseTagWithEcho,
        ]
    );
}

#[test]
fn escaped_quote_does_not_close_a_string() {
    let elements = lex("{{ \"say \\\"hi\\\"\" }}").unwrap();
    assert_eq!(elements[1].token, LexerToken::DoubleQuotedString("say \\\"hi\\\"".to_string()));
    assert_eq!(elements[1].position.char_start, 3);
    assert_eq!(elements[1].position.char_end, 15);
    assert_eq!(elements[2].token, LexerToken::CloseTagWithEcho);
}

#[test]
fn empty_and_single_quoted_strings() {
    assert_eq!(tokens("{{ \"\" }}")[1], LexerToken::DoubleQuotedString(String::new()));
    assert_eq!(tokens("{{ 'it''s' }}")[1], LexerToken::SingleQuotedString("it".to_string()));
    assert_eq!(tokens("{{ 'a\"b' }}")[1], LexerToken::SingleQuotedString("a\"b".to_string()));
}

#[test]
fn unterminated_string_is_an_error() {
    assert_eq!(
        lex("ab {{ \"open }}"),
        Err(LexerError::UnterminatedString(LexerPosition { char_end: 14, char_start: 6, line_end: 1, line_start: 1 }))
    );
    let template = Template::new("{{ 'x }}".to_string(), None);
    assert_eq!(template.process(), Err("Failed to lex form, error: unterminated string literal".to_string()));
}

#[test]
fn lines_follow_line_feeds() {
    let elements = lex("a\nb {% x\n%}").unwrap();
    assert_eq!(elements[0].position, LexerPosition { char_end: 4, char_start: 0, line_end: 2, line_start: 1 });
    assert_eq!(elements[1].position, LexerPosition { char_end: 7, char_start: 4, line_end: 2, line_start: 2 });
    assert_eq!(elements[2].position, LexerPosition { char_end: 8, char_start: 7, line_end: 2, line_start: 2 });
    let elements = lex("{{ \"a\nb\" }}").unwrap();
    assert_eq!(elements[1].position, LexerPosition { char_end: 8, char_start: 3, line_end: 2, line_start: 1 });
}

#[test]
fn example_three() {
    assert_eq!(
        tokens("{% a = 1; a++ %}"),
        vec![
            LexerToken::OpenTag,
            LexerToken::Variable("a".to_string()),
            LexerToken::Assign,
            LexerToken::Integer("1".to_string()),
            LexerToken::Semicolon,
            LexerToken::Variable("a".to_string()),
            LexerToken::AddOne,
            LexerToken::CloseTag,
        ]
    );
}

#[test]
fn matcher_test_on_literals_and_patterns() {
    let items = get_lexer_items();
    assert_eq!(items.len(), 41);
    let keyword = LexerTokenMatcher::new(
        LexerTokenMatchPattern::Literal("endif".to_string()),
        LexerState::Code,
        MatcherAction::Emit(TokenKind::EndIf),
    );
    assert_eq!(keyword.test("ENDIF x"), 5);
    assert_eq!(keyword.test("end"), 0);
    let name = LexerTokenMatcher::new(
        LexerTokenMatchPattern::Regex("[a-z]+".to_string()),
        LexerState::Code,
        MatcherAction::Emit(TokenKind::Variable),
    );
    assert_eq!(name.test("abc def"), 3);
    assert_eq!(name.test(" abc"), 0);
    assert_eq!(name.test("ééabc"), 0);
    let alternatives = LexerTokenMatcher::new(
        LexerTokenMatchPattern::Regex("x|ab".to_string()),
        LexerState::Code,
        MatcherAction::Emit(TokenKind::Variable),
    );
    assert_eq!(alternatives.test("zab"), 0);
    assert_eq!(alternatives.test("abz"), 2);
    let broken = LexerTokenMatcher::new(
        LexerTokenMatchPattern::Regex("(".to_string()),
        LexerState::Code,
        MatcherAction::Emit(TokenKind::Variable),
    );
    assert_eq!(broken.test("(("), 0);
}

#[test]
fn execute_flushes_and_enters_code() {
    let open = LexerTokenMatcher::new(
        LexerTokenMatchPattern::Literal("{% ".to_string()),
        LexerState::Initial,
        MatcherAction::Open(TokenKind::OpenTag),
    );
    let mut length: usize = 3;
    let mut line_end: usize = 1;
    let mut elements = Vec::new();
    let mut state = LexerState::Initial;
    let r = open.execute("xy{% a", &2, &0, &0, &mut length, &1, &1, &mut line_end, &mut elements, &mut state);
    assert_eq!(r, Ok(()));
    assert_eq!(length, 3);
    assert_eq!(state, LexerState::Code);
    assert_eq!(
        elements,
        vec![
            LexerElement {
                position: LexerPosition { char_end: 2, char_start: 0, line_end: 1, line_start: 1 },
                token: LexerToken::Inline("xy".to_string()),
            },
            LexerElement {
                position: LexerPosition { char_end: 5, char_start: 2, line_end: 1, line_start: 1 },
                token: LexerToken::OpenTag,
            },
        ]
    );
}

#[test]
fn execute_reads_a_quoted_string() {
    let quote = LexerTokenMatcher::new(
        LexerTokenMatchPattern::Literal("'".to_string()),
        LexerState::Code,
        MatcherAction::SingleQuoted,
    );
    let mut length: usize = 1;
    let mut line_end: usize = 1;
    let mut elements = Vec::new();
    let mut state = LexerState::Code;
    let r = quote.execute("x 'a\\'b' y", &2, &0, &2, &mut length, &1, &1, &mut line_end, &mut elements, &mut state);
    assert_eq!(r, Ok(()));
    assert_eq!(length, 6);
    assert_eq!(elements[0].token, LexerToken::SingleQuotedString("a\\'b".to_string()));
    assert_eq!(elements[0].position.char_end, 8);
}

#[test]
fn pick_longest_prefers_length_then_registration() {
    assert_eq!(pick_longest(&vec![1, 2, 2, 0]), (1, 2));
    assert_eq!(pick_longest(&vec![0, 0, 0]), (0, 0));
    assert_eq!(pick_longest(&vec![]), (0, 0));
    assert_eq!(pick_longest(&vec![1, 0, 3]), (2, 3));
}

fn registered(pattern: &str) -> LexerTokenMatcher {
    get_lexer_items()
        .into_iter()
        .find(|m| m.pattern == LexerTokenMatchPattern::Literal(pattern.to_string()))
        .unwrap()
}

#[test]
fn registered_assign_matcher_emits_assign() {
    let assign = registered("=");
    let mut length: usize = assign.test("= 1");
    assert_eq!(length, 1);
    let mut line_end: usize = 1;
    let mut elements = Vec::new();
    let mut state = LexerState::Code;
    let r = assign.execute("{% a = 1", &5, &3, &4, &mut length, &1, &1, &mut line_end, &mut elements, &mut state);
    assert_eq!(r, Ok(()));
    assert_eq!(
        elements,
        vec![LexerElement {
            position: LexerPosition { char_end: 6, char_start: 5, line_end: 1, line_start: 1 },
            token: LexerToken::Assign,
        }]
    );
    assert_eq!(state, LexerState::Code);
}

#[test]
fn registered_echo_opening_flushes() {
    let open = registered("{{ ");
    let mut length: usize = open.test("{{ x }}");
    assert_eq!(length, 3);
    let mut line_end: usize = 1;
    let mut elements = Vec::new();
    let mut state = LexerState::Initial;
    let r = open.execute("hi {{ x }}", &3, &0, &0, &mut length, &1, &1, &mut line_end, &mut elements, &mut state);
    assert_eq!(r, Ok(()));
    assert_eq!(state, LexerState::Code);
    assert_eq!(elements[0].token, LexerToken::Inline("hi ".to_string()));
    assert_eq!(elements[1].token, LexerToken::OpenTagWithEcho);
    assert_eq!(elements[1].position.char_start, 3);
    assert_eq!(elements[1].position.char_end, 6);
}

#[test]
fn registered_double_quote_reads_past_escapes() {
    let quote = registered("\"");
    let mut length: usize = 1;
    let mut line_end: usize = 1;
    let mut elements = Vec::new();
    let mut state = LexerState::Code;
    let buffer = "{{ \"a\\\"b\" }}";
    let r = quote.execute(buffer, &3, &0, &3, &mut length, &1, &1, &mut line_end, &mut elements, &mut state);
    assert_eq!(r, Ok(()));
    assert_eq!(length, 6);
    assert_eq!(elements[0].token, LexerToken::DoubleQuotedString("a\\\"b".to_string()));
    assert_eq!(elements[0].position.char_start, 3);
    assert_eq!(elements[0].position.char_end, 9);
}

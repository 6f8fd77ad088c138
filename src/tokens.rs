use vstd::prelude::*;

use crate::element::LexerState;
use crate::matcher::{LexerTokenMatchPattern, LexerTokenMatcher, MatcherAction, MatcherView, PatternView, matchers_view};
use crate::token::TokenKind;

verus! {

/// The matcher for the fixed string `lit`.
pub open spec fn literal_rule(lit: Seq<char>, state: LexerState, action: MatcherAction) -> MatcherView {
    MatcherView { pattern: PatternView::Literal(lit), state, action }
}

/// The matcher for the regular expression `re`.
pub open spec fn regex_rule(re: Seq<char>, state: LexerState, action: MatcherAction) -> MatcherView {
    MatcherView { pattern: PatternView::Regex(re), state, action }
}

/// The template language's matchers, in order of registration. Tag openings
/// are the only matchers outside tags. Keywords come before the variable
/// pattern, which matches them as well: of equally long matches the first
/// registered wins.
pub open spec fn standard_matchers() -> Seq<MatcherView> {
    seq![
        literal_rule("+"@, LexerState::Code, MatcherAction::Emit(TokenKind::Addition)),
        literal_rule("++"@, LexerState::Code, MatcherAction::Emit(TokenKind::AddOne)),
        literal_rule("and"@, LexerState::Code, MatcherAction::Emit(TokenKind::And)),
        literal_rule("&&"@, LexerState::Code, MatcherAction::Emit(TokenKind::And)),
        literal_rule("as"@, LexerState::Code, MatcherAction::Emit(TokenKind::As)),
        literal_rule("="@, LexerState::Code, MatcherAction::Emit(TokenKind::Assign)),
        regex_rule(r"[a-zA-Z][a-zA-Z0-9_]*\("@, LexerState::Code, MatcherAction::Call),
        literal_rule("}"@, LexerState::Code, MatcherAction::Emit(TokenKind::CloseCurlyBracket)),
        literal_rule(")"@, LexerState::Code, MatcherAction::Emit(TokenKind::CloseParenthesis)),
        literal_rule(" %}"@, LexerState::Code, MatcherAction::Close(TokenKind::CloseTag)),
        literal_rule(" }}"@, LexerState::Code, MatcherAction::Close(TokenKind::CloseTagWithEcho)),
        literal_rule(","@, LexerState::Code, MatcherAction::Emit(TokenKind::Comma)),
        literal_rule("/"@, LexerState::Code, MatcherAction::Emit(TokenKind::Division)),
        literal_rule("\""@, LexerState::Code, MatcherAction::DoubleQuoted),
        literal_rule("endforeach"@, LexerState::Code, MatcherAction::Emit(TokenKind::EndForEach)),
        literal_rule("else"@, LexerState::Code, MatcherAction::Emit(TokenKind::Else)),
        literal_rule("elseif"@, LexerState::Code, MatcherAction::Emit(TokenKind::ElseIf)),
        literal_rule("endif"@, LexerState::Code, MatcherAction::Emit(TokenKind::EndIf)),
        literal_rule("equals"@, LexerState::Code, MatcherAction::Emit(TokenKind::Equals)),
        literal_rule("=="@, LexerState::Code, MatcherAction::Emit(TokenKind::Equals)),
        regex_rule(r"[0-9]+\.[0-9]+"@, LexerState::Code, MatcherAction::Emit(TokenKind::Float)),
        literal_rule("foreach"@, LexerState::Code, MatcherAction::Emit(TokenKind::ForEach)),
        literal_rule(">"@, LexerState::Code, MatcherAction::Emit(TokenKind::GreaterThan)),
        literal_rule(">="@, LexerState::Code, MatcherAction::Emit(TokenKind::GreaterOrEqualThan)),
        literal_rule("if"@, LexerState::Code, MatcherAction::Emit(TokenKind::If)),
        regex_rule(r"[0-9]+"@, LexerState::Code, MatcherAction::Emit(TokenKind::Integer)),
        literal_rule("<"@, LexerState::Code, MatcherAction::Emit(TokenKind::LesserThan)),
        literal_rule("<="@, LexerState::Code, MatcherAction::Emit(TokenKind::LesserOrEqualThan)),
        literal_rule("<>"@, LexerState::Code, MatcherAction::Emit(TokenKind::LesserOrGreaterThan)),
        literal_rule("*"@, LexerState::Code, MatcherAction::Emit(TokenKind::Multiplication)),
        literal_rule("{"@, LexerState::Code, MatcherAction::Emit(TokenKind::OpenCurlyBracket)),
        literal_rule("("@, LexerState::Code, MatcherAction::Emit(TokenKind::OpenParenthesis)),
        literal_rule("{% "@, LexerState::Initial, MatcherAction::Open(TokenKind::OpenTag)),
        literal_rule("{{ "@, LexerState::Initial, MatcherAction::Open(TokenKind::OpenTagWithEcho)),
        literal_rule("or"@, LexerState::Code, MatcherAction::Emit(TokenKind::Or)),
        literal_rule("||"@, LexerState::Code, MatcherAction::Emit(TokenKind::Or)),
        literal_rule(";"@, LexerState::Code, MatcherAction::Emit(TokenKind::Semicolon)),
        literal_rule("'"@, LexerState::Code, MatcherAction::SingleQuoted),
        literal_rule("-"@, LexerState::Code, MatcherAction::Emit(TokenKind::Subtraction)),
        literal_rule("--"@, LexerState::Code, MatcherAction::Emit(TokenKind::SubtractOne)),
        regex_rule(r"[a-zA-Z][a-zA-Z0-9_]*"@, LexerState::Code, MatcherAction::Emit(TokenKind::Variable)),
    ]
}

/// A matcher for the fixed string `lit`.
fn literal_matcher(lit: &str, state: LexerState, action: MatcherAction) -> (r: LexerTokenMatcher)
    ensures
        r@ == literal_rule(lit@, state, action),
{
    LexerTokenMatcher::new(LexerTokenMatchPattern::Literal(String::from_str(lit)), state, action)
}

/// A matcher for the regular expression `re`.
fn regex_matcher(re: &str, state: LexerState, action: MatcherAction) -> (r: LexerTokenMatcher)
    ensures
        r@ == regex_rule(re@, state, action),
{
    LexerTokenMatcher::new(LexerTokenMatchPattern::Regex(String::from_str(re)), state, action)
}

/// The template language's matchers, in order of registration.
#[verifier::rlimit(50)]
pub fn get_lexer_items() -> (items: Vec<LexerTokenMatcher>)
    ensures
        matchers_view(items@) == standard_matchers(),
{
    let mut items: Vec<LexerTokenMatcher> = Vec::new();
    items.push(literal_matcher("+", LexerState::Code, MatcherAction::Emit(TokenKind::Addition)));
    items.push(literal_matcher("++", LexerState::Code, MatcherAction::Emit(TokenKind::AddOne)));
    items.push(literal_matcher("and", LexerState::Code, MatcherAction::Emit(TokenKind::And)));
    items.push(literal_matcher("&&", LexerState::Code, MatcherAction::Emit(TokenKind::And)));
    items.push(literal_matcher("as", LexerState::Code, MatcherAction::Emit(TokenKind::As)));
    items.push(literal_matcher("=", LexerState::Code, MatcherAction::Emit(TokenKind::Assign)));
    items.push(regex_matcher(r"[a-zA-Z][a-zA-Z0-9_]*\(", LexerState::Code, MatcherAction::Call));
    items.push(literal_matcher("}", LexerState::Code, MatcherAction::Emit(TokenKind::CloseCurlyBracket)));
    items.push(literal_matcher(")", LexerState::Code, MatcherAction::Emit(TokenKind::CloseParenthesis)));
    items.push(literal_matcher(" %}", LexerState::Code, MatcherAction::Close(TokenKind::CloseTag)));
    items.push(literal_matcher(" }}", LexerState::Code, MatcherAction::Close(TokenKind::CloseTagWithEcho)));
    items.push(literal_matcher(",", LexerState::Code, MatcherAction::Emit(TokenKind::Comma)));
    items.push(literal_matcher("/", LexerState::Code, MatcherAction::Emit(TokenKind::Division)));
    items.push(literal_matcher("\"", LexerState::Code, MatcherAction::DoubleQuoted));
    items.push(literal_matcher("endforeach", LexerState::Code, MatcherAction::Emit(TokenKind::EndForEach)));
    items.push(literal_matcher("else", LexerState::Code, MatcherAction::Emit(TokenKind::Else)));
    items.push(literal_matcher("elseif", LexerState::Code, MatcherAction::Emit(TokenKind::ElseIf)));
    items.push(literal_matcher("endif", LexerState::Code, MatcherAction::Emit(TokenKind::EndIf)));
    items.push(literal_matcher("equals", LexerState::Code, MatcherAction::Emit(TokenKind::Equals)));
    items.push(literal_matcher("==", LexerState::Code, MatcherAction::Emit(TokenKind::Equals)));
    items.push(regex_matcher(r"[0-9]+\.[0-9]+", LexerState::Code, MatcherAction::Emit(TokenKind::Float)));
    items.push(literal_matcher("foreach", LexerState::Code, MatcherAction::Emit(TokenKind::ForEach)));
    items.push(literal_matcher(">", LexerState::Code, MatcherAction::Emit(TokenKind::GreaterThan)));
    items.push(literal_matcher(">=", LexerState::Code, MatcherAction::Emit(TokenKind::GreaterOrEqualThan)));
    items.push(literal_matcher("if", LexerState::Code, MatcherAction::Emit(TokenKind::If)));
    items.push(regex_matcher(r"[0-9]+", LexerState::Code, MatcherAction::Emit(TokenKind::Integer)));
    items.push(literal_matcher("<", LexerState::Code, MatcherAction::Emit(TokenKind::LesserThan)));
    items.push(literal_matcher("<=", LexerState::Code, MatcherAction::Emit(TokenKind::LesserOrEqualThan)));
    items.push(literal_matcher("<>", LexerState::Code, MatcherAction::Emit(TokenKind::LesserOrGreaterThan)));
    items.push(literal_matcher("*", LexerState::Code, MatcherAction::Emit(TokenKind::Multiplication)));
    items.push(literal_matcher("{", LexerState::Code, MatcherAction::Emit(TokenKind::OpenCurlyBracket)));
    items.push(literal_matcher("(", LexerState::Code, MatcherAction::Emit(TokenKind::OpenParenthesis)));
    items.push(literal_matcher("{% ", LexerState::Initial, MatcherAction::Open(TokenKind::OpenTag)));
    items.push(literal_matcher("{{ ", LexerState::Initial, MatcherAction::Open(TokenKind::OpenTagWithEcho)));
    items.push(literal_matcher("or", LexerState::Code, MatcherAction::Emit(TokenKind::Or)));
    items.push(literal_matcher("||", LexerState::Code, MatcherAction::Emit(TokenKind::Or)));
    items.push(literal_matcher(";", LexerState::Code, MatcherAction::Emit(TokenKind::Semicolon)));
    items.push(literal_matcher("'", LexerState::Code, MatcherAction::SingleQuoted));
    items.push(literal_matcher("-", LexerState::Code, MatcherAction::Emit(TokenKind::Subtraction)));
    items.push(literal_matcher("--", LexerState::Code, MatcherAction::Emit(TokenKind::SubtractOne)));
    items.push(regex_matcher(r"[a-zA-Z][a-zA-Z0-9_]*", LexerState::Code, MatcherAction::Emit(TokenKind::Variable)));
    assert(matchers_view(items@) =~= standard_matchers());
    items
}

} // verus!

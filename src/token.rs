use vstd::prelude::*;

verus! {

/// A lexical token: the category of a piece of template source, with the text it carries.
#[derive(Debug, PartialEq)]
pub enum LexerToken {
    Addition,
    AddOne,
    And,
    As,
    Assign,
    Call(String),
    CloseCurlyBracket,
    CloseParenthesis,
    CloseTag,
    CloseTagWithEcho,
    Comma,
    Division,
    DoubleQuotedString(String),
    EndForEach,
    Else,
    ElseIf,
    EndIf,
    Equals,
    Float(String),
    ForEach,
    GreaterThan,
    GreaterOrEqualThan,
    If,
    Inline(String),
    Integer(String),
    LesserThan,
    LesserOrEqualThan,
    LesserOrGreaterThan,
    Negation,
    Multiplication,
    OpenCurlyBracket,
    OpenParenthesis,
    OpenTag,
    OpenTagWithEcho,
    Or,
    Semicolon,
    SingleQuotedString(String),
    StringConcatenation,
    Subtraction,
    SubtractOne,
    Variable(String),
}

/// The category of a token, without its text.
#[derive(Clone, Copy, Debug, PartialEq, Eq, Structural)]
pub enum TokenKind {
    Addition,
    AddOne,
    And,
    As,
    Assign,
    Call,
    CloseCurlyBracket,
    CloseParenthesis,
    CloseTag,
    CloseTagWithEcho,
    Comma,
    Division,
    DoubleQuotedString,
    EndForEach,
    Else,
    ElseIf,
    EndIf,
    Equals,
    Float,
    ForEach,
    GreaterThan,
    GreaterOrEqualThan,
    If,
    Inline,
    Integer,
    LesserThan,
    LesserOrEqualThan,
    LesserOrGreaterThan,
    Negation,
    Multiplication,
    OpenCurlyBracket,
    OpenParenthesis,
    OpenTag,
    OpenTagWithEcho,
    Or,
    Semicolon,
    SingleQuotedString,
    StringConcatenation,
    Subtraction,
    SubtractOne,
    Variable,
}

impl TokenKind {
    /// Whether tokens of this kind carry text (a name, a literal, inline text).
    pub open spec fn carries_text(self) -> bool {
        self == TokenKind::Call
        || self == TokenKind::DoubleQuotedString
        || self == TokenKind::Float
        || self == TokenKind::Inline
        || self == TokenKind::Integer
        || self == TokenKind::SingleQuotedString
        || self == TokenKind::Variable
    }
}

/// What a token is, in specifications: its kind and, for the kinds that carry text, that text.
pub struct TokenView {
    pub kind: TokenKind,
    pub text: Seq<char>,
}

/// The token of kind `kind` made from the source text `text`; kinds without text drop it.
pub open spec fn token_view(kind: TokenKind, text: Seq<char>) -> TokenView {
    TokenView { kind, text: if kind.carries_text() { text } else { Seq::empty() } }
}

impl View for LexerToken {
    type V = TokenView;

    open spec fn view(&self) -> TokenView {
        match self {
            LexerToken::Addition => token_view(TokenKind::Addition, Seq::empty()),
            LexerToken::AddOne => token_view(TokenKind::AddOne, Seq::empty()),
            LexerToken::And => token_view(TokenKind::And, Seq::empty()),
            LexerToken::As => token_view(TokenKind::As, Seq::empty()),
            LexerToken::Assign => token_view(TokenKind::Assign, Seq::empty()),
            LexerToken::Call(s) => token_view(TokenKind::Call, s@),
            LexerToken::CloseCurlyBracket => token_view(TokenKind::CloseCurlyBracket, Seq::empty()),
            LexerToken::CloseParenthesis => token_view(TokenKind::CloseParenthesis, Seq::empty()),
            LexerToken::CloseTag => token_view(TokenKind::CloseTag, Seq::empty()),
            LexerToken::CloseTagWithEcho => token_view(TokenKind::CloseTagWithEcho, Seq::empty()),
            LexerToken::Comma => token_view(TokenKind::Comma, Seq::empty()),
            LexerToken::Division => token_view(TokenKind::Division, Seq::empty()),
            LexerToken::DoubleQuotedString(s) => token_view(TokenKind::DoubleQuotedString, s@),
            LexerToken::EndForEach => token_view(TokenKind::EndForEach, Seq::empty()),
            LexerToken::Else => token_view(TokenKind::Else, Seq::empty()),
            LexerToken::ElseIf => token_view(TokenKind::ElseIf, Seq::empty()),
            LexerToken::EndIf => token_view(TokenKind::EndIf, Seq::empty()),
            LexerToken::Equals => token_view(TokenKind::Equals, Seq::empty()),
            LexerToken::Float(s) => token_view(TokenKind::Float, s@),
            LexerToken::ForEach => token_view(TokenKind::ForEach, Seq::empty()),
            LexerToken::GreaterThan => token_view(TokenKind::GreaterThan, Seq::empty()),
            LexerToken::GreaterOrEqualThan => token_view(TokenKind::GreaterOrEqualThan, Seq::empty()),
            LexerToken::If => token_view(TokenKind::If, Seq::empty()),
            LexerToken::Inline(s) => token_view(TokenKind::Inline, s@),
            LexerToken::Integer(s) => token_view(TokenKind::Integer, s@),
            LexerToken::LesserThan => token_view(TokenKind::LesserThan, Seq::empty()),
            LexerToken::LesserOrEqualThan => token_view(TokenKind::LesserOrEqualThan, Seq::empty()),
            LexerToken::LesserOrGreaterThan => token_view(TokenKind::LesserOrGreaterThan, Seq::empty()),
            LexerToken::Negation => token_view(TokenKind::Negation, Seq::empty()),
            LexerToken::Multiplication => token_view(TokenKind::Multiplication, Seq::empty()),
            LexerToken::OpenCurlyBracket => token_view(TokenKind::OpenCurlyBracket, Seq::empty()),
            LexerToken::OpenParenthesis => token_view(TokenKind::OpenParenthesis, Seq::empty()),
            LexerToken::OpenTag => token_view(TokenKind::OpenTag, Seq::empty()),
            LexerToken::OpenTagWithEcho => token_view(TokenKind::OpenTagWithEcho, Seq::empty()),
            LexerToken::Or => token_view(TokenKind::Or, Seq::empty()),
            LexerToken::Semicolon => token_view(TokenKind::Semicolon, Seq::empty()),
            LexerToken::SingleQuotedString(s) => token_view(TokenKind::SingleQuotedString, s@),
            LexerToken::StringConcatenation => token_view(TokenKind::StringConcatenation, Seq::empty()),
            LexerToken::Subtraction => token_view(TokenKind::Subtraction, Seq::empty()),
            LexerToken::SubtractOne => token_view(TokenKind::SubtractOne, Seq::empty()),
            LexerToken::Variable(s) => token_view(TokenKind::Variable, s@),
        }
    }
}

impl LexerToken {
    /// Builds the token of kind `kind`; `text` is kept only by the kinds that carry text.
    pub fn new(kind: TokenKind, text: String) -> (r: LexerToken)
        ensures
            r@ == token_view(kind, text@),
    {
        match kind {
            TokenKind::Addition => LexerToken::Addition,
            TokenKind::AddOne => LexerToken::AddOne,
            TokenKind::And => LexerToken::And,
            TokenKind::As => LexerToken::As,
            TokenKind::Assign => LexerToken::Assign,
            TokenKind::Call => LexerToken::Call(text),
            TokenKind::CloseCurlyBracket => LexerToken::CloseCurlyBracket,
            TokenKind::CloseParenthesis => LexerToken::CloseParenthesis,
            TokenKind::CloseTag => LexerToken::CloseTag,
            TokenKind::CloseTagWithEcho => LexerToken::CloseTagWithEcho,
            TokenKind::Comma => LexerToken::Comma,
            TokenKind::Division => LexerToken::Division,
            TokenKind::DoubleQuotedString => LexerToken::DoubleQuotedString(text),
            TokenKind::EndForEach => LexerToken::EndForEach,
            TokenKind::Else => LexerToken::Else,
            TokenKind::ElseIf => LexerToken::ElseIf,
            TokenKind::EndIf => LexerToken::EndIf,
            TokenKind::Equals => LexerToken::Equals,
            TokenKind::Float => LexerToken::Float(text),
            TokenKind::ForEach => LexerToken::ForEach,
            TokenKind::GreaterThan => LexerToken::GreaterThan,
            TokenKind::GreaterOrEqualThan => LexerToken::GreaterOrEqualThan,
            TokenKind::If => LexerToken::If,
            TokenKind::Inline => LexerToken::Inline(text),
            TokenKind::Integer => LexerToken::Integer(text),
            TokenKind::LesserThan => LexerToken::LesserThan,
            TokenKind::LesserOrEqualThan => LexerToken::LesserOrEqualThan,
            TokenKind::LesserOrGreaterThan => LexerToken::LesserOrGreaterThan,
            TokenKind::Negation => LexerToken::Negation,
            TokenKind::Multiplication => LexerToken::Multiplication,
            TokenKind::OpenCurlyBracket => LexerToken::OpenCurlyBracket,
            TokenKind::OpenParenthesis => LexerToken::OpenParenthesis,
            TokenKind::OpenTag => LexerToken::OpenTag,
            TokenKind::OpenTagWithEcho => LexerToken::OpenTagWithEcho,
            TokenKind::Or => LexerToken::Or,
            TokenKind::Semicolon => LexerToken::Semicolon,
            TokenKind::SingleQuotedString => LexerToken::SingleQuotedString(text),
            TokenKind::StringConcatenation => LexerToken::StringConcatenation,
            TokenKind::Subtraction => LexerToken::Subtraction,
            TokenKind::SubtractOne => LexerToken::SubtractOne,
            TokenKind::Variable => LexerToken::Variable(text),
        }
    }
}

} // verus!

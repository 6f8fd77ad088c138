//! A template language's lexer: it turns template source into positioned
//! tokens by trying a list of matchers, longest match first, in a scanner
//! that is either outside any tag or inside one.

use vstd::prelude::*;

pub mod element;
pub mod laws;
pub mod matcher;
pub mod scan;
pub mod token;
pub mod tokens;

pub use element::{LexerElement, LexerError, LexerPosition, LexerState};
pub use matcher::{LexerTokenMatchPattern, LexerTokenMatcher, MatcherAction};
pub use token::{LexerToken, TokenKind};

use element::{ElementView, elements_view};
use scan::{lex_with, lex_with_spec, result_view};
use std::collections::HashMap;
use tokens::{get_lexer_items, standard_matchers};

verus! {

/// A value that a template's data can hold.
#[derive(Debug, PartialEq)]
pub enum DataType {
    /// A 32-bit floating-point number, held as its IEEE 754 bit pattern.
    Float(u32),
    HashMap(HashMap<String, DataType>),
    Integer(isize),
    String(String),
    Vector(Box<DataType>),
}

/// A named value.
#[derive(Debug, PartialEq)]
pub struct Variable {
    datum: DataType,
    name: String,
}

/// Template source with the data it may be rendered with.
#[derive(Debug, PartialEq)]
pub struct Template {
    data: Option<HashMap<String, DataType>>,
    form: String,
}

/// Lexing `s` with the template language's matchers.
pub open spec fn lex_spec(s: Seq<char>) -> Result<Seq<ElementView>, LexerError> {
    lex_with_spec(s, standard_matchers())
}

/// The inline text among `els`, joined in order.
pub open spec fn inline_text(els: Seq<ElementView>) -> Seq<char>
    decreases els.len(),
{
    if els.len() == 0 {
        Seq::empty()
    } else {
        inline_text(els.drop_last()) + if els.last().token.kind == TokenKind::Inline {
            els.last().token.text
        } else {
            Seq::empty()
        }
    }
}

impl Template {
    /// The template's source.
    pub closed spec fn source(&self) -> Seq<char> {
        self.form@
    }

    /// The data the template is rendered with.
    pub closed spec fn data(&self) -> Option<HashMap<String, DataType>> {
        self.data
    }

    pub fn new(form: String, data: Option<HashMap<String, DataType>>) -> (r: Template)
        ensures
            r.source() == form@,
            r.data() == data,
    {
        Template { form, data }
    }

    /// Lexes the template's source and renders its inline text. A source that
    /// does not lex gives the lexer's error, after "Failed to lex form, error: ".
    pub fn process(&self) -> (r: Result<String, String>)
        requires
            self.source().len() < usize::MAX,
        ensures
            lex_spec(self.source()) matches Ok(els) ==> r matches Ok(out) && out@ == inline_text(els),
            lex_spec(self.source()) matches Err(e) ==> r matches Err(m) && m@
                == "Failed to lex form, error: "@ + "unterminated string literal"@,
    {
        match self.lex() {
            Ok(elements) => match Template::parse(elements, &self.data) {
                Ok(processed) => Ok(processed),
                Err(error) => {
                    let mut message = String::from_str("Failed to parse tokens, error: ");
                    message.append(error.as_str());
                    Err(message)
                },
            },
            Err(error) => {
                let mut message = String::from_str("Failed to lex form, error: ");
                message.append(error.message().as_str());
                Err(message)
            },
        }
    }

    /// The template's source as positioned tokens.
    pub fn lex(&self) -> (r: Result<Vec<LexerElement>, LexerError>)
        requires
            self.source().len() < usize::MAX,
        ensures
            result_view(r) == lex_spec(self.source()),
    {
        let items = get_lexer_items();
        lex_with(self.form.as_str(), &items)
    }

    /// Renders lexed elements: their inline text, joined in order.
    pub fn parse(elements: Vec<LexerElement>, _data: &Option<HashMap<String, DataType>>) -> (r: Result<String, String>)
        ensures
            r matches Ok(out) && out@ == inline_text(elements_view(elements@)),
    {
        let mut result = String::new();
        let mut i: usize = 0;
        while i < elements.len()
            invariant
                i <= elements@.len(),
                result@ == inline_text(elements_view(elements@).take(i as int)),
            decreases elements@.len() - i,
        {
            proof {
                assert(elements_view(elements@).take(i + 1).drop_last() =~= elements_view(elements@).take(i as int));
            }
            match &elements[i].token {
                LexerToken::Inline(text) => {
                    result.append(text.as_str());
                },
                _ => {},
            }
            i = i + 1;
        }
        proof {
            assert(elements_view(elements@).take(i as int) =~= elements_view(elements@));
        }
        Ok(result)
    }
}

} // verus!

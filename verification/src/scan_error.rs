//! What a scan reports when the tokens do not have the shape it needs.
use crate::tokenizer::{Lexeme, Token};
use vstd::prelude::*;

verus! {

/// A word that introduces a construct.
#[derive(Clone, Copy, Debug, PartialEq, Eq, Structural)]
pub enum Keyword {
    /// `__attribute__`
    Attribute,
    /// `template`
    Template,
    /// `using`
    Using,
    /// `typedef`
    Typedef,
    /// `class` or `struct`
    ClassOrStruct,
}

/// What the scanner needed where it stopped.
#[derive(Clone, Copy, Debug, PartialEq, Eq, Structural)]
pub enum Expected {
    /// The operator spelled with this character.
    Operator(char),
    /// This word.
    Keyword(Keyword),
    /// Any identifier.
    Identifier,
    /// The name or the body of a class after `class` or `struct`.
    ClassName,
    /// `;` or `{` after the head of a class.
    ClassBody,
    /// `;`, `{` or `__attribute__` after a parameter list.
    FunctionTail,
    /// `;` or `{` after the attribute of a function.
    FunctionBody,
    /// A token that a declaration can go on with: an identifier, `*`, `&`,
    /// `:`, `<`, `;`, `(` or `=`.
    DeclarationHead,
    /// A token that a top-level item can start with: an identifier, `{` or `;`.
    TopLevelItem,
}

/// A failed scan as a mathematical value.
pub ghost struct ScanFailure {
    /// What was needed.
    pub expected: Expected,
    /// The index, among the filtered tokens, where it was needed.
    pub position: int,
    /// The token that stands there; `None` at the end of the input.
    pub found: Option<Lexeme>,
}

/// The failure to find `expected` at `position` in `tokens`.
pub open spec fn failure_at(tokens: Seq<Lexeme>, position: int, expected: Expected) -> ScanFailure {
    ScanFailure {
        expected,
        position,
        found: if 0 <= position < tokens.len() {
            Some(tokens[position])
        } else {
            None
        },
    }
}

/// Why a scan was given up.
#[derive(Debug, PartialEq, Eq)]
pub struct ScanError {
    /// What was needed.
    pub expected: Expected,
    /// The index, among the filtered tokens, where it was needed.
    pub position: usize,
    /// The token that stands there; `None` at the end of the input.
    pub found: Option<Token>,
}

impl View for ScanError {
    type V = ScanFailure;

    open spec fn view(&self) -> ScanFailure {
        ScanFailure {
            expected: self.expected,
            position: self.position as int,
            found: match self.found {
                Some(t) => Some(t@),
                None => None,
            },
        }
    }
}

/// The words that name `keyword` in a message.
pub open spec fn keyword_text(keyword: Keyword) -> Seq<char> {
    match keyword {
        Keyword::Attribute => "`__attribute__`"@,
        Keyword::Template => "`template`"@,
        Keyword::Using => "`using`"@,
        Keyword::Typedef => "`typedef`"@,
        Keyword::ClassOrStruct => "`class` or `struct`"@,
    }
}

/// The words that name `expected` in a message.
pub open spec fn expected_text(expected: Expected) -> Seq<char> {
    match expected {
        Expected::Operator(c) => "`"@ + seq![c] + "`"@,
        Expected::Keyword(k) => keyword_text(k),
        Expected::Identifier => "an identifier"@,
        Expected::ClassName => "a class name, `;` or `{`"@,
        Expected::ClassBody => "`;` or `{`"@,
        Expected::FunctionTail => "`;`, `{` or `__attribute__`"@,
        Expected::FunctionBody => "`;` or `{`"@,
        Expected::DeclarationHead => "a declaration"@,
        Expected::TopLevelItem => "an identifier, `{` or `;`"@,
    }
}

/// The words that name what was found in a message.
pub open spec fn found_text(found: Option<Lexeme>) -> Seq<char> {
    match found {
        Some(t) => "`"@ + t.text + "`"@,
        None => "the end of the input"@,
    }
}

/// The message of a failure: what was expected, then what was found.
pub open spec fn message_text(failure: ScanFailure) -> Seq<char> {
    expected_text(failure.expected) + " expected, "@ + found_text(failure.found) + " found"@
}

impl Keyword {
    /// The words that name this keyword in a message.
    pub fn describe(self) -> (s: &'static str)
        ensures
            s@ == keyword_text(self),
    {
        match self {
            Keyword::Attribute => "`__attribute__`",
            Keyword::Template => "`template`",
            Keyword::Using => "`using`",
            Keyword::Typedef => "`typedef`",
            Keyword::ClassOrStruct => "`class` or `struct`",
        }
    }
}

impl Expected {
    /// The words that name this expectation in a message.
    pub fn describe(self) -> (s: String)
        ensures
            s@ == expected_text(self),
    {
        match self {
            Expected::Operator(c) => {
                let mut s = String::from_str("`");
                s.push(c);
                s.append("`");
                s
            },
            Expected::Keyword(k) => String::from_str(k.describe()),
            Expected::Identifier => String::from_str("an identifier"),
            Expected::ClassName => String::from_str("a class name, `;` or `{`"),
            Expected::ClassBody => String::from_str("`;` or `{`"),
            Expected::FunctionTail => String::from_str("`;`, `{` or `__attribute__`"),
            Expected::FunctionBody => String::from_str("`;` or `{`"),
            Expected::DeclarationHead => String::from_str("a declaration"),
            Expected::TopLevelItem => String::from_str("an identifier, `{` or `;`"),
        }
    }
}

impl ScanError {
    /// The error for not finding `expected` at `position` in `tokens`.
    pub fn at(tokens: &Vec<Token>, position: usize, expected: Expected) -> (e: ScanError)
        ensures
            e@ == failure_at(tokens.deep_view(), position as int, expected),
    {
        let found = if position < tokens.len() {
            Some(tokens[position].clone())
        } else {
            None
        };
        ScanError { expected, position, found }
    }

    /// A message that says what was expected and what was found instead.
    pub fn message(&self) -> (s: String)
        ensures
            s@ == message_text(self@),
    {
        let mut s = self.expected.describe();
        s.append(" expected, ");
        match &self.found {
            Some(t) => {
                s.append("`");
                s.append(t.text().as_str());
                s.append("`");
                proof {
                    let e = expected_text(self.expected) + " expected, "@;
                    assert(e + "`"@ + t@.text + "`"@ =~= e + ("`"@ + t@.text + "`"@));
                }
            },
            None => {
                s.append("the end of the input");
            },
        }
        s.append(" found");
        s
    }
}

} // verus!

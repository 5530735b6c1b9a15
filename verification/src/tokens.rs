//! The token model: a closed set of token variants with value equality.

use vstd::prelude::*;

verus! {

/// An operator or punctuation token, one of a fixed closed set.
#[derive(Debug, PartialEq, Eq, Structural, Clone, Copy)]
pub enum Operator {
    /// `+`
    Add,
    /// `-`
    Minus,
    /// `*`
    Times,
    /// `/`
    Divide,
    /// `=`
    Assign,
    /// `==`
    Equal,
    /// `!=`
    Nonequal,
    /// `>`
    Larger,
    /// `>=`
    NotSmaller,
    /// `<`
    Smaller,
    /// `<=`
    NotLarger,
    /// `!`
    Not,
    /// `(`
    LeftPeren,
    /// `)`
    RightPeren,
    /// `[`
    LeftSqket,
    /// `]`
    RightSqket,
    /// `{`
    LeftCuket,
    /// `}`
    RightCuket,
    /// `.`
    Call,
    /// `&`
    And,
    /// `|`
    Or,
}

/// A keyword token, one of a fixed closed set matched case-sensitively.
#[derive(Debug, PartialEq, Eq, Structural, Clone, Copy)]
pub enum Keyword {
    /// `let`
    Let,
    /// `if`
    If,
    /// `else`
    Else,
    /// `false`
    False,
    /// `true`
    True,
    /// `null`
    Null,
    /// `func`
    Func,
    /// `for`
    For,
    /// `while`
    While,
    /// `return`
    Return,
    /// `this`
    This,
    /// `super`
    Super,
}

/// A literal token: a string literal with its quotes already unwrapped, or
/// a number literal carrying the exact digit text that was scanned (one or
/// more digits, optionally a decimal point followed by one or more digits).
#[derive(Debug)]
pub enum LiteralValue {
    /// `"string"`: the content between the quotes, verbatim.
    String(String),
    /// `123.01`: the scanned numeric text.
    Number(String),
}

/// A classified atomic unit of source text.
#[derive(Debug)]
pub enum Token {
    /// A user-defined identifier.
    Id(String),
    /// A string or number literal.
    LiteralValue(LiteralValue),
    /// A keyword from the fixed vocabulary.
    Keyword(Keyword),
    /// An operator or punctuation mark.
    Operator(Operator),
    /// Whitespace or a comment span; produced internally, never emitted.
    Empty,
    /// `;`, the statement terminator.
    End,
}

/// The mathematical value of a [`LiteralValue`]: its text as a character
/// sequence.
pub enum SpecLiteralValue {
    /// The content of a string literal.
    Str(Seq<char>),
    /// The text of a number literal.
    Num(Seq<char>),
}

/// The mathematical value of a [`Token`]: the same tagged union with every
/// owned string replaced by its character sequence.
pub enum SpecToken {
    /// A user-defined identifier.
    Id(Seq<char>),
    /// A string or number literal.
    LiteralValue(SpecLiteralValue),
    /// A keyword.
    Keyword(Keyword),
    /// An operator or punctuation mark.
    Operator(Operator),
    /// Whitespace or a comment span.
    Empty,
    /// The statement terminator.
    End,
}

impl View for LiteralValue {
    type V = SpecLiteralValue;

    open spec fn view(&self) -> SpecLiteralValue {
        match self {
            LiteralValue::String(s) => SpecLiteralValue::Str(s@),
            LiteralValue::Number(s) => SpecLiteralValue::Num(s@),
        }
    }
}

impl DeepView for LiteralValue {
    type V = SpecLiteralValue;

    open spec fn deep_view(&self) -> SpecLiteralValue {
        self.view()
    }
}

impl View for Token {
    type V = SpecToken;

    open spec fn view(&self) -> SpecToken {
        match self {
            Token::Id(s) => SpecToken::Id(s@),
            Token::LiteralValue(l) => SpecToken::LiteralValue(l.view()),
            Token::Keyword(k) => SpecToken::Keyword(*k),
            Token::Operator(o) => SpecToken::Operator(*o),
            Token::Empty => SpecToken::Empty,
            Token::End => SpecToken::End,
        }
    }
}

impl DeepView for Token {
    type V = SpecToken;

    open spec fn deep_view(&self) -> SpecToken {
        self.view()
    }
}

impl PartialEq for LiteralValue {
    /// Value equality: two literals are equal when they are the same
    /// variant carrying the same text.
    fn eq(&self, other: &Self) -> (r: bool) {
        match (self, other) {
            (LiteralValue::String(a), LiteralValue::String(b)) => <String as PartialEq>::eq(a, b),
            (LiteralValue::Number(a), LiteralValue::Number(b)) => <String as PartialEq>::eq(a, b),
            _ => false,
        }
    }
}

impl vstd::std_specs::cmp::PartialEqSpecImpl for LiteralValue {
    open spec fn obeys_eq_spec() -> bool {
        true
    }

    open spec fn eq_spec(&self, other: &Self) -> bool {
        self.view() == other.view()
    }
}

impl Eq for LiteralValue {

}

impl PartialEq for Token {
    /// Value equality: two tokens are equal when they are the same variant
    /// carrying equal contents.
    fn eq(&self, other: &Self) -> (r: bool) {
        match (self, other) {
            (Token::Id(a), Token::Id(b)) => <String as PartialEq>::eq(a, b),
            (Token::LiteralValue(a), Token::LiteralValue(b)) => a == b,
            (Token::Keyword(a), Token::Keyword(b)) => a == b,
            (Token::Operator(a), Token::Operator(b)) => a == b,
            (Token::Empty, Token::Empty) => true,
            (Token::End, Token::End) => true,
            _ => false,
        }
    }
}

impl vstd::std_specs::cmp::PartialEqSpecImpl for Token {
    open spec fn obeys_eq_spec() -> bool {
        true
    }

    open spec fn eq_spec(&self, other: &Self) -> bool {
        self.view() == other.view()
    }
}

impl Eq for Token {

}

} // verus!

//! The tokens that can emerge from the lexer.

use vstd::prelude::*;

verus! {

/// The classification of a lexed piece of source text.
#[derive(Copy, Clone, Debug, PartialEq, Eq, Structural)]
pub enum Token {
    Error,
    Whitespace,
    NewLine,
    CommentSingle,
    CommentMulti,
    Number,
    Id,
    Wildcard,

    StringStart { quote: StringQuote, raw: bool },
    StringEnd,
    StringLiteral,

    // Symbols
    At,
    Colon,
    Comma,
    Dollar,
    Dot,
    Ellipsis,
    Function,
    RoundOpen,
    RoundClose,
    SquareOpen,
    SquareClose,
    CurlyOpen,
    CurlyClose,
    Range,
    RangeInclusive,

    // Operators
    Add,
    Subtract,
    Multiply,
    Divide,
    Remainder,

    Assign,
    AddAssign,
    SubtractAssign,
    MultiplyAssign,
    DivideAssign,
    RemainderAssign,

    Equal,
    NotEqual,
    Greater,
    GreaterOrEqual,
    Less,
    LessOrEqual,

    Pipe,

    // Keywords
    And,
    Break,
    Catch,
    Continue,
    Debug,
    Else,
    ElseIf,
    Export,
    False,
    Finally,
    For,
    From,
    If,
    Import,
    In,
    Loop,
    Match,
    Not,
    Null,
    Or,
    Return,
    Self_,
    Switch,
    Then,
    Throw,
    True,
    Try,
    Until,
    While,
    Yield,
}

/// True of the tokens that stand for whitespace without ending the line:
/// runs of spaces and tabs, and both kinds of comment.
pub open spec fn spec_is_whitespace(t: Token) -> bool {
    t is Whitespace || t is CommentMulti || t is CommentSingle
}

impl Token {
    /// Returns true if the token should be counted as whitespace
    pub fn is_whitespace(&self) -> (r: bool)
        ensures
            r == spec_is_whitespace(*self),
    {
        matches!(self, Token::Whitespace | Token::CommentMulti | Token::CommentSingle)
    }

    /// Returns true if the token should be counted as whitespace, including newlines
    pub fn is_whitespace_including_newline(&self) -> (r: bool)
        ensures
            r == (spec_is_whitespace(*self) || *self is NewLine),
    {
        self.is_whitespace() || matches!(self, Token::NewLine)
    }
}

/// The type of quotation mark used in string delimiters.
#[derive(Clone, Copy, Debug, PartialEq, Eq, Structural)]
pub enum StringQuote {
    Double,
    Single,
}

/// The delimiter character that a quote stands for.
pub open spec fn quote_char(q: StringQuote) -> char {
    match q {
        StringQuote::Double => '"',
        StringQuote::Single => '\'',
    }
}

/// The quote, if any, that a character opens or closes.
pub open spec fn spec_quote_of(c: char) -> Option<StringQuote> {
    if c == '"' {
        Some(StringQuote::Double)
    } else if c == '\'' {
        Some(StringQuote::Single)
    } else {
        None
    }
}

impl StringQuote {
    /// The quote that the character `c` stands for: `"` is a double quote,
    /// `'` a single quote, and any other character is no quote at all.
    pub fn try_from(c: char) -> (r: Option<StringQuote>)
        ensures
            r == spec_quote_of(c),
    {
        match c {
            '"' => Some(StringQuote::Double),
            '\'' => Some(StringQuote::Single),
            _ => None,
        }
    }

    /// The delimiter character this quote stands for.
    pub fn as_char(&self) -> (c: char)
        ensures
            c == quote_char(*self),
    {
        match self {
            StringQuote::Double => '"',
            StringQuote::Single => '\'',
        }
    }
}

} // verus!

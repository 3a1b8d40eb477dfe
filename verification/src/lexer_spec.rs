//! The mathematical model of the lexer.
//!
//! The lexer is a deterministic step function on a small state: the source
//! as a character sequence, how far it has read, the span and indent
//! bookkeeping, and a stack of string modes that tracks interpolation.
//! [`step`] maps a state to its successor state and the token produced, and
//! the executable lexer is proved to follow it exactly.  The token-range
//! and lookahead laws at the end of this module are consequences of the
//! model alone.

use vstd::prelude::*;
use crate::span::{PosG, SpanG};
use crate::token::{Token, StringQuote, spec_quote_of};
use crate::unicode::{byte_pos, char_utf8_len, width_of, xid_start, xid_continue};
use crate::unicode::{lemma_byte_pos_bounds, lemma_char_utf8_len_bounds};

verus! {

/// The lexing modes that a string under construction can be in, kept on a
/// stack so that interpolated expressions can nest further strings.
#[derive(Clone, Copy, Debug)]
pub enum StringMode {
    /// Inside a string literal, expecting an end quote or the start of a template expression
    Literal(StringQuote),
    /// Just after a `$` symbol, either an id or a `{` will follow
    TemplateStart,
    /// Inside a string template, e.g. `'${...}'`
    TemplateExpression,
    /// Inside an inline map in a template expression, e.g. `'${foo({bar: 42})}'`;
    /// a closing `}` ends the map rather than the template expression
    TemplateExpressionInlineMap,
    /// The start of a raw string has just been consumed, raw string contents follow
    RawStart(StringQuote),
    /// The contents of the raw string have been consumed, the end delimiter should follow
    RawEnd(StringQuote),
}

/// The state of the token lexer between two tokens.
pub ghost struct LexSt {
    /// The source under lexing, as characters
    pub src: Seq<char>,
    /// How many characters have been consumed
    pub pos: int,
    /// How many bytes have been consumed
    pub byte: int,
    /// The byte at which the most recent token began
    pub prev_byte: int,
    /// The most recent token produced, if any
    pub prev_token: Option<Token>,
    /// The span of the most recent token
    pub span: SpanG,
    /// The indentation of the current line
    pub indent: int,
    /// The stack of string modes
    pub modes: Seq<StringMode>,
    /// True when lexing stopped in the middle of a character's bytes
    /// after an unrecognised symbol
    pub dead: bool,
}

/// A produced token with the metadata the lexer reports for it.
pub ghost struct LexedTokenG {
    pub token: Token,
    pub start_byte: int,
    pub end_byte: int,
    pub span: SpanG,
    pub indent: int,
}

/// The result of one lexer step: the new state and the token, if any.
pub ghost struct StepRes {
    pub st: LexSt,
    pub tok: Option<Token>,
}

/// The result of one step's branch, which always yields a token.
pub ghost struct StepOut {
    pub st: LexSt,
    pub tok: Token,
}

/// The state in which lexing of a source begins.
pub open spec fn init_state(src: Seq<char>) -> LexSt {
    LexSt {
        src,
        pos: 0,
        byte: 0,
        prev_byte: 0,
        prev_token: None,
        span: SpanG {
            start: PosG { line: 1, column: 1 },
            end: PosG { line: 1, column: 1 },
        },
        indent: 0,
        modes: Seq::empty(),
        dead: false,
    }
}

/// The lexer state's internal consistency: the byte count matches the byte
/// position of the character count, and token slices never run backwards.
pub open spec fn lex_wf(st: LexSt) -> bool {
    &&& 0 <= st.pos <= st.src.len()
    &&& st.byte == byte_pos(st.src, st.pos) + (if st.dead { 1int } else { 0int })
    &&& 0 <= st.prev_byte <= st.byte
    &&& (st.dead ==> st.pos < st.src.len() && char_utf8_len(st.src[st.pos]) >= 2)
}

// ---------------------------------------------------------------------------
// Character classes
// ---------------------------------------------------------------------------

pub open spec fn spec_is_digit(c: char) -> bool {
    '0' <= c && c <= '9'
}

pub open spec fn spec_is_binary_digit(c: char) -> bool {
    c == '0' || c == '1'
}

pub open spec fn spec_is_octal_digit(c: char) -> bool {
    '0' <= c && c <= '7'
}

pub open spec fn spec_is_hex_digit(c: char) -> bool {
    spec_is_digit(c) || ('a' <= c && c <= 'f') || ('A' <= c && c <= 'F')
}

pub open spec fn spec_is_space(c: char) -> bool {
    c == ' ' || c == '\t'
}

pub open spec fn digit_p() -> spec_fn(char) -> bool {
    |c: char| spec_is_digit(c)
}

pub open spec fn binary_p() -> spec_fn(char) -> bool {
    |c: char| spec_is_binary_digit(c)
}

pub open spec fn octal_p() -> spec_fn(char) -> bool {
    |c: char| spec_is_octal_digit(c)
}

pub open spec fn hex_p() -> spec_fn(char) -> bool {
    |c: char| spec_is_hex_digit(c)
}

pub open spec fn space_p() -> spec_fn(char) -> bool {
    |c: char| spec_is_space(c)
}

pub open spec fn idcont_p() -> spec_fn(char) -> bool {
    |c: char| xid_continue(c)
}

pub open spec fn not_line_end_p() -> spec_fn(char) -> bool {
    |c: char| c != '\r' && c != '\n'
}

// ---------------------------------------------------------------------------
// Scans: the loops of the lexer as recursive functions
// ---------------------------------------------------------------------------

/// The first index at or after `i` whose character fails `p` (or the end
/// of the source).
pub open spec fn scan_end(src: Seq<char>, i: int, p: spec_fn(char) -> bool) -> int
    decreases src.len() - i when 0 <= i <= src.len()
{
    if i < src.len() && p(src[i]) {
        scan_end(src, i + 1, p)
    } else {
        i
    }
}

pub proof fn lemma_scan_end_bounds(src: Seq<char>, i: int, p: spec_fn(char) -> bool)
    requires
        0 <= i <= src.len(),
    ensures
        i <= scan_end(src, i, p) <= src.len(),
    decreases src.len() - i,
{
    if i < src.len() && p(src[i]) {
        lemma_scan_end_bounds(src, i + 1, p);
    }
}

/// The sum of the display widths of the characters in `src[i..j]`.
pub open spec fn width_sum(src: Seq<char>, i: int, j: int) -> int
    decreases j - i when i <= j
{
    if i < j {
        width_of(src[i]) + width_sum(src, i + 1, j)
    } else {
        0
    }
}

pub proof fn lemma_width_sum_step(src: Seq<char>, i: int, j: int)
    requires
        i <= j,
    ensures
        width_sum(src, i, j + 1) == width_sum(src, i, j) + width_of(src[j]),
    decreases j - i,
{
    if i < j {
        lemma_width_sum_step(src, i + 1, j);
    } else {
        assert(width_sum(src, i, j + 1) == width_of(src[i]) + width_sum(src, i + 1, j + 1));
        assert(width_sum(src, i + 1, j + 1) == 0);
        assert(width_sum(src, i, j) == 0);
    }
}

/// The outcome of scanning a multi-line comment, a string literal, or a raw
/// string: either an error was hit without consuming anything, or the scan
/// ends at index `i` having reached the given line and column.
pub ghost struct ScanRes {
    pub error: bool,
    pub end_found: bool,
    pub i: int,
    pub line: int,
    pub col: int,
}

/// The scan of a multi-line comment body, starting just after the opening
/// `#`; ends after a `-#` pair, at a carriage return not followed by a line
/// feed (an error), or at the end of input with no terminator found.
pub open spec fn scan_comment_multi(src: Seq<char>, i: int, line: int, col: int) -> ScanRes
    decreases src.len() - i when 0 <= i <= src.len()
{
    if i >= src.len() {
        ScanRes { error: false, end_found: false, i, line, col }
    } else {
        let c = src[i];
        let col1 = col + width_of(c);
        if c == '#' {
            if i + 1 < src.len() && src[i + 1] == '-' {
                scan_comment_multi(src, i + 2, line, col1 + 1)
            } else {
                scan_comment_multi(src, i + 1, line, col1)
            }
        } else if c == '-' {
            if i + 1 < src.len() && src[i + 1] == '#' {
                ScanRes { error: false, end_found: true, i: i + 2, line, col: col1 + 1 }
            } else {
                scan_comment_multi(src, i + 1, line, col1)
            }
        } else if c == '\r' {
            if i + 1 < src.len() && src[i + 1] == '\n' {
                scan_comment_multi(src, i + 2, line + 1, 1)
            } else {
                ScanRes { error: true, end_found: false, i, line, col }
            }
        } else if c == '\n' {
            scan_comment_multi(src, i + 1, line + 1, 1)
        } else {
            scan_comment_multi(src, i + 1, line, col1)
        }
    }
}

pub proof fn lemma_scan_comment_multi_bounds(src: Seq<char>, i: int, line: int, col: int)
    requires
        0 <= i <= src.len(),
    ensures
        i <= scan_comment_multi(src, i, line, col).i <= src.len(),
    decreases src.len() - i,
{
    if i < src.len() {
        let c = src[i];
        let col1 = col + width_of(c);
        if c == '#' {
            if i + 1 < src.len() && src[i + 1] == '-' {
                lemma_scan_comment_multi_bounds(src, i + 2, line, col1 + 1);
            } else {
                lemma_scan_comment_multi_bounds(src, i + 1, line, col1);
            }
        } else if c == '-' {
            if !(i + 1 < src.len() && src[i + 1] == '#') {
                lemma_scan_comment_multi_bounds(src, i + 1, line, col1);
            }
        } else if c == '\r' {
            if i + 1 < src.len() && src[i + 1] == '\n' {
                lemma_scan_comment_multi_bounds(src, i + 2, line + 1, 1);
            }
        } else if c == '\n' {
            lemma_scan_comment_multi_bounds(src, i + 1, line + 1, 1);
        } else {
            lemma_scan_comment_multi_bounds(src, i + 1, line, col1);
        }
    }
}

/// The scan of a string literal fragment: stops before the closing quote or
/// a `$`, processes escapes pairwise, and errors on a bare carriage return
/// or on running out of input.
pub open spec fn scan_string(src: Seq<char>, i: int, q: StringQuote, line: int, col: int) -> ScanRes
    decreases src.len() - i when 0 <= i <= src.len()
{
    if i >= src.len() {
        ScanRes { error: true, end_found: false, i, line, col }
    } else {
        let c = src[i];
        if spec_quote_of(c) == Some(q) {
            ScanRes { error: false, end_found: true, i, line, col }
        } else if c == '$' {
            ScanRes { error: false, end_found: true, i, line, col }
        } else if c == '\\' {
            if i + 1 < src.len() && (src[i + 1] == '$' || src[i + 1] == '\\' || spec_quote_of(
                src[i + 1],
            ) == Some(q)) {
                scan_string(src, i + 2, q, line, col + 2)
            } else {
                scan_string(src, i + 1, q, line, col + 1)
            }
        } else if c == '\r' {
            if i + 1 < src.len() && src[i + 1] == '\n' {
                scan_string(src, i + 2, q, line + 1, 1)
            } else {
                ScanRes { error: true, end_found: false, i, line, col }
            }
        } else if c == '\n' {
            scan_string(src, i + 1, q, line + 1, 1)
        } else {
            scan_string(src, i + 1, q, line, col + width_of(c))
        }
    }
}

pub proof fn lemma_scan_string_bounds(src: Seq<char>, i: int, q: StringQuote, line: int, col: int)
    requires
        0 <= i <= src.len(),
    ensures
        i <= scan_string(src, i, q, line, col).i <= src.len(),
    decreases src.len() - i,
{
    if i < src.len() {
        let c = src[i];
        if spec_quote_of(c) == Some(q) || c == '$' {
        } else if c == '\\' {
            if i + 1 < src.len() && (src[i + 1] == '$' || src[i + 1] == '\\' || spec_quote_of(
                src[i + 1],
            ) == Some(q)) {
                lemma_scan_string_bounds(src, i + 2, q, line, col + 2);
            } else {
                lemma_scan_string_bounds(src, i + 1, q, line, col + 1);
            }
        } else if c == '\r' {
            if i + 1 < src.len() && src[i + 1] == '\n' {
                lemma_scan_string_bounds(src, i + 2, q, line + 1, 1);
            }
        } else if c == '\n' {
            lemma_scan_string_bounds(src, i + 1, q, line + 1, 1);
        } else {
            lemma_scan_string_bounds(src, i + 1, q, line, col + width_of(c));
        }
    }
}

/// The scan of a raw string's contents: stops before the closing quote,
/// errors on a bare carriage return or on running out of input.
pub open spec fn scan_raw(src: Seq<char>, i: int, q: StringQuote, line: int, col: int) -> ScanRes
    decreases src.len() - i when 0 <= i <= src.len()
{
    if i >= src.len() {
        ScanRes { error: true, end_found: false, i, line, col }
    } else {
        let c = src[i];
        if spec_quote_of(c) == Some(q) {
            ScanRes { error: false, end_found: true, i, line, col }
        } else if c == '\r' {
            if i + 1 < src.len() && src[i + 1] == '\n' {
                scan_raw(src, i + 2, q, line + 1, 1)
            } else {
                ScanRes { error: true, end_found: false, i, line, col }
            }
        } else if c == '\n' {
            scan_raw(src, i + 1, q, line + 1, 1)
        } else {
            scan_raw(src, i + 1, q, line, col + width_of(c))
        }
    }
}

pub proof fn lemma_scan_raw_bounds(src: Seq<char>, i: int, q: StringQuote, line: int, col: int)
    requires
        0 <= i <= src.len(),
    ensures
        i <= scan_raw(src, i, q, line, col).i <= src.len(),
    decreases src.len() - i,
{
    if i < src.len() {
        let c = src[i];
        if spec_quote_of(c) == Some(q) {
        } else if c == '\r' {
            if i + 1 < src.len() && src[i + 1] == '\n' {
                lemma_scan_raw_bounds(src, i + 2, q, line + 1, 1);
            }
        } else if c == '\n' {
            lemma_scan_raw_bounds(src, i + 1, q, line + 1, 1);
        } else {
            lemma_scan_raw_bounds(src, i + 1, q, line, col + width_of(c));
        }
    }
}

// ---------------------------------------------------------------------------
// Numbers
// ---------------------------------------------------------------------------

/// Where the digits of an exponent suffix end, if one begins at `j`.
pub open spec fn exponent_end(src: Seq<char>, j: int) -> int {
    if j < src.len() && src[j] == 'e' {
        let k = if j + 1 < src.len() && (src[j + 1] == '+' || src[j + 1] == '-') {
            j + 2
        } else {
            j + 1
        };
        scan_end(src, k, digit_p())
    } else {
        j
    }
}

/// Whether the `.` at index `i1` continues a number: either a digit
/// follows, or an `e` that itself begins an exponent.
pub open spec fn dot_continues_number(src: Seq<char>, i1: int) -> bool {
    i1 + 1 < src.len() && (spec_is_digit(src[i1 + 1]) || (src[i1 + 1] == 'e' && i1 + 2 < src.len()
        && (spec_is_digit(src[i1 + 2]) || src[i1 + 2] == '+' || src[i1 + 2] == '-')))
}

/// The character index just past the number that begins at `i`.
pub open spec fn number_end(src: Seq<char>, i: int) -> int {
    let zero = src[i] == '0';
    let i1 = scan_end(src, i, digit_p());
    if i1 < src.len() && src[i1] == 'b' && zero && i1 == i + 1 {
        scan_end(src, i1 + 1, binary_p())
    } else if i1 < src.len() && src[i1] == 'o' && zero && i1 == i + 1 {
        scan_end(src, i1 + 1, octal_p())
    } else if i1 < src.len() && src[i1] == 'x' && zero && i1 == i + 1 {
        scan_end(src, i1 + 1, hex_p())
    } else if i1 < src.len() && src[i1] == '.' {
        if dot_continues_number(src, i1) {
            exponent_end(src, scan_end(src, i1 + 1, digit_p()))
        } else {
            i1
        }
    } else {
        exponent_end(src, i1)
    }
}

pub proof fn lemma_number_end_bounds(src: Seq<char>, i: int)
    requires
        0 <= i < src.len(),
    ensures
        i <= number_end(src, i) <= src.len(),
{
    let i1 = scan_end(src, i, digit_p());
    lemma_scan_end_bounds(src, i, digit_p());
    if i1 < src.len() {
        lemma_scan_end_bounds(src, i1 + 1, binary_p());
        lemma_scan_end_bounds(src, i1 + 1, octal_p());
        lemma_scan_end_bounds(src, i1 + 1, hex_p());
        let i2 = scan_end(src, i1 + 1, digit_p());
        lemma_scan_end_bounds(src, i1 + 1, digit_p());
        lemma_exponent_end_bounds(src, i1);
        lemma_exponent_end_bounds(src, i2);
    } else {
        lemma_exponent_end_bounds(src, i1);
    }
}

pub proof fn lemma_exponent_end_bounds(src: Seq<char>, j: int)
    requires
        0 <= j <= src.len(),
    ensures
        j <= exponent_end(src, j) <= src.len(),
{
    if j < src.len() && src[j] == 'e' {
        let k = if j + 1 < src.len() && (src[j + 1] == '+' || src[j + 1] == '-') {
            j + 2
        } else {
            j + 1
        };
        lemma_scan_end_bounds(src, k, digit_p());
    }
}

// ---------------------------------------------------------------------------
// Keywords and symbols
// ---------------------------------------------------------------------------

/// The keyword table.  `else` is not here: it is handled before the
/// keyword check, without regard to the previous token.
pub open spec fn keyword_token(id: Seq<char>) -> Option<Token> {
    if id == "and"@ {
        Some(Token::And)
    } else if id == "break"@ {
        Some(Token::Break)
    } else if id == "catch"@ {
        Some(Token::Catch)
    } else if id == "continue"@ {
        Some(Token::Continue)
    } else if id == "debug"@ {
        Some(Token::Debug)
    } else if id == "export"@ {
        Some(Token::Export)
    } else if id == "false"@ {
        Some(Token::False)
    } else if id == "finally"@ {
        Some(Token::Finally)
    } else if id == "for"@ {
        Some(Token::For)
    } else if id == "from"@ {
        Some(Token::From)
    } else if id == "if"@ {
        Some(Token::If)
    } else if id == "import"@ {
        Some(Token::Import)
    } else if id == "in"@ {
        Some(Token::In)
    } else if id == "loop"@ {
        Some(Token::Loop)
    } else if id == "match"@ {
        Some(Token::Match)
    } else if id == "not"@ {
        Some(Token::Not)
    } else if id == "null"@ {
        Some(Token::Null)
    } else if id == "or"@ {
        Some(Token::Or)
    } else if id == "return"@ {
        Some(Token::Return)
    } else if id == "self"@ {
        Some(Token::Self_)
    } else if id == "switch"@ {
        Some(Token::Switch)
    } else if id == "then"@ {
        Some(Token::Then)
    } else if id == "throw"@ {
        Some(Token::Throw)
    } else if id == "true"@ {
        Some(Token::True)
    } else if id == "try"@ {
        Some(Token::Try)
    } else if id == "until"@ {
        Some(Token::Until)
    } else if id == "while"@ {
        Some(Token::While)
    } else if id == "yield"@ {
        Some(Token::Yield)
    } else {
        None
    }
}

pub open spec fn sym1(src: Seq<char>, i: int, a: char) -> bool {
    i < src.len() && src[i] == a
}

pub open spec fn sym2(src: Seq<char>, i: int, a: char, b: char) -> bool {
    i + 2 <= src.len() && src[i] == a && src[i + 1] == b
}

pub open spec fn sym3(src: Seq<char>, i: int, a: char, b: char, c: char) -> bool {
    i + 3 <= src.len() && src[i] == a && src[i + 1] == b && src[i + 2] == c
}

/// The symbol table, tried in order: the token and its length in
/// characters (all symbols are ASCII, so also in bytes and columns).
pub open spec fn symbol_lookup(src: Seq<char>, i: int) -> Option<(Token, int)> {
    if sym3(src, i, '.', '.', '.') {
        Some((Token::Ellipsis, 3))
    } else if sym3(src, i, '.', '.', '=') {
        Some((Token::RangeInclusive, 3))
    } else if sym2(src, i, '.', '.') {
        Some((Token::Range, 2))
    } else if sym2(src, i, '>', '>') {
        Some((Token::Pipe, 2))
    } else if sym2(src, i, '=', '=') {
        Some((Token::Equal, 2))
    } else if sym2(src, i, '!', '=') {
        Some((Token::NotEqual, 2))
    } else if sym2(src, i, '>', '=') {
        Some((Token::GreaterOrEqual, 2))
    } else if sym2(src, i, '<', '=') {
        Some((Token::LessOrEqual, 2))
    } else if sym1(src, i, '>') {
        Some((Token::Greater, 1))
    } else if sym1(src, i, '<') {
        Some((Token::Less, 1))
    } else if sym1(src, i, '=') {
        Some((Token::Assign, 1))
    } else if sym2(src, i, '+', '=') {
        Some((Token::AddAssign, 2))
    } else if sym2(src, i, '-', '=') {
        Some((Token::SubtractAssign, 2))
    } else if sym2(src, i, '*', '=') {
        Some((Token::MultiplyAssign, 2))
    } else if sym2(src, i, '/', '=') {
        Some((Token::DivideAssign, 2))
    } else if sym2(src, i, '%', '=') {
        Some((Token::RemainderAssign, 2))
    } else if sym1(src, i, '+') {
        Some((Token::Add, 1))
    } else if sym1(src, i, '-') {
        Some((Token::Subtract, 1))
    } else if sym1(src, i, '*') {
        Some((Token::Multiply, 1))
    } else if sym1(src, i, '/') {
        Some((Token::Divide, 1))
    } else if sym1(src, i, '%') {
        Some((Token::Remainder, 1))
    } else if sym1(src, i, '@') {
        Some((Token::At, 1))
    } else if sym1(src, i, ':') {
        Some((Token::Colon, 1))
    } else if sym1(src, i, ',') {
        Some((Token::Comma, 1))
    } else if sym1(src, i, '.') {
        Some((Token::Dot, 1))
    } else if sym1(src, i, '(') {
        Some((Token::RoundOpen, 1))
    } else if sym1(src, i, ')') {
        Some((Token::RoundClose, 1))
    } else if sym1(src, i, '|') {
        Some((Token::Function, 1))
    } else if sym1(src, i, '[') {
        Some((Token::SquareOpen, 1))
    } else if sym1(src, i, ']') {
        Some((Token::SquareClose, 1))
    } else if sym1(src, i, '{') {
        Some((Token::CurlyOpen, 1))
    } else if sym1(src, i, '}') {
        Some((Token::CurlyClose, 1))
    } else {
        None
    }
}

// ---------------------------------------------------------------------------
// Advancing the state
// ---------------------------------------------------------------------------

/// Advance along the current line by `n` characters and `cols` columns.
pub open spec fn adv(st: LexSt, n: int, cols: int) -> LexSt {
    LexSt {
        pos: st.pos + n,
        byte: byte_pos(st.src, st.pos + n),
        prev_byte: st.byte,
        span: SpanG {
            start: st.span.end,
            end: PosG { line: st.span.end.line, column: st.span.end.column + cols },
        },
        ..st
    }
}

/// Advance by `n` characters to an explicitly given position.
pub open spec fn adv_to(st: LexSt, n: int, p: PosG) -> LexSt {
    LexSt {
        pos: st.pos + n,
        byte: byte_pos(st.src, st.pos + n),
        prev_byte: st.byte,
        span: SpanG { start: st.span.end, end: p },
        ..st
    }
}

/// Advance one byte into a multi-byte character: the lexer reports an
/// error token and then stops producing tokens.
pub open spec fn adv_dead(st: LexSt) -> LexSt {
    LexSt {
        byte: st.byte + 1,
        prev_byte: st.byte,
        span: SpanG {
            start: st.span.end,
            end: PosG { line: st.span.end.line, column: st.span.end.column + 1 },
        },
        dead: true,
        ..st
    }
}

// ---------------------------------------------------------------------------
// The branches of a step
// ---------------------------------------------------------------------------

/// A newline: `\n` or `\r\n`; a bare `\r` is an error that consumes nothing.
#[verifier::opaque]
pub open spec fn step_newline(st: LexSt) -> StepOut {
    let src = st.src;
    if src[st.pos] == '\r' {
        if st.pos + 1 < src.len() && src[st.pos + 1] == '\n' {
            StepOut {
                st: adv_to(st, 2, PosG { line: st.span.end.line + 1, column: 1 }),
                tok: Token::NewLine,
            }
        } else {
            StepOut { st, tok: Token::Error }
        }
    } else {
        StepOut {
            st: adv_to(st, 1, PosG { line: st.span.end.line + 1, column: 1 }),
            tok: Token::NewLine,
        }
    }
}

/// A comment: `#` to the end of the line, or `#- ... -#` across lines.
/// An unterminated multi-line comment consumes the rest of the input and
/// is an error.
#[verifier::opaque]
pub open spec fn step_comment(st: LexSt) -> StepOut {
    let src = st.src;
    let i = st.pos + 1;
    if i < src.len() && src[i] == '-' {
        let r = scan_comment_multi(src, i, st.span.end.line, st.span.end.column + 1);
        if r.error {
            StepOut { st, tok: Token::Error }
        } else {
            StepOut {
                st: adv_to(st, r.i - st.pos, PosG { line: r.line, column: r.col }),
                tok: if r.end_found {
                    Token::CommentMulti
                } else {
                    Token::Error
                },
            }
        }
    } else {
        let j = scan_end(src, i, not_line_end_p());
        StepOut {
            st: adv(st, j - st.pos, 1 + width_sum(src, i, j)),
            tok: Token::CommentSingle,
        }
    }
}

/// A string literal fragment, up to the closing quote or an interpolation.
#[verifier::opaque]
pub open spec fn step_string_literal(st: LexSt, q: StringQuote) -> StepOut {
    let r = scan_string(st.src, st.pos, q, st.span.end.line, st.span.end.column);
    if r.error {
        StepOut { st, tok: Token::Error }
    } else {
        StepOut {
            st: adv_to(st, r.i - st.pos, PosG { line: r.line, column: r.col }),
            tok: Token::StringLiteral,
        }
    }
}

/// The contents of a raw string, up to but not including the closing quote.
#[verifier::opaque]
pub open spec fn step_raw_contents(st: LexSt, q: StringQuote) -> StepOut {
    let r = scan_raw(st.src, st.pos, q, st.span.end.line, st.span.end.column);
    if r.error {
        StepOut { st, tok: Token::Error }
    } else {
        let st2 = adv_to(st, r.i - st.pos, PosG { line: r.line, column: r.col });
        StepOut {
            st: LexSt { modes: st.modes.drop_last().push(StringMode::RawEnd(q)), ..st2 },
            tok: Token::StringLiteral,
        }
    }
}

/// The closing quote of a raw string.
#[verifier::opaque]
pub open spec fn step_raw_end(st: LexSt, q: StringQuote) -> StepOut {
    if spec_quote_of(st.src[st.pos]) == Some(q) {
        let st2 = adv(st, 1, 1);
        StepOut { st: LexSt { modes: st.modes.drop_last(), ..st2 }, tok: Token::StringEnd }
    } else {
        StepOut { st, tok: Token::Error }
    }
}

/// A number, starting at a decimal digit.
#[verifier::opaque]
pub open spec fn step_number(st: LexSt) -> StepOut {
    let e = number_end(st.src, st.pos);
    StepOut { st: adv(st, e - st.pos, e - st.pos), tok: Token::Number }
}

/// An identifier or keyword, starting at an `XID_Start` character: `else`
/// and `else if` come first and apply after a dot too; a bare `r` before a
/// quote opens a raw string; the keyword table applies unless the previous
/// token was a dot; anything else is an identifier.
#[verifier::opaque]
pub open spec fn step_id_or_keyword(st: LexSt) -> StepOut {
    let src = st.src;
    let i = st.pos;
    let j = scan_end(src, i + 1, idcont_p());
    let id = src.subrange(i, j);
    if id == "else"@ {
        if i + 7 <= src.len() && src.subrange(i, i + 7) == "else if"@ {
            StepOut { st: adv(st, 7, 7), tok: Token::ElseIf }
        } else {
            StepOut { st: adv(st, 4, 4), tok: Token::Else }
        }
    } else if id == "r"@ && i + 1 < src.len() && spec_quote_of(src[i + 1]) is Some {
        let q = spec_quote_of(src[i + 1])->0;
        let st2 = adv(st, 2, 2);
        StepOut {
            st: LexSt { modes: st.modes.push(StringMode::RawStart(q)), ..st2 },
            tok: Token::StringStart { quote: q, raw: true },
        }
    } else if !(st.prev_token == Some(Token::Dot)) && keyword_token(id) is Some {
        StepOut { st: adv(st, j - i, j - i), tok: keyword_token(id)->0 }
    } else {
        StepOut { st: adv(st, j - i, 1 + width_sum(src, i + 1, j)), tok: Token::Id }
    }
}

/// A wildcard: `_` followed by identifier characters.
#[verifier::opaque]
pub open spec fn step_wildcard(st: LexSt) -> StepOut {
    let j = scan_end(st.src, st.pos + 1, idcont_p());
    StepOut {
        st: adv(st, j - st.pos, 1 + width_sum(st.src, st.pos + 1, j)),
        tok: Token::Wildcard,
    }
}

/// The mode on top of the stack, if any.
pub open spec fn top_mode(st: LexSt) -> Option<StringMode> {
    if st.modes.len() > 0 {
        Some(st.modes.last())
    } else {
        None
    }
}

/// A symbol, or an error for an unrecognised character; a brace may open
/// or close an inline map inside a template expression.
#[verifier::opaque]
pub open spec fn step_symbol(st: LexSt) -> StepOut {
    let sm = top_mode(st);
    match symbol_lookup(st.src, st.pos) {
        Some((t, n)) => {
            let st2 = adv(st, n, n);
            let st3 = if t is CurlyOpen && sm matches Some(
                StringMode::TemplateExpression,
            ) {
                LexSt { modes: st2.modes.push(StringMode::TemplateExpressionInlineMap), ..st2 }
            } else if t is CurlyClose && (sm matches Some(StringMode::TemplateExpression)
                || sm matches Some(StringMode::TemplateExpressionInlineMap)) {
                LexSt { modes: st2.modes.drop_last(), ..st2 }
            } else {
                st2
            };
            StepOut { st: st3, tok: t }
        },
        None => {
            if char_utf8_len(st.src[st.pos]) == 1 {
                StepOut { st: adv(st, 1, 1), tok: Token::Error }
            } else {
                StepOut { st: adv_dead(st), tok: Token::Error }
            }
        },
    }
}

/// One step just after a `$`: an identifier pops back into the string, a
/// brace opens a template expression.
#[verifier::opaque]
pub open spec fn step_template_start(st: LexSt) -> StepOut {
    let c = st.src[st.pos];
    if xid_start(c) {
        let sub = step_id_or_keyword(st);
        if sub.tok is Id {
            StepOut { st: LexSt { modes: sub.st.modes.drop_last(), ..sub.st }, tok: Token::Id }
        } else {
            StepOut { st: sub.st, tok: Token::Error }
        }
    } else if c == '{' {
        let st2 = adv(st, 1, 1);
        StepOut {
            st: LexSt {
                modes: st2.modes.drop_last().push(StringMode::TemplateExpression),
                ..st2
            },
            tok: Token::CurlyOpen,
        }
    } else {
        StepOut { st, tok: Token::Error }
    }
}

/// One step of the lexer outside any string mode, or inside a template
/// expression.
#[verifier::opaque]
pub open spec fn step_plain(st: LexSt) -> StepOut {
    let src = st.src;
    let c = src[st.pos];
    if spec_is_space(c) {
        let j = scan_end(src, st.pos, space_p());
        let n = j - st.pos;
        let st2 = adv(st, n, n);
        let st3 = if st.prev_token == Some(Token::NewLine) || st.prev_token is None {
            LexSt { indent: n, ..st2 }
        } else {
            st2
        };
        StepOut { st: st3, tok: Token::Whitespace }
    } else if c == '\r' || c == '\n' {
        step_newline(st)
    } else if c == '#' {
        step_comment(st)
    } else if c == '"' {
        let st2 = adv(st, 1, 1);
        StepOut {
            st: LexSt { modes: st2.modes.push(StringMode::Literal(StringQuote::Double)), ..st2 },
            tok: Token::StringStart { quote: StringQuote::Double, raw: false },
        }
    } else if c == '\'' {
        let st2 = adv(st, 1, 1);
        StepOut {
            st: LexSt { modes: st2.modes.push(StringMode::Literal(StringQuote::Single)), ..st2 },
            tok: Token::StringStart { quote: StringQuote::Single, raw: false },
        }
    } else if spec_is_digit(c) {
        step_number(st)
    } else if xid_start(c) {
        step_id_or_keyword(st)
    } else if c == '_' {
        step_wildcard(st)
    } else {
        step_symbol(st)
    }
}

/// One step inside a string literal: the closing quote ends the string, a
/// `$` begins an interpolation, anything else is a literal fragment.
#[verifier::opaque]
pub open spec fn step_in_literal(st: LexSt, q: StringQuote) -> StepOut {
    let c = st.src[st.pos];
    if spec_quote_of(c) == Some(q) {
        let st2 = adv(st, 1, 1);
        StepOut { st: LexSt { modes: st2.modes.drop_last(), ..st2 }, tok: Token::StringEnd }
    } else if c == '$' {
        let st2 = adv(st, 1, 1);
        StepOut {
            st: LexSt { modes: st2.modes.push(StringMode::TemplateStart), ..st2 },
            tok: Token::Dollar,
        }
    } else {
        step_string_literal(st, q)
    }
}

/// One full step of the lexer: the token produced and the state after it.
/// At the end of the input, or once stopped inside a character, there is
/// no token.
#[verifier::opaque]
pub open spec fn step(st: LexSt) -> StepRes {
    if st.dead || st.pos >= st.src.len() {
        StepRes { st: LexSt { prev_token: None, ..st }, tok: None }
    } else {
        let st0 = if st.prev_token == Some(Token::NewLine) {
            LexSt { indent: 0, ..st }
        } else {
            st
        };
        let out = match top_mode(st0) {
            Some(StringMode::Literal(q)) => step_in_literal(st0, q),
            Some(StringMode::RawStart(q)) => step_raw_contents(st0, q),
            Some(StringMode::RawEnd(q)) => step_raw_end(st0, q),
            Some(StringMode::TemplateStart) => step_template_start(st0),
            _ => step_plain(st0),
        };
        StepRes { st: LexSt { prev_token: Some(out.tok), ..out.st }, tok: Some(out.tok) }
    }
}

// ---------------------------------------------------------------------------
// Framing: what a step does to the byte ranges
// ---------------------------------------------------------------------------

proof fn lemma_adv_frame(st: LexSt, n: int, cols: int)
    requires
        lex_wf(st),
        !st.dead,
        0 <= n,
        st.pos + n <= st.src.len(),
    ensures
        lex_wf(adv(st, n, cols)),
        adv(st, n, cols).byte >= st.byte,
        adv(st, n, cols).prev_byte == st.byte,
        !adv(st, n, cols).dead,
        adv(st, n, cols).src == st.src,
{
    lemma_byte_pos_bounds(st.src, st.pos, st.pos + n);
}

proof fn lemma_adv_to_frame(st: LexSt, n: int, p: PosG)
    requires
        lex_wf(st),
        !st.dead,
        0 <= n,
        st.pos + n <= st.src.len(),
    ensures
        lex_wf(adv_to(st, n, p)),
        adv_to(st, n, p).byte >= st.byte,
        adv_to(st, n, p).prev_byte == st.byte,
        !adv_to(st, n, p).dead,
        adv_to(st, n, p).src == st.src,
{
    lemma_byte_pos_bounds(st.src, st.pos, st.pos + n);
}

/// What one branch of a step guarantees: well-formedness is preserved, the
/// byte count never goes backwards, and a token other than `Error` covers
/// exactly the bytes consumed by the step that produced it.
pub open spec fn branch_frame(st: LexSt, out: StepOut) -> bool {
    &&& lex_wf(out.st)
    &&& out.st.src == st.src
    &&& out.st.byte >= st.byte
    &&& out.st.prev_byte <= out.st.byte
    &&& (!(out.tok is Error) ==> out.st.prev_byte == st.byte && !out.st.dead)
}

proof fn lemma_step_id_frame(st: LexSt)
    requires
        lex_wf(st),
        !st.dead,
        st.pos < st.src.len(),
    ensures
        branch_frame(st, step_id_or_keyword(st)),
{
    reveal(step_id_or_keyword);
    let src = st.src;
    let i = st.pos;
    let j = scan_end(src, i + 1, idcont_p());
    lemma_scan_end_bounds(src, i + 1, idcont_p());
    let id = src.subrange(i, j);
    if id == "else"@ {
        reveal_strlit("else");
        assert(id.len() == 4);
        if i + 7 <= src.len() && src.subrange(i, i + 7) == "else if"@ {
            lemma_adv_frame(st, 7, 7);
        } else {
            lemma_adv_frame(st, 4, 4);
        }
    } else if id == "r"@ && i + 1 < src.len() && spec_quote_of(src[i + 1]) is Some {
        lemma_adv_frame(st, 2, 2);
    } else if !(st.prev_token == Some(Token::Dot)) && keyword_token(id) is Some {
        lemma_adv_frame(st, j - i, j - i);
    } else {
        lemma_adv_frame(st, j - i, 1 + width_sum(src, i + 1, j));
    }
}

proof fn lemma_step_plain_frame(st: LexSt)
    requires
        lex_wf(st),
        !st.dead,
        st.pos < st.src.len(),
    ensures
        branch_frame(st, step_plain(st)),
{
    reveal(step_plain);
    reveal(step_newline);
    reveal(step_comment);
    reveal(step_number);
    reveal(step_wildcard);
    reveal(step_symbol);
    let src = st.src;
    let c = src[st.pos];
    if spec_is_space(c) {
        lemma_scan_end_bounds(src, st.pos, space_p());
        let j = scan_end(src, st.pos, space_p());
        lemma_adv_frame(st, j - st.pos, j - st.pos);
    } else if c == '\r' || c == '\n' {
        if c == '\r' {
            if st.pos + 1 < src.len() && src[st.pos + 1] == '\n' {
                lemma_adv_to_frame(st, 2, PosG { line: st.span.end.line + 1, column: 1 });
            }
        } else {
            lemma_adv_to_frame(st, 1, PosG { line: st.span.end.line + 1, column: 1 });
        }
    } else if c == '#' {
        let i = st.pos + 1;
        if i < src.len() && src[i] == '-' {
            let r = scan_comment_multi(src, i, st.span.end.line, st.span.end.column + 1);
            lemma_scan_comment_multi_bounds(src, i, st.span.end.line, st.span.end.column + 1);
            if !r.error {
                lemma_adv_to_frame(st, r.i - st.pos, PosG { line: r.line, column: r.col });
            }
        } else {
            let j = scan_end(src, i, not_line_end_p());
            lemma_scan_end_bounds(src, i, not_line_end_p());
            lemma_adv_frame(st, j - st.pos, 1 + width_sum(src, i, j));
        }
    } else if c == '"' || c == '\'' {
        lemma_adv_frame(st, 1, 1);
    } else if spec_is_digit(c) {
        lemma_number_end_bounds(src, st.pos);
        let e = number_end(src, st.pos);
        lemma_adv_frame(st, e - st.pos, e - st.pos);
    } else if xid_start(c) {
        lemma_step_id_frame(st);
    } else if c == '_' {
        lemma_scan_end_bounds(src, st.pos + 1, idcont_p());
        let j = scan_end(src, st.pos + 1, idcont_p());
        lemma_adv_frame(st, j - st.pos, 1 + width_sum(src, st.pos + 1, j));
    } else {
        match symbol_lookup(src, st.pos) {
            Some((t, n)) => {
                lemma_adv_frame(st, n, n);
            },
            None => {
                if char_utf8_len(src[st.pos]) == 1 {
                    lemma_adv_frame(st, 1, 1);
                } else {
                    lemma_char_utf8_len_bounds(src[st.pos]);
                    assert(lex_wf(adv_dead(st)));
                }
            },
        }
    }
}

proof fn lemma_step_branch_frame(st: LexSt)
    requires
        lex_wf(st),
        !st.dead,
        st.pos < st.src.len(),
    ensures
        branch_frame(
            st,
            match top_mode(st) {
                Some(StringMode::Literal(q)) => step_in_literal(st, q),
                Some(StringMode::RawStart(q)) => step_raw_contents(st, q),
                Some(StringMode::RawEnd(q)) => step_raw_end(st, q),
                Some(StringMode::TemplateStart) => step_template_start(st),
                _ => step_plain(st),
            },
        ),
{
    reveal(step_in_literal);
    reveal(step_string_literal);
    reveal(step_raw_contents);
    reveal(step_raw_end);
    reveal(step_template_start);
    let src = st.src;
    let c = src[st.pos];
    match top_mode(st) {
        Some(StringMode::Literal(q)) => {
            if spec_quote_of(c) == Some(q) || c == '$' {
                lemma_adv_frame(st, 1, 1);
            } else {
                let r = scan_string(src, st.pos, q, st.span.end.line, st.span.end.column);
                lemma_scan_string_bounds(src, st.pos, q, st.span.end.line, st.span.end.column);
                if !r.error {
                    lemma_adv_to_frame(st, r.i - st.pos, PosG { line: r.line, column: r.col });
                }
            }
        },
        Some(StringMode::RawStart(q)) => {
            let r = scan_raw(src, st.pos, q, st.span.end.line, st.span.end.column);
            lemma_scan_raw_bounds(src, st.pos, q, st.span.end.line, st.span.end.column);
            if !r.error {
                lemma_adv_to_frame(st, r.i - st.pos, PosG { line: r.line, column: r.col });
            }
        },
        Some(StringMode::RawEnd(q)) => {
            if spec_quote_of(c) == Some(q) {
                lemma_adv_frame(st, 1, 1);
            }
        },
        Some(StringMode::TemplateStart) => {
            if xid_start(c) {
                lemma_step_id_frame(st);
            } else if c == '{' {
                lemma_adv_frame(st, 1, 1);
            }
        },
        _ => {
            lemma_step_plain_frame(st);
        },
    }
}

/// One step of the lexer preserves well-formedness; the byte count never
/// goes backwards; a produced token other than `Error` begins exactly at
/// the byte where the previous token ended; and the stream ends only at
/// the end of the input (or after an error stopped it mid-character).
pub proof fn lemma_step_frame(st: LexSt)
    requires
        lex_wf(st),
    ensures
        ({
            let r = step(st);
            &&& lex_wf(r.st)
            &&& r.st.src == st.src
            &&& r.st.byte >= st.byte
            &&& r.st.prev_byte <= r.st.byte
            &&& (match r.tok {
                Some(t) => !(t is Error) ==> r.st.prev_byte == st.byte && !r.st.dead,
                None => r.st.byte == st.byte && (st.dead || st.pos == st.src.len()),
            })
        }),
{
    reveal(step);
    if st.dead || st.pos >= st.src.len() {
    } else {
        let st0 = if st.prev_token == Some(Token::NewLine) {
            LexSt { indent: 0, ..st }
        } else {
            st
        };
        lemma_step_branch_frame(st0);
    }
}

/// The byte range of every token other than `Error` lies on character
/// boundaries of the UTF-8 encoded source, so the token's text can always
/// be sliced back out of it.
pub proof fn lemma_token_range_on_boundaries(st: LexSt)
    requires
        lex_wf(st),
        !st.dead,
    ensures
        (match step(st).tok {
            Some(t) => !(t is Error) ==> vstd::utf8::is_char_boundary(
                vstd::utf8::encode_utf8(st.src),
                step(st).st.prev_byte,
            ) && vstd::utf8::is_char_boundary(
                vstd::utf8::encode_utf8(st.src),
                step(st).st.byte,
            ),
            None => true,
        }),
{
    lemma_step_frame(st);
    let r = step(st);
    if r.tok is Some && !(r.tok->0 is Error) {
        crate::unicode::lemma_byte_pos_is_boundary(st.src, st.pos);
        crate::unicode::lemma_byte_pos_is_boundary(st.src, r.st.pos);
    }
}

// ---------------------------------------------------------------------------
// The token stream and its laws
// ---------------------------------------------------------------------------

/// The token a step produced, together with the metadata the lexer
/// reports for it.
pub open spec fn lexed_of(st: LexSt, t: Token) -> LexedTokenG {
    LexedTokenG {
        token: t,
        start_byte: st.prev_byte,
        end_byte: st.byte,
        span: st.span,
        indent: st.indent,
    }
}

/// The `n`th token that the lexer will produce from state `st`, counted
/// from 0, with the metadata it will carry.
pub open spec fn inner_nth(st: LexSt, n: nat) -> Option<LexedTokenG>
    decreases n,
{
    let r = step(st);
    match r.tok {
        None => None,
        Some(t) => if n == 0 {
            Some(lexed_of(r.st, t))
        } else {
            inner_nth(r.st, (n - 1) as nat)
        },
    }
}

/// The state of a lexer with lookahead: the inner lexer state plus the
/// queue of tokens already produced but not yet handed out.
pub ghost struct KLexV {
    pub st: LexSt,
    pub queue: Seq<LexedTokenG>,
}

/// The `n`th token still to be handed out: out of the queue first, then
/// from the inner lexer.
pub open spec fn stream_nth(v: KLexV, n: nat) -> Option<LexedTokenG> {
    if n < v.queue.len() {
        Some(v.queue[n as int])
    } else {
        inner_nth(v.st, (n - v.queue.len()) as nat)
    }
}

/// The state after one token is handed out.
pub open spec fn next_state_v(v: KLexV) -> KLexV {
    if v.queue.len() > 0 {
        KLexV { st: v.st, queue: v.queue.drop_first() }
    } else {
        KLexV { st: step(v.st).st, queue: v.queue }
    }
}

/// Handing one token out shifts the stream by exactly one: what was the
/// `n+1`st token is the `n`th token afterwards.
pub proof fn lemma_stream_shift(v: KLexV, n: nat)
    ensures
        stream_nth(v, (n + 1) as nat) == stream_nth(next_state_v(v), n),
{
    if v.queue.len() > 0 {
        if n + 1 >= v.queue.len() {
            assert((n + 1 - v.queue.len()) as nat == (n - v.queue.drop_first().len()) as nat);
        }
    } else {
        let r = step(v.st);
        if r.tok is None {
            assert(step(r.st).tok is None) by {
                reveal(step);
            }
        }
    }
}

/// Producing one more token from the inner lexer and placing it at the
/// back of the queue leaves the stream unchanged.
pub proof fn lemma_stream_push(st: LexSt, q: Seq<LexedTokenG>, m: nat)
    requires
        step(st).tok is Some,
    ensures
        stream_nth(KLexV { st, queue: q }, m) == stream_nth(
            KLexV {
                st: step(st).st,
                queue: q.push(lexed_of(step(st).st, step(st).tok->0)),
            },
            m,
        ),
{
    let r = step(st);
    let q2 = q.push(lexed_of(r.st, r.tok->0));
    if m < q.len() {
    } else if m == q.len() {
        assert(inner_nth(st, 0) == Some(lexed_of(r.st, r.tok->0)));
    } else {
        assert(inner_nth(st, (m - q.len()) as nat) == inner_nth(r.st, (m - q2.len()) as nat));
    }
}

/// Once the lexer yields no token, it never yields another: the stream
/// from that state, and from any state it steps to, is empty.
pub proof fn lemma_stream_end(st: LexSt, k: nat)
    requires
        step(st).tok is None,
    ensures
        inner_nth(st, k) is None,
        inner_nth(step(st).st, k) is None,
{
    reveal(step);
    assert(step(step(st).st).tok is None);
}

/// The state after `k` tokens have been handed out.
pub open spec fn after_nexts(v: KLexV, k: nat) -> KLexV
    decreases k,
{
    if k == 0 {
        v
    } else {
        after_nexts(next_state_v(v), (k - 1) as nat)
    }
}

/// Lookahead agrees with iteration: the token that `peek(n)` reports is
/// the token that the `n+1`st call of `next` will return, for every `n`.
pub proof fn lemma_peek_is_future_next(v: KLexV, n: nat)
    ensures
        stream_nth(v, n) == stream_nth(after_nexts(v, n), 0),
    decreases n,
{
    if n > 0 {
        lemma_stream_shift(v, (n - 1) as nat);
        lemma_peek_is_future_next(next_state_v(v), (n - 1) as nat);
    }
}

/// When a source lexes successfully - the lexer, started fresh, produces
/// `n` tokens, none of them `Error`, and then ends - the byte ranges of
/// those tokens tile the source exactly: the first starts at byte 0, each
/// starts where the one before it ended, and the last ends at the final
/// byte of the source.  Helper, stated from an arbitrary well-formed,
/// mid-character-free state.
#[verifier::spinoff_prover]
proof fn lemma_tile_from(st: LexSt, n: nat)
    requires
        lex_wf(st),
        !st.dead,
        forall|k: nat| k < n ==> (#[trigger] inner_nth(st, k)) is Some && !(inner_nth(
            st,
            k,
        )->0.token is Error),
        inner_nth(st, n) is None,
    ensures
        n > 0 ==> inner_nth(st, 0)->0.start_byte == st.byte,
        forall|k: nat|
            1 <= k < n ==> inner_nth(st, (k - 1) as nat)->0.end_byte == (#[trigger] inner_nth(
                st,
                k,
            ))->0.start_byte,
        (if n > 0 {
            inner_nth(st, (n - 1) as nat)->0.end_byte
        } else {
            st.byte
        }) == byte_pos(st.src, st.src.len() as int),
    decreases n,
{
    let r = step(st);
    lemma_step_frame(st);
    if n == 0 {
        assert(r.tok is None);
        assert(st.pos == st.src.len());
    } else {
        assert(inner_nth(st, 0) is Some);
        let t = r.tok->0;
        assert(!(t is Error));
        assert forall|k: nat| k < n - 1 implies (#[trigger] inner_nth(r.st, k)) == inner_nth(
            st,
            (k + 1) as nat,
        ) by {
            assert(inner_nth(st, (k + 1) as nat) == inner_nth(r.st, k));
        }
        assert(inner_nth(r.st, (n - 1) as nat) == inner_nth(st, n));
        assert(forall|k: nat|
            k < n - 1 ==> (#[trigger] inner_nth(r.st, k)) is Some && !(inner_nth(
                r.st,
                k,
            )->0.token is Error));
        lemma_tile_from(r.st, (n - 1) as nat);
        assert forall|k: nat| 1 <= k < n implies inner_nth(st, (k - 1) as nat)->0.end_byte == (
        #[trigger] inner_nth(st, k))->0.start_byte by {
            if k == 1 {
                assert(inner_nth(st, 0)->0.end_byte == r.st.byte);
                assert(inner_nth(st, 1) == inner_nth(r.st, 0));
                if n > 1 {
                    assert(inner_nth(r.st, 0)->0.start_byte == r.st.byte);
                }
            } else {
                assert(inner_nth(st, (k - 1) as nat) == inner_nth(r.st, (k - 2) as nat));
                assert(inner_nth(st, k) == inner_nth(r.st, (k - 1) as nat));
                assert(inner_nth(r.st, (k - 2) as nat)->0.end_byte == inner_nth(
                    r.st,
                    (k - 1) as nat,
                )->0.start_byte);
            }
        }
        if n == 1 {
            assert(inner_nth(st, 0)->0.end_byte == r.st.byte);
            assert(r.st.byte == byte_pos(st.src, st.src.len() as int));
        } else {
            assert(inner_nth(st, (n - 1) as nat) == inner_nth(r.st, (n - 2) as nat));
        }
    }
}

/// The token-range law: a successful lex covers the input exactly, with
/// no gaps and no overlaps.  From the initial state for a source, if the
/// lexer yields `n` tokens none of which is `Error` and then ends, the
/// first token's byte range starts at 0, each token's range begins where
/// the previous one ended, and the last range ends at the total byte
/// length of the source.
pub proof fn lemma_token_ranges_tile(src: Seq<char>, n: nat)
    requires
        forall|k: nat| k < n ==> (#[trigger] inner_nth(init_state(src), k)) is Some && !(
        inner_nth(init_state(src), k)->0.token is Error),
        inner_nth(init_state(src), n) is None,
    ensures
        n > 0 ==> inner_nth(init_state(src), 0)->0.start_byte == 0,
        forall|k: nat|
            1 <= k < n ==> inner_nth(init_state(src), (k - 1) as nat)->0.end_byte == (
            #[trigger] inner_nth(init_state(src), k))->0.start_byte,
        (if n > 0 {
            inner_nth(init_state(src), (n - 1) as nat)->0.end_byte
        } else {
            0int
        }) == vstd::utf8::encode_utf8(src).len(),
{
    lemma_byte_pos_bounds(src, 0, 0);
    lemma_byte_pos_bounds(src, 0, src.len() as int);
    lemma_tile_from(init_state(src), n);
}

} // verus!

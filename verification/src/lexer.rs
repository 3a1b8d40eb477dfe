//! The lexer: source text in, classified tokens out.
//!
//! `TokenLexer` is the internal step machine, proved to follow the model in
//! [`crate::lexer_spec`] exactly; [`KotoLexer`] wraps it with unbounded
//! lookahead through a token queue.

use vstd::prelude::*;
use vstd::utf8::{encode_utf8, is_char_boundary};
use vstd::std_specs::iter::IteratorSpec;
use std::collections::VecDeque;
use vstd::string::StringSliceAdditionalSpecFns;
use crate::span::{Position, Span, PosG};
use crate::token::{Token, StringQuote};
use crate::unicode::{
    byte_pos, char_utf8_len, is_id_start, is_id_continue, char_width, utf8_len,
    lemma_byte_pos_bounds, lemma_byte_pos_step, lemma_byte_pos_ascii_run,
    lemma_char_utf8_len_bounds,
};
use crate::lexer_spec::{
    StringMode, LexSt, LexedTokenG, KLexV, init_state, lex_wf, step, stream_nth, next_state_v,
    lexed_of, lemma_stream_push, lemma_stream_shift, lemma_stream_end, lemma_step_frame, adv,
    adv_to, scan_end, width_sum, scan_comment_multi, scan_string, scan_raw, number_end,
    exponent_end, dot_continues_number, keyword_token, symbol_lookup, top_mode, step_newline,
    step_comment, step_string_literal, step_raw_contents, step_raw_end, step_number,
    step_id_or_keyword, step_wildcard, step_symbol, step_template_start, step_plain,
    step_in_literal, spec_is_digit, spec_is_binary_digit, spec_is_octal_digit, spec_is_hex_digit,
    spec_is_space, digit_p, binary_p, octal_p, hex_p, space_p, idcont_p, not_line_end_p,
    lemma_scan_end_bounds, lemma_width_sum_step, lemma_number_end_bounds,
    lemma_exponent_end_bounds,
};

verus! {

/// The largest source, in bytes, that the lexer accepts: positions are
/// tracked in 32-bit line and column counters, and this bound keeps every
/// counter comfortably inside them.
pub const MAX_SOURCE_BYTES: usize = 0x2000_0000;

fn is_digit(c: char) -> (r: bool)
    ensures
        r == spec_is_digit(c),
{
    '0' <= c && c <= '9'
}

fn is_binary_digit(c: char) -> (r: bool)
    ensures
        r == spec_is_binary_digit(c),
{
    c == '0' || c == '1'
}

fn is_octal_digit(c: char) -> (r: bool)
    ensures
        r == spec_is_octal_digit(c),
{
    '0' <= c && c <= '7'
}

fn is_hex_digit(c: char) -> (r: bool)
    ensures
        r == spec_is_hex_digit(c),
{
    ('0' <= c && c <= '9') || ('a' <= c && c <= 'f') || ('A' <= c && c <= 'F')
}

fn is_whitespace(c: char) -> (r: bool)
    ensures
        r == spec_is_space(c),
{
    c == ' ' || c == '\t'
}

/// The ASCII character classes the lexer scans runs of.
#[derive(Clone, Copy)]
enum CharClass {
    Digit,
    Binary,
    Octal,
    Hex,
    Space,
}

spec fn class_p(k: CharClass) -> spec_fn(char) -> bool {
    match k {
        CharClass::Digit => digit_p(),
        CharClass::Binary => binary_p(),
        CharClass::Octal => octal_p(),
        CharClass::Hex => hex_p(),
        CharClass::Space => space_p(),
    }
}

fn char_in_class(c: char, k: CharClass) -> (r: bool)
    ensures
        r == class_p(k)(c),
{
    match k {
        CharClass::Digit => is_digit(c),
        CharClass::Binary => is_binary_digit(c),
        CharClass::Octal => is_octal_digit(c),
        CharClass::Hex => is_hex_digit(c),
        CharClass::Space => is_whitespace(c),
    }
}

proof fn lemma_class_ascii(c: char, k: CharClass)
    requires
        class_p(k)(c),
    ensures
        char_utf8_len(c) == 1,
{
}

/// Scan along a run of characters in one ASCII class, returning the index
/// where the run ends.
fn run_end(chars: &Vec<char>, i: usize, k: CharClass) -> (j: usize)
    requires
        i <= chars.len(),
    ensures
        j == scan_end(chars@, i as int, class_p(k)),
        i <= j <= chars.len(),
        byte_pos(chars@, j as int) == byte_pos(chars@, i as int) + (j - i),
{
    let mut j = i;
    loop
        invariant
            i <= j <= chars.len(),
            scan_end(chars@, i as int, class_p(k)) == scan_end(chars@, j as int, class_p(k)),
            forall|m: int| i <= m < j ==> class_p(k)(#[trigger] chars@[m]),
        ensures
            i <= j <= chars.len(),
            j == scan_end(chars@, i as int, class_p(k)),
            forall|m: int| i <= m < j ==> class_p(k)(#[trigger] chars@[m]),
        decreases chars.len() - j,
    {
        if j < chars.len() && char_in_class(chars[j], k) {
            j = j + 1;
        } else {
            proof {
                assert(scan_end(chars@, j as int, class_p(k)) == j as int);
            }
            break;
        }
    }
    proof {
        assert forall|m: int| i <= m < j implies char_utf8_len(#[trigger] chars@[m]) == 1 by {
            lemma_class_ascii(chars@[m], k);
        }
        lemma_byte_pos_ascii_run(chars@, i as int, j as int);
        lemma_scan_end_bounds(chars@, j as int, class_p(k));
    }
    j
}

/// Numeric consequences of a well-formed state: the character count is no
/// more than the byte count, which is no more than the encoded length.
proof fn lemma_st_bounds(st: LexSt)
    requires
        lex_wf(st),
    ensures
        st.src.len() <= encode_utf8(st.src).len(),
        st.pos <= byte_pos(st.src, st.pos),
        byte_pos(st.src, st.pos) <= encode_utf8(st.src).len(),
        byte_pos(st.src, st.pos) <= st.byte,
        st.byte <= encode_utf8(st.src).len() + 1,
        !st.dead ==> st.byte <= encode_utf8(st.src).len(),
{
    lemma_byte_pos_bounds(st.src, 0, st.src.len() as int);
    lemma_byte_pos_bounds(st.src, 0, st.pos);
    lemma_byte_pos_bounds(st.src, st.pos, st.src.len() as int);
    if st.dead {
        lemma_byte_pos_step(st.src, st.pos);
        lemma_char_utf8_len_bounds(st.src[st.pos]);
    }
}

/// Bounds that keep a (line, column) pair inside its 32-bit counters when
/// `b` bytes have been consumed: a line per byte, three columns per byte.
spec fn pos_fits(line: int, column: int, b: int) -> bool {
    &&& 1 <= line
    &&& line - 1 <= b
    &&& 1 <= column
    &&& column - 1 <= 3 * b
}

/// Collect the characters of a source string.
fn str_chars(s: &str) -> (v: Vec<char>)
    ensures
        v@ == s@,
{
    broadcast use vstd::string::axiom_spec_iter, vstd::string::next_postcondition;

    let mut it = s.chars();
    let mut v: Vec<char> = Vec::new();
    loop
        invariant
            it.obeys_prophetic_iter_laws(),
            it.decrease() is Some,
            v@ + it.remaining() == s@,
        ensures
            v@ == s@,
        decreases it.decrease()->0,
    {
        match it.next() {
            Some(c) => {
                v.push(c);
                proof {
                    assert(v@ + it.remaining() =~= s@);
                }
            },
            None => {
                proof {
                    assert(v@ =~= s@);
                }
                break;
            },
        }
    }
    v
}

// Separates the input source into Tokens
//
// TokenLexer is the internal implementation, KotoLexer provides the external
// interface.
#[derive(Clone)]
struct TokenLexer {
    // The input source, as characters
    chars: Vec<char>,
    // The number of characters consumed
    pos: usize,
    // The current byte position in the source
    current_byte: usize,
    // The byte position at which the current token's slice begins
    previous_byte: usize,
    // A cache of the previous token that was emitted
    previous_token: Option<Token>,
    // The span represented by the current token
    span: Span,
    // The indentation of the current line
    indent: usize,
    // A stack of string modes, allowing for nested mode changes while
    // parsing strings
    string_mode_stack: Vec<StringMode>,
    // Set when an unrecognised symbol left the byte position inside a
    // multi-byte character; no further tokens are produced
    dead: bool,
}

impl View for TokenLexer {
    type V = LexSt;

    closed spec fn view(&self) -> LexSt {
        LexSt {
            src: self.chars@,
            pos: self.pos as int,
            byte: self.current_byte as int,
            prev_byte: self.previous_byte as int,
            prev_token: self.previous_token,
            span: self.span@,
            indent: self.indent as int,
            modes: self.string_mode_stack@,
            dead: self.dead,
        }
    }
}

impl TokenLexer {
    /// The lexer's private invariant: the model state is well-formed, the
    /// source fits the size bound, and the position counters fit their
    /// 32-bit fields.
    spec fn inv(&self) -> bool {
        &&& lex_wf(self@)
        &&& encode_utf8(self@.src).len() <= MAX_SOURCE_BYTES as int
        &&& pos_fits(self@.span.start.line, self@.span.start.column, self@.byte)
        &&& pos_fits(self@.span.end.line, self@.span.end.column, self@.byte)
    }

    fn new(chars: Vec<char>) -> (r: TokenLexer)
        requires
            encode_utf8(chars@).len() <= MAX_SOURCE_BYTES as int,
        ensures
            r.inv(),
            r@ == init_state(chars@),
    {
        proof {
            lemma_byte_pos_bounds(chars@, 0, 0);
        }
        TokenLexer {
            chars,
            pos: 0,
            current_byte: 0,
            previous_byte: 0,
            previous_token: None,
            span: Span {
                start: Position { line: 1, column: 1 },
                end: Position { line: 1, column: 1 },
            },
            indent: 0,
            string_mode_stack: Vec::new(),
            dead: false,
        }
    }

    /// The byte range of the most recent token.
    fn source_bytes(&self) -> (r: (usize, usize))
        ensures
            r.0 as int == self@.prev_byte,
            r.1 as int == self@.byte,
    {
        (self.previous_byte, self.current_byte)
    }

    /// The position at which the next token will begin.
    fn current_position(&self) -> (p: Position)
        ensures
            p@ == self@.span.end,
    {
        self.span.end
    }

    // Advance along the current line by `n` characters, `nbytes` bytes and
    // `ncols` columns.
    fn advance_line(&mut self, n: usize, nbytes: usize, ncols: usize)
        requires
            old(self).inv(),
            !old(self)@.dead,
            old(self)@.pos + n <= old(self)@.src.len(),
            nbytes == byte_pos(old(self)@.src, old(self)@.pos + n) - old(self)@.byte,
            ncols <= 3 * nbytes,
        ensures
            final(self).inv(),
            final(self)@ == adv(old(self)@, n as int, ncols as int),
    {
        proof {
            lemma_byte_pos_bounds(self@.src, 0, self@.pos + n);
            lemma_byte_pos_bounds(self@.src, self@.pos, self@.pos + n);
            lemma_byte_pos_bounds(self@.src, self@.pos + n, self@.src.len() as int);
        }
        self.previous_byte = self.current_byte;
        self.current_byte = self.current_byte + nbytes;
        self.pos = self.pos + n;
        let end = Position {
            line: self.span.end.line,
            column: self.span.end.column + (ncols as u32),
        };
        self.span = Span { start: self.span.end, end };
    }

    // Advance by `n` characters and `nbytes` bytes to an explicitly given
    // position.
    fn advance_to_position(&mut self, n: usize, nbytes: usize, line: u32, column: u32)
        requires
            old(self).inv(),
            !old(self)@.dead,
            old(self)@.pos + n <= old(self)@.src.len(),
            nbytes == byte_pos(old(self)@.src, old(self)@.pos + n) - old(self)@.byte,
            pos_fits(line as int, column as int, old(self)@.byte + nbytes),
        ensures
            final(self).inv(),
            final(self)@ == adv_to(
                old(self)@,
                n as int,
                PosG { line: line as int, column: column as int },
            ),
    {
        proof {
            lemma_byte_pos_bounds(self@.src, 0, self@.pos + n);
            lemma_byte_pos_bounds(self@.src, self@.pos, self@.pos + n);
            lemma_byte_pos_bounds(self@.src, self@.pos + n, self@.src.len() as int);
        }
        self.previous_byte = self.current_byte;
        self.current_byte = self.current_byte + nbytes;
        self.pos = self.pos + n;
        let end = Position { line, column };
        self.span = Span { start: self.span.end, end };
    }

    /// The number of bytes taken by the characters in `[i, i + n)`.
    fn bytes_of_chars(&self, i: usize, n: usize) -> (nbytes: usize)
        requires
            self.inv(),
            i + n <= self@.src.len(),
        ensures
            nbytes == byte_pos(self@.src, i + n) - byte_pos(self@.src, i as int),
    {
        proof {
            lemma_st_bounds(self@);
            lemma_byte_pos_bounds(self@.src, 0, i as int);
            lemma_byte_pos_bounds(self@.src, i as int, self@.src.len() as int);
        }
        let mut nbytes: usize = 0;
        let mut m = i;
        loop
            invariant
                self.inv(),
                i <= m <= i + n,
                i + n <= self@.src.len(),
                self@.src.len() <= encode_utf8(self@.src).len() <= MAX_SOURCE_BYTES as int,
                nbytes == byte_pos(self@.src, m as int) - byte_pos(self@.src, i as int),
            ensures
                nbytes == byte_pos(self@.src, i + n) - byte_pos(self@.src, i as int),
            decreases i + n - m,
        {
            if m == i + n {
                break;
            }
            proof {
                lemma_byte_pos_step(self@.src, m as int);
                lemma_byte_pos_bounds(self@.src, 0, m as int);
                lemma_byte_pos_bounds(self@.src, m + 1, self@.src.len() as int);
            }
            nbytes = nbytes + utf8_len(self.chars[m]);
            m = m + 1;
        }
        nbytes
    }

    // Advance along the current line by `n` characters, advancing one
    // column per character.
    fn advance_chars(&mut self, n: usize)
        requires
            old(self).inv(),
            !old(self)@.dead,
            old(self)@.pos + n <= old(self)@.src.len(),
        ensures
            final(self).inv(),
            final(self)@ == adv(old(self)@, n as int, n as int),
    {
        let nbytes = self.bytes_of_chars(self.pos, n);
        proof {
            lemma_byte_pos_bounds(self@.src, self@.pos, self@.pos + n);
        }
        self.advance_line(n, nbytes, n);
    }

    // Advance by `n` characters to an explicitly given position.
    fn advance_to_chars(&mut self, n: usize, line: u32, column: u32)
        requires
            old(self).inv(),
            !old(self)@.dead,
            old(self)@.pos + n <= old(self)@.src.len(),
            pos_fits(line as int, column as int, old(self)@.byte + n),
        ensures
            final(self).inv(),
            final(self)@ == adv_to(
                old(self)@,
                n as int,
                PosG { line: line as int, column: column as int },
            ),
    {
        let nbytes = self.bytes_of_chars(self.pos, n);
        proof {
            lemma_byte_pos_bounds(self@.src, self@.pos, self@.pos + n);
        }
        self.advance_to_position(n, nbytes, line, column);
    }

    fn consume_newline(&mut self) -> (t: Token)
        requires
            old(self).inv(),
            !old(self)@.dead,
            old(self)@.pos < old(self)@.src.len(),
        ensures
            final(self).inv(),
            ({
                let o = step_newline(old(self)@);
                final(self)@ == o.st && t == o.tok
            }),
    {
        proof {
            reveal(step_newline);
            lemma_st_bounds(self@);
        }
        let c = self.chars[self.pos];
        if c == '\r' {
            if self.pos + 1 < self.chars.len() && self.chars[self.pos + 1] == '\n' {
                let line = self.span.end.line + 1;
                self.advance_to_chars(2, line, 1);
                Token::NewLine
            } else {
                Token::Error
            }
        } else {
            let line = self.span.end.line + 1;
            self.advance_to_chars(1, line, 1);
            Token::NewLine
        }
    }

    fn scan_exponent(&self, j: usize) -> (e: usize)
        requires
            self.inv(),
            j <= self@.src.len(),
        ensures
            e == exponent_end(self@.src, j as int),
            j <= e <= self@.src.len(),
    {
        proof {
            lemma_st_bounds(self@);
            lemma_exponent_end_bounds(self@.src, j as int);
        }
        if j < self.chars.len() && self.chars[j] == 'e' {
            let k = if j + 1 < self.chars.len() && (self.chars[j + 1] == '+' || self.chars[j + 1]
                == '-') {
                j + 2
            } else {
                j + 1
            };
            run_end(&self.chars, k, CharClass::Digit)
        } else {
            j
        }
    }

    fn consume_number(&mut self) -> (t: Token)
        requires
            old(self).inv(),
            !old(self)@.dead,
            old(self)@.pos < old(self)@.src.len(),
        ensures
            final(self).inv(),
            ({
                let o = step_number(old(self)@);
                final(self)@ == o.st && t == o.tok
            }),
    {
        proof {
            reveal(step_number);
            lemma_st_bounds(self@);
            lemma_number_end_bounds(self@.src, self@.pos);
        }
        let i = self.pos;
        let zero = self.chars[i] == '0';
        let i1 = run_end(&self.chars, i, CharClass::Digit);
        let len = self.chars.len();
        let end: usize;
        if i1 < len && self.chars[i1] == 'b' && zero && i1 == i + 1 {
            end = run_end(&self.chars, i1 + 1, CharClass::Binary);
        } else if i1 < len && self.chars[i1] == 'o' && zero && i1 == i + 1 {
            end = run_end(&self.chars, i1 + 1, CharClass::Octal);
        } else if i1 < len && self.chars[i1] == 'x' && zero && i1 == i + 1 {
            end = run_end(&self.chars, i1 + 1, CharClass::Hex);
        } else if i1 < len && self.chars[i1] == '.' {
            let cont = if i1 + 1 < len && is_digit(self.chars[i1 + 1]) {
                true
            } else if i1 + 1 < len && self.chars[i1 + 1] == 'e' && i1 + 2 < len && (is_digit(
                self.chars[i1 + 2],
            ) || self.chars[i1 + 2] == '+' || self.chars[i1 + 2] == '-') {
                true
            } else {
                false
            };
            proof {
                assert(cont == dot_continues_number(self@.src, i1 as int));
            }
            if cont {
                let i2 = run_end(&self.chars, i1 + 1, CharClass::Digit);
                end = self.scan_exponent(i2);
            } else {
                end = i1;
            }
        } else {
            end = self.scan_exponent(i1);
        }
        proof {
            assert(end == number_end(self@.src, self@.pos));
        }
        self.advance_chars(end - i);
        Token::Number
    }

    fn consume_wildcard(&mut self) -> (t: Token)
        requires
            old(self).inv(),
            !old(self)@.dead,
            old(self)@.pos < old(self)@.src.len(),
        ensures
            final(self).inv(),
            ({
                let o = step_wildcard(old(self)@);
                final(self)@ == o.st && t == o.tok
            }),
    {
        proof {
            reveal(step_wildcard);
            lemma_st_bounds(self@);
        }
        let i = self.pos;
        let (j, nb, wsum) = self.scan_wide_run(i + 1, WideClass::IdContinue);
        let ul = utf8_len(self.chars[i]);
        proof {
            lemma_byte_pos_step(self@.src, i as int);
            lemma_char_utf8_len_bounds(self@.src[i as int]);
            lemma_byte_pos_bounds(self@.src, 0, i as int);
            lemma_byte_pos_bounds(self@.src, j as int, self@.src.len() as int);
        }
        self.advance_line(j - i, ul + nb, 1 + wsum);
        Token::Wildcard
    }

    /// Scan a run of identifier-continue characters (or of characters up
    /// to a line end), reporting the end index, the bytes passed, and the
    /// summed display width.
    fn scan_wide_run(&self, i: usize, k: WideClass) -> (r: (usize, usize, usize))
        requires
            self.inv(),
            i <= self@.src.len(),
        ensures
            r.0 == scan_end(self@.src, i as int, wide_p(k)),
            i <= r.0 <= self@.src.len(),
            r.1 == byte_pos(self@.src, r.0 as int) - byte_pos(self@.src, i as int),
            r.2 == width_sum(self@.src, i as int, r.0 as int),
            r.2 <= 3 * r.1,
    {
        proof {
            lemma_st_bounds(self@);
            lemma_byte_pos_bounds(self@.src, 0, i as int);
            lemma_byte_pos_bounds(self@.src, i as int, self@.src.len() as int);
        }
        let ghost src = self@.src;
        let mut j = i;
        let mut nb: usize = 0;
        let mut w: usize = 0;
        loop
            invariant
                self.inv(),
                i <= j <= src.len(),
                src == self@.src,
                src.len() <= encode_utf8(src).len() <= MAX_SOURCE_BYTES as int,
                scan_end(src, i as int, wide_p(k)) == scan_end(src, j as int, wide_p(k)),
                nb == byte_pos(src, j as int) - byte_pos(src, i as int),
                byte_pos(src, j as int) <= encode_utf8(src).len(),
                w == width_sum(src, i as int, j as int),
                w <= 3 * nb,
            ensures
                j == scan_end(src, i as int, wide_p(k)),
                i <= j <= src.len(),
                nb == byte_pos(src, j as int) - byte_pos(src, i as int),
                w == width_sum(src, i as int, j as int),
                w <= 3 * nb,
            decreases src.len() - j,
        {
            if j < self.chars.len() {
                let c = self.chars[j];
                if char_in_wide(c, k) {
                    let ul = utf8_len(c);
                    let cw = char_width(c);
                    proof {
                        lemma_byte_pos_step(src, j as int);
                        lemma_width_sum_step(src, i as int, j as int);
                        lemma_byte_pos_bounds(src, j + 1, src.len() as int);
                    }
                    nb = nb + ul;
                    w = w + cw;
                    j = j + 1;
                    continue;
                }
            }
            proof {
                assert(scan_end(src, j as int, wide_p(k)) == j as int);
            }
            break;
        }
        (j, nb, w)
    }

    fn consume_id_or_keyword(&mut self) -> (t: Token)
        requires
            old(self).inv(),
            !old(self)@.dead,
            old(self)@.pos < old(self)@.src.len(),
        ensures
            final(self).inv(),
            ({
                let o = step_id_or_keyword(old(self)@);
                final(self)@ == o.st && t == o.tok
            }),
            final(self)@.modes.len() >= old(self)@.modes.len(),
    {
        proof {
            reveal(step_id_or_keyword);
            lemma_st_bounds(self@);
        }
        let i = self.pos;
        let (j, nb, wsum) = self.scan_wide_run(i + 1, WideClass::IdContinue);
        let ghost id = self@.src.subrange(i as int, j as int);
        if kw_eq(&self.chars, i, j, "else") {
            proof {
                reveal_strlit("else");
                assert(id.len() == 4);
            }
            if i + 7 <= self.chars.len() && kw_eq(&self.chars, i, i + 7, "else if") {
                self.advance_chars(7);
                Token::ElseIf
            } else {
                self.advance_chars(4);
                Token::Else
            }
        } else {
            if kw_eq(&self.chars, i, j, "r") && i + 1 < self.chars.len() {
                match StringQuote::try_from(self.chars[i + 1]) {
                    Some(q) => {
                        self.string_mode_stack.push(StringMode::RawStart(q));
                        self.advance_chars(2);
                        return Token::StringStart { quote: q, raw: true };
                    },
                    None => {},
                }
            }
            if !matches!(self.previous_token, Some(Token::Dot)) {
                match match_keyword(&self.chars, i, j) {
                    Some(tk) => {
                        self.advance_chars(j - i);
                        return tk;
                    },
                    None => {},
                }
            }
            let ul = utf8_len(self.chars[i]);
            proof {
                lemma_byte_pos_step(self@.src, i as int);
                lemma_char_utf8_len_bounds(self@.src[i as int]);
                lemma_byte_pos_bounds(self@.src, 0, i as int);
                lemma_byte_pos_bounds(self@.src, j as int, self@.src.len() as int);
            }
            self.advance_line(j - i, ul + nb, 1 + wsum);
            Token::Id
        }
    }

    fn consume_symbol(&mut self) -> (r: Option<Token>)
        requires
            old(self).inv(),
            !old(self)@.dead,
            old(self)@.pos < old(self)@.src.len(),
        ensures
            final(self).inv(),
            ({
                let l = symbol_lookup(old(self)@.src, old(self)@.pos);
                match l {
                    Some((tk, n)) => r == Some(tk) && final(self)@ == adv(old(self)@, n, n),
                    None => r == None::<Token> && final(self)@ == old(self)@,
                }
            }),
    {
        proof {
            lemma_st_bounds(self@);
        }
        let len = self.chars.len();
        let i = self.pos;
        let c0 = self.chars[i];
        let c1 = if i + 1 < len {
            self.chars[i + 1]
        } else {
            c0
        };
        let has1 = i + 1 < len;
        let c2 = if i + 2 < len {
            self.chars[i + 2]
        } else {
            c0
        };
        let has2 = i + 2 < len;
        if c0 == '.' && has1 && c1 == '.' && has2 && c2 == '.' {
            self.advance_chars(3);
            Some(Token::Ellipsis)
        } else if c0 == '.' && has1 && c1 == '.' && has2 && c2 == '=' {
            self.advance_chars(3);
            Some(Token::RangeInclusive)
        } else if c0 == '.' && has1 && c1 == '.' {
            self.advance_chars(2);
            Some(Token::Range)
        } else if c0 == '>' && has1 && c1 == '>' {
            self.advance_chars(2);
            Some(Token::Pipe)
        } else if c0 == '=' && has1 && c1 == '=' {
            self.advance_chars(2);
            Some(Token::Equal)
        } else if c0 == '!' && has1 && c1 == '=' {
            self.advance_chars(2);
            Some(Token::NotEqual)
        } else if c0 == '>' && has1 && c1 == '=' {
            self.advance_chars(2);
            Some(Token::GreaterOrEqual)
        } else if c0 == '<' && has1 && c1 == '=' {
            self.advance_chars(2);
            Some(Token::LessOrEqual)
        } else if c0 == '>' {
            self.advance_chars(1);
            Some(Token::Greater)
        } else if c0 == '<' {
            self.advance_chars(1);
            Some(Token::Less)
        } else if c0 == '=' {
            self.advance_chars(1);
            Some(Token::Assign)
        } else if c0 == '+' && has1 && c1 == '=' {
            self.advance_chars(2);
            Some(Token::AddAssign)
        } else if c0 == '-' && has1 && c1 == '=' {
            self.advance_chars(2);
            Some(Token::SubtractAssign)
        } else if c0 == '*' && has1 && c1 == '=' {
            self.advance_chars(2);
            Some(Token::MultiplyAssign)
        } else if c0 == '/' && has1 && c1 == '=' {
            self.advance_chars(2);
            Some(Token::DivideAssign)
        } else if c0 == '%' && has1 && c1 == '=' {
            self.advance_chars(2);
            Some(Token::RemainderAssign)
        } else if c0 == '+' {
            self.advance_chars(1);
            Some(Token::Add)
        } else if c0 == '-' {
            self.advance_chars(1);
            Some(Token::Subtract)
        } else if c0 == '*' {
            self.advance_chars(1);
            Some(Token::Multiply)
        } else if c0 == '/' {
            self.advance_chars(1);
            Some(Token::Divide)
        } else if c0 == '%' {
            self.advance_chars(1);
            Some(Token::Remainder)
        } else if c0 == '@' {
            self.advance_chars(1);
            Some(Token::At)
        } else if c0 == ':' {
            self.advance_chars(1);
            Some(Token::Colon)
        } else if c0 == ',' {
            self.advance_chars(1);
            Some(Token::Comma)
        } else if c0 == '.' {
            self.advance_chars(1);
            Some(Token::Dot)
        } else if c0 == '(' {
            self.advance_chars(1);
            Some(Token::RoundOpen)
        } else if c0 == ')' {
            self.advance_chars(1);
            Some(Token::RoundClose)
        } else if c0 == '|' {
            self.advance_chars(1);
            Some(Token::Function)
        } else if c0 == '[' {
            self.advance_chars(1);
            Some(Token::SquareOpen)
        } else if c0 == ']' {
            self.advance_chars(1);
            Some(Token::SquareClose)
        } else if c0 == '{' {
            self.advance_chars(1);
            Some(Token::CurlyOpen)
        } else if c0 == '}' {
            self.advance_chars(1);
            Some(Token::CurlyClose)
        } else {
            None
        }
    }

    fn consume_comment(&mut self) -> (t: Token)
        requires
            old(self).inv(),
            !old(self)@.dead,
            old(self)@.pos < old(self)@.src.len(),
        ensures
            final(self).inv(),
            ({
                let o = step_comment(old(self)@);
                final(self)@ == o.st && t == o.tok
            }),
    {
        proof {
            reveal(step_comment);
            lemma_st_bounds(self@);
        }
        let ghost st0 = self@;
        let ghost src = self@.src;
        let i0 = self.pos;
        if i0 + 1 < self.chars.len() && self.chars[i0 + 1] == '-' {
            // multi-line comment
            let ghost base = scan_comment_multi(
                src,
                i0 + 1,
                self@.span.end.line,
                self@.span.end.column + 1,
            );
            let byte0 = self.current_byte;
            let mut i = i0 + 1;
            let mut nb: usize = utf8_len(self.chars[i0]);
            let mut line = self.span.end.line;
            let mut col = self.span.end.column + 1;
            let mut end_found = false;
            let mut error = false;
            proof {
                lemma_byte_pos_step(src, i0 as int);
                lemma_byte_pos_bounds(src, i0 + 1, src.len() as int);
            }
            loop
                invariant_except_break
                    !end_found,
                    !error,
                    base == scan_comment_multi(src, i as int, line as int, col as int),
                invariant
                    self@ == st0,
                    self.inv(),
                    src == self@.src,
                    i0 == self@.pos,
                    byte0 == self@.byte,
                    i0 + 1 <= i <= src.len(),
                    src.len() <= encode_utf8(src).len() <= MAX_SOURCE_BYTES as int,
                    nb == byte_pos(src, i as int) - byte_pos(src, i0 as int),
                    byte_pos(src, i as int) <= encode_utf8(src).len(),
                    pos_fits(line as int, col as int, byte0 + nb),
                ensures
                    self@ == st0,
                    error ==> base.error,
                    !error ==> !base.error && base.end_found == end_found && base.i == i
                        && base.line == line && base.col == col && i0 + 1 <= i <= src.len() && nb
                        == byte_pos(src, i as int) - byte_pos(src, i0 as int) && pos_fits(
                        line as int,
                        col as int,
                        byte0 + nb,
                    ),
                decreases src.len() - i,
            {
                if i >= self.chars.len() {
                    break;
                }
                let c = self.chars[i];
                let ul = utf8_len(c);
                let cw = char_width(c);
                proof {
                    lemma_byte_pos_step(src, i as int);
                    lemma_byte_pos_bounds(src, i + 1, src.len() as int);
                    if i + 1 < src.len() {
                        lemma_byte_pos_step(src, i + 1);
                        lemma_byte_pos_bounds(src, i + 2, src.len() as int);
                        lemma_char_utf8_len_bounds(src[i + 1]);
                    }
                }
                let col1 = col + cw as u32;
                if c == '#' {
                    if i + 1 < self.chars.len() && self.chars[i + 1] == '-' {
                        let ul2 = utf8_len(self.chars[i + 1]);
                        nb = nb + ul + ul2;
                        i = i + 2;
                        col = col1 + 1;
                    } else {
                        nb = nb + ul;
                        i = i + 1;
                        col = col1;
                    }
                } else if c == '-' {
                    if i + 1 < self.chars.len() && self.chars[i + 1] == '#' {
                        let ul2 = utf8_len(self.chars[i + 1]);
                        nb = nb + ul + ul2;
                        i = i + 2;
                        col = col1 + 1;
                        end_found = true;
                        break;
                    } else {
                        nb = nb + ul;
                        i = i + 1;
                        col = col1;
                    }
                } else if c == '\r' {
                    if i + 1 < self.chars.len() && self.chars[i + 1] == '\n' {
                        let ul2 = utf8_len(self.chars[i + 1]);
                        nb = nb + ul + ul2;
                        i = i + 2;
                        line = line + 1;
                        col = 1;
                    } else {
                        error = true;
                        break;
                    }
                } else if c == '\n' {
                    nb = nb + ul;
                    i = i + 1;
                    line = line + 1;
                    col = 1;
                } else {
                    nb = nb + ul;
                    i = i + 1;
                    col = col1;
                }
            }
            if error {
                return Token::Error;
            }
            self.advance_to_position(i - i0, nb, line, col);
            if end_found {
                Token::CommentMulti
            } else {
                Token::Error
            }
        } else {
            // single-line comment
            let (j, nbc, w) = self.scan_wide_run(i0 + 1, WideClass::LineBody);
            let ul = utf8_len(self.chars[i0]);
            proof {
                lemma_byte_pos_step(src, i0 as int);
                lemma_char_utf8_len_bounds(src[i0 as int]);
                lemma_byte_pos_bounds(src, 0, i0 as int);
                lemma_byte_pos_bounds(src, j as int, src.len() as int);
            }
            self.advance_line(j - i0, ul + nbc, 1 + w);
            Token::CommentSingle
        }
    }

    fn consume_string_literal(&mut self, q: StringQuote) -> (t: Token)
        requires
            old(self).inv(),
            !old(self)@.dead,
            old(self)@.pos < old(self)@.src.len(),
        ensures
            final(self).inv(),
            ({
                let o = step_string_literal(old(self)@, q);
                final(self)@ == o.st && t == o.tok
            }),
    {
        proof {
            reveal(step_string_literal);
            lemma_st_bounds(self@);
        }
        let ghost st0 = self@;
        let ghost src = self@.src;
        let i0 = self.pos;
        let byte0 = self.current_byte;
        let ghost base = scan_string(
            src,
            i0 as int,
            q,
            self@.span.end.line,
            self@.span.end.column,
        );
        let mut i = i0;
        let mut nb: usize = 0;
        let mut line = self.span.end.line;
        let mut col = self.span.end.column;
        let mut error = false;
        loop
            invariant_except_break
                !error,
            invariant
                self@ == st0,
                self.inv(),
                src == self@.src,
                i0 == self@.pos,
                byte0 == self@.byte,
                i0 <= i <= src.len(),
                src.len() <= encode_utf8(src).len() <= MAX_SOURCE_BYTES as int,
                nb == byte_pos(src, i as int) - byte_pos(src, i0 as int),
                byte_pos(src, i as int) <= encode_utf8(src).len(),
                pos_fits(line as int, col as int, byte0 + nb),
                base == scan_string(src, i as int, q, line as int, col as int),
            ensures
                self@ == st0,
                error ==> base.error,
                !error ==> !base.error && base.i == i && base.line == line && base.col == col
                    && i0 <= i <= src.len() && nb == byte_pos(src, i as int) - byte_pos(
                    src,
                    i0 as int,
                ) && pos_fits(line as int, col as int, byte0 + nb),
            decreases src.len() - i,
        {
            if i >= self.chars.len() {
                error = true;
                break;
            }
            let c = self.chars[i];
            proof {
                lemma_quote_char_eq(c, q);
                lemma_byte_pos_step(src, i as int);
                lemma_byte_pos_bounds(src, i + 1, src.len() as int);
                if i + 1 < src.len() {
                    lemma_quote_char_eq(src[i + 1], q);
                    lemma_byte_pos_step(src, i + 1);
                    lemma_byte_pos_bounds(src, i + 2, src.len() as int);
                    lemma_char_utf8_len_bounds(src[i + 1]);
                }
            }
            if c == q.as_char() {
                break;
            }
            if c == '$' {
                break;
            }
            let ul = utf8_len(c);
            if c == '\\' {
                let pair = i + 1 < self.chars.len() && (self.chars[i + 1] == '$' || self.chars[i
                    + 1] == '\\' || self.chars[i + 1] == q.as_char());
                if pair {
                    let ul2 = utf8_len(self.chars[i + 1]);
                    nb = nb + ul + ul2;
                    i = i + 2;
                    col = col + 2;
                } else {
                    nb = nb + ul;
                    i = i + 1;
                    col = col + 1;
                }
            } else if c == '\r' {
                if i + 1 < self.chars.len() && self.chars[i + 1] == '\n' {
                    let ul2 = utf8_len(self.chars[i + 1]);
                    nb = nb + ul + ul2;
                    i = i + 2;
                    line = line + 1;
                    col = 1;
                } else {
                    error = true;
                    break;
                }
            } else if c == '\n' {
                nb = nb + ul;
                i = i + 1;
                line = line + 1;
                col = 1;
            } else {
                let cw = char_width(c);
                nb = nb + ul;
                i = i + 1;
                col = col + cw as u32;
            }
        }
        if error {
            return Token::Error;
        }
        self.advance_to_position(i - i0, nb, line, col);
        Token::StringLiteral
    }

    fn consume_raw_string_contents(&mut self, q: StringQuote) -> (t: Token)
        requires
            old(self).inv(),
            !old(self)@.dead,
            old(self)@.pos < old(self)@.src.len(),
            old(self)@.modes.len() > 0,
        ensures
            final(self).inv(),
            ({
                let o = step_raw_contents(old(self)@, q);
                final(self)@ == o.st && t == o.tok
            }),
    {
        proof {
            reveal(step_raw_contents);
            lemma_st_bounds(self@);
        }
        let ghost st0 = self@;
        let ghost src = self@.src;
        let i0 = self.pos;
        let byte0 = self.current_byte;
        let ghost base = scan_raw(src, i0 as int, q, self@.span.end.line, self@.span.end.column);
        let mut i = i0;
        let mut nb: usize = 0;
        let mut line = self.span.end.line;
        let mut col = self.span.end.column;
        let mut error = false;
        loop
            invariant_except_break
                !error,
            invariant
                self@ == st0,
                self.inv(),
                src == self@.src,
                i0 == self@.pos,
                byte0 == self@.byte,
                i0 <= i <= src.len(),
                src.len() <= encode_utf8(src).len() <= MAX_SOURCE_BYTES as int,
                nb == byte_pos(src, i as int) - byte_pos(src, i0 as int),
                byte_pos(src, i as int) <= encode_utf8(src).len(),
                pos_fits(line as int, col as int, byte0 + nb),
                base == scan_raw(src, i as int, q, line as int, col as int),
            ensures
                self@ == st0,
                error ==> base.error,
                !error ==> !base.error && base.i == i && base.line == line && base.col == col
                    && i0 <= i <= src.len() && nb == byte_pos(src, i as int) - byte_pos(
                    src,
                    i0 as int,
                ) && pos_fits(line as int, col as int, byte0 + nb),
            decreases src.len() - i,
        {
            if i >= self.chars.len() {
                error = true;
                break;
            }
            let c = self.chars[i];
            proof {
                lemma_quote_char_eq(c, q);
                lemma_byte_pos_step(src, i as int);
                lemma_byte_pos_bounds(src, i + 1, src.len() as int);
                if i + 1 < src.len() {
                    lemma_byte_pos_step(src, i + 1);
                    lemma_byte_pos_bounds(src, i + 2, src.len() as int);
                    lemma_char_utf8_len_bounds(src[i + 1]);
                }
            }
            if c == q.as_char() {
                break;
            }
            let ul = utf8_len(c);
            if c == '\r' {
                if i + 1 < self.chars.len() && self.chars[i + 1] == '\n' {
                    let ul2 = utf8_len(self.chars[i + 1]);
                    nb = nb + ul + ul2;
                    i = i + 2;
                    line = line + 1;
                    col = 1;
                } else {
                    error = true;
                    break;
                }
            } else if c == '\n' {
                nb = nb + ul;
                i = i + 1;
                line = line + 1;
                col = 1;
            } else {
                let cw = char_width(c);
                nb = nb + ul;
                i = i + 1;
                col = col + cw as u32;
            }
        }
        if error {
            return Token::Error;
        }
        self.advance_to_position(i - i0, nb, line, col);
        let popped = self.string_mode_stack.pop();
        self.string_mode_stack.push(StringMode::RawEnd(q));
        Token::StringLiteral
    }

    fn consume_raw_string_end(&mut self, q: StringQuote) -> (t: Token)
        requires
            old(self).inv(),
            !old(self)@.dead,
            old(self)@.pos < old(self)@.src.len(),
            old(self)@.modes.len() > 0,
        ensures
            final(self).inv(),
            ({
                let o = step_raw_end(old(self)@, q);
                final(self)@ == o.st && t == o.tok
            }),
    {
        proof {
            reveal(step_raw_end);
            lemma_st_bounds(self@);
            lemma_quote_char_eq(self@.src[self@.pos], q);
        }
        let c = self.chars[self.pos];
        if c == q.as_char() {
            let popped = self.string_mode_stack.pop();
            self.advance_chars(1);
            Token::StringEnd
        } else {
            Token::Error
        }
    }

    /// One step outside any string mode (or inside a template
    /// expression): whitespace, newlines, comments, string openers,
    /// numbers, identifiers, wildcards and symbols.
    fn consume_plain(&mut self) -> (t: Token)
        requires
            old(self).inv(),
            !old(self)@.dead,
            old(self)@.pos < old(self)@.src.len(),
        ensures
            final(self).inv(),
            ({
                let o = step_plain(old(self)@);
                final(self)@ == o.st && t == o.tok
            }),
    {
        proof {
            reveal(step_plain);
            reveal(step_symbol);
            lemma_st_bounds(self@);
        }
        let mode: Option<StringMode> = if self.string_mode_stack.len() > 0 {
            Some(self.string_mode_stack[self.string_mode_stack.len() - 1])
        } else {
            None
        };
        proof {
            assert(mode == top_mode(self@));
        }
        let c = self.chars[self.pos];
        if is_whitespace(c) {
            let j = run_end(&self.chars, self.pos, CharClass::Space);
            let n = j - self.pos;
            self.advance_chars(n);
            if matches!(self.previous_token, Some(Token::NewLine) | None) {
                self.indent = n;
            }
            Token::Whitespace
        } else if c == '\r' || c == '\n' {
            self.consume_newline()
        } else if c == '#' {
            self.consume_comment()
        } else if c == '"' {
            self.advance_chars(1);
            self.string_mode_stack.push(StringMode::Literal(StringQuote::Double));
            Token::StringStart { quote: StringQuote::Double, raw: false }
        } else if c == '\'' {
            self.advance_chars(1);
            self.string_mode_stack.push(StringMode::Literal(StringQuote::Single));
            Token::StringStart { quote: StringQuote::Single, raw: false }
        } else if is_digit(c) {
            self.consume_number()
        } else if is_id_start(c) {
            self.consume_id_or_keyword()
        } else if c == '_' {
            self.consume_wildcard()
        } else {
            match self.consume_symbol() {
                Some(tok) => {
                    if matches!(tok, Token::CurlyOpen) && matches!(
                        mode,
                        Some(StringMode::TemplateExpression),
                    ) {
                        self.string_mode_stack.push(StringMode::TemplateExpressionInlineMap);
                    } else if matches!(tok, Token::CurlyClose) && matches!(
                        mode,
                        Some(
                            StringMode::TemplateExpression
                            | StringMode::TemplateExpressionInlineMap,
                        ),
                    ) {
                        let popped = self.string_mode_stack.pop();
                    }
                    tok
                },
                None => {
                    let ul = utf8_len(c);
                    if ul == 1 {
                        self.advance_chars(1);
                    } else {
                        proof {
                            lemma_char_utf8_len_bounds(c);
                        }
                        self.previous_byte = self.current_byte;
                        self.current_byte = self.current_byte + 1;
                        let end = Position {
                            line: self.span.end.line,
                            column: self.span.end.column + 1,
                        };
                        self.span = Span { start: self.span.end, end };
                        self.dead = true;
                    }
                    Token::Error
                },
            }
        }
    }

    /// One step inside a string literal: the closing quote, an
    /// interpolation marker, or a literal fragment.
    fn consume_in_literal(&mut self, q: StringQuote) -> (t: Token)
        requires
            old(self).inv(),
            !old(self)@.dead,
            old(self)@.pos < old(self)@.src.len(),
            old(self)@.modes.len() > 0,
        ensures
            final(self).inv(),
            ({
                let o = step_in_literal(old(self)@, q);
                final(self)@ == o.st && t == o.tok
            }),
    {
        proof {
            reveal(step_in_literal);
            lemma_st_bounds(self@);
        }
        let c = self.chars[self.pos];
        proof {
            lemma_quote_char_eq(c, q);
        }
        if c == q.as_char() {
            self.advance_chars(1);
            let popped = self.string_mode_stack.pop();
            Token::StringEnd
        } else if c == '$' {
            self.advance_chars(1);
            self.string_mode_stack.push(StringMode::TemplateStart);
            Token::Dollar
        } else {
            self.consume_string_literal(q)
        }
    }

    /// One step just after a `$`: an identifier, an opening brace, or an
    /// error.
    fn consume_template_start(&mut self) -> (t: Token)
        requires
            old(self).inv(),
            !old(self)@.dead,
            old(self)@.pos < old(self)@.src.len(),
            old(self)@.modes.len() > 0,
        ensures
            final(self).inv(),
            ({
                let o = step_template_start(old(self)@);
                final(self)@ == o.st && t == o.tok
            }),
    {
        proof {
            reveal(step_template_start);
            lemma_st_bounds(self@);
        }
        let c = self.chars[self.pos];
        if is_id_start(c) {
            let t2 = self.consume_id_or_keyword();
            if matches!(t2, Token::Id) {
                let popped = self.string_mode_stack.pop();
                Token::Id
            } else {
                Token::Error
            }
        } else if c == '{' {
            self.advance_chars(1);
            let popped = self.string_mode_stack.pop();
            self.string_mode_stack.push(StringMode::TemplateExpression);
            Token::CurlyOpen
        } else {
            Token::Error
        }
    }

    fn get_next_token(&mut self) -> (t: Option<Token>)
        requires
            old(self).inv(),
        ensures
            final(self).inv(),
            ({
                let r = step(old(self)@);
                final(self)@ == r.st && t == r.tok
            }),
    {
        proof {
            reveal(step);
            lemma_st_bounds(self@);
        }
        if self.dead || self.pos >= self.chars.len() {
            self.previous_token = None;
            return None;
        }
        if matches!(self.previous_token, Some(Token::NewLine)) {
            self.indent = 0;
        }
        let mode: Option<StringMode> = if self.string_mode_stack.len() > 0 {
            Some(self.string_mode_stack[self.string_mode_stack.len() - 1])
        } else {
            None
        };
        let result: Token = match mode {
            Some(StringMode::Literal(q)) => self.consume_in_literal(q),
            Some(StringMode::RawStart(q)) => self.consume_raw_string_contents(q),
            Some(StringMode::RawEnd(q)) => self.consume_raw_string_end(q),
            Some(StringMode::TemplateStart) => self.consume_template_start(),
            _ => self.consume_plain(),
        };
        self.previous_token = Some(result);
        Some(result)
    }
}

/// Relies on the derived `Clone` of `core::ops::Range`, which clones the
/// two endpoints; vstd gives it no specification of its own.
pub assume_specification<Idx: Clone>[ <core::ops::Range<Idx> as Clone>::clone ](
    r: &core::ops::Range<Idx>,
) -> (res: core::ops::Range<Idx>)
    ensures
        vstd::prelude::cloned::<Idx>(r.start, res.start),
        vstd::prelude::cloned::<Idx>(r.end, res.end),
;

/// A [Token] along with additional metadata
#[derive(Clone, Debug, PartialEq)]
pub struct LexedToken {
    /// The token
    pub token: Token,
    /// The byte positions in the source representing the token
    pub source_bytes: core::ops::Range<usize>,
    /// The token's span
    pub span: Span,
    /// The indentation level of the token's starting line
    pub indent: usize,
}

impl View for LexedToken {
    type V = LexedTokenG;

    open spec fn view(&self) -> LexedTokenG {
        LexedTokenG {
            token: self.token,
            start_byte: self.source_bytes.start as int,
            end_byte: self.source_bytes.end as int,
            span: self.span@,
            indent: self.indent as int,
        }
    }
}

impl LexedToken {
    /// A helper for getting the token's starting line
    pub fn line(&self) -> (l: u32)
        ensures
            l as int == self@.span.start.line,
    {
        self.span.start.line
    }

    /// A helper for getting the token's string slice from the source
    ///
    /// The token's byte range must lie on character boundaries of the
    /// source it is applied to; every range the lexer reports for its own
    /// source does.
    pub fn slice<'a>(&self, source: &'a str) -> (r: &'a str)
        requires
            is_char_boundary(source.spec_bytes(), self@.start_byte),
            is_char_boundary(source.spec_bytes(), self@.end_byte),
            0 <= self@.start_byte <= self@.end_byte <= source.spec_bytes().len(),
        ensures
            r.spec_bytes() == source.spec_bytes().subrange(self@.start_byte, self@.end_byte),
    {
        proof {
            vstd::utf8::encode_utf8_valid_utf8(source@);
            crate::unicode::lemma_boundary_prefix(
                source.spec_bytes(),
                self@.start_byte,
                self@.end_byte,
            );
            vstd::utf8::valid_utf8_split(source.spec_bytes(), self@.end_byte);
        }
        let (head, _) = source.split_at(self.source_bytes.end);
        let (_, r) = head.split_at(self.source_bytes.start);
        proof {
            assert(r.spec_bytes() =~= source.spec_bytes().subrange(
                self@.start_byte,
                self@.end_byte,
            ));
        }
        r
    }
}

impl Default for LexedToken {
    fn default() -> (r: LexedToken)
        ensures
            r@.token is Error,
            r@.start_byte == 0 && r@.end_byte == 0,
            r@.indent == 0,
    {
        LexedToken {
            token: Token::Error,
            source_bytes: 0..0,
            span: Span {
                start: Position { line: 1, column: 1 },
                end: Position { line: 1, column: 1 },
            },
            indent: 0,
        }
    }
}

/// The lexer used by the parser
///
/// Wraps a TokenLexer with unbounded lookahead, see [`KotoLexer::peek`];
/// cloning it snapshots the whole lexing state, queue included.
#[derive(Clone)]
pub struct KotoLexer<'a> {
    source: &'a str,
    lexer: TokenLexer,
    token_queue: VecDeque<LexedToken>,
}

impl<'a> View for KotoLexer<'a> {
    type V = KLexV;

    closed spec fn view(&self) -> KLexV {
        KLexV {
            st: self.lexer@,
            queue: self.token_queue@.map_values(|t: LexedToken| t@),
        }
    }
}

impl<'a> KotoLexer<'a> {
    /// The lexer's invariant; established by [`KotoLexer::new`] and kept
    /// by every operation.
    pub closed spec fn wf(&self) -> bool {
        &&& self.lexer.inv()
        &&& self.lexer@.src == self.source@
    }

    /// Initializes a lexer with the given input script
    pub fn new(source: &'a str) -> (r: KotoLexer<'a>)
        requires
            source.spec_bytes().len() <= MAX_SOURCE_BYTES as int,
        ensures
            r.wf(),
            r@.st == init_state(source@),
            r@.queue == Seq::<LexedTokenG>::empty(),
    {
        let chars = str_chars(source);
        let r = KotoLexer {
            source,
            lexer: TokenLexer::new(chars),
            token_queue: VecDeque::new(),
        };
        proof {
            assert(r@.queue =~= Seq::<LexedTokenG>::empty());
        }
        r
    }

    /// Returns the input source
    pub fn source(&self) -> (s: &'a str)
        requires
            self.wf(),
        ensures
            s@ == self@.st.src,
    {
        self.source
    }

    fn next_token(&mut self) -> (r: Option<LexedToken>)
        requires
            old(self).wf(),
        ensures
            final(self).wf(),
            final(self)@.queue == old(self)@.queue,
            ({
                let s = step(old(self)@.st);
                final(self)@.st == s.st && (match s.tok {
                    None => r is None,
                    Some(tok) => r is Some && r->0@ == lexed_of(s.st, tok),
                })
            }),
    {
        proof {
            lemma_step_frame(old(self)@.st);
        }
        match self.lexer.get_next_token() {
            Some(token) => {
                let (sb, eb) = self.lexer.source_bytes();
                Some(
                    LexedToken {
                        token,
                        source_bytes: sb..eb,
                        span: self.lexer.span,
                        indent: self.lexer.indent,
                    },
                )
            },
            None => None,
        }
    }

    /// Peeks the nth token that will appear in the output stream
    ///
    /// `peek(0)` reports the token that the next call of [`KotoLexer::next`]
    /// will return; `peek(1)` the token after that, and so forth.  Peeking
    /// buffers tokens but never changes the stream.
    pub fn peek(&mut self, n: usize) -> (r: Option<&LexedToken>)
        requires
            old(self).wf(),
            n < usize::MAX,
        ensures
            final(self).wf(),
            forall|m: nat| stream_nth(final(self)@, m) == stream_nth(old(self)@, m),
            (match r {
                Some(t) => stream_nth(old(self)@, n as nat) == Some(t@),
                None => stream_nth(old(self)@, n as nat) is None,
            }),
    {
        loop
            invariant
                self.wf(),
                n < usize::MAX,
                forall|m: nat| stream_nth(self@, m) == stream_nth(old(self)@, m),
            ensures
                self.wf(),
                forall|m: nat| stream_nth(self@, m) == stream_nth(old(self)@, m),
                self.token_queue.len() > n || stream_nth(self@, n as nat) is None,
            decreases n + 1 - self.token_queue.len(),
        {
            if self.token_queue.len() > n {
                break;
            }
            let ghost pre = self@;
            match self.next_token() {
                Some(next) => {
                    self.token_queue.push_back(next);
                    proof {
                        assert(self@.queue =~= pre.queue.push(
                            lexed_of(step(pre.st).st, step(pre.st).tok->0),
                        ));
                        assert forall|m: nat| stream_nth(self@, m) == stream_nth(
                            pre,
                            m,
                        ) by {
                            lemma_stream_push(pre.st, pre.queue, m);
                        }
                    }
                },
                None => {
                    proof {
                        assert forall|m: nat| stream_nth(self@, m) == stream_nth(
                            old(self)@,
                            m,
                        ) by {
                            if m >= pre.queue.len() {
                                lemma_stream_end(pre.st, (m - pre.queue.len()) as nat);
                            }
                        }
                        lemma_stream_end(pre.st, (n - pre.queue.len()) as nat);
                    }
                    break;
                },
            }
        }
        if n < self.token_queue.len() {
            let t = &self.token_queue[n];
            proof {
                assert(stream_nth(self@, n as nat) == Some(self@.queue[n as int]));
            }
            Some(t)
        } else {
            None
        }
    }

    /// Returns the next token of the stream: the front of the queue if one
    /// was buffered by peeking, else a freshly lexed token.
    pub fn next(&mut self) -> (r: Option<LexedToken>)
        requires
            old(self).wf(),
        ensures
            final(self).wf(),
            (match stream_nth(old(self)@, 0) {
                Some(g) => r is Some && r->0@ == g,
                None => r is None,
            }),
            final(self)@ == next_state_v(old(self)@),
            forall|m: nat|
                stream_nth(final(self)@, m) == stream_nth(old(self)@, (m + 1) as nat),
    {
        let ghost pre = self@;
        let r = match self.token_queue.pop_front() {
            Some(next) => Some(next),
            None => self.next_token(),
        };
        proof {
            if pre.queue.len() > 0 {
                assert(self@.queue =~= pre.queue.drop_first());
            }
            assert(self@ == next_state_v(pre));
            assert forall|m: nat|
                stream_nth(self@, m) == stream_nth(pre, (m + 1) as nat) by {
                lemma_stream_shift(pre, m);
            }
        }
        r
    }
}

proof fn lemma_quote_char_eq(c: char, q: StringQuote)
    ensures
        (crate::token::spec_quote_of(c) == Some(q)) <==> (c == crate::token::quote_char(q)),
{
}

/// The character classes scanned with byte and width accounting.
#[derive(Clone, Copy)]
enum WideClass {
    IdContinue,
    LineBody,
}

spec fn wide_p(k: WideClass) -> spec_fn(char) -> bool {
    match k {
        WideClass::IdContinue => idcont_p(),
        WideClass::LineBody => not_line_end_p(),
    }
}

fn char_in_wide(c: char, k: WideClass) -> (r: bool)
    ensures
        r == wide_p(k)(c),
{
    match k {
        WideClass::IdContinue => is_id_continue(c),
        WideClass::LineBody => c != '\r' && c != '\n',
    }
}

/// Whether the characters `[i, j)` are exactly the characters of `kw`.
fn kw_eq(chars: &Vec<char>, i: usize, j: usize, kw: &str) -> (r: bool)
    requires
        i <= j <= chars.len(),
    ensures
        r == (chars@.subrange(i as int, j as int) == kw@),
{
    let klen = kw.unicode_len();
    if j - i != klen {
        proof {
            assert(chars@.subrange(i as int, j as int).len() != kw@.len());
        }
        return false;
    }
    let mut m: usize = 0;
    loop
        invariant
            i <= j <= chars.len(),
            j - i == klen,
            klen == kw@.len(),
            m <= klen,
            forall|u: int| 0 <= u < m ==> chars@.subrange(i as int, j as int)[u] == kw@[u],
        ensures
            (m == klen && forall|u: int|
                0 <= u < m ==> chars@.subrange(i as int, j as int)[u] == kw@[u]) || (m < klen
                && chars@.subrange(i as int, j as int)[m as int] != kw@[m as int]),
        decreases klen - m,
    {
        if m == klen {
            break;
        }
        if chars_differ(chars[i + m], kw.get_char(m)) {
            break;
        }
        m = m + 1;
    }
    if m == klen {
        proof {
            assert(chars@.subrange(i as int, j as int) =~= kw@);
        }
        true
    } else {
        false
    }
}

fn chars_differ(a: char, b: char) -> (r: bool)
    ensures
        r == (a != b),
{
    a != b
}

/// The keyword table as executable code; `else` is handled separately.
fn match_keyword(chars: &Vec<char>, i: usize, j: usize) -> (r: Option<Token>)
    requires
        i <= j <= chars.len(),
    ensures
        r == keyword_token(chars@.subrange(i as int, j as int)),
{
    if kw_eq(chars, i, j, "and") {
        Some(Token::And)
    } else if kw_eq(chars, i, j, "break") {
        Some(Token::Break)
    } else if kw_eq(chars, i, j, "catch") {
        Some(Token::Catch)
    } else if kw_eq(chars, i, j, "continue") {
        Some(Token::Continue)
    } else if kw_eq(chars, i, j, "debug") {
        Some(Token::Debug)
    } else if kw_eq(chars, i, j, "export") {
        Some(Token::Export)
    } else if kw_eq(chars, i, j, "false") {
        Some(Token::False)
    } else if kw_eq(chars, i, j, "finally") {
        Some(Token::Finally)
    } else if kw_eq(chars, i, j, "for") {
        Some(Token::For)
    } else if kw_eq(chars, i, j, "from") {
        Some(Token::From)
    } else if kw_eq(chars, i, j, "if") {
        Some(Token::If)
    } else if kw_eq(chars, i, j, "import") {
        Some(Token::Import)
    } else if kw_eq(chars, i, j, "in") {
        Some(Token::In)
    } else if kw_eq(chars, i, j, "loop") {
        Some(Token::Loop)
    } else if kw_eq(chars, i, j, "match") {
        Some(Token::Match)
    } else if kw_eq(chars, i, j, "not") {
        Some(Token::Not)
    } else if kw_eq(chars, i, j, "null") {
        Some(Token::Null)
    } else if kw_eq(chars, i, j, "or") {
        Some(Token::Or)
    } else if kw_eq(chars, i, j, "return") {
        Some(Token::Return)
    } else if kw_eq(chars, i, j, "self") {
        Some(Token::Self_)
    } else if kw_eq(chars, i, j, "switch") {
        Some(Token::Switch)
    } else if kw_eq(chars, i, j, "then") {
        Some(Token::Then)
    } else if kw_eq(chars, i, j, "throw") {
        Some(Token::Throw)
    } else if kw_eq(chars, i, j, "true") {
        Some(Token::True)
    } else if kw_eq(chars, i, j, "try") {
        Some(Token::Try)
    } else if kw_eq(chars, i, j, "until") {
        Some(Token::Until)
    } else if kw_eq(chars, i, j, "while") {
        Some(Token::While)
    } else if kw_eq(chars, i, j, "yield") {
        Some(Token::Yield)
    } else {
        None
    }
}

} // verus!

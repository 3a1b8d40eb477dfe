use koto_core::lexer::{KotoLexer, LexedToken};
use koto_core::token::{Token, StringQuote};
use koto_core::token::Token::{
    Add, AddAssign, Assign, Comma, CommentMulti, CommentSingle, CurlyClose, CurlyOpen, Dollar,
    Dot, Ellipsis, Else, ElseIf, Export, False, For, Function, Greater, GreaterOrEqual, Id, If,
    In, Less, LessOrEqual, MultiplyAssign, NewLine, Number, Pipe, Range, RangeInclusive,
    RoundClose, RoundOpen, SquareClose, SquareOpen, StringEnd, StringLiteral, Subtract,
    SubtractAssign, Then, True, Whitespace, Wildcard,
};

fn check_lexer_output(source: &str, tokens: &[(Token, Option<&str>, u32)]) {
    let mut lex = KotoLexer::new(source);

    for (i, (token, maybe_slice, line_number)) in tokens.iter().enumerate() {
        loop {
            match lex.next().expect("Expected token") {
                LexedToken {
                    token: Whitespace, ..
                } => continue,
                output => {
                    assert_eq!(output.token, *token, "Token mismatch at position {i}");
                    if let Some(slice) = maybe_slice {
                        assert_eq!(
                            output.slice(source),
                            *slice,
                            "Slice mismatch at position {i}"
                        );
                    }
                    assert_eq!(
                        output.line(),
                        *line_number,
                        "Line number mismatch at position {i}",
                    );
                    break;
                }
            }
        }
    }

    assert_eq!(lex.next(), None);
}

fn check_lexer_output_indented(source: &str, tokens: &[(Token, Option<&str>, u32, u32)]) {
    let mut lex = KotoLexer::new(source);

    for (i, (token, maybe_slice, line_number, indent)) in tokens.iter().enumerate() {
        loop {
            match lex.next().expect("Expected token") {
                LexedToken {
                    token: Whitespace, ..
                } => continue,
                output => {
                    assert_eq!(output.token, *token, "Mismatch at token {i}");
                    if let Some(slice) = maybe_slice {
                        assert_eq!(output.slice(source), *slice, "Mismatch at token {i}");
                    }
                    assert_eq!(
                        output.line(),
                        *line_number,
                        "Line number - expected: {}, actual: {} - (token {i} - {token:?})",
                        *line_number,
                        output.line(),
                    );
                    assert_eq!(
                        output.indent as u32, *indent,
                        "Indent (token {i} - {token:?})"
                    );
                    break;
                }
            }
        }
    }

    assert_eq!(lex.next(), None);
}

fn string_start(quote: StringQuote, raw: bool) -> Token {
    Token::StringStart { quote, raw }
}

#[test]
fn ids() {
    let input = "id id1 id_2 i_d_3 ïd_ƒôûr if iff _ _foo";
    check_lexer_output(
        input,
        &[
            (Id, Some("id"), 1),
            (Id, Some("id1"), 1),
            (Id, Some("id_2"), 1),
            (Id, Some("i_d_3"), 1),
            (Id, Some("ïd_ƒôûr"), 1),
            (If, None, 1),
            (Id, Some("iff"), 1),
            (Wildcard, Some("_"), 1),
            (Wildcard, Some("_foo"), 1),
        ],
    );
}

#[test]
fn indent() {
    let input = "\
if true then
  foo 1

bar 2";
    check_lexer_output_indented(
        input,
        &[
            (If, None, 1, 0),
            (True, None, 1, 0),
            (Then, None, 1, 0),
            (NewLine, None, 1, 0),
            (Id, Some("foo"), 2, 2),
            (Number, Some("1"), 2, 2),
            (NewLine, None, 2, 2),
            (NewLine, None, 3, 0),
            (Id, Some("bar"), 4, 0),
            (Number, Some("2"), 4, 0),
        ],
    );
}

#[test]
fn comments() {
    let input = "\
# single
true #-
multiline -
false #
-# true
()";
    check_lexer_output(
        input,
        &[
            (CommentSingle, Some("# single"), 1),
            (NewLine, None, 1),
            (True, None, 2),
            (CommentMulti, Some("#-\nmultiline -\nfalse #\n-#"), 2),
            (True, None, 5),
            (NewLine, None, 5),
            (RoundOpen, None, 6),
            (RoundClose, None, 6),
        ],
    );
}

#[test]
fn strings() {
    let input = r#"
"hello, world!"
"escaped \\\"\n\$ string"
"double-\"quoted\" 'string'"
'single-\'quoted\' "string"'
""
"\\"
"#;

    check_lexer_output(
        input,
        &[
            (NewLine, None, 1),
            (string_start(StringQuote::Double, false), None, 2),
            (StringLiteral, Some("hello, world!"), 2),
            (StringEnd, None, 2),
            (NewLine, None, 2),
            (string_start(StringQuote::Double, false), None, 3),
            (StringLiteral, Some(r#"escaped \\\"\n\$ string"#), 3),
            (StringEnd, None, 3),
            (NewLine, None, 3),
            (string_start(StringQuote::Double, false), None, 4),
            (StringLiteral, Some(r#"double-\"quoted\" 'string'"#), 4),
            (StringEnd, None, 4),
            (NewLine, None, 4),
            (string_start(StringQuote::Single, false), None, 5),
            (StringLiteral, Some(r#"single-\'quoted\' "string""#), 5),
            (StringEnd, None, 5),
            (NewLine, None, 5),
            (string_start(StringQuote::Double, false), None, 6),
            (StringEnd, None, 6),
            (NewLine, None, 6),
            (string_start(StringQuote::Double, false), None, 7),
            (StringLiteral, Some(r"\\"), 7),
            (StringEnd, None, 7),
            (NewLine, None, 7),
        ],
    );
}

#[test]
fn raw_strings() {
    let input = r#"
r'$foo'
"#;

    check_lexer_output(
        input,
        &[
            (NewLine, None, 1),
            (string_start(StringQuote::Single, true), None, 2),
            (StringLiteral, Some("$foo"), 2),
            (StringEnd, None, 2),
            (NewLine, None, 2),
        ],
    );
}

#[test]
fn interpolated_string_ids() {
    let input = r#"
"hello $name, how are you?"
'$foo$bar'
"#;
    check_lexer_output(
        input,
        &[
            (NewLine, None, 1),
            (string_start(StringQuote::Double, false), None, 2),
            (StringLiteral, Some("hello "), 2),
            (Dollar, None, 2),
            (Id, Some("name"), 2),
            (StringLiteral, Some(", how are you?"), 2),
            (StringEnd, None, 2),
            (NewLine, None, 2),
            (string_start(StringQuote::Single, false), None, 3),
            (Dollar, None, 3),
            (Id, Some("foo"), 3),
            (Dollar, None, 3),
            (Id, Some("bar"), 3),
            (StringEnd, None, 3),
            (NewLine, None, 3),
        ],
    );
}

#[test]
fn interpolated_string_expressions() {
    let input = r#"
"x + y == ${x + y}"
'${'{}'.format foo}'
"#;
    check_lexer_output(
        input,
        &[
            (NewLine, None, 1),
            (string_start(StringQuote::Double, false), None, 2),
            (StringLiteral, Some("x + y == "), 2),
            (Dollar, None, 2),
            (CurlyOpen, None, 2),
            (Id, Some("x"), 2),
            (Add, None, 2),
            (Id, Some("y"), 2),
            (CurlyClose, None, 2),
            (StringEnd, None, 2),
            (NewLine, None, 2),
            (string_start(StringQuote::Single, false), None, 3),
            (Dollar, None, 3),
            (CurlyOpen, None, 3),
            (string_start(StringQuote::Single, false), None, 3),
            (StringLiteral, Some("{}"), 3),
            (StringEnd, None, 3),
            (Dot, None, 3),
            (Id, Some("format"), 3),
            (Id, Some("foo"), 3),
            (CurlyClose, None, 3),
            (StringEnd, None, 3),
            (NewLine, None, 3),
        ],
    );
}

#[test]
fn operators() {
    let input = "> >= >> < <=";

    check_lexer_output(
        input,
        &[
            (Greater, None, 1),
            (GreaterOrEqual, None, 1),
            (Pipe, None, 1),
            (Less, None, 1),
            (LessOrEqual, None, 1),
        ],
    );
}

#[test]
fn numbers() {
    let input = "\
123
55.5
-1e-3
0.5e+9
-8e8
0xabadcafe
0xABADCAFE
0o707606
0b1010101";
    check_lexer_output(
        input,
        &[
            (Number, Some("123"), 1),
            (NewLine, None, 1),
            (Number, Some("55.5"), 2),
            (NewLine, None, 2),
            (Subtract, None, 3),
            (Number, Some("1e-3"), 3),
            (NewLine, None, 3),
            (Number, Some("0.5e+9"), 4),
            (NewLine, None, 4),
            (Subtract, None, 5),
            (Number, Some("8e8"), 5),
            (NewLine, None, 5),
            (Number, Some("0xabadcafe"), 6),
            (NewLine, None, 6),
            (Number, Some("0xABADCAFE"), 7),
            (NewLine, None, 7),
            (Number, Some("0o707606"), 8),
            (NewLine, None, 8),
            (Number, Some("0b1010101"), 9),
        ],
    );
}

#[test]
fn lookups_on_numbers() {
    let input = "\
1.0.sin()
-1e-3.abs()
1.min x
9.exp()";
    check_lexer_output(
        input,
        &[
            (Number, Some("1.0"), 1),
            (Dot, None, 1),
            (Id, Some("sin"), 1),
            (RoundOpen, None, 1),
            (RoundClose, None, 1),
            (NewLine, None, 1),
            (Subtract, None, 2),
            (Number, Some("1e-3"), 2),
            (Dot, None, 2),
            (Id, Some("abs"), 2),
            (RoundOpen, None, 2),
            (RoundClose, None, 2),
            (NewLine, None, 2),
            (Number, Some("1"), 3),
            (Dot, None, 3),
            (Id, Some("min"), 3),
            (Id, Some("x"), 3),
            (NewLine, None, 3),
            (Number, Some("9"), 4),
            (Dot, None, 4),
            (Id, Some("exp"), 4),
            (RoundOpen, None, 4),
            (RoundClose, None, 4),
        ],
    );
}

#[test]
fn modify_assign() {
    let input = "\
a += 1
b -= 2
c *= 3";
    check_lexer_output(
        input,
        &[
            (Id, Some("a"), 1),
            (AddAssign, None, 1),
            (Number, Some("1"), 1),
            (NewLine, None, 1),
            (Id, Some("b"), 2),
            (SubtractAssign, None, 2),
            (Number, Some("2"), 2),
            (NewLine, None, 2),
            (Id, Some("c"), 3),
            (MultiplyAssign, None, 3),
            (Number, Some("3"), 3),
        ],
    );
}

#[test]
fn ranges() {
    let input = "\
a[..=9]
x = [i for i in 0..5]";
    check_lexer_output(
        input,
        &[
            (Id, Some("a"), 1),
            (SquareOpen, None, 1),
            (RangeInclusive, None, 1),
            (Number, Some("9"), 1),
            (SquareClose, None, 1),
            (NewLine, None, 1),
            (Id, Some("x"), 2),
            (Assign, None, 2),
            (SquareOpen, None, 2),
            (Id, Some("i"), 2),
            (For, None, 2),
            (Id, Some("i"), 2),
            (In, None, 2),
            (Number, Some("0"), 2),
            (Range, None, 2),
            (Number, Some("5"), 2),
            (SquareClose, None, 2),
        ],
    );
}

#[test]
fn function() {
    let input = "\
export f = |a, b...|
  c = a + b.size()
  c
f()";
    check_lexer_output_indented(
        input,
        &[
            (Export, None, 1, 0),
            (Id, Some("f"), 1, 0),
            (Assign, None, 1, 0),
            (Function, None, 1, 0),
            (Id, Some("a"), 1, 0),
            (Comma, None, 1, 0),
            (Id, Some("b"), 1, 0),
            (Ellipsis, None, 1, 0),
            (Function, None, 1, 0),
            (NewLine, None, 1, 0),
            (Id, Some("c"), 2, 2),
            (Assign, None, 2, 2),
            (Id, Some("a"), 2, 2),
            (Add, None, 2, 2),
            (Id, Some("b"), 2, 2),
            (Dot, None, 2, 2),
            (Id, Some("size"), 2, 2),
            (RoundOpen, None, 2, 2),
            (RoundClose, None, 2, 2),
            (NewLine, None, 2, 2),
            (Id, Some("c"), 3, 2),
            (NewLine, None, 3, 2),
            (Id, Some("f"), 4, 0),
            (RoundOpen, None, 4, 0),
            (RoundClose, None, 4, 0),
        ],
    );
}

#[test]
fn lexer_if_inline() {
    let input = "1 + if true then 0 else 1";
    check_lexer_output(
        input,
        &[
            (Number, Some("1"), 1),
            (Add, None, 1),
            (If, None, 1),
            (True, None, 1),
            (Then, None, 1),
            (Number, Some("0"), 1),
            (Else, None, 1),
            (Number, Some("1"), 1),
        ],
    );
}

#[test]
fn if_block() {
    let input = "\
if true
  0
else if false
  1
else
  0";
    check_lexer_output_indented(
        input,
        &[
            (If, None, 1, 0),
            (True, None, 1, 0),
            (NewLine, None, 1, 0),
            (Number, Some("0"), 2, 2),
            (NewLine, None, 2, 2),
            (ElseIf, None, 3, 0),
            (False, None, 3, 0),
            (NewLine, None, 3, 0),
            (Number, Some("1"), 4, 2),
            (NewLine, None, 4, 2),
            (Else, None, 5, 0),
            (NewLine, None, 5, 0),
            (Number, Some("0"), 6, 2),
        ],
    );
}

#[test]
fn map_lookup() {
    let input = "m.检验.foo[1].bär()";

    check_lexer_output(
        input,
        &[
            (Id, Some("m"), 1),
            (Dot, None, 1),
            (Id, Some("检验"), 1),
            (Dot, None, 1),
            (Id, Some("foo"), 1),
            (SquareOpen, None, 1),
            (Number, Some("1"), 1),
            (SquareClose, None, 1),
            (Dot, None, 1),
            (Id, Some("bär"), 1),
            (RoundOpen, None, 1),
            (RoundClose, None, 1),
        ],
    );
}

#[test]
fn map_lookup_with_keyword_as_key() {
    let input = "foo.and()";

    check_lexer_output(
        input,
        &[
            (Id, Some("foo"), 1),
            (Dot, None, 1),
            (Id, Some("and"), 1),
            (RoundOpen, None, 1),
            (RoundClose, None, 1),
        ],
    );
}

#[test]
fn windows_line_endings() {
    let input = "123\r\n456\r\n789";

    check_lexer_output(
        input,
        &[
            (Number, Some("123"), 1),
            (NewLine, None, 1),
            (Number, Some("456"), 2),
            (NewLine, None, 2),
            (Number, Some("789"), 3),
        ],
    );
}

#[test]
fn lookup_in_list() {
    let source = "
[foo.bar]
";
    let mut lex = KotoLexer::new(source);
    assert_eq!(lex.peek(0).unwrap().token, Token::NewLine);
    assert_eq!(lex.peek(1).unwrap().token, Token::SquareOpen);
    assert_eq!(lex.peek(2).unwrap().token, Token::Id);
    assert_eq!(lex.peek(2).unwrap().slice(source), "foo");
    assert_eq!(lex.peek(3).unwrap().token, Token::Dot);
    assert_eq!(lex.peek(4).unwrap().token, Token::Id);
    assert_eq!(lex.peek(4).unwrap().slice(source), "bar");
    assert_eq!(lex.peek(5).unwrap().token, Token::SquareClose);
    assert_eq!(lex.peek(6).unwrap().token, Token::NewLine);
    assert_eq!(lex.peek(7), None);
}

#[test]
fn multiline_lookup() {
    let source = "
x.iter()
  .skip 1
";
    let mut lex = KotoLexer::new(source);
    assert_eq!(lex.peek(0).unwrap().token, Token::NewLine);
    assert_eq!(lex.peek(1).unwrap().token, Token::Id);
    assert_eq!(lex.peek(1).unwrap().slice(source), "x");
    assert_eq!(lex.peek(2).unwrap().token, Token::Dot);
    assert_eq!(lex.peek(3).unwrap().token, Token::Id);
    assert_eq!(lex.peek(3).unwrap().slice(source), "iter");
    assert_eq!(lex.peek(4).unwrap().token, Token::RoundOpen);
    assert_eq!(lex.peek(5).unwrap().token, Token::RoundClose);
    assert_eq!(lex.peek(6).unwrap().token, Token::NewLine);
    assert_eq!(lex.peek(7).unwrap().token, Token::Whitespace);
    assert_eq!(lex.peek(8).unwrap().token, Token::Dot);
    assert_eq!(lex.peek(9).unwrap().token, Token::Id);
    assert_eq!(lex.peek(9).unwrap().slice(source), "skip");
    assert_eq!(lex.peek(10).unwrap().token, Token::Whitespace);
    assert_eq!(lex.peek(11).unwrap().token, Token::Number);
    assert_eq!(lex.peek(12).unwrap().token, Token::NewLine);
    assert_eq!(lex.peek(13), None);
}

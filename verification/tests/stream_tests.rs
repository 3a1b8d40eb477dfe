use koto_core::lexer::KotoLexer;
use koto_core::node::Node;
use koto_core::token::Token;
use koto_core::unicode::{is_id_start, is_id_continue};

// The token-range law on a concrete source: a successful lex yields byte
// ranges that tile the input, with no overlaps or gaps.
#[test]
fn token_ranges_tile_source() {
    let source = "foo 42 # note\n  'a $b' + 0x2f\n";
    let mut lex = KotoLexer::new(source);
    let mut expected_start = 0;
    while let Some(t) = lex.next() {
        assert_ne!(t.token, Token::Error);
        assert_eq!(t.source_bytes.start, expected_start);
        assert!(t.source_bytes.end >= t.source_bytes.start);
        expected_start = t.source_bytes.end;
    }
    assert_eq!(expected_start, source.len());
}

// The lookahead law on a concrete source: peek(n) reports exactly the
// token that the n+1st next() returns.
#[test]
fn peek_agrees_with_next() {
    let source = "x = [1, 2.5e-1]\nwhile x\n  'y$z'";
    let mut peeker = KotoLexer::new(source);
    let mut stepper = KotoLexer::new(source);
    let mut n = 0;
    loop {
        let peeked = peeker.peek(n).cloned();
        let stepped = stepper.next();
        assert_eq!(peeked, stepped);
        if stepped.is_none() {
            break;
        }
        n += 1;
    }
}

#[test]
fn peeking_does_not_change_the_stream() {
    let source = "a + b";
    let mut lex = KotoLexer::new(source);
    let far = lex.peek(4).cloned();
    let t0 = lex.next().unwrap();
    assert_eq!(t0.token, Token::Id);
    let mut lex2 = KotoLexer::new(source);
    for _ in 0..4 {
        lex2.next();
    }
    assert_eq!(far, lex2.next());
}

#[test]
fn bare_carriage_return_is_an_error() {
    let mut lex = KotoLexer::new("a\rb");
    assert_eq!(lex.next().unwrap().token, Token::Id);
    assert_eq!(lex.next().unwrap().token, Token::Error);
}

#[test]
fn unterminated_string_is_an_error() {
    let mut lex = KotoLexer::new("\"abc");
    assert!(matches!(lex.next().unwrap().token, Token::StringStart { .. }));
    assert_eq!(lex.next().unwrap().token, Token::Error);
}

#[test]
fn unterminated_multiline_comment_is_an_error() {
    let mut lex = KotoLexer::new("#- abc");
    let t = lex.next().unwrap();
    assert_eq!(t.token, Token::Error);
    assert_eq!(t.source_bytes, 0..6);
    assert_eq!(lex.next(), None);
}

#[test]
fn unknown_symbol_is_an_error() {
    let mut lex = KotoLexer::new(";1");
    let t = lex.next().unwrap();
    assert_eq!(t.token, Token::Error);
    assert_eq!(t.source_bytes, 0..1);
    assert_eq!(lex.next().unwrap().token, Token::Number);
    assert_eq!(lex.next(), None);
}

#[test]
fn unknown_wide_symbol_stops_the_lexer() {
    let mut lex = KotoLexer::new("€");
    assert_eq!(lex.next().unwrap().token, Token::Error);
    assert_eq!(lex.next(), None);
}

#[test]
fn empty_raw_string() {
    let mut lex = KotoLexer::new("r''");
    assert!(matches!(
        lex.next().unwrap().token,
        Token::StringStart { raw: true, .. }
    ));
    let lit = lex.next().unwrap();
    assert_eq!(lit.token, Token::StringLiteral);
    assert_eq!(lit.source_bytes, 2..2);
    assert_eq!(lex.next().unwrap().token, Token::StringEnd);
    assert_eq!(lex.next(), None);
}

// Columns advance by display width: a CJK character counts two columns.
#[test]
fn wide_characters_advance_columns() {
    let source = "检验 = 1";
    let mut lex = KotoLexer::new(source);
    let id = lex.next().unwrap();
    assert_eq!(id.token, Token::Id);
    assert_eq!(id.span.start.column, 1);
    // the first character of an identifier counts one column, the rest
    // their display width
    assert_eq!(id.span.end.column, 4);
    let ws = lex.next().unwrap();
    assert_eq!(ws.token, Token::Whitespace);
    let assign = lex.next().unwrap();
    assert_eq!(assign.token, Token::Assign);
    assert_eq!(assign.span.start.line, 1);
}

#[test]
fn else_if_with_one_space_is_one_token() {
    let mut lex = KotoLexer::new("else if x");
    assert_eq!(lex.next().unwrap().token, Token::ElseIf);
}

#[test]
fn else_with_two_spaces_before_if_is_two_tokens() {
    let mut lex = KotoLexer::new("else  if");
    assert_eq!(lex.next().unwrap().token, Token::Else);
    assert_eq!(lex.next().unwrap().token, Token::Whitespace);
    assert_eq!(lex.next().unwrap().token, Token::If);
}

#[test]
fn number_dot_identifier_is_a_lookup() {
    let mut lex = KotoLexer::new("1.e");
    let n = lex.next().unwrap();
    assert_eq!(n.token, Token::Number);
    assert_eq!(n.slice("1.e"), "1");
    assert_eq!(lex.next().unwrap().token, Token::Dot);
    assert_eq!(lex.next().unwrap().token, Token::Id);
}

#[test]
fn number_with_exponent_after_dot() {
    let mut lex = KotoLexer::new("1.e+3");
    let n = lex.next().unwrap();
    assert_eq!(n.token, Token::Number);
    assert_eq!(n.slice("1.e+3"), "1.e+3");
    assert_eq!(lex.next(), None);
}

// The identifier classification comes from the Unicode tables: these
// would fail if the classifier answered blindly.
#[test]
fn identifier_classification() {
    assert!(is_id_start('a'));
    assert!(is_id_start('ï'));
    assert!(!is_id_start('_'));
    assert!(!is_id_start('1'));
    assert!(is_id_continue('1'));
    assert!(is_id_continue('_'));
    assert!(!is_id_continue(' '));
}

#[test]
fn inline_map_braces_close_inside_template() {
    let source = "'${foo({bar: 42})}'";
    let mut lex = KotoLexer::new(source);
    let kinds: Vec<Token> = std::iter::from_fn(|| lex.next())
        .map(|t| t.token)
        .collect();
    assert!(kinds.contains(&Token::Dollar));
    assert!(kinds.contains(&Token::CurlyOpen));
    assert_eq!(kinds.last(), Some(&Token::StringEnd));
    assert!(!kinds.contains(&Token::Error));
}

#[test]
fn source_is_reported_back() {
    let source = "abc";
    let lex = KotoLexer::new(source);
    assert_eq!(lex.source(), "abc");
}

#[test]
fn cloning_snapshots_the_lexer_state() {
    let source = "a 'b$c' 1..2";
    let mut lex = KotoLexer::new(source);
    lex.next();
    lex.peek(3);
    lex.next();
    let mut copy = lex.clone();
    loop {
        let a = lex.next();
        let b = copy.next();
        assert_eq!(a, b);
        if a.is_none() {
            break;
        }
    }
}

#[test]
fn node_names() {
    assert_eq!(Node::Empty.name(), "Empty");
    assert_eq!(Node::Wildcard.name(), "Wildcard");
    assert_eq!(Node::Return(None).name(), "Return");
}

use koto_core::token::{Token, StringQuote};
use koto_core::node::{Node, MetaKeyId};
use koto_core::span::{Position, Span};

#[test]
fn whitespace_tokens() {
    assert!(Token::Whitespace.is_whitespace());
    assert!(Token::CommentSingle.is_whitespace());
    assert!(Token::CommentMulti.is_whitespace());
    assert!(!Token::NewLine.is_whitespace());
    assert!(!Token::Id.is_whitespace());
    assert!(Token::NewLine.is_whitespace_including_newline());
    assert!(Token::Whitespace.is_whitespace_including_newline());
    assert!(!Token::Number.is_whitespace_including_newline());
}

#[test]
fn quote_from_char() {
    assert_eq!(StringQuote::try_from('"'), Some(StringQuote::Double));
    assert_eq!(StringQuote::try_from('\''), Some(StringQuote::Single));
    assert_eq!(StringQuote::try_from('x'), None);
}

#[test]
fn meta_key_from_byte() {
    assert_eq!(MetaKeyId::try_from(0), Ok(MetaKeyId::Add));
    assert_eq!(MetaKeyId::try_from(9), Ok(MetaKeyId::Equal));
    assert_eq!(MetaKeyId::try_from(21), Ok(MetaKeyId::Main));
    assert_eq!(MetaKeyId::try_from(22), Ok(MetaKeyId::Named));
    assert_eq!(MetaKeyId::try_from(23), Err(23));
    assert_eq!(MetaKeyId::try_from(255), Err(255));
}

#[test]
fn node_defaults_to_empty() {
    assert_eq!(Node::default(), Node::Empty);
}

#[test]
fn positions_start_at_one() {
    let p = Position::default();
    assert_eq!((p.line, p.column), (1, 1));
    let s = Span::default();
    assert_eq!((s.start.line, s.start.column, s.end.line, s.end.column), (1, 1, 1, 1));
}

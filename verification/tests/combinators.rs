//! The parser combinators on small inputs.
use xrs::parser::compose::{kleene, optional, plus, raw};
use xrs::parser::cursor::Cursor;
use xrs::parser::helper::{map_error, omit_error};
use xrs::parser::string::{bytes, chars, lit};
use xrs::parser::Parser;
use xrs::pull::{char_, lexeme};

#[test]
fn lit_reads_prefix() {
    let (_, rest) = lit("<?xml").parse(Cursor::new("<?xml version")).unwrap();
    assert_eq!(rest.rest(), " version");
    assert_eq!(rest.offset(), 5);
    assert!(lit("<?xml").parse(Cursor::new("<xml")).is_err());
}

#[test]
fn chars_stop_at_first_refused() {
    let (s, rest) = chars(|c: char| c.is_ascii_digit()).parse(Cursor::new("123ab")).unwrap();
    assert_eq!(s, "123");
    assert_eq!(rest.rest(), "ab");
    assert!(chars(|c: char| c.is_ascii_digit()).parse(Cursor::new("123")).is_err());
    let (s, _) = chars(|c: char| c != '<').parse(Cursor::new("été<")).unwrap();
    assert_eq!(s, "été");
}

#[test]
fn bytes_stop_at_first_refused() {
    let (s, rest) = bytes(|b: u8| b != b'<').parse(Cursor::new("aé<b")).unwrap();
    assert_eq!(s, "aé");
    assert_eq!(rest.rest(), "<b");
    assert_eq!(rest.offset(), 3);
    assert!(bytes(|b: u8| b != b'<').parse(Cursor::new("abc")).is_err());
}

#[test]
fn optional_gives_none_without_moving() {
    let (v, rest) = optional(lit("a")).parse(Cursor::new("bc")).unwrap();
    assert!(v.is_none());
    assert_eq!(rest.rest(), "bc");
    let (v, rest) = optional(lit("a")).parse(Cursor::new("ac")).unwrap();
    assert!(v.is_some());
    assert_eq!(rest.rest(), "c");
}

#[test]
fn kleene_and_plus_repeat() {
    let (v, rest) = kleene(lit("ab")).parse(Cursor::new("ababa")).unwrap();
    assert_eq!(v.len(), 2);
    assert_eq!(rest.rest(), "a");
    let (v, rest) = kleene(lit("ab")).parse(Cursor::new("x")).unwrap();
    assert_eq!(v.len(), 0);
    assert_eq!(rest.rest(), "x");
    let (v, _) = plus(lit("ab")).parse(Cursor::new("abx")).unwrap();
    assert_eq!(v.len(), 1);
    assert!(plus(lit("ab")).parse(Cursor::new("x")).is_err());
}

#[test]
fn raw_gives_text_read() {
    let (s, rest) = raw(kleene(lit("ab"))).parse(Cursor::new("ababc")).unwrap();
    assert_eq!(s, "abab");
    assert_eq!(rest.rest(), "c");
    let (s, _) = lexeme(plus(char_(|c: char| c.is_ascii_digit()))).parse(Cursor::new("42;")).unwrap();
    assert_eq!(s, "42");
}

#[test]
fn map_error_and_omit_error() {
    let r = map_error(lit("a"), |_: ()| 7u32).parse(Cursor::new("b"));
    assert_eq!(r.err(), Some(7));
    let r = omit_error(lit("a")).parse(Cursor::new("a"));
    assert!(r.is_ok());
}

#[test]
fn char_reads_one_ascii_character() {
    let (_, rest) = char_(|c: char| c == 'x').parse(Cursor::new("xy")).unwrap();
    assert_eq!(rest.rest(), "y");
    assert!(char_(|c: char| c == 'x').parse(Cursor::new("y")).is_err());
    assert!(char_(|c: char| c == 'x').parse(Cursor::new("")).is_err());
}

#[test]
fn terminated_characters() {
    let p = xrs::reader::tokens::xml_terminated(|c: char| c != '<', b'"');
    let (text, rest) = p.parse(Cursor::new("abc\"def")).unwrap();
    assert_eq!(text, "abc");
    assert_eq!(rest.rest(), "\"def");
    assert_eq!(p.parse(Cursor::new("a<b\"")).unwrap_err(), xrs::events::XmlError::IllegalChar('<'));
    assert_eq!(p.parse(Cursor::new("abc")).unwrap_err(), xrs::events::XmlError::UnexpectedEof);
    assert_eq!(p.parse(Cursor::new("a<b")).unwrap_err(), xrs::events::XmlError::UnexpectedEof);
}

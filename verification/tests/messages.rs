//! Error messages and texts built from pieces.
use std::borrow::Cow;

use xrs::cow::CowStrBuilder;
use xrs::dom::error::{Error, Reason};
use xrs::events::{XmlDtdError, XmlError, XmlErrorAtom};
use xrs::messages::decimal;

#[test]
fn builder_borrows_a_single_piece() {
    let mut b = CowStrBuilder::default();
    b.push_borrow_str("");
    b.push_borrow_str("abc");
    b.push_str("");
    match b.build() {
        Cow::Borrowed(s) => assert_eq!(s, "abc"),
        Cow::Owned(_) => panic!("expected a borrowed text"),
    }
}

#[test]
fn builder_owns_joined_pieces() {
    let mut b = CowStrBuilder::default();
    b.push_borrow_str("ab");
    b.push_str("cd");
    b.push_cow(Cow::Owned("ef".to_string()));
    b.push_borrow_str("g");
    match b.build() {
        Cow::Owned(s) => assert_eq!(s, "abcdefg"),
        Cow::Borrowed(_) => panic!("expected an owned text"),
    }
}

#[test]
fn builder_takes_a_cow_as_it_is() {
    let mut b = CowStrBuilder::default();
    b.push_cow(Cow::Borrowed(""));
    b.push_cow(Cow::Owned("x".to_string()));
    assert_eq!(b.build(), Cow::<str>::Owned("x".to_string()));
}

#[test]
fn xml_error_messages() {
    assert_eq!(XmlError::UnexpectedEof.message(), "Unexpected end of file");
    assert_eq!(XmlError::IllegalChar('<').message(), "Illegal char: <");
    assert_eq!(
        XmlError::WrongETagName { expected_name: "a".to_string() }.message(),
        "Wrong end tag name, expected 'a'"
    );
    assert_eq!(
        XmlError::Expected(Box::new([XmlErrorAtom::Element, XmlErrorAtom::Comment, XmlErrorAtom::PI])).message(),
        "Expected one of: element, comment, processing instruction"
    );
    assert_eq!(XmlError::Expected(Box::new([])).message(), "Expected one of: ");
    assert_eq!(XmlError::DtdError(XmlDtdError::Unsupported).message(), "DTD error: Unsupported DTD feature");
    assert_eq!(XmlError::ExpectToken("?>").message(), "Expected token '?>'");
    assert_eq!(
        XmlError::IllegalAttributeValue("'<' not allowed").message(),
        "Illegal attribute value: '<' not allowed"
    );
    assert_eq!(XmlError::InvalidPITarget.message(), "Invalid processing instruction target 'xml'");
}

#[test]
fn atom_and_dtd_messages() {
    assert_eq!(XmlErrorAtom::XmlDecl.message(), "XML declaration");
    assert_eq!(XmlErrorAtom::Whitespace.message(), "whitespace");
    assert_eq!(XmlDtdError::SyntaxError.message(), "DTD syntax error");
}

#[test]
fn decimal_numbers() {
    assert_eq!(decimal(0), "0");
    assert_eq!(decimal(7), "7");
    assert_eq!(decimal(10), "10");
    assert_eq!(decimal(1203), "1203");
    assert_eq!(decimal(usize::MAX), usize::MAX.to_string());
}

#[test]
fn dom_error_messages() {
    assert_eq!(Error::new(0, 0, Reason::DuplicatedAttribute(17)).message(), "attribute already exists at 17");
    assert_eq!(
        Error::new(3, 1, Reason::EndEventMismatch { expected: "a".to_string(), found: "b".to_string() }).message(),
        "expected </a> but got </b>"
    );
    assert_eq!(
        Error::new(0, 0, Reason::UnexpectedToken("a\"b".to_string())).message(),
        "unexpected token: \"a\\\"b\""
    );
    assert_eq!(Error::new(0, 0, Reason::UnexpectedEof).message(), "unexpected end of file");
    let io = Error::new(0, 0, Reason::Io(std::io::Error::new(std::io::ErrorKind::Other, "gone"))).message();
    assert!(io.starts_with("I/O error: "));
}

#[test]
fn debug_text_writes_the_variant() {
    let errors = vec![
        XmlError::UnexpectedEof,
        XmlError::IllegalChar('<'),
        XmlError::IllegalChar('\n'),
        XmlError::IllegalChar('\''),
        XmlError::WrongETagName { expected_name: "a\"b".to_string() },
        XmlError::Expected(vec![XmlErrorAtom::Element, XmlErrorAtom::Comment].into_boxed_slice()),
        XmlError::Expected(Vec::new().into_boxed_slice()),
        XmlError::DtdError(XmlDtdError::Unsupported),
        XmlError::ExpectToken("?>"),
        XmlError::UnknownEntity("nbsp".to_string()),
    ];
    for e in errors {
        assert_eq!(e.debug_text(), format!("{:?}", e));
    }
    assert_eq!(XmlError::IllegalChar('<').debug_text(), "IllegalChar('<')");
    assert_eq!(
        XmlError::WrongETagName { expected_name: "a".to_string() }.debug_text(),
        "WrongETagName { expected_name: \"a\" }"
    );
    assert_eq!(
        XmlError::Expected(vec![XmlErrorAtom::Element, XmlErrorAtom::Comment].into_boxed_slice()).debug_text(),
        "Expected([Element, Comment])"
    );
}

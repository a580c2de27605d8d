//! The value reader: events as values are read from them, texts of values, and errors.
use std::borrow::Cow;

use xrs::de::error::{Error, Reason};
use xrs::de::text::{attribute_bool, bool_text, create_attr_key, trim_xml_whitespace, CowStrExt, StrExt};
use xrs::de::Deserializer;
use xrs::events::{XmlError, XmlEvent};

#[test]
fn next_passes_over_declarations_and_comments() {
    let mut root = Deserializer::from_str("<?xml version=\"1.0\"?><!-- c --><a>t<?pi x?></a>");
    let de = &mut root.de;
    assert_eq!(de.next().unwrap(), XmlEvent::stag("a", false));
    assert_eq!(de.next().unwrap(), XmlEvent::characters("t"));
    assert_eq!(de.next().unwrap(), XmlEvent::etag("a"));
    let err = de.next().unwrap_err();
    assert!(matches!(err.reason(), Reason::Eof));
    assert_eq!(err.offset(), 0);
}

#[test]
fn peek_keeps_the_event() {
    let mut root = Deserializer::from_str("<a/>");
    let de = &mut root.de;
    assert_eq!(de.peek().unwrap(), &XmlEvent::stag("a", true));
    assert_eq!(de.peek().unwrap(), &XmlEvent::stag("a", true));
    assert_eq!(de.next().unwrap(), XmlEvent::stag("a", true));
    assert_eq!(de.next().unwrap(), XmlEvent::etag("a"));
}

#[test]
fn text_up_to_the_end_tag() {
    let mut root = Deserializer::from_str("<a> one &amp; two </a>");
    let de = &mut root.de;
    assert_eq!(de.next().unwrap(), XmlEvent::stag("a", false));
    assert_eq!(de.next_text().unwrap(), " one & two ");
    let mut root = Deserializer::from_str("<a> one &amp; two </a>");
    let de = &mut root.de;
    de.next().unwrap();
    assert_eq!(de.next_trimmed_text().unwrap(), "one & two");
    let mut root = Deserializer::from_str("<a>x<b/></a>");
    let de = &mut root.de;
    de.next().unwrap();
    assert!(matches!(de.next_text().unwrap_err().reason(), Reason::NoMarkupExpected));
}

#[test]
fn maybe_start_passes_over_white_space() {
    let mut root = Deserializer::from_str("<a>\n  <b/> </a>");
    let de = &mut root.de;
    de.next().unwrap();
    let tag = de.next_maybe_start().unwrap().unwrap();
    assert_eq!(tag.name, "b");
    // the end of the empty element, then the end of the outer one
    assert!(de.next_maybe_start().unwrap().is_none());
    assert!(de.next_maybe_start().unwrap().is_none());
    let mut root = Deserializer::from_str("<a>text</a>");
    let de = &mut root.de;
    de.next().unwrap();
    let err = de.next_maybe_start().unwrap_err();
    assert!(matches!(err.reason(), Reason::MarkupExpected));
    assert_eq!(err.offset(), 7);
}

#[test]
fn read_to_end_and_expect_end() {
    let mut root = Deserializer::from_str("<r><a><b>x</b></a></r><!-- after -->");
    let de = &mut root.de;
    de.next().unwrap();
    de.next().unwrap();
    de.read_to_end().unwrap();
    assert!(matches!(de.next().unwrap_err().reason(), Reason::Eof));

    let mut root = Deserializer::from_str("<a><b/></a>");
    let de = &mut root.de;
    de.next().unwrap();
    assert!(matches!(de.expect_end().unwrap_err().reason(), Reason::End));
    let mut root = Deserializer::from_str("<a></a>");
    let de = &mut root.de;
    de.next().unwrap();
    assert!(de.expect_end().is_ok());
}

#[test]
fn skip_white_space_keeps_the_next_event() {
    let mut root = Deserializer::from_str("<a>  <b/></a>");
    let de = &mut root.de;
    de.next().unwrap();
    de.skip_ignorable_and_whitespace().unwrap();
    assert_eq!(de.next().unwrap(), XmlEvent::stag("b", true));
}

#[test]
fn reader_errors_come_through() {
    let mut root = Deserializer::from_str("<a></b>");
    let de = &mut root.de;
    de.next().unwrap();
    let err = de.next().unwrap_err();
    assert!(matches!(err.reason(), Reason::Xml(XmlError::WrongETagName { .. })));
    assert!(matches!(root.root_struct_error().reason(), Reason::RootStruct));
}

#[test]
fn attributes_and_top_name() {
    let mut root = Deserializer::from_str("<item name=\"hello\" source=\"world.rs\"/>");
    let de = &mut root.de;
    de.next().unwrap();
    assert_eq!(de.top_name(), Some("item"));
    let attrs = de.drain_attributes();
    assert_eq!(attrs.len(), 2);
    assert_eq!(attrs[0].value(), "hello");
    assert!(de.drain_attributes().is_empty());
}

#[test]
fn texts_of_values() {
    assert_eq!(bool_text("yes"), Some(true));
    assert_eq!(bool_text("off"), Some(false));
    assert_eq!(bool_text("True"), None);
    assert_eq!(attribute_bool("1"), Some(true));
    assert_eq!(attribute_bool("no"), None);
    assert_eq!(create_attr_key("name"), "@name");
    assert_eq!(trim_xml_whitespace(" \t a b \r\n"), "a b");
    assert_eq!(trim_xml_whitespace("   "), "");
    assert!("\t \n".is_xml_whitespace());
    assert!(!" x ".is_xml_whitespace());
    let mut c: Cow<str> = Cow::Borrowed("ab");
    c.push_str("cd");
    assert_eq!(c, "abcd");
    let mut c: Cow<str> = Cow::Owned("  x  ".to_string());
    c.trim_xml_whitespace();
    assert_eq!(c, "x");
}

#[test]
fn error_messages() {
    assert_eq!(Error::new(Reason::Eof, 0).message(), "Unexpected end of file");
    assert_eq!(Error::new(Reason::Tag("item"), 12).message(), "Expecting start tag <item ...> at offset 12");
    let e = Error::new(Reason::InvalidBoolean("maybe".to_string()), 0)
        .with_hint(3, "in <flag>".to_string())
        .with_hint(5, "in <root>".to_string());
    assert_eq!(e.message(), "Invalid boolean value 'maybe' (in <flag>, in <root>)");
    let e = e.with_position(9);
    assert_eq!(e.offset(), 9);
    let int = "x".parse::<i32>().unwrap_err();
    let m = Error::new(Reason::Int(int), 0).message();
    assert!(m.starts_with("Invalid integer: "));
    assert_eq!(
        Error::from_xml(XmlError::Io("gone".to_string())).message(),
        "I/O error: gone"
    );
    assert_eq!(Error::from_xml(XmlError::UnexpectedEof).message(), "XML syntax error: UnexpectedEof");
    assert_eq!(
        Error::from_xml(XmlError::UnknownEntity("x".to_string())).message(),
        "XML syntax error: UnknownEntity(\"x\")"
    );
}

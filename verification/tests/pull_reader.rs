//! The small pull reader of elements, attributes and the XML declaration.
use xrs::events::{Attribute, XmlError, XmlEvent};
use xrs::pull::Reader;
use xrs::reader::entities::Entities;

fn empty_array<T>() -> &'static [T] {
    &[]
}

#[test]
fn reader_single_element() {
    let mut reader = Reader::new("<elem></elem>");
    assert_eq!(Ok(Some(XmlEvent::stag("elem", false))), reader.next());
    assert_eq!(Ok(Some(XmlEvent::etag("elem"))), reader.next());
    assert_eq!(Ok(None), reader.next());
}

#[test]
fn reader_single_element_whitespace() {
    let mut reader = Reader::new("<elem  ></elem   >");
    assert_eq!(Ok(Some(XmlEvent::stag("elem", false))), reader.next());
    assert_eq!(empty_array::<Attribute>(), reader.attributes());
    assert_eq!(Ok(Some(XmlEvent::etag("elem"))), reader.next());
    assert_eq!(Ok(None), reader.next());
}

#[test]
fn reader_empty_element() {
    let mut reader = Reader::new("<elem/>");
    assert_eq!(Ok(Some(XmlEvent::stag("elem", true))), reader.next());
    assert_eq!(empty_array::<Attribute>(), reader.attributes());
    assert_eq!(Ok(None), reader.next());
}

#[test]
fn reader_attribute() {
    let mut reader = Reader::new("<elem attr=\"value\"/>");
    assert_eq!(Ok(Some(XmlEvent::stag("elem", true))), reader.next());
    assert_eq!(&[Attribute::new("attr", "value")], reader.attributes());
    assert_eq!(Ok(None), reader.next());
}

#[test]
fn reader_attribute_whitespace() {
    let mut reader = Reader::new("<elem \t \n \r attr  =  \"value\"  />");
    assert_eq!(Ok(Some(XmlEvent::stag("elem", true))), reader.next());
    assert_eq!(&[Attribute::new("attr", "value")], reader.attributes());
    assert_eq!(Ok(None), reader.next());
}

#[test]
fn reader_single_quote_attribute() {
    let mut reader = Reader::new("<elem attr='value'/>");
    assert_eq!(Ok(Some(XmlEvent::stag("elem", true))), reader.next());
    assert_eq!(&[Attribute::new("attr", "value")], reader.attributes());
    assert_eq!(Ok(None), reader.next());
}

#[test]
fn reader_single_quote_attribute_whitespace() {
    let mut reader = Reader::new("<elem attr  =  'value'  />");
    assert_eq!(Ok(Some(XmlEvent::stag("elem", true))), reader.next());
    assert_eq!(&[Attribute::new("attr", "value")], reader.attributes());
    assert_eq!(Ok(None), reader.next());
}

#[test]
fn reader_multiple_attributes() {
    let mut reader = Reader::new("<e a='v' b='w' />");
    assert_eq!(Ok(Some(XmlEvent::stag("e", true))), reader.next());
    assert_eq!(
        &[Attribute::new("a", "v"), Attribute::new("b", "w")],
        reader.attributes()
    );
    assert_eq!(Ok(None), reader.next());
}

#[test]
fn reader_attribute_duplicate() {
    let mut reader = Reader::new("<e a='' a='' />");
    assert_eq!(Err(XmlError::NonUniqueAttribute {
            attribute: "a".to_string()
        }), reader.next());
}

#[test]
fn reader_only_one_top_level_element() {
    let mut reader = Reader::new("<e></e><e/>");
    assert_eq!(Ok(Some(XmlEvent::stag("e", false))), reader.next());
    assert_eq!(Ok(Some(XmlEvent::etag("e"))), reader.next());
    assert_eq!(Err(XmlError::ExpectedDocumentEnd), reader.next());
}

#[test]
fn reader_fail_on_open_etag() {
    let mut reader = Reader::new("<e></e></e>");
    assert_eq!(Ok(Some(XmlEvent::stag("e", false))), reader.next());
    assert_eq!(Ok(Some(XmlEvent::etag("e"))), reader.next());
    assert_eq!(Err(XmlError::ExpectedDocumentEnd), reader.next());
}

#[test]
fn reader_only_one_top_level_element_empty() {
    let mut reader = Reader::new("<e/><e/>");
    assert_eq!(Ok(Some(XmlEvent::stag("e", true))), reader.next());
    assert_eq!(Err(XmlError::ExpectedDocumentEnd), reader.next());
}

#[test]
fn reader_accept_whitespace_after_root() {
    let mut reader = Reader::new("<e/> \r\t\n");
    assert_eq!(Ok(Some(XmlEvent::stag("e", true))), reader.next());
    assert_eq!(Ok(None), reader.next());
}

#[test]
fn fail_on_open_stag() {
    let mut reader = Reader::new("<e>");
    assert_eq!(Ok(Some(XmlEvent::stag("e", false))), reader.next());
    assert_eq!(Err(XmlError::OpenElementAtEof), reader.next());
}

#[test]
fn reader_parse_minimal_decl() {
    let mut reader = Reader::new("<?xml version='1.0' ?><e/>");
    assert_eq!(Ok(Some(XmlEvent::decl("1.0", None, None))), reader.next());
    assert_eq!(Ok(Some(XmlEvent::stag("e", true))), reader.next());
    assert_eq!(Ok(None), reader.next());
}

#[test]
fn reader_parse_full_decl() {
    let mut reader =
        Reader::new("<?xml version='1.0' encoding='UTF-8' standalone='yes' ?><e/>");
    assert_eq!(Ok(Some(XmlEvent::decl("1.0", Some("UTF-8"), Some(true)))), reader.next());
    assert_eq!(Ok(Some(XmlEvent::stag("e", true))), reader.next());
    assert_eq!(Ok(None), reader.next());
}

#[test]
fn reader_parse_decl_double_qoute() {
    let mut reader =
        Reader::new("<?xml version=\"1.0\" encoding=\"UTF-8\" standalone=\"yes\" ?><e/>");
    assert_eq!(Ok(Some(XmlEvent::decl("1.0", Some("UTF-8"), Some(true)))), reader.next());
    assert_eq!(Ok(Some(XmlEvent::stag("e", true))), reader.next());
    assert_eq!(Ok(None), reader.next());
}

#[test]
fn reader_parse_decl_whitespace() {
    let mut reader =
        Reader::new("<?xml version =\t'1.0' encoding\n = \r'UTF-8' standalone =  'yes'?><e/>");
    assert_eq!(Ok(Some(XmlEvent::decl("1.0", Some("UTF-8"), Some(true)))), reader.next());
    assert_eq!(Ok(Some(XmlEvent::stag("e", true))), reader.next());
    assert_eq!(Ok(None), reader.next());
}

#[test]
fn pull_expected_name() {
    let mut reader = Reader::new("<1/>");
    assert_eq!(Err(XmlError::ExpectedName), reader.next());
}

#[test]
fn pull_name_at_end() {
    let mut reader = Reader::new("<elem");
    assert_eq!(Err(XmlError::ExpectedElementEnd), reader.next());
}

#[test]
fn pull_lone_open_bracket() {
    let mut reader = Reader::new("  <");
    assert_eq!(Err(XmlError::ExpectedElementStart), reader.next());
}

#[test]
fn pull_unsupported_encoding() {
    let mut reader = Reader::new("<?xml version='1.0' encoding='latin1'?><e/>");
    assert_eq!(
        Err(XmlError::UnsupportedEncoding("latin1".to_string())),
        reader.next()
    );
}

#[test]
fn pull_nested_elements() {
    let mut reader = Reader::new("<a><b x='1'/></a>");
    assert!(reader.is_prolog());
    assert_eq!(Ok(Some(XmlEvent::stag("a", false))), reader.next());
    assert!(!reader.is_prolog());
    assert_eq!(Ok(Some(XmlEvent::stag("b", true))), reader.next());
    assert_eq!(&[Attribute::new("x", "1")], reader.attributes());
    assert_eq!(Ok(Some(XmlEvent::etag("a"))), reader.next());
    assert_eq!(empty_array::<Attribute>(), reader.attributes());
    assert_eq!(Ok(None), reader.next());
}

#[test]
fn pull_missing_equals() {
    let mut reader = Reader::new("<e a 'v'/>");
    assert_eq!(Err(XmlError::ExpectToken("=")), reader.next());
}

#[test]
fn registered_entities_are_internal() {
    let mut entities = Entities::default();
    entities.register("x", "y");
    let e = entities.get_ref("x").unwrap();
    assert_eq!(e.text_str(), "y");
    assert!(!e.external());
    entities.register("lt", "<<");
    let lt = entities.get_rc("lt").unwrap();
    assert_eq!(lt.text_str(), "<<");
    assert!(!lt.external());
    assert_eq!(entities.get_ref("gt").unwrap().text_str(), "&#62;");
    assert!(entities.get_ref("nope").is_none());
}

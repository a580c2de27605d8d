//! The pull reader and the simple parser on the same documents.
use std::borrow::Cow;

use xrs::events::{Attribute, XmlDecl, XmlError, XmlErrorAtom, XmlEvent};
use xrs::reader::Reader;
use xrs::simple::{AttributeAccess, CowVisitor, SimpleXmlParser, SimpleXmlVisitor};

#[test]
fn mod_single_element() {
    {
        let mut reader = Reader::new("<elem></elem>");
        assert_eq!(Ok(Some(XmlEvent::stag("elem", false))), reader.next());
        assert_eq!(Ok(Some(XmlEvent::etag("elem"))), reader.next());
        assert_eq!(Ok(None), reader.next());
    }
    {
        let mut parser = SimpleXmlParser::from_str("<elem></elem>");
        assert_eq!(Ok(Some(Event::Start("elem", vec![]))), parser.parse_next(EventVisitor));
        assert_eq!(Ok(Some(Event::End("elem"))), parser.parse_next(EventVisitor));
        assert_eq!(Ok(None), parser.parse_next(EventVisitor));
    }
}

#[test]
fn mod_single_element_whitespace() {
    {
        let mut reader = Reader::new("<elem  ></elem   >");
        assert_eq!(Ok(Some(XmlEvent::stag("elem", false))), reader.next());
        assert_eq!(empty_array::<Attribute>(), reader.attributes());
        assert_eq!(Ok(Some(XmlEvent::etag("elem"))), reader.next());
        assert_eq!(Ok(None), reader.next());
    }
    {
        let mut parser = SimpleXmlParser::from_str("<elem  ></elem   >");
        assert_eq!(Ok(Some(Event::Start("elem", vec![]))), parser.parse_next(EventVisitor));
        assert_eq!(Ok(Some(Event::End("elem"))), parser.parse_next(EventVisitor));
        assert_eq!(Ok(None), parser.parse_next(EventVisitor));
    }
}

#[test]
fn mod_empty_element() {
    {
        let mut reader = Reader::new("<elem/>");
        assert_eq!(Ok(Some(XmlEvent::stag("elem", true))), reader.next());
        assert_eq!(Ok(Some(XmlEvent::etag("elem"))), reader.next());
        assert_eq!(empty_array::<Attribute>(), reader.attributes());
        assert_eq!(Ok(None), reader.next());
    }
    {
        let mut parser = SimpleXmlParser::from_str("<elem/>");
        assert_eq!(Ok(Some(Event::Start("elem", vec![]))), parser.parse_next(EventVisitor));
        assert_eq!(Ok(Some(Event::End("elem"))), parser.parse_next(EventVisitor));
        assert_eq!(Ok(None), parser.parse_next(EventVisitor));
    }
}

#[test]
fn mod_attribute() {
    {
        let mut reader = Reader::new("<elem attr=\"value\"/>");
        assert_eq!(Ok(Some(XmlEvent::stag("elem", true))), reader.next());
        assert_eq!(&[Attribute::new("attr", "value")], reader.attributes());
        assert_eq!(Ok(Some(XmlEvent::etag("elem"))), reader.next());
        assert_eq!(Ok(None), reader.next());
    }
    {
        let mut parser = SimpleXmlParser::from_str("<elem attr=\"value\"/>");
        assert_eq!(Ok(Some(Event::Start(
                "elem",
                vec![("attr".into(), "value".into())]
            ))), parser.parse_next(EventVisitor));
        assert_eq!(Ok(Some(Event::End("elem"))), parser.parse_next(EventVisitor));
        assert_eq!(Ok(None), parser.parse_next(EventVisitor));
    }
}

#[test]
fn mod_attribute_whitespace() {
    {
        let mut reader = Reader::new("<elem \t \n \r attr  =  \"value\"  />");
        assert_eq!(Ok(Some(XmlEvent::stag("elem", true))), reader.next());
        assert_eq!(&[Attribute::new("attr", "value")], reader.attributes());
        assert_eq!(Ok(Some(XmlEvent::etag("elem"))), reader.next());
        assert_eq!(Ok(None), reader.next());
    }
    {
        let mut parser = SimpleXmlParser::from_str("<elem \t \n \r attr  =  \"value\"  />");
        assert_eq!(Ok(Some(Event::Start(
                "elem",
                vec![("attr".into(), "value".into())]
            ))), parser.parse_next(EventVisitor));
        assert_eq!(Ok(Some(Event::End("elem"))), parser.parse_next(EventVisitor));
        assert_eq!(Ok(None), parser.parse_next(EventVisitor));
    }
}

#[test]
fn mod_single_quote_attribute() {
    {
        let mut reader = Reader::new("<elem attr='value'/>");
        assert_eq!(Ok(Some(XmlEvent::stag("elem", true))), reader.next());
        assert_eq!(&[Attribute::new("attr", "value")], reader.attributes());
        assert_eq!(Ok(Some(XmlEvent::etag("elem"))), reader.next());
        assert_eq!(Ok(None), reader.next());
    }
    {
        let mut parser = SimpleXmlParser::from_str("<elem attr='value'/>");
        assert_eq!(Ok(Some(Event::Start(
                "elem",
                vec![("attr".into(), "value".into())]
            ))), parser.parse_next(EventVisitor));
        assert_eq!(Ok(Some(Event::End("elem"))), parser.parse_next(EventVisitor));
        assert_eq!(Ok(None), parser.parse_next(EventVisitor));
    }
}

#[test]
fn mod_single_quote_attribute_whitespace() {
    {
        let mut reader = Reader::new("<elem attr  =  'value'  />");
        assert_eq!(Ok(Some(XmlEvent::stag("elem", true))), reader.next());
        assert_eq!(&[Attribute::new("attr", "value")], reader.attributes());
        assert_eq!(Ok(Some(XmlEvent::etag("elem"))), reader.next());
        assert_eq!(Ok(None), reader.next());
    }
    {
        let mut parser = SimpleXmlParser::from_str("<elem attr  =  'value'  />");
        assert_eq!(Ok(Some(Event::Start(
                "elem",
                vec![("attr".into(), "value".into())]
            ))), parser.parse_next(EventVisitor));
        assert_eq!(Ok(Some(Event::End("elem"))), parser.parse_next(EventVisitor));
        assert_eq!(Ok(None), parser.parse_next(EventVisitor));
    }
}

#[test]
fn mod_multiple_attributes() {
    {
        let mut reader = Reader::new("<e a='v' b='w' />");
        assert_eq!(Ok(Some(XmlEvent::stag("e", true))), reader.next());
        assert_eq!(
            &[Attribute::new("a", "v"), Attribute::new("b", "w")],
            reader.attributes()
        );
        assert_eq!(Ok(Some(XmlEvent::etag("e"))), reader.next());
        assert_eq!(Ok(None), reader.next());
    }
    {
        let mut parser = SimpleXmlParser::from_str("<e a='v' b='w' />");
        assert_eq!(Ok(Some(Event::Start(
                "e",
                vec![("a".into(), "v".into()), ("b".into(), "w".into())]
            ))), parser.parse_next(EventVisitor));
        assert_eq!(Ok(Some(Event::End("e"))), parser.parse_next(EventVisitor));
        assert_eq!(Ok(None), parser.parse_next(EventVisitor));
    }
}

#[test]
fn mod_attribute_duplicate() {
    {
        let mut reader = Reader::new("<e a='' a='' />");
        assert_eq!(Err(XmlError::NonUniqueAttribute {
                attribute: "a".to_string()
            }), reader.next());
    }
    {
        let mut parser = SimpleXmlParser::from_str("<e a='' a='' />");
        assert_eq!(Err(XmlError::NonUniqueAttribute {
                attribute: "a".to_string()
            }), parser.parse_next(EventVisitor));
    }
}

#[test]
fn mod_fail_on_missing_etag() {
    {
        let mut reader = Reader::new("<e>");
        assert_eq!(Ok(Some(XmlEvent::stag("e", false))), reader.next());
        assert_eq!(Err(XmlError::OpenElementAtEof), reader.next());
    }
    {
        let mut parser = SimpleXmlParser::from_str("<e>");
        assert_eq!(Ok(Some(Event::Start("e", vec![]))), parser.parse_next(EventVisitor));
        assert_eq!(Err(XmlError::OpenElementAtEof), parser.parse_next(EventVisitor));
    }
}

#[test]
fn mod_fail_on_open_etag() {
    {
        let mut reader = Reader::new("<e></e></e>");
        assert_eq!(Ok(Some(XmlEvent::stag("e", false))), reader.next());
        assert_eq!(Ok(Some(XmlEvent::etag("e"))), reader.next());
        assert_eq!(Err(XmlError::ExpectedDocumentEnd), reader.next());
    }
    {
        let mut parser = SimpleXmlParser::from_str("<e></e></e>");
        assert_eq!(Ok(Some(Event::Start("e", vec![]))), parser.parse_next(EventVisitor));
        assert_eq!(Ok(Some(Event::End("e"))), parser.parse_next(EventVisitor));
        assert_eq!(Err(XmlError::Expected(Box::new([
                XmlErrorAtom::Comment,
                XmlErrorAtom::PI
            ]))), parser.parse_next(EventVisitor));
    }
}

#[test]
fn mod_fail_on_wrong_etag() {
    {
        let mut reader = Reader::new("<e></d>");
        assert_eq!(Ok(Some(XmlEvent::stag("e", false))), reader.next());
        assert_eq!(Err(XmlError::WrongETagName {
                expected_name: "e".to_string(),
            }), reader.next());
    }
    {
        let mut parser = SimpleXmlParser::from_str("<e></d>");
        assert_eq!(Ok(Some(Event::Start("e", vec![]))), parser.parse_next(EventVisitor));
        assert_eq!(Err(XmlError::WrongETagName {
                expected_name: "e".to_string(),
            }), parser.parse_next(EventVisitor));
    }
}

#[test]
fn mod_fail_on_wrong_etag_in_depth_graph() {
    {
        let mut reader = Reader::new("<a><e><e></e><e/></d></a>");
        assert_eq!(Ok(Some(XmlEvent::stag("a", false))), reader.next());
        assert_eq!(Ok(Some(XmlEvent::stag("e", false))), reader.next());
        assert_eq!(Ok(Some(XmlEvent::stag("e", false))), reader.next());
        assert_eq!(Ok(Some(XmlEvent::etag("e"))), reader.next());
        assert_eq!(Ok(Some(XmlEvent::stag("e", true))), reader.next());
        assert_eq!(Ok(Some(XmlEvent::etag("e"))), reader.next());
        assert_eq!(Err(XmlError::WrongETagName {
                expected_name: "e".to_string(),
            }), reader.next());
    }
    {
        let mut parser = SimpleXmlParser::from_str("<a><e><e></e><e/></d></a>");
        assert_eq!(Ok(Some(Event::Start("a", vec![]))), parser.parse_next(EventVisitor));
        assert_eq!(Ok(Some(Event::Start("e", vec![]))), parser.parse_next(EventVisitor));
        assert_eq!(Ok(Some(Event::Start("e", vec![]))), parser.parse_next(EventVisitor));
        assert_eq!(Ok(Some(Event::End("e"))), parser.parse_next(EventVisitor));
        assert_eq!(Ok(Some(Event::Start("e", vec![]))), parser.parse_next(EventVisitor));
        assert_eq!(Ok(Some(Event::End("e"))), parser.parse_next(EventVisitor));
        assert_eq!(Err(XmlError::WrongETagName {
                expected_name: "e".to_string(),
            }), parser.parse_next(EventVisitor));
    }
}

#[test]
fn mod_only_one_top_level_element_empty() {
    {
        let mut reader = Reader::new("<e/><e/>");
        assert_eq!(Ok(Some(XmlEvent::stag("e", true))), reader.next());
        assert_eq!(Ok(Some(XmlEvent::etag("e"))), reader.next());
        assert_eq!(Err(XmlError::ExpectedDocumentEnd), reader.next());
    }
    {
        let mut parser = SimpleXmlParser::from_str("<e/><e/>");
        assert_eq!(Ok(Some(Event::Start("e", vec![]))), parser.parse_next(EventVisitor));
        assert_eq!(Ok(Some(Event::End("e"))), parser.parse_next(EventVisitor));
        assert_eq!(Err(XmlError::Expected(Box::new([
                XmlErrorAtom::Comment,
                XmlErrorAtom::PI
            ]))), parser.parse_next(EventVisitor));
    }
}

#[test]
fn mod_accept_whitespace_after_root() {
    {
        let mut reader = Reader::new("<e/> \r\t\n");
        assert_eq!(Ok(Some(XmlEvent::stag("e", true))), reader.next());
        assert_eq!(Ok(Some(XmlEvent::etag("e"))), reader.next());
        assert_eq!(Ok(None), reader.next());
    }
    {
        let mut parser = SimpleXmlParser::from_str("<e/> \r\t\n");
        assert_eq!(Ok(Some(Event::Start("e", vec![]))), parser.parse_next(EventVisitor));
        assert_eq!(Ok(Some(Event::End("e"))), parser.parse_next(EventVisitor));
        assert_eq!(Ok(None), parser.parse_next(EventVisitor));
    }
}

#[test]
fn mod_only_one_top_level_element() {
    {
        let mut reader = Reader::new("<e></e><e/>");
        assert_eq!(Ok(Some(XmlEvent::stag("e", false))), reader.next());
        assert_eq!(Ok(Some(XmlEvent::etag("e"))), reader.next());
        assert_eq!(Err(XmlError::ExpectedDocumentEnd), reader.next());
    }
    {
        let mut parser = SimpleXmlParser::from_str("<e></e><e/>");
        assert_eq!(Ok(Some(Event::Start("e", vec![]))), parser.parse_next(EventVisitor));
        assert_eq!(Ok(Some(Event::End("e"))), parser.parse_next(EventVisitor));
        assert_eq!(Err(XmlError::Expected(Box::new([
                XmlErrorAtom::Comment,
                XmlErrorAtom::PI
            ]))), parser.parse_next(EventVisitor));
    }
}

#[test]
fn mod_parse_minimal_decl() {
    {
        let mut reader = Reader::new("<?xml version='1.0' ?><e/>");
        assert_eq!(Ok(Some(XmlEvent::decl("1.0", None, None))), reader.next());
        assert_eq!(Ok(Some(XmlEvent::stag("e", true))), reader.next());
        assert_eq!(Ok(Some(XmlEvent::etag("e"))), reader.next());
        assert_eq!(Ok(None), reader.next());
    }
    {
        let mut parser = SimpleXmlParser::from_str("<?xml version='1.0' ?><e/>");
        assert_eq!(Ok(Some(Event::decl("1.0", None, None))), parser.parse_next(EventVisitor));
        assert_eq!(Ok(Some(Event::Start("e", vec![]))), parser.parse_next(EventVisitor));
        assert_eq!(Ok(Some(Event::End("e"))), parser.parse_next(EventVisitor));
        assert_eq!(Ok(None), parser.parse_next(EventVisitor));
    }
}

#[test]
fn mod_parse_full_decl() {
    {
        let mut reader =
            Reader::new("<?xml version='1.0' encoding='UTF-8' standalone='yes' ?><e/>");
        assert_eq!(Ok(Some(XmlEvent::decl("1.0", Some("UTF-8"), Some(true)))), reader.next());
        assert_eq!(Ok(Some(XmlEvent::stag("e", true))), reader.next());
        assert_eq!(Ok(Some(XmlEvent::etag("e"))), reader.next());
        assert_eq!(Ok(None), reader.next());
    }
    {
        let mut parser = SimpleXmlParser::from_str(
            "<?xml version='1.0' encoding='UTF-8' standalone='yes' ?><e/>",
        );
        assert_eq!(Ok(Some(Event::decl("1.0", Some("UTF-8"), Some(true)))), parser.parse_next(EventVisitor));
        assert_eq!(Ok(Some(Event::Start("e", vec![]))), parser.parse_next(EventVisitor));
        assert_eq!(Ok(Some(Event::End("e"))), parser.parse_next(EventVisitor));
        assert_eq!(Ok(None), parser.parse_next(EventVisitor));
    }
}

#[test]
fn mod_parse_decl_double_qoute() {
    {
        let mut reader =
            Reader::new("<?xml version=\"1.0\" encoding=\"UTF-8\" standalone=\"yes\" ?><e/>");
        assert_eq!(Ok(Some(XmlEvent::decl("1.0", Some("UTF-8"), Some(true)))), reader.next());
        assert_eq!(Ok(Some(XmlEvent::stag("e", true))), reader.next());
        assert_eq!(Ok(Some(XmlEvent::etag("e"))), reader.next());
        assert_eq!(Ok(None), reader.next());
    }
    {
        let mut parser = SimpleXmlParser::from_str(
            "<?xml version=\"1.0\" encoding=\"UTF-8\" standalone=\"yes\" ?><e/>",
        );
        assert_eq!(Ok(Some(Event::decl("1.0", Some("UTF-8"), Some(true)))), parser.parse_next(EventVisitor));
        assert_eq!(Ok(Some(Event::Start("e", vec![]))), parser.parse_next(EventVisitor));
        assert_eq!(Ok(Some(Event::End("e"))), parser.parse_next(EventVisitor));
        assert_eq!(Ok(None), parser.parse_next(EventVisitor));
    }
}

#[test]
fn mod_parse_decl_whitespace() {
    {
        let mut reader = Reader::new(
            "<?xml version =\t'1.0' encoding\n = \r'UTF-8' standalone =  'yes'?><e/>",
        );
        assert_eq!(Ok(Some(XmlEvent::decl("1.0", Some("UTF-8"), Some(true)))), reader.next());
        assert_eq!(Ok(Some(XmlEvent::stag("e", true))), reader.next());
        assert_eq!(Ok(Some(XmlEvent::etag("e"))), reader.next());
        assert_eq!(Ok(None), reader.next());
    }
    {
        let mut parser = SimpleXmlParser::from_str(
            "<?xml version =\t'1.0' encoding\n = \r'UTF-8' standalone =  'yes'?><e/>",
        );
        assert_eq!(Ok(Some(Event::decl("1.0", Some("UTF-8"), Some(true)))), parser.parse_next(EventVisitor));
        assert_eq!(Ok(Some(Event::Start("e", vec![]))), parser.parse_next(EventVisitor));
        assert_eq!(Ok(Some(Event::End("e"))), parser.parse_next(EventVisitor));
        assert_eq!(Ok(None), parser.parse_next(EventVisitor));
    }
}

#[test]
fn mod_parse_chars() {
    {
        let mut reader = Reader::new("<e>abc</e>");
        assert_eq!(Ok(Some(XmlEvent::stag("e", false))), reader.next());
        assert_eq!(Ok(Some(XmlEvent::characters("abc"))), reader.next());
        assert_eq!(Ok(Some(XmlEvent::etag("e"))), reader.next());
        assert_eq!(Ok(None), reader.next());
    }
    {
        let mut parser = SimpleXmlParser::from_str("<e>abc</e>");
        assert_eq!(Ok(Some(Event::Start("e", vec![]))), parser.parse_next(EventVisitor));
        assert_eq!(Ok(Some(Event::Chars("abc".into()))), parser.parse_next(EventVisitor));
        assert_eq!(Ok(Some(Event::End("e"))), parser.parse_next(EventVisitor));
        assert_eq!(Ok(None), parser.parse_next(EventVisitor));
    }
}

#[test]
fn mod_fail_on_chars_in_prolog() {
    {
        let mut reader = Reader::new("abc <e/>");
        assert_eq!(Err(XmlError::UnexpectedCharacter('a')), reader.next());
    }
    {
        let mut parser = SimpleXmlParser::from_str("abc <e/>");
        assert_eq!(Err(XmlError::UnexpectedCharacter('a')), parser.parse_next(EventVisitor));
    }
}

#[test]
fn mod_fail_on_chars_in_epilog() {
    {
        let mut reader = Reader::new("<e/>abc");
        assert_eq!(Ok(Some(XmlEvent::stag("e", true))), reader.next());
        assert_eq!(Ok(Some(XmlEvent::etag("e"))), reader.next());
        assert_eq!(Err(XmlError::UnexpectedCharacter('a')), reader.next());
    }
    {
        let mut parser = SimpleXmlParser::from_str("<e/>abc");
        assert_eq!(Ok(Some(Event::Start("e", vec![]))), parser.parse_next(EventVisitor));
        assert_eq!(Ok(Some(Event::End("e"))), parser.parse_next(EventVisitor));
        assert_eq!(Err(XmlError::UnexpectedCharacter('a')), parser.parse_next(EventVisitor));
    }
}

#[test]
fn mod_valid_content() {
    {
        let mut reader =
            Reader::new("<e>\u{9}\u{A}\u{20}\u{D7FF}\u{E000}\u{FFFD}\u{10000}\u{10FFFF}</e>");
        assert_eq!(Ok(Some(XmlEvent::stag("e", false))), reader.next());
        assert_eq!(Ok(Some(XmlEvent::characters(
                "\u{9}\u{A}\u{20}\u{D7FF}\u{E000}\u{FFFD}\u{10000}\u{10FFFF}"
            ))), reader.next());
        assert_eq!(Ok(Some(XmlEvent::etag("e"))), reader.next());
        assert_eq!(Ok(None), reader.next());
    }
    {
        let mut parser = SimpleXmlParser::from_str(
            "<e>\u{9}\u{A}\u{20}\u{D7FF}\u{E000}\u{FFFD}\u{10000}\u{10FFFF}</e>",
        );
        assert_eq!(Ok(Some(Event::Start("e", vec![]))), parser.parse_next(EventVisitor));
        assert_eq!(Ok(Some(Event::Chars(
                "\u{9}\u{A}\u{20}\u{D7FF}\u{E000}\u{FFFD}\u{10000}\u{10FFFF}".into()
            ))), parser.parse_next(EventVisitor));
        assert_eq!(Ok(Some(Event::End("e"))), parser.parse_next(EventVisitor));
        assert_eq!(Ok(None), parser.parse_next(EventVisitor));
    }
}

#[test]
fn mod_valid_content_entities() {
    {
        let mut reader = Reader::new(
            "<e>&#x9;&#xA;&#xD;&#x20;&#xD7FF;&#xE000;&#xFFFD;&#x10000;&#x10FFFF;</e>",
        );
        assert_eq!(Ok(Some(XmlEvent::stag("e", false))), reader.next());
        assert_eq!(Ok(Some(XmlEvent::characters("\u{9}"))), reader.next());
        assert_eq!(Ok(Some(XmlEvent::characters("\u{A}"))), reader.next());
        assert_eq!(Ok(Some(XmlEvent::characters("\u{D}"))), reader.next());
        assert_eq!(Ok(Some(XmlEvent::characters("\u{20}"))), reader.next());
        assert_eq!(Ok(Some(XmlEvent::characters("\u{D7FF}"))), reader.next());
        assert_eq!(Ok(Some(XmlEvent::characters("\u{E000}"))), reader.next());
        assert_eq!(Ok(Some(XmlEvent::characters("\u{FFFD}"))), reader.next());
        assert_eq!(Ok(Some(XmlEvent::characters("\u{10000}"))), reader.next());
        assert_eq!(Ok(Some(XmlEvent::characters("\u{10FFFF}"))), reader.next());
        assert_eq!(Ok(Some(XmlEvent::etag("e"))), reader.next());
        assert_eq!(Ok(None), reader.next());
    }
    {
        let mut parser = SimpleXmlParser::from_str(
            "<e>&#x9;&#xA;&#xD;&#x20;&#xD7FF;&#xE000;&#xFFFD;&#x10000;&#x10FFFF;</e>",
        );
        assert_eq!(Ok(Some(Event::Start("e", vec![]))), parser.parse_next(EventVisitor));
        assert_eq!(Ok(Some(Event::Chars("\u{9}".into()))), parser.parse_next(EventVisitor));
        assert_eq!(Ok(Some(Event::Chars("\u{A}".into()))), parser.parse_next(EventVisitor));
        assert_eq!(Ok(Some(Event::Chars("\u{D}".into()))), parser.parse_next(EventVisitor));
        assert_eq!(Ok(Some(Event::Chars("\u{20}".into()))), parser.parse_next(EventVisitor));
        assert_eq!(Ok(Some(Event::Chars("\u{D7FF}".into()))), parser.parse_next(EventVisitor));
        assert_eq!(Ok(Some(Event::Chars("\u{E000}".into()))), parser.parse_next(EventVisitor));
        assert_eq!(Ok(Some(Event::Chars("\u{FFFD}".into()))), parser.parse_next(EventVisitor));
        assert_eq!(Ok(Some(Event::Chars("\u{10000}".into()))), parser.parse_next(EventVisitor));
        assert_eq!(Ok(Some(Event::Chars("\u{10FFFF}".into()))), parser.parse_next(EventVisitor));
        assert_eq!(Ok(Some(Event::End("e"))), parser.parse_next(EventVisitor));
        assert_eq!(Ok(None), parser.parse_next(EventVisitor));
    }
}

#[test]
fn mod_invalid_content1() {
    {
        let mut reader = Reader::new("<e>\u{1}</e>");
        assert_eq!(Ok(Some(XmlEvent::stag("e", false))), reader.next());
        assert_eq!(Err(XmlError::InvalidCharacter('\u{1}')), reader.next());
    }
    {
        let mut parser = SimpleXmlParser::from_str("<e>\u{1}</e>");
        assert_eq!(Ok(Some(Event::Start("e", vec![]))), parser.parse_next(EventVisitor));
        assert_eq!(Err(XmlError::InvalidCharacter('\u{1}')), parser.parse_next(EventVisitor));
    }
}

#[test]
fn mod_invalid_content2() {
    {
        let mut reader = Reader::new("<e>&#1;</e>");
        assert_eq!(Ok(Some(XmlEvent::stag("e", false))), reader.next());
        assert_eq!(Err(XmlError::InvalidCharacterReference("1".to_string())), reader.next());
    }
    {
        let mut parser = SimpleXmlParser::from_str("<e>&#1;</e>");
        assert_eq!(Ok(Some(Event::Start("e", vec![]))), parser.parse_next(EventVisitor));
        assert_eq!(Err(XmlError::InvalidCharacterReference("1".to_string())), parser.parse_next(EventVisitor));
    }
}

#[test]
fn mod_invalid_content3() {
    {
        let mut reader = Reader::new("<e>\u{8}</e>");
        assert_eq!(Ok(Some(XmlEvent::stag("e", false))), reader.next());
        assert_eq!(Err(XmlError::InvalidCharacter('\u{8}')), reader.next());
    }
    {
        let mut parser = SimpleXmlParser::from_str("<e>\u{8}</e>");
        assert_eq!(Ok(Some(Event::Start("e", vec![]))), parser.parse_next(EventVisitor));
        assert_eq!(Err(XmlError::InvalidCharacter('\u{8}')), parser.parse_next(EventVisitor));
    }
}

#[test]
fn mod_invalid_content4() {
    {
        let mut reader = Reader::new("<e>\u{B}</e>");
        assert_eq!(Ok(Some(XmlEvent::stag("e", false))), reader.next());
        assert_eq!(Err(XmlError::InvalidCharacter('\u{B}')), reader.next());
    }
    {
        let mut parser = SimpleXmlParser::from_str("<e>\u{B}</e>");
        assert_eq!(Ok(Some(Event::Start("e", vec![]))), parser.parse_next(EventVisitor));
        assert_eq!(Err(XmlError::InvalidCharacter('\u{B}')), parser.parse_next(EventVisitor));
    }
}

#[test]
fn mod_invalid_content5() {
    {
        let mut reader = Reader::new("<e>\u{1F}</e>");
        assert_eq!(Ok(Some(XmlEvent::stag("e", false))), reader.next());
        assert_eq!(Err(XmlError::InvalidCharacter('\u{1F}')), reader.next());
    }
    {
        let mut parser = SimpleXmlParser::from_str("<e>\u{1F}</e>");
        assert_eq!(Ok(Some(Event::Start("e", vec![]))), parser.parse_next(EventVisitor));
        assert_eq!(Err(XmlError::InvalidCharacter('\u{1F}')), parser.parse_next(EventVisitor));
    }
}

#[test]
fn mod_invalid_content6() {
    {
        let mut reader = Reader::new("<e>&#1F;</e>");
        assert_eq!(Ok(Some(XmlEvent::stag("e", false))), reader.next());
        assert_eq!(Err(XmlError::InvalidCharacterReference("1F".to_string())), reader.next());
    }
    {
        let mut parser = SimpleXmlParser::from_str("<e>&#1F;</e>");
        assert_eq!(Ok(Some(Event::Start("e", vec![]))), parser.parse_next(EventVisitor));
        assert_eq!(Err(XmlError::InvalidCharacterReference("1F".to_string())), parser.parse_next(EventVisitor));
    }
}

#[test]
fn mod_invalid_content8() {
    {
        let mut reader = Reader::new("<e>&#D800;</e>");
        assert_eq!(Ok(Some(XmlEvent::stag("e", false))), reader.next());
        assert_eq!(Err(XmlError::InvalidCharacterReference("D800".to_string())), reader.next());
    }
    {
        let mut parser = SimpleXmlParser::from_str("<e>&#D800;</e>");
        assert_eq!(Ok(Some(Event::Start("e", vec![]))), parser.parse_next(EventVisitor));
        assert_eq!(Err(XmlError::InvalidCharacterReference("D800".to_string())), parser.parse_next(EventVisitor));
    }
}

#[test]
fn mod_invalid_content10() {
    {
        let mut reader = Reader::new("<e>&#DFFF;</e>");
        assert_eq!(Ok(Some(XmlEvent::stag("e", false))), reader.next());
        assert_eq!(Err(XmlError::InvalidCharacterReference("DFFF".to_string())), reader.next());
    }
    {
        let mut parser = SimpleXmlParser::from_str("<e>&#DFFF;</e>");
        assert_eq!(Ok(Some(Event::Start("e", vec![]))), parser.parse_next(EventVisitor));
        assert_eq!(Err(XmlError::InvalidCharacterReference("DFFF".to_string())), parser.parse_next(EventVisitor));
    }
}

#[test]
fn mod_invalid_content11() {
    {
        let mut reader = Reader::new("<e>\u{FFFE}</e>");
        assert_eq!(Ok(Some(XmlEvent::stag("e", false))), reader.next());
        assert_eq!(Err(XmlError::InvalidCharacter('\u{FFFE}')), reader.next());
    }
    {
        let mut parser = SimpleXmlParser::from_str("<e>\u{FFFE}</e>");
        assert_eq!(Ok(Some(Event::Start("e", vec![]))), parser.parse_next(EventVisitor));
        assert_eq!(Err(XmlError::InvalidCharacter('\u{FFFE}')), parser.parse_next(EventVisitor));
    }
}

#[test]
fn mod_invalid_content12() {
    {
        let mut reader = Reader::new("<e>&#FFFE;</e>");
        assert_eq!(Ok(Some(XmlEvent::stag("e", false))), reader.next());
        assert_eq!(Err(XmlError::InvalidCharacterReference("FFFE".to_string())), reader.next());
    }
    {
        let mut parser = SimpleXmlParser::from_str("<e>&#FFFE;</e>");
        assert_eq!(Ok(Some(Event::Start("e", vec![]))), parser.parse_next(EventVisitor));
        assert_eq!(Err(XmlError::InvalidCharacterReference("FFFE".to_string())), parser.parse_next(EventVisitor));
    }
}

#[test]
fn mod_invalid_content13() {
    {
        let mut reader = Reader::new("<e>\u{FFFF}</e>");
        assert_eq!(Ok(Some(XmlEvent::stag("e", false))), reader.next());
        assert_eq!(Err(XmlError::InvalidCharacter('\u{FFFF}')), reader.next());
    }
    {
        let mut parser = SimpleXmlParser::from_str("<e>\u{FFFF}</e>");
        assert_eq!(Ok(Some(Event::Start("e", vec![]))), parser.parse_next(EventVisitor));
        assert_eq!(Err(XmlError::InvalidCharacter('\u{FFFF}')), parser.parse_next(EventVisitor));
    }
}

#[test]
fn mod_invalid_content14() {
    {
        let mut reader = Reader::new("<e>&#xFFFF;</e>");
        assert_eq!(Ok(Some(XmlEvent::stag("e", false))), reader.next());
        assert_eq!(Err(XmlError::InvalidCharacterReference("FFFF".to_string())), reader.next());
    }
    {
        let mut parser = SimpleXmlParser::from_str("<e>&#xFFFF;</e>");
        assert_eq!(Ok(Some(Event::Start("e", vec![]))), parser.parse_next(EventVisitor));
        assert_eq!(Err(XmlError::InvalidCharacterReference("FFFF".to_string())), parser.parse_next(EventVisitor));
    }
}

#[test]
fn mod_invalid_content15() {
    {
        let mut reader = Reader::new("<e>&#x110000;</e>");
        assert_eq!(Ok(Some(XmlEvent::stag("e", false))), reader.next());
        assert_eq!(Err(XmlError::InvalidCharacterReference("110000".to_string())), reader.next());
    }
    {
        let mut parser = SimpleXmlParser::from_str("<e>&#x110000;</e>");
        assert_eq!(Ok(Some(Event::Start("e", vec![]))), parser.parse_next(EventVisitor));
        assert_eq!(Err(XmlError::InvalidCharacterReference("110000".to_string())), parser.parse_next(EventVisitor));
    }
}

#[test]
fn mod_parse_comment() {
    {
        let mut reader = Reader::new("<!-- declarations for <head> & <body> -->");
        assert_eq!(Ok(Some(XmlEvent::comment(
                " declarations for <head> & <body> "
            ))), reader.next());
        assert_eq!(Ok(None), reader.next());
    }
    {
        let mut parser = SimpleXmlParser::from_str("<!-- declarations for <head> & <body> -->");
        assert_eq!(Ok(Some(Event::Comment(" declarations for <head> & <body> "))), parser.parse_next(EventVisitor));
    }
}

#[test]
fn mod_parse_empty_comment() {
    {
        let mut reader = Reader::new("<!---->");
        assert_eq!(Ok(Some(XmlEvent::comment(""))), reader.next());
        assert_eq!(Ok(None), reader.next());
    }
    {
        let mut parser = SimpleXmlParser::from_str("<!---->");
        assert_eq!(Ok(Some(Event::Comment(""))), parser.parse_next(EventVisitor));
    }
}

#[test]
fn mod_parse_invalid_comment() {
    {
        let mut reader = Reader::new("<!-- B+, B, or B--->");
        assert_eq!(Err(XmlError::CommentColonColon), reader.next());
    }
    {
        let mut parser = SimpleXmlParser::from_str("<!-- B+, B, or B--->");
        assert_eq!(Err(XmlError::CommentColonColon), parser.parse_next(EventVisitor));
    }
}

#[test]
fn mod_parse_pi() {
    {
        let mut reader = Reader::new("<?e?>");
        assert_eq!(Ok(Some(XmlEvent::pi("e", None))), reader.next());
        assert_eq!(Ok(None), reader.next());
    }
    {
        let mut parser = SimpleXmlParser::from_str("<?e?>");
        assert_eq!(Ok(Some(Event::PI("e", None))), parser.parse_next(EventVisitor));
    }
}

#[test]
fn mod_parse_pi_data() {
    {
        let mut reader = Reader::new("<?e abc=gdsfh ?>");
        assert_eq!(Ok(Some(XmlEvent::pi("e", Some(Cow::Borrowed("abc=gdsfh "))))), reader.next());
        assert_eq!(Ok(None), reader.next());
    }
    {
        let mut parser = SimpleXmlParser::from_str("<?e abc=gdsfh ?>");
        assert_eq!(Ok(Some(Event::PI("e", Some("abc=gdsfh ")))), parser.parse_next(EventVisitor));
    }
}

#[test]
fn mod_parse_pi_starting_with_xml_2() {
    {
        let mut reader = Reader::new("<?xml version='1.0'?><?xml-abc?>");
        assert!(matches!(reader.next(), Ok(Some(XmlEvent::XmlDecl(_)))));
        assert_eq!(Ok(Some(XmlEvent::pi("xml-abc", None))), reader.next());
        assert_eq!(Ok(None), reader.next());
    }
    {
        let mut parser = SimpleXmlParser::from_str("<?xml version='1.0'?><?xml-abc?>");
        assert!(matches!(parser.parse_next(EventVisitor), Ok(Some(Event::Decl(_)))));
        assert_eq!(Ok(Some(Event::PI("xml-abc", None))), parser.parse_next(EventVisitor));
    }
}

#[test]
fn mod_invalid_target_name_1() {
    {
        let mut reader = Reader::new("<?xml version='1.0'?><?xml?>");
        assert!(matches!(reader.next(), Ok(Some(XmlEvent::XmlDecl(_)))));
        assert_eq!(Err(XmlError::InvalidPITarget), reader.next());
    }
    {
        let mut parser = SimpleXmlParser::from_str("<?xml version='1.0'?><?xml?>");
        assert!(matches!(parser.parse_next(EventVisitor), Ok(Some(Event::Decl(_)))));
        assert_eq!(Err(XmlError::InvalidPITarget), parser.parse_next(EventVisitor));
    }
}

#[test]
fn mod_invalid_target_name_2() {
    {
        let mut reader = Reader::new("<?xml version='1.0'?><?XmL?>");
        assert!(matches!(reader.next(), Ok(Some(XmlEvent::XmlDecl(_)))));
        assert_eq!(Err(XmlError::InvalidPITarget), reader.next());
    }
    {
        let mut parser = SimpleXmlParser::from_str("<?xml version='1.0'?><?XmL?>");
        assert!(matches!(parser.parse_next(EventVisitor), Ok(Some(Event::Decl(_)))));
        assert_eq!(Err(XmlError::InvalidPITarget), parser.parse_next(EventVisitor));
    }
}

#[test]
fn mod_missing_end() {
    {
        let mut reader = Reader::new("<?e abc=gdsfh");
        assert_eq!(Err(XmlError::ExpectToken("?>")), reader.next());
    }
    {
        let mut parser = SimpleXmlParser::from_str("<?e abc=gdsfh");
        assert_eq!(Err(XmlError::ExpectToken("?>")), parser.parse_next(EventVisitor));
    }
}

#[test]
fn mod_pass1() {
    {
        let mut reader = Reader::new("<e><![CDATA[<greeting>Hello, world!</greeting>]]></e>");
        assert_eq!(Ok(Some(XmlEvent::stag("e", false))), reader.next());
        assert_eq!(Ok(Some(XmlEvent::characters(
                "<greeting>Hello, world!</greeting>"
            ))), reader.next());
        assert_eq!(Ok(Some(XmlEvent::etag("e"))), reader.next());
        assert_eq!(Ok(None), reader.next());
    }
    {
        let mut parser =
            SimpleXmlParser::from_str("<e><![CDATA[<greeting>Hello, world!</greeting>]]></e>");
        assert_eq!(Ok(Some(Event::Start("e", vec![]))), parser.parse_next(EventVisitor));
        assert_eq!(Ok(Some(Event::Chars(
                "<greeting>Hello, world!</greeting>".into()
            ))), parser.parse_next(EventVisitor));
        assert_eq!(Ok(Some(Event::End("e"))), parser.parse_next(EventVisitor));
        assert_eq!(Ok(None), parser.parse_next(EventVisitor));
    }
}

#[test]
fn mod_pass2() {
    {
        let mut reader = Reader::new("<e><![CDATA[]]]]></e>");
        assert_eq!(Ok(Some(XmlEvent::stag("e", false))), reader.next());
        assert_eq!(Ok(Some(XmlEvent::characters("]]"))), reader.next());
        assert_eq!(Ok(Some(XmlEvent::etag("e"))), reader.next());
        assert_eq!(Ok(None), reader.next());
    }
    {
        let mut parser = SimpleXmlParser::from_str("<e><![CDATA[]]]]></e>");
        assert_eq!(Ok(Some(Event::Start("e", vec![]))), parser.parse_next(EventVisitor));
        assert_eq!(Ok(Some(Event::Chars("]]".into()))), parser.parse_next(EventVisitor));
        assert_eq!(Ok(Some(Event::End("e"))), parser.parse_next(EventVisitor));
        assert_eq!(Ok(None), parser.parse_next(EventVisitor));
    }
}

#[test]
fn mod_pass3() {
    {
        let mut reader = Reader::new("<e><![CDATA[[]]]></e>");
        assert_eq!(Ok(Some(XmlEvent::stag("e", false))), reader.next());
        assert_eq!(Ok(Some(XmlEvent::characters("[]"))), reader.next());
        assert_eq!(Ok(Some(XmlEvent::etag("e"))), reader.next());
        assert_eq!(Ok(None), reader.next());
    }
    {
        let mut parser = SimpleXmlParser::from_str("<e><![CDATA[[]]]></e>");
        assert_eq!(Ok(Some(Event::Start("e", vec![]))), parser.parse_next(EventVisitor));
        assert_eq!(Ok(Some(Event::Chars("[]".into()))), parser.parse_next(EventVisitor));
        assert_eq!(Ok(Some(Event::End("e"))), parser.parse_next(EventVisitor));
        assert_eq!(Ok(None), parser.parse_next(EventVisitor));
    }
}

#[test]
fn mod_pass4() {
    {
        let mut reader = Reader::new("<e><![CDATA[]]></e>");
        assert_eq!(Ok(Some(XmlEvent::stag("e", false))), reader.next());
        assert_eq!(Ok(Some(XmlEvent::characters(""))), reader.next());
        assert_eq!(Ok(Some(XmlEvent::etag("e"))), reader.next());
        assert_eq!(Ok(None), reader.next());
    }
    {
        let mut parser = SimpleXmlParser::from_str("<e><![CDATA[]]></e>");
        assert_eq!(Ok(Some(Event::Start("e", vec![]))), parser.parse_next(EventVisitor));
        assert_eq!(Ok(Some(Event::Chars("".into()))), parser.parse_next(EventVisitor));
        assert_eq!(Ok(Some(Event::End("e"))), parser.parse_next(EventVisitor));
        assert_eq!(Ok(None), parser.parse_next(EventVisitor));
    }
}

#[test]
fn mod_fail1() {
    {
        let mut reader = Reader::new("<e><![CDATA[]></e>");
        assert_eq!(Ok(Some(XmlEvent::stag("e", false))), reader.next());
        assert_eq!(Err(XmlError::UnexpectedEof), reader.next());
    }
    {
        let mut parser = SimpleXmlParser::from_str("<e><![CDATA[]></e>");
        assert_eq!(Ok(Some(Event::Start("e", vec![]))), parser.parse_next(EventVisitor));
        assert_eq!(Err(XmlError::UnexpectedEof), parser.parse_next(EventVisitor));
    }
}

#[test]
fn mod_pass_ascii_char() {
    {
        let mut reader = Reader::new("<e>&#x20;</e>");
        assert_eq!(Ok(Some(XmlEvent::stag("e", false))), reader.next());
        assert_eq!(Ok(Some(XmlEvent::characters("\u{20}"))), reader.next());
        assert_eq!(Ok(Some(XmlEvent::etag("e"))), reader.next());
        assert_eq!(Ok(None), reader.next());
    }
    {
        let mut parser = SimpleXmlParser::from_str("<e>&#x20;</e>");
        assert_eq!(Ok(Some(Event::Start("e", vec![]))), parser.parse_next(EventVisitor));
        assert_eq!(Ok(Some(Event::Chars("\u{20}".into()))), parser.parse_next(EventVisitor));
        assert_eq!(Ok(Some(Event::End("e"))), parser.parse_next(EventVisitor));
        assert_eq!(Ok(None), parser.parse_next(EventVisitor));
    }
}

#[test]
fn mod_pass_decimal() {
    {
        let mut reader = Reader::new("<e>&#32;</e>");
        assert_eq!(Ok(Some(XmlEvent::stag("e", false))), reader.next());
        assert_eq!(Ok(Some(XmlEvent::characters("\u{20}"))), reader.next());
        assert_eq!(Ok(Some(XmlEvent::etag("e"))), reader.next());
        assert_eq!(Ok(None), reader.next());
    }
    {
        let mut parser = SimpleXmlParser::from_str("<e>&#32;</e>");
        assert_eq!(Ok(Some(Event::Start("e", vec![]))), parser.parse_next(EventVisitor));
        assert_eq!(Ok(Some(Event::Chars("\u{20}".into()))), parser.parse_next(EventVisitor));
        assert_eq!(Ok(Some(Event::End("e"))), parser.parse_next(EventVisitor));
        assert_eq!(Ok(None), parser.parse_next(EventVisitor));
    }
}

#[test]
fn mod_pass_emoji() {
    {
        let mut reader = Reader::new("<e>&#x1F600;</e>");
        assert_eq!(Ok(Some(XmlEvent::stag("e", false))), reader.next());
        assert_eq!(Ok(Some(XmlEvent::characters("\u{1F600}"))), reader.next());
        assert_eq!(Ok(Some(XmlEvent::etag("e"))), reader.next());
        assert_eq!(Ok(None), reader.next());
    }
    {
        let mut parser = SimpleXmlParser::from_str("<e>&#x1F600;</e>");
        assert_eq!(Ok(Some(Event::Start("e", vec![]))), parser.parse_next(EventVisitor));
        assert_eq!(Ok(Some(Event::Chars("\u{1F600}".into()))), parser.parse_next(EventVisitor));
        assert_eq!(Ok(Some(Event::End("e"))), parser.parse_next(EventVisitor));
        assert_eq!(Ok(None), parser.parse_next(EventVisitor));
    }
}

#[test]
fn mod_pass_ref_in_chars() {
    {
        let mut reader = Reader::new("<e>test&#x20;seq</e>");
        assert_eq!(Ok(Some(XmlEvent::stag("e", false))), reader.next());
        assert_eq!(Ok(Some(XmlEvent::characters("test"))), reader.next());
        assert_eq!(Ok(Some(XmlEvent::characters("\u{20}"))), reader.next());
        assert_eq!(Ok(Some(XmlEvent::characters("seq"))), reader.next());
        assert_eq!(Ok(Some(XmlEvent::etag("e"))), reader.next());
        assert_eq!(Ok(None), reader.next());
    }
    {
        let mut parser = SimpleXmlParser::from_str("<e>test&#x20;seq</e>");
        assert_eq!(Ok(Some(Event::Start("e", vec![]))), parser.parse_next(EventVisitor));
        assert_eq!(Ok(Some(Event::Chars("test".into()))), parser.parse_next(EventVisitor));
        assert_eq!(Ok(Some(Event::Chars("\u{20}".into()))), parser.parse_next(EventVisitor));
        assert_eq!(Ok(Some(Event::Chars("seq".into()))), parser.parse_next(EventVisitor));
        assert_eq!(Ok(Some(Event::End("e"))), parser.parse_next(EventVisitor));
        assert_eq!(Ok(None), parser.parse_next(EventVisitor));
    }
}

#[test]
fn mod_fail_invalid_char() {
    {
        let mut reader = Reader::new("<e>&#x0;</e>");
        assert_eq!(Ok(Some(XmlEvent::stag("e", false))), reader.next());
        assert_eq!(Err(XmlError::InvalidCharacterReference("0".to_string())), reader.next());
    }
    {
        let mut parser = SimpleXmlParser::from_str("<e>&#x0;</e>");
        assert_eq!(Ok(Some(Event::Start("e", vec![]))), parser.parse_next(EventVisitor));
        assert_eq!(Err(XmlError::InvalidCharacterReference("0".to_string())), parser.parse_next(EventVisitor));
    }
}

#[test]
fn mod_fail_too_big() {
    {
        let mut reader = Reader::new("<e>&#x10000000;</e>");
        assert_eq!(Ok(Some(XmlEvent::stag("e", false))), reader.next());
        assert_eq!(Err(XmlError::InvalidCharacterReference("10000000".to_string())), reader.next());
    }
    {
        let mut parser = SimpleXmlParser::from_str("<e>&#x10000000;</e>");
        assert_eq!(Ok(Some(Event::Start("e", vec![]))), parser.parse_next(EventVisitor));
        assert_eq!(Err(XmlError::InvalidCharacterReference("10000000".to_string())), parser.parse_next(EventVisitor));
    }
}

#[test]
fn mod_fail_too_big_decimal() {
    {
        let mut reader = Reader::new("<e>&#10000000;</e>");
        assert_eq!(Ok(Some(XmlEvent::stag("e", false))), reader.next());
        assert_eq!(Err(XmlError::InvalidCharacterReference("10000000".to_string())), reader.next());
    }
    {
        let mut parser = SimpleXmlParser::from_str("<e>&#10000000;</e>");
        assert_eq!(Ok(Some(Event::Start("e", vec![]))), parser.parse_next(EventVisitor));
        assert_eq!(Err(XmlError::InvalidCharacterReference("10000000".to_string())), parser.parse_next(EventVisitor));
    }
}

#[test]
fn mod_fail_non_digit() {
    {
        let mut reader = Reader::new("<e>&#xFGH;</e>");
        assert_eq!(Ok(Some(XmlEvent::stag("e", false))), reader.next());
        assert_eq!(Err(XmlError::InvalidCharacterReference("FGH".to_string())), reader.next());
    }
    {
        let mut parser = SimpleXmlParser::from_str("<e>&#xFGH;</e>");
        assert_eq!(Ok(Some(Event::Start("e", vec![]))), parser.parse_next(EventVisitor));
        assert_eq!(Err(XmlError::InvalidCharacterReference("FGH".to_string())), parser.parse_next(EventVisitor));
    }
}

#[test]
fn mod_fail_non_digit_decimal() {
    {
        let mut reader = Reader::new("<e>&#1F;</e>");
        assert_eq!(Ok(Some(XmlEvent::stag("e", false))), reader.next());
        assert_eq!(Err(XmlError::InvalidCharacterReference("1F".to_string())), reader.next());
    }
    {
        let mut parser = SimpleXmlParser::from_str("<e>&#1F;</e>");
        assert_eq!(Ok(Some(Event::Start("e", vec![]))), parser.parse_next(EventVisitor));
        assert_eq!(Err(XmlError::InvalidCharacterReference("1F".to_string())), parser.parse_next(EventVisitor));
    }
}

#[test]
fn mod_replace_lt() {
    {
        let mut reader = Reader::new("<e>&lt;</e>");
        assert_eq!(Ok(Some(XmlEvent::stag("e", false))), reader.next());
        assert_eq!(Ok(Some(XmlEvent::characters("<"))), reader.next());
        assert_eq!(Ok(Some(XmlEvent::etag("e"))), reader.next());
        assert_eq!(Ok(None), reader.next());
    }
    {
        let mut parser = SimpleXmlParser::from_str("<e>&lt;</e>");
        assert_eq!(Ok(Some(Event::Start("e", vec![]))), parser.parse_next(EventVisitor));
        assert_eq!(Ok(Some(Event::Chars("<".into()))), parser.parse_next(EventVisitor));
        assert_eq!(Ok(Some(Event::End("e"))), parser.parse_next(EventVisitor));
        assert_eq!(Ok(None), parser.parse_next(EventVisitor));
    }
}

#[test]
fn mod_replace_gt() {
    {
        let mut reader = Reader::new("<e>&gt;</e>");
        assert_eq!(Ok(Some(XmlEvent::stag("e", false))), reader.next());
        assert_eq!(Ok(Some(XmlEvent::characters(">"))), reader.next());
        assert_eq!(Ok(Some(XmlEvent::etag("e"))), reader.next());
        assert_eq!(Ok(None), reader.next());
    }
    {
        let mut parser = SimpleXmlParser::from_str("<e>&gt;</e>");
        assert_eq!(Ok(Some(Event::Start("e", vec![]))), parser.parse_next(EventVisitor));
        assert_eq!(Ok(Some(Event::Chars(">".into()))), parser.parse_next(EventVisitor));
        assert_eq!(Ok(Some(Event::End("e"))), parser.parse_next(EventVisitor));
        assert_eq!(Ok(None), parser.parse_next(EventVisitor));
    }
}

#[test]
fn mod_replace_amp() {
    {
        let mut reader = Reader::new("<e>&amp;</e>");
        assert_eq!(Ok(Some(XmlEvent::stag("e", false))), reader.next());
        assert_eq!(Ok(Some(XmlEvent::characters("&"))), reader.next());
        assert_eq!(Ok(Some(XmlEvent::etag("e"))), reader.next());
        assert_eq!(Ok(None), reader.next());
    }
    {
        let mut parser = SimpleXmlParser::from_str("<e>&amp;</e>");
        assert_eq!(Ok(Some(Event::Start("e", vec![]))), parser.parse_next(EventVisitor));
        assert_eq!(Ok(Some(Event::Chars("&".into()))), parser.parse_next(EventVisitor));
        assert_eq!(Ok(Some(Event::End("e"))), parser.parse_next(EventVisitor));
        assert_eq!(Ok(None), parser.parse_next(EventVisitor));
    }
}

#[test]
fn mod_replace_apos() {
    {
        let mut reader = Reader::new("<e>&apos;</e>");
        assert_eq!(Ok(Some(XmlEvent::stag("e", false))), reader.next());
        assert_eq!(Ok(Some(XmlEvent::characters("'"))), reader.next());
        assert_eq!(Ok(Some(XmlEvent::etag("e"))), reader.next());
        assert_eq!(Ok(None), reader.next());
    }
    {
        let mut parser = SimpleXmlParser::from_str("<e>&apos;</e>");
        assert_eq!(Ok(Some(Event::Start("e", vec![]))), parser.parse_next(EventVisitor));
        assert_eq!(Ok(Some(Event::Chars("'".into()))), parser.parse_next(EventVisitor));
        assert_eq!(Ok(Some(Event::End("e"))), parser.parse_next(EventVisitor));
        assert_eq!(Ok(None), parser.parse_next(EventVisitor));
    }
}

#[test]
fn mod_replace_quot() {
    {
        let mut reader = Reader::new("<e>&quot;</e>");
        assert_eq!(Ok(Some(XmlEvent::stag("e", false))), reader.next());
        assert_eq!(Ok(Some(XmlEvent::characters("\""))), reader.next());
        assert_eq!(Ok(Some(XmlEvent::etag("e"))), reader.next());
        assert_eq!(Ok(None), reader.next());
    }
    {
        let mut parser = SimpleXmlParser::from_str("<e>&quot;</e>");
        assert_eq!(Ok(Some(Event::Start("e", vec![]))), parser.parse_next(EventVisitor));
        assert_eq!(Ok(Some(Event::Chars("\"".into()))), parser.parse_next(EventVisitor));
        assert_eq!(Ok(Some(Event::End("e"))), parser.parse_next(EventVisitor));
        assert_eq!(Ok(None), parser.parse_next(EventVisitor));
    }
}

#[test]
fn mod_fail_on_open() {
    {
        let mut reader = Reader::new("<e>&quot</e>");
        assert_eq!(Ok(Some(XmlEvent::stag("e", false))), reader.next());
        assert_eq!(Err(XmlError::ExpectToken(";")), reader.next());
    }
    {
        let mut parser = SimpleXmlParser::from_str("<e>&quot</e>");
        assert_eq!(Ok(Some(Event::Start("e", vec![]))), parser.parse_next(EventVisitor));
        assert_eq!(Err(XmlError::ExpectToken(";")), parser.parse_next(EventVisitor));
    }
}

#[test]
fn mod_fail_on_unknown_entity() {
    {
        let mut reader = Reader::new("<e>&nent;</e>");
        assert_eq!(Ok(Some(XmlEvent::stag("e", false))), reader.next());
        assert_eq!(Err(XmlError::UnknownEntity("nent".to_string())), reader.next());
    }
    {
        let mut parser = SimpleXmlParser::from_str("<e>&nent;</e>");
        assert_eq!(Ok(Some(Event::Start("e", vec![]))), parser.parse_next(EventVisitor));
        assert_eq!(Err(XmlError::UnknownEntity("nent".to_string())), parser.parse_next(EventVisitor));
    }
}

#[test]
fn mod_fail_on_open2() {
    {
        let mut reader = Reader::new("<e>&lt&gt;</e>");
        assert_eq!(Ok(Some(XmlEvent::stag("e", false))), reader.next());
        assert_eq!(Err(XmlError::ExpectToken(";")), reader.next());
    }
    {
        let mut parser = SimpleXmlParser::from_str("<e>&lt&gt;</e>");
        assert_eq!(Ok(Some(Event::Start("e", vec![]))), parser.parse_next(EventVisitor));
        assert_eq!(Err(XmlError::ExpectToken(";")), parser.parse_next(EventVisitor));
    }
}

#[test]
fn mod_utf8_lower() {
    {
        let mut reader = Reader::new("<?xml version='1.0' encoding='utf-8'?><e/>");
        assert_eq!(Ok(Some(XmlEvent::decl("1.0", Option::Some("utf-8"), None))), reader.next());
    }
    {
        let mut parser =
            SimpleXmlParser::from_str("<?xml version='1.0' encoding='utf-8'?><e/>");
        assert_eq!(Ok(Some(Event::decl("1.0", Option::Some("utf-8"), None))), parser.parse_next(EventVisitor));
    }
}

#[test]
fn mod_utf8_upper() {
    {
        let mut reader = Reader::new("<?xml version='1.0' encoding='UTF-8'?><e/>");
        assert_eq!(Ok(Some(XmlEvent::decl("1.0", Option::Some("UTF-8"), None))), reader.next());
    }
    {
        let mut parser =
            SimpleXmlParser::from_str("<?xml version='1.0' encoding='UTF-8'?><e/>");
        assert_eq!(Ok(Some(Event::decl("1.0", Option::Some("UTF-8"), None))), parser.parse_next(EventVisitor));
    }
}

#[test]
fn mod_unsupported() {
    {
        let mut reader = Reader::new("<?xml version='1.0' encoding='UTF128'?><e/>");
        assert_eq!(Err(XmlError::UnsupportedEncoding("UTF128".to_string())), reader.next());
    }
    {
        let mut parser =
            SimpleXmlParser::from_str("<?xml version='1.0' encoding='UTF128'?><e/>");
        assert_eq!(Err(XmlError::UnsupportedEncoding("UTF128".to_string())), parser.parse_next(EventVisitor));
    }
}

#[test]
fn mod_passthrough_line_feed() {
    {
        let mut reader = Reader::new("<e>a\nb</e>");
        assert_eq!(Ok(Some(XmlEvent::stag("e", false))), reader.next());
        assert_eq!(Ok(Some(XmlEvent::characters("a\nb"))), reader.next());
        assert_eq!(Ok(Some(XmlEvent::etag("e"))), reader.next());
        assert_eq!(Ok(None), reader.next());
    }
    {
        let mut parser = SimpleXmlParser::from_str("<e>a\nb</e>");
        assert_eq!(Ok(Some(Event::Start("e", vec![]))), parser.parse_next(EventVisitor));
        assert_eq!(Ok(Some(Event::Chars("a\nb".into()))), parser.parse_next(EventVisitor));
        assert_eq!(Ok(Some(Event::End("e"))), parser.parse_next(EventVisitor));
        assert_eq!(Ok(None), parser.parse_next(EventVisitor));
    }
}

#[test]
fn mod_convert_carriage_return() {
    {
        let mut reader = Reader::new("<e>a\rb</e>");
        assert_eq!(Ok(Some(XmlEvent::stag("e", false))), reader.next());
        assert_eq!(Ok(Some(XmlEvent::characters("a"))), reader.next());
        assert_eq!(Ok(Some(XmlEvent::characters("\n"))), reader.next());
        assert_eq!(Ok(Some(XmlEvent::characters("b"))), reader.next());
        assert_eq!(Ok(Some(XmlEvent::etag("e"))), reader.next());
        assert_eq!(Ok(None), reader.next());
    }
    {
        let mut parser = SimpleXmlParser::from_str("<e>a\rb</e>");
        assert_eq!(Ok(Some(Event::Start("e", vec![]))), parser.parse_next(EventVisitor));
        assert_eq!(Ok(Some(Event::Chars("a".into()))), parser.parse_next(EventVisitor));
        assert_eq!(Ok(Some(Event::Chars("\n".into()))), parser.parse_next(EventVisitor));
        assert_eq!(Ok(Some(Event::Chars("b".into()))), parser.parse_next(EventVisitor));
        assert_eq!(Ok(Some(Event::End("e"))), parser.parse_next(EventVisitor));
        assert_eq!(Ok(None), parser.parse_next(EventVisitor));
    }
}

#[test]
fn mod_ignore_carriage_return_before_line_feed() {
    {
        let mut reader = Reader::new("<e>a\r\nb</e>");
        assert_eq!(Ok(Some(XmlEvent::stag("e", false))), reader.next());
        assert_eq!(Ok(Some(XmlEvent::characters("a"))), reader.next());
        assert_eq!(Ok(Some(XmlEvent::characters("\nb"))), reader.next());
        assert_eq!(Ok(Some(XmlEvent::etag("e"))), reader.next());
        assert_eq!(Ok(None), reader.next());
    }
    {
        let mut parser = SimpleXmlParser::from_str("<e>a\r\nb</e>");
        assert_eq!(Ok(Some(Event::Start("e", vec![]))), parser.parse_next(EventVisitor));
        assert_eq!(Ok(Some(Event::Chars("a".into()))), parser.parse_next(EventVisitor));
        assert_eq!(Ok(Some(Event::Chars("\nb".into()))), parser.parse_next(EventVisitor));
        assert_eq!(Ok(Some(Event::End("e"))), parser.parse_next(EventVisitor));
        assert_eq!(Ok(None), parser.parse_next(EventVisitor));
    }
}

#[test]
fn mod_ignore_carriage_return_before_line_feed2() {
    {
        let mut reader = Reader::new("<e>a\r\n</e>");
        assert_eq!(Ok(Some(XmlEvent::stag("e", false))), reader.next());
        assert_eq!(Ok(Some(XmlEvent::characters("a"))), reader.next());
        assert_eq!(Ok(Some(XmlEvent::characters("\n"))), reader.next());
        assert_eq!(Ok(Some(XmlEvent::etag("e"))), reader.next());
        assert_eq!(Ok(None), reader.next());
    }
    {
        let mut parser = SimpleXmlParser::from_str("<e>a\r\n</e>");
        assert_eq!(Ok(Some(Event::Start("e", vec![]))), parser.parse_next(EventVisitor));
        assert_eq!(Ok(Some(Event::Chars("a".into()))), parser.parse_next(EventVisitor));
        assert_eq!(Ok(Some(Event::Chars("\n".into()))), parser.parse_next(EventVisitor));
        assert_eq!(Ok(Some(Event::End("e"))), parser.parse_next(EventVisitor));
        assert_eq!(Ok(None), parser.parse_next(EventVisitor));
    }
}

#[test]
fn mod_ignore_carriage_return_before_line_feed3() {
    {
        let mut reader = Reader::new("<e>\r\n</e>");
        assert_eq!(Ok(Some(XmlEvent::stag("e", false))), reader.next());
        assert_eq!(Ok(Some(XmlEvent::characters("\n"))), reader.next());
        assert_eq!(Ok(Some(XmlEvent::etag("e"))), reader.next());
        assert_eq!(Ok(None), reader.next());
    }
    {
        let mut parser = SimpleXmlParser::from_str("<e>\r\n</e>");
        assert_eq!(Ok(Some(Event::Start("e", vec![]))), parser.parse_next(EventVisitor));
        assert_eq!(Ok(Some(Event::Chars("\n".into()))), parser.parse_next(EventVisitor));
        assert_eq!(Ok(Some(Event::End("e"))), parser.parse_next(EventVisitor));
        assert_eq!(Ok(None), parser.parse_next(EventVisitor));
    }
}

#[test]
fn attribute_missing_value() {
    let mut parser = SimpleXmlParser::from_str("<e a></e>");
    assert_eq!(Err(XmlError::ExpectToken("=")), parser.parse_next(EventVisitor));
}

#[test]
fn attribute_wrong_quote() {
    let mut parser = SimpleXmlParser::from_str("<e a='v\"></e>");
    assert_eq!(Err(XmlError::IllegalAttributeValue(
            "< not allowed in attribute value"
        )), parser.parse_next(EventVisitor));
}

#[test]
fn attribute_missing_quote() {
    let mut parser = SimpleXmlParser::from_str("<e a=v></e>");
    assert_eq!(Err(XmlError::ExpectToken("quote or single quote")), parser.parse_next(EventVisitor));
}

#[test]
fn mod_fail_on_cdata_section_end() {
    let mut parser = SimpleXmlParser::from_str("<e>]]></e>");
    assert_eq!(Ok(Some(Event::Start("e", vec![]))), parser.parse_next(EventVisitor));
    assert_eq!(Err(XmlError::IllegalCDataSectionEnd), parser.parse_next(EventVisitor));
}

#[test]
fn mod_parse_pi_starting_with_xml_1() {
    let mut parser = SimpleXmlParser::from_str("<?xml-abc?>");
    assert_eq!(Ok(Some(Event::PI("xml-abc", None))), parser.parse_next(EventVisitor));
}

#[test]
fn mod_invalid_1() {
    let mut parser = SimpleXmlParser::from_str("<?e/fsdg?>");
    assert_eq!(Err(XmlError::ExpectToken("?>")), parser.parse_next(EventVisitor));
}

#[test]
fn ignore_carriage_return_before_line_feed4() {
    let mut parser = SimpleXmlParser::from_str("<e>\r\n\r\n</e>");
    assert_eq!(Ok(Some(Event::Start("e", vec![]))), parser.parse_next(EventVisitor));
    assert_eq!(Ok(Some(Event::Chars("\n".into()))), parser.parse_next(EventVisitor));
    assert_eq!(Ok(Some(Event::Chars("\n".into()))), parser.parse_next(EventVisitor));
    assert_eq!(Ok(Some(Event::End("e"))), parser.parse_next(EventVisitor));
    assert_eq!(Ok(None), parser.parse_next(EventVisitor));
}

fn empty_array<T>() -> &'static [T] {
    &[]
}

#[derive(PartialEq, Debug)]
enum Event<'i> {
    Decl(XmlDecl),
    PI(&'i str, Option<&'i str>),
    Comment(&'i str),
    Start(&'i str, Vec<(Cow<'i, str>, Cow<'i, str>)>),
    End(&'i str),
    Chars(Cow<'i, str>),
}

impl<'i> Event<'i> {
    pub fn decl(version: &'i str, encoding: Option<&'i str>, standalone: Option<bool>) -> Self {
        Event::Decl(XmlDecl {
            version: version.to_string(),
            encoding: encoding.map(|enc| enc.to_string()),
            standalone,
        })
    }
}

struct EventVisitor;

impl<'i> SimpleXmlVisitor<'i> for EventVisitor {
    type Value = Event<'i>;

    fn visit_start_element<A: AttributeAccess<'i>>(
        self,
        tag: &'i str,
        mut attrs: A,
    ) -> Result<Self::Value, XmlError> {
        let mut attrs_vec: Vec<(Cow<'i, str>, Cow<'i, str>)> = vec![];
        while let Some((key, value)) = attrs.next_entry(CowVisitor, CowVisitor)? {
            attrs_vec.push((key, value));
        }
        Ok(Event::Start(tag, attrs_vec))
    }

    fn visit_end_element(self, tag: &'i str) -> Result<Self::Value, XmlError> {
        Ok(Event::End(tag))
    }

    fn visit_declaration(self, decl: XmlDecl) -> Result<Self::Value, XmlError> {
        Ok(Event::Decl(decl))
    }

    fn visit_characters(self, characters: &'i str) -> Result<Self::Value, XmlError> {
        Ok(Event::Chars(Cow::Borrowed(characters)))
    }

    fn visit_borrowed_characters(self, characters: &str) -> Result<Self::Value, XmlError> {
        Ok(Event::Chars(Cow::Owned(characters.to_string())))
    }

    fn visit_pi(self, target: &'i str, data: Option<&'i str>) -> Result<Self::Value, XmlError> {
        Ok(Event::PI(target, data))
    }

    fn visit_comment(self, comment: &'i str) -> Result<Self::Value, XmlError> {
        Ok(Event::Comment(comment))
    }
}

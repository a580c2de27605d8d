//! Reading documents into their trees with quick-xml.
use xrs::dom::error::Reason;
use xrs::dom::reader::{DomReader, QuickXmlDomReader};
use xrs::dom::validate::{NonValidator, StructureValidatorBuilder, WellFormedValidatorBuilder};

#[test]
fn only_root() {
    let reader = QuickXmlDomReader::new(b"<root></root>", NonValidator);
    let doc = reader.parse().unwrap();
    assert_eq!("root", doc.get_root().tag(&doc).unwrap());
    assert_eq!("", doc.get_root().text(&doc).unwrap());
    assert_eq!(0, doc.get_root().children().len());
}

#[test]
fn quick_xml_empty() {
    let reader = QuickXmlDomReader::new(b"<root />", NonValidator);
    let doc = reader.parse().unwrap();
    assert_eq!("root", doc.get_root().tag(&doc).unwrap());
    assert_eq!("", doc.get_root().text(&doc).unwrap());
    assert_eq!(0, doc.get_root().children().len());
}

#[test]
fn whitespace() {
    let reader = QuickXmlDomReader::new(b"<root >\n\r</root\t>\n\r  ", NonValidator);
    let doc = reader.parse().unwrap();
    assert_eq!("root", doc.get_root().tag(&doc).unwrap());
    assert_eq!("\n\r", doc.get_root().text(&doc).unwrap());
    assert_eq!(0, doc.get_root().children().len());
}

#[test]
fn tail() {
    let reader = QuickXmlDomReader::new(b"<root>text<elem/>tail</root>", NonValidator);
    let doc = reader.parse().unwrap();
    assert_eq!("text", doc.get_root().text(&doc).unwrap());
    assert_eq!("tail", doc.get_root().children()[0].tail(&doc).unwrap());
}

#[test]
fn pre() {
    let reader = QuickXmlDomReader::new(
        b"<?xml version=\"1.0\" encoding=\"UTF-8\" standalone=\"yes\"?>
            <!DOCTYPE root SYSTEM \"scheme.dtd\">
            <!-- Comment -->
            <root></root>",
        NonValidator,
    );
    let doc = reader.parse().unwrap();
    assert_eq!("root", doc.get_root().tag(&doc).unwrap());
}

#[test]
fn pre_text() {
    let reader = QuickXmlDomReader::new(b"sdsf<root></roo>", NonValidator);
    let result = reader.parse();
    let message = format!("{:?}", result.as_ref().err());
    assert!(
        matches!(
            result.map_err(|err| err.into_reason()),
            Err(Reason::PrologCharacters)
        ),
        "Got {}",
        message
    );
}

#[test]
fn wrong_end() {
    let reader = QuickXmlDomReader::new(b"<root></roo>", WellFormedValidatorBuilder);
    let result = reader.parse();
    let message = format!("{:?}", result.as_ref().err());
    assert!(
        matches!(
            result.map_err(|err| err.into_reason()),
            Err(Reason::EndEventMismatch { expected, found })
            if expected == "root" && found == "roo"),
        "Got {}",
        message
    );
}

#[test]
fn eof() {
    let reader = QuickXmlDomReader::new(b"<root>", NonValidator);
    assert!(matches!(
        reader.parse().map_err(|err| err.into_reason()),
        Err(Reason::UnexpectedEof)
    ));
}

#[test]
fn double_decl() {
    let reader = QuickXmlDomReader::new(
        b"<?xml version=\"1.0\" ?><?xml version=\"1.0\" ?><root></root>",
        NonValidator,
    );
    assert!(matches!(
        reader.parse().map_err(|err| err.into_reason()),
        Err(Reason::UnexpectedDecl)
    ));
}

#[test]
fn doctype_before_decl() {
    let reader = QuickXmlDomReader::new(
        b"<!DOCTYPE root SYSTEM \"scheme.dtd\"><?xml version=\"1.0\" ?><root></root>",
        NonValidator,
    );
    assert!(matches!(
        reader.parse().map_err(|err| err.into_reason()),
        Err(Reason::UnexpectedDecl)
    ));
}

#[test]
fn double_doctype() {
    let reader = QuickXmlDomReader::new(
        b"<!DOCTYPE root SYSTEM \"scheme.dtd\"><!DOCTYPE root SYSTEM \"scheme.dtd\"><root></root>",
        NonValidator,
    );
    assert!(matches!(
        reader.parse().map_err(|err| err.into_reason()),
        Err(Reason::UnexpectedDocType)
    ));
}

#[test]
fn invalid_tag() {
    let reader = QuickXmlDomReader::new(b"<a#/>", WellFormedValidatorBuilder);
    assert!(matches!(
        reader.parse().map_err(|err| err.into_reason()),
        Err(Reason::InvalidName)
    ));
}

#[test]
fn dom_trailing_content() {
    let reader = QuickXmlDomReader::new(b"<root/><other/>", NonValidator);
    assert!(matches!(
        reader.parse().map_err(|err| err.into_reason()),
        Err(Reason::TrailingContent)
    ));
}

#[test]
fn dom_nested_children() {
    let reader = QuickXmlDomReader::new(b"<a><b>x</b>y<c/></a>", WellFormedValidatorBuilder);
    let doc = reader.parse().unwrap();
    let root = doc.get_root();
    assert_eq!("a", root.tag(&doc).unwrap());
    assert_eq!(2, root.children().len());
    assert_eq!("b", root.children()[0].tag(&doc).unwrap());
    assert_eq!("x", root.children()[0].text(&doc).unwrap());
    assert_eq!("y", root.children()[0].tail(&doc).unwrap());
    assert_eq!("c", root.children()[1].tag(&doc).unwrap());
    assert!(!root.children()[1].has_tail());
}

#[test]
fn dom_comment_with_double_hyphen() {
    let reader = QuickXmlDomReader::new(b"<a><!-- x -- y --></a>", WellFormedValidatorBuilder);
    assert!(matches!(
        reader.parse().map_err(|err| err.into_reason()),
        Err(Reason::IllegalPatternInComment)
    ));
}

#[test]
fn dom_end_before_root() {
    let reader = QuickXmlDomReader::new(b"</x><root/>", NonValidator);
    assert!(matches!(
        reader.parse().map_err(|err| err.into_reason()),
        Err(Reason::EndEventMismatch { expected, found }) if expected.is_empty() && found == "x"
    ));
}

#[test]
fn mismatched_end_names_read_lossily() {
    let reader = QuickXmlDomReader::new(b"<r\xFFt></rt>", StructureValidatorBuilder);
    match reader.parse().map_err(|err| err.into_reason()) {
        Err(Reason::EndEventMismatch { expected, found }) => {
            assert_eq!(expected, "r\u{FFFD}t");
            assert_eq!(found, "rt");
        },
        _ => panic!("expected a mismatched end tag"),
    }
}

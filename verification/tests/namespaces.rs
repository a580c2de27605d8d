//! Qualified names, the stack of namespace scopes and the namespace-aware reader.
use std::borrow::Cow;

use xrs::events::XmlError;
use xrs::namespace::parser::NsReader;
use xrs::namespace::stack::NamespaceStack;
use xrs::namespace::{NsAttribute, QName, XmlNsEvent};

#[test]
fn qname_split_borrowed() {
    let q = QName::from_str("a:b").unwrap();
    assert_eq!(q.prefix, Some(Cow::Borrowed("a")));
    assert_eq!(q.local_part, Cow::Borrowed("b"));
    let q = QName::from_str("plain").unwrap();
    assert_eq!(q.prefix, None);
    assert_eq!(q.local_part, "plain");
    let q = QName::from_str("").unwrap();
    assert_eq!(q.prefix, None);
    assert_eq!(q.local_part, "");
    assert_eq!(
        QName::from_str("a:b:c").unwrap_err(),
        XmlError::IllegalName { name: "a:b:c".to_string() }
    );
}

#[test]
fn qname_split_owned() {
    let q = QName::from_string("xmlns:svg".to_string()).unwrap();
    assert_eq!(q.prefix.as_deref(), Some("xmlns"));
    assert_eq!(q.local_part, "svg");
    let q = QName::from_cow(Cow::Owned(":x".to_string())).unwrap();
    assert_eq!(q.prefix.as_deref(), Some(""));
    assert_eq!(q.local_part, "x");
    let q = QName::from_cow(Cow::Borrowed("p:")).unwrap();
    assert_eq!(q.prefix.as_deref(), Some("p"));
    assert_eq!(q.local_part, "");
    assert_eq!(
        QName::from_string("::".to_string()).unwrap_err(),
        XmlError::IllegalName { name: "::".to_string() }
    );
}

#[test]
fn ns_attribute_parts() {
    let attr = NsAttribute::new(QName::from_str("x:y").unwrap(), Cow::Borrowed("v"));
    assert_eq!(attr.value(), "v");
    assert_eq!(attr.qname(), QName::from_str("x:y").unwrap());
    assert_eq!(attr.clone(), attr);
}

#[test]
fn scopes_declare_and_undo() {
    let mut stack = NamespaceStack::default();
    assert_eq!(stack.resolve("a"), None);
    assert_eq!(stack.resolve_default(), None);

    let mut scope = stack.build_scope();
    scope.add_prefix(Some("a".to_string()), "urn:a".to_string());
    scope.add_prefix(None, "urn:default".to_string());
    let stack = scope.finish();
    assert_eq!(stack.resolve("a"), Some("urn:a"));
    assert_eq!(stack.resolve_default(), Some("urn:default"));

    let mut inner = stack.build_scope();
    inner.add_prefix(Some("b".to_string()), "urn:b".to_string());
    let stack = inner.finish();
    assert_eq!(stack.resolve_default(), Some("urn:default"));
    // The latest prefixed declaration answers, whichever prefix is asked for.
    assert_eq!(stack.resolve("a"), Some("urn:b"));

    stack.pop_scope();
    assert_eq!(stack.resolve("a"), Some("urn:a"));
    stack.pop_scope();
    assert_eq!(stack.resolve("a"), None);
    assert_eq!(stack.resolve_default(), None);
}

#[test]
fn empty_scope_pops_nothing() {
    let mut stack = NamespaceStack::new();
    let mut scope = stack.build_scope();
    scope.add_prefix(None, "urn:d".to_string());
    let stack = scope.finish();
    let stack = stack.build_scope().finish();
    stack.pop_scope();
    assert_eq!(stack.resolve_default(), Some("urn:d"));
}

#[test]
fn ns_reader_start_tag() {
    let mut reader = NsReader::new("<svg:rect/>");
    match reader.next() {
        Ok(Some(XmlNsEvent::STag(stag))) => {
            assert_eq!(stag.qname.prefix.as_deref(), Some("svg"));
            assert_eq!(stag.qname.local_part, "rect");
            assert!(stag.empty);
        }
        other => panic!("unexpected {:?}", other),
    }
}

#[test]
fn ns_reader_declaration() {
    let mut reader = NsReader::new("<?xml version=\"1.0\"?><a/>");
    match reader.next() {
        Ok(Some(XmlNsEvent::XmlDecl(decl))) => assert_eq!(decl.version(), "1.0"),
        other => panic!("unexpected {:?}", other),
    }
}

#[test]
fn ns_reader_illegal_name() {
    let mut reader = NsReader::new("<a:b:c>");
    assert_eq!(
        reader.next(),
        Err(XmlError::IllegalName { name: "a:b:c".to_string() })
    );
}

#[test]
fn ns_reader_end_of_input() {
    let mut reader = NsReader::new("  ");
    assert_eq!(reader.next(), Ok(None));
}

#[test]
fn qname_parts_keep_how_the_text_was_held() {
    let q = QName::from_str("a:b").unwrap();
    assert!(matches!(q.prefix, Some(Cow::Borrowed("a"))));
    assert!(matches!(q.local_part, Cow::Borrowed("b")));
    let q = QName::from_cow(Cow::Borrowed("p:l")).unwrap();
    assert!(matches!(q.prefix, Some(Cow::Borrowed("p"))));
    assert!(matches!(q.local_part, Cow::Borrowed("l")));
    let q = QName::from_cow(Cow::Owned("p:l".to_string())).unwrap();
    assert!(matches!(q.prefix, Some(Cow::Owned(_))));
    assert!(matches!(q.local_part, Cow::Owned(_)));
}

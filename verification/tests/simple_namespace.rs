//! The namespace parser over the simple parser.
use xrs::events::{XmlDecl, XmlError};
use xrs::simple::namespace::{
    Namespace, NamespaceStack, NsAttributeAccess, QName, QNameVisitor, SimpleNsXmlParser,
    SimpleNsXmlVisitor,
};
use xrs::simple::StringVisitor;

#[derive(Debug)]
enum XmlEvent<'i> {
    StartElem {
        tag: QName<'i>,
        namespace: Option<Namespace>,
        attrs: Vec<(QName<'i>, Option<Namespace>, String)>,
    },
    EndElem {
        tag: QName<'i>,
        namespace: Option<Namespace>,
    },
    Characters(String),
    PI {
        target: &'i str,
        data: Option<&'i str>,
    },
    Comment(&'i str),
}

struct XmlEventVisitor;

impl<'i> SimpleNsXmlVisitor<'i> for XmlEventVisitor {
    type Value = XmlEvent<'i>;

    fn visit_start_element<A: NsAttributeAccess<'i>>(
        self,
        tag: QName<'i>,
        namespace: Option<Namespace>,
        mut attrs_access: A,
    ) -> Result<Self::Value, XmlError> {
        let mut attrs = Vec::with_capacity(attrs_access.next_entries());
        while let Some(((qname, namespace), value)) =
            attrs_access.next_entry(NamespacedNameStrVisitor, StringVisitor)?
        {
            attrs.push((qname, namespace, value));
        }

        Ok(XmlEvent::StartElem {
            tag,
            namespace,
            attrs,
        })
    }
    fn visit_end_element(
        self,
        tag: QName<'i>,
        namespace: Option<Namespace>,
    ) -> Result<Self::Value, XmlError> {
        Ok(XmlEvent::EndElem { tag, namespace })
    }
    fn visit_declaration(self, decl: XmlDecl) -> Result<Self::Value, XmlError> {
        panic!("no declaration in these documents")
    }
    fn visit_characters(self, characters: &'i str) -> Result<Self::Value, XmlError> {
        Ok(XmlEvent::Characters(characters.to_string()))
    }
    fn visit_borrowed_characters(self, characters: &str) -> Result<Self::Value, XmlError> {
        Ok(XmlEvent::Characters(characters.to_string()))
    }
    fn visit_pi(self, target: &'i str, data: Option<&'i str>) -> Result<Self::Value, XmlError> {
        Ok(XmlEvent::PI { target, data })
    }
    fn visit_comment(self, comment: &'i str) -> Result<Self::Value, XmlError> {
        Ok(XmlEvent::Comment(comment))
    }
}

struct NamespacedNameStrVisitor;

impl<'i> QNameVisitor<'i> for NamespacedNameStrVisitor {
    type Value = (QName<'i>, Option<Namespace>);

    fn visit_qname(
        self,
        key: QName<'i>,
        namespace: Option<Namespace>,
    ) -> Result<Self::Value, XmlError> {
        Ok((key, namespace))
    }
}

fn expect_event<'i>(parser: &mut SimpleNsXmlParser<'i>) -> XmlEvent<'i> {
    parser.parse_next(XmlEventVisitor).unwrap().unwrap()
}

fn expect_error(parser: &mut SimpleNsXmlParser) -> XmlError {
    parser.parse_next(XmlEventVisitor).unwrap_err()
}

#[test]
fn test_unnamespaced() {
    let mut parser = SimpleNsXmlParser::from_str("<e/>");
    assert!(matches!(
        expect_event(&mut parser),
        XmlEvent::StartElem {
            tag,
            namespace: None,
            attrs
        } if tag == QName::new(None, "e") && attrs.is_empty()
    ));
    assert!(matches!(
        expect_event(&mut parser),
        XmlEvent::EndElem {
            tag,
            namespace: None,
        } if tag == QName::new(None, "e")
    ));
}

#[test]
fn test_unnamespaced_attr() {
    let mut parser = SimpleNsXmlParser::from_str("<e a='value'/>");
    assert!(matches!(
        expect_event(&mut parser),
        XmlEvent::StartElem {
            attrs, ..
        } if attrs[0] == (QName::new(None, "a"), None, "value".to_string())
    ));
}

#[test]
fn test_namespaced() {
    let mut parser = SimpleNsXmlParser::from_str("<n1:e xmlns:n1='https://example.org' />");
    assert!(matches!(
        expect_event(&mut parser),
        XmlEvent::StartElem {
            tag,
            namespace,
            attrs
        } if tag == QName::new(Some("n1"), "e")
            && namespace == Some(Namespace::new("https://example.org"))
    ));
    assert!(matches!(
        expect_event(&mut parser),
        XmlEvent::EndElem {
            tag,
            namespace,
        } if tag == QName::new(Some("n1"), "e")
            && namespace == Some(Namespace::new("https://example.org"))
    ));
}

#[test]
fn test_empty_namespace_name() {
    let mut parser = SimpleNsXmlParser::from_str("<n1:e xmlns:n1='' />");
    assert!(matches!(
        expect_error(&mut parser),
        XmlError::IllegalNamespaceUri(ref ns) if ns == ""
    ));
}

#[test]
fn test_illegal_xml_namespace_redefinition() {
    let mut parser = SimpleNsXmlParser::from_str("<e xmlns:xml='https://example.org' />");
    let x = expect_error(&mut parser);
    assert!(
        matches!(
            x,
            XmlError::IllegalNamespaceUri(ref ns) if ns == "https://example.org"
        ),
        "{:?}",
        x
    );
}

#[test]
fn test_illegal_xml_namespace_name() {
    let mut parser =
        SimpleNsXmlParser::from_str("<n1:e xmlns:n1='http://www.w3.org/XML/1998/namespace' />");
    assert!(matches!(
        expect_error(&mut parser),
        XmlError::IllegalNamespaceUri(ref ns) if ns == "http://www.w3.org/XML/1998/namespace"
    ));
}

#[test]
fn test_illegal_xml_default_namespace_name() {
    let mut parser =
        SimpleNsXmlParser::from_str("<n1:e xmlns='http://www.w3.org/XML/1998/namespace' />");
    assert!(matches!(
        expect_error(&mut parser),
        XmlError::IllegalNamespaceUri(ref ns) if ns == "http://www.w3.org/XML/1998/namespace"
    ));
}

#[test]
fn test_legal_xml_namespace_name() {
    let mut parser = SimpleNsXmlParser::from_str(
        "<e xml:base='' xmlns:xml='http://www.w3.org/XML/1998/namespace' />",
    );
    assert!(matches!(
        expect_event(&mut parser),
        XmlEvent::StartElem {
            attrs,
            ..
        } if attrs[0].1.as_ref().unwrap().as_str() == "http://www.w3.org/XML/1998/namespace"
    ));
}

#[test]
fn test_illegal_xmlns_namespace_redefinition() {
    let mut parser = SimpleNsXmlParser::from_str("<e xmlns:xmlns='https://example.org' />");
    assert!(matches!(
        expect_error(&mut parser),
        XmlError::IllegalNamespaceUri(ref ns) if ns == "https://example.org"
    ));
}

#[test]
fn test_illegal_xmlns_namespace_name() {
    let mut parser =
        SimpleNsXmlParser::from_str("<n1:e xmlns:n1='http://www.w3.org/2000/xmlns/' />");
    assert!(matches!(
        expect_error(&mut parser),
        XmlError::IllegalNamespaceUri(ref ns) if ns == "http://www.w3.org/2000/xmlns/"
    ));
}

#[test]
fn test_illegal_xmlns_default_namespace_name() {
    let mut parser = SimpleNsXmlParser::from_str("<e xmlns='http://www.w3.org/2000/xmlns/' />");
    assert!(matches!(
        expect_error(&mut parser),
        XmlError::IllegalNamespaceUri(ref ns) if ns == "http://www.w3.org/2000/xmlns/"
    ));
}

#[test]
fn test_legal_xmlns_namespace_name() {
    let mut parser =
        SimpleNsXmlParser::from_str("<e xmlns:xmlns='http://www.w3.org/2000/xmlns/' />");
    assert!(matches!(
        expect_event(&mut parser),
        XmlEvent::StartElem {
            attrs,
            ..
        } if attrs[0].1.as_ref().unwrap().as_str() == "http://www.w3.org/2000/xmlns/"
    ));
}

#[test]
fn test_scoping() {
    let mut parser = SimpleNsXmlParser::from_str(
        "<x xmlns:n1='https://example.org'><n1:e a='' xmlns:n1='https://example.com'/></x>",
    );
    assert!(matches!(
        expect_event(&mut parser),
        XmlEvent::StartElem {
            tag,
            namespace,
            attrs
        } if tag == QName::new(None, "x")
    ));
    assert!(matches!(
        expect_event(&mut parser),
        XmlEvent::StartElem {
            tag,
            namespace,
            attrs
        } if namespace.as_ref().unwrap().as_str() == "https://example.com"
    ));
}

#[test]
fn test_attr_scoping() {
    let mut parser = SimpleNsXmlParser::from_str(
        "<x xmlns:n1='https://example.org'><e n1:a='' xmlns:n1='https://example.com'/></x>",
    );
    assert!(matches!(
        expect_event(&mut parser),
        XmlEvent::StartElem {
            tag,
            namespace,
            attrs
        } if tag == QName::new(None, "x")
    ));
    assert!(matches!(
        expect_event(&mut parser),
        XmlEvent::StartElem {
            tag,
            namespace,
            attrs
        } if tag == QName::new(None, "e")
            && attrs[0].1.as_ref().unwrap().as_str() == "https://example.com"
    ));
}

#[test]
fn test_elem_default_namespace() {
    let mut parser = SimpleNsXmlParser::from_str(
        "<x xmlns='https://example.org'><x xmlns='https://example.org'><x/></x></x>",
    );
    assert!(matches!(
        expect_event(&mut parser),
        XmlEvent::StartElem {
            tag,
            namespace,
            attrs
        } if namespace.as_ref().unwrap().as_ref() == "https://example.org"
    ));
    assert!(matches!(
        expect_event(&mut parser),
        XmlEvent::StartElem {
            tag,
            namespace,
            attrs
        } if namespace.as_ref().unwrap().as_ref() == "https://example.org"
    ));
    assert!(matches!(
        expect_event(&mut parser),
        XmlEvent::StartElem {
            tag,
            namespace,
            attrs
        } if namespace.as_ref().unwrap().as_ref() == "https://example.org"
    ));
}

#[test]
fn test_elem_no_default_namespace() {
    let mut parser =
        SimpleNsXmlParser::from_str("<x xmlns='https://example.org'><x xmlns=''><x/></x></x>");
    assert!(matches!(
        expect_event(&mut parser),
        XmlEvent::StartElem {
            tag,
            namespace,
            attrs
        } if namespace.as_ref().unwrap().as_ref() == "https://example.org"
    ));
    assert!(matches!(
        expect_event(&mut parser),
        XmlEvent::StartElem {
            tag,
            namespace,
            attrs
        } if namespace == None
    ));
    assert!(matches!(
        expect_event(&mut parser),
        XmlEvent::StartElem {
            tag,
            namespace,
            attrs
        } if namespace == None
    ));
}

#[test]
fn test_legal_unique_attributes() {
    let mut parser = SimpleNsXmlParser::from_str(
        "<x xmlns='https://example.org' xmlns:n1='https://example.org'><x a='' n1:a=''/></x>",
    );
    let ns = Namespace::new("https://example.org");
    assert!(matches!(
        expect_event(&mut parser),
        XmlEvent::StartElem { .. }
    ));
    assert!(matches!(
        expect_event(&mut parser),
        XmlEvent::StartElem {
            tag,
            namespace,
            attrs
        } if attrs[0].1 == None && attrs[1].1 == Some(ns)
    ));
}

#[test]
fn test_unique_attributes() {
    let mut parser = SimpleNsXmlParser::from_str(
        "<x xmlns:n1='https://example.org' xmlns:n2='https://example.org'><x n1:a='' n2:a=''/></x>",
    );
    let ns = Namespace::new("https://example.org");
    assert!(matches!(
        expect_event(&mut parser),
        XmlEvent::StartElem { .. }
    ));
    assert!(matches!(
        expect_error(&mut parser),
        XmlError::NonUniqueAttribute{ attribute } if attribute == "{https://example.org}a"
    ),);
}

#[test]
fn qname_split() {
    let q = QName::from_str("a:b").unwrap();
    assert_eq!(q.prefix(), Some("a"));
    assert_eq!(q.local(), "b");
    assert_eq!(q.to_string(), "a:b");
    let q = QName::from_str("plain").unwrap();
    assert_eq!(q.prefix(), None);
    assert_eq!(q.local(), "plain");
    assert_eq!(q.to_string(), "plain");
    assert_eq!(
        QName::from_str("a:b:c"),
        Err(XmlError::IllegalName { name: "a:b:c".to_string() })
    );
}

#[test]
fn stack_scope_and_pop() {
    let mut stack = NamespaceStack::new();
    assert_eq!(
        stack.resolve("xml").unwrap().as_str(),
        "http://www.w3.org/XML/1998/namespace"
    );
    assert_eq!(stack.resolve_default(), None);
    {
        let mut scope = stack.build_scope();
        scope.add("p", "urn:one".to_string());
        scope.set_default("urn:default".to_string());
        scope.finish();
    }
    assert_eq!(stack.resolve("p"), Some(Namespace::new("urn:one")));
    assert_eq!(stack.resolve_namespace(None), Some(Namespace::new("urn:default")));
    {
        let mut scope = stack.build_scope();
        scope.add("p", "urn:two".to_string());
        scope.reset_default();
        scope.finish();
    }
    assert_eq!(stack.resolve("p"), Some(Namespace::new("urn:two")));
    assert_eq!(stack.resolve_default(), None);
    stack.pop_scope();
    assert_eq!(stack.resolve("p"), Some(Namespace::new("urn:one")));
    assert_eq!(stack.resolve_default(), Some(Namespace::new("urn:default")));
    stack.pop_scope();
    assert_eq!(stack.resolve("p"), None);
    let q = QName::from_str("p:x").unwrap();
    assert_eq!(
        stack.resolve_element_namespace(&q),
        Err(XmlError::UnknownNamespacePrefix("p".to_string()))
    );
    assert_eq!(stack.resolve_attribute_namespace(&QName::new(None, "x")), Ok(None));
}

#[test]
fn ns_unknown_prefix() {
    let mut parser = SimpleNsXmlParser::from_str("<p:e/>");
    assert_eq!(
        expect_error(&mut parser),
        XmlError::UnknownNamespacePrefix("p".to_string())
    );
}

#[test]
fn ns_element_named_xmlns() {
    let mut parser = SimpleNsXmlParser::from_str("<xmlns/>");
    assert_eq!(
        expect_error(&mut parser),
        XmlError::IllegalName { name: "xmlns".to_string() }
    );
}

#[test]
fn ns_end_element_keeps_namespace() {
    let mut parser = SimpleNsXmlParser::from_str("<a:x xmlns:a='urn:a'>text</a:x>");
    assert!(matches!(expect_event(&mut parser), XmlEvent::StartElem { .. }));
    assert!(matches!(
        expect_event(&mut parser),
        XmlEvent::Characters(ref c) if c == "text"
    ));
    assert!(matches!(
        expect_event(&mut parser),
        XmlEvent::EndElem { tag, namespace }
            if tag == QName::new(Some("a"), "x") && namespace == Some(Namespace::new("urn:a"))
    ));
    assert!(parser.parse_next(XmlEventVisitor).unwrap().is_none());
}

#[test]
fn qname_written_and_read_back() {
    for (prefix, local) in [(Some("svg"), "rect"), (None, "rect"), (Some(""), "x"), (None, "")] {
        let q = QName::new(prefix, local);
        let text = q.to_string();
        let back = QName::from_str(&text).unwrap();
        assert_eq!(back.prefix(), prefix);
        assert_eq!(back.local(), local);
    }
    assert_eq!(QName::new(Some("a"), "b").to_string(), "a:b");
}

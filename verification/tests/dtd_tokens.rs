//! Document type declarations read by their token.
use xrs::dtd::{
    ContentParticle, ContentParticleEntry, ContentSpec, EntityDef, ExternalId, IntSubset,
    MarkupDeclEntry, Repetition,
};
use xrs::events::XmlError;
use xrs::parser::cursor::Cursor;
use xrs::parser::Parser;
use xrs::reader::dtd::DocTypeDeclToken;

#[test]
fn pass() {
    let (dtd, cursor) = DocTypeDeclToken
        .parse(Cursor::new("<!DOCTYPE elem>"))
        .unwrap();
    assert!(cursor.is_at_end());
    assert_eq!("elem", dtd.root_element_name())
}

#[test]
fn accept_whitespace() {
    let (dtd, cursor) = DocTypeDeclToken
        .parse(Cursor::new("<!DOCTYPE\t\r\nelem\t\r\n>"))
        .unwrap();
    assert!(cursor.is_at_end());
    assert_eq!("elem", dtd.root_element_name())
}

#[test]
fn fail_invalid_name() {
    let err = DocTypeDeclToken.parse(Cursor::new("<!DOCTYPE $e>"));
    assert_eq!(Err(XmlError::IllegalNameStartChar('$')), err)
}

#[test]
fn pass_system() {
    let (dtd, cursor) = DocTypeDeclToken
        .parse(Cursor::new("<!DOCTYPE e SYSTEM \"abc\">"))
        .unwrap();
    assert!(cursor.is_at_end());
    assert_eq!(
        Some(ExternalId::System {
            system: "abc".to_string()
        }),
        dtd.external_id()
    );
}

#[test]
fn pass_system_single_quote() {
    let (dtd, cursor) = DocTypeDeclToken
        .parse(Cursor::new("<!DOCTYPE e SYSTEM \'abc\'>"))
        .unwrap();
    assert!(cursor.is_at_end());
    assert_eq!(
        Some(ExternalId::System {
            system: "abc".to_string()
        }),
        dtd.external_id()
    );
}

#[test]
fn pass_public() {
    let (dtd, cursor) = DocTypeDeclToken
        .parse(Cursor::new("<!DOCTYPE e PUBLIC \"pubid\" 'system'>"))
        .unwrap();
    assert!(cursor.is_at_end());
    assert_eq!(
        Some(ExternalId::Public {
            pub_id: "pubid".to_string(),
            system: "system".to_string()
        }),
        dtd.external_id()
    );
}

#[test]
fn pass_public_single_quote() {
    let (dtd, cursor) = DocTypeDeclToken
        .parse(Cursor::new("<!DOCTYPE e PUBLIC 'pubid' 'system'>"))
        .unwrap();
    assert!(cursor.is_at_end());
    assert_eq!(
        Some(ExternalId::Public {
            pub_id: "pubid".to_string(),
            system: "system".to_string()
        }),
        dtd.external_id()
    );
}

#[test]
fn fail_invalid_pubid() {
    let result = DocTypeDeclToken.parse(Cursor::new("<!DOCTYPE e PUBLIC '{}' 'system'>"));
    assert!(result.is_err()); // TODO
}

#[test]
fn fail_missing_system_id() {
    let result = DocTypeDeclToken.parse(Cursor::new("<!DOCTYPE e PUBLIC 'public'>"));
    assert!(result.is_err()); // TODO
}

#[test]
fn dtd_empty() {
    let (dtd, cursor) = DocTypeDeclToken
        .parse(Cursor::new("<!DOCTYPE e [ <!ELEMENT br EMPTY> ]>"))
        .unwrap();
    assert!(cursor.is_at_end());
    assert_eq!(
        &Some(IntSubset::new(vec![MarkupDeclEntry::new_element(
            "br".to_string(),
            ContentSpec::Empty
        )])),
        dtd.internal_subset()
    );
}

#[test]
fn any() {
    let (dtd, cursor) = DocTypeDeclToken
        .parse(Cursor::new("<!DOCTYPE e [ <!ELEMENT container ANY> ]>"))
        .unwrap();
    assert!(cursor.is_at_end());
    assert_eq!(
        &Some(IntSubset::new(vec![MarkupDeclEntry::new_element(
            "container".to_string(),
            ContentSpec::Any
        )])),
        dtd.internal_subset()
    );
}

#[test]
fn mixed_data_1() {
    let (dtd, cursor) = DocTypeDeclToken
        .parse(Cursor::new(
            "<!DOCTYPE greeting [ <!ELEMENT greeting (#PCDATA)> ]>",
        ))
        .unwrap();
    assert!(cursor.is_at_end());
    assert_eq!(
        &Some(IntSubset::new(vec![MarkupDeclEntry::new_element(
            "greeting".to_string(),
            ContentSpec::PCData
        )])),
        dtd.internal_subset()
    );
}

#[test]
fn mixed_data_2() {
    let (dtd, cursor) = DocTypeDeclToken
        .parse(Cursor::new(
            "<!DOCTYPE e [ <!ELEMENT p (#PCDATA|emph)* > ]>",
        ))
        .unwrap();
    assert!(cursor.is_at_end());
    assert_eq!(
        &Some(IntSubset::new(vec![MarkupDeclEntry::new_element(
            "p".to_string(),
            ContentSpec::Mixed(vec!["emph".to_string()])
        )])),
        dtd.internal_subset()
    );
}

#[test]
fn mixed_data_3() {
    let (dtd, cursor) = DocTypeDeclToken
        .parse(Cursor::new(
            "<!DOCTYPE e [ <!ELEMENT p (#PCDATA|a|ul|b|i|em)*> ]>",
        ))
        .unwrap();
    assert!(cursor.is_at_end());
    assert_eq!(
        &Some(IntSubset::new(vec![MarkupDeclEntry::new_element(
            "p".to_string(),
            ContentSpec::Mixed(vec![
                "a".to_string(),
                "ul".to_string(),
                "b".to_string(),
                "i".to_string(),
                "em".to_string()
            ])
        )])),
        dtd.internal_subset()
    );
}

#[test]
fn element_content_1() {
    let (dtd, cursor) = DocTypeDeclToken
        .parse(Cursor::new(
            "<!DOCTYPE e [ <!ELEMENT spec (front, body, back?)> ]>",
        ))
        .unwrap();
    assert!(cursor.is_at_end());
    assert_eq!(
        &Some(IntSubset::new(vec![MarkupDeclEntry::new_element(
            "spec".to_string(),
            ContentSpec::Children(ContentParticle {
                entry: ContentParticleEntry::Sequence(vec![
                    ContentParticle {
                        entry: ContentParticleEntry::Name("front".to_string()),
                        repetition: Repetition::One
                    },
                    ContentParticle {
                        entry: ContentParticleEntry::Name("body".to_string()),
                        repetition: Repetition::One
                    },
                    ContentParticle {
                        entry: ContentParticleEntry::Name("back".to_string()),
                        repetition: Repetition::ZeroOrOne
                    }
                ]),
                repetition: Repetition::One
            })
        )])),
        dtd.internal_subset()
    );
}

#[test]
fn element_content_2() {
    let (dtd, cursor) = DocTypeDeclToken
        .parse(Cursor::new(
            "<!DOCTYPE e [ <!ELEMENT div1 (head, (p | list | note)*, div2*)> ]>",
        ))
        .unwrap();
    assert!(cursor.is_at_end());
    assert_eq!(
        &Some(IntSubset::new(vec![MarkupDeclEntry::new_element(
            "div1".to_string(),
            ContentSpec::Children(ContentParticle {
                entry: ContentParticleEntry::Sequence(vec![
                    ContentParticle {
                        entry: ContentParticleEntry::Name("head".to_string()),
                        repetition: Repetition::One
                    },
                    ContentParticle {
                        entry: ContentParticleEntry::Choice(vec![
                            ContentParticle {
                                entry: ContentParticleEntry::Name("p".to_string()),
                                repetition: Repetition::One
                            },
                            ContentParticle {
                                entry: ContentParticleEntry::Name("list".to_string()),
                                repetition: Repetition::One
                            },
                            ContentParticle {
                                entry: ContentParticleEntry::Name("note".to_string()),
                                repetition: Repetition::One
                            }
                        ]),
                        repetition: Repetition::ZeroOrMore
                    },
                    ContentParticle {
                        entry: ContentParticleEntry::Name("div2".to_string()),
                        repetition: Repetition::ZeroOrMore
                    }
                ]),
                repetition: Repetition::One
            })
        )])),
        dtd.internal_subset()
    );
}

#[test]
fn internal() {
    let (dtd, cursor) = DocTypeDeclToken
        .parse(Cursor::new(
            "<!DOCTYPE e [ <!ENTITY Pub-Status \"This is a pre-release of the specification.\"> ]>",
        ))
        .unwrap();
    assert!(cursor.is_at_end());
    assert_eq!(
        &Some(IntSubset::new(vec![MarkupDeclEntry::new_entity(
            "Pub-Status".to_string(),
            EntityDef::Internal("This is a pre-release of the specification.".to_string())
        )])),
        dtd.internal_subset()
    );
}

#[test]
fn external1() {
    let (dtd, cursor) = DocTypeDeclToken
        .parse(Cursor::new(
            "<!DOCTYPE e [ <!ENTITY open-hatch SYSTEM \"http://www.textuality.com/boilerplate/OpenHatch.xml\"> ]>",
        ))
        .unwrap();
    assert!(cursor.is_at_end());
    assert_eq!(
        &Some(IntSubset::new(vec![MarkupDeclEntry::new_entity(
            "open-hatch".to_string(),
            EntityDef::External {
                external_id: ExternalId::System {
                    system: "http://www.textuality.com/boilerplate/OpenHatch.xml"
                        .to_string()
                },
                ndata: None
            }
        )])),
        dtd.internal_subset()
    );
}

#[test]
fn external2() {
    let (dtd, cursor) = DocTypeDeclToken
        .parse(Cursor::new(
            "<!DOCTYPE e [ <!ENTITY open-hatch PUBLIC \"-//Textuality//TEXT Standard open-hatch boilerplate//EN\" \"http://www.textuality.com/boilerplate/OpenHatch.xml\"> ]>",
        ))
        .unwrap();
    assert!(cursor.is_at_end());
    assert_eq!(
        &Some(IntSubset::new(vec![MarkupDeclEntry::new_entity(
            "open-hatch".to_string(),
            EntityDef::External {
                external_id: ExternalId::Public {
                    pub_id: "-//Textuality//TEXT Standard open-hatch boilerplate//EN"
                        .to_string(),
                    system: "http://www.textuality.com/boilerplate/OpenHatch.xml"
                        .to_string()
                },
                ndata: None
            }
        )])),
        dtd.internal_subset()
    );
}

#[test]
fn external3() {
    let (dtd, cursor) = DocTypeDeclToken
        .parse(Cursor::new(
            "<!DOCTYPE e [ <!ENTITY hatch-pic SYSTEM \"../grafix/OpenHatch.gif\" NDATA gif> ]>",
        ))
        .unwrap();
    assert!(cursor.is_at_end());
    assert_eq!(
        &Some(IntSubset::new(vec![MarkupDeclEntry::new_entity(
            "hatch-pic".to_string(),
            EntityDef::External {
                external_id: ExternalId::System {
                    system: "../grafix/OpenHatch.gif".to_string()
                },
                ndata: Some("gif".to_string())
            }
        )])),
        dtd.internal_subset()
    );
}

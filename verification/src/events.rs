//! Events of the pull parsers and their errors.
use std::borrow::Cow;

use vstd::prelude::*;

use crate::dtd::{DocTypeDecl, DocTypeDeclV};

verus! {

/// The text that a `Cow<str>` holds, borrowed or owned.
pub fn cow_str<'b, 'a>(c: &'b Cow<'a, str>) -> (r: &'b str)
    ensures
        r@ == c@,
{
    match c {
        Cow::Borrowed(b) => b,
        Cow::Owned(o) => o.as_str(),
    }
}

/// XML Declaration
#[derive(Clone, Debug, PartialEq)]
pub struct XmlDecl {
    pub version: String,
    pub encoding: Option<String>,
    pub standalone: Option<bool>,
}

impl XmlDecl {
    pub fn version(&self) -> (r: &str)
        ensures
            r@ == self.version@,
    {
        self.version.as_str()
    }

    pub fn encoding(&self) -> (r: Option<&str>)
        ensures
            r.is_some() == self.encoding.is_some(),
            r.is_some() ==> r.unwrap()@ == self.encoding.unwrap()@,
    {
        match &self.encoding {
            Some(encoding) => Some(encoding.as_str()),
            None => None,
        }
    }

    pub fn standalone(&self) -> (r: Option<bool>)
        ensures
            r == self.standalone,
    {
        self.standalone
    }
}

/// Start tag
#[derive(Debug, PartialEq)]
pub struct STag<'a> {
    pub name: Cow<'a, str>,
    pub empty: bool,
    pub attrs: Vec<Attribute<'a>>,
}

impl<'a> STag<'a> {
    pub fn name(&self) -> (r: &str)
        ensures
            r@ == self.name@,
    {
        cow_str(&self.name)
    }

    pub fn empty(&self) -> (r: bool)
        ensures
            r == self.empty,
    {
        self.empty
    }

    pub fn attributes(&self) -> (r: &[Attribute<'a>])
        ensures
            r@ == self.attrs@,
    {
        self.attrs.as_slice()
    }
}

/// Attribute
#[derive(Debug, PartialEq)]
pub struct Attribute<'a> {
    pub name: Cow<'a, str>,
    pub value: Cow<'a, str>,
}

impl<'a> Attribute<'a> {
    pub fn new(name: &'a str, value: &'a str) -> (r: Self)
        ensures
            r.name@ == name@,
            r.value@ == value@,
    {
        Self { name: Cow::Borrowed(name), value: Cow::Borrowed(value) }
    }

    pub fn value(&self) -> (r: &str)
        ensures
            r@ == self.value@,
    {
        cow_str(&self.value)
    }

    pub fn name(&self) -> (r: &str)
        ensures
            r@ == self.name@,
    {
        cow_str(&self.name)
    }
}


/// The text of a `Cow<str>` as an owned `Cow`.
pub fn cow_clone<'a>(c: &Cow<'a, str>) -> (r: Cow<'a, str>)
    ensures
        r@ == c@,
{
    match c {
        Cow::Borrowed(b) => Cow::Borrowed(*b),
        Cow::Owned(o) => Cow::Owned(o.clone()),
    }
}

/// An owned copy of the text of a `Cow<str>`.
pub fn cow_into_owned<'a>(c: Cow<'a, str>) -> (r: Cow<'static, str>)
    ensures
        r@ == c@,
        r is Owned,
{
    match c {
        Cow::Borrowed(b) => Cow::Owned(b.to_owned()),
        Cow::Owned(o) => Cow::Owned(o),
    }
}

impl<'a> Attribute<'a> {
    pub fn value_cow(&self) -> (r: Cow<'a, str>)
        ensures
            r@ == self.value@,
    {
        cow_clone(&self.value)
    }

    pub fn name_cow(&self) -> (r: Cow<'a, str>)
        ensures
            r@ == self.name@,
    {
        cow_clone(&self.name)
    }

    pub fn into_owned(self) -> (r: Attribute<'static>)
        ensures
            r.name@ == self.name@,
            r.value@ == self.value@,
    {
        Attribute { name: cow_into_owned(self.name), value: cow_into_owned(self.value) }
    }
}

/// The names and values of attributes.
pub open spec fn attrs_view<'a>(attrs: Seq<Attribute<'a>>) -> Seq<(Seq<char>, Seq<char>)> {
    attrs.map_values(|a: Attribute<'a>| (a.name@, a.value@))
}

impl<'a> STag<'a> {
    /// An owned copy of the tag; like the tag it is made from, the copy is not marked empty.
    pub fn into_owned(self) -> (r: STag<'static>)
        ensures
            r.name@ == self.name@,
            r.empty == false,
            attrs_view(r.attrs@) == attrs_view(self.attrs@),
    {
        let STag { name, empty: _, attrs } = self;
        let mut owned: Vec<Attribute<'static>> = Vec::new();
        for attr in iter: attrs.into_iter()
            invariant
                owned@.len() == iter.index(),
                iter.seq() == self.attrs@,
                attrs_view(owned@) == attrs_view(iter.seq().take(iter.index() as int)),
                attrs_view(owned@) == attrs_view(self.attrs@.take(owned@.len() as int)),
        {
            let ghost before = owned@;
            owned.push(attr.into_owned());
            proof {
                assert(iter.seq().take(iter.index() + 1) =~= iter.seq().take(
                    iter.index() as int,
                ).push(attr));
                assert(attrs_view(owned@) =~= attrs_view(before).push((attr.name@, attr.value@)));
            }
        }
        assert(self.attrs@.take(owned@.len() as int) =~= self.attrs@);
        STag { name: cow_into_owned(name), empty: false, attrs: owned }
    }
}


/// End tag
#[derive(Debug, PartialEq)]
pub struct ETag<'a> {
    pub name: Cow<'a, str>,
}

impl<'a> ETag<'a> {
    pub fn name(&self) -> (r: &str)
        ensures
            r@ == self.name@,
    {
        cow_str(&self.name)
    }

    pub fn into_owned(self) -> (r: ETag<'static>)
        ensures
            r.name@ == self.name@,
    {
        ETag { name: cow_into_owned(self.name) }
    }
}

/// Processing Instruction
#[derive(Debug, PartialEq)]
pub struct PI<'a> {
    pub target: Cow<'a, str>,
    pub data: Option<Cow<'a, str>>,
}

/// The text of an optional `Cow<str>`.
pub open spec fn opt_view<'a>(o: Option<Cow<'a, str>>) -> Option<Seq<char>> {
    match o {
        Some(c) => Some(c@),
        None => None,
    }
}

impl<'a> PI<'a> {
    pub fn target(&self) -> (r: &str)
        ensures
            r@ == self.target@,
    {
        cow_str(&self.target)
    }

    pub fn data(&self) -> (r: Option<&str>)
        ensures
            r.is_some() == self.data.is_some(),
            r.is_some() ==> r.unwrap()@ == self.data.unwrap()@,
    {
        match &self.data {
            Some(d) => Some(cow_str(d)),
            None => None,
        }
    }

    pub fn into_owned(self) -> (r: PI<'static>)
        ensures
            r.target@ == self.target@,
            opt_view(r.data) == opt_view(self.data),
    {
        let PI { target, data } = self;
        PI {
            target: cow_into_owned(target),
            data: match data {
                Some(d) => Some(cow_into_owned(d)),
                None => None,
            },
        }
    }
}

/// Event of Pull Parser
#[derive(Debug, PartialEq)]
pub enum XmlEvent<'a> {
    XmlDecl(XmlDecl),
    Dtd(Box<DocTypeDecl>),
    STag(STag<'a>),
    ETag(ETag<'a>),
    Characters(Cow<'a, str>),
    PI(PI<'a>),
    Comment(Cow<'a, str>),
}

/// The text of an optional string.
pub open spec fn opt_string_view(o: Option<String>) -> Option<Seq<char>> {
    match o {
        Some(c) => Some(c@),
        None => None,
    }
}

/// The text of an optional string slice.
pub open spec fn opt_str_view(o: Option<&str>) -> Option<Seq<char>> {
    match o {
        Some(c) => Some(c@),
        None => None,
    }
}

impl<'a> XmlEvent<'a> {
    pub fn decl(version: &'a str, encoding: Option<&'a str>, standalone: Option<bool>) -> (r: Self)
        ensures
            r matches XmlEvent::XmlDecl(d) && d.version@ == version@ && opt_string_view(d.encoding)
                == opt_str_view(encoding) && d.standalone == standalone,
    {
        XmlEvent::XmlDecl(
            XmlDecl {
                version: version.to_owned(),
                encoding: match encoding {
                    Some(enc) => Some(enc.to_owned()),
                    None => None,
                },
                standalone,
            },
        )
    }

    pub fn stag(name: &'a str, empty: bool) -> (r: Self)
        ensures
            r matches XmlEvent::STag(t) && t.name@ == name@ && t.empty == empty && t.attrs@.len()
                == 0,
    {
        XmlEvent::STag(STag { name: Cow::Borrowed(name), empty, attrs: Vec::new() })
    }

    pub fn stag_with_attrs(name: &'a str, empty: bool, attrs: Vec<Attribute<'a>>) -> (r: Self)
        ensures
            r matches XmlEvent::STag(t) && t.name@ == name@ && t.empty == empty && t.attrs@
                == attrs@,
    {
        XmlEvent::STag(STag { name: Cow::Borrowed(name), empty, attrs })
    }

    pub fn characters(chars: &'a str) -> (r: Self)
        ensures
            r matches XmlEvent::Characters(c) && c@ == chars@,
    {
        XmlEvent::Characters(Cow::Borrowed(chars))
    }

    pub fn etag(name: &'a str) -> (r: Self)
        ensures
            r matches XmlEvent::ETag(t) && t.name@ == name@,
    {
        XmlEvent::ETag(ETag { name: Cow::Borrowed(name) })
    }

    pub fn comment(comment: &'a str) -> (r: Self)
        ensures
            r matches XmlEvent::Comment(c) && c@ == comment@,
    {
        XmlEvent::Comment(Cow::Borrowed(comment))
    }

    pub fn pi(target: &'a str, data: Option<Cow<'a, str>>) -> (r: Self)
        ensures
            r matches XmlEvent::PI(p) && p.target@ == target@ && opt_view(p.data) == opt_view(
                data,
            ),
    {
        XmlEvent::PI(PI { target: Cow::Borrowed(target), data })
    }

    /// An owned copy of the event; like `STag::into_owned`, it does not keep a
    /// start tag's mark of being empty.
    pub fn into_owned(self) -> (r: XmlEvent<'static>)
        ensures
            event_view(r) == owned_event_view(self),
    {
        match self {
            XmlEvent::XmlDecl(v) => XmlEvent::XmlDecl(v),
            XmlEvent::Dtd(v) => XmlEvent::Dtd(v),
            XmlEvent::STag(v) => XmlEvent::STag(v.into_owned()),
            XmlEvent::ETag(v) => XmlEvent::ETag(v.into_owned()),
            XmlEvent::Characters(v) => XmlEvent::Characters(cow_into_owned(v)),
            XmlEvent::PI(v) => XmlEvent::PI(v.into_owned()),
            XmlEvent::Comment(v) => XmlEvent::Comment(cow_into_owned(v)),
        }
    }
}

/// The abstract content of an event.
pub enum EventV {
    XmlDecl { version: Seq<char>, encoding: Option<Seq<char>>, standalone: Option<bool> },
    Dtd(DocTypeDeclV),
    STag { name: Seq<char>, empty: bool, attrs: Seq<(Seq<char>, Seq<char>)> },
    ETag(Seq<char>),
    Characters(Seq<char>),
    PI { target: Seq<char>, data: Option<Seq<char>> },
    Comment(Seq<char>),
}

pub open spec fn event_view<'a>(e: XmlEvent<'a>) -> EventV {
    match e {
        XmlEvent::XmlDecl(d) => EventV::XmlDecl {
            version: d.version@,
            encoding: opt_string_view(d.encoding),
            standalone: d.standalone,
        },
        XmlEvent::Dtd(d) => EventV::Dtd(d@),
        XmlEvent::STag(t) => EventV::STag {
            name: t.name@,
            empty: t.empty,
            attrs: attrs_view(t.attrs@),
        },
        XmlEvent::ETag(t) => EventV::ETag(t.name@),
        XmlEvent::Characters(c) => EventV::Characters(c@),
        XmlEvent::PI(p) => EventV::PI { target: p.target@, data: opt_view(p.data) },
        XmlEvent::Comment(c) => EventV::Comment(c@),
    }
}

/// The content of an event after `into_owned`.
pub open spec fn owned_event_view<'a>(e: XmlEvent<'a>) -> EventV {
    match e {
        XmlEvent::STag(t) => EventV::STag { name: t.name@, empty: false, attrs: attrs_view(t.attrs@) },
        _ => event_view(e),
    }
}

#[derive(Debug, PartialEq, Eq, Clone, Copy)]
pub enum XmlErrorAtom {
    XmlDecl,
    CData,
    Comment,
    PI,
    Markup,
    Element,
    Whitespace,
}

/// Fatal DTD parsing error
#[derive(Debug, PartialEq, Eq, Clone, Copy)]
pub enum XmlDtdError {
    SyntaxError,
    Unsupported,
}

/// Fatal parsing error
#[derive(Debug, PartialEq)]
pub enum XmlError {
    IllegalNameStartChar(char),
    IllegalChar(char),
    ExpectedElementStart,
    ExpectedElementEnd,
    ExpectedAttrName,
    ExpectedAttrValue,
    ExpectedName,
    ExpectedEquals,
    ExpectedDocumentEnd,
    Expected(Box<[XmlErrorAtom]>),
    ExpectedWhitespace,
    WrongETagName { expected_name: String },
    UnexpectedEof,
    IllegalCDataSectionEnd,
    UnexpectedDtdEntry,
    ETagAfterRootElement,
    OpenElementAtEof,
    NonUniqueAttribute { attribute: String },
    IllegalName { name: String },
    InvalidCharacterReference(String),
    InvalidCharacter(char),
    IllegalReference,
    UnknownEntity(String),
    ExpectToken(&'static str),
    IllegalAttributeValue(&'static str),
    UnsupportedEncoding(String),
    DtdError(XmlDtdError),
    /// Processing Instruction target should not be `xml` (case-insensitive)
    InvalidPITarget,
    UnexpectedCharacter(char),
    CommentColonColon,
    UnknownNamespacePrefix(String),
    IllegalNamespaceUri(String),
    Io(String),
    Decoding(String),
    UnsupportedVersion(String),
}

/// The abstract content of an error: texts as character sequences.
pub enum XmlErrorV {
    IllegalNameStartChar(char),
    IllegalChar(char),
    ExpectedElementStart,
    ExpectedElementEnd,
    ExpectedAttrName,
    ExpectedAttrValue,
    ExpectedName,
    ExpectedEquals,
    ExpectedDocumentEnd,
    Expected(Seq<XmlErrorAtom>),
    ExpectedWhitespace,
    WrongETagName(Seq<char>),
    UnexpectedEof,
    IllegalCDataSectionEnd,
    UnexpectedDtdEntry,
    ETagAfterRootElement,
    OpenElementAtEof,
    NonUniqueAttribute(Seq<char>),
    IllegalName(Seq<char>),
    InvalidCharacterReference(Seq<char>),
    InvalidCharacter(char),
    IllegalReference,
    UnknownEntity(Seq<char>),
    ExpectToken(Seq<char>),
    IllegalAttributeValue(Seq<char>),
    UnsupportedEncoding(Seq<char>),
    DtdError(XmlDtdError),
    InvalidPITarget,
    UnexpectedCharacter(char),
    CommentColonColon,
    UnknownNamespacePrefix(Seq<char>),
    IllegalNamespaceUri(Seq<char>),
    Io(Seq<char>),
    Decoding(Seq<char>),
    UnsupportedVersion(Seq<char>),
}

impl View for XmlError {
    type V = XmlErrorV;

    open spec fn view(&self) -> XmlErrorV {
        match self {
            XmlError::IllegalNameStartChar(c) => XmlErrorV::IllegalNameStartChar(*c),
            XmlError::IllegalChar(c) => XmlErrorV::IllegalChar(*c),
            XmlError::ExpectedElementStart => XmlErrorV::ExpectedElementStart,
            XmlError::ExpectedElementEnd => XmlErrorV::ExpectedElementEnd,
            XmlError::ExpectedAttrName => XmlErrorV::ExpectedAttrName,
            XmlError::ExpectedAttrValue => XmlErrorV::ExpectedAttrValue,
            XmlError::ExpectedName => XmlErrorV::ExpectedName,
            XmlError::ExpectedEquals => XmlErrorV::ExpectedEquals,
            XmlError::ExpectedDocumentEnd => XmlErrorV::ExpectedDocumentEnd,
            XmlError::Expected(atoms) => XmlErrorV::Expected(atoms@),
            XmlError::ExpectedWhitespace => XmlErrorV::ExpectedWhitespace,
            XmlError::WrongETagName { expected_name } => XmlErrorV::WrongETagName(
                expected_name@,
            ),
            XmlError::UnexpectedEof => XmlErrorV::UnexpectedEof,
            XmlError::IllegalCDataSectionEnd => XmlErrorV::IllegalCDataSectionEnd,
            XmlError::UnexpectedDtdEntry => XmlErrorV::UnexpectedDtdEntry,
            XmlError::ETagAfterRootElement => XmlErrorV::ETagAfterRootElement,
            XmlError::OpenElementAtEof => XmlErrorV::OpenElementAtEof,
            XmlError::NonUniqueAttribute { attribute } => XmlErrorV::NonUniqueAttribute(
                attribute@,
            ),
            XmlError::IllegalName { name } => XmlErrorV::IllegalName(name@),
            XmlError::InvalidCharacterReference(s) => XmlErrorV::InvalidCharacterReference(s@),
            XmlError::InvalidCharacter(c) => XmlErrorV::InvalidCharacter(*c),
            XmlError::IllegalReference => XmlErrorV::IllegalReference,
            XmlError::UnknownEntity(s) => XmlErrorV::UnknownEntity(s@),
            XmlError::ExpectToken(s) => XmlErrorV::ExpectToken(s@),
            XmlError::IllegalAttributeValue(s) => XmlErrorV::IllegalAttributeValue(s@),
            XmlError::UnsupportedEncoding(s) => XmlErrorV::UnsupportedEncoding(s@),
            XmlError::DtdError(e) => XmlErrorV::DtdError(*e),
            XmlError::InvalidPITarget => XmlErrorV::InvalidPITarget,
            XmlError::UnexpectedCharacter(c) => XmlErrorV::UnexpectedCharacter(*c),
            XmlError::CommentColonColon => XmlErrorV::CommentColonColon,
            XmlError::UnknownNamespacePrefix(s) => XmlErrorV::UnknownNamespacePrefix(s@),
            XmlError::IllegalNamespaceUri(s) => XmlErrorV::IllegalNamespaceUri(s@),
            XmlError::Io(s) => XmlErrorV::Io(s@),
            XmlError::Decoding(s) => XmlErrorV::Decoding(s@),
            XmlError::UnsupportedVersion(s) => XmlErrorV::UnsupportedVersion(s@),
        }
    }
}

} // verus!

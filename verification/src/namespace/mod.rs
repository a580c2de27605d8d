//! Namespaces over the pull reader: qualified names, namespace declarations and the
//! events of the namespace-aware reader.
use std::borrow::Cow;

use vstd::prelude::*;

use crate::dtd::{DocTypeDecl, DocTypeDeclV};
use crate::events::{cow_clone, cow_str, opt_string_view, opt_view, XmlDecl, XmlError, XmlErrorV, PI};
use crate::simple::namespace::{spec_qname, QNameV};

pub mod parser;
pub mod stack;

verus! {

/// Qualified Name
///
/// Name with namespace prefix and local part
#[derive(Debug, PartialEq)]
pub struct QName<'a> {
    pub prefix: Option<Cow<'a, str>>,
    pub local_part: Cow<'a, str>,
}

/// The prefix, where there is one, and the local part borrow the text they were read
/// from.
pub open spec fn parts_borrowed<'a>(q: QName<'a>) -> bool {
    &&& q.local_part matches Cow::Borrowed(_)
    &&& q.prefix matches Some(p) ==> p matches Cow::Borrowed(_)
}

/// The prefix, where there is one, and the local part are owned.
pub open spec fn parts_owned<'a>(q: QName<'a>) -> bool {
    &&& q.local_part matches Cow::Owned(_)
    &&& q.prefix matches Some(p) ==> p matches Cow::Owned(_)
}

impl<'a> View for QName<'a> {
    type V = QNameV;

    open spec fn view(&self) -> QNameV {
        QNameV { prefix: opt_view(self.prefix), local: self.local_part@ }
    }
}

/// A copy of a name that holds the same text.
pub fn qname_clone<'a>(q: &QName<'a>) -> (r: QName<'a>)
    ensures
        r@ == q@,
{
    QName {
        prefix: match &q.prefix {
            Some(p) => Some(cow_clone(p)),
            None => None,
        },
        local_part: cow_clone(&q.local_part),
    }
}

impl<'a> Clone for QName<'a> {
    fn clone(&self) -> (r: Self)
        ensures
            r@ == self@,
    {
        qname_clone(self)
    }
}

impl<'a> Clone for NsSTag<'a> {
    fn clone(&self) -> (r: Self)
        ensures
            r.qname@ == self.qname@,
            r.empty == self.empty,
    {
        NsSTag { qname: qname_clone(&self.qname), empty: self.empty }
    }
}

impl<'a> Clone for NsAttribute<'a> {
    fn clone(&self) -> (r: Self)
        ensures
            r.qname@ == self.qname@,
            r.value@ == self.value@,
    {
        NsAttribute { qname: qname_clone(&self.qname), value: cow_clone(&self.value) }
    }
}

impl<'a> Clone for STagEnd<'a> {
    fn clone(&self) -> (r: Self)
        ensures
            r.qname@ == self.qname@,
    {
        STagEnd { qname: qname_clone(&self.qname) }
    }
}

impl<'a> Clone for NsETag<'a> {
    fn clone(&self) -> (r: Self)
        ensures
            r@ == self@,
    {
        NsETag { qname: qname_clone(&self.qname) }
    }
}

impl<'a> QName<'a> {
    /// Splits a name at its colon, borrowed or owned as the name is.
    pub fn from_cow(input: Cow<'a, str>) -> (r: Result<Self, XmlError>)
        ensures
            match r {
                Ok(q) => spec_qname(input@) == Ok::<QNameV, XmlErrorV>(q@),
                Err(e) => spec_qname(input@) == Err::<QNameV, XmlErrorV>(e@),
            },
            r matches Ok(q) ==> (input matches Cow::Borrowed(_) ==> parts_borrowed(q)),
            r matches Ok(q) ==> (input matches Cow::Owned(_) ==> parts_owned(q)),
    {
        match input {
            Cow::Borrowed(borrowed) => Self::from_str(borrowed),
            Cow::Owned(owned) => Self::from_string(owned),
        }
    }

    /// Splits an owned name at its colon: `prefix:local`, or the local part alone; a
    /// second colon makes the name illegal.
    pub fn from_string(input: String) -> (r: Result<Self, XmlError>)
        ensures
            match r {
                Ok(q) => spec_qname(input@) == Ok::<QNameV, XmlErrorV>(q@),
                Err(e) => spec_qname(input@) == Err::<QNameV, XmlErrorV>(e@),
            },
            r matches Ok(q) ==> parts_owned(q),
    {
        let split = crate::simple::namespace::QName::from_str(input.as_str())?;
        let prefix = match split.prefix() {
            Some(p) => Some(Cow::Owned(p.to_owned())),
            None => None,
        };
        let local_part = Cow::Owned(split.local().to_owned());
        Ok(QName { prefix, local_part })
    }

    /// Splits a borrowed name at its colon: `prefix:local`, or the local part alone; a
    /// second colon makes the name illegal.
    pub fn from_str(input: &'a str) -> (r: Result<Self, XmlError>)
        ensures
            match r {
                Ok(q) => spec_qname(input@) == Ok::<QNameV, XmlErrorV>(q@),
                Err(e) => spec_qname(input@) == Err::<QNameV, XmlErrorV>(e@),
            },
            r matches Ok(q) ==> parts_borrowed(q),
    {
        let split = crate::simple::namespace::QName::from_str(input)?;
        let prefix = match split.prefix() {
            Some(p) => Some(Cow::Borrowed(p)),
            None => None,
        };
        Ok(QName { prefix, local_part: Cow::Borrowed(split.local()) })
    }
}

/// A namespace declared in a scope: its prefix, or none for the default namespace, and
/// its URI.
pub struct NamespaceDecl {
    prefix: Option<String>,
    uri: String,
}

impl View for NamespaceDecl {
    type V = (Option<Seq<char>>, Seq<char>);

    closed spec fn view(&self) -> (Option<Seq<char>>, Seq<char>) {
        (opt_string_view(self.prefix), self.uri@)
    }
}

impl NamespaceDecl {
    fn new(prefix: Option<String>, uri: String) -> (r: Self)
        ensures
            r@ == (opt_string_view(prefix), uri@),
    {
        Self { prefix, uri }
    }

    fn has_prefix(&self) -> (r: bool)
        ensures
            r == self@.0 is Some,
    {
        self.prefix.is_some()
    }

    fn uri(&self) -> (r: &str)
        ensures
            r@ == self@.1,
    {
        self.uri.as_str()
    }
}

#[derive(Debug, PartialEq)]
pub struct NsSTag<'a> {
    pub qname: QName<'a>,
    pub empty: bool,
}

#[derive(Debug, PartialEq)]
pub struct NsAttribute<'a> {
    pub qname: QName<'a>,
    pub value: Cow<'a, str>,
}

impl<'a> NsAttribute<'a> {
    pub fn new(qname: QName<'a>, value: Cow<'a, str>) -> (r: Self)
        ensures
            r.qname@ == qname@,
            r.value@ == value@,
    {
        Self { qname, value }
    }

    pub fn value(&self) -> (r: &str)
        ensures
            r@ == self.value@,
    {
        cow_str(&self.value)
    }

    pub fn qname(&self) -> (r: QName<'a>)
        ensures
            r@ == self.qname@,
    {
        qname_clone(&self.qname)
    }
}

#[derive(Debug, PartialEq)]
pub struct STagEnd<'a> {
    pub qname: QName<'a>,
}

impl<'a> STagEnd<'a> {
    pub fn qname(&self) -> (r: QName<'a>)
        ensures
            r@ == self.qname@,
    {
        qname_clone(&self.qname)
    }
}

#[derive(Debug, PartialEq)]
pub struct NsETag<'a> {
    qname: QName<'a>,
}

impl<'a> View for NsETag<'a> {
    type V = QNameV;

    closed spec fn view(&self) -> QNameV {
        self.qname@
    }
}

impl<'a> NsETag<'a> {
    fn new(qname: QName<'a>) -> (r: Self)
        ensures
            r@ == qname@,
    {
        Self { qname }
    }

    pub fn name(&self) -> (r: QName<'a>)
        ensures
            r@ == self@,
    {
        qname_clone(&self.qname)
    }
}

/// XML event with namespace parsing
#[derive(Debug, PartialEq)]
pub enum XmlNsEvent<'a> {
    XmlDecl(XmlDecl),
    Dtd(Box<DocTypeDecl>),
    STag(NsSTag<'a>),
    ETag(NsETag<'a>),
    Characters(Cow<'a, str>),
    PI(PI<'a>),
    Comment(Cow<'a, str>),
}

/// The abstract content of an event with qualified names.
pub enum NsEventV {
    XmlDecl { version: Seq<char>, encoding: Option<Seq<char>>, standalone: Option<bool> },
    Dtd(DocTypeDeclV),
    STag { qname: QNameV, empty: bool },
    ETag(QNameV),
    Characters(Seq<char>),
    PI { target: Seq<char>, data: Option<Seq<char>> },
    Comment(Seq<char>),
}

pub open spec fn ns_event_view<'a>(e: XmlNsEvent<'a>) -> NsEventV {
    match e {
        XmlNsEvent::XmlDecl(d) => NsEventV::XmlDecl {
            version: d.version@,
            encoding: opt_string_view(d.encoding),
            standalone: d.standalone,
        },
        XmlNsEvent::Dtd(d) => NsEventV::Dtd(d@),
        XmlNsEvent::STag(t) => NsEventV::STag { qname: t.qname@, empty: t.empty },
        XmlNsEvent::ETag(t) => NsEventV::ETag(t@),
        XmlNsEvent::Characters(c) => NsEventV::Characters(c@),
        XmlNsEvent::PI(p) => NsEventV::PI { target: p.target@, data: opt_view(p.data) },
        XmlNsEvent::Comment(c) => NsEventV::Comment(c@),
    }
}

} // verus!

//! Documents and their elements.
use vstd::prelude::*;

use crate::dom::error::{Error, Reason};
use crate::dom::Span;

verus! {

/// A document: its bytes and its root element.
pub struct Document<'a> {
    bytes: &'a [u8],
    root: Element,
}

/// An element: where it starts, the spans of its tag, its text, the text after it and its
/// attributes, its children and its namespace declarations.
pub struct Element {
    offset: usize,
    tag: Span,
    text: Span,
    tail: Span,
    children: Vec<Element>,
    attributes: Span,
    namespaces: Option<Vec<(Span, Span)>>,
}

impl<'a> Document<'a> {
    /// The bytes of the document.
    pub closed spec fn spec_bytes(&self) -> Seq<u8> {
        self.bytes@
    }

    /// The root element.
    pub closed spec fn spec_root(&self) -> Element {
        self.root
    }

    pub fn new(bytes: &'a [u8], root: Element) -> (r: Self)
        ensures
            r.spec_bytes() == bytes@,
            r.spec_root() == root,
    {
        Self { bytes, root }
    }

    pub fn get_root(&self) -> (r: &Element)
        ensures
            *r == self.spec_root(),
    {
        &self.root
    }
}

/// The text of a span of the document, or the error where it is not UTF-8.
fn decode(span: Span, doc: &[u8]) -> (r: Result<&str, Error>)
    requires
        span.fits(doc@.len()),
    ensures
        match r {
            Ok(s) => vstd::utf8::valid_utf8(span.bytes_in(doc@)) && s@ == vstd::utf8::decode_utf8(span.bytes_in(doc@)),
            Err(e) => !vstd::utf8::valid_utf8(span.bytes_in(doc@)) && e.spec_reason() is Utf8
                && e.spec_offset() == span.spec_start() && e.spec_length() == span.spec_len(),
        },
{
    match span.to_str(doc) {
        Ok(s) => Ok(s),
        Err(err) => Err(Error::new(span.start_of(), span.len_of(), Reason::Utf8(err))),
    }
}

impl Span {
    pub(crate) fn start_of(&self) -> (r: usize)
        ensures
            r == self.spec_start(),
    {
        self.start
    }

    pub(crate) fn len_of(&self) -> (r: usize)
        ensures
            r == self.spec_len(),
    {
        self.len
    }
}

impl Element {
    /// Where the element starts.
    pub closed spec fn spec_offset(&self) -> nat {
        self.offset as nat
    }

    /// The span of the tag's name.
    pub closed spec fn spec_tag(&self) -> Span {
        self.tag
    }

    /// The span of the text before the first child.
    pub closed spec fn spec_text(&self) -> Span {
        self.text
    }

    /// The span of the text after the element.
    pub closed spec fn spec_tail(&self) -> Span {
        self.tail
    }

    /// The span of the attributes.
    pub closed spec fn spec_attributes(&self) -> Span {
        self.attributes
    }

    /// The namespace declarations of the element, where they were read.
    pub closed spec fn spec_namespaces(&self) -> Option<Seq<(Span, Span)>> {
        match self.namespaces {
            Some(v) => Some(v@),
            None => None,
        }
    }

    /// The children.
    pub closed spec fn spec_children(&self) -> Seq<Element> {
        self.children@
    }

    /// An element at `offset` whose tag name takes `tag_len` bytes and whose attributes
    /// take `attrs_len` bytes after it.
    pub fn new(offset: usize, tag_len: usize, attrs_len: usize) -> (r: Self)
        requires
            offset + 1 + tag_len + attrs_len <= usize::MAX,
        ensures
            r.spec_offset() == offset,
            r.spec_tag().spec_start() == offset + 1,
            r.spec_tag().spec_len() == tag_len,
            r.spec_text() == Span::empty_spec(),
            r.spec_tail() == Span::empty_spec(),
            r.spec_text().spec_start() == 0 && r.spec_text().spec_len() == 0,
            r.spec_tail().spec_start() == 0 && r.spec_tail().spec_len() == 0,
            r.spec_children().len() == 0,
            r.spec_attributes().spec_start() == offset + 1 + tag_len,
            r.spec_attributes().spec_len() == attrs_len,
            r.spec_namespaces() is None,
    {
        Self {
            offset,
            tag: Span::new(offset + 1, tag_len),
            text: Span::empty(),
            tail: Span::empty(),
            children: Vec::new(),
            attributes: Span::new(offset + 1 + tag_len, attrs_len),
            namespaces: None,
        }
    }

    /// The tag's name.
    pub fn tag<'a>(&self, doc: &Document<'a>) -> (r: Result<&'a str, Error>)
        requires
            self.spec_tag().fits(doc.spec_bytes().len()),
        ensures
            r is Ok <==> vstd::utf8::valid_utf8(self.spec_tag().bytes_in(doc.spec_bytes())),
            r matches Ok(s) ==> s@ == vstd::utf8::decode_utf8(self.spec_tag().bytes_in(doc.spec_bytes())),
    {
        decode(self.tag, doc.bytes)
    }

    pub fn tag_span(&self) -> (r: Span)
        ensures
            r == self.spec_tag(),
    {
        self.tag
    }

    pub fn children(&self) -> (r: &[Element])
        ensures
            r@ == self.spec_children(),
    {
        self.children.as_slice()
    }

    pub fn children_mut(&mut self) -> (r: &mut [Element])
        ensures
            r@ == old(self).spec_children(),
            final(self).spec_children() == final(r)@,
            final(self).spec_tag() == old(self).spec_tag(),
            final(self).spec_text() == old(self).spec_text(),
            final(self).spec_tail() == old(self).spec_tail(),
            final(self).spec_offset() == old(self).spec_offset(),
            final(self).spec_attributes() == old(self).spec_attributes(),
    {
        self.children.as_mut_slice()
    }

    /// The text before the first child.
    pub fn text<'a>(&self, doc: &Document<'a>) -> (r: Result<&'a str, Error>)
        requires
            self.spec_text().fits(doc.spec_bytes().len()),
        ensures
            r is Ok <==> vstd::utf8::valid_utf8(self.spec_text().bytes_in(doc.spec_bytes())),
            r matches Ok(s) ==> s@ == vstd::utf8::decode_utf8(self.spec_text().bytes_in(doc.spec_bytes())),
    {
        decode(self.text, doc.bytes)
    }

    /// The text after the element.
    pub fn tail<'a>(&self, doc: &Document<'a>) -> (r: Result<&'a str, Error>)
        requires
            self.spec_tail().fits(doc.spec_bytes().len()),
        ensures
            r is Ok <==> vstd::utf8::valid_utf8(self.spec_tail().bytes_in(doc.spec_bytes())),
            r matches Ok(s) ==> s@ == vstd::utf8::decode_utf8(self.spec_tail().bytes_in(doc.spec_bytes())),
    {
        decode(self.tail, doc.bytes)
    }

    /// The text before the first child, in the given bytes of the document.
    pub fn text_from_docbytes<'a>(&self, doc: &'a [u8]) -> (r: Result<&'a str, Error>)
        requires
            self.spec_text().fits(doc@.len()),
        ensures
            r is Ok <==> vstd::utf8::valid_utf8(self.spec_text().bytes_in(doc@)),
            r matches Ok(s) ==> s@ == vstd::utf8::decode_utf8(self.spec_text().bytes_in(doc@)),
    {
        decode(self.text, doc)
    }

    /// The text after the element, in the given bytes of the document.
    pub fn tail_from_docbytes<'a>(&self, doc: &'a [u8]) -> (r: Result<&'a str, Error>)
        requires
            self.spec_tail().fits(doc@.len()),
        ensures
            r is Ok <==> vstd::utf8::valid_utf8(self.spec_tail().bytes_in(doc@)),
            r matches Ok(s) ==> s@ == vstd::utf8::decode_utf8(self.spec_tail().bytes_in(doc@)),
    {
        decode(self.tail, doc)
    }

    pub fn has_text(&self) -> (r: bool)
        ensures
            r == (self.spec_text().spec_len() > 0),
    {
        !self.text.is_empty()
    }

    pub fn has_tail(&self) -> (r: bool)
        ensures
            r == (self.spec_tail().spec_len() > 0),
    {
        !self.tail.is_empty()
    }

    pub fn push_child(&mut self, element: Element)
        ensures
            final(self).spec_children() == old(self).spec_children().push(element),
            final(self).spec_tag() == old(self).spec_tag(),
            final(self).spec_text() == old(self).spec_text(),
            final(self).spec_tail() == old(self).spec_tail(),
            final(self).spec_offset() == old(self).spec_offset(),
            final(self).spec_attributes() == old(self).spec_attributes(),
    {
        self.children.push(element);
    }

    /// Sets the span of the text before the first child.
    pub fn push_text(&mut self, span: Span)
        ensures
            final(self).spec_text() == span,
            final(self).spec_children() == old(self).spec_children(),
            final(self).spec_tag() == old(self).spec_tag(),
            final(self).spec_tail() == old(self).spec_tail(),
            final(self).spec_offset() == old(self).spec_offset(),
            final(self).spec_attributes() == old(self).spec_attributes(),
    {
        self.text = span;
    }

    /// Sets the span of the text after the element.
    pub fn push_tail(&mut self, span: Span)
        ensures
            final(self).spec_tail() == span,
            final(self).spec_children() == old(self).spec_children(),
            final(self).spec_tag() == old(self).spec_tag(),
            final(self).spec_text() == old(self).spec_text(),
            final(self).spec_offset() == old(self).spec_offset(),
            final(self).spec_attributes() == old(self).spec_attributes(),
    {
        self.tail = span;
    }
}


impl Element {
    /// The element with `span` as the text after it.
    pub closed spec fn with_tail(self, span: Span) -> Element {
        Element { tail: span, ..self }
    }

    /// The element with a new tail has that tail, and keeps everything else.
    pub proof fn lemma_with_tail(self, span: Span)
        ensures
            self.with_tail(span).spec_tail() == span,
            self.with_tail(span).spec_offset() == self.spec_offset(),
            self.with_tail(span).spec_tag() == self.spec_tag(),
            self.with_tail(span).spec_text() == self.spec_text(),
            self.with_tail(span).spec_attributes() == self.spec_attributes(),
            self.with_tail(span).spec_namespaces() == self.spec_namespaces(),
            self.with_tail(span).spec_children() == self.spec_children(),
    {
    }

    /// `b` is `a` with one more child, `c`.
    pub open spec fn child_added(a: Element, b: Element, c: Element) -> bool {
        &&& b.spec_children() == a.spec_children().push(c)
        &&& b.spec_offset() == a.spec_offset()
        &&& b.spec_tag() == a.spec_tag()
        &&& b.spec_text() == a.spec_text()
        &&& b.spec_tail() == a.spec_tail()
        &&& b.spec_attributes() == a.spec_attributes()
    }

    /// `b` is `a` with `span` as the text before its first child.
    pub open spec fn text_set(a: Element, b: Element, span: Span) -> bool {
        &&& b.spec_text() == span
        &&& b.spec_children() == a.spec_children()
        &&& b.spec_offset() == a.spec_offset()
        &&& b.spec_tag() == a.spec_tag()
        &&& b.spec_tail() == a.spec_tail()
        &&& b.spec_attributes() == a.spec_attributes()
    }

    /// `b` is `a` with `span` as the text after its last child.
    pub open spec fn last_tail_set(a: Element, b: Element, span: Span) -> bool {
        &&& a.spec_children().len() > 0
        &&& b.spec_children() == a.spec_children().update(
            a.spec_children().len() - 1,
            a.spec_children().last().with_tail(span),
        )
        &&& b.spec_offset() == a.spec_offset()
        &&& b.spec_tag() == a.spec_tag()
        &&& b.spec_text() == a.spec_text()
        &&& b.spec_tail() == a.spec_tail()
        &&& b.spec_attributes() == a.spec_attributes()
    }

    /// An element at `offset` with the given spans of its tag's name and its attributes,
    /// with no text, tail or children.
    pub(crate) fn located(offset: usize, tag: Span, attributes: Span) -> (r: Self)
        ensures
            r.spec_offset() == offset,
            r.spec_tag() == tag,
            r.spec_attributes() == attributes,
            r.spec_text() == Span::empty_spec(),
            r.spec_tail() == Span::empty_spec(),
            r.spec_children().len() == 0,
    {
        Self {
            offset,
            tag,
            text: Span::empty(),
            tail: Span::empty(),
            children: Vec::new(),
            attributes,
            namespaces: None,
        }
    }

    /// Sets the text after the last child.
    pub(crate) fn set_last_tail(&mut self, span: Span)
        requires
            old(self).spec_children().len() > 0,
        ensures
            Element::last_tail_set(*old(self), *final(self), span),
    {
        let mut child = self.children.pop().unwrap();
        child.tail = span;
        self.children.push(child);
        proof {
            assert(self.children@ =~= old(self).children@.update(
                old(self).children@.len() - 1,
                old(self).children@.last().with_tail(span),
            ));
        }
    }
}

} // verus!

//! A document tree whose texts are spans of the document's bytes.
use vstd::prelude::*;

use crate::dom::error::Utf8Error;

pub mod chars;
pub mod document;
pub mod error;
pub mod quick;
pub mod reader;
pub mod validate;

pub use document::{Document, Element};

verus! {

/// A range of bytes in a document: where it starts and how long it is.
#[derive(Copy, Clone, PartialEq, Eq, Structural, Debug)]
pub struct Span {
    start: usize,
    len: usize,
}

/// `std::str::from_utf8`: the bytes as a string slice where they are valid UTF-8.
#[verifier::external_body]
pub(crate) fn utf8_str(bytes: &[u8]) -> (r: Result<&str, Utf8Error>)
    ensures
        r is Ok <==> vstd::utf8::valid_utf8(bytes@),
        r matches Ok(s) ==> s@ == vstd::utf8::decode_utf8(bytes@),
{
    std::str::from_utf8(bytes)
}

impl Span {
    /// Where the span starts.
    pub closed spec fn spec_start(&self) -> nat {
        self.start as nat
    }

    /// How many bytes the span holds.
    pub closed spec fn spec_len(&self) -> nat {
        self.len as nat
    }

    /// The span fits in a document of `n` bytes.
    pub open spec fn fits(&self, n: nat) -> bool {
        self.spec_start() + self.spec_len() <= n
    }

    /// The bytes of the span in a document.
    pub open spec fn bytes_in(&self, bytes: Seq<u8>) -> Seq<u8> {
        bytes.subrange(self.spec_start() as int, (self.spec_start() + self.spec_len()) as int)
    }

    /// The span of `len` bytes from `start`.
    pub closed spec fn new_spec(start: usize, len: nat) -> Span {
        Span { start, len: len as usize }
    }

    pub fn new(start: usize, len: usize) -> (r: Self)
        ensures
            r.spec_start() == start,
            r.spec_len() == len,
            r == Span::new_spec(start, len as nat),
    {
        Self { start, len }
    }

    /// The empty span at the start.
    pub closed spec fn empty_spec() -> Span {
        Span { start: 0, len: 0 }
    }

    pub fn empty() -> (r: Self)
        ensures
            r == Span::empty_spec(),
            r.spec_start() == 0,
            r.spec_len() == 0,
    {
        Self::new(0, 0)
    }

    /// The bytes of the span in the document.
    pub fn to_slice<'a>(&self, bytes: &'a [u8]) -> (r: &'a [u8])
        requires
            self.fits(bytes@.len()),
        ensures
            r@ == self.bytes_in(bytes@),
    {
        let n = bytes.len();
        assert(self.start + self.len <= n);
        let end = self.start + self.len;
        vstd::slice::slice_subrange(bytes, self.start, end)
    }

    /// The text of the span in the document, where its bytes are UTF-8.
    pub fn to_str<'a>(&self, bytes: &'a [u8]) -> (r: Result<&'a str, Utf8Error>)
        requires
            self.fits(bytes@.len()),
        ensures
            r is Ok <==> vstd::utf8::valid_utf8(self.bytes_in(bytes@)),
            r matches Ok(s) ==> s@ == vstd::utf8::decode_utf8(self.bytes_in(bytes@)),
    {
        utf8_str(self.to_slice(bytes))
    }

    /// The span is the empty one at the start.
    pub fn is_null(&self) -> (r: bool)
        ensures
            r == (self.spec_start() == 0 && self.spec_len() == 0),
    {
        self.start == 0 && self.len == 0
    }

    pub fn is_empty(&self) -> (r: bool)
        ensures
            r == (self.spec_len() == 0),
    {
        self.len == 0
    }
}

/// A qualified name: the spans of its namespace, prefix and local name.
pub struct QName {
    namespace: Option<Span>,
    prefix: Span,
    local_name: Span,
}

impl QName {
    pub closed spec fn spec_namespace(&self) -> Option<Span> {
        self.namespace
    }

    pub closed spec fn spec_prefix(&self) -> Span {
        self.prefix
    }

    pub closed spec fn spec_local_name(&self) -> Span {
        self.local_name
    }

    pub fn new(namespace: Option<Span>, prefix: Span, local_name: Span) -> (r: Self)
        ensures
            r.spec_namespace() == namespace,
            r.spec_prefix() == prefix,
            r.spec_local_name() == local_name,
    {
        Self { namespace, prefix, local_name }
    }

    pub fn namespace(&self) -> (r: Option<Span>)
        ensures
            r == self.spec_namespace(),
    {
        self.namespace
    }

    pub fn prefix(&self) -> (r: Span)
        ensures
            r == self.spec_prefix(),
    {
        self.prefix
    }

    pub fn local_name(&self) -> (r: Span)
        ensures
            r == self.spec_local_name(),
    {
        self.local_name
    }
}

} // verus!

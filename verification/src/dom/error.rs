//! Errors of reading a document tree.
use vstd::prelude::*;
use vstd::string::StringExecFns;

use crate::messages::{debug_quoted, decimal, decimal_text, str_debug};

pub use std::io::Error as IoError;
pub use std::str::Utf8Error;

verus! {

#[verifier::external_type_specification]
#[verifier::external_body]
pub struct ExIoError(std::io::Error);

#[verifier::external_type_specification]
#[verifier::external_body]
pub struct ExUtf8Error(std::str::Utf8Error);

/// Why reading a document failed.
#[derive(Debug)]
pub enum Reason {
    // general
    Io(IoError),
    // not-wf
    Utf8(Utf8Error),
    UnexpectedEof,
    EndEventMismatch { expected: String, found: String },
    UnexpectedToken(String),
    InvalidBang,
    XmlDeclWithoutVersion,
    NameWithQuote,
    NoEqAfterName,
    UnquotedValue,
    DuplicatedAttribute(usize),
    InvalidEntity,
    UnexpectedDocType,
    UnexpectedDecl,
    TrailingContent,
    PrologCharacters,
    InvalidName,
    IllegalPatternInComment,
}

/// An error at a place in the document.
#[derive(Debug)]
pub struct Error {
    offset: usize,
    length: usize,
    reason: Reason,
}

impl Error {
    /// Where in the document the error is.
    pub closed spec fn spec_offset(&self) -> nat {
        self.offset as nat
    }

    /// How many bytes the error covers.
    pub closed spec fn spec_length(&self) -> nat {
        self.length as nat
    }

    /// Why the document was refused.
    pub closed spec fn spec_reason(&self) -> Reason {
        self.reason
    }

    /// Why the document was refused.
    pub fn reason(&self) -> (r: &Reason)
        ensures
            *r == self.spec_reason(),
    {
        &self.reason
    }

    /// Why the document was refused, taken out of the error.
    pub fn into_reason(self) -> (r: Reason)
        ensures
            r == self.spec_reason(),
    {
        self.reason
    }

    /// Where in the document the error is.
    pub fn offset(&self) -> (r: usize)
        ensures
            r == self.spec_offset(),
    {
        self.offset
    }

    pub fn new(offset: usize, length: usize, reason: Reason) -> (r: Self)
        ensures
            r.spec_offset() == offset,
            r.spec_length() == length,
            r.spec_reason() == reason,
    {
        Self { offset, length, reason }
    }
}

/// `format!("{:?}", e)` of an I/O error. What the text is is not stated.
#[verifier::external_body]
fn io_error_debug(e: &IoError) -> String {
    format!("{:?}", e)
}

/// `format!("{:?}", e)` of a UTF-8 error. What the text is is not stated.
#[verifier::external_body]
fn utf8_error_debug(e: &Utf8Error) -> String {
    format!("{:?}", e)
}

/// The message of a reason that carries no outside error.
pub open spec fn reason_text(r: Reason) -> Seq<char> {
    match r {
        Reason::Io(_) => "I/O error: "@,
        Reason::Utf8(_) => "UTF-8 error: "@,
        Reason::UnexpectedEof => "unexpected end of file"@,
        Reason::EndEventMismatch { expected, found } => "expected </"@ + expected@ + "> but got </"@ + found@ + ">"@,
        Reason::UnexpectedToken(token) => "unexpected token: "@ + debug_quoted(token@),
        Reason::InvalidBang => "invalid bang"@,
        Reason::XmlDeclWithoutVersion => "first attribute of xml decl must be the version"@,
        Reason::NameWithQuote => "attribute name contains quote"@,
        Reason::NoEqAfterName => "missing `=` after attribute name"@,
        Reason::UnquotedValue => "missing `\"` around attribute value"@,
        Reason::DuplicatedAttribute(other) => "attribute already exists at "@ + decimal_text(other as nat),
        Reason::InvalidEntity => "unknown or invalid entity"@,
        Reason::UnexpectedDocType => "unexpected doctype"@,
        Reason::UnexpectedDecl => "xml decl not at start of file"@,
        Reason::TrailingContent => "trailing content"@,
        Reason::PrologCharacters => "characters in prolog"@,
        Reason::InvalidName => "invalid name"@,
        Reason::IllegalPatternInComment => "illegal '--' in comment"@,
    }
}

fn joined(head: &str, s: &str) -> (r: String)
    ensures
        r@ == head@ + s@,
{
    let mut r = head.to_owned();
    r.append(s);
    r
}

impl Error {
    /// The message of the error: for an I/O or UTF-8 error, its prefix followed by the
    /// error's debug text, which is not stated; else exactly `reason_text`.
    pub fn message(&self) -> (r: String)
        ensures
            match self.spec_reason() {
                Reason::Io(_) | Reason::Utf8(_) => reason_text(self.spec_reason()).is_prefix_of(r@),
                _ => r@ == reason_text(self.spec_reason()),
            },
    {
        match &self.reason {
            Reason::Io(err) => joined("I/O error: ", io_error_debug(err).as_str()),
            Reason::Utf8(err) => joined("UTF-8 error: ", utf8_error_debug(err).as_str()),
            Reason::UnexpectedEof => "unexpected end of file".to_owned(),
            Reason::EndEventMismatch { expected, found } => {
                let mut r = "expected </".to_owned();
                r.append(expected.as_str());
                r.append("> but got </");
                r.append(found.as_str());
                r.append(">");
                r
            },
            Reason::UnexpectedToken(token) => joined("unexpected token: ", str_debug(token.as_str()).as_str()),
            Reason::InvalidBang => "invalid bang".to_owned(),
            Reason::XmlDeclWithoutVersion => "first attribute of xml decl must be the version".to_owned(),
            Reason::NameWithQuote => "attribute name contains quote".to_owned(),
            Reason::NoEqAfterName => "missing `=` after attribute name".to_owned(),
            Reason::UnquotedValue => "missing `\"` around attribute value".to_owned(),
            Reason::DuplicatedAttribute(other) => joined("attribute already exists at ", decimal(*other).as_str()),
            Reason::InvalidEntity => "unknown or invalid entity".to_owned(),
            Reason::UnexpectedDocType => "unexpected doctype".to_owned(),
            Reason::UnexpectedDecl => "xml decl not at start of file".to_owned(),
            Reason::TrailingContent => "trailing content".to_owned(),
            Reason::PrologCharacters => "characters in prolog".to_owned(),
            Reason::InvalidName => "invalid name".to_owned(),
            Reason::IllegalPatternInComment => "illegal '--' in comment".to_owned(),
        }
    }
}

} // verus!

//! The errors of reading values out of a document.
use vstd::prelude::*;
use vstd::string::StringExecFns;

pub use std::num::{ParseFloatError, ParseIntError};

use crate::events::XmlError;
use crate::messages::{decimal, decimal_text, error_debug_text};

verus! {

#[verifier::external_type_specification]
#[verifier::external_body]
pub struct ExParseIntError(std::num::ParseIntError);

#[verifier::external_type_specification]
#[verifier::external_body]
pub struct ExParseFloatError(std::num::ParseFloatError);

/// Why reading a value failed.
#[derive(Debug)]
pub enum Reason {
    /// A message of the value being read
    Message(String),
    /// Cannot parse to integer
    Int(ParseIntError),
    /// Cannot parse to float
    Float(ParseFloatError),
    /// Xml parsing error
    Xml(XmlError),
    /// Unexpected end of file
    Eof,
    /// Invalid value for a boolean
    InvalidBoolean(String),
    /// Invalid unit value
    InvalidUnit(String),
    /// Expecting only characters
    NoMarkupExpected,
    /// Unexpected characters
    MarkupExpected,
    /// Expecting Start event
    Start,
    /// Expecting End event
    End,
    /// Expecting struct as root object
    RootStruct,
    /// Expecting tag name
    Tag(&'static str),
}

/// The message of a reason, where it is made of plain texts alone.
pub open spec fn reason_text(r: Reason) -> Option<Seq<char>> {
    match r {
        Reason::Message(s) => Some(s@),
        Reason::Xml(XmlError::Io(e)) => Some("I/O error: "@ + e@),
        Reason::Xml(XmlError::Decoding(e)) => Some("Decoding error: "@ + e@),
        Reason::Xml(e) => Some("XML syntax error: "@ + error_debug_text(e@)),
        Reason::Eof => Some("Unexpected end of file"@),
        Reason::InvalidBoolean(v) => Some("Invalid boolean value '"@ + v@ + "'"@),
        Reason::InvalidUnit(v) => Some("Invalid unit value '"@ + v@ + "', expected empty string"@),
        Reason::Start => Some("Expecting Start event"@),
        Reason::End => Some("Expecting End event"@),
        Reason::NoMarkupExpected => Some("Expecting only characters"@),
        Reason::MarkupExpected => Some("Expecting only markup"@),
        Reason::RootStruct => Some("Can only deserialize struct on root level"@),
        Reason::Tag(tag) => Some("Expecting start tag <"@ + tag@ + " ...>"@),
        _ => None,
    }
}

/// How the message of a reason that carries a number parse error starts.
pub open spec fn reason_prefix(r: Reason) -> Seq<char> {
    match r {
        Reason::Int(_) => "Invalid integer: "@,
        _ => "Invalid float: "@,
    }
}

/// `m` is the message of the reason: its text, or for a number parse error a text
/// that starts as `reason_prefix` says.
pub open spec fn is_reason_message(r: Reason, m: Seq<char>) -> bool {
    match reason_text(r) {
        Some(t) => m == t,
        None => reason_prefix(r).is_prefix_of(m),
    }
}

/// `format!("{}", e)` of an integer parse error. What the text is is not stated.
#[verifier::external_body]
fn int_error_text(e: &ParseIntError) -> String {
    format!("{}", e)
}

/// `format!("{}", e)` of a float parse error. What the text is is not stated.
#[verifier::external_body]
fn float_error_text(e: &ParseFloatError) -> String {
    format!("{}", e)
}


fn join2(a: &str, b: &str) -> (r: String)
    ensures
        r@ == a@ + b@,
{
    let mut r = a.to_owned();
    r.append(b);
    r
}

fn join3(a: &str, b: &str, c: &str) -> (r: String)
    ensures
        r@ == a@ + b@ + c@,
{
    let mut r = a.to_owned();
    r.append(b);
    r.append(c);
    r
}

impl Reason {
    /// The message of the reason.
    pub fn message(&self) -> (r: String)
        ensures
            is_reason_message(*self, r@),
    {
        match self {
            Reason::Message(s) => s.clone(),
            Reason::Xml(XmlError::Io(err)) => join2("I/O error: ", err.as_str()),
            Reason::Xml(XmlError::Decoding(err)) => join2("Decoding error: ", err.as_str()),
            Reason::Xml(e) => join2("XML syntax error: ", e.debug_text().as_str()),
            Reason::Int(e) => join2("Invalid integer: ", int_error_text(e).as_str()),
            Reason::Float(e) => join2("Invalid float: ", float_error_text(e).as_str()),
            Reason::Eof => "Unexpected end of file".to_owned(),
            Reason::InvalidBoolean(v) => join3("Invalid boolean value '", v.as_str(), "'"),
            Reason::InvalidUnit(v) => join3("Invalid unit value '", v.as_str(), "', expected empty string"),
            Reason::Start => "Expecting Start event".to_owned(),
            Reason::End => "Expecting End event".to_owned(),
            Reason::NoMarkupExpected => "Expecting only characters".to_owned(),
            Reason::MarkupExpected => "Expecting only markup".to_owned(),
            Reason::RootStruct => "Can only deserialize struct on root level".to_owned(),
            Reason::Tag(tag) => join3("Expecting start tag <", tag, " ...>"),
        }
    }
}

/// (De)serialization error
#[derive(Debug)]
pub struct Error(Box<ErrorImpl>);

/// struct to reduce size of `Error`
#[derive(Debug)]
struct ErrorImpl {
    offset: usize,
    reason: Reason,
    hints: Vec<(usize, String)>,
}

/// The hints of an error as text: each hint's message, separated by `, `.
pub open spec fn hints_text(hints: Seq<(usize, Seq<char>)>) -> Seq<char>
    decreases hints.len(),
{
    if hints.len() == 0 {
        Seq::empty()
    } else if hints.len() == 1 {
        hints[0].1
    } else {
        hints_text(hints.drop_last()) + ", "@ + hints.last().1
    }
}

/// What follows the reason in the message of an error: the offset unless it is zero,
/// then the hints in brackets where there are any.
pub open spec fn error_suffix(offset: usize, hints: Seq<(usize, Seq<char>)>) -> Seq<char> {
    (if offset == 0 {
        Seq::empty()
    } else {
        " at offset "@ + decimal_text(offset as nat)
    }) + (if hints.len() == 0 {
        Seq::empty()
    } else {
        " ("@ + hints_text(hints) + ")"@
    })
}

impl Error {
    /// Where in the input the error is.
    pub closed spec fn spec_offset(&self) -> usize {
        self.0.offset
    }

    /// Why reading failed.
    pub closed spec fn spec_reason(&self) -> Reason {
        self.0.reason
    }

    /// The hints, each with its offset, in the order they were added.
    pub closed spec fn spec_hints(&self) -> Seq<(usize, Seq<char>)> {
        self.0.hints@.map_values(|h: (usize, String)| (h.0, h.1@))
    }

    pub fn new(reason: Reason, offset: usize) -> (r: Self)
        ensures
            r.spec_reason() == reason,
            r.spec_offset() == offset,
            r.spec_hints().len() == 0,
    {
        let r = Self(Box::new(ErrorImpl { offset, reason, hints: Vec::new() }));
        proof {
            assert(r.spec_hints() =~= Seq::<(usize, Seq<char>)>::empty());
        }
        r
    }

    /// The error at another offset.
    pub fn with_position(self, offset: usize) -> (r: Self)
        ensures
            r.spec_reason() == self.spec_reason(),
            r.spec_offset() == offset,
            r.spec_hints() == self.spec_hints(),
    {
        let Error(inner) = self;
        let ErrorImpl { reason, hints, .. } = *inner;
        Self(Box::new(ErrorImpl { offset, reason, hints }))
    }

    /// The error with one more hint.
    pub fn with_hint(self, offset: usize, message: String) -> (r: Self)
        ensures
            r.spec_reason() == self.spec_reason(),
            r.spec_offset() == self.spec_offset(),
            r.spec_hints() == self.spec_hints().push((offset, message@)),
    {
        let Error(inner) = self;
        let ErrorImpl { offset: at, reason, mut hints } = *inner;
        let ghost before = hints@;
        hints.push((offset, message));
        let r = Self(Box::new(ErrorImpl { offset: at, reason, hints }));
        proof {
            assert(r.spec_hints() =~= before.map_values(|h: (usize, String)| (h.0, h.1@)).push((offset, message@)));
        }
        r
    }

    pub fn offset(&self) -> (r: usize)
        ensures
            r == self.spec_offset(),
    {
        self.0.offset
    }

    /// Why reading failed.
    pub fn reason(&self) -> (r: &Reason)
        ensures
            *r == self.spec_reason(),
    {
        &self.0.reason
    }

    /// The message of the error: that of its reason, then the offset unless it is zero,
    /// then the hints in brackets.
    pub fn message(&self) -> (r: String)
        ensures
            exists|m: Seq<char>|
                is_reason_message(self.spec_reason(), m) && r@ == m + error_suffix(self.spec_offset(), self.spec_hints()),
    {
        let mut r = self.0.reason.message();
        let ghost m = r@;
        if self.0.offset != 0 {
            r.append(" at offset ");
            r.append(decimal(self.0.offset).as_str());
        }
        let ghost after_offset = r@;
        let hints = &self.0.hints;
        let ghost hv = self.spec_hints();
        if hints.len() > 0 {
            r.append(" (");
            let ghost start = r@;
            let mut i: usize = 0;
            while i < hints.len()
                invariant
                    i <= hints@.len(),
                    hv == hints@.map_values(|h: (usize, String)| (h.0, h.1@)),
                    r@ == start + hints_text(hv.take(i as int)),
                decreases hints@.len() - i,
            {
                proof {
                    assert(hv.take(i + 1).drop_last() =~= hv.take(i as int));
                    assert(hv.take(i + 1).last() == hv[i as int]);
                }
                if i > 0 {
                    r.append(", ");
                }
                r.append(hints[i].1.as_str());
                proof {
                    if i == 0 {
                        assert(hv.take(1) =~= seq![hv[0]]);
                    }
                    assert(r@ =~= start + hints_text(hv.take(i + 1)));
                }
                i = i + 1;
            }
            proof {
                assert(hv.take(i as int) =~= hv);
            }
            r.append(")");
        }
        proof {
            assert(r@ =~= m + error_suffix(self.spec_offset(), hv));
        }
        r
    }
}

impl Error {
    /// The error of a syntax error, at offset zero.
    pub fn from_xml(e: XmlError) -> (r: Self)
        ensures
            r.spec_reason() == Reason::Xml(e),
            r.spec_offset() == 0,
            r.spec_hints().len() == 0,
    {
        Error::new(Reason::Xml(e), 0)
    }
}

} // verus!

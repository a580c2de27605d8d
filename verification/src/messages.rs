//! The messages of the errors of the pull parsers, as they are shown to a reader.
use vstd::prelude::*;
use vstd::string::StringExecFns;

use crate::events::{XmlDtdError, XmlError, XmlErrorAtom, XmlErrorV};
use crate::reader::machine::char_string;

verus! {

/// The name of a kind of markup that was expected.
pub open spec fn atom_text(a: XmlErrorAtom) -> Seq<char> {
    match a {
        XmlErrorAtom::XmlDecl => "XML declaration"@,
        XmlErrorAtom::CData => "CDATA"@,
        XmlErrorAtom::Comment => "comment"@,
        XmlErrorAtom::PI => "processing instruction"@,
        XmlErrorAtom::Markup => "markup"@,
        XmlErrorAtom::Element => "element"@,
        XmlErrorAtom::Whitespace => "whitespace"@,
    }
}

/// The names of the kinds of markup, separated by `, `.
pub open spec fn atoms_text(atoms: Seq<XmlErrorAtom>) -> Seq<char>
    decreases atoms.len(),
{
    if atoms.len() == 0 {
        Seq::empty()
    } else if atoms.len() == 1 {
        atom_text(atoms[0])
    } else {
        atoms_text(atoms.drop_last()) + ", "@ + atom_text(atoms.last())
    }
}

/// The message of an error in a document type declaration.
pub open spec fn dtd_error_text(e: XmlDtdError) -> Seq<char> {
    match e {
        XmlDtdError::SyntaxError => "DTD syntax error"@,
        XmlDtdError::Unsupported => "Unsupported DTD feature"@,
    }
}

/// The text quoted: `'` before and after it.
pub open spec fn quoted(s: Seq<char>) -> Seq<char> {
    "'"@ + s + "'"@
}

/// The message of an error.
pub open spec fn error_text(e: XmlErrorV) -> Seq<char> {
    match e {
        XmlErrorV::IllegalNameStartChar(c) => "Illegal name start char: "@ + seq![c],
        XmlErrorV::IllegalChar(c) => "Illegal char: "@ + seq![c],
        XmlErrorV::ExpectedElementStart => "Expected element start"@,
        XmlErrorV::ExpectedElementEnd => "Expected element end"@,
        XmlErrorV::ExpectedAttrName => "Expected attribute name"@,
        XmlErrorV::ExpectedAttrValue => "Expected attribute value"@,
        XmlErrorV::ExpectedName => "Expected name"@,
        XmlErrorV::ExpectedEquals => "Expected '='"@,
        XmlErrorV::ExpectedDocumentEnd => "Expected document end"@,
        XmlErrorV::Expected(atoms) => "Expected one of: "@ + atoms_text(atoms),
        XmlErrorV::ExpectedWhitespace => "Expected whitespace"@,
        XmlErrorV::WrongETagName(name) => "Wrong end tag name, expected "@ + quoted(name),
        XmlErrorV::UnexpectedEof => "Unexpected end of file"@,
        XmlErrorV::IllegalCDataSectionEnd => "Illegal CDATA section end"@,
        XmlErrorV::UnexpectedDtdEntry => "Unexpected DTD entry"@,
        XmlErrorV::ETagAfterRootElement => "End tag after root element"@,
        XmlErrorV::OpenElementAtEof => "Open element at end of file"@,
        XmlErrorV::NonUniqueAttribute(a) => "Non-unique attribute "@ + quoted(a),
        XmlErrorV::IllegalName(n) => "Illegal name "@ + quoted(n),
        XmlErrorV::InvalidCharacterReference(s) => "Invalid character reference "@ + quoted(s),
        XmlErrorV::InvalidCharacter(c) => "Invalid character "@ + quoted(seq![c]),
        XmlErrorV::IllegalReference => "Illegal reference"@,
        XmlErrorV::UnknownEntity(s) => "Unknown entity "@ + quoted(s),
        XmlErrorV::ExpectToken(t) => "Expected token "@ + quoted(t),
        XmlErrorV::IllegalAttributeValue(m) => "Illegal attribute value: "@ + m,
        XmlErrorV::UnsupportedEncoding(enc) => "Unsupported encoding "@ + quoted(enc),
        XmlErrorV::DtdError(d) => "DTD error: "@ + dtd_error_text(d),
        XmlErrorV::InvalidPITarget => "Invalid processing instruction target 'xml'"@,
        XmlErrorV::UnexpectedCharacter(c) => "Unexpected character "@ + quoted(seq![c]),
        XmlErrorV::CommentColonColon => "Illegal '--' in comment"@,
        XmlErrorV::UnknownNamespacePrefix(p) => "Unknown namespace prefix "@ + quoted(p),
        XmlErrorV::IllegalNamespaceUri(u) => "Illegal namespace URI "@ + quoted(u),
        XmlErrorV::Io(m) => "I/O error: "@ + m,
        XmlErrorV::Decoding(m) => "Decoding error: "@ + m,
        XmlErrorV::UnsupportedVersion(v) => "Unsupported version "@ + quoted(v),
    }
}

/// A text followed by a quoted text.
fn with_quoted(head: &str, s: &str) -> (r: String)
    ensures
        r@ == head@ + quoted(s@),
{
    let mut r = head.to_owned();
    r.append("'");
    r.append(s);
    r.append("'");
    proof {
        assert(r@ =~= head@ + quoted(s@));
    }
    r
}

/// A text followed by another.
fn joined(head: &str, s: &str) -> (r: String)
    ensures
        r@ == head@ + s@,
{
    let mut r = head.to_owned();
    r.append(s);
    r
}

impl XmlErrorAtom {
    /// The name of the kind of markup.
    pub fn message(&self) -> (r: String)
        ensures
            r@ == atom_text(*self),
    {
        match self {
            XmlErrorAtom::XmlDecl => "XML declaration".to_owned(),
            XmlErrorAtom::CData => "CDATA".to_owned(),
            XmlErrorAtom::Comment => "comment".to_owned(),
            XmlErrorAtom::PI => "processing instruction".to_owned(),
            XmlErrorAtom::Markup => "markup".to_owned(),
            XmlErrorAtom::Element => "element".to_owned(),
            XmlErrorAtom::Whitespace => "whitespace".to_owned(),
        }
    }
}

impl XmlDtdError {
    /// The message of the error.
    pub fn message(&self) -> (r: String)
        ensures
            r@ == dtd_error_text(*self),
    {
        match self {
            XmlDtdError::SyntaxError => "DTD syntax error".to_owned(),
            XmlDtdError::Unsupported => "Unsupported DTD feature".to_owned(),
        }
    }
}

/// The names of the kinds of markup, separated by `, `.
fn atoms_message(atoms: &[XmlErrorAtom]) -> (r: String)
    ensures
        r@ == atoms_text(atoms@),
{
    let mut s = String::new();
    let mut i: usize = 0;
    while i < atoms.len()
        invariant
            i <= atoms@.len(),
            s@ == atoms_text(atoms@.take(i as int)),
        decreases atoms@.len() - i,
    {
        proof {
            assert(atoms@.take(i + 1).drop_last() =~= atoms@.take(i as int));
            assert(atoms@.take(i + 1).last() == atoms@[i as int]);
        }
        if i != 0 {
            s.append(", ");
        }
        let m = atoms[i].message();
        s.append(m.as_str());
        proof {
            if i == 0 {
                assert(s@ =~= atom_text(atoms@[0]));
            }
        }
        i = i + 1;
    }
    proof {
        assert(atoms@.take(i as int) =~= atoms@);
    }
    s
}

impl XmlError {
    /// The message of the error, as it is shown to a reader.
    pub fn message(&self) -> (r: String)
        ensures
            r@ == error_text(self@),
    {
        match self {
            XmlError::IllegalNameStartChar(c) => joined("Illegal name start char: ", char_string(*c).as_str()),
            XmlError::IllegalChar(c) => joined("Illegal char: ", char_string(*c).as_str()),
            XmlError::ExpectedElementStart => "Expected element start".to_owned(),
            XmlError::ExpectedElementEnd => "Expected element end".to_owned(),
            XmlError::ExpectedAttrName => "Expected attribute name".to_owned(),
            XmlError::ExpectedAttrValue => "Expected attribute value".to_owned(),
            XmlError::ExpectedName => "Expected name".to_owned(),
            XmlError::ExpectedEquals => "Expected '='".to_owned(),
            XmlError::ExpectedDocumentEnd => "Expected document end".to_owned(),
            XmlError::Expected(expected) => {
                let list = atoms_message(&**expected);
                joined("Expected one of: ", list.as_str())
            },
            XmlError::ExpectedWhitespace => "Expected whitespace".to_owned(),
            XmlError::WrongETagName { expected_name } => with_quoted(
                "Wrong end tag name, expected ",
                expected_name.as_str(),
            ),
            XmlError::UnexpectedEof => "Unexpected end of file".to_owned(),
            XmlError::IllegalCDataSectionEnd => "Illegal CDATA section end".to_owned(),
            XmlError::UnexpectedDtdEntry => "Unexpected DTD entry".to_owned(),
            XmlError::ETagAfterRootElement => "End tag after root element".to_owned(),
            XmlError::OpenElementAtEof => "Open element at end of file".to_owned(),
            XmlError::NonUniqueAttribute { attribute } => with_quoted("Non-unique attribute ", attribute.as_str()),
            XmlError::IllegalName { name } => with_quoted("Illegal name ", name.as_str()),
            XmlError::InvalidCharacterReference(s) => with_quoted("Invalid character reference ", s.as_str()),
            XmlError::InvalidCharacter(c) => with_quoted("Invalid character ", char_string(*c).as_str()),
            XmlError::IllegalReference => "Illegal reference".to_owned(),
            XmlError::UnknownEntity(s) => with_quoted("Unknown entity ", s.as_str()),
            XmlError::ExpectToken(token) => with_quoted("Expected token ", token),
            XmlError::IllegalAttributeValue(msg) => joined("Illegal attribute value: ", msg),
            XmlError::UnsupportedEncoding(enc) => with_quoted("Unsupported encoding ", enc.as_str()),
            XmlError::DtdError(e) => joined("DTD error: ", e.message().as_str()),
            XmlError::InvalidPITarget => "Invalid processing instruction target 'xml'".to_owned(),
            XmlError::UnexpectedCharacter(c) => with_quoted("Unexpected character ", char_string(*c).as_str()),
            XmlError::CommentColonColon => "Illegal '--' in comment".to_owned(),
            XmlError::UnknownNamespacePrefix(p) => with_quoted("Unknown namespace prefix ", p.as_str()),
            XmlError::IllegalNamespaceUri(uri) => with_quoted("Illegal namespace URI ", uri.as_str()),
            XmlError::Io(e) => joined("I/O error: ", e.as_str()),
            XmlError::Decoding(e) => joined("Decoding error: ", e.as_str()),
            XmlError::UnsupportedVersion(v) => with_quoted("Unsupported version ", v.as_str()),
        }
    }
}

/// The digits of a number in decimal, most significant first.
pub open spec fn decimal_text(n: nat) -> Seq<char>
    decreases n,
{
    if n < 10 {
        seq![digit_char(n)]
    } else {
        decimal_text(n / 10) + seq![digit_char(n % 10)]
    }
}

/// The character of a decimal digit.
pub open spec fn digit_char(d: nat) -> char {
    if d == 0 { '0' }
    else if d == 1 { '1' }
    else if d == 2 { '2' }
    else if d == 3 { '3' }
    else if d == 4 { '4' }
    else if d == 5 { '5' }
    else if d == 6 { '6' }
    else if d == 7 { '7' }
    else if d == 8 { '8' }
    else { '9' }
}

fn digit(d: usize) -> (r: char)
    requires
        d < 10,
    ensures
        r == digit_char(d as nat),
{
    if d == 0 { '0' }
    else if d == 1 { '1' }
    else if d == 2 { '2' }
    else if d == 3 { '3' }
    else if d == 4 { '4' }
    else if d == 5 { '5' }
    else if d == 6 { '6' }
    else if d == 7 { '7' }
    else if d == 8 { '8' }
    else { '9' }
}

/// A number written in decimal.
pub fn decimal(n: usize) -> (r: String)
    ensures
        r@ == decimal_text(n as nat),
    decreases n,
{
    if n < 10 {
        char_string(digit(n))
    } else {
        let mut r = decimal(n / 10);
        let last = char_string(digit(n % 10));
        r.append(last.as_str());
        r
    }
}


/// What `format!("{:?}", s)` writes for a text: the text quoted, with its special
/// characters escaped.
pub uninterp spec fn debug_quoted(s: Seq<char>) -> Seq<char>;

/// `format!("{:?}", s)` of a text (std's `Debug` of `str`).
#[verifier::external_body]
pub(crate) fn str_debug(s: &str) -> (r: String)
    ensures
        r@ == debug_quoted(s@),
{
    format!("{:?}", s)
}

/// What `format!("{:?}", c)` writes for a character: the character in single quotes,
/// escaped where it is special.
pub uninterp spec fn debug_char_quoted(c: char) -> Seq<char>;

/// `format!("{:?}", c)` of a character (std's `Debug` of `char`).
#[verifier::external_body]
fn char_debug(c: char) -> (r: String)
    ensures
        r@ == debug_char_quoted(c),
{
    format!("{:?}", c)
}

/// The name of a kind of markup as its variant is written.
pub open spec fn atom_debug_text(a: XmlErrorAtom) -> Seq<char> {
    match a {
        XmlErrorAtom::XmlDecl => "XmlDecl"@,
        XmlErrorAtom::CData => "CData"@,
        XmlErrorAtom::Comment => "Comment"@,
        XmlErrorAtom::PI => "PI"@,
        XmlErrorAtom::Markup => "Markup"@,
        XmlErrorAtom::Element => "Element"@,
        XmlErrorAtom::Whitespace => "Whitespace"@,
    }
}

/// The variants of the kinds of markup, separated by `, `.
pub open spec fn atoms_debug_text(atoms: Seq<XmlErrorAtom>) -> Seq<char>
    decreases atoms.len(),
{
    if atoms.len() == 0 {
        Seq::empty()
    } else if atoms.len() == 1 {
        atom_debug_text(atoms[0])
    } else {
        atoms_debug_text(atoms.drop_last()) + ", "@ + atom_debug_text(atoms.last())
    }
}

/// The variant of an error in a document type declaration.
pub open spec fn dtd_error_debug_text(e: XmlDtdError) -> Seq<char> {
    match e {
        XmlDtdError::SyntaxError => "SyntaxError"@,
        XmlDtdError::Unsupported => "Unsupported"@,
    }
}

/// The text in round brackets after a variant's name.
pub open spec fn tuple_text(name: Seq<char>, inner: Seq<char>) -> Seq<char> {
    name + "("@ + inner + ")"@
}

/// The text in curly brackets after a variant's name, with one named field.
pub open spec fn struct_text(name: Seq<char>, field: Seq<char>, value: Seq<char>) -> Seq<char> {
    name + " { "@ + field + ": "@ + value + " }"@
}

/// An error written as its variant, the way `Debug` writes it.
pub open spec fn error_debug_text(e: XmlErrorV) -> Seq<char> {
    match e {
        XmlErrorV::IllegalNameStartChar(c) => tuple_text("IllegalNameStartChar"@, debug_char_quoted(c)),
        XmlErrorV::IllegalChar(c) => tuple_text("IllegalChar"@, debug_char_quoted(c)),
        XmlErrorV::ExpectedElementStart => "ExpectedElementStart"@,
        XmlErrorV::ExpectedElementEnd => "ExpectedElementEnd"@,
        XmlErrorV::ExpectedAttrName => "ExpectedAttrName"@,
        XmlErrorV::ExpectedAttrValue => "ExpectedAttrValue"@,
        XmlErrorV::ExpectedName => "ExpectedName"@,
        XmlErrorV::ExpectedEquals => "ExpectedEquals"@,
        XmlErrorV::ExpectedDocumentEnd => "ExpectedDocumentEnd"@,
        XmlErrorV::Expected(atoms) => tuple_text("Expected"@, "["@ + atoms_debug_text(atoms) + "]"@),
        XmlErrorV::ExpectedWhitespace => "ExpectedWhitespace"@,
        XmlErrorV::WrongETagName(n) => struct_text("WrongETagName"@, "expected_name"@, debug_quoted(n)),
        XmlErrorV::UnexpectedEof => "UnexpectedEof"@,
        XmlErrorV::IllegalCDataSectionEnd => "IllegalCDataSectionEnd"@,
        XmlErrorV::UnexpectedDtdEntry => "UnexpectedDtdEntry"@,
        XmlErrorV::ETagAfterRootElement => "ETagAfterRootElement"@,
        XmlErrorV::OpenElementAtEof => "OpenElementAtEof"@,
        XmlErrorV::NonUniqueAttribute(a) => struct_text("NonUniqueAttribute"@, "attribute"@, debug_quoted(a)),
        XmlErrorV::IllegalName(n) => struct_text("IllegalName"@, "name"@, debug_quoted(n)),
        XmlErrorV::InvalidCharacterReference(s) => tuple_text("InvalidCharacterReference"@, debug_quoted(s)),
        XmlErrorV::InvalidCharacter(c) => tuple_text("InvalidCharacter"@, debug_char_quoted(c)),
        XmlErrorV::IllegalReference => "IllegalReference"@,
        XmlErrorV::UnknownEntity(s) => tuple_text("UnknownEntity"@, debug_quoted(s)),
        XmlErrorV::ExpectToken(t) => tuple_text("ExpectToken"@, debug_quoted(t)),
        XmlErrorV::IllegalAttributeValue(m) => tuple_text("IllegalAttributeValue"@, debug_quoted(m)),
        XmlErrorV::UnsupportedEncoding(s) => tuple_text("UnsupportedEncoding"@, debug_quoted(s)),
        XmlErrorV::DtdError(d) => tuple_text("DtdError"@, dtd_error_debug_text(d)),
        XmlErrorV::InvalidPITarget => "InvalidPITarget"@,
        XmlErrorV::UnexpectedCharacter(c) => tuple_text("UnexpectedCharacter"@, debug_char_quoted(c)),
        XmlErrorV::CommentColonColon => "CommentColonColon"@,
        XmlErrorV::UnknownNamespacePrefix(s) => tuple_text("UnknownNamespacePrefix"@, debug_quoted(s)),
        XmlErrorV::IllegalNamespaceUri(s) => tuple_text("IllegalNamespaceUri"@, debug_quoted(s)),
        XmlErrorV::Io(s) => tuple_text("Io"@, debug_quoted(s)),
        XmlErrorV::Decoding(s) => tuple_text("Decoding"@, debug_quoted(s)),
        XmlErrorV::UnsupportedVersion(s) => tuple_text("UnsupportedVersion"@, debug_quoted(s)),
    }
}

fn tuple_string(name: &str, inner: &str) -> (r: String)
    ensures
        r@ == tuple_text(name@, inner@),
{
    let mut r = name.to_owned();
    r.append("(");
    r.append(inner);
    r.append(")");
    r
}

fn struct_string(name: &str, field: &str, value: &str) -> (r: String)
    ensures
        r@ == struct_text(name@, field@, value@),
{
    let mut r = name.to_owned();
    r.append(" { ");
    r.append(field);
    r.append(": ");
    r.append(value);
    r.append(" }");
    r
}

fn atom_debug(a: XmlErrorAtom) -> (r: &'static str)
    ensures
        r@ == atom_debug_text(a),
{
    match a {
        XmlErrorAtom::XmlDecl => "XmlDecl",
        XmlErrorAtom::CData => "CData",
        XmlErrorAtom::Comment => "Comment",
        XmlErrorAtom::PI => "PI",
        XmlErrorAtom::Markup => "Markup",
        XmlErrorAtom::Element => "Element",
        XmlErrorAtom::Whitespace => "Whitespace",
    }
}

fn atoms_debug(atoms: &[XmlErrorAtom]) -> (r: String)
    ensures
        r@ == "["@ + atoms_debug_text(atoms@) + "]"@,
{
    let mut s = "[".to_owned();
    let mut i: usize = 0;
    while i < atoms.len()
        invariant
            i <= atoms@.len(),
            s@ == "["@ + atoms_debug_text(atoms@.take(i as int)),
        decreases atoms@.len() - i,
    {
        proof {
            assert(atoms@.take(i + 1).drop_last() =~= atoms@.take(i as int));
            assert(atoms@.take(i + 1).last() == atoms@[i as int]);
        }
        if i != 0 {
            s.append(", ");
        }
        s.append(atom_debug(atoms[i]));
        proof {
            if i == 0 {
                assert(s@ =~= "["@ + atom_debug_text(atoms@[0]));
            } else {
                assert(s@ =~= "["@ + (atoms_debug_text(atoms@.take(i as int)) + ", "@ + atom_debug_text(atoms@[i as int])));
            }
        }
        i = i + 1;
    }
    proof {
        assert(atoms@.take(i as int) =~= atoms@);
    }
    s.append("]");
    s
}

impl XmlError {
    /// The error written as its variant, the way `Debug` writes it.
    pub fn debug_text(&self) -> (r: String)
        ensures
            r@ == error_debug_text(self@),
    {
        match self {
            XmlError::IllegalNameStartChar(c) => tuple_string("IllegalNameStartChar", char_debug(*c).as_str()),
            XmlError::IllegalChar(c) => tuple_string("IllegalChar", char_debug(*c).as_str()),
            XmlError::ExpectedElementStart => "ExpectedElementStart".to_owned(),
            XmlError::ExpectedElementEnd => "ExpectedElementEnd".to_owned(),
            XmlError::ExpectedAttrName => "ExpectedAttrName".to_owned(),
            XmlError::ExpectedAttrValue => "ExpectedAttrValue".to_owned(),
            XmlError::ExpectedName => "ExpectedName".to_owned(),
            XmlError::ExpectedEquals => "ExpectedEquals".to_owned(),
            XmlError::ExpectedDocumentEnd => "ExpectedDocumentEnd".to_owned(),
            XmlError::Expected(atoms) => tuple_string("Expected", atoms_debug(&**atoms).as_str()),
            XmlError::ExpectedWhitespace => "ExpectedWhitespace".to_owned(),
            XmlError::WrongETagName { expected_name } => struct_string(
                "WrongETagName",
                "expected_name",
                str_debug(expected_name.as_str()).as_str(),
            ),
            XmlError::UnexpectedEof => "UnexpectedEof".to_owned(),
            XmlError::IllegalCDataSectionEnd => "IllegalCDataSectionEnd".to_owned(),
            XmlError::UnexpectedDtdEntry => "UnexpectedDtdEntry".to_owned(),
            XmlError::ETagAfterRootElement => "ETagAfterRootElement".to_owned(),
            XmlError::OpenElementAtEof => "OpenElementAtEof".to_owned(),
            XmlError::NonUniqueAttribute { attribute } => struct_string(
                "NonUniqueAttribute",
                "attribute",
                str_debug(attribute.as_str()).as_str(),
            ),
            XmlError::IllegalName { name } => struct_string("IllegalName", "name", str_debug(name.as_str()).as_str()),
            XmlError::InvalidCharacterReference(s) => tuple_string("InvalidCharacterReference", str_debug(s.as_str()).as_str()),
            XmlError::InvalidCharacter(c) => tuple_string("InvalidCharacter", char_debug(*c).as_str()),
            XmlError::IllegalReference => "IllegalReference".to_owned(),
            XmlError::UnknownEntity(s) => tuple_string("UnknownEntity", str_debug(s.as_str()).as_str()),
            XmlError::ExpectToken(t) => tuple_string("ExpectToken", str_debug(t).as_str()),
            XmlError::IllegalAttributeValue(m) => tuple_string("IllegalAttributeValue", str_debug(m).as_str()),
            XmlError::UnsupportedEncoding(s) => tuple_string("UnsupportedEncoding", str_debug(s.as_str()).as_str()),
            XmlError::DtdError(d) => tuple_string(
                "DtdError",
                match d {
                    XmlDtdError::SyntaxError => "SyntaxError",
                    XmlDtdError::Unsupported => "Unsupported",
                },
            ),
            XmlError::InvalidPITarget => "InvalidPITarget".to_owned(),
            XmlError::UnexpectedCharacter(c) => tuple_string("UnexpectedCharacter", char_debug(*c).as_str()),
            XmlError::CommentColonColon => "CommentColonColon".to_owned(),
            XmlError::UnknownNamespacePrefix(s) => tuple_string("UnknownNamespacePrefix", str_debug(s.as_str()).as_str()),
            XmlError::IllegalNamespaceUri(s) => tuple_string("IllegalNamespaceUri", str_debug(s.as_str()).as_str()),
            XmlError::Io(s) => tuple_string("Io", str_debug(s.as_str()).as_str()),
            XmlError::Decoding(s) => tuple_string("Decoding", str_debug(s.as_str()).as_str()),
            XmlError::UnsupportedVersion(s) => tuple_string("UnsupportedVersion", str_debug(s.as_str()).as_str()),
        }
    }
}

} // verus!

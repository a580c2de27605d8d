//! Checks made on the pieces of a document while its tree is read.
use vstd::prelude::*;

use crate::dom::chars::{is_name_in_map, XmlStrExt};
use crate::dom::document::Element;
use crate::dom::error::{Error, Reason, Utf8Error};
use crate::dom::Span;

verus! {

broadcast use vstd::string::group_string_axioms;

/// Makes the validator for a document.
pub trait XmlValidatorBuilder<'a> {
    type Item: XmlValidator<'a>;

    fn build(self, doc: &'a [u8]) -> Self::Item;
}

/// Checks the pieces of a document: start and end tags, comments, processing
/// instructions and text, each at its byte position.
pub trait XmlValidator<'a> {
    fn validate_start(&self, pos: usize, tag: &[u8], attributes: &[u8]) -> Result<(), Error>;

    fn validate_end(&self, pos: usize, tag: &[u8], element: &Element) -> Result<(), Error>;

    fn validate_comment(&self, pos: usize, comment: &[u8]) -> Result<(), Error>;

    fn validate_pi(&self, pos: usize, pi: &[u8]) -> Result<(), Error>;

    fn validate_text(&self, pos: usize, text: &[u8]) -> Result<(), Error>;
}

/// Accepts everything.
pub struct NonValidator;

impl<'a> XmlValidatorBuilder<'a> for NonValidator {
    type Item = NonValidator;

    fn build(self, _doc: &'a [u8]) -> Self {
        NonValidator
    }
}

impl<'a> XmlValidator<'a> for NonValidator {
    fn validate_start(&self, _pos: usize, _tag: &[u8], _attributes: &[u8]) -> (r: Result<(), Error>)
        ensures
            r is Ok,
    {
        Ok(())
    }

    fn validate_end(&self, _pos: usize, _tag: &[u8], _element: &Element) -> (r: Result<(), Error>)
        ensures
            r is Ok,
    {
        Ok(())
    }

    fn validate_comment(&self, _pos: usize, _comment: &[u8]) -> (r: Result<(), Error>)
        ensures
            r is Ok,
    {
        Ok(())
    }

    fn validate_pi(&self, _pos: usize, _pi: &[u8]) -> (r: Result<(), Error>)
        ensures
            r is Ok,
    {
        Ok(())
    }

    fn validate_text(&self, _pos: usize, _text: &[u8]) -> (r: Result<(), Error>)
        ensures
            r is Ok,
    {
        Ok(())
    }
}

/// What `String::from_utf8_lossy` gives for the bytes: their text, where bytes that are
/// not UTF-8 stand as replacement characters.
pub uninterp spec fn lossy_text(bytes: Seq<u8>) -> Seq<char>;

/// `String::from_utf8_lossy`, owned: the text of the bytes, where bytes that are not
/// UTF-8 stand as replacement characters. Of bytes that are UTF-8 the text is what they
/// encode.
#[verifier::external_body]
fn utf8_lossy(bytes: &[u8]) -> (r: String)
    ensures
        r@ == lossy_text(bytes@),
        vstd::utf8::valid_utf8(bytes@) ==> r@ == vstd::utf8::decode_utf8(bytes@),
{
    String::from_utf8_lossy(bytes).into_owned()
}

/// Makes the structure validator for a document.
pub struct StructureValidatorBuilder;

/// Checks that each end tag names the element it closes.
pub struct StructureValidator<'a> {
    doc: &'a [u8],
}

impl<'a> StructureValidator<'a> {
    /// The document the validator checks.
    pub closed spec fn spec_doc(&self) -> Seq<u8> {
        self.doc@
    }
}

impl<'a> XmlValidatorBuilder<'a> for StructureValidatorBuilder {
    type Item = StructureValidator<'a>;

    fn build(self, doc: &'a [u8]) -> (r: StructureValidator<'a>)
        ensures
            r.spec_doc() == doc@,
    {
        StructureValidator { doc }
    }
}

/// The bytes of a span, where the span lies in the document.
fn span_bytes<'b>(span: Span, doc: &'b [u8]) -> (r: Option<&'b [u8]>)
    ensures
        match r {
            Some(b) => span.fits(doc@.len()) && b@ == span.bytes_in(doc@),
            None => !span.fits(doc@.len()),
        },
{
    let start = span.start_of();
    let len = span.len_of();
    if start <= doc.len() && len <= doc.len() - start {
        Some(span.to_slice(doc))
    } else {
        None
    }
}

/// Whether two byte strings are equal.
fn bytes_eq(a: &[u8], b: &[u8]) -> (r: bool)
    ensures
        r == (a@ == b@),
{
    if a.len() != b.len() {
        return false;
    }
    let mut i: usize = 0;
    while i < a.len()
        invariant
            a@.len() == b@.len(),
            i <= a@.len(),
            forall|j: int| 0 <= j < i ==> a@[j] == b@[j],
        decreases a@.len() - i,
    {
        if a[i] != b[i] {
            return false;
        }
        i = i + 1;
    }
    assert(a@ =~= b@);
    true
}

impl<'a> XmlValidator<'a> for StructureValidator<'a> {
    fn validate_start(&self, _pos: usize, _tag: &[u8], _attributes: &[u8]) -> (r: Result<(), Error>)
        ensures
            r is Ok,
    {
        Ok(())
    }

    /// The end tag must name the element it closes; the error, where it does not, is at
    /// the end tag's name and gives both names. An element whose name lies outside the
    /// document is closed by no end tag.
    fn validate_end(&self, pos: usize, tag: &[u8], element: &Element) -> (r: Result<(), Error>)
        ensures
            element.spec_tag().fits(self.spec_doc().len()) && tag@ == element.spec_tag().bytes_in(
                self.spec_doc(),
            ) ==> r is Ok,
            r matches Err(e) ==> e.spec_offset() == pos.wrapping_add(2) && e.spec_length()
                == tag@.len() && e.spec_reason() is EndEventMismatch,
            r matches Err(e) ==> e.spec_reason()->found@ == lossy_text(tag@),
            r matches Err(e) ==> e.spec_reason()->expected@ == lossy_text(
                if element.spec_tag().fits(self.spec_doc().len()) {
                    element.spec_tag().bytes_in(self.spec_doc())
                } else {
                    Seq::empty()
                },
            ),
            r matches Err(e) ==> (vstd::utf8::valid_utf8(tag@) ==> e.spec_reason()->found@
                == vstd::utf8::decode_utf8(tag@)),
            r matches Err(e) ==> (element.spec_tag().fits(self.spec_doc().len())
                && vstd::utf8::valid_utf8(element.spec_tag().bytes_in(self.spec_doc()))
                ==> e.spec_reason()->expected@ == vstd::utf8::decode_utf8(
                element.spec_tag().bytes_in(self.spec_doc()),
            )),
            r is Ok ==> element.spec_tag().fits(self.spec_doc().len()) && tag@
                == element.spec_tag().bytes_in(self.spec_doc()),
    {
        let empty: Vec<u8> = Vec::new();
        let start_tag: &[u8] = match span_bytes(element.tag_span(), self.doc) {
            Some(b) => b,
            None => empty.as_slice(),
        };
        let fits = element.tag_span().start_of() <= self.doc.len() && element.tag_span().len_of()
            <= self.doc.len() - element.tag_span().start_of();
        if !fits || !bytes_eq(tag, start_tag) {
            Err(
                Error::new(
                    pos.wrapping_add(2),
                    tag.len(),
                    Reason::EndEventMismatch {
                        expected: utf8_lossy(start_tag),
                        found: utf8_lossy(tag),
                    },
                ),
            )
        } else {
            Ok(())
        }
    }

    fn validate_comment(&self, _pos: usize, _comment: &[u8]) -> (r: Result<(), Error>)
        ensures
            r is Ok,
    {
        Ok(())
    }

    fn validate_pi(&self, _pos: usize, _pi: &[u8]) -> (r: Result<(), Error>)
        ensures
            r is Ok,
    {
        Ok(())
    }

    fn validate_text(&self, _pos: usize, _text: &[u8]) -> (r: Result<(), Error>)
        ensures
            r is Ok,
    {
        Ok(())
    }
}

/// Makes the well-formedness validator for a document.
pub struct WellFormedValidatorBuilder;

/// Checks the structure, that tag names are names, and that comments hold no `--`.
pub struct WellFormedValidator<'a> {
    next: StructureValidator<'a>,
}

impl<'a> WellFormedValidator<'a> {
    /// The document the validator checks.
    pub closed spec fn spec_doc(&self) -> Seq<u8> {
        self.next.spec_doc()
    }
}

impl<'a> XmlValidatorBuilder<'a> for WellFormedValidatorBuilder {
    type Item = WellFormedValidator<'a>;

    fn build(self, doc: &'a [u8]) -> (r: WellFormedValidator<'a>)
        ensures
            r.spec_doc() == doc@,
    {
        WellFormedValidator { next: StructureValidatorBuilder.build(doc) }
    }
}

/// `Utf8Error::valid_up_to`: the number of bytes at the start of the input that are
/// valid UTF-8. Nothing about the number is stated.
#[verifier::external_body]
fn valid_up_to(err: &Utf8Error) -> usize {
    err.valid_up_to()
}

/// `memchr::memchr_iter`: the positions at which `needle` stands in `haystack`, in
/// increasing order.
#[verifier::external_body]
fn positions_of(needle: u8, haystack: &[u8]) -> (r: Vec<usize>)
    ensures
        forall|i: int, j: int| 0 <= i < j < r@.len() ==> r@[i] < r@[j],
        forall|i: int| 0 <= i < r@.len() ==> r@[i] < haystack@.len() && haystack@[r@[i] as int] == needle,
        forall|k: int| 0 <= k < haystack@.len() && haystack@[k] == needle ==> r@.contains(k as usize),
{
    memchr::memchr_iter(needle, haystack).collect()
}

/// The comment holds `--` starting at byte `i`.
pub open spec fn double_hyphen_at(comment: Seq<u8>, i: int) -> bool {
    0 <= i && i + 1 < comment.len() && comment[i] == 0x2D && comment[i + 1] == 0x2D
}

impl<'a> XmlValidator<'a> for WellFormedValidator<'a> {
    /// The tag must be UTF-8 and a name.
    fn validate_start(&self, pos: usize, tag: &[u8], attributes: &[u8]) -> (r: Result<(), Error>)
        ensures
            r is Ok <==> vstd::utf8::valid_utf8(tag@) && is_name_in_map(vstd::utf8::decode_utf8(tag@)),
            r matches Err(e) ==> (vstd::utf8::valid_utf8(tag@) ==> e.spec_reason() is InvalidName
                && e.spec_offset() == pos && e.spec_length() == tag@.len()),
            r matches Err(e) ==> (!vstd::utf8::valid_utf8(tag@) ==> e.spec_reason() is Utf8
                && e.spec_length() == 0),
    {
        self.next.validate_start(pos, tag, attributes)?;
        let name = match crate::dom::utf8_str(tag) {
            Ok(name) => name,
            Err(err) => {
                let at = valid_up_to(&err);
                return Err(Error::new(pos.wrapping_add(at).wrapping_add(1), 0, Reason::Utf8(err)));
            },
        };
        if !name.is_xml_name() {
            return Err(Error::new(pos, tag.len(), Reason::InvalidName));
        }
        Ok(())
    }

    fn validate_end(&self, pos: usize, tag: &[u8], element: &Element) -> (r: Result<(), Error>)
        ensures
            r is Ok <==> element.spec_tag().fits(self.spec_doc().len()) && tag@
                == element.spec_tag().bytes_in(self.spec_doc()),
    {
        self.next.validate_end(pos, tag, element)?;
        Ok(())
    }

    /// A comment must not hold `--`; the error is at the first one, counted from the
    /// comment's `<!--` at `pos`.
    fn validate_comment(&self, pos: usize, comment: &[u8]) -> (r: Result<(), Error>)
        ensures
            r is Ok <==> forall|i: int| !double_hyphen_at(comment@, i),
            r matches Err(e) ==> e.spec_reason() is IllegalPatternInComment && e.spec_length() == 2
                && exists|i: int| double_hyphen_at(comment@, i) && (forall|j: int| 0 <= j < i
                    ==> !double_hyphen_at(comment@, j)) && e.spec_offset() == pos.wrapping_add(4).wrapping_add(i as usize),
    {
        self.next.validate_comment(pos, comment)?;
        let hyphens = positions_of(0x2D, comment);
        let n = comment.len();
        let mut k: usize = 0;
        while k < hyphens.len()
            invariant
                n == comment@.len(),
                k <= hyphens@.len(),
                forall|i: int, j: int| 0 <= i < j < hyphens@.len() ==> hyphens@[i] < hyphens@[j],
                forall|i: int| 0 <= i < hyphens@.len() ==> hyphens@[i] < comment@.len() && comment@[hyphens@[i] as int] == 0x2D,
                forall|m: int| 0 <= m < comment@.len() && comment@[m] == 0x2D ==> hyphens@.contains(m as usize),
                forall|j: int| 0 <= j < k ==> !double_hyphen_at(comment@, hyphens@[j] as int),
            decreases hyphens@.len() - k,
        {
            let i = hyphens[k];
            if i + 1 != n && comment[i + 1] == 0x2D {
                proof {
                    assert forall|j: int| 0 <= j < i implies !double_hyphen_at(comment@, j) by {
                        if double_hyphen_at(comment@, j) {
                            let t = choose|t: int| 0 <= t < hyphens@.len() && hyphens@[t] == j as usize;
                            assert(hyphens@.contains(j as usize));
                            if t >= k {
                                assert(hyphens@[t] >= hyphens@[k as int]);
                            }
                        }
                    }
                    assert(double_hyphen_at(comment@, i as int));
                }
                return Err(Error::new(pos.wrapping_add(4).wrapping_add(i), 2, Reason::IllegalPatternInComment));
            }
            k = k + 1;
        }
        proof {
            assert forall|i: int| !double_hyphen_at(comment@, i) by {
                if double_hyphen_at(comment@, i) {
                    assert(0 <= i < comment@.len() && comment@[i] == 0x2D);
                    assert(hyphens@.contains(i as usize));
                    let t = choose|t: int| 0 <= t < hyphens@.len() && hyphens@[t] == i as usize;
                    assert(hyphens@[t] as int == i);
                    assert(!double_hyphen_at(comment@, hyphens@[t] as int));
                    assert(false);
                }
            }
        }
        Ok(())
    }

    fn validate_pi(&self, _pos: usize, _pi: &[u8]) -> (r: Result<(), Error>)
        ensures
            r is Ok,
    {
        Ok(())
    }

    fn validate_text(&self, pos: usize, text: &[u8]) -> (r: Result<(), Error>)
        ensures
            r is Ok,
    {
        self.next.validate_text(pos, text)?;
        Ok(())
    }
}

} // verus!

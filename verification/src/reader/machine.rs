//! One step of the pull parser: from its state and the rest of the input to the next
//! event, the new state and where the input goes on.
use std::borrow::Cow;

use vstd::prelude::*;
use vstd::std_specs::iter::IteratorSpec;

use crate::chars::{char_is_whitespace, in_char_table};
use crate::dtd::DocTypeDeclV;
use crate::events::{
    attrs_view, cow_str, event_view, opt_str_view, opt_string_view, opt_view, Attribute, ETag,
    EventV, PI, XmlError, XmlErrorV, XmlEvent,
};
use crate::parser::cursor::{consumed, lemma_followed_trans, Cursor};
use crate::parser::Parser;
use crate::reader::entities::{lookup, Entities, Entity};
use crate::reader::dtd::spec_doctypedecl;
use crate::reader::dtd::DocTypeDeclToken;
use crate::reader::tokens::{
    decl_view, skip_whitespace, str_eq, AttValueToken, CDataToken, CharRefToken, CommentToken,
    EntityRefToken, EqToken, NameToken, PIToken, SToken, XmlDeclToken, spec_att_value, spec_cdata, spec_char_ref, spec_comment, spec_entity_ref, spec_eq, spec_name,
    spec_pi, spec_xml_decl, ws,
};
use crate::text::{byte_len, is_prefix, lemma_span_props, rest_after, scan_while, span, CharClass};

verus! {

broadcast use vstd::string::group_string_axioms;

/// The abstract state of a parser: the attributes of the last start tag, whether that
/// tag was empty and its end tag is still due, whether the root element began, the names
/// of the open elements (innermost last) and the version of the XML declaration.
pub struct StateV {
    pub attrs: Seq<(Seq<char>, Seq<char>)>,
    pub empty: bool,
    pub seen_root: bool,
    pub stack: Seq<Seq<char>>,
    pub version: Option<Seq<char>>,
}

/// What one step gives: the new state, the rest of the input, the event or error, the
/// name of an entity whose text is to be read next, and the `standalone` value of an
/// XML declaration that was read.
pub struct StepV {
    pub state: StateV,
    pub rest: Seq<char>,
    pub result: Result<Option<EventV>, XmlErrorV>,
    pub entity: Option<Seq<char>>,
    pub standalone: Option<Option<bool>>,
}

/// The state of a parser.
pub struct ParserState<'a> {
    pub attributes: Vec<Attribute<'a>>,
    pub empty: bool,
    pub seen_root: bool,
    pub stack: Vec<Cow<'a, str>>,
    pub version: Option<String>,
}

/// The texts of a sequence of `Cow<str>`.
pub open spec fn cows_view<'a>(v: Seq<Cow<'a, str>>) -> Seq<Seq<char>> {
    v.map_values(|c: Cow<'a, str>| c@)
}

impl<'a> View for ParserState<'a> {
    type V = StateV;

    open spec fn view(&self) -> StateV {
        StateV {
            attrs: attrs_view(self.attributes@),
            empty: self.empty,
            seen_root: self.seen_root,
            stack: cows_view(self.stack@),
            version: opt_string_view(self.version),
        }
    }
}

/// A state may owe an end tag only for an open element.
pub open spec fn state_wf(st: StateV) -> bool {
    st.empty ==> st.stack.len() > 0
}

/// The root element began and ended.
pub open spec fn after_root(st: StateV) -> bool {
    st.stack.len() == 0 && st.seen_root
}

/// A step that reads no XML declaration and names no entity.
pub open spec fn quiet(sp: StepV) -> bool {
    sp.standalone is None && sp.entity is None
}

/// A step that ends with `result`, the state and the input as given.
pub open spec fn stop(st: StateV, rest: Seq<char>, result: Result<Option<EventV>, XmlErrorV>) -> StepV {
    StepV { state: st, rest, result, entity: None, standalone: None }
}

/// An attribute named `name` was read.
pub open spec fn has_attr(attrs: Seq<(Seq<char>, Seq<char>)>, name: Seq<char>) -> bool {
    exists|i: int| 0 <= i < attrs.len() && #[trigger] attrs[i].0 == name
}

/// The attributes of a start tag and its end, read from `s` after the attributes `attrs`;
/// `ws_before` tells whether white space came right before `s`. Gives the attributes
/// read and whether the tag is empty with the number of characters read, or the error.
///
///     (S Attribute)* S? ('>' | '/>')
///     Attribute ::= Name Eq AttValue
#[verifier::opaque]
pub open spec fn spec_stag_rest(attrs: Seq<(Seq<char>, Seq<char>)>, s: Seq<char>, ws_before: bool) -> (
    Seq<(Seq<char>, Seq<char>)>,
    Result<(bool, nat), XmlErrorV>,
)
    decreases s.len(),
{
    if s.len() == 0 {
        (attrs, Err(XmlErrorV::ExpectedElementEnd))
    } else if s[0] == '/' {
        if s.len() > 1 && s[1] == '>' {
            (attrs, Ok((true, 2)))
        } else {
            (attrs, Err(XmlErrorV::ExpectedElementEnd))
        }
    } else if s[0] == '>' {
        (attrs, Ok((false, 1)))
    } else if !ws_before {
        (attrs, Err(XmlErrorV::ExpectedWhitespace))
    } else {
        match spec_name(s) {
            Err(e) => (attrs, Err(e)),
            Ok((name, n)) => {
                let r1 = rest_after(s, n);
                match spec_eq(r1) {
                    Err(e) => (attrs, Err(e)),
                    Ok((_, e)) => {
                        let r2 = rest_after(r1, e);
                        match spec_att_value(r2) {
                            Err(err) => (attrs, Err(err)),
                            Ok((value, v)) => {
                                let r3 = rest_after(r2, v);
                                let w = ws(r3);
                                if has_attr(attrs, name) {
                                    (attrs, Err(XmlErrorV::NonUniqueAttribute(name)))
                                } else {
                                    let (more, res) = spec_stag_rest(
                                        attrs.push((name, value)),
                                        rest_after(r3, w),
                                        w > 0,
                                    );
                                    (
                                        more,
                                        match res {
                                            Ok((empty, k)) => Ok((empty, n + e + v + w + k)),
                                            Err(err) => Err(err),
                                        },
                                    )
                                }
                            },
                        }
                    },
                }
            },
        }
    }
}

/// An attribute and the white space after it: gives the name, the value, the number of
/// characters of the attribute, that of the white space and the rest after both.
///
///     Attribute ::= Name Eq AttValue
pub open spec fn spec_attribute(s: Seq<char>) -> Result<(Seq<char>, Seq<char>, nat, nat, Seq<char>), XmlErrorV> {
    match spec_name(s) {
        Err(e) => Err(e),
        Ok((name, n)) => {
            let r1 = rest_after(s, n);
            match spec_eq(r1) {
                Err(e) => Err(e),
                Ok((_, e)) => {
                    let r2 = rest_after(r1, e);
                    match spec_att_value(r2) {
                        Err(err) => Err(err),
                        Ok((value, v)) => {
                            let r3 = rest_after(r2, v);
                            Ok((name, value, n + e + v, ws(r3), rest_after(r3, ws(r3))))
                        },
                    }
                },
            }
        },
    }
}

/// The end of a start tag, or the lack of white space before an attribute.
pub proof fn lemma_stag_rest_end(attrs: Seq<(Seq<char>, Seq<char>)>, s: Seq<char>, ws_before: bool)
    ensures
        s.len() == 0 ==> spec_stag_rest(attrs, s, ws_before) == (attrs, Err::<(bool, nat), XmlErrorV>(XmlErrorV::ExpectedElementEnd)),
        s.len() > 0 && s[0] == '/' ==> spec_stag_rest(attrs, s, ws_before) == (
            attrs,
            if s.len() > 1 && s[1] == '>' {
                Ok::<(bool, nat), XmlErrorV>((true, 2))
            } else {
                Err::<(bool, nat), XmlErrorV>(XmlErrorV::ExpectedElementEnd)
            },
        ),
        s.len() > 0 && s[0] == '>' ==> spec_stag_rest(attrs, s, ws_before) == (attrs, Ok::<(bool, nat), XmlErrorV>((false, 1))),
        s.len() > 0 && s[0] != '/' && s[0] != '>' && !ws_before ==> spec_stag_rest(attrs, s, ws_before) == (
            attrs,
            Err::<(bool, nat), XmlErrorV>(XmlErrorV::ExpectedWhitespace),
        ),
{
    reveal(spec_stag_rest);
}

/// An attribute inside a start tag.
pub proof fn lemma_stag_rest_attr(attrs: Seq<(Seq<char>, Seq<char>)>, s: Seq<char>)
    requires
        s.len() > 0,
        s[0] != '/',
        s[0] != '>',
    ensures
        spec_stag_rest(attrs, s, true) == match spec_attribute(s) {
            Err(e) => (attrs, Err(e)),
            Ok((name, value, k, w, rest)) => if has_attr(attrs, name) {
                (attrs, Err(XmlErrorV::NonUniqueAttribute(name)))
            } else {
                let (more, res) = spec_stag_rest(attrs.push((name, value)), rest, w > 0);
                (
                    more,
                    match res {
                        Ok((empty, j)) => Ok((empty, k + w + j)),
                        Err(err) => Err(err),
                    },
                )
            },
        },
{
    reveal(spec_stag_rest);
}

/// A start tag after its `<`, read in state `st` (whose attributes are cleared).
///
///     STag ::= '<' Name (S Attribute)* S? '>'
///     EmptyElemTag ::= '<' Name (S Attribute)* S? '/>'
#[verifier::opaque]
pub open spec fn spec_stag(st: StateV, r: Seq<char>) -> StepV {
    if after_root(st) {
        stop(st, r, Err(XmlErrorV::ExpectedDocumentEnd))
    } else {
        match spec_name(r) {
            Err(e) => stop(st, r, Err(e)),
            Ok((name, n)) => {
                let r1 = rest_after(r, n);
                let w = ws(r1);
                let r2 = rest_after(r1, w);
                let (attrs, res) = spec_stag_rest(st.attrs, r2, w > 0);
                match res {
                    Err(e) => stop(StateV { attrs, ..st }, r, Err(e)),
                    Ok((empty, k)) => stop(
                        StateV { attrs, empty, seen_root: true, stack: st.stack.push(name), ..st },
                        rest_after(r2, k),
                        Ok(Some(EventV::STag { name, empty, attrs: Seq::empty() })),
                    ),
                }
            },
        }
    }
}

/// An end tag after its `</`.
///
///     ETag ::= '</' Name S? '>'
#[verifier::opaque]
pub open spec fn spec_etag(st: StateV, r: Seq<char>) -> StepV {
    match spec_name(r) {
        Err(e) => stop(st, r, Err(e)),
        Ok((name, n)) => {
            let r1 = rest_after(r, n);
            let r2 = rest_after(r1, ws(r1));
            if !(r2.len() > 0 && r2[0] == '>') {
                stop(st, r, Err(XmlErrorV::ExpectedElementEnd))
            } else {
                let r3 = r2.skip(1);
                if st.stack.len() == 0 {
                    stop(st, r3, Err(XmlErrorV::ETagAfterRootElement))
                } else {
                    let top = st.stack.last();
                    let st2 = StateV { stack: st.stack.drop_last(), ..st };
                    if top == name {
                        stop(st2, r3, Ok(Some(EventV::ETag(name))))
                    } else {
                        stop(st2, r3, Err(XmlErrorV::WrongETagName(top)))
                    }
                }
            }
        },
    }
}

/// The code of a character, with ASCII capitals taken as small letters.
pub open spec fn ascii_lower(c: char) -> u32 {
    if 'A' <= c <= 'Z' {
        ((c as u32) + 32) as u32
    } else {
        c as u32
    }
}

/// Two texts equal but for the case of ASCII letters.
pub open spec fn eq_ignore_ascii_case(a: Seq<char>, b: Seq<char>) -> bool {
    a.len() == b.len() && forall|i: int| 0 <= i < a.len() ==> ascii_lower(#[trigger] a[i]) == ascii_lower(b[i])
}

/// An XML declaration: sets the version and `standalone`, and fails for an encoding
/// other than UTF-8 without moving on.
#[verifier::opaque]
pub open spec fn spec_decl(st: StateV, rest: Seq<char>) -> StepV {
    match spec_xml_decl(rest) {
        Err(e) => stop(st, rest, Err(e)),
        Ok(((version, encoding, standalone), n)) => {
            let st2 = StateV { version: Some(version), ..st };
            match encoding {
                Some(enc) if !eq_ignore_ascii_case(enc, "UTF-8"@) => StepV {
                    state: st2,
                    rest,
                    result: Err(XmlErrorV::UnsupportedEncoding(enc)),
                    entity: None,
                    standalone: Some(standalone),
                },
                _ => StepV {
                    state: st2,
                    rest: rest_after(rest, n),
                    result: Ok(Some(EventV::XmlDecl { version, encoding, standalone })),
                    entity: None,
                    standalone: Some(standalone),
                },
            }
        },
    }
}

/// A processing instruction.
#[verifier::opaque]
pub open spec fn spec_pi_step(st: StateV, rest: Seq<char>) -> StepV {
    match spec_pi(rest) {
        Err(e) => stop(st, rest, Err(e)),
        Ok(((target, data), n)) => stop(st, rest_after(rest, n), Ok(Some(EventV::PI { target, data }))),
    }
}

/// A comment.
#[verifier::opaque]
pub open spec fn spec_comment_step(st: StateV, rest: Seq<char>) -> StepV {
    match spec_comment(rest) {
        Err(e) => stop(st, rest, Err(e)),
        Ok((c, n)) => stop(st, rest_after(rest, n), Ok(Some(EventV::Comment(c)))),
    }
}

/// A document type declaration.
#[verifier::opaque]
pub open spec fn spec_doctype_step(st: StateV, rest: Seq<char>) -> StepV {
    match spec_doctypedecl(rest) {
        Err(e) => stop(st, rest, Err(e)),
        Ok((d, n)) => stop(st, rest_after(rest, n), Ok(Some(EventV::Dtd(d)))),
    }
}

/// A CDATA section, given as characters.
#[verifier::opaque]
pub open spec fn spec_cdata_step(st: StateV, rest: Seq<char>) -> StepV {
    match spec_cdata(rest) {
        Err(e) => stop(st, rest, Err(e)),
        Ok((c, n)) => stop(st, rest_after(rest, n), Ok(Some(EventV::Characters(c)))),
    }
}

/// Character data, up to the first character that is not content; fails where that one
/// is not an XML character or where there is none.
#[verifier::opaque]
pub open spec fn spec_characters(st: StateV, rest: Seq<char>) -> StepV {
    let k = span(rest, CharClass::ContentChar);
    if k >= rest.len() {
        stop(st, rest, Err(XmlErrorV::UnexpectedEof))
    } else if in_char_table(rest[k as int]) {
        stop(st, rest.skip(k as int), Ok(Some(EventV::Characters(rest.take(k as int)))))
    } else {
        stop(st, rest, Err(XmlErrorV::InvalidCharacter(rest[k as int])))
    }
}

/// A reference: a character reference gives its character; an entity reference to a
/// known entity gives no event and names the entity to read next.
#[verifier::opaque]
pub open spec fn spec_reference(st: StateV, rest: Seq<char>, ents: Seq<(Seq<char>, Seq<char>)>) -> StepV {
    if rest.len() < 2 {
        stop(st, rest, Err(XmlErrorV::IllegalReference))
    } else if rest[1] == '#' {
        match spec_char_ref(rest) {
            Err(e) => stop(st, rest, Err(e)),
            Ok((c, n)) => stop(st, rest_after(rest, n), Ok(Some(EventV::Characters(seq![c])))),
        }
    } else {
        match spec_entity_ref(rest) {
            Err(e) => stop(st, rest, Err(e)),
            Ok((name, n)) => if lookup(ents, name) is Some {
                StepV {
                    state: st,
                    rest: rest_after(rest, n),
                    result: Ok(None),
                    entity: Some(name),
                    standalone: None,
                }
            } else {
                stop(st, rest, Err(XmlErrorV::UnknownEntity(name)))
            },
        }
    }
}

/// Markup that begins with `<`.
#[verifier::opaque]
pub open spec fn spec_markup(st: StateV, rest: Seq<char>, doc: bool) -> StepV {
    if rest.len() < 2 {
        stop(st, rest, Err(XmlErrorV::ExpectedElementStart))
    } else if rest[1] == '/' {
        let r = rest.skip(2);
        if doc && after_root(st) {
            stop(st, r, Err(XmlErrorV::ExpectedDocumentEnd))
        } else {
            spec_etag(st, r)
        }
    } else if rest[1] == '?' {
        if !st.seen_root && st.version is None && is_prefix("<?xml"@, rest) {
            spec_decl(st, rest)
        } else {
            spec_pi_step(st, rest)
        }
    } else if rest[1] == '!' {
        if is_prefix("<!--"@, rest) {
            spec_comment_step(st, rest)
        } else if is_prefix("<!DOCTYPE"@, rest) {
            spec_doctype_step(st, rest)
        } else if is_prefix("<![CDATA["@, rest) {
            spec_cdata_step(st, rest)
        } else {
            stop(st, rest, Err(XmlErrorV::ExpectedElementStart))
        }
    } else {
        spec_stag(st, rest.skip(1))
    }
}

/// The step from the current position: white space outside the elements and a carriage
/// return before a line feed are passed over.
pub open spec fn spec_scan(st: StateV, rest: Seq<char>, ents: Seq<(Seq<char>, Seq<char>)>, doc: bool) -> StepV
    decreases rest.len(),
{
    if rest.len() == 0 {
        if st.stack.len() > 0 {
            stop(st, rest, Err(XmlErrorV::OpenElementAtEof))
        } else {
            stop(st, rest, Ok(None))
        }
    } else {
        let c = rest[0];
        if c == '<' {
            spec_markup(st, rest, doc)
        } else if c == '&' {
            spec_reference(st, rest, ents)
        } else if c == '\r' {
            if rest.len() > 1 && rest[1] == '\n' {
                spec_scan(st, rest.skip(1), ents, doc)
            } else {
                stop(st, rest.skip(1), Ok(Some(EventV::Characters(seq!['\n']))))
            }
        } else if st.stack.len() == 0 {
            if char_is_whitespace(c) {
                spec_scan(st, rest_after(rest, ws(rest)), ents, doc)
            } else {
                stop(st, rest, Err(XmlErrorV::UnexpectedCharacter(c)))
            }
        } else {
            spec_characters(st, rest)
        }
    }
}

/// One step of a parser in state `st` on the rest `rest`, with the entities `ents`;
/// `doc` tells a document from an entity's text. The attributes of the last start tag
/// are cleared first; an empty element's end tag comes right after its start tag.
pub open spec fn spec_step(st: StateV, rest: Seq<char>, ents: Seq<(Seq<char>, Seq<char>)>, doc: bool) -> StepV {
    let st0 = StateV { attrs: Seq::empty(), ..st };
    if st.empty {
        stop(
            StateV { empty: false, stack: st0.stack.drop_last(), ..st0 },
            rest,
            Ok(Some(EventV::ETag(st0.stack.last()))),
        )
    } else {
        spec_scan(st0, rest, ents, doc)
    }
}

/// How a step changes the stack of open elements: a start tag pushes its name, an end
/// tag pops the innermost open element, whose name it carries, and every other outcome
/// that is not an error keeps the stack.
pub open spec fn machine_stack_step(before: Seq<Seq<char>>, step: StepV) -> bool {
    match step.result {
        Ok(Some(EventV::STag { name, .. })) => step.state.stack == before.push(name),
        Ok(Some(EventV::ETag(name))) => before.len() > 0 && name == before.last()
            && step.state.stack == before.drop_last(),
        Ok(_) => step.state.stack == before,
        Err(_) => true,
    }
}

proof fn lemma_markup_stack(st: StateV, rest: Seq<char>, doc: bool)
    ensures
        machine_stack_step(st.stack, spec_markup(st, rest, doc)),
{
    reveal(spec_markup);
    reveal(spec_etag);
    reveal(spec_stag);
    reveal(spec_decl);
    reveal(spec_pi_step);
    reveal(spec_comment_step);
    reveal(spec_doctype_step);
    reveal(spec_cdata_step);
}

proof fn lemma_scan_stack(st: StateV, rest: Seq<char>, ents: Seq<(Seq<char>, Seq<char>)>, doc: bool)
    ensures
        machine_stack_step(st.stack, spec_scan(st, rest, ents, doc)),
    decreases rest.len(),
{
    reveal(spec_reference);
    reveal(spec_characters);
    if rest.len() > 0 {
        let c = rest[0];
        if c == '<' {
            lemma_markup_stack(st, rest, doc);
        } else if c == '\r' && rest.len() > 1 && rest[1] == '\n' {
            lemma_scan_stack(st, rest.skip(1), ents, doc);
        } else if c != '&' && c != '\r' && st.stack.len() == 0 && char_is_whitespace(c) {
            lemma_span_props(rest, CharClass::Whitespace);
            lemma_scan_stack(st, rest_after(rest, ws(rest)), ents, doc);
        }
    }
}

/// Every step of a parser keeps the stack discipline: a start tag pushes its name, an
/// end tag pops the innermost open element and carries its name (a wrong name is an
/// error), and other events leave the stack as it is.
pub proof fn lemma_step_stack(st: StateV, rest: Seq<char>, ents: Seq<(Seq<char>, Seq<char>)>, doc: bool)
    requires
        st.empty ==> st.stack.len() > 0,
    ensures
        machine_stack_step(st.stack, spec_step(st, rest, ents, doc)),
{
    if !st.empty {
        lemma_scan_stack(StateV { attrs: Seq::empty(), ..st }, rest, ents, doc);
    }
}

/// What a step ends a parser's input with: none, with no entity text to read next.
pub open spec fn ends_input(step: StepV) -> bool {
    step.result == Ok::<Option<EventV>, XmlErrorV>(None) && step.entity is None
}

proof fn lemma_markup_end(st: StateV, rest: Seq<char>, doc: bool)
    ensures
        ends_input(spec_markup(st, rest, doc)) ==> spec_markup(st, rest, doc).state.stack.len() == 0,
{
    reveal(spec_markup);
    reveal(spec_etag);
    reveal(spec_stag);
    reveal(spec_decl);
    reveal(spec_pi_step);
    reveal(spec_comment_step);
    reveal(spec_doctype_step);
    reveal(spec_cdata_step);
}

proof fn lemma_scan_end(st: StateV, rest: Seq<char>, ents: Seq<(Seq<char>, Seq<char>)>, doc: bool)
    ensures
        ends_input(spec_scan(st, rest, ents, doc)) ==> spec_scan(st, rest, ents, doc).state.stack.len() == 0,
    decreases rest.len(),
{
    reveal(spec_reference);
    reveal(spec_characters);
    if rest.len() > 0 {
        let c = rest[0];
        if c == '<' {
            lemma_markup_end(st, rest, doc);
        } else if c == '\r' && rest.len() > 1 && rest[1] == '\n' {
            lemma_scan_end(st, rest.skip(1), ents, doc);
        } else if c != '&' && c != '\r' && st.stack.len() == 0 && char_is_whitespace(c) {
            lemma_span_props(rest, CharClass::Whitespace);
            lemma_scan_end(st, rest_after(rest, ws(rest)), ents, doc);
        }
    }
}

/// A parser's input ends only where no element is open: a step that gives no event and
/// no entity text to read next leaves the stack of open elements empty.
pub proof fn lemma_step_ends_at_depth_zero(st: StateV, rest: Seq<char>, ents: Seq<(Seq<char>, Seq<char>)>, doc: bool)
    ensures
        ends_input(spec_step(st, rest, ents, doc)) ==> spec_step(st, rest, ents, doc).state.stack.len() == 0,
{
    if !st.empty {
        lemma_scan_end(StateV { attrs: Seq::empty(), ..st }, rest, ents, doc);
    }
}

/// The step opens an element.
pub open spec fn opens_element(step: StepV) -> bool {
    step.result matches Ok(Some(EventV::STag { .. }))
}

proof fn lemma_markup_after_root(st: StateV, rest: Seq<char>, doc: bool)
    requires
        after_root(st),
    ensures
        !opens_element(spec_markup(st, rest, doc)),
{
    reveal(spec_markup);
    reveal(spec_etag);
    reveal(spec_stag);
    reveal(spec_decl);
    reveal(spec_pi_step);
    reveal(spec_comment_step);
    reveal(spec_doctype_step);
    reveal(spec_cdata_step);
}

proof fn lemma_scan_after_root(st: StateV, rest: Seq<char>, ents: Seq<(Seq<char>, Seq<char>)>, doc: bool)
    requires
        after_root(st),
    ensures
        !opens_element(spec_scan(st, rest, ents, doc)),
    decreases rest.len(),
{
    reveal(spec_reference);
    reveal(spec_characters);
    if rest.len() > 0 {
        let c = rest[0];
        if c == '<' {
            lemma_markup_after_root(st, rest, doc);
        } else if c == '\r' && rest.len() > 1 && rest[1] == '\n' {
            lemma_scan_after_root(st, rest.skip(1), ents, doc);
        } else if c != '&' && c != '\r' && st.stack.len() == 0 && char_is_whitespace(c) {
            lemma_span_props(rest, CharClass::Whitespace);
            lemma_scan_after_root(st, rest_after(rest, ws(rest)), ents, doc);
        }
    }
}

/// Nothing follows the root element: once it began and ended, no step opens another
/// element.
pub proof fn lemma_no_element_after_root(st: StateV, rest: Seq<char>, ents: Seq<(Seq<char>, Seq<char>)>, doc: bool)
    requires
        after_root(st),
    ensures
        !opens_element(spec_step(st, rest, ents, doc)),
{
    if !st.empty {
        lemma_scan_after_root(StateV { attrs: Seq::empty(), ..st }, rest, ents, doc);
    }
}

/// A step leaves a state that owes an end tag only where an element is open, does not
/// forget that the root element began, and after an empty element's start tag owes its
/// end tag.
pub open spec fn step_keeps(before: StateV, step: StepV) -> bool {
    &&& state_wf(step.state)
    &&& before.seen_root ==> step.state.seen_root
    &&& step.result matches Ok(Some(EventV::STag { empty, .. })) ==> step.state.empty == empty
}

proof fn lemma_markup_keeps(st: StateV, rest: Seq<char>, doc: bool)
    requires
        state_wf(st),
        !st.empty,
    ensures
        step_keeps(st, spec_markup(st, rest, doc)),
{
    lemma_markup_wf(st, rest, doc);
    reveal(spec_markup);
    reveal(spec_etag);
    reveal(spec_stag);
    reveal(spec_decl);
    reveal(spec_pi_step);
    reveal(spec_comment_step);
    reveal(spec_doctype_step);
    reveal(spec_cdata_step);
}

proof fn lemma_scan_keeps(st: StateV, rest: Seq<char>, ents: Seq<(Seq<char>, Seq<char>)>, doc: bool)
    requires
        state_wf(st),
        !st.empty,
    ensures
        step_keeps(st, spec_scan(st, rest, ents, doc)),
    decreases rest.len(),
{
    reveal(spec_reference);
    reveal(spec_characters);
    if rest.len() > 0 {
        let c = rest[0];
        if c == '<' {
            lemma_markup_keeps(st, rest, doc);
        } else if c == '\r' && rest.len() > 1 && rest[1] == '\n' {
            lemma_scan_keeps(st, rest.skip(1), ents, doc);
        } else if c != '&' && c != '\r' && st.stack.len() == 0 && char_is_whitespace(c) {
            lemma_span_props(rest, CharClass::Whitespace);
            lemma_scan_keeps(st, rest_after(rest, ws(rest)), ents, doc);
        }
    }
}

/// Every step keeps a well-formed state well formed and remembers that the root element
/// began.
pub proof fn lemma_step_keeps(st: StateV, rest: Seq<char>, ents: Seq<(Seq<char>, Seq<char>)>, doc: bool)
    requires
        state_wf(st),
    ensures
        step_keeps(st, spec_step(st, rest, ents, doc)),
{
    if !st.empty {
        lemma_scan_keeps(StateV { attrs: Seq::empty(), ..st }, rest, ents, doc);
    }
}

/// The context that the parsers of a document share.
pub struct DocumentContext {
    pub standalone: Option<bool>,
    pub version: Option<String>,
    pub entities: Entities,
    pub next_entity: Option<Entity>,
}

/// The event or error of a step, by their contents.
pub open spec fn result_view<'b>(r: Result<Option<XmlEvent<'b>>, XmlError>) -> Result<Option<EventV>, XmlErrorV> {
    match r {
        Ok(Some(e)) => Ok(Some(event_view(e))),
        Ok(None) => Ok(None),
        Err(e) => Err(e@),
    }
}

/// A step ended in state `st` at `cur` with `res`, as `sp` says.
pub open spec fn stepped<'b>(st: StateV, cur: Cursor<'b>, res: Result<Option<XmlEvent<'b>>, XmlError>, sp: StepV) -> bool {
    &&& st == sp.state
    &&& cur@ == sp.rest
    &&& result_view(res) == sp.result
}

impl<'a> ParserState<'a> {
    /// The state before the first event.
    pub fn new() -> (r: Self)
        ensures
            r@ == (StateV {
                attrs: Seq::empty(),
                empty: false,
                seen_root: false,
                stack: Seq::empty(),
                version: None,
            }),
    {
        let r = ParserState {
            attributes: Vec::new(),
            empty: false,
            seen_root: false,
            stack: Vec::new(),
            version: None,
        };
        assert(r@.attrs =~= Seq::<(Seq<char>, Seq<char>)>::empty());
        assert(r@.stack =~= Seq::<Seq<char>>::empty());
        r
    }
}

/// Whether an attribute named `name` was read.
pub(crate) fn has_attribute_named<'b>(attrs: &Vec<Attribute<'b>>, name: &str) -> (r: bool)
    ensures
        r == has_attr(attrs_view(attrs@), name@),
{
    let mut i: usize = 0;
    while i < attrs.len()
        invariant
            0 <= i <= attrs@.len(),
            forall|j: int| 0 <= j < i ==> attrs_view(attrs@)[j].0 != name@,
        decreases attrs@.len() - i,
    {
        if str_eq(cow_str(&attrs[i].name), name) {
            assert(attrs_view(attrs@)[i as int].0 == name@);
            return true;
        }
        i += 1;
    }
    false
}

proof fn lemma_no_move<'b>(c: Cursor<'b>)
    ensures
        c.followed_by(c),
        consumed(c, c) == 0,
{
    crate::parser::cursor::lemma_stay(c);
}

/// The result of reading the rest of a start tag from `from` with `attrs` and `ws`
/// is that of reading it from `start` with `attrs0` and `ws0`, `from` being later by
/// `d` characters.
pub open spec fn same_tag_outcome(
    attrs: Seq<(Seq<char>, Seq<char>)>,
    from: Seq<char>,
    ws: bool,
    attrs0: Seq<(Seq<char>, Seq<char>)>,
    start: Seq<char>,
    ws0: bool,
    d: nat,
) -> bool {
    let (a, r) = spec_stag_rest(attrs, from, ws);
    let (a0, r0) = spec_stag_rest(attrs0, start, ws0);
    &&& a == a0
    &&& match r {
        Ok((e, k)) => r0 == Ok::<(bool, nat), XmlErrorV>((e, k + d)),
        Err(err) => r0 == Err::<(bool, nat), XmlErrorV>(err),
    }
}

/// Reads an attribute and the white space after it.
fn read_attribute<'b>(cur: Cursor<'b>) -> (r: Result<(&'b str, &'b str, bool, Cursor<'b>), XmlError>)
    ensures
        match r {
            Ok((name, value, w, c)) => cur.followed_by(c) && (spec_attribute(cur@) matches Ok(
                (n, v, k, ws, rest),
            ) && n == name@ && v == value@ && w == (ws > 0) && rest == c@ && k + ws == consumed(
                cur,
                c,
            )),
            Err(e) => spec_attribute(cur@) == Err::<(Seq<char>, Seq<char>, nat, nat, Seq<char>), XmlErrorV>(e@),
        },
{
    let (attr_name, a1) = NameToken.parse(cur)?;
    let (_, a2) = EqToken.parse(a1)?;
    let (value, a3) = AttValueToken.parse(a2)?;
    let (w, a4) = match SToken.parse(a3) {
        Ok((_, c)) => (true, c),
        Err(_) => {
            proof {
                lemma_no_move(a3);
            }
            (false, a3)
        },
    };
    proof {
        crate::reader::dtd::lemma_ws_bound(a3@);
        assert(a1@ == rest_after(cur@, consumed(cur, a1)));
        assert(a2@ == rest_after(a1@, consumed(a1, a2)));
        assert(a3@ == rest_after(a2@, consumed(a2, a3)));
        assert(a4@ == rest_after(a3@, ws(a3@)));
        lemma_followed_trans(cur, a1, a2);
        lemma_followed_trans(cur, a2, a3);
        lemma_followed_trans(cur, a3, a4);
    }
    Ok((attr_name, value, w, a4))
}

/// The outcome of a start tag whose attributes and end are read from `c2@`.
pub open spec fn stag_outcome(st0: StateV, r: Seq<char>, name: Seq<char>, c2: Seq<char>, ws0: bool) -> StepV {
    let (attrs, res) = spec_stag_rest(st0.attrs, c2, ws0);
    match res {
        Err(e) => stop(StateV { attrs, ..st0 }, r, Err(e)),
        Ok((empty, k)) => stop(
            StateV { attrs, empty, seen_root: true, stack: st0.stack.push(name), ..st0 },
            rest_after(c2, k),
            Ok(Some(EventV::STag { name, empty, attrs: Seq::empty() })),
        ),
    }
}

/// Reads the attributes and the end of a start tag from `cur`, adding the attributes
/// to `attrs`.
fn read_stag_rest<'b>(attrs: &mut Vec<Attribute<'b>>, cur: Cursor<'b>, got_ws: bool) -> (r: Result<(bool, Cursor<'b>), XmlError>)
    ensures
        ({
            let (a, res) = spec_stag_rest(attrs_view(old(attrs)@), cur@, got_ws);
            &&& attrs_view(final(attrs)@) == a
            &&& match r {
                Ok((e, c)) => cur.followed_by(c) && res == Ok::<(bool, nat), XmlErrorV>((e, consumed(cur, c))),
                Err(err) => res == Err::<(bool, nat), XmlErrorV>(err@),
            }
        }),
    decreases cur@.len(),
{
    proof {
        lemma_stag_rest_end(attrs_view(attrs@), cur@, got_ws);
    }
    let c = match cur.next_char() {
        None => {
            return Err(XmlError::ExpectedElementEnd);
        },
        Some(c) => c,
    };
    if c == '/' {
        if !cur.has_next_str("/>") {
            proof {
                reveal_strlit("/>");
                if cur@.len() > 1 && cur@[1] == '>' {
                    assert(cur@.take(2) =~= "/>"@);
                }
            }
            return Err(XmlError::ExpectedElementEnd);
        }
        proof {
            reveal_strlit("/>");
            assert(cur@.take(2)[1] == '>');
        }
        let c3 = cur.skip_char('/');
        let c4 = c3.skip_char('>');
        proof {
            lemma_followed_trans(cur, c3, c4);
        }
        return Ok((true, c4));
    }
    if c == '>' {
        return Ok((false, cur.skip_char('>')));
    }
    if !got_ws {
        return Err(XmlError::ExpectedWhitespace);
    }
    proof {
        lemma_stag_rest_attr(attrs_view(attrs@), cur@);
    }
    let (attr_name, value, w, next) = read_attribute(cur)?;
    if has_attribute_named(attrs, attr_name) {
        return Err(XmlError::NonUniqueAttribute { attribute: attr_name.to_owned() });
    }
    let ghost before = attrs_view(attrs@);
    attrs.push(Attribute::new(attr_name, value));
    proof {
        assert(attrs_view(attrs@) =~= before.push((attr_name@, value@)));
    }
    match read_stag_rest(attrs, next, w) {
        Ok((e, end)) => {
            proof {
                lemma_followed_trans(cur, next, end);
            }
            Ok((e, end))
        },
        Err(err) => Err(err),
    }
}

fn parse_stag<'b>(state: &mut ParserState<'b>, r: Cursor<'b>) -> (res: (Cursor<'b>, Result<Option<XmlEvent<'b>>, XmlError>))
    ensures
        r.followed_by(res.0),
        stepped(final(state)@, res.0, res.1, spec_stag(old(state)@, r@)),
        quiet(spec_stag(old(state)@, r@)),
{
    proof {
        reveal(spec_stag);
        lemma_no_move(r);
    }
    if state.stack.len() == 0 && state.seen_root {
        return (r, Err(XmlError::ExpectedDocumentEnd));
    }
    let (name, c1) = match NameToken.parse(r) {
        Ok(x) => x,
        Err(e) => {
            return (r, Err(e));
        },
    };
    let (got_ws, c2) = match SToken.parse(c1) {
        Ok((_, c)) => (true, c),
        Err(_) => {
            proof {
                lemma_no_move(c1);
            }
            (false, c1)
        },
    };
    proof {
        crate::reader::dtd::lemma_ws_bound(c1@);
        lemma_followed_trans(r, c1, c2);
        assert(c1@ == rest_after(r@, consumed(r, c1)));
        assert(c2@ == rest_after(c1@, ws(c1@)));
        assert(got_ws == (ws(c1@) > 0));
    }
    match read_stag_rest(&mut state.attributes, c2, got_ws) {
        Err(e) => (r, Err(e)),
        Ok((empty, end)) => {
            proof {
                lemma_followed_trans(r, c2, end);
                assert(end@ == rest_after(c2@, consumed(c2, end)));
            }
            let ghost st0 = state.stack@;
            state.empty = empty;
            state.seen_root = true;
            state.stack.push(Cow::Borrowed(name));
            proof {
                assert(cows_view(state.stack@) =~= cows_view(st0).push(name@));
            }
            let ev = XmlEvent::stag(name, empty);
            proof {
                assert(attrs_view(ev->STag_0.attrs@) =~= Seq::<(Seq<char>, Seq<char>)>::empty());
            }
            (end, Ok(Some(ev)))
        },
    }
}

fn parse_etag<'b>(state: &mut ParserState<'b>, r: Cursor<'b>) -> (res: (Cursor<'b>, Result<Option<XmlEvent<'b>>, XmlError>))
    ensures
        r.followed_by(res.0),
        stepped(final(state)@, res.0, res.1, spec_etag(old(state)@, r@)),
        quiet(spec_etag(old(state)@, r@)),
{
    proof {
        reveal(spec_etag);
        lemma_no_move(r);
    }
    let (name, c1) = match NameToken.parse(r) {
        Ok(x) => x,
        Err(e) => {
            return (r, Err(e));
        },
    };
    let c2 = skip_whitespace(c1);
    proof {
        crate::reader::dtd::lemma_ws_bound(c1@);
        assert(c1@ == rest_after(r@, consumed(r, c1)));
        assert(c2@ == rest_after(c1@, ws(c1@)));
    }
    if !c2.has_next_char('>') {
        return (r, Err(XmlError::ExpectedElementEnd));
    }
    let c3 = c2.skip_char('>');
    proof {
        lemma_followed_trans(r, c1, c2);
        lemma_followed_trans(r, c2, c3);
    }
    let ghost before = state.stack@;
    match state.stack.pop() {
        None => (c3, Err(XmlError::ETagAfterRootElement)),
        Some(expected) => {
            proof {
                assert(cows_view(state.stack@) =~= cows_view(before).drop_last());
            }
            if str_eq(cow_str(&expected), name) {
                (c3, Ok(Some(XmlEvent::etag(name))))
            } else {
                (c3, Err(XmlError::WrongETagName { expected_name: cow_str(&expected).to_owned() }))
            }
        },
    }
}

/// Whether two texts are equal but for the case of ASCII letters.
pub fn str_eq_ignore_ascii_case(a: &str, b: &str) -> (r: bool)
    ensures
        r == eq_ignore_ascii_case(a@, b@),
{
    let mut ia = a.chars();
    let mut ib = b.chars();
    let ghost mut k: int = 0;
    loop
        invariant
            0 <= k <= a@.len(),
            0 <= k <= b@.len(),
            ia.remaining() == a@.skip(k),
            ib.remaining() == b@.skip(k),
            forall|i: int| 0 <= i < k ==> ascii_lower(#[trigger] a@[i]) == ascii_lower(b@[i]),
        decreases a@.len() - k,
    {
        let x = ia.next();
        let y = ib.next();
        match (x, y) {
            (None, None) => {
                return true;
            },
            (Some(x), Some(y)) => {
                proof {
                    assert(x == a@[k]);
                    assert(y == b@[k]);
                }
                let lx = if x >= 'A' && x <= 'Z' {
                    x as u32 + 32
                } else {
                    x as u32
                };
                let ly = if y >= 'A' && y <= 'Z' {
                    y as u32 + 32
                } else {
                    y as u32
                };
                if lx != ly {
                    return false;
                }
                proof {
                    k = k + 1;
                }
            },
            _ => {
                return false;
            },
        }
    }
}

/// The context after a step: `standalone` as the step says, the rest as before.
pub open spec fn ctx_after(old_ctx: DocumentContext, new_ctx: DocumentContext, sp: StepV) -> bool {
    &&& new_ctx.entities == old_ctx.entities
    &&& new_ctx.version == old_ctx.version
    &&& new_ctx.standalone == match sp.standalone {
        Some(sd) => sd,
        None => old_ctx.standalone,
    }
    &&& match sp.entity {
        Some(name) => new_ctx.next_entity matches Some(e) && e.name() == name && lookup(
            old_ctx.entities@,
            name,
        ) == Some(e.text()),
        None => new_ctx.next_entity == old_ctx.next_entity,
    }
}

fn parse_decl<'b>(state: &mut ParserState<'b>, cursor: Cursor<'b>, ctx: &mut DocumentContext) -> (res: (
    Cursor<'b>,
    Result<Option<XmlEvent<'b>>, XmlError>,
))
    ensures
        cursor.followed_by(res.0),
        stepped(final(state)@, res.0, res.1, spec_decl(old(state)@, cursor@)),
        ctx_after(*old(ctx), *final(ctx), spec_decl(old(state)@, cursor@)),
{
    proof {
        reveal(spec_decl);
        lemma_no_move(cursor);
    }
    let (decl, c) = match XmlDeclToken.parse(cursor) {
        Ok(x) => x,
        Err(e) => {
            return (cursor, Err(e));
        },
    };
    state.version = Some(decl.version.clone());
    ctx.standalone = decl.standalone;
    if let Some(enc) = &decl.encoding {
        if !str_eq_ignore_ascii_case(enc.as_str(), "UTF-8") {
            return (cursor, Err(XmlError::UnsupportedEncoding(enc.clone())));
        }
    }
    (c, Ok(Some(XmlEvent::XmlDecl(decl))))
}

fn parse_pi<'b>(cursor: Cursor<'b>) -> (res: (Cursor<'b>, Result<Option<XmlEvent<'b>>, XmlError>))
    ensures
        cursor.followed_by(res.0),
        forall|st: StateV| stepped(st, res.0, res.1, #[trigger] spec_pi_step(st, cursor@)),
        forall|st: StateV| quiet(#[trigger] spec_pi_step(st, cursor@)),
{
    proof {
        reveal(spec_pi_step);
        lemma_no_move(cursor);
    }
    match PIToken.parse(cursor) {
        Ok(((target, data), c)) => {
            let data = match data {
                Some(d) => Some(Cow::Borrowed(d)),
                None => None,
            };
            (c, Ok(Some(XmlEvent::PI(PI { target: Cow::Borrowed(target), data }))))
        },
        Err(e) => (cursor, Err(e)),
    }
}

fn parse_comment<'b>(cursor: Cursor<'b>) -> (res: (Cursor<'b>, Result<Option<XmlEvent<'b>>, XmlError>))
    ensures
        cursor.followed_by(res.0),
        forall|st: StateV| stepped(st, res.0, res.1, #[trigger] spec_comment_step(st, cursor@)),
        forall|st: StateV| quiet(#[trigger] spec_comment_step(st, cursor@)),
{
    proof {
        reveal(spec_comment_step);
        lemma_no_move(cursor);
    }
    match CommentToken.parse(cursor) {
        Ok((comment, c)) => (c, Ok(Some(XmlEvent::comment(comment)))),
        Err(e) => (cursor, Err(e)),
    }
}

#[verifier::rlimit(40)]
#[verifier::spinoff_prover]
fn parse_doctype<'b>(cursor: Cursor<'b>) -> (res: (Cursor<'b>, Result<Option<XmlEvent<'b>>, XmlError>))
    ensures
        cursor.followed_by(res.0),
        forall|st: StateV| stepped(st, res.0, res.1, #[trigger] spec_doctype_step(st, cursor@)),
        forall|st: StateV| quiet(#[trigger] spec_doctype_step(st, cursor@)),
{
    proof {
        reveal(spec_doctype_step);
        lemma_no_move(cursor);
    }
    match DocTypeDeclToken.parse(cursor) {
        Ok((decl, c)) => (c, Ok(Some(XmlEvent::Dtd(Box::new(decl))))),
        Err(e) => (cursor, Err(e)),
    }
}

fn parse_cdata<'b>(cursor: Cursor<'b>) -> (res: (Cursor<'b>, Result<Option<XmlEvent<'b>>, XmlError>))
    ensures
        cursor.followed_by(res.0),
        forall|st: StateV| stepped(st, res.0, res.1, #[trigger] spec_cdata_step(st, cursor@)),
        forall|st: StateV| quiet(#[trigger] spec_cdata_step(st, cursor@)),
{
    proof {
        reveal(spec_cdata_step);
        lemma_no_move(cursor);
    }
    match CDataToken.parse(cursor) {
        Ok((chars, c)) => (c, Ok(Some(XmlEvent::characters(chars)))),
        Err(e) => (cursor, Err(e)),
    }
}

fn parse_characters<'b>(cursor: Cursor<'b>) -> (res: (Cursor<'b>, Result<Option<XmlEvent<'b>>, XmlError>))
    ensures
        cursor.followed_by(res.0),
        forall|st: StateV| stepped(st, res.0, res.1, #[trigger] spec_characters(st, cursor@)),
        forall|st: StateV| quiet(#[trigger] spec_characters(st, cursor@)),
{
    proof {
        reveal(spec_characters);
        lemma_no_move(cursor);
    }
    let (k, n) = scan_while(cursor.rest(), CharClass::ContentChar);
    let total = byte_len(cursor.rest());
    proof {
        lemma_span_props(cursor@, CharClass::ContentChar);
        if k < cursor@.len() {
            crate::reader::tokens::lemma_blen_lt(cursor@, k as int);
        } else {
            assert(cursor@.take(k as int) =~= cursor@);
        }
    }
    if n == total {
        return (cursor, Err(XmlError::UnexpectedEof));
    }
    let (chars, rest) = cursor.split_chars(Ghost(k as int), n);
    let c = rest.next_char().unwrap();
    if crate::chars::char_xml(c) {
        (rest, Ok(Some(XmlEvent::characters(chars))))
    } else {
        (cursor, Err(XmlError::InvalidCharacter(c)))
    }
}

/// `char::to_string`: the text of one character.
#[verifier::external_body]
pub(crate) fn char_string(c: char) -> (r: String)
    ensures
        r@ == seq![c],
{
    c.to_string()
}

fn parse_reference<'b>(cursor: Cursor<'b>, ctx: &mut DocumentContext) -> (res: (Cursor<'b>, Result<Option<XmlEvent<'b>>, XmlError>))
    requires
        cursor@.len() > 0,
        cursor@[0] == '&',
    ensures
        cursor.followed_by(res.0),
        forall|st: StateV| stepped(st, res.0, res.1, #[trigger] spec_reference(st, cursor@, old(ctx).entities@)),
        forall|st: StateV| ctx_after(*old(ctx), *final(ctx), #[trigger] spec_reference(st, cursor@, old(ctx).entities@)),
{
    proof {
        reveal(spec_reference);
        lemma_no_move(cursor);
    }
    let c1 = cursor.skip_char('&');
    match c1.next_char() {
        None => (cursor, Err(XmlError::IllegalReference)),
        Some(c) => {
            if c == '#' {
                match CharRefToken.parse(cursor) {
                    Ok((character, c2)) => (c2, Ok(Some(XmlEvent::Characters(Cow::Owned(char_string(character)))))),
                    Err(e) => (cursor, Err(e)),
                }
            } else {
                match EntityRefToken.parse(cursor) {
                    Err(e) => (cursor, Err(e)),
                    Ok((name, c2)) => match ctx.entities.get_rc(name) {
                        Some(entity) => {
                            ctx.next_entity = Some(entity);
                            (c2, Ok(None))
                        },
                        None => (cursor, Err(XmlError::UnknownEntity(name.to_owned()))),
                    },
                }
            }
        },
    }
}

fn parse_markup<'b>(state: &mut ParserState<'b>, cursor: Cursor<'b>, ctx: &mut DocumentContext, doc: bool) -> (res: (
    Cursor<'b>,
    Result<Option<XmlEvent<'b>>, XmlError>,
))
    requires
        cursor@.len() > 0,
        cursor@[0] == '<',
    ensures
        cursor.followed_by(res.0),
        stepped(final(state)@, res.0, res.1, spec_markup(old(state)@, cursor@, doc)),
        ctx_after(*old(ctx), *final(ctx), spec_markup(old(state)@, cursor@, doc)),
{
    proof {
        reveal(spec_markup);
        lemma_no_move(cursor);
    }
    let c1 = cursor.skip_char('<');
    let c = match c1.next_char() {
        None => {
            return (cursor, Err(XmlError::ExpectedElementStart));
        },
        Some(c) => c,
    };
    if c == '/' {
        let r = c1.skip_char('/');
        proof {
            lemma_followed_trans(cursor, c1, r);
            assert(r@ =~= cursor@.skip(2));
        }
        if doc && state.stack.len() == 0 && state.seen_root {
            return (r, Err(XmlError::ExpectedDocumentEnd));
        }
        let (end, res) = parse_etag(state, r);
        proof {
            lemma_followed_trans(cursor, r, end);
        }
        (end, res)
    } else if c == '?' {
        if !state.seen_root && state.version.is_none() && cursor.has_next_str("<?xml") {
            parse_decl(state, cursor, ctx)
        } else {
            parse_pi(cursor)
        }
    } else if c == '!' {
        if cursor.has_next_str("<!--") {
            parse_comment(cursor)
        } else if cursor.has_next_str("<!DOCTYPE") {
            parse_doctype(cursor)
        } else if cursor.has_next_str("<![CDATA[") {
            parse_cdata(cursor)
        } else {
            (cursor, Err(XmlError::ExpectedElementStart))
        }
    } else {
        proof {
            assert(c1@ =~= cursor@.skip(1));
        }
        let (end, res) = parse_stag(state, c1);
        proof {
            lemma_followed_trans(cursor, c1, end);
        }
        (end, res)
    }
}

/// The step from `cursor` in state `state`, whose attributes are cleared and which owes
/// no end tag.
fn scan<'b>(state: &mut ParserState<'b>, cursor: Cursor<'b>, ctx: &mut DocumentContext, doc: bool) -> (res: (
    Cursor<'b>,
    Result<Option<XmlEvent<'b>>, XmlError>,
))
    requires
        !old(state)@.empty,
    ensures
        cursor.followed_by(res.0),
        stepped(final(state)@, res.0, res.1, spec_scan(old(state)@, cursor@, old(ctx).entities@, doc)),
        ctx_after(*old(ctx), *final(ctx), spec_scan(old(state)@, cursor@, old(ctx).entities@, doc)),
        state_wf(final(state)@),
    decreases cursor@.len(),
{
    proof {
        lemma_no_move(cursor);
    }
    let c = match cursor.next_char() {
        None => {
            return (
                cursor,
                if state.stack.len() > 0 {
                    Err(XmlError::OpenElementAtEof)
                } else {
                    Ok(None)
                },
            );
        },
        Some(c) => c,
    };
    if c == '<' {
        let (end, res) = parse_markup(state, cursor, ctx, doc);
        proof {
            lemma_markup_wf(old(state)@, cursor@, doc);
        }
        return (end, res);
    }
    if c == '&' {
        let (end, res) = parse_reference(cursor, ctx);
        proof {
            reveal(spec_reference);
        }
        return (end, res);
    }
    if c == '\r' {
        let c1 = cursor.skip_char('\r');
        if c1.has_next_char('\n') {
            let (end, res) = scan(state, c1, ctx, doc);
            proof {
                lemma_followed_trans(cursor, c1, end);
            }
            return (end, res);
        }
        proof {
            reveal_strlit("\n");
            assert("\n"@ =~= seq!['\n']);
            assert(c1@ =~= cursor@.skip(1));
        }
        return (c1, Ok(Some(XmlEvent::characters("\n"))));
    }
    if state.stack.len() == 0 {
        if crate::chars::char_whitespace(c) {
            let c1 = skip_whitespace(cursor);
            proof {
                crate::reader::dtd::lemma_ws_bound(cursor@);
            }
            let (end, res) = scan(state, c1, ctx, doc);
            proof {
                lemma_followed_trans(cursor, c1, end);
            }
            return (end, res);
        }
        return (cursor, Err(XmlError::UnexpectedCharacter(c)));
    }
    let (end, res) = parse_characters(cursor);
    proof {
        reveal(spec_characters);
    }
    (end, res)
}

/// Markup keeps a state that owes no end tag well formed.
proof fn lemma_markup_wf(st: StateV, rest: Seq<char>, doc: bool)
    requires
        !st.empty,
    ensures
        state_wf(spec_markup(st, rest, doc).state),
{
    reveal(spec_markup);
    reveal(spec_etag);
    reveal(spec_stag);
    reveal(spec_decl);
    reveal(spec_pi_step);
    reveal(spec_comment_step);
    reveal(spec_doctype_step);
    reveal(spec_cdata_step);
}

/// One step of a parser: the next event, or none at the end or before an entity's
/// text, or the error.
pub fn step<'b>(state: &mut ParserState<'b>, cursor: Cursor<'b>, ctx: &mut DocumentContext, doc: bool) -> (res: (
    Cursor<'b>,
    Result<Option<XmlEvent<'b>>, XmlError>,
))
    requires
        state_wf(old(state)@),
    ensures
        cursor.followed_by(res.0),
        stepped(final(state)@, res.0, res.1, spec_step(old(state)@, cursor@, old(ctx).entities@, doc)),
        ctx_after(*old(ctx), *final(ctx), spec_step(old(state)@, cursor@, old(ctx).entities@, doc)),
        state_wf(final(state)@),
{
    proof {
        lemma_no_move(cursor);
    }
    state.attributes.clear();
    proof {
        assert(attrs_view(state.attributes@) =~= Seq::<(Seq<char>, Seq<char>)>::empty());
    }
    if state.empty {
        state.empty = false;
        let ghost before = state.stack@;
        let name = state.stack.pop().unwrap();
        proof {
            assert(cows_view(state.stack@) =~= cows_view(before).drop_last());
        }
        return (cursor, Ok(Some(XmlEvent::ETag(ETag { name }))));
    }
    scan(state, cursor, ctx, doc)
}

impl<'a> ParserState<'a> {
    /// A copy of the state that owns all its texts.
    pub fn into_owned(self) -> (r: ParserState<'static>)
        ensures
            r@ == self@,
    {
        let ParserState { attributes, empty, seen_root, stack, version } = self;
        let mut owned_attrs: Vec<Attribute<'static>> = Vec::new();
        for attr in iter: attributes.into_iter()
            invariant
                owned_attrs@.len() == iter.index(),
                iter.seq() == self.attributes@,
                attrs_view(owned_attrs@) == attrs_view(self.attributes@.take(owned_attrs@.len() as int)),
        {
            let ghost before = owned_attrs@;
            owned_attrs.push(attr.into_owned());
            proof {
                assert(self.attributes@.take(owned_attrs@.len() as int) =~= self.attributes@.take(
                    before.len() as int,
                ).push(attr));
                assert(attrs_view(owned_attrs@) =~= attrs_view(before).push((attr.name@, attr.value@)));
            }
        }
        let mut owned_stack: Vec<Cow<'static, str>> = Vec::new();
        for name in iter: stack.into_iter()
            invariant
                owned_stack@.len() == iter.index(),
                iter.seq() == self.stack@,
                cows_view(owned_stack@) == cows_view(self.stack@.take(owned_stack@.len() as int)),
        {
            let ghost before = owned_stack@;
            owned_stack.push(crate::events::cow_into_owned(name));
            proof {
                assert(self.stack@.take(owned_stack@.len() as int) =~= self.stack@.take(
                    before.len() as int,
                ).push(name));
                assert(cows_view(owned_stack@) =~= cows_view(before).push(name@));
            }
        }
        proof {
            assert(self.attributes@.take(owned_attrs@.len() as int) =~= self.attributes@);
            assert(self.stack@.take(owned_stack@.len() as int) =~= self.stack@);
        }
        ParserState { attributes: owned_attrs, empty, seen_root, stack: owned_stack, version }
    }
}

/// No `&` in `s` begins an entity reference: each one begins a character reference.
pub open spec fn no_entity_refs(s: Seq<char>) -> bool {
    forall|i: int| 0 <= i < s.len() && #[trigger] s[i] == '&' ==> i + 1 < s.len() && s[i + 1] == '#'
}

/// Markup names no entity.
proof fn lemma_markup_quiet(st: StateV, rest: Seq<char>, doc: bool)
    ensures
        spec_markup(st, rest, doc).entity is None,
{
    reveal(spec_markup);
    reveal(spec_etag);
    reveal(spec_stag);
    reveal(spec_decl);
    reveal(spec_pi_step);
    reveal(spec_comment_step);
    reveal(spec_doctype_step);
    reveal(spec_cdata_step);
}

/// A step on a text without entity references names no entity to read next.
pub proof fn lemma_scan_no_entity(st: StateV, rest: Seq<char>, ents: Seq<(Seq<char>, Seq<char>)>, doc: bool)
    requires
        no_entity_refs(rest),
    ensures
        spec_scan(st, rest, ents, doc).entity is None,
    decreases rest.len(),
{
    reveal(spec_reference);
    reveal(spec_characters);
    if rest.len() > 0 {
        let c = rest[0];
        if c == '<' {
            lemma_markup_quiet(st, rest, doc);
        } else if c == '&' {
            assert(rest[0] == '&');
        } else if c == '\r' {
            if rest.len() > 1 && rest[1] == '\n' {
                assert forall|i: int| 0 <= i < rest.skip(1).len() && #[trigger] rest.skip(1)[i] == '&' implies i + 1 < rest.skip(1).len() && rest.skip(1)[i + 1] == '#' by {
                    assert(rest[i + 1] == '&');
                }
                lemma_scan_no_entity(st, rest.skip(1), ents, doc);
            }
        } else if st.stack.len() == 0 && char_is_whitespace(c) {
            crate::reader::dtd::lemma_ws_bound(rest);
            let r = rest_after(rest, ws(rest));
            let w = ws(rest) as int;
            assert forall|i: int| 0 <= i < r.len() && #[trigger] r[i] == '&' implies i + 1 < r.len() && r[i + 1] == '#' by {
                assert(rest[i + w] == '&');
            }
            lemma_scan_no_entity(st, r, ents, doc);
        }
    }
}

/// A step on a text without entity references names no entity to read next.
pub proof fn lemma_step_no_entity(st: StateV, rest: Seq<char>, ents: Seq<(Seq<char>, Seq<char>)>, doc: bool)
    requires
        no_entity_refs(rest),
    ensures
        spec_step(st, rest, ents, doc).entity is None,
{
    if !st.empty {
        lemma_scan_no_entity(StateV { attrs: Seq::empty(), ..st }, rest, ents, doc);
    }
}

/// A step that names an entity gives no event.
pub proof fn lemma_scan_entity_gives_none(st: StateV, rest: Seq<char>, ents: Seq<(Seq<char>, Seq<char>)>, doc: bool)
    ensures
        spec_scan(st, rest, ents, doc).entity is Some ==> spec_scan(st, rest, ents, doc).result == Ok::<Option<EventV>, XmlErrorV>(None),
    decreases rest.len(),
{
    reveal(spec_reference);
    reveal(spec_characters);
    if rest.len() > 0 {
        let c = rest[0];
        if c == '<' {
            lemma_markup_quiet(st, rest, doc);
        } else if c == '\r' {
            if rest.len() > 1 && rest[1] == '\n' {
                lemma_scan_entity_gives_none(st, rest.skip(1), ents, doc);
            }
        } else if c != '&' && st.stack.len() == 0 && char_is_whitespace(c) {
            lemma_scan_entity_gives_none(st, rest_after(rest, ws(rest)), ents, doc);
        }
    }
}

/// A step that names an entity gives no event.
pub proof fn lemma_step_entity_gives_none(st: StateV, rest: Seq<char>, ents: Seq<(Seq<char>, Seq<char>)>, doc: bool)
    ensures
        spec_step(st, rest, ents, doc).entity is Some ==> spec_step(st, rest, ents, doc).result == Ok::<Option<EventV>, XmlErrorV>(None),
{
    if !st.empty {
        lemma_scan_entity_gives_none(StateV { attrs: Seq::empty(), ..st }, rest, ents, doc);
    }
}

} // verus!

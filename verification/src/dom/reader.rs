//! Reading a document into its tree of elements with quick-xml, each piece checked by a
//! validator.
use vstd::prelude::*;

use crate::dom::chars::{byte_is_xml_whitespace, XmlBytesExt};
use crate::dom::document::{Document, Element};
use crate::dom::error::{Error, Reason};
use crate::dom::quick::{
    buffer_position, end_name, event_at, event_kind, position_at, quick_xml_reader, read_quick_xml_event,
    set_check_comments, set_check_end_names, set_trim_markup_names_in_closing_tags, set_trim_text, start_attributes,
    start_name, text_content, BytesReader, EventKind, ReaderSettings, XmlReadError,
};
use crate::dom::validate::{XmlValidator, XmlValidatorBuilder};
use crate::dom::Span;

verus! {

broadcast use vstd::string::group_string_axioms;

/// Reads a document into its tree.
pub trait DomReader<'r> {
    type Error;

    fn parse(self) -> Result<Document<'r>, Self::Error>;
}

/// An event of a document, as plain values.
pub enum DomEvent {
    Start { name: Vec<u8>, attributes: Vec<u8> },
    End { name: Vec<u8> },
    Empty { name: Vec<u8>, attributes: Vec<u8> },
    Text { content: Vec<u8> },
    Comment { content: Vec<u8> },
    CData { content: Vec<u8> },
    Decl,
    PI { content: Vec<u8> },
    DocType { content: Vec<u8> },
    Eof,
}

/// The element that a start tag at `offset` with the given name and attributes opens:
/// its name after the `<`, its attributes after its name, positions wrapping at the end
/// of `usize`.
pub open spec fn created(e: Element, offset: usize, name_len: nat, attrs_len: nat) -> bool {
    let tag_start = offset.wrapping_add(1);
    let attrs_start = tag_start.wrapping_add(name_len as usize);
    &&& e.spec_offset() == offset
    &&& e.spec_tag().spec_start() == tag_start
    &&& e.spec_tag().spec_len() == name_len
    &&& e.spec_attributes().spec_start() == attrs_start
    &&& e.spec_attributes().spec_len() == attrs_len
    &&& e.spec_text() == Span::empty_spec()
    &&& e.spec_tail() == Span::empty_spec()
    &&& e.spec_children().len() == 0
}

/// What an event inside the root element makes of the reading.
pub enum InnerStep {
    /// Reading goes on.
    Continue,
    /// The root element is closed.
    Done(Element),
    /// Reading fails.
    Fail(Reason),
}

/// The elements below the innermost are kept, and the innermost is `last`.
pub open spec fn top_replaced(old_stack: Seq<Element>, new_stack: Seq<Element>, last: Element) -> bool {
    &&& new_stack.len() == old_stack.len()
    &&& new_stack.last() == last
    &&& forall|i: int| 0 <= i < new_stack.len() - 1 ==> new_stack[i] == old_stack[i]
}

/// An element at `offset` with the given name and attributes.
fn create_at(offset: usize, name: &[u8], attributes: &[u8]) -> (r: Element)
    ensures
        created(r, offset, name@.len(), attributes@.len()),
{
    let tag_start = offset.wrapping_add(1);
    let attrs_start = tag_start.wrapping_add(name.len());
    Element::located(offset, Span::new(tag_start, name.len()), Span::new(attrs_start, attributes.len()))
}

/// What `inner_step` does: the stack `before` becomes `after` with the result `r`, for an
/// event at `off`.
pub open spec fn inner_rel(before: Seq<Element>, event: DomEvent, off: usize, r: InnerStep, after: Seq<Element>) -> bool {
    match event {
        DomEvent::Start { name, attributes } => r is Continue && after.len() == before.len() + 1
            && after.drop_last() == before && created(after.last(), off, name@.len(), attributes@.len()),
        DomEvent::End { .. } => if before.len() == 1 {
            r matches InnerStep::Done(e) && e == before[0] && after.len() == 0
        } else {
            r is Continue && after.len() == before.len() - 1
                && after.drop_last() == before.drop_last().drop_last()
                && Element::child_added(before.drop_last().last(), after.last(), before.last())
        },
        DomEvent::Empty { name, attributes } => r is Continue && after.len() == before.len()
            && after.drop_last() == before.drop_last()
            && Element::child_added(before.last(), after.last(), after.last().spec_children().last())
            && created(after.last().spec_children().last(), off, name@.len(), attributes@.len()),
        DomEvent::Text { content } => r is Continue && if content@.len() == 0 {
            after == before
        } else if before.last().spec_children().len() == 0 {
            top_replaced(before, after, after.last()) && Element::text_set(
                before.last(),
                after.last(),
                Span::new_spec(off, content@.len()),
            )
        } else {
            top_replaced(before, after, after.last()) && Element::last_tail_set(
                before.last(),
                after.last(),
                Span::new_spec(off, content@.len()),
            )
        },
        DomEvent::Comment { .. } | DomEvent::PI { .. } => r is Continue && after == before,
        DomEvent::Decl => r matches InnerStep::Fail(Reason::UnexpectedDecl) && after == before,
        DomEvent::DocType { .. } => r matches InnerStep::Fail(Reason::UnexpectedDocType) && after == before,
        DomEvent::CData { .. } => r matches InnerStep::Fail(Reason::UnexpectedToken(_)) && after == before,
        DomEvent::Eof => r matches InnerStep::Fail(Reason::UnexpectedEof) && after == before,
    }
}

/// What an event inside the root element does to the stack of open elements, innermost
/// last: a start tag opens an element; an end tag closes the innermost, which becomes a
/// child of the one around it or, where none is, is the root read whole; an empty tag adds
/// a child; text that is not empty is the text of the innermost element before its first
/// child, or the text after its last child; comments and processing instructions change
/// nothing; a declaration, a doctype, a CDATA section and the end of the input fail.
pub fn inner_step(stack: &mut Vec<Element>, event: &DomEvent, last_offset: usize) -> (r: InnerStep)
    requires
        old(stack)@.len() > 0,
    ensures
        inner_rel(old(stack)@, *event, last_offset, r, final(stack)@),
{
    match event {
        DomEvent::Start { name, attributes } => {
            let ghost before = stack@;
            stack.push(create_at(last_offset, name.as_slice(), attributes.as_slice()));
            proof {
                assert(stack@.drop_last() =~= before);
            }
            InnerStep::Continue
        },
        DomEvent::End { .. } => {
            let ghost before = stack@;
            let element = stack.pop().unwrap();
            if stack.len() == 0 {
                return InnerStep::Done(element);
            }
            let mut parent = stack.pop().unwrap();
            parent.push_child(element);
            stack.push(parent);
            proof {
                assert(stack@.drop_last() =~= before.drop_last().drop_last());
            }
            InnerStep::Continue
        },
        DomEvent::Empty { name, attributes } => {
            let element = create_at(last_offset, name.as_slice(), attributes.as_slice());
            let ghost before = stack@;
            let mut top = stack.pop().unwrap();
            top.push_child(element);
            stack.push(top);
            proof {
                assert(stack@.drop_last() =~= before.drop_last());
            }
            InnerStep::Continue
        },
        DomEvent::Text { content } => {
            if content.len() > 0 {
                let span = Span::new(last_offset, content.len());
                let ghost before = stack@;
                let mut top = stack.pop().unwrap();
                if top.children().len() == 0 {
                    top.push_text(span);
                } else {
                    top.set_last_tail(span);
                }
                stack.push(top);
                proof {
                    assert forall|i: int| 0 <= i < stack@.len() - 1 implies stack@[i] == before[i] by {
                        assert(stack@[i] == before.drop_last()[i]);
                    }
                }
            }
            InnerStep::Continue
        },
        DomEvent::Comment { .. } | DomEvent::PI { .. } => InnerStep::Continue,
        DomEvent::Decl => InnerStep::Fail(Reason::UnexpectedDecl),
        DomEvent::DocType { .. } => InnerStep::Fail(Reason::UnexpectedDocType),
        DomEvent::CData { .. } => InnerStep::Fail(Reason::UnexpectedToken("CDATA".to_owned())),
        DomEvent::Eof => InnerStep::Fail(Reason::UnexpectedEof),
    }
}

/// What was read before the root element: an XML declaration, a doctype.
pub struct PrologState {
    pub decl: bool,
    pub doctype: bool,
}

/// What an event before the root element makes of the reading.
pub enum PrologStep {
    /// Reading goes on.
    Continue,
    /// The root element is opened.
    Open(Element),
    /// The root element is empty, and read whole.
    Root(Element),
    /// An end tag stands before the root element.
    EndTag,
    /// Reading fails.
    Fail(Reason),
}

/// What `prolog_step` does: the state `before` becomes `after` with the result `r`, for
/// an event at `off`.
pub open spec fn prolog_rel(before: PrologState, event: DomEvent, off: usize, r: PrologStep, after: PrologState) -> bool {
    &&& match event {
        DomEvent::Start { name, attributes } => r matches PrologStep::Open(e) && created(e, off, name@.len(), attributes@.len()),
        DomEvent::Empty { name, attributes } => r matches PrologStep::Root(e) && created(e, off, name@.len(), attributes@.len()),
        DomEvent::End { .. } => r is EndTag,
        DomEvent::Text { content } => if forall|i: int| 0 <= i < content@.len() ==> byte_is_xml_whitespace(#[trigger] content@[i]) {
            r is Continue
        } else {
            r matches PrologStep::Fail(Reason::PrologCharacters)
        },
        DomEvent::CData { .. } => r matches PrologStep::Fail(Reason::PrologCharacters),
        DomEvent::Comment { .. } | DomEvent::PI { .. } => r is Continue,
        DomEvent::Decl => if before.decl || before.doctype {
            r matches PrologStep::Fail(Reason::UnexpectedDecl)
        } else {
            r is Continue && after.decl
        },
        DomEvent::DocType { .. } => if before.doctype {
            r matches PrologStep::Fail(Reason::UnexpectedDocType)
        } else {
            r is Continue && after.doctype
        },
        DomEvent::Eof => r matches PrologStep::Fail(Reason::UnexpectedEof),
    }
    &&& !(event is Decl) ==> after.decl == before.decl
    &&& !(event is DocType) ==> after.doctype == before.doctype
}

/// What an event before the root element does: a start tag opens the root, an empty
/// tag is the root; white space, comments and processing instructions are passed over;
/// one XML declaration may come, before any doctype, and one doctype; any other text, a
/// CDATA section and the end of the input fail.
pub fn prolog_step(state: &mut PrologState, event: &DomEvent, last_offset: usize) -> (r: PrologStep)
    ensures
        prolog_rel(*old(state), *event, last_offset, r, *final(state)),
{
    match event {
        DomEvent::Start { name, attributes } => PrologStep::Open(create_at(last_offset, name.as_slice(), attributes.as_slice())),
        DomEvent::Empty { name, attributes } => PrologStep::Root(create_at(last_offset, name.as_slice(), attributes.as_slice())),
        DomEvent::End { .. } => PrologStep::EndTag,
        DomEvent::Text { content } => {
            if content.as_slice().only_xml_whitespace() {
                PrologStep::Continue
            } else {
                PrologStep::Fail(Reason::PrologCharacters)
            }
        },
        DomEvent::CData { .. } => PrologStep::Fail(Reason::PrologCharacters),
        DomEvent::Comment { .. } | DomEvent::PI { .. } => PrologStep::Continue,
        DomEvent::Decl => {
            if state.decl || state.doctype {
                PrologStep::Fail(Reason::UnexpectedDecl)
            } else {
                state.decl = true;
                PrologStep::Continue
            }
        },
        DomEvent::DocType { .. } => {
            if state.doctype {
                PrologStep::Fail(Reason::UnexpectedDocType)
            } else {
                state.doctype = true;
                PrologStep::Continue
            }
        },
        DomEvent::Eof => PrologStep::Fail(Reason::UnexpectedEof),
    }
}

/// What `epilogue_step` gives for an event.
pub open spec fn epilogue_rel(event: DomEvent, r: Option<bool>) -> bool {
    match event {
        DomEvent::Eof => r == Some(true),
        DomEvent::Text { content } => if forall|i: int| 0 <= i < content@.len() ==> byte_is_xml_whitespace(#[trigger] content@[i]) {
            r == Some(false)
        } else {
            r is None
        },
        _ => r is None,
    }
}

/// After the root element only white space may come before the end of the input:
/// `Some(true)` at the end, `Some(false)` for white space, `None` for anything else.
pub fn epilogue_step(event: &DomEvent) -> (r: Option<bool>)
    ensures
        epilogue_rel(*event, r),
{
    match event {
        DomEvent::Eof => Some(true),
        DomEvent::Text { content } => {
            if content.as_slice().only_xml_whitespace() {
                Some(false)
            } else {
                None
            }
        },
        _ => None,
    }
}

/// The error for a quick-xml error at `offset`: positions that quick-xml gives within
/// the markup are counted from `offset`, wrapping at the end of `usize`.
pub fn xml_error(err: XmlReadError, offset: usize) -> (r: Error)
    requires
        !(err is TextNotFound),
    ensures
        match err {
            XmlReadError::NameWithQuote(pos) => r.spec_offset() == offset.wrapping_add(pos) && r.spec_reason() is NameWithQuote,
            XmlReadError::NoEqAfterName(pos) => r.spec_offset() == offset.wrapping_add(pos) && r.spec_reason() is NoEqAfterName,
            XmlReadError::UnquotedValue(pos) => r.spec_offset() == offset.wrapping_add(pos) && r.spec_reason() is UnquotedValue,
            XmlReadError::DuplicatedAttribute(p1, p2) => r.spec_offset() == offset.wrapping_add(p1)
                && r.spec_reason() == Reason::DuplicatedAttribute(offset.wrapping_add(p2)),
            XmlReadError::Io(_) => r.spec_offset() == offset && r.spec_reason() is Io,
            XmlReadError::Utf8(_) => r.spec_offset() == offset && r.spec_reason() is Utf8,
            XmlReadError::UnexpectedEof(_) => r.spec_offset() == offset && r.spec_reason() is UnexpectedEof,
            XmlReadError::EndEventMismatch { expected, found } => r.spec_offset() == offset
                && r.spec_reason() == (Reason::EndEventMismatch { expected, found }),
            XmlReadError::UnexpectedToken(t) => r.spec_offset() == offset && r.spec_reason() == Reason::UnexpectedToken(t),
            XmlReadError::UnexpectedBang => r.spec_offset() == offset && r.spec_reason() is InvalidBang,
            XmlReadError::XmlDeclWithoutVersion(_) => r.spec_offset() == offset && r.spec_reason() is XmlDeclWithoutVersion,
            XmlReadError::EscapeError => r.spec_offset() == offset && r.spec_reason() is InvalidEntity,
            XmlReadError::TextNotFound => false,
        },
        r.spec_length() == 0,
{
    match err {
        XmlReadError::Io(e) => Error::new(offset, 0, Reason::Io(e)),
        XmlReadError::Utf8(e) => Error::new(offset, 0, Reason::Utf8(e)),
        XmlReadError::UnexpectedEof(_) => Error::new(offset, 0, Reason::UnexpectedEof),
        XmlReadError::EndEventMismatch { expected, found } => Error::new(offset, 0, Reason::EndEventMismatch { expected, found }),
        XmlReadError::UnexpectedToken(token) => Error::new(offset, 0, Reason::UnexpectedToken(token)),
        XmlReadError::UnexpectedBang => Error::new(offset, 0, Reason::InvalidBang),
        XmlReadError::TextNotFound => vstd::pervasive::unreached(),
        XmlReadError::XmlDeclWithoutVersion(_) => Error::new(offset, 0, Reason::XmlDeclWithoutVersion),
        XmlReadError::NameWithQuote(pos) => Error::new(offset.wrapping_add(pos), 0, Reason::NameWithQuote),
        XmlReadError::NoEqAfterName(pos) => Error::new(offset.wrapping_add(pos), 0, Reason::NoEqAfterName),
        XmlReadError::UnquotedValue(pos) => Error::new(offset.wrapping_add(pos), 0, Reason::UnquotedValue),
        XmlReadError::DuplicatedAttribute(pos1, pos2) => Error::new(
            offset.wrapping_add(pos1),
            0,
            Reason::DuplicatedAttribute(offset.wrapping_add(pos2)),
        ),
        XmlReadError::EscapeError => Error::new(offset, 0, Reason::InvalidEntity),
    }
}

/// What a validator gives for an event at `off`, where it carries something to check:
/// the name and attributes of a start or empty tag, the name of an end tag with the
/// element it closes (`top`), text that is not empty inside an element, a comment and a
/// processing instruction. Other events pass.
pub open spec fn validated<'r, V: XmlValidator<'r>>(v: V, off: usize, event: DomEvent, top: Option<Element>, r: Result<(), Error>) -> bool {
    match event {
        DomEvent::Start { name, attributes } | DomEvent::Empty { name, attributes } => exists|n: &[u8], a: &[u8]|
            n@ == name@ && a@ == attributes@ && call_ensures(V::validate_start, (&v, off, n, a), r),
        DomEvent::End { name } => match top {
            Some(element) => exists|n: &[u8]| n@ == name@ && call_ensures(V::validate_end, (&v, off, n, &element), r),
            None => r is Ok,
        },
        DomEvent::Text { content } => if content@.len() > 0 && top is Some {
            exists|c: &[u8]| c@ == content@ && call_ensures(V::validate_text, (&v, off, c), r)
        } else {
            r is Ok
        },
        DomEvent::Comment { content } => exists|c: &[u8]| c@ == content@ && call_ensures(V::validate_comment, (&v, off, c), r),
        DomEvent::PI { content } => exists|c: &[u8]| c@ == content@ && call_ensures(V::validate_pi, (&v, off, c), r),
        _ => r is Ok,
    }
}

/// Where reading a document stands.
pub enum Phase {
    /// Before the root element, with what was read there.
    Prolog(PrologState),
    /// Inside the root element, with the stack of open elements, innermost last.
    Inner(Ghost<Seq<Element>>),
    /// After the root element, which was read whole.
    Epilogue(Element),
    /// At the end of the input, with the root element.
    Finished(Element),
}

/// What the step for an event gave.
pub enum Outcome {
    /// Before the root element: the step and the new state.
    Prolog(PrologStep, PrologState),
    /// Inside the root element: the step and the new stack.
    Inner(InnerStep, Ghost<Seq<Element>>),
    /// After the root element.
    Epilogue(Option<bool>),
}

/// One event read: the event, or none where quick-xml failed to read one; where it
/// starts; what the validator gave for it; and what its step gave (where no step ran,
/// the outcome is not looked at).
pub struct TraceItem {
    pub event: Option<DomEvent>,
    pub offset: usize,
    pub check: Result<(), Error>,
    pub outcome: Outcome,
}

/// The item is what reading does in the phase `ph`: the validator's check of the event
/// (with the innermost open element inside the root, and none after it), then, where
/// the check passes, the step of the phase.
pub open spec fn item_valid<'r, V: XmlValidator<'r>>(v: V, ph: Phase, it: TraceItem) -> bool {
    match it.event {
        None => true,
        Some(ev) => match ph {
            Phase::Prolog(s) => validated(v, it.offset, ev, None, it.check) && (it.check is Ok ==> (it.outcome matches Outcome::Prolog(
                step,
                s2,
            ) && prolog_rel(s, ev, it.offset, step, s2))),
            Phase::Inner(st) => st@.len() > 0 && validated(v, it.offset, ev, Some(st@.last()), it.check) && (it.check is Ok ==> (
            it.outcome matches Outcome::Inner(step, st2) && inner_rel(st@, ev, it.offset, step, st2@))),
            Phase::Epilogue(_) => it.check is Ok && (it.outcome matches Outcome::Epilogue(o) && epilogue_rel(ev, o)),
            Phase::Finished(_) => false,
        },
    }
}

/// The phase after an item read in the phase `ph`, or none where reading fails there.
pub open spec fn next_phase(ph: Phase, it: TraceItem) -> Option<Phase> {
    if it.event is None || it.check is Err {
        None
    } else {
        match it.outcome {
            Outcome::Prolog(PrologStep::Continue, s) => Some(Phase::Prolog(s)),
            Outcome::Prolog(PrologStep::Open(e), _) => Some(Phase::Inner(Ghost(seq![e]))),
            Outcome::Prolog(PrologStep::Root(e), _) => Some(Phase::Epilogue(e)),
            Outcome::Prolog(_, _) => None,
            Outcome::Inner(InnerStep::Continue, st) => Some(Phase::Inner(st)),
            Outcome::Inner(InnerStep::Done(e), _) => Some(Phase::Epilogue(e)),
            Outcome::Inner(InnerStep::Fail(_), _) => None,
            Outcome::Epilogue(Some(true)) => match ph {
                Phase::Epilogue(root) => Some(Phase::Finished(root)),
                _ => None,
            },
            Outcome::Epilogue(Some(false)) => Some(ph),
            Outcome::Epilogue(None) => None,
        }
    }
}

/// The phase after the items, read from the start of the document; none where reading
/// failed.
pub open spec fn phase_after(items: Seq<TraceItem>) -> Option<Phase>
    decreases items.len(),
{
    if items.len() == 0 {
        Some(Phase::Prolog(PrologState { decl: false, doctype: false }))
    } else {
        match phase_after(items.drop_last()) {
            Some(ph) => next_phase(ph, items.last()),
            None => None,
        }
    }
}

/// Each item is what reading does in the phase that the items before it lead to.
pub open spec fn all_valid<'r, V: XmlValidator<'r>>(v: V, items: Seq<TraceItem>) -> bool {
    forall|i: int|
        #![trigger items[i]]
        0 <= i < items.len() ==> (phase_after(items.take(i)) matches Some(ph) && item_valid(v, ph, items[i]))
}

/// `e` is the error that reading fails with on the item: the validator's error, or one
/// with the reason that the step gave: the step's own reason; for an end tag before the
/// root, a mismatch with no name expected and the end tag's name found, or that name not
/// being UTF-8; content after the root. Where quick-xml failed to read, its error, which
/// covers no bytes.
pub open spec fn failed_with(it: TraceItem, e: Error) -> bool {
    match it.event {
        None => e.spec_length() == 0,
        Some(ev) => match it.check {
            Err(c) => e == c,
            Ok(_) => match it.outcome {
                Outcome::Prolog(PrologStep::Fail(reason), _) => e.spec_reason() == reason,
                Outcome::Prolog(PrologStep::EndTag, _) => match ev {
                    DomEvent::End { name } => if vstd::utf8::valid_utf8(name@) {
                        e.spec_reason() matches Reason::EndEventMismatch { expected, found } && expected@ == Seq::<char>::empty()
                            && found@ == vstd::utf8::decode_utf8(name@)
                    } else {
                        e.spec_reason() is Utf8
                    },
                    _ => false,
                },
                Outcome::Inner(InnerStep::Fail(reason), _) => e.spec_reason() == reason,
                Outcome::Epilogue(None) => e.spec_reason() is TrailingContent,
                _ => false,
            },
        },
    }
}

/// Reading ended on the items with `Err(e)`: the last item failed with `e`, or reading
/// gave up after `usize::MAX` items.
pub open spec fn read_failed(items: Seq<TraceItem>, e: Error) -> bool {
    ||| items.len() >= usize::MAX
    ||| (items.len() > 0 && phase_after(items) is None && failed_with(items.last(), e))
}

/// What reading the document `bytes` gives over the items read: `Ok` with the root
/// element that the steps built, once the end of the input is read after it, or the
/// error that reading failed with.
pub open spec fn document_outcome<'r, V: XmlValidator<'r>>(v: V, bytes: Seq<u8>, items: Seq<TraceItem>, r: Result<Document<'r>, Error>) -> bool {
    &&& all_valid(v, items)
    &&& match r {
        Ok(doc) => phase_after(items) == Some(Phase::Finished(doc.spec_root())) && doc.spec_bytes() == bytes,
        Err(e) => read_failed(items, e),
    }
}

/// Adding an item that is what reading does in the phase the items lead to keeps them
/// valid and leads to the phase after it.
proof fn lemma_trace_push<'r, V: XmlValidator<'r>>(v: V, items: Seq<TraceItem>, it: TraceItem, ph: Phase)
    requires
        all_valid(v, items),
        phase_after(items) == Some(ph),
        item_valid(v, ph, it),
    ensures
        all_valid(v, items.push(it)),
        phase_after(items.push(it)) == next_phase(ph, it),
{
    let n = items.push(it);
    assert(n.drop_last() =~= items);
    assert forall|i: int| 0 <= i < n.len() implies (phase_after(n.take(i)) matches Some(p) && item_valid(v, p, #[trigger] n[i])) by {
        if i < items.len() {
            assert(n.take(i) =~= items.take(i));
            assert(n[i] == items[i]);
        } else {
            assert(n.take(i) =~= items);
        }
    }
}

/// The settings handed to quick-xml for reading a document: comments are not checked,
/// nor end names, text is not trimmed, and names in end tags are.
pub open spec fn dom_settings() -> ReaderSettings {
    ReaderSettings {
        check_comments: false,
        check_end_names: false,
        trim_text: false,
        trim_markup_names_in_closing_tags: true,
    }
}

/// The event read, or none where the read failed, is what the model names: the same
/// kind, with its name, attributes or content.
pub open spec fn event_matches(ev: Option<DomEvent>, m: Option<(EventKind, Seq<u8>, Seq<u8>)>) -> bool {
    match ev {
        None => m is None,
        Some(e) => match m {
            None => false,
            Some((k, a, b)) => match e {
                DomEvent::Start { name, attributes } => k is Start && name@ == a && attributes@ == b,
                DomEvent::Empty { name, attributes } => k is Empty && name@ == a && attributes@ == b,
                DomEvent::End { name } => k is End && name@ == a,
                DomEvent::Text { content } => k is Text && content@ == a,
                DomEvent::Comment { content } => k is Comment && content@ == a,
                DomEvent::CData { content } => k is CData && content@ == a,
                DomEvent::Decl => k is Decl,
                DomEvent::PI { content } => k is PI && content@ == a,
                DomEvent::DocType { content } => k is DocType && content@ == a,
                DomEvent::Eof => k is Eof,
            },
        },
    }
}

/// Where the read number `i` starts: at the start of the document for the first, else
/// where quick-xml stood after the read before it.
pub open spec fn offset_before(bytes: Seq<u8>, i: nat) -> usize {
    if i == 0 {
        0
    } else {
        position_at(bytes, dom_settings(), i)
    }
}

/// The items are the reads of quick-xml over `bytes` with the settings for a document, in
/// order from the first: the event of each is what `quick_xml_event` names for that read,
/// and it starts where the read before it left quick-xml.
pub open spec fn reads_match(bytes: Seq<u8>, items: Seq<TraceItem>) -> bool {
    forall|i: int|
        0 <= i < items.len() ==> event_matches(#[trigger] items[i].event, event_at(bytes, dom_settings(), i as nat))
            && items[i].offset == offset_before(bytes, i as nat)
}

/// Adding the item for the next read keeps the items matched to the reads.
proof fn lemma_reads_push(bytes: Seq<u8>, items: Seq<TraceItem>, it: TraceItem)
    requires
        reads_match(bytes, items),
        event_matches(it.event, event_at(bytes, dom_settings(), items.len())),
        it.offset == offset_before(bytes, items.len()),
    ensures
        reads_match(bytes, items.push(it)),
{
    let n = items.push(it);
    assert forall|i: int| 0 <= i < n.len() implies event_matches(#[trigger] n[i].event, event_at(bytes, dom_settings(), i as nat))
        && n[i].offset == offset_before(bytes, i as nat) by {
        if i < items.len() {
            assert(n[i] == items[i]);
        }
    }
}

/// Reads a document with quick-xml, checking each piece with a validator.
pub struct QuickXmlDomReader<'r, V> {
    bytes: &'r [u8],
    reader: BytesReader<'r>,
    last_offset: usize,
    offset: usize,
    validator: V,
    trace: Ghost<Seq<TraceItem>>,
}

impl<'r, V: XmlValidator<'r>> QuickXmlDomReader<'r, V> {
    /// The bytes of the document.
    pub closed spec fn spec_bytes(&self) -> Seq<u8> {
        self.bytes@
    }

    /// Where the last event read starts.
    pub closed spec fn spec_last_offset(&self) -> usize {
        self.last_offset
    }

    /// Where the next event starts, as the reader last told.
    pub closed spec fn spec_next_offset(&self) -> usize {
        self.offset
    }

    /// The validator of the pieces of the document.
    pub closed spec fn spec_validator(&self) -> V {
        self.validator
    }

    /// The settings last handed to quick-xml; where none were, its defaults.
    pub closed spec fn spec_settings(&self) -> ReaderSettings {
        self.reader.spec_settings()
    }

    /// quick-xml's reader is over the document, has read nothing, and its settings may
    /// still be set; the next event starts at the start of the document.
    pub closed spec fn spec_fresh(&self) -> bool {
        &&& self.reader.spec_bytes() == self.bytes@
        &&& self.reader.spec_reads() == 0
        &&& self.reader.spec_steady()
        &&& self.offset == 0
    }

    /// The settings were last handed to quick-xml before its first read.
    pub closed spec fn spec_steady(&self) -> bool {
        self.reader.spec_steady()
    }

    /// How far quick-xml has read, where its settings are steady.
    pub closed spec fn spec_position(&self) -> usize {
        position_at(self.reader.spec_bytes(), self.reader.spec_settings(), self.reader.spec_reads())
    }

    /// The events read so far, each with what reading made of it.
    pub closed spec fn spec_trace(&self) -> Seq<TraceItem> {
        self.trace@
    }

    /// The reader reads the document with the settings for a document, which were set
    /// before its first read, and the trace holds one item for each read made, matched
    /// to what quick-xml gives for it.
    closed spec fn tied(&self) -> bool {
        &&& self.reader.spec_steady()
        &&& self.reader.spec_bytes() == self.bytes@
        &&& self.reader.spec_settings() == dom_settings()
        &&& self.trace@.len() == self.reader.spec_reads()
        &&& reads_match(self.bytes@, self.trace@)
        &&& self.offset == offset_before(self.bytes@, self.reader.spec_reads())
    }

    pub fn new<T: XmlValidatorBuilder<'r, Item = V>>(bytes: &'r [u8], validator: T) -> (r: Self)
        ensures
            r.spec_bytes() == bytes@,
            r.spec_last_offset() == 0,
            r.spec_fresh(),
    {
        Self {
            bytes,
            reader: quick_xml_reader(bytes),
            last_offset: 0,
            offset: 0,
            validator: validator.build(bytes),
            trace: Ghost(Seq::empty()),
        }
    }

    /// The element that a start tag with the given name and attributes opens at the start
    /// of the last event.
    pub fn create_element(&self, name: &[u8], attributes: &[u8]) -> (r: Element)
        ensures
            created(r, self.spec_last_offset(), name@.len(), attributes@.len()),
    {
        create_at(self.last_offset, name, attributes)
    }

    /// The error for `reason` where the reader stands.
    pub fn error(&self, reason: Reason) -> (r: Error)
        ensures
            r.spec_length() == 0,
            r.spec_reason() == reason,
            self.spec_steady() ==> r.spec_offset() == self.spec_position(),
    {
        Error::new(buffer_position(&self.reader), 0, reason)
    }

    /// The text of the bytes, or the error where they are not UTF-8.
    pub fn conv_utf8<'a>(&self, s: &'a [u8]) -> (r: Result<&'a str, Error>)
        ensures
            r is Ok <==> vstd::utf8::valid_utf8(s@),
            r matches Ok(t) ==> t@ == vstd::utf8::decode_utf8(s@),
            r matches Err(e) ==> e.spec_reason() is Utf8 && e.spec_length() == 0,
    {
        match crate::dom::utf8_str(s) {
            Ok(t) => Ok(t),
            Err(err) => Err(self.error(Reason::Utf8(err))),
        }
    }

    /// Reads the next event, keeping where it starts. Where the reader's settings are
    /// steady, the event, or the failure, is what quick-xml gives for this read.
    fn read_event(&mut self) -> (r: Result<DomEvent, Error>)
        ensures
            final(self).spec_bytes() == old(self).spec_bytes(),
            final(self).spec_last_offset() == old(self).spec_next_offset(),
            final(self).spec_validator() == old(self).spec_validator(),
            final(self).spec_trace() == old(self).spec_trace(),
            final(self).reader.spec_bytes() == old(self).reader.spec_bytes(),
            final(self).reader.spec_settings() == old(self).reader.spec_settings(),
            final(self).reader.spec_steady() == old(self).reader.spec_steady(),
            final(self).reader.spec_reads() == old(self).reader.spec_reads() + 1,
            old(self).reader.spec_steady() ==> event_matches(
                match r {
                    Ok(e) => Some(e),
                    Err(_) => None,
                },
                old(self).reader.next_event(),
            ),
            r matches Err(e) ==> e.spec_length() == 0,
            r is Ok && old(self).reader.spec_steady() ==> final(self).spec_next_offset() == position_at(
                final(self).reader.spec_bytes(),
                final(self).reader.spec_settings(),
                final(self).reader.spec_reads(),
            ),
    {
        self.last_offset = self.offset;
        let event = match read_quick_xml_event(&mut self.reader) {
            Ok(event) => event,
            Err(err) => {
                let pos = buffer_position(&self.reader);
                return Err(xml_error(err, pos));
            },
        };
        let kind = event_kind(&event);
        let dom_event = match kind {
            EventKind::Start => DomEvent::Start { name: start_name(&event), attributes: start_attributes(&event) },
            EventKind::Empty => DomEvent::Empty { name: start_name(&event), attributes: start_attributes(&event) },
            EventKind::End => DomEvent::End { name: end_name(&event) },
            EventKind::Text => DomEvent::Text { content: text_content(&event) },
            EventKind::Comment => DomEvent::Comment { content: text_content(&event) },
            EventKind::CData => DomEvent::CData { content: text_content(&event) },
            EventKind::Decl => DomEvent::Decl,
            EventKind::PI => DomEvent::PI { content: text_content(&event) },
            EventKind::DocType => DomEvent::DocType { content: text_content(&event) },
            EventKind::Eof => DomEvent::Eof,
        };
        self.offset = buffer_position(&self.reader);
        Ok(dom_event)
    }

    /// Checks an event with the validator, where it carries something to check.
    fn validate_event(&self, event: &DomEvent, top: Option<&Element>) -> (r: Result<(), Error>)
        ensures
            validated(
                self.spec_validator(),
                self.spec_last_offset(),
                *event,
                match top {
                    Some(t) => Some(*t),
                    None => None,
                },
                r,
            ),
    {
        match event {
            DomEvent::Start { name, attributes } | DomEvent::Empty { name, attributes } => {
                let n = name.as_slice();
                let a = attributes.as_slice();
                let r = self.validator.validate_start(self.last_offset, n, a);
                proof {
                    assert(n@ == name@ && a@ == attributes@ && call_ensures(
                        V::validate_start,
                        (&self.spec_validator(), self.spec_last_offset(), n, a),
                        r,
                    ));
                }
                r
            },
            DomEvent::End { name } => match top {
                Some(element) => self.validator.validate_end(self.last_offset, name.as_slice(), element),
                None => Ok(()),
            },
            DomEvent::Text { content } => {
                if content.len() > 0 && top.is_some() {
                    self.validator.validate_text(self.last_offset, content.as_slice())
                } else {
                    Ok(())
                }
            },
            DomEvent::Comment { content } => self.validator.validate_comment(self.last_offset, content.as_slice()),
            DomEvent::PI { content } => self.validator.validate_pi(self.last_offset, content.as_slice()),
            _ => Ok(()),
        }
    }

    /// Records an item read.
    fn record(&mut self, Ghost(item): Ghost<TraceItem>)
        ensures
            final(self).spec_trace() == old(self).spec_trace().push(item),
            final(self).spec_bytes() == old(self).spec_bytes(),
            final(self).spec_last_offset() == old(self).spec_last_offset(),
            final(self).spec_next_offset() == old(self).spec_next_offset(),
            final(self).spec_validator() == old(self).spec_validator(),
            final(self).reader == old(self).reader,
    {
        self.trace = Ghost(self.trace@.push(item));
    }

    /// Reads the content of the root element up to its end tag, the root being the one
    /// element open where reading stands. Reading stops with an error after `usize::MAX`
    /// events, which no document in memory reaches.
    #[verifier::rlimit(50)]
    #[verifier::spinoff_prover]
    fn parse_inner_xml(&mut self, start: Element) -> (r: Result<Element, Error>)
        requires
            all_valid(old(self).spec_validator(), old(self).spec_trace()),
            phase_after(old(self).spec_trace()) == Some(Phase::Inner(Ghost(seq![start]))),
        ensures
            final(self).spec_bytes() == old(self).spec_bytes(),
            final(self).spec_validator() == old(self).spec_validator(),
            all_valid(final(self).spec_validator(), final(self).spec_trace()),
            match r {
                Ok(e) => phase_after(final(self).spec_trace()) == Some(Phase::Epilogue(e)),
                Err(e) => read_failed(final(self).spec_trace(), e),
            },
            final(self).spec_trace().len() > old(self).spec_trace().len(),
            final(self).reader.spec_settings() == old(self).reader.spec_settings(),
            final(self).reader.spec_bytes() == old(self).reader.spec_bytes(),
            final(self).reader.spec_steady() == old(self).reader.spec_steady(),
            old(self).tied() ==> reads_match(final(self).spec_bytes(), final(self).spec_trace()),
            old(self).tied() && r is Ok ==> final(self).tied(),
    {
        let ghost v = self.spec_validator();
        let mut stack: Vec<Element> = Vec::new();
        stack.push(start);
        assert(stack@ =~= seq![start]);
        let mut steps: usize = 0;
        while steps < usize::MAX
            invariant
                stack@.len() > 0,
                self.spec_bytes() == old(self).spec_bytes(),
                self.spec_validator() == v,
                v == old(self).spec_validator(),
                all_valid(v, self.spec_trace()),
                phase_after(self.spec_trace()) == Some(Phase::Inner(Ghost(stack@))),
                self.spec_trace().len() >= steps,
                self.spec_trace().len() >= old(self).spec_trace().len() + steps,
                self.reader.spec_settings() == old(self).reader.spec_settings(),
                self.reader.spec_bytes() == old(self).reader.spec_bytes(),
                self.reader.spec_steady() == old(self).reader.spec_steady(),
                old(self).tied() ==> self.tied(),
            decreases usize::MAX - steps,
        {
            steps = steps + 1;
            let ghost items = self.spec_trace();
            let ghost was_tied = self.tied();
            let ghost ph = Phase::Inner(Ghost(stack@));
            let event = match self.read_event() {
                Ok(event) => event,
                Err(e) => {
                    let ghost item = TraceItem { event: None, offset: self.last_offset, check: Ok(()), outcome: Outcome::Epilogue(None) };
                    self.record(Ghost(item));
                    proof {
                        lemma_trace_push(v, items, item, ph);
                    if was_tied {
                        lemma_reads_push(self.bytes@, items, item);
                    }
                        if was_tied {
                            lemma_reads_push(self.bytes@, items, item);
                        }
                    }
                    return Err(e);
                },
            };
            let top = &stack[stack.len() - 1];
            let check = self.validate_event(&event, Some(top));
            let ghost checked = check;
            if let Err(e) = check {
                let ghost item = TraceItem { event: Some(event), offset: self.last_offset, check: checked, outcome: Outcome::Epilogue(None) };
                self.record(Ghost(item));
                proof {
                    lemma_trace_push(v, items, item, ph);
                    if was_tied {
                        lemma_reads_push(self.bytes@, items, item);
                    }
                }
                return Err(e);
            }
            let ghost before = stack@;
            let step = inner_step(&mut stack, &event, self.last_offset);
            let ghost item = TraceItem {
                event: Some(event),
                offset: self.last_offset,
                check: checked,
                outcome: Outcome::Inner(step, Ghost(stack@)),
            };
            self.record(Ghost(item));
            proof {
                lemma_trace_push(v, items, item, ph);
                if was_tied {
                    lemma_reads_push(self.bytes@, items, item);
                }
            }
            match step {
                InnerStep::Continue => {},
                InnerStep::Done(element) => {
                    return Ok(element);
                },
                InnerStep::Fail(reason) => {
                    return Err(self.error(reason));
                },
            }
        }
        Err(self.error(Reason::UnexpectedEof))
    }
}

impl<'r, V: XmlValidator<'r>> DomReader<'r> for QuickXmlDomReader<'r, V> {
    type Error = Error;

    /// Reads the document: what comes before the root element, the root element, and the
    /// white space after it. The result is what the steps make of the events that
    /// quick-xml reads, each checked by the validator. Reading stops with an error after
    /// `usize::MAX` events, which no document in memory reaches.
    fn parse(self) -> (r: Result<Document<'r>, Error>)
        ensures
            exists|items: Seq<TraceItem>|
                #![trigger document_outcome(self.spec_validator(), self.spec_bytes(), items, r)]
                document_outcome(self.spec_validator(), self.spec_bytes(), items, r) && (self.spec_fresh()
                    ==> reads_match(self.spec_bytes(), items)),
    {
        let mut this = self;
        let r = this.read_document();
        assert(document_outcome(self.spec_validator(), self.spec_bytes(), this.spec_trace(), r) && (self.spec_fresh()
            ==> reads_match(self.spec_bytes(), this.spec_trace())));
        r
    }
}

impl<'r, V: XmlValidator<'r>> QuickXmlDomReader<'r, V> {
    /// The settings of quick-xml for reading a document: comments are not checked, nor
    /// end names, text is not trimmed, and names in end tags are.
    fn configure(&mut self)
        ensures
            final(self).spec_bytes() == old(self).spec_bytes(),
            final(self).spec_validator() == old(self).spec_validator(),
            final(self).spec_trace() == old(self).spec_trace(),
            final(self).spec_next_offset() == old(self).spec_next_offset(),
            final(self).reader.spec_settings() == dom_settings(),
            final(self).reader.spec_bytes() == old(self).reader.spec_bytes(),
            final(self).reader.spec_reads() == old(self).reader.spec_reads(),
            final(self).reader.spec_steady() == (old(self).reader.spec_steady() && old(self).reader.spec_reads() == 0),
    {
        self.set_settings(ReaderSettings {
            check_comments: false,
            check_end_names: false,
            trim_text: false,
            trim_markup_names_in_closing_tags: true,
        });
    }

    /// Hands the settings to quick-xml.
    fn set_settings(&mut self, settings: ReaderSettings)
        ensures
            final(self).spec_bytes() == old(self).spec_bytes(),
            final(self).spec_validator() == old(self).spec_validator(),
            final(self).spec_trace() == old(self).spec_trace(),
            final(self).spec_next_offset() == old(self).spec_next_offset(),
            final(self).reader.spec_settings() == settings,
            final(self).reader.spec_bytes() == old(self).reader.spec_bytes(),
            final(self).reader.spec_reads() == old(self).reader.spec_reads(),
            final(self).reader.spec_steady() == (old(self).reader.spec_steady() && old(self).reader.spec_reads() == 0),
    {
        set_check_comments(&mut self.reader, settings.check_comments);
        set_check_end_names(&mut self.reader, settings.check_end_names);
        set_trim_text(&mut self.reader, settings.trim_text);
        set_trim_markup_names_in_closing_tags(&mut self.reader, settings.trim_markup_names_in_closing_tags);
    }

    /// Reads the document: what comes before the root element, the root element, and the
    /// white space after it.
    fn read_document(&mut self) -> (r: Result<Document<'r>, Error>)
        ensures
            final(self).spec_validator() == old(self).spec_validator(),
            final(self).spec_settings() == dom_settings(),
            document_outcome(old(self).spec_validator(), old(self).spec_bytes(), final(self).spec_trace(), r),
            old(self).spec_fresh() ==> reads_match(old(self).spec_bytes(), final(self).spec_trace()),
    {
        let ghost fresh = self.spec_fresh();
        self.configure();
        self.trace = Ghost(Seq::empty());
        assert(fresh ==> self.tied());
        let ghost settings = self.spec_settings();
        let ghost bytes = self.spec_bytes();
        let ghost v = self.spec_validator();
        let mut state = PrologState { decl: false, doctype: false };
        let mut root: Option<Element> = None;
        let mut steps: usize = 0;
        while steps < usize::MAX && root.is_none()
            invariant
                self.spec_bytes() == bytes,
                bytes == old(self).spec_bytes(),
                self.spec_validator() == v,
                v == old(self).spec_validator(),
                self.spec_settings() == settings,
                fresh ==> self.tied(),
                fresh == old(self).spec_fresh(),
                settings == dom_settings(),
                all_valid(v, self.spec_trace()),
                self.spec_trace().len() >= steps as nat,
                match root {
                    None => phase_after(self.spec_trace()) == Some(Phase::Prolog(state)),
                    Some(e) => phase_after(self.spec_trace()) == Some(Phase::Epilogue(e)),
                },
            decreases usize::MAX - steps,
        {
            steps = steps + 1;
            let ghost items = self.spec_trace();
            let ghost was_tied = self.tied();
            let ghost ph = Phase::Prolog(state);
            let event = match self.read_event() {
                Ok(event) => event,
                Err(e) => {
                    let ghost item = TraceItem { event: None, offset: self.last_offset, check: Ok(()), outcome: Outcome::Epilogue(None) };
                    self.record(Ghost(item));
                    proof {
                        lemma_trace_push(v, items, item, ph);
                    if was_tied {
                        lemma_reads_push(self.bytes@, items, item);
                    }
                        if was_tied {
                            lemma_reads_push(self.bytes@, items, item);
                        }
                    }
                    return Err(e);
                },
            };
            let check = self.validate_event(&event, None);
            let ghost checked = check;
            if let Err(e) = check {
                let ghost item = TraceItem { event: Some(event), offset: self.last_offset, check: checked, outcome: Outcome::Epilogue(None) };
                self.record(Ghost(item));
                proof {
                    lemma_trace_push(v, items, item, ph);
                    if was_tied {
                        lemma_reads_push(self.bytes@, items, item);
                    }
                }
                return Err(e);
            }
            let ghost before = state;
            let step = prolog_step(&mut state, &event, self.last_offset);
            let ghost item = TraceItem {
                event: Some(event),
                offset: self.last_offset,
                check: checked,
                outcome: Outcome::Prolog(step, state),
            };
            self.record(Ghost(item));
            proof {
                lemma_trace_push(v, items, item, ph);
                if was_tied {
                    lemma_reads_push(self.bytes@, items, item);
                }
            }
            match step {
                PrologStep::Continue => {},
                PrologStep::Open(element) => {
                    let inner = self.parse_inner_xml(element);
                    match inner {
                        Ok(e) => {
                            root = Some(e);
                        },
                        Err(e) => {
                            return Err(e);
                        },
                    }
                },
                PrologStep::Root(element) => {
                    root = Some(element);
                },
                PrologStep::EndTag => {
                    let found = match &event {
                        DomEvent::End { name } => match self.conv_utf8(name.as_slice()) {
                            Ok(t) => t.to_owned(),
                            Err(e) => {
                                return Err(e);
                            },
                        },
                        _ => String::new(),
                    };
                    return Err(self.error(Reason::EndEventMismatch { expected: String::new(), found }));
                },
                PrologStep::Fail(reason) => {
                    return Err(self.error(reason));
                },
            }
        }
        let root = match root {
            Some(root) => root,
            None => {
                return Err(self.error(Reason::UnexpectedEof));
            },
        };
        let mut steps: usize = 0;
        while steps < usize::MAX
            invariant
                self.spec_bytes() == bytes,
                bytes == old(self).spec_bytes(),
                self.spec_validator() == v,
                v == old(self).spec_validator(),
                all_valid(v, self.spec_trace()),
                self.spec_trace().len() >= steps,
                phase_after(self.spec_trace()) == Some(Phase::Epilogue(root)),
                self.spec_settings() == settings,
                fresh ==> self.tied(),
                fresh == old(self).spec_fresh(),
                settings == dom_settings(),
            decreases usize::MAX - steps,
        {
            steps = steps + 1;
            let ghost items = self.spec_trace();
            let ghost was_tied = self.tied();
            let ghost ph = Phase::Epilogue(root);
            let event = match self.read_event() {
                Ok(event) => event,
                Err(e) => {
                    let ghost item = TraceItem { event: None, offset: self.last_offset, check: Ok(()), outcome: Outcome::Epilogue(None) };
                    self.record(Ghost(item));
                    proof {
                        lemma_trace_push(v, items, item, ph);
                    if was_tied {
                        lemma_reads_push(self.bytes@, items, item);
                    }
                        if was_tied {
                            lemma_reads_push(self.bytes@, items, item);
                        }
                    }
                    return Err(e);
                },
            };
            let step = epilogue_step(&event);
            let ghost item = TraceItem { event: Some(event), offset: self.last_offset, check: Ok(()), outcome: Outcome::Epilogue(step) };
            self.record(Ghost(item));
            proof {
                lemma_trace_push(v, items, item, ph);
                if was_tied {
                    lemma_reads_push(self.bytes@, items, item);
                }
            }
            match step {
                Some(true) => {
                    return Ok(Document::new(self.bytes, root));
                },
                Some(false) => {},
                None => {
                    return Err(self.error(Reason::TrailingContent));
                },
            }
        }
        Err(self.error(Reason::UnexpectedEof))
    }
}

} // verus!

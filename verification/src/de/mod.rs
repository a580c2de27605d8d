//! Reading values out of a document: the events of the reader as a value reader needs
//! them, and the texts of values.
//!
//! The walks over events below give up, as at the end of the input, after `usize::MAX`
//! events; every event takes at least one character of the input, so no input that fits
//! in memory reaches that count.
use std::borrow::Cow;

use vstd::prelude::*;

use crate::de::error::{Error, Reason};
use crate::de::text::{trim_ws, CowStrExt, StrExt};
use crate::events::{cow_str, event_view, Attribute, EventV, STag, XmlError, XmlErrorV, XmlEvent};
use crate::reader::machine::result_view;
use crate::reader::{spec_cursor_offset, spec_reader_next, Reader, ReaderV};
use crate::chars::char_is_whitespace;

pub mod error;
pub mod text;

verus! {

/// The name of the field that takes the text of an element.
pub const INNER_VALUE: &'static str = "$value";

/// An event that a value is read from: a start tag, an end tag or characters.
pub open spec fn is_content(e: EventV) -> bool {
    e is STag || e is ETag || e is Characters
}

/// A text that is XML white space throughout.
pub open spec fn all_ws(s: Seq<char>) -> bool {
    forall|i: int| 0 <= i < s.len() ==> char_is_whitespace(#[trigger] s[i])
}

/// Why a walk over events failed, and where.
pub enum DeErrV {
    /// The reader failed, at offset zero
    Xml(XmlErrorV),
    /// The input ended, at offset zero
    Eof,
    /// Characters stood where markup was expected, at the offset
    MarkupExpected(nat),
    /// Markup stood where characters were expected, at offset zero
    NoMarkupExpected,
    /// An end tag was expected, at the offset
    End(nat),
}

/// `e` is the error that `v` describes.
pub open spec fn error_is(e: Error, v: DeErrV) -> bool {
    &&& e.spec_hints().len() == 0
    &&& match v {
        DeErrV::Xml(x) => e.spec_reason() matches Reason::Xml(y) && y@ == x && e.spec_offset() == 0,
        DeErrV::Eof => e.spec_reason() == Reason::Eof && e.spec_offset() == 0,
        DeErrV::MarkupExpected(at) => e.spec_reason() == Reason::MarkupExpected && e.spec_offset() == at,
        DeErrV::NoMarkupExpected => e.spec_reason() == Reason::NoMarkupExpected && e.spec_offset() == 0,
        DeErrV::End(at) => e.spec_reason() == Reason::End && e.spec_offset() == at,
    }
}

/// The next event that a value is read from, the reader's steps that give other events
/// passed over; after `fuel` such steps the walk gives up as at the end of the input.
pub open spec fn content_step(r: ReaderV, fuel: nat) -> (ReaderV, Result<EventV, DeErrV>)
    decreases fuel,
{
    let (r2, res) = spec_reader_next(r);
    match res {
        Err(e) => (r2, Err(DeErrV::Xml(e))),
        Ok(None) => (r2, Err(DeErrV::Eof)),
        Ok(Some(ev)) => if is_content(ev) {
            (r2, Ok(ev))
        } else if fuel == 0 {
            (r2, Err(DeErrV::Eof))
        } else {
            content_step(r2, (fuel - 1) as nat)
        },
    }
}

/// The state of a value reader: the reader, and the event looked at and kept.
pub struct DeV {
    pub reader: ReaderV,
    pub peeked: Option<EventV>,
}

/// The next event: the one kept, or the next one from the reader.
pub open spec fn spec_next(d: DeV) -> (DeV, Result<EventV, DeErrV>) {
    match d.peeked {
        Some(e) => (DeV { peeked: None, ..d }, Ok(e)),
        None => {
            let (r, res) = content_step(d.reader, usize::MAX as nat);
            (DeV { reader: r, peeked: None }, res)
        },
    }
}

/// The outcome of `next`: the state and the event or error that `sp` gives.
pub open spec fn next_outcome<'a>(sp: (DeV, Result<EventV, DeErrV>), d: DeV, r: Result<XmlEvent<'a>, Error>) -> bool {
    &&& d == sp.0
    &&& match r {
        Ok(e) => sp.1 == Ok::<EventV, DeErrV>(event_view(e)),
        Err(e) => sp.1 matches Err(v) && error_is(e, v),
    }
}

/// The events passed over are not the one given: what a walk gives is a start tag, an
/// end tag or characters.
proof fn lemma_content_step(r: ReaderV, fuel: nat)
    ensures
        content_step(r, fuel).1 matches Ok(ev) ==> is_content(ev),
    decreases fuel,
{
    let (r2, res) = spec_reader_next(r);
    if let Ok(Some(ev)) = res {
        if !is_content(ev) && fuel > 0 {
            lemma_content_step(r2, (fuel - 1) as nat);
        }
    }
}

/// The outcome of a walk that gives a start tag or none.
pub open spec fn maybe_outcome<'a>(sp: (DeV, Result<Option<EventV>, DeErrV>), d: DeV, r: Result<Option<STag<'a>>, Error>) -> bool {
    &&& d == sp.0
    &&& match r {
        Ok(Some(t)) => sp.1 == Ok::<Option<EventV>, DeErrV>(Some(event_view(XmlEvent::STag(t)))),
        Ok(None) => sp.1 == Ok::<Option<EventV>, DeErrV>(None),
        Err(e) => sp.1 matches Err(v) && error_is(e, v),
    }
}

/// The outcome of a walk that gives a text.
pub open spec fn text_outcome<'a>(sp: (DeV, Result<Seq<char>, DeErrV>), d: DeV, r: Result<Cow<'a, str>, Error>) -> bool {
    &&& d == sp.0
    &&& match r {
        Ok(t) => sp.1 == Ok::<Seq<char>, DeErrV>(t@),
        Err(e) => sp.1 matches Err(v) && error_is(e, v),
    }
}

/// The outcome of a walk that gives nothing.
pub open spec fn unit_outcome(sp: (DeV, Result<(), DeErrV>), d: DeV, r: Result<(), Error>) -> bool {
    &&& d == sp.0
    &&& match r {
        Ok(_) => sp.1 is Ok,
        Err(e) => sp.1 matches Err(v) && error_is(e, v),
    }
}

/// What `next` gives from a sound state is a start tag, an end tag or characters.
proof fn lemma_next_content(d: DeV)
    requires
        d.peeked matches Some(e) ==> is_content(e),
    ensures
        spec_next(d).1 matches Ok(ev) ==> is_content(ev),
        spec_next(d).0.peeked is None,
{
    lemma_content_step(d.reader, usize::MAX as nat);
}

/// An xml deserializer
pub struct Deserializer<'a> {
    reader: Reader<'a>,
    peek: Option<XmlEvent<'a>>,
}

impl<'a> View for Deserializer<'a> {
    type V = DeV;

    closed spec fn view(&self) -> DeV {
        DeV {
            reader: self.reader@,
            peeked: match self.peek {
                Some(e) => Some(event_view(e)),
                None => None,
            },
        }
    }
}

/// Passing over the characters that are white space and the end tags, up to the next
/// start tag, with `fuel` events to go.
pub open spec fn spec_maybe_start(d: DeV, fuel: nat) -> (DeV, Result<Option<EventV>, DeErrV>)
    decreases fuel,
{
    let (d2, res) = spec_next(d);
    match res {
        Err(e) => (d2, Err(e)),
        Ok(ev) => match ev {
            EventV::STag { .. } => (d2, Ok(Some(ev))),
            EventV::ETag(_) => (d2, Ok(None)),
            EventV::Characters(s) if !all_ws(s) => (d2, Err(DeErrV::MarkupExpected(spec_cursor_offset(d2.reader)))),
            _ => if fuel == 0 {
                (d2, Err(DeErrV::Eof))
            } else {
                spec_maybe_start(d2, (fuel - 1) as nat)
            },
        },
    }
}

/// The characters up to the next end tag, joined, after `acc`, with `fuel` events to go.
pub open spec fn spec_text(d: DeV, acc: Seq<char>, fuel: nat) -> (DeV, Result<Seq<char>, DeErrV>)
    decreases fuel,
{
    let (d2, res) = spec_next(d);
    match res {
        Err(e) => (d2, Err(e)),
        Ok(ev) => match ev {
            EventV::Characters(s) => if fuel == 0 {
                (d2, Err(DeErrV::Eof))
            } else {
                spec_text(d2, acc + s, (fuel - 1) as nat)
            },
            EventV::ETag(_) => (d2, Ok(acc)),
            _ => (d2, Err(DeErrV::NoMarkupExpected)),
        },
    }
}

/// Reading on until `open` more end tags than start tags came, with `fuel` events to go.
pub open spec fn spec_to_end(d: DeV, open: nat, fuel: nat) -> (DeV, Result<(), DeErrV>)
    decreases fuel,
{
    if open == 0 {
        (d, Ok(()))
    } else {
        let (d2, res) = spec_next(d);
        match res {
            Err(e) => (d2, Err(e)),
            Ok(ev) => if fuel == 0 {
                (d2, Err(DeErrV::Eof))
            } else {
                match ev {
                    EventV::STag { .. } => spec_to_end(d2, open + 1, (fuel - 1) as nat),
                    EventV::ETag(_) => spec_to_end(d2, (open - 1) as nat, (fuel - 1) as nat),
                    _ => spec_to_end(d2, open, (fuel - 1) as nat),
                }
            },
        }
    }
}

/// Passing over the characters that are white space, with `fuel` events to go: the
/// event after them is kept.
pub open spec fn spec_skip_ws(d: DeV, fuel: nat) -> (DeV, Result<(), DeErrV>)
    decreases fuel,
{
    let (d2, res) = spec_next(d);
    match res {
        Err(e) => (d2, Err(e)),
        Ok(ev) => match ev {
            EventV::Characters(s) if all_ws(s) => if fuel == 0 {
                (d2, Err(DeErrV::Eof))
            } else {
                spec_skip_ws(d2, (fuel - 1) as nat)
            },
            _ => (DeV { peeked: Some(ev), ..d2 }, Ok(())),
        },
    }
}

impl<'a> Deserializer<'a> {
    /// The reader is sound and the event kept is one that a value is read from.
    pub closed spec fn wf(&self) -> bool {
        &&& self.reader.wf()
        &&& self@.peeked matches Some(e) ==> is_content(e)
    }

    /// Get a new deserializer
    pub fn new(reader: Reader<'a>) -> (r: RootDeserializer<'a>)
        requires
            reader.wf(),
        ensures
            r.de.wf(),
            r.de@ == (DeV { reader: reader@, peeked: None }),
    {
        RootDeserializer { de: Self { reader, peek: None } }
    }

    /// Get a new deserializer of a text
    pub fn from_str(data: &'a str) -> (r: RootDeserializer<'a>)
        ensures
            r.de.wf(),
            r.de@ == (DeV {
                reader: ReaderV {
                    input: data@,
                    root: crate::reader::initial_state(),
                    rest: data@,
                    subs: Seq::empty(),
                    standalone: None,
                },
                peeked: None,
            }),
    {
        Self::new(Reader::new(data))
    }

    /// The next event that a value is read from: start tags, end tags and characters;
    /// the others are passed over.
    pub fn next(&mut self) -> (r: Result<XmlEvent<'a>, Error>)
        requires
            old(self).wf(),
        ensures
            final(self).wf(),
            next_outcome(spec_next(old(self)@), final(self)@, r),
    {
        if self.peek.is_some() {
            let e = self.peek.take().unwrap();
            return Ok(e);
        }
        let ghost r0 = self.reader@;
        proof {
            lemma_content_step(r0, usize::MAX as nat);
        }
        let mut fuel: usize = usize::MAX;
        let mut out: Option<Result<XmlEvent<'a>, Error>> = None;
        while out.is_none()
            invariant
                self.reader.wf(),
                self.peek is None,
                match out {
                    None => content_step(r0, usize::MAX as nat) == content_step(self.reader@, fuel as nat),
                    Some(r) => next_outcome(spec_next(DeV { reader: r0, peeked: None }), self@, r),
                },
            decreases fuel, (if out is None { 1int } else { 0int }),
        {
            let step = self.reader.next();
            match step {
                Err(e) => {
                    out = Some(Err(Error::from_xml(e)));
                },
                Ok(None) => {
                    out = Some(Err(Error::new(Reason::Eof, 0)));
                },
                Ok(Some(evt)) => {
                    match evt {
                        XmlEvent::STag(_) | XmlEvent::ETag(_) | XmlEvent::Characters(_) => {
                            out = Some(Ok(evt));
                        },
                        _ => {
                            if fuel == 0 {
                                out = Some(Err(Error::new(Reason::Eof, 0)));
                            } else {
                                fuel = fuel - 1;
                            }
                        },
                    }
                },
            }
        }
        out.unwrap()
    }

    /// The next event that a value is read from, which is kept to be read again.
    pub fn peek(&mut self) -> (r: Result<&XmlEvent<'a>, Error>)
        requires
            old(self).wf(),
        ensures
            final(self).wf(),
            match r {
                Ok(e) => {
                    &&& spec_next(old(self)@).1 == Ok::<EventV, DeErrV>(event_view(*e))
                    &&& final(self)@ == (DeV { peeked: Some(event_view(*e)), ..spec_next(old(self)@).0 })
                },
                Err(e) => final(self)@ == spec_next(old(self)@).0 && (spec_next(old(self)@).1 matches Err(v)
                    && error_is(e, v)),
            },
    {
        proof {
            lemma_next_content(self@);
        }
        if self.peek.is_none() {
            match self.next() {
                Ok(e) => {
                    self.peek = Some(e);
                },
                Err(e) => {
                    return Err(e);
                },
            }
        }
        Ok(self.peek.as_ref().unwrap())
    }

    /// The next start tag, passing over characters that are white space and end tags;
    /// none at an end tag.
    pub fn next_maybe_start(&mut self) -> (r: Result<Option<STag<'a>>, Error>)
        requires
            old(self).wf(),
        ensures
            final(self).wf(),
            maybe_outcome(spec_maybe_start(old(self)@, usize::MAX as nat), final(self)@, r),
    {
        let ghost d0 = self@;
        let mut fuel: usize = usize::MAX;
        let mut out: Option<Result<Option<STag<'a>>, Error>> = None;
        while out.is_none()
            invariant
                self.wf(),
                match out {
                    None => spec_maybe_start(d0, usize::MAX as nat) == spec_maybe_start(self@, fuel as nat),
                    Some(r) => maybe_outcome(spec_maybe_start(d0, usize::MAX as nat), self@, r),
                },
            decreases fuel, (if out is None { 1int } else { 0int }),
        {
            proof {
                lemma_next_content(self@);
            }
            match self.next() {
                Err(e) => {
                    out = Some(Err(e));
                },
                Ok(XmlEvent::STag(e)) => {
                    out = Some(Ok(Some(e)));
                },
                Ok(XmlEvent::ETag(_)) => {
                    out = Some(Ok(None));
                },
                Ok(XmlEvent::Characters(text)) => {
                    let t: &str = cow_str(&text);
                    if !t.is_xml_whitespace() {
                        out = Some(Err(self.error(Reason::MarkupExpected)));
                    } else if fuel == 0 {
                        out = Some(Err(Error::new(Reason::Eof, 0)));
                    } else {
                        fuel = fuel - 1;
                    }
                },
                Ok(_) => {
                    if fuel == 0 {
                        out = Some(Err(Error::new(Reason::Eof, 0)));
                    } else {
                        fuel = fuel - 1;
                    }
                },
            }
        }
        out.unwrap()
    }

    /// Consumes Characters with terminating end tag
    pub fn next_text(&mut self) -> (r: Result<Cow<'a, str>, Error>)
        requires
            old(self).wf(),
        ensures
            final(self).wf(),
            text_outcome(spec_text(old(self)@, Seq::empty(), usize::MAX as nat), final(self)@, r),
    {
        let ghost d0 = self@;
        let mut result: Cow<'a, str> = Cow::Owned(String::new());
        let mut fuel: usize = usize::MAX;
        let mut out: Option<Result<Cow<'a, str>, Error>> = None;
        proof {
            assert(result@ =~= Seq::<char>::empty());
        }
        while out.is_none()
            invariant
                self.wf(),
                match out {
                    None => spec_text(d0, Seq::empty(), usize::MAX as nat) == spec_text(self@, result@, fuel as nat),
                    Some(r) => text_outcome(spec_text(d0, Seq::empty(), usize::MAX as nat), self@, r),
                },
            decreases fuel, (if out is None { 1int } else { 0int }),
        {
            match self.next() {
                Err(e) => {
                    out = Some(Err(e));
                },
                Ok(XmlEvent::Characters(chars)) => {
                    if fuel == 0 {
                        out = Some(Err(Error::new(Reason::Eof, 0)));
                    } else {
                        if crate::text::byte_len(cow_str(&result)) == 0 {
                            proof {
                                crate::text::lemma_blen_ge_len(result@);
                                assert(result@ + chars@ =~= chars@);
                            }
                            result = chars;
                        } else {
                            result.push_str(cow_str(&chars));
                        }
                        fuel = fuel - 1;
                    }
                },
                Ok(XmlEvent::ETag(_)) => {
                    let mut done: Cow<'a, str> = Cow::Owned(String::new());
                    std::mem::swap(&mut done, &mut result);
                    out = Some(Ok(done));
                },
                Ok(_) => {
                    out = Some(Err(Error::new(Reason::NoMarkupExpected, 0)));
                },
            }
        }
        out.unwrap()
    }

    /// The characters up to the next end tag, without their leading and trailing white
    /// space.
    pub fn next_trimmed_text(&mut self) -> (r: Result<Cow<'a, str>, Error>)
        requires
            old(self).wf(),
        ensures
            final(self).wf(),
            final(self)@ == spec_text(old(self)@, Seq::empty(), usize::MAX as nat).0,
            match r {
                Ok(t) => spec_text(old(self)@, Seq::empty(), usize::MAX as nat).1 matches Ok(s) && t@ == trim_ws(s),
                Err(e) => spec_text(old(self)@, Seq::empty(), usize::MAX as nat).1 matches Err(v) && error_is(e, v),
            },
    {
        let mut text = match self.next_text() {
            Ok(t) => t,
            Err(e) => {
                return Err(e);
            },
        };
        text.trim_xml_whitespace();
        Ok(text)
    }

    /// Reads on until one more end tag than start tags came after the element being
    /// read was closed.
    pub fn read_to_end(&mut self) -> (r: Result<(), Error>)
        requires
            old(self).wf(),
        ensures
            final(self).wf(),
            unit_outcome(spec_to_end(old(self)@, 2, (usize::MAX - 2) as nat), final(self)@, r),
    {
        let ghost d0 = self@;
        let mut open: usize = 2;
        let mut fuel: usize = usize::MAX - 2;
        let mut out: Option<Result<(), Error>> = None;
        while out.is_none() && open > 0
            invariant
                self.wf(),
                open + fuel <= usize::MAX,
                match out {
                    None => spec_to_end(d0, 2, (usize::MAX - 2) as nat) == spec_to_end(self@, open as nat, fuel as nat),
                    Some(r) => unit_outcome(spec_to_end(d0, 2, (usize::MAX - 2) as nat), self@, r),
                },
            decreases fuel, (if out is None { 1int } else { 0int }),
        {
            match self.next() {
                Err(e) => {
                    out = Some(Err(e));
                },
                Ok(evt) => {
                    if fuel == 0 {
                        out = Some(Err(Error::new(Reason::Eof, 0)));
                    } else {
                        fuel = fuel - 1;
                        match evt {
                            XmlEvent::STag(_) => {
                                open = open + 1;
                            },
                            XmlEvent::ETag(_) => {
                                open = open - 1;
                            },
                            _ => {},
                        }
                    }
                },
            }
        }
        match out {
            Some(r) => r,
            None => Ok(()),
        }
    }

    /// The next event must be an end tag.
    pub fn expect_end(&mut self) -> (r: Result<(), Error>)
        requires
            old(self).wf(),
        ensures
            final(self).wf(),
            final(self)@ == spec_next(old(self)@).0,
            match spec_next(old(self)@).1 {
                Ok(EventV::ETag(_)) => r is Ok,
                Ok(_) => r matches Err(e) && error_is(e, DeErrV::End(spec_cursor_offset(final(self)@.reader))),
                Err(v) => r matches Err(e) && error_is(e, v),
            },
    {
        match self.next() {
            Ok(XmlEvent::ETag(_)) => Ok(()),
            Ok(_) => Err(self.error(Reason::End)),
            Err(e) => Err(e),
        }
    }

    /// Passes over the characters that are white space; the event after them is kept.
    pub fn skip_ignorable_and_whitespace(&mut self) -> (r: Result<(), Error>)
        requires
            old(self).wf(),
        ensures
            final(self).wf(),
            unit_outcome(spec_skip_ws(old(self)@, usize::MAX as nat), final(self)@, r),
    {
        let ghost d0 = self@;
        let mut fuel: usize = usize::MAX;
        let mut out: Option<Result<(), Error>> = None;
        while out.is_none()
            invariant
                self.wf(),
                match out {
                    None => spec_skip_ws(d0, usize::MAX as nat) == spec_skip_ws(self@, fuel as nat),
                    Some(r) => unit_outcome(spec_skip_ws(d0, usize::MAX as nat), self@, r),
                },
            decreases fuel, (if out is None { 1int } else { 0int }),
        {
            let is_ws = match self.peek() {
                Err(e) => {
                    out = Some(Err(e));
                    false
                },
                Ok(XmlEvent::Characters(text)) => {
                    let t: &str = cow_str(text);
                    if !t.is_xml_whitespace() {
                        out = Some(Ok(()));
                    }
                    t.is_xml_whitespace()
                },
                Ok(_) => {
                    out = Some(Ok(()));
                    false
                },
            };
            if is_ws {
                let _ = self.next();
                if fuel == 0 {
                    out = Some(Err(Error::new(Reason::Eof, 0)));
                } else {
                    fuel = fuel - 1;
                }
            }
        }
        out.unwrap()
    }

    /// An error at the reader's offset.
    pub fn error(&self, reason: Reason) -> (r: Error)
        requires
            self.wf(),
        ensures
            r.spec_reason() == reason,
            r.spec_offset() == spec_cursor_offset(self@.reader),
            r.spec_hints().len() == 0,
    {
        Error::new(reason, self.reader.cursor_offset())
    }

    /// An error at the reader's offset.
    pub fn peek_error(&self, reason: Reason) -> (r: Error)
        requires
            self.wf(),
        ensures
            r.spec_reason() == reason,
            r.spec_offset() == spec_cursor_offset(self@.reader),
            r.spec_hints().len() == 0,
    {
        Error::new(reason, self.reader.cursor_offset())
    }

    /// Takes the attributes of the last start tag out of the reader.
    pub fn drain_attributes(&mut self) -> (r: Vec<Attribute<'a>>)
        requires
            old(self).wf(),
        ensures
            final(self).wf(),
            crate::events::attrs_view(r@) == crate::reader::spec_attributes(old(self)@.reader),
            final(self)@ == (DeV { reader: crate::reader::drained(old(self)@.reader), ..old(self)@ }),
    {
        self.reader.drain_attributes()
    }

    /// The name of the innermost open element.
    pub fn top_name(&self) -> (r: Option<&str>)
        ensures
            crate::reader::opt_str_seq(r) == crate::reader::spec_top_name(self@.reader),
    {
        self.reader.top_name()
    }
}

/// A deserializer of the root element, which must be a struct.
pub struct RootDeserializer<'de> {
    pub de: Deserializer<'de>,
}

impl<'de> RootDeserializer<'de> {
    /// The error of a value that is not a struct at the root.
    pub fn root_struct_error(&self) -> (r: Error)
        requires
            self.de.wf(),
        ensures
            r.spec_reason() == Reason::RootStruct,
            r.spec_offset() == spec_cursor_offset(self.de@.reader),
            r.spec_hints().len() == 0,
    {
        self.de.error(Reason::RootStruct)
    }
}

} // verus!

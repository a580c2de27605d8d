//! quick-xml's reader over the bytes of a document, with a model of what it was given:
//! the bytes, the settings and the number of events it has read.
use vstd::prelude::*;

use quick_xml::events::Event as QxEvent;
use quick_xml::Error as QxError;
use quick_xml::Reader as QxReader;

use crate::dom::error::{IoError, Utf8Error};

verus! {

#[verifier::external_type_specification]
#[verifier::external_body]
pub struct ExQuickXmlEvent<'a>(QxEvent<'a>);

#[verifier::external_type_specification]
#[verifier::external_body]
pub struct ExQuickXmlError(QxError);

/// The errors of quick-xml, as values of this library.
pub enum XmlReadError {
    Io(IoError),
    Utf8(Utf8Error),
    UnexpectedEof(String),
    EndEventMismatch { expected: String, found: String },
    UnexpectedToken(String),
    UnexpectedBang,
    TextNotFound,
    XmlDeclWithoutVersion(Option<String>),
    NameWithQuote(usize),
    NoEqAfterName(usize),
    UnquotedValue(usize),
    DuplicatedAttribute(usize, usize),
    EscapeError,
}

/// Converts an error of quick-xml into the library's value, variant for variant.
#[verifier::external_body]
fn convert_error(e: QxError) -> XmlReadError {
    match e {
        QxError::Io(e) => XmlReadError::Io(e),
        QxError::Utf8(e) => XmlReadError::Utf8(e),
        QxError::UnexpectedEof(s) => XmlReadError::UnexpectedEof(s),
        QxError::EndEventMismatch { expected, found } => XmlReadError::EndEventMismatch { expected, found },
        QxError::UnexpectedToken(s) => XmlReadError::UnexpectedToken(s),
        QxError::UnexpectedBang => XmlReadError::UnexpectedBang,
        QxError::TextNotFound => XmlReadError::TextNotFound,
        QxError::XmlDeclWithoutVersion(v) => XmlReadError::XmlDeclWithoutVersion(v),
        QxError::NameWithQuote(p) => XmlReadError::NameWithQuote(p),
        QxError::NoEqAfterName(p) => XmlReadError::NoEqAfterName(p),
        QxError::UnquotedValue(p) => XmlReadError::UnquotedValue(p),
        QxError::DuplicatedAttribute(p, q) => XmlReadError::DuplicatedAttribute(p, q),
        QxError::EscapeError(_) => XmlReadError::EscapeError,
    }
}

/// The settings of quick-xml's reader.
pub struct ReaderSettings {
    pub check_comments: bool,
    pub check_end_names: bool,
    pub trim_text: bool,
    pub trim_markup_names_in_closing_tags: bool,
}

/// The settings of a reader that quick-xml has just made (quick-xml-0.22.0's
/// `Reader::from_reader`).
pub open spec fn default_settings() -> ReaderSettings {
    ReaderSettings {
        check_comments: false,
        check_end_names: true,
        trim_text: false,
        trim_markup_names_in_closing_tags: true,
    }
}

/// The kinds of events of quick-xml.
pub enum EventKind {
    Start,
    End,
    Empty,
    Text,
    Comment,
    CData,
    Decl,
    PI,
    DocType,
    Eof,
}

/// What quick-xml's reader, made over `bytes` by `Reader::from_reader` and given these
/// settings before its first read, gives on its read number `index` (counted from 0),
/// every read going into the one buffer that the reader keeps: the kind of the event; for
/// a start or empty tag its name (`BytesStart::name`) and its attributes
/// (`BytesStart::attributes_raw`); for an end tag its name (`BytesEnd::name`); for text,
/// a comment, a CDATA section, a processing instruction or a doctype its content
/// (`BytesText::escaped`); empty bytes where the kind carries nothing. None where the read
/// fails.
pub uninterp spec fn quick_xml_event(
    bytes: Seq<u8>,
    check_comments: bool,
    check_end_names: bool,
    trim_text: bool,
    trim_markup_names_in_closing_tags: bool,
    index: nat,
) -> Option<(EventKind, Seq<u8>, Seq<u8>)>;

/// `quick_xml_event` with the settings as a record.
pub open spec fn event_at(bytes: Seq<u8>, s: ReaderSettings, index: nat) -> Option<(EventKind, Seq<u8>, Seq<u8>)> {
    quick_xml_event(bytes, s.check_comments, s.check_end_names, s.trim_text, s.trim_markup_names_in_closing_tags, index)
}

/// What `Reader::buffer_position` of quick-xml's reader, made and set as for
/// `quick_xml_event`, gives after `reads` reads.
pub uninterp spec fn quick_xml_position(
    bytes: Seq<u8>,
    check_comments: bool,
    check_end_names: bool,
    trim_text: bool,
    trim_markup_names_in_closing_tags: bool,
    reads: nat,
) -> usize;

/// `quick_xml_position` with the settings as a record.
pub open spec fn position_at(bytes: Seq<u8>, s: ReaderSettings, reads: nat) -> usize {
    quick_xml_position(bytes, s.check_comments, s.check_end_names, s.trim_text, s.trim_markup_names_in_closing_tags, reads)
}

/// quick-xml's reader over a `std::io::Cursor` of the bytes, and the buffer it reads
/// every event into. Verus does not take the reader's type, whose parameter is bound by
/// `std::io::BufRead`, so both are held here, out of Verus's sight.
#[verifier::external_body]
struct QxHolder<'r> {
    reader: QxReader<std::io::Cursor<&'r [u8]>>,
    buffer: Vec<u8>,
}

/// quick-xml's reader with what it was given: the bytes it reads, its settings, the number
/// of reads made, and whether the settings stayed as they were since before the first
/// read. Only the functions of this module, each of which makes the call it describes,
/// say how these change.
pub struct BytesReader<'r> {
    inner: QxHolder<'r>,
    bytes: Ghost<Seq<u8>>,
    settings: Ghost<ReaderSettings>,
    reads: Ghost<nat>,
    steady: Ghost<bool>,
}

impl<'r> BytesReader<'r> {
    /// The bytes the reader reads.
    pub closed spec fn spec_bytes(&self) -> Seq<u8> {
        self.bytes@
    }

    /// The settings last handed to the reader; quick-xml's defaults where none were.
    pub closed spec fn spec_settings(&self) -> ReaderSettings {
        self.settings@
    }

    /// The number of reads made.
    pub closed spec fn spec_reads(&self) -> nat {
        self.reads@
    }

    /// The settings were last changed before the first read.
    pub closed spec fn spec_steady(&self) -> bool {
        self.steady@
    }

    /// What the next read gives, where the settings are steady.
    pub open spec fn next_event(&self) -> Option<(EventKind, Seq<u8>, Seq<u8>)> {
        event_at(self.spec_bytes(), self.spec_settings(), self.spec_reads())
    }
}

/// `quick_xml::Reader::from_reader` over a `std::io::Cursor` of the bytes, with an empty
/// buffer: it has read nothing and has quick-xml's default settings.
#[verifier::external_body]
pub fn quick_xml_reader<'r>(bytes: &'r [u8]) -> (r: BytesReader<'r>)
    ensures
        r.spec_bytes() == bytes@,
        r.spec_settings() == default_settings(),
        r.spec_reads() == 0,
        r.spec_steady(),
{
    let reader = QxReader::from_reader(std::io::Cursor::new(bytes));
    let inner = QxHolder { reader, buffer: Vec::new() };
    BytesReader { inner, bytes: Ghost(bytes@), settings: Ghost(default_settings()), reads: Ghost(0), steady: Ghost(true) }
}

/// `quick_xml::Reader::check_comments`: sets whether comments are checked for `--`.
#[verifier::external_body]
pub fn set_check_comments<'r>(reader: &mut BytesReader<'r>, val: bool)
    ensures
        final(reader).spec_bytes() == old(reader).spec_bytes(),
        final(reader).spec_reads() == old(reader).spec_reads(),
        final(reader).spec_settings() == (ReaderSettings { check_comments: val, ..old(reader).spec_settings() }),
        final(reader).spec_steady() == (old(reader).spec_steady() && old(reader).spec_reads() == 0),
{
    reader.inner.reader.check_comments(val);
}

/// `quick_xml::Reader::check_end_names`: sets whether end tags are checked against the
/// start tags they close.
#[verifier::external_body]
pub fn set_check_end_names<'r>(reader: &mut BytesReader<'r>, val: bool)
    ensures
        final(reader).spec_bytes() == old(reader).spec_bytes(),
        final(reader).spec_reads() == old(reader).spec_reads(),
        final(reader).spec_settings() == (ReaderSettings { check_end_names: val, ..old(reader).spec_settings() }),
        final(reader).spec_steady() == (old(reader).spec_steady() && old(reader).spec_reads() == 0),
{
    reader.inner.reader.check_end_names(val);
}

/// `quick_xml::Reader::trim_text`: sets whether white space around text is trimmed.
#[verifier::external_body]
pub fn set_trim_text<'r>(reader: &mut BytesReader<'r>, val: bool)
    ensures
        final(reader).spec_bytes() == old(reader).spec_bytes(),
        final(reader).spec_reads() == old(reader).spec_reads(),
        final(reader).spec_settings() == (ReaderSettings { trim_text: val, ..old(reader).spec_settings() }),
        final(reader).spec_steady() == (old(reader).spec_steady() && old(reader).spec_reads() == 0),
{
    reader.inner.reader.trim_text(val);
}

/// `quick_xml::Reader::trim_markup_names_in_closing_tags`: sets whether white space after
/// the name in an end tag is trimmed.
#[verifier::external_body]
pub fn set_trim_markup_names_in_closing_tags<'r>(reader: &mut BytesReader<'r>, val: bool)
    ensures
        final(reader).spec_bytes() == old(reader).spec_bytes(),
        final(reader).spec_reads() == old(reader).spec_reads(),
        final(reader).spec_settings() == (ReaderSettings {
            trim_markup_names_in_closing_tags: val,
            ..old(reader).spec_settings()
        }),
        final(reader).spec_steady() == (old(reader).spec_steady() && old(reader).spec_reads() == 0),
{
    reader.inner.reader.trim_markup_names_in_closing_tags(val);
}

/// `quick_xml::Reader::buffer_position`: how far the reader has read, which is
/// `quick_xml_position` where the settings are steady.
#[verifier::external_body]
pub fn buffer_position<'r>(reader: &BytesReader<'r>) -> (r: usize)
    ensures
        reader.spec_steady() ==> r == quick_xml_position(
            reader.spec_bytes(),
            reader.spec_settings().check_comments,
            reader.spec_settings().check_end_names,
            reader.spec_settings().trim_text,
            reader.spec_settings().trim_markup_names_in_closing_tags,
            reader.spec_reads(),
        ),
{
    reader.inner.reader.buffer_position()
}

/// An event of quick-xml that a read gave, with what the model says it is.
pub struct ReadEvent<'b> {
    event: QxEvent<'b>,
    model: Ghost<(EventKind, Seq<u8>, Seq<u8>)>,
}

impl<'b> ReadEvent<'b> {
    /// The event as plain values: its kind, its name or content, its attributes.
    pub closed spec fn spec_model(&self) -> (EventKind, Seq<u8>, Seq<u8>) {
        self.model@
    }
}

/// `quick_xml::Reader::read_event` into the reader's buffer: where the settings are
/// steady, the event or failure that `quick_xml_event` names for this read. Reading events
/// never fails with `TextNotFound` (only reading a text does). The event's model is what
/// this contract says of it; the body, which makes the call, holds no value for it.
#[verifier::external_body]
pub fn read_quick_xml_event<'r, 'a>(reader: &'a mut BytesReader<'r>) -> (r: Result<ReadEvent<'a>, XmlReadError>)
    ensures
        final(reader).spec_bytes() == old(reader).spec_bytes(),
        final(reader).spec_settings() == old(reader).spec_settings(),
        final(reader).spec_steady() == old(reader).spec_steady(),
        final(reader).spec_reads() == old(reader).spec_reads() + 1,
        old(reader).spec_steady() ==> match r {
            Ok(e) => quick_xml_event(
                old(reader).spec_bytes(),
                old(reader).spec_settings().check_comments,
                old(reader).spec_settings().check_end_names,
                old(reader).spec_settings().trim_text,
                old(reader).spec_settings().trim_markup_names_in_closing_tags,
                old(reader).spec_reads(),
            ) == Some(e.spec_model()),
            Err(_) => quick_xml_event(
                old(reader).spec_bytes(),
                old(reader).spec_settings().check_comments,
                old(reader).spec_settings().check_end_names,
                old(reader).spec_settings().trim_text,
                old(reader).spec_settings().trim_markup_names_in_closing_tags,
                old(reader).spec_reads(),
            ) is None,
        },
        r matches Err(e) ==> !(e is TextNotFound),
{
    let holder = &mut reader.inner;
    match holder.reader.read_event(&mut holder.buffer) {
        Ok(event) => Ok(ReadEvent { event, model: Ghost(vstd::pervasive::arbitrary()) }),
        Err(e) => Err(convert_error(e)),
    }
}

/// Tells the variants of an event of quick-xml apart.
#[verifier::external_body]
pub fn event_kind(e: &ReadEvent) -> (r: EventKind)
    ensures
        r == e.spec_model().0,
{
    match e.event {
        QxEvent::Start(_) => EventKind::Start,
        QxEvent::End(_) => EventKind::End,
        QxEvent::Empty(_) => EventKind::Empty,
        QxEvent::Text(_) => EventKind::Text,
        QxEvent::Comment(_) => EventKind::Comment,
        QxEvent::CData(_) => EventKind::CData,
        QxEvent::Decl(_) => EventKind::Decl,
        QxEvent::PI(_) => EventKind::PI,
        QxEvent::DocType(_) => EventKind::DocType,
        QxEvent::Eof => EventKind::Eof,
    }
}

/// `BytesStart::name` of a start or empty tag, copied; nothing for other events.
#[verifier::external_body]
pub fn start_name(e: &ReadEvent) -> (r: Vec<u8>)
    ensures
        (e.spec_model().0 is Start || e.spec_model().0 is Empty) ==> r@ == e.spec_model().1,
{
    match &e.event {
        QxEvent::Start(s) | QxEvent::Empty(s) => s.name().to_vec(),
        _ => Vec::new(),
    }
}

/// `BytesStart::attributes_raw` of a start or empty tag, copied; nothing for other events.
#[verifier::external_body]
pub fn start_attributes(e: &ReadEvent) -> (r: Vec<u8>)
    ensures
        (e.spec_model().0 is Start || e.spec_model().0 is Empty) ==> r@ == e.spec_model().2,
{
    match &e.event {
        QxEvent::Start(s) | QxEvent::Empty(s) => s.attributes_raw().to_vec(),
        _ => Vec::new(),
    }
}

/// `BytesEnd::name` of an end tag, copied; nothing for other events.
#[verifier::external_body]
pub fn end_name(e: &ReadEvent) -> (r: Vec<u8>)
    ensures
        e.spec_model().0 is End ==> r@ == e.spec_model().1,
{
    match &e.event {
        QxEvent::End(s) => s.name().to_vec(),
        _ => Vec::new(),
    }
}

/// `BytesText::escaped` of a text, comment, CDATA section, processing instruction or
/// doctype, copied; nothing for other events.
#[verifier::external_body]
pub fn text_content(e: &ReadEvent) -> (r: Vec<u8>)
    ensures
        (e.spec_model().0 is Text || e.spec_model().0 is Comment || e.spec_model().0 is CData
            || e.spec_model().0 is PI || e.spec_model().0 is DocType) ==> r@ == e.spec_model().1,
{
    match &e.event {
        QxEvent::Text(t) | QxEvent::Comment(t) | QxEvent::CData(t) | QxEvent::PI(t) | QxEvent::DocType(t) => t.escaped().to_vec(),
        _ => Vec::new(),
    }
}

} // verus!

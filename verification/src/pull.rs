//! A small pull reader of documents made of elements, attributes, white space between
//! them and an XML declaration. Character data, processing instructions and comments are
//! outside what it reads.
use vstd::prelude::*;

use crate::chars::in_start_char_table;
use crate::events::{attrs_view, Attribute, ETag, EventV, XmlError, XmlErrorV, XmlEvent, opt_string_view};
use crate::parser::compose::raw;
use crate::parser::cursor::{lemma_followed_trans, lemma_stay, Cursor};
use crate::parser::Parser;

pub use crate::parser::compose::Raw as Lexeme;
pub use crate::parser::helper::{map_error, omit_error, MapError, OmitError};
pub use crate::parser::string::{lit, Lit};
use crate::reader::machine::{has_attr, has_attribute_named, result_view};
use crate::reader::tokens::{
    agrees, name_len, read_err, read_ok, skip_whitespace, spec_att_value, spec_eq, spec_name,
    spec_xml_decl, str_eq, ws, AttValueToken, EqToken, NameToken, XmlDeclToken,
};
use crate::text::{class_has, is_prefix, lemma_span_props, CharClass};

verus! {

broadcast use vstd::string::group_string_axioms;

/// What the reader holds: the rest of the input, the number of open elements, whether the
/// last start tag was empty, whether the root element was seen, the version and the
/// standalone flag of the XML declaration, and the attributes of the last start tag.
pub struct PullV {
    pub rest: Seq<char>,
    pub depth: nat,
    pub empty: bool,
    pub seen_root: bool,
    pub version: Option<Seq<char>>,
    pub standalone: Option<bool>,
    pub attrs: Seq<(Seq<char>, Seq<char>)>,
}

/// A name, which must be followed by another character.
pub open spec fn spec_pull_name(s: Seq<char>) -> Result<(Seq<char>, nat), XmlErrorV> {
    if s.len() == 0 || !in_start_char_table(s[0]) {
        Err(XmlErrorV::ExpectedName)
    } else if name_len(s) >= s.len() {
        Err(XmlErrorV::ExpectedElementEnd)
    } else {
        Ok((s.take(name_len(s) as int), name_len(s)))
    }
}

/// An attribute `Name Eq AttValue`: its name and value, and the number of characters read.
pub open spec fn spec_pull_attr(s: Seq<char>) -> Result<((Seq<char>, Seq<char>), nat), XmlErrorV> {
    match spec_pull_name(s) {
        Err(e) => Err(e),
        Ok((name, n1)) => {
            let r1 = s.skip(n1 as int);
            match spec_eq(r1) {
                Err(e) => Err(e),
                Ok((_, n2)) => {
                    let r2 = r1.skip(n2 as int);
                    match spec_att_value(r2) {
                        Err(e) => Err(e),
                        Ok((v, n3)) => Ok(((name, v), n1 + n2 + n3)),
                    }
                },
            }
        },
    }
}

/// An attribute takes at least one character and no more than there are.
pub proof fn lemma_pull_attr_len(s: Seq<char>)
    ensures
        spec_pull_attr(s) matches Ok((_, n)) ==> 1 <= n <= s.len(),
{
    reveal_strlit("=");
    if let Ok((name, n1)) = spec_pull_name(s) {
        lemma_span_props(s.drop_first(), CharClass::NameChar);
        let r1 = s.skip(n1 as int);
        lemma_span_props(r1, CharClass::Whitespace);
        let w = ws(r1);
        let rr = r1.skip(w as int);
        if let Ok((_, n2)) = spec_eq(r1) {
            assert(is_prefix("="@, rr));
            lemma_span_props(rr.skip(1), CharClass::Whitespace);
            assert(n2 <= r1.len());
            let r2 = r1.skip(n2 as int);
            if let Ok((v, n3)) = spec_att_value(r2) {
                lemma_span_props(r2.drop_first(), CharClass::Except(r2[0]));
                assert(n3 <= r2.len());
            }
        }
    }
}

/// The attributes of a start tag after its name and the white space after it, read from
/// `s` after the attributes `attrs`: what is left of the input, the attributes read and
/// whether the tag is empty, or the error.
pub open spec fn spec_pull_attrs(s: Seq<char>, attrs: Seq<(Seq<char>, Seq<char>)>) -> (
    Seq<char>,
    Seq<(Seq<char>, Seq<char>)>,
    Result<bool, XmlErrorV>,
)
    decreases s.len(),
{
    if s.len() == 0 {
        (s, attrs, Err(XmlErrorV::ExpectedElementEnd))
    } else if s[0] == '/' {
        if s.len() > 1 && s[1] == '>' {
            (s.skip(2), attrs, Ok(true))
        } else {
            (s, attrs, Err(XmlErrorV::ExpectedElementEnd))
        }
    } else if s[0] == '>' {
        (s.skip(1), attrs, Ok(false))
    } else if class_has(CharClass::Whitespace, s[0]) {
        spec_pull_attrs(s.drop_first(), attrs)
    } else {
        match spec_pull_attr(s) {
            Err(e) => (s, attrs, Err(e)),
            Ok(((name, value), n)) => {
                proof {
                    lemma_pull_attr_len(s);
                }
                if has_attr(attrs, name) {
                    (s.skip(n as int), attrs, Err(XmlErrorV::NonUniqueAttribute(name)))
                } else {
                    spec_pull_attrs(s.skip(n as int), attrs.push((name, value)))
                }
            },
        }
    }
}

/// The reader once the last event is done with: the attributes are dropped, and an
/// empty element is closed.
pub open spec fn pull_reset(s: PullV) -> PullV {
    PullV {
        attrs: Seq::empty(),
        depth: if s.empty {
            (s.depth - 1) as nat
        } else {
            s.depth
        },
        empty: false,
        ..s
    }
}

/// The root element is closed.
pub open spec fn after_root(s: PullV) -> bool {
    s.depth == 0 && s.seen_root
}

/// A start tag after its `<`.
pub open spec fn spec_pull_stag(s: PullV) -> (PullV, Result<Option<EventV>, XmlErrorV>) {
    if after_root(s) {
        (s, Err(XmlErrorV::ExpectedDocumentEnd))
    } else {
        match spec_pull_name(s.rest) {
            Err(e) => (s, Err(e)),
            Ok((name, n)) => {
                let r = s.rest.skip(n as int);
                let (rest, attrs, res) = spec_pull_attrs(r.skip(ws(r) as int), s.attrs);
                match res {
                    Err(e) => (PullV { rest, attrs, ..s }, Err(e)),
                    Ok(empty) => (
                        PullV { rest, attrs, empty, seen_root: true, depth: s.depth + 1, ..s },
                        Ok(Some(EventV::STag { name, empty, attrs: Seq::empty() })),
                    ),
                }
            },
        }
    }
}

/// An end tag after its `</`; `None` where it would close more elements than are open.
pub open spec fn spec_pull_etag(s: PullV) -> Option<(PullV, Result<Option<EventV>, XmlErrorV>)> {
    if after_root(s) {
        Some((s, Err(XmlErrorV::ExpectedDocumentEnd)))
    } else {
        match spec_pull_name(s.rest) {
            Err(e) => Some((s, Err(e))),
            Ok((name, n)) => {
                let r = s.rest.skip(n as int);
                let r2 = r.skip(ws(r) as int);
                if r2.len() > 0 && r2[0] == '>' {
                    if s.depth == 0 {
                        None
                    } else {
                        Some(
                            (
                                PullV { rest: r2.skip(1), depth: (s.depth - 1) as nat, ..s },
                                Ok(Some(EventV::ETag(name))),
                            ),
                        )
                    }
                } else {
                    Some((s, Err(XmlErrorV::ExpectedElementEnd)))
                }
            },
        }
    }
}

/// The XML declaration at the start of the rest; only UTF-8 is accepted as encoding.
pub open spec fn spec_pull_decl(s: PullV) -> (PullV, Result<Option<EventV>, XmlErrorV>) {
    match spec_xml_decl(s.rest) {
        Err(e) => (s, Err(e)),
        Ok(((version, encoding, standalone), n)) => {
            let s2 = PullV { version: Some(version), standalone, ..s };
            if encoding is Some && encoding->0 != "UTF-8"@ {
                (s2, Err(XmlErrorV::UnsupportedEncoding(encoding->0)))
            } else {
                (
                    PullV { rest: s.rest.skip(n as int), ..s2 },
                    Ok(Some(EventV::XmlDecl { version, encoding, standalone })),
                )
            }
        },
    }
}

/// The next event and the reader after it; `None` where the reader meets what it does
/// not read (character data, a processing instruction, a second declaration) or an end
/// tag with no element open.
pub open spec fn spec_pull_next(s: PullV) -> Option<(PullV, Result<Option<EventV>, XmlErrorV>)> {
    let s0 = pull_reset(s);
    let r = s0.rest.skip(ws(s0.rest) as int);
    let s1 = PullV { rest: r, ..s0 };
    if r.len() == 0 {
        Some(
            (
                s1,
                if s1.depth != 0 {
                    Err(XmlErrorV::OpenElementAtEof)
                } else {
                    Ok(None)
                },
            ),
        )
    } else if r[0] != '<' {
        None
    } else if r.len() < 2 {
        Some((s1, Err(XmlErrorV::ExpectedElementStart)))
    } else if r[1] == '/' {
        spec_pull_etag(PullV { rest: r.skip(2), ..s1 })
    } else if r[1] == '?' {
        if !s1.seen_root && s1.version is None {
            Some(spec_pull_decl(s1))
        } else {
            None
        }
    } else {
        Some(spec_pull_stag(PullV { rest: r.skip(1), ..s1 }))
    }
}

/// How the depth of the reader moves in a step: up by one at most for a start tag,
/// which carries no attributes, down by one at least for an end tag, never up
/// otherwise.
pub proof fn lemma_pull_depth(s: PullV)
    requires
        s.empty ==> s.depth >= 1,
        spec_pull_next(s) is Some,
    ensures
        ({
            let (p, res) = spec_pull_next(s)->0;
            match res {
                Ok(Some(EventV::STag { attrs, .. })) => p.depth <= s.depth + 1 && attrs.len() == 0,
                Ok(Some(EventV::ETag(_))) => p.depth + 1 <= s.depth,
                _ => p.depth <= s.depth,
            }
        }),
{
    assert(pull_reset(s).depth <= s.depth);
}

/// Reads a name followed by another character.
fn pull_name<'a>(cursor: Cursor<'a>) -> (r: Result<(&'a str, Cursor<'a>), XmlError>)
    ensures
        match r {
            Ok((v, c)) => read_ok(cursor, c, v@, spec_pull_name(cursor@)),
            Err(e) => read_err(e, spec_pull_name(cursor@)),
        },
{
    if cursor.is_at_end() {
        return Err(XmlError::ExpectedName);
    }
    match NameToken.parse(cursor) {
        Ok((name, c)) => Ok((name, c)),
        Err(XmlError::IllegalNameStartChar(_)) => Err(XmlError::ExpectedName),
        Err(_) => Err(XmlError::ExpectedElementEnd),
    }
}

/// Reads an attribute `Name Eq AttValue`.
fn pull_attr<'a>(cursor: Cursor<'a>) -> (r: Result<((&'a str, &'a str), Cursor<'a>), XmlError>)
    ensures
        match r {
            Ok(((n, v), c)) => read_ok(cursor, c, (n@, v@), spec_pull_attr(cursor@)),
            Err(e) => read_err(e, spec_pull_attr(cursor@)),
        },
{
    let (name, c1) = pull_name(cursor)?;
    let (_, c2) = match EqToken.parse(c1) {
        Ok(r) => r,
        Err(e) => {
            return Err(e);
        },
    };
    let (value, c3) = match AttValueToken.parse(c2) {
        Ok(r) => r,
        Err(e) => {
            return Err(e);
        },
    };
    proof {
        lemma_followed_trans(cursor, c1, c2);
        lemma_followed_trans(cursor, c2, c3);
        assert(cursor@.skip(cursor@.len() - c1@.len()) == c1@);
        assert(c1@.skip(c1@.len() - c2@.len()) == c2@);
    }
    Ok(((name, value), c3))
}

/// Reads the attributes of a start tag and its end, pushing the attributes onto `attrs`.
fn pull_attrs<'a>(attrs: &mut Vec<Attribute<'a>>, cursor: Cursor<'a>) -> (r: (
    Cursor<'a>,
    Result<bool, XmlError>,
))
    ensures
        cursor.followed_by(r.0),
        ({
            let sp = spec_pull_attrs(cursor@, attrs_view(old(attrs)@));
            &&& r.0@ == sp.0
            &&& attrs_view(final(attrs)@) == sp.1
            &&& match r.1 {
                Ok(b) => sp.2 == Ok::<bool, XmlErrorV>(b),
                Err(e) => sp.2 == Err::<bool, XmlErrorV>(e@),
            }
        }),
        r.1 is Ok ==> cursor@.len() > r.0@.len(),
    decreases cursor@.len(),
{
    proof {
        lemma_stay(cursor);
    }
    let c = match cursor.next_char() {
        None => {
            return (cursor, Err(XmlError::ExpectedElementEnd));
        },
        Some(c) => c,
    };
    if c == '/' {
        let c1 = cursor.skip_char('/');
        if c1.has_next_char('>') {
            let c2 = c1.skip_char('>');
            proof {
                lemma_followed_trans(cursor, c1, c2);
                assert(cursor@.skip(2) =~= c2@);
            }
            return (c2, Ok(true));
        }
        return (cursor, Err(XmlError::ExpectedElementEnd));
    }
    if c == '>' {
        return (cursor.skip_char('>'), Ok(false));
    }
    if crate::text::class_test(CharClass::Whitespace, c) {
        let c1 = cursor.skip_char(c);
        proof {
            assert(cursor@.skip(1) =~= cursor@.drop_first());
        }
        let (end, res) = pull_attrs(attrs, c1);
        proof {
            lemma_followed_trans(cursor, c1, end);
        }
        return (end, res);
    }
    let ((name, value), next) = match pull_attr(cursor) {
        Ok(r) => r,
        Err(e) => {
            return (cursor, Err(e));
        },
    };
    proof {
        lemma_pull_attr_len(cursor@);
        assert(cursor@.skip(cursor@.len() - next@.len()) == next@);
    }
    if has_attribute_named(attrs, name) {
        return (next, Err(XmlError::NonUniqueAttribute { attribute: name.to_owned() }));
    }
    let ghost before = attrs_view(attrs@);
    attrs.push(Attribute::new(name, value));
    proof {
        assert(attrs_view(attrs@) =~= before.push((name@, value@)));
    }
    let (end, res) = pull_attrs(attrs, next);
    proof {
        lemma_followed_trans(cursor, next, end);
    }
    (end, res)
}

/// A pull reader of elements, attributes and the XML declaration.
pub struct Reader<'a> {
    cursor: Cursor<'a>,
    attributes: Vec<Attribute<'a>>,
    depth: usize,
    empty: bool,
    seen_root: bool,
    version: Option<String>,
    standalone: Option<bool>,
}

impl<'a> View for Reader<'a> {
    type V = PullV;

    closed spec fn view(&self) -> PullV {
        PullV {
            rest: self.cursor@,
            depth: self.depth as nat,
            empty: self.empty,
            seen_root: self.seen_root,
            version: opt_string_view(self.version),
            standalone: self.standalone,
            attrs: attrs_view(self.attributes@),
        }
    }
}

impl<'a> Reader<'a> {
    /// The reader's counts fit what it has read: no more elements are open than
    /// bytes were read, and an empty element counts as open.
    pub closed spec fn wf(&self) -> bool {
        &&& self.depth <= self.cursor.spec_offset()
        &&& self.empty ==> self.depth >= 1
    }

    /// An empty element that was just read counts as open.
    pub proof fn lemma_empty_is_open(&self)
        requires
            self.wf(),
        ensures
            self@.empty ==> self@.depth >= 1,
    {
    }

    pub fn new(input: &'a str) -> (r: Self)
        ensures
            r.wf(),
            r@ == (PullV {
                rest: input@,
                depth: 0,
                empty: false,
                seen_root: false,
                version: None,
                standalone: None,
                attrs: Seq::empty(),
            }),
    {
        let r = Reader {
            cursor: Cursor::new(input),
            attributes: Vec::new(),
            depth: 0,
            empty: false,
            seen_root: false,
            version: None,
            standalone: None,
        };
        proof {
            assert(attrs_view(r.attributes@) =~= Seq::<(Seq<char>, Seq<char>)>::empty());
        }
        r
    }

    /// The root element was not seen yet.
    pub fn is_prolog(&self) -> (r: bool)
        ensures
            r == !self@.seen_root,
    {
        !self.seen_root
    }

    /// The attributes of the last start tag.
    pub fn attributes(&self) -> (r: &[Attribute<'a>])
        ensures
            attrs_view(r@) == self@.attrs,
    {
        self.attributes.as_slice()
    }

    /// Reads a start tag after its `<`.
    #[verifier::rlimit(30)]
    fn parse_stag(&mut self) -> (r: Result<Option<XmlEvent<'a>>, XmlError>)
        requires
            old(self).depth < old(self).cursor.spec_offset(),
            !old(self).empty,
        ensures
            final(self).wf(),
            old(self).cursor.followed_by(final(self).cursor),
            (final(self)@, result_view(r)) == spec_pull_stag(old(self)@),
    {
        proof {
            lemma_stay(self.cursor);
        }
        if self.depth == 0 && self.seen_root {
            return Err(XmlError::ExpectedDocumentEnd);
        }
        let (name, c1) = match pull_name(self.cursor) {
            Ok(r) => r,
            Err(e) => {
                proof {
                    lemma_stay(self.cursor);
                }
                return Err(e);
            },
        };
        let c2 = skip_whitespace(c1);
        let ghost start = self.cursor;
        proof {
            assert(start@.skip(start@.len() - c1@.len()) == c1@);
            lemma_followed_trans(start, c1, c2);
        }
        let (end, res) = pull_attrs(&mut self.attributes, c2);
        self.cursor = end;
        proof {
            lemma_followed_trans(start, c2, end);
            crate::text::lemma_blen_ge_len(start@.take(start@.len() - end@.len()));
        }
        match res {
            Ok(empty) => {
                self.empty = empty;
                self.seen_root = true;
                self.depth = self.depth + 1;
                let evt = XmlEvent::stag(name, empty);
                proof {
                    assert(attrs_view(evt->STag_0.attrs@) =~= Seq::<(Seq<char>, Seq<char>)>::empty());
                }
                Ok(Some(evt))
            },
            Err(e) => Err(e),
        }
    }

    /// Reads an end tag after its `</`.
    fn parse_etag(&mut self) -> (r: Result<Option<XmlEvent<'a>>, XmlError>)
        requires
            old(self).wf(),
            !old(self).empty,
            spec_pull_etag(old(self)@) is Some,
        ensures
            final(self).wf(),
            old(self).cursor.followed_by(final(self).cursor),
            (final(self)@, result_view(r)) == spec_pull_etag(old(self)@)->0,
    {
        proof {
            lemma_stay(self.cursor);
        }
        if self.depth == 0 && self.seen_root {
            return Err(XmlError::ExpectedDocumentEnd);
        }
        let (name, c1) = pull_name(self.cursor)?;
        let c2 = skip_whitespace(c1);
        if !c2.has_next_char('>') {
            return Err(XmlError::ExpectedElementEnd);
        }
        let c3 = c2.skip_char('>');
        let ghost start = self.cursor;
        proof {
            assert(start@.skip(start@.len() - c1@.len()) == c1@);
            lemma_followed_trans(start, c1, c2);
            lemma_followed_trans(start, c2, c3);
            crate::text::lemma_blen_ge_len(start@.take(start@.len() - c3@.len()));
        }
        self.cursor = c3;
        self.depth = self.depth - 1;
        Ok(Some(XmlEvent::ETag(ETag { name: std::borrow::Cow::Borrowed(name) })))
    }

    /// Reads the XML declaration at the cursor.
    fn parse_decl(&mut self) -> (r: Result<Option<XmlEvent<'a>>, XmlError>)
        requires
            old(self).wf(),
        ensures
            final(self).wf(),
            old(self).cursor.followed_by(final(self).cursor),
            (final(self)@, result_view(r)) == spec_pull_decl(old(self)@),
    {
        proof {
            lemma_stay(self.cursor);
        }
        let (decl, cursor) = XmlDeclToken.parse(self.cursor)?;
        self.version = Some(decl.version.clone());
        self.standalone = decl.standalone;
        if let Some(encoding) = &decl.encoding {
            if !str_eq(encoding.as_str(), "UTF-8") {
                return Err(XmlError::UnsupportedEncoding(encoding.clone()));
            }
        }
        let ghost start = self.cursor;
        proof {
            assert(start@.skip(start@.len() - cursor@.len()) == cursor@);
            crate::text::lemma_blen_ge_len(start@.take(start@.len() - cursor@.len()));
        }
        self.cursor = cursor;
        Ok(Some(XmlEvent::XmlDecl(decl)))
    }

    /// The next event: a start tag (its attributes are then in `attributes`), an end tag
    /// or the XML declaration; `None` at the end of the input.
    pub fn next(&mut self) -> (r: Result<Option<XmlEvent<'a>>, XmlError>)
        requires
            old(self).wf(),
            spec_pull_next(old(self)@) is Some,
        ensures
            final(self).wf(),
            (final(self)@, result_view(r)) == spec_pull_next(old(self)@)->0,
    {
        self.attributes.clear();
        if self.empty {
            self.depth = self.depth - 1;
            self.empty = false;
        }
        proof {
            assert(attrs_view(self.attributes@) =~= Seq::<(Seq<char>, Seq<char>)>::empty());
        }
        let ghost s0 = self@;
        let c1 = skip_whitespace(self.cursor);
        self.cursor = c1;
        proof {
            crate::text::lemma_blen_ge_len(old(self).cursor@.take(ws(old(self).cursor@) as int));
        }
        match c1.next_char() {
            None => {
                if self.depth != 0 {
                    Err(XmlError::OpenElementAtEof)
                } else {
                    Ok(None)
                }
            },
            Some(c) => {
                if c != '<' {
                    return vstd::pervasive::unreached();
                }
                let c2 = c1.skip_char('<');
                match c2.next_char() {
                    None => Err(XmlError::ExpectedElementStart),
                    Some(d) => {
                        proof {
                            assert(c1@[1] == d);
                        }
                        if d == '/' {
                            let c3 = c2.skip_char('/');
                            proof {
                                lemma_followed_trans(c1, c2, c3);
                                assert(c1@.skip(2) =~= c3@);
                                crate::text::lemma_blen_ge_len(c1@.take(2));
                            }
                            self.cursor = c3;
                            self.parse_etag()
                        } else if d == '?' {
                            if !self.seen_root && self.version.is_none() {
                                self.parse_decl()
                            } else {
                                vstd::pervasive::unreached()
                            }
                        } else {
                            proof {
                                crate::text::lemma_blen_ge_len(c1@.take(1));
                            }
                            self.cursor = c2;
                            self.parse_stag()
                        }
                    },
                }
            },
        }
    }
}


/// The text that `parser` reads, in place of its attribute.
pub fn lexeme<'a, T: 'a + Parser<'a>>(parser: T) -> (r: Lexeme<'a, T>)
    ensures
        r.0 == parser,
{
    raw(parser)
}

/// One character that `predicate` accepts.
pub fn char_<P: Fn(char) -> bool>(predicate: P) -> (r: Char<P>)
    ensures
        r.predicate == predicate,
{
    Char { predicate }
}

/// One character that a predicate accepts.
pub struct Char<P: Fn(char) -> bool> {
    pub predicate: P,
}

impl<'a, P: Fn(char) -> bool> Parser<'a> for Char<P> {
    type Attribute = ();

    type Error = ();

    /// The predicate takes every character and accepts only ASCII characters, which the
    /// parser moves past as one byte.
    open spec fn ready(&self) -> bool {
        &&& forall|c: char| #[trigger] call_requires(self.predicate, (c,))
        &&& forall|c: char| #[trigger] call_ensures(self.predicate, (c,), true) ==> (c as u32) < 0x80
    }

    open spec fn parses(&self, input: Seq<char>, res: Result<((), nat), ()>) -> bool {
        match res {
            Ok(_) => input.len() > 0 && res == Ok::<((), nat), ()>(((), 1)) && call_ensures(self.predicate, (input[0],), true),
            Err(_) => input.len() == 0 || call_ensures(self.predicate, (input[0],), false),
        }
    }

    fn parse(&self, cur: Cursor<'a>) -> (res: Result<((), Cursor<'a>), ()>) {
        if let Some(c) = cur.next_char() {
            if (self.predicate)(c) {
                return Ok(((), cur.skip_char(c)));
            }
        }
        Err(())
    }
}
} // verus!

//! A simple XML parser that hands each event to a visitor.
//!
//! Does not support DTDs and only UTF-8 strings.
use std::borrow::Cow;

use vstd::prelude::*;
use vstd::std_specs::iter::IteratorSpec;

use crate::events::{opt_str_view, opt_string_view, XmlDecl, XmlError, XmlErrorAtom, XmlErrorV};
use crate::parser::cursor::{consumed, lemma_followed_trans, Cursor};
use crate::parser::Parser;
use crate::reader::machine::{char_string, str_eq_ignore_ascii_case};
use crate::reader::tokens::{
    read_err, read_ok, decl_view, skip_whitespace, str_eq, CDataToken, CharRefToken, CommentToken, EntityRefToken,
    EqToken, NameToken, PIToken, SToken, XmlDeclToken,
};
use crate::text::{byte_len, rest_after, scan_while, span, CharClass};

pub mod namespace;
pub mod steps;

use steps::{
    done, expected_before_root, has_name, is_decl_start, predefined_text, simple_wf,
    spec_after_root, spec_att_chars, spec_before_root, spec_in_root, spec_simple_att_value,
    spec_simple_attrs, spec_simple_cdata, spec_simple_characters, spec_simple_comment,
    spec_simple_decl, spec_simple_etag, spec_simple_next, spec_simple_pi, spec_simple_reference,
    spec_simple_stag, spec_value_reference, lemma_ok_keeps_wf, ParserState, SimpleEventV, SimpleStep, SimpleV,
};

verus! {

broadcast use vstd::string::group_string_axioms;

/// What a visitor of the simple parser does with each kind of event.
pub trait SimpleXmlVisitor<'i>: Sized {
    type Value;

    fn visit_start_element<A: AttributeAccess<'i>>(self, tag: &'i str, attrs: A) -> Result<Self::Value, XmlError>;

    fn visit_end_element(self, tag: &'i str) -> Result<Self::Value, XmlError>;

    fn visit_declaration(self, decl: XmlDecl) -> Result<Self::Value, XmlError>;

    fn visit_characters(self, characters: &'i str) -> Result<Self::Value, XmlError>;

    fn visit_borrowed_characters(self, characters: &str) -> Result<Self::Value, XmlError>;

    fn visit_pi(self, target: &'i str, data: Option<&'i str>) -> Result<Self::Value, XmlError>;

    fn visit_comment(self, comment: &'i str) -> Result<Self::Value, XmlError>;
}

/// The attributes of a start tag, one after the other.
pub trait AttributeAccess<'i>: Sized {
    fn next_entry<K: StrVisitor<'i>, V: StrVisitor<'i>>(
        &mut self,
        key_visitor: K,
        value_visitor: V,
    ) -> Result<Option<(K::Value, V::Value)>, XmlError>;
}

/// What a visitor makes of a text, borrowed from the input or not.
pub trait StrVisitor<'i>: Sized {
    type Value;

    fn visit_str(self, value: &str) -> Result<Self::Value, XmlError>;

    fn visit_borrowed(self, value: &'i str) -> (r: Result<Self::Value, XmlError>)
        default_ensures
            call_ensures(Self::visit_str, (self, value), r),
    {
        self.visit_str(value)
    }

    /// The text, handed to `visit_str`.
    fn visit_string(self, value: String) -> (r: Result<Self::Value, XmlError>)
        default_ensures
            exists|s: &str| s@ == value@ && call_ensures(Self::visit_str, (self, s), r),
    {
        self.visit_str(value.as_str())
    }

    /// A borrowed text handed to `visit_borrowed`, an owned one to `visit_string`.
    fn visit_cow(self, value: Cow<'i, str>) -> (r: Result<Self::Value, XmlError>)
        default_ensures
            match value {
                Cow::Borrowed(b) => call_ensures(Self::visit_borrowed, (self, b), r),
                Cow::Owned(o) => call_ensures(Self::visit_string, (self, o), r),
            },
    {
        match value {
            Cow::Borrowed(borrowed) => self.visit_borrowed(borrowed),
            Cow::Owned(owned) => self.visit_string(owned),
        }
    }
}

/// Makes a `Cow<str>` of a text, borrowing where it can.
pub struct CowVisitor;

impl<'i> StrVisitor<'i> for CowVisitor {
    type Value = Cow<'i, str>;

    fn visit_str(self, value: &str) -> (r: Result<Cow<'i, str>, XmlError>)
        ensures
            r matches Ok(c) && c@ == value@,
    {
        Ok(Cow::Owned(value.to_owned()))
    }

    fn visit_borrowed(self, value: &'i str) -> (r: Result<Cow<'i, str>, XmlError>)
        ensures
            r matches Ok(c) && c@ == value@,
    {
        Ok(Cow::Borrowed(value))
    }

    fn visit_string(self, value: String) -> (r: Result<Cow<'i, str>, XmlError>)
        ensures
            r matches Ok(c) && c@ == value@,
    {
        Ok(Cow::Owned(value))
    }

    fn visit_cow(self, value: Cow<'i, str>) -> (r: Result<Cow<'i, str>, XmlError>)
        ensures
            r matches Ok(c) && c@ == value@,
    {
        Ok(value)
    }
}

/// Makes a `String` of a text.
pub struct StringVisitor;

impl<'i> StrVisitor<'i> for StringVisitor {
    type Value = String;

    fn visit_str(self, value: &str) -> (r: Result<String, XmlError>)
        ensures
            r matches Ok(s) && s@ == value@,
    {
        Ok(value.to_owned())
    }

    fn visit_string(self, value: String) -> (r: Result<String, XmlError>)
        ensures
            r matches Ok(s) && s@ == value@,
    {
        Ok(value)
    }
}

/// The texts of a sequence of string slices.
pub open spec fn strs_view(v: Seq<&str>) -> Seq<Seq<char>> {
    v.map_values(|s: &str| s@)
}

/// The names and values of attributes.
pub open spec fn simple_attrs_view<'i>(v: Seq<(&'i str, Cow<'i, str>)>) -> Seq<(Seq<char>, Seq<char>)> {
    v.map_values(|a: (&'i str, Cow<'i, str>)| (a.0@, a.1@))
}

/// An event of the simple parser, before it goes to the visitor.
pub enum SimpleEvent<'i> {
    Decl(XmlDecl),
    PI(&'i str, Option<&'i str>),
    Comment(&'i str),
    Start(&'i str, Vec<(&'i str, Cow<'i, str>)>),
    End(&'i str),
    Chars(&'i str),
    CharRef(String),
}

pub open spec fn simple_event_view<'i>(e: SimpleEvent<'i>) -> SimpleEventV {
    match e {
        SimpleEvent::Decl(d) => SimpleEventV::Decl {
            version: d.version@,
            encoding: opt_string_view(d.encoding),
            standalone: d.standalone,
        },
        SimpleEvent::PI(t, d) => SimpleEventV::PI { target: t@, data: opt_str_view(d) },
        SimpleEvent::Comment(c) => SimpleEventV::Comment(c@),
        SimpleEvent::Start(tag, attrs) => SimpleEventV::Start { tag: tag@, attrs: simple_attrs_view(attrs@) },
        SimpleEvent::End(tag) => SimpleEventV::End(tag@),
        SimpleEvent::Chars(c) => SimpleEventV::Chars(c@),
        SimpleEvent::CharRef(c) => SimpleEventV::CharRef(c@),
    }
}

pub open spec fn simple_result_view<'i>(r: Result<Option<SimpleEvent<'i>>, XmlError>) -> Result<Option<SimpleEventV>, XmlErrorV> {
    match r {
        Ok(Some(e)) => Ok(Some(simple_event_view(e))),
        Ok(None) => Ok(None),
        Err(e) => Err(e@),
    }
}

/// Simple XML parser
///
/// Does not support DTDs and only UTF-8 strings.
///
/// Should be sufficient for most modern XML.
pub struct SimpleXmlParser<'i> {
    state: ParserState,
    cursor: Cursor<'i>,
    empty: bool,
    attribute_names: Vec<&'i str>,
    stack: Vec<&'i str>,
    version: Option<String>,
    input: Ghost<Seq<char>>,
}

impl<'i> View for SimpleXmlParser<'i> {
    type V = SimpleV;

    closed spec fn view(&self) -> SimpleV {
        SimpleV {
            state: self.state,
            rest: self.cursor@,
            empty: self.empty,
            names: strs_view(self.attribute_names@),
            stack: strs_view(self.stack@),
            version: opt_string_view(self.version),
        }
    }
}

/// The text of a predefined entity.
fn predefined(name: &str) -> (r: Option<&'static str>)
    ensures
        opt_str_view(r) == predefined_text(name@),
{
    proof {
        reveal_strlit("apos");
        reveal_strlit("quot");
        reveal_strlit("lt");
        reveal_strlit("gt");
        reveal_strlit("amp");
    }
    if str_eq(name, "apos") {
        Some("'")
    } else if str_eq(name, "quot") {
        Some("\"")
    } else if str_eq(name, "lt") {
        Some("<")
    } else if str_eq(name, "gt") {
        Some(">")
    } else if str_eq(name, "amp") {
        Some("&")
    } else {
        None
    }
}

/// Reads a reference inside an attribute value.
fn value_reference<'a>(cursor: Cursor<'a>) -> (r: Result<(String, Cursor<'a>), XmlError>)
    requires
        cursor@.len() > 0,
        cursor@[0] == '&',
    ensures
        match r {
            Ok((t, c)) => read_ok(cursor, c, t@, spec_value_reference(cursor@)),
            Err(e) => read_err(e, spec_value_reference(cursor@)),
        },
{
    let c1 = cursor.skip_char('&');
    if c1.has_next_char('#') {
        let (c, after) = CharRefToken.parse(cursor)?;
        return Ok((char_string(c), after));
    }
    let (name, after) = EntityRefToken.parse(cursor)?;
    match predefined(name) {
        Some(t) => Ok((t.to_owned(), after)),
        None => Err(XmlError::UnknownEntity(name.to_owned())),
    }
}

proof fn lemma_no_move<'b>(c: Cursor<'b>)
    ensures
        c.followed_by(c),
        consumed(c, c) == 0,
{
    assert(c@.skip(0) =~= c@);
    assert(c@.take(0) =~= Seq::<char>::empty());
    assert(vstd::utf8::encode_utf8(Seq::<char>::empty()) =~= Seq::<u8>::empty());
}

/// Reads a quoted attribute value and replaces its references.
fn simple_att_value<'a>(cursor: Cursor<'a>) -> (r: Result<(Cow<'a, str>, Cursor<'a>), XmlError>)
    ensures
        match r {
            Ok((v, c)) => read_ok(cursor, c, v@, spec_simple_att_value(cursor@)),
            Err(e) => read_err(e, spec_simple_att_value(cursor@)),
        },
{
    let q = match cursor.next_char() {
        Some(q) => {
            if q == '"' || q == '\'' {
                q
            } else {
                return Err(XmlError::ExpectToken("quote or single quote"));
            }
        },
        None => {
            return Err(XmlError::ExpectToken("quote or single quote"));
        },
    };
    let start = cursor.skip_char(q);
    proof {
        lemma_no_move(start);
    }
    let mut cur = start;
    let mut run = start;
    let mut owned: Option<String> = None;
    let ghost mut acc: Seq<char> = Seq::empty();
    loop
        invariant
            cursor.skipped(1, start),
            start.followed_by(run),
            run.followed_by(cur),
            start.followed_by(cur),
            q == cursor@[0],
            spec_simple_att_value(cursor@) == spec_att_chars(
                cur@,
                q,
                acc + run@.take(consumed(run, cur) as int),
                1 + consumed(start, cur),
            ),
            match owned {
                None => acc == Seq::<char>::empty(),
                Some(s) => s@ == acc,
            },
        decreases cur@.len(),
    {
        let c = match cur.next_char() {
            None => {
                return Err(XmlError::UnexpectedEof);
            },
            Some(c) => c,
        };
        if c == q {
            let n = cur.offset() - run.offset();
            proof {
                crate::text::lemma_blen_split(run@, consumed(run, cur) as int);
            }
            let (text, _) = run.split_chars(Ghost(consumed(run, cur) as int), n);
            let end = cur.skip_char(q);
            proof {
                lemma_followed_trans(start, cur, end);
                crate::parser::cursor::lemma_skipped_trans(cursor, start, end, 1, consumed(start, end) as int);
            }
            let value = match owned {
                None => {
                    proof {
                        assert(acc + text@ =~= text@);
                    }
                    Cow::Borrowed(text)
                },
                Some(mut s) => {
                    s.append(text);
                    Cow::Owned(s)
                },
            };
            return Ok((value, end));
        } else if c == '<' {
            return Err(XmlError::IllegalAttributeValue("< not allowed in attribute value"));
        } else if c == '&' {
            let (t, after) = value_reference(cur)?;
            let n = cur.offset() - run.offset();
            proof {
                crate::text::lemma_blen_split(run@, consumed(run, cur) as int);
            }
            let (text, _) = run.split_chars(Ghost(consumed(run, cur) as int), n);
            let mut s = match owned {
                None => String::new(),
                Some(s) => s,
            };
            s.append(text);
            s.append(t.as_str());
            proof {
                lemma_followed_trans(start, cur, after);
                assert(rest_after(cur@, consumed(cur, after)) == after@);
                acc = acc + text@ + t@;
            }
            owned = Some(s);
            cur = after;
            run = after;
            proof {
                lemma_no_move(after);
                assert(run@.take(0) =~= Seq::<char>::empty());
            }
        } else {
            let next = cur.skip_char(c);
            proof {
                lemma_followed_trans(run, cur, next);
                lemma_followed_trans(start, cur, next);
                assert(run@.take(consumed(run, next) as int) =~= run@.take(consumed(run, cur) as int).push(c));
            }
            cur = next;
        }
    }
}

/// A step ended in state `p` with `r`, as `sp` says.
pub open spec fn simple_stepped<'i>(p: SimpleV, r: Result<Option<SimpleEvent<'i>>, XmlError>, sp: SimpleStep) -> bool {
    &&& p == sp.p
    &&& simple_result_view(r) == sp.result
}

impl<'i> SimpleXmlParser<'i> {
    pub fn from_str(input: &'i str) -> (r: Self)
        ensures
            r@ == (SimpleV {
                state: ParserState::XmlDecl,
                rest: input@,
                empty: false,
                names: Seq::empty(),
                stack: Seq::empty(),
                version: None,
            }),
            r.wf(),
            r.input() == input@,
    {
        let r = Self {
            state: ParserState::XmlDecl,
            cursor: Cursor::new(input),
            empty: false,
            attribute_names: Vec::new(),
            stack: Vec::new(),
            version: None,
            input: Ghost(input@),
        };
        proof {
            assert(input@.take(0) =~= Seq::<char>::empty());
            assert(vstd::utf8::encode_utf8(Seq::<char>::empty()) =~= Seq::<u8>::empty());
            assert(input@.skip(0) =~= input@);
            assert(strs_view(r.attribute_names@) =~= Seq::<Seq<char>>::empty());
            assert(strs_view(r.stack@) =~= Seq::<Seq<char>>::empty());
        }
        r
    }

    /// The whole input.
    pub closed spec fn input(&self) -> Seq<char> {
        self.input@
    }

    /// The parser stands at a place in its input.
    pub closed spec fn positioned(&self) -> bool {
        crate::reader::suffix_at(self.input@, self.cursor@, self.cursor.spec_offset())
    }

    /// The parser stands at a place in its input, and its parts fit together.
    pub closed spec fn wf(&self) -> bool {
        &&& self.positioned()
        &&& simple_wf(self@)
    }

    /// A parser that stands in its input has parts that fit together.
    pub proof fn lemma_wf_parts(&self)
        requires
            self.wf(),
        ensures
            simple_wf(self@),
    {
    }

    /// The byte offset in the input where the parser stands.
    pub fn cursor_offset(&self) -> (r: usize)
        requires
            self.wf(),
        ensures
            r == crate::text::blen(self.input().take(self.input().len() - self@.rest.len())),
    {
        self.cursor.offset()
    }

    /// What is left of the input.
    pub fn unparsed(&self) -> (r: &'i str)
        ensures
            r@ == self@.rest,
    {
        self.cursor.rest()
    }

    /// Whether an attribute named `name` was read in the start tag.
    fn exists_attribute_name(&self, name: &str) -> (r: bool)
        ensures
            r == has_name(self@.names, name@),
    {
        let mut i: usize = 0;
        while i < self.attribute_names.len()
            invariant
                0 <= i <= self.attribute_names@.len(),
                forall|j: int| 0 <= j < i ==> strs_view(self.attribute_names@)[j] != name@,
            decreases self.attribute_names@.len() - i,
        {
            if str_eq(self.attribute_names[i], name) {
                assert(strs_view(self.attribute_names@)[i as int] == name@);
                return true;
            }
            i += 1;
        }
        false
    }

    /// Reads the attributes and the end of a start tag.
    fn read_attrs(&mut self, attrs: &mut Vec<(&'i str, Cow<'i, str>)>, got_ws: bool) -> (r: Result<(), XmlError>)
        ensures
            old(self).cursor.followed_by(final(self).cursor),
            final(self).input == old(self).input,
            ({
                let (p2, res) = spec_simple_attrs(old(self)@, simple_attrs_view(old(attrs)@), got_ws);
                &&& final(self)@ == p2
                &&& match res {
                    Ok(a) => r is Ok && simple_attrs_view(final(attrs)@) == a,
                    Err(e) => r matches Err(x) && x@ == e,
                }
            }),
        decreases old(self)@.rest.len(),
    {
        proof {
            reveal(spec_simple_attrs);
            lemma_no_move(self.cursor);
        }
        let cur = self.cursor;
        let c = match cur.next_char() {
            None => {
                return Err(XmlError::UnexpectedEof);
            },
            Some(c) => c,
        };
        if c == '/' {
            let c1 = cur.skip_char('/');
            if !c1.has_next_char('>') {
                return Err(XmlError::ExpectedElementEnd);
            }
            let c2 = c1.skip_char('>');
            proof {
                assert(c2@ =~= cur@.skip(2));
                lemma_followed_trans(cur, c1, c2);
            }
            self.cursor = c2;
            self.empty = true;
            return Ok(());
        }
        if c == '>' {
            self.cursor = cur.skip_char('>');
            return Ok(());
        }
        if !got_ws {
            return Err(XmlError::ExpectedWhitespace);
        }
        let (attr_name, a1) = NameToken.parse(cur)?;
        let (_, a2) = EqToken.parse(a1)?;
        let (value, a3) = simple_att_value(a2)?;
        let (w, a4) = match SToken.parse(a3) {
            Ok((_, c)) => (true, c),
            Err(_) => {
                proof {
                    lemma_no_move(a3);
                }
                (false, a3)
            },
        };
        proof {
            crate::reader::dtd::lemma_ws_bound(a3@);
            assert(a1@ == rest_after(cur@, consumed(cur, a1)));
            assert(a2@ == rest_after(a1@, consumed(a1, a2)));
            assert(a3@ == rest_after(a2@, consumed(a2, a3)));
            assert(a4@ == rest_after(a3@, crate::reader::tokens::ws(a3@)));
            assert(w == (crate::reader::tokens::ws(a3@) > 0));
            lemma_followed_trans(cur, a1, a2);
            lemma_followed_trans(cur, a2, a3);
            lemma_followed_trans(cur, a3, a4);
        }
        self.cursor = a4;
        if self.exists_attribute_name(attr_name) {
            return Err(XmlError::NonUniqueAttribute { attribute: attr_name.to_owned() });
        }
        let ghost names = self.attribute_names@;
        self.attribute_names.push(attr_name);
        let ghost before = attrs@;
        attrs.push((attr_name, value));
        proof {
            assert(strs_view(self.attribute_names@) =~= strs_view(names).push(attr_name@));
            assert(simple_attrs_view(attrs@) =~= simple_attrs_view(before).push((attr_name@, value@)));
        }
        let r = self.read_attrs(attrs, w);
        proof {
            lemma_followed_trans(cur, a4, self.cursor);
        }
        r
    }

    fn parse_stag(&mut self) -> (r: Result<Option<SimpleEvent<'i>>, XmlError>)
        ensures
            old(self).cursor.followed_by(final(self).cursor),
            final(self).input == old(self).input,
            simple_stepped(final(self)@, r, spec_simple_stag(old(self)@)),
    {
        proof {
            reveal(spec_simple_stag);
            lemma_no_move(self.cursor);
        }
        let (name, c1) = NameToken.parse(self.cursor)?;
        let c2 = skip_whitespace(c1);
        proof {
            crate::reader::dtd::lemma_ws_bound(c1@);
            assert(c1@ == rest_after(old(self)@.rest, consumed(old(self).cursor, c1)));
        }
        let got_ws = c2.offset() != c1.offset();
        proof {
            crate::text::lemma_blen_ge_len(c1@.take(crate::reader::tokens::ws(c1@) as int));
        }
        proof {
            lemma_followed_trans(old(self).cursor, c1, c2);
        }
        self.cursor = c2;
        let ghost stack = self.stack@;
        self.stack.push(name);
        self.attribute_names.clear();
        proof {
            assert(strs_view(self.stack@) =~= strs_view(stack).push(name@));
            assert(strs_view(self.attribute_names@) =~= Seq::<Seq<char>>::empty());
        }
        let mut attrs: Vec<(&'i str, Cow<'i, str>)> = Vec::new();
        proof {
            assert(simple_attrs_view(attrs@) =~= Seq::<(Seq<char>, Seq<char>)>::empty());
        }
        let r = self.read_attrs(&mut attrs, got_ws);
        proof {
            lemma_followed_trans(old(self).cursor, c2, self.cursor);
        }
        match r {
            Ok(()) => Ok(Some(SimpleEvent::Start(name, attrs))),
            Err(e) => Err(e),
        }
    }

    fn parse_etag(&mut self) -> (r: Result<Option<SimpleEvent<'i>>, XmlError>)
        requires
            old(self)@.stack.len() > 0,
        ensures
            old(self).cursor.followed_by(final(self).cursor),
            final(self).input == old(self).input,
            simple_stepped(final(self)@, r, spec_simple_etag(old(self)@)),
    {
        proof {
            reveal(spec_simple_etag);
            lemma_no_move(self.cursor);
        }
        let (name, c1) = NameToken.parse(self.cursor)?;
        let c2 = skip_whitespace(c1);
        proof {
            crate::reader::dtd::lemma_ws_bound(c1@);
            assert(c1@ == rest_after(old(self)@.rest, consumed(old(self).cursor, c1)));
        }
        if !c2.has_next_char('>') {
            return Err(XmlError::ExpectedElementEnd);
        }
        let c3 = c2.skip_char('>');
        proof {
            lemma_followed_trans(old(self).cursor, c1, c2);
            lemma_followed_trans(old(self).cursor, c2, c3);
        }
        self.cursor = c3;
        let ghost stack = self.stack@;
        let expected = self.stack.pop().unwrap();
        proof {
            assert(strs_view(self.stack@) =~= strs_view(stack).drop_last());
        }
        if str_eq(expected, name) {
            if self.stack.len() == 0 {
                self.state = ParserState::Epilogue;
            }
            Ok(Some(SimpleEvent::End(name)))
        } else {
            Err(XmlError::WrongETagName { expected_name: expected.to_owned() })
        }
    }

    fn parse_decl(&mut self) -> (r: Result<Option<SimpleEvent<'i>>, XmlError>)
        ensures
            old(self).cursor.followed_by(final(self).cursor),
            final(self).input == old(self).input,
            simple_stepped(final(self)@, r, spec_simple_decl(old(self)@)),
    {
        proof {
            reveal(spec_simple_decl);
            lemma_no_move(self.cursor);
        }
        let (decl, cursor) = XmlDeclToken.parse(self.cursor)?;
        self.version = Some(decl.version.clone());
        if let Some(enc) = &decl.encoding {
            if !str_eq_ignore_ascii_case(enc.as_str(), "UTF-8") {
                return Err(XmlError::UnsupportedEncoding(enc.clone()));
            }
        }
        self.cursor = cursor;
        Ok(Some(SimpleEvent::Decl(decl)))
    }

    fn parse_pi(&mut self) -> (r: Result<Option<SimpleEvent<'i>>, XmlError>)
        ensures
            old(self).cursor.followed_by(final(self).cursor),
            final(self).input == old(self).input,
            simple_stepped(final(self)@, r, spec_simple_pi(old(self)@)),
    {
        proof {
            reveal(spec_simple_pi);
            lemma_no_move(self.cursor);
        }
        let ((target, data), cursor) = PIToken.parse(self.cursor)?;
        self.cursor = cursor;
        Ok(Some(SimpleEvent::PI(target, data)))
    }

    fn parse_comment(&mut self) -> (r: Result<Option<SimpleEvent<'i>>, XmlError>)
        ensures
            old(self).cursor.followed_by(final(self).cursor),
            final(self).input == old(self).input,
            simple_stepped(final(self)@, r, spec_simple_comment(old(self)@)),
    {
        proof {
            reveal(spec_simple_comment);
            lemma_no_move(self.cursor);
        }
        let (comment, cursor) = CommentToken.parse(self.cursor)?;
        self.cursor = cursor;
        Ok(Some(SimpleEvent::Comment(comment)))
    }

    fn parse_cdata(&mut self) -> (r: Result<Option<SimpleEvent<'i>>, XmlError>)
        ensures
            old(self).cursor.followed_by(final(self).cursor),
            final(self).input == old(self).input,
            simple_stepped(final(self)@, r, spec_simple_cdata(old(self)@)),
    {
        proof {
            reveal(spec_simple_cdata);
            lemma_no_move(self.cursor);
        }
        let (cdata, cursor) = CDataToken.parse(self.cursor)?;
        self.cursor = cursor;
        Ok(Some(SimpleEvent::Chars(cdata)))
    }

    fn parse_characters(&mut self) -> (r: Result<Option<SimpleEvent<'i>>, XmlError>)
        ensures
            old(self).cursor.followed_by(final(self).cursor),
            final(self).input == old(self).input,
            simple_stepped(final(self)@, r, spec_simple_characters(old(self)@)),
    {
        proof {
            reveal(spec_simple_characters);
            lemma_no_move(self.cursor);
        }
        let cursor = self.cursor;
        let (k, n) = scan_while(cursor.rest(), CharClass::ContentChar);
        let total = byte_len(cursor.rest());
        proof {
            crate::text::lemma_span_props(cursor@, CharClass::ContentChar);
            if k < cursor@.len() {
                crate::reader::tokens::lemma_blen_lt(cursor@, k as int);
            } else {
                assert(cursor@.take(k as int) =~= cursor@);
            }
        }
        if n == total {
            return Err(XmlError::UnexpectedEof);
        }
        let (chars, rest) = cursor.split_chars(Ghost(k as int), n);
        let c = rest.next_char().unwrap();
        if !crate::chars::char_xml(c) {
            return Err(XmlError::InvalidCharacter(c));
        }
        self.cursor = rest;
        if crate::text::find_str(chars, "]]>").is_some() {
            Err(XmlError::IllegalCDataSectionEnd)
        } else {
            Ok(Some(SimpleEvent::Chars(chars)))
        }
    }

    fn parse_reference(&mut self) -> (r: Result<Option<SimpleEvent<'i>>, XmlError>)
        requires
            old(self)@.rest.len() > 0,
            old(self)@.rest[0] == '&',
        ensures
            old(self).cursor.followed_by(final(self).cursor),
            final(self).input == old(self).input,
            simple_stepped(final(self)@, r, spec_simple_reference(old(self)@)),
    {
        proof {
            reveal(spec_simple_reference);
            lemma_no_move(self.cursor);
        }
        let cur = self.cursor;
        let c1 = cur.skip_char('&');
        match c1.next_char() {
            None => Err(XmlError::IllegalReference),
            Some(c) => {
                if c == '#' {
                    let (character, cursor) = CharRefToken.parse(cur)?;
                    self.cursor = cursor;
                    Ok(Some(SimpleEvent::CharRef(char_string(character))))
                } else {
                    let (name, cursor) = EntityRefToken.parse(cur)?;
                    self.cursor = cursor;
                    match predefined(name) {
                        Some(t) => Ok(Some(SimpleEvent::Chars(t))),
                        None => Err(XmlError::UnknownEntity(name.to_owned())),
                    }
                }
            },
        }
    }
}

impl<'i> SimpleXmlParser<'i> {
    /// Skips the white space at the cursor, which must start with it.
    fn skip_ws(&mut self)
        ensures
            old(self).cursor.followed_by(final(self).cursor),
            final(self)@ == (SimpleV { rest: rest_after(old(self)@.rest, crate::reader::tokens::ws(old(self)@.rest)), ..old(self)@ }),
            final(self).input == old(self).input,
    {
        let c = skip_whitespace(self.cursor);
        proof {
            crate::reader::dtd::lemma_ws_bound(self.cursor@);
        }
        self.cursor = c;
    }

    /// Before the root element: the XML declaration too where `decl` (nothing was read
    /// yet), then comments, processing instructions and white space up to the root's
    /// start tag.
    fn parse_prologue(&mut self, decl: bool) -> (r: Result<Option<SimpleEvent<'i>>, XmlError>)
        ensures
            old(self).cursor.followed_by(final(self).cursor),
            final(self).input == old(self).input,
            simple_stepped(final(self)@, r, spec_before_root(old(self)@, decl)),
        decreases old(self)@.rest.len(),
    {
        proof {
            lemma_no_move(self.cursor);
        }
        let cur = self.cursor;
        let c = match cur.next_char() {
            None => {
                return Err(expected_error(decl));
            },
            Some(c) => c,
        };
        if c == '<' {
            let c1 = cur.skip_char('<');
            let second = match c1.next_char() {
                None => {
                    return Err(expected_error(decl));
                },
                Some(x) => x,
            };
            if second == '?' {
                self.state = ParserState::Prologue;
                if decl && self.is_decl_start() {
                    self.parse_decl()
                } else {
                    self.parse_pi()
                }
            } else if second == '!' {
                if cur.has_next_str("<!--") {
                    self.parse_comment()
                } else if cur.has_next_str("<!DOCTYPE") {
                    Err(XmlError::DtdError(crate::events::XmlDtdError::Unsupported))
                } else {
                    Err(expected_error(decl))
                }
            } else {
                self.cursor = c1;
                self.state = ParserState::Main;
                proof {
                    assert(c1@ =~= cur@.skip(1));
                }
                let r = self.parse_stag();
                proof {
                    lemma_followed_trans(cur, c1, self.cursor);
                }
                r
            }
        } else if crate::chars::char_whitespace(c) {
            self.skip_ws();
            let ghost mid = self.cursor;
            let r = self.parse_prologue(decl);
            proof {
                lemma_followed_trans(cur, mid, self.cursor);
            }
            r
        } else {
            Err(XmlError::UnexpectedCharacter(c))
        }
    }

    /// An XML declaration starts the rest of the input.
    fn is_decl_start(&self) -> (r: bool)
        ensures
            r == is_decl_start(self@.rest),
    {
        if !self.cursor.has_next_str("<?xml") {
            return false;
        }
        let mut it = self.cursor.rest().chars();
        let _ = it.next();
        let _ = it.next();
        let _ = it.next();
        let _ = it.next();
        let _ = it.next();
        let sixth = it.next();
        proof {
            reveal_strlit("<?xml");
            if self@.rest.len() > 5 {
                assert(sixth == Some(self@.rest[5]));
            }
        }
        match sixth {
            None => false,
            Some(c) => crate::chars::char_whitespace(c) || !((c >= 'a' && c <= 'z') || (c >= 'A' && c <= 'Z')
                || c == ':' || c == '_' || c == '-' || c == '.'),
        }
    }

    /// Inside the root element.
    fn parse_root_element(&mut self) -> (r: Result<Option<SimpleEvent<'i>>, XmlError>)
        requires
            old(self)@.stack.len() > 0,
        ensures
            old(self).cursor.followed_by(final(self).cursor),
            final(self).input == old(self).input,
            simple_stepped(final(self)@, r, spec_in_root(old(self)@)),
        decreases old(self)@.rest.len(),
    {
        proof {
            lemma_no_move(self.cursor);
        }
        let cur = self.cursor;
        let c = match cur.next_char() {
            None => {
                return Err(XmlError::OpenElementAtEof);
            },
            Some(c) => c,
        };
        if c == '<' {
            let c1 = cur.skip_char('<');
            let second = match c1.next_char() {
                None => {
                    return Err(XmlError::ExpectedElementStart);
                },
                Some(x) => x,
            };
            if second == '/' {
                let c2 = c1.skip_char('/');
                proof {
                    assert(c2@ =~= cur@.skip(2));
                    lemma_followed_trans(cur, c1, c2);
                }
                self.cursor = c2;
                let r = self.parse_etag();
                proof {
                    lemma_followed_trans(cur, c2, self.cursor);
                }
                r
            } else if second == '!' {
                if cur.has_next_str("<!--") {
                    self.parse_comment()
                } else if cur.has_next_str("<![CDATA[") {
                    self.parse_cdata()
                } else if cur.has_next_str("<!DOCTYPE") {
                    Err(XmlError::DtdError(crate::events::XmlDtdError::Unsupported))
                } else {
                    Err(XmlError::ExpectedElementStart)
                }
            } else if second == '?' {
                self.parse_pi()
            } else {
                self.cursor = c1;
                proof {
                    assert(c1@ =~= cur@.skip(1));
                }
                let r = self.parse_stag();
                proof {
                    lemma_followed_trans(cur, c1, self.cursor);
                }
                r
            }
        } else if c == '&' {
            self.parse_reference()
        } else if c == '\r' {
            let c1 = cur.skip_char('\r');
            self.cursor = c1;
            if c1.has_next_char('\n') {
                let r = self.parse_root_element();
                proof {
                    lemma_followed_trans(cur, c1, self.cursor);
                }
                r
            } else {
                proof {
                    reveal_strlit("\n");
                    assert("\n"@ =~= seq!['\n']);
                }
                Ok(Some(SimpleEvent::Chars("\n")))
            }
        } else {
            self.parse_characters()
        }
    }

    /// After the root element.
    fn parse_epilogue(&mut self) -> (r: Result<Option<SimpleEvent<'i>>, XmlError>)
        ensures
            old(self).cursor.followed_by(final(self).cursor),
            final(self).input == old(self).input,
            simple_stepped(final(self)@, r, spec_after_root(old(self)@)),
        decreases old(self)@.rest.len(),
    {
        proof {
            lemma_no_move(self.cursor);
        }
        let cur = self.cursor;
        let c = match cur.next_char() {
            None => {
                return Ok(None);
            },
            Some(c) => c,
        };
        if c == '<' {
            let c1 = cur.skip_char('<');
            if c1.has_next_char('?') {
                return self.parse_pi();
            }
            if c1.next_char().is_some() && cur.has_next_str("<!--") {
                return self.parse_comment();
            }
            Err(XmlError::Expected(expected_atoms_after_root()))
        } else if crate::chars::char_whitespace(c) {
            self.skip_ws();
            let ghost mid = self.cursor;
            let r = self.parse_epilogue();
            proof {
                lemma_followed_trans(cur, mid, self.cursor);
            }
            r
        } else {
            Err(XmlError::UnexpectedCharacter(c))
        }
    }

    /// The next event for the visitor, none after the end of the document, or the error.
    pub fn next_event(&mut self) -> (r: Result<Option<SimpleEvent<'i>>, XmlError>)
        requires
            old(self).wf(),
        ensures
            simple_stepped(final(self)@, r, spec_simple_next(old(self)@)),
            final(self).input() == old(self).input(),
            r is Ok ==> final(self).wf(),
            final(self).positioned(),
    {
        let ghost start = self.cursor;
        let r = match self.state {
            ParserState::XmlDecl => self.parse_prologue(true),
            ParserState::Prologue => self.parse_prologue(false),
            ParserState::Main => {
                if self.empty {
                    proof {
                        lemma_no_move(self.cursor);
                    }
                    self.empty = false;
                    let ghost stack = self.stack@;
                    let name = self.stack.pop().unwrap();
                    proof {
                        assert(strs_view(self.stack@) =~= strs_view(stack).drop_last());
                    }
                    if self.stack.len() == 0 {
                        self.state = ParserState::Epilogue;
                    }
                    Ok(Some(SimpleEvent::End(name)))
                } else {
                    self.parse_root_element()
                }
            },
            ParserState::Epilogue => self.parse_epilogue(),
        };
        proof {
            crate::reader::lemma_suffix_step(self.input@, start, self.cursor);
            if r is Ok {
                lemma_ok_keeps_wf(old(self)@);
            }
        }
        r
    }
}

/// The error where only the given kinds of markup may stand before the root element.
fn expected_error(decl: bool) -> (r: XmlError)
    ensures
        r@ == expected_before_root(decl),
{
    if decl {
        XmlError::Expected(Box::new([
            XmlErrorAtom::XmlDecl,
            XmlErrorAtom::Comment,
            XmlErrorAtom::PI,
            XmlErrorAtom::Element,
            XmlErrorAtom::Whitespace,
        ]))
    } else {
        XmlError::Expected(Box::new([XmlErrorAtom::Comment, XmlErrorAtom::PI, XmlErrorAtom::Element, XmlErrorAtom::Whitespace]))
    }
}

fn expected_atoms_after_root() -> (r: Box<[XmlErrorAtom]>)
    ensures
        r@ == seq![XmlErrorAtom::Comment, XmlErrorAtom::PI],
{
    Box::new([XmlErrorAtom::Comment, XmlErrorAtom::PI])
}

/// The attributes of a start tag as the parser read them, handed out one after the other.
pub struct SimpleAttributeAccess<'i> {
    attrs: Vec<(&'i str, Cow<'i, str>)>,
    next: usize,
}

impl<'i> SimpleAttributeAccess<'i> {
    /// The attributes, names and values.
    pub closed spec fn spec_attrs(&self) -> Seq<(&'i str, Cow<'i, str>)> {
        self.attrs@
    }

    /// How many attributes were handed out.
    pub closed spec fn spec_next(&self) -> nat {
        self.next as nat
    }
}

impl<'i> AttributeAccess<'i> for SimpleAttributeAccess<'i> {
    /// The next attribute, its name handed to `visit_borrowed` of the key visitor and
    /// its value to `visit_cow` of the value visitor; none after the last one.
    fn next_entry<K: StrVisitor<'i>, V: StrVisitor<'i>>(
        &mut self,
        key_visitor: K,
        value_visitor: V,
    ) -> (r: Result<Option<(K::Value, V::Value)>, XmlError>)
        ensures
            final(self).spec_attrs() == old(self).spec_attrs(),
            old(self).spec_next() < old(self).spec_attrs().len() ==> {
                let (name, value) = old(self).spec_attrs()[old(self).spec_next() as int];
                &&& final(self).spec_next() == old(self).spec_next() + 1
                &&& match r {
                    Ok(Some((k, v))) => call_ensures(K::visit_borrowed, (key_visitor, name), Ok::<K::Value, XmlError>(k))
                        && exists|c: Cow<'i, str>| c@ == value@ && call_ensures(V::visit_cow, (value_visitor, c), Ok::<V::Value, XmlError>(v)),
                    Ok(None) => false,
                    Err(e) => call_ensures(K::visit_borrowed, (key_visitor, name), Err::<K::Value, XmlError>(e))
                        || exists|c: Cow<'i, str>| c@ == value@ && call_ensures(V::visit_cow, (value_visitor, c), Err::<V::Value, XmlError>(e)),
                }
            },
            old(self).spec_next() >= old(self).spec_attrs().len() ==> r is Ok && r->Ok_0 is None && final(self).spec_next() == old(self).spec_next(),
    {
        if self.next < self.attrs.len() {
            let name = self.attrs[self.next].0;
            let value = crate::events::cow_clone(&self.attrs[self.next].1);
            self.next = self.next + 1;
            let key = match key_visitor.visit_borrowed(name) {
                Ok(k) => k,
                Err(e) => {
                    return Err(e);
                },
            };
            let value = match value_visitor.visit_cow(value) {
                Ok(v) => v,
                Err(e) => {
                    return Err(e);
                },
            };
            Ok(Some((key, value)))
        } else {
            Ok(None)
        }
    }
}

/// `r` is what the visitor's method for the kind of `ev` gave on the event's content.
pub open spec fn visited<'i, V: SimpleXmlVisitor<'i>>(visitor: V, ev: SimpleEventV, r: Result<V::Value, XmlError>) -> bool {
    match ev {
        SimpleEventV::Decl { version, encoding, standalone } => exists|d: XmlDecl|
            d.version@ == version && opt_string_view(d.encoding) == encoding && d.standalone == standalone
                && call_ensures(V::visit_declaration, (visitor, d), r),
        SimpleEventV::PI { target, data } => exists|t: &'i str, d: Option<&'i str>|
            t@ == target && opt_str_view(d) == data && call_ensures(V::visit_pi, (visitor, t, d), r),
        SimpleEventV::Comment(c) => exists|t: &'i str| t@ == c && call_ensures(V::visit_comment, (visitor, t), r),
        SimpleEventV::Start { tag, attrs } => exists|t: &'i str, a: SimpleAttributeAccess<'i>|
            t@ == tag && simple_attrs_view(a.spec_attrs()) == attrs && a.spec_next() == 0
                && call_ensures(V::visit_start_element::<SimpleAttributeAccess<'i>>, (visitor, t, a), r),
        SimpleEventV::End(tag) => exists|t: &'i str| t@ == tag && call_ensures(V::visit_end_element, (visitor, t), r),
        SimpleEventV::Chars(c) => exists|t: &'i str| t@ == c && call_ensures(V::visit_characters, (visitor, t), r),
        SimpleEventV::CharRef(c) => exists|t: &str| t@ == c && call_ensures(V::visit_borrowed_characters, (visitor, t), r),
    }
}

impl<'i> SimpleXmlParser<'i> {
    /// Reads the next event and hands it to the visitor: `None` after the end of the
    /// document. The start tag's attributes go to the visitor one after the other.
    pub fn parse_next<V: SimpleXmlVisitor<'i>>(&mut self, visitor: V) -> (r: Result<Option<V::Value>, XmlError>)
        requires
            old(self).wf(),
        ensures
            final(self)@ == spec_simple_next(old(self)@).p,
            final(self).input() == old(self).input(),
            final(self).positioned(),
            spec_simple_next(old(self)@).result is Ok ==> final(self).wf(),
            match spec_simple_next(old(self)@).result {
                Err(e) => r matches Err(x) && x@ == e,
                Ok(None) => r matches Ok(None),
                Ok(Some(ev)) => match r {
                    Ok(Some(v)) => visited(visitor, ev, Ok::<V::Value, XmlError>(v)),
                    Ok(None) => false,
                    Err(e) => visited(visitor, ev, Err::<V::Value, XmlError>(e)),
                },
            },
    {
        let ev = match self.next_event() {
            Ok(ev) => ev,
            Err(e) => {
                return Err(e);
            },
        };
        let r = match ev {
            None => {
                return Ok(None);
            },
            Some(SimpleEvent::Decl(d)) => visitor.visit_declaration(d),
            Some(SimpleEvent::PI(t, d)) => visitor.visit_pi(t, d),
            Some(SimpleEvent::Comment(c)) => visitor.visit_comment(c),
            Some(SimpleEvent::Start(tag, attrs)) => {
                let access = SimpleAttributeAccess { attrs, next: 0 };
                proof {
                    assert(simple_attrs_view(access.spec_attrs()) == simple_attrs_view(attrs@));
                }
                visitor.visit_start_element(tag, access)
            },
            Some(SimpleEvent::End(tag)) => visitor.visit_end_element(tag),
            Some(SimpleEvent::Chars(c)) => visitor.visit_characters(c),
            Some(SimpleEvent::CharRef(c)) => visitor.visit_borrowed_characters(c.as_str()),
        };
        match r {
            Ok(v) => Ok(Some(v)),
            Err(e) => Err(e),
        }
    }
}

} // verus!

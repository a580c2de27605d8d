//! The steps of the simple parser, each with the result it gives on every input.
use std::borrow::Cow;

use vstd::prelude::*;

use crate::chars::{char_is_whitespace, in_char_table};
use crate::events::{XmlDtdError, XmlErrorAtom, XmlErrorV};
use crate::reader::tokens::{
    spec_cdata, spec_char_ref, spec_comment, spec_entity_ref, spec_eq, spec_name, spec_pi,
    spec_xml_decl, ws,
};
use crate::reader::machine::eq_ignore_ascii_case;
use crate::text::{class_has, find, is_prefix, lemma_span_props, rest_after, span, CharClass};

verus! {

/// Where in the document the parser stands.
#[derive(PartialEq, Eq, Structural, Clone, Copy, Debug)]
pub enum ParserState {
    XmlDecl,
    Prologue,
    Main,
    Epilogue,
}

/// The abstract state of the simple parser: where it stands, the rest of the input, whether
/// an empty element's end is due, the attribute names of the last start tag, the names of
/// the open elements (innermost last) and the version of the XML declaration.
pub struct SimpleV {
    pub state: ParserState,
    pub rest: Seq<char>,
    pub empty: bool,
    pub names: Seq<Seq<char>>,
    pub stack: Seq<Seq<char>>,
    pub version: Option<Seq<char>>,
}

/// What the parser hands to the visitor.
pub enum SimpleEventV {
    Decl { version: Seq<char>, encoding: Option<Seq<char>>, standalone: Option<bool> },
    PI { target: Seq<char>, data: Option<Seq<char>> },
    Comment(Seq<char>),
    Start { tag: Seq<char>, attrs: Seq<(Seq<char>, Seq<char>)> },
    End(Seq<char>),
    /// Characters of the input.
    Chars(Seq<char>),
    /// The character of a character reference.
    CharRef(Seq<char>),
}

/// The new state and the event or error of a step.
pub struct SimpleStep {
    pub p: SimpleV,
    pub result: Result<Option<SimpleEventV>, XmlErrorV>,
}

pub open spec fn done(p: SimpleV, result: Result<Option<SimpleEventV>, XmlErrorV>) -> SimpleStep {
    SimpleStep { p, result }
}

/// The parser's parts fit together: an element is open while its content is read and
/// while an empty element's end is due.
pub open spec fn simple_wf(p: SimpleV) -> bool {
    &&& p.state == ParserState::Main ==> p.stack.len() > 0
    &&& p.empty ==> p.stack.len() > 0 && p.state == ParserState::Main
}

/// The text that a predefined entity stands for.
pub open spec fn predefined_text(name: Seq<char>) -> Option<Seq<char>> {
    if name == "apos"@ {
        Some("'"@)
    } else if name == "quot"@ {
        Some("\""@)
    } else if name == "lt"@ {
        Some("<"@)
    } else if name == "gt"@ {
        Some(">"@)
    } else if name == "amp"@ {
        Some("&"@)
    } else {
        None
    }
}

/// A reference inside an attribute value: a character reference gives its character, a
/// predefined entity its text.
pub open spec fn spec_value_reference(s: Seq<char>) -> Result<(Seq<char>, nat), XmlErrorV> {
    if s.len() > 1 && s[1] == '#' {
        match spec_char_ref(s) {
            Err(e) => Err(e),
            Ok((c, n)) => Ok((seq![c], n)),
        }
    } else {
        match spec_entity_ref(s) {
            Err(e) => Err(e),
            Ok((name, n)) => match predefined_text(name) {
                Some(t) => Ok((t, n)),
                None => Err(XmlErrorV::UnknownEntity(name)),
            },
        }
    }
}

/// A name of small letters between `&` and `;` is read as the entity reference to it.
proof fn lemma_letters_entity_ref(name: Seq<char>, t: Seq<char>)
    requires
        name.len() > 0,
        forall|i: int| 0 <= i < name.len() ==> 'a' <= #[trigger] name[i] <= 'z',
    ensures
        spec_entity_ref(seq!['&'] + name + seq![';'] + t) == Ok::<(Seq<char>, nat), XmlErrorV>((name, name.len() + 2)),
{
    reveal_strlit("&");
    reveal_strlit(";");
    let s = seq!['&'] + name + seq![';'] + t;
    assert(s.take(1) =~= "&"@);
    let r1 = s.skip(1);
    assert(r1 =~= name + seq![';'] + t);
    let d = r1.drop_first();
    assert forall|j: int| 0 <= j < name.len() - 1 implies class_has(CharClass::NameChar, #[trigger] d[j]) by {
        assert(d[j] == name[j + 1]);
    }
    assert(d[name.len() - 1] == ';');
    crate::text::lemma_span(d, CharClass::NameChar, name.len() - 1);
    assert(r1[0] == name[0]);
    assert(r1.take(name.len() as int) =~= name);
    assert(r1.skip(name.len() as int).take(1) =~= ";"@);
}

/// The five predefined entities, each by its name and its replacement text.
pub open spec fn is_predefined_pair(name: Seq<char>, text: Seq<char>) -> bool {
    ||| (name == seq!['l', 't'] && text == seq!['<'])
    ||| (name == seq!['g', 't'] && text == seq!['>'])
    ||| (name == seq!['a', 'm', 'p'] && text == seq!['&'])
    ||| (name == seq!['a', 'p', 'o', 's'] && text == seq!['\''])
    ||| (name == seq!['q', 'u', 'o', 't'] && text == seq!['"'])
}

/// A reference to a predefined entity in an attribute value gives the entity's
/// replacement text, `<` for `&lt;`, `>` for `&gt;`, `&` for `&amp;`, `'` for `&apos;` and
/// `"` for `&quot;`, and reads the reference whole, whatever follows it.
pub proof fn lemma_value_reference_predefined(name: Seq<char>, text: Seq<char>, t: Seq<char>)
    requires
        is_predefined_pair(name, text),
    ensures
        spec_value_reference(seq!['&'] + name + seq![';'] + t) == Ok::<(Seq<char>, nat), XmlErrorV>((text, name.len() + 2)),
{
    reveal_strlit("apos");
    reveal_strlit("quot");
    reveal_strlit("lt");
    reveal_strlit("gt");
    reveal_strlit("amp");
    reveal_strlit("'");
    reveal_strlit("\"");
    reveal_strlit("<");
    reveal_strlit(">");
    reveal_strlit("&");
    assert forall|i: int| 0 <= i < name.len() implies 'a' <= #[trigger] name[i] <= 'z' by {}
    lemma_letters_entity_ref(name, t);
    assert((seq!['&'] + name + seq![';'] + t)[1] == name[0]);
    assert("apos"@ =~= seq!['a', 'p', 'o', 's']);
    assert("quot"@ =~= seq!['q', 'u', 'o', 't']);
    assert("lt"@ =~= seq!['l', 't']);
    assert("gt"@ =~= seq!['g', 't']);
    assert("amp"@ =~= seq!['a', 'm', 'p']);
    assert("'"@ =~= seq!['\'']);
    assert("\""@ =~= seq!['"']);
    assert("<"@ =~= seq!['<']);
    assert(">"@ =~= seq!['>']);
    assert("&"@ =~= seq!['&']);
}

/// Characters that stand for themselves in an attribute value quoted by `q`.
pub open spec fn plain_value_text(a: Seq<char>, q: char) -> bool {
    forall|i: int| 0 <= i < a.len() ==> #[trigger] a[i] != q && a[i] != '<' && a[i] != '&'
}

proof fn lemma_att_chars_plain(a: Seq<char>, rest: Seq<char>, q: char, acc: Seq<char>, k: nat)
    requires
        plain_value_text(a, q),
    ensures
        spec_att_chars(a + rest, q, acc, k) == spec_att_chars(rest, q, acc + a, k + a.len()),
    decreases a.len(),
{
    if a.len() == 0 {
        assert(a + rest =~= rest);
        assert(acc + a =~= acc);
    } else {
        let s = a + rest;
        assert(s[0] == a[0]);
        assert(s.skip(1) =~= a.drop_first() + rest);
        assert(plain_value_text(a.drop_first(), q)) by {
            assert forall|i: int| 0 <= i < a.drop_first().len() implies #[trigger] a.drop_first()[i] != q && a.drop_first()[i] != '<'
                && a.drop_first()[i] != '&' by {
                assert(a.drop_first()[i] == a[i + 1]);
            }
        }
        lemma_att_chars_plain(a.drop_first(), rest, q, acc.push(a[0]), k + 1);
        assert(acc.push(a[0]) + a.drop_first() =~= acc + a);
    }
}

proof fn lemma_att_value_start(q: char, a: Seq<char>, r: Seq<char>)
    requires
        q == '"' || q == '\'',
        plain_value_text(a, q),
    ensures
        spec_simple_att_value(seq![q] + a + r) == spec_att_chars(r, q, a, 1 + a.len()),
{
    let whole = seq![q] + a + r;
    assert(whole[0] == q);
    assert(whole.skip(1) =~= a + r);
    lemma_att_chars_plain(a, r, q, Seq::empty(), 1);
    assert(Seq::<char>::empty() + a =~= a);
}

proof fn lemma_att_chars_reference(name: Seq<char>, text: Seq<char>, rest: Seq<char>, q: char, acc: Seq<char>, k: nat)
    requires
        q == '"' || q == '\'',
        is_predefined_pair(name, text),
    ensures
        spec_att_chars(seq!['&'] + name + seq![';'] + rest, q, acc, k) == spec_att_chars(
            rest,
            q,
            acc + text,
            k + name.len() + 2,
        ),
{
    let r = seq!['&'] + name + seq![';'] + rest;
    lemma_value_reference_predefined(name, text, rest);
    assert(r[0] == '&');
    assert(rest_after(r, name.len() + 2) =~= rest);
}

proof fn lemma_att_chars_close(b: Seq<char>, tail: Seq<char>, q: char, acc: Seq<char>, k: nat)
    requires
        plain_value_text(b, q),
    ensures
        spec_att_chars(b + (seq![q] + tail), q, acc, k) == Ok::<(Seq<char>, nat), XmlErrorV>((acc + b, k + b.len() + 1)),
{
    lemma_att_chars_plain(b, seq![q] + tail, q, acc, k);
    assert((seq![q] + tail)[0] == q);
}

/// An attribute value with a predefined entity reference between plain text reads as
/// that text with the reference replaced by the entity's replacement text: `a="x &amp; y"`
/// gives `x & y`.
pub proof fn lemma_att_value_replaces_reference(
    q: char,
    a: Seq<char>,
    name: Seq<char>,
    text: Seq<char>,
    b: Seq<char>,
    tail: Seq<char>,
)
    requires
        q == '"' || q == '\'',
        plain_value_text(a, q),
        plain_value_text(b, q),
        is_predefined_pair(name, text),
    ensures
        spec_simple_att_value(seq![q] + a + seq!['&'] + name + seq![';'] + b + seq![q] + tail) == Ok::<
            (Seq<char>, nat),
            XmlErrorV,
        >((a + text + b, a.len() + name.len() + b.len() + 4)),
{
    let rest = b + (seq![q] + tail);
    let r = seq!['&'] + name + seq![';'] + rest;
    assert(seq![q] + a + seq!['&'] + name + seq![';'] + b + seq![q] + tail =~= seq![q] + a + r);
    lemma_att_value_start(q, a, r);
    lemma_att_chars_reference(name, text, rest, q, a, 1 + a.len());
    lemma_att_chars_close(b, tail, q, a + text, 1 + a.len() + name.len() + 2);
}

/// The characters of an attribute value after its opening quote `q`, with references
/// replaced, appended to `acc`, with `k` characters read before: the value and the number
/// of characters read with the closing quote.
pub open spec fn spec_att_chars(s: Seq<char>, q: char, acc: Seq<char>, k: nat) -> Result<(Seq<char>, nat), XmlErrorV>
    decreases s.len(),
{
    if s.len() == 0 {
        Err(XmlErrorV::UnexpectedEof)
    } else if s[0] == q {
        Ok((acc, k + 1))
    } else if s[0] == '<' {
        Err(XmlErrorV::IllegalAttributeValue("< not allowed in attribute value"@))
    } else if s[0] == '&' {
        match spec_value_reference(s) {
            Err(e) => Err(e),
            Ok((t, n)) => if n > 0 {
                spec_att_chars(rest_after(s, n), q, acc + t, k + n)
            } else {
                // a reference is never empty
                Err(XmlErrorV::IllegalReference)
            },
        }
    } else {
        spec_att_chars(s.skip(1), q, acc.push(s[0]), k + 1)
    }
}

/// `AttValue ::= '"' ([^<&"] | Reference)* '"' | "'" ([^<&'] | Reference)* "'"`, with the
/// references replaced by their text.
pub open spec fn spec_simple_att_value(s: Seq<char>) -> Result<(Seq<char>, nat), XmlErrorV> {
    if s.len() > 0 && (s[0] == '"' || s[0] == '\'') {
        spec_att_chars(s.skip(1), s[0], Seq::empty(), 1)
    } else {
        Err(XmlErrorV::ExpectToken("quote or single quote"@))
    }
}

/// An attribute name was read in the start tag.
pub open spec fn has_name(names: Seq<Seq<char>>, name: Seq<char>) -> bool {
    exists|i: int| 0 <= i < names.len() && #[trigger] names[i] == name
}

/// The attributes of a start tag and its end, read after `names` in `p`; `ws_before` tells
/// whether white space came right before. Gives the state and the attributes read, or
/// the error and the state at it.
#[verifier::opaque]
pub open spec fn spec_simple_attrs(
    p: SimpleV,
    attrs: Seq<(Seq<char>, Seq<char>)>,
    ws_before: bool,
) -> (SimpleV, Result<Seq<(Seq<char>, Seq<char>)>, XmlErrorV>)
    decreases p.rest.len(),
{
    let s = p.rest;
    if s.len() == 0 {
        (p, Err(XmlErrorV::UnexpectedEof))
    } else if s[0] == '/' {
        if s.len() > 1 && s[1] == '>' {
            (SimpleV { rest: s.skip(2), empty: true, ..p }, Ok(attrs))
        } else {
            (p, Err(XmlErrorV::ExpectedElementEnd))
        }
    } else if s[0] == '>' {
        (SimpleV { rest: s.skip(1), ..p }, Ok(attrs))
    } else if !ws_before {
        (p, Err(XmlErrorV::ExpectedWhitespace))
    } else {
        match spec_name(s) {
            Err(e) => (p, Err(e)),
            Ok((name, n)) => {
                let r1 = rest_after(s, n);
                match spec_eq(r1) {
                    Err(e) => (p, Err(e)),
                    Ok((_, e)) => {
                        let r2 = rest_after(r1, e);
                        match spec_simple_att_value(r2) {
                            Err(err) => (p, Err(err)),
                            Ok((value, v)) => {
                                let r3 = rest_after(r2, v);
                                let w = ws(r3);
                                let p2 = SimpleV { rest: rest_after(r3, w), ..p };
                                if has_name(p.names, name) {
                                    (p2, Err(XmlErrorV::NonUniqueAttribute(name)))
                                } else {
                                    spec_simple_attrs(
                                        SimpleV { names: p.names.push(name), ..p2 },
                                        attrs.push((name, value)),
                                        w > 0,
                                    )
                                }
                            },
                        }
                    },
                }
            },
        }
    }
}

/// A start tag after its `<`.
#[verifier::opaque]
pub open spec fn spec_simple_stag(p: SimpleV) -> SimpleStep {
    match spec_name(p.rest) {
        Err(e) => done(p, Err(e)),
        Ok((name, n)) => {
            let r1 = rest_after(p.rest, n);
            let w = ws(r1);
            let p1 = SimpleV {
                rest: rest_after(r1, w),
                stack: p.stack.push(name),
                names: Seq::empty(),
                ..p
            };
            let (p2, res) = spec_simple_attrs(p1, Seq::empty(), w > 0);
            match res {
                Err(e) => done(p2, Err(e)),
                Ok(attrs) => done(p2, Ok(Some(SimpleEventV::Start { tag: name, attrs }))),
            }
        },
    }
}

/// An end tag after its `</`.
#[verifier::opaque]
pub open spec fn spec_simple_etag(p: SimpleV) -> SimpleStep {
    match spec_name(p.rest) {
        Err(e) => done(p, Err(e)),
        Ok((name, n)) => {
            let r1 = rest_after(p.rest, n);
            let r2 = rest_after(r1, ws(r1));
            if !(r2.len() > 0 && r2[0] == '>') {
                done(p, Err(XmlErrorV::ExpectedElementEnd))
            } else {
                let top = p.stack.last();
                let stack = p.stack.drop_last();
                let p2 = SimpleV { rest: r2.skip(1), stack, ..p };
                if top == name {
                    done(
                        SimpleV {
                            state: if stack.len() == 0 {
                                ParserState::Epilogue
                            } else {
                                p.state
                            },
                            ..p2
                        },
                        Ok(Some(SimpleEventV::End(name))),
                    )
                } else {
                    done(p2, Err(XmlErrorV::WrongETagName(top)))
                }
            }
        },
    }
}

/// An XML declaration; an encoding other than UTF-8 fails without moving on.
#[verifier::opaque]
pub open spec fn spec_simple_decl(p: SimpleV) -> SimpleStep {
    match spec_xml_decl(p.rest) {
        Err(e) => done(p, Err(e)),
        Ok(((version, encoding, standalone), n)) => {
            let p2 = SimpleV { version: Some(version), ..p };
            match encoding {
                Some(enc) if !eq_ignore_ascii_case(enc, "UTF-8"@) => done(
                    p2,
                    Err(XmlErrorV::UnsupportedEncoding(enc)),
                ),
                _ => done(
                    SimpleV { rest: rest_after(p.rest, n), ..p2 },
                    Ok(Some(SimpleEventV::Decl { version, encoding, standalone })),
                ),
            }
        },
    }
}

/// A processing instruction.
#[verifier::opaque]
pub open spec fn spec_simple_pi(p: SimpleV) -> SimpleStep {
    match spec_pi(p.rest) {
        Err(e) => done(p, Err(e)),
        Ok(((target, data), n)) => done(
            SimpleV { rest: rest_after(p.rest, n), ..p },
            Ok(Some(SimpleEventV::PI { target, data })),
        ),
    }
}

/// A comment.
#[verifier::opaque]
pub open spec fn spec_simple_comment(p: SimpleV) -> SimpleStep {
    match spec_comment(p.rest) {
        Err(e) => done(p, Err(e)),
        Ok((c, n)) => done(SimpleV { rest: rest_after(p.rest, n), ..p }, Ok(Some(SimpleEventV::Comment(c)))),
    }
}

/// A CDATA section, given as characters.
#[verifier::opaque]
pub open spec fn spec_simple_cdata(p: SimpleV) -> SimpleStep {
    match spec_cdata(p.rest) {
        Err(e) => done(p, Err(e)),
        Ok((c, n)) => done(SimpleV { rest: rest_after(p.rest, n), ..p }, Ok(Some(SimpleEventV::Chars(c)))),
    }
}

/// Character data up to the first character that is not content; `]]>` must not stand
/// in it.
#[verifier::opaque]
pub open spec fn spec_simple_characters(p: SimpleV) -> SimpleStep {
    let s = p.rest;
    let k = span(s, CharClass::ContentChar);
    if k >= s.len() {
        done(p, Err(XmlErrorV::UnexpectedEof))
    } else if !in_char_table(s[k as int]) {
        done(p, Err(XmlErrorV::InvalidCharacter(s[k as int])))
    } else {
        let p2 = SimpleV { rest: s.skip(k as int), ..p };
        if find(s.take(k as int), "]]>"@) is Some {
            done(p2, Err(XmlErrorV::IllegalCDataSectionEnd))
        } else {
            done(p2, Ok(Some(SimpleEventV::Chars(s.take(k as int)))))
        }
    }
}

/// A reference in the content: a character reference gives its character, a predefined
/// entity its text.
#[verifier::opaque]
pub open spec fn spec_simple_reference(p: SimpleV) -> SimpleStep {
    let s = p.rest;
    if s.len() < 2 {
        done(p, Err(XmlErrorV::IllegalReference))
    } else if s[1] == '#' {
        match spec_char_ref(s) {
            Err(e) => done(p, Err(e)),
            Ok((c, n)) => done(SimpleV { rest: rest_after(s, n), ..p }, Ok(Some(SimpleEventV::CharRef(seq![c])))),
        }
    } else {
        match spec_entity_ref(s) {
            Err(e) => done(p, Err(e)),
            Ok((name, n)) => {
                let p2 = SimpleV { rest: rest_after(s, n), ..p };
                match predefined_text(name) {
                    Some(t) => done(p2, Ok(Some(SimpleEventV::Chars(t)))),
                    None => done(p2, Err(XmlErrorV::UnknownEntity(name))),
                }
            },
        }
    }
}

/// An XML declaration starts the input: `<?xml` and, after it, white space or a character
/// that cannot go on a name.
pub open spec fn is_decl_start(s: Seq<char>) -> bool {
    &&& is_prefix("<?xml"@, s)
    &&& s.len() > 5
    &&& (char_is_whitespace(s[5]) || !(('a' <= s[5] <= 'z') || ('A' <= s[5] <= 'Z') || s[5] == ':'
        || s[5] == '_' || s[5] == '-' || s[5] == '.'))
}

/// The errors at a place where only the given kinds of markup may stand.
pub open spec fn expected_before_root(decl: bool) -> XmlErrorV {
    if decl {
        XmlErrorV::Expected(
            seq![
                XmlErrorAtom::XmlDecl,
                XmlErrorAtom::Comment,
                XmlErrorAtom::PI,
                XmlErrorAtom::Element,
                XmlErrorAtom::Whitespace,
            ],
        )
    } else {
        XmlErrorV::Expected(
            seq![XmlErrorAtom::Comment, XmlErrorAtom::PI, XmlErrorAtom::Element, XmlErrorAtom::Whitespace],
        )
    }
}

/// Before the root element: the XML declaration (where `decl`), comments, processing
/// instructions and white space, up to the root's start tag.
pub open spec fn spec_before_root(p: SimpleV, decl: bool) -> SimpleStep
    decreases p.rest.len(),
{
    let s = p.rest;
    if s.len() == 0 {
        done(p, Err(expected_before_root(decl)))
    } else if s[0] == '<' {
        if s.len() < 2 {
            done(p, Err(expected_before_root(decl)))
        } else if s[1] == '?' {
            let p2 = SimpleV { state: ParserState::Prologue, ..p };
            if decl && is_decl_start(s) {
                spec_simple_decl(p2)
            } else {
                spec_simple_pi(p2)
            }
        } else if s[1] == '!' {
            if is_prefix("<!--"@, s) {
                spec_simple_comment(p)
            } else if is_prefix("<!DOCTYPE"@, s) {
                done(p, Err(XmlErrorV::DtdError(XmlDtdError::Unsupported)))
            } else {
                done(p, Err(expected_before_root(decl)))
            }
        } else {
            spec_simple_stag(SimpleV { state: ParserState::Main, rest: s.skip(1), ..p })
        }
    } else if char_is_whitespace(s[0]) {
        spec_before_root(SimpleV { rest: rest_after(s, ws(s)), ..p }, decl)
    } else {
        done(p, Err(XmlErrorV::UnexpectedCharacter(s[0])))
    }
}

/// Inside the root element.
pub open spec fn spec_in_root(p: SimpleV) -> SimpleStep
    decreases p.rest.len(),
{
    let s = p.rest;
    if s.len() == 0 {
        done(p, Err(XmlErrorV::OpenElementAtEof))
    } else if s[0] == '<' {
        if s.len() < 2 {
            done(p, Err(XmlErrorV::ExpectedElementStart))
        } else if s[1] == '/' {
            spec_simple_etag(SimpleV { rest: s.skip(2), ..p })
        } else if s[1] == '!' {
            if is_prefix("<!--"@, s) {
                spec_simple_comment(p)
            } else if is_prefix("<![CDATA["@, s) {
                spec_simple_cdata(p)
            } else if is_prefix("<!DOCTYPE"@, s) {
                done(p, Err(XmlErrorV::DtdError(XmlDtdError::Unsupported)))
            } else {
                done(p, Err(XmlErrorV::ExpectedElementStart))
            }
        } else if s[1] == '?' {
            spec_simple_pi(p)
        } else {
            spec_simple_stag(SimpleV { rest: s.skip(1), ..p })
        }
    } else if s[0] == '&' {
        spec_simple_reference(p)
    } else if s[0] == '\r' {
        let p2 = SimpleV { rest: s.skip(1), ..p };
        if s.len() > 1 && s[1] == '\n' {
            spec_in_root(p2)
        } else {
            done(p2, Ok(Some(SimpleEventV::Chars(seq!['\n']))))
        }
    } else {
        spec_simple_characters(p)
    }
}

/// After the root element: comments, processing instructions and white space; nothing at
/// the end.
pub open spec fn spec_after_root(p: SimpleV) -> SimpleStep
    decreases p.rest.len(),
{
    let s = p.rest;
    if s.len() == 0 {
        done(p, Ok(None))
    } else if s[0] == '<' {
        if s.len() > 1 && s[1] == '?' {
            spec_simple_pi(p)
        } else if s.len() > 1 && is_prefix("<!--"@, s) {
            spec_simple_comment(p)
        } else {
            done(p, Err(XmlErrorV::Expected(seq![XmlErrorAtom::Comment, XmlErrorAtom::PI])))
        }
    } else if char_is_whitespace(s[0]) {
        spec_after_root(SimpleV { rest: rest_after(s, ws(s)), ..p })
    } else {
        done(p, Err(XmlErrorV::UnexpectedCharacter(s[0])))
    }
}

/// One step of the simple parser: the next event for the visitor, none after the end of
/// the document, or the error.
pub open spec fn spec_simple_next(p: SimpleV) -> SimpleStep {
    match p.state {
        ParserState::XmlDecl => spec_before_root(p, true),
        ParserState::Prologue => spec_before_root(p, false),
        ParserState::Main => if p.empty {
            let stack = p.stack.drop_last();
            done(
                SimpleV {
                    empty: false,
                    stack,
                    state: if stack.len() == 0 {
                        ParserState::Epilogue
                    } else {
                        ParserState::Main
                    },
                    ..p
                },
                Ok(Some(SimpleEventV::End(p.stack.last()))),
            )
        } else {
            spec_in_root(p)
        },
        ParserState::Epilogue => spec_after_root(p),
    }
}

/// Reading attributes changes only the rest, the names read and whether the element is
/// empty.
pub proof fn lemma_attrs_keep(p: SimpleV, attrs: Seq<(Seq<char>, Seq<char>)>, ws_before: bool)
    ensures
        spec_simple_attrs(p, attrs, ws_before).0.stack == p.stack,
        spec_simple_attrs(p, attrs, ws_before).0.state == p.state,
        spec_simple_attrs(p, attrs, ws_before).0.version == p.version,
    decreases p.rest.len(),
{
    reveal(spec_simple_attrs);
    let s = p.rest;
    if s.len() > 0 && s[0] != '/' && s[0] != '>' && ws_before {
        if let Ok((name, n)) = spec_name(s) {
            let r1 = rest_after(s, n);
            if let Ok((_, e)) = spec_eq(r1) {
                let r2 = rest_after(r1, e);
                if let Ok((value, v)) = spec_simple_att_value(r2) {
                    let r3 = rest_after(r2, v);
                    let w = ws(r3);
                    let p2 = SimpleV { rest: rest_after(r3, w), ..p };
                    if !has_name(p.names, name) {
                        lemma_attrs_keep(SimpleV { names: p.names.push(name), ..p2 }, attrs.push((name, value)), w > 0);
                    }
                }
            }
        }
    }
}

/// A start tag opens an element.
proof fn lemma_stag_wf(p: SimpleV)
    requires
        !p.empty,
    ensures
        spec_simple_stag(p).result is Ok ==> spec_simple_stag(p).p.stack.len() > 0
            && spec_simple_stag(p).p.state == p.state,
{
    reveal(spec_simple_stag);
    if let Ok((name, n)) = spec_name(p.rest) {
        let r1 = rest_after(p.rest, n);
        let w = ws(r1);
        let p1 = SimpleV { rest: rest_after(r1, w), stack: p.stack.push(name), names: Seq::empty(), ..p };
        lemma_attrs_keep(p1, Seq::empty(), w > 0);
    }
}

/// The steps that read single pieces of markup keep where the parser stands and the
/// element stack.
proof fn lemma_pieces_keep(p: SimpleV)
    ensures
        spec_simple_decl(p).p.state == p.state && spec_simple_decl(p).p.stack == p.stack
            && spec_simple_decl(p).p.empty == p.empty,
        spec_simple_pi(p).p.state == p.state && spec_simple_pi(p).p.stack == p.stack
            && spec_simple_pi(p).p.empty == p.empty,
        spec_simple_comment(p).p.state == p.state && spec_simple_comment(p).p.stack == p.stack
            && spec_simple_comment(p).p.empty == p.empty,
        spec_simple_cdata(p).p.state == p.state && spec_simple_cdata(p).p.stack == p.stack
            && spec_simple_cdata(p).p.empty == p.empty,
        spec_simple_characters(p).p.state == p.state && spec_simple_characters(p).p.stack == p.stack
            && spec_simple_characters(p).p.empty == p.empty,
        spec_simple_reference(p).p.state == p.state && spec_simple_reference(p).p.stack == p.stack
            && spec_simple_reference(p).p.empty == p.empty,
{
    reveal(spec_simple_decl);
    reveal(spec_simple_pi);
    reveal(spec_simple_comment);
    reveal(spec_simple_cdata);
    reveal(spec_simple_characters);
    reveal(spec_simple_reference);
}

proof fn lemma_before_root_wf(p: SimpleV, decl: bool)
    requires
        p.state != ParserState::Main,
        p.state != ParserState::Epilogue,
        !p.empty,
    ensures
        spec_before_root(p, decl).result is Ok ==> simple_wf(spec_before_root(p, decl).p),
    decreases p.rest.len(),
{
    let s = p.rest;
    if s.len() > 0 {
        if s[0] == '<' && s.len() >= 2 {
            let p2 = SimpleV { state: ParserState::Prologue, ..p };
            lemma_pieces_keep(p2);
            lemma_pieces_keep(p);
            if s[1] != '?' && s[1] != '!' {
                lemma_stag_wf(SimpleV { state: ParserState::Main, rest: s.skip(1), ..p });
            }
        } else if s[0] != '<' && char_is_whitespace(s[0]) {
            lemma_before_root_wf(SimpleV { rest: rest_after(s, ws(s)), ..p }, decl);
        }
    }
}

proof fn lemma_etag_wf(p: SimpleV)
    requires
        simple_wf(p),
        p.state == ParserState::Main,
        !p.empty,
    ensures
        simple_wf(spec_simple_etag(p).p) || spec_simple_etag(p).result is Err,
{
    reveal(spec_simple_etag);
}

proof fn lemma_in_root_wf(p: SimpleV)
    requires
        simple_wf(p),
        p.state == ParserState::Main,
        !p.empty,
    ensures
        simple_wf(spec_in_root(p).p) || spec_in_root(p).result is Err,
    decreases p.rest.len(),
{
    let s = p.rest;
    lemma_pieces_keep(p);
    if s.len() > 0 {
        if s[0] == '<' && s.len() >= 2 {
            if s[1] == '/' {
                lemma_etag_wf(SimpleV { rest: s.skip(2), ..p });
            } else if s[1] != '!' && s[1] != '?' {
                lemma_stag_wf(SimpleV { rest: s.skip(1), ..p });
            }
        } else if s[0] == '\r' && s.len() > 1 && s[1] == '\n' {
            lemma_in_root_wf(SimpleV { rest: s.skip(1), ..p });
        }
    }
}

proof fn lemma_after_root_wf(p: SimpleV)
    requires
        p.state == ParserState::Epilogue,
        !p.empty,
    ensures
        spec_after_root(p).result is Ok ==> simple_wf(spec_after_root(p).p),
    decreases p.rest.len(),
{
    let s = p.rest;
    lemma_pieces_keep(p);
    if s.len() > 0 && s[0] != '<' && char_is_whitespace(s[0]) {
        lemma_after_root_wf(SimpleV { rest: rest_after(s, ws(s)), ..p });
    }
}

/// A step that succeeds keeps the parser's parts fitting together.
pub proof fn lemma_ok_keeps_wf(p: SimpleV)
    requires
        simple_wf(p),
    ensures
        spec_simple_next(p).result is Ok ==> simple_wf(spec_simple_next(p).p),
{
    match p.state {
        ParserState::XmlDecl => {
            if !p.empty {
                lemma_before_root_wf(p, true);
            }
        },
        ParserState::Prologue => {
            if !p.empty {
                lemma_before_root_wf(p, false);
            }
        },
        ParserState::Main => {
            if !p.empty {
                lemma_in_root_wf(p);
            }
        },
        ParserState::Epilogue => {
            if !p.empty {
                lemma_after_root_wf(p);
            }
        },
    }
}


/// How a step changes the stack of open elements: a start tag pushes its name, an end
/// tag pops the name it closes, every other event keeps the stack.
pub open spec fn stack_step(before: Seq<Seq<char>>, step: SimpleStep) -> bool {
    match step.result {
        Ok(Some(SimpleEventV::Start { tag, .. })) => step.p.stack == before.push(tag),
        Ok(Some(SimpleEventV::End(t))) => before.len() > 0 && t == before.last() && step.p.stack
            == before.drop_last(),
        Ok(_) => step.p.stack == before,
        Err(_) => true,
    }
}

proof fn lemma_stag_stack(p: SimpleV)
    ensures
        stack_step(p.stack, spec_simple_stag(p)),
{
    reveal(spec_simple_stag);
    if let Ok((name, n)) = spec_name(p.rest) {
        let r1 = rest_after(p.rest, n);
        let w = ws(r1);
        let p1 = SimpleV { rest: rest_after(r1, w), stack: p.stack.push(name), names: Seq::empty(), ..p };
        lemma_attrs_keep(p1, Seq::empty(), w > 0);
    }
}

proof fn lemma_pieces_stack(p: SimpleV)
    ensures
        stack_step(p.stack, spec_simple_decl(p)),
        stack_step(p.stack, spec_simple_pi(p)),
        stack_step(p.stack, spec_simple_comment(p)),
        stack_step(p.stack, spec_simple_cdata(p)),
        stack_step(p.stack, spec_simple_characters(p)),
        stack_step(p.stack, spec_simple_reference(p)),
{
    reveal(spec_simple_decl);
    reveal(spec_simple_pi);
    reveal(spec_simple_comment);
    reveal(spec_simple_cdata);
    reveal(spec_simple_characters);
    reveal(spec_simple_reference);
}

proof fn lemma_before_root_stack(p: SimpleV, decl: bool)
    ensures
        stack_step(p.stack, spec_before_root(p, decl)),
    decreases p.rest.len(),
{
    let s = p.rest;
    if s.len() > 0 {
        if s[0] == '<' && s.len() >= 2 {
            lemma_pieces_stack(SimpleV { state: ParserState::Prologue, ..p });
            lemma_pieces_stack(p);
            if s[1] != '?' && s[1] != '!' {
                lemma_stag_stack(SimpleV { state: ParserState::Main, rest: s.skip(1), ..p });
            }
        } else if s[0] != '<' && char_is_whitespace(s[0]) {
            lemma_before_root_stack(SimpleV { rest: rest_after(s, ws(s)), ..p }, decl);
        }
    }
}

proof fn lemma_in_root_stack(p: SimpleV)
    requires
        p.stack.len() > 0,
    ensures
        stack_step(p.stack, spec_in_root(p)),
    decreases p.rest.len(),
{
    let s = p.rest;
    lemma_pieces_stack(p);
    if s.len() > 0 {
        if s[0] == '<' && s.len() >= 2 {
            if s[1] == '/' {
                reveal(spec_simple_etag);
            } else if s[1] != '!' && s[1] != '?' {
                lemma_stag_stack(SimpleV { rest: s.skip(1), ..p });
            }
        } else if s[0] == '\r' && s.len() > 1 && s[1] == '\n' {
            lemma_in_root_stack(SimpleV { rest: s.skip(1), ..p });
        }
    }
}

proof fn lemma_after_root_stack(p: SimpleV)
    ensures
        stack_step(p.stack, spec_after_root(p)),
    decreases p.rest.len(),
{
    let s = p.rest;
    lemma_pieces_stack(p);
    if s.len() > 0 && s[0] != '<' && char_is_whitespace(s[0]) {
        lemma_after_root_stack(SimpleV { rest: rest_after(s, ws(s)), ..p });
    }
}

/// Every step keeps the stack discipline: a start tag pushes its name, an end tag pops
/// the innermost open element, whose name it carries, and other events leave the stack.
pub proof fn lemma_stack_discipline(p: SimpleV)
    requires
        simple_wf(p),
    ensures
        stack_step(p.stack, spec_simple_next(p)),
{
    match p.state {
        ParserState::XmlDecl => lemma_before_root_stack(p, true),
        ParserState::Prologue => lemma_before_root_stack(p, false),
        ParserState::Main => {
            if !p.empty {
                lemma_in_root_stack(p);
            }
        },
        ParserState::Epilogue => lemma_after_root_stack(p),
    }
}


/// A step that reads a piece of markup gives an event or fails.
proof fn lemma_pieces_give_event(p: SimpleV)
    ensures
        spec_simple_decl(p).result != Ok::<Option<SimpleEventV>, XmlErrorV>(None),
        spec_simple_pi(p).result != Ok::<Option<SimpleEventV>, XmlErrorV>(None),
        spec_simple_comment(p).result != Ok::<Option<SimpleEventV>, XmlErrorV>(None),
        spec_simple_cdata(p).result != Ok::<Option<SimpleEventV>, XmlErrorV>(None),
        spec_simple_characters(p).result != Ok::<Option<SimpleEventV>, XmlErrorV>(None),
        spec_simple_reference(p).result != Ok::<Option<SimpleEventV>, XmlErrorV>(None),
        spec_simple_stag(p).result != Ok::<Option<SimpleEventV>, XmlErrorV>(None),
        spec_simple_etag(p).result != Ok::<Option<SimpleEventV>, XmlErrorV>(None),
{
    reveal(spec_simple_decl);
    reveal(spec_simple_pi);
    reveal(spec_simple_comment);
    reveal(spec_simple_cdata);
    reveal(spec_simple_characters);
    reveal(spec_simple_reference);
    reveal(spec_simple_stag);
    reveal(spec_simple_etag);
}

proof fn lemma_before_root_gives_event(p: SimpleV, decl: bool)
    ensures
        spec_before_root(p, decl).result != Ok::<Option<SimpleEventV>, XmlErrorV>(None),
    decreases p.rest.len(),
{
    let s = p.rest;
    lemma_pieces_give_event(p);
    lemma_pieces_give_event(SimpleV { state: ParserState::Prologue, ..p });
    if s.len() > 1 && s[0] == '<' {
        lemma_pieces_give_event(SimpleV { state: ParserState::Main, rest: s.skip(1), ..p });
    } else if s.len() > 0 && s[0] != '<' && char_is_whitespace(s[0]) {
        lemma_before_root_gives_event(SimpleV { rest: rest_after(s, ws(s)), ..p }, decl);
    }
}

proof fn lemma_in_root_gives_event(p: SimpleV)
    ensures
        spec_in_root(p).result != Ok::<Option<SimpleEventV>, XmlErrorV>(None),
    decreases p.rest.len(),
{
    let s = p.rest;
    lemma_pieces_give_event(p);
    if s.len() > 1 && s[0] == '<' {
        lemma_pieces_give_event(SimpleV { rest: s.skip(2), ..p });
        lemma_pieces_give_event(SimpleV { rest: s.skip(1), ..p });
    } else if s.len() > 1 && s[0] == '\r' && s[1] == '\n' {
        lemma_in_root_gives_event(SimpleV { rest: s.skip(1), ..p });
    }
}

/// After the root element the input ends only with nothing left to read.
proof fn lemma_after_root_end(p: SimpleV)
    ensures
        spec_after_root(p).result == Ok::<Option<SimpleEventV>, XmlErrorV>(None) ==> spec_after_root(p).p
            == (SimpleV { rest: spec_after_root(p).p.rest, ..p }) && spec_after_root(p).p.rest.len() == 0,
    decreases p.rest.len(),
{
    let s = p.rest;
    lemma_pieces_give_event(p);
    if s.len() > 0 && s[0] != '<' && char_is_whitespace(s[0]) {
        lemma_span_props(s, CharClass::Whitespace);
        lemma_after_root_end(SimpleV { rest: rest_after(s, ws(s)), ..p });
    }
}

/// The end of a document is where the parser stays: once a step finds the end, the next
/// step finds it again and leaves the parser as it is.
pub proof fn lemma_end_is_stable(p: SimpleV)
    requires
        simple_wf(p),
        spec_simple_next(p).result == Ok::<Option<SimpleEventV>, XmlErrorV>(None),
    ensures
        spec_simple_next(spec_simple_next(p).p) == spec_simple_next(p),
{
    match p.state {
        ParserState::XmlDecl => lemma_before_root_gives_event(p, true),
        ParserState::Prologue => lemma_before_root_gives_event(p, false),
        ParserState::Main => {
            if !p.empty {
                lemma_in_root_gives_event(p);
            }
        },
        ParserState::Epilogue => {
            lemma_after_root_end(p);
            let q = spec_simple_next(p).p;
            assert(q.state == ParserState::Epilogue);
            assert(spec_after_root(q) == done(q, Ok(None)));
        },
    }
}

} // verus!

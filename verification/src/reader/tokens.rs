//! Tokens of the XML grammar, each with the result it gives on every input.
use vstd::prelude::*;
use vstd::std_specs::iter::IteratorSpec;

use crate::chars::{in_char_table, in_continue_char_table, in_start_char_table, XmlChar};
use crate::events::{opt_str_view, opt_string_view, XmlDecl, XmlError, XmlErrorV};
use crate::parser::cursor::Cursor;
use crate::parser::Parser;
use crate::text::{
    blen, class_has, find, find_str, is_prefix, lemma_blen_split, lemma_blen_step, lemma_find_bounds,
    lemma_span_props, scan_while, span, utf8_width, CharClass,
};

verus! {

broadcast use vstd::string::group_string_axioms;

/// The result of a parser agrees with the result of its specification.
pub open spec fn agrees<A: View>(
    res: Result<(A, nat), XmlError>,
    sp: Result<(A::V, nat), XmlErrorV>,
) -> bool {
    match (res, sp) {
        (Ok((a, n)), Ok((v, m))) => a@ == v && n == m,
        (Err(e), Err(f)) => e@ == f,
        _ => false,
    }
}

/// Reading from `from` gave `v` and stopped at `to`, as `sp` says it does.
pub open spec fn read_ok<'a, V>(
    from: Cursor<'a>,
    to: Cursor<'a>,
    v: V,
    sp: Result<(V, nat), XmlErrorV>,
) -> bool {
    from.followed_by(to) && sp == Ok::<(V, nat), XmlErrorV>((v, (from@.len() - to@.len()) as nat))
}

/// Reading failed with `e`, as `sp` says it does.
pub open spec fn read_err<V>(e: XmlError, sp: Result<(V, nat), XmlErrorV>) -> bool {
    sp == Err::<(V, nat), XmlErrorV>(e@)
}

/// Reads the literal `lit`.
pub open spec fn spec_lit(lit: Seq<char>, s: Seq<char>) -> Result<((), nat), XmlErrorV> {
    if is_prefix(lit, s) {
        Ok(((), lit.len()))
    } else {
        Err(XmlErrorV::ExpectToken(lit))
    }
}

/// Moves past `token` at the start of the cursor, or fails with `ExpectToken`.
pub fn expect_token<'a>(cursor: Cursor<'a>, token: &'static str) -> (r: Result<
    ((), Cursor<'a>),
    XmlError,
>)
    ensures
        match r {
            Ok((_, c)) => is_prefix(token@, cursor@) && cursor.skipped(token@.len() as int, c),
            Err(e) => !is_prefix(token@, cursor@) && e@ == XmlErrorV::ExpectToken(token@),
        },
{
    if !cursor.has_next_str(token) {
        Err(XmlError::ExpectToken(token))
    } else {
        let _ = cursor.rest();
        proof {
            crate::text::lemma_blen_mono(cursor@, token@.len() as int, cursor@.len() as int);
        }
        Ok(((), cursor.skip_chars(Ghost(token@.len() as int), token.len())))
    }
}

/// The literal `lit`, failing with `ExpectToken(lit)`.
pub struct XmlLit(pub &'static str);

/// Reads the literal `literal`, failing with `ExpectToken(literal)`.
pub fn xml_lit(literal: &'static str) -> (r: XmlLit)
    ensures
        r.0 == literal,
{
    XmlLit(literal)
}

impl<'a> Parser<'a> for XmlLit {
    type Attribute = ();

    type Error = XmlError;

    open spec fn ready(&self) -> bool {
        true
    }

    open spec fn parses(&self, input: Seq<char>, res: Result<((), nat), XmlError>) -> bool {
        agrees(res, spec_lit(self.0@, input))
    }

    fn parse(&self, cursor: Cursor<'a>) -> (res: Result<((), Cursor<'a>), XmlError>) {
        expect_token(cursor, self.0)
    }
}

/// `S ::= (#x20 | #x9 | #xD | #xA)+`
pub open spec fn spec_s(s: Seq<char>) -> Result<((), nat), XmlErrorV> {
    if span(s, CharClass::Whitespace) > 0 {
        Ok(((), span(s, CharClass::Whitespace)))
    } else {
        Err(XmlErrorV::ExpectedWhitespace)
    }
}

/// `S?`: the number of leading whitespace characters.
pub open spec fn ws(s: Seq<char>) -> nat {
    span(s, CharClass::Whitespace)
}


/// Moves past the leading whitespace.
pub fn skip_whitespace<'a>(cursor: Cursor<'a>) -> (r: Cursor<'a>)
    ensures
        cursor.skipped(ws(cursor@) as int, r),
{
    let (k, n) = scan_while(cursor.rest(), CharClass::Whitespace);
    proof {
        lemma_span_props(cursor@, CharClass::Whitespace);
    }
    cursor.skip_chars(Ghost(k as int), n)
}

/// White Space
///
///     S ::= (#x20 | #x9 | #xD | #xA)+
///
pub struct SToken;

impl<'a> Parser<'a> for SToken {
    type Attribute = ();

    type Error = XmlError;

    open spec fn ready(&self) -> bool {
        true
    }

    open spec fn parses(&self, input: Seq<char>, res: Result<((), nat), XmlError>) -> bool {
        agrees(res, spec_s(input))
    }

    fn parse(&self, cursor: Cursor<'a>) -> (res: Result<((), Cursor<'a>), XmlError>) {
        let (k, n) = scan_while(cursor.rest(), CharClass::Whitespace);
        proof {
            lemma_span_props(cursor@, CharClass::Whitespace);
        }
        if k > 0 {
            Ok(((), cursor.skip_chars(Ghost(k as int), n)))
        } else {
            Err(XmlError::ExpectedWhitespace)
        }
    }
}

/// The length of a name that starts `s`: a `NameStartChar` and the `NameChar`s after it.
pub open spec fn name_len(s: Seq<char>) -> nat
    recommends
        s.len() > 0,
{
    1 + span(s.drop_first(), CharClass::NameChar)
}

/// `Name ::= NameStartChar (NameChar)*`, which must be followed by another character.
pub open spec fn spec_name(s: Seq<char>) -> Result<(Seq<char>, nat), XmlErrorV> {
    if s.len() == 0 {
        Err(XmlErrorV::UnexpectedEof)
    } else if !in_start_char_table(s[0]) {
        Err(XmlErrorV::IllegalNameStartChar(s[0]))
    } else if name_len(s) >= s.len() {
        Err(XmlErrorV::UnexpectedEof)
    } else {
        Ok((s.take(name_len(s) as int), name_len(s)))
    }
}

/// Splits off the leading `k` characters, the first being `c` of `w` bytes and the
/// rest `k - 1` characters of `n` bytes.
proof fn lemma_blen_first(s: Seq<char>, k: int, w: nat, n: nat)
    requires
        1 <= k <= s.len(),
        w == vstd::utf8::encode_scalar(s[0] as u32).len(),
        n == blen(s.drop_first().take(k - 1)),
    ensures
        blen(s.take(k)) == w + n,
{
    assert(s.take(k) =~= seq![s[0]] + s.drop_first().take(k - 1));
    crate::text::lemma_encode_utf8_concat(seq![s[0]], s.drop_first().take(k - 1));
    crate::text::lemma_encode_single(s[0]);
}

pub(crate) proof fn lemma_blen_lt(s: Seq<char>, k: int)
    requires
        0 <= k < s.len(),
    ensures
        blen(s.take(k)) < blen(s),
{
    lemma_blen_step(s, k);
    crate::text::lemma_blen_mono(s, k + 1, s.len() as int);
    vstd::utf8::char_is_scalar(s[k]);
}

pub struct NameToken;

impl<'a> Parser<'a> for NameToken {
    type Attribute = &'a str;

    type Error = XmlError;

    open spec fn ready(&self) -> bool {
        true
    }

    open spec fn parses(&self, input: Seq<char>, res: Result<(&'a str, nat), XmlError>) -> bool {
        agrees(res, spec_name(input))
    }

    fn parse(&self, cursor: Cursor<'a>) -> (res: Result<(&'a str, Cursor<'a>), XmlError>) {
        let c = match cursor.next_char() {
            None => {
                return Err(XmlError::UnexpectedEof);
            },
            Some(c) => c,
        };
        if !c.is_xml_name_start_char() {
            return Err(XmlError::IllegalNameStartChar(c));
        }
        let w = utf8_width(c);
        let _ = cursor.rest();
        proof {
            lemma_blen_step(cursor@, 0);
            crate::parser::cursor::lemma_stay(cursor);
        }
        let after = cursor.skip_chars(Ghost(1), w);
        proof {
            assert(cursor@.skip(1) =~= cursor@.drop_first());
        }
        let (k, n) = scan_while(after.rest(), CharClass::NameChar);
        let total = crate::text::byte_len(after.rest());
        proof {
            lemma_span_props(after@, CharClass::NameChar);
            if k < after@.len() {
                lemma_blen_lt(after@, k as int);
            } else {
                assert(after@.take(k as int) =~= after@);
            }
        }
        if n == total {
            return Err(XmlError::UnexpectedEof);
        }
        proof {
            lemma_blen_first(cursor@, k + 1, w as nat, n as nat);
            crate::text::lemma_blen_ge_len(cursor@);
            crate::text::lemma_blen_mono(cursor@, k + 1, cursor@.len() as int);
        }
        let (name, rest) = cursor.split_chars(Ghost(k + 1), w + n);
        Ok((name, rest))
    }
}

/// `AttValue`: a quoted value without its quotes, taken as it stands.
pub open spec fn spec_att_value(s: Seq<char>) -> Result<(Seq<char>, nat), XmlErrorV> {
    if s.len() > 0 && (s[0] == '"' || s[0] == '\'') {
        let t = s.drop_first();
        let k = span(t, CharClass::Except(s[0]));
        if k < t.len() {
            Ok((t.take(k as int), k + 2))
        } else {
            Err(XmlErrorV::ExpectedAttrValue)
        }
    } else {
        Err(XmlErrorV::ExpectedAttrValue)
    }
}

/// Reads the text up to (not including) the first `quote`, which must follow.
pub(crate) fn quoted_rest<'a>(cursor: Cursor<'a>, quote: char) -> (r: Option<(&'a str, Cursor<'a>)>)
    ensures
        ({
            let k = span(cursor@, CharClass::Except(quote));
            match r {
                Some((v, c)) => k < cursor@.len() && v@ == cursor@.take(k as int)
                    && cursor.skipped(k + 1 as int, c),
                None => k >= cursor@.len(),
            }
        }),
{
    let (k, n) = scan_while(cursor.rest(), CharClass::Except(quote));
    let total = crate::text::byte_len(cursor.rest());
    proof {
        lemma_span_props(cursor@, CharClass::Except(quote));
        if k < cursor@.len() {
            lemma_blen_lt(cursor@, k as int);
        } else {
            assert(cursor@.take(k as int) =~= cursor@);
        }
    }
    if n == total {
        return None;
    }
    let (v, at_quote) = cursor.split_chars(Ghost(k as int), n);
    proof {
        lemma_blen_step(cursor@, k as int);
        crate::text::lemma_blen_ge_len(cursor@);
        crate::text::lemma_blen_mono(cursor@, k + 1, cursor@.len() as int);
        lemma_blen_step(at_quote@, 0);
        crate::parser::cursor::lemma_stay(at_quote);
        assert(at_quote@[0] == cursor@[k as int]);
    }
    let after = at_quote.skip_chars(Ghost(1), utf8_width(quote));
    proof {
        assert(cursor@.skip(k + 1) =~= at_quote@.skip(1));
    }
    Some((v, after))
}

pub struct AttValueToken;

impl<'a> Parser<'a> for AttValueToken {
    type Attribute = &'a str;

    type Error = XmlError;

    open spec fn ready(&self) -> bool {
        true
    }

    open spec fn parses(&self, input: Seq<char>, res: Result<(&'a str, nat), XmlError>) -> bool {
        agrees(res, spec_att_value(input))
    }

    fn parse(&self, cursor: Cursor<'a>) -> (res: Result<(&'a str, Cursor<'a>), XmlError>) {
        if let Some(c) = cursor.next_char() {
            if c == '"' || c == '\'' {
                proof {
                    lemma_blen_step(cursor@, 0);
                    crate::parser::cursor::lemma_stay(cursor);
                }
                let start = cursor.skip_chars(Ghost(1), 1);
                proof {
                    assert(cursor@.skip(1) =~= cursor@.drop_first());
                }
                if let Some((v, after)) = quoted_rest(start, c) {
                    proof {
                        crate::parser::cursor::lemma_skipped_trans(cursor, start, after, 1, span(start@, CharClass::Except(c)) + 1 as int);
                    }
                    return Ok((v, after));
                }
                return Err(XmlError::ExpectedAttrValue);
            }
        }
        Err(XmlError::ExpectedAttrValue)
    }
}


/// `=` with no whitespace around it.
pub open spec fn spec_eq_literal(s: Seq<char>) -> Result<((), nat), XmlErrorV> {
    if s.len() > 0 && s[0] == '=' {
        Ok(((), 1))
    } else {
        Err(XmlErrorV::ExpectedEquals)
    }
}

pub struct EqLiteralToken;

impl<'a> Parser<'a> for EqLiteralToken {
    type Attribute = ();

    type Error = XmlError;

    open spec fn ready(&self) -> bool {
        true
    }

    open spec fn parses(&self, input: Seq<char>, res: Result<((), nat), XmlError>) -> bool {
        agrees(res, spec_eq_literal(input))
    }

    fn parse(&self, cursor: Cursor<'a>) -> (res: Result<((), Cursor<'a>), XmlError>) {
        if cursor.has_next_char('=') {
            Ok(((), cursor.skip_char('=')))
        } else {
            Err(XmlError::ExpectedEquals)
        }
    }
}

/// The characters before the first `pat`, all of which must be XML characters.
pub open spec fn spec_terminated(pat: Seq<char>, s: Seq<char>) -> Result<(Seq<char>, nat), XmlErrorV> {
    match find(s, pat) {
        None => Err(XmlErrorV::UnexpectedEof),
        Some(i) => {
            let v = s.take(i);
            let j = span(v, CharClass::XmlChar);
            if j < v.len() {
                Err(XmlErrorV::IllegalChar(v[j as int]))
            } else {
                Ok((v, i as nat))
            }
        },
    }
}

/// The first character of `s` that is not in the class, if any.
pub(crate) fn first_outside<'b>(s: &'b str, cls: CharClass) -> (r: Option<char>)
    ensures
        span(s@, cls) < s@.len() ==> r == Some(s@[span(s@, cls) as int]),
        span(s@, cls) >= s@.len() ==> r is None,
{
    let (j, nj) = scan_while(s, cls);
    proof {
        lemma_span_props(s@, cls);
    }
    let (_, tail) = crate::text::split_chars(s, Ghost(j as int), nj);
    crate::text::first_char(tail)
}

/// The text up to the first occurrence of a literal, which must be XML characters.
pub struct TerminatedChars(pub &'static str);

impl<'a> Parser<'a> for TerminatedChars {
    type Attribute = &'a str;

    type Error = XmlError;

    open spec fn ready(&self) -> bool {
        true
    }

    open spec fn parses(&self, input: Seq<char>, res: Result<(&'a str, nat), XmlError>) -> bool {
        agrees(res, spec_terminated(self.0@, input))
    }

    fn parse(&self, cursor: Cursor<'a>) -> (res: Result<(&'a str, Cursor<'a>), XmlError>) {
        if let Some((k, n)) = find_str(cursor.rest(), self.0) {
            proof {
                lemma_find_bounds(cursor@, self.0@);
            }
            let (v, rest) = cursor.split_chars(Ghost(k as int), n);
            if let Some(c) = first_outside(v, CharClass::XmlChar) {
                return Err(XmlError::IllegalChar(c));
            }
            Ok((v, rest))
        } else {
            Err(XmlError::UnexpectedEof)
        }
    }
}

/// `Comment ::= '<!--' ((Char - '-') | ('-' (Char - '-')))* '-->'`
pub open spec fn spec_comment(s: Seq<char>) -> Result<(Seq<char>, nat), XmlErrorV> {
    if !is_prefix("<!--"@, s) {
        Err(XmlErrorV::ExpectToken("<!--"@))
    } else {
        let r1 = s.skip("<!--"@.len() as int);
        match spec_terminated("--"@, r1) {
            Err(e) => Err(e),
            Ok((c, n)) => {
                if is_prefix("-->"@, r1.skip(n as int)) {
                    Ok((c, "<!--"@.len() + n + "-->"@.len()))
                } else {
                    Err(XmlErrorV::CommentColonColon)
                }
            },
        }
    }
}

pub struct CommentToken;

impl<'a> Parser<'a> for CommentToken {
    type Attribute = &'a str;

    type Error = XmlError;

    open spec fn ready(&self) -> bool {
        true
    }

    open spec fn parses(&self, input: Seq<char>, res: Result<(&'a str, nat), XmlError>) -> bool {
        agrees(res, spec_comment(input))
    }

    fn parse(&self, cursor: Cursor<'a>) -> (res: Result<(&'a str, Cursor<'a>), XmlError>) {
        let (_, c1) = expect_token(cursor, "<!--")?;
        let (comment, c2) = TerminatedChars("--").parse(c1)?;
        let c3 = match expect_token(c2, "-->") {
            Ok((_, c3)) => c3,
            Err(_) => {
                return Err(XmlError::CommentColonColon);
            },
        };
        proof {
            let n = (c1@.len() - c2@.len()) as int;
            crate::parser::cursor::lemma_skipped_trans(cursor, c1, c2, "<!--"@.len() as int, n);
            crate::parser::cursor::lemma_skipped_trans(cursor, c2, c3, "<!--"@.len() + n, "-->"@.len() as int);
        }
        Ok((comment, c3))
    }
}

/// `CDSect ::= '<![CDATA[' (Char* - (Char* ']]>' Char*)) ']]>'`
pub open spec fn spec_cdata(s: Seq<char>) -> Result<(Seq<char>, nat), XmlErrorV> {
    if !is_prefix("<![CDATA["@, s) {
        Err(XmlErrorV::ExpectToken("<![CDATA["@))
    } else {
        let r1 = s.skip("<![CDATA["@.len() as int);
        match spec_terminated("]]>"@, r1) {
            Err(e) => Err(e),
            Ok((c, n)) => {
                if is_prefix("]]>"@, r1.skip(n as int)) {
                    Ok((c, "<![CDATA["@.len() + n + "]]>"@.len()))
                } else {
                    Err(XmlErrorV::ExpectToken("]]>"@))
                }
            },
        }
    }
}

pub struct CDataToken;

impl<'a> Parser<'a> for CDataToken {
    type Attribute = &'a str;

    type Error = XmlError;

    open spec fn ready(&self) -> bool {
        true
    }

    open spec fn parses(&self, input: Seq<char>, res: Result<(&'a str, nat), XmlError>) -> bool {
        agrees(res, spec_cdata(input))
    }

    fn parse(&self, cursor: Cursor<'a>) -> (res: Result<(&'a str, Cursor<'a>), XmlError>) {
        let (_, c1) = expect_token(cursor, "<![CDATA[")?;
        let (chars, c2) = TerminatedChars("]]>").parse(c1)?;
        let (_, c3) = expect_token(c2, "]]>")?;
        proof {
            let n = (c1@.len() - c2@.len()) as int;
            crate::parser::cursor::lemma_skipped_trans(cursor, c1, c2, "<![CDATA["@.len() as int, n);
            crate::parser::cursor::lemma_skipped_trans(cursor, c2, c3, "<![CDATA["@.len() + n, "]]>"@.len() as int);
        }
        Ok((chars, c3))
    }
}


/// `t` is `xml` in any case of its letters.
pub open spec fn is_xml_name_ci(t: Seq<char>) -> bool {
    &&& t.len() == 3
    &&& (t[0] == 'x' || t[0] == 'X')
    &&& (t[1] == 'm' || t[1] == 'M')
    &&& (t[2] == 'l' || t[2] == 'L')
}

fn eq_ignore_case_xml(t: &str) -> (r: bool)
    ensures
        r == is_xml_name_ci(t@),
{
    let mut it = t.chars();
    let a = it.next();
    let b = it.next();
    let c = it.next();
    let d = it.next();
    match (a, b, c, d) {
        (Some(a), Some(b), Some(c), None) => {
            assert(t@.skip(3).len() == 0);
            (a == 'x' || a == 'X') && (b == 'm' || b == 'M') && (c == 'l' || c == 'L')
        },
        _ => {
            proof {
                if t@.len() == 3 {
                    assert(t@.skip(3).len() == 0);
                }
            }
            false
        },
    }
}

/// The optional data of a processing instruction: whitespace and the text up to `?>`.
pub open spec fn spec_pi_data(s: Seq<char>) -> (Option<Seq<char>>, nat) {
    match spec_s(s) {
        Ok((_, w)) => match spec_terminated("?>"@, s.skip(w as int)) {
            Ok((d, n)) => (Some(d), w + n),
            Err(_) => (None, 0),
        },
        Err(_) => (None, 0),
    }
}

/// Processing Instruction
///
/// `PI ::= '<?' PITarget (S (Char* - (Char* '?>' Char*)))? '?>'`
/// `PITarget ::= Name - (('X' | 'x') ('M' | 'm') ('L' | 'l'))`
pub open spec fn spec_pi(s: Seq<char>) -> Result<((Seq<char>, Option<Seq<char>>), nat), XmlErrorV> {
    if !is_prefix("<?"@, s) {
        Err(XmlErrorV::ExpectToken("<?"@))
    } else {
        let r1 = s.skip("<?"@.len() as int);
        match spec_name(r1) {
            Err(e) => Err(e),
            Ok((t, tn)) => {
                if is_xml_name_ci(t) {
                    Err(XmlErrorV::InvalidPITarget)
                } else {
                    let r2 = r1.skip(tn as int);
                    let (data, dn) = spec_pi_data(r2);
                    if is_prefix("?>"@, r2.skip(dn as int)) {
                        Ok(((t, data), "<?"@.len() + tn + dn + "?>"@.len()))
                    } else {
                        Err(XmlErrorV::ExpectToken("?>"@))
                    }
                }
            },
        }
    }
}

pub struct PIToken;

impl<'a> Parser<'a> for PIToken {
    type Attribute = (&'a str, Option<&'a str>);

    type Error = XmlError;

    open spec fn ready(&self) -> bool {
        true
    }

    open spec fn parses(
        &self,
        input: Seq<char>,
        res: Result<((&'a str, Option<&'a str>), nat), XmlError>,
    ) -> bool {
        match (res, spec_pi(input)) {
            (Ok(((t, d), n)), Ok(((tv, dv), m))) => t@ == tv && opt_str_view(d) == dv && n == m,
            (Err(e), Err(f)) => e@ == f,
            _ => false,
        }
    }

    fn parse(&self, cursor: Cursor<'a>) -> (res: Result<((&'a str, Option<&'a str>), Cursor<'a>), XmlError>) {
        let (_, c1) = expect_token(cursor, "<?")?;
        let (target, c2) = NameToken.parse(c1)?;
        if eq_ignore_case_xml(target) {
            return Err(XmlError::InvalidPITarget);
        }
        let (data, c3) = match SToken.parse(c2) {
            Ok((_, w)) => match TerminatedChars("?>").parse(w) {
                Ok((d, c)) => {
                    proof {
                        crate::parser::cursor::lemma_skipped_trans(c2, w, c, (c2@.len() - w@.len()) as int, (w@.len() - c@.len()) as int);
                    }
                    (Some(d), c)
                },
                Err(_) => (None, c2),
            },
            Err(_) => (None, c2),
        };
        proof {
            let tn = (c1@.len() - c2@.len()) as int;
            let dn = (c2@.len() - c3@.len()) as int;
            crate::parser::cursor::lemma_stay(c2);
            crate::parser::cursor::lemma_skipped_trans(cursor, c1, c2, "<?"@.len() as int, tn);
            crate::parser::cursor::lemma_skipped_trans(cursor, c2, c3, "<?"@.len() + tn, dn);
        }
        let (_, c4) = expect_token(c3, "?>")?;
        proof {
            let tn = (c1@.len() - c2@.len()) as int;
            let dn = (c2@.len() - c3@.len()) as int;
            crate::parser::cursor::lemma_skipped_trans(cursor, c3, c4, "<?"@.len() + tn + dn, "?>"@.len() as int);
        }
        Ok(((target, data), c4))
    }
}


/// `a` and `b` hold the same text.
pub fn str_eq(a: &str, b: &str) -> (r: bool)
    ensures
        r == (a@ == b@),
{
    let r = crate::text::has_prefix(a, b) && crate::text::has_prefix(b, a);
    proof {
        if is_prefix(b@, a@) && is_prefix(a@, b@) {
            assert(a@ =~= b@);
        }
        if a@ == b@ {
            assert(a@.take(a@.len() as int) =~= a@);
        }
    }
    r
}

/// Adds `k` to the number of characters read by a successful result.
pub open spec fn add_len<T>(res: Result<(T, nat), XmlErrorV>, k: nat) -> Result<(T, nat), XmlErrorV> {
    match res {
        Ok((v, n)) => Ok((v, n + k)),
        Err(e) => Err(e),
    }
}

/// `Eq ::= S? '=' S?`
pub open spec fn spec_eq(s: Seq<char>) -> Result<((), nat), XmlErrorV> {
    let w = ws(s);
    let r = s.skip(w as int);
    if !is_prefix("="@, r) {
        Err(XmlErrorV::ExpectToken("="@))
    } else {
        Ok(((), w + "="@.len() + ws(r.skip("="@.len() as int))))
    }
}

pub struct EqToken;

impl<'a> Parser<'a> for EqToken {
    type Attribute = ();

    type Error = XmlError;

    open spec fn ready(&self) -> bool {
        true
    }

    open spec fn parses(&self, input: Seq<char>, res: Result<((), nat), XmlError>) -> bool {
        agrees(res, spec_eq(input))
    }

    fn parse(&self, cursor: Cursor<'a>) -> (res: Result<((), Cursor<'a>), XmlError>) {
        let c1 = skip_whitespace(cursor);
        let (_, c2) = expect_token(c1, "=")?;
        let c3 = skip_whitespace(c2);
        proof {
            crate::parser::cursor::lemma_skipped_trans(cursor, c1, c2, ws(cursor@) as int, "="@.len() as int);
            crate::parser::cursor::lemma_skipped_trans(cursor, c2, c3, (ws(cursor@) + "="@.len()) as int, ws(c2@) as int);
        }
        Ok(((), c3))
    }
}

/// `VersionNum ::= '1.' [0-9]+`, read as `1.` and the digits before the next character.
pub open spec fn spec_version_num(s: Seq<char>) -> Result<(Seq<char>, nat), XmlErrorV> {
    if !is_prefix("1."@, s) {
        Err(XmlErrorV::ExpectToken("1.[0-9]+"@))
    } else {
        let r = s.skip("1."@.len() as int);
        let d = span(r, CharClass::AsciiDigit);
        if d >= r.len() {
            Err(XmlErrorV::ExpectToken("1.[0-9]+"@))
        } else {
            Ok((s.take("1."@.len() + d as int), "1."@.len() + d))
        }
    }
}

pub struct VersionNumToken;

impl<'a> Parser<'a> for VersionNumToken {
    type Attribute = &'a str;

    type Error = XmlError;

    open spec fn ready(&self) -> bool {
        true
    }

    open spec fn parses(&self, input: Seq<char>, res: Result<(&'a str, nat), XmlError>) -> bool {
        agrees(res, spec_version_num(input))
    }

    fn parse(&self, cursor: Cursor<'a>) -> (res: Result<(&'a str, Cursor<'a>), XmlError>) {
        let c1 = match expect_token(cursor, "1.") {
            Ok((_, c1)) => c1,
            Err(_) => {
                return Err(XmlError::ExpectToken("1.[0-9]+"));
            },
        };
        let (k, n) = scan_while(c1.rest(), CharClass::AsciiDigit);
        let total = crate::text::byte_len(c1.rest());
        proof {
            lemma_span_props(c1@, CharClass::AsciiDigit);
            if k < c1@.len() {
                lemma_blen_lt(c1@, k as int);
            } else {
                assert(c1@.take(k as int) =~= c1@);
            }
        }
        if n == total {
            return Err(XmlError::ExpectToken("1.[0-9]+"));
        }
        let c2 = c1.skip_chars(Ghost(k as int), n);
        proof {
            crate::parser::cursor::lemma_skipped_trans(cursor, c1, c2, "1."@.len() as int, k as int);
            crate::text::lemma_blen_mono(cursor@, "1."@.len() + k, cursor@.len() as int);
        }
        let (version, _) = cursor.split_chars(Ghost("1."@.len() + k), c2.offset() - cursor.offset());
        Ok((version, c2))
    }
}

/// The quoted value of a pseudo-attribute read by `inner` between the quotes `q`.
pub open spec fn spec_quoted(
    s: Seq<char>,
    inner: Result<(Seq<char>, nat), XmlErrorV>,
    q: Seq<char>,
) -> Result<(Seq<char>, nat), XmlErrorV> {
    match inner {
        Err(e) => Err(e),
        Ok((v, n)) => {
            if is_prefix(q, s.skip(1 + n as int)) {
                Ok((v, 1 + n + q.len()))
            } else {
                Err(XmlErrorV::ExpectToken(q))
            }
        },
    }
}

/// `VersionInfo ::= S 'version' Eq ("'" VersionNum "'" | '"' VersionNum '"')`
#[verifier::opaque]
pub open spec fn spec_version_info(s: Seq<char>) -> Result<(Seq<char>, nat), XmlErrorV> {
    match spec_s(s) {
        Err(e) => Err(e),
        Ok((_, w)) => {
            let r1 = s.skip(w as int);
            if !is_prefix("version"@, r1) {
                Err(XmlErrorV::ExpectToken("version"@))
            } else {
                let r2 = r1.skip("version"@.len() as int);
                match spec_eq(r2) {
                    Err(e) => Err(e),
                    Ok((_, e)) => {
                        let r3 = r2.skip(e as int);
                        let q = if r3.len() > 0 && r3[0] == '\'' {
                            spec_quoted(r3, spec_version_num(r3.skip(1)), "\'"@)
                        } else if r3.len() > 0 && r3[0] == '"' {
                            spec_quoted(r3, spec_version_num(r3.skip(1)), "\""@)
                        } else {
                            Err(XmlErrorV::ExpectToken("' or \""@))
                        };
                        add_len(q, w + "version"@.len() + e)
                    },
                }
            }
        },
    }
}

/// The values that stand between quotes in the XML declaration.
pub enum QuotedValue {
    VersionNum,
    EncName,
}

pub open spec fn spec_quoted_inner(kind: QuotedValue, s: Seq<char>) -> Result<(Seq<char>, nat), XmlErrorV> {
    match kind {
        QuotedValue::VersionNum => spec_version_num(s),
        QuotedValue::EncName => spec_enc_name(s),
    }
}

/// Reads a quoted value of the given kind after the opening quote `qc` and expects the closing `q`.
fn quoted_with<'a>(cursor: Cursor<'a>, kind: QuotedValue, qc: char, q: &'static str) -> (r: Result<
    (&'a str, Cursor<'a>),
    XmlError,
>)
    requires
        cursor@.len() > 0,
        cursor@[0] == qc,
    ensures
        match r {
            Ok((v, c)) => cursor.followed_by(c) && agrees(
                Ok((v, (cursor@.len() - c@.len()) as nat)),
                spec_quoted(cursor@, spec_quoted_inner(kind, cursor@.skip(1)), q@),
            ),
            Err(e) => agrees::<&'a str>(
                Err(e),
                spec_quoted(cursor@, spec_quoted_inner(kind, cursor@.skip(1)), q@),
            ),
        },
{
    let c1 = cursor.skip_char(qc);
    proof {
        assert(cursor@.skip(1) == c1@);
    }
    let inner = match kind {
        QuotedValue::VersionNum => VersionNumToken.parse(c1),
        QuotedValue::EncName => EncNameToken.parse(c1),
    };
    let (v, c2) = match inner {
        Ok(r) => r,
        Err(e) => {
            return Err(e);
        },
    };
    let n = Ghost((c1@.len() - c2@.len()) as int);
    proof {
        assert(cursor@.skip(1 + n@) =~= c2@);
    }
    let (_, c3) = match expect_token(c2, q) {
        Ok(r) => r,
        Err(e) => {
            return Err(e);
        },
    };
    proof {
        crate::parser::cursor::lemma_skipped_trans(cursor, c1, c2, 1, n@);
        crate::parser::cursor::lemma_skipped_trans(cursor, c2, c3, 1 + n@, q@.len() as int);
    }
    Ok((v, c3))
}

/// `EncName ::= [A-Za-z] ([A-Za-z0-9._] | '-')*`
pub open spec fn spec_enc_name(s: Seq<char>) -> Result<(Seq<char>, nat), XmlErrorV> {
    if s.len() > 0 && (('a' <= s[0] <= 'z') || ('A' <= s[0] <= 'Z')) {
        let k = 1 + span(s.drop_first(), CharClass::EncNameChar);
        Ok((s.take(k as int), k as nat))
    } else {
        Err(XmlErrorV::ExpectToken("Encoding name: [a-zA-Z][a-zA-Z0-9._-]+"@))
    }
}

pub struct EncNameToken;

impl<'a> Parser<'a> for EncNameToken {
    type Attribute = &'a str;

    type Error = XmlError;

    open spec fn ready(&self) -> bool {
        true
    }

    open spec fn parses(&self, input: Seq<char>, res: Result<(&'a str, nat), XmlError>) -> bool {
        agrees(res, spec_enc_name(input))
    }

    fn parse(&self, cursor: Cursor<'a>) -> (res: Result<(&'a str, Cursor<'a>), XmlError>) {
        match cursor.next_char() {
            Some(c) => {
                if (c >= 'a' && c <= 'z') || (c >= 'A' && c <= 'Z') {
                    let c1 = cursor.skip_char(c);
                    proof {
                        assert(cursor@.skip(1) =~= cursor@.drop_first());
                    }
                    let (k, n) = scan_while(c1.rest(), CharClass::EncNameChar);
                    proof {
                        lemma_span_props(c1@, CharClass::EncNameChar);
                    }
                    let c2 = c1.skip_chars(Ghost(k as int), n);
                    proof {
                        crate::parser::cursor::lemma_skipped_trans(cursor, c1, c2, 1, k as int);
                    }
                    let (name, _) = cursor.split_chars(Ghost(1 + k as int), c2.offset() - cursor.offset());
                    return Ok((name, c2));
                }
            },
            None => {},
        }
        Err(XmlError::ExpectToken("Encoding name: [a-zA-Z][a-zA-Z0-9._-]+"))
    }
}

pub struct VersionInfoToken;

impl<'a> Parser<'a> for VersionInfoToken {
    type Attribute = &'a str;

    type Error = XmlError;

    open spec fn ready(&self) -> bool {
        true
    }

    open spec fn parses(&self, input: Seq<char>, res: Result<(&'a str, nat), XmlError>) -> bool {
        agrees(res, spec_version_info(input))
    }

    fn parse(&self, cursor: Cursor<'a>) -> (res: Result<(&'a str, Cursor<'a>), XmlError>) {
        proof {
            reveal(spec_version_info);
        }
        let (_, c1) = SToken.parse(cursor)?;
        let (_, c2) = expect_token(c1, "version")?;
        let (_, c3) = EqToken.parse(c2)?;
        let ghost w = (cursor@.len() - c1@.len()) as int;
        let ghost e = (c2@.len() - c3@.len()) as int;
        proof {
            crate::parser::cursor::lemma_skipped_trans(cursor, c1, c2, w, "version"@.len() as int);
            crate::parser::cursor::lemma_skipped_trans(cursor, c2, c3, w + "version"@.len(), e);
        }
        let c = c3.next_char();
        let r = if c == Some('\'') {
            quoted_with(c3, QuotedValue::VersionNum, '\'', "\'")
        } else if c == Some('"') {
            quoted_with(c3, QuotedValue::VersionNum, '"', "\"")
        } else {
            return Err(XmlError::ExpectToken("' or \""));
        };
        let (v, c4) = r?;
        proof {
            crate::parser::cursor::lemma_skipped_trans(cursor, c3, c4, w + "version"@.len() + e, (c3@.len() - c4@.len()) as int);
        }
        Ok((v, c4))
    }
}


/// `EncodingDecl ::= S 'encoding' Eq ('"' EncName '"' | "'" EncName "'" )`
#[verifier::opaque]
pub open spec fn spec_encoding_decl(s: Seq<char>) -> Result<(Seq<char>, nat), XmlErrorV> {
    match spec_s(s) {
        Err(e) => Err(e),
        Ok((_, w)) => {
            let r1 = s.skip(w as int);
            if !is_prefix("encoding"@, r1) {
                Err(XmlErrorV::ExpectToken("encoding"@))
            } else {
                let r2 = r1.skip("encoding"@.len() as int);
                match spec_eq(r2) {
                    Err(e) => Err(e),
                    Ok((_, e)) => {
                        let r3 = r2.skip(e as int);
                        let q = if r3.len() > 0 && r3[0] == '\'' {
                            spec_quoted(r3, spec_enc_name(r3.skip(1)), "\'"@)
                        } else if r3.len() > 0 && r3[0] == '"' {
                            spec_quoted(r3, spec_enc_name(r3.skip(1)), "\""@)
                        } else {
                            Err(XmlErrorV::ExpectToken("' or \""@))
                        };
                        add_len(q, w + "encoding"@.len() + e)
                    },
                }
            }
        },
    }
}

pub struct EncodingDeclToken;

impl<'a> Parser<'a> for EncodingDeclToken {
    type Attribute = &'a str;

    type Error = XmlError;

    open spec fn ready(&self) -> bool {
        true
    }

    open spec fn parses(&self, input: Seq<char>, res: Result<(&'a str, nat), XmlError>) -> bool {
        agrees(res, spec_encoding_decl(input))
    }

    fn parse(&self, cursor: Cursor<'a>) -> (res: Result<(&'a str, Cursor<'a>), XmlError>) {
        proof {
            reveal(spec_encoding_decl);
        }
        let (_, c1) = SToken.parse(cursor)?;
        let (_, c2) = expect_token(c1, "encoding")?;
        let (_, c3) = EqToken.parse(c2)?;
        let ghost w = (cursor@.len() - c1@.len()) as int;
        let ghost e = (c2@.len() - c3@.len()) as int;
        proof {
            crate::parser::cursor::lemma_skipped_trans(cursor, c1, c2, w, "encoding"@.len() as int);
            crate::parser::cursor::lemma_skipped_trans(cursor, c2, c3, w + "encoding"@.len(), e);
        }
        let c = c3.next_char();
        let r = if c == Some('\'') {
            quoted_with(c3, QuotedValue::EncName, '\'', "\'")
        } else if c == Some('"') {
            quoted_with(c3, QuotedValue::EncName, '"', "\"")
        } else {
            return Err(XmlError::ExpectToken("' or \""));
        };
        let (v, c4) = r?;
        proof {
            crate::parser::cursor::lemma_skipped_trans(cursor, c3, c4, w + "encoding"@.len() + e, (c3@.len() - c4@.len()) as int);
        }
        Ok((v, c4))
    }
}

/// The value of `standalone` after its opening quote `q`: `yes` or `no` and the closing quote.
pub open spec fn spec_sd_value(t: Seq<char>, q: char) -> Result<(bool, nat), XmlErrorV> {
    let k = span(t, CharClass::Except(q));
    if k == 0 || k >= t.len() {
        Err(XmlErrorV::ExpectToken("'yes' | 'no'"@))
    } else if t.take(k as int) == "yes"@ {
        Ok((true, k + 1))
    } else if t.take(k as int) == "no"@ {
        Ok((false, k + 1))
    } else {
        Err(XmlErrorV::IllegalAttributeValue("Expected yes or no"@))
    }
}

/// `SDDecl ::= S 'standalone' Eq (("'" ('yes' | 'no') "'") | ('"' ('yes' | 'no') '"'))`
#[verifier::opaque]
pub open spec fn spec_sd_decl(s: Seq<char>) -> Result<(bool, nat), XmlErrorV> {
    match spec_s(s) {
        Err(e) => Err(e),
        Ok((_, w)) => {
            let r1 = s.skip(w as int);
            if !is_prefix("standalone"@, r1) {
                Err(XmlErrorV::ExpectToken("standalone"@))
            } else {
                let r2 = r1.skip("standalone"@.len() as int);
                match spec_eq(r2) {
                    Err(e) => Err(e),
                    Ok((_, e)) => {
                        let r3 = r2.skip(e as int);
                        let q = if r3.len() > 0 && (r3[0] == '\'' || r3[0] == '"') {
                            add_len(spec_sd_value(r3.skip(1), r3[0]), 1)
                        } else {
                            Err(XmlErrorV::ExpectToken("' or \""@))
                        };
                        add_len(q, w + "standalone"@.len() + e)
                    },
                }
            }
        },
    }
}

fn sd_value<'a>(cursor: Cursor<'a>, q: char) -> (r: Result<(bool, Cursor<'a>), XmlError>)
    ensures
        match r {
            Ok((b, c)) => cursor.followed_by(c) && agrees(
                Ok((b, (cursor@.len() - c@.len()) as nat)),
                spec_sd_value(cursor@, q),
            ),
            Err(e) => agrees::<bool>(Err(e), spec_sd_value(cursor@, q)),
        },
{
    match quoted_rest(cursor, q) {
        None => Err(XmlError::ExpectToken("'yes' | 'no'")),
        Some((v, c)) => {
            if v.is_empty() {
                return Err(XmlError::ExpectToken("'yes' | 'no'"));
            }
            if str_eq(v, "yes") {
                Ok((true, c))
            } else if str_eq(v, "no") {
                Ok((false, c))
            } else {
                Err(XmlError::IllegalAttributeValue("Expected yes or no"))
            }
        },
    }
}

pub struct SDDeclToken;

impl<'a> Parser<'a> for SDDeclToken {
    type Attribute = bool;

    type Error = XmlError;

    open spec fn ready(&self) -> bool {
        true
    }

    open spec fn parses(&self, input: Seq<char>, res: Result<(bool, nat), XmlError>) -> bool {
        agrees(res, spec_sd_decl(input))
    }

    fn parse(&self, cursor: Cursor<'a>) -> (res: Result<(bool, Cursor<'a>), XmlError>) {
        proof {
            reveal(spec_sd_decl);
        }
        let (_, c1) = SToken.parse(cursor)?;
        let (_, c2) = expect_token(c1, "standalone")?;
        let (_, c3) = EqToken.parse(c2)?;
        let ghost w = (cursor@.len() - c1@.len()) as int;
        let ghost e = (c2@.len() - c3@.len()) as int;
        proof {
            crate::parser::cursor::lemma_skipped_trans(cursor, c1, c2, w, "standalone"@.len() as int);
            crate::parser::cursor::lemma_skipped_trans(cursor, c2, c3, w + "standalone"@.len(), e);
        }
        let q = match c3.next_char() {
            Some(q) => {
                if q == '\'' || q == '"' {
                    q
                } else {
                    return Err(XmlError::ExpectToken("' or \""));
                }
            },
            None => {
                return Err(XmlError::ExpectToken("' or \""));
            },
        };
        let c4 = c3.skip_char(q);
        let (b, c5) = match sd_value(c4, q) {
            Ok(r) => r,
            Err(e) => {
                return Err(e);
            },
        };
        proof {
            crate::parser::cursor::lemma_skipped_trans(cursor, c3, c4, w + "standalone"@.len() + e, 1);
            crate::parser::cursor::lemma_skipped_trans(cursor, c4, c5, w + "standalone"@.len() + e + 1, (c4@.len() - c5@.len()) as int);
        }
        Ok((b, c5))
    }
}

/// The content of an XML declaration.
pub open spec fn decl_view(d: XmlDecl) -> (Seq<char>, Option<Seq<char>>, Option<bool>) {
    (d.version@, opt_string_view(d.encoding), d.standalone)
}

/// `XMLDecl ::= '<?xml' VersionInfo EncodingDecl? SDDecl? S? '?>'`
pub open spec fn spec_xml_decl(s: Seq<char>) -> Result<((Seq<char>, Option<Seq<char>>, Option<bool>), nat), XmlErrorV> {
    if !is_prefix("<?xml"@, s) {
        Err(XmlErrorV::ExpectToken("<?xml"@))
    } else {
        let r1 = s.skip("<?xml"@.len() as int);
        match spec_version_info(r1) {
            Err(e) => Err(e),
            Ok((v, n1)) => {
                let r2 = r1.skip(n1 as int);
                let (enc, n2) = match spec_encoding_decl(r2) {
                    Ok((e, n)) => (Some(e), n),
                    Err(_) => (None, 0nat),
                };
                let r3 = r2.skip(n2 as int);
                let (sd, n3) = match spec_sd_decl(r3) {
                    Ok((b, n)) => (Some(b), n),
                    Err(_) => (None, 0nat),
                };
                let r4 = r3.skip(n3 as int);
                let w = ws(r4);
                if is_prefix("?>"@, r4.skip(w as int)) {
                    Ok(((v, enc, sd), "<?xml"@.len() + n1 + n2 + n3 + w + "?>"@.len()))
                } else {
                    Err(XmlErrorV::ExpectToken("?>"@))
                }
            },
        }
    }
}

pub struct XmlDeclToken;

impl<'a> Parser<'a> for XmlDeclToken {
    type Attribute = XmlDecl;

    type Error = XmlError;

    open spec fn ready(&self) -> bool {
        true
    }

    open spec fn parses(&self, input: Seq<char>, res: Result<(XmlDecl, nat), XmlError>) -> bool {
        match (res, spec_xml_decl(input)) {
            (Ok((d, n)), Ok((v, m))) => decl_view(d) == v && n == m,
            (Err(e), Err(f)) => e@ == f,
            _ => false,
        }
    }

    #[verifier::rlimit(40)]
    fn parse(&self, cursor: Cursor<'a>) -> (res: Result<(XmlDecl, Cursor<'a>), XmlError>) {
        let (_, c1) = expect_token(cursor, "<?xml")?;
        let (version, c2) = VersionInfoToken.parse(c1)?;
        let (encoding, c3) = match EncodingDeclToken.parse(c2) {
            Ok((e, c)) => (Some(e.to_owned()), c),
            Err(_) => (None, c2),
        };
        let (standalone, c4) = match SDDeclToken.parse(c3) {
            Ok((b, c)) => (Some(b), c),
            Err(_) => (None, c3),
        };
        let c5 = skip_whitespace(c4);
        let ghost n1 = (c1@.len() - c2@.len()) as int;
        let ghost n2 = (c2@.len() - c3@.len()) as int;
        let ghost n3 = (c3@.len() - c4@.len()) as int;
        let ghost w = (c4@.len() - c5@.len()) as int;
        proof {
            crate::parser::cursor::lemma_stay(c2);
            crate::parser::cursor::lemma_stay(c3);
            crate::parser::cursor::lemma_skipped_trans(cursor, c1, c2, "<?xml"@.len() as int, n1);
            crate::parser::cursor::lemma_skipped_trans(cursor, c2, c3, "<?xml"@.len() + n1, n2);
            crate::parser::cursor::lemma_skipped_trans(cursor, c3, c4, "<?xml"@.len() + n1 + n2, n3);
            crate::parser::cursor::lemma_skipped_trans(cursor, c4, c5, "<?xml"@.len() + n1 + n2 + n3, w);
        }
        let (_, c6) = match expect_token(c5, "?>") {
            Ok(r) => r,
            Err(e) => {
                return Err(e);
            },
        };
        proof {
            crate::parser::cursor::lemma_skipped_trans(cursor, c5, c6, "<?xml"@.len() + n1 + n2 + n3 + w, "?>"@.len() as int);
        }
        Ok((XmlDecl { version: version.to_owned(), encoding, standalone }, c6))
    }
}


/// The value of the digit `c` in base `radix` (10 or 16).
pub open spec fn digit_value(c: char, radix: u32) -> Option<int> {
    if '0' <= c <= '9' {
        Some(c as int - '0' as int)
    } else if radix == 16 && 'a' <= c <= 'f' {
        Some(c as int - 'a' as int + 10)
    } else if radix == 16 && 'A' <= c <= 'F' {
        Some(c as int - 'A' as int + 10)
    } else {
        None
    }
}

/// The value of the digits `d` in base `radix`, if they all are digits.
pub open spec fn digits_value(d: Seq<char>, radix: u32) -> Option<int>
    decreases d.len(),
{
    if d.len() == 0 {
        Some(0)
    } else {
        match (digits_value(d.drop_last(), radix), digit_value(d.last(), radix)) {
            (Some(a), Some(b)) => Some(a * radix + b),
            _ => None,
        }
    }
}

/// `u32::from_str_radix`: an optional `+` and at least one digit, with a value that fits.
pub open spec fn from_str_radix_spec(s: Seq<char>, radix: u32) -> Option<u32> {
    let d = if s.len() > 0 && s[0] == '+' {
        s.drop_first()
    } else {
        s
    };
    if d.len() == 0 {
        None
    } else {
        match digits_value(d, radix) {
            Some(v) => if v <= u32::MAX {
                Some(v as u32)
            } else {
                None
            },
            None => None,
        }
    }
}

proof fn lemma_digits_value_nonneg(d: Seq<char>, radix: u32)
    requires
        radix == 10 || radix == 16,
    ensures
        digits_value(d, radix) matches Some(v) ==> v >= 0,
    decreases d.len(),
{
    if d.len() > 0 {
        lemma_digits_value_nonneg(d.drop_last(), radix);
    }
}

/// A value too large for its prefix is too large for the whole, or has a non-digit.
proof fn lemma_digits_value_grows(d: Seq<char>, radix: u32, i: int)
    requires
        radix == 10 || radix == 16,
        0 <= i <= d.len(),
        digits_value(d.take(i), radix) matches Some(p) && p > u32::MAX,
    ensures
        digits_value(d, radix) matches Some(v) ==> v > u32::MAX,
    decreases d.len() - i,
{
    if i < d.len() {
        let p = digits_value(d.take(i), radix)->0;
        assert(d.take(i + 1).drop_last() =~= d.take(i));
        if let Some(b) = digit_value(d[i], radix) {
            assert(d.take(i + 1).last() == d[i]);
            assert(p * radix >= p) by (nonlinear_arith)
                requires
                    p >= 0,
                    radix >= 1,
            ;
            lemma_digits_value_grows(d, radix, i + 1);
        } else {
            lemma_digits_value_none(d, radix, i + 1);
        }
    } else {
        assert(d.take(i) =~= d);
    }
}

/// A non-digit in a prefix makes the whole fail.
proof fn lemma_digits_value_none(d: Seq<char>, radix: u32, i: int)
    requires
        0 <= i <= d.len(),
        digits_value(d.take(i), radix) is None,
    ensures
        digits_value(d, radix) is None,
    decreases d.len() - i,
{
    if i < d.len() {
        assert(d.take(i + 1).drop_last() =~= d.take(i));
        lemma_digits_value_none(d, radix, i + 1);
    } else {
        assert(d.take(i) =~= d);
    }
}

/// A digit of base 16: `0`-`9`, `a`-`f` or `A`-`F`.
pub open spec fn is_hex_digit(c: char) -> bool {
    ('0' <= c && c <= '9') || ('a' <= c && c <= 'f') || ('A' <= c && c <= 'F')
}

/// A letter `a`-`f` as its capital; every other character as it is.
pub open spec fn hex_upper(c: char) -> char {
    if c == 'a' {
        'A'
    } else if c == 'b' {
        'B'
    } else if c == 'c' {
        'C'
    } else if c == 'd' {
        'D'
    } else if c == 'e' {
        'E'
    } else if c == 'f' {
        'F'
    } else {
        c
    }
}

/// A text with its letters `a`-`f` as capitals.
pub open spec fn hex_upper_text(s: Seq<char>) -> Seq<char> {
    s.map_values(|c: char| hex_upper(c))
}

proof fn lemma_digits_upper(d: Seq<char>)
    ensures
        digits_value(hex_upper_text(d), 16) == digits_value(d, 16),
    decreases d.len(),
{
    if d.len() > 0 {
        assert(hex_upper_text(d).drop_last() =~= hex_upper_text(d.drop_last()));
        assert(hex_upper_text(d).last() == hex_upper(d.last()));
        lemma_digits_upper(d.drop_last());
    }
}

/// In base 16 the letters `a`-`f` and `A`-`F` stand for 10 to 15, a small letter for what
/// its capital does: a number reads the same written with either.
pub proof fn lemma_hex_letters(s: Seq<char>, c: char)
    ensures
        'a' <= c <= 'f' ==> from_str_radix_spec(seq![c], 16) == Some((c as u32 - 'a' as u32 + 10) as u32),
        'A' <= c <= 'F' ==> from_str_radix_spec(seq![c], 16) == Some((c as u32 - 'A' as u32 + 10) as u32),
        '0' <= c <= '9' ==> from_str_radix_spec(seq![c], 16) == Some((c as u32 - '0' as u32) as u32),
        from_str_radix_spec(hex_upper_text(s), 16) == from_str_radix_spec(s, 16),
{
    lemma_single_digit(c);
    lemma_digits_upper(s);
    if s.len() > 0 && s[0] == '+' {
        assert(hex_upper_text(s).drop_first() =~= hex_upper_text(s.drop_first()));
        lemma_digits_upper(s.drop_first());
    }
}

/// In base 16, writing one more digit after a number of digits multiplies its value by
/// sixteen and adds that digit's, where the result fits.
pub proof fn lemma_hex_next_digit(d: Seq<char>, c: char)
    requires
        d.len() > 0,
        d[0] != '+',
        is_hex_digit(c),
        from_str_radix_spec(d, 16) is Some,
    ensures
        ({
            let v = from_str_radix_spec(d, 16)->0 as int;
            let w = from_str_radix_spec(seq![c], 16)->0 as int;
            from_str_radix_spec(d.push(c), 16) == if v * 16 + w <= u32::MAX {
                Some((v * 16 + w) as u32)
            } else {
                None::<u32>
            }
        }),
{
    lemma_single_digit(c);
    let e = d.push(c);
    assert(e.drop_last() =~= d);
    assert(e.last() == c);
    assert(e[0] == d[0]);
    lemma_digits_value_nonneg(d, 16);
    assert(digits_value(e, 16) == match (digits_value(d, 16), digit_value(c, 16)) {
        (Some(a), Some(b)) => Some(a * 16 + b),
        _ => None,
    });
}

/// One digit read alone is worth its digit's value.
proof fn lemma_single_digit(c: char)
    ensures
        digit_value(c, 16) matches Some(b) ==> from_str_radix_spec(seq![c], 16) == Some(b as u32),
        digit_value(c, 16) is None && c != '+' ==> from_str_radix_spec(seq![c], 16) is None,
{
    let s = seq![c];
    assert(s.drop_last() =~= Seq::<char>::empty());
    assert(s.last() == c);
    assert(s[0] == c);
    assert(digits_value(Seq::<char>::empty(), 16) == Some(0int));
    assert(digits_value(s, 16) == match digit_value(c, 16) {
        Some(b) => Some(0 * 16 + b),
        None => None::<int>,
    });
}

/// `&#x`, the hex digits `h`, `;`: the character reference read on a text that starts so.
proof fn lemma_hex_char_ref_code(h: Seq<char>, t: Seq<char>)
    requires
        h.len() > 0,
        forall|i: int| 0 <= i < h.len() ==> is_hex_digit(#[trigger] h[i]),
    ensures
        spec_char_ref(seq!['&', '#', 'x'] + h + seq![';'] + t) == match from_str_radix_spec(h, 16) {
            Some(v) => if vstd::utf8::is_scalar(v) && in_char_table(v as char) {
                Ok((v as char, h.len() + 4))
            } else {
                Err(XmlErrorV::InvalidCharacterReference(h))
            },
            None => Err(XmlErrorV::InvalidCharacterReference(h)),
        },
{
    reveal_strlit("&#");
    reveal_strlit("x");
    let s = seq!['&', '#', 'x'] + h + seq![';'] + t;
    assert(s.take(2) =~= "&#"@);
    let r1 = s.skip(2);
    assert(r1.take(1) =~= "x"@);
    let r2 = r1.skip(1);
    assert(r2 =~= h + seq![';'] + t);
    assert forall|j: int| 0 <= j < h.len() implies class_has(CharClass::Except(';'), #[trigger] r2[j]) by {
        assert(r2[j] == h[j]);
    }
    assert(r2[h.len() as int] == ';');
    crate::text::lemma_span(r2, CharClass::Except(';'), h.len() as int);
    assert(r2.take(h.len() as int) =~= h);
}

/// A character reference in base 16 reads the same with its letters written small or as
/// capitals: `&#xe9;` and `&#xE9;` both give `é`, for every run of hex digits.
pub proof fn lemma_hex_reference_case(h: Seq<char>, t: Seq<char>)
    requires
        h.len() > 0,
        forall|i: int| 0 <= i < h.len() ==> is_hex_digit(#[trigger] h[i]),
    ensures
        ({
            let small = spec_char_ref(seq!['&', '#', 'x'] + h + seq![';'] + t);
            let capital = spec_char_ref(seq!['&', '#', 'x'] + hex_upper_text(h) + seq![';'] + t);
            &&& small is Ok <==> capital is Ok
            &&& small matches Ok((c, n)) ==> capital == Ok::<(char, nat), XmlErrorV>((c, n))
            &&& small matches Ok((c, n)) ==> Some(c as u32) == from_str_radix_spec(h, 16) && n == h.len() + 4
        }),
{
    lemma_hex_char_ref_code(h, t);
    let u = hex_upper_text(h);
    assert forall|i: int| 0 <= i < u.len() implies is_hex_digit(#[trigger] u[i]) by {
        assert(u[i] == hex_upper(h[i]));
        assert(is_hex_digit(h[i]));
    }
    lemma_hex_char_ref_code(u, t);
    lemma_hex_letters(h, 'a');
}

/// Parses an unsigned number in base 10 or 16 as `u32::from_str_radix` does.
pub fn parse_u32_radix(s: &str, radix: u32) -> (r: Option<u32>)
    requires
        radix == 10 || radix == 16,
    ensures
        r == from_str_radix_spec(s@, radix),
{
    let mut it = s.chars();
    let mut first = true;
    let mut seen_digit = false;
    let mut acc: u32 = 0;
    let ghost mut k: int = 0;
    let ghost d: Seq<char> = if s@.len() > 0 && s@[0] == '+' {
        s@.drop_first()
    } else {
        s@
    };
    let ghost start: int = if s@.len() > 0 && s@[0] == '+' {
        1
    } else {
        0
    };
    assert(d =~= s@.skip(start));
    loop
        invariant
            radix == 10 || radix == 16,
            0 <= k <= s@.len(),
            it.remaining() == s@.skip(k),
            first == (k == 0),
            start == (if s@.len() > 0 && s@[0] == '+' {
                1int
            } else {
                0int
            }),
            !first ==> k >= start,
            d == s@.skip(start),
            d == (if s@.len() > 0 && s@[0] == '+' {
                s@.drop_first()
            } else {
                s@
            }),
            first ==> !seen_digit && acc == 0,
            !first ==> digits_value(d.take(k - start), radix) == Some(acc as int),
            !first ==> seen_digit == (k - start > 0),
        decreases s@.len() - k,
    {
        let c = match it.next() {
            None => {
                proof {
                    assert(k == s@.len());
                    if !first {
                        assert(d.take(k - start) =~= d);
                    }
                }
                return if seen_digit {
                    Some(acc)
                } else {
                    None
                };
            },
            Some(c) => c,
        };
        proof {
            assert(k < s@.len());
            assert(c == s@[k]);
        }
        if first && c == '+' {
            first = false;
            proof {
                k = k + 1;
                assert(d.take(0) =~= Seq::<char>::empty());
            }
            continue;
        }
        proof {
            assert(k < s@.len());
            assert(c == s@[k]);
            if first {
                assert(d.take(0) =~= Seq::<char>::empty());
            }
            assert(digits_value(d.take(k - start), radix) == Some(acc as int));
            assert(d[k - start] == c);
            assert(d.take(k - start + 1).drop_last() =~= d.take(k - start));
            assert(d.take(k - start + 1).last() == c);
        }
        first = false;
        let v: u32 = if c >= '0' && c <= '9' {
            c as u32 - '0' as u32
        } else if radix == 16 && c >= 'a' && c <= 'f' {
            c as u32 - 'a' as u32 + 10
        } else if radix == 16 && c >= 'A' && c <= 'F' {
            c as u32 - 'A' as u32 + 10
        } else {
            proof {
                lemma_digits_value_none(d, radix, k - start + 1);
            }
            return None;
        };
        proof {
            assert(digit_value(c, radix) == Some(v as int));
            assert(digits_value(d.take(k - start + 1), radix) == Some(acc * radix + v));
        }
        let m = match acc.checked_mul(radix) {
            Some(m) => m,
            None => {
                proof {
                    assert(acc * radix + v > u32::MAX);
                    lemma_digits_value_grows(d, radix, k - start + 1);
                }
                return None;
            },
        };
        match m.checked_add(v) {
            Some(n) => {
                acc = n;
                seen_digit = true;
            },
            None => {
                proof {
                    lemma_digits_value_grows(d, radix, k - start + 1);
                }
                return None;
            },
        }
        proof {
            k = k + 1;
        }
    }
}

/// `char::from_u32`: the character with the given code point, if it is a Unicode scalar value.
#[verifier::external_body]
fn char_from_u32(code: u32) -> (r: Option<char>)
    ensures
        r is Some <==> vstd::utf8::is_scalar(code),
        r matches Some(c) ==> c as u32 == code,
{
    char::from_u32(code)
}

/// Character Reference
///
/// `CharRef ::= '&#' [0-9]+ ';' | '&#x' [0-9a-fA-F]+ ';'`
pub open spec fn spec_char_ref(s: Seq<char>) -> Result<(char, nat), XmlErrorV> {
    if !is_prefix("&#"@, s) {
        Err(XmlErrorV::InvalidCharacterReference(Seq::empty()))
    } else {
        let r1 = s.skip("&#"@.len() as int);
        let hex = is_prefix("x"@, r1);
        let r2 = if hex {
            r1.skip(1)
        } else {
            r1
        };
        let k = span(r2, CharClass::Except(';'));
        if k >= r2.len() {
            Err(XmlErrorV::UnexpectedEof)
        } else {
            let code = r2.take(k as int);
            match from_str_radix_spec(
                code,
                if hex {
                    16
                } else {
                    10
                },
            ) {
                Some(v) => if vstd::utf8::is_scalar(v) && in_char_table(v as char) {
                    Ok((
                        v as char,
                        "&#"@.len() + (if hex {
                            1nat
                        } else {
                            0nat
                        }) + k + 1,
                    ))
                } else {
                    Err(XmlErrorV::InvalidCharacterReference(code))
                },
                None => Err(XmlErrorV::InvalidCharacterReference(code)),
            }
        }
    }
}

/// The text before the first `t`, which must follow it.
pub fn take_till_ascii_char<'a>(cursor: Cursor<'a>, t: char) -> (r: Result<(&'a str, Cursor<'a>), XmlError>)
    ensures
        ({
            let k = span(cursor@, CharClass::Except(t));
            match r {
                Ok((v, c)) => k < cursor@.len() && v@ == cursor@.take(k as int) && cursor.skipped(
                    k as int,
                    c,
                ),
                Err(e) => k >= cursor@.len() && e@ == XmlErrorV::UnexpectedEof,
            }
        }),
{
    let (k, n) = scan_while(cursor.rest(), CharClass::Except(t));
    let total = crate::text::byte_len(cursor.rest());
    proof {
        lemma_span_props(cursor@, CharClass::Except(t));
        if k < cursor@.len() {
            lemma_blen_lt(cursor@, k as int);
        } else {
            assert(cursor@.take(k as int) =~= cursor@);
        }
    }
    if n == total {
        return Err(XmlError::UnexpectedEof);
    }
    Ok(cursor.split_chars(Ghost(k as int), n))
}

pub struct CharRefToken;

impl<'a> Parser<'a> for CharRefToken {
    type Attribute = char;

    type Error = XmlError;

    open spec fn ready(&self) -> bool {
        true
    }

    open spec fn parses(&self, input: Seq<char>, res: Result<(char, nat), XmlError>) -> bool {
        agrees(res, spec_char_ref(input))
    }

    fn parse(&self, cursor: Cursor<'a>) -> (res: Result<(char, Cursor<'a>), XmlError>) {
        if !cursor.has_next_str("&#") {
            return Err(XmlError::InvalidCharacterReference(String::new()));
        }
        let (_, c1) = expect_token(cursor, "&#")?;
        let hex = c1.has_next_str("x");
        let (radix, c2) = if hex {
            proof {
                reveal_strlit("x");
                assert(c1@.take(1)[0] == 'x');
                assert(c1@[0] == 'x');
            }
            let c2 = c1.skip_char('x');
            (16u32, c2)
        } else {
            proof {
                crate::parser::cursor::lemma_stay(c1);
            }
            (10u32, c1)
        };
        let ghost x: int = if hex {
            1
        } else {
            0
        };
        proof {
            crate::parser::cursor::lemma_skipped_trans(cursor, c1, c2, "&#"@.len() as int, x);
        }
        let (code, c3) = take_till_ascii_char(c2, ';')?;
        let ghost k = span(c2@, CharClass::Except(';')) as int;
        proof {
            lemma_span_props(c2@, CharClass::Except(';'));
            assert(c3@[0] == c2@[k]);
            crate::parser::cursor::lemma_skipped_trans(cursor, c2, c3, "&#"@.len() + x, k);
        }
        match parse_u32_radix(code, radix) {
            Some(v) => {
                match char_from_u32(v) {
                    Some(c) => {
                        if c.is_xml_char() {
                            let c4 = c3.skip_char(';');
                            proof {
                                crate::parser::cursor::lemma_skipped_trans(cursor, c3, c4, "&#"@.len() + x + k, 1);
                                vstd::utf8::char_u32_cast(c, v);
                            }
                            return Ok((c, c4));
                        }
                        proof {
                            vstd::utf8::char_u32_cast(c, v);
                        }
                    },
                    None => {},
                }
            },
            None => {},
        }
        Err(XmlError::InvalidCharacterReference(code.to_owned()))
    }
}

/// Entity Reference
///
/// `EntityRef ::= '&' Name ';'`
pub open spec fn spec_entity_ref(s: Seq<char>) -> Result<(Seq<char>, nat), XmlErrorV> {
    if !is_prefix("&"@, s) {
        Err(XmlErrorV::ExpectToken("&"@))
    } else {
        let r1 = s.skip("&"@.len() as int);
        match spec_name(r1) {
            Err(e) => Err(e),
            Ok((name, n)) => if is_prefix(";"@, r1.skip(n as int)) {
                Ok((name, "&"@.len() + n + ";"@.len()))
            } else {
                Err(XmlErrorV::ExpectToken(";"@))
            },
        }
    }
}

pub struct EntityRefToken;

impl<'a> Parser<'a> for EntityRefToken {
    type Attribute = &'a str;

    type Error = XmlError;

    open spec fn ready(&self) -> bool {
        true
    }

    open spec fn parses(&self, input: Seq<char>, res: Result<(&'a str, nat), XmlError>) -> bool {
        agrees(res, spec_entity_ref(input))
    }

    fn parse(&self, cursor: Cursor<'a>) -> (res: Result<(&'a str, Cursor<'a>), XmlError>) {
        let (_, c1) = expect_token(cursor, "&")?;
        let (name, c2) = NameToken.parse(c1)?;
        let ghost n = (c1@.len() - c2@.len()) as int;
        proof {
            crate::parser::cursor::lemma_skipped_trans(cursor, c1, c2, "&"@.len() as int, n);
        }
        let (_, c3) = match expect_token(c2, ";") {
            Ok(r) => r,
            Err(e) => {
                return Err(e);
            },
        };
        proof {
            crate::parser::cursor::lemma_skipped_trans(cursor, c2, c3, "&"@.len() + n, ";"@.len() as int);
        }
        Ok((name, c3))
    }
}

/// Moves past the character `c`, or fails with `err`.
pub fn expect_byte<'a>(cursor: Cursor<'a>, c: char, err: XmlError) -> (r: Result<Cursor<'a>, XmlError>)
    ensures
        match r {
            Ok(next) => cursor@.len() > 0 && cursor@[0] == c && cursor.skipped(1, next),
            Err(e) => !(cursor@.len() > 0 && cursor@[0] == c) && e == err,
        },
{
    if cursor.has_next_char(c) {
        Ok(cursor.skip_char(c))
    } else {
        Err(err)
    }
}

/// Characters up to a terminating ASCII character, each of which the predicate accepts.
pub struct CharTerminated<T: Fn(char) -> bool> {
    pub predicate: T,
    pub terminator: u8,
}

/// The parser of the characters up to `terminator`, each accepted by `predicate`.
pub fn xml_terminated<T: Fn(char) -> bool>(predicate: T, terminator: u8) -> (r: CharTerminated<T>)
    ensures
        r.predicate == predicate,
        r.terminator == terminator,
{
    CharTerminated { predicate, terminator }
}

impl<'a, T: Fn(char) -> bool> Parser<'a> for CharTerminated<T> {
    type Attribute = &'a str;

    type Error = XmlError;

    /// The terminator is ASCII and the predicate takes every character.
    open spec fn ready(&self) -> bool {
        &&& self.terminator < 0x80
        &&& forall|c: char| #[trigger] call_requires(self.predicate, (c,))
    }

    /// The characters before the first terminator, which stays unread: all accepted, or
    /// the first that is refused; no terminator is the end of the input.
    open spec fn parses(&self, input: Seq<char>, res: Result<(&'a str, nat), XmlError>) -> bool {
        match find(input, seq![self.terminator as char]) {
            None => res matches Err(XmlError::UnexpectedEof),
            Some(n) => match res {
                Ok((s, m)) => {
                    &&& m == n
                    &&& s@ == input.take(n)
                    &&& forall|j: int| 0 <= j < n ==> call_ensures(self.predicate, (#[trigger] input[j],), true)
                },
                Err(XmlError::IllegalChar(c)) => exists|k: int|
                    {
                        &&& 0 <= k < n
                        &&& input[k] == c
                        &&& call_ensures(self.predicate, (c,), false)
                        &&& forall|j: int| 0 <= j < k ==> call_ensures(self.predicate, (#[trigger] input[j],), true)
                    },
                Err(_) => false,
            },
        }
    }

    fn parse(&self, cursor: Cursor<'a>) -> (res: Result<(&'a str, Cursor<'a>), XmlError>) {
        let t = self.terminator as char;
        let ts = crate::reader::machine::char_string(t);
        let found = find_str(cursor.rest(), ts.as_str());
        proof {
            assert(ts@ == seq![self.terminator as char]);
        }
        match found {
            None => Err(XmlError::UnexpectedEof),
            Some((k, n)) => {
                proof {
                    lemma_find_bounds(cursor@, seq![t]);
                }
                let (text, rest) = cursor.split_chars(Ghost(k as int), n);
                let mut it = text.chars();
                let ghost mut i: int = 0;
                loop
                    invariant
                        forall|c: char| #[trigger] call_requires(self.predicate, (c,)),
                        0 <= i <= text@.len(),
                        it.remaining() == text@.skip(i),
                        k <= cursor@.len(),
                        text@ == cursor@.take(k as int),
                        text@.len() == k,
                        find(cursor@, seq![self.terminator as char]) == Some(k as int),
                        cursor.skipped(k as int, rest),
                        forall|j: int| 0 <= j < i ==> call_ensures(self.predicate, (#[trigger] text@[j],), true),
                    decreases text@.len() - i,
                {
                    match it.next() {
                        None => {
                            proof {
                                assert(i == text@.len());
                                assert forall|j: int| 0 <= j < k implies call_ensures(self.predicate, (#[trigger] cursor@[j],), true) by {
                                    assert(cursor@[j] == text@[j]);
                                }
                            }
                            return Ok((text, rest));
                        },
                        Some(c) => {
                            proof {
                                assert(c == text@[i]);
                            }
                            if !(self.predicate)(c) {
                                proof {
                                    assert(cursor@[i] == c);
                                    assert forall|j: int| 0 <= j < i implies call_ensures(self.predicate, (#[trigger] cursor@[j],), true) by {
                                        assert(cursor@[j] == text@[j]);
                                    }
                                }
                                return Err(XmlError::IllegalChar(c));
                            }
                            proof {
                                i = i + 1;
                            }
                        },
                    }
                }
            },
        }
    }
}

} // verus!

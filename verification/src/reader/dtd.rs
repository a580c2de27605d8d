//! Tokens of the document type declaration, each with the result it gives on every input.
use vstd::prelude::*;

use crate::dtd::{
    repetition_allows,
    cp_view, cps_view, content_spec_view, entity_def_view, markup_decl_view, markup_decls_view,
    pe_def_view, strings_view, ContentParticle, ContentParticleEntry, ContentParticleEntryV,
    ContentParticleV, ContentSpec, ContentSpecV, DocTypeDecl, DocTypeDeclV, Element, EntityDef,
    EntityDefV, ExternalId, ExternalIdV, GEDecl, IntSubset, MarkupDeclEntry, MarkupDeclV, PEDecl,
    PEDef, PEDefV, Repetition,
};
use crate::events::{XmlDtdError, XmlError, XmlErrorV};
use crate::parser::cursor::{consumed, lemma_followed_trans, lemma_skipped_trans, Cursor};
use crate::parser::Parser;
use crate::reader::tokens::{
    add_len, agrees, expect_token, read_err, read_ok, first_outside, quoted_rest, skip_whitespace, spec_name, spec_s, ws,
    NameToken, SToken,
};
use crate::text::{is_prefix, lemma_span_props, rest_after, span, CharClass};

verus! {

broadcast use vstd::string::group_string_axioms;

/// The quote that opens a literal, if one does.
pub open spec fn open_quote(s: Seq<char>) -> Option<char> {
    if s.len() > 0 && (s[0] == '"' || s[0] == '\'') {
        Some(s[0])
    } else {
        None
    }
}

/// The text of a literal opened by `q`, read after its opening quote.
pub open spec fn spec_quoted_text(s: Seq<char>, q: char) -> Result<(Seq<char>, nat), XmlErrorV> {
    let k = span(s, CharClass::Except(q));
    if k < s.len() {
        Ok((s.take(k as int), k + 1))
    } else {
        Err(XmlErrorV::UnexpectedEof)
    }
}

/// A quoted literal, failing with `ExpectToken(what)` where no quote opens it.
pub open spec fn spec_literal(s: Seq<char>, what: Seq<char>) -> Result<(Seq<char>, nat), XmlErrorV> {
    match open_quote(s) {
        None => Err(XmlErrorV::ExpectToken(what)),
        Some(q) => add_len(spec_quoted_text(s.skip(1), q), 1),
    }
}

/// Reads a quoted literal.
fn literal<'a>(cursor: Cursor<'a>, what: &'static str) -> (r: Result<(&'a str, Cursor<'a>), XmlError>)
    ensures
        match r {
            Ok((v, c)) => read_ok(cursor, c, v@, spec_literal(cursor@, what@)),
            Err(e) => read_err(e, spec_literal(cursor@, what@)),
        },
{
    let q = match cursor.next_char() {
        Some(q) => {
            if q == '"' || q == '\'' {
                q
            } else {
                return Err(XmlError::ExpectToken(what));
            }
        },
        None => {
            return Err(XmlError::ExpectToken(what));
        },
    };
    let c1 = cursor.skip_char(q);
    match quoted_rest(c1, q) {
        None => Err(XmlError::UnexpectedEof),
        Some((v, c2)) => {
            proof {
                let k = span(c1@, CharClass::Except(q));
                lemma_skipped_trans(cursor, c1, c2, 1, k + 1 as int);
            }
            Ok((v, c2))
        },
    }
}

/// External identifier literal
/// `SystemLiteral ::= ('"' [^"]* '"') | ("'" [^']* "'")`
pub open spec fn spec_system_literal(s: Seq<char>) -> Result<(Seq<char>, nat), XmlErrorV> {
    spec_literal(s, "SystemLiteral"@)
}

/// Identifier literal
/// `PubidLiteral ::= '"' PubidChar* '"' | "'" (PubidChar - "'")* "'"`
pub open spec fn spec_pubid_literal(s: Seq<char>) -> Result<(Seq<char>, nat), XmlErrorV> {
    match spec_literal(s, "PubidLiteral"@) {
        Err(e) => Err(e),
        Ok((v, n)) => {
            let j = span(v, CharClass::PubidChar);
            if j < v.len() {
                Err(XmlErrorV::IllegalChar(v[j as int]))
            } else {
                Ok((v, n))
            }
        },
    }
}

fn pubid_literal<'a>(cursor: Cursor<'a>) -> (r: Result<(&'a str, Cursor<'a>), XmlError>)
    ensures
        match r {
            Ok((v, c)) => read_ok(cursor, c, v@, spec_pubid_literal(cursor@)),
            Err(e) => read_err(e, spec_pubid_literal(cursor@)),
        },
{
    let (v, c) = literal(cursor, "PubidLiteral")?;
    if let Some(bad) = first_outside(v, CharClass::PubidChar) {
        return Err(XmlError::IllegalChar(bad));
    }
    Ok((v, c))
}

/// `EntityValue ::= '"' ([^%&"] | PEReference | Reference)* '"' |  "'" ([^%&'] | PEReference | Reference)* "'"`,
/// taken as it stands.
pub open spec fn spec_entity_value(s: Seq<char>) -> Result<(Seq<char>, nat), XmlErrorV> {
    spec_literal(s, "EntityValue"@)
}

pub struct EntityValueToken;

impl<'a> Parser<'a> for EntityValueToken {
    type Attribute = String;

    type Error = XmlError;

    open spec fn ready(&self) -> bool {
        true
    }

    open spec fn parses(&self, input: Seq<char>, res: Result<(String, nat), XmlError>) -> bool {
        agrees(res, spec_entity_value(input))
    }

    fn parse(&self, cursor: Cursor<'a>) -> (res: Result<(String, Cursor<'a>), XmlError>) {
        let (v, c) = literal(cursor, "EntityValue")?;
        Ok((v.to_owned(), c))
    }
}

/// `'PUBLIC' S PubidLiteral`
pub open spec fn spec_public_head(s: Seq<char>) -> Result<(Seq<char>, nat), XmlErrorV> {
    if !is_prefix("PUBLIC"@, s) {
        Err(XmlErrorV::ExpectToken("PUBLIC"@))
    } else {
        let r1 = s.skip("PUBLIC"@.len() as int);
        match spec_s(r1) {
            Err(e) => Err(e),
            Ok((_, w)) => add_len(spec_pubid_literal(r1.skip(w as int)), "PUBLIC"@.len() + w),
        }
    }
}

fn public_head<'a>(cursor: Cursor<'a>) -> (r: Result<(&'a str, Cursor<'a>), XmlError>)
    ensures
        match r {
            Ok((v, c)) => read_ok(cursor, c, v@, spec_public_head(cursor@)),
            Err(e) => read_err(e, spec_public_head(cursor@)),
        },
{
    let (_, c1) = expect_token(cursor, "PUBLIC")?;
    let (_, c2) = SToken.parse(c1)?;
    let (p, c3) = pubid_literal(c2)?;
    proof {
        lemma_followed_trans(cursor, c1, c2);
        lemma_followed_trans(cursor, c2, c3);
    }
    Ok((p, c3))
}

/// `ExternalID ::= 'SYSTEM' S SystemLiteral | 'PUBLIC' S PubidLiteral S SystemLiteral`
pub open spec fn spec_external_id(s: Seq<char>) -> Result<(ExternalIdV, nat), XmlErrorV> {
    let head: Option<(Option<Seq<char>>, nat)> = if is_prefix("SYSTEM"@, s) {
        Some((None, "SYSTEM"@.len()))
    } else {
        match spec_public_head(s) {
            Ok((p, n)) => Some((Some(p), n)),
            Err(_) => None,
        }
    };
    match head {
        None => Err(XmlErrorV::ExpectToken("ExternalID"@)),
        Some((pub_id, n)) => {
            let r1 = s.skip(n as int);
            match spec_s(r1) {
                Err(e) => Err(e),
                Ok((_, w)) => match spec_system_literal(r1.skip(w as int)) {
                    Err(e) => Err(e),
                    Ok((sys, m)) => Ok(
                        (
                            match pub_id {
                                Some(p) => ExternalIdV::Public(p, sys),
                                None => ExternalIdV::System(sys),
                            },
                            n + w + m,
                        ),
                    ),
                },
            }
        },
    }
}

pub struct ExternalIdToken;

impl<'a> Parser<'a> for ExternalIdToken {
    type Attribute = ExternalId;

    type Error = XmlError;

    open spec fn ready(&self) -> bool {
        true
    }

    open spec fn parses(&self, input: Seq<char>, res: Result<(ExternalId, nat), XmlError>) -> bool {
        agrees(res, spec_external_id(input))
    }

    fn parse(&self, cursor: Cursor<'a>) -> (res: Result<(ExternalId, Cursor<'a>), XmlError>) {
        let (pub_id, c1) = if cursor.has_next_str("SYSTEM") {
            let (_, c1) = expect_token(cursor, "SYSTEM")?;
            (None, c1)
        } else {
            match public_head(cursor) {
                Ok((p, c1)) => (Some(p), c1),
                Err(_) => {
                    return Err(XmlError::ExpectToken("ExternalID"));
                },
            }
        };
        let (_, c2) = SToken.parse(c1)?;
        let (system, c3) = literal(c2, "SystemLiteral")?;
        proof {
            lemma_followed_trans(cursor, c1, c2);
            lemma_followed_trans(cursor, c2, c3);
        }
        match pub_id {
            Some(p) => Ok((ExternalId::Public { pub_id: p.to_owned(), system: system.to_owned() }, c3)),
            None => Ok((ExternalId::System { system: system.to_owned() }, c3)),
        }
    }
}

/// `NDataDecl ::= S 'NDATA' S Name`
pub open spec fn spec_ndata_decl(s: Seq<char>) -> Result<(Seq<char>, nat), XmlErrorV> {
    match spec_s(s) {
        Err(e) => Err(e),
        Ok((_, w1)) => {
            let r1 = s.skip(w1 as int);
            if !is_prefix("NDATA"@, r1) {
                Err(XmlErrorV::ExpectToken("NDATA"@))
            } else {
                let r2 = r1.skip("NDATA"@.len() as int);
                match spec_s(r2) {
                    Err(e) => Err(e),
                    Ok((_, w2)) => add_len(spec_name(r2.skip(w2 as int)), w1 + "NDATA"@.len() + w2),
                }
            }
        },
    }
}

pub struct NDataDeclToken;

impl<'a> Parser<'a> for NDataDeclToken {
    type Attribute = String;

    type Error = XmlError;

    open spec fn ready(&self) -> bool {
        true
    }

    open spec fn parses(&self, input: Seq<char>, res: Result<(String, nat), XmlError>) -> bool {
        agrees(res, spec_ndata_decl(input))
    }

    fn parse(&self, cursor: Cursor<'a>) -> (res: Result<(String, Cursor<'a>), XmlError>) {
        let (_, c1) = SToken.parse(cursor)?;
        let (_, c2) = expect_token(c1, "NDATA")?;
        let (_, c3) = SToken.parse(c2)?;
        let (name, c4) = NameToken.parse(c3)?;
        proof {
            lemma_followed_trans(cursor, c1, c2);
            lemma_followed_trans(cursor, c2, c3);
            lemma_followed_trans(cursor, c3, c4);
        }
        Ok((name.to_owned(), c4))
    }
}

/// `EntityDef ::= EntityValue | (ExternalID NDataDecl?)`
pub open spec fn spec_entity_def(s: Seq<char>) -> Result<(EntityDefV, nat), XmlErrorV> {
    match spec_entity_value(s) {
        Ok((v, n)) => Ok((EntityDefV::Internal(v), n)),
        Err(_) => match spec_external_id(s) {
            Ok((e, n)) => match spec_ndata_decl(s.skip(n as int)) {
                Ok((nd, m)) => Ok((EntityDefV::External(e, Some(nd)), n + m)),
                Err(_) => Ok((EntityDefV::External(e, None), n)),
            },
            Err(_) => Err(XmlErrorV::DtdError(XmlDtdError::SyntaxError)),
        },
    }
}

fn entity_def<'a>(cursor: Cursor<'a>) -> (r: Result<(EntityDef, Cursor<'a>), XmlError>)
    ensures
        match r {
            Ok((d, c)) => read_ok(cursor, c, entity_def_view(d), spec_entity_def(cursor@)),
            Err(e) => read_err(e, spec_entity_def(cursor@)),
        },
{
    if let Ok((v, c)) = EntityValueToken.parse(cursor) {
        return Ok((EntityDef::Internal(v), c));
    }
    match ExternalIdToken.parse(cursor) {
        Ok((external_id, c1)) => match NDataDeclToken.parse(c1) {
            Ok((nd, c2)) => {
                proof {
                    lemma_followed_trans(cursor, c1, c2);
                }
                Ok((EntityDef::External { external_id, ndata: Some(nd) }, c2))
            },
            Err(_) => Ok((EntityDef::External { external_id, ndata: None }, c1)),
        },
        Err(_) => Err(XmlError::DtdError(XmlDtdError::SyntaxError)),
    }
}

/// `PEDef ::= EntityValue | ExternalID`
pub open spec fn spec_pe_def(s: Seq<char>) -> Result<(PEDefV, nat), XmlErrorV> {
    match spec_entity_value(s) {
        Ok((v, n)) => Ok((PEDefV::Internal(v), n)),
        Err(_) => match spec_external_id(s) {
            Ok((e, n)) => Ok((PEDefV::External(e), n)),
            Err(_) => Err(XmlErrorV::DtdError(XmlDtdError::SyntaxError)),
        },
    }
}

fn pe_def<'a>(cursor: Cursor<'a>) -> (r: Result<(PEDef, Cursor<'a>), XmlError>)
    ensures
        match r {
            Ok((d, c)) => read_ok(cursor, c, pe_def_view(d), spec_pe_def(cursor@)),
            Err(e) => read_err(e, spec_pe_def(cursor@)),
        },
{
    if let Ok((v, c)) = EntityValueToken.parse(cursor) {
        return Ok((PEDef::Internal(v), c));
    }
    match ExternalIdToken.parse(cursor) {
        Ok((e, c)) => Ok((PEDef::External(e), c)),
        Err(_) => Err(XmlError::DtdError(XmlDtdError::SyntaxError)),
    }
}

/// `'<!ENTITY' S`, then `name S` with what follows read by `def`: the common head of
/// both kinds of entity declarations. Gives the name and the characters read up to `def`.
pub open spec fn spec_entity_head(s: Seq<char>, percent: bool) -> Result<(Seq<char>, nat), XmlErrorV> {
    if !is_prefix("<!ENTITY"@, s) {
        Err(XmlErrorV::ExpectToken("<!ENTITY"@))
    } else {
        let r1 = s.skip("<!ENTITY"@.len() as int);
        match spec_s(r1) {
            Err(e) => Err(e),
            Ok((_, w1)) => {
                let r2 = r1.skip(w1 as int);
                let p: Result<((), nat), XmlErrorV> = if !percent {
                    Ok(((), 0))
                } else if !is_prefix("%"@, r2) {
                    Err(XmlErrorV::ExpectToken("%"@))
                } else {
                    match spec_s(r2.skip(1)) {
                        Err(e) => Err(e),
                        Ok((_, w)) => Ok(((), 1 + w)),
                    }
                };
                match p {
                    Err(e) => Err(e),
                    Ok((_, pn)) => {
                        let r3 = r2.skip(pn as int);
                        match spec_name(r3) {
                            Err(e) => Err(e),
                            Ok((name, n)) => match spec_s(r3.skip(n as int)) {
                                Err(e) => Err(e),
                                Ok((_, w2)) => Ok((name, "<!ENTITY"@.len() + w1 + pn + n + w2)),
                            },
                        }
                    },
                }
            },
        }
    }
}

fn entity_head<'a>(cursor: Cursor<'a>, percent: bool) -> (r: Result<(&'a str, Cursor<'a>), XmlError>)
    ensures
        match r {
            Ok((v, c)) => read_ok(cursor, c, v@, spec_entity_head(cursor@, percent)),
            Err(e) => read_err(e, spec_entity_head(cursor@, percent)),
        },
{
    let (_, c1) = expect_token(cursor, "<!ENTITY")?;
    let (_, c2) = SToken.parse(c1)?;
    proof {
        lemma_followed_trans(cursor, c1, c2);
    }
    let c3 = if percent {
        if !c2.has_next_char('%') {
            proof {
                reveal_strlit("%");
                assert(is_prefix("%"@, c2@) ==> c2@.take(1)[0] == '%');
            }
            return Err(XmlError::ExpectToken("%"));
        }
        let cp = c2.skip_char('%');
        let (_, c3) = match SToken.parse(cp) {
            Ok(r) => r,
            Err(e) => {
                proof {
                    reveal_strlit("%");
                    assert(c2@.take(1) =~= "%"@);
                }
                return Err(e);
            },
        };
        proof {
            reveal_strlit("%");
            assert(c2@.take(1) =~= "%"@);
            lemma_followed_trans(c2, cp, c3);
        }
        c3
    } else {
        proof {
            crate::parser::cursor::lemma_stay(c2);
        }
        c2
    };
    proof {
        lemma_followed_trans(cursor, c2, c3);
    }
    let (name, c4) = NameToken.parse(c3)?;
    let (_, c5) = SToken.parse(c4)?;
    proof {
        lemma_followed_trans(cursor, c3, c4);
        lemma_followed_trans(cursor, c4, c5);
    }
    Ok((name, c5))
}

/// `GEDecl ::= '<!ENTITY' S Name S EntityDef S? '>'`
pub open spec fn spec_ge_decl(s: Seq<char>) -> Result<((Seq<char>, EntityDefV), nat), XmlErrorV> {
    match spec_entity_head(s, false) {
        Err(e) => Err(e),
        Ok((name, n1)) => {
            let r1 = s.skip(n1 as int);
            match spec_entity_def(r1) {
                Err(e) => Err(e),
                Ok((def, n2)) => {
                    let r2 = r1.skip(n2 as int);
                    let w = ws(r2);
                    if is_prefix(">"@, r2.skip(w as int)) {
                        Ok(((name, def), n1 + n2 + w + 1))
                    } else {
                        Err(XmlErrorV::ExpectToken(">"@))
                    }
                },
            }
        },
    }
}

fn ge_decl<'a>(cursor: Cursor<'a>) -> (r: Result<(GEDecl, Cursor<'a>), XmlError>)
    ensures
        match r {
            Ok((d, c)) => read_ok(cursor, c, (d.name@, entity_def_view(d.def)), spec_ge_decl(cursor@)),
            Err(e) => read_err(e, spec_ge_decl(cursor@)),
        },
{
    let (name, c1) = entity_head(cursor, false)?;
    let (def, c2) = entity_def(c1)?;
    let c3 = skip_whitespace(c2);
    let (_, c4) = expect_token(c3, ">")?;
    proof {
        reveal_strlit(">");
        lemma_followed_trans(cursor, c1, c2);
        lemma_followed_trans(cursor, c2, c3);
        lemma_followed_trans(cursor, c3, c4);
    }
    Ok((GEDecl { name: name.to_owned(), def }, c4))
}

/// `PEDecl ::= '<!ENTITY' S '%' S Name S PEDef S?`, read without the closing `'>'`.
pub open spec fn spec_pe_decl(s: Seq<char>) -> Result<((Seq<char>, PEDefV), nat), XmlErrorV> {
    match spec_entity_head(s, true) {
        Err(e) => Err(e),
        Ok((name, n1)) => {
            let r1 = s.skip(n1 as int);
            match spec_pe_def(r1) {
                Err(e) => Err(e),
                Ok((def, n2)) => Ok(((name, def), n1 + n2 + ws(r1.skip(n2 as int)))),
            }
        },
    }
}

fn pe_decl<'a>(cursor: Cursor<'a>) -> (r: Result<(PEDecl, Cursor<'a>), XmlError>)
    ensures
        match r {
            Ok((d, c)) => read_ok(cursor, c, (d.name@, pe_def_view(d.def)), spec_pe_decl(cursor@)),
            Err(e) => read_err(e, spec_pe_decl(cursor@)),
        },
{
    let (name, c1) = entity_head(cursor, true)?;
    let (def, c2) = pe_def(c1)?;
    let c3 = skip_whitespace(c2);
    proof {
        lemma_followed_trans(cursor, c1, c2);
        lemma_followed_trans(cursor, c2, c3);
    }
    Ok((PEDecl { name: name.to_owned(), def }, c3))
}

/// `('?' | '*' | '+')?`
pub open spec fn spec_repetition(s: Seq<char>) -> (Repetition, nat) {
    if s.len() > 0 && s[0] == '?' {
        (Repetition::ZeroOrOne, 1)
    } else if s.len() > 0 && s[0] == '*' {
        (Repetition::ZeroOrMore, 1)
    } else if s.len() > 0 && s[0] == '+' {
        (Repetition::OneOrMore, 1)
    } else {
        (Repetition::One, 0)
    }
}

/// The suffix of a content particle says how often it may occur and is read alone: `?`
/// at most once, `*` any number of times, `+` at least once (never not at all), and no
/// suffix exactly once, reading nothing. The three suffixes give three different
/// repetitions.
pub proof fn lemma_repetition_suffix(s: Seq<char>)
    ensures
        forall|n: nat| #[trigger] repetition_allows(spec_repetition(seq!['?'] + s).0, n) <==> n <= 1,
        forall|n: nat| #[trigger] repetition_allows(spec_repetition(seq!['*'] + s).0, n),
        forall|n: nat| #[trigger] repetition_allows(spec_repetition(seq!['+'] + s).0, n) <==> n >= 1,
        spec_repetition(seq!['?'] + s).1 == 1,
        spec_repetition(seq!['*'] + s).1 == 1,
        spec_repetition(seq!['+'] + s).1 == 1,
        spec_repetition(seq!['?'] + s).0 != spec_repetition(seq!['*'] + s).0,
        spec_repetition(seq!['*'] + s).0 != spec_repetition(seq!['+'] + s).0,
        spec_repetition(seq!['+'] + s).0 != spec_repetition(seq!['?'] + s).0,
        !(s.len() > 0 && (s[0] == '?' || s[0] == '*' || s[0] == '+')) ==> spec_repetition(s).1 == 0 && forall|n: nat|
            #[trigger] repetition_allows(spec_repetition(s).0, n) <==> n == 1,
{
    assert((seq!['?'] + s)[0] == '?');
    assert((seq!['*'] + s)[0] == '*');
    assert((seq!['+'] + s)[0] == '+');
}

fn repetition<'a>(cursor: Cursor<'a>) -> (r: (Repetition, Cursor<'a>))
    ensures
        cursor.followed_by(r.1),
        spec_repetition(cursor@) == (r.0, consumed(cursor, r.1)),
{
    match cursor.next_char() {
        Some('?') => (Repetition::ZeroOrOne, cursor.skip_char('?')),
        Some('*') => (Repetition::ZeroOrMore, cursor.skip_char('*')),
        Some('+') => (Repetition::OneOrMore, cursor.skip_char('+')),
        _ => {
            proof {
                crate::parser::cursor::lemma_stay(cursor);
            }
            (Repetition::One, cursor)
        },
    }
}

/// `cp ::= (Name | choice | seq) ('?' | '*' | '+')?`
pub open spec fn spec_cp(s: Seq<char>) -> Result<(ContentParticleV, nat), XmlErrorV>
    decreases s.len(), 2nat,
{
    let entry: Result<(ContentParticleEntryV, nat), XmlErrorV> = match spec_name(s) {
        Ok((name, n)) => Ok((ContentParticleEntryV::Name(name), n)),
        Err(_) => match spec_group(s, '|') {
            Ok((cps, n)) => Ok((ContentParticleEntryV::Choice(cps), n)),
            Err(_) => match spec_group(s, ',') {
                Ok((cps, n)) => Ok((ContentParticleEntryV::Sequence(cps), n)),
                Err(_) => Err(XmlErrorV::DtdError(XmlDtdError::SyntaxError)),
            },
        },
    };
    match entry {
        Err(e) => Err(e),
        Ok((e, n)) => {
            let (rep, m) = spec_repetition(rest_after(s, n));
            Ok((ContentParticleV { entry: e, repetition: rep }, n + m))
        },
    }
}

/// `choice ::= '(' S? cp ( S? '|' S? cp )+ S? ')'` where `sep` is `'|'`, and
/// `seq ::= '(' S? cp ( S? ',' S? cp )* S? ')'` where `sep` is `','`.
pub open spec fn spec_group(s: Seq<char>, sep: char) -> Result<(Seq<ContentParticleV>, nat), XmlErrorV>
    decreases s.len(), 1nat,
{
    if !(s.len() > 0 && s[0] == '(') {
        Err(XmlErrorV::ExpectToken("("@))
    } else {
        let r1 = s.skip(1);
        let w1 = ws(r1);
        let r2 = rest_after(r1, w1);
        match spec_separated(r2, sep) {
            Err(e) => Err(e),
            Ok((cps, n)) => {
                if sep == '|' && cps.len() < 2 {
                    Err(XmlErrorV::DtdError(XmlDtdError::SyntaxError))
                } else {
                    let r3 = rest_after(r2, n);
                    let w2 = ws(r3);
                    let r4 = rest_after(r3, w2);
                    if r4.len() > 0 && r4[0] == ')' {
                        Ok((cps, 1 + w1 + n + w2 + 1))
                    } else {
                        Err(XmlErrorV::ExpectToken(")"@))
                    }
                }
            },
        }
    }
}

/// `cp ( S? sep S? cp )*`
pub open spec fn spec_separated(s: Seq<char>, sep: char) -> Result<(Seq<ContentParticleV>, nat), XmlErrorV>
    decreases s.len(), 3nat,
{
    match spec_cp(s) {
        Err(e) => Err(e),
        Ok((cp, n)) => {
            let (more, m) = spec_sep_tail(rest_after(s, n), sep);
            Ok((seq![cp] + more, n + m))
        },
    }
}

/// `( S? sep S? cp )*`
pub open spec fn spec_sep_tail(s: Seq<char>, sep: char) -> (Seq<ContentParticleV>, nat)
    decreases s.len(), 0nat,
{
    let w1 = ws(s);
    let r1 = rest_after(s, w1);
    if r1.len() > 0 && r1[0] == sep {
        let r2 = r1.skip(1);
        let w2 = ws(r2);
        let r3 = rest_after(r2, w2);
        match spec_cp(r3) {
            Ok((cp, n)) => {
                let (more, m) = spec_sep_tail(rest_after(r3, n), sep);
                (seq![cp] + more, w1 + 1 + w2 + n + m)
            },
            Err(_) => (Seq::empty(), 0),
        }
    } else {
        (Seq::empty(), 0)
    }
}

proof fn lemma_cp_seq_view(cp: ContentParticle, more: Seq<ContentParticle>)
    ensures
        cps_view(seq![cp] + more) == seq![cp_view(cp)] + cps_view(more),
{
    assert(cps_view(seq![cp] + more) =~= seq![cp_view(cp)] + cps_view(more));
}

proof fn lemma_rest_after(s: Seq<char>, n: nat)
    requires
        n <= s.len(),
    ensures
        rest_after(s, n) == s.skip(n as int),
{
}

pub(crate) proof fn lemma_ws_bound(s: Seq<char>)
    ensures
        ws(s) <= s.len(),
        rest_after(s, ws(s)) == s.skip(ws(s) as int),
{
    lemma_span_props(s, CharClass::Whitespace);
}

#[verifier::rlimit(40)]
#[verifier::spinoff_prover]
fn parse_cp<'a>(cursor: Cursor<'a>) -> (r: Result<(ContentParticle, Cursor<'a>), XmlError>)
    ensures
        match r {
            Ok((cp, c)) => read_ok(cursor, c, cp_view(cp), spec_cp(cursor@)),
            Err(e) => read_err(e, spec_cp(cursor@)),
        },
    decreases cursor@.len(), 2nat,
{
    let (entry, c1) = match NameToken.parse(cursor) {
        Ok((name, c1)) => (ContentParticleEntry::Name(name.to_owned()), c1),
        Err(_) => match parse_group(cursor, '|') {
            Ok((cps, c1)) => (ContentParticleEntry::Choice(cps), c1),
            Err(_) => match parse_group(cursor, ',') {
                Ok((cps, c1)) => (ContentParticleEntry::Sequence(cps), c1),
                Err(_) => {
                    return Err(XmlError::DtdError(XmlDtdError::SyntaxError));
                },
            },
        },
    };
    let (rep, c2) = repetition(c1);
    proof {
        lemma_rest_after(cursor@, consumed(cursor, c1));
        lemma_followed_trans(cursor, c1, c2);
    }
    let cp = ContentParticle { entry, repetition: rep };
    proof {
        crate::dtd::lemma_cp_view_group(cp);
    }
    Ok((cp, c2))
}

#[verifier::rlimit(40)]
fn parse_group<'a>(cursor: Cursor<'a>, sep: char) -> (r: Result<(Vec<ContentParticle>, Cursor<'a>), XmlError>)
    ensures
        match r {
            Ok((v, c)) => read_ok(cursor, c, cps_view(v@), spec_group(cursor@, sep)),
            Err(e) => read_err(e, spec_group(cursor@, sep)),
        },
    decreases cursor@.len(), 1nat,
{
    if !cursor.has_next_char('(') {
        return Err(XmlError::ExpectToken("("));
    }
    let c1 = cursor.skip_char('(');
    let c2 = skip_whitespace(c1);
    proof {
        lemma_ws_bound(c1@);
        lemma_followed_trans(cursor, c1, c2);
    }
    let (cps, c3) = parse_separated(c2, sep)?;
    if sep == '|' && cps.len() < 2 {
        return Err(XmlError::DtdError(XmlDtdError::SyntaxError));
    }
    let c4 = skip_whitespace(c3);
    proof {
        lemma_rest_after(c2@, consumed(c2, c3));
        lemma_ws_bound(c3@);
        lemma_followed_trans(cursor, c2, c3);
        lemma_followed_trans(cursor, c3, c4);
    }
    if !c4.has_next_char(')') {
        return Err(XmlError::ExpectToken(")"));
    }
    let c5 = c4.skip_char(')');
    proof {
        lemma_followed_trans(cursor, c4, c5);
    }
    Ok((cps, c5))
}

fn parse_separated<'a>(cursor: Cursor<'a>, sep: char) -> (r: Result<(Vec<ContentParticle>, Cursor<'a>), XmlError>)
    ensures
        match r {
            Ok((v, c)) => read_ok(cursor, c, cps_view(v@), spec_separated(cursor@, sep)),
            Err(e) => read_err(e, spec_separated(cursor@, sep)),
        },
    decreases cursor@.len(), 3nat,
{
    let (cp, c1) = parse_cp(cursor)?;
    let (mut more, c2) = parse_sep_tail(c1, sep);
    proof {
        lemma_rest_after(cursor@, consumed(cursor, c1));
        lemma_followed_trans(cursor, c1, c2);
        lemma_cp_seq_view(cp, more@);
    }
    let ghost m = more@;
    let mut v = Vec::new();
    v.push(cp);
    v.append(&mut more);
    proof {
        assert(v@ =~= seq![cp] + m);
    }
    Ok((v, c2))
}

#[verifier::rlimit(40)]
fn parse_sep_tail<'a>(cursor: Cursor<'a>, sep: char) -> (r: (Vec<ContentParticle>, Cursor<'a>))
    ensures
        cursor.followed_by(r.1),
        spec_sep_tail(cursor@, sep) == (cps_view(r.0@), consumed(cursor, r.1)),
    decreases cursor@.len(), 0nat,
{
    proof {
        crate::parser::cursor::lemma_stay(cursor);
        assert(cps_view(Seq::<ContentParticle>::empty()) =~= Seq::<ContentParticleV>::empty());
    }
    let c1 = skip_whitespace(cursor);
    proof {
        lemma_ws_bound(cursor@);
    }
    if !c1.has_next_char(sep) {
        return (Vec::new(), cursor);
    }
    let c2 = c1.skip_char(sep);
    let c3 = skip_whitespace(c2);
    proof {
        lemma_ws_bound(c2@);
        lemma_followed_trans(cursor, c1, c2);
        lemma_followed_trans(cursor, c2, c3);
    }
    match parse_cp(c3) {
        Err(_) => (Vec::new(), cursor),
        Ok((cp, c4)) => {
            let (mut more, c5) = parse_sep_tail(c4, sep);
            proof {
                lemma_rest_after(c3@, consumed(c3, c4));
                lemma_followed_trans(cursor, c3, c4);
                lemma_followed_trans(cursor, c4, c5);
                lemma_cp_seq_view(cp, more@);
            }
            let ghost m = more@;
            let mut v = Vec::new();
            v.push(cp);
            v.append(&mut more);
            proof {
                assert(v@ =~= seq![cp] + m);
            }
            (v, c5)
        },
    }
}

/// `(S? '|' S? Name)*`
pub open spec fn spec_mixed_names(s: Seq<char>) -> (Seq<Seq<char>>, nat)
    decreases s.len(),
{
    let w1 = ws(s);
    let r1 = rest_after(s, w1);
    if r1.len() > 0 && r1[0] == '|' {
        let r2 = r1.skip(1);
        let w2 = ws(r2);
        let r3 = rest_after(r2, w2);
        match spec_name(r3) {
            Ok((name, n)) => {
                let (more, m) = spec_mixed_names(rest_after(r3, n));
                (seq![name] + more, w1 + 1 + w2 + n + m)
            },
            Err(_) => (Seq::empty(), 0),
        }
    } else {
        (Seq::empty(), 0)
    }
}

#[verifier::rlimit(40)]
#[verifier::spinoff_prover]
fn mixed_names<'a>(cursor: Cursor<'a>) -> (r: (Vec<String>, Cursor<'a>))
    ensures
        cursor.followed_by(r.1),
        spec_mixed_names(cursor@) == (strings_view(r.0@), consumed(cursor, r.1)),
    decreases cursor@.len(),
{
    proof {
        crate::parser::cursor::lemma_stay(cursor);
        assert(strings_view(Seq::<String>::empty()) =~= Seq::<Seq<char>>::empty());
    }
    let c1 = skip_whitespace(cursor);
    proof {
        lemma_ws_bound(cursor@);
    }
    if !c1.has_next_char('|') {
        return (Vec::new(), cursor);
    }
    let c2 = c1.skip_char('|');
    let c3 = skip_whitespace(c2);
    proof {
        lemma_ws_bound(c2@);
        lemma_followed_trans(cursor, c1, c2);
        lemma_followed_trans(cursor, c2, c3);
    }
    match NameToken.parse(c3) {
        Err(_) => (Vec::new(), cursor),
        Ok((name, c4)) => {
            let (mut more, c5) = mixed_names(c4);
            proof {
                lemma_rest_after(c3@, consumed(c3, c4));
                lemma_followed_trans(cursor, c3, c4);
                lemma_followed_trans(cursor, c4, c5);
            }
            let ghost m = more@;
            let mut v = Vec::new();
            v.push(name.to_owned());
            v.append(&mut more);
            proof {
                assert(v@ =~= seq![v@[0]] + m);
                assert(strings_view(v@) =~= seq![name@] + strings_view(m));
            }
            (v, c5)
        },
    }
}

/// Mixed Content
///
///     Mixed ::= '(' S? '#PCDATA' (S? '|' S? Name)* S? ')*' | '(' S? '#PCDATA' S? ')'
///
/// read as `'(' S? '#PCDATA'? (S? '|' S? Name)* ')'`, then `'*'`, or no `'*'` where no
/// name came.
pub open spec fn spec_mixed(s: Seq<char>) -> Result<(ContentSpecV, nat), XmlErrorV> {
    if !(s.len() > 0 && s[0] == '(') {
        Err(XmlErrorV::ExpectToken("("@))
    } else {
        let r1 = s.skip(1);
        let w1 = ws(r1);
        let r2 = rest_after(r1, w1);
        let p: nat = if is_prefix("#PCDATA"@, r2) {
            "#PCDATA"@.len()
        } else {
            0
        };
        let r3 = rest_after(r2, p);
        let (names, n) = spec_mixed_names(r3);
        let r4 = rest_after(r3, n);
        if !(r4.len() > 0 && r4[0] == ')') {
            Err(XmlErrorV::ExpectToken(")"@))
        } else {
            let r5 = r4.skip(1);
            let k = 1 + w1 + p + n + 1;
            if r5.len() > 0 && r5[0] == '*' {
                Ok((ContentSpecV::Mixed(names), k + 1))
            } else if names.len() == 0 {
                Ok((ContentSpecV::PCData, k))
            } else {
                Err(XmlErrorV::DtdError(XmlDtdError::SyntaxError))
            }
        }
    }
}

fn mixed<'a>(cursor: Cursor<'a>) -> (r: Result<(ContentSpec, Cursor<'a>), XmlError>)
    ensures
        match r {
            Ok((v, c)) => read_ok(cursor, c, content_spec_view(v), spec_mixed(cursor@)),
            Err(e) => read_err(e, spec_mixed(cursor@)),
        },
{
    if !cursor.has_next_char('(') {
        return Err(XmlError::ExpectToken("("));
    }
    let c1 = cursor.skip_char('(');
    let c2 = skip_whitespace(c1);
    proof {
        lemma_ws_bound(c1@);
        lemma_followed_trans(cursor, c1, c2);
    }
    let c3 = match expect_token(c2, "#PCDATA") {
        Ok((_, c3)) => c3,
        Err(_) => {
            proof {
                crate::parser::cursor::lemma_stay(c2);
            }
            c2
        },
    };
    let (names, c4) = mixed_names(c3);
    proof {
        lemma_followed_trans(cursor, c2, c3);
        lemma_followed_trans(cursor, c3, c4);
        lemma_rest_after(c2@, consumed(c2, c3));
        lemma_rest_after(c3@, consumed(c3, c4));
    }
    if !c4.has_next_char(')') {
        return Err(XmlError::ExpectToken(")"));
    }
    let c5 = c4.skip_char(')');
    proof {
        lemma_followed_trans(cursor, c4, c5);
    }
    if c5.has_next_char('*') {
        let c6 = c5.skip_char('*');
        proof {
            lemma_followed_trans(cursor, c5, c6);
        }
        Ok((ContentSpec::Mixed(names), c6))
    } else if names.len() == 0 {
        Ok((ContentSpec::PCData, c5))
    } else {
        Err(XmlError::DtdError(XmlDtdError::SyntaxError))
    }
}

/// `children ::= (choice | seq) ('?' | '*' | '+')?`
pub open spec fn spec_children(s: Seq<char>) -> Result<(ContentSpecV, nat), XmlErrorV> {
    let entry: Result<(ContentParticleEntryV, nat), XmlErrorV> = match spec_group(s, '|') {
        Ok((cps, n)) => Ok((ContentParticleEntryV::Choice(cps), n)),
        Err(_) => match spec_group(s, ',') {
            Ok((cps, n)) => Ok((ContentParticleEntryV::Sequence(cps), n)),
            Err(_) => Err(XmlErrorV::DtdError(XmlDtdError::SyntaxError)),
        },
    };
    match entry {
        Err(e) => Err(e),
        Ok((e, n)) => {
            let (rep, m) = spec_repetition(rest_after(s, n));
            Ok((ContentSpecV::Children(ContentParticleV { entry: e, repetition: rep }), n + m))
        },
    }
}

fn children<'a>(cursor: Cursor<'a>) -> (r: Result<(ContentSpec, Cursor<'a>), XmlError>)
    ensures
        match r {
            Ok((v, c)) => read_ok(cursor, c, content_spec_view(v), spec_children(cursor@)),
            Err(e) => read_err(e, spec_children(cursor@)),
        },
{
    let (entry, c1) = match parse_group(cursor, '|') {
        Ok((cps, c1)) => (ContentParticleEntry::Choice(cps), c1),
        Err(_) => match parse_group(cursor, ',') {
            Ok((cps, c1)) => (ContentParticleEntry::Sequence(cps), c1),
            Err(_) => {
                return Err(XmlError::DtdError(XmlDtdError::SyntaxError));
            },
        },
    };
    let (rep, c2) = repetition(c1);
    proof {
        lemma_rest_after(cursor@, consumed(cursor, c1));
        lemma_followed_trans(cursor, c1, c2);
    }
    let cp = ContentParticle { entry, repetition: rep };
    proof {
        crate::dtd::lemma_cp_view_group(cp);
    }
    Ok((ContentSpec::Children(cp), c2))
}

/// `contentspec ::= 'EMPTY' | 'ANY' | Mixed | children`
pub open spec fn spec_content_spec(s: Seq<char>) -> Result<(ContentSpecV, nat), XmlErrorV> {
    if is_prefix("EMPTY"@, s) {
        Ok((ContentSpecV::Empty, "EMPTY"@.len()))
    } else if is_prefix("ANY"@, s) {
        Ok((ContentSpecV::Any, "ANY"@.len()))
    } else {
        match spec_mixed(s) {
            Ok(r) => Ok(r),
            Err(_) => match spec_children(s) {
                Ok(r) => Ok(r),
                Err(_) => Err(XmlErrorV::DtdError(XmlDtdError::SyntaxError)),
            },
        }
    }
}

fn content_spec<'a>(cursor: Cursor<'a>) -> (r: Result<(ContentSpec, Cursor<'a>), XmlError>)
    ensures
        match r {
            Ok((v, c)) => read_ok(cursor, c, content_spec_view(v), spec_content_spec(cursor@)),
            Err(e) => read_err(e, spec_content_spec(cursor@)),
        },
{
    if let Ok((_, c)) = expect_token(cursor, "EMPTY") {
        return Ok((ContentSpec::Empty, c));
    }
    if let Ok((_, c)) = expect_token(cursor, "ANY") {
        return Ok((ContentSpec::Any, c));
    }
    if let Ok(r) = mixed(cursor) {
        return Ok(r);
    }
    match children(cursor) {
        Ok(r) => Ok(r),
        Err(_) => Err(XmlError::DtdError(XmlDtdError::SyntaxError)),
    }
}

/// Element Type Declaration
///
///     elementdecl ::= '<!ELEMENT' S Name S contentspec S? '>'
pub open spec fn spec_element_decl(s: Seq<char>) -> Result<((Seq<char>, ContentSpecV), nat), XmlErrorV> {
    if !is_prefix("<!ELEMENT"@, s) {
        Err(XmlErrorV::ExpectToken("<!ELEMENT"@))
    } else {
        let r1 = s.skip("<!ELEMENT"@.len() as int);
        match spec_s(r1) {
            Err(e) => Err(e),
            Ok((_, w1)) => {
                let r2 = r1.skip(w1 as int);
                match spec_name(r2) {
                    Err(e) => Err(e),
                    Ok((name, n)) => {
                        let r3 = r2.skip(n as int);
                        match spec_s(r3) {
                            Err(e) => Err(e),
                            Ok((_, w2)) => {
                                let r4 = r3.skip(w2 as int);
                                match spec_content_spec(r4) {
                                    Err(e) => Err(e),
                                    Ok((cs, k)) => {
                                        let r5 = r4.skip(k as int);
                                        let w3 = ws(r5);
                                        if is_prefix(">"@, r5.skip(w3 as int)) {
                                            Ok(
                                                (
                                                    (name, cs),
                                                    "<!ELEMENT"@.len() + w1 + n + w2 + k + w3 + 1,
                                                ),
                                            )
                                        } else {
                                            Err(XmlErrorV::ExpectToken(">"@))
                                        }
                                    },
                                }
                            },
                        }
                    },
                }
            },
        }
    }
}

fn element_decl<'a>(cursor: Cursor<'a>) -> (r: Result<(Element, Cursor<'a>), XmlError>)
    ensures
        match r {
            Ok((v, c)) => read_ok(
                cursor,
                c,
                (v.name@, content_spec_view(v.content_spec)),
                spec_element_decl(cursor@),
            ),
            Err(e) => read_err(e, spec_element_decl(cursor@)),
        },
{
    let (_, c1) = expect_token(cursor, "<!ELEMENT")?;
    let (_, c2) = SToken.parse(c1)?;
    let (name, c3) = NameToken.parse(c2)?;
    let (_, c4) = SToken.parse(c3)?;
    proof {
        lemma_followed_trans(cursor, c1, c2);
        lemma_followed_trans(cursor, c2, c3);
        lemma_followed_trans(cursor, c3, c4);
    }
    let (content_spec, c5) = content_spec(c4)?;
    let c6 = skip_whitespace(c5);
    let (_, c7) = expect_token(c6, ">")?;
    proof {
        reveal_strlit(">");
        lemma_followed_trans(cursor, c4, c5);
        lemma_followed_trans(cursor, c5, c6);
        lemma_followed_trans(cursor, c6, c7);
    }
    Ok((Element { name: name.to_owned(), content_spec }, c7))
}

/// The declaration of an optional entry.
pub open spec fn opt_markup_view(d: Option<MarkupDeclEntry>) -> Option<MarkupDeclV> {
    match d {
        Some(d) => Some(markup_decl_view(d)),
        None => None,
    }
}

/// Markup Declaration or Declaration Separator
///
///     markupdecl ::= elementdecl | AttlistDecl | EntityDecl | NotationDecl | PI | Comment
///     DeclSep ::= PEReference | S
///
/// of which white space, element and entity declarations are read.
pub open spec fn spec_markup_decl(s: Seq<char>) -> Result<(Option<MarkupDeclV>, nat), XmlErrorV> {
    match spec_s(s) {
        Ok((_, w)) => Ok((None, w)),
        Err(_) => match spec_element_decl(s) {
            Ok(((name, cs), n)) => Ok((Some(MarkupDeclV::Element(name, cs)), n)),
            Err(_) => match spec_ge_decl(s) {
                Ok(((name, d), n)) => Ok((Some(MarkupDeclV::GeneralEntity(name, d)), n)),
                Err(_) => match spec_pe_decl(s) {
                    Ok(((name, d), n)) => Ok((Some(MarkupDeclV::ParameterEntity(name, d)), n)),
                    Err(_) => Err(XmlErrorV::UnexpectedDtdEntry),
                },
            },
        },
    }
}

fn markup_decl<'a>(cursor: Cursor<'a>) -> (r: Result<(Option<MarkupDeclEntry>, Cursor<'a>), XmlError>)
    ensures
        match r {
            Ok((v, c)) => read_ok(cursor, c, opt_markup_view(v), spec_markup_decl(cursor@)),
            Err(e) => read_err(e, spec_markup_decl(cursor@)),
        },
{
    if let Ok((_, c)) = SToken.parse(cursor) {
        return Ok((None, c));
    }
    if let Ok((element, c)) = element_decl(cursor) {
        return Ok((Some(MarkupDeclEntry::Element(element)), c));
    }
    if let Ok((entity, c)) = ge_decl(cursor) {
        return Ok((Some(MarkupDeclEntry::GeneralEntity(entity)), c));
    }
    if let Ok((entity, c)) = pe_decl(cursor) {
        return Ok((Some(MarkupDeclEntry::ParameterEntity(entity)), c));
    }
    Err(XmlError::UnexpectedDtdEntry)
}

/// Internal Subset
///
///     intSubset ::= (markupdecl | DeclSep)*
pub open spec fn spec_int_subset(s: Seq<char>) -> (Seq<MarkupDeclV>, nat)
    decreases s.len(),
{
    match spec_markup_decl(s) {
        Ok((d, n)) => if 0 < n <= s.len() {
            let (more, m) = spec_int_subset(s.skip(n as int));
            (
                match d {
                    Some(x) => seq![x] + more,
                    None => more,
                },
                n + m,
            )
        } else {
            (Seq::empty(), 0)
        },
        Err(_) => (Seq::empty(), 0),
    }
}

fn int_subset<'a>(cursor: Cursor<'a>) -> (r: (Vec<MarkupDeclEntry>, Cursor<'a>))
    ensures
        cursor.followed_by(r.1),
        spec_int_subset(cursor@) == (markup_decls_view(r.0@), consumed(cursor, r.1)),
    decreases cursor@.len(),
{
    proof {
        crate::parser::cursor::lemma_stay(cursor);
        assert(markup_decls_view(Seq::<MarkupDeclEntry>::empty()) =~= Seq::<MarkupDeclV>::empty());
    }
    match markup_decl(cursor) {
        Err(_) => (Vec::new(), cursor),
        Ok((d, c1)) => {
            proof {
                crate::text::lemma_blen_ge_len(cursor@.take(consumed(cursor, c1) as int));
            }
            if c1.offset() == cursor.offset() {
                return (Vec::new(), cursor);
            }
            let (mut more, c2) = int_subset(c1);
            proof {
                lemma_followed_trans(cursor, c1, c2);
            }
            let ghost m = more@;
            match d {
                Some(x) => {
                    let mut v = Vec::new();
                    v.push(x);
                    v.append(&mut more);
                    proof {
                        assert(v@ =~= seq![v@[0]] + m);
                        assert(markup_decls_view(v@) =~= seq![markup_decl_view(v@[0])] + markup_decls_view(m));
                    }
                    (v, c2)
                },
                None => (more, c2),
            }
        },
    }
}

/// `(S ExternalID)?`
pub open spec fn spec_opt_external_id(s: Seq<char>) -> (Option<ExternalIdV>, nat) {
    match spec_s(s) {
        Ok((_, w)) => match spec_external_id(s.skip(w as int)) {
            Ok((e, m)) => (Some(e), w + m),
            Err(_) => (None, 0nat),
        },
        Err(_) => (None, 0nat),
    }
}

fn opt_external_id<'a>(cursor: Cursor<'a>) -> (r: (Option<ExternalId>, Cursor<'a>))
    ensures
        cursor.followed_by(r.1),
        spec_opt_external_id(cursor@) == (crate::dtd::opt_external_id_view(r.0), consumed(cursor, r.1)),
{
    proof {
        crate::parser::cursor::lemma_stay(cursor);
    }
    match SToken.parse(cursor) {
        Ok((_, cs)) => match ExternalIdToken.parse(cs) {
            Ok((e, c)) => {
                proof {
                    lemma_followed_trans(cursor, cs, c);
                }
                (Some(e), c)
            },
            Err(_) => (None, cursor),
        },
        Err(_) => (None, cursor),
    }
}

/// `('[' intSubset ']' S?)?`
pub open spec fn spec_opt_int_subset(s: Seq<char>) -> (Option<Seq<MarkupDeclV>>, nat) {
    if s.len() > 0 && s[0] == '[' {
        let (decls, d) = spec_int_subset(s.skip(1));
        let r = rest_after(s.skip(1), d);
        if r.len() > 0 && r[0] == ']' {
            (Some(decls), 1 + d + 1 + ws(r.skip(1)))
        } else {
            (None, 0nat)
        }
    } else {
        (None, 0nat)
    }
}

fn opt_int_subset<'a>(cursor: Cursor<'a>) -> (r: (Option<IntSubset>, Cursor<'a>))
    ensures
        cursor.followed_by(r.1),
        spec_opt_int_subset(cursor@) == (crate::dtd::opt_subset_view(r.0), consumed(cursor, r.1)),
{
    proof {
        crate::parser::cursor::lemma_stay(cursor);
    }
    if !cursor.has_next_char('[') {
        return (None, cursor);
    }
    let cb = cursor.skip_char('[');
    let (decls, cd) = int_subset(cb);
    proof {
        lemma_rest_after(cb@, consumed(cb, cd));
    }
    if !cd.has_next_char(']') {
        return (None, cursor);
    }
    let ce = cd.skip_char(']');
    let cf = skip_whitespace(ce);
    proof {
        lemma_followed_trans(cursor, cb, cd);
        lemma_followed_trans(cursor, cd, ce);
        lemma_followed_trans(cursor, ce, cf);
    }
    (Some(IntSubset::new(decls)), cf)
}

/// Document Type Declaration
///
///     doctypedecl ::= '<!DOCTYPE' S Name (S ExternalID)? S? ('[' intSubset ']' S?)? '>'
pub open spec fn spec_doctypedecl(s: Seq<char>) -> Result<(DocTypeDeclV, nat), XmlErrorV> {
    if !is_prefix("<!DOCTYPE"@, s) {
        Err(XmlErrorV::ExpectToken("<!DOCTYPE"@))
    } else {
        let r1 = s.skip("<!DOCTYPE"@.len() as int);
        match spec_s(r1) {
            Err(e) => Err(e),
            Ok((_, w1)) => {
                let r2 = r1.skip(w1 as int);
                match spec_name(r2) {
                    Err(e) => Err(e),
                    Ok((name, n)) => {
                        let r3 = r2.skip(n as int);
                        let (external_id, k) = spec_opt_external_id(r3);
                        let r4 = r3.skip(k as int);
                        let w2 = ws(r4);
                        let r5 = r4.skip(w2 as int);
                        let (subset, j) = spec_opt_int_subset(r5);
                        if is_prefix(">"@, r5.skip(j as int)) {
                            Ok(
                                (
                                    DocTypeDeclV { name, external_id, int_subset: subset },
                                    "<!DOCTYPE"@.len() + w1 + n + k + w2 + j + 1,
                                ),
                            )
                        } else {
                            Err(XmlErrorV::ExpectToken(">"@))
                        }
                    },
                }
            },
        }
    }
}

/// Document Type Declaration: `'<!DOCTYPE' S Name (S ExternalID)? S? ('[' intSubset ']' S?)? '>'`
pub struct DocTypeDeclToken;

impl<'a> Parser<'a> for DocTypeDeclToken {
    type Attribute = DocTypeDecl;

    type Error = XmlError;

    open spec fn ready(&self) -> bool {
        true
    }

    open spec fn parses(&self, input: Seq<char>, res: Result<(DocTypeDecl, nat), XmlError>) -> bool {
        agrees(res, spec_doctypedecl(input))
    }

    fn parse(&self, cursor: Cursor<'a>) -> (res: Result<(DocTypeDecl, Cursor<'a>), XmlError>) {
        let (_, c1) = expect_token(cursor, "<!DOCTYPE")?;
        let (_, c2) = SToken.parse(c1)?;
        let (name, c3) = NameToken.parse(c2)?;
        let (external_id, c4) = opt_external_id(c3);
        let c5 = skip_whitespace(c4);
        let (subset, c6) = opt_int_subset(c5);
        proof {
            lemma_followed_trans(cursor, c1, c2);
            lemma_followed_trans(cursor, c2, c3);
            lemma_followed_trans(cursor, c3, c4);
            lemma_followed_trans(cursor, c4, c5);
            lemma_followed_trans(cursor, c5, c6);
        }
        let (_, c7) = expect_token(c6, ">")?;
        proof {
            reveal_strlit(">");
            lemma_followed_trans(cursor, c6, c7);
        }
        Ok((DocTypeDecl::new(name.to_owned(), external_id, subset), c7))
    }
}

} // verus!

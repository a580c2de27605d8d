//! The encoding of a document: from its byte order mark, or from the XML declaration
//! read byte by byte, and the decoding of the document's bytes with encoding_rs.
use std::borrow::Cow;
use vstd::prelude::*;
use vstd::string::StringExecFns;

use encoding_rs::Encoding;

use crate::events::{XmlDecl, XmlError, XmlErrorV};
use crate::reader::machine::char_string;

verus! {

broadcast use vstd::string::group_string_axioms;

#[verifier::external_type_specification]
#[verifier::external_body]
pub struct ExEncoding(Encoding);

/// Where a byte stream stands: the position of the next byte to read, and the byte read
/// ahead, if any.
pub struct StreamV {
    pub pos: nat,
    pub peeked: Option<u8>,
}

/// A result with its error by its contents.
pub open spec fn res_view<T>(r: Result<T, XmlError>) -> Result<T, XmlErrorV> {
    match r {
        Ok(v) => Ok(v),
        Err(e) => Err(e@),
    }
}

/// XML white space.
pub open spec fn ws_byte(b: u8) -> bool {
    b == 0x20 || b == 0x09 || b == 0x0A || b == 0x0D
}

/// The number of white space bytes at the start of `t`.
pub open spec fn ws_bytes(t: Seq<u8>) -> nat
    decreases t.len(),
{
    if t.len() > 0 && ws_byte(t[0]) {
        1 + ws_bytes(t.drop_first())
    } else {
        0
    }
}

proof fn lemma_ws_bytes(t: Seq<u8>, k: int)
    requires
        0 <= k <= t.len(),
        forall|j: int| 0 <= j < k ==> ws_byte(#[trigger] t[j]),
        k < t.len() ==> !ws_byte(t[k]),
    ensures
        ws_bytes(t) == k,
    decreases k,
{
    if k > 0 {
        let u = t.drop_first();
        assert forall|j: int| 0 <= j < k - 1 implies ws_byte(#[trigger] u[j]) by {
            assert(u[j] == t[j + 1]);
        }
        lemma_ws_bytes(u, k - 1);
    }
}

/// Reading the next byte.
pub open spec fn sp_advance(b: Seq<u8>, s: StreamV) -> (StreamV, Result<u8, XmlErrorV>) {
    if s.pos < b.len() {
        (StreamV { pos: s.pos + 1, ..s }, Ok(b[s.pos as int]))
    } else {
        (s, Err(XmlErrorV::UnexpectedEof))
    }
}

/// Looking at the next byte: the one read ahead, or the next one read and kept.
pub open spec fn sp_peek(b: Seq<u8>, s: StreamV) -> (StreamV, Result<u8, XmlErrorV>) {
    match s.peeked {
        Some(c) => (s, Ok(c)),
        None => if s.pos < b.len() {
            (StreamV { pos: s.pos + 1, peeked: Some(b[s.pos as int]) }, Ok(b[s.pos as int]))
        } else {
            (s, Err(XmlErrorV::UnexpectedEof))
        },
    }
}

/// Taking the next byte: the one read ahead, or the next one read.
pub open spec fn sp_take(b: Seq<u8>, s: StreamV) -> (StreamV, Result<u8, XmlErrorV>) {
    match s.peeked {
        Some(c) => (StreamV { peeked: None, ..s }, Ok(c)),
        None => sp_advance(b, s),
    }
}

/// Passing over white space: nothing where the byte read ahead is not white space;
/// otherwise the bytes are read up to and with the first that is not, which is kept, and
/// their number is given.
pub open spec fn sp_skip_ws(b: Seq<u8>, s: StreamV) -> (StreamV, Result<nat, XmlErrorV>) {
    if s.peeked matches Some(c) && !ws_byte(c) {
        (s, Ok(0))
    } else {
        let k = ws_bytes(b.skip(s.pos as int));
        if s.pos + k < b.len() {
            (StreamV { pos: s.pos + k + 1, peeked: Some(b[(s.pos + k) as int]) }, Ok(k + 1))
        } else if k == 0 {
            (s, Err(XmlErrorV::UnexpectedEof))
        } else {
            (StreamV { pos: b.len(), peeked: Some(b[b.len() - 1]) }, Err(XmlErrorV::UnexpectedEof))
        }
    }
}

/// Reading the bytes of a literal, each looked at and passed.
pub open spec fn sp_literal(b: Seq<u8>, s: StreamV, lit: Seq<u8>, token: Seq<char>) -> (StreamV, Result<(), XmlErrorV>)
    decreases lit.len(),
{
    if lit.len() == 0 {
        (s, Ok(()))
    } else {
        let (s1, r) = sp_peek(b, s);
        match r {
            Err(e) => (s1, Err(e)),
            Ok(c) => if c != lit[0] {
                (s1, Err(XmlErrorV::ExpectToken(token)))
            } else {
                sp_literal(b, StreamV { peeked: None, ..s1 }, lit.drop_first(), token)
            },
        }
    }
}

/// `Eq ::= S? '=' S?`, read byte by byte.
pub open spec fn sp_eq(b: Seq<u8>, s: StreamV) -> (StreamV, Result<(), XmlErrorV>) {
    let (s1, r1) = sp_skip_ws(b, s);
    match r1 {
        Err(e) => (s1, Err(e)),
        Ok(_) => {
            let (s2, r2) = sp_literal(b, s1, vstd::utf8::encode_utf8("="@), "="@);
            match r2 {
                Err(e) => (s2, Err(e)),
                Ok(_) => {
                    let (s3, r3) = sp_skip_ws(b, s2);
                    match r3 {
                        Err(e) => (s3, Err(e)),
                        Ok(_) => (s3, Ok(())),
                    }
                },
            }
        },
    }
}

/// The first position from `from` at which `q` stands.
pub open spec fn find_byte(b: Seq<u8>, from: int, q: u8) -> Option<int>
    decreases b.len() - from,
{
    if from < 0 || from >= b.len() {
        None
    } else if b[from] == q {
        Some(from)
    } else {
        find_byte(b, from + 1, q)
    }
}

/// The bytes as characters of the same codes.
pub open spec fn latin1(t: Seq<u8>) -> Seq<char> {
    t.map_values(|c: u8| c as char)
}

/// A pseudo-attribute `name Eq ('...' | "...")`, read byte by byte: its value, each byte
/// taken as the character of the same code.
pub open spec fn sp_attribute(b: Seq<u8>, s: StreamV, name: Seq<char>) -> (StreamV, Result<Seq<char>, XmlErrorV>) {
    let (s1, r1) = sp_literal(b, s, vstd::utf8::encode_utf8(name), name);
    match r1 {
        Err(e) => (s1, Err(e)),
        Ok(_) => {
            let (s2, r2) = sp_eq(b, s1);
            match r2 {
                Err(e) => (s2, Err(e)),
                Ok(_) => {
                    let (s3, r3) = sp_take(b, s2);
                    match r3 {
                        Err(e) => (s3, Err(e)),
                        Ok(q) => if q == 0x27 || q == 0x22 {
                            match find_byte(b, s3.pos as int, q) {
                                Some(p) => (
                                    StreamV { pos: (p + 1) as nat, peeked: None },
                                    Ok(latin1(b.subrange(s3.pos as int, p))),
                                ),
                                None => (StreamV { pos: b.len(), peeked: None }, Err(XmlErrorV::UnexpectedEof)),
                            }
                        } else {
                            (s3, Err(XmlErrorV::ExpectToken("' or \""@)))
                        },
                    }
                },
            }
        },
    }
}

/// `standalone`, whose value must be `yes` or `no`.
pub open spec fn sp_standalone(b: Seq<u8>, s: StreamV) -> (StreamV, Result<bool, XmlErrorV>) {
    let (s1, r) = sp_attribute(b, s, "standalone"@);
    match r {
        Err(e) => (s1, Err(e)),
        Ok(v) => if v == "yes"@ {
            (s1, Ok(true))
        } else if v == "no"@ {
            (s1, Ok(false))
        } else {
            (s1, Err(XmlErrorV::ExpectToken("yes or no"@)))
        },
    }
}

/// What follows `standalone` or the encoding in the declaration: white space and `?>`.
pub open spec fn sp_decl_end(
    b: Seq<u8>,
    s: StreamV,
    version: Seq<char>,
    encoding: Option<Seq<char>>,
    standalone: Option<bool>,
) -> (StreamV, Result<(Seq<char>, Option<Seq<char>>, Option<bool>), XmlErrorV>) {
    let (s1, r1) = sp_skip_ws(b, s);
    match r1 {
        Err(e) => (s1, Err(e)),
        Ok(_) => {
            let (s2, r2) = sp_literal(b, s1, vstd::utf8::encode_utf8("?>"@), "?>"@);
            match r2 {
                Err(e) => (s2, Err(e)),
                Ok(_) => (s2, Ok((version, encoding, standalone))),
            }
        },
    }
}

/// The pseudo-attributes after the version: an encoding and `standalone`, each after
/// white space, where they come.
pub open spec fn sp_decl_rest(b: Seq<u8>, s: StreamV, version: Seq<char>) -> (StreamV, Result<(Seq<char>, Option<Seq<char>>, Option<bool>), XmlErrorV>) {
    let (s1, r1) = sp_peek(b, s);
    match r1 {
        Err(e) => (s1, Err(e)),
        Ok(c) => if !ws_byte(c) {
            sp_decl_end(b, s1, version, None, None)
        } else {
            let (s2, r2) = sp_skip_ws(b, s1);
            match r2 {
                Err(e) => (s2, Err(e)),
                Ok(_) => {
                    let (s3, r3) = sp_peek(b, s2);
                    match r3 {
                        Err(e) => (s3, Err(e)),
                        Ok(d) => if d == 0x65 {
                            let (s4, r4) = sp_attribute(b, s3, "encoding"@);
                            match r4 {
                                Err(e) => (s4, Err(e)),
                                Ok(enc) => {
                                    let (s5, r5) = sp_peek(b, s4);
                                    match r5 {
                                        Err(e) => (s5, Err(e)),
                                        Ok(x) => if !ws_byte(x) {
                                            sp_decl_end(b, s5, version, Some(enc), None)
                                        } else {
                                            let (s6, r6) = sp_skip_ws(b, s5);
                                            match r6 {
                                                Err(e) => (s6, Err(e)),
                                                Ok(_) => {
                                                    let (s7, r7) = sp_peek(b, s6);
                                                    match r7 {
                                                        Err(e) => (s7, Err(e)),
                                                        Ok(y) => if y == 0x73 {
                                                            let (s8, r8) = sp_standalone(b, s7);
                                                            match r8 {
                                                                Err(e) => (s8, Err(e)),
                                                                Ok(sd) => sp_decl_end(b, s8, version, Some(enc), Some(sd)),
                                                            }
                                                        } else {
                                                            sp_decl_end(b, s7, version, Some(enc), None)
                                                        },
                                                    }
                                                },
                                            }
                                        },
                                    }
                                },
                            }
                        } else if d == 0x73 {
                            let (s4, r4) = sp_standalone(b, s3);
                            match r4 {
                                Err(e) => (s4, Err(e)),
                                Ok(sd) => sp_decl_end(b, s4, version, None, Some(sd)),
                            }
                        } else {
                            sp_decl_end(b, s3, version, None, None)
                        },
                    }
                },
            }
        },
    }
}

/// The XML declaration read byte by byte: `<?xml`, white space, the version, which must
/// be `1.0`, then an encoding and `standalone` where they come, and `?>`.
pub open spec fn sp_xml_decl(b: Seq<u8>, s: StreamV) -> (StreamV, Result<(Seq<char>, Option<Seq<char>>, Option<bool>), XmlErrorV>) {
    let (s1, r1) = sp_literal(b, s, vstd::utf8::encode_utf8("<?xml"@), "<?xml"@);
    match r1 {
        Err(e) => (s1, Err(e)),
        Ok(_) => {
            let (s2, r2) = sp_skip_ws(b, s1);
            match r2 {
                Err(e) => (s2, Err(e)),
                Ok(n) => if n == 0 {
                    (s2, Err(XmlErrorV::ExpectedWhitespace))
                } else {
                    let (s3, r3) = sp_attribute(b, s2, "version"@);
                    match r3 {
                        Err(e) => (s3, Err(e)),
                        Ok(v) => if v != "1.0"@ {
                            (s3, Err(XmlErrorV::UnsupportedVersion(v)))
                        } else {
                            sp_decl_rest(b, s3, v)
                        },
                    }
                },
            }
        },
    }
}

/// The UTF-8 bytes of ASCII text are its character codes, one byte each.
proof fn lemma_ascii_bytes(s: Seq<char>)
    requires
        forall|i: int| 0 <= i < s.len() ==> (#[trigger] s[i] as u32) < 0x80,
    ensures
        vstd::utf8::encode_utf8(s).len() == s.len(),
        forall|i: int| 0 <= i < s.len() ==> #[trigger] vstd::utf8::encode_utf8(s)[i] as u32 == s[i] as u32,
    decreases s.len(),
{
    if s.len() > 0 {
        let x = s[0] as u32;
        assert(x < 0x80);
        assert((x & 0x7F) as u8 as u32 == x) by (bit_vector)
            requires
                x < 0x80,
        ;
        let t = s.drop_first();
        assert forall|i: int| 0 <= i < t.len() implies (#[trigger] t[i] as u32) < 0x80 by {
            assert(t[i] == s[i + 1]);
        }
        lemma_ascii_bytes(t);
        let e = vstd::utf8::encode_utf8(s);
        assert(e == vstd::utf8::encode_scalar(x) + vstd::utf8::encode_utf8(t));
        assert(vstd::utf8::encode_scalar(x) =~= seq![(x & 0x7F) as u8]);
        assert forall|i: int| 0 <= i < s.len() implies #[trigger] e[i] as u32 == s[i] as u32 by {
            if i > 0 {
                assert(e[i] == vstd::utf8::encode_utf8(t)[i - 1]);
                assert(t[i - 1] == s[i]);
            }
        }
    }
}

/// The bytes of the words of a declaration after its version.
proof fn lemma_decl_words()
    ensures
        vstd::utf8::encode_utf8("encoding"@).len() == 8,
        vstd::utf8::encode_utf8("encoding"@)[0] == 0x65,
        vstd::utf8::encode_utf8("="@) == seq![0x3Du8],
        vstd::utf8::encode_utf8("?>"@).len() == 2,
        vstd::utf8::encode_utf8("?>"@)[0] == 0x3F,
{
    reveal_strlit("encoding");
    reveal_strlit("=");
    reveal_strlit("?>");
    let w = "encoding"@;
    assert(w =~= seq!['e', 'n', 'c', 'o', 'd', 'i', 'n', 'g']);
    assert forall|i: int| 0 <= i < w.len() implies (#[trigger] w[i] as u32) < 0x80 by {
        if i == 0 {} else if i == 1 {} else if i == 2 {} else if i == 3 {} else if i == 4 {} else if i == 5 {} else if i == 6 {} else {}
    }
    lemma_ascii_bytes(w);
    let e = "="@;
    assert(e =~= seq!['=']);
    assert forall|i: int| 0 <= i < e.len() implies (#[trigger] e[i] as u32) < 0x80 by {}
    lemma_ascii_bytes(e);
    assert(vstd::utf8::encode_utf8(e) =~= seq![0x3Du8]);
    let q = "?>"@;
    assert(q =~= seq!['?', '>']);
    assert forall|i: int| 0 <= i < q.len() implies (#[trigger] q[i] as u32) < 0x80 by {
        if i == 0 {} else {}
    }
    lemma_ascii_bytes(q);
}

/// A literal whose bytes stand at the position, nothing read ahead, is read whole.
proof fn lemma_sp_literal(b: Seq<u8>, s: StreamV, lit: Seq<u8>, token: Seq<char>)
    requires
        s.peeked is None,
        s.pos as int + lit.len() <= b.len(),
        b.subrange(s.pos as int, s.pos as int + lit.len()) == lit,
    ensures
        sp_literal(b, s, lit, token) == (StreamV { pos: (s.pos + lit.len()) as nat, peeked: None }, Ok::<(), XmlErrorV>(())),
    decreases lit.len(),
{
    if lit.len() > 0 {
        assert(b.subrange(s.pos as int, s.pos as int + lit.len())[0] == b[s.pos as int]);
        let s1 = StreamV { pos: (s.pos + 1) as nat, peeked: None };
        assert(b.subrange(s1.pos as int, s1.pos as int + lit.drop_first().len()) =~= lit.drop_first()) by {
            assert forall|j: int| 0 <= j < lit.drop_first().len() implies b.subrange(
                s1.pos as int,
                s1.pos as int + lit.drop_first().len(),
            )[j] == lit.drop_first()[j] by {
                assert(b.subrange(s.pos as int, s.pos as int + lit.len())[j + 1] == b[s.pos as int + j + 1]);
            }
        }
        lemma_sp_literal(b, s1, lit.drop_first(), token);
    } else {
        assert(StreamV { pos: (s.pos + lit.len()) as nat, peeked: None } == s);
    }
}

/// A literal whose first byte was read ahead, the rest standing at the position.
proof fn lemma_sp_literal_peeked(b: Seq<u8>, s: StreamV, lit: Seq<u8>, token: Seq<char>)
    requires
        lit.len() > 0,
        s.peeked == Some(lit[0]),
        s.pos as int + lit.len() - 1 <= b.len(),
        b.subrange(s.pos as int, s.pos as int + lit.len() - 1) == lit.drop_first(),
    ensures
        sp_literal(b, s, lit, token) == (StreamV { pos: (s.pos + lit.len() - 1) as nat, peeked: None }, Ok::<(), XmlErrorV>(())),
{
    lemma_sp_literal(b, StreamV { peeked: None, ..s }, lit.drop_first(), token);
}

/// `k` white space bytes, then one that is not, which is read ahead.
proof fn lemma_sp_skip_ws(b: Seq<u8>, s: StreamV, k: nat)
    requires
        s.peeked is None || (s.peeked matches Some(c) && ws_byte(c)),
        s.pos as int + k < b.len(),
        forall|j: int| s.pos <= j < s.pos as int + k ==> ws_byte(#[trigger] b[j]),
        !ws_byte(b[s.pos as int + k]),
    ensures
        sp_skip_ws(b, s) == (StreamV { pos: (s.pos + k + 1) as nat, peeked: Some(b[s.pos as int + k]) }, Ok::<nat, XmlErrorV>(k + 1)),
{
    let t = b.skip(s.pos as int);
    assert forall|j: int| 0 <= j < k implies ws_byte(#[trigger] t[j]) by {
        assert(t[j] == b[s.pos as int + j]);
    }
    assert(t[k as int] == b[s.pos as int + k]);
    lemma_ws_bytes(t, k as int);
}

/// The first `q` from `from` on stands `len` bytes further.
proof fn lemma_find_byte(b: Seq<u8>, from: int, q: u8, len: nat)
    requires
        0 <= from,
        from + len < b.len(),
        forall|j: int| from <= j < from + len ==> #[trigger] b[j] != q,
        b[from + len] == q,
    ensures
        find_byte(b, from, q) == Some(from + len),
    decreases len,
{
    if len > 0 {
        lemma_find_byte(b, from + 1, q, (len - 1) as nat);
    }
}

/// A pseudo-attribute whose name's first byte was read ahead, with `=` right after the
/// name and a quoted value: its value, and the stream after the closing quote.
proof fn lemma_sp_attribute(b: Seq<u8>, s: StreamV, name: Seq<char>, q: u8, value: Seq<u8>)
    requires
        vstd::utf8::encode_utf8(name).len() > 0,
        s.peeked == Some(vstd::utf8::encode_utf8(name)[0]),
        q == 0x22 || q == 0x27,
        forall|j: int| 0 <= j < value.len() ==> #[trigger] value[j] != q,
        s.pos as int + vstd::utf8::encode_utf8(name).len() + 2 + value.len() <= b.len(),
        b.subrange(s.pos as int, s.pos as int + vstd::utf8::encode_utf8(name).len() + 2 + value.len()) == vstd::utf8::encode_utf8(
            name,
        ).drop_first() + seq![0x3Du8] + seq![q] + value + seq![q],
    ensures
        sp_attribute(b, s, name) == (
            StreamV { pos: (s.pos + vstd::utf8::encode_utf8(name).len() + 2 + value.len()) as nat, peeked: None },
            Ok::<Seq<char>, XmlErrorV>(latin1(value)),
        ),
{
    let nb = vstd::utf8::encode_utf8(name);
    let p: int = s.pos as int;
    let lay = nb.drop_first() + seq![0x3Du8] + seq![q] + value + seq![q];
    let m = nb.len() - 1;
    assert forall|j: int| 0 <= j < lay.len() implies b[p + j] == #[trigger] lay[j] by {
        assert(b.subrange(p, p + lay.len())[j] == b[p + j]);
    }
    assert(b.subrange(p, p + m) =~= nb.drop_first()) by {
        assert forall|j: int| 0 <= j < m implies b.subrange(p, p + m)[j] == nb.drop_first()[j] by {
            assert(lay[j] == nb.drop_first()[j]);
        }
    }
    lemma_sp_literal_peeked(b, s, nb, name);
    let p1: int = p + m;
    assert(lay[m] == 0x3D);
    assert(b[p1] == 0x3D);
    lemma_sp_skip_ws(b, StreamV { pos: p1 as nat, peeked: None }, 0);
    lemma_decl_words();
    reveal_strlit("=");
    let eq = vstd::utf8::encode_utf8("="@);
    assert(b.subrange(p1 + 1, p1 + 1 + eq.len() - 1) =~= eq.drop_first());
    lemma_sp_literal_peeked(b, StreamV { pos: (p1 + 1) as nat, peeked: Some(0x3Du8) }, eq, "="@);
    assert(lay[m + 1] == q);
    assert(b[p1 + 1] == q);
    lemma_sp_skip_ws(b, StreamV { pos: (p1 + 1) as nat, peeked: None }, 0);
    let from = p1 + 2;
    assert forall|j: int| from <= j < from + value.len() implies #[trigger] b[j] != q by {
        assert(lay[j - p] == value[j - from]);
        assert(b[p + (j - p)] == lay[j - p]);
    }
    assert(lay[m + 2 + value.len()] == q);
    assert(b[from + value.len()] == q);
    lemma_find_byte(b, from, q, value.len());
    assert(b.subrange(from, from + value.len()) =~= value) by {
        assert forall|j: int| 0 <= j < value.len() implies b.subrange(from, from + value.len())[j] == value[j] by {
            assert(lay[m + 2 + j] == value[j]);
            assert(b[p + (m + 2 + j)] == lay[m + 2 + j]);
        }
    }
}

/// `?>` with its `?` read ahead, nothing but white space before it having been passed.
proof fn lemma_sp_decl_end(b: Seq<u8>, s: StreamV, version: Seq<char>, encoding: Option<Seq<char>>, standalone: Option<bool>)
    requires
        s.peeked == Some(0x3Fu8),
        s.pos < b.len(),
        b[s.pos as int] == 0x3E,
    ensures
        sp_decl_end(b, s, version, encoding, standalone).1 == Ok::<(Seq<char>, Option<Seq<char>>, Option<bool>), XmlErrorV>(
            (version, encoding, standalone),
        ),
{
    lemma_decl_words();
    reveal_strlit("?>");
    let end = vstd::utf8::encode_utf8("?>"@);
    assert("?>"@ =~= seq!['?', '>']);
    assert(end[1] as u32 == '>' as u32) by {
        lemma_ascii_bytes_two();
    }
    assert(b.subrange(s.pos as int, s.pos as int + 1) =~= end.drop_first());
    lemma_sp_literal_peeked(b, s, end, "?>"@);
}

proof fn lemma_ascii_bytes_two()
    ensures
        vstd::utf8::encode_utf8("?>"@)[1] == 0x3E,
{
    reveal_strlit("?>");
    let q = "?>"@;
    assert(q =~= seq!['?', '>']);
    assert forall|i: int| 0 <= i < q.len() implies (#[trigger] q[i] as u32) < 0x80 by {
        if i == 0 {} else {}
    }
    lemma_ascii_bytes(q);
}

/// The encoding read from an XML declaration is kept whatever white space follows it:
/// after the version, white space, `encoding=`, a quoted label, any white space and
/// `?>` give the declaration with that label (each byte as the character of its code)
/// as its encoding and no `standalone`.
#[verifier::rlimit(60)]
#[verifier::spinoff_prover]
pub proof fn lemma_decl_keeps_encoding(
    b: Seq<u8>,
    s: StreamV,
    version: Seq<char>,
    pre: Seq<u8>,
    q: u8,
    label: Seq<u8>,
    post: Seq<u8>,
)
    requires
        s.peeked is None,
        pre.len() > 0,
        forall|j: int| 0 <= j < pre.len() ==> ws_byte(#[trigger] pre[j]),
        forall|j: int| 0 <= j < post.len() ==> ws_byte(#[trigger] post[j]),
        q == 0x22 || q == 0x27,
        forall|j: int| 0 <= j < label.len() ==> #[trigger] label[j] != q,
        s.pos as int + pre.len() + 13 + label.len() + post.len() <= b.len(),
        b.subrange(s.pos as int, s.pos as int + pre.len() + 13 + label.len() + post.len()) == pre + vstd::utf8::encode_utf8(
            "encoding"@,
        ) + seq![0x3Du8] + seq![q] + label + seq![q] + post + vstd::utf8::encode_utf8("?>"@),
    ensures
        sp_decl_rest(b, s, version).1 == Ok::<(Seq<char>, Option<Seq<char>>, Option<bool>), XmlErrorV>(
            (version, Some(latin1(label)), None),
        ),
{
    lemma_decl_words();
    lemma_ascii_bytes_two();
    let enc = vstd::utf8::encode_utf8("encoding"@);
    let end = vstd::utf8::encode_utf8("?>"@);
    let lay = pre + enc + seq![0x3Du8] + seq![q] + label + seq![q] + post + end;
    let p: int = s.pos as int;
    assert(lay.len() == pre.len() + 13 + label.len() + post.len());
    assert forall|j: int| 0 <= j < lay.len() implies b[p + j] == #[trigger] lay[j] by {
        assert(b.subrange(p, p + lay.len())[j] == b[p + j]);
    }
    // the first white space byte is read ahead
    assert(lay[0] == pre[0]);
    let s1 = StreamV { pos: (p + 1) as nat, peeked: Some(b[p]) };
    // the rest of the white space, then `e`
    let a1: int = p + pre.len();
    assert forall|j: int| p + 1 <= j < a1 implies ws_byte(#[trigger] b[j]) by {
        assert(lay[j - p] == pre[j - p]);
        assert(b[p + (j - p)] == lay[j - p]);
    }
    assert(lay[pre.len() as int] == enc[0]);
    assert(b[a1] == 0x65);
    lemma_sp_skip_ws(b, s1, (pre.len() - 1) as nat);
    let s2 = StreamV { pos: (a1 + 1) as nat, peeked: Some(0x65u8) };
    // `encoding="label"`
    let vstart: int = a1 + 1;
    assert(b.subrange(vstart, vstart + enc.len() + 2 + label.len()) =~= enc.drop_first() + seq![0x3Du8]
        + seq![q] + label + seq![q]) by {
        assert forall|j: int| 0 <= j < enc.len() + 2 + label.len() implies b.subrange(
            vstart as int,
            vstart + enc.len() + 2 + label.len(),
        )[j] == (enc.drop_first() + seq![0x3Du8] + seq![q] + label + seq![q])[j] by {
            assert(lay[pre.len() + 1 + j] == (enc.drop_first() + seq![0x3Du8] + seq![q] + label + seq![q])[j]);
            assert(b[p + (pre.len() + 1 + j)] == lay[pre.len() + 1 + j]);
        }
    }
    lemma_sp_attribute(b, s2, "encoding"@, q, label);
    let a6: int = vstart + enc.len() + 2 + label.len();
    assert(a6 == p + pre.len() + 11 + label.len());
    let a7: int = a6 + post.len();
    assert(lay[a7 - p] == end[0]);
    assert(b[a7] == 0x3F);
    assert(lay[a7 - p + 1] == end[1]);
    assert(b[a7 + 1] == 0x3E);
    if post.len() == 0 {
        lemma_sp_decl_end(b, StreamV { pos: (a7 + 1) as nat, peeked: Some(0x3Fu8) }, version, Some(latin1(label)), None);
    } else {
        assert(lay[a6 - p] == post[0]);
        assert(ws_byte(b[a6]));
        let s5 = StreamV { pos: (a6 + 1) as nat, peeked: Some(b[a6]) };
        assert forall|j: int| a6 + 1 <= j < a7 implies ws_byte(#[trigger] b[j]) by {
            assert(lay[j - p] == post[j - a6]);
            assert(b[p + (j - p)] == lay[j - p]);
        }
        lemma_sp_skip_ws(b, s5, (post.len() - 1) as nat);
        lemma_sp_decl_end(b, StreamV { pos: (a7 + 1) as nat, peeked: Some(0x3Fu8) }, version, Some(latin1(label)), None);
    }
}

/// The bytes of the words that start an XML declaration.
proof fn lemma_decl_start_words()
    ensures
        vstd::utf8::encode_utf8("<?xml"@).len() == 5,
        vstd::utf8::encode_utf8("<?xml"@)[0] == 0x3C,
        vstd::utf8::encode_utf8("version"@).len() == 7,
        vstd::utf8::encode_utf8("version"@)[0] == 0x76,
        latin1(seq![0x31u8, 0x2Eu8, 0x30u8]) == "1.0"@,
{
    reveal_strlit("<?xml");
    reveal_strlit("version");
    reveal_strlit("1.0");
    let a = "<?xml"@;
    assert(a =~= seq!['<', '?', 'x', 'm', 'l']);
    assert forall|i: int| 0 <= i < a.len() implies (#[trigger] a[i] as u32) < 0x80 by {
        if i == 0 {} else if i == 1 {} else if i == 2 {} else if i == 3 {} else {}
    }
    lemma_ascii_bytes(a);
    let v = "version"@;
    assert(v =~= seq!['v', 'e', 'r', 's', 'i', 'o', 'n']);
    assert forall|i: int| 0 <= i < v.len() implies (#[trigger] v[i] as u32) < 0x80 by {
        if i == 0 {} else if i == 1 {} else if i == 2 {} else if i == 3 {} else if i == 4 {} else if i == 5 {} else {}
    }
    lemma_ascii_bytes(v);
    let one = seq![0x31u8, 0x2Eu8, 0x30u8];
    assert(0x31u8 as char == '1');
    assert(0x2Eu8 as char == '.');
    assert(0x30u8 as char == '0');
    assert(latin1(one) =~= "1.0"@);
}

/// A whole declaration `<?xml` S `version="1.0"` S `encoding="label"` S? `?>` at the start
/// of a document is read with that label as its encoding, and the document's encoding is
/// the one the label names.
pub proof fn lemma_document_declared_encoding(
    b: Seq<u8>,
    s1: Seq<u8>,
    q1: u8,
    pre: Seq<u8>,
    q: u8,
    label: Seq<u8>,
    post: Seq<u8>,
    tail: Seq<u8>,
)
    requires
        s1.len() > 0,
        forall|j: int| 0 <= j < s1.len() ==> ws_byte(#[trigger] s1[j]),
        q1 == 0x22 || q1 == 0x27,
        pre.len() > 0,
        forall|j: int| 0 <= j < pre.len() ==> ws_byte(#[trigger] pre[j]),
        forall|j: int| 0 <= j < post.len() ==> ws_byte(#[trigger] post[j]),
        q == 0x22 || q == 0x27,
        forall|j: int| 0 <= j < label.len() ==> #[trigger] label[j] != q,
        b == vstd::utf8::encode_utf8("<?xml"@) + s1 + vstd::utf8::encode_utf8("version"@) + seq![0x3Du8] + seq![q1]
            + seq![0x31u8, 0x2Eu8, 0x30u8] + seq![q1] + pre + vstd::utf8::encode_utf8("encoding"@) + seq![0x3Du8]
            + seq![q] + label + seq![q] + post + vstd::utf8::encode_utf8("?>"@) + tail,
    ensures
        sp_xml_decl(b, StreamV { pos: 0, peeked: None }).1 == Ok::<(Seq<char>, Option<Seq<char>>, Option<bool>), XmlErrorV>(
            ("1.0"@, Some(latin1(label)), None),
        ),
        spec_guess(b) == match label_encoding(vstd::utf8::encode_utf8(latin1(label))) {
            Some(name) => Ok::<Seq<char>, XmlErrorV>(name),
            None => Err(XmlErrorV::UnsupportedEncoding(latin1(label))),
        },
{
    lemma_document_declaration(b, s1, q1, pre, q, label, post, tail);
    lemma_decl_start_words();
    assert(b[0] == 0x3C);
    assert(!has_bom(b));
}

/// The declaration part of `lemma_document_declared_encoding`.
#[verifier::rlimit(60)]
#[verifier::spinoff_prover]
proof fn lemma_document_declaration(
    b: Seq<u8>,
    s1: Seq<u8>,
    q1: u8,
    pre: Seq<u8>,
    q: u8,
    label: Seq<u8>,
    post: Seq<u8>,
    tail: Seq<u8>,
)
    requires
        s1.len() > 0,
        forall|j: int| 0 <= j < s1.len() ==> ws_byte(#[trigger] s1[j]),
        q1 == 0x22 || q1 == 0x27,
        pre.len() > 0,
        forall|j: int| 0 <= j < pre.len() ==> ws_byte(#[trigger] pre[j]),
        forall|j: int| 0 <= j < post.len() ==> ws_byte(#[trigger] post[j]),
        q == 0x22 || q == 0x27,
        forall|j: int| 0 <= j < label.len() ==> #[trigger] label[j] != q,
        b == vstd::utf8::encode_utf8("<?xml"@) + s1 + vstd::utf8::encode_utf8("version"@) + seq![0x3Du8] + seq![q1]
            + seq![0x31u8, 0x2Eu8, 0x30u8] + seq![q1] + pre + vstd::utf8::encode_utf8("encoding"@) + seq![0x3Du8]
            + seq![q] + label + seq![q] + post + vstd::utf8::encode_utf8("?>"@) + tail,
    ensures
        sp_xml_decl(b, StreamV { pos: 0, peeked: None }).1 == Ok::<(Seq<char>, Option<Seq<char>>, Option<bool>), XmlErrorV>(
            ("1.0"@, Some(latin1(label)), None),
        ),
{
    lemma_decl_start_words();
    lemma_decl_words();
    reveal_strlit("<?xml");
    let xb = vstd::utf8::encode_utf8("<?xml"@);
    let vb = vstd::utf8::encode_utf8("version"@);
    let one = seq![0x31u8, 0x2Eu8, 0x30u8];
    let head = xb + s1 + vb + seq![0x3Du8] + seq![q1] + one + seq![q1];
    let rest = pre + vstd::utf8::encode_utf8("encoding"@) + seq![0x3Du8] + seq![q] + label + seq![q] + post
        + vstd::utf8::encode_utf8("?>"@);
    assert(b =~= head + rest + tail);
    let k: int = s1.len() as int;
    // `<?xml`
    assert(b.subrange(0, 5) =~= xb);
    lemma_sp_literal(b, StreamV { pos: 0, peeked: None }, xb, "<?xml"@);
    // white space, then `v`
    assert forall|j: int| 5 <= j < 5 + k implies ws_byte(#[trigger] b[j]) by {
        assert(b[j] == s1[j - 5]);
    }
    assert(b[5 + k] == vb[0]);
    lemma_sp_skip_ws(b, StreamV { pos: 5, peeked: None }, k as nat);
    // `version="1.0"`
    let sv = StreamV { pos: (6 + k) as nat, peeked: Some(vb[0]) };
    assert(b.subrange(6 + k, 6 + k + 7 + 2 + 3) =~= vb.drop_first() + seq![0x3Du8] + seq![q1] + one + seq![q1]);
    assert forall|j: int| 0 <= j < one.len() implies #[trigger] one[j] != q1 by {
        if j == 0 {} else if j == 1 {} else {}
    }
    lemma_sp_attribute(b, sv, "version"@, q1, one);
    // the rest
    let s3 = StreamV { pos: (18 + k) as nat, peeked: None };
    assert(head.len() == 18 + k);
    assert(b.subrange(18 + k, 18 + k + rest.len()) =~= rest);
    lemma_decl_keeps_encoding(b, s3, "1.0"@, pre, q, label, post);
}

/// A stream of bytes over a document, with one byte read ahead.
pub struct BytesStream<'a> {
    bytes: &'a [u8],
    pos: usize,
    offset: usize,
    peeked: Option<u8>,
}

impl<'a> View for BytesStream<'a> {
    type V = StreamV;

    closed spec fn view(&self) -> StreamV {
        StreamV { pos: self.pos as nat, peeked: self.peeked }
    }
}

/// XML white space.
fn is_ws_byte(b: u8) -> (r: bool)
    ensures
        r == ws_byte(b),
{
    b == 0x20 || b == 0x09 || b == 0x0A || b == 0x0D
}

impl<'a> BytesStream<'a> {
    /// The bytes of the stream.
    pub closed spec fn spec_bytes(&self) -> Seq<u8> {
        self.bytes@
    }

    /// The offset the stream was made with.
    pub closed spec fn spec_offset(&self) -> usize {
        self.offset
    }

    /// The stream reads no further than its bytes.
    pub closed spec fn wf(&self) -> bool {
        self.pos <= self.bytes@.len()
    }

    pub fn new(bytes: &'a [u8], offset: usize) -> (r: Self)
        ensures
            r.wf(),
            r.spec_bytes() == bytes@,
            r.spec_offset() == offset,
            r@ == (StreamV { pos: 0, peeked: None }),
    {
        BytesStream { bytes, pos: 0, offset, peeked: None }
    }

    fn advance(&mut self) -> (r: Result<u8, XmlError>)
        requires
            old(self).wf(),
        ensures
            final(self).wf(),
            final(self).spec_bytes() == old(self).spec_bytes(),
            final(self).spec_offset() == old(self).spec_offset(),
            (final(self)@, res_view(r)) == sp_advance(old(self).spec_bytes(), old(self)@),
    {
        if self.pos < self.bytes.len() {
            let c = self.bytes[self.pos];
            self.pos = self.pos + 1;
            Ok(c)
        } else {
            Err(XmlError::UnexpectedEof)
        }
    }

    /// The next byte, read ahead and kept.
    pub fn peek(&mut self) -> (r: Result<u8, XmlError>)
        requires
            old(self).wf(),
        ensures
            final(self).wf(),
            final(self).spec_bytes() == old(self).spec_bytes(),
            final(self).spec_offset() == old(self).spec_offset(),
            (final(self)@, res_view(r)) == sp_peek(old(self).spec_bytes(), old(self)@),
    {
        if let Some(c) = self.peeked {
            Ok(c)
        } else {
            let c = self.advance()?;
            self.peeked = Some(c);
            Ok(c)
        }
    }

    /// The next byte, taken.
    pub fn take(&mut self) -> (r: Result<u8, XmlError>)
        requires
            old(self).wf(),
        ensures
            final(self).wf(),
            final(self).spec_bytes() == old(self).spec_bytes(),
            final(self).spec_offset() == old(self).spec_offset(),
            (final(self)@, res_view(r)) == sp_take(old(self).spec_bytes(), old(self)@),
    {
        if let Some(c) = self.peeked {
            self.peeked = None;
            Ok(c)
        } else {
            self.advance()
        }
    }

    /// Drops the byte read ahead.
    pub fn discard(&mut self)
        ensures
            final(self)@ == (StreamV { peeked: None, ..old(self)@ }),
            final(self).spec_bytes() == old(self).spec_bytes(),
            final(self).spec_offset() == old(self).spec_offset(),
            old(self).wf() ==> final(self).wf(),
    {
        self.peeked = None;
    }

    /// Reads while `f` accepts the bytes: nothing where it refuses the byte read ahead;
    /// otherwise up to and with the first byte it refuses, which is kept read ahead, and
    /// the number of bytes read is given.
    pub fn discard_while<F: Fn(u8) -> bool>(&mut self, f: F) -> (r: Result<usize, XmlError>)
        requires
            old(self).wf(),
            forall|x: u8| #[trigger] call_requires(f, (x,)),
        ensures
            final(self).wf(),
            final(self).spec_bytes() == old(self).spec_bytes(),
            final(self).spec_offset() == old(self).spec_offset(),
            ({
                let b = old(self).spec_bytes();
                let s = old(self)@;
                match r {
                    Ok(n) => if n == 0 {
                        s.peeked matches Some(c) && call_ensures(f, (c,), false) && final(self)@ == s
                    } else {
                        &&& final(self)@.pos == s.pos + n
                        &&& final(self)@.peeked == Some(b[final(self)@.pos - 1])
                        &&& (forall|j: int| s.pos <= j < final(self)@.pos - 1 ==> call_ensures(f, (#[trigger] b[j],), true))
                        &&& call_ensures(f, (b[final(self)@.pos - 1],), false)
                        &&& (s.peeked matches Some(c) ==> call_ensures(f, (c,), true))
                    },
                    Err(e) => {
                        &&& e@ == XmlErrorV::UnexpectedEof
                        &&& final(self)@.pos == b.len()
                        &&& (forall|j: int| s.pos <= j < b.len() ==> call_ensures(f, (#[trigger] b[j],), true))
                        &&& (s.peeked matches Some(c) ==> call_ensures(f, (c,), true))
                        &&& (final(self)@.pos > s.pos ==> final(self)@.peeked == Some(b[b.len() - 1]))
                        &&& (final(self)@.pos == s.pos ==> final(self)@ == s)
                    },
                }
            }),
    {
        let mut n: usize = 0;
        if let Some(c) = self.peeked {
            if !f(c) {
                return Ok(n);
            }
        }
        let ghost s = self@;
        let ghost b = self.bytes@;
        loop
            invariant
                self.wf(),
                self.bytes@ == b,
                b == old(self).spec_bytes(),
                self.spec_offset() == old(self).spec_offset(),
                s == old(self)@,
                forall|x: u8| #[trigger] call_requires(f, (x,)),
                self.pos == s.pos + n,
                n > 0 ==> self.peeked == Some(b[self.pos - 1]),
                n == 0 ==> self@ == s,
                forall|j: int| s.pos <= j < self.pos ==> call_ensures(f, (#[trigger] b[j],), true),
                s.peeked matches Some(c) ==> call_ensures(f, (c,), true),
            decreases b.len() - self.pos,
        {
            let c = match self.advance() {
                Ok(c) => c,
                Err(e) => {
                    return Err(e);
                },
            };
            n = n + 1;
            self.peeked = Some(c);
            if !f(c) {
                return Ok(n);
            }
        }
    }

    /// The offset the stream was made with.
    pub fn offset(&self) -> (r: usize)
        ensures
            r == self.spec_offset(),
    {
        self.offset
    }

    /// Passes over white space.
    fn skip_ws(&mut self) -> (r: Result<usize, XmlError>)
        requires
            old(self).wf(),
        ensures
            final(self).wf(),
            final(self).spec_bytes() == old(self).spec_bytes(),
            final(self).spec_offset() == old(self).spec_offset(),
            ({
                let sp = sp_skip_ws(old(self).spec_bytes(), old(self)@);
                &&& final(self)@ == sp.0
                &&& match r {
                    Ok(n) => sp.1 == Ok::<nat, XmlErrorV>(n as nat),
                    Err(e) => sp.1 == Err::<nat, XmlErrorV>(e@),
                }
            }),
    {
        let ghost b = self.bytes@;
        let ghost s = self@;
        let r = self.discard_while(is_ws_byte);
        proof {
            let t = b.skip(s.pos as int);
            match r {
                Ok(n) => {
                    if n > 0 {
                        let k = n - 1;
                        assert forall|j: int| 0 <= j < k implies ws_byte(#[trigger] t[j]) by {
                            assert(t[j] == b[s.pos + j]);
                        }
                        assert(t[k as int] == b[s.pos + k]);
                        lemma_ws_bytes(t, k as int);
                    }
                },
                Err(_) => {
                    assert forall|j: int| 0 <= j < t.len() implies ws_byte(#[trigger] t[j]) by {
                        assert(t[j] == b[s.pos + j]);
                    }
                    lemma_ws_bytes(t, t.len() as int);
                },
            }
        }
        r
    }
}


/// A literal, read byte by byte.
pub struct Literal(pub &'static str);

impl Literal {
    pub fn parse(&self, cursor: &mut BytesStream) -> (r: Result<(), XmlError>)
        requires
            old(cursor).wf(),
        ensures
            final(cursor).wf(),
            final(cursor).spec_bytes() == old(cursor).spec_bytes(),
            final(cursor).spec_offset() == old(cursor).spec_offset(),
            (final(cursor)@, res_view(r)) == sp_literal(
                old(cursor).spec_bytes(),
                old(cursor)@,
                vstd::utf8::encode_utf8(self.0@),
                self.0@,
            ),
    {
        let lit = self.0.as_bytes();
        let ghost b = cursor.spec_bytes();
        let ghost whole = sp_literal(b, cursor@, lit@, self.0@);
        let mut i: usize = 0;
        proof {
            assert(lit@.skip(0) =~= lit@);
        }
        while i < lit.len()
            invariant
                cursor.wf(),
                cursor.spec_bytes() == b,
                b == old(cursor).spec_bytes(),
                cursor.spec_offset() == old(cursor).spec_offset(),
                lit@ == vstd::utf8::encode_utf8(self.0@),
                whole == sp_literal(b, old(cursor)@, lit@, self.0@),
                i <= lit@.len(),
                whole == sp_literal(b, cursor@, lit@.skip(i as int), self.0@),
            decreases lit@.len() - i,
        {
            proof {
                assert(lit@.skip(i as int)[0] == lit@[i as int]);
                assert(lit@.skip(i as int).drop_first() =~= lit@.skip(i + 1));
            }
            let c = cursor.peek()?;
            if c != lit[i] {
                return Err(XmlError::ExpectToken(self.0));
            }
            cursor.discard();
            i = i + 1;
        }
        proof {
            assert(lit@.skip(i as int).len() == 0);
        }
        Ok(())
    }
}

/// White space, possibly none.
pub struct OptionalWhitespace;

impl OptionalWhitespace {
    pub fn parse(&self, cursor: &mut BytesStream) -> (r: Result<(), XmlError>)
        requires
            old(cursor).wf(),
        ensures
            final(cursor).wf(),
            final(cursor).spec_bytes() == old(cursor).spec_bytes(),
            final(cursor).spec_offset() == old(cursor).spec_offset(),
            final(cursor)@ == sp_skip_ws(old(cursor).spec_bytes(), old(cursor)@).0,
            r is Ok <==> sp_skip_ws(old(cursor).spec_bytes(), old(cursor)@).1 is Ok,
            r matches Err(e) ==> sp_skip_ws(old(cursor).spec_bytes(), old(cursor)@).1 == Err::<nat, XmlErrorV>(e@),
    {
        cursor.skip_ws()?;
        Ok(())
    }
}

/// White space, which must be there.
pub struct Whitespace;

impl Whitespace {
    pub fn parse(&self, cursor: &mut BytesStream) -> (r: Result<(), XmlError>)
        requires
            old(cursor).wf(),
        ensures
            final(cursor).wf(),
            final(cursor).spec_bytes() == old(cursor).spec_bytes(),
            final(cursor).spec_offset() == old(cursor).spec_offset(),
            final(cursor)@ == sp_skip_ws(old(cursor).spec_bytes(), old(cursor)@).0,
            match sp_skip_ws(old(cursor).spec_bytes(), old(cursor)@).1 {
                Ok(n) => if n == 0 {
                    r matches Err(e) && e@ == XmlErrorV::ExpectedWhitespace
                } else {
                    r is Ok
                },
                Err(e) => r matches Err(x) && x@ == e,
            },
    {
        let n = cursor.skip_ws()?;
        if n == 0 {
            return Err(XmlError::ExpectedWhitespace);
        }
        Ok(())
    }
}

/// `Eq ::= S? '=' S?`, read byte by byte.
struct EqSign;

impl EqSign {
    fn parse(&self, cursor: &mut BytesStream) -> (r: Result<(), XmlError>)
        requires
            old(cursor).wf(),
        ensures
            final(cursor).wf(),
            final(cursor).spec_bytes() == old(cursor).spec_bytes(),
            final(cursor).spec_offset() == old(cursor).spec_offset(),
            (final(cursor)@, res_view(r)) == sp_eq(old(cursor).spec_bytes(), old(cursor)@),
    {
        OptionalWhitespace.parse(cursor)?;
        Literal("=").parse(cursor)?;
        OptionalWhitespace.parse(cursor)?;
        Ok(())
    }
}

/// A pseudo-attribute of the XML declaration, read byte by byte.
struct PseudoAttribute(&'static str);

impl PseudoAttribute {
    fn parse(&self, cursor: &mut BytesStream) -> (r: Result<String, XmlError>)
        requires
            old(cursor).wf(),
        ensures
            final(cursor).wf(),
            final(cursor).spec_bytes() == old(cursor).spec_bytes(),
            final(cursor).spec_offset() == old(cursor).spec_offset(),
            ({
                let sp = sp_attribute(old(cursor).spec_bytes(), old(cursor)@, self.0@);
                &&& final(cursor)@ == sp.0
                &&& match r {
                    Ok(v) => sp.1 == Ok::<Seq<char>, XmlErrorV>(v@),
                    Err(e) => sp.1 == Err::<Seq<char>, XmlErrorV>(e@),
                }
            }),
    {
        Literal(self.0).parse(cursor)?;
        EqSign.parse(cursor)?;
        let q = cursor.take()?;
        if q != 0x27 && q != 0x22 {
            return Err(XmlError::ExpectToken("' or \""));
        }
        let ghost b = cursor.spec_bytes();
        let ghost start = cursor@.pos as int;
        let ghost whole = match find_byte(b, start, q) {
            Some(p) => (StreamV { pos: (p + 1) as nat, peeked: None }, Ok::<Seq<char>, XmlErrorV>(latin1(b.subrange(start, p)))),
            None => (StreamV { pos: b.len(), peeked: None }, Err::<Seq<char>, XmlErrorV>(XmlErrorV::UnexpectedEof)),
        };
        assert(whole == sp_attribute(old(cursor).spec_bytes(), old(cursor)@, self.0@));
        let mut result = String::new();
        proof {
            assert(latin1(b.subrange(start, start)) =~= Seq::<char>::empty());
        }
        loop
            invariant
                whole == sp_attribute(old(cursor).spec_bytes(), old(cursor)@, self.0@),
                whole == (match find_byte(b, start, q) {
                    Some(p) => (StreamV { pos: (p + 1) as nat, peeked: None }, Ok::<Seq<char>, XmlErrorV>(latin1(b.subrange(start, p)))),
                    None => (StreamV { pos: b.len(), peeked: None }, Err::<Seq<char>, XmlErrorV>(XmlErrorV::UnexpectedEof)),
                }),
                cursor.wf(),
                cursor.spec_bytes() == b,
                b == old(cursor).spec_bytes(),
                cursor.spec_offset() == old(cursor).spec_offset(),
                cursor@.peeked is None,
                0 <= start <= cursor@.pos <= b.len(),
                result@ == latin1(b.subrange(start, cursor@.pos as int)),
                find_byte(b, start, q) == find_byte(b, cursor@.pos as int, q),
            decreases b.len() - cursor@.pos,
        {
            let ghost p = cursor@.pos as int;
            let c = match cursor.take() {
                Ok(c) => c,
                Err(e) => {
                    return Err(e);
                },
            };
            if c == q {
                return Ok(result);
            }
            cursor.discard();
            let ch = char_string(c as char);
            result.append(ch.as_str());
            proof {
                assert(c == b[p]);
                assert(b.subrange(start, p + 1) =~= b.subrange(start, p).push(c));
                assert(latin1(b.subrange(start, p + 1)) =~= latin1(b.subrange(start, p)).push(c as char));
            }
        }
    }
}

/// The encoding named in the XML declaration.
fn parse_encoding(cursor: &mut BytesStream) -> (r: Result<String, XmlError>)
    requires
        old(cursor).wf(),
    ensures
        final(cursor).wf(),
        final(cursor).spec_bytes() == old(cursor).spec_bytes(),
        final(cursor).spec_offset() == old(cursor).spec_offset(),
        ({
            let sp = sp_attribute(old(cursor).spec_bytes(), old(cursor)@, "encoding"@);
            &&& final(cursor)@ == sp.0
            &&& match r {
                Ok(v) => sp.1 == Ok::<Seq<char>, XmlErrorV>(v@),
                Err(e) => sp.1 == Err::<Seq<char>, XmlErrorV>(e@),
            }
        }),
{
    PseudoAttribute("encoding").parse(cursor)
}

/// `standalone` in the XML declaration: `yes` or `no`.
fn parse_standalone(cursor: &mut BytesStream) -> (r: Result<bool, XmlError>)
    requires
        old(cursor).wf(),
    ensures
        final(cursor).wf(),
        final(cursor).spec_bytes() == old(cursor).spec_bytes(),
        final(cursor).spec_offset() == old(cursor).spec_offset(),
        (final(cursor)@, res_view(r)) == sp_standalone(old(cursor).spec_bytes(), old(cursor)@),
{
    let v = PseudoAttribute("standalone").parse(cursor)?;
    proof {
        reveal_strlit("yes");
        reveal_strlit("no");
    }
    if crate::reader::tokens::str_eq(v.as_str(), "yes") {
        Ok(true)
    } else if crate::reader::tokens::str_eq(v.as_str(), "no") {
        Ok(false)
    } else {
        Err(XmlError::ExpectToken("yes or no"))
    }
}

/// The view of a declaration.
pub open spec fn decl_triple(d: XmlDecl) -> (Seq<char>, Option<Seq<char>>, Option<bool>) {
    (d.version@, crate::events::opt_string_view(d.encoding), d.standalone)
}

/// The XML declaration, read byte by byte.
pub struct XmlDeclParser;

impl XmlDeclParser {
    fn parse_end(
        cursor: &mut BytesStream,
        version: String,
        encoding: Option<String>,
        standalone: Option<bool>,
    ) -> (r: Result<XmlDecl, XmlError>)
        requires
            old(cursor).wf(),
        ensures
            final(cursor).wf(),
            final(cursor).spec_bytes() == old(cursor).spec_bytes(),
            final(cursor).spec_offset() == old(cursor).spec_offset(),
            ({
                let sp = sp_decl_end(
                    old(cursor).spec_bytes(),
                    old(cursor)@,
                    version@,
                    crate::events::opt_string_view(encoding),
                    standalone,
                );
                &&& final(cursor)@ == sp.0
                &&& match r {
                    Ok(d) => sp.1 == Ok::<(Seq<char>, Option<Seq<char>>, Option<bool>), XmlErrorV>(decl_triple(d)),
                    Err(e) => sp.1 == Err::<(Seq<char>, Option<Seq<char>>, Option<bool>), XmlErrorV>(e@),
                }
            }),
    {
        OptionalWhitespace.parse(cursor)?;
        Literal("?>").parse(cursor)?;
        Ok(XmlDecl { version, encoding, standalone })
    }

    #[verifier::rlimit(40)]
    fn parse_rest(cursor: &mut BytesStream, version: String) -> (r: Result<XmlDecl, XmlError>)
        requires
            old(cursor).wf(),
        ensures
            final(cursor).wf(),
            final(cursor).spec_bytes() == old(cursor).spec_bytes(),
            final(cursor).spec_offset() == old(cursor).spec_offset(),
            ({
                let sp = sp_decl_rest(old(cursor).spec_bytes(), old(cursor)@, version@);
                &&& final(cursor)@ == sp.0
                &&& match r {
                    Ok(d) => sp.1 == Ok::<(Seq<char>, Option<Seq<char>>, Option<bool>), XmlErrorV>(decl_triple(d)),
                    Err(e) => sp.1 == Err::<(Seq<char>, Option<Seq<char>>, Option<bool>), XmlErrorV>(e@),
                }
            }),
    {
        let c = cursor.peek()?;
        if !is_ws_byte(c) {
            return Self::parse_end(cursor, version, None, None);
        }
        Whitespace.parse(cursor)?;
        let d = cursor.peek()?;
        if d == 0x65 {
            let encoding = parse_encoding(cursor)?;
            let x = cursor.peek()?;
            if !is_ws_byte(x) {
                return Self::parse_end(cursor, version, Some(encoding), None);
            }
            Whitespace.parse(cursor)?;
            let y = cursor.peek()?;
            if y == 0x73 {
                let standalone = parse_standalone(cursor)?;
                return Self::parse_end(cursor, version, Some(encoding), Some(standalone));
            }
            Self::parse_end(cursor, version, Some(encoding), None)
        } else if d == 0x73 {
            let standalone = parse_standalone(cursor)?;
            Self::parse_end(cursor, version, None, Some(standalone))
        } else {
            Self::parse_end(cursor, version, None, None)
        }
    }

    /// Reads `<?xml`, white space, the version, which must be `1.0`, an encoding and
    /// `standalone` where they come, and `?>`.
    pub fn parse(&self, cursor: &mut BytesStream) -> (r: Result<XmlDecl, XmlError>)
        requires
            old(cursor).wf(),
        ensures
            final(cursor).wf(),
            final(cursor).spec_bytes() == old(cursor).spec_bytes(),
            final(cursor).spec_offset() == old(cursor).spec_offset(),
            ({
                let sp = sp_xml_decl(old(cursor).spec_bytes(), old(cursor)@);
                &&& final(cursor)@ == sp.0
                &&& match r {
                    Ok(d) => sp.1 == Ok::<(Seq<char>, Option<Seq<char>>, Option<bool>), XmlErrorV>(decl_triple(d)),
                    Err(e) => sp.1 == Err::<(Seq<char>, Option<Seq<char>>, Option<bool>), XmlErrorV>(e@),
                }
            }),
    {
        Literal("<?xml").parse(cursor)?;
        let n = cursor.skip_ws()?;
        if n == 0 {
            return Err(XmlError::ExpectedWhitespace);
        }
        let version = PseudoAttribute("version").parse(cursor)?;
        proof {
            reveal_strlit("1.0");
        }
        if !crate::reader::tokens::str_eq(version.as_str(), "1.0") {
            return Err(XmlError::UnsupportedVersion(version));
        }
        Self::parse_rest(cursor, version)
    }
}

/// The input starts with the byte order mark of UTF-8, UTF-16LE or UTF-16BE.
pub open spec fn has_bom(b: Seq<u8>) -> bool {
    ||| (b.len() >= 3 && b[0] == 0xEF && b[1] == 0xBB && b[2] == 0xBF)
    ||| (b.len() >= 2 && b[0] == 0xFF && b[1] == 0xFE)
    ||| (b.len() >= 2 && b[0] == 0xFE && b[1] == 0xFF)
}

/// The name of the encoding whose byte order mark starts the input.
pub open spec fn bom_encoding_name(b: Seq<u8>) -> Seq<char> {
    if b.len() >= 3 && b[0] == 0xEF && b[1] == 0xBB && b[2] == 0xBF {
        "UTF-8"@
    } else if b.len() >= 2 && b[0] == 0xFF && b[1] == 0xFE {
        "UTF-16LE"@
    } else {
        "UTF-16BE"@
    }
}

/// An encoding of `encoding_rs` together with its name. Only the lookups below make
/// one, each from an encoding and that encoding's own `name()`, so the name stands for
/// the encoding.
#[derive(Clone, Copy, Debug)]
pub struct DocumentEncoding {
    encoding: &'static Encoding,
    name: &'static str,
}

impl View for DocumentEncoding {
    type V = Seq<char>;

    /// The encoding's name.
    closed spec fn view(&self) -> Seq<char> {
        self.name@
    }
}

impl DocumentEncoding {
    /// The encoding of `encoding_rs`.
    pub fn encoding(&self) -> &'static Encoding {
        self.encoding
    }

    /// The encoding's name.
    pub fn name(&self) -> (r: &'static str)
        ensures
            r@ == self@,
    {
        self.name
    }
}

/// `encoding_rs::Encoding::for_bom`, with `Encoding::name` of what it finds: UTF-8
/// after `EF BB BF` (a mark of 3 bytes), UTF-16LE after `FF FE` and UTF-16BE after
/// `FE FF` (2 bytes each), else none.
#[verifier::external_body]
fn encoding_for_bom(input: &[u8]) -> (r: Option<(DocumentEncoding, usize)>)
    ensures
        r is Some <==> has_bom(input@),
        r matches Some((e, n)) ==> e@ == bom_encoding_name(input@) && n == (if input@.len() >= 3
            && input@[0] == 0xEF { 3usize } else { 2usize }),
{
    match Encoding::for_bom(input) {
        Some((encoding, n)) => Some((DocumentEncoding { encoding, name: encoding.name() }, n)),
        None => None,
    }
}

/// The name of the encoding that `encoding_rs::Encoding::for_label` finds for a label,
/// or none where it knows no such label.
pub uninterp spec fn label_encoding(label: Seq<u8>) -> Option<Seq<char>>;

/// `encoding_rs::Encoding::for_label`, with `Encoding::name` of what it finds: the
/// encoding that a label names, where the label is known.
#[verifier::external_body]
fn encoding_for_label(label: &[u8]) -> (r: Option<DocumentEncoding>)
    ensures
        r is Some <==> label_encoding(label@) is Some,
        r matches Some(e) ==> label_encoding(label@) == Some(e@),
{
    match Encoding::for_label(label) {
        Some(encoding) => Some(DocumentEncoding { encoding, name: encoding.name() }),
        None => None,
    }
}

/// `encoding_rs::UTF_8`, whose name is `UTF-8`.
#[verifier::external_body]
fn utf8_encoding() -> (r: DocumentEncoding)
    ensures
        r@ == "UTF-8"@,
{
    DocumentEncoding { encoding: encoding_rs::UTF_8, name: encoding_rs::UTF_8.name() }
}

/// What `encoding_rs::Encoding::decode` gives for the encoding of a name and the
/// input: the text, the name of the encoding used and whether malformed sequences were
/// replaced.
pub uninterp spec fn decoded(encoding: Seq<char>, input: Seq<u8>) -> (Seq<char>, Seq<char>, bool);

/// `encoding_rs::Encoding::decode`: the text of the input in the encoding, the encoding
/// used and whether malformed sequences were replaced. A byte order mark at the start
/// of the input chooses the encoding used in place of the one given.
#[verifier::external_body]
fn decode_bytes<'a>(encoding: &DocumentEncoding, input: &'a [u8]) -> (r: (Cow<'a, str>, DocumentEncoding, bool))
    ensures
        (r.0@, r.1@, r.2) == decoded(encoding@, input@),
        r.1@ == (if has_bom(input@) { bom_encoding_name(input@) } else { encoding@ }),
{
    let (text, used, errors) = encoding.encoding.decode(input);
    (text, DocumentEncoding { encoding: used, name: used.name() }, errors)
}

/// The name of the encoding of a document: that of its byte order mark; else the one
/// its XML declaration names; UTF-8 where there is no declaration or the declaration
/// names none. Or the error: a declaration that cannot be read, or an encoding that is
/// not known.
pub open spec fn spec_guess(input: Seq<u8>) -> Result<Seq<char>, XmlErrorV> {
    if has_bom(input) {
        Ok(bom_encoding_name(input))
    } else {
        match sp_xml_decl(input, StreamV { pos: 0, peeked: None }).1 {
            Err(XmlErrorV::ExpectToken(t)) if t == "<?xml"@ => Ok("UTF-8"@),
            Err(e) => Err(e),
            Ok((_, Some(enc), _)) => match label_encoding(vstd::utf8::encode_utf8(enc)) {
                Some(name) => Ok(name),
                None => Err(XmlErrorV::UnsupportedEncoding(enc)),
            },
            Ok((_, None, _)) => Ok("UTF-8"@),
        }
    }
}

/// The encoding a document is decoded in: the one given, which must be known, or else
/// the one guessed.
pub open spec fn spec_chosen(input: Seq<u8>, known_encoding: Option<Seq<char>>) -> Result<Seq<char>, XmlErrorV> {
    match known_encoding {
        Some(enc) => match label_encoding(vstd::utf8::encode_utf8(enc)) {
            Some(name) => Ok(name),
            None => Err(XmlErrorV::UnsupportedEncoding(enc)),
        },
        None => spec_guess(input),
    }
}

/// The encoding of a document: that of its byte order mark; else the one its XML
/// declaration names; UTF-8 where there is no declaration or the declaration names
/// none. A declaration that cannot be read, or an encoding that is not known, fails.
pub fn guess_encoding<'a>(input: &'a [u8]) -> (r: Result<DocumentEncoding, XmlError>)
    ensures
        match spec_guess(input@) {
            Ok(name) => r matches Ok(e) && e@ == name,
            Err(e) => r matches Err(x) && x@ == e,
        },
{
    if let Some((enc, _)) = encoding_for_bom(input) {
        return Ok(enc);
    }
    let mut cursor = BytesStream::new(input, 0);
    let decl = match XmlDeclParser.parse(&mut cursor) {
        Err(XmlError::ExpectToken(t)) => {
            proof {
                reveal_strlit("<?xml");
            }
            if crate::reader::tokens::str_eq(t, "<?xml") {
                return Ok(utf8_encoding());
            }
            return Err(XmlError::ExpectToken(t));
        },
        Err(err) => {
            return Err(err);
        },
        Ok(decl) => decl,
    };
    match decl.encoding {
        Some(enc) => match encoding_for_label(enc.as_str().as_bytes()) {
            Some(e) => Ok(e),
            None => Err(XmlError::UnsupportedEncoding(enc)),
        },
        None => Ok(utf8_encoding()),
    }
}

/// The label of an optional encoding by its text.
pub open spec fn opt_text(s: Option<&str>) -> Option<Seq<char>> {
    match s {
        Some(t) => Some(t@),
        None => None,
    }
}

/// Decodes a document: in the encoding given, which must be known, or else in the one
/// guessed. Gives the text, the name of the encoding used (that of a byte order mark
/// where the input starts with one) and whether malformed sequences were replaced.
pub fn decode<'a>(input: &'a [u8], known_encoding: Option<&str>) -> (r: Result<(Cow<'a, str>, &'static str, bool), XmlError>)
    ensures
        match spec_chosen(input@, opt_text(known_encoding)) {
            Ok(name) => r matches Ok((text, used, errors)) && (text@, used@, errors) == decoded(name, input@)
                && used@ == (if has_bom(input@) { bom_encoding_name(input@) } else { name }),
            Err(e) => r matches Err(x) && x@ == e,
        },
{
    let encoding = match known_encoding {
        Some(enc) => match encoding_for_label(enc.as_bytes()) {
            Some(e) => e,
            None => {
                return Err(XmlError::UnsupportedEncoding(enc.to_owned()));
            },
        },
        None => guess_encoding(input)?,
    };
    let (res, used, errors) = decode_bytes(&encoding, input);
    Ok((res, used.name(), errors))
}
} // verus!

//! Text primitives: the UTF-8 length of character sequences, splitting a
//! `&str` after a number of characters, and scans over its characters.
use vstd::prelude::*;
use vstd::string::*;
use vstd::utf8::*;
use vstd::std_specs::iter::IteratorSpec;

use crate::chars::{char_is_pubid, char_is_whitespace, in_char_table, in_continue_char_table, XmlAsciiChar, XmlChar};
use crate::reader::chars::{content_char, is_ascii_content_char};



verus! {

broadcast use vstd::string::group_string_axioms;

/// Number of bytes of the UTF-8 encoding of `s`.
pub open spec fn blen(s: Seq<char>) -> nat {
    encode_utf8(s).len()
}

/// `p` is a prefix of `s`.
pub open spec fn is_prefix(p: Seq<char>, s: Seq<char>) -> bool {
    p.len() <= s.len() && s.take(p.len() as int) == p
}

/// The rest of `s` after its first `n` characters (nothing where there are fewer).
pub open spec fn rest_after(s: Seq<char>, n: nat) -> Seq<char> {
    if n <= s.len() {
        s.skip(n as int)
    } else {
        Seq::empty()
    }
}

pub proof fn lemma_encode_utf8_concat(a: Seq<char>, b: Seq<char>)
    ensures
        encode_utf8(a + b) == encode_utf8(a) + encode_utf8(b),
    decreases a.len(),
{
    if a.len() == 0 {
        assert(a + b =~= b);
        assert(encode_utf8(a) =~= Seq::<u8>::empty());
        assert(encode_utf8(a) + encode_utf8(b) =~= encode_utf8(b));
    } else {
        lemma_encode_utf8_concat(a.drop_first(), b);
        assert((a + b).drop_first() =~= a.drop_first() + b);
        assert((a + b)[0] == a[0]);
        assert(encode_utf8(a + b) =~= encode_scalar(a[0] as u32) + encode_utf8(
            a.drop_first() + b,
        ));
        assert(encode_utf8(a + b) =~= encode_utf8(a) + encode_utf8(b));
    }
}

pub proof fn lemma_encode_single(c: char)
    ensures
        encode_utf8(seq![c]) == encode_scalar(c as u32),
{
    assert(seq![c].drop_first() =~= Seq::<char>::empty());
    assert(encode_utf8(Seq::<char>::empty()) =~= Seq::<u8>::empty());
    assert(encode_utf8(seq![c]) =~= encode_scalar(c as u32) + Seq::<u8>::empty());
}

pub proof fn lemma_blen_split(s: Seq<char>, k: int)
    requires
        0 <= k <= s.len(),
    ensures
        encode_utf8(s) == encode_utf8(s.take(k)) + encode_utf8(s.skip(k)),
        blen(s) == blen(s.take(k)) + blen(s.skip(k)),
{
    assert(s =~= s.take(k) + s.skip(k));
    lemma_encode_utf8_concat(s.take(k), s.skip(k));
}

pub proof fn lemma_blen_step(s: Seq<char>, k: int)
    requires
        0 <= k < s.len(),
    ensures
        blen(s.take(k + 1)) == blen(s.take(k)) + encode_scalar(s[k] as u32).len(),
        blen(s.take(k)) <= blen(s.take(k + 1)) <= blen(s),
{
    assert(s.take(k + 1) =~= s.take(k) + seq![s[k]]);
    lemma_encode_utf8_concat(s.take(k), seq![s[k]]);
    lemma_encode_single(s[k]);
    lemma_blen_split(s, k + 1);
}

pub proof fn lemma_blen_mono(s: Seq<char>, k: int, j: int)
    requires
        0 <= k <= j <= s.len(),
    ensures
        blen(s.take(k)) <= blen(s.take(j)) <= blen(s),
{
    lemma_blen_split(s, j);
    lemma_blen_split(s.take(j), k);
    assert(s.take(j).take(k) =~= s.take(k));
}

pub proof fn lemma_blen_ge_len(s: Seq<char>)
    ensures
        blen(s) >= s.len(),
    decreases s.len(),
{
    if s.len() > 0 {
        lemma_blen_ge_len(s.drop_first());
        vstd::utf8::char_is_scalar(s[0]);
    }
}

/// The byte index of the `k`-th character is a character boundary.
pub proof fn lemma_char_boundary(s: Seq<char>, k: int)
    requires
        0 <= k <= s.len(),
    ensures
        is_char_boundary(encode_utf8(s), blen(s.take(k)) as int),
    decreases k,
{
    let bytes = encode_utf8(s);
    encode_utf8_valid_utf8(s);
    if k == 0 {
        assert(s.take(0) =~= Seq::<char>::empty());
        assert(encode_utf8(Seq::<char>::empty()) =~= Seq::<u8>::empty());
    } else {
        let t = s.drop_first();
        encode_utf8_first_scalar(s);
        assert(pop_first_scalar(bytes) =~= encode_utf8(t));
        lemma_char_boundary(t, k - 1);
        assert(s.take(k) =~= seq![s[0]] + t.take(k - 1));
        lemma_encode_utf8_concat(seq![s[0]], t.take(k - 1));
        lemma_encode_single(s[0]);
        lemma_blen_mono(s, k, s.len() as int);
    }
}

/// The characters of a string are determined by its bytes.
pub proof fn lemma_encode_injective(a: Seq<char>, b: Seq<char>)
    requires
        encode_utf8(a) == encode_utf8(b),
    ensures
        a == b,
{
    encode_utf8_decode_utf8(a);
    encode_utf8_decode_utf8(b);
}

/// The number of bytes of the UTF-8 encoding of `c`.
pub fn utf8_width(c: char) -> (n: usize)
    ensures
        n == encode_scalar(c as u32).len(),
        1 <= n <= 4,
{
    let u = c as u32;
    proof {
        char_is_scalar(c);
    }
    if u < 0x80 {
        1
    } else if u < 0x800 {
        2
    } else if u < 0x10000 {
        3
    } else {
        4
    }
}

/// The byte length of `s`, which fits in `usize`.
pub fn byte_len(s: &str) -> (n: usize)
    ensures
        n == blen(s@),
{
    let b = s.as_bytes();
    b.len()
}

/// Splits `s` after its first `k` characters, which take `n` bytes.
pub fn split_chars<'a>(s: &'a str, Ghost(k): Ghost<int>, n: usize) -> (res: (&'a str, &'a str))
    requires
        0 <= k <= s@.len(),
        n == blen(s@.take(k)),
    ensures
        res.0@ == s@.take(k),
        res.1@ == s@.skip(k),
{
    proof {
        lemma_char_boundary(s@, k);
        lemma_blen_split(s@, k);
    }
    let res = s.split_at(n);
    proof {
        let bytes = encode_utf8(s@);
        assert(bytes.subrange(0, n as int) =~= encode_utf8(s@.take(k)));
        assert(bytes.subrange(n as int, bytes.len() as int) =~= encode_utf8(s@.skip(k)));
        lemma_encode_injective(res.0@, s@.take(k));
        lemma_encode_injective(res.1@, s@.skip(k));
    }
    res
}

/// The first character of `s`, if any.
pub fn first_char(s: &str) -> (r: Option<char>)
    ensures
        r == (if s@.len() > 0 {
            Some(s@[0])
        } else {
            None::<char>
        }),
{
    let mut it = s.chars();
    it.next()
}

/// `pat` is a prefix of `s`.
pub fn has_prefix(s: &str, pat: &str) -> (r: bool)
    ensures
        r == is_prefix(pat@, s@),
{
    let mut it = s.chars();
    let mut pit = pat.chars();
    let ghost mut k: int = 0;
    loop
        invariant
            0 <= k <= pat@.len(),
            it.remaining() == s@.skip(k),
            pit.remaining() == pat@.skip(k),
            k <= s@.len(),
            s@.take(k) == pat@.take(k),
        decreases pat@.len() - k,
    {
        match pit.next() {
            None => {
                assert(pat@.take(k) =~= pat@);
                return true;
            },
            Some(p) => {
                match it.next() {
                    None => {
                        return false;
                    },
                    Some(c) => {
                        if c != p {
                            assert(c == s@[k] && p == pat@[k]);
                            assert(pat@.len() <= s@.len() ==> s@.take(pat@.len() as int)[k]
                                != pat@[k]);
                            return false;
                        }
                        proof {
                            assert(s@.take(k + 1) =~= s@.take(k).push(c));
                            assert(pat@.take(k + 1) =~= pat@.take(k).push(p));
                            k = k + 1;
                        }
                    },
                }
            },
        }
    }
}


/// Classes of characters that scans run over.
#[derive(Clone, Copy)]
pub enum CharClass {
    Whitespace,
    NameChar,
    XmlChar,
    ContentChar,
    AsciiDigit,
    EncNameChar,
    PubidChar,
    Except(char),
}

pub open spec fn class_has(cls: CharClass, c: char) -> bool {
    match cls {
        CharClass::Whitespace => char_is_whitespace(c),
        CharClass::NameChar => in_continue_char_table(c),
        CharClass::XmlChar => in_char_table(c),
        CharClass::ContentChar => content_char(c),
        CharClass::AsciiDigit => '0' <= c <= '9',
        CharClass::EncNameChar => ('a' <= c <= 'z') || ('A' <= c <= 'Z') || ('0' <= c <= '9')
            || c == '.' || c == '_' || c == '-',
        CharClass::PubidChar => char_is_pubid(c),
        CharClass::Except(x) => c != x,
    }
}

pub fn class_test(cls: CharClass, c: char) -> (r: bool)
    ensures
        r == class_has(cls, c),
{
    match cls {
        CharClass::Whitespace => c.is_xml_whitespace(),
        CharClass::NameChar => c.is_xml_name_char(),
        CharClass::XmlChar => c.is_xml_char(),
        CharClass::ContentChar => is_ascii_content_char(c),
        CharClass::AsciiDigit => c >= '0' && c <= '9',
        CharClass::EncNameChar => (c >= 'a' && c <= 'z') || (c >= 'A' && c <= 'Z') || (c >= '0'
            && c <= '9') || c == '.' || c == '_' || c == '-',
        CharClass::PubidChar => c.is_xml_pubid_char(),
        CharClass::Except(x) => c != x,
    }
}

/// The number of leading characters of `s` in the class.
pub open spec fn span(s: Seq<char>, cls: CharClass) -> nat
    decreases s.len(),
{
    if s.len() == 0 || !class_has(cls, s[0]) {
        0
    } else {
        1 + span(s.drop_first(), cls)
    }
}

pub proof fn lemma_span(s: Seq<char>, cls: CharClass, k: int)
    requires
        0 <= k <= s.len(),
        forall|j: int| 0 <= j < k ==> class_has(cls, #[trigger] s[j]),
        k < s.len() ==> !class_has(cls, s[k]),
    ensures
        span(s, cls) == k,
    decreases k,
{
    if k > 0 {
        let t = s.drop_first();
        assert forall|j: int| 0 <= j < k - 1 implies class_has(cls, #[trigger] t[j]) by {
            assert(t[j] == s[j + 1]);
        }
        lemma_span(t, cls, k - 1);
    }
}

/// Facts about the span: its characters are in the class, the one after it is not.
pub proof fn lemma_span_props(s: Seq<char>, cls: CharClass)
    ensures
        span(s, cls) <= s.len(),
        forall|j: int| 0 <= j < span(s, cls) ==> class_has(cls, #[trigger] s[j]),
        span(s, cls) < s.len() ==> !class_has(cls, s[span(s, cls) as int]),
    decreases s.len(),
{
    if s.len() > 0 && class_has(cls, s[0]) {
        let t = s.drop_first();
        lemma_span_props(t, cls);
        assert forall|j: int| 0 <= j < span(s, cls) implies class_has(cls, #[trigger] s[j]) by {
            if j > 0 {
                assert(s[j] == t[j - 1]);
            }
        }
    }
}

/// The leading characters of `s` in the class: their number and byte length.
pub fn scan_while(s: &str, cls: CharClass) -> (r: (usize, usize))
    ensures
        r.0 == span(s@, cls),
        r.1 == blen(s@.take(r.0 as int)),
{
    let total = byte_len(s);
    let mut it = s.chars();
    let mut k: usize = 0;
    let mut n: usize = 0;
    loop
        invariant
            0 <= k <= s@.len(),
            it.remaining() == s@.skip(k as int),
            n == blen(s@.take(k as int)),
            total == blen(s@),
            forall|j: int| 0 <= j < k ==> class_has(cls, #[trigger] s@[j]),
        decreases s@.len() - k,
    {
        match it.next() {
            None => {
                proof {
                    lemma_span(s@, cls, k as int);
                }
                return (k, n);
            },
            Some(c) => {
                assert(c == s@[k as int]);
                if !class_test(cls, c) {
                    proof {
                        lemma_span(s@, cls, k as int);
                    }
                    return (k, n);
                }
                proof {
                    lemma_blen_step(s@, k as int);
                }
                let w = utf8_width(c);
                assert(n + w == blen(s@.take(k + 1)));
                proof {
                    lemma_blen_ge_len(s@);
                }
                n = n + w;
                k = k + 1;
                proof {
                    assert(s@.skip(k as int) =~= s@.skip(k - 1).drop_first());
                }
            },
        }
    }
}

/// The first position in `s` at which `pat` starts.
pub open spec fn find(s: Seq<char>, pat: Seq<char>) -> Option<int>
    decreases s.len(),
{
    if is_prefix(pat, s) {
        Some(0)
    } else if s.len() == 0 {
        None
    } else {
        match find(s.drop_first(), pat) {
            Some(i) => Some(i + 1),
            None => None,
        }
    }
}

pub open spec fn shift(o: Option<int>, k: int) -> Option<int> {
    match o {
        Some(i) => Some(i + k),
        None => None,
    }
}

pub proof fn lemma_find_bounds(s: Seq<char>, pat: Seq<char>)
    ensures
        find(s, pat) matches Some(i) ==> 0 <= i <= s.len() && is_prefix(pat, s.skip(i)),
    decreases s.len(),
{
    if !is_prefix(pat, s) && s.len() > 0 {
        lemma_find_bounds(s.drop_first(), pat);
        if let Some(i) = find(s.drop_first(), pat) {
            assert(s.skip(i + 1) =~= s.drop_first().skip(i));
        }
    } else if is_prefix(pat, s) {
        assert(s.skip(0) =~= s);
    }
}

/// The first position at which `pat` starts in `s`: in characters and in bytes.
pub fn find_str(s: &str, pat: &str) -> (r: Option<(usize, usize)>)
    ensures
        match r {
            Some((k, n)) => find(s@, pat@) == Some(k as int) && n == blen(s@.take(k as int)),
            None => find(s@, pat@) is None,
        },
{
    let total = byte_len(s);
    let mut cur = s;
    let mut k: usize = 0;
    let mut n: usize = 0;
    loop
        invariant
            0 <= k <= s@.len(),
            cur@ == s@.skip(k as int),
            n == blen(s@.take(k as int)),
            total == blen(s@),
            find(s@, pat@) == shift(find(cur@, pat@), k as int),
        decreases s@.len() - k,
    {
        if has_prefix(cur, pat) {
            return Some((k, n));
        }
        match first_char(cur) {
            None => {
                return None;
            },
            Some(c) => {
                proof {
                    lemma_blen_step(s@, k as int);
                    assert(s@.skip(k as int)[0] == s@[k as int]);
                    assert(c == s@[k as int]);
                    lemma_blen_step(cur@, 0);
                    assert(cur@.take(0) =~= Seq::<char>::empty());
                    assert(encode_utf8(Seq::<char>::empty()) =~= Seq::<u8>::empty());
                }
                let w = utf8_width(c);
                proof {
                    lemma_blen_ge_len(s@);
                }
                let (_, next) = split_chars(cur, Ghost(1), w);
                proof {
                    assert(cur@.skip(1) =~= cur@.drop_first());
                    assert(s@.skip(k + 1) =~= cur@.drop_first());
                }
                cur = next;
                n = n + w;
                k = k + 1;
            },
        }
    }
}

} // verus!

//! The texts of values: white space, trimming, joining and the words of booleans.
use std::borrow::Cow;

use vstd::prelude::*;
use vstd::string::StringExecFns;


use crate::events::cow_str;
use crate::chars::{char_is_whitespace, XmlAsciiChar};
use vstd::std_specs::iter::IteratorSpec;
use crate::text::{blen, scan_while, split_chars, span, CharClass};

verus! {

broadcast use vstd::string::group_string_axioms;

/// A text that is XML white space throughout.
pub trait StrExt {
    spec fn spec_xml_whitespace(&self) -> bool;

    fn is_xml_whitespace(&self) -> (r: bool)
        ensures
            r == self.spec_xml_whitespace(),
    ;
}

impl StrExt for &str {
    open spec fn spec_xml_whitespace(&self) -> bool {
        forall|i: int| 0 <= i < self@.len() ==> char_is_whitespace(#[trigger] self@[i])
    }

    fn is_xml_whitespace(&self) -> (r: bool) {
        let (k, n) = scan_while(*self, CharClass::Whitespace);
        proof {
            crate::text::lemma_span_props(self@, CharClass::Whitespace);
            crate::text::lemma_blen_split(self@, k as int);
            crate::text::lemma_blen_ge_len(self@.skip(k as int));
        }
        n == crate::text::byte_len(*self)
    }
}

/// The number of characters at the end of a text that are white space.
pub open spec fn trailing_ws(t: Seq<char>) -> nat
    decreases t.len(),
{
    if t.len() == 0 || !char_is_whitespace(t.last()) {
        0
    } else {
        1 + trailing_ws(t.drop_last())
    }
}

/// A text without the white space at its start and at its end.
pub open spec fn trim_ws(s: Seq<char>) -> Seq<char> {
    let t = s.skip(span(s, CharClass::Whitespace) as int);
    t.take(t.len() - trailing_ws(t))
}

proof fn lemma_trailing_ws(t: Seq<char>, k: int)
    requires
        0 <= k <= t.len(),
        k == 0 || !char_is_whitespace(t[k - 1]),
        forall|j: int| k <= j < t.len() ==> char_is_whitespace(#[trigger] t[j]),
    ensures
        trailing_ws(t) == t.len() - k,
    decreases t.len(),
{
    if t.len() > k {
        assert forall|j: int| k <= j < t.drop_last().len() implies char_is_whitespace(#[trigger] t.drop_last()[j]) by {
            assert(t.drop_last()[j] == t[j]);
        }
        lemma_trailing_ws(t.drop_last(), k);
    }
}

/// The part of a text without its leading and trailing white space.
pub fn trim_xml_whitespace<'a>(s: &'a str) -> (r: &'a str)
    ensures
        r@ == trim_ws(s@),
{
    let (lead, lead_bytes) = scan_while(s, CharClass::Whitespace);
    proof {
        crate::text::lemma_span_props(s@, CharClass::Whitespace);
    }
    let (_, t) = split_chars(s, Ghost(lead as int), lead_bytes);
    let ghost tv = t@;
    let total = crate::text::byte_len(t);
    proof {
        crate::text::lemma_blen_ge_len(tv);
    }
    let mut it = t.chars();
    let mut k: usize = 0;
    let mut n: usize = 0;
    let mut end_k: usize = 0;
    let mut end_n: usize = 0;
    loop
        invariant
            tv == t@,
            0 <= end_k <= k <= tv.len(),
            it.remaining() == tv.skip(k as int),
            n == blen(tv.take(k as int)),
            end_n == blen(tv.take(end_k as int)),
            end_k == 0 || !char_is_whitespace(tv[end_k - 1]),
            forall|j: int| end_k <= j < k ==> char_is_whitespace(#[trigger] tv[j]),
            total == blen(tv),
            tv.len() <= blen(tv),
        ensures
            k == tv.len(),
            0 <= end_k <= k,
            end_n == blen(tv.take(end_k as int)),
            end_k == 0 || !char_is_whitespace(tv[end_k - 1]),
            forall|j: int| end_k <= j < k ==> char_is_whitespace(#[trigger] tv[j]),
        decreases tv.len() - k,
    {
        match it.next() {
            None => {
                proof {
                    assert(k == tv.len());
                }
                break;
            },
            Some(c) => {
                proof {
                    assert(c == tv[k as int]);
                    crate::text::lemma_blen_step(tv, k as int);
                    crate::text::lemma_blen_mono(tv, k + 1, tv.len() as int);
                    assert(tv.take(tv.len() as int) =~= tv);
                }
                n = n + crate::text::utf8_width(c);
                k = k + 1;
                if !c.is_xml_whitespace() {
                    end_k = k;
                    end_n = n;
                }
            },
        }
    }
    proof {
        lemma_trailing_ws(tv, end_k as int);
    }
    let (r, _) = split_chars(t, Ghost(end_k as int), end_n);
    r
}

/// Text built from pieces, borrowed while it is one piece.
pub trait CowStrExt<'a> {
    spec fn spec_text(&self) -> Seq<char>;

    fn push_str(&mut self, string: &str)
        ensures
            final(self).spec_text() == old(self).spec_text() + string@,
    ;

    fn trim_xml_whitespace(&mut self)
        ensures
            final(self).spec_text() == trim_ws(old(self).spec_text()),
    ;
}

impl<'a> CowStrExt<'a> for Cow<'a, str> {
    open spec fn spec_text(&self) -> Seq<char> {
        self@
    }

    fn push_str(&mut self, string: &str) {
        let mut current: Cow<'a, str> = Cow::Borrowed("");
        std::mem::swap(self, &mut current);
        match current {
            Cow::Borrowed(borrowed) => {
                let mut res = String::new();
                res.append(borrowed);
                res.append(string);
                *self = Cow::Owned(res);
            },
            Cow::Owned(mut owned) => {
                owned.append(string);
                *self = Cow::Owned(owned);
            },
        }
    }

    fn trim_xml_whitespace(&mut self) {
        let mut current: Cow<'a, str> = Cow::Borrowed("");
        std::mem::swap(self, &mut current);
        match current {
            Cow::Borrowed(borrowed) => {
                *self = Cow::Borrowed(trim_xml_whitespace(borrowed));
            },
            Cow::Owned(owned) => {
                *self = Cow::Owned(trim_xml_whitespace(owned.as_str()).to_owned());
            },
        }
    }
}

/// The boolean that a text names: `true`, `1`, `yes` or `on`; `false`, `0`, `no` or
/// `off`; none for another text.
pub open spec fn spec_bool_text(s: Seq<char>) -> Option<bool> {
    if s == "true"@ || s == "1"@ || s == "yes"@ || s == "on"@ {
        Some(true)
    } else if s == "false"@ || s == "0"@ || s == "no"@ || s == "off"@ {
        Some(false)
    } else {
        None
    }
}

/// The boolean that a text names.
pub fn bool_text(s: &str) -> (r: Option<bool>)
    ensures
        r == spec_bool_text(s@),
{
    if crate::reader::tokens::str_eq(s, "true") || crate::reader::tokens::str_eq(s, "1")
        || crate::reader::tokens::str_eq(s, "yes") || crate::reader::tokens::str_eq(s, "on") {
        Some(true)
    } else if crate::reader::tokens::str_eq(s, "false") || crate::reader::tokens::str_eq(s, "0")
        || crate::reader::tokens::str_eq(s, "no") || crate::reader::tokens::str_eq(s, "off") {
        Some(false)
    } else {
        None
    }
}

/// The boolean that an attribute value names: `true` or `1`; `false` or `0`; none for
/// another text.
pub open spec fn spec_attribute_bool(s: Seq<char>) -> Option<bool> {
    if s == "true"@ || s == "1"@ {
        Some(true)
    } else if s == "false"@ || s == "0"@ {
        Some(false)
    } else {
        None
    }
}

/// The boolean that an attribute value names.
pub fn attribute_bool(s: &str) -> (r: Option<bool>)
    ensures
        r == spec_attribute_bool(s@),
{
    if crate::reader::tokens::str_eq(s, "true") || crate::reader::tokens::str_eq(s, "1") {
        Some(true)
    } else if crate::reader::tokens::str_eq(s, "false") || crate::reader::tokens::str_eq(s, "0") {
        Some(false)
    } else {
        None
    }
}

/// A text names a boolean exactly when it is one of four pairs of words, the first of a
/// pair naming true and the second false: `true` and `false`, `1` and `0`, `yes` and
/// `no`, `on` and `off`; every other text names none. An attribute value that names a
/// boolean names the same one as text.
pub proof fn lemma_bool_words(s: Seq<char>)
    ensures
        spec_bool_text(s) == Some(true) <==> (s == seq!['t', 'r', 'u', 'e'] || s == seq!['1'] || s == seq!['y', 'e', 's']
            || s == seq!['o', 'n']),
        spec_bool_text(s) == Some(false) <==> (s == seq!['f', 'a', 'l', 's', 'e'] || s == seq!['0'] || s == seq![
            'n',
            'o',
        ] || s == seq!['o', 'f', 'f']),
        spec_attribute_bool(s) is Some ==> spec_bool_text(s) == spec_attribute_bool(s),
{
    reveal_strlit("true");
    reveal_strlit("1");
    reveal_strlit("yes");
    reveal_strlit("on");
    reveal_strlit("false");
    reveal_strlit("0");
    reveal_strlit("no");
    reveal_strlit("off");
    assert("true"@ =~= seq!['t', 'r', 'u', 'e']);
    assert("1"@ =~= seq!['1']);
    assert("yes"@ =~= seq!['y', 'e', 's']);
    assert("on"@ =~= seq!['o', 'n']);
    assert("false"@ =~= seq!['f', 'a', 'l', 's', 'e']);
    assert("0"@ =~= seq!['0']);
    assert("no"@ =~= seq!['n', 'o']);
    assert("off"@ =~= seq!['o', 'f', 'f']);
    assert(seq!['1'][0] != seq!['0'][0]);
    assert(seq!['y', 'e', 's'][0] != seq!['o', 'f', 'f'][0]);
    assert(seq!['o', 'n'][0] != seq!['n', 'o'][0]);
}

/// The key under which an attribute is read: its name after `@`.
pub fn create_attr_key(key: &str) -> (r: String)
    ensures
        r@ == "@"@ + key@,
{
    let mut result = "@".to_owned();
    result.append(key);
    result
}

} // verus!

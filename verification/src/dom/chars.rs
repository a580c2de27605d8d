//! Classes of characters in names and white space, over bytes and text.
use vstd::prelude::*;
use vstd::std_specs::iter::IteratorSpec;

use crate::chars::{in_continue_char_table, in_start_char_table};

verus! {

broadcast use vstd::string::group_string_axioms;

/// XML white space: tab, line feed, carriage return or space.
pub open spec fn byte_is_xml_whitespace(b: u8) -> bool {
    b == 0x09 || b == 0x0A || b == 0x0D || b == 0x20
}

pub trait XmlByteExt {
    spec fn spec_xml_whitespace(&self) -> bool;

    fn is_xml_whitespace(&self) -> (r: bool)
        ensures
            r == self.spec_xml_whitespace(),
    ;
}

impl XmlByteExt for u8 {
    open spec fn spec_xml_whitespace(&self) -> bool {
        byte_is_xml_whitespace(*self)
    }

    fn is_xml_whitespace(&self) -> (r: bool) {
        *self == 0x09 || *self == 0x0A || *self == 0x0D || *self == 0x20
    }
}

pub trait XmlBytesExt {
    spec fn spec_only_xml_whitespace(&self) -> bool;

    fn only_xml_whitespace(&self) -> (r: bool)
        ensures
            r == self.spec_only_xml_whitespace(),
    ;
}

impl XmlBytesExt for &[u8] {
    open spec fn spec_only_xml_whitespace(&self) -> bool {
        forall|i: int| 0 <= i < self@.len() ==> byte_is_xml_whitespace(#[trigger] self@[i])
    }

    fn only_xml_whitespace(&self) -> (r: bool) {
        let mut i: usize = 0;
        while i < self.len()
            invariant
                0 <= i <= self@.len(),
                forall|j: int| 0 <= j < i ==> byte_is_xml_whitespace(#[trigger] self@[j]),
            decreases self@.len() - i,
        {
            if !self[i].is_xml_whitespace() {
                return false;
            }
            i += 1;
        }
        true
    }
}

/// A character that the name tables know (they stop at U+FFFF) and that may start a name.
pub open spec fn name_start_in_map(c: char) -> bool {
    (c as u32) <= 0xFFFF && in_start_char_table(c)
}

/// A character that the name tables know (they stop at U+FFFF) and that may go on a name.
pub open spec fn name_char_in_map(c: char) -> bool {
    (c as u32) <= 0xFFFF && in_continue_char_table(c)
}

/// A name: a start character and name characters after it, all up to U+FFFF.
pub open spec fn is_name_in_map(s: Seq<char>) -> bool {
    &&& s.len() > 0
    &&& name_start_in_map(s[0])
    &&& forall|i: int| 1 <= i < s.len() ==> name_char_in_map(#[trigger] s[i])
}

pub trait XmlStrExt {
    spec fn spec_xml_name(&self) -> bool;

    fn is_xml_name(&self) -> (r: bool)
        ensures
            r == self.spec_xml_name(),
    ;
}

impl XmlStrExt for &str {
    open spec fn spec_xml_name(&self) -> bool {
        is_name_in_map(self@)
    }

    fn is_xml_name(&self) -> (r: bool) {
        let mut it = self.chars();
        match it.next() {
            Some(c) => {
                if !((c as u32) <= 0xFFFF && crate::chars::char_name_start(c)) {
                    return false;
                }
            },
            None => {
                return false;
            },
        }
        let ghost mut k: int = 1;
        loop
            invariant
                1 <= k <= self@.len(),
                it.remaining() == self@.skip(k),
                name_start_in_map(self@[0]),
                forall|i: int| 1 <= i < k ==> name_char_in_map(#[trigger] self@[i]),
            decreases self@.len() - k,
        {
            match it.next() {
                None => {
                    return true;
                },
                Some(c) => {
                    proof {
                        assert(c == self@[k]);
                    }
                    if !((c as u32) <= 0xFFFF && crate::chars::char_name(c)) {
                        return false;
                    }
                    proof {
                        k = k + 1;
                    }
                },
            }
        }
    }
}

/// Whether a code falls in a table of ranges `[from, to)` sorted by their ends: the first
/// range that ends after the code decides.
pub open spec fn in_range_table(code: int, map: Seq<(u16, u16)>) -> bool
    decreases map.len(),
{
    if map.len() == 0 {
        false
    } else if code < map[0].1 {
        code >= map[0].0
    } else {
        in_range_table(code, map.drop_first())
    }
}

/// Whether a character of the Basic Multilingual Plane falls in a table of ranges; no
/// character beyond it does.
pub fn lookup_char(c: char, map: &[(u16, u16)]) -> (r: bool)
    ensures
        r == ((c as u32) <= 0xFFFF && in_range_table(c as u32 as int, map@)),
{
    let code32 = c as u32;
    if code32 > 0xFFFF {
        return false;
    }
    let code = code32 as u16;
    let mut i: usize = 0;
    proof {
        assert(map@.skip(0) =~= map@);
    }
    while i < map.len()
        invariant
            i <= map@.len(),
            code as int == c as u32 as int,
            in_range_table(code as int, map@) == in_range_table(code as int, map@.skip(i as int)),
        decreases map@.len() - i,
    {
        let (from, to) = map[i];
        proof {
            assert(map@.skip(i as int)[0] == map@[i as int]);
            assert(map@.skip(i as int).drop_first() =~= map@.skip(i + 1));
        }
        if code < to {
            return code >= from;
        }
        i = i + 1;
    }
    false
}

} // verus!

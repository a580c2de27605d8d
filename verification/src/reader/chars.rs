//! The class of characters that may stand in character data.
use vstd::prelude::*;

use crate::chars::{in_char_table, XmlChar};

verus! {

/// Character data without markup: `(#x9 | #xA | [#x20-#x7F]) - ('&' | '<')` in ASCII,
/// and every XML character beyond it. Carriage return is left to the caller.
pub open spec fn ascii_content(c: int) -> bool {
    c == 0x09 || c == 0x0A || (0x20 <= c <= 0x7F && c != 0x26 && c != 0x3C)
}

/// `is_ascii_content_char` as a specification.
pub open spec fn content_char(c: char) -> bool {
    if (c as u32) < 128 {
        ascii_content(c as int)
    } else {
        in_char_table(c)
    }
}

/// Classes of ASCII characters, each kept as one bit of a mask.
enum Category {
    ContentChar,
}

fn mask(cat: Category) -> (m: u8)
    ensures
        m == 1u8,
{
    match cat {
        Category::ContentChar => 1,
    }
}

fn mask_if(cat: Category, pred: bool) -> (m: u8)
    ensures
        m == (if pred {
            1u8
        } else {
            0u8
        }),
{
    if pred {
        mask(cat)
    } else {
        0
    }
}

fn ascii_char_mask(c: u8) -> (m: u8)
    ensures
        m == (if ascii_content(c as int) {
            1u8
        } else {
            0u8
        }),
{
    mask_if(
        Category::ContentChar,
        c == 0x09 || c == 0x0A || (c >= 0x20 && c <= 0x7F && c != 0x26 && c != 0x3C),
    )
}

fn check_ascii(c: u8, cat: Category) -> (r: bool)
    ensures
        r == (c < 128 && ascii_content(c as int)),
{
    if c < 128 {
        let m = ascii_char_mask(c);
        let k = mask(cat);
        assert((1u8 & 1u8) != 0u8 && (0u8 & 1u8) == 0u8) by (bit_vector);
        m & k != 0
    } else {
        false
    }
}

pub fn is_ascii_content_char(c: char) -> (r: bool)
    ensures
        r == content_char(c),
{
    if (c as u32) < 128 {
        check_ascii(c as u32 as u8, Category::ContentChar)
    } else {
        c.is_xml_char()
    }
}

} // verus!

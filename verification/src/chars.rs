//! Character classes of XML 1.0 (fifth edition).
use vstd::prelude::*;

verus! {

/// `NameStartChar` ranges beyond ASCII.
pub open spec fn in_start_char_table(c: char) -> bool {
    ||| (':' <= c <= ':')
    ||| ('A' <= c <= 'Z')
    ||| ('_' <= c <= '_')
    ||| ('a' <= c <= 'z')
    ||| ('\u{c0}' <= c <= '\u{d6}')
    ||| ('\u{d8}' <= c <= '\u{f6}')
    ||| ('\u{f8}' <= c <= '\u{2ff}')
    ||| ('\u{370}' <= c <= '\u{37d}')
    ||| ('\u{37f}' <= c <= '\u{1fff}')
    ||| ('\u{200c}' <= c <= '\u{200d}')
    ||| ('\u{2070}' <= c <= '\u{218f}')
    ||| ('\u{2C00}' <= c <= '\u{2FEF}')
    ||| ('\u{3001}' <= c <= '\u{D7FF}')
    ||| ('\u{F900}' <= c <= '\u{FDCF}')
    ||| ('\u{FDF0}' <= c <= '\u{FFFD}')
    ||| ('\u{10000}' <= c <= '\u{EFFFF}')
}

/// `NameChar` ranges beyond ASCII.
pub open spec fn in_continue_char_table(c: char) -> bool {
    ||| ('-' <= c <= '.')
    ||| ('0' <= c <= '9')
    ||| (':' <= c <= ':')
    ||| ('A' <= c <= 'Z')
    ||| ('_' <= c <= '_')
    ||| ('a' <= c <= 'z')
    ||| ('\u{b7}' <= c <= '\u{b7}')
    ||| ('\u{c0}' <= c <= '\u{d6}')
    ||| ('\u{d8}' <= c <= '\u{f6}')
    ||| ('\u{f8}' <= c <= '\u{37d}')
    ||| ('\u{37f}' <= c <= '\u{1fff}')
    ||| ('\u{200c}' <= c <= '\u{200d}')
    ||| ('\u{203f}' <= c <= '\u{2040}')
    ||| ('\u{2070}' <= c <= '\u{218f}')
    ||| ('\u{2C00}' <= c <= '\u{2FEF}')
    ||| ('\u{3001}' <= c <= '\u{D7FF}')
    ||| ('\u{F900}' <= c <= '\u{FDCF}')
    ||| ('\u{FDF0}' <= c <= '\u{FFFD}')
    ||| ('\u{10000}' <= c <= '\u{EFFFF}')
}

/// `Char` ranges.
pub open spec fn in_char_table(c: char) -> bool {
    ||| ('\u{9}' <= c <= '\u{9}')
    ||| ('\u{a}' <= c <= '\u{a}')
    ||| ('\u{d}' <= c <= '\u{d}')
    ||| ('\u{20}' <= c <= '\u{D7FF}')
    ||| ('\u{E000}' <= c <= '\u{FFFD}')
    ||| ('\u{10000}' <= c <= '\u{10FFFF}')
}

/// A character range `[lo, hi]` contains `c`.
pub open spec fn range_contains(r: (char, char), c: char) -> bool {
    r.0 <= c && c <= r.1
}

/// Some range of the table contains `c`.
pub open spec fn table_contains(table: Seq<(char, char)>, c: char) -> bool {
    exists|i: int| 0 <= i < table.len() && #[trigger] range_contains(table[i], c)
}

fn search_table(c: char, table: &[(char, char)]) -> (found: bool)
    ensures
        found == table_contains(table@, c),
{
    let mut i: usize = 0;
    while i < table.len()
        invariant
            0 <= i <= table.len(),
            forall|j: int| 0 <= j < i ==> !#[trigger] range_contains(table@[j], c),
        decreases table.len() - i,
    {
        let rng = table[i];
        if c >= rng.0 && c <= rng.1 {
            assert(range_contains(table@[i as int], c));
            return true;
        }
        i = i + 1;
    }
    false
}

const XML_START_CHAR_TABLE: [(char, char); 16] = [
    (':', ':'),
    ('A', 'Z'),
    ('_', '_'),
    ('a', 'z'),
    ('\u{c0}', '\u{d6}'),
    ('\u{d8}', '\u{f6}'),
    ('\u{f8}', '\u{2ff}'),
    ('\u{370}', '\u{37d}'),
    ('\u{37f}', '\u{1fff}'),
    ('\u{200c}', '\u{200d}'),
    ('\u{2070}', '\u{218f}'),
    ('\u{2C00}', '\u{2FEF}'),
    ('\u{3001}', '\u{D7FF}'),
    ('\u{F900}', '\u{FDCF}'),
    ('\u{FDF0}', '\u{FFFD}'),
    ('\u{10000}', '\u{EFFFF}'),
];


const XML_CONTINUE_CHAR_TABLE: [(char, char); 19] = [
    ('-', '.'),
    ('0', '9'),
    (':', ':'),
    ('A', 'Z'),
    ('_', '_'),
    ('a', 'z'),
    ('\u{b7}', '\u{b7}'),
    ('\u{c0}', '\u{d6}'),
    ('\u{d8}', '\u{f6}'),
    ('\u{f8}', '\u{37d}'),
    ('\u{37f}', '\u{1fff}'),
    ('\u{200c}', '\u{200d}'),
    ('\u{203f}', '\u{2040}'),
    ('\u{2070}', '\u{218f}'),
    ('\u{2C00}', '\u{2FEF}'),
    ('\u{3001}', '\u{D7FF}'),
    ('\u{F900}', '\u{FDCF}'),
    ('\u{FDF0}', '\u{FFFD}'),
    ('\u{10000}', '\u{EFFFF}'),
];

const XML_CHAR: [(char, char); 6] = [
    ('\u{9}', '\u{9}'),
    ('\u{a}', '\u{a}'),
    ('\u{d}', '\u{d}'),
    ('\u{20}', '\u{D7FF}'),
    ('\u{E000}', '\u{FFFD}'),
    ('\u{10000}', '\u{10FFFF}'),
];


proof fn lemma_start_char_table(c: char)
    ensures
        table_contains(XML_START_CHAR_TABLE@, c) == in_start_char_table(c),
{
    let t = XML_START_CHAR_TABLE@;
    assert(t[0] == (':', ':'));
    assert(t[1] == ('A', 'Z'));
    assert(t[2] == ('_', '_'));
    assert(t[3] == ('a', 'z'));
    assert(t[4] == ('\u{c0}', '\u{d6}'));
    assert(t[5] == ('\u{d8}', '\u{f6}'));
    assert(t[6] == ('\u{f8}', '\u{2ff}'));
    assert(t[7] == ('\u{370}', '\u{37d}'));
    assert(t[8] == ('\u{37f}', '\u{1fff}'));
    assert(t[9] == ('\u{200c}', '\u{200d}'));
    assert(t[10] == ('\u{2070}', '\u{218f}'));
    assert(t[11] == ('\u{2C00}', '\u{2FEF}'));
    assert(t[12] == ('\u{3001}', '\u{D7FF}'));
    assert(t[13] == ('\u{F900}', '\u{FDCF}'));
    assert(t[14] == ('\u{FDF0}', '\u{FFFD}'));
    assert(t[15] == ('\u{10000}', '\u{EFFFF}'));
    if table_contains(t, c) {
        let i = choose|i: int| 0 <= i < t.len() && #[trigger] range_contains(t[i], c);
        if i == 0 {} else if i == 1 {} else if i == 2 {} else if i == 3 {} else if i == 4 {} else if i == 5 {} else if i == 6 {} else if i == 7 {} else if i == 8 {} else if i == 9 {} else if i == 10 {} else if i == 11 {} else if i == 12 {} else if i == 13 {} else if i == 14 {} else if i == 15 {}
    }
    if in_start_char_table(c) {
        if range_contains(t[0], c) {} else if range_contains(t[1], c) {} else if range_contains(t[2], c) {} else if range_contains(t[3], c) {} else if range_contains(t[4], c) {} else if range_contains(t[5], c) {} else if range_contains(t[6], c) {} else if range_contains(t[7], c) {} else if range_contains(t[8], c) {} else if range_contains(t[9], c) {} else if range_contains(t[10], c) {} else if range_contains(t[11], c) {} else if range_contains(t[12], c) {} else if range_contains(t[13], c) {} else if range_contains(t[14], c) {} else if range_contains(t[15], c) {}
    }
}

proof fn lemma_continue_char_table(c: char)
    ensures
        table_contains(XML_CONTINUE_CHAR_TABLE@, c) == in_continue_char_table(c),
{
    let t = XML_CONTINUE_CHAR_TABLE@;
    assert(t[0] == ('-', '.'));
    assert(t[1] == ('0', '9'));
    assert(t[2] == (':', ':'));
    assert(t[3] == ('A', 'Z'));
    assert(t[4] == ('_', '_'));
    assert(t[5] == ('a', 'z'));
    assert(t[6] == ('\u{b7}', '\u{b7}'));
    assert(t[7] == ('\u{c0}', '\u{d6}'));
    assert(t[8] == ('\u{d8}', '\u{f6}'));
    assert(t[9] == ('\u{f8}', '\u{37d}'));
    assert(t[10] == ('\u{37f}', '\u{1fff}'));
    assert(t[11] == ('\u{200c}', '\u{200d}'));
    assert(t[12] == ('\u{203f}', '\u{2040}'));
    assert(t[13] == ('\u{2070}', '\u{218f}'));
    assert(t[14] == ('\u{2C00}', '\u{2FEF}'));
    assert(t[15] == ('\u{3001}', '\u{D7FF}'));
    assert(t[16] == ('\u{F900}', '\u{FDCF}'));
    assert(t[17] == ('\u{FDF0}', '\u{FFFD}'));
    assert(t[18] == ('\u{10000}', '\u{EFFFF}'));
    if table_contains(t, c) {
        let i = choose|i: int| 0 <= i < t.len() && #[trigger] range_contains(t[i], c);
        if i == 0 {} else if i == 1 {} else if i == 2 {} else if i == 3 {} else if i == 4 {} else if i == 5 {} else if i == 6 {} else if i == 7 {} else if i == 8 {} else if i == 9 {} else if i == 10 {} else if i == 11 {} else if i == 12 {} else if i == 13 {} else if i == 14 {} else if i == 15 {} else if i == 16 {} else if i == 17 {} else if i == 18 {}
    }
    if in_continue_char_table(c) {
        if range_contains(t[0], c) {} else if range_contains(t[1], c) {} else if range_contains(t[2], c) {} else if range_contains(t[3], c) {} else if range_contains(t[4], c) {} else if range_contains(t[5], c) {} else if range_contains(t[6], c) {} else if range_contains(t[7], c) {} else if range_contains(t[8], c) {} else if range_contains(t[9], c) {} else if range_contains(t[10], c) {} else if range_contains(t[11], c) {} else if range_contains(t[12], c) {} else if range_contains(t[13], c) {} else if range_contains(t[14], c) {} else if range_contains(t[15], c) {} else if range_contains(t[16], c) {} else if range_contains(t[17], c) {} else if range_contains(t[18], c) {}
    }
}

proof fn lemma_char_table(c: char)
    ensures
        table_contains(XML_CHAR@, c) == in_char_table(c),
{
    let t = XML_CHAR@;
    assert(t[0] == ('\u{9}', '\u{9}'));
    assert(t[1] == ('\u{a}', '\u{a}'));
    assert(t[2] == ('\u{d}', '\u{d}'));
    assert(t[3] == ('\u{20}', '\u{D7FF}'));
    assert(t[4] == ('\u{E000}', '\u{FFFD}'));
    assert(t[5] == ('\u{10000}', '\u{10FFFF}'));
    if table_contains(t, c) {
        let i = choose|i: int| 0 <= i < t.len() && #[trigger] range_contains(t[i], c);
        if i == 0 {} else if i == 1 {} else if i == 2 {} else if i == 3 {} else if i == 4 {} else if i == 5 {}
    }
    if in_char_table(c) {
        if range_contains(t[0], c) {} else if range_contains(t[1], c) {} else if range_contains(t[2], c) {} else if range_contains(t[3], c) {} else if range_contains(t[4], c) {} else if range_contains(t[5], c) {}
    }
}


/// Classes of ASCII characters, each kept as one bit of a mask.
enum Category {
    Whitespace,
    Char,
    NameStart,
    Name,
    Punct,
    PubId,
}

/// `S ::= (#x20 | #x9 | #xD | #xA)+` on one byte.
pub open spec fn ascii_whitespace(c: int) -> bool {
    c == 0x20 || c == 0x09 || c == 0x0D || c == 0x0A
}

/// Punctuation bytes that occur in markup.
pub open spec fn ascii_punct(c: int) -> bool {
    c == 0x2F || c == 0x28 || c == 0x29 || c == 0x5B || c == 0x5D || c == 0x2E || c == 0x40
        || c == 0x2C || c == 0x3A || c == 0x2A || c == 0x2B || c == 0x2D || c == 0x3D || c
        == 0x21 || c == 0x3C || c == 0x3E || c == 0x24
}

/// ASCII part of `NameStartChar`.
pub open spec fn ascii_name_start(c: int) -> bool {
    c == 0x3A || c == 0x5F || (0x41 <= c <= 0x5A) || (0x61 <= c <= 0x7A)
}

/// ASCII part of `NameChar`.
pub open spec fn ascii_name(c: int) -> bool {
    c == 0x2D || c == 0x2E || c == 0x3A || c == 0x5F || (0x30 <= c <= 0x39) || (0x41 <= c
        <= 0x5A) || (0x61 <= c <= 0x7A)
}

/// ASCII part of `Char`.
pub open spec fn ascii_char(c: int) -> bool {
    c >= 0x20 || c == 0x09 || c == 0x0D || c == 0x0A
}

/// `PubidChar ::= #x20 | #xD | #xA | [a-zA-Z0-9] | [-'()+,./:=?;!*#@$_%]`
pub open spec fn ascii_pubid(c: int) -> bool {
    c == 0x0a || c == 0x0d || (0x20 <= c <= 0x21) || (0x23 <= c <= 0x25) || (0x27 <= c
        <= 0x3B) || c == 0x3D || (0x3F <= c <= 0x5A) || c == 0x5F || (0x61 <= c <= 0x7A)
}

spec fn ascii_in_category(c: int, cat: Category) -> bool {
    match cat {
        Category::Whitespace => ascii_whitespace(c),
        Category::Char => ascii_char(c),
        Category::NameStart => ascii_name_start(c),
        Category::Name => ascii_name(c),
        Category::Punct => ascii_punct(c),
        Category::PubId => ascii_pubid(c),
    }
}

/// The class table holds the bytes 0 to 126; DEL (127) is in no class.
pub open spec fn in_ascii_table(c: u8) -> bool {
    c < 127
}

fn mask(cat: Category) -> (m: u8)
    ensures
        m == match cat {
            Category::Whitespace => 1u8,
            Category::Char => 2u8,
            Category::NameStart => 4u8,
            Category::Name => 8u8,
            Category::Punct => 16u8,
            Category::PubId => 32u8,
        },
{
    match cat {
        Category::Whitespace => 1,
        Category::Char => 2,
        Category::NameStart => 4,
        Category::Name => 8,
        Category::Punct => 16,
        Category::PubId => 32,
    }
}

fn mask_if(cat: Category, pred: bool) -> (m: u8)
    ensures
        pred ==> m == mask_spec(cat),
        !pred ==> m == 0,
{
    if pred {
        mask(cat)
    } else {
        0
    }
}

spec fn mask_spec(cat: Category) -> u8 {
    match cat {
        Category::Whitespace => 1u8,
        Category::Char => 2u8,
        Category::NameStart => 4u8,
        Category::Name => 8u8,
        Category::Punct => 16u8,
        Category::PubId => 32u8,
    }
}

spec fn bit(b: bool, m: u8) -> u8 {
    if b {
        m
    } else {
        0u8
    }
}

proof fn lemma_mask_bits(w: bool, p: bool, ns: bool, n: bool, ch: bool, pb: bool)
    ensures
        ({
            let m = bit(w, 1u8) | bit(p, 16u8) | bit(ns, 4u8) | bit(n, 8u8) | bit(ch, 2u8) | bit(
                pb,
                32u8,
            );
            &&& (m & 1u8 != 0) == w
            &&& (m & 2u8 != 0) == ch
            &&& (m & 4u8 != 0) == ns
            &&& (m & 8u8 != 0) == n
            &&& (m & 16u8 != 0) == p
            &&& (m & 32u8 != 0) == pb
        }),
{
    let a = bit(w, 1u8);
    let b = bit(p, 16u8);
    let c = bit(ns, 4u8);
    let d = bit(n, 8u8);
    let e = bit(ch, 2u8);
    let f = bit(pb, 32u8);
    assert((a == 1u8 || a == 0u8) && (b == 16u8 || b == 0u8) && (c == 4u8 || c == 0u8) && (d
        == 8u8 || d == 0u8) && (e == 2u8 || e == 0u8) && (f == 32u8 || f == 0u8));
    assert((a == 1u8 || a == 0u8) && (b == 16u8 || b == 0u8) && (c == 4u8 || c == 0u8) && (d
        == 8u8 || d == 0u8) && (e == 2u8 || e == 0u8) && (f == 32u8 || f == 0u8) ==> {
        let m = a | b | c | d | e | f;
        &&& (m & 1u8 != 0) == (a == 1u8)
        &&& (m & 2u8 != 0) == (e == 2u8)
        &&& (m & 4u8 != 0) == (c == 4u8)
        &&& (m & 8u8 != 0) == (d == 8u8)
        &&& (m & 16u8 != 0) == (b == 16u8)
        &&& (m & 32u8 != 0) == (f == 32u8)
    }) by (bit_vector);
}

/// The class mask of an ASCII byte: bit `i` is set iff the byte is in class `i`.
fn ascii_char_mask(c: u8) -> (m: u8)
    ensures
        m == bit(ascii_whitespace(c as int), 1u8) | bit(ascii_punct(c as int), 16u8) | bit(
            ascii_name_start(c as int),
            4u8,
        ) | bit(ascii_name(c as int), 8u8) | bit(ascii_char(c as int), 2u8) | bit(
            ascii_pubid(c as int),
            32u8,
        ),
{
    mask_if(Category::Whitespace, c == 0x20 || c == 0x09 || c == 0x0D || c == 0x0A)
        | mask_if(
        Category::Punct,
        c == 0x2F || c == 0x28 || c == 0x29 || c == 0x5B || c == 0x5D || c == 0x2E || c == 0x40
            || c == 0x2C || c == 0x3A || c == 0x2A || c == 0x2B || c == 0x2D || c == 0x3D || c
            == 0x21 || c == 0x3C || c == 0x3E || c == 0x24,
    ) | mask_if(
        Category::NameStart,
        c == 0x3A || c == 0x5F || (c >= 0x41 && c <= 0x5A) || (c >= 0x61 && c <= 0x7A),
    ) | mask_if(
        Category::Name,
        c == 0x2D || c == 0x2E || c == 0x3A || c == 0x5F || (c >= 0x30 && c <= 0x39) || (c
            >= 0x41 && c <= 0x5A) || (c >= 0x61 && c <= 0x7A),
    ) | mask_if(Category::Char, c >= 0x20 || c == 0x09 || c == 0x0D || c == 0x0A) | mask_if(
        Category::PubId,
        c == 0x0a || c == 0x0d || (0x20 <= c && c <= 0x21) || (0x23 <= c && c <= 0x25) || (0x27
            <= c && c <= 0x3B) || c == 0x3D || (0x3F <= c && c <= 0x5A) || c == 0x5F || (0x61
            <= c && c <= 0x7A),
    )
}

fn check_ascii(c: u8, cat: Category) -> (r: bool)
    ensures
        r == (in_ascii_table(c) && ascii_in_category(c as int, cat)),
{
    if c < 127 {
        let m = ascii_char_mask(c);
        proof {
            lemma_mask_bits(
                ascii_whitespace(c as int),
                ascii_punct(c as int),
                ascii_name_start(c as int),
                ascii_name(c as int),
                ascii_char(c as int),
                ascii_pubid(c as int),
            );
        }
        m & mask(cat) != 0
    } else {
        false
    }
}

/// `S` on a character.
pub open spec fn char_is_whitespace(c: char) -> bool {
    (c as u32) < 127 && ascii_whitespace(c as int)
}

/// Punctuation characters that occur in markup.
pub open spec fn char_is_punct(c: char) -> bool {
    (c as u32) < 127 && ascii_punct(c as int)
}

/// `PubidChar` on a character.
pub open spec fn char_is_pubid(c: char) -> bool {
    (c as u32) < 127 && ascii_pubid(c as int)
}

/// Characters classified as XML whitespace and punctuation.
pub trait XmlAsciiChar {
    spec fn spec_xml_whitespace(&self) -> bool;

    spec fn spec_xml_punct(&self) -> bool;

    /// https://www.w3.org/TR/REC-xml/#NT-S
    fn is_xml_whitespace(&self) -> (r: bool)
        ensures
            r == self.spec_xml_whitespace(),
    ;

    fn is_xml_punct(&self) -> (r: bool)
        ensures
            r == self.spec_xml_punct(),
    ;
}

/// Characters classified by the productions of XML names and characters.
pub trait XmlChar: XmlAsciiChar {
    spec fn spec_xml_name_start_char(&self) -> bool;

    spec fn spec_xml_name_char(&self) -> bool;

    spec fn spec_xml_char(&self) -> bool;

    spec fn spec_xml_pubid_char(&self) -> bool;

    /// https://www.w3.org/TR/REC-xml/#NT-NameStartChar
    fn is_xml_name_start_char(&self) -> (r: bool)
        ensures
            r == self.spec_xml_name_start_char(),
    ;

    /// https://www.w3.org/TR/REC-xml/#NT-NameChar
    fn is_xml_name_char(&self) -> (r: bool)
        ensures
            r == self.spec_xml_name_char(),
    ;

    /// https://www.w3.org/TR/REC-xml/#NT-Char
    fn is_xml_char(&self) -> (r: bool)
        ensures
            r == self.spec_xml_char(),
    ;

    /// `PubidChar ::= #x20 | #xD | #xA | [a-zA-Z0-9] | [-'()+,./:=?;!*#@$_%]`
    fn is_xml_pubid_char(&self) -> (r: bool)
        ensures
            r == self.spec_xml_pubid_char(),
    ;
}

impl XmlAsciiChar for u8 {
    open spec fn spec_xml_whitespace(&self) -> bool {
        ascii_whitespace(*self as int)
    }

    open spec fn spec_xml_punct(&self) -> bool {
        *self < 127 && ascii_punct(*self as int)
    }

    fn is_xml_whitespace(&self) -> (r: bool) {
        *self == 0x20 || *self == 0x0A || *self == 0x09 || *self == 0x0D
    }

    fn is_xml_punct(&self) -> (r: bool) {
        check_ascii(*self, Category::Punct)
    }
}

pub(crate) fn char_whitespace(c: char) -> (r: bool)
    ensures
        r == char_is_whitespace(c),
{
    (c as u32) < 128 && check_ascii(c as u32 as u8, Category::Whitespace)
}

fn char_punct(c: char) -> (r: bool)
    ensures
        r == char_is_punct(c),
{
    (c as u32) < 128 && check_ascii(c as u32 as u8, Category::Punct)
}

pub(crate) fn char_name_start(c: char) -> (r: bool)
    ensures
        r == in_start_char_table(c),
{
    if (c as u32) < 128 {
        check_ascii(c as u32 as u8, Category::NameStart)
    } else {
        proof {
            lemma_start_char_table(c);
        }
        search_table(c, &XML_START_CHAR_TABLE)
    }
}

pub(crate) fn char_name(c: char) -> (r: bool)
    ensures
        r == in_continue_char_table(c),
{
    if (c as u32) < 128 {
        check_ascii(c as u32 as u8, Category::Name)
    } else {
        proof {
            lemma_continue_char_table(c);
        }
        search_table(c, &XML_CONTINUE_CHAR_TABLE)
    }
}

pub(crate) fn char_xml(c: char) -> (r: bool)
    ensures
        r == in_char_table(c),
{
    if (c as u32) < 128 {
        c >= '\u{20}' || c == '\x09' || c == '\x0D' || c == '\x0A'
    } else {
        proof {
            lemma_char_table(c);
        }
        search_table(c, &XML_CHAR)
    }
}

fn char_pubid(c: char) -> (r: bool)
    ensures
        r == char_is_pubid(c),
{
    (c as u32) < 128 && check_ascii(c as u32 as u8, Category::PubId)
}

impl XmlAsciiChar for char {
    open spec fn spec_xml_whitespace(&self) -> bool {
        char_is_whitespace(*self)
    }

    open spec fn spec_xml_punct(&self) -> bool {
        char_is_punct(*self)
    }

    fn is_xml_whitespace(&self) -> (r: bool) {
        char_whitespace(*self)
    }

    fn is_xml_punct(&self) -> (r: bool) {
        char_punct(*self)
    }
}

impl XmlChar for char {
    open spec fn spec_xml_name_start_char(&self) -> bool {
        in_start_char_table(*self)
    }

    open spec fn spec_xml_name_char(&self) -> bool {
        in_continue_char_table(*self)
    }

    open spec fn spec_xml_char(&self) -> bool {
        in_char_table(*self)
    }

    open spec fn spec_xml_pubid_char(&self) -> bool {
        char_is_pubid(*self)
    }

    fn is_xml_name_start_char(&self) -> (r: bool) {
        char_name_start(*self)
    }

    fn is_xml_name_char(&self) -> (r: bool) {
        char_name(*self)
    }

    fn is_xml_char(&self) -> (r: bool) {
        char_xml(*self)
    }

    fn is_xml_pubid_char(&self) -> (r: bool) {
        char_pubid(*self)
    }
}

} // verus!

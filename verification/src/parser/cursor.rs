//! A position in a string being parsed.
use vstd::prelude::*;
use vstd::utf8::*;

use crate::text::{blen, byte_len, first_char, has_prefix, is_prefix, split_chars};

verus! {

broadcast use vstd::string::group_string_axioms;

/// The rest of the input and the byte offset at which it starts.
#[derive(Copy, Clone, Debug, PartialEq, Eq)]
pub struct Cursor<'a> {
    rest: &'a str,
    offset: usize,
}

impl<'a> View for Cursor<'a> {
    type V = Seq<char>;

    closed spec fn view(&self) -> Seq<char> {
        self.rest@
    }
}

/// Moving forward by `a` and then by `b` characters is moving forward by `a + b`.
pub proof fn lemma_skipped_trans<'a>(c1: Cursor<'a>, c2: Cursor<'a>, c3: Cursor<'a>, a: int, b: int)
    requires
        c1.skipped(a, c2),
        c2.skipped(b, c3),
    ensures
        c1.skipped(a + b, c3),
{
    let s = c1@;
    assert(s.skip(a).skip(b) =~= s.skip(a + b));
    assert(s.take(a + b) =~= s.take(a) + s.skip(a).take(b));
    crate::text::lemma_encode_utf8_concat(s.take(a), s.skip(a).take(b));
}

/// Moving forward twice is moving forward.
pub proof fn lemma_followed_trans<'a>(c1: Cursor<'a>, c2: Cursor<'a>, c3: Cursor<'a>)
    requires
        c1.followed_by(c2),
        c2.followed_by(c3),
    ensures
        c1.followed_by(c3),
{
    lemma_skipped_trans(c1, c2, c3, c1@.len() - c2@.len(), c2@.len() - c3@.len());
}

/// A cursor is followed by itself, having moved by nothing.
pub proof fn lemma_stay<'a>(c: Cursor<'a>)
    ensures
        c.skipped(0, c),
        c.followed_by(c),
        c.spec_offset() <= usize::MAX,
{
    assert(c@.skip(0) =~= c@);
    assert(c@.take(0) =~= Seq::<char>::empty());
    assert(encode_utf8(Seq::<char>::empty()) =~= Seq::<u8>::empty());
}

/// The number of characters between two cursors.
pub open spec fn consumed<'a>(from: Cursor<'a>, to: Cursor<'a>) -> nat {
    (from@.len() - to@.len()) as nat
}

/// The bytes of the UTF-8 encoding of `s`.
pub open spec fn bytes_of(s: Seq<char>) -> Seq<u8> {
    encode_utf8(s)
}

impl<'a> Cursor<'a> {
    #[verifier::type_invariant]
    closed spec fn inv(self) -> bool {
        self.offset + blen(self.rest@) <= usize::MAX
    }

    /// The byte offset of the rest in the whole input.
    pub closed spec fn spec_offset(self) -> nat {
        self.offset as nat
    }

    /// `next` is this cursor moved forward past its first `k` characters.
    pub open spec fn skipped(self, k: int, next: Cursor<'a>) -> bool {
        &&& 0 <= k <= self@.len()
        &&& next@ == self@.skip(k)
        &&& next.spec_offset() == self.spec_offset() + blen(self@.take(k))
    }

    /// `next` is this cursor moved forward.
    pub open spec fn followed_by(self, next: Cursor<'a>) -> bool {
        self.skipped(self@.len() - next@.len(), next)
    }

    pub fn new(input: &'a str) -> (r: Self)
        ensures
            r@ == input@,
            r.spec_offset() == 0,
    {
        let _ = byte_len(input);
        Self { rest: input, offset: 0 }
    }

    pub fn next_char(&self) -> (r: Option<char>)
        ensures
            r == (if self@.len() > 0 {
                Some(self@[0])
            } else {
                None::<char>
            }),
    {
        first_char(self.rest)
    }

    pub fn next_byte(&self, i: usize) -> (r: Option<u8>)
        ensures
            r == (if i < bytes_of(self@).len() {
                Some(bytes_of(self@)[i as int])
            } else {
                None::<u8>
            }),
    {
        let bytes = self.rest.as_bytes();
        if i < bytes.len() {
            Some(bytes[i])
        } else {
            None
        }
    }

    pub fn has_next_char(&self, pat: char) -> (r: bool)
        ensures
            r == (self@.len() > 0 && self@[0] == pat),
    {
        match first_char(self.rest) {
            Some(c) => c == pat,
            None => false,
        }
    }

    pub fn has_next_byte(&self, pat: u8) -> (r: bool)
        ensures
            r == (bytes_of(self@).len() > 0 && bytes_of(self@)[0] == pat),
    {
        let bytes = self.rest.as_bytes();
        bytes.len() > 0 && bytes[0] == pat
    }

    pub fn has_next_str(&self, pat: &str) -> (r: bool)
        ensures
            r == is_prefix(pat@, self@),
    {
        has_prefix(self.rest, pat)
    }

    pub fn has_next_bytes(&self, pat: &[u8]) -> (r: bool)
        ensures
            r == (pat@.len() <= bytes_of(self@).len() && bytes_of(self@).take(pat@.len() as int)
                == pat@),
    {
        let bytes = self.rest.as_bytes();
        if pat.len() > bytes.len() {
            return false;
        }
        let mut i: usize = 0;
        while i < pat.len()
            invariant
                pat@.len() <= bytes@.len(),
                bytes@ == bytes_of(self@),
                0 <= i <= pat@.len(),
                bytes@.take(i as int) == pat@.take(i as int),
            decreases pat@.len() - i,
        {
            if bytes[i] != pat[i] {
                assert(bytes@.take(pat@.len() as int)[i as int] != pat@[i as int]);
                return false;
            }
            assert(bytes@.take(i + 1) =~= bytes@.take(i as int).push(bytes@[i as int]));
            assert(pat@.take(i + 1) =~= pat@.take(i as int).push(pat@[i as int]));
            i = i + 1;
        }
        assert(pat@.take(i as int) =~= pat@);
        true
    }

    pub fn offset(&self) -> (r: usize)
        ensures
            r == self.spec_offset(),
    {
        self.offset
    }

    pub fn rest(&self) -> (r: &'a str)
        ensures
            r@ == self@,
            self.spec_offset() + blen(self@) <= usize::MAX,
    {
        proof {
            use_type_invariant(self);
        }
        self.rest
    }

    pub fn rest_bytes(&self) -> (r: &'a [u8])
        ensures
            r@ == bytes_of(self@),
    {
        self.rest.as_bytes()
    }

    pub fn is_at_end(&self) -> (r: bool)
        ensures
            r == (self@.len() == 0),
    {
        self.rest.is_empty()
    }

    /// Moves past the first `bytes` bytes, which must end on a character boundary.
    pub fn advance(&self, bytes: usize) -> (r: Self)
        requires
            is_char_boundary(bytes_of(self@), bytes as int),
        ensures
            bytes_of(r@) == bytes_of(self@).skip(bytes as int),
            r.spec_offset() == self.spec_offset() + bytes,
    {
        self.advance2(bytes).1
    }

    /// Splits off the first `bytes` bytes, which must end on a character boundary.
    pub fn advance2(&self, bytes: usize) -> (r: (&'a str, Self))
        requires
            is_char_boundary(bytes_of(self@), bytes as int),
        ensures
            bytes_of(r.0@) == bytes_of(self@).take(bytes as int),
            bytes_of(r.1@) == bytes_of(self@).skip(bytes as int),
            r.1.spec_offset() == self.spec_offset() + bytes,
    {
        proof {
            use_type_invariant(self);
            vstd::utf8::encode_utf8_valid_utf8(self@);
            vstd::utf8::valid_utf8_split(bytes_of(self@), bytes as int);
            vstd::utf8::decode_utf8_encode_utf8(bytes_of(self@).skip(bytes as int));
            assert(bytes_of(self@).skip(bytes as int) =~= bytes_of(self@).subrange(
                bytes as int,
                bytes_of(self@).len() as int,
            ));
        }
        let (diff, rest) = self.rest.split_at(bytes);
        proof {
            assert(bytes_of(rest@) =~= bytes_of(self@).skip(bytes as int));
            assert(bytes_of(diff@) =~= bytes_of(self@).take(bytes as int));
        }
        (diff, Self { rest, offset: self.offset + bytes })
    }

    /// Moves past the first character, which is `c`.
    pub fn skip_char(&self, c: char) -> (r: Self)
        requires
            self@.len() > 0,
            self@[0] == c,
        ensures
            self.skipped(1, r),
    {
        proof {
            crate::text::lemma_blen_step(self@, 0);
            assert(self@.take(0) =~= Seq::<char>::empty());
            assert(encode_utf8(Seq::<char>::empty()) =~= Seq::<u8>::empty());
        }
        self.skip_chars(Ghost(1), crate::text::utf8_width(c))
    }

    /// Moves past the first `k` characters, which take `n` bytes.
    pub fn skip_chars(&self, Ghost(k): Ghost<int>, n: usize) -> (r: Self)
        requires
            0 <= k <= self@.len(),
            n == blen(self@.take(k)),
        ensures
            self.skipped(k, r),
    {
        self.split_chars(Ghost(k), n).1
    }

    /// Splits off the first `k` characters, which take `n` bytes.
    pub fn split_chars(&self, Ghost(k): Ghost<int>, n: usize) -> (r: (&'a str, Self))
        requires
            0 <= k <= self@.len(),
            n == blen(self@.take(k)),
        ensures
            r.0@ == self@.take(k),
            self.skipped(k, r.1),
    {
        proof {
            use_type_invariant(self);
            crate::text::lemma_blen_split(self@, k);
        }
        let (diff, rest) = split_chars(self.rest, Ghost(k), n);
        (diff, Self { rest, offset: self.offset + n })
    }
}

} // verus!

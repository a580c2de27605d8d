//! Parsers of text: a literal, and the characters or bytes that a predicate accepts.
use vstd::prelude::*;

use crate::parser::cursor::{bytes_of, lemma_stay, Cursor};
use crate::parser::Parser;
use crate::text::is_prefix;

verus! {

broadcast use vstd::string::group_string_axioms;

/// The literal `lit`.
pub fn lit(literal: &'static str) -> (r: Lit)
    ensures
        r.lit == literal,
{
    Lit { lit: literal }
}

/// A literal text.
pub struct Lit {
    pub lit: &'static str,
}

impl<'a> Parser<'a> for Lit {
    type Attribute = ();

    type Error = ();

    open spec fn ready(&self) -> bool {
        true
    }

    open spec fn parses(&self, input: Seq<char>, res: Result<((), nat), ()>) -> bool {
        if is_prefix(self.lit@, input) {
            res == Ok::<((), nat), ()>(((), self.lit@.len()))
        } else {
            res == Err::<((), nat), ()>(())
        }
    }

    fn parse(&self, cur: Cursor<'a>) -> (res: Result<((), Cursor<'a>), ()>) {
        match crate::reader::tokens::expect_token(cur, self.lit) {
            Ok((_, c)) => Ok(((), c)),
            Err(_) => Err(()),
        }
    }
}

/// The characters that `predicate` accepts, up to the first one it does not.
pub fn chars<P: Fn(char) -> bool>(predicate: P) -> (r: Chars<P>)
    ensures
        r.predicate == predicate,
{
    Chars { predicate }
}

/// The characters that a predicate accepts, which must be followed by one it does not.
pub struct Chars<P: Fn(char) -> bool> {
    pub predicate: P,
}

impl<'a, P: Fn(char) -> bool> Parser<'a> for Chars<P> {
    type Attribute = &'a str;

    type Error = ();

    /// The predicate takes every character.
    open spec fn ready(&self) -> bool {
        forall|c: char| #[trigger] call_requires(self.predicate, (c,))
    }

    open spec fn parses(&self, input: Seq<char>, res: Result<(&'a str, nat), ()>) -> bool {
        match res {
            Ok((s, n)) => {
                &&& n < input.len()
                &&& s@ == input.take(n as int)
                &&& forall|j: int| 0 <= j < n ==> call_ensures(self.predicate, (#[trigger] input[j],), true)
                &&& call_ensures(self.predicate, (input[n as int],), false)
            },
            Err(_) => forall|j: int| 0 <= j < input.len() ==> call_ensures(self.predicate, (#[trigger] input[j],), true),
        }
    }

    fn parse(&self, cur: Cursor<'a>) -> (res: Result<(&'a str, Cursor<'a>), ()>) {
        let mut here = cur;
        let ghost mut k: int = 0;
        proof {
            lemma_stay(cur);
        }
        loop
            invariant
                forall|c: char| #[trigger] call_requires(self.predicate, (c,)),
                0 <= k <= cur@.len(),
                cur.skipped(k, here),
                forall|j: int| 0 <= j < k ==> call_ensures(self.predicate, (#[trigger] cur@[j],), true),
            decreases cur@.len() - k,
        {
            match here.next_char() {
                None => {
                    return Err(());
                },
                Some(c) => {
                    let ok = (self.predicate)(c);
                    proof {
                        assert(cur@[k] == c);
                    }
                    if !ok {
                        let (s, next) = cur.split_chars(Ghost(k), here.offset() - cur.offset());
                        proof {
                            assert(cur@.skip(k) == next@);
                        }
                        return Ok((s, next));
                    }
                    let next = here.skip_char(c);
                    proof {
                        crate::parser::cursor::lemma_skipped_trans(cur, here, next, k, 1);
                        k = k + 1;
                    }
                    here = next;
                },
            }
        }
    }
}

/// The bytes that `predicate` accepts, up to the first one it does not.
pub fn bytes<P: Fn(u8) -> bool>(predicate: P) -> (r: Bytes<P>)
    ensures
        r.predicate == predicate,
{
    Bytes { predicate }
}

/// The bytes that a predicate accepts, which must be followed by one it does not.
pub struct Bytes<P: Fn(u8) -> bool> {
    pub predicate: P,
}

impl<'a, P: Fn(u8) -> bool> Parser<'a> for Bytes<P> {
    type Attribute = &'a str;

    type Error = ();

    /// The predicate takes every byte, and accepts every byte that goes on a character,
    /// so that the text it accepts ends where a character ends.
    open spec fn ready(&self) -> bool {
        &&& forall|b: u8| #[trigger] call_requires(self.predicate, (b,))
        &&& forall|b: u8, r: bool| vstd::utf8::is_continuation_byte(b) && #[trigger] call_ensures(self.predicate, (b,), r) ==> r
    }

    open spec fn parses(&self, input: Seq<char>, res: Result<(&'a str, nat), ()>) -> bool {
        let b = bytes_of(input);
        match res {
            Ok((s, n)) => exists|i: int| {
                &&& 0 <= i < b.len()
                &&& #[trigger] bytes_of(s@) == b.take(i)
                &&& s@ == input.take(n as int)
                &&& (forall|j: int| 0 <= j < i ==> call_ensures(self.predicate, (#[trigger] b[j],), true))
                &&& call_ensures(self.predicate, (b[i],), false)
            },
            Err(_) => forall|j: int| 0 <= j < b.len() ==> call_ensures(self.predicate, (#[trigger] b[j],), true),
        }
    }

    fn parse(&self, cur: Cursor<'a>) -> (res: Result<(&'a str, Cursor<'a>), ()>) {
        let b = cur.rest_bytes();
        let mut i: usize = 0;
        while i < b.len()
            invariant
                forall|x: u8| #[trigger] call_requires(self.predicate, (x,)),
                forall|x: u8, r: bool| vstd::utf8::is_continuation_byte(x) && #[trigger] call_ensures(self.predicate, (x,), r) ==> r,
                b@ == bytes_of(cur@),
                i <= b@.len(),
                forall|j: int| 0 <= j < i ==> call_ensures(self.predicate, (#[trigger] b@[j],), true),
            decreases b@.len() - i,
        {
            let ok = (self.predicate)(b[i]);
            if !ok {
                proof {
                    vstd::utf8::encode_utf8_valid_utf8(cur@);
                    vstd::utf8::is_char_boundary_iff_not_is_continuation_byte(b@, i as int);
                    vstd::utf8::decode_utf8_split(b@, i as int);
                    vstd::utf8::encode_utf8_decode_utf8(cur@);
                }
                let (s, next) = cur.advance2(i);
                proof {
                    vstd::utf8::valid_utf8_split(b@, i as int);
                    assert(b@.take(i as int) =~= b@.subrange(0, i as int));
                    assert(b@.skip(i as int) =~= b@.subrange(i as int, b@.len() as int));
                    vstd::utf8::decode_utf8_encode_utf8(b@.take(i as int));
                    vstd::utf8::decode_utf8_encode_utf8(b@.skip(i as int));
                    vstd::utf8::encode_utf8_decode_utf8(s@);
                    vstd::utf8::encode_utf8_decode_utf8(next@);
                    assert(cur@ == s@ + next@);
                    let k = s@.len() as int;
                    assert(cur@.take(k) =~= s@);
                    assert(cur@.skip(k) =~= next@);
                    assert(bytes_of(s@) == b@.take(i as int));
                }
                return Ok((s, next));
            }
            i = i + 1;
        }
        Err(())
    }
}

} // verus!

//! The core combinators: the text that a parser reads, an optional parser, and
//! repetitions.
use std::marker::PhantomData;
use vstd::prelude::*;

use crate::parser::cursor::{consumed, lemma_followed_trans, lemma_stay, Cursor};
use crate::parser::Parser;

verus! {

/// The text that `parser` reads, in place of its attribute.
pub fn raw<'a, T: 'a + Parser<'a>>(parser: T) -> (r: Raw<'a, T>)
    ensures
        r.0 == parser,
{
    Raw(parser, PhantomData)
}

/// The text that a parser reads.
pub struct Raw<'a, T: Parser<'a>>(pub T, pub PhantomData<&'a T>);

impl<'a, T: Parser<'a>> Parser<'a> for Raw<'a, T> {
    type Attribute = &'a str;

    type Error = T::Error;

    open spec fn ready(&self) -> bool {
        self.0.ready()
    }

    open spec fn parses(&self, input: Seq<char>, res: Result<(&'a str, nat), T::Error>) -> bool {
        match res {
            Ok((s, n)) => s@ == input.take(n as int) && exists|a: T::Attribute| #[trigger] self.0.parses(input, Ok((a, n))),
            Err(e) => self.0.parses(input, Err(e)),
        }
    }

    fn parse(&self, start: Cursor<'a>) -> (res: Result<(&'a str, Cursor<'a>), T::Error>) {
        let (a, end) = match self.0.parse(start) {
            Ok(r) => r,
            Err(e) => {
                return Err(e);
            },
        };
        let ghost k = consumed(start, end);
        proof {
            assert(self.0.parses(start@, Ok((a, k))));
        }
        let (s, next) = start.split_chars(Ghost(k as int), end.offset() - start.offset());
        proof {
            assert(start@.skip(k as int) == next@);
        }
        Ok((s, next))
    }
}

/// `parser`, or nothing where it fails.
pub fn optional<'a, T: Parser<'a>>(parser: T) -> (r: Optional<T>)
    ensures
        r.0 == parser,
{
    Optional(parser)
}

/// A parser, or nothing where it fails.
pub struct Optional<T>(pub T);

impl<'a, T: Parser<'a>> Parser<'a> for Optional<T> {
    type Attribute = Option<T::Attribute>;

    type Error = T::Error;

    open spec fn ready(&self) -> bool {
        self.0.ready()
    }

    open spec fn parses(&self, input: Seq<char>, res: Result<(Option<T::Attribute>, nat), T::Error>) -> bool {
        match res {
            Ok((Some(a), n)) => self.0.parses(input, Ok((a, n))),
            Ok((None, n)) => n == 0 && exists|e: T::Error| #[trigger] self.0.parses(input, Err(e)),
            Err(_) => false,
        }
    }

    fn parse(&self, cur: Cursor<'a>) -> (res: Result<(Option<T::Attribute>, Cursor<'a>), T::Error>) {
        match self.0.parse(cur) {
            Ok((a, c)) => Ok((Some(a), c)),
            Err(e) => {
                proof {
                    lemma_stay(cur);
                    assert(self.0.parses(cur@, Err(e)));
                }
                Ok((None, cur))
            },
        }
    }
}

/// The parser never succeeds without reading something.
pub open spec fn never_empty<'a, T: Parser<'a>>(p: T) -> bool {
    forall|input: Seq<char>, a: T::Attribute| !#[trigger] p.parses(input, Ok((a, 0nat)))
}

/// `items` are what `p` read, one after the other, from the start of `input`, taking
/// `n` characters in all.
pub open spec fn chain<'a, T: Parser<'a>>(p: T, input: Seq<char>, items: Seq<T::Attribute>, n: nat) -> bool
    decreases items.len(),
{
    if items.len() == 0 {
        n == 0
    } else {
        exists|m: nat| m < n <= input.len() && chain(p, input, items.drop_last(), m) && #[trigger] p.parses(
            input.skip(m as int),
            Ok((items.last(), (n - m) as nat)),
        )
    }
}

/// `p` read `items` one after the other, taking `n` characters, and then failed.
pub open spec fn repeated<'a, T: Parser<'a>>(p: T, input: Seq<char>, items: Seq<T::Attribute>, n: nat) -> bool {
    &&& chain(p, input, items, n)
    &&& exists|e: T::Error| #[trigger] p.parses(input.skip(n as int), Err(e))
}

/// Reads with `p` as long as it succeeds, after `items` read from `start` up to `cur`.
fn repeat<'a, T: Parser<'a>>(p: &T, start: Cursor<'a>, cur: Cursor<'a>, items: &mut Vec<T::Attribute>) -> (r: Cursor<'a>)
    requires
        p.ready(),
        never_empty(*p),
        start.followed_by(cur),
        chain(*p, start@, old(items)@, consumed(start, cur)),
    ensures
        start.followed_by(r),
        repeated(*p, start@, final(items)@, consumed(start, r)),
        final(items)@.len() >= old(items)@.len(),
    decreases cur@.len(),
{
    proof {
        assert(start@.skip(consumed(start, cur) as int) == cur@);
    }
    match p.parse(cur) {
        Ok((a, next)) => {
            let ghost before = items@;
            let ghost m = consumed(start, cur);
            items.push(a);
            proof {
                lemma_followed_trans(start, cur, next);
                if consumed(cur, next) == 0 {
                    assert(p.parses(cur@, Ok((a, 0nat))));
                }
                assert(items@.drop_last() =~= before);
                assert(start@.skip(m as int) == cur@);
                assert(p.parses(start@.skip(m as int), Ok((items@.last(), (consumed(start, next) - m) as nat))));
            }
            repeat(p, start, next, items)
        },
        Err(e) => {
            proof {
                assert(p.parses(start@.skip(consumed(start, cur) as int), Err(e)));
            }
            cur
        },
    }
}

/// `parser` as many times as it succeeds, possibly none.
pub fn kleene<'a, T: Parser<'a>>(parser: T) -> (r: Kleene<T>)
    ensures
        r.0 == parser,
{
    Kleene(parser)
}

/// A parser as many times as it succeeds, possibly none.
pub struct Kleene<T>(pub T);

impl<'a, T: Parser<'a>> Parser<'a> for Kleene<T> {
    type Attribute = Vec<T::Attribute>;

    type Error = T::Error;

    /// The parser can run, and never succeeds without reading something (on which the
    /// repetition would not end).
    open spec fn ready(&self) -> bool {
        self.0.ready() && never_empty(self.0)
    }

    open spec fn parses(&self, input: Seq<char>, res: Result<(Vec<T::Attribute>, nat), T::Error>) -> bool {
        match res {
            Ok((items, n)) => repeated(self.0, input, items@, n),
            Err(_) => false,
        }
    }

    fn parse(&self, cur: Cursor<'a>) -> (res: Result<(Vec<T::Attribute>, Cursor<'a>), T::Error>) {
        let mut res: Vec<T::Attribute> = Vec::new();
        proof {
            lemma_stay(cur);
        }
        let end = repeat(&self.0, cur, cur, &mut res);
        Ok((res, end))
    }
}

/// `parser` as many times as it succeeds, at least once.
pub fn plus<'a, T: Parser<'a>>(parser: T) -> (r: Plus<T>)
    ensures
        r.0 == parser,
{
    Plus(parser)
}

/// A parser as many times as it succeeds, at least once.
pub struct Plus<T>(pub T);

impl<'a, T: Parser<'a>> Parser<'a> for Plus<T> {
    type Attribute = Vec<T::Attribute>;

    type Error = T::Error;

    /// The parser can run, and never succeeds without reading something (on which the
    /// repetition would not end).
    open spec fn ready(&self) -> bool {
        self.0.ready() && never_empty(self.0)
    }

    open spec fn parses(&self, input: Seq<char>, res: Result<(Vec<T::Attribute>, nat), T::Error>) -> bool {
        match res {
            Ok((items, n)) => items@.len() > 0 && repeated(self.0, input, items@, n),
            Err(e) => self.0.parses(input, Err(e)),
        }
    }

    fn parse(&self, cur: Cursor<'a>) -> (res: Result<(Vec<T::Attribute>, Cursor<'a>), T::Error>) {
        let mut res: Vec<T::Attribute> = Vec::new();
        let (first, next) = self.0.parse(cur)?;
        res.push(first);
        proof {
            lemma_stay(cur);
            assert(res@.drop_last() =~= Seq::<T::Attribute>::empty());
            assert(cur@.skip(0) =~= cur@);
            assert(chain(self.0, cur@, res@.drop_last(), 0));
            assert(self.0.parses(cur@.skip(0), Ok((res@.last(), (consumed(cur, next) - 0) as nat))));
        }
        let end = repeat(&self.0, cur, next, &mut res);
        Ok((res, end))
    }
}

} // verus!

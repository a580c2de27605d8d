//! Combinators that change the error a parser gives.
use std::marker::PhantomData;
use vstd::prelude::*;

use crate::parser::cursor::Cursor;
use crate::parser::Parser;

verus! {

/// `parser` with its error mapped by `f`.
pub fn map_error<'a, T: Parser<'a>, E, F: Fn(T::Error) -> E>(parser: T, f: F) -> (r: MapError<'a, T, E, F>)
    ensures
        r.0 == parser,
        r.1 == f,
{
    MapError(parser, f, PhantomData)
}

/// A parser with its error mapped by a function.
#[verifier::reject_recursive_types(E)]
#[verifier::reject_recursive_types(F)]
pub struct MapError<'a, T: Parser<'a>, E, F: Fn(T::Error) -> E>(pub T, pub F, pub PhantomData<&'a E>);

impl<'a, T: Parser<'a>, E, F: Fn(T::Error) -> E> Parser<'a> for MapError<'a, T, E, F> {
    type Attribute = T::Attribute;

    type Error = E;

    /// The parser can run, and the function takes every error.
    open spec fn ready(&self) -> bool {
        self.0.ready() && forall|e: T::Error| #[trigger] call_requires(self.1, (e,))
    }

    open spec fn parses(&self, input: Seq<char>, res: Result<(T::Attribute, nat), E>) -> bool {
        match res {
            Ok((a, n)) => self.0.parses(input, Ok((a, n))),
            Err(e) => exists|e0: T::Error| #[trigger] self.0.parses(input, Err(e0)) && call_ensures(self.1, (e0,), e),
        }
    }

    fn parse(&self, cur: Cursor<'a>) -> (res: Result<(T::Attribute, Cursor<'a>), E>) {
        match self.0.parse(cur) {
            Ok(r) => Ok(r),
            Err(e0) => {
                let e = (self.1)(e0);
                proof {
                    assert(self.0.parses(cur@, Err(e0)));
                }
                Err(e)
            },
        }
    }
}

/// `parser`, giving nothing for its error.
pub fn omit_error<'a, T: Parser<'a>>(parser: T) -> (r: OmitError<T>)
    ensures
        r.0 == parser,
{
    OmitError(parser)
}

/// A parser that gives nothing for its error.
pub struct OmitError<T>(pub T);

impl<'a, T: Parser<'a>> Parser<'a> for OmitError<T> {
    type Attribute = T::Attribute;

    type Error = ();

    open spec fn ready(&self) -> bool {
        self.0.ready()
    }

    open spec fn parses(&self, input: Seq<char>, res: Result<(T::Attribute, nat), ()>) -> bool {
        match res {
            Ok((a, n)) => self.0.parses(input, Ok((a, n))),
            Err(_) => exists|e: T::Error| #[trigger] self.0.parses(input, Err(e)),
        }
    }

    fn parse(&self, cur: Cursor<'a>) -> (res: Result<(T::Attribute, Cursor<'a>), ()>) {
        match self.0.parse(cur) {
            Ok(r) => Ok(r),
            Err(e) => {
                proof {
                    assert(self.0.parses(cur@, Err(e)));
                }
                Err(())
            },
        }
    }
}

} // verus!

//! Parsers over a `Cursor` and their combinators.
use vstd::prelude::*;

use crate::parser::cursor::Cursor;

pub mod compose;
pub mod cursor;
pub mod helper;
pub mod string;

verus! {

/// A parser reads a prefix of the cursor's rest and yields an attribute, or fails.
pub trait Parser<'a> {
    type Attribute;

    type Error;

    /// The parser can run.
    spec fn ready(&self) -> bool;

    /// Parsing `input` gives `res`: the attribute and the number of characters
    /// read, or the error.
    spec fn parses(&self, input: Seq<char>, res: Result<(Self::Attribute, nat), Self::Error>) -> bool;

    fn parse(&self, cursor: Cursor<'a>) -> (res: Result<(Self::Attribute, Cursor<'a>), Self::Error>)
        requires
            self.ready(),
        ensures
            match res {
                Ok((a, c)) => cursor.followed_by(c) && self.parses(
                    cursor@,
                    Ok((a, (cursor@.len() - c@.len()) as nat)),
                ),
                Err(e) => self.parses(cursor@, Err(e)),
            },
    ;
}

} // verus!

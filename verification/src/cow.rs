//! A text built from borrowed pieces that is copied only where two pieces meet.
use std::borrow::Cow;

use vstd::prelude::*;
use vstd::string::StringExecFns;

use crate::events::cow_str;

verus! {

/// A text being built: while at most one non-empty piece went into it, it borrows that
/// piece.
pub struct CowStrBuilder<'a>(pub Cow<'a, str>);

impl<'a> View for CowStrBuilder<'a> {
    type V = Seq<char>;

    open spec fn view(&self) -> Seq<char> {
        self.0@
    }
}

/// The pieces one after the other.
pub open spec fn concat_pieces(pieces: Seq<Seq<char>>) -> Seq<char>
    decreases pieces.len(),
{
    if pieces.len() == 0 {
        Seq::empty()
    } else {
        concat_pieces(pieces.drop_last()) + pieces.last()
    }
}

/// A builder that starts empty and takes the pieces in order, each push appending its
/// piece (as every push of the builder does), builds their concatenation; with no pieces,
/// or only empty ones, the empty text. `texts[i]` is the text after `i` pushes.
pub proof fn lemma_pushes_concatenate(texts: Seq<Seq<char>>, pieces: Seq<Seq<char>>)
    requires
        texts.len() == pieces.len() + 1,
        texts[0].len() == 0,
        forall|i: int| 0 <= i < pieces.len() ==> #[trigger] texts[i + 1] == texts[i] + pieces[i],
    ensures
        texts.last() == concat_pieces(pieces),
        (forall|i: int| 0 <= i < pieces.len() ==> #[trigger] pieces[i].len() == 0) ==> texts.last().len() == 0,
    decreases pieces.len(),
{
    if pieces.len() == 0 {
        assert(texts.last() =~= Seq::<char>::empty());
    } else {
        let n = pieces.len() - 1;
        lemma_pushes_concatenate(texts.drop_last(), pieces.drop_last());
        assert(texts[n + 1] == texts[n] + pieces[n]);
        assert(texts.drop_last().last() == texts[n]);
        if forall|i: int| 0 <= i < pieces.len() ==> #[trigger] pieces[i].len() == 0 {
            assert forall|i: int| 0 <= i < pieces.drop_last().len() implies #[trigger] pieces.drop_last()[i].len() == 0 by {
                assert(pieces.drop_last()[i] == pieces[i]);
            }
            assert(pieces[n].len() == 0);
        }
    }
}

impl<'a> Default for CowStrBuilder<'a> {
    fn default() -> (r: Self)
        ensures
            r@.len() == 0,
            r.0 matches Cow::Borrowed(_),
    {
        proof {
            reveal_strlit("");
        }
        CowStrBuilder(Cow::Borrowed(""))
    }
}

impl<'a> CowStrBuilder<'a> {
    /// The text built.
    pub fn build(self) -> (r: Cow<'a, str>)
        ensures
            r@ == self@,
    {
        self.0
    }

    /// Appends a borrowed piece; into an empty text it goes borrowed.
    pub fn push_borrow_str(&mut self, string: &'a str)
        ensures
            final(self)@ == old(self)@ + string@,
            old(self)@.len() == 0 && string@.len() > 0 ==> final(self).0 == Cow::<'a, str>::Borrowed(string),
            old(self)@.len() > 0 && string@.len() > 0 ==> final(self).0 matches Cow::Owned(_),
            string@.len() == 0 ==> *final(self) == *old(self),
    {
        if string.is_empty() {
            proof {
                assert(old(self)@ + string@ =~= old(self)@);
            }
            return;
        }
        if cow_str(&self.0).is_empty() {
            self.0 = Cow::Borrowed(string);
            proof {
                assert(old(self)@ + string@ =~= string@);
            }
            return;
        }
        self.push_str_internal(string);
    }

    /// Appends a piece, which is copied.
    pub fn push_str(&mut self, string: &str)
        ensures
            final(self)@ == old(self)@ + string@,
            string@.len() == 0 ==> *final(self) == *old(self),
            string@.len() > 0 ==> final(self).0 matches Cow::Owned(_),
    {
        if string.is_empty() {
            proof {
                assert(old(self)@ + string@ =~= old(self)@);
            }
            return;
        }
        self.push_str_internal(string);
    }

    /// Appends a piece as it comes; into an empty text it goes as it is.
    pub fn push_cow(&mut self, string: Cow<'a, str>)
        ensures
            final(self)@ == old(self)@ + string@,
            old(self)@.len() == 0 && string@.len() > 0 ==> final(self).0 == string,
            old(self)@.len() > 0 && string@.len() > 0 ==> final(self).0 matches Cow::Owned(_),
            string@.len() == 0 ==> *final(self) == *old(self),
    {
        if cow_str(&string).is_empty() {
            proof {
                assert(old(self)@ + string@ =~= old(self)@);
            }
            return;
        }
        if cow_str(&self.0).is_empty() {
            proof {
                assert(old(self)@ + string@ =~= string@);
            }
            self.0 = string;
            return;
        }
        self.push_str_internal(cow_str(&string));
    }

    /// Appends a piece to a text, which then owns its copy.
    fn push_str_internal(&mut self, string: &str)
        ensures
            final(self)@ == old(self)@ + string@,
            final(self).0 matches Cow::Owned(_),
    {
        let mut current: Cow<'a, str> = Cow::Borrowed("");
        std::mem::swap(&mut self.0, &mut current);
        match current {
            Cow::Borrowed(borrowed) => {
                let mut res = String::new();
                res.append(borrowed);
                res.append(string);
                self.0 = Cow::Owned(res);
            },
            Cow::Owned(mut owned) => {
                owned.append(string);
                self.0 = Cow::Owned(owned);
            },
        }
    }
}

} // verus!

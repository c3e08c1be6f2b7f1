//! What a parser is, apart from how it is run.

use vstd::prelude::*;
use crate::parsers::response::Response;

verus! {

/// A description of how to produce a value of type `A` from an input and an
/// offset into it.
///
/// The description is a relation, not a function: a parser built over a
/// function value answers whatever that function may return.
///
/// Each combinator of this library defines the two by inherent functions,
/// `ready` and `answers`, and each builder says of the parser it returns that
/// `sound` is `ready` and `yields` is `answers`. With that a caller can reason
/// about a parser built over a closure: the type of a closure has no name
/// under which the verifier could look up what `sound` and `yields` mean for
/// it.
pub trait Parser<A> {
    /// Whether the parser can be run: every function value that it holds, or
    /// that a parser it produces holds, accepts every value that can reach
    /// it.
    spec fn sound(&self) -> bool;

    /// Whether `r` is an answer of the parser on the input `s` read from the
    /// offset `o`.
    spec fn yields(&self, s: Seq<u8>, o: usize, r: Response<A>) -> bool;

    /// An answer never lies before the starting offset nor behind the end of
    /// the input, and a success that read nothing lies at the starting
    /// offset.
    proof fn within(&self, s: Seq<u8>, o: usize, r: Response<A>)
        requires
            self.sound(),
            o <= s.len(),
            self.yields(s, o, r),
        ensures
            o <= r.offset() <= s.len(),
            r is Success && !r.consumed() ==> r.offset() == o,
    ;
}

} // verus!

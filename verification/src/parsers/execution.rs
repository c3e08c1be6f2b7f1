//! Running a parser on an input.

use vstd::prelude::*;
use crate::parsers::parser::Parser;
use crate::parsers::response::Response;

verus! {

/// A parser that can be run for its value.
pub trait Executable<'a, A> where Self: Parser<A> {
    /// Runs the parser on `s` from the offset `o`. The response is an answer
    /// of the parser. An offset behind the end of the input is a caller's
    /// mistake, not a rejection.
    fn execute(&self, s: &'a [u8], o: usize) -> (r: Response<A>)
        requires
            self.sound(),
            o <= s@.len(),
        ensures
            self.yields(s@, o, r),
    ;
}

/// A parser that can be run for its verdict alone.
pub trait Parsable<'a, A> where Self: Parser<A> {
    /// Runs the parser on `s` from the offset `o` and drops the value: the
    /// response is an answer of the parser with the unit value in place of
    /// its own.
    fn parse_only(&self, s: &'a [u8], o: usize) -> (r: Response<()>)
        requires
            self.sound(),
            o <= s@.len(),
        ensures
            exists|full: Response<A>| #[trigger] self.yields(s@, o, full) && r == full.forget(),
    ;
}

} // verus!

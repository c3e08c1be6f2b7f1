//! A backtracking parser-combinator engine over byte slices.
//!
//! A parser is an immutable value. Running it on an input and a starting
//! offset gives a [`parsers::response::Response`]: a success with a value, or a
//! rejection, each with an offset and a flag that tells whether input was read.
//! What a parser may answer is fixed by a relation over the input, the offset
//! and the response, and every executable parser is proved against it.

pub mod parsers;

//! The result model, the parser abstraction and the combinators.

pub mod response;
pub mod parser;
pub mod execution;
pub mod basic;
pub mod flow;
pub mod monadic;
pub mod laws;

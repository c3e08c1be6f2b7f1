use parsecute::parsers::basic::{any, fail, returning, satisfy, Any, Returns};
use parsecute::parsers::execution::{Executable, Parsable};
use parsecute::parsers::flow::AndOperation;
use parsecute::parsers::monadic::{bind, fmap, join};
use parsecute::parsers::response::Response;

#[test]
fn fmap_applies_the_function_to_the_value() {
    let p = fmap(|c: u8| u32::from(c) + 1, any());
    assert_eq!(p.execute(b"a", 0), Response::Success(98u32, 1, true));
}

#[test]
fn fmap_of_a_sequence() {
    let p = fmap(|_: (u8, u8)| 1, any().and_then(any()));
    assert_eq!(p.execute(b"ab", 0), Response::Success(1, 2, true));
}

#[test]
fn fmap_passes_a_rejection_through() {
    let p = fmap(|_: (u8, u8)| 1, any().and_then(any()));
    assert_eq!(p.execute(b"a", 0), Response::Reject(1, true));
    assert_eq!(p.execute(b"", 0), Response::Reject(0, false));
}

#[test]
fn bind_runs_the_parser_made_of_the_value() {
    let same = bind(|c: u8| satisfy(any(), move |d: &u8| *d == c), any());
    assert_eq!(same.execute(b"aa", 0), Response::Success(b'a', 2, true));
    assert_eq!(same.execute(b"ab", 0), Response::Reject(1, true));
    assert_eq!(same.execute(b"a", 0), Response::Reject(1, true));
}

#[test]
fn bind_passes_the_first_rejection_through() {
    let same = bind(|c: u8| returning(c), any());
    assert_eq!(same.execute(b"", 0), Response::Reject(0, false));
    let late = bind(|p: (u8, u8)| returning(p.0), any().and_then(any()));
    assert_eq!(late.execute(b"a", 0), Response::Reject(1, true));
}

#[test]
fn bind_joins_the_consumed_flags() {
    let first = bind(|c: u8| returning(c), any());
    assert_eq!(first.execute(b"a", 0), Response::Success(b'a', 1, true));
    let second = bind(|_: u8| any(), returning(0u8));
    assert_eq!(second.execute(b"a", 0), Response::Success(b'a', 1, true));
    let neither = bind(|c: u8| returning(c + 1), returning(1u8));
    assert_eq!(neither.execute(b"a", 0), Response::Success(2, 0, false));
    let rejected = bind(|_: u8| fail::<u8>(), any());
    assert_eq!(rejected.execute(b"a", 0), Response::Reject(1, true));
    let untouched = bind(|_: u8| fail::<u8>(), returning(1u8));
    assert_eq!(untouched.execute(b"a", 0), Response::Reject(0, false));
}

#[test]
fn join_runs_the_parser_that_was_produced() {
    let p = join::<Returns<Any>, Any, u8>(returning(any()));
    assert_eq!(p.execute(b"a", 0), Response::Success(b'a', 1, true));
    assert_eq!(p.execute(b"a", 1), Response::Reject(1, false));
    let q = join(fmap(|c: u8| returning(c), any()));
    assert_eq!(q.execute(b"ab", 1), Response::Success(b'b', 2, true));
    assert_eq!(q.execute(b"ab", 2), Response::Reject(2, false));
}

#[test]
fn join_answers_as_bind_of_the_identity() {
    let inputs: [&[u8]; 3] = [b"", b"a", b"ab"];
    for input in inputs {
        for o in 0..=input.len() {
            let joined = join(fmap(|_: u8| any(), any()));
            let bound = bind(|q: Any| q, fmap(|_: u8| any(), any()));
            assert_eq!(joined.execute(input, o), bound.execute(input, o));
        }
    }
}

#[test]
fn parse_only_gives_the_verdict_of_the_monadic_combinators() {
    let mapped = fmap(|c: u8| u32::from(c), any());
    assert_eq!(mapped.parse_only(b"a", 0), Response::Success((), 1, true));
    assert_eq!(mapped.parse_only(b"", 0), Response::Reject(0, false));
    let bound = bind(|c: u8| satisfy(any(), move |d: &u8| *d == c), any());
    assert_eq!(bound.parse_only(b"aa", 0), Response::Success((), 2, true));
    assert_eq!(bound.parse_only(b"ab", 0), Response::Reject(1, true));
    let joined = join(fmap(|_: u8| any(), any()));
    assert_eq!(joined.parse_only(b"ab", 0), Response::Success((), 2, true));
    assert_eq!(joined.parse_only(b"a", 0), Response::Reject(1, true));
    assert_eq!(joined.parse_only(b"", 0), Response::Reject(0, false));
}

use parsecute::parsers::basic::{
    any, do_try, eos, fail, lookahead, returning, satisfy, SatisfyOperation,
};
use parsecute::parsers::execution::{Executable, Parsable};
use parsecute::parsers::flow::AndOperation;
use parsecute::parsers::response::{Fold, Response};

#[test]
fn any_reads_the_element_at_the_offset() {
    assert_eq!(any().execute(b"abc", 0), Response::Success(b'a', 1, true));
    assert_eq!(any().execute(b"abc", 1), Response::Success(b'b', 2, true));
    assert_eq!(any().execute(b"abc", 2), Response::Success(b'c', 3, true));
}

#[test]
fn any_rejects_at_the_end() {
    assert_eq!(any().execute(b"abc", 3), Response::Reject(3, false));
    assert_eq!(any().execute(b"", 0), Response::Reject(0, false));
}

#[test]
fn eos_succeeds_only_at_the_end() {
    assert_eq!(eos().execute(b"", 0), Response::Success((), 0, false));
    assert_eq!(eos().execute(b"ab", 2), Response::Success((), 2, false));
    assert_eq!(eos().execute(b"ab", 0), Response::Reject(0, false));
    assert_eq!(eos().execute(b"ab", 1), Response::Reject(1, false));
}

#[test]
fn returning_succeeds_on_every_input() {
    assert_eq!(returning(7u32).execute(b"", 0), Response::Success(7, 0, false));
    assert_eq!(returning(7u32).execute(b"ab", 0), Response::Success(7, 0, false));
    assert_eq!(returning(7u32).execute(b"ab", 2), Response::Success(7, 2, false));
}

#[test]
fn fail_rejects_on_every_input() {
    assert_eq!(fail::<u32>().execute(b"", 0), Response::Reject(0, false));
    assert_eq!(fail::<u32>().execute(b"ab", 1), Response::Reject(1, false));
    assert_eq!(fail::<u32>().execute(b"ab", 2), Response::Reject(2, false));
}

#[test]
fn satisfy_rejects_a_letter_where_a_digit_is_asked() {
    let digit = satisfy(any(), |c: &u8| c.is_ascii_digit());
    assert_eq!(digit.execute(b"a", 0), Response::Reject(0, true));
}

#[test]
fn satisfy_passes_a_success_through() {
    let digit = satisfy(any(), |c: &u8| c.is_ascii_digit());
    assert_eq!(digit.execute(b"x7", 1), Response::Success(b'7', 2, true));
}

#[test]
fn satisfy_rejects_at_the_starting_offset() {
    let pair = any().and_then(any());
    let never = satisfy(pair, |_: &(u8, u8)| false);
    assert_eq!(never.execute(b"xab", 1), Response::Reject(1, true));
    let short = satisfy(any().and_then(any()), |_: &(u8, u8)| true);
    assert_eq!(short.execute(b"xa", 1), Response::Reject(1, true));
    let empty = satisfy(any(), |_: &u8| true);
    assert_eq!(empty.execute(b"x", 1), Response::Reject(1, false));
}

#[test]
fn satisfy_has_a_method_form() {
    let a = any().satisfy(|c: &u8| *c == b'a');
    assert_eq!(a.execute(b"a", 0), Response::Success(b'a', 1, true));
    assert_eq!(a.execute(b"b", 0), Response::Reject(0, true));
}

#[test]
fn do_try_clears_the_flag_of_a_rejection() {
    let pair = do_try(any().and_then(any()));
    assert_eq!(any().and_then(any()).execute(b"a", 0), Response::Reject(1, true));
    assert_eq!(pair.execute(b"a", 0), Response::Reject(1, false));
}

#[test]
fn do_try_passes_a_success_through() {
    let pair = do_try(any().and_then(any()));
    assert_eq!(pair.execute(b"ab", 0), Response::Success((b'a', b'b'), 2, true));
}

#[test]
fn lookahead_keeps_the_offset() {
    let pair = lookahead(any().and_then(any()));
    assert_eq!(pair.execute(b"xab", 1), Response::Success((b'a', b'b'), 1, true));
    assert_eq!(pair.execute(b"xa", 1), Response::Reject(1, true));
    assert_eq!(pair.execute(b"x", 1), Response::Reject(1, false));
}

#[test]
fn lookahead_leaves_the_next_parser_in_place() {
    let p = lookahead(any()).and_then(any());
    assert_eq!(p.execute(b"ab", 0), Response::Success((b'a', b'a'), 1, true));
    assert_eq!(p.execute(b"ab", 1), Response::Success((b'b', b'b'), 2, true));
}

#[test]
fn fold_calls_the_callback_of_the_verdict() {
    let success: Response<u8> = Response::Success(5, 3, true);
    assert_eq!(success.fold(|a, i, b| (a as usize + i, b), |_, _| (0, false)), (8, true));
    let reject: Response<u8> = Response::Reject(4, true);
    assert_eq!(reject.fold(|_, _, _| (0, false), |i, b| (i, b)), (4, true));
}

#[test]
fn parse_only_gives_the_verdict_of_the_primitives() {
    assert_eq!(any().parse_only(b"a", 0), Response::Success((), 1, true));
    assert_eq!(any().parse_only(b"a", 1), Response::Reject(1, false));
    assert_eq!(eos().parse_only(b"a", 1), Response::Success((), 1, false));
    assert_eq!(eos().parse_only(b"a", 0), Response::Reject(0, false));
    assert_eq!(returning(3u8).parse_only(b"a", 0), Response::Success((), 0, false));
    assert_eq!(fail::<u8>().parse_only(b"a", 0), Response::Reject(0, false));
}

#[test]
fn parse_only_gives_the_verdict_of_the_wrappers() {
    let pair = any().and_then(any());
    assert_eq!(do_try(pair).parse_only(b"a", 0), Response::Reject(1, false));
    assert_eq!(lookahead(any()).parse_only(b"a", 0), Response::Success((), 0, true));
    let digit = satisfy(any(), |c: &u8| c.is_ascii_digit());
    assert_eq!(digit.parse_only(b"1", 0), Response::Success((), 1, true));
    assert_eq!(digit.parse_only(b"a", 0), Response::Reject(0, true));
}

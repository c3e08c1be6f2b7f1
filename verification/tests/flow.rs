use parsecute::parsers::basic::{any, do_try, eos, fail, returning, satisfy};
use parsecute::parsers::execution::{Executable, Parsable};
use parsecute::parsers::flow::{
    opt, optrep, rep, take_one, take_while, AndOperation, OrOperation, RepeatOperation,
};
use parsecute::parsers::response::Response;

#[test]
fn sequence_of_two_elements() {
    let p = any().and_then(any());
    assert_eq!(p.execute("ab".as_bytes(), 0), Response::Success((b'a', b'b'), 2, true));
}

#[test]
fn sequence_passes_the_first_rejection_through() {
    let p = any().and_then(any());
    assert_eq!(p.execute(b"", 0), Response::Reject(0, false));
    let q = do_try(any().and_then(any())).and_then(any());
    assert_eq!(q.execute(b"a", 0), Response::Reject(1, false));
}

#[test]
fn sequence_rejects_as_consumed_where_either_side_read() {
    let p = any().and_then(any());
    assert_eq!(p.execute(b"a", 0), Response::Reject(1, true));
    let q = any().and_then(fail::<u8>());
    assert_eq!(q.execute(b"ab", 0), Response::Reject(1, true));
    let r = returning(1u8).and_then(fail::<u8>());
    assert_eq!(r.execute(b"ab", 0), Response::Reject(0, false));
}

#[test]
fn sequence_runs_the_second_parser_where_the_first_ended() {
    let p = any().and_then(any()).and_then(eos());
    assert_eq!(p.execute(b"ab", 0), Response::Success(((b'a', b'b'), ()), 2, true));
    assert_eq!(p.execute(b"abc", 0), Response::Reject(2, true));
}

#[test]
fn sequence_of_two_that_read_nothing() {
    let p = returning(1u8).and_then(returning(2u8));
    assert_eq!(p.execute(b"ab", 1), Response::Success((1, 2), 1, false));
}

#[test]
fn choice_gives_the_left_value() {
    let p = returning(1u32).or(returning(2u32));
    assert_eq!(p.execute(b"", 0), Response::Success(1, 0, false));
    assert_eq!(p.execute(b"abc", 2), Response::Success(1, 2, false));
}

#[test]
fn choice_takes_the_right_branch_after_a_rejection() {
    let p = fail::<u32>().or(returning(2u32));
    assert_eq!(p.execute(b"a", 0), Response::Success(2, 0, false));
    let q = fail::<u8>().or(any());
    assert_eq!(q.execute(b"a", 0), Response::Success(b'a', 1, true));
    assert_eq!(q.execute(b"a", 1), Response::Reject(1, false));
}

#[test]
fn choice_after_an_attempt_reads_as_untouched() {
    let p = do_try(any().and_then(fail::<u8>())).or(returning((9u8, 9u8)));
    assert_eq!(p.execute(b"a", 0), Response::Success((9, 9), 0, false));
    assert_eq!(p.execute(b"xyz", 1), Response::Success((9, 9), 1, false));
}

#[test]
fn choice_backtracks_without_an_attempt_and_tells_of_the_reading() {
    let p = any().and_then(fail::<u8>()).or(returning((9u8, 9u8)));
    assert_eq!(p.execute(b"a", 0), Response::Success((9, 9), 0, true));
    let q = any().and_then(fail::<u8>()).or(fail::<(u8, u8)>());
    assert_eq!(q.execute(b"a", 0), Response::Reject(0, true));
}

#[test]
fn option_of_a_success() {
    assert_eq!(opt(any()).execute(b"a", 0), Response::Success(Some(b'a'), 1, true));
    assert_eq!(opt(returning(4u8)).execute(b"a", 0), Response::Success(Some(4), 0, false));
}

#[test]
fn option_of_a_rejection_that_read_nothing() {
    assert_eq!(opt(any()).execute(b"a", 1), Response::Success(None, 1, false));
    assert_eq!(
        opt(do_try(any().and_then(any()))).execute(b"xa", 1),
        Response::Success(None, 1, false)
    );
}

#[test]
fn option_of_a_rejection_that_read_input() {
    assert_eq!(opt(any().and_then(any())).execute(b"a", 0), Response::Reject(1, true));
}

#[test]
fn zero_or_more_reads_all() {
    assert_eq!(optrep(any()).execute(b"abc", 0), Response::Success(vec![b'a', b'b', b'c'], 3, true));
    assert_eq!(optrep(any()).execute(b"abc", 2), Response::Success(vec![b'c'], 3, true));
}

#[test]
fn zero_or_more_on_empty_input() {
    assert_eq!(optrep(any()).execute(b"", 0), Response::Success(vec![], 0, false));
    assert_eq!(optrep(any()).execute(b"abc", 3), Response::Success(vec![], 3, false));
}

#[test]
fn zero_or_more_reads_a_long_input() {
    let input = vec![b'a'; 100_000];
    match optrep(any()).execute(&input, 0) {
        Response::Success(v, 100_000, true) => assert_eq!(v, input),
        _ => panic!("the repetition stopped early"),
    }
}

#[test]
fn one_or_more_rejects_on_empty_input() {
    assert_eq!(rep(any()).execute(b"", 0), Response::Reject(0, false));
    assert_eq!(rep(any()).execute(b"ab", 2), Response::Reject(2, false));
}

#[test]
fn one_or_more_reads_all() {
    assert_eq!(rep(any()).execute(b"ab", 0), Response::Success(vec![b'a', b'b'], 2, true));
}

#[test]
fn repetition_drops_the_attempt_that_ended_it() {
    let pairs = rep(any().and_then(any()));
    assert_eq!(
        pairs.execute(b"abcde", 0),
        Response::Success(vec![(b'a', b'b'), (b'c', b'd')], 4, true)
    );
    assert_eq!(pairs.execute(b"a", 0), Response::Reject(0, false));
}

#[test]
fn repetition_ends_on_a_success_that_does_not_move() {
    assert_eq!(optrep(returning(1u8)).execute(b"abc", 0), Response::Success(vec![], 0, false));
    assert_eq!(rep(returning(1u8)).execute(b"abc", 0), Response::Reject(0, false));
    assert_eq!(
        rep(opt(any())).execute(b"ab", 0),
        Response::Success(vec![Some(b'a'), Some(b'b')], 2, true)
    );
    assert_eq!(optrep(eos()).execute(b"", 0), Response::Success(vec![], 0, false));
}

#[test]
fn method_forms_build_the_same_parsers() {
    assert_eq!(any().opt().execute(b"a", 0), opt(any()).execute(b"a", 0));
    assert_eq!(any().rep().execute(b"ab", 0), rep(any()).execute(b"ab", 0));
    assert_eq!(any().rep().execute(b"", 0), Response::Reject(0, false));
    assert_eq!(any().optrep().execute(b"", 0), Response::Success(vec![], 0, false));
}

#[test]
fn take_while_reads_the_longest_run() {
    let digits = take_while(|c: &u8| c.is_ascii_digit());
    assert_eq!(digits.execute(b"12a3", 0), Response::Success(vec![b'1', b'2'], 2, true));
    assert_eq!(digits.execute(b"a", 0), Response::Success(vec![], 0, false));
    assert_eq!(digits.execute(b"", 0), Response::Success(vec![], 0, false));
}

#[test]
fn take_one_reads_one_element_that_passes() {
    let digit = take_one(|c: &u8| c.is_ascii_digit());
    assert_eq!(digit.execute(b"12", 0), Response::Success(b'1', 1, true));
    assert_eq!(digit.execute(b"a2", 0), Response::Reject(0, true));
    assert_eq!(digit.execute(b"", 0), Response::Reject(0, false));
}

#[test]
fn a_parser_is_reusable() {
    let p = rep(satisfy(any(), |c: &u8| *c == b'a'));
    assert_eq!(p.execute(b"aab", 0), Response::Success(vec![b'a', b'a'], 2, true));
    assert_eq!(p.execute(b"aab", 1), Response::Success(vec![b'a'], 2, true));
    assert_eq!(p.execute(b"aab", 0), Response::Success(vec![b'a', b'a'], 2, true));
}

#[test]
fn parse_only_gives_the_verdict_of_the_combinators() {
    assert_eq!(any().and_then(any()).parse_only(b"ab", 0), Response::Success((), 2, true));
    assert_eq!(any().and_then(any()).parse_only(b"a", 0), Response::Reject(1, true));
    assert_eq!(any().and_then(any()).parse_only(b"", 0), Response::Reject(0, false));
    assert_eq!(returning(1u8).or(returning(2u8)).parse_only(b"", 0), Response::Success((), 0, false));
    assert_eq!(fail::<u8>().or(any()).parse_only(b"a", 0), Response::Success((), 1, true));
    assert_eq!(fail::<u8>().or(any()).parse_only(b"", 0), Response::Reject(0, false));
    assert_eq!(opt(any()).parse_only(b"", 0), Response::Success((), 0, false));
    assert_eq!(opt(any()).parse_only(b"a", 0), Response::Success((), 1, true));
    assert_eq!(opt(any().and_then(any())).parse_only(b"a", 0), Response::Reject(1, true));
    assert_eq!(optrep(any()).parse_only(b"abc", 0), Response::Success((), 3, true));
    assert_eq!(rep(any()).parse_only(b"", 0), Response::Reject(0, false));
}

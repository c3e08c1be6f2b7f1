//! What holds of the parsers on every input.

use vstd::prelude::*;
use crate::parsers::basic::Any;
use crate::parsers::basic::Eos;
use crate::parsers::basic::Fail;
use crate::parsers::basic::Lookahead;
use crate::parsers::basic::Returns;
use crate::parsers::basic::Satisfy;
use crate::parsers::basic::Try;
use crate::parsers::flow::And;
use crate::parsers::flow::Opt;
use crate::parsers::flow::Or;
use crate::parsers::flow::Repeat;
use crate::parsers::flow::TakeOne;
use crate::parsers::flow::TypeWhile;
use crate::parsers::monadic::Bind;
use crate::parsers::monadic::Join;
use crate::parsers::parser::Parser;
use crate::parsers::response::Response;

verus! {

/// `any` succeeds exactly where an element is left to read. It then gives
/// that element and has read it and no other; where none is left it rejects
/// where it stands and has read nothing.
pub proof fn any_reads_one(s: Seq<u8>, o: usize, r: Response<u8>)
    requires
        Any().yields(s, o, r),
    ensures
        r is Success <==> o < s.len(),
        r is Success ==> r == Response::Success(s[o as int], (o + 1) as usize, true),
        r is Reject ==> r == Response::<u8>::Reject(o, false),
{
}

/// `eos` succeeds exactly at the end of the input, and never reads.
pub proof fn eos_at_end(s: Seq<u8>, o: usize, r: Response<()>)
    requires
        Eos().yields(s, o, r),
    ensures
        r is Success <==> o == s.len(),
        r.offset() == o,
        !r.consumed(),
{
}

/// A parser of a fixed value succeeds with it on every input, where it
/// stands, and reads nothing.
pub proof fn returns_always<A>(p: Returns<A>, s: Seq<u8>, o: usize, r: Response<A>)
    requires
        p.yields(s, o, r),
    ensures
        r == Response::Success(p.0, o, false),
{
}

/// `fail` rejects on every input, where it stands, and reads nothing.
pub proof fn fail_always<A>(p: Fail<A>, s: Seq<u8>, o: usize, r: Response<A>)
    requires
        p.yields(s, o, r),
    ensures
        r == Response::<A>::Reject(o, false),
{
}

/// A lookahead answers at the offset it started from, whatever its operand
/// read.
pub proof fn lookahead_stays<E: Parser<A>, A>(
    p: Lookahead<E, A>,
    s: Seq<u8>,
    o: usize,
    r: Response<A>,
)
    requires
        p.yields(s, o, r),
    ensures
        r.offset() == o,
{
}

/// The parser that follows a lookahead in a sequence runs from the offset
/// at which the lookahead started.
pub proof fn lookahead_leaves_next_in_place<E: Parser<A>, A, R: Parser<B>, B>(
    p: And<Lookahead<E, A>, A, R, B>,
    s: Seq<u8>,
    o: usize,
    r: Response<(A, B)>,
)
    requires
        p.yields(s, o, r),
    ensures
        exists|ahead: Response<A>| #[trigger]
            p.0.0.yields(s, o, ahead) && match ahead {
                Response::Reject(_, b1) => r == Response::<(A, B)>::Reject(o, b1),
                Response::Success(a1, _, b1) => exists|next: Response<B>| #[trigger]
                    p.1.yields(s, o, next) && r == And::<Lookahead<E, A>, A, R, B>::paired(
                        a1,
                        b1,
                        next,
                    ),
            },
{
    let left = choose|left: Response<A>| #[trigger]
        p.0.yields(s, o, left) && p.continues(s, left, r);
    let ahead = choose|ahead: Response<A>| #[trigger]
        p.0.0.yields(s, o, ahead) && left == Lookahead::<E, A>::rewound(o, ahead);
    assert(p.0.0.yields(s, o, ahead));
}

/// An attempt never rejects with the consumed flag set.
pub proof fn attempt_rejects_clean<E: Parser<A>, A>(
    p: Try<E, A>,
    s: Seq<u8>,
    o: usize,
    r: Response<A>,
)
    requires
        p.yields(s, o, r),
        r is Reject,
    ensures
        !r.consumed(),
{
}

/// An optional parser rejects only where its operand rejected after reading
/// input.
pub proof fn option_rejects_only_after_reading<E: Parser<A>, A>(
    p: Opt<E, A>,
    s: Seq<u8>,
    o: usize,
    r: Response<Option<A>>,
)
    requires
        p.yields(s, o, r),
        r is Reject,
    ensures
        r.consumed(),
        p.0.yields(s, o, Response::<A>::Reject(r.offset(), true)),
{
    let inner = choose|inner: Response<A>| #[trigger]
        p.0.yields(s, o, inner) && r == Opt::<E, A>::lenient(o, inner);
    assert(inner == Response::<A>::Reject(r.offset(), true));
}

/// An optional attempt always succeeds: no rejection of the operand is left
/// that tells of input read.
pub proof fn optional_attempt_succeeds<E: Parser<A>, A>(
    p: Opt<Try<E, A>, A>,
    s: Seq<u8>,
    o: usize,
    r: Response<Option<A>>,
)
    requires
        p.yields(s, o, r),
    ensures
        r is Success,
{
}

/// A repetition that asks for no success always succeeds.
pub proof fn zero_or_more_succeeds<E: Parser<A>, A>(
    p: Repeat<E, A>,
    s: Seq<u8>,
    o: usize,
    r: Response<Vec<A>>,
)
    requires
        p.0,
        p.yields(s, o, r),
    ensures
        r is Success,
{
}

/// A repetition that asks for a success rejects only at the starting offset
/// and as having read nothing, and succeeds only with at least one value.
pub proof fn one_or_more_floor<E: Parser<A>, A>(
    p: Repeat<E, A>,
    s: Seq<u8>,
    o: usize,
    r: Response<Vec<A>>,
)
    requires
        !p.0,
        p.yields(s, o, r),
    ensures
        r is Reject ==> r == Response::<Vec<A>>::Reject(o, false),
        r is Success ==> r->Success_0@.len() > 0,
{
}

/// Where the left parser of a choice can only succeed, the choice answers as
/// the left parser does: the right parser is not asked.
pub proof fn choice_prefers_left<E: Parser<A>, R: Parser<A>, A>(
    p: Or<E, R, A>,
    s: Seq<u8>,
    o: usize,
    r: Response<A>,
)
    requires
        p.yields(s, o, r),
        forall|left: Response<A>| #[trigger] p.0.yields(s, o, left) ==> left is Success,
    ensures
        p.0.yields(s, o, r),
{
}

/// A choice between two fixed values gives the left one.
pub proof fn choice_of_values<A>(
    p: Or<Returns<A>, Returns<A>, A>,
    s: Seq<u8>,
    o: usize,
    r: Response<A>,
)
    requires
        p.yields(s, o, r),
    ensures
        r == Response::Success(p.0.0, o, false),
{
}

/// A sequence that reads an element and then fails, wrapped in an attempt,
/// leaves a choice free to take its other branch as if nothing had been
/// read: where an element is left, the choice gives the value of the other
/// branch, where it stands, with the consumed flag clear.
pub proof fn attempt_discards_reading<A>(
    p: Or<Try<And<Any, u8, Fail<A>, A>, (u8, A)>, Returns<(u8, A)>, (u8, A)>,
    s: Seq<u8>,
    o: usize,
    r: Response<(u8, A)>,
)
    requires
        o < s.len(),
        p.yields(s, o, r),
    ensures
        r == Response::Success(p.1.0, o, false),
{
}

/// Without the attempt the same choice still takes its other branch, from
/// the same offset, but its answer tells that input was read.
pub proof fn choice_backtracks_after_reading<A>(
    p: Or<And<Any, u8, Fail<A>, A>, Returns<(u8, A)>, (u8, A)>,
    s: Seq<u8>,
    o: usize,
    r: Response<(u8, A)>,
)
    requires
        o < s.len(),
        p.yields(s, o, r),
    ensures
        r == Response::Success(p.1.0, o, true),
{
}

/// Two elements in sequence: where two are left, the answer is the pair of
/// them, two elements further on; where one is left, a rejection behind it
/// that read input; where none is left, a rejection that read nothing.
pub proof fn two_elements(
    p: And<Any, u8, Any, u8>,
    s: Seq<u8>,
    o: usize,
    r: Response<(u8, u8)>,
)
    requires
        o <= s.len(),
        p.yields(s, o, r),
    ensures
        o + 2 <= s.len() ==> r == Response::Success(
            (s[o as int], s[o + 1]),
            (o + 2) as usize,
            true,
        ),
        o + 1 == s.len() ==> r == Response::<(u8, u8)>::Reject((o + 1) as usize, true),
        o == s.len() ==> r == Response::<(u8, u8)>::Reject(o, false),
{
}

/// An element that does not pass the test is rejected at the starting
/// offset, and the rejection tells that the element was read.
pub proof fn unsatisfied_element_was_read<F: Fn(&u8) -> bool>(
    p: Satisfy<Any, F, u8>,
    s: Seq<u8>,
    o: usize,
    r: Response<u8>,
)
    requires
        o < s.len(),
        !call_ensures(p.1, (&s[o as int],), true),
        p.yields(s, o, r),
    ensures
        r == Response::<u8>::Reject(o, true),
{
}

/// In a run of `any`, step `k` reads the element `k` places behind the
/// start.
proof fn run_of_any(
    p: Repeat<Any, u8>,
    s: Seq<u8>,
    o: usize,
    steps: Seq<(u8, usize, bool)>,
    k: int,
)
    requires
        p.advances(s, o, steps),
        0 <= k < steps.len(),
    ensures
        o + k < s.len(),
        steps[k].0 == s[o + k],
        steps[k].1 == o + k + 1,
        steps[k].2,
    decreases k,
{
    if k > 0 {
        run_of_any(p, s, o, steps, k - 1);
    }
    assert(p.follows(s, o, steps, k));
}

/// Repeating `any` reads all that is left: the answer is a success with the
/// elements from the starting offset to the end of the input, at the end of
/// the input, and tells that input was read exactly where an element was
/// left. Where none is left and one is asked for, it is a rejection at the
/// starting offset that read nothing.
pub proof fn repeated_any_reads_all(p: Repeat<Any, u8>, s: Seq<u8>, o: usize, r: Response<Vec<u8>>)
    requires
        o <= s.len(),
        p.yields(s, o, r),
    ensures
        p.0 || o < s.len() ==> {
            &&& r is Success
            &&& r->Success_0@ == s.subrange(o as int, s.len() as int)
            &&& r.offset() == s.len()
            &&& r.consumed() == (o < s.len())
        },
        !p.0 && o == s.len() ==> r == Response::<Vec<u8>>::Reject(o, false),
{
    let steps = choose|steps: Seq<(u8, usize, bool)>| #[trigger] p.collected(s, o, steps, r);
    let n = steps.len() as int;
    let end = Repeat::<Any, u8>::start_of(o, steps, n);
    assert forall|k: int| 0 <= k < n implies {
        &&& o + k < s.len()
        &&& (#[trigger] steps[k]).0 == s[o + k]
        &&& steps[k].1 == o + k + 1
        &&& steps[k].2
    } by {
        run_of_any(p, s, o, steps, k);
    }
    assert(end == o + n);
    assert(end == s.len());
    if n > 0 {
        assert(steps[0].2);
    }
    if let Response::Success(v, _, _) = r {
        assert(v@ =~= s.subrange(o as int, s.len() as int));
    }
}

/// The parser of one element that passes a test reads the element at the
/// starting offset. It succeeds with it where the test holds of it, rejects
/// at the starting offset as having read where the test fails, and rejects
/// as not having read where no element is left.
pub proof fn take_one_reads_one<F: Fn(&u8) -> bool>(
    p: TakeOne<F>,
    s: Seq<u8>,
    o: usize,
    r: Response<u8>,
)
    requires
        p.yields(s, o, r),
    ensures
        o >= s.len() ==> r == Response::<u8>::Reject(o, false),
        o < s.len() ==> {
            ||| call_ensures(p.1, (&s[o as int],), true) && r == Response::Success(
                s[o as int],
                (o + 1) as usize,
                true,
            )
            ||| call_ensures(p.1, (&s[o as int],), false) && r == Response::<u8>::Reject(o, true)
        },
{
}

/// In a run of the parser of one element that passes a test, step `k` reads
/// the element `k` places behind the start, and the test holds of it.
proof fn run_of_take_one<F: Fn(&u8) -> bool>(
    p: TypeWhile<F>,
    test: spec_fn(u8) -> bool,
    s: Seq<u8>,
    o: usize,
    steps: Seq<(u8, usize, bool)>,
    k: int,
)
    requires
        forall|a: u8, b: bool| #[trigger] call_ensures(p.1.1, (&a,), b) ==> b == test(a),
        p.advances(s, o, steps),
        0 <= k < steps.len(),
    ensures
        o + k < s.len(),
        steps[k].0 == s[o + k],
        steps[k].1 == o + k + 1,
        steps[k].2,
        test(s[o + k]),
    decreases k,
{
    if k > 0 {
        run_of_take_one(p, test, s, o, steps, k - 1);
    }
    assert(p.follows(s, o, steps, k));
}

/// The parser of the elements that pass a test reads the longest run of
/// them: where the test is a function `test` of the element, the answer lies
/// at the first offset, from the starting one on, that is the end of the
/// input or holds an element that fails the test. It is a success with the
/// elements up to there and tells that input was read exactly where there is
/// one; or, where there is none and one is asked for, a rejection.
pub proof fn take_while_reads_longest_run<F: Fn(&u8) -> bool>(
    p: TypeWhile<F>,
    test: spec_fn(u8) -> bool,
    s: Seq<u8>,
    o: usize,
    r: Response<Vec<u8>>,
)
    requires
        forall|a: u8, b: bool| #[trigger] call_ensures(p.1.1, (&a,), b) ==> b == test(a),
        o <= s.len(),
        p.yields(s, o, r),
    ensures
        o <= r.offset() <= s.len(),
        forall|k: int| o <= k < r.offset() ==> test(#[trigger] s[k]),
        r.offset() < s.len() ==> !test(s[r.offset() as int]),
        r is Success <==> (p.0 || o < r.offset()),
        r is Success ==> r->Success_0@ == s.subrange(o as int, r.offset() as int),
        r.consumed() == (o < r.offset()),
{
    let steps = choose|steps: Seq<(u8, usize, bool)>| #[trigger] p.collected(s, o, steps, r);
    let n = steps.len() as int;
    let end = Repeat::<TakeOne<F>, u8>::start_of(o, steps, n);
    assert forall|k: int| 0 <= k < n implies {
        &&& o + k < s.len()
        &&& (#[trigger] steps[k]).0 == s[o + k]
        &&& steps[k].1 == o + k + 1
        &&& steps[k].2
        &&& test(s[o + k])
    } by {
        run_of_take_one(p, test, s, o, steps, k);
    }
    assert(end == o + n);
    assert forall|k: int| o <= k < end implies test(#[trigger] s[k]) by {
        assert(steps[k - o].0 == s[o + (k - o)]);
    }
    if n > 0 {
        assert(steps[0].2);
    }
    if let Response::Success(v, _, _) = r {
        assert(v@ =~= s.subrange(o as int, end as int));
    }
}

/// Joining a parser of parsers is binding it with a function that hands its
/// argument back.
pub proof fn join_is_bind_of_identity<F: Fn(Q) -> Q, E: Parser<Q>, Q: Parser<A>, A>(
    j: Join<E, Q, A>,
    b: Bind<F, E, Q, Q, A>,
    s: Seq<u8>,
    o: usize,
    r: Response<A>,
)
    requires
        j.p == b.p,
        forall|q: Q, out: Q| call_ensures(b.f, (q,), out) <==> out == q,
    ensures
        j.yields(s, o, r) <==> b.yields(s, o, r),
{
    if j.yields(s, o, r) {
        let first = choose|first: Response<Q>| #[trigger]
            j.p.yields(s, o, first) && Join::<E, Q, A>::continues(s, first, r);
        if let Response::Success(q, i1, b1) = first {
            assert(call_ensures(b.f, (q,), q));
        }
        assert(b.yields(s, o, r));
    }
    if b.yields(s, o, r) {
        assert(j.yields(s, o, r));
    }
}

} // verus!

//! The combinators of control: choice, sequence, option and repetition.

use vstd::prelude::*;
use core::marker::PhantomData;
use crate::parsers::basic::any;
use crate::parsers::basic::do_try;
use crate::parsers::basic::satisfy;
use crate::parsers::basic::Any;
use crate::parsers::basic::Satisfy;
use crate::parsers::basic::Try;
use crate::parsers::execution::Executable;
use crate::parsers::execution::Parsable;
use crate::parsers::parser::Parser;
use crate::parsers::response::Response;

verus! {

/// Ordered choice between two parsers of the same value.
pub struct Or<E, R, A>(pub E, pub R, pub PhantomData<A>) where E: Parser<A>, R: Parser<A>;

/// The method form of ordered choice.
pub trait OrOperation<E, R, A> where E: Parser<A>, R: Parser<A> {
    /// The parser that runs `self` and, where it rejects, runs `a` from the
    /// same offset.
    fn or(self, a: R) -> (p: Or<E, R, A>);
}

impl<E, R, A> OrOperation<E, R, A> for E where E: Parser<A>, R: Parser<A> {
    fn or(self, a: R) -> (p: Or<E, R, A>)
        ensures
            p == Or::<E, R, A>(self, a, PhantomData),
            p.sound() == p.ready(),
            forall|s: Seq<u8>, o: usize, r: Response<A>| #[trigger]
                p.yields(s, o, r) == p.answers(s, o, r),
    {
        Or(self, a, PhantomData)
    }
}

impl<E, R, A> Or<E, R, A> where E: Parser<A>, R: Parser<A> {
    /// Whether the parser can be run: both branches can be run.
    pub open spec fn ready(&self) -> bool {
        self.0.sound() && self.1.sound()
    }

    /// Whether `r` is an answer on the input `s` read from the offset `o`.
    ///
    /// A success of the left parser is the answer. After a rejection of the
    /// left parser, whether or not it read input, the answer is that of the
    /// right parser from the same offset, with a consumed flag that is true
    /// if either branch read input.
    pub open spec fn answers(&self, s: Seq<u8>, o: usize, r: Response<A>) -> bool {
        exists|left: Response<A>| #[trigger]
            self.0.yields(s, o, left) && self.continues(s, o, left, r)
    }

    /// Whether `r` is the answer of the choice once its left parser has
    /// answered `left`.
    pub open spec fn continues(&self, s: Seq<u8>, o: usize, left: Response<A>, r: Response<A>) -> bool {
        match left {
            Response::Success(_, _, _) => r == left,
            Response::Reject(_, b1) => exists|right: Response<A>| #[trigger]
                self.1.yields(s, o, right) && r == right.after(b1),
        }
    }
}

impl<E, R, A> Parser<A> for Or<E, R, A> where E: Parser<A>, R: Parser<A> {
    open spec fn sound(&self) -> bool {
        self.ready()
    }

    open spec fn yields(&self, s: Seq<u8>, o: usize, r: Response<A>) -> bool {
        self.answers(s, o, r)
    }

    proof fn within(&self, s: Seq<u8>, o: usize, r: Response<A>) {
        let left = choose|left: Response<A>| #[trigger]
            self.0.yields(s, o, left) && self.continues(s, o, left, r);
        self.0.within(s, o, left);
        if let Response::Reject(_, b1) = left {
            let right = choose|right: Response<A>| #[trigger]
                self.1.yields(s, o, right) && r == right.after(b1);
            self.1.within(s, o, right);
        }
    }
}

impl<'a, E, R, A> Executable<'a, A> for Or<E, R, A> where
    E: Executable<'a, A> + Parser<A>,
    R: Executable<'a, A> + Parser<A>,
 {
    fn execute(&self, s: &'a [u8], o: usize) -> (r: Response<A>) {
        match self.0.execute(s, o) {
            Response::Success(a1, i1, b1) => Response::Success(a1, i1, b1),
            Response::Reject(_, b1) => {
                match self.1.execute(s, o) {
                    Response::Success(a2, i2, b2) => Response::Success(a2, i2, b1 || b2),
                    Response::Reject(i2, b2) => Response::Reject(i2, b1 || b2),
                }
            },
        }
    }
}

impl<'a, E, R, A> Parsable<'a, A> for Or<E, R, A> where
    E: Parsable<'a, A> + Parser<A>,
    R: Parsable<'a, A> + Parser<A>,
 {
    fn parse_only(&self, s: &'a [u8], o: usize) -> (r: Response<()>) {
        let first = self.0.parse_only(s, o);
        let ghost left = choose|left: Response<A>| #[trigger]
            self.0.yields(s@, o, left) && first == left.forget();
        match first {
            Response::Success(_, i1, b1) => {
                proof {
                    assert(self.yields(s@, o, left));
                }
                Response::Success((), i1, b1)
            },
            Response::Reject(_, b1) => {
                let second = self.1.parse_only(s, o);
                proof {
                    let right = choose|right: Response<A>| #[trigger]
                        self.1.yields(s@, o, right) && second == right.forget();
                    assert(self.yields(s@, o, right.after(b1)));
                }
                match second {
                    Response::Success(_, i2, b2) => Response::Success((), i2, b1 || b2),
                    Response::Reject(i2, b2) => Response::Reject(i2, b1 || b2),
                }
            },
        }
    }
}

/// Sequence of two parsers.
pub struct And<E, A, R, B>(pub E, pub R, pub PhantomData<A>, pub PhantomData<B>) where
    E: Parser<A>,
    R: Parser<B>,
;

/// The method form of sequence.
pub trait AndOperation<E, A, R, B> where E: Parser<A>, R: Parser<B> {
    /// The parser that runs `self` and, where it succeeds, runs `b` from the
    /// offset that `self` reached.
    fn and_then(self, b: R) -> (p: And<E, A, R, B>);
}

impl<E, A, R, B> AndOperation<E, A, R, B> for E where E: Parser<A>, R: Parser<B> {
    fn and_then(self, b: R) -> (p: And<E, A, R, B>)
        ensures
            p == And::<E, A, R, B>(self, b, PhantomData, PhantomData),
            p.sound() == p.ready(),
            forall|s: Seq<u8>, o: usize, r: Response<(A, B)>| #[trigger]
                p.yields(s, o, r) == p.answers(s, o, r),
    {
        And(self, b, PhantomData, PhantomData)
    }
}

impl<E, A, R, B> And<E, A, R, B> where E: Parser<A>, R: Parser<B> {
    /// What the sequence makes of the response `right` of its second parser,
    /// after the first succeeded with `a1` and the consumed flag `b1`.
    pub open spec fn paired(a1: A, b1: bool, right: Response<B>) -> Response<(A, B)> {
        match right {
            Response::Success(a2, i2, b2) => Response::Success((a1, a2), i2, b1 || b2),
            Response::Reject(i2, b2) => Response::Reject(i2, b1 || b2),
        }
    }

    /// Whether the parser can be run: both parsers can be run.
    pub open spec fn ready(&self) -> bool {
        self.0.sound() && self.1.sound()
    }

    /// Whether `r` is an answer on the input `s` read from the offset `o`.
    ///
    /// A rejection of the first parser is the answer. After its success the
    /// second parser runs from the offset that the first reached, and the
    /// answer has its verdict and offset, both values, and a consumed flag
    /// that is true if either read input.
    pub open spec fn answers(&self, s: Seq<u8>, o: usize, r: Response<(A, B)>) -> bool {
        exists|left: Response<A>| #[trigger]
            self.0.yields(s, o, left) && self.continues(s, left, r)
    }

    /// Whether `r` is the answer of the sequence once its first parser has
    /// answered `left`.
    pub open spec fn continues(&self, s: Seq<u8>, left: Response<A>, r: Response<(A, B)>) -> bool {
        match left {
            Response::Reject(i1, b1) => r == Response::<(A, B)>::Reject(i1, b1),
            Response::Success(a1, i1, b1) => exists|right: Response<B>| #[trigger]
                self.1.yields(s, i1, right) && r == Self::paired(a1, b1, right),
        }
    }
}

impl<E, A, R, B> Parser<(A, B)> for And<E, A, R, B> where E: Parser<A>, R: Parser<B> {
    open spec fn sound(&self) -> bool {
        self.ready()
    }

    open spec fn yields(&self, s: Seq<u8>, o: usize, r: Response<(A, B)>) -> bool {
        self.answers(s, o, r)
    }

    proof fn within(&self, s: Seq<u8>, o: usize, r: Response<(A, B)>) {
        let left = choose|left: Response<A>| #[trigger]
            self.0.yields(s, o, left) && self.continues(s, left, r);
        self.0.within(s, o, left);
        if let Response::Success(a1, i1, b1) = left {
            let right = choose|right: Response<B>| #[trigger]
                self.1.yields(s, i1, right) && r == Self::paired(a1, b1, right);
            self.1.within(s, i1, right);
        }
    }
}

impl<'a, E, A, R, B> Executable<'a, (A, B)> for And<E, A, R, B> where
    E: Executable<'a, A> + Parser<A>,
    R: Executable<'a, B> + Parser<B>,
 {
    fn execute(&self, s: &'a [u8], o: usize) -> (r: Response<(A, B)>) {
        match self.0.execute(s, o) {
            Response::Success(a1, i1, b1) => {
                proof {
                    self.0.within(s@, o, Response::Success(a1, i1, b1));
                }
                match self.1.execute(s, i1) {
                    Response::Success(a2, i2, b2) => Response::Success((a1, a2), i2, b1 || b2),
                    Response::Reject(i2, b2) => Response::Reject(i2, b1 || b2),
                }
            },
            Response::Reject(i1, b1) => Response::Reject(i1, b1),
        }
    }
}

impl<'a, E, A, R, B> Parsable<'a, (A, B)> for And<E, A, R, B> where
    E: Parsable<'a, A> + Parser<A>,
    R: Parsable<'a, B> + Parser<B>,
 {
    fn parse_only(&self, s: &'a [u8], o: usize) -> (r: Response<()>) {
        let first = self.0.parse_only(s, o);
        let ghost left = choose|left: Response<A>| #[trigger]
            self.0.yields(s@, o, left) && first == left.forget();
        match first {
            Response::Success(_, i1, b1) => {
                proof {
                    self.0.within(s@, o, left);
                }
                let second = self.1.parse_only(s, i1);
                proof {
                    let right = choose|right: Response<B>| #[trigger]
                        self.1.yields(s@, i1, right) && second == right.forget();
                    assert(self.yields(s@, o, Self::paired(left->Success_0, b1, right)));
                }
                match second {
                    Response::Success(_, i2, b2) => Response::Success((), i2, b1 || b2),
                    Response::Reject(i2, b2) => Response::Reject(i2, b1 || b2),
                }
            },
            Response::Reject(i1, b1) => {
                proof {
                    assert(self.yields(s@, o, Response::<(A, B)>::Reject(i1, b1)));
                }
                Response::Reject(i1, b1)
            },
        }
    }
}

/// A parser made optional.
pub struct Opt<E, A>(pub E, pub PhantomData<A>) where E: Parser<A>;

/// The parser that runs `p` and succeeds without a value where `p` rejects
/// without having read input.
pub fn opt<E, A>(p: E) -> (q: Opt<E, A>) where E: Parser<A>
    ensures
        q == Opt::<E, A>(p, PhantomData),
        q.sound() == q.ready(),
        forall|s: Seq<u8>, o: usize, r: Response<Option<A>>| #[trigger]
            q.yields(s, o, r) == q.answers(s, o, r),
{
    Opt(p, PhantomData)
}

impl<E, A> Opt<E, A> where E: Parser<A> {
    /// What the parser, started at `o`, makes of the response `inner` of its
    /// operand.
    pub open spec fn lenient(o: usize, inner: Response<A>) -> Response<Option<A>> {
        match inner {
            Response::Success(a, i, b) => Response::Success(Some(a), i, b),
            Response::Reject(i, b) => if b {
                Response::Reject(i, true)
            } else {
                Response::Success(None, o, false)
            },
        }
    }

    /// Whether the parser can be run: the operand can be run.
    pub open spec fn ready(&self) -> bool {
        self.0.sound()
    }

    /// Whether `r` is an answer on the input `s` read from the offset `o`:
    /// the answer of the operand, with a rejection that read nothing turned
    /// into a success without a value.
    pub open spec fn answers(&self, s: Seq<u8>, o: usize, r: Response<Option<A>>) -> bool {
        exists|inner: Response<A>| #[trigger]
            self.0.yields(s, o, inner) && r == Self::lenient(o, inner)
    }
}

impl<E, A> Parser<Option<A>> for Opt<E, A> where E: Parser<A> {
    open spec fn sound(&self) -> bool {
        self.ready()
    }

    open spec fn yields(&self, s: Seq<u8>, o: usize, r: Response<Option<A>>) -> bool {
        self.answers(s, o, r)
    }

    proof fn within(&self, s: Seq<u8>, o: usize, r: Response<Option<A>>) {
        let inner = choose|inner: Response<A>| #[trigger]
            self.0.yields(s, o, inner) && r == Self::lenient(o, inner);
        self.0.within(s, o, inner);
    }
}

impl<'a, E, A> Executable<'a, Option<A>> for Opt<E, A> where E: Executable<'a, A> + Parser<A> {
    fn execute(&self, s: &'a [u8], o: usize) -> (r: Response<Option<A>>) {
        match self.0.execute(s, o) {
            Response::Success(a, i, b) => Response::Success(Some(a), i, b),
            Response::Reject(_, false) => Response::Success(None, o, false),
            Response::Reject(i, true) => Response::Reject(i, true),
        }
    }
}

impl<'a, E, A> Parsable<'a, Option<A>> for Opt<E, A> where E: Parsable<'a, A> + Parser<A> {
    fn parse_only(&self, s: &'a [u8], o: usize) -> (r: Response<()>) {
        let inner = self.0.parse_only(s, o);
        proof {
            let full = choose|full: Response<A>| #[trigger]
                self.0.yields(s@, o, full) && inner == full.forget();
            assert(self.yields(s@, o, Self::lenient(o, full)));
        }
        match inner {
            Response::Success(_, i, b) => Response::Success((), i, b),
            Response::Reject(_, false) => Response::Success((), o, false),
            Response::Reject(i, true) => Response::Reject(i, true),
        }
    }
}

/// A parser repeated.
///
/// The first field tells whether no success at all is enough.
///
/// A success of the operand that leaves the offset where it was ends the
/// repetition as a rejection does, and its value is dropped: so the
/// repetition comes to an end on every operand, also on one that can succeed
/// without reading.
pub struct Repeat<E, A>(pub bool, pub E, pub PhantomData<A>) where E: Parser<A>;

/// The parser that runs `p` again and again, each time from the offset that
/// the last success reached, and succeeds with the values in order, however
/// few they are.
pub fn optrep<E, A>(p: E) -> (q: Repeat<E, A>) where E: Parser<A>
    ensures
        q == Repeat::<E, A>(true, p, PhantomData),
        q.sound() == q.ready(),
        forall|s: Seq<u8>, o: usize, r: Response<Vec<A>>| #[trigger]
            q.yields(s, o, r) == q.answers(s, o, r),
{
    Repeat(true, p, PhantomData)
}

/// The parser that runs `p` again and again, each time from the offset that
/// the last success reached, and succeeds with the values in order where
/// there is at least one.
pub fn rep<E, A>(p: E) -> (q: Repeat<E, A>) where E: Parser<A>
    ensures
        q == Repeat::<E, A>(false, p, PhantomData),
        q.sound() == q.ready(),
        forall|s: Seq<u8>, o: usize, r: Response<Vec<A>>| #[trigger]
            q.yields(s, o, r) == q.answers(s, o, r),
{
    Repeat(false, p, PhantomData)
}

/// The method forms of option and repetition.
pub trait RepeatOperation<E, A> where E: Parser<A> {
    /// The parser `opt(self)`.
    fn opt(self) -> (q: Opt<E, A>);

    /// The parser `rep(self)`.
    fn rep(self) -> (q: Repeat<E, A>);

    /// The parser `optrep(self)`.
    fn optrep(self) -> (q: Repeat<E, A>);
}

impl<E, A> RepeatOperation<E, A> for E where E: Parser<A> {
    fn opt(self) -> (q: Opt<E, A>)
        ensures
            q == Opt::<E, A>(self, PhantomData),
            q.sound() == q.ready(),
            forall|s: Seq<u8>, o: usize, r: Response<Option<A>>| #[trigger]
                q.yields(s, o, r) == q.answers(s, o, r),
    {
        opt(self)
    }

    fn rep(self) -> (q: Repeat<E, A>)
        ensures
            q == Repeat::<E, A>(false, self, PhantomData),
            q.sound() == q.ready(),
            forall|s: Seq<u8>, o: usize, r: Response<Vec<A>>| #[trigger]
                q.yields(s, o, r) == q.answers(s, o, r),
    {
        rep(self)
    }

    fn optrep(self) -> (q: Repeat<E, A>)
        ensures
            q == Repeat::<E, A>(true, self, PhantomData),
            q.sound() == q.ready(),
            forall|s: Seq<u8>, o: usize, r: Response<Vec<A>>| #[trigger]
                q.yields(s, o, r) == q.answers(s, o, r),
    {
        optrep(self)
    }
}

impl<E, A> Repeat<E, A> where E: Parser<A> {
    /// The offset from which the success number `k` of a run started: the
    /// starting offset `o` for the first, and for each other the offset that
    /// the success before it reached. A success is written as its value, the
    /// offset it reached and its consumed flag.
    pub open spec fn start_of(o: usize, steps: Seq<(A, usize, bool)>, k: int) -> usize {
        if k == 0 {
            o
        } else {
            steps[k - 1].1
        }
    }

    /// Whether the step number `k` of `steps` is an answer of the operand
    /// from where the step before it ended, and ends further on.
    pub open spec fn follows(&self, s: Seq<u8>, o: usize, steps: Seq<(A, usize, bool)>, k: int) -> bool {
        &&& Self::start_of(o, steps, k) < steps[k].1
        &&& self.1.yields(
            s,
            Self::start_of(o, steps, k),
            Response::Success(steps[k].0, steps[k].1, steps[k].2),
        )
    }

    /// Whether `steps` is a run of the operand from `o`.
    pub open spec fn advances(&self, s: Seq<u8>, o: usize, steps: Seq<(A, usize, bool)>) -> bool {
        forall|k: int| 0 <= k < steps.len() ==> #[trigger] self.follows(s, o, steps, k)
    }

    /// The values of a run, in order.
    pub open spec fn values(steps: Seq<(A, usize, bool)>) -> Seq<A> {
        Seq::new(steps.len(), |k: int| steps[k].0)
    }

    /// Whether a step of the run read input.
    pub open spec fn read(steps: Seq<(A, usize, bool)>) -> bool {
        exists|k: int| 0 <= k < steps.len() && (#[trigger] steps[k]).2
    }

    /// Whether the operand, run from `o`, may end the repetition: it may
    /// reject, or succeed without moving on.
    pub open spec fn halts(&self, s: Seq<u8>, o: usize) -> bool {
        exists|last: Response<A>| #[trigger]
            self.1.yields(s, o, last) && (last is Success ==> last.offset() <= o)
    }

    /// Whether `r` is the answer that the repetition, started at `o`, gives
    /// for the run `steps`: the run cannot go on, and `r` is a success with
    /// the values of the run, at the offset that the run reached, with a flag
    /// that tells whether a step read input; or, where the run is empty and a
    /// step is asked for, a rejection at `o` that read nothing.
    pub open spec fn collected(
        &self,
        s: Seq<u8>,
        o: usize,
        steps: Seq<(A, usize, bool)>,
        r: Response<Vec<A>>,
    ) -> bool {
        &&& self.advances(s, o, steps)
        &&& self.halts(s, Self::start_of(o, steps, steps.len() as int))
        &&& match r {
            Response::Success(v, end, c) => {
                &&& self.0 || steps.len() > 0
                &&& v@ == Self::values(steps)
                &&& end == Self::start_of(o, steps, steps.len() as int)
                &&& c == Self::read(steps)
            },
            Response::Reject(end, c) => {
                &&& !self.0
                &&& steps.len() == 0
                &&& end == o
                &&& !c
            },
        }
    }

    /// Whether the parser can be run: the operand can be run.
    pub open spec fn ready(&self) -> bool {
        self.1.sound()
    }

    /// Whether `r` is an answer on the input `s` read from the offset `o`.
    ///
    /// The operand runs until it rejects or succeeds without moving on; that
    /// last attempt leaves no trace in the answer. The answer is a success
    /// with the values of the successes before it, in order, at the offset
    /// that the last of them reached; or, where there is none and one is
    /// asked for, a rejection at the starting offset that read nothing.
    pub open spec fn answers(&self, s: Seq<u8>, o: usize, r: Response<Vec<A>>) -> bool {
        exists|steps: Seq<(A, usize, bool)>| #[trigger] self.collected(s, o, steps, r)
    }

    /// Each step of a run ends behind the one before it and within the input.
    pub proof fn advances_within(&self, s: Seq<u8>, o: usize, steps: Seq<(A, usize, bool)>, k: int)
        requires
            self.1.sound(),
            o <= s.len(),
            self.advances(s, o, steps),
            0 <= k <= steps.len(),
        ensures
            o + k <= Self::start_of(o, steps, k) <= s.len(),
        decreases k,
    {
        if k > 0 {
            self.advances_within(s, o, steps, k - 1);
            assert(self.follows(s, o, steps, k - 1));
            let step = steps[k - 1];
            self.1.within(
                s,
                Self::start_of(o, steps, k - 1),
                Response::Success(step.0, step.1, step.2),
            );
        }
    }

    /// A run goes on by a success of the operand from where the run ended,
    /// if that success ends further on.
    pub proof fn advances_by(
        &self,
        s: Seq<u8>,
        o: usize,
        steps: Seq<(A, usize, bool)>,
        a: A,
        i: usize,
        b: bool,
    )
        requires
            self.advances(s, o, steps),
            self.1.yields(
                s,
                Self::start_of(o, steps, steps.len() as int),
                Response::Success(a, i, b),
            ),
            Self::start_of(o, steps, steps.len() as int) < i,
        ensures
            self.advances(s, o, steps.push((a, i, b))),
            Self::values(steps.push((a, i, b))) == Self::values(steps).push(a),
            Self::start_of(o, steps.push((a, i, b)), steps.len() as int + 1) == i,
            Self::read(steps.push((a, i, b))) == (Self::read(steps) || b),
    {
        let longer = steps.push((a, i, b));
        assert forall|k: int| 0 <= k < longer.len() implies #[trigger] self.follows(
            s,
            o,
            longer,
            k,
        ) by {
            if k < steps.len() {
                assert(self.follows(s, o, steps, k));
                assert(longer[k] == steps[k]);
                assert(Self::start_of(o, longer, k) == Self::start_of(o, steps, k));
            }
        }
        assert(Self::values(longer) =~= Self::values(steps).push(a));
        if Self::read(steps) {
            let k = choose|k: int| 0 <= k < steps.len() && (#[trigger] steps[k]).2;
            assert(longer[k].2);
        }
        if b {
            assert(longer[steps.len() as int].2);
        }
        if Self::read(longer) {
            let k = choose|k: int| 0 <= k < longer.len() && (#[trigger] longer[k]).2;
            if k < steps.len() {
                assert(steps[k].2);
            }
        }
    }
}

impl<E, A> Parser<Vec<A>> for Repeat<E, A> where E: Parser<A> {
    open spec fn sound(&self) -> bool {
        self.ready()
    }

    open spec fn yields(&self, s: Seq<u8>, o: usize, r: Response<Vec<A>>) -> bool {
        self.answers(s, o, r)
    }

    proof fn within(&self, s: Seq<u8>, o: usize, r: Response<Vec<A>>) {
        let steps = choose|steps: Seq<(A, usize, bool)>| #[trigger] self.collected(s, o, steps, r);
        self.advances_within(s, o, steps, steps.len() as int);
        if steps.len() > 0 {
            let k = steps.len() - 1;
            let step = steps[k];
            self.advances_within(s, o, steps, k);
            assert(self.follows(s, o, steps, k));
            self.1.within(s, Self::start_of(o, steps, k), Response::Success(step.0, step.1, step.2));
        }
    }
}

impl<'a, E, A> Executable<'a, Vec<A>> for Repeat<E, A> where E: Executable<'a, A> + Parser<A> {
    fn execute(&self, s: &'a [u8], o: usize) -> (r: Response<Vec<A>>) {
        let mut result: Vec<A> = Vec::with_capacity(13);
        let mut offset: usize = o;
        let mut consumed = false;
        let mut parsed = true;
        let ghost mut steps: Seq<(A, usize, bool)> = Seq::empty();

        while parsed
            invariant
                self.1.sound(),
                o <= offset <= s@.len(),
                self.advances(s@, o, steps),
                result@ == Self::values(steps),
                offset == Self::start_of(o, steps, steps.len() as int),
                consumed == Self::read(steps),
                !parsed ==> self.halts(s@, offset),
            decreases s@.len() - offset + (if parsed { 1int } else { 0int }),
        {
            match self.1.execute(s, offset) {
                Response::Success(a1, i1, b1) => {
                    proof {
                        self.1.within(s@, offset, Response::Success(a1, i1, b1));
                    }
                    if i1 > offset {
                        proof {
                            self.advances_by(s@, o, steps, a1, i1, b1);
                            steps = steps.push((a1, i1, b1));
                        }
                        result.push(a1);
                        offset = i1;
                        consumed = consumed || b1;
                    } else {
                        parsed = false;
                    }
                },
                _ => {
                    parsed = false;
                },
            }
        }

        if self.0 || result.len() > 0 {
            proof {
                assert(self.collected(s@, o, steps, Response::Success(result, offset, consumed)));
            }
            return Response::Success(result, offset, consumed);
        }
        proof {
            assert(self.collected(s@, o, steps, Response::<Vec<A>>::Reject(offset, consumed)));
        }
        return Response::Reject(offset, consumed);
    }
}

impl<'a, E, A> Parsable<'a, Vec<A>> for Repeat<E, A> where E: Executable<'a, A> + Parser<A> {
    fn parse_only(&self, s: &'a [u8], o: usize) -> (r: Response<()>) {
        match self.execute(s, o) {
            Response::Success(_, i, b) => Response::Success((), i, b),
            Response::Reject(i, b) => Response::Reject(i, b),
        }
    }
}

/// The parser of one element that passes a test.
pub type TakeOne<F> = Satisfy<Try<Any, u8>, F, u8>;

/// The parser of the longest run of elements that pass a test.
pub type TypeWhile<F> = Repeat<TakeOne<F>, u8>;

/// The parser that reads elements as long as `f` holds of them, and succeeds
/// with those it read.
pub fn take_while<F>(f: F) -> (p: TypeWhile<F>) where F: Fn(&u8) -> bool
    ensures
        p == Repeat::<TakeOne<F>, u8>(
            true,
            Satisfy::<Try<Any, u8>, F, u8>(Try::<Any, u8>(Any(), PhantomData), f, PhantomData),
            PhantomData,
        ),
        p.sound() == p.ready(),
        forall|s: Seq<u8>, o: usize, r: Response<Vec<u8>>| #[trigger]
            p.yields(s, o, r) == p.answers(s, o, r),
        p.1.sound() == p.1.ready(),
        forall|s: Seq<u8>, o: usize, r: Response<u8>| #[trigger]
            p.1.yields(s, o, r) == p.1.answers(s, o, r),
{
    optrep(take_one(f))
}

/// The parser that reads one element of which `f` holds.
pub fn take_one<F>(f: F) -> (p: TakeOne<F>) where F: Fn(&u8) -> bool
    ensures
        p == Satisfy::<Try<Any, u8>, F, u8>(Try::<Any, u8>(Any(), PhantomData), f, PhantomData),
        p.sound() == p.ready(),
        forall|s: Seq<u8>, o: usize, r: Response<u8>| #[trigger]
            p.yields(s, o, r) == p.answers(s, o, r),
{
    satisfy(do_try(any()), f)
}

} // verus!

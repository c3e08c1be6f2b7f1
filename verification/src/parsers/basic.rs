//! The primitive parsers.

use vstd::prelude::*;
use core::marker::PhantomData;
use crate::parsers::execution::Executable;
use crate::parsers::execution::Parsable;
use crate::parsers::parser::Parser;
use crate::parsers::response::Response;

verus! {

/// Reads one element.
#[derive(Clone, Copy)]
pub struct Any();

/// The parser that reads one element, whatever it is.
pub fn any() -> (p: Any)
    ensures
        p == Any(),
{
    Any()
}

impl Parser<u8> for Any {
    open spec fn sound(&self) -> bool {
        true
    }

    open spec fn yields(&self, s: Seq<u8>, o: usize, r: Response<u8>) -> bool {
        match r {
            Response::Success(a, i, b) => o < s.len() && a == s[o as int] && i == o + 1 && b,
            Response::Reject(i, b) => o >= s.len() && i == o && !b,
        }
    }

    proof fn within(&self, s: Seq<u8>, o: usize, r: Response<u8>) {
    }
}

impl<'a> Executable<'a, u8> for Any {
    fn execute(&self, s: &'a [u8], o: usize) -> (r: Response<u8>) {
        if o < s.len() {
            Response::Success(s[o], o + 1, true)
        } else {
            Response::Reject(o, false)
        }
    }
}

impl<'a> Parsable<'a, u8> for Any {
    fn parse_only(&self, s: &'a [u8], o: usize) -> (r: Response<()>) {
        if o < s.len() {
            proof {
                assert(self.yields(s@, o, Response::Success(s@[o as int], (o + 1) as usize, true)));
            }
            Response::Success((), o + 1, true)
        } else {
            proof {
                assert(self.yields(s@, o, Response::Reject(o, false)));
            }
            Response::Reject(o, false)
        }
    }
}

/// Accepts the end of the input.
#[derive(Clone, Copy)]
pub struct Eos();

/// The parser that succeeds where nothing is left to read.
pub fn eos() -> (p: Eos)
    ensures
        p == Eos(),
{
    Eos()
}

impl Parser<()> for Eos {
    open spec fn sound(&self) -> bool {
        true
    }

    open spec fn yields(&self, s: Seq<u8>, o: usize, r: Response<()>) -> bool {
        r == if o == s.len() {
            Response::Success((), o, false)
        } else {
            Response::Reject(o, false)
        }
    }

    proof fn within(&self, s: Seq<u8>, o: usize, r: Response<()>) {
    }
}

impl<'a> Executable<'a, ()> for Eos {
    fn execute(&self, s: &'a [u8], o: usize) -> (r: Response<()>) {
        if o == s.len() {
            Response::Success((), o, false)
        } else {
            Response::Reject(o, false)
        }
    }
}

impl<'a> Parsable<'a, ()> for Eos {
    fn parse_only(&self, s: &'a [u8], o: usize) -> (r: Response<()>) {
        let r = self.execute(s, o);
        proof {
            assert(self.yields(s@, o, r) && r == r.forget());
        }
        r
    }
}

/// Succeeds with a fixed value.
pub struct Returns<A>(pub A);

/// The parser that succeeds with `v` and reads nothing.
pub fn returning<A>(v: A) -> (p: Returns<A>)
    ensures
        p == Returns(v),
{
    Returns(v)
}

impl<A> Parser<A> for Returns<A> {
    open spec fn sound(&self) -> bool {
        true
    }

    open spec fn yields(&self, s: Seq<u8>, o: usize, r: Response<A>) -> bool {
        r == Response::Success(self.0, o, false)
    }

    proof fn within(&self, s: Seq<u8>, o: usize, r: Response<A>) {
    }
}

impl<'a, A: Copy> Executable<'a, A> for Returns<A> {
    fn execute(&self, s: &'a [u8], o: usize) -> (r: Response<A>) {
        Response::Success(self.0, o, false)
    }
}

impl<'a, A> Parsable<'a, A> for Returns<A> {
    fn parse_only(&self, s: &'a [u8], o: usize) -> (r: Response<()>) {
        proof {
            assert(self.yields(s@, o, Response::Success(self.0, o, false)));
        }
        Response::Success((), o, false)
    }
}

/// Rejects.
pub struct Fail<A>(pub PhantomData<A>);

/// The parser that rejects and reads nothing.
pub fn fail<A>() -> (p: Fail<A>)
    ensures
        p == Fail::<A>(PhantomData),
{
    Fail(PhantomData)
}

impl<A> Parser<A> for Fail<A> {
    open spec fn sound(&self) -> bool {
        true
    }

    open spec fn yields(&self, s: Seq<u8>, o: usize, r: Response<A>) -> bool {
        r == Response::<A>::Reject(o, false)
    }

    proof fn within(&self, s: Seq<u8>, o: usize, r: Response<A>) {
    }
}

impl<'a, A> Executable<'a, A> for Fail<A> {
    fn execute(&self, s: &'a [u8], o: usize) -> (r: Response<A>) {
        Response::Reject(o, false)
    }
}

impl<'a, A> Parsable<'a, A> for Fail<A> {
    fn parse_only(&self, s: &'a [u8], o: usize) -> (r: Response<()>) {
        proof {
            assert(self.yields(s@, o, Response::<A>::Reject(o, false)));
        }
        Response::Reject(o, false)
    }
}

/// Turns a rejection that read input into one that did not.
pub struct Try<E, A>(pub E, pub PhantomData<A>) where E: Parser<A>;

/// The parser that runs `p` and clears the consumed flag of its rejection, so
/// that a choice around it may go on to its other branch.
pub fn do_try<E, A>(p: E) -> (t: Try<E, A>) where E: Parser<A>
    ensures
        t == Try::<E, A>(p, PhantomData),
        t.sound() == t.ready(),
        forall|s: Seq<u8>, o: usize, r: Response<A>| #[trigger]
            t.yields(s, o, r) == t.answers(s, o, r),
{
    Try(p, PhantomData)
}

impl<E, A> Try<E, A> where E: Parser<A> {
    /// What the parser makes of the response `inner` of its operand.
    pub open spec fn attempted(inner: Response<A>) -> Response<A> {
        match inner {
            Response::Success(a, i, b) => inner,
            Response::Reject(i, _) => Response::Reject(i, false),
        }
    }

    /// Whether the parser can be run: the operand can be run.
    pub open spec fn ready(&self) -> bool {
        self.0.sound()
    }

    /// Whether `r` is an answer on the input `s` read from the offset `o`:
    /// the answer of the operand, with the consumed flag of a rejection cleared.
    pub open spec fn answers(&self, s: Seq<u8>, o: usize, r: Response<A>) -> bool {
        exists|inner: Response<A>| #[trigger]
            self.0.yields(s, o, inner) && r == Self::attempted(inner)
    }
}

impl<E, A> Parser<A> for Try<E, A> where E: Parser<A> {
    open spec fn sound(&self) -> bool {
        self.ready()
    }

    open spec fn yields(&self, s: Seq<u8>, o: usize, r: Response<A>) -> bool {
        self.answers(s, o, r)
    }

    proof fn within(&self, s: Seq<u8>, o: usize, r: Response<A>) {
        let inner = choose|inner: Response<A>| #[trigger]
            self.0.yields(s, o, inner) && r == Self::attempted(inner);
        self.0.within(s, o, inner);
    }
}

impl<'a, E, A> Executable<'a, A> for Try<E, A> where E: Executable<'a, A> + Parser<A> {
    fn execute(&self, s: &'a [u8], o: usize) -> (r: Response<A>) {
        match self.0.execute(s, o) {
            Response::Reject(i, _) => Response::Reject(i, false),
            r => r,
        }
    }
}

impl<'a, E, A> Parsable<'a, A> for Try<E, A> where E: Parsable<'a, A> + Parser<A> {
    fn parse_only(&self, s: &'a [u8], o: usize) -> (r: Response<()>) {
        let inner = self.0.parse_only(s, o);
        proof {
            let full = choose|full: Response<A>| #[trigger]
                self.0.yields(s@, o, full) && inner == full.forget();
            assert(self.yields(s@, o, Self::attempted(full)));
        }
        match inner {
            Response::Reject(i, _) => Response::Reject(i, false),
            r => r,
        }
    }
}

/// Runs a parser without moving.
pub struct Lookahead<E, A>(pub E, pub PhantomData<A>) where E: Parser<A>;

/// The parser that runs `p` and answers with its verdict, its value and its
/// consumed flag at the offset it started from.
pub fn lookahead<E, A>(p: E) -> (l: Lookahead<E, A>) where E: Parser<A>
    ensures
        l == Lookahead::<E, A>(p, PhantomData),
        l.sound() == l.ready(),
        forall|s: Seq<u8>, o: usize, r: Response<A>| #[trigger]
            l.yields(s, o, r) == l.answers(s, o, r),
{
    Lookahead(p, PhantomData)
}

impl<E, A> Lookahead<E, A> where E: Parser<A> {
    /// What the parser, started at `o`, makes of the response `inner` of its
    /// operand.
    pub open spec fn rewound(o: usize, inner: Response<A>) -> Response<A> {
        match inner {
            Response::Success(a, _, b) => Response::Success(a, o, b),
            Response::Reject(_, b) => Response::Reject(o, b),
        }
    }

    /// Whether the parser can be run: the operand can be run.
    pub open spec fn ready(&self) -> bool {
        self.0.sound()
    }

    /// Whether `r` is an answer on the input `s` read from the offset `o`:
    /// the answer of the operand, moved back to the starting offset.
    pub open spec fn answers(&self, s: Seq<u8>, o: usize, r: Response<A>) -> bool {
        exists|inner: Response<A>| #[trigger]
            self.0.yields(s, o, inner) && r == Self::rewound(o, inner)
    }
}

impl<E, A> Parser<A> for Lookahead<E, A> where E: Parser<A> {
    open spec fn sound(&self) -> bool {
        self.ready()
    }

    open spec fn yields(&self, s: Seq<u8>, o: usize, r: Response<A>) -> bool {
        self.answers(s, o, r)
    }

    proof fn within(&self, s: Seq<u8>, o: usize, r: Response<A>) {
    }
}

impl<'a, E, A> Executable<'a, A> for Lookahead<E, A> where E: Executable<'a, A> + Parser<A> {
    fn execute(&self, s: &'a [u8], o: usize) -> (r: Response<A>) {
        match self.0.execute(s, o) {
            Response::Success(a, _, b) => Response::Success(a, o, b),
            Response::Reject(_, b) => Response::Reject(o, b),
        }
    }
}

impl<'a, E, A> Parsable<'a, A> for Lookahead<E, A> where E: Parsable<'a, A> + Parser<A> {
    fn parse_only(&self, s: &'a [u8], o: usize) -> (r: Response<()>) {
        let inner = self.0.parse_only(s, o);
        proof {
            let full = choose|full: Response<A>| #[trigger]
                self.0.yields(s@, o, full) && inner == full.forget();
            assert(self.yields(s@, o, Self::rewound(o, full)));
        }
        match inner {
            Response::Success(_, _, b) => Response::Success((), o, b),
            Response::Reject(_, b) => Response::Reject(o, b),
        }
    }
}

/// Keeps the successes of a parser whose value passes a test.
pub struct Satisfy<E, F, A>(pub E, pub F, pub PhantomData<A>) where E: Parser<A>, F: Fn(&A) -> bool;

/// The parser that runs `p` and succeeds as `p` did where `f` holds of the
/// value. Otherwise it rejects at the offset it started from, with the
/// consumed flag that `p` reported.
pub fn satisfy<E, F, A>(p: E, f: F) -> (t: Satisfy<E, F, A>) where E: Parser<A>, F: Fn(&A) -> bool
    ensures
        t == Satisfy::<E, F, A>(p, f, PhantomData),
        t.sound() == t.ready(),
        forall|s: Seq<u8>, o: usize, r: Response<A>| #[trigger]
            t.yields(s, o, r) == t.answers(s, o, r),
{
    Satisfy(p, f, PhantomData)
}

/// The method form of [`satisfy`].
pub trait SatisfyOperation<E, F, A> where E: Parser<A>, F: Fn(&A) -> bool {
    /// The parser `satisfy(self, f)`.
    fn satisfy(self, f: F) -> (t: Satisfy<E, F, A>);
}

impl<E, F, A> SatisfyOperation<E, F, A> for E where E: Parser<A>, F: Fn(&A) -> bool {
    fn satisfy(self, f: F) -> (t: Satisfy<E, F, A>)
        ensures
            t == Satisfy::<E, F, A>(self, f, PhantomData),
            t.sound() == t.ready(),
            forall|s: Seq<u8>, o: usize, r: Response<A>| #[trigger]
                t.yields(s, o, r) == t.answers(s, o, r),
    {
        Satisfy(self, f, PhantomData)
    }
}

impl<E, F, A> Satisfy<E, F, A> where E: Parser<A>, F: Fn(&A) -> bool {
    /// Whether the parser, started at `o`, may make `r` of the response
    /// `inner` of its operand.
    pub open spec fn filtered(&self, o: usize, inner: Response<A>, r: Response<A>) -> bool {
        match inner {
            Response::Success(a, i, b) => {
                ||| call_ensures(self.1, (&a,), true) && r == inner
                ||| call_ensures(self.1, (&a,), false) && r == Response::<A>::Reject(o, b)
            },
            Response::Reject(_, b) => r == Response::<A>::Reject(o, b),
        }
    }

    /// Whether the parser can be run: the operand can be run, and the test
    /// accepts every value that the operand can produce.
    pub open spec fn ready(&self) -> bool {
        &&& self.0.sound()
        &&& forall|s: Seq<u8>, o: usize, a: A, i: usize, b: bool|
            o <= s.len() && #[trigger] self.0.yields(s, o, Response::Success(a, i, b))
                ==> call_requires(self.1, (&a,))
    }

    /// Whether `r` is an answer on the input `s` read from the offset `o`:
    /// the success of the operand where the test holds of its value, and
    /// otherwise a rejection at the starting offset with the consumed flag of
    /// the operand.
    pub open spec fn answers(&self, s: Seq<u8>, o: usize, r: Response<A>) -> bool {
        exists|inner: Response<A>| #[trigger]
            self.0.yields(s, o, inner) && self.filtered(o, inner, r)
    }
}

impl<E, F, A> Parser<A> for Satisfy<E, F, A> where E: Parser<A>, F: Fn(&A) -> bool {
    open spec fn sound(&self) -> bool {
        self.ready()
    }

    open spec fn yields(&self, s: Seq<u8>, o: usize, r: Response<A>) -> bool {
        self.answers(s, o, r)
    }

    proof fn within(&self, s: Seq<u8>, o: usize, r: Response<A>) {
        let inner = choose|inner: Response<A>| #[trigger]
            self.0.yields(s, o, inner) && self.filtered(o, inner, r);
        self.0.within(s, o, inner);
    }
}

impl<'a, E, F, A> Executable<'a, A> for Satisfy<E, F, A> where
    E: Executable<'a, A> + Parser<A>,
    F: Fn(&A) -> bool,
 {
    fn execute(&self, s: &'a [u8], o: usize) -> (r: Response<A>) {
        match self.0.execute(s, o) {
            Response::Success(a, i, b) => {
                if (self.1)(&a) {
                    Response::Success(a, i, b)
                } else {
                    Response::Reject(o, b)
                }
            },
            Response::Reject(_, b) => Response::Reject(o, b),
        }
    }
}

impl<'a, E, F, A> Parsable<'a, A> for Satisfy<E, F, A> where
    E: Executable<'a, A> + Parser<A>,
    F: Fn(&A) -> bool,
 {
    fn parse_only(&self, s: &'a [u8], o: usize) -> (r: Response<()>) {
        let full = self.execute(s, o);
        match full {
            Response::Success(_, i, b) => Response::Success((), i, b),
            Response::Reject(i, b) => Response::Reject(i, b),
        }
    }
}

} // verus!

//! The monadic combinators: map, bind and join.

use vstd::prelude::*;
use core::marker::PhantomData;
use crate::parsers::execution::Executable;
use crate::parsers::execution::Parsable;
use crate::parsers::parser::Parser;
use crate::parsers::response::Response;

verus! {

/// A parser whose value is itself a parser, run one after the other.
pub struct Join<E, Q, A> where E: Parser<Q>, Q: Parser<A> {
    pub p: E,
    pub inner: PhantomData<Q>,
    pub value: PhantomData<A>,
}

/// The parser that runs `p` and then, from the offset that `p` reached, the
/// parser that `p` produced.
pub fn join<E, Q, A>(p: E) -> (j: Join<E, Q, A>) where E: Parser<Q>, Q: Parser<A>
    ensures
        j == (Join::<E, Q, A> { p, inner: PhantomData, value: PhantomData }),
        j.sound() == j.ready(),
        forall|s: Seq<u8>, o: usize, r: Response<A>| #[trigger]
            j.yields(s, o, r) == j.answers(s, o, r),
{
    Join { p, inner: PhantomData, value: PhantomData }
}

impl<E, Q, A> Join<E, Q, A> where E: Parser<Q>, Q: Parser<A> {
    /// Whether the parser can be run: the outer parser can be run, and so
    /// can every parser that it can produce.
    pub open spec fn ready(&self) -> bool {
        &&& self.p.sound()
        &&& forall|s: Seq<u8>, o: usize, q: Q, i: usize, b: bool|
            o <= s.len() && #[trigger] self.p.yields(s, o, Response::Success(q, i, b))
                ==> q.sound()
    }

    /// Whether `r` is an answer on the input `s` read from the offset `o`.
    ///
    /// A rejection of the outer parser is the answer. After its success the
    /// answer is that of the parser it produced, run from the offset it
    /// reached, with a consumed flag that is true if either read input.
    pub open spec fn answers(&self, s: Seq<u8>, o: usize, r: Response<A>) -> bool {
        exists|first: Response<Q>| #[trigger]
            self.p.yields(s, o, first) && Self::continues(s, first, r)
    }

    /// Whether `r` is the answer of the join once its outer parser has
    /// answered `first`.
    pub open spec fn continues(s: Seq<u8>, first: Response<Q>, r: Response<A>) -> bool {
        match first {
            Response::Reject(i1, b1) => r == Response::<A>::Reject(i1, b1),
            Response::Success(q, i1, b1) => exists|second: Response<A>| #[trigger]
                q.yields(s, i1, second) && r == second.after(b1),
        }
    }
}

impl<E, Q, A> Parser<A> for Join<E, Q, A> where E: Parser<Q>, Q: Parser<A> {
    open spec fn sound(&self) -> bool {
        self.ready()
    }

    open spec fn yields(&self, s: Seq<u8>, o: usize, r: Response<A>) -> bool {
        self.answers(s, o, r)
    }

    proof fn within(&self, s: Seq<u8>, o: usize, r: Response<A>) {
        let first = choose|first: Response<Q>| #[trigger]
            self.p.yields(s, o, first) && Self::continues(s, first, r);
        self.p.within(s, o, first);
        if let Response::Success(q, i1, b1) = first {
            let second = choose|second: Response<A>| #[trigger]
                q.yields(s, i1, second) && r == second.after(b1);
            q.within(s, i1, second);
        }
    }
}

impl<'a, E, Q, A> Executable<'a, A> for Join<E, Q, A> where
    E: Executable<'a, Q> + Parser<Q>,
    Q: Executable<'a, A> + Parser<A>,
 {
    fn execute(&self, s: &'a [u8], o: usize) -> (r: Response<A>) {
        match self.p.execute(s, o) {
            Response::Success(a1, i1, b1) => {
                proof {
                    self.p.within(s@, o, Response::Success(a1, i1, b1));
                }
                match a1.execute(s, i1) {
                    Response::Success(a2, i2, b2) => Response::Success(a2, i2, b1 || b2),
                    Response::Reject(i2, b2) => Response::Reject(i2, b1 || b2),
                }
            },
            Response::Reject(i1, b1) => Response::Reject(i1, b1),
        }
    }
}

impl<'a, E, Q, A> Parsable<'a, A> for Join<E, Q, A> where
    E: Executable<'a, Q> + Parser<Q>,
    Q: Parsable<'a, A> + Parser<A>,
 {
    fn parse_only(&self, s: &'a [u8], o: usize) -> (r: Response<()>) {
        match self.p.execute(s, o) {
            Response::Success(a1, i1, b1) => {
                proof {
                    self.p.within(s@, o, Response::Success(a1, i1, b1));
                }
                let second = a1.parse_only(s, i1);
                proof {
                    let full = choose|full: Response<A>| #[trigger]
                        a1.yields(s@, i1, full) && second == full.forget();
                    assert(self.yields(s@, o, full.after(b1)));
                }
                match second {
                    Response::Success(_, i2, b2) => Response::Success((), i2, b1 || b2),
                    Response::Reject(i2, b2) => Response::Reject(i2, b1 || b2),
                }
            },
            Response::Reject(i1, b1) => {
                proof {
                    assert(self.yields(s@, o, Response::<A>::Reject(i1, b1)));
                }
                Response::Reject(i1, b1)
            },
        }
    }
}

/// A parser with a function applied to its value.
#[verifier::reject_recursive_types(B)]
pub struct FMap<F, E, A, B> where F: Fn(A) -> B, E: Parser<A> {
    pub f: F,
    pub p: E,
    pub from: PhantomData<A>,
    pub to: PhantomData<B>,
}

/// The parser that runs `p` and succeeds as `p` does, with `f` of its value.
pub fn fmap<F, E, A, B>(f: F, p: E) -> (m: FMap<F, E, A, B>) where F: Fn(A) -> B, E: Parser<A>
    ensures
        m == (FMap::<F, E, A, B> { f, p, from: PhantomData, to: PhantomData }),
        m.sound() == m.ready(),
        forall|s: Seq<u8>, o: usize, r: Response<B>| #[trigger]
            m.yields(s, o, r) == m.answers(s, o, r),
{
    FMap { f, p, from: PhantomData, to: PhantomData }
}

impl<F, E, A, B> FMap<F, E, A, B> where F: Fn(A) -> B, E: Parser<A> {
    /// Whether the parser may make `r` of the response `inner` of its
    /// operand.
    pub open spec fn mapped(&self, inner: Response<A>, r: Response<B>) -> bool {
        match inner {
            Response::Success(a, i, b) => {
                &&& r is Success
                &&& call_ensures(self.f, (a,), r->Success_0)
                &&& r.offset() == i
                &&& r.consumed() == b
            },
            Response::Reject(i, b) => r == Response::<B>::Reject(i, b),
        }
    }

    /// Whether the parser can be run: the operand can be run, and the
    /// function accepts every value that the operand can produce.
    pub open spec fn ready(&self) -> bool {
        &&& self.p.sound()
        &&& forall|s: Seq<u8>, o: usize, a: A, i: usize, b: bool|
            o <= s.len() && #[trigger] self.p.yields(s, o, Response::Success(a, i, b))
                ==> call_requires(self.f, (a,))
    }

    /// Whether `r` is an answer on the input `s` read from the offset `o`:
    /// the answer of the operand with the function applied to the value of a
    /// success.
    pub open spec fn answers(&self, s: Seq<u8>, o: usize, r: Response<B>) -> bool {
        exists|inner: Response<A>| #[trigger] self.p.yields(s, o, inner) && self.mapped(inner, r)
    }
}

impl<F, E, A, B> Parser<B> for FMap<F, E, A, B> where F: Fn(A) -> B, E: Parser<A> {
    open spec fn sound(&self) -> bool {
        self.ready()
    }

    open spec fn yields(&self, s: Seq<u8>, o: usize, r: Response<B>) -> bool {
        self.answers(s, o, r)
    }

    proof fn within(&self, s: Seq<u8>, o: usize, r: Response<B>) {
        let inner = choose|inner: Response<A>| #[trigger]
            self.p.yields(s, o, inner) && self.mapped(inner, r);
        self.p.within(s, o, inner);
    }
}

impl<'a, F, E, A, B> Executable<'a, B> for FMap<F, E, A, B> where
    F: Fn(A) -> B,
    E: Executable<'a, A> + Parser<A>,
 {
    fn execute(&self, s: &'a [u8], o: usize) -> (r: Response<B>) {
        match self.p.execute(s, o) {
            Response::Success(a, i, b) => {
                proof {
                    assert(self.p.yields(s@, o, Response::Success(a, i, b)));
                }
                Response::Success((self.f)(a), i, b)
            },
            Response::Reject(i, b) => Response::Reject(i, b),
        }
    }
}

impl<'a, F, E, A, B> Parsable<'a, B> for FMap<F, E, A, B> where
    F: Fn(A) -> B,
    E: Executable<'a, A> + Parser<A>,
 {
    fn parse_only(&self, s: &'a [u8], o: usize) -> (r: Response<()>) {
        match self.execute(s, o) {
            Response::Success(_, i, b) => Response::Success((), i, b),
            Response::Reject(i, b) => Response::Reject(i, b),
        }
    }
}

/// A parser followed by the parser that a function makes of its value.
#[verifier::reject_recursive_types(Q)]
pub struct Bind<F, E, Q, A, B> where F: Fn(A) -> Q, E: Parser<A>, Q: Parser<B> {
    pub f: F,
    pub p: E,
    pub from: PhantomData<A>,
    pub to: PhantomData<B>,
}

/// The parser that runs `p` and then, from the offset that `p` reached, the
/// parser that `f` makes of the value of `p`.
pub fn bind<F, E, Q, A, B>(f: F, p: E) -> (m: Bind<F, E, Q, A, B>) where
    F: Fn(A) -> Q,
    E: Parser<A>,
    Q: Parser<B>,

    ensures
        m == (Bind::<F, E, Q, A, B> { f, p, from: PhantomData, to: PhantomData }),
        m.sound() == m.ready(),
        forall|s: Seq<u8>, o: usize, r: Response<B>| #[trigger]
            m.yields(s, o, r) == m.answers(s, o, r),
{
    Bind { f, p, from: PhantomData, to: PhantomData }
}

impl<F, E, Q, A, B> Bind<F, E, Q, A, B> where F: Fn(A) -> Q, E: Parser<A>, Q: Parser<B> {
    /// Whether the parser can be run: the first parser can be run, the
    /// function accepts every value that it can produce, and every parser that
    /// the function can make can be run.
    pub open spec fn ready(&self) -> bool {
        &&& self.p.sound()
        &&& forall|s: Seq<u8>, o: usize, a: A, i: usize, b: bool|
            o <= s.len() && #[trigger] self.p.yields(s, o, Response::Success(a, i, b)) ==> {
                &&& call_requires(self.f, (a,))
                &&& forall|q: Q| #[trigger] call_ensures(self.f, (a,), q) ==> q.sound()
            }
    }

    /// Whether `r` is an answer on the input `s` read from the offset `o`.
    ///
    /// A rejection of the first parser is the answer. After its success the
    /// answer is that of a parser that the function makes of its value, run
    /// from the offset it reached, with a consumed flag that is true if
    /// either read input.
    pub open spec fn answers(&self, s: Seq<u8>, o: usize, r: Response<B>) -> bool {
        exists|first: Response<A>| #[trigger]
            self.p.yields(s, o, first) && self.continues(s, first, r)
    }

    /// Whether `r` is the answer of the bind once its first parser has
    /// answered `first`.
    pub open spec fn continues(&self, s: Seq<u8>, first: Response<A>, r: Response<B>) -> bool {
        match first {
            Response::Reject(i1, b1) => r == Response::<B>::Reject(i1, b1),
            Response::Success(a1, i1, b1) => exists|q: Q, second: Response<B>|
                call_ensures(self.f, (a1,), q) && #[trigger] q.yields(s, i1, second) && r
                    == second.after(b1),
        }
    }
}

impl<F, E, Q, A, B> Parser<B> for Bind<F, E, Q, A, B> where
    F: Fn(A) -> Q,
    E: Parser<A>,
    Q: Parser<B>,
 {
    open spec fn sound(&self) -> bool {
        self.ready()
    }

    open spec fn yields(&self, s: Seq<u8>, o: usize, r: Response<B>) -> bool {
        self.answers(s, o, r)
    }

    proof fn within(&self, s: Seq<u8>, o: usize, r: Response<B>) {
        let first = choose|first: Response<A>| #[trigger]
            self.p.yields(s, o, first) && self.continues(s, first, r);
        self.p.within(s, o, first);
        if let Response::Success(a1, i1, b1) = first {
            let (q, second) = choose|q: Q, second: Response<B>|
                call_ensures(self.f, (a1,), q) && #[trigger] q.yields(s, i1, second) && r
                    == second.after(b1);
            q.within(s, i1, second);
        }
    }
}

impl<'a, F, E, Q, A, B> Executable<'a, B> for Bind<F, E, Q, A, B> where
    F: Fn(A) -> Q,
    E: Executable<'a, A> + Parser<A>,
    Q: Executable<'a, B> + Parser<B>,
 {
    fn execute(&self, s: &'a [u8], o: usize) -> (r: Response<B>) {
        match self.p.execute(s, o) {
            Response::Reject(i1, b1) => Response::Reject(i1, b1),
            Response::Success(a1, i1, b1) => {
                proof {
                    self.p.within(s@, o, Response::Success(a1, i1, b1));
                }
                match (self.f)(a1).execute(s, i1) {
                    Response::Success(a2, i2, b2) => Response::Success(a2, i2, b1 || b2),
                    Response::Reject(i2, b2) => Response::Reject(i2, b1 || b2),
                }
            },
        }
    }
}

impl<'a, F, E, Q, A, B> Parsable<'a, B> for Bind<F, E, Q, A, B> where
    F: Fn(A) -> Q,
    E: Executable<'a, A> + Parser<A>,
    Q: Parsable<'a, B> + Parser<B>,
 {
    fn parse_only(&self, s: &'a [u8], o: usize) -> (r: Response<()>) {
        match self.p.execute(s, o) {
            Response::Reject(i1, b1) => {
                proof {
                    assert(self.yields(s@, o, Response::<B>::Reject(i1, b1)));
                }
                Response::Reject(i1, b1)
            },
            Response::Success(a1, i1, b1) => {
                proof {
                    self.p.within(s@, o, Response::Success(a1, i1, b1));
                }
                let q = (self.f)(a1);
                let second = q.parse_only(s, i1);
                proof {
                    let full = choose|full: Response<B>| #[trigger]
                        q.yields(s@, i1, full) && second == full.forget();
                    assert(self.yields(s@, o, full.after(b1)));
                }
                match second {
                    Response::Success(_, i2, b2) => Response::Success((), i2, b1 || b2),
                    Response::Reject(i2, b2) => Response::Reject(i2, b1 || b2),
                }
            },
        }
    }
}

} // verus!

//! The outcome of one parsing attempt.

use vstd::prelude::*;

verus! {

/// What an attempt to parse gives back.
///
/// `Success(value, offset, consumed)` carries the value that was produced and
/// the position of the next unread element. `Reject(offset, consumed)` carries
/// the position that the failing attempt reports. In both, `consumed` tells
/// whether the attempt read input.
#[derive(Debug, PartialEq, Eq)]
pub enum Response<A> {
    Success(A, usize, bool),
    Reject(usize, bool),
}

impl<A> Response<A> {
    /// The offset that the response carries.
    pub open spec fn offset(self) -> usize {
        match self {
            Response::Success(_, i, _) => i,
            Response::Reject(i, _) => i,
        }
    }

    /// The consumed flag that the response carries.
    pub open spec fn consumed(self) -> bool {
        match self {
            Response::Success(_, _, b) => b,
            Response::Reject(_, b) => b,
        }
    }

    /// The same response as the outcome of an attempt that follows one whose
    /// consumed flag was `before`: the flag is true if either read input.
    pub open spec fn after(self, before: bool) -> Response<A> {
        match self {
            Response::Success(a, i, b) => Response::Success(a, i, before || b),
            Response::Reject(i, b) => Response::Reject(i, before || b),
        }
    }

    /// The same verdict, offset and flag, without the value.
    pub open spec fn forget(self) -> Response<()> {
        match self {
            Response::Success(_, i, b) => Response::Success((), i, b),
            Response::Reject(i, b) => Response::Reject(i, b),
        }
    }
}

/// Inspection of a response by two callbacks, one for each verdict.
pub trait Fold<A, B> {
    /// The response that is folded.
    spec fn subject(self) -> Response<A>;

    /// Hands a success to `success` and a rejection to `reject`, and returns
    /// what the callback that was called returned.
    fn fold<S, R>(self, success: S, reject: R) -> (out: B) where
        Self: Sized,
        S: FnOnce(A, usize, bool) -> B,
        R: FnOnce(usize, bool) -> B,

        requires
            match self.subject() {
                Response::Success(a, i, b) => call_requires(success, (a, i, b)),
                Response::Reject(i, b) => call_requires(reject, (i, b)),
            },
        ensures
            match self.subject() {
                Response::Success(a, i, b) => call_ensures(success, (a, i, b), out),
                Response::Reject(i, b) => call_ensures(reject, (i, b), out),
            },
    ;
}

impl<A, B> Fold<A, B> for Response<A> {
    open spec fn subject(self) -> Response<A> {
        self
    }

    fn fold<S, R>(self, success: S, reject: R) -> (out: B) where
        S: FnOnce(A, usize, bool) -> B,
        R: FnOnce(usize, bool) -> B,
    {
        match self {
            Response::Success(a, i, b) => success(a, i, b),
            Response::Reject(i, b) => reject(i, b),
        }
    }
}

} // verus!

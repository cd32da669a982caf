//! Error-dropping policy of the pipeline: no failure of one item may halt
//! a worker, so fallible side effects are logged through a callback and
//! their errors dropped.

use vstd::prelude::*;

verus! {

/// A fallible outcome whose error can be handed to a logging callback and
/// dropped, keeping only the success value.
pub trait DroppableError: Sized {
    type OkValue;

    type ErrValue;

    /// The success value this outcome carries, if any.
    spec fn ok_of(self) -> Option<Self::OkValue>;

    /// The error value this outcome carries, if any.
    spec fn err_of(self) -> Option<Self::ErrValue>;

    /// Hand any error to `cb` and keep only the success value.
    fn log_and_drop_error<F: FnOnce(Self::ErrValue)>(self, cb: F) -> (r: Option<Self::OkValue>)
        requires
            self.err_of() matches Some(e) ==> call_requires(cb, (e,)),
        ensures
            r == self.ok_of(),
    ;
}

impl<T, E> DroppableError for Result<T, E> {
    type OkValue = T;

    type ErrValue = E;

    open spec fn ok_of(self) -> Option<T> {
        match self {
            Ok(x) => Some(x),
            Err(_) => None,
        }
    }

    open spec fn err_of(self) -> Option<E> {
        match self {
            Ok(_) => None,
            Err(e) => Some(e),
        }
    }

    fn log_and_drop_error<F: FnOnce(E)>(self, cb: F) -> (r: Option<T>) {
        match self {
            Ok(x) => Some(x),
            Err(e) => {
                cb(e);
                None
            },
        }
    }
}

} // verus!

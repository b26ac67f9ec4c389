//! The outcome of work that can succeed in part.

use vstd::prelude::*;
use vstd::std_specs::convert::FromSpecImpl;

verus! {

/// The outcome of an operation that may have done part of its work before
/// it failed.
#[derive(Clone, Copy, Debug, PartialEq, Eq, PartialOrd, Ord, Hash)]
#[must_use]
pub enum PartialResult<T, E> {
    /// All of the work was done.
    Complete(T),
    /// Part of the work was done before the error.
    Partial(T, E),
    /// Nothing was done.
    Failure(E),
}

impl<T, E> PartialResult<T, E> {
    /// What was achieved, where anything was.
    pub open spec fn value(self) -> Option<T> {
        match self {
            PartialResult::Complete(value) => Some(value),
            PartialResult::Partial(value, _) => Some(value),
            PartialResult::Failure(_) => None,
        }
    }

    /// What went wrong, where anything did.
    pub open spec fn error(self) -> Option<E> {
        match self {
            PartialResult::Complete(_) => None,
            PartialResult::Partial(_, error) => Some(error),
            PartialResult::Failure(error) => Some(error),
        }
    }

    /// The result, whether or not an error came with it.
    pub fn ok(self) -> (result: Option<T>)
        ensures
            result == self.value(),
    {
        match self {
            PartialResult::Complete(result) => Some(result),
            PartialResult::Partial(result, _) => Some(result),
            PartialResult::Failure(_) => None,
        }
    }

    /// The error, whether or not a result came with it.
    pub fn err(self) -> (error: Option<E>)
        ensures
            error == self.error(),
    {
        match self {
            PartialResult::Complete(_) => None,
            PartialResult::Partial(_, error) => Some(error),
            PartialResult::Failure(error) => Some(error),
        }
    }

    /// The result only where there was no error at all.
    pub fn complete(self) -> (result: Result<T, E>)
        ensures
            result == match self {
                PartialResult::Complete(value) => Ok::<T, E>(value),
                PartialResult::Partial(_, error) => Err::<T, E>(error),
                PartialResult::Failure(error) => Err::<T, E>(error),
            },
    {
        match self {
            PartialResult::Complete(result) => Ok(result),
            PartialResult::Partial(_, error) => Err(error),
            PartialResult::Failure(error) => Err(error),
        }
    }

    /// The result wherever there is one, and the error only where nothing
    /// was done.
    pub fn partial(self) -> (result: Result<T, E>)
        ensures
            result == match self {
                PartialResult::Complete(value) => Ok::<T, E>(value),
                PartialResult::Partial(value, _) => Ok::<T, E>(value),
                PartialResult::Failure(error) => Err::<T, E>(error),
            },
    {
        match self {
            PartialResult::Complete(result) => Ok(result),
            PartialResult::Partial(result, _) => Ok(result),
            PartialResult::Failure(error) => Err(error),
        }
    }

    /// The result, if there is one, and the error, if there is one.
    pub fn both(self) -> (pair: (Option<T>, Option<E>))
        ensures
            pair == match self {
                PartialResult::Complete(value) => (Some(value), None::<E>),
                PartialResult::Partial(value, error) => (Some(value), Some(error)),
                PartialResult::Failure(error) => (None::<T>, Some(error)),
            },
    {
        match self {
            PartialResult::Complete(result) => (Some(result), None),
            PartialResult::Partial(result, error) => (Some(result), Some(error)),
            PartialResult::Failure(error) => (None, Some(error)),
        }
    }

    /// The result of an operation that did at least part of its work.
    pub fn unwrap(self) -> (value: T)
        requires
            !(self is Failure),
        ensures
            self.value() == Some(value),
    {
        match self {
            PartialResult::Complete(result) => result,
            PartialResult::Partial(result, _) => result,
            PartialResult::Failure(_) => unreached(),
        }
    }

    /// The result of an operation that did at least part of its work. The
    /// message says what the caller was counting on.
    pub fn expect(self, msg: &str) -> (value: T)
        requires
            !(self is Failure),
        ensures
            self.value() == Some(value),
    {
        self.unwrap()
    }

    /// The error of an operation that did not do all of its work.
    pub fn unwrap_err(self) -> (error: E)
        requires
            !(self is Complete),
        ensures
            self.error() == Some(error),
    {
        match self {
            PartialResult::Complete(_) => unreached(),
            PartialResult::Partial(_, error) => error,
            PartialResult::Failure(error) => error,
        }
    }

    /// The error of an operation that did not do all of its work. The message
    /// says what the caller was counting on.
    pub fn expect_err(self, msg: &str) -> (error: E)
        requires
            !(self is Complete),
        ensures
            self.error() == Some(error),
    {
        self.unwrap_err()
    }

    /// What a plain result says: all of the work was done, or none.
    pub fn from_result(outcome: Result<T, E>) -> (result: PartialResult<T, E>)
        ensures
            result == match outcome {
                Ok(value) => PartialResult::<T, E>::Complete(value),
                Err(error) => PartialResult::<T, E>::Failure(error),
            },
    {
        match outcome {
            Ok(result) => PartialResult::Complete(result),
            Err(error) => PartialResult::Failure(error),
        }
    }
}

impl<T, E> From<Result<T, E>> for PartialResult<T, E> {
    fn from(t: Result<T, E>) -> (result: PartialResult<T, E>) {
        PartialResult::from_result(t)
    }
}

impl<T, E> FromSpecImpl<Result<T, E>> for PartialResult<T, E> {
    open spec fn obeys_from_spec() -> bool {
        true
    }

    open spec fn from_spec(t: Result<T, E>) -> PartialResult<T, E> {
        match t {
            Ok(value) => PartialResult::Complete(value),
            Err(error) => PartialResult::Failure(error),
        }
    }
}

} // verus!

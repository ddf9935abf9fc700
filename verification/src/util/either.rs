//! A value that is one of two alternatives.

use vstd::prelude::*;

verus! {

/// Either a value of type `L` or a value of type `R`.
#[derive(Copy, PartialEq, Eq, PartialOrd, Ord, Hash, Debug)]
pub enum Either<L, R> {
    /// A value of type `L`.
    Left(L),
    /// A value of type `R`.
    Right(R),
}

impl<L: Clone, R: Clone> Clone for Either<L, R> {
    fn clone(&self) -> (r: Self)
        ensures
            match (*self, r) {
                (Either::Left(a), Either::Left(b)) => cloned::<L>(a, b),
                (Either::Right(a), Either::Right(b)) => cloned::<R>(a, b),
                _ => false,
            },
    {
        match self {
            Either::Left(inner) => Either::Left(inner.clone()),
            Either::Right(inner) => Either::Right(inner.clone()),
        }
    }
}

impl<L, R> Either<L, R> {
    /// Returns `true` exactly when the value is the `Left` variant.
    pub fn is_left(&self) -> (b: bool)
        ensures
            b == (self is Left),
    {
        match *self {
            Either::Left(_) => true,
            Either::Right(_) => false,
        }
    }

    /// Returns `true` exactly when the value is the `Right` variant.
    pub fn is_right(&self) -> (b: bool)
        ensures
            b == (self is Right),
    {
        !self.is_left()
    }

    /// The left value, if there is one.
    pub fn left(self) -> (o: Option<L>)
        ensures
            o == match self {
                Either::Left(l) => Some(l),
                Either::Right(_) => None,
            },
    {
        match self {
            Either::Left(l) => Some(l),
            Either::Right(_) => None,
        }
    }

    /// The right value, if there is one.
    pub fn right(self) -> (o: Option<R>)
        ensures
            o == match self {
                Either::Left(_) => None,
                Either::Right(r) => Some(r),
            },
    {
        match self {
            Either::Left(_) => None,
            Either::Right(r) => Some(r),
        }
    }
}

} // verus!

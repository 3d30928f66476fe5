//! Small helpers shared by the crate.
use vstd::prelude::*;

verus! {

/// Wraps any value as a success.
pub trait OkAble: Sized {
    fn ok<Error>(self) -> (r: std::result::Result<Self, Error>)
        ensures
            r == Ok::<Self, Error>(self),
    ;
}

impl<T> OkAble for T {
    fn ok<Error>(self) -> (r: std::result::Result<Self, Error>) {
        Ok(self)
    }
}

} // verus!

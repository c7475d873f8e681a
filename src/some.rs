//! Turning a condition into an `Option`.

use vstd::prelude::*;

verus! {

/// Flowing into an `Option`.
pub trait Someable {
    /// `t` where the condition holds, nothing otherwise.
    fn bool_some<T>(self, t: T) -> Option<T>;
}

impl Someable for bool {
    fn bool_some<T>(self, t: T) -> (r: Option<T>)
        ensures
            r == if self {
                Some(t)
            } else {
                None
            },
    {
        if self {
            Some(t)
        } else {
            None
        }
    }
}

} // verus!

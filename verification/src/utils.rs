//! Choosing among configured values.
use vstd::prelude::*;

verus! {

/// The first of two candidates that is there: an explicit setting wins over a fallback.
pub fn first_available<T>(preferred: Option<T>, fallback: Option<T>) -> (r: Option<T>)
    ensures
        r == (match preferred {
            Some(v) => Some(v),
            None => fallback,
        }),
{
    match preferred {
        Some(v) => Some(v),
        None => fallback,
    }
}

} // verus!

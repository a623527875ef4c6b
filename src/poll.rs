//! The outcome of a non-blocking poll.
use vstd::prelude::*;

verus! {

/// Either the operation completed with a value, or it cannot make progress yet.
#[derive(Debug, PartialEq, Eq)]
pub enum Polled<T> {
    Ready(T),
    Pending,
}

} // verus!

//! What a poll reports.
use vstd::prelude::*;

verus! {

/// The outcome of a poll: a value, or the promise that a waker will be called.
#[derive(Clone, Copy, Debug, PartialEq, Eq)]
pub enum Progress<T> {
    Ready(T),
    Pending,
}

} // verus!

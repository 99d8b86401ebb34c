//! A small newtype that lets a borrowed path value travel through display
//! code that expects a text-buffer-like wrapper. The display layer defines
//! its own conversions; the library only guarantees that wrapping a value
//! stores exactly that value.
use vstd::prelude::*;

verus! {

/// Wrapper around a (possibly borrowed) path-like value.
pub struct EguiPathBuf<T>(T);

impl<T> EguiPathBuf<T> {
    /// The wrapped value, for use in contracts.
    pub closed spec fn wrapped(&self) -> T {
        self.0
    }

    /// Wraps a value without changing it.
    pub fn new(value: T) -> (r: Self)
        ensures
            r.wrapped() == value,
    {
        EguiPathBuf(value)
    }
}

} // verus!

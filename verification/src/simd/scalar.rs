//! Scalar backend: one element at a time, available on every CPU.

use vstd::prelude::*;

verus! {

/// Scalar backend that processes one element at a time
///
/// Always available on all platforms. Used as fallback when no SIMD
/// instructions are available, or for processing remainder elements.
#[derive(Debug, Clone, Copy)]
pub struct ScalarBackend;

impl ScalarBackend {
    /// Get the name of this backend
    pub fn name(&self) -> (n: &'static str)
        ensures
            n@ == "Scalar"@,
    {
        "Scalar"
    }

    /// Get the vector width (number of f64 values per operation)
    pub fn width(&self) -> (w: usize)
        ensures
            w == 1,
    {
        1
    }

    /// The scalar backend is supported on every CPU
    pub fn is_supported(&self) -> (r: bool)
        ensures
            r,
    {
        true
    }
}

} // verus!

//! AVX2 backend for x86_64 CPUs: 4 × f64 values per instruction.

use super::AVX2_WIDTH;
use vstd::prelude::*;

verus! {

/// AVX2 backend for x86_64 CPUs
///
/// Processes 4 × f64 values per instruction using 256-bit AVX2 vectors.
#[derive(Debug, Clone, Copy)]
pub struct Avx2Backend;

impl Avx2Backend {
    /// Get the name of this backend
    pub fn name(&self) -> (n: &'static str)
        ensures
            n@ == "AVX2"@,
    {
        "AVX2"
    }

    /// Get the vector width (number of f64 values per operation)
    pub fn width(&self) -> (w: usize)
        ensures
            w == AVX2_WIDTH,
    {
        AVX2_WIDTH
    }
}

} // verus!

//! AVX-512 backend for x86_64 CPUs: 8 × f64 values per instruction.

use super::AVX512_WIDTH;
use vstd::prelude::*;

verus! {

/// AVX-512 backend for x86_64 CPUs
///
/// Processes 8 × f64 values per instruction using 512-bit vectors.
#[derive(Debug, Clone, Copy)]
pub struct Avx512Backend;

impl Avx512Backend {
    /// Get the name of this backend
    pub fn name(&self) -> (n: &'static str)
        ensures
            n@ == "AVX-512"@,
    {
        "AVX-512"
    }

    /// Get the vector width (number of f64 values per operation)
    pub fn width(&self) -> (w: usize)
        ensures
            w == AVX512_WIDTH,
    {
        AVX512_WIDTH
    }
}

} // verus!

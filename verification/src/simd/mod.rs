//! SIMD backend selection
//!
//! Runtime detection of the CPU's vector extensions and the choice of the
//! widest backend the CPU supports: AVX-512 over AVX2 over scalar.

mod avx2;
mod avx512;
mod dispatch;
mod scalar;

pub use avx2::Avx2Backend;
pub use avx512::Avx512Backend;
pub use dispatch::{
    avx2_supported, avx512_supported, cpuid_features, detect_cpu_features, detect_cpu_features_impl, features_from_cpuid, has_avx2,
    has_avx512, no_features, BasicCpuFlags, CpuFeatures, ExtendedCpuFlags,
};
pub use scalar::ScalarBackend;

use vstd::prelude::*;

verus! {

/// SIMD width for AVX2: 256-bit / 64-bit per f64
pub const AVX2_WIDTH: usize = 4;

/// SIMD width for AVX-512: 512-bit / 64-bit per f64
pub const AVX512_WIDTH: usize = 8;

/// The backends that backend selection chooses among.
#[derive(Debug, Clone, Copy, PartialEq, Eq, Structural)]
pub enum BackendKind {
    Avx512,
    Avx2,
    Scalar,
}

/// The backend chosen for a feature set: AVX-512 when both its foundation
/// and double/quad word instructions are present, else AVX2 when present,
/// else scalar.
pub open spec fn preferred_backend(features: CpuFeatures) -> BackendKind {
    if features.has_avx512f && features.has_avx512dq {
        BackendKind::Avx512
    } else if features.has_avx2 {
        BackendKind::Avx2
    } else {
        BackendKind::Scalar
    }
}

/// Select the best backend for the given CPU features, in priority order
/// AVX-512, AVX2, scalar.
pub fn select_backend_kind(features: &CpuFeatures) -> (k: BackendKind)
    ensures
        k == preferred_backend(*features),
{
    if features.has_avx512f && features.has_avx512dq {
        BackendKind::Avx512
    } else if features.has_avx2 {
        BackendKind::Avx2
    } else {
        BackendKind::Scalar
    }
}

/// The vector width, in f64 lanes, of each backend.
pub open spec fn backend_width(kind: BackendKind) -> usize {
    match kind {
        BackendKind::Avx512 => AVX512_WIDTH,
        BackendKind::Avx2 => AVX2_WIDTH,
        BackendKind::Scalar => 1,
    }
}

/// The vector width, in f64 lanes, of a backend.
pub fn width_of(kind: BackendKind) -> (w: usize)
    ensures
        w == backend_width(kind),
{
    match kind {
        BackendKind::Avx512 => AVX512_WIDTH,
        BackendKind::Avx2 => AVX2_WIDTH,
        BackendKind::Scalar => 1,
    }
}


/// Backend choice: AVX-512 exactly when both its foundation and its
/// double/quad word instructions are present; AVX2 only when AVX2 is
/// present (and AVX-512 is not chosen); scalar whenever neither AVX2 nor
/// full AVX-512 is present, whatever the other features.
pub proof fn law_backend_choice(features: CpuFeatures)
    ensures
        (preferred_backend(features) == BackendKind::Avx512) <==> (features.has_avx512f
            && features.has_avx512dq),
        preferred_backend(features) == BackendKind::Avx2 ==> features.has_avx2,
        features.has_avx2 && !(features.has_avx512f && features.has_avx512dq) ==> preferred_backend(
            features,
        ) == BackendKind::Avx2,
        !features.has_avx2 && !(features.has_avx512f && features.has_avx512dq) ==> preferred_backend(
            features,
        ) == BackendKind::Scalar,
{
}

} // verus!

//! CPU feature detection and runtime dispatch
//!
//! The CPUID instruction is queried through `raw_cpuid`; what it reports
//! depends on the machine, so the flags it yields are handed to a verified
//! function that assembles the feature set.

use raw_cpuid::{CpuId, ExtendedFeatures, FeatureInfo};
use vstd::prelude::*;

verus! {

#[verifier::external_type_specification]
#[verifier::external_body]
pub struct ExFeatureInfo(FeatureInfo);

#[verifier::external_type_specification]
#[verifier::external_body]
pub struct ExExtendedFeatures(ExtendedFeatures);

/// CPU feature flags detected at runtime
#[derive(Debug, Clone, Copy)]
pub struct CpuFeatures {
    /// CPU supports SSE (Streaming SIMD Extensions)
    pub has_sse: bool,
    /// CPU supports SSE2
    pub has_sse2: bool,
    /// CPU supports SSE3
    pub has_sse3: bool,
    /// CPU supports SSSE3 (Supplemental SSE3)
    pub has_ssse3: bool,
    /// CPU supports SSE4.1
    pub has_sse4_1: bool,
    /// CPU supports SSE4.2
    pub has_sse4_2: bool,
    /// CPU supports AVX (Advanced Vector Extensions)
    pub has_avx: bool,
    /// CPU supports AVX2
    pub has_avx2: bool,
    /// CPU supports FMA (Fused Multiply-Add)
    pub has_fma: bool,
    /// CPU supports AVX-512 Foundation
    pub has_avx512f: bool,
    /// CPU supports AVX-512 Double/Quad Word instructions
    pub has_avx512dq: bool,
}

/// The flags read from the basic feature leaf (leaf 1) of CPUID.
#[derive(Debug, Clone, Copy)]
pub struct BasicCpuFlags {
    pub sse: bool,
    pub sse2: bool,
    pub sse3: bool,
    pub ssse3: bool,
    pub sse4_1: bool,
    pub sse4_2: bool,
    pub avx: bool,
    pub fma: bool,
}

/// The flags read from the structured extended feature leaf (leaf 7) of CPUID.
#[derive(Debug, Clone, Copy)]
pub struct ExtendedCpuFlags {
    pub avx2: bool,
    pub avx512f: bool,
    pub avx512dq: bool,
}

/// The feature set with every feature disabled.
pub open spec fn no_features() -> CpuFeatures {
    CpuFeatures {
        has_sse: false,
        has_sse2: false,
        has_sse3: false,
        has_ssse3: false,
        has_sse4_1: false,
        has_sse4_2: false,
        has_avx: false,
        has_avx2: false,
        has_fma: false,
        has_avx512f: false,
        has_avx512dq: false,
    }
}

/// The feature set described by the two CPUID leaves; a leaf the CPU does
/// not report contributes no feature.
pub open spec fn cpuid_features(basic: Option<BasicCpuFlags>, extended: Option<ExtendedCpuFlags>) -> CpuFeatures {
    let b = match basic {
        Some(b) => b,
        None => BasicCpuFlags {
            sse: false,
            sse2: false,
            sse3: false,
            ssse3: false,
            sse4_1: false,
            sse4_2: false,
            avx: false,
            fma: false,
        },
    };
    let e = match extended {
        Some(e) => e,
        None => ExtendedCpuFlags { avx2: false, avx512f: false, avx512dq: false },
    };
    CpuFeatures {
        has_sse: b.sse,
        has_sse2: b.sse2,
        has_sse3: b.sse3,
        has_ssse3: b.ssse3,
        has_sse4_1: b.sse4_1,
        has_sse4_2: b.sse4_2,
        has_avx: b.avx,
        has_avx2: e.avx2,
        has_fma: b.fma,
        has_avx512f: e.avx512f,
        has_avx512dq: e.avx512dq,
    }
}

impl Default for CpuFeatures {
    fn default() -> (f: Self)
        ensures
            f == no_features(),
    {
        CpuFeatures {
            has_sse: false,
            has_sse2: false,
            has_sse3: false,
            has_ssse3: false,
            has_sse4_1: false,
            has_sse4_2: false,
            has_avx: false,
            has_avx2: false,
            has_fma: false,
            has_avx512f: false,
            has_avx512dq: false,
        }
    }
}

impl CpuFeatures {
    /// Create a new CpuFeatures with all features disabled
    pub fn none() -> (f: Self)
        ensures
            f == no_features(),
    {
        Self::default()
    }

    /// Create a CpuFeatures for testing with every feature up to AVX2 and
    /// FMA enabled and AVX-512 disabled
    pub fn with_avx2() -> (f: Self)
        ensures
            f == (CpuFeatures {
                has_sse: true,
                has_sse2: true,
                has_sse3: true,
                has_ssse3: true,
                has_sse4_1: true,
                has_sse4_2: true,
                has_avx: true,
                has_avx2: true,
                has_fma: true,
                has_avx512f: false,
                has_avx512dq: false,
            }),
    {
        CpuFeatures {
            has_sse: true,
            has_sse2: true,
            has_sse3: true,
            has_ssse3: true,
            has_sse4_1: true,
            has_sse4_2: true,
            has_avx: true,
            has_avx2: true,
            has_fma: true,
            has_avx512f: false,
            has_avx512dq: false,
        }
    }
}

/// `CpuId::get_feature_info` of raw_cpuid, on the handle `CpuId::new` gives
/// for the running CPU: leaf 1, or `None` when the CPU does not report it.
/// (`CpuId`'s parameter is bound by a trait of raw_cpuid, so the type is
/// not declared here and the handle is made inside.) What comes back
/// depends on the machine; nothing is stated of it.
#[verifier::external_body]
fn cpuid_feature_info() -> Option<FeatureInfo> {
    CpuId::new().get_feature_info()
}

/// `CpuId::get_extended_feature_info` of raw_cpuid, on the handle
/// `CpuId::new` gives for the running CPU: leaf 7, or `None` when the CPU
/// does not report it. Depends on the machine; nothing is stated of it.
#[verifier::external_body]
fn cpuid_extended_feature_info() -> Option<ExtendedFeatures> {
    CpuId::new().get_extended_feature_info()
}

/// `FeatureInfo::has_sse` of raw_cpuid: the SSE bit of leaf 1.
#[verifier::external_body]
fn info_has_sse(info: &FeatureInfo) -> bool {
    info.has_sse()
}

/// `FeatureInfo::has_sse2` of raw_cpuid: the SSE2 bit of leaf 1.
#[verifier::external_body]
fn info_has_sse2(info: &FeatureInfo) -> bool {
    info.has_sse2()
}

/// `FeatureInfo::has_sse3` of raw_cpuid: the SSE3 bit of leaf 1.
#[verifier::external_body]
fn info_has_sse3(info: &FeatureInfo) -> bool {
    info.has_sse3()
}

/// `FeatureInfo::has_ssse3` of raw_cpuid: the SSSE3 bit of leaf 1.
#[verifier::external_body]
fn info_has_ssse3(info: &FeatureInfo) -> bool {
    info.has_ssse3()
}

/// `FeatureInfo::has_sse41` of raw_cpuid: the SSE4.1 bit of leaf 1.
#[verifier::external_body]
fn info_has_sse41(info: &FeatureInfo) -> bool {
    info.has_sse41()
}

/// `FeatureInfo::has_sse42` of raw_cpuid: the SSE4.2 bit of leaf 1.
#[verifier::external_body]
fn info_has_sse42(info: &FeatureInfo) -> bool {
    info.has_sse42()
}

/// `FeatureInfo::has_avx` of raw_cpuid: the AVX bit of leaf 1.
#[verifier::external_body]
fn info_has_avx(info: &FeatureInfo) -> bool {
    info.has_avx()
}

/// `FeatureInfo::has_fma` of raw_cpuid: the FMA bit of leaf 1.
#[verifier::external_body]
fn info_has_fma(info: &FeatureInfo) -> bool {
    info.has_fma()
}

/// `ExtendedFeatures::has_avx2` of raw_cpuid: the AVX2 bit of leaf 7.
#[verifier::external_body]
fn ext_has_avx2(ext: &ExtendedFeatures) -> bool {
    ext.has_avx2()
}

/// `ExtendedFeatures::has_avx512f` of raw_cpuid: the AVX512F bit of leaf 7.
#[verifier::external_body]
fn ext_has_avx512f(ext: &ExtendedFeatures) -> bool {
    ext.has_avx512f()
}

/// `ExtendedFeatures::has_avx512dq` of raw_cpuid: the AVX512DQ bit of leaf 7.
#[verifier::external_body]
fn ext_has_avx512dq(ext: &ExtendedFeatures) -> bool {
    ext.has_avx512dq()
}

/// Assemble the feature set from what the two CPUID leaves reported.
pub fn features_from_cpuid(basic: Option<BasicCpuFlags>, extended: Option<ExtendedCpuFlags>) -> (f: CpuFeatures)
    ensures
        f == cpuid_features(basic, extended),
{
    let mut features = CpuFeatures::default();
    if let Some(b) = basic {
        features.has_sse = b.sse;
        features.has_sse2 = b.sse2;
        features.has_sse3 = b.sse3;
        features.has_ssse3 = b.ssse3;
        features.has_sse4_1 = b.sse4_1;
        features.has_sse4_2 = b.sse4_2;
        features.has_avx = b.avx;
        features.has_fma = b.fma;
    }
    if let Some(e) = extended {
        features.has_avx2 = e.avx2;
        features.has_avx512f = e.avx512f;
        features.has_avx512dq = e.avx512dq;
    }
    features
}

/// Query CPUID on the running CPU and assemble its feature set with
/// `features_from_cpuid`. What the CPU reports depends on the machine, so
/// nothing is stated of the result.
pub fn detect_cpu_features_impl() -> CpuFeatures {
    let basic = match cpuid_feature_info() {
        Some(info) => Some(
            BasicCpuFlags {
                sse: info_has_sse(&info),
                sse2: info_has_sse2(&info),
                sse3: info_has_sse3(&info),
                ssse3: info_has_ssse3(&info),
                sse4_1: info_has_sse41(&info),
                sse4_2: info_has_sse42(&info),
                avx: info_has_avx(&info),
                fma: info_has_fma(&info),
            },
        ),
        None => None,
    };
    let extended = match cpuid_extended_feature_info() {
        Some(ext) => Some(
            ExtendedCpuFlags {
                avx2: ext_has_avx2(&ext),
                avx512f: ext_has_avx512f(&ext),
                avx512dq: ext_has_avx512dq(&ext),
            },
        ),
        None => None,
    };
    features_from_cpuid(basic, extended)
}

/// Detect CPU features at runtime
///
/// Uses the CPUID instruction to query CPU capabilities; the result depends
/// on the machine.
pub fn detect_cpu_features() -> CpuFeatures {
    detect_cpu_features_impl()
}

/// Whether a feature set includes AVX2
pub fn avx2_supported(features: &CpuFeatures) -> (r: bool)
    ensures
        r == features.has_avx2,
{
    features.has_avx2
}

/// Whether a feature set includes AVX-512: both the foundation and the
/// double/quad word instructions
pub fn avx512_supported(features: &CpuFeatures) -> (r: bool)
    ensures
        r == (features.has_avx512f && features.has_avx512dq),
{
    features.has_avx512f && features.has_avx512dq
}

/// Check if the current CPU supports AVX2: `avx2_supported` of one
/// detection of the CPU's features
pub fn has_avx2() -> bool {
    let features = detect_cpu_features();
    avx2_supported(&features)
}

/// Check if the current CPU supports AVX-512: `avx512_supported` of one
/// detection of the CPU's features
pub fn has_avx512() -> bool {
    let features = detect_cpu_features();
    avx512_supported(&features)
}


/// Each feature flag is the CPUID bit for it, copied unchanged: a flag of a
/// reported leaf equals that leaf's bit, whatever the other bits, and every
/// flag of an unreported leaf is off.
pub proof fn law_flags_copied_from_cpuid(basic: Option<BasicCpuFlags>, extended: Option<ExtendedCpuFlags>)
    ensures
        extended matches Some(e) ==> {
            &&& cpuid_features(basic, extended).has_avx2 == e.avx2
            &&& cpuid_features(basic, extended).has_avx512f == e.avx512f
            &&& cpuid_features(basic, extended).has_avx512dq == e.avx512dq
        },
        extended is None ==> {
            &&& !cpuid_features(basic, extended).has_avx2
            &&& !cpuid_features(basic, extended).has_avx512f
            &&& !cpuid_features(basic, extended).has_avx512dq
        },
        basic matches Some(b) ==> {
            &&& cpuid_features(basic, extended).has_sse == b.sse
            &&& cpuid_features(basic, extended).has_sse2 == b.sse2
            &&& cpuid_features(basic, extended).has_sse3 == b.sse3
            &&& cpuid_features(basic, extended).has_ssse3 == b.ssse3
            &&& cpuid_features(basic, extended).has_sse4_1 == b.sse4_1
            &&& cpuid_features(basic, extended).has_sse4_2 == b.sse4_2
            &&& cpuid_features(basic, extended).has_avx == b.avx
            &&& cpuid_features(basic, extended).has_fma == b.fma
        },
        basic is None ==> {
            &&& !cpuid_features(basic, extended).has_sse
            &&& !cpuid_features(basic, extended).has_sse2
            &&& !cpuid_features(basic, extended).has_sse3
            &&& !cpuid_features(basic, extended).has_ssse3
            &&& !cpuid_features(basic, extended).has_sse4_1
            &&& !cpuid_features(basic, extended).has_sse4_2
            &&& !cpuid_features(basic, extended).has_avx
            &&& !cpuid_features(basic, extended).has_fma
        },
{
}

} // verus!

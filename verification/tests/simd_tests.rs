use physics_engine::simd::{
    detect_cpu_features, features_from_cpuid, has_avx2, has_avx512, select_backend_kind, width_of,
    Avx2Backend, Avx512Backend, BackendKind, BasicCpuFlags, CpuFeatures, ExtendedCpuFlags,
    ScalarBackend, AVX2_WIDTH, AVX512_WIDTH,
};

#[test]
fn test_feature_detection() {
    let features = detect_cpu_features();
    assert!(features.has_sse2, "x86_64 requires SSE2");
}

#[test]
fn test_feature_caching() {
    let f1 = detect_cpu_features();
    let f2 = detect_cpu_features();

    assert_eq!(f1.has_avx2, f2.has_avx2);
    assert_eq!(f1.has_avx512f, f2.has_avx512f);
}

#[test]
fn test_helper_functions() {
    let features = detect_cpu_features();

    assert_eq!(has_avx2(), features.has_avx2);
    assert_eq!(has_avx512(), features.has_avx512f && features.has_avx512dq);
}

#[test]
fn test_default_features() {
    let features = CpuFeatures::default();
    assert!(!features.has_avx2);
    assert!(!features.has_avx512f);
}

#[test]
fn mod_test_scalar_backend_always_supported() {
    let backend = ScalarBackend;
    assert!(backend.is_supported());
}

#[test]
fn scalar_test_scalar_backend_always_supported() {
    let backend = ScalarBackend;
    assert!(backend.is_supported());
}

#[test]
fn test_cpu_feature_detection() {
    let features = detect_cpu_features();
    assert!(features.has_sse2);
}

fn basic(all: bool) -> BasicCpuFlags {
    BasicCpuFlags {
        sse: all,
        sse2: all,
        sse3: all,
        ssse3: all,
        sse4_1: all,
        sse4_2: all,
        avx: all,
        fma: all,
    }
}

// A leaf the CPU does not report contributes no feature.
#[test]
fn test_features_from_cpuid() {
    let none = features_from_cpuid(None, None);
    assert!(!none.has_sse && !none.has_sse2 && !none.has_avx2 && !none.has_avx512dq);

    let ext = ExtendedCpuFlags { avx2: true, avx512f: true, avx512dq: false };
    let f = features_from_cpuid(Some(basic(true)), Some(ext));
    assert!(f.has_sse && f.has_sse4_1 && f.has_sse4_2 && f.has_fma && f.has_avx);
    assert!(f.has_avx2 && f.has_avx512f && !f.has_avx512dq);

    let only_ext = features_from_cpuid(None, Some(ext));
    assert!(!only_ext.has_sse2 && only_ext.has_avx2);
}

// Backends are chosen AVX-512 first, then AVX2, then scalar.
#[test]
fn test_backend_selection_priority() {
    let none = CpuFeatures::none();
    assert_eq!(select_backend_kind(&none), BackendKind::Scalar);

    let avx2 = CpuFeatures::with_avx2();
    assert_eq!(select_backend_kind(&avx2), BackendKind::Avx2);

    let mut both = CpuFeatures::with_avx2();
    both.has_avx512f = true;
    assert_eq!(select_backend_kind(&both), BackendKind::Avx2);
    both.has_avx512dq = true;
    assert_eq!(select_backend_kind(&both), BackendKind::Avx512);

    let mut no_avx2 = both;
    no_avx2.has_avx2 = false;
    assert_eq!(select_backend_kind(&no_avx2), BackendKind::Avx512);

    assert_eq!(width_of(BackendKind::Avx512), 8);
    assert_eq!(width_of(BackendKind::Avx2), 4);
    assert_eq!(width_of(BackendKind::Scalar), 1);
}

#[test]
fn test_backend_names_and_widths() {
    assert_eq!(ScalarBackend.name(), "Scalar");
    assert_eq!(ScalarBackend.width(), 1);
    assert_eq!(Avx2Backend.name(), "AVX2");
    assert_eq!(Avx2Backend.width(), AVX2_WIDTH);
    assert_eq!(Avx512Backend.name(), "AVX-512");
    assert_eq!(Avx512Backend.width(), AVX512_WIDTH);
}

#[test]
fn test_with_avx2_features() {
    let f = CpuFeatures::with_avx2();
    assert!(f.has_sse && f.has_sse2 && f.has_sse3 && f.has_ssse3);
    assert!(f.has_sse4_1 && f.has_sse4_2 && f.has_avx && f.has_avx2 && f.has_fma);
    assert!(!f.has_avx512f && !f.has_avx512dq);
}

#[test]
fn test_feature_set_helpers() {
    use_helpers();
}

fn use_helpers() {
    let mut f = CpuFeatures::with_avx2();
    assert!(physics_engine::simd::avx2_supported(&f));
    assert!(!physics_engine::simd::avx512_supported(&f));
    f.has_avx512f = true;
    assert!(!physics_engine::simd::avx512_supported(&f));
    f.has_avx512dq = true;
    assert!(physics_engine::simd::avx512_supported(&f));
    f.has_avx2 = false;
    assert!(!physics_engine::simd::avx2_supported(&f));
    let none = CpuFeatures::none();
    assert!(!physics_engine::simd::avx2_supported(&none));
    assert!(!physics_engine::simd::avx512_supported(&none));
}

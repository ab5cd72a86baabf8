//! Tests for the target resolution pipeline: detectors, collapse, selection,
//! capability test, and the chain of all of them.

use cuda_oxide::target_resolution::{
    check_target_compat, contains_ampere_async_features, contains_blackwell_features,
    contains_cluster_features, contains_tma_features, contains_tma_multicast,
    contains_wgmma_features, detect_features, is_sm75_target, select_target, DetectedFeatures,
};

// =========================================================================
// Detector tests: per-intrinsic-family contains_* positive/negative.
// =========================================================================

#[test]
fn test_contains_wgmma_features_detects_intrinsic() {
    let ir = Some("call void @llvm.nvvm.wgmma.mma_async(...)");
    assert!(contains_wgmma_features(ir));
}

#[test]
fn test_contains_wgmma_features_ignores_unrelated() {
    let ir = Some("ret void");
    assert!(!contains_wgmma_features(ir));
}

#[test]
fn test_contains_tma_features_detects_intrinsic() {
    let ir = Some("call void @llvm.nvvm.cp.async.bulk.tensor.g2s.tile(...)");
    assert!(contains_tma_features(ir));
}

#[test]
fn test_contains_cluster_features_detects_intrinsic() {
    let ir = Some("%id = call i32 @llvm.nvvm.read.ptx.sreg.cluster_ctaid()");
    assert!(contains_cluster_features(ir));
}

#[test]
fn test_contains_blackwell_features_detects_intrinsic() {
    let ir = Some("call void @llvm.nvvm.tcgen05.alloc(...)");
    assert!(contains_blackwell_features(ir));
}

#[test]
fn test_contains_tma_multicast_requires_cta_mask() {
    let multicast = Some("call void @llvm.nvvm.cp.async.bulk.tensor.g2s.tile(i32 0, i1 1, i1 false)");
    let unicast = Some("call void @llvm.nvvm.cp.async.bulk.tensor.g2s.tile(i32 0, i1 0, i1 false)");
    assert!(contains_tma_multicast(multicast));
    assert!(!contains_tma_multicast(unicast));
}

#[test]
fn test_contains_ampere_async_detects_plain_cp_async() {
    // The non-bulk `cp.async` form is the Ampere async-memcpy engine.
    let ir = Some("call void @llvm.nvvm.cp.async.cg.shared.global(...)");
    assert!(
        contains_ampere_async_features(ir),
        "plain cp.async must be detected as Ampere async"
    );
}

#[test]
fn test_contains_ampere_async_detects_commit_wait_group() {
    let commit = Some("call void @llvm.nvvm.cp.async.commit_group(...)");
    let wait = Some("call void @llvm.nvvm.cp.async.wait_group(i32 0)");
    assert!(contains_ampere_async_features(commit));
    assert!(contains_ampere_async_features(wait));
}

#[test]
fn test_contains_ampere_async_detects_bar_warp_sync() {
    let ir = Some("call void @llvm.nvvm.bar.warp.sync(i32 -1)");
    assert!(
        contains_ampere_async_features(ir),
        "bar.warp.sync must be detected as Ampere async"
    );
}

/// TMA bulk-form intrinsics must NOT be misclassified as AmpereAsync
/// - the `cp.async.bulk.tensor` form belongs to TMA (sm_90+) and
/// should be caught by `contains_tma_features` (not the Ampere
/// detector). The priority chain in `detect_features` resolves the
/// double-match, but the Ampere detector itself must stay clean.
#[test]
fn test_contains_ampere_async_does_not_match_bulk_forms() {
    let ir = Some("call void @llvm.nvvm.cp.async.bulk.tensor.g2s.tile(i32 0, i1 0, i1 false)");
    assert!(
        !contains_ampere_async_features(ir),
        "cp.async.bulk.tensor must not be classified as Ampere async"
    );
}

#[test]
fn test_contains_ampere_async_ignores_unrelated() {
    let ir = Some("ret void");
    assert!(!contains_ampere_async_features(ir));
}

// =========================================================================
// Collapse tests: detect_features priority and Basic fall-through.
// =========================================================================

#[test]
fn test_detect_features_prefers_most_specific() {
    // A file with both blackwell and wgmma patterns must collapse to
    // Blackwell (most specific wins by the order in detect_features).
    let ir = Some("call void @llvm.nvvm.tcgen05.alloc(...)\n\
         call void @llvm.nvvm.wgmma.mma_async(...)");
    assert_eq!(detect_features(ir), DetectedFeatures::Blackwell);
}

#[test]
fn test_detect_features_falls_through_to_basic() {
    let ir = Some("define void @kernel() { ret void }");
    assert_eq!(detect_features(ir), DetectedFeatures::Basic);
}

// =========================================================================
// select_target tests: feature-to-arch mapping (pure lookup table).
// =========================================================================

#[test]
fn test_select_target_prefers_required_architecture() {
    assert_eq!(select_target(DetectedFeatures::Blackwell), "sm_100a");
    assert_eq!(select_target(DetectedFeatures::TmaMulticast), "sm_100a");
    assert_eq!(select_target(DetectedFeatures::Wgmma), "sm_90a");
    assert_eq!(select_target(DetectedFeatures::Tma), "sm_100");
    assert_eq!(select_target(DetectedFeatures::Cluster), "sm_90");
    assert_eq!(select_target(DetectedFeatures::AmpereAsync), "sm_80");
    assert_eq!(select_target(DetectedFeatures::Basic), "sm_75");
}

// =========================================================================
// Capability tests: SM75 capability check, including the sm_75a typo guard.
// =========================================================================

#[test]
fn test_sm75_gate_accepts_basic_on_sm75() {
    assert!(check_target_compat("sm_75", DetectedFeatures::Basic).is_ok());
    assert!(check_target_compat("compute_75", DetectedFeatures::Basic).is_ok());
}

#[test]
fn test_sm75_gate_rejects_advanced_features() {
    assert!(check_target_compat("sm_75", DetectedFeatures::Wgmma).is_err());
    assert!(check_target_compat("sm_75", DetectedFeatures::Tma).is_err());
    assert!(check_target_compat("sm_75", DetectedFeatures::TmaMulticast).is_err());
    assert!(check_target_compat("sm_75", DetectedFeatures::Cluster).is_err());
    assert!(check_target_compat("sm_75", DetectedFeatures::Blackwell).is_err());
    assert!(check_target_compat("sm_75", DetectedFeatures::AmpereAsync).is_err());
    assert!(check_target_compat("compute_75", DetectedFeatures::Wgmma).is_err());
    assert!(check_target_compat("compute_75", DetectedFeatures::AmpereAsync).is_err());
}

#[test]
fn test_sm75_gate_passes_through_other_targets() {
    assert!(check_target_compat("sm_80", DetectedFeatures::Wgmma).is_ok());
    assert!(check_target_compat("sm_80", DetectedFeatures::AmpereAsync).is_ok());
    assert!(check_target_compat("sm_90", DetectedFeatures::Wgmma).is_ok());
    assert!(check_target_compat("sm_90a", DetectedFeatures::Wgmma).is_ok());
    assert!(check_target_compat("sm_100", DetectedFeatures::Tma).is_ok());
    assert!(check_target_compat("sm_100a", DetectedFeatures::Blackwell).is_ok());
}

#[test]
fn test_sm75_gate_error_message_mentions_target_and_feature() {
    let err = check_target_compat("sm_75", DetectedFeatures::Wgmma).unwrap_err();
    assert!(err.contains("sm_75"), "error must name the target: {err}");
    assert!(err.contains("Wgmma"), "error must name the offending feature: {err}");
}

#[test]
fn test_sm75_gate_rejects_75a_with_helpful_error() {
    let err = check_target_compat("sm_75a", DetectedFeatures::Basic).unwrap_err();
    assert!(err.contains("sm_75a"), "error must name the bad target: {err}");
    assert!(
        err.contains("sm_75"),
        "error must suggest the correct target: {err}"
    );
    assert!(
        err.to_lowercase().contains("typo") || err.to_lowercase().contains("did you mean"),
        "error must hint at the typo: {err}"
    );
    assert!(check_target_compat("compute_75a", DetectedFeatures::Basic).is_err());
}

#[test]
fn test_sm75_gate_treats_compute_75_identically() {
    assert!(check_target_compat("sm_75", DetectedFeatures::Basic).is_ok());
    assert!(check_target_compat("compute_75", DetectedFeatures::Basic).is_ok());
    for detected in [
        DetectedFeatures::Wgmma,
        DetectedFeatures::Tma,
        DetectedFeatures::TmaMulticast,
        DetectedFeatures::Cluster,
        DetectedFeatures::Blackwell,
        DetectedFeatures::AmpereAsync,
    ] {
        assert!(
            check_target_compat("sm_75", detected).is_err(),
            "sm_75 must reject {detected:?}"
        );
        assert!(
            check_target_compat("compute_75", detected).is_err(),
            "compute_75 must reject {detected:?}"
        );
    }
    assert!(is_sm75_target("sm_75"));
    assert!(is_sm75_target("compute_75"));
    assert!(!is_sm75_target("sm_80"));
    assert!(!is_sm75_target("sm_90"));
    assert!(!is_sm75_target("sm_100"));
    assert!(!is_sm75_target("sm_100a"));
}

// =========================================================================
// Integration tests: end-to-end chain through real IR fixtures.
// =========================================================================

#[test]
fn test_sm75_gate_catches_real_wgmma_intrinsic() {
    let ir = Some(r#"
declare void @llvm.nvvm.wgmma.mma_async(...) #0
define void @kernel() {
  call void @llvm.nvvm.wgmma.mma_async(...)
  ret void
}
"#);
    assert!(
        contains_wgmma_features(ir),
        "WGMMA intrinsic must be detected in the IR"
    );
    let detected = detect_features(ir);
    assert_eq!(detected, DetectedFeatures::Wgmma);
    let target = select_target(detected);
    assert_eq!(target, "sm_90a", "WGMMA must auto-select sm_90a");
    assert!(check_target_compat(target, detected).is_ok());
    let err = check_target_compat("sm_75", detected).unwrap_err();
    assert!(err.contains("Wgmma"));
}

/// The intrinsic families that are rejected on sm_75 must each be
/// detectable from realistic LLVM IR snippets.
#[test]
fn test_sm75_gate_full_chain_for_each_intrinsic_family() {
    // Each entry is a (intrinsic substring, expected DetectedFeatures).
    // A regression in any detector would flip the assertion below.
    let cases: &[(&str, DetectedFeatures)] = &[
        ("call void @llvm.nvvm.wgmma.mma_async(...)", DetectedFeatures::Wgmma),
        (
            "call void @llvm.nvvm.cp.async.bulk.tensor.g2s.tile(...)",
            DetectedFeatures::Tma,
        ),
        (
            "call void @llvm.nvvm.tcgen05.alloc(...)",
            DetectedFeatures::Blackwell,
        ),
        (
            "%id = call i32 @llvm.nvvm.read.ptx.sreg.cluster_ctaid()",
            DetectedFeatures::Cluster,
        ),
        (
            "call void @llvm.nvvm.cp.async.cg.shared.global(...)",
            DetectedFeatures::AmpereAsync,
        ),
        (
            "call void @llvm.nvvm.bar.warp.sync(i32 -1)",
            DetectedFeatures::AmpereAsync,
        ),
    ];

    for (snippet, expected) in cases {
        let ir = Some(*snippet);
        let detected = detect_features(ir);
        assert_eq!(
            detected, *expected,
            "snippet {snippet:?} must detect as {expected:?}, got {detected:?}"
        );

        // With the IR's own detected target, the pair must pass.
        let auto_target = select_target(detected);
        assert!(
            check_target_compat(auto_target, detected).is_ok(),
            "auto-selected target {auto_target} must accept {detected:?}"
        );

        // Forcing sm_75 must always be refused for these families.
        let err = check_target_compat("sm_75", detected)
            .expect_err(&format!("sm_75 must reject {detected:?}"));
        assert!(err.contains("sm_75"), "error must name the target: {err}");
    }
}

/// `tma_copy` emits plain TMA, not multicast, so it must collapse to `Tma`,
/// not `TmaMulticast`.
#[test]
fn test_sm75_gate_doc_verification_tma_copy_uses_plain_tma() {
    // A representative TMA-but-not-multicast snippet. The use_cta_mask
    // argument is `i1 0` (false), so multicast detection must NOT fire.
    let ir = Some(r#"
declare void @llvm.nvvm.cp.async.bulk.tensor.g2s.tile(
  i32, i1, i1, i64, i64, i64, i64, i64, ptr, ptr
) #0
define void @kernel(ptr %dst, ptr %src) {
  call void @llvm.nvvm.cp.async.bulk.tensor.g2s.tile(
    i32 0, i1 0, i1 false,
    i64 0, i64 0, i64 0, i64 0, i64 0,
    ptr %src, ptr %dst
  )
  ret void
}
"#);
    let detected = detect_features(ir);
    assert_eq!(
        detected,
        DetectedFeatures::Tma,
        "tma_copy IR must detect as Tma, got {detected:?}"
    );
    let err = check_target_compat("sm_75", detected).unwrap_err();
    assert!(
        err.contains("Architecture sm_75 does not support detected advanced features: Tma"),
        "unexpected message: {err}"
    );
}

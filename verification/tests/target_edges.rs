//! Edge cases of detection and of the capability test.

use cuda_oxide::target_resolution::{
    check_target_compat, contains_ampere_async_features, contains_blackwell_features,
    contains_cluster_features, contains_named_barrier_bar_sync, contains_tma_features,
    contains_tma_multicast, contains_wgmma_features, detect_features, is_sm75_target,
    select_target, DetectedFeatures,
};
use cuda_oxide::text::{chars_of, contains, same_text};
use cuda_oxide::toolchain::is_nightly;

const ALL: [DetectedFeatures; 7] = [
    DetectedFeatures::Blackwell,
    DetectedFeatures::TmaMulticast,
    DetectedFeatures::Wgmma,
    DetectedFeatures::Tma,
    DetectedFeatures::Cluster,
    DetectedFeatures::AmpereAsync,
    DetectedFeatures::Basic,
];

#[test]
fn every_pattern_is_detected() {
    for p in ["wgmma.fence", "wgmma.commit_group", "wgmma.wait_group", "wgmma.mma_async"] {
        assert!(contains_wgmma_features(Some(p)), "{p}");
        assert_eq!(detect_features(Some(p)), DetectedFeatures::Wgmma);
    }
    for p in ["cluster_ctaid", "cluster_nctaid", "cluster.sync", "mapa.shared::cluster"] {
        assert!(contains_cluster_features(Some(p)), "{p}");
        assert_eq!(detect_features(Some(p)), DetectedFeatures::Cluster);
    }
    for p in [
        "cp.async.bulk.tensor",
        "cp.async.bulk.commit_group",
        "cp.async.bulk.wait_group",
        "cp.async.bulk.shared",
        "mbarrier.init",
        "mbarrier.arrive.expect_tx",
        "mbarrier.try_wait",
        "fence.proxy.async",
    ] {
        assert!(contains_tma_features(Some(p)), "{p}");
        assert_eq!(detect_features(Some(p)), DetectedFeatures::Tma);
    }
    for p in [
        "tcgen05.alloc",
        "tcgen05.dealloc",
        "tcgen05.relinquish_alloc_permit",
        "tcgen05.fence",
        "tcgen05.commit",
        "tcgen05.mma",
        "tcgen05.cp",
    ] {
        assert!(contains_blackwell_features(Some(p)), "{p}");
        assert_eq!(detect_features(Some(p)), DetectedFeatures::Blackwell);
    }
    for p in ["cp.async", "cp.async.commit_group", "cp.async.wait_group", "bar.warp.sync"] {
        assert!(contains_ampere_async_features(Some(p)), "{p}");
        assert_eq!(detect_features(Some(p)), DetectedFeatures::AmpereAsync);
    }
}

#[test]
fn nothing_is_detected_in_an_unreadable_or_empty_file() {
    for contents in [None, Some("")] {
        assert!(!contains_wgmma_features(contents));
        assert!(!contains_cluster_features(contents));
        assert!(!contains_tma_features(contents));
        assert!(!contains_blackwell_features(contents));
        assert!(!contains_tma_multicast(contents));
        assert!(!contains_ampere_async_features(contents));
        assert!(!contains_named_barrier_bar_sync(contents));
        assert_eq!(detect_features(contents), DetectedFeatures::Basic);
    }
}

#[test]
fn near_misses_are_not_detected() {
    assert!(!contains_blackwell_features(Some("tcgen05.ld")));
    assert!(!contains_tma_features(Some("fence.proxy")));
    assert!(!contains_cluster_features(Some("cluster")));
    assert!(!contains_wgmma_features(Some("WGMMA.FENCE")));
}

#[test]
fn every_bulk_form_is_tma() {
    let ir = Some("call void @llvm.nvvm.cp.async.bulk.commit_group()");
    assert!(contains_tma_features(ir));
    assert!(!contains_ampere_async_features(ir));
    assert_eq!(detect_features(ir), DetectedFeatures::Tma);
    assert_eq!(select_target(detect_features(ir)), "sm_100");
}

#[test]
fn bulk_is_a_whole_word() {
    let ir = Some("call void @cp.async.bulkhead()");
    assert!(contains_ampere_async_features(ir));
    assert!(!contains_tma_features(ir));
    assert_eq!(detect_features(ir), DetectedFeatures::AmpereAsync);
}

#[test]
fn every_mbarrier_form_is_tma() {
    let ir = Some("call void @llvm.nvvm.mbarrier.init(...)");
    assert!(contains_tma_features(ir));
    assert_eq!(
        check_target_compat("sm_75", detect_features(ir)).unwrap_err(),
        "Architecture sm_75 does not support detected advanced features: Tma"
    );
}

#[test]
fn plain_async_copy_counts_beside_bulk_copies() {
    let mixed = Some(
        "call void @llvm.nvvm.cp.async.cg.shared.global(...)\n\
         call void @llvm.nvvm.cp.async.bulk.tensor.g2s.tile(...)",
    );
    assert!(contains_ampere_async_features(mixed));
    assert!(contains_tma_features(mixed));
    assert_eq!(detect_features(mixed), DetectedFeatures::Tma);
}

#[test]
fn multicast_mask_can_be_spelt_true() {
    let ir = Some("call void @llvm.nvvm.cp.async.bulk.tensor.g2s.tile(i32 0, i1 true, i1 false)");
    assert!(contains_tma_multicast(ir));
    assert_eq!(detect_features(ir), DetectedFeatures::TmaMulticast);
    assert_eq!(select_target(detect_features(ir)), "sm_100a");
}

#[test]
fn multicast_mask_is_the_second_to_last_i1_argument() {
    for ir in [
        "call void @g2s.tile.2d(\n    i32 0, i1 1, i1 false,\n    ptr %src\n  )",
        "g2s.tile(\n  i32 0,\n  i1 true,\n  i1 false\n)",
        "g2s.tile(i1 1, i1 0)",
        "g2s.tile(i1 1, i32 7, i1 0)",
        "g2s.tile(i1 0, i1 1, i1 0)",
        "g2s.tile(ptr bitcast (ptr @a, i1 0), i1 1, i16 3, i1 0)",
        "f(g2s.tile) g2s.tile(i1 true , i1 0)",
        "g2s.tile (i1 1, i1 0)",
        "call void @\"g2s.tile\"(i32 0, i1 1, i1 0)",
        "g2s.tile.fn-2$x(i1 1, i1 0)",
        "g2s.tile(i1 noundef true, i1 noundef false)",
        "g2s.tile(i1\t1, i1 0)",
    ] {
        assert!(contains_tma_multicast(Some(ir)), "{ir}");
    }
    for ir in [
        "call void @g2s.tile(\n    i32 0, i1 0, i1 false,\n    ptr %src\n  )",
        "declare void @g2s.tile(i32, i1, i1, i64)",
        "declare void @g2s.tile(i32, i1 immarg, i1 immarg)",
        "g2s.tile()",
        "g2s.tile(i1 1)",
        "g2s.tile(i1 0, i1 1)",
        "g2s.tile(i1 0, i1 0) f(i1 1, i1 0)",
        "g2s.tile(i16 1, i1 0)",
        "g2s.tile(i1 1, i1 0",
        "g2s.tile(i1 0, i1 1, i1 0, i1 0)",
        "g2s.tile(i1 noundef false, i1 noundef true)",
        "g2s.tile(i11 1, i1 0)",
        "g2s.tile f(i1 1, i1 0)",
        "tile(i1 1, i1 0)",
    ] {
        assert!(!contains_tma_multicast(Some(ir)), "{ir}");
    }
}

#[test]
fn multicast_mask_belongs_to_the_tile_copy() {
    assert!(contains_tma_multicast(Some("x\r\ng2s.tile(i32 0, i1 1, i1 0)\r\ny")));
    assert!(!contains_tma_multicast(Some("f(, i1 1, i1) g2s.tile")));
    assert!(!contains_tma_multicast(Some("g2s.tile(i1 0, i1 0) f(i32 0, i1 1, i1 0)")));
    assert!(!contains_tma_multicast(Some("f(i32 0, i1 1, i1 0) g2s.tile(i1 0, i1 0)")));
    assert!(!contains_tma_multicast(Some("g2s.tile\nf(i32 0, i1 1, i1 0)")));
    assert!(!contains_tma_multicast(Some("g2s.tile\r\nf(i32 0, i1 1, i1 0)")));
    assert_eq!(
        detect_features(Some("cp.async.bulk.tensor.g2s.tile(i32 0, i1 1, i1 0)")),
        DetectedFeatures::TmaMulticast
    );
}

#[test]
fn named_barriers_are_ampere() {
    let named = "call void asm \"bar.sync 1, !\"%named-barrier-1\"";
    assert!(contains_named_barrier_bar_sync(Some(named)));
    assert!(!contains_ampere_async_features(Some(named)));
    assert_eq!(detect_features(Some(named)), DetectedFeatures::AmpereAsync);
    assert!(contains_named_barrier_bar_sync(Some(
        "bar.sync 0; bar.sync 10, !\"%named-barrier-10\""
    )));
    let err = check_target_compat("sm_75", detect_features(Some(named))).unwrap_err();
    assert_eq!(
        err,
        "Architecture sm_75 does not support detected advanced features: AmpereAsync"
    );
}

#[test]
fn block_barrier_is_not_a_named_one() {
    for ir in [
        "bar.sync 0;",
        "bar.sync 0",
        "bar.sync 0, !\"%named-barrier-0\"",
        "bar.sync 00, !\"%named-barrier-00\"",
        "bar.sync 1",
        "bar.sync 1, 32",
        "bar.sync 1, !\"%named-barrier-2\"",
        "bar.sync 1, !\"%named-barrier-11\"",
        "bar.sync , !\"%named-barrier-\"",
    ] {
        assert!(!contains_named_barrier_bar_sync(Some(ir)), "{ir}");
        assert_eq!(detect_features(Some(ir)), DetectedFeatures::Basic, "{ir}");
    }
}

#[test]
fn collapse_prefers_the_more_specific_family() {
    let steps = [
        ("bar.warp.sync\n", DetectedFeatures::AmpereAsync),
        ("cluster.sync\n", DetectedFeatures::Cluster),
        ("mbarrier.try_wait\n", DetectedFeatures::Tma),
        ("wgmma.fence\n", DetectedFeatures::Wgmma),
        ("g2s.tile(, i1 1, i1)\n", DetectedFeatures::TmaMulticast),
        ("tcgen05.mma\n", DetectedFeatures::Blackwell),
    ];
    let mut ir = String::new();
    for (line, expected) in steps {
        ir.push_str(line);
        assert_eq!(detect_features(Some(&ir)), expected);
        assert!(check_target_compat("sm_75", detect_features(Some(&ir))).is_err());
    }
}

#[test]
fn joined_ir_needs_the_more_specific_family() {
    let pieces = [
        ("ret void", DetectedFeatures::Basic),
        ("bar.warp.sync", DetectedFeatures::AmpereAsync),
        ("cluster.sync", DetectedFeatures::Cluster),
        ("mbarrier.try_wait", DetectedFeatures::Tma),
        ("wgmma.fence", DetectedFeatures::Wgmma),
        ("g2s.tile(i1 1, i1 0)", DetectedFeatures::TmaMulticast),
        ("tcgen05.mma", DetectedFeatures::Blackwell),
    ];
    for (i, (a, fa)) in pieces.into_iter().enumerate() {
        assert_eq!(detect_features(Some(a)), fa);
        for (j, (b, fb)) in pieces.into_iter().enumerate() {
            let joined = format!("{a}\n{b}");
            let expected = if i >= j { fa } else { fb };
            assert_eq!(detect_features(Some(&joined)), expected, "{joined}");
        }
    }
    for (a, b) in [("cp.asy", "nc"), ("cp.async", ".bulk."), ("g2s.tile", "(i1 1, i1 0)")] {
        let joined = format!("{a}\n{b}");
        assert_eq!(detect_features(Some(&joined)), detect_features(Some(a)), "{joined}");
    }
}

#[test]
fn joining_can_complete_a_cut_tile_copy() {
    assert_eq!(detect_features(Some("g2s.tile(i1 1,")), DetectedFeatures::Basic);
    assert_eq!(detect_features(Some("i1 0)")), DetectedFeatures::Basic);
    assert_eq!(
        detect_features(Some("g2s.tile(i1 1,\ni1 0)")),
        DetectedFeatures::TmaMulticast
    );
}

#[test]
fn selected_targets_are_accepted() {
    for features in ALL {
        assert!(check_target_compat(select_target(features), features).is_ok());
    }
}

#[test]
fn messages_are_exact() {
    assert_eq!(
        check_target_compat("sm_75a", DetectedFeatures::Wgmma).unwrap_err(),
        "Architecture sm_75a is not a valid target: Turing (sm_75) has no \
         arch-specific extensions. Did you mean `sm_75`?"
    );
    assert_eq!(
        check_target_compat("compute_75a", DetectedFeatures::Basic).unwrap_err(),
        "Architecture compute_75a is not a valid target: Turing (sm_75) has no \
         arch-specific extensions. Did you mean `sm_75`?"
    );
    assert_eq!(
        check_target_compat("compute_75", DetectedFeatures::Cluster).unwrap_err(),
        "Architecture compute_75 does not support detected advanced features: Cluster"
    );
    for features in ALL {
        assert_eq!(features.name(), format!("{features:?}"));
    }
}

#[test]
fn blackwell_only_features_are_refused_on_generic_targets() {
    assert_eq!(
        check_target_compat("sm_75", DetectedFeatures::Blackwell).unwrap_err(),
        "Architecture sm_75 does not support detected advanced features: Blackwell"
    );
    assert_eq!(
        check_target_compat("sm_90", DetectedFeatures::Blackwell).unwrap_err(),
        "Architecture sm_90 does not support detected advanced features: Blackwell"
    );
    assert_eq!(
        check_target_compat("sm_100", DetectedFeatures::TmaMulticast).unwrap_err(),
        "Architecture sm_100 does not support detected advanced features: TmaMulticast"
    );
    assert!(check_target_compat("sm_90", DetectedFeatures::TmaMulticast).is_err());
    assert!(check_target_compat("sm_100", DetectedFeatures::Blackwell).is_err());
    assert!(check_target_compat("sm_100a", DetectedFeatures::TmaMulticast).is_ok());
    assert!(check_target_compat("sm_90", DetectedFeatures::Cluster).is_ok());
}

#[test]
fn wgmma_is_refused_on_blackwell() {
    assert_eq!(
        check_target_compat("sm_100", DetectedFeatures::Wgmma).unwrap_err(),
        "Architecture sm_100 does not support detected advanced features: Wgmma"
    );
    assert_eq!(
        check_target_compat("sm_100a", DetectedFeatures::Wgmma).unwrap_err(),
        "Architecture sm_100a does not support detected advanced features: Wgmma"
    );
    assert!(check_target_compat("sm_90a", DetectedFeatures::Wgmma).is_ok());
}

#[test]
fn unknown_targets_pass() {
    for features in ALL {
        assert!(check_target_compat("", features).is_ok());
        assert!(check_target_compat("sm_120a", features).is_ok());
        assert!(check_target_compat("SM_75", features).is_ok());
    }
    assert!(!is_sm75_target("sm_75a"));
    assert!(!is_sm75_target("sm_7"));
    assert!(!is_sm75_target(""));
}

#[test]
fn substring_search() {
    let text = chars_of("a\u{e9}b\u{1f600}b");
    assert_eq!(text.len(), 5);
    assert!(contains(&text, ""));
    assert!(contains(&text, "\u{e9}b"));
    assert!(contains(&text, "b\u{1f600}b"));
    assert!(!contains(&text, "bb"));
    assert!(!contains(&text, "a\u{e9}b\u{1f600}bb"));
    assert!(contains(&chars_of(""), ""));
    assert!(same_text("", ""));
    assert!(!same_text("a", "ab"));
    assert!(!same_text("ab", "ac"));
}

#[test]
fn nightly_toolchains() {
    assert!(is_nightly(Some("rustc 1.90.0-nightly (abc 2025-07-01)")));
    assert!(is_nightly(Some("rustc 1.90.0-dev")));
    assert!(!is_nightly(Some("rustc 1.88.0 (abc 2025-06-23)")));
    assert!(!is_nightly(Some("")));
    assert!(!is_nightly(None));
}

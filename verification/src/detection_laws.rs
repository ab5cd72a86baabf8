//! Laws of detection: which texts in the IR make a detector fire, and which
//! IR needs no more than the baseline.

use crate::call_args;
use crate::target_laws;
use crate::target_resolution as target;
use crate::target_resolution::{
    check_target_compat, contains_ampere_async_features, contains_blackwell_features,
    contains_cluster_features, contains_named_barrier_bar_sync, contains_tma_features,
    contains_tma_multicast, contains_wgmma_features, detect_features, select_target,
    DetectedFeatures,
};
use crate::text;
use crate::text::{contains, same_text};
use crate::toolchain::is_nightly;
use vstd::prelude::*;

verus! {

/// `part` with something before it and something behind it.
pub open spec fn around(before: Seq<char>, part: Seq<char>, after: Seq<char>) -> Seq<char> {
    before + part + after
}

/// The text can be cut in three, the middle piece being `part`.
pub open spec fn holds(text: Seq<char>, part: Seq<char>) -> bool {
    exists|before: Seq<char>, after: Seq<char>| text == #[trigger] around(before, part, after)
}

/// The text holds `cp.async` with something other than `.bulk.` behind it.
pub open spec fn holds_plain_copy(text: Seq<char>) -> bool {
    exists|before: Seq<char>, after: Seq<char>|
        text == #[trigger] around(before, "cp.async"@, after) && !".bulk."@.is_prefix_of(after)
}

/// The text holds a barrier with the decimal number `index`, and the name that
/// goes with it.
pub open spec fn holds_barrier(text: Seq<char>, index: Seq<char>) -> bool {
    holds(text, "bar.sync "@ + index + ", !\"%named-barrier-"@ + index + "\""@)
}

/// What stands at a position cuts the text in three there.
proof fn lemma_cut_at(text: Seq<char>, part: Seq<char>, i: int)
    requires
        text::occurs_at(part, text, i),
    ensures
        text == around(text.take(i), part, text.skip(i + part.len())),
{
    assert(text =~= around(
        text.take(i),
        text.subrange(i, i + part.len()),
        text.skip(i + part.len()),
    ));
}

/// What is put between two texts stands where the first one ends.
proof fn lemma_stands_between(before: Seq<char>, part: Seq<char>, after: Seq<char>)
    ensures
        text::occurs_at(part, around(before, part, after), before.len() as int),
{
    assert(around(before, part, after).subrange(
        before.len() as int,
        (before.len() + part.len()) as int,
    ) =~= part);
}

/// A part occurs in a text exactly where the text can be cut around it.
pub proof fn law_occurrence_is_a_cut(text: Seq<char>)
    ensures
        forall|part: Seq<char>|
            #![trigger text::occurs(part, text)]
            #![trigger holds(text, part)]
            text::occurs(part, text) <==> holds(text, part),
{
    assert forall|part: Seq<char>|
        #![trigger text::occurs(part, text)]
        #![trigger holds(text, part)]
        text::occurs(part, text) <==> holds(text, part) by {
        if text::occurs(part, text) {
            let i = choose|i: int| text::occurs_at(part, text, i);
            lemma_cut_at(text, part, i);
        }
        if holds(text, part) {
            let (before, after) = choose|before: Seq<char>, after: Seq<char>|
                text == #[trigger] around(before, part, after);
            lemma_stands_between(before, part, after);
        }
    }
}

/// A text that holds a part holds what stands within the part.
proof fn lemma_holds_within(text: Seq<char>, left: Seq<char>, part: Seq<char>, right: Seq<char>)
    requires
        holds(text, left + part + right),
    ensures
        holds(text, part),
{
    let whole = left + part + right;
    let (before, after) = choose|before: Seq<char>, after: Seq<char>|
        text == #[trigger] around(before, whole, after);
    assert(text =~= around(before + left, part, right + after));
}

/// The search finds a pattern exactly in the texts that can be cut around it.
pub proof fn law_search_finds_what_is_there(chars: &Vec<char>, pattern: &str, found: bool)
    requires
        call_ensures(contains, (chars, pattern), found),
    ensures
        found <==> holds(chars@, pattern@),
{
    law_occurrence_is_a_cut(chars@);
}

/// Two strings are the same exactly where they agree in length and in every
/// character.
pub proof fn law_same_text_is_equality(a: &str, b: &str, same: bool)
    requires
        call_ensures(same_text, (a, b), same),
    ensures
        same <==> a@.len() == b@.len() && forall|i: int| 0 <= i < a@.len() ==> a@[i] == b@[i],
{
    if a@.len() == b@.len() && forall|i: int| 0 <= i < a@.len() ==> a@[i] == b@[i] {
        assert(a@ =~= b@);
    }
}

/// A toolchain has unstable features exactly where its version line says
/// `nightly` or `dev`.
pub proof fn law_nightly_says_so(version: Option<&str>, nightly: bool)
    requires
        call_ensures(is_nightly, (version,), nightly),
    ensures
        nightly <==> (version matches Some(line) && (holds(line@, "nightly"@) || holds(
            line@,
            "dev"@,
        ))),
{
    if let Some(line) = version {
        law_occurrence_is_a_cut(line@);
    }
}

/// The WGMMA detector fires exactly on the IR that holds one of these texts.
pub proof fn law_wgmma_texts(contents: Option<&str>, found: bool)
    requires
        call_ensures(contains_wgmma_features, (contents,), found),
    ensures
        contents is None ==> !found,
        contents matches Some(ir) ==> (found <==> {
            ||| holds(ir@, "wgmma.fence"@)
            ||| holds(ir@, "wgmma.commit_group"@)
            ||| holds(ir@, "wgmma.wait_group"@)
            ||| holds(ir@, "wgmma.mma_async"@)
        }),
{
    if let Some(ir) = contents {
        law_occurrence_is_a_cut(ir@);
    }
}

/// The cluster detector fires exactly on the IR that holds one of these texts.
pub proof fn law_cluster_texts(contents: Option<&str>, found: bool)
    requires
        call_ensures(contains_cluster_features, (contents,), found),
    ensures
        contents is None ==> !found,
        contents matches Some(ir) ==> (found <==> {
            ||| holds(ir@, "cluster_ctaid"@)
            ||| holds(ir@, "cluster_nctaid"@)
            ||| holds(ir@, "cluster.sync"@)
            ||| holds(ir@, "mapa.shared::cluster"@)
        }),
{
    if let Some(ir) = contents {
        law_occurrence_is_a_cut(ir@);
    }
}

/// The TMA detector fires exactly on the IR that holds one of these texts.
pub proof fn law_tma_texts(contents: Option<&str>, found: bool)
    requires
        call_ensures(contains_tma_features, (contents,), found),
    ensures
        contents is None ==> !found,
        contents matches Some(ir) ==> (found <==> {
            ||| holds(ir@, "cp.async.bulk."@)
            ||| holds(ir@, "mbarrier."@)
            ||| holds(ir@, "fence.proxy.async"@)
        }),
{
    if let Some(ir) = contents {
        law_occurrence_is_a_cut(ir@);
    }
}

/// The Blackwell detector fires exactly on the IR that holds one of these texts.
pub proof fn law_blackwell_texts(contents: Option<&str>, found: bool)
    requires
        call_ensures(contains_blackwell_features, (contents,), found),
    ensures
        contents is None ==> !found,
        contents matches Some(ir) ==> (found <==> {
            ||| holds(ir@, "tcgen05.alloc"@)
            ||| holds(ir@, "tcgen05.dealloc"@)
            ||| holds(ir@, "tcgen05.relinquish_alloc_permit"@)
            ||| holds(ir@, "tcgen05.fence"@)
            ||| holds(ir@, "tcgen05.commit"@)
            ||| holds(ir@, "tcgen05.mma"@)
            ||| holds(ir@, "tcgen05.cp"@)
        }),
{
    if let Some(ir) = contents {
        law_occurrence_is_a_cut(ir@);
    }
}

/// The Ampere detector fires exactly on the IR that holds the warp barrier, or
/// `cp.async` without `.bulk.` behind it.
pub proof fn law_ampere_texts(contents: Option<&str>, found: bool)
    requires
        call_ensures(contains_ampere_async_features, (contents,), found),
    ensures
        contents is None ==> !found,
        contents matches Some(ir) ==> (found <==> holds(ir@, "bar.warp.sync"@) || holds_plain_copy(
            ir@,
        )),
{
    if let Some(ir) = contents {
        law_occurrence_is_a_cut(ir@);
        lemma_plain_copy(ir@);
    }
}

/// `cp.async` at a position that no bulk copy has, and `cp.async` without
/// `.bulk.` behind it, are the same.
proof fn lemma_plain_copy(ir: Seq<char>)
    ensures
        text::occurs_except("cp.async"@, "cp.async.bulk."@, ir) <==> holds_plain_copy(ir),
{
    let copy = "cp.async"@;
    let bulk = "cp.async.bulk."@;
    let tail = ".bulk."@;
    reveal_strlit("cp.async");
    reveal_strlit("cp.async.bulk.");
    reveal_strlit(".bulk.");
    assert(bulk =~= copy + tail);
    if text::occurs_except(copy, bulk, ir) {
        let i = choose|i: int| text::occurs_at(copy, ir, i) && !text::occurs_at(bulk, ir, i);
        let after = ir.skip(i + copy.len());
        lemma_cut_at(ir, copy, i);
        if tail.is_prefix_of(after) {
            assert(ir.subrange(i, i + bulk.len()) =~= ir.subrange(i, i + copy.len())
                + after.subrange(0, tail.len() as int));
        }
    }
    if holds_plain_copy(ir) {
        let (before, after) = choose|before: Seq<char>, after: Seq<char>|
            ir == #[trigger] around(before, copy, after) && !tail.is_prefix_of(after);
        let at = before.len() as int;
        lemma_stands_between(before, copy, after);
        if text::occurs_at(bulk, ir, at) {
            assert(ir.subrange(at, at + bulk.len()).subrange(
                copy.len() as int,
                bulk.len() as int,
            ) =~= after.subrange(0, tail.len() as int));
            assert(bulk.subrange(copy.len() as int, bulk.len() as int) =~= tail);
        }
        assert(text::occurs_at(copy, ir, at) && !text::occurs_at(bulk, ir, at));
    }
}

/// The named-barrier detector fires exactly on the IR that holds a barrier
/// whose number is made of digits, not all of them zero.
pub proof fn law_named_barrier_texts(contents: Option<&str>, found: bool)
    requires
        call_ensures(contains_named_barrier_bar_sync, (contents,), found),
    ensures
        contents is None ==> !found,
        contents matches Some(ir) ==> (found <==> exists|index: Seq<char>|
            {
                &&& #[trigger] holds_barrier(ir@, index)
                &&& forall|i: int| 0 <= i < index.len() ==> '0' <= #[trigger] index[i] <= '9'
                &&& exists|i: int| 0 <= i < index.len() && '1' <= #[trigger] index[i] <= '9'
            }),
{
    if let Some(ir) = contents {
        law_occurrence_is_a_cut(ir@);
        if found {
            let index = choose|index: Seq<char>|
                target::is_named_barrier_index(index) && text::occurs(
                    #[trigger] target::named_barrier(index),
                    ir@,
                );
            let i = choose|i: int| 0 <= i < index.len() && #[trigger] index[i] != '0';
            assert('1' <= index[i] <= '9');
            assert(holds_barrier(ir@, index));
        }
        if exists|index: Seq<char>|
            {
                &&& #[trigger] holds_barrier(ir@, index)
                &&& forall|i: int| 0 <= i < index.len() ==> '0' <= #[trigger] index[i] <= '9'
                &&& exists|i: int| 0 <= i < index.len() && '1' <= #[trigger] index[i] <= '9'
            } {
            let index = choose|index: Seq<char>|
                {
                    &&& #[trigger] holds_barrier(ir@, index)
                    &&& forall|i: int| 0 <= i < index.len() ==> '0' <= #[trigger] index[i] <= '9'
                    &&& exists|i: int| 0 <= i < index.len() && '1' <= #[trigger] index[i] <= '9'
                };
            let i = choose|i: int| 0 <= i < index.len() && '1' <= #[trigger] index[i] <= '9';
            assert(index[i] != '0');
            assert(target::is_named_barrier_index(index));
            assert(text::occurs(target::named_barrier(index), ir@));
        }
    }
}

/// The collapse of the seven detectors' answers on one file: the first family
/// in the order below whose detector fires, and `Basic` where none does.
pub proof fn law_collapse_of_the_detectors(
    contents: Option<&str>,
    blackwell: bool,
    multicast: bool,
    wgmma: bool,
    tma: bool,
    cluster: bool,
    ampere: bool,
    barrier: bool,
    features: DetectedFeatures,
)
    requires
        call_ensures(contains_blackwell_features, (contents,), blackwell),
        call_ensures(contains_tma_multicast, (contents,), multicast),
        call_ensures(contains_wgmma_features, (contents,), wgmma),
        call_ensures(contains_tma_features, (contents,), tma),
        call_ensures(contains_cluster_features, (contents,), cluster),
        call_ensures(contains_ampere_async_features, (contents,), ampere),
        call_ensures(contains_named_barrier_bar_sync, (contents,), barrier),
        call_ensures(detect_features, (contents,), features),
    ensures
        features == DetectedFeatures::Blackwell <==> blackwell,
        features == DetectedFeatures::TmaMulticast <==> multicast && !blackwell,
        features == DetectedFeatures::Wgmma <==> wgmma && !multicast && !blackwell,
        features == DetectedFeatures::Tma <==> tma && !wgmma && !multicast && !blackwell,
        features == DetectedFeatures::Cluster <==> cluster && !tma && !wgmma && !multicast
            && !blackwell,
        features == DetectedFeatures::AmpereAsync <==> (ampere || barrier) && !cluster && !tma
            && !wgmma && !multicast && !blackwell,
        features == DetectedFeatures::Basic <==> !(ampere || barrier || cluster || tma || wgmma
            || multicast || blackwell),
{
}

/// IR that mentions none of these stems uses the baseline alone: it is detected
/// as basic, it gets the Turing target, and Turing, in either spelling, accepts
/// it. Thread and block indices, shuffles, block barriers and plain memory
/// accesses are such IR.
pub proof fn law_baseline_ir_runs_on_turing(
    ir: &str,
    features: DetectedFeatures,
    selected: &str,
    arch: &str,
    result: Result<(), String>,
)
    requires
        call_ensures(detect_features, (Some(ir),), features),
        call_ensures(select_target, (features,), selected),
        call_ensures(check_target_compat, (arch, features), result),
        !holds(ir@, "tcgen05."@),
        !holds(ir@, "g2s.tile"@),
        !holds(ir@, "wgmma."@),
        !holds(ir@, "cp.async"@),
        !holds(ir@, "mbarrier."@),
        !holds(ir@, "fence.proxy.async"@),
        !holds(ir@, "cluster"@),
        !holds(ir@, "bar.warp.sync"@),
        !holds(ir@, "%named-barrier-"@),
    ensures
        features == DetectedFeatures::Basic,
        selected@ == "sm_75"@,
        arch@ == "sm_75"@ || arch@ == "compute_75"@ ==> result is Ok,
{
    law_occurrence_is_a_cut(ir@);
    lemma_stems(ir@);
    if target::has_tma_multicast(ir@) {
        let at = choose|at: int| call_args::flagged_call_at(ir@, "g2s.tile"@, at);
        assert(text::occurs_at("g2s.tile"@, ir@, at));
    }
    if target::has_ampere_async(ir@) {
        lemma_plain_copy(ir@);
    }
    if target::has_named_barrier(ir@) {
        let index = choose|index: Seq<char>|
            target::is_named_barrier_index(index) && text::occurs(
                #[trigger] target::named_barrier(index),
                ir@,
            );
        reveal_strlit(", !\"%named-barrier-");
        reveal_strlit(", !\"");
        reveal_strlit("%named-barrier-");
        let left = "bar.sync "@ + index + ", !\""@;
        let right = index + "\""@;
        assert(target::named_barrier(index) =~= left + "%named-barrier-"@ + right);
        lemma_holds_within(ir@, left, "%named-barrier-"@, right);
    }
    if arch@ == "sm_75"@ || arch@ == "compute_75"@ {
        target_laws::law_turing_accepts_only_basic(features);
    }
}

/// A text that holds an instruction's name holds a stem of it.
proof fn lemma_stem(
    ir: Seq<char>,
    name: Seq<char>,
    left: Seq<char>,
    stem: Seq<char>,
    right: Seq<char>,
)
    requires
        name =~= left + stem + right,
    ensures
        holds(ir, name) ==> holds(ir, stem),
{
    if holds(ir, name) {
        lemma_holds_within(ir, left, stem, right);
    }
}

/// A text without the stem of some instructions' names holds none of them.
proof fn lemma_stems(ir: Seq<char>)
    ensures
        !holds(ir, "tcgen05."@) ==> !holds(ir, "tcgen05.alloc"@) && !holds(ir, "tcgen05.dealloc"@) && !holds(ir, "tcgen05.relinquish_alloc_permit"@) && !holds(ir, "tcgen05.fence"@) && !holds(ir, "tcgen05.commit"@) && !holds(ir, "tcgen05.mma"@) && !holds(ir, "tcgen05.cp"@),
        !holds(ir, "wgmma."@) ==> !holds(ir, "wgmma.fence"@) && !holds(ir, "wgmma.commit_group"@) && !holds(ir, "wgmma.wait_group"@) && !holds(ir, "wgmma.mma_async"@),
        !holds(ir, "cp.async"@) ==> !holds(ir, "cp.async.bulk."@),
        !holds(ir, "cluster"@) ==> !holds(ir, "cluster_ctaid"@) && !holds(ir, "cluster_nctaid"@) && !holds(ir, "cluster.sync"@) && !holds(ir, "mapa.shared::cluster"@),
{
    reveal_strlit("tcgen05.");
    reveal_strlit("tcgen05.alloc");
    reveal_strlit("alloc");
    lemma_stem(ir, "tcgen05.alloc"@, Seq::empty(), "tcgen05."@, "alloc"@);
    reveal_strlit("tcgen05.dealloc");
    reveal_strlit("dealloc");
    lemma_stem(ir, "tcgen05.dealloc"@, Seq::empty(), "tcgen05."@, "dealloc"@);
    reveal_strlit("tcgen05.relinquish_alloc_permit");
    reveal_strlit("relinquish_alloc_permit");
    lemma_stem(ir, "tcgen05.relinquish_alloc_permit"@, Seq::empty(), "tcgen05."@, "relinquish_alloc_permit"@);
    reveal_strlit("tcgen05.fence");
    reveal_strlit("fence");
    lemma_stem(ir, "tcgen05.fence"@, Seq::empty(), "tcgen05."@, "fence"@);
    reveal_strlit("tcgen05.commit");
    reveal_strlit("commit");
    lemma_stem(ir, "tcgen05.commit"@, Seq::empty(), "tcgen05."@, "commit"@);
    reveal_strlit("tcgen05.mma");
    reveal_strlit("mma");
    lemma_stem(ir, "tcgen05.mma"@, Seq::empty(), "tcgen05."@, "mma"@);
    reveal_strlit("tcgen05.cp");
    reveal_strlit("cp");
    lemma_stem(ir, "tcgen05.cp"@, Seq::empty(), "tcgen05."@, "cp"@);
    reveal_strlit("wgmma.");
    reveal_strlit("wgmma.fence");
    lemma_stem(ir, "wgmma.fence"@, Seq::empty(), "wgmma."@, "fence"@);
    reveal_strlit("wgmma.commit_group");
    reveal_strlit("commit_group");
    lemma_stem(ir, "wgmma.commit_group"@, Seq::empty(), "wgmma."@, "commit_group"@);
    reveal_strlit("wgmma.wait_group");
    reveal_strlit("wait_group");
    lemma_stem(ir, "wgmma.wait_group"@, Seq::empty(), "wgmma."@, "wait_group"@);
    reveal_strlit("wgmma.mma_async");
    reveal_strlit("mma_async");
    lemma_stem(ir, "wgmma.mma_async"@, Seq::empty(), "wgmma."@, "mma_async"@);
    reveal_strlit("cp.async");
    reveal_strlit("cp.async.bulk.");
    reveal_strlit(".bulk.");
    lemma_stem(ir, "cp.async.bulk."@, Seq::empty(), "cp.async"@, ".bulk."@);
    reveal_strlit("cluster");
    reveal_strlit("cluster_ctaid");
    reveal_strlit("_ctaid");
    lemma_stem(ir, "cluster_ctaid"@, Seq::empty(), "cluster"@, "_ctaid"@);
    reveal_strlit("cluster_nctaid");
    reveal_strlit("_nctaid");
    lemma_stem(ir, "cluster_nctaid"@, Seq::empty(), "cluster"@, "_nctaid"@);
    reveal_strlit("cluster.sync");
    reveal_strlit(".sync");
    lemma_stem(ir, "cluster.sync"@, Seq::empty(), "cluster"@, ".sync"@);
    reveal_strlit("mapa.shared::cluster");
    reveal_strlit("mapa.shared::");
    lemma_stem(ir, "mapa.shared::cluster"@, "mapa.shared::"@, "cluster"@, Seq::empty());
}

/// IR on which any of the detectors fires is refused on Turing, in either
/// spelling, and gets another target.
pub proof fn law_advanced_ir_is_refused_on_turing(
    contents: Option<&str>,
    fired: bool,
    features: DetectedFeatures,
    selected: &str,
    arch: &str,
    result: Result<(), String>,
)
    requires
        fired,
        call_ensures(contains_blackwell_features, (contents,), fired) || call_ensures(
            contains_tma_multicast,
            (contents,),
            fired,
        ) || call_ensures(contains_wgmma_features, (contents,), fired) || call_ensures(
            contains_tma_features,
            (contents,),
            fired,
        ) || call_ensures(contains_cluster_features, (contents,), fired) || call_ensures(
            contains_ampere_async_features,
            (contents,),
            fired,
        ) || call_ensures(contains_named_barrier_bar_sync, (contents,), fired),
        call_ensures(detect_features, (contents,), features),
        call_ensures(select_target, (features,), selected),
        call_ensures(check_target_compat, (arch, features), result),
        arch@ == "sm_75"@ || arch@ == "compute_75"@,
    ensures
        result is Err,
        selected@ != "sm_75"@,
{
    target_laws::law_turing_accepts_only_basic(features);
    reveal_strlit("sm_75");
    reveal_strlit("sm_80");
    reveal_strlit("sm_90");
    reveal_strlit("sm_100");
    reveal_strlit("sm_90a");
    reveal_strlit("sm_100a");
    assert("sm_75"@.len() == 5 && "sm_75"@[3] == '7');
    assert("sm_80"@[3] == '8' && "sm_90"@[3] == '9');
    assert("sm_100"@.len() == 6 && "sm_90a"@.len() == 6 && "sm_100a"@.len() == 7);
}

/// From a file to a target: what is selected for the features detected in it
/// passes the capability test with them.
pub proof fn law_detected_features_run_on_the_selected_target(
    contents: Option<&str>,
    features: DetectedFeatures,
    selected: &str,
    result: Result<(), String>,
)
    requires
        call_ensures(detect_features, (contents,), features),
        call_ensures(select_target, (features,), selected),
        call_ensures(check_target_compat, (selected, features), result),
    ensures
        result is Ok,
{
    target_laws::law_selected_target_is_accepted(features);
}

/// Each family has its own target: the oldest architecture that runs it, in the
/// form that newer ones run too where there is one.
pub proof fn law_target_of_each_family(features: DetectedFeatures, selected: &str)
    requires
        call_ensures(select_target, (features,), selected),
    ensures
        selected@ == "sm_100a"@ <==> features == DetectedFeatures::Blackwell || features == DetectedFeatures::TmaMulticast,
        selected@ == "sm_90a"@ <==> features == DetectedFeatures::Wgmma,
        selected@ == "sm_100"@ <==> features == DetectedFeatures::Tma,
        selected@ == "sm_90"@ <==> features == DetectedFeatures::Cluster,
        selected@ == "sm_80"@ <==> features == DetectedFeatures::AmpereAsync,
        selected@ == "sm_75"@ <==> features == DetectedFeatures::Basic,
{
    reveal_strlit("sm_75");
    reveal_strlit("sm_80");
    reveal_strlit("sm_90");
    reveal_strlit("sm_100");
    reveal_strlit("sm_90a");
    reveal_strlit("sm_100a");
    assert("sm_75"@.len() == 5 && "sm_75"@[3] == '7');
    assert("sm_80"@.len() == 5 && "sm_80"@[3] == '8');
    assert("sm_90"@.len() == 5 && "sm_90"@[3] == '9');
    assert("sm_100"@.len() == 6 && "sm_100"@[3] == '1');
    assert("sm_90a"@.len() == 6 && "sm_90a"@[3] == '9');
    assert("sm_100a"@.len() == 7);
}

} // verus!

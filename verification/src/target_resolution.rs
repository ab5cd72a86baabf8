//! GPU target resolution: feature detection in emitted LLVM IR, target
//! selection, and the capability test.
//!
//! Three questions are answered before code is generated:
//!
//! 1. What features does the IR use? The `contains_*` functions scan the
//!    textual IR for instruction families, and [`detect_features`] collapses
//!    the answers into one [`DetectedFeatures`].
//! 2. What `sm_XX` should be targeted? [`select_target`] maps the detected
//!    features to an architecture.
//! 3. Can the resolved target run those features? [`check_target_compat`]
//!    refuses a target that cannot.
//!
//! The scanning functions take what reading the IR file gave: `Some` with its
//! text, or `None` where the file could not be read. Nothing is detected in a
//! file that could not be read.

use crate::call_args;
use crate::call_args::contains_flagged_call;
use crate::text;
use crate::text::{chars_of, contains, contains_except, same_text, stands_at, stretch};
use vstd::prelude::*;

verus! {

/// GPU features detected in LLVM IR that determine target selection.
#[derive(Debug, Clone, Copy, PartialEq, Eq, Structural)]
pub enum DetectedFeatures {
    /// tcgen05/TMEM (Blackwell datacenter, sm_100a).
    Blackwell,
    /// TMA multicast (arch-specific extension, sm_100a).
    TmaMulticast,
    /// WGMMA (Hopper only, sm_90a; not forward-compatible).
    Wgmma,
    /// TMA/mbarrier (Hopper and later).
    Tma,
    /// Thread Block Clusters (sm_90 and later, forward-compatible).
    Cluster,
    /// Ampere async copy, warp barriers and named barriers (sm_80 and later).
    AmpereAsync,
    /// No special features (maximum compatibility, sm_75).
    Basic,
}

/// The IR uses a warpgroup matrix instruction.
pub open spec fn has_wgmma(text: Seq<char>) -> bool {
    ||| text::occurs("wgmma.fence"@, text)
    ||| text::occurs("wgmma.commit_group"@, text)
    ||| text::occurs("wgmma.wait_group"@, text)
    ||| text::occurs("wgmma.mma_async"@, text)
}

/// The IR uses a thread block cluster: its special registers, its barrier or
/// its distributed shared memory.
pub open spec fn has_cluster(text: Seq<char>) -> bool {
    ||| text::occurs("cluster_ctaid"@, text)
    ||| text::occurs("cluster_nctaid"@, text)
    ||| text::occurs("cluster.sync"@, text)
    ||| text::occurs("mapa.shared::cluster"@, text)
}

/// The IR uses a bulk copy in any form, an async hardware barrier, or the proxy
/// fence that goes with them.
pub open spec fn has_tma(text: Seq<char>) -> bool {
    ||| text::occurs("cp.async.bulk."@, text)
    ||| text::occurs("mbarrier."@, text)
    ||| text::occurs("fence.proxy.async"@, text)
}

/// The IR uses a fifth-generation tensor core instruction.
pub open spec fn has_blackwell(text: Seq<char>) -> bool {
    ||| text::occurs("tcgen05.alloc"@, text)
    ||| text::occurs("tcgen05.dealloc"@, text)
    ||| text::occurs("tcgen05.relinquish_alloc_permit"@, text)
    ||| text::occurs("tcgen05.fence"@, text)
    ||| text::occurs("tcgen05.commit"@, text)
    ||| text::occurs("tcgen05.mma"@, text)
    ||| text::occurs("tcgen05.cp"@, text)
}

/// The IR has a multicast tile copy: a call of a tile copy whose `use_cta_mask`
/// argument, the second-to-last of type `i1`, is set.
pub open spec fn has_tma_multicast(text: Seq<char>) -> bool {
    call_args::has_flagged_call(text, "g2s.tile"@)
}

/// The IR uses Ampere's async copy engine, that is `cp.async` in a form other
/// than the bulk ones, or the warp barrier. The pipeline control
/// `cp.async.commit_group` and `cp.async.wait_group` is such a form.
pub open spec fn has_ampere_async(text: Seq<char>) -> bool {
    ||| text::occurs_except("cp.async"@, "cp.async.bulk."@, text)
    ||| text::occurs("bar.warp.sync"@, text)
}

/// A barrier index other than zero, in decimal.
pub open spec fn is_named_barrier_index(index: Seq<char>) -> bool {
    &&& forall|i: int| 0 <= i < index.len() ==> '0' <= #[trigger] index[i] <= '9'
    &&& exists|i: int| 0 <= i < index.len() && #[trigger] index[i] != '0'
}

/// The named form of the block barrier for the given index.
pub open spec fn named_barrier(index: Seq<char>) -> Seq<char> {
    "bar.sync "@ + index + ", !\"%named-barrier-"@ + index + "\""@
}

/// The IR uses a named barrier, that is one with an index other than zero.
pub open spec fn has_named_barrier(text: Seq<char>) -> bool {
    exists|index: Seq<char>|
        is_named_barrier_index(index) && text::occurs(#[trigger] named_barrier(index), text)
}

/// The most specific family that the IR uses.
pub open spec fn features_of(text: Seq<char>) -> DetectedFeatures {
    if has_blackwell(text) {
        DetectedFeatures::Blackwell
    } else if has_tma_multicast(text) {
        DetectedFeatures::TmaMulticast
    } else if has_wgmma(text) {
        DetectedFeatures::Wgmma
    } else if has_tma(text) {
        DetectedFeatures::Tma
    } else if has_cluster(text) {
        DetectedFeatures::Cluster
    } else if has_ampere_async(text) || has_named_barrier(text) {
        DetectedFeatures::AmpereAsync
    } else {
        DetectedFeatures::Basic
    }
}

/// Checks for WGMMA instructions (Hopper sm_90a only, not forward-compatible).
pub fn contains_wgmma_features(contents: Option<&str>) -> (found: bool)
    ensures
        found == (contents matches Some(text) && has_wgmma(text@)),
{
    if let Some(ir) = contents {
        let text = chars_of(ir);
        contains(&text, "wgmma.fence") || contains(&text, "wgmma.commit_group") || contains(
            &text,
            "wgmma.wait_group",
        ) || contains(&text, "wgmma.mma_async")
    } else {
        false
    }
}

/// Checks for Thread Block Cluster instructions (sm_90 and later).
pub fn contains_cluster_features(contents: Option<&str>) -> (found: bool)
    ensures
        found == (contents matches Some(text) && has_cluster(text@)),
{
    if let Some(ir) = contents {
        let text = chars_of(ir);
        contains(&text, "cluster_ctaid") || contains(&text, "cluster_nctaid") || contains(
            &text,
            "cluster.sync",
        ) || contains(&text, "mapa.shared::cluster")
    } else {
        false
    }
}

/// Checks for TMA/mbarrier instructions (Hopper and Blackwell).
pub fn contains_tma_features(contents: Option<&str>) -> (found: bool)
    ensures
        found == (contents matches Some(text) && has_tma(text@)),
{
    if let Some(ir) = contents {
        let text = chars_of(ir);
        contains(&text, "cp.async.bulk.") || contains(&text, "mbarrier.") || contains(
            &text,
            "fence.proxy.async",
        )
    } else {
        false
    }
}

/// Checks for Blackwell tcgen05 instructions (sm_100a and later).
pub fn contains_blackwell_features(contents: Option<&str>) -> (found: bool)
    ensures
        found == (contents matches Some(text) && has_blackwell(text@)),
{
    if let Some(ir) = contents {
        let text = chars_of(ir);
        // TMEM allocation and deallocation
        contains(&text, "tcgen05.alloc") || contains(&text, "tcgen05.dealloc") || contains(
            &text,
            "tcgen05.relinquish_alloc_permit",
        )
        // Synchronization
         || contains(&text, "tcgen05.fence") || contains(&text, "tcgen05.commit")
        // Matrix instructions and data movement
         || contains(&text, "tcgen05.mma") || contains(&text, "tcgen05.cp")
    } else {
        false
    }
}

/// Checks for TMA multicast (sm_100a): a tile copy whose `use_cta_mask`
/// argument, the second-to-last `i1`, is set to true.
pub fn contains_tma_multicast(contents: Option<&str>) -> (found: bool)
    ensures
        found == (contents matches Some(text) && has_tma_multicast(text@)),
{
    if let Some(ir) = contents {
        let text = chars_of(ir);
        contains_flagged_call(&text, "g2s.tile")
    } else {
        false
    }
}

/// Checks for Ampere async-copy and warp barrier instructions (sm_80 and
/// later).
pub fn contains_ampere_async_features(contents: Option<&str>) -> (found: bool)
    ensures
        found == (contents matches Some(text) && has_ampere_async(text@)),
{
    if let Some(ir) = contents {
        let text = chars_of(ir);
        contains_except(&text, "cp.async", "cp.async.bulk.") || contains(&text, "bar.warp.sync")
    } else {
        false
    }
}

/// A named barrier stands in `text` at position `at`.
pub open spec fn named_barrier_at(text: Seq<char>, at: int) -> bool {
    exists|index: Seq<char>|
        is_named_barrier_index(index) && text::occurs_at(#[trigger] named_barrier(index), text, at)
}

/// The index of a named barrier is the whole run of digits behind `bar.sync `.
proof fn lemma_named_barrier_digits(text: Seq<char>, at: int, index: Seq<char>, to: int)
    requires
        is_named_barrier_index(index),
        text::occurs_at(named_barrier(index), text, at),
        at + "bar.sync "@.len() <= to <= text.len(),
        forall|i: int| at + "bar.sync "@.len() <= i < to ==> '0' <= #[trigger] text[i] <= '9',
        to < text.len() ==> !('0' <= text[to] <= '9'),
    ensures
        text.subrange(at + "bar.sync "@.len(), to) == index,
{
    let head = "bar.sync "@;
    let tail = ", !\"%named-barrier-"@;
    let form = named_barrier(index);
    let from = at + head.len();
    let end = from + index.len();
    reveal_strlit(", !\"%named-barrier-");
    assert forall|j: int| 0 <= j < form.len() implies text[at + j] == form[j] by {
        assert(text.subrange(at, at + form.len())[j] == form[j]);
    }
    assert(form[(head.len() + index.len()) as int] == tail[0]);
    assert(text[end] == ',');
    assert forall|j: int| 0 <= j < index.len() implies text[from + j] == index[j] by {
        assert(form[head.len() + j] == index[j]);
    }
    if to < end {
        assert(text[to] == index[to - from]);
    }
    if end < to {
        assert('0' <= text[end] <= '9');
    }
    assert(text.subrange(from, to) =~= index);
}

/// The text of the named barrier with the given index.
fn named_barrier_chars(index: &Vec<char>) -> (form: Vec<char>)
    ensures
        form@ == named_barrier(index@),
{
    let mut form = chars_of("bar.sync ");
    let mut index_copy = index.clone();
    let mut middle = chars_of(", !\"%named-barrier-");
    let mut index_again = index.clone();
    let mut quote = chars_of("\"");
    form.append(&mut index_copy);
    form.append(&mut middle);
    form.append(&mut index_again);
    form.append(&mut quote);
    form
}

/// Tells whether a named barrier stands in `text` at position `at`.
fn is_named_barrier_at(text: &Vec<char>, at: usize) -> (found: bool)
    ensures
        found == named_barrier_at(text@, at as int),
{
    let head = chars_of("bar.sync ");
    if !stands_at(&head, text, at) {
        assert forall|index: Seq<char>| is_named_barrier_index(index) implies !text::occurs_at(
            #[trigger] named_barrier(index),
            text@,
            at as int,
        ) by {
            let form = named_barrier(index);
            if text::occurs_at(form, text@, at as int) {
                assert(form.subrange(0, head@.len() as int) =~= head@);
                assert(text@.subrange(at as int, at + head@.len()) =~= text@.subrange(
                    at as int,
                    at + form.len(),
                ).subrange(0, head@.len() as int));
            }
        }
        return false;
    }
    assert(at + head.len() <= text.len());
    let from: usize = at + head.len();
    let mut to: usize = from;
    let mut nonzero: bool = false;
    while to < text.len() && '0' <= text[to] && text[to] <= '9'
        invariant
            from <= to <= text.len(),
            forall|i: int| from <= i < to ==> '0' <= #[trigger] text@[i] <= '9',
            nonzero == exists|i: int| from <= i < to && #[trigger] text@[i] != '0',
        decreases text.len() - to,
    {
        if text[to] != '0' {
            nonzero = true;
        }
        to += 1;
    }
    let index = stretch(text, from, to);
    let form = named_barrier_chars(&index);
    let found = nonzero && stands_at(&form, text, at);
    proof {
        if nonzero {
            let i = choose|i: int| from <= i < to && #[trigger] text@[i] != '0';
            assert(index@[i - from] != '0');
            assert(is_named_barrier_index(index@));
        }
        if named_barrier_at(text@, at as int) {
            let n = choose|n: Seq<char>|
                is_named_barrier_index(n) && text::occurs_at(
                    #[trigger] named_barrier(n),
                    text@,
                    at as int,
                );
            lemma_named_barrier_digits(text@, at as int, n, to as int);
            let j = choose|j: int| 0 <= j < n.len() && #[trigger] n[j] != '0';
            assert(text@[from + j] != '0');
        }
    }
    found
}

/// Checks for named barriers (sm_80 and later): `bar.sync` with a barrier
/// index other than zero. The block-wide `bar.sync 0` is not one.
pub fn contains_named_barrier_bar_sync(contents: Option<&str>) -> (found: bool)
    ensures
        found == (contents matches Some(text) && has_named_barrier(text@)),
{
    if let Some(ir) = contents {
        let text = chars_of(ir);
        let mut at: usize = 0;
        while at < text.len()
            invariant
                at <= text.len(),
                contents == Some(ir),
                text@ == ir@,
                forall|j: int| 0 <= j < at ==> !named_barrier_at(ir@, j),
            decreases text.len() - at,
        {
            if is_named_barrier_at(&text, at) {
                return true;
            }
            at += 1;
        }
        proof {
            assert forall|index: Seq<char>| is_named_barrier_index(index) implies !text::occurs(
                #[trigger] named_barrier(index),
                ir@,
            ) by {
                if text::occurs(named_barrier(index), ir@) {
                    let j = choose|j: int| text::occurs_at(named_barrier(index), ir@, j);
                    reveal_strlit("\"");
                    assert(named_barrier(index).len() > 0);
                    assert(named_barrier_at(ir@, j));
                }
            }
        }
        false
    } else {
        false
    }
}

/// Runs all detectors and collapses them into a single [`DetectedFeatures`].
/// Order matters: the most specific family comes first.
pub fn detect_features(contents: Option<&str>) -> (features: DetectedFeatures)
    ensures
        contents matches Some(text) ==> features == features_of(text@),
        contents is None ==> features == DetectedFeatures::Basic,
{
    if contains_blackwell_features(contents) {
        DetectedFeatures::Blackwell
    } else if contains_tma_multicast(contents) {
        DetectedFeatures::TmaMulticast
    } else if contains_wgmma_features(contents) {
        DetectedFeatures::Wgmma
    } else if contains_tma_features(contents) {
        DetectedFeatures::Tma
    } else if contains_cluster_features(contents) {
        DetectedFeatures::Cluster
    } else if contains_ampere_async_features(contents) || contains_named_barrier_bar_sync(
        contents,
    ) {
        DetectedFeatures::AmpereAsync
    } else {
        DetectedFeatures::Basic
    }
}

impl DetectedFeatures {
    /// The family's name, as messages give it.
    pub open spec fn spec_name(self) -> Seq<char> {
        match self {
            DetectedFeatures::Blackwell => "Blackwell"@,
            DetectedFeatures::TmaMulticast => "TmaMulticast"@,
            DetectedFeatures::Wgmma => "Wgmma"@,
            DetectedFeatures::Tma => "Tma"@,
            DetectedFeatures::Cluster => "Cluster"@,
            DetectedFeatures::AmpereAsync => "AmpereAsync"@,
            DetectedFeatures::Basic => "Basic"@,
        }
    }

    /// The family's name, the same that `Debug` prints.
    pub fn name(self) -> (name: &'static str)
        ensures
            name@ == self.spec_name(),
    {
        match self {
            DetectedFeatures::Blackwell => "Blackwell",
            DetectedFeatures::TmaMulticast => "TmaMulticast",
            DetectedFeatures::Wgmma => "Wgmma",
            DetectedFeatures::Tma => "Tma",
            DetectedFeatures::Cluster => "Cluster",
            DetectedFeatures::AmpereAsync => "AmpereAsync",
            DetectedFeatures::Basic => "Basic",
        }
    }

    /// Families that only the architecture-specific Blackwell target has.
    pub open spec fn is_blackwell_only(self) -> bool {
        self is Blackwell || self is TmaMulticast
    }
}

/// The target that the given features need.
pub open spec fn target_for(features: DetectedFeatures) -> Seq<char> {
    match features {
        DetectedFeatures::Blackwell => "sm_100a"@,
        DetectedFeatures::TmaMulticast => "sm_100a"@,
        DetectedFeatures::Wgmma => "sm_90a"@,
        DetectedFeatures::Tma => "sm_100"@,
        DetectedFeatures::Cluster => "sm_90"@,
        DetectedFeatures::AmpereAsync => "sm_80"@,
        DetectedFeatures::Basic => "sm_75"@,
    }
}

/// Maps detected features to GPU target architecture.
pub fn select_target(features: DetectedFeatures) -> (target: &'static str)
    ensures
        target@ == target_for(features),
{
    match features {
        DetectedFeatures::Blackwell => "sm_100a",
        DetectedFeatures::TmaMulticast => "sm_100a",
        DetectedFeatures::Wgmma => "sm_90a",
        // TMA needs PTX 8.0, which requires sm_90a or sm_100. sm_90a does not
        // run on Blackwell, so sm_100 is the default; Hopper users override it.
        DetectedFeatures::Tma => "sm_100",
        // Clusters are forward-compatible: sm_90 runs on Blackwell too.
        DetectedFeatures::Cluster => "sm_90",
        DetectedFeatures::AmpereAsync => "sm_80",
        DetectedFeatures::Basic => "sm_75",
    }
}

/// The target is the Turing baseline, as a real or a virtual architecture.
pub open spec fn is_sm75(target: Seq<char>) -> bool {
    target == "sm_75"@ || target == "compute_75"@
}

/// The target is the Turing baseline with a suffix that Turing does not have.
pub open spec fn is_sm75_typo(target: Seq<char>) -> bool {
    target == "sm_75a"@ || target == "compute_75a"@
}

/// The target is a forward-compatible Hopper or Blackwell target, without the
/// architecture-specific extensions of its `a` form.
pub open spec fn is_generic(target: Seq<char>) -> bool {
    target == "sm_90"@ || target == "sm_100"@
}

/// The target is a Blackwell one, in the generic or the architecture-specific
/// form.
pub open spec fn is_blackwell(target: Seq<char>) -> bool {
    target == "sm_100"@ || target == "sm_100a"@
}

/// The target cannot run the detected features.
pub open spec fn lacks_features(target: Seq<char>, detected: DetectedFeatures) -> bool {
    ||| is_sm75(target) && detected != DetectedFeatures::Basic
    ||| is_generic(target) && detected.is_blackwell_only()
    ||| is_blackwell(target) && detected == DetectedFeatures::Wgmma
}

/// The message for a target with a suffix that Turing does not have.
pub open spec fn typo_message(target: Seq<char>) -> Seq<char> {
    "Architecture "@ + target
        + " is not a valid target: Turing (sm_75) has no arch-specific extensions. Did you mean `sm_75`?"@
}

/// The message for a target that cannot run the detected features.
pub open spec fn unsupported_message(target: Seq<char>, detected: DetectedFeatures) -> Seq<char> {
    "Architecture "@ + target + " does not support detected advanced features: "@
        + detected.spec_name()
}

/// Returns true if the target architecture is the Turing baseline.
///
/// Both `sm_75` and `compute_75` qualify: the test fires whichever form the
/// user passed.
pub fn is_sm75_target(target: &str) -> (turing: bool)
    ensures
        turing == is_sm75(target@),
{
    same_text(target, "sm_75") || same_text(target, "compute_75")
}

/// Checks that the target architecture can run the features detected in the
/// IR.
///
/// On Turing only IR without advanced features is allowed. The families that
/// exist only on the architecture-specific Blackwell target are refused on the
/// generic `sm_90` and `sm_100`. WGMMA is Hopper's alone, and refused on
/// Blackwell. Turing has no arch-specific extensions, so `sm_75a` is refused as
/// a typo for `sm_75`.
pub fn check_target_compat(target: &str, detected: DetectedFeatures) -> (result: Result<(), String>)
    ensures
        is_sm75_typo(target@) ==> (result matches Err(message) && message@ == typo_message(
            target@,
        )),
        !is_sm75_typo(target@) && lacks_features(target@, detected) ==> (result matches Err(message)
            && message@ == unsupported_message(target@, detected)),
        !is_sm75_typo(target@) && !lacks_features(target@, detected) ==> result is Ok,
{
    if same_text(target, "sm_75a") || same_text(target, "compute_75a") {
        let mut message = String::new();
        message.append("Architecture ");
        message.append(target);
        message.append(
            " is not a valid target: Turing (sm_75) has no arch-specific extensions. Did you mean `sm_75`?",
        );
        assert(message@ =~= typo_message(target@));
        return Err(message);
    }
    let lacking = match detected {
        DetectedFeatures::Basic => false,
        DetectedFeatures::Blackwell | DetectedFeatures::TmaMulticast => is_sm75_target(target)
            || same_text(target, "sm_90") || same_text(target, "sm_100"),
        DetectedFeatures::Wgmma => is_sm75_target(target) || same_text(target, "sm_100")
            || same_text(target, "sm_100a"),
        DetectedFeatures::Tma | DetectedFeatures::Cluster | DetectedFeatures::AmpereAsync =>
        is_sm75_target(target),
    };
    if lacking {
        let mut message = String::new();
        message.append("Architecture ");
        message.append(target);
        message.append(" does not support detected advanced features: ");
        message.append(detected.name());
        assert(message@ =~= unsupported_message(target@, detected));
        return Err(message);
    }
    Ok(())
}

} // verus!

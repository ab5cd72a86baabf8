//! Laws of target resolution: how detection, selection and the capability test
//! fit together.

use crate::call_args;
use crate::target_resolution as target;
use crate::target_resolution::{check_target_compat, is_sm75_target, DetectedFeatures};
use crate::text;
use vstd::prelude::*;

verus! {

/// The capability test lets the pair of target and features through.
pub open spec fn accepts(arch: Seq<char>, detected: DetectedFeatures) -> bool {
    !target::is_sm75_typo(arch) && !target::lacks_features(arch, detected)
}

/// How specific a family is: the higher, the more specific.
pub open spec fn specificity(features: DetectedFeatures) -> nat {
    match features {
        DetectedFeatures::Blackwell => 6,
        DetectedFeatures::TmaMulticast => 5,
        DetectedFeatures::Wgmma => 4,
        DetectedFeatures::Tma => 3,
        DetectedFeatures::Cluster => 2,
        DetectedFeatures::AmpereAsync => 1,
        DetectedFeatures::Basic => 0,
    }
}

/// The more specific of two families.
pub open spec fn more_specific(a: DetectedFeatures, b: DetectedFeatures) -> DetectedFeatures {
    if specificity(a) >= specificity(b) {
        a
    } else {
        b
    }
}

/// The target that is selected for some features passes the capability
/// test with them.
pub proof fn law_selected_target_is_accepted(features: DetectedFeatures)
    ensures
        accepts(target::target_for(features), features),
{
    reveal_strlit("sm_75");
    reveal_strlit("sm_80");
    reveal_strlit("sm_90");
    reveal_strlit("sm_100");
    reveal_strlit("sm_90a");
    reveal_strlit("sm_75a");
    reveal_strlit("sm_100a");
    reveal_strlit("compute_75");
    reveal_strlit("compute_75a");
    let arch = target::target_for(features);
    assert(arch.len() <= 7);
    assert("sm_75"@[3] == '7');
    assert("sm_75a"@.len() == 6);
    assert("sm_90"@[3] == '9');
    assert("sm_100"@.len() == 6 && "sm_100"@[3] == '1');
    assert("sm_80"@[3] == '8');
    assert("sm_90a"@[3] == '9');
    assert("sm_75a"@[3] == '7');
}

/// On Turing, in either spelling, exactly the IR without advanced
/// features passes the capability test.
pub proof fn law_turing_accepts_only_basic(detected: DetectedFeatures)
    ensures
        accepts("sm_75"@, detected) <==> detected == DetectedFeatures::Basic,
        accepts("compute_75"@, detected) <==> detected == DetectedFeatures::Basic,
{
    reveal_strlit("sm_75");
    reveal_strlit("sm_75a");
    reveal_strlit("compute_75");
    reveal_strlit("compute_75a");
    reveal_strlit("sm_90");
    reveal_strlit("sm_100");
    assert("sm_75"@.len() == 5 && "sm_75a"@.len() == 6);
    assert("compute_75"@.len() == 10 && "compute_75a"@.len() == 11);
}

/// Turing with a suffix is never let through, whatever was detected.
pub proof fn law_turing_suffix_is_refused(detected: DetectedFeatures)
    ensures
        !accepts("sm_75a"@, detected),
        !accepts("compute_75a"@, detected),
{
}

/// IR without advanced features is accepted on every target but the two
/// misspelt ones.
pub proof fn law_basic_is_accepted_everywhere(arch: Seq<char>)
    ensures
        accepts(arch, DetectedFeatures::Basic) <==> !target::is_sm75_typo(arch),
{
}

/// Targets other than Turing, the generic ones and Blackwell pass, whatever was
/// detected.
pub proof fn law_other_targets_pass(arch: Seq<char>, detected: DetectedFeatures)
    requires
        !target::is_sm75(arch),
        !target::is_sm75_typo(arch),
        !target::is_generic(arch),
        !target::is_blackwell(arch),
    ensures
        accepts(arch, detected),
{
}

/// The generic Hopper and Blackwell targets refuse the families that need the
/// architecture-specific Blackwell target, the Blackwell targets refuse WGMMA,
/// and these three targets refuse nothing else.
pub proof fn law_hopper_and_blackwell_refusals(detected: DetectedFeatures)
    ensures
        accepts("sm_90"@, detected) <==> !detected.is_blackwell_only(),
        accepts("sm_100"@, detected) <==> !detected.is_blackwell_only() && detected
            != DetectedFeatures::Wgmma,
        accepts("sm_100a"@, detected) <==> detected != DetectedFeatures::Wgmma,
{
    reveal_strlit("sm_75");
    reveal_strlit("sm_75a");
    reveal_strlit("compute_75");
    reveal_strlit("compute_75a");
    reveal_strlit("sm_90");
    reveal_strlit("sm_100");
    reveal_strlit("sm_100a");
    assert("sm_90"@.len() == 5 && "sm_100"@.len() == 6 && "sm_100a"@.len() == 7);
    assert("sm_75"@[3] == '7' && "sm_90"@[3] == '9');
    assert("sm_75a"@[3] == '7' && "sm_100"@[3] == '1');
}

/// The message of a refusal names the target and the offending features.
pub proof fn law_message_names_target_and_features(arch: Seq<char>, detected: DetectedFeatures)
    ensures
        text::occurs(arch, target::unsupported_message(arch, detected)),
        text::occurs(detected.spec_name(), target::unsupported_message(arch, detected)),
{
    let head = "Architecture "@;
    let middle = " does not support detected advanced features: "@;
    let name = detected.spec_name();
    let message = target::unsupported_message(arch, detected);
    assert(message.subrange(head.len() as int, (head.len() + arch.len()) as int) =~= arch);
    assert(text::occurs_at(arch, message, head.len() as int));
    let at = (head.len() + arch.len() + middle.len()) as int;
    assert(message.subrange(at, at + name.len()) =~= name);
    assert(text::occurs_at(name, message, at));
}

/// The message for a misspelt Turing target names it and suggests `sm_75`.
pub proof fn law_typo_message_suggests_sm75(arch: Seq<char>)
    ensures
        text::occurs(arch, target::typo_message(arch)),
        text::occurs("Did you mean `sm_75`?"@, target::typo_message(arch)),
{
    let head = "Architecture "@;
    let tail =
        " is not a valid target: Turing (sm_75) has no arch-specific extensions. Did you mean `sm_75`?"@;
    let hint = "Did you mean `sm_75`?"@;
    let message = target::typo_message(arch);
    assert(message.subrange(head.len() as int, (head.len() + arch.len()) as int) =~= arch);
    assert(text::occurs_at(arch, message, head.len() as int));
    reveal_strlit("Did you mean `sm_75`?");
    reveal_strlit(
        " is not a valid target: Turing (sm_75) has no arch-specific extensions. Did you mean `sm_75`?",
    );
    let at = (head.len() + arch.len() + tail.len() - hint.len()) as int;
    assert(message.subrange(at, at + hint.len()) =~= hint);
    assert(text::occurs_at(hint, message, at));
}

/// Each family is detected exactly where its own detector fires and none of
/// the more specific ones does.
pub proof fn law_most_specific_family_wins(ir: Seq<char>)
    ensures
        ({
            let features = target::features_of(ir);
            let blackwell = target::has_blackwell(ir);
            let multicast = target::has_tma_multicast(ir);
            let wgmma = target::has_wgmma(ir);
            let tma = target::has_tma(ir);
            let cluster = target::has_cluster(ir);
            let ampere = target::has_ampere_async(ir) || target::has_named_barrier(ir);
            &&& features == DetectedFeatures::Blackwell <==> blackwell
            &&& features == DetectedFeatures::TmaMulticast <==> multicast && !blackwell
            &&& features == DetectedFeatures::Wgmma <==> wgmma && !(blackwell || multicast)
            &&& features == DetectedFeatures::Tma <==> tma && !(blackwell || multicast || wgmma)
            &&& features == DetectedFeatures::Cluster <==> cluster && !(blackwell || multicast
                || wgmma || tma)
            &&& features == DetectedFeatures::AmpereAsync <==> ampere && !(blackwell || multicast
                || wgmma || tma || cluster)
            &&& features == DetectedFeatures::Basic <==> !(blackwell || multicast || wgmma || tma
                || cluster || ampere)
        }),
{
}

/// IR that mentions `cp.async` in any form is never taken for basic IR, so it
/// never reaches Turing.
pub proof fn law_async_copy_is_never_basic(ir: Seq<char>)
    requires
        text::occurs("cp.async"@, ir),
    ensures
        target::features_of(ir) != DetectedFeatures::Basic,
        !accepts("sm_75"@, target::features_of(ir)),
        !accepts("compute_75"@, target::features_of(ir)),
{
    law_turing_accepts_only_basic(target::features_of(ir));
}

/// IR with a bulk copy in any form needs at least the TMA family; it is never
/// taken for Ampere's async copy alone.
pub proof fn law_bulk_copy_is_not_ampere(ir: Seq<char>)
    requires
        text::occurs("cp.async.bulk."@, ir),
    ensures
        specificity(target::features_of(ir)) >= specificity(DetectedFeatures::Tma),
{
}

/// The block-wide barrier stands in the IR at position `at`: `bar.sync` with
/// the index zero and no further digit.
pub open spec fn block_barrier_at(ir: Seq<char>, at: int) -> bool {
    &&& text::occurs_at("bar.sync 0"@, ir, at)
    &&& at + "bar.sync 0"@.len() < ir.len() ==> !('0' <= ir[at + "bar.sync 0"@.len()] <= '9')
}

/// The block-wide barrier is not a named one: IR in which every `bar.sync` has
/// the index zero holds no named barrier.
pub proof fn law_block_barrier_is_not_named(ir: Seq<char>)
    requires
        forall|at: int| #[trigger]
            text::occurs_at("bar.sync "@, ir, at) ==> block_barrier_at(ir, at),
    ensures
        !target::has_named_barrier(ir),
{
    let head = "bar.sync "@;
    let zero = "bar.sync 0"@;
    reveal_strlit("bar.sync ");
    reveal_strlit("bar.sync 0");
    reveal_strlit(", !\"%named-barrier-");
    assert forall|index: Seq<char>| target::is_named_barrier_index(index) implies !text::occurs(
        #[trigger] target::named_barrier(index),
        ir,
    ) by {
        let form = target::named_barrier(index);
        if text::occurs(form, ir) {
            let at = choose|at: int| text::occurs_at(form, ir, at);
            let found = ir.subrange(at, at + form.len());
            assert(form.subrange(0, head.len() as int) =~= head);
            assert(found.subrange(0, head.len() as int) =~= ir.subrange(at, at + head.len()));
            assert(text::occurs_at(head, ir, at));
            assert(block_barrier_at(ir, at));
            assert(ir.subrange(at, at + zero.len())[9] == '0');
            assert(found[9] == index[0] && found[9] == ir[at + 9]);
            let i = choose|i: int| 0 <= i < index.len() && #[trigger] index[i] != '0';
            assert(found[10] == index[1] && found[10] == ir[at + 10]);
        }
    }
}

/// Putting more IR around some IR never lowers what it needs: the detected
/// family only gets more specific.
pub proof fn law_more_ir_never_needs_less(before: Seq<char>, ir: Seq<char>, after: Seq<char>)
    ensures
        specificity(target::features_of(before + ir + after)) >= specificity(
            target::features_of(ir),
        ),
{
    let whole = before + ir + after;
    assert forall|pattern: Seq<char>| #[trigger] text::occurs(pattern, ir) implies text::occurs(
        pattern,
        whole,
    ) by {
        text::lemma_occurs_around(pattern, before, ir, after);
    }
    if target::has_tma_multicast(ir) {
        call_args::lemma_flagged_call_around(before, ir, after, "g2s.tile"@);
    }
    if text::occurs_except("cp.async"@, "cp.async.bulk."@, ir) {
        let i = choose|i: int|
            text::occurs_at("cp.async"@, ir, i) && !text::occurs_at("cp.async.bulk."@, ir, i);
        text::lemma_occurs_at_around("cp.async"@, before, ir, after, i);
        assert(text::occurs_at("cp.async"@, whole, before.len() + i));
    }
    if target::has_named_barrier(ir) {
        let index = choose|index: Seq<char>|
            target::is_named_barrier_index(index) && text::occurs(
                #[trigger] target::named_barrier(index),
                ir,
            );
        assert(text::occurs(target::named_barrier(index), whole));
    }
}

/// IR that Turing refuses is refused with more IR around it too.
pub proof fn law_turing_refusal_persists(before: Seq<char>, ir: Seq<char>, after: Seq<char>)
    requires
        !accepts("sm_75"@, target::features_of(ir)),
    ensures
        !accepts("sm_75"@, target::features_of(before + ir + after)),
{
    law_turing_accepts_only_basic(target::features_of(ir));
    law_turing_accepts_only_basic(target::features_of(before + ir + after));
    law_more_ir_never_needs_less(before, ir, after);
}

/// A text without a line feed that occurs in two texts joined by one occurs in
/// either of them.
proof fn lemma_in_joined(pattern: Seq<char>, a: Seq<char>, b: Seq<char>)
    requires
        pattern.len() > 0,
        forall|k: int| 0 <= k < pattern.len() ==> pattern[k] != '\n',
    ensures
        text::occurs(pattern, a + seq!['\n'] + b) ==> text::occurs(pattern, a) || text::occurs(
            pattern,
            b,
        ),
{
    if text::occurs(pattern, a + seq!['\n'] + b) {
        text::lemma_occurs_in_joined(pattern, a, b);
    }
}

/// What `has_wgmma` finds in joined texts, it finds in either of them.
proof fn lemma_wgmma_in_joined(a: Seq<char>, b: Seq<char>)
    ensures
        target::has_wgmma(a + seq!['\n'] + b) ==> target::has_wgmma(a) || target::has_wgmma(b),
{
    reveal_strlit("wgmma.fence");
    lemma_in_joined("wgmma.fence"@, a, b);
    reveal_strlit("wgmma.commit_group");
    lemma_in_joined("wgmma.commit_group"@, a, b);
    reveal_strlit("wgmma.wait_group");
    lemma_in_joined("wgmma.wait_group"@, a, b);
    reveal_strlit("wgmma.mma_async");
    lemma_in_joined("wgmma.mma_async"@, a, b);
}

/// What `has_cluster` finds in joined texts, it finds in either of them.
proof fn lemma_cluster_in_joined(a: Seq<char>, b: Seq<char>)
    ensures
        target::has_cluster(a + seq!['\n'] + b) ==> target::has_cluster(a) || target::has_cluster(b),
{
    reveal_strlit("cluster_ctaid");
    lemma_in_joined("cluster_ctaid"@, a, b);
    reveal_strlit("cluster_nctaid");
    lemma_in_joined("cluster_nctaid"@, a, b);
    reveal_strlit("cluster.sync");
    lemma_in_joined("cluster.sync"@, a, b);
    reveal_strlit("mapa.shared::cluster");
    lemma_in_joined("mapa.shared::cluster"@, a, b);
}

/// What `has_tma` finds in joined texts, it finds in either of them.
proof fn lemma_tma_in_joined(a: Seq<char>, b: Seq<char>)
    ensures
        target::has_tma(a + seq!['\n'] + b) ==> target::has_tma(a) || target::has_tma(b),
{
    reveal_strlit("cp.async.bulk.");
    lemma_in_joined("cp.async.bulk."@, a, b);
    reveal_strlit("mbarrier.");
    lemma_in_joined("mbarrier."@, a, b);
    reveal_strlit("fence.proxy.async");
    lemma_in_joined("fence.proxy.async"@, a, b);
}

/// What `has_blackwell` finds in joined texts, it finds in either of them.
proof fn lemma_blackwell_in_joined(a: Seq<char>, b: Seq<char>)
    ensures
        target::has_blackwell(a + seq!['\n'] + b) ==> target::has_blackwell(a) || target::has_blackwell(b),
{
    reveal_strlit("tcgen05.alloc");
    lemma_in_joined("tcgen05.alloc"@, a, b);
    reveal_strlit("tcgen05.dealloc");
    lemma_in_joined("tcgen05.dealloc"@, a, b);
    reveal_strlit("tcgen05.relinquish_alloc_permit");
    lemma_in_joined("tcgen05.relinquish_alloc_permit"@, a, b);
    reveal_strlit("tcgen05.fence");
    lemma_in_joined("tcgen05.fence"@, a, b);
    reveal_strlit("tcgen05.commit");
    lemma_in_joined("tcgen05.commit"@, a, b);
    reveal_strlit("tcgen05.mma");
    lemma_in_joined("tcgen05.mma"@, a, b);
    reveal_strlit("tcgen05.cp");
    lemma_in_joined("tcgen05.cp"@, a, b);
}

/// What `has_ampere_async` finds in joined texts, it finds in either of them.
proof fn lemma_ampere_async_in_joined(a: Seq<char>, b: Seq<char>)
    ensures
        target::has_ampere_async(a + seq!['\n'] + b) ==> target::has_ampere_async(a)
            || target::has_ampere_async(b),
{
    let joined = a + seq!['\n'] + b;
    let copy = "cp.async"@;
    let bulk = "cp.async.bulk."@;
    reveal_strlit("bar.warp.sync");
    lemma_in_joined("bar.warp.sync"@, a, b);
    reveal_strlit("cp.async");
    if text::occurs_except(copy, bulk, joined) {
        let i = choose|i: int|
            text::occurs_at(copy, joined, i) && !text::occurs_at(bulk, joined, i);
        text::lemma_occurs_at_in_joined(copy, a, b, i);
        if i + copy.len() <= a.len() {
            if text::occurs_at(bulk, a, i) {
                text::lemma_occurs_at_around(bulk, Seq::empty(), a, seq!['\n'] + b, i);
                assert(Seq::empty() + a + (seq!['\n'] + b) =~= joined);
            }
            assert(text::occurs_at(copy, a, i));
        } else {
            let j = i - a.len() - 1;
            if text::occurs_at(bulk, b, j) {
                text::lemma_occurs_at_around(bulk, a + seq!['\n'], b, Seq::empty(), j);
                assert((a + seq!['\n']) + b + Seq::empty() =~= joined);
            }
            assert(text::occurs_at(copy, b, j));
        }
    }
}

/// What `has_named_barrier` finds in joined texts, it finds in either of them.
proof fn lemma_named_barrier_in_joined(a: Seq<char>, b: Seq<char>)
    ensures
        target::has_named_barrier(a + seq!['\n'] + b) ==> target::has_named_barrier(a)
            || target::has_named_barrier(b),
{
    let joined = a + seq!['\n'] + b;
    if target::has_named_barrier(joined) {
        let index = choose|index: Seq<char>|
            target::is_named_barrier_index(index) && text::occurs(
                #[trigger] target::named_barrier(index),
                joined,
            );
        reveal_strlit("bar.sync ");
        reveal_strlit(", !\"%named-barrier-");
        reveal_strlit("\"");
        lemma_in_joined(target::named_barrier(index), a, b);
    }
}

/// Two pieces of IR, one behind the other on lines of their own, need the more
/// specific of the two families, in whichever order they stand. The only
/// exception is IR in which a multicast copy appears by the joining: the first
/// piece breaks off in the argument list of a tile copy, and the second one
/// goes on with it.
pub proof fn law_joined_ir_needs_no_more(a: Seq<char>, b: Seq<char>)
    requires
        target::features_of(a + seq!['\n'] + b) == DetectedFeatures::TmaMulticast
            ==> target::has_tma_multicast(a) || target::has_tma_multicast(b),
    ensures
        target::features_of(a + seq!['\n'] + b) == more_specific(
            target::features_of(a),
            target::features_of(b),
        ),
{
    let joined = a + seq!['\n'] + b;
    law_more_ir_never_needs_less(Seq::empty(), a, seq!['\n'] + b);
    assert(Seq::empty() + a + (seq!['\n'] + b) =~= joined);
    law_more_ir_never_needs_less(a + seq!['\n'], b, Seq::empty());
    assert((a + seq!['\n']) + b + Seq::empty() =~= joined);
    lemma_blackwell_in_joined(a, b);
    lemma_wgmma_in_joined(a, b);
    lemma_tma_in_joined(a, b);
    lemma_cluster_in_joined(a, b);
    lemma_ampere_async_in_joined(a, b);
    lemma_named_barrier_in_joined(a, b);
}

/// Where every tile copy in the first of two pieces of IR has a closed argument
/// list, the two together need the more specific of their families.
pub proof fn law_joining_whole_calls_needs_no_more(a: Seq<char>, b: Seq<char>)
    requires
        call_args::calls_are_closed(a, "g2s.tile"@),
    ensures
        target::features_of(a + seq!['\n'] + b) == more_specific(
            target::features_of(a),
            target::features_of(b),
        ),
{
    reveal_strlit("g2s.tile");
    if target::has_tma_multicast(a + seq!['\n'] + b) {
        call_args::lemma_flagged_call_in_joined(a, b, "g2s.tile"@);
    }
    law_joined_ir_needs_no_more(a, b);
}

/// The order of two families does not matter to which is the more specific.
pub proof fn law_more_specific_is_symmetric(a: DetectedFeatures, b: DetectedFeatures)
    ensures
        more_specific(a, b) == more_specific(b, a),
{
}

/// Turing has exactly two spellings.
pub proof fn law_turing_has_two_spellings(arch: &str, turing: bool)
    requires
        call_ensures(is_sm75_target, (arch,), turing),
    ensures
        turing <==> arch@ == "sm_75"@ || arch@ == "compute_75"@,
{
}

/// A target other than the seven with a rule of their own is accepted with
/// whatever was detected.
pub proof fn law_targets_without_a_rule_are_accepted(
    arch: &str,
    detected: DetectedFeatures,
    result: Result<(), String>,
)
    requires
        call_ensures(check_target_compat, (arch, detected), result),
        arch@ != "sm_75"@,
        arch@ != "compute_75"@,
        arch@ != "sm_75a"@,
        arch@ != "compute_75a"@,
        arch@ != "sm_90"@,
        arch@ != "sm_100"@,
        arch@ != "sm_100a"@,
    ensures
        result is Ok,
{
}

/// The seven targets with a rule: which families each of them accepts.
pub proof fn law_targets_with_a_rule(
    arch: &str,
    detected: DetectedFeatures,
    result: Result<(), String>,
)
    requires
        call_ensures(check_target_compat, (arch, detected), result),
    ensures
        arch@ == "sm_75a"@ || arch@ == "compute_75a"@ ==> result is Err,
        arch@ == "sm_75"@ || arch@ == "compute_75"@ ==> (result is Ok <==> detected
            == DetectedFeatures::Basic),
        arch@ == "sm_90"@ ==> (result is Err <==> detected == DetectedFeatures::Blackwell
            || detected == DetectedFeatures::TmaMulticast),
        arch@ == "sm_100"@ ==> (result is Err <==> detected == DetectedFeatures::Blackwell
            || detected == DetectedFeatures::TmaMulticast || detected == DetectedFeatures::Wgmma),
        arch@ == "sm_100a"@ ==> (result is Err <==> detected == DetectedFeatures::Wgmma),
{
    law_turing_accepts_only_basic(detected);
    law_turing_suffix_is_refused(detected);
    law_hopper_and_blackwell_refusals(detected);
}

/// A target that accepts some family accepts basic IR, and only Turing with a
/// suffix refuses basic IR.
pub proof fn law_basic_is_the_easiest(
    arch: &str,
    detected: DetectedFeatures,
    basic: Result<(), String>,
    result: Result<(), String>,
)
    requires
        call_ensures(check_target_compat, (arch, DetectedFeatures::Basic), basic),
        call_ensures(check_target_compat, (arch, detected), result),
    ensures
        result is Ok ==> basic is Ok,
        basic is Err <==> arch@ == "sm_75a"@ || arch@ == "compute_75a"@,
{
}

/// A refusal says what was asked for: Turing's suffix gets the hint, and every
/// other refused target is named together with the family.
pub proof fn law_refusals_say_why(
    arch: &str,
    detected: DetectedFeatures,
    family: &str,
    result: Result<(), String>,
)
    requires
        call_ensures(check_target_compat, (arch, detected), result),
        call_ensures(DetectedFeatures::name, (detected,), family),
    ensures
        result matches Err(message) ==> message@ == "Architecture "@ + arch@ + (if arch@
            == "sm_75a"@ || arch@ == "compute_75a"@ {
            " is not a valid target: Turing (sm_75) has no arch-specific extensions. Did you mean `sm_75`?"@
        } else {
            " does not support detected advanced features: "@ + family@
        }),
{
    if let Err(message) = result {
        assert("Architecture "@ + arch@ + " does not support detected advanced features: "@
            + family@ =~= "Architecture "@ + arch@ + (
        " does not support detected advanced features: "@ + family@));
    }
}

/// The families' names, which no two of them share.
pub proof fn law_family_names(
    a: DetectedFeatures,
    b: DetectedFeatures,
    a_name: &str,
    b_name: &str,
)
    requires
        call_ensures(DetectedFeatures::name, (a,), a_name),
        call_ensures(DetectedFeatures::name, (b,), b_name),
    ensures
        a_name@ == b_name@ <==> a == b,
        a == DetectedFeatures::Blackwell ==> a_name@ == "Blackwell"@,
        a == DetectedFeatures::TmaMulticast ==> a_name@ == "TmaMulticast"@,
        a == DetectedFeatures::Wgmma ==> a_name@ == "Wgmma"@,
        a == DetectedFeatures::Tma ==> a_name@ == "Tma"@,
        a == DetectedFeatures::Cluster ==> a_name@ == "Cluster"@,
        a == DetectedFeatures::AmpereAsync ==> a_name@ == "AmpereAsync"@,
        a == DetectedFeatures::Basic ==> a_name@ == "Basic"@,
{
    reveal_strlit("Blackwell");
    reveal_strlit("TmaMulticast");
    reveal_strlit("Wgmma");
    reveal_strlit("Tma");
    reveal_strlit("Cluster");
    reveal_strlit("AmpereAsync");
    reveal_strlit("Basic");
    assert("Blackwell"@.len() == 9 && "TmaMulticast"@.len() == 12 && "AmpereAsync"@.len() == 11);
    assert("Wgmma"@.len() == 5 && "Tma"@.len() == 3 && "Cluster"@.len() == 7);
    assert("Basic"@.len() == 5 && "Basic"@[0] == 'B' && "Wgmma"@[0] == 'W');
}

} // verus!

//! Laws of multicast detection: which calls of a tile copy are multicast ones.

use crate::call_args;
use crate::target_resolution::contains_tma_multicast;
use crate::text;
use vstd::prelude::*;

verus! {

/// Nothing but spaces, tabs and line ends.
pub open spec fn is_white(part: Seq<char>) -> bool {
    forall|i: int|
        0 <= i < part.len() ==> (#[trigger] part[i] == ' ' || part[i] == '\t' || part[i] == '\r'
            || part[i] == '\n')
}

/// The argument says `i1`, perhaps with more behind it after white space.
pub open spec fn says_i1(argument: Seq<char>) -> bool {
    exists|left: Seq<char>, rest: Seq<char>|
        {
            &&& argument == #[trigger] (left + "i1"@ + rest)
            &&& is_white(left)
            &&& rest.len() > 0 ==> is_white(rest.take(1))
        }
}

/// `left`, the type, `middle`, the value and `right`, one behind the other.
pub open spec fn typed_value(
    left: Seq<char>,
    middle: Seq<char>,
    value: Seq<char>,
    right: Seq<char>,
) -> Seq<char> {
    left + "i1"@ + middle + value + right
}

/// The argument says `i1` and, at its end, `1` or `true`. What stands between
/// the two starts and ends with white space.
pub open spec fn says_i1_true(argument: Seq<char>) -> bool {
    exists|left: Seq<char>, middle: Seq<char>, value: Seq<char>, right: Seq<char>|
        {
            &&& argument == #[trigger] typed_value(left, middle, value, right)
            &&& is_white(left)
            &&& is_white(right)
            &&& middle.len() > 0
            &&& is_white(seq![middle.first(), middle.last()])
            &&& value == "1"@ || value == "true"@
        }
}

/// How many more parentheses are opened than closed.
pub open spec fn depth_of(part: Seq<char>) -> int
    decreases part.len(),
{
    if part.len() == 0 {
        0
    } else if part.last() == '(' {
        depth_of(part.drop_last()) + 1
    } else if part.last() == ')' {
        depth_of(part.drop_last()) - 1
    } else {
        depth_of(part.drop_last())
    }
}

/// No parenthesis is closed before it is opened, and commas stand within
/// parentheses only.
pub open spec fn starts_an_argument(part: Seq<char>) -> bool {
    forall|k: int|
        0 <= k <= part.len() ==> {
            &&& #[trigger] depth_of(part.take(k)) >= 0
            &&& k < part.len() && part[k] == ',' ==> depth_of(part.take(k)) > 0
        }
}

/// The text can stand as one argument in a list.
pub open spec fn is_argument(part: Seq<char>) -> bool {
    starts_an_argument(part) && depth_of(part) == 0
}

/// The arguments with commas between them.
pub open spec fn joined(arguments: Seq<Seq<char>>) -> Seq<char>
    decreases arguments.len(),
{
    if arguments.len() == 0 {
        Seq::empty()
    } else if arguments.len() == 1 {
        arguments[0]
    } else {
        arguments[0] + seq![','] + joined(arguments.drop_first())
    }
}

/// A list that a call can have.
pub open spec fn is_list(arguments: Seq<Seq<char>>) -> bool {
    arguments.len() > 0 && forall|k: int|
        0 <= k < arguments.len() ==> is_argument(#[trigger] arguments[k])
}

/// `a` is followed by exactly one more `i1` argument, `b`, and says true.
pub open spec fn mask_is_set_at(arguments: Seq<Seq<char>>, a: int, b: int) -> bool {
    &&& 0 <= a < b < arguments.len()
    &&& says_i1_true(arguments[a])
    &&& forall|k: int|
        a < k < arguments.len() ==> (says_i1(#[trigger] arguments[k]) <==> k == b)
}

/// The last `i1` argument but one says true.
pub open spec fn mask_is_set(arguments: Seq<Seq<char>>) -> bool {
    exists|a: int, b: int| mask_is_set_at(arguments, a, b)
}

/// The rest of a function's name, and then perhaps blanks.
pub open spec fn ends_a_name(tail: Seq<char>, gap: Seq<char>) -> bool {
    &&& forall|i: int|
        0 <= i < tail.len() ==> {
            ||| 'a' <= #[trigger] tail[i] <= 'z'
            ||| 'A' <= tail[i] <= 'Z'
            ||| '0' <= tail[i] <= '9'
            ||| tail[i] == '.'
            ||| tail[i] == '_'
            ||| tail[i] == '-'
            ||| tail[i] == '$'
            ||| tail[i] == '"'
        }
    &&& forall|i: int| 0 <= i < gap.len() ==> (#[trigger] gap[i] == ' ' || gap[i] == '\t')
}

/// IR with a call of a tile copy: what stands before the name, the rest of the
/// name, blanks, the arguments, and what stands behind the call.
pub open spec fn tile_copy(
    before: Seq<char>,
    tail: Seq<char>,
    gap: Seq<char>,
    arguments: Seq<Seq<char>>,
    after: Seq<char>,
) -> Seq<char> {
    before + "g2s.tile"@ + tail + gap + seq!['('] + joined(arguments) + seq![')'] + after
}

/// Trimming takes the white space off both ends, and nothing else.
proof fn lemma_trimmed_core(left: Seq<char>, core: Seq<char>, right: Seq<char>)
    requires
        is_white(left),
        is_white(right),
        core.len() > 0,
        !call_args::is_space(core[0]),
        !call_args::is_space(core.last()),
    ensures
        call_args::trimmed(left + core + right) == core,
    decreases left.len() + right.len(),
{
    let whole = left + core + right;
    if left.len() > 0 {
        assert(whole[0] == left[0]);
        assert(whole.drop_first() =~= left.drop_first() + core + right);
        lemma_trimmed_core(left.drop_first(), core, right);
    } else if right.len() > 0 {
        assert(whole[0] == core[0]);
        assert(whole.last() == right.last());
        assert(whole.drop_last() =~= left + core + right.drop_last());
        lemma_trimmed_core(left, core, right.drop_last());
    } else {
        assert(whole =~= core);
    }
}

/// The white space that trimming takes off.
proof fn lemma_trimmed_ends(part: Seq<char>) -> (ends: (Seq<char>, Seq<char>))
    ensures
        is_white(ends.0),
        is_white(ends.1),
        part == ends.0 + call_args::trimmed(part) + ends.1,
        call_args::trimmed(part).len() > 0 ==> !call_args::is_space(call_args::trimmed(part)[0])
            && !call_args::is_space(call_args::trimmed(part).last()),
    decreases part.len(),
{
    if part.len() == 0 {
        let none = Seq::<char>::empty();
        assert(part =~= none + part + none);
        (none, none)
    } else if call_args::is_space(part[0]) {
        let ends = lemma_trimmed_ends(part.drop_first());
        let left = seq![part[0]] + ends.0;
        assert(part =~= seq![part[0]] + part.drop_first());
        assert(part =~= left + call_args::trimmed(part) + ends.1);
        assert(is_white(left));
        (left, ends.1)
    } else if call_args::is_space(part.last()) {
        let ends = lemma_trimmed_ends(part.drop_last());
        let right = ends.1.push(part.last());
        assert(part =~= part.drop_last().push(part.last()));
        assert(part =~= ends.0 + call_args::trimmed(part) + right);
        assert(is_white(right));
        (ends.0, right)
    } else {
        let none = Seq::<char>::empty();
        assert(part =~= none + part + none);
        (none, none)
    }
}

/// An argument has the type `i1` exactly where it says so at its start.
pub proof fn law_type_is_what_the_argument_says(argument: Seq<char>)
    ensures
        call_args::is_i1(argument) <==> says_i1(argument),
{
    reveal_strlit("i1");
    let i1 = "i1"@;
    let core = call_args::trimmed(argument);
    let ends = lemma_trimmed_ends(argument);
    let n = ends.0.len() as int;
    if call_args::is_i1(argument) {
        let rest = core.skip(2) + ends.1;
        assert(core =~= core.subrange(0, 2) + core.skip(2));
        assert(argument =~= ends.0 + i1 + rest);
        if rest.len() > 0 {
            if core.len() > 2 {
                assert(rest[0] == core[2]);
            } else {
                assert(rest[0] == ends.1[0]);
            }
        }
    }
    if says_i1(argument) {
        let (left, rest) = choose|left: Seq<char>, rest: Seq<char>|
            {
                &&& argument == #[trigger] (left + i1 + rest)
                &&& is_white(left)
                &&& rest.len() > 0 ==> is_white(rest.take(1))
            };
        let m = left.len() as int;
        assert(argument[m] == 'i' && argument[m + 1] == '1');
        if core.len() == 0 {
            assert(argument =~= ends.0 + ends.1);
            if m < n {
                assert(argument[m] == ends.0[m]);
            } else {
                assert(argument[m] == ends.1[m - n]);
            }
        }
        assert(argument[n] == core[0]);
        if n < m {
            assert(argument[n] == left[n]);
        }
        if m < n {
            assert(argument[m] == ends.0[m]);
        }
        if core.len() < 2 {
            assert(argument[m + 1] == ends.1[1 - core.len()]);
        }
        assert(core[0] == argument[m] && core[1] == argument[m + 1]);
        assert(core.subrange(0, 2) =~= i1);
        if core.len() > 2 {
            assert(core[2] == argument[m + 2]);
            assert(argument[m + 2] == rest[0]);
            assert(rest.take(1)[0] == rest[0]);
        }
    }
}

/// An `i1` argument is set exactly where it says `1` or `true` at its end.
pub proof fn law_value_is_what_the_argument_says(argument: Seq<char>)
    ensures
        call_args::is_set_i1(argument) <==> says_i1_true(argument),
{
    reveal_strlit("i1");
    reveal_strlit("1");
    reveal_strlit("true");
    let core = call_args::trimmed(argument);
    let ends = lemma_trimmed_ends(argument);
    if call_args::is_set_i1(argument) {
        let value = if call_args::has_value(argument, "1"@) {
            "1"@
        } else {
            "true"@
        };
        let at = core.len() - value.len();
        assert(core.subrange(0, 2)[0] == core[0] && core.subrange(0, 2)[1] == core[1]);
        assert(core[0] == 'i' && core[1] == '1');
        assert(at >= 3);
        let middle = core.subrange(2, at);
        assert(core =~= core.subrange(0, 2) + middle + core.subrange(at, at + value.len()));
        assert(argument =~= typed_value(ends.0, middle, value, ends.1));
        assert(middle.first() == core[2] && middle.last() == core[at - 1]);
        assert(is_white(seq![middle.first(), middle.last()]));
    }
    if says_i1_true(argument) {
        let (left, middle, value, right) = choose|
            left: Seq<char>,
            middle: Seq<char>,
            value: Seq<char>,
            right: Seq<char>,
        |
            {
                &&& argument == #[trigger] typed_value(left, middle, value, right)
                &&& is_white(left)
                &&& is_white(right)
                &&& middle.len() > 0
                &&& is_white(seq![middle.first(), middle.last()])
                &&& value == "1"@ || value == "true"@
            };
        let part = "i1"@ + middle + value;
        assert(argument =~= left + part + right);
        assert(part[0] == 'i');
        assert(part.last() == value.last());
        lemma_trimmed_core(left, part, right);
        let ws = seq![middle.first(), middle.last()];
        assert(ws[0] == middle.first() && ws[1] == middle.last());
        assert(part.subrange(0, 2) =~= "i1"@);
        assert(part[2] == middle[0]);
        let at = part.len() - value.len();
        assert(part.subrange(at, at + value.len()) =~= value);
        assert(part[at - 1] == middle.last());
        assert(call_args::has_value(argument, value));
    }
}

/// Reading an argument to its end.
proof fn lemma_argument_is_read(part: Seq<char>, k: int, tail: Seq<char>)
    requires
        is_argument(part),
        0 <= k <= part.len(),
    ensures
        depth_of(part.take(k)) >= 0,
        call_args::arguments_from(
            part.skip(k) + tail,
            part.take(k),
            depth_of(part.take(k)) as nat,
        ) == call_args::arguments_from(tail, part, 0),
    decreases part.len() - k,
{
    let rest = part.skip(k) + tail;
    let depth = depth_of(part.take(k));
    if k == part.len() {
        assert(rest =~= tail);
        assert(part.take(k) =~= part);
    } else {
        assert(rest[0] == part[k]);
        assert(part.take(k + 1).drop_last() =~= part.take(k));
        assert(part.take(k + 1).last() == part[k]);
        assert(depth_of(part.take(k + 1)) >= 0);
        assert(rest.drop_first() =~= part.skip(k + 1) + tail);
        assert(part.take(k).push(part[k]) =~= part.take(k + 1));
        lemma_argument_is_read(part, k + 1, tail);
    }
}

/// A list between its parentheses is read as the arguments that were put in it.
pub proof fn law_arguments_are_those_listed(arguments: Seq<Seq<char>>, after: Seq<char>)
    requires
        is_list(arguments),
    ensures
        call_args::arguments_from(joined(arguments) + seq![')'] + after, Seq::empty(), 0) == Some(
            arguments,
        ),
    decreases arguments.len(),
{
    let first = arguments[0];
    let none = Seq::<char>::empty();
    let text = joined(arguments) + seq![')'] + after;
    assert(is_argument(first));
    assert(first.skip(0) =~= first);
    assert(first.take(0) =~= none);
    if arguments.len() == 1 {
        let tail = seq![')'] + after;
        assert(text =~= first + tail);
        lemma_argument_is_read(first, 0, tail);
        assert(tail[0] == ')');
        assert(arguments =~= seq![first]);
    } else {
        let others = arguments.drop_first();
        assert forall|k: int| 0 <= k < others.len() implies is_argument(#[trigger] others[k]) by {
            assert(others[k] == arguments[k + 1]);
        }
        law_arguments_are_those_listed(others, after);
        let behind = joined(others) + seq![')'] + after;
        let tail = seq![','] + behind;
        assert(text =~= first + tail);
        lemma_argument_is_read(first, 0, tail);
        assert(tail[0] == ',');
        assert(tail.drop_first() =~= behind);
        assert(seq![first] + others =~= arguments);
    }
}

/// What is read as a list of arguments is that list, and a closing parenthesis
/// stands behind it.
proof fn lemma_read_arguments_are_listed(rest: Seq<char>, first: Seq<char>, depth: nat) -> (after:
    Seq<char>)
    requires
        call_args::arguments_from(rest, first, depth) is Some,
        starts_an_argument(first),
        depth_of(first) == depth,
    ensures
        is_list(call_args::arguments_from(rest, first, depth)->0),
        first + rest == joined(call_args::arguments_from(rest, first, depth)->0) + seq![')']
            + after,
    decreases rest.len(),
{
    let list = call_args::arguments_from(rest, first, depth)->0;
    if rest[0] == ')' && depth == 0 {
        let after = rest.drop_first();
        assert(list =~= seq![first]);
        assert(first + rest =~= joined(list) + seq![')'] + after);
        after
    } else if rest[0] == ',' && depth == 0 {
        let none = Seq::<char>::empty();
        assert(none.take(0) =~= none);
        let after = lemma_read_arguments_are_listed(rest.drop_first(), none, 0);
        let others = call_args::arguments_from(rest.drop_first(), none, 0)->0;
        assert(list =~= seq![first] + others);
        assert(list.drop_first() =~= others);
        assert(none + rest.drop_first() =~= rest.drop_first());
        assert(first + rest =~= first + seq![','] + rest.drop_first());
        assert(joined(list) == first + seq![','] + joined(others));
        assert(first + rest =~= joined(list) + seq![')'] + after);
        assert forall|k: int| 0 <= k < list.len() implies is_argument(#[trigger] list[k]) by {
            if k > 0 {
                assert(list[k] == others[k - 1]);
            }
        }
        after
    } else {
        let longer = first.push(rest[0]);
        let inner: nat = if rest[0] == '(' {
            depth + 1
        } else if rest[0] == ')' {
            (depth - 1) as nat
        } else {
            depth
        };
        assert(longer.drop_last() =~= first);
        assert forall|k: int| 0 <= k <= longer.len() implies {
            &&& #[trigger] depth_of(longer.take(k)) >= 0
            &&& k < longer.len() && longer[k] == ',' ==> depth_of(longer.take(k)) > 0
        } by {
            if k <= first.len() {
                assert(longer.take(k) =~= first.take(k));
                assert(depth_of(first.take(k)) >= 0);
                if k == first.len() {
                    assert(first.take(k) =~= first);
                }
            } else {
                assert(longer.take(k) =~= longer);
            }
        }
        let after = lemma_read_arguments_are_listed(rest.drop_first(), longer, inner);
        assert(longer + rest.drop_first() =~= first + rest);
        after
    }
}

/// The mask of a list is the second-to-last of its `i1` arguments.
pub proof fn law_mask_is_the_second_to_last_i1(arguments: Seq<Seq<char>>)
    ensures
        call_args::second_to_last_i1_is_set(arguments) <==> mask_is_set(arguments),
{
    assert forall|part: Seq<char>|
        #![trigger call_args::is_i1(part)]
        #![trigger says_i1(part)]
        call_args::is_i1(part) <==> says_i1(part) by {
        law_type_is_what_the_argument_says(part);
    }
    assert forall|part: Seq<char>|
        #![trigger call_args::is_set_i1(part)]
        #![trigger says_i1_true(part)]
        call_args::is_set_i1(part) <==> says_i1_true(part) by {
        law_value_is_what_the_argument_says(part);
    }
    if call_args::second_to_last_i1_is_set(arguments) {
        let (a, b) = choose|a: int, b: int| #[trigger]
            call_args::second_to_last_i1_at(arguments, a, b) && call_args::is_set_i1(arguments[a]);
        assert(mask_is_set_at(arguments, a, b));
    }
    if mask_is_set(arguments) {
        let (a, b) = choose|a: int, b: int| mask_is_set_at(arguments, a, b);
        assert(call_args::is_set_i1(arguments[a]));
        assert(says_i1(arguments[b]));
        assert(call_args::second_to_last_i1_at(arguments, a, b));
    }
}

/// Where the parts of a call stand.
proof fn lemma_call_is_there(
    before: Seq<char>,
    tail: Seq<char>,
    gap: Seq<char>,
    arguments: Seq<Seq<char>>,
    after: Seq<char>,
)
    requires
        ends_a_name(tail, gap),
        is_list(arguments),
    ensures
        ({
            let ir = tile_copy(before, tail, gap, arguments, after);
            let from = (before.len() + "g2s.tile"@.len()) as int;
            let open = (from + tail.len() + gap.len()) as int;
            &&& text::occurs_at("g2s.tile"@, ir, before.len() as int)
            &&& call_args::name_ends_at(ir, from, from + tail.len(), open)
            &&& call_args::arguments_at(ir, open) == Some(arguments)
        }),
{
    let name = "g2s.tile"@;
    let ir = tile_copy(before, tail, gap, arguments, after);
    let at = before.len() as int;
    let from = at + name.len();
    let end = from + tail.len();
    let open = end + gap.len();
    assert(ir.subrange(at, from) =~= name);
    assert(ir.subrange(from, end) =~= tail);
    assert(ir.subrange(end, open) =~= gap);
    assert forall|k: int| from <= k < end implies call_args::is_name_char(#[trigger] ir[k]) by {
        assert(ir[k] == tail[k - from]);
    }
    assert forall|k: int| end <= k < open implies call_args::is_blank(#[trigger] ir[k]) by {
        assert(ir[k] == gap[k - end]);
    }
    assert(ir[open] == '(');
    assert(ir.skip(open + 1) =~= joined(arguments) + seq![')'] + after);
    law_arguments_are_those_listed(arguments, after);
}

/// A call of a tile copy whose mask is set is a multicast one, whatever other
/// arguments it has and whatever stands around it.
pub proof fn law_set_mask_is_multicast(
    before: Seq<char>,
    tail: Seq<char>,
    gap: Seq<char>,
    arguments: Seq<Seq<char>>,
    after: Seq<char>,
    ir: &str,
    found: bool,
)
    requires
        call_ensures(contains_tma_multicast, (Some(ir),), found),
        ir@ == tile_copy(before, tail, gap, arguments, after),
        ends_a_name(tail, gap),
        is_list(arguments),
        mask_is_set(arguments),
    ensures
        found,
{
    let name = "g2s.tile"@;
    let at = before.len() as int;
    let from = at + name.len();
    let open = (from + tail.len() + gap.len()) as int;
    lemma_call_is_there(before, tail, gap, arguments, after);
    law_mask_is_the_second_to_last_i1(arguments);
    assert(call_args::opens_call(ir@, at + name.len(), open));
    assert(call_args::flagged_call_at(ir@, name, at));
}

/// IR is found to have a multicast copy exactly where it can be cut into the
/// parts of a call of a tile copy whose mask is set.
pub proof fn law_multicast_ir_has_a_set_mask(contents: Option<&str>, found: bool)
    requires
        call_ensures(contains_tma_multicast, (contents,), found),
    ensures
        contents is None ==> !found,
        contents matches Some(ir) ==> (found <==> exists|
            before: Seq<char>,
            tail: Seq<char>,
            gap: Seq<char>,
            arguments: Seq<Seq<char>>,
            after: Seq<char>,
        |
            {
                &&& ir@ == #[trigger] tile_copy(before, tail, gap, arguments, after)
                &&& ends_a_name(tail, gap)
                &&& is_list(arguments)
                &&& mask_is_set(arguments)
            }),
{
    if let Some(ir) = contents {
        if found {
            lemma_call_can_be_cut_out(ir@);
        }
        if exists|
            before: Seq<char>,
            tail: Seq<char>,
            gap: Seq<char>,
            arguments: Seq<Seq<char>>,
            after: Seq<char>,
        |
            {
                &&& ir@ == #[trigger] tile_copy(before, tail, gap, arguments, after)
                &&& ends_a_name(tail, gap)
                &&& is_list(arguments)
                &&& mask_is_set(arguments)
            } {
            let (before, tail, gap, arguments, after) = choose|
                before: Seq<char>,
                tail: Seq<char>,
                gap: Seq<char>,
                arguments: Seq<Seq<char>>,
                after: Seq<char>,
            |
                {
                    &&& ir@ == #[trigger] tile_copy(before, tail, gap, arguments, after)
                    &&& ends_a_name(tail, gap)
                    &&& is_list(arguments)
                    &&& mask_is_set(arguments)
                };
            law_set_mask_is_multicast(before, tail, gap, arguments, after, ir, found);
        }
    }
}

/// The parts of a multicast copy.
proof fn lemma_call_can_be_cut_out(ir: Seq<char>)
    requires
        call_args::has_flagged_call(ir, "g2s.tile"@),
    ensures
        exists|
            before: Seq<char>,
            tail: Seq<char>,
            gap: Seq<char>,
            arguments: Seq<Seq<char>>,
            after: Seq<char>,
        |
            {
                &&& ir == #[trigger] tile_copy(before, tail, gap, arguments, after)
                &&& ends_a_name(tail, gap)
                &&& is_list(arguments)
                &&& mask_is_set(arguments)
            },
{
    let name = "g2s.tile"@;
    let at = choose|at: int| call_args::flagged_call_at(ir, name, at);
    let from = at + name.len();
    let open = choose|open: int| #[trigger]
        call_args::opens_call(ir, from, open) && (call_args::arguments_at(ir, open) matches Some(
            arguments,
        ) && call_args::second_to_last_i1_is_set(arguments));
    let end = choose|end: int| call_args::name_ends_at(ir, from, end, open);
    let arguments = call_args::arguments_at(ir, open)->0;
    let none = Seq::<char>::empty();
    assert(none.take(0) =~= none);
    let after = lemma_read_arguments_are_listed(ir.skip(open + 1), none, 0);
    assert(none + ir.skip(open + 1) =~= ir.skip(open + 1));
    let before = ir.take(at);
    let tail = ir.subrange(from, end);
    let gap = ir.subrange(end, open);
    assert(ir =~= before + ir.subrange(at, from) + tail + gap + seq!['('] + ir.skip(open + 1));
    assert(ir =~= tile_copy(before, tail, gap, arguments, after));
    assert forall|i: int| 0 <= i < tail.len() implies call_args::is_name_char(#[trigger] tail[i])
        by {
        assert(tail[i] == ir[from + i]);
    }
    assert forall|i: int| 0 <= i < gap.len() implies call_args::is_blank(#[trigger] gap[i]) by {
        assert(gap[i] == ir[end + i]);
    }
    law_mask_is_the_second_to_last_i1(arguments);
}

/// Where IR names a tile copy once, in a call, the mask of that call decides.
pub proof fn law_only_the_mask_decides(
    before: Seq<char>,
    tail: Seq<char>,
    gap: Seq<char>,
    arguments: Seq<Seq<char>>,
    after: Seq<char>,
    ir: &str,
    found: bool,
)
    requires
        call_ensures(contains_tma_multicast, (Some(ir),), found),
        ir@ == tile_copy(before, tail, gap, arguments, after),
        ends_a_name(tail, gap),
        is_list(arguments),
        names_tile_copy_once(ir@, before.len() as int),
    ensures
        found <==> mask_is_set(arguments),
{
    let name = "g2s.tile"@;
    let at = before.len() as int;
    let from = at + name.len();
    let end = from + tail.len();
    let open = (end + gap.len()) as int;
    if mask_is_set(arguments) {
        law_set_mask_is_multicast(before, tail, gap, arguments, after, ir, found);
    }
    if found {
        lemma_call_is_there(before, tail, gap, arguments, after);
        let x = choose|x: int| call_args::flagged_call_at(ir@, name, x);
        assert(x == at);
        let o = choose|o: int| #[trigger]
            call_args::opens_call(ir@, from, o) && (call_args::arguments_at(ir@, o) matches Some(
                list,
            ) && call_args::second_to_last_i1_is_set(list));
        let e = choose|e: int| call_args::name_ends_at(ir@, from, e, o);
        lemma_parenthesis_is_unique(ir@, from, end, open, e, o);
        law_mask_is_the_second_to_last_i1(arguments);
    }
}

/// The name of the tile copy stands at `at` alone.
pub open spec fn names_tile_copy_once(ir: Seq<char>, at: int) -> bool {
    forall|i: int|
        0 <= i && i + "g2s.tile"@.len() <= ir.len() && #[trigger] ir.subrange(
            i,
            i + "g2s.tile"@.len(),
        ) == "g2s.tile"@ ==> i == at
}

/// A name is followed by one parenthesis.
proof fn lemma_parenthesis_is_unique(
    text: Seq<char>,
    from: int,
    end: int,
    open: int,
    other_end: int,
    other_open: int,
)
    requires
        call_args::name_ends_at(text, from, end, open),
        call_args::name_ends_at(text, from, other_end, other_open),
    ensures
        open == other_open,
{
    if end < other_end {
        assert(call_args::is_name_char(text[end]));
        if end < open {
            assert(call_args::is_blank(text[end]));
        }
    }
    if other_end < end {
        assert(call_args::is_name_char(text[other_end]));
        if other_end < other_open {
            assert(call_args::is_blank(text[other_end]));
        }
    }
    if open < other_open {
        assert(call_args::is_blank(text[open]));
    }
    if other_open < open {
        assert(call_args::is_blank(text[other_open]));
    }
}

/// An argument of another type changes nothing, wherever it is put into the
/// list of a call.
pub proof fn law_other_arguments_do_not_matter(
    before: Seq<char>,
    tail: Seq<char>,
    gap: Seq<char>,
    front: Seq<Seq<char>>,
    other: Seq<char>,
    back: Seq<Seq<char>>,
    after: Seq<char>,
    ir: &str,
    longer: &str,
    found: bool,
    found_in_longer: bool,
)
    requires
        call_ensures(contains_tma_multicast, (Some(ir),), found),
        call_ensures(contains_tma_multicast, (Some(longer),), found_in_longer),
        ir@ == tile_copy(before, tail, gap, front + back, after),
        longer@ == tile_copy(before, tail, gap, front + seq![other] + back, after),
        ends_a_name(tail, gap),
        is_list(front + back),
        is_argument(other),
        !says_i1(other),
        names_tile_copy_once(ir@, before.len() as int),
        names_tile_copy_once(longer@, before.len() as int),
    ensures
        found == found_in_longer,
{
    let short = front + back;
    let long = front + seq![other] + back;
    assert forall|k: int| 0 <= k < long.len() implies is_argument(#[trigger] long[k]) by {
        if k < front.len() {
            assert(long[k] == short[k]);
        } else if k > front.len() {
            assert(long[k] == short[k - 1]);
        }
    }
    law_only_the_mask_decides(before, tail, gap, short, after, ir, found);
    law_only_the_mask_decides(before, tail, gap, long, after, longer, found_in_longer);
    law_mask_ignores_other_arguments(front, other, back);
}

/// The mask of a list stays as it is when an argument of another type is put
/// into the list.
pub proof fn law_mask_ignores_other_arguments(
    front: Seq<Seq<char>>,
    other: Seq<char>,
    back: Seq<Seq<char>>,
)
    requires
        !says_i1(other),
    ensures
        mask_is_set(front + seq![other] + back) <==> mask_is_set(front + back),
{
    let n = front.len() as int;
    let short = front + back;
    let long = front + seq![other] + back;
    law_value_is_what_the_argument_says(other);
    law_type_is_what_the_argument_says(other);
    assert(long[n] == other);
    assert(forall|k: int| 0 <= k < n ==> #[trigger] long[k] == short[k]);
    assert(forall|k: int| n < k < long.len() ==> #[trigger] long[k] == short[k - 1]);
    assert(forall|k: int| n <= k < short.len() ==> #[trigger] short[k] == long[k + 1]);
    if mask_is_set(short) {
        let (a, b) = choose|a: int, b: int| mask_is_set_at(short, a, b);
        let x = if a < n { a } else { a + 1 };
        let y = if b < n { b } else { b + 1 };
        assert(mask_is_set_at(long, x, y));
    }
    if mask_is_set(long) {
        let (x, y) = choose|x: int, y: int| mask_is_set_at(long, x, y);
        assert(says_i1(long[y]));
        assert(says_i1_true(long[x]));
        let a = if x < n { x } else { x - 1 };
        let b = if y < n { y } else { y - 1 };
        assert(x != n && y != n);
        assert forall|k: int| a < k < short.len() implies (says_i1(#[trigger] short[k]) <==> k == b)
            by {
            if k < n {
                assert(long[k] == short[k]);
            } else {
                assert(long[k + 1] == short[k]);
            }
        }
        assert(mask_is_set_at(short, a, b));
    }
}

/// Neither white space nor what separates arguments.
pub open spec fn is_word(part: Seq<char>) -> bool {
    part.len() > 0 && forall|i: int|
        0 <= i < part.len() ==> {
            &&& #[trigger] part[i] != ' '
            &&& part[i] != '\t'
            &&& part[i] != '\r'
            &&& part[i] != '\n'
            &&& part[i] != ','
            &&& part[i] != '('
            &&& part[i] != ')'
        }
}

/// A text without parentheses and commas can stand as an argument.
proof fn lemma_plain_argument(part: Seq<char>)
    requires
        forall|i: int|
            0 <= i < part.len() ==> #[trigger] part[i] != '(' && part[i] != ')' && part[i] != ',',
    ensures
        is_argument(part),
{
    assert forall|k: int| 0 <= k <= part.len() implies #[trigger] depth_of(part.take(k)) == 0 by {
        lemma_plain_depth(part, k);
    }
    assert(part.take(part.len() as int) =~= part);
}

/// Without parentheses nothing is nested.
proof fn lemma_plain_depth(part: Seq<char>, k: int)
    requires
        0 <= k <= part.len(),
        forall|i: int| 0 <= i < part.len() ==> #[trigger] part[i] != '(' && part[i] != ')',
    ensures
        depth_of(part.take(k)) == 0,
    decreases k,
{
    if k > 0 {
        lemma_plain_depth(part, k - 1);
        assert(part.take(k).drop_last() =~= part.take(k - 1));
        assert(part.take(k).last() == part[k - 1]);
    }
}

/// An argument whose first word does not start with `i1` has another type.
proof fn lemma_other_type(argument: Seq<char>, p: int)
    requires
        0 <= p,
        p + 1 < argument.len(),
        is_white(argument.take(p)),
        !is_white(seq![argument[p]]),
        argument[p] != 'i' || argument[p + 1] != '1',
    ensures
        !says_i1(argument),
{
    reveal_strlit("i1");
    if says_i1(argument) {
        let (left, rest) = choose|left: Seq<char>, rest: Seq<char>|
            {
                &&& argument == #[trigger] (left + "i1"@ + rest)
                &&& is_white(left)
                &&& rest.len() > 0 ==> is_white(rest.take(1))
            };
        let m = left.len() as int;
        assert(argument[m] == 'i' && argument[m + 1] == '1');
        if m < p {
            assert(argument.take(p)[m] == 'i');
        }
        if p < m {
            assert(argument[p] == left[p]);
        }
    }
}

/// An `i1` argument with a single word as its value says true exactly where
/// the word does.
pub proof fn law_word_is_the_value(word: Seq<char>)
    requires
        is_word(word),
    ensures
        says_i1(" i1 "@ + word),
        says_i1_true(" i1 "@ + word) <==> word == "1"@ || word == "true"@,
{
    reveal_strlit(" i1 ");
    reveal_strlit("i1");
    reveal_strlit("1");
    reveal_strlit("true");
    let argument = " i1 "@ + word;
    let blank = seq![' '];
    let none = Seq::<char>::empty();
    assert(argument =~= blank + "i1"@ + (blank + word));
    assert((blank + word).take(1) =~= blank);
    assert(is_white(blank));
    law_value_is_what_the_argument_says(argument);
    let core = "i1"@ + blank + word;
    assert(argument =~= blank + core + none);
    assert(core.last() == word.last());
    lemma_trimmed_core(blank, core, none);
    if word == "1"@ || word == "true"@ {
        assert(argument =~= typed_value(blank, blank, word, none));
        assert(is_white(seq![blank.first(), blank.last()]));
    }
    if says_i1_true(argument) {
        let value = if call_args::has_value(argument, "1"@) {
            "1"@
        } else {
            "true"@
        };
        let at = core.len() - value.len();
        if at > 3 {
            assert(core[at - 1] == word[at - 4]);
        }
        if at < 3 {
            assert(at - 1 == 0 || at - 1 == 1);
            assert(core[0] == 'i' && core[1] == '1');
        }
        assert(core.subrange(at, at + value.len()) =~= word);
    }
}

/// A tile copy as it is emitted: a mask and a cache flag behind the first
/// argument, and then any number of coordinates and pointers. It is a multicast
/// one exactly where the mask is `1` or `true`.
pub proof fn law_emitted_tile_copy(
    before: Seq<char>,
    tail: Seq<char>,
    first: Seq<char>,
    mask: Seq<char>,
    cache: Seq<char>,
    others: Seq<Seq<char>>,
    after: Seq<char>,
    ir: &str,
    found: bool,
)
    requires
        call_ensures(contains_tma_multicast, (Some(ir),), found),
        is_word(first),
        is_word(mask),
        is_word(cache),
        ends_a_name(tail, Seq::empty()),
        forall|k: int|
            0 <= k < others.len() ==> {
                &&& (#[trigger] others[k]).len() > 5
                &&& others[k].take(5) == " i64 "@ || others[k].take(5) == " ptr "@
                &&& is_word(others[k].skip(5))
            },
        ir@ == tile_copy(
            before,
            tail,
            Seq::empty(),
            seq!["i32 "@ + first, " i1 "@ + mask, " i1 "@ + cache] + others,
            after,
        ),
        names_tile_copy_once(ir@, before.len() as int),
    ensures
        found <==> mask == "1"@ || mask == "true"@,
{
    reveal_strlit("i32 ");
    reveal_strlit(" i1 ");
    let head = seq!["i32 "@ + first, " i1 "@ + mask, " i1 "@ + cache];
    let arguments = head + others;
    assert(head[0] == "i32 "@ + first && head[1] == " i1 "@ + mask && head[2] == " i1 "@ + cache);
    assert(seq![head[0][0]][0] == 'i');
    lemma_other_type(head[0], 0);
    lemma_plain_argument(head[0]);
    lemma_plain_argument(head[1]);
    lemma_plain_argument(head[2]);
    law_word_is_the_value(mask);
    law_word_is_the_value(cache);
    assert forall|k: int| 0 <= k < arguments.len() implies is_argument(#[trigger] arguments[k]) by {
        if k < 3 {
            assert(arguments[k] == head[k]);
        } else {
            assert(arguments[k] == others[k - 3]);
            lemma_emitted_argument(others[k - 3]);
        }
    }
    assert forall|k: int| 3 <= k < arguments.len() implies !says_i1(#[trigger] arguments[k]) by {
        assert(arguments[k] == others[k - 3]);
        lemma_emitted_argument(others[k - 3]);
    }
    law_only_the_mask_decides(before, tail, Seq::empty(), arguments, after, ir, found);
    if says_i1_true(head[1]) {
        assert(mask_is_set_at(arguments, 1, 2));
    }
    if mask_is_set(arguments) {
        let (a, b) = choose|a: int, b: int| mask_is_set_at(arguments, a, b);
        law_value_is_what_the_argument_says(arguments[a]);
        law_type_is_what_the_argument_says(arguments[a]);
        assert(says_i1(arguments[a]) && says_i1(arguments[b]));
        assert(says_i1(arguments[1]) && says_i1(arguments[2]));
        assert(a == 1);
    }
}

/// A coordinate or a pointer in an argument list.
proof fn lemma_emitted_argument(part: Seq<char>)
    requires
        part.len() > 5,
        is_word(part.skip(5)),
        part.take(5) == " i64 "@ || part.take(5) == " ptr "@,
    ensures
        is_argument(part),
        !says_i1(part),
{
    reveal_strlit(" i64 ");
    reveal_strlit(" ptr ");
    let head = part.take(5);
    assert(part =~= head + part.skip(5));
    assert(part[0] == head[0] && part[1] == head[1] && part[2] == head[2]);
    assert(is_white(part.take(1)));
    assert(seq![part[1]][0] == part[1]);
    lemma_other_type(part, 1);
    assert forall|i: int| 0 <= i < part.len() implies #[trigger] part[i] != '(' && part[i] != ')'
        && part[i] != ',' by {
        if i >= 5 {
            assert(part[i] == part.skip(5)[i - 5]);
        } else {
            assert(part[i] == head[i]);
        }
    }
    lemma_plain_argument(part);
}

} // verus!

//! The argument list of a call in textual IR.

use crate::text;
use crate::text::{chars_of, stands_at, stretch};
use vstd::prelude::*;

verus! {

/// White space between the parts of an instruction.
pub open spec fn is_space(c: char) -> bool {
    c == ' ' || c == '\t' || c == '\r' || c == '\n'
}

/// White space within a line.
pub open spec fn is_blank(c: char) -> bool {
    c == ' ' || c == '\t'
}

/// A character of a function's name, or the quote around one.
pub open spec fn is_name_char(c: char) -> bool {
    ||| 'a' <= c <= 'z'
    ||| 'A' <= c <= 'Z'
    ||| '0' <= c <= '9'
    ||| c == '.'
    ||| c == '_'
    ||| c == '-'
    ||| c == '$'
    ||| c == '"'
}

/// `part` without the white space at its ends.
pub open spec fn trimmed(part: Seq<char>) -> Seq<char>
    decreases part.len(),
{
    if part.len() == 0 {
        part
    } else if is_space(part[0]) {
        trimmed(part.drop_first())
    } else if is_space(part.last()) {
        trimmed(part.drop_last())
    } else {
        part
    }
}

/// The arguments of a call, from the text behind an opening parenthesis:
/// `first`, with what follows it, is the first of them. They are separated by
/// the commas outside nested parentheses, of which `depth` are open, and end
/// at the closing parenthesis. There are none where the list is not closed.
pub open spec fn arguments_from(rest: Seq<char>, first: Seq<char>, depth: nat) -> Option<
    Seq<Seq<char>>,
>
    decreases rest.len(),
{
    if rest.len() == 0 {
        None
    } else if rest[0] == ')' && depth == 0 {
        Some(seq![first])
    } else if rest[0] == ',' && depth == 0 {
        match arguments_from(rest.drop_first(), Seq::empty(), 0) {
            Some(others) => Some(seq![first] + others),
            None => None,
        }
    } else {
        let inner: nat = if rest[0] == '(' {
            depth + 1
        } else if rest[0] == ')' {
            (depth - 1) as nat
        } else {
            depth
        };
        arguments_from(rest.drop_first(), first.push(rest[0]), inner)
    }
}

/// The argument is of type `i1`.
pub open spec fn is_i1(argument: Seq<char>) -> bool {
    let part = trimmed(argument);
    &&& text::occurs_at("i1"@, part, 0)
    &&& part.len() > 2 ==> is_space(part[2])
}

/// The argument ends in the given value, with white space before it.
pub open spec fn has_value(argument: Seq<char>, value: Seq<char>) -> bool {
    let part = trimmed(argument);
    let at = part.len() - value.len();
    &&& text::occurs_at(value, part, at)
    &&& at > 0
    &&& is_space(part[at - 1])
}

/// The argument is of type `i1` and set to true.
pub open spec fn is_set_i1(argument: Seq<char>) -> bool {
    is_i1(argument) && (has_value(argument, "1"@) || has_value(argument, "true"@))
}

/// `a` and `b` are the positions of the second-to-last and of the last argument
/// of type `i1`.
pub open spec fn second_to_last_i1_at(arguments: Seq<Seq<char>>, a: int, b: int) -> bool {
    &&& 0 <= a < b < arguments.len()
    &&& is_i1(arguments[a])
    &&& is_i1(arguments[b])
    &&& forall|k: int| a < k < arguments.len() && k != b ==> !is_i1(#[trigger] arguments[k])
}

/// The second-to-last argument of type `i1` is set to true.
pub open spec fn second_to_last_i1_is_set(arguments: Seq<Seq<char>>) -> bool {
    exists|a: int, b: int|
        #[trigger] second_to_last_i1_at(arguments, a, b) && is_set_i1(arguments[a])
}

/// A function's name goes on from `from` up to `end`, and behind it, perhaps
/// after blanks, the parenthesis at `open` starts the arguments of a call.
pub open spec fn name_ends_at(text: Seq<char>, from: int, end: int, open: int) -> bool {
    &&& 0 <= from <= end <= open < text.len()
    &&& text[open] == '('
    &&& forall|k: int| from <= k < end ==> is_name_char(#[trigger] text[k])
    &&& forall|k: int| end <= k < open ==> is_blank(#[trigger] text[k])
}

/// The parenthesis at `open` starts the arguments of the call whose name goes
/// on from `from`.
pub open spec fn opens_call(text: Seq<char>, from: int, open: int) -> bool {
    exists|end: int| name_ends_at(text, from, end, open)
}

/// The arguments behind the parenthesis at `open`.
pub open spec fn arguments_at(text: Seq<char>, open: int) -> Option<Seq<Seq<char>>> {
    arguments_from(text.skip(open + 1), Seq::empty(), 0)
}

/// A call of a function whose name holds `name` at position `at`, with its
/// second-to-last `i1` argument set.
pub open spec fn flagged_call_at(text: Seq<char>, name: Seq<char>, at: int) -> bool {
    &&& text::occurs_at(name, text, at)
    &&& exists|open: int| #[trigger]
        opens_call(text, at + name.len(), open) && (arguments_at(text, open) matches Some(arguments)
            && second_to_last_i1_is_set(arguments))
}

/// The text holds a call of a function whose name holds `name`, with its
/// second-to-last `i1` argument set.
pub open spec fn has_flagged_call(text: Seq<char>, name: Seq<char>) -> bool {
    exists|at: int| flagged_call_at(text, name, at)
}

fn is_space_char(c: char) -> (space: bool)
    ensures
        space == is_space(c),
{
    c == ' ' || c == '\t' || c == '\r' || c == '\n'
}

fn is_blank_char(c: char) -> (blank: bool)
    ensures
        blank == is_blank(c),
{
    c == ' ' || c == '\t'
}

fn is_name_character(c: char) -> (in_name: bool)
    ensures
        in_name == is_name_char(c),
{
    ('a' <= c && c <= 'z') || ('A' <= c && c <= 'Z') || ('0' <= c && c <= '9') || c == '.' || c
        == '_' || c == '-' || c == '$' || c == '"'
}

/// `part` without the white space at its ends.
fn trim(part: &Vec<char>) -> (out: Vec<char>)
    ensures
        out@ == trimmed(part@),
{
    let mut from: usize = 0;
    let mut to: usize = part.len();
    assert(part@.subrange(0, to as int) =~= part@);
    while from < to && is_space_char(part[from])
        invariant
            from <= to == part.len(),
            trimmed(part@) == trimmed(part@.subrange(from as int, to as int)),
        decreases to - from,
    {
        assert(part@.subrange(from as int, to as int).drop_first() =~= part@.subrange(
            from + 1,
            to as int,
        ));
        from += 1;
    }
    while from < to && is_space_char(part[to - 1])
        invariant
            from <= to <= part.len(),
            from < to ==> !is_space(part[from as int]),
            trimmed(part@) == trimmed(part@.subrange(from as int, to as int)),
        decreases to - from,
    {
        assert(part@.subrange(from as int, to as int).drop_last() =~= part@.subrange(
            from as int,
            to - 1,
        ));
        assert(part@.subrange(from as int, to as int).last() == part@[to - 1]);
        to -= 1;
    }
    stretch(part, from, to)
}

/// `first`, and then the arguments that follow, where they are known.
spec fn prepended(first: Seq<Seq<char>>, others: Option<Seq<Seq<char>>>) -> Option<Seq<Seq<char>>> {
    match others {
        Some(others) => Some(first + others),
        None => None,
    }
}

/// The views of some vectors.
spec fn views(parts: Seq<Vec<char>>) -> Seq<Seq<char>> {
    Seq::new(parts.len(), |k: int| parts[k]@)
}

/// The arguments behind the parenthesis at `open`, or `None` where the list is
/// not closed.
fn read_arguments(text: &Vec<char>, open: usize) -> (out: Option<Vec<Vec<char>>>)
    requires
        open < text.len(),
    ensures
        out is None <==> arguments_at(text@, open as int) is None,
        out matches Some(list) ==> arguments_at(text@, open as int) == Some(views(list@)),
{
    let mut list: Vec<Vec<char>> = Vec::new();
    let mut part: Vec<char> = Vec::new();
    let mut depth: usize = 0;
    let mut i: usize = open + 1;
    let ghost all = arguments_at(text@, open as int);
    proof {
        let start = arguments_from(text@.skip(i as int), part@, depth as nat);
        if start is Some {
            assert(views(list@) + start->0 =~= start->0);
        }
    }
    while i < text.len()
        invariant
            open < i <= text.len(),
            depth < i,
            all == arguments_at(text@, open as int),
            all == prepended(
                views(list@),
                arguments_from(text@.skip(i as int), part@, depth as nat),
            ),
        decreases text.len() - i,
    {
        let c = text[i];
        let ghost rest = text@.skip(i as int);
        assert(rest[0] == c);
        assert(rest.drop_first() =~= text@.skip(i + 1));
        if c == ')' && depth == 0 {
            let ghost before = list@;
            let ghost last = part@;
            list.push(part);
            assert(views(list@) =~= views(before) + seq![last]);
            return Some(list);
        }
        if c == ',' && depth == 0 {
            let ghost before = list@;
            let ghost last = part@;
            list.push(part);
            part = Vec::new();
            proof {
                assert(views(list@) =~= views(before) + seq![last]);
                let others = arguments_from(text@.skip(i + 1), Seq::empty(), 0);
                if others is Some {
                    assert(views(before) + (seq![last] + others->0) =~= views(list@) + others->0);
                }
            }
        } else {
            if c == '(' {
                depth += 1;
            } else if c == ')' {
                depth -= 1;
            }
            part.push(c);
        }
        i += 1;
    }
    None
}

/// Tells whether the argument is of type `i1`.
fn is_i1_argument(argument: &Vec<char>) -> (typed: bool)
    ensures
        typed == is_i1(argument@),
{
    let part = trim(argument);
    proof {
        reveal_strlit("i1");
    }
    stands_at(&chars_of("i1"), &part, 0) && (part.len() <= 2 || is_space_char(part[2]))
}

/// Tells whether the argument ends in the given value.
fn argument_has_value(argument: &Vec<char>, value: &str) -> (found: bool)
    ensures
        found == has_value(argument@, value@),
{
    let part = trim(argument);
    let value_chars = chars_of(value);
    if part.len() <= value_chars.len() {
        return false;
    }
    let at: usize = part.len() - value_chars.len();
    stands_at(&value_chars, &part, at) && is_space_char(part[at - 1])
}

/// The position of the last argument of type `i1` before `end`.
fn last_i1_before(arguments: &Vec<Vec<char>>, end: usize) -> (found: Option<usize>)
    requires
        end <= arguments.len(),
    ensures
        found matches Some(k) ==> k < end && is_i1(arguments[k as int]@) && forall|j: int|
            k < j < end ==> !is_i1(#[trigger] arguments[j]@),
        found is None ==> forall|j: int| 0 <= j < end ==> !is_i1(#[trigger] arguments[j]@),
{
    let mut k: usize = end;
    while k > 0
        invariant
            k <= end <= arguments.len(),
            forall|j: int| k <= j < end ==> !is_i1(#[trigger] arguments[j]@),
        decreases k,
    {
        k -= 1;
        if is_i1_argument(&arguments[k]) {
            return Some(k);
        }
    }
    None
}

/// Tells whether the second-to-last argument of type `i1` is set to true.
fn is_second_to_last_i1_set(arguments: &Vec<Vec<char>>) -> (set: bool)
    ensures
        set == second_to_last_i1_is_set(views(arguments@)),
{
    let ghost all = views(arguments@);
    assert(forall|k: int| 0 <= k < all.len() ==> #[trigger] all[k] == arguments[k]@);
    if let Some(b) = last_i1_before(arguments, arguments.len()) {
        if let Some(a) = last_i1_before(arguments, b) {
            assert(second_to_last_i1_at(all, a as int, b as int));
            assert forall|x: int, y: int| #[trigger] second_to_last_i1_at(all, x, y) implies x == a
                by {
                assert(is_i1(arguments[b as int]@) && is_i1(arguments[a as int]@));
                assert(is_i1(arguments[x]@) && is_i1(arguments[y]@));
                assert(is_i1(all[b as int]) && is_i1(all[a as int]));
            }
            return argument_has_value(&arguments[a], "1") || argument_has_value(
                &arguments[a],
                "true",
            );
        }
        assert forall|x: int, y: int| !(#[trigger] second_to_last_i1_at(all, x, y)) by {
            if second_to_last_i1_at(all, x, y) {
                assert(is_i1(arguments[x]@) && is_i1(arguments[y]@));
            }
        }
        return false;
    }
    assert forall|x: int, y: int| !(#[trigger] second_to_last_i1_at(all, x, y)) by {
        if second_to_last_i1_at(all, x, y) {
            assert(is_i1(arguments[x]@));
        }
    }
    false
}

/// Tells whether a flagged call of a function stands at `at`, which is where
/// its name holds `name`.
fn is_flagged_call_at(text: &Vec<char>, name: &Vec<char>, at: usize) -> (found: bool)
    ensures
        found == flagged_call_at(text@, name@, at as int),
{
    if !stands_at(name, text, at) {
        return false;
    }
    assert(at + name.len() <= text.len());
    let from: usize = at + name.len();
    let mut end: usize = from;
    while end < text.len() && is_name_character(text[end])
        invariant
            from <= end <= text.len(),
            forall|k: int| from <= k < end ==> is_name_char(#[trigger] text@[k]),
        decreases text.len() - end,
    {
        end += 1;
    }
    let mut open: usize = end;
    while open < text.len() && is_blank_char(text[open])
        invariant
            end <= open <= text.len(),
            forall|k: int| end <= k < open ==> is_blank(#[trigger] text@[k]),
        decreases text.len() - open,
    {
        open += 1;
    }
    assert forall|o: int| #[trigger] opens_call(text@, from as int, o) implies o == open by {
        let e = choose|e: int| name_ends_at(text@, from as int, e, o);
        if e < end {
            assert(is_name_char(text@[e]));
            if e < o {
                assert(is_blank(text@[e]));
            }
        }
        if end < e {
            assert(is_name_char(text@[end as int]));
        }
        if o < open {
            assert(is_blank(text@[o]));
        }
        if open < o {
            assert(is_blank(text@[open as int]));
        }
    }
    if open < text.len() && text[open] == '(' {
        assert(name_ends_at(text@, from as int, end as int, open as int));
        assert(opens_call(text@, at + name@.len(), open as int));
        match read_arguments(text, open) {
            Some(list) => is_second_to_last_i1_set(&list),
            None => false,
        }
    } else {
        false
    }
}

/// Tells whether the text holds a call of a function whose name holds `name`,
/// with its second-to-last `i1` argument set.
pub fn contains_flagged_call(text: &Vec<char>, name: &str) -> (found: bool)
    ensures
        found == has_flagged_call(text@, name@),
{
    let name_chars = chars_of(name);
    let mut at: usize = 0;
    while at < text.len()
        invariant
            at <= text.len(),
            name_chars@ == name@,
            forall|j: int| 0 <= j < at ==> !flagged_call_at(text@, name@, j),
        decreases text.len() - at,
    {
        if is_flagged_call_at(text, &name_chars, at) {
            return true;
        }
        at += 1;
    }
    is_flagged_call_at(text, &name_chars, at)
}

/// Text behind a closed argument list does not belong to it.
proof fn lemma_arguments_before(rest: Seq<char>, first: Seq<char>, depth: nat, after: Seq<char>)
    requires
        arguments_from(rest, first, depth) is Some,
    ensures
        arguments_from(rest + after, first, depth) == arguments_from(rest, first, depth),
    decreases rest.len(),
{
    assert((rest + after).drop_first() =~= rest.drop_first() + after);
    if rest[0] == ')' && depth == 0 {
    } else if rest[0] == ',' && depth == 0 {
        lemma_arguments_before(rest.drop_first(), Seq::empty(), 0, after);
    } else {
        let inner: nat = if rest[0] == '(' {
            depth + 1
        } else if rest[0] == ')' {
            (depth - 1) as nat
        } else {
            depth
        };
        lemma_arguments_before(rest.drop_first(), first.push(rest[0]), inner, after);
    }
}

/// A flagged call stays one when more text is put around it.
pub proof fn lemma_flagged_call_around(
    before: Seq<char>,
    text: Seq<char>,
    after: Seq<char>,
    name: Seq<char>,
)
    requires
        has_flagged_call(text, name),
    ensures
        has_flagged_call(before + text + after, name),
{
    let whole = before + text + after;
    let n = before.len();
    let at = choose|at: int| flagged_call_at(text, name, at);
    let open = choose|open: int| #[trigger]
        opens_call(text, at + name.len(), open) && (arguments_at(text, open) matches Some(arguments)
            && second_to_last_i1_is_set(arguments));
    text::lemma_occurs_at_around(name, before, text, after, at);
    let from = at + name.len();
    let end = choose|end: int| name_ends_at(text, from, end, open);
    assert forall|k: int| n <= k <= n + open implies #[trigger] whole[k] == text[k - n] by {}
    assert(name_ends_at(whole, n + from, n + end, n + open));
    assert(opens_call(whole, n + at + name.len(), n + open));
    assert(whole.skip(n + open + 1) =~= text.skip(open + 1) + after);
    lemma_arguments_before(text.skip(open + 1), Seq::empty(), 0, after);
    assert(flagged_call_at(whole, name, n + at));
}

/// Every call in the text of a function whose name holds `name` has a closed
/// argument list.
pub open spec fn calls_are_closed(text: Seq<char>, name: Seq<char>) -> bool {
    forall|at: int, open: int|
        #![trigger text::occurs_at(name, text, at), arguments_at(text, open)]
        text::occurs_at(name, text, at) && opens_call(text, at + name.len(), open)
            ==> arguments_at(text, open) is Some
}

/// A flagged call in two texts joined by a line feed is one of either text,
/// where the first text breaks off in no such call.
pub proof fn lemma_flagged_call_in_joined(a: Seq<char>, b: Seq<char>, name: Seq<char>)
    requires
        calls_are_closed(a, name),
        has_flagged_call(a + seq!['\n'] + b, name),
        name.len() > 0,
        forall|k: int| 0 <= k < name.len() ==> name[k] != '\n',
    ensures
        has_flagged_call(a, name) || has_flagged_call(b, name),
{
    let whole = a + seq!['\n'] + b;
    let n = a.len() as int;
    let at = choose|at: int| flagged_call_at(whole, name, at);
    let from = at + name.len();
    let open = choose|open: int| #[trigger]
        opens_call(whole, from, open) && (arguments_at(whole, open) matches Some(arguments)
            && second_to_last_i1_is_set(arguments));
    let end = choose|end: int| name_ends_at(whole, from, end, open);
    text::lemma_occurs_at_in_joined(name, a, b, at);
    assert(whole[n] == '\n');
    if from <= n {
        assert(open < n);
        assert forall|k: int| from <= k < end implies is_name_char(#[trigger] a[k]) by {
            assert(is_name_char(whole[k]));
        }
        assert forall|k: int| end <= k < open implies is_blank(#[trigger] a[k]) by {
            assert(is_blank(whole[k]));
        }
        assert(name_ends_at(a, from, end, open));
        assert(opens_call(a, from, open));
        assert(arguments_at(a, open) is Some);
        assert(whole.skip(open + 1) =~= a.skip(open + 1) + (seq!['\n'] + b));
        lemma_arguments_before(a.skip(open + 1), Seq::empty(), 0, seq!['\n'] + b);
        assert(flagged_call_at(a, name, at));
    } else {
        let m = n + 1;
        assert forall|k: int| m <= k < whole.len() implies #[trigger] whole[k] == b[k - m] by {}
        assert forall|k: int| from - m <= k < end - m implies is_name_char(#[trigger] b[k]) by {
            assert(is_name_char(whole[k + m]));
        }
        assert forall|k: int| end - m <= k < open - m implies is_blank(#[trigger] b[k]) by {
            assert(is_blank(whole[k + m]));
        }
        assert(name_ends_at(b, from - m, end - m, open - m));
        assert(whole.skip(open + 1) =~= b.skip(open - m + 1));
        assert(opens_call(b, at - m + name.len(), open - m));
        assert(flagged_call_at(b, name, at - m));
    }
}

} // verus!

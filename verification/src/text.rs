//! Substring searches and equality of texts.

use vstd::prelude::*;

verus! {

/// `pattern` stands in `text` at position `i`.
pub open spec fn occurs_at(pattern: Seq<char>, text: Seq<char>, i: int) -> bool {
    &&& 0 <= i
    &&& i + pattern.len() <= text.len()
    &&& text.subrange(i, i + pattern.len()) == pattern
}

/// `pattern` stands somewhere in `text`.
pub open spec fn occurs(pattern: Seq<char>, text: Seq<char>) -> bool {
    exists|i: int| occurs_at(pattern, text, i)
}

/// `pattern` stands in `text` at a position where `longer` does not.
pub open spec fn occurs_except(pattern: Seq<char>, longer: Seq<char>, text: Seq<char>) -> bool {
    exists|i: int| occurs_at(pattern, text, i) && !occurs_at(longer, text, i)
}

/// The characters of a string.
pub fn chars_of(text: &str) -> (chars: Vec<char>)
    ensures
        chars@ == text@,
{
    let mut chars: Vec<char> = Vec::new();
    for c in it: text.chars()
        invariant
            it.seq() == text@,
            chars@ == it.seq().take(it.index()),
    {
        chars.push(c);
    }
    chars
}

/// Tells whether `pattern` stands in `text` at position `at`.
pub fn stands_at(pattern: &Vec<char>, text: &Vec<char>, at: usize) -> (found: bool)
    ensures
        found == occurs_at(pattern@, text@, at as int),
{
    if at > text.len() || text.len() - at < pattern.len() {
        return false;
    }
    let mut k: usize = 0;
    while k < pattern.len()
        invariant
            k <= pattern.len(),
            at + pattern.len() <= text.len(),
            forall|j: int| 0 <= j < k ==> text[at + j] == pattern[j],
        decreases pattern.len() - k,
    {
        if text[at + k] != pattern[k] {
            assert(text@.subrange(at as int, at + pattern.len())[k as int] != pattern@[k as int]);
            return false;
        }
        k += 1;
    }
    assert(text@.subrange(at as int, at + pattern.len()) =~= pattern@);
    true
}

/// Tells whether `pattern` stands somewhere in `text`.
pub fn contains(text: &Vec<char>, pattern: &str) -> (found: bool)
    ensures
        found == occurs(pattern@, text@),
{
    let pattern_chars = chars_of(pattern);
    let mut at: usize = 0;
    while at < text.len()
        invariant
            at <= text.len(),
            pattern_chars@ == pattern@,
            forall|j: int| 0 <= j < at ==> !occurs_at(pattern@, text@, j),
        decreases text.len() - at,
    {
        if stands_at(&pattern_chars, text, at) {
            return true;
        }
        at += 1;
    }
    stands_at(&pattern_chars, text, at)
}

/// Tells whether `pattern` stands in `text` at a position where `longer` does
/// not.
pub fn contains_except(text: &Vec<char>, pattern: &str, longer: &str) -> (found: bool)
    ensures
        found == occurs_except(pattern@, longer@, text@),
{
    let pattern_chars = chars_of(pattern);
    let longer_chars = chars_of(longer);
    let mut at: usize = 0;
    while at < text.len()
        invariant
            at <= text.len(),
            pattern_chars@ == pattern@,
            longer_chars@ == longer@,
            forall|j: int|
                0 <= j < at ==> !(occurs_at(pattern@, text@, j) && !occurs_at(longer@, text@, j)),
        decreases text.len() - at,
    {
        if stands_at(&pattern_chars, text, at) && !stands_at(&longer_chars, text, at) {
            return true;
        }
        at += 1;
    }
    stands_at(&pattern_chars, text, at) && !stands_at(&longer_chars, text, at)
}

/// Tells whether some characters are those of `expected`.
pub fn is_text(part: &Vec<char>, expected: &str) -> (same: bool)
    ensures
        same == (part@ == expected@),
{
    let expected_chars = chars_of(expected);
    let same = part.len() == expected_chars.len() && stands_at(&expected_chars, part, 0);
    proof {
        assert(part@.subrange(0, part@.len() as int) =~= part@);
    }
    same
}

/// Tells whether two strings hold the same characters.
pub fn same_text(a: &str, b: &str) -> (same: bool)
    ensures
        same == (a@ == b@),
{
    is_text(&chars_of(a), b)
}

/// The characters of `text` from `from` up to `to`.
pub fn stretch(text: &Vec<char>, from: usize, to: usize) -> (part: Vec<char>)
    requires
        from <= to <= text.len(),
    ensures
        part@ == text@.subrange(from as int, to as int),
{
    let mut part: Vec<char> = Vec::new();
    let mut i: usize = from;
    while i < to
        invariant
            from <= i <= to <= text.len(),
            part@ == text@.subrange(from as int, i as int),
        decreases to - i,
    {
        part.push(text[i]);
        i += 1;
    }
    part
}

/// What stands in a text still stands there, further on, when more text is put
/// around it.
pub proof fn lemma_occurs_at_around(
    pattern: Seq<char>,
    before: Seq<char>,
    text: Seq<char>,
    after: Seq<char>,
    i: int,
)
    requires
        occurs_at(pattern, text, i),
    ensures
        occurs_at(pattern, before + text + after, before.len() + i),
{
    let at = before.len() + i;
    let whole = before + text + after;
    assert(whole.subrange(at, at + pattern.len()) =~= text.subrange(i, i + pattern.len()));
}

/// What occurs in a text still occurs when more text is put around it.
pub proof fn lemma_occurs_around(
    pattern: Seq<char>,
    before: Seq<char>,
    text: Seq<char>,
    after: Seq<char>,
)
    requires
        occurs(pattern, text),
    ensures
        occurs(pattern, before + text + after),
{
    let i = choose|i: int| occurs_at(pattern, text, i);
    lemma_occurs_at_around(pattern, before, text, after, i);
}

/// What stands in two texts joined by a line feed, and holds no line feed,
/// stands in one of them.
pub proof fn lemma_occurs_at_in_joined(pattern: Seq<char>, a: Seq<char>, b: Seq<char>, i: int)
    requires
        occurs_at(pattern, a + seq!['\n'] + b, i),
        pattern.len() > 0,
        forall|k: int| 0 <= k < pattern.len() ==> pattern[k] != '\n',
    ensures
        i + pattern.len() <= a.len() ==> occurs_at(pattern, a, i),
        i + pattern.len() > a.len() ==> occurs_at(pattern, b, i - a.len() - 1),
{
    let whole = a + seq!['\n'] + b;
    let n = a.len() as int;
    let part = whole.subrange(i, i + pattern.len());
    if i + pattern.len() <= n {
        assert(a.subrange(i, i + pattern.len()) =~= part);
    } else {
        if i <= n {
            assert(part[n - i] == whole[n]);
        }
        let j = i - n - 1;
        assert(b.subrange(j, j + pattern.len()) =~= part);
    }
}

/// What occurs in two texts joined by a line feed, and holds no line feed,
/// occurs in one of them.
pub proof fn lemma_occurs_in_joined(pattern: Seq<char>, a: Seq<char>, b: Seq<char>)
    requires
        occurs(pattern, a + seq!['\n'] + b),
        pattern.len() > 0,
        forall|k: int| 0 <= k < pattern.len() ==> pattern[k] != '\n',
    ensures
        occurs(pattern, a) || occurs(pattern, b),
{
    let i = choose|i: int| occurs_at(pattern, a + seq!['\n'] + b, i);
    lemma_occurs_at_in_joined(pattern, a, b, i);
}

} // verus!

//! Occurrences of one text inside another, counted in characters.

use vstd::prelude::*;

verus! {

/// `needle` stands in `text` at character index `at`.
pub open spec fn occurs_at(text: Seq<char>, needle: Seq<char>, at: int) -> bool {
    &&& 0 <= at
    &&& at + needle.len() <= text.len()
    &&& text.subrange(at, at + needle.len()) == needle
}

/// `needle` is a contiguous part of `text`.
pub open spec fn contains(text: Seq<char>, needle: Seq<char>) -> bool {
    exists|at: int| occurs_at(text, needle, at)
}

/// No occurrence of `needle` in `text` starts before index `end`.
pub open spec fn none_before(text: Seq<char>, needle: Seq<char>, end: int) -> bool {
    forall|at: int| 0 <= at < end ==> !occurs_at(text, needle, at)
}

/// `at` is the leftmost index at which `needle` stands in `text`.
pub open spec fn is_first_occurrence(text: Seq<char>, needle: Seq<char>, at: int) -> bool {
    occurs_at(text, needle, at) && none_before(text, needle, at)
}

/// The leftmost index at which `needle` stands in `text`; meaningful only
/// where `contains(text, needle)`.
pub open spec fn first_occurrence(text: Seq<char>, needle: Seq<char>) -> int {
    choose|at: int| is_first_occurrence(text, needle, at)
}

/// The characters of `text`, in order.
pub fn chars_of(text: &str) -> (chars: Vec<char>)
    ensures
        chars@ == text@,
{
    let mut chars: Vec<char> = Vec::new();
    for c in it: text.chars()
        invariant
            chars@ == it.seq().take(it.index() as int),
            it.seq() == text@,
    {
        chars.push(c);
    }
    chars
}

/// Whether `needle` stands in `text` at index `at`.
pub fn matches_at(text: &Vec<char>, needle: &Vec<char>, at: usize) -> (found: bool)
    ensures
        found == occurs_at(text@, needle@, at as int),
{
    if needle.len() > text.len() || at > text.len() - needle.len() {
        return false;
    }
    let mut k: usize = 0;
    while k < needle.len()
        invariant
            k <= needle.len(),
            at + needle.len() <= text.len(),
            forall|j: int| 0 <= j < k ==> text@[at + j] == needle@[j],
        decreases needle.len() - k,
    {
        if text[at + k] != needle[k] {
            return false;
        }
        k += 1;
    }
    assert(text@.subrange(at as int, at + needle.len()) =~= needle@);
    true
}

/// The leftmost index at which `needle` stands in `text`, if there is one.
pub fn find_in(text: &Vec<char>, needle: &Vec<char>) -> (found: Option<usize>)
    ensures
        found is Some <==> contains(text@, needle@),
        found matches Some(at) ==> is_first_occurrence(text@, needle@, at as int),
{
    if needle.len() > text.len() {
        return None;
    }
    let last: usize = text.len() - needle.len();
    let mut at: usize = 0;
    while at < last
        invariant
            at <= last,
            last + needle.len() == text.len(),
            none_before(text@, needle@, at as int),
        decreases last - at,
    {
        if matches_at(text, needle, at) {
            return Some(at);
        }
        at += 1;
    }
    if matches_at(text, needle, last) {
        Some(last)
    } else {
        None
    }
}

/// Among the occurrences of a contained needle there is a leftmost one, and
/// `first_occurrence` names it.
pub proof fn lemma_first_occurrence(text: Seq<char>, needle: Seq<char>)
    requires
        contains(text, needle),
    ensures
        is_first_occurrence(text, needle, first_occurrence(text, needle)),
{
    let at = choose|at: int| occurs_at(text, needle, at);
    lemma_leftmost_exists(text, needle, at);
}

proof fn lemma_leftmost_exists(text: Seq<char>, needle: Seq<char>, at: int)
    requires
        occurs_at(text, needle, at),
    ensures
        exists|first: int| is_first_occurrence(text, needle, first),
    decreases at,
{
    if none_before(text, needle, at) {
        assert(is_first_occurrence(text, needle, at));
    } else {
        let earlier = choose|earlier: int| 0 <= earlier < at && occurs_at(text, needle, earlier);
        lemma_leftmost_exists(text, needle, earlier);
    }
}

/// The empty needle stands at every index of a text, its end included, so
/// every text contains it.
pub proof fn lemma_empty_needle_occurs(text: Seq<char>, needle: Seq<char>, at: int)
    requires
        needle.len() == 0,
        0 <= at <= text.len(),
    ensures
        occurs_at(text, needle, at),
        contains(text, needle),
{
    assert(text.subrange(at, at) =~= needle);
}

/// The leftmost occurrence is unique.
pub proof fn lemma_first_occurrence_unique(text: Seq<char>, needle: Seq<char>, a: int, b: int)
    requires
        is_first_occurrence(text, needle, a),
        is_first_occurrence(text, needle, b),
    ensures
        a == b,
{
}

} // verus!

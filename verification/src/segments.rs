//! What splitting a text on a delimiter means, and the functions that do it.
//!
//! Texts are sequences of characters. A delimiter matches where its
//! characters stand in the subject one after another; matches are taken from
//! left to right and never overlap. The empty delimiter matches at every
//! character boundary, the two ends of the subject included, so that
//! splitting `"rust"` on `""` gives `""`, `"r"`, `"u"`, `"s"`, `"t"`, `""`.

use vstd::prelude::*;
use crate::search::{
    chars_of, contains, find_in, first_occurrence, is_first_occurrence, lemma_empty_needle_occurs,
    lemma_first_occurrence, lemma_first_occurrence_unique, matches_at, none_before, occurs_at,
};

verus! {

/// The parts put together again, with `separator` between neighbours.
pub open spec fn join(parts: Seq<Seq<char>>, separator: Seq<char>) -> Seq<char>
    decreases parts.len(),
{
    if parts.len() == 0 {
        Seq::empty()
    } else if parts.len() == 1 {
        parts[0]
    } else {
        parts[0] + separator + join(parts.drop_first(), separator)
    }
}

/// Every character of `text` as a text of its own.
pub open spec fn characters(text: Seq<char>) -> Seq<Seq<char>> {
    Seq::new(text.len(), |i: int| seq![text[i]])
}

/// The segments of `text` between the occurrences of `delimiter`, from left
/// to right. A text without the delimiter is its own single segment.
pub open spec fn segments(text: Seq<char>, delimiter: Seq<char>) -> Seq<Seq<char>>
    decreases text.len(),
{
    let at = first_occurrence(text, delimiter);
    if delimiter.len() == 0 {
        seq![Seq::empty()] + characters(text) + seq![Seq::empty()]
    } else if is_first_occurrence(text, delimiter, at) {
        seq![text.take(at)] + segments(text.skip(at + delimiter.len()), delimiter)
    } else {
        seq![text]
    }
}

/// What stands before and after the leftmost occurrence of `delimiter`, if
/// `text` contains it.
pub open spec fn halves(text: Seq<char>, delimiter: Seq<char>) -> Option<(Seq<char>, Seq<char>)> {
    if contains(text, delimiter) {
        let at = first_occurrence(text, delimiter);
        Some((text.take(at), text.skip(at + delimiter.len())))
    } else {
        None
    }
}

/// An occurrence in what is left after the first `skipped` characters is an
/// occurrence in the whole text, `skipped` places further on.
pub proof fn lemma_occurs_at_skip(text: Seq<char>, needle: Seq<char>, skipped: int, at: int)
    requires
        0 <= skipped <= text.len(),
        0 <= at,
    ensures
        occurs_at(text.skip(skipped), needle, at) == occurs_at(text, needle, skipped + at),
{
    if at + needle.len() <= text.len() - skipped {
        assert(text.skip(skipped).subrange(at, at + needle.len()) =~= text.subrange(
            skipped + at,
            skipped + at + needle.len(),
        ));
    }
}

/// Splitting at a known leftmost occurrence: the text before it, then the
/// segments of what follows it.
pub proof fn lemma_segments_step(text: Seq<char>, delimiter: Seq<char>, at: int)
    requires
        delimiter.len() > 0,
        is_first_occurrence(text, delimiter, at),
    ensures
        segments(text, delimiter) == seq![text.take(at)] + segments(
            text.skip(at + delimiter.len()),
            delimiter,
        ),
{
    lemma_first_occurrence(text, delimiter);
    lemma_first_occurrence_unique(text, delimiter, at, first_occurrence(text, delimiter));
}

/// A text without the delimiter is left whole.
pub proof fn lemma_segments_absent(text: Seq<char>, delimiter: Seq<char>)
    requires
        delimiter.len() > 0,
        !contains(text, delimiter),
    ensures
        segments(text, delimiter) == seq![text],
{
}

/// With an empty separator, the characters of a text and one empty part
/// after them join to the text.
proof fn lemma_join_characters(text: Seq<char>)
    ensures
        join(characters(text) + seq![Seq::<char>::empty()], Seq::empty()) == text,
    decreases text.len(),
{
    if text.len() > 0 {
        let rest = text.skip(1);
        let parts = characters(text) + seq![Seq::<char>::empty()];
        lemma_join_characters(rest);
        assert(parts.drop_first() =~= characters(rest) + seq![Seq::<char>::empty()]);
    }
}

/// Round trip: the segments of a text, joined with the delimiter between
/// them, are the text again. This holds for every subject and every
/// delimiter, the empty one and one that the subject lacks included.
pub proof fn lemma_join_segments(text: Seq<char>, delimiter: Seq<char>)
    ensures
        join(segments(text, delimiter), delimiter) == text,
    decreases text.len(),
{
    let at = first_occurrence(text, delimiter);
    let parts = segments(text, delimiter);
    if delimiter.len() == 0 {
        lemma_join_characters(text);
        assert(parts.drop_first() =~= characters(text) + seq![Seq::<char>::empty()]);
    } else if is_first_occurrence(text, delimiter, at) {
        let rest = text.skip(at + delimiter.len());
        lemma_join_segments(rest, delimiter);
        lemma_segments_nonempty(rest, delimiter);
        assert(parts.drop_first() =~= segments(rest, delimiter));
    }
}

/// There is always at least one segment.
pub proof fn lemma_segments_nonempty(text: Seq<char>, delimiter: Seq<char>)
    ensures
        segments(text, delimiter).len() >= 1,
{
}

/// A subject that contains the delimiter has at least two segments: a split
/// never comes back as the subject alone.
pub proof fn lemma_segments_of_contained(text: Seq<char>, delimiter: Seq<char>)
    requires
        contains(text, delimiter),
    ensures
        segments(text, delimiter).len() >= 2,
{
    if delimiter.len() > 0 {
        lemma_first_occurrence(text, delimiter);
        let at = first_occurrence(text, delimiter);
        lemma_segments_nonempty(text.skip(at + delimiter.len()), delimiter);
    }
}

/// No segment holds a delimiter that is not empty: every occurrence was
/// split on.
pub proof fn lemma_segments_free_of_delimiter(text: Seq<char>, delimiter: Seq<char>, i: int)
    requires
        delimiter.len() > 0,
        0 <= i < segments(text, delimiter).len(),
    ensures
        !contains(segments(text, delimiter)[i], delimiter),
    decreases text.len(),
{
    let at = first_occurrence(text, delimiter);
    if is_first_occurrence(text, delimiter, at) {
        if i == 0 {
            let head = text.take(at);
            assert forall|k: int| !occurs_at(head, delimiter, k) by {
                if occurs_at(head, delimiter, k) {
                    assert(head.subrange(k, k + delimiter.len()) =~= text.subrange(
                        k,
                        k + delimiter.len(),
                    ));
                    assert(occurs_at(text, delimiter, k));
                }
            }
        } else {
            lemma_segments_free_of_delimiter(text.skip(at + delimiter.len()), delimiter, i - 1);
        }
    } else if contains(text, delimiter) {
        lemma_first_occurrence(text, delimiter);
    }
}

/// What `halves` gives back makes up the subject: the head, the delimiter
/// and the tail, in this order, and the delimiter stands nowhere in the
/// subject further left than right after the head.
pub proof fn lemma_halves_rejoin(text: Seq<char>, delimiter: Seq<char>)
    requires
        contains(text, delimiter),
    ensures
        halves(text, delimiter) matches Some((head, tail)) && {
            &&& head + delimiter + tail == text
            &&& none_before(text, delimiter, head.len() as int)
        },
{
    lemma_first_occurrence(text, delimiter);
}

/// The pair of `halves` is the only one that rejoins to the subject around
/// the leftmost occurrence of the delimiter.
pub proof fn lemma_halves_unique(
    text: Seq<char>,
    delimiter: Seq<char>,
    head: Seq<char>,
    tail: Seq<char>,
)
    requires
        head + delimiter + tail == text,
        none_before(text, delimiter, head.len() as int),
    ensures
        halves(text, delimiter) == Some((head, tail)),
{
    let at = head.len() as int;
    assert(text.subrange(at, at + delimiter.len()) =~= delimiter);
    assert(occurs_at(text, delimiter, at));
    lemma_first_occurrence(text, delimiter);
    lemma_first_occurrence_unique(text, delimiter, at, first_occurrence(text, delimiter));
}

/// The first segment of a split is the head of `halves`, and the segments
/// after it are those of the tail.
pub proof fn lemma_segments_begin_with_head(text: Seq<char>, delimiter: Seq<char>)
    requires
        delimiter.len() > 0,
        contains(text, delimiter),
    ensures
        halves(text, delimiter) matches Some((head, tail)) && segments(text, delimiter) == seq![
            head,
        ] + segments(tail, delimiter),
{
    lemma_first_occurrence(text, delimiter);
    lemma_segments_step(text, delimiter, first_occurrence(text, delimiter));
}

/// Whether `subject` contains `delimiter` as a contiguous part.
pub fn text_contains(subject: &str, delimiter: &str) -> (found: bool)
    ensures
        found == contains(subject@, delimiter@),
{
    let text = chars_of(subject);
    let needle = chars_of(delimiter);
    find_in(&text, &needle).is_some()
}

/// Splits `subject` at the leftmost occurrence of `delimiter`: what stands
/// before it and what stands after it. `None` where the subject lacks the
/// delimiter.
pub fn split_text_once(subject: &str, delimiter: &str) -> (pair: Option<(String, String)>)
    ensures
        pair.deep_view() == halves(subject@, delimiter@),
        pair is Some <==> contains(subject@, delimiter@),
        pair matches Some((head, tail)) ==> {
            &&& head@ + delimiter@ + tail@ == subject@
            &&& none_before(subject@, delimiter@, head@.len() as int)
        },
{
    let text = chars_of(subject);
    let needle = chars_of(delimiter);
    match find_in(&text, &needle) {
        None => None,
        Some(at) => {
            proof {
                lemma_first_occurrence(text@, needle@);
                lemma_first_occurrence_unique(
                    text@,
                    needle@,
                    at as int,
                    first_occurrence(text@, needle@),
                );
                lemma_halves_rejoin(text@, needle@);
            }
            let end = text.len();
            let head = subject.substring_char(0, at).to_owned();
            let tail = subject.substring_char(at + needle.len(), end).to_owned();
            Some((head, tail))
        },
    }
}

/// The segments for the empty delimiter: an empty one, every character of
/// the subject, and an empty one again.
fn split_between_characters(subject: &str, text: &Vec<char>) -> (parts: Vec<String>)
    requires
        text@ == subject@,
    ensures
        parts.deep_view() == seq![Seq::<char>::empty()] + characters(subject@) + seq![
            Seq::<char>::empty(),
        ],
{
    let mut parts: Vec<String> = Vec::new();
    parts.push(String::new());
    let mut i: usize = 0;
    while i < text.len()
        invariant
            i <= text.len(),
            text@ == subject@,
            parts.deep_view() == seq![Seq::<char>::empty()] + characters(text@).take(i as int),
        decreases text.len() - i,
    {
        let ghost before = parts.deep_view();
        let unit = subject.substring_char(i, i + 1).to_owned();
        parts.push(unit);
        assert(unit@ =~= seq![text@[i as int]]);
        assert(parts.deep_view() =~= before.push(unit@));
        i += 1;
    }
    parts.push(String::new());
    assert(characters(text@).take(text.len() as int) =~= characters(text@));
    parts
}

/// Splits `subject` on every occurrence of `delimiter`, from left to right,
/// and gives the segments in order. Empty segments are kept; a subject
/// without the delimiter comes back as one segment.
pub fn split_text(subject: &str, delimiter: &str) -> (parts: Vec<String>)
    ensures
        parts.deep_view() == segments(subject@, delimiter@),
        join(parts.deep_view(), delimiter@) == subject@,
        parts.len() >= 2 <==> contains(subject@, delimiter@),
{
    let text = chars_of(subject);
    let needle = chars_of(delimiter);
    proof {
        lemma_join_segments(text@, needle@);
        if contains(text@, needle@) {
            lemma_segments_of_contained(text@, needle@);
        } else {
            if needle@.len() == 0 {
                lemma_empty_needle_occurs(text@, needle@, 0);
            }
            lemma_segments_absent(text@, needle@);
        }
    }
    if needle.len() == 0 {
        return split_between_characters(subject, &text);
    }
    let mut parts: Vec<String> = Vec::new();
    let mut start: usize = 0;
    let mut at: usize = 0;
    assert(text@.skip(0) =~= text@);
    assert(parts.deep_view() + segments(text@, needle@) =~= segments(text@, needle@));
    while text.len() - at >= needle.len()
        invariant
            0 < needle.len(),
            text@ == subject@,
            start <= at <= text.len(),
            forall|k: int| start <= k < at ==> !occurs_at(text@, needle@, k),
            parts.deep_view() + segments(text@.skip(start as int), needle@) == segments(
                text@,
                needle@,
            ),
        decreases text.len() - at,
    {
        if matches_at(&text, &needle, at) {
            let ghost before = parts.deep_view();
            let ghost rest = text@.skip(start as int);
            let piece = subject.substring_char(start, at).to_owned();
            parts.push(piece);
            proof {
                assert forall|k: int| 0 <= k < at - start implies !occurs_at(rest, needle@, k) by {
                    lemma_occurs_at_skip(text@, needle@, start as int, k);
                }
                lemma_occurs_at_skip(text@, needle@, start as int, at - start);
                lemma_segments_step(rest, needle@, at - start);
                assert(rest.take(at - start) =~= piece@);
                assert(rest.skip(at - start + needle.len()) =~= text@.skip(at + needle.len()));
                assert(parts.deep_view() + segments(text@.skip(at + needle.len()), needle@)
                    =~= before + segments(rest, needle@));
            }
            at += needle.len();
            start = at;
        } else {
            at += 1;
        }
    }
    let ghost before = parts.deep_view();
    let ghost rest = text@.skip(start as int);
    let piece = subject.substring_char(start, text.len()).to_owned();
    parts.push(piece);
    proof {
        assert forall|k: int| !occurs_at(rest, needle@, k) by {
            if 0 <= k {
                lemma_occurs_at_skip(text@, needle@, start as int, k);
            }
        }
        lemma_segments_absent(rest, needle@);
        assert(rest =~= piece@);
        assert(parts.deep_view() =~= before.push(piece@));
        assert(parts.deep_view() =~= before + segments(rest, needle@));
    }
    parts
}

} // verus!

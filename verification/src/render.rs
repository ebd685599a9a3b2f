//! The rendering pass: from the segments of a path to the text that is shown.

use vstd::prelude::*;
use crate::segment::{
    abbreviate_segment, is_root_marker, spec_abbreviation, spec_root_marker, spec_separator,
};

verus! {

/// The separator that is written in front of the segment at position `index`
/// (counted from zero): every segment but the first is preceded by one.
pub open spec fn spec_lead(index: int) -> Seq<char> {
    if index > 0 {
        spec_separator()
    } else {
        Seq::empty()
    }
}

/// What the segment at position `index` itself becomes.
///
/// The root marker is written out only where it is the whole path; in front of
/// other segments the separator that precedes the next segment stands for it.
/// The last segment is kept in full, every other segment is cut down.
pub open spec fn spec_body(segments: Seq<Seq<char>>, index: int) -> Seq<char> {
    let segment = segments[index];
    if segment == spec_root_marker() {
        if segments.len() == 1 {
            spec_root_marker()
        } else {
            Seq::empty()
        }
    } else if index == segments.len() - 1 {
        segment
    } else {
        spec_abbreviation(segment)
    }
}

/// What each segment of a path becomes, in order.
pub open spec fn spec_bodies(segments: Seq<Seq<char>>) -> Seq<Seq<char>> {
    Seq::new(segments.len(), |index: int| spec_body(segments, index))
}

/// The text that the segment at position `index` adds to the rendering.
/// An empty segment adds nothing, not even a separator.
pub open spec fn spec_contribution(segments: Seq<Seq<char>>, index: int) -> Seq<char> {
    if segments[index].len() == 0 {
        Seq::empty()
    } else {
        spec_lead(index) + spec_body(segments, index)
    }
}

/// The rendering of the first `upto` segments of `segments`, each with the
/// role it has in the whole sequence.
pub open spec fn spec_render_upto(segments: Seq<Seq<char>>, upto: int) -> Seq<char>
    decreases upto,
{
    if upto <= 0 {
        Seq::empty()
    } else {
        spec_render_upto(segments, upto - 1) + spec_contribution(segments, upto - 1)
    }
}

/// The rendering of a path: what its segments add, from left to right.
pub open spec fn spec_render(segments: Seq<Seq<char>>) -> Seq<char> {
    spec_render_upto(segments, segments.len() as int)
}

/// The length budget of the first `upto` segments: for each of them its
/// length in characters and one more for a separator.
pub open spec fn spec_total_length_upto(segments: Seq<Seq<char>>, upto: int) -> nat
    decreases upto,
{
    if upto <= 0 {
        0
    } else {
        spec_total_length_upto(segments, upto - 1) + segments[upto - 1].len() + 1
    }
}

/// The length budget of a path: the sum over its segments of the segment's
/// length in characters plus one.
pub open spec fn spec_total_length(segments: Seq<Seq<char>>) -> nat {
    spec_total_length_upto(segments, segments.len() as int)
}

/// The budget grows with the number of segments counted.
pub proof fn lemma_total_length_monotonic(segments: Seq<Seq<char>>, fewer: int, more: int)
    requires
        fewer <= more,
    ensures
        spec_total_length_upto(segments, fewer) <= spec_total_length_upto(segments, more),
    decreases more - fewer,
{
    if fewer < more {
        lemma_total_length_monotonic(segments, fewer, more - 1);
    }
}

/// Counts the segments of `path` and adds up its length budget: for each
/// segment its length in characters and one more. The budget has to fit into
/// a `usize`.
pub fn count_and_total_length(path: &Vec<String>) -> (totals: (usize, usize))
    requires
        spec_total_length(path.deep_view()) <= usize::MAX,
    ensures
        totals.0 == path.len(),
        totals.1 == spec_total_length(path.deep_view()),
{
    let ghost segments = path.deep_view();
    let mut count: usize = 0;
    let mut total_length: usize = 0;
    while count < path.len()
        invariant
            segments == path.deep_view(),
            count <= path.len(),
            total_length == spec_total_length_upto(segments, count as int),
            spec_total_length(segments) <= usize::MAX,
        decreases path.len() - count,
    {
        let elem_len: usize = path[count].as_str().unicode_len();
        proof {
            lemma_total_length_monotonic(segments, count + 1, segments.len() as int);
        }
        count += 1;
        total_length += 1;
        total_length += elem_len;
    }
    (count, total_length)
}

/// Renders the segments of a path: a separator between segments, every
/// segment but the last cut down to its short form, the last one in full.
///
/// A root marker is written only where it is the whole path, and an empty
/// segment is passed over, though it counts as a position.
pub fn render_segments(segments: &Vec<String>) -> (shown: String)
    ensures
        shown@ == spec_render(segments.deep_view()),
{
    let ghost texts = segments.deep_view();
    let count: usize = segments.len();
    let mut shown = String::new();
    let mut index: usize = 0;
    while index < count
        invariant
            texts == segments.deep_view(),
            count == segments.len(),
            index <= count,
            shown@ == spec_render_upto(texts, index as int),
        decreases count - index,
    {
        let segment: &str = segments[index].as_str();
        proof {
            reveal_strlit("/");
        }
        if !segment.is_empty() {
            if index > 0 {
                shown.append("/");
            }
            if is_root_marker(segment) {
                if count == 1 {
                    shown.append("/");
                }
            } else if index + 1 == count {
                shown.append(segment);
            } else {
                let short = abbreviate_segment(segment);
                shown.append(short.as_str());
            }
        }
        index += 1;
    }
    shown
}

} // verus!

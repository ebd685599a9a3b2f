//! What holds of every abbreviation.

use vstd::prelude::*;
use crate::abbreviator::spec_abbreviate;
use crate::home::{spec_is_under, spec_substitute_home};
use crate::render::{
    spec_bodies, spec_contribution, spec_lead, spec_render, spec_render_upto,
    spec_total_length, spec_total_length_upto,
};
use crate::segment::{SEPARATOR, spec_abbreviation, spec_root_marker, spec_separator};
use crate::split::{
    lemma_empty_path_has_no_segments, lemma_segments_well_formed, spec_join, spec_segments,
};

verus! {

/// A segment of a single character is its own short form.
pub proof fn lemma_single_character_kept(segment: Seq<char>)
    requires
        segment.len() == 1,
    ensures
        spec_abbreviation(segment) == segment,
{
}

/// The short form of a segment is never longer than two characters, never
/// empty unless the segment is, and always the beginning of the segment.
pub proof fn lemma_abbreviation_is_short_prefix(segment: Seq<char>)
    ensures
        spec_abbreviation(segment).is_prefix_of(segment),
        spec_abbreviation(segment).len() <= 2,
        segment.len() > 0 ==> spec_abbreviation(segment).len() >= 1,
{
}

/// A path of one segment is shown as that segment, whole.
pub proof fn lemma_render_single(name: Seq<char>)
    ensures
        spec_render(seq![name]) == name,
{
    let segments = seq![name];
    assert(spec_render(segments) == spec_render_upto(segments, 0) + spec_contribution(
        segments,
        0,
    ));
}

/// A path of the root and one more segment is shown as the separator and
/// that segment, whole.
pub proof fn lemma_render_rooted_single(name: Seq<char>)
    requires
        name.len() > 0,
        name != spec_root_marker(),
    ensures
        spec_render(seq![spec_root_marker(), name]) == spec_separator() + name,
{
    let segments = seq![spec_root_marker(), name];
    assert(spec_render_upto(segments, 1) == spec_render_upto(segments, 0) + spec_contribution(
        segments,
        0,
    ));
}

/// Where no segment is empty, the rendering is what the segments become,
/// joined by separators.
pub proof fn lemma_render_is_join(segments: Seq<Seq<char>>)
    requires
        forall|i: int| 0 <= i < segments.len() ==> (#[trigger] segments[i]).len() > 0,
    ensures
        spec_render(segments) == spec_join(spec_bodies(segments)),
{
    lemma_render_upto_is_join(segments, segments.len() as int);
    assert(spec_bodies(segments).take(segments.len() as int) == spec_bodies(segments));
}

/// Where no segment is empty, the rendering of the first segments is what
/// they become, joined by separators.
pub proof fn lemma_render_upto_is_join(segments: Seq<Seq<char>>, upto: int)
    requires
        forall|i: int| 0 <= i < segments.len() ==> (#[trigger] segments[i]).len() > 0,
        0 <= upto <= segments.len(),
    ensures
        spec_render_upto(segments, upto) == spec_join(spec_bodies(segments).take(upto)),
    decreases upto,
{
    if upto > 0 {
        let bodies = spec_bodies(segments);
        lemma_render_upto_is_join(segments, upto - 1);
        assert(bodies.take(upto).drop_last() == bodies.take(upto - 1));
    }
}

/// The rendering never needs more room than the length budget of its
/// segments.
pub proof fn lemma_render_within_budget(segments: Seq<Seq<char>>)
    ensures
        spec_render(segments).len() <= spec_total_length(segments),
{
    lemma_render_upto_within_budget(segments, segments.len() as int);
}

/// The rendering of the first segments never needs more room than their
/// length budget.
pub proof fn lemma_render_upto_within_budget(segments: Seq<Seq<char>>, upto: int)
    requires
        upto <= segments.len(),
    ensures
        spec_render_upto(segments, upto).len() <= spec_total_length_upto(segments, upto),
    decreases upto,
{
    if upto > 0 {
        lemma_render_upto_within_budget(segments, upto - 1);
        lemma_abbreviation_is_short_prefix(segments[upto - 1]);
    }
}

/// The rendering of the first segments of a path does not depend on what
/// follows them, as long as something does: each of them is then an inner
/// segment.
pub proof fn lemma_render_upto_stable(
    shorter: Seq<Seq<char>>,
    longer: Seq<Seq<char>>,
    upto: int,
)
    requires
        shorter.is_prefix_of(longer),
        upto < shorter.len(),
    ensures
        spec_render_upto(longer, upto) == spec_render_upto(shorter, upto),
    decreases upto,
{
    if upto > 0 {
        lemma_render_upto_stable(shorter, longer, upto - 1);
    }
}

/// Appending a segment to a path changes the rendering of one segment only:
/// the one that used to be last. The segments before it are rendered as they
/// were. The former last segment, shown whole until then, is cut down to its
/// short form; where it is the root marker, it gives way to the separator
/// that now follows. The new segment follows a separator and is shown whole.
pub proof fn lemma_append_segment(segments: Seq<Seq<char>>, extra: Seq<char>)
    requires
        segments.len() >= 1,
    ensures
        ({
            let longer = segments.push(extra);
            let inner = segments.len() - 1;
            let last = segments.last();
            let before = spec_render_upto(segments, inner);
            &&& spec_render(segments) == before + spec_contribution(segments, inner)
            &&& spec_render(longer) == before + spec_contribution(longer, inner)
                + spec_contribution(longer, inner + 1)
            &&& last.len() > 0 && last != spec_root_marker() ==> {
                &&& spec_contribution(segments, inner) == spec_lead(inner) + last
                &&& spec_contribution(longer, inner) == spec_lead(inner) + spec_abbreviation(
                    last,
                )
            }
            &&& last == spec_root_marker() ==> {
                &&& spec_contribution(segments, inner) == spec_lead(inner) + if inner == 0 {
                    spec_root_marker()
                } else {
                    Seq::empty()
                }
                &&& spec_contribution(longer, inner) == spec_lead(inner)
            }
            &&& extra.len() > 0 && extra != spec_root_marker() ==> spec_contribution(
                longer,
                inner + 1,
            ) == spec_separator() + extra
        }),
{
    let count = segments.len() as int;
    let longer = segments.push(extra);
    lemma_render_upto_stable(segments, longer, count - 1);
    assert(spec_render(longer) == spec_render_upto(longer, count) + spec_contribution(
        longer,
        count,
    ));
}

/// No home, no substitution: a home path without segments leaves every path
/// as it is.
pub proof fn lemma_empty_home_never_matches(path: Seq<Seq<char>>)
    ensures
        !spec_is_under(path, Seq::empty()),
        spec_substitute_home(path, Seq::empty()) == path,
{
}

/// With the empty path for a home, nothing is substituted: the path is
/// rendered as it is.
pub proof fn lemma_empty_home_changes_nothing(input_path: Seq<char>)
    ensures
        spec_abbreviate(input_path, Seq::empty()) == spec_render(spec_segments(input_path)),
{
    lemma_empty_path_has_no_segments();
}

/// A home that the path does not lie under changes nothing either: the path
/// is shown as it is with the empty path for a home.
pub proof fn lemma_unmatched_home_changes_nothing(input_path: Seq<char>, home_path: Seq<char>)
    requires
        !spec_is_under(spec_segments(input_path), spec_segments(home_path)),
    ensures
        spec_abbreviate(input_path, home_path) == spec_abbreviate(input_path, Seq::empty()),
{
    lemma_empty_path_has_no_segments();
}

/// A path that is the root alone is shown as the separator, unless the root
/// is the home directory.
pub proof fn lemma_root_alone(input_path: Seq<char>, home_path: Seq<char>)
    requires
        spec_segments(input_path) == seq![spec_root_marker()],
        spec_segments(home_path) != seq![spec_root_marker()],
    ensures
        spec_abbreviate(input_path, home_path) == spec_separator(),
{
    let path = spec_segments(input_path);
    let home = spec_segments(home_path);
    if spec_is_under(path, home) {
        assert(home =~= seq![spec_root_marker()]);
    }
    lemma_render_single(spec_root_marker());
}

/// A path of exactly one segment under the root, outside the home directory,
/// is shown as the separator and that segment, whole.
pub proof fn lemma_single_segment(input_path: Seq<char>, home_path: Seq<char>, name: Seq<char>)
    requires
        spec_segments(input_path) == seq![spec_root_marker(), name],
        !spec_is_under(spec_segments(input_path), spec_segments(home_path)),
    ensures
        spec_abbreviate(input_path, home_path) == spec_separator() + name,
{
    lemma_segments_well_formed(input_path);
    assert(name[0] != SEPARATOR);
    lemma_render_rooted_single(name);
}

/// Two paths of which the longer has the segments of the shorter and one
/// more are shown alike up to the segment that is last in the shorter: the
/// segments before it are rendered the same in both, that segment changes
/// from its whole text to its short form, and the longer path ends in a
/// separator and its own last segment, whole. This holds unless the longer
/// path is the home directory itself.
pub proof fn lemma_child_path(shorter: Seq<char>, longer: Seq<char>, home_path: Seq<char>)
    requires
        spec_segments(shorter).len() >= 1,
        spec_segments(longer) == spec_segments(shorter).push(spec_segments(longer).last()),
        spec_segments(home_path) != spec_segments(longer),
    ensures
        ({
            let name = spec_segments(longer).last();
            let shown = spec_substitute_home(spec_segments(shorter), spec_segments(home_path));
            let inner = shown.len() - 1;
            let last = shown.last();
            let before = spec_render_upto(shown, inner);
            &&& shown.len() >= 1
            &&& spec_abbreviate(shorter, home_path) == before + spec_contribution(shown, inner)
            &&& spec_abbreviate(longer, home_path) == before + spec_contribution(
                shown.push(name),
                inner,
            ) + spec_separator() + name
            &&& last != spec_root_marker() ==> {
                &&& spec_contribution(shown, inner) == spec_lead(inner) + last
                &&& spec_contribution(shown.push(name), inner) == spec_lead(inner)
                    + spec_abbreviation(last)
            }
        }),
{
    let path = spec_segments(shorter);
    let home = spec_segments(home_path);
    let name = spec_segments(longer).last();
    let shown = spec_substitute_home(path, home);
    lemma_segments_well_formed(shorter);
    lemma_segments_well_formed(longer);
    assert(name[0] != SEPARATOR);
    if spec_is_under(path, home) {
        assert(spec_substitute_home(path.push(name), home) =~= shown.push(name));
    } else if spec_is_under(path.push(name), home) {
        // A home that `path` is not under can only be the longer path itself.
        assert(home =~= path.push(name));
    }
    lemma_append_segment(shown, name);
}

} // verus!

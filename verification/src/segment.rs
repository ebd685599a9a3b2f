//! One segment of a path, and how it is cut down.

use vstd::prelude::*;

verus! {

/// The character that separates the segments of a path.
pub const SEPARATOR: char = '/';

/// The first character of the name of a hidden entry.
pub const HIDDEN_PREFIX: char = '.';

/// The character that stands for the home directory.
pub const HOME_CHAR: char = '~';

/// The text of one separator.
pub open spec fn spec_separator() -> Seq<char> {
    seq![SEPARATOR]
}

/// The segment that names the filesystem root: it is written as a separator.
pub open spec fn spec_root_marker() -> Seq<char> {
    seq![SEPARATOR]
}

/// The segment that stands for the current directory.
pub open spec fn spec_current_marker() -> Seq<char> {
    seq![HIDDEN_PREFIX]
}

/// The segment that replaces a leading home directory.
pub open spec fn spec_home_marker() -> Seq<char> {
    seq![HOME_CHAR]
}

/// How many characters of `segment` its short form keeps: one, or two when the
/// segment starts with a dot, and never more than the segment has.
pub open spec fn spec_kept_len(segment: Seq<char>) -> int {
    if segment.len() == 0 {
        0
    } else if segment[0] == HIDDEN_PREFIX && segment.len() >= 2 {
        2
    } else {
        1
    }
}

/// The short form of a segment: its first `spec_kept_len` characters.
pub open spec fn spec_abbreviation(segment: Seq<char>) -> Seq<char> {
    segment.take(spec_kept_len(segment))
}

/// Whether `segment` is the root marker.
pub fn is_root_marker(segment: &str) -> (root: bool)
    ensures
        root == (segment@ == spec_root_marker()),
{
    let len: usize = segment.unicode_len();
    if len == 1 {
        let first: char = segment.get_char(0);
        assert(segment@ == seq![first]);
        first == SEPARATOR
    } else {
        false
    }
}

/// Cuts a segment down to its short form.
///
/// A segment of one character is returned as it is, and so is the empty
/// segment.
pub fn abbreviate_segment(segment: &str) -> (short: String)
    ensures
        short@ == spec_abbreviation(segment@),
        segment@.len() <= 1 ==> short@ == segment@,
        short@.is_prefix_of(segment@),
{
    let len: usize = segment.unicode_len();
    if len == 0 {
        return String::new();
    }
    let first: char = segment.get_char(0);
    let kept: usize = if first == HIDDEN_PREFIX && len >= 2 { 2 } else { 1 };
    segment.substring_char(0, kept).to_owned()
}

/// Pushing a segment onto a vector of segments pushes its text onto the
/// texts of the vector.
pub proof fn lemma_texts_push(before: Vec<String>, after: Vec<String>, segment: String)
    requires
        after@ == before@.push(segment),
    ensures
        after.deep_view() == before.deep_view().push(segment@),
{
}

} // verus!

//! The abbreviation of a whole path.

use vstd::prelude::*;
use crate::home::{home_dir_text, spec_substitute_home, substitute_home};
use crate::render::{render_segments, spec_render};
use crate::split::{lemma_empty_path_has_no_segments, spec_segments, split_segments};

verus! {

/// The text of a home path that may be absent: an absent home is the empty
/// path.
pub open spec fn spec_home_text(home_path: Option<&str>) -> Seq<char> {
    match home_path {
        Some(home) => home@,
        None => Seq::empty(),
    }
}

/// The abbreviated rendering of `input_path` for a user whose home directory
/// is `home_path`: both are split into segments, a leading home is replaced by
/// the home marker, and the result is rendered.
pub open spec fn spec_abbreviate(input_path: Seq<char>, home_path: Seq<char>) -> Seq<char> {
    spec_render(spec_substitute_home(spec_segments(input_path), spec_segments(home_path)))
}

/// Abbreviates `input_path` for display. `home_path` is the home directory of
/// the user, or `None` where there is none; then nothing is substituted.
pub fn abbreviate(input_path: &str, home_path: Option<&str>) -> (shown: String)
    ensures
        shown@ == spec_abbreviate(input_path@, spec_home_text(home_path)),
{
    let path = split_segments(input_path);
    let home = match home_path {
        Some(home) => split_segments(home),
        None => Vec::new(),
    };
    proof {
        lemma_empty_path_has_no_segments();
    }
    let visible = substitute_home(path, &home);
    render_segments(&visible)
}

/// Abbreviates `input_path` for the invoking user, whose home directory is
/// looked up.
///
/// Which home is found depends on the environment, so the result is the
/// abbreviation of `input_path` for some home path.
pub fn abbreviate_to_length(input_path: &str) -> (shown: String)
    ensures
        exists|home_path: Seq<char>| shown@ == #[trigger] spec_abbreviate(input_path@, home_path),
{
    match home_dir_text() {
        Some(home) => abbreviate(input_path, Some(home.as_str())),
        None => abbreviate(input_path, None),
    }
}

} // verus!

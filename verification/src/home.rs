//! The home directory: where it comes from, and how a path under it is
//! rewritten to start with `~`.

use vstd::prelude::*;
use crate::segment::{lemma_texts_push, spec_home_marker};
use crate::split::{spec_is_name, spec_is_plain, spec_well_formed};

verus! {

/// Whether `path` lies under `home`: `home` has at least one segment, and the
/// segments of `home` are the first segments of `path`, one for one. A home of
/// no segments has nothing under it.
pub open spec fn spec_is_under(path: Seq<Seq<char>>, home: Seq<Seq<char>>) -> bool {
    home.len() > 0 && home.is_prefix_of(path)
}

/// The segments that are shown for `path`: under `home`, the home marker and
/// then what follows the home; elsewhere, `path` itself.
pub open spec fn spec_substitute_home(path: Seq<Seq<char>>, home: Seq<Seq<char>>) -> Seq<
    Seq<char>,
> {
    if spec_is_under(path, home) {
        seq![spec_home_marker()] + path.skip(home.len() as int)
    } else {
        path
    }
}

/// The segments that are shown for a well-formed path are well formed: the
/// home marker is a plain name, and what follows it followed the first
/// segment before.
pub proof fn lemma_substitution_well_formed(path: Seq<Seq<char>>, home: Seq<Seq<char>>)
    requires
        spec_well_formed(path),
    ensures
        spec_well_formed(spec_substitute_home(path, home)),
{
    let shown = spec_substitute_home(path, home);
    if spec_is_under(path, home) {
        assert forall|i: int| 1 <= i < shown.len() implies spec_is_name(#[trigger] shown[i])
            && spec_is_plain(shown[i]) by {
            assert(shown[i] == path[home.len() + i - 1]);
        }
    }
}

/// Asks `dirs::home_dir` for the home directory of the invoking user and hands
/// it on as text.
///
/// Nothing is claimed of the answer: it depends on the environment of the
/// process. `None` stands for a home that could not be determined and for one
/// whose name is not valid Unicode; no path given as text lies under the
/// latter.
#[verifier::external_body]
pub(crate) fn home_dir_text() -> (home: Option<String>) {
    let home = dirs::home_dir()?;
    home.into_os_string().into_string().ok()
}

/// Tells whether the segments of `path` begin with those of `home`.
pub fn is_under_home(path: &Vec<String>, home: &Vec<String>) -> (under: bool)
    ensures
        under == spec_is_under(path.deep_view(), home.deep_view()),
{
    if home.len() == 0 || home.len() > path.len() {
        return false;
    }
    let ghost path_texts = path.deep_view();
    let ghost home_texts = home.deep_view();
    let mut index: usize = 0;
    while index < home.len()
        invariant
            path_texts == path.deep_view(),
            home_texts == home.deep_view(),
            index <= home.len() <= path.len(),
            forall|k: int| 0 <= k < index ==> path_texts[k] == home_texts[k],
        decreases home.len() - index,
    {
        if path[index] != home[index] {
            assert(home_texts[index as int] != path_texts.subrange(
                0,
                home_texts.len() as int,
            )[index as int]);
            return false;
        }
        index += 1;
    }
    true
}

/// Replaces a leading home directory by the home marker. What was well
/// formed stays so.
pub fn substitute_home(path: Vec<String>, home: &Vec<String>) -> (shown: Vec<String>)
    ensures
        shown.deep_view() == spec_substitute_home(path.deep_view(), home.deep_view()),
        spec_well_formed(path.deep_view()) ==> spec_well_formed(shown.deep_view()),
{
    proof {
        if spec_well_formed(path.deep_view()) {
            lemma_substitution_well_formed(path.deep_view(), home.deep_view());
        }
    }
    if !is_under_home(&path, home) {
        return path;
    }
    let ghost path_texts = path.deep_view();
    let ghost skipped = home.len() as int;
    let mut shown: Vec<String> = Vec::new();
    shown.push("~".to_owned());
    proof {
        reveal_strlit("~");
        assert("~"@ =~= spec_home_marker());
    }
    let mut index: usize = home.len();
    while index < path.len()
        invariant
            path_texts == path.deep_view(),
            skipped == home.len(),
            skipped <= index <= path.len(),
            shown.deep_view() == seq![spec_home_marker()] + path_texts.subrange(
                skipped,
                index as int,
            ),
        decreases path.len() - index,
    {
        let ghost before = shown;
        shown.push(path[index].clone());
        proof {
            lemma_texts_push(before, shown, path@[index as int]);
        }
        index += 1;
    }
    shown
}

} // verus!

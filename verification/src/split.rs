//! From the text of a path to its segments.
//!
//! The separators cut a path into pieces. A piece that is empty (between two
//! adjacent separators, or after a trailing one) or that is a single dot names
//! nothing and is left out. What remains are the named segments, in order. In
//! front of them stands the root marker where the path starts with a
//! separator, or a single dot where the path starts with a dot piece. This is
//! how `std::path::Path` reads a Unix path into its components.

use vstd::prelude::*;
use crate::segment::{
    HIDDEN_PREFIX, SEPARATOR, lemma_texts_push, spec_current_marker, spec_root_marker,
};

verus! {

/// The pieces of `text` between its separators, empty ones included: a text
/// with `k` separators has `k + 1` pieces.
pub open spec fn spec_pieces(text: Seq<char>) -> Seq<Seq<char>>
    decreases text.len(),
{
    if text.len() == 0 {
        seq![Seq::empty()]
    } else {
        let before = spec_pieces(text.drop_last());
        if text.last() == SEPARATOR {
            before.push(Seq::empty())
        } else {
            before.drop_last().push(before.last().push(text.last()))
        }
    }
}

/// The text that the pieces came from: the pieces with one separator between
/// each two neighbours.
pub open spec fn spec_join(pieces: Seq<Seq<char>>) -> Seq<char>
    decreases pieces.len(),
{
    if pieces.len() == 0 {
        Seq::empty()
    } else if pieces.len() == 1 {
        pieces[0]
    } else {
        spec_join(pieces.drop_last()).push(SEPARATOR) + pieces.last()
    }
}

/// Whether `text` is free of separators.
pub open spec fn spec_is_plain(text: Seq<char>) -> bool {
    forall|k: int| 0 <= k < text.len() ==> text[k] != SEPARATOR
}

/// Whether a piece names an entry: it is neither empty nor a single dot.
pub open spec fn spec_is_name(piece: Seq<char>) -> bool {
    piece.len() > 0 && piece != spec_current_marker()
}

/// The pieces that name an entry, in order.
pub open spec fn spec_names(pieces: Seq<Seq<char>>) -> Seq<Seq<char>> {
    pieces.filter(|piece: Seq<char>| spec_is_name(piece))
}

/// Whether the path starts at the filesystem root.
pub open spec fn spec_is_rooted(path: Seq<char>) -> bool {
    path.len() > 0 && path[0] == SEPARATOR
}

/// Whether the first piece of the path is a single dot.
pub open spec fn spec_starts_at_current(path: Seq<char>) -> bool {
    path.len() > 0 && path[0] == HIDDEN_PREFIX && (path.len() == 1 || path[1] == SEPARATOR)
}

/// The marker segment in front of the named segments, if the path has one.
pub open spec fn spec_leading(path: Seq<char>) -> Seq<Seq<char>> {
    if spec_is_rooted(path) {
        seq![spec_root_marker()]
    } else if spec_starts_at_current(path) {
        seq![spec_current_marker()]
    } else {
        Seq::empty()
    }
}

/// The segments of a path: its leading marker, if any, and its named pieces.
pub open spec fn spec_segments(path: Seq<char>) -> Seq<Seq<char>> {
    spec_leading(path) + spec_names(spec_pieces(path))
}

/// Whether `segments` can be the segments of a path: none of them is empty,
/// and each one after the first is a plain name. The first may also be the
/// root marker or a single dot.
pub open spec fn spec_well_formed(segments: Seq<Seq<char>>) -> bool {
    &&& forall|i: int| 0 <= i < segments.len() ==> (#[trigger] segments[i]).len() > 0
    &&& forall|i: int|
        1 <= i < segments.len() ==> spec_is_name(#[trigger] segments[i]) && spec_is_plain(
            segments[i],
        )
    &&& segments.len() > 0 ==> segments[0] == spec_root_marker() || spec_is_plain(segments[0])
}

/// Splits the text of a path into its segments.
pub fn split_segments(path: &str) -> (segments: Vec<String>)
    ensures
        segments.deep_view() == spec_segments(path@),
        spec_well_formed(segments.deep_view()),
{
    let len: usize = path.unicode_len();
    let mut segments: Vec<String> = Vec::new();
    proof {
        lemma_segments_well_formed(path@);
        reveal_strlit("/");
        reveal_strlit(".");
        assert("/"@ =~= spec_root_marker());
        assert("."@ =~= spec_current_marker());
    }
    if len > 0 {
        let first: char = path.get_char(0);
        if first == SEPARATOR {
            let ghost before = segments;
            segments.push("/".to_owned());
            proof {
                lemma_texts_push(before, segments, segments@[0]);
            }
        } else if first == HIDDEN_PREFIX && (len == 1 || path.get_char(1) == SEPARATOR) {
            let ghost before = segments;
            segments.push(".".to_owned());
            proof {
                lemma_texts_push(before, segments, segments@[0]);
            }
        }
    }
    // The piece that is open at `at` began at `start`; `only_dot` tells
    // whether it is a single dot so far.
    let mut start: usize = 0;
    let mut at: usize = 0;
    let mut only_dot: bool = false;
    proof {
        lemma_names_empty();
    }
    for c in it: path.chars()
        invariant
            it.seq() == path@,
            len == path@.len(),
            at == it.index(),
            start <= at <= len,
            spec_pieces(path@.take(at as int)).len() >= 1,
            spec_pieces(path@.take(at as int)).last() == path@.subrange(start as int, at as int),
            only_dot == (path@.subrange(start as int, at as int) == spec_current_marker()),
            segments.deep_view() == spec_leading(path@) + spec_names(
                spec_pieces(path@.take(at as int)).drop_last(),
            ),
    {
        let ghost seen = path@.take(at as int);
        let ghost pieces = spec_pieces(seen);
        let ghost open = path@.subrange(start as int, at as int);
        proof {
            assert(path@.take(at + 1) == seen.push(c));
            lemma_pieces_push(seen, c);
            assert(pieces == pieces.drop_last().push(pieces.last()));
            lemma_names_push(pieces.drop_last(), pieces.last());
        }
        if c == SEPARATOR {
            if at > start && !only_dot {
                let ghost before = segments;
                segments.push(path.substring_char(start, at).to_owned());
                proof {
                    lemma_texts_push(before, segments, segments@[segments.len() - 1]);
                }
            }
            start = at + 1;
            only_dot = false;
            proof {
                assert(spec_pieces(seen.push(c)).drop_last() == pieces);
                assert(path@.subrange(at + 1, at + 1).len() == 0);
            }
        } else {
            only_dot = at == start && c == HIDDEN_PREFIX;
            proof {
                assert(spec_pieces(seen.push(c)).drop_last() == pieces.drop_last());
                assert(path@.subrange(start as int, at + 1) == open.push(c));
                assert(open.push(c).last() == c);
            }
        }
        at += 1;
    }
    proof {
        let pieces = spec_pieces(path@);
        assert(path@.take(at as int) == path@);
        assert(pieces == pieces.drop_last().push(pieces.last()));
        lemma_names_push(pieces.drop_last(), pieces.last());
    }
    if at > start && !only_dot {
        let ghost before = segments;
        segments.push(path.substring_char(start, at).to_owned());
        proof {
            lemma_texts_push(before, segments, segments@[segments.len() - 1]);
        }
    }
    segments
}

/// A text always has a last piece: the one that is still open at its end.
pub proof fn lemma_pieces_nonempty(text: Seq<char>)
    ensures
        spec_pieces(text).len() >= 1,
    decreases text.len(),
{
    if text.len() > 0 {
        lemma_pieces_nonempty(text.drop_last());
    }
}

/// What one more character does to the pieces: a separator closes the open
/// piece and opens an empty one, any other character extends the open piece.
pub proof fn lemma_pieces_push(text: Seq<char>, c: char)
    ensures
        spec_pieces(text).len() >= 1,
        c == SEPARATOR ==> spec_pieces(text.push(c)) == spec_pieces(text).push(Seq::empty()),
        c != SEPARATOR ==> spec_pieces(text.push(c)) == spec_pieces(text).drop_last().push(
            spec_pieces(text).last().push(c),
        ),
{
    lemma_pieces_nonempty(text);
    assert(text.push(c).drop_last() == text);
}

/// The pieces of a text hold no separator, and joined by separators they give
/// the text back: the pieces are exactly what stands between the separators.
pub proof fn lemma_pieces_partition(text: Seq<char>)
    ensures
        spec_pieces(text).len() >= 1,
        forall|j: int|
            0 <= j < spec_pieces(text).len() ==> spec_is_plain(#[trigger] spec_pieces(text)[j]),
        spec_join(spec_pieces(text)) == text,
    decreases text.len(),
{
    if text.len() > 0 {
        let shorter = text.drop_last();
        let before = spec_pieces(shorter);
        let after = spec_pieces(text);
        lemma_pieces_partition(shorter);
        assert(text == shorter.push(text.last()));
        if text.last() == SEPARATOR {
            assert(after.drop_last() == before);
        } else {
            assert(after.drop_last() == before.drop_last());
        }
    }
}

/// What one more piece does to the named segments.
pub proof fn lemma_names_push(pieces: Seq<Seq<char>>, piece: Seq<char>)
    ensures
        spec_names(pieces.push(piece)) == if spec_is_name(piece) {
            spec_names(pieces).push(piece)
        } else {
            spec_names(pieces)
        },
{
    reveal(Seq::filter);
    assert(pieces.push(piece).drop_last() == pieces);
}

/// No pieces, no named segments.
pub proof fn lemma_names_empty()
    ensures
        spec_names(Seq::empty()) == Seq::<Seq<char>>::empty(),
{
    reveal(Seq::filter);
}

/// The named pieces of a text are plain names.
pub proof fn lemma_names_are_plain(text: Seq<char>)
    ensures
        forall|i: int|
            0 <= i < spec_names(spec_pieces(text)).len() ==> spec_is_name(
                #[trigger] spec_names(spec_pieces(text))[i],
            ) && spec_is_plain(spec_names(spec_pieces(text))[i]),
{
    let pieces = spec_pieces(text);
    let keep = |piece: Seq<char>| spec_is_name(piece);
    let names = spec_names(pieces);
    lemma_pieces_partition(text);
    assert forall|i: int| 0 <= i < names.len() implies spec_is_name(#[trigger] names[i])
        && spec_is_plain(names[i]) by {
        pieces.lemma_filter_pred(keep, i);
        pieces.lemma_filter_contains_rev(keep, names[i]);
    }
}

/// The segments of a path are well formed.
pub proof fn lemma_segments_well_formed(path: Seq<char>)
    ensures
        spec_well_formed(spec_segments(path)),
{
    lemma_names_are_plain(path);
}

/// The empty path has no segments.
pub proof fn lemma_empty_path_has_no_segments()
    ensures
        spec_segments(Seq::empty()) == Seq::<Seq<char>>::empty(),
{
    lemma_names_push(Seq::empty(), Seq::empty());
    lemma_names_empty();
}

/// The first piece of a text that does not start with a separator starts
/// with the first character of the text, and ends before the second only
/// where the text ends there or has a separator there.
pub proof fn lemma_first_piece(text: Seq<char>)
    requires
        text.len() > 0,
        text[0] != SEPARATOR,
    ensures
        spec_pieces(text).len() >= 1,
        spec_pieces(text)[0].len() >= 1,
        spec_pieces(text)[0][0] == text[0],
        spec_pieces(text)[0].len() == 1 ==> text.len() == 1 || text[1] == SEPARATOR,
        text.len() == 1 ==> spec_pieces(text).len() == 1,
    decreases text.len(),
{
    let shorter = text.drop_last();
    assert(text == shorter.push(text.last()));
    lemma_pieces_push(shorter, text.last());
    if shorter.len() > 0 {
        lemma_first_piece(shorter);
    }
}

/// Only the empty path has no segments.
pub proof fn lemma_only_empty_path_has_no_segments(path: Seq<char>)
    ensures
        spec_segments(path).len() == 0 <==> path.len() == 0,
{
    if path.len() == 0 {
        lemma_empty_path_has_no_segments();
    } else if !spec_is_rooted(path) && !spec_starts_at_current(path) {
        let pieces = spec_pieces(path);
        let keep = |piece: Seq<char>| spec_is_name(piece);
        lemma_first_piece(path);
        pieces.lemma_filter_contains(keep, 0);
    }
}

/// The path that is one separator has one segment, the root marker.
pub proof fn lemma_root_path_is_root_alone()
    ensures
        spec_segments(spec_root_marker()) == seq![spec_root_marker()],
{
    let none = Seq::<Seq<char>>::empty();
    lemma_pieces_push(Seq::empty(), SEPARATOR);
    lemma_names_empty();
    lemma_names_push(none, Seq::empty());
    lemma_names_push(none.push(Seq::empty()), Seq::empty());
}

/// A separator and a plain text after a text add one piece to its pieces.
pub proof fn lemma_pieces_of_child(text: Seq<char>, name: Seq<char>)
    requires
        spec_is_plain(name),
    ensures
        spec_pieces(text.push(SEPARATOR) + name) == spec_pieces(text).push(name),
    decreases name.len(),
{
    lemma_pieces_push(text, SEPARATOR);
    if name.len() == 0 {
        assert(name == Seq::<char>::empty());
    } else {
        let shorter = name.drop_last();
        lemma_pieces_of_child(text, shorter);
        lemma_pieces_push(text.push(SEPARATOR) + shorter, name.last());
        assert(shorter.push(name.last()) == name);
    }
}

/// The segments of a path followed by a separator and a name are the segments
/// of the path and then the name. In front of the empty path the separator
/// makes the root.
pub proof fn lemma_segments_of_child(parent: Seq<char>, name: Seq<char>)
    requires
        spec_is_name(name),
        spec_is_plain(name),
    ensures
        spec_segments(parent.push(SEPARATOR) + name) == if parent.len() == 0 {
            seq![spec_root_marker(), name]
        } else {
            spec_segments(parent).push(name)
        },
{
    lemma_pieces_of_child(parent, name);
    lemma_names_push(spec_pieces(parent), name);
    if parent.len() == 0 {
        lemma_empty_path_has_no_segments();
    }
}

} // verus!

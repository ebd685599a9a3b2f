//! Shortened renderings of filesystem paths for narrow displays such as a
//! shell prompt.
//!
//! A path is read as a sequence of segments. A leading run of segments equal
//! to the home directory is replaced by `~`, every segment but the last is cut
//! down to its first character (two for entries that start with a dot), and
//! the deepest segment is kept in full: `/home/alice/.config/nvim` is shown as
//! `~/.c/nvim` to a user whose home is `/home/alice`.
//!
//! - [`split`] reads the text of a path into segments.
//! - [`home`] replaces a leading home directory by the home marker.
//! - [`segment`] cuts a single segment down to its short form.
//! - [`render`] writes the segments out, and adds up their length budget.
//! - [`abbreviator`] puts these together: [`abbreviate`] for a given home
//!   directory, [`abbreviate_to_length`] for the home directory of the
//!   invoking user.
//! - [`laws`] states what holds of every abbreviation.
//!
//! All of it is verified but the lookup of the user's home directory, which
//! is left to the `dirs` crate and of which nothing is assumed.

pub mod abbreviator;
pub mod home;
pub mod laws;
pub mod render;
pub mod segment;
pub mod split;

pub use abbreviator::{abbreviate, abbreviate_to_length};
pub use render::count_and_total_length;

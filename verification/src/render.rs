//! The link formatter: a link as it is shown.
//!
//! A link is shown either as its path, or as a URL made of the base path and
//! the path with exactly one `/` between them, whichever of the two brought
//! one along.

use vstd::prelude::*;
use crate::text::{append_range, chars_of, ends_with_slash, starts_with_slash};

verus! {

/// How links are shown.
#[derive(Clone, Copy, PartialEq, Eq, Debug, Structural)]
pub enum DisplayMode {
    /// As URLs: the base path and the link's path.
    Absolute,
    /// As the link's path alone.
    Relative,
}

/// `base` without the `/` that it may end in.
pub open spec fn without_trailing_slash(base: Seq<char>) -> Seq<char> {
    if ends_with_slash(base) {
        base.drop_last()
    } else {
        base
    }
}

/// `path` without the `/` that it may begin with.
pub open spec fn without_leading_slash(path: Seq<char>) -> Seq<char> {
    if starts_with_slash(path) {
        path.drop_first()
    } else {
        path
    }
}

/// `base` and `path` joined by one `/`.
pub open spec fn join_spec(base: Seq<char>, path: Seq<char>) -> Seq<char> {
    without_trailing_slash(base) + seq!['/'] + without_leading_slash(path)
}

/// The link `path` as it is shown in `mode`.
pub open spec fn format_spec(path: Seq<char>, base: Seq<char>, mode: DisplayMode) -> Seq<char> {
    match mode {
        DisplayMode::Relative => path,
        DisplayMode::Absolute => join_spec(base, path),
    }
}

/// The joint takes the `/` from whichever side has one: where both have
/// one, the path's is dropped; where one has, the two are set in a row;
/// where neither has, a `/` is put between them.
pub proof fn lemma_join_cases(base: Seq<char>, path: Seq<char>)
    ensures
        ends_with_slash(base) && starts_with_slash(path) ==> join_spec(base, path) == base
            + path.drop_first(),
        ends_with_slash(base) != starts_with_slash(path) ==> join_spec(base, path) == base + path,
        !ends_with_slash(base) && !starts_with_slash(path) ==> join_spec(base, path) == base
            + seq!['/'] + path,
{
    if ends_with_slash(base) {
        assert(base =~= base.drop_last() + seq!['/']);
        if starts_with_slash(path) {
            assert(join_spec(base, path) =~= base + path.drop_first());
        } else {
            assert(join_spec(base, path) =~= base + path);
        }
    } else if starts_with_slash(path) {
        assert(path =~= seq!['/'] + path.drop_first());
        assert(join_spec(base, path) =~= base + path);
    }
}

/// Formats the link `path` for display in `mode`, below the base path
/// `base`.
pub fn format_link(path: &str, base: &str, mode: DisplayMode) -> (out: String)
    ensures
        out@ == format_spec(path@, base@, mode),
{
    match mode {
        DisplayMode::Relative => path.to_owned(),
        DisplayMode::Absolute => {
            let base_chars = chars_of(base);
            let path_chars = chars_of(path);
            let base_end = if base_chars.len() > 0 && base_chars[base_chars.len() - 1] == '/' {
                base_chars.len() - 1
            } else {
                base_chars.len()
            };
            let path_start: usize = if path_chars.len() > 0 && path_chars[0] == '/' {
                1
            } else {
                0
            };
            let mut out = String::new();
            append_range(&mut out, &base_chars, 0, base_end);
            out.push('/');
            append_range(&mut out, &path_chars, path_start, path_chars.len());
            proof {
                assert(base@.subrange(0, base_end as int) =~= without_trailing_slash(base@));
                assert(path@.subrange(path_start as int, path@.len() as int)
                    =~= without_leading_slash(path@));
                assert(out@ =~= join_spec(base@, path@));
            }
            out
        },
    }
}

} // verus!

//! The link classifier: which hrefs are local to an origin, and whether a
//! local link names a page or a file.
//!
//! An href is local when it begins with the origin's prefix and goes on with
//! `/` or ends there, or when it begins with neither `http://` nor
//! `https://`. What remains once the origin prefix is taken off is the
//! link's path. A path must be non-empty and made of letters, digits, `_`,
//! `-`, `/` and `.`; an href with any other path names no link here. A link
//! whose last path segment holds a `.` is a file, every other link a page.

use vstd::prelude::*;
use crate::text::{
    chars_of, find_last_piece_from, has_at, has_char, last_piece, occurs_at, range_has_char,
    string_of_range,
};

verus! {

/// What `char::is_alphanumeric` says of `c`.
pub uninterp spec fn unicode_alphanumeric(c: char) -> bool;

/// `char::is_alphanumeric` depends on the character alone: it is true of the
/// characters that Unicode lists as alphabetic or numeric.
pub assume_specification[ char::is_alphanumeric ](c: char) -> (b: bool)
    ensures
        b == unicode_alphanumeric(c),
;

/// Whether `c` is one of the letters and digits of ASCII.
pub open spec fn is_ascii_letter_or_digit(c: char) -> bool {
    ('a' <= c && c <= 'z') || ('A' <= c && c <= 'Z') || ('0' <= c && c <= '9')
}

/// Whether `c` is a letter or a digit: within ASCII one of its letters and
/// digits, beyond ASCII a character that Unicode lists as alphabetic or
/// numeric.
pub open spec fn is_letter_or_digit(c: char) -> bool {
    if c <= '\u{7f}' {
        is_ascii_letter_or_digit(c)
    } else {
        unicode_alphanumeric(c)
    }
}

/// What a local link names.
#[derive(Clone, Copy, PartialEq, Eq, Debug, Structural)]
pub enum LinkKind {
    /// A page to navigate to.
    Page,
    /// A file: the last path segment holds a `.`.
    File,
}

/// A local link: its path below the origin, and what it names.
#[derive(Clone, Debug, PartialEq, Eq)]
pub struct ClassifiedLink {
    pub path: String,
    pub kind: LinkKind,
}

/// A `ClassifiedLink` as the contracts see it.
pub struct LinkModel {
    pub path: Seq<char>,
    pub kind: LinkKind,
}

impl View for ClassifiedLink {
    type V = LinkModel;

    open spec fn view(&self) -> LinkModel {
        LinkModel { path: self.path@, kind: self.kind }
    }
}

/// What an outcome of classification says in the contracts.
pub open spec fn model_of(link: Option<ClassifiedLink>) -> Option<LinkModel> {
    match link {
        Some(l) => Some(l@),
        None => None,
    }
}

/// The characters a path may hold.
pub open spec fn is_path_char(c: char) -> bool {
    is_letter_or_digit(c) || c == '_' || c == '-' || c == '/' || c == '.'
}

/// Whether `path` can be the path of a link: it is not empty and holds path
/// characters only.
pub open spec fn is_link_path(path: Seq<char>) -> bool {
    &&& path.len() > 0
    &&& forall|i: int| 0 <= i < path.len() ==> is_path_char(#[trigger] path[i])
}

/// `http://`
pub open spec fn http_prefix() -> Seq<char> {
    seq!['h', 't', 't', 'p', ':', '/', '/']
}

/// `https://`
pub open spec fn https_prefix() -> Seq<char> {
    seq!['h', 't', 't', 'p', 's', ':', '/', '/']
}

/// Whether `href` names its own scheme and host.
pub open spec fn is_absolute(href: Seq<char>) -> bool {
    occurs_at(href, 0, http_prefix()) || occurs_at(href, 0, https_prefix())
}

/// Whether `href` begins with `origin` and goes on below it: the prefix is
/// followed by `/` or by nothing.
pub open spec fn is_under_origin(href: Seq<char>, origin: Seq<char>) -> bool {
    &&& occurs_at(href, 0, origin)
    &&& (href.len() == origin.len() || href[origin.len() as int] == '/')
}

/// Whether `href` points away from `origin`: it is absolute and not under
/// the origin.
pub open spec fn is_cross_origin(href: Seq<char>, origin: Seq<char>) -> bool {
    !is_under_origin(href, origin) && is_absolute(href)
}

/// The part of `href` that lies on `origin`, where there is one: what
/// follows the origin prefix, or all of an href that is not absolute.
pub open spec fn local_part(href: Seq<char>, origin: Seq<char>) -> Option<Seq<char>> {
    if is_under_origin(href, origin) {
        Some(href.subrange(origin.len() as int, href.len() as int))
    } else if is_absolute(href) {
        None
    } else {
        Some(href)
    }
}

/// The last segment of `path`: what follows its last `/`.
pub open spec fn last_segment(path: Seq<char>) -> Seq<char> {
    last_piece(path, '/')
}

/// What `path` names: a file where its last segment holds a `.`, else a
/// page.
pub open spec fn kind_of(path: Seq<char>) -> LinkKind {
    if has_char(last_segment(path), '.') {
        LinkKind::File
    } else {
        LinkKind::Page
    }
}

/// The link that `href` is on `origin`, or `None` where it is none: where
/// it is cross-origin or its local part is no link path.
pub open spec fn classify_spec(href: Seq<char>, origin: Seq<char>) -> Option<LinkModel> {
    match local_part(href, origin) {
        Some(path) => if is_link_path(path) {
            Some(LinkModel { path, kind: kind_of(path) })
        } else {
            None
        },
        None => None,
    }
}

/// Decides `is_path_char`.
pub fn path_char(c: char) -> (ok: bool)
    ensures
        ok == is_path_char(c),
{
    let letter_or_digit = if c <= '\u{7f}' {
        ('a' <= c && c <= 'z') || ('A' <= c && c <= 'Z') || ('0' <= c && c <= '9')
    } else {
        c.is_alphanumeric()
    };
    letter_or_digit || c == '_' || c == '-' || c == '/' || c == '.'
}

/// Decides `is_link_path` on `href[from..]`.
fn link_path_from(href: &Vec<char>, from: usize) -> (ok: bool)
    requires
        from <= href.len(),
    ensures
        ok == is_link_path(href@.subrange(from as int, href.len() as int)),
{
    let ghost path = href@.subrange(from as int, href.len() as int);
    if from == href.len() {
        return false;
    }
    let mut i: usize = from;
    while i < href.len()
        invariant
            from <= i <= href.len(),
            path == href@.subrange(from as int, href.len() as int),
            forall|j: int| 0 <= j < i - from ==> is_path_char(#[trigger] path[j]),
        decreases href.len() - i,
    {
        if !path_char(href[i]) {
            assert(!is_path_char(path[i - from]));
            return false;
        }
        i += 1;
    }
    true
}

/// Computes `kind_of` on `href[from..]`.
fn kind_from(href: &Vec<char>, from: usize) -> (kind: LinkKind)
    requires
        from <= href.len(),
    ensures
        kind == kind_of(href@.subrange(from as int, href.len() as int)),
{
    let i = find_last_piece_from(href, from, '/');
    if range_has_char(href, i, href.len(), '.') {
        LinkKind::File
    } else {
        LinkKind::Page
    }
}

/// What the path `path` names.
pub fn path_kind(path: &str) -> (kind: LinkKind)
    ensures
        kind == kind_of(path@),
{
    let chars = chars_of(path);
    assert(chars@.subrange(0, chars@.len() as int) =~= chars@);
    kind_from(&chars, 0)
}

/// Decides `is_absolute`.
fn absolute(href: &Vec<char>) -> (yes: bool)
    ensures
        yes == is_absolute(href@),
{
    let http: Vec<char> = vec!['h', 't', 't', 'p', ':', '/', '/'];
    let https: Vec<char> = vec!['h', 't', 't', 'p', 's', ':', '/', '/'];
    assert(http@ =~= http_prefix());
    assert(https@ =~= https_prefix());
    has_at(href, 0, &http) || has_at(href, 0, &https)
}

/// Classifies an href that is held as characters.
pub fn classify_chars(href: &Vec<char>, origin: &Vec<char>) -> (link: Option<ClassifiedLink>)
    ensures
        model_of(link) == classify_spec(href@, origin@),
{
    let under = has_at(href, 0, origin) && (href.len() == origin.len() || href[origin.len()]
        == '/');
    let from: usize = if under {
        origin.len()
    } else {
        if absolute(href) {
            return None;
        }
        assert(href@.subrange(0, href@.len() as int) =~= href@);
        0
    };
    if !link_path_from(href, from) {
        return None;
    }
    let kind = kind_from(href, from);
    let path = string_of_range(href, from, href.len());
    Some(ClassifiedLink { path, kind })
}

/// Classifies `href` against the origin prefix `origin`
/// (`scheme://host[:port]`).
///
/// Returns the link with its path below the origin and its kind, or `None`
/// for an href that is cross-origin or whose path is no link path.
pub fn classify(href: &str, origin: &str) -> (link: Option<ClassifiedLink>)
    ensures
        model_of(link) == classify_spec(href@, origin@),
{
    let href_chars = chars_of(href);
    let origin_chars = chars_of(origin);
    classify_chars(&href_chars, &origin_chars)
}

/// Every link is a page or a file, never both, and which one is decided by
/// the last path segment alone: a file exactly where it holds a `.`.
pub proof fn lemma_kind_by_last_segment(href: Seq<char>, origin: Seq<char>)
    requires
        classify_spec(href, origin) is Some,
    ensures
        classify_spec(href, origin).unwrap().kind == LinkKind::File <==> has_char(
            last_segment(classify_spec(href, origin).unwrap().path),
            '.',
        ),
        classify_spec(href, origin).unwrap().kind == LinkKind::Page <==> !has_char(
            last_segment(classify_spec(href, origin).unwrap().path),
            '.',
        ),
        classify_spec(href, origin).unwrap().kind == LinkKind::File || classify_spec(
            href,
            origin,
        ).unwrap().kind == LinkKind::Page,
{
}

/// An href made of the origin prefix and a link path that begins with `/`
/// is local, and its path is what follows the prefix.
pub proof fn lemma_same_origin_absolute(origin: Seq<char>, path: Seq<char>)
    requires
        is_link_path(path),
        path[0] == '/',
    ensures
        classify_spec(origin + path, origin) == Some(
            LinkModel { path, kind: kind_of(path) },
        ),
{
    let href = origin + path;
    assert(href.subrange(0, origin.len() as int) =~= origin);
    assert(href[origin.len() as int] == path[0]);
    assert(href.subrange(origin.len() as int, href.len() as int) =~= path);
}

/// An absolute href that is not under the origin is no link.
pub proof fn lemma_cross_origin_discarded(href: Seq<char>, origin: Seq<char>)
    requires
        is_cross_origin(href, origin),
    ensures
        classify_spec(href, origin) is None,
{
}

/// An href that is neither absolute nor under the origin is taken as it
/// stands: it is a link exactly where all of it is a link path.
pub proof fn lemma_relative_is_local(href: Seq<char>, origin: Seq<char>)
    requires
        !is_absolute(href),
        !is_under_origin(href, origin),
    ensures
        classify_spec(href, origin) == if is_link_path(href) {
            Some(LinkModel { path: href, kind: kind_of(href) })
        } else {
            None::<LinkModel>
        },
{
}

} // verus!

//! What a page and its URL are parsed into: the origin and the base of the
//! URL, and the page links and the file links of the document.
//!
//! Page links and file links are two passes over the same hrefs. Each pass
//! classifies every href and keeps the paths of one kind, so that no path
//! comes out of both.

use vstd::prelude::*;
use crate::classify::{
    classify_chars, classify_spec, is_absolute, is_link_path, is_path_char, is_under_origin,
    kind_of, last_segment, lemma_same_origin_absolute, LinkKind, LinkModel,
};
use crate::error::LinkError;
use crate::origin::{
    base_path_spec, origin_spec, parsed_url, resolve_base_path, resolve_origin,
};
use crate::scan::{
    href_token, is_quote, is_suffix_mark, is_value, is_value_char, lemma_nothing_to_strip,
    lemma_scan_count, lemma_written_href_scanned, scan, scan_spec, strip_suffix,
    token_count_from,
};
use crate::text::{chars_of, find_last_piece_from, has_at, has_char, last_piece, occurs_at};

verus! {

/// The extension of a path: what follows the last `.` of its last segment.
pub open spec fn extension_of(path: Seq<char>) -> Seq<char> {
    last_piece(last_segment(path), '.')
}

/// Whether a pass for links of `kind`, and of the extension `extension`
/// where one is given, keeps `link`.
pub open spec fn is_wanted(link: LinkModel, kind: LinkKind, extension: Option<Seq<char>>) -> bool {
    &&& link.kind == kind
    &&& match extension {
        Some(e) => extension_of(link.path) == e,
        None => true,
    }
}

/// The pass over `hrefs` for links of `kind` on `origin`: the path of every
/// href that is such a link, in the order of the hrefs.
pub open spec fn links_spec(
    hrefs: Seq<Seq<char>>,
    origin: Seq<char>,
    kind: LinkKind,
    extension: Option<Seq<char>>,
) -> Seq<Seq<char>>
    decreases hrefs.len(),
{
    if hrefs.len() == 0 {
        Seq::empty()
    } else {
        let before = links_spec(hrefs.drop_last(), origin, kind, extension);
        match classify_spec(hrefs.last(), origin) {
            Some(link) => if is_wanted(link, kind, extension) {
                before.push(link.path)
            } else {
                before
            },
            None => before,
        }
    }
}

/// `all`, the file type that stands for every file.
pub open spec fn all_files() -> Seq<char> {
    seq!['a', 'l', 'l']
}

/// The extension that the file type `file_type` asks for: none for `all`.
pub open spec fn extension_filter(file_type: Seq<char>) -> Option<Seq<char>> {
    if file_type == all_files() {
        None
    } else {
        Some(file_type)
    }
}

/// Decides whether the extension of `path` is `extension`.
fn has_extension(path: &Vec<char>, extension: &Vec<char>) -> (yes: bool)
    ensures
        yes == (extension_of(path@) == extension@),
{
    let segment = find_last_piece_from(path, 0, '/');
    assert(path@.subrange(0, path@.len() as int) =~= path@);
    let start = find_last_piece_from(path, segment, '.');
    let ghost ext = path@.subrange(start as int, path@.len() as int);
    if path.len() - start != extension.len() {
        return false;
    }
    let found = has_at(path, start, extension);
    assert(ext =~= path@.subrange(start as int, start + extension@.len()));
    found
}

/// One pass over hrefs that were scanned from a page.
pub fn links_of(hrefs: &Vec<String>, origin: &str, kind: LinkKind, extension: Option<&str>) -> (out:
    Vec<String>)
    ensures
        out.deep_view() == links_spec(
            hrefs.deep_view(),
            origin@,
            kind,
            match extension {
                Some(e) => Some(e@),
                None => None,
            },
        ),
{
    let ghost all = hrefs.deep_view();
    let ghost ext: Option<Seq<char>> = match extension {
        Some(e) => Some(e@),
        None => None,
    };
    let wanted_ext: Option<Vec<char>> = match extension {
        Some(e) => Some(chars_of(e)),
        None => None,
    };
    let origin_chars = chars_of(origin);
    let mut out: Vec<String> = Vec::new();
    let mut i: usize = 0;
    assert(out.deep_view() =~= Seq::<Seq<char>>::empty());
    assert(all.take(0) =~= Seq::<Seq<char>>::empty());
    while i < hrefs.len()
        invariant
            i <= hrefs.len(),
            all == hrefs.deep_view(),
            origin_chars@ == origin@,
            match wanted_ext {
                Some(w) => ext == Some(w@),
                None => ext is None,
            },
            out.deep_view() == links_spec(all.take(i as int), origin@, kind, ext),
        decreases hrefs.len() - i,
    {
        proof {
            assert(all.take(i + 1).drop_last() =~= all.take(i as int));
            assert(all.take(i + 1).last() == hrefs@[i as int]@);
        }
        let href = chars_of(hrefs[i].as_str());
        match classify_chars(&href, &origin_chars) {
            Some(link) => {
                let keep = link.kind == kind && match &wanted_ext {
                    Some(w) => {
                        let path = chars_of(link.path.as_str());
                        has_extension(&path, w)
                    },
                    None => true,
                };
                if keep {
                    let ghost before = out.deep_view();
                    out.push(link.path);
                    assert(out.deep_view() =~= before.push(link.path@));
                }
            },
            None => {},
        }
        i += 1;
    }
    assert(all.take(hrefs.len() as int) =~= all);
    out
}

/// The page links of a document: the path of every href of `page_content`
/// that is a page on the origin `domain`, in document order.
pub fn get_page_links(page_content: &String, domain: &String) -> (links: Vec<String>)
    ensures
        links.deep_view() == links_spec(
            scan_spec(page_content@),
            domain@,
            LinkKind::Page,
            None,
        ),
{
    let hrefs = scan(page_content.as_str());
    links_of(&hrefs, domain.as_str(), LinkKind::Page, None)
}

/// The file links of a document: the path of every href of `page_content`
/// that is a file on the origin `domain`, in document order.
pub fn get_file_links(page_content: &String, domain: &String) -> (links: Vec<String>)
    ensures
        links.deep_view() == links_spec(
            scan_spec(page_content@),
            domain@,
            LinkKind::File,
            None,
        ),
{
    let hrefs = scan(page_content.as_str());
    links_of(&hrefs, domain.as_str(), LinkKind::File, None)
}

/// The file links of a document that are of one file type: those whose
/// extension is `file_type`, or all of them where `file_type` is `all`.
pub fn get_file_links_of_type(page_content: &String, domain: &String, file_type: &String) -> (links:
    Vec<String>)
    ensures
        links.deep_view() == links_spec(
            scan_spec(page_content@),
            domain@,
            LinkKind::File,
            extension_filter(file_type@),
        ),
{
    let hrefs = scan(page_content.as_str());
    let wanted = chars_of(file_type.as_str());
    let all: Vec<char> = vec!['a', 'l', 'l'];
    assert(all@ =~= all_files());
    let is_all = wanted.len() == 3 && has_at(&wanted, 0, &all);
    assert(is_all == (file_type@ == all_files())) by {
        if wanted.len() == 3 {
            assert(wanted@.subrange(0, 3) =~= wanted@);
        }
    }
    if is_all {
        links_of(&hrefs, domain.as_str(), LinkKind::File, None)
    } else {
        links_of(&hrefs, domain.as_str(), LinkKind::File, Some(file_type.as_str()))
    }
}

/// The origin of `url` as the prefix of its URLs: `scheme://host`, with
/// `:port` behind it where the URL names a port.
///
/// Returns `MalformedUrl` where `url` does not parse or the URL has no host.
pub fn get_domain(url: &String) -> (r: Result<String, LinkError>)
    ensures
        match r {
            Ok(prefix) => {
                &&& parsed_url(url@) is Some
                &&& origin_spec(parsed_url(url@).unwrap()) is Some
                &&& prefix@ == origin_spec(parsed_url(url@).unwrap()).unwrap().prefix()
            },
            Err(e) => {
                &&& e == LinkError::MalformedUrl
                &&& parsed_url(url@) is None || origin_spec(parsed_url(url@).unwrap()) is None
            },
        },
{
    match resolve_origin(url.as_str()) {
        Ok(origin) => Ok(origin.prefix()),
        Err(e) => Err(e),
    }
}

/// The base path of `url`: the URL without the last segment of its path
/// where that segment holds a `.`, else `url` itself.
///
/// Returns `MalformedUrl` where `url` does not parse.
pub fn get_base_url(url: &String) -> (r: Result<String, LinkError>)
    ensures
        match r {
            Ok(base) => {
                &&& parsed_url(url@) is Some
                &&& base@ == base_path_spec(url@, parsed_url(url@).unwrap())
            },
            Err(e) => e == LinkError::MalformedUrl && parsed_url(url@) is None,
        },
{
    resolve_base_path(url.as_str())
}

/// A pass gives a path exactly where one of the hrefs is a link of that
/// path which the pass keeps; so every path of a pass is a link path of the
/// kind that the pass is for.
pub proof fn lemma_pass_members(
    hrefs: Seq<Seq<char>>,
    origin: Seq<char>,
    kind: LinkKind,
    extension: Option<Seq<char>>,
    path: Seq<char>,
)
    ensures
        links_spec(hrefs, origin, kind, extension).contains(path) <==> exists|i: int|
            0 <= i < hrefs.len() && #[trigger] classify_spec(hrefs[i], origin) == Some(
                LinkModel { path, kind },
            ) && is_wanted(LinkModel { path, kind }, kind, extension),
        links_spec(hrefs, origin, kind, extension).contains(path) ==> is_link_path(path)
            && kind_of(path) == kind,
    decreases hrefs.len(),
{
    let out = links_spec(hrefs, origin, kind, extension);
    if hrefs.len() == 0 {
        assert(!out.contains(path));
    } else {
        let front = hrefs.drop_last();
        let before = links_spec(front, origin, kind, extension);
        lemma_pass_members(front, origin, kind, extension, path);
        let wanted = LinkModel { path, kind };
        let last_hit = classify_spec(hrefs.last(), origin) == Some(wanted) && is_wanted(
            wanted,
            kind,
            extension,
        );
        if out.contains(path) {
            let k = choose|k: int| 0 <= k < out.len() && out[k] == path;
            if k < before.len() {
                assert(before[k] == path);
                assert(before.contains(path));
                let i = choose|i: int|
                    0 <= i < front.len() && #[trigger] classify_spec(front[i], origin) == Some(
                        wanted,
                    ) && is_wanted(wanted, kind, extension);
                assert(hrefs[i] == front[i]);
            } else {
                assert(last_hit);
                assert(hrefs[hrefs.len() - 1] == hrefs.last());
            }
        }
        if exists|i: int|
            0 <= i < hrefs.len() && #[trigger] classify_spec(hrefs[i], origin) == Some(wanted)
                && is_wanted(wanted, kind, extension) {
            let i = choose|i: int|
                0 <= i < hrefs.len() && #[trigger] classify_spec(hrefs[i], origin) == Some(wanted)
                    && is_wanted(wanted, kind, extension);
            if i < front.len() {
                assert(front[i] == hrefs[i]);
                assert(before.contains(path));
                let k = choose|k: int| 0 <= k < before.len() && before[k] == path;
                assert(out[k] == path);
            } else {
                assert(out =~= before.push(path));
                assert(out[before.len() as int] == path);
            }
        }
    }
}

/// No path is both a page link and a file link of one document.
pub proof fn lemma_passes_disjoint(hrefs: Seq<Seq<char>>, origin: Seq<char>, path: Seq<char>)
    ensures
        !(links_spec(hrefs, origin, LinkKind::Page, None).contains(path) && links_spec(
            hrefs,
            origin,
            LinkKind::File,
            None,
        ).contains(path)),
{
    lemma_pass_members(hrefs, origin, LinkKind::Page, None, path);
    lemma_pass_members(hrefs, origin, LinkKind::File, None, path);
}

/// A document whose hrefs are all cross-origin or malformed has no links:
/// every pass over it is empty.
pub proof fn lemma_no_local_href_no_link(
    hrefs: Seq<Seq<char>>,
    origin: Seq<char>,
    kind: LinkKind,
    extension: Option<Seq<char>>,
)
    requires
        forall|i: int| 0 <= i < hrefs.len() ==> classify_spec(#[trigger] hrefs[i], origin) is None,
    ensures
        links_spec(hrefs, origin, kind, extension) == Seq::<Seq<char>>::empty(),
    decreases hrefs.len(),
{
    if hrefs.len() > 0 {
        let front = hrefs.drop_last();
        assert forall|i: int| 0 <= i < front.len() implies classify_spec(
            #[trigger] front[i],
            origin,
        ) is None by {
            assert(front[i] == hrefs[i]);
        }
        lemma_no_local_href_no_link(front, origin, kind, extension);
        assert(hrefs.last() == hrefs[hrefs.len() - 1]);
    }
}

/// A pass gives no more paths than there are hrefs, and a page no more
/// links of a kind than it holds `href=` tokens.
pub proof fn lemma_pass_count(
    html: Seq<char>,
    origin: Seq<char>,
    kind: LinkKind,
    extension: Option<Seq<char>>,
)
    ensures
        links_spec(scan_spec(html), origin, kind, extension).len() <= scan_spec(html).len(),
        scan_spec(html).len() <= token_count_from(html, 0),
{
    lemma_pass_bounded(scan_spec(html), origin, kind, extension);
    lemma_scan_count(html, 0);
}

/// A pass gives no more paths than there are hrefs.
proof fn lemma_pass_bounded(
    hrefs: Seq<Seq<char>>,
    origin: Seq<char>,
    kind: LinkKind,
    extension: Option<Seq<char>>,
)
    ensures
        links_spec(hrefs, origin, kind, extension).len() <= hrefs.len(),
    decreases hrefs.len(),
{
    if hrefs.len() > 0 {
        lemma_pass_bounded(hrefs.drop_last(), origin, kind, extension);
    }
}

/// A link path holds neither blank nor quote, neither `#` nor `?`, and no
/// `:`, and so it is a value that is its own href and names no scheme.
pub proof fn lemma_link_path_is_plain(path: Seq<char>)
    requires
        is_link_path(path),
    ensures
        is_value(path),
        strip_suffix(path) == path,
        !has_char(path, ':'),
        !is_absolute(path),
{
    assert forall|j: int| 0 <= j < path.len() implies is_value_char(#[trigger] path[j])
        && !is_suffix_mark(path[j]) && path[j] != ':' by {
        assert(is_path_char(path[j]));
    }
    lemma_nothing_to_strip(path);
    if is_absolute(path) {
        assert(path.subrange(0, 7)[4] == path[4]);
        assert(path.subrange(0, 8)[5] == path[5]);
    }
}

/// Whether `origin` can be the prefix of an origin: it names a scheme, so
/// that it holds a `:`, and it holds no blank, no quote, no `#` and no `?`.
pub open spec fn is_origin_prefix(origin: Seq<char>) -> bool {
    &&& has_char(origin, ':')
    &&& forall|j: int|
        0 <= j < origin.len() ==> is_value_char(#[trigger] origin[j]) && !is_suffix_mark(origin[j])
}

/// No link is lost: where a value is written out in the page, between
/// `href=` with a quote and the same quote, and its href is a link that the
/// pass keeps, the path of that link is in the pass.
pub proof fn lemma_written_link_found(
    html: Seq<char>,
    origin: Seq<char>,
    at: int,
    quote: char,
    value: Seq<char>,
    kind: LinkKind,
    extension: Option<Seq<char>>,
)
    requires
        is_quote(quote),
        is_value(value),
        occurs_at(html, at, href_token() + seq![quote] + value + seq![quote]),
        classify_spec(strip_suffix(value), origin) is Some,
        is_wanted(classify_spec(strip_suffix(value), origin).unwrap(), kind, extension),
    ensures
        links_spec(scan_spec(html), origin, kind, extension).contains(
            classify_spec(strip_suffix(value), origin).unwrap().path,
        ),
{
    let hrefs = scan_spec(html);
    let link = classify_spec(strip_suffix(value), origin).unwrap();
    lemma_written_href_scanned(html, at, quote, value);
    let k = choose|k: int| 0 <= k < hrefs.len() && hrefs[k] == strip_suffix(value);
    assert(classify_spec(hrefs[k], origin) == Some(LinkModel { path: link.path, kind }));
    lemma_pass_members(hrefs, origin, kind, extension, link.path);
}

/// No relative href is lost: a link path that is written out in the page as
/// the value of an `href` is in the pass for its kind, on every origin that
/// names a scheme.
pub proof fn lemma_relative_href_found(
    html: Seq<char>,
    origin: Seq<char>,
    at: int,
    quote: char,
    path: Seq<char>,
)
    requires
        is_quote(quote),
        is_link_path(path),
        has_char(origin, ':'),
        occurs_at(html, at, href_token() + seq![quote] + path + seq![quote]),
    ensures
        links_spec(scan_spec(html), origin, kind_of(path), None).contains(path),
{
    lemma_link_path_is_plain(path);
    if is_under_origin(path, origin) {
        let k = choose|k: int| 0 <= k < origin.len() && origin[k] == ':';
        assert(path.subrange(0, origin.len() as int)[k] == path[k]);
        assert(path[k] == ':');
    }
    assert(classify_spec(path, origin) == Some(LinkModel { path, kind: kind_of(path) }));
    lemma_written_link_found(html, origin, at, quote, path, kind_of(path), None);
}

/// No absolute href of the origin is lost: where the origin prefix and a
/// link path that begins with `/` are written out in the page as the value of
/// an `href`, the path is in the pass for its kind.
pub proof fn lemma_absolute_href_found(
    html: Seq<char>,
    origin: Seq<char>,
    at: int,
    quote: char,
    path: Seq<char>,
)
    requires
        is_quote(quote),
        is_link_path(path),
        path[0] == '/',
        is_origin_prefix(origin),
        occurs_at(html, at, href_token() + seq![quote] + (origin + path) + seq![quote]),
    ensures
        links_spec(scan_spec(html), origin, kind_of(path), None).contains(path),
{
    let value = origin + path;
    lemma_link_path_is_plain(path);
    assert forall|j: int| 0 <= j < value.len() implies is_value_char(#[trigger] value[j])
        && !is_suffix_mark(value[j]) by {
        if j < origin.len() {
            assert(value[j] == origin[j]);
        } else {
            assert(value[j] == path[j - origin.len()]);
        }
    }
    lemma_nothing_to_strip(value);
    lemma_same_origin_absolute(origin, path);
    lemma_written_link_found(html, origin, at, quote, value, kind_of(path), None);
}

} // verus!

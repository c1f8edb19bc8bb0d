//! The run as a whole: from a fetched page to the list of its links.
//!
//! The caller fetches the page and hands over the URL it asked for, the
//! status of the response and its body. The links that come back are the
//! selected local links of the page, each once, in ascending order of their
//! paths, and formatted for display.

use vstd::prelude::*;
use crate::classify::{classify_spec, is_cross_origin, kind_of, path_kind, LinkKind};
use crate::error::LinkError;
use crate::linkset::{is_collection_of, set_of};
use crate::origin::{base_path_of, base_path_spec, origin_of, origin_spec, parse, parsed_url};
use crate::parsing::{
    all_files, extension_filter, lemma_no_local_href_no_link, links_of, links_spec,
};
use crate::render::{format_link, format_spec, DisplayMode};
use crate::scan::{scan, scan_spec};
use crate::text::{append_range, chars_of, ends_with_slash, has_at, occurs_at};

verus! {

/// Which links of a page are listed.
#[derive(Clone, Debug, PartialEq, Eq)]
pub struct Selection {
    /// Whether page links are listed.
    pub pages: bool,
    /// Whether file links are listed.
    pub files: bool,
    /// The extension that a listed file must have, where files are listed;
    /// `None` lists files of every extension.
    pub extension: Option<String>,
}

/// A `Selection` as the contracts see it.
pub struct SelectionModel {
    pub pages: bool,
    pub files: bool,
    pub extension: Option<Seq<char>>,
}

impl View for Selection {
    type V = SelectionModel;

    open spec fn view(&self) -> SelectionModel {
        SelectionModel {
            pages: self.pages,
            files: self.files,
            extension: match self.extension {
                Some(e) => Some(e@),
                None => None,
            },
        }
    }
}

/// The selection that a file type asks for. Without a file type pages are
/// listed and no files; with `all`, pages and every file; with any other
/// file type, the files of that extension and no pages.
pub open spec fn selection_spec(file_type: Option<Seq<char>>) -> SelectionModel {
    match file_type {
        None => SelectionModel { pages: true, files: false, extension: None },
        Some(t) => SelectionModel {
            pages: t == all_files(),
            files: true,
            extension: extension_filter(t),
        },
    }
}

/// The selection that the file type `file_type` asks for.
pub fn selection_for(file_type: Option<&str>) -> (selection: Selection)
    ensures
        selection@ == selection_spec(
            match file_type {
                Some(t) => Some(t@),
                None => None,
            },
        ),
{
    match file_type {
        None => Selection { pages: true, files: false, extension: None },
        Some(t) => {
            let wanted = chars_of(t);
            let all: Vec<char> = vec!['a', 'l', 'l'];
            assert(all@ =~= all_files());
            let is_all = wanted.len() == 3 && has_at(&wanted, 0, &all);
            assert(is_all == (t@ == all_files())) by {
                if wanted.len() == 3 {
                    assert(wanted@.subrange(0, 3) =~= wanted@);
                }
            }
            if is_all {
                Selection { pages: true, files: true, extension: None }
            } else {
                Selection { pages: false, files: true, extension: Some(t.to_owned()) }
            }
        },
    }
}

/// `http`
pub open spec fn http_word() -> Seq<char> {
    seq!['h', 't', 't', 'p']
}

/// The URL that the argument `arg` stands for: `arg` itself where it begins
/// with `http`, else `arg` behind `http://`.
pub open spec fn source_url_spec(arg: Seq<char>) -> Seq<char> {
    if occurs_at(arg, 0, http_word()) {
        arg
    } else {
        http_word() + seq![':', '/', '/'] + arg
    }
}

/// The URL that the argument `arg` stands for.
pub fn source_url(arg: &str) -> (url: String)
    ensures
        url@ == source_url_spec(arg@),
{
    let chars = chars_of(arg);
    let http: Vec<char> = vec!['h', 't', 't', 'p'];
    assert(http@ =~= http_word());
    if has_at(&chars, 0, &http) {
        arg.to_owned()
    } else {
        let mut url = String::new();
        append_range(&mut url, &http, 0, 4);
        url.push(':');
        url.push('/');
        url.push('/');
        append_range(&mut url, &chars, 0, chars.len());
        proof {
            assert(http@.subrange(0, 4) =~= http@);
            assert(chars@.subrange(0, chars@.len() as int) =~= chars@);
            assert(url@ =~= http_word() + seq![':', '/', '/'] + arg@);
        }
        url
    }
}

/// The paths that `selection` takes from `hrefs` on `origin`: those of the
/// page pass, then those of the file pass.
pub open spec fn selected_spec(
    hrefs: Seq<Seq<char>>,
    origin: Seq<char>,
    selection: SelectionModel,
) -> Seq<Seq<char>> {
    let pages = if selection.pages {
        links_spec(hrefs, origin, LinkKind::Page, None)
    } else {
        Seq::empty()
    };
    let files = if selection.files {
        links_spec(hrefs, origin, LinkKind::File, selection.extension)
    } else {
        Seq::empty()
    };
    pages + files
}

/// The paths that `selection` takes from the page `body` on `origin`.
pub fn select_links(body: &str, origin: &str, selection: &Selection) -> (paths: Vec<String>)
    ensures
        paths.deep_view() == selected_spec(scan_spec(body@), origin@, selection@),
{
    let hrefs = scan(body);
    let mut paths: Vec<String> = if selection.pages {
        links_of(&hrefs, origin, LinkKind::Page, None)
    } else {
        Vec::new()
    };
    let ghost pages = paths.deep_view();
    if selection.files {
        let mut files = match &selection.extension {
            Some(e) => links_of(&hrefs, origin, LinkKind::File, Some(e.as_str())),
            None => links_of(&hrefs, origin, LinkKind::File, None),
        };
        let ghost found = files.deep_view();
        paths.append(&mut files);
        assert(paths.deep_view() =~= pages + found);
    } else {
        assert(paths.deep_view() =~= pages + Seq::<Seq<char>>::empty());
    }
    if !selection.pages {
        assert(pages =~= Seq::<Seq<char>>::empty());
    }
    paths
}

/// A link of the list: its path, the text to show for it, and what the
/// presentation may tell apart.
#[derive(Clone, Debug, PartialEq, Eq)]
pub struct ListedLink {
    /// The path of the link below the origin.
    pub path: String,
    /// The link as it is shown.
    pub text: String,
    /// Whether the link names a page or a file.
    pub kind: LinkKind,
    /// Whether the path ends in `/`.
    pub directory: bool,
}

/// A `ListedLink` as the contracts see it.
pub struct ListedModel {
    pub path: Seq<char>,
    pub text: Seq<char>,
    pub kind: LinkKind,
    pub directory: bool,
}

impl View for ListedLink {
    type V = ListedModel;

    open spec fn view(&self) -> ListedModel {
        ListedModel {
            path: self.path@,
            text: self.text@,
            kind: self.kind,
            directory: self.directory,
        }
    }
}

/// How a link of the list may be set off from the others.
#[derive(Clone, Copy, PartialEq, Eq, Debug, Structural)]
pub enum Emphasis {
    /// The path ends in `/`.
    Directory,
    /// The link names a file.
    File,
    /// Any other link.
    Page,
}

/// The emphasis of a link: a path that ends in `/` is shown as a directory
/// whatever it names, any other link by its kind.
pub open spec fn emphasis_spec(kind: LinkKind, directory: bool) -> Emphasis {
    if directory {
        Emphasis::Directory
    } else if kind == LinkKind::File {
        Emphasis::File
    } else {
        Emphasis::Page
    }
}

impl ListedLink {
    /// How the link may be set off from the others.
    pub fn emphasis(&self) -> (e: Emphasis)
        ensures
            e == emphasis_spec(self.kind, self.directory),
    {
        if self.directory {
            Emphasis::Directory
        } else if self.kind == LinkKind::File {
            Emphasis::File
        } else {
            Emphasis::Page
        }
    }
}

/// The entry of the list for the link `path`.
pub open spec fn listed_spec(path: Seq<char>, base: Seq<char>, mode: DisplayMode) -> ListedModel {
    ListedModel {
        path,
        text: format_spec(path, base, mode),
        kind: kind_of(path),
        directory: ends_with_slash(path),
    }
}

/// The paths of a list, in its order.
pub open spec fn paths_of(links: Seq<ListedLink>) -> Seq<Seq<char>> {
    Seq::new(links.len(), |i: int| links[i].path@)
}

/// Whether `links` is the list for the paths `wanted`: it holds each of them
/// once and nothing else, in ascending order of the paths, and each entry is
/// the one for its path.
pub open spec fn is_listing(
    links: Seq<ListedLink>,
    wanted: Seq<Seq<char>>,
    base: Seq<char>,
    mode: DisplayMode,
) -> bool {
    &&& is_collection_of(paths_of(links), wanted)
    &&& forall|i: int|
        0 <= i < links.len() ==> (#[trigger] links[i])@ == listed_spec(links[i].path@, base, mode)
}

/// The list for the paths `wanted`.
pub fn listing_of(wanted: &Vec<String>, base: &str, mode: DisplayMode) -> (links: Vec<ListedLink>)
    ensures
        is_listing(links@, wanted.deep_view(), base@, mode),
{
    let paths = set_of(wanted).to_vec();
    let mut links: Vec<ListedLink> = Vec::new();
    let mut i: usize = 0;
    while i < paths.len()
        invariant
            i <= paths.len(),
            links.len() == i,
            forall|j: int| 0 <= j < i ==> (#[trigger] links@[j]).path@ == paths@[j]@,
            forall|j: int| 0 <= j < i ==> (#[trigger] links@[j])@ == listed_spec(
                links@[j].path@,
                base@,
                mode,
            ),
        decreases paths.len() - i,
    {
        let path = paths[i].clone();
        let text = format_link(path.as_str(), base, mode);
        let kind = path_kind(path.as_str());
        let chars = chars_of(path.as_str());
        let directory = chars.len() > 0 && chars[chars.len() - 1] == '/';
        links.push(ListedLink { path, text, kind, directory });
        i += 1;
    }
    assert(paths_of(links@) =~= paths.deep_view());
    links
}

/// Why a run on these inputs lists nothing, or `None` where it lists
/// links. A status other than 200 comes first, then a URL that has no
/// origin, then a page without a selected link.
pub open spec fn failure_spec(
    url: Seq<char>,
    status: u16,
    body: Seq<char>,
    selection: SelectionModel,
) -> Option<LinkError> {
    if status != 200 {
        Some(LinkError::FetchFailed { status })
    } else {
        match parsed_url(url) {
            None => Some(LinkError::MalformedUrl),
            Some(parts) => match origin_spec(parts) {
                None => Some(LinkError::MalformedUrl),
                Some(origin) => if selected_spec(scan_spec(body), origin.prefix(), selection).len()
                    == 0 {
                    Some(LinkError::NoLinksFound)
                } else {
                    None
                },
            },
        }
    }
}

/// Lists the links of a fetched page.
///
/// `url` is the URL that was asked for, `status` and `body` are the status
/// and the text of the response. The result is the list of the selected
/// links of `body` on the origin of `url`, formatted in `mode` below the base
/// path of `url`; or the reason why there is none.
pub fn list_links(
    url: &str,
    status: u16,
    body: &str,
    selection: &Selection,
    mode: DisplayMode,
) -> (r: Result<Vec<ListedLink>, LinkError>)
    ensures
        match r {
            Ok(links) => {
                &&& failure_spec(url@, status, body@, selection@) is None
                &&& is_listing(
                    links@,
                    selected_spec(
                        scan_spec(body@),
                        origin_spec(parsed_url(url@).unwrap()).unwrap().prefix(),
                        selection@,
                    ),
                    base_path_spec(url@, parsed_url(url@).unwrap()),
                    mode,
                )
                &&& links.len() > 0
            },
            Err(e) => failure_spec(url@, status, body@, selection@) == Some(e),
        },
{
    if status != 200 {
        return Err(LinkError::FetchFailed { status });
    }
    let parts = match parse(url) {
        Ok(parts) => parts,
        Err(e) => {
            return Err(e);
        },
    };
    let origin = match origin_of(&parts) {
        Ok(origin) => origin,
        Err(e) => {
            return Err(e);
        },
    };
    let prefix = origin.prefix();
    let base = base_path_of(url, &parts);
    let wanted = select_links(body, prefix.as_str(), selection);
    if wanted.len() == 0 {
        return Err(LinkError::NoLinksFound);
    }
    let links = listing_of(&wanted, base.as_str(), mode);
    proof {
        let first = wanted.deep_view()[0];
        assert(wanted.deep_view().contains(first));
        assert(paths_of(links@).contains(first));
    }
    Ok(links)
}

/// A fetched page whose hrefs are no links on the origin of its URL is
/// answered with `NoLinksFound`, whatever is selected.
pub proof fn lemma_no_links_found(
    url: Seq<char>,
    body: Seq<char>,
    selection: SelectionModel,
)
    requires
        parsed_url(url) is Some,
        origin_spec(parsed_url(url).unwrap()) is Some,
        forall|i: int|
            0 <= i < scan_spec(body).len() ==> classify_spec(
                #[trigger] scan_spec(body)[i],
                origin_spec(parsed_url(url).unwrap()).unwrap().prefix(),
            ) is None,
    ensures
        failure_spec(url, 200, body, selection) == Some(LinkError::NoLinksFound),
{
    let prefix = origin_spec(parsed_url(url).unwrap()).unwrap().prefix();
    lemma_no_local_href_no_link(scan_spec(body), prefix, LinkKind::Page, None);
    lemma_no_local_href_no_link(scan_spec(body), prefix, LinkKind::File, selection.extension);
}

/// A fetched page whose hrefs all point to other origins is answered with
/// `NoLinksFound`.
pub proof fn lemma_cross_origin_only(url: Seq<char>, body: Seq<char>, selection: SelectionModel)
    requires
        parsed_url(url) is Some,
        origin_spec(parsed_url(url).unwrap()) is Some,
        forall|i: int|
            0 <= i < scan_spec(body).len() ==> is_cross_origin(
                #[trigger] scan_spec(body)[i],
                origin_spec(parsed_url(url).unwrap()).unwrap().prefix(),
            ),
    ensures
        failure_spec(url, 200, body, selection) == Some(LinkError::NoLinksFound),
{
    lemma_no_links_found(url, body, selection);
}

/// A fetched page without text is answered with `NoLinksFound`.
pub proof fn lemma_empty_document(url: Seq<char>, selection: SelectionModel)
    requires
        parsed_url(url) is Some,
        origin_spec(parsed_url(url).unwrap()) is Some,
    ensures
        failure_spec(url, 200, Seq::<char>::empty(), selection) == Some(LinkError::NoLinksFound),
{
    lemma_no_links_found(url, Seq::<char>::empty(), selection);
}

} // verus!

use linklist::classify::LinkKind;
use linklist::error::LinkError;
use linklist::lister::{
    list_links, listing_of, select_links, selection_for, source_url, Emphasis, ListedLink,
    Selection,
};
use linklist::render::DisplayMode;

fn pages() -> Selection {
    Selection { pages: true, files: false, extension: None }
}

fn listed(path: &str, text: &str, kind: LinkKind, directory: bool) -> ListedLink {
    ListedLink { path: path.to_string(), text: text.to_string(), kind, directory }
}

#[test]
fn one_target_in_two_forms_is_listed_once() {
    let body = "<a href=\"/about\">a</a> <a href=\"http://h/about\">b</a> \
                <a href=\"http://other/x\">c</a>";
    let links = list_links("http://h", 200, body, &pages(), DisplayMode::Absolute).unwrap();
    assert_eq!(links, vec![listed("/about", "http://h/about", LinkKind::Page, false)]);
}

#[test]
fn empty_document_has_no_links() {
    assert_eq!(
        list_links("http://h", 200, "", &pages(), DisplayMode::Absolute),
        Err(LinkError::NoLinksFound)
    );
}

#[test]
fn cross_origin_hrefs_alone_give_no_links() {
    let body = "<a href=\"http://other/x\">c</a> <a href='https://h/y'>d</a>";
    assert_eq!(
        list_links("http://h", 200, body, &pages(), DisplayMode::Absolute),
        Err(LinkError::NoLinksFound)
    );
}

#[test]
fn files_alone_give_no_page_links() {
    let body = "<a href=\"/a.png\">c</a>";
    assert_eq!(
        list_links("http://h", 200, body, &pages(), DisplayMode::Relative),
        Err(LinkError::NoLinksFound)
    );
}

#[test]
fn other_status_is_a_failed_fetch() {
    let body = "<a href=\"/about\">a</a>";
    assert_eq!(
        list_links("http://h", 404, body, &pages(), DisplayMode::Absolute),
        Err(LinkError::FetchFailed { status: 404 })
    );
    assert_eq!(
        list_links("http://h", 201, body, &pages(), DisplayMode::Absolute),
        Err(LinkError::FetchFailed { status: 201 })
    );
    assert_eq!(
        list_links("no url", 500, body, &pages(), DisplayMode::Absolute),
        Err(LinkError::FetchFailed { status: 500 })
    );
}

#[test]
fn malformed_url_is_told() {
    let body = "<a href=\"/about\">a</a>";
    assert_eq!(
        list_links("no url", 200, body, &pages(), DisplayMode::Absolute),
        Err(LinkError::MalformedUrl)
    );
    assert_eq!(
        list_links("mailto:a@b.c", 200, body, &pages(), DisplayMode::Absolute),
        Err(LinkError::MalformedUrl)
    );
}

#[test]
fn list_is_ordered_by_path() {
    let body = "<a href='/b'> <a href='/a'> <a href='/a/c'> <a href='/a/'> <a href='/b'>";
    let links = list_links("http://h/", 200, body, &pages(), DisplayMode::Relative).unwrap();
    assert_eq!(
        links,
        vec![
            listed("/a", "/a", LinkKind::Page, false),
            listed("/a/", "/a/", LinkKind::Page, true),
            listed("/a/c", "/a/c", LinkKind::Page, false),
            listed("/b", "/b", LinkKind::Page, false),
        ]
    );
}

#[test]
fn list_lies_below_the_base_path() {
    let body = "<a href='next.html'> <a href='/top'> <a href='http://h/img/x.png'>";
    let all = Selection { pages: true, files: true, extension: None };
    let links =
        list_links("http://h/docs/index.html", 200, body, &all, DisplayMode::Absolute).unwrap();
    assert_eq!(
        links,
        vec![
            listed("/img/x.png", "http://h/docs/img/x.png", LinkKind::File, false),
            listed("/top", "http://h/docs/top", LinkKind::Page, false),
            listed("next.html", "http://h/docs/next.html", LinkKind::File, false),
        ]
    );
}

#[test]
fn list_of_an_address_with_port() {
    let body = "<a href='http://127.0.0.1:5500/x/'> <a href='http://127.0.0.1/y'>";
    let links =
        list_links("http://127.0.0.1:5500", 200, body, &pages(), DisplayMode::Absolute).unwrap();
    assert_eq!(links, vec![listed("/x/", "http://127.0.0.1:5500/x/", LinkKind::Page, true)]);
}

#[test]
fn selection_follows_the_file_type() {
    assert_eq!(selection_for(None), Selection { pages: true, files: false, extension: None });
    assert_eq!(
        selection_for(Some("all")),
        Selection { pages: true, files: true, extension: None }
    );
    assert_eq!(
        selection_for(Some("png")),
        Selection { pages: false, files: true, extension: Some("png".to_string()) }
    );
    assert_eq!(
        selection_for(Some("")),
        Selection { pages: false, files: true, extension: Some(String::new()) }
    );
}

#[test]
fn select_links_runs_the_passes() {
    let body = "<a href='a.png'> <a href='/p'> <a href='b.gif'> <a href='http://o/x'>";
    assert_eq!(select_links(body, "http://h", &selection_for(None)), vec!["/p"]);
    assert_eq!(
        select_links(body, "http://h", &selection_for(Some("all"))),
        vec!["/p", "a.png", "b.gif"]
    );
    assert_eq!(select_links(body, "http://h", &selection_for(Some("gif"))), vec!["b.gif"]);
    let none = Selection { pages: false, files: false, extension: None };
    assert!(select_links(body, "http://h", &none).is_empty());
}

#[test]
fn source_url_gets_a_scheme() {
    assert_eq!(source_url("example.com/x"), "http://example.com/x");
    assert_eq!(source_url("http://example.com"), "http://example.com");
    assert_eq!(source_url("https://example.com"), "https://example.com");
    assert_eq!(source_url("httpbin.org"), "httpbin.org");
    assert_eq!(source_url(""), "http://");
    assert_eq!(source_url("htt"), "http://htt");
}

#[test]
fn listing_of_paths() {
    let wanted = vec!["b.txt".to_string(), "a/".to_string(), "b.txt".to_string()];
    assert_eq!(
        listing_of(&wanted, "http://h/", DisplayMode::Absolute),
        vec![
            listed("a/", "http://h/a/", LinkKind::Page, true),
            listed("b.txt", "http://h/b.txt", LinkKind::File, false),
        ]
    );
    assert!(listing_of(&Vec::new(), "http://h/", DisplayMode::Absolute).is_empty());
}

#[test]
fn emphasis_of_links() {
    assert_eq!(listed("/a/", "/a/", LinkKind::Page, true).emphasis(), Emphasis::Directory);
    assert_eq!(listed("/a.b", "/a.b", LinkKind::File, false).emphasis(), Emphasis::File);
    assert_eq!(listed("/a", "/a", LinkKind::Page, false).emphasis(), Emphasis::Page);
    let body = "<a href='/d/'> <a href='/f.txt'> <a href='/p'>";
    let links =
        list_links("http://h", 200, body, &selection_for(Some("all")), DisplayMode::Relative)
            .unwrap();
    let shown: Vec<Emphasis> = links.iter().map(|l| l.emphasis()).collect();
    assert_eq!(shown, vec![Emphasis::Directory, Emphasis::File, Emphasis::Page]);
}

#[test]
fn list_of_a_named_host_with_port() {
    let body = "<a href='http://example.com:8080/a'> <a href='http://example.com/b'> <a href='c'>";
    let links =
        list_links("http://example.com:8080/x", 200, body, &pages(), DisplayMode::Absolute)
            .unwrap();
    assert_eq!(
        links,
        vec![
            listed("/a", "http://example.com:8080/x/a", LinkKind::Page, false),
            listed("c", "http://example.com:8080/x/c", LinkKind::Page, false),
        ]
    );
}

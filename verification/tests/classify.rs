use linklist::classify::{classify, path_char, path_kind, ClassifiedLink, LinkKind};

fn link(path: &str, kind: LinkKind) -> Option<ClassifiedLink> {
    Some(ClassifiedLink { path: path.to_string(), kind })
}

#[test]
fn same_origin_absolute_href_is_stripped() {
    assert_eq!(
        classify("http://host:8080/a/b", "http://host:8080"),
        link("/a/b", LinkKind::Page)
    );
}

#[test]
fn cross_origin_href_is_discarded() {
    assert_eq!(classify("http://other-host/x", "http://host"), None);
    assert_eq!(classify("https://host/x", "http://host"), None);
}

#[test]
fn origin_must_end_where_the_path_begins() {
    assert_eq!(classify("http://host.evil.org/x", "http://host"), None);
    assert_eq!(classify("http://hostile/x", "http://host"), None);
    assert_eq!(classify("http://host:80/x", "http://host"), None);
}

#[test]
fn relative_hrefs_are_local() {
    assert_eq!(classify("/about", "http://h"), link("/about", LinkKind::Page));
    assert_eq!(classify("about/us", "http://h"), link("about/us", LinkKind::Page));
    assert_eq!(classify("a_b-c/", "http://h"), link("a_b-c/", LinkKind::Page));
}

#[test]
fn kind_goes_by_the_last_segment() {
    assert_eq!(classify("/a/b.html", "http://h"), link("/a/b.html", LinkKind::File));
    assert_eq!(classify("b.tar.gz", "http://h"), link("b.tar.gz", LinkKind::File));
    assert_eq!(classify("/v1.2/guide", "http://h"), link("/v1.2/guide", LinkKind::Page));
    assert_eq!(classify("/v1.2/", "http://h"), link("/v1.2/", LinkKind::Page));
    assert_eq!(classify("http://h/x.png", "http://h"), link("/x.png", LinkKind::File));
}

#[test]
fn path_kind_of_paths() {
    assert_eq!(path_kind("/a/b"), LinkKind::Page);
    assert_eq!(path_kind("/a/b."), LinkKind::File);
    assert_eq!(path_kind(".hidden"), LinkKind::File);
    assert_eq!(path_kind("/a.b/"), LinkKind::Page);
    assert_eq!(path_kind(""), LinkKind::Page);
}

#[test]
fn empty_paths_are_no_links() {
    assert_eq!(classify("", "http://h"), None);
    assert_eq!(classify("http://h", "http://h"), None);
}

#[test]
fn root_of_the_origin_is_a_page() {
    assert_eq!(classify("http://h/", "http://h"), link("/", LinkKind::Page));
    assert_eq!(classify("/", "http://h"), link("/", LinkKind::Page));
}

#[test]
fn other_characters_make_no_link() {
    assert_eq!(classify("mailto:a@b.c", "http://h"), None);
    assert_eq!(classify("javascript:void(0)", "http://h"), None);
    assert_eq!(classify("a b", "http://h"), None);
    assert_eq!(classify("/a%20b", "http://h"), None);
    assert_eq!(classify("http://h/a b", "http://h"), None);
    assert_eq!(classify("ftp://h/x", "http://h"), None);
}

#[test]
fn letters_and_digits_of_any_script() {
    assert_eq!(classify("/caf\u{e9}/\u{3b1}9", "http://h"), link("/caf\u{e9}/\u{3b1}9", LinkKind::Page));
    assert!(path_char('a'));
    assert!(path_char('Z'));
    assert!(path_char('7'));
    assert!(path_char('\u{e9}'));
    assert!(path_char('_'));
    assert!(path_char('-'));
    assert!(path_char('/'));
    assert!(path_char('.'));
    assert!(!path_char(' '));
    assert!(!path_char(':'));
    assert!(!path_char('#'));
    assert!(!path_char('?'));
    assert!(!path_char('%'));
}

#[test]
fn empty_origin_takes_rooted_hrefs() {
    assert_eq!(classify("/a", ""), link("/a", LinkKind::Page));
    assert_eq!(classify("http://x/a", ""), None);
}

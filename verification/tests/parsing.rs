use linklist::error::LinkError;
use linklist::parsing::{
    get_base_url, get_domain, get_file_links, get_file_links_of_type, get_page_links,
};

fn demo_site() -> String {
    let lines = [
        "<!DOCTYPE html>",
        "<html>",
        "<head>",
        "  <title>Demo Site</title>",
        "  <link rel=\"stylesheet\" href=\"https://cdn.example.org/theme/main.css\">",
        "</head>",
        "<body>",
        "  <h1 id=\"top\">A demo site</h1>",
        "  <ul>",
        "    <li><a href=\"some_other_page\">Some other page</a></li>",
        "    <li><a href='/another_page'>Another page</a></li>",
        "    <li><a href=\"http://127.0.0.1:5500/yet_another_page/\">Yet another page</a></li>",
        "    <li><a href=\"http://127.0.0.1:5500/a_linked_file.html\">A linked file</a></li>",
        "    <li><a href=\"file_link.html\">A file</a></li>",
        "    <li><a href=\"https://www.example.com/elsewhere\">Elsewhere</a></li>",
        "    <li><a href=\"mailto:someone@example.com\">Write to us</a></li>",
        "    <li><a href=\"#top\">Back to the top</a></li>",
        "  </ul>",
        "</body>",
        "</html>",
    ];
    lines.join("\n")
}

#[test]
fn test_parse_page_links() {
    let dummy_domain = "http://127.0.0.1:5500".to_string();
    assert_eq!(
        get_page_links(&demo_site(), &dummy_domain),
        vec!["some_other_page", "/another_page", "/yet_another_page/"]
    );
}

#[test]
fn test_parse_file_links() {
    let dummy_domain = "http://127.0.0.1:5500".to_string();
    assert_eq!(
        get_file_links(&demo_site(), &dummy_domain),
        vec!["/a_linked_file.html", "file_link.html"]
    );
}

#[test]
fn test_get_base_url_normal() {
    let dummy_url = "http://www.not_a_real_place.com/subdirectory/a_file.html".to_string();
    assert_eq!(
        get_base_url(&dummy_url).unwrap(),
        "http://www.not_a_real_place.com/subdirectory/"
    );
}

#[test]
fn test_get_base_url_ip_port() {
    let dummy_url = "http://127.0.0.1:5050/subdirectory/a_file.html".to_string();
    assert_eq!(get_base_url(&dummy_url).unwrap(), "http://127.0.0.1:5050/subdirectory/");
}

#[test]
fn test_get_domain_ip_port() {
    let dummy_url = "http://127.0.0.1:5050/subdirectory/a_file.html".to_string();
    assert_eq!(get_domain(&dummy_url).unwrap(), "http://127.0.0.1:5050");
}

#[test]
fn test_get_domain_normal() {
    let dummy_url = "http://www.not_a_real_place.com/subdirectory/a_file.html".to_string();
    assert_eq!(get_domain(&dummy_url).unwrap(), "http://www.not_a_real_place.com");
}

#[test]
fn get_domain_of_a_named_host_keeps_the_port() {
    let url = "https://example.com:8443/docs/".to_string();
    assert_eq!(get_domain(&url).unwrap(), "https://example.com:8443");
    let url = "http://example.com:8080/x".to_string();
    assert_eq!(get_domain(&url).unwrap(), "http://example.com:8080");
    let url = "http://localhost:3000".to_string();
    assert_eq!(get_domain(&url).unwrap(), "http://localhost:3000");
}

#[test]
fn get_domain_is_the_head_of_the_url() {
    for url in [
        "http://example.com:8080/x",
        "http://example.com/x/y.html",
        "https://example.com?q=1",
        "https://a.b.example.org:444#top",
        "http://10.0.0.7:8000/",
    ] {
        let origin = get_domain(&url.to_string()).unwrap();
        assert!(url.starts_with(&origin));
        let next = url[origin.len()..].chars().next();
        assert!(matches!(next, None | Some('/') | Some('?') | Some('#')));
        let host = &origin[origin.find("://").unwrap() + 3..];
        assert!(!host.contains(['/', '?', '#']));
    }
}

#[test]
fn get_domain_lowers_scheme_and_host() {
    let url = "HTTP://Example.COM/Path".to_string();
    assert_eq!(get_domain(&url).unwrap(), "http://example.com");
}

#[test]
fn get_domain_drops_a_default_port() {
    let url = "http://10.0.0.7:80/".to_string();
    assert_eq!(get_domain(&url).unwrap(), "http://10.0.0.7");
    let url = "https://example.com:443/".to_string();
    assert_eq!(get_domain(&url).unwrap(), "https://example.com");
}

#[test]
fn get_domain_of_an_ipv6_host() {
    let url = "http://[::1]:65535/x".to_string();
    assert_eq!(get_domain(&url).unwrap(), "http://[::1]:65535");
}

#[test]
fn get_domain_refuses_text_without_scheme() {
    let url = "www.example.com/index.html".to_string();
    assert_eq!(get_domain(&url), Err(LinkError::MalformedUrl));
}

#[test]
fn get_domain_refuses_an_empty_host() {
    let url = "http://".to_string();
    assert_eq!(get_domain(&url), Err(LinkError::MalformedUrl));
}

#[test]
fn get_domain_refuses_a_url_without_host() {
    let url = "mailto:someone@example.com".to_string();
    assert_eq!(get_domain(&url), Err(LinkError::MalformedUrl));
}

#[test]
fn get_base_url_refuses_text_without_scheme() {
    let url = "/just/a/path.html".to_string();
    assert_eq!(get_base_url(&url), Err(LinkError::MalformedUrl));
}

#[test]
fn get_base_url_keeps_a_directory() {
    let url = "http://h/dir/".to_string();
    assert_eq!(get_base_url(&url).unwrap(), "http://h/dir/");
}

#[test]
fn get_base_url_strips_a_file() {
    let url = "http://h/dir/page.html".to_string();
    assert_eq!(get_base_url(&url).unwrap(), "http://h/dir/");
}

#[test]
fn get_base_url_keeps_a_bare_domain() {
    let url = "http://example.com".to_string();
    assert_eq!(get_base_url(&url).unwrap(), "http://example.com");
}

#[test]
fn get_base_url_keeps_a_page() {
    let url = "http://example.com/a/b".to_string();
    assert_eq!(get_base_url(&url).unwrap(), "http://example.com/a/b");
}

#[test]
fn get_base_url_looks_at_the_last_segment_only() {
    let url = "http://example.com/v1.2/guide".to_string();
    assert_eq!(get_base_url(&url).unwrap(), "http://example.com/v1.2/guide");
}

#[test]
fn get_base_url_strips_the_segment_once() {
    let url = "http://h/a.b/a.b".to_string();
    assert_eq!(get_base_url(&url).unwrap(), "http://h/a.b/");
}

#[test]
fn get_base_url_keeps_query_and_fragment() {
    let url = "http://h/dir/page.html?x=1#top".to_string();
    assert_eq!(get_base_url(&url).unwrap(), "http://h/dir/?x=1#top");
}

#[test]
fn page_links_come_in_document_order() {
    let page = "<a href='/b'></a><a href='/a'></a><a href='/b'></a>".to_string();
    let origin = "http://h".to_string();
    assert_eq!(get_page_links(&page, &origin), vec!["/b", "/a", "/b"]);
}

#[test]
fn passes_share_no_path() {
    let page = demo_site();
    let origin = "http://127.0.0.1:5500".to_string();
    let pages = get_page_links(&page, &origin);
    let files = get_file_links(&page, &origin);
    for p in &pages {
        assert!(!files.contains(p));
    }
}

#[test]
fn links_of_an_empty_page() {
    let origin = "http://h".to_string();
    assert!(get_page_links(&String::new(), &origin).is_empty());
    assert!(get_file_links(&String::new(), &origin).is_empty());
}

#[test]
fn file_links_of_one_type() {
    let page = "<a href=\"a.png\"></a><a href=\"/img/b.html\"></a><a href=\"c.tar.png\"></a>\
                <a href=\"png\"></a><a href=\"d.PNG\"></a>"
        .to_string();
    let origin = "http://h".to_string();
    assert_eq!(
        get_file_links_of_type(&page, &origin, &"png".to_string()),
        vec!["a.png", "c.tar.png"]
    );
    assert_eq!(
        get_file_links_of_type(&page, &origin, &"html".to_string()),
        vec!["/img/b.html"]
    );
    assert_eq!(
        get_file_links_of_type(&page, &origin, &"all".to_string()),
        vec!["a.png", "/img/b.html", "c.tar.png", "d.PNG"]
    );
    assert!(get_file_links_of_type(&page, &origin, &"gif".to_string()).is_empty());
}

#[test]
fn page_link_inside_a_refused_value_is_found() {
    let page = "href='a href=\"p\"'".to_string();
    let origin = "http://h".to_string();
    assert_eq!(get_page_links(&page, &origin), vec!["p"]);
}

#[test]
fn no_local_page_href_is_lost() {
    let origin = "http://example.com:8080".to_string();
    for p in ["p", "/", "/a/b", "a_b-c/9", "x/"] {
        for page in [
            format!("<a href=\"{}\">", p),
            format!("<a href='{}'>", p),
            format!("href='junk \" href=\"{}\" more", p),
            format!("<a href=\"/q?href=\"{}\">", p),
            format!("<a href='/never closed <a href='{}'>", p),
        ] {
            let links = get_page_links(&page, &origin);
            assert!(links.contains(&p.to_string()));
            assert!(links.len() <= page.matches("href=").count());
        }
    }
    for p in ["/", "/a/b", "/x/"] {
        let page = format!("<a href=\"{}{}\">", origin, p);
        assert_eq!(get_page_links(&page, &origin), vec![p]);
    }
}

#[test]
fn file_links_of_a_named_host_with_port() {
    let page = "<a href=\"http://example.com:8080/a.txt\"> <a href=\"http://example.com/b.txt\">"
        .to_string();
    let origin = get_domain(&"http://example.com:8080/x".to_string()).unwrap();
    assert_eq!(get_file_links(&page, &origin), vec!["/a.txt"]);
}

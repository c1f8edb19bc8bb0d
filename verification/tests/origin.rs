use linklist::error::LinkError;
use linklist::origin::{
    base_path_of, origin_of, parse, resolve_base_path, resolve_origin, Origin, UrlParts,
};

fn parts(path: &str) -> UrlParts {
    UrlParts {
        scheme: "http".to_string(),
        host: Some("h".to_string()),
        port: None,
        before_path: "http://h".to_string(),
        path: path.to_string(),
        after_path: String::new(),
    }
}

#[test]
fn parse_reads_the_parts() {
    let p = parse("https://user:pw@Example.com:8443/a/b.html?x=1#f").unwrap();
    assert_eq!(
        p,
        UrlParts {
            scheme: "https".to_string(),
            host: Some("example.com".to_string()),
            port: Some(8443),
            before_path: "https://user:pw@example.com:8443".to_string(),
            path: "/a/b.html".to_string(),
            after_path: "?x=1#f".to_string(),
        }
    );
}

#[test]
fn parse_of_an_address() {
    let p = parse("http://127.0.0.1:5050/subdirectory/a_file.html").unwrap();
    assert_eq!(p.host, Some("127.0.0.1".to_string()));
    assert_eq!(p.port, Some(5050));
    assert_eq!(p.path, "/subdirectory/a_file.html");
    assert_eq!(p.before_path, "http://127.0.0.1:5050");
    assert_eq!(p.after_path, "");
}

#[test]
fn parse_refuses_what_is_no_url() {
    assert_eq!(parse(""), Err(LinkError::MalformedUrl));
    assert_eq!(parse("not a url"), Err(LinkError::MalformedUrl));
    assert_eq!(parse("http://exa mple.com/"), Err(LinkError::MalformedUrl));
    assert_eq!(parse("http://h:99999/"), Err(LinkError::MalformedUrl));
}

#[test]
fn origin_of_a_named_host_keeps_the_port() {
    let mut p = parts("/");
    p.port = Some(8080);
    let origin = origin_of(&p).unwrap();
    assert_eq!(
        origin,
        Origin { scheme: "http".to_string(), host: "h".to_string(), port: Some(8080) }
    );
    assert_eq!(origin.prefix(), "http://h:8080");
}

#[test]
fn origin_of_an_address_keeps_the_port() {
    let mut p = parts("/");
    p.host = Some("10.1.2.3".to_string());
    p.port = Some(8080);
    let origin = origin_of(&p).unwrap();
    assert_eq!(
        origin,
        Origin { scheme: "http".to_string(), host: "10.1.2.3".to_string(), port: Some(8080) }
    );
    assert_eq!(origin.prefix(), "http://10.1.2.3:8080");
}

#[test]
fn origin_without_port() {
    assert_eq!(
        origin_of(&parts("/x")),
        Ok(Origin { scheme: "http".to_string(), host: "h".to_string(), port: None })
    );
}

#[test]
fn origin_needs_scheme_and_host() {
    let mut p = parts("/");
    p.host = None;
    assert_eq!(origin_of(&p), Err(LinkError::MalformedUrl));
    let mut p = parts("/");
    p.host = Some(String::new());
    assert_eq!(origin_of(&p), Err(LinkError::MalformedUrl));
    let mut p = parts("/");
    p.scheme = String::new();
    assert_eq!(origin_of(&p), Err(LinkError::MalformedUrl));
}

#[test]
fn prefix_writes_the_port_in_decimal() {
    let origin = |port| Origin { scheme: "http".to_string(), host: "h".to_string(), port };
    assert_eq!(origin(None).prefix(), "http://h");
    assert_eq!(origin(Some(0)).prefix(), "http://h:0");
    assert_eq!(origin(Some(7)).prefix(), "http://h:7");
    assert_eq!(origin(Some(10)).prefix(), "http://h:10");
    assert_eq!(origin(Some(5050)).prefix(), "http://h:5050");
    assert_eq!(origin(Some(8081)).prefix(), "http://h:8081");
    assert_eq!(origin(Some(65535)).prefix(), "http://h:65535");
    for port in [1u16, 9, 19, 100, 109, 999, 1000, 12345, 60006] {
        assert_eq!(origin(Some(port)).prefix(), format!("http://h:{}", port));
    }
}

#[test]
fn resolve_origin_of_urls() {
    assert_eq!(
        resolve_origin("http://127.0.0.1:5050/a"),
        Ok(Origin { scheme: "http".to_string(), host: "127.0.0.1".to_string(), port: Some(5050) })
    );
    assert_eq!(
        resolve_origin("https://www.example.com/a"),
        Ok(Origin { scheme: "https".to_string(), host: "www.example.com".to_string(), port: None })
    );
    assert_eq!(
        resolve_origin("http://example.com:8080/x"),
        Ok(Origin { scheme: "http".to_string(), host: "example.com".to_string(), port: Some(8080) })
    );
    assert_eq!(
        resolve_origin("https://example.com:443/x"),
        Ok(Origin { scheme: "https".to_string(), host: "example.com".to_string(), port: None })
    );
    assert_eq!(resolve_origin("data:text/plain,Stuff"), Err(LinkError::MalformedUrl));
    assert_eq!(resolve_origin("//example.com/"), Err(LinkError::MalformedUrl));
}

#[test]
fn base_path_of_parts() {
    assert_eq!(base_path_of("http://h/dir/page.html", &parts("/dir/page.html")), "http://h/dir/");
    assert_eq!(base_path_of("http://h/dir/", &parts("/dir/")), "http://h/dir/");
    assert_eq!(base_path_of("http://h/dir", &parts("/dir")), "http://h/dir");
    assert_eq!(base_path_of("http://h", &parts("/")), "http://h");
    assert_eq!(base_path_of("http://h/x.y", &parts("/x.y")), "http://h/");
    assert_eq!(base_path_of("given", &parts("")), "given");
    assert_eq!(base_path_of("given", &parts("a.b")), "http://h");
}

#[test]
fn base_path_keeps_what_follows_the_path() {
    let mut p = parts("/dir/page.html");
    p.after_path = "?q=1#f".to_string();
    assert_eq!(base_path_of("http://h/dir/page.html?q=1#f", &p), "http://h/dir/?q=1#f");
}

#[test]
fn resolve_base_path_of_urls() {
    assert_eq!(resolve_base_path("http://h/dir/page.html").unwrap(), "http://h/dir/");
    assert_eq!(resolve_base_path("http://h/dir/").unwrap(), "http://h/dir/");
    assert_eq!(resolve_base_path("HTTP://H/Dir/Page.HTML").unwrap(), "http://h/Dir/");
    assert_eq!(resolve_base_path("HTTP://H/Dir/").unwrap(), "HTTP://H/Dir/");
    assert_eq!(resolve_base_path("nothing"), Err(LinkError::MalformedUrl));
}

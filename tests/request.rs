use tinyget::{get, parse_url, Request};

fn text(req: &Request) -> String {
    String::from_utf8(req.as_bytes()).unwrap()
}

#[test]
fn parse_url_splits_host_and_resource() {
    let (https, host, resource) = parse_url("http://example.com:8080/a/b?c=d#e".to_string());
    assert!(!https);
    assert_eq!(host, "example.com:8080");
    assert_eq!(resource, "/a/b?c=d#e");
}

#[test]
fn parse_url_defaults() {
    let (https, host, resource) = parse_url("https://example.com".to_string());
    assert!(https);
    assert_eq!(host, "example.com:443");
    assert_eq!(resource, "/");
    let (https, host, resource) = parse_url("http://example.com/".to_string());
    assert!(!https);
    assert_eq!(host, "example.com:80");
    assert_eq!(resource, "/");
}

#[test]
fn parse_url_scheme_is_case_sensitive() {
    let (https, host, _) = parse_url("HTTPS://example.com/x".to_string());
    assert!(!https);
    assert_eq!(host, "example.com:80");
}

#[test]
fn request_line_reproduces_path() {
    let req = get("http://localhost:35562/some/path.txt");
    assert_eq!(
        text(&req),
        "GET /some/path.txt HTTP/1.1\r\nHost: localhost:35562\r\n\r\n"
    );
}

#[test]
fn request_defaults() {
    let req = Request::new("http://example.com/x");
    assert_eq!(req.max_redirects(), 100);
    assert_eq!(req.timeout(), None);
    assert_eq!(req.redirect_count(), 0);
    assert!(!req.is_https());
    assert_eq!(req.host(), "example.com:80");
    assert_eq!(req.resource(), "/x");
}

#[test]
fn builders_set_values() {
    let req = get("http://example.com/")
        .with_timeout(8)
        .with_max_redirects(3);
    assert_eq!(req.timeout(), Some(8));
    assert_eq!(req.max_redirects(), 3);
}

#[test]
fn header_is_serialized() {
    let req = get("http://example.com/h").with_header("Ping", "Qwerty");
    assert_eq!(
        text(&req),
        "GET /h HTTP/1.1\r\nHost: example.com:80\r\nPing: Qwerty\r\n\r\n"
    );
}

#[test]
fn header_set_twice_keeps_last_value() {
    let req = get("http://example.com/h")
        .with_header("Ping", "one")
        .with_header("Ping", "two");
    assert_eq!(
        text(&req),
        "GET /h HTTP/1.1\r\nHost: example.com:80\r\nPing: two\r\n\r\n"
    );
}

#[test]
fn basic_query_is_serialized() {
    let req = get("http://httpbin.org/get").with_query("name", "Tiny");
    assert!(text(&req).starts_with("GET /get?name=Tiny HTTP/1.1\r\n"));
}

#[test]
fn two_query_parameters_both_present() {
    let req = get("http://host/get")
        .with_query("name", "Tiny")
        .with_query("age", "30");
    let t = text(&req);
    let line = t.lines().next().unwrap();
    assert!(
        line == "GET /get?name=Tiny&age=30 HTTP/1.1" || line == "GET /get?age=30&name=Tiny HTTP/1.1"
    );
}

#[test]
fn query_special_characters_are_percent_encoded() {
    let req = get("http://httpbin.org/get").with_query("message", "Hello World!");
    assert!(text(&req).starts_with("GET /get?message=Hello%20World%21 HTTP/1.1\r\n"));
}

#[test]
fn query_non_ascii_is_percent_encoded() {
    let req = get("http://httpbin.org/get").with_query("name", "张三");
    assert!(text(&req).starts_with("GET /get?name=%E5%BC%A0%E4%B8%89 HTTP/1.1\r\n"));
}

#[test]
fn query_after_existing_query_uses_ampersand() {
    let req = get("http://httpbin.org/get?existing=param").with_query("name", "Tiny");
    assert!(text(&req).starts_with("GET /get?existing=param&name=Tiny HTTP/1.1\r\n"));
}

#[test]
fn cloned_request_serializes_the_same() {
    let req = get("http://h/a")
        .with_header("Accept", "text/plain")
        .with_query("q", "1");
    let req = req.redirect_to("/b".to_string()).unwrap();
    let copy = req.clone();
    assert_eq!(copy.as_bytes(), req.as_bytes());
    assert_eq!(copy.redirect_count(), 1);
}

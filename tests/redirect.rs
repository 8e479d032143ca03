use tinyget::{get, get_redirect, Connection, Error};

#[test]
fn redirect_to_absolute_location() {
    let req = get("http://localhost:35562/redirect");
    let next = req.redirect_to("http://localhost:35562/a".to_string()).unwrap();
    assert_eq!(next.resource(), "/a");
    assert_eq!(next.host(), "localhost:35562");
    assert_eq!(next.redirect_count(), 1);
}

#[test]
fn redirect_keeps_fragment() {
    let req = get("http://localhost:35562/redirect#foo");
    let next = req.redirect_to("http://localhost:35562/a".to_string()).unwrap();
    assert_eq!(next.resource(), "/a#foo");
}

#[test]
fn redirect_with_own_fragment_keeps_it() {
    let req = get("http://localhost:35562/redirect-baz#foo");
    let next = req
        .redirect_to("http://localhost:35562/a#baz".to_string())
        .unwrap();
    assert_eq!(next.resource(), "/a#baz");
}

#[test]
fn fragment_inherited_on_relative_redirect() {
    let req = get("http://h/x#frag");
    let next = req.redirect_to("/y".to_string()).unwrap();
    assert_eq!(next.resource(), "/y#frag");
    let req = get("http://h/x#frag");
    let next = req.redirect_to("/y#other".to_string()).unwrap();
    assert_eq!(next.resource(), "/y#other");
}

#[test]
fn relative_redirect_keeps_host() {
    let req = get("http://localhost:35562/relativeredirect");
    let next = req.redirect_to("/a".to_string()).unwrap();
    assert_eq!(next.resource(), "/a");
    assert_eq!(next.host(), "localhost:35562");
    assert!(!next.is_https());
}

#[test]
fn redirect_to_other_scheme_and_host() {
    let req = get("http://a.example/x");
    let next = req.redirect_to("https://b.example/y".to_string()).unwrap();
    assert!(next.is_https());
    assert_eq!(next.host(), "b.example:443");
    assert_eq!(next.resource(), "/y");
}

#[test]
fn redirect_back_and_forth_is_a_loop() {
    let req = get("http://localhost:35562/infiniteredirect");
    let req = req
        .redirect_to("http://localhost:35562/redirectpong".to_string())
        .unwrap();
    let r = req.redirect_to("http://localhost:35562/infiniteredirect".to_string());
    assert!(matches!(r, Err(Error::InfiniteRedirectionLoop)));
}

#[test]
fn redirect_to_same_location_is_a_loop() {
    let req = get("http://h/a");
    let r = req.redirect_to("/a".to_string());
    assert!(matches!(r, Err(Error::InfiniteRedirectionLoop)));
}

#[test]
fn third_redirect_over_limit_of_two_fails() {
    let req = get("http://h/0").with_max_redirects(2);
    let req = req.redirect_to("/1".to_string()).unwrap();
    let req = req.redirect_to("/2".to_string()).unwrap();
    let r = req.redirect_to("/3".to_string());
    assert!(matches!(r, Err(Error::TooManyRedirections)));
}

#[test]
fn zero_redirects_allowed_fails_at_once() {
    let req = get("http://h/0").with_max_redirects(0);
    assert!(matches!(
        req.redirect_to("/1".to_string()),
        Err(Error::TooManyRedirections)
    ));
}

#[test]
fn non_redirect_status_is_final() {
    let c = Connection::new(get("http://h/a"), None);
    let loc = "/b".to_string();
    assert!(get_redirect(c, 200, Some(&loc)).is_none());
    let c = Connection::new(get("http://h/a"), None);
    assert!(get_redirect(c, 308, Some(&loc)).is_none());
}

#[test]
fn redirect_status_without_location_fails() {
    for code in [301, 302, 303, 307] {
        let c = Connection::new(get("http://h/a"), None);
        assert!(matches!(
            get_redirect(c, code, None),
            Some(Err(Error::RedirectLocationMissing))
        ));
    }
}

#[test]
fn redirect_status_with_location_follows() {
    let c = Connection::new(get("http://h/a"), None);
    let loc = "/b".to_string();
    match get_redirect(c, 303, Some(&loc)) {
        Some(Ok(r)) => assert_eq!(r.resource(), "/b"),
        _ => panic!("expected a redirect"),
    }
}

#[test]
fn connection_timeout_resolution() {
    let c = Connection::new(get("http://h/a").with_timeout(3), Some(8));
    assert_eq!(c.get_timeout(), Some(3));
    let c = Connection::new(get("http://h/a"), Some(8));
    assert_eq!(c.get_timeout(), Some(8));
    let c = Connection::new(get("http://h/a"), None);
    assert_eq!(c.get_timeout(), None);
}

#[test]
fn connection_dns_name_drops_port() {
    let c = Connection::new(get("https://httpbin.org/status/418"), None);
    assert_eq!(c.dns_name(), "httpbin.org");
}

#[test]
fn bounce_with_fragment_only_on_second_url_is_caught_a_hop_later() {
    let req = get("http://h/a");
    let req = req.redirect_to("http://h/b#x".to_string()).unwrap();
    let req = req.redirect_to("http://h/a".to_string()).unwrap();
    assert_eq!(req.resource(), "/a#x");
    let r = req.redirect_to("http://h/b#x".to_string());
    assert!(matches!(r, Err(Error::InfiniteRedirectionLoop)));
}

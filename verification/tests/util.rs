use heimdall::http::{HeaderMap, Method, Request};
use heimdall::uri::{rewrite_uri_scheme, split_uri};
use heimdall::util::is_acme_challenge;

fn build_req(uri: &str, method: Method) -> Request {
    Request { method, uri: uri.to_string(), headers: HeaderMap::new() }
}

fn rewrite_text(uri: &str) -> String {
    rewrite_uri_scheme(split_uri(uri)).to_text()
}

#[test]
fn check_acme_challenge() {
    assert_eq!(
        is_acme_challenge(&build_req(
            "http://foo.bar/.well-known/acme-challenge/HGr8U1IeTW4kY_Z6UIyaakzOkyQgPr_7ArlLgtZE8SX",
            Method::Get
        )),
        Some("HGr8U1IeTW4kY_Z6UIyaakzOkyQgPr_7ArlLgtZE8SX".to_owned())
    );
    assert_eq!(
        is_acme_challenge(&build_req(
            "http://foo.bar/.well-known/acme-challenge/HGr8U1IeTW4kY_Z6UIyaakzOkyQgPr_7ArlLgtZE8SX",
            Method::Put
        )),
        None,
    );
    assert_eq!(is_acme_challenge(&build_req("http://foo.bar/", Method::Get)), None);
    assert_eq!(is_acme_challenge(&build_req("http://foo.bar/../../etc/passwd", Method::Get)), None);
    assert_eq!(is_acme_challenge(&build_req("http://foo.bar/..../etc/passwd", Method::Get)), None);
    assert_eq!(is_acme_challenge(&build_req("http://foo.bar/../../*", Method::Get)), None);
}

#[test]
fn acme_challenge_rejects_wrong_depth_and_dots() {
    assert_eq!(
        is_acme_challenge(&build_req("/.well-known/acme-challenge/tok", Method::Get)),
        Some("tok".to_owned())
    );
    assert_eq!(is_acme_challenge(&build_req("/.well-known/acme-challenge/", Method::Get)), None);
    assert_eq!(
        is_acme_challenge(&build_req("/.well-known/acme-challenge/a/b", Method::Get)),
        None
    );
    assert_eq!(is_acme_challenge(&build_req("/.well-known/acme-challenge/..", Method::Get)), None);
    assert_eq!(is_acme_challenge(&build_req("/.well-known/acme-challenge/.", Method::Get)), None);
    assert_eq!(is_acme_challenge(&build_req("/.well-known/other/tok", Method::Get)), None);
}

#[test]
fn check_rewrite_uri() {
    assert_eq!(rewrite_text("http://www.foo.bar"), "https://www.foo.bar");
    assert_eq!(rewrite_text("https://www.foo.bar"), "https://www.foo.bar");
    assert_eq!(rewrite_text("http://www.foo.bar/?foo=bar"), "https://www.foo.bar/?foo=bar");
    assert_eq!(
        rewrite_text("http://www.foo.bar/qwerty?foo=bar"),
        "https://www.foo.bar/qwerty?foo=bar"
    );
    assert_eq!(rewrite_text("http://localhost"), "https://localhost");

    let uri = rewrite_uri_scheme(split_uri("http://www.rust-lang.org/"));
    assert_eq!(uri.scheme.as_deref(), Some("https"));
    assert_eq!(uri.authority.as_deref(), Some("www.rust-lang.org"));
    assert_eq!(uri.path.as_str(), "/");
    assert_eq!(uri.query, None);

    let uri = rewrite_uri_scheme(split_uri("http://www.rust-lang.org/install.html?foo=bar&bar=foo"));
    assert_eq!(uri.scheme.as_deref(), Some("https"));
    assert_eq!(uri.authority.as_deref(), Some("www.rust-lang.org"));
    assert_eq!(uri.path.as_str(), "/install.html");
    assert_eq!(uri.query.as_deref(), Some("foo=bar&bar=foo"));
}

#[test]
fn rewrite_uri_scheme_is_idempotent() {
    for u in [
        "http://www.foo.bar",
        "https://already.example/x?q=1",
        "/origin/form?a=b",
        "",
        "http://host/install.html?x=1",
    ] {
        let once = rewrite_uri_scheme(split_uri(u)).to_text();
        let twice = rewrite_uri_scheme(split_uri(&once)).to_text();
        assert_eq!(once, twice);
        assert!(once.starts_with("https://"));
    }
}

#[test]
fn split_uri_origin_form() {
    let parts = split_uri("/home?asdf=foobar");
    assert_eq!(parts.scheme, None);
    assert_eq!(parts.authority, None);
    assert_eq!(parts.path.as_str(), "/home");
    assert_eq!(parts.query.as_deref(), Some("asdf=foobar"));
}

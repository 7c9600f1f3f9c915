use heimdall::http::{HeaderMap, Method, Request};
use heimdall::proxy::{is_hbh_header, prepare, strip_hbh};

const HBH_COUNT: usize = 8;

fn headers_map() -> HeaderMap {
    let mut headers = HeaderMap::new();
    headers.insert("CONNECTION", "val: T");
    headers.insert("keep-alive", "val: T");
    headers.insert("PROXY-Authenticate", "val: T");
    headers.insert("Proxy-Authorization", "val: T");
    headers.insert("te", "val: T");
    headers.insert("TRAILERS", "val: T");
    headers.insert("te", "val: T");
    headers.insert("Transfer-Encoding", "val: T");
    headers.insert("Upgrade", "val: T");
    headers
}

#[test]
fn strip_headers() {
    let headers = headers_map();
    assert_eq!(headers.len(), HBH_COUNT);
    assert_eq!(strip_hbh(&headers), HeaderMap::new());

    const HEADER: &str = "myheader";
    let mut headers = headers_map();
    headers.insert(HEADER, HEADER);
    assert_eq!(headers.len(), HBH_COUNT + 1);
    let headers = strip_hbh(&headers);
    assert_eq!(headers.len(), 1);
    assert_eq!(headers.get(HEADER).unwrap().as_str(), HEADER);
}

#[test]
fn hbh_names_are_case_insensitive() {
    assert!(is_hbh_header("Connection"));
    assert!(is_hbh_header("connection"));
    assert!(is_hbh_header("KEEP-ALIVE"));
    assert!(is_hbh_header("Proxy-Authenticate"));
    assert!(is_hbh_header("proxy-authorization"));
    assert!(is_hbh_header("Te"));
    assert!(is_hbh_header("Trailers"));
    assert!(is_hbh_header("Transfer-Encoding"));
    assert!(is_hbh_header("Upgrade"));
    assert!(!is_hbh_header("Host"));
    assert!(!is_hbh_header("X-Forwarded-For"));
}

#[test]
fn prepare_strips_and_adds_forwarding_header() {
    let mut headers = HeaderMap::new();
    headers.insert("Connection", "close");
    headers.insert("Host", "example.org");
    let req = Request { method: Method::Get, uri: "/home".to_string(), headers };
    let fwd = prepare(req, "10.1.2.3", "http://0.0.0.0:8000".to_string());
    assert_eq!(fwd.uri, "http://0.0.0.0:8000");
    assert_eq!(fwd.headers.len(), 2);
    assert_eq!(fwd.headers.get("host").unwrap().as_str(), "example.org");
    assert_eq!(fwd.headers.get("Connection"), None);
    assert_eq!(fwd.headers.get("X-Forwarded-For").unwrap().as_str(), "10.1.2.3");
}

#[test]
fn prepare_keeps_existing_forwarded_for() {
    let mut headers = HeaderMap::new();
    headers.insert("X-Forwarded-For", "192.168.0.7");
    let req = Request { method: Method::Post, uri: "/x".to_string(), headers };
    let fwd = prepare(req, "10.1.2.3", "http://0.0.0.0:9000/x".to_string());
    assert_eq!(fwd.headers.len(), 1);
    assert_eq!(fwd.headers.get("x-forwarded-for").unwrap().as_str(), "192.168.0.7");
}

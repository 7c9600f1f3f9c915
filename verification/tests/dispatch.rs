use heimdall::acl::AllowedMethods;
use heimdall::config::NetAddr;
use heimdall::dispatch::{
    handle_auxiliary, handle_proxy, invalid_request, redirect_to_https, token_response,
    AuxDecision, ProxyDecision,
};
use heimdall::http::{HeaderMap, Method, Request};
use heimdall::router::Router;

fn build_req(uri: &str, method: Method) -> Request {
    Request { method, uri: uri.to_string(), headers: HeaderMap::new() }
}

fn test_router() -> Router {
    let mut router = Router::new();
    router.add_route("/", NetAddr::new("0.0.0.0", 8080), AllowedMethods::Any, None);
    router.add_route(
        "/home",
        NetAddr::new("0.0.0.0", 8000),
        AllowedMethods::Only(vec![Method::Get]),
        None,
    );
    router
}

#[test]
fn proxied_request_is_forwarded_with_target_uri() {
    let router = test_router();
    let mut headers = HeaderMap::new();
    headers.insert("Upgrade", "h2c");
    headers.insert("Accept", "text/html");
    let req = Request { method: Method::Get, uri: "/home?a=1".to_string(), headers };
    match handle_proxy(req, "203.0.113.9", &router) {
        ProxyDecision::Forward(fwd) => {
            assert_eq!(fwd.uri, "http://0.0.0.0:8000/?a=1");
            assert_eq!(fwd.method, Method::Get);
            assert_eq!(fwd.headers.get("Upgrade"), None);
            assert_eq!(fwd.headers.get("Accept").unwrap().as_str(), "text/html");
            assert_eq!(fwd.headers.get("X-Forwarded-For").unwrap().as_str(), "203.0.113.9");
        },
        ProxyDecision::Reply(_) => panic!("expected a forwarded request"),
    }
}

#[test]
fn unrouted_request_gets_404() {
    let router = test_router();
    match handle_proxy(build_req("/notdefined", Method::Get), "1.2.3.4", &router) {
        ProxyDecision::Reply(resp) => {
            assert_eq!(resp.status, 404);
            assert_eq!(resp.body, b"No route defined!".to_vec());
        },
        ProxyDecision::Forward(_) => panic!("expected a reply"),
    }
}

#[test]
fn disallowed_method_gets_403() {
    let router = test_router();
    match handle_proxy(build_req("/home", Method::Post), "1.2.3.4", &router) {
        ProxyDecision::Reply(resp) => {
            assert_eq!(resp.status, 403);
            assert_eq!(resp.body, b"Invalid http method!".to_vec());
        },
        ProxyDecision::Forward(_) => panic!("expected a reply"),
    }
}

#[test]
fn auxiliary_serves_challenge_when_root_configured() {
    let req = build_req("/.well-known/acme-challenge/TOKEN123", Method::Get);
    match handle_auxiliary(req, false, Some("/srv/acme".to_string())) {
        AuxDecision::FetchToken(token) => assert_eq!(token, "TOKEN123"),
        AuxDecision::Reply(_) => panic!("expected a token fetch"),
    }
}

#[test]
fn auxiliary_traversal_attempt_is_not_served() {
    let req = build_req("/.well-known/acme-challenge/../../etc/passwd", Method::Get);
    match handle_auxiliary(req, false, Some("/srv/acme".to_string())) {
        AuxDecision::Reply(resp) => {
            assert_ne!(resp.status, 200);
            assert_eq!(resp.status, 403);
        },
        AuxDecision::FetchToken(_) => panic!("traversal must not reach the filesystem"),
    }
}

#[test]
fn auxiliary_redirects_to_https() {
    let req = build_req("http://host/install.html?x=1", Method::Get);
    match handle_auxiliary(req, true, None) {
        AuxDecision::Reply(resp) => {
            assert_eq!(resp.status, 301);
            assert_eq!(resp.headers.get("Location").unwrap().as_str(), "https://host/install.html?x=1");
        },
        AuxDecision::FetchToken(_) => panic!("expected a redirect"),
    }
}

#[test]
fn auxiliary_refuses_other_requests() {
    let req = build_req("/whatever", Method::Get);
    match handle_auxiliary(req, false, None) {
        AuxDecision::Reply(resp) => {
            assert_eq!(resp.status, 403);
            assert_eq!(resp.body, b"Invalid request!".to_vec());
        },
        AuxDecision::FetchToken(_) => panic!("expected a refusal"),
    }
}

#[test]
fn token_responses() {
    let found = token_response(Some(b"payload".to_vec()));
    assert_eq!(found.status, 200);
    assert_eq!(found.body, b"payload".to_vec());

    let missing = token_response(None);
    assert_eq!(missing.status, 404);
    assert_eq!(missing.body, b"Token not found!".to_vec());
}

#[test]
fn direct_responses() {
    let invalid = invalid_request();
    assert_eq!(invalid.status, 403);
    assert_eq!(invalid.body, b"Invalid request!".to_vec());

    let redirect = redirect_to_https(build_req("http://www.foo.bar", Method::Get));
    assert_eq!(redirect.status, 301);
    assert_eq!(redirect.headers.get("location").unwrap().as_str(), "https://www.foo.bar");
    assert_eq!(redirect.body, b"Redirect to https".to_vec());
}

use heimdall::acl::AllowedMethods;
use heimdall::config::{Config, NetAddr, RouteDefinition};
use heimdall::http::{HeaderMap, Method, Request};
use heimdall::router::{make_path, Router, RouterResult};

fn build_req(uri: &str, method: Method) -> Request {
    Request { method, uri: uri.to_string(), headers: HeaderMap::new() }
}

fn addr(ip: &str, port: u16) -> NetAddr {
    NetAddr::new(ip, port)
}

fn success(uri: &str) -> RouterResult {
    RouterResult::Success(uri.to_string())
}

fn test_router() -> Router {
    let mut router = Router::new();
    router.add_route("/", addr("0.0.0.0", 8080), AllowedMethods::Any, None);
    router.add_route(
        "/home",
        addr("0.0.0.0", 8000),
        AllowedMethods::Only(vec![Method::Get]),
        None,
    );
    router.add_route(
        "/specific",
        addr("0.0.0.0", 7000),
        AllowedMethods::Any,
        Some("/foobar".to_owned()),
    );
    router.add_route("/bulk/*any", addr("0.0.0.0", 3000), AllowedMethods::Any, None);
    router.add_route("/site/:name", addr("0.0.0.0", 5000), AllowedMethods::Any, None);
    router
}

#[test]
fn route_evaluation() {
    let router = test_router();

    assert_eq!(router.eval(&build_req("/", Method::Get)), success("http://0.0.0.0:8080"));
    assert_eq!(router.eval(&build_req("/home", Method::Get)), success("http://0.0.0.0:8000"));
    assert_eq!(
        router.eval(&build_req("/home?asdf=foobar", Method::Get)),
        success("http://0.0.0.0:8000/?asdf=foobar")
    );
    assert_eq!(router.eval(&build_req("/home/asdf", Method::Get)), RouterResult::NotDefined);
    assert_eq!(
        router.eval(&build_req("/bulk/qwerty", Method::Get)),
        success("http://0.0.0.0:3000/qwerty")
    );
    assert_eq!(
        router.eval(&build_req("/bulk/asdf/qwerty", Method::Get)),
        success("http://0.0.0.0:3000/asdf/qwerty")
    );
    assert_eq!(router.eval(&build_req("/home", Method::Post)), RouterResult::NotAllowedMethod);
    assert_eq!(
        router.eval(&build_req("/specific", Method::Get)),
        success("http://0.0.0.0:7000/foobar")
    );
    assert_eq!(router.eval(&build_req("/notdefined", Method::Get)), RouterResult::NotDefined);
}

#[test]
fn named_parameter_captures_one_segment() {
    let router = test_router();
    assert_eq!(
        router.eval(&build_req("/site/rust", Method::Get)),
        success("http://0.0.0.0:5000/rust")
    );
    assert_eq!(router.eval(&build_req("/site/a/b", Method::Get)), RouterResult::NotDefined);
}

#[test]
fn literal_route_beats_parameter_and_wildcard() {
    let mut router = Router::new();
    router.add_route("/x/*rest", addr("0.0.0.0", 1000), AllowedMethods::Any, None);
    router.add_route("/x/:name", addr("0.0.0.0", 2000), AllowedMethods::Any, None);
    router.add_route("/x/lit", addr("0.0.0.0", 3000), AllowedMethods::Any, None);
    assert_eq!(router.eval(&build_req("/x/lit", Method::Get)), success("http://0.0.0.0:3000"));
    assert_eq!(router.eval(&build_req("/x/other", Method::Get)), success("http://0.0.0.0:2000/other"));
    assert_eq!(router.eval(&build_req("/x/a/b", Method::Get)), success("http://0.0.0.0:1000/a/b"));
}

#[test]
fn later_route_overlays_earlier_on_same_pattern() {
    let mut router = Router::new();
    router.add_route("/dup", addr("0.0.0.0", 1111), AllowedMethods::Any, None);
    router.add_route("/dup", addr("0.0.0.0", 2222), AllowedMethods::Any, None);
    assert_eq!(router.eval(&build_req("/dup", Method::Get)), success("http://0.0.0.0:2222"));
}

#[test]
fn sources_are_normalized_before_insertion() {
    let mut router = Router::new();
    router.add_route("//home//", addr("0.0.0.0", 4000), AllowedMethods::Any, None);
    router.add_route("stuff", addr("0.0.0.0", 4500), AllowedMethods::Any, None);
    assert_eq!(router.eval(&build_req("/home", Method::Get)), success("http://0.0.0.0:4000"));
    assert_eq!(router.eval(&build_req("/stuff", Method::Get)), success("http://0.0.0.0:4500"));
}

#[test]
fn make_path_normalizes() {
    assert_eq!(make_path("//a//b/".to_string()), "/a/b");
    assert_eq!(make_path("a/b".to_string()), "/a/b");
    assert_eq!(make_path("".to_string()), "/");
    assert_eq!(make_path("/".to_string()), "/");
    assert_eq!(make_path("///".to_string()), "/");
    assert_eq!(make_path("/a/".to_string()), "/a");
}

#[test]
fn make_path_is_idempotent_on_samples() {
    for p in ["", "/", "a//b", "//x/y//", "/already/normal", "..//.."] {
        let once = make_path(p.to_string());
        let twice = make_path(once.clone());
        assert_eq!(once, twice);
    }
}

#[test]
fn authority_renders_ip_and_port_in_decimal() {
    let mut router = Router::new();
    router.add_route("/p", addr("192.168.0.1", 65535), AllowedMethods::Any, None);
    router.add_route("/q", addr("10.0.0.1", 7), AllowedMethods::Any, None);
    assert_eq!(router.eval(&build_req("/p", Method::Get)), success("http://192.168.0.1:65535"));
    assert_eq!(router.eval(&build_req("/q", Method::Get)), success("http://10.0.0.1:7"));
}

#[test]
fn eval_is_deterministic_and_clone_routes_alike() {
    let router = test_router();
    let req = build_req("/bulk/a/b?q=1", Method::Get);
    let first = router.eval(&req);
    let second = router.eval(&req);
    assert_eq!(first, second);
    let clone = router.clone();
    assert_eq!(clone.eval(&req), first);
}

#[test]
fn from_config_compiles_the_route_table() {
    let config = Config {
        listen: addr("0.0.0.0", 8443),
        cert_file: "cert.pem".to_string(),
        pkey_file: "key.pem".to_string(),
        auxiliary_listen: None,
        redirect_to_https: false,
        acme_web_root: None,
        routes: vec![
            RouteDefinition {
                source: "/".to_string(),
                target: addr("0.0.0.0", 8080),
                target_path: None,
                allowed_methods: vec![],
            },
            RouteDefinition {
                source: "/home".to_string(),
                target: addr("0.0.0.0", 8000),
                target_path: None,
                allowed_methods: vec!["GET".to_string()],
            },
        ],
    };
    let router = Router::from_config(config);
    assert_eq!(router.eval(&build_req("/", Method::Get)), success("http://0.0.0.0:8080"));
    assert_eq!(router.eval(&build_req("/home", Method::Get)), success("http://0.0.0.0:8000"));
    assert_eq!(router.eval(&build_req("/home", Method::Post)), RouterResult::NotAllowedMethod);
}

use heimdall::acl::{parse_allowed_methods, AllowedMethods};
use heimdall::http::Method;

#[test]
fn valid_acl() {
    let allowed = parse_allowed_methods(vec!["GET".to_owned()]);
    assert_eq!(allowed.contains(&Method::Get), true);
    assert_eq!(allowed.contains(&Method::Patch), false);

    assert_eq!(parse_allowed_methods(vec![]), AllowedMethods::Any);
    let all_methods = vec![
        Method::Options,
        Method::Get,
        Method::Post,
        Method::Put,
        Method::Delete,
        Method::Head,
        Method::Trace,
        Method::Connect,
        Method::Patch,
    ];
    let methods = parse_allowed_methods(vec![
        "Options".to_owned(),
        "GET".to_owned(),
        "POST".to_owned(),
        "pUT".to_owned(),
        "delete".to_owned(),
        "Head".to_owned(),
        "trace".to_owned(),
        "Connect".to_owned(),
        "patch".to_owned(),
    ]);
    assert_eq!(AllowedMethods::Only(all_methods), methods);
}

#[test]
fn any_allows_every_method() {
    let any = AllowedMethods::Any;
    for m in [
        Method::Options,
        Method::Get,
        Method::Post,
        Method::Put,
        Method::Delete,
        Method::Head,
        Method::Trace,
        Method::Connect,
        Method::Patch,
        Method::Other,
    ] {
        assert!(any.contains(&m));
    }
}

#[test]
fn only_list_never_admits_extension_methods() {
    let only = parse_allowed_methods(vec!["get".to_owned(), "POST".to_owned()]);
    assert!(only.contains(&Method::Get));
    assert!(only.contains(&Method::Post));
    assert!(!only.contains(&Method::Other));
    assert!(!only.contains(&Method::Delete));
}

#[test]
fn allow_list_clone_is_equal() {
    let only = parse_allowed_methods(vec!["head".to_owned()]);
    assert_eq!(only.clone(), only);
    assert_eq!(AllowedMethods::Any.clone(), AllowedMethods::Any);
}

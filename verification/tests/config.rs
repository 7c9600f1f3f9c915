use heimdall::config::{Config, ConfigError};
use heimdall::tls::{alpn_protocols, error, single_key};

#[test]
fn default_config_values() {
    let config = Config::default();
    assert_eq!(config.listen.ip, "0.0.0.0");
    assert_eq!(config.listen.port, 8443);
    assert_eq!(config.cert_file, "cert.pem");
    assert_eq!(config.pkey_file, "key.pem");
    assert!(config.auxiliary_listen.is_none());
    assert!(!config.redirect_to_https);
    assert!(config.acme_web_root.is_none());
    assert_eq!(config.routes.len(), 2);
    assert_eq!(config.routes[0].source, "/");
    assert_eq!(config.routes[0].target.ip, "127.0.0.1");
    assert_eq!(config.routes[0].target.port, 8000);
    assert!(config.routes[0].allowed_methods.is_empty());
    assert_eq!(config.routes[1].source, "/stuff");
    assert_eq!(config.routes[1].target.port, 7000);
    assert_eq!(config.routes[1].allowed_methods, vec!["GET", "POST"]);
}

#[test]
fn config_error_messages() {
    assert_eq!(ConfigError::Io("gone".to_string()).message().as_str(), "gone");
    assert_eq!(ConfigError::TomlDe("bad key".to_string()).message().as_str(), "bad key");
    assert_eq!(ConfigError::TomlSer("cycle".to_string()).message().as_str(), "cycle");
}

#[test]
fn single_key_accepts_exactly_one() {
    assert_eq!(single_key(vec![41u8]).ok(), Some(41));
    let none: Vec<u8> = vec![];
    assert_eq!(
        single_key(none).err().map(|e| e.msg),
        Some("expected a single private key".to_string())
    );
    assert_eq!(
        single_key(vec![1u8, 2u8]).err().map(|e| e.msg),
        Some("expected a single private key".to_string())
    );
}

#[test]
fn tls_error_keeps_message() {
    assert_eq!(error("failed to open cert.pem".to_string()).msg, "failed to open cert.pem");
}

#[test]
fn alpn_prefers_h2_then_http11() {
    let alpn = alpn_protocols();
    assert_eq!(alpn.len(), 2);
    assert_eq!(alpn[0], b"h2".to_vec());
    assert_eq!(alpn[1], b"http/1.1".to_vec());
}

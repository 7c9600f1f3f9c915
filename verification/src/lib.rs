//! A verified core for a TLS-terminating reverse HTTP proxy.
//!
//! The crate models HTTP requests, routes and responses as plain values and
//! proves the gateway's decision logic: method allow-lists, route-pattern
//! matching, proxy header rewriting, HTTPS redirection and the ACME
//! challenge recognizer. All I/O (TLS, sockets, files, the CLI) lives in the
//! surrounding application, which hands the library plain values.

pub mod acl;
pub mod config;
pub mod dispatch;
pub mod http;
pub mod proxy;
pub mod router;
pub mod text;
pub mod tls;
pub mod uri;
pub mod util;

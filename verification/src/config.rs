//! The gateway's configuration model: a validated, immutable description of
//! the listeners, the certificate material locations, the auxiliary
//! services and the route table.
//!
//! Reading the TOML file and writing the default one are I/O and live in
//! the surrounding application, which hands over (and takes back) this
//! plain form.

use vstd::prelude::*;
use vstd::string::StringExecFns;

verus! {

/// A socket address as an IP literal and a port. The textual authority the
/// gateway builds from it is `ip:port`, as the original `IP:port`
/// configuration strings are written.
pub struct NetAddr {
    pub ip: String,
    pub port: u16,
}

/// The mathematical form of an address: the IP text and the port.
pub ghost struct NetAddrView {
    pub ip: Seq<char>,
    pub port: u16,
}

impl View for NetAddr {
    type V = NetAddrView;

    open spec fn view(&self) -> NetAddrView {
        NetAddrView { ip: self.ip@, port: self.port }
    }
}

/// Whether two addresses name the same IP text and port.
pub open spec fn same_addr(a: &NetAddr, b: &NetAddr) -> bool {
    a@ == b@
}

impl NetAddr {
    /// An address from its parts.
    pub fn new(ip: &str, port: u16) -> (r: NetAddr)
        ensures
            r.ip@ == ip@,
            r.port == port,
    {
        NetAddr { ip: String::from_str(ip), port }
    }
}

impl Clone for NetAddr {
    /// Cloning keeps the IP text and the port.
    fn clone(&self) -> (r: Self)
        ensures
            same_addr(&r, self),
    {
        NetAddr { ip: self.ip.clone(), port: self.port }
    }
}

/// One `[[routes]]` entry, as configured: a path pattern, the upstream
/// address, an optional path prefix for the upstream request, and the
/// method allow-list tokens (empty means any method).
pub struct RouteDefinition {
    pub source: String,
    pub target: NetAddr,
    pub target_path: Option<String>,
    pub allowed_methods: Vec<String>,
}

/// The whole configuration: the TLS listener address, certificate and key
/// file paths, the optional plaintext auxiliary listener, the
/// HTTP-to-HTTPS redirect flag, the optional ACME web root, and the routes
/// in configuration order.
pub struct Config {
    pub listen: NetAddr,
    pub cert_file: String,
    pub pkey_file: String,
    pub auxiliary_listen: Option<NetAddr>,
    pub redirect_to_https: bool,
    pub acme_web_root: Option<String>,
    pub routes: Vec<RouteDefinition>,
}

impl Default for Config {
    /// The configuration written by the `default` subcommand: a TLS
    /// listener on `0.0.0.0:8443`, placeholder certificate paths, no
    /// auxiliary services, and two sample routes.
    fn default() -> (r: Config)
        ensures
            r.listen.ip@ == "0.0.0.0"@,
            r.listen.port == 8443,
            r.cert_file@ == "cert.pem"@,
            r.pkey_file@ == "key.pem"@,
            r.auxiliary_listen is None,
            !r.redirect_to_https,
            r.acme_web_root is None,
            r.routes@.len() == 2,
            r.routes@[0].source@ == "/"@,
            r.routes@[0].target.ip@ == "127.0.0.1"@,
            r.routes@[0].target.port == 8000,
            r.routes@[0].target_path is None,
            r.routes@[0].allowed_methods@.len() == 0,
            r.routes@[1].source@ == "/stuff"@,
            r.routes@[1].target.ip@ == "127.0.0.1"@,
            r.routes@[1].target.port == 7000,
            r.routes@[1].target_path is None,
            r.routes@[1].allowed_methods@.len() == 2,
            r.routes@[1].allowed_methods@[0]@ == "GET"@,
            r.routes@[1].allowed_methods@[1]@ == "POST"@,
    {
        let mut methods: Vec<String> = Vec::new();
        methods.push(String::from_str("GET"));
        methods.push(String::from_str("POST"));
        let mut routes: Vec<RouteDefinition> = Vec::new();
        routes.push(
            RouteDefinition {
                source: String::from_str("/"),
                target: NetAddr::new("127.0.0.1", 8000),
                target_path: None,
                allowed_methods: Vec::new(),
            },
        );
        routes.push(
            RouteDefinition {
                source: String::from_str("/stuff"),
                target: NetAddr::new("127.0.0.1", 7000),
                target_path: None,
                allowed_methods: methods,
            },
        );
        Config {
            listen: NetAddr::new("0.0.0.0", 8443),
            cert_file: String::from_str("cert.pem"),
            pkey_file: String::from_str("key.pem"),
            auxiliary_listen: None,
            redirect_to_https: false,
            acme_web_root: None,
            routes,
        }
    }
}

/// A configuration-loading failure, with the underlying error's text. The
/// application maps its file and TOML errors into these variants.
pub enum ConfigError {
    Io(String),
    TomlDe(String),
    TomlSer(String),
}

impl ConfigError {
    /// The error's text.
    pub fn message(&self) -> (r: &String)
        ensures
            match self {
                ConfigError::Io(m) => r@ == m@,
                ConfigError::TomlDe(m) => r@ == m@,
                ConfigError::TomlSer(m) => r@ == m@,
            },
    {
        match self {
            ConfigError::Io(m) => m,
            ConfigError::TomlDe(m) => m,
            ConfigError::TomlSer(m) => m,
        }
    }
}

} // verus!

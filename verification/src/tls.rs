//! The decision rules of the TLS setup.
//!
//! Reading certificate and key files and building the actual TLS context
//! are I/O against the TLS stack and live in the surrounding application;
//! the rules it must follow — the error text form, the single-key
//! requirement, and the ALPN preference order — are stated and verified
//! here.

use vstd::prelude::*;
use vstd::string::StrSliceExecFns;
use vstd::string::StringSliceAdditionalSpecFns;

verus! {

/// A TLS-setup failure, carrying its description.
pub struct TlsError {
    pub msg: String,
}

/// Wraps an error description, as the TLS loaders report their failures.
pub fn error(err: String) -> (r: TlsError)
    ensures
        r.msg@ == err@,
{
    TlsError { msg: err }
}

/// Picks the single private key a key file must hold: exactly one key
/// succeeds; zero or several are rejected.
pub fn single_key<T>(keys: Vec<T>) -> (r: Result<T, TlsError>)
    ensures
        keys@.len() == 1 ==> (r matches Ok(k) && k == keys@[0]),
        keys@.len() != 1 ==> (r matches Err(e) && e.msg@ == "expected a single private key"@),
{
    let mut keys = keys;
    if keys.len() == 1 {
        match keys.pop() {
            Some(k) => Ok(k),
            None => unreached(),
        }
    } else {
        Err(error("expected a single private key".to_owned()))
    }
}

/// The ALPN identifiers the TLS listener advertises: `h2`, then
/// `http/1.1`, in that preference order.
pub fn alpn_protocols() -> (r: Vec<Vec<u8>>)
    ensures
        r@.len() == 2,
        r@[0]@ == "h2".spec_bytes(),
        r@[1]@ == "http/1.1".spec_bytes(),
{
    let mut r: Vec<Vec<u8>> = Vec::new();
    r.push("h2".as_bytes_vec());
    r.push("http/1.1".as_bytes_vec());
    r
}

} // verus!

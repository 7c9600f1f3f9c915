//! The ACME HTTP-01 challenge recognizer.
//!
//! A challenge request is a `GET` whose path is exactly
//! `/.well-known/acme-challenge/<token>` with one non-empty token segment:
//! no extra slashes, no further segments, and neither `.` nor `..`, so a
//! recognized token is safe to use as a bare file name under the ACME web
//! root.

use vstd::prelude::*;
use vstd::string::StrSliceExecFns;
use vstd::string::StringExecFns;

use crate::http::{Method, Request};
use crate::text::str_eq;
use crate::uri::{split_uri, uri_path};

verus! {

/// A usable token segment: non-empty, free of `/`, and neither `.` nor
/// `..`.
pub open spec fn is_token_seg(t: Seq<char>) -> bool {
    &&& t.len() > 0
    &&& (forall|i: int| 0 <= i < t.len() ==> t[i] != '/')
    &&& t != "."@
    &&& t != ".."@
}

/// The token of an ACME challenge request, if it is one: the method is
/// `GET` and the URI's path is `/.well-known/acme-challenge/` followed by
/// one token segment.
pub open spec fn acme_token_of(method: Method, uri: Seq<char>) -> Option<Seq<char>> {
    let path = uri_path(uri);
    let pfx = "/.well-known/acme-challenge/"@;
    if method == Method::Get && path.len() > pfx.len() && path.take(pfx.len() as int) == pfx
        && is_token_seg(path.skip(pfx.len() as int)) {
        Some(path.skip(pfx.len() as int))
    } else {
        None
    }
}

/// Recognizes an ACME HTTP-01 challenge request, returning its token:
/// `Some` exactly when the request is a `GET` for
/// `/.well-known/acme-challenge/<token>` with a single well-formed token
/// segment; traversal attempts and paths of any other depth yield `None`.
#[verifier::loop_isolation(false)]
pub fn is_acme_challenge(request: &Request) -> (r: Option<String>)
    ensures
        r is Some <==> acme_token_of(request@.method, request@.uri) is Some,
        r matches Some(t) ==> acme_token_of(request@.method, request@.uri) == Some(t@),
{
    if !(request.method == Method::Get) {
        return None;
    }
    let parts = split_uri(request.uri.as_str());
    let path = parts.path.as_str();
    let ghost pathv = uri_path(request@.uri);
    proof {
        assert(path@ == pathv);
    }
    let prefix = "/.well-known/acme-challenge/";
    let pfxlen = prefix.unicode_len();
    let plen = path.unicode_len();
    if plen <= pfxlen {
        return None;
    }
    let head = path.substring_char(0, pfxlen);
    if !str_eq(head, prefix) {
        proof {
            assert(pathv.take(prefix@.len() as int) != prefix@);
        }
        return None;
    }
    let token = path.substring_char(pfxlen, plen);
    let ghost tokenv = pathv.skip(prefix@.len() as int);
    proof {
        assert(token@ == tokenv);
    }
    let tlen = plen - pfxlen;
    let mut i: usize = 0;
    while i < tlen
        invariant
            tlen == token@.len(),
            i <= tlen,
            forall|j: int| 0 <= j < i ==> token@[j] != '/',
        decreases tlen - i,
    {
        if token.get_char(i) == '/' {
            proof {
                assert(!is_token_seg(tokenv));
            }
            return None;
        }
        i += 1;
    }
    if str_eq(token, ".") || str_eq(token, "..") {
        proof {
            assert(!is_token_seg(tokenv));
        }
        return None;
    }
    proof {
        assert(is_token_seg(tokenv));
    }
    Some(String::from_str(token))
}

} // verus!

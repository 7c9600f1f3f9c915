//! The per-request decisions of the two front ends.
//!
//! The TLS front end routes a request and either forwards it upstream or
//! answers `404`/`403` itself. The plaintext auxiliary front end serves
//! ACME challenge tokens, redirects to HTTPS, or refuses the request. The
//! decisions are computed here on plain values; the application performs
//! the I/O each one calls for.

use vstd::prelude::*;
use vstd::string::StringSliceAdditionalSpecFns;

use crate::acl::admits;
use crate::http::{header_value, Request, Response};
use crate::proxy::{prepare, strip_hbh_spec};
use crate::router::{best_route, pat_captures, path_segments, success_uri, Router, RouterResult};
use crate::uri::{rewrite_scheme_spec, rewrite_uri_scheme, split_uri, uri_parts, uri_path,
    uri_query, uri_text};
use crate::util::{acme_token_of, is_acme_challenge};

verus! {

/// What the TLS front end does with a routed request: forward the prepared
/// request upstream, or answer the client directly.
pub enum ProxyDecision {
    Forward(Request),
    Reply(Response),
}

/// Routes one request. A matched route with an admitted method yields the
/// forwardable request: target URI installed, hop-by-hop headers
/// stripped, `X-Forwarded-For` filled per policy. No route yields a `404`
/// with body `No route defined!`; a disallowed method yields a `403` with
/// body `Invalid http method!`.
pub fn handle_proxy(req: Request, peer_ip: &str, router: &Router) -> (r: ProxyDecision)
    ensures
        ({
            let segs = path_segments(uri_path(req@.uri));
            let best = best_route(router@, segs);
            &&& (best is None ==> (r matches ProxyDecision::Reply(resp) && resp@.status == 404
                && resp@.body == "No route defined!".spec_bytes() && resp@.headers.len() == 0))
            &&& (best matches Some(j) ==> (if admits(router@[j].target.methods, req@.method) {
                r matches ProxyDecision::Forward(fwd) && fwd@.method == req@.method && fwd@.uri
                    == success_uri(
                    router@[j].target,
                    pat_captures(router@[j].pattern, segs),
                    uri_query(req@.uri),
                ) && ({
                    let stripped = strip_hbh_spec(req@.headers);
                    if crate::http::has_header(stripped, "x-forwarded-for"@) {
                        fwd@.headers == stripped
                    } else {
                        fwd@.headers == stripped.push(("x-forwarded-for"@, peer_ip@))
                    }
                })
            } else {
                r matches ProxyDecision::Reply(resp) && resp@.status == 403 && resp@.body
                    == "Invalid http method!".spec_bytes() && resp@.headers.len() == 0
            }))
        }),
{
    match router.eval(&req) {
        RouterResult::Success(uri) => ProxyDecision::Forward(prepare(req, peer_ip, uri)),
        RouterResult::NotDefined => ProxyDecision::Reply(Response::text(404, "No route defined!")),
        RouterResult::NotAllowedMethod => ProxyDecision::Reply(
            Response::text(403, "Invalid http method!"),
        ),
    }
}

/// A `301 Moved Permanently` pointing at the request's URI with its
/// scheme upgraded to `https` (authority kept, or `localhost` if none).
pub fn redirect_to_https(request: Request) -> (r: Response)
    ensures
        r@.status == 301,
        header_value(r@.headers, "Location"@) == Some(
            uri_text(rewrite_scheme_spec(uri_parts(request@.uri))),
        ),
        r@.body == "Redirect to https".spec_bytes(),
{
    let parts = split_uri(request.uri.as_str());
    let location = rewrite_uri_scheme(parts).to_text();
    let mut r = Response::text(301, "Redirect to https");
    r.headers.insert("Location", location.as_str());
    proof {
        assert(r@.headers =~= seq![("Location"@, location@)]);
        assert(header_value(r@.headers, "Location"@) == Some(location@));
    }
    r
}

/// A `403 Forbidden` with body `Invalid request!`, for an auxiliary
/// request that is neither a challenge nor redirectable.
pub fn invalid_request() -> (r: Response)
    ensures
        r@.status == 403,
        r@.body == "Invalid request!".spec_bytes(),
        r@.headers.len() == 0,
{
    Response::text(403, "Invalid request!")
}

/// What the auxiliary front end does with a request: read a challenge
/// token file, or answer directly.
pub enum AuxDecision {
    FetchToken(String),
    Reply(Response),
}

/// Decides one auxiliary request: a challenge request with an ACME web
/// root configured asks for its token file; otherwise, with the redirect
/// flag set, the client is redirected to HTTPS; otherwise the request is
/// refused.
pub fn handle_auxiliary(request: Request, http_redirect: bool, acme_web_root: Option<String>) -> (r:
    AuxDecision)
    ensures
        ({
            let tok = acme_token_of(request@.method, request@.uri);
            if tok is Some && acme_web_root is Some {
                r matches AuxDecision::FetchToken(t) && Some(t@) == tok
            } else if http_redirect {
                r matches AuxDecision::Reply(resp) && resp@.status == 301 && header_value(
                    resp@.headers,
                    "Location"@,
                ) == Some(uri_text(rewrite_scheme_spec(uri_parts(request@.uri)))) && resp@.body
                    == "Redirect to https".spec_bytes()
            } else {
                r matches AuxDecision::Reply(resp) && resp@.status == 403 && resp@.body
                    == "Invalid request!".spec_bytes()
            }
        }),
{
    let token = is_acme_challenge(&request);
    match token {
        Some(t) if acme_web_root.is_some() => AuxDecision::FetchToken(t),
        _ => {
            if http_redirect {
                AuxDecision::Reply(redirect_to_https(request))
            } else {
                AuxDecision::Reply(invalid_request())
            }
        },
    }
}

/// The response for a challenge token lookup: the file's bytes with `200
/// OK` when it could be read, else a `404` with body `Token not found!`.
pub fn token_response(token: Option<Vec<u8>>) -> (r: Response)
    ensures
        match token {
            Some(bytes) => r@.status == 200 && r@.body == bytes@,
            None => r@.status == 404 && r@.body == "Token not found!".spec_bytes(),
        },
        r@.headers.len() == 0,
{
    match token {
        Some(bytes) => Response {
            status: 200,
            headers: crate::http::HeaderMap::new(),
            body: bytes,
        },
        None => Response::text(404, "Token not found!"),
    }
}

} // verus!

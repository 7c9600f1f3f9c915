//! A plain-value model of the URIs the gateway reads and writes: a URI
//! text splits into scheme, authority, and a path with an optional query.
//!
//! The split takes the text before the first `://` as the scheme, the rest
//! up to the first `/` or `?` as the authority, and what remains as path
//! and query; a text without `://` is all path and query, as in an HTTP
//! origin-form request target.

use vstd::prelude::*;
use vstd::string::StrSliceExecFns;
use vstd::string::StringExecFns;

use crate::text::{first_idx, lemma_first_idx_bounds, lemma_first_idx_value};

verus! {

/// A split URI.
pub struct UriParts {
    pub scheme: Option<String>,
    pub authority: Option<String>,
    pub path: String,
    pub query: Option<String>,
}

/// The mathematical form of a split URI.
pub ghost struct UriView {
    pub scheme: Option<Seq<char>>,
    pub authority: Option<Seq<char>>,
    pub path: Seq<char>,
    pub query: Option<Seq<char>>,
}

impl View for UriParts {
    type V = UriView;

    open spec fn view(&self) -> UriView {
        UriView {
            scheme: match self.scheme {
                Some(s) => Some(s@),
                None => None,
            },
            authority: match self.authority {
                Some(a) => Some(a@),
                None => None,
            },
            path: self.path@,
            query: match self.query {
                Some(q) => Some(q@),
                None => None,
            },
        }
    }
}

/// Whether `u` holds the three characters `://` at position `j`.
pub open spec fn sep_at(u: Seq<char>, j: int) -> bool {
    0 <= j && j + 3 <= u.len() && u[j] == ':' && u[j + 1] == '/' && u[j + 2] == '/'
}

/// The position of the first `://` in `u`, or `-1` when there is none.
pub open spec fn find_sep(u: Seq<char>) -> int
    decreases u.len(),
{
    if u.len() < 3 {
        -1
    } else if u[0] == ':' && u[1] == '/' && u[2] == '/' {
        0
    } else {
        let r = find_sep(u.drop_first());
        if r < 0 {
            -1
        } else {
            1 + r
        }
    }
}

/// If `://` stands at `k` and nowhere earlier, `find_sep` is `k`.
pub proof fn lemma_find_sep_found(u: Seq<char>, k: int)
    requires
        sep_at(u, k),
        forall|j: int| 0 <= j < k ==> !sep_at(u, j),
    ensures
        find_sep(u) == k,
    decreases u.len(),
{
    if k == 0 {
    } else {
        assert(!sep_at(u, 0));
        assert(u.len() >= 3);
        let d = u.drop_first();
        assert(sep_at(d, k - 1)) by {
            assert(d[k - 1] == u[k]);
            assert(d[k] == u[k + 1]);
            assert(d[k + 1] == u[k + 2]);
        }
        assert forall|j: int| 0 <= j < k - 1 implies !sep_at(d, j) by {
            assert(d[j] == u[j + 1]);
            assert(d[j + 1] == u[j + 2]);
            assert(d[j + 2] == u[j + 3]);
            assert(!sep_at(u, j + 1));
        }
        lemma_find_sep_found(d, k - 1);
    }
}

/// If `://` stands nowhere in `u`, `find_sep` is `-1`.
pub proof fn lemma_find_sep_none(u: Seq<char>)
    requires
        forall|j: int| !sep_at(u, j),
    ensures
        find_sep(u) == -1,
    decreases u.len(),
{
    if u.len() < 3 {
    } else {
        assert(!sep_at(u, 0));
        let d = u.drop_first();
        assert forall|j: int| !sep_at(d, j) by {
            if 0 <= j && j + 3 <= d.len() {
                assert(d[j] == u[j + 1]);
                assert(d[j + 1] == u[j + 2]);
                assert(d[j + 2] == u[j + 3]);
                assert(!sep_at(u, j + 1));
            }
        }
        lemma_find_sep_none(d);
    }
}

/// The characters that end an authority.
pub open spec fn stop_pred() -> spec_fn(char) -> bool {
    |c: char| c == '/' || c == '?'
}

/// The character that starts a query.
pub open spec fn qmark_pred() -> spec_fn(char) -> bool {
    |c: char| c == '?'
}

/// The scheme of a URI text: what stands before the first `://`, if any.
pub open spec fn uri_scheme(u: Seq<char>) -> Option<Seq<char>> {
    if find_sep(u) >= 0 {
        Some(u.take(find_sep(u)))
    } else {
        None
    }
}

/// The authority of a URI text: after `://`, up to the first `/` or `?`.
pub open spec fn uri_authority(u: Seq<char>) -> Option<Seq<char>> {
    if find_sep(u) >= 0 {
        let rest = u.skip(find_sep(u) + 3);
        Some(rest.take(first_idx(rest, stop_pred())))
    } else {
        None
    }
}

/// The path-and-query of a URI text: everything after the authority, or
/// the whole text when there is no scheme.
pub open spec fn uri_pq(u: Seq<char>) -> Seq<char> {
    if find_sep(u) >= 0 {
        let rest = u.skip(find_sep(u) + 3);
        rest.skip(first_idx(rest, stop_pred()))
    } else {
        u
    }
}

/// The path of a URI text: its path-and-query up to the first `?`.
pub open spec fn uri_path(u: Seq<char>) -> Seq<char> {
    let pq = uri_pq(u);
    pq.take(first_idx(pq, qmark_pred()))
}

/// The query of a URI text: what follows the first `?` of its
/// path-and-query, if any.
pub open spec fn uri_query(u: Seq<char>) -> Option<Seq<char>> {
    let pq = uri_pq(u);
    let q = first_idx(pq, qmark_pred());
    if q < pq.len() {
        Some(pq.skip(q + 1))
    } else {
        None
    }
}

/// The split of a whole URI text.
pub open spec fn uri_parts(u: Seq<char>) -> UriView {
    UriView {
        scheme: uri_scheme(u),
        authority: uri_authority(u),
        path: uri_path(u),
        query: uri_query(u),
    }
}

/// Finds the first `/` or `?` of `s` at or after `from`, scanning chars.
fn scan_stop(s: &str, from: usize, qmark_only: bool) -> (r: usize)
    requires
        from <= s@.len(),
    ensures
        from <= r <= s@.len(),
        r - from == first_idx(
            s@.skip(from as int),
            if qmark_only {
                qmark_pred()
            } else {
                stop_pred()
            },
        ),
{
    let ghost p = if qmark_only {
        qmark_pred()
    } else {
        stop_pred()
    };
    let len = s.unicode_len();
    let mut k: usize = from;
    while k < len
        invariant
            from <= k <= len,
            len == s@.len(),
            forall|j: int| from <= j < k ==> !p(s@[j]),
            p == (if qmark_only {
                qmark_pred()
            } else {
                stop_pred()
            }),
        decreases len - k,
    {
        let c = s.get_char(k);
        let hit = if qmark_only {
            c == '?'
        } else {
            c == '/' || c == '?'
        };
        if hit {
            proof {
                assert(p(s@[k as int]));
                assert forall|j: int| 0 <= j < k - from implies !p(s@.skip(from as int)[j]) by {
                    assert(s@.skip(from as int)[j] == s@[j + from]);
                }
                assert(s@.skip(from as int)[k - from] == s@[k as int]);
                lemma_first_idx_value(s@.skip(from as int), p, k - from);
            }
            return k;
        }
        k += 1;
    }
    proof {
        assert forall|j: int| 0 <= j < len - from implies !p(s@.skip(from as int)[j]) by {
            assert(s@.skip(from as int)[j] == s@[j + from]);
        }
        lemma_first_idx_value(s@.skip(from as int), p, len - from);
    }
    len
}

/// Splits a URI text into scheme, authority, path and query.
pub fn split_uri(s: &str) -> (r: UriParts)
    ensures
        r@ == uri_parts(s@),
{
    let len = s.unicode_len();
    // Find the first `://`.
    let mut k: usize = 0;
    let mut sep: Option<usize> = None;
    while len >= 3 && k <= len - 3 && sep.is_none()
        invariant
            len == s@.len(),
            k <= len,
            match sep {
                Some(v) => v == k && sep_at(s@, k as int) && (forall|j: int|
                    0 <= j < k ==> !sep_at(s@, j)),
                None => forall|j: int| 0 <= j < k ==> !sep_at(s@, j),
            },
        decreases len - k, (if sep is None { 1int } else { 0int }),
    {
        if s.get_char(k) == ':' && s.get_char(k + 1) == '/' && s.get_char(k + 2) == '/' {
            sep = Some(k);
        } else {
            k += 1;
        }
    }
    match sep {
        Some(i) => {
            proof {
                lemma_find_sep_found(s@, i as int);
            }
            let scheme = s.substring_char(0, i);
            let ghost rest_view = s@.skip(i + 3);
            let stop = scan_stop(s, i + 3, false);
            let authority = s.substring_char(i + 3, stop);
            proof {
                assert forall|j: int| 0 <= j < rest_view.len() implies rest_view[j] == s@[j + i + 3]
                by {}
                assert(authority@ =~= rest_view.take(first_idx(rest_view, stop_pred())));
            }
            let qm = scan_stop(s, stop, true);
            let ghost pq_view = rest_view.skip(first_idx(rest_view, stop_pred()));
            proof {
                assert(pq_view =~= s@.skip(stop as int));
                assert(first_idx(pq_view, qmark_pred()) == qm - stop);
            }
            let path = s.substring_char(stop, qm);
            proof {
                assert(path@ =~= uri_path(s@));
            }
            let query = if qm < len {
                let q = s.substring_char(qm + 1, len);
                proof {
                    assert(q@ =~= pq_view.skip(qm - stop + 1));
                }
                Some(String::from_str(q))
            } else {
                None
            };
            let r = UriParts {
                scheme: Some(String::from_str(scheme)),
                authority: Some(String::from_str(authority)),
                path: String::from_str(path),
                query,
            };
            proof {
                assert(r@.scheme == uri_scheme(s@));
                assert(r@.authority == uri_authority(s@));
                assert(r@.path == uri_path(s@));
                assert(r@.query == uri_query(s@));
            }
            r
        },
        None => {
            proof {
                assert forall|j: int| !sep_at(s@, j) by {
                    if 0 <= j && j + 3 <= len {
                        assert(j < k);
                    }
                }
                lemma_find_sep_none(s@);
            }
            let qm = scan_stop(s, 0, true);
            proof {
                assert(s@.skip(0) =~= s@);
            }
            let path = s.substring_char(0, qm);
            proof {
                assert(path@ =~= uri_path(s@));
            }
            let query = if qm < len {
                let q = s.substring_char(qm + 1, len);
                proof {
                    assert(q@ =~= s@.skip(qm + 1));
                }
                Some(String::from_str(q))
            } else {
                None
            };
            let r = UriParts { scheme: None, authority: None, path: String::from_str(path), query };
            proof {
                assert(r@.scheme == uri_scheme(s@));
                assert(r@.authority == uri_authority(s@));
                assert(r@.path == uri_path(s@));
                assert(r@.query == uri_query(s@));
            }
            r
        },
    }
}

/// The text of a split URI: `scheme://authority`, when present, then the
/// path, then `?query`, when present.
pub open spec fn uri_text(v: UriView) -> Seq<char> {
    (match v.scheme {
        Some(s) => s + seq![':', '/', '/'],
        None => Seq::<char>::empty(),
    }) + (match v.authority {
        Some(a) => a,
        None => Seq::<char>::empty(),
    }) + v.path + (match v.query {
        Some(q) => seq!['?'] + q,
        None => Seq::<char>::empty(),
    })
}

impl UriParts {
    /// Renders the URI back to text.
    pub fn to_text(&self) -> (r: String)
        ensures
            r@ == uri_text(self@),
    {
        let mut out = String::new();
        match &self.scheme {
            Some(s) => {
                out.append(s.as_str());
                out.append("://");
                proof {
                    reveal_strlit("://");
                    assert("://"@ =~= seq![':', '/', '/']);
                }
            },
            None => {},
        }
        match &self.authority {
            Some(a) => out.append(a.as_str()),
            None => {},
        }
        out.append(self.path.as_str());
        match &self.query {
            Some(q) => {
                out.append("?");
                out.append(q.as_str());
                proof {
                    reveal_strlit("?");
                    assert("?"@ =~= seq!['?']);
                }
            },
            None => {},
        }
        proof {
            assert(out@ =~= uri_text(self@));
        }
        out
    }
}

/// The HTTPS upgrade of a split URI: the scheme becomes `https`, a missing
/// authority becomes `localhost`, and path and query are kept.
pub open spec fn rewrite_scheme_spec(v: UriView) -> UriView {
    UriView {
        scheme: Some("https"@),
        authority: match v.authority {
            Some(a) => Some(a),
            None => Some("localhost"@),
        },
        path: v.path,
        query: v.query,
    }
}

/// Upgrades a URI to the `https` scheme, preserving authority (or filling
/// in `localhost`), path and query.
pub fn rewrite_uri_scheme(uri: UriParts) -> (r: UriParts)
    ensures
        r@ == rewrite_scheme_spec(uri@),
{
    let authority = match uri.authority {
        Some(a) => Some(a),
        None => Some(String::from_str("localhost")),
    };
    UriParts {
        scheme: Some(String::from_str("https")),
        authority,
        path: uri.path,
        query: uri.query,
    }
}

/// URI scheme upgrade idempotence: upgrading twice is the same as
/// upgrading once, and the scheme afterwards is always `https`.
pub proof fn lemma_rewrite_scheme_idempotent(v: UriView)
    ensures
        rewrite_scheme_spec(rewrite_scheme_spec(v)) == rewrite_scheme_spec(v),
        rewrite_scheme_spec(v).scheme == Some("https"@),
{
}

} // verus!

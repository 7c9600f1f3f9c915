//! The proxy-rewrite stage: turning a client request into the request sent
//! upstream.
//!
//! Preparing a request strips the eight RFC 7230 hop-by-hop headers
//! (statically; names listed in a `Connection` header are not additionally
//! stripped), replaces the URI with the resolved target, and inserts an
//! `X-Forwarded-For` header with the peer's address when the client sent
//! none — an existing one is left unchanged.

use vstd::prelude::*;

use crate::http::{has_header, header_value, lemma_header_value_some, HeaderMap, Request};
use crate::text::{eq_ignore_case, lower};

verus! {

/// Whether a header name (case-insensitively) is one of the eight RFC 7230
/// hop-by-hop headers.
pub open spec fn is_hbh_name(name: Seq<char>) -> bool {
    ||| lower(name) == "connection"@
    ||| lower(name) == "keep-alive"@
    ||| lower(name) == "proxy-authenticate"@
    ||| lower(name) == "proxy-authorization"@
    ||| lower(name) == "te"@
    ||| lower(name) == "trailers"@
    ||| lower(name) == "transfer-encoding"@
    ||| lower(name) == "upgrade"@
}

/// Whether `name` is a hop-by-hop header name, case-insensitively.
pub fn is_hbh_header(name: &str) -> (r: bool)
    ensures
        r == is_hbh_name(name@),
{
    proof {
        reveal_strlit("connection");
        reveal_strlit("keep-alive");
        reveal_strlit("proxy-authenticate");
        reveal_strlit("proxy-authorization");
        reveal_strlit("te");
        reveal_strlit("trailers");
        reveal_strlit("transfer-encoding");
        reveal_strlit("upgrade");
        assert(lower("connection"@) =~= "connection"@);
        assert(lower("keep-alive"@) =~= "keep-alive"@);
        assert(lower("proxy-authenticate"@) =~= "proxy-authenticate"@);
        assert(lower("proxy-authorization"@) =~= "proxy-authorization"@);
        assert(lower("te"@) =~= "te"@);
        assert(lower("trailers"@) =~= "trailers"@);
        assert(lower("transfer-encoding"@) =~= "transfer-encoding"@);
        assert(lower("upgrade"@) =~= "upgrade"@);
    }
    eq_ignore_case(name, "connection") || eq_ignore_case(name, "keep-alive") || eq_ignore_case(
        name,
        "proxy-authenticate",
    ) || eq_ignore_case(name, "proxy-authorization") || eq_ignore_case(name, "te")
        || eq_ignore_case(name, "trailers") || eq_ignore_case(name, "transfer-encoding")
        || eq_ignore_case(name, "upgrade")
}

/// The entries left after removing every hop-by-hop header, in order.
pub open spec fn strip_hbh_spec(m: Seq<(Seq<char>, Seq<char>)>) -> Seq<(Seq<char>, Seq<char>)>
    decreases m.len(),
{
    if m.len() == 0 {
        Seq::empty()
    } else if is_hbh_name(m[0].0) {
        strip_hbh_spec(m.drop_first())
    } else {
        seq![m[0]] + strip_hbh_spec(m.drop_first())
    }
}

/// Hop-by-hop stripping leaves no hop-by-hop header, and keeps every
/// other entry byte-identical, in order.
pub proof fn lemma_strip_hbh(m: Seq<(Seq<char>, Seq<char>)>)
    ensures
        forall|i: int|
            0 <= i < strip_hbh_spec(m).len() ==> !is_hbh_name(#[trigger] strip_hbh_spec(m)[i].0),
        forall|i: int|
            0 <= i < m.len() && !is_hbh_name(m[i].0) ==> strip_hbh_spec(m).contains(#[trigger] m[i]),
    decreases m.len(),
{
    if m.len() == 0 {
    } else {
        lemma_strip_hbh(m.drop_first());
        assert(forall|i: int| 0 <= i < m.drop_first().len() ==> m.drop_first()[i] == m[i + 1]);
        if is_hbh_name(m[0].0) {
            assert(strip_hbh_spec(m) == strip_hbh_spec(m.drop_first()));
            assert forall|i: int| 0 <= i < m.len() && !is_hbh_name(m[i].0) implies strip_hbh_spec(
                m,
            ).contains(#[trigger] m[i]) by {
                assert(i != 0);
                assert(m.drop_first()[i - 1] == m[i]);
            }
        } else {
            assert(strip_hbh_spec(m) == seq![m[0]] + strip_hbh_spec(m.drop_first()));
            assert forall|i: int|
                0 <= i < strip_hbh_spec(m).len() implies !is_hbh_name(
                #[trigger] strip_hbh_spec(m)[i].0,
            ) by {
                if i > 0 {
                    assert(strip_hbh_spec(m)[i] == strip_hbh_spec(m.drop_first())[i - 1]);
                }
            }
            assert forall|i: int| 0 <= i < m.len() && !is_hbh_name(m[i].0) implies strip_hbh_spec(
                m,
            ).contains(#[trigger] m[i]) by {
                if i == 0 {
                    assert(strip_hbh_spec(m)[0] == m[0]);
                } else {
                    assert(m.drop_first()[i - 1] == m[i]);
                    assert(strip_hbh_spec(m.drop_first()).contains(m[i]));
                    let w = choose|w: int|
                        0 <= w < strip_hbh_spec(m.drop_first()).len() && strip_hbh_spec(
                            m.drop_first(),
                        )[w] == m[i];
                    assert(strip_hbh_spec(m)[w + 1] == m[i]);
                }
            }
        }
    }
}

/// Stripping keeps the first value of any non-hop-by-hop header name.
pub proof fn lemma_strip_hbh_value(m: Seq<(Seq<char>, Seq<char>)>, name: Seq<char>)
    requires
        !is_hbh_name(name),
    ensures
        header_value(strip_hbh_spec(m), name) == header_value(m, name),
    decreases m.len(),
{
    crate::text::lemma_lower_idempotent(name);
    if m.len() == 0 {
    } else {
        lemma_strip_hbh_value(m.drop_first(), name);
        if lower(m[0].0) == lower(name) {
            assert(lower(lower(m[0].0)) == lower(m[0].0)) by {
                crate::text::lemma_lower_idempotent(m[0].0);
            }
            assert(!is_hbh_name(m[0].0));
            assert(strip_hbh_spec(m) == seq![m[0]] + strip_hbh_spec(m.drop_first()));
            assert(strip_hbh_spec(m)[0] == m[0]);
        } else {
            if !is_hbh_name(m[0].0) {
                assert(strip_hbh_spec(m) == seq![m[0]] + strip_hbh_spec(m.drop_first()));
                assert(strip_hbh_spec(m).drop_first() =~= strip_hbh_spec(m.drop_first()));
            }
        }
    }
}

/// Removes every hop-by-hop header, keeping the rest in order.
#[verifier::loop_isolation(false)]
pub fn strip_hbh(headers: &HeaderMap) -> (r: HeaderMap)
    ensures
        r@ == strip_hbh_spec(headers@),
{
    let ghost m = headers@;
    let entries = headers.entries();
    let n = entries.len();
    let mut kept: Vec<(String, String)> = Vec::new();
    let mut i: usize = 0;
    proof {
        assert(m.skip(0) =~= m);
        assert(Seq::new(kept@.len(), |k: int| (kept@[k].0@, kept@[k].1@)) + strip_hbh_spec(m)
            =~= strip_hbh_spec(m));
    }
    while i < n
        invariant
            i <= n,
            n == entries@.len(),
            n == m.len(),
            forall|k: int| 0 <= k < n ==> (entries@[k].0@, entries@[k].1@) == m[k],
            strip_hbh_spec(m) == Seq::new(kept@.len(), |k: int| (kept@[k].0@, kept@[k].1@))
                + strip_hbh_spec(m.skip(i as int)),
        decreases n - i,
    {
        proof {
            assert(m.skip(i as int)[0] == m[i as int]);
            assert(m.skip(i as int).drop_first() =~= m.skip(i + 1));
        }
        let keep = !is_hbh_header(entries[i].0.as_str());
        if keep {
            let ghost old_view = Seq::new(kept@.len(), |k: int| (kept@[k].0@, kept@[k].1@));
            kept.push((entries[i].0.clone(), entries[i].1.clone()));
            proof {
                assert(Seq::new(kept@.len(), |k: int| (kept@[k].0@, kept@[k].1@)) =~= old_view.push(
                    m[i as int],
                ));
                assert(strip_hbh_spec(m.skip(i as int)) == seq![m[i as int]] + strip_hbh_spec(
                    m.skip(i + 1),
                ));
                assert(strip_hbh_spec(m) =~= Seq::new(
                    kept@.len(),
                    |k: int| (kept@[k].0@, kept@[k].1@),
                ) + strip_hbh_spec(m.skip(i + 1)));
            }
        }
        i += 1;
    }
    proof {
        assert(m.skip(n as int).len() == 0);
        assert(strip_hbh_spec(m.skip(n as int)) =~= Seq::<(Seq<char>, Seq<char>)>::empty());
    }
    let r = HeaderMap::from_entries(kept);
    proof {
        assert(r@ =~= strip_hbh_spec(m));
    }
    r
}

/// Filtering with an always-true predicate changes nothing.
proof fn lemma_filter_all_true<A>(m: Seq<A>, pred: spec_fn(A) -> bool)
    requires
        forall|i: int| 0 <= i < m.len() ==> pred(#[trigger] m[i]),
    ensures
        m.filter(pred) == m,
    decreases m.len(),
{
    broadcast use Seq::lemma_filter_push;

    if m.len() == 0 {
        reveal(Seq::filter);
    } else {
        lemma_filter_all_true(m.drop_last(), pred);
        assert(m.drop_last().push(m.last()) =~= m);
        assert(pred(m[m.len() - 1]));
        assert(m.filter(pred) =~= m);
    }
}

/// Prepares a request for forwarding: strips hop-by-hop headers, installs
/// the target URI, and inserts `X-Forwarded-For: source` when the client
/// sent no such header (an existing one is left unchanged).
pub fn prepare(request: Request, source: &str, target: String) -> (r: Request)
    ensures
        r@.method == request@.method,
        r@.uri == target@,
        ({
            let stripped = strip_hbh_spec(request@.headers);
            if has_header(stripped, "x-forwarded-for"@) {
                r@.headers == stripped
            } else {
                r@.headers == stripped.push(("x-forwarded-for"@, source@))
            }
        }),
{
    let mut headers = strip_hbh(&request.headers);
    let ghost stripped = headers@;
    if !headers.contains_name("x-forwarded-for") {
        headers.insert("x-forwarded-for", source);
        proof {
            let pred = |e: (Seq<char>, Seq<char>)| lower(e.0) != lower("x-forwarded-for"@);
            assert forall|i: int| 0 <= i < stripped.len() implies pred(#[trigger] stripped[i]) by {
                assert(!has_header(stripped, "x-forwarded-for"@));
            }
            lemma_filter_all_true(stripped, pred);
        }
    }
    Request { method: request.method, uri: target, headers }
}

/// Hop-by-hop stripping: whether or not an `X-Forwarded-For` entry is
/// added, a prepared request's header map holds none of the eight
/// hop-by-hop names, and every non-hop-by-hop entry of the input is in it
/// byte-identical.
pub proof fn lemma_prepare_strips_hop_by_hop(m: Seq<(Seq<char>, Seq<char>)>, source: Seq<char>)
    ensures
        ({
            let stripped = strip_hbh_spec(m);
            let with_xff = stripped.push(("x-forwarded-for"@, source));
            &&& (forall|i: int| 0 <= i < stripped.len() ==> !is_hbh_name(#[trigger] stripped[i].0))
            &&& (forall|i: int| 0 <= i < with_xff.len() ==> !is_hbh_name(#[trigger] with_xff[i].0))
            &&& (forall|i: int|
                0 <= i < m.len() && !is_hbh_name(m[i].0) ==> stripped.contains(#[trigger] m[i])
                    && with_xff.contains(m[i]))
        }),
{
    lemma_strip_hbh(m);
    let stripped = strip_hbh_spec(m);
    let with_xff = stripped.push(("x-forwarded-for"@, source));
    assert(!is_hbh_name("x-forwarded-for"@)) by {
        reveal_strlit("x-forwarded-for");
        reveal_strlit("connection");
        reveal_strlit("keep-alive");
        reveal_strlit("proxy-authenticate");
        reveal_strlit("proxy-authorization");
        reveal_strlit("te");
        reveal_strlit("trailers");
        reveal_strlit("transfer-encoding");
        reveal_strlit("upgrade");
        assert(lower("x-forwarded-for"@) =~= "x-forwarded-for"@);
    }
    assert forall|i: int| 0 <= i < with_xff.len() implies !is_hbh_name(
        #[trigger] with_xff[i].0,
    ) by {
        if i < stripped.len() {
            assert(with_xff[i] == stripped[i]);
        }
    }
    assert forall|i: int| 0 <= i < m.len() && !is_hbh_name(m[i].0) implies stripped.contains(
        #[trigger] m[i],
    ) && with_xff.contains(m[i]) by {
        let w = choose|w: int| 0 <= w < stripped.len() && stripped[w] == m[i];
        assert(with_xff[w] == m[i]);
    }
}

/// X-Forwarded-For policy: if the input request had no `X-Forwarded-For`
/// header, the prepared one carries the peer's address under that name;
/// if it had one, the first value under that name is unchanged.
pub proof fn lemma_xff_policy(m: Seq<(Seq<char>, Seq<char>)>, source: Seq<char>)
    ensures
        ({
            let stripped = strip_hbh_spec(m);
            &&& (!has_header(m, "x-forwarded-for"@) ==> header_value(
                stripped.push(("x-forwarded-for"@, source)),
                "x-forwarded-for"@,
            ) == Some(source))
            &&& (has_header(m, "x-forwarded-for"@) ==> {
                &&& has_header(stripped, "x-forwarded-for"@)
                &&& header_value(stripped, "x-forwarded-for"@) == header_value(
                    m,
                    "x-forwarded-for"@,
                )
            })
        }),
{
    let xff = "x-forwarded-for"@;
    assert(!is_hbh_name(xff)) by {
        reveal_strlit("x-forwarded-for");
        reveal_strlit("connection");
        reveal_strlit("keep-alive");
        reveal_strlit("proxy-authenticate");
        reveal_strlit("proxy-authorization");
        reveal_strlit("te");
        reveal_strlit("trailers");
        reveal_strlit("transfer-encoding");
        reveal_strlit("upgrade");
        assert(lower(xff) =~= xff);
    }
    let stripped = strip_hbh_spec(m);
    lemma_strip_hbh_value(m, xff);
    lemma_header_value_some(m, xff);
    lemma_header_value_some(stripped, xff);
    if !has_header(m, xff) {
        lemma_header_value_push_fresh(stripped, xff, source);
    }
}

/// Pushing a fresh name onto a map that lacks it makes that the first (and
/// only) value under the name.
proof fn lemma_header_value_push_fresh(
    m: Seq<(Seq<char>, Seq<char>)>,
    name: Seq<char>,
    value: Seq<char>,
)
    requires
        !has_header(m, name),
    ensures
        header_value(m.push((name, value)), name) == Some(value),
    decreases m.len(),
{
    if m.len() == 0 {
        assert(m.push((name, value))[0] == (name, value));
    } else {
        assert(lower(m[0].0) != lower(name));
        assert(m.push((name, value))[0] == m[0]);
        assert(m.push((name, value)).drop_first() =~= m.drop_first().push((name, value)));
        assert forall|i: int|
            0 <= i < m.drop_first().len() && lower(m.drop_first()[i].0) == lower(
                name,
            ) implies false by {
            assert(m.drop_first()[i] == m[i + 1]);
            assert(has_header(m, name));
        }
        lemma_header_value_push_fresh(m.drop_first(), name, value);
    }
}

} // verus!

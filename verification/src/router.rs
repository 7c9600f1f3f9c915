//! The route table: pattern normalization, pattern matching, and request
//! evaluation.
//!
//! A route source is normalized before insertion: runs of `/` collapse to
//! one, a missing leading `/` is added, and a trailing `/` is trimmed
//! (except on the root, whose normal form is `/`). Normalization works by
//! splitting a path into its non-empty segments and joining them back with
//! single slashes.

use vstd::prelude::*;
use vstd::string::StrSliceExecFns;
use vstd::string::StringExecFns;

use crate::acl::{admits, parse_allowed_methods, AllowedMethods, AllowedView};
use crate::config::{Config, NetAddr, NetAddrView};
use crate::http::{Method, Request};
use crate::text::{dec_digits, first_idx, lemma_first_idx_bounds, lemma_first_idx_value, str_eq,
    u16_to_dec};
use crate::uri::{split_uri, uri_path, uri_query};
use vstd::std_specs::cmp::PartialEqSpec;

verus! {

/// The path separator test.
pub open spec fn slash_pred() -> spec_fn(char) -> bool {
    |c: char| c == '/'
}

/// A well-formed path segment: non-empty and free of `/`.
pub open spec fn seg_wf(seg: Seq<char>) -> bool {
    seg.len() > 0 && forall|j: int| 0 <= j < seg.len() ==> seg[j] != '/'
}

/// The non-empty segments of a path, in order: maximal runs of characters
/// other than `/`.
pub open spec fn path_segments(s: Seq<char>) -> Seq<Seq<char>>
    decreases s.len(),
    via path_segments_decreases
{
    if s.len() == 0 {
        Seq::empty()
    } else if s[0] == '/' {
        path_segments(s.drop_first())
    } else {
        seq![s.take(first_idx(s, slash_pred()))] + path_segments(s.skip(first_idx(s, slash_pred())))
    }
}

#[via_fn]
proof fn path_segments_decreases(s: Seq<char>) {
    lemma_first_idx_bounds(s, slash_pred());
}

/// Every segment of a path is non-empty and free of `/`.
pub proof fn lemma_segments_wf(s: Seq<char>)
    ensures
        forall|i: int| 0 <= i < path_segments(s).len() ==> seg_wf(#[trigger] path_segments(s)[i]),
    decreases s.len(),
{
    lemma_first_idx_bounds(s, slash_pred());
    if s.len() == 0 {
        assert(path_segments(s) =~= Seq::<Seq<char>>::empty());
    } else if s[0] == '/' {
        lemma_segments_wf(s.drop_first());
        assert(path_segments(s) == path_segments(s.drop_first()));
    } else {
        let k = first_idx(s, slash_pred());
        lemma_segments_wf(s.skip(k));
        assert(k >= 1);
        assert(seg_wf(s.take(k)));
        assert(path_segments(s) == seq![s.take(k)] + path_segments(s.skip(k)));
        assert forall|i: int| 0 <= i < path_segments(s).len() implies seg_wf(
            #[trigger] path_segments(s)[i],
        ) by {
            if i == 0 {
                assert(path_segments(s)[0] == s.take(k));
            } else {
                assert(path_segments(s)[i] == path_segments(s.skip(k))[i - 1]);
            }
        }
    }
}

/// The segments joined back into a path: `/` before each segment.
pub open spec fn joined(segs: Seq<Seq<char>>) -> Seq<char>
    decreases segs.len(),
{
    if segs.len() == 0 {
        Seq::empty()
    } else {
        seq!['/'] + segs[0] + joined(segs.drop_first())
    }
}

/// Joining distributes over appending one segment at the end.
pub proof fn lemma_joined_snoc(segs: Seq<Seq<char>>, x: Seq<char>)
    ensures
        joined(segs.push(x)) == joined(segs) + seq!['/'] + x,
    decreases segs.len(),
{
    assert(joined(segs.push(x)) == seq!['/'] + segs.push(x)[0] + joined(segs.push(x).drop_first()));
    if segs.len() == 0 {
        assert(segs.push(x)[0] == x);
        assert(segs.push(x).drop_first() =~= Seq::<Seq<char>>::empty());
        assert(joined(Seq::<Seq<char>>::empty()) == Seq::<char>::empty());
        assert(joined(segs.push(x)) =~= joined(segs) + seq!['/'] + x);
    } else {
        assert(segs.push(x).drop_first() =~= segs.drop_first().push(x));
        lemma_joined_snoc(segs.drop_first(), x);
        assert(joined(segs) == seq!['/'] + segs[0] + joined(segs.drop_first()));
        assert(segs.push(x)[0] == segs[0]);
        assert(joined(segs.push(x)) =~= joined(segs) + seq!['/'] + x);
    }
}

/// The normal form of a path: its segments rejoined, or `/` when there are
/// none.
pub open spec fn normalize_spec(s: Seq<char>) -> Seq<char> {
    if path_segments(s).len() == 0 {
        seq!['/']
    } else {
        joined(path_segments(s))
    }
}

/// Splitting a joined path recovers the segments, also with any `/`-led
/// tail appended.
proof fn lemma_segments_of_joined_tail(segs: Seq<Seq<char>>, tail: Seq<char>)
    requires
        forall|i: int| 0 <= i < segs.len() ==> seg_wf(#[trigger] segs[i]),
        tail.len() == 0 || tail[0] == '/',
    ensures
        path_segments(joined(segs) + tail) == segs + path_segments(tail),
    decreases segs.len(),
{
    if segs.len() == 0 {
        assert(joined(segs) + tail =~= tail);
        assert(path_segments(joined(segs) + tail) =~= segs + path_segments(tail));
    } else {
        let a = segs[0];
        let rest = segs.drop_first();
        let b = joined(rest) + tail;
        let s = joined(segs) + tail;
        assert(s =~= seq!['/'] + a + b);
        assert(s[0] == '/');
        let d = s.drop_first();
        assert(d =~= a + b);
        assert(b.len() == 0 || b[0] == '/') by {
            if rest.len() > 0 {
                assert(joined(rest)[0] == '/');
                assert(b[0] == '/');
            } else {
                assert(b =~= tail);
            }
        }
        assert(seg_wf(a));
        assert forall|j: int| 0 <= j < a.len() implies !(slash_pred())(d[j]) by {
            assert(d[j] == a[j]);
        }
        assert(a.len() == d.len() || (slash_pred())(d[a.len() as int]));
        lemma_first_idx_value(d, slash_pred(), a.len() as int);
        assert(d[0] != '/');
        assert(d.take(a.len() as int) =~= a);
        assert(d.skip(a.len() as int) =~= b);
        assert(path_segments(d) == seq![a] + path_segments(b));
        lemma_segments_of_joined_tail(rest, tail);
        assert(path_segments(s) =~= segs + path_segments(tail));
    }
}

/// Splitting a joined path of well-formed segments recovers the segments.
pub proof fn lemma_segments_of_joined(segs: Seq<Seq<char>>)
    requires
        forall|i: int| 0 <= i < segs.len() ==> seg_wf(#[trigger] segs[i]),
    ensures
        path_segments(joined(segs)) == segs,
{
    lemma_segments_of_joined_tail(segs, Seq::empty());
    assert(joined(segs) + Seq::<char>::empty() =~= joined(segs));
    assert(path_segments(Seq::<char>::empty()) =~= Seq::<Seq<char>>::empty());
    assert(segs + Seq::<Seq<char>>::empty() =~= segs);
}

/// Path normalization idempotence: normalizing twice is the same as
/// normalizing once.
pub proof fn lemma_normalize_idempotent(p: Seq<char>)
    ensures
        normalize_spec(normalize_spec(p)) == normalize_spec(p),
{
    let segs = path_segments(p);
    lemma_segments_wf(p);
    if segs.len() == 0 {
        let root = seq!['/'];
        assert(root[0] == '/');
        assert(root.drop_first() =~= Seq::<char>::empty());
        assert(path_segments(root) == path_segments(root.drop_first()));
        assert(path_segments(Seq::<char>::empty()) =~= Seq::<Seq<char>>::empty());
    } else {
        lemma_segments_of_joined(segs);
    }
}

/// Splits a path into its non-empty segments.
pub fn split_path(s: &str) -> (r: Vec<String>)
    ensures
        r.deep_view() == path_segments(s@),
{
    let len = s.unicode_len();
    let mut out: Vec<String> = Vec::new();
    let mut pos: usize = 0;
    proof {
        assert(s@.skip(0) =~= s@);
        assert(out.deep_view() =~= Seq::<Seq<char>>::empty());
        assert(out.deep_view() + path_segments(s@) =~= path_segments(s@));
    }
    while pos < len
        invariant
            len == s@.len(),
            pos <= len,
            path_segments(s@) == out.deep_view() + path_segments(s@.skip(pos as int)),
        decreases len - pos,
    {
        let c = s.get_char(pos);
        if c == '/' {
            proof {
                assert(s@.skip(pos as int)[0] == '/');
                assert(s@.skip(pos as int).drop_first() =~= s@.skip(pos + 1));
            }
            pos += 1;
        } else {
            let mut end = pos + 1;
            while end < len && s.get_char(end) != '/'
                invariant
                    len == s@.len(),
                    pos < end <= len,
                    forall|j: int| pos <= j < end ==> s@[j] != '/',
                decreases len - end,
            {
                end += 1;
            }
            let ghost t = s@.skip(pos as int);
            proof {
                assert forall|j: int| 0 <= j < end - pos implies !(slash_pred())(t[j]) by {
                    assert(t[j] == s@[j + pos]);
                }
                assert(end - pos == t.len() || (slash_pred())(t[end - pos]));
                lemma_first_idx_value(t, slash_pred(), end - pos);
                assert(t[0] != '/');
                assert(path_segments(t) == seq![t.take(end - pos)] + path_segments(
                    t.skip(end - pos),
                ));
            }
            let seg = s.substring_char(pos, end);
            let ghost old_dv = out.deep_view();
            out.push(String::from_str(seg));
            proof {
                assert(seg@ =~= t.take(end - pos));
                assert(out.deep_view() =~= old_dv.push(seg@));
                assert(t.skip(end - pos) =~= s@.skip(end as int));
                assert(path_segments(s@) == out.deep_view() + path_segments(s@.skip(end as int)));
            }
            pos = end;
        }
    }
    proof {
        assert(s@.skip(len as int) =~= Seq::<char>::empty());
        assert(path_segments(Seq::<char>::empty()) =~= Seq::<Seq<char>>::empty());
        assert(out.deep_view() =~= path_segments(s@));
    }
    out
}

/// Joins segments back into a path, `/` before each segment.
pub fn join_segments(segs: &Vec<String>) -> (r: String)
    ensures
        r@ == joined(segs.deep_view()),
{
    let ghost dv = segs.deep_view();
    let n = segs.len();
    let mut out = String::new();
    let mut i: usize = 0;
    while i < n
        invariant
            n == dv.len(),
            n == segs@.len(),
            dv == segs.deep_view(),
            i <= n,
            out@ == joined(dv.take(i as int)),
        decreases n - i,
    {
        out.append("/");
        out.append(segs[i].as_str());
        proof {
            reveal_strlit("/");
            assert("/"@ =~= seq!['/']);
            assert(dv.take(i + 1) =~= dv.take(i as int).push(dv[i as int]));
            lemma_joined_snoc(dv.take(i as int), dv[i as int]);
            assert(segs@[i as int]@ == dv[i as int]);
            assert(out@ =~= joined(dv.take(i + 1)));
        }
        i += 1;
    }
    proof {
        assert(dv.take(n as int) =~= dv);
    }
    out
}

/// Normalizes a route source: runs of `/` collapse to one, a leading `/`
/// is ensured, a trailing `/` is trimmed, and the empty or all-`/` path
/// becomes `/`.
pub fn make_path(path: String) -> (r: String)
    ensures
        r@ == normalize_spec(path@),
{
    let segs = split_path(path.as_str());
    if segs.is_empty() {
        proof {
            reveal_strlit("/");
            assert("/"@ =~= seq!['/']);
        }
        String::from_str("/")
    } else {
        join_segments(&segs)
    }
}

/// One segment of a route pattern: a literal to match exactly, a named
/// single-segment parameter (`:name`), or a trailing wildcard (`*name`)
/// capturing the rest of the path.
pub enum PatternSeg {
    Literal(String),
    Param(String),
    Wildcard(String),
}

/// The mathematical form of a pattern segment.
pub ghost enum PatSegView {
    Literal(Seq<char>),
    Param(Seq<char>),
    Wildcard(Seq<char>),
}

impl View for PatternSeg {
    type V = PatSegView;

    open spec fn view(&self) -> PatSegView {
        match self {
            PatternSeg::Literal(s) => PatSegView::Literal(s@),
            PatternSeg::Param(s) => PatSegView::Param(s@),
            PatternSeg::Wildcard(s) => PatSegView::Wildcard(s@),
        }
    }
}

impl DeepView for PatternSeg {
    type V = PatSegView;

    open spec fn deep_view(&self) -> PatSegView {
        self.view()
    }
}

impl Clone for PatternSeg {
    /// Cloning keeps the segment's form and name.
    fn clone(&self) -> (r: Self)
        ensures
            r@ == self@,
    {
        match self {
            PatternSeg::Literal(s) => PatternSeg::Literal(s.clone()),
            PatternSeg::Param(s) => PatternSeg::Param(s.clone()),
            PatternSeg::Wildcard(s) => PatternSeg::Wildcard(s.clone()),
        }
    }
}

/// How one source segment reads as a pattern segment: `:name` is a
/// parameter, `*name` in the last position is a wildcard, and anything
/// else (including a lone `:` or `*`) is a literal.
pub open spec fn seg_form(p: PatSegView, seg: Seq<char>, last: bool) -> bool {
    if seg.len() >= 2 && seg[0] == ':' {
        p == PatSegView::Param(seg.drop_first())
    } else if seg.len() >= 2 && seg[0] == '*' && last {
        p == PatSegView::Wildcard(seg.drop_first())
    } else {
        p == PatSegView::Literal(seg)
    }
}

/// Whether `pat` is the pattern read from the source segments `segs`.
pub open spec fn pattern_represents(pat: Seq<PatSegView>, segs: Seq<Seq<char>>) -> bool {
    pat.len() == segs.len() && forall|i: int|
        0 <= i < segs.len() ==> seg_form(#[trigger] pat[i], segs[i], i == segs.len() - 1)
}

/// Reads a pattern from source segments.
#[verifier::loop_isolation(false)]
pub fn parse_pattern(segs: &Vec<String>) -> (r: Vec<PatternSeg>)
    ensures
        pattern_represents(r.deep_view(), segs.deep_view()),
{
    let n = segs.len();
    let mut out: Vec<PatternSeg> = Vec::new();
    let mut i: usize = 0;
    while i < n
        invariant
            i <= n,
            out@.len() == i,
            forall|j: int|
                0 <= j < i ==> seg_form(
                    #[trigger] out.deep_view()[j],
                    segs.deep_view()[j],
                    j == n - 1,
                ),
        decreases n - i,
    {
        let seg: &String = &segs[i];
        let len = seg.as_str().unicode_len();
        let p = if len >= 2 && seg.as_str().get_char(0) == ':' {
            let name = seg.as_str().substring_char(1, len);
            proof {
                assert(name@ =~= seg@.drop_first());
            }
            PatternSeg::Param(String::from_str(name))
        } else if len >= 2 && seg.as_str().get_char(0) == '*' && i == n - 1 {
            let name = seg.as_str().substring_char(1, len);
            proof {
                assert(name@ =~= seg@.drop_first());
            }
            PatternSeg::Wildcard(String::from_str(name))
        } else {
            PatternSeg::Literal(seg.clone())
        };
        proof {
            assert(segs.deep_view()[i as int] == seg@);
            assert(seg_form(p@, segs.deep_view()[i as int], i == n - 1));
        }
        let ghost old_dv = out.deep_view();
        out.push(p);
        proof {
            assert(out.deep_view() =~= old_dv.push(p@));
            assert(out.deep_view()[i as int] == p@);
            assert(forall|j: int| 0 <= j < i ==> out.deep_view()[j] == old_dv[j]);
        }
        i += 1;
    }
    out
}

/// Whether a pattern matches a path, given as its segments. Literals must
/// match exactly; a parameter matches any one segment; a wildcard must be
/// last and matches one or more remaining segments.
pub open spec fn pat_matches(pat: Seq<PatSegView>, segs: Seq<Seq<char>>) -> bool
    decreases pat.len(),
{
    if pat.len() == 0 {
        segs.len() == 0
    } else {
        match pat[0] {
            PatSegView::Literal(l) => segs.len() > 0 && l == segs[0] && pat_matches(
                pat.drop_first(),
                segs.drop_first(),
            ),
            PatSegView::Param(_) => segs.len() > 0 && pat_matches(
                pat.drop_first(),
                segs.drop_first(),
            ),
            PatSegView::Wildcard(_) => pat.len() == 1 && segs.len() > 0,
        }
    }
}

/// The remaining path captured by a wildcard: the segments joined with
/// `/`, without a leading one.
pub open spec fn join_rest(segs: Seq<Seq<char>>) -> Seq<char>
    decreases segs.len(),
{
    if segs.len() == 0 {
        Seq::empty()
    } else if segs.len() == 1 {
        segs[0]
    } else {
        join_rest(segs.drop_last()) + seq!['/'] + segs.last()
    }
}

/// The ordered parameter captures of a matching pattern: one segment for
/// each `:name`, and the joined remainder for a trailing wildcard.
pub open spec fn pat_captures(pat: Seq<PatSegView>, segs: Seq<Seq<char>>) -> Seq<Seq<char>>
    decreases pat.len(),
{
    if pat.len() == 0 {
        Seq::empty()
    } else {
        match pat[0] {
            PatSegView::Literal(_) => pat_captures(pat.drop_first(), segs.drop_first()),
            PatSegView::Param(_) => seq![segs[0]] + pat_captures(
                pat.drop_first(),
                segs.drop_first(),
            ),
            PatSegView::Wildcard(_) => seq![join_rest(segs)],
        }
    }
}

/// Joins the segments from `from` on with `/`, the wildcard capture.
#[verifier::loop_isolation(false)]
fn join_from(segs: &Vec<String>, from: usize) -> (r: String)
    requires
        from < segs@.len(),
    ensures
        r@ == join_rest(segs.deep_view().skip(from as int)),
{
    let ghost dv = segs.deep_view();
    let n = segs.len();
    let mut out: String = segs[from].clone();
    let mut j: usize = from + 1;
    proof {
        assert(dv.subrange(from as int, from + 1) =~= seq![dv[from as int]]);
        assert(join_rest(seq![dv[from as int]]) == dv[from as int]);
    }
    while j < n
        invariant
            from < j <= n,
            out@ == join_rest(dv.subrange(from as int, j as int)),
        decreases n - j,
    {
        out.append("/");
        out.append(segs[j].as_str());
        proof {
            reveal_strlit("/");
            assert("/"@ =~= seq!['/']);
            let prev = dv.subrange(from as int, j as int);
            let cur = dv.subrange(from as int, j + 1);
            assert(cur.drop_last() =~= prev);
            assert(cur.last() == dv[j as int]);
            assert(cur.len() >= 2);
            assert(join_rest(cur) == join_rest(prev) + seq!['/'] + dv[j as int]);
            assert(out@ =~= join_rest(cur));
        }
        j += 1;
    }
    proof {
        assert(dv.subrange(from as int, n as int) =~= dv.skip(from as int));
    }
    out
}

/// Matches one pattern against a path's segments, yielding the captures.
#[verifier::loop_isolation(false)]
pub fn match_pattern(pat: &Vec<PatternSeg>, segs: &Vec<String>) -> (r: Option<Vec<String>>)
    ensures
        r is Some <==> pat_matches(pat.deep_view(), segs.deep_view()),
        r matches Some(c) ==> c.deep_view() == pat_captures(pat.deep_view(), segs.deep_view()),
{
    let ghost p = pat.deep_view();
    let ghost s = segs.deep_view();
    let np = pat.len();
    let ns = segs.len();
    let mut caps: Vec<String> = Vec::new();
    let mut i: usize = 0;
    proof {
        assert(p.skip(0) =~= p);
        assert(s.skip(0) =~= s);
        assert(caps.deep_view() =~= Seq::<Seq<char>>::empty());
    }
    while i < np
        invariant
            i <= np,
            i <= ns,
            np == p.len(),
            ns == s.len(),
            pat_matches(p, s) == pat_matches(p.skip(i as int), s.skip(i as int)),
            pat_matches(p, s) ==> pat_captures(p, s) =~= caps.deep_view() + pat_captures(
                p.skip(i as int),
                s.skip(i as int),
            ),
        decreases np - i,
    {
        proof {
            assert(p.skip(i as int)[0] == p[i as int]);
            assert(p.skip(i as int).drop_first() =~= p.skip(i + 1));
            assert(s.skip(i as int).len() == ns - i);
            if i < ns {
                assert(s.skip(i as int)[0] == s[i as int]);
                assert(s.skip(i as int).drop_first() =~= s.skip(i + 1));
            }
        }
        match &pat[i] {
            PatternSeg::Literal(l) => {
                if i < ns && str_eq(l.as_str(), segs[i].as_str()) {
                    i += 1;
                } else {
                    assert(!pat_matches(p.skip(i as int), s.skip(i as int)));
                    return None;
                }
            },
            PatternSeg::Param(_) => {
                if i < ns {
                    let ghost old_caps = caps.deep_view();
                    caps.push(segs[i].clone());
                    proof {
                        assert(caps.deep_view() =~= old_caps.push(s[i as int]));
                        if pat_matches(p, s) {
                            assert(pat_captures(p.skip(i as int), s.skip(i as int)) == seq![
                                s[i as int],
                            ] + pat_captures(p.skip(i + 1), s.skip(i + 1)));
                            assert(pat_captures(p, s) =~= caps.deep_view() + pat_captures(
                                p.skip(i + 1),
                                s.skip(i + 1),
                            ));
                        }
                    }
                    i += 1;
                } else {
                    assert(!pat_matches(p.skip(i as int), s.skip(i as int)));
                    return None;
                }
            },
            PatternSeg::Wildcard(_) => {
                if i + 1 == np && i < ns {
                    let tail = join_from(segs, i);
                    let ghost old_caps = caps.deep_view();
                    caps.push(tail);
                    proof {
                        assert(p.skip(i as int).len() == 1);
                        assert(pat_matches(p.skip(i as int), s.skip(i as int)));
                        assert(pat_captures(p.skip(i as int), s.skip(i as int)) == seq![
                            join_rest(s.skip(i as int)),
                        ]);
                        assert(caps.deep_view() =~= old_caps.push(join_rest(s.skip(i as int))));
                        assert(caps.deep_view() =~= pat_captures(p, s));
                    }
                    return Some(caps);
                } else {
                    proof {
                        if i + 1 != np {
                            assert(p.skip(i as int).len() != 1);
                            assert(!pat_matches(p.skip(i as int), s.skip(i as int)));
                        } else {
                            assert(s.skip(i as int).len() == 0);
                            assert(!pat_matches(p.skip(i as int), s.skip(i as int)));
                        }
                    }
                    return None;
                }
            },
        }
    }
    proof {
        assert(p.skip(np as int).len() == 0);
    }
    if i == ns {
        proof {
            assert(s.skip(ns as int).len() == 0);
            assert(pat_matches(p.skip(np as int), s.skip(ns as int)));
            assert(pat_captures(p.skip(np as int), s.skip(ns as int)) =~= Seq::<Seq<char>>::empty());
            assert(caps.deep_view() =~= pat_captures(p, s));
        }
        Some(caps)
    } else {
        proof {
            assert(s.skip(i as int).len() > 0);
            assert(!pat_matches(p.skip(i as int), s.skip(i as int)));
        }
        None
    }
}

/// How strongly a pattern constrains position `i`: the pattern's end binds
/// hardest (it admits nothing more), then a literal, a parameter, and a
/// wildcard, loosest.
pub open spec fn seg_rank(pat: Seq<PatSegView>, i: int) -> int {
    if i >= pat.len() {
        3
    } else {
        match pat[i] {
            PatSegView::Literal(_) => 2,
            PatSegView::Param(_) => 1,
            PatSegView::Wildcard(_) => 0,
        }
    }
}

/// Whether pattern `a` is strictly more specific than `b`: at the first
/// position where their segment kinds differ, `a`'s binds harder. Two
/// patterns of the same shape are not ordered.
pub open spec fn more_specific(a: Seq<PatSegView>, b: Seq<PatSegView>) -> bool
    decreases a.len(),
{
    if seg_rank(a, 0) != seg_rank(b, 0) {
        seg_rank(a, 0) > seg_rank(b, 0)
    } else if a.len() == 0 {
        false
    } else {
        more_specific(a.drop_first(), b.drop_first())
    }
}

/// The rank of pattern `p` at position `k`.
fn rank_at(p: &Vec<PatternSeg>, k: usize) -> (r: u8)
    ensures
        r as int == seg_rank(p.deep_view(), k as int),
{
    if k >= p.len() {
        3
    } else {
        match &p[k] {
            PatternSeg::Literal(_) => 2,
            PatternSeg::Param(_) => 1,
            PatternSeg::Wildcard(_) => 0,
        }
    }
}

/// Compares two patterns for strict specificity.
#[verifier::loop_isolation(false)]
fn is_more_specific(a: &Vec<PatternSeg>, b: &Vec<PatternSeg>) -> (r: bool)
    ensures
        r == more_specific(a.deep_view(), b.deep_view()),
{
    let ghost av = a.deep_view();
    let ghost bv = b.deep_view();
    let mut k: usize = 0;
    proof {
        assert(av.skip(0) =~= av);
        assert(bv.skip(0) =~= bv);
    }
    loop
        invariant
            k <= av.len(),
            k <= bv.len(),
            av.len() == a@.len(),
            bv.len() == b@.len(),
            more_specific(av, bv) == more_specific(av.skip(k as int), bv.skip(k as int)),
        decreases av.len() - k,
    {
        let ra = rank_at(a, k);
        let rb = rank_at(b, k);
        proof {
            if (k as int) < av.len() {
                assert(av.skip(k as int)[0] == av[k as int]);
            }
            if (k as int) < bv.len() {
                assert(bv.skip(k as int)[0] == bv[k as int]);
            }
            assert(seg_rank(av.skip(k as int), 0) == seg_rank(av, k as int));
            assert(seg_rank(bv.skip(k as int), 0) == seg_rank(bv, k as int));
        }
        if ra != rb {
            return ra > rb;
        }
        if k >= a.len() {
            proof {
                assert(av.skip(k as int).len() == 0);
            }
            return false;
        }
        proof {
            assert(av.skip(k as int).drop_first() =~= av.skip(k + 1));
            assert(bv.skip(k as int).drop_first() =~= bv.skip(k + 1));
            assert(k < bv.len());
        }
        k += 1;
    }
}

/// The compiled form of one route: its upstream address, optional path
/// prefix, and method allow-list.
pub struct Target {
    pub addr: NetAddr,
    pub path: Option<String>,
    pub allowed_methods: AllowedMethods,
}

/// The mathematical form of a target.
pub ghost struct TargetView {
    pub addr: NetAddrView,
    pub path: Option<Seq<char>>,
    pub methods: AllowedView,
}

impl View for Target {
    type V = TargetView;

    open spec fn view(&self) -> TargetView {
        TargetView { addr: self.addr@, path: self.path.deep_view(), methods: self.allowed_methods@ }
    }
}

impl Clone for Target {
    /// Cloning keeps the target's address, path and allow-list.
    fn clone(&self) -> (r: Self)
        ensures
            r@ == self@,
    {
        Target {
            addr: self.addr.clone(),
            path: match &self.path {
                Some(p) => Some(p.clone()),
                None => None,
            },
            allowed_methods: self.allowed_methods.clone(),
        }
    }
}

/// One route held by the router: a compiled pattern and its target.
pub struct RouteEntry {
    pub pattern: Vec<PatternSeg>,
    pub target: Target,
}

/// The mathematical form of a route entry.
pub ghost struct RouteEntryView {
    pub pattern: Seq<PatSegView>,
    pub target: TargetView,
}

impl View for RouteEntry {
    type V = RouteEntryView;

    open spec fn view(&self) -> RouteEntryView {
        RouteEntryView { pattern: self.pattern.deep_view(), target: self.target@ }
    }
}

impl Clone for RouteEntry {
    /// Cloning keeps the pattern and the target.
    #[verifier::loop_isolation(false)]
    fn clone(&self) -> (r: Self)
        ensures
            r@ == self@,
    {
        let n = self.pattern.len();
        let mut pattern: Vec<PatternSeg> = Vec::new();
        let mut i: usize = 0;
        while i < n
            invariant
                i <= n,
                pattern.deep_view() =~= self.pattern.deep_view().take(i as int),
            decreases n - i,
        {
            let ghost old_dv = pattern.deep_view();
            pattern.push(self.pattern[i].clone());
            proof {
                assert(pattern.deep_view() =~= old_dv.push(self.pattern.deep_view()[i as int]));
                assert(pattern.deep_view() =~= self.pattern.deep_view().take(i + 1));
            }
            i += 1;
        }
        proof {
            assert(self.pattern.deep_view().take(n as int) =~= self.pattern.deep_view());
        }
        RouteEntry { pattern, target: self.target.clone() }
    }
}

/// The route picked for a path: among the routes whose patterns match, the
/// one whose pattern is most specific; on a tie, the latest configured.
pub open spec fn best_route(routes: Seq<RouteEntryView>, segs: Seq<Seq<char>>) -> Option<int>
    decreases routes.len(),
{
    if routes.len() == 0 {
        None
    } else {
        let prev = best_route(routes.drop_last(), segs);
        let k = routes.len() - 1;
        if pat_matches(routes[k].pattern, segs) {
            match prev {
                None => Some(k),
                Some(j) => if more_specific(routes[j].pattern, routes[k].pattern) {
                    Some(j)
                } else {
                    Some(k)
                },
            }
        } else {
            prev
        }
    }
}

/// The picked route exists and its pattern matches.
pub proof fn lemma_best_route_matches(routes: Seq<RouteEntryView>, segs: Seq<Seq<char>>)
    requires
        best_route(routes, segs) is Some,
    ensures
        0 <= best_route(routes, segs)->0 < routes.len(),
        pat_matches(routes[best_route(routes, segs)->0].pattern, segs),
    decreases routes.len(),
{
    let k = routes.len() - 1;
    if best_route(routes.drop_last(), segs) is Some {
        lemma_best_route_matches(routes.drop_last(), segs);
        assert(routes.drop_last()[best_route(routes.drop_last(), segs)->0] == routes[best_route(
            routes.drop_last(),
            segs,
        )->0]);
    }
}

/// No route is picked exactly when no pattern matches.
pub proof fn lemma_best_route_none(routes: Seq<RouteEntryView>, segs: Seq<Seq<char>>)
    ensures
        best_route(routes, segs) is None <==> forall|i: int|
            0 <= i < routes.len() ==> !pat_matches(#[trigger] routes[i].pattern, segs),
    decreases routes.len(),
{
    if routes.len() > 0 {
        lemma_best_route_none(routes.drop_last(), segs);
        assert(forall|i: int|
            0 <= i < routes.len() - 1 ==> routes.drop_last()[i] == #[trigger] routes[i]);
    }
}

/// The URI sent upstream for a matched route: scheme `http`, the target's
/// `ip:port` authority, the target's path prefix followed by `/` and each
/// capture in order, and the request's query after `?`, if it had one. An
/// empty path-and-query is omitted; one starting with `?` gets `/` before
/// it, as the URI's textual form requires.
pub open spec fn success_uri(t: TargetView, caps: Seq<Seq<char>>, query: Option<Seq<char>>) -> Seq<
    char,
> {
    let authority = t.addr.ip + seq![':'] + dec_digits(t.addr.port as int);
    let base = match t.path {
        Some(p) => p,
        None => Seq::<char>::empty(),
    };
    let pq0 = base + joined(caps) + (match query {
        Some(q) => seq!['?'] + q,
        None => Seq::<char>::empty(),
    });
    let pq1 = if pq0.len() == 0 {
        pq0
    } else if pq0[0] == '?' {
        seq!['/'] + pq0
    } else {
        pq0
    };
    "http://"@ + authority + pq1
}

/// The route table: an ordered list of compiled routes, immutable once
/// built and cheap to clone for sharing across request handlers.
pub struct Router {
    routes: Vec<RouteEntry>,
}

impl View for Router {
    type V = Seq<RouteEntryView>;

    closed spec fn view(&self) -> Seq<RouteEntryView> {
        Seq::new(self.routes@.len(), |i: int| self.routes@[i]@)
    }
}

/// The outcome of routing one request: the upstream URI to call, no route,
/// or a route whose allow-list rejects the method.
#[derive(Debug)]
pub enum RouterResult {
    Success(String),
    NotDefined,
    NotAllowedMethod,
}

impl PartialEq for RouterResult {
    /// Outcomes are equal when they are the same variant and, for
    /// `Success`, carry the same URI text.
    fn eq(&self, other: &Self) -> (r: bool) {
        match self {
            RouterResult::Success(a) => match other {
                RouterResult::Success(b) => *a == *b,
                _ => false,
            },
            RouterResult::NotDefined => matches!(other, RouterResult::NotDefined),
            RouterResult::NotAllowedMethod => matches!(other, RouterResult::NotAllowedMethod),
        }
    }
}

impl vstd::std_specs::cmp::PartialEqSpecImpl for RouterResult {
    open spec fn obeys_eq_spec() -> bool {
        true
    }

    open spec fn eq_spec(&self, other: &Self) -> bool {
        match self {
            RouterResult::Success(a) => (other matches RouterResult::Success(b) && a@ == b@),
            RouterResult::NotDefined => other matches RouterResult::NotDefined,
            RouterResult::NotAllowedMethod => other matches RouterResult::NotAllowedMethod,
        }
    }
}

/// How a route definition compiles into a route entry: the pattern reads
/// from the normalized source, the target keeps address and path prefix,
/// and the token list becomes the allow-list (empty means any).
pub open spec fn compiled_route(def: crate::config::RouteDefinition, e: RouteEntryView) -> bool {
    &&& pattern_represents(e.pattern, path_segments(normalize_spec(def.source@)))
    &&& e.target.addr == def.target@
    &&& e.target.path == def.target_path.deep_view()
    &&& e.target.methods == (if def.allowed_methods@.len() == 0 {
        AllowedView::Any
    } else {
        AllowedView::Only(
            crate::acl::parsed_methods(
                Seq::new(def.allowed_methods@.len(), |j: int| def.allowed_methods@[j]@),
            ),
        )
    })
}

/// What routing decides, as a function of the route table's and the
/// request's mathematical forms alone: no route means `NotDefined`; a
/// route whose allow-list rejects the method means `NotAllowedMethod`;
/// otherwise `Success` with exactly the upstream URI text.
pub open spec fn eval_post(
    routes: Seq<RouteEntryView>,
    method: Method,
    uri: Seq<char>,
    r: RouterResult,
) -> bool {
    let segs = path_segments(uri_path(uri));
    let best = best_route(routes, segs);
    &&& (best is None ==> r matches RouterResult::NotDefined)
    &&& (best matches Some(j) ==> (if admits(routes[j].target.methods, method) {
        r matches RouterResult::Success(u) && u@ == success_uri(
            routes[j].target,
            pat_captures(routes[j].pattern, segs),
            uri_query(uri),
        )
    } else {
        r matches RouterResult::NotAllowedMethod
    }))
}

/// A router succeeds exactly when some route's pattern matches the
/// request's path and the picked route's allow-list admits the request's
/// method.
pub proof fn lemma_success_iff_matched_and_allowed(
    routes: Seq<RouteEntryView>,
    method: Method,
    uri: Seq<char>,
    r: RouterResult,
)
    requires
        eval_post(routes, method, uri, r),
    ensures
        (r matches RouterResult::Success(u)) <==> ({
            let segs = path_segments(uri_path(uri));
            let best = best_route(routes, segs);
            &&& (exists|i: int|
                0 <= i < routes.len() && pat_matches(#[trigger] routes[i].pattern, segs))
            &&& best matches Some(j) && admits(routes[j].target.methods, method)
        }),
{
    let segs = path_segments(uri_path(uri));
    lemma_best_route_none(routes, segs);
}

/// Router determinism: for one route table and one request, any two
/// outcomes that routing can deliver are equal — the decision is a pure
/// function of the route table's and the request's mathematical forms.
pub proof fn lemma_eval_deterministic(
    routes: Seq<RouteEntryView>,
    method: Method,
    uri: Seq<char>,
    r1: RouterResult,
    r2: RouterResult,
)
    requires
        eval_post(routes, method, uri, r1),
        eval_post(routes, method, uri, r2),
    ensures
        r1.eq_spec(&r2),
{
}

impl Router {
    /// An empty route table.
    pub fn new() -> (r: Router)
        ensures
            r@ == Seq::<RouteEntryView>::empty(),
    {
        let r = Router { routes: Vec::new() };
        proof {
            assert(r@ =~= Seq::<RouteEntryView>::empty());
        }
        r
    }

    /// Adds one route at the end: the source is normalized and read as a
    /// pattern; the target keeps the address, allow-list and path prefix.
    pub fn add_route(
        &mut self,
        source: &str,
        addr: NetAddr,
        allowed_methods: AllowedMethods,
        path: Option<String>,
    )
        ensures
            final(self)@.len() == old(self)@.len() + 1,
            forall|i: int| 0 <= i < old(self)@.len() ==> final(self)@[i] == old(self)@[i],
            pattern_represents(
                final(self)@[old(self)@.len() as int].pattern,
                path_segments(normalize_spec(source@)),
            ),
            final(self)@[old(self)@.len() as int].target == (TargetView {
                addr: addr@,
                path: path.deep_view(),
                methods: allowed_methods@,
            }),
    {
        let normalized = make_path(String::from_str(source));
        let segs = split_path(normalized.as_str());
        let pattern = parse_pattern(&segs);
        let entry = RouteEntry {
            pattern,
            target: Target { addr, path, allowed_methods },
        };
        let ghost oldv = self@;
        self.routes.push(entry);
        proof {
            assert(final(self)@.len() == oldv.len() + 1);
            assert(forall|i: int| 0 <= i < oldv.len() ==> final(self)@[i] == oldv[i]);
            assert(final(self)@[oldv.len() as int] == entry@);
        }
    }

    /// Compiles a configuration's route list, in order.
    #[verifier::loop_isolation(false)]
    pub fn from_config(config: Config) -> (r: Router)
        requires
            forall|i: int, j: int|
                0 <= i < config.routes@.len() && 0 <= j
                    < config.routes@[i].allowed_methods@.len() ==> crate::acl::method_token(
                    #[trigger] config.routes@[i].allowed_methods@[j]@,
                ) is Some,
        ensures
            r@.len() == config.routes@.len(),
            forall|i: int|
                0 <= i < config.routes@.len() ==> compiled_route(
                    #[trigger] config.routes@[i],
                    r@[i],
                ),
    {
        let ghost defs = config.routes@;
        let mut remaining = config.routes;
        let mut router = Router::new();
        let ghost i: int = 0;
        while !remaining.is_empty()
            invariant
                0 <= i <= defs.len(),
                remaining@ =~= defs.skip(i),
                router@.len() == i,
                forall|j: int| 0 <= j < i ==> compiled_route(#[trigger] defs[j], router@[j]),
            decreases remaining@.len(),
        {
            let def = remaining.remove(0);
            proof {
                assert(def == defs[i]);
                assert(remaining@ =~= defs.skip(i + 1));
            }
            let crate::config::RouteDefinition { source, target, target_path, allowed_methods } =
                def;
            proof {
                assert(forall|j: int|
                    0 <= j < allowed_methods@.len() ==> crate::acl::method_token(
                        #[trigger] allowed_methods@[j]@,
                    ) is Some);
            }
            let methods = parse_allowed_methods(allowed_methods);
            router.add_route(source.as_str(), target, methods, target_path);
            proof {
                assert(compiled_route(defs[i], router@[i]));
                i = i + 1;
            }
        }
        proof {
            assert(i == defs.len());
        }
        router
    }

    /// Evaluates a request against the route table: picks the best
    /// matching route; rejects a disallowed method; otherwise yields the
    /// upstream URI built from the target and the captures.
    #[verifier::loop_isolation(false)]
    pub fn eval(&self, req: &Request) -> (r: RouterResult)
        ensures
            eval_post(self@, req@.method, req@.uri, r),
    {
        let parts = split_uri(req.uri.as_str());
        let segs = split_path(parts.path.as_str());
        let ghost segsv = path_segments(uri_path(req@.uri));
        proof {
            assert(segs.deep_view() == segsv);
        }
        let n = self.routes.len();
        let mut best_idx: Option<usize> = None;
        let mut best_caps: Vec<String> = Vec::new();
        let mut i: usize = 0;
        proof {
            assert(self@.take(0) =~= Seq::<RouteEntryView>::empty());
        }
        while i < n
            invariant
                i <= n,
                n == self.routes@.len(),
                n == self@.len(),
                match best_idx {
                    None => best_route(self@.take(i as int), segsv) is None,
                    Some(j) => {
                        &&& j < i
                        &&& best_route(self@.take(i as int), segsv) == Some(j as int)
                        &&& best_caps.deep_view() == pat_captures(self@[j as int].pattern, segsv)
                    },
                },
            decreases n - i,
        {
            proof {
                assert(self@.take(i + 1).drop_last() =~= self@.take(i as int));
                assert(self@.take(i + 1).last() == self@[i as int]);
                assert(self@[i as int].pattern == self.routes@[i as int].pattern.deep_view());
            }
            match match_pattern(&self.routes[i].pattern, &segs) {
                Some(caps) => {
                    let take = match best_idx {
                        None => true,
                        Some(j) => !is_more_specific(
                            &self.routes[j].pattern,
                            &self.routes[i].pattern,
                        ),
                    };
                    if take {
                        best_idx = Some(i);
                        best_caps = caps;
                    }
                },
                None => {},
            }
            i += 1;
        }
        proof {
            assert(self@.take(n as int) =~= self@);
        }
        match best_idx {
            None => RouterResult::NotDefined,
            Some(j) => {
                let target = &self.routes[j].target;
                proof {
                    assert(self@[j as int].target == target@);
                }
                if !target.allowed_methods.contains(&req.method) {
                    RouterResult::NotAllowedMethod
                } else {
                    let mut uri = String::from_str("http://");
                    uri.append(target.addr.ip.as_str());
                    uri.append(":");
                    let port = u16_to_dec(target.addr.port);
                    uri.append(port.as_str());
                    let mut pq = String::new();
                    match &target.path {
                        Some(p) => pq.append(p.as_str()),
                        None => {},
                    }
                    let params = join_segments(&best_caps);
                    pq.append(params.as_str());
                    match &parts.query {
                        Some(q) => {
                            pq.append("?");
                            pq.append(q.as_str());
                        },
                        None => {},
                    }
                    proof {
                        reveal_strlit(":");
                        reveal_strlit("?");
                        assert(":"@ =~= seq![':']);
                        assert("?"@ =~= seq!['?']);
                    }
                    let pqlen = pq.as_str().unicode_len();
                    if pqlen > 0 {
                        if pq.as_str().get_char(0) == '?' {
                            uri.append("/");
                            proof {
                                reveal_strlit("/");
                                assert("/"@ =~= seq!['/']);
                            }
                        }
                        uri.append(pq.as_str());
                    }
                    proof {
                        assert(uri@ =~= success_uri(
                            self@[j as int].target,
                            pat_captures(self@[j as int].pattern, segsv),
                            uri_query(req@.uri),
                        ));
                    }
                    RouterResult::Success(uri)
                }
            },
        }
    }
}

impl Clone for Router {
    /// Cloning keeps the whole route table; a clone routes exactly as the
    /// original does.
    #[verifier::loop_isolation(false)]
    fn clone(&self) -> (r: Self)
        ensures
            r@ == self@,
    {
        let n = self.routes.len();
        let mut routes: Vec<RouteEntry> = Vec::new();
        let mut i: usize = 0;
        while i < n
            invariant
                i <= n,
                i == routes@.len(),
                forall|j: int| 0 <= j < i ==> routes@[j]@ == self@[j],
            decreases n - i,
        {
            routes.push(self.routes[i].clone());
            i += 1;
        }
        let r = Router { routes };
        proof {
            assert(r@ =~= self@);
        }
        r
    }
}

} // verus!

//! Plain-value models of the HTTP messages the gateway works on.
//!
//! The surrounding application converts between these values and its HTTP
//! stack at the edge; every rule the gateway applies to them is verified
//! here. Header names compare ASCII-case-insensitively, as on the wire.

use vstd::prelude::*;
use vstd::string::StrSliceExecFns;
use vstd::string::StringSliceAdditionalSpecFns;

use crate::text::lower;

verus! {

/// An HTTP method. The nine standard methods are listed; `Other` stands for
/// any extension method, which no allow-list ever names.
#[derive(Clone, Copy, Debug, PartialEq, Eq, Structural)]
pub enum Method {
    Options,
    Get,
    Post,
    Put,
    Delete,
    Head,
    Trace,
    Connect,
    Patch,
    Other,
}

/// An ordered list of header name/value pairs. Names are kept as received;
/// all lookups compare names ASCII-case-insensitively. `insert` replaces any
/// entry of the same name, so a map built through this interface holds at
/// most one entry per name.
#[derive(Debug)]
pub struct HeaderMap {
    entries: Vec<(String, String)>,
}

impl View for HeaderMap {
    type V = Seq<(Seq<char>, Seq<char>)>;

    closed spec fn view(&self) -> Seq<(Seq<char>, Seq<char>)> {
        Seq::new(self.entries@.len(), |i: int| (self.entries@[i].0@, self.entries@[i].1@))
    }
}

/// Whether some entry of `m` has the given name, case-insensitively.
pub open spec fn has_header(m: Seq<(Seq<char>, Seq<char>)>, name: Seq<char>) -> bool {
    exists|i: int| 0 <= i < m.len() && lower(m[i].0) == lower(name)
}

/// The value of the first entry of `m` named `name` (case-insensitively).
pub open spec fn header_value(m: Seq<(Seq<char>, Seq<char>)>, name: Seq<char>) -> Option<Seq<char>>
    decreases m.len(),
{
    if m.len() == 0 {
        None
    } else if lower(m[0].0) == lower(name) {
        Some(m[0].1)
    } else {
        header_value(m.drop_first(), name)
    }
}

/// When nothing before `k` matches and `k` does, the first value is `k`'s.
pub proof fn lemma_header_value_at(m: Seq<(Seq<char>, Seq<char>)>, name: Seq<char>, k: int)
    requires
        0 <= k < m.len(),
        forall|j: int| 0 <= j < k ==> lower(m[j].0) != lower(name),
        lower(m[k].0) == lower(name),
    ensures
        header_value(m, name) == Some(m[k].1),
    decreases m.len(),
{
    if k == 0 {
    } else {
        assert forall|j: int| 0 <= j < k - 1 implies lower(m.drop_first()[j].0) != lower(name) by {
            assert(m.drop_first()[j] == m[j + 1]);
        }
        assert(m.drop_first()[k - 1] == m[k]);
        lemma_header_value_at(m.drop_first(), name, k - 1);
    }
}

/// A named entry exists exactly when `header_value` finds one.
pub proof fn lemma_header_value_some(m: Seq<(Seq<char>, Seq<char>)>, name: Seq<char>)
    ensures
        header_value(m, name) is Some <==> has_header(m, name),
    decreases m.len(),
{
    if m.len() == 0 {
        assert(!has_header(m, name));
    } else if lower(m[0].0) == lower(name) {
        assert(has_header(m, name));
    } else {
        lemma_header_value_some(m.drop_first(), name);
        assert forall|i: int| 0 <= i < m.len() && lower(m[i].0) == lower(name) implies has_header(
            m.drop_first(),
            name,
        ) by {
            assert(i != 0);
            assert(m.drop_first()[i - 1] == m[i]);
        }
        assert(has_header(m, name) ==> has_header(m.drop_first(), name));
        assert forall|i: int|
            0 <= i < m.drop_first().len() && lower(m.drop_first()[i].0) == lower(
                name,
            ) implies has_header(m, name) by {
            assert(m.drop_first()[i] == m[i + 1]);
        }
    }
}

impl HeaderMap {
    /// An empty header map.
    pub fn new() -> (r: HeaderMap)
        ensures
            r@ == Seq::<(Seq<char>, Seq<char>)>::empty(),
    {
        let r = HeaderMap { entries: Vec::new() };
        proof {
            assert(r@ =~= Seq::<(Seq<char>, Seq<char>)>::empty());
        }
        r
    }

    /// A header map holding exactly the given entries, in order.
    pub fn from_entries(entries: Vec<(String, String)>) -> (r: HeaderMap)
        ensures
            r@ == Seq::new(entries@.len(), |i: int| (entries@[i].0@, entries@[i].1@)),
    {
        HeaderMap { entries }
    }

    /// The number of entries.
    pub fn len(&self) -> (r: usize)
        ensures
            r == self@.len(),
    {
        self.entries.len()
    }

    /// The entries as plain pairs, in order.
    pub fn entries(&self) -> (r: &Vec<(String, String)>)
        ensures
            r@.len() == self@.len(),
            forall|i: int| 0 <= i < self@.len() ==> (r@[i].0@, r@[i].1@) == self@[i],
    {
        &self.entries
    }

    /// The value of the first entry named `name` (case-insensitively), if any.
    pub fn get(&self, name: &str) -> (r: Option<&String>)
        ensures
            match r {
                Option::None => !has_header(self@, name@),
                Option::Some(v) => header_value(self@, name@) == Some(v@),
            },
    {
        let n = self.entries.len();
        let mut i: usize = 0;
        while i < n
            invariant
                n == self@.len(),
                n == self.entries@.len(),
                i <= n,
                forall|j: int| 0 <= j < i ==> lower(self@[j].0) != lower(name@),
            decreases n - i,
        {
            let entry_name: &String = &self.entries[i].0;
            if crate::text::eq_ignore_case(entry_name.as_str(), name) {
                proof {
                    assert(lower(self@[i as int].0) == lower(name@));
                    lemma_header_value_at(self@, name@, i as int);
                }
                return Some(&self.entries[i].1);
            }
            i += 1;
        }
        None
    }

    /// Whether an entry named `name` (case-insensitively) is present.
    pub fn contains_name(&self, name: &str) -> (r: bool)
        ensures
            r == has_header(self@, name@),
    {
        proof {
            lemma_header_value_some(self@, name@);
        }
        match self.get(name) {
            Some(_) => true,
            None => false,
        }
    }

    /// Inserts `name: value`, replacing any entries of the same name
    /// (case-insensitively). The new entry goes to the end.
    #[verifier::loop_isolation(false)]
    pub fn insert(&mut self, name: &str, value: &str)
        ensures
            final(self)@ == old(self)@.filter(|e: (Seq<char>, Seq<char>)| lower(e.0) != lower(name@))
                .push((name@, value@)),
    {
        let ghost orig = self@;
        let ghost pred = |e: (Seq<char>, Seq<char>)| lower(e.0) != lower(name@);
        let n = self.entries.len();
        let mut kept: Vec<(String, String)> = Vec::new();
        let mut i: usize = 0;
        while i < n
            invariant
                n == orig.len(),
                n == self.entries@.len(),
                self@ == orig,
                i <= n,
                Seq::new(kept@.len(), |k: int| (kept@[k].0@, kept@[k].1@)) =~= orig.take(i as int).filter(pred),
            decreases n - i,
        {
            let entry_name: &String = &self.entries[i].0;
            let keep = !crate::text::eq_ignore_case(entry_name.as_str(), name);
            proof {
                broadcast use Seq::lemma_filter_push;

                assert(orig[i as int] == (self.entries@[i as int].0@, self.entries@[i as int].1@));
                assert(orig.take(i + 1) =~= orig.take(i as int).push(orig[i as int]));
                assert(keep == pred(orig[i as int]));
            }
            if keep {
                let pair = (self.entries[i].0.clone(), self.entries[i].1.clone());
                kept.push(pair);
                proof {
                    assert(Seq::new(kept@.len(), |k: int| (kept@[k].0@, kept@[k].1@)) =~= orig.take(
                        i as int,
                    ).filter(pred).push(orig[i as int]));
                }
            } else {
                proof {
                    assert(Seq::new(kept@.len(), |k: int| (kept@[k].0@, kept@[k].1@)) =~= orig.take(
                        i as int,
                    ).filter(pred));
                }
            }
            i += 1;
        }
        proof {
            assert(orig.take(n as int) =~= orig);
        }
        let name_s: String = name.to_owned();
        let value_s: String = value.to_owned();
        kept.push((name_s, value_s));
        self.entries = kept;
        proof {
            assert(self@ =~= orig.filter(pred).push((name@, value@)));
        }
    }
}

impl PartialEq for HeaderMap {
    /// Two header maps are equal when they hold the same entries, byte for
    /// byte and in the same order.
    fn eq(&self, other: &Self) -> (r: bool) {
        let n = self.entries.len();
        if n != other.entries.len() {
            assert(self@.len() != other@.len());
            return false;
        }
        let mut i: usize = 0;
        while i < n
            invariant
                n == self@.len(),
                n == self.entries@.len(),
                n == other@.len(),
                n == other.entries@.len(),
                i <= n,
                forall|j: int| 0 <= j < i ==> self@[j] == other@[j],
            decreases n - i,
        {
            proof {
                assert(self@[i as int] == (self.entries@[i as int].0@, self.entries@[i as int].1@));
                assert(other@[i as int] == (other.entries@[i as int].0@,
                other.entries@[i as int].1@));
            }
            let sn: &String = &self.entries[i].0;
            let on: &String = &other.entries[i].0;
            let sv: &String = &self.entries[i].1;
            let ov: &String = &other.entries[i].1;
            if !(*sn == *on) || !(*sv == *ov) {
                assert(self@[i as int] != other@[i as int]);
                return false;
            }
            assert(self@[i as int] == other@[i as int]);
            i += 1;
        }
        assert(self@ =~= other@);
        true
    }
}

impl vstd::std_specs::cmp::PartialEqSpecImpl for HeaderMap {
    open spec fn obeys_eq_spec() -> bool {
        true
    }

    open spec fn eq_spec(&self, other: &Self) -> bool {
        self@ == other@
    }
}

/// A decoded HTTP request: the method, the URI as received, and the headers.
/// The body is not modeled; the application streams it unchanged.
pub struct Request {
    pub method: Method,
    pub uri: String,
    pub headers: HeaderMap,
}

/// The mathematical form of a request.
pub ghost struct RequestView {
    pub method: Method,
    pub uri: Seq<char>,
    pub headers: Seq<(Seq<char>, Seq<char>)>,
}

impl View for Request {
    type V = RequestView;

    open spec fn view(&self) -> RequestView {
        RequestView { method: self.method, uri: self.uri@, headers: self.headers@ }
    }
}

/// A synthesized HTTP response: a status code, extra headers (only
/// `Location` is ever set), and the full body.
pub struct Response {
    pub status: u16,
    pub headers: HeaderMap,
    pub body: Vec<u8>,
}

/// The mathematical form of a response.
pub ghost struct ResponseView {
    pub status: u16,
    pub headers: Seq<(Seq<char>, Seq<char>)>,
    pub body: Seq<u8>,
}

impl View for Response {
    type V = ResponseView;

    open spec fn view(&self) -> ResponseView {
        ResponseView { status: self.status, headers: self.headers@, body: self.body@ }
    }
}

impl Response {
    /// A response with the given status, an ASCII text body, and no headers.
    pub fn text(status: u16, body: &str) -> (r: Response)
        ensures
            r.status == status,
            r.body@ == body.spec_bytes(),
            r.headers@.len() == 0,
    {
        Response { status, headers: HeaderMap::new(), body: body.as_bytes_vec() }
    }
}

} // verus!

//! Per-route HTTP-method allow-lists.
//!
//! A route either admits any method or an explicit set of the nine standard
//! methods. Configuration tokens are parsed case-insensitively; an unknown
//! token is a configuration error, checked before parsing.

use vstd::prelude::*;

use crate::http::Method;
use crate::text::{eq_ignore_case, lower};

verus! {

/// Either every method, or exactly the listed ones.
#[derive(Debug)]
pub enum AllowedMethods {
    Any,
    Only(Vec<Method>),
}

/// The method named by a configuration token, compared
/// ASCII-case-insensitively, or `None` for an unknown token.
pub open spec fn method_token(s: Seq<char>) -> Option<Method> {
    if lower(s) == "options"@ {
        Some(Method::Options)
    } else if lower(s) == "get"@ {
        Some(Method::Get)
    } else if lower(s) == "post"@ {
        Some(Method::Post)
    } else if lower(s) == "put"@ {
        Some(Method::Put)
    } else if lower(s) == "delete"@ {
        Some(Method::Delete)
    } else if lower(s) == "head"@ {
        Some(Method::Head)
    } else if lower(s) == "trace"@ {
        Some(Method::Trace)
    } else if lower(s) == "connect"@ {
        Some(Method::Connect)
    } else if lower(s) == "patch"@ {
        Some(Method::Patch)
    } else {
        None
    }
}

/// The methods named by a token list, in order. Meaningful only when every
/// token is known.
pub open spec fn parsed_methods(toks: Seq<Seq<char>>) -> Seq<Method> {
    Seq::new(toks.len(), |i: int| method_token(toks[i])->0)
}

/// The mathematical form of an allow-list: any method, or an explicit
/// method sequence.
pub ghost enum AllowedView {
    Any,
    Only(Seq<Method>),
}

impl View for AllowedMethods {
    type V = AllowedView;

    open spec fn view(&self) -> AllowedView {
        match self {
            AllowedMethods::Any => AllowedView::Any,
            AllowedMethods::Only(methods) => AllowedView::Only(methods@),
        }
    }
}

/// Whether an allow-list admits a method: `Any` admits every method;
/// `Only` admits exactly the listed ones.
pub open spec fn admits(v: AllowedView, m: Method) -> bool {
    match v {
        AllowedView::Any => true,
        AllowedView::Only(methods) => methods.contains(m),
    }
}

impl AllowedMethods {
    /// Whether this allow-list admits `m`.
    pub open spec fn allows(&self, m: Method) -> bool {
        admits(self@, m)
    }

    /// Whether this allow-list admits `method`: `Any` admits every method;
    /// `Only` admits exactly the listed ones.
    #[verifier::loop_isolation(false)]
    pub fn contains(&self, method: &Method) -> (r: bool)
        ensures
            r == self.allows(*method),
    {
        match self {
            AllowedMethods::Any => true,
            AllowedMethods::Only(methods) => {
                let n = methods.len();
                let mut i: usize = 0;
                while i < n
                    invariant
                        n == methods@.len(),
                        i <= n,
                        forall|j: int| 0 <= j < i ==> methods@[j] != *method,
                    decreases n - i,
                {
                    if methods[i] == *method {
                        assert(methods@.contains(*method));
                        return true;
                    }
                    i += 1;
                }
                assert(!methods@.contains(*method));
                false
            },
        }
    }
}

impl PartialEq for AllowedMethods {
    /// Allow-lists are equal when they are the same variant and, for `Only`,
    /// list the same methods in the same order.
    #[verifier::loop_isolation(false)]
    fn eq(&self, other: &Self) -> (r: bool) {
        match self {
            AllowedMethods::Any => matches!(other, AllowedMethods::Any),
            AllowedMethods::Only(a) => match other {
                AllowedMethods::Any => false,
                AllowedMethods::Only(b) => {
                    let n = a.len();
                    if n != b.len() {
                        assert(a@ != b@);
                        return false;
                    }
                    let mut i: usize = 0;
                    while i < n
                        invariant
                            n == a@.len() == b@.len(),
                            i <= n,
                            forall|j: int| 0 <= j < i ==> a@[j] == b@[j],
                        decreases n - i,
                    {
                        if !(a[i] == b[i]) {
                            assert(a@[i as int] != b@[i as int]);
                            return false;
                        }
                        i += 1;
                    }
                    assert(a@ =~= b@);
                    true
                },
            },
        }
    }
}

impl vstd::std_specs::cmp::PartialEqSpecImpl for AllowedMethods {
    open spec fn obeys_eq_spec() -> bool {
        true
    }

    open spec fn eq_spec(&self, other: &Self) -> bool {
        self@ == other@
    }
}

impl Clone for AllowedMethods {
    /// Cloning keeps the exact allow-list.
    #[verifier::loop_isolation(false)]
    fn clone(&self) -> (r: Self)
        ensures
            r@ == self@,
    {
        match self {
            AllowedMethods::Any => AllowedMethods::Any,
            AllowedMethods::Only(methods) => {
                let mut out: Vec<Method> = Vec::new();
                let n = methods.len();
                let mut i: usize = 0;
                while i < n
                    invariant
                        n == methods@.len(),
                        i <= n,
                        out@ =~= methods@.take(i as int),
                    decreases n - i,
                {
                    out.push(methods[i]);
                    i += 1;
                }
                assert(out@ =~= methods@);
                AllowedMethods::Only(out)
            },
        }
    }
}

/// Maps one configuration token to its method.
fn parse_token(token: &str) -> (r: Option<Method>)
    ensures
        r == method_token(token@),
{
    if eq_ignore_case(token, "options") {
        proof {
            reveal_strlit("options");
            assert(lower("options"@) =~= "options"@);
        }
        Some(Method::Options)
    } else if eq_ignore_case(token, "get") {
        proof {
            reveal_strlit("get");
            assert(lower("get"@) =~= "get"@);
        }
        Some(Method::Get)
    } else if eq_ignore_case(token, "post") {
        proof {
            reveal_strlit("post");
            assert(lower("post"@) =~= "post"@);
        }
        Some(Method::Post)
    } else if eq_ignore_case(token, "put") {
        proof {
            reveal_strlit("put");
            assert(lower("put"@) =~= "put"@);
        }
        Some(Method::Put)
    } else if eq_ignore_case(token, "delete") {
        proof {
            reveal_strlit("delete");
            assert(lower("delete"@) =~= "delete"@);
        }
        Some(Method::Delete)
    } else if eq_ignore_case(token, "head") {
        proof {
            reveal_strlit("head");
            assert(lower("head"@) =~= "head"@);
        }
        Some(Method::Head)
    } else if eq_ignore_case(token, "trace") {
        proof {
            reveal_strlit("trace");
            assert(lower("trace"@) =~= "trace"@);
        }
        Some(Method::Trace)
    } else if eq_ignore_case(token, "connect") {
        proof {
            reveal_strlit("connect");
            assert(lower("connect"@) =~= "connect"@);
        }
        Some(Method::Connect)
    } else if eq_ignore_case(token, "patch") {
        proof {
            reveal_strlit("patch");
            assert(lower("patch"@) =~= "patch"@);
        }
        Some(Method::Patch)
    } else {
        proof {
            reveal_strlit("options");
            reveal_strlit("get");
            reveal_strlit("post");
            reveal_strlit("put");
            reveal_strlit("delete");
            reveal_strlit("head");
            reveal_strlit("trace");
            reveal_strlit("connect");
            reveal_strlit("patch");
            assert(lower("options"@) =~= "options"@);
            assert(lower("get"@) =~= "get"@);
            assert(lower("post"@) =~= "post"@);
            assert(lower("put"@) =~= "put"@);
            assert(lower("delete"@) =~= "delete"@);
            assert(lower("head"@) =~= "head"@);
            assert(lower("trace"@) =~= "trace"@);
            assert(lower("connect"@) =~= "connect"@);
            assert(lower("patch"@) =~= "patch"@);
        }
        None
    }
}

/// Checks a whole token list; `true` iff every token names a method.
pub fn valid_method_tokens(tokens: &Vec<String>) -> (r: bool)
    ensures
        r == (forall|i: int| 0 <= i < tokens@.len() ==> method_token(#[trigger] tokens@[i]@) is Some),
{
    let n = tokens.len();
    let mut i: usize = 0;
    while i < n
        invariant
            n == tokens@.len(),
            i <= n,
            forall|j: int| 0 <= j < i ==> method_token(#[trigger] tokens@[j]@) is Some,
        decreases n - i,
    {
        if parse_token(tokens[i].as_str()).is_none() {
            return false;
        }
        i += 1;
    }
    true
}

/// Parses a configuration method list: an empty list admits any method;
/// otherwise each token names one of the nine standard methods,
/// case-insensitively. Unknown tokens are rejected beforehand (they are a
/// configuration error), so every token is required to be known here.
pub fn parse_allowed_methods(allowed_methods: Vec<String>) -> (r: AllowedMethods)
    requires
        forall|i: int|
            0 <= i < allowed_methods@.len() ==> method_token(
                #[trigger] allowed_methods@[i]@,
            ) is Some,
    ensures
        allowed_methods@.len() == 0 ==> r@ == AllowedView::Any,
        allowed_methods@.len() > 0 ==> r@ == AllowedView::Only(
            parsed_methods(Seq::new(allowed_methods@.len(), |i: int| allowed_methods@[i]@)),
        ),
{
    let ghost toks = Seq::new(allowed_methods@.len(), |i: int| allowed_methods@[i]@);
    if allowed_methods.is_empty() {
        AllowedMethods::Any
    } else {
        let n = allowed_methods.len();
        let mut out: Vec<Method> = Vec::new();
        let mut i: usize = 0;
        #[verifier::loop_isolation(false)]
        while i < n
            invariant
                i <= n,
                out@ =~= parsed_methods(toks).take(i as int),
            decreases n - i,
        {
            let m = match parse_token(allowed_methods[i].as_str()) {
                Some(m) => m,
                None => {
                    proof {
                        assert(method_token(toks[i as int]) is Some);
                    }
                    unreached()
                },
            };
            out.push(m);
            proof {
                assert(out@ =~= parsed_methods(toks).take(i + 1));
            }
            i += 1;
        }
        proof {
            assert(parsed_methods(toks).take(n as int) =~= parsed_methods(toks));
        }
        AllowedMethods::Only(out)
    }
}

/// Method-allow-list round trip: for any list of known tokens, whatever
/// their letter case, parsing yields exactly the named methods, in order;
/// the empty list yields `Any`; and `Any` admits every method.
pub proof fn lemma_allow_list_round_trip(toks: Seq<Seq<char>>, ms: Seq<Method>, m: Method)
    requires
        toks.len() == ms.len(),
        forall|i: int| 0 <= i < toks.len() ==> method_token(#[trigger] toks[i]) == Some(ms[i]),
    ensures
        parsed_methods(toks) == ms,
        admits(AllowedView::Any, m),
{
    assert(parsed_methods(toks) =~= ms);
}

/// A token names the same method whatever its letter case: lower-casing the
/// token first changes nothing.
pub proof fn lemma_method_token_case_insensitive(s: Seq<char>)
    ensures
        method_token(lower(s)) == method_token(s),
{
    crate::text::lemma_lower_idempotent(s);
}

} // verus!

use vstd::prelude::*;

verus! {

/// The namespace that every limit of this deployment belongs to.
pub const NAMESPACE: &'static str = "proxy_wasm";

/// What `str::to_lowercase` makes of a string.
pub uninterp spec fn lower_of(s: Seq<char>) -> Seq<char>;

/// Relies on `str::to_lowercase`: its result depends on the characters alone.
#[verifier::external_body]
fn lowercase(s: &str) -> (r: String)
    ensures
        r@ == lower_of(s@),
{
    s.to_lowercase()
}

pub open spec fn path_pseudo() -> Seq<char> {
    seq![':', 'p', 'a', 't', 'h']
}

pub open spec fn method_pseudo() -> Seq<char> {
    seq![':', 'm', 'e', 't', 'h', 'o', 'd']
}

pub open spec fn path_key() -> Seq<char> {
    seq!['r', 'e', 'q', '.', 'p', 'a', 't', 'h']
}

pub open spec fn method_key() -> Seq<char> {
    seq!['r', 'e', 'q', '.', 'm', 'e', 't', 'h', 'o', 'd']
}

pub open spec fn headers_prefix() -> Seq<char> {
    seq!['r', 'e', 'q', '.', 'h', 'e', 'a', 'd', 'e', 'r', 's', '.']
}

pub open spec fn namespace_key() -> Seq<char> {
    seq!['n', 'a', 'm', 'e', 's', 'p', 'a', 'c', 'e']
}

pub open spec fn is_pseudo(name: Seq<char>) -> bool {
    name.len() > 0 && name[0] == ':'
}

/// The attribute that a header of this name sets, if any: `:path` and
/// `:method` set `req.path` and `req.method`, other pseudo-headers nothing,
/// and an ordinary header `H` sets `req.headers.` followed by `H` in lower case.
pub open spec fn attribute_of(name: Seq<char>) -> Option<Seq<char>> {
    if is_pseudo(name) {
        if name == path_pseudo() {
            Some(path_key())
        } else if name == method_pseudo() {
            Some(method_key())
        } else {
            None
        }
    } else {
        Some(headers_prefix() + lower_of(name))
    }
}

/// The attribute pairs that a header sequence gives, in header order.
pub open spec fn header_pairs(headers: Seq<(Seq<char>, Seq<char>)>) -> Seq<(Seq<char>, Seq<char>)>
    decreases headers.len(),
{
    if headers.len() == 0 {
        Seq::empty()
    } else {
        let prev = header_pairs(headers.drop_last());
        match attribute_of(headers.last().0) {
            Some(k) => prev.push((k, headers.last().1)),
            None => prev,
        }
    }
}

/// The whole request context: the header pairs, then the namespace.
pub open spec fn context_pairs(headers: Seq<(Seq<char>, Seq<char>)>, ns: Seq<char>) -> Seq<(Seq<char>, Seq<char>)> {
    header_pairs(headers).push((namespace_key(), ns))
}

fn literal(s: &str) -> (r: String)
    ensures
        r@ == s@,
{
    s.to_owned()
}

/// The attribute that an ordinary header sets, given its name in lower case.
pub fn headers_key(lower: &str) -> (r: String)
    ensures
        r@ == headers_prefix() + lower@,
{
    let mut k = literal("req.headers.");
    proof {
        reveal_strlit("req.headers.");
        assert(k@ =~= headers_prefix());
    }
    k.append(lower);
    k
}

/// The attribute that the header `name` sets, if any.
pub fn header_attribute(name: &String) -> (r: Option<String>)
    ensures
        r.deep_view() == attribute_of(name@),
{
    let n = name.as_str();
    if n.unicode_len() > 0 && n.get_char(0) == ':' {
        let path = literal(":path");
        let method = literal(":method");
        proof {
            reveal_strlit(":path");
            reveal_strlit(":method");
            assert(path@ =~= path_pseudo());
            assert(method@ =~= method_pseudo());
        }
        if *name == path {
            let k = literal("req.path");
            proof {
                reveal_strlit("req.path");
                assert(k@ =~= path_key());
            }
            Some(k)
        } else if *name == method {
            let k = literal("req.method");
            proof {
                reveal_strlit("req.method");
                assert(k@ =~= method_key());
            }
            Some(k)
        } else {
            None
        }
    } else {
        let lower = lowercase(n);
        Some(headers_key(lower.as_str()))
    }
}

/// The request context of a header sequence, with the given namespace.
pub fn extract_keys(request_headers: &[(String, String)], namespace: &str) -> (r: Vec<(String, String)>)
    ensures
        r.deep_view() == context_pairs(request_headers.deep_view(), namespace@),
{
    let ghost hs = request_headers.deep_view();
    let mut result: Vec<(String, String)> = Vec::new();
    let mut i: usize = 0;
    while i < request_headers.len()
        invariant
            i <= request_headers.len(),
            hs == request_headers.deep_view(),
            result.deep_view() == header_pairs(hs.take(i as int)),
        decreases request_headers.len() - i,
    {
        let (name, value) = &request_headers[i];
        let attr = header_attribute(name);
        proof {
            assert(hs.take(i + 1).drop_last() =~= hs.take(i as int));
        }
        match attr {
            Some(k) => {
                result.push((k, value.clone()));
                assert(result.deep_view() =~= header_pairs(hs.take(i + 1)));
            },
            None => {},
        }
        i = i + 1;
    }
    assert(hs.take(i as int) =~= hs);
    let ns_key = literal("namespace");
    proof {
        reveal_strlit("namespace");
        assert(ns_key@ =~= namespace_key());
    }
    result.push((ns_key, namespace.to_owned()));
    assert(result.deep_view() =~= context_pairs(hs, namespace@));
    result
}

/// The key/values that limits are matched against: `req.path`, `req.method`,
/// `req.headers.<name in lower case>` from the request headers, and
/// `namespace`. A later header overrides an earlier one with the same key.
pub fn key_vals_for_authorizing(request_headers: &[(String, String)]) -> (r: Vec<(String, String)>)
    ensures
        r.deep_view() == context_pairs(request_headers.deep_view(), NAMESPACE@),
{
    extract_keys(request_headers, NAMESPACE)
}

/// The request context is a function of the header sequence: the same
/// headers always give the same key/values.
pub proof fn lemma_context_deterministic(h1: Seq<(Seq<char>, Seq<char>)>, h2: Seq<(Seq<char>, Seq<char>)>, ns: Seq<char>)
    requires
        h1 == h2,
    ensures
        context_pairs(h1, ns) == context_pairs(h2, ns),
{
}

/// Two ordinary header names that are equal up to case set the same
/// attribute, so the same header value under either name gives the same
/// request context.
pub proof fn lemma_case_insensitive(n1: Seq<char>, n2: Seq<char>, value: Seq<char>, ns: Seq<char>)
    requires
        !is_pseudo(n1),
        !is_pseudo(n2),
        lower_of(n1) == lower_of(n2),
    ensures
        attribute_of(n1) == attribute_of(n2),
        context_pairs(seq![(n1, value)], ns) == context_pairs(seq![(n2, value)], ns),
{
    assert(seq![(n1, value)].drop_last() =~= Seq::<(Seq<char>, Seq<char>)>::empty());
    assert(seq![(n2, value)].drop_last() =~= Seq::<(Seq<char>, Seq<char>)>::empty());
}

} // verus!

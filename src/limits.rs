use vstd::prelude::*;
use crate::kv::{lookup, pairs_map};

verus! {

/// An equality test `attribute == literal` on the request context.
pub struct Condition {
    pub attribute: String,
    pub literal: String,
}

impl DeepView for Condition {
    type V = (Seq<char>, Seq<char>);

    open spec fn deep_view(&self) -> (Seq<char>, Seq<char>) {
        (self.attribute@, self.literal@)
    }
}

impl Condition {
    pub fn new(attribute: &str, literal: &str) -> (r: Condition)
        ensures
            r.deep_view() == (attribute@, literal@),
    {
        Condition { attribute: attribute.to_owned(), literal: literal.to_owned() }
    }
}

/// A rate rule: at most `max_value` admitted requests per `window_seconds`
/// for the requests that meet all `conditions`, counted apart for each
/// combination of values of `variables`.
pub struct Limit {
    pub namespace: String,
    pub max_value: u64,
    pub window_seconds: u64,
    pub conditions: Vec<Condition>,
    pub variables: Vec<String>,
}

pub ghost struct LimitModel {
    pub namespace: Seq<char>,
    pub max_value: u64,
    pub window_seconds: u64,
    pub conditions: Seq<(Seq<char>, Seq<char>)>,
    pub variables: Seq<Seq<char>>,
}

impl DeepView for Limit {
    type V = LimitModel;

    open spec fn deep_view(&self) -> LimitModel {
        LimitModel {
            namespace: self.namespace@,
            max_value: self.max_value,
            window_seconds: self.window_seconds,
            conditions: self.conditions.deep_view(),
            variables: self.variables.deep_view(),
        }
    }
}

impl Limit {
    pub open spec fn wf(&self) -> bool {
        self.max_value > 0 && self.window_seconds > 0
    }

    pub fn new(
        namespace: &str,
        max_value: u64,
        window_seconds: u64,
        conditions: Vec<Condition>,
        variables: Vec<String>,
    ) -> (r: Limit)
        requires
            max_value > 0,
            window_seconds > 0,
        ensures
            r.wf(),
            r.namespace@ == namespace@,
            r.max_value == max_value,
            r.window_seconds == window_seconds,
            r.conditions.deep_view() == conditions.deep_view(),
            r.variables.deep_view() == variables.deep_view(),
    {
        Limit { namespace: namespace.to_owned(), max_value, window_seconds, conditions, variables }
    }
}

/// The identity of a counter: the limit's namespace, conditions and
/// variables, and the value of each variable in the request (or none).
pub type CounterKeyModel = (Seq<char>, Seq<(Seq<char>, Seq<char>)>, Seq<Seq<char>>, Seq<Option<Seq<char>>>);

/// Whether every condition of the limit holds in the context.
pub open spec fn applies(l: LimitModel, ctx: Map<Seq<char>, Seq<char>>) -> bool {
    forall|i: int| 0 <= i < l.conditions.len() ==>
        #[trigger] ctx.contains_key(l.conditions[i].0) && ctx[l.conditions[i].0] == l.conditions[i].1
}

pub open spec fn value_of(ctx: Map<Seq<char>, Seq<char>>, attr: Seq<char>) -> Option<Seq<char>> {
    if ctx.contains_key(attr) {
        Some(ctx[attr])
    } else {
        None
    }
}

/// The counter that the limit counts the request on.
pub open spec fn counter_key_of(l: LimitModel, ctx: Map<Seq<char>, Seq<char>>) -> CounterKeyModel {
    (l.namespace, l.conditions, l.variables, l.variables.map_values(|v: Seq<char>| value_of(ctx, v)))
}

/// Whether `limit` applies to the request with key/values `ctx`.
pub fn limit_applies(limit: &Limit, ctx: &Vec<(String, String)>) -> (r: bool)
    ensures
        r == applies(limit.deep_view(), pairs_map(ctx.deep_view())),
{
    let ghost m = pairs_map(ctx.deep_view());
    let ghost l = limit.deep_view();
    let mut i: usize = 0;
    while i < limit.conditions.len()
        invariant
            i <= limit.conditions.len(),
            m == pairs_map(ctx.deep_view()),
            l == limit.deep_view(),
            forall|j: int| 0 <= j < i ==>
                #[trigger] m.contains_key(l.conditions[j].0) && m[l.conditions[j].0] == l.conditions[j].1,
        decreases limit.conditions.len() - i,
    {
        let c = &limit.conditions[i];
        assert(l.conditions[i as int] == c.deep_view());
        match lookup(ctx, &c.attribute) {
            Some(v) => {
                if v != c.literal {
                    assert(m.contains_key(l.conditions[i as int].0));
                    assert(m[l.conditions[i as int].0] != l.conditions[i as int].1);
                    return false;
                }
            },
            None => {
                assert(!m.contains_key(l.conditions[i as int].0));
                return false;
            },
        }
        i = i + 1;
    }
    assert(l.conditions.len() == limit.conditions.len());
    assert(applies(l, m));
    true
}

/// The limits of this deployment: per user, at most 10 GET and 5 POST
/// requests a minute.
pub fn configured_limits() -> (r: Vec<Limit>)
    ensures
        r.len() == 2,
        r@[0].wf(),
        r@[1].wf(),
        r.deep_view()[0] == (LimitModel {
            namespace: "proxy_wasm"@,
            max_value: 10,
            window_seconds: 60,
            conditions: seq![("req.method"@, "GET"@)],
            variables: seq!["req.headers.user-id"@],
        }),
        r.deep_view()[1] == (LimitModel {
            namespace: "proxy_wasm"@,
            max_value: 5,
            window_seconds: 60,
            conditions: seq![("req.method"@, "POST"@)],
            variables: seq!["req.headers.user-id"@],
        }),
{
    let get = Limit::new(
        "proxy_wasm",
        10,
        60,
        vec![Condition::new("req.method", "GET")],
        vec!["req.headers.user-id".to_owned()],
    );
    let post = Limit::new(
        "proxy_wasm",
        5,
        60,
        vec![Condition::new("req.method", "POST")],
        vec!["req.headers.user-id".to_owned()],
    );
    let r = vec![get, post];
    assert(r.deep_view()[0].conditions =~= seq![("req.method"@, "GET"@)]);
    assert(r.deep_view()[0].variables =~= seq!["req.headers.user-id"@]);
    assert(r.deep_view()[1].conditions =~= seq![("req.method"@, "POST"@)]);
    assert(r.deep_view()[1].variables =~= seq!["req.headers.user-id"@]);
    r
}

} // verus!

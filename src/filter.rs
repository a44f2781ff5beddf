use vstd::prelude::*;
use crate::counters::{table_of, Counter};
use crate::engine::{count_all, decide, rate_limited};
use crate::keys::{context_pairs, key_vals_for_authorizing, NAMESPACE};
use crate::kv::pairs_map;
use crate::limits::{configured_limits, Limit, LimitModel};
use crate::snapshot::{counters_of, records_of, snapshot_decoding, snapshot_encoding, CounterModel};

verus! {

/// The filter of one request: it holds the limit set, fixed once loaded.
pub struct Limiter {
    pub limits: Vec<Limit>,
}

/// How a request ends.
pub enum Outcome {
    /// Let through; the bytes are the updated snapshot to store.
    Admitted(Vec<u8>),
    /// Rejected: some limit that applies is exhausted.
    RateLimited,
    /// The snapshot could not be read or written.
    Forbidden,
}

/// The request context of a header sequence, as a map.
pub open spec fn request_context(headers: Seq<(Seq<char>, Seq<char>)>) -> Map<Seq<char>, Seq<char>> {
    pairs_map(context_pairs(headers, NAMESPACE@))
}

/// What a request ends in when the stored counters are `t0`: rejected
/// exactly when a limit that applies is exhausted; otherwise admitted with a
/// snapshot of the counted table.
pub open spec fn outcome_allowed(
    ls: Seq<LimitModel>,
    ctx: Map<Seq<char>, Seq<char>>,
    t0: Seq<CounterModel>,
    now: u64,
    r: Outcome,
) -> bool {
    let limited = rate_limited(ls, ctx, pairs_map(t0), now);
    match r {
        Outcome::RateLimited => limited,
        Outcome::Admitted(b) => !limited && exists|t: Seq<CounterModel>|
            #[trigger] pairs_map(t) == count_all(ls, ctx, pairs_map(t0), now)
                && b@ == snapshot_encoding(records_of(t)),
        Outcome::Forbidden => false,
    }
}

/// The limiter of this deployment, with its configured limits.
pub fn new_limiter() -> (r: Limiter)
    ensures
        r.limits.deep_view() == configured_limits_model(),
{
    let limits = configured_limits();
    Limiter { limits }
}

pub open spec fn configured_limits_model() -> Seq<LimitModel> {
    seq![
        LimitModel {
            namespace: "proxy_wasm"@,
            max_value: 10,
            window_seconds: 60,
            conditions: seq![("req.method"@, "GET"@)],
            variables: seq!["req.headers.user-id"@],
        },
        LimitModel {
            namespace: "proxy_wasm"@,
            max_value: 5,
            window_seconds: 60,
            conditions: seq![("req.method"@, "POST"@)],
            variables: seq!["req.headers.user-id"@],
        },
    ]
}

impl Limiter {
    /// A limiter over the given limit set.
    pub fn new(limits: Vec<Limit>) -> (r: Limiter)
        ensures
            r.limits == limits,
    {
        Limiter { limits }
    }

    /// Decides on a request against the counters restored for it: admits it,
    /// counting it on every limit that applies, unless one of those limits is
    /// exhausted, in which case no counter changes.
    pub fn admit_request(&self, request_headers: &[(String, String)], counters: &mut Vec<Counter>, now: u64) -> (admitted: bool)
        ensures
            admitted == !rate_limited(
                self.limits.deep_view(),
                request_context(request_headers.deep_view()),
                pairs_map(old(counters).deep_view()),
                now,
            ),
            admitted ==> pairs_map(final(counters).deep_view()) == count_all(
                self.limits.deep_view(),
                request_context(request_headers.deep_view()),
                pairs_map(old(counters).deep_view()),
                now,
            ),
            !admitted ==> final(counters)@ == old(counters)@,
    {
        let ctx = key_vals_for_authorizing(request_headers);
        proof {
            lemma_table_view(*counters);
        }
        let admitted = decide(&self.limits, &ctx, counters, now);
        proof {
            lemma_table_view(*counters);
        }
        admitted
    }

    /// Handles one request: restores the counters from the stored bytes,
    /// decides, and on admission hands back the snapshot to store. Stored
    /// bytes that hold no snapshot end the request as forbidden.
    pub fn on_http_request_headers(
        &self,
        request_headers: &[(String, String)],
        stored_data: Option<&[u8]>,
        now: u64,
    ) -> (r: Outcome)
        ensures
            stored_data is None ==> outcome_allowed(
                self.limits.deep_view(),
                request_context(request_headers.deep_view()),
                Seq::empty(),
                now,
                r,
            ),
            stored_data is Some ==> (r is Forbidden <==> snapshot_decoding(stored_data->Some_0@) is None),
            stored_data is Some && snapshot_decoding(stored_data->Some_0@) is Some ==> outcome_allowed(
                self.limits.deep_view(),
                request_context(request_headers.deep_view()),
                counters_of(snapshot_decoding(stored_data->Some_0@)->Some_0),
                now,
                r,
            ),
            forall|t: Seq<CounterModel>|
                #[trigger] snapshot_encoding(records_of(t)) == stored_data->Some_0@ && stored_data is Some
                    ==> outcome_allowed(
                    self.limits.deep_view(),
                    request_context(request_headers.deep_view()),
                    t,
                    now,
                    r,
                ),
    {
        let mut counters = match self.get_stored_counters(stored_data) {
            Ok(c) => c,
            Err(_) => {
                return Outcome::Forbidden;
            },
        };
        let ghost t0 = counters.deep_view();
        if !self.admit_request(request_headers, &mut counters, now) {
            return Outcome::RateLimited;
        }
        let ghost t1 = counters.deep_view();
        let b = self.store_counters(counters);
        assert(pairs_map(t1) == count_all(
            self.limits.deep_view(),
            request_context(request_headers.deep_view()),
            pairs_map(t0),
            now,
        ));
        Outcome::Admitted(b)
    }
}

/// The deep view of a counter table is its counters' views in order.
proof fn lemma_table_view(t: Vec<Counter>)
    ensures
        table_of(t@) == pairs_map(t.deep_view()),
{
    assert(t.deep_view() =~= t@.map_values(|c: Counter| c.deep_view()));
}

} // verus!

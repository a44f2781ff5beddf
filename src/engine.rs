//! The rate-limiting decision. It is this crate's own rather than limitador's
//! `RateLimiter`: here a counter expires at the very instant of its expiry
//! (`now >= expires_at`), whereas limitador's storage only expires a counter
//! strictly after it and drops expired counters when they are read out; and
//! here a limit applies by its conditions alone. The whole table is a plain
//! value restored and persisted once per request.

use vstd::prelude::*;
use crate::counters::{
    counter_key, find_counter, lemma_table_absent, lemma_table_found, table_of, Counter, CounterKey,
};
use crate::kv::{lemma_pairs_map_push, lemma_pairs_map_update, pairs_map};
use crate::limits::{applies, counter_key_of, limit_applies, CounterKeyModel, Limit, LimitModel};

verus! {

pub type Table = Map<CounterKeyModel, (u64, u64)>;

pub open spec fn sat_add(a: u64, b: u64) -> u64 {
    if a + b > u64::MAX {
        u64::MAX
    } else {
        (a + b) as u64
    }
}

/// What a counter counts at instant `now`: nothing once `now` has reached
/// its expiry, or where there is no such counter.
pub open spec fn live_value(m: Table, k: CounterKeyModel, now: u64) -> u64 {
    if m.contains_key(k) && now < m[k].1 {
        m[k].0
    } else {
        0
    }
}

/// Whether one more request would take the limit's counter past its maximum.
pub open spec fn exceeds(l: LimitModel, ctx: Map<Seq<char>, Seq<char>>, m: Table, now: u64) -> bool {
    applies(l, ctx) && live_value(m, counter_key_of(l, ctx), now) + 1 > l.max_value
}

/// A request is rate limited when some limit that applies to it is exhausted.
pub open spec fn rate_limited(ls: Seq<LimitModel>, ctx: Map<Seq<char>, Seq<char>>, m: Table, now: u64) -> bool {
    exists|i: int| 0 <= i < ls.len() && #[trigger] exceeds(ls[i], ctx, m, now)
}

/// The table after one limit has counted the request: a live counter goes
/// up by one, an absent or expired one starts again at one with a new window.
pub open spec fn count_request(l: LimitModel, ctx: Map<Seq<char>, Seq<char>>, m: Table, now: u64) -> Table {
    if applies(l, ctx) {
        let k = counter_key_of(l, ctx);
        if m.contains_key(k) && now < m[k].1 {
            m.insert(k, (sat_add(m[k].0, 1), m[k].1))
        } else {
            m.insert(k, (1, sat_add(now, l.window_seconds)))
        }
    } else {
        m
    }
}

/// The table after every limit, in order, has counted the request.
pub open spec fn count_all(ls: Seq<LimitModel>, ctx: Map<Seq<char>, Seq<char>>, m: Table, now: u64) -> Table
    decreases ls.len(),
{
    if ls.len() == 0 {
        m
    } else {
        count_request(ls.last(), ctx, count_all(ls.drop_last(), ctx, m, now), now)
    }
}

/// What the counter with identity `key` counts at instant `now`.
pub fn counter_value(table: &Vec<Counter>, key: &CounterKey, now: u64) -> (r: u64)
    ensures
        r == live_value(table_of(table@), key.deep_view(), now),
{
    match find_counter(table, key) {
        Some(j) => {
            proof {
                lemma_table_found(table@, key.deep_view(), j as int);
            }
            if now < table[j].expires_at {
                table[j].current_value
            } else {
                0
            }
        },
        None => {
            proof {
                lemma_table_absent(table@, key.deep_view());
            }
            0
        },
    }
}

/// Whether the request with key/values `ctx` exceeds some limit that applies
/// to it, at instant `now`.
pub fn is_rate_limited(limits: &Vec<Limit>, ctx: &Vec<(String, String)>, table: &Vec<Counter>, now: u64) -> (r: bool)
    ensures
        r == rate_limited(limits.deep_view(), pairs_map(ctx.deep_view()), table_of(table@), now),
{
    let ghost ls = limits.deep_view();
    let ghost m = pairs_map(ctx.deep_view());
    let ghost t = table_of(table@);
    let mut i: usize = 0;
    while i < limits.len()
        invariant
            i <= limits.len(),
            ls == limits.deep_view(),
            m == pairs_map(ctx.deep_view()),
            t == table_of(table@),
            forall|j: int| 0 <= j < i ==> !#[trigger] exceeds(ls[j], m, t, now),
        decreases limits.len() - i,
    {
        let limit = &limits[i];
        assert(ls[i as int] == limit.deep_view());
        if limit_applies(limit, ctx) {
            let key = counter_key(limit, ctx);
            let v = counter_value(table, &key, now);
            if v >= limit.max_value {
                assert(exceeds(ls[i as int], m, t, now));
                return true;
            }
        }
        i = i + 1;
    }
    false
}

/// Counts the request with key/values `ctx` on the counter of every limit
/// that applies to it.
pub fn update_counters(limits: &Vec<Limit>, ctx: &Vec<(String, String)>, table: &mut Vec<Counter>, now: u64)
    ensures
        table_of(final(table)@) == count_all(limits.deep_view(), pairs_map(ctx.deep_view()), table_of(old(table)@), now),
{
    let ghost ls = limits.deep_view();
    let ghost m = pairs_map(ctx.deep_view());
    let ghost t0 = table_of(table@);
    let mut i: usize = 0;
    while i < limits.len()
        invariant
            i <= limits.len(),
            ls == limits.deep_view(),
            m == pairs_map(ctx.deep_view()),
            table_of(table@) == count_all(ls.take(i as int), m, t0, now),
        decreases limits.len() - i,
    {
        let limit = &limits[i];
        let ghost before = table@;
        proof {
            assert(ls[i as int] == limit.deep_view());
            assert(ls.take(i + 1).drop_last() =~= ls.take(i as int));
            assert(ls.take(i + 1).last() == ls[i as int]);
        }
        if limit_applies(limit, ctx) {
            let key = counter_key(limit, ctx);
            let ghost k = key.deep_view();
            match find_counter(table, &key) {
                Some(j) => {
                    proof {
                        lemma_table_found(before, k, j as int);
                    }
                    let (v, e) = if now < table[j].expires_at {
                        (table[j].current_value.saturating_add(1), table[j].expires_at)
                    } else {
                        (1, now.saturating_add(limit.window_seconds))
                    };
                    table.set(j, Counter { key, current_value: v, expires_at: e });
                    proof {
                        let s = before.map_values(|c: Counter| c.deep_view());
                        assert(table@.map_values(|c: Counter| c.deep_view()) =~= s.update(j as int, (k, (v, e))));
                        lemma_pairs_map_update(s, j as int, k, (v, e));
                    }
                },
                None => {
                    proof {
                        lemma_table_absent(before, k);
                    }
                    let e = now.saturating_add(limit.window_seconds);
                    table.push(Counter { key, current_value: 1, expires_at: e });
                    proof {
                        let s = before.map_values(|c: Counter| c.deep_view());
                        assert(table@.map_values(|c: Counter| c.deep_view()) =~= s.push((k, (1u64, e))));
                        lemma_pairs_map_push(s, k, (1u64, e));
                    }
                },
            }
        }
        i = i + 1;
    }
    assert(ls.take(i as int) =~= ls);
}

/// Decides on the request with key/values `ctx` at instant `now`: it is
/// admitted, and counted on every limit that applies, unless one of those
/// limits is exhausted; a rejected request leaves every counter as it was.
pub fn decide(limits: &Vec<Limit>, ctx: &Vec<(String, String)>, table: &mut Vec<Counter>, now: u64) -> (admitted: bool)
    ensures
        admitted == !rate_limited(limits.deep_view(), pairs_map(ctx.deep_view()), table_of(old(table)@), now),
        admitted ==> table_of(final(table)@) == count_all(limits.deep_view(), pairs_map(ctx.deep_view()), table_of(old(table)@), now),
        !admitted ==> final(table)@ == old(table)@,
{
    if is_rate_limited(limits, ctx, table, now) {
        false
    } else {
        update_counters(limits, ctx, table, now);
        true
    }
}

/// A limit set of one limit counts and rejects as that limit does.
pub proof fn lemma_single_limit(l: LimitModel, ctx: Map<Seq<char>, Seq<char>>, m: Table, now: u64)
    ensures
        count_all(seq![l], ctx, m, now) == count_request(l, ctx, m, now),
        rate_limited(seq![l], ctx, m, now) == exceeds(l, ctx, m, now),
{
    let ls = seq![l];
    assert(ls.drop_last() =~= Seq::<LimitModel>::empty());
    assert(ls[0] == l);
    reveal_with_fuel(count_all, 2);
    if exceeds(l, ctx, m, now) {
        assert(exceeds(ls[0], ctx, m, now));
    }
}

/// A counter is expired at the very instant of its expiry: what it counts
/// then is zero, and the next request it applies to starts a new window.
pub proof fn lemma_window_boundary(l: LimitModel, ctx: Map<Seq<char>, Seq<char>>, m: Table, now: u64)
    requires
        applies(l, ctx),
        m.contains_key(counter_key_of(l, ctx)),
        now == m[counter_key_of(l, ctx)].1,
    ensures
        live_value(m, counter_key_of(l, ctx), now) == 0,
        count_request(l, ctx, m, now)[counter_key_of(l, ctx)] == (1u64, sat_add(now, l.window_seconds)),
{
}

/// With one limit that applies, the request that brings its counter up to
/// the maximum is admitted and the counter then equals the maximum; at the
/// maximum, the next request is rejected.
pub proof fn lemma_capacity_boundary(l: LimitModel, ctx: Map<Seq<char>, Seq<char>>, m: Table, now: u64)
    requires
        applies(l, ctx),
    ensures
        live_value(m, counter_key_of(l, ctx), now) + 1 == l.max_value ==> !rate_limited(seq![l], ctx, m, now)
            && count_all(seq![l], ctx, m, now)[counter_key_of(l, ctx)].0 == l.max_value,
        live_value(m, counter_key_of(l, ctx), now) == l.max_value ==> rate_limited(seq![l], ctx, m, now),
{
    lemma_single_limit(l, ctx, m, now);
}

/// Two invocations that restore the same table and are both admitted by a
/// limit on the same counter each store that counter one above what they
/// read: whichever stores last, the stored count is one short of the two
/// admissions, never more.
pub proof fn lemma_lost_update(
    l: LimitModel,
    ctx1: Map<Seq<char>, Seq<char>>,
    ctx2: Map<Seq<char>, Seq<char>>,
    m: Table,
    now: u64,
)
    requires
        applies(l, ctx1),
        applies(l, ctx2),
        counter_key_of(l, ctx1) == counter_key_of(l, ctx2),
        !rate_limited(seq![l], ctx1, m, now),
        !rate_limited(seq![l], ctx2, m, now),
    ensures
        count_all(seq![l], ctx1, m, now)[counter_key_of(l, ctx1)].0 == live_value(m, counter_key_of(l, ctx1), now) + 1,
        count_all(seq![l], ctx2, m, now)[counter_key_of(l, ctx2)].0 == live_value(m, counter_key_of(l, ctx2), now) + 1,
        count_all(seq![l], ctx1, m, now)[counter_key_of(l, ctx1)] == count_all(seq![l], ctx2, m, now)[counter_key_of(l, ctx2)],
{
    lemma_single_limit(l, ctx1, m, now);
    lemma_single_limit(l, ctx2, m, now);
}

} // verus!

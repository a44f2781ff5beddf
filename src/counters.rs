use vstd::prelude::*;
use crate::kv::{lemma_pairs_map_prefix, lookup, pairs_map};
use crate::limits::{counter_key_of, value_of, CounterKeyModel, Limit};

verus! {

/// The identity of a counter: the namespace, conditions and variables of the
/// limit it counts for, and the request's value of each variable (`None`
/// where the request does not carry it).
pub struct CounterKey {
    pub namespace: String,
    pub conditions: Vec<(String, String)>,
    pub variables: Vec<String>,
    pub values: Vec<Option<String>>,
}

impl DeepView for CounterKey {
    type V = CounterKeyModel;

    open spec fn deep_view(&self) -> CounterKeyModel {
        (self.namespace@, self.conditions.deep_view(), self.variables.deep_view(), self.values.deep_view())
    }
}

/// A counter: how many requests it has admitted in its window, and the
/// instant (in seconds) at which that window ends.
pub struct Counter {
    pub key: CounterKey,
    pub current_value: u64,
    pub expires_at: u64,
}

impl DeepView for Counter {
    type V = (CounterKeyModel, (u64, u64));

    open spec fn deep_view(&self) -> (CounterKeyModel, (u64, u64)) {
        (self.key.deep_view(), (self.current_value, self.expires_at))
    }
}

/// The counter table that a sequence of counters stands for: identity to
/// `(current_value, expires_at)`, a later counter overriding an earlier one
/// with the same identity.
pub open spec fn table_of(t: Seq<Counter>) -> Map<CounterKeyModel, (u64, u64)> {
    pairs_map(t.map_values(|c: Counter| c.deep_view()))
}

fn strings_equal(a: &Vec<String>, b: &Vec<String>) -> (r: bool)
    ensures
        r == (a.deep_view() == b.deep_view()),
{
    if a.len() != b.len() {
        assert(a.deep_view().len() != b.deep_view().len());
        return false;
    }
    let mut i: usize = 0;
    while i < a.len()
        invariant
            i <= a.len() == b.len(),
            forall|j: int| 0 <= j < i ==> a@[j]@ == b@[j]@,
        decreases a.len() - i,
    {
        if a[i] != b[i] {
            assert(a.deep_view()[i as int] != b.deep_view()[i as int]);
            return false;
        }
        i = i + 1;
    }
    assert(a.deep_view() =~= b.deep_view());
    true
}

fn pairs_equal(a: &Vec<(String, String)>, b: &Vec<(String, String)>) -> (r: bool)
    ensures
        r == (a.deep_view() == b.deep_view()),
{
    if a.len() != b.len() {
        assert(a.deep_view().len() != b.deep_view().len());
        return false;
    }
    let mut i: usize = 0;
    while i < a.len()
        invariant
            i <= a.len() == b.len(),
            forall|j: int| 0 <= j < i ==> a@[j].deep_view() == b@[j].deep_view(),
        decreases a.len() - i,
    {
        if a[i].0 != b[i].0 || a[i].1 != b[i].1 {
            assert(a.deep_view()[i as int] != b.deep_view()[i as int]);
            return false;
        }
        i = i + 1;
    }
    assert(a.deep_view() =~= b.deep_view());
    true
}

fn options_equal(a: &Vec<Option<String>>, b: &Vec<Option<String>>) -> (r: bool)
    ensures
        r == (a.deep_view() == b.deep_view()),
{
    if a.len() != b.len() {
        assert(a.deep_view().len() != b.deep_view().len());
        return false;
    }
    let mut i: usize = 0;
    while i < a.len()
        invariant
            i <= a.len() == b.len(),
            forall|j: int| 0 <= j < i ==> a@[j].deep_view() == b@[j].deep_view(),
        decreases a.len() - i,
    {
        let same = match (&a[i], &b[i]) {
            (Some(x), Some(y)) => *x == *y,
            (None, None) => true,
            _ => false,
        };
        if !same {
            assert(a.deep_view()[i as int] != b.deep_view()[i as int]);
            return false;
        }
        i = i + 1;
    }
    assert(a.deep_view() =~= b.deep_view());
    true
}

impl CounterKey {
    /// Whether two identities are the same.
    pub fn same_as(&self, other: &CounterKey) -> (r: bool)
        ensures
            r == (self.deep_view() == other.deep_view()),
    {
        self.namespace == other.namespace && pairs_equal(&self.conditions, &other.conditions)
            && strings_equal(&self.variables, &other.variables) && options_equal(
            &self.values,
            &other.values,
        )
    }
}

/// The identity of the counter that `limit` counts the request with
/// key/values `ctx` on.
pub fn counter_key(limit: &Limit, ctx: &Vec<(String, String)>) -> (r: CounterKey)
    ensures
        r.deep_view() == counter_key_of(limit.deep_view(), pairs_map(ctx.deep_view())),
{
    let ghost m = pairs_map(ctx.deep_view());
    let ghost l = limit.deep_view();
    let mut conditions: Vec<(String, String)> = Vec::new();
    let mut i: usize = 0;
    while i < limit.conditions.len()
        invariant
            i <= limit.conditions.len(),
            l == limit.deep_view(),
            conditions.deep_view() =~= l.conditions.take(i as int),
        decreases limit.conditions.len() - i,
    {
        let c = &limit.conditions[i];
        let ghost before = conditions.deep_view();
        conditions.push((c.attribute.clone(), c.literal.clone()));
        proof {
            assert(conditions.deep_view() =~= before.push(c.deep_view()));
            assert(l.conditions[i as int] == c.deep_view());
            assert(l.conditions.take(i + 1) =~= l.conditions.take(i as int).push(c.deep_view()));
        }
        i = i + 1;
    }
    let mut variables: Vec<String> = Vec::new();
    let mut values: Vec<Option<String>> = Vec::new();
    let mut k: usize = 0;
    while k < limit.variables.len()
        invariant
            k <= limit.variables.len(),
            l == limit.deep_view(),
            m == pairs_map(ctx.deep_view()),
            variables.deep_view() =~= l.variables.take(k as int),
            values.deep_view() =~= l.variables.take(k as int).map_values(|v: Seq<char>| value_of(m, v)),
        decreases limit.variables.len() - k,
    {
        let v = &limit.variables[k];
        let found = lookup(ctx, v);
        let ghost vars_before = variables.deep_view();
        let ghost vals_before = values.deep_view();
        variables.push(v.clone());
        values.push(found);
        proof {
            assert(l.variables[k as int] == v@);
            assert(variables.deep_view() =~= vars_before.push(v@));
            assert(values.deep_view() =~= vals_before.push(value_of(m, v@)));
            assert(l.variables.take(k + 1) =~= l.variables.take(k as int).push(v@));
        }
        k = k + 1;
    }
    assert(l.conditions.take(i as int) =~= l.conditions);
    assert(l.variables.take(k as int) =~= l.variables);
    CounterKey { namespace: limit.namespace.clone(), conditions, variables, values }
}

/// The entry of the table for the identity of the `j`-th counter, when no
/// later counter has that identity.
pub proof fn lemma_table_found(t: Seq<Counter>, k: CounterKeyModel, j: int)
    requires
        0 <= j < t.len(),
        t[j].key.deep_view() == k,
        forall|i: int| j < i < t.len() ==> t[i].key.deep_view() != k,
    ensures
        table_of(t).contains_key(k),
        table_of(t)[k] == (t[j].current_value, t[j].expires_at),
{
    let s = t.map_values(|c: Counter| c.deep_view());
    lemma_pairs_map_prefix(s, j + 1, k);
    assert(s.take(j + 1).drop_last() =~= s.take(j));
}

/// An identity that no counter carries is not in the table.
pub proof fn lemma_table_absent(t: Seq<Counter>, k: CounterKeyModel)
    requires
        forall|i: int| 0 <= i < t.len() ==> t[i].key.deep_view() != k,
    ensures
        !table_of(t).contains_key(k),
{
    let s = t.map_values(|c: Counter| c.deep_view());
    lemma_pairs_map_prefix(s, 0, k);
    assert(s.take(0) =~= Seq::<(CounterKeyModel, (u64, u64))>::empty());
}

/// The position of the last counter of the table with identity `key`.
pub fn find_counter(table: &Vec<Counter>, key: &CounterKey) -> (r: Option<usize>)
    ensures
        match r {
            Some(j) => j < table.len() && table@[j as int].key.deep_view() == key.deep_view()
                && forall|i: int| j < i < table.len() ==> table@[i].key.deep_view() != key.deep_view(),
            None => forall|i: int| 0 <= i < table.len() ==> table@[i].key.deep_view() != key.deep_view(),
        },
{
    let mut i: usize = table.len();
    while i > 0
        invariant
            i <= table.len(),
            forall|j: int| i <= j < table.len() ==> table@[j].key.deep_view() != key.deep_view(),
        decreases i,
    {
        if table[i - 1].key.same_as(key) {
            return Some(i - 1);
        }
        i = i - 1;
    }
    None
}

} // verus!

use vstd::prelude::*;
use crate::counters::{Counter, CounterKey};
use crate::filter::Limiter;
use crate::limits::CounterKeyModel;

verus! {

/// One counter as it is written in a snapshot: namespace, conditions,
/// variables, values of the variables, current value, expiry.
pub type Record = (String, Vec<(String, String)>, Vec<String>, Vec<Option<String>>, u64, u64);

pub type RecordModel = (
    Seq<char>,
    Seq<(Seq<char>, Seq<char>)>,
    Seq<Seq<char>>,
    Seq<Option<Seq<char>>>,
    u64,
    u64,
);

pub type CounterModel = (CounterKeyModel, (u64, u64));

/// The bytes that `bincode::serialize` writes for a sequence of records.
pub uninterp spec fn snapshot_encoding(records: Seq<RecordModel>) -> Seq<u8>;

/// What `bincode::deserialize` makes of some bytes: the records they start
/// with, or nothing where they start with no encoding of records.
pub uninterp spec fn snapshot_decoding(bytes: Seq<u8>) -> Option<Seq<RecordModel>>;

/// Whether `bytes` starts with `prefix`.
pub open spec fn starts_with(bytes: Seq<u8>, prefix: Seq<u8>) -> bool {
    prefix.len() <= bytes.len() && bytes.subrange(0, prefix.len() as int) == prefix
}

/// Relies on `bincode::serialize`: the bytes depend on the records alone, and
/// encoding succeeds, since it runs with no size limit and a `Vec` always
/// has a known length.
#[verifier::external_body]
fn encode_records(records: &Vec<Record>) -> (r: Option<Vec<u8>>)
    ensures
        r is Some,
        r->Some_0@ == snapshot_encoding(records.deep_view()),
{
    bincode::serialize(records).ok()
}

pub open spec fn decoded_as(r: Option<Vec<Record>>, v: Seq<RecordModel>) -> bool {
    r matches Some(x) && x.deep_view() == v
}

/// Relies on `bincode::deserialize`: the result depends on the bytes alone;
/// it reads exactly one encoding of records from the start of the bytes
/// (trailing bytes are allowed); and bytes that `bincode::serialize` wrote
/// for some records decode to those records.
#[verifier::external_body]
fn decode_records(bytes: &[u8]) -> (r: Option<Vec<Record>>)
    ensures
        r.deep_view() == snapshot_decoding(bytes@),
        r matches Some(x) ==> starts_with(bytes@, snapshot_encoding(x.deep_view())),
        forall|v: Seq<RecordModel>| #[trigger] snapshot_encoding(v) == bytes@ ==> decoded_as(r, v),
{
    bincode::deserialize(bytes).ok()
}

pub open spec fn record_of(c: CounterModel) -> RecordModel {
    (c.0.0, c.0.1, c.0.2, c.0.3, c.1.0, c.1.1)
}

pub open spec fn counter_of(r: RecordModel) -> CounterModel {
    ((r.0, r.1, r.2, r.3), (r.4, r.5))
}

pub open spec fn records_of(t: Seq<CounterModel>) -> Seq<RecordModel> {
    t.map_values(|c: CounterModel| record_of(c))
}

pub open spec fn counters_of(rs: Seq<RecordModel>) -> Seq<CounterModel> {
    rs.map_values(|r: RecordModel| counter_of(r))
}

/// Writing counters as records and reading them back loses, duplicates and
/// changes nothing.
pub proof fn lemma_records_round_trip(t: Seq<CounterModel>)
    ensures
        counters_of(records_of(t)) == t,
{
    assert(counters_of(records_of(t)) =~= t);
}

/// The counters that a sequence of records holds, in order.
pub fn counters_from_records(records: Vec<Record>) -> (r: Vec<Counter>)
    ensures
        r.deep_view() == counters_of(records.deep_view()),
{
    let ghost all = records.deep_view();
    let mut rest = records;
    let mut out: Vec<Counter> = Vec::new();
    while rest.len() > 0
        invariant
            out.len() + rest.len() == all.len(),
            out.deep_view() =~= counters_of(all).take(out.len() as int),
            rest.deep_view() =~= all.skip(out.len() as int),
        decreases rest.len(),
    {
        let ghost before = out.deep_view();
        let ghost rest_before = rest.deep_view();
        let (namespace, conditions, variables, values, current_value, expires_at) = rest.remove(0);
        let c = Counter { key: CounterKey { namespace, conditions, variables, values }, current_value, expires_at };
        out.push(c);
        proof {
            assert(rest_before[0] == all[before.len() as int]);
            assert(out.deep_view() =~= before.push(c.deep_view()));
            assert(rest.deep_view() =~= rest_before.drop_first());
        }
    }
    out
}

/// The records that a sequence of counters is written as, in order.
pub fn records_from_counters(counters: Vec<Counter>) -> (r: Vec<Record>)
    ensures
        r.deep_view() == records_of(counters.deep_view()),
{
    let ghost all = counters.deep_view();
    let mut rest = counters;
    let mut out: Vec<Record> = Vec::new();
    while rest.len() > 0
        invariant
            out.len() + rest.len() == all.len(),
            out.deep_view() =~= records_of(all).take(out.len() as int),
            rest.deep_view() =~= all.skip(out.len() as int),
        decreases rest.len(),
    {
        let ghost before = out.deep_view();
        let ghost rest_before = rest.deep_view();
        let c = rest.remove(0);
        let rec = (c.key.namespace, c.key.conditions, c.key.variables, c.key.values, c.current_value, c.expires_at);
        out.push(rec);
        proof {
            assert(rest_before[0] == all[before.len() as int]);
            assert(out.deep_view() =~= before.push(rec.deep_view()));
            assert(rest.deep_view() =~= rest_before.drop_first());
        }
    }
    out
}

/// Why a snapshot could not be read.
pub enum SnapshotError {
    /// The stored bytes are not a snapshot of counters.
    Corrupt,
}

/// What restoring the stored `bytes` gives: the counters of the records that
/// the bytes start with, or `Corrupt` where they start with none. A snapshot
/// that cannot be read is never taken for an empty table.
pub open spec fn restored_from(bytes: Seq<u8>, r: Result<Vec<Counter>, SnapshotError>) -> bool {
    match snapshot_decoding(bytes) {
        None => r matches Err(e) && e is Corrupt,
        Some(v) => r matches Ok(x) && x.deep_view() == counters_of(v)
            && starts_with(bytes, snapshot_encoding(records_of(x.deep_view()))),
    }
}

impl Limiter {
    /// The counter table held in the stored bytes: empty where nothing is
    /// stored, `Corrupt` where the bytes hold no snapshot.
    pub fn get_stored_counters(&self, stored_data: Option<&[u8]>) -> (r: Result<Vec<Counter>, SnapshotError>)
        ensures
            stored_data is None ==> (r matches Ok(t) && t@.len() == 0),
            stored_data is Some ==> restored_from(stored_data->Some_0@, r),
            forall|t: Seq<CounterModel>|
                #[trigger] snapshot_encoding(records_of(t)) == stored_data->Some_0@ && stored_data is Some ==>
                    (r matches Ok(x) && x.deep_view() == t),
    {
        match stored_data {
            None => Ok(Vec::new()),
            Some(bytes) => {
                match decode_records(bytes) {
                    Some(records) => {
                        let ghost v = records.deep_view();
                        let r = counters_from_records(records);
                        proof {
                            assert(records_of(counters_of(v)) =~= v);
                            assert forall|t: Seq<CounterModel>|
                                #[trigger] snapshot_encoding(records_of(t)) == bytes@ implies r.deep_view() == t by {
                                lemma_records_round_trip(t);
                            }
                        }
                        Ok(r)
                    },
                    None => Err(SnapshotError::Corrupt),
                }
            },
        }
    }

    /// The bytes that the whole counter table is stored as.
    pub fn store_counters(&self, counters: Vec<Counter>) -> (r: Vec<u8>)
        ensures
            r@ == snapshot_encoding(records_of(counters.deep_view())),
    {
        let records = records_from_counters(counters);
        match encode_records(&records) {
            Some(b) => b,
            // never taken: encoding records cannot fail
            None => Vec::new(),
        }
    }
}

} // verus!

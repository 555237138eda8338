//! Reading a stored result back: its records from their JSON text, and its
//! time from its date-time text.
use vstd::prelude::*;

use crate::field_map::{entries_from_pairs, pairs_view, Entries, FieldMap};
use crate::html::records_view;
use crate::types::{valid_time, Timestamp};

verus! {

/// Names what `serde_json::from_str` reads from a text as a list of string
/// maps: for each map, its (key, value) entries in key order; `None` when the
/// text is no such list.
pub uninterp spec fn spec_parse_records_json(text: Seq<char>) -> Option<Seq<Entries>>;

/// `serde_json::from_str::<Vec<BTreeMap<String, String>>>`, each map given
/// as its entries in key order. The outcome is named by
/// `spec_parse_records_json`.
#[verifier::external_body]
fn parse_records_json(text: &str) -> (r: Option<Vec<Vec<(String, String)>>>)
    ensures
        match (r, spec_parse_records_json(text@)) {
            (Some(x), Some(s)) => x@.map_values(|v: Vec<(String, String)>| pairs_view(v)) == s,
            (None, None) => true,
            _ => false,
        },
{
    match serde_json::from_str::<Vec<std::collections::BTreeMap<String, String>>>(text) {
        Ok(maps) => Some(maps.into_iter().map(|m| m.into_iter().collect()).collect()),
        Err(_) => None,
    }
}

/// The records of a stored result: one per map its JSON text holds, with the
/// map's entries (a repeated key keeping its last value); none when the text
/// cannot be read.
pub fn stored_records(text: &str) -> (r: Vec<FieldMap>)
    ensures
        records_view(r@) == match spec_parse_records_json(text@) {
            Some(s) => s.map_values(|p: Entries| entries_from_pairs(p)),
            None => Seq::<Entries>::empty(),
        },
{
    let mut r: Vec<FieldMap> = Vec::new();
    match parse_records_json(text) {
        Some(maps) => {
            let ghost sv = maps@.map_values(|v: Vec<(String, String)>| pairs_view(v));
            let mut i: usize = 0;
            while i < maps.len()
                invariant
                    sv == maps@.map_values(|v: Vec<(String, String)>| pairs_view(v)),
                    i <= maps@.len(),
                    records_view(r@) =~= sv.take(i as int).map_values(|p: Entries| entries_from_pairs(p)),
                decreases maps.len() - i,
            {
                let pairs = &maps[i];
                let ghost pv = pairs_view(maps@[i as int]);
                let mut m = FieldMap::new();
                let mut k: usize = 0;
                while k < pairs.len()
                    invariant
                        pv == pairs@.map_values(|e: (String, String)| (e.0@, e.1@)),
                        k <= pairs@.len(),
                        m@ == entries_from_pairs(pv.take(k as int)),
                    decreases pairs.len() - k,
                {
                    assert(pv.take(k + 1).drop_last() =~= pv.take(k as int));
                    m.insert(pairs[k].0.clone(), pairs[k].1.clone());
                    k = k + 1;
                }
                assert(pv.take(pairs@.len() as int) =~= pv);
                let ghost before = r@;
                r.push(m);
                assert(records_view(r@) =~= records_view(before).push(entries_from_pairs(pv)));
                assert(sv.take(i + 1) =~= sv.take(i as int).push(sv[i as int]));
                i = i + 1;
            }
            assert(sv.take(maps@.len() as int) =~= sv);
            r
        },
        None => {
            assert(records_view(r@) =~= Seq::<Entries>::empty());
            r
        },
    }
}

/// Names the (whole seconds, nanoseconds) since the epoch of the date-time
/// that `chrono::NaiveDateTime::parse_from_str(text, "%Y-%m-%d %H:%M:%S")`
/// reads, taken as UTC; `None` when the text does not match the format.
pub uninterp spec fn spec_parse_stamp(text: Seq<char>) -> Option<(int, int)>;

/// `chrono::NaiveDateTime::parse_from_str(text, "%Y-%m-%d %H:%M:%S")`, read
/// as UTC (`and_utc`) and given as its `timestamp` and
/// `timestamp_subsec_nanos`. The outcome is named by `spec_parse_stamp`.
#[verifier::external_body]
fn parse_stamp(text: &str) -> (r: Option<(i64, u32)>)
    ensures
        match (r, spec_parse_stamp(text@)) {
            (Some(p), Some(sp)) => p.0 as int == sp.0 && p.1 as int == sp.1,
            (None, None) => true,
            _ => false,
        },
{
    match chrono::NaiveDateTime::parse_from_str(text, "%Y-%m-%d %H:%M:%S") {
        Ok(n) => Some((n.and_utc().timestamp(), n.and_utc().timestamp_subsec_nanos())),
        Err(_) => None,
    }
}

/// The time of a stored result: the date-time its text holds, or the epoch
/// when the text cannot be read or the time is not one a `Timestamp` holds.
pub fn stored_timestamp(text: &str) -> (t: Timestamp)
    ensures
        t@ == match spec_parse_stamp(text@) {
            Some(p) => if valid_time(p.0, p.1) {
                p
            } else {
                (0int, 0int)
            },
            None => (0int, 0int),
        },
{
    match parse_stamp(text) {
        Some((secs, nanos)) => match Timestamp::from_parts(secs, nanos) {
            Some(t) => t,
            None => Timestamp::epoch(),
        },
        None => Timestamp::epoch(),
    }
}

} // verus!

//! Export content: all records of a set of results, their CSV layout (one
//! column per key that occurs, keys in sorted order) and their JSON text.
use vstd::prelude::*;

use crate::field_map::{lookup, pairs_view, Entries, FieldMap};
use crate::html::records_view;
use crate::text::chars_of;
use crate::types::ScrapeResult;

verus! {

// ---------------------------------------------------------------------------
// Lexicographic order of strings.
// ---------------------------------------------------------------------------

/// `a` sorts before `b`, comparing characters (code points) in turn; a proper
/// prefix sorts first. This is the order of `String`'s `Ord`, since UTF-8
/// byte order agrees with code point order.
pub open spec fn lex_lt(a: Seq<char>, b: Seq<char>) -> bool
    decreases a.len(),
{
    if a.len() == 0 {
        b.len() > 0
    } else if b.len() == 0 {
        false
    } else if a[0] < b[0] {
        true
    } else if a[0] == b[0] {
        lex_lt(a.drop_first(), b.drop_first())
    } else {
        false
    }
}

pub proof fn lemma_lex_irreflexive(a: Seq<char>)
    ensures
        !lex_lt(a, a),
    decreases a.len(),
{
    if a.len() > 0 {
        lemma_lex_irreflexive(a.drop_first());
    }
}

pub proof fn lemma_lex_trans(a: Seq<char>, b: Seq<char>, c: Seq<char>)
    requires
        lex_lt(a, b),
        lex_lt(b, c),
    ensures
        lex_lt(a, c),
    decreases a.len(),
{
    if a.len() > 0 && b.len() > 0 && c.len() > 0 && a[0] == b[0] && b[0] == c[0] {
        lemma_lex_trans(a.drop_first(), b.drop_first(), c.drop_first());
    }
}

pub proof fn lemma_lex_total(a: Seq<char>, b: Seq<char>)
    ensures
        a == b || lex_lt(a, b) || lex_lt(b, a),
    decreases a.len(),
{
    if a.len() > 0 && b.len() > 0 && a[0] == b[0] {
        lemma_lex_total(a.drop_first(), b.drop_first());
        if a.drop_first() == b.drop_first() {
            assert(a =~= seq![a[0]] + a.drop_first());
            assert(b =~= seq![b[0]] + b.drop_first());
        }
    } else if a.len() == 0 && b.len() == 0 {
        assert(a =~= b);
    }
}

pub proof fn lemma_lex_asym(a: Seq<char>, b: Seq<char>)
    requires
        lex_lt(a, b),
    ensures
        !lex_lt(b, a),
{
    if lex_lt(b, a) {
        lemma_lex_trans(a, b, a);
        lemma_lex_irreflexive(a);
    }
}

proof fn lemma_lex_skip(a: Seq<char>, b: Seq<char>, i: int)
    requires
        0 <= i <= a.len(),
        i <= b.len(),
        forall|j: int| 0 <= j < i ==> a[j] == b[j],
    ensures
        lex_lt(a, b) == lex_lt(a.skip(i), b.skip(i)),
    decreases i,
{
    if i > 0 {
        lemma_lex_skip(a.drop_first(), b.drop_first(), i - 1);
        assert(a.drop_first().skip(i - 1) =~= a.skip(i));
        assert(b.drop_first().skip(i - 1) =~= b.skip(i));
    } else {
        assert(a.skip(0) =~= a);
        assert(b.skip(0) =~= b);
    }
}

/// Whether `a` sorts before `b`.
pub fn lex_less(a: &[char], b: &[char]) -> (r: bool)
    ensures
        r == lex_lt(a@, b@),
{
    let mut i: usize = 0;
    while i < a.len() && i < b.len() && a[i] == b[i]
        invariant
            i <= a@.len(),
            i <= b@.len(),
            forall|j: int| 0 <= j < i ==> a@[j] == b@[j],
        decreases a.len() - i,
    {
        i = i + 1;
    }
    proof {
        lemma_lex_skip(a@, b@, i as int);
    }
    if i == a.len() {
        i < b.len()
    } else if i == b.len() {
        false
    } else {
        a[i] < b[i]
    }
}

/// Every element sorts strictly before every later one.
pub open spec fn strictly_sorted(s: Seq<Seq<char>>) -> bool {
    forall|i: int, j: int| 0 <= i < j < s.len() ==> lex_lt(#[trigger] s[i], #[trigger] s[j])
}

/// The header of a CSV export is determined by the keys alone: two strictly
/// sorted lists of the same keys are the same list.
pub proof fn law_sorted_keys_unique(a: Seq<Seq<char>>, b: Seq<Seq<char>>)
    requires
        strictly_sorted(a),
        strictly_sorted(b),
        a.to_set() == b.to_set(),
    ensures
        a == b,
    decreases a.len(),
{
    if a.len() == 0 {
        if b.len() > 0 {
            assert(b.to_set().contains(b[0]));
        }
        assert(a =~= b);
    } else if b.len() == 0 {
        assert(a.to_set().contains(a[0]));
    } else {
        assert(b.to_set().contains(a[0]));
        assert(a.to_set().contains(b[0]));
        let j = choose|j: int| 0 <= j < b.len() && b[j] == a[0];
        let i = choose|i: int| 0 <= i < a.len() && a[i] == b[0];
        if a[0] != b[0] {
            assert(i > 0 && j > 0);
            assert(lex_lt(a[0], a[i]));
            assert(lex_lt(b[0], b[j]));
            lemma_lex_asym(a[0], b[0]);
        }
        let a1 = a.drop_first();
        let b1 = b.drop_first();
        assert forall|x: Seq<char>| #[trigger] a1.to_set().contains(x) <==> b1.to_set().contains(x) by {
            if a1.to_set().contains(x) {
                let k = choose|k: int| 0 <= k < a1.len() && a1[k] == x;
                assert(a[k + 1] == x);
                assert(lex_lt(a[0], a[k + 1]));
                lemma_lex_irreflexive(a[0]);
                assert(b.to_set().contains(x));
                let m = choose|m: int| 0 <= m < b.len() && b[m] == x;
                assert(m != 0);
                assert(b1[m - 1] == x);
            }
            if b1.to_set().contains(x) {
                let k = choose|k: int| 0 <= k < b1.len() && b1[k] == x;
                assert(b[k + 1] == x);
                assert(lex_lt(b[0], b[k + 1]));
                lemma_lex_irreflexive(b[0]);
                assert(a.to_set().contains(x));
                let m = choose|m: int| 0 <= m < a.len() && a[m] == x;
                assert(m != 0);
                assert(a1[m - 1] == x);
            }
        }
        assert(a1.to_set() =~= b1.to_set());
        assert forall|p: int, q: int| 0 <= p < q < a1.len() implies lex_lt(#[trigger] a1[p], #[trigger] a1[q]) by {
            assert(lex_lt(a[p + 1], a[q + 1]));
        }
        assert forall|p: int, q: int| 0 <= p < q < b1.len() implies lex_lt(#[trigger] b1[p], #[trigger] b1[q]) by {
            assert(lex_lt(b[p + 1], b[q + 1]));
        }
        law_sorted_keys_unique(a1, b1);
        assert(a =~= seq![a[0]] + a1);
        assert(b =~= seq![b[0]] + b1);
    }
}

pub open spec fn views_of(v: Seq<String>) -> Seq<Seq<char>> {
    v.map_values(|s: String| s@)
}

/// Inserts `x` into a strictly sorted list of strings, unless it is there.
fn insert_sorted(v: &mut Vec<String>, x: &String)
    requires
        strictly_sorted(views_of(old(v)@)),
    ensures
        strictly_sorted(views_of(final(v)@)),
        views_of(final(v)@).to_set() == views_of(old(v)@).to_set().insert(x@),
{
    let ghost s0 = views_of(v@);
    let xc = chars_of(x.as_str());
    let mut p: usize = 0;
    let mut found_ge = false;
    while p < v.len() && !found_ge
        invariant
            s0 == views_of(v@),
            xc@ == x@,
            p <= s0.len(),
            forall|j: int| 0 <= j < p ==> lex_lt(s0[j], x@),
            found_ge ==> p < s0.len() && !lex_lt(s0[p as int], x@),
        decreases v.len() - p, if found_ge { 0int } else { 1int },
    {
        let vc = chars_of(v[p].as_str());
        assert(s0[p as int] == v@[p as int]@);
        if !lex_less(vc.as_slice(), xc.as_slice()) {
            found_ge = true;
        } else {
            p = p + 1;
        }
    }
    // Every element before `p` sorts before `x`; the one at `p` (if any) does not.
    if p < v.len() {
        let vc = chars_of(v[p].as_str());
        assert(s0[p as int] == v@[p as int]@);
        if crate::text::chars_eq(vc.as_slice(), xc.as_slice()) {
            assert(s0.to_set().insert(x@) =~= s0.to_set()) by {
                assert(s0.contains(x@)) by {
                    assert(s0[p as int] == x@);
                }
            }
            return;
        }
    }
    proof {
        if p < s0.len() {
            lemma_lex_total(s0[p as int], x@);
            assert(lex_lt(x@, s0[p as int]));
        }
    }
    let ghost pp = p;
    v.insert(p, x.clone());
    let ghost s1 = views_of(v@);
    assert(s1 =~= s0.insert(p as int, x@));
    assert forall|i: int, j: int| 0 <= i < j < s1.len() implies lex_lt(#[trigger] s1[i], #[trigger] s1[j]) by {
        if i < p && j < p {
            assert(s1[i] == s0[i] && s1[j] == s0[j]);
        } else if i < p && j == p {
        } else if i < p && j > p {
            assert(s1[j] == s0[j - 1]);
            if j - 1 > i {
                assert(lex_lt(s0[i], s0[j - 1]));
            } else {
                assert(lex_lt(s0[i], s0[p as int]));
            }
        } else if i == p {
            assert(s1[j] == s0[j - 1]);
            if j - 1 > p {
                assert(lex_lt(s0[p as int], s0[j - 1]));
                lemma_lex_trans(x@, s0[p as int], s0[j - 1]);
            }
        } else {
            assert(s1[i] == s0[i - 1] && s1[j] == s0[j - 1]);
        }
    }
    assert(s1.to_set() =~= s0.to_set().insert(x@)) by {
        assert forall|y: Seq<char>| #[trigger] s1.contains(y) <==> (s0.contains(y) || y == x@) by {
            if s1.contains(y) {
                let k = choose|k: int| 0 <= k < s1.len() && s1[k] == y;
                if k < p {
                    assert(s0[k] == y);
                } else if k > p {
                    assert(s0[k - 1] == y);
                }
            }
            if s0.contains(y) {
                let k = choose|k: int| 0 <= k < s0.len() && s0[k] == y;
                if k < p {
                    assert(s1[k] == y);
                } else {
                    assert(s1[k + 1] == y);
                }
            }
            if y == x@ {
                assert(s1[p as int] == y);
            }
        }
    }
}

// ---------------------------------------------------------------------------
// Records and keys.
// ---------------------------------------------------------------------------

/// All records of the results, result after result.
pub open spec fn all_records(results: Seq<ScrapeResult>) -> Seq<Entries>
    decreases results.len(),
{
    if results.len() == 0 {
        Seq::empty()
    } else {
        all_records(results.drop_last()) + records_view(results.last().data@)
    }
}

/// Every key that occurs in some record.
pub open spec fn key_set(recs: Seq<Entries>) -> Set<Seq<char>> {
    Set::new(|k: Seq<char>| exists|i: int, j: int| 0 <= i < recs.len() && 0 <= j < recs[i].len() && (#[trigger] recs[i][j]).0 == k)
}

/// All records of the results, in order (the content of a JSON export).
pub fn collect_records(results: &Vec<ScrapeResult>) -> (r: Vec<FieldMap>)
    ensures
        records_view(r@) == all_records(results@),
{
    let mut r: Vec<FieldMap> = Vec::new();
    let mut i: usize = 0;
    while i < results.len()
        invariant
            i <= results@.len(),
            records_view(r@) =~= all_records(results@.take(i as int)),
        decreases results.len() - i,
    {
        assert(results@.take(i + 1).drop_last() =~= results@.take(i as int));
        let data = &results[i].data;
        let ghost r0 = records_view(r@);
        let mut k: usize = 0;
        while k < data.len()
            invariant
                k <= data@.len(),
                records_view(r@) =~= r0 + records_view(data@).take(k as int),
            decreases data.len() - k,
        {
            let ghost rv = r@;
            let m = data[k].clone();
            r.push(m);
            assert(records_view(r@) =~= records_view(rv).push(data@[k as int]@));
            assert(records_view(data@).take(k + 1) =~= records_view(data@).take(k as int).push(data@[k as int]@));
            k = k + 1;
        }
        assert(records_view(data@).take(data@.len() as int) =~= records_view(data@));
        i = i + 1;
    }
    assert(results@.take(results@.len() as int) =~= results@);
    r
}

/// Key `k` occurs among the first `j` entries of `m`.
pub open spec fn key_in_prefix(m: Entries, j: int, k: Seq<char>) -> bool {
    exists|b: int| 0 <= b < j && (#[trigger] m[b]).0 == k
}

/// Key `k` occurs in one of the first `i` records.
pub open spec fn key_in_records(rv: Seq<Entries>, i: int, k: Seq<char>) -> bool {
    exists|a: int, b: int| 0 <= a < i && 0 <= b < rv[a].len() && (#[trigger] rv[a][b]).0 == k
}

/// The keys of all records, each once, in sorted order.
pub fn sorted_keys(recs: &Vec<FieldMap>) -> (r: Vec<String>)
    ensures
        strictly_sorted(views_of(r@)),
        views_of(r@).to_set() == key_set(records_view(recs@)),
{
    let ghost rv = records_view(recs@);
    let mut keys: Vec<String> = Vec::new();
    let mut i: usize = 0;
    assert(views_of(keys@).to_set() =~= Set::new(|k: Seq<char>| key_in_records(rv, 0, k)));
    while i < recs.len()
        invariant
            rv == records_view(recs@),
            i <= rv.len(),
            strictly_sorted(views_of(keys@)),
            views_of(keys@).to_set() == Set::new(|k: Seq<char>| key_in_records(rv, i as int, k)),
        decreases recs.len() - i,
    {
        let m = &recs[i];
        assert(rv[i as int] == m@);
        let mut j: usize = 0;
        let ghost before = views_of(keys@).to_set();
        assert(views_of(keys@).to_set() =~= before.union(Set::new(|k: Seq<char>| key_in_prefix(m@, 0, k))));
        while j < m.len()
            invariant
                rv == records_view(recs@),
                i < rv.len(),
                rv[i as int] == m@,
                j <= m@.len(),
                strictly_sorted(views_of(keys@)),
                before == Set::new(|k: Seq<char>| key_in_records(rv, i as int, k)),
                views_of(keys@).to_set() == before.union(Set::new(|k: Seq<char>| key_in_prefix(m@, j as int, k))),
            decreases m@.len() - j,
        {
            let (k, _v) = m.entry(j);
            insert_sorted(&mut keys, k);
            assert forall|kk: Seq<char>| #[trigger] key_in_prefix(m@, j + 1, kk) <==> (key_in_prefix(m@, j as int, kk) || kk == m@[j as int].0) by {
                if key_in_prefix(m@, j + 1, kk) {
                    let b = choose|b: int| 0 <= b < j + 1 && (#[trigger] m@[b]).0 == kk;
                    if b < j {
                        assert(key_in_prefix(m@, j as int, kk));
                    }
                }
                if key_in_prefix(m@, j as int, kk) {
                    let b = choose|b: int| 0 <= b < j && (#[trigger] m@[b]).0 == kk;
                    assert(m@[b].0 == kk);
                }
                if kk == m@[j as int].0 {
                    assert(m@[j as int].0 == kk);
                }
            }
            assert(views_of(keys@).to_set() =~= before.union(Set::new(|kk: Seq<char>| key_in_prefix(m@, j + 1, kk))));
            j = j + 1;
        }
        assert forall|k: Seq<char>| #[trigger] key_in_records(rv, i + 1, k) <==> (key_in_records(rv, i as int, k) || key_in_prefix(m@, m@.len() as int, k)) by {
            if key_in_records(rv, i + 1, k) {
                let (a, b) = choose|a: int, b: int| 0 <= a < i + 1 && 0 <= b < rv[a].len() && (#[trigger] rv[a][b]).0 == k;
                if a == i {
                    assert(m@[b].0 == k);
                } else {
                    assert(key_in_records(rv, i as int, k));
                }
            }
            if key_in_records(rv, i as int, k) {
                let (a, b) = choose|a: int, b: int| 0 <= a < i && 0 <= b < rv[a].len() && (#[trigger] rv[a][b]).0 == k;
                assert(rv[a][b].0 == k);
            }
            if key_in_prefix(m@, m@.len() as int, k) {
                let b = choose|b: int| 0 <= b < m@.len() && (#[trigger] m@[b]).0 == k;
                assert(rv[i as int][b].0 == k);
            }
        }
        assert(views_of(keys@).to_set() =~= Set::new(|k: Seq<char>| key_in_records(rv, i + 1, k)));
        i = i + 1;
    }
    assert(key_set(rv) =~= views_of(keys@).to_set()) by {
        assert forall|k: Seq<char>| key_set(rv).contains(k) <==> #[trigger] key_in_records(rv, rv.len() as int, k) by {
            if key_set(rv).contains(k) {
                let (a, b) = choose|a: int, b: int| 0 <= a < rv.len() && 0 <= b < rv[a].len() && (#[trigger] rv[a][b]).0 == k;
                assert(rv[a][b].0 == k);
            }
        }
    }
    keys
}

// ---------------------------------------------------------------------------
// The CSV table.
// ---------------------------------------------------------------------------

/// The CSV row of a record: its value under each key, empty where it has none.
pub open spec fn csv_row(rec: Entries, keys: Seq<Seq<char>>) -> Seq<Seq<char>> {
    Seq::new(keys.len(), |c: int| match lookup(rec, keys[c]) {
        Some(v) => v,
        None => Seq::empty(),
    })
}

/// The CSV table: a header of the keys (when there is a key), then one row per
/// record.
pub open spec fn csv_table_spec(recs: Seq<Entries>, keys: Seq<Seq<char>>) -> Seq<Seq<Seq<char>>> {
    let body = Seq::new(recs.len(), |i: int| csv_row(recs[i], keys));
    if keys.len() > 0 {
        seq![keys] + body
    } else {
        body
    }
}

pub open spec fn table_view(t: Seq<Vec<String>>) -> Seq<Seq<Seq<char>>> {
    t.map_values(|row: Vec<String>| views_of(row@))
}

/// The rows of the CSV export of `results`: the header of sorted keys, then
/// one row per record.
pub fn csv_table(results: &Vec<ScrapeResult>) -> (r: Vec<Vec<String>>)
    ensures
        exists|keys: Seq<Seq<char>>|
            strictly_sorted(keys) && keys.to_set() == key_set(all_records(results@)) && table_view(
                r@,
            ) == csv_table_spec(all_records(results@), keys),
{
    let recs = collect_records(results);
    let keys = sorted_keys(&recs);
    let ghost kv = views_of(keys@);
    let ghost rv = records_view(recs@);
    let mut table: Vec<Vec<String>> = Vec::new();
    if keys.len() > 0 {
        table.push(keys.clone());
    }
    let ghost t0 = table_view(table@);
    assert(t0 =~= if kv.len() > 0 { seq![kv] } else { Seq::<Seq<Seq<char>>>::empty() });
    let mut i: usize = 0;
    while i < recs.len()
        invariant
            rv == records_view(recs@),
            kv == views_of(keys@),
            i <= rv.len(),
            table_view(table@) =~= t0 + Seq::new(i as nat, |a: int| csv_row(rv[a], kv)),
        decreases recs.len() - i,
    {
        let m = &recs[i];
        assert(rv[i as int] == m@);
        let mut row: Vec<String> = Vec::new();
        let mut c: usize = 0;
        while c < keys.len()
            invariant
                kv == views_of(keys@),
                c <= kv.len(),
                views_of(row@) =~= csv_row(m@, kv).take(c as int),
            decreases keys.len() - c,
        {
            let v = match m.get(keys[c].as_str()) {
                Some(s) => s.clone(),
                None => String::new(),
            };
            let ghost r0 = row@;
            row.push(v);
            assert(views_of(row@) =~= views_of(r0).push(csv_row(m@, kv)[c as int]));
            c = c + 1;
        }
        assert(csv_row(m@, kv).take(kv.len() as int) =~= csv_row(m@, kv));
        let ghost tb = table@;
        table.push(row);
        assert(table_view(table@) =~= table_view(tb).push(csv_row(rv[i as int], kv)));
        i = i + 1;
    }
    assert(table_view(table@) =~= csv_table_spec(rv, kv));
    table
}

/// A CSV table is rectangular: the header and every row have one cell per
/// key.
pub proof fn law_table_rectangular(recs: Seq<Entries>, keys: Seq<Seq<char>>)
    ensures
        forall|i: int| 0 <= i < csv_table_spec(recs, keys).len() ==> (#[trigger] csv_table_spec(recs, keys)[i]).len() == keys.len(),
{
    let t = csv_table_spec(recs, keys);
    assert forall|i: int| 0 <= i < t.len() implies (#[trigger] t[i]).len() == keys.len() by {
        if keys.len() > 0 {
            if i > 0 {
                assert(t[i] == csv_row(recs[i - 1], keys));
            }
        } else {
            assert(t[i] == csv_row(recs[i], keys));
        }
    }
}

/// A `csv::Writer` over memory. Verus refuses a declaration of the writer type
/// itself (its type parameter is bound by `std::io::Write`), so it is held in
/// this struct, whose content Verus does not see.
#[verifier::external_body]
pub struct CsvSink {
    w: csv::Writer<Vec<u8>>,
}

/// Names the complete records that a CSV writer over memory has been given so
/// far, each as its list of fields.
pub uninterp spec fn spec_csv_records(w: CsvSink) -> Seq<Seq<Seq<char>>>;

/// Names the bytes that a CSV writer with default settings produces for these
/// records (comma separated, quoted where needed, each ended by a newline).
pub uninterp spec fn spec_csv_bytes(records: Seq<Seq<Seq<char>>>) -> Seq<u8>;

/// `csv::Writer::from_writer` over an empty `Vec<u8>`, with default settings:
/// a writer that has been given no record.
#[verifier::external_body]
fn csv_writer() -> (w: CsvSink)
    ensures
        spec_csv_records(w) == Seq::<Seq<Seq<char>>>::empty(),
{
    CsvSink { w: csv::Writer::from_writer(Vec::new()) }
}

/// `csv::Writer::write_record` with the fields of `row`. A default writer
/// refuses a record only when its number of fields differs from the first
/// record's, or when the underlying writer fails, which writing into a `Vec`
/// never does; `requires` leaves the first case out, so the record is
/// written.
#[verifier::external_body]
fn csv_write_row(w: &mut CsvSink, row: &Vec<String>) -> (ok: bool)
    requires
        spec_csv_records(*old(w)).len() == 0 || row@.len() == spec_csv_records(*old(w))[0].len(),
    ensures
        ok,
        spec_csv_records(*final(w)) == spec_csv_records(*old(w)).push(views_of(row@)),
{
    w.w.write_record(row).is_ok()
}

/// `csv::Writer::into_inner`: flushes the writer and hands back the bytes
/// written, named by `spec_csv_bytes` over the records given. Flushing into a
/// `Vec` cannot fail.
#[verifier::external_body]
fn csv_into_bytes(w: CsvSink) -> (r: Vec<u8>)
    ensures
        r@ == spec_csv_bytes(spec_csv_records(w)),
{
    match w.w.into_inner() {
        Ok(bytes) => bytes,
        Err(_) => Vec::new(),
    }
}

/// The CSV export of `results`: the table of `csv_table`, row after row,
/// written by the CSV library.
pub fn export_csv_bytes(results: &Vec<ScrapeResult>) -> (r: Vec<u8>)
    ensures
        exists|keys: Seq<Seq<char>>|
            strictly_sorted(keys) && keys.to_set() == key_set(all_records(results@))
                && r@ == spec_csv_bytes(csv_table_spec(all_records(results@), keys)),
{
    let table = csv_table(results);
    let ghost keys = choose|keys: Seq<Seq<char>>|
        strictly_sorted(keys) && keys.to_set() == key_set(all_records(results@)) && table_view(
            table@,
        ) == csv_table_spec(all_records(results@), keys);
    let ghost tv = table_view(table@);
    proof {
        law_table_rectangular(all_records(results@), keys);
    }
    let mut w = csv_writer();
    let mut i: usize = 0;
    while i < table.len()
        invariant
            tv == table_view(table@),
            forall|a: int| 0 <= a < tv.len() ==> (#[trigger] tv[a]).len() == keys.len(),
            i <= table@.len(),
            spec_csv_records(w) == tv.take(i as int),
        decreases table.len() - i,
    {
        assert(tv[i as int] == views_of(table@[i as int]@));
        if i > 0 {
            assert(tv.take(i as int)[0] == tv[0]);
        }
        csv_write_row(&mut w, &table[i]);
        assert(tv.take(i + 1) =~= tv.take(i as int).push(tv[i as int]));
        i = i + 1;
    }
    assert(tv.take(tv.len() as int) =~= tv);
    csv_into_bytes(w)
}

// ---------------------------------------------------------------------------
// The JSON text.
// ---------------------------------------------------------------------------

/// Names the text that `serde_json::to_string_pretty` writes for these
/// records, each as a JSON object of its string fields.
pub uninterp spec fn spec_json_text(records: Seq<Entries>) -> Seq<char>;

/// `serde_json::to_string_pretty` of the records, each given as its
/// (key, value) entries and converted into a `serde_json::Map` of string
/// values (whose keys come out sorted). The text is named by
/// `spec_json_text`. Serialising string maps cannot fail.
#[verifier::external_body]
fn records_json_text(records: &Vec<Vec<(String, String)>>) -> (r: String)
    ensures
        r@ == spec_json_text(records@.map_values(|v: Vec<(String, String)>| pairs_view(v))),
{
    let docs: Vec<serde_json::Map<String, serde_json::Value>> = records.iter().map(|rec| {
        rec.iter().map(|(k, v)| (k.clone(), serde_json::Value::String(v.clone()))).collect()
    }).collect();
    serde_json::to_string_pretty(&docs).unwrap_or_default()
}

/// The JSON export of `results`: all their records, in order, as a
/// pretty-printed JSON array of objects.
pub fn export_json_text(results: &Vec<ScrapeResult>) -> (r: String)
    ensures
        r@ == spec_json_text(all_records(results@)),
{
    let recs = collect_records(results);
    let ghost want = all_records(results@);
    let mut rows: Vec<Vec<(String, String)>> = Vec::new();
    let mut i: usize = 0;
    while i < recs.len()
        invariant
            records_view(recs@) == want,
            i <= recs@.len(),
            rows@.map_values(|v: Vec<(String, String)>| pairs_view(v)) =~= want.take(i as int),
        decreases recs.len() - i,
    {
        let ghost before = rows@;
        rows.push(recs[i].entries());
        assert(rows@.map_values(|v: Vec<(String, String)>| pairs_view(v)) =~= before.map_values(|v: Vec<(String, String)>| pairs_view(v)).push(recs@[i as int]@));
        assert(want.take(i + 1) =~= want.take(i as int).push(want[i as int]));
        i = i + 1;
    }
    assert(want.take(recs@.len() as int) =~= want);
    records_json_text(&rows)
}

} // verus!

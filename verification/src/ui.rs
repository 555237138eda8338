//! Decisions and texts of the user interface: views, the results filter,
//! byte counts for display, labels, and editing of jobs and settings.
use vstd::prelude::*;

use crate::field_map::{entries_from_pairs, lookup, Entries, FieldMap};
use crate::retry::pow2;
use crate::text::{
    all_ascii, append_chars, chars_of, contains_seq, decimal, digit_char, spec_to_lowercase,
    string_from_chars, trim, trim_chars, u64_to_decimal,
};
use crate::types::{ExtractType, HttpMethod, ScrapeJob, ScrapeResult, ScrapeStatus, Selector};

verus! {

// ---------------------------------------------------------------------------
// Byte counts.
// ---------------------------------------------------------------------------

/// `num / den` rounded to the nearest integer, ties to even.
pub open spec fn round_half_even(num: nat, den: nat) -> nat
    recommends
        den > 0,
{
    let q = num / den;
    let r = num % den;
    if 2 * r > den || (2 * r == den && q % 2 == 1) {
        q + 1
    } else {
        q
    }
}

/// The exponent by which a 64-bit count exceeds the 53-bit significand of an
/// `f64`: the least `e >= start` (up to 11) with `b < 2^(53 + e)`.
pub open spec fn excess_from(b: nat, e: nat) -> nat
    decreases 11 - e,
{
    if b < pow2(53 + e) || e >= 11 {
        e
    } else {
        excess_from(b, e + 1)
    }
}

/// `b as f64`: the nearest value with a 53-bit significand, ties to even.
pub open spec fn to_f64_value(b: nat) -> nat {
    let e = excess_from(b, 0);
    if e == 0 {
        b
    } else {
        round_half_even(b, pow2(e)) * pow2(e)
    }
}

/// A number with one decimal digit, `n` tenths: `"12.3"`.
pub open spec fn tenths_text(n: nat) -> Seq<char> {
    decimal(n / 10) + seq!['.', digit_char(n % 10)]
}

/// A number with two decimal digits, `n` hundredths: `"1.25"`.
pub open spec fn hundredths_text(n: nat) -> Seq<char> {
    decimal(n / 100) + seq!['.', digit_char((n / 10) % 10), digit_char(n % 10)]
}

/// A byte count for display: bytes below 1 KiB; KiB and MiB with one decimal;
/// GiB with two decimals. Fractions are those that formatting the `f64`
/// quotient with `{:.1}` / `{:.2}` prints: the exact quotient of the count
/// (as an `f64`) rounded to the nearest, ties to even.
pub open spec fn format_bytes_spec(b: nat) -> Seq<char> {
    if b < 1024 {
        decimal(b) + seq![' ', 'B']
    } else if b < 1024 * 1024 {
        tenths_text(round_half_even(b * 10, 1024)) + seq![' ', 'K', 'B']
    } else if b < 1024 * 1024 * 1024 {
        tenths_text(round_half_even(b * 10, 1024 * 1024)) + seq![' ', 'M', 'B']
    } else {
        hundredths_text(round_half_even(to_f64_value(b) * 100, 1024 * 1024 * 1024)) + seq![
            ' ',
            'G',
            'B',
        ]
    }
}

fn pow2_u128(e: u32) -> (r: u128)
    requires
        e <= 64,
    ensures
        r == pow2(e as nat),
{
    proof {
        lemma_pow2_value(64);
    }
    let mut r: u128 = 1;
    let mut i: u32 = 0;
    while i < e
        invariant
            i <= e,
            e <= 64,
            r == pow2(i as nat),
            pow2(64) == 0x1_0000_0000_0000_0000,
        decreases e - i,
    {
        proof {
            lemma_pow2_mono(i as nat + 1, 64);
        }
        r = r * 2;
        i = i + 1;
    }
    r
}

/// This power of two agrees with `vstd::arithmetic::power2::pow2`.
proof fn lemma_pow2_same(n: nat)
    ensures
        pow2(n) == vstd::arithmetic::power2::pow2(n),
    decreases n,
{
    if n > 0 {
        lemma_pow2_same((n - 1) as nat);
        vstd::arithmetic::power2::lemma_pow2_unfold(n);
    } else {
        vstd::arithmetic::power2::lemma2_to64();
    }
}

proof fn lemma_pow2_value(n: nat)
    requires
        n == 64 || n == 53 || n == 30,
    ensures
        n == 64 ==> pow2(n) == 0x1_0000_0000_0000_0000,
        n == 53 ==> pow2(n) == 0x20_0000_0000_0000,
        n == 30 ==> pow2(n) == 0x4000_0000,
{
    lemma_pow2_same(n);
    vstd::arithmetic::power2::lemma2_to64();
    vstd::arithmetic::power2::lemma2_to64_rest();
}

proof fn lemma_pow2_positive(n: nat)
    ensures
        pow2(n) >= 1,
    decreases n,
{
    if n > 0 {
        lemma_pow2_positive((n - 1) as nat);
    }
}

proof fn lemma_pow2_mono(a: nat, b: nat)
    requires
        a <= b,
    ensures
        pow2(a) <= pow2(b),
    decreases b,
{
    if a < b {
        lemma_pow2_mono(a, (b - 1) as nat);
    }
}

/// `num / den` rounded to the nearest, ties to even.
fn round_half_even_u128(num: u128, den: u128) -> (r: u128)
    requires
        den > 0,
        num / den < u128::MAX,
    ensures
        r == round_half_even(num as nat, den as nat),
{
    let q = num / den;
    let rem = num % den;
    if rem > den - rem || (rem == den - rem && q % 2 == 1) {
        q + 1
    } else {
        q
    }
}

fn append_decimal(out: &mut Vec<char>, n: u64)
    ensures
        final(out)@ == old(out)@ + decimal(n as nat),
{
    let d = u64_to_decimal(n);
    append_chars(out, d.as_slice());
}

fn digit_of(d: u128) -> (c: char)
    requires
        d < 10,
    ensures
        c == digit_char(d as nat),
{
    let b: u8 = (d as u8) + 48;
    let c = b as char;
    assert(c == digit_char(d as nat));
    c
}

/// A byte count for display; see `format_bytes_spec`.
pub fn format_bytes(bytes: u64) -> (r: String)
    ensures
        r@ == format_bytes_spec(bytes as nat),
{
    let mut out: Vec<char> = Vec::new();
    if bytes < 1024 {
        append_decimal(&mut out, bytes);
        out.push(' ');
        out.push('B');
        assert(out@ =~= format_bytes_spec(bytes as nat));
        return string_from_chars(out.as_slice());
    }
    let b: u128 = bytes as u128;
    let (n, two_places): (u128, bool) = if bytes < 1024 * 1024 {
        (round_half_even_u128(b * 10, 1024), false)
    } else if bytes < 1024 * 1024 * 1024 {
        (round_half_even_u128(b * 10, 1024 * 1024), false)
    } else {
        proof {
            lemma_pow2_value(53);
            lemma_pow2_value(64);
            lemma_pow2_value(30);
        }
        // The exponent of `bytes as f64` beyond 53 bits.
        let mut e: u32 = 0;
        loop
            invariant
                e <= 11,
                b == bytes as nat,
                excess_from(bytes as nat, 0) == excess_from(bytes as nat, e as nat),
            ensures
                e <= 11,
                excess_from(bytes as nat, 0) == e,
            decreases 11 - e,
        {
            if e >= 11 {
                break;
            }
            let p = pow2_u128(53 + e);
            if b < p {
                break;
            }
            assert(excess_from(bytes as nat, e as nat) == excess_from(bytes as nat, (e + 1) as nat));
            e = e + 1;
        }
        let p = pow2_u128(e);
        proof {
            lemma_pow2_positive(e as nat);
            lemma_pow2_mono(e as nat, 11);
            reveal_with_fuel(pow2, 12);
        }
        let f: u128 = if e == 0 {
            b
        } else {
            let q = round_half_even_u128(b, p);
            assert(q <= b / p + 1);
            assert(b / p <= b) by (nonlinear_arith)
                requires
                    p >= 1,
            ;
            assert(q * p <= (b + 1) * 2048) by (nonlinear_arith)
                requires
                    q <= b + 1,
                    p <= 2048,
            ;
            q * p
        };
        assert(f <= 0x1_0000_0000_0000_0000u128 * 4096);
        (round_half_even_u128(f * 100, 1024 * 1024 * 1024), true)
    };
    if !two_places {
        append_decimal(&mut out, (n / 10) as u64);
        out.push('.');
        out.push(digit_of(n % 10));
        out.push(' ');
        if bytes < 1024 * 1024 {
            out.push('K');
        } else {
            out.push('M');
        }
        out.push('B');
    } else {
        append_decimal(&mut out, (n / 100) as u64);
        out.push('.');
        out.push(digit_of((n / 10) % 10));
        out.push(digit_of(n % 10));
        out.push(' ');
        out.push('G');
        out.push('B');
    }
    assert(out@ =~= format_bytes_spec(bytes as nat));
    string_from_chars(out.as_slice())
}

// ---------------------------------------------------------------------------
// Views.
// ---------------------------------------------------------------------------

/// The pages of the application.
#[derive(Debug, Clone, Copy, PartialEq, Eq, Structural)]
pub enum AppView {
    Dashboard,
    Scraper,
    Results,
    Settings,
}

impl Default for AppView {
    fn default() -> (r: AppView)
        ensures
            r == AppView::Dashboard,
    {
        AppView::Dashboard
    }
}

/// Whether the frame shows `target` for the first time since another view:
/// the current view is `target` and the previous frame showed another.
pub fn entering(current: AppView, last: AppView, target: AppView) -> (r: bool)
    ensures
        r == (current == target && current != last),
{
    current == target && current != last
}

/// How long a results list may be shown before it is read again.
pub const RESULTS_REFRESH_MS: u64 = 2000;

/// Whether the results are read again this frame: on entering the view, or
/// when the last read is at least two seconds old.
pub fn needs_refresh(entering_view: bool, elapsed_ms: u64) -> (r: bool)
    ensures
        r == (entering_view || elapsed_ms >= RESULTS_REFRESH_MS),
{
    entering_view || elapsed_ms >= RESULTS_REFRESH_MS
}

// ---------------------------------------------------------------------------
// The results panel.
// ---------------------------------------------------------------------------

/// State of the results page.
#[derive(Debug, Clone)]
pub struct ResultsPanel {
    pub search_query: String,
    pub selected_job_filter: Option<String>,
    pub selected_result: Option<usize>,
    pub last_export: Option<String>,
}

impl Default for ResultsPanel {
    fn default() -> (r: ResultsPanel)
        ensures
            r.search_query@.len() == 0,
            r.selected_job_filter is None,
            r.selected_result is None,
            r.last_export is None,
    {
        ResultsPanel {
            search_query: String::new(),
            selected_job_filter: None,
            selected_result: None,
            last_export: None,
        }
    }
}

/// Some value of some record of `r`, lower-cased, contains `q`.
pub open spec fn value_matches(r: ScrapeResult, q: Seq<char>) -> bool {
    exists|i: int, j: int|
        0 <= i < r.data@.len() && 0 <= j < r.data@[i]@.len() && contains_seq(
            spec_to_lowercase(#[trigger] r.data@[i]@[j].1),
            q,
        )
}

/// Whether a result is listed: it belongs to the selected job (if one is
/// selected), and, when there is a search text, the lower-cased text occurs in
/// the lower-cased URL, job id or some record value.
pub open spec fn result_matches(r: ScrapeResult, job_filter: Option<Seq<char>>, query: Seq<char>) -> bool {
    &&& match job_filter {
        Some(f) => r.job_id@ == f,
        None => true,
    }
    &&& (query.len() == 0 || {
        let q = spec_to_lowercase(query);
        ||| contains_seq(spec_to_lowercase(r.url@), q)
        ||| contains_seq(spec_to_lowercase(r.job_id@), q)
        ||| value_matches(r, q)
    })
}

/// The indices of the listed results, in order.
pub open spec fn filtered_indices(results: Seq<ScrapeResult>, job_filter: Option<Seq<char>>, query: Seq<char>) -> Seq<int>
    decreases results.len(),
{
    if results.len() == 0 {
        Seq::empty()
    } else if result_matches(results.last(), job_filter, query) {
        filtered_indices(results.drop_last(), job_filter, query).push(results.len() - 1)
    } else {
        filtered_indices(results.drop_last(), job_filter, query)
    }
}

/// The number of records of the given results.
pub open spec fn record_total(results: Seq<ScrapeResult>, idx: Seq<int>) -> int
    decreases idx.len(),
{
    if idx.len() == 0 {
        0
    } else {
        record_total(results, idx.drop_last()) + results[idx.last()].data@.len()
    }
}

impl ResultsPanel {
    pub open spec fn filter_view(&self) -> Option<Seq<char>> {
        match self.selected_job_filter {
            Some(f) => Some(f@),
            None => None,
        }
    }

    /// Whether `r` is listed under the current filter and search text.
    pub fn matches(&self, r: &ScrapeResult) -> (b: bool)
        ensures
            b == result_matches(*r, self.filter_view(), self.search_query@),
    {
        if let Some(f) = &self.selected_job_filter {
            if !crate::field_map::str_equal(r.job_id.as_str(), f.as_str()) {
                return false;
            }
        }
        if self.search_query.as_str().is_empty() {
            return true;
        }
        let q = crate::text::to_lowercase(self.search_query.as_str());
        let url = crate::text::to_lowercase(r.url.as_str());
        if crate::text::str_contains(url.as_str(), q.as_str()) {
            return true;
        }
        let id = crate::text::to_lowercase(r.job_id.as_str());
        if crate::text::str_contains(id.as_str(), q.as_str()) {
            return true;
        }
        assert(self.search_query@.len() > 0);
        let mut i: usize = 0;
        while i < r.data.len()
            invariant
                i <= r.data@.len(),
                q@ == spec_to_lowercase(self.search_query@),
                self.search_query@.len() > 0,
                match self.filter_view() {
                    Some(f) => r.job_id@ == f,
                    None => true,
                },
                forall|a: int, b: int|
                    0 <= a < i && 0 <= b < r.data@[a]@.len() ==> !contains_seq(
                        spec_to_lowercase(#[trigger] r.data@[a]@[b].1),
                        q@,
                    ),
            decreases r.data.len() - i,
        {
            let m = &r.data[i];
            let mut j: usize = 0;
            while j < m.len()
                invariant
                    i < r.data@.len(),
                    m@ == r.data@[i as int]@,
                    j <= m@.len(),
                    q@ == spec_to_lowercase(self.search_query@),
                    self.search_query@.len() > 0,
                    match self.filter_view() {
                        Some(f) => r.job_id@ == f,
                        None => true,
                    },
                    forall|b: int| 0 <= b < j ==> !contains_seq(spec_to_lowercase(#[trigger] m@[b].1), q@),
                decreases m@.len() - j,
            {
                let (_k, v) = m.entry(j);
                let lv = crate::text::to_lowercase(v.as_str());
                if crate::text::str_contains(lv.as_str(), q.as_str()) {
                    assert(contains_seq(spec_to_lowercase(r.data@[i as int]@[j as int].1), q@));
                    return true;
                }
                j = j + 1;
            }
            assert forall|a: int, b: int|
                0 <= a < i + 1 && 0 <= b < r.data@[a]@.len() implies !contains_seq(
                    spec_to_lowercase(#[trigger] r.data@[a]@[b].1),
                    q@,
                ) by {
                if a == i {
                    assert(m@[b].1 == r.data@[a]@[b].1);
                }
            }
            i = i + 1;
        }
        false
    }

    /// The indices of the listed results, in order.
    pub fn filter_results(&self, results: &Vec<ScrapeResult>) -> (r: Vec<usize>)
        ensures
            r@.map_values(|i: usize| i as int) == filtered_indices(results@, self.filter_view(), self.search_query@),
    {
        let mut r: Vec<usize> = Vec::new();
        let mut i: usize = 0;
        while i < results.len()
            invariant
                i <= results@.len(),
                r@.map_values(|k: usize| k as int) =~= filtered_indices(results@.take(i as int), self.filter_view(), self.search_query@),
            decreases results.len() - i,
        {
            assert(results@.take(i + 1).drop_last() =~= results@.take(i as int));
            assert(results@.take(i + 1).last() == results@[i as int]);
            if self.matches(&results[i]) {
                r.push(i);
            }
            i = i + 1;
        }
        assert(results@.take(results@.len() as int) =~= results@);
        r
    }

    /// Selects the job `job_id` as filter, or clears the filter when that job
    /// is the one selected.
    pub fn toggle_job_filter(&mut self, job_id: &str)
        ensures
            old(self).filter_view() == Some(job_id@) ==> final(self).selected_job_filter is None,
            old(self).filter_view() != Some(job_id@) ==> final(self).filter_view() == Some(job_id@),
            final(self).search_query == old(self).search_query,
            final(self).selected_result == old(self).selected_result,
            final(self).last_export == old(self).last_export,
    {
        let selected = match &self.selected_job_filter {
            Some(f) => crate::field_map::str_equal(f.as_str(), job_id),
            None => false,
        };
        if selected {
            self.selected_job_filter = None;
        } else {
            self.selected_job_filter = Some(String::from_str(job_id));
        }
    }
}

/// With a search text, a result is listed whenever the lower-cased text
/// occurs in the lower-cased value of any field of any of its records (and it
/// belongs to the selected job, if one is selected), whatever the field's
/// position in the record.
pub proof fn law_search_finds_any_field(r: ScrapeResult, query: Seq<char>, i: int, j: int)
    requires
        0 <= i < r.data@.len(),
        0 <= j < r.data@[i]@.len(),
        contains_seq(spec_to_lowercase(r.data@[i]@[j].1), spec_to_lowercase(query)),
    ensures
        result_matches(r, None, query),
        result_matches(r, Some(r.job_id@), query),
{
    assert(value_matches(r, spec_to_lowercase(query)));
}

/// A result is listed only when it belongs to the selected job, and, with a
/// search text, only when the text occurs (lower-cased) in its URL, its job
/// id or some value of some record; with neither a job nor a text, always.
pub proof fn law_search_needs_a_match(r: ScrapeResult, job_filter: Option<Seq<char>>, query: Seq<char>)
    ensures
        result_matches(r, job_filter, query) && job_filter is Some ==> r.job_id@ == job_filter->0,
        result_matches(r, job_filter, query) && query.len() > 0 ==> {
            let q = spec_to_lowercase(query);
            ||| contains_seq(spec_to_lowercase(r.url@), q)
            ||| contains_seq(spec_to_lowercase(r.job_id@), q)
            ||| exists|i: int, j: int|
                0 <= i < r.data@.len() && 0 <= j < r.data@[i]@.len() && contains_seq(
                    spec_to_lowercase(#[trigger] r.data@[i]@[j].1),
                    q,
                )
        },
        result_matches(r, None, Seq::empty()),
{
}

/// The listed results are exactly those that match, each once and in order.
pub proof fn law_filter_lists_matching(results: Seq<ScrapeResult>, job_filter: Option<Seq<char>>, query: Seq<char>)
    ensures
        forall|k: int| filtered_indices(results, job_filter, query).contains(k) <==> (0 <= k < results.len()
            && result_matches(results[k], job_filter, query)),
        forall|a: int, b: int|
            0 <= a < b < filtered_indices(results, job_filter, query).len() ==> filtered_indices(
                results,
                job_filter,
                query,
            )[a] < filtered_indices(results, job_filter, query)[b],
    decreases results.len(),
{
    if results.len() > 0 {
        let prev = results.drop_last();
        law_filter_lists_matching(prev, job_filter, query);
        let ep = filtered_indices(prev, job_filter, query);
        let e = filtered_indices(results, job_filter, query);
        let last_ok = result_matches(results.last(), job_filter, query);
        assert forall|k: int| e.contains(k) <==> (0 <= k < results.len() && result_matches(results[k], job_filter, query)) by {
            if last_ok {
                assert(e == ep.push(results.len() - 1));
                if e.contains(k) {
                    let m = choose|m: int| 0 <= m < e.len() && e[m] == k;
                    if m < ep.len() {
                        assert(ep[m] == k);
                        assert(ep.contains(k));
                        assert(prev[k] == results[k]);
                    }
                }
                if 0 <= k < results.len() && result_matches(results[k], job_filter, query) {
                    if k < results.len() - 1 {
                        assert(prev[k] == results[k]);
                        assert(ep.contains(k));
                        let m = choose|m: int| 0 <= m < ep.len() && ep[m] == k;
                        assert(e[m] == k);
                    } else {
                        assert(e[ep.len() as int] == k);
                    }
                }
            } else {
                assert(e == ep);
                if e.contains(k) {
                    assert(prev[k] == results[k]);
                }
                if 0 <= k < results.len() && result_matches(results[k], job_filter, query) {
                    assert(k != results.len() - 1);
                    assert(prev[k] == results[k]);
                }
            }
        }
        if last_ok {
            assert forall|a: int, b: int| 0 <= a < b < e.len() implies e[a] < e[b] by {
                if b == ep.len() {
                    assert(ep.contains(ep[a]));
                }
            }
        }
    }
}

/// With no job selected and no search text, every result is listed, in
/// order.
pub proof fn law_no_filter_lists_all(results: Seq<ScrapeResult>)
    ensures
        filtered_indices(results, None, Seq::empty()) == Seq::new(results.len(), |i: int| i),
    decreases results.len(),
{
    if results.len() > 0 {
        law_no_filter_lists_all(results.drop_last());
        assert(filtered_indices(results, None, Seq::empty()) =~= Seq::new(results.len(), |i: int| i));
    } else {
        assert(filtered_indices(results, None, Seq::empty()) =~= Seq::new(results.len(), |i: int| i));
    }
}

/// The number of records of the results at `idx`.
pub fn total_records(results: &Vec<ScrapeResult>, idx: &Vec<usize>) -> (n: usize)
    requires
        forall|k: int| 0 <= k < idx@.len() ==> (#[trigger] idx@[k]) < results@.len(),
        record_total(results@, idx@.map_values(|i: usize| i as int)) <= usize::MAX,
    ensures
        n == record_total(results@, idx@.map_values(|i: usize| i as int)),
{
    let ghost iv = idx@.map_values(|i: usize| i as int);
    let mut n: usize = 0;
    let mut k: usize = 0;
    proof {
        lemma_record_total_prefix(results@, iv, 0);
    }
    while k < idx.len()
        invariant
            iv == idx@.map_values(|i: usize| i as int),
            forall|m: int| 0 <= m < idx@.len() ==> (#[trigger] idx@[m]) < results@.len(),
            record_total(results@, iv) <= usize::MAX,
            k <= idx@.len(),
            n == record_total(results@, iv.take(k as int)),
        decreases idx.len() - k,
    {
        proof {
            lemma_record_total_prefix(results@, iv, k + 1);
            assert(iv.take(k + 1).drop_last() =~= iv.take(k as int));
            assert(iv.take(k + 1).last() == idx@[k as int] as int);
        }
        n = n + results[idx[k]].data.len();
        k = k + 1;
    }
    assert(iv.take(idx@.len() as int) =~= iv);
    n
}

proof fn lemma_record_total_prefix(results: Seq<ScrapeResult>, iv: Seq<int>, k: int)
    requires
        0 <= k <= iv.len(),
    ensures
        0 <= record_total(results, iv.take(k)) <= record_total(results, iv),
    decreases iv.len() - k,
{
    lemma_record_total_nonneg(results, iv.take(k));
    if k < iv.len() {
        lemma_record_total_prefix(results, iv, k + 1);
        assert(iv.take(k + 1).drop_last() =~= iv.take(k));
    } else {
        assert(iv.take(k) =~= iv);
    }
}

proof fn lemma_record_total_nonneg(results: Seq<ScrapeResult>, iv: Seq<int>)
    ensures
        record_total(results, iv) >= 0,
    decreases iv.len(),
{
    if iv.len() > 0 {
        lemma_record_total_nonneg(results, iv.drop_last());
    }
}

/// The name of job `job_id` among `(id, name)` pairs (the first with that id),
/// or the id itself.
pub open spec fn display_name_spec(names: Seq<(String, String)>, job_id: Seq<char>) -> Seq<char>
    decreases names.len(),
{
    if names.len() == 0 {
        job_id
    } else if names[0].0@ == job_id {
        names[0].1@
    } else {
        display_name_spec(names.drop_first(), job_id)
    }
}

/// The name shown for a job id.
pub fn job_display_name(names: &Vec<(String, String)>, job_id: &str) -> (r: String)
    ensures
        r@ == display_name_spec(names@, job_id@),
{
    let ghost nv = names@;
    assert(nv.skip(0) =~= nv);
    let mut i: usize = 0;
    while i < names.len()
        invariant
            nv == names@,
            i <= nv.len(),
            display_name_spec(nv, job_id@) == display_name_spec(nv.skip(i as int), job_id@),
        decreases names.len() - i,
    {
        assert(nv.skip(i as int).drop_first() =~= nv.skip(i + 1));
        if crate::field_map::str_equal(names[i].0.as_str(), job_id) {
            return names[i].1.clone();
        }
        i = i + 1;
    }
    String::from_str(job_id)
}

// ---------------------------------------------------------------------------
// The settings panel.
// ---------------------------------------------------------------------------

/// State of the settings page: whether the last frame changed a setting.
#[derive(Debug, Clone, Copy, PartialEq, Eq, Structural)]
pub struct SettingsPanel {
    pub changed: bool,
}

impl Default for SettingsPanel {
    fn default() -> (r: SettingsPanel)
        ensures
            !r.changed,
    {
        SettingsPanel { changed: false }
    }
}

/// The response size limit in whole MiB as the settings slider shows it (the
/// quotient cast to `i32`).
pub fn max_response_mb(bytes: u64) -> (r: i32)
    ensures
        r == (bytes / 1048576u64) as i32,
{
    (bytes / (1024 * 1024)) as i32
}

/// The response size limit for a slider value in MiB (at least 1 MiB).
pub fn mb_to_bytes(mb: i32) -> (r: u64)
    ensures
        r == (if mb < 1 { 1 } else { mb as int }) * 1024 * 1024,
{
    let m: i32 = if mb < 1 {
        1
    } else {
        mb
    };
    (m as u64) * 1024 * 1024
}

// ---------------------------------------------------------------------------
// Labels.
// ---------------------------------------------------------------------------

/// The label of an extraction kind in the selector editor.
pub open spec fn extract_label_spec(e: ExtractType) -> Seq<char> {
    match e {
        ExtractType::Text => "Text"@,
        ExtractType::Html => "HTML"@,
        ExtractType::Attribute(a) => if a@.len() == 0 {
            "Attribute"@
        } else {
            "Attr: "@ + a@
        },
        ExtractType::Link => "Link"@,
        ExtractType::Image => "Image"@,
    }
}

/// The label of an extraction kind.
pub fn extract_label(e: &ExtractType) -> (r: String)
    ensures
        r@ == extract_label_spec(*e),
{
    match e {
        ExtractType::Text => String::from_str("Text"),
        ExtractType::Html => String::from_str("HTML"),
        ExtractType::Attribute(a) => {
            if a.as_str().is_empty() {
                String::from_str("Attribute")
            } else {
                let prefix = String::from_str("Attr: ");
                prefix.concat(a.as_str())
            }
        },
        ExtractType::Link => String::from_str("Link"),
        ExtractType::Image => String::from_str("Image"),
    }
}

/// The name under which a status is stored.
pub open spec fn status_name_spec(s: ScrapeStatus) -> Seq<char> {
    match s {
        ScrapeStatus::Success => "Success"@,
        ScrapeStatus::Failed => "Failed"@,
    }
}

/// The name under which a status is stored.
pub fn status_name(s: ScrapeStatus) -> (r: String)
    ensures
        r@ == status_name_spec(s),
{
    match s {
        ScrapeStatus::Success => String::from_str("Success"),
        ScrapeStatus::Failed => String::from_str("Failed"),
    }
}

/// The status a stored name stands for: `Success` for "Success", failed for
/// anything else.
pub fn status_from_name(name: &str) -> (r: ScrapeStatus)
    ensures
        r == (if name@ == "Success"@ {
            ScrapeStatus::Success
        } else {
            ScrapeStatus::Failed
        }),
{
    if crate::field_map::str_equal(name, "Success") {
        ScrapeStatus::Success
    } else {
        ScrapeStatus::Failed
    }
}

/// A stored status reads back as the status that was stored.
pub proof fn law_status_name_round_trip(s: ScrapeStatus)
    ensures
        (if status_name_spec(s) == "Success"@ {
            ScrapeStatus::Success
        } else {
            ScrapeStatus::Failed
        }) == s,
{
    reveal_strlit("Success");
    reveal_strlit("Failed");
    if s == ScrapeStatus::Failed {
        assert("Failed"@[0] != "Success"@[0]);
    }
}

/// The text shown for a job's last run.
pub open spec fn last_run_label_spec(r: ScrapeResult) -> Seq<char> {
    match r.status {
        ScrapeStatus::Success => "Last run: "@ + decimal(r.data@.len()) + " records"@,
        ScrapeStatus::Failed => "Last run: failed"@,
    }
}

/// The text shown for a job's last run.
pub fn last_run_label(r: &ScrapeResult) -> (s: String)
    ensures
        s@ == last_run_label_spec(*r),
{
    match r.status {
        ScrapeStatus::Success => {
            let mut out = chars_of("Last run: ");
            let n = u64_to_decimal(r.data.len() as u64);
            append_chars(&mut out, n.as_slice());
            let tail = chars_of(" records");
            append_chars(&mut out, tail.as_slice());
            string_from_chars(out.as_slice())
        },
        ScrapeStatus::Failed => String::from_str("Last run: failed"),
    }
}

/// The outcome of a test run of a job in the editor: its result, or the
/// error's text.
pub struct TestOutcome {
    pub job_id: String,
    pub result: Result<ScrapeResult, String>,
}

// ---------------------------------------------------------------------------
// Editing jobs.
// ---------------------------------------------------------------------------

/// An optional text field: empty means absent.
pub fn optional_text(s: String) -> (r: Option<String>)
    ensures
        s@.len() == 0 ==> r is None,
        s@.len() > 0 ==> r == Some(s),
{
    if s.as_str().is_empty() {
        None
    } else {
        Some(s)
    }
}

/// An interval from the editor's slider: positive values are minutes, zero or
/// less means manual runs only.
pub fn interval_from_slider(v: i32) -> (r: Option<u64>)
    ensures
        v > 0 ==> r == Some(v as u64),
        v <= 0 ==> r is None,
{
    if v > 0 {
        Some(v as u64)
    } else {
        None
    }
}

/// A new selector from the editor's fields; none unless both the name and the
/// CSS are filled in.
pub fn new_selector(name: &str, css: &str, extract: ExtractType) -> (r: Option<Selector>)
    ensures
        (name@.len() > 0 && css@.len() > 0) <==> r is Some,
        r matches Some(s) ==> s.name@ == name@ && s.css_selector@ == css@ && s.extract == extract,
{
    if !name.is_empty() && !css.is_empty() {
        Some(Selector { name: String::from_str(name), css_selector: String::from_str(css), extract })
    } else {
        None
    }
}

/// The job that "+ New Job" opens in the editor: the given id, no name, URL,
/// selectors or headers, GET, one page, concurrency 1, no interval, body,
/// proxy, user agent, next-link selector or automatic export, and enabled.
pub fn new_job(id: String) -> (j: ScrapeJob)
    ensures
        j.id == id,
        j.name@.len() == 0,
        j.url@.len() == 0,
        j.selectors@.len() == 0,
        j.headers@.len() == 0,
        j.method == HttpMethod::Get,
        j.body is None,
        j.interval_minutes is None,
        j.max_pages == Some(1u32),
        j.next_link_selector is None,
        j.concurrency == 1,
        j.proxy is None,
        j.user_agent is None,
        j.auto_export is None,
        j.enabled,
{
    ScrapeJob {
        id,
        name: String::new(),
        url: String::new(),
        selectors: Vec::new(),
        headers: FieldMap::new(),
        method: HttpMethod::Get,
        body: None,
        interval_minutes: None,
        max_pages: Some(1),
        next_link_selector: None,
        concurrency: 1,
        proxy: None,
        user_agent: None,
        auto_export: None,
        enabled: true,
    }
}

/// The header rows kept when a job is saved: those whose name and value are
/// not blank.
pub open spec fn kept_headers(rows: Seq<(String, String)>) -> Entries
    decreases rows.len(),
{
    if rows.len() == 0 {
        Seq::empty()
    } else if trim(rows.last().0@).len() > 0 && trim(rows.last().1@).len() > 0 {
        kept_headers(rows.drop_last()).push((rows.last().0@, rows.last().1@))
    } else {
        kept_headers(rows.drop_last())
    }
}

/// The headers of a saved job: the kept rows, a repeated name keeping the
/// last value.
pub fn headers_from_rows(rows: &Vec<(String, String)>) -> (m: FieldMap)
    ensures
        m@ == entries_from_pairs(kept_headers(rows@)),
{
    let mut m = FieldMap::new();
    let ghost rv = rows@;
    let mut i: usize = 0;
    while i < rows.len()
        invariant
            rv == rows@,
            i <= rv.len(),
            m@ == entries_from_pairs(kept_headers(rv.take(i as int))),
        decreases rows.len() - i,
    {
        assert(rv.take(i + 1).drop_last() =~= rv.take(i as int));
        assert(rv.take(i + 1).last() == rv[i as int]);
        let k = chars_of(rows[i].0.as_str());
        let v = chars_of(rows[i].1.as_str());
        let tk = trim_chars(k.as_slice());
        let tv = trim_chars(v.as_slice());
        if tk.len() > 0 && tv.len() > 0 {
            m.insert(rows[i].0.clone(), rows[i].1.clone());
            let ghost kh = kept_headers(rv.take(i + 1));
            assert(kh.drop_last() =~= kept_headers(rv.take(i as int)));
            assert(kh.last() == (rv[i as int].0@, rv[i as int].1@));
        }
        i = i + 1;
    }
    assert(rv.take(rv.len() as int) =~= rv);
    m
}

/// The job list with `edited` saved: it replaces the first job with its id,
/// or is appended when its id is new.
pub open spec fn save_into(jobs: Seq<ScrapeJob>, edited: ScrapeJob) -> Seq<ScrapeJob> {
    let i = crate::engine::job_index(jobs, edited.id@);
    if i >= 0 {
        jobs.update(i, edited)
    } else {
        jobs.push(edited)
    }
}

/// No two jobs share an id.
pub open spec fn ids_unique(jobs: Seq<ScrapeJob>) -> bool {
    forall|a: int, b: int| 0 <= a < jobs.len() && 0 <= b < jobs.len() && a != b ==> (#[trigger] jobs[a]).id@ != (#[trigger] jobs[b]).id@
}

/// Saving a job never gives two jobs the same id: a list whose ids are
/// distinct keeps distinct ids, and the saved job is found under its id.
pub proof fn law_save_keeps_ids_unique(jobs: Seq<ScrapeJob>, edited: ScrapeJob)
    requires
        ids_unique(jobs),
    ensures
        ids_unique(save_into(jobs, edited)),
        save_into(jobs, edited)[crate::engine::job_index(save_into(jobs, edited), edited.id@)] == edited,
{
    crate::engine::lemma_job_index_bound(jobs, edited.id@);
    crate::engine::lemma_job_index_facts(jobs, edited.id@);
    let r = save_into(jobs, edited);
    let i = crate::engine::job_index(jobs, edited.id@);
    crate::engine::lemma_job_index_facts(r, edited.id@);
    if i >= 0 {
        assert forall|a: int, b: int| 0 <= a < r.len() && 0 <= b < r.len() && a != b implies (#[trigger] r[a]).id@ != (#[trigger] r[b]).id@ by {
            if a == i {
                assert(jobs[i].id@ == edited.id@);
                assert(jobs[b].id@ != jobs[i].id@);
            } else if b == i {
                assert(jobs[i].id@ == edited.id@);
                assert(jobs[a].id@ != jobs[i].id@);
            }
        }
        let j = crate::engine::job_index(r, edited.id@);
        assert(r[i].id@ == edited.id@);
        if j != i {
            assert(j >= 0 && r[j].id@ == edited.id@);
        }
    } else {
        assert forall|a: int, b: int| 0 <= a < r.len() && 0 <= b < r.len() && a != b implies (#[trigger] r[a]).id@ != (#[trigger] r[b]).id@ by {
            if a == jobs.len() {
                assert(jobs[b].id@ != edited.id@);
            } else if b == jobs.len() {
                assert(jobs[a].id@ != edited.id@);
            }
        }
        let j = crate::engine::job_index(r, edited.id@);
        assert(r[jobs.len() as int].id@ == edited.id@);
        if j != jobs.len() {
            assert(j >= 0 && j < jobs.len() && r[j].id@ == edited.id@ && r[j] == jobs[j]);
        }
    }
}

/// Saves an edited job: refused (returns false, nothing changes) unless it
/// has a name and a URL; otherwise its headers become the kept header rows and
/// it replaces the first job with its id, or is appended when its id is new.
pub fn save_edited_job(jobs: &mut Vec<ScrapeJob>, job: ScrapeJob, header_rows: &Vec<(String, String)>) -> (saved: bool)
    ensures
        saved == (job.name@.len() > 0 && job.url@.len() > 0),
        !saved ==> final(jobs)@ == old(jobs)@,
        saved ==> exists|h: FieldMap|
            h@ == entries_from_pairs(kept_headers(header_rows@)) && final(jobs)@ == save_into(
                old(jobs)@,
                ScrapeJob { headers: h, ..job },
            ),
{
    if job.name.as_str().is_empty() || job.url.as_str().is_empty() {
        return false;
    }
    let headers = headers_from_rows(header_rows);
    let ghost h = headers;
    let mut job = job;
    let ghost job0 = job;
    job.headers = headers;
    assert(job == ScrapeJob { headers: h, ..job0 });
    let pos = crate::engine::find_job(jobs, job.id.as_str());
    match pos {
        Some(i) => {
            proof {
                crate::engine::lemma_job_index_bound(jobs@, job.id@);
            }
            jobs.set(i, job);
        },
        None => {
            jobs.push(job);
        },
    }
    assert(jobs@ =~= save_into(old(jobs)@, ScrapeJob { headers: h, ..job0 }));
    true
}

} // verus!

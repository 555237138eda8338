//! Job execution bookkeeping: which pages a job fetches, how page records
//! become a job result, and the running statistics of the engine.
use vstd::prelude::*;

use crate::field_map::{Entries, FieldMap};
use crate::html::{html_records, parse_html, records_view};
use crate::json::{extract_json_text, extract_json_value, json_records, record_path, spec_parse_json, JsonValue};
use crate::text::{
    chars_of, contains_seq, decimal, replace_all, replace_chars, spec_to_lowercase,
    spec_utf8_lossy, string_from_chars, u64_to_decimal,
};
use crate::types::{ScrapeJob, ScrapeResult, ScrapeStatus, Timestamp};

verus! {

// ---------------------------------------------------------------------------
// Pages of a job.
// ---------------------------------------------------------------------------

/// The placeholder in a job URL that page numbers replace.
pub open spec fn page_placeholder() -> Seq<char> {
    seq!['{', 'p', 'a', 'g', 'e', '}']
}

/// How many pages a job fetches: `max_pages` (default 1) when its URL holds
/// `{page}`, else 1.
pub open spec fn page_count(job: ScrapeJob) -> nat {
    if contains_seq(job.url@, page_placeholder()) {
        match job.max_pages {
            Some(m) => m as nat,
            None => 1,
        }
    } else {
        1
    }
}

/// The URL of page `p` (counting from 1): `{page}` replaced by the page
/// number, or the job URL itself when it has no placeholder.
pub open spec fn page_url(job: ScrapeJob, p: nat) -> Seq<char> {
    if contains_seq(job.url@, page_placeholder()) {
        replace_all(job.url@, page_placeholder(), decimal(p))
    } else {
        job.url@
    }
}

fn placeholder() -> (r: Vec<char>)
    ensures
        r@ == page_placeholder(),
{
    let r = vec!['{', 'p', 'a', 'g', 'e', '}'];
    assert(r@ =~= page_placeholder());
    r
}

/// The URLs of the pages a job fetches, in page order.
pub fn page_urls(job: &ScrapeJob) -> (r: Vec<String>)
    ensures
        r@.len() == page_count(*job),
        forall|i: int| 0 <= i < r@.len() ==> #[trigger] r@[i]@ == page_url(*job, (i + 1) as nat),
{
    let url = chars_of(job.url.as_str());
    let pat = placeholder();
    let paginated = crate::text::contains_chars(url.as_slice(), pat.as_slice());
    let total: u32 = if paginated {
        match job.max_pages {
            Some(m) => m,
            None => 1,
        }
    } else {
        1
    };
    let mut r: Vec<String> = Vec::new();
    let mut p: u32 = 0;
    while p < total
        invariant
            url@ == job.url@,
            pat@ == page_placeholder(),
            paginated == contains_seq(job.url@, page_placeholder()),
            total == page_count(*job),
            p <= total,
            r@.len() == p,
            forall|i: int| 0 <= i < r@.len() ==> #[trigger] r@[i]@ == page_url(*job, (i + 1) as nat),
        decreases total - p,
    {
        let u = if paginated {
            let digits = u64_to_decimal((p + 1) as u64);
            let replaced = replace_chars(url.as_slice(), pat.as_slice(), digits.as_slice());
            string_from_chars(replaced.as_slice())
        } else {
            job.url.clone()
        };
        r.push(u);
        p = p + 1;
    }
    r
}

/// A response is JSON when its content type, lower-cased, mentions `json`;
/// a missing or unreadable content type is not JSON.
pub open spec fn is_json_spec(content_type: Option<Seq<char>>) -> bool {
    match content_type {
        Some(ct) => contains_seq(spec_to_lowercase(ct), "json"@),
        None => false,
    }
}

/// Whether a response with this content type is read as JSON.
pub fn is_json_content_type(content_type: Option<&str>) -> (r: bool)
    ensures
        r == is_json_spec(
            match content_type {
                Some(c) => Some(c@),
                None => None,
            },
        ),
{
    proof {
        reveal_strlit("json");
    }
    match content_type {
        Some(ct) => {
            let lower = crate::text::to_lowercase(ct);
            crate::text::str_contains(lower.as_str(), "json")
        },
        None => false,
    }
}

/// The path applied to a JSON page: the first selector's CSS field, or empty.
pub open spec fn json_path(job: ScrapeJob) -> Seq<char> {
    if job.selectors@.len() > 0 {
        job.selectors@[0].css_selector@
    } else {
        Seq::empty()
    }
}

/// The records of a JSON page: the job's path applied to the document.
pub fn json_page_records(job: &ScrapeJob, doc: &JsonValue) -> (r: Vec<FieldMap>)
    ensures
        records_view(r@) == json_records(*doc, record_path(json_path(*job))),
{
    let r = if job.selectors.len() > 0 {
        extract_json_value(doc, job.selectors[0].css_selector.as_str())
    } else {
        proof {
            reveal_strlit("");
        }
        extract_json_value(doc, "")
    };
    assert(records_view(r@) == r@.map_values(|m: FieldMap| m@));
    r
}

/// The records of a JSON page: the body decoded as UTF-8 (malformed bytes
/// replaced), parsed as JSON, and the job's path applied to the document; or
/// the parse error's text.
pub fn json_body_records(job: &ScrapeJob, body: &[u8]) -> (r: Result<Vec<FieldMap>, String>)
    ensures
        match spec_parse_json(spec_utf8_lossy(body@)) {
            Ok(v) => r matches Ok(x) && records_view(x@) == json_records(v, record_path(json_path(*job))),
            Err(e) => r matches Err(m) && m@ == e,
        },
{
    let text = crate::text::utf8_lossy(body);
    let r = if job.selectors.len() > 0 {
        extract_json_text(text.as_str(), job.selectors[0].css_selector.as_str())
    } else {
        proof {
            reveal_strlit("");
        }
        extract_json_text(text.as_str(), "")
    };
    proof {
        if r is Ok {
            assert(records_view(r->Ok_0@) == r->Ok_0@.map_values(|m: FieldMap| m@));
        }
    }
    r
}

/// The records of an HTML page: the body decoded as UTF-8 (malformed bytes
/// replaced) and the job's selectors applied to it.
pub fn html_page_records(job: &ScrapeJob, page_url: &str, body: &[u8]) -> (r: Vec<FieldMap>)
    ensures
        records_view(r@) == html_records(spec_utf8_lossy(body@), page_url@, job.selectors@),
{
    let text = crate::text::utf8_lossy(body);
    let result = parse_html(text.as_str(), page_url, job.id.as_str(), &job.selectors);
    result.data
}

// ---------------------------------------------------------------------------
// Job results.
// ---------------------------------------------------------------------------

/// Total bytes of the pages.
pub open spec fn total_bytes(pages: Seq<(u64, Vec<FieldMap>)>) -> int
    decreases pages.len(),
{
    if pages.len() == 0 {
        0
    } else {
        total_bytes(pages.drop_last()) + pages.last().0
    }
}

/// The records of the pages, page after page.
pub open spec fn all_page_records(pages: Seq<(u64, Vec<FieldMap>)>) -> Seq<Entries>
    decreases pages.len(),
{
    if pages.len() == 0 {
        Seq::empty()
    } else {
        all_page_records(pages.drop_last()) + records_view(pages.last().1@)
    }
}

/// The result of a job whose pages were all fetched: the pages' records in
/// page order, the bytes summed, a success exactly when there is a record.
pub fn assemble_job_result(
    job: &ScrapeJob,
    pages: Vec<(u64, Vec<FieldMap>)>,
    now: Timestamp,
    duration_ms: u64,
) -> (r: ScrapeResult)
    requires
        total_bytes(pages@) <= u64::MAX,
    ensures
        records_view(r.data@) == all_page_records(pages@),
        r.bytes_fetched == total_bytes(pages@),
        r.record_count == r.data@.len(),
        r.id == 0,
        r.job_id@ == job.id@,
        r.url@ == job.url@,
        r.timestamp == now,
        r.duration_ms == duration_ms,
        r.data@.len() == 0 ==> r.status == ScrapeStatus::Failed && (r.error matches Some(e)
            && e@ == "No data extracted from the page"@),
        r.data@.len() > 0 ==> r.status == ScrapeStatus::Success && r.error is None,
{
    let ghost pv = pages@;
    let mut data: Vec<FieldMap> = Vec::new();
    let mut bytes: u64 = 0;
    let rest = pages;
    let n = rest.len();
    let mut j: usize = 0;
    while j < n
        invariant
            n == pv.len(),
            rest@.len() == n,
            rest@ == pv,
            j <= n,
            total_bytes(pv) <= u64::MAX,
            bytes == total_bytes(pv.take(j as int)),
            records_view(data@) == all_page_records(pv.take(j as int)),
        decreases n - j,
    {
        proof {
            lemma_total_bytes_prefix(pv, (j + 1) as int);
            assert(pv.take(j + 1).drop_last() =~= pv.take(j as int));
            assert(pv.take(j + 1).last() == pv[j as int]);
        }
        let page = &rest[j];
        bytes = bytes + page.0;
        let mut k: usize = 0;
        let ghost d0 = records_view(data@);
        while k < page.1.len()
            invariant
                k <= page.1@.len(),
                records_view(data@) =~= d0 + records_view(page.1@).take(k as int),
            decreases page.1.len() - k,
        {
            let m = page.1[k].clone();
            let ghost dv = data@;
            data.push(m);
            assert(records_view(data@) =~= records_view(dv).push(page.1@[k as int]@));
            assert(records_view(page.1@).take(k + 1) =~= records_view(page.1@).take(k as int).push(page.1@[k as int]@));
            k = k + 1;
        }
        assert(records_view(page.1@).take(page.1@.len() as int) =~= records_view(page.1@));
        assert(records_view(data@) =~= all_page_records(pv.take(j + 1)));
        j = j + 1;
    }
    assert(pv.take(n as int) =~= pv);
    let is_empty = data.len() == 0;
    let record_count = data.len();
    ScrapeResult {
        id: 0,
        job_id: job.id.clone(),
        url: job.url.clone(),
        timestamp: now,
        data,
        status: if is_empty {
            ScrapeStatus::Failed
        } else {
            ScrapeStatus::Success
        },
        error: if is_empty {
            Some(String::from_str("No data extracted from the page"))
        } else {
            None
        },
        duration_ms,
        bytes_fetched: bytes,
        record_count,
    }
}

proof fn lemma_total_bytes_prefix(pv: Seq<(u64, Vec<FieldMap>)>, k: int)
    requires
        0 <= k <= pv.len(),
    ensures
        0 <= total_bytes(pv.take(k)) <= total_bytes(pv),
    decreases pv.len() - k,
{
    lemma_total_bytes_nonneg(pv.take(k));
    if k < pv.len() {
        lemma_total_bytes_prefix(pv, k + 1);
        assert(pv.take(k + 1).drop_last() =~= pv.take(k));
    } else {
        assert(pv.take(k) =~= pv);
    }
}

proof fn lemma_total_bytes_nonneg(pv: Seq<(u64, Vec<FieldMap>)>)
    ensures
        total_bytes(pv) >= 0,
    decreases pv.len(),
{
    if pv.len() > 0 {
        lemma_total_bytes_nonneg(pv.drop_last());
    }
}

/// The result recorded for a run that ended with an error before any
/// result was produced.
pub fn failure_result(job: &ScrapeJob, error: String, now: Timestamp) -> (r: ScrapeResult)
    ensures
        r.id == 0,
        r.job_id@ == job.id@,
        r.url@ == job.url@,
        r.timestamp == now,
        r.data@.len() == 0,
        r.status == ScrapeStatus::Failed,
        r.error matches Some(e) && e@ == error@,
        r.duration_ms == 0,
        r.bytes_fetched == 0,
        r.record_count == 0,
{
    ScrapeResult {
        id: 0,
        job_id: job.id.clone(),
        url: job.url.clone(),
        timestamp: now,
        data: Vec::new(),
        status: ScrapeStatus::Failed,
        error: Some(error),
        duration_ms: 0,
        bytes_fetched: 0,
        record_count: 0,
    }
}

// ---------------------------------------------------------------------------
// Selecting jobs.
// ---------------------------------------------------------------------------

/// The indices of the enabled jobs, in order.
pub open spec fn enabled_indices(jobs: Seq<ScrapeJob>) -> Seq<int>
    decreases jobs.len(),
{
    if jobs.len() == 0 {
        Seq::empty()
    } else if jobs.last().enabled {
        enabled_indices(jobs.drop_last()).push(jobs.len() - 1)
    } else {
        enabled_indices(jobs.drop_last())
    }
}

/// The indices of the enabled jobs, in order (the jobs that "run all" runs).
pub fn enabled_jobs(jobs: &Vec<ScrapeJob>) -> (r: Vec<usize>)
    ensures
        r@.map_values(|i: usize| i as int) == enabled_indices(jobs@),
{
    let mut r: Vec<usize> = Vec::new();
    let mut i: usize = 0;
    while i < jobs.len()
        invariant
            i <= jobs@.len(),
            r@.map_values(|k: usize| k as int) =~= enabled_indices(jobs@.take(i as int)),
        decreases jobs.len() - i,
    {
        assert(jobs@.take(i + 1).drop_last() =~= jobs@.take(i as int));
        if jobs[i].enabled {
            r.push(i);
        }
        i = i + 1;
    }
    assert(jobs@.take(jobs@.len() as int) =~= jobs@);
    r
}

/// Index of the first job with id `id`, or -1.
pub open spec fn job_index(jobs: Seq<ScrapeJob>, id: Seq<char>) -> int
    decreases jobs.len(),
{
    if jobs.len() == 0 {
        -1
    } else {
        let r = job_index(jobs.drop_last(), id);
        if r >= 0 {
            r
        } else if jobs.last().id@ == id {
            jobs.len() - 1
        } else {
            -1
        }
    }
}

proof fn lemma_job_index(jobs: Seq<ScrapeJob>, id: Seq<char>)
    ensures
        -1 <= job_index(jobs, id) < jobs.len(),
        job_index(jobs, id) >= 0 ==> jobs[job_index(jobs, id)].id@ == id,
        job_index(jobs, id) >= 0 ==> forall|j: int|
            0 <= j < job_index(jobs, id) ==> jobs[j].id@ != id,
        job_index(jobs, id) == -1 <==> forall|j: int| 0 <= j < jobs.len() ==> jobs[j].id@ != id,
    decreases jobs.len(),
{
    if jobs.len() > 0 {
        lemma_job_index(jobs.drop_last(), id);
        assert forall|j: int| 0 <= j < jobs.len() - 1 implies jobs.drop_last()[j] == jobs[j] by {}
    }
}

/// What `job_index` finds: the first job with the id, or -1 when none has it.
pub proof fn lemma_job_index_facts(jobs: Seq<ScrapeJob>, id: Seq<char>)
    ensures
        job_index(jobs, id) >= 0 ==> jobs[job_index(jobs, id)].id@ == id,
        job_index(jobs, id) >= 0 ==> forall|j: int| 0 <= j < job_index(jobs, id) ==> jobs[j].id@ != id,
        job_index(jobs, id) == -1 <==> forall|j: int| 0 <= j < jobs.len() ==> jobs[j].id@ != id,
{
    lemma_job_index(jobs, id);
}

/// An index found by `job_index` is in range.
pub proof fn lemma_job_index_bound(jobs: Seq<ScrapeJob>, id: Seq<char>)
    ensures
        -1 <= job_index(jobs, id) < jobs.len(),
{
    lemma_job_index(jobs, id);
}

/// The position of the job with id `id`.
pub fn find_job(jobs: &Vec<ScrapeJob>, id: &str) -> (r: Option<usize>)
    ensures
        match r {
            Some(i) => job_index(jobs@, id@) == i as int,
            None => job_index(jobs@, id@) == -1,
        },
{
    proof {
        lemma_job_index(jobs@, id@);
    }
    let mut i: usize = 0;
    while i < jobs.len()
        invariant
            i <= jobs@.len(),
            forall|j: int| 0 <= j < i ==> jobs@[j].id@ != id@,
            -1 <= job_index(jobs@, id@) < jobs@.len(),
            job_index(jobs@, id@) >= 0 ==> jobs@[job_index(jobs@, id@)].id@ == id@,
            job_index(jobs@, id@) >= 0 ==> forall|j: int|
                0 <= j < job_index(jobs@, id@) ==> jobs@[j].id@ != id@,
            job_index(jobs@, id@) == -1 <==> forall|j: int|
                0 <= j < jobs@.len() ==> jobs@[j].id@ != id@,
        decreases jobs.len() - i,
    {
        if crate::field_map::str_equal(jobs[i].id.as_str(), id) {
            return Some(i);
        }
        i = i + 1;
    }
    None
}

/// The ids among `stored` that no job in `jobs` has, in order: the stored
/// jobs to delete when the job list is written back.
pub open spec fn removed_ids(stored: Seq<Seq<char>>, jobs: Seq<ScrapeJob>) -> Seq<Seq<char>>
    decreases stored.len(),
{
    if stored.len() == 0 {
        Seq::empty()
    } else if job_index(jobs, stored.last()) == -1 {
        removed_ids(stored.drop_last(), jobs).push(stored.last())
    } else {
        removed_ids(stored.drop_last(), jobs)
    }
}

/// The stored job ids that are no longer among `jobs`.
pub fn jobs_to_delete(stored_ids: &Vec<String>, jobs: &Vec<ScrapeJob>) -> (r: Vec<String>)
    ensures
        views_of(r@) == removed_ids(views_of(stored_ids@), jobs@),
{
    let ghost sv = views_of(stored_ids@);
    let mut r: Vec<String> = Vec::new();
    let mut i: usize = 0;
    while i < stored_ids.len()
        invariant
            sv == views_of(stored_ids@),
            i <= sv.len(),
            views_of(r@) =~= removed_ids(sv.take(i as int), jobs@),
        decreases stored_ids.len() - i,
    {
        assert(sv.take(i + 1).drop_last() =~= sv.take(i as int));
        assert(sv.take(i + 1).last() == stored_ids@[i as int]@);
        if find_job(jobs, stored_ids[i].as_str()).is_none() {
            r.push(stored_ids[i].clone());
        }
        i = i + 1;
    }
    assert(sv.take(sv.len() as int) =~= sv);
    r
}

/// The character sequences of some strings.
pub open spec fn views_of(v: Seq<String>) -> Seq<Seq<char>> {
    v.map_values(|s: String| s@)
}

// ---------------------------------------------------------------------------
// Engine statistics.
// ---------------------------------------------------------------------------

/// Counters and per-job state of the engine.
#[derive(Debug)]
pub struct EngineStats {
    total_requests: u64,
    successful_requests: u64,
    failed_requests: u64,
    total_bytes_fetched: u64,
    active_jobs: u32,
    running_job_ids: Vec<String>,
    last_runs: Vec<(String, ScrapeResult)>,
}

/// Abstract engine statistics.
#[verifier::ext_equal]
pub struct StatsView {
    pub total_requests: int,
    pub successful_requests: int,
    pub failed_requests: int,
    pub total_bytes_fetched: int,
    pub active_jobs: int,
    /// Ids of the jobs that are running.
    pub running: Set<Seq<char>>,
    /// The latest run of each job that has run, by job id, in the order the
    /// jobs first ran.
    pub last_runs: Seq<(Seq<char>, ScrapeResult)>,
}

/// Every counter within the range of its machine type.
pub open spec fn counters_fit(s: StatsView) -> bool {
    &&& 0 <= s.total_requests <= u64::MAX
    &&& 0 <= s.successful_requests <= u64::MAX
    &&& 0 <= s.failed_requests <= u64::MAX
    &&& 0 <= s.total_bytes_fetched <= u64::MAX
    &&& 0 <= s.active_jobs <= u32::MAX
}

/// The statistics once a run of job `id` starts: one more active job, and the
/// job among the running ones.
pub open spec fn begin_spec(s: StatsView, id: Seq<char>) -> StatsView {
    StatsView { active_jobs: s.active_jobs + 1, running: s.running.insert(id), ..s }
}

/// The statistics once a run of job `id` ends with `run`. A run that failed
/// with an error before producing a result (`errored`; `run` is then the
/// recorded failure) counts as one failed request. Otherwise the run counts as
/// one request, its bytes are added, and it counts as successful or failed by
/// its status. Either way the job stops running and `run` becomes its latest
/// run.
pub open spec fn finish_spec(s: StatsView, id: Seq<char>, run: ScrapeResult, errored: bool) -> StatsView {
    StatsView {
        total_requests: if errored {
            s.total_requests
        } else {
            s.total_requests + 1
        },
        successful_requests: if !errored && run.status == ScrapeStatus::Success {
            s.successful_requests + 1
        } else {
            s.successful_requests
        },
        failed_requests: if errored || run.status != ScrapeStatus::Success {
            s.failed_requests + 1
        } else {
            s.failed_requests
        },
        total_bytes_fetched: if errored {
            s.total_bytes_fetched
        } else {
            s.total_bytes_fetched + run.bytes_fetched
        },
        active_jobs: s.active_jobs - 1,
        running: s.running.remove(id),
        last_runs: run_set(s.last_runs, id, run),
    }
}

/// Index of the entry for `id` among the last runs, or -1.
pub open spec fn run_find(runs: Seq<(Seq<char>, ScrapeResult)>, id: Seq<char>) -> int
    decreases runs.len(),
{
    if runs.len() == 0 {
        -1
    } else {
        let r = run_find(runs.drop_last(), id);
        if r >= 0 {
            r
        } else if runs.last().0 == id {
            runs.len() - 1
        } else {
            -1
        }
    }
}

/// The last runs with `run` recorded for `id`.
pub open spec fn run_set(runs: Seq<(Seq<char>, ScrapeResult)>, id: Seq<char>, run: ScrapeResult) -> Seq<
    (Seq<char>, ScrapeResult),
> {
    let i = run_find(runs, id);
    if i >= 0 {
        runs.update(i, (id, run))
    } else {
        runs.push((id, run))
    }
}

proof fn lemma_run_find(runs: Seq<(Seq<char>, ScrapeResult)>, id: Seq<char>)
    ensures
        -1 <= run_find(runs, id) < runs.len(),
        run_find(runs, id) >= 0 ==> runs[run_find(runs, id)].0 == id,
        run_find(runs, id) >= 0 ==> forall|j: int| 0 <= j < run_find(runs, id) ==> runs[j].0 != id,
        run_find(runs, id) == -1 <==> forall|j: int| 0 <= j < runs.len() ==> runs[j].0 != id,
    decreases runs.len(),
{
    if runs.len() > 0 {
        lemma_run_find(runs.drop_last(), id);
        assert forall|j: int| 0 <= j < runs.len() - 1 implies runs.drop_last()[j] == runs[j] by {}
    }
}

impl EngineStats {
    /// No job is listed twice among the running ones.
    #[verifier::type_invariant]
    closed spec fn inv(self) -> bool {
        views_of(self.running_job_ids@).no_duplicates()
    }

    pub closed spec fn view(&self) -> StatsView {
        StatsView {
            total_requests: self.total_requests as int,
            successful_requests: self.successful_requests as int,
            failed_requests: self.failed_requests as int,
            total_bytes_fetched: self.total_bytes_fetched as int,
            active_jobs: self.active_jobs as int,
            running: views_of(self.running_job_ids@).to_set(),
            last_runs: self.last_runs@.map_values(|e: (String, ScrapeResult)| (e.0@, e.1)),
        }
    }

    /// All counters zero, nothing running, no runs recorded.
    pub fn new() -> (s: EngineStats)
        ensures
            s.view().total_requests == 0,
            s.view().successful_requests == 0,
            s.view().failed_requests == 0,
            s.view().total_bytes_fetched == 0,
            s.view().active_jobs == 0,
            s.view().running == Set::<Seq<char>>::empty(),
            s.view().last_runs == Seq::<(Seq<char>, ScrapeResult)>::empty(),
            counters_fit(s.view()),
    {
        let ids: Vec<String> = Vec::new();
        assert(views_of(ids@).no_duplicates());
        let s = EngineStats {
            total_requests: 0,
            successful_requests: 0,
            failed_requests: 0,
            total_bytes_fetched: 0,
            active_jobs: 0,
            running_job_ids: ids,
            last_runs: Vec::new(),
        };
        assert(s.view().running =~= Set::<Seq<char>>::empty());
        assert(s.view().last_runs =~= Seq::<(Seq<char>, ScrapeResult)>::empty());
        s
    }

    /// The counters of any statistics are within their machine ranges.
    pub proof fn lemma_counters_fit(&self)
        ensures
            counters_fit(self.view()),
    {
    }

    pub fn total_requests(&self) -> (n: u64)
        ensures
            n == self.view().total_requests,
    {
        self.total_requests
    }

    pub fn successful_requests(&self) -> (n: u64)
        ensures
            n == self.view().successful_requests,
    {
        self.successful_requests
    }

    pub fn failed_requests(&self) -> (n: u64)
        ensures
            n == self.view().failed_requests,
    {
        self.failed_requests
    }

    pub fn total_bytes_fetched(&self) -> (n: u64)
        ensures
            n == self.view().total_bytes_fetched,
    {
        self.total_bytes_fetched
    }

    pub fn active_jobs(&self) -> (n: u32)
        ensures
            n == self.view().active_jobs,
    {
        self.active_jobs
    }

    /// Whether job `id` is running.
    pub fn is_running(&self, id: &str) -> (b: bool)
        ensures
            b == self.view().running.contains(id@),
    {
        let ghost ids = views_of(self.running_job_ids@);
        let mut i: usize = 0;
        while i < self.running_job_ids.len()
            invariant
                ids == views_of(self.running_job_ids@),
                i <= ids.len(),
                forall|j: int| 0 <= j < i ==> ids[j] != id@,
            decreases self.running_job_ids.len() - i,
        {
            assert(ids[i as int] == self.running_job_ids@[i as int]@);
            if crate::field_map::str_equal(self.running_job_ids[i].as_str(), id) {
                assert(ids.contains(id@));
                return true;
            }
            i = i + 1;
        }
        assert(!ids.contains(id@));
        false
    }

    /// The latest recorded run of job `id`.
    pub fn last_run(&self, id: &str) -> (r: Option<&ScrapeResult>)
        ensures
            match r {
                Some(res) => run_find(self.view().last_runs, id@) >= 0 && *res == self.view().last_runs[run_find(
                    self.view().last_runs,
                    id@,
                )].1,
                None => run_find(self.view().last_runs, id@) == -1,
            },
    {
        match self.run_index(id) {
            Some(i) => Some(&self.last_runs[i].1),
            None => None,
        }
    }

    fn run_index(&self, id: &str) -> (r: Option<usize>)
        ensures
            match r {
                Some(i) => run_find(self.view().last_runs, id@) == i as int && i < self.last_runs@.len(),
                None => run_find(self.view().last_runs, id@) == -1,
            },
    {
        let ghost runs = self.view().last_runs;
        proof {
            lemma_run_find(runs, id@);
        }
        let mut i: usize = 0;
        while i < self.last_runs.len()
            invariant
                runs == self.view().last_runs,
                runs.len() == self.last_runs@.len(),
                i <= runs.len(),
                forall|j: int| 0 <= j < i ==> runs[j].0 != id@,
                -1 <= run_find(runs, id@) < runs.len(),
                run_find(runs, id@) >= 0 ==> runs[run_find(runs, id@)].0 == id@,
                run_find(runs, id@) >= 0 ==> forall|j: int|
                    0 <= j < run_find(runs, id@) ==> runs[j].0 != id@,
                run_find(runs, id@) == -1 <==> forall|j: int| 0 <= j < runs.len() ==> runs[j].0 != id@,
            decreases self.last_runs.len() - i,
        {
            assert(runs[i as int] == (self.last_runs@[i as int].0@, self.last_runs@[i as int].1));
            if crate::field_map::str_equal(self.last_runs[i].0.as_str(), id) {
                return Some(i);
            }
            i = i + 1;
        }
        None
    }

    /// The ids of the running jobs, each once.
    pub fn running_ids(&self) -> (r: Vec<String>)
        ensures
            views_of(r@).to_set() == self.view().running,
            views_of(r@).no_duplicates(),
    {
        proof {
            use_type_invariant(self);
        }
        let mut r: Vec<String> = Vec::new();
        let mut i: usize = 0;
        while i < self.running_job_ids.len()
            invariant
                i <= self.running_job_ids@.len(),
                views_of(r@) =~= views_of(self.running_job_ids@).take(
                    i as int,
                ),
            decreases self.running_job_ids.len() - i,
        {
            let ghost rv = r@;
            r.push(self.running_job_ids[i].clone());
            assert(views_of(r@) =~= views_of(rv).push(self.running_job_ids@[i as int]@));
            assert(views_of(self.running_job_ids@).take(i + 1) =~= views_of(self.running_job_ids@).take(i as int).push(self.running_job_ids@[i as int]@));
            i = i + 1;
        }
        assert(views_of(self.running_job_ids@).take(
            self.running_job_ids@.len() as int,
        ) =~= views_of(self.running_job_ids@));
        r
    }

    /// Records that a run of job `id` starts.
    pub fn begin_job(&mut self, id: &str)
        requires
            old(self).view().active_jobs < u32::MAX,
        ensures
            final(self).view() == begin_spec(old(self).view(), id@),
            final(self).view().active_jobs == old(self).view().active_jobs + 1,
            counters_fit(old(self).view()),
            counters_fit(final(self).view()),
    {
        proof {
            use_type_invariant(&*self);
        }
        let ghost v0 = self.view();
        self.active_jobs = self.active_jobs + 1;
        if !self.is_running(id) {
            let ghost ids0 = views_of(self.running_job_ids@);
            assert(!ids0.contains(id@));
            let mut ids: Vec<String> = Vec::new();
            std::mem::swap(&mut ids, &mut self.running_job_ids);
            ids.push(String::from_str(id));
            assert(views_of(ids@) =~= ids0.push(id@));
            assert(ids0.push(id@).no_duplicates()) by {
                assert forall|a: int, b: int| 0 <= a < b < ids0.len() + 1 implies ids0.push(id@)[a] != ids0.push(id@)[b] by {
                    if b == ids0.len() {
                        assert(ids0[a] == ids0.push(id@)[a]);
                    }
                }
            }
            assert(ids0.push(id@).to_set() =~= ids0.to_set().insert(id@)) by {
                assert forall|x: Seq<char>| #[trigger] ids0.push(id@).contains(x) <==> (ids0.contains(x) || x == id@) by {
                    if ids0.push(id@).contains(x) {
                        let k = choose|k: int| 0 <= k < ids0.len() + 1 && ids0.push(id@)[k] == x;
                        if k < ids0.len() {
                            assert(ids0[k] == x);
                        }
                    }
                    if ids0.contains(x) {
                        let k = choose|k: int| 0 <= k < ids0.len() && ids0[k] == x;
                        assert(ids0.push(id@)[k] == x);
                    }
                    if x == id@ {
                        assert(ids0.push(id@)[ids0.len() as int] == x);
                    }
                }
            }
            self.running_job_ids = ids;
        } else {
            assert(v0.running.insert(id@) =~= v0.running);
        }
        assert(self.view().running =~= v0.running.insert(id@));
        assert(self.view().last_runs =~= v0.last_runs);
    }

    /// Records that a run of job `id` ended with `run`. `errored` says that
    /// the run failed with an error before producing a result (then `run` is
    /// the recorded failure): it counts as one failed request. Otherwise the
    /// run counts as one request, its bytes are added, and it counts as
    /// successful or failed by its status.
    pub fn finish_job(&mut self, id: &str, run: ScrapeResult, errored: bool)
        requires
            old(self).view().active_jobs > 0,
            old(self).view().failed_requests < u64::MAX,
            old(self).view().total_requests < u64::MAX,
            old(self).view().successful_requests < u64::MAX,
            old(self).view().total_bytes_fetched + run.bytes_fetched <= u64::MAX,
        ensures
            final(self).view() == finish_spec(old(self).view(), id@, run, errored),
            final(self).view().active_jobs == old(self).view().active_jobs - 1,
            counters_fit(old(self).view()),
            counters_fit(final(self).view()),
    {
        proof {
            use_type_invariant(&*self);
        }
        let ghost v0 = self.view();
        self.active_jobs = self.active_jobs - 1;
        self.remove_running(id);
        proof {
            use_type_invariant(&*self);
        }
        if errored {
            self.failed_requests = self.failed_requests + 1;
        } else {
            self.total_requests = self.total_requests + 1;
            self.total_bytes_fetched = self.total_bytes_fetched + run.bytes_fetched;
            match run.status {
                ScrapeStatus::Success => {
                    self.successful_requests = self.successful_requests + 1;
                },
                _ => {
                    self.failed_requests = self.failed_requests + 1;
                },
            }
        }
        let pos = self.run_index(id);
        let ghost runs0 = self.view().last_runs;
        assert(runs0 == v0.last_runs);
        let mut runs: Vec<(String, ScrapeResult)> = Vec::new();
        std::mem::swap(&mut runs, &mut self.last_runs);
        match pos {
            Some(i) => {
                runs.set(i, (String::from_str(id), run));
            },
            None => {
                runs.push((String::from_str(id), run));
            },
        }
        self.last_runs = runs;
        assert(self.view().last_runs =~= run_set(runs0, id@, run));
        assert(self.view() == finish_spec(v0, id@, run, errored));
    }

    fn remove_running(&mut self, id: &str)
        ensures
            final(self).view() == (StatsView {
                running: old(self).view().running.remove(id@),
                ..old(self).view()
            }),
    {
        proof {
            use_type_invariant(&*self);
        }
        let ghost v0 = self.view();
        let ghost ids0 = views_of(self.running_job_ids@);
        let mut kept: Vec<String> = Vec::new();
        let mut i: usize = 0;
        while i < self.running_job_ids.len()
            invariant
                ids0 == views_of(self.running_job_ids@),
                ids0.no_duplicates(),
                i <= ids0.len(),
                views_of(kept@).no_duplicates(),
                forall|x: Seq<char>|
                    #[trigger] views_of(kept@).contains(x) <==> (x != id@
                        && ids0.take(i as int).contains(x)),
            decreases self.running_job_ids.len() - i,
        {
            let ghost kv0 = views_of(kept@);
            assert(ids0[i as int] == self.running_job_ids@[i as int]@);
            let keep = !crate::field_map::str_equal(self.running_job_ids[i].as_str(), id);
            if keep {
                assert(!kv0.contains(ids0[i as int])) by {
                    if ids0.take(i as int).contains(ids0[i as int]) {
                        let k = choose|k: int| 0 <= k < i && ids0.take(i as int)[k] == ids0[i as int];
                        assert(ids0[k] == ids0[i as int]);
                    }
                }
                kept.push(self.running_job_ids[i].clone());
                assert(views_of(kept@) =~= kv0.push(ids0[i as int]));
                assert(kv0.push(ids0[i as int]).no_duplicates()) by {
                    assert forall|a: int, b: int| 0 <= a < b < kv0.len() + 1 implies kv0.push(ids0[i as int])[a] != kv0.push(ids0[i as int])[b] by {
                        if b == kv0.len() {
                            assert(kv0[a] == kv0.push(ids0[i as int])[a]);
                        }
                    }
                }
            }
            assert forall|x: Seq<char>|
                #[trigger] views_of(kept@).contains(x) <==> (x != id@
                    && ids0.take(i + 1).contains(x)) by {
                let kv = views_of(kept@);
                let t1 = ids0.take(i + 1);
                let t0 = ids0.take(i as int);
                if t1.contains(x) {
                    let k = choose|k: int| 0 <= k < t1.len() && t1[k] == x;
                    if k < i {
                        assert(t0[k] == x);
                    }
                }
                if t0.contains(x) {
                    let k = choose|k: int| 0 <= k < t0.len() && t0[k] == x;
                    assert(t1[k] == x);
                }
                if x == ids0[i as int] {
                    assert(t1[i as int] == x);
                }
                if keep {
                    if kv.contains(x) {
                        let k = choose|k: int| 0 <= k < kv.len() && kv[k] == x;
                        if k < kv0.len() {
                            assert(kv0[k] == x);
                        }
                    }
                    if kv0.contains(x) {
                        let k = choose|k: int| 0 <= k < kv0.len() && kv0[k] == x;
                        assert(kv[k] == x);
                    }
                    if x == ids0[i as int] {
                        assert(kv[kv0.len() as int] == x);
                    }
                }
            }
            i = i + 1;
        }
        assert(ids0.take(ids0.len() as int) =~= ids0);
        self.running_job_ids = kept;
        assert(self.view().running =~= v0.running.remove(id@));
        assert(self.view().last_runs =~= v0.last_runs);
    }
}

impl Clone for EngineStats {
    /// A copy with the same counters, the same running jobs and the same jobs
    /// with a recorded run, in the same order (each run is copied with its
    /// derived `clone`).
    fn clone(&self) -> (r: EngineStats)
        ensures
            r.view().total_requests == self.view().total_requests,
            r.view().successful_requests == self.view().successful_requests,
            r.view().failed_requests == self.view().failed_requests,
            r.view().total_bytes_fetched == self.view().total_bytes_fetched,
            r.view().active_jobs == self.view().active_jobs,
            r.view().running == self.view().running,
            r.view().last_runs.len() == self.view().last_runs.len(),
            forall|i: int| 0 <= i < r.view().last_runs.len() ==> (#[trigger] r.view().last_runs[i]).0 == self.view().last_runs[i].0,
    {
        proof {
            use_type_invariant(self);
        }
        let ghost ids0 = views_of(self.running_job_ids@);
        let mut ids: Vec<String> = Vec::new();
        let mut i: usize = 0;
        while i < self.running_job_ids.len()
            invariant
                ids0 == views_of(self.running_job_ids@),
                i <= ids0.len(),
                views_of(ids@) =~= ids0.take(i as int),
            decreases self.running_job_ids.len() - i,
        {
            let ghost before = ids@;
            ids.push(self.running_job_ids[i].clone());
            assert(views_of(ids@) =~= views_of(before).push(ids0[i as int]));
            assert(ids0.take(i + 1) =~= ids0.take(i as int).push(ids0[i as int]));
            i = i + 1;
        }
        assert(ids0.take(ids0.len() as int) =~= ids0);
        let mut runs: Vec<(String, ScrapeResult)> = Vec::new();
        let mut k: usize = 0;
        while k < self.last_runs.len()
            invariant
                k <= self.last_runs@.len(),
                runs@.len() == k,
                forall|j: int| 0 <= j < k ==> (#[trigger] runs@[j]).0@ == self.last_runs@[j].0@,
            decreases self.last_runs.len() - k,
        {
            let e = &self.last_runs[k];
            runs.push((e.0.clone(), e.1.clone()));
            k = k + 1;
        }
        EngineStats {
            total_requests: self.total_requests,
            successful_requests: self.successful_requests,
            failed_requests: self.failed_requests,
            total_bytes_fetched: self.total_bytes_fetched,
            active_jobs: self.active_jobs,
            running_job_ids: ids,
            last_runs: runs,
        }
    }
}

/// A run that starts and ends leaves the number of active jobs as it was,
/// and, when the job was not already running, the running set too.
pub proof fn law_begin_finish_balance(s: StatsView, id: Seq<char>, run: ScrapeResult, errored: bool)
    ensures
        finish_spec(begin_spec(s, id), id, run, errored).active_jobs == s.active_jobs,
        !s.running.contains(id) ==> finish_spec(begin_spec(s, id), id, run, errored).running == s.running,
        !finish_spec(begin_spec(s, id), id, run, errored).running.contains(id),
{
    assert(!s.running.contains(id) ==> s.running.insert(id).remove(id) =~= s.running);
}

/// Successful requests never outnumber requests: starting and ending runs
/// keeps the count of successful requests at most the count of requests.
pub proof fn law_successful_within_total(s: StatsView, id: Seq<char>, run: ScrapeResult, errored: bool)
    requires
        s.successful_requests <= s.total_requests,
    ensures
        begin_spec(s, id).successful_requests <= begin_spec(s, id).total_requests,
        finish_spec(s, id, run, errored).successful_requests <= finish_spec(s, id, run, errored).total_requests,
{
}

/// Once a run ends, it is the job's latest run.
pub proof fn law_finish_records_run(s: StatsView, id: Seq<char>, run: ScrapeResult, errored: bool)
    ensures
        run_find(finish_spec(s, id, run, errored).last_runs, id) >= 0,
        finish_spec(s, id, run, errored).last_runs[run_find(finish_spec(s, id, run, errored).last_runs, id)].1 == run,
{
    let l = s.last_runs;
    lemma_run_find(l, id);
    let l2 = run_set(l, id, run);
    lemma_run_find(l2, id);
    if run_find(l, id) >= 0 {
        assert(l2[run_find(l, id)].0 == id);
    } else {
        assert(l2[l.len() as int].0 == id);
    }
}

/// A job whose URL holds `{page}` fetches exactly `max_pages` pages (one
/// when unset), page `p` at the URL with `{page}` replaced by `p`; any other
/// job fetches its URL once.
pub proof fn law_pages(job: ScrapeJob)
    ensures
        !contains_seq(job.url@, page_placeholder()) ==> page_count(job) == 1 && page_url(job, 1) == job.url@,
        contains_seq(job.url@, page_placeholder()) ==> page_count(job) == match job.max_pages {
            Some(m) => m as nat,
            None => 1nat,
        },
{
}

/// "Run all" selects exactly the enabled jobs, each once and in job order:
/// index `i` is selected when and only when job `i` is enabled, whatever its
/// other fields.
pub proof fn law_run_all_selects_enabled(jobs: Seq<ScrapeJob>)
    ensures
        forall|i: int| enabled_indices(jobs).contains(i) <==> (0 <= i < jobs.len() && jobs[i].enabled),
        forall|a: int, b: int|
            0 <= a < b < enabled_indices(jobs).len() ==> enabled_indices(jobs)[a] < enabled_indices(jobs)[b],
    decreases jobs.len(),
{
    if jobs.len() > 0 {
        let prev = jobs.drop_last();
        law_run_all_selects_enabled(prev);
        let ep = enabled_indices(prev);
        let e = enabled_indices(jobs);
        assert forall|i: int| ep.contains(i) implies 0 <= i < prev.len() by {}
        assert forall|i: int| e.contains(i) <==> (0 <= i < jobs.len() && jobs[i].enabled) by {
            if jobs.last().enabled {
                assert(e == ep.push(jobs.len() - 1));
                if e.contains(i) {
                    let k = choose|k: int| 0 <= k < e.len() && e[k] == i;
                    if k < ep.len() {
                        assert(ep[k] == i);
                        assert(ep.contains(i));
                        assert(prev[i] == jobs[i]);
                    }
                }
                if 0 <= i < jobs.len() && jobs[i].enabled {
                    if i < jobs.len() - 1 {
                        assert(prev[i] == jobs[i]);
                        assert(ep.contains(i));
                        let k = choose|k: int| 0 <= k < ep.len() && ep[k] == i;
                        assert(e[k] == i);
                    } else {
                        assert(e[ep.len() as int] == i);
                    }
                }
            } else {
                assert(e == ep);
                if e.contains(i) {
                    assert(prev[i] == jobs[i]);
                }
                if 0 <= i < jobs.len() && jobs[i].enabled {
                    assert(i != jobs.len() - 1);
                    assert(prev[i] == jobs[i]);
                }
            }
        }
        if jobs.last().enabled {
            assert forall|a: int, b: int| 0 <= a < b < e.len() implies e[a] < e[b] by {
                if b == ep.len() {
                    assert(ep.contains(ep[a]));
                }
            }
        }
    }
}

} // verus!

//! The data model: scrape jobs, selectors, results and application settings.
use vstd::prelude::*;

use crate::field_map::FieldMap;

verus! {

/// Largest magnitude of a timestamp's whole seconds (covers the calendar range
/// that the date library can represent).
pub const MAX_ABS_SECS: i64 = 10_000_000_000_000;

/// A point in time, UTC, as whole seconds since 1970-01-01 00:00:00 plus a
/// nanosecond fraction.
#[derive(Debug, Clone, Copy, PartialEq, Eq)]
pub struct Timestamp {
    secs: i64,
    nanos: u32,
}

impl View for Timestamp {
    /// (whole seconds since the epoch, nanoseconds within that second)
    type V = (int, int);

    closed spec fn view(&self) -> (int, int) {
        (self.secs as int, self.nanos as int)
    }
}

/// A pair (seconds, nanoseconds) that a `Timestamp` can hold.
pub open spec fn valid_time(secs: int, nanos: int) -> bool {
    &&& -MAX_ABS_SECS <= secs <= MAX_ABS_SECS
    &&& 0 <= nanos < 1_000_000_000
}

impl Timestamp {
    #[verifier::type_invariant]
    closed spec fn inv(self) -> bool {
        valid_time(self.secs as int, self.nanos as int)
    }

    /// The timestamp `secs` seconds and `nanos` nanoseconds after the epoch,
    /// when the pair is in range.
    pub fn from_parts(secs: i64, nanos: u32) -> (r: Option<Timestamp>)
        ensures
            r is Some <==> valid_time(secs as int, nanos as int),
            r matches Some(t) ==> t@ == (secs as int, nanos as int),
    {
        if -MAX_ABS_SECS <= secs && secs <= MAX_ABS_SECS && nanos < 1_000_000_000 {
            Some(Timestamp { secs, nanos })
        } else {
            None
        }
    }

    /// 1970-01-01 00:00:00, the value that stands for "never".
    pub fn epoch() -> (r: Timestamp)
        ensures
            r@ == (0int, 0int),
    {
        Timestamp { secs: 0, nanos: 0 }
    }

    /// Whole seconds since the epoch.
    pub fn secs(&self) -> (r: i64)
        ensures
            r == self@.0,
            valid_time(self@.0, self@.1),
    {
        proof {
            use_type_invariant(self);
        }
        self.secs
    }

    /// Nanoseconds within the second.
    pub fn nanos(&self) -> (r: u32)
        ensures
            r == self@.1,
            valid_time(self@.0, self@.1),
    {
        proof {
            use_type_invariant(self);
        }
        self.nanos
    }

    /// Two timestamps are equal exactly when their views are.
    pub fn same_instant(&self, other: &Timestamp) -> (r: bool)
        ensures
            r == (self@ == other@),
    {
        self.secs == other.secs && self.nanos == other.nanos
    }
}

/// `chrono::Utc::now()`, as its whole seconds (`timestamp`) and nanosecond
/// fraction (`timestamp_subsec_nanos`). Of the instant nothing is stated.
/// Both parts are in the range that chrono documents for a `DateTime<Utc>`
/// (years within +-262143, well inside `MAX_ABS_SECS`); the fraction stays
/// below one second, since chrono builds the value from the system clock,
/// which has no leap second. chrono panics when the system clock reads before
/// 1970, a state of the machine that no `requires` can express.
#[verifier::external_body]
fn clock_now() -> (r: (i64, u32))
    ensures
        valid_time(r.0 as int, r.1 as int),
{
    let t = chrono::Utc::now();
    (t.timestamp(), t.timestamp_subsec_nanos())
}

/// The current time, UTC.
pub fn now_utc() -> Timestamp {
    let (secs, nanos) = clock_now();
    Timestamp { secs, nanos }
}

#[verifier::external_type_specification]
#[verifier::external_body]
pub struct ExInstant(std::time::Instant);

/// `std::time::Instant::now()`: a reading of the monotonic clock.
#[verifier::external_body]
pub(crate) fn instant_now() -> std::time::Instant {
    std::time::Instant::now()
}

/// Whole milliseconds elapsed since `start` (`Instant::elapsed().as_millis()`,
/// cast to `u64`). Nothing is stated of the amount.
#[verifier::external_body]
pub(crate) fn elapsed_ms(start: &std::time::Instant) -> u64 {
    start.elapsed().as_millis() as u64
}

/// Format of an automatic export.
#[derive(Debug, Clone, Copy, PartialEq, Eq, Structural)]
pub enum ExportFormat {
    Csv,
    Json,
}

/// What a selector takes from a matched element.
#[derive(Debug, Clone, PartialEq)]
pub enum ExtractType {
    /// The element's text, its text pieces joined by single spaces and trimmed.
    Text,
    /// The element's inner HTML.
    Html,
    /// The value of the named attribute, or empty.
    Attribute(String),
    /// The `href` attribute resolved against the page URL.
    Link,
    /// The `src` attribute resolved against the page URL.
    Image,
}

impl Default for ExtractType {
    fn default() -> (r: ExtractType)
        ensures
            r is Text,
    {
        ExtractType::Text
    }
}

/// HTTP method of a request.
#[derive(Debug, Clone, Copy, PartialEq, Eq, Structural)]
pub enum HttpMethod {
    Get,
    Post,
    Put,
    Delete,
}

/// A named CSS selector (for HTML pages) or path (for JSON responses).
#[derive(Debug, Clone)]
pub struct Selector {
    pub name: String,
    pub css_selector: String,
    pub extract: ExtractType,
}

/// A configured scraping job.
#[derive(Debug, Clone)]
pub struct ScrapeJob {
    pub id: String,
    pub name: String,
    pub url: String,
    pub selectors: Vec<Selector>,
    pub headers: FieldMap,
    pub method: HttpMethod,
    pub body: Option<String>,
    pub interval_minutes: Option<u64>,
    pub max_pages: Option<u32>,
    pub next_link_selector: Option<String>,
    pub concurrency: u32,
    pub proxy: Option<String>,
    pub user_agent: Option<String>,
    pub auto_export: Option<ExportFormat>,
    pub enabled: bool,
}

/// Outcome of a scrape.
#[derive(Debug, Clone, Copy, PartialEq, Eq, Structural)]
pub enum ScrapeStatus {
    Success,
    Failed,
}

/// The result of running a job (or of parsing one page).
#[derive(Debug, Clone)]
pub struct ScrapeResult {
    pub id: i64,
    pub job_id: String,
    pub url: String,
    pub timestamp: Timestamp,
    pub data: Vec<FieldMap>,
    pub status: ScrapeStatus,
    pub error: Option<String>,
    pub duration_ms: u64,
    pub bytes_fetched: u64,
    pub record_count: usize,
}

/// Colour theme of the user interface.
#[derive(Debug, Clone, Copy, PartialEq, Eq, Structural)]
pub enum Theme {
    Dark,
    Light,
    System,
}

impl Default for Theme {
    fn default() -> (r: Theme)
        ensures
            r == Theme::Dark,
    {
        Theme::Dark
    }
}

/// Application settings. The window size is held in whole pixels.
#[derive(Debug, Clone)]
pub struct AppConfig {
    pub max_concurrent_requests: u32,
    pub request_timeout_secs: u64,
    pub user_agent: String,
    pub database_path: String,
    pub export_path: String,
    pub theme: Theme,
    pub window_width: u32,
    pub window_height: u32,
    pub max_response_bytes: u64,
}

/// Default cap on the size of a fetched response body: 64 MiB.
pub fn default_max_bytes() -> (r: u64)
    ensures
        r == 64 * 1024 * 1024,
{
    64 * 1024 * 1024
}

impl Default for AppConfig {
    fn default() -> (r: AppConfig)
        ensures
            r.max_concurrent_requests == 10,
            r.request_timeout_secs == 30,
            r.user_agent@ == "DataScraper/1.0 (+https://github.com/datascraper)"@,
            r.database_path@ == "data_scraper.db"@,
            r.export_path@ == "exports"@,
            r.theme == Theme::Dark,
            r.window_width == 1280,
            r.window_height == 800,
            r.max_response_bytes == 64 * 1024 * 1024,
    {
        AppConfig {
            max_concurrent_requests: 10,
            request_timeout_secs: 30,
            user_agent: String::from_str("DataScraper/1.0 (+https://github.com/datascraper)"),
            database_path: String::from_str("data_scraper.db"),
            export_path: String::from_str("exports"),
            theme: Theme::Dark,
            window_width: 1280,
            window_height: 800,
            max_response_bytes: default_max_bytes(),
        }
    }
}

} // verus!

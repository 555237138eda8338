//! Verified core of a web data scraper: the data model, HTML and JSON record
//! extraction, character-set detection, retry and scheduling decisions, job
//! bookkeeping and export tables.
pub mod charset;
pub mod engine;
pub mod export;
pub mod field_map;
pub mod html;
pub mod json;
pub mod retry;
pub mod schedule;
pub mod stored;
pub mod text;
pub mod types;
pub mod ui;

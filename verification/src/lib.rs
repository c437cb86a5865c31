//! Record-projection and alert-aggregation core of a forensic log-analysis
//! engine: field projection over structured event records, `%Token%` template
//! resolution, timestamp-keyed alert aggregation, deterministic record
//! flattening, and config-table loading.
pub mod aliases;
pub mod csvio;
pub mod detect;
pub mod flatten;
pub mod maps;
pub mod message;
pub mod numtext;
pub mod patterns;
pub mod projector;
pub mod record;
pub mod store;
pub mod text;
pub mod timefmt;
pub mod utils;

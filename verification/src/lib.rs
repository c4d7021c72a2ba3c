//! Core engine of a URL health monitor: probe-window debouncing, transition
//! detection and cadence, alert batching, registry semantics and the
//! persisted record codec, all verified.

pub mod aggregator;
pub mod checker;
pub mod codec;
pub mod jsontext;
pub mod record;
pub mod registry;
pub mod response;
pub mod routes;
pub mod status;
pub mod strorder;
pub mod urlcheck;
pub mod window;

pub use record::Report;
pub use record::UrlValue;
pub use status::ReportStatus;
pub use status::Status;

//! Routing of structured log events to sinks keyed by target, with an
//! optional fallback sink for events that no sink claims.
//!
//! The library decides which sinks receive an event and renders the exact
//! file record and console line each of them writes; performing those writes
//! is left to the caller.
pub mod format;
pub mod level;
pub mod router;
pub mod sink;

pub use format::{console_line, hex_digit, json_string, record_line};
pub use level::Level;
pub use router::Logger;
pub use sink::{CustomLogger, Delivery, LogEvent};

//! Normalises legacy colour and format escapes in sign text.
//!
//! A line of sign text may hold escapes written with the trigger `&`. The
//! display layer reads escapes written with its own marker, `§`. This crate
//! rewrites the former into the latter, line by line, and says which buffers
//! of a host-owned line collection have to be replaced for it.

pub mod collapse;
pub mod engine;
pub mod plan;
pub mod rule;
pub mod store;
pub mod text;

pub use collapse::{collapse_escaped_triggers, holds_trigger, CANONICAL_MARKER, TRIGGER};
pub use plan::{after_install, sign_event_callback, HostCall, ReplacementError};
pub use rule::{PatternError, PatternRule, CANONICAL_REPLACEMENT, ESCAPE_PATTERN};

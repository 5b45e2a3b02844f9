//! Profiling of coding-agent tool calls recorded as hook events.
//!
//! The library pairs `PreToolUse` and `PostToolUse` hook events, aggregates
//! per-tool statistics, orders calls for reports, formats token counts, builds
//! log entries from the JSON text of hook input, reads and edits the hook
//! section of settings files and decides when the dashboard reloads its log.

pub mod analysis;
pub mod dashboard;
pub mod format;
pub mod hook;
pub mod json;
pub mod report;
pub mod settings;
pub mod sorting;
pub mod timestamp;
pub mod tokens;
pub mod watch;

use vstd::prelude::*;

verus! {

} // verus!

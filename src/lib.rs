//! Audits a developer's push history against a daily commit quota and reports,
//! for each day that falls short, the backdated commit commands that would fill it.
//!
//! The pipeline is pure: [`tally::aggregate`] buckets events by UTC calendar day,
//! [`deficiency::find_deficiencies`] walks the audited days and records each
//! shortfall, and [`command::synthesize_commands`] renders the remediation commands.
pub mod calendar;
pub mod command;
pub mod deficiency;
pub mod event;
pub mod range;
pub mod tally;
pub mod threshold;

pub use command::synthesize_commands;
pub use deficiency::{audit, find_deficiencies, DeficiencyEntry};
pub use event::{ActivityEvent, EventKind};
pub use range::{AuditRange, RangeError};
pub use tally::{aggregate, DailyCount};
pub use threshold::resolve_threshold;

//! The coordinator of a streaming database: it assigns linearizable
//! timestamps to reads and writes, tracks for every maintained arrangement
//! the frontier of available times (`upper`) and of compacted times
//! (`since`), derives compaction from progress, validates that reads can be
//! served, installs and drops dataflows, and mirrors catalog changes in the
//! system tables.
use vstd::prelude::*;

pub mod antichain;
pub mod catalog;
pub mod coordinator;
pub mod dataflow;
pub mod expr;
pub mod frontiers;
pub mod messages;
pub mod oracle;
pub mod plans;
pub mod types;
pub mod upper;

pub use coordinator::Coordinator;
pub use expr::split_subquery_predicates;
pub use messages::{
    AdvanceSourceTimestamp, LoggingConfig, Message, SinkConnectorReady, StatementReady,
};

verus! {

} // verus!

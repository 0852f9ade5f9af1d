use vstd::prelude::*;

use crate::antichain::Antichain;
use crate::catalog::SinkConnector;
use crate::types::{Datum, GlobalId};

verus! {

/// How the workers log their own activity.
#[derive(Clone, Copy, Debug, PartialEq, Eq, Structural)]
pub struct LoggingConfig {
    /// The width of a logging bucket, in milliseconds.
    pub granularity_ms: u64,
    pub log_logging: bool,
}

/// A statement whose purification finished off the event loop.
pub struct StatementReady {
    pub conn_id: u32,
    /// The purified SQL text, or why purification failed.
    pub result: Result<String, String>,
    pub params: Vec<Datum>,
}

/// The external resource of a sink was built, or failed to build.
pub struct SinkConnectorReady {
    pub conn_id: u32,
    pub id: GlobalId,
    pub oid: u32,
    pub result: Result<SinkConnector, String>,
}

/// A source timestamper closed times of a source instance.
pub struct AdvanceSourceTimestamp {
    pub source_id: GlobalId,
    pub instance: u64,
    pub advance_to: Antichain,
}

/// What the workers report.
pub enum WorkerFeedback {
    /// Changes of the upper frontier of arrangements.
    FrontierUppers(Vec<(GlobalId, Vec<(u64, i64)>)>),
    CreateSource { source_id: GlobalId, instance: u64 },
    DroppedSource { source_id: GlobalId, instance: u64 },
}

/// A client request that needs no session state.
pub enum ClientCommand {
    CancelRequest { conn_id: u32 },
    Terminate { conn_id: u32 },
}

/// A message on one of the event loop's streams.
pub enum Message {
    Command(ClientCommand),
    Worker(WorkerFeedback),
    AdvanceSourceTimestamp(AdvanceSourceTimestamp),
    StatementReady(StatementReady),
    SinkConnectorReady(SinkConnectorReady),
    Shutdown,
}

/// A sink whose connector is still being built: the placeholder item that
/// reserves its name, and what building the connector needs.
pub struct PendingSink {
    pub from: GlobalId,
    /// The frontier from which the sink's updates start.
    pub frontier: Antichain,
    pub with_snapshot: bool,
    pub as_of: Option<u64>,
    pub item: crate::catalog::CatalogItem,
}

/// What to do once the builder of a sink's connector has finished.
#[derive(Clone, Copy, Debug, PartialEq, Eq, Structural)]
pub enum SinkReadyAction {
    /// Replace the placeholder with the ready sink, ship its dataflow, and
    /// report success.
    ShipAndReport,
    /// The sink was dropped meanwhile: report success (the external state
    /// exists and is the client's to clean up), ship nothing.
    ReportOnly,
    /// The build failed: drop the placeholder and report the error.
    DropPlaceholder,
}

/// The second phase of creating a sink, by whether the connector was built
/// and whether the sink is still in the catalog.
pub open spec fn sink_ready_spec(build_succeeded: bool, still_in_catalog: bool) -> SinkReadyAction {
    if !build_succeeded {
        SinkReadyAction::DropPlaceholder
    } else if still_in_catalog {
        SinkReadyAction::ShipAndReport
    } else {
        SinkReadyAction::ReportOnly
    }
}

/// Decides the second phase of creating a sink.
pub fn sink_connector_ready_action(build_succeeded: bool, still_in_catalog: bool) -> (r:
    SinkReadyAction)
    ensures
        r == sink_ready_spec(build_succeeded, still_in_catalog),
        !build_succeeded ==> r == SinkReadyAction::DropPlaceholder,
        build_succeeded && still_in_catalog ==> r == SinkReadyAction::ShipAndReport,
        build_succeeded && !still_in_catalog ==> r == SinkReadyAction::ReportOnly,
{
    if !build_succeeded {
        SinkReadyAction::DropPlaceholder
    } else if still_in_catalog {
        SinkReadyAction::ShipAndReport
    } else {
        SinkReadyAction::ReportOnly
    }
}

/// A duration, given in milliseconds, as a timestamp: saturates at the
/// largest timestamp.
pub fn duration_to_timestamp_millis(millis: u128) -> (r: u64)
    ensures
        millis <= u64::MAX ==> r == millis,
        millis > u64::MAX ==> r == u64::MAX,
{
    if millis > u64::MAX as u128 {
        u64::MAX
    } else {
        millis as u64
    }
}

/// What executing a portal of a session calls for.
#[derive(Clone, Copy, Debug, PartialEq, Eq, Structural)]
pub enum ExecuteDecision {
    /// No portal of that name: answer with an error, change nothing.
    PortalMissing,
    /// The portal holds no statement: answer that the query was empty.
    EmptyQuery,
    /// Purify the portal's statement off the event loop, then plan it.
    Purify,
}

/// Decides how to execute a portal, by whether it exists and whether it
/// holds a statement.
pub fn execute_portal(portal_exists: bool, has_statement: bool) -> (r: ExecuteDecision)
    ensures
        !portal_exists ==> r == ExecuteDecision::PortalMissing,
        portal_exists && !has_statement ==> r == ExecuteDecision::EmptyQuery,
        portal_exists && has_statement ==> r == ExecuteDecision::Purify,
{
    if !portal_exists {
        ExecuteDecision::PortalMissing
    } else if has_statement {
        ExecuteDecision::Purify
    } else {
        ExecuteDecision::EmptyQuery
    }
}

/// What to tell the source cacher about a new source.
#[derive(Clone, Copy, Debug, PartialEq, Eq, Structural)]
pub enum CacheAction {
    /// Start caching the source.
    AddSource(GlobalId),
    /// The source asks for caching, but caching is off: report it.
    CachingDisabled(GlobalId),
    /// The source is not cached.
    Nothing,
}

/// Decides whether to begin caching the source `id`: only an external source
/// with caching enabled is cached, and only where a cacher runs.
pub fn maybe_begin_caching(id: GlobalId, source_caching_enabled: bool, cacher_running: bool) -> (r:
    CacheAction)
    ensures
        !source_caching_enabled ==> r == CacheAction::Nothing,
        source_caching_enabled && cacher_running ==> r == CacheAction::AddSource(id),
        source_caching_enabled && !cacher_running ==> r == CacheAction::CachingDisabled(id),
{
    if !source_caching_enabled {
        CacheAction::Nothing
    } else if cacher_running {
        CacheAction::AddSource(id)
    } else {
        CacheAction::CachingDisabled(id)
    }
}

} // verus!

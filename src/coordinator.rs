use std::collections::HashMap;
use vstd::prelude::*;

use crate::antichain::{frontier_le, join_spec, le_time, Antichain};
use crate::catalog::{
    CatalogItem, SinkConnectorState, catalog_effects, dropped_sinks, dropped_sources, event_wf, events_updates, updates_view,
    CatalogEvent, SpecUpdate, SystemUpdate,
};
use crate::dataflow::{choose_fast_path, DataflowDesc, PeekCandidate, Update, WorkerCommand};
use crate::frontiers::{since_join, upper_meet, ArrangementFrontiers, Frontiers};
use crate::messages::{ClientCommand, Message, SinkConnectorReady, StatementReady, WorkerFeedback};
use crate::oracle::{local_advance, read_spec, write_spec, TimestampOracle};
use crate::frontiers::next_since;
use crate::upper::{apply_changes, total_mass, upper_counts};
use crate::types::GlobalId;

verus! {

broadcast use vstd::std_specs::hash::group_hash_axioms;

/// When a peek should read its inputs.
#[derive(Clone, Copy, Debug, PartialEq, Eq, Structural)]
pub enum PeekWhen {
    /// As late as the inputs are complete.
    Immediately,
    /// At exactly this time.
    AtTimestamp(u64),
}

/// Why no timestamp could be chosen for a read.
#[derive(Debug)]
pub enum TimestampError {
    /// Some input of the query is not materialized, so no time can be read
    /// immediately.
    NonMaterializedSources,
    /// These inputs have no complete timestamp yet.
    NoCompleteTimestamps { unstarted: Vec<GlobalId> },
    /// The time lies before the since frontier of these inputs.
    InvalidTimestamp { timestamp: u64, invalid: Vec<(GlobalId, Antichain)> },
}

/// An error of the coordinator's own bookkeeping.
#[derive(Debug, PartialEq, Eq, Structural)]
pub enum CoordError {
    /// The counter of transient ids is exhausted.
    TransientIdOverflow,
    /// No arrangement is tracked under this id.
    IndexNotFound(GlobalId),
}

/// What a peek reads: an arrangement the workers are asked to read, or
/// the rows of a constant relation, answered right away.
pub enum PeekTarget {
    Index(GlobalId),
    Rows(Vec<crate::types::Row>),
}

/// Why a peek could not be issued.
#[derive(Debug)]
pub enum PeekError {
    Timestamp(TimestampError),
    Coord(CoordError),
}

/// The compaction window that `ALTER INDEX` asks for.
#[derive(Clone, Copy, Debug, PartialEq, Eq, Structural)]
pub enum LogicalCompactionWindow {
    Off,
    Default,
    Custom(u64),
}

/// How the time of a read is chosen, given the inputs' frontiers: `since`
/// is the join of their since frontiers, `upper` the meet of their upper
/// frontiers, and `read_ts` what the timestamp oracle assigns to a read.
/// `None` where no time can be chosen.
pub open spec fn chosen_timestamp(
    since: Antichain,
    upper: Antichain,
    indexes_complete: bool,
    uses_tables: bool,
    read_ts: u64,
    when: PeekWhen,
) -> Option<u64> {
    let candidate = match when {
        PeekWhen::AtTimestamp(t) => Some(t),
        PeekWhen::Immediately => if !indexes_complete {
            None
        } else {
            let c = if uses_tables {
                Some(read_ts)
            } else {
                match upper.element {
                    Some(u) => if u > 0 {
                        Some((u - 1) as u64)
                    } else {
                        None
                    },
                    None => Some(u64::MAX),
                }
            };
            match c {
                Some(c) => if !le_time(since, c) && since.element.is_some() {
                    since.element
                } else {
                    Some(c)
                },
                None => None,
            }
        },
    };
    match candidate {
        Some(t) => if le_time(since, t) {
            Some(t)
        } else {
            None
        },
        None => None,
    }
}

/// What remains for the event loop after a message was handled here.
pub enum MessageOutcome {
    /// Nothing: the message was handled.
    Handled,
    /// The statement is to be planned and sequenced.
    Plan(StatementReady),
    /// The second phase of creating a sink is due (see
    /// `sink_connector_ready_action`).
    SinkReady(SinkConnectorReady),
    /// The source timestamper is to learn of a new source instance.
    AddSourceInstance { source_id: GlobalId, instance: u64 },
    /// The source timestamper is to forget a source instance.
    DropSourceInstance { source_id: GlobalId, instance: u64 },
    /// The session ended: its temporary items are to be dropped.
    Terminated { conn_id: u32 },
    /// Shutdown was requested: drain the internal messages and stop.
    Stop,
}

/// The coordinator's state: the timestamp oracle, the frontiers of every
/// maintained arrangement, pending compaction, the running tails, and the
/// commands issued to the workers, in order.
pub struct Coordinator {
    pub oracle: TimestampOracle,
    pub indexes: ArrangementFrontiers,
    /// Since frontiers that moved and were not yet announced to the workers.
    pub since_updates: Vec<(GlobalId, Antichain)>,
    /// For each connection running a tail, the sink that serves it.
    pub active_tails: HashMap<u32, GlobalId>,
    pub transient_id_counter: u64,
    /// How far since trails upper for new arrangements, if at all.
    pub logical_compaction_window_ms: Option<u64>,
    pub num_workers: u64,
    pub logging_granularity_ms: Option<u64>,
    /// Commands for the workers, oldest first.
    pub outbox: Vec<WorkerCommand>,
}

impl Coordinator {
    pub open spec fn wf(&self) -> bool {
        &&& self.indexes.wf()
        &&& self.num_workers <= i64::MAX
        &&& transient_ok(self.indexes.view(), self.transient_id_counter)
    }

    /// A coordinator with no tracked arrangements, reading local inputs from
    /// time one on.
    pub fn new(
        num_workers: u64,
        logical_compaction_window_ms: Option<u64>,
        logging_granularity_ms: Option<u64>,
    ) -> (r: Coordinator)
        requires
            num_workers <= i64::MAX,
        ensures
            r.wf(),
            r.indexes.view() == Map::<GlobalId, Frontiers>::empty(),
            r.since_updates@.len() == 0,
            r.active_tails@ == Map::<u32, GlobalId>::empty(),
            r.transient_id_counter == 1,
            r.oracle == (TimestampOracle {
                read_lower_bound: 1,
                closed_up_to: 1,
                last_op_was_read: false,
                need_advance: true,
            }),
            r.outbox@.len() == 0,
            r.num_workers == num_workers,
            r.logical_compaction_window_ms == logical_compaction_window_ms,
            r.logging_granularity_ms == logging_granularity_ms,
    {
        Coordinator {
            oracle: TimestampOracle::new(),
            indexes: ArrangementFrontiers::new(),
            since_updates: Vec::new(),
            active_tails: HashMap::new(),
            transient_id_counter: 1,
            logical_compaction_window_ms,
            num_workers,
            logging_granularity_ms,
            outbox: Vec::new(),
        }
    }

    /// Allocates a fresh transient id.
    pub fn allocate_transient_id(&mut self) -> (r: Result<GlobalId, CoordError>)
        ensures
            final(self).num_workers == old(self).num_workers,
            final(self).logging_granularity_ms == old(self).logging_granularity_ms,
            final(self).logical_compaction_window_ms == old(self).logical_compaction_window_ms,
            old(self).transient_id_counter == u64::MAX ==> r == Err::<GlobalId, CoordError>(
                CoordError::TransientIdOverflow,
            ) && *final(self) == *old(self),
            old(self).transient_id_counter < u64::MAX ==> r == Ok::<GlobalId, CoordError>(
                GlobalId::Transient(old(self).transient_id_counter),
            ) && final(self).transient_id_counter == old(self).transient_id_counter + 1,
            final(self).oracle == old(self).oracle,
            final(self).indexes == old(self).indexes,
            final(self).outbox == old(self).outbox,
            final(self).active_tails == old(self).active_tails,
            final(self).since_updates == old(self).since_updates,
    {
        let id = self.transient_id_counter;
        if id == u64::MAX {
            return Err(CoordError::TransientIdOverflow);
        }
        self.transient_id_counter = id + 1;
        Ok(GlobalId::Transient(id))
    }

    /// Chooses the time at which to read the arrangements `index_ids`, which
    /// the catalog named as the nearest indexes of the query's inputs.
    /// `indexes_complete` says whether every input is materialized, and
    /// `uses_tables` whether some input is a table; `now` is the clock.
    #[verifier::rlimit(60)]
    pub fn determine_timestamp(
        &mut self,
        index_ids: &Vec<GlobalId>,
        indexes_complete: bool,
        uses_tables: bool,
        when: PeekWhen,
        now: u64,
    ) -> (r: Result<u64, TimestampError>)
        requires
            old(self).wf(),
        ensures
            final(self).num_workers == old(self).num_workers,
            final(self).logical_compaction_window_ms == old(self).logical_compaction_window_ms,
            final(self).logging_granularity_ms == old(self).logging_granularity_ms,
            final(self).wf(),
            final(self).indexes == old(self).indexes,
            final(self).outbox == old(self).outbox,
            final(self).since_updates == old(self).since_updates,
            final(self).active_tails == old(self).active_tails,
            final(self).transient_id_counter == old(self).transient_id_counter,
            ({
                let reads_clock = when == PeekWhen::Immediately && indexes_complete && uses_tables;
                let read = read_spec(old(self).oracle, now);
                let since = since_join(old(self).indexes.view(), index_ids@);
                let upper = upper_meet(old(self).indexes.view(), index_ids@);
                let chosen = chosen_timestamp(
                    since,
                    upper,
                    indexes_complete,
                    uses_tables,
                    read.1,
                    when,
                );
                &&& final(self).oracle == (if reads_clock {
                    read.0
                } else {
                    old(self).oracle
                })
                &&& r is Ok <==> chosen.is_some()
                &&& r is Ok ==> r->Ok_0 == chosen.unwrap()
                &&& (when == PeekWhen::Immediately && !indexes_complete) ==> r
                    is Err && r->Err_0 is NonMaterializedSources
                &&& (when is AtTimestamp && r is Err) ==> r->Err_0 is InvalidTimestamp
                    && r->Err_0->timestamp == when->AtTimestamp_0
                &&& (when == PeekWhen::Immediately && indexes_complete && !uses_tables
                    && upper.element == Some(0u64)) ==> r is Err && r->Err_0 is NoCompleteTimestamps
                &&& (when == PeekWhen::Immediately && indexes_complete && !(!uses_tables
                    && upper.element == Some(0u64)) && r is Err) ==> r->Err_0 is InvalidTimestamp
                &&& (r is Err && r->Err_0 is NoCompleteTimestamps) ==> r->Err_0->unstarted@
                    == unstarted_list(old(self).indexes.view(), index_ids@)
                &&& (r is Err && r->Err_0 is InvalidTimestamp) ==> r->Err_0->invalid@
                    == invalid_list(old(self).indexes.view(), index_ids@, r->Err_0->timestamp)
            }),
    {
        let since = self.indexes.least_valid_since(index_ids);
        let timestamp = match when {
            PeekWhen::AtTimestamp(t) => t,
            PeekWhen::Immediately => {
                if !indexes_complete {
                    return Err(TimestampError::NonMaterializedSources);
                }
                let mut candidate = if uses_tables {
                    self.oracle.get_read_ts(now)
                } else {
                    let upper = self.indexes.greatest_open_upper(index_ids);
                    match upper.element {
                        Some(u) => {
                            if u > 0 {
                                u - 1
                            } else {
                                let mut unstarted: Vec<GlobalId> = Vec::new();
                                let mut i: usize = 0;
                                while i < index_ids.len()
                                    invariant
                                        0 <= i <= index_ids@.len(),
                                        self.indexes.wf(),
                                        unstarted@ == unstarted_list(self.indexes.view(), index_ids@.take(i as int)),
                                    decreases index_ids.len() - i,
                                {
                                    proof {
                                        assert(index_ids@.take(i as int + 1).drop_last() =~= index_ids@.take(i as int));
                                    }
                                    if let Some(up) = self.indexes.upper_of(index_ids[i]) {
                                        if up.less_equal(0) {
                                            unstarted.push(index_ids[i]);
                                        }
                                    }
                                    i = i + 1;
                                }
                                proof {
                                    assert(index_ids@.take(index_ids@.len() as int) =~= index_ids@);
                                }
                                return Err(TimestampError::NoCompleteTimestamps { unstarted });
                            }
                        },
                        None => u64::MAX,
                    }
                };
                if !since.less_equal(candidate) {
                    if let Some(s) = since.element {
                        candidate = s;
                    }
                }
                candidate
            },
        };
        if since.less_equal(timestamp) {
            Ok(timestamp)
        } else {
            let mut invalid: Vec<(GlobalId, Antichain)> = Vec::new();
            let mut i: usize = 0;
            while i < index_ids.len()
                invariant
                    0 <= i <= index_ids@.len(),
                    self.indexes.wf(),
                    invalid@ == invalid_list(self.indexes.view(), index_ids@.take(i as int), timestamp),
                decreases index_ids.len() - i,
            {
                proof {
                    assert(index_ids@.take(i as int + 1).drop_last() =~= index_ids@.take(i as int));
                }
                if let Some(s) = self.indexes.since_of(index_ids[i]) {
                    if !s.less_equal(timestamp) {
                        invalid.push((index_ids[i], s));
                    }
                }
                i = i + 1;
            }
            proof {
                assert(index_ids@.take(index_ids@.len() as int) =~= index_ids@);
            }
            Err(TimestampError::InvalidTimestamp { timestamp, invalid })
        }
    }
    /// Sends system-table updates to the workers, each as its own insert at
    /// a write timestamp of the oracle.
    pub fn emit_system_updates(&mut self, updates: Vec<SystemUpdate>, now: u64)
        requires
            old(self).wf(),
        ensures
            final(self).num_workers == old(self).num_workers,
            final(self).logical_compaction_window_ms == old(self).logical_compaction_window_ms,
            final(self).logging_granularity_ms == old(self).logging_granularity_ms,
            final(self).wf(),
            final(self).indexes == old(self).indexes,
            final(self).since_updates == old(self).since_updates,
            final(self).active_tails == old(self).active_tails,
            final(self).transient_id_counter == old(self).transient_id_counter,
            final(self).oracle.read_lower_bound >= old(self).oracle.read_lower_bound,
            final(self).oracle.closed_up_to == old(self).oracle.closed_up_to,
            updates@.len() == 0 ==> final(self).oracle == old(self).oracle,
            final(self).outbox@.len() == old(self).outbox@.len() + updates@.len(),
            forall|i: int| 0 <= i < old(self).outbox@.len() ==> #[trigger] final(self).outbox@[i]
                == old(self).outbox@[i],
            forall|i: int|
                0 <= i < updates@.len() ==> #[trigger] system_insert_matches(
                    final(self).outbox@[old(self).outbox@.len() + i],
                    updates@[i],
                ),
    {
        let ghost u0 = updates@;
        let ghost start = self.outbox@.len();
        let _n = updates.len();
        let mut rest = updates;
        let mut i: usize = 0;
        while rest.len() > 0
            invariant
                0 <= i <= u0.len(),
                u0.len() <= usize::MAX,
                rest@ == u0.subrange(i as int, u0.len() as int),
                self.wf(),
                self.indexes == old(self).indexes,
                self.since_updates == old(self).since_updates,
                self.active_tails == old(self).active_tails,
                self.transient_id_counter == old(self).transient_id_counter,
                self.oracle.read_lower_bound >= old(self).oracle.read_lower_bound,
                self.oracle.closed_up_to == old(self).oracle.closed_up_to,
                i == 0 ==> self.oracle == old(self).oracle,
                self.num_workers == old(self).num_workers,
                self.logical_compaction_window_ms == old(self).logical_compaction_window_ms,
                self.logging_granularity_ms == old(self).logging_granularity_ms,
                start == old(self).outbox@.len(),
                self.outbox@.len() == start + i,
                forall|j: int| 0 <= j < start ==> #[trigger] self.outbox@[j] == old(self).outbox@[j],
                forall|j: int|
                    0 <= j < i ==> #[trigger] system_insert_matches(self.outbox@[start + j], u0[j]),
            decreases rest.len(),
        {
            let u = rest.remove(0);
            proof {
                assert(u == u0[i as int]);
            }
            let timestamp = self.oracle.get_write_ts(now);
            let SystemUpdate { table, row, diff } = u;
            let mut batch: Vec<Update> = Vec::new();
            batch.push(Update { row, diff, timestamp });
            self.outbox.push(WorkerCommand::InsertSystem { table, updates: batch });
            i = i + 1;
        }
    }

    /// Carries out what a batch of catalog events asks: reports each change
    /// in the system tables, then drops the dataflows of dropped sources,
    /// sinks and indexes, each group in one command.
    pub fn process_catalog_events(&mut self, events: &Vec<CatalogEvent>, now: u64)
        requires
            old(self).wf(),
            forall|i: int| 0 <= i < events@.len() ==> event_wf(#[trigger] events@[i]),
        ensures
            final(self).wf(),
            final(self).since_updates == old(self).since_updates,
            final(self).active_tails == old(self).active_tails,
            final(self).oracle.read_lower_bound >= old(self).oracle.read_lower_bound,
            forall|i: int| 0 <= i < old(self).outbox@.len() ==> #[trigger] final(self).outbox@[i]
                == old(self).outbox@[i],
            forall|k: GlobalId| #[trigger]
                final(self).indexes.view().contains_key(k) <==> old(self).indexes.view().contains_key(
                    k,
                ) && !crate::catalog::dropped_indexes(events@).contains(k),
            final(self).outbox@.len() >= old(self).outbox@.len() + events_updates(events@).len(),
            forall|i: int|
                0 <= i < events_updates(events@).len() ==> #[trigger] system_insert_is(
                    final(self).outbox@[old(self).outbox@.len() + i],
                    events_updates(events@)[i],
                ),
            dropped_sources(events@).len() > 0 ==> exists|k: int|
                old(self).outbox@.len() <= k < final(self).outbox@.len() && #[trigger] final(
                self).outbox@[k] == WorkerCommand::DropSources(final(self).outbox@[k]->DropSources_0)
                    && final(self).outbox@[k]->DropSources_0@ == dropped_sources(events@),
            dropped_sinks(events@).len() > 0 ==> exists|k: int|
                old(self).outbox@.len() <= k < final(self).outbox@.len() && #[trigger] final(
                self).outbox@[k] == WorkerCommand::DropSinks(final(self).outbox@[k]->DropSinks_0)
                    && final(self).outbox@[k]->DropSinks_0@ == dropped_sinks(events@),
            catalog_outbox(old(self).outbox@, events@, old(self).indexes.view(), final(self).outbox@),
            forall|k: GlobalId|
                final(self).indexes.view().contains_key(k) ==> #[trigger] final(self).indexes.view()[k]
                    == old(self).indexes.view()[k],
            final(self).num_workers == old(self).num_workers,
            final(self).logging_granularity_ms == old(self).logging_granularity_ms,
            final(self).logical_compaction_window_ms == old(self).logical_compaction_window_ms,
            final(self).transient_id_counter == old(self).transient_id_counter,
    {
        let effects = catalog_effects(events);
        let crate::catalog::CatalogEffects { updates, sources_to_drop, sinks_to_drop, indexes_to_drop } =
            effects;
        let ghost u = updates@;
        let ghost start = self.outbox@.len();
        self.emit_system_updates(updates, now);
        proof {
            assert forall|i: int| 0 <= i < u.len() implies #[trigger] system_insert_is(
                self.outbox@[start + i],
                events_updates(events@)[i],
            ) by {
                assert(system_insert_matches(self.outbox@[start + i], u[i]));
                assert(updates_view(u)[i] == crate::catalog::update_view(u[i]));
            }
        }
        let ghost mid = self.outbox@;
        if sources_to_drop.len() > 0 {
            self.outbox.push(WorkerCommand::DropSources(sources_to_drop));
            proof {
                let k = mid.len() as int;
                assert(self.outbox@[k] == WorkerCommand::DropSources(self.outbox@[k]->DropSources_0));
            }
        }
        let ghost mid2 = self.outbox@;
        if sinks_to_drop.len() > 0 {
            self.outbox.push(WorkerCommand::DropSinks(sinks_to_drop));
            proof {
                let k = mid2.len() as int;
                assert(self.outbox@[k] == WorkerCommand::DropSinks(self.outbox@[k]->DropSinks_0));
            }
        }
        let ghost mid3 = self.outbox@;
        let ghost ids = indexes_to_drop@;
        proof {
            assert(self.indexes.view() == old(self).indexes.view());
            if ids.len() == 0 {
                assert(dropped_in_order(old(self).indexes.view(), ids).len() == 0);
            }
        }
        if indexes_to_drop.len() > 0 {
            self.drop_indexes(indexes_to_drop);
        }
        proof {
            assert(mid.len() == start + u.len());
            assert forall|i: int| 0 <= i < mid3.len() implies #[trigger] self.outbox@[i] == mid3[i] by {}
            assert forall|i: int| 0 <= i < mid.len() implies #[trigger] self.outbox@[i] == mid[i] by {
                assert(mid3[i] == mid2[i]);
                assert(mid2[i] == mid[i]);
            }
            if dropped_sources(events@).len() > 0 {
                let k = mid.len() as int;
                assert(self.outbox@[k] == mid3[k]);
                assert(mid3[k] == mid2[k]);
            }
            if dropped_sinks(events@).len() > 0 {
                let k = mid2.len() as int;
                assert(self.outbox@[k] == mid3[k]);
            }
            assert forall|i: int| 0 <= i < u.len() implies #[trigger] system_insert_is(
                self.outbox@[start + i],
                events_updates(events@)[i],
            ) by {
                assert(self.outbox@[start + i] == mid[start + i]);
            }
            assert(catalog_outbox(old(self).outbox@, events@, old(self).indexes.view(), self.outbox@));
        }
    }

    /// Stops tracking the arrangements `ids` and tells the workers to drop
    /// those that were tracked, in one command, if there are any.
    pub fn drop_indexes(&mut self, ids: Vec<GlobalId>)
        requires
            old(self).wf(),
        ensures
            dropped_in_order(old(self).indexes.view(), ids@).len() == 0 ==> final(self).outbox
                == old(self).outbox,
            dropped_in_order(old(self).indexes.view(), ids@).len() > 0 ==> final(self).outbox@ == old(
                self).outbox@.push(WorkerCommand::DropIndexes(final(self).outbox@.last()->DropIndexes_0))
                && final(self).outbox@.last()->DropIndexes_0@ == dropped_in_order(
                old(self).indexes.view(),
                ids@,
            ),
            final(self).num_workers == old(self).num_workers,
            final(self).logging_granularity_ms == old(self).logging_granularity_ms,
            final(self).logical_compaction_window_ms == old(self).logical_compaction_window_ms,
            final(self).wf(),
            forall|k: GlobalId| #[trigger]
                final(self).indexes.view().contains_key(k) <==> old(self).indexes.view().contains_key(
                    k,
                ) && !ids@.contains(k),
            forall|k: GlobalId|
                final(self).indexes.view().contains_key(k) ==> #[trigger] final(self).indexes.view()[k]
                    == old(self).indexes.view()[k],
            final(self).oracle == old(self).oracle,
            final(self).since_updates == old(self).since_updates,
            final(self).active_tails == old(self).active_tails,
            final(self).transient_id_counter == old(self).transient_id_counter,
            forall|i: int| 0 <= i < old(self).outbox@.len() ==> #[trigger] final(self).outbox@[i]
                == old(self).outbox@[i],
            (exists|i: int| 0 <= i < ids@.len() && old(self).indexes.view().contains_key(
                #[trigger] ids@[i],
            )) ==> final(self).outbox@.len() == old(self).outbox@.len() + 1 && ({
                let cmd = final(self).outbox@.last();
                &&& final(self).outbox@ == old(self).outbox@.push(
                    WorkerCommand::DropIndexes(cmd->DropIndexes_0),
                )
                &&& cmd->DropIndexes_0@ == dropped_in_order(old(self).indexes.view(), ids@)
                &&& forall|k: GlobalId| #[trigger]
                    cmd->DropIndexes_0@.contains(k) <==> old(self).indexes.view().contains_key(k)
                        && ids@.contains(k)
            }),
            !(exists|i: int| 0 <= i < ids@.len() && old(self).indexes.view().contains_key(
                #[trigger] ids@[i],
            )) ==> final(self).outbox == old(self).outbox,
    {
        proof {
            lemma_dropped_nonempty(self.indexes.view(), ids@);
        }
        let mut trace_keys: Vec<GlobalId> = Vec::new();
        let mut i: usize = 0;
        while i < ids.len()
            invariant
                self.num_workers == old(self).num_workers,
                self.logging_granularity_ms == old(self).logging_granularity_ms,
                self.logical_compaction_window_ms == old(self).logical_compaction_window_ms,
                0 <= i <= ids@.len(),
                self.wf(),
                self.oracle == old(self).oracle,
                self.since_updates == old(self).since_updates,
                self.active_tails == old(self).active_tails,
                self.transient_id_counter == old(self).transient_id_counter,
                self.outbox == old(self).outbox,
                forall|k: GlobalId| #[trigger]
                    self.indexes.view().contains_key(k) <==> old(self).indexes.view().contains_key(k)
                        && !ids@.take(i as int).contains(k),
                forall|k: GlobalId|
                    self.indexes.view().contains_key(k) ==> #[trigger] self.indexes.view()[k]
                        == old(self).indexes.view()[k],
                trace_keys@ == dropped_in_order(old(self).indexes.view(), ids@.take(i as int)),
                forall|k: GlobalId| #[trigger]
                    trace_keys@.contains(k) <==> old(self).indexes.view().contains_key(k)
                        && ids@.take(i as int).contains(k),
            decreases ids.len() - i,
        {
            let id = ids[i];
            proof {
                assert(ids@.take(i as int + 1) =~= ids@.take(i as int).push(id));
                assert forall|k: GlobalId| #[trigger] ids@.take(i as int + 1).contains(k) == (ids@.take(
                    i as int,
                ).contains(k) || k == id) by {
                    lemma_push_contains(ids@.take(i as int), id, k);
                }
            }
            let ghost t0 = trace_keys@;
            proof {
                assert(ids@.take(i as int + 1).drop_last() =~= ids@.take(i as int));
                assert(ids@.take(i as int + 1).last() == id);
            }
            let removed = self.indexes.remove(id);
            if removed.is_some() {
                trace_keys.push(id);
                proof {
                    assert forall|k: GlobalId| #[trigger] trace_keys@.contains(k) == (t0.contains(k)
                        || k == id) by {
                        lemma_push_contains(t0, id, k);
                    }
                }
            }
            i = i + 1;
        }
        proof {
            assert(ids@.take(ids@.len() as int) =~= ids@);
        }
        if trace_keys.len() > 0 {
            proof {
                let k = trace_keys@[0];
                assert(trace_keys@.contains(k));
                let j = choose|j: int| 0 <= j < ids@.len() && ids@[j] == k;
                assert(old(self).indexes.view().contains_key(ids@[j]));
            }
            self.outbox.push(WorkerCommand::DropIndexes(trace_keys));
        } else {
            proof {
                assert forall|j: int| 0 <= j < ids@.len() implies !old(self).indexes.view().contains_key(#[trigger] ids@[j]) by {
                    if old(self).indexes.view().contains_key(ids@[j]) {
                        assert(ids@.contains(ids@[j]));
                        assert(trace_keys@.contains(ids@[j]));
                    }
                }
            }
        }
    }
    /// Applies worker progress for `id`; a since frontier that moved is
    /// queued for announcement to the workers.
    pub fn update_upper(&mut self, id: GlobalId, changes: Vec<(u64, i64)>)
        requires
            old(self).wf(),
        ensures
            final(self).num_workers == old(self).num_workers,
            final(self).logical_compaction_window_ms == old(self).logical_compaction_window_ms,
            final(self).logging_granularity_ms == old(self).logging_granularity_ms,
            final(self).wf(),
            final(self).oracle == old(self).oracle,
            final(self).outbox == old(self).outbox,
            final(self).active_tails == old(self).active_tails,
            final(self).transient_id_counter == old(self).transient_id_counter,
            upper_step(
                old(self).indexes.view(),
                old(self).since_updates@,
                final(self).indexes.view(),
                final(self).since_updates@,
                id,
                changes@,
            ),
    {
        if let Some(since) = self.indexes.update_upper(id, changes) {
            self.since_updates.push((id, since));
        }
        proof {
            assert(final(self).indexes.view().dom() =~= old(self).indexes.view().dom());
        }
    }

    /// Announces the since frontiers that moved, except empty ones, to the
    /// workers in one command, and clears the queue.
    pub fn maintenance(&mut self)
        ensures
            final(self).num_workers == old(self).num_workers,
            final(self).logging_granularity_ms == old(self).logging_granularity_ms,
            final(self).logical_compaction_window_ms == old(self).logical_compaction_window_ms,
            final(self).since_updates@.len() == 0,
            final(self).oracle == old(self).oracle,
            final(self).indexes == old(self).indexes,
            final(self).active_tails == old(self).active_tails,
            final(self).transient_id_counter == old(self).transient_id_counter,
            ({
                let kept = old(self).since_updates@.filter(
                    |u: (GlobalId, Antichain)| u.1.element.is_some(),
                );
                &&& kept.len() == 0 ==> final(self).outbox == old(self).outbox
                &&& kept.len() > 0 ==> final(self).outbox@ == old(self).outbox@.push(
                    WorkerCommand::AllowCompaction(final(self).outbox@.last()->AllowCompaction_0),
                ) && final(self).outbox@.last()->AllowCompaction_0@ == kept
            }),
    {
        let ghost s0 = self.since_updates@;
        let mut kept: Vec<(GlobalId, Antichain)> = Vec::new();
        let mut i: usize = 0;
        while i < self.since_updates.len()
            invariant
                0 <= i <= s0.len(),
                self.since_updates@ == s0,
                kept@ == s0.take(i as int).filter(|u: (GlobalId, Antichain)| u.1.element.is_some()),
            decreases self.since_updates.len() - i,
        {
            let u = self.since_updates[i];
            proof {
                assert(s0.take(i as int + 1).drop_last() =~= s0.take(i as int));
                reveal(Seq::filter);
            }
            if u.1.element.is_some() {
                kept.push(u);
            }
            i = i + 1;
        }
        proof {
            assert(s0.take(s0.len() as int) =~= s0);
        }
        self.since_updates = Vec::new();
        if kept.len() > 0 {
            self.outbox.push(WorkerCommand::AllowCompaction(kept));
        }
    }

    /// Handles the progress that the workers report, batch by batch in
    /// order, then announces the resulting compaction.
    pub fn handle_frontier_uppers(&mut self, updates: Vec<(GlobalId, Vec<(u64, i64)>)>)
        requires
            old(self).wf(),
        ensures
            final(self).num_workers == old(self).num_workers,
            final(self).logical_compaction_window_ms == old(self).logical_compaction_window_ms,
            final(self).logging_granularity_ms == old(self).logging_granularity_ms,
            final(self).wf(),
            final(self).since_updates@.len() == 0,
            final(self).oracle == old(self).oracle,
            final(self).active_tails == old(self).active_tails,
            final(self).transient_id_counter == old(self).transient_id_counter,
            exists|s: Seq<(GlobalId, Antichain)>|
                #[trigger] uppers_applied(
                    old(self).indexes.view(),
                    old(self).since_updates@,
                    final(self).indexes.view(),
                    s,
                    updates@,
                ) && maintenance_outcome(old(self).outbox@, s, final(self).outbox@),
    {
        let ghost u0 = updates@;
        let ghost v0 = self.indexes.view();
        let ghost s0 = self.since_updates@;
        let _n = updates.len();
        let mut rest = updates;
        let mut i: usize = 0;
        proof {
            assert(u0.take(0) =~= Seq::<(GlobalId, Vec<(u64, i64)>)>::empty());
        }
        while rest.len() > 0
            invariant
                0 <= i <= u0.len(),
                u0.len() <= usize::MAX,
                rest@ == u0.subrange(i as int, u0.len() as int),
                self.wf(),
                self.num_workers == old(self).num_workers,
                self.logical_compaction_window_ms == old(self).logical_compaction_window_ms,
                self.logging_granularity_ms == old(self).logging_granularity_ms,
                self.oracle == old(self).oracle,
                self.active_tails == old(self).active_tails,
                self.transient_id_counter == old(self).transient_id_counter,
                self.outbox == old(self).outbox,
                v0 == old(self).indexes.view(),
                s0 == old(self).since_updates@,
                uppers_applied(v0, s0, self.indexes.view(), self.since_updates@, u0.take(i as int)),
            decreases rest.len(),
        {
            let ghost v1 = self.indexes.view();
            let ghost s1 = self.since_updates@;
            let (id, changes) = rest.remove(0);
            let ghost ch = changes@;
            proof {
                assert((id, changes) == u0[i as int]);
                assert(u0.take(i as int + 1).drop_last() =~= u0.take(i as int));
                assert(u0.take(i as int + 1).last() == u0[i as int]);
            }
            self.update_upper(id, changes);
            proof {
                let t = u0.take(i as int + 1);
                assert(uppers_applied(v0, s0, v1, s1, t.drop_last()));
                assert(t.last().0 == id && t.last().1@ == ch);
                assert(upper_step(v1, s1, self.indexes.view(), self.since_updates@, t.last().0, t.last().1@));
                lemma_uppers_applied_step(v0, s0, v1, s1, self.indexes.view(), self.since_updates@, t);
            }
            i = i + 1;
        }
        proof {
            assert(u0.take(u0.len() as int) =~= u0);
        }
        let ghost s = self.since_updates@;
        let ghost vmid = self.indexes.view();
        let ghost omid = self.outbox@;
        proof {
            assert(self.wf());
        }
        self.maintenance();
        proof {
            assert(self.wf());
            assert(self.indexes.view() == vmid);
            assert(omid == old(self).outbox@);
            assert(uppers_applied(v0, s0, self.indexes.view(), s, u0));
            assert(maintenance_outcome(old(self).outbox@, s, self.outbox@));
            assert(u0 == updates@);
            assert(exists|s2: Seq<(GlobalId, Antichain)>|
                #[trigger] uppers_applied(v0, s0, self.indexes.view(), s2, u0)
                    && maintenance_outcome(old(self).outbox@, s2, self.outbox@));
        }
    }

    /// Registers the tail that `sink_id` serves for connection `conn_id`.
    pub fn register_tail(&mut self, conn_id: u32, sink_id: GlobalId)
        ensures
            final(self).transient_id_counter == old(self).transient_id_counter,
            final(self).num_workers == old(self).num_workers,
            final(self).logging_granularity_ms == old(self).logging_granularity_ms,
            final(self).logical_compaction_window_ms == old(self).logical_compaction_window_ms,
            final(self).active_tails@ == old(self).active_tails@.insert(conn_id, sink_id),
            final(self).oracle == old(self).oracle,
            final(self).indexes == old(self).indexes,
            final(self).outbox == old(self).outbox,
            final(self).since_updates == old(self).since_updates,
    {
        self.active_tails.insert(conn_id, sink_id);
    }

    /// Cancels the interactive work of a connection: drops its tail's sink
    /// if it runs one, else asks the workers to cancel its peek.
    pub fn handle_cancel(&mut self, conn_id: u32)
        ensures
            final(self).transient_id_counter == old(self).transient_id_counter,
            final(self).num_workers == old(self).num_workers,
            final(self).logging_granularity_ms == old(self).logging_granularity_ms,
            final(self).logical_compaction_window_ms == old(self).logical_compaction_window_ms,
            final(self).active_tails@ == old(self).active_tails@.remove(conn_id),
            old(self).active_tails@.contains_key(conn_id) ==> final(self).outbox@ == old(self).outbox@.push(WorkerCommand::DropSinks(final(self).outbox@.last()->DropSinks_0))
                && final(self).outbox@.last()->DropSinks_0@ == seq![
                old(self).active_tails@[conn_id],
            ],
            !old(self).active_tails@.contains_key(conn_id) ==> final(self).outbox@ == old(self).outbox@.push(WorkerCommand::CancelPeek { conn_id }),
            final(self).oracle == old(self).oracle,
            final(self).indexes == old(self).indexes,
            final(self).since_updates == old(self).since_updates,
    {
        match self.active_tails.remove(&conn_id) {
            Some(name) => {
                let mut sinks: Vec<GlobalId> = Vec::new();
                sinks.push(name);
                self.outbox.push(WorkerCommand::DropSinks(sinks));
            },
            None => {
                self.outbox.push(WorkerCommand::CancelPeek { conn_id });
            },
        }
    }

    /// The part of ending a session that the coordinator owns: the tail of
    /// the connection, if any, stops and its sink is dropped.
    pub fn terminate_tail(&mut self, conn_id: u32)
        ensures
            final(self).transient_id_counter == old(self).transient_id_counter,
            final(self).num_workers == old(self).num_workers,
            final(self).logging_granularity_ms == old(self).logging_granularity_ms,
            final(self).logical_compaction_window_ms == old(self).logical_compaction_window_ms,
            final(self).active_tails@ == old(self).active_tails@.remove(conn_id),
            old(self).active_tails@.contains_key(conn_id) ==> final(self).outbox@ == old(self).outbox@.push(WorkerCommand::DropSinks(final(self).outbox@.last()->DropSinks_0))
                && final(self).outbox@.last()->DropSinks_0@ == seq![
                old(self).active_tails@[conn_id],
            ],
            !old(self).active_tails@.contains_key(conn_id) ==> final(self).outbox == old(self).outbox,
            final(self).oracle == old(self).oracle,
            final(self).indexes == old(self).indexes,
            final(self).since_updates == old(self).since_updates,
    {
        if let Some(name) = self.active_tails.remove(&conn_id) {
            let mut sinks: Vec<GlobalId> = Vec::new();
            sinks.push(name);
            self.outbox.push(WorkerCommand::DropSinks(sinks));
        }
    }

    /// Sets the compaction window of an index: off, the coordinator's
    /// default, or a custom number of milliseconds. `None` (the index did not
    /// exist, or nothing was to be reset) changes nothing.
    pub fn sequence_alter_index_logical_compaction_window(
        &mut self,
        alter: Option<(GlobalId, LogicalCompactionWindow)>,
    ) -> (r: Result<(), CoordError>)
        requires
            old(self).wf(),
        ensures
            final(self).wf(),
            final(self).oracle == old(self).oracle,
            final(self).outbox == old(self).outbox,
            final(self).since_updates == old(self).since_updates,
            final(self).active_tails == old(self).active_tails,
            alter.is_none() ==> r is Ok && final(self).indexes == old(self).indexes,
            alter.is_some() ==> ({
                let (id, w) = alter.unwrap();
                let window = match w {
                    LogicalCompactionWindow::Off => None,
                    LogicalCompactionWindow::Default => old(self).logical_compaction_window_ms,
                    LogicalCompactionWindow::Custom(ms) => Some(ms),
                };
                &&& old(self).indexes.view().contains_key(id) ==> r is Ok
                    && final(self).indexes.view()[id].compaction_window_ms == window
                    && final(self).indexes.view()[id].since == old(self).indexes.view()[id].since
                    && final(self).indexes.view().dom() == old(self).indexes.view().dom()
                &&& !old(self).indexes.view().contains_key(id) ==> r == Err::<(), CoordError>(
                    CoordError::IndexNotFound(id),
                ) && final(self).indexes.view() == old(self).indexes.view()
            }),
    {
        let (id, w) = match alter {
            Some(a) => a,
            None => return Ok(()),
        };
        let window = match w {
            LogicalCompactionWindow::Off => None,
            LogicalCompactionWindow::Default => self.logical_compaction_window_ms,
            LogicalCompactionWindow::Custom(ms) => Some(ms),
        };
        if self.indexes.set_compaction_window_ms(id, window) {
            Ok(())
        } else {
            Err(CoordError::IndexNotFound(id))
        }
    }

    /// After each message: advances all local inputs when a timestamp was
    /// observed or a logging bucket was crossed (see
    /// `TimestampOracle::advance_local_inputs`).
    pub fn advance_local_inputs(&mut self, now: u64)
        ensures
            final(self).num_workers == old(self).num_workers,
            final(self).logical_compaction_window_ms == old(self).logical_compaction_window_ms,
            final(self).logging_granularity_ms == old(self).logging_granularity_ms,
            match local_advance(old(self).oracle, now, old(self).logging_granularity_ms) {
                Some(t) => final(self).oracle.closed_up_to == t && final(self).outbox@ == old(
                    self).outbox@.push((WorkerCommand::AdvanceAllLocalInputs { advance_to: t })),
                None => final(self).oracle.closed_up_to == old(self).oracle.closed_up_to
                    && final(self).outbox == old(self).outbox,
            },
            final(self).oracle.read_lower_bound == old(self).oracle.read_lower_bound,
            final(self).oracle.last_op_was_read == old(self).oracle.last_op_was_read,
            !final(self).oracle.need_advance,
            final(self).indexes == old(self).indexes,
            final(self).since_updates == old(self).since_updates,
            final(self).active_tails == old(self).active_tails,
            final(self).transient_id_counter == old(self).transient_id_counter,
    {
        if let Some(t) = self.oracle.advance_local_inputs(now, self.logging_granularity_ms) {
            self.outbox.push(WorkerCommand::AdvanceAllLocalInputs { advance_to: t });
        }
    }

    /// Assigns a write timestamp to user changes of table `id` and sends
    /// them to the workers; returns that timestamp.
    pub fn send_diffs(&mut self, id: GlobalId, updates: Vec<(crate::types::Row, i64)>, now: u64) -> (r: u64)
        ensures
            final(self).num_workers == old(self).num_workers,
            final(self).logging_granularity_ms == old(self).logging_granularity_ms,
            final(self).logical_compaction_window_ms == old(self).logical_compaction_window_ms,
            (final(self).oracle, r) == write_spec(old(self).oracle, now),
            final(self).outbox@.len() == old(self).outbox@.len() + 1,
            final(self).outbox@.drop_last() == old(self).outbox@,
            match final(self).outbox@.last() {
                WorkerCommand::Insert { id: id2, updates: u2 } => id2 == id && u2@.len()
                    == updates@.len() && forall|i: int|
                    0 <= i < updates@.len() ==> (#[trigger] u2@[i]).row == updates@[i].0
                        && u2@[i].diff == updates@[i].1 && u2@[i].timestamp == r,
                _ => false,
            },
            final(self).indexes == old(self).indexes,
            final(self).since_updates == old(self).since_updates,
            final(self).active_tails == old(self).active_tails,
    {
        let timestamp = self.oracle.get_write_ts(now);
        let ghost u0 = updates@;
        let _n = updates.len();
        let mut rest = updates;
        let mut batch: Vec<Update> = Vec::new();
        let mut i: usize = 0;
        while rest.len() > 0
            invariant
                0 <= i <= u0.len(),
                u0.len() <= usize::MAX,
                rest@ == u0.subrange(i as int, u0.len() as int),
                batch@.len() == i,
                forall|j: int|
                    0 <= j < i ==> (#[trigger] batch@[j]).row == u0[j].0 && batch@[j].diff == u0[j].1
                        && batch@[j].timestamp == timestamp,
            decreases rest.len(),
        {
            let (row, diff) = rest.remove(0);
            proof {
                assert((row, diff) == u0[i as int]);
            }
            batch.push(Update { row, diff, timestamp });
            i = i + 1;
        }
        self.outbox.push(WorkerCommand::Insert { id, updates: batch });
        proof {
            assert(self.outbox@.drop_last() =~= old(self).outbox@);
        }
        timestamp
    }
    /// Installs a dataflow: every arrangement it exports is tracked from
    /// the join of the since frontiers of the tracked arrangements it
    /// imports, with the upper of a fresh record (all workers at time zero);
    /// the external resources of its sinks are listed in the system tables;
    /// and its `as_of` is bound to that join, or raised to it where it lies
    /// below. Then the workers are told to build it: the command comes right
    /// after the system-table inserts, which are the only other commands.
    pub fn ship_dataflow(&mut self, dataflow: DataflowDesc, now: u64)
        requires
            old(self).wf(),
            forall|j: int|
                0 <= j < dataflow.index_exports@.len() ==> fresh_for(
                    #[trigger] dataflow.index_exports@[j].id,
                    old(self).transient_id_counter,
                ),
        ensures
            final(self).wf(),
            ({
                let since = since_join(old(self).indexes.view(), dataflow.index_imports@);
                let exports = dataflow.index_exports@;
                let rows = sink_export_rows(dataflow.sink_exports@);
                let n = old(self).outbox@.len();
                &&& forall|j: int|
                    0 <= j < exports.len() ==> final(self).indexes.view().contains_key(
                        #[trigger] exports[j].id,
                    ) && final(self).indexes.view()[exports[j].id].since == since
                        && final(self).indexes.view()[exports[j].id].compaction_window_ms == old(
                        self).logical_compaction_window_ms
                        && final(self).indexes.view()[exports[j].id].upper_spec() == fresh_upper(
                        old(self).num_workers,
                        bound_as_of(dataflow.as_of, since),
                    ) && frontier_le(
                        final(self).indexes.view()[exports[j].id].since,
                        final(self).indexes.view()[exports[j].id].upper_spec(),
                    )
                &&& forall|k: GlobalId|
                    (forall|j: int| 0 <= j < exports.len() ==> #[trigger] exports[j].id != k) ==> (
                    final(self).indexes.view().contains_key(k) == old(self).indexes.view().contains_key(k))
                        && (#[trigger] final(self).indexes.view().contains_key(k) ==> final(self).indexes.view()[k]
                        == old(self).indexes.view()[k])
                &&& final(self).outbox@.len() == n + rows.len() + 1
                &&& forall|i: int| 0 <= i < n ==> #[trigger] final(self).outbox@[i] == old(self).outbox@[i]
                &&& forall|i: int|
                    0 <= i < rows.len() ==> #[trigger] system_insert_is(final(self).outbox@[n + i], rows[i])
                &&& match final(self).outbox@.last() {
                    WorkerCommand::CreateDataflows(dfs) => dfs@.len() == 1 && ({
                        let df = dfs@[0];
                        &&& df.as_of == Some(bound_as_of(dataflow.as_of, since))
                        &&& frontier_le(since, df.as_of.unwrap())
                        &&& df.debug_name == dataflow.debug_name
                        &&& df.index_imports == dataflow.index_imports
                        &&& df.source_imports == dataflow.source_imports
                        &&& df.index_exports == dataflow.index_exports
                        &&& df.sink_exports == dataflow.sink_exports
                    }),
                    _ => false,
                }
            }),
            final(self).oracle.read_lower_bound >= old(self).oracle.read_lower_bound,
            rows_none(dataflow.sink_exports@) ==> final(self).oracle == old(self).oracle,
            final(self).since_updates == old(self).since_updates,
            final(self).active_tails == old(self).active_tails,
            final(self).transient_id_counter == old(self).transient_id_counter,
            final(self).num_workers == old(self).num_workers,
            final(self).logging_granularity_ms == old(self).logging_granularity_ms,
            final(self).logical_compaction_window_ms == old(self).logical_compaction_window_ms,
    {
        let mut dataflow = dataflow;
        let since = self.indexes.least_valid_since(&dataflow.index_imports);
        let ghost view0 = self.indexes.view();
        let ghost exports = dataflow.index_exports@;
        let as_of = match dataflow.as_of {
            Some(a) => {
                if since.frontier_le(&a) {
                    a
                } else {
                    a.join(&since)
                }
            },
            None => since,
        };
        proof {
            lemma_bound_as_of_dominates(dataflow.as_of, since);
        }
        let mut i: usize = 0;
        while i < dataflow.index_exports.len()
            invariant
                0 <= i <= exports.len(),
                exports == dataflow.index_exports@,
                self.wf(),
                self.num_workers == old(self).num_workers,
                self.logical_compaction_window_ms == old(self).logical_compaction_window_ms,
                self.logging_granularity_ms == old(self).logging_granularity_ms,
                self.oracle == old(self).oracle,
                self.outbox == old(self).outbox,
                self.since_updates == old(self).since_updates,
                self.active_tails == old(self).active_tails,
                self.transient_id_counter == old(self).transient_id_counter,
                view0 == old(self).indexes.view(),
                since == since_join(view0, dataflow.index_imports@),
                as_of == bound_as_of(dataflow.as_of, since),
                frontier_le(since, as_of),
                forall|j: int| 0 <= j < exports.len() ==> fresh_for(#[trigger] exports[j].id, self.transient_id_counter),
                forall|j: int|
                    0 <= j < i ==> self.indexes.view().contains_key(#[trigger] exports[j].id)
                        && self.indexes.view()[exports[j].id].since == since
                        && self.indexes.view()[exports[j].id].compaction_window_ms
                        == self.logical_compaction_window_ms
                        && self.indexes.view()[exports[j].id].upper_spec() == fresh_upper(
                        self.num_workers,
                        as_of,
                    ) && frontier_le(
                        self.indexes.view()[exports[j].id].since,
                        self.indexes.view()[exports[j].id].upper_spec(),
                    ),
                forall|k: GlobalId|
                    (forall|j: int| 0 <= j < i ==> #[trigger] exports[j].id != k) ==> (
                    self.indexes.view().contains_key(k) == view0.contains_key(k)) && (
                    #[trigger] self.indexes.view().contains_key(k) ==> self.indexes.view()[k]
                        == view0[k]),
            decreases exports.len() - i,
        {
            let id = dataflow.index_exports[i].id;
            let mut frontiers = Frontiers::starting_at(
                self.num_workers,
                self.logical_compaction_window_ms,
                as_of,
            );
            frontiers.since = since;
            proof {
                assert(fresh_for(exports[i as int].id, self.transient_id_counter));
            }
            self.indexes.insert(id, frontiers);
            proof {
                assert forall|k: GlobalId|
                    (forall|j: int| 0 <= j < i + 1 ==> #[trigger] exports[j].id != k) implies (
                    self.indexes.view().contains_key(k) == view0.contains_key(k)) && (
                    #[trigger] self.indexes.view().contains_key(k) ==> self.indexes.view()[k]
                        == view0[k]) by {
                    assert(exports[i as int].id != k);
                    assert(forall|j: int| 0 <= j < i ==> #[trigger] exports[j].id != k);
                }
            }
            i = i + 1;
        }
        let mut rows: Vec<SystemUpdate> = Vec::new();
        let ghost sinks = dataflow.sink_exports@;
        let mut j: usize = 0;
        proof {
            assert(sinks.take(0) =~= Seq::<crate::dataflow::SinkExport>::empty());
            assert(updates_view(rows@) =~= Seq::<SpecUpdate>::empty());
        }
        while j < dataflow.sink_exports.len()
            invariant
                0 <= j <= sinks.len(),
                sinks == dataflow.sink_exports@,
                updates_view(rows@) == sink_export_rows(sinks.take(j as int)),
            decreases dataflow.sink_exports.len() - j,
        {
            let sink = &dataflow.sink_exports[j];
            crate::catalog::report_connector_update(&mut rows, sink.id, &sink.connector, 1);
            proof {
                assert(sinks.take(j as int + 1).drop_last() =~= sinks.take(j as int));
            }
            j = j + 1;
        }
        proof {
            assert(sinks.take(sinks.len() as int) =~= sinks);
            lemma_rows_none_empty(sinks);
        }
        let ghost u = rows@;
        let ghost start = self.outbox@.len();
        self.emit_system_updates(rows, now);
        proof {
            assert forall|k: int| 0 <= k < u.len() implies #[trigger] system_insert_is(
                self.outbox@[start + k],
                sink_export_rows(sinks)[k],
            ) by {
                assert(system_insert_matches(self.outbox@[start + k], u[k]));
                assert(updates_view(u)[k] == crate::catalog::update_view(u[k]));
            }
        }
        dataflow.set_as_of(as_of);
        let mut dfs: Vec<DataflowDesc> = Vec::new();
        dfs.push(dataflow);
        let ghost before = self.outbox@;
        self.outbox.push(WorkerCommand::CreateDataflows(dfs));
        proof {
            assert forall|i: int| 0 <= i < before.len() implies #[trigger] self.outbox@[i]
                == before[i] by {}
        }
    }

    /// The frontier from which a sink or tail on `source_id` starts: the
    /// requested time where one is given (it must be valid for the inputs,
    /// the arrangements `source_index_ids`); else the time just before the
    /// upper frontier of the source's default index, or the largest time if
    /// that index is complete; else time zero.
    pub fn determine_frontier(
        &mut self,
        as_of: Option<u64>,
        source_index_ids: &Vec<GlobalId>,
        default_index: Option<GlobalId>,
    ) -> (r: Result<Antichain, TimestampError>)
        requires
            old(self).wf(),
            as_of.is_none() && default_index.is_some() ==> old(self).indexes.view().contains_key(
                default_index.unwrap(),
            ),
        ensures
            *final(self) == *old(self),
            as_of.is_some() ==> ({
                let since = since_join(old(self).indexes.view(), source_index_ids@);
                &&& r is Ok <==> le_time(since, as_of.unwrap())
                &&& r is Ok ==> r->Ok_0 == (Antichain { element: as_of })
            }),
            as_of.is_none() && default_index.is_some() ==> r is Ok && r->Ok_0 == (Antichain {
                element: Some(
                    match old(self).indexes.view()[default_index.unwrap()].upper_spec().element {
                        Some(t) => if t > 0 { (t - 1) as u64 } else { 0 },
                        None => u64::MAX,
                    },
                ),
            }),
            as_of.is_none() && default_index.is_none() ==> r is Ok && r->Ok_0 == (Antichain {
                element: Some(0),
            }),
    {
        if let Some(ts) = as_of {
            let ghost o0 = self.oracle;
            let t = self.determine_timestamp(
                source_index_ids,
                true,
                false,
                PeekWhen::AtTimestamp(ts),
                0,
            )?;
            proof {
                lemma_at_timestamp(
                    since_join(old(self).indexes.view(), source_index_ids@),
                    upper_meet(old(self).indexes.view(), source_index_ids@),
                    true,
                    false,
                    read_spec(o0, 0).1,
                    ts,
                );
            }
            Ok(Antichain::from_elem(t))
        } else if let Some(index_id) = default_index {
            match self.indexes.upper_of(index_id) {
                Some(upper) => match upper.element {
                    Some(t) => Ok(Antichain::from_elem(t.saturating_sub(1))),
                    None => Ok(Antichain::from_elem(u64::MAX)),
                },
                None => Ok(Antichain::from_elem(0)),
            }
        } else {
            Ok(Antichain::from_elem(0))
        }
    }
    /// Handles one message of the event loop as far as the coordinator's own
    /// state goes, and says what is left to do outside.
    pub fn handle_message(&mut self, msg: Message) -> (r: MessageOutcome)
        requires
            old(self).wf(),
        ensures
            final(self).wf(),
            final(self).num_workers == old(self).num_workers,
            final(self).logging_granularity_ms == old(self).logging_granularity_ms,
            match msg {
                Message::Command(ClientCommand::CancelRequest { conn_id }) => r is Handled
                    && final(self).active_tails@ == old(self).active_tails@.remove(conn_id)
                    && final(self).indexes == old(self).indexes
                    && (old(self).active_tails@.contains_key(conn_id) ==> final(self).outbox@
                    == old(self).outbox@.push(
                    WorkerCommand::DropSinks(final(self).outbox@.last()->DropSinks_0),
                ) && final(self).outbox@.last()->DropSinks_0@ == seq![old(self).active_tails@[conn_id]])
                    && (!old(self).active_tails@.contains_key(conn_id) ==> final(self).outbox@
                    == old(self).outbox@.push((WorkerCommand::CancelPeek { conn_id }))),
                Message::Command(ClientCommand::Terminate { conn_id }) => r == (MessageOutcome::Terminated { conn_id })
                    && final(self).active_tails@ == old(self).active_tails@.remove(conn_id)
                    && final(self).indexes == old(self).indexes
                    && (old(self).active_tails@.contains_key(conn_id) ==> final(self).outbox@
                    == old(self).outbox@.push(
                    WorkerCommand::DropSinks(final(self).outbox@.last()->DropSinks_0),
                ) && final(self).outbox@.last()->DropSinks_0@ == seq![old(self).active_tails@[conn_id]])
                    && (!old(self).active_tails@.contains_key(conn_id) ==> final(self).outbox
                    == old(self).outbox),
                Message::Worker(WorkerFeedback::FrontierUppers(ups)) => r is Handled
                    && final(self).since_updates@.len() == 0 && exists|s: Seq<(GlobalId, Antichain)>|
                    #[trigger] uppers_applied(
                        old(self).indexes.view(),
                        old(self).since_updates@,
                        final(self).indexes.view(),
                        s,
                        ups@,
                    ) && maintenance_outcome(old(self).outbox@, s, final(self).outbox@),
                Message::Worker(WorkerFeedback::CreateSource { source_id, instance }) => r
                    == (MessageOutcome::AddSourceInstance { source_id, instance }) && *final(self) == *old(self),
                Message::Worker(WorkerFeedback::DroppedSource { source_id, instance }) => r
                    == (MessageOutcome::DropSourceInstance { source_id, instance }) && *final(self) == *old(self),
                Message::AdvanceSourceTimestamp(a) => r is Handled && final(self).outbox@ == old(self).outbox@.push(
                    (WorkerCommand::AdvanceSourceTimestamp {
                        source_id: a.source_id,
                        instance: a.instance,
                        advance_to: a.advance_to,
                    }),
                ),
                Message::StatementReady(s) => r == MessageOutcome::Plan(s) && *final(self) == *old(self),
                Message::SinkConnectorReady(s) => r == MessageOutcome::SinkReady(s) && *final(self) == *old(self),
                Message::Shutdown => r is Stop && final(self).outbox@ == old(self).outbox@.push(WorkerCommand::Shutdown),
            },
    {
        match msg {
            Message::Command(ClientCommand::CancelRequest { conn_id }) => {
                self.handle_cancel(conn_id);
                MessageOutcome::Handled
            },
            Message::Command(ClientCommand::Terminate { conn_id }) => {
                self.terminate_tail(conn_id);
                MessageOutcome::Terminated { conn_id }
            },
            Message::Worker(WorkerFeedback::FrontierUppers(updates)) => {
                self.handle_frontier_uppers(updates);
                MessageOutcome::Handled
            },
            Message::Worker(WorkerFeedback::CreateSource { source_id, instance }) => {
                MessageOutcome::AddSourceInstance { source_id, instance }
            },
            Message::Worker(WorkerFeedback::DroppedSource { source_id, instance }) => {
                MessageOutcome::DropSourceInstance { source_id, instance }
            },
            Message::AdvanceSourceTimestamp(a) => {
                self.outbox.push(
                    WorkerCommand::AdvanceSourceTimestamp {
                        source_id: a.source_id,
                        instance: a.instance,
                        advance_to: a.advance_to,
                    },
                );
                MessageOutcome::Handled
            },
            Message::StatementReady(s) => MessageOutcome::Plan(s),
            Message::SinkConnectorReady(s) => MessageOutcome::SinkReady(s),
            Message::Shutdown => {
                self.outbox.push(WorkerCommand::Shutdown);
                MessageOutcome::Stop
            },
        }
    }
    /// Issues a peek for connection `conn_id`. The time is chosen as
    /// `determine_timestamp` does. A relation that optimized to a constant
    /// (`constant`, rows with their counts) is answered right away with its
    /// rows, and nothing is sent to the workers. Otherwise, where
    /// `candidates` (the indexes of the peeked relation, with the key values
    /// the query fixes) offer one, the best of them is read directly; else a
    /// transient dataflow that reads the arrangements `index_ids` and
    /// arranges the relation under a fresh transient id is built at the
    /// chosen time, read, and dropped again.
    pub fn sequence_peek(
        &mut self,
        conn_id: u32,
        index_ids: &Vec<GlobalId>,
        indexes_complete: bool,
        uses_tables: bool,
        when: PeekWhen,
        constant: Option<Vec<(crate::types::Row, u64)>>,
        candidates: Vec<PeekCandidate>,
        now: u64,
    ) -> (r: Result<(u64, PeekTarget), PeekError>)
        requires
            old(self).wf(),
        ensures
            final(self).wf(),
            final(self).since_updates == old(self).since_updates,
            final(self).active_tails == old(self).active_tails,
            ({
                let read = read_spec(old(self).oracle, now);
                let chosen = chosen_timestamp(
                    since_join(old(self).indexes.view(), index_ids@),
                    upper_meet(old(self).indexes.view(), index_ids@),
                    indexes_complete,
                    uses_tables,
                    read.1,
                    when,
                );
                let n = old(self).outbox@.len() as int;
                let x = GlobalId::Transient(old(self).transient_id_counter);
                &&& chosen.is_none() ==> r is Err && final(self).outbox == old(self).outbox
                    && final(self).indexes == old(self).indexes
                &&& r is Ok ==> chosen == Some(r->Ok_0.0)
                &&& (chosen.is_some() && constant.is_some()) ==> r is Ok && r->Ok_0.1 is Rows
                    && r->Ok_0.1->Rows_0@.map_values(|x: crate::types::Row| x@) == crate::types::expand(
                    constant.unwrap()@,
                ) && final(self).outbox == old(self).outbox && final(self).indexes == old(self).indexes
                    && final(self).transient_id_counter == old(self).transient_id_counter
                &&& (chosen.is_some() && constant.is_none() && candidates@.len() > 0) ==> r is Ok
                    && r->Ok_0.1 is Index && final(self).indexes == old(self).indexes
                    && final(self).transient_id_counter == old(self).transient_id_counter && (exists|i: int|
                    0 <= i < candidates@.len() && candidates@[i].id == r->Ok_0.1->Index_0
                        && (forall|j: int|
                        0 <= j < candidates@.len() ==> crate::dataflow::ranks_le(
                            #[trigger] candidates@[j],
                            candidates@[i],
                        )) && (forall|j: int|
                        i < j < candidates@.len() ==> !crate::dataflow::ranks_le(
                            candidates@[i],
                            #[trigger] candidates@[j],
                        )) && final(self).outbox@ == old(self).outbox@.push(
                        (WorkerCommand::Peek {
                            id: r->Ok_0.1->Index_0,
                            key: candidates@[i].literal,
                            conn_id,
                            timestamp: r->Ok_0.0,
                        }),
                    ))
                &&& (chosen.is_some() && constant.is_none() && candidates@.len() == 0
                    && old(self).transient_id_counter >= u64::MAX - 1) ==> r is Err
                &&& (chosen.is_some() && constant.is_none() && candidates@.len() == 0
                    && old(self).transient_id_counter < u64::MAX - 1) ==> r is Ok && r->Ok_0.0
                    == chosen.unwrap() && r->Ok_0.1 == PeekTarget::Index(x) && peek_transient_done(
                    *old(self),
                    *final(self),
                    conn_id,
                    chosen.unwrap(),
                    index_ids@,
                    x,
                ) && final(self).indexes.view() == old(self).indexes.view() && match final(self).outbox@[n] {
                    WorkerCommand::CreateDataflows(dfs) => dfs@[0].as_of == Some(
                        Antichain { element: Some(chosen.unwrap()) },
                    ),
                    _ => false,
                }
            }),
    {
        let timestamp = match self.determine_timestamp(index_ids, indexes_complete, uses_tables, when, now) {
            Ok(t) => t,
            Err(e) => return Err(PeekError::Timestamp(e)),
        };
        proof {
            let since = since_join(old(self).indexes.view(), index_ids@);
            assert(le_time(since, timestamp));
            assert(bound_as_of(Some(Antichain { element: Some(timestamp) }), since) == (Antichain {
                element: Some(timestamp),
            }));
        }
        if let Some(rows) = constant {
            let out = crate::types::expand_rows(&rows);
            return Ok((timestamp, PeekTarget::Rows(out)));
        }
        let _n = candidates.len();
        match choose_fast_path(candidates) {
            Some(best) => {
                let id = best.id;
                self.outbox.push(WorkerCommand::Peek { id, key: best.literal, conn_id, timestamp });
                Ok((timestamp, PeekTarget::Index(id)))
            },
            None => {
                let imports = copy_ids(index_ids);
                let x = self.peek_transient(conn_id, timestamp, imports, now)?;
                Ok((timestamp, PeekTarget::Index(x)))
            },
        }
    }

    /// The slow path of a peek: builds a transient dataflow that imports
    /// `imports` and arranges the peeked relation under a fresh transient id
    /// at `timestamp`, reads it, and drops it again.
    #[verifier::rlimit(60)]
    fn peek_transient(&mut self, conn_id: u32, timestamp: u64, imports: Vec<GlobalId>, now: u64) -> (r:
        Result<GlobalId, PeekError>)
        requires
            old(self).wf(),
        ensures
            final(self).wf(),
            final(self).since_updates == old(self).since_updates,
            final(self).active_tails == old(self).active_tails,
            old(self).transient_id_counter >= u64::MAX - 1 ==> r is Err && final(self).outbox == old(self).outbox
                && final(self).indexes == old(self).indexes,
            old(self).transient_id_counter < u64::MAX - 1 ==> r is Ok && peek_transient_done(
                *old(self),
                *final(self),
                conn_id,
                timestamp,
                imports@,
                r->Ok_0,
            ) && final(self).indexes.view() == old(self).indexes.view(),
            final(self).oracle == old(self).oracle,
            final(self).num_workers == old(self).num_workers,
            final(self).logging_granularity_ms == old(self).logging_granularity_ms,
            final(self).logical_compaction_window_ms == old(self).logical_compaction_window_ms,
    {
        proof {
            let x = GlobalId::Transient(self.transient_id_counter);
            if self.indexes.view().contains_key(x) {
                assert(fresh_for(x, self.transient_id_counter));
            }
            assert(!self.indexes.view().contains_key(x));
            assert(self.indexes.view().remove(x) =~= self.indexes.view());
        }
        let index_id = match self.allocate_transient_id() {
            Ok(id) => id,
            Err(e) => return Err(PeekError::Coord(e)),
        };
        let view_id = match self.allocate_transient_id() {
            Ok(id) => id,
            Err(e) => return Err(PeekError::Coord(e)),
        };
        let mut dataflow = DataflowDesc::new("temp-view".to_string());
        dataflow.set_as_of(Antichain::from_elem(timestamp));
        let mut i: usize = 0;
        while i < imports.len()
            invariant
                0 <= i <= imports@.len(),
                dataflow.index_imports@ == imports@.take(i as int),
                dataflow.sink_exports@.len() == 0,
                dataflow.index_exports@.len() == 0,
                dataflow.as_of == Some(Antichain { element: Some(timestamp) }),
            decreases imports.len() - i,
        {
            dataflow.add_index_import(imports[i]);
            proof {
                assert(imports@.take(i as int + 1) =~= imports@.take(i as int).push(imports@[i as int]));
            }
            i = i + 1;
        }
        proof {
            assert(imports@.take(imports@.len() as int) =~= imports@);
        }
        dataflow.add_index_export(index_id, view_id, Vec::new());
        let ghost v0 = self.indexes.view();
        let ghost n = self.outbox@.len() as int;
        proof {
            assert(dataflow.sink_exports@.len() == 0);
            assert(sink_export_rows(dataflow.sink_exports@).len() == 0);
            assert(dataflow.index_exports@[0].id == index_id);
        }
        self.ship_dataflow(dataflow, now);
        let ghost v1 = self.indexes.view();
        proof {
            assert(v1.contains_key(index_id));
        }
        self.outbox.push(WorkerCommand::Peek { id: index_id, key: None, conn_id, timestamp });
        let mut drop: Vec<GlobalId> = Vec::new();
        drop.push(index_id);
        let ghost before = self.indexes.view();
        let ghost o1 = self.outbox@;
        proof {
            assert(before.contains_key(index_id));
            assert(drop@[0] == index_id);
            assert(drop@.drop_last() =~= Seq::<GlobalId>::empty());
            assert(drop@.last() == index_id);
            assert(!drop@.drop_last().contains(index_id));
            assert(dropped_in_order(before, drop@.drop_last()) =~= Seq::<GlobalId>::empty());
            assert(dropped_in_order(before, drop@) =~= seq![index_id]);
        }
        self.drop_indexes(drop);
        proof {
            assert(drop@.contains(index_id));
            assert forall|k: GlobalId| #[trigger] drop@.contains(k) implies k == index_id by {}
            assert forall|k: GlobalId| k != index_id implies (#[trigger] v1.contains_key(k)
                == v0.contains_key(k)) by {
                assert(forall|j: int| 0 <= j < 1 ==> #[trigger] seq![index_id][j] != k);
            }
            assert(self.indexes.view() =~= v0.remove(index_id));
            assert(self.outbox@[n + 1] == o1[n + 1]);
            assert(self.outbox@[n] == o1[n]);
        }
        proof {
            assert(drop@.last() == index_id);
        }
        Ok(index_id)
    }

    /// Starts a tail of `source_id` for connection `conn_id`, served by the
    /// sink `sink_id`: the start frontier is chosen as `determine_frontier`
    /// does, the tail is registered as the connection's only one, and a
    /// dataflow importing the arrangements `imports` and exporting the sink
    /// is shipped. Returns the start frontier.
    pub fn sequence_tail(
        &mut self,
        conn_id: u32,
        source_id: GlobalId,
        sink_id: GlobalId,
        as_of: Option<u64>,
        source_index_ids: &Vec<GlobalId>,
        default_index: Option<GlobalId>,
        with_snapshot: bool,
        imports: Vec<GlobalId>,
        now: u64,
    ) -> (r: Result<Antichain, TimestampError>)
        requires
            old(self).wf(),
            as_of.is_none() && default_index.is_some() ==> old(self).indexes.view().contains_key(
                default_index.unwrap(),
            ),
        ensures
            final(self).wf(),
            ({
                let f = start_frontier(old(self).indexes.view(), as_of, source_index_ids@, default_index);
                &&& r is Ok <==> f.is_some()
                &&& r is Ok ==> r->Ok_0 == f.unwrap()
            }),
            as_of.is_none() ==> r is Ok,
            r is Err ==> *final(self) == *old(self),
            r is Ok ==> final(self).active_tails@ == old(self).active_tails@.insert(conn_id, sink_id),
            r is Ok ==> final(self).outbox@ == old(self).outbox@.push(
                WorkerCommand::CreateDataflows(final(self).outbox@.last()->CreateDataflows_0),
            ),
            r is Ok ==> match final(self).outbox@.last() {
                WorkerCommand::CreateDataflows(dfs) => dfs@.len() == 1 && dfs@[0].sink_exports@.len()
                    == 1 && dfs@[0].sink_exports@[0].id == sink_id && dfs@[0].sink_exports@[0].from
                    == source_id && dfs@[0].sink_exports@[0].connector == (crate::catalog::SinkConnector::Tail {
                    frontier: r->Ok_0,
                    strict: !with_snapshot,
                }) && dfs@[0].index_imports@ == imports@ && dfs@[0].as_of == Some(
                    bound_as_of(Some(r->Ok_0), since_join(old(self).indexes.view(), imports@)),
                ),
                _ => false,
            },
    {
        let frontier = self.determine_frontier(as_of, source_index_ids, default_index)?;
        self.register_tail(conn_id, sink_id);
        let mut dataflow = DataflowDesc::new("tail-source".to_string());
        dataflow.set_as_of(frontier);
        let mut i: usize = 0;
        while i < imports.len()
            invariant
                0 <= i <= imports@.len(),
                dataflow.index_imports@ == imports@.take(i as int),
                dataflow.sink_exports@.len() == 0,
                dataflow.index_exports@.len() == 0,
                dataflow.as_of == Some(frontier),
            decreases imports.len() - i,
        {
            dataflow.add_index_import(imports[i]);
            proof {
                assert(imports@.take(i as int + 1) =~= imports@.take(i as int).push(imports@[i as int]));
            }
            i = i + 1;
        }
        proof {
            assert(imports@.take(imports@.len() as int) =~= imports@);
        }
        dataflow.add_sink_export(
            sink_id,
            source_id,
            crate::catalog::SinkConnector::Tail { frontier, strict: !with_snapshot },
        );
        proof {
            assert(dataflow.sink_exports@.drop_last() =~= Seq::<crate::dataflow::SinkExport>::empty());
            assert(sink_export_rows(dataflow.sink_exports@.drop_last()).len() == 0);
            assert(sink_export_rows(dataflow.sink_exports@).len() == 0);
        }
        let ghost o0 = self.outbox@;
        self.ship_dataflow(dataflow, now);
        proof {
            assert(self.outbox@ =~= o0.push(
                WorkerCommand::CreateDataflows(self.outbox@.last()->CreateDataflows_0),
            ));
        }
        Ok(frontier)
    }
    /// Starts tracking an index whose dataflow the workers already run (the
    /// indexes of builtin logs), with the given compaction window.
    pub fn track_log_index(&mut self, id: GlobalId, compaction_window_ms: Option<u64>)
        requires
            old(self).wf(),
            fresh_for(id, old(self).transient_id_counter),
        ensures
            final(self).transient_id_counter == old(self).transient_id_counter,
            final(self).since_updates == old(self).since_updates,
            final(self).active_tails == old(self).active_tails,
            final(self).wf(),
            final(self).indexes.view().contains_key(id),
            final(self).indexes.view()[id].compaction_window_ms == compaction_window_ms,
            final(self).indexes.view()[id].since == (Antichain { element: Some(0) }),
            forall|k: GlobalId| k != id ==> #[trigger] final(self).indexes.view().contains_key(k)
                == old(self).indexes.view().contains_key(k),
            forall|k: GlobalId| k != id && #[trigger] final(self).indexes.view().contains_key(k)
                ==> final(self).indexes.view()[k] == old(self).indexes.view()[k],
            final(self).outbox == old(self).outbox,
            final(self).oracle == old(self).oracle,
            final(self).num_workers == old(self).num_workers,
            final(self).logging_granularity_ms == old(self).logging_granularity_ms,
            final(self).logical_compaction_window_ms == old(self).logical_compaction_window_ms,
    {
        let f = Frontiers::new(self.num_workers, compaction_window_ms);
        self.indexes.insert(id, f);
    }

    /// Ships the dataflow of a sink whose connector is ready: it reads
    /// `from` through the arrangements `imports` and exports the sink.
    pub fn ship_sink(
        &mut self,
        name: String,
        id: GlobalId,
        from: GlobalId,
        connector: crate::catalog::SinkConnector,
        imports: Vec<GlobalId>,
        now: u64,
    )
        requires
            old(self).wf(),
        ensures
            final(self).wf(),
            final(self).active_tails == old(self).active_tails,
            final(self).outbox@.len() == old(self).outbox@.len() + sink_export_rows(
                seq![crate::dataflow::SinkExport { id, from, connector }],
            ).len() + 1,
            match final(self).outbox@.last() {
                WorkerCommand::CreateDataflows(dfs) => dfs@.len() == 1 && dfs@[0].debug_name == name
                    && dfs@[0].index_imports@ == imports@ && dfs@[0].sink_exports@.len() == 1
                    && dfs@[0].sink_exports@[0].id == id && dfs@[0].sink_exports@[0].from == from
                    && dfs@[0].sink_exports@[0].connector == connector,
                _ => false,
            },
    {
        let mut dataflow = DataflowDesc::new(name);
        let mut i: usize = 0;
        while i < imports.len()
            invariant
                0 <= i <= imports@.len(),
                dataflow.index_imports@ == imports@.take(i as int),
                dataflow.sink_exports@.len() == 0,
                dataflow.index_exports@.len() == 0,
                dataflow.debug_name == name,
            decreases imports.len() - i,
        {
            dataflow.add_index_import(imports[i]);
            proof {
                assert(imports@.take(i as int + 1) =~= imports@.take(i as int).push(imports@[i as int]));
            }
            i = i + 1;
        }
        proof {
            assert(imports@.take(imports@.len() as int) =~= imports@);
        }
        dataflow.add_sink_export(id, from, connector);
        proof {
            let e = crate::dataflow::SinkExport { id, from, connector };
            assert(dataflow.sink_exports@.drop_last() =~= Seq::<crate::dataflow::SinkExport>::empty());
            assert(dataflow.sink_exports@.last() == e);
            assert(dataflow.sink_exports@ =~= seq![e]);
        }
        self.ship_dataflow(dataflow, now);
    }
    /// Ships the dataflow of index `id`, which arranges `on` by the columns
    /// `key`: the index is tracked from time zero with the default
    /// compaction window.
    #[verifier::spinoff_prover]
    #[verifier::rlimit(100)]
    pub fn ship_index(&mut self, id: GlobalId, on: GlobalId, key: Vec<usize>, now: u64)
        requires
            old(self).wf(),
            fresh_for(id, old(self).transient_id_counter),
        ensures
            final(self).wf(),
            final(self).indexes.view().contains_key(id),
            final(self).indexes.view()[id].since == (Antichain { element: Some(0) }),
            final(self).indexes.view()[id].compaction_window_ms == old(self).logical_compaction_window_ms,
            final(self).indexes.view()[id].upper_spec() == fresh_upper(
                old(self).num_workers,
                Antichain { element: Some(0) },
            ),
            forall|k: GlobalId| k != id ==> (#[trigger] final(self).indexes.view().contains_key(k)
                == old(self).indexes.view().contains_key(k)) && (final(self).indexes.view().contains_key(k)
                ==> final(self).indexes.view()[k] == old(self).indexes.view()[k]),
            final(self).outbox@ == old(self).outbox@.push(
                WorkerCommand::CreateDataflows(final(self).outbox@.last()->CreateDataflows_0),
            ),
            match final(self).outbox@.last() {
                WorkerCommand::CreateDataflows(dfs) => dfs@.len() == 1 && dfs@[0].index_exports@.len()
                    == 1 && dfs@[0].index_exports@[0].id == id && dfs@[0].index_exports@[0].on == on
                    && dfs@[0].source_imports@ == seq![on],
                _ => false,
            },
            final(self).oracle == old(self).oracle,
            final(self).since_updates == old(self).since_updates,
            final(self).active_tails == old(self).active_tails,
            final(self).transient_id_counter == old(self).transient_id_counter,
            final(self).num_workers == old(self).num_workers,
            final(self).logging_granularity_ms == old(self).logging_granularity_ms,
            final(self).logical_compaction_window_ms == old(self).logical_compaction_window_ms,
    {
        let mut dataflow = DataflowDesc::new("index".to_string());
        dataflow.add_source_import(on);
        dataflow.add_index_export(id, on, key);
        proof {
            assert(dataflow.index_exports@.drop_last() =~= Seq::<crate::dataflow::IndexExport>::empty());
            assert(dataflow.index_exports@[0].id == id);
            assert(dataflow.source_imports@ =~= seq![on]);
            assert(dataflow.index_imports@ =~= Seq::<GlobalId>::empty());
            assert(since_join(self.indexes.view(), dataflow.index_imports@) == (Antichain { element: Some(0) }));
            assert(sink_export_rows(dataflow.sink_exports@).len() == 0);
            assert(rows_none(dataflow.sink_exports@));
        }
        let ghost o0 = self.outbox@;
        self.ship_dataflow(dataflow, now);
        proof {
            assert forall|k: GlobalId| k != id implies (#[trigger] self.indexes.view().contains_key(k)
                == old(self).indexes.view().contains_key(k)) && (self.indexes.view().contains_key(k)
                ==> self.indexes.view()[k] == old(self).indexes.view()[k]) by {
                assert(forall|j: int| 0 <= j < 1 ==> #[trigger] seq![id][j] != k);
                assert(self.outbox@.len() > 0);
            }
            assert(self.outbox@ =~= o0.push(
                WorkerCommand::CreateDataflows(self.outbox@.last()->CreateDataflows_0),
            ));
        }
    }

    /// The first phase of creating a sink: chooses its start frontier (see
    /// `determine_frontier`) and describes the placeholder that reserves its
    /// name in the catalog while its connector is built.
    pub fn sequence_create_sink(
        &mut self,
        from: GlobalId,
        as_of: Option<u64>,
        source_index_ids: &Vec<GlobalId>,
        default_index: Option<GlobalId>,
        with_snapshot: bool,
    ) -> (r: Result<crate::messages::PendingSink, TimestampError>)
        requires
            old(self).wf(),
            as_of.is_none() && default_index.is_some() ==> old(self).indexes.view().contains_key(
                default_index.unwrap(),
            ),
        ensures
            *final(self) == *old(self),
            ({
                let f = start_frontier(old(self).indexes.view(), as_of, source_index_ids@, default_index);
                &&& r is Ok <==> f.is_some()
                &&& r is Ok ==> r->Ok_0.frontier == f.unwrap() && r->Ok_0.from == from
                    && r->Ok_0.with_snapshot == with_snapshot && r->Ok_0.as_of == as_of
                    && r->Ok_0.item == (CatalogItem::Sink { from, connector: SinkConnectorState::Pending })
            }),
    {
        let frontier = self.determine_frontier(as_of, source_index_ids, default_index)?;
        Ok(
            crate::messages::PendingSink {
                from,
                frontier,
                with_snapshot,
                as_of,
                item: CatalogItem::Sink { from, connector: SinkConnectorState::Pending },
            },
        )
    }

    /// The second phase of creating sink `id`, once its connector was built
    /// (`build` is `Ok`) or failed: a ready sink still in the catalog has its
    /// dataflow shipped (reading `from` through `imports`); a sink dropped
    /// meanwhile, or a failed build, ships nothing.
    pub fn message_sink_connector_ready(
        &mut self,
        name: String,
        id: GlobalId,
        from: GlobalId,
        build: Result<crate::catalog::SinkConnector, String>,
        still_in_catalog: bool,
        imports: Vec<GlobalId>,
        now: u64,
    ) -> (r: crate::messages::SinkReadyAction)
        requires
            old(self).wf(),
        ensures
            final(self).wf(),
            r == crate::messages::sink_ready_spec(build is Ok, still_in_catalog),
            r != crate::messages::SinkReadyAction::ShipAndReport ==> *final(self) == *old(self),
            r == crate::messages::SinkReadyAction::ShipAndReport ==> match final(self).outbox@.last() {
                WorkerCommand::CreateDataflows(dfs) => dfs@.len() == 1 && dfs@[0].debug_name == name
                    && dfs@[0].index_imports@ == imports@ && dfs@[0].sink_exports@.len() == 1
                    && dfs@[0].sink_exports@[0].id == id && dfs@[0].sink_exports@[0].from == from
                    && dfs@[0].sink_exports@[0].connector == build->Ok_0,
                _ => false,
            },
    {
        let action = crate::messages::sink_connector_ready_action(build.is_ok(), still_in_catalog);
        if let crate::messages::SinkReadyAction::ShipAndReport = action {
            match build {
                Ok(connector) => {
                    self.ship_sink(name, id, from, connector, imports, now);
                },
                Err(_) => {},
            }
        }
        action
    }

    /// Finishes a `CREATE` whose catalog transaction ended with `transact`.
    /// On failure nothing changes and the answer is `creation_response`'s.
    /// On success the events are processed, each new index in `indexes` (id,
    /// relation, key columns) is shipped, and the answer is `Ok(false)`.
    pub fn finish_create(
        &mut self,
        indexes: Vec<(GlobalId, GlobalId, Vec<usize>)>,
        transact: Result<Vec<CatalogEvent>, String>,
        if_not_exists: bool,
        now: u64,
    ) -> (r: Result<bool, String>)
        requires
            old(self).wf(),
            forall|j: int|
                0 <= j < indexes@.len() ==> fresh_for(#[trigger] indexes@[j].0, old(self).transient_id_counter),
            transact is Ok ==> forall|i: int|
                0 <= i < transact->Ok_0@.len() ==> event_wf(#[trigger] transact->Ok_0@[i]),
        ensures
            final(self).wf(),
            transact is Err && if_not_exists ==> r == Ok::<bool, String>(true) && *final(self) == *old(self),
            transact is Err && !if_not_exists ==> r == Err::<bool, String>(transact->Err_0) && *final(self)
                == *old(self),
            transact is Ok ==> r == Ok::<bool, String>(false) && (forall|j: int|
                0 <= j < indexes@.len() ==> #[trigger] final(self).indexes.view().contains_key(indexes@[j].0))
                && exists|mid: Seq<WorkerCommand>|
                #[trigger] catalog_outbox(old(self).outbox@, transact->Ok_0@, old(self).indexes.view(), mid)
                    && final(self).outbox@.len() == mid.len() + indexes@.len() && (forall|k: int|
                    0 <= k < mid.len() ==> #[trigger] final(self).outbox@[k] == mid[k]) && (forall|j: int|
                    0 <= j < indexes@.len() ==> exports_only_index(
                        #[trigger] final(self).outbox@[mid.len() + j],
                        indexes@[j].0,
                    )),
    {
        match transact {
            Err(e) => {
                if if_not_exists {
                    Ok(true)
                } else {
                    Err(e)
                }
            },
            Ok(events) => {
                self.process_catalog_events(&events, now);
                let ghost mid = self.outbox@;
                let ghost n0 = old(self).outbox@.len();
                let ghost ix = indexes@;
                let _n = indexes.len();
                let mut rest = indexes;
                let mut i: usize = 0;
                proof {
                    assert(self.outbox@.len() >= n0);
                }
                while rest.len() > 0
                    invariant
                        0 <= i <= ix.len(),
                        ix.len() <= usize::MAX,
                        rest@ == ix.subrange(i as int, ix.len() as int),
                        self.wf(),
                        self.transient_id_counter == old(self).transient_id_counter,
                        forall|j: int|
                            0 <= j < ix.len() ==> fresh_for(#[trigger] ix[j].0, old(self).transient_id_counter),
                        self.outbox@.len() >= n0 + i,
                        self.outbox@.len() == mid.len() + i,
                        catalog_outbox(old(self).outbox@, events@, old(self).indexes.view(), mid),
                        forall|k: int| 0 <= k < mid.len() ==> #[trigger] self.outbox@[k] == mid[k],
                        forall|j: int|
                            0 <= j < i ==> exports_only_index(#[trigger] self.outbox@[mid.len() + j], ix[j].0),
                        forall|j: int| 0 <= j < i ==> #[trigger] self.indexes.view().contains_key(ix[j].0),
                    decreases rest.len(),
                {
                    let (id, on, key) = rest.remove(0);
                    proof {
                        assert((id, on, key) == ix[i as int]);
                    }
                    let ghost o0 = self.outbox@;
                    self.ship_index(id, on, key, now);
                    proof {
                        assert forall|k: int| 0 <= k < mid.len() implies #[trigger] self.outbox@[k] == mid[k] by {
                            assert(self.outbox@[k] == o0[k]);
                        }
                        assert forall|j: int|
                            0 <= j < i + 1 implies exports_only_index(
                            #[trigger] self.outbox@[mid.len() + j],
                            ix[j].0,
                        ) by {
                            if j < i {
                                assert(self.outbox@[mid.len() + j] == o0[mid.len() + j]);
                            }
                        }
                        assert forall|j: int| 0 <= j < i + 1 implies #[trigger] self.indexes.view().contains_key(
                            ix[j].0,
                        ) by {
                            if ix[j].0 != id {
                            }
                        }
                    }
                    i = i + 1;
                }
                Ok(false)
            },
        }
    }


    /// Installs what the catalog held at startup, given as the events that
    /// create it: each created index is tracked, the indexes of builtin logs
    /// (`log_indexes`, whose dataflows the workers already run) with the
    /// compaction window `log_window` and without shipping a dataflow, every
    /// other one by shipping its dataflow; then the events are processed.
    pub fn bootstrap(
        &mut self,
        events: &Vec<CatalogEvent>,
        log_indexes: &Vec<GlobalId>,
        log_window: Option<u64>,
        now: u64,
    )
        requires
            old(self).wf(),
            forall|i: int| 0 <= i < events@.len() ==> event_wf(#[trigger] events@[i]),
            forall|j: int|
                0 <= j < events@.len() && (#[trigger] created_index_at(events@[j])).is_some() ==> fresh_for(
                    created_index_at(events@[j]).unwrap(),
                    old(self).transient_id_counter,
                ),
        ensures
            final(self).wf(),
            forall|k: GlobalId| #[trigger]
                final(self).indexes.view().contains_key(k) <==> (old(self).indexes.view().contains_key(k)
                    || created_indexes(events@).contains(k)) && !crate::catalog::dropped_indexes(
                    events@,
                ).contains(k),
            forall|k: GlobalId|
                created_indexes(events@).contains(k) && log_indexes@.contains(k)
                    && #[trigger] final(self).indexes.view().contains_key(k)
                    ==> final(self).indexes.view()[k].compaction_window_ms == log_window,
            forall|j: int|
                0 <= j < events@.len() && #[trigger] created_index_at(events@[j]).is_some()
                    && !log_indexes@.contains(created_index_at(events@[j]).unwrap()) ==> exists|k: int|
                    old(self).outbox@.len() <= k < final(self).outbox@.len() && #[trigger] exports_index(
                        final(self).outbox@[k],
                        created_index_at(events@[j]).unwrap(),
                    ),
            forall|k: int|
                old(self).outbox@.len() <= k < final(self).outbox@.len() && #[trigger] final(self).outbox@[k]
                    is CreateDataflows ==> !exports_log_index(final(self).outbox@[k], log_indexes@),
            exists|mid: Seq<WorkerCommand>, m: Map<GlobalId, Frontiers>|
                #[trigger] catalog_outbox(mid, events@, m, final(self).outbox@) && old(self).outbox@.len()
                    <= mid.len(),
            forall|k: int| 0 <= k < old(self).outbox@.len() ==> #[trigger] final(self).outbox@[k] == old(
                self).outbox@[k],
    {
        let mut i: usize = 0;
        proof {
            assert(events@.take(0) =~= Seq::<CatalogEvent>::empty());
        }
        while i < events.len()
            invariant
                0 <= i <= events@.len(),
                self.wf(),
                self.transient_id_counter == old(self).transient_id_counter,
                forall|j: int|
                    0 <= j < events@.len() && (#[trigger] created_index_at(events@[j])).is_some() ==> fresh_for(
                        created_index_at(events@[j]).unwrap(),
                        old(self).transient_id_counter,
                    ),
                self.outbox@.len() >= old(self).outbox@.len(),
                forall|k: int| 0 <= k < old(self).outbox@.len() ==> #[trigger] self.outbox@[k] == old(self).outbox@[k],
                forall|k: GlobalId| #[trigger]
                    self.indexes.view().contains_key(k) <==> (old(self).indexes.view().contains_key(k)
                        || created_indexes(events@.take(i as int)).contains(k)),
                forall|k: GlobalId|
                    created_indexes(events@.take(i as int)).contains(k) && log_indexes@.contains(k)
                        ==> #[trigger] self.indexes.view()[k].compaction_window_ms == log_window,
                forall|j: int|
                    0 <= j < i && #[trigger] created_index_at(events@[j]).is_some()
                        && !log_indexes@.contains(created_index_at(events@[j]).unwrap()) ==> exists|k: int|
                        old(self).outbox@.len() <= k < self.outbox@.len() && #[trigger] exports_index(
                            self.outbox@[k],
                            created_index_at(events@[j]).unwrap(),
                        ),
                forall|k: int|
                    old(self).outbox@.len() <= k < self.outbox@.len() && #[trigger] self.outbox@[k]
                        is CreateDataflows ==> !exports_log_index(self.outbox@[k], log_indexes@),
            decreases events.len() - i,
        {
            let ghost t0 = events@.take(i as int);
            let ghost v0 = self.indexes.view();
            let ghost o0 = self.outbox@;
            proof {
                assert(events@.take(i as int + 1).drop_last() =~= t0);
                assert(events@.take(i as int + 1).last() == events@[i as int]);
            }
            match &events[i] {
                CatalogEvent::CreatedItem { id, item: CatalogItem::Index { on, keys, .. }, .. } => {
                    let id = *id;
                    proof {
                        assert(created_indexes(events@.take(i as int + 1)) == created_indexes(t0).push(id));
                    }
                    proof {
                        assert(created_index_at(events@[i as int]) == Some(id));
                    }
                    if contains_id(log_indexes, id) {
                        self.track_log_index(id, log_window);
                    } else {
                        let key = key_columns(keys);
                        self.ship_index(id, *on, key, now);
                        proof {
                            let n = o0.len() as int;
                            assert(exports_index(self.outbox@[n], id));
                            assert(!exports_log_index(self.outbox@[n], log_indexes@)) by {
                                assert(forall|e: int| 0 <= e < 1 ==> #[trigger] seq![id][e] == id);
                            }
                        }
                    }
                    proof {
                        assert forall|k: GlobalId| #[trigger]
                            self.indexes.view().contains_key(k) <==> (old(self).indexes.view().contains_key(k)
                                || created_indexes(events@.take(i as int + 1)).contains(k)) by {
                            lemma_push_contains(created_indexes(t0), id, k);
                        }
                        assert forall|k: GlobalId|
                            created_indexes(events@.take(i as int + 1)).contains(k) && log_indexes@.contains(k)
                                implies #[trigger] self.indexes.view()[k].compaction_window_ms == log_window by {
                            lemma_push_contains(created_indexes(t0), id, k);
                            if k != id {
                                assert(created_indexes(t0).contains(k));
                                assert(self.indexes.view().contains_key(k));
                                assert(self.indexes.view()[k] == v0[k]);
                            }
                        }
                        assert forall|j: int|
                            0 <= j < i + 1 && #[trigger] created_index_at(events@[j]).is_some()
                                && !log_indexes@.contains(created_index_at(events@[j]).unwrap()) implies exists|k: int|
                                old(self).outbox@.len() <= k < self.outbox@.len() && #[trigger] exports_index(
                                    self.outbox@[k],
                                    created_index_at(events@[j]).unwrap(),
                                ) by {
                            if j < i {
                                let k0 = choose|k: int|
                                    old(self).outbox@.len() <= k < o0.len() && #[trigger] exports_index(
                                        o0[k],
                                        created_index_at(events@[j]).unwrap(),
                                    );
                                assert(self.outbox@[k0] == o0[k0]);
                            } else {
                                assert(exports_index(self.outbox@[o0.len() as int], id));
                            }
                        }
                        assert forall|k: int| 0 <= k < old(self).outbox@.len() implies #[trigger] self.outbox@[k]
                            == old(self).outbox@[k] by {
                            assert(self.outbox@[k] == o0[k]);
                        }
                        assert forall|k: int|
                            old(self).outbox@.len() <= k < self.outbox@.len() && #[trigger] self.outbox@[k]
                                is CreateDataflows implies !exports_log_index(self.outbox@[k], log_indexes@) by {
                            if k < o0.len() {
                                assert(self.outbox@[k] == o0[k]);
                            }
                        }
                    }
                },
                _ => {
                    proof {
                        assert(created_indexes(events@.take(i as int + 1)) == created_indexes(t0));
                        assert(created_index_at(events@[i as int]).is_none());
                    }
                },
            }
            i = i + 1;
        }
        proof {
            assert(events@.take(events@.len() as int) =~= events@);
        }
        let ghost o1 = self.outbox@;
        let ghost v1 = self.indexes.view();
        self.process_catalog_events(events, now);
        proof {
            let n1 = o1.len() as int;
            assert forall|j: int|
                0 <= j < events@.len() && #[trigger] created_index_at(events@[j]).is_some()
                    && !log_indexes@.contains(created_index_at(events@[j]).unwrap()) implies exists|k: int|
                    old(self).outbox@.len() <= k < self.outbox@.len() && #[trigger] exports_index(
                        self.outbox@[k],
                        created_index_at(events@[j]).unwrap(),
                    ) by {
                let k0 = choose|k: int|
                    old(self).outbox@.len() <= k < o1.len() && #[trigger] exports_index(
                        o1[k],
                        created_index_at(events@[j]).unwrap(),
                    );
                assert(self.outbox@[k0] == o1[k0]);
            }
            assert forall|k: int|
                old(self).outbox@.len() <= k < self.outbox@.len() && #[trigger] self.outbox@[k]
                    is CreateDataflows implies !exports_log_index(self.outbox@[k], log_indexes@) by {
                if k < n1 {
                    assert(self.outbox@[k] == o1[k]);
                } else {
                    lemma_catalog_outbox_no_dataflows(o1, events@, v1, self.outbox@, k);
                }
            }
            assert(catalog_outbox(o1, events@, v1, self.outbox@));
            assert forall|k: int| 0 <= k < old(self).outbox@.len() implies #[trigger] self.outbox@[k] == old(
                self).outbox@[k] by {
                assert(self.outbox@[k] == o1[k]);
            }
        }
    }

}

/// One batch of worker progress for `id` takes the tracked records from `v0`
/// and the queue of moved since frontiers from `s0` to `v1` and `s1`: within
/// the record's count bound the counts absorb the batch and since follows by
/// `next_since`; beyond it the record stays as it was. A since that moved is
/// queued; nothing else changes.
pub open spec fn upper_step(
    v0: Map<GlobalId, Frontiers>,
    s0: Seq<(GlobalId, Antichain)>,
    v1: Map<GlobalId, Frontiers>,
    s1: Seq<(GlobalId, Antichain)>,
    id: GlobalId,
    changes: Seq<(u64, i64)>,
) -> bool {
    &&& v1.dom() == v0.dom()
    &&& forall|k: GlobalId| k != id && #[trigger] v0.contains_key(k) ==> v1[k] == v0[k]
    &&& !v0.contains_key(id) ==> v1 == v0 && s1 == s0
    &&& v0.contains_key(id) ==> {
        let f0 = v0[id];
        let f1 = v1[id];
        &&& f1.compaction_window_ms == f0.compaction_window_ms
        &&& f0.mass + total_mass(changes) > i64::MAX ==> f1 == f0
        &&& f0.mass + total_mass(changes) <= i64::MAX ==> upper_counts(f1.upper) == apply_changes(
            upper_counts(f0.upper),
            changes,
        ) && f1.since == next_since(
            f0.upper_spec(),
            f1.upper_spec(),
            f0.since,
            f0.compaction_window_ms,
        )
        &&& f1.since != f0.since ==> s1 == s0.push((id, f1.since))
        &&& f1.since == f0.since ==> s1 == s0
    }
}

/// Worker progress that moves an upper frontier forward keeps since at or
/// below upper: a since that compaction moves trails the new upper, and one
/// that stays was already below the old upper.
pub proof fn lemma_progress_keeps_since_below_upper(
    v0: Map<GlobalId, Frontiers>,
    s0: Seq<(GlobalId, Antichain)>,
    v1: Map<GlobalId, Frontiers>,
    s1: Seq<(GlobalId, Antichain)>,
    id: GlobalId,
    changes: Seq<(u64, i64)>,
)
    requires
        upper_step(v0, s0, v1, s1, id, changes),
        v0.contains_key(id),
        frontier_le(v0[id].since, v0[id].upper_spec()),
        frontier_le(v0[id].upper_spec(), v1[id].upper_spec()),
    ensures
        frontier_le(v1[id].since, v1[id].upper_spec()),
{
    let f0 = v0[id];
    let f1 = v1[id];
    if f0.mass + total_mass(changes) <= i64::MAX {
        crate::frontiers::lemma_compacted_since_below_upper(
            f0.upper_spec(),
            f1.upper_spec(),
            f0.since,
            f0.compaction_window_ms,
        );
    }
}

/// The batches `ups`, applied in order by `upper_step`, take `(v0, s0)` to
/// `(v2, s2)`.
pub open spec fn uppers_applied(
    v0: Map<GlobalId, Frontiers>,
    s0: Seq<(GlobalId, Antichain)>,
    v2: Map<GlobalId, Frontiers>,
    s2: Seq<(GlobalId, Antichain)>,
    ups: Seq<(GlobalId, Vec<(u64, i64)>)>,
) -> bool
    decreases ups.len(),
{
    if ups.len() == 0 {
        v2 == v0 && s2 == s0
    } else {
        exists|v1: Map<GlobalId, Frontiers>, s1: Seq<(GlobalId, Antichain)>|
            uppers_applied(v0, s0, v1, s1, ups.drop_last()) && #[trigger] upper_step(
                v1,
                s1,
                v2,
                s2,
                ups.last().0,
                ups.last().1@,
            )
    }
}

pub proof fn lemma_uppers_applied_step(
    v0: Map<GlobalId, Frontiers>,
    s0: Seq<(GlobalId, Antichain)>,
    v1: Map<GlobalId, Frontiers>,
    s1: Seq<(GlobalId, Antichain)>,
    v2: Map<GlobalId, Frontiers>,
    s2: Seq<(GlobalId, Antichain)>,
    ups: Seq<(GlobalId, Vec<(u64, i64)>)>,
)
    requires
        ups.len() > 0,
        uppers_applied(v0, s0, v1, s1, ups.drop_last()),
        upper_step(v1, s1, v2, s2, ups.last().0, ups.last().1@),
    ensures
        uppers_applied(v0, s0, v2, s2, ups),
{
    assert(upper_step(v1, s1, v2, s2, ups.last().0, ups.last().1@));
}

/// Announcing the queued since frontiers `s` takes the outbox from `o0` to
/// `o1`: one `AllowCompaction` of the non-empty ones, in order, if any.
pub open spec fn maintenance_outcome(
    o0: Seq<WorkerCommand>,
    s: Seq<(GlobalId, Antichain)>,
    o1: Seq<WorkerCommand>,
) -> bool {
    let kept = s.filter(|u: (GlobalId, Antichain)| u.1.element.is_some());
    &&& kept.len() == 0 ==> o1 == o0
    &&& kept.len() > 0 ==> o1 == o0.push(WorkerCommand::AllowCompaction(o1.last()->AllowCompaction_0))
        && o1.last()->AllowCompaction_0@ == kept
}

/// The ids among `ids` that `m` tracks, in order, each once: the
/// arrangements that dropping `ids` one by one finds tracked.
pub open spec fn dropped_in_order(m: Map<GlobalId, Frontiers>, ids: Seq<GlobalId>) -> Seq<GlobalId>
    decreases ids.len(),
{
    if ids.len() == 0 {
        Seq::empty()
    } else {
        let prev = dropped_in_order(m, ids.drop_last());
        if m.contains_key(ids.last()) && !ids.drop_last().contains(ids.last()) {
            prev.push(ids.last())
        } else {
            prev
        }
    }
}

/// The slow path of a peek at time `t` took the coordinator from `c0` to
/// `c1`: two transient ids were allocated, the first of which, `x`, named the
/// arrangement of a dataflow importing `imports` built at `t` (raised to the
/// imports' since where it lies below); `x` was read at `t` and dropped, so
/// the tracked arrangements are as before, but for `x`.
pub open spec fn peek_transient_done(
    c0: Coordinator,
    c1: Coordinator,
    conn_id: u32,
    t: u64,
    imports: Seq<GlobalId>,
    x: GlobalId,
) -> bool {
    let n = c0.outbox@.len() as int;
    &&& x == GlobalId::Transient(c0.transient_id_counter)
    &&& c1.transient_id_counter == c0.transient_id_counter + 2
    &&& c1.indexes.view() == c0.indexes.view().remove(x)
    &&& c1.outbox@.len() == n + 3
    &&& forall|i: int| 0 <= i < n ==> #[trigger] c1.outbox@[i] == c0.outbox@[i]
    &&& match c1.outbox@[n] {
        WorkerCommand::CreateDataflows(dfs) => dfs@.len() == 1 && dfs@[0].as_of == Some(
            bound_as_of(Some(Antichain { element: Some(t) }), since_join(c0.indexes.view(), imports)),
        ) && dfs@[0].index_imports@ == imports && dfs@[0].index_exports@.len() == 1
            && dfs@[0].index_exports@[0].id == x && dfs@[0].sink_exports@.len() == 0,
        _ => false,
    }
    &&& c1.outbox@[n + 1] == (WorkerCommand::Peek { id: x, key: None, conn_id, timestamp: t })
    &&& c1.outbox@[n + 2] == WorkerCommand::DropIndexes(c1.outbox@[n + 2]->DropIndexes_0)
    &&& c1.outbox@[n + 2]->DropIndexes_0@ == seq![x]
}

/// The frontier from which a sink or tail starts (see `determine_frontier`);
/// `None` where the requested time is not valid for the inputs `ids`.
pub open spec fn start_frontier(
    m: Map<GlobalId, Frontiers>,
    as_of: Option<u64>,
    ids: Seq<GlobalId>,
    default_index: Option<GlobalId>,
) -> Option<Antichain> {
    match as_of {
        Some(ts) => if le_time(since_join(m, ids), ts) {
            Some(Antichain { element: Some(ts) })
        } else {
            None
        },
        None => match default_index {
            Some(idx) => Some(
                Antichain {
                    element: Some(
                        match m[idx].upper_spec().element {
                            Some(t) => if t > 0 {
                                (t - 1) as u64
                            } else {
                                0
                            },
                            None => u64::MAX,
                        },
                    ),
                },
            ),
            None => Some(Antichain { element: Some(0) }),
        },
    }
}

pub proof fn lemma_dropped_nonempty(m: Map<GlobalId, Frontiers>, ids: Seq<GlobalId>)
    ensures
        dropped_in_order(m, ids).len() > 0 <==> exists|i: int|
            0 <= i < ids.len() && m.contains_key(#[trigger] ids[i]),
    decreases ids.len(),
{
    if ids.len() > 0 {
        let p = ids.drop_last();
        let l = ids.last();
        lemma_dropped_nonempty(m, p);
        if exists|i: int| 0 <= i < p.len() && m.contains_key(#[trigger] p[i]) {
            let i = choose|i: int| 0 <= i < p.len() && m.contains_key(#[trigger] p[i]);
            assert(ids[i] == p[i]);
        }
        if exists|i: int| 0 <= i < ids.len() && m.contains_key(#[trigger] ids[i]) {
            let i = choose|i: int| 0 <= i < ids.len() && m.contains_key(#[trigger] ids[i]);
            if i < p.len() {
                assert(p[i] == ids[i]);
            } else if p.contains(l) {
                let j = choose|j: int| 0 <= j < p.len() && p[j] == l;
                assert(m.contains_key(p[j]));
            }
        }
    }
}

/// The commands with which processing `events` extends the outbox `o0` to
/// `o1`, when `m` holds the tracked arrangements: an insert per system-table
/// update, in order; then the dropped sources, the dropped sinks, and the
/// dropped arrangements that were tracked, each group in one command and
/// only if it is not empty.
pub open spec fn catalog_outbox(
    o0: Seq<WorkerCommand>,
    events: Seq<CatalogEvent>,
    m: Map<GlobalId, Frontiers>,
    o1: Seq<WorkerCommand>,
) -> bool {
    let u = events_updates(events);
    let srcs = dropped_sources(events);
    let snks = dropped_sinks(events);
    let idxs = dropped_in_order(m, crate::catalog::dropped_indexes(events));
    let n = o0.len() as int;
    let k1 = n + u.len();
    let k2 = k1 + if srcs.len() > 0 { 1int } else { 0int };
    let k3 = k2 + if snks.len() > 0 { 1int } else { 0int };
    &&& o1.len() == k3 + if idxs.len() > 0 { 1int } else { 0int }
    &&& forall|i: int| 0 <= i < n ==> #[trigger] o1[i] == o0[i]
    &&& forall|i: int| 0 <= i < u.len() ==> #[trigger] system_insert_is(o1[n + i], u[i])
    &&& srcs.len() > 0 ==> o1[k1] == WorkerCommand::DropSources(o1[k1]->DropSources_0)
        && o1[k1]->DropSources_0@ == srcs
    &&& snks.len() > 0 ==> o1[k2] == WorkerCommand::DropSinks(o1[k2]->DropSinks_0)
        && o1[k2]->DropSinks_0@ == snks
    &&& idxs.len() > 0 ==> o1[k3] == WorkerCommand::DropIndexes(o1[k3]->DropIndexes_0)
        && o1[k3]->DropIndexes_0@ == idxs
}

/// The index that an event creates, if it creates one.
pub open spec fn created_index_at(e: CatalogEvent) -> Option<GlobalId> {
    match e {
        CatalogEvent::CreatedItem { id, item: CatalogItem::Index { .. }, .. } => Some(id),
        _ => None,
    }
}

/// The indexes that `events` create, in order.
pub open spec fn created_indexes(events: Seq<CatalogEvent>) -> Seq<GlobalId>
    decreases events.len(),
{
    if events.len() == 0 {
        Seq::empty()
    } else {
        let prev = created_indexes(events.drop_last());
        match created_index_at(events.last()) {
            Some(id) => prev.push(id),
            None => prev,
        }
    }
}

/// The command ships one dataflow, which exports exactly the index `id`.
pub open spec fn exports_only_index(cmd: WorkerCommand, id: GlobalId) -> bool {
    match cmd {
        WorkerCommand::CreateDataflows(dfs) => dfs@.len() == 1 && dfs@[0].index_exports@.len() == 1
            && dfs@[0].index_exports@[0].id == id,
        _ => false,
    }
}

/// The command ships a dataflow that exports the index `id`.
pub open spec fn exports_index(cmd: WorkerCommand, id: GlobalId) -> bool {
    match cmd {
        WorkerCommand::CreateDataflows(dfs) => exists|d: int, e: int|
            0 <= d < dfs@.len() && 0 <= e < dfs@[d].index_exports@.len()
                && #[trigger] dfs@[d].index_exports@[e].id == id,
        _ => false,
    }
}

/// The command ships a dataflow that exports one of `logs`.
pub open spec fn exports_log_index(cmd: WorkerCommand, logs: Seq<GlobalId>) -> bool {
    match cmd {
        WorkerCommand::CreateDataflows(dfs) => exists|d: int, e: int|
            0 <= d < dfs@.len() && 0 <= e < dfs@[d].index_exports@.len()
                && logs.contains(#[trigger] dfs@[d].index_exports@[e].id),
        _ => false,
    }
}

/// Processing catalog events ships no dataflow.
pub proof fn lemma_catalog_outbox_no_dataflows(
    o0: Seq<WorkerCommand>,
    events: Seq<CatalogEvent>,
    m: Map<GlobalId, Frontiers>,
    o1: Seq<WorkerCommand>,
    k: int,
)
    requires
        catalog_outbox(o0, events, m, o1),
        o0.len() <= k < o1.len(),
    ensures
        !(o1[k] is CreateDataflows),
{
    let u = events_updates(events);
    let n = o0.len() as int;
    if k < n + u.len() {
        assert(system_insert_is(o1[n + (k - n)], u[k - n]));
    }
}

/// The tracked ids among `ids` whose upper frontier is at time zero, in
/// order: the inputs with no complete time yet.
pub open spec fn unstarted_list(m: Map<GlobalId, Frontiers>, ids: Seq<GlobalId>) -> Seq<GlobalId>
    decreases ids.len(),
{
    if ids.len() == 0 {
        Seq::empty()
    } else {
        let prev = unstarted_list(m, ids.drop_last());
        if m.contains_key(ids.last()) && le_time(m[ids.last()].upper_spec(), 0) {
            prev.push(ids.last())
        } else {
            prev
        }
    }
}

/// The tracked ids among `ids` whose since frontier lies beyond `t`, in
/// order, each with its since frontier.
pub open spec fn invalid_list(m: Map<GlobalId, Frontiers>, ids: Seq<GlobalId>, t: u64) -> Seq<
    (GlobalId, Antichain),
>
    decreases ids.len(),
{
    if ids.len() == 0 {
        Seq::empty()
    } else {
        let prev = invalid_list(m, ids.drop_last(), t);
        if m.contains_key(ids.last()) && !le_time(m[ids.last()].since, t) {
            prev.push((ids.last(), m[ids.last()].since))
        } else {
            prev
        }
    }
}

/// The upper frontier of a fresh record whose `workers` start at `start`.
pub open spec fn fresh_upper(workers: u64, start: Antichain) -> Antichain {
    if workers > 0 {
        start
    } else {
        Antichain { element: None }
    }
}

/// No tracked arrangement has a transient id that is still to be allocated.
pub open spec fn transient_ok(m: Map<GlobalId, Frontiers>, counter: u64) -> bool {
    forall|k: GlobalId| #[trigger] m.contains_key(k) ==> fresh_for(k, counter)
}

/// `id` is not a transient id at or past `counter`, which is still to be
/// allocated.
pub open spec fn fresh_for(id: GlobalId, counter: u64) -> bool {
    match id {
        GlobalId::Transient(n) => n < counter,
        _ => true,
    }
}

/// The system-table rows that the sink exports of a shipped dataflow add:
/// for each, the row of its external resource, if it has one.
pub open spec fn sink_export_rows(sinks: Seq<crate::dataflow::SinkExport>) -> Seq<SpecUpdate>
    decreases sinks.len(),
{
    if sinks.len() == 0 {
        Seq::empty()
    } else {
        sink_export_rows(sinks.drop_last()) + crate::catalog::connector_rows(
            sinks.last().id,
            sinks.last().connector,
            1,
        )
    }
}

/// No sink export has an external resource.
pub open spec fn rows_none(sinks: Seq<crate::dataflow::SinkExport>) -> bool {
    forall|i: int| 0 <= i < sinks.len() ==> (#[trigger] sinks[i]).connector is Tail
}

pub proof fn lemma_rows_none_empty(sinks: Seq<crate::dataflow::SinkExport>)
    ensures
        rows_none(sinks) ==> sink_export_rows(sinks).len() == 0,
    decreases sinks.len(),
{
    if sinks.len() > 0 {
        if rows_none(sinks) {
            assert(rows_none(sinks.drop_last())) by {
                assert forall|i: int| 0 <= i < sinks.drop_last().len() implies (
                #[trigger] sinks.drop_last()[i]).connector is Tail by {
                    assert(sinks.drop_last()[i] == sinks[i]);
                }
            }
            assert(sinks.last() == sinks[sinks.len() - 1]);
        }
        lemma_rows_none_empty(sinks.drop_last());
    }
}

/// The `as_of` a shipped dataflow gets: the requested one, raised to `since`
/// where it lies below; `since` where none was requested.
pub open spec fn bound_as_of(as_of: Option<Antichain>, since: Antichain) -> Antichain {
    match as_of {
        Some(a) => if frontier_le(since, a) {
            a
        } else {
            join_spec(a, since)
        },
        None => since,
    }
}

/// Every shipped dataflow reads from no earlier than the join of the since
/// frontiers of the arrangements it imports.
pub proof fn lemma_bound_as_of_dominates(as_of: Option<Antichain>, since: Antichain)
    ensures
        frontier_le(since, bound_as_of(as_of, since)),
{
    if let Some(a) = as_of {
        crate::antichain::lemma_join_upper_bound(a, since);
    }
}

/// A read at an explicit time `t` is served at exactly `t` if every input
/// holds correct data there (the join of their since frontiers is at or
/// below `t`), and refused otherwise.
pub proof fn lemma_at_timestamp(
    since: Antichain,
    upper: Antichain,
    indexes_complete: bool,
    uses_tables: bool,
    read_ts: u64,
    t: u64,
)
    ensures
        chosen_timestamp(since, upper, indexes_complete, uses_tables, read_ts, PeekWhen::AtTimestamp(t))
            == (if le_time(since, t) {
            Some(t)
        } else {
            None
        }),
{
}

/// A copy of a list of ids.
pub fn copy_ids(v: &Vec<GlobalId>) -> (r: Vec<GlobalId>)
    ensures
        r@ == v@,
{
    let mut r: Vec<GlobalId> = Vec::new();
    let mut i: usize = 0;
    while i < v.len()
        invariant
            0 <= i <= v@.len(),
            r@ == v@.take(i as int),
        decreases v.len() - i,
    {
        r.push(v[i]);
        proof {
            assert(v@.take(i as int + 1) =~= v@.take(i as int).push(v@[i as int]));
        }
        i = i + 1;
    }
    proof {
        assert(v@.take(v@.len() as int) =~= v@);
    }
    r
}

/// True iff `v` holds `id`.
pub fn contains_id(v: &Vec<GlobalId>, id: GlobalId) -> (r: bool)
    ensures
        r == v@.contains(id),
{
    let mut i: usize = 0;
    while i < v.len()
        invariant
            0 <= i <= v@.len(),
            forall|j: int| 0 <= j < i ==> v@[j] != id,
        decreases v.len() - i,
    {
        if v[i] == id {
            proof {
                assert(v@[i as int] == id);
            }
            return true;
        }
        i = i + 1;
    }
    false
}

/// The columns among index keys that are plain columns, in order.
pub fn key_columns(keys: &Vec<crate::catalog::IndexKey>) -> (r: Vec<usize>)
    ensures
        r@ == key_columns_spec(keys@),
{
    let mut r: Vec<usize> = Vec::new();
    let mut i: usize = 0;
    while i < keys.len()
        invariant
            0 <= i <= keys@.len(),
            r@ == key_columns_spec(keys@.take(i as int)),
        decreases keys.len() - i,
    {
        proof {
            assert(keys@.take(i as int + 1).drop_last() =~= keys@.take(i as int));
        }
        if let Some(c) = keys[i].column {
            r.push(c);
        }
        i = i + 1;
    }
    proof {
        assert(keys@.take(keys@.len() as int) =~= keys@);
    }
    r
}

/// The plain-column key parts, in order.
pub open spec fn key_columns_spec(keys: Seq<crate::catalog::IndexKey>) -> Seq<usize>
    decreases keys.len(),
{
    if keys.len() == 0 {
        Seq::empty()
    } else {
        let prev = key_columns_spec(keys.drop_last());
        match keys.last().column {
            Some(c) => prev.push(c),
            None => prev,
        }
    }
}

pub proof fn lemma_push_contains<T>(s: Seq<T>, x: T, k: T)
    ensures
        s.push(x).contains(k) == (s.contains(k) || k == x),
{
    if k == x {
        assert(s.push(x)[s.len() as int] == x);
    }
    if s.contains(k) {
        let j = choose|j: int| 0 <= j < s.len() && s[j] == k;
        assert(s.push(x)[j] == k);
    }
    if s.push(x).contains(k) {
        let j = choose|j: int| 0 <= j < s.len() + 1 && s.push(x)[j] == k;
        if j < s.len() {
            assert(s[j] == k);
        }
    }
}

/// The command is an insert of exactly the update `u`, as a value, into its
/// system table.
pub open spec fn system_insert_is(cmd: WorkerCommand, u: SpecUpdate) -> bool {
    match cmd {
        WorkerCommand::InsertSystem { table, updates } => table == u.0 && updates@.len() == 1
            && updates@[0].row@ == u.1 && updates@[0].diff == u.2,
        _ => false,
    }
}

/// The command is an insert of exactly the update `u` into its system table.
pub open spec fn system_insert_matches(cmd: WorkerCommand, u: SystemUpdate) -> bool {
    match cmd {
        WorkerCommand::InsertSystem { table, updates } => table == u.table && updates@.len() == 1
            && updates@[0].row == u.row && updates@[0].diff == u.diff,
        _ => false,
    }
}

} // verus!

use coord::antichain::Antichain;
use coord::coordinator::{Coordinator, LogicalCompactionWindow, MessageOutcome, PeekWhen, TimestampError};
use coord::dataflow::PeekCandidate;
use coord::coordinator::PeekTarget;
use coord::messages::{AdvanceSourceTimestamp, ClientCommand, Message, WorkerFeedback};
use coord::dataflow::{DataflowDesc, WorkerCommand};
use coord::frontiers::{compaction_frontier, ArrangementFrontiers, Frontiers};
use coord::catalog::{CatalogEvent, CatalogItem, IndexKey, SinkConnector};
use coord::messages::{execute_portal, ExecuteDecision, SinkReadyAction};
use coord::oracle::TimestampOracle;
use coord::types::GlobalId;

fn idx(n: u64) -> GlobalId {
    GlobalId::User(n)
}

/// A coordinator tracking `id` with one worker whose upper moved to `upper`.
fn coord_with(window: Option<u64>, id: GlobalId, upper: u64) -> Coordinator {
    let mut c = Coordinator::new(1, window, None);
    let mut df = DataflowDesc::new("index".to_string());
    df.add_index_export(id, GlobalId::User(100), vec![0]);
    c.ship_dataflow(df, 5);
    if upper > 0 {
        c.update_upper(id, vec![(0, -1), (upper, 1)]);
    }
    c
}

#[test]
fn antichain_join_meet_and_order() {
    let a = Antichain::from_elem(3);
    let b = Antichain::from_elem(7);
    let e = Antichain::new();
    assert_eq!(a.join(&b), b);
    assert_eq!(a.meet(&b), a);
    assert_eq!(a.join(&e), e);
    assert_eq!(a.meet(&e), a);
    assert!(a.frontier_le(&b));
    assert!(!b.frontier_le(&a));
    assert!(a.frontier_le(&e));
    assert!(!e.frontier_le(&a));
    assert!(a.less_equal(3));
    assert!(!a.less_equal(2));
    assert!(!e.less_equal(u64::MAX));
    let mut c = Antichain::new();
    c.insert(9);
    c.insert(4);
    c.insert(6);
    assert_eq!(c, Antichain::from_elem(4));
    assert_eq!(c.elements(), vec![4]);
    assert!(e.elements().is_empty());
}

#[test]
fn compaction_frontier_rounds_down_to_window() {
    assert_eq!(compaction_frontier(&Antichain::from_elem(120), 100), Antichain::from_elem(0));
    assert_eq!(compaction_frontier(&Antichain::from_elem(250), 100), Antichain::from_elem(100));
    assert_eq!(compaction_frontier(&Antichain::from_elem(50), 100), Antichain::from_elem(0));
    assert_eq!(compaction_frontier(&Antichain::from_elem(1999), 1000), Antichain::from_elem(0));
    assert_eq!(compaction_frontier(&Antichain::from_elem(2000), 1000), Antichain::from_elem(1000));
    assert_eq!(compaction_frontier(&Antichain::new(), 100), Antichain::new());
    assert_eq!(compaction_frontier(&Antichain::from_elem(7), 0), Antichain::from_elem(7));
}

#[test]
fn new_frontiers_start_at_time_zero() {
    let f = Frontiers::new(3, Some(10));
    assert_eq!(f.upper(), Antichain::from_elem(0));
    assert_eq!(f.since, Antichain::from_elem(0));
    assert_eq!(f.compaction_window_ms, Some(10));
    let none = Frontiers::new(0, None);
    assert_eq!(none.upper(), Antichain::new());
}

#[test]
fn upper_moves_only_when_all_workers_advance() {
    let mut f = Frontiers::new(2, None);
    assert_eq!(f.apply_upper_changes(vec![(0, -1), (5, 1)]), Some(false));
    assert_eq!(f.upper(), Antichain::from_elem(0));
    assert_eq!(f.apply_upper_changes(vec![(0, -1), (8, 1)]), Some(true));
    assert_eq!(f.upper(), Antichain::from_elem(5));
    assert_eq!(f.apply_upper_changes(vec![(5, -1), (8, -1)]), Some(true));
    assert_eq!(f.upper(), Antichain::new());
}

#[test]
fn oversized_progress_is_refused() {
    let mut f = Frontiers::new(1, None);
    assert_eq!(f.apply_upper_changes(vec![(3, i64::MAX)]), None);
    assert_eq!(f.upper(), Antichain::from_elem(0));
}

#[test]
fn progress_compacts_since_and_maintenance_announces_it() {
    let id = idx(1);
    let mut c = coord_with(Some(100), id, 10);
    assert_eq!(c.indexes.upper_of(id), Some(Antichain::from_elem(10)));
    c.maintenance();
    c.outbox.clear();
    c.update_upper(id, vec![(10, -1), (120, 1)]);
    assert_eq!(c.indexes.upper_of(id), Some(Antichain::from_elem(120)));
    assert_eq!(c.indexes.since_of(id), Some(Antichain::from_elem(0)));
    c.update_upper(id, vec![(120, -1), (250, 1)]);
    assert_eq!(c.indexes.since_of(id), Some(Antichain::from_elem(100)));
    c.maintenance();
    assert!(c.since_updates.is_empty());
    match c.outbox.last() {
        Some(WorkerCommand::AllowCompaction(list)) => {
            assert_eq!(list, &vec![(id, Antichain::from_elem(100))]);
        }
        _ => panic!("expected a compaction command"),
    }
}

#[test]
fn unchanged_upper_leaves_since_unchanged() {
    let id = idx(2);
    let mut c = Coordinator::new(2, Some(100), None);
    let mut df = DataflowDesc::new("index".to_string());
    df.add_index_export(id, GlobalId::User(100), vec![0]);
    c.ship_dataflow(df, 5);
    c.update_upper(id, vec![(0, -2), (500, 2)]);
    assert_eq!(c.indexes.since_of(id), Some(Antichain::from_elem(400)));
    c.maintenance();
    let before = c.outbox.len();
    // One worker moves on; the frontier stays at 500.
    c.update_upper(id, vec![(500, -1), (900, 1)]);
    assert_eq!(c.indexes.upper_of(id), Some(Antichain::from_elem(500)));
    assert_eq!(c.indexes.since_of(id), Some(Antichain::from_elem(400)));
    assert!(c.since_updates.is_empty());
    c.maintenance();
    assert_eq!(c.outbox.len(), before);
}

#[test]
fn since_stays_below_upper_after_compaction() {
    let id = idx(3);
    let mut c = coord_with(Some(1000), id, 0);
    for t in [1500u64, 2999, 3000, 12345] {
        let old = c.indexes.upper_of(id).unwrap().element.unwrap();
        c.update_upper(id, vec![(old, -1), (t, 1)]);
        let since = c.indexes.since_of(id).unwrap();
        let upper = c.indexes.upper_of(id).unwrap();
        assert!(since.frontier_le(&upper));
    }
    assert_eq!(c.indexes.since_of(id), Some(Antichain::from_elem(11000)));
}

#[test]
fn complete_upper_is_not_compacted() {
    let id = idx(4);
    let mut c = coord_with(Some(10), id, 50);
    assert_eq!(c.indexes.since_of(id), Some(Antichain::from_elem(40)));
    c.update_upper(id, vec![(50, -1)]);
    assert_eq!(c.indexes.upper_of(id), Some(Antichain::new()));
    assert_eq!(c.indexes.since_of(id), Some(Antichain::from_elem(40)));
}

#[test]
fn no_window_means_no_compaction() {
    let id = idx(5);
    let mut c = coord_with(None, id, 70);
    assert_eq!(c.indexes.since_of(id), Some(Antichain::from_elem(0)));
    assert!(c.since_updates.is_empty());
    assert_eq!(
        c.sequence_alter_index_logical_compaction_window(Some((id, LogicalCompactionWindow::Custom(10)))),
        Ok(())
    );
    c.update_upper(id, vec![(70, -1), (95, 1)]);
    assert_eq!(c.indexes.since_of(id), Some(Antichain::from_elem(80)));
}

#[test]
fn altering_an_unknown_index_fails() {
    let mut c = Coordinator::new(1, Some(5), None);
    let r = c.sequence_alter_index_logical_compaction_window(Some((idx(9), LogicalCompactionWindow::Off)));
    assert_eq!(r, Err(coord::coordinator::CoordError::IndexNotFound(idx(9))));
    assert_eq!(c.sequence_alter_index_logical_compaction_window(None), Ok(()));
}

#[test]
fn alter_default_window_uses_coordinator_default() {
    let id = idx(6);
    let mut c = coord_with(None, id, 0);
    c.logical_compaction_window_ms = Some(250);
    assert_eq!(
        c.sequence_alter_index_logical_compaction_window(Some((id, LogicalCompactionWindow::Default))),
        Ok(())
    );
    let pos = c.indexes.find(id).unwrap();
    assert_eq!(c.indexes.entries[pos].1.compaction_window_ms, Some(250));
    c.sequence_alter_index_logical_compaction_window(Some((id, LogicalCompactionWindow::Off))).unwrap();
    let pos = c.indexes.find(id).unwrap();
    assert_eq!(c.indexes.entries[pos].1.compaction_window_ms, None);
}

#[test]
fn least_valid_since_and_greatest_open_upper() {
    let mut t = ArrangementFrontiers::new();
    let mut a = Frontiers::new(1, None);
    a.since = Antichain::from_elem(4);
    a.apply_upper_changes(vec![(0, -1), (20, 1)]);
    let mut b = Frontiers::new(1, None);
    b.since = Antichain::from_elem(9);
    b.apply_upper_changes(vec![(0, -1), (15, 1)]);
    t.insert(idx(1), a);
    t.insert(idx(2), b);
    let ids = vec![idx(1), idx(2), idx(3)];
    assert_eq!(t.least_valid_since(&ids), Antichain::from_elem(9));
    assert_eq!(t.greatest_open_upper(&ids), Antichain::from_elem(15));
    assert_eq!(t.least_valid_since(&vec![]), Antichain::from_elem(0));
    assert_eq!(t.greatest_open_upper(&vec![]), Antichain::new());
    assert!(t.remove(idx(1)).is_some());
    assert!(t.remove(idx(1)).is_none());
    assert!(!t.contains_key(idx(1)));
    assert!(t.contains_key(idx(2)));
}

#[test]
fn oracle_reads_follow_the_clock_and_never_go_back() {
    let mut o = TimestampOracle::new();
    assert_eq!(o.get_read_ts(1000), 1000);
    assert_eq!(o.get_read_ts(900), 1000);
    assert_eq!(o.get_read_ts(1001), 1001);
    assert!(o.last_op_was_read);
}

#[test]
fn oracle_write_after_read_is_strictly_later() {
    let mut o = TimestampOracle::new();
    let r = o.get_read_ts(5000);
    let w = o.get_write_ts(5000);
    assert_eq!(w, 5001);
    assert!(w > r);
    let w2 = o.get_write_ts(5000);
    assert!(w2 >= w);
    let r2 = o.get_read_ts(5000);
    assert!(r2 >= w2);
}

#[test]
fn oracle_write_is_not_before_closed_inputs() {
    let mut o = TimestampOracle::new();
    o.closed_up_to = 700;
    assert_eq!(o.get_write_ts(600), 700);
    assert_eq!(o.read_lower_bound, 700);
}

#[test]
fn insert_then_read_sees_the_write() {
    let mut c = Coordinator::new(1, None, None);
    let w = c.send_diffs(idx(1), vec![(vec![coord::types::Datum::Int64(1)], 1)], 1000);
    assert_eq!(w, 1000);
    match c.outbox.last() {
        Some(WorkerCommand::Insert { id, updates }) => {
            assert_eq!(*id, idx(1));
            assert_eq!(updates.len(), 1);
            assert_eq!(updates[0].timestamp, 1000);
            assert_eq!(updates[0].diff, 1);
        }
        _ => panic!("expected an insert"),
    }
    let r = c.determine_timestamp(&vec![], true, true, PeekWhen::Immediately, 1001).unwrap();
    assert!(r >= w + 1);
}

#[test]
fn advance_local_inputs_after_an_observed_time() {
    let mut c = Coordinator::new(1, None, None);
    c.advance_local_inputs(5000);
    assert_eq!(c.oracle.closed_up_to, 5000);
    match c.outbox.last() {
        Some(WorkerCommand::AdvanceAllLocalInputs { advance_to }) => assert_eq!(*advance_to, 5000),
        _ => panic!("expected an advance"),
    }
    let n = c.outbox.len();
    c.advance_local_inputs(5001);
    assert_eq!(c.outbox.len(), n);
    c.oracle.get_read_ts(6000);
    c.advance_local_inputs(6000);
    assert_eq!(c.oracle.closed_up_to, 6001);
}

#[test]
fn advance_local_inputs_on_a_new_logging_bucket() {
    let mut c = Coordinator::new(1, None, Some(1000));
    c.advance_local_inputs(1500);
    assert_eq!(c.oracle.closed_up_to, 1500);
    c.advance_local_inputs(1800);
    assert_eq!(c.oracle.closed_up_to, 1500);
    c.advance_local_inputs(2100);
    assert_eq!(c.oracle.closed_up_to, 2100);
}

#[test]
fn at_timestamp_is_served_iff_since_allows() {
    let id = idx(1);
    let mut c = coord_with(Some(100), id, 500);
    assert_eq!(c.indexes.since_of(id), Some(Antichain::from_elem(400)));
    let ids = vec![id];
    assert_eq!(c.determine_timestamp(&ids, true, false, PeekWhen::AtTimestamp(400), 0).unwrap(), 400);
    assert_eq!(c.determine_timestamp(&ids, false, false, PeekWhen::AtTimestamp(450), 0).unwrap(), 450);
    match c.determine_timestamp(&ids, true, false, PeekWhen::AtTimestamp(399), 0) {
        Err(TimestampError::InvalidTimestamp { timestamp, invalid }) => {
            assert_eq!(timestamp, 399);
            assert_eq!(invalid, vec![(id, Antichain::from_elem(400))]);
        }
        _ => panic!("expected an invalid timestamp"),
    }
}

#[test]
fn immediately_reads_just_below_upper() {
    let id = idx(1);
    let mut c = coord_with(None, id, 121);
    let r = c.determine_timestamp(&vec![id], true, false, PeekWhen::Immediately, 99999);
    assert_eq!(r.unwrap(), 120);
}

#[test]
fn immediately_on_complete_inputs_reads_the_last_time() {
    let mut c = Coordinator::new(1, None, None);
    let r = c.determine_timestamp(&vec![], true, false, PeekWhen::Immediately, 10);
    assert_eq!(r.unwrap(), u64::MAX);
}

#[test]
fn immediately_is_raised_to_since() {
    let id = idx(1);
    let mut c = coord_with(None, id, 50);
    let mut df = DataflowDesc::new("view".to_string());
    df.add_index_import(id);
    df.add_index_export(idx(2), idx(100), vec![]);
    c.ship_dataflow(df, 0);
    c.update_upper(idx(2), vec![(0, -1), (30, 1)]);
    let pos = c.indexes.find(idx(2)).unwrap();
    c.indexes.entries[pos].1.since = Antichain::from_elem(40);
    let r = c.determine_timestamp(&vec![idx(2)], true, false, PeekWhen::Immediately, 0);
    assert_eq!(r.unwrap(), 40);
}

#[test]
fn immediately_without_complete_times_fails() {
    let id = idx(1);
    let mut c = coord_with(None, id, 0);
    match c.determine_timestamp(&vec![id], true, false, PeekWhen::Immediately, 0) {
        Err(TimestampError::NoCompleteTimestamps { unstarted }) => assert_eq!(unstarted, vec![id]),
        _ => panic!("expected no complete timestamps"),
    }
}

#[test]
fn peek_on_non_materialized_view_fails() {
    let mut c = Coordinator::new(1, None, None);
    match c.determine_timestamp(&vec![], false, false, PeekWhen::Immediately, 0) {
        Err(TimestampError::NonMaterializedSources) => {}
        _ => panic!("expected a non-materialized error"),
    }
}

#[test]
fn peek_on_a_table_uses_the_read_timestamp() {
    let id = idx(1);
    let mut c = coord_with(None, id, 0);
    let r = c.determine_timestamp(&vec![id], true, true, PeekWhen::Immediately, 777).unwrap();
    assert_eq!(r, 777);
    assert_eq!(c.oracle.read_lower_bound, 777);
    assert!(c.oracle.last_op_was_read);
}

#[test]
fn shipped_as_of_is_raised_to_since() {
    let src = idx(1);
    let mut c = coord_with(Some(10), src, 100);
    assert_eq!(c.indexes.since_of(src), Some(Antichain::from_elem(90)));
    let mut df = DataflowDesc::new("sink".to_string());
    df.add_index_import(src);
    df.add_index_export(idx(2), src, vec![0]);
    df.set_as_of(Antichain::from_elem(50));
    c.ship_dataflow(df, 0);
    match c.outbox.last() {
        Some(WorkerCommand::CreateDataflows(dfs)) => {
            assert_eq!(dfs.len(), 1);
            assert_eq!(dfs[0].as_of, Some(Antichain::from_elem(90)));
            assert_eq!(dfs[0].debug_name, "sink");
        }
        _ => panic!("expected a dataflow"),
    }
    assert_eq!(c.indexes.since_of(idx(2)), Some(Antichain::from_elem(90)));
}

#[test]
fn shipped_as_of_defaults_to_since_and_keeps_later_times() {
    let src = idx(1);
    let mut c = coord_with(Some(10), src, 100);
    let mut df = DataflowDesc::new("a".to_string());
    df.add_index_import(src);
    c.ship_dataflow(df, 0);
    match c.outbox.last() {
        Some(WorkerCommand::CreateDataflows(dfs)) => assert_eq!(dfs[0].as_of, Some(Antichain::from_elem(90))),
        _ => panic!("expected a dataflow"),
    }
    let mut df = DataflowDesc::new("b".to_string());
    df.add_index_import(src);
    df.set_as_of(Antichain::from_elem(95));
    c.ship_dataflow(df, 0);
    match c.outbox.last() {
        Some(WorkerCommand::CreateDataflows(dfs)) => assert_eq!(dfs[0].as_of, Some(Antichain::from_elem(95))),
        _ => panic!("expected a dataflow"),
    }
}

#[test]
fn determine_frontier_cases() {
    let src_idx = idx(1);
    let mut c = coord_with(Some(10), src_idx, 100);
    assert_eq!(c.determine_frontier(None, &vec![], Some(src_idx)).unwrap(), Antichain::from_elem(99));
    assert_eq!(c.determine_frontier(None, &vec![], None).unwrap(), Antichain::from_elem(0));
    assert_eq!(c.determine_frontier(Some(95), &vec![src_idx], None).unwrap(), Antichain::from_elem(95));
    assert!(c.determine_frontier(Some(10), &vec![src_idx], None).is_err());
    c.update_upper(src_idx, vec![(100, -1)]);
    assert_eq!(c.determine_frontier(None, &vec![], Some(src_idx)).unwrap(), Antichain::from_elem(u64::MAX));
}

#[test]
fn drop_indexes_drops_only_tracked_ones() {
    let mut c = coord_with(None, idx(1), 0);
    c.drop_indexes(vec![idx(7), idx(1), idx(1)]);
    assert!(!c.indexes.contains_key(idx(1)));
    match c.outbox.last() {
        Some(WorkerCommand::DropIndexes(ids)) => assert_eq!(ids, &vec![idx(1)]),
        _ => panic!("expected a drop"),
    }
    let n = c.outbox.len();
    c.drop_indexes(vec![idx(7)]);
    assert_eq!(c.outbox.len(), n);
}

#[test]
fn transient_ids_are_fresh_until_exhausted() {
    let mut c = Coordinator::new(1, None, None);
    assert_eq!(c.allocate_transient_id(), Ok(GlobalId::Transient(1)));
    assert_eq!(c.allocate_transient_id(), Ok(GlobalId::Transient(2)));
    c.transient_id_counter = u64::MAX;
    assert_eq!(c.allocate_transient_id(), Err(coord::coordinator::CoordError::TransientIdOverflow));
}

#[test]
fn one_tail_per_connection() {
    let mut c = Coordinator::new(1, None, None);
    c.register_tail(7, idx(1));
    c.register_tail(7, idx(2));
    assert_eq!(c.active_tails.len(), 1);
    assert_eq!(c.active_tails.get(&7), Some(&idx(2)));
    c.handle_cancel(7);
    assert!(c.active_tails.is_empty());
    match c.outbox.last() {
        Some(WorkerCommand::DropSinks(ids)) => assert_eq!(ids, &vec![idx(2)]),
        _ => panic!("expected a sink drop"),
    }
    c.handle_cancel(7);
    match c.outbox.last() {
        Some(WorkerCommand::CancelPeek { conn_id }) => assert_eq!(*conn_id, 7),
        _ => panic!("expected a peek cancel"),
    }
    c.register_tail(8, idx(3));
    c.terminate_tail(8);
    assert!(c.active_tails.is_empty());
    let n = c.outbox.len();
    c.terminate_tail(8);
    assert_eq!(c.outbox.len(), n);
}

#[test]
fn frontier_uppers_feedback_compacts_and_announces() {
    let id = idx(1);
    let mut c = coord_with(Some(100), id, 10);
    c.maintenance();
    c.handle_frontier_uppers(vec![(id, vec![(10, -1), (250, 1)]), (idx(42), vec![(0, 1)])]);
    assert_eq!(c.indexes.since_of(id), Some(Antichain::from_elem(100)));
    assert!(c.since_updates.is_empty());
    match c.outbox.last() {
        Some(WorkerCommand::AllowCompaction(list)) => assert_eq!(list, &vec![(id, Antichain::from_elem(100))]),
        _ => panic!("expected compaction"),
    }
}

#[test]
fn peek_uses_the_best_index_when_one_exists() {
    let id = idx(1);
    let mut c = coord_with(None, id, 60);
    let candidates = vec![
        PeekCandidate { id, key_len: 1, literal: None },
        PeekCandidate { id: idx(9), key_len: 1, literal: Some(vec![coord::types::Datum::Int64(3)]) },
    ];
    let transient = c.transient_id_counter;
    let r = c.sequence_peek(4, &vec![id], true, false, PeekWhen::Immediately, None, candidates, 0);
    match r {
        Ok((ts, PeekTarget::Index(chosen))) => {
            assert_eq!(ts, 59);
            assert_eq!(chosen, idx(9));
        }
        _ => panic!("expected a peek"),
    }
    assert_eq!(c.transient_id_counter, transient);
    match c.outbox.last() {
        Some(WorkerCommand::Peek { id, key, conn_id, timestamp }) => {
            assert_eq!(*id, idx(9));
            assert!(key.is_some());
            assert_eq!(*conn_id, 4);
            assert_eq!(*timestamp, 59);
        }
        _ => panic!("expected a peek command"),
    }
}

#[test]
fn peek_without_index_builds_and_drops_a_transient_dataflow() {
    let id = idx(1);
    let mut c = coord_with(None, id, 60);
    c.outbox.clear();
    let r = c.sequence_peek(4, &vec![id], true, false, PeekWhen::AtTimestamp(30), None, vec![], 0);
    let (ts, index_id) = match r {
        Ok((ts, PeekTarget::Index(x))) => (ts, x),
        _ => panic!("expected a peek"),
    };
    assert_eq!(c.transient_id_counter, 3);
    assert_eq!(ts, 30);
    assert_eq!(index_id, GlobalId::Transient(1));
    assert!(!c.indexes.contains_key(index_id));
    let n = c.outbox.len();
    match &c.outbox[n - 3] {
        WorkerCommand::CreateDataflows(dfs) => {
            assert_eq!(dfs[0].as_of, Some(Antichain::from_elem(30)));
            assert_eq!(dfs[0].index_imports, vec![id]);
            assert_eq!(dfs[0].index_exports[0].id, index_id);
        }
        _ => panic!("expected a dataflow"),
    }
    assert!(matches!(&c.outbox[n - 2], WorkerCommand::Peek { id, .. } if *id == index_id));
    assert!(matches!(&c.outbox[n - 1], WorkerCommand::DropIndexes(ids) if ids == &vec![index_id]));
}

#[test]
fn peek_at_a_compacted_time_fails_and_issues_nothing() {
    let id = idx(1);
    let mut c = coord_with(Some(10), id, 100);
    let n = c.outbox.len();
    let r = c.sequence_peek(4, &vec![id], true, false, PeekWhen::AtTimestamp(5), None, vec![], 0);
    assert!(r.is_err());
    assert_eq!(c.outbox.len(), n);
}

#[test]
fn tail_registers_and_ships_a_sink() {
    let id = idx(1);
    let mut c = coord_with(None, id, 60);
    let f = c.sequence_tail(3, idx(100), idx(50), None, &vec![id], Some(id), true, vec![id], 0).unwrap();
    assert_eq!(f, Antichain::from_elem(59));
    assert_eq!(c.active_tails.get(&3), Some(&idx(50)));
    match c.outbox.last() {
        Some(WorkerCommand::CreateDataflows(dfs)) => {
            assert_eq!(dfs[0].sink_exports.len(), 1);
            assert_eq!(dfs[0].sink_exports[0].id, idx(50));
        }
        _ => panic!("expected a dataflow"),
    }
    let err = c.sequence_tail(5, idx(100), idx(51), Some(0), &vec![], None, false, vec![], 0);
    assert!(err.is_ok());
}

#[test]
fn messages_dispatch() {
    let mut c = Coordinator::new(1, None, None);
    c.register_tail(2, idx(7));
    assert!(matches!(c.handle_message(Message::Command(ClientCommand::Terminate { conn_id: 2 })), MessageOutcome::Terminated { conn_id: 2 }));
    assert!(c.active_tails.is_empty());
    assert!(matches!(
        c.handle_message(Message::Worker(WorkerFeedback::CreateSource { source_id: idx(3), instance: 1 })),
        MessageOutcome::AddSourceInstance { instance: 1, .. }
    ));
    let adv = AdvanceSourceTimestamp { source_id: idx(3), instance: 1, advance_to: Antichain::from_elem(9) };
    assert!(matches!(c.handle_message(Message::AdvanceSourceTimestamp(adv)), MessageOutcome::Handled));
    assert!(matches!(c.outbox.last(), Some(WorkerCommand::AdvanceSourceTimestamp { instance: 1, .. })));
    assert!(matches!(c.handle_message(Message::Shutdown), MessageOutcome::Stop));
    assert!(matches!(c.outbox.last(), Some(WorkerCommand::Shutdown)));
}

#[test]
fn bootstrap_tracks_log_indexes_and_ships_the_others() {
    let idx_item = |on: GlobalId| CatalogItem::Index {
        on,
        keys: vec![IndexKey { column: Some(0), sql: "a".to_string() }],
        nullable: vec![false],
    };
    let events = vec![
        CatalogEvent::CreatedItem { schema_id: 1, id: GlobalId::System(1), oid: 1, name: "log_idx".to_string(), item: idx_item(GlobalId::System(2)) },
        CatalogEvent::CreatedItem { schema_id: 1, id: idx(5), oid: 2, name: "t_primary_idx".to_string(), item: idx_item(idx(4)) },
    ];
    let mut c = Coordinator::new(1, Some(60), None);
    c.bootstrap(&events, &vec![GlobalId::System(1)], Some(1000), 10);
    assert!(c.indexes.contains_key(GlobalId::System(1)));
    assert!(c.indexes.contains_key(idx(5)));
    let pos = c.indexes.find(GlobalId::System(1)).unwrap();
    assert_eq!(c.indexes.entries[pos].1.compaction_window_ms, Some(1000));
    let pos = c.indexes.find(idx(5)).unwrap();
    assert_eq!(c.indexes.entries[pos].1.compaction_window_ms, Some(60));
    let shipped: Vec<GlobalId> = c
        .outbox
        .iter()
        .filter_map(|cmd| match cmd {
            WorkerCommand::CreateDataflows(dfs) => Some(dfs[0].index_exports[0].id),
            _ => None,
        })
        .collect();
    assert_eq!(shipped, vec![idx(5)]);
}

#[test]
fn create_sink_then_ship_when_ready() {
    let src = idx(1);
    let mut c = coord_with(None, src, 40);
    let pending = c.sequence_create_sink(idx(100), None, &vec![src], Some(src), true).ok().unwrap();
    assert_eq!(pending.frontier, Antichain::from_elem(39));
    assert!(c.sequence_create_sink(idx(100), Some(0), &vec![src], None, true).is_ok());
    let n = c.outbox.len();
    let r = c.message_sink_connector_ready("s".to_string(), idx(9), idx(100), Err("no broker".to_string()), true, vec![src], 0);
    assert_eq!(r, SinkReadyAction::DropPlaceholder);
    let r = c.message_sink_connector_ready("s".to_string(), idx(9), idx(100), Ok(SinkConnector::Tail { frontier: Antichain::from_elem(0), strict: false }), false, vec![src], 0);
    assert_eq!(r, SinkReadyAction::ReportOnly);
    assert_eq!(c.outbox.len(), n);
    let r = c.message_sink_connector_ready("s".to_string(), idx(9), idx(100), Ok(SinkConnector::Tail { frontier: Antichain::from_elem(0), strict: false }), true, vec![src], 0);
    assert_eq!(r, SinkReadyAction::ShipAndReport);
    match c.outbox.last() {
        Some(WorkerCommand::CreateDataflows(dfs)) => assert_eq!(dfs[0].sink_exports[0].id, idx(9)),
        _ => panic!("expected a dataflow"),
    }
}

#[test]
fn finish_create_follows_the_transaction() {
    let mut c = Coordinator::new(1, None, None);
    assert_eq!(c.finish_create(vec![(idx(2), idx(1), vec![0])], Err("exists".to_string()), true, 0), Ok(true));
    assert_eq!(c.finish_create(vec![(idx(2), idx(1), vec![0])], Err("exists".to_string()), false, 0), Err("exists".to_string()));
    assert!(c.outbox.is_empty());
    assert_eq!(c.finish_create(vec![(idx(2), idx(1), vec![0])], Ok(vec![]), false, 0), Ok(false));
    assert!(c.indexes.contains_key(idx(2)));
    assert!(matches!(c.outbox.last(), Some(WorkerCommand::CreateDataflows(_))));
}

#[test]
fn portals_execute_by_their_contents() {
    assert_eq!(execute_portal(false, true), ExecuteDecision::PortalMissing);
    assert_eq!(execute_portal(true, false), ExecuteDecision::EmptyQuery);
    assert_eq!(execute_portal(true, true), ExecuteDecision::Purify);
}

#[test]
fn constant_peek_answers_rows_and_sends_nothing() {
    let id = idx(1);
    let mut c = coord_with(None, id, 60);
    let n = c.outbox.len();
    let rows = vec![(vec![coord::types::Datum::Int64(7)], 2), (vec![coord::types::Datum::Int64(8)], 0), (vec![coord::types::Datum::Int64(9)], 1)];
    match c.sequence_peek(4, &vec![id], true, false, PeekWhen::Immediately, Some(rows), vec![], 0) {
        Ok((59, PeekTarget::Rows(out))) => {
            assert_eq!(out.len(), 3);
            assert!(matches!(out[0][0], coord::types::Datum::Int64(7)));
            assert!(matches!(out[1][0], coord::types::Datum::Int64(7)));
            assert!(matches!(out[2][0], coord::types::Datum::Int64(9)));
        }
        _ => panic!("expected rows"),
    }
    assert_eq!(c.outbox.len(), n);
    assert_eq!(c.transient_id_counter, 1);
}

#[test]
fn fast_path_ties_go_to_the_larger_id() {
    let cands = vec![
        PeekCandidate { id: idx(7), key_len: 2, literal: None },
        PeekCandidate { id: idx(3), key_len: 2, literal: None },
        PeekCandidate { id: GlobalId::System(1), key_len: 2, literal: None },
        PeekCandidate { id: idx(9), key_len: 2, literal: None },
    ];
    assert_eq!(coord::dataflow::choose_fast_path(cands).unwrap().id, GlobalId::System(1));
}

#[test]
fn new_records_start_at_their_since() {
    let src = idx(1);
    let mut c = coord_with(Some(10), src, 100);
    let mut df = DataflowDesc::new("v".to_string());
    df.add_index_import(src);
    df.add_index_export(idx(2), src, vec![0]);
    c.ship_dataflow(df, 0);
    let since = c.indexes.since_of(idx(2)).unwrap();
    let upper = c.indexes.upper_of(idx(2)).unwrap();
    assert_eq!(since, Antichain::from_elem(90));
    assert_eq!(upper, Antichain::from_elem(90));
    assert!(since.frontier_le(&upper));
    c.update_upper(idx(2), vec![(90, -1), (130, 1)]);
    assert_eq!(c.indexes.upper_of(idx(2)), Some(Antichain::from_elem(130)));
    assert_eq!(c.indexes.since_of(idx(2)), Some(Antichain::from_elem(120)));
}

#[test]
fn timestamp_errors_name_their_cause() {
    let id = idx(1);
    let mut c = coord_with(Some(10), id, 100);
    match c.determine_timestamp(&vec![id], true, false, PeekWhen::AtTimestamp(3), 0) {
        Err(TimestampError::InvalidTimestamp { timestamp: 3, .. }) => {}
        _ => panic!("expected an invalid timestamp"),
    }
}

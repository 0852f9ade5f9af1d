use coord::catalog::{
    catalog_effects, check_not_null, creation_response, CatalogEvent, CatalogItem, Column, IndexKey, SinkConnector, SinkConnectorState,
    SystemTable, SystemUpdate, TypeInner,
};
use coord::coordinator::Coordinator;
use coord::dataflow::{DataflowDesc, WorkerCommand};
use coord::types::{Datum, GlobalId};

fn col(name: &str, nullable: bool) -> Column {
    Column { name: name.to_string(), nullable, sql_type: "int4".to_string() }
}

fn table_item() -> CatalogItem {
    CatalogItem::Table { desc: vec![col("a", true), col("b", false)] }
}

fn index_item(on: GlobalId) -> CatalogItem {
    CatalogItem::Index {
        on,
        keys: vec![IndexKey { column: Some(0), sql: "a".to_string() }, IndexKey { column: None, sql: "a + b".to_string() }],
        nullable: vec![true, false],
    }
}

fn datum_key(d: &Datum) -> String {
    match d {
        Datum::Null => "null".to_string(),
        Datum::Bool(b) => format!("b{}", b),
        Datum::Int32(i) => format!("i{}", i),
        Datum::Int64(i) => format!("l{}", i),
        Datum::Numeric(i) => format!("n{}", i),
        Datum::String(s) => format!("s{}", s),
        Datum::Id(id) => format!("{:?}", id),
    }
}

fn row_key(u: &SystemUpdate) -> String {
    let cells: Vec<String> = u.row.iter().map(datum_key).collect();
    format!("{:?}|{}", u.table, cells.join(","))
}

/// The net diff of every (table, row) over the updates.
fn net(updates: &[SystemUpdate]) -> std::collections::BTreeMap<String, i64> {
    let mut m = std::collections::BTreeMap::new();
    for u in updates {
        *m.entry(row_key(u)).or_insert(0) += u.diff;
    }
    m.retain(|_, v| *v != 0);
    m
}

#[test]
fn created_table_reports_columns_and_table_row() {
    let id = GlobalId::User(1);
    let e = vec![CatalogEvent::CreatedItem { schema_id: 3, id, oid: 20001, name: "t".to_string(), item: table_item() }];
    let fx = catalog_effects(&e);
    assert_eq!(fx.updates.len(), 3);
    assert_eq!(fx.updates[0].table, SystemTable::Columns);
    assert_eq!(row_key(&fx.updates[0]), format!("Columns|{:?},sa,l1,btrue,sint4", id));
    assert_eq!(row_key(&fx.updates[1]), format!("Columns|{:?},sb,l2,bfalse,sint4", id));
    assert_eq!(fx.updates[2].table, SystemTable::Tables);
    assert_eq!(row_key(&fx.updates[2]), format!("Tables|{:?},i20001,l3,st", id));
    assert!(fx.updates.iter().all(|u| u.diff == 1));
    assert!(fx.sources_to_drop.is_empty() && fx.sinks_to_drop.is_empty() && fx.indexes_to_drop.is_empty());
}

#[test]
fn create_then_drop_nets_to_zero() {
    let id = GlobalId::User(1);
    let idx = GlobalId::User(2);
    let events = vec![
        CatalogEvent::CreatedItem { schema_id: 3, id, oid: 1, name: "t".to_string(), item: table_item() },
        CatalogEvent::CreatedItem { schema_id: 3, id: idx, oid: 2, name: "t_primary_idx".to_string(), item: index_item(id) },
        CatalogEvent::DroppedIndex {
            id: idx,
            oid: 2,
            name: "t_primary_idx".to_string(),
            on: id,
            keys: vec![IndexKey { column: Some(0), sql: "a".to_string() }, IndexKey { column: None, sql: "a + b".to_string() }],
            nullable: vec![true, false],
        },
        CatalogEvent::DroppedItem { schema_id: 3, id, oid: 1, name: "t".to_string(), item: table_item() },
    ];
    let fx = catalog_effects(&events);
    assert!(net(&fx.updates).is_empty());
    assert_eq!(fx.sources_to_drop, vec![id]);
    assert_eq!(fx.indexes_to_drop, vec![idx]);
}

#[test]
fn type_create_then_drop_nets_to_zero() {
    let id = GlobalId::User(5);
    let item = || CatalogItem::Type { inner: TypeInner::KeyValue { key_id: GlobalId::System(1), value_id: GlobalId::System(2) } };
    let events = vec![
        CatalogEvent::CreatedItem { schema_id: 1, id, oid: 9, name: "m".to_string(), item: item() },
        CatalogEvent::DroppedItem { schema_id: 1, id, oid: 9, name: "m".to_string(), item: item() },
    ];
    let fx = catalog_effects(&events);
    assert_eq!(fx.updates.len(), 4);
    assert_eq!(fx.updates[1].table, SystemTable::MapTypes);
    assert!(net(&fx.updates).is_empty());
}

#[test]
fn ready_sink_drop_retracts_connector_row() {
    let id = GlobalId::User(8);
    let sink = || CatalogItem::Sink {
        from: GlobalId::User(1),
        connector: SinkConnectorState::Ready(SinkConnector::Kafka { topic: "out".to_string() }),
    };
    let mut c = Coordinator::new(1, None, None);
    let created = vec![CatalogEvent::CreatedItem { schema_id: 1, id, oid: 4, name: "s".to_string(), item: sink() }];
    c.process_catalog_events(&created, 10);
    let mut df = DataflowDesc::new("sink".to_string());
    df.add_sink_export(id, GlobalId::User(1), SinkConnector::Kafka { topic: "out".to_string() });
    c.ship_dataflow(df, 10);
    let dropped = vec![CatalogEvent::DroppedItem { schema_id: 1, id, oid: 4, name: "s".to_string(), item: sink() }];
    c.process_catalog_events(&dropped, 10);
    let mut all: Vec<SystemUpdate> = Vec::new();
    let mut sink_drops = 0;
    for cmd in c.outbox.drain(..) {
        match cmd {
            WorkerCommand::InsertSystem { table, updates } => {
                for u in updates {
                    all.push(SystemUpdate { table, row: u.row, diff: u.diff });
                }
            }
            WorkerCommand::DropSinks(ids) => {
                assert_eq!(ids, vec![id]);
                sink_drops += 1;
            }
            _ => {}
        }
    }
    assert_eq!(sink_drops, 1);
    assert!(all.iter().any(|u| u.table == SystemTable::KafkaSinks && u.diff == -1));
    assert!(net(&all).is_empty());
}

#[test]
fn pending_sink_has_nothing_to_drop() {
    let id = GlobalId::User(8);
    let events = vec![CatalogEvent::DroppedItem {
        schema_id: 1,
        id,
        oid: 4,
        name: "s".to_string(),
        item: CatalogItem::Sink { from: GlobalId::User(1), connector: SinkConnectorState::Pending },
    }];
    let fx = catalog_effects(&events);
    assert!(fx.updates.is_empty());
    assert!(fx.sinks_to_drop.is_empty());
}

#[test]
fn rename_retracts_old_name_and_adds_new() {
    let id = GlobalId::User(1);
    let events = vec![CatalogEvent::UpdatedItem {
        schema_id: 3,
        id,
        oid: 7,
        from_name: "old".to_string(),
        to_name: "new".to_string(),
        item: CatalogItem::View { desc: vec![col("a", true)] },
    }];
    let fx = catalog_effects(&events);
    assert_eq!(fx.updates.len(), 2);
    assert_eq!(row_key(&fx.updates[0]), format!("Views|{:?},i7,l3,sold", id));
    assert_eq!(fx.updates[0].diff, -1);
    assert_eq!(row_key(&fx.updates[1]), format!("Views|{:?},i7,l3,snew", id));
    assert_eq!(fx.updates[1].diff, 1);
}

#[test]
fn rename_of_index_cancels_key_rows() {
    let id = GlobalId::User(2);
    let events = vec![CatalogEvent::UpdatedItem {
        schema_id: 3,
        id,
        oid: 7,
        from_name: "i1".to_string(),
        to_name: "i2".to_string(),
        item: index_item(GlobalId::User(1)),
    }];
    let fx = catalog_effects(&events);
    assert_eq!(fx.updates.len(), 6);
    let n = net(&fx.updates);
    assert_eq!(n.len(), 2);
    assert_eq!(n.get(&format!("Indexes|{:?},i7,si1,{:?}", id, GlobalId::User(1))), Some(&-1));
    assert_eq!(n.get(&format!("Indexes|{:?},i7,si2,{:?}", id, GlobalId::User(1))), Some(&1));
    assert_eq!(row_key(&fx.updates[1]), format!("IndexColumns|{:?},l1,l1,null,btrue", id));
    assert_eq!(row_key(&fx.updates[2]), format!("IndexColumns|{:?},l2,null,sa + b,bfalse", id));
}

#[test]
fn drop_cascade_batches_drops() {
    let t = GlobalId::User(1);
    let v = GlobalId::User(2);
    let vi = GlobalId::User(3);
    let events = vec![
        CatalogEvent::DroppedIndex { id: vi, oid: 30, name: "v_primary_idx".to_string(), on: v, keys: vec![], nullable: vec![] },
        CatalogEvent::DroppedItem { schema_id: 1, id: v, oid: 20, name: "v".to_string(), item: CatalogItem::View { desc: vec![] } },
        CatalogEvent::DroppedItem { schema_id: 1, id: t, oid: 10, name: "t".to_string(), item: CatalogItem::Table { desc: vec![] } },
    ];
    let mut c = Coordinator::new(1, None, None);
    let mut df = DataflowDesc::new("v".to_string());
    df.add_index_export(vi, v, vec![]);
    c.ship_dataflow(df, 0);
    c.outbox.clear();
    c.process_catalog_events(&events, 100);
    let views = c.outbox.iter().filter(|cmd| matches!(cmd, WorkerCommand::InsertSystem { table: SystemTable::Views, .. })).count();
    let tables = c.outbox.iter().filter(|cmd| matches!(cmd, WorkerCommand::InsertSystem { table: SystemTable::Tables, .. })).count();
    assert_eq!(views, 1);
    assert_eq!(tables, 1);
    let n = c.outbox.len();
    assert!(matches!(&c.outbox[n - 2], WorkerCommand::DropSources(ids) if ids == &vec![t]));
    assert!(matches!(&c.outbox[n - 1], WorkerCommand::DropIndexes(ids) if ids == &vec![vi]));
    assert!(!c.indexes.contains_key(vi));
}

#[test]
fn database_and_schema_rows() {
    let events = vec![
        CatalogEvent::CreatedDatabase { id: 4, oid: 100, name: "db".to_string() },
        CatalogEvent::CreatedSchema { database_id: Some(4), schema_id: 5, schema_name: "public".to_string(), oid: 101 },
        CatalogEvent::CreatedSchema { database_id: None, schema_id: 6, schema_name: "mz_temp".to_string(), oid: 102 },
        CatalogEvent::DroppedSchema { database_id: 4, schema_id: 5, schema_name: "public".to_string(), oid: 101 },
        CatalogEvent::DroppedDatabase { id: 4, oid: 100, name: "db".to_string() },
    ];
    let fx = catalog_effects(&events);
    assert_eq!(row_key(&fx.updates[0]), "Databases|l4,i100,sdb");
    assert_eq!(row_key(&fx.updates[1]), "Schemas|l5,i101,l4,spublic");
    assert_eq!(row_key(&fx.updates[2]), "Schemas|l6,i102,null,smz_temp");
    let n = net(&fx.updates);
    assert_eq!(n.len(), 1);
    assert!(n.contains_key("Schemas|l6,i102,null,smz_temp"));
}

#[test]
fn system_updates_get_increasing_write_timestamps() {
    let mut c = Coordinator::new(1, None, None);
    c.oracle.get_read_ts(500);
    let events = vec![
        CatalogEvent::CreatedDatabase { id: 1, oid: 1, name: "a".to_string() },
        CatalogEvent::CreatedDatabase { id: 2, oid: 2, name: "b".to_string() },
    ];
    c.process_catalog_events(&events, 500);
    let ts: Vec<u64> = c
        .outbox
        .iter()
        .filter_map(|cmd| match cmd {
            WorkerCommand::InsertSystem { updates, .. } => Some(updates[0].timestamp),
            _ => None,
        })
        .collect();
    assert_eq!(ts, vec![501, 501]);
}

#[test]
fn not_null_columns_refuse_nulls() {
    let desc = vec![col("a", true), col("b", false)];
    let ok = vec![vec![Datum::Null, Datum::Int64(1)], vec![Datum::Int64(2), Datum::Int64(3)]];
    assert_eq!(check_not_null(&ok, &desc), Ok(()));
    let bad = vec![vec![Datum::Int64(1), Datum::Int64(1)], vec![Datum::Int64(2), Datum::Null]];
    assert_eq!(check_not_null(&bad, &desc), Err("b".to_string()));
    assert_eq!(check_not_null(&vec![], &desc), Ok(()));
}

#[test]
fn create_responses_follow_if_not_exists() {
    assert_eq!(creation_response(Ok(()), false), Ok(false));
    assert_eq!(creation_response(Err("exists".to_string()), true), Ok(true));
    assert_eq!(creation_response(Err("exists".to_string()), false), Err("exists".to_string()));
}

#[test]
fn log_indexes_and_ready_sinks() {
    let mut c = Coordinator::new(2, Some(5), None);
    c.track_log_index(GlobalId::System(300), Some(1000));
    assert!(c.indexes.contains_key(GlobalId::System(300)));
    let pos = c.indexes.find(GlobalId::System(300)).unwrap();
    assert_eq!(c.indexes.entries[pos].1.compaction_window_ms, Some(1000));
    c.ship_sink(
        "sink".to_string(),
        GlobalId::User(9),
        GlobalId::User(1),
        SinkConnector::AvroOcf { path: "/tmp/x.ocf".to_string() },
        vec![GlobalId::System(300)],
        50,
    );
    let n = c.outbox.len();
    assert!(matches!(&c.outbox[n - 2], WorkerCommand::InsertSystem { table: SystemTable::AvroOcfSinks, .. }));
    match &c.outbox[n - 1] {
        WorkerCommand::CreateDataflows(dfs) => {
            assert_eq!(dfs[0].index_imports, vec![GlobalId::System(300)]);
            assert_eq!(dfs[0].sink_exports[0].id, GlobalId::User(9));
        }
        _ => panic!("expected a dataflow"),
    }
}

#[test]
fn create_table_plans_the_table_and_its_primary_index() {
    let plan = coord::plans::CreatePlan::Table {
        name: "t".to_string(),
        table: table_item(),
        index_name: "t_primary_idx".to_string(),
        index: index_item(GlobalId::User(1)),
    };
    let ops = coord::plans::create_ops(plan, &vec![GlobalId::User(1), GlobalId::User(2)], &vec![10, 11]);
    assert_eq!(ops.len(), 2);
    match (&ops[0], &ops[1]) {
        (
            coord::plans::CatalogOp::CreateItem { id: a, oid: 10, name: na, .. },
            coord::plans::CatalogOp::CreateItem { id: b, oid: 11, name: nb, item: CatalogItem::Index { .. } },
        ) => {
            assert_eq!(*a, GlobalId::User(1));
            assert_eq!(*b, GlobalId::User(2));
            assert_eq!(na, "t");
            assert_eq!(nb, "t_primary_idx");
        }
        _ => panic!("unexpected operations"),
    }
    let db = coord::plans::create_ops(
        coord::plans::CreatePlan::Database { name: "d".to_string(), schema_name: "public".to_string() },
        &vec![],
        &vec![1, 2],
    );
    assert!(matches!(&db[1], coord::plans::CatalogOp::CreateSchema { database_name, schema_name, oid: 2 } if database_name == "d" && schema_name == "public"));
}

#[test]
fn plans_sequence_into_their_next_step() {
    let s = coord::plans::sequence_plan(coord::plans::Plan::CommitTransaction, &vec![], &vec![], coord::plans::TransactionStatus::InTransactionImplicit);
    assert!(matches!(s, coord::plans::PlanStep::TransactionExited { commit: true, was_implicit: true }));
    let s = coord::plans::sequence_plan(coord::plans::Plan::AbortTransaction, &vec![], &vec![], coord::plans::TransactionStatus::InTransactionExplicit);
    assert!(matches!(s, coord::plans::PlanStep::TransactionExited { commit: false, was_implicit: false }));
    let s = coord::plans::sequence_plan(coord::plans::Plan::DiscardAll, &vec![], &vec![], coord::plans::TransactionStatus::InTransactionExplicit);
    assert!(matches!(s, coord::plans::PlanStep::RefusedInTransaction));
    let s = coord::plans::sequence_plan(coord::plans::Plan::DiscardAll, &vec![], &vec![], coord::plans::TransactionStatus::Idle);
    assert!(matches!(s, coord::plans::PlanStep::DiscardAll));
    let s = coord::plans::sequence_plan(
        coord::plans::Plan::AlterItemRename { id: None, to_name: "x".to_string() },
        &vec![],
        &vec![],
        coord::plans::TransactionStatus::Idle,
    );
    assert!(matches!(s, coord::plans::PlanStep::Done));
    let s = coord::plans::sequence_plan(
        coord::plans::Plan::AlterItemRename { id: Some(GlobalId::User(4)), to_name: "x".to_string() },
        &vec![],
        &vec![],
        coord::plans::TransactionStatus::Idle,
    );
    match s {
        coord::plans::PlanStep::Transact(ops) => {
            assert_eq!(ops.len(), 1);
            assert!(matches!(&ops[0], coord::plans::CatalogOp::RenameItem { id: GlobalId::User(4), to_name } if to_name == "x"));
        }
        _ => panic!("expected a transaction"),
    }
}

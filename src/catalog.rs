use vstd::prelude::*;

use crate::antichain::Antichain;
use crate::types::{Datum, GlobalId, Row};

verus! {

/// A column of a relation, as the system tables show it.
pub struct Column {
    /// The column name; the catalog names an unnamed column `?column?`.
    pub name: String,
    pub nullable: bool,
    /// The name of the column's SQL type.
    pub sql_type: String,
}

/// One key part of an index: a plain column, or an expression with its SQL.
pub struct IndexKey {
    pub column: Option<usize>,
    pub sql: String,
}

/// The external resource behind a sink.
pub enum SinkConnector {
    Kafka { topic: String },
    AvroOcf { path: String },
    /// Updates streamed to a client from `frontier` on; a strict tail sends
    /// no snapshot of the data at the frontier.
    Tail { frontier: Antichain, strict: bool },
}

/// A sink's connector is built asynchronously: until then the sink is a
/// placeholder with no dataflow.
pub enum SinkConnectorState {
    Pending,
    Ready(SinkConnector),
}

pub enum TypeInner {
    Array { element_id: GlobalId },
    Base,
    List { element_id: GlobalId },
    KeyValue { key_id: GlobalId, value_id: GlobalId },
}

pub enum CatalogItem {
    Table { desc: Vec<Column> },
    Source { desc: Vec<Column>, caching_enabled: bool },
    View { desc: Vec<Column> },
    Sink { from: GlobalId, connector: SinkConnectorState },
    /// An index on `on`, with the nullability of each key part.
    Index { on: GlobalId, keys: Vec<IndexKey>, nullable: Vec<bool> },
    Type { inner: TypeInner },
}

/// What a catalog transaction reports, one event per change.
pub enum CatalogEvent {
    CreatedDatabase { id: i64, oid: u32, name: String },
    CreatedSchema { database_id: Option<i64>, schema_id: i64, schema_name: String, oid: u32 },
    CreatedItem { schema_id: i64, id: GlobalId, oid: u32, name: String, item: CatalogItem },
    UpdatedItem {
        schema_id: i64,
        id: GlobalId,
        oid: u32,
        from_name: String,
        to_name: String,
        item: CatalogItem,
    },
    DroppedDatabase { id: i64, oid: u32, name: String },
    DroppedSchema { database_id: i64, schema_id: i64, schema_name: String, oid: u32 },
    /// A dropped index, with the nullability of its keys taken while the
    /// index still existed.
    DroppedIndex {
        id: GlobalId,
        oid: u32,
        name: String,
        on: GlobalId,
        keys: Vec<IndexKey>,
        nullable: Vec<bool>,
    },
    DroppedItem { schema_id: i64, id: GlobalId, oid: u32, name: String, item: CatalogItem },
}

/// The system tables that mirror the catalog.
#[derive(Clone, Copy, Debug, PartialEq, Eq, Structural)]
pub enum SystemTable {
    Databases,
    Schemas,
    Columns,
    Indexes,
    IndexColumns,
    Tables,
    Sources,
    Views,
    Sinks,
    Types,
    ArrayTypes,
    BaseTypes,
    ListTypes,
    MapTypes,
    KafkaSinks,
    AvroOcfSinks,
}

/// A row added to (`diff` 1) or retracted from (`diff` -1) a system table.
pub struct SystemUpdate {
    pub table: SystemTable,
    pub row: Row,
    pub diff: i64,
}

/// A system-table update as a mathematical value.
pub type SpecUpdate = (SystemTable, Seq<Datum>, int);

pub open spec fn update_view(u: SystemUpdate) -> SpecUpdate {
    (u.table, u.row@, u.diff as int)
}

pub open spec fn updates_view(s: Seq<SystemUpdate>) -> Seq<SpecUpdate> {
    s.map_values(|u: SystemUpdate| update_view(u))
}

pub open spec fn named_row(id: GlobalId, oid: u32, schema_id: i64, name: String) -> Seq<Datum> {
    seq![Datum::Id(id), Datum::Int32(oid as i32), Datum::Int64(schema_id), Datum::String(name)]
}

pub open spec fn column_row(id: GlobalId, c: Column, i: int) -> Seq<Datum> {
    seq![
        Datum::Id(id),
        Datum::String(c.name),
        Datum::Int64((i + 1) as i64),
        Datum::Bool(c.nullable),
        Datum::String(c.sql_type),
    ]
}

/// One row per column of `desc`, in `mz_columns`.
pub open spec fn column_rows(desc: Seq<Column>, id: GlobalId, diff: int) -> Seq<SpecUpdate> {
    Seq::new(desc.len(), |i: int| (SystemTable::Columns, column_row(id, desc[i], i), diff))
}

pub open spec fn index_column_row(id: GlobalId, k: IndexKey, nullable: bool, i: int) -> Seq<
    Datum,
> {
    seq![
        Datum::Id(id),
        Datum::Int64((i + 1) as i64),
        match k.column {
            Some(c) => Datum::Int64((c + 1) as i64),
            None => Datum::Null,
        },
        match k.column {
            Some(_) => Datum::Null,
            None => Datum::String(k.sql),
        },
        Datum::Bool(nullable),
    ]
}

/// The row of an index in `mz_indexes`, then one row per key part in
/// `mz_index_columns`.
pub open spec fn index_rows(
    id: GlobalId,
    oid: u32,
    on: GlobalId,
    keys: Seq<IndexKey>,
    nullable: Seq<bool>,
    name: String,
    diff: int,
) -> Seq<SpecUpdate> {
    seq![
        (
            SystemTable::Indexes,
            seq![Datum::Id(id), Datum::Int32(oid as i32), Datum::String(name), Datum::Id(on)],
            diff,
        ),
    ] + Seq::new(
        keys.len(),
        |i: int| (SystemTable::IndexColumns, index_column_row(id, keys[i], nullable[i], i), diff),
    )
}

pub open spec fn type_inner_row(id: GlobalId, inner: TypeInner) -> SpecUpdate {
    match inner {
        TypeInner::Array { element_id } => (
            SystemTable::ArrayTypes,
            seq![Datum::Id(id), Datum::Id(element_id)],
            0,
        ),
        TypeInner::Base => (SystemTable::BaseTypes, seq![Datum::Id(id)], 0),
        TypeInner::List { element_id } => (
            SystemTable::ListTypes,
            seq![Datum::Id(id), Datum::Id(element_id)],
            0,
        ),
        TypeInner::KeyValue { key_id, value_id } => (
            SystemTable::MapTypes,
            seq![Datum::Id(id), Datum::Id(key_id), Datum::Id(value_id)],
            0,
        ),
    }
}

/// The row of a type in `mz_types`, then its row in the table of its kind.
pub open spec fn type_rows(
    id: GlobalId,
    oid: u32,
    schema_id: i64,
    name: String,
    inner: TypeInner,
    diff: int,
) -> Seq<SpecUpdate> {
    let k = type_inner_row(id, inner);
    seq![(SystemTable::Types, named_row(id, oid, schema_id, name), diff), (k.0, k.1, diff)]
}

/// The rows that name an item, apart from its columns.
pub open spec fn item_rows(
    item: CatalogItem,
    id: GlobalId,
    oid: u32,
    schema_id: i64,
    name: String,
    diff: int,
) -> Seq<SpecUpdate> {
    match item {
        CatalogItem::Table { .. } => seq![
            (SystemTable::Tables, named_row(id, oid, schema_id, name), diff),
        ],
        CatalogItem::Source { .. } => seq![
            (SystemTable::Sources, named_row(id, oid, schema_id, name), diff),
        ],
        CatalogItem::View { .. } => seq![
            (SystemTable::Views, named_row(id, oid, schema_id, name), diff),
        ],
        CatalogItem::Sink { connector, .. } => match connector {
            SinkConnectorState::Ready(_) => seq![
                (SystemTable::Sinks, named_row(id, oid, schema_id, name), diff),
            ],
            SinkConnectorState::Pending => Seq::empty(),
        },
        CatalogItem::Index { on, keys, nullable } => index_rows(
            id,
            oid,
            on,
            keys@,
            nullable@,
            name,
            diff,
        ),
        CatalogItem::Type { inner } => type_rows(id, oid, schema_id, name, inner, diff),
    }
}

/// The columns of a relation; sinks, indexes and types have none.
pub open spec fn desc_of(item: CatalogItem) -> Seq<Column> {
    match item {
        CatalogItem::Table { desc } => desc@,
        CatalogItem::Source { desc, .. } => desc@,
        CatalogItem::View { desc } => desc@,
        _ => Seq::empty(),
    }
}

/// The row that lists the external resource of a sink, if it has one.
pub open spec fn connector_rows(id: GlobalId, connector: SinkConnector, diff: int) -> Seq<
    SpecUpdate,
> {
    match connector {
        SinkConnector::Kafka { topic } => seq![
            (SystemTable::KafkaSinks, seq![Datum::Id(id), Datum::String(topic)], diff),
        ],
        SinkConnector::AvroOcf { path } => seq![
            (SystemTable::AvroOcfSinks, seq![Datum::Id(id), Datum::String(path)], diff),
        ],
        SinkConnector::Tail { .. } => Seq::empty(),
    }
}

/// The rows a dropped sink retracts from the tables of external resources.
pub open spec fn dropped_connector_rows(item: CatalogItem, id: GlobalId) -> Seq<SpecUpdate> {
    match item {
        CatalogItem::Sink { connector: SinkConnectorState::Ready(c), .. } => connector_rows(
            id,
            c,
            -1,
        ),
        _ => Seq::empty(),
    }
}

/// The system-table updates that one catalog event calls for.
pub open spec fn event_updates_spec(e: CatalogEvent) -> Seq<SpecUpdate> {
    match e {
        CatalogEvent::CreatedDatabase { id, oid, name } => seq![
            (
                SystemTable::Databases,
                seq![Datum::Int64(id), Datum::Int32(oid as i32), Datum::String(name)],
                1,
            ),
        ],
        CatalogEvent::CreatedSchema { database_id, schema_id, schema_name, oid } => seq![
            (SystemTable::Schemas, schema_row(schema_id, oid, database_id, schema_name), 1),
        ],
        CatalogEvent::CreatedItem { schema_id, id, oid, name, item } => column_rows(
            desc_of(item),
            id,
            1,
        ) + item_rows(item, id, oid, schema_id, name, 1),
        CatalogEvent::UpdatedItem { schema_id, id, oid, from_name, to_name, item } => item_rows(
            item,
            id,
            oid,
            schema_id,
            from_name,
            -1,
        ) + item_rows(item, id, oid, schema_id, to_name, 1),
        CatalogEvent::DroppedDatabase { id, oid, name } => seq![
            (
                SystemTable::Databases,
                seq![Datum::Int64(id), Datum::Int32(oid as i32), Datum::String(name)],
                -1,
            ),
        ],
        CatalogEvent::DroppedSchema { database_id, schema_id, schema_name, oid } => seq![
            (SystemTable::Schemas, schema_row(schema_id, oid, Some(database_id), schema_name), -1),
        ],
        CatalogEvent::DroppedIndex { id, oid, name, on, keys, nullable } => index_rows(
            id,
            oid,
            on,
            keys@,
            nullable@,
            name,
            -1,
        ),
        CatalogEvent::DroppedItem { schema_id, id, oid, name, item } => item_rows(
            item,
            id,
            oid,
            schema_id,
            name,
            -1,
        ) + dropped_connector_rows(item, id) + column_rows(desc_of(item), id, -1),
    }
}

pub open spec fn schema_row(schema_id: i64, oid: u32, database_id: Option<i64>, name: String) -> Seq<
    Datum,
> {
    seq![
        Datum::Int64(schema_id),
        Datum::Int32(oid as i32),
        match database_id {
            Some(d) => Datum::Int64(d),
            None => Datum::Null,
        },
        Datum::String(name),
    ]
}

/// The limits under which an item's rows can be formed: positions fit in
/// `i64`, and an index knows the nullability of every key part.
pub open spec fn item_wf(item: CatalogItem) -> bool {
    &&& desc_of(item).len() < i64::MAX
    &&& match item {
        CatalogItem::Index { keys, nullable, .. } => index_wf(keys@, nullable@),
        _ => true,
    }
}

pub open spec fn index_wf(keys: Seq<IndexKey>, nullable: Seq<bool>) -> bool {
    &&& keys.len() < i64::MAX
    &&& nullable.len() >= keys.len()
    &&& forall|i: int| 0 <= i < keys.len() ==> match (#[trigger] keys[i]).column {
        Some(c) => c < i64::MAX,
        None => true,
    }
}

/// The events that the catalog can report: a dropped index comes as
/// `DroppedIndex`, never as `DroppedItem`.
pub open spec fn event_wf(e: CatalogEvent) -> bool {
    match e {
        CatalogEvent::CreatedItem { item, .. } => item_wf(item),
        CatalogEvent::UpdatedItem { item, .. } => item_wf(item),
        CatalogEvent::DroppedIndex { keys, nullable, .. } => index_wf(keys@, nullable@),
        CatalogEvent::DroppedItem { item, .. } => item_wf(item) && !(item is Index),
        _ => true,
    }
}

pub proof fn lemma_view_push(s: Seq<SystemUpdate>, u: SystemUpdate)
    ensures
        updates_view(s.push(u)) == updates_view(s).push(update_view(u)),
{
    assert(updates_view(s.push(u)) =~= updates_view(s).push(update_view(u)));
}

fn push_update(out: &mut Vec<SystemUpdate>, table: SystemTable, row: Row, diff: i64)
    ensures
        updates_view(final(out)@) == updates_view(old(out)@).push((table, row@, diff as int)),
{
    let u = SystemUpdate { table, row, diff };
    proof {
        lemma_view_push(out@, u);
    }
    out.push(u);
}

/// Reports a database in `mz_databases`.
pub fn report_database_update(
    out: &mut Vec<SystemUpdate>,
    database_id: i64,
    oid: u32,
    name: &String,
    diff: i64,
)
    ensures
        updates_view(final(out)@) == updates_view(old(out)@).push(
            (
                SystemTable::Databases,
                seq![Datum::Int64(database_id), Datum::Int32(oid as i32), Datum::String(*name)],
                diff as int,
            ),
        ),
{
    let row = vec![Datum::Int64(database_id), Datum::Int32(oid as i32), Datum::String(name.clone())];
    push_update(out, SystemTable::Databases, row, diff);
}

/// Reports a schema in `mz_schemas`.
pub fn report_schema_update(
    out: &mut Vec<SystemUpdate>,
    schema_id: i64,
    oid: u32,
    database_id: Option<i64>,
    schema_name: &String,
    diff: i64,
)
    ensures
        updates_view(final(out)@) == updates_view(old(out)@).push(
            (SystemTable::Schemas, schema_row(schema_id, oid, database_id, *schema_name), diff as int),
        ),
{
    let db = match database_id {
        None => Datum::Null,
        Some(d) => Datum::Int64(d),
    };
    let row = vec![Datum::Int64(schema_id), Datum::Int32(oid as i32), db, Datum::String(schema_name.clone())];
    proof {
        assert(row@ =~= schema_row(schema_id, oid, database_id, *schema_name));
    }
    push_update(out, SystemTable::Schemas, row, diff);
}

/// Reports the row that names an item in `table` (`mz_tables`, `mz_sources`,
/// `mz_views` or `mz_sinks`).
pub fn report_named_update(
    out: &mut Vec<SystemUpdate>,
    table: SystemTable,
    id: GlobalId,
    oid: u32,
    schema_id: i64,
    name: &String,
    diff: i64,
)
    ensures
        updates_view(final(out)@) == updates_view(old(out)@).push(
            (table, named_row(id, oid, schema_id, *name), diff as int),
        ),
{
    let row = vec![Datum::Id(id), Datum::Int32(oid as i32), Datum::Int64(schema_id), Datum::String(name.clone())];
    push_update(out, table, row, diff);
}

/// Reports each column of a relation in `mz_columns`, numbered from one.
pub fn report_column_updates(out: &mut Vec<SystemUpdate>, desc: &Vec<Column>, id: GlobalId, diff: i64)
    requires
        desc@.len() < i64::MAX,
    ensures
        updates_view(final(out)@) == updates_view(old(out)@) + column_rows(desc@, id, diff as int),
{
    let mut i: usize = 0;
    while i < desc.len()
        invariant
            0 <= i <= desc@.len(),
            desc@.len() < i64::MAX,
            updates_view(out@) == updates_view(old(out)@) + column_rows(desc@, id, diff as int).take(
                i as int,
            ),
        decreases desc.len() - i,
    {
        let c = &desc[i];
        let row = vec![
            Datum::Id(id),
            Datum::String(c.name.clone()),
            Datum::Int64(i as i64 + 1),
            Datum::Bool(c.nullable),
            Datum::String(c.sql_type.clone()),
        ];
        push_update(out, SystemTable::Columns, row, diff);
        proof {
            assert(column_rows(desc@, id, diff as int).take(i as int + 1) =~= column_rows(
                desc@,
                id,
                diff as int,
            ).take(i as int).push(column_rows(desc@, id, diff as int)[i as int]));
        }
        i = i + 1;
    }
    proof {
        assert(column_rows(desc@, id, diff as int).take(desc@.len() as int) =~= column_rows(
            desc@,
            id,
            diff as int,
        ));
    }
}

/// Reports an index in `mz_indexes` and each of its key parts in
/// `mz_index_columns`, with the given nullability of each key part.
pub fn report_index_update_inner(
    out: &mut Vec<SystemUpdate>,
    id: GlobalId,
    oid: u32,
    on: GlobalId,
    keys: &Vec<IndexKey>,
    name: &String,
    nullable: &Vec<bool>,
    diff: i64,
)
    requires
        index_wf(keys@, nullable@),
    ensures
        updates_view(final(out)@) == updates_view(old(out)@) + index_rows(
            id,
            oid,
            on,
            keys@,
            nullable@,
            *name,
            diff as int,
        ),
{
    let ghost all = index_rows(id, oid, on, keys@, nullable@, *name, diff as int);
    let row = vec![Datum::Id(id), Datum::Int32(oid as i32), Datum::String(name.clone()), Datum::Id(on)];
    push_update(out, SystemTable::Indexes, row, diff);
    proof {
        assert(all.take(1) =~= seq![all[0]]);
    }
    let mut i: usize = 0;
    while i < keys.len()
        invariant
            0 <= i <= keys@.len(),
            index_wf(keys@, nullable@),
            all == index_rows(id, oid, on, keys@, nullable@, *name, diff as int),
            updates_view(out@) == updates_view(old(out)@) + all.take(i as int + 1),
        decreases keys.len() - i,
    {
        let k = &keys[i];
        let (field, expr) = match k.column {
            Some(c) => (Datum::Int64(c as i64 + 1), Datum::Null),
            None => (Datum::Null, Datum::String(k.sql.clone())),
        };
        let row = vec![Datum::Id(id), Datum::Int64(i as i64 + 1), field, expr, Datum::Bool(nullable[i])];
        proof {
            assert(row@ =~= index_column_row(id, keys@[i as int], nullable@[i as int], i as int));
        }
        push_update(out, SystemTable::IndexColumns, row, diff);
        proof {
            assert(all.take(i as int + 2) =~= all.take(i as int + 1).push(all[i as int + 1]));
        }
        i = i + 1;
    }
    proof {
        assert(all.take(keys@.len() as int + 1) =~= all);
    }
}

/// Reports a type in `mz_types` and in the table of its kind.
pub fn report_type_update(
    out: &mut Vec<SystemUpdate>,
    id: GlobalId,
    oid: u32,
    schema_id: i64,
    name: &String,
    inner: &TypeInner,
    diff: i64,
)
    ensures
        updates_view(final(out)@) == updates_view(old(out)@) + type_rows(
            id,
            oid,
            schema_id,
            *name,
            *inner,
            diff as int,
        ),
{
    let ghost start = updates_view(out@);
    report_named_update(out, SystemTable::Types, id, oid, schema_id, name, diff);
    let (table, row) = match inner {
        TypeInner::Array { element_id } => (SystemTable::ArrayTypes, vec![Datum::Id(id), Datum::Id(*element_id)]),
        TypeInner::Base => (SystemTable::BaseTypes, vec![Datum::Id(id)]),
        TypeInner::List { element_id } => (SystemTable::ListTypes, vec![Datum::Id(id), Datum::Id(*element_id)]),
        TypeInner::KeyValue { key_id, value_id } => (
            SystemTable::MapTypes,
            vec![Datum::Id(id), Datum::Id(*key_id), Datum::Id(*value_id)],
        ),
    };
    proof {
        let k = type_inner_row(id, *inner);
        assert(table == k.0 && row@ =~= k.1);
    }
    push_update(out, table, row, diff);
    proof {
        assert(updates_view(out@) =~= start + type_rows(id, oid, schema_id, *name, *inner, diff as int));
    }
}

/// Reports the rows that name an item, apart from its columns.
pub fn report_item_update(
    out: &mut Vec<SystemUpdate>,
    item: &CatalogItem,
    id: GlobalId,
    oid: u32,
    schema_id: i64,
    name: &String,
    diff: i64,
)
    requires
        item_wf(*item),
    ensures
        updates_view(final(out)@) == updates_view(old(out)@) + item_rows(
            *item,
            id,
            oid,
            schema_id,
            *name,
            diff as int,
        ),
{
    let ghost start = updates_view(out@);
    match item {
        CatalogItem::Table { .. } => {
            report_named_update(out, SystemTable::Tables, id, oid, schema_id, name, diff);
        },
        CatalogItem::Source { .. } => {
            report_named_update(out, SystemTable::Sources, id, oid, schema_id, name, diff);
        },
        CatalogItem::View { .. } => {
            report_named_update(out, SystemTable::Views, id, oid, schema_id, name, diff);
        },
        CatalogItem::Sink { connector, .. } => match connector {
            SinkConnectorState::Ready(_) => {
                report_named_update(out, SystemTable::Sinks, id, oid, schema_id, name, diff);
            },
            SinkConnectorState::Pending => {},
        },
        CatalogItem::Index { on, keys, nullable } => {
            report_index_update_inner(out, id, oid, *on, keys, name, nullable, diff);
        },
        CatalogItem::Type { inner } => {
            report_type_update(out, id, oid, schema_id, name, inner, diff);
        },
    }
    proof {
        assert(updates_view(out@) =~= start + item_rows(*item, id, oid, schema_id, *name, diff as int));
    }
}

/// Reports the external resource of a sink in the table of its kind.
pub fn report_connector_update(out: &mut Vec<SystemUpdate>, id: GlobalId, connector: &SinkConnector, diff: i64)
    ensures
        updates_view(final(out)@) == updates_view(old(out)@) + connector_rows(id, *connector, diff as int),
{
    let ghost start = updates_view(out@);
    match connector {
        SinkConnector::Kafka { topic } => {
            let row = vec![Datum::Id(id), Datum::String(topic.clone())];
            push_update(out, SystemTable::KafkaSinks, row, diff);
        },
        SinkConnector::AvroOcf { path } => {
            let row = vec![Datum::Id(id), Datum::String(path.clone())];
            push_update(out, SystemTable::AvroOcfSinks, row, diff);
        },
        SinkConnector::Tail { .. } => {},
    }
    proof {
        assert(updates_view(out@) =~= start + connector_rows(id, *connector, diff as int));
    }
}

/// The columns of a relation; sinks, indexes and types have none.
pub fn item_desc(item: &CatalogItem) -> (r: Option<&Vec<Column>>)
    ensures
        r.is_some() ==> r.unwrap()@ == desc_of(*item),
        r.is_none() ==> desc_of(*item).len() == 0,
{
    match item {
        CatalogItem::Table { desc } => Some(desc),
        CatalogItem::Source { desc, .. } => Some(desc),
        CatalogItem::View { desc } => Some(desc),
        _ => None,
    }
}

/// Appends the system-table updates of one catalog event.
pub fn report_event(out: &mut Vec<SystemUpdate>, event: &CatalogEvent)
    requires
        event_wf(*event),
    ensures
        updates_view(final(out)@) == updates_view(old(out)@) + event_updates_spec(*event),
{
    let ghost start = updates_view(out@);
    match event {
        CatalogEvent::CreatedDatabase { id, oid, name } => {
            report_database_update(out, *id, *oid, name, 1);
        },
        CatalogEvent::CreatedSchema { database_id, schema_id, schema_name, oid } => {
            report_schema_update(out, *schema_id, *oid, *database_id, schema_name, 1);
        },
        CatalogEvent::CreatedItem { schema_id, id, oid, name, item } => {
            if let Some(desc) = item_desc(item) {
                report_column_updates(out, desc, *id, 1);
            }
            proof {
                assert(updates_view(out@) =~= start + column_rows(desc_of(*item), *id, 1));
            }
            report_item_update(out, item, *id, *oid, *schema_id, name, 1);
        },
        CatalogEvent::UpdatedItem { schema_id, id, oid, from_name, to_name, item } => {
            report_item_update(out, item, *id, *oid, *schema_id, from_name, -1);
            report_item_update(out, item, *id, *oid, *schema_id, to_name, 1);
        },
        CatalogEvent::DroppedDatabase { id, oid, name } => {
            report_database_update(out, *id, *oid, name, -1);
        },
        CatalogEvent::DroppedSchema { database_id, schema_id, schema_name, oid } => {
            report_schema_update(out, *schema_id, *oid, Some(*database_id), schema_name, -1);
        },
        CatalogEvent::DroppedIndex { id, oid, name, on, keys, nullable } => {
            report_index_update_inner(out, *id, *oid, *on, keys, name, nullable, -1);
        },
        CatalogEvent::DroppedItem { schema_id, id, oid, name, item } => {
            report_item_update(out, item, *id, *oid, *schema_id, name, -1);
            let ghost mid = updates_view(out@);
            if let CatalogItem::Sink { connector: SinkConnectorState::Ready(c), .. } = item {
                report_connector_update(out, *id, c, -1);
            }
            proof {
                assert(updates_view(out@) =~= mid + dropped_connector_rows(*item, *id));
            }
            let ghost mid2 = updates_view(out@);
            if let Some(desc) = item_desc(item) {
                report_column_updates(out, desc, *id, -1);
            }
            proof {
                assert(updates_view(out@) =~= mid2 + column_rows(desc_of(*item), *id, -1));
            }
        },
    }
    proof {
        assert(updates_view(out@) =~= start + event_updates_spec(*event));
    }
}

/// The system-table updates of a sequence of events, in order.
pub open spec fn events_updates(es: Seq<CatalogEvent>) -> Seq<SpecUpdate>
    decreases es.len(),
{
    if es.len() == 0 {
        Seq::empty()
    } else {
        events_updates(es.drop_last()) + event_updates_spec(es.last())
    }
}

/// The dataflows behind dropped tables and sources.
pub open spec fn dropped_sources(es: Seq<CatalogEvent>) -> Seq<GlobalId>
    decreases es.len(),
{
    if es.len() == 0 {
        Seq::empty()
    } else {
        dropped_sources(es.drop_last()) + match es.last() {
            CatalogEvent::DroppedItem { id, item: CatalogItem::Table { .. }, .. } => seq![id],
            CatalogEvent::DroppedItem { id, item: CatalogItem::Source { .. }, .. } => seq![id],
            _ => Seq::empty(),
        }
    }
}

/// The dataflows behind dropped sinks whose connector was ready.
pub open spec fn dropped_sinks(es: Seq<CatalogEvent>) -> Seq<GlobalId>
    decreases es.len(),
{
    if es.len() == 0 {
        Seq::empty()
    } else {
        dropped_sinks(es.drop_last()) + match es.last() {
            CatalogEvent::DroppedItem {
                id,
                item: CatalogItem::Sink { connector: SinkConnectorState::Ready(_), .. },
                ..
            } => seq![id],
            _ => Seq::empty(),
        }
    }
}

/// The dropped indexes.
pub open spec fn dropped_indexes(es: Seq<CatalogEvent>) -> Seq<GlobalId>
    decreases es.len(),
{
    if es.len() == 0 {
        Seq::empty()
    } else {
        dropped_indexes(es.drop_last()) + match es.last() {
            CatalogEvent::DroppedIndex { id, .. } => seq![id],
            _ => Seq::empty(),
        }
    }
}

/// What a batch of catalog events asks of the system: system-table updates,
/// and the ids whose dataflows are to be dropped, in three groups.
pub struct CatalogEffects {
    pub updates: Vec<SystemUpdate>,
    pub sources_to_drop: Vec<GlobalId>,
    pub sinks_to_drop: Vec<GlobalId>,
    pub indexes_to_drop: Vec<GlobalId>,
}

/// Turns catalog events, in order, into their effects.
pub fn catalog_effects(events: &Vec<CatalogEvent>) -> (r: CatalogEffects)
    requires
        forall|i: int| 0 <= i < events@.len() ==> event_wf(#[trigger] events@[i]),
    ensures
        updates_view(r.updates@) == events_updates(events@),
        r.sources_to_drop@ == dropped_sources(events@),
        r.sinks_to_drop@ == dropped_sinks(events@),
        r.indexes_to_drop@ == dropped_indexes(events@),
{
    let mut r = CatalogEffects {
        updates: Vec::new(),
        sources_to_drop: Vec::new(),
        sinks_to_drop: Vec::new(),
        indexes_to_drop: Vec::new(),
    };
    proof {
        assert(updates_view(r.updates@) =~= Seq::<SpecUpdate>::empty());
    }
    let mut i: usize = 0;
    while i < events.len()
        invariant
            0 <= i <= events@.len(),
            forall|j: int| 0 <= j < events@.len() ==> event_wf(#[trigger] events@[j]),
            updates_view(r.updates@) == events_updates(events@.take(i as int)),
            r.sources_to_drop@ == dropped_sources(events@.take(i as int)),
            r.sinks_to_drop@ == dropped_sinks(events@.take(i as int)),
            r.indexes_to_drop@ == dropped_indexes(events@.take(i as int)),
        decreases events.len() - i,
    {
        let e = &events[i];
        proof {
            assert(events@.take(i as int + 1).drop_last() =~= events@.take(i as int));
        }
        report_event(&mut r.updates, e);
        let ghost s0 = r.sources_to_drop@;
        let ghost k0 = r.sinks_to_drop@;
        let ghost x0 = r.indexes_to_drop@;
        match e {
            CatalogEvent::DroppedItem { id, item, .. } => match item {
                CatalogItem::Table { .. } => {
                    r.sources_to_drop.push(*id);
                },
                CatalogItem::Source { .. } => {
                    r.sources_to_drop.push(*id);
                },
                CatalogItem::Sink { connector: SinkConnectorState::Ready(_), .. } => {
                    r.sinks_to_drop.push(*id);
                },
                _ => {},
            },
            CatalogEvent::DroppedIndex { id, .. } => {
                r.indexes_to_drop.push(*id);
            },
            _ => {},
        }
        proof {
            let es = events@.take(i as int + 1);
            assert(es.last() == *e);
            assert(r.sources_to_drop@ =~= dropped_sources(es));
            assert(r.sinks_to_drop@ =~= dropped_sinks(es));
            assert(r.indexes_to_drop@ =~= dropped_indexes(es));
        }
        i = i + 1;
    }
    proof {
        assert(events@.take(events@.len() as int) =~= events@);
    }
    r
}

/// The sum of the diffs of the updates to `row` in `table`.
pub open spec fn net(s: Seq<SpecUpdate>, table: SystemTable, row: Seq<Datum>) -> int
    decreases s.len(),
{
    if s.len() == 0 {
        0
    } else {
        net(s.drop_last(), table, row) + if s.last().0 == table && s.last().1 == row {
            s.last().2
        } else {
            0
        }
    }
}

/// `b` holds the updates of `a`, in order, with each diff negated.
pub open spec fn is_negation(a: Seq<SpecUpdate>, b: Seq<SpecUpdate>) -> bool {
    &&& a.len() == b.len()
    &&& forall|i: int| 0 <= i < a.len() ==> #[trigger] b[i] == (a[i].0, a[i].1, -a[i].2)
}

pub proof fn lemma_net_concat(a: Seq<SpecUpdate>, b: Seq<SpecUpdate>, table: SystemTable, row: Seq<Datum>)
    ensures
        net(a + b, table, row) == net(a, table, row) + net(b, table, row),
    decreases b.len(),
{
    if b.len() == 0 {
        assert(a + b =~= a);
    } else {
        assert((a + b).drop_last() =~= a + b.drop_last());
        lemma_net_concat(a, b.drop_last(), table, row);
    }
}

pub proof fn lemma_net_negation(a: Seq<SpecUpdate>, b: Seq<SpecUpdate>, table: SystemTable, row: Seq<Datum>)
    requires
        is_negation(a, b),
    ensures
        net(b, table, row) == -net(a, table, row),
    decreases a.len(),
{
    if a.len() > 0 {
        assert(b.last() == (a.last().0, a.last().1, -a.last().2));
        assert(is_negation(a.drop_last(), b.drop_last()));
        lemma_net_negation(a.drop_last(), b.drop_last(), table, row);
    }
}

pub proof fn lemma_item_rows_negation(
    item: CatalogItem,
    id: GlobalId,
    oid: u32,
    schema_id: i64,
    name: String,
)
    ensures
        is_negation(
            item_rows(item, id, oid, schema_id, name, 1),
            item_rows(item, id, oid, schema_id, name, -1),
        ),
{
}

/// The event by which the catalog reports that the item `create` made was
/// dropped: an index comes with the nullability it was created with.
pub open spec fn drop_event_for(create: CatalogEvent) -> CatalogEvent {
    match create {
        CatalogEvent::CreatedItem { schema_id, id, oid, name, item } => match item {
            CatalogItem::Index { on, keys, nullable } => CatalogEvent::DroppedIndex {
                id,
                oid,
                name,
                on,
                keys,
                nullable,
            },
            _ => CatalogEvent::DroppedItem { schema_id, id, oid, name, item },
        },
        _ => create,
    }
}

/// The rows that installing the dataflow of a ready sink adds for its
/// external resource.
pub open spec fn export_rows(item: CatalogItem, id: GlobalId) -> Seq<SpecUpdate> {
    match item {
        CatalogItem::Sink { connector: SinkConnectorState::Ready(c), .. } => connector_rows(id, c, 1),
        _ => Seq::empty(),
    }
}

/// Creating an item and then dropping it leaves every system table as it
/// was: for every table and row, the diffs of the creation (with the rows of
/// a ready sink's dataflow) and of the drop add up to zero.
pub proof fn lemma_create_then_drop_nets_zero(
    schema_id: i64,
    id: GlobalId,
    oid: u32,
    name: String,
    item: CatalogItem,
    table: SystemTable,
    row: Seq<Datum>,
)
    ensures
        ({
            let create = CatalogEvent::CreatedItem { schema_id, id, oid, name, item };
            net(
                event_updates_spec(create) + export_rows(item, id) + event_updates_spec(
                    drop_event_for(create),
                ),
                table,
                row,
            ) == 0
        }),
{
    let create = CatalogEvent::CreatedItem { schema_id, id, oid, name, item };
    let cols = column_rows(desc_of(item), id, 1);
    let cols_neg = column_rows(desc_of(item), id, -1);
    let items = item_rows(item, id, oid, schema_id, name, 1);
    let items_neg = item_rows(item, id, oid, schema_id, name, -1);
    let exp = export_rows(item, id);
    let exp_neg = dropped_connector_rows(item, id);
    lemma_item_rows_negation(item, id, oid, schema_id, name);
    assert(is_negation(cols, cols_neg));
    lemma_net_negation(cols, cols_neg, table, row);
    lemma_net_negation(items, items_neg, table, row);
    assert(is_negation(exp, exp_neg));
    lemma_net_negation(exp, exp_neg, table, row);
    lemma_net_concat(cols, items, table, row);
    lemma_net_concat(cols + items, exp, table, row);
    let drop = event_updates_spec(drop_event_for(create));
    if item is Index {
        assert(desc_of(item).len() == 0);
        assert(cols =~= Seq::<SpecUpdate>::empty());
        assert(drop == items_neg);
        lemma_net_concat(cols + items + exp, drop, table, row);
    } else {
        assert(drop == items_neg + exp_neg + cols_neg);
        lemma_net_concat(items_neg, exp_neg, table, row);
        lemma_net_concat(items_neg + exp_neg, cols_neg, table, row);
        lemma_net_concat(cols + items + exp, drop, table, row);
    }
}

/// Renaming an item retracts, in every table that names it, the rows under
/// the old name that its creation added, and adds the same rows under the new
/// name; rows that do not carry the name cancel out.
pub proof fn lemma_rename_retracts_old_adds_new(
    schema_id: i64,
    id: GlobalId,
    oid: u32,
    from_name: String,
    to_name: String,
    item: CatalogItem,
    table: SystemTable,
    row: Seq<Datum>,
)
    ensures
        ({
            let rename = CatalogEvent::UpdatedItem { schema_id, id, oid, from_name, to_name, item };
            let created_old = CatalogEvent::CreatedItem { schema_id, id, oid, name: from_name, item };
            let created_new = CatalogEvent::CreatedItem { schema_id, id, oid, name: to_name, item };
            let old_rows = item_rows(item, id, oid, schema_id, from_name, 1);
            let new_rows = item_rows(item, id, oid, schema_id, to_name, 1);
            &&& event_updates_spec(created_old) == column_rows(desc_of(item), id, 1) + old_rows
            &&& event_updates_spec(created_new) == column_rows(desc_of(item), id, 1) + new_rows
            &&& exists|neg: Seq<SpecUpdate>|
                is_negation(old_rows, neg) && event_updates_spec(rename) == neg + new_rows
            &&& net(event_updates_spec(rename), table, row) == net(new_rows, table, row) - net(
                old_rows,
                table,
                row,
            )
        }),
{
    let old_rows = item_rows(item, id, oid, schema_id, from_name, 1);
    let new_rows = item_rows(item, id, oid, schema_id, to_name, 1);
    let neg = item_rows(item, id, oid, schema_id, from_name, -1);
    lemma_item_rows_negation(item, id, oid, schema_id, from_name);
    lemma_net_negation(old_rows, neg, table, row);
    lemma_net_concat(neg, new_rows, table, row);
}

/// True iff the row puts no null into a column that does not admit one;
/// cells beyond the columns of `desc` are not checked.
pub open spec fn row_respects_not_null(row: Seq<Datum>, desc: Seq<Column>) -> bool {
    forall|j: int| 0 <= j < row.len() && j < desc.len() ==> !((#[trigger] row[j]) is Null && !desc[j].nullable)
}

/// Checks rows to insert into a relation with columns `desc`: the name of a
/// column that would receive a null it does not admit, from the first row
/// that has one, or `Ok`.
pub fn check_not_null(rows: &Vec<Row>, desc: &Vec<Column>) -> (r: Result<(), String>)
    ensures
        r is Ok <==> forall|i: int| 0 <= i < rows@.len() ==> row_respects_not_null(#[trigger] rows@[i]@, desc@),
        r is Err ==> exists|i: int, j: int|
            0 <= i < rows@.len() && 0 <= j < rows@[i]@.len() && j < desc@.len() && (
            #[trigger] rows@[i]@[j]) is Null && !desc@[j].nullable && r->Err_0 == desc@[j].name && (
            forall|k: int| 0 <= k < i ==> row_respects_not_null(#[trigger] rows@[k]@, desc@)) && (
            forall|m: int|
                0 <= m < j ==> !((#[trigger] rows@[i]@[m]) is Null && !desc@[m].nullable)),
{
    let mut i: usize = 0;
    while i < rows.len()
        invariant
            0 <= i <= rows@.len(),
            forall|k: int| 0 <= k < i ==> row_respects_not_null(#[trigger] rows@[k]@, desc@),
        decreases rows.len() - i,
    {
        let row = &rows[i];
        let mut j: usize = 0;
        while j < row.len() && j < desc.len()
            invariant
                0 <= j <= row@.len(),
                0 <= i < rows@.len(),
                row == rows@[i as int],
                forall|k: int| 0 <= k < i ==> row_respects_not_null(#[trigger] rows@[k]@, desc@),
                forall|m: int| 0 <= m < j && m < desc@.len() ==> !((#[trigger] row@[m]) is Null && !desc@[m].nullable),
            decreases row.len() - j,
        {
            if let Datum::Null = row[j] {
                if !desc[j].nullable {
                    proof {
                        assert(rows@[i as int]@[j as int] is Null);
                        assert(!row_respects_not_null(rows@[i as int]@, desc@));
                        assert(rows@[i as int]@[j as int] is Null && !desc@[j as int].nullable);
                        assert(forall|m: int|
                            0 <= m < j ==> !((#[trigger] rows@[i as int]@[m]) is Null
                                && !desc@[m].nullable));
                        assert(desc[j as int].name == desc@[j as int].name);
                    }
                    return Err(desc[j].name.clone());
                }
            }
            j = j + 1;
        }
        i = i + 1;
    }
    Ok(())
}

/// The answer to a `CREATE` whose catalog transaction ended with `result`:
/// `Ok(false)` when the item was created, `Ok(true)` when it failed but
/// `IF NOT EXISTS` was given (the item already existed), else the error.
pub fn creation_response(result: Result<(), String>, if_not_exists: bool) -> (r: Result<bool, String>)
    ensures
        result is Ok ==> r == Ok::<bool, String>(false),
        result is Err && if_not_exists ==> r == Ok::<bool, String>(true),
        result is Err && !if_not_exists ==> r == Err::<bool, String>(result->Err_0),
{
    match result {
        Ok(()) => Ok(false),
        Err(_) if if_not_exists => Ok(true),
        Err(e) => Err(e),
    }
}

} // verus!

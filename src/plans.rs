use vstd::prelude::*;

use crate::catalog::CatalogItem;
use crate::types::GlobalId;

verus! {

/// A change for the catalog to apply within one transaction.
pub enum CatalogOp {
    CreateDatabase { name: String, oid: u32 },
    CreateSchema { database_name: String, schema_name: String, oid: u32 },
    CreateItem { id: GlobalId, oid: u32, name: String, item: CatalogItem },
    RenameItem { id: GlobalId, to_name: String },
}

/// A planned `CREATE` statement. Relations that are materialized come with
/// their primary index (its name and item); a database comes with the
/// schema created in it.
pub enum CreatePlan {
    Database { name: String, schema_name: String },
    Schema { database_name: String, schema_name: String },
    Table { name: String, table: CatalogItem, index_name: String, index: CatalogItem },
    Source { name: String, source: CatalogItem, primary_index: Option<(String, CatalogItem)> },
    View { name: String, view: CatalogItem, primary_index: Option<(String, CatalogItem)> },
    Index { name: String, index: CatalogItem },
    Type { name: String, typ: CatalogItem },
}

/// The number of item ids a plan needs: one per item it creates.
pub open spec fn ids_needed(plan: CreatePlan) -> nat {
    match plan {
        CreatePlan::Database { .. } => 0,
        CreatePlan::Schema { .. } => 0,
        CreatePlan::Table { .. } => 2,
        CreatePlan::Source { primary_index, .. } => if primary_index.is_some() {
            2
        } else {
            1
        },
        CreatePlan::View { primary_index, .. } => if primary_index.is_some() {
            2
        } else {
            1
        },
        CreatePlan::Index { .. } => 1,
        CreatePlan::Type { .. } => 1,
    }
}

/// The number of object ids a plan needs: one per object it creates.
pub open spec fn oids_needed(plan: CreatePlan) -> nat {
    match plan {
        CreatePlan::Database { .. } => 2,
        CreatePlan::Schema { .. } => 1,
        _ => ids_needed(plan),
    }
}

/// The catalog operations of a plan, in order, given the ids and object ids
/// allocated for it: a table and its primary index, a relation and its
/// primary index if it is materialized, a database and its schema.
pub open spec fn create_ops_spec(plan: CreatePlan, ids: Seq<GlobalId>, oids: Seq<u32>) -> Seq<
    CatalogOp,
> {
    match plan {
        CreatePlan::Database { name, schema_name } => seq![
            CatalogOp::CreateDatabase { name, oid: oids[0] },
            CatalogOp::CreateSchema { database_name: name, schema_name, oid: oids[1] },
        ],
        CreatePlan::Schema { database_name, schema_name } => seq![
            CatalogOp::CreateSchema { database_name, schema_name, oid: oids[0] },
        ],
        CreatePlan::Table { name, table, index_name, index } => seq![
            CatalogOp::CreateItem { id: ids[0], oid: oids[0], name, item: table },
            CatalogOp::CreateItem { id: ids[1], oid: oids[1], name: index_name, item: index },
        ],
        CreatePlan::Source { name, source, primary_index } => with_index(
            CatalogOp::CreateItem { id: ids[0], oid: oids[0], name, item: source },
            primary_index,
            ids,
            oids,
        ),
        CreatePlan::View { name, view, primary_index } => with_index(
            CatalogOp::CreateItem { id: ids[0], oid: oids[0], name, item: view },
            primary_index,
            ids,
            oids,
        ),
        CreatePlan::Index { name, index } => seq![
            CatalogOp::CreateItem { id: ids[0], oid: oids[0], name, item: index },
        ],
        CreatePlan::Type { name, typ } => seq![
            CatalogOp::CreateItem { id: ids[0], oid: oids[0], name, item: typ },
        ],
    }
}

pub open spec fn with_index(
    first: CatalogOp,
    primary_index: Option<(String, CatalogItem)>,
    ids: Seq<GlobalId>,
    oids: Seq<u32>,
) -> Seq<CatalogOp> {
    match primary_index {
        Some((index_name, index)) => seq![
            first,
            CatalogOp::CreateItem { id: ids[1], oid: oids[1], name: index_name, item: index },
        ],
        None => seq![first],
    }
}

/// The catalog operations that carry out `plan` with the allocated `ids`
/// and `oids`.
pub fn create_ops(plan: CreatePlan, ids: &Vec<GlobalId>, oids: &Vec<u32>) -> (r: Vec<CatalogOp>)
    requires
        ids@.len() == ids_needed(plan),
        oids@.len() == oids_needed(plan),
    ensures
        r@ == create_ops_spec(plan, ids@, oids@),
{
    let ghost p = plan;
    let mut r: Vec<CatalogOp> = Vec::new();
    match plan {
        CreatePlan::Database { name, schema_name } => {
            let database_name = name.clone();
            r.push(CatalogOp::CreateDatabase { name, oid: oids[0] });
            r.push(CatalogOp::CreateSchema { database_name, schema_name, oid: oids[1] });
        },
        CreatePlan::Schema { database_name, schema_name } => {
            r.push(CatalogOp::CreateSchema { database_name, schema_name, oid: oids[0] });
        },
        CreatePlan::Table { name, table, index_name, index } => {
            r.push(CatalogOp::CreateItem { id: ids[0], oid: oids[0], name, item: table });
            r.push(CatalogOp::CreateItem { id: ids[1], oid: oids[1], name: index_name, item: index });
        },
        CreatePlan::Source { name, source, primary_index } => {
            r.push(CatalogOp::CreateItem { id: ids[0], oid: oids[0], name, item: source });
            if let Some((index_name, index)) = primary_index {
                r.push(CatalogOp::CreateItem { id: ids[1], oid: oids[1], name: index_name, item: index });
            }
        },
        CreatePlan::View { name, view, primary_index } => {
            r.push(CatalogOp::CreateItem { id: ids[0], oid: oids[0], name, item: view });
            if let Some((index_name, index)) = primary_index {
                r.push(CatalogOp::CreateItem { id: ids[1], oid: oids[1], name: index_name, item: index });
            }
        },
        CreatePlan::Index { name, index } => {
            r.push(CatalogOp::CreateItem { id: ids[0], oid: oids[0], name, item: index });
        },
        CreatePlan::Type { name, typ } => {
            r.push(CatalogOp::CreateItem { id: ids[0], oid: oids[0], name, item: typ });
        },
    }
    proof {
        assert(r@ =~= create_ops_spec(p, ids@, oids@));
    }
    r
}

/// Where a session stands with respect to transactions.
#[derive(Clone, Copy, Debug, PartialEq, Eq, Structural)]
pub enum TransactionStatus {
    Idle,
    InTransactionImplicit,
    InTransactionExplicit,
}

/// A planned statement, as far as its sequencing is decided here.
pub enum Plan {
    Create(CreatePlan),
    DropItems { items: Vec<GlobalId> },
    AlterItemRename { id: Option<GlobalId>, to_name: String },
    StartTransaction,
    CommitTransaction,
    AbortTransaction,
    DiscardTemp,
    DiscardAll,
}

/// What sequencing a plan calls for next.
pub enum PlanStep {
    /// Apply these operations in one catalog transaction, then process its
    /// events.
    Transact(Vec<CatalogOp>),
    /// Have the catalog compute the operations that drop `items` with their
    /// dependents, and apply them in one transaction.
    DropItems(Vec<GlobalId>),
    /// Nothing to change: answer at once (an `IF EXISTS` that found nothing).
    Done,
    /// Mark the session as in an explicit transaction.
    StartTransaction,
    /// End the session's transaction; `commit` tells `COMMIT` from
    /// `ROLLBACK`, `was_implicit` whether the transaction was implicit.
    TransactionExited { commit: bool, was_implicit: bool },
    /// Drop the session's temporary items.
    DiscardTemp,
    /// Drop the session's temporary items and reset the session.
    DiscardAll,
    /// `DISCARD ALL` cannot run inside a transaction block.
    RefusedInTransaction,
}

/// The ids and object ids a plan needs.
pub open spec fn plan_ids_fit(plan: Plan, ids: Seq<GlobalId>, oids: Seq<u32>) -> bool {
    match plan {
        Plan::Create(c) => ids.len() == ids_needed(c) && oids.len() == oids_needed(c),
        _ => true,
    }
}

/// `r` is the step that sequencing `plan` takes next, for a session in
/// `status`, with the ids and object ids allocated for a creation.
pub open spec fn is_plan_step(
    plan: Plan,
    ids: Seq<GlobalId>,
    oids: Seq<u32>,
    status: TransactionStatus,
    r: PlanStep,
) -> bool {
    match plan {
        Plan::Create(c) => r is Transact && r->Transact_0@ == create_ops_spec(c, ids, oids),
        Plan::DropItems { items } => r == PlanStep::DropItems(items),
        Plan::AlterItemRename { id, to_name } => match id {
            Some(id) => r is Transact && r->Transact_0@ == seq![CatalogOp::RenameItem { id, to_name }],
            None => r is Done,
        },
        Plan::StartTransaction => r is StartTransaction,
        Plan::CommitTransaction => r == (PlanStep::TransactionExited {
            commit: true,
            was_implicit: status == TransactionStatus::InTransactionImplicit,
        }),
        Plan::AbortTransaction => r == (PlanStep::TransactionExited {
            commit: false,
            was_implicit: status == TransactionStatus::InTransactionImplicit,
        }),
        Plan::DiscardTemp => r is DiscardTemp,
        Plan::DiscardAll => if status == TransactionStatus::Idle {
            r is DiscardAll
        } else {
            r is RefusedInTransaction
        },
    }
}

/// Decides the next step of sequencing `plan` for a session in `status`.
pub fn sequence_plan(plan: Plan, ids: &Vec<GlobalId>, oids: &Vec<u32>, status: TransactionStatus) -> (r:
    PlanStep)
    requires
        plan_ids_fit(plan, ids@, oids@),
    ensures
        is_plan_step(plan, ids@, oids@, status, r),
{
    match plan {
        Plan::Create(c) => PlanStep::Transact(create_ops(c, ids, oids)),
        Plan::DropItems { items } => PlanStep::DropItems(items),
        Plan::AlterItemRename { id, to_name } => match id {
            Some(id) => {
                let mut ops: Vec<CatalogOp> = Vec::new();
                ops.push(CatalogOp::RenameItem { id, to_name });
                proof {
                    assert(ops@ =~= seq![CatalogOp::RenameItem { id, to_name }]);
                }
                PlanStep::Transact(ops)
            },
            None => PlanStep::Done,
        },
        Plan::StartTransaction => PlanStep::StartTransaction,
        Plan::CommitTransaction => PlanStep::TransactionExited {
            commit: true,
            was_implicit: status == TransactionStatus::InTransactionImplicit,
        },
        Plan::AbortTransaction => PlanStep::TransactionExited {
            commit: false,
            was_implicit: status == TransactionStatus::InTransactionImplicit,
        },
        Plan::DiscardTemp => PlanStep::DiscardTemp,
        Plan::DiscardAll => {
            if status == TransactionStatus::Idle {
                PlanStep::DiscardAll
            } else {
                PlanStep::RefusedInTransaction
            }
        },
    }
}

} // verus!

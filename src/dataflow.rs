use vstd::prelude::*;

use crate::antichain::Antichain;
use crate::catalog::{SinkConnector, SystemTable};
use crate::types::{GlobalId, Row};

verus! {

/// An index that a dataflow builds and exports: it arranges `on` by the
/// given key columns.
pub struct IndexExport {
    pub id: GlobalId,
    pub on: GlobalId,
    pub key: Vec<usize>,
}

/// A sink that a dataflow exports, reading `from`.
pub struct SinkExport {
    pub id: GlobalId,
    pub from: GlobalId,
    pub connector: SinkConnector,
}

/// A description of a dataflow to install in the workers.
pub struct DataflowDesc {
    pub debug_name: String,
    /// The frontier from which the dataflow computes; `None` until bound.
    pub as_of: Option<Antichain>,
    /// Arrangements the dataflow reads.
    pub index_imports: Vec<GlobalId>,
    /// Sources the dataflow reads.
    pub source_imports: Vec<GlobalId>,
    pub index_exports: Vec<IndexExport>,
    pub sink_exports: Vec<SinkExport>,
}

impl DataflowDesc {
    /// An empty dataflow.
    pub fn new(debug_name: String) -> (r: DataflowDesc)
        ensures
            r.debug_name == debug_name,
            r.as_of.is_none(),
            r.index_imports@.len() == 0,
            r.source_imports@.len() == 0,
            r.index_exports@.len() == 0,
            r.sink_exports@.len() == 0,
    {
        DataflowDesc {
            debug_name,
            as_of: None,
            index_imports: Vec::new(),
            source_imports: Vec::new(),
            index_exports: Vec::new(),
            sink_exports: Vec::new(),
        }
    }

    pub fn set_as_of(&mut self, as_of: Antichain)
        ensures
            final(self).as_of == Some(as_of),
            final(self).debug_name == old(self).debug_name,
            final(self).index_imports == old(self).index_imports,
            final(self).source_imports == old(self).source_imports,
            final(self).index_exports == old(self).index_exports,
            final(self).sink_exports == old(self).sink_exports,
    {
        self.as_of = Some(as_of);
    }

    pub fn add_index_import(&mut self, id: GlobalId)
        ensures
            final(self).index_imports@ == old(self).index_imports@.push(id),
            final(self).as_of == old(self).as_of,
            final(self).debug_name == old(self).debug_name,
            final(self).source_imports == old(self).source_imports,
            final(self).index_exports == old(self).index_exports,
            final(self).sink_exports == old(self).sink_exports,
    {
        self.index_imports.push(id);
    }

    pub fn add_source_import(&mut self, id: GlobalId)
        ensures
            final(self).source_imports@ == old(self).source_imports@.push(id),
            final(self).as_of == old(self).as_of,
            final(self).debug_name == old(self).debug_name,
            final(self).index_imports == old(self).index_imports,
            final(self).index_exports == old(self).index_exports,
            final(self).sink_exports == old(self).sink_exports,
    {
        self.source_imports.push(id);
    }

    pub fn add_index_export(&mut self, id: GlobalId, on: GlobalId, key: Vec<usize>)
        ensures
            final(self).index_exports@.len() == old(self).index_exports@.len() + 1,
            final(self).index_exports@.last().id == id,
            final(self).index_exports@.last().on == on,
            final(self).index_exports@.last().key == key,
            final(self).index_exports@.drop_last() == old(self).index_exports@,
            final(self).as_of == old(self).as_of,
            final(self).debug_name == old(self).debug_name,
            final(self).index_imports == old(self).index_imports,
            final(self).source_imports == old(self).source_imports,
            final(self).sink_exports == old(self).sink_exports,
    {
        self.index_exports.push(IndexExport { id, on, key });
        proof {
            assert(self.index_exports@.drop_last() =~= old(self).index_exports@);
        }
    }

    pub fn add_sink_export(&mut self, id: GlobalId, from: GlobalId, connector: SinkConnector)
        ensures
            final(self).sink_exports@.len() == old(self).sink_exports@.len() + 1,
            final(self).sink_exports@.last().id == id,
            final(self).sink_exports@.last().from == from,
            final(self).sink_exports@.last().connector == connector,
            final(self).sink_exports@.drop_last() == old(self).sink_exports@,
            final(self).as_of == old(self).as_of,
            final(self).debug_name == old(self).debug_name,
            final(self).index_imports == old(self).index_imports,
            final(self).source_imports == old(self).source_imports,
            final(self).index_exports == old(self).index_exports,
    {
        self.sink_exports.push(SinkExport { id, from, connector });
        proof {
            assert(self.sink_exports@.drop_last() =~= old(self).sink_exports@);
        }
    }
}

/// A timestamped change to a collection.
pub struct Update {
    pub row: Row,
    pub diff: i64,
    pub timestamp: u64,
}

/// A command broadcast to every worker.
pub enum WorkerCommand {
    CreateDataflows(Vec<DataflowDesc>),
    DropSources(Vec<GlobalId>),
    DropSinks(Vec<GlobalId>),
    DropIndexes(Vec<GlobalId>),
    /// Read the arrangement `id` at `timestamp`, optionally at one key only.
    Peek { id: GlobalId, key: Option<Row>, conn_id: u32, timestamp: u64 },
    CancelPeek { conn_id: u32 },
    /// Changes to a user table.
    Insert { id: GlobalId, updates: Vec<Update> },
    /// Changes to a system table.
    InsertSystem { table: SystemTable, updates: Vec<Update> },
    AdvanceAllLocalInputs { advance_to: u64 },
    /// Times of a source instance that its timestamper closed.
    AdvanceSourceTimestamp { source_id: GlobalId, instance: u64, advance_to: Antichain },
    AllowCompaction(Vec<(GlobalId, Antichain)>),
    Shutdown,
}

/// What one worker answers to a peek.
pub enum PeekResponse {
    Rows(Vec<Row>),
    Error(String),
    Canceled,
}

/// How the answers of the workers combine: an error wins over a
/// cancellation, which wins over rows; rows accumulate in order.
pub open spec fn merged_kind(memo: PeekResponse, resp: PeekResponse) -> PeekResponse {
    match (memo, resp) {
        (PeekResponse::Error(e), _) => PeekResponse::Error(e),
        (_, PeekResponse::Error(e)) => PeekResponse::Error(e),
        (PeekResponse::Canceled, _) => PeekResponse::Canceled,
        (_, PeekResponse::Canceled) => PeekResponse::Canceled,
        (PeekResponse::Rows(a), PeekResponse::Rows(_)) => PeekResponse::Rows(a),
    }
}

/// Folds one worker's answer into the answers gathered so far.
pub fn merge_peek_responses(memo: PeekResponse, resp: PeekResponse) -> (r: PeekResponse)
    ensures
        match (memo, resp) {
            (PeekResponse::Rows(a), PeekResponse::Rows(b)) => r is Rows && r->Rows_0@ == a@ + b@,
            _ => r == merged_kind(memo, resp),
        },
{
    match (memo, resp) {
        (PeekResponse::Rows(mut a), PeekResponse::Rows(mut b)) => {
            a.append(&mut b);
            PeekResponse::Rows(a)
        },
        (PeekResponse::Error(e), _) => PeekResponse::Error(e),
        (_, PeekResponse::Error(e)) => PeekResponse::Error(e),
        (PeekResponse::Canceled, _) => PeekResponse::Canceled,
        (_, PeekResponse::Canceled) => PeekResponse::Canceled,
    }
}

/// A candidate index for a fast-path peek: its id, the length of its key,
/// and the key value that the query's predicates fix, if they fix one.
pub struct PeekCandidate {
    pub id: GlobalId,
    pub key_len: usize,
    pub literal: Option<Row>,
}

/// The rank of a candidate: whether it has a literal key, then its key
/// length, then its id (user ids before system ids before transient ids,
/// each by number).
pub open spec fn rank(c: PeekCandidate) -> (int, int, int, int) {
    (
        if c.literal.is_some() {
            1int
        } else {
            0int
        },
        c.key_len as int,
        match c.id {
            GlobalId::User(_) => 0int,
            GlobalId::System(_) => 1int,
            GlobalId::Transient(_) => 2int,
        },
        match c.id {
            GlobalId::User(n) => n as int,
            GlobalId::System(n) => n as int,
            GlobalId::Transient(n) => n as int,
        },
    )
}

pub open spec fn lex_lt(x: (int, int, int, int), y: (int, int, int, int)) -> bool {
    x.0 < y.0 || (x.0 == y.0 && (x.1 < y.1 || (x.1 == y.1 && (x.2 < y.2 || (x.2 == y.2 && x.3
        < y.3)))))
}

/// `a` ranks no higher than `b`.
pub open spec fn ranks_le(a: PeekCandidate, b: PeekCandidate) -> bool {
    !lex_lt(rank(b), rank(a))
}

fn id_parts(id: GlobalId) -> (r: (u8, u64))
    ensures
        r.0 as int == (match id {
            GlobalId::User(_) => 0int,
            GlobalId::System(_) => 1int,
            GlobalId::Transient(_) => 2int,
        }),
        r.1 as int == (match id {
            GlobalId::User(n) => n as int,
            GlobalId::System(n) => n as int,
            GlobalId::Transient(n) => n as int,
        }),
{
    match id {
        GlobalId::User(n) => (0, n),
        GlobalId::System(n) => (1, n),
        GlobalId::Transient(n) => (2, n),
    }
}

/// True iff `c` ranks at least as high as `b`.
fn ranks_at_least(c: &PeekCandidate, b: &PeekCandidate) -> (r: bool)
    ensures
        r == ranks_le(*b, *c),
{
    let cl: u8 = if c.literal.is_some() { 1 } else { 0 };
    let bl: u8 = if b.literal.is_some() { 1 } else { 0 };
    let (cv, cn) = id_parts(c.id);
    let (bv, bn) = id_parts(b.id);
    if cl != bl {
        cl > bl
    } else if c.key_len != b.key_len {
        c.key_len > b.key_len
    } else if cv != bv {
        cv > bv
    } else {
        cn >= bn
    }
}

/// Picks the best index for a fast-path peek, by the ordering of
/// (has a literal key, key length, id); among equals the last one. The
/// literal key values themselves are not compared. `None` when there is no
/// candidate.
pub fn choose_fast_path(candidates: Vec<PeekCandidate>) -> (r: Option<PeekCandidate>)
    ensures
        candidates@.len() == 0 <==> r.is_none(),
        r.is_some() ==> exists|i: int|
            0 <= i < candidates@.len() && candidates@[i] == r.unwrap() && (forall|j: int|
                0 <= j < candidates@.len() ==> ranks_le(#[trigger] candidates@[j], r.unwrap()))
                && (forall|j: int|
                i < j < candidates@.len() ==> !ranks_le(r.unwrap(), #[trigger] candidates@[j])),
{
    let ghost c0 = candidates@;
    let _n = candidates.len();
    let mut rest = candidates;
    let mut best: Option<PeekCandidate> = None;
    let ghost mut best_i: int = -1;
    let mut i: usize = 0;
    while rest.len() > 0
        invariant
            0 <= i <= c0.len(),
            c0.len() <= usize::MAX,
            rest@ == c0.subrange(i as int, c0.len() as int),
            i == 0 <==> best.is_none(),
            best.is_some() ==> 0 <= best_i < i && c0[best_i] == best.unwrap() && (forall|j: int|
                0 <= j < i ==> ranks_le(#[trigger] c0[j], best.unwrap())) && (forall|j: int|
                best_i < j < i ==> !ranks_le(best.unwrap(), #[trigger] c0[j])),
        decreases rest.len(),
    {
        let c = rest.remove(0);
        proof {
            assert(c == c0[i as int]);
        }
        let take = match &best {
            None => true,
            Some(b) => ranks_at_least(&c, b),
        };
        if take {
            best = Some(c);
            proof {
                best_i = i as int;
            }
        }
        i = i + 1;
    }
    best
}

} // verus!

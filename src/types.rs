use vstd::prelude::*;

verus! {

/// The identifier of a catalog item or of a dataflow artifact.
#[derive(Clone, Copy, Debug, PartialEq, Eq, Structural, Hash)]
pub enum GlobalId {
    /// An item that a user created.
    User(u64),
    /// A builtin item.
    System(u64),
    /// A short-lived artifact, such as the index behind a one-off peek.
    Transient(u64),
}

/// A single value in a row of a system table.
#[derive(Debug)]
pub enum Datum {
    Null,
    Bool(bool),
    Int32(i32),
    Int64(i64),
    Numeric(i128),
    String(String),
    /// The identifier of a catalog item, shown in its textual form.
    Id(GlobalId),
}

/// A row of a system table.
pub type Row = Vec<Datum>;

/// A copy of a datum.
pub fn clone_datum(d: &Datum) -> (r: Datum)
    ensures
        r == *d,
{
    match d {
        Datum::Null => Datum::Null,
        Datum::Bool(b) => Datum::Bool(*b),
        Datum::Int32(i) => Datum::Int32(*i),
        Datum::Int64(i) => Datum::Int64(*i),
        Datum::Numeric(i) => Datum::Numeric(*i),
        Datum::String(s) => Datum::String(s.clone()),
        Datum::Id(id) => Datum::Id(*id),
    }
}

/// A copy of a row.
pub fn clone_row(row: &Row) -> (r: Row)
    ensures
        r@ == row@,
{
    let mut r: Row = Vec::new();
    let mut i: usize = 0;
    while i < row.len()
        invariant
            0 <= i <= row@.len(),
            r@ == row@.take(i as int),
        decreases row.len() - i,
    {
        r.push(clone_datum(&row[i]));
        proof {
            assert(row@.take(i as int + 1) =~= row@.take(i as int).push(row@[i as int]));
        }
        i = i + 1;
    }
    proof {
        assert(row@.take(row@.len() as int) =~= row@);
    }
    r
}

/// Each row repeated as often as its count says, in order.
pub open spec fn expand(rows: Seq<(Row, u64)>) -> Seq<Seq<Datum>>
    decreases rows.len(),
{
    if rows.len() == 0 {
        Seq::empty()
    } else {
        expand(rows.drop_last()) + Seq::new(rows.last().1 as nat, |k: int| rows.last().0@)
    }
}

/// The rows of a constant relation, each repeated as often as its count says.
pub fn expand_rows(rows: &Vec<(Row, u64)>) -> (r: Vec<Row>)
    ensures
        r@.map_values(|x: Row| x@) == expand(rows@),
{
    let mut r: Vec<Row> = Vec::new();
    let mut i: usize = 0;
    proof {
        assert(r@.map_values(|x: Row| x@) =~= expand(rows@.take(0)));
    }
    while i < rows.len()
        invariant
            0 <= i <= rows@.len(),
            r@.map_values(|x: Row| x@) == expand(rows@.take(i as int)),
        decreases rows.len() - i,
    {
        let ghost before = r@.map_values(|x: Row| x@);
        let count = rows[i].1;
        let mut k: u64 = 0;
        while k < count
            invariant
                0 <= k <= count,
                i < rows@.len(),
                count == rows@[i as int].1,
                r@.map_values(|x: Row| x@) == before + Seq::new(k as nat, |j: int| rows@[i as int].0@),
            decreases count - k,
        {
            let row = clone_row(&rows[i].0);
            let ghost prev = r@;
            r.push(row);
            proof {
                assert(r@.map_values(|x: Row| x@) =~= prev.map_values(|x: Row| x@).push(rows@[i as int].0@));
                assert(before + Seq::new((k + 1) as nat, |j: int| rows@[i as int].0@) =~= (before
                    + Seq::new(k as nat, |j: int| rows@[i as int].0@)).push(rows@[i as int].0@));
            }
            k = k + 1;
        }
        proof {
            let t = rows@.take(i as int + 1);
            assert(t.drop_last() =~= rows@.take(i as int));
            assert(t.last() == rows@[i as int]);
        }
        i = i + 1;
    }
    proof {
        assert(rows@.take(rows@.len() as int) =~= rows@);
    }
    r
}

} // verus!

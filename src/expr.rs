use vstd::prelude::*;

use crate::types::{Datum, GlobalId, Row};

verus! {

#[derive(Clone, Copy, Debug, PartialEq, Eq, Structural)]
pub enum NullaryFunc {
    /// The logical time at which a query runs.
    MzLogicalTimestamp,
    /// The wall-clock time at which a query runs.
    Now,
}

#[derive(Clone, Copy, Debug, PartialEq, Eq, Structural)]
pub enum UnaryFunc {
    Not,
    IsNull,
    Neg,
}

#[derive(Clone, Copy, Debug, PartialEq, Eq, Structural)]
pub enum BinaryFunc {
    And,
    Or,
    Eq,
    NotEq,
    Lt,
    Lte,
    Gt,
    Gte,
    Add,
    Sub,
}

#[derive(Clone, Copy, Debug, PartialEq, Eq, Structural)]
pub enum VariadicFunc {
    Coalesce,
    Concat,
}

/// A scalar expression of a query plan, before decorrelation: subqueries
/// (`Exists`, `Select`) may still appear in it.
#[derive(Debug)]
pub enum ScalarExpr {
    Column(usize),
    Literal(Datum),
    Parameter(usize),
    CallNullary(NullaryFunc),
    CallUnary { func: UnaryFunc, expr: Box<ScalarExpr> },
    CallBinary { func: BinaryFunc, expr1: Box<ScalarExpr>, expr2: Box<ScalarExpr> },
    CallVariadic { func: VariadicFunc, exprs: Vec<ScalarExpr> },
    If { cond: Box<ScalarExpr>, then_expr: Box<ScalarExpr>, else_expr: Box<ScalarExpr> },
    Exists(Box<RelationExpr>),
    Select(Box<RelationExpr>),
}

/// A relational expression of a query plan, before decorrelation.
#[derive(Debug)]
pub enum RelationExpr {
    Constant { rows: Vec<Row> },
    Get { id: GlobalId },
    Project { input: Box<RelationExpr>, outputs: Vec<usize> },
    MapScalars { input: Box<RelationExpr>, scalars: Vec<ScalarExpr> },
    FlatMap { input: Box<RelationExpr>, exprs: Vec<ScalarExpr> },
    Filter { input: Box<RelationExpr>, predicates: Vec<ScalarExpr> },
    Join { left: Box<RelationExpr>, right: Box<RelationExpr>, on: Box<ScalarExpr> },
    Reduce { input: Box<RelationExpr>, group_key: Vec<usize> },
    Distinct { input: Box<RelationExpr> },
    TopK { input: Box<RelationExpr>, group_key: Vec<usize>, limit: Option<usize>, offset: usize },
    Negate { input: Box<RelationExpr> },
    Threshold { input: Box<RelationExpr> },
    Union { left: Box<RelationExpr>, right: Box<RelationExpr> },
}

pub open spec fn literal_true_spec() -> ScalarExpr {
    ScalarExpr::Literal(Datum::Bool(true))
}

/// The literal `true`.
pub fn literal_true() -> (r: ScalarExpr)
    ensures
        r == literal_true_spec(),
{
    ScalarExpr::Literal(Datum::Bool(true))
}

/// True iff a subquery occurs in `e`.
pub open spec fn has_subquery(e: ScalarExpr) -> bool
    decreases e,
{
    match e {
        ScalarExpr::Column(_) => false,
        ScalarExpr::Literal(_) => false,
        ScalarExpr::Parameter(_) => false,
        ScalarExpr::CallNullary(_) => false,
        ScalarExpr::Exists(_) => true,
        ScalarExpr::Select(_) => true,
        ScalarExpr::CallUnary { expr, .. } => has_subquery(*expr),
        ScalarExpr::CallBinary { expr1, expr2, .. } => has_subquery(*expr1) || has_subquery(*expr2),
        ScalarExpr::CallVariadic { exprs, .. } => exists|i: int|
            0 <= i < exprs@.len() && has_subquery(#[trigger] exprs@[i]),
        ScalarExpr::If { cond, then_expr, else_expr } => has_subquery(*cond) || has_subquery(
            *then_expr,
        ) || has_subquery(*else_expr),
    }
}

/// The conjuncts of `e` (split along `AND`) that hold a subquery, in order.
pub open spec fn extracted(e: ScalarExpr) -> Seq<ScalarExpr>
    decreases e,
{
    match e {
        ScalarExpr::CallBinary { func: BinaryFunc::And, expr1, expr2 } => extracted(*expr1)
            + extracted(*expr2),
        _ => if has_subquery(e) {
            seq![e]
        } else {
            Seq::empty()
        },
    }
}

/// `b` is `a` with each conjunct that holds a subquery replaced by `true`.
pub open spec fn replaced(a: ScalarExpr, b: ScalarExpr) -> bool
    decreases a,
{
    match a {
        ScalarExpr::CallBinary { func: BinaryFunc::And, expr1, expr2 } => match b {
            ScalarExpr::CallBinary { func: BinaryFunc::And, expr1: b1, expr2: b2 } => replaced(
                *expr1,
                *b1,
            ) && replaced(*expr2, *b2),
            _ => false,
        },
        _ => if has_subquery(a) {
            b == literal_true_spec()
        } else {
            b == a
        },
    }
}

/// The extracted conjuncts of each expression of `w`, in order.
pub open spec fn extracted_all(w: Seq<ScalarExpr>) -> Seq<ScalarExpr>
    decreases w.len(),
{
    if w.len() == 0 {
        Seq::empty()
    } else {
        extracted_all(w.drop_last()) + extracted(w.last())
    }
}

/// `b` is `a` with every relation inside it rewritten (see `split_rel`).
pub open spec fn split_scalar(a: ScalarExpr, b: ScalarExpr) -> bool
    decreases a,
{
    match a {
        ScalarExpr::Column(_) => b == a,
        ScalarExpr::Literal(_) => b == a,
        ScalarExpr::Parameter(_) => b == a,
        ScalarExpr::CallNullary(_) => b == a,
        ScalarExpr::Exists(r) => match b {
            ScalarExpr::Exists(r2) => split_rel(*r, *r2),
            _ => false,
        },
        ScalarExpr::Select(r) => match b {
            ScalarExpr::Select(r2) => split_rel(*r, *r2),
            _ => false,
        },
        ScalarExpr::CallUnary { func, expr } => match b {
            ScalarExpr::CallUnary { func: f2, expr: e2 } => f2 == func && split_scalar(*expr, *e2),
            _ => false,
        },
        ScalarExpr::CallBinary { func, expr1, expr2 } => match b {
            ScalarExpr::CallBinary { func: f2, expr1: b1, expr2: b2 } => f2 == func
                && split_scalar(*expr1, *b1) && split_scalar(*expr2, *b2),
            _ => false,
        },
        ScalarExpr::CallVariadic { func, exprs } => match b {
            ScalarExpr::CallVariadic { func: f2, exprs: e2 } => f2 == func && e2@.len()
                == exprs@.len() && forall|i: int|
                0 <= i < exprs@.len() ==> split_scalar(#[trigger] exprs@[i], e2@[i]),
            _ => false,
        },
        ScalarExpr::If { cond, then_expr, else_expr } => match b {
            ScalarExpr::If { cond: c2, then_expr: t2, else_expr: e2 } => split_scalar(*cond, *c2)
                && split_scalar(*then_expr, *t2) && split_scalar(*else_expr, *e2),
            _ => false,
        },
    }
}

/// `b` is `a` rewritten so that, in every filter, each conjunct that holds a
/// subquery becomes a predicate of its own, after all the predicates the
/// filter had, in the order met: its place in the predicate it came from
/// holds `true`. Every other part keeps its shape; nested relations, also
/// those inside subqueries, are rewritten the same way.
pub open spec fn split_rel(a: RelationExpr, b: RelationExpr) -> bool
    decreases a,
{
    match a {
        RelationExpr::Constant { .. } => b == a,
        RelationExpr::Get { .. } => b == a,
        RelationExpr::Project { input, outputs } => match b {
            RelationExpr::Project { input: i2, outputs: o2 } => o2 == outputs && split_rel(
                *input,
                *i2,
            ),
            _ => false,
        },
        RelationExpr::Distinct { input } => match b {
            RelationExpr::Distinct { input: i2 } => split_rel(*input, *i2),
            _ => false,
        },
        RelationExpr::Negate { input } => match b {
            RelationExpr::Negate { input: i2 } => split_rel(*input, *i2),
            _ => false,
        },
        RelationExpr::Threshold { input } => match b {
            RelationExpr::Threshold { input: i2 } => split_rel(*input, *i2),
            _ => false,
        },
        RelationExpr::Reduce { input, group_key } => match b {
            RelationExpr::Reduce { input: i2, group_key: g2 } => g2 == group_key && split_rel(
                *input,
                *i2,
            ),
            _ => false,
        },
        RelationExpr::TopK { input, group_key, limit, offset } => match b {
            RelationExpr::TopK { input: i2, group_key: g2, limit: l2, offset: o2 } => g2
                == group_key && l2 == limit && o2 == offset && split_rel(*input, *i2),
            _ => false,
        },
        RelationExpr::Join { left, right, on } => match b {
            RelationExpr::Join { left: l2, right: r2, on: on2 } => on2 == on && split_rel(
                *left,
                *l2,
            ) && split_rel(*right, *r2),
            _ => false,
        },
        RelationExpr::Union { left, right } => match b {
            RelationExpr::Union { left: l2, right: r2 } => split_rel(*left, *l2) && split_rel(
                *right,
                *r2,
            ),
            _ => false,
        },
        RelationExpr::MapScalars { input, scalars } => match b {
            RelationExpr::MapScalars { input: i2, scalars: s2 } => split_rel(*input, *i2) && s2@.len()
                == scalars@.len() && forall|i: int|
                0 <= i < scalars@.len() ==> split_scalar(#[trigger] scalars@[i], s2@[i]),
            _ => false,
        },
        RelationExpr::FlatMap { input, exprs } => match b {
            RelationExpr::FlatMap { input: i2, exprs: e2 } => split_rel(*input, *i2) && e2@.len()
                == exprs@.len() && forall|i: int|
                0 <= i < exprs@.len() ==> split_scalar(#[trigger] exprs@[i], e2@[i]),
            _ => false,
        },
        RelationExpr::Filter { input, predicates } => match b {
            RelationExpr::Filter { input: i2, predicates: p2 } => split_rel(*input, *i2) && exists|
                w: Seq<ScalarExpr>,
            |
                {
                    &&& #[trigger] w.len() == predicates@.len()
                    &&& forall|i: int|
                        0 <= i < predicates@.len() ==> split_scalar(
                            #[trigger] predicates@[i],
                            w[i],
                        )
                    &&& p2@.len() == w.len() + extracted_all(w).len()
                    &&& forall|i: int| 0 <= i < w.len() ==> replaced(#[trigger] w[i], p2@[i])
                    &&& p2@.subrange(w.len() as int, p2@.len() as int) == extracted_all(w)
                },
            _ => false,
        },
    }
}

/// True iff a subquery occurs in `expr`.
pub fn contains_subquery(expr: &ScalarExpr) -> (r: bool)
    ensures
        r == has_subquery(*expr),
    decreases expr,
{
    match expr {
        ScalarExpr::Column(_) | ScalarExpr::Literal(_) | ScalarExpr::Parameter(_)
        | ScalarExpr::CallNullary(_) => false,
        ScalarExpr::Exists(_) | ScalarExpr::Select(_) => true,
        ScalarExpr::CallUnary { expr: e, .. } => contains_subquery(e),
        ScalarExpr::CallBinary { expr1, expr2, .. } => contains_subquery(expr1) || contains_subquery(
            expr2,
        ),
        ScalarExpr::CallVariadic { exprs, .. } => {
            let mut i: usize = 0;
            while i < exprs.len()
                invariant
                    0 <= i <= exprs@.len(),
                    *expr == (ScalarExpr::CallVariadic { func: expr->func, exprs: *exprs }),
                    forall|j: int| 0 <= j < i ==> !has_subquery(#[trigger] exprs@[j]),
                decreases exprs.len() - i,
            {
                proof {
                    assert(decreases_to!(*expr => (*expr)->CallVariadic_exprs));
                    assert(decreases_to!(*exprs => exprs@));
                    assert(decreases_to!(exprs@ => exprs@[i as int]));
                    assert((*expr)->CallVariadic_exprs == *exprs);
                    assert(decreases_to!(*expr => exprs@[i as int]));
                }
                if contains_subquery(&exprs[i]) {
                    return true;
                }
                i = i + 1;
            }
            false
        },
        ScalarExpr::If { cond, then_expr, else_expr } => contains_subquery(cond)
            || contains_subquery(then_expr) || contains_subquery(else_expr),
    }
}

/// Moves each conjunct of `expr` that holds a subquery to the end of `out`,
/// leaving `true` in its place.
fn extract_conjuncted_subqueries(expr: ScalarExpr, out: &mut Vec<ScalarExpr>) -> (r: ScalarExpr)
    ensures
        replaced(expr, r),
        final(out)@ == old(out)@ + extracted(expr),
    decreases expr,
{
    let ghost e0 = expr;
    match expr {
        ScalarExpr::CallBinary { func: BinaryFunc::And, expr1, expr2 } => {
            let ghost o0 = out@;
            let b1 = extract_conjuncted_subqueries(*expr1, out);
            let b2 = extract_conjuncted_subqueries(*expr2, out);
            proof {
                assert(out@ =~= o0 + extracted(e0));
            }
            ScalarExpr::CallBinary { func: BinaryFunc::And, expr1: Box::new(b1), expr2: Box::new(b2) }
        },
        other => {
            if contains_subquery(&other) {
                out.push(other);
                proof {
                    assert(final(out)@ =~= old(out)@ + extracted(e0));
                }
                literal_true()
            } else {
                proof {
                    assert(out@ =~= old(out)@ + extracted(e0));
                }
                other
            }
        },
    }
}

/// Rewrites each expression of `v`, in order.
fn walk_scalars(v: Vec<ScalarExpr>, Ghost(parent): Ghost<RelationExpr>) -> (r: Vec<ScalarExpr>)
    requires
        forall|i: int| 0 <= i < v@.len() ==> decreases_to!(parent => #[trigger] v@[i]),
    ensures
        r@.len() == v@.len(),
        forall|i: int| 0 <= i < v@.len() ==> split_scalar(#[trigger] v@[i], r@[i]),
    decreases parent, 1int,
{
    let _n = v.len();
    let ghost v0 = v@;
    let mut rest = v;
    let mut r: Vec<ScalarExpr> = Vec::new();
    let mut i: usize = 0;
    while rest.len() > 0
        invariant
            0 <= i <= v0.len(),
            v0.len() <= usize::MAX,
            rest@ == v0.subrange(i as int, v0.len() as int),
            r@.len() == i,
            forall|j: int| 0 <= j < i ==> split_scalar(#[trigger] v0[j], r@[j]),
            forall|j: int| 0 <= j < v0.len() ==> decreases_to!(parent => #[trigger] v0[j]),
        decreases rest.len(),
    {
        let e = rest.remove(0);
        proof {
            assert(e == v0[i as int]);
        }
        let w = walk_scalar(e);
        r.push(w);
        i = i + 1;
    }
    r
}

/// Rewrites each argument of a variadic call, in order.
fn walk_arguments(v: Vec<ScalarExpr>, Ghost(parent): Ghost<ScalarExpr>) -> (r: Vec<ScalarExpr>)
    requires
        forall|i: int| 0 <= i < v@.len() ==> decreases_to!(parent => #[trigger] v@[i]),
    ensures
        r@.len() == v@.len(),
        forall|i: int| 0 <= i < v@.len() ==> split_scalar(#[trigger] v@[i], r@[i]),
    decreases parent, 1int,
{
    let _n = v.len();
    let ghost v0 = v@;
    let mut rest = v;
    let mut r: Vec<ScalarExpr> = Vec::new();
    let mut i: usize = 0;
    while rest.len() > 0
        invariant
            0 <= i <= v0.len(),
            v0.len() <= usize::MAX,
            rest@ == v0.subrange(i as int, v0.len() as int),
            r@.len() == i,
            forall|j: int| 0 <= j < i ==> split_scalar(#[trigger] v0[j], r@[j]),
            forall|j: int| 0 <= j < v0.len() ==> decreases_to!(parent => #[trigger] v0[j]),
        decreases rest.len(),
    {
        let e = rest.remove(0);
        proof {
            assert(e == v0[i as int]);
        }
        let w = walk_scalar(e);
        r.push(w);
        i = i + 1;
    }
    r
}

/// Rewrites the relations inside a scalar expression.
fn walk_scalar(expr: ScalarExpr) -> (r: ScalarExpr)
    ensures
        split_scalar(expr, r),
    decreases expr, 2int,
{
    let ghost e0 = expr;
    match expr {
        ScalarExpr::Column(c) => ScalarExpr::Column(c),
        ScalarExpr::Literal(d) => ScalarExpr::Literal(d),
        ScalarExpr::Parameter(p) => ScalarExpr::Parameter(p),
        ScalarExpr::CallNullary(f) => ScalarExpr::CallNullary(f),
        ScalarExpr::Exists(input) => ScalarExpr::Exists(Box::new(walk_relation(*input))),
        ScalarExpr::Select(input) => ScalarExpr::Select(Box::new(walk_relation(*input))),
        ScalarExpr::CallUnary { func, expr } => ScalarExpr::CallUnary {
            func,
            expr: Box::new(walk_scalar(*expr)),
        },
        ScalarExpr::CallBinary { func, expr1, expr2 } => {
            let b1 = walk_scalar(*expr1);
            let b2 = walk_scalar(*expr2);
            ScalarExpr::CallBinary { func, expr1: Box::new(b1), expr2: Box::new(b2) }
        },
        ScalarExpr::CallVariadic { func, exprs } => {
            proof {
                assert(decreases_to!(e0 => e0->CallVariadic_exprs));
                assert(decreases_to!(exprs => exprs@));
                assert forall|i: int| 0 <= i < exprs@.len() implies decreases_to!(
                    e0 => #[trigger] exprs@[i]) by {
                    assert(decreases_to!(exprs@ => exprs@[i]));
                }
            }
            ScalarExpr::CallVariadic { func, exprs: walk_arguments(exprs, Ghost(e0)) }
        },
        ScalarExpr::If { cond, then_expr, else_expr } => {
            let c = walk_scalar(*cond);
            let t = walk_scalar(*then_expr);
            let e = walk_scalar(*else_expr);
            ScalarExpr::If { cond: Box::new(c), then_expr: Box::new(t), else_expr: Box::new(e) }
        },
    }
}

/// Rewrites a relation: see `split_rel`.
fn walk_relation(expr: RelationExpr) -> (r: RelationExpr)
    ensures
        split_rel(expr, r),
    decreases expr, 2int,
{
    let ghost e0 = expr;
    match expr {
        RelationExpr::Constant { rows } => RelationExpr::Constant { rows },
        RelationExpr::Get { id } => RelationExpr::Get { id },
        RelationExpr::Project { input, outputs } => RelationExpr::Project {
            input: Box::new(walk_relation(*input)),
            outputs,
        },
        RelationExpr::Distinct { input } => RelationExpr::Distinct {
            input: Box::new(walk_relation(*input)),
        },
        RelationExpr::Negate { input } => RelationExpr::Negate {
            input: Box::new(walk_relation(*input)),
        },
        RelationExpr::Threshold { input } => RelationExpr::Threshold {
            input: Box::new(walk_relation(*input)),
        },
        RelationExpr::Reduce { input, group_key } => RelationExpr::Reduce {
            input: Box::new(walk_relation(*input)),
            group_key,
        },
        RelationExpr::TopK { input, group_key, limit, offset } => RelationExpr::TopK {
            input: Box::new(walk_relation(*input)),
            group_key,
            limit,
            offset,
        },
        RelationExpr::Join { left, right, on } => {
            let l = walk_relation(*left);
            let r = walk_relation(*right);
            RelationExpr::Join { left: Box::new(l), right: Box::new(r), on }
        },
        RelationExpr::Union { left, right } => {
            let l = walk_relation(*left);
            let r = walk_relation(*right);
            RelationExpr::Union { left: Box::new(l), right: Box::new(r) }
        },
        RelationExpr::MapScalars { input, scalars } => {
            proof {
                assert(decreases_to!(e0 => e0->MapScalars_scalars));
                assert(decreases_to!(scalars => scalars@));
                assert forall|i: int| 0 <= i < scalars@.len() implies decreases_to!(
                    e0 => #[trigger] scalars@[i]) by {
                    assert(decreases_to!(scalars@ => scalars@[i]));
                }
            }
            let i2 = walk_relation(*input);
            RelationExpr::MapScalars { input: Box::new(i2), scalars: walk_scalars(scalars, Ghost(e0)) }
        },
        RelationExpr::FlatMap { input, exprs } => {
            proof {
                assert(decreases_to!(e0 => e0->FlatMap_exprs));
                assert(decreases_to!(exprs => exprs@));
                assert forall|i: int| 0 <= i < exprs@.len() implies decreases_to!(
                    e0 => #[trigger] exprs@[i]) by {
                    assert(decreases_to!(exprs@ => exprs@[i]));
                }
            }
            let i2 = walk_relation(*input);
            RelationExpr::FlatMap { input: Box::new(i2), exprs: walk_scalars(exprs, Ghost(e0)) }
        },
        RelationExpr::Filter { input, predicates } => {
            proof {
                assert(decreases_to!(e0 => e0->Filter_predicates));
                assert(decreases_to!(predicates => predicates@));
                assert forall|i: int| 0 <= i < predicates@.len() implies decreases_to!(
                    e0 => #[trigger] predicates@[i]) by {
                    assert(decreases_to!(predicates@ => predicates@[i]));
                }
            }
            let i2 = walk_relation(*input);
            let walked = walk_scalars(predicates, Ghost(e0));
            let _n = walked.len();
            let ghost w = walked@;
            let mut rest = walked;
            let mut kept: Vec<ScalarExpr> = Vec::new();
            let mut subqueries: Vec<ScalarExpr> = Vec::new();
            let mut i: usize = 0;
            while rest.len() > 0
                invariant
                    0 <= i <= w.len(),
                    w.len() <= usize::MAX,
                    rest@ == w.subrange(i as int, w.len() as int),
                    kept@.len() == i,
                    forall|j: int| 0 <= j < i ==> replaced(#[trigger] w[j], kept@[j]),
                    subqueries@ == extracted_all(w.take(i as int)),
                decreases rest.len(),
            {
                let p = rest.remove(0);
                proof {
                    assert(p == w[i as int]);
                    assert(w.take(i as int + 1).drop_last() =~= w.take(i as int));
                }
                let q = extract_conjuncted_subqueries(p, &mut subqueries);
                kept.push(q);
                i = i + 1;
            }
            proof {
                assert(w.take(w.len() as int) =~= w);
            }
            let ghost k = kept@;
            let mut preds = kept;
            preds.append(&mut subqueries);
            proof {
                assert(preds@.subrange(w.len() as int, preds@.len() as int) =~= extracted_all(w));
                assert(forall|j: int| 0 <= j < w.len() ==> preds@[j] == k[j]);
            }
            RelationExpr::Filter { input: Box::new(i2), predicates: preds }
        },
    }
}

/// Rewrites predicates that contain subqueries so that the subqueries appear
/// in their own later predicates: in every filter, each conjunct of a
/// predicate that holds a subquery is replaced by `true` and appended as a
/// predicate of its own, in the order met. Decorrelation then evaluates each
/// subquery only for the rows that the earlier predicates admit.
pub fn split_subquery_predicates(expr: &mut RelationExpr)
    ensures
        split_rel(*old(expr), *final(expr)),
{
    let mut taken = RelationExpr::Constant { rows: Vec::new() };
    std::mem::swap(expr, &mut taken);
    *expr = walk_relation(taken);
}

/// The ways in which an expression can be prepared for execution.
#[derive(Clone, Copy, Debug, PartialEq, Eq, Structural)]
pub enum ExprPrepStyle {
    /// For output in an `EXPLAIN`.
    Explain,
    /// For installation in a static context, such as a view.
    Static,
    /// To run once at the given logical time.
    OneShot { logical_time: u64 },
}

#[derive(Debug, PartialEq, Eq, Structural)]
pub enum PrepError {
    /// A static query may not observe its own logical time.
    LogicalTimestampInStaticQuery,
}

/// The time that stands in for the logical timestamp under `style`.
pub open spec fn style_time(style: ExprPrepStyle) -> u64 {
    match style {
        ExprPrepStyle::OneShot { logical_time } => logical_time,
        _ => 0,
    }
}

/// True iff `e` calls the logical timestamp outside any subquery.
pub open spec fn observes_ts(e: ScalarExpr) -> bool
    decreases e,
{
    match e {
        ScalarExpr::CallNullary(f) => f == NullaryFunc::MzLogicalTimestamp,
        ScalarExpr::CallUnary { expr, .. } => observes_ts(*expr),
        ScalarExpr::CallBinary { expr1, expr2, .. } => observes_ts(*expr1) || observes_ts(*expr2),
        ScalarExpr::CallVariadic { exprs, .. } => exists|i: int|
            0 <= i < exprs@.len() && observes_ts(#[trigger] exprs@[i]),
        ScalarExpr::If { cond, then_expr, else_expr } => observes_ts(*cond) || observes_ts(
            *then_expr,
        ) || observes_ts(*else_expr),
        _ => false,
    }
}

/// `b` is `a` with every call of the logical timestamp outside subqueries
/// replaced by the literal `ts`.
pub open spec fn prepped(a: ScalarExpr, b: ScalarExpr, ts: u64) -> bool
    decreases a,
{
    match a {
        ScalarExpr::CallNullary(f) => if f == NullaryFunc::MzLogicalTimestamp {
            b == ScalarExpr::Literal(Datum::Numeric(ts as i128))
        } else {
            b == a
        },
        ScalarExpr::CallUnary { func, expr } => match b {
            ScalarExpr::CallUnary { func: f2, expr: e2 } => f2 == func && prepped(*expr, *e2, ts),
            _ => false,
        },
        ScalarExpr::CallBinary { func, expr1, expr2 } => match b {
            ScalarExpr::CallBinary { func: f2, expr1: b1, expr2: b2 } => f2 == func && prepped(
                *expr1,
                *b1,
                ts,
            ) && prepped(*expr2, *b2, ts),
            _ => false,
        },
        ScalarExpr::CallVariadic { func, exprs } => match b {
            ScalarExpr::CallVariadic { func: f2, exprs: e2 } => f2 == func && e2@.len()
                == exprs@.len() && forall|i: int|
                0 <= i < exprs@.len() ==> prepped(#[trigger] exprs@[i], e2@[i], ts),
            _ => false,
        },
        ScalarExpr::If { cond, then_expr, else_expr } => match b {
            ScalarExpr::If { cond: c2, then_expr: t2, else_expr: e2 } => prepped(*cond, *c2, ts)
                && prepped(*then_expr, *t2, ts) && prepped(*else_expr, *e2, ts),
            _ => false,
        },
        _ => b == a,
    }
}

fn prep_arguments(v: Vec<ScalarExpr>, ts: u64, Ghost(parent): Ghost<ScalarExpr>) -> (r: (
    Vec<ScalarExpr>,
    bool,
))
    requires
        forall|i: int| 0 <= i < v@.len() ==> decreases_to!(parent => #[trigger] v@[i]),
    ensures
        r.0@.len() == v@.len(),
        forall|i: int| 0 <= i < v@.len() ==> prepped(#[trigger] v@[i], r.0@[i], ts),
        r.1 == exists|i: int| 0 <= i < v@.len() && observes_ts(#[trigger] v@[i]),
    decreases parent, 1int,
{
    let _n = v.len();
    let ghost v0 = v@;
    let mut rest = v;
    let mut r: Vec<ScalarExpr> = Vec::new();
    let mut seen = false;
    let mut i: usize = 0;
    while rest.len() > 0
        invariant
            0 <= i <= v0.len(),
            v0.len() <= usize::MAX,
            rest@ == v0.subrange(i as int, v0.len() as int),
            r@.len() == i,
            forall|j: int| 0 <= j < i ==> prepped(#[trigger] v0[j], r@[j], ts),
            seen == exists|j: int| 0 <= j < i && observes_ts(#[trigger] v0[j]),
            forall|j: int| 0 <= j < v0.len() ==> decreases_to!(parent => #[trigger] v0[j]),
        decreases rest.len(),
    {
        let e = rest.remove(0);
        proof {
            assert(e == v0[i as int]);
        }
        let (p, o) = prep(e, ts);
        r.push(p);
        seen = seen || o;
        i = i + 1;
    }
    (r, seen)
}

fn prep(expr: ScalarExpr, ts: u64) -> (r: (ScalarExpr, bool))
    ensures
        prepped(expr, r.0, ts),
        r.1 == observes_ts(expr),
    decreases expr, 2int,
{
    let ghost e0 = expr;
    match expr {
        ScalarExpr::CallNullary(f) => {
            if f == NullaryFunc::MzLogicalTimestamp {
                (ScalarExpr::Literal(Datum::Numeric(ts as i128)), true)
            } else {
                (ScalarExpr::CallNullary(f), false)
            }
        },
        ScalarExpr::CallUnary { func, expr } => {
            let (e, o) = prep(*expr, ts);
            (ScalarExpr::CallUnary { func, expr: Box::new(e) }, o)
        },
        ScalarExpr::CallBinary { func, expr1, expr2 } => {
            let (b1, o1) = prep(*expr1, ts);
            let (b2, o2) = prep(*expr2, ts);
            (ScalarExpr::CallBinary { func, expr1: Box::new(b1), expr2: Box::new(b2) }, o1 || o2)
        },
        ScalarExpr::CallVariadic { func, exprs } => {
            proof {
                assert(decreases_to!(e0 => e0->CallVariadic_exprs));
                assert(decreases_to!(exprs => exprs@));
                assert forall|i: int| 0 <= i < exprs@.len() implies decreases_to!(
                    e0 => #[trigger] exprs@[i]) by {
                    assert(decreases_to!(exprs@ => exprs@[i]));
                }
            }
            let (v, o) = prep_arguments(exprs, ts, Ghost(e0));
            (ScalarExpr::CallVariadic { func, exprs: v }, o)
        },
        ScalarExpr::If { cond, then_expr, else_expr } => {
            let (c, o1) = prep(*cond, ts);
            let (t, o2) = prep(*then_expr, ts);
            let (e, o3) = prep(*else_expr, ts);
            (
                ScalarExpr::If { cond: Box::new(c), then_expr: Box::new(t), else_expr: Box::new(e) },
                o1 || o2 || o3,
            )
        },
        other => (other, false),
    }
}

/// Prepares a scalar expression for execution: each call of the logical
/// timestamp becomes the literal time of a one-shot run, or zero for
/// `EXPLAIN` and static contexts; a static expression that observes the
/// timestamp is refused. Subqueries are planned away before preparation and
/// are not entered.
pub fn prep_scalar_expr(expr: &mut ScalarExpr, style: ExprPrepStyle) -> (r: Result<(), PrepError>)
    ensures
        prepped(*old(expr), *final(expr), style_time(style)),
        r is Err <==> style == ExprPrepStyle::Static && observes_ts(*old(expr)),
{
    let ts: u64 = match style {
        ExprPrepStyle::Explain | ExprPrepStyle::Static => 0,
        ExprPrepStyle::OneShot { logical_time } => logical_time,
    };
    let mut taken = ScalarExpr::Column(0);
    std::mem::swap(expr, &mut taken);
    let (prepared, observes) = prep(taken, ts);
    *expr = prepared;
    if observes && style == ExprPrepStyle::Static {
        return Err(PrepError::LogicalTimestampInStaticQuery);
    }
    Ok(())
}

} // verus!

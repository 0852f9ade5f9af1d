use coord::dataflow::{choose_fast_path, merge_peek_responses, PeekCandidate, PeekResponse};
use coord::expr::{
    prep_scalar_expr, BinaryFunc, ExprPrepStyle, NullaryFunc, PrepError, RelationExpr, ScalarExpr,
    UnaryFunc, VariadicFunc,
};
use coord::messages::{
    duration_to_timestamp_millis, maybe_begin_caching, sink_connector_ready_action, CacheAction, LoggingConfig,
    SinkReadyAction,
};
use coord::split_subquery_predicates;
use coord::types::{Datum, GlobalId};

fn get(n: u64) -> RelationExpr {
    RelationExpr::Get { id: GlobalId::User(n) }
}

fn col(c: usize) -> ScalarExpr {
    ScalarExpr::Column(c)
}

fn bin(func: BinaryFunc, a: ScalarExpr, b: ScalarExpr) -> ScalarExpr {
    ScalarExpr::CallBinary { func, expr1: Box::new(a), expr2: Box::new(b) }
}

fn and(a: ScalarExpr, b: ScalarExpr) -> ScalarExpr {
    bin(BinaryFunc::And, a, b)
}

fn exists_of(n: u64) -> ScalarExpr {
    ScalarExpr::Exists(Box::new(get(n)))
}

fn select(n: u64) -> ScalarExpr {
    ScalarExpr::Select(Box::new(get(n)))
}

fn is_true(e: &ScalarExpr) -> bool {
    matches!(e, ScalarExpr::Literal(Datum::Bool(true)))
}

#[test]
fn subquery_conjuncts_become_their_own_predicates() {
    // a = b AND EXISTS (s1) AND c = d AND (s2) = e
    let pred = and(
        and(and(bin(BinaryFunc::Eq, col(0), col(1)), exists_of(10)), bin(BinaryFunc::Eq, col(2), col(3))),
        bin(BinaryFunc::Eq, select(11), col(4)),
    );
    let mut e = RelationExpr::Filter { input: Box::new(get(1)), predicates: vec![pred] };
    split_subquery_predicates(&mut e);
    match e {
        RelationExpr::Filter { input, predicates } => {
            assert!(matches!(*input, RelationExpr::Get { id: GlobalId::User(1) }));
            assert_eq!(predicates.len(), 3);
            match &predicates[0] {
                ScalarExpr::CallBinary { func: BinaryFunc::And, expr1, expr2 } => {
                    assert!(is_true(expr2));
                    match &**expr1 {
                        ScalarExpr::CallBinary { func: BinaryFunc::And, expr1: inner, expr2: cd } => {
                            assert!(matches!(&**cd, ScalarExpr::CallBinary { func: BinaryFunc::Eq, .. }));
                            match &**inner {
                                ScalarExpr::CallBinary { func: BinaryFunc::And, expr1: ab, expr2: t } => {
                                    assert!(matches!(&**ab, ScalarExpr::CallBinary { func: BinaryFunc::Eq, .. }));
                                    assert!(is_true(t));
                                }
                                _ => panic!("unexpected shape"),
                            }
                        }
                        _ => panic!("unexpected shape"),
                    }
                }
                _ => panic!("unexpected shape"),
            }
            assert!(matches!(&predicates[1], ScalarExpr::Exists(_)));
            match &predicates[2] {
                ScalarExpr::CallBinary { func: BinaryFunc::Eq, expr1, .. } => {
                    assert!(matches!(&**expr1, ScalarExpr::Select(_)))
                }
                _ => panic!("unexpected shape"),
            }
        }
        _ => panic!("expected a filter"),
    }
}

#[test]
fn predicates_without_subqueries_are_untouched() {
    let mut e = RelationExpr::Filter {
        input: Box::new(get(1)),
        predicates: vec![bin(BinaryFunc::Lt, col(0), col(1)), and(col(2), col(3))],
    };
    split_subquery_predicates(&mut e);
    match e {
        RelationExpr::Filter { predicates, .. } => {
            assert_eq!(predicates.len(), 2);
            assert!(matches!(&predicates[0], ScalarExpr::CallBinary { func: BinaryFunc::Lt, .. }));
            assert!(matches!(&predicates[1], ScalarExpr::CallBinary { func: BinaryFunc::And, .. }));
        }
        _ => panic!("expected a filter"),
    }
}

#[test]
fn a_whole_subquery_predicate_moves_and_leaves_true() {
    let mut e = RelationExpr::Filter {
        input: Box::new(get(1)),
        predicates: vec![ScalarExpr::CallUnary { func: UnaryFunc::Not, expr: Box::new(exists_of(5)) }, col(0)],
    };
    split_subquery_predicates(&mut e);
    match e {
        RelationExpr::Filter { predicates, .. } => {
            assert_eq!(predicates.len(), 3);
            assert!(is_true(&predicates[0]));
            assert!(matches!(&predicates[1], ScalarExpr::Column(0)));
            assert!(matches!(&predicates[2], ScalarExpr::CallUnary { func: UnaryFunc::Not, .. }));
        }
        _ => panic!("expected a filter"),
    }
}

#[test]
fn nested_filters_are_rewritten() {
    let inner = RelationExpr::Filter { input: Box::new(get(2)), predicates: vec![and(col(0), exists_of(3))] };
    let mut e = RelationExpr::Union {
        left: Box::new(get(1)),
        right: Box::new(RelationExpr::Project { input: Box::new(inner), outputs: vec![0] }),
    };
    split_subquery_predicates(&mut e);
    match e {
        RelationExpr::Union { right, .. } => match *right {
            RelationExpr::Project { input, outputs } => {
                assert_eq!(outputs, vec![0]);
                match *input {
                    RelationExpr::Filter { predicates, .. } => {
                        assert_eq!(predicates.len(), 2);
                        assert!(matches!(&predicates[1], ScalarExpr::Exists(_)));
                    }
                    _ => panic!("expected a filter"),
                }
            }
            _ => panic!("expected a projection"),
        },
        _ => panic!("expected a union"),
    }
}

#[test]
fn filters_inside_subqueries_are_rewritten() {
    let sub = RelationExpr::Filter { input: Box::new(get(2)), predicates: vec![and(col(0), exists_of(3))] };
    let mut e = RelationExpr::MapScalars {
        input: Box::new(get(1)),
        scalars: vec![ScalarExpr::CallVariadic {
            func: VariadicFunc::Coalesce,
            exprs: vec![ScalarExpr::Select(Box::new(sub)), col(1)],
        }],
    };
    split_subquery_predicates(&mut e);
    match e {
        RelationExpr::MapScalars { scalars, .. } => match &scalars[0] {
            ScalarExpr::CallVariadic { exprs, .. } => match &exprs[0] {
                ScalarExpr::Select(r) => match &**r {
                    RelationExpr::Filter { predicates, .. } => assert_eq!(predicates.len(), 2),
                    _ => panic!("expected a filter"),
                },
                _ => panic!("expected a subquery"),
            },
            _ => panic!("expected a call"),
        },
        _ => panic!("expected a map"),
    }
}

#[test]
fn one_shot_preparation_substitutes_the_time() {
    let mut e = bin(BinaryFunc::Lt, col(0), ScalarExpr::CallNullary(NullaryFunc::MzLogicalTimestamp));
    assert_eq!(prep_scalar_expr(&mut e, ExprPrepStyle::OneShot { logical_time: 1234 }), Ok(()));
    match e {
        ScalarExpr::CallBinary { expr2, .. } => {
            assert!(matches!(*expr2, ScalarExpr::Literal(Datum::Numeric(1234))))
        }
        _ => panic!("unexpected shape"),
    }
}

#[test]
fn explain_preparation_substitutes_zero() {
    let mut e = ScalarExpr::CallVariadic {
        func: VariadicFunc::Concat,
        exprs: vec![col(1), ScalarExpr::CallNullary(NullaryFunc::MzLogicalTimestamp)],
    };
    assert_eq!(prep_scalar_expr(&mut e, ExprPrepStyle::Explain), Ok(()));
    match e {
        ScalarExpr::CallVariadic { exprs, .. } => {
            assert!(matches!(exprs[1], ScalarExpr::Literal(Datum::Numeric(0))))
        }
        _ => panic!("unexpected shape"),
    }
}

#[test]
fn static_preparation_refuses_the_logical_timestamp() {
    let mut e = ScalarExpr::If {
        cond: Box::new(col(0)),
        then_expr: Box::new(ScalarExpr::CallNullary(NullaryFunc::MzLogicalTimestamp)),
        else_expr: Box::new(col(1)),
    };
    assert_eq!(prep_scalar_expr(&mut e, ExprPrepStyle::Static), Err(PrepError::LogicalTimestampInStaticQuery));
    let mut ok = ScalarExpr::CallNullary(NullaryFunc::Now);
    assert_eq!(prep_scalar_expr(&mut ok, ExprPrepStyle::Static), Ok(()));
    assert!(matches!(ok, ScalarExpr::CallNullary(NullaryFunc::Now)));
}

#[test]
fn peek_responses_merge_with_error_first() {
    let rows = |n: i64| PeekResponse::Rows(vec![vec![Datum::Int64(n)]]);
    match merge_peek_responses(rows(1), rows(2)) {
        PeekResponse::Rows(r) => {
            assert_eq!(r.len(), 2);
            assert!(matches!(r[0][0], Datum::Int64(1)));
            assert!(matches!(r[1][0], Datum::Int64(2)));
        }
        _ => panic!("expected rows"),
    }
    assert!(matches!(merge_peek_responses(rows(1), PeekResponse::Canceled), PeekResponse::Canceled));
    assert!(matches!(
        merge_peek_responses(PeekResponse::Canceled, PeekResponse::Error("x".to_string())),
        PeekResponse::Error(_)
    ));
    match merge_peek_responses(PeekResponse::Error("first".to_string()), PeekResponse::Error("second".to_string())) {
        PeekResponse::Error(e) => assert_eq!(e, "first"),
        _ => panic!("expected an error"),
    }
}

#[test]
fn fast_path_prefers_literals_then_long_keys() {
    let cand = |n: u64, len: usize, lit: bool| PeekCandidate {
        id: GlobalId::User(n),
        key_len: len,
        literal: if lit { Some(vec![Datum::Int64(n as i64)]) } else { None },
    };
    assert!(choose_fast_path(vec![]).is_none());
    let best = choose_fast_path(vec![cand(1, 3, false), cand(2, 1, true), cand(3, 2, false)]).unwrap();
    assert_eq!(best.id, GlobalId::User(2));
    let best = choose_fast_path(vec![cand(1, 3, false), cand(2, 5, false), cand(3, 2, false)]).unwrap();
    assert_eq!(best.id, GlobalId::User(2));
    let best = choose_fast_path(vec![cand(1, 2, true), cand(2, 2, true)]).unwrap();
    assert_eq!(best.id, GlobalId::User(2));
}

#[test]
fn sink_creation_second_phase() {
    assert_eq!(sink_connector_ready_action(true, true), SinkReadyAction::ShipAndReport);
    assert_eq!(sink_connector_ready_action(true, false), SinkReadyAction::ReportOnly);
    assert_eq!(sink_connector_ready_action(false, true), SinkReadyAction::DropPlaceholder);
    assert_eq!(sink_connector_ready_action(false, false), SinkReadyAction::DropPlaceholder);
}

#[test]
fn durations_saturate() {
    assert_eq!(duration_to_timestamp_millis(1500), 1500);
    assert_eq!(duration_to_timestamp_millis(u64::MAX as u128), u64::MAX);
    assert_eq!(duration_to_timestamp_millis(u64::MAX as u128 + 1), u64::MAX);
    let cfg = LoggingConfig { granularity_ms: 1000, log_logging: false };
    assert_eq!(cfg.granularity_ms, 1000);
}

#[test]
fn caching_begins_only_where_enabled() {
    let id = GlobalId::User(4);
    assert_eq!(maybe_begin_caching(id, true, true), CacheAction::AddSource(id));
    assert_eq!(maybe_begin_caching(id, true, false), CacheAction::CachingDisabled(id));
    assert_eq!(maybe_begin_caching(id, false, true), CacheAction::Nothing);
}

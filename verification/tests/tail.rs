//! The tail-result validator and the determinism of the whole pass.

use expr_check::diagnostics::Diagnostic;
use expr_check::model::{
    Body, Db, Expr, Infer, Meta, Pat, Resolver, SourceMap, SrcRange, TypeData, TypeMismatch,
    VariantData,
};
use expr_check::validator::ExprValidator;

fn ranges(n: usize) -> Vec<Option<SrcRange>> {
    (0..n)
        .map(|i| {
            Some(SrcRange {
                start: i as u32 * 10,
                end: i as u32 * 10 + 5,
            })
        })
        .collect()
}

/// A function body whose outermost block has a tail expression of type
/// `actual` (type id 1), while the block was expected to have type id 0.
/// Type id 0 is `wrapper<actual, err>` when `wrapped` is set.
fn tail_db(wrapped: bool, result_enum: Option<usize>, first_param_is_actual: bool) -> (Db, Infer) {
    let body = Body {
        exprs: vec![Expr::Other, Expr::Block { tail: Some(0) }],
        pats: vec![],
        body_expr: 1,
    };
    let expected_ty = if wrapped {
        TypeData::Enum {
            enum_id: 5,
            params: if first_param_is_actual {
                vec![1, 2]
            } else {
                vec![2, 1]
            },
        }
    } else {
        TypeData::Other
    };
    let infer = Infer {
        types: vec![expected_ty, TypeData::Other, TypeData::Other],
        type_of_expr: vec![None; 2],
        type_of_pat: vec![],
        method_resolutions: vec![None; 2],
        variant_resolutions_expr: vec![None; 2],
        variant_resolutions_pat: vec![],
        type_mismatches: vec![TypeMismatch {
            expr: 1,
            expected: 0,
            actual: 1,
        }],
    };
    let db = Db {
        body,
        meta: Meta {
            variants: vec![],
            enums: vec![],
            fn_param_counts: vec![],
        },
        source_map: SourceMap {
            file: 7,
            expr_ranges: ranges(2),
            pat_ranges: ranges(0),
        },
        resolver: Resolver { result_enum },
    };
    (db, infer)
}

#[test]
fn missing_wrap_is_reported() {
    // the block expected wrapper<actual, err> but the tail has `actual`
    let (db, infer) = tail_db(true, Some(5), true);
    let mut v = ExprValidator::new(infer);
    v.validate_body(&db);
    assert_eq!(v.sink.len(), 1);
    assert!(matches!(v.sink[0], Diagnostic::MissingOkInTailExpr { .. }));
}

#[test]
fn other_expected_type_is_not_reported() {
    let (db, infer) = tail_db(false, Some(5), true);
    let mut v = ExprValidator::new(infer);
    v.validate_body(&db);
    assert_eq!(v.sink.len(), 0);
}

#[test]
fn wrong_success_parameter_is_not_reported() {
    // wrapper<err, actual>: the first parameter is not the actual type
    let (db, infer) = tail_db(true, Some(5), false);
    let mut v = ExprValidator::new(infer);
    v.validate_body(&db);
    assert_eq!(v.sink.len(), 0);
}

#[test]
fn unresolvable_wrapper_path_is_skipped() {
    // a context without the standard wrapper type reports nothing
    let (db, infer) = tail_db(true, None, true);
    let mut v = ExprValidator::new(infer);
    v.validate_body(&db);
    assert_eq!(v.sink.len(), 0);
}

#[test]
fn other_wrapper_enum_is_not_reported() {
    let (db, infer) = tail_db(true, Some(6), true);
    let mut v = ExprValidator::new(infer);
    v.validate_body(&db);
    assert_eq!(v.sink.len(), 0);
}

#[test]
fn no_mismatch_means_no_report() {
    let (db, mut infer) = tail_db(true, Some(5), true);
    infer.type_mismatches = vec![];
    let mut v = ExprValidator::new(infer);
    v.validate_body(&db);
    assert_eq!(v.sink.len(), 0);
}

#[test]
fn pass_is_idempotent() {
    // two runs on the same inputs append the identical stream twice
    let (db, infer) = tail_db(true, Some(5), true);
    let mut v = ExprValidator::new(infer);
    v.validate_body(&db);
    let first: Vec<Diagnostic> = v.sink.clone();
    v.validate_body(&db);
    assert_eq!(v.sink.len(), 2 * first.len());
    assert_eq!(&v.sink[..first.len()], &first[..]);
    assert_eq!(&v.sink[first.len()..], &first[..]);
}

#[test]
fn diagnostics_come_in_pass_order() {
    // expression nodes in order (fields before the call check), then
    // pattern nodes, and the stream is deterministic
    let body = Body {
        exprs: vec![
            Expr::RecordLit {
                fields: vec![1],
                has_spread: false,
            },
            Expr::Other,
            Expr::Call {
                callee: 1,
                args: vec![],
            },
            Expr::Block { tail: None },
        ],
        pats: vec![Pat::Record {
            variant: 0,
            fields: vec![],
            has_rest: false,
        }],
        body_expr: 3,
    };
    let mut infer = Infer {
        types: vec![TypeData::Callable { param_count: 1 }],
        type_of_expr: vec![None; 4],
        type_of_pat: vec![None; 1],
        method_resolutions: vec![None; 4],
        variant_resolutions_expr: vec![None; 4],
        variant_resolutions_pat: vec![Some(0)],
        type_mismatches: vec![],
    };
    infer.variant_resolutions_expr[0] = Some(0);
    infer.type_of_expr[1] = Some(0);
    let db = Db {
        body,
        meta: Meta {
            variants: vec![VariantData {
                fields: vec![1, 2],
                is_union: false,
            }],
            enums: vec![],
            fn_param_counts: vec![],
        },
        source_map: SourceMap {
            file: 7,
            expr_ranges: ranges(4),
            pat_ranges: ranges(1),
        },
        resolver: Resolver { result_enum: None },
    };
    let mut v = ExprValidator::new(infer);
    v.validate_body(&db);
    assert_eq!(v.sink.len(), 3);
    match &v.sink[0] {
        Diagnostic::MissingFields { missed_fields, .. } => assert_eq!(missed_fields, &vec![2]),
        other => panic!("unexpected first diagnostic {:?}", other),
    }
    assert!(matches!(
        v.sink[1],
        Diagnostic::MismatchedArgCount { expected: 1, found: 0, .. }
    ));
    match &v.sink[2] {
        Diagnostic::MissingPatFields { missed_fields, .. } => {
            assert_eq!(missed_fields, &vec![1, 2])
        }
        other => panic!("unexpected last diagnostic {:?}", other),
    }
}

#[test]
fn inconsistent_input_appends_nothing() {
    // an inference result that does not cover the body is rejected whole
    let (db, mut infer) = tail_db(true, Some(5), true);
    infer.type_of_expr = vec![None; 9];
    let mut v = ExprValidator::new(infer);
    v.validate_body(&db);
    assert_eq!(v.sink.len(), 0);
}

//! Field-completeness findings for record literals and record patterns.

use expr_check::diagnostics::Diagnostic;
use expr_check::fields::{record_literal_missing_fields, record_pattern_missing_fields};
use expr_check::model::{
    Body, Db, Expr, FieldPat, Infer, Meta, Pat, Resolver, SourceMap, SrcRange, VariantData,
};
use expr_check::validator::ExprValidator;

const NAME_X: u64 = 1;
const NAME_Y: u64 = 2;

fn ranges(n: usize) -> Vec<Option<SrcRange>> {
    (0..n)
        .map(|i| {
            Some(SrcRange {
                start: i as u32 * 10,
                end: i as u32 * 10 + 5,
            })
        })
        .collect()
}

fn infer_for(n_exprs: usize, n_pats: usize) -> Infer {
    Infer {
        types: vec![],
        type_of_expr: vec![None; n_exprs],
        type_of_pat: vec![None; n_pats],
        method_resolutions: vec![None; n_exprs],
        variant_resolutions_expr: vec![None; n_exprs],
        variant_resolutions_pat: vec![None; n_pats],
        type_mismatches: vec![],
    }
}

/// One record type with fields `{x, y}`.
fn meta_xy(is_union: bool) -> Meta {
    Meta {
        variants: vec![VariantData {
            fields: vec![NAME_X, NAME_Y],
            is_union,
        }],
        enums: vec![],
        fn_param_counts: vec![],
    }
}

fn db_for(body: Body, meta: Meta) -> Db {
    let ne = body.exprs.len();
    let np = body.pats.len();
    Db {
        body,
        meta,
        source_map: SourceMap {
            file: 7,
            expr_ranges: ranges(ne),
            pat_ranges: ranges(np),
        },
        resolver: Resolver { result_enum: None },
    }
}

/// A body that is one record literal writing the given field names.
fn literal_db(named: Vec<u64>, has_spread: bool, is_union: bool) -> (Db, Infer) {
    let body = Body {
        exprs: vec![
            Expr::RecordLit {
                fields: named,
                has_spread,
            },
            Expr::Block { tail: None },
        ],
        pats: vec![],
        body_expr: 1,
    };
    let mut infer = infer_for(2, 0);
    infer.variant_resolutions_expr[0] = Some(0);
    (db_for(body, meta_xy(is_union)), infer)
}

/// A body that is one record pattern writing the given field names.
fn pattern_db(named: Vec<u64>, has_rest: bool) -> (Db, Infer) {
    let mut fields = Vec::new();
    let mut pats = Vec::new();
    for name in named {
        fields.push(FieldPat {
            name,
            pat: pats.len(),
        });
        pats.push(Pat::Wild);
    }
    pats.push(Pat::Record {
        variant: 0,
        fields,
        has_rest,
    });
    let body = Body {
        exprs: vec![Expr::Block { tail: None }],
        pats,
        body_expr: 0,
    };
    let np = body.pats.len();
    let mut infer = infer_for(1, np);
    infer.variant_resolutions_pat[np - 1] = Some(0);
    (db_for(body, meta_xy(false)), infer)
}

#[test]
fn literal_missing_field_is_reported() {
    // record {x, y} constructed as {x: 0} without spread: y is missing
    let (db, infer) = literal_db(vec![NAME_X], false, false);
    let mut v = ExprValidator::new(infer);
    v.validate_body(&db);
    assert_eq!(v.sink.len(), 1);
    match &v.sink[0] {
        Diagnostic::MissingFields { missed_fields, .. } => {
            assert_eq!(missed_fields, &vec![NAME_Y]);
        }
        other => panic!("unexpected diagnostic {:?}", other),
    }
}

#[test]
fn literal_with_spread_is_not_reported() {
    // {x: 0, ..default} claims nothing about the remaining fields
    let (db, infer) = literal_db(vec![NAME_X], true, false);
    let mut v = ExprValidator::new(infer);
    v.validate_body(&db);
    assert_eq!(v.sink.len(), 0);
}

#[test]
fn literal_with_all_fields_is_not_reported() {
    let (db, infer) = literal_db(vec![NAME_X, NAME_Y], false, false);
    let mut v = ExprValidator::new(infer);
    v.validate_body(&db);
    assert_eq!(v.sink.len(), 0);
}

#[test]
fn union_literal_is_skipped() {
    // a union's field layout has no fixed covered set
    let (db, infer) = literal_db(vec![NAME_X], false, true);
    let mut v = ExprValidator::new(infer);
    v.validate_body(&db);
    assert_eq!(v.sink.len(), 0);
}

#[test]
fn pattern_missing_field_is_reported() {
    let (db, infer) = pattern_db(vec![NAME_X], false);
    let mut v = ExprValidator::new(infer);
    v.validate_body(&db);
    assert_eq!(v.sink.len(), 1);
    match &v.sink[0] {
        Diagnostic::MissingPatFields { missed_fields, .. } => {
            assert_eq!(missed_fields, &vec![NAME_Y]);
        }
        other => panic!("unexpected diagnostic {:?}", other),
    }
}

#[test]
fn pattern_with_rest_is_not_reported() {
    let (db, infer) = pattern_db(vec![NAME_X], true);
    let mut v = ExprValidator::new(infer);
    v.validate_body(&db);
    assert_eq!(v.sink.len(), 0);
}

#[test]
fn checker_reports_indices_in_declared_order() {
    // the raw checker: all fields missing, indices ascend
    let (db, infer) = literal_db(vec![], false, false);
    let r = record_literal_missing_fields(&db.meta, &infer, 0, &db.body.exprs[0]);
    let (variant, missing, exhaustive) = r.expect("both fields are missing");
    assert_eq!(variant, 0);
    assert_eq!(missing, vec![0usize, 1usize]);
    assert!(exhaustive);
}

#[test]
fn checker_returns_nothing_when_complete() {
    let (db, infer) = literal_db(vec![NAME_Y, NAME_X], false, false);
    let r = record_literal_missing_fields(&db.meta, &infer, 0, &db.body.exprs[0]);
    assert!(r.is_none());
}

#[test]
fn pattern_checker_keeps_rest_flag() {
    let (db, infer) = pattern_db(vec![NAME_Y], true);
    let pat_id = db.body.pats.len() - 1;
    let r = record_pattern_missing_fields(&db.meta, &infer, pat_id, &db.body.pats[pat_id]);
    let (variant, missing, exhaustive) = r.expect("x is missing");
    assert_eq!(variant, 0);
    assert_eq!(missing, vec![0usize]);
    assert!(!exhaustive);
}

#[test]
fn unresolved_variant_is_skipped() {
    let (db, mut infer) = literal_db(vec![NAME_X], false, false);
    infer.variant_resolutions_expr[0] = None;
    let mut v = ExprValidator::new(infer);
    v.validate_body(&db);
    assert_eq!(v.sink.len(), 0);
}

//! Match-exhaustiveness findings: sum types, booleans, tuples, literals,
//! references, and the abstain rules of the match validator.

use expr_check::diagnostics::Diagnostic;
use expr_check::model::{
    Body, Db, EnumData, Expr, FieldPat, Infer, MatchArm, Meta, Pat, Resolver, SourceMap, SrcRange,
    TypeData, VariantData,
};
use expr_check::validator::ExprValidator;

fn ranges(n: usize) -> Vec<Option<SrcRange>> {
    (0..n)
        .map(|i| {
            Some(SrcRange {
                start: i as u32 * 10,
                end: i as u32 * 10 + 5,
            })
        })
        .collect()
}

/// A body that is one match on expression 0 with the given arm patterns,
/// all of the subject's type (type id 0).
fn match_db(types: Vec<TypeData>, pats: Vec<Pat>, arm_pats: Vec<usize>, meta: Meta) -> (Db, Infer) {
    let arms: Vec<MatchArm> = arm_pats.iter().map(|&pat| MatchArm { pat }).collect();
    let body = Body {
        exprs: vec![
            Expr::Other,
            Expr::Match { scrutinee: 0, arms },
            Expr::Block { tail: None },
        ],
        pats,
        body_expr: 2,
    };
    let np = body.pats.len();
    let mut infer = Infer {
        types,
        type_of_expr: vec![None; 3],
        type_of_pat: vec![Some(0); np],
        method_resolutions: vec![None; 3],
        variant_resolutions_expr: vec![None; 3],
        variant_resolutions_pat: vec![None; np],
        type_mismatches: vec![],
    };
    infer.type_of_expr[0] = Some(0);
    let ne = body.exprs.len();
    let db = Db {
        body,
        meta,
        source_map: SourceMap {
            file: 7,
            expr_ranges: ranges(ne),
            pat_ranges: ranges(np),
        },
        resolver: Resolver { result_enum: None },
    };
    (db, infer)
}

/// Metadata of one sum type with two unit arms.
fn meta_two_arm_enum() -> Meta {
    Meta {
        variants: vec![],
        enums: vec![EnumData {
            variant_arities: vec![0, 0],
        }],
        fn_param_counts: vec![],
    }
}

#[test]
fn one_arm_of_two_is_reported() {
    // enum with two arms, matched with only the first arm's pattern
    let (db, infer) = match_db(
        vec![TypeData::Other],
        vec![Pat::TupleStruct {
            enum_id: 0,
            variant: 0,
            args: vec![],
        }],
        vec![0],
        meta_two_arm_enum(),
    );
    let mut v = ExprValidator::new(infer);
    v.validate_body(&db);
    assert_eq!(v.sink.len(), 1);
    assert!(matches!(v.sink[0], Diagnostic::MissingMatchArms { .. }));
}

#[test]
fn wildcard_arm_suppresses_report() {
    // the same match with a wildcard arm added is exhaustive
    let (db, infer) = match_db(
        vec![TypeData::Other],
        vec![
            Pat::TupleStruct {
                enum_id: 0,
                variant: 0,
                args: vec![],
            },
            Pat::Wild,
        ],
        vec![0, 1],
        meta_two_arm_enum(),
    );
    let mut v = ExprValidator::new(infer);
    v.validate_body(&db);
    assert_eq!(v.sink.len(), 0);
}

#[test]
fn both_arms_suppress_report() {
    let (db, infer) = match_db(
        vec![TypeData::Other],
        vec![
            Pat::TupleStruct {
                enum_id: 0,
                variant: 0,
                args: vec![],
            },
            Pat::TupleStruct {
                enum_id: 0,
                variant: 1,
                args: vec![],
            },
        ],
        vec![0, 1],
        meta_two_arm_enum(),
    );
    let mut v = ExprValidator::new(infer);
    v.validate_body(&db);
    assert_eq!(v.sink.len(), 0);
}

#[test]
fn bool_single_literal_is_reported() {
    let (db, infer) = match_db(
        vec![TypeData::Other],
        vec![Pat::BoolLit { value: true }],
        vec![0],
        meta_two_arm_enum(),
    );
    let mut v = ExprValidator::new(infer);
    v.validate_body(&db);
    assert_eq!(v.sink.len(), 1);
    assert!(matches!(v.sink[0], Diagnostic::MissingMatchArms { .. }));
}

#[test]
fn bool_both_literals_suppress_report() {
    let (db, infer) = match_db(
        vec![TypeData::Other],
        vec![
            Pat::BoolLit { value: true },
            Pat::BoolLit { value: false },
        ],
        vec![0, 1],
        meta_two_arm_enum(),
    );
    let mut v = ExprValidator::new(infer);
    v.validate_body(&db);
    assert_eq!(v.sink.len(), 0);
}

#[test]
fn int_literals_never_cover() {
    // a numeric domain is never enumerated, so literals alone leave a gap
    let (db, infer) = match_db(
        vec![TypeData::Other],
        vec![Pat::IntLit { value: 0 }, Pat::IntLit { value: 1 }],
        vec![0, 1],
        meta_two_arm_enum(),
    );
    let mut v = ExprValidator::new(infer);
    v.validate_body(&db);
    assert_eq!(v.sink.len(), 1);
    assert!(matches!(v.sink[0], Diagnostic::MissingMatchArms { .. }));
}

#[test]
fn tuple_of_wildcards_covers() {
    // (_, _) covers the single constructor of a pair type
    let (db, infer) = match_db(
        vec![TypeData::Other],
        vec![
            Pat::Wild,
            Pat::Wild,
            Pat::Tuple { args: vec![0, 1] },
        ],
        vec![2],
        meta_two_arm_enum(),
    );
    let mut v = ExprValidator::new(infer);
    v.validate_body(&db);
    assert_eq!(v.sink.len(), 0);
}

#[test]
fn tuple_with_literal_leaves_gap() {
    // (0, _) leaves every pair whose first element differs
    let (db, infer) = match_db(
        vec![TypeData::Other],
        vec![
            Pat::IntLit { value: 0 },
            Pat::Wild,
            Pat::Tuple { args: vec![0, 1] },
        ],
        vec![2],
        meta_two_arm_enum(),
    );
    let mut v = ExprValidator::new(infer);
    v.validate_body(&db);
    assert_eq!(v.sink.len(), 1);
}

#[test]
fn nested_enum_in_tuple_is_checked() {
    // matching (A, _) and (B, _) over a two-arm enum in the first slot
    let (db, infer) = match_db(
        vec![TypeData::Other],
        vec![
            Pat::TupleStruct { enum_id: 0, variant: 0, args: vec![] },
            Pat::Wild,
            Pat::Tuple { args: vec![0, 1] },
            Pat::TupleStruct { enum_id: 0, variant: 1, args: vec![] },
            Pat::Wild,
            Pat::Tuple { args: vec![3, 4] },
        ],
        vec![2, 5],
        meta_two_arm_enum(),
    );
    let mut v = ExprValidator::new(infer);
    v.validate_body(&db);
    assert_eq!(v.sink.len(), 0);

    // with only (A, _) the pair (B, _) is uncovered
    let (db, infer) = match_db(
        vec![TypeData::Other],
        vec![
            Pat::TupleStruct { enum_id: 0, variant: 0, args: vec![] },
            Pat::Wild,
            Pat::Tuple { args: vec![0, 1] },
        ],
        vec![2],
        meta_two_arm_enum(),
    );
    let mut v = ExprValidator::new(infer);
    v.validate_body(&db);
    assert_eq!(v.sink.len(), 1);
}

#[test]
fn reference_subject_accepts_by_value_arms() {
    // subject type 0 is &T where T is type 1; arm patterns are of type 1
    let (db, mut infer) = match_db(
        vec![TypeData::Ref { target: 1 }, TypeData::Other],
        vec![Pat::BoolLit { value: true }],
        vec![0],
        meta_two_arm_enum(),
    );
    infer.type_of_pat[0] = Some(1);
    let mut v = ExprValidator::new(infer);
    v.validate_body(&db);
    assert_eq!(v.sink.len(), 1);
    assert!(matches!(v.sink[0], Diagnostic::MissingMatchArms { .. }));
}

#[test]
fn mismatched_arm_type_abandons_check() {
    // one badly-typed arm silences the whole match, by design
    let (db, mut infer) = match_db(
        vec![TypeData::Other, TypeData::Other],
        vec![Pat::TupleStruct {
            enum_id: 0,
            variant: 0,
            args: vec![],
        }],
        vec![0],
        meta_two_arm_enum(),
    );
    infer.type_of_pat[0] = Some(1);
    let mut v = ExprValidator::new(infer);
    v.validate_body(&db);
    assert_eq!(v.sink.len(), 0);
}

#[test]
fn unresolved_subject_type_abandons_check() {
    let (db, mut infer) = match_db(
        vec![TypeData::Other],
        vec![Pat::TupleStruct {
            enum_id: 0,
            variant: 0,
            args: vec![],
        }],
        vec![0],
        meta_two_arm_enum(),
    );
    infer.type_of_expr[0] = None;
    let mut v = ExprValidator::new(infer);
    v.validate_body(&db);
    assert_eq!(v.sink.len(), 0);
}

#[test]
fn empty_match_on_inhabited_type_is_reported() {
    let (db, infer) = match_db(
        vec![TypeData::Other],
        vec![],
        vec![],
        meta_two_arm_enum(),
    );
    let mut v = ExprValidator::new(infer);
    v.validate_body(&db);
    assert_eq!(v.sink.len(), 1);
    assert!(matches!(v.sink[0], Diagnostic::MissingMatchArms { .. }));
}

#[test]
fn record_pattern_of_wildcards_covers() {
    // Point { x: _, y: _ } covers the single constructor of a record type
    let meta = Meta {
        variants: vec![VariantData {
            fields: vec![1, 2],
            is_union: false,
        }],
        enums: vec![],
        fn_param_counts: vec![],
    };
    let (db, infer) = match_db(
        vec![TypeData::Other],
        vec![
            Pat::Wild,
            Pat::Wild,
            Pat::Record {
                variant: 0,
                fields: vec![
                    FieldPat { name: 1, pat: 0 },
                    FieldPat { name: 2, pat: 1 },
                ],
                has_rest: false,
            },
        ],
        vec![2],
        meta,
    );
    let mut v = ExprValidator::new(infer);
    v.validate_body(&db);
    assert_eq!(v.sink.len(), 0);
}

#[test]
fn record_pattern_with_literal_field_leaves_gap() {
    // Point { x: 0, .. } leaves every point whose x differs
    let meta = Meta {
        variants: vec![VariantData {
            fields: vec![1, 2],
            is_union: false,
        }],
        enums: vec![],
        fn_param_counts: vec![],
    };
    let (db, infer) = match_db(
        vec![TypeData::Other],
        vec![
            Pat::IntLit { value: 0 },
            Pat::Record {
                variant: 0,
                fields: vec![FieldPat { name: 1, pat: 0 }],
                has_rest: true,
            },
        ],
        vec![1],
        meta,
    );
    let mut v = ExprValidator::new(infer);
    v.validate_body(&db);
    assert_eq!(v.sink.len(), 1);
    assert!(matches!(v.sink[0], Diagnostic::MissingMatchArms { .. }));
}

#[test]
fn string_literals_never_cover() {
    let (db, infer) = match_db(
        vec![TypeData::Other],
        vec![Pat::StrLit { value: 11 }, Pat::StrLit { value: 12 }],
        vec![0, 1],
        meta_two_arm_enum(),
    );
    let mut v = ExprValidator::new(infer);
    v.validate_body(&db);
    assert_eq!(v.sink.len(), 1);
}

#[test]
fn enum_with_payload_needs_covered_payload() {
    // enum E { A(bool), B }: arms A(true), B leave A(false) uncovered;
    // adding A(false) closes the match
    let meta = Meta {
        variants: vec![],
        enums: vec![EnumData {
            variant_arities: vec![1, 0],
        }],
        fn_param_counts: vec![],
    };
    let (db, infer) = match_db(
        vec![TypeData::Other],
        vec![
            Pat::BoolLit { value: true },
            Pat::TupleStruct { enum_id: 0, variant: 0, args: vec![0] },
            Pat::TupleStruct { enum_id: 0, variant: 1, args: vec![] },
        ],
        vec![1, 2],
        meta,
    );
    let mut v = ExprValidator::new(infer);
    v.validate_body(&db);
    assert_eq!(v.sink.len(), 1);

    let meta = Meta {
        variants: vec![],
        enums: vec![EnumData {
            variant_arities: vec![1, 0],
        }],
        fn_param_counts: vec![],
    };
    let (db, infer) = match_db(
        vec![TypeData::Other],
        vec![
            Pat::BoolLit { value: true },
            Pat::TupleStruct { enum_id: 0, variant: 0, args: vec![0] },
            Pat::BoolLit { value: false },
            Pat::TupleStruct { enum_id: 0, variant: 0, args: vec![2] },
            Pat::TupleStruct { enum_id: 0, variant: 1, args: vec![] },
        ],
        vec![1, 3, 4],
        meta,
    );
    let mut v = ExprValidator::new(infer);
    v.validate_body(&db);
    assert_eq!(v.sink.len(), 0);
}

#[test]
fn match_without_source_range_is_not_reported() {
    let (mut db, infer) = match_db(
        vec![TypeData::Other],
        vec![Pat::TupleStruct {
            enum_id: 0,
            variant: 0,
            args: vec![],
        }],
        vec![0],
        meta_two_arm_enum(),
    );
    db.source_map.expr_ranges[1] = None;
    let mut v = ExprValidator::new(infer);
    v.validate_body(&db);
    assert_eq!(v.sink.len(), 0);
}

#[test]
fn reference_pattern_covers_through_ref() {
    // &_ covers the single constructor of a reference type
    let (db, infer) = match_db(
        vec![TypeData::Other],
        vec![Pat::Wild, Pat::Ref { pat: 0 }],
        vec![1],
        meta_two_arm_enum(),
    );
    let mut v = ExprValidator::new(infer);
    v.validate_body(&db);
    assert_eq!(v.sink.len(), 0);
}

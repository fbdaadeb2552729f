//! Call-arity findings, on bodies lowered by hand: free calls, path calls
//! to methods, method-call syntax, tuple-struct and sum-type-arm
//! constructors.

use expr_check::diagnostics::Diagnostic;
use expr_check::model::{
    Body, Db, Expr, Infer, Meta, Resolver, SourceMap, SrcRange, TypeData,
};
use expr_check::validator::ExprValidator;

fn ranges(n: usize) -> Vec<Option<SrcRange>> {
    (0..n)
        .map(|i| {
            Some(SrcRange {
                start: i as u32 * 10,
                end: i as u32 * 10 + 5,
            })
        })
        .collect()
}

fn infer_for(n_exprs: usize, n_pats: usize, types: Vec<TypeData>) -> Infer {
    Infer {
        types,
        type_of_expr: vec![None; n_exprs],
        type_of_pat: vec![None; n_pats],
        method_resolutions: vec![None; n_exprs],
        variant_resolutions_expr: vec![None; n_exprs],
        variant_resolutions_pat: vec![None; n_pats],
        type_mismatches: vec![],
    }
}

fn db_for(body: Body, meta: Meta) -> Db {
    let ne = body.exprs.len();
    let np = body.pats.len();
    Db {
        body,
        meta,
        source_map: SourceMap {
            file: 7,
            expr_ranges: ranges(ne),
            pat_ranges: ranges(np),
        },
        resolver: Resolver { result_enum: None },
    }
}

fn meta_empty() -> Meta {
    Meta {
        variants: vec![],
        enums: vec![],
        fn_param_counts: vec![],
    }
}

/// A body that is one free call with `n_args` arguments to a callee whose
/// type declares `n_params` parameters.
fn call_db(n_params: usize, n_args: usize) -> (Db, Infer) {
    let mut exprs = vec![Expr::Other];
    let mut args = Vec::new();
    for _ in 0..n_args {
        args.push(exprs.len());
        exprs.push(Expr::Other);
    }
    exprs.push(Expr::Call { callee: 0, args });
    exprs.push(Expr::Block { tail: None });
    let n = exprs.len();
    let body = Body {
        exprs,
        pats: vec![],
        body_expr: n - 1,
    };
    let mut infer = infer_for(n, 0, vec![TypeData::Callable {
        param_count: n_params,
    }]);
    infer.type_of_expr[0] = Some(0);
    (db_for(body, meta_empty()), infer)
}

/// A body that is one method call with `n_args` visible arguments to a
/// resolved method of `n_params` declared parameters, the receiver
/// included.
fn method_call_db(n_params: usize, n_args: usize) -> (Db, Infer) {
    let mut exprs = vec![Expr::Other];
    let mut args = Vec::new();
    for _ in 0..n_args {
        args.push(exprs.len());
        exprs.push(Expr::Other);
    }
    let call_id = exprs.len();
    exprs.push(Expr::MethodCall { receiver: 0, args });
    exprs.push(Expr::Block { tail: None });
    let n = exprs.len();
    let body = Body {
        exprs,
        pats: vec![],
        body_expr: n - 1,
    };
    let mut infer = infer_for(n, 0, vec![]);
    infer.method_resolutions[call_id] = Some(0);
    let meta = Meta {
        variants: vec![],
        enums: vec![],
        fn_param_counts: vec![n_params],
    };
    (db_for(body, meta), infer)
}

#[test]
fn simple_free_fn_zero() {
    // fn zero() {}  fn f() { zero(1); }
    let (db, infer) = call_db(0, 1);
    let mut v = ExprValidator::new(infer);
    v.validate_body(&db);
    assert_eq!(v.sink.len(), 1);
    assert!(matches!(
        v.sink[0],
        Diagnostic::MismatchedArgCount { expected: 0, found: 1, .. }
    ));

    // fn zero() {}  fn f() { zero(); }
    let (db, infer) = call_db(0, 0);
    let mut v = ExprValidator::new(infer);
    v.validate_body(&db);
    assert_eq!(v.sink.len(), 0);
}

#[test]
fn simple_free_fn_one() {
    // fn one(arg: u8) {}  fn f() { one(); }
    let (db, infer) = call_db(1, 0);
    let mut v = ExprValidator::new(infer);
    v.validate_body(&db);
    assert_eq!(v.sink.len(), 1);
    assert!(matches!(
        v.sink[0],
        Diagnostic::MismatchedArgCount { expected: 1, found: 0, .. }
    ));

    // fn one(arg: u8) {}  fn f() { one(1); }
    let (db, infer) = call_db(1, 1);
    let mut v = ExprValidator::new(infer);
    v.validate_body(&db);
    assert_eq!(v.sink.len(), 0);
}

#[test]
fn method_as_fn() {
    // struct S; impl S { fn method(&self) {} }  fn f() { S::method(); }
    // path-call syntax: a free call whose callee declares one parameter
    let (db, infer) = call_db(1, 0);
    let mut v = ExprValidator::new(infer);
    v.validate_body(&db);
    assert_eq!(v.sink.len(), 1);
    assert!(matches!(
        v.sink[0],
        Diagnostic::MismatchedArgCount { expected: 1, found: 0, .. }
    ));

    // fn f() { S::method(&S); S.method(); }
    let (db, infer) = call_db(1, 1);
    let mut v = ExprValidator::new(infer);
    v.validate_body(&db);
    assert_eq!(v.sink.len(), 0);
    let (db, infer) = method_call_db(1, 0);
    let mut v = ExprValidator::new(infer);
    v.validate_body(&db);
    assert_eq!(v.sink.len(), 0);
}

#[test]
fn method_with_arg() {
    // impl S { fn method(&self, arg: u8) {} }  fn f() { S.method(); }
    let (db, infer) = method_call_db(2, 0);
    let mut v = ExprValidator::new(infer);
    v.validate_body(&db);
    assert_eq!(v.sink.len(), 1);
    assert!(matches!(
        v.sink[0],
        Diagnostic::MismatchedArgCount { expected: 1, found: 0, .. }
    ));

    // fn f() { S::method(&S, 0); S.method(1); }
    let (db, infer) = call_db(2, 2);
    let mut v = ExprValidator::new(infer);
    v.validate_body(&db);
    assert_eq!(v.sink.len(), 0);
    let (db, infer) = method_call_db(2, 1);
    let mut v = ExprValidator::new(infer);
    v.validate_body(&db);
    assert_eq!(v.sink.len(), 0);
}

#[test]
fn tuple_struct() {
    // struct Tup(u8, u16);  fn f() { Tup(0); }
    // a tuple-struct invocation is a call to its constructor's fn type
    let (db, infer) = call_db(2, 1);
    let mut v = ExprValidator::new(infer);
    v.validate_body(&db);
    assert_eq!(v.sink.len(), 1);
    assert!(matches!(
        v.sink[0],
        Diagnostic::MismatchedArgCount { expected: 2, found: 1, .. }
    ));
}

#[test]
fn enum_variant() {
    // enum En { Variant(u8, u16) }  fn f() { En::Variant(0); }
    let (db, infer) = call_db(2, 1);
    let mut v = ExprValidator::new(infer);
    v.validate_body(&db);
    assert_eq!(v.sink.len(), 1);
    assert!(matches!(
        v.sink[0],
        Diagnostic::MismatchedArgCount { expected: 2, found: 1, .. }
    ));
}

#[test]
fn arity_checker_abstains_on_type_mismatch() {
    // a recorded mismatch anywhere in the function silences the checker
    let (db, mut infer) = call_db(0, 1);
    infer.type_mismatches = vec![expr_check::model::TypeMismatch {
        expr: 1,
        expected: 0,
        actual: 0,
    }];
    let mut v = ExprValidator::new(infer);
    v.validate_body(&db);
    assert_eq!(v.sink.len(), 0);
}

#[test]
fn arity_checker_abstains_without_source_range() {
    let (mut db, infer) = call_db(0, 1);
    let call_id = db.body.exprs.len() - 2;
    db.source_map.expr_ranges[call_id] = None;
    let mut v = ExprValidator::new(infer);
    v.validate_body(&db);
    assert_eq!(v.sink.len(), 0);
}

#[test]
fn arity_checker_abstains_on_uncallable_callee() {
    let (db, mut infer) = call_db(0, 1);
    infer.types[0] = TypeData::Other;
    let mut v = ExprValidator::new(infer);
    v.validate_body(&db);
    assert_eq!(v.sink.len(), 0);
}

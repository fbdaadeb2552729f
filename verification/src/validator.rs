//! The body validator: walks every expression and pattern node of one
//! function body, dispatches to the checkers, and appends each finding to
//! the diagnostic sink. The whole pass is a pure function of the body,
//! the inference result and the metadata; its exact output is stated by
//! `validate_output`.

use crate::diagnostics::{diags_view, lemma_diags_view_push, Diagnostic, SpecDiag};
use crate::fields::{
    lemma_missing_field_indices, record_literal_missing_fields, record_pattern_missing_fields,
    spec_record_literal_missing_fields, spec_record_pattern_missing_fields,
};
use crate::model::{
    expr_wf, opt_lt, valid_input, Db, Expr, Infer, MatchArm, Meta, Pat, TypeData, TypeMismatch,
};
use crate::usefulness::{is_useful, useful, useful_wf, Matrix, PatIdOrWild};
use vstd::prelude::*;

verus! {

// ---------------------------------------------------------------------
// What each checker reports, stated mathematically, node by node.
// ---------------------------------------------------------------------

/// The field names, in declaration order, of the missing field indices of
/// one variant.
pub open spec fn missing_names(meta: Meta, variant: usize, missing: Seq<usize>) -> Seq<u64> {
    missing.map_values(|idx: usize| meta.variants@[variant as int].fields@[idx as int])
}

/// What the field-completeness checker reports for the expression node
/// `i`: one missing-fields finding when the node is a record literal
/// without spread whose resolved variant has unnamed fields and the node
/// maps to a source range; nothing otherwise.
pub open spec fn lit_fields_diag(db: Db, infer: Infer, i: int) -> Seq<SpecDiag> {
    match spec_record_literal_missing_fields(db.meta, infer, i, db.body.exprs@[i]) {
        Some((variant, missing, exhaustive)) => if exhaustive {
            match db.source_map.expr_ranges@[i] {
                Some(range) => seq![
                    SpecDiag::MissingFields {
                        file: db.source_map.file,
                        range,
                        missed_fields: missing_names(db.meta, variant, missing),
                    },
                ],
                None => Seq::empty(),
            }
        } else {
            Seq::empty()
        },
        None => Seq::empty(),
    }
}

/// The pattern-side twin of `lit_fields_diag`, for the pattern node `i`.
pub open spec fn pat_fields_diag(db: Db, infer: Infer, i: int) -> Seq<SpecDiag> {
    match spec_record_pattern_missing_fields(db.meta, infer, i, db.body.pats@[i]) {
        Some((variant, missing, exhaustive)) => if exhaustive {
            match db.source_map.pat_ranges@[i] {
                Some(range) => seq![
                    SpecDiag::MissingPatFields {
                        file: db.source_map.file,
                        range,
                        missed_fields: missing_names(db.meta, variant, missing),
                    },
                ],
                None => Seq::empty(),
            }
        } else {
            Seq::empty()
        },
        None => Seq::empty(),
    }
}

/// One mismatched-argument-count finding, with the receiver subtracted
/// from both counts for method calls so the numbers match the source.
pub open spec fn arg_count_diag(
    db: Db,
    i: int,
    param_count: int,
    arg_count: int,
    is_method: bool,
) -> Seq<SpecDiag> {
    if is_method && param_count == 0 {
        Seq::empty()
    } else if arg_count != param_count {
        match db.source_map.expr_ranges@[i] {
            Some(range) => seq![
                SpecDiag::MismatchedArgCount {
                    file: db.source_map.file,
                    range,
                    expected: if is_method {
                        (param_count - 1) as usize
                    } else {
                        param_count as usize
                    },
                    found: if is_method {
                        (arg_count - 1) as usize
                    } else {
                        arg_count as usize
                    },
                },
            ],
            None => Seq::empty(),
        }
    } else {
        Seq::empty()
    }
}

/// What the call-arity checker reports for the expression node `i`. The
/// checker abstains for the whole function when any type mismatch was
/// recorded, when the callee's type is not callable, or when a method
/// call has no resolved target.
pub open spec fn call_diag(db: Db, infer: Infer, i: int) -> Seq<SpecDiag> {
    if infer.type_mismatches@.len() > 0 {
        Seq::empty()
    } else {
        match db.body.exprs@[i] {
            Expr::Call { callee, args } => match infer.type_of_expr@[callee as int] {
                Some(ty) => match infer.types@[ty as int] {
                    TypeData::Callable { param_count } => arg_count_diag(
                        db,
                        i,
                        param_count as int,
                        args@.len() as int,
                        false,
                    ),
                    _ => Seq::empty(),
                },
                None => Seq::empty(),
            },
            Expr::MethodCall { args, .. } => match infer.method_resolutions@[i] {
                Some(f) => arg_count_diag(
                    db,
                    i,
                    db.meta.fn_param_counts@[f as int] as int,
                    args@.len() as int + 1,
                    true,
                ),
                None => Seq::empty(),
            },
            _ => Seq::empty(),
        }
    }
}

/// Whether one arm pattern's resolved type equals the subject's type,
/// allowing one stripped reference layer on the subject.
pub open spec fn pat_ty_ok(infer: Infer, pat: usize, subject_ty: int) -> bool {
    match infer.type_of_pat@[pat as int] {
        Some(pt) => (pt as int) == subject_ty || (match infer.types@[subject_ty] {
            TypeData::Ref { target } => target == pt,
            _ => false,
        }),
        None => false,
    }
}

pub open spec fn arms_all_well_typed(infer: Infer, arms: Seq<MatchArm>, subject_ty: int) -> bool {
    forall|k: int| 0 <= k < arms.len() ==> pat_ty_ok(infer, (#[trigger] arms[k]).pat, subject_ty)
}

/// The pattern matrix of a match expression: one single-column row per
/// arm, in arm order.
pub open spec fn arm_matrix(arms: Seq<MatchArm>) -> Seq<Seq<PatIdOrWild>> {
    arms.map_values(|a: MatchArm| seq![PatIdOrWild::PatId(a.pat)])
}

/// What the match validator reports for the expression node `i`: one
/// missing-match-arms finding exactly when the subject's type resolved,
/// every arm pattern's type equals it (after reference stripping), the
/// usefulness engine finds a wildcard useful against the arm matrix, and
/// the node maps to a source range.
pub open spec fn match_diag(db: Db, infer: Infer, i: int) -> Seq<SpecDiag> {
    match db.body.exprs@[i] {
        Expr::Match { scrutinee, arms } => match infer.type_of_expr@[scrutinee as int] {
            Some(subject_ty) => if arms_all_well_typed(infer, arms@, subject_ty as int) {
                if useful(db.body.pats@, db.meta, arm_matrix(arms@), seq![PatIdOrWild::Wild]) {
                    match db.source_map.expr_ranges@[i] {
                        Some(range) => seq![
                            SpecDiag::MissingMatchArms { file: db.source_map.file, range },
                        ],
                        None => Seq::empty(),
                    }
                } else {
                    Seq::empty()
                }
            } else {
                Seq::empty()
            },
            None => Seq::empty(),
        },
        _ => Seq::empty(),
    }
}

/// The first recorded type mismatch sitting on the expression `e`.
pub open spec fn first_mismatch_at(mismatches: Seq<TypeMismatch>, e: int) -> Option<TypeMismatch>
    decreases mismatches.len(),
{
    if mismatches.len() == 0 {
        None
    } else if (mismatches[0].expr as int) == e {
        Some(mismatches[0])
    } else {
        first_mismatch_at(mismatches.drop_first(), e)
    }
}

/// What the tail-result validator reports: one missing-success-wrap
/// finding when the function's outermost block carries a type mismatch
/// whose expected type is the resolved success/error wrapper applied to
/// two parameters, the first being the actual type, and the tail maps to
/// a source range.
pub open spec fn tail_diag(db: Db, infer: Infer) -> Seq<SpecDiag> {
    match db.body.exprs@[db.body.body_expr as int] {
        Expr::Block { tail: Some(t) } => match first_mismatch_at(
            infer.type_mismatches@,
            db.body.body_expr as int,
        ) {
            Some(mm) => match db.resolver.result_enum {
                Some(re) => match infer.types@[mm.expected as int] {
                    TypeData::Enum { enum_id, params } => if enum_id == re && params@.len() == 2
                        && params@[0] == mm.actual {
                        match db.source_map.expr_ranges@[t as int] {
                            Some(range) => seq![
                                SpecDiag::MissingOkInTailExpr { file: db.source_map.file, range },
                            ],
                            None => Seq::empty(),
                        }
                    } else {
                        Seq::empty()
                    },
                    _ => Seq::empty(),
                },
                None => Seq::empty(),
            },
            None => Seq::empty(),
        },
        _ => Seq::empty(),
    }
}

/// Everything reported for the expression node `i`: the record-literal
/// field check first, then the match or call check by node shape.
pub open spec fn expr_diags(db: Db, infer: Infer, i: int) -> Seq<SpecDiag> {
    lit_fields_diag(db, infer, i) + (match db.body.exprs@[i] {
        Expr::Match { .. } => match_diag(db, infer, i),
        Expr::Call { .. } => call_diag(db, infer, i),
        Expr::MethodCall { .. } => call_diag(db, infer, i),
        _ => Seq::empty(),
    })
}

pub open spec fn exprs_diags_upto(db: Db, infer: Infer, n: int) -> Seq<SpecDiag>
    decreases n,
{
    if n <= 0 {
        Seq::empty()
    } else {
        exprs_diags_upto(db, infer, n - 1) + expr_diags(db, infer, n - 1)
    }
}

pub open spec fn pats_diags_upto(db: Db, infer: Infer, n: int) -> Seq<SpecDiag>
    decreases n,
{
    if n <= 0 {
        Seq::empty()
    } else {
        pats_diags_upto(db, infer, n - 1) + pat_fields_diag(db, infer, n - 1)
    }
}

/// The whole pass: every expression node in declaration order, then every
/// pattern node, then the tail-result check.
pub open spec fn body_diags(db: Db, infer: Infer) -> Seq<SpecDiag> {
    exprs_diags_upto(db, infer, db.body.exprs@.len() as int) + pats_diags_upto(
        db,
        infer,
        db.body.pats@.len() as int,
    ) + tail_diag(db, infer)
}

/// What one run of the validator appends to its sink: the full diagnostic
/// stream on well-formed inputs, nothing otherwise. The stream is a pure
/// function of the inputs, so a second run on the same inputs appends the
/// identical stream.
pub open spec fn validate_output(db: Db, infer: Infer) -> Seq<SpecDiag> {
    if valid_input(db, infer) {
        body_diags(db, infer)
    } else {
        Seq::empty()
    }
}

// ---------------------------------------------------------------------
// The validator.
// ---------------------------------------------------------------------

/// Walks one function body and collects the diagnostics of all four
/// checkers into its sink.
pub struct ExprValidator {
    pub infer: Infer,
    pub sink: Vec<Diagnostic>,
}

impl ExprValidator {
    pub fn new(infer: Infer) -> (r: ExprValidator)
        ensures
            r.infer == infer,
            r.sink@.len() == 0,
    {
        ExprValidator { infer, sink: Vec::new() }
    }

    /// Builds the missing-field names and appends the finding for a
    /// record literal, when the node has a source range.
    fn push_fields_diag(
        &mut self,
        db: &Db,
        id: usize,
        variant: usize,
        missing: &Vec<usize>,
        is_pat: bool,
    )
        requires
            valid_input(*db, old(self).infer),
            (variant as int) < db.meta.variants@.len(),
            forall|k: int| 0 <= k < missing@.len() ==> (#[trigger] missing@[k] as int)
                < db.meta.variants@[variant as int].fields@.len(),
            !is_pat ==> (id as int) < db.source_map.expr_ranges@.len(),
            is_pat ==> (id as int) < db.source_map.pat_ranges@.len(),
        ensures
            final(self).infer == old(self).infer,
            diags_view(final(self).sink@) == diags_view(old(self).sink@) + (
            match (if is_pat {
                db.source_map.pat_ranges@[id as int]
            } else {
                db.source_map.expr_ranges@[id as int]
            }) {
                Some(range) => seq![
                    (if is_pat {
                        SpecDiag::MissingPatFields {
                            file: db.source_map.file,
                            range,
                            missed_fields: missing_names(db.meta, variant, missing@),
                        }
                    } else {
                        SpecDiag::MissingFields {
                            file: db.source_map.file,
                            range,
                            missed_fields: missing_names(db.meta, variant, missing@),
                        }
                    }),
                ],
                None => Seq::<SpecDiag>::empty(),
            }),
    {
        let range_opt = if is_pat {
            db.source_map.pat_ranges[id]
        } else {
            db.source_map.expr_ranges[id]
        };
        match range_opt {
            Some(range) => {
                let fields = &db.meta.variants[variant].fields;
                let mut names: Vec<u64> = Vec::new();
                let mut k: usize = 0;
                while k < missing.len()
                    invariant
                        k <= missing.len(),
                        (variant as int) < db.meta.variants@.len(),
                        fields@ == db.meta.variants@[variant as int].fields@,
                        forall|k2: int| 0 <= k2 < missing@.len() ==> (#[trigger] missing@[k2] as int)
                            < fields@.len(),
                        names@ == missing_names(db.meta, variant, missing@.take(k as int)),
                    decreases missing.len() - k,
                {
                    names.push(fields[missing[k]]);
                    proof {
                        assert(missing_names(db.meta, variant, missing@.take(k as int + 1))
                            =~= missing_names(db.meta, variant, missing@.take(k as int)).push(
                            db.meta.variants@[variant as int].fields@[missing@[k as int] as int],
                        ));
                    }
                    k += 1;
                }
                proof {
                    assert(missing@.take(missing@.len() as int) =~= missing@);
                }
                let d = if is_pat {
                    Diagnostic::MissingPatFields {
                        file: db.source_map.file,
                        range,
                        missed_fields: names,
                    }
                } else {
                    Diagnostic::MissingFields {
                        file: db.source_map.file,
                        range,
                        missed_fields: names,
                    }
                };
                proof {
                    lemma_diags_view_push(self.sink@, d);
                }
                self.sink.push(d);
            },
            None => {
                proof {
                    assert(diags_view(self.sink@) + Seq::<SpecDiag>::empty() =~= diags_view(
                        self.sink@,
                    ));
                }
            },
        }
    }

    /// The call-arity checker for one call or method-call node.
    fn validate_call(&mut self, db: &Db, id: usize)
        requires
            valid_input(*db, old(self).infer),
            (id as int) < db.body.exprs@.len(),
        ensures
            final(self).infer == old(self).infer,
            diags_view(final(self).sink@) == diags_view(old(self).sink@) + call_diag(
                *db,
                old(self).infer,
                id as int,
            ),
    {
        let ghost pre = diags_view(self.sink@);
        proof {
            assert(pre + Seq::<SpecDiag>::empty() =~= pre);
        }
        if self.infer.type_mismatches.len() > 0 {
            return ;
        }
        proof {
            assert(expr_wf(db.body.exprs@[id as int], db.body));
        }
        let (param_count, arg_count): (usize, usize) = match &db.body.exprs[id] {
            Expr::Call { callee, args } => {
                proof {
                    assert(opt_lt(
                        self.infer.type_of_expr@[*callee as int],
                        self.infer.types@.len() as int,
                    ));
                }
                let ty = match self.infer.type_of_expr[*callee] {
                    Some(t) => t,
                    None => { return ; },
                };
                match &self.infer.types[ty] {
                    TypeData::Callable { param_count } => (*param_count, args.len()),
                    _ => { return ; },
                }
            },
            Expr::MethodCall { args, .. } => {
                proof {
                    assert(opt_lt(
                        self.infer.method_resolutions@[id as int],
                        db.meta.fn_param_counts@.len() as int,
                    ));
                }
                let f = match self.infer.method_resolutions[id] {
                    Some(f) => f,
                    None => { return ; },
                };
                let pc = db.meta.fn_param_counts[f];
                if pc == 0 {
                    // subtracting the implicit receiver would underflow:
                    // the resolution is inconsistent, so abstain
                    return ;
                }
                // count the receiver as both a parameter and an argument
                // by comparing the visible counts directly
                if args.len() != pc - 1 {
                    match db.source_map.expr_ranges[id] {
                        Some(range) => {
                            let d = Diagnostic::MismatchedArgCount {
                                file: db.source_map.file,
                                range,
                                expected: pc - 1,
                                found: args.len(),
                            };
                            proof {
                                lemma_diags_view_push(self.sink@, d);
                            }
                            self.sink.push(d);
                        },
                        None => {},
                    }
                }
                return ;
            },
            _ => { return ; },
        };
        if arg_count != param_count {
            match db.source_map.expr_ranges[id] {
                Some(range) => {
                    let d = Diagnostic::MismatchedArgCount {
                        file: db.source_map.file,
                        range,
                        expected: param_count,
                        found: arg_count,
                    };
                    proof {
                        lemma_diags_view_push(self.sink@, d);
                    }
                    self.sink.push(d);
                },
                None => {},
            }
        }
    }

    /// The match validator for one match node: checks the arm types,
    /// builds the pattern matrix, and asks the usefulness engine whether
    /// a wildcard is still useful.
    fn validate_match(&mut self, db: &Db, id: usize)
        requires
            valid_input(*db, old(self).infer),
            (id as int) < db.body.exprs@.len(),
        ensures
            final(self).infer == old(self).infer,
            diags_view(final(self).sink@) == diags_view(old(self).sink@) + match_diag(
                *db,
                old(self).infer,
                id as int,
            ),
    {
        let ghost pre = diags_view(self.sink@);
        proof {
            assert(pre + Seq::<SpecDiag>::empty() =~= pre);
            assert(expr_wf(db.body.exprs@[id as int], db.body));
        }
        match &db.body.exprs[id] {
            Expr::Match { scrutinee, arms } => {
                proof {
                    assert(opt_lt(
                        self.infer.type_of_expr@[*scrutinee as int],
                        self.infer.types@.len() as int,
                    ));
                }
                let subject_ty = match self.infer.type_of_expr[*scrutinee] {
                    Some(t) => t,
                    None => { return ; },
                };
                let mut matrix = Matrix { rows: Vec::new() };
                let mut k: usize = 0;
                proof {
                    assert(arm_matrix(arms@.take(0)) =~= Seq::<Seq<PatIdOrWild>>::empty());
                }
                while k < arms.len()
                    invariant
                        k <= arms.len(),
                        self.infer == old(self).infer,
                        self.sink@ == old(self).sink@,
                        valid_input(*db, self.infer),
                        (id as int) < db.body.exprs@.len(),
                        db.body.exprs@[id as int] matches Expr::Match { scrutinee: s2, arms: a2 }
                            && a2@ == arms@ && (s2 as int) < db.body.exprs@.len()
                            && self.infer.type_of_expr@[s2 as int] == Some(subject_ty),
                        (subject_ty as int) < self.infer.types@.len(),
                        forall|k2: int| 0 <= k2 < k ==> pat_ty_ok(
                            self.infer,
                            (#[trigger] arms@[k2]).pat,
                            subject_ty as int,
                        ),
                        matrix.view_rows() == arm_matrix(arms@.take(k as int)),
                    decreases arms.len() - k,
                {
                    let p = arms[k].pat;
                    proof {
                        assert(expr_wf(db.body.exprs@[id as int], db.body));
                        assert((arms@[k as int].pat as int) < db.body.pats@.len());
                        assert(opt_lt(
                            self.infer.type_of_pat@[p as int],
                            self.infer.types@.len() as int,
                        ));
                    }
                    let ok: bool = match self.infer.type_of_pat[p] {
                        Some(pt) => {
                            if pt == subject_ty {
                                true
                            } else {
                                match &self.infer.types[subject_ty] {
                                    TypeData::Ref { target } => *target == pt,
                                    _ => false,
                                }
                            }
                        },
                        None => false,
                    };
                    if !ok {
                        proof {
                            assert(!pat_ty_ok(self.infer, arms@[k as int].pat, subject_ty as int));
                            assert(!arms_all_well_typed(self.infer, arms@, subject_ty as int));
                        }
                        return ;
                    }
                    let mut row: Vec<PatIdOrWild> = Vec::new();
                    row.push(PatIdOrWild::PatId(p));
                    let ghost rows_before = matrix.view_rows();
                    matrix.rows.push(row);
                    proof {
                        assert(matrix.view_rows() =~= rows_before.push(
                            seq![PatIdOrWild::PatId(arms@[k as int].pat)],
                        ));
                        assert(arm_matrix(arms@.take(k as int + 1)) =~= arm_matrix(
                            arms@.take(k as int),
                        ).push(seq![PatIdOrWild::PatId(arms@[k as int].pat)]));
                    }
                    k += 1;
                }
                proof {
                    assert(arms@.take(arms@.len() as int) =~= arms@);
                    assert(arms_all_well_typed(self.infer, arms@, subject_ty as int));
                }
                let mut wildq: Vec<PatIdOrWild> = Vec::new();
                wildq.push(PatIdOrWild::Wild);
                proof {
                    assert(wildq@ =~= seq![PatIdOrWild::Wild]);
                    assert(expr_wf(db.body.exprs@[id as int], db.body));
                    assert forall|i: int| 0 <= i < matrix.view_rows().len() implies (
                    #[trigger] matrix.view_rows()[i]).len() == wildq@.len() && crate::usefulness::stack_wf(
                        db.body.pats@,
                        matrix.view_rows()[i],
                    ) by {
                        assert(matrix.view_rows()[i] == arm_matrix(arms@)[i]);
                        assert(arm_matrix(arms@)[i] == seq![PatIdOrWild::PatId(arms@[i].pat)]);
                        assert((arms@[i].pat as int) < db.body.pats@.len());
                    }
                    assert(useful_wf(db.body.pats@, db.meta, matrix.view_rows(), wildq@));
                }
                if is_useful(&db.body.pats, &db.meta, &matrix, &wildq) {
                    match db.source_map.expr_ranges[id] {
                        Some(range) => {
                            let d = Diagnostic::MissingMatchArms {
                                file: db.source_map.file,
                                range,
                            };
                            proof {
                                lemma_diags_view_push(self.sink@, d);
                            }
                            self.sink.push(d);
                        },
                        None => {},
                    }
                }
            },
            _ => {},
        }
    }

    /// Walks the whole body: every expression node in declaration order
    /// (record-literal fields first, then the match or call check), then
    /// every pattern node, then the tail-result check. On inconsistent
    /// input the pass abstains as a whole and appends nothing.
    pub fn validate_body(&mut self, db: &Db)
        ensures
            final(self).infer == old(self).infer,
            diags_view(final(self).sink@) == diags_view(old(self).sink@) + validate_output(
                *db,
                old(self).infer,
            ),
    {
        let ghost pre = diags_view(self.sink@);
        proof {
            assert(pre + Seq::<SpecDiag>::empty() =~= pre);
        }
        if !crate::model::check_valid(db, &self.infer) {
            return ;
        }
        let n = db.body.exprs.len();
        let mut i: usize = 0;
        while i < n
            invariant
                i <= n,
                n == db.body.exprs@.len(),
                self.infer == old(self).infer,
                valid_input(*db, self.infer),
                diags_view(self.sink@) == diags_view(old(self).sink@) + exprs_diags_upto(
                    *db,
                    self.infer,
                    i as int,
                ),
            decreases n - i,
        {
            let ghost before = diags_view(self.sink@);
            match record_literal_missing_fields(&db.meta, &self.infer, i, &db.body.exprs[i]) {
                Some((variant, missing, exhaustive)) => {
                    if exhaustive {
                        proof {
                            assert((variant as int) < db.meta.variants@.len());
                            let fv = db.meta.variants@[variant as int].fields;
                            assert(fv@.len() == fv.len());
                            lemma_missing_field_indices(
                                db.meta.variants@[variant as int].fields@,
                                match db.body.exprs@[i as int] {
                                    Expr::RecordLit { fields, .. } => fields@,
                                    _ => Seq::empty(),
                                },
                            );
                        }
                        self.push_fields_diag(db, i, variant, &missing, false);
                        proof {
                            assert(diags_view(self.sink@) == before + lit_fields_diag(
                                *db,
                                self.infer,
                                i as int,
                            ));
                        }
                    } else {
                        proof {
                            assert(lit_fields_diag(*db, self.infer, i as int)
                                =~= Seq::<SpecDiag>::empty());
                            assert(before + lit_fields_diag(*db, self.infer, i as int)
                                =~= before);
                        }
                    }
                },
                None => {
                    proof {
                        assert(lit_fields_diag(*db, self.infer, i as int)
                            =~= Seq::<SpecDiag>::empty());
                        assert(before + lit_fields_diag(*db, self.infer, i as int) =~= before);
                    }
                },
            }
            let ghost mid = diags_view(self.sink@);
            proof {
                assert(mid == before + lit_fields_diag(*db, self.infer, i as int));
            }
            match &db.body.exprs[i] {
                Expr::Match { .. } => self.validate_match(db, i),
                Expr::Call { .. } => self.validate_call(db, i),
                Expr::MethodCall { .. } => self.validate_call(db, i),
                _ => {
                    proof {
                        assert(mid + Seq::<SpecDiag>::empty() =~= mid);
                    }
                },
            }
            proof {
                let lit = lit_fields_diag(*db, self.infer, i as int);
                let rest = match db.body.exprs@[i as int] {
                    Expr::Match { .. } => match_diag(*db, self.infer, i as int),
                    Expr::Call { .. } => call_diag(*db, self.infer, i as int),
                    Expr::MethodCall { .. } => call_diag(*db, self.infer, i as int),
                    _ => Seq::<SpecDiag>::empty(),
                };
                assert(diags_view(self.sink@) == (before + lit) + rest);
                assert((before + lit) + rest =~= before + (lit + rest));
                assert(expr_diags(*db, self.infer, i as int) == lit + rest);
                assert(exprs_diags_upto(*db, self.infer, i as int + 1) == exprs_diags_upto(
                    *db,
                    self.infer,
                    i as int,
                ) + expr_diags(*db, self.infer, i as int));
                assert((diags_view(old(self).sink@) + exprs_diags_upto(*db, self.infer, i as int))
                    + expr_diags(*db, self.infer, i as int) =~= diags_view(old(self).sink@)
                    + exprs_diags_upto(*db, self.infer, i as int + 1));
            }
            i += 1;
        }
        let np = db.body.pats.len();
        let mut p: usize = 0;
        while p < np
            invariant
                p <= np,
                np == db.body.pats@.len(),
                n == db.body.exprs@.len(),
                self.infer == old(self).infer,
                valid_input(*db, self.infer),
                diags_view(self.sink@) == diags_view(old(self).sink@) + exprs_diags_upto(
                    *db,
                    self.infer,
                    n as int,
                ) + pats_diags_upto(*db, self.infer, p as int),
            decreases np - p,
        {
            let ghost before = diags_view(self.sink@);
            match record_pattern_missing_fields(&db.meta, &self.infer, p, &db.body.pats[p]) {
                Some((variant, missing, exhaustive)) => {
                    if exhaustive {
                        proof {
                            assert((variant as int) < db.meta.variants@.len());
                            let fv = db.meta.variants@[variant as int].fields;
                            assert(fv@.len() == fv.len());
                            lemma_missing_field_indices(
                                db.meta.variants@[variant as int].fields@,
                                match db.body.pats@[p as int] {
                                    Pat::Record { fields, .. } => crate::fields::pat_field_names(
                                        fields@,
                                    ),
                                    _ => Seq::empty(),
                                },
                            );
                        }
                        self.push_fields_diag(db, p, variant, &missing, true);
                        proof {
                            assert(diags_view(self.sink@) == before + pat_fields_diag(
                                *db,
                                self.infer,
                                p as int,
                            ));
                        }
                    } else {
                        proof {
                            assert(pat_fields_diag(*db, self.infer, p as int)
                                =~= Seq::<SpecDiag>::empty());
                            assert(before + pat_fields_diag(*db, self.infer, p as int)
                                =~= before);
                        }
                    }
                },
                None => {
                    proof {
                        assert(pat_fields_diag(*db, self.infer, p as int)
                            =~= Seq::<SpecDiag>::empty());
                        assert(before + pat_fields_diag(*db, self.infer, p as int) =~= before);
                    }
                },
            }
            proof {
                assert(diags_view(self.sink@) == before + pat_fields_diag(
                    *db,
                    self.infer,
                    p as int,
                ));
                assert(pats_diags_upto(*db, self.infer, p as int + 1) == pats_diags_upto(
                    *db,
                    self.infer,
                    p as int,
                ) + pat_fields_diag(*db, self.infer, p as int));
                assert((diags_view(old(self).sink@) + exprs_diags_upto(*db, self.infer, n as int)
                    + pats_diags_upto(*db, self.infer, p as int)) + pat_fields_diag(
                    *db,
                    self.infer,
                    p as int,
                ) =~= diags_view(old(self).sink@) + exprs_diags_upto(*db, self.infer, n as int)
                    + pats_diags_upto(*db, self.infer, p as int + 1));
            }
            p += 1;
        }
        let ghost before_tail = diags_view(self.sink@);
        self.validate_results_in_tail_expr(db);
        proof {
            assert(diags_view(self.sink@) == before_tail + tail_diag(*db, self.infer));
            assert((diags_view(old(self).sink@) + exprs_diags_upto(*db, self.infer, n as int)
                + pats_diags_upto(*db, self.infer, np as int)) + tail_diag(*db, self.infer)
                =~= diags_view(old(self).sink@) + body_diags(*db, self.infer));
        }
    }

    /// The tail-result validator: reports a missing success wrap at the
    /// function's tail expression.
    fn validate_results_in_tail_expr(&mut self, db: &Db)
        requires
            valid_input(*db, old(self).infer),
        ensures
            final(self).infer == old(self).infer,
            diags_view(final(self).sink@) == diags_view(old(self).sink@) + tail_diag(
                *db,
                old(self).infer,
            ),
    {
        let ghost pre = diags_view(self.sink@);
        proof {
            assert(pre + Seq::<SpecDiag>::empty() =~= pre);
            assert(expr_wf(db.body.exprs@[db.body.body_expr as int], db.body));
        }
        let t: usize = match &db.body.exprs[db.body.body_expr] {
            Expr::Block { tail: Some(t) } => *t,
            _ => { return ; },
        };
        let mut k: usize = 0;
        let n = self.infer.type_mismatches.len();
        proof {
            assert(self.infer.type_mismatches@.skip(0) =~= self.infer.type_mismatches@);
        }
        while k < n
            invariant
                k <= n,
                n == self.infer.type_mismatches@.len(),
                self.infer == old(self).infer,
                self.sink@ == old(self).sink@,
                valid_input(*db, self.infer),
                db.body.exprs@[db.body.body_expr as int] matches Expr::Block { tail: Some(t2) }
                    && t2 == t,
                first_mismatch_at(self.infer.type_mismatches@, db.body.body_expr as int)
                    == first_mismatch_at(
                    self.infer.type_mismatches@.skip(k as int),
                    db.body.body_expr as int,
                ),
            decreases n - k,
        {
            proof {
                assert(self.infer.type_mismatches@.skip(k as int)[0]
                    == self.infer.type_mismatches@[k as int]);
                assert(self.infer.type_mismatches@.skip(k as int).drop_first()
                    =~= self.infer.type_mismatches@.skip(k as int + 1));
            }
            if self.infer.type_mismatches[k].expr == db.body.body_expr {
                let mm = self.infer.type_mismatches[k];
                proof {
                    assert(first_mismatch_at(
                        self.infer.type_mismatches@,
                        db.body.body_expr as int,
                    ) == Some(mm));
                    assert((self.infer.type_mismatches@[k as int].expected as int)
                        < self.infer.types@.len());
                }
                let re = match db.resolver.result_enum {
                    Some(re) => re,
                    None => { return ; },
                };
                match &self.infer.types[mm.expected] {
                    TypeData::Enum { enum_id, params } => {
                        if *enum_id == re && params.len() == 2 && params[0] == mm.actual {
                            proof {
                                assert(expr_wf(db.body.exprs@[db.body.body_expr as int], db.body));
                            }
                            match db.source_map.expr_ranges[t] {
                                Some(range) => {
                                    let d = Diagnostic::MissingOkInTailExpr {
                                        file: db.source_map.file,
                                        range,
                                    };
                                    proof {
                                        lemma_diags_view_push(self.sink@, d);
                                    }
                                    self.sink.push(d);
                                },
                                None => {},
                            }
                        }
                    },
                    _ => {},
                }
                return ;
            }
            k += 1;
        }
        proof {
            assert(self.infer.type_mismatches@.skip(n as int) =~= Seq::<TypeMismatch>::empty());
            assert(first_mismatch_at(
                Seq::<TypeMismatch>::empty(),
                db.body.body_expr as int,
            ) is None);
        }
    }
}

// ---------------------------------------------------------------------
// Laws of the validators.
// ---------------------------------------------------------------------

/// The call-arity law for free calls and constructor invocations: with no
/// recorded type mismatch, a callee whose type exposes a callable
/// signature and a mapped source position, a finding is reported exactly
/// when the supplied argument count differs from the declared parameter
/// count, and it carries those two counts.
pub proof fn lemma_call_arity_iff(db: Db, infer: Infer, i: int)
    requires
        infer.type_mismatches@.len() == 0,
        0 <= i < db.body.exprs@.len(),
    ensures
        match db.body.exprs@[i] {
            Expr::Call { callee, args } => match infer.type_of_expr@[callee as int] {
                Some(ty) => match infer.types@[ty as int] {
                    TypeData::Callable { param_count } => match db.source_map.expr_ranges@[i] {
                        Some(range) => call_diag(db, infer, i) == (
                        if args@.len() != param_count {
                            seq![
                                SpecDiag::MismatchedArgCount {
                                    file: db.source_map.file,
                                    range,
                                    expected: param_count,
                                    found: args@.len() as usize,
                                },
                            ]
                        } else {
                            Seq::<SpecDiag>::empty()
                        }),
                        None => true,
                    },
                    _ => true,
                },
                None => true,
            },
            _ => true,
        },
{
}

/// The call-arity law for method calls: the implicit receiver is counted
/// as both a parameter and an argument, and both reported counts are
/// lowered by one so they match what is visible in source.
pub proof fn lemma_method_arity_iff(db: Db, infer: Infer, i: int)
    requires
        infer.type_mismatches@.len() == 0,
        0 <= i < db.body.exprs@.len(),
    ensures
        match db.body.exprs@[i] {
            Expr::MethodCall { args, .. } => match infer.method_resolutions@[i] {
                Some(f) => if (db.meta.fn_param_counts@[f as int] as int) > 0 {
                    match db.source_map.expr_ranges@[i] {
                        Some(range) => call_diag(db, infer, i) == (
                        if args@.len() as int + 1 != db.meta.fn_param_counts@[f as int] as int {
                            seq![
                                SpecDiag::MismatchedArgCount {
                                    file: db.source_map.file,
                                    range,
                                    expected: (db.meta.fn_param_counts@[f as int] - 1) as usize,
                                    found: args@.len() as usize,
                                },
                            ]
                        } else {
                            Seq::<SpecDiag>::empty()
                        }),
                        None => true,
                    }
                } else {
                    true
                },
                None => true,
            },
            _ => true,
        },
{
}

/// The match validator's law: for a match whose subject type resolved,
/// whose every arm pattern has that type (after one reference strip) and
/// whose node maps to a source range, missing match arms are reported
/// exactly when the usefulness engine finds a wildcard useful against the
/// arm matrix.
pub proof fn lemma_match_reported_iff(db: Db, infer: Infer, i: int)
    requires
        0 <= i < db.body.exprs@.len(),
    ensures
        match db.body.exprs@[i] {
            Expr::Match { scrutinee, arms } => match infer.type_of_expr@[scrutinee as int] {
                Some(subject_ty) => if arms_all_well_typed(infer, arms@, subject_ty as int) {
                    match db.source_map.expr_ranges@[i] {
                        Some(range) => match_diag(db, infer, i) == (
                        if useful(
                            db.body.pats@,
                            db.meta,
                            arm_matrix(arms@),
                            seq![PatIdOrWild::Wild],
                        ) {
                            seq![SpecDiag::MissingMatchArms { file: db.source_map.file, range }]
                        } else {
                            Seq::<SpecDiag>::empty()
                        }),
                        None => true,
                    }
                } else {
                    true
                },
                None => true,
            },
            _ => true,
        },
{
}

/// A match with an unguarded wildcard or binding arm is never reported:
/// such an arm is an all-wildcard row of the arm matrix, which covers
/// every value.
pub proof fn lemma_wildcard_arm_never_reported(db: Db, infer: Infer, i: int, k: int)
    requires
        valid_input(db, infer),
        0 <= i < db.body.exprs@.len(),
        db.body.exprs@[i] matches Expr::Match { arms, .. } && 0 <= k < arms@.len()
            && db.body.pats@[arms@[k].pat as int] is Wild,
    ensures
        match_diag(db, infer, i) == Seq::<SpecDiag>::empty(),
{
    match db.body.exprs@[i] {
        Expr::Match { scrutinee, arms } => {
            let m = arm_matrix(arms@);
            assert(expr_wf(db.body.exprs@[i], db.body));
            assert(m[k] == seq![PatIdOrWild::PatId(arms@[k].pat)]);
            assert(crate::usefulness::head_ctor(db.body.pats@, m[k][0]) is None);
            assert(crate::usefulness::all_wild_row(db.body.pats@, m[k])) by {
                assert(m[k].len() == 1);
                assert(forall|k2: int|
                    0 <= k2 < m[k].len() ==> #[trigger] m[k][k2] == m[k][0]);
            }
            assert(crate::usefulness::has_wild_row(db.body.pats@, m));
            assert forall|i2: int| 0 <= i2 < m.len() implies (#[trigger] m[i2]).len() == seq![
                PatIdOrWild::Wild,
            ].len() && crate::usefulness::stack_wf(db.body.pats@, m[i2]) by {
                assert(m[i2] == seq![PatIdOrWild::PatId(arms@[i2].pat)]);
                assert((arms@[i2].pat as int) < db.body.pats@.len());
            }
            assert(useful_wf(db.body.pats@, db.meta, m, seq![PatIdOrWild::Wild]));
            crate::usefulness::lemma_wild_row_not_useful(
                db.body.pats@,
                db.meta,
                m,
                seq![PatIdOrWild::Wild],
            );
        },
        _ => {},
    }
}

/// The exhaustive-cover law at the level of a match expression: when the
/// subject is a sum type and each of its arms appears as an arm pattern
/// of that constructor with all-wildcard sub-patterns, no finding is
/// reported.
pub proof fn lemma_full_cover_never_reported(db: Db, infer: Infer, i: int, e: usize)
    requires
        valid_input(db, infer),
        0 <= i < db.body.exprs@.len(),
        (e as int) < db.meta.enums@.len(),
        db.meta.enums@[e as int].variant_arities@.len() > 0,
        db.body.exprs@[i] matches Expr::Match { arms, .. } && (forall|v: usize|
            (v as int) < db.meta.enums@[e as int].variant_arities@.len()
                ==> #[trigger] crate::usefulness::covered_in(
                db.body.pats@,
                db.meta,
                arm_matrix(arms@),
                crate::usefulness::Ctor::Variant(e, v),
            )) && (forall|i2: int|
            0 <= i2 < arms@.len() ==> (match crate::usefulness::arena_ctor(
                db.body.pats@,
                (#[trigger] arms@[i2]).pat as int,
            ) {
                Some(c) => c matches crate::usefulness::Ctor::Variant(e2, _) && e2 == e,
                None => true,
            })),
    ensures
        match_diag(db, infer, i) == Seq::<SpecDiag>::empty(),
{
    match db.body.exprs@[i] {
        Expr::Match { scrutinee, arms } => {
            let m = arm_matrix(arms@);
            assert(expr_wf(db.body.exprs@[i], db.body));
            assert forall|i2: int| 0 <= i2 < m.len() implies (#[trigger] m[i2]).len() == seq![
                PatIdOrWild::Wild,
            ].len() && crate::usefulness::stack_wf(db.body.pats@, m[i2]) by {
                assert(m[i2] == seq![PatIdOrWild::PatId(arms@[i2].pat)]);
                assert((arms@[i2].pat as int) < db.body.pats@.len());
            }
            assert(useful_wf(db.body.pats@, db.meta, m, seq![PatIdOrWild::Wild]));
            assert forall|i2: int| 0 <= i2 < m.len() && (#[trigger] m[i2]).len() > 0 implies (
            match crate::usefulness::head_ctor(db.body.pats@, m[i2][0]) {
                Some(c) => c matches crate::usefulness::Ctor::Variant(e2, _) && e2 == e,
                None => true,
            }) by {
                assert(m[i2] == seq![PatIdOrWild::PatId(arms@[i2].pat)]);
            }
            crate::usefulness::lemma_full_cover_not_useful(db.body.pats@, db.meta, m, e);
        },
        _ => {},
    }
}

} // verus!

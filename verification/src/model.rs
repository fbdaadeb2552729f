//! The data the validators read: a function body as arenas of expression
//! and pattern nodes, the per-function inference result, the metadata of
//! record and sum types, the source-position map, and the resolution
//! context. All of it is plain, already-computed data; the validators
//! never mutate it.

use vstd::prelude::*;

verus! {

/// A source range inside the file the body was lowered from.
#[derive(Clone, Copy, Debug, PartialEq, Eq, Structural)]
pub struct SrcRange {
    pub start: u32,
    pub end: u32,
}

/// One arm of a match expression; the guard and the arm's value play no
/// role in exhaustiveness checking, so only the pattern is kept.
#[derive(Clone, Copy, Debug, PartialEq, Eq, Structural)]
pub struct MatchArm {
    pub pat: usize,
}

/// An expression node. Ids are indices into `Body::exprs`; the shapes the
/// validators do not inspect are folded into `Other`.
#[derive(Clone, Debug)]
pub enum Expr {
    Call { callee: usize, args: Vec<usize> },
    MethodCall { receiver: usize, args: Vec<usize> },
    Match { scrutinee: usize, arms: Vec<MatchArm> },
    RecordLit { fields: Vec<u64>, has_spread: bool },
    Block { tail: Option<usize> },
    Other,
}

/// A named sub-pattern of a record pattern. Field names are interned ids,
/// as handed out by the naming environment.
#[derive(Clone, Copy, Debug, PartialEq, Eq, Structural)]
pub struct FieldPat {
    pub name: u64,
    pub pat: usize,
}

/// A pattern node. Sub-patterns are ids into `Body::pats`; a well-formed
/// body allocates sub-patterns before their parents, so sub-ids are
/// strictly below the parent's id. Bindings without sub-patterns behave
/// exactly like wildcards and are represented as `Wild`.
#[derive(Clone, Debug)]
pub enum Pat {
    Wild,
    BoolLit { value: bool },
    IntLit { value: u64 },
    StrLit { value: u64 },
    Tuple { args: Vec<usize> },
    Record { variant: usize, fields: Vec<FieldPat>, has_rest: bool },
    TupleStruct { enum_id: usize, variant: usize, args: Vec<usize> },
    Ref { pat: usize },
}

/// A function body: the two node arenas and the id of the outermost
/// expression.
#[derive(Clone, Debug)]
pub struct Body {
    pub exprs: Vec<Expr>,
    pub pats: Vec<Pat>,
    pub body_expr: usize,
}

/// Field metadata of one record-like variant: its field names in
/// declaration order. Union variants are marked: their field layout has no
/// fixed covered set, so both field completeness and exhaustiveness skip
/// them.
#[derive(Clone, Debug)]
pub struct VariantData {
    pub fields: Vec<u64>,
    pub is_union: bool,
}

/// Metadata of one sum type: how many positional sub-patterns each of its
/// arms carries, in declaration order.
#[derive(Clone, Debug)]
pub struct EnumData {
    pub variant_arities: Vec<usize>,
}

/// The metadata accessor's answers: variant field lists, sum-type arm
/// lists, and the parameter count of each callable item.
#[derive(Clone, Debug)]
pub struct Meta {
    pub variants: Vec<VariantData>,
    pub enums: Vec<EnumData>,
    pub fn_param_counts: Vec<usize>,
}

/// What a resolved type exposes to the validators: one stripped reference
/// layer, a sum-type application (for the success/error wrapper check), or
/// a callable signature. Everything else is `Other`. Type ids are indices
/// into `Infer::types`; two types are the same type exactly when their ids
/// are equal.
#[derive(Clone, Debug)]
pub enum TypeData {
    Ref { target: usize },
    Enum { enum_id: usize, params: Vec<usize> },
    Callable { param_count: usize },
    Other,
}

/// One recorded type mismatch: the expression it sits on, the type the
/// context expected, and the type inference actually found.
#[derive(Clone, Copy, Debug, PartialEq, Eq, Structural)]
pub struct TypeMismatch {
    pub expr: usize,
    pub expected: usize,
    pub actual: usize,
}

/// The already-computed inference result for one function: the type table,
/// the per-node type assignments, method-call and record-variant
/// resolutions, and the recorded type mismatches. A `None` entry means the
/// node's type or target did not resolve; every checker abstains on it.
#[derive(Clone, Debug)]
pub struct Infer {
    pub types: Vec<TypeData>,
    pub type_of_expr: Vec<Option<usize>>,
    pub type_of_pat: Vec<Option<usize>>,
    pub method_resolutions: Vec<Option<usize>>,
    pub variant_resolutions_expr: Vec<Option<usize>>,
    pub variant_resolutions_pat: Vec<Option<usize>>,
    pub type_mismatches: Vec<TypeMismatch>,
}

/// The source-position map of one function: the file it lives in and, per
/// node id, the range of the syntax it was lowered from. A `None` entry is
/// a node with no source (synthesized code); diagnostics on it are
/// silently dropped.
#[derive(Clone, Debug)]
pub struct SourceMap {
    pub file: u64,
    pub expr_ranges: Vec<Option<SrcRange>>,
    pub pat_ranges: Vec<Option<SrcRange>>,
}

/// The resolution context of the function: whether the standard success/
/// error wrapper type resolves there, and to which sum type.
#[derive(Clone, Copy, Debug, PartialEq, Eq, Structural)]
pub struct Resolver {
    pub result_enum: Option<usize>,
}

/// Everything the validators read about one function besides the
/// inference result.
#[derive(Clone, Debug)]
pub struct Db {
    pub body: Body,
    pub meta: Meta,
    pub source_map: SourceMap,
    pub resolver: Resolver,
}

// ---------------------------------------------------------------------
// Well-formedness. The external lowering and inference stages produce
// data in which every id is in range, sub-patterns were allocated before
// their parents, and variant metadata is consistent; the validators state
// that as a predicate, check it once, and abstain from the whole pass if
// it fails.
// ---------------------------------------------------------------------

/// The pattern node at index `i` only references valid metadata and
/// sub-pattern ids strictly below `i`.
pub open spec fn pat_wf_at(pats: Seq<Pat>, meta: Meta, i: int) -> bool {
    match pats[i] {
        Pat::Wild => true,
        Pat::BoolLit { .. } => true,
        Pat::IntLit { .. } => true,
        Pat::StrLit { .. } => true,
        Pat::Tuple { args } => forall|j: int|
            0 <= j < args@.len() ==> (args@[j] as int) < i,
        Pat::Record { variant, fields, .. } => (variant as int) < meta.variants@.len()
            && !meta.variants@[variant as int].is_union
            && (forall|j: int| 0 <= j < fields@.len() ==> (fields@[j].pat as int) < i),
        Pat::TupleStruct { enum_id, variant, args } => (enum_id as int) < meta.enums@.len()
            && (variant as int) < meta.enums@[enum_id as int].variant_arities@.len()
            && args@.len() == meta.enums@[enum_id as int].variant_arities@[variant as int] as int
            && (forall|j: int| 0 <= j < args@.len() ==> (args@[j] as int) < i),
        Pat::Ref { pat } => (pat as int) < i,
    }
}

pub open spec fn pats_wf(pats: Seq<Pat>, meta: Meta) -> bool {
    forall|i: int| 0 <= i < pats.len() ==> pat_wf_at(pats, meta, i)
}

/// The field names of every record-like variant are pairwise distinct, as
/// a declaration's field list is.
pub open spec fn meta_wf(meta: Meta) -> bool {
    forall|v: int, i: int, j: int|
        0 <= v < meta.variants@.len() && 0 <= i < j < meta.variants@[v].fields@.len()
            ==> meta.variants@[v].fields@[i] != meta.variants@[v].fields@[j]
}

/// The expression node only references ids inside the body.
pub open spec fn expr_wf(e: Expr, body: Body) -> bool {
    match e {
        Expr::Call { callee, .. } => (callee as int) < body.exprs@.len(),
        Expr::MethodCall { .. } => true,
        Expr::Match { scrutinee, arms } => (scrutinee as int) < body.exprs@.len()
            && (forall|j: int| 0 <= j < arms@.len() ==> (arms@[j].pat as int) < body.pats@.len()),
        Expr::RecordLit { .. } => true,
        Expr::Block { tail } => match tail {
            Some(t) => (t as int) < body.exprs@.len(),
            None => true,
        },
        Expr::Other => true,
    }
}

pub open spec fn body_wf(body: Body, meta: Meta) -> bool {
    &&& (body.body_expr as int) < body.exprs@.len()
    &&& forall|i: int| 0 <= i < body.exprs@.len() ==> expr_wf(body.exprs@[i], body)
    &&& pats_wf(body.pats@, meta)
}

/// The inference result covers exactly the body's nodes and only names
/// valid types, functions and variants.
pub open spec fn infer_wf(infer: Infer, body: Body, meta: Meta) -> bool {
    &&& infer.type_of_expr@.len() == body.exprs@.len()
    &&& infer.type_of_pat@.len() == body.pats@.len()
    &&& infer.method_resolutions@.len() == body.exprs@.len()
    &&& infer.variant_resolutions_expr@.len() == body.exprs@.len()
    &&& infer.variant_resolutions_pat@.len() == body.pats@.len()
    &&& forall|i: int| 0 <= i < infer.type_of_expr@.len()
        ==> opt_lt(infer.type_of_expr@[i], infer.types@.len() as int)
    &&& forall|i: int| 0 <= i < infer.type_of_pat@.len()
        ==> opt_lt(infer.type_of_pat@[i], infer.types@.len() as int)
    &&& forall|i: int| 0 <= i < infer.method_resolutions@.len()
        ==> opt_lt(infer.method_resolutions@[i], meta.fn_param_counts@.len() as int)
    &&& forall|i: int| 0 <= i < infer.variant_resolutions_expr@.len()
        ==> opt_lt(infer.variant_resolutions_expr@[i], meta.variants@.len() as int)
    &&& forall|i: int| 0 <= i < infer.variant_resolutions_pat@.len()
        ==> opt_lt(infer.variant_resolutions_pat@[i], meta.variants@.len() as int)
    &&& forall|i: int| 0 <= i < infer.type_mismatches@.len()
        ==> (infer.type_mismatches@[i].expected as int) < infer.types@.len()
}

pub open spec fn opt_lt(o: Option<usize>, bound: int) -> bool {
    match o {
        Some(v) => (v as int) < bound,
        None => true,
    }
}

pub open spec fn source_map_wf(map: SourceMap, body: Body) -> bool {
    &&& map.expr_ranges@.len() == body.exprs@.len()
    &&& map.pat_ranges@.len() == body.pats@.len()
}

/// The single validity condition the whole pass checks once before doing
/// any work.
pub open spec fn valid_input(db: Db, infer: Infer) -> bool {
    &&& body_wf(db.body, db.meta)
    &&& meta_wf(db.meta)
    &&& infer_wf(infer, db.body, db.meta)
    &&& source_map_wf(db.source_map, db.body)
}

// ---------------------------------------------------------------------
// The runtime check of the validity condition: the pass abstains as a
// whole when the data handed to it is inconsistent, instead of failing.
// ---------------------------------------------------------------------

fn check_ids_lt(v: &Vec<usize>, bound: usize) -> (r: bool)
    ensures
        r == (forall|j: int| 0 <= j < v@.len() ==> (v@[j] as int) < bound as int),
{
    let mut j: usize = 0;
    while j < v.len()
        invariant
            j <= v.len(),
            forall|j2: int| 0 <= j2 < j ==> (v@[j2] as int) < bound as int,
        decreases v.len() - j,
    {
        if v[j] >= bound {
            return false;
        }
        j += 1;
    }
    true
}

fn check_opts_lt(v: &Vec<Option<usize>>, bound: usize) -> (r: bool)
    ensures
        r == (forall|j: int| 0 <= j < v@.len() ==> opt_lt(#[trigger] v@[j], bound as int)),
{
    let mut j: usize = 0;
    while j < v.len()
        invariant
            j <= v.len(),
            forall|j2: int| 0 <= j2 < j ==> opt_lt(#[trigger] v@[j2], bound as int),
        decreases v.len() - j,
    {
        match v[j] {
            Some(x) => if x >= bound {
                assert(!opt_lt(v@[j as int], bound as int));
                return false;
            },
            None => {},
        }
        j += 1;
    }
    true
}

fn check_pat_wf_at(pats: &Vec<Pat>, meta: &Meta, i: usize) -> (r: bool)
    requires
        (i as int) < pats@.len(),
    ensures
        r == pat_wf_at(pats@, *meta, i as int),
{
    match &pats[i] {
        Pat::Wild => true,
        Pat::BoolLit { .. } => true,
        Pat::IntLit { .. } => true,
        Pat::StrLit { .. } => true,
        Pat::Tuple { args } => check_ids_lt(args, i),
        Pat::Record { variant, fields, .. } => {
            if *variant >= meta.variants.len() || meta.variants[*variant].is_union {
                return false;
            }
            let mut j: usize = 0;
            while j < fields.len()
                invariant
                    j <= fields.len(),
                    (i as int) < pats@.len(),
                    pats@[i as int] matches Pat::Record { fields: f2, .. } && f2@ == fields@,
                    forall|j2: int| 0 <= j2 < j ==> ((#[trigger] fields@[j2]).pat as int)
                        < i as int,
                decreases fields.len() - j,
            {
                if fields[j].pat >= i {
                    return false;
                }
                j += 1;
            }
            true
        },
        Pat::TupleStruct { enum_id, variant, args } => {
            if *enum_id >= meta.enums.len() {
                return false;
            }
            if *variant >= meta.enums[*enum_id].variant_arities.len() {
                return false;
            }
            if args.len() != meta.enums[*enum_id].variant_arities[*variant] {
                return false;
            }
            check_ids_lt(args, i)
        },
        Pat::Ref { pat } => *pat < i,
    }
}

fn check_pats_wf(pats: &Vec<Pat>, meta: &Meta) -> (r: bool)
    ensures
        r == pats_wf(pats@, *meta),
{
    let mut i: usize = 0;
    while i < pats.len()
        invariant
            i <= pats.len(),
            forall|i2: int| 0 <= i2 < i ==> pat_wf_at(pats@, *meta, i2),
        decreases pats.len() - i,
    {
        if !check_pat_wf_at(pats, meta, i) {
            return false;
        }
        i += 1;
    }
    true
}

fn check_expr_wf(body: &Body, i: usize) -> (r: bool)
    requires
        (i as int) < body.exprs@.len(),
    ensures
        r == expr_wf(body.exprs@[i as int], *body),
{
    match &body.exprs[i] {
        Expr::Call { callee, .. } => *callee < body.exprs.len(),
        Expr::MethodCall { .. } => true,
        Expr::Match { scrutinee, arms } => {
            if *scrutinee >= body.exprs.len() {
                return false;
            }
            let mut j: usize = 0;
            while j < arms.len()
                invariant
                    j <= arms.len(),
                    (i as int) < body.exprs@.len(),
                    body.exprs@[i as int] matches Expr::Match { arms: a2, .. } && a2@ == arms@,
                    forall|j2: int| 0 <= j2 < j ==> ((#[trigger] arms@[j2]).pat as int)
                        < body.pats@.len(),
                decreases arms.len() - j,
            {
                if arms[j].pat >= body.pats.len() {
                    return false;
                }
                j += 1;
            }
            true
        },
        Expr::RecordLit { .. } => true,
        Expr::Block { tail } => match tail {
            Some(t) => *t < body.exprs.len(),
            None => true,
        },
        Expr::Other => true,
    }
}

fn check_body_wf(body: &Body, meta: &Meta) -> (r: bool)
    ensures
        r == body_wf(*body, *meta),
{
    if body.body_expr >= body.exprs.len() {
        return false;
    }
    let mut i: usize = 0;
    while i < body.exprs.len()
        invariant
            i <= body.exprs@.len(),
            (body.body_expr as int) < body.exprs@.len(),
            forall|i2: int| 0 <= i2 < i ==> expr_wf(#[trigger] body.exprs@[i2], *body),
        decreases body.exprs.len() - i,
    {
        if !check_expr_wf(body, i) {
            return false;
        }
        i += 1;
    }
    check_pats_wf(&body.pats, meta)
}

fn check_meta_wf(meta: &Meta) -> (r: bool)
    ensures
        r == meta_wf(*meta),
{
    let mut v: usize = 0;
    while v < meta.variants.len()
        invariant
            v <= meta.variants@.len(),
            forall|v2: int, i: int, j: int|
                0 <= v2 < v && 0 <= i < j < meta.variants@[v2].fields@.len()
                    ==> meta.variants@[v2].fields@[i] != meta.variants@[v2].fields@[j],
        decreases meta.variants.len() - v,
    {
        let fields = &meta.variants[v].fields;
        let mut i: usize = 0;
        while i < fields.len()
            invariant
                v < meta.variants@.len(),
                i <= fields.len(),
                fields@ == meta.variants@[v as int].fields@,
                forall|i2: int, j2: int|
                    0 <= i2 < j2 < fields@.len() && i2 < i ==> fields@[i2] != fields@[j2],
            decreases fields.len() - i,
        {
            let mut j: usize = i + 1;
            while j < fields.len()
                invariant
                    v < meta.variants@.len(),
                    i < j,
                    j <= fields.len(),
                    (i as int) < fields@.len(),
                    fields@ == meta.variants@[v as int].fields@,
                    forall|j2: int| i < j2 < j ==> fields@[i as int] != fields@[j2],
                decreases fields.len() - j,
            {
                if fields[i] == fields[j] {
                    return false;
                }
                j += 1;
            }
            i += 1;
        }
        v += 1;
    }
    true
}

fn check_infer_wf(infer: &Infer, body: &Body, meta: &Meta) -> (r: bool)
    ensures
        r == infer_wf(*infer, *body, *meta),
{
    if infer.type_of_expr.len() != body.exprs.len() {
        return false;
    }
    if infer.type_of_pat.len() != body.pats.len() {
        return false;
    }
    if infer.method_resolutions.len() != body.exprs.len() {
        return false;
    }
    if infer.variant_resolutions_expr.len() != body.exprs.len() {
        return false;
    }
    if infer.variant_resolutions_pat.len() != body.pats.len() {
        return false;
    }
    if !check_opts_lt(&infer.type_of_expr, infer.types.len()) {
        return false;
    }
    if !check_opts_lt(&infer.type_of_pat, infer.types.len()) {
        return false;
    }
    if !check_opts_lt(&infer.method_resolutions, meta.fn_param_counts.len()) {
        return false;
    }
    if !check_opts_lt(&infer.variant_resolutions_expr, meta.variants.len()) {
        return false;
    }
    if !check_opts_lt(&infer.variant_resolutions_pat, meta.variants.len()) {
        return false;
    }
    let mut i: usize = 0;
    while i < infer.type_mismatches.len()
        invariant
            i <= infer.type_mismatches@.len(),
            forall|i2: int| 0 <= i2 < i ==> ((#[trigger] infer.type_mismatches@[i2]).expected
                as int) < infer.types@.len(),
        decreases infer.type_mismatches.len() - i,
    {
        if infer.type_mismatches[i].expected >= infer.types.len() {
            return false;
        }
        i += 1;
    }
    true
}

/// Checks the whole validity condition at run time.
pub fn check_valid(db: &Db, infer: &Infer) -> (r: bool)
    ensures
        r == valid_input(*db, *infer),
{
    if !check_body_wf(&db.body, &db.meta) {
        return false;
    }
    if !check_meta_wf(&db.meta) {
        return false;
    }
    if !check_infer_wf(infer, &db.body, &db.meta) {
        return false;
    }
    if db.source_map.expr_ranges.len() != db.body.exprs.len() {
        return false;
    }
    if db.source_map.pat_ranges.len() != db.body.pats.len() {
        return false;
    }
    true
}

} // verus!

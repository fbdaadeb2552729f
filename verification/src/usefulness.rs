//! The pattern matrix and usefulness engine: decides whether a wildcard
//! row is useful against a matrix of pattern rows, which is exactly
//! whether the matrix's rows fail to cover some value.

use crate::model::{pat_wf_at, pats_wf, meta_wf, FieldPat, Meta, Pat};
use vstd::prelude::*;

verus! {

/// One entry of a pattern row: a pattern of the body's arena, or a
/// wildcard the engine made up while specializing.
#[derive(Clone, Copy, Debug, PartialEq, Eq, Structural)]
pub enum PatIdOrWild {
    PatId(usize),
    Wild,
}

/// A head constructor: one shape a value of the column's type can take.
/// Tuple, record and reference types have a single constructor each;
/// numeric and textual literals are constructors of domains that are never
/// enumerable.
#[derive(Clone, Copy, Debug, PartialEq, Eq, Structural)]
pub enum Ctor {
    Bool(bool),
    Int(u64),
    Str(u64),
    Tuple(usize),
    Record(usize),
    Variant(usize, usize),
    Ref,
}

/// One row of the matrix.
pub type PatStack = Vec<PatIdOrWild>;

/// The pattern matrix: one row per match arm, grown by appending, scoped
/// to a single exhaustiveness check.
#[derive(Clone, Debug)]
pub struct Matrix {
    pub rows: Vec<PatStack>,
}

impl Matrix {
    pub open spec fn view_rows(&self) -> Seq<Seq<PatIdOrWild>> {
        self.rows@.map_values(|r: PatStack| r@)
    }
}

// ---------------------------------------------------------------------
// The termination measure: the size of a pattern tree, read through the
// arena. Wildcards weigh nothing; every constructor node weighs one plus
// its sub-patterns. Out-of-range and out-of-order sub-ids weigh nothing,
// so the measure is total; a well-formed body never reaches those guards.
// ---------------------------------------------------------------------

pub open spec fn pat_size(pats: Seq<Pat>, id: int) -> nat
    decreases id, 1int, 0int,
{
    if 0 <= id < pats.len() {
        match pats[id] {
            Pat::Wild => 0,
            Pat::BoolLit { .. } => 1,
            Pat::IntLit { .. } => 1,
            Pat::StrLit { .. } => 1,
            Pat::Tuple { args } => 1 + subs_size(pats, args@, id),
            Pat::Record { fields, .. } => 1 + subs_size(
                pats,
                fields@.map_values(|fp: FieldPat| fp.pat),
                id,
            ),
            Pat::TupleStruct { args, .. } => 1 + subs_size(pats, args@, id),
            Pat::Ref { pat } => 1 + subs_size(pats, seq![pat], id),
        }
    } else {
        0
    }
}

pub open spec fn subs_size(pats: Seq<Pat>, subs: Seq<usize>, bound: int) -> nat
    decreases bound, 0int, subs.len(),
{
    if subs.len() == 0 {
        0
    } else {
        (if (subs[0] as int) < bound {
            pat_size(pats, subs[0] as int)
        } else {
            0
        }) + subs_size(pats, subs.drop_first(), bound)
    }
}

pub open spec fn pow_size(pats: Seq<Pat>, p: PatIdOrWild) -> nat {
    match p {
        PatIdOrWild::Wild => 0,
        PatIdOrWild::PatId(id) => pat_size(pats, id as int),
    }
}

pub open spec fn stack_size(pats: Seq<Pat>, q: Seq<PatIdOrWild>) -> nat
    decreases q.len(),
{
    if q.len() == 0 {
        0
    } else {
        pow_size(pats, q[0]) + stack_size(pats, q.drop_first())
    }
}

pub open spec fn matrix_size(pats: Seq<Pat>, m: Seq<Seq<PatIdOrWild>>) -> nat
    decreases m.len(),
{
    if m.len() == 0 {
        0
    } else {
        stack_size(pats, m[0]) + matrix_size(pats, m.drop_first())
    }
}

// ---------------------------------------------------------------------
// Head constructors, arities, and the specialization step.
// ---------------------------------------------------------------------

/// The head constructor the arena pattern `id` is, or `None` for a
/// wildcard. Tuple constructors carry their arity; two tuple patterns of
/// different widths never meet in a well-typed column.
pub open spec fn arena_ctor(pats: Seq<Pat>, id: int) -> Option<Ctor> {
    if 0 <= id < pats.len() {
        match pats[id] {
            Pat::Wild => None,
            Pat::BoolLit { value } => Some(Ctor::Bool(value)),
            Pat::IntLit { value } => Some(Ctor::Int(value)),
            Pat::StrLit { value } => Some(Ctor::Str(value)),
            Pat::Tuple { args } => Some(Ctor::Tuple(args@.len() as usize)),
            Pat::Record { variant, .. } => Some(Ctor::Record(variant)),
            Pat::TupleStruct { enum_id, variant, .. } => Some(Ctor::Variant(enum_id, variant)),
            Pat::Ref { .. } => Some(Ctor::Ref),
        }
    } else {
        None
    }
}

pub open spec fn head_ctor(pats: Seq<Pat>, p: PatIdOrWild) -> Option<Ctor> {
    match p {
        PatIdOrWild::Wild => None,
        PatIdOrWild::PatId(id) => arena_ctor(pats, id as int),
    }
}

/// How many sub-pattern columns a constructor expands into.
pub open spec fn ctor_arity(meta: Meta, c: Ctor) -> nat {
    match c {
        Ctor::Bool(_) => 0,
        Ctor::Int(_) => 0,
        Ctor::Str(_) => 0,
        Ctor::Tuple(k) => k as nat,
        Ctor::Record(v) => if (v as int) < meta.variants@.len() {
            meta.variants@[v as int].fields@.len()
        } else {
            0
        },
        Ctor::Variant(e, i) => if (e as int) < meta.enums@.len()
            && (i as int) < meta.enums@[e as int].variant_arities@.len() {
            meta.enums@[e as int].variant_arities@[i as int] as nat
        } else {
            0
        },
        Ctor::Ref => 1,
    }
}

/// A row of `n` fresh wildcards.
pub open spec fn wild_row(n: nat) -> Seq<PatIdOrWild> {
    Seq::new(n, |i: int| PatIdOrWild::Wild)
}

pub open spec fn ids_row(ids: Seq<usize>) -> Seq<PatIdOrWild> {
    ids.map_values(|id: usize| PatIdOrWild::PatId(id))
}

/// The first field pattern written for `name`, or a wildcard when the
/// pattern leaves that field out.
pub open spec fn find_field(fields: Seq<FieldPat>, name: u64) -> PatIdOrWild
    decreases fields.len(),
{
    if fields.len() == 0 {
        PatIdOrWild::Wild
    } else if fields[0].name == name {
        PatIdOrWild::PatId(fields[0].pat)
    } else {
        find_field(fields.drop_first(), name)
    }
}

/// A record pattern's sub-columns: one per declared field, in declaration
/// order.
pub open spec fn record_row(fields: Seq<FieldPat>, names: Seq<u64>) -> Seq<PatIdOrWild> {
    Seq::new(names.len(), |i: int| find_field(fields, names[i]))
}

/// What the head pattern `p` contributes in place of its column when the
/// matrix is specialized by `c`: a wildcard head expands into `c`'s arity
/// of wildcards, a constructor head into its own sub-patterns.
pub open spec fn sub_row(pats: Seq<Pat>, meta: Meta, p: PatIdOrWild, c: Ctor) -> Seq<
    PatIdOrWild,
> {
    match p {
        PatIdOrWild::Wild => wild_row(ctor_arity(meta, c)),
        PatIdOrWild::PatId(id) => if 0 <= (id as int) < pats.len() {
            match pats[id as int] {
                Pat::Wild => wild_row(ctor_arity(meta, c)),
                Pat::BoolLit { .. } => Seq::empty(),
                Pat::IntLit { .. } => Seq::empty(),
                Pat::StrLit { .. } => Seq::empty(),
                Pat::Tuple { args } => ids_row(args@),
                Pat::Record { variant, fields, .. } => if (variant as int)
                    < meta.variants@.len() {
                    record_row(fields@, meta.variants@[variant as int].fields@)
                } else {
                    Seq::empty()
                },
                Pat::TupleStruct { args, .. } => ids_row(args@),
                Pat::Ref { pat } => seq![PatIdOrWild::PatId(pat)],
            }
        } else {
            wild_row(ctor_arity(meta, c))
        },
    }
}

/// Specializing one row by `c`: kept with its head expanded when the head
/// is `c` itself or a wildcard, dropped otherwise.
pub open spec fn row_specializes(
    pats: Seq<Pat>,
    meta: Meta,
    row: Seq<PatIdOrWild>,
    c: Ctor,
) -> Option<Seq<PatIdOrWild>> {
    if row.len() == 0 {
        None
    } else {
        match head_ctor(pats, row[0]) {
            None => Some(sub_row(pats, meta, row[0], c) + row.drop_first()),
            Some(c2) => if c2 == c {
                Some(sub_row(pats, meta, row[0], c) + row.drop_first())
            } else {
                None
            },
        }
    }
}

pub open spec fn specialize(
    pats: Seq<Pat>,
    meta: Meta,
    m: Seq<Seq<PatIdOrWild>>,
    c: Ctor,
) -> Seq<Seq<PatIdOrWild>>
    decreases m.len(),
{
    if m.len() == 0 {
        Seq::empty()
    } else {
        match row_specializes(pats, meta, m[0], c) {
            Some(r) => seq![r] + specialize(pats, meta, m.drop_first(), c),
            None => specialize(pats, meta, m.drop_first(), c),
        }
    }
}

/// The default matrix: the wildcard-headed rows with their head dropped.
pub open spec fn default_matrix(pats: Seq<Pat>, m: Seq<Seq<PatIdOrWild>>) -> Seq<
    Seq<PatIdOrWild>,
>
    decreases m.len(),
{
    if m.len() == 0 {
        Seq::empty()
    } else if m[0].len() > 0 && head_ctor(pats, m[0][0]) is None {
        seq![m[0].drop_first()] + default_matrix(pats, m.drop_first())
    } else {
        default_matrix(pats, m.drop_first())
    }
}

/// The constructors that appear literally at the heads of the matrix's
/// first column, in row order.
pub open spec fn observed(pats: Seq<Pat>, m: Seq<Seq<PatIdOrWild>>) -> Seq<Ctor>
    decreases m.len(),
{
    if m.len() == 0 {
        Seq::empty()
    } else {
        let rest = observed(pats, m.drop_first());
        if m[0].len() > 0 {
            match head_ctor(pats, m[0][0]) {
                Some(c) => seq![c] + rest,
                None => rest,
            }
        } else {
            rest
        }
    }
}

/// Whether an observed constructor set covers every constructor the
/// column's type admits: both boolean values, every arm of the sum type,
/// or the single constructor of a tuple, record or reference type.
/// Numeric and textual domains are never complete.
pub open spec fn is_complete(meta: Meta, obs: Seq<Ctor>) -> bool {
    obs.len() > 0 && match obs[0] {
        Ctor::Bool(_) => obs.contains(Ctor::Bool(true)) && obs.contains(Ctor::Bool(false)),
        Ctor::Int(_) => false,
        Ctor::Str(_) => false,
        Ctor::Tuple(_) => true,
        Ctor::Record(_) => true,
        Ctor::Variant(e, _) => (e as int) < meta.enums@.len() && (forall|i: int|
            0 <= i < meta.enums@[e as int].variant_arities@.len()
                ==> #[trigger] obs.contains(Ctor::Variant(e, i as usize))),
        Ctor::Ref => true,
    }
}

// ---------------------------------------------------------------------
// Well-formedness of matrices and rows.
// ---------------------------------------------------------------------

pub open spec fn pow_wf(pats: Seq<Pat>, p: PatIdOrWild) -> bool {
    match p {
        PatIdOrWild::Wild => true,
        PatIdOrWild::PatId(id) => (id as int) < pats.len(),
    }
}

pub open spec fn stack_wf(pats: Seq<Pat>, q: Seq<PatIdOrWild>) -> bool {
    forall|i: int| 0 <= i < q.len() ==> pow_wf(pats, q[i])
}

/// Everything `useful` assumes of its inputs: a well-formed arena and
/// metadata, ids in range, and all rows as wide as the query.
pub open spec fn useful_wf(
    pats: Seq<Pat>,
    meta: Meta,
    m: Seq<Seq<PatIdOrWild>>,
    q: Seq<PatIdOrWild>,
) -> bool {
    &&& pats_wf(pats, meta)
    &&& meta_wf(meta)
    &&& stack_wf(pats, q)
    &&& forall|i: int| 0 <= i < m.len() ==> m[i].len() == q.len() && stack_wf(pats, m[i])
}

// ---------------------------------------------------------------------
// Facts about the measure: specialization consumes one constructor node
// of every kept constructor-headed row and adds only weightless
// wildcards, so the total size never grows, and strictly shrinks when a
// row with the chosen constructor exists.
// ---------------------------------------------------------------------

pub proof fn lemma_stack_size_concat(pats: Seq<Pat>, a: Seq<PatIdOrWild>, b: Seq<PatIdOrWild>)
    ensures
        stack_size(pats, a + b) == stack_size(pats, a) + stack_size(pats, b),
    decreases a.len(),
{
    if a.len() == 0 {
        assert(a + b =~= b);
    } else {
        assert((a + b)[0] == a[0]);
        assert((a + b).drop_first() =~= a.drop_first() + b);
        lemma_stack_size_concat(pats, a.drop_first(), b);
    }
}

pub proof fn lemma_wild_row_size(pats: Seq<Pat>, n: nat)
    ensures
        stack_size(pats, wild_row(n)) == 0,
    decreases n,
{
    if n > 0 {
        assert(wild_row(n)[0] == PatIdOrWild::Wild);
        assert(wild_row(n).drop_first() =~= wild_row((n - 1) as nat));
        lemma_wild_row_size(pats, (n - 1) as nat);
    }
}

pub proof fn lemma_ids_row_size(pats: Seq<Pat>, ids: Seq<usize>, bound: int)
    requires
        forall|k: int| 0 <= k < ids.len() ==> (ids[k] as int) < bound,
    ensures
        stack_size(pats, ids_row(ids)) == subs_size(pats, ids, bound),
    decreases ids.len(),
{
    if ids.len() > 0 {
        assert(ids_row(ids)[0] == PatIdOrWild::PatId(ids[0]));
        assert(ids_row(ids).drop_first() =~= ids_row(ids.drop_first()));
        lemma_ids_row_size(pats, ids.drop_first(), bound);
    }
}

pub proof fn lemma_stack_size_zero(pats: Seq<Pat>, q: Seq<PatIdOrWild>)
    requires
        forall|i: int| 0 <= i < q.len() ==> pow_size(pats, q[i]) == 0,
    ensures
        stack_size(pats, q) == 0,
    decreases q.len(),
{
    if q.len() > 0 {
        lemma_stack_size_zero(pats, q.drop_first());
    }
}

pub proof fn lemma_record_row_concat(fields: Seq<FieldPat>, a: Seq<u64>, b: Seq<u64>)
    ensures
        record_row(fields, a + b) == record_row(fields, a) + record_row(fields, b),
{
    assert(record_row(fields, a + b) =~= record_row(fields, a) + record_row(fields, b));
}

/// Every sub-column a record pattern contributes is a wildcard or one of
/// its own field patterns.
pub proof fn lemma_find_field_wf(fields: Seq<FieldPat>, name: u64)
    ensures
        find_field(fields, name) == PatIdOrWild::Wild || exists|k: int|
            0 <= k < fields.len() && find_field(fields, name) == PatIdOrWild::PatId(
                #[trigger] fields[k].pat,
            ),
    decreases fields.len(),
{
    if fields.len() > 0 && fields[0].name != name {
        lemma_find_field_wf(fields.drop_first(), name);
        if find_field(fields, name) != PatIdOrWild::Wild {
            let k = choose|k: int|
                0 <= k < fields.drop_first().len() && find_field(fields.drop_first(), name)
                    == PatIdOrWild::PatId(fields.drop_first()[k].pat);
            assert(fields[k + 1].pat == fields.drop_first()[k].pat);
        }
    }
}

/// With pairwise distinct declared field names, each field pattern is
/// consumed at most once, so the record expansion weighs no more than the
/// pattern's own sub-patterns.
pub proof fn lemma_record_row_size(
    pats: Seq<Pat>,
    fields: Seq<FieldPat>,
    names: Seq<u64>,
    bound: int,
)
    requires
        forall|k: int, l: int| 0 <= k < l < names.len() ==> names[k] != names[l],
        forall|j: int| 0 <= j < fields.len() ==> (#[trigger] fields[j].pat as int) < bound,
    ensures
        stack_size(pats, record_row(fields, names)) <= subs_size(
            pats,
            fields.map_values(|fp: FieldPat| fp.pat),
            bound,
        ),
    decreases fields.len(),
{
    let row = record_row(fields, names);
    let subs = fields.map_values(|fp: FieldPat| fp.pat);
    if fields.len() == 0 {
        assert forall|i: int| 0 <= i < row.len() implies pow_size(pats, row[i]) == 0 by {
            assert(row[i] == PatIdOrWild::Wild);
        }
        lemma_stack_size_zero(pats, row);
    } else {
        let f0 = fields[0];
        let restf = fields.drop_first();
        let rsubs = restf.map_values(|fp: FieldPat| fp.pat);
        assert(subs[0] == f0.pat);
        assert(subs.drop_first() =~= rsubs);
        assert(subs_size(pats, subs, bound) == pat_size(pats, f0.pat as int) + subs_size(
            pats,
            rsubs,
            bound,
        ));
        if !names.contains(f0.name) {
            assert forall|i: int| 0 <= i < names.len() implies row[i] == record_row(
                restf,
                names,
            )[i] by {
                assert(names[i] != f0.name);
            }
            assert(row =~= record_row(restf, names));
            lemma_record_row_size(pats, restf, names, bound);
        } else {
            let i0 = choose|i0: int| 0 <= i0 < names.len() && names[i0] == f0.name;
            let r1 = names.subrange(0, i0);
            let r2 = names.subrange(i0 + 1, names.len() as int);
            assert(names =~= r1 + seq![names[i0]] + r2);
            lemma_record_row_concat(fields, r1 + seq![names[i0]], r2);
            lemma_record_row_concat(fields, r1, seq![names[i0]]);
            lemma_stack_size_concat(
                pats,
                record_row(fields, r1 + seq![names[i0]]),
                record_row(fields, r2),
            );
            lemma_stack_size_concat(pats, record_row(fields, r1), record_row(fields, seq![names[i0]]));
            let mid = record_row(fields, seq![names[i0]]);
            assert(mid.len() == 1 && mid[0] == find_field(fields, names[i0]));
            assert(find_field(fields, names[i0]) == PatIdOrWild::PatId(f0.pat));
            assert(mid.drop_first() =~= Seq::<PatIdOrWild>::empty());
            assert(stack_size(pats, Seq::<PatIdOrWild>::empty()) == 0);
            assert(stack_size(pats, mid) == pow_size(pats, mid[0]) + stack_size(
                pats,
                mid.drop_first(),
            ));
            assert(stack_size(pats, mid) == pat_size(pats, f0.pat as int));
            // the remaining names never name the consumed field
            assert forall|i: int| 0 <= i < r1.len() implies record_row(fields, r1)[i]
                == record_row(restf, r1)[i] by {
                assert(r1[i] == names[i] && names[i] != names[i0]);
            }
            assert(record_row(fields, r1) =~= record_row(restf, r1));
            assert forall|i: int| 0 <= i < r2.len() implies record_row(fields, r2)[i]
                == record_row(restf, r2)[i] by {
                assert(r2[i] == names[i0 + 1 + i] && names[i0 + 1 + i] != names[i0]);
            }
            assert(record_row(fields, r2) =~= record_row(restf, r2));
            let names2 = r1 + r2;
            assert forall|k: int, l: int| 0 <= k < l < names2.len() implies names2[k]
                != names2[l] by {
                if k < r1.len() && l >= r1.len() {
                    assert(names2[k] == names[k] && names2[l] == names[i0 + 1 + (l - r1.len())]);
                } else if k >= r1.len() {
                    assert(names2[k] == names[i0 + 1 + (k - r1.len())]);
                    assert(names2[l] == names[i0 + 1 + (l - r1.len())]);
                }
            }
            lemma_record_row_size(pats, restf, names2, bound);
            lemma_record_row_concat(restf, r1, r2);
            lemma_stack_size_concat(pats, record_row(restf, r1), record_row(restf, r2));
        }
    }
}

/// Expanding a constructor-headed pattern strictly sheds the head node.
pub proof fn lemma_sub_row_size(pats: Seq<Pat>, meta: Meta, id: usize, c: Ctor)
    requires
        pats_wf(pats, meta),
        meta_wf(meta),
        (id as int) < pats.len(),
        arena_ctor(pats, id as int) == Some(c),
    ensures
        stack_size(pats, sub_row(pats, meta, PatIdOrWild::PatId(id), c)) + 1 <= pat_size(
            pats,
            id as int,
        ),
{
    assert(pat_wf_at(pats, meta, id as int));
    match pats[id as int] {
        Pat::Wild => {
            assert(false);
        },
        Pat::BoolLit { .. } => {},
        Pat::IntLit { .. } => {},
        Pat::StrLit { .. } => {},
        Pat::Tuple { args } => {
            lemma_ids_row_size(pats, args@, id as int);
        },
        Pat::Record { variant, fields, .. } => {
            let names = meta.variants@[variant as int].fields@;
            assert(forall|k: int, l: int| 0 <= k < l < names.len() ==> names[k] != names[l]);
            lemma_record_row_size(pats, fields@, names, id as int);
        },
        Pat::TupleStruct { args, .. } => {
            lemma_ids_row_size(pats, args@, id as int);
        },
        Pat::Ref { pat } => {
            assert(seq![pat].drop_first() =~= Seq::<usize>::empty());
            assert(subs_size(pats, Seq::<usize>::empty(), id as int) == 0);
            assert(seq![pat][0] == pat && (pat as int) < id as int);
            assert(subs_size(pats, seq![pat], id as int) == pat_size(pats, pat as int)
                + subs_size(pats, seq![pat].drop_first(), id as int));
            assert(seq![PatIdOrWild::PatId(pat)].drop_first() =~= Seq::<PatIdOrWild>::empty());
            assert(stack_size(pats, Seq::<PatIdOrWild>::empty()) == 0);
            assert(stack_size(pats, seq![PatIdOrWild::PatId(pat)]) == pat_size(
                pats,
                pat as int,
            ));
        },
    }
}

/// A kept row never outweighs its source; a kept constructor-headed row
/// strictly shrinks.
pub proof fn lemma_row_spec_size(pats: Seq<Pat>, meta: Meta, row: Seq<PatIdOrWild>, c: Ctor)
    requires
        pats_wf(pats, meta),
        meta_wf(meta),
        stack_wf(pats, row),
        row.len() > 0,
    ensures
        match row_specializes(pats, meta, row, c) {
            Some(r) => stack_size(pats, r) <= stack_size(pats, row) && (head_ctor(pats, row[0])
                is Some ==> stack_size(pats, r) < stack_size(pats, row)),
            None => true,
        },
{
    let rest = row.drop_first();
    assert(stack_size(pats, row) == pow_size(pats, row[0]) + stack_size(pats, rest));
    match row_specializes(pats, meta, row, c) {
        Some(r) => {
            lemma_stack_size_concat(pats, sub_row(pats, meta, row[0], c), rest);
            match head_ctor(pats, row[0]) {
                None => {
                    // a wildcard head weighs nothing and expands to wildcards
                    assert(pow_size(pats, row[0]) == 0);
                    match row[0] {
                        PatIdOrWild::Wild => {
                            lemma_wild_row_size(pats, ctor_arity(meta, c));
                        },
                        PatIdOrWild::PatId(id) => {
                            lemma_wild_row_size(pats, ctor_arity(meta, c));
                        },
                    }
                },
                Some(c2) => {
                    let id = row[0]->PatId_0;
                    lemma_sub_row_size(pats, meta, id, c);
                },
            }
        },
        None => {},
    }
}

pub proof fn lemma_specialize_size_le(pats: Seq<Pat>, meta: Meta, m: Seq<Seq<PatIdOrWild>>, c: Ctor)
    requires
        pats_wf(pats, meta),
        meta_wf(meta),
        forall|i: int| 0 <= i < m.len() ==> stack_wf(pats, #[trigger] m[i]),
    ensures
        matrix_size(pats, specialize(pats, meta, m, c)) <= matrix_size(pats, m),
    decreases m.len(),
{
    if m.len() > 0 {
        let rest = m.drop_first();
        assert(forall|i: int| 0 <= i < rest.len() ==> rest[i] == m[i + 1]);
        lemma_specialize_size_le(pats, meta, rest, c);
        match row_specializes(pats, meta, m[0], c) {
            Some(r) => {
                lemma_row_spec_size(pats, meta, m[0], c);
                let s = specialize(pats, meta, rest, c);
                assert((seq![r] + s)[0] == r);
                assert((seq![r] + s).drop_first() =~= s);
            },
            None => {},
        }
    }
}

/// Whether some row's head is literally the constructor `c`.
pub open spec fn ctor_observed_in(pats: Seq<Pat>, m: Seq<Seq<PatIdOrWild>>, c: Ctor) -> bool {
    exists|i: int|
        0 <= i < m.len() && #[trigger] m[i].len() > 0 && head_ctor(pats, m[i][0]) == Some(c)
}

pub proof fn lemma_specialize_size_lt(pats: Seq<Pat>, meta: Meta, m: Seq<Seq<PatIdOrWild>>, c: Ctor)
    requires
        pats_wf(pats, meta),
        meta_wf(meta),
        forall|i: int| 0 <= i < m.len() ==> stack_wf(pats, #[trigger] m[i]),
        ctor_observed_in(pats, m, c),
    ensures
        matrix_size(pats, specialize(pats, meta, m, c)) < matrix_size(pats, m),
    decreases m.len(),
{
    let i = choose|i: int| 0 <= i < m.len() && #[trigger] m[i].len() > 0 && head_ctor(
        pats,
        m[i][0],
    ) == Some(c);
    let rest = m.drop_first();
    assert(forall|k: int| 0 <= k < rest.len() ==> rest[k] == m[k + 1]);
    if i == 0 {
        lemma_row_spec_size(pats, meta, m[0], c);
        lemma_specialize_size_le(pats, meta, rest, c);
        match row_specializes(pats, meta, m[0], c) {
            Some(r) => {
                let s = specialize(pats, meta, rest, c);
                assert((seq![r] + s)[0] == r);
                assert((seq![r] + s).drop_first() =~= s);
            },
            None => {},
        }
    } else {
        assert(rest[i - 1].len() > 0 && head_ctor(pats, rest[i - 1][0]) == Some(c));
        assert(ctor_observed_in(pats, rest, c));
        lemma_specialize_size_lt(pats, meta, rest, c);
        match row_specializes(pats, meta, m[0], c) {
            Some(r) => {
                lemma_row_spec_size(pats, meta, m[0], c);
                let s = specialize(pats, meta, rest, c);
                assert((seq![r] + s)[0] == r);
                assert((seq![r] + s).drop_first() =~= s);
            },
            None => {},
        }
    }
}

pub proof fn lemma_default_size_le(pats: Seq<Pat>, m: Seq<Seq<PatIdOrWild>>)
    ensures
        matrix_size(pats, default_matrix(pats, m)) <= matrix_size(pats, m),
    decreases m.len(),
{
    if m.len() > 0 {
        let rest = m.drop_first();
        lemma_default_size_le(pats, rest);
        if m[0].len() > 0 && head_ctor(pats, m[0][0]) is None {
            assert(pow_size(pats, m[0][0]) == 0);
            assert(stack_size(pats, m[0]) == pow_size(pats, m[0][0]) + stack_size(
                pats,
                m[0].drop_first(),
            ));
            let d = default_matrix(pats, rest);
            assert((seq![m[0].drop_first()] + d)[0] == m[0].drop_first());
            assert((seq![m[0].drop_first()] + d).drop_first() =~= d);
        }
    }
}

/// Every observed constructor is the head of some row.
pub proof fn lemma_observed_witness(pats: Seq<Pat>, m: Seq<Seq<PatIdOrWild>>, j: int)
    requires
        0 <= j < observed(pats, m).len(),
    ensures
        ctor_observed_in(pats, m, observed(pats, m)[j]),
    decreases m.len(),
{
    let rest = m.drop_first();
    let robs = observed(pats, rest);
    assert(forall|k: int| 0 <= k < rest.len() ==> rest[k] == m[k + 1]);
    if m[0].len() > 0 && head_ctor(pats, m[0][0]) is Some {
        if j == 0 {
            assert(m[0].len() > 0 && head_ctor(pats, m[0][0]) == Some(observed(pats, m)[0]));
        } else {
            lemma_observed_witness(pats, rest, j - 1);
            let i = choose|i: int| 0 <= i < rest.len() && #[trigger] rest[i].len() > 0
                && head_ctor(pats, rest[i][0]) == Some(robs[j - 1]);
            assert(m[i + 1].len() > 0 && head_ctor(pats, m[i + 1][0]) == Some(
                observed(pats, m)[j],
            ));
        }
    } else {
        lemma_observed_witness(pats, rest, j);
        let i = choose|i: int| 0 <= i < rest.len() && #[trigger] rest[i].len() > 0 && head_ctor(
            pats,
            rest[i][0],
        ) == Some(robs[j]);
        assert(m[i + 1].len() > 0 && head_ctor(pats, m[i + 1][0]) == Some(observed(pats, m)[j]));
    }
}

// ---------------------------------------------------------------------
// Well-formedness is preserved by specialization.
// ---------------------------------------------------------------------

/// The expansion of a head whose constructor is `c` (or a wildcard) has
/// exactly `c`'s arity of columns, all well-formed.
pub proof fn lemma_sub_row_wf(pats: Seq<Pat>, meta: Meta, p: PatIdOrWild, c: Ctor)
    requires
        pats_wf(pats, meta),
        pow_wf(pats, p),
        head_ctor(pats, p) is None || head_ctor(pats, p) == Some(c),
    ensures
        sub_row(pats, meta, p, c).len() == ctor_arity(meta, c),
        stack_wf(pats, sub_row(pats, meta, p, c)),
{
    match p {
        PatIdOrWild::Wild => {},
        PatIdOrWild::PatId(id) => {
            assert(pat_wf_at(pats, meta, id as int));
            match pats[id as int] {
                Pat::Wild => {},
                Pat::BoolLit { .. } => {},
                Pat::IntLit { .. } => {},
                Pat::StrLit { .. } => {},
                Pat::Tuple { args } => {
                    assert(args.len() == args@.len());
                },
                Pat::Record { variant, fields, .. } => {
                    let names = meta.variants@[variant as int].fields@;
                    assert forall|i: int| 0 <= i < names.len() implies pow_wf(
                        pats,
                        record_row(fields@, names)[i],
                    ) by {
                        lemma_find_field_wf(fields@, names[i]);
                    }
                },
                Pat::TupleStruct { enum_id, variant, args } => {},
                Pat::Ref { pat } => {},
            }
        },
    }
}

/// The specialized matrix's rows all have the specialized width and stay
/// well-formed.
pub proof fn lemma_specialize_wf(
    pats: Seq<Pat>,
    meta: Meta,
    m: Seq<Seq<PatIdOrWild>>,
    c: Ctor,
    w: int,
)
    requires
        pats_wf(pats, meta),
        w > 0,
        forall|i: int| 0 <= i < m.len() ==> m[i].len() == w && stack_wf(pats, #[trigger] m[i]),
    ensures
        forall|i: int| 0 <= i < specialize(pats, meta, m, c).len()
            ==> (#[trigger] specialize(pats, meta, m, c)[i]).len() == ctor_arity(meta, c) + w - 1
                && stack_wf(pats, specialize(pats, meta, m, c)[i]),
    decreases m.len(),
{
    if m.len() > 0 {
        let rest = m.drop_first();
        assert(forall|k: int| 0 <= k < rest.len() ==> rest[k] == m[k + 1]);
        lemma_specialize_wf(pats, meta, rest, c, w);
        let s = specialize(pats, meta, rest, c);
        match row_specializes(pats, meta, m[0], c) {
            Some(r) => {
                lemma_sub_row_wf(pats, meta, m[0][0], c);
                lemma_stack_size_concat(pats, sub_row(pats, meta, m[0][0], c), m[0].drop_first());
                assert(r == sub_row(pats, meta, m[0][0], c) + m[0].drop_first());
                assert(r.len() == ctor_arity(meta, c) + w - 1);
                assert forall|k: int| 0 <= k < r.len() implies pow_wf(pats, r[k]) by {
                    if k < ctor_arity(meta, c) {
                        assert(r[k] == sub_row(pats, meta, m[0][0], c)[k]);
                    } else {
                        assert(r[k] == m[0].drop_first()[k - ctor_arity(meta, c)]);
                        assert(m[0].drop_first()[k - ctor_arity(meta, c)] == m[0][k - ctor_arity(
                            meta,
                            c,
                        ) + 1]);
                    }
                }
                assert((seq![r] + s)[0] == r);
                assert((seq![r] + s).drop_first() =~= s);
                assert forall|i: int| 0 <= i < (seq![r] + s).len() implies (#[trigger] (seq![r]
                    + s)[i]).len() == ctor_arity(meta, c) + w - 1 && stack_wf(
                    pats,
                    (seq![r] + s)[i],
                ) by {
                    if i > 0 {
                        assert((seq![r] + s)[i] == s[i - 1]);
                    }
                }
            },
            None => {},
        }
    }
}

pub proof fn lemma_default_wf(pats: Seq<Pat>, m: Seq<Seq<PatIdOrWild>>, w: int)
    requires
        w > 0,
        forall|i: int| 0 <= i < m.len() ==> m[i].len() == w && stack_wf(pats, #[trigger] m[i]),
    ensures
        forall|i: int| 0 <= i < default_matrix(pats, m).len()
            ==> (#[trigger] default_matrix(pats, m)[i]).len() == w - 1 && stack_wf(
                pats,
                default_matrix(pats, m)[i],
            ),
    decreases m.len(),
{
    if m.len() > 0 {
        let rest = m.drop_first();
        assert(forall|k: int| 0 <= k < rest.len() ==> rest[k] == m[k + 1]);
        lemma_default_wf(pats, rest, w);
        let d = default_matrix(pats, rest);
        if m[0].len() > 0 && head_ctor(pats, m[0][0]) is None {
            let r = m[0].drop_first();
            assert forall|k: int| 0 <= k < r.len() implies pow_wf(pats, r[k]) by {
                assert(r[k] == m[0][k + 1]);
            }
            assert((seq![r] + d)[0] == r);
            assert((seq![r] + d).drop_first() =~= d);
            assert forall|i: int| 0 <= i < (seq![r] + d).len() implies (#[trigger] (seq![r]
                + d)[i]).len() == w - 1 && stack_wf(pats, (seq![r] + d)[i]) by {
                if i > 0 {
                    assert((seq![r] + d)[i] == d[i - 1]);
                }
            }
        }
    }
}

// ---------------------------------------------------------------------
// The usefulness decision itself.
// ---------------------------------------------------------------------

/// The observed constructors are never more numerous than the rows.
pub proof fn lemma_observed_len_le(pats: Seq<Pat>, m: Seq<Seq<PatIdOrWild>>)
    ensures
        observed(pats, m).len() <= m.len(),
    decreases m.len(),
{
    if m.len() > 0 {
        lemma_observed_len_le(pats, m.drop_first());
    }
}

/// What `any_useful` assumes: the matrix and tail are well-formed, the
/// rows are one column wider than the tail, and every constructor still
/// to be tried heads some row.
pub open spec fn any_wf(
    pats: Seq<Pat>,
    meta: Meta,
    m: Seq<Seq<PatIdOrWild>>,
    tail: Seq<PatIdOrWild>,
    obs: Seq<Ctor>,
) -> bool {
    &&& pats_wf(pats, meta)
    &&& meta_wf(meta)
    &&& stack_wf(pats, tail)
    &&& forall|i: int| 0 <= i < m.len() ==> m[i].len() == tail.len() + 1 && stack_wf(pats, m[i])
    &&& forall|j: int| 0 <= j < obs.len() ==> ctor_observed_in(pats, m, #[trigger] obs[j])
}

/// Whether the query row `q` is useful against the matrix `m`: whether
/// some value matched by `q` is matched by no row of `m`. For a query of
/// one wildcard this is exactly "the rows are not exhaustive".
pub open spec fn useful(
    pats: Seq<Pat>,
    meta: Meta,
    m: Seq<Seq<PatIdOrWild>>,
    q: Seq<PatIdOrWild>,
) -> bool
    decreases stack_size(pats, q), matrix_size(pats, m), q.len(), m.len() + 1,
        when useful_wf(pats, meta, m, q)
        via useful_decreases
{
    if q.len() == 0 {
        m.len() == 0
    } else {
        match head_ctor(pats, q[0]) {
            Some(c) => useful(
                pats,
                meta,
                specialize(pats, meta, m, c),
                sub_row(pats, meta, q[0], c) + q.drop_first(),
            ),
            None => {
                if is_complete(meta, observed(pats, m)) {
                    any_useful(pats, meta, m, q.drop_first(), observed(pats, m))
                } else {
                    useful(pats, meta, default_matrix(pats, m), q.drop_first())
                }
            },
        }
    }
}

/// Whether a wildcard head is useful for some constructor in `obs`: each
/// is tried in turn against the matrix specialized by it, short-circuiting
/// on the first useful one.
pub open spec fn any_useful(
    pats: Seq<Pat>,
    meta: Meta,
    m: Seq<Seq<PatIdOrWild>>,
    tail: Seq<PatIdOrWild>,
    obs: Seq<Ctor>,
) -> bool
    decreases stack_size(pats, tail), matrix_size(pats, m), tail.len() + 1, obs.len(),
        when any_wf(pats, meta, m, tail, obs)
        via any_useful_decreases
{
    if obs.len() == 0 {
        false
    } else {
        useful(
            pats,
            meta,
            specialize(pats, meta, m, obs[0]),
            wild_row(ctor_arity(meta, obs[0])) + tail,
        ) || any_useful(pats, meta, m, tail, obs.drop_first())
    }
}

#[via_fn]
proof fn any_useful_decreases(
    pats: Seq<Pat>,
    meta: Meta,
    m: Seq<Seq<PatIdOrWild>>,
    tail: Seq<PatIdOrWild>,
    obs: Seq<Ctor>,
) {
    if any_wf(pats, meta, m, tail, obs) && obs.len() > 0 {
        lemma_specialize_size_lt(pats, meta, m, obs[0]);
        lemma_wild_row_size(pats, ctor_arity(meta, obs[0]));
        lemma_stack_size_concat(pats, wild_row(ctor_arity(meta, obs[0])), tail);
    }
}

// ---------------------------------------------------------------------
// Appending one row at a time: how the recursive definitions above grow
// at the back, which is the order the executable engine builds them in.
// ---------------------------------------------------------------------

pub proof fn lemma_specialize_snoc(
    pats: Seq<Pat>,
    meta: Meta,
    m: Seq<Seq<PatIdOrWild>>,
    row: Seq<PatIdOrWild>,
    c: Ctor,
)
    ensures
        specialize(pats, meta, m.push(row), c) == specialize(pats, meta, m, c) + (
        match row_specializes(pats, meta, row, c) {
            Some(r) => seq![r],
            None => Seq::<Seq<PatIdOrWild>>::empty(),
        }),
    decreases m.len(),
{
    if m.len() == 0 {
        assert(m.push(row) =~= seq![row]);
        assert(seq![row][0] == row);
        assert(seq![row].drop_first() =~= Seq::<Seq<PatIdOrWild>>::empty());
        assert(specialize(pats, meta, Seq::<Seq<PatIdOrWild>>::empty(), c)
            == Seq::<Seq<PatIdOrWild>>::empty());
        match row_specializes(pats, meta, row, c) {
            Some(r) => {
                assert(specialize(pats, meta, m.push(row), c) =~= Seq::<Seq<PatIdOrWild>>::empty()
                    + seq![r]);
                assert(specialize(pats, meta, m, c) + seq![r] =~= Seq::<Seq<PatIdOrWild>>::empty()
                    + seq![r]);
            },
            None => {
                assert(specialize(pats, meta, m, c) + Seq::<Seq<PatIdOrWild>>::empty()
                    =~= specialize(pats, meta, m, c));
            },
        }
    } else {
        assert(m.push(row)[0] == m[0]);
        assert(m.push(row).drop_first() =~= m.drop_first().push(row));
        lemma_specialize_snoc(pats, meta, m.drop_first(), row, c);
        let tailm = specialize(pats, meta, m.drop_first(), c);
        let tailp = specialize(pats, meta, m.drop_first().push(row), c);
        match row_specializes(pats, meta, m[0], c) {
            Some(r0) => {
                assert(specialize(pats, meta, m.push(row), c) == seq![r0] + tailp);
                assert(specialize(pats, meta, m, c) == seq![r0] + tailm);
                match row_specializes(pats, meta, row, c) {
                    Some(r) => {
                        assert(seq![r0] + (tailm + seq![r]) =~= (seq![r0] + tailm) + seq![r]);
                    },
                    None => {
                        assert(tailm + Seq::<Seq<PatIdOrWild>>::empty() =~= tailm);
                        assert((seq![r0] + tailm) + Seq::<Seq<PatIdOrWild>>::empty()
                            =~= seq![r0] + tailm);
                    },
                }
            },
            None => {},
        }
    }
}

pub proof fn lemma_default_snoc(pats: Seq<Pat>, m: Seq<Seq<PatIdOrWild>>, row: Seq<PatIdOrWild>)
    ensures
        default_matrix(pats, m.push(row)) == default_matrix(pats, m) + (
        if row.len() > 0 && head_ctor(pats, row[0]) is None {
            seq![row.drop_first()]
        } else {
            Seq::<Seq<PatIdOrWild>>::empty()
        }),
    decreases m.len(),
{
    if m.len() == 0 {
        assert(m.push(row) =~= seq![row]);
        assert(seq![row][0] == row);
        assert(seq![row].drop_first() =~= Seq::<Seq<PatIdOrWild>>::empty());
        assert(default_matrix(pats, Seq::<Seq<PatIdOrWild>>::empty())
            == Seq::<Seq<PatIdOrWild>>::empty());
        if row.len() > 0 && head_ctor(pats, row[0]) is None {
            assert(default_matrix(pats, m.push(row)) =~= Seq::<Seq<PatIdOrWild>>::empty()
                + seq![row.drop_first()]);
            assert(default_matrix(pats, m) + seq![row.drop_first()]
                =~= Seq::<Seq<PatIdOrWild>>::empty() + seq![row.drop_first()]);
        } else {
            assert(default_matrix(pats, m) + Seq::<Seq<PatIdOrWild>>::empty() =~= default_matrix(
                pats,
                m,
            ));
        }
    } else {
        assert(m.push(row)[0] == m[0]);
        assert(m.push(row).drop_first() =~= m.drop_first().push(row));
        lemma_default_snoc(pats, m.drop_first(), row);
        let tailm = default_matrix(pats, m.drop_first());
        let app = if row.len() > 0 && head_ctor(pats, row[0]) is None {
            seq![row.drop_first()]
        } else {
            Seq::<Seq<PatIdOrWild>>::empty()
        };
        if m[0].len() > 0 && head_ctor(pats, m[0][0]) is None {
            assert(seq![m[0].drop_first()] + (tailm + app) =~= (seq![m[0].drop_first()] + tailm)
                + app);
        }
    }
}

pub proof fn lemma_observed_snoc(pats: Seq<Pat>, m: Seq<Seq<PatIdOrWild>>, row: Seq<PatIdOrWild>)
    ensures
        observed(pats, m.push(row)) == observed(pats, m) + (
        if row.len() > 0 {
            match head_ctor(pats, row[0]) {
                Some(c) => seq![c],
                None => Seq::<Ctor>::empty(),
            }
        } else {
            Seq::<Ctor>::empty()
        }),
    decreases m.len(),
{
    let app = if row.len() > 0 {
        match head_ctor(pats, row[0]) {
            Some(c) => seq![c],
            None => Seq::<Ctor>::empty(),
        }
    } else {
        Seq::<Ctor>::empty()
    };
    if m.len() == 0 {
        assert(m.push(row) =~= seq![row]);
        assert(seq![row][0] == row);
        assert(seq![row].drop_first() =~= Seq::<Seq<PatIdOrWild>>::empty());
        assert(observed(pats, Seq::<Seq<PatIdOrWild>>::empty()) == Seq::<Ctor>::empty());
        assert(observed(pats, m.push(row)) =~= app);
        assert(observed(pats, m) + app =~= app);
    } else {
        assert(m.push(row)[0] == m[0]);
        assert(m.push(row).drop_first() =~= m.drop_first().push(row));
        lemma_observed_snoc(pats, m.drop_first(), row);
        let tailm = observed(pats, m.drop_first());
        if m[0].len() > 0 && head_ctor(pats, m[0][0]) is Some {
            let c0 = head_ctor(pats, m[0][0])->Some_0;
            assert(seq![c0] + (tailm + app) =~= (seq![c0] + tailm) + app);
        }
    }
}

#[via_fn]
proof fn useful_decreases(pats: Seq<Pat>, meta: Meta, m: Seq<Seq<PatIdOrWild>>, q: Seq<PatIdOrWild>) {
    if useful_wf(pats, meta, m, q) && q.len() > 0 {
        match head_ctor(pats, q[0]) {
            Some(c) => {
                let id = q[0]->PatId_0;
                lemma_sub_row_size(pats, meta, id, c);
                lemma_stack_size_concat(pats, sub_row(pats, meta, q[0], c), q.drop_first());
                assert(stack_size(pats, q) == pow_size(pats, q[0]) + stack_size(
                    pats,
                    q.drop_first(),
                ));
            },
            None => {
                assert(pow_size(pats, q[0]) == 0);
                assert(stack_size(pats, q) == pow_size(pats, q[0]) + stack_size(
                    pats,
                    q.drop_first(),
                ));
                if is_complete(meta, observed(pats, m)) {
                    lemma_observed_len_le(pats, m);
                } else {
                    lemma_default_size_le(pats, m);
                }
            },
        }
    }
}

// ---------------------------------------------------------------------
// Laws of the engine: a matrix with an all-wildcard row covers every
// value, and a sum-type column whose every arm is covered by its own
// constructor applied to wildcards is exhaustive.
// ---------------------------------------------------------------------

/// A row every column of which is a wildcard (or a binding, which matches
/// like one).
pub open spec fn all_wild_row(pats: Seq<Pat>, row: Seq<PatIdOrWild>) -> bool {
    forall|k: int| 0 <= k < row.len() ==> head_ctor(pats, #[trigger] row[k]) is None
}

pub open spec fn has_wild_row(pats: Seq<Pat>, m: Seq<Seq<PatIdOrWild>>) -> bool {
    exists|i: int| 0 <= i < m.len() && all_wild_row(pats, #[trigger] m[i])
}

/// A kept row keeps its place: its specialization is in the specialized
/// matrix.
pub proof fn lemma_specialize_keeps(
    pats: Seq<Pat>,
    meta: Meta,
    m: Seq<Seq<PatIdOrWild>>,
    c: Ctor,
    i: int,
)
    requires
        0 <= i < m.len(),
        row_specializes(pats, meta, m[i], c) is Some,
    ensures
        exists|i2: int|
            0 <= i2 < specialize(pats, meta, m, c).len() && specialize(pats, meta, m, c)[i2]
                == row_specializes(pats, meta, m[i], c)->Some_0,
    decreases m.len(),
{
    let rest = m.drop_first();
    assert(forall|k: int| 0 <= k < rest.len() ==> rest[k] == m[k + 1]);
    let s = specialize(pats, meta, rest, c);
    if i == 0 {
        match row_specializes(pats, meta, m[0], c) {
            Some(r) => {
                assert((seq![r] + s)[0] == r);
                assert(specialize(pats, meta, m, c)[0] == r);
            },
            None => {},
        }
    } else {
        lemma_specialize_keeps(pats, meta, rest, c, i - 1);
        let i2 = choose|i2: int|
            0 <= i2 < s.len() && s[i2] == row_specializes(pats, meta, rest[i - 1], c)->Some_0;
        match row_specializes(pats, meta, m[0], c) {
            Some(r0) => {
                assert((seq![r0] + s)[i2 + 1] == s[i2]);
                assert(specialize(pats, meta, m, c)[i2 + 1] == s[i2]);
            },
            None => {
                assert(specialize(pats, meta, m, c)[i2] == s[i2]);
            },
        }
    }
}

/// A wildcard-headed row keeps its place in the default matrix.
pub proof fn lemma_default_keeps(pats: Seq<Pat>, m: Seq<Seq<PatIdOrWild>>, i: int)
    requires
        0 <= i < m.len(),
        m[i].len() > 0,
        head_ctor(pats, m[i][0]) is None,
    ensures
        exists|i2: int|
            0 <= i2 < default_matrix(pats, m).len() && default_matrix(pats, m)[i2]
                == m[i].drop_first(),
    decreases m.len(),
{
    let rest = m.drop_first();
    assert(forall|k: int| 0 <= k < rest.len() ==> rest[k] == m[k + 1]);
    let d = default_matrix(pats, rest);
    if i == 0 {
        assert((seq![m[0].drop_first()] + d)[0] == m[0].drop_first());
        assert(default_matrix(pats, m)[0] == m[0].drop_first());
    } else {
        lemma_default_keeps(pats, rest, i - 1);
        let i2 = choose|i2: int| 0 <= i2 < d.len() && d[i2] == rest[i - 1].drop_first();
        if m[0].len() > 0 && head_ctor(pats, m[0][0]) is None {
            assert((seq![m[0].drop_first()] + d)[i2 + 1] == d[i2]);
            assert(default_matrix(pats, m)[i2 + 1] == d[i2]);
        } else {
            assert(default_matrix(pats, m)[i2] == d[i2]);
        }
    }
}

/// The expansion of a wildcard-headed row under any constructor is
/// all-wildcard again.
pub proof fn lemma_wild_row_specializes(
    pats: Seq<Pat>,
    meta: Meta,
    row: Seq<PatIdOrWild>,
    c: Ctor,
)
    requires
        stack_wf(pats, row),
        row.len() > 0,
        all_wild_row(pats, row),
    ensures
        row_specializes(pats, meta, row, c) is Some,
        all_wild_row(pats, row_specializes(pats, meta, row, c)->Some_0),
{
    let sub = sub_row(pats, meta, row[0], c);
    assert forall|k: int| 0 <= k < sub.len() implies head_ctor(pats, #[trigger] sub[k])
        is None by {
        match row[0] {
            PatIdOrWild::Wild => {
                assert(sub[k] == PatIdOrWild::Wild);
            },
            PatIdOrWild::PatId(id) => {
                assert(head_ctor(pats, row[0]) is None);
                assert(pats[id as int] is Wild);
                assert(sub[k] == PatIdOrWild::Wild);
            },
        }
    }
    let r = sub + row.drop_first();
    assert forall|k: int| 0 <= k < r.len() implies head_ctor(pats, #[trigger] r[k]) is None by {
        if k < sub.len() {
            assert(r[k] == sub[k]);
        } else {
            assert(r[k] == row.drop_first()[k - sub.len()]);
            assert(row.drop_first()[k - sub.len()] == row[k - sub.len() + 1]);
        }
    }
}

/// An all-wildcard row covers every value: no query is useful against a
/// matrix that holds one. In particular a match with an unguarded
/// wildcard or binding arm is never reported.
pub proof fn lemma_wild_row_not_useful(
    pats: Seq<Pat>,
    meta: Meta,
    m: Seq<Seq<PatIdOrWild>>,
    q: Seq<PatIdOrWild>,
)
    requires
        useful_wf(pats, meta, m, q),
        has_wild_row(pats, m),
    ensures
        !useful(pats, meta, m, q),
    decreases stack_size(pats, q), matrix_size(pats, m), q.len(), m.len() + 1,
{
    let i = choose|i: int| 0 <= i < m.len() && all_wild_row(pats, #[trigger] m[i]);
    if q.len() == 0 {
        assert(m.len() > 0);
    } else {
        match head_ctor(pats, q[0]) {
            Some(c) => {
                let id = q[0]->PatId_0;
                lemma_wild_row_specializes(pats, meta, m[i], c);
                lemma_specialize_keeps(pats, meta, m, c, i);
                assert(has_wild_row(pats, specialize(pats, meta, m, c)));
                lemma_sub_row_wf(pats, meta, q[0], c);
                lemma_specialize_wf(pats, meta, m, c, q.len() as int);
                let sq = sub_row(pats, meta, q[0], c) + q.drop_first();
                assert forall|k: int| 0 <= k < sq.len() implies pow_wf(pats, sq[k]) by {
                    if k < ctor_arity(meta, c) {
                        assert(sq[k] == sub_row(pats, meta, q[0], c)[k]);
                    } else {
                        assert(sq[k] == q.drop_first()[k - ctor_arity(meta, c)]);
                        assert(q.drop_first()[k - ctor_arity(meta, c)] == q[k - ctor_arity(
                            meta,
                            c,
                        ) + 1]);
                    }
                }
                lemma_sub_row_size(pats, meta, id, c);
                lemma_stack_size_concat(pats, sub_row(pats, meta, q[0], c), q.drop_first());
                assert(stack_size(pats, q) == pow_size(pats, q[0]) + stack_size(
                    pats,
                    q.drop_first(),
                ));
                lemma_specialize_size_le(pats, meta, m, c);
                lemma_wild_row_not_useful(pats, meta, specialize(pats, meta, m, c), sq);
            },
            None => {
                assert(pow_size(pats, q[0]) == 0);
                assert(stack_size(pats, q) == pow_size(pats, q[0]) + stack_size(
                    pats,
                    q.drop_first(),
                ));
                if is_complete(meta, observed(pats, m)) {
                    assert forall|jj: int| 0 <= jj < observed(pats, m).len() implies
                        ctor_observed_in(pats, m, #[trigger] observed(pats, m)[jj]) by {
                        lemma_observed_witness(pats, m, jj);
                    }
                    assert forall|k: int| 0 <= k < q.drop_first().len() implies pow_wf(
                        pats,
                        q.drop_first()[k],
                    ) by {
                        assert(q.drop_first()[k] == q[k + 1]);
                    }
                    assert(any_wf(pats, meta, m, q.drop_first(), observed(pats, m)));
                    lemma_observed_len_le(pats, m);
                    lemma_wild_row_not_any_useful(pats, meta, m, q.drop_first(), observed(pats, m));
                } else {
                    lemma_default_keeps(pats, m, i);
                    assert(all_wild_row(pats, m[i].drop_first())) by {
                        assert forall|k: int| 0 <= k < m[i].drop_first().len() implies head_ctor(
                            pats,
                            #[trigger] m[i].drop_first()[k],
                        ) is None by {
                            assert(m[i].drop_first()[k] == m[i][k + 1]);
                        }
                    }
                    assert(has_wild_row(pats, default_matrix(pats, m)));
                    lemma_default_wf(pats, m, q.len() as int);
                    assert forall|k: int| 0 <= k < q.drop_first().len() implies pow_wf(
                        pats,
                        q.drop_first()[k],
                    ) by {
                        assert(q.drop_first()[k] == q[k + 1]);
                    }
                    lemma_default_size_le(pats, m);
                    lemma_wild_row_not_useful(pats, meta, default_matrix(pats, m), q.drop_first());
                }
            },
        }
    }
}

proof fn lemma_wild_row_not_any_useful(
    pats: Seq<Pat>,
    meta: Meta,
    m: Seq<Seq<PatIdOrWild>>,
    tail: Seq<PatIdOrWild>,
    obs: Seq<Ctor>,
)
    requires
        any_wf(pats, meta, m, tail, obs),
        has_wild_row(pats, m),
    ensures
        !any_useful(pats, meta, m, tail, obs),
    decreases stack_size(pats, tail), matrix_size(pats, m), tail.len() + 1, obs.len(),
{
    if obs.len() > 0 {
        let c = obs[0];
        let i = choose|i: int| 0 <= i < m.len() && all_wild_row(pats, #[trigger] m[i]);
        lemma_wild_row_specializes(pats, meta, m[i], c);
        lemma_specialize_keeps(pats, meta, m, c, i);
        assert(has_wild_row(pats, specialize(pats, meta, m, c)));
        lemma_specialize_wf(pats, meta, m, c, tail.len() as int + 1);
        let sq = wild_row(ctor_arity(meta, c)) + tail;
        assert forall|k: int| 0 <= k < sq.len() implies pow_wf(pats, sq[k]) by {
            if k < ctor_arity(meta, c) {
                assert(sq[k] == wild_row(ctor_arity(meta, c))[k]);
            } else {
                assert(sq[k] == tail[k - ctor_arity(meta, c)]);
            }
        }
        lemma_specialize_size_lt(pats, meta, m, c);
        lemma_wild_row_size(pats, ctor_arity(meta, c));
        lemma_stack_size_concat(pats, wild_row(ctor_arity(meta, c)), tail);
        lemma_wild_row_not_useful(pats, meta, specialize(pats, meta, m, c), sq);
        assert forall|jj: int| 0 <= jj < obs.drop_first().len() implies ctor_observed_in(
            pats,
            m,
            #[trigger] obs.drop_first()[jj],
        ) by {
            assert(obs.drop_first()[jj] == obs[jj + 1]);
        }
        lemma_wild_row_not_any_useful(pats, meta, m, tail, obs.drop_first());
    }
}

/// Whether some row is exactly the constructor `c` applied to wildcards:
/// its head is `c` and its expansion is all-wildcard.
pub open spec fn covered_in(pats: Seq<Pat>, meta: Meta, m: Seq<Seq<PatIdOrWild>>, c: Ctor) -> bool {
    exists|i: int|
        0 <= i < m.len() && #[trigger] m[i].len() > 0 && head_ctor(pats, m[i][0]) == Some(c)
            && all_wild_row(pats, sub_row(pats, meta, m[i][0], c))
}

proof fn lemma_covered_not_any_useful(
    pats: Seq<Pat>,
    meta: Meta,
    m: Seq<Seq<PatIdOrWild>>,
    obs: Seq<Ctor>,
)
    requires
        any_wf(pats, meta, m, Seq::<PatIdOrWild>::empty(), obs),
        forall|j: int| 0 <= j < obs.len() ==> covered_in(pats, meta, m, #[trigger] obs[j]),
    ensures
        !any_useful(pats, meta, m, Seq::<PatIdOrWild>::empty(), obs),
    decreases obs.len(),
{
    let tail = Seq::<PatIdOrWild>::empty();
    if obs.len() > 0 {
        let c = obs[0];
        assert(covered_in(pats, meta, m, c));
        let i = choose|i: int|
            0 <= i < m.len() && #[trigger] m[i].len() > 0 && head_ctor(pats, m[i][0]) == Some(c)
                && all_wild_row(pats, sub_row(pats, meta, m[i][0], c));
        assert(row_specializes(pats, meta, m[i], c) is Some);
        let r = row_specializes(pats, meta, m[i], c)->Some_0;
        assert(m[i].len() == 1);
        assert(m[i].drop_first() =~= Seq::<PatIdOrWild>::empty());
        assert(sub_row(pats, meta, m[i][0], c) + m[i].drop_first() =~= sub_row(
            pats,
            meta,
            m[i][0],
            c,
        ));
        assert(all_wild_row(pats, r));
        lemma_specialize_keeps(pats, meta, m, c, i);
        assert(has_wild_row(pats, specialize(pats, meta, m, c)));
        lemma_specialize_wf(pats, meta, m, c, 1);
        let sq = wild_row(ctor_arity(meta, c)) + tail;
        assert(sq =~= wild_row(ctor_arity(meta, c)));
        assert forall|k: int| 0 <= k < sq.len() implies pow_wf(pats, sq[k]) by {
            assert(sq[k] == PatIdOrWild::Wild);
        }
        assert(useful_wf(pats, meta, specialize(pats, meta, m, c), sq));
        lemma_wild_row_not_useful(pats, meta, specialize(pats, meta, m, c), sq);
        assert forall|jj: int| 0 <= jj < obs.drop_first().len() implies ctor_observed_in(
            pats,
            m,
            #[trigger] obs.drop_first()[jj],
        ) by {
            assert(obs.drop_first()[jj] == obs[jj + 1]);
        }
        assert forall|jj: int| 0 <= jj < obs.drop_first().len() implies covered_in(
            pats,
            meta,
            m,
            #[trigger] obs.drop_first()[jj],
        ) by {
            assert(obs.drop_first()[jj] == obs[jj + 1]);
        }
        lemma_covered_not_any_useful(pats, meta, m, obs.drop_first());
    }
}

/// A row whose head is a constructor puts that constructor in the
/// observed set.
pub proof fn lemma_head_in_observed(pats: Seq<Pat>, m: Seq<Seq<PatIdOrWild>>, i: int, c: Ctor)
    requires
        0 <= i < m.len(),
        m[i].len() > 0,
        head_ctor(pats, m[i][0]) == Some(c),
    ensures
        observed(pats, m).contains(c),
    decreases m.len(),
{
    let rest = m.drop_first();
    assert(forall|k: int| 0 <= k < rest.len() ==> rest[k] == m[k + 1]);
    if i == 0 {
        assert(observed(pats, m)[0] == c);
    } else {
        lemma_head_in_observed(pats, rest, i - 1, c);
        let j = choose|j: int| 0 <= j < observed(pats, rest).len() && observed(pats, rest)[j] == c;
        if m[0].len() > 0 && head_ctor(pats, m[0][0]) is Some {
            assert(observed(pats, m)[j + 1] == c);
        } else {
            assert(observed(pats, m)[j] == c);
        }
    }
}

/// The exhaustive-cover law: when the column is a sum type and every one
/// of its arms is covered by a row that is exactly that arm's constructor
/// applied to wildcards, while every other row is wildcard- or same-enum-
/// headed, a wildcard query is not useful: the match is exhaustive.
pub proof fn lemma_full_cover_not_useful(
    pats: Seq<Pat>,
    meta: Meta,
    m: Seq<Seq<PatIdOrWild>>,
    e: usize,
)
    requires
        useful_wf(pats, meta, m, seq![PatIdOrWild::Wild]),
        (e as int) < meta.enums@.len(),
        meta.enums@[e as int].variant_arities@.len() > 0,
        forall|v: usize|
            (v as int) < meta.enums@[e as int].variant_arities@.len() ==> #[trigger] covered_in(
                pats,
                meta,
                m,
                Ctor::Variant(e, v),
            ),
        forall|i: int| 0 <= i < m.len() && #[trigger] m[i].len() > 0 ==> (match head_ctor(
            pats,
            m[i][0],
        ) {
            Some(c) => c matches Ctor::Variant(e2, _) && e2 == e,
            None => true,
        }),
    ensures
        !useful(pats, meta, m, seq![PatIdOrWild::Wild]),
{
    let q = seq![PatIdOrWild::Wild];
    assert(q[0] == PatIdOrWild::Wild);
    assert(head_ctor(pats, q[0]) is None);
    let obs = observed(pats, m);
    // the first arm's covering row shows the observed set is nonempty and
    // headed by an arm of the sum type
    assert(covered_in(pats, meta, m, Ctor::Variant(e, 0)));
    let i0 = choose|i: int|
        0 <= i < m.len() && #[trigger] m[i].len() > 0 && head_ctor(pats, m[i][0]) == Some(
            Ctor::Variant(e, 0),
        ) && all_wild_row(pats, sub_row(pats, meta, m[i][0], Ctor::Variant(e, 0)));
    lemma_head_in_observed(pats, m, i0, Ctor::Variant(e, 0));
    assert(obs.len() > 0);
    // every observed constructor heads some row, so it is an arm of `e`
    assert forall|j: int| 0 <= j < obs.len() implies (#[trigger] obs[j]) matches Ctor::Variant(
        e2,
        _,
    ) && e2 == e by {
        lemma_observed_witness(pats, m, j);
        let i = choose|i: int|
            0 <= i < m.len() && #[trigger] m[i].len() > 0 && head_ctor(pats, m[i][0]) == Some(
                obs[j],
            );
        assert(m[i].len() > 0);
    }
    assert(obs[0] matches Ctor::Variant(e2, _) && e2 == e);
    // every arm is observed, so the set is complete
    let av = meta.enums@[e as int].variant_arities;
    assert(av@.len() == av.len());
    assert forall|v: int| 0 <= v < meta.enums@[e as int].variant_arities@.len() implies
        #[trigger] obs.contains(Ctor::Variant(e, v as usize)) by {
        assert(((v as usize) as int) == v);
        assert(covered_in(pats, meta, m, Ctor::Variant(e, v as usize)));
        let i = choose|i: int|
            0 <= i < m.len() && #[trigger] m[i].len() > 0 && head_ctor(pats, m[i][0]) == Some(
                Ctor::Variant(e, v as usize),
            ) && all_wild_row(pats, sub_row(pats, meta, m[i][0], Ctor::Variant(e, v as usize)));
        lemma_head_in_observed(pats, m, i, Ctor::Variant(e, v as usize));
    }
    assert(is_complete(meta, obs));
    // and each observed constructor's branch is closed by its covering row
    assert forall|jj: int| 0 <= jj < obs.len() implies ctor_observed_in(
        pats,
        m,
        #[trigger] obs[jj],
    ) by {
        lemma_observed_witness(pats, m, jj);
    }
    assert forall|jj: int| 0 <= jj < obs.len() implies covered_in(
        pats,
        meta,
        m,
        #[trigger] obs[jj],
    ) by {
        assert(obs[jj] matches Ctor::Variant(e2, v2) && e2 == e);
        let v2 = obs[jj]->Variant_1;
        assert((v2 as int) < meta.enums@[e as int].variant_arities@.len()) by {
            lemma_observed_witness(pats, m, jj);
            let i = choose|i: int|
                0 <= i < m.len() && #[trigger] m[i].len() > 0 && head_ctor(pats, m[i][0]) == Some(
                    obs[jj],
                );
            assert(m[i][0] is PatId);
            let id = m[i][0]->PatId_0;
            assert(pow_wf(pats, m[i][0]));
            assert(pat_wf_at(pats, meta, id as int));
        }
        assert(covered_in(pats, meta, m, Ctor::Variant(e, v2)));
    }
    assert(q.drop_first() =~= Seq::<PatIdOrWild>::empty());
    assert(any_wf(pats, meta, m, Seq::<PatIdOrWild>::empty(), obs));
    lemma_covered_not_any_useful(pats, meta, m, obs);
}

// ---------------------------------------------------------------------
// The executable engine, each step proved equal to its mathematical
// counterpart above.
// ---------------------------------------------------------------------

pub proof fn lemma_find_field_skip(fields: Seq<FieldPat>, name: u64, k: int)
    requires
        0 <= k <= fields.len(),
        forall|j: int| 0 <= j < k ==> (#[trigger] fields[j]).name != name,
    ensures
        find_field(fields, name) == find_field(fields.skip(k), name),
    decreases k,
{
    if k > 0 {
        assert(forall|j: int| 0 <= j < k - 1 ==> fields.drop_first()[j] == fields[j + 1]);
        lemma_find_field_skip(fields.drop_first(), name, k - 1);
        assert(fields.drop_first().skip(k - 1) =~= fields.skip(k));
    } else {
        assert(fields.skip(0) =~= fields);
    }
}

fn find_field_pat(fields: &Vec<FieldPat>, name: u64) -> (r: PatIdOrWild)
    ensures
        r == find_field(fields@, name),
{
    let mut i: usize = 0;
    while i < fields.len()
        invariant
            i <= fields.len(),
            forall|j: int| 0 <= j < i ==> (#[trigger] fields@[j]).name != name,
        decreases fields.len() - i,
    {
        if fields[i].name == name {
            proof {
                lemma_find_field_skip(fields@, name, i as int);
                assert(fields@.skip(i as int)[0] == fields@[i as int]);
            }
            return PatIdOrWild::PatId(fields[i].pat);
        }
        i += 1;
    }
    proof {
        lemma_find_field_skip(fields@, name, fields@.len() as int);
        assert(fields@.skip(fields@.len() as int) =~= Seq::<FieldPat>::empty());
    }
    PatIdOrWild::Wild
}

fn head_ctor_of(pats: &Vec<Pat>, p: PatIdOrWild) -> (r: Option<Ctor>)
    ensures
        r == head_ctor(pats@, p),
{
    match p {
        PatIdOrWild::Wild => None,
        PatIdOrWild::PatId(id) => {
            if id < pats.len() {
                match &pats[id] {
                    Pat::Wild => None,
                    Pat::BoolLit { value } => Some(Ctor::Bool(*value)),
                    Pat::IntLit { value } => Some(Ctor::Int(*value)),
                    Pat::StrLit { value } => Some(Ctor::Str(*value)),
                    Pat::Tuple { args } => Some(Ctor::Tuple(args.len())),
                    Pat::Record { variant, .. } => Some(Ctor::Record(*variant)),
                    Pat::TupleStruct { enum_id, variant, .. } => Some(
                        Ctor::Variant(*enum_id, *variant),
                    ),
                    Pat::Ref { .. } => Some(Ctor::Ref),
                }
            } else {
                None
            }
        },
    }
}

fn ctor_arity_of(meta: &Meta, c: Ctor) -> (r: usize)
    ensures
        r as nat == ctor_arity(*meta, c),
{
    match c {
        Ctor::Bool(_) => 0,
        Ctor::Int(_) => 0,
        Ctor::Str(_) => 0,
        Ctor::Tuple(k) => k,
        Ctor::Record(v) => if v < meta.variants.len() {
            meta.variants[v].fields.len()
        } else {
            0
        },
        Ctor::Variant(e, i) => if e < meta.enums.len() && i < meta.enums[e].variant_arities.len() {
            meta.enums[e].variant_arities[i]
        } else {
            0
        },
        Ctor::Ref => 1,
    }
}

fn wild_row_of(n: usize) -> (r: Vec<PatIdOrWild>)
    ensures
        r@ == wild_row(n as nat),
{
    let mut r: Vec<PatIdOrWild> = Vec::new();
    let mut i: usize = 0;
    while i < n
        invariant
            i <= n,
            r@ == wild_row(i as nat),
        decreases n - i,
    {
        r.push(PatIdOrWild::Wild);
        proof {
            assert(wild_row(i as nat).push(PatIdOrWild::Wild) =~= wild_row((i + 1) as nat));
        }
        i += 1;
    }
    r
}

/// Pushes `q` without its head onto `r`.
fn append_tail(r: &mut Vec<PatIdOrWild>, q: &Vec<PatIdOrWild>)
    requires
        q@.len() >= 1,
    ensures
        final(r)@ == old(r)@ + q@.drop_first(),
{
    let mut k: usize = 1;
    proof {
        assert(r@ == old(r)@ + q@.subrange(1, 1)) by {
            assert(old(r)@ + q@.subrange(1, 1) =~= old(r)@);
        }
    }
    while k < q.len()
        invariant
            1 <= k <= q.len(),
            r@ == old(r)@ + q@.subrange(1, k as int),
        decreases q.len() - k,
    {
        r.push(q[k]);
        proof {
            assert(old(r)@ + q@.subrange(1, k as int + 1) =~= (old(r)@ + q@.subrange(
                1,
                k as int,
            )).push(q@[k as int]));
        }
        k += 1;
    }
    proof {
        assert(q@.subrange(1, q@.len() as int) =~= q@.drop_first());
    }
}

fn sub_row_of(pats: &Vec<Pat>, meta: &Meta, p: PatIdOrWild, c: Ctor) -> (r: Vec<PatIdOrWild>)
    requires
        pow_wf(pats@, p),
    ensures
        r@ == sub_row(pats@, *meta, p, c),
{
    match p {
        PatIdOrWild::Wild => {
            let a = ctor_arity_of(meta, c);
            wild_row_of(a)
        },
        PatIdOrWild::PatId(id) => {
            match &pats[id] {
                Pat::Wild => {
                    let a = ctor_arity_of(meta, c);
                    wild_row_of(a)
                },
                Pat::BoolLit { .. } => Vec::new(),
                Pat::IntLit { .. } => Vec::new(),
                Pat::StrLit { .. } => Vec::new(),
                Pat::Tuple { args } => ids_row_of(args),
                Pat::Record { variant, fields, .. } => {
                    if *variant < meta.variants.len() {
                        let names = &meta.variants[*variant].fields;
                        let mut r: Vec<PatIdOrWild> = Vec::new();
                        let mut i: usize = 0;
                        while i < names.len()
                            invariant
                                i <= names.len(),
                                r@ == record_row(fields@, names@.take(i as int)),
                            decreases names.len() - i,
                        {
                            let f = find_field_pat(fields, names[i]);
                            r.push(f);
                            proof {
                                assert(record_row(fields@, names@.take(i as int + 1))
                                    =~= record_row(fields@, names@.take(i as int)).push(
                                    find_field(fields@, names@[i as int]),
                                ));
                            }
                            i += 1;
                        }
                        proof {
                            assert(names@.take(names@.len() as int) =~= names@);
                        }
                        r
                    } else {
                        Vec::new()
                    }
                },
                Pat::TupleStruct { args, .. } => ids_row_of(args),
                Pat::Ref { pat } => {
                    let mut r: Vec<PatIdOrWild> = Vec::new();
                    r.push(PatIdOrWild::PatId(*pat));
                    proof {
                        assert(r@ =~= seq![PatIdOrWild::PatId(pats@[id as int]->Ref_pat)]);
                    }
                    r
                },
            }
        },
    }
}

fn ids_row_of(ids: &Vec<usize>) -> (r: Vec<PatIdOrWild>)
    ensures
        r@ == ids_row(ids@),
{
    let mut r: Vec<PatIdOrWild> = Vec::new();
    let mut i: usize = 0;
    while i < ids.len()
        invariant
            i <= ids.len(),
            r@ == ids_row(ids@.take(i as int)),
        decreases ids.len() - i,
    {
        r.push(PatIdOrWild::PatId(ids[i]));
        proof {
            assert(ids_row(ids@.take(i as int + 1)) =~= ids_row(ids@.take(i as int)).push(
                PatIdOrWild::PatId(ids@[i as int]),
            ));
        }
        i += 1;
    }
    proof {
        assert(ids@.take(ids@.len() as int) =~= ids@);
    }
    r
}

fn specialize_matrix(pats: &Vec<Pat>, meta: &Meta, m: &Matrix, c: Ctor) -> (r: Matrix)
    requires
        forall|i: int| 0 <= i < m.view_rows().len() ==> stack_wf(
            pats@,
            #[trigger] m.view_rows()[i],
        ),
    ensures
        r.view_rows() == specialize(pats@, *meta, m.view_rows(), c),
{
    let mut r = Matrix { rows: Vec::new() };
    let mut i: usize = 0;
    proof {
        assert(m.view_rows().take(0) =~= Seq::<Seq<PatIdOrWild>>::empty());
    }
    while i < m.rows.len()
        invariant
            i <= m.rows.len(),
            forall|k: int| 0 <= k < m.view_rows().len() ==> stack_wf(
                pats@,
                #[trigger] m.view_rows()[k],
            ),
            r.view_rows() == specialize(pats@, *meta, m.view_rows().take(i as int), c),
        decreases m.rows.len() - i,
    {
        let ghost rows_before = r.view_rows();
        let ghost srow = m.view_rows()[i as int];
        let row = &m.rows[i];
        assert(srow == row@);
        if row.len() > 0 {
            assert(pow_wf(pats@, row@[0]));
            let h = head_ctor_of(pats, row[0]);
            let keep: bool = match h {
                None => true,
                Some(c2) => c2 == c,
            };
            if keep {
                let mut nr = sub_row_of(pats, meta, row[0], c);
                append_tail(&mut nr, row);
                assert(row_specializes(pats@, *meta, srow, c) == Some(nr@));
                r.rows.push(nr);
                proof {
                    assert(r.view_rows() =~= rows_before.push(nr@));
                }
            } else {
                assert(row_specializes(pats@, *meta, srow, c) is None);
            }
        } else {
            assert(row_specializes(pats@, *meta, srow, c) is None);
        }
        proof {
            lemma_specialize_snoc(pats@, *meta, m.view_rows().take(i as int), srow, c);
            assert(m.view_rows().take(i as int).push(srow) =~= m.view_rows().take(i as int + 1));
            match row_specializes(pats@, *meta, srow, c) {
                Some(nr) => {
                    assert(specialize(pats@, *meta, m.view_rows().take(i as int + 1), c)
                        =~= rows_before.push(nr));
                },
                None => {
                    assert(specialize(pats@, *meta, m.view_rows().take(i as int), c)
                        + Seq::<Seq<PatIdOrWild>>::empty() =~= rows_before);
                },
            }
        }
        i += 1;
    }
    proof {
        assert(m.view_rows().take(m.view_rows().len() as int) =~= m.view_rows());
    }
    r
}

fn default_of(pats: &Vec<Pat>, m: &Matrix) -> (r: Matrix)
    ensures
        r.view_rows() == default_matrix(pats@, m.view_rows()),
{
    let mut r = Matrix { rows: Vec::new() };
    let mut i: usize = 0;
    proof {
        assert(m.view_rows().take(0) =~= Seq::<Seq<PatIdOrWild>>::empty());
    }
    while i < m.rows.len()
        invariant
            i <= m.rows.len(),
            r.view_rows() == default_matrix(pats@, m.view_rows().take(i as int)),
        decreases m.rows.len() - i,
    {
        let ghost rows_before = r.view_rows();
        let ghost srow = m.view_rows()[i as int];
        let row = &m.rows[i];
        assert(srow == row@);
        if row.len() > 0 {
            let h = head_ctor_of(pats, row[0]);
            if h.is_none() {
                let mut nr: Vec<PatIdOrWild> = Vec::new();
                append_tail(&mut nr, row);
                assert(nr@ =~= srow.drop_first());
                r.rows.push(nr);
                proof {
                    assert(r.view_rows() =~= rows_before.push(nr@));
                }
            }
        }
        proof {
            lemma_default_snoc(pats@, m.view_rows().take(i as int), srow);
            assert(m.view_rows().take(i as int).push(srow) =~= m.view_rows().take(i as int + 1));
            if srow.len() > 0 && head_ctor(pats@, srow[0]) is None {
                assert(default_matrix(pats@, m.view_rows().take(i as int + 1)) =~= rows_before.push(
                    srow.drop_first(),
                ));
            } else {
                assert(default_matrix(pats@, m.view_rows().take(i as int))
                    + Seq::<Seq<PatIdOrWild>>::empty() =~= rows_before);
            }
        }
        i += 1;
    }
    proof {
        assert(m.view_rows().take(m.view_rows().len() as int) =~= m.view_rows());
    }
    r
}

fn observed_of(pats: &Vec<Pat>, m: &Matrix) -> (r: Vec<Ctor>)
    ensures
        r@ == observed(pats@, m.view_rows()),
{
    let mut r: Vec<Ctor> = Vec::new();
    let mut i: usize = 0;
    proof {
        assert(m.view_rows().take(0) =~= Seq::<Seq<PatIdOrWild>>::empty());
    }
    while i < m.rows.len()
        invariant
            i <= m.rows.len(),
            r@ == observed(pats@, m.view_rows().take(i as int)),
        decreases m.rows.len() - i,
    {
        let ghost obs_before = r@;
        let ghost srow = m.view_rows()[i as int];
        let row = &m.rows[i];
        assert(srow == row@);
        if row.len() > 0 {
            let h = head_ctor_of(pats, row[0]);
            match h {
                Some(c) => {
                    r.push(c);
                },
                None => {},
            }
        }
        proof {
            lemma_observed_snoc(pats@, m.view_rows().take(i as int), srow);
            assert(m.view_rows().take(i as int).push(srow) =~= m.view_rows().take(i as int + 1));
            if srow.len() > 0 && head_ctor(pats@, srow[0]) is Some {
                assert(observed(pats@, m.view_rows().take(i as int + 1)) =~= obs_before.push(
                    head_ctor(pats@, srow[0])->Some_0,
                ));
            } else {
                assert(observed(pats@, m.view_rows().take(i as int)) + Seq::<Ctor>::empty()
                    =~= obs_before);
            }
        }
        i += 1;
    }
    proof {
        assert(m.view_rows().take(m.view_rows().len() as int) =~= m.view_rows());
    }
    r
}

fn contains_ctor(v: &Vec<Ctor>, c: Ctor) -> (r: bool)
    ensures
        r == v@.contains(c),
{
    let mut i: usize = 0;
    while i < v.len()
        invariant
            i <= v.len(),
            forall|k: int| 0 <= k < i ==> v@[k] != c,
        decreases v.len() - i,
    {
        if v[i] == c {
            return true;
        }
        i += 1;
    }
    false
}

fn complete_of(meta: &Meta, obs: &Vec<Ctor>) -> (r: bool)
    ensures
        r == is_complete(*meta, obs@),
{
    if obs.len() == 0 {
        return false;
    }
    match obs[0] {
        Ctor::Bool(_) => {
            let t = contains_ctor(obs, Ctor::Bool(true));
            let f = contains_ctor(obs, Ctor::Bool(false));
            t && f
        },
        Ctor::Int(_) => false,
        Ctor::Str(_) => false,
        Ctor::Tuple(_) => true,
        Ctor::Record(_) => true,
        Ctor::Variant(e, _) => {
            if e >= meta.enums.len() {
                return false;
            }
            let n = meta.enums[e].variant_arities.len();
            let mut i: usize = 0;
            while i < n
                invariant
                    i <= n,
                    (e as int) < meta.enums@.len(),
                    n == meta.enums@[e as int].variant_arities@.len(),
                    obs@[0] is Variant && obs@[0]->Variant_0 == e,
                    obs@.len() > 0,
                    forall|k: int| 0 <= k < i ==> #[trigger] obs@.contains(
                        Ctor::Variant(e, k as usize),
                    ),
                decreases n - i,
            {
                if !contains_ctor(obs, Ctor::Variant(e, i)) {
                    assert(!obs@.contains(Ctor::Variant(e, (i as int) as usize)));
                    return false;
                }
                i += 1;
            }
            true
        },
        Ctor::Ref => true,
    }
}

/// Decides whether the query row is useful against the matrix. With a
/// single-wildcard query this decides non-exhaustiveness of the rows.
pub fn is_useful(pats: &Vec<Pat>, meta: &Meta, m: &Matrix, q: &Vec<PatIdOrWild>) -> (r: bool)
    requires
        useful_wf(pats@, *meta, m.view_rows(), q@),
    ensures
        r == useful(pats@, *meta, m.view_rows(), q@),
    decreases stack_size(pats@, q@), matrix_size(pats@, m.view_rows()), q@.len(),
{
    if q.len() == 0 {
        return m.rows.len() == 0;
    }
    let ghost w = q@.len() as int;
    let head = q[0];
    match head_ctor_of(pats, head) {
        Some(c) => {
            let sm = specialize_matrix(pats, meta, m, c);
            let mut sq = sub_row_of(pats, meta, head, c);
            append_tail(&mut sq, q);
            proof {
                let id = head->PatId_0;
                lemma_sub_row_wf(pats@, *meta, head, c);
                lemma_specialize_wf(pats@, *meta, m.view_rows(), c, w);
                assert forall|k: int| 0 <= k < sq@.len() implies pow_wf(pats@, sq@[k]) by {
                    if k < ctor_arity(*meta, c) {
                        assert(sq@[k] == sub_row(pats@, *meta, head, c)[k]);
                    } else {
                        assert(sq@[k] == q@.drop_first()[k - ctor_arity(*meta, c)]);
                        assert(q@.drop_first()[k - ctor_arity(*meta, c)] == q@[k - ctor_arity(
                            *meta,
                            c,
                        ) + 1]);
                    }
                }
                lemma_sub_row_size(pats@, *meta, id, c);
                lemma_stack_size_concat(pats@, sub_row(pats@, *meta, head, c), q@.drop_first());
                assert(stack_size(pats@, q@) == pow_size(pats@, q@[0]) + stack_size(
                    pats@,
                    q@.drop_first(),
                ));
                lemma_specialize_size_le(pats@, *meta, m.view_rows(), c);
            }
            is_useful(pats, meta, &sm, &sq)
        },
        None => {
            let obs = observed_of(pats, m);
            proof {
                assert(pow_size(pats@, q@[0]) == 0);
                assert(stack_size(pats@, q@) == pow_size(pats@, q@[0]) + stack_size(
                    pats@,
                    q@.drop_first(),
                ));
            }
            if complete_of(meta, &obs) {
                let ghost sobs = observed(pats@, m.view_rows());
                let ghost tail = q@.drop_first();
                proof {
                    assert forall|jj: int| 0 <= jj < sobs.len() implies ctor_observed_in(
                        pats@,
                        m.view_rows(),
                        #[trigger] sobs[jj],
                    ) by {
                        lemma_observed_witness(pats@, m.view_rows(), jj);
                    }
                    assert forall|k: int| 0 <= k < tail.len() implies pow_wf(
                        pats@,
                        tail[k],
                    ) by {
                        assert(tail[k] == q@[k + 1]);
                    }
                    assert(any_wf(pats@, *meta, m.view_rows(), tail, sobs));
                    assert(sobs.skip(0) =~= sobs);
                }
                let mut j: usize = 0;
                while j < obs.len()
                    invariant
                        j <= obs.len(),
                        obs@ == observed(pats@, m.view_rows()),
                        sobs == observed(pats@, m.view_rows()),
                        tail == q@.drop_first(),
                        useful_wf(pats@, *meta, m.view_rows(), q@),
                        any_wf(pats@, *meta, m.view_rows(), tail, sobs),
                        is_complete(*meta, observed(pats@, m.view_rows())),
                        q@.len() > 0,
                        head_ctor(pats@, q@[0]) is None,
                        any_useful(pats@, *meta, m.view_rows(), tail, sobs) == any_useful(
                            pats@,
                            *meta,
                            m.view_rows(),
                            tail,
                            sobs.skip(j as int),
                        ),
                    decreases obs.len() - j,
                {
                    let c = obs[j];
                    let ghost suffix = sobs.skip(j as int);
                    proof {
                        assert(suffix[0] == sobs[j as int]);
                        assert(c == sobs[j as int]);
                        assert forall|jj: int| 0 <= jj < suffix.len() implies ctor_observed_in(
                            pats@,
                            m.view_rows(),
                            #[trigger] suffix[jj],
                        ) by {
                            assert(suffix[jj] == sobs[jj + j]);
                        }
                        assert(any_wf(pats@, *meta, m.view_rows(), tail, suffix));
                    }
                    let sm = specialize_matrix(pats, meta, m, c);
                    let a = ctor_arity_of(meta, c);
                    let mut sq = wild_row_of(a);
                    append_tail(&mut sq, q);
                    proof {
                        lemma_specialize_wf(pats@, *meta, m.view_rows(), c, q@.len() as int);
                        assert forall|k: int| 0 <= k < sq@.len() implies pow_wf(
                            pats@,
                            sq@[k],
                        ) by {
                            if k < ctor_arity(*meta, c) {
                                assert(sq@[k] == wild_row(ctor_arity(*meta, c))[k]);
                            } else {
                                assert(sq@[k] == q@.drop_first()[k - ctor_arity(*meta, c)]);
                                assert(q@.drop_first()[k - ctor_arity(*meta, c)] == q@[k
                                    - ctor_arity(*meta, c) + 1]);
                            }
                        }
                        lemma_specialize_size_lt(pats@, *meta, m.view_rows(), c);
                        lemma_wild_row_size(pats@, ctor_arity(*meta, c));
                        lemma_stack_size_concat(
                            pats@,
                            wild_row(ctor_arity(*meta, c)),
                            q@.drop_first(),
                        );
                        assert(stack_size(pats@, q@) == pow_size(pats@, q@[0]) + stack_size(
                            pats@,
                            q@.drop_first(),
                        ));
                    }
                    let r = is_useful(pats, meta, &sm, &sq);
                    proof {
                        assert(suffix.len() > 0);
                        assert(any_useful(pats@, *meta, m.view_rows(), tail, suffix) == (useful(
                            pats@,
                            *meta,
                            specialize(pats@, *meta, m.view_rows(), suffix[0]),
                            wild_row(ctor_arity(*meta, suffix[0])) + tail,
                        ) || any_useful(pats@, *meta, m.view_rows(), tail, suffix.drop_first())));
                        assert(sm.view_rows() == specialize(pats@, *meta, m.view_rows(), suffix[0]));
                        assert(sq@ == wild_row(ctor_arity(*meta, suffix[0])) + tail);
                    }
                    if r {
                        proof {
                            assert(any_useful(pats@, *meta, m.view_rows(), tail, suffix));
                            assert(any_useful(pats@, *meta, m.view_rows(), tail, sobs));
                            assert(useful(pats@, *meta, m.view_rows(), q@));
                        }
                        return true;
                    }
                    proof {
                        assert(suffix.drop_first() =~= sobs.skip(j as int + 1));
                        assert(any_useful(pats@, *meta, m.view_rows(), tail, suffix) == any_useful(
                            pats@,
                            *meta,
                            m.view_rows(),
                            tail,
                            sobs.skip(j as int + 1),
                        ));
                    }
                    j += 1;
                }
                proof {
                    assert(sobs.skip(sobs.len() as int) =~= Seq::<Ctor>::empty());
                    assert(any_wf(
                        pats@,
                        *meta,
                        m.view_rows(),
                        tail,
                        Seq::<Ctor>::empty(),
                    ));
                    assert(!any_useful(
                        pats@,
                        *meta,
                        m.view_rows(),
                        tail,
                        Seq::<Ctor>::empty(),
                    ));
                    assert(!any_useful(pats@, *meta, m.view_rows(), tail, sobs));
                    assert(!useful(pats@, *meta, m.view_rows(), q@));
                }
                false
            } else {
                let dm = default_of(pats, m);
                let mut dq: Vec<PatIdOrWild> = Vec::new();
                append_tail(&mut dq, q);
                proof {
                    assert(dq@ =~= q@.drop_first());
                    lemma_default_wf(pats@, m.view_rows(), w);
                    assert forall|k: int| 0 <= k < dq@.len() implies pow_wf(pats@, dq@[k]) by {
                        assert(dq@[k] == q@[k + 1]);
                    }
                    lemma_default_size_le(pats@, m.view_rows());
                }
                is_useful(pats, meta, &dm, &dq)
            }
        },
    }
}

} // verus!



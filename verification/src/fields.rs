//! Field completeness: which fields of a resolved record-like variant a
//! record literal or record pattern leaves out. A shared set-difference
//! over field names, reported in the variant's declaration order.

use crate::model::{Expr, FieldPat, Infer, Meta, Pat};
use vstd::prelude::*;

verus! {

/// The indices, in ascending order, of the fields of `fields` whose name
/// is not in `named`.
pub open spec fn spec_missing_field_indices(fields: Seq<u64>, named: Seq<u64>) -> Seq<usize>
    decreases fields.len(),
{
    if fields.len() == 0 {
        Seq::empty()
    } else {
        let rest = spec_missing_field_indices(fields.drop_last(), named);
        if named.contains(fields.last()) {
            rest
        } else {
            rest.push((fields.len() - 1) as usize)
        }
    }
}

/// Every reported index is a valid field index, the indices ascend, and an
/// index is reported exactly when its field's name was not written.
pub proof fn lemma_missing_field_indices(fields: Seq<u64>, named: Seq<u64>)
    requires
        fields.len() <= usize::MAX,
    ensures
        forall|k: int| 0 <= k < spec_missing_field_indices(fields, named).len()
            ==> (spec_missing_field_indices(fields, named)[k] as int) < fields.len(),
        forall|k: int, l: int|
            0 <= k < l < spec_missing_field_indices(fields, named).len()
                ==> spec_missing_field_indices(fields, named)[k]
                    < spec_missing_field_indices(fields, named)[l],
        forall|i: usize| (i as int) < fields.len()
            ==> (spec_missing_field_indices(fields, named).contains(i)
                <==> !named.contains(fields[i as int])),
    decreases fields.len(),
{
    if fields.len() > 0 {
        lemma_missing_field_indices(fields.drop_last(), named);
        let rest = spec_missing_field_indices(fields.drop_last(), named);
        let whole = spec_missing_field_indices(fields, named);
        let n = fields.len() - 1;
        assert(fields.last() == fields[n]);
        assert(forall|i: int| 0 <= i < n ==> fields.drop_last()[i] == fields[i]);
        assert(forall|k: int| 0 <= k < rest.len() ==> (rest[k] as int) < n);
        if !named.contains(fields[n]) {
            assert(whole == rest.push((fields.len() - 1) as usize));
            assert forall|k: int, l: int| 0 <= k < l < whole.len() implies
                whole[k] < whole[l] by {
                if l < rest.len() {
                    assert(whole[k] == rest[k] && whole[l] == rest[l]);
                } else {
                    assert(l == rest.len());
                    assert((whole[l] as int) == n);
                    assert(whole[k] == rest[k]);
                }
            }
        } else {
            assert(whole == rest);
        }
        assert forall|i: usize| (i as int) < fields.len() implies
            (whole.contains(i) <==> !named.contains(fields[i as int])) by {
            if (i as int) < n {
                if rest.contains(i) {
                    let k = choose|k: int| 0 <= k < rest.len() && rest[k] == i;
                    assert(whole[k] == i);
                    assert(whole.contains(i));
                }
                if whole.contains(i) {
                    let k = choose|k: int| 0 <= k < whole.len() && whole[k] == i;
                    if k < rest.len() {
                        assert(rest[k] == i);
                        assert(rest.contains(i));
                    } else {
                        if named.contains(fields[n]) {
                            assert(whole == rest);
                        } else {
                            assert(whole == rest.push((fields.len() - 1) as usize));
                            assert((whole[k] as int) == n);
                        }
                    }
                }
                assert(rest.contains(i) <==> !named.contains(fields.drop_last()[i as int]));
            } else {
                assert(i as int == n);
                if !named.contains(fields[i as int]) {
                    assert(whole.last() == i);
                    assert(whole.contains(i));
                } else {
                    if whole.contains(i) {
                        let k = choose|k: int| 0 <= k < whole.len() && whole[k] == i;
                        assert(rest[k] == i);
                        assert((rest[k] as int) < n);
                    }
                }
            }
        }
    }
}

/// No field is reported exactly when every field's name was written.
pub proof fn lemma_missing_empty_iff_all_named(fields: Seq<u64>, named: Seq<u64>)
    ensures
        spec_missing_field_indices(fields, named).len() == 0
            <==> forall|i: int| 0 <= i < fields.len() ==> named.contains(fields[i]),
    decreases fields.len(),
{
    if fields.len() > 0 {
        lemma_missing_empty_iff_all_named(fields.drop_last(), named);
        assert(forall|i: int| 0 <= i < fields.len() - 1
            ==> fields.drop_last()[i] == fields[i]);
        assert(fields.last() == fields[fields.len() - 1]);
    }
}

/// Computes the missing field indices of one variant against the names
/// written in a literal or pattern.
fn missing_field_indices(fields: &Vec<u64>, named: &Vec<u64>) -> (r: Vec<usize>)
    ensures
        r@ == spec_missing_field_indices(fields@, named@),
{
    let mut r: Vec<usize> = Vec::new();
    let mut i: usize = 0;
    while i < fields.len()
        invariant
            i <= fields.len(),
            r@ == spec_missing_field_indices(fields@.take(i as int), named@),
        decreases fields.len() - i,
    {
        let mut found: bool = false;
        let mut j: usize = 0;
        while j < named.len()
            invariant
                j <= named.len(),
                i < fields.len(),
                found <==> exists|k: int| 0 <= k < j && named@[k] == fields@[i as int],
            decreases named.len() - j,
        {
            if named[j] == fields[i] {
                found = true;
            }
            j += 1;
        }
        assert(found <==> named@.contains(fields@[i as int]));
        let ghost pre = fields@.take(i as int);
        let ghost cur = fields@.take(i as int + 1);
        assert(cur.drop_last() =~= pre);
        assert(cur.last() == fields@[i as int]);
        if !found {
            r.push(i);
        }
        i += 1;
    }
    assert(fields@.take(fields@.len() as int) =~= fields@);
    r
}

/// The names a record literal writes are its field list itself; the names
/// a record pattern writes are its field patterns' names.
pub open spec fn pat_field_names(fields: Seq<FieldPat>) -> Seq<u64> {
    fields.map_values(|fp: FieldPat| fp.name)
}

/// The result of the two public checkers below, seen mathematically: the
/// resolved variant, the missing field indices in declaration order, and
/// whether the literal or pattern claimed to be exhaustive (no spread, no
/// rest marker).
pub open spec fn spec_record_literal_missing_fields(
    meta: Meta,
    infer: Infer,
    id: int,
    expr: Expr,
) -> Option<(usize, Seq<usize>, bool)> {
    match expr {
        Expr::RecordLit { fields, has_spread } => {
            if 0 <= id < infer.variant_resolutions_expr@.len() {
                match infer.variant_resolutions_expr@[id] {
                    Some(variant) => {
                        if (variant as int) < meta.variants@.len()
                            && !meta.variants@[variant as int].is_union {
                            let missing = spec_missing_field_indices(
                                meta.variants@[variant as int].fields@,
                                fields@,
                            );
                            if missing.len() == 0 {
                                None
                            } else {
                                Some((variant, missing, !has_spread))
                            }
                        } else {
                            None
                        }
                    },
                    None => None,
                }
            } else {
                None
            }
        },
        _ => None,
    }
}

pub open spec fn spec_record_pattern_missing_fields(
    meta: Meta,
    infer: Infer,
    id: int,
    pat: Pat,
) -> Option<(usize, Seq<usize>, bool)> {
    match pat {
        Pat::Record { fields, has_rest, .. } => {
            if 0 <= id < infer.variant_resolutions_pat@.len() {
                match infer.variant_resolutions_pat@[id] {
                    Some(variant) => {
                        if (variant as int) < meta.variants@.len()
                            && !meta.variants@[variant as int].is_union {
                            let missing = spec_missing_field_indices(
                                meta.variants@[variant as int].fields@,
                                pat_field_names(fields@),
                            );
                            if missing.len() == 0 {
                                None
                            } else {
                                Some((variant, missing, !has_rest))
                            }
                        } else {
                            None
                        }
                    },
                    None => None,
                }
            } else {
                None
            }
        },
        _ => None,
    }
}

/// How the executable checkers' results relate to the mathematical ones.
pub open spec fn missing_fields_result_matches(
    r: Option<(usize, Vec<usize>, bool)>,
    s: Option<(usize, Seq<usize>, bool)>,
) -> bool {
    match (r, s) {
        (Option::None, Option::None) => true,
        (Option::Some((v, m, e)), Option::Some((sv, sm, se))) => v == sv && m@ == sm && e == se,
        _ => false,
    }
}

/// If a record literal's resolved variant has fields the literal does not
/// name, returns the variant, those fields' indices in declaration order,
/// and whether the literal has no spread operand. Abstains (`None`) when
/// the node is no record literal, the variant did not resolve, the variant
/// is a union, or no field is missing.
pub fn record_literal_missing_fields(
    meta: &Meta,
    infer: &Infer,
    id: usize,
    expr: &Expr,
) -> (r: Option<(usize, Vec<usize>, bool)>)
    ensures
        missing_fields_result_matches(
            r,
            spec_record_literal_missing_fields(*meta, *infer, id as int, *expr),
        ),
{
    match expr {
        Expr::RecordLit { fields, has_spread } => {
            if id >= infer.variant_resolutions_expr.len() {
                return None;
            }
            let variant = match infer.variant_resolutions_expr[id] {
                Some(v) => v,
                None => { return None; },
            };
            if variant >= meta.variants.len() || meta.variants[variant].is_union {
                return None;
            }
            let missing = missing_field_indices(&meta.variants[variant].fields, fields);
            if missing.len() == 0 {
                None
            } else {
                Some((variant, missing, !*has_spread))
            }
        },
        _ => None,
    }
}

/// The pattern-side twin of `record_literal_missing_fields`: the names a
/// record pattern writes are its field patterns' names, and an explicit
/// rest marker takes the place of the spread operand.
pub fn record_pattern_missing_fields(
    meta: &Meta,
    infer: &Infer,
    id: usize,
    pat: &Pat,
) -> (r: Option<(usize, Vec<usize>, bool)>)
    ensures
        missing_fields_result_matches(
            r,
            spec_record_pattern_missing_fields(*meta, *infer, id as int, *pat),
        ),
{
    match pat {
        Pat::Record { fields, has_rest, .. } => {
            if id >= infer.variant_resolutions_pat.len() {
                return None;
            }
            let variant = match infer.variant_resolutions_pat[id] {
                Some(v) => v,
                None => { return None; },
            };
            if variant >= meta.variants.len() || meta.variants[variant].is_union {
                return None;
            }
            let mut named: Vec<u64> = Vec::new();
            let mut i: usize = 0;
            while i < fields.len()
                invariant
                    i <= fields.len(),
                    named@ == pat_field_names(fields@.take(i as int)),
                decreases fields.len() - i,
            {
                named.push(fields[i].name);
                assert(pat_field_names(fields@.take(i as int + 1))
                    =~= pat_field_names(fields@.take(i as int)).push(fields@[i as int].name));
                i += 1;
            }
            assert(fields@.take(fields@.len() as int) =~= fields@);
            let missing = missing_field_indices(&meta.variants[variant].fields, &named);
            if missing.len() == 0 {
                None
            } else {
                Some((variant, missing, !*has_rest))
            }
        },
        _ => None,
    }
}

} // verus!

//! The findings the validators report. A diagnostic carries the file, the
//! source range of the offending syntax, and kind-specific payload; the
//! validators only ever append diagnostics to a sink, never read them
//! back.

use crate::model::SrcRange;
use vstd::prelude::*;

verus! {

/// One finding. `missed_fields` holds interned field names in the
/// variant's declaration order, so the report is deterministic.
#[derive(Clone, Debug, PartialEq, Eq)]
pub enum Diagnostic {
    MissingFields { file: u64, range: SrcRange, missed_fields: Vec<u64> },
    MissingPatFields { file: u64, range: SrcRange, missed_fields: Vec<u64> },
    MismatchedArgCount { file: u64, range: SrcRange, expected: usize, found: usize },
    MissingMatchArms { file: u64, range: SrcRange },
    MissingOkInTailExpr { file: u64, range: SrcRange },
}

/// The mathematical value of a diagnostic: the same five kinds, with the
/// missed-field list as a sequence.
pub enum SpecDiag {
    MissingFields { file: u64, range: SrcRange, missed_fields: Seq<u64> },
    MissingPatFields { file: u64, range: SrcRange, missed_fields: Seq<u64> },
    MismatchedArgCount { file: u64, range: SrcRange, expected: usize, found: usize },
    MissingMatchArms { file: u64, range: SrcRange },
    MissingOkInTailExpr { file: u64, range: SrcRange },
}

impl View for Diagnostic {
    type V = SpecDiag;

    open spec fn view(&self) -> SpecDiag {
        match *self {
            Diagnostic::MissingFields { file, range, missed_fields } =>
                SpecDiag::MissingFields { file, range, missed_fields: missed_fields@ },
            Diagnostic::MissingPatFields { file, range, missed_fields } =>
                SpecDiag::MissingPatFields { file, range, missed_fields: missed_fields@ },
            Diagnostic::MismatchedArgCount { file, range, expected, found } =>
                SpecDiag::MismatchedArgCount { file, range, expected, found },
            Diagnostic::MissingMatchArms { file, range } =>
                SpecDiag::MissingMatchArms { file, range },
            Diagnostic::MissingOkInTailExpr { file, range } =>
                SpecDiag::MissingOkInTailExpr { file, range },
        }
    }
}

/// The mathematical value of a diagnostic sink: its entries' values, in
/// order.
pub open spec fn diags_view(s: Seq<Diagnostic>) -> Seq<SpecDiag> {
    s.map_values(|d: Diagnostic| d@)
}

/// Appending one diagnostic to the sink appends its value to the sink's
/// view.
pub proof fn lemma_diags_view_push(s: Seq<Diagnostic>, d: Diagnostic)
    ensures
        diags_view(s.push(d)) == diags_view(s).push(d@),
{
    assert(diags_view(s.push(d)) =~= diags_view(s).push(d@));
}

} // verus!

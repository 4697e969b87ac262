//! The closed set of terminal statuses and its fixed textual labels.
use vstd::prelude::*;

verus! {

/// Terminal status of a scenario or a step.
#[derive(Clone, Copy, PartialEq, Eq, Structural, Debug)]
pub enum StatResult {
    Passed,
    Failed,
    Skipped,
}

/// The one fixed string for each status, shared by the console renderer
/// and the structured snapshot.
pub open spec fn result_label(r: StatResult) -> Seq<char> {
    match r {
        StatResult::Passed => "Passed"@,
        StatResult::Failed => "Failed"@,
        StatResult::Skipped => "Skipped"@,
    }
}

/// A stored, optional status as a concrete value: absence means Skipped.
pub open spec fn effective(r: Option<StatResult>) -> StatResult {
    match r {
        Some(x) => x,
        None => StatResult::Skipped,
    }
}

impl StatResult {
    /// The textual label of this status.
    pub fn as_label(&self) -> (r: &'static str)
        ensures
            r@ == result_label(*self),
    {
        match self {
            StatResult::Passed => "Passed",
            StatResult::Failed => "Failed",
            StatResult::Skipped => "Skipped",
        }
    }
}

/// Exec counterpart of `effective`: substitute Skipped for absence.
pub fn effective_of(r: &Option<StatResult>) -> (out: StatResult)
    ensures
        out == effective(*r),
{
    match r {
        Some(x) => *x,
        None => StatResult::Skipped,
    }
}

} // verus!

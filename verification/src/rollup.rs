//! The roll-up engine: a feature's aggregate outcome, derived on demand
//! from its scenarios' stored outcomes and never cached in the tree.
use vstd::prelude::*;
use crate::outcome::{StatResult, effective, effective_of};
use crate::stats::{FeatureStats, ScenarioStats, ScenarioView};

verus! {

/// The derived outcome of a scenario list: undefined when empty; Passed
/// iff every scenario outcome (absence meaning Skipped) is Passed; else
/// Failed if any scenario outcome is Failed; else Skipped.
pub open spec fn feature_result(scs: Seq<ScenarioView>) -> Option<StatResult> {
    if scs.len() == 0 {
        None
    } else if forall|i: int|
        0 <= i < scs.len() ==> effective((#[trigger] scs[i]).result) == StatResult::Passed {
        Some(StatResult::Passed)
    } else if exists|i: int|
        0 <= i < scs.len() && effective((#[trigger] scs[i]).result) == StatResult::Failed {
        Some(StatResult::Failed)
    } else {
        Some(StatResult::Skipped)
    }
}

/// Unanimity law: the derived outcome is Passed exactly when the scenario
/// list is non-empty and every scenario's effective outcome is Passed.
pub proof fn lemma_unanimity(scs: Seq<ScenarioView>)
    ensures
        (feature_result(scs) == Some(StatResult::Passed)) <==> (scs.len() > 0 && forall|i: int|
            0 <= i < scs.len() ==> effective((#[trigger] scs[i]).result) == StatResult::Passed),
{
}

/// Failure dominance: one Failed scenario makes the derived outcome
/// Failed, whatever the other scenarios hold.
pub proof fn lemma_failure_dominance(scs: Seq<ScenarioView>, i: int)
    requires
        0 <= i < scs.len(),
        effective(scs[i].result) == StatResult::Failed,
    ensures
        feature_result(scs) == Some(StatResult::Failed),
{
    assert(!(effective(scs[i].result) == StatResult::Passed));
    assert(exists|j: int|
        0 <= j < scs.len() && effective((#[trigger] scs[j]).result) == StatResult::Failed);
}

/// Empty-feature law: with no scenarios the derived outcome is undefined,
/// and the Skipped default stands in wherever a concrete value is needed.
pub proof fn lemma_empty_feature(scs: Seq<ScenarioView>)
    requires
        scs.len() == 0,
    ensures
        feature_result(scs) == None::<StatResult>,
        effective(feature_result(scs)) == StatResult::Skipped,
{
}

impl FeatureStats {
    /// Derive this feature's aggregate outcome from its scenarios.
    pub fn get_result(&self) -> (r: Option<StatResult>)
        ensures
            r == feature_result(self@.scenarios),
    {
        let ghost scs = self@.scenarios;
        if self.scenarios.len() == 0 {
            return None;
        }
        let mut all_passed: bool = true;
        let mut any_failed: bool = false;
        let mut i: usize = 0;
        while i < self.scenarios.len()
            invariant
                i <= self.scenarios.len(),
                scs == self@.scenarios,
                scs.len() == self.scenarios.len(),
                all_passed == (forall|j: int|
                    0 <= j < i ==> effective((#[trigger] scs[j]).result) == StatResult::Passed),
                any_failed == (exists|j: int|
                    0 <= j < i && effective((#[trigger] scs[j]).result) == StatResult::Failed),
            decreases self.scenarios.len() - i,
        {
            proof {
                assert(scs[i as int] == self.scenarios@.map_values(|s: ScenarioStats| s@)[
                    i as int]);
            }
            let e = effective_of(&self.scenarios[i].result);
            if !matches!(e, StatResult::Passed) {
                all_passed = false;
            }
            if matches!(e, StatResult::Failed) {
                any_failed = true;
            }
            i = i + 1;
        }
        if all_passed {
            Some(StatResult::Passed)
        } else if any_failed {
            Some(StatResult::Failed)
        } else {
            Some(StatResult::Skipped)
        }
    }
}

} // verus!

//! The summary compiler: run-level counters supplied by the driving
//! engine, merged with a deep, immutable copy of the tree, into one
//! report value.
use vstd::prelude::*;
use crate::stats::{
    EventHandlerState, FeatureStats, FeatureView, ScenarioStats, ScenarioView, StepStats, StepView,
};

verus! {

/// Run-level result counters, supplied verbatim by the driving engine
/// and never recomputed from the tree.
#[derive(Clone, Copy, PartialEq, Eq, Structural, Debug)]
pub struct RunCounters {
    pub total_features: u32,
    pub total_scenarios: u32,
    pub skipped_scenarios: u32,
    pub passed_scenarios: u32,
    pub failed_scenarios: u32,
}

pub ghost struct ReportView {
    pub total_features: u32,
    pub total_scenarios: u32,
    pub skipped_scenarios: u32,
    pub passed_scenarios: u32,
    pub failed_scenarios: u32,
    pub features: Seq<FeatureView>,
}

/// Why a report could not be compiled.
#[derive(Clone, Copy, PartialEq, Eq, Structural, Debug)]
pub enum ReportError {
    /// The tree is still open for events: compiling now could race with
    /// a producer. Close the run first.
    RunStillOpen,
}

/// The immutable report of one run: the engine's counters plus a deep
/// copy of the feature list, decoupled from the live tree.
pub struct RunStats {
    pub total_features: u32,
    pub total_scenarios: u32,
    pub skipped_scenarios: u32,
    pub passed_scenarios: u32,
    pub failed_scenarios: u32,
    pub features: Vec<FeatureStats>,
}

impl View for RunStats {
    type V = ReportView;

    open spec fn view(&self) -> ReportView {
        ReportView {
            total_features: self.total_features,
            total_scenarios: self.total_scenarios,
            skipped_scenarios: self.skipped_scenarios,
            passed_scenarios: self.passed_scenarios,
            failed_scenarios: self.failed_scenarios,
            features: self.features@.map_values(|f: FeatureStats| f@),
        }
    }
}

/// A value-equal copy of a step.
fn clone_step(s: &StepStats) -> (r: StepStats)
    ensures
        r@ == s@,
{
    StepStats { name: s.name.clone(), keyword: s.keyword.clone(), result: s.result }
}

/// A value-equal copy of a scenario and its steps.
fn clone_scenario(s: &ScenarioStats) -> (r: ScenarioStats)
    ensures
        r@ == s@,
{
    let mut steps: Vec<StepStats> = Vec::new();
    let mut i: usize = 0;
    while i < s.steps.len()
        invariant
            i <= s.steps.len(),
            steps@.len() == i,
            forall|j: int| 0 <= j < i ==> (#[trigger] steps@[j])@ == s.steps@[j]@,
        decreases s.steps.len() - i,
    {
        steps.push(clone_step(&s.steps[i]));
        i = i + 1;
    }
    let r = ScenarioStats { name: s.name.clone(), steps, result: s.result };
    proof {
        assert(r@.steps =~= s@.steps);
    }
    r
}

/// A value-equal copy of a feature and its scenarios.
fn clone_feature(f: &FeatureStats) -> (r: FeatureStats)
    ensures
        r@ == f@,
{
    let mut scenarios: Vec<ScenarioStats> = Vec::new();
    let mut i: usize = 0;
    while i < f.scenarios.len()
        invariant
            i <= f.scenarios.len(),
            scenarios@.len() == i,
            forall|j: int| 0 <= j < i ==> (#[trigger] scenarios@[j])@ == f.scenarios@[j]@,
        decreases f.scenarios.len() - i,
    {
        scenarios.push(clone_scenario(&f.scenarios[i]));
        i = i + 1;
    }
    let r = FeatureStats { name: f.name.clone(), scenarios };
    proof {
        assert(r@.scenarios =~= f@.scenarios);
    }
    r
}

/// A deep, value-equal copy of a feature list.
pub fn clone_features(fs: &Vec<FeatureStats>) -> (r: Vec<FeatureStats>)
    ensures
        r@.map_values(|f: FeatureStats| f@) == fs@.map_values(|f: FeatureStats| f@),
{
    let mut r: Vec<FeatureStats> = Vec::new();
    let mut i: usize = 0;
    while i < fs.len()
        invariant
            i <= fs.len(),
            r@.len() == i,
            forall|j: int| 0 <= j < i ==> (#[trigger] r@[j])@ == fs@[j]@,
        decreases fs.len() - i,
    {
        r.push(clone_feature(&fs[i]));
        i = i + 1;
    }
    proof {
        assert(r@.map_values(|f: FeatureStats| f@) =~= fs@.map_values(|f: FeatureStats| f@));
    }
    r
}

impl RunStats {
    /// Compile the report: the engine's counters verbatim, plus a deep
    /// copy of the tree. Rejected while the run is still open.
    pub fn new(result: &RunCounters, state: &EventHandlerState) -> (r: Result<Self, ReportError>)
        ensures
            state@.closed ==> (r matches Ok(st) && st@ == (ReportView {
                total_features: result.total_features,
                total_scenarios: result.total_scenarios,
                skipped_scenarios: result.skipped_scenarios,
                passed_scenarios: result.passed_scenarios,
                failed_scenarios: result.failed_scenarios,
                features: state@.features,
            })),
            !state@.closed ==> (r matches Err(e) && e == ReportError::RunStillOpen),
    {
        if !state.is_closed() {
            return Err(ReportError::RunStillOpen);
        }
        Ok(
            Self {
                total_features: result.total_features,
                total_scenarios: result.total_scenarios,
                skipped_scenarios: result.skipped_scenarios,
                passed_scenarios: result.passed_scenarios,
                failed_scenarios: result.failed_scenarios,
                features: clone_features(&state.features),
            },
        )
    }
}

} // verus!

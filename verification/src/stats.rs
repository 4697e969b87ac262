//! The entity tree (feature, scenario, step), the lifecycle events that
//! build it, and the event sink that is the tree's single mutation
//! gateway.
use vstd::prelude::*;
use crate::outcome::StatResult;

verus! {

// ---------------------------------------------------------------------
// Mathematical views of the tree.
// ---------------------------------------------------------------------
pub ghost struct StepView {
    pub keyword: Seq<char>,
    pub name: Seq<char>,
    pub result: Option<StatResult>,
}

pub ghost struct ScenarioView {
    pub name: Seq<char>,
    pub steps: Seq<StepView>,
    pub result: Option<StatResult>,
}

pub ghost struct FeatureView {
    pub name: Seq<char>,
    pub scenarios: Seq<ScenarioView>,
}

pub ghost struct StateView {
    pub features: Seq<FeatureView>,
    pub closed: bool,
}

// ---------------------------------------------------------------------
// The tree itself.
// ---------------------------------------------------------------------
/// One executed step: identity is the pair (keyword, name).
pub struct StepStats {
    pub name: String,
    pub keyword: String,
    pub result: Option<StatResult>,
}

/// One executed scenario and its steps, in insertion order.
pub struct ScenarioStats {
    pub name: String,
    pub steps: Vec<StepStats>,
    pub result: Option<StatResult>,
}

/// One feature and its scenarios, in insertion order.
pub struct FeatureStats {
    pub name: String,
    pub scenarios: Vec<ScenarioStats>,
}

/// The live tree of one run, plus its lifecycle phase: once closed, the
/// summary compiler may take its snapshot.
pub struct EventHandlerState {
    pub features: Vec<FeatureStats>,
    pub closed: bool,
}

impl View for StepStats {
    type V = StepView;

    open spec fn view(&self) -> StepView {
        StepView { keyword: self.keyword@, name: self.name@, result: self.result }
    }
}

impl View for ScenarioStats {
    type V = ScenarioView;

    open spec fn view(&self) -> ScenarioView {
        ScenarioView {
            name: self.name@,
            steps: self.steps@.map_values(|s: StepStats| s@),
            result: self.result,
        }
    }
}

impl View for FeatureStats {
    type V = FeatureView;

    open spec fn view(&self) -> FeatureView {
        FeatureView {
            name: self.name@,
            scenarios: self.scenarios@.map_values(|s: ScenarioStats| s@),
        }
    }
}

impl View for EventHandlerState {
    type V = StateView;

    open spec fn view(&self) -> StateView {
        StateView {
            features: self.features@.map_values(|f: FeatureStats| f@),
            closed: self.closed,
        }
    }
}

// ---------------------------------------------------------------------
// Events and protocol violations.
// ---------------------------------------------------------------------
/// How a finished step was reported by the engine.
#[derive(Clone, Copy, PartialEq, Eq, Structural, Debug)]
pub enum StepOutcomeKind {
    Passed,
    FailedByPanic,
    FailedByTimeout,
}

/// How a finished scenario was reported by the engine.
#[derive(Clone, Copy, PartialEq, Eq, Structural, Debug)]
pub enum ScenarioOutcomeKind {
    Passed,
    FailedByPanic,
    Skipped,
}

/// A lifecycle event delivered by the driving engine. `Other` stands for
/// every event shape the aggregator deliberately ignores.
pub enum RunEvent {
    FeatureStarting { name: String },
    ScenarioStarting { feature: String, name: String },
    StepStarting { feature: String, scenario: String, keyword: String, name: String },
    StepOutcome {
        feature: String,
        scenario: String,
        keyword: String,
        name: String,
        outcome: StepOutcomeKind,
    },
    ScenarioOutcome { feature: String, scenario: String, outcome: ScenarioOutcomeKind },
    Other,
}

pub ghost enum EventView {
    FeatureStarting { name: Seq<char> },
    ScenarioStarting { feature: Seq<char>, name: Seq<char> },
    StepStarting { feature: Seq<char>, scenario: Seq<char>, keyword: Seq<char>, name: Seq<char> },
    StepOutcome {
        feature: Seq<char>,
        scenario: Seq<char>,
        keyword: Seq<char>,
        name: Seq<char>,
        outcome: StepOutcomeKind,
    },
    ScenarioOutcome { feature: Seq<char>, scenario: Seq<char>, outcome: ScenarioOutcomeKind },
    Other,
}

impl View for RunEvent {
    type V = EventView;

    open spec fn view(&self) -> EventView {
        match self {
            RunEvent::FeatureStarting { name } => EventView::FeatureStarting { name: name@ },
            RunEvent::ScenarioStarting { feature, name } => EventView::ScenarioStarting {
                feature: feature@,
                name: name@,
            },
            RunEvent::StepStarting { feature, scenario, keyword, name } => {
                EventView::StepStarting {
                    feature: feature@,
                    scenario: scenario@,
                    keyword: keyword@,
                    name: name@,
                }
            },
            RunEvent::StepOutcome { feature, scenario, keyword, name, outcome } => {
                EventView::StepOutcome {
                    feature: feature@,
                    scenario: scenario@,
                    keyword: keyword@,
                    name: name@,
                    outcome: *outcome,
                }
            },
            RunEvent::ScenarioOutcome { feature, scenario, outcome } => {
                EventView::ScenarioOutcome {
                    feature: feature@,
                    scenario: scenario@,
                    outcome: *outcome,
                }
            },
            RunEvent::Other => EventView::Other,
        }
    }
}

/// The status a terminal step event stores.
pub open spec fn step_outcome_result(k: StepOutcomeKind) -> StatResult {
    match k {
        StepOutcomeKind::Passed => StatResult::Passed,
        StepOutcomeKind::FailedByPanic => StatResult::Failed,
        StepOutcomeKind::FailedByTimeout => StatResult::Failed,
    }
}

/// The status a terminal scenario event stores.
pub open spec fn scenario_outcome_result(k: ScenarioOutcomeKind) -> StatResult {
    match k {
        ScenarioOutcomeKind::Passed => StatResult::Passed,
        ScenarioOutcomeKind::FailedByPanic => StatResult::Failed,
        ScenarioOutcomeKind::Skipped => StatResult::Skipped,
    }
}

/// Which kind of entity a failed lookup was after.
#[derive(Clone, Copy, PartialEq, Eq, Structural, Debug)]
pub enum EntityKind {
    Feature,
    Scenario,
    Step,
}

pub ghost struct LookupView {
    pub kind: EntityKind,
    pub key: Seq<char>,
}

/// A protocol violation: an event referenced a parent entity that was
/// never created. `key` is the name the lookup was after.
#[derive(Debug)]
pub struct LookupError {
    pub kind: EntityKind,
    pub key: String,
}

impl View for LookupError {
    type V = LookupView;

    open spec fn view(&self) -> LookupView {
        LookupView { kind: self.kind, key: self.key@ }
    }
}

// ---------------------------------------------------------------------
// First-match lookup, in specification.
// ---------------------------------------------------------------------
/// Index of the first feature named `name`, or -1.
pub open spec fn first_feature(fs: Seq<FeatureView>, name: Seq<char>) -> int
    decreases fs.len(),
{
    if fs.len() == 0 {
        -1
    } else if fs[0].name == name {
        0
    } else {
        let r = first_feature(fs.drop_first(), name);
        if r < 0 {
            -1
        } else {
            r + 1
        }
    }
}

/// Index of the first scenario named `name`, or -1.
pub open spec fn first_scenario(scs: Seq<ScenarioView>, name: Seq<char>) -> int
    decreases scs.len(),
{
    if scs.len() == 0 {
        -1
    } else if scs[0].name == name {
        0
    } else {
        let r = first_scenario(scs.drop_first(), name);
        if r < 0 {
            -1
        } else {
            r + 1
        }
    }
}

/// Index of the first step with identity (keyword, name), or -1.
pub open spec fn first_step(sts: Seq<StepView>, keyword: Seq<char>, name: Seq<char>) -> int
    decreases sts.len(),
{
    if sts.len() == 0 {
        -1
    } else if sts[0].keyword == keyword && sts[0].name == name {
        0
    } else {
        let r = first_step(sts.drop_first(), keyword, name);
        if r < 0 {
            -1
        } else {
            r + 1
        }
    }
}

pub proof fn lemma_first_feature(fs: Seq<FeatureView>, name: Seq<char>)
    ensures
        first_feature(fs, name) == -1 ==> forall|j: int|
            0 <= j < fs.len() ==> (#[trigger] fs[j]).name != name,
        first_feature(fs, name) != -1 ==> {
            let r = first_feature(fs, name);
            &&& 0 <= r < fs.len()
            &&& fs[r].name == name
            &&& forall|j: int| 0 <= j < r ==> (#[trigger] fs[j]).name != name
        },
    decreases fs.len(),
{
    if fs.len() > 0 && fs[0].name != name {
        lemma_first_feature(fs.drop_first(), name);
        let r = first_feature(fs, name);
        if r == -1 {
            assert forall|j: int| 0 <= j < fs.len() implies (#[trigger] fs[j]).name != name by {
                if j > 0 {
                    assert(fs[j] == fs.drop_first()[j - 1]);
                }
            }
        } else {
            assert(fs[r] == fs.drop_first()[r - 1]);
            assert forall|j: int| 0 <= j < r implies (#[trigger] fs[j]).name != name by {
                if j > 0 {
                    assert(fs[j] == fs.drop_first()[j - 1]);
                }
            }
        }
    }
}

pub proof fn lemma_first_scenario(scs: Seq<ScenarioView>, name: Seq<char>)
    ensures
        first_scenario(scs, name) == -1 ==> forall|j: int|
            0 <= j < scs.len() ==> (#[trigger] scs[j]).name != name,
        first_scenario(scs, name) != -1 ==> {
            let r = first_scenario(scs, name);
            &&& 0 <= r < scs.len()
            &&& scs[r].name == name
            &&& forall|j: int| 0 <= j < r ==> (#[trigger] scs[j]).name != name
        },
    decreases scs.len(),
{
    if scs.len() > 0 && scs[0].name != name {
        lemma_first_scenario(scs.drop_first(), name);
        let r = first_scenario(scs, name);
        if r == -1 {
            assert forall|j: int| 0 <= j < scs.len() implies (#[trigger] scs[j]).name != name by {
                if j > 0 {
                    assert(scs[j] == scs.drop_first()[j - 1]);
                }
            }
        } else {
            assert(scs[r] == scs.drop_first()[r - 1]);
            assert forall|j: int| 0 <= j < r implies (#[trigger] scs[j]).name != name by {
                if j > 0 {
                    assert(scs[j] == scs.drop_first()[j - 1]);
                }
            }
        }
    }
}

pub proof fn lemma_first_step(sts: Seq<StepView>, keyword: Seq<char>, name: Seq<char>)
    ensures
        first_step(sts, keyword, name) == -1 ==> forall|j: int|
            0 <= j < sts.len() ==> !((#[trigger] sts[j]).keyword == keyword && sts[j].name
                == name),
        first_step(sts, keyword, name) != -1 ==> {
            let r = first_step(sts, keyword, name);
            &&& 0 <= r < sts.len()
            &&& sts[r].keyword == keyword && sts[r].name == name
            &&& forall|j: int|
                0 <= j < r ==> !((#[trigger] sts[j]).keyword == keyword && sts[j].name == name)
        },
    decreases sts.len(),
{
    if sts.len() > 0 && !(sts[0].keyword == keyword && sts[0].name == name) {
        lemma_first_step(sts.drop_first(), keyword, name);
        let r = first_step(sts, keyword, name);
        if r == -1 {
            assert forall|j: int|
                0 <= j < sts.len() implies !((#[trigger] sts[j]).keyword == keyword && sts[j].name
                == name) by {
                if j > 0 {
                    assert(sts[j] == sts.drop_first()[j - 1]);
                }
            }
        } else {
            assert(sts[r] == sts.drop_first()[r - 1]);
            assert forall|j: int|
                0 <= j < r implies !((#[trigger] sts[j]).keyword == keyword && sts[j].name
                == name) by {
                if j > 0 {
                    assert(sts[j] == sts.drop_first()[j - 1]);
                }
            }
        }
    }
}

// ---------------------------------------------------------------------
// The five mutations, in specification.
// ---------------------------------------------------------------------
pub open spec fn spec_add_feature(fs: Seq<FeatureView>, name: Seq<char>) -> Seq<FeatureView> {
    fs.push(FeatureView { name, scenarios: Seq::empty() })
}

pub open spec fn spec_add_scenario(
    fs: Seq<FeatureView>,
    feature: Seq<char>,
    name: Seq<char>,
) -> Result<Seq<FeatureView>, LookupView> {
    let i = first_feature(fs, feature);
    if i < 0 {
        Err(LookupView { kind: EntityKind::Feature, key: feature })
    } else {
        Ok(
            fs.update(
                i,
                FeatureView {
                    name: fs[i].name,
                    scenarios: fs[i].scenarios.push(
                        ScenarioView { name, steps: Seq::empty(), result: None },
                    ),
                },
            ),
        )
    }
}

pub open spec fn spec_add_step(
    fs: Seq<FeatureView>,
    feature: Seq<char>,
    scenario: Seq<char>,
    keyword: Seq<char>,
    name: Seq<char>,
) -> Result<Seq<FeatureView>, LookupView> {
    let i = first_feature(fs, feature);
    if i < 0 {
        Err(LookupView { kind: EntityKind::Feature, key: feature })
    } else {
        let j = first_scenario(fs[i].scenarios, scenario);
        if j < 0 {
            Err(LookupView { kind: EntityKind::Scenario, key: scenario })
        } else {
            let sc = fs[i].scenarios[j];
            Ok(
                fs.update(
                    i,
                    FeatureView {
                        name: fs[i].name,
                        scenarios: fs[i].scenarios.update(
                            j,
                            ScenarioView {
                                name: sc.name,
                                steps: sc.steps.push(StepView { keyword, name, result: None }),
                                result: sc.result,
                            },
                        ),
                    },
                ),
            )
        }
    }
}

pub open spec fn spec_set_scenario_result(
    fs: Seq<FeatureView>,
    feature: Seq<char>,
    scenario: Seq<char>,
    result: StatResult,
) -> Result<Seq<FeatureView>, LookupView> {
    let i = first_feature(fs, feature);
    if i < 0 {
        Err(LookupView { kind: EntityKind::Feature, key: feature })
    } else {
        let j = first_scenario(fs[i].scenarios, scenario);
        if j < 0 {
            Err(LookupView { kind: EntityKind::Scenario, key: scenario })
        } else {
            let sc = fs[i].scenarios[j];
            Ok(
                fs.update(
                    i,
                    FeatureView {
                        name: fs[i].name,
                        scenarios: fs[i].scenarios.update(
                            j,
                            ScenarioView {
                                name: sc.name,
                                steps: sc.steps,
                                result: Some(result),
                            },
                        ),
                    },
                ),
            )
        }
    }
}

pub open spec fn spec_set_step_result(
    fs: Seq<FeatureView>,
    feature: Seq<char>,
    scenario: Seq<char>,
    keyword: Seq<char>,
    name: Seq<char>,
    result: StatResult,
) -> Result<Seq<FeatureView>, LookupView> {
    let i = first_feature(fs, feature);
    if i < 0 {
        Err(LookupView { kind: EntityKind::Feature, key: feature })
    } else {
        let j = first_scenario(fs[i].scenarios, scenario);
        if j < 0 {
            Err(LookupView { kind: EntityKind::Scenario, key: scenario })
        } else {
            let sc = fs[i].scenarios[j];
            let k = first_step(sc.steps, keyword, name);
            if k < 0 {
                Err(LookupView { kind: EntityKind::Step, key: name })
            } else {
                let st = sc.steps[k];
                Ok(
                    fs.update(
                        i,
                        FeatureView {
                            name: fs[i].name,
                            scenarios: fs[i].scenarios.update(
                                j,
                                ScenarioView {
                                    name: sc.name,
                                    steps: sc.steps.update(
                                        k,
                                        StepView {
                                            keyword: st.keyword,
                                            name: st.name,
                                            result: Some(result),
                                        },
                                    ),
                                    result: sc.result,
                                },
                            ),
                        },
                    ),
                )
            }
        }
    }
}

/// One dispatch of the event sink: which mutation an event selects, and
/// what it does to the tree. Unknown event shapes are a no-op.
pub open spec fn spec_handle(fs: Seq<FeatureView>, e: EventView) -> Result<
    Seq<FeatureView>,
    LookupView,
> {
    match e {
        EventView::FeatureStarting { name } => Ok(spec_add_feature(fs, name)),
        EventView::ScenarioStarting { feature, name } => spec_add_scenario(fs, feature, name),
        EventView::StepStarting { feature, scenario, keyword, name } => spec_add_step(
            fs,
            feature,
            scenario,
            keyword,
            name,
        ),
        EventView::StepOutcome { feature, scenario, keyword, name, outcome } => {
            spec_set_step_result(
                fs,
                feature,
                scenario,
                keyword,
                name,
                step_outcome_result(outcome),
            )
        },
        EventView::ScenarioOutcome { feature, scenario, outcome } => spec_set_scenario_result(
            fs,
            feature,
            scenario,
            scenario_outcome_result(outcome),
        ),
        EventView::Other => Ok(fs),
    }
}

// ---------------------------------------------------------------------
// Executable constructors and lookups.
// ---------------------------------------------------------------------
fn vec_index_mut<T>(v: &mut Vec<T>, i: usize) -> (element: &mut T)
    requires
        i < old(v).len(),
    ensures
        *element == old(v)@[i as int],
        final(v)@ == old(v)@.update(i as int, *final(element)),
{
    &mut v[i]
}

impl StepStats {
    /// A freshly started step: no outcome yet.
    pub fn new(name: String, keyword: String) -> (r: Self)
        ensures
            r@ == (StepView { keyword: keyword@, name: name@, result: None }),
    {
        Self { name, keyword, result: None }
    }
}

impl ScenarioStats {
    /// A freshly started scenario: no steps, no outcome.
    pub fn new(name: String) -> (r: Self)
        ensures
            r@ == (ScenarioView { name: name@, steps: Seq::empty(), result: None }),
    {
        let r = Self { name, steps: Vec::new(), result: None };
        proof {
            assert(r@.steps =~= Seq::<StepView>::empty());
        }
        r
    }

    /// Index of the first step with identity (keyword, name).
    pub fn get_step(&self, step_keyword: &str, step_name: &str) -> (r: Option<usize>)
        ensures
            match r {
                Some(i) => first_step(self@.steps, step_keyword@, step_name@) == i,
                None => first_step(self@.steps, step_keyword@, step_name@) == -1,
            },
    {
        let ghost sts = self@.steps;
        let mut i: usize = 0;
        while i < self.steps.len()
            invariant
                i <= self.steps.len(),
                sts == self@.steps,
                sts.len() == self.steps.len(),
                forall|j: int|
                    0 <= j < i ==> !((#[trigger] sts[j]).keyword == step_keyword@ && sts[j].name
                        == step_name@),
            decreases self.steps.len() - i,
        {
            if crate::chars::str_eq(self.steps[i].keyword.as_str(), step_keyword)
                && crate::chars::str_eq(self.steps[i].name.as_str(), step_name) {
                proof {
                    assert(sts[i as int] == self.steps@.map_values(|s: StepStats| s@)[i as int]);
                    lemma_first_step(sts, step_keyword@, step_name@);
                }
                return Some(i);
            }
            proof {
                assert(sts[i as int] == self.steps@.map_values(|s: StepStats| s@)[i as int]);
            }
            i = i + 1;
        }
        proof {
            lemma_first_step(sts, step_keyword@, step_name@);
        }
        None
    }
}

impl FeatureStats {
    /// A freshly started feature: no scenarios.
    pub fn new(name: String) -> (r: Self)
        ensures
            r@ == (FeatureView { name: name@, scenarios: Seq::empty() }),
    {
        let r = Self { name, scenarios: Vec::new() };
        proof {
            assert(r@.scenarios =~= Seq::<ScenarioView>::empty());
        }
        r
    }

    /// Index of the first scenario named `scenario_name`.
    pub fn get_scenario(&self, scenario_name: &str) -> (r: Option<usize>)
        ensures
            match r {
                Some(i) => first_scenario(self@.scenarios, scenario_name@) == i,
                None => first_scenario(self@.scenarios, scenario_name@) == -1,
            },
    {
        let ghost scs = self@.scenarios;
        let mut i: usize = 0;
        while i < self.scenarios.len()
            invariant
                i <= self.scenarios.len(),
                scs == self@.scenarios,
                scs.len() == self.scenarios.len(),
                forall|j: int| 0 <= j < i ==> (#[trigger] scs[j]).name != scenario_name@,
            decreases self.scenarios.len() - i,
        {
            if crate::chars::str_eq(self.scenarios[i].name.as_str(), scenario_name) {
                proof {
                    assert(scs[i as int] == self.scenarios@.map_values(|s: ScenarioStats| s@)[
                        i as int]);
                    lemma_first_scenario(scs, scenario_name@);
                }
                return Some(i);
            }
            proof {
                assert(scs[i as int] == self.scenarios@.map_values(|s: ScenarioStats| s@)[
                    i as int]);
            }
            i = i + 1;
        }
        proof {
            lemma_first_scenario(scs, scenario_name@);
        }
        None
    }
}

impl Default for EventHandlerState {
    /// An empty, still-open tree.
    fn default() -> (r: Self)
        ensures
            r@ == (StateView { features: Seq::empty(), closed: false }),
    {
        let r = EventHandlerState { features: Vec::new(), closed: false };
        proof {
            assert(r@.features =~= Seq::<FeatureView>::empty());
        }
        r
    }
}

impl EventHandlerState {
    /// An empty, still-open tree.
    pub fn new() -> (r: Self)
        ensures
            r@ == (StateView { features: Seq::empty(), closed: false }),
    {
        Self::default()
    }

    /// Whether the run has been closed for event delivery.
    pub fn is_closed(&self) -> (r: bool)
        ensures
            r == self@.closed,
    {
        self.closed
    }

    /// Close the run: the tree is complete and may be compiled.
    pub fn close(&mut self)
        ensures
            final(self)@ == (StateView { features: old(self)@.features, closed: true }),
    {
        self.closed = true;
    }

    /// Index of the first feature named `feature_name`.
    pub fn get_feature(&self, feature_name: &str) -> (r: Option<usize>)
        ensures
            match r {
                Some(i) => first_feature(self@.features, feature_name@) == i,
                None => first_feature(self@.features, feature_name@) == -1,
            },
    {
        let ghost fs = self@.features;
        let mut i: usize = 0;
        while i < self.features.len()
            invariant
                i <= self.features.len(),
                fs == self@.features,
                fs.len() == self.features.len(),
                forall|j: int| 0 <= j < i ==> (#[trigger] fs[j]).name != feature_name@,
            decreases self.features.len() - i,
        {
            if crate::chars::str_eq(self.features[i].name.as_str(), feature_name) {
                proof {
                    assert(fs[i as int] == self.features@.map_values(|f: FeatureStats| f@)[
                        i as int]);
                    lemma_first_feature(fs, feature_name@);
                }
                return Some(i);
            }
            proof {
                assert(fs[i as int] == self.features@.map_values(|f: FeatureStats| f@)[i as int]);
            }
            i = i + 1;
        }
        proof {
            lemma_first_feature(fs, feature_name@);
        }
        None
    }

    /// Create a feature on its start event.
    pub fn add_feature(&mut self, feature_name: String)
        ensures
            final(self)@.features == spec_add_feature(old(self)@.features, feature_name@),
            final(self)@.closed == old(self)@.closed,
    {
        let ghost before = self@.features;
        self.features.push(FeatureStats::new(feature_name));
        proof {
            assert(self@.features =~= spec_add_feature(before, feature_name@));
        }
    }

    /// Create a scenario under an existing feature, or report the missing
    /// feature as a protocol violation.
    pub fn add_scenario(&mut self, feature_name: String, scenario_name: String) -> (r: Result<
        (),
        LookupError,
    >)
        ensures
            match spec_add_scenario(old(self)@.features, feature_name@, scenario_name@) {
                Ok(fs2) => r is Ok && final(self)@.features == fs2,
                Err(ev) => {
                    &&& r matches Err(e) && e@ == ev
                    &&& final(self)@.features == old(self)@.features
                },
            },
            final(self)@.closed == old(self)@.closed,
    {
        let ghost before = self@.features;
        match self.get_feature(feature_name.as_str()) {
            None => Err(LookupError { kind: EntityKind::Feature, key: feature_name }),
            Some(i) => {
                proof {
                    lemma_first_feature(before, feature_name@);
                }
                let f = vec_index_mut(&mut self.features, i);
                let ghost fv = before[i as int];
                f.scenarios.push(ScenarioStats::new(scenario_name));
                proof {
                    assert(f@.scenarios =~= fv.scenarios.push(
                        ScenarioView { name: scenario_name@, steps: Seq::empty(), result: None },
                    ));
                    assert(self@.features =~= before.update(
                        i as int,
                        FeatureView { name: fv.name, scenarios: f@.scenarios },
                    ));
                }
                Ok(())
            },
        }
    }

    /// Create a step under an existing scenario, or report the missing
    /// ancestor as a protocol violation.
    pub fn add_step(
        &mut self,
        feature_name: String,
        scenario_name: String,
        step_name: String,
        step_keyword: String,
    ) -> (r: Result<(), LookupError>)
        ensures
            match spec_add_step(
                old(self)@.features,
                feature_name@,
                scenario_name@,
                step_keyword@,
                step_name@,
            ) {
                Ok(fs2) => r is Ok && final(self)@.features == fs2,
                Err(ev) => {
                    &&& r matches Err(e) && e@ == ev
                    &&& final(self)@.features == old(self)@.features
                },
            },
            final(self)@.closed == old(self)@.closed,
    {
        let ghost before = self@.features;
        match self.get_feature(feature_name.as_str()) {
            None => Err(LookupError { kind: EntityKind::Feature, key: feature_name }),
            Some(i) => {
                proof {
                    lemma_first_feature(before, feature_name@);
                    assert(before[i as int] == self.features@.map_values(
                        |f: FeatureStats| f@,
                    )[i as int]);
                }
                match self.features[i].get_scenario(scenario_name.as_str()) {
                    None => Err(LookupError { kind: EntityKind::Scenario, key: scenario_name }),
                    Some(j) => {
                        let ghost fv = before[i as int];
                        let ghost sv = fv.scenarios[j as int];
                        proof {
                            lemma_first_scenario(fv.scenarios, scenario_name@);
                        }
                        let f = vec_index_mut(&mut self.features, i);
                        let sc = vec_index_mut(&mut f.scenarios, j);
                        sc.steps.push(StepStats::new(step_name, step_keyword));
                        proof {
                            assert(sc@.steps =~= sv.steps.push(
                                StepView { keyword: step_keyword@, name: step_name@, result: None },
                            ));
                            assert(f@.scenarios =~= fv.scenarios.update(
                                j as int,
                                ScenarioView { name: sv.name, steps: sc@.steps, result: sv.result },
                            ));
                            assert(self@.features =~= before.update(
                                i as int,
                                FeatureView { name: fv.name, scenarios: f@.scenarios },
                            ));
                        }
                        Ok(())
                    },
                }
            },
        }
    }

    /// Store a scenario's terminal status (last write wins), or report
    /// the missing ancestor as a protocol violation.
    pub fn set_scenario_result(
        &mut self,
        feature_name: String,
        scenario_name: String,
        result: StatResult,
    ) -> (r: Result<(), LookupError>)
        ensures
            match spec_set_scenario_result(
                old(self)@.features,
                feature_name@,
                scenario_name@,
                result,
            ) {
                Ok(fs2) => r is Ok && final(self)@.features == fs2,
                Err(ev) => {
                    &&& r matches Err(e) && e@ == ev
                    &&& final(self)@.features == old(self)@.features
                },
            },
            final(self)@.closed == old(self)@.closed,
    {
        let ghost before = self@.features;
        match self.get_feature(feature_name.as_str()) {
            None => Err(LookupError { kind: EntityKind::Feature, key: feature_name }),
            Some(i) => {
                proof {
                    lemma_first_feature(before, feature_name@);
                    assert(before[i as int] == self.features@.map_values(
                        |f: FeatureStats| f@,
                    )[i as int]);
                }
                match self.features[i].get_scenario(scenario_name.as_str()) {
                    None => Err(LookupError { kind: EntityKind::Scenario, key: scenario_name }),
                    Some(j) => {
                        let ghost fv = before[i as int];
                        let ghost sv = fv.scenarios[j as int];
                        proof {
                            lemma_first_scenario(fv.scenarios, scenario_name@);
                        }
                        let f = vec_index_mut(&mut self.features, i);
                        let sc = vec_index_mut(&mut f.scenarios, j);
                        sc.result = Some(result);
                        proof {
                            assert(f@.scenarios =~= fv.scenarios.update(
                                j as int,
                                ScenarioView {
                                    name: sv.name,
                                    steps: sv.steps,
                                    result: Some(result),
                                },
                            ));
                            assert(self@.features =~= before.update(
                                i as int,
                                FeatureView { name: fv.name, scenarios: f@.scenarios },
                            ));
                        }
                        Ok(())
                    },
                }
            },
        }
    }

    /// Store a step's terminal status (last write wins), or report the
    /// missing ancestor as a protocol violation.
    pub fn set_step_result(
        &mut self,
        feature_name: String,
        scenario_name: String,
        step_name: String,
        step_keyword: String,
        result: StatResult,
    ) -> (r: Result<(), LookupError>)
        ensures
            match spec_set_step_result(
                old(self)@.features,
                feature_name@,
                scenario_name@,
                step_keyword@,
                step_name@,
                result,
            ) {
                Ok(fs2) => r is Ok && final(self)@.features == fs2,
                Err(ev) => {
                    &&& r matches Err(e) && e@ == ev
                    &&& final(self)@.features == old(self)@.features
                },
            },
            final(self)@.closed == old(self)@.closed,
    {
        let ghost before = self@.features;
        match self.get_feature(feature_name.as_str()) {
            None => Err(LookupError { kind: EntityKind::Feature, key: feature_name }),
            Some(i) => {
                proof {
                    lemma_first_feature(before, feature_name@);
                    assert(before[i as int] == self.features@.map_values(
                        |f: FeatureStats| f@,
                    )[i as int]);
                }
                match self.features[i].get_scenario(scenario_name.as_str()) {
                    None => Err(LookupError { kind: EntityKind::Scenario, key: scenario_name }),
                    Some(j) => {
                        proof {
                            lemma_first_scenario(before[i as int].scenarios, scenario_name@);
                            assert(before[i as int].scenarios[j as int] == self.features[
                                i as int]@.scenarios[j as int]);
                        }
                        match self.features[i].scenarios[j].get_step(
                            step_keyword.as_str(),
                            step_name.as_str(),
                        ) {
                            None => Err(LookupError { kind: EntityKind::Step, key: step_name }),
                            Some(k) => {
                                let ghost fv = before[i as int];
                                let ghost sv = fv.scenarios[j as int];
                                let ghost stv = sv.steps[k as int];
                                proof {
                                    lemma_first_step(sv.steps, step_keyword@, step_name@);
                                }
                                let f = vec_index_mut(&mut self.features, i);
                                let sc = vec_index_mut(&mut f.scenarios, j);
                                let st = vec_index_mut(&mut sc.steps, k);
                                st.result = Some(result);
                                proof {
                                    assert(sc@.steps =~= sv.steps.update(
                                        k as int,
                                        StepView {
                                            keyword: stv.keyword,
                                            name: stv.name,
                                            result: Some(result),
                                        },
                                    ));
                                    assert(f@.scenarios =~= fv.scenarios.update(
                                        j as int,
                                        ScenarioView {
                                            name: sv.name,
                                            steps: sc@.steps,
                                            result: sv.result,
                                        },
                                    ));
                                    assert(self@.features =~= before.update(
                                        i as int,
                                        FeatureView { name: fv.name, scenarios: f@.scenarios },
                                    ));
                                }
                                Ok(())
                            },
                        }
                    },
                }
            },
        }
    }
}

// ---------------------------------------------------------------------
// The event sink.
// ---------------------------------------------------------------------
/// The single mutation gateway of one run. A driving loop that delivers
/// events concurrently serializes calls through one exclusive lock held
/// around each dispatch; the sink itself is purely sequential.
pub struct RunEventHandler {
    pub state: EventHandlerState,
}

impl Default for RunEventHandler {
    /// A sink over an empty, open tree.
    fn default() -> (r: Self)
        ensures
            r.state@ == (StateView { features: Seq::empty(), closed: false }),
    {
        RunEventHandler { state: EventHandlerState::new() }
    }
}

impl RunEventHandler {
    /// A sink over an empty, open tree.
    pub fn new() -> (r: Self)
        ensures
            r.state@ == (StateView { features: Seq::empty(), closed: false }),
    {
        RunEventHandler { state: EventHandlerState::new() }
    }

    /// One dispatch: select and apply the mutation the event asks for.
    /// A lookup failure is a protocol violation and leaves the tree
    /// unchanged; unknown event shapes are a silent no-op.
    pub fn handle_event(&mut self, event: RunEvent) -> (r: Result<(), LookupError>)
        ensures
            match spec_handle(old(self).state@.features, event@) {
                Ok(fs2) => r is Ok && final(self).state@.features == fs2,
                Err(ev) => {
                    &&& r matches Err(e) && e@ == ev
                    &&& final(self).state@.features == old(self).state@.features
                },
            },
            final(self).state@.closed == old(self).state@.closed,
    {
        match event {
            RunEvent::FeatureStarting { name } => {
                self.state.add_feature(name);
                Ok(())
            },
            RunEvent::ScenarioStarting { feature, name } => self.state.add_scenario(feature, name),
            RunEvent::StepStarting { feature, scenario, keyword, name } => self.state.add_step(
                feature,
                scenario,
                name,
                keyword,
            ),
            RunEvent::StepOutcome { feature, scenario, keyword, name, outcome } => {
                let result = match outcome {
                    StepOutcomeKind::Passed => StatResult::Passed,
                    StepOutcomeKind::FailedByPanic => StatResult::Failed,
                    StepOutcomeKind::FailedByTimeout => StatResult::Failed,
                };
                self.state.set_step_result(feature, scenario, name, keyword, result)
            },
            RunEvent::ScenarioOutcome { feature, scenario, outcome } => {
                let result = match outcome {
                    ScenarioOutcomeKind::Passed => StatResult::Passed,
                    ScenarioOutcomeKind::FailedByPanic => StatResult::Failed,
                    ScenarioOutcomeKind::Skipped => StatResult::Skipped,
                };
                self.state.set_scenario_result(feature, scenario, result)
            },
            RunEvent::Other => Ok(()),
        }
    }
}

} // verus!

//! The event protocol and what it guarantees: replaying any event
//! sequence that honours the ordering contract builds every started
//! feature, scenario and step exactly once, in first-seen order, and
//! loses nothing.
use vstd::prelude::*;
use crate::stats::{
    EventView, FeatureView, LookupView, ScenarioView, first_feature, first_scenario, first_step,
    lemma_first_feature, lemma_first_scenario, lemma_first_step, spec_handle,
};

verus! {

/// Replay a whole event sequence through the sink, stopping at the
/// first protocol violation.
pub open spec fn run_events(fs: Seq<FeatureView>, es: Seq<EventView>) -> Result<
    Seq<FeatureView>,
    LookupView,
>
    decreases es.len(),
{
    if es.len() == 0 {
        Ok(fs)
    } else {
        match spec_handle(fs, es[0]) {
            Ok(f2) => run_events(f2, es.drop_first()),
            Err(e) => Err(e),
        }
    }
}

/// The names of the features started so far, in order.
pub open spec fn feat_starts(es: Seq<EventView>) -> Seq<Seq<char>>
    decreases es.len(),
{
    if es.len() == 0 {
        Seq::empty()
    } else {
        let p = feat_starts(es.drop_last());
        match es.last() {
            EventView::FeatureStarting { name } => p.push(name),
            _ => p,
        }
    }
}

/// The names of the scenarios started under feature `f`, in order.
pub open spec fn scen_starts(es: Seq<EventView>, f: Seq<char>) -> Seq<Seq<char>>
    decreases es.len(),
{
    if es.len() == 0 {
        Seq::empty()
    } else {
        let p = scen_starts(es.drop_last(), f);
        match es.last() {
            EventView::ScenarioStarting { feature, name } => if feature == f {
                p.push(name)
            } else {
                p
            },
            _ => p,
        }
    }
}

/// The identities of the steps started under scenario `sc` of feature
/// `f`, in order.
pub open spec fn step_starts(es: Seq<EventView>, f: Seq<char>, sc: Seq<char>) -> Seq<
    (Seq<char>, Seq<char>),
>
    decreases es.len(),
{
    if es.len() == 0 {
        Seq::empty()
    } else {
        let p = step_starts(es.drop_last(), f, sc);
        match es.last() {
            EventView::StepStarting { feature, scenario, keyword, name } => if feature == f
                && scenario == sc {
                p.push((keyword, name))
            } else {
                p
            },
            _ => p,
        }
    }
}

/// How many scenario-start events the sequence holds, over all features.
pub open spec fn scen_count(es: Seq<EventView>) -> int
    decreases es.len(),
{
    if es.len() == 0 {
        0
    } else {
        scen_count(es.drop_last()) + match es.last() {
            EventView::ScenarioStarting { .. } => 1int,
            _ => 0int,
        }
    }
}

/// Total number of scenarios held by a feature list.
pub open spec fn scen_total(fs: Seq<FeatureView>) -> int
    decreases fs.len(),
{
    if fs.len() == 0 {
        0
    } else {
        scen_total(fs.drop_last()) + fs.last().scenarios.len()
    }
}

/// The ordering contract at position `i`: a feature name is started at
/// most once; a scenario or step is started after its parent and at most
/// once; an outcome follows the matching start.
pub open spec fn wf_at(es: Seq<EventView>, i: int) -> bool {
    let p = es.take(i);
    match es[i] {
        EventView::FeatureStarting { name } => !feat_starts(p).contains(name),
        EventView::ScenarioStarting { feature, name } => feat_starts(p).contains(feature)
            && !scen_starts(p, feature).contains(name),
        EventView::StepStarting { feature, scenario, keyword, name } => scen_starts(
            p,
            feature,
        ).contains(scenario) && !step_starts(p, feature, scenario).contains((keyword, name)),
        EventView::StepOutcome { feature, scenario, keyword, name, .. } => step_starts(
            p,
            feature,
            scenario,
        ).contains((keyword, name)),
        EventView::ScenarioOutcome { feature, scenario, .. } => scen_starts(
            p,
            feature,
        ).contains(scenario),
        EventView::Other => true,
    }
}

/// The whole sequence honours the ordering contract.
pub open spec fn wf(es: Seq<EventView>) -> bool {
    forall|i: int| 0 <= i < es.len() ==> wf_at(es, i)
}

/// The tree holds exactly the started entities, in first-seen order.
pub open spec fn steps_ok(hist: Seq<EventView>, fname: Seq<char>, sc: ScenarioView) -> bool {
    let ids = step_starts(hist, fname, sc.name);
    &&& sc.steps.len() == ids.len()
    &&& forall|k: int|
        0 <= k < sc.steps.len() ==> ((#[trigger] sc.steps[k]).keyword, sc.steps[k].name) == ids[k]
}

pub open spec fn feature_ok(hist: Seq<EventView>, f: FeatureView) -> bool {
    let names = scen_starts(hist, f.name);
    &&& f.scenarios.len() == names.len()
    &&& forall|j: int| 0 <= j < f.scenarios.len() ==> (#[trigger] f.scenarios[j]).name == names[j]
    &&& forall|j: int| 0 <= j < f.scenarios.len() ==> steps_ok(hist, f.name, #[trigger] f.scenarios[j])
}

pub open spec fn consistent(hist: Seq<EventView>, fs: Seq<FeatureView>) -> bool {
    &&& fs.len() == feat_starts(hist).len()
    &&& forall|i: int| 0 <= i < fs.len() ==> (#[trigger] fs[i]).name == feat_starts(hist)[i]
    &&& forall|i: int| 0 <= i < fs.len() ==> feature_ok(hist, #[trigger] fs[i])
    &&& scen_total(fs) == scen_count(hist)
}

// ---------------------------------------------------------------------
// Small facts about the projections.
// ---------------------------------------------------------------------
proof fn lemma_contains_push<T>(s: Seq<T>, x: T, y: T)
    requires
        s.contains(x),
    ensures
        s.push(y).contains(x),
{
    let idx = choose|idx: int| 0 <= idx < s.len() && s[idx] == x;
    assert(s.push(y)[idx] == x);
}

proof fn lemma_wf_take(es: Seq<EventView>, n: int)
    requires
        wf(es),
        0 <= n <= es.len(),
    ensures
        wf(es.take(n)),
{
    assert forall|i: int| 0 <= i < n implies wf_at(es.take(n), i) by {
        assert(wf_at(es, i));
        assert(es.take(n).take(i) =~= es.take(i));
        assert(es.take(n)[i] == es[i]);
    }
}

/// A feature never started has no scenarios started under it.
proof fn lemma_no_feat_no_scens(es: Seq<EventView>, f: Seq<char>)
    requires
        wf(es),
        !feat_starts(es).contains(f),
    ensures
        scen_starts(es, f) == Seq::<Seq<char>>::empty(),
    decreases es.len(),
{
    if es.len() > 0 {
        let p = es.drop_last();
        assert(p =~= es.take(es.len() - 1));
        lemma_wf_take(es, es.len() - 1);
        assert(!feat_starts(p).contains(f)) by {
            if feat_starts(p).contains(f) {
                match es.last() {
                    EventView::FeatureStarting { name } => {
                        lemma_contains_push(feat_starts(p), f, name);
                    },
                    _ => {},
                }
            }
        }
        lemma_no_feat_no_scens(p, f);
        match es.last() {
            EventView::ScenarioStarting { feature, name } => {
                if feature == f {
                    assert(wf_at(es, es.len() - 1));
                    assert(false);
                }
            },
            _ => {},
        }
    }
}

/// A scenario never started has no steps started under it.
proof fn lemma_no_scen_no_steps(es: Seq<EventView>, f: Seq<char>, sc: Seq<char>)
    requires
        wf(es),
        !scen_starts(es, f).contains(sc),
    ensures
        step_starts(es, f, sc) == Seq::<(Seq<char>, Seq<char>)>::empty(),
    decreases es.len(),
{
    if es.len() > 0 {
        let p = es.drop_last();
        assert(p =~= es.take(es.len() - 1));
        lemma_wf_take(es, es.len() - 1);
        assert(!scen_starts(p, f).contains(sc)) by {
            if scen_starts(p, f).contains(sc) {
                match es.last() {
                    EventView::ScenarioStarting { feature, name } => {
                        if feature == f {
                            lemma_contains_push(scen_starts(p, f), sc, name);
                        }
                    },
                    _ => {},
                }
            }
        }
        lemma_no_scen_no_steps(p, f, sc);
        match es.last() {
            EventView::StepStarting { feature, scenario, keyword, name } => {
                if feature == f && scenario == sc {
                    assert(wf_at(es, es.len() - 1));
                    assert(false);
                }
            },
            _ => {},
        }
    }
}

/// Feature names are started at most once: the projection is duplicate
/// free.
proof fn lemma_feat_distinct(es: Seq<EventView>)
    requires
        wf(es),
    ensures
        forall|a: int, b: int|
            #![trigger feat_starts(es)[a], feat_starts(es)[b]]
            0 <= a < b < feat_starts(es).len() ==> feat_starts(es)[a] != feat_starts(es)[b],
    decreases es.len(),
{
    if es.len() > 0 {
        let p = es.drop_last();
        assert(p =~= es.take(es.len() - 1));
        lemma_wf_take(es, es.len() - 1);
        lemma_feat_distinct(p);
        match es.last() {
            EventView::FeatureStarting { name } => {
                assert(wf_at(es, es.len() - 1));
                assert forall|a: int, b: int|
                    #![trigger feat_starts(es)[a], feat_starts(es)[b]]
                    0 <= a < b < feat_starts(es).len() implies feat_starts(es)[a]
                    != feat_starts(es)[b] by {
                    if b == feat_starts(es).len() - 1 {
                        if feat_starts(p)[a] == name {
                            assert(feat_starts(p).contains(name));
                        }
                    }
                }
            },
            _ => {},
        }
    }
}

/// Scenario names are started at most once within a feature.
proof fn lemma_scen_distinct(es: Seq<EventView>, f: Seq<char>)
    requires
        wf(es),
    ensures
        forall|a: int, b: int|
            #![trigger scen_starts(es, f)[a], scen_starts(es, f)[b]]
            0 <= a < b < scen_starts(es, f).len() ==> scen_starts(es, f)[a] != scen_starts(
                es,
                f,
            )[b],
    decreases es.len(),
{
    if es.len() > 0 {
        let p = es.drop_last();
        assert(p =~= es.take(es.len() - 1));
        lemma_wf_take(es, es.len() - 1);
        lemma_scen_distinct(p, f);
        match es.last() {
            EventView::ScenarioStarting { feature, name } => {
                if feature == f {
                    assert(wf_at(es, es.len() - 1));
                    assert forall|a: int, b: int|
                        #![trigger scen_starts(es, f)[a], scen_starts(es, f)[b]]
                        0 <= a < b < scen_starts(es, f).len() implies scen_starts(es, f)[a]
                        != scen_starts(es, f)[b] by {
                        if b == scen_starts(es, f).len() - 1 {
                            if scen_starts(p, f)[a] == name {
                                assert(scen_starts(p, f).contains(name));
                            }
                        }
                    }
                }
            },
            _ => {},
        }
    }
}

/// A started feature is in the tree, at the index its start event has
/// among the feature starts.
proof fn lemma_find_feature(hist: Seq<EventView>, fs: Seq<FeatureView>, f: Seq<char>) -> (i0: int)
    requires
        consistent(hist, fs),
        feat_starts(hist).contains(f),
    ensures
        0 <= i0 < fs.len(),
        first_feature(fs, f) == i0,
        fs[i0].name == f,
{
    let names = feat_starts(hist);
    let idx = choose|idx: int| 0 <= idx < names.len() && names[idx] == f;
    assert(fs[idx].name == f);
    lemma_first_feature(fs, f);
    first_feature(fs, f)
}

/// A started scenario is in its feature's list, at the index its start
/// event has among that feature's scenario starts.
proof fn lemma_find_scenario(
    hist: Seq<EventView>,
    fs: Seq<FeatureView>,
    i0: int,
    sc: Seq<char>,
) -> (j0: int)
    requires
        consistent(hist, fs),
        0 <= i0 < fs.len(),
        scen_starts(hist, fs[i0].name).contains(sc),
    ensures
        0 <= j0 < fs[i0].scenarios.len(),
        first_scenario(fs[i0].scenarios, sc) == j0,
        fs[i0].scenarios[j0].name == sc,
{
    let names = scen_starts(hist, fs[i0].name);
    let idx = choose|idx: int| 0 <= idx < names.len() && names[idx] == sc;
    assert(feature_ok(hist, fs[i0]));
    assert(fs[i0].scenarios[idx].name == sc);
    lemma_first_scenario(fs[i0].scenarios, sc);
    first_scenario(fs[i0].scenarios, sc)
}

/// Totals under an update that adds one scenario to one feature.
proof fn lemma_scen_total_update(fs: Seq<FeatureView>, i: int, f2: FeatureView, d: int)
    requires
        0 <= i < fs.len(),
        f2.scenarios.len() == fs[i].scenarios.len() + d,
    ensures
        scen_total(fs.update(i, f2)) == scen_total(fs) + d,
    decreases fs.len(),
{
    let fs2 = fs.update(i, f2);
    if i == fs.len() - 1 {
        assert(fs2.drop_last() =~= fs.drop_last());
        assert(fs2.last() == f2);
    } else {
        assert(fs2.drop_last() =~= fs.drop_last().update(i, f2));
        assert(fs2.last() == fs.last());
        lemma_scen_total_update(fs.drop_last(), i, f2, d);
    }
}

// ---------------------------------------------------------------------
// One dispatch preserves consistency.
// ---------------------------------------------------------------------
#[verifier::rlimit(100)]
proof fn lemma_step_feature(hist: Seq<EventView>, fs: Seq<FeatureView>, name: Seq<char>)
    requires
        consistent(hist, fs),
        wf(hist.push(EventView::FeatureStarting { name })),
    ensures
        spec_handle(fs, EventView::FeatureStarting { name }) matches Ok(f2) && consistent(
            hist.push(EventView::FeatureStarting { name }),
            f2,
        ),
{
    let e = EventView::FeatureStarting { name };
    let h2 = hist.push(e);
    assert(h2.drop_last() =~= hist);
    assert(h2.take(hist.len() as int) =~= hist);
    lemma_wf_take(h2, hist.len() as int);
    assert(wf_at(h2, hist.len() as int));
    assert(!feat_starts(hist).contains(name));
    let nf = FeatureView { name, scenarios: Seq::empty() };
    let fs2 = fs.push(nf);
    assert(feat_starts(h2) == feat_starts(hist).push(name));
    lemma_no_feat_no_scens(hist, name);
    assert forall|i: int| 0 <= i < fs2.len() implies feature_ok(h2, #[trigger] fs2[i]) by {
        if i < fs.len() {
            assert(fs2[i] == fs[i]);
            assert(feature_ok(hist, fs[i]));
            assert(scen_starts(h2, fs[i].name) == scen_starts(hist, fs[i].name));
            assert forall|j: int|
                0 <= j < fs[i].scenarios.len() implies steps_ok(
                h2,
                fs[i].name,
                #[trigger] fs[i].scenarios[j],
            ) by {
                assert(steps_ok(hist, fs[i].name, fs[i].scenarios[j]));
                assert(step_starts(h2, fs[i].name, fs[i].scenarios[j].name) == step_starts(
                    hist,
                    fs[i].name,
                    fs[i].scenarios[j].name,
                ));
            }
        } else {
            assert(fs2[i] == nf);
            assert(scen_starts(h2, name) == scen_starts(hist, name));
        }
    }
    assert(fs2.drop_last() =~= fs);
    assert(scen_total(fs2) == scen_total(fs));
    assert(scen_count(h2) == scen_count(hist));
    assert(consistent(h2, fs2));
}

#[verifier::rlimit(100)]
proof fn lemma_step_scenario(
    hist: Seq<EventView>,
    fs: Seq<FeatureView>,
    feature: Seq<char>,
    name: Seq<char>,
)
    requires
        consistent(hist, fs),
        wf(hist.push(EventView::ScenarioStarting { feature, name })),
    ensures
        spec_handle(fs, EventView::ScenarioStarting { feature, name }) matches Ok(f2)
            && consistent(hist.push(EventView::ScenarioStarting { feature, name }), f2),
{
    let e = EventView::ScenarioStarting { feature, name };
    let h2 = hist.push(e);
    assert(h2.drop_last() =~= hist);
    assert(h2.take(hist.len() as int) =~= hist);
    lemma_wf_take(h2, hist.len() as int);
    assert(wf_at(h2, hist.len() as int));
    assert(feat_starts(hist).contains(feature));
    assert(!scen_starts(hist, feature).contains(name));
    let i0 = lemma_find_feature(hist, fs, feature);
    lemma_feat_distinct(hist);
    lemma_no_scen_no_steps(hist, feature, name);
    let old_f = fs[i0];
    let nsc = ScenarioView { name, steps: Seq::empty(), result: None };
    let new_f = FeatureView { name: old_f.name, scenarios: old_f.scenarios.push(nsc) };
    let fs2 = fs.update(i0, new_f);
    assert(feat_starts(h2) == feat_starts(hist));
    assert(scen_starts(h2, feature) == scen_starts(hist, feature).push(name));
    assert forall|i: int| 0 <= i < fs2.len() implies (#[trigger] fs2[i]).name == feat_starts(h2)[i]
        by {
        if i != i0 {
            assert(fs2[i] == fs[i]);
        }
    }
    assert forall|i: int| 0 <= i < fs2.len() implies feature_ok(h2, #[trigger] fs2[i]) by {
        assert(feature_ok(hist, fs[i]));
        if i == i0 {
            assert(fs2[i] == new_f);
            assert forall|j: int|
                0 <= j < new_f.scenarios.len() implies (#[trigger] new_f.scenarios[j]).name
                == scen_starts(h2, feature)[j] by {
                if j < old_f.scenarios.len() {
                    assert(new_f.scenarios[j] == old_f.scenarios[j]);
                }
            }
            assert forall|j: int|
                0 <= j < new_f.scenarios.len() implies steps_ok(
                h2,
                feature,
                #[trigger] new_f.scenarios[j],
            ) by {
                if j < old_f.scenarios.len() {
                    assert(new_f.scenarios[j] == old_f.scenarios[j]);
                    assert(steps_ok(hist, feature, old_f.scenarios[j]));
                    assert(step_starts(h2, feature, old_f.scenarios[j].name) == step_starts(
                        hist,
                        feature,
                        old_f.scenarios[j].name,
                    ));
                } else {
                    assert(new_f.scenarios[j] == nsc);
                    assert(step_starts(h2, feature, name) == step_starts(hist, feature, name));
                }
            }
        } else {
            assert(fs2[i] == fs[i]);
            assert(fs[i].name == feat_starts(hist)[i]);
            assert(fs[i0].name == feat_starts(hist)[i0]);
            assert(fs[i].name != feature);
            assert(scen_starts(h2, fs[i].name) == scen_starts(hist, fs[i].name));
            assert forall|j: int|
                0 <= j < fs[i].scenarios.len() implies steps_ok(
                h2,
                fs[i].name,
                #[trigger] fs[i].scenarios[j],
            ) by {
                assert(steps_ok(hist, fs[i].name, fs[i].scenarios[j]));
                assert(step_starts(h2, fs[i].name, fs[i].scenarios[j].name) == step_starts(
                    hist,
                    fs[i].name,
                    fs[i].scenarios[j].name,
                ));
            }
        }
    }
    lemma_scen_total_update(fs, i0, new_f, 1);
    assert(scen_count(h2) == scen_count(hist) + 1);
    assert(spec_handle(fs, e) matches Ok(f2) && f2 == fs2);
    assert(consistent(h2, fs2));
}

#[verifier::rlimit(100)]
proof fn lemma_step_step(
    hist: Seq<EventView>,
    fs: Seq<FeatureView>,
    feature: Seq<char>,
    scenario: Seq<char>,
    keyword: Seq<char>,
    name: Seq<char>,
)
    requires
        consistent(hist, fs),
        wf(hist.push(EventView::StepStarting { feature, scenario, keyword, name })),
    ensures
        spec_handle(fs, EventView::StepStarting { feature, scenario, keyword, name }) matches Ok(
            f2,
        ) && consistent(hist.push(EventView::StepStarting { feature, scenario, keyword, name }), f2),
{
    let e = EventView::StepStarting { feature, scenario, keyword, name };
    let h2 = hist.push(e);
    assert(h2.drop_last() =~= hist);
    assert(h2.take(hist.len() as int) =~= hist);
    lemma_wf_take(h2, hist.len() as int);
    assert(wf_at(h2, hist.len() as int));
    assert(scen_starts(hist, feature).contains(scenario));
    assert(!step_starts(hist, feature, scenario).contains((keyword, name)));
    if !feat_starts(hist).contains(feature) {
        lemma_no_feat_no_scens(hist, feature);
        assert(false);
    }
    let i0 = lemma_find_feature(hist, fs, feature);
    let j0 = lemma_find_scenario(hist, fs, i0, scenario);
    lemma_feat_distinct(hist);
    lemma_scen_distinct(hist, feature);
    let old_f = fs[i0];
    let old_sc = old_f.scenarios[j0];
    let nst = crate::stats::StepView { keyword, name, result: None };
    let new_sc = ScenarioView {
        name: old_sc.name,
        steps: old_sc.steps.push(nst),
        result: old_sc.result,
    };
    let new_f = FeatureView { name: old_f.name, scenarios: old_f.scenarios.update(j0, new_sc) };
    let fs2 = fs.update(i0, new_f);
    assert(feat_starts(h2) == feat_starts(hist));
    assert(step_starts(h2, feature, scenario) == step_starts(hist, feature, scenario).push(
        (keyword, name),
    ));
    assert forall|i: int| 0 <= i < fs2.len() implies (#[trigger] fs2[i]).name == feat_starts(h2)[i]
        by {
        if i != i0 {
            assert(fs2[i] == fs[i]);
        }
    }
    assert forall|i: int| 0 <= i < fs2.len() implies feature_ok(h2, #[trigger] fs2[i]) by {
        assert(feature_ok(hist, fs[i]));
        assert(scen_starts(h2, fs[i].name) == scen_starts(hist, fs[i].name));
        if i == i0 {
            assert(fs2[i] == new_f);
            assert forall|j: int|
                0 <= j < new_f.scenarios.len() implies (#[trigger] new_f.scenarios[j]).name
                == scen_starts(h2, feature)[j] by {
                if j != j0 {
                    assert(new_f.scenarios[j] == old_f.scenarios[j]);
                }
            }
            assert forall|j: int|
                0 <= j < new_f.scenarios.len() implies steps_ok(
                h2,
                feature,
                #[trigger] new_f.scenarios[j],
            ) by {
                if j == j0 {
                    assert(new_f.scenarios[j] == new_sc);
                    assert(steps_ok(hist, feature, old_sc));
                    assert forall|k: int|
                        0 <= k < new_sc.steps.len() implies ((#[trigger] new_sc.steps[k]).keyword,
                    new_sc.steps[k].name) == step_starts(h2, feature, scenario)[k] by {
                        if k < old_sc.steps.len() {
                            assert(new_sc.steps[k] == old_sc.steps[k]);
                        }
                    }
                } else {
                    assert(new_f.scenarios[j] == old_f.scenarios[j]);
                    assert(steps_ok(hist, feature, old_f.scenarios[j]));
                    assert(old_f.scenarios[j].name == scen_starts(hist, feature)[j]);
                    assert(old_sc.name == scen_starts(hist, feature)[j0]);
                    assert(old_f.scenarios[j].name != scenario);
                    assert(step_starts(h2, feature, old_f.scenarios[j].name) == step_starts(
                        hist,
                        feature,
                        old_f.scenarios[j].name,
                    ));
                }
            }
        } else {
            assert(fs2[i] == fs[i]);
            assert(fs[i].name != feature);
            assert forall|j: int|
                0 <= j < fs[i].scenarios.len() implies steps_ok(
                h2,
                fs[i].name,
                #[trigger] fs[i].scenarios[j],
            ) by {
                assert(steps_ok(hist, fs[i].name, fs[i].scenarios[j]));
                assert(step_starts(h2, fs[i].name, fs[i].scenarios[j].name) == step_starts(
                    hist,
                    fs[i].name,
                    fs[i].scenarios[j].name,
                ));
            }
        }
    }
    lemma_scen_total_update(fs, i0, new_f, 0);
    assert(scen_count(h2) == scen_count(hist));
    assert(spec_handle(fs, e) matches Ok(f2) && f2 == fs2);
    assert(consistent(h2, fs2));
}

#[verifier::rlimit(100)]
proof fn lemma_step_outcomes(hist: Seq<EventView>, fs: Seq<FeatureView>, e: EventView)
    requires
        consistent(hist, fs),
        wf(hist.push(e)),
        e matches EventView::ScenarioOutcome { .. } || e matches EventView::StepOutcome { .. },
    ensures
        spec_handle(fs, e) matches Ok(f2) && consistent(hist.push(e), f2),
{
    let h2 = hist.push(e);
    assert(h2.drop_last() =~= hist);
    assert(h2.take(hist.len() as int) =~= hist);
    lemma_wf_take(h2, hist.len() as int);
    assert(wf_at(h2, hist.len() as int));
    assert(feat_starts(h2) == feat_starts(hist));
    assert(scen_count(h2) == scen_count(hist));
    let feature = match e {
        EventView::ScenarioOutcome { feature, .. } => feature,
        EventView::StepOutcome { feature, .. } => feature,
        _ => Seq::empty(),
    };
    let scenario = match e {
        EventView::ScenarioOutcome { scenario, .. } => scenario,
        EventView::StepOutcome { scenario, .. } => scenario,
        _ => Seq::empty(),
    };
    match e {
        EventView::StepOutcome { feature: f1, scenario: s1, .. } => {
            if !scen_starts(hist, f1).contains(s1) {
                lemma_no_scen_no_steps(hist, f1, s1);
                assert(false);
            }
        },
        _ => {},
    }
    assert(scen_starts(hist, feature).contains(scenario));
    if !feat_starts(hist).contains(feature) {
        lemma_no_feat_no_scens(hist, feature);
        assert(false);
    }
    let i0 = lemma_find_feature(hist, fs, feature);
    let j0 = lemma_find_scenario(hist, fs, i0, scenario);
    lemma_feat_distinct(hist);
    lemma_scen_distinct(hist, feature);
    let old_f = fs[i0];
    let old_sc = old_f.scenarios[j0];
    let new_sc = match e {
        EventView::ScenarioOutcome { outcome, .. } => ScenarioView {
            name: old_sc.name,
            steps: old_sc.steps,
            result: Some(crate::stats::scenario_outcome_result(outcome)),
        },
        EventView::StepOutcome { keyword, name, outcome, .. } => {
            let k0 = first_step(old_sc.steps, keyword, name);
            let st = old_sc.steps[k0];
            ScenarioView {
                name: old_sc.name,
                steps: old_sc.steps.update(
                    k0,
                    crate::stats::StepView {
                        keyword: st.keyword,
                        name: st.name,
                        result: Some(crate::stats::step_outcome_result(outcome)),
                    },
                ),
                result: old_sc.result,
            }
        },
        _ => old_sc,
    };
    match e {
        EventView::StepOutcome { keyword, name, .. } => {
            assert(steps_ok(hist, feature, old_sc));
            let ids = step_starts(hist, feature, scenario);
            assert(ids.contains((keyword, name)));
            let idx = choose|idx: int| 0 <= idx < ids.len() && ids[idx] == (keyword, name);
            assert((old_sc.steps[idx].keyword, old_sc.steps[idx].name) == (keyword, name));
            assert(old_sc.steps[idx].keyword == keyword && old_sc.steps[idx].name == name);
            lemma_first_step(old_sc.steps, keyword, name);
            let k0 = first_step(old_sc.steps, keyword, name);
            assert(0 <= k0 < old_sc.steps.len());
        },
        _ => {},
    }
    let new_f = FeatureView { name: old_f.name, scenarios: old_f.scenarios.update(j0, new_sc) };
    let fs2 = fs.update(i0, new_f);
    assert(new_sc.steps.len() == old_sc.steps.len());
    assert forall|k: int|
        0 <= k < new_sc.steps.len() implies ((#[trigger] new_sc.steps[k]).keyword,
    new_sc.steps[k].name) == (old_sc.steps[k].keyword, old_sc.steps[k].name) by {}
    assert forall|i: int| 0 <= i < fs2.len() implies (#[trigger] fs2[i]).name == feat_starts(h2)[i]
        by {
        if i != i0 {
            assert(fs2[i] == fs[i]);
        }
    }
    assert forall|i: int| 0 <= i < fs2.len() implies feature_ok(h2, #[trigger] fs2[i]) by {
        assert(feature_ok(hist, fs[i]));
        assert(scen_starts(h2, fs[i].name) == scen_starts(hist, fs[i].name));
        if i == i0 {
            assert(fs2[i] == new_f);
            assert forall|j: int|
                0 <= j < new_f.scenarios.len() implies (#[trigger] new_f.scenarios[j]).name
                == scen_starts(h2, feature)[j] by {
                if j != j0 {
                    assert(new_f.scenarios[j] == old_f.scenarios[j]);
                }
            }
            assert forall|j: int|
                0 <= j < new_f.scenarios.len() implies steps_ok(
                h2,
                feature,
                #[trigger] new_f.scenarios[j],
            ) by {
                if j == j0 {
                    assert(new_f.scenarios[j] == new_sc);
                    assert(steps_ok(hist, feature, old_sc));
                    assert(step_starts(h2, feature, old_sc.name) == step_starts(
                        hist,
                        feature,
                        old_sc.name,
                    ));
                } else {
                    assert(new_f.scenarios[j] == old_f.scenarios[j]);
                    assert(steps_ok(hist, feature, old_f.scenarios[j]));
                    assert(step_starts(h2, feature, old_f.scenarios[j].name) == step_starts(
                        hist,
                        feature,
                        old_f.scenarios[j].name,
                    ));
                }
            }
        } else {
            assert(fs2[i] == fs[i]);
            assert forall|j: int|
                0 <= j < fs[i].scenarios.len() implies steps_ok(
                h2,
                fs[i].name,
                #[trigger] fs[i].scenarios[j],
            ) by {
                assert(steps_ok(hist, fs[i].name, fs[i].scenarios[j]));
                assert(step_starts(h2, fs[i].name, fs[i].scenarios[j].name) == step_starts(
                    hist,
                    fs[i].name,
                    fs[i].scenarios[j].name,
                ));
            }
        }
    }
    lemma_scen_total_update(fs, i0, new_f, 0);
    assert(spec_handle(fs, e) matches Ok(f2) && f2 == fs2);
    assert(consistent(h2, fs2));
}

/// One dispatch of a well-placed event succeeds and keeps the tree
/// consistent with its history.
proof fn lemma_step(hist: Seq<EventView>, fs: Seq<FeatureView>, e: EventView)
    requires
        consistent(hist, fs),
        wf(hist.push(e)),
    ensures
        spec_handle(fs, e) matches Ok(f2) && consistent(hist.push(e), f2),
{
    let h2 = hist.push(e);
    assert(h2.drop_last() =~= hist);
    match e {
        EventView::FeatureStarting { name } => {
            lemma_step_feature(hist, fs, name);
        },
        EventView::ScenarioStarting { feature, name } => {
            lemma_step_scenario(hist, fs, feature, name);
        },
        EventView::StepStarting { feature, scenario, keyword, name } => {
            lemma_step_step(hist, fs, feature, scenario, keyword, name);
        },
        EventView::StepOutcome { .. } => {
            lemma_step_outcomes(hist, fs, e);
        },
        EventView::ScenarioOutcome { .. } => {
            lemma_step_outcomes(hist, fs, e);
        },
        EventView::Other => {
            assert(feat_starts(h2) == feat_starts(hist));
            assert(scen_count(h2) == scen_count(hist));
            assert forall|i: int| 0 <= i < fs.len() implies feature_ok(h2, #[trigger] fs[i]) by {
                assert(feature_ok(hist, fs[i]));
                assert(scen_starts(h2, fs[i].name) == scen_starts(hist, fs[i].name));
                assert forall|j: int|
                    0 <= j < fs[i].scenarios.len() implies steps_ok(
                    h2,
                    fs[i].name,
                    #[trigger] fs[i].scenarios[j],
                ) by {
                    assert(steps_ok(hist, fs[i].name, fs[i].scenarios[j]));
                    assert(step_starts(h2, fs[i].name, fs[i].scenarios[j].name) == step_starts(
                        hist,
                        fs[i].name,
                        fs[i].scenarios[j].name,
                    ));
                }
            }
            assert(consistent(h2, fs));
        },
    }
}

proof fn lemma_run(hist: Seq<EventView>, fs: Seq<FeatureView>, es: Seq<EventView>)
    requires
        consistent(hist, fs),
        wf(hist + es),
    ensures
        run_events(fs, es) matches Ok(f2) && consistent(hist + es, f2),
    decreases es.len(),
{
    if es.len() == 0 {
        assert(hist + es =~= hist);
    } else {
        let e = es[0];
        let h2 = hist.push(e);
        assert(h2 =~= (hist + es).take(hist.len() as int + 1));
        lemma_wf_take(hist + es, hist.len() as int + 1);
        lemma_step(hist, fs, e);
        let f2 = match spec_handle(fs, e) {
            Ok(f2) => f2,
            Err(_) => fs,
        };
        assert(h2 + es.drop_first() =~= hist + es);
        lemma_run(h2, f2, es.drop_first());
    }
}

// ---------------------------------------------------------------------
// The protocol laws.
// ---------------------------------------------------------------------
/// Replaying any event sequence that honours the ordering contract
/// succeeds, and the resulting tree holds every started feature,
/// scenario and step exactly once, in first-seen order: the feature
/// names are exactly the feature-start names in order and duplicate
/// free, each feature's scenario names are exactly its scenario-start
/// names in order, and each scenario's step identities are exactly its
/// step-start identities in order.
pub proof fn lemma_event_replay(es: Seq<EventView>)
    requires
        wf(es),
    ensures
        run_events(Seq::empty(), es) matches Ok(fs) && consistent(es, fs),
{
    assert(consistent(Seq::empty(), Seq::<FeatureView>::empty())) by {
        assert(feat_starts(Seq::<EventView>::empty()) =~= Seq::<Seq<char>>::empty());
    }
    assert(Seq::<EventView>::empty() + es =~= es);
    lemma_run(Seq::empty(), Seq::empty(), es);
}

/// Nothing is lost or invented: after replaying any event sequence that
/// honours the ordering contract — in particular any interleaving of
/// concurrent producers working on disjoint features — the tree holds
/// exactly one feature per feature-start event and exactly one scenario
/// per scenario-start event.
pub proof fn lemma_entity_counts(es: Seq<EventView>)
    requires
        wf(es),
    ensures
        run_events(Seq::empty(), es) matches Ok(fs) && fs.len() == feat_starts(es).len()
            && scen_total(fs) == scen_count(es),
{
    lemma_event_replay(es);
}

} // verus!

use somebdd::outcome::StatResult;
use somebdd::report::{RunCounters, RunStats, ReportError};
use somebdd::render::render_report;
use somebdd::stats::{
    EntityKind, RunEvent, RunEventHandler, ScenarioOutcomeKind, StepOutcomeKind,
};

fn feature_starting(name: &str) -> RunEvent {
    RunEvent::FeatureStarting { name: name.to_string() }
}

fn scenario_starting(feature: &str, name: &str) -> RunEvent {
    RunEvent::ScenarioStarting { feature: feature.to_string(), name: name.to_string() }
}

fn step_starting(feature: &str, scenario: &str, keyword: &str, name: &str) -> RunEvent {
    RunEvent::StepStarting {
        feature: feature.to_string(),
        scenario: scenario.to_string(),
        keyword: keyword.to_string(),
        name: name.to_string(),
    }
}

fn scenario_outcome(feature: &str, scenario: &str, outcome: ScenarioOutcomeKind) -> RunEvent {
    RunEvent::ScenarioOutcome {
        feature: feature.to_string(),
        scenario: scenario.to_string(),
        outcome,
    }
}

fn step_outcome(
    feature: &str,
    scenario: &str,
    keyword: &str,
    name: &str,
    outcome: StepOutcomeKind,
) -> RunEvent {
    RunEvent::StepOutcome {
        feature: feature.to_string(),
        scenario: scenario.to_string(),
        keyword: keyword.to_string(),
        name: name.to_string(),
        outcome,
    }
}

#[test]
fn example_full_run_builds_expected_tree() {
    let mut h = RunEventHandler::new();
    h.handle_event(feature_starting("Login")).unwrap();
    h.handle_event(scenario_starting("Login", "Valid creds")).unwrap();
    h.handle_event(step_starting("Login", "Valid creds", "Given", "user exists")).unwrap();
    h.handle_event(step_outcome(
        "Login",
        "Valid creds",
        "Given",
        "user exists",
        StepOutcomeKind::Passed,
    ))
    .unwrap();
    h.handle_event(scenario_outcome("Login", "Valid creds", ScenarioOutcomeKind::Passed))
        .unwrap();
    assert_eq!(h.state.features.len(), 1);
    let f = &h.state.features[0];
    assert_eq!(f.name, "Login");
    assert_eq!(f.scenarios.len(), 1);
    let sc = &f.scenarios[0];
    assert_eq!(sc.name, "Valid creds");
    assert_eq!(sc.result, Some(StatResult::Passed));
    assert_eq!(sc.steps.len(), 1);
    let st = &sc.steps[0];
    assert_eq!(st.keyword, "Given");
    assert_eq!(st.name, "user exists");
    assert_eq!(st.result, Some(StatResult::Passed));
    assert_eq!(f.get_result(), Some(StatResult::Passed));
}

#[test]
fn lookup_failure_names_missing_feature() {
    let mut h = RunEventHandler::new();
    let r = h.handle_event(scenario_starting("Ghost", "whatever"));
    let e = r.unwrap_err();
    assert_eq!(e.kind, EntityKind::Feature);
    assert_eq!(e.key, "Ghost");
    assert_eq!(h.state.features.len(), 0);
}

#[test]
fn lookup_failure_names_missing_scenario_and_step() {
    let mut h = RunEventHandler::new();
    h.handle_event(feature_starting("F")).unwrap();
    let e = h.handle_event(step_starting("F", "missing", "When", "x")).unwrap_err();
    assert_eq!(e.kind, EntityKind::Scenario);
    assert_eq!(e.key, "missing");
    h.handle_event(scenario_starting("F", "S")).unwrap();
    let e = h
        .handle_event(step_outcome("F", "S", "When", "absent", StepOutcomeKind::Passed))
        .unwrap_err();
    assert_eq!(e.kind, EntityKind::Step);
    assert_eq!(e.key, "absent");
}

#[test]
fn insertion_order_is_preserved() {
    let mut h = RunEventHandler::new();
    h.handle_event(feature_starting("B")).unwrap();
    h.handle_event(feature_starting("A")).unwrap();
    h.handle_event(scenario_starting("B", "z")).unwrap();
    h.handle_event(scenario_starting("B", "a")).unwrap();
    assert_eq!(h.state.features[0].name, "B");
    assert_eq!(h.state.features[1].name, "A");
    assert_eq!(h.state.features[0].scenarios[0].name, "z");
    assert_eq!(h.state.features[0].scenarios[1].name, "a");
}

#[test]
fn interleaved_producers_lose_nothing() {
    // Eight producers, ten scenarios each, delivered round-robin as one
    // serialized stream: 8 features and 80 scenarios survive.
    let mut h = RunEventHandler::new();
    for p in 0..8 {
        h.handle_event(feature_starting(&format!("feature-{}", p))).unwrap();
    }
    for m in 0..10 {
        for p in 0..8 {
            h.handle_event(scenario_starting(
                &format!("feature-{}", p),
                &format!("scenario-{}", m),
            ))
            .unwrap();
        }
    }
    assert_eq!(h.state.features.len(), 8);
    let total: usize = h.state.features.iter().map(|f| f.scenarios.len()).sum();
    assert_eq!(total, 80);
    for f in &h.state.features {
        assert_eq!(f.scenarios.len(), 10);
    }
}

#[test]
fn unknown_events_are_ignored() {
    let mut h = RunEventHandler::new();
    h.handle_event(RunEvent::Other).unwrap();
    assert_eq!(h.state.features.len(), 0);
}

#[test]
fn unanimity_concrete() {
    let mut h = RunEventHandler::new();
    h.handle_event(feature_starting("F")).unwrap();
    h.handle_event(scenario_starting("F", "a")).unwrap();
    h.handle_event(scenario_starting("F", "b")).unwrap();
    h.handle_event(scenario_outcome("F", "a", ScenarioOutcomeKind::Passed)).unwrap();
    h.handle_event(scenario_outcome("F", "b", ScenarioOutcomeKind::Passed)).unwrap();
    assert_eq!(h.state.features[0].get_result(), Some(StatResult::Passed));
    // One scenario without an outcome counts as Skipped: no unanimity.
    h.handle_event(scenario_starting("F", "c")).unwrap();
    assert_eq!(h.state.features[0].get_result(), Some(StatResult::Skipped));
}

#[test]
fn failure_dominates_concrete() {
    let mut h = RunEventHandler::new();
    h.handle_event(feature_starting("F")).unwrap();
    h.handle_event(scenario_starting("F", "a")).unwrap();
    h.handle_event(scenario_starting("F", "b")).unwrap();
    h.handle_event(scenario_outcome("F", "a", ScenarioOutcomeKind::Passed)).unwrap();
    h.handle_event(scenario_outcome("F", "b", ScenarioOutcomeKind::FailedByPanic)).unwrap();
    assert_eq!(h.state.features[0].get_result(), Some(StatResult::Failed));
}

#[test]
fn empty_feature_has_no_result() {
    let mut h = RunEventHandler::new();
    h.handle_event(feature_starting("F")).unwrap();
    assert_eq!(h.state.features[0].get_result(), None);
    // Rendered with the Skipped default.
    assert_eq!(
        h.state.features[0].display_line(),
        "Feature: 'F'; Status: 'Skipped'"
    );
}

#[test]
fn last_outcome_write_wins() {
    let mut h = RunEventHandler::new();
    h.handle_event(feature_starting("F")).unwrap();
    h.handle_event(scenario_starting("F", "a")).unwrap();
    h.handle_event(scenario_outcome("F", "a", ScenarioOutcomeKind::Passed)).unwrap();
    h.handle_event(scenario_outcome("F", "a", ScenarioOutcomeKind::FailedByPanic)).unwrap();
    assert_eq!(h.state.features[0].scenarios[0].result, Some(StatResult::Failed));
}

#[test]
fn timeout_and_panic_both_fail_a_step() {
    let mut h = RunEventHandler::new();
    h.handle_event(feature_starting("F")).unwrap();
    h.handle_event(scenario_starting("F", "a")).unwrap();
    h.handle_event(step_starting("F", "a", "When", "x")).unwrap();
    h.handle_event(step_starting("F", "a", "Then", "y")).unwrap();
    h.handle_event(step_outcome("F", "a", "When", "x", StepOutcomeKind::FailedByTimeout))
        .unwrap();
    h.handle_event(step_outcome("F", "a", "Then", "y", StepOutcomeKind::FailedByPanic)).unwrap();
    assert_eq!(h.state.features[0].scenarios[0].steps[0].result, Some(StatResult::Failed));
    assert_eq!(h.state.features[0].scenarios[0].steps[1].result, Some(StatResult::Failed));
}

#[test]
fn compile_rejected_while_open() {
    let h = RunEventHandler::new();
    let counters = RunCounters {
        total_features: 0,
        total_scenarios: 0,
        skipped_scenarios: 0,
        passed_scenarios: 0,
        failed_scenarios: 0,
    };
    let r = RunStats::new(&counters, &h.state);
    match r {
        Err(e) => assert_eq!(e, ReportError::RunStillOpen),
        Ok(_) => panic!("compiling an open run must be rejected"),
    }
}

#[test]
fn compile_copies_tree_and_counters() {
    let mut h = RunEventHandler::new();
    h.handle_event(feature_starting("F")).unwrap();
    h.handle_event(scenario_starting("F", "a")).unwrap();
    h.state.close();
    let counters = RunCounters {
        total_features: 1,
        total_scenarios: 2,
        skipped_scenarios: 1,
        passed_scenarios: 1,
        failed_scenarios: 0,
    };
    let stats = RunStats::new(&counters, &h.state).unwrap();
    assert_eq!(stats.total_features, 1);
    assert_eq!(stats.total_scenarios, 2);
    assert_eq!(stats.skipped_scenarios, 1);
    assert_eq!(stats.passed_scenarios, 1);
    assert_eq!(stats.failed_scenarios, 0);
    assert_eq!(stats.features.len(), 1);
    assert_eq!(stats.features[0].name, "F");
    assert_eq!(stats.features[0].scenarios[0].name, "a");
    // The report is a deep copy: later events do not reach it.
    h.handle_event(scenario_starting("F", "b")).unwrap();
    assert_eq!(stats.features[0].scenarios.len(), 1);
}

#[test]
fn renderer_produces_expected_lines() {
    let mut h = RunEventHandler::new();
    h.handle_event(feature_starting("Login")).unwrap();
    h.handle_event(scenario_starting("Login", "Valid creds")).unwrap();
    h.handle_event(step_starting("Login", "Valid creds", "Given", "user exists")).unwrap();
    h.handle_event(step_outcome(
        "Login",
        "Valid creds",
        "Given",
        "user exists",
        StepOutcomeKind::Passed,
    ))
    .unwrap();
    h.handle_event(scenario_outcome("Login", "Valid creds", ScenarioOutcomeKind::Passed))
        .unwrap();
    h.state.close();
    let counters = RunCounters {
        total_features: 1,
        total_scenarios: 1,
        skipped_scenarios: 0,
        passed_scenarios: 1,
        failed_scenarios: 0,
    };
    let stats = RunStats::new(&counters, &h.state).unwrap();
    let lines = render_report(&stats);
    let sep = "------------------------------------------------";
    let expected = vec![
        "",
        "Result overview!",
        sep,
        "Total features: 1",
        "Total scenarios: 1",
        "Skipped scenarios: 0",
        "Passed scenarios: 1",
        "Failed scenarios: 0",
        sep,
        "",
        "Feature overview:",
        sep,
        "Feature: 'Login'; Status: 'Passed'",
        "",
        "\tScenario: 'Valid creds'; Status: 'Passed'",
        "\t\tStep: 'Given user exists'; Status: 'Passed'",
        "",
        "",
    ];
    let got: Vec<&str> = lines.iter().map(|l| l.as_str()).collect();
    assert_eq!(got, expected);
}

#[test]
fn renderer_stops_after_overview_without_features() {
    let h = RunEventHandler::new();
    let mut state = h.state;
    state.close();
    let counters = RunCounters {
        total_features: 0,
        total_scenarios: 0,
        skipped_scenarios: 0,
        passed_scenarios: 0,
        failed_scenarios: 0,
    };
    let stats = RunStats::new(&counters, &state).unwrap();
    let lines = render_report(&stats);
    assert_eq!(lines.len(), 9);
    assert_eq!(lines[1], "Result overview!");
    assert_eq!(lines[3], "Total features: 0");
}

#[test]
fn status_labels_are_fixed() {
    assert_eq!(StatResult::Passed.as_label(), "Passed");
    assert_eq!(StatResult::Failed.as_label(), "Failed");
    assert_eq!(StatResult::Skipped.as_label(), "Skipped");
}

use somebdd::outcome::StatResult;
use somebdd::report::RunStats;
use somebdd::snapshot::{decode_report, encode_report};
use somebdd::stats::{FeatureStats, ScenarioStats, StepStats};

fn small_report() -> RunStats {
    let step = StepStats {
        name: "user exists".to_string(),
        keyword: "Given".to_string(),
        result: Some(StatResult::Passed),
    };
    let scenario = ScenarioStats {
        name: "Valid creds".to_string(),
        steps: vec![step],
        result: Some(StatResult::Passed),
    };
    let feature = FeatureStats { name: "Login".to_string(), scenarios: vec![scenario] };
    RunStats {
        total_features: 1,
        total_scenarios: 1,
        skipped_scenarios: 0,
        passed_scenarios: 1,
        failed_scenarios: 0,
        features: vec![feature],
    }
}

#[test]
fn snapshot_has_fixed_shape() {
    let s = encode_report(&small_report());
    assert_eq!(
        s,
        "{\"totalFeatures\":1,\"totalScenarios\":1,\"skippedScenarios\":0,\
         \"passedScenarios\":1,\"failedScenarios\":0,\"features\":[{\"name\":\"Login\",\
         \"scenarios\":[{\"name\":\"Valid creds\",\"result\":\"Passed\",\
         \"steps\":[{\"name\":\"user exists\",\"keyword\":\"Given\",\
         \"result\":\"Passed\"}]}]}]}"
    );
}

#[test]
fn round_trip_small_report() {
    let original = small_report();
    let s = encode_report(&original);
    let back = decode_report(&s).unwrap();
    assert_eq!(back.total_features, 1);
    assert_eq!(back.total_scenarios, 1);
    assert_eq!(back.skipped_scenarios, 0);
    assert_eq!(back.passed_scenarios, 1);
    assert_eq!(back.failed_scenarios, 0);
    assert_eq!(back.features.len(), 1);
    assert_eq!(back.features[0].name, "Login");
    assert_eq!(back.features[0].scenarios[0].name, "Valid creds");
    assert_eq!(back.features[0].scenarios[0].result, Some(StatResult::Passed));
    assert_eq!(back.features[0].scenarios[0].steps[0].name, "user exists");
    assert_eq!(back.features[0].scenarios[0].steps[0].keyword, "Given");
    assert_eq!(back.features[0].scenarios[0].steps[0].result, Some(StatResult::Passed));
}

#[test]
fn round_trip_with_escapes_and_absent_outcomes() {
    let step = StepStats {
        name: "say \"hi\" \\ done".to_string(),
        keyword: "When".to_string(),
        result: None,
    };
    let scenario = ScenarioStats {
        name: "quoted \"name\"".to_string(),
        steps: vec![step],
        result: None,
    };
    let feature = FeatureStats { name: "back\\slash".to_string(), scenarios: vec![scenario] };
    let original = RunStats {
        total_features: 4294967295,
        total_scenarios: 0,
        skipped_scenarios: 7,
        passed_scenarios: 0,
        failed_scenarios: 1,
        features: vec![feature],
    };
    let s = encode_report(&original);
    let back = decode_report(&s).unwrap();
    assert_eq!(back.total_features, 4294967295);
    assert_eq!(back.skipped_scenarios, 7);
    assert_eq!(back.features[0].name, "back\\slash");
    assert_eq!(back.features[0].scenarios[0].name, "quoted \"name\"");
    assert_eq!(back.features[0].scenarios[0].result, None);
    assert_eq!(back.features[0].scenarios[0].steps[0].name, "say \"hi\" \\ done");
    assert_eq!(back.features[0].scenarios[0].steps[0].result, None);
}

#[test]
fn round_trip_empty_report() {
    let original = RunStats {
        total_features: 0,
        total_scenarios: 0,
        skipped_scenarios: 0,
        passed_scenarios: 0,
        failed_scenarios: 0,
        features: vec![],
    };
    let s = encode_report(&original);
    assert_eq!(
        s,
        "{\"totalFeatures\":0,\"totalScenarios\":0,\"skippedScenarios\":0,\
         \"passedScenarios\":0,\"failedScenarios\":0,\"features\":[]}"
    );
    let back = decode_report(&s).unwrap();
    assert_eq!(back.features.len(), 0);
    assert_eq!(back.total_features, 0);
}

#[test]
fn round_trip_null_and_failed_results() {
    let scenario_a = ScenarioStats {
        name: "a".to_string(),
        steps: vec![],
        result: Some(StatResult::Failed),
    };
    let scenario_b = ScenarioStats {
        name: "b".to_string(),
        steps: vec![],
        result: Some(StatResult::Skipped),
    };
    let feature = FeatureStats {
        name: "f".to_string(),
        scenarios: vec![scenario_a, scenario_b],
    };
    let original = RunStats {
        total_features: 1,
        total_scenarios: 2,
        skipped_scenarios: 1,
        passed_scenarios: 0,
        failed_scenarios: 1,
        features: vec![feature],
    };
    let s = encode_report(&original);
    let back = decode_report(&s).unwrap();
    assert_eq!(back.features[0].scenarios[0].result, Some(StatResult::Failed));
    assert_eq!(back.features[0].scenarios[1].result, Some(StatResult::Skipped));
}

#[test]
fn malformed_documents_are_rejected() {
    assert!(decode_report("").is_none());
    assert!(decode_report("{}").is_none());
    assert!(decode_report("{\"totalFeatures\":x}").is_none());
    // A trailing remainder after a valid document is rejected too.
    let s = encode_report(&small_report()) + "x";
    assert!(decode_report(&s).is_none());
    // A counter beyond 32 bits is rejected.
    assert!(decode_report(
        "{\"totalFeatures\":4294967296,\"totalScenarios\":0,\"skippedScenarios\":0,\
         \"passedScenarios\":0,\"failedScenarios\":0,\"features\":[]}"
    )
    .is_none());
}

use clomonitor_registrar::Project;
use clomonitor_registrar::reconcile::Plan;
use clomonitor_registrar::run::Action;
use clomonitor_registrar::run::FoundationError;
use clomonitor_registrar::run::FoundationPass;
use clomonitor_registrar::run::RunAggregator;
use clomonitor_registrar::run::status_is_ok;

fn project(name: &str) -> Project {
    Project {
        name: name.to_string(),
        display_name: None,
        description: "d".to_string(),
        category: "c".to_string(),
        home_url: None,
        logo_url: None,
        logo_dark_url: None,
        devstats_url: None,
        accepted_at: None,
        maturity: "graduated".to_string(),
        digest: None,
        repositories: vec![],
    }
}

#[test]
fn only_a_plain_success_status_is_accepted() {
    assert!(status_is_ok(200));
    assert!(!status_is_ok(201));
    assert!(!status_is_ok(404));
    assert!(!status_is_ok(500));
}

#[test]
fn pass_issues_registers_then_unregisters() {
    let plan = Plan {
        registrations: vec![project("c")],
        unregistrations: vec!["a".to_string()],
    };
    let mut pass = FoundationPass::new(plan);
    match pass.next_action() {
        Some(Action::Register(p)) => assert_eq!(p.name, "c"),
        _ => panic!("expected a register action first"),
    }
    match pass.next_action() {
        Some(Action::Unregister(n)) => assert_eq!(n, "a"),
        _ => panic!("expected an unregister action second"),
    }
    assert!(pass.next_action().is_none());
    assert_eq!(pass.into_failures().len(), 0);
}

#[test]
fn failed_register_does_not_block_unregister() {
    let plan = Plan {
        registrations: vec![project("c")],
        unregistrations: vec!["a".to_string()],
    };
    let mut pass = FoundationPass::new(plan);
    match pass.next_action() {
        Some(Action::Register(p)) => {
            // the datastore call for C fails; record it and carry on
            pass.record_failure(p.name.clone(), "connection reset".to_string());
        }
        _ => panic!("expected a register action first"),
    }
    // the unregister for A is still issued
    match pass.next_action() {
        Some(Action::Unregister(n)) => assert_eq!(n, "a"),
        _ => panic!("unregister was lost after a failed register"),
    }
    assert!(pass.next_action().is_none());
    let failures = pass.into_failures();
    assert_eq!(failures.len(), 1);
    assert_eq!(failures[0].name, "c");
    assert_eq!(failures[0].message, "connection reset");
}

#[test]
fn aggregate_keeps_every_foundation_failure() {
    let mut agg = RunAggregator::new();
    agg.record(
        "x".to_string(),
        Err(FoundationError::FetchFailure("status 500".to_string())),
    );
    agg.record("ok".to_string(), Ok(()));
    agg.record("y".to_string(), Err(FoundationError::TimeoutFailure));
    let err = agg.into_result().unwrap_err();
    assert_eq!(err.failures.len(), 2);
    assert_eq!(err.failures[0].foundation_id, "x");
    match &err.failures[0].error {
        FoundationError::FetchFailure(m) => assert_eq!(m, "status 500"),
        FoundationError::TimeoutFailure => panic!("wrong error kind for x"),
    }
    assert_eq!(err.failures[1].foundation_id, "y");
    assert!(matches!(
        err.failures[1].error,
        FoundationError::TimeoutFailure
    ));
}

#[test]
fn timed_out_foundation_does_not_fail_siblings() {
    let mut agg = RunAggregator::new();
    agg.record("slow".to_string(), Err(FoundationError::TimeoutFailure));
    agg.record("fast".to_string(), Ok(()));
    let err = agg.into_result().unwrap_err();
    assert_eq!(err.failures.len(), 1);
    assert_eq!(err.failures[0].foundation_id, "slow");
}

#[test]
fn run_with_no_failures_succeeds() {
    let mut agg = RunAggregator::new();
    agg.record("x".to_string(), Ok(()));
    agg.record("y".to_string(), Ok(()));
    assert!(agg.into_result().is_ok());
}

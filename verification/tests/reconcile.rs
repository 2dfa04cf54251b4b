use clomonitor_registrar::Project;
use clomonitor_registrar::Repository;
use clomonitor_registrar::digest::compute_digest;
use clomonitor_registrar::encoding::encode_project;
use clomonitor_registrar::reconcile::Plan;
use clomonitor_registrar::reconcile::RegisteredEntry;
use clomonitor_registrar::reconcile::build_available;
use clomonitor_registrar::reconcile::plan_foundation;

fn project(name: &str) -> Project {
    Project {
        name: name.to_string(),
        display_name: Some("Argo".to_string()),
        description: "d".to_string(),
        category: "c".to_string(),
        home_url: None,
        logo_url: None,
        logo_dark_url: None,
        devstats_url: Some("https://x".to_string()),
        accepted_at: Some("2020-01-01".to_string()),
        maturity: "graduated".to_string(),
        digest: None,
        repositories: vec![Repository {
            name: "r1".to_string(),
            url: "u1".to_string(),
            check_sets: vec!["code".to_string(), "community".to_string()],
        }],
    }
}

fn entry(name: &str, digest: &str) -> RegisteredEntry {
    RegisteredEntry {
        name: name.to_string(),
        digest: Some(digest.to_string()),
    }
}

fn plan(available: Vec<Project>, registered: &Vec<RegisteredEntry>) -> Plan {
    plan_foundation(build_available(available), registered)
}

#[test]
fn encoding_of_minimal_record_is_exact() {
    let p = Project {
        name: "a".to_string(),
        display_name: None,
        description: String::new(),
        category: String::new(),
        home_url: None,
        logo_url: None,
        logo_dark_url: None,
        devstats_url: None,
        accepted_at: None,
        maturity: String::new(),
        digest: None,
        repositories: vec![],
    };
    let expected: Vec<u8> = vec![
        1, 0, 0, 0, 0, 0, 0, 0, 97, 0, 0, 0, 0, 0, 0, 0, 0, 0, 0, 0, 0, 0, 0, 0, 0, 0, 0, 0, 0,
        0, 0, 0, 0, 0, 0, 0, 0, 0, 0, 0, 0, 0, 0, 0, 0, 0, 0, 0, 0, 0,
    ];
    assert_eq!(encode_project(&p), expected);
    assert_eq!(
        compute_digest(&p),
        "f0831c56f8d0f489b9a33e955df7bbe70984aaadfc54aace71c81180c7e6cdfc"
    );
}

#[test]
fn digest_has_exact_known_value() {
    let p = project("argo");
    assert_eq!(
        compute_digest(&p),
        "8816714fbfbfb790e6ff95664fbc2730ac92df3e65382aec265de55379dbe835"
    );
}

#[test]
fn digest_deterministic_for_equal_content() {
    let mut a = project("argo");
    let mut b = project("argo");
    // the digest field itself must not influence the digest
    b.digest = Some("anything".to_string());
    a.set_digest();
    b.set_digest();
    assert_eq!(a.digest, b.digest);
}

#[test]
fn digest_changes_with_every_field() {
    let base = compute_digest(&project("argo"));

    let mut p = project("argo");
    p.name = "argos".to_string();
    assert_ne!(compute_digest(&p), base);

    let mut p = project("argo");
    p.display_name = None;
    assert_ne!(compute_digest(&p), base);

    let mut p = project("argo");
    p.description = "e".to_string();
    assert_ne!(compute_digest(&p), base);

    let mut p = project("argo");
    p.category = "x".to_string();
    assert_ne!(compute_digest(&p), base);

    let mut p = project("argo");
    p.home_url = Some(String::new());
    assert_ne!(compute_digest(&p), base);

    let mut p = project("argo");
    p.logo_url = Some("l".to_string());
    assert_ne!(compute_digest(&p), base);

    let mut p = project("argo");
    p.logo_dark_url = Some("ld".to_string());
    assert_ne!(compute_digest(&p), base);

    let mut p = project("argo");
    p.devstats_url = None;
    assert_ne!(compute_digest(&p), base);

    let mut p = project("argo");
    p.accepted_at = Some("2021-01-01".to_string());
    assert_ne!(compute_digest(&p), base);

    let mut p = project("argo");
    p.maturity = "incubating".to_string();
    assert_ne!(compute_digest(&p), base);

    let mut p = project("argo");
    p.repositories[0].url = "u2".to_string();
    assert_ne!(compute_digest(&p), base);

    let mut p = project("argo");
    p.repositories[0].check_sets = vec!["community".to_string(), "code".to_string()];
    assert_ne!(compute_digest(&p), base);

    let mut p = project("argo");
    p.repositories.push(Repository {
        name: "r2".to_string(),
        url: "u3".to_string(),
        check_sets: vec![],
    });
    assert_ne!(compute_digest(&p), base);
}

#[test]
fn repository_order_changes_digest() {
    let mut p = project("argo");
    p.repositories.push(Repository {
        name: "r2".to_string(),
        url: "u3".to_string(),
        check_sets: vec![],
    });
    let d1 = compute_digest(&p);
    p.repositories.reverse();
    let d2 = compute_digest(&p);
    assert_ne!(d1, d2);
}

#[test]
fn build_available_fills_digests_and_last_name_wins() {
    let mut first = project("argo");
    first.description = "old".to_string();
    let mut second = project("argo");
    second.description = "new".to_string();
    let expected = compute_digest(&second);
    let out = build_available(vec![first, second, project("flux")]);
    assert_eq!(out.len(), 2);
    for p in &out {
        assert!(p.digest.is_some());
    }
    let argo = out.iter().find(|p| p.name == "argo").unwrap();
    assert_eq!(argo.description, "new");
    assert_eq!(argo.digest, Some(expected));
}

#[test]
fn delta_correctness_exactly_one_register_and_one_unregister() {
    // registered = {A: d1, B: d2}, available = {B: d2, C: d3}
    let d1 = compute_digest(&project("a"));
    let d2 = compute_digest(&project("b"));
    let registered = vec![entry("a", &d1), entry("b", &d2)];
    let p = plan(vec![project("b"), project("c")], &registered);
    assert_eq!(p.registrations.len(), 1);
    assert_eq!(p.registrations[0].name, "c");
    assert_eq!(p.unregistrations, vec!["a".to_string()]);
}

#[test]
fn changed_digest_triggers_register() {
    let stale = entry("argo", "0000");
    let p = plan(vec![project("argo")], &vec![stale]);
    assert_eq!(p.registrations.len(), 1);
    assert_eq!(p.registrations[0].name, "argo");
    assert_eq!(p.unregistrations.len(), 0);
}

#[test]
fn missing_stored_digest_triggers_register() {
    let registered = vec![RegisteredEntry {
        name: "argo".to_string(),
        digest: None,
    }];
    let p = plan(vec![project("argo")], &registered);
    assert_eq!(p.registrations.len(), 1);
}

#[test]
fn empty_manifest_unregisters_nothing() {
    let registered = vec![entry("a", "d1"), entry("b", "d2")];
    let p = plan(vec![], &registered);
    assert_eq!(p.registrations.len(), 0);
    assert_eq!(p.unregistrations.len(), 0);
}

#[test]
fn noop_second_run_issues_zero_calls() {
    // first run against an empty registry
    let first = plan(vec![project("argo"), project("flux")], &vec![]);
    assert_eq!(first.registrations.len(), 2);
    // apply: store each registered project's digest
    let registered: Vec<RegisteredEntry> = first
        .registrations
        .iter()
        .map(|p| RegisteredEntry {
            name: p.name.clone(),
            digest: p.digest.clone(),
        })
        .collect();
    // second run with the unchanged manifest
    let second = plan(vec![project("argo"), project("flux")], &registered);
    assert_eq!(second.registrations.len(), 0);
    assert_eq!(second.unregistrations.len(), 0);
}

use homerunner::config::MonitorConfig;
use homerunner::monitor::{
    checked_completion_reasons, completion_reasons, field_matches, matches_scope, reasons_given,
};
use homerunner::store::JobInfo;

fn monitor() -> MonitorConfig {
    MonitorConfig {
        name: "guardrail".to_string(),
        repo: Some("owner/repo".to_string()),
        workflow: Some("CI".to_string()),
        job_name: Some("tests".to_string()),
        branch: Some("main".to_string()),
        duration_min: None,
        consecutive_failures: Some(2),
        oom: true,
        log_pattern: Some("(?i)deadlock".to_string()),
        retain_workspace: true,
    }
}

#[test]
fn exact_scope_requires_every_configured_field() {
    let job = JobInfo {
        workflow: Some("CI".to_string()),
        job_name: Some("tests".to_string()),
        head_branch: Some("main".to_string()),
        ..JobInfo::default()
    };
    assert!(matches_scope(&monitor(), "owner/repo", &job));
    assert!(!matches_scope(&monitor(), "owner/other", &job));
    let other_branch = JobInfo {
        head_branch: Some("dev".to_string()),
        ..job
    };
    assert!(!matches_scope(&monitor(), "owner/repo", &other_branch));
}

#[test]
fn completion_can_report_multiple_reasons() {
    let reasons = completion_reasons(
        &monitor(),
        Some("failure"),
        true,
        Some("Detected DEADLOCK in worker"),
        3,
    );
    assert_eq!(reasons.len(), 3);
    assert!(reasons.iter().any(|reason| reason.contains("OOM")));
    assert!(reasons.iter().any(|reason| reason.contains("deadlock")));
    assert!(reasons
        .iter()
        .any(|reason| reason.contains("3 consecutive")));
}

#[test]
fn fields_that_are_not_configured_match_everything() {
    assert!(field_matches(&None, &None));
    assert!(field_matches(&None, &Some("x".to_string())));
    assert!(!field_matches(&Some("x".to_string()), &None));
}

#[test]
fn calm_completions_have_no_reasons() {
    assert!(completion_reasons(&monitor(), Some("success"), false, Some("fine"), 0).is_empty());
    assert!(completion_reasons(&monitor(), Some("success"), false, None, 5).is_empty());
    assert!(completion_reasons(&monitor(), Some("failure"), false, None, 1).is_empty());
}

#[test]
fn patterns_that_do_not_compile_have_no_reasons() {
    let broken = MonitorConfig {
        log_pattern: Some("dead(lock".to_string()),
        ..monitor()
    };
    assert!(checked_completion_reasons(&broken, None, true, Some("x"), 0).is_none());
    let without_log = ["runner was OOM-killed"];
    assert_eq!(checked_completion_reasons(&broken, None, true, None, 0).unwrap(), without_log);
    assert_eq!(completion_reasons(&broken, None, true, None, 0), without_log);
    assert_eq!(
        checked_completion_reasons(&monitor(), None, true, Some("x"), 0)
            .unwrap()
            .len(),
        1
    );
}

#[test]
fn reasons_are_given_in_order() {
    assert_eq!(
        reasons_given(&monitor(), Some("failure"), true, true, 2),
        [
            "runner was OOM-killed",
            "log matched /(?i)deadlock/",
            "2 consecutive failures"
        ]
    );
    assert!(reasons_given(&monitor(), Some("failure"), false, false, 1).is_empty());
}

#[test]
fn monitors_without_rules_are_silent() {
    let quiet = MonitorConfig {
        oom: false,
        log_pattern: None,
        consecutive_failures: None,
        ..monitor()
    };
    assert!(completion_reasons(&quiet, Some("failure"), true, Some("deadlock"), 99).is_empty());
}

use homerunner::agent::{Archive, Capture, CapturedFile};
use homerunner::log_search::{
    add_explicit_properties, after_marker, classify, parse_lines, parse_query, properties_match,
    search, search_text, steps, steps_text, suggestions, tokens, wildcard_match, window_seconds,
    ParsedLine, SearchError, SearchQuery,
};
use homerunner::store::{Job, JobInfo, Store};

fn secs(s: f64) -> i64 {
    (s * 1e6) as i64
}

fn strings(v: &[&str]) -> Vec<String> {
    v.iter().map(|s| s.to_string()).collect()
}

fn job() -> Job {
    let mut store = Store::new();
    store.job_started(&JobInfo::default(), "", "", None);
    store.jobs.remove(0)
}

fn captured(log: &str) -> (Store, Archive) {
    let mut store = Store::new();
    let info = JobInfo {
        job_id: Some(42),
        workflow: Some("CI".to_string()),
        job_name: Some("tests".to_string()),
        head_branch: Some("main".to_string()),
        ..JobInfo::default()
    };
    store.job_started(&info, "owner/repo", "runner", Some(secs(1.0)));
    store.job_concluded(42, "failure", secs(2.0));
    store.set_job_artifacts(42, Some("/jobs/42"), None, None);
    let archive = Archive {
        captures: vec![Capture {
            log_dir: "/jobs/42".to_string(),
            files: vec![CapturedFile {
                name: "Worker_001.log".to_string(),
                contents: log.to_string(),
            }],
        }],
    };
    (store, archive)
}

#[test]
fn query_parser_handles_phrases_exclusions_and_properties() {
    let parsed = parse_query(r#"timeout "connection refused" -retry level:error,warn"#).unwrap();
    assert_eq!(parsed.included, ["timeout", "connection refused"]);
    assert_eq!(parsed.excluded, ["retry"]);
    assert_eq!(parsed.properties.len(), 2);
    assert!(tokens("\"unterminated").is_err());
}

#[test]
fn parser_tracks_step_boundaries_and_severity() {
    let lines = parse_lines(
        "Starting: Run tests\nordinary\n##[error] failed\nFinishing: Run tests\noutside",
    );
    assert_eq!(lines[0].step_name.as_deref(), Some("Run tests"));
    assert_eq!(lines[2].level, "error");
    assert_eq!(lines[4].step_name, None);
}

#[test]
fn comma_separated_property_values_are_alternatives() {
    let parts = parse_query("level:error,warn").unwrap();
    let job = job();
    let line = ParsedLine {
        line_no: 1,
        step_name: None,
        level: "warn",
        message: "warning".to_string(),
    };
    assert!(properties_match(&job, Some(&line), &parts));
    let calm = ParsedLine {
        level: "info",
        ..line
    };
    assert!(!properties_match(&job, Some(&calm), &parts));
}

#[test]
fn search_returns_matching_lines_with_job_and_step_context() {
    let (store, archive) =
        captured("Starting: Run tests\nconnection refused\nFinishing: Run tests\n");

    let report = search(
        &store,
        &archive,
        &SearchQuery {
            q: Some("repo:owner/repo step:\"Run tests\" refused".to_string()),
            since: Some("all".to_string()),
            ..SearchQuery::default()
        },
        secs(10.0),
    )
    .unwrap();
    assert_eq!(report.matches, 1);
    assert_eq!(report.results[0].gh_job_id, 42);
    assert_eq!(report.results[0].step_name.as_deref(), Some("Run tests"));

    let job = store.job(42).unwrap();
    let timeline = steps(&job, &archive).unwrap();
    assert_eq!(timeline.steps[0].name, "Run tests");
    assert_eq!(timeline.steps[0].lines, 3);
    assert_eq!(
        search_text(&report),
        "1 matches across 1 jobs\n42 owner/repo / CI / tests / Run tests:2 [info]\n\
         connection refused\n\n"
    );
    assert_eq!(
        steps_text(&timeline),
        "     1-     3       3 lines    0 errors    0 warnings  Run tests\n"
    );
}

#[test]
fn jobs_outside_the_window_are_not_searched() {
    let (store, archive) = captured("connection refused\n");
    let ask = |since: &str, now: f64| {
        search(
            &store,
            &archive,
            &SearchQuery {
                q: Some("refused".to_string()),
                since: Some(since.to_string()),
                ..SearchQuery::default()
            },
            secs(now),
        )
        .unwrap()
        .matches
    };
    assert_eq!(ask("1h", 3000.0), 1);
    assert_eq!(ask("1h", 7210.0), 0);
    assert_eq!(ask("all", 7210.0), 1);
}

#[test]
fn windows_are_read_with_their_units() {
    assert_eq!(window_seconds("all"), Ok(None));
    assert_eq!(window_seconds("90m"), Ok(Some(5400)));
    assert_eq!(window_seconds("2h"), Ok(Some(7200)));
    assert_eq!(window_seconds("7d"), Ok(Some(604_800)));
    for (value, error) in [
        ("", SearchError::SinceShape),
        ("xh", SearchError::SinceAmount),
        ("0h", SearchError::SinceZero),
        ("5y", SearchError::SinceUnit),
    ] {
        assert_eq!(window_seconds(value), Err(error), "{value}");
        assert!(!error.message().is_empty());
    }
}

#[test]
fn tokens_are_split_at_spaces_outside_quotes() {
    assert_eq!(tokens("a  b\tc").unwrap(), ["a", "b", "c"]);
    assert_eq!(tokens("\"a b\" c").unwrap(), ["a b", "c"]);
    assert_eq!(tokens("say \\\"hi\\\"").unwrap(), ["say", "\"hi\""]);
    assert_eq!(tokens("\"open").unwrap_err(), SearchError::UnterminatedQuote);
    assert!(!SearchError::UnterminatedQuote.message().is_empty());
}

#[test]
fn stars_match_any_text() {
    assert!(wildcard_match("main", "MAIN"));
    assert!(wildcard_match("rel*", "release/1"));
    assert!(wildcard_match("*/1", "release/1"));
    assert!(wildcard_match("r*e/*", "release/1"));
    assert!(!wildcard_match("rel*", "main"));
    assert!(wildcard_match("main", "domain"));
    assert!(!wildcard_match("main*", "domain"));
    assert!(!wildcard_match("*main", "maintenance"));
    assert!(!wildcard_match("a*a", "a"));
    assert!(wildcard_match("*aba*ba", "ababa"));
    assert!(wildcard_match("*", ""));
}

#[test]
fn severities_are_read_off_the_line() {
    assert_eq!(classify("##[error] broken"), "error");
    assert_eq!(classify("##[warning] careful"), "warn");
    assert_eq!(classify("a debug line"), "debug");
    assert_eq!(classify("all is well"), "info");
    assert_eq!(
        after_marker("x Starting: Build ", "Starting: "),
        Some("Build".to_string())
    );
    assert_eq!(after_marker("nothing", "Starting: "), None);
}

#[test]
fn explicit_properties_join_those_of_the_query() {
    let mut parts = parse_query("refused").unwrap();
    add_explicit_properties(
        &mut parts,
        &SearchQuery {
            repo: Some("owner/repo".to_string()),
            branch: Some("main".to_string()),
            ..SearchQuery::default()
        },
    );
    let keys: Vec<&str> = parts.properties.iter().map(|p| p.key.as_str()).collect();
    assert_eq!(keys.len(), 2);
    assert!(keys.contains(&"repo") && keys.contains(&"branch"));
    let here = Job {
        repo: "owner/repo".to_string(),
        head_branch: Some("main".to_string()),
        ..job()
    };
    assert!(properties_match(&here, None, &parts));
    let elsewhere = Job {
        repo: "owner/other".to_string(),
        ..here
    };
    assert!(!properties_match(&elsewhere, None, &parts));
}

#[test]
fn suggestions_are_sorted_and_distinct() {
    let (mut store, archive) = captured(
        "Starting: Test\nx\nFinishing: Test\nStarting: Build\ny\nFinishing: Build\n",
    );
    store.job_started(
        &JobInfo {
            job_id: Some(43),
            workflow: Some("CI".to_string()),
            ..JobInfo::default()
        },
        "another/repo",
        "runner",
        Some(secs(3.0)),
    );
    let found = suggestions(&store, &archive);
    assert_eq!(found.steps, strings(&["Build", "Test"]));
    assert_eq!(found.workflows, strings(&["CI"]));
    assert_eq!(found.levels, ["error", "warn", "info", "debug"]);
    assert_eq!(found.indexed_lines, 6);
}

#[test]
fn timelines_count_errors_and_warnings() {
    let (store, archive) = captured(
        "Starting: Build\n##[error] bad\n##[warning] hm\nFinishing: Build\n",
    );
    let report = steps(&store.job(42).unwrap(), &archive).unwrap();
    assert_eq!(report.steps.len(), 1);
    assert_eq!(report.steps[0].first_line, 1);
    assert_eq!(report.steps[0].last_line, 4);
    assert_eq!(report.steps[0].errors, 1);
    assert_eq!(report.steps[0].warnings, 1);
}

use homerunner::agent::{
    failure_excerpt, is_writable, jobs_table, names_commit, read_worker_logs, resolve_job, why,
    why_text, AgentError, Archive, Capture, CapturedFile, Digest,
};
use homerunner::store::{Job, JobInfo, Store};

fn secs(s: f64) -> i64 {
    (s * 1e6) as i64
}

fn job() -> Job {
    Job {
        gh_job_id: 42,
        repo: "owner/repo".to_string(),
        run_id: None,
        workflow: None,
        job_name: None,
        conclusion: None,
        runner_name: None,
        html_url: None,
        started_at: None,
        completed_at: None,
        log_dir: None,
        kept_image: None,
        kept_image_runtime: None,
        head_branch: None,
        head_sha: None,
        title: None,
        event: None,
        peak_mem_mb: None,
        oom: None,
        cpu_avg: None,
        cpu_peak: None,
    }
}

fn file(name: &str, contents: &str) -> CapturedFile {
    CapturedFile {
        name: name.to_string(),
        contents: contents.to_string(),
    }
}

fn archive(log_dir: &str, files: Vec<CapturedFile>) -> Archive {
    Archive {
        captures: vec![Capture {
            log_dir: log_dir.to_string(),
            files,
        }],
    }
}

#[test]
fn worker_logs_are_filtered_and_joined_in_filename_order() {
    let archive = archive(
        "/jobs/42",
        vec![
            file("Worker_002.log", "second\n"),
            file("Worker_001.log", "first\n"),
            file("Runner_001.log", "ignored\n"),
        ],
    );
    let job = Job {
        log_dir: Some("/jobs/42".to_string()),
        ..job()
    };
    assert_eq!(read_worker_logs(&job, &archive).unwrap(), "first\nsecond\n");
}

#[test]
fn worker_logs_explain_missing_capture() {
    let none = Archive { captures: vec![] };
    let error = read_worker_logs(&job(), &none).unwrap_err().message();
    assert!(error.contains("no captured logs"));
    let gone = Job {
        log_dir: Some("/jobs/42".to_string()),
        ..job()
    };
    assert_eq!(
        read_worker_logs(&gone, &none).unwrap_err().message(),
        "log dir missing: /jobs/42/diag"
    );
    let empty = archive("/jobs/42", vec![file("Runner_001.log", "ignored\n")]);
    assert_eq!(
        read_worker_logs(&gone, &empty).unwrap_err().message(),
        "no Worker logs captured in /jobs/42/diag"
    );
}

#[test]
fn failure_excerpt_centers_on_the_last_error() {
    let log = (0..=100)
        .map(|i| match i {
            70 => "line 70 ##[error] first".into(),
            90 => "line 90 Process completed with exit code 1".into(),
            _ => format!("line {i}"),
        })
        .collect::<Vec<_>>()
        .join("\n");

    let excerpt = failure_excerpt(&log);
    assert!(excerpt.starts_with("line 60\n"));
    assert!(excerpt.contains("line 90 Process completed with exit code 1"));
    assert!(excerpt.ends_with("line 99"));
    assert!(!excerpt.contains("line 59\n"));
    assert!(!excerpt.contains("line 100"));
}

#[test]
fn failure_excerpt_falls_back_to_last_forty_lines() {
    let log = (0..50)
        .map(|i| format!("ordinary line {i}"))
        .collect::<Vec<_>>()
        .join("\n");
    let excerpt = failure_excerpt(&log);

    assert_eq!(excerpt.lines().count(), 40);
    assert!(excerpt.starts_with("ordinary line 10\n"));
    assert!(excerpt.ends_with("ordinary line 49"));
}

#[test]
fn resolve_job_supports_ids_and_reports_bad_specs() {
    let mut store = Store::new();
    let info = JobInfo {
        job_id: Some(42),
        job_name: Some("tests".to_string()),
        ..JobInfo::default()
    };
    store.job_started(&info, "owner/repo", "runner", Some(secs(1.0)));

    assert_eq!(
        resolve_job(&store, Some("42"), false).unwrap().gh_job_id,
        42
    );
    assert!(resolve_job(&store, Some("not-an-id"), false)
        .unwrap_err()
        .message()
        .contains("job must be a numeric id"));
    assert!(resolve_job(&store, Some("99"), false)
        .unwrap_err()
        .message()
        .contains("no job 99 recorded"));
    assert_eq!(resolve_job(&store, None, false).unwrap().gh_job_id, 42);
    assert_eq!(
        resolve_job(&store, None, true).unwrap_err().message(),
        "no failed jobs recorded"
    );
    assert_eq!(
        resolve_job(&Store::new(), Some("latest"), true)
            .unwrap_err()
            .message(),
        "no jobs recorded"
    );
}

#[test]
fn jobs_table_includes_duration_and_artifact_state() {
    let output = jobs_table(&vec![Job {
        conclusion: Some("failure".to_string()),
        job_name: Some("tests".to_string()),
        started_at: Some(secs(10.0)),
        completed_at: Some(secs(75.6)),
        log_dir: Some("/logs/42".to_string()),
        kept_image: Some("kept:42".to_string()),
        ..job()
    }]);

    assert!(output.contains("66s"));
    assert!(output.contains("logs+workspace"));
    assert_eq!(jobs_table(&vec![]), "no jobs recorded\n");
}

#[test]
fn why_text_surfaces_resource_and_post_mortem_details() {
    let digest = Digest {
        job: Job {
            workflow: Some("CI".to_string()),
            job_name: Some("tests".to_string()),
            conclusion: Some("failure".to_string()),
            html_url: Some("https://example.test/job/42".to_string()),
            head_sha: Some("123456789abcdef".to_string()),
            head_branch: Some("main".to_string()),
            event: Some("push".to_string()),
            title: Some("A change".to_string()),
            peak_mem_mb: Some(512),
            oom: Some(true),
            ..job()
        },
        post_mortem: Some("workspace kept".to_string()),
        excerpt: Some("the failure".to_string()),
    };
    assert!(is_writable(&digest));
    let output = why_text(&digest);

    assert!(output.contains("main @ 123456789 (push)"));
    assert!(output.contains("peak memory: 512 MB — OOM-KILLED"));
    assert!(output.contains("workspace kept"));
    assert!(output.contains("the failure"));
}

#[test]
fn durations_are_rounded_half_away_from_zero() {
    let row = |from: f64, to: f64| {
        jobs_table(&vec![Job {
            started_at: Some(secs(from)),
            completed_at: Some(secs(to)),
            ..job()
        }])
    };
    assert!(row(0.0, 2.4).contains("    2s  "));
    assert!(row(0.0, 2.5).contains("    3s  "));
    assert!(row(2.5, 0.0).contains("   -3s  "));
    assert_eq!(
        row(0.0, 2.6),
        "42           running   owner/repo                                                \
             3s  \n"
    );
}

#[test]
fn hashes_are_cut_only_between_characters() {
    let with_sha = |sha: &str| Job {
        head_sha: Some(sha.to_string()),
        ..job()
    };
    assert!(names_commit(&job()));
    assert!(names_commit(&with_sha("abc")));
    assert!(names_commit(&with_sha("123456789abc")));
    assert!(!names_commit(&with_sha("12345678é")));
    assert!(names_commit(&with_sha("1234567éabc")));
}

#[test]
fn why_digests_the_latest_failure() {
    let mut store = Store::new();
    for (id, conclusion) in [(1, "failure"), (2, "success")] {
        let info = JobInfo {
            job_id: Some(id),
            ..JobInfo::default()
        };
        store.job_started(&info, "owner/repo", "runner", Some(secs(1.0)));
        store.job_concluded(id, conclusion, secs(id as f64));
    }
    store.set_job_artifacts(1, Some("/jobs/1"), Some("homerunner-kept:1"), Some("docker"));
    let archive = archive(
        "/jobs/1",
        vec![file("Worker_001.log", "fine\n##[error] broken\n")],
    );
    let digest = why(&store, &archive, None).unwrap();
    assert_eq!(digest.job.gh_job_id, 1);
    assert_eq!(digest.excerpt.as_deref(), Some("fine\n##[error] broken"));
    assert_eq!(
        digest.post_mortem.as_deref(),
        Some(
            "workspace kept — `homerunner exec 1` opens a shell in it; \
             `homerunner exec 1 -- <cmd>` runs one command without a TTY"
        )
    );
    assert_eq!(
        why(&store, &archive, Some("nonsense")).unwrap_err(),
        AgentError::BadJobSpec
    );
}

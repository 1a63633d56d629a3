use homerunner::store::{
    migrations, DockerCacheRecord, Event, Job, JobFilter, JobInfo, Store, StoreError, SCHEMA,
};

fn secs(s: f64) -> i64 {
    (s * 1e6) as i64
}

fn job_info(id: i64, name: &str) -> JobInfo {
    JobInfo {
        job_id: Some(id),
        run_id: Some(id * 10),
        workflow: Some("CI".to_string()),
        job_name: Some(name.to_string()),
        html_url: Some(format!("https://example.test/jobs/{id}")),
        head_branch: Some("main".to_string()),
        head_sha: Some(format!("sha-{id}")),
        title: Some(format!("Change {id}")),
        event: Some("push".to_string()),
    }
}

fn ids(jobs: &[Job]) -> Vec<i64> {
    jobs.iter().map(|j| j.gh_job_id).collect()
}

#[test]
fn job_lifecycle_round_trips_dashboard_fields() {
    let mut store = Store::new();
    store.job_started(&job_info(42, "tests"), "owner/repo", "runner-1", Some(secs(10.0)));
    store.set_job_artifacts(42, Some("/logs/42"), Some("kept:42"), Some("docker"));
    store.set_job_resources(42, 384, true, Some("72.0".to_string()), Some("130.0".to_string()));
    store.job_concluded(42, "failure", secs(12.0));

    let job = store.job(42).unwrap();
    assert_eq!(job.repo, "owner/repo");
    assert_eq!(job.workflow.as_deref(), Some("CI"));
    assert_eq!(job.job_name.as_deref(), Some("tests"));
    assert_eq!(job.runner_name.as_deref(), Some("runner-1"));
    assert_eq!(job.started_at, Some(secs(10.0)));
    assert!(job.completed_at.unwrap() >= secs(10.0));
    assert_eq!(job.conclusion.as_deref(), Some("failure"));
    assert_eq!(job.log_dir.as_deref(), Some("/logs/42"));
    assert_eq!(job.kept_image.as_deref(), Some("kept:42"));
    assert_eq!(
        store.artifact_records()[0].kept_image_runtime.as_deref(),
        Some("docker")
    );
    assert_eq!(job.peak_mem_mb, Some(384));
    assert_eq!(job.oom, Some(true));
    assert_eq!(job.cpu_avg.as_deref().unwrap().parse::<f64>().unwrap(), 72.0);
    assert_eq!(job.cpu_peak.as_deref().unwrap().parse::<f64>().unwrap(), 130.0);
    assert_eq!(job.head_branch.as_deref(), Some("main"));
    assert_eq!(job.head_sha.as_deref(), Some("sha-42"));
    assert_eq!(job.title.as_deref(), Some("Change 42"));
    assert_eq!(job.event.as_deref(), Some("push"));
}

#[test]
fn recent_jobs_are_newest_first_and_honor_limit() {
    let mut store = Store::new();
    store.job_started(&job_info(1, "old"), "owner/repo", "runner-1", Some(secs(10.0)));
    store.job_started(&job_info(2, "new"), "owner/repo", "runner-2", Some(secs(20.0)));

    let jobs = store.recent_jobs(1);
    assert_eq!(jobs.len(), 1);
    assert_eq!(jobs[0].gh_job_id, 2);
    assert_eq!(ids(&store.recent_jobs(9)), [2, 1]);
    assert!(store.recent_jobs(0).is_empty());
}

#[test]
fn filtered_jobs_apply_dimensions_and_time_window() {
    let mut store = Store::new();
    store.job_started(&job_info(1, "tests"), "owner/one", "runner-1", Some(secs(1.0)));
    store.job_concluded(1, "success", secs(10.0));
    store.job_started(&job_info(2, "lint"), "owner/two", "runner-2", Some(secs(2.0)));
    store.job_concluded(2, "failure", secs(20.0));

    let jobs = store.filtered_jobs(&JobFilter {
        repo: Some("owner/two"),
        workflow: Some("CI"),
        job_name: Some("lint"),
        completed_after: Some(secs(15.0)),
    });
    assert_eq!(jobs.len(), 1);
    assert_eq!(jobs[0].gh_job_id, 2);
    assert!(store
        .filtered_jobs(&JobFilter {
            repo: None,
            workflow: None,
            job_name: None,
            completed_after: Some(secs(21.0)),
        })
        .is_empty());
}

#[test]
fn latest_failed_ignores_newer_successful_jobs() {
    let mut store = Store::new();
    store.job_started(&job_info(1, "failed"), "owner/repo", "runner-1", Some(secs(10.0)));
    store.job_concluded(1, "failure", secs(10.0));
    store.job_started(&job_info(2, "passed"), "owner/repo", "runner-2", Some(secs(20.0)));
    store.job_concluded(2, "success", secs(20.0));

    assert_eq!(store.latest_job(false).unwrap().gh_job_id, 2);
    assert_eq!(store.latest_job(true).unwrap().gh_job_id, 1);
    assert!(Store::new().latest_job(false).is_none());
}

#[test]
fn artifact_references_can_be_cleared_after_gc() {
    let mut store = Store::new();
    store.job_started(&job_info(7, "failed"), "owner/repo", "runner", Some(secs(1.0)));
    store.set_job_artifacts(7, Some("/logs/7"), Some("kept:7"), Some("docker"));

    assert_eq!(
        store.artifact_records()[0].kept_image.as_deref(),
        Some("kept:7")
    );
    assert_eq!(store.clear_log_dir("/logs/7").unwrap(), 1);
    assert_eq!(store.clear_kept_image(7).unwrap(), 1);

    let job = store.job(7).unwrap();
    assert!(job.log_dir.is_none());
    assert!(job.kept_image.is_none());
    assert!(store.artifact_records()[0].kept_image.is_none());
}

#[test]
fn event_pruning_removes_only_expired_rows() {
    let mut store = Store::new();
    let now = secs(1_000.0);
    store.events.push(Event {
        ts: 0,
        level: "info".to_string(),
        source: "old".to_string(),
        msg: "expired".to_string(),
    });
    store.event("warn", "new", "current", now);

    assert_eq!(store.count_prunable_events(60, now), 1);
    assert_eq!(store.prune_events(60, now).unwrap(), 1);
    let events = store.recent_events(10);
    assert_eq!(events.len(), 1);
    assert_eq!(events[0].source, "new");
    assert_eq!(events[0].msg, "current");
}

#[test]
fn job_pruning_preserves_rows_with_retained_artifacts() {
    let mut store = Store::new();
    store.job_started(&job_info(1, "plain"), "owner/repo", "runner-1", Some(secs(1.0)));
    store.job_started(&job_info(2, "logs"), "owner/repo", "runner-2", Some(secs(1.0)));
    store.set_job_artifacts(2, Some("/logs/2"), None, None);
    store.jobs[0].completed_at = Some(secs(1.0));
    store.jobs[1].completed_at = Some(secs(1.0));
    let now = secs(100.0);

    assert_eq!(store.count_prunable_jobs(1, now), 1);
    assert_eq!(store.prune_jobs(1, now).unwrap(), 1);
    assert!(store.job(1).is_none());
    assert!(store.job(2).is_some());
    // What was pruned is pruned.
    assert_eq!(store.prune_jobs(1, now).unwrap(), 0);
}

#[test]
fn opening_an_old_database_applies_additive_migrations() {
    let db = rusqlite::Connection::open_in_memory().unwrap();
    db.execute_batch(SCHEMA).unwrap();
    db.execute_batch(
        "ALTER TABLE jobs ADD COLUMN log_dir TEXT;
         ALTER TABLE jobs ADD COLUMN kept_image TEXT;
         INSERT INTO jobs (gh_job_id, repo, kept_image)
         VALUES (99, 'owner/repo', 'homerunner-kept:99');",
    )
    .unwrap();

    db.execute_batch(SCHEMA).unwrap();
    for stmt in migrations() {
        let _ = db.execute(stmt, []);
    }
    let mut statement = db.prepare("PRAGMA table_info(jobs)").unwrap();
    let columns: Vec<String> = statement
        .query_map([], |row| row.get(1))
        .unwrap()
        .map(Result::unwrap)
        .collect();
    for expected in [
        "log_dir",
        "kept_image",
        "kept_image_runtime",
        "head_branch",
        "head_sha",
        "title",
        "event",
        "peak_mem_mb",
        "oom",
        "cpu_avg_pct",
        "cpu_peak_pct",
    ] {
        assert!(columns.iter().any(|column| column == expected));
    }

    let mut rows = Store::new();
    let (id, repo, image): (i64, String, String) = db
        .query_row("SELECT gh_job_id, repo, kept_image FROM jobs", [], |row| {
            Ok((row.get(0)?, row.get(1)?, row.get(2)?))
        })
        .unwrap();
    rows.job_started(&job_info(id, "old"), &repo, "runner", None);
    rows.jobs[0].kept_image = Some(image);
    let store = Store::open(rows);
    assert_eq!(
        store.artifact_records()[0].kept_image_runtime.as_deref(),
        Some("docker")
    );
}

#[test]
fn readonly_store_rejects_writes() {
    let mut store = Store::open_readonly("/data/journal.db", Some(Store::new())).unwrap();
    store.event("info", "test", "no", 0);
    assert!(store.recent_events(10).is_empty());
    store.job_started(&job_info(1, "tests"), "owner/repo", "runner", None);
    assert!(store.job(1).is_none());
    assert_eq!(store.clear_kept_image(1), Err(StoreError::ReadOnly));
    assert_eq!(store.clear_log_dir("/logs/1"), Err(StoreError::ReadOnly));
    assert_eq!(store.repair_log_dir(1, "/logs/1"), Err(StoreError::ReadOnly));
    assert_eq!(
        store.repair_kept_image(1, "kept:1", "docker"),
        Err(StoreError::ReadOnly)
    );
    assert_eq!(store.prune_jobs(1, 0), Err(StoreError::ReadOnly));
    assert_eq!(store.prune_events(1, 0), Err(StoreError::ReadOnly));
    assert_eq!(
        store.forget_docker_cache("cache"),
        Err(StoreError::ReadOnly)
    );
    assert_eq!(
        StoreError::ReadOnly.message(),
        "attempt to write a readonly database"
    );
}

#[test]
fn a_missing_journal_is_reported_with_its_path() {
    assert_eq!(
        Store::open_readonly("/data/journal.db", None).unwrap_err(),
        "no journal at /data/journal.db (has the supervisor run?)"
    );
}

#[test]
fn a_job_that_starts_again_keeps_what_became_of_it() {
    let mut store = Store::new();
    store.job_started(&job_info(5, "tests"), "owner/repo", "runner-1", Some(1));
    store.job_concluded(5, "success", 2);
    store.job_started(&job_info(5, "renamed"), "owner/other", "runner-2", Some(3));
    let job = store.job(5).unwrap();
    assert_eq!(job.repo, "owner/repo");
    assert_eq!(job.job_name.as_deref(), Some("renamed"));
    assert_eq!(job.runner_name.as_deref(), Some("runner-2"));
    assert_eq!(job.conclusion.as_deref(), Some("success"));
    assert_eq!(job.completed_at, Some(2));
    assert_eq!(store.jobs.len(), 1);
}

#[test]
fn jobs_without_an_id_are_numbered_after_the_last() {
    let mut store = Store::new();
    store.job_started(&job_info(5, "tests"), "owner/repo", "runner-1", Some(1));
    let info = JobInfo {
        job_id: None,
        ..job_info(0, "nameless")
    };
    store.job_started(&info, "owner/repo", "runner-2", Some(2));
    assert_eq!(ids(&store.recent_jobs(5)), [6, 5]);
}

#[test]
fn artifacts_that_are_not_given_are_kept() {
    let mut store = Store::new();
    store.job_started(&job_info(5, "tests"), "owner/repo", "runner-1", Some(1));
    store.set_job_artifacts(5, Some("/logs/5"), None, None);
    store.set_job_artifacts(5, None, Some("kept:5"), Some("docker"));
    let job = store.job(5).unwrap();
    assert_eq!(job.log_dir.as_deref(), Some("/logs/5"));
    assert_eq!(job.kept_image.as_deref(), Some("kept:5"));
    assert_eq!(ids(&store.jobs_with_logs(5)), [5]);
}

#[test]
fn runners_are_recorded_once_by_name() {
    let mut store = Store::new();
    store.record_runner("r", "owner/a", "docker", "c1", None, "starting", 1, None, None);
    store.record_runner("r", "owner/a", "docker", "c2", Some(3), "exited", 1, Some(9), Some(0));
    assert_eq!(store.runners.len(), 1);
    assert_eq!(store.runners[0].container_id, "c2");
    assert_eq!(store.runners[0].state, "exited");
    assert_eq!(store.runners[0].exit_code, Some(0));
}

#[test]
fn caches_are_remembered_and_forgotten_by_name() {
    let mut store = Store::new();
    store.touch_docker_cache("cache-0", "owner/repo", 0, 1);
    store.touch_docker_cache("cache-0", "owner/repo", 0, 5);
    let records: Vec<DockerCacheRecord> = store.docker_cache_records();
    assert_eq!(records.len(), 1);
    assert_eq!(records[0].last_used, 5);
    assert_eq!(store.forget_docker_cache("cache-0"), Ok(1));
    assert_eq!(store.forget_docker_cache("cache-0"), Ok(0));
}

#[test]
fn repairs_only_fill_what_is_missing() {
    let mut store = Store::new();
    store.job_started(&job_info(5, "tests"), "owner/repo", "runner-1", Some(1));
    assert_eq!(store.repair_log_dir(5, "/logs/5"), Ok(1));
    assert_eq!(store.repair_log_dir(5, "/elsewhere"), Ok(0));
    assert_eq!(store.repair_kept_image(5, "homerunner-kept:5", "docker"), Ok(1));
    assert_eq!(store.repair_kept_image(6, "homerunner-kept:6", "docker"), Ok(0));
    let job = store.job(5).unwrap();
    assert_eq!(job.log_dir.as_deref(), Some("/logs/5"));
    assert_eq!(job.kept_image.as_deref(), Some("homerunner-kept:5"));
    assert_eq!(job.kept_image_runtime.as_deref(), Some("docker"));
    assert_eq!(store.kept_images(), [(5, "homerunner-kept:5".to_string())]);
}

#[test]
fn journals_with_double_rows_do_not_hold_together() {
    let mut store = Store::new();
    store.job_started(&job_info(1, "a"), "owner/repo", "runner", None);
    store.job_started(&job_info(2, "b"), "owner/repo", "runner", None);
    assert!(store.holds_together());
    store.jobs.swap(0, 1);
    assert!(!store.holds_together());
    store.jobs.clear();
    store.record_runner("r", "o/a", "docker", "c", None, "exited", 1, None, None);
    let mut other = Store::new();
    other.record_runner("r", "o/b", "docker", "d", None, "exited", 2, None, None);
    store.runners.append(&mut other.runners);
    assert!(!store.holds_together());
}

use homerunner::agent::{Archive, Capture, CapturedFile};
use homerunner::config::{Config, RepoConfig, RuntimeKind};
use homerunner::scheduler::{App, Runner, RunnerInfo, RunnerState};
use homerunner::store::{JobInfo, Store};
use homerunner::tree::{measure, Entry};
use homerunner::web::{
    checked_dir_stats, dir_stats, disk, image_line, image_retention, job, job_logs, journal_files,
    journal_retention, last_event_id, log_retention, runner_logs, state, total_bytes, volume_line,
};

fn repo() -> RepoConfig {
    RepoConfig {
        repo: "owner/project".to_string(),
        runtime: RuntimeKind::Docker,
        labels: vec!["self-hosted".to_string()],
        image: "runner:test".to_string(),
        reserved: 1,
        max: 3,
        job_timeout_min: 60,
        caffeinate: false,
        registry_mirror: None,
        docker_layer_cache: false,
    }
}

fn config() -> Config {
    Config {
        dashboard_port: 0,
        max_total_runners: 2,
        data_dir: "/data".to_string(),
        keep_failed_workspaces: 1,
        failed_workspaces_max_age_days: None,
        failed_workspaces_max_bytes: None,
        keep_job_logs: 10,
        job_logs_max_age_days: None,
        job_logs_max_bytes: None,
        job_history_days: 365,
        event_history_days: 7,
        service_log_max_bytes: 10 * 1024 * 1024,
        service_log_backups: 3,
        poll_interval_s: 30,
        idle_decay_min: 10,
        docker_cache_max_age_days: 30,
        auth_source: "env:HOMERUNNER_TEST_TOKEN".to_string(),
        python_version: "3.13".to_string(),
        node_version: "24".to_string(),
        monitors: vec![],
        repos: vec![repo()],
    }
}

fn test_app() -> App {
    App::new(config(), Store::new())
}

#[test]
fn directory_stats_count_top_level_jobs_and_nested_bytes() {
    let dir = Some(vec![
        Entry::Dir(vec![Entry::File(3)]),
        Entry::Dir(vec![Entry::Dir(vec![Entry::File(4)])]),
    ]);

    assert_eq!(dir_stats(&dir), (2, 7));
    assert_eq!(checked_dir_stats(&dir), Some((2, 7)));
}

#[test]
fn directory_stats_are_empty_for_missing_path() {
    assert_eq!(dir_stats(&None), (0, 0));
}

#[test]
fn sizes_that_cannot_be_counted_are_told() {
    let dir = vec![Entry::File(u64::MAX), Entry::File(1)];
    assert_eq!(measure(&dir), None);
    assert_eq!(checked_dir_stats(&Some(dir)), None);
    assert_eq!(
        total_bytes(&vec![Some(u64::MAX), None, Some(1)]),
        u64::MAX as u128 + 1
    );
}

#[test]
fn state_endpoint_exposes_effective_capacity() {
    let view = state(&test_app());
    assert_eq!(view.snapshot.capacity, 2);
    assert_eq!(view.snapshot.max_total_runners, 2);
    assert_eq!(view.snapshot.repos[0].max, 3);
    assert!(view.jobs.is_empty() && view.events.is_empty());
}

#[test]
fn live_log_endpoint_resumes_after_last_event_id() {
    let mut app = test_app();
    let mut info = RunnerInfo::new(
        repo(),
        RunnerState::Listening,
        "container-1".to_string(),
        1_000_000,
    );
    for line in ["first", "second", "third"] {
        info.push_log(line.to_string());
    }
    app.runners.push(Runner {
        name: "runner-1".to_string(),
        info,
    });

    let (replay, mut cursor) = runner_logs(&app, "runner-1", Some("2")).unwrap();
    assert_eq!(replay, [(3, "third".to_string())]);
    assert!(cursor.try_recv(&app.runners[0].info).is_none());
    app.runners[0].info.push_log("fourth".to_string());
    assert_eq!(
        cursor.try_recv(&app.runners[0].info),
        Some((4, "fourth".to_string()))
    );
}

#[test]
fn missing_live_runner_returns_not_found() {
    assert_eq!(
        runner_logs(&test_app(), "missing", None).unwrap_err(),
        "no live runner missing"
    );
}

#[test]
fn captured_log_endpoint_returns_sorted_worker_logs() {
    let mut app = test_app();
    let archive = Archive {
        captures: vec![Capture {
            log_dir: "/data/jobs/42".to_string(),
            files: vec![
                CapturedFile {
                    name: "Worker_002.log".to_string(),
                    contents: "second\n".to_string(),
                },
                CapturedFile {
                    name: "Worker_001.log".to_string(),
                    contents: "first\n".to_string(),
                },
            ],
        }],
    };
    let info = JobInfo {
        job_id: Some(42),
        job_name: Some("tests".to_string()),
        ..JobInfo::default()
    };
    app.store
        .job_started(&info, "owner/project", "runner-1", Some(10_000_000));
    app.store
        .set_job_artifacts(42, Some("/data/jobs/42"), None, None);

    assert_eq!(
        job_logs(&app.store, &archive, 42).unwrap(),
        "first\nsecond\n"
    );
    assert_eq!(
        job_logs(&app.store, &archive, 43).unwrap_err(),
        "no job 43 recorded"
    );
    assert_eq!(
        job_logs(&app.store, &Archive { captures: vec![] }, 42).unwrap_err(),
        "log dir missing: /data/jobs/42/diag"
    );
    assert_eq!(job(&app.store, 42).unwrap().gh_job_id, 42);
    assert_eq!(job(&app.store, -1).unwrap_err(), "no job -1 recorded");
}

#[test]
fn retention_is_written_with_its_limits() {
    let mut cfg = config();
    assert_eq!(log_retention(&cfg), "newest 10 jobs");
    assert_eq!(image_retention(&cfg), "newest 1 failed jobs");
    cfg.job_logs_max_age_days = Some(14);
    cfg.job_logs_max_bytes = Some(3 * 1024 * 1024 + 1);
    cfg.failed_workspaces_max_bytes = Some(1024 * 1024);
    assert_eq!(log_retention(&cfg), "newest 10 jobs; max 14 days; max 3 MB");
    assert_eq!(image_retention(&cfg), "newest 1 failed jobs; max 1 MB");
    assert_eq!(
        journal_retention(&cfg),
        "events: 7 days; artifact-free jobs: 365 days"
    );
    assert_eq!(
        journal_files("/data/homerunner.db"),
        [
            "/data/homerunner.db",
            "/data/homerunner.db-wal",
            "/data/homerunner.db-shm"
        ]
    );
}

#[test]
fn only_our_images_and_volumes_are_listed() {
    let image = image_line("homerunner-kept:42 1.2GB virtual").unwrap();
    assert_eq!(image.name, "homerunner-kept:42");
    assert_eq!(image.size, "1.2GB virtual");
    assert_eq!(image_line("homerunner-runner:local").unwrap().size, "");
    assert!(image_line("ubuntu:24.04 80MB").is_none());
    let volume = volume_line("homerunner-home-cache   3    1.5GB").unwrap();
    assert_eq!(volume.name, "homerunner-home-cache");
    assert_eq!(volume.size, "1.5GB");
    assert!(volume_line("homerunner-pnpm-store").is_none());
    assert!(volume_line("other 1 2GB").is_none());
}

#[test]
fn the_disk_report_says_what_is_kept_where_and_how_long() {
    let cfg = config();
    let found = Some(vec![
        Entry::Dir(vec![Entry::File(3)]),
        Entry::Dir(vec![Entry::Dir(vec![Entry::File(4)])]),
    ]);
    let lines = |v: &[&str]| v.iter().map(|s| s.to_string()).collect::<Vec<_>>();
    let images = lines(&["ubuntu:24.04 80MB", "homerunner-kept:42 1.2GB", "homerunner-runner:local 900MB"]);
    let volumes = lines(&["VOLUME NAME LINKS SIZE", "homerunner-pnpm-store 1 2GB", "other 1 3GB"]);
    let kept = disk(&cfg, &found, &vec![Some(10), None, Some(5)], &images, &volumes);
    assert_eq!(kept.jobs_path, "/data/jobs");
    assert_eq!((kept.jobs, kept.jobs_bytes), (2, 7));
    assert_eq!(kept.jobs_retention, log_retention(&cfg));
    assert_eq!(kept.journal_path, "/data/homerunner.db");
    assert_eq!(kept.journal_bytes, 15);
    assert_eq!(kept.journal_retention, journal_retention(&cfg));
    let names: Vec<(&str, &str)> =
        kept.images.iter().map(|k| (k.name.as_str(), k.size.as_str())).collect();
    assert_eq!(names, [("homerunner-kept:42", "1.2GB"), ("homerunner-runner:local", "900MB")]);
    assert_eq!(kept.image_retention, image_retention(&cfg));
    assert_eq!(kept.volumes.len(), 1);
    assert_eq!(kept.volumes[0].name, "homerunner-pnpm-store");
    assert_eq!(kept.volumes[0].size, "2GB");
    assert_eq!(
        kept.volume_retention,
        "dependency caches; grow with churn, `docker volume rm` resets"
    );
    let nothing = disk(&cfg, &None, &vec![], &vec![], &vec![]);
    assert_eq!((nothing.jobs, nothing.jobs_bytes, nothing.journal_bytes), (0, 0, 0));
    assert!(nothing.images.is_empty() && nothing.volumes.is_empty());
}

#[test]
fn readers_without_a_number_start_over() {
    assert_eq!(last_event_id(None), 0);
    assert_eq!(last_event_id(Some("12")), 12);
    assert_eq!(last_event_id(Some("twelve")), 0);
}

use homerunner::cleanup::{
    associate_image_jobs, cache_removal_reason, cleanup_docker_caches, cleanup_images,
    cleanup_logs, human_bytes, image_job_id, image_runtimes, log_dir, prune_history,
    record_cache_removal, record_image_removal, remove_log_dir_with, runtime_named,
    select_removals, wants_cache_inventory, Candidate, CleanupReport, ImageArtifact,
    ImageInventory, LogDir,
};
use homerunner::config::{Config, RepoConfig, RuntimeKind};
use homerunner::runtime::{DockerCacheVolume, KeptImage};
use homerunner::store::{ArtifactRecord, JobInfo, Store};
use std::collections::HashSet;

const DAY: f64 = 86_400.0;

fn secs(s: f64) -> i64 {
    (s * 1e6) as i64
}

fn candidate(timestamp: f64, bytes: u64) -> Candidate {
    Candidate {
        name: timestamp.to_string(),
        bytes,
        timestamp: secs(timestamp),
    }
}

fn config(data_dir: &str, keep_job_logs: u32) -> Config {
    Config {
        dashboard_port: 0,
        max_total_runners: 1,
        data_dir: data_dir.to_string(),
        keep_failed_workspaces: 0,
        failed_workspaces_max_age_days: None,
        failed_workspaces_max_bytes: None,
        keep_job_logs,
        job_logs_max_age_days: None,
        job_logs_max_bytes: None,
        job_history_days: 365,
        event_history_days: 7,
        service_log_max_bytes: 1024,
        service_log_backups: 1,
        poll_interval_s: 30,
        idle_decay_min: 10,
        docker_cache_max_age_days: 30,
        auth_source: "env:TEST_TOKEN".to_string(),
        python_version: "3.13".to_string(),
        node_version: "24".to_string(),
        monitors: vec![],
        repos: vec![RepoConfig {
            repo: "owner/repo".to_string(),
            runtime: RuntimeKind::AppleContainer,
            labels: Vec::new(),
            image: "runner:test".to_string(),
            reserved: 0,
            max: 1,
            job_timeout_min: 60,
            caffeinate: false,
            registry_mirror: None,
            docker_layer_cache: false,
        }],
    }
}

fn record_job(store: &mut Store, id: i64) {
    let info = JobInfo {
        job_id: Some(id),
        job_name: Some("test".to_string()),
        ..JobInfo::default()
    };
    store.job_started(&info, "owner/repo", "runner", Some(secs(1.0)));
    store.job_concluded(id, "failure", secs(2.0));
}

#[test]
fn cache_cleanup_respects_use_config_and_age() {
    let ts = secs(100.0 * DAY);
    assert_eq!(
        cache_removal_reason(false, Some(2), 2, ts, 30, ts),
        Some("no configured cache slot")
    );
    assert_eq!(
        cache_removal_reason(false, Some(2), 1, secs(60.0 * DAY), 30, ts),
        Some("expired")
    );
    assert_eq!(
        cache_removal_reason(false, Some(2), 1, secs(60.0 * DAY), 0, ts),
        None
    );
    assert_eq!(cache_removal_reason(true, None, 99, 0, 1, ts), None);
}

#[test]
fn policy_combines_age_count_and_size_limits() {
    let candidates = vec![
        candidate(1.0, 10),
        candidate(50.0, 10),
        candidate(60.0, 10),
        candidate(70.0, 10),
    ];
    let selected = select_removals(&candidates, 3, Some(1), Some(15), secs(DAY + 55.0));
    assert_eq!(selected, HashSet::from([0, 1, 2]));
}

#[test]
fn zero_count_selects_every_artifact() {
    let candidates = vec![candidate(1.0, 1), candidate(2.0, 1)];
    assert_eq!(
        select_removals(&candidates, 0, None, None, secs(3.0)),
        HashSet::from([0, 1])
    );
}

#[test]
fn image_tags_map_only_standard_numeric_jobs() {
    assert_eq!(image_job_id("homerunner-kept:42"), Some(42));
    assert_eq!(image_job_id("homerunner-kept:runner-name"), None);
    assert_eq!(image_job_id("unrelated:42"), None);
}

#[test]
fn image_association_uses_the_recorded_runtime_and_supports_runner_tags() {
    let records = vec![ArtifactRecord {
        job_id: 9,
        completed_at: Some(secs(10.0)),
        log_dir: None,
        kept_image: Some("homerunner-kept:runner-name".to_string()),
        kept_image_runtime: Some("docker".to_string()),
    }];
    let mut images = vec![
        ImageArtifact {
            candidate: candidate(0.0, 1),
            runtime: RuntimeKind::Docker,
            job_id: None,
        },
        ImageArtifact {
            candidate: candidate(0.0, 1),
            runtime: RuntimeKind::AppleContainer,
            job_id: None,
        },
    ];
    for image in &mut images {
        image.candidate.name = "homerunner-kept:runner-name".to_string();
    }

    associate_image_jobs(&mut images, &records);

    assert_eq!(images[0].job_id, Some(9));
    assert_eq!(images[1].job_id, None);
}

#[test]
fn log_cleanup_repairs_then_removes_journal_reference() {
    let dirs = vec![log_dir("/data/jobs/42", "42", 2, secs(5.0))];
    let mut store = Store::new();
    record_job(&mut store, 42);

    let records = store.artifact_records();
    let mut report = CleanupReport::default();
    let now = secs(10.0);
    let removals = cleanup_logs(&config("/data", 1), &mut store, &records, &dirs, now, &mut report);
    assert!(removals.is_empty());
    assert_eq!(report.repaired, 1);
    assert_eq!(
        store.artifact_records()[0].log_dir.as_deref(),
        Some("/data/jobs/42")
    );

    let records = store.artifact_records();
    let removals = cleanup_logs(&config("/data", 0), &mut store, &records, &dirs, now, &mut report);
    assert_eq!(removals, [0]);
    for i in removals {
        remove_log_dir_with(&mut store, &dirs[i], &mut report, Ok(()));
    }
    assert_eq!(report.removed, 1);
    assert_eq!(report.reclaimed_bytes, 2);
    assert!(store.artifact_records()[0].log_dir.is_none());
}

#[test]
fn dry_run_does_not_repair_or_remove_logs() {
    let dirs = vec![log_dir("/data/jobs/43", "43", 0, secs(5.0))];
    let mut store = Store::new();
    record_job(&mut store, 43);
    let records = store.artifact_records();
    let mut report = CleanupReport {
        dry_run: true,
        ..CleanupReport::default()
    };

    let removals = cleanup_logs(
        &config("/data", 0),
        &mut store,
        &records,
        &dirs,
        secs(10.0),
        &mut report,
    );

    assert_eq!(report.repaired, 1);
    assert_eq!(report.planned, 1);
    assert!(removals.is_empty());
    assert!(store.artifact_records()[0].log_dir.is_none());
}

#[test]
fn failed_deletion_preserves_journal_reference() {
    let mut store = Store::new();
    record_job(&mut store, 7);
    store.set_job_artifacts(7, Some("/logs/7"), None, None);
    let dir = LogDir {
        candidate: candidate(1.0, 10),
        path: "/logs/7".to_string(),
        job_id: Some(7),
    };
    let mut report = CleanupReport::default();

    remove_log_dir_with(&mut store, &dir, &mut report, Err("denied".to_string()));

    assert_eq!(report.removed, 0);
    assert_eq!(report.errors.len(), 1);
    assert_eq!(
        store.artifact_records()[0].log_dir.as_deref(),
        Some("/logs/7")
    );
}

#[test]
fn failed_image_deletion_preserves_journal_reference() {
    let mut store = Store::new();
    record_job(&mut store, 8);
    store.set_job_artifacts(8, None, Some("homerunner-kept:8"), Some("docker"));
    let image = ImageArtifact {
        candidate: Candidate {
            name: "homerunner-kept:8".to_string(),
            bytes: 100,
            timestamp: secs(1.0),
        },
        runtime: RuntimeKind::Docker,
        job_id: Some(8),
    };
    let mut report = CleanupReport::default();

    record_image_removal(
        &mut store,
        &image,
        Err("runtime refused deletion".to_string()),
        &mut report,
    );

    assert_eq!(report.removed, 0);
    assert_eq!(report.errors.len(), 1);
    assert_eq!(
        store.artifact_records()[0].kept_image.as_deref(),
        Some("homerunner-kept:8")
    );
}

#[test]
fn sizes_are_written_in_the_largest_unit_that_fits() {
    assert_eq!(human_bytes(0), "0 B");
    assert_eq!(human_bytes(1023), "1023 B");
    assert_eq!(human_bytes(1536), "1.5 KiB");
    assert_eq!(human_bytes(1024 * 1024), "1.0 MiB");
    assert_eq!(human_bytes(5 * 1024 * 1024 * 1024 / 2), "2.5 GiB");
    // Halves go to the even neighbour.
    assert_eq!(human_bytes(1024 + 256), "1.2 KiB");
    assert_eq!(human_bytes(1024 + 768), "1.8 KiB");
}

#[test]
fn runtimes_are_known_by_their_configured_names() {
    assert_eq!(runtime_named("docker"), Some(RuntimeKind::Docker));
    assert_eq!(
        runtime_named("apple-container"),
        Some(RuntimeKind::AppleContainer)
    );
    assert_eq!(runtime_named("podman"), None);
}

#[test]
fn the_newest_artifacts_are_kept() {
    let candidates = vec![candidate(9.0, 5), candidate(1.0, 5), candidate(5.0, 5)];
    assert_eq!(
        select_removals(&candidates, 2, None, None, secs(10.0)),
        HashSet::from([1])
    );
    assert_eq!(
        select_removals(&candidates, 3, None, Some(9), secs(10.0)),
        HashSet::from([1, 2])
    );
    assert!(select_removals(&candidates, 3, Some(1), None, secs(10.0)).is_empty());
}

#[test]
fn kept_images_are_removed_and_forgotten() {
    let mut store = Store::new();
    record_job(&mut store, 8);
    store.set_job_artifacts(8, None, Some("homerunner-kept:8"), Some("docker"));
    let records = store.artifact_records();
    let mut cfg = config("/data", 1);
    cfg.repos[0].runtime = RuntimeKind::Docker;
    assert_eq!(image_runtimes(&cfg, &records), [RuntimeKind::Docker]);
    let inventories = vec![ImageInventory {
        runtime: RuntimeKind::Docker,
        found: Ok(vec![KeptImage {
            tag: "homerunner-kept:8".to_string(),
            size_bytes: 100,
        }]),
    }];
    let mut report = CleanupReport::default();
    let (images, removals) = cleanup_images(
        &cfg,
        &mut store,
        &records,
        &inventories,
        secs(10.0),
        &mut report,
    );
    assert_eq!(removals, [0]);
    record_image_removal(&mut store, &images[0], Ok(()), &mut report);
    assert_eq!(report.removed, 1);
    assert_eq!(report.reclaimed_bytes, 100);
    assert!(store.artifact_records()[0].kept_image.is_none());
}

#[test]
fn references_to_images_that_are_gone_are_cleared() {
    let mut store = Store::new();
    record_job(&mut store, 8);
    store.set_job_artifacts(8, None, Some("homerunner-kept:8"), Some("docker"));
    let records = store.artifact_records();
    let mut cfg = config("/data", 1);
    cfg.repos[0].runtime = RuntimeKind::Docker;
    cfg.keep_failed_workspaces = 5;
    let inventories = vec![ImageInventory {
        runtime: RuntimeKind::Docker,
        found: Ok(vec![]),
    }];
    let mut report = CleanupReport::default();
    let (_, removals) = cleanup_images(
        &cfg,
        &mut store,
        &records,
        &inventories,
        secs(10.0),
        &mut report,
    );
    assert!(removals.is_empty());
    assert_eq!(report.stale_references, 1);
    assert!(store.artifact_records()[0].kept_image.is_none());
}

#[test]
fn an_inventory_that_fails_clears_nothing() {
    let mut store = Store::new();
    record_job(&mut store, 8);
    store.set_job_artifacts(8, None, Some("homerunner-kept:8"), Some("docker"));
    let records = store.artifact_records();
    let mut cfg = config("/data", 1);
    cfg.repos[0].runtime = RuntimeKind::Docker;
    let inventories = vec![ImageInventory {
        runtime: RuntimeKind::Docker,
        found: Err("docker is not running".to_string()),
    }];
    let mut report = CleanupReport::default();
    cleanup_images(
        &cfg,
        &mut store,
        &records,
        &inventories,
        secs(10.0),
        &mut report,
    );
    assert_eq!(report.errors.len(), 1);
    assert!(store.artifact_records()[0].kept_image.is_some());
}

#[test]
fn caches_that_nobody_uses_are_removed() {
    let now = secs(100.0 * DAY);
    let mut store = Store::new();
    store.touch_docker_cache("cache-0", "owner/repo", 0, secs(1.0));
    let mut cfg = config("/data", 1);
    cfg.repos[0].docker_layer_cache = true;
    cfg.repos[0].runtime = RuntimeKind::Docker;
    assert!(wants_cache_inventory(&cfg, &store));
    let volumes = Ok(vec![DockerCacheVolume {
        name: "cache-0".to_string(),
        repo: "owner/repo".to_string(),
        slot: 0,
        in_use: false,
    }]);
    let mut report = CleanupReport::default();
    let removals = cleanup_docker_caches(&cfg, &mut store, &volumes, now, &mut report);
    assert_eq!(removals, [0]);
    record_cache_removal(&mut store, "cache-0", Ok(()), &mut report);
    assert!(store.docker_cache_records().is_empty());
    assert!(!wants_cache_inventory(&config("/data", 1), &store));
}

#[test]
fn dry_runs_leave_kept_images_alone() {
    let mut store = Store::new();
    record_job(&mut store, 8);
    store.set_job_artifacts(8, None, Some("homerunner-kept:8"), Some("docker"));
    let records = store.artifact_records();
    let mut cfg = config("/data", 1);
    cfg.repos[0].runtime = RuntimeKind::Docker;
    let inventories = vec![ImageInventory {
        runtime: RuntimeKind::Docker,
        found: Ok(vec![KeptImage {
            tag: "homerunner-kept:8".to_string(),
            size_bytes: 100,
        }]),
    }];
    let mut report = CleanupReport { dry_run: true, ..CleanupReport::default() };
    let (_, removals) =
        cleanup_images(&cfg, &mut store, &records, &inventories, secs(10.0), &mut report);
    assert!(removals.is_empty());
    assert_eq!((report.planned, report.removed, report.reclaimed_bytes), (1, 0, 100));
    assert_eq!(store.artifact_records(), records);
}

#[test]
fn dry_runs_leave_layer_caches_alone() {
    let now = secs(100.0 * DAY);
    let mut store = Store::new();
    store.touch_docker_cache("missing", "owner/repo", 0, secs(1.0));
    store.touch_docker_cache("expired", "owner/repo", 0, secs(1.0));
    let volume = |name: &str| DockerCacheVolume {
        name: name.to_string(),
        repo: "owner/repo".to_string(),
        slot: 0,
        in_use: false,
    };
    let found = Ok(vec![volume("expired"), volume("unknown")]);
    let mut report = CleanupReport { dry_run: true, ..CleanupReport::default() };
    let _ = cleanup_docker_caches(&config("/data", 1), &mut store, &found, now, &mut report);
    assert_eq!(
        report.actions,
        [
            "forget missing Docker cache missing",
            "remove Docker cache expired (no configured cache slot)",
            "track existing Docker cache unknown for owner/repo slot 0",
        ]
    );
    assert_eq!((report.stale_references, report.planned, report.repaired), (1, 1, 1));
    assert_eq!(report.removed, 0);
    let names: Vec<String> =
        store.docker_cache_records().into_iter().map(|c| c.name).collect();
    assert_eq!(names.len(), 2);
    assert!(names.contains(&"missing".to_string()) && names.contains(&"expired".to_string()));
}

#[test]
fn history_is_pruned_by_age() {
    let mut store = Store::new();
    record_job(&mut store, 1);
    store.event("info", "test", "old", secs(1.0));
    let mut report = CleanupReport::default();
    prune_history(&config("/data", 1), &mut store, secs(366.0 * DAY + 5.0), &mut report);
    assert_eq!(report.pruned_jobs, 1);
    assert_eq!(report.pruned_events, 1);
    assert!(store.job(1).is_none());
    assert!(store.recent_events(5).is_empty());
}

#[test]
fn reports_count_as_far_as_they_can() {
    let mut report = CleanupReport { dry_run: true, ..CleanupReport::default() };
    assert!(report.room_for(1, 1, u64::MAX as u128));
    report.reclaimed_bytes = 1;
    assert!(!report.room_for(1, 1, u64::MAX as u128));
    report.dry_run = false;
    assert!(report.room_for(1, 1, u64::MAX as u128));
    assert!(report.room_for_removal(u64::MAX - 1));
    assert!(!report.room_for_removal(u64::MAX));
    report.stale_references = usize::MAX;
    assert!(report.room_for(0, 5, 0));
    assert!(!report.room_for(1, 0, 0));
    report.planned = usize::MAX;
    assert!(!report.room_for(0, 1, 0));
    assert!(report.room_for_removal(0));
    report.removed = usize::MAX;
    assert!(!report.room_for_removal(0));
    assert!(report.room_for(0, 0, 0));
}

#[test]
fn removals_need_no_room_for_what_they_do_not_count() {
    let mut store = Store::new();
    record_job(&mut store, 7);
    store.set_job_artifacts(7, Some("/logs/7"), None, None);
    let dir = log_dir("/logs/7", "7", 10, 0);
    let mut report = CleanupReport {
        planned: usize::MAX,
        repaired: usize::MAX,
        stale_references: usize::MAX,
        ..CleanupReport::default()
    };
    remove_log_dir_with(&mut store, &dir, &mut report, Ok(()));
    assert_eq!((report.removed, report.reclaimed_bytes), (1, 10));
    assert!(store.artifact_records()[0].log_dir.is_none());
}

#[test]
fn summaries_tell_plans_from_deeds() {
    let report = CleanupReport {
        dry_run: true,
        planned: 2,
        ..CleanupReport::default()
    };
    assert_eq!(
        report.summary(),
        "would remove 2 artifact(s) and reclaim 0 B; would repair 0 reference(s) and prune \
         0 job(s) and 0 event(s)"
    );
    let done = CleanupReport {
        removed: 3,
        reclaimed_bytes: 1536,
        repaired: 1,
        pruned_jobs: 4,
        pruned_events: 5,
        errors: vec!["denied".to_string()],
        ..CleanupReport::default()
    };
    assert_eq!(
        done.summary(),
        "removed 3 artifact(s), reclaimed 1.5 KiB; repaired 1 reference(s), pruned 4 job(s) \
         and 5 event(s); 1 error(s)"
    );
}

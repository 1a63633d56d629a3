use homerunner::config::{Config, RepoConfig, RuntimeKind};
use homerunner::runtime::ManagedContainer;
use homerunner::scheduler::{
    after_exit, after_lookup, conclusion_text, runner_name, App, LineEffect, LogDirAge, Lookup, NextExit, NextLookup, Registration,
    RunnerInfo, RunnerState, Sample, Spawned, Wakefulness, EXIT_WAITS, EXIT_WAIT_MS, LOG_WINDOW,
};
use homerunner::store::{JobInfo, Store};

fn secs(s: f64) -> i64 {
    (s * 1e6) as i64
}

fn repo(name: &str, reserved: u32, max: u32) -> RepoConfig {
    RepoConfig {
        repo: name.to_string(),
        runtime: RuntimeKind::Docker,
        labels: vec!["self-hosted".to_string()],
        image: "runner:test".to_string(),
        reserved,
        max,
        job_timeout_min: 60,
        caffeinate: false,
        registry_mirror: None,
        docker_layer_cache: false,
    }
}

fn app(repos: Vec<RepoConfig>, max_total_runners: u32) -> App {
    let config = Config {
        dashboard_port: 0,
        max_total_runners,
        data_dir: "/tmp/homerunner-tests-unused".to_string(),
        keep_failed_workspaces: 0,
        failed_workspaces_max_age_days: None,
        failed_workspaces_max_bytes: None,
        keep_job_logs: 10,
        job_logs_max_age_days: None,
        job_logs_max_bytes: None,
        job_history_days: 365,
        event_history_days: 7,
        service_log_max_bytes: 10 * 1024 * 1024,
        service_log_backups: 3,
        poll_interval_s: 30,
        idle_decay_min: 10,
        docker_cache_max_age_days: 30,
        auth_source: "env:HOMERUNNER_TEST_TOKEN".to_string(),
        python_version: "3.13".to_string(),
        node_version: "24".to_string(),
        repos,
        monitors: vec![],
    };
    App::new(config, Store::new())
}

fn starting(rc: &RepoConfig) -> RunnerInfo {
    RunnerInfo::new(rc.clone(), RunnerState::Starting, String::new(), 0)
}

fn messages(app: &App) -> Vec<String> {
    app.store.events.iter().map(|e| e.msg.clone()).collect()
}

/// A supervisor with one listening runner, and its name.
fn listening(rc: &RepoConfig) -> (App, String) {
    let mut app = app(vec![rc.clone()], 3);
    let name = app.reserve_named(rc, 7, secs(1.0)).unwrap();
    let spawned = Spawned {
        gh_runner_id: 11,
        container_id: "c1".to_string(),
    };
    app.note_spawn(&name, Ok(spawned), secs(2.0));
    (app, name)
}

#[test]
fn concurrent_reservations_never_exceed_global_cap() {
    let repo = repo("owner/project", 0, 20);
    let mut app = app(vec![repo.clone()], 3);
    let reserved: usize = (0..16)
        .map(|i| usize::from(app.reserve_runner(format!("runner-{i}"), starting(&repo))))
        .sum();
    assert_eq!(reserved, 3);
    assert_eq!(app.live_count(None), 3);
}

#[test]
fn reservations_enforce_repo_and_global_caps() {
    let first = repo("owner/first", 0, 2);
    let second = repo("owner/second", 0, 2);
    let mut app = app(vec![first.clone(), second.clone()], 3);

    for i in 0..2 {
        assert!(app.reserve_runner(format!("first-{i}"), starting(&first)));
    }
    assert!(!app.reserve_runner("first-overflow".to_string(), starting(&first)));
    assert!(app.reserve_runner("second-0".to_string(), starting(&second)));
    assert!(!app.reserve_runner("second-global-overflow".to_string(), starting(&second)));
}

#[test]
fn snapshot_reports_effective_capacity() {
    let app = app(
        vec![repo("owner/first", 0, 3), repo("owner/second", 0, 2)],
        4,
    );
    let snapshot = app.snapshot();

    assert_eq!(snapshot.capacity, 4);
    assert_eq!(snapshot.max_total_runners, 4);
}

#[test]
fn log_replay_resumes_after_last_event_id() {
    let mut runner = RunnerInfo::new(
        repo("owner/project", 0, 1),
        RunnerState::Listening,
        "container".to_string(),
        0,
    );
    for i in 1..=5 {
        runner.push_log(format!("line {i}"));
    }

    let (replay, mut live) = runner.subscribe_logs(3);
    assert_eq!(
        replay,
        vec![(4, "line 4".to_string()), (5, "line 5".to_string())]
    );

    runner.push_log("line 6".to_string());
    assert_eq!(live.try_recv(&runner).unwrap(), (6, "line 6".to_string()));
}

#[test]
fn log_replay_keeps_only_the_recent_window() {
    let mut runner = RunnerInfo::new(
        repo("owner/project", 0, 1),
        RunnerState::Listening,
        "container".to_string(),
        0,
    );
    for i in 1..=505 {
        runner.push_log(format!("line {i}"));
    }

    let (replay, _) = runner.subscribe_logs(0);
    assert_eq!(replay.len(), 500);
    assert_eq!(replay.len(), LOG_WINDOW);
    assert_eq!(replay.first().unwrap(), &(6, "line 6".to_string()));
    assert_eq!(replay.last().unwrap(), &(505, "line 505".to_string()));
}

#[test]
fn runners_are_named_after_their_repo() {
    let rc = repo("owner/project", 1, 1);
    assert_eq!(runner_name(&rc, 0xabcdef), "hr-owner-project-abcdef");
    assert_eq!(runner_name(&rc, 0xff00_0001), "hr-owner-project-000001");
    let mut app = app(vec![rc.clone()], 3);
    let name = app.spawn_runner(&rc, 0).unwrap();
    assert!(name.starts_with("hr-owner-project-"));
    assert_eq!(name.len(), "hr-owner-project-".len() + 6);
    assert_eq!(app.live_count(Some("owner/project")), 1);
    assert_eq!(app.live_count(Some("owner/other")), 0);
    assert!(app.spawn_runner(&rc, 0).is_none());
}

#[test]
fn pools_are_topped_up_to_their_floor() {
    let rc = repo("owner/project", 2, 3);
    let mut app = app(vec![rc.clone()], 9);
    let mut n: u32 = 0;
    while app.wants_runner(&rc) {
        n += 1;
        app.reserve_named(&rc, n, 0);
    }
    assert_eq!(app.live_count(None), 2);
    app.note_runtime(RuntimeKind::Docker, Some("down".to_string()), 1);
    assert!(!app.wants_runner(&repo("owner/project", 5, 5)));
    assert_eq!(messages(&app), ["docker degraded: down"]);
    app.note_runtime(RuntimeKind::Docker, None, 2);
    assert!(app.degraded.is_empty());
}

#[test]
fn only_repos_that_can_burst_are_polled() {
    let fixed = repo("owner/fixed", 2, 2);
    let bursty = repo("owner/bursty", 0, 2);
    let mut app = app(vec![fixed, bursty.clone()], 9);
    assert_eq!(app.bursty_repos(), [1]);
    assert!(app.wants_burst(&bursty, 1));
    assert!(!app.wants_burst(&bursty, 0));
    let name = app.reserve_named(&bursty, 1, 0).unwrap();
    app.note_spawn(
        &name,
        Ok(Spawned {
            gh_runner_id: 1,
            container_id: "c".to_string(),
        }),
        0,
    );
    assert!(!app.wants_burst(&bursty, 1));
    assert!(app.wants_burst(&bursty, 2));
    app.note_burst("owner/bursty", 2, 5);
    assert_eq!(
        messages(&app).last().unwrap(),
        "owner/bursty: 2 queued job(s), scaling up"
    );
}

#[test]
fn spawns_are_recorded_as_they_turn_out() {
    let rc = repo("owner/project", 1, 2);
    let (app, name) = listening(&rc);
    let info = &app.runners[app.find(&name)].info;
    assert_eq!(info.state, RunnerState::Listening);
    assert_eq!(info.gh_runner_id, Some(11));
    assert_eq!(
        messages(&app),
        ["hr-owner-project-000007 listening for owner/project"]
    );
    assert_eq!(app.store.runners[0].state, "listening");

    let mut app = crate::app(vec![rc.clone()], 3);
    let name = app.reserve_named(&rc, 7, secs(1.0)).unwrap();
    app.note_spawn(&name, Err("no image".to_string()), secs(2.0));
    assert_eq!(app.live_count(None), 0);
    assert_eq!(messages(&app), ["hr-owner-project-000007 failed: no image"]);
    assert_eq!(app.backoff[0].failures, 1);
    assert_eq!(app.store.runners[0].state, "failed");
}

#[test]
fn orphans_are_adopted_where_they_belong() {
    let rc = repo("owner/project", 1, 2);
    let mut app = app(vec![rc], 3);
    let mut container = ManagedContainer {
        container_id: "c9".to_string(),
        runner_name: "hr-owner-project-00aa00".to_string(),
        repo: "owner/project".to_string(),
        running: true,
    };
    assert!(app.adopt(RuntimeKind::Docker, &container, 5));
    assert_eq!(app.live_count(None), 1);
    container.running = false;
    assert!(!app.adopt(RuntimeKind::Docker, &container, 5));
    assert!(!app.adopt(RuntimeKind::AppleContainer, &container, 5));
    assert_eq!(
        messages(&app)[..2],
        [
            "re-adopted running runner hr-owner-project-00aa00",
            "reaped stale container hr-owner-project-00aa00",
        ]
    );
}

#[test]
fn left_over_registrations_are_ours_offline_and_without_a_runner() {
    let rc = repo("owner/project", 1, 2);
    let (app, name) = listening(&rc);
    let reg = |name: &str, status: &str, id: Option<i64>| Registration {
        name: name.to_string(),
        status: Some(status.to_string()),
        id,
    };
    let regs = vec![
        reg(&name, "offline", Some(1)),
        reg("hr-owner-project-00dead", "offline", Some(2)),
        reg("hr-owner-project-00beef", "online", Some(3)),
        reg("somebody-else", "offline", Some(4)),
        reg("hr-owner-project-00cafe", "offline", None),
    ];
    assert_eq!(app.left_over_registrations(&rc, &regs), [1]);
}

#[test]
fn jobs_are_followed_through_the_log() {
    let rc = repo("owner/project", 1, 2);
    let (mut app, name) = listening(&rc);
    assert!(matches!(
        app.watch_line(&name, "Listening for Jobs", secs(3.0)),
        LineEffect::Nothing
    ));
    assert!(matches!(
        app.watch_line(&name, "2024: Running job: unit tests", secs(4.0)),
        LineEffect::BecameBusy
    ));
    assert!(matches!(
        app.watch_line(&name, "Running job: unit tests", secs(5.0)),
        LineEffect::Nothing
    ));
    let info = &app.runners[app.find(&name)].info;
    assert_eq!(info.state, RunnerState::Busy);
    assert_eq!(info.busy_at, Some(secs(4.0)));
    assert_eq!(info.job.info.job_name.as_deref(), Some("unit tests"));
    assert!(info.ran_job);
    assert_eq!(info.log.len(), 3);
    app.watch_line(&name, "Job unit tests completed with result: Failed", secs(9.0));
    let info = &app.runners[app.find(&name)].info;
    assert_eq!(info.job.conclusion.as_deref(), Some("failure"));
    assert!(app.exit_settled(&name));
    assert!(matches!(
        app.watch_line("gone", "x", secs(9.0)),
        LineEffect::Gone
    ));
    assert_eq!(
        messages(&app)[1..],
        [
            "hr-owner-project-000007 running: unit tests",
            "hr-owner-project-000007 job result: failure"
        ]
    );
}

#[test]
fn results_are_renamed() {
    let rc = repo("owner/project", 1, 2);
    for (result, conclusion) in [
        ("Succeeded", "success"),
        ("Failed", "failure"),
        ("Canceled", "cancelled"),
        ("Abandoned", "abandoned"),
    ] {
        let (mut app, name) = listening(&rc);
        app.watch_line(&name, "Running job: t", 1);
        app.watch_line(&name, &format!("completed with result: {result}"), 2);
        let info = &app.runners[app.find(&name)].info;
        assert_eq!(info.job.conclusion.as_deref(), Some(conclusion));
        assert_eq!(conclusion_text(result), conclusion);
    }
}

#[test]
fn lines_can_be_taken_with_what_was_found_in_them() {
    let rc = repo("owner/project", 1, 2);
    let (mut app, name) = listening(&rc);
    assert!(matches!(
        app.take_line(&name, "whatever", Some("t"), None, 1),
        LineEffect::BecameBusy
    ));
    app.take_line(&name, "whatever", None, Some("odd"), 2);
    let info = &app.runners[app.find(&name)].info;
    assert_eq!(info.job.conclusion.as_deref(), Some("odd"));
}

#[test]
fn short_jobs_are_settled_when_they_are_found() {
    let rc = repo("owner/project", 1, 2);
    let (mut app, name) = listening(&rc);
    app.config.keep_failed_workspaces = 1;
    app.watch_line(&name, "Running job: t", secs(4.0));
    app.watch_line(&name, "completed with result: Failed", secs(5.0));
    let plan = app.exit_plan(&name).unwrap();
    assert!(plan.ran_job);
    assert_eq!(plan.job_id, None);
    assert_eq!(plan.key, name);
    assert_eq!(plan.dir, format!("/tmp/homerunner-tests-unused/jobs/{name}"));
    assert_eq!(plan.diag, format!("{}/diag", plan.dir));
    assert_eq!(plan.keep_as, Some(format!("homerunner-kept:{name}")));
    app.apply_samples(&vec![Sample {
        name: name.clone(),
        cpu: "1.0".to_string(),
        mem_bytes: 3 * 1024 * 1024,
    }]);
    app.settle_exit(&name, true, Some(Ok(())), true, secs(6.0));
    assert_eq!(app.pending.len(), 1);
    let done = app.retire(&name, 1, secs(7.0));
    assert_eq!(done.delay_s, 0);
    assert_eq!(done.unregister, None);
    assert!(app.runners.is_empty());

    let found = JobInfo {
        job_id: Some(42),
        job_name: Some("t".to_string()),
        ..JobInfo::default()
    };
    app.enrich_job(&name, "owner/project", Some(secs(4.0)), &found, secs(8.0));
    assert!(app.pending.is_empty());
    let job = app.store.job(42).unwrap();
    assert_eq!(job.conclusion.as_deref(), Some("failure"));
    assert_eq!(job.started_at, Some(secs(4.0)));
    assert_eq!(job.peak_mem_mb, Some(3));
    assert_eq!(job.oom, Some(true));
    assert_eq!(
        job.kept_image.as_deref(),
        Some(format!("homerunner-kept:{name}").as_str())
    );
    assert_eq!(job.log_dir.as_deref(), Some(plan.dir.as_str()));
}

#[test]
fn known_jobs_are_settled_at_once() {
    let rc = repo("owner/project", 1, 2);
    let (mut app, name) = listening(&rc);
    app.watch_line(&name, "Running job: t", secs(4.0));
    let found = JobInfo {
        job_id: Some(42),
        job_name: Some("api name".to_string()),
        workflow: Some("CI".to_string()),
        ..JobInfo::default()
    };
    app.enrich_job(&name, "owner/project", Some(secs(4.0)), &found, secs(5.0));
    let info = &app.runners[app.find(&name)].info;
    assert_eq!(info.job.info.job_id, Some(42));
    assert_eq!(info.job.info.job_name.as_deref(), Some("t"));
    assert_eq!(info.job.info.workflow.as_deref(), Some("CI"));
    app.watch_line(&name, "completed with result: Succeeded", secs(6.0));
    assert_eq!(
        app.store.job(42).unwrap().conclusion.as_deref(),
        Some("success")
    );
    let plan = app.exit_plan(&name).unwrap();
    assert_eq!(plan.key, "42");
    assert_eq!(plan.keep_as, None);
    app.settle_exit(&name, false, None, false, secs(7.0));
    assert!(app.store.job(42).unwrap().log_dir.is_none());
    app.retire(&name, 0, secs(8.0));
    assert_eq!(
        messages(&app).last().unwrap(),
        "hr-owner-project-000007 finished its job (exit 0)"
    );
    assert_eq!(app.store.runners[0].exit_code, Some(0));
}

#[test]
fn crashes_back_off_and_decay_does_not() {
    let rc = repo("owner/project", 0, 2);
    let mut delays = vec![];
    let mut app = app(vec![rc.clone()], 3);
    for i in 0..8 {
        let name = app.reserve_named(&rc, i, 0).unwrap();
        let spawned = Spawned {
            gh_runner_id: 11,
            container_id: "c1".to_string(),
        };
        app.note_spawn(&name, Ok(spawned), 0);
        let done = app.retire(&name, 1, 1);
        assert_eq!(done.unregister, Some(11));
        delays.push(done.delay_s);
    }
    assert_eq!(delays, [2, 4, 8, 16, 32, 60, 60, 60]);

    let (mut app, name) = listening(&rc);
    let decaying = app.decay(&rc, secs(602.0));
    assert_eq!(decaying, [0]);
    app.note_decay(&name, secs(602.0));
    assert!(app.decay(&rc, secs(602.0)).is_empty());
    let done = app.retire(&name, 137, secs(603.0));
    assert_eq!(done.delay_s, 0);
    assert_eq!(done.unregister, Some(11));
    assert_eq!(
        messages(&app).last().unwrap(),
        "hr-owner-project-000007 idle beyond reserved; scaling down"
    );
}

#[test]
fn the_oldest_idle_runners_decay_down_to_the_floor() {
    let rc = repo("owner/project", 1, 3);
    let mut app = app(vec![rc.clone()], 3);
    for (n, at) in [(1, 30.0), (2, 10.0), (3, 20.0)] {
        let name = app.reserve_named(&rc, n, secs(at)).unwrap();
        let spawned = Spawned {
            gh_runner_id: n as i64,
            container_id: format!("c{n}"),
        };
        app.note_spawn(&name, Ok(spawned), secs(at));
    }
    assert!(app.decay(&rc, secs(600.0)).is_empty());
    assert_eq!(app.decay(&rc, secs(700.0)), [1, 2]);
    // Those are about to be killed; the reserved one stays on every later tick.
    assert!(app.decay(&rc, secs(700.0)).is_empty());
    assert!(app.decay(&rc, secs(760.0)).is_empty());
    assert!(!app.runners[0].info.decaying);
}

#[test]
fn the_oldest_idle_runner_is_the_first_to_go() {
    let rc = repo("owner/project", 0, 3);
    let mut app = app(vec![rc.clone()], 3);
    for (n, at) in [(1, 30.0), (2, 20.0), (3, 10.0)] {
        let name = app.reserve_named(&rc, n, secs(at)).unwrap();
        let spawned = Spawned {
            gh_runner_id: n as i64,
            container_id: format!("c{n}"),
        };
        app.note_spawn(&name, Ok(spawned), secs(at));
    }
    assert_eq!(app.decay(&rc, secs(700.0)), [2, 1, 0]);
}

#[test]
fn jobs_that_take_too_long_are_stuck() {
    let rc = repo("owner/project", 1, 2);
    let (mut app, name) = listening(&rc);
    app.watch_line(&name, "Running job: t", secs(10.0));
    assert!(app.stuck_runners(secs(10.0 + 3600.0)).is_empty());
    assert_eq!(app.stuck_runners(secs(10.0 + 3601.0)), [0]);
    app.note_timeout(&name, secs(3611.0));
    assert_eq!(
        messages(&app).last().unwrap(),
        "hr-owner-project-000007 exceeded job timeout; killing"
    );
}

#[test]
fn machines_stay_awake_for_busy_runners() {
    let rc = RepoConfig {
        caffeinate: true,
        ..repo("owner/project", 1, 2)
    };
    let (mut app, name) = listening(&rc);
    assert!(matches!(app.update_caffeinate(), Wakefulness::Unchanged));
    app.watch_line(&name, "Running job: t", 1);
    assert!(matches!(app.update_caffeinate(), Wakefulness::Begin));
    app.awake = true;
    assert!(matches!(app.update_caffeinate(), Wakefulness::Unchanged));
    app.retire(&name, 0, 2);
    assert!(matches!(app.update_caffeinate(), Wakefulness::End));
}

#[test]
fn samples_set_what_is_shown_and_raise_peaks() {
    let rc = repo("owner/project", 1, 2);
    let (mut app, name) = listening(&rc);
    assert_eq!(app.live_names(RuntimeKind::Docker), [name.clone()]);
    assert!(app.live_names(RuntimeKind::AppleContainer).is_empty());
    let sample = |mem_bytes| Sample {
        name: name.clone(),
        cpu: "2.5".to_string(),
        mem_bytes,
    };
    assert!(app.apply_samples(&vec![sample(100)]));
    assert!(app.apply_samples(&vec![sample(50)]));
    let info = &app.runners[0].info;
    assert_eq!(info.mem_bytes, 50);
    assert_eq!(info.peak_mem_bytes, 100);
    assert_eq!(info.cpu, "2.5");
    assert_eq!(app.snapshot().runners[0].cpu, "2.5");
    assert!(!app.apply_samples(&vec![]));
}

#[test]
fn lookups_stop_on_errors_and_after_eight() {
    assert!(matches!(after_lookup(1, Lookup::Failed), NextLookup::Stop));
    assert!(matches!(after_lookup(1, Lookup::Found), NextLookup::Apply));
    assert!(matches!(after_lookup(1, Lookup::NotYet), NextLookup::AskAgain));
    assert!(matches!(after_lookup(7, Lookup::NotYet), NextLookup::AskAgain));
    assert!(matches!(after_lookup(8, Lookup::NotYet), NextLookup::Stop));
}

#[test]
fn the_oldest_images_and_logs_go() {
    let rc = repo("owner/project", 1, 2);
    let mut app = app(vec![rc], 3);
    app.config.keep_failed_workspaces = 1;
    app.config.keep_job_logs = 1;
    for id in [1, 2] {
        let info = JobInfo {
            job_id: Some(id),
            ..JobInfo::default()
        };
        app.store.job_started(&info, "owner/project", "r", Some(id));
        app.store.job_concluded(id, "failure", id);
        app.store.set_job_artifacts(
            id,
            Some(&format!("/jobs/{id}")),
            Some(&format!("homerunner-kept:{id}")),
            Some("docker"),
        );
    }
    assert_eq!(app.excess_images(), [(1, "homerunner-kept:1".to_string())]);
    app.note_image_removed(1, "homerunner-kept:1", 5);
    assert!(app.excess_images().is_empty());
    let dirs = vec![
        LogDirAge {
            path: "/jobs/2".to_string(),
            modified: 9,
        },
        LogDirAge {
            path: "/jobs/1".to_string(),
            modified: 3,
        },
    ];
    assert_eq!(app.old_log_dirs(&dirs), [1]);
    app.note_logs_removed("/jobs/1", 6);
    assert!(app.store.job(1).unwrap().log_dir.is_none());
    assert_eq!(
        messages(&app),
        ["gc'd kept workspace homerunner-kept:1", "removed old job logs /jobs/1"]
    );
}

#[test]
fn other_events_are_recorded_in_their_words() {
    let mut app = app(vec![repo("owner/project", 1, 2)], 3);
    app.log("info", "scheduler", "started", 1);
    app.note_sweep_failed("owner/project", 2);
    app.note_orphan_deleted("hr-1", 3);
    app.note_release("2.300.0", 4);
    assert_eq!(
        messages(&app),
        [
            "started",
            "registration sweep failed for owner/project",
            "deleted orphan registration hr-1",
            "latest actions/runner release: v2.300.0",
        ]
    );
    assert!(App::daily_due(0, secs(86_401.0)));
    assert!(!App::daily_due(0, secs(86_400.0)));
}

#[test]
fn states_have_names() {
    let names: Vec<&str> = [
        RunnerState::Starting,
        RunnerState::Listening,
        RunnerState::Busy,
        RunnerState::Exited,
        RunnerState::Failed,
    ]
    .iter()
    .map(|s| s.name())
    .collect();
    assert_eq!(names, ["starting", "listening", "busy", "exited", "failed"]);
    assert!(RunnerState::Starting.live() && RunnerState::Busy.live());
    assert!(!RunnerState::Exited.live() && !RunnerState::Failed.live());
}

#[test]
fn exits_are_not_awaited_for_ever() {
    assert_eq!(after_exit(0, true), NextExit::Settle);
    for waits in 0..EXIT_WAITS {
        assert_eq!(after_exit(waits, false), NextExit::Wait);
    }
    assert_eq!(after_exit(6, false), NextExit::Settle);
    assert_eq!(EXIT_WAIT_MS, 500);
}

#[test]
fn snapshots_tell_of_degraded_runtimes() {
    let mut app = app(vec![repo("owner/project", 0, 1)], 1);
    assert!(app.snapshot().degraded.is_empty());
    app.note_runtime(RuntimeKind::Docker, Some("down".to_string()), 0);
    let degraded = app.snapshot().degraded;
    assert_eq!(degraded.len(), 1);
    assert_eq!((degraded[0].runtime, degraded[0].reason.as_str()), ("docker", "down"));
}

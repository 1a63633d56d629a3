use homerunner::config::{Config, RepoConfig, RuntimeKind};
use homerunner::setup::{
    checked_images, config_path, default_image, default_runtime, degraded_status,
    doctor, init, plist, rate_shown, repo_status, runner_status, status_degraded, status_repos, status_runners, Access,
    Checkup, ImageCheck, RepoCheck, RepoStatus, RunnerStatus, RuntimeCheck,
};

fn repo(name: &str, runtime: RuntimeKind, image: &str) -> RepoConfig {
    RepoConfig {
        repo: name.to_string(),
        runtime,
        labels: vec![],
        image: image.to_string(),
        reserved: 1,
        max: 2,
        job_timeout_min: 60,
        caffeinate: false,
        registry_mirror: None,
        docker_layer_cache: false,
    }
}

fn config(repos: Vec<RepoConfig>) -> Config {
    Config {
        dashboard_port: 0,
        max_total_runners: 2,
        data_dir: "/data".to_string(),
        keep_failed_workspaces: 1,
        failed_workspaces_max_age_days: None,
        failed_workspaces_max_bytes: None,
        keep_job_logs: 10,
        job_logs_max_age_days: None,
        job_logs_max_bytes: None,
        job_history_days: 365,
        event_history_days: 7,
        service_log_max_bytes: 1024,
        service_log_backups: 3,
        poll_interval_s: 30,
        idle_decay_min: 10,
        docker_cache_max_age_days: 30,
        auth_source: "gh".to_string(),
        python_version: "3.13".to_string(),
        node_version: "24".to_string(),
        monitors: vec![],
        repos,
    }
}

#[test]
fn configurations_are_where_they_are_said_to_be() {
    assert_eq!(config_path(Some("/etc/c.toml")), "/etc/c.toml");
    assert!(config_path(None).ends_with(".config/homerunner/config.toml"));
}

#[test]
fn images_follow_the_first_repo() {
    let none = config(vec![]);
    assert_eq!(default_image(&none), "homerunner-runner:local");
    assert_eq!(default_runtime(&none), RuntimeKind::Docker);
    let some = config(vec![repo("o/a", RuntimeKind::AppleContainer, "i:1")]);
    assert_eq!(default_image(&some), "i:1");
    assert_eq!(default_runtime(&some), RuntimeKind::AppleContainer);
}

#[test]
fn first_configurations_list_their_repos() {
    let repos = vec!["you/yours".to_string(), "you/other".to_string()];
    assert_eq!(
        init(false, "/c.toml", &repos, true).unwrap().unwrap(),
        "[defaults]\nruntime = \"apple-container\"\nlabels = [\"self-hosted\", \"linux\", \
         \"arm64\"]\n\n[[repos]]\nrepo = \"you/yours\"\npool_size = 2\n\n[[repos]]\nrepo = \
         \"you/other\"\npool_size = 2\n"
    );
    assert!(init(false, "/c.toml", &repos, false)
        .unwrap()
        .unwrap()
        .starts_with("[defaults]\nruntime = \"docker\"\nlabels = [\"self-hosted\", \"linux\", \"x64\"]\n"));
    assert_eq!(
        init(false, "/c.toml", &vec![], true).unwrap_err().message(),
        "no config at /c.toml — pass at least one --repo owner/name to create it"
    );
    let repos = vec!["you/yours".to_string(), "other".to_string()];
    assert_eq!(
        init(false, "/c.toml", &repos, true).unwrap_err().message(),
        "--repo must be owner/name, got: other"
    );
}

#[test]
fn configurations_that_are_there_are_left_alone() {
    assert!(init(true, "/c.toml", &vec![], true).unwrap().is_none());
    assert!(init(true, "/c.toml", &vec!["bad".to_string()], false)
        .unwrap()
        .is_none());
}

#[test]
fn first_configurations_are_toml() {
    let body = init(false, "/c.toml", &vec!["you/yours".to_string()], true)
        .unwrap()
        .unwrap();
    let table: toml::Table = toml::from_str(&body).unwrap();
    assert_eq!(
        table["repos"].as_array().unwrap()[0]["repo"].as_str(),
        Some("you/yours")
    );
}

#[test]
fn agents_run_the_program_with_its_configuration() {
    let text = plist("/bin/hr", "/c.toml", "/l.log");
    assert!(text.starts_with("<?xml version=\"1.0\" encoding=\"UTF-8\"?>\n"));
    assert!(text.contains("<string>/bin/hr</string>\n    <string>run</string>"));
    assert!(text.contains("<string>--config</string>\n    <string>/c.toml</string>"));
    assert!(text.contains("<key>StandardOutPath</key><string>/l.log</string>"));
    assert!(text.contains("<key>StandardErrorPath</key><string>/l.log</string>"));
    assert!(text.contains("<key>Label</key><string>dev.highstorm.homerunner</string>"));
    assert!(text.ends_with("</dict>\n</plist>\n"));
}

#[test]
fn neighbours_are_looked_at_once() {
    let cfg = config(vec![
        repo("o/a", RuntimeKind::Docker, "i:1"),
        repo("o/b", RuntimeKind::AppleContainer, "i:9"),
        repo("o/c", RuntimeKind::Docker, "i:1"),
        repo("o/d", RuntimeKind::Docker, "i:2"),
    ]);
    assert_eq!(
        cfg.runtimes(),
        [
            RuntimeKind::Docker,
            RuntimeKind::AppleContainer,
            RuntimeKind::Docker
        ]
    );
    assert_eq!(checked_images(&cfg), ["i:1", "i:2"]);
}

#[test]
fn checkups_tell_what_is_amiss() {
    let mut checkup = Checkup {
        runtimes: vec![RuntimeCheck {
            kind: RuntimeKind::Docker,
            reason: None,
        }],
        access: Ok(Access {
            remaining: "4999".to_string(),
            limit: "5000".to_string(),
            repos: vec![RepoCheck {
                repo: "o/a".to_string(),
                runners: Ok(2),
            }],
        }),
        images: vec![ImageCheck {
            image: "i:1".to_string(),
            found: true,
        }],
    };
    let (lines, ok) = doctor(&checkup);
    assert!(ok);
    assert_eq!(
        lines,
        [
            "runtime docker: ok",
            "github token: ok (4999/5000 requests remaining)",
            "repo o/a: ok (2 registered runner(s))",
            "image i:1: ok",
        ]
    );
    checkup.images[0].found = false;
    let (lines, ok) = doctor(&checkup);
    assert!(!ok);
    assert_eq!(lines[3], "image i:1: MISSING (homerunner build-image)");
    checkup.runtimes[0].reason = Some("docker daemon unreachable: x".to_string());
    checkup.access = Err("bad token".to_string());
    let (lines, ok) = doctor(&checkup);
    assert!(!ok);
    assert_eq!(lines[0], "runtime docker: docker daemon unreachable: x");
    assert_eq!(lines[1], "github token: FAIL bad token");
}

#[test]
fn statuses_are_read_off_the_dashboard() {
    let body = "{\"repos\":[{\"repo\":\"o/a\",\"live\":2,\"runtime\":\"docker\"}],\
                \"runners\":[{\"name\":\"hr-1\",\"state\":\"busy\",\"job\":{\"job_name\":\"t\"}},{}]}";
    let repos = status_repos(body);
    assert_eq!(repo_status(&repos[0]), "o/a: 2/null live (docker)");
    let runners = status_runners(body);
    assert_eq!(runner_status(&runners[0]), "  hr-1  busy  t");
    assert_eq!(runner_status(&runners[1]), "  ?  ?");
    assert_eq!(
        repo_status(&RepoStatus {
            repo: None,
            live: Some("1".to_string()),
            pool_size: Some("2".to_string()),
            runtime: None,
        }),
        "?: 1/2 live (?)"
    );
    assert_eq!(
        runner_status(&RunnerStatus {
            name: Some("hr-1".to_string()),
            state: Some("listening".to_string()),
            job: Some(String::new()),
        }),
        "  hr-1  listening"
    );
    assert_eq!(
        degraded_status("docker", &Some("down".to_string())),
        "DEGRADED docker: down"
    );
    assert_eq!(degraded_status("docker", &None), "DEGRADED docker: ?");
    assert_eq!(
        status_degraded("{\"degraded\":{\"docker\":\"down\",\"apple-container\":7}}"),
        [
            ("apple-container".to_string(), None),
            ("docker".to_string(), Some("down".to_string())),
        ]
    );
    assert!(status_degraded("{\"degraded\":[]}").is_empty());
    assert_eq!(
        rate_shown("{\"limit\":5000,\"remaining\":4999}"),
        ("4999".to_string(), "5000".to_string())
    );
    assert_eq!(rate_shown("null"), ("null".to_string(), "null".to_string()));
}

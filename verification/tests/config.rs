use homerunner::config::{
    assemble, expand_tilde, expand_tilde_in, load, resolve, ConfigError, MonitorConfig, RawConfig,
    RepoConfig, RepoDefaults, RepoEntry, RuntimeKind, SupervisorSection, ToolchainsSection,
};

fn text(t: &toml::Table, key: &str) -> Option<String> {
    t.get(key).and_then(|v| v.as_str()).map(str::to_string)
}

fn number(t: &toml::Table, key: &str) -> Option<u64> {
    t.get(key).and_then(|v| v.as_integer()).map(|n| n as u64)
}

fn section(t: &toml::Table, key: &str) -> toml::Table {
    t.get(key)
        .and_then(|v| v.as_table())
        .cloned()
        .unwrap_or_default()
}

fn settings(t: &toml::Table) -> RepoDefaults {
    RepoDefaults {
        runtime: text(t, "runtime").map(|name| match name.as_str() {
            "docker" => RuntimeKind::Docker,
            "apple-container" => RuntimeKind::AppleContainer,
            other => panic!("unknown runtime {other}"),
        }),
        labels: t.get("labels").and_then(|v| v.as_array()).map(|labels| {
            labels
                .iter()
                .map(|l| l.as_str().unwrap().to_string())
                .collect()
        }),
        image: text(t, "image"),
        reserved: number(t, "reserved").map(|n| n as u32),
        max: number(t, "max").map(|n| n as u32),
        job_timeout_min: number(t, "job_timeout_min"),
        caffeinate: t.get("caffeinate").and_then(|v| v.as_bool()),
        registry_mirror: text(t, "registry_mirror"),
        docker_layer_cache: t.get("docker_layer_cache").and_then(|v| v.as_bool()),
    }
}

fn raw(body: &str) -> RawConfig {
    let t: toml::Table = toml::from_str(body).unwrap();
    let s = section(&t, "supervisor");
    let tools = section(&t, "toolchains");
    RawConfig {
        supervisor: SupervisorSection {
            dashboard_port: number(&s, "dashboard_port").map(|n| n as u16),
            max_total_runners: number(&s, "max_total_runners").map(|n| n as u32),
            data_dir: text(&s, "data_dir"),
            keep_failed_workspaces: number(&s, "keep_failed_workspaces").map(|n| n as u32),
            failed_workspaces_max_age_days: number(&s, "failed_workspaces_max_age_days"),
            failed_workspaces_max_bytes: number(&s, "failed_workspaces_max_bytes"),
            keep_job_logs: number(&s, "keep_job_logs").map(|n| n as u32),
            job_logs_max_age_days: number(&s, "job_logs_max_age_days"),
            job_logs_max_bytes: number(&s, "job_logs_max_bytes"),
            job_history_days: number(&s, "job_history_days"),
            event_history_days: number(&s, "event_history_days"),
            service_log_max_bytes: number(&s, "service_log_max_bytes"),
            service_log_backups: number(&s, "service_log_backups").map(|n| n as u32),
            poll_interval_s: number(&s, "poll_interval_s"),
            idle_decay_min: number(&s, "idle_decay_min"),
            docker_cache_max_age_days: number(&s, "docker_cache_max_age_days"),
        },
        auth_source: text(&section(&t, "auth"), "source"),
        toolchains: ToolchainsSection {
            python: text(&tools, "python"),
            node: text(&tools, "node"),
        },
        defaults: settings(&section(&t, "defaults")),
        repos: t
            .get("repos")
            .and_then(|v| v.as_array())
            .into_iter()
            .flatten()
            .map(|r| {
                let r = r.as_table().unwrap();
                RepoEntry {
                    repo: text(r, "repo").unwrap_or_default(),
                    overrides: settings(r),
                }
            })
            .collect(),
        monitors: vec![],
    }
}

#[test]
fn loads_defaults_and_repo_overrides() {
    let config = load(
        &raw(r#"
[supervisor]
dashboard_port = 5000
max_total_runners = 7
data_dir = "/tmp/data"
keep_failed_workspaces = 4
keep_job_logs = 25
poll_interval_s = 12
idle_decay_min = 3

[auth]
source = "env:TEST_TOKEN"

[toolchains]
python = "3.12"
node = "22"

[defaults]
runtime = "apple-container"
labels = ["self-hosted", "arm64"]
image = "runner:default"
reserved = 1
max = 3
job_timeout_min = 45
caffeinate = false
registry_mirror = "http://mirror"

[[repos]]
repo = "owner/first"

[[repos]]
repo = "owner/second"
runtime = "docker"
reserved = 2
image = "runner:custom"
"#),
        false,
    )
    .unwrap();
    assert_eq!(config.dashboard_port, 5000);
    assert_eq!(config.max_total_runners, 7);
    assert_eq!(config.keep_failed_workspaces, 4);
    assert_eq!(config.keep_job_logs, 25);
    assert_eq!(config.poll_interval_s, 12);
    assert_eq!(config.idle_decay_min, 3);
    assert_eq!(config.auth_source, "env:TEST_TOKEN");
    assert_eq!(config.python_version, "3.12");
    assert_eq!(config.node_version, "22");
    assert_eq!(config.data_dir, "/tmp/data");

    let first = &config.repos[0];
    assert_eq!(first.runtime, RuntimeKind::AppleContainer);
    assert_eq!(first.labels, ["self-hosted", "arm64"]);
    assert_eq!(first.image, "runner:default");
    assert_eq!(first.reserved, 1);
    assert_eq!(first.max, 3);
    assert_eq!(first.job_timeout_min, 45);
    assert!(!first.caffeinate);
    assert_eq!(first.registry_mirror.as_deref(), Some("http://mirror"));

    let second = &config.repos[1];
    assert_eq!(second.runtime, RuntimeKind::Docker);
    assert_eq!(second.reserved, 2);
    assert_eq!(second.max, 3);
    assert_eq!(second.image, "runner:custom");
}

#[test]
fn supplies_documented_defaults() {
    let config = load(
        &raw("[supervisor]\ndata_dir = \"/tmp/data\"\n[[repos]]\nrepo = \"owner/project\"\n"),
        false,
    )
    .unwrap();
    assert_eq!(config.dashboard_port, 4123);
    assert_eq!(config.max_total_runners, 4);
    assert_eq!(config.keep_failed_workspaces, 2);
    assert_eq!(config.keep_job_logs, 100);
    assert_eq!(config.repos[0].labels, ["self-hosted", "linux", "x64"]);
    assert_eq!(config.repos[0].reserved, 1);
    assert_eq!(config.repos[0].max, 2);
}

#[test]
fn rejects_repo_without_owner() {
    let error = load(&raw("[[repos]]\nrepo = \"project\"\n"), false).unwrap_err();
    assert!(error.message().contains("needs repo = \"owner/name\""));
}

#[test]
fn rejects_max_below_reserved() {
    let error = load(
        &raw("[[repos]]\nrepo = \"owner/project\"\nreserved = 3\nmax = 2\n"),
        false,
    )
    .unwrap_err();
    assert!(error.message().contains("max (2) must be >= reserved (3)"));
}

#[test]
fn rejects_empty_repo_list() {
    let error = load(&raw("[supervisor]\ndashboard_port = 5000\n"), false).unwrap_err();
    assert!(error.message().contains("no [[repos]] configured"));
}

#[test]
fn repo_slug_is_stable() {
    let repo = RepoConfig {
        repo: "owner/project".into(),
        runtime: RuntimeKind::Docker,
        labels: vec![],
        image: String::new(),
        reserved: 0,
        max: 1,
        job_timeout_min: 1,
        caffeinate: false,
        registry_mirror: None,
        docker_layer_cache: false,
    };
    assert_eq!(repo.slug(), "owner-project");
}

#[test]
fn rejects_pools_without_room() {
    let error = load(
        &raw("[[repos]]\nrepo = \"owner/project\"\nreserved = 0\nmax = 0\n"),
        false,
    )
    .unwrap_err();
    assert!(matches!(error, ConfigError::MaxIsZero { .. }));
    assert_eq!(
        error.message(),
        "repo owner/project: max must be at least 1"
    );
}

#[test]
fn rejects_log_patterns_that_do_not_compile() {
    let monitor = |pattern: &str| MonitorConfig {
        name: "guardrail".to_string(),
        repo: None,
        workflow: None,
        job_name: None,
        branch: None,
        duration_min: None,
        consecutive_failures: None,
        oom: false,
        log_pattern: Some(pattern.to_string()),
        retain_workspace: false,
    };
    let mut config = raw("[[repos]]\nrepo = \"owner/project\"\n");
    config.monitors = vec![monitor("dead(lock")];
    let error = load(&config, false).unwrap_err();
    assert!(matches!(error, ConfigError::BadLogPattern { .. }));
    assert_eq!(
        error.message(),
        "monitor guardrail: invalid log_pattern dead(lock"
    );
    assert!(assemble(&config, false, &None).is_ok());
    config.monitors = vec![monitor("(?i)deadlock")];
    assert!(load(&config, false).is_ok());
}

#[test]
fn home_directories_are_expanded() {
    let home = Some("/home/me".to_string());
    assert_eq!(expand_tilde_in("~/data", &home), "/home/me/data");
    assert_eq!(expand_tilde_in("/data", &home), "/data");
    assert_eq!(expand_tilde_in("~/data", &None), "~/data");
    assert_eq!(expand_tilde("/data"), "/data");
    let expanded = expand_tilde("~/data");
    assert!(expanded == "~/data" || expanded.ends_with("/data"));
    assert_eq!(
        expanded,
        expand_tilde_in(
            "~/data",
            &dirs::home_dir().map(|p| p.to_string_lossy().into_owned())
        )
    );
}

#[test]
fn journals_stand_in_the_data_directory() {
    let body = "[supervisor]\ndata_dir = \"~/data\"\n[[repos]]\nrepo = \"owner/project\"\n";
    let config = resolve(&raw(body), true, &Some("/home/me".to_string())).unwrap();
    assert_eq!(config.data_dir, "/home/me/data");
    assert_eq!(config.db_path(), "/home/me/data/homerunner.db");
    assert!(config.repos[0].caffeinate);
}

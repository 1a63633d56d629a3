use homerunner::github::{
    auth_source, env_token, failure, file_token, generate_jitconfig, gh_token, jit_parts,
    jit_request, jitconfig_url, job_of_runner, jobs_url, latest_runner_release, list_runners,
    queued_jobs, rate_limit, read_body, run_jobs, runner_url, runners_url, runs, runs_url, unknown_source,
    version_of, Answer, AnswerError, Ask, AuthSource, GitHub, Run, RunJob, Sweep,
};

fn strings(v: &[&str]) -> Vec<String> {
    v.iter().map(|s| s.to_string()).collect()
}

fn run(id: i64) -> Run {
    Run {
        id,
        name: Some("CI".to_string()),
        head_branch: Some("main".to_string()),
        head_sha: None,
        title: None,
        event: Some("push".to_string()),
    }
}

fn run_job(id: i64, runner: Option<&str>, status: &str, labels: &[&str]) -> RunJob {
    RunJob {
        id: Some(id),
        name: Some(format!("job {id}")),
        html_url: None,
        runner_name: runner.map(str::to_string),
        status: Some(status.to_string()),
        labels: strings(labels),
    }
}

#[test]
fn token_sources_are_told_apart() {
    assert_eq!(auth_source("gh"), Some(AuthSource::Gh));
    assert_eq!(
        auth_source("env:TOKEN"),
        Some(AuthSource::Env("TOKEN".to_string()))
    );
    assert_eq!(
        auth_source("file:~/token"),
        Some(AuthSource::File("~/token".to_string()))
    );
    assert_eq!(auth_source("keychain"), None);
    assert_eq!(unknown_source("keychain"), "unknown auth source: keychain");
}

#[test]
fn tokens_are_trimmed_or_missed() {
    assert_eq!(gh_token(true, "abc\n", ""), Ok("abc".to_string()));
    assert_eq!(
        gh_token(false, "", " not logged in\n"),
        Err("`gh auth token` failed: not logged in".to_string())
    );
    assert_eq!(env_token("T", Some("x".to_string())), Ok("x".to_string()));
    assert_eq!(env_token("T", None), Err("env var T is empty".to_string()));
    assert_eq!(file_token(" abc \n"), "abc");
}

#[test]
fn a_refused_token_is_taken_anew_once() {
    let mut client = GitHub::new("env:TOKEN");
    assert_eq!(client.auth_source, "env:TOKEN");
    client.token = Some("old".to_string());
    assert_eq!(client.answered(200, true), Answer::Read);
    assert!(client.token.is_some());
    assert_eq!(client.answered(401, true), Answer::AskAgain);
    assert!(client.token.is_none());
    client.token = Some("new".to_string());
    assert_eq!(client.answered(401, false), Answer::Failed);
    assert_eq!(client.token.as_deref(), Some("new"));
    assert_eq!(client.answered(204, true), Answer::Empty);
    assert_eq!(client.answered(404, true), Answer::Failed);
    assert_eq!(client.answered(500, true), Answer::Failed);
    assert_eq!(client.answered(302, true), Answer::Read);
    assert_eq!(
        failure("GET", "/x", "404 Not Found", "null"),
        "GET /x -> 404 Not Found: null"
    );
}

#[test]
fn requests_go_to_their_places() {
    assert_eq!(
        jitconfig_url("o/r"),
        "/repos/o/r/actions/runners/generate-jitconfig"
    );
    assert_eq!(runners_url("o/r"), "/repos/o/r/actions/runners?per_page=100");
    assert_eq!(runner_url("o/r", 7), "/repos/o/r/actions/runners/7");
    assert_eq!(
        runs_url("o/r", "queued", 10),
        "/repos/o/r/actions/runs?status=queued&per_page=10"
    );
    assert_eq!(
        jobs_url("o/r", 5, true),
        "/repos/o/r/actions/runs/5/jobs?filter=latest&per_page=100"
    );
    assert_eq!(
        jobs_url("o/r", 5, false),
        "/repos/o/r/actions/runs/5/jobs?per_page=100"
    );
    let request = jit_request("hr-1", &strings(&["linux"]));
    assert_eq!(request.name, "hr-1");
    assert_eq!(request.runner_group_id, 1);
    assert_eq!(request.labels, ["linux"]);
    assert_eq!(request.work_folder, "_work");
}

#[test]
fn jit_answers_need_an_id_and_a_configuration() {
    assert_eq!(
        generate_jitconfig("{\"runner\":{\"id\":7},\"encoded_jit_config\":\"abc\"}"),
        Ok((7, "abc".to_string()))
    );
    assert_eq!(generate_jitconfig("{}"), Err(AnswerError::NoRunnerId));
    assert_eq!(
        generate_jitconfig("{\"runner\":{\"id\":7}}"),
        Err(AnswerError::NoJitConfig)
    );
    assert_eq!(jit_parts(None, None), Err(AnswerError::NoRunnerId));
    assert_eq!(AnswerError::NoRunnerId.message(), "no runner id");
    assert_eq!(AnswerError::NoJitConfig.message(), "no jit config");
}

#[test]
fn answers_are_read_item_by_item() {
    let found = list_runners("{\"runners\":[{\"name\":\"hr-1\",\"status\":\"offline\",\"id\":3},{}]}");
    assert_eq!(found.len(), 2);
    assert_eq!(found[0].name, "hr-1");
    assert_eq!(found[0].status.as_deref(), Some("offline"));
    assert_eq!(found[0].id, Some(3));
    assert_eq!(found[1].name, "");
    assert_eq!(found[1].id, None);
    assert!(list_runners("{}").is_empty());

    let found = runs("{\"workflow_runs\":[{\"id\":5,\"name\":\"CI\",\"display_title\":\"T\"},{}]}");
    assert_eq!(found[0].id, 5);
    assert_eq!(found[0].name.as_deref(), Some("CI"));
    assert_eq!(found[0].title.as_deref(), Some("T"));
    assert_eq!(found[1].id, 0);

    let found = run_jobs(
        "{\"jobs\":[{\"id\":9,\"runner_name\":\"hr-1\",\"status\":\"queued\",\
         \"labels\":[\"linux\",3,\"x64\"]}]}",
    );
    assert_eq!(found[0].id, Some(9));
    assert_eq!(found[0].runner_name.as_deref(), Some("hr-1"));
    assert_eq!(found[0].labels, ["linux", "x64"]);
    assert_eq!(
        rate_limit("{\"resources\":{\"core\":{\"limit\":5}}}"),
        "{\"limit\":5}"
    );
    assert_eq!(rate_limit("{}"), "null");
    assert_eq!(read_body(Some("{ \"a\" : 1 }")), "{\"a\":1}");
    assert_eq!(read_body(Some("<html>")), "null");
    assert_eq!(read_body(None), "null");
    assert_eq!(
        latest_runner_release("{\"tag_name\":\"v2.300.1\"}"),
        "2.300.1"
    );
    assert_eq!(version_of("vv1"), "1");
    assert_eq!(version_of("1v"), "1v");
}

#[test]
fn the_job_of_a_runner_is_found() {
    let jobs = vec![
        run_job(1, None, "queued", &[]),
        run_job(2, Some("hr-1"), "in_progress", &[]),
    ];
    let info = job_of_runner(&run(5), &jobs, "hr-1").unwrap();
    assert_eq!(info.job_id, Some(2));
    assert_eq!(info.run_id, Some(5));
    assert_eq!(info.workflow.as_deref(), Some("CI"));
    assert_eq!(info.job_name.as_deref(), Some("job 2"));
    assert_eq!(info.head_branch.as_deref(), Some("main"));
    assert!(job_of_runner(&run(5), &jobs, "hr-2").is_none());
}

#[test]
fn only_jobs_that_ask_for_our_labels_are_counted() {
    let ours = strings(&["self-hosted", "linux"]);
    let jobs = vec![
        run_job(1, None, "queued", &["self-hosted"]),
        run_job(2, None, "queued", &["self-hosted", "linux"]),
        run_job(3, None, "queued", &["macos"]),
        run_job(4, None, "queued", &[]),
        run_job(5, None, "in_progress", &["linux"]),
    ];
    assert_eq!(queued_jobs(&jobs, &ours), 2);
}

#[test]
fn sweeps_walk_the_runs_of_both_statuses() {
    let mut sweep = Sweep::for_runner();
    assert!(matches!(sweep.ask(), Ask::Runs("in_progress")));
    assert_eq!(
        sweep.url(&sweep.ask(), "o/r").unwrap(),
        "/repos/o/r/actions/runs?status=in_progress&per_page=8"
    );
    sweep.take_runs(vec![run(5), run(6)]);
    assert_eq!(
        sweep.url(&sweep.ask(), "o/r").unwrap(),
        "/repos/o/r/actions/runs/5/jobs?per_page=100"
    );
    assert!(matches!(sweep.ask(), Ask::Jobs(5)));
    assert!(sweep.find_job_by_runner(&vec![], "hr-1").is_none());
    assert!(matches!(sweep.ask(), Ask::Jobs(6)));
    let found = sweep.find_job_by_runner(&vec![run_job(1, Some("hr-1"), "x", &[])], "hr-1");
    assert_eq!(found.unwrap().run_id, Some(6));
    assert!(matches!(sweep.ask(), Ask::Runs("completed")));
    sweep.take_runs(vec![]);
    assert!(matches!(sweep.ask(), Ask::Nothing));
    assert!(sweep.url(&sweep.ask(), "o/r").is_none());

    let mut sweep = Sweep::for_queue();
    assert!(matches!(sweep.ask(), Ask::Runs("queued")));
    assert_eq!(
        sweep.url(&sweep.ask(), "o/r").unwrap(),
        "/repos/o/r/actions/runs?status=queued&per_page=10"
    );
    sweep.take_runs(vec![run(5)]);
    assert_eq!(
        sweep.url(&sweep.ask(), "o/r").unwrap(),
        "/repos/o/r/actions/runs/5/jobs?filter=latest&per_page=100"
    );
    let jobs = vec![run_job(1, None, "queued", &["linux"])];
    sweep.count_queued_jobs(&jobs, &strings(&["linux"]));
    assert_eq!(sweep.total, 1);
    assert!(matches!(sweep.ask(), Ask::Runs("in_progress")));
    sweep.take_runs(vec![run(6)]);
    sweep.count_queued_jobs(&jobs, &strings(&["linux"]));
    assert_eq!(sweep.total, 2);
    assert!(matches!(sweep.ask(), Ask::Nothing));
}

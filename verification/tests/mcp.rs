use homerunner::agent::{Archive, Capture, CapturedFile};
use homerunner::mcp::{
    call_tool, dispatch, is_error, log_tail, read_message, reply, shown_state, state_answer,
    status_text, tools, Message, Reply, StateAnswer, ToolAnswer,
};
use homerunner::store::{JobInfo, Store};

fn message(id: Option<&str>, method: &str) -> Message {
    Message {
        id: id.map(str::to_string),
        method: method.to_string(),
        version: None,
        tool: String::new(),
        job: None,
        limit: None,
    }
}

fn journal() -> (Result<Store, String>, Archive) {
    let mut store = Store::new();
    for (id, conclusion) in [(1, "failure"), (2, "success")] {
        let info = JobInfo {
            job_id: Some(id),
            job_name: Some("tests".to_string()),
            ..JobInfo::default()
        };
        store.job_started(&info, "owner/repo", "runner", Some(id));
        store.job_concluded(id, conclusion, id);
    }
    store.set_job_artifacts(1, Some("/jobs/1"), None, None);
    let archive = Archive {
        captures: vec![Capture {
            log_dir: "/jobs/1".to_string(),
            files: vec![CapturedFile {
                name: "Worker_1.log".to_string(),
                contents: "a\r\n##[error] b\n".to_string(),
            }],
        }],
    };
    (Ok(store), archive)
}

#[test]
fn messages_are_answered_by_their_method() {
    assert!(matches!(reply(&message(None, "ping")), Reply::Silence));
    assert!(matches!(reply(&message(Some("null"), "ping")), Reply::Silence));
    assert!(matches!(reply(&message(Some("1"), "ping")), Reply::Pong));
    assert!(matches!(reply(&message(Some("1"), "tools/list")), Reply::Tools));
    assert!(matches!(reply(&message(Some("1"), "tools/call")), Reply::Called));
    match reply(&message(Some("1"), "initialize")) {
        Reply::Initialized(version) => assert_eq!(version, "2024-11-05"),
        other => panic!("{other:?}"),
    }
    match reply(&message(Some("1"), "dance")) {
        Reply::Unknown { code, message } => {
            assert_eq!(code, -32601);
            assert_eq!(message, "method not found: dance");
        }
        other => panic!("{other:?}"),
    }
}

#[test]
fn lines_without_a_message_are_passed_over() {
    assert!(matches!(dispatch("  ").0, Reply::Silence));
    assert!(matches!(dispatch("{oops").0, Reply::Silence));
    assert!(matches!(dispatch("{\"method\":\"ping\"}").0, Reply::Silence));
    assert!(read_message("{oops").is_none());
    let (reply, m) = dispatch(
        "{\"id\":7,\"method\":\"initialize\",\"params\":{\"protocolVersion\":\"2025-01-01\"}}",
    );
    match reply {
        Reply::Initialized(version) => assert_eq!(version, "2025-01-01"),
        other => panic!("{other:?}"),
    }
    assert_eq!(m.unwrap().id.as_deref(), Some("7"));
    let m = read_message(
        "{\"id\":\"x\",\"method\":\"tools/call\",\"params\":{\"name\":\"list_jobs\",\
         \"arguments\":{\"limit\":3,\"job\":\"latest\"}}}",
    )
    .unwrap();
    assert_eq!(m.id.as_deref(), Some("\"x\""));
    assert_eq!(m.tool, "list_jobs");
    assert_eq!(m.limit, Some(3));
    assert_eq!(m.job.as_deref(), Some("latest"));
}

#[test]
fn tools_answer_from_the_journal() {
    let (opened, archive) = journal();
    assert!(matches!(
        call_tool(&opened, &archive, "runner_status", None, None),
        ToolAnswer::Status
    ));
    match call_tool(&opened, &archive, "list_jobs", None, Some(1)) {
        ToolAnswer::Jobs(jobs) => {
            assert_eq!(jobs.len(), 1);
            assert_eq!(jobs[0].gh_job_id, 2);
        }
        other => panic!("{other:?}"),
    }
    match call_tool(&opened, &archive, "list_jobs", None, Some(0x1_0000_0001)) {
        ToolAnswer::Jobs(jobs) => assert_eq!(jobs.len(), 1),
        other => panic!("{other:?}"),
    }
    match call_tool(&opened, &archive, "job_logs", Some("1"), None) {
        ToolAnswer::Text(t) => assert_eq!(t, "a\n##[error] b"),
        other => panic!("{other:?}"),
    }
    match call_tool(&opened, &archive, "why_failed", None, None) {
        ToolAnswer::Text(t) => assert!(t.contains("##[error] b")),
        other => panic!("{other:?}"),
    }
}

#[test]
fn an_odd_commit_only_spoils_its_own_digest() {
    let (opened, archive) = journal();
    let mut store = opened.unwrap();
    let info = JobInfo {
        job_id: Some(3),
        head_sha: Some("12345678\u{e9}".to_string()),
        ..JobInfo::default()
    };
    store.job_started(&info, "owner/repo", "runner", Some(3));
    store.job_concluded(3, "failure", 3);
    let opened = Ok(store);
    match call_tool(&opened, &archive, "why_failed", Some("3"), None) {
        ToolAnswer::Error(t) => assert_eq!(t, "error: the commit of job 3 cannot be abbreviated"),
        other => panic!("{other:?}"),
    }
    assert!(matches!(
        call_tool(&opened, &archive, "why_failed", Some("1"), None),
        ToolAnswer::Text(_)
    ));
    match call_tool(&opened, &archive, "list_jobs", None, None) {
        ToolAnswer::Jobs(jobs) => assert_eq!(jobs.len(), 3),
        other => panic!("{other:?}"),
    }
}

#[test]
fn states_are_shown_without_their_events() {
    match state_answer(Some("{\"events\":[1],\"a\":1}")) {
        StateAnswer::State(s) => assert_eq!(s, "{\n  \"a\": 1\n}"),
        other => panic!("{other:?}"),
    }
    for answer in [state_answer(Some("<html>")), state_answer(None), shown_state(None)] {
        assert_eq!(
            status_text(answer),
            "supervisor responded but state was unreadable: error decoding response body"
        );
    }
    assert_eq!(status_text(shown_state(Some("x".to_string()))), "x");
}

#[test]
fn errors_are_told_from_answers() {
    let (opened, archive) = journal();
    for (tool, job, text) in [
        ("job_logs", Some("9"), "error: no job 9 recorded"),
        (
            "job_logs",
            Some("2"),
            "error: no captured logs for this job (it may predate log capture)",
        ),
        (
            "why_failed",
            Some("x"),
            "error: job must be a numeric id, 'latest', or 'latest-failed'",
        ),
        ("dance", None, "error: unknown tool: dance"),
    ] {
        match call_tool(&opened, &archive, tool, job, None) {
            ToolAnswer::Error(t) => {
                assert_eq!(t, text);
                assert!(is_error(&t));
            }
            other => panic!("{other:?}"),
        }
    }
    let closed = Err("no journal".to_string());
    match call_tool(&closed, &archive, "list_jobs", None, None) {
        ToolAnswer::Error(t) => assert_eq!(t, "error: no journal"),
        other => panic!("{other:?}"),
    }
    assert!(!is_error("an error: "));
}

#[test]
fn every_tool_that_is_offered_is_known() {
    let (opened, archive) = journal();
    let offered = tools();
    assert_eq!(offered.len(), 4);
    for tool in offered {
        if let ToolAnswer::Error(t) = call_tool(&opened, &archive, tool.name, None, None) {
            assert!(!t.contains("unknown tool"), "{t}");
        }
    }
}

#[test]
fn long_logs_are_cut_to_their_end() {
    let log: String = (0..1300).map(|i| format!("line {i}\n")).collect();
    let tail = log_tail(&log);
    assert_eq!(tail.lines().count(), 1200);
    assert!(tail.starts_with("line 100\n"));
    assert!(tail.ends_with("line 1299"));
}

#[test]
fn the_status_tool_survives_a_supervisor_that_is_down() {
    assert_eq!(
        status_text(StateAnswer::Unreachable),
        "supervisor is not running (dashboard unreachable) — job history is still available via \
         list_jobs"
    );
    assert_eq!(
        status_text(StateAnswer::Unreadable("eof".to_string())),
        "supervisor responded but state was unreadable: eof"
    );
    assert_eq!(status_text(StateAnswer::State("{}".to_string())), "{}");
}

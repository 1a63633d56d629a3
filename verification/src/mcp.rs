//! The tools that this program offers to agents, over newline-delimited
//! JSON-RPC: the same questions as the command line answers.

use crate::agent;
use crate::agent::Archive;
use crate::json;
use crate::number;
use crate::store;
use crate::store::{Job, Store};
use crate::text;
use vstd::prelude::*;

verus! {

// -- messages ---------------------------------------------------------------------------

/// What a message says.
#[derive(Debug)]
pub struct Message {
    /// The message's id, in JSON; a message without one, or whose id is null,
    /// is not answered.
    pub id: Option<String>,
    pub method: String,
    /// The version of the protocol that the client speaks.
    pub version: Option<String>,
    /// The tool that is called, and its arguments.
    pub tool: String,
    pub job: Option<String>,
    pub limit: Option<u64>,
}

/// `m` is what a JSON document says as a message.
pub open spec fn is_message(m: Message, line: Seq<char>) -> bool {
    &&& text::opt_text(m.id) == json::json_raw(line, "/id"@)
    &&& m.method@ == json::str_or_empty(line, "/method"@)
    &&& text::opt_text(m.version) == json::json_str(line, "/params/protocolVersion"@)
    &&& m.tool@ == json::str_or_empty(line, "/params/name"@)
    &&& text::opt_text(m.job) == json::json_str(line, "/params/arguments/job"@)
    &&& m.limit is Some == json::nat_at(line, "/params/arguments/limit"@) is Some
    &&& m.limit matches Some(n) ==> json::nat_at(line, "/params/arguments/limit"@) == Some(n as nat)
}

/// What a line says, if it holds a JSON document.
pub fn read_message(line: &str) -> (r: Option<Message>)
    ensures
        match r {
            Some(m) => json::json_valid(line@) && is_message(m, line@),
            None => !json::json_valid(line@),
        },
{
    if !json::valid(line) {
        return None;
    }
    Some(
        Message {
            id: json::raw(line, "/id"),
            method: json::string_or_empty(line, "/method"),
            version: json::string(line, "/params/protocolVersion"),
            tool: json::string_or_empty(line, "/params/name"),
            job: json::string(line, "/params/arguments/job"),
            limit: json::natural(line, "/params/arguments/limit"),
        },
    )
}

/// How a message is answered.
#[derive(Debug)]
pub enum Reply {
    /// Not at all.
    Silence,
    /// The protocol's version.
    Initialized(String),
    /// Nothing but that the message came.
    Pong,
    /// The tools.
    Tools,
    /// What the tool answers.
    Called,
    /// There is no such method.
    Unknown { code: i64, message: String },
}

/// `r` is how a message is answered.
pub open spec fn replied(r: Reply, m: Message) -> bool {
    if m.id is None || m.id->0@ == "null"@ {
        r == Reply::Silence
    } else if m.method@ == "initialize"@ {
        r matches Reply::Initialized(v) && v@ == match m.version {
            Some(version) => version@,
            None => "2024-11-05"@,
        }
    } else if m.method@ == "ping"@ {
        r == Reply::Pong
    } else if m.method@ == "tools/list"@ {
        r == Reply::Tools
    } else if m.method@ == "tools/call"@ {
        r == Reply::Called
    } else {
        r matches Reply::Unknown { code, message } && code == -32601 && message@
            == "method not found: "@ + m.method@
    }
}

/// How a message is answered.
pub fn reply(m: &Message) -> (r: Reply)
    ensures
        replied(r, *m),
{
    let silent = match &m.id {
        Some(id) => text::same_str(id.as_str(), "null"),
        None => true,
    };
    if silent {
        return Reply::Silence;
    }
    let method = m.method.as_str();
    proof {
        reveal_strlit("initialize");
        reveal_strlit("ping");
        reveal_strlit("tools/list");
        reveal_strlit("tools/call");
        assert("initialize"@.len() != "ping"@.len());
        assert("initialize"@[0] != "tools/list"@[0]);
        assert("tools/list"@[6] != "tools/call"@[6]);
    }
    if text::same_str(method, "initialize") {
        let version = match &m.version {
            Some(version) => version.clone(),
            None => "2024-11-05".to_string(),
        };
        Reply::Initialized(version)
    } else if text::same_str(method, "ping") {
        Reply::Pong
    } else if text::same_str(method, "tools/list") {
        Reply::Tools
    } else if text::same_str(method, "tools/call") {
        Reply::Called
    } else {
        let mut message = "method not found: ".to_string();
        message.append(method);
        Reply::Unknown { code: -32601, message }
    }
}

/// How a line is answered: blank ones, and ones that hold no JSON document, are
/// passed over.
pub fn dispatch(line: &str) -> (r: (Reply, Option<Message>))
    ensures
        if text::trim(line@).len() == 0 || !json::json_valid(line@) {
            r.0 == Reply::Silence && r.1 is None
        } else {
            r.1 matches Some(m) && is_message(m, line@) && replied(r.0, m)
        },
{
    if text::trimmed(&text::chars(line)).len() == 0 {
        return (Reply::Silence, None);
    }
    match read_message(line) {
        Some(m) => (reply(&m), Some(m)),
        None => (Reply::Silence, None),
    }
}

/// Notifications are never answered.
pub proof fn law_notifications_are_not_answered(r: Reply, m: Message)
    requires
        m.id is None || m.id->0@ == "null"@,
        replied(r, m),
    ensures
        r == Reply::Silence,
{
}

// -- tools --------------------------------------------------------------------------------

pub const STATUS_TOOL: &'static str = "Live pools and runners: which repos are served, how many runners are listening or busy, and what jobs are running right now.";

pub const JOBS_TOOL: &'static str = "Recent CI jobs run on this machine, newest first, with conclusions, durations, and whether captured logs / a kept post-mortem workspace exist.";

pub const LOGS_TOOL: &'static str = "Full captured step logs for one job (the runner's Worker diagnostics). job: numeric id, 'latest', or 'latest-failed' (default latest).";

pub const WHY_TOOL: &'static str = "Failure digest for a job (default: most recent failed job): what ran, conclusion, log excerpt around the error, and whether a post-mortem workspace was kept.";

pub const LIMIT_ARGUMENT: &'static str = "max jobs to return (default 20)";

pub const JOB_ARGUMENT: &'static str = "job id, 'latest', or 'latest-failed'";

pub const FAILED_JOB_ARGUMENT: &'static str = "job id, 'latest', or 'latest-failed' (default latest-failed)";

/// What a tool takes.
#[derive(Debug)]
pub struct Argument {
    pub name: &'static str,
    pub kind: &'static str,
    pub description: &'static str,
}

/// A tool, as it is described to clients.
#[derive(Debug)]
pub struct Tool {
    pub name: &'static str,
    pub description: &'static str,
    pub argument: Option<Argument>,
}

/// The names of the tools that are offered.
pub open spec fn tool_names() -> Seq<Seq<char>> {
    seq!["runner_status"@, "list_jobs"@, "job_logs"@, "why_failed"@]
}

/// The name of what a tool takes, its type and its description.
pub open spec fn takes(t: Tool) -> Option<(Seq<char>, Seq<char>, Seq<char>)> {
    match t.argument {
        Some(a) => Some((a.name@, a.kind@, a.description@)),
        None => None,
    }
}

/// The tools that are offered.
pub fn tools() -> (r: Vec<Tool>)
    ensures
        r@.len() == tool_names().len(),
        forall|i: int| 0 <= i < r@.len() ==> (#[trigger] r@[i]).name@ == tool_names()[i],
        r@[0].description@ == STATUS_TOOL@ && takes(r@[0]) is None,
        r@[1].description@ == JOBS_TOOL@,
        takes(r@[1]) == Some(("limit"@, "integer"@, LIMIT_ARGUMENT@)),
        r@[2].description@ == LOGS_TOOL@,
        takes(r@[2]) == Some(("job"@, "string"@, JOB_ARGUMENT@)),
        r@[3].description@ == WHY_TOOL@,
        takes(r@[3]) == Some(("job"@, "string"@, FAILED_JOB_ARGUMENT@)),
{
    let mut r: Vec<Tool> = Vec::new();
    r.push(
        Tool {
            name: "runner_status",
            description: STATUS_TOOL,
            argument: None,
        },
    );
    r.push(
        Tool {
            name: "list_jobs",
            description: JOBS_TOOL,
            argument: Some(
                Argument {
                    name: "limit",
                    kind: "integer",
                    description: LIMIT_ARGUMENT,
                },
            ),
        },
    );
    r.push(
        Tool {
            name: "job_logs",
            description: LOGS_TOOL,
            argument: Some(
                Argument {
                    name: "job",
                    kind: "string",
                    description: JOB_ARGUMENT,
                },
            ),
        },
    );
    r.push(
        Tool {
            name: "why_failed",
            description: WHY_TOOL,
            argument: Some(
                Argument {
                    name: "job",
                    kind: "string",
                    description: FAILED_JOB_ARGUMENT,
                },
            ),
        },
    );
    r
}

/// What a tool answers.
#[derive(Debug)]
pub enum ToolAnswer {
    /// What the supervisor says of its runners.
    Status,
    Jobs(Vec<Job>),
    Text(String),
    Error(String),
}

/// How many jobs are listed when so many are asked for; the number is taken as
/// a 32-bit one.
pub open spec fn job_limit(limit: Option<u64>) -> nat {
    match limit {
        Some(n) => n as nat % 0x1_0000_0000,
        None => 20,
    }
}

/// The last `n` lines of a text.
pub open spec fn tail(s: Seq<char>, n: int) -> Seq<char> {
    let lines = text::lines(s);
    text::join(
        lines.skip(
            if lines.len() < n {
                0
            } else {
                lines.len() - n
            },
        ),
        "\n"@,
    )
}

/// The end of a log, short enough for a model to read.
pub fn log_tail(log: &str) -> (r: String)
    ensures
        r@ == tail(log@, 1200),
{
    let lines = text::to_lines(&text::chars(log));
    let n = lines.len();
    let from: usize = if n < 1200 {
        0
    } else {
        n - 1200
    };
    let r = text::join_range(&lines, from, n, "\n");
    assert(text::pieces(lines@).subrange(from as int, n as int) =~= text::lines(log@).skip(
        from as int,
    ));
    r
}

/// What is said of a job whose digest cannot be written out.
pub open spec fn unwritable(id: i64) -> Seq<char> {
    "the commit of job "@ + number::dec_int(id as int) + " cannot be abbreviated"@
}

/// `r` is the end of the log of the job that is asked for, or why there is none.
pub open spec fn logs_answered(
    r: ToolAnswer,
    store: Store,
    archive: Archive,
    spec: Option<Seq<char>>,
) -> bool {
    exists|found: Result<Job, agent::AgentError>|
        #![trigger agent::resolved(found, store.jobs@, agent::wanted(spec, false))]
        {
            &&& agent::resolved(found, store.jobs@, agent::wanted(spec, false))
            &&& match found {
                Err(e) => r matches ToolAnswer::Error(t) && t@ == "error: "@ + e.spec_message(),
                Ok(job) => exists|log: Result<String, agent::AgentError>|
                    #![trigger agent::log_read(log, job, archive)]
                    {
                        &&& agent::log_read(log, job, archive)
                        &&& match log {
                            Ok(s) => r matches ToolAnswer::Text(t) && t@ == tail(s@, 1200),
                            Err(e) => r matches ToolAnswer::Error(t) && t@ == "error: "@
                                + e.spec_message(),
                        }
                    },
            }
        }
}

/// `r` is the digest of the job that is asked for, or why there is none: no job
/// is found, or its commit cannot be abbreviated.
pub open spec fn digest_answered(
    r: ToolAnswer,
    store: Store,
    archive: Archive,
    spec: Option<Seq<char>>,
) -> bool {
    exists|found: Result<agent::Digest, agent::AgentError>|
        #![trigger agent::explained(found, store.jobs@, archive, spec)]
        {
            &&& agent::explained(found, store.jobs@, archive, spec)
            &&& match found {
                Ok(d) => if agent::writable(d) {
                    r matches ToolAnswer::Text(t) && t@ == agent::digest_text(d)
                } else {
                    r matches ToolAnswer::Error(t) && t@ == "error: "@ + unwritable(
                        d.job.gh_job_id,
                    )
                },
                Err(e) => r matches ToolAnswer::Error(t) && t@ == "error: "@ + e.spec_message(),
            }
        }
}

/// `r` is what a tool answers from the journal, or because there is none.
pub open spec fn tool_answered(
    r: ToolAnswer,
    opened: Result<Store, String>,
    archive: Archive,
    name: Seq<char>,
    job: Option<Seq<char>>,
    limit: Option<u64>,
) -> bool {
    if name == "runner_status"@ {
        r == ToolAnswer::Status
    } else {
        match opened {
            Err(e) => r matches ToolAnswer::Error(t) && t@ == "error: "@ + e@,
            Ok(store) => if name == "list_jobs"@ {
                r matches ToolAnswer::Jobs(jobs) && store::newest_first(
                    jobs@,
                    store.jobs@,
                    job_limit(limit),
                )
            } else if name == "job_logs"@ {
                logs_answered(r, store, archive, job)
            } else if name == "why_failed"@ {
                digest_answered(r, store, archive, job)
            } else {
                r matches ToolAnswer::Error(t) && t@ == "error: "@ + ("unknown tool: "@ + name)
            },
        }
    }
}

fn error_answer(message: &str) -> (r: ToolAnswer)
    ensures
        r matches ToolAnswer::Error(t) && t@ == "error: "@ + message@,
{
    let mut t = "error: ".to_string();
    t.append(message);
    ToolAnswer::Error(t)
}

fn job_logs(store: &Store, archive: &Archive, job: Option<&str>) -> (r: ToolAnswer)
    requires
        store.well_formed(),
    ensures
        logs_answered(r, *store, *archive, text::opt_str(job)),
{
    let found = agent::resolve_job(store, job, false);
    match &found {
        Err(e) => error_answer(e.message().as_str()),
        Ok(j) => {
            let log = agent::read_worker_logs(j, archive);
            assert(agent::log_read(log, *j, *archive));
            match &log {
                Ok(s) => ToolAnswer::Text(log_tail(s.as_str())),
                Err(e) => error_answer(e.message().as_str()),
            }
        },
    }
}

fn why_failed(store: &Store, archive: &Archive, job: Option<&str>) -> (r: ToolAnswer)
    requires
        store.well_formed(),
    ensures
        digest_answered(r, *store, *archive, text::opt_str(job)),
{
    let found = agent::why(store, archive, job);
    assert(agent::explained(found, store.jobs@, *archive, text::opt_str(job)));
    match &found {
        Ok(d) => {
            if agent::is_writable(d) {
                ToolAnswer::Text(agent::why_text(d))
            } else {
                let id = number::integer_text(d.job.gh_job_id);
                let m = text::chain(
                    "the commit of job ",
                    id.as_str(),
                    " cannot be abbreviated",
                );
                error_answer(m.as_str())
            }
        },
        Err(e) => error_answer(e.message().as_str()),
    }
}

/// What a tool answers.
pub fn call_tool(
    opened: &Result<Store, String>,
    archive: &Archive,
    name: &str,
    job: Option<&str>,
    limit: Option<u64>,
) -> (r: ToolAnswer)
    requires
        opened matches Ok(store) ==> store.well_formed(),
    ensures
        tool_answered(r, *opened, *archive, name@, text::opt_str(job), limit),
{
    proof {
        reveal_strlit("runner_status");
        reveal_strlit("list_jobs");
        reveal_strlit("job_logs");
        reveal_strlit("why_failed");
        assert("list_jobs"@.len() != "job_logs"@.len());
    }
    if text::same_str(name, "runner_status") {
        return ToolAnswer::Status;
    }
    match opened {
        Err(e) => error_answer(e.as_str()),
        Ok(store) => {
            if text::same_str(name, "list_jobs") {
                let n: u64 = match limit {
                    Some(n) => n % 0x1_0000_0000,
                    None => 20,
                };
                ToolAnswer::Jobs(store.recent_jobs(n as u32))
            } else if text::same_str(name, "job_logs") {
                job_logs(store, archive, job)
            } else if text::same_str(name, "why_failed") {
                why_failed(store, archive, job)
            } else {
                let mut message = "unknown tool: ".to_string();
                message.append(name);
                error_answer(message.as_str())
            }
        },
    }
}

/// No error of a job's log or digest reads like that of an unknown tool.
proof fn lemma_errors_differ(e: agent::AgentError, name: Seq<char>)
    ensures
        "error: "@ + e.spec_message() != "error: "@ + ("unknown tool: "@ + name),
{
    reveal_strlit("unknown tool: ");
    reveal_strlit("no failed jobs recorded");
    reveal_strlit("no jobs recorded");
    reveal_strlit("job must be a numeric id, 'latest', or 'latest-failed'");
    reveal_strlit("no job ");
    reveal_strlit("no captured logs for this job (it may predate log capture)");
    reveal_strlit("log dir missing: ");
    reveal_strlit("no Worker logs captured in ");
    let a = "error: "@ + e.spec_message();
    let b = "error: "@ + ("unknown tool: "@ + name);
    let n = "error: "@.len() as int;
    assert(a[n] == e.spec_message()[0]);
    assert(b[n] == 'u');
}

/// Every tool that is offered is known: where there is a journal, none is
/// answered that there is no such tool.
pub proof fn law_offered_tools_are_known(
    r: ToolAnswer,
    store: Store,
    archive: Archive,
    name: Seq<char>,
    job: Option<Seq<char>>,
    limit: Option<u64>,
)
    requires
        tool_names().contains(name),
        tool_answered(r, Ok(store), archive, name, job, limit),
    ensures
        r matches ToolAnswer::Error(t) ==> t@ != "error: "@ + ("unknown tool: "@ + name),
{
    reveal_strlit("runner_status");
    reveal_strlit("list_jobs");
    reveal_strlit("job_logs");
    reveal_strlit("why_failed");
    reveal_strlit("unknown tool: ");
    reveal_strlit("the commit of job ");
    assert forall|e: agent::AgentError| "error: "@ + #[trigger] e.spec_message() != "error: "@ + (
    "unknown tool: "@ + name) by {
        lemma_errors_differ(e, name);
    }
    assert forall|id: i64| "error: "@ + #[trigger] unwritable(id) != "error: "@ + (
    "unknown tool: "@ + name) by {
        let n = "error: "@.len() as int;
        assert(("error: "@ + unwritable(id))[n] == 't');
        assert(("error: "@ + ("unknown tool: "@ + name))[n] == 'u');
    }
}

/// The text of an answer tells of an error.
pub fn is_error(answer: &str) -> (r: bool)
    ensures
        r == "error: "@.is_prefix_of(answer@),
{
    text::starts(&text::chars(answer), "error: ")
}

/// What the supervisor answered when it was asked for its state.
#[derive(Debug)]
pub enum StateAnswer {
    Unreachable,
    Unreadable(String),
    State(String),
}

/// What the supervisor answered, from the text of its answer, if it is one: its
/// state without the events, laid out for reading.
pub open spec fn is_state(r: StateAnswer, shown: Option<Seq<char>>) -> bool {
    match shown {
        Some(s) => r matches StateAnswer::State(t) && t@ == s,
        None => r matches StateAnswer::Unreadable(e) && e@ == "error decoding response body"@,
    }
}

/// What the supervisor answered, from its state laid out for reading, if it
/// could be read.
pub fn shown_state(shown: Option<String>) -> (r: StateAnswer)
    ensures
        is_state(r, text::opt_text(shown)),
{
    match shown {
        Some(s) => StateAnswer::State(s),
        None => StateAnswer::Unreadable("error decoding response body".to_string()),
    }
}

/// What the supervisor answered, from the text of its answer, if it is one.
pub fn state_answer(body: Option<&str>) -> (r: StateAnswer)
    ensures
        is_state(
            r,
            match body {
                Some(b) => json::json_pretty_without(b@, "events"@),
                None => None,
            },
        ),
{
    match body {
        Some(b) => shown_state(json::pretty_without(b, "events")),
        None => shown_state(None),
    }
}

/// What is said of the supervisor's state.
pub fn status_text(answer: StateAnswer) -> (r: String)
    ensures
        match answer {
            StateAnswer::Unreachable => r@
                == "supervisor is not running (dashboard unreachable) — job history is still available via list_jobs"@,
            StateAnswer::Unreadable(e) => r@ == "supervisor responded but state was unreadable: "@
                + e@,
            StateAnswer::State(s) => r == s,
        },
{
    match answer {
        StateAnswer::Unreachable => "supervisor is not running (dashboard unreachable) — job history is still available via list_jobs".to_string(),
        StateAnswer::Unreadable(e) => {
            let mut r = "supervisor responded but state was unreadable: ".to_string();
            r.append(e.as_str());
            r
        },
        StateAnswer::State(s) => s,
    }
}

} // verus!

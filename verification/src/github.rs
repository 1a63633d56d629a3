//! The jobs API: where to ask, and what its answers say. Asking is the
//! caller's; every call follows an event, so nothing here polls for work but
//! the count of queued jobs.

use crate::json;
use crate::number;
use crate::order;
use crate::scheduler::Registration;
use crate::store::JobInfo;
use crate::text;
use vstd::prelude::*;

verus! {

pub const API: &'static str = "https://api.github.com";

// -- credentials --------------------------------------------------------------------

/// Where the token comes from.
#[derive(Debug, PartialEq)]
pub enum AuthSource {
    /// The `gh` command.
    Gh,
    /// An environment variable.
    Env(String),
    /// A file.
    File(String),
}

/// `r` is the source that a text names, if it names one.
pub open spec fn is_source(r: Option<AuthSource>, s: Seq<char>) -> bool {
    if s == "gh"@ {
        r == Some(AuthSource::Gh)
    } else if "env:"@.is_prefix_of(s) {
        r matches Some(AuthSource::Env(v)) && v@ == s.skip(4)
    } else if "file:"@.is_prefix_of(s) {
        r matches Some(AuthSource::File(p)) && p@ == s.skip(5)
    } else {
        r is None
    }
}

/// The source of the token that a text such as "gh", "env:NAME" or
/// "file:PATH" names; the text is unknown otherwise.
pub fn auth_source(source: &str) -> (r: Option<AuthSource>)
    ensures
        is_source(r, source@),
{
    if text::same_str(source, "gh") {
        return Some(AuthSource::Gh);
    }
    let s = text::chars(source);
    proof {
        reveal_strlit("env:");
        reveal_strlit("file:");
    }
    if text::starts(&s, "env:") {
        let rest = vstd::slice::slice_subrange(&s, 4, s.len());
        assert(rest@ =~= source@.skip(4));
        return Some(AuthSource::Env(text::string(rest)));
    }
    if text::starts(&s, "file:") {
        let rest = vstd::slice::slice_subrange(&s, 5, s.len());
        assert(rest@ =~= source@.skip(5));
        return Some(AuthSource::File(text::string(rest)));
    }
    None
}

/// How an unknown source is reported.
pub fn unknown_source(source: &str) -> (r: String)
    ensures
        r@ == "unknown auth source: "@ + source@,
{
    let r = text::chain("unknown auth source: ", source, "");
    proof {
        reveal_strlit("");
    }
    assert(r@ =~= "unknown auth source: "@ + source@);
    r
}

/// The token that `gh auth token` printed, or why there is none.
pub fn gh_token(success: bool, stdout: &str, stderr: &str) -> (r: Result<String, String>)
    ensures
        match r {
            Ok(token) => success && token@ == text::trim(stdout@),
            Err(e) => !success && e@ == "`gh auth token` failed: "@ + text::trim(stderr@),
        },
{
    if !success {
        let said = text::string(text::trimmed(&text::chars(stderr)));
        let mut e = "`gh auth token` failed: ".to_string();
        e.append(said.as_str());
        return Err(e);
    }
    Ok(text::string(text::trimmed(&text::chars(stdout))))
}

/// The token that an environment variable holds, or why there is none.
pub fn env_token(name: &str, value: Option<String>) -> (r: Result<String, String>)
    ensures
        match r {
            Ok(token) => value == Some(token),
            Err(e) => value is None && e@ == "env var "@ + name@ + " is empty"@,
        },
{
    match value {
        Some(token) => Ok(token),
        None => Err(text::chain("env var ", name, " is empty")),
    }
}

/// The token that a file holds.
pub fn file_token(contents: &str) -> (r: String)
    ensures
        r@ == text::trim(contents@),
{
    text::string(text::trimmed(&text::chars(contents)))
}

// -- requests -------------------------------------------------------------------------

/// What to make of an answer.
#[derive(Debug, Clone, Copy, PartialEq, Eq, Structural)]
pub enum Answer {
    /// The token may have been replaced: take it anew and ask once more.
    AskAgain,
    /// There is nothing to read.
    Empty,
    Failed,
    Read,
}

/// What an answer of a status means, to the first request or the second: a
/// token that is refused is taken anew once.
pub open spec fn meaning(status: u16, first: bool) -> Answer {
    if status == 401 && first {
        Answer::AskAgain
    } else if status == 204 {
        Answer::Empty
    } else if 400 <= status <= 599 {
        Answer::Failed
    } else {
        Answer::Read
    }
}

/// The client's memory: where its token comes from, and the token once taken.
#[derive(Debug)]
pub struct GitHub {
    pub auth_source: String,
    pub token: Option<String>,
}

impl GitHub {
    /// A client that has not taken its token yet.
    pub fn new(auth_source: &str) -> (r: GitHub)
        ensures
            r.auth_source@ == auth_source@,
            r.token is None,
    {
        GitHub { auth_source: auth_source.to_string(), token: None }
    }

    /// What to make of an answer. A token that was refused for the first time
    /// is forgotten, so that the next request takes it anew.
    pub fn answered(&mut self, status: u16, first: bool) -> (r: Answer)
        ensures
            r == meaning(status, first),
            *final(self) == (GitHub {
                token: if r == Answer::AskAgain {
                    None
                } else {
                    old(self).token
                },
                ..*old(self)
            }),
    {
        if status == 401 && first {
            self.token = None;
            Answer::AskAgain
        } else if status == 204 {
            Answer::Empty
        } else if 400 <= status && status <= 599 {
            Answer::Failed
        } else {
            Answer::Read
        }
    }
}

/// No request is made more than twice: the second answer is final.
pub proof fn law_second_answers_are_final(status: u16)
    ensures
        meaning(status, false) != Answer::AskAgain,
{
}

/// The document that an answer holds, in compact notation; `null` if it holds
/// none.
pub fn read_body(body: Option<&str>) -> (r: String)
    ensures
        r@ == match body {
            Some(b) => json::raw_or_null(b@, ""@),
            None => "null"@,
        },
{
    match body {
        Some(b) => json::notation(b, ""),
        None => "null".to_string(),
    }
}

/// How a request that failed is reported.
pub fn failure(method: &str, url: &str, status: &str, value: &str) -> (r: String)
    ensures
        r@ == method@ + " "@ + url@ + " -> "@ + status@ + ": "@ + value@,
{
    let mut r = text::chain5(method, " ", url, " -> ", status);
    r.append(": ");
    r.append(value);
    r
}

/// What is asked for a new runner.
#[derive(Debug)]
pub struct JitRequest {
    pub name: String,
    pub runner_group_id: u32,
    pub labels: Vec<String>,
    pub work_folder: String,
}

/// What is asked for a new runner. Personal repos only have the default group.
pub fn jit_request(name: &str, labels: &Vec<String>) -> (r: JitRequest)
    ensures
        r.name@ == name@,
        r.runner_group_id == 1,
        text::texts(r.labels@) == text::texts(labels@),
        r.work_folder@ == "_work"@,
{
    JitRequest {
        name: name.to_string(),
        runner_group_id: 1,
        labels: text::clone_strings(labels),
        work_folder: "_work".to_string(),
    }
}

/// Where a runner's one-time configuration is made.
pub fn jitconfig_url(repo: &str) -> (r: String)
    ensures
        r@ == "/repos/"@ + repo@ + "/actions/runners/generate-jitconfig"@,
{
    text::chain("/repos/", repo, "/actions/runners/generate-jitconfig")
}

/// Where a repo's runners are listed.
pub fn runners_url(repo: &str) -> (r: String)
    ensures
        r@ == "/repos/"@ + repo@ + "/actions/runners?per_page=100"@,
{
    text::chain("/repos/", repo, "/actions/runners?per_page=100")
}

/// Where a runner's registration is.
pub fn runner_url(repo: &str, runner_id: i64) -> (r: String)
    ensures
        r@ == "/repos/"@ + repo@ + "/actions/runners/"@ + number::dec_int(runner_id as int),
{
    let id = number::integer_text(runner_id);
    let mut r = text::chain("/repos/", repo, "/actions/runners/");
    r.append(id.as_str());
    r
}

/// Where a repo's runs of a status are listed, so many at a time.
pub open spec fn runs_at(repo: Seq<char>, status: Seq<char>, per_page: u32) -> Seq<char> {
    "/repos/"@ + repo + "/actions/runs?status="@ + status + "&per_page="@ + number::dec(
        per_page as nat,
    )
}

/// Where a repo's runs of a status are listed, so many at a time.
pub fn runs_url(repo: &str, status: &str, per_page: u32) -> (r: String)
    ensures
        r@ == runs_at(repo@, status@, per_page),
{
    let mut r = text::chain("/repos/", repo, "/actions/runs?status=");
    r.append(status);
    r.append("&per_page=");
    number::push_number(&mut r, per_page as u64);
    r
}

/// Where the jobs of a run are listed: all of them, or the latest attempts.
pub open spec fn jobs_at(repo: Seq<char>, run_id: i64, latest: bool) -> Seq<char> {
    "/repos/"@ + repo + "/actions/runs/"@ + number::dec_int(run_id as int) + if latest {
        "/jobs?filter=latest&per_page=100"@
    } else {
        "/jobs?per_page=100"@
    }
}

/// Where the jobs of a run are listed: all of them, or the latest attempts.
pub fn jobs_url(repo: &str, run_id: i64, latest: bool) -> (r: String)
    ensures
        r@ == jobs_at(repo@, run_id, latest),
{
    let id = number::integer_text(run_id);
    let mut r = text::chain("/repos/", repo, "/actions/runs/");
    r.append(id.as_str());
    r.append(
        if latest {
            "/jobs?filter=latest&per_page=100"
        } else {
            "/jobs?per_page=100"
        },
    );
    r
}

// -- answers --------------------------------------------------------------------------

/// An answer lacks something.
#[derive(Debug, Clone, Copy, PartialEq, Eq, Structural)]
pub enum AnswerError {
    NoRunnerId,
    NoJitConfig,
}

impl AnswerError {
    pub open spec fn spec_message(self) -> Seq<char> {
        match self {
            AnswerError::NoRunnerId => "no runner id"@,
            AnswerError::NoJitConfig => "no jit config"@,
        }
    }

    pub fn message(self) -> (r: &'static str)
        ensures
            r@ == self.spec_message(),
    {
        match self {
            AnswerError::NoRunnerId => "no runner id",
            AnswerError::NoJitConfig => "no jit config",
        }
    }
}

/// A runner's id and its one-time configuration, if both are there.
pub fn jit_parts(id: Option<i64>, config: Option<String>) -> (r: Result<
    (i64, String),
    AnswerError,
>)
    ensures
        match r {
            Ok(p) => id == Some(p.0) && config == Some(p.1),
            Err(AnswerError::NoRunnerId) => id is None,
            Err(AnswerError::NoJitConfig) => id is Some && config is None,
        },
{
    match id {
        None => Err(AnswerError::NoRunnerId),
        Some(id) => match config {
            None => Err(AnswerError::NoJitConfig),
            Some(config) => Ok((id, config)),
        },
    }
}

/// The id of a new runner and its one-time configuration. The configuration is
/// a credential: it goes into the container and nowhere else.
pub fn generate_jitconfig(body: &str) -> (r: Result<(i64, String), AnswerError>)
    ensures
        match r {
            Ok(p) => json::int_at(body@, "/runner/id"@) == Some(p.0 as int) && json::json_str(
                body@,
                "/encoded_jit_config"@,
            ) == Some(p.1@),
            Err(AnswerError::NoRunnerId) => json::int_at(body@, "/runner/id"@) is None,
            Err(AnswerError::NoJitConfig) => json::int_at(body@, "/runner/id"@) is Some
                && json::json_str(body@, "/encoded_jit_config"@) is None,
        },
{
    jit_parts(json::integer(body, "/runner/id"), json::string(body, "/encoded_jit_config"))
}

/// `r` is the registration that an item of an answer describes.
pub open spec fn is_registration(r: Registration, item: Seq<char>) -> bool {
    &&& r.name@ == json::str_or_empty(item, "/name"@)
    &&& text::opt_text(r.status) == json::json_str(item, "/status"@)
    &&& r.id is Some == json::int_at(item, "/id"@) is Some
    &&& r.id matches Some(n) ==> json::int_at(item, "/id"@) == Some(n as int)
}

/// The registrations that an answer lists.
pub fn list_runners(body: &str) -> (r: Vec<Registration>)
    ensures
        ({
            let items = json::json_items(body@, "/runners"@);
            &&& r@.len() == items.len()
            &&& forall|i: int| 0 <= i < items.len() ==> is_registration(#[trigger] r@[i], items[i])
        }),
{
    let items = json::items(body, "/runners");
    let ghost all = text::texts(items@);
    let mut r: Vec<Registration> = Vec::new();
    for i in 0..items.len()
        invariant
            all == text::texts(items@),
            r@.len() == i,
            forall|k: int| 0 <= k < i ==> is_registration(#[trigger] r@[k], all[k]),
    {
        let item = items[i].as_str();
        assert(all[i as int] == item@);
        r.push(
            Registration {
                name: json::string_or_empty(item, "/name"),
                status: json::string(item, "/status"),
                id: json::integer(item, "/id"),
            },
        );
    }
    r
}

/// A run of a workflow.
#[derive(Debug)]
pub struct Run {
    pub id: i64,
    pub name: Option<String>,
    pub head_branch: Option<String>,
    pub head_sha: Option<String>,
    pub title: Option<String>,
    pub event: Option<String>,
}

/// `r` is the run that an item of an answer describes; one without an id is
/// numbered zero.
pub open spec fn is_run(r: Run, item: Seq<char>) -> bool {
    &&& r.id == match json::int_at(item, "/id"@) {
        Some(n) => n,
        None => 0,
    }
    &&& text::opt_text(r.name) == json::json_str(item, "/name"@)
    &&& text::opt_text(r.head_branch) == json::json_str(item, "/head_branch"@)
    &&& text::opt_text(r.head_sha) == json::json_str(item, "/head_sha"@)
    &&& text::opt_text(r.title) == json::json_str(item, "/display_title"@)
    &&& text::opt_text(r.event) == json::json_str(item, "/event"@)
}

/// The runs that an answer lists.
pub fn runs(body: &str) -> (r: Vec<Run>)
    ensures
        ({
            let items = json::json_items(body@, "/workflow_runs"@);
            &&& r@.len() == items.len()
            &&& forall|i: int| 0 <= i < items.len() ==> is_run(#[trigger] r@[i], items[i])
        }),
{
    let items = json::items(body, "/workflow_runs");
    let ghost all = text::texts(items@);
    let mut r: Vec<Run> = Vec::new();
    for i in 0..items.len()
        invariant
            all == text::texts(items@),
            r@.len() == i,
            forall|k: int| 0 <= k < i ==> is_run(#[trigger] r@[k], all[k]),
    {
        let item = items[i].as_str();
        assert(all[i as int] == item@);
        r.push(
            Run {
                id: match json::integer(item, "/id") {
                    Some(n) => n,
                    None => 0,
                },
                name: json::string(item, "/name"),
                head_branch: json::string(item, "/head_branch"),
                head_sha: json::string(item, "/head_sha"),
                title: json::string(item, "/display_title"),
                event: json::string(item, "/event"),
            },
        );
    }
    r
}

/// A job of a run.
#[derive(Debug)]
pub struct RunJob {
    pub id: Option<i64>,
    pub name: Option<String>,
    pub html_url: Option<String>,
    pub runner_name: Option<String>,
    pub status: Option<String>,
    /// What the job asks of its runner.
    pub labels: Vec<String>,
}

/// The items that are strings.
pub open spec fn strings_of(items: Seq<Seq<char>>) -> Seq<Seq<char>>
    decreases items.len(),
{
    if items.len() == 0 {
        Seq::empty()
    } else {
        let before = strings_of(items.drop_last());
        match json::json_str(items.last(), ""@) {
            Some(s) => before.push(s),
            None => before,
        }
    }
}

/// `r` is the job that an item of an answer describes.
pub open spec fn is_run_job(r: RunJob, item: Seq<char>) -> bool {
    &&& r.id is Some == json::int_at(item, "/id"@) is Some
    &&& r.id matches Some(n) ==> json::int_at(item, "/id"@) == Some(n as int)
    &&& text::opt_text(r.name) == json::json_str(item, "/name"@)
    &&& text::opt_text(r.html_url) == json::json_str(item, "/html_url"@)
    &&& text::opt_text(r.runner_name) == json::json_str(item, "/runner_name"@)
    &&& text::opt_text(r.status) == json::json_str(item, "/status"@)
    &&& text::texts(r.labels@) == strings_of(json::json_items(item, "/labels"@))
}

fn strings(doc: &str, pointer: &str) -> (r: Vec<String>)
    ensures
        text::texts(r@) == strings_of(json::json_items(doc@, pointer@)),
{
    let items = json::items(doc, pointer);
    let ghost all = text::texts(items@);
    let mut r: Vec<String> = Vec::new();
    assert(text::texts(r@) =~= strings_of(all.take(0)));
    for i in 0..items.len()
        invariant
            all == text::texts(items@),
            text::texts(r@) == strings_of(all.take(i as int)),
    {
        assert(all.take(i + 1).drop_last() =~= all.take(i as int));
        assert(all.take(i + 1).last() == items@[i as int]@);
        if let Some(s) = json::string(items[i].as_str(), "") {
            text::push_text(&mut r, s);
        }
    }
    assert(all.take(all.len() as int) =~= all);
    r
}

/// The jobs that an answer lists.
pub fn run_jobs(body: &str) -> (r: Vec<RunJob>)
    ensures
        ({
            let items = json::json_items(body@, "/jobs"@);
            &&& r@.len() == items.len()
            &&& forall|i: int| 0 <= i < items.len() ==> is_run_job(#[trigger] r@[i], items[i])
        }),
{
    let items = json::items(body, "/jobs");
    let ghost all = text::texts(items@);
    let mut r: Vec<RunJob> = Vec::new();
    for i in 0..items.len()
        invariant
            all == text::texts(items@),
            r@.len() == i,
            forall|k: int| 0 <= k < i ==> is_run_job(#[trigger] r@[k], all[k]),
    {
        let item = items[i].as_str();
        assert(all[i as int] == item@);
        r.push(
            RunJob {
                id: json::integer(item, "/id"),
                name: json::string(item, "/name"),
                html_url: json::string(item, "/html_url"),
                runner_name: json::string(item, "/runner_name"),
                status: json::string(item, "/status"),
                labels: strings(item, "/labels"),
            },
        );
    }
    r
}

// -- jobs of runners --------------------------------------------------------------------

/// The first job of a runner.
pub open spec fn job_index(jobs: Seq<RunJob>, runner: Seq<char>) -> int
    decreases jobs.len(),
{
    if jobs.len() == 0 || text::opt_text(jobs[0].runner_name) == Some(runner) {
        0
    } else {
        1 + job_index(jobs.drop_first(), runner)
    }
}

/// `info` is what is known of a job of a run.
pub open spec fn is_info(info: JobInfo, run: Run, job: RunJob) -> bool {
    info == JobInfo {
        job_id: job.id,
        run_id: Some(run.id),
        workflow: run.name,
        job_name: job.name,
        html_url: job.html_url,
        head_branch: run.head_branch,
        head_sha: run.head_sha,
        title: run.title,
        event: run.event,
    }
}

/// `r` is what is known of the first job of a run that a runner has, if it has
/// one.
pub open spec fn found_job(
    r: Option<JobInfo>,
    run: Run,
    jobs: Seq<RunJob>,
    runner: Seq<char>,
) -> bool {
    match r {
        Some(info) => job_index(jobs, runner) < jobs.len() && is_info(
            info,
            run,
            jobs[job_index(jobs, runner)],
        ),
        None => forall|i: int|
            0 <= i < jobs.len() ==> text::opt_text((#[trigger] jobs[i]).runner_name) != Some(
                runner,
            ),
    }
}

/// What is known of the job of a run that a runner has, if it has one.
pub fn job_of_runner(run: &Run, jobs: &Vec<RunJob>, runner: &str) -> (r: Option<JobInfo>)
    ensures
        found_job(r, *run, jobs@, runner@),
{
    assert(jobs@.skip(0) =~= jobs@);
    for i in 0..jobs.len()
        invariant
            job_index(jobs@, runner@) == i + job_index(jobs@.skip(i as int), runner@),
            forall|k: int|
                0 <= k < i ==> text::opt_text((#[trigger] jobs@[k]).runner_name) != Some(runner@),
    {
        assert(jobs@.skip(i as int).drop_first() =~= jobs@.skip(i + 1));
        let job = &jobs[i];
        if text::holds(&job.runner_name, runner) {
            return Some(
                JobInfo {
                    job_id: job.id,
                    run_id: Some(run.id),
                    workflow: text::clone_opt(&run.name),
                    job_name: text::clone_opt(&job.name),
                    html_url: text::clone_opt(&job.html_url),
                    head_branch: text::clone_opt(&run.head_branch),
                    head_sha: text::clone_opt(&run.head_sha),
                    title: text::clone_opt(&run.title),
                    event: text::clone_opt(&run.event),
                },
            );
        }
    }
    None
}

/// A job waits for a runner of ours: it asks for some labels, and we have them all.
pub open spec fn waits_for(labels: Seq<Seq<char>>) -> spec_fn(RunJob) -> bool {
    |job: RunJob|
        {
            &&& text::opt_text(job.status) == Some("queued"@)
            &&& job.labels@.len() > 0
            &&& forall|i: int|
                0 <= i < job.labels@.len() ==> labels.contains((#[trigger] job.labels@[i])@)
        }
}

fn waits(job: &RunJob, labels: &Vec<String>) -> (r: bool)
    ensures
        r == waits_for(text::texts(labels@))(*job),
{
    if !text::holds(&job.status, "queued") || job.labels.len() == 0 {
        return false;
    }
    for i in 0..job.labels.len()
        invariant
            forall|k: int|
                0 <= k < i ==> text::texts(labels@).contains((#[trigger] job.labels@[k])@),
    {
        if !text::has_text(labels, job.labels[i].as_str()) {
            assert(!text::texts(labels@).contains(job.labels@[i as int]@));
            return false;
        }
    }
    true
}

/// How many jobs wait for a runner of ours.
pub fn queued_jobs(jobs: &Vec<RunJob>, our_labels: &Vec<String>) -> (r: usize)
    ensures
        r == jobs@.filter(waits_for(text::texts(our_labels@))).len(),
{
    let ghost p = waits_for(text::texts(our_labels@));
    let mut n: usize = 0;
    for i in 0..jobs.len()
        invariant
            p == waits_for(text::texts(our_labels@)),
            n <= i,
            n == jobs@.take(i as int).filter(p).len(),
    {
        proof {
            order::lemma_filter_step(jobs@, p, i as int);
        }
        if waits(&jobs[i], our_labels) {
            n = n + 1;
        }
    }
    assert(jobs@.take(jobs@.len() as int) =~= jobs@);
    n
}

/// A job that asks for nothing, or for something that we do not have, is never
/// counted as waiting for us.
pub proof fn law_foreign_jobs_never_count(labels: Seq<Seq<char>>, job: RunJob, i: int)
    requires
        job.labels@.len() == 0 || (0 <= i < job.labels@.len() && !labels.contains(
            job.labels@[i]@,
        )),
    ensures
        !waits_for(labels)(job),
{
}

// -- sweeps ---------------------------------------------------------------------------------

/// What a sweep asks next.
#[derive(Debug)]
pub enum Ask {
    /// The runs of a status.
    Runs(&'static str),
    /// The jobs of a run.
    Jobs(i64),
    /// Nothing more.
    Nothing,
}

/// A walk over the jobs of the runs of two statuses, one answer at a time.
#[derive(Debug)]
pub struct Sweep {
    pub first: &'static str,
    pub second: &'static str,
    /// How many runs of a status are asked for.
    pub per_page: u32,
    /// Whether only the latest attempts of a run's jobs are asked for.
    pub latest: bool,
    /// How many of the statuses have been asked about.
    pub asked: u8,
    /// The runs of the status that was asked about last.
    pub runs: Vec<Run>,
    /// How many of these runs have been asked about.
    pub next: usize,
    /// How many jobs have been counted.
    pub total: u32,
}

impl Sweep {
    /// `ask` is what the sweep asks next.
    pub open spec fn asks(self, ask: Ask) -> bool {
        if self.next < self.runs@.len() {
            ask == Ask::Jobs(self.runs@[self.next as int].id)
        } else if self.asked == 0 {
            ask matches Ask::Runs(s) && s@ == self.first@
        } else if self.asked == 1 {
            ask matches Ask::Runs(s) && s@ == self.second@
        } else {
            ask == Ask::Nothing
        }
    }

    /// A sweep that looks for the job of a runner: among the runs in progress
    /// first, then among the completed ones, for a short job can finish before
    /// its run was ever seen in progress.
    pub fn for_runner() -> (r: Sweep)
        ensures
            r.first@ == "in_progress"@,
            r.second@ == "completed"@,
            r.per_page == 8 && !r.latest,
            r.asked == 0 && r.runs@.len() == 0 && r.next == 0 && r.total == 0,
    {
        Sweep {
            first: "in_progress",
            second: "completed",
            per_page: 8,
            latest: false,
            asked: 0,
            runs: Vec::new(),
            next: 0,
            total: 0,
        }
    }

    /// A sweep that counts queued jobs. A run is queued only until its first
    /// job starts, so that runs in progress are asked about too.
    pub fn for_queue() -> (r: Sweep)
        ensures
            r.first@ == "queued"@,
            r.second@ == "in_progress"@,
            r.per_page == 10 && r.latest,
            r.asked == 0 && r.runs@.len() == 0 && r.next == 0 && r.total == 0,
    {
        Sweep {
            first: "queued",
            second: "in_progress",
            per_page: 10,
            latest: true,
            asked: 0,
            runs: Vec::new(),
            next: 0,
            total: 0,
        }
    }

    /// What to ask next.
    pub fn ask(&self) -> (r: Ask)
        ensures
            self.asks(r),
    {
        if self.next < self.runs.len() {
            Ask::Jobs(self.runs[self.next].id)
        } else if self.asked == 0 {
            Ask::Runs(self.first)
        } else if self.asked == 1 {
            Ask::Runs(self.second)
        } else {
            Ask::Nothing
        }
    }

    /// Where the answer to what the sweep asks is found.
    pub open spec fn asks_at(self, ask: Ask, repo: Seq<char>) -> Option<Seq<char>> {
        match ask {
            Ask::Runs(status) => Some(runs_at(repo, status@, self.per_page)),
            Ask::Jobs(run) => Some(jobs_at(repo, run, self.latest)),
            Ask::Nothing => None,
        }
    }

    /// Where the answer to what the sweep asks is found.
    pub fn url(&self, ask: &Ask, repo: &str) -> (r: Option<String>)
        ensures
            text::opt_text(r) == self.asks_at(*ask, repo@),
    {
        match ask {
            Ask::Runs(status) => Some(runs_url(repo, *status, self.per_page)),
            Ask::Jobs(run) => Some(jobs_url(repo, *run, self.latest)),
            Ask::Nothing => None,
        }
    }

    /// Takes the runs that were asked for.
    pub fn take_runs(&mut self, runs: Vec<Run>)
        requires
            old(self).next >= old(self).runs@.len(),
            old(self).asked < 2,
        ensures
            *final(self) == (Sweep {
                asked: (old(self).asked + 1) as u8,
                runs: runs,
                next: 0,
                ..*old(self)
            }),
    {
        self.asked = self.asked + 1;
        self.runs = runs;
        self.next = 0;
    }

    /// Takes the jobs that were asked for, and looks for that of a runner.
    pub fn find_job_by_runner(&mut self, jobs: &Vec<RunJob>, runner: &str) -> (r: Option<JobInfo>)
        requires
            old(self).next < old(self).runs@.len(),
        ensures
            found_job(r, old(self).runs@[old(self).next as int], jobs@, runner@),
            *final(self) == (Sweep { next: (old(self).next + 1) as usize, ..*old(self) }),
    {
        let n = self.runs.len();
        assert(self.next < n);
        let r = job_of_runner(&self.runs[self.next], jobs, runner);
        self.next = self.next + 1;
        r
    }

    /// Takes the jobs that were asked for, and counts those that wait for us.
    pub fn count_queued_jobs(&mut self, jobs: &Vec<RunJob>, our_labels: &Vec<String>)
        requires
            old(self).next < old(self).runs@.len(),
            old(self).total + jobs@.len() <= u32::MAX,
        ensures
            *final(self) == (Sweep {
                next: (old(self).next + 1) as usize,
                total: (old(self).total + jobs@.filter(
                    waits_for(text::texts(our_labels@)),
                ).len()) as u32,
                ..*old(self)
            }),
    {
        let runs = self.runs.len();
        assert(self.next < runs);
        let n = queued_jobs(jobs, our_labels);
        self.total = self.total + n as u32;
        self.next = self.next + 1;
    }

    /// How many answers the sweep still waits for before it is done, if the
    /// runs that are still to be asked for are counted as one answer.
    pub open spec fn left(self) -> int {
        (if self.asked < 2 {
            2 - self.asked
        } else {
            0
        }) + (if self.next < self.runs@.len() {
            self.runs@.len() - self.next
        } else {
            0
        })
    }
}

/// A sweep is done when it asks for nothing, and only then; until then every
/// answer about a run brings the end closer by one.
pub proof fn law_sweeps_end(before: Sweep, after: Sweep)
    requires
        before.next < before.runs@.len(),
        after.asked == before.asked,
        after.runs == before.runs,
        after.next == before.next + 1,
    ensures
        before.left() > 0,
        after.left() == before.left() - 1,
        after.asks(Ask::Nothing) == (after.left() == 0),
{
}

// -- releases -----------------------------------------------------------------------------

/// A tag without the `v`s that it begins with.
pub open spec fn without_v(s: Seq<char>) -> Seq<char>
    decreases s.len(),
{
    if s.len() > 0 && s[0] == 'v' {
        without_v(s.drop_first())
    } else {
        s
    }
}

/// The version that a tag such as "v2.300.0" names.
pub fn version_of(tag: &str) -> (r: String)
    ensures
        r@ == without_v(tag@),
{
    let s = text::chars(tag);
    let mut k: usize = 0;
    assert(s@.skip(0) =~= s@);
    while k < s.len() && s[k] == 'v'
        invariant
            k <= s@.len(),
            without_v(s@) == without_v(s@.skip(k as int)),
        decreases s@.len() - k,
    {
        assert(s@.skip(k as int).drop_first() =~= s@.skip(k + 1));
        k = k + 1;
    }
    let rest = vstd::slice::slice_subrange(&s, k, s.len());
    assert(rest@ =~= s@.skip(k as int));
    text::string(rest)
}

/// The version of the latest release, from the answer that describes it.
pub fn latest_runner_release(body: &str) -> (r: String)
    ensures
        r@ == without_v(json::str_or_empty(body@, "/tag_name"@)),
{
    let tag = json::string_or_empty(body, "/tag_name");
    version_of(tag.as_str())
}

/// The hourly budget of requests, from the answer that tells it, in compact notation.
pub fn rate_limit(body: &str) -> (r: String)
    ensures
        r@ == json::raw_or_null(body@, "/resources/core"@),
{
    json::notation(body, "/resources/core")
}

} // verus!

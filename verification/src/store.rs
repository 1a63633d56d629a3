//! The journal: what became of jobs and runners, and what happened. It is
//! never authoritative; it is history for the dashboard and for the
//! reconciliation after a crash.

use crate::clock;
use crate::order;
use crate::text;
use vstd::prelude::*;

verus! {

/// The tables, as they were first laid out.
pub const SCHEMA: &'static str = "
CREATE TABLE IF NOT EXISTS runners (
  name TEXT PRIMARY KEY,
  repo TEXT NOT NULL,
  runtime TEXT NOT NULL,
  container_id TEXT,
  gh_runner_id INTEGER,
  state TEXT NOT NULL,
  created_at REAL NOT NULL,
  ended_at REAL,
  exit_code INTEGER
);
CREATE TABLE IF NOT EXISTS jobs (
  gh_job_id INTEGER PRIMARY KEY,
  repo TEXT NOT NULL,
  run_id INTEGER,
  workflow TEXT,
  job_name TEXT,
  conclusion TEXT,
  runner_name TEXT,
  html_url TEXT,
  started_at REAL,
  completed_at REAL
);
CREATE TABLE IF NOT EXISTS events (
  ts REAL NOT NULL,
  level TEXT NOT NULL,
  source TEXT NOT NULL,
  msg TEXT NOT NULL
);
CREATE TABLE IF NOT EXISTS docker_caches (
  name TEXT PRIMARY KEY,
  repo TEXT NOT NULL,
  slot INTEGER NOT NULL,
  last_used REAL NOT NULL
);
";

/// The columns that were added since.
pub open spec fn added_columns() -> Seq<Seq<char>> {
    seq![
        "ALTER TABLE jobs ADD COLUMN log_dir TEXT"@,
        "ALTER TABLE jobs ADD COLUMN kept_image TEXT"@,
        "ALTER TABLE jobs ADD COLUMN kept_image_runtime TEXT"@,
        "ALTER TABLE jobs ADD COLUMN head_branch TEXT"@,
        "ALTER TABLE jobs ADD COLUMN head_sha TEXT"@,
        "ALTER TABLE jobs ADD COLUMN title TEXT"@,
        "ALTER TABLE jobs ADD COLUMN event TEXT"@,
        "ALTER TABLE jobs ADD COLUMN peak_mem_mb REAL"@,
        "ALTER TABLE jobs ADD COLUMN oom INTEGER"@,
        "ALTER TABLE jobs ADD COLUMN cpu_avg_pct REAL"@,
        "ALTER TABLE jobs ADD COLUMN cpu_peak_pct REAL"@,
    ]
}

/// The statements that bring an older journal's tables up to date. One that
/// fails finds its column there already.
pub fn migrations() -> (r: Vec<&'static str>)
    ensures
        r@.len() == added_columns().len(),
        forall|i: int| 0 <= i < r@.len() ==> (#[trigger] r@[i])@ == added_columns()[i],
{
    vec![
        "ALTER TABLE jobs ADD COLUMN log_dir TEXT",
        "ALTER TABLE jobs ADD COLUMN kept_image TEXT",
        "ALTER TABLE jobs ADD COLUMN kept_image_runtime TEXT",
        "ALTER TABLE jobs ADD COLUMN head_branch TEXT",
        "ALTER TABLE jobs ADD COLUMN head_sha TEXT",
        "ALTER TABLE jobs ADD COLUMN title TEXT",
        "ALTER TABLE jobs ADD COLUMN event TEXT",
        "ALTER TABLE jobs ADD COLUMN peak_mem_mb REAL",
        "ALTER TABLE jobs ADD COLUMN oom INTEGER",
        "ALTER TABLE jobs ADD COLUMN cpu_avg_pct REAL",
        "ALTER TABLE jobs ADD COLUMN cpu_peak_pct REAL",
    ]
}

/// One job.
#[derive(Debug, PartialEq)]
pub struct Job {
    pub gh_job_id: i64,
    pub repo: String,
    pub run_id: Option<i64>,
    pub workflow: Option<String>,
    pub job_name: Option<String>,
    pub conclusion: Option<String>,
    pub runner_name: Option<String>,
    pub html_url: Option<String>,
    pub started_at: Option<i64>,
    pub completed_at: Option<i64>,
    pub log_dir: Option<String>,
    pub kept_image: Option<String>,
    pub kept_image_runtime: Option<String>,
    pub head_branch: Option<String>,
    pub head_sha: Option<String>,
    pub title: Option<String>,
    pub event: Option<String>,
    pub peak_mem_mb: Option<u64>,
    pub oom: Option<bool>,
    /// In percent of one core, in decimal notation.
    pub cpu_avg: Option<String>,
    pub cpu_peak: Option<String>,
}

impl Clone for Job {
    fn clone(&self) -> (r: Self)
        ensures
            r == *self,
    {
        Job {
            gh_job_id: self.gh_job_id,
            repo: self.repo.clone(),
            run_id: self.run_id,
            workflow: text::clone_opt(&self.workflow),
            job_name: text::clone_opt(&self.job_name),
            conclusion: text::clone_opt(&self.conclusion),
            runner_name: text::clone_opt(&self.runner_name),
            html_url: text::clone_opt(&self.html_url),
            started_at: self.started_at,
            completed_at: self.completed_at,
            log_dir: text::clone_opt(&self.log_dir),
            kept_image: text::clone_opt(&self.kept_image),
            kept_image_runtime: text::clone_opt(&self.kept_image_runtime),
            head_branch: text::clone_opt(&self.head_branch),
            head_sha: text::clone_opt(&self.head_sha),
            title: text::clone_opt(&self.title),
            event: text::clone_opt(&self.event),
            peak_mem_mb: self.peak_mem_mb,
            oom: self.oom,
            cpu_avg: text::clone_opt(&self.cpu_avg),
            cpu_peak: text::clone_opt(&self.cpu_peak),
        }
    }
}

/// What the jobs API says of a job.
#[derive(Debug)]
pub struct JobInfo {
    pub job_id: Option<i64>,
    pub run_id: Option<i64>,
    pub workflow: Option<String>,
    pub job_name: Option<String>,
    pub html_url: Option<String>,
    pub head_branch: Option<String>,
    pub head_sha: Option<String>,
    pub title: Option<String>,
    pub event: Option<String>,
}

impl Clone for JobInfo {
    fn clone(&self) -> (r: Self)
        ensures
            r == *self,
    {
        JobInfo {
            job_id: self.job_id,
            run_id: self.run_id,
            workflow: text::clone_opt(&self.workflow),
            job_name: text::clone_opt(&self.job_name),
            html_url: text::clone_opt(&self.html_url),
            head_branch: text::clone_opt(&self.head_branch),
            head_sha: text::clone_opt(&self.head_sha),
            title: text::clone_opt(&self.title),
            event: text::clone_opt(&self.event),
        }
    }
}

impl Default for JobInfo {
    fn default() -> (r: Self)
        ensures
            r == unknown_job(),
    {
        JobInfo {
            job_id: None,
            run_id: None,
            workflow: None,
            job_name: None,
            html_url: None,
            head_branch: None,
            head_sha: None,
            title: None,
            event: None,
        }
    }
}

/// A job of which nothing is known.
pub open spec fn unknown_job() -> JobInfo {
    JobInfo {
        job_id: None,
        run_id: None,
        workflow: None,
        job_name: None,
        html_url: None,
        head_branch: None,
        head_sha: None,
        title: None,
        event: None,
    }
}

/// Something that happened.
#[derive(Debug, PartialEq)]
pub struct Event {
    pub ts: i64,
    pub level: String,
    pub source: String,
    pub msg: String,
}

impl Clone for Event {
    fn clone(&self) -> (r: Self)
        ensures
            r == *self,
    {
        Event {
            ts: self.ts,
            level: self.level.clone(),
            source: self.source.clone(),
            msg: self.msg.clone(),
        }
    }
}

/// One runner.
#[derive(Debug, PartialEq)]
pub struct RunnerRow {
    pub name: String,
    pub repo: String,
    pub runtime: String,
    pub container_id: String,
    pub gh_runner_id: Option<i64>,
    pub state: String,
    pub created_at: i64,
    pub ended_at: Option<i64>,
    pub exit_code: Option<i64>,
}

/// One layer cache volume.
#[derive(Debug, PartialEq)]
pub struct DockerCacheRecord {
    pub name: String,
    pub repo: String,
    pub slot: u32,
    pub last_used: i64,
}

impl Clone for DockerCacheRecord {
    fn clone(&self) -> (r: Self)
        ensures
            r == *self,
    {
        DockerCacheRecord {
            name: self.name.clone(),
            repo: self.repo.clone(),
            slot: self.slot,
            last_used: self.last_used,
        }
    }
}

/// What the journal says of a job's retained artifacts.
#[derive(Debug, PartialEq)]
pub struct ArtifactRecord {
    pub job_id: i64,
    pub completed_at: Option<i64>,
    pub log_dir: Option<String>,
    pub kept_image: Option<String>,
    pub kept_image_runtime: Option<String>,
}

/// Which completed jobs to list: every field that is given must agree.
#[derive(Debug)]
pub struct JobFilter<'a> {
    pub repo: Option<&'a str>,
    pub workflow: Option<&'a str>,
    pub job_name: Option<&'a str>,
    pub completed_after: Option<i64>,
}

/// Why the journal refuses.
#[derive(Debug, Clone, Copy, PartialEq, Eq, Structural)]
pub enum StoreError {
    /// The journal was opened for reading only.
    ReadOnly,
}

impl StoreError {
    pub open spec fn spec_message(self) -> Seq<char> {
        match self {
            StoreError::ReadOnly => "attempt to write a readonly database"@,
        }
    }

    pub fn message(self) -> (r: &'static str)
        ensures
            r@ == self.spec_message(),
    {
        match self {
            StoreError::ReadOnly => "attempt to write a readonly database",
        }
    }
}

/// The journal's rows.
#[derive(Debug)]
pub struct Store {
    /// In ascending order of their ids.
    pub jobs: Vec<Job>,
    pub events: Vec<Event>,
    pub runners: Vec<RunnerRow>,
    pub docker_caches: Vec<DockerCacheRecord>,
    /// Whether writes are refused.
    pub query_only: bool,
}

/// Job ids ascend, so that none occurs twice.
pub open spec fn ids_ascend(jobs: Seq<Job>) -> bool {
    forall|i: int, j: int|
        #![trigger jobs[i], jobs[j]]
        0 <= i < j < jobs.len() ==> jobs[i].gh_job_id < jobs[j].gh_job_id
}

/// No runner is named twice.
pub open spec fn runners_distinct(runners: Seq<RunnerRow>) -> bool {
    forall|i: int, j: int|
        #![trigger runners[i], runners[j]]
        0 <= i < j < runners.len() ==> runners[i].name@ != runners[j].name@
}

/// No cache is named twice.
pub open spec fn caches_distinct(caches: Seq<DockerCacheRecord>) -> bool {
    forall|i: int, j: int|
        #![trigger caches[i], caches[j]]
        0 <= i < j < caches.len() ==> caches[i].name@ != caches[j].name@
}

// -- what statements do to rows ----------------------------------------------

/// `new` is the job `old` with a kept image's runtime filled in: workspaces
/// were kept on Docker alone before the runtime was recorded.
pub open spec fn migrated(new: Job, old: Job) -> bool {
    if old.kept_image is Some && old.kept_image_runtime is None {
        &&& new == Job { kept_image_runtime: new.kept_image_runtime, ..old }
        &&& text::opt_text(new.kept_image_runtime) == Some("docker"@)
    } else {
        new == old
    }
}

/// `new` is a job that runs as `info` says. What the journal knew of it, its
/// repo among that, is kept.
pub open spec fn restarted(
    new: Job,
    old: Job,
    info: JobInfo,
    runner_name: Seq<char>,
    started_at: Option<i64>,
) -> bool {
    &&& new == Job {
        run_id: info.run_id,
        workflow: info.workflow,
        job_name: info.job_name,
        runner_name: new.runner_name,
        html_url: info.html_url,
        started_at,
        head_branch: info.head_branch,
        head_sha: info.head_sha,
        title: info.title,
        event: info.event,
        ..old
    }
    &&& text::opt_text(new.runner_name) == Some(runner_name)
}

/// `new` is a job of which only its id, its repo and what `info` says is known.
pub open spec fn started(
    new: Job,
    id: int,
    repo: Seq<char>,
    info: JobInfo,
    runner_name: Seq<char>,
    started_at: Option<i64>,
) -> bool {
    &&& new.gh_job_id == id
    &&& new.repo@ == repo
    &&& restarted(new, new, info, runner_name, started_at)
    &&& new.conclusion is None
    &&& new.completed_at is None
    &&& new.log_dir is None
    &&& new.kept_image is None
    &&& new.kept_image_runtime is None
    &&& new.peak_mem_mb is None
    &&& new.oom is None
    &&& new.cpu_avg is None
    &&& new.cpu_peak is None
}

/// `new` is the job `old`, concluded.
pub open spec fn concluded(new: Job, old: Job, conclusion: Seq<char>, now: i64) -> bool {
    &&& new == Job { conclusion: new.conclusion, completed_at: Some(now), ..old }
    &&& text::opt_text(new.conclusion) == Some(conclusion)
}

/// A value that is given, else the one that was there.
pub open spec fn coalesce(given: Option<Seq<char>>, was: Option<Seq<char>>) -> Option<Seq<char>> {
    if given is Some {
        given
    } else {
        was
    }
}

/// `new` is the job `old` with the artifacts that are given.
pub open spec fn with_artifacts(
    new: Job,
    old: Job,
    log_dir: Option<Seq<char>>,
    kept_image: Option<Seq<char>>,
    runtime: Option<Seq<char>>,
) -> bool {
    &&& new == Job {
        log_dir: new.log_dir,
        kept_image: new.kept_image,
        kept_image_runtime: new.kept_image_runtime,
        ..old
    }
    &&& text::opt_text(new.log_dir) == coalesce(log_dir, text::opt_text(old.log_dir))
    &&& text::opt_text(new.kept_image) == coalesce(kept_image, text::opt_text(old.kept_image))
    &&& text::opt_text(new.kept_image_runtime) == coalesce(
        runtime,
        text::opt_text(old.kept_image_runtime),
    )
}

/// The jobs whose captured logs are at `dir`.
pub open spec fn logs_at(dir: Seq<char>) -> spec_fn(Job) -> bool {
    |j: Job| text::opt_text(j.log_dir) == Some(dir)
}

/// The jobs that history need not keep: completed before `cutoff`, with
/// nothing retained.
pub open spec fn prunable_job(cutoff: int) -> spec_fn(Job) -> bool {
    |j: Job|
        j.completed_at is Some && j.completed_at->0 < cutoff && j.log_dir is None
            && j.kept_image is None
}

/// The jobs that history keeps.
pub open spec fn retained_job(cutoff: int) -> spec_fn(Job) -> bool {
    |j: Job| !prunable_job(cutoff)(j)
}

/// The events before `cutoff`.
pub open spec fn prunable_event(cutoff: int) -> spec_fn(Event) -> bool {
    |e: Event| e.ts < cutoff
}

/// The events that history keeps.
pub open spec fn retained_event(cutoff: int) -> spec_fn(Event) -> bool {
    |e: Event| !prunable_event(cutoff)(e)
}

/// `r` is the row of a runner as recorded.
pub open spec fn runner_is(
    r: RunnerRow,
    name: Seq<char>,
    repo: Seq<char>,
    runtime: Seq<char>,
    container_id: Seq<char>,
    gh_runner_id: Option<i64>,
    state: Seq<char>,
    created_at: i64,
    ended_at: Option<i64>,
    exit_code: Option<i64>,
) -> bool {
    &&& r.name@ == name
    &&& r.repo@ == repo
    &&& r.runtime@ == runtime
    &&& r.container_id@ == container_id
    &&& r.gh_runner_id == gh_runner_id
    &&& r.state@ == state
    &&& r.created_at == created_at
    &&& r.ended_at == ended_at
    &&& r.exit_code == exit_code
}

/// The journal knows a job.
pub open spec fn knows(jobs: Seq<Job>, id: i64) -> bool {
    exists|i: int| 0 <= i < jobs.len() && (#[trigger] jobs[i]).gh_job_id == id
}

/// The journal knows a job, and of no captured logs.
pub open spec fn lacks_logs(jobs: Seq<Job>, id: i64) -> bool {
    exists|i: int|
        0 <= i < jobs.len() && (#[trigger] jobs[i]).gh_job_id == id && jobs[i].log_dir is None
}

/// The journal knows a job, and of no kept workspace.
pub open spec fn lacks_image(jobs: Seq<Job>, id: i64) -> bool {
    exists|i: int|
        0 <= i < jobs.len() && (#[trigger] jobs[i]).gh_job_id == id && jobs[i].kept_image is None
}

/// The id of a job that starts, if it is given one: its own, else the one
/// after the last.
pub open spec fn start_id(jobs: Seq<Job>, given: Option<i64>) -> Option<int> {
    match given {
        Some(id) => Some(id as int),
        None => if jobs.len() == 0 {
            Some(1)
        } else if jobs.last().gh_job_id < i64::MAX {
            Some(jobs.last().gh_job_id + 1)
        } else {
            None
        },
    }
}

/// `new` is `old` with the job of `id`, at position `p`, as started.
pub open spec fn start_at(
    new: Seq<Job>,
    old: Seq<Job>,
    p: int,
    id: int,
    info: JobInfo,
    repo: Seq<char>,
    runner_name: Seq<char>,
    started_at: Option<i64>,
) -> bool {
    if 0 <= p < old.len() && old[p].gh_job_id == id {
        &&& new == old.update(p, new[p])
        &&& restarted(new[p], old[p], info, runner_name, started_at)
    } else {
        &&& 0 <= p <= old.len()
        &&& forall|i: int| 0 <= i < old.len() ==> (#[trigger] old[i]).gh_job_id != id
        &&& new == old.insert(p, new[p])
        &&& started(new[p], id, repo, info, runner_name, started_at)
    }
}

/// `new` is `old` after a job has started.
pub open spec fn start_recorded(
    new: Store,
    old: Store,
    info: JobInfo,
    repo: Seq<char>,
    runner_name: Seq<char>,
    started_at: Option<i64>,
) -> bool {
    let id = start_id(old.jobs@, info.job_id);
    &&& new == Store { jobs: new.jobs, ..old }
    &&& if old.query_only || id is None {
        new.jobs@ == old.jobs@
    } else {
        exists|p: int|
            #[trigger] start_at(
                new.jobs@,
                old.jobs@,
                p,
                id->0,
                info,
                repo,
                runner_name,
                started_at,
            )
    }
}

/// `new` is `old` after a job has concluded.
pub open spec fn conclusion_recorded(
    new: Store,
    old: Store,
    id: i64,
    conclusion: Seq<char>,
    now: i64,
) -> bool {
    &&& new == Store { jobs: new.jobs, ..old }
    &&& new.jobs@.len() == old.jobs@.len()
    &&& forall|i: int|
        0 <= i < old.jobs@.len() ==> if old.jobs@[i].gh_job_id == id && !old.query_only {
            concluded(#[trigger] new.jobs@[i], old.jobs@[i], conclusion, now)
        } else {
            new.jobs@[i] == old.jobs@[i]
        }
}

/// `new` is `old` after it is known where a job's artifacts are.
pub open spec fn artifacts_recorded(
    new: Store,
    old: Store,
    id: i64,
    log_dir: Option<Seq<char>>,
    kept_image: Option<Seq<char>>,
    runtime: Option<Seq<char>>,
) -> bool {
    &&& new == Store { jobs: new.jobs, ..old }
    &&& new.jobs@.len() == old.jobs@.len()
    &&& forall|i: int|
        0 <= i < old.jobs@.len() ==> if old.jobs@[i].gh_job_id == id && !old.query_only {
            with_artifacts(
                #[trigger] new.jobs@[i],
                old.jobs@[i],
                log_dir,
                kept_image,
                runtime,
            )
        } else {
            new.jobs@[i] == old.jobs@[i]
        }
}

/// `new` is `old` after it is known what a job took.
pub open spec fn resources_recorded(
    new: Store,
    old: Store,
    id: i64,
    peak_mem_mb: u64,
    oom: bool,
    cpu_avg: Option<String>,
    cpu_peak: Option<String>,
) -> bool {
    &&& new == Store { jobs: new.jobs, ..old }
    &&& new.jobs@.len() == old.jobs@.len()
    &&& forall|i: int|
        0 <= i < old.jobs@.len() ==> #[trigger] new.jobs@[i] == if old.jobs@[i].gh_job_id == id
            && !old.query_only {
            Job {
                peak_mem_mb: Some(peak_mem_mb),
                oom: Some(oom),
                cpu_avg,
                cpu_peak,
                ..old.jobs@[i]
            }
        } else {
            old.jobs@[i]
        }
}

/// `new` is `old` after it is known how a runner stands.
pub open spec fn runner_recorded(
    new: Store,
    old: Store,
    name: Seq<char>,
    repo: Seq<char>,
    runtime: Seq<char>,
    container_id: Seq<char>,
    gh_runner_id: Option<i64>,
    state: Seq<char>,
    created_at: i64,
    ended_at: Option<i64>,
    exit_code: Option<i64>,
) -> bool {
    &&& new == Store { runners: new.runners, ..old }
    &&& if old.query_only {
        new.runners == old.runners
    } else {
        exists|p: int|
            {
                &&& #[trigger] runner_at(new.runners@, old.runners@, p, name)
                &&& runner_is(
                    new.runners@[p],
                    name,
                    repo,
                    runtime,
                    container_id,
                    gh_runner_id,
                    state,
                    created_at,
                    ended_at,
                    exit_code,
                )
            }
    }
}

/// `new` is `old` but for the runner of a name, at position `p`.
pub open spec fn runner_at(
    new: Seq<RunnerRow>,
    old: Seq<RunnerRow>,
    p: int,
    name: Seq<char>,
) -> bool {
    if 0 <= p < old.len() {
        old[p].name@ == name && new == old.update(p, new[p])
    } else {
        &&& p == old.len()
        &&& new == old.push(new[p])
        &&& forall|i: int| 0 <= i < old.len() ==> (#[trigger] old[i]).name@ != name
    }
}

/// `new` is `old` after something has happened.
pub open spec fn event_recorded(
    new: Store,
    old: Store,
    level: Seq<char>,
    source: Seq<char>,
    msg: Seq<char>,
    now: i64,
) -> bool {
    &&& new == Store { events: new.events, ..old }
    &&& if old.query_only {
        new.events == old.events
    } else {
        let e = new.events@.last();
        &&& new.events@ == old.events@.push(e)
        &&& e.ts == now
        &&& e.level@ == level
        &&& e.source@ == source
        &&& e.msg@ == msg
    }
}

/// A job without its reference to logs at `dir`.
pub open spec fn without_logs(j: Job, dir: Seq<char>) -> Job {
    if logs_at(dir)(j) {
        Job { log_dir: None, ..j }
    } else {
        j
    }
}

/// `new` is `old`, referred to captured logs if it is the job of `id` and has none.
pub open spec fn logs_repaired(new: Job, old: Job, id: i64, dir: Seq<char>) -> bool {
    if old.gh_job_id == id && old.log_dir is None {
        &&& new == Job { log_dir: new.log_dir, ..old }
        &&& text::opt_text(new.log_dir) == Some(dir)
    } else {
        new == old
    }
}

/// `new` is `old`, referred to an image if it is the job of `id` and has none.
pub open spec fn image_repaired(
    new: Job,
    old: Job,
    id: i64,
    tag: Seq<char>,
    runtime: Seq<char>,
) -> bool {
    if old.gh_job_id == id && old.kept_image is None {
        &&& new == Job {
            kept_image: new.kept_image,
            kept_image_runtime: new.kept_image_runtime,
            ..old
        }
        &&& text::opt_text(new.kept_image) == Some(tag)
        &&& text::opt_text(new.kept_image_runtime) == Some(runtime)
    } else {
        new == old
    }
}

/// `new` is `old` with a cache, at position `p`, as used.
pub open spec fn cache_touched(
    new: Seq<DockerCacheRecord>,
    old: Seq<DockerCacheRecord>,
    p: int,
    name: Seq<char>,
    repo: Seq<char>,
    slot: u32,
    now: i64,
) -> bool {
    &&& 0 <= p < new.len()
    &&& new[p].name@ == name
    &&& new[p].repo@ == repo
    &&& new[p].slot == slot
    &&& new[p].last_used == now
    &&& if p < old.len() {
        old[p].name@ == name && new == old.update(p, new[p])
    } else {
        &&& new == old.push(new[p])
        &&& forall|i: int| 0 <= i < old.len() ==> (#[trigger] old[i]).name@ != name
    }
}

/// The caches but the one of a name.
pub open spec fn cache_other_than(name: Seq<char>) -> spec_fn(DockerCacheRecord) -> bool {
    |c: DockerCacheRecord| c.name@ != name
}

// -- what queries list --------------------------------------------------------

/// When a job completed, else when it started.
pub open spec fn recency(j: Job) -> Option<i64> {
    if j.completed_at is Some {
        j.completed_at
    } else {
        j.started_at
    }
}

/// Where a time stands in ascending order; what has none comes first.
pub open spec fn oldest_key(ts: Option<i64>) -> i128 {
    match ts {
        Some(t) => t as i128,
        None => (i64::MIN - 1) as i128,
    }
}

/// Where a time stands in descending order; what has none comes last.
pub open spec fn newest_key(ts: Option<i64>) -> i128 {
    (-oldest_key(ts)) as i128
}

pub open spec fn newest_keys(jobs: Seq<Job>) -> Seq<i128> {
    jobs.map_values(|j: Job| newest_key(recency(j)))
}

pub open spec fn oldest_keys(jobs: Seq<Job>) -> Seq<i128> {
    jobs.map_values(|j: Job| oldest_key(recency(j)))
}

/// `r` is the first `limit` of the jobs, newest first.
pub open spec fn newest_first(r: Seq<Job>, jobs: Seq<Job>, limit: nat) -> bool {
    exists|at: Seq<usize>|
        {
            &&& #[trigger] order::is_ascending(newest_keys(jobs), at)
            &&& r.len() == if limit < jobs.len() {
                limit
            } else {
                jobs.len()
            }
            &&& forall|i: int| 0 <= i < r.len() ==> #[trigger] r[i] == jobs[at[i] as int]
        }
}

/// `r` is the first `limit` of the events, newest first.
pub open spec fn newest_events(r: Seq<Event>, events: Seq<Event>, limit: nat) -> bool {
    exists|at: Seq<usize>|
        {
            &&& #[trigger] order::is_ascending(event_keys(events), at)
            &&& r.len() == if limit < events.len() {
                limit
            } else {
                events.len()
            }
            &&& forall|i: int| 0 <= i < r.len() ==> #[trigger] r[i] == events[at[i] as int]
        }
}

/// Every job.
pub open spec fn any_job() -> spec_fn(Job) -> bool {
    |j: Job| true
}

/// The jobs that failed.
pub open spec fn failed_job() -> spec_fn(Job) -> bool {
    |j: Job| text::opt_text(j.conclusion) == Some("failure"@)
}

/// The jobs with captured logs.
pub open spec fn logged_job() -> spec_fn(Job) -> bool {
    |j: Job| j.log_dir is Some
}

/// The completed jobs that agree with a filter.
pub open spec fn passes(f: JobFilter<'_>) -> spec_fn(Job) -> bool {
    |j: Job|
        {
            &&& j.conclusion is Some
            &&& f.repo is Some ==> f.repo->0@ == j.repo@
            &&& f.workflow is Some ==> text::opt_text(j.workflow) == Some(f.workflow->0@)
            &&& f.job_name is Some ==> text::opt_text(j.job_name) == Some(f.job_name->0@)
            &&& f.completed_after is Some ==> j.completed_at is Some && j.completed_at->0
                >= f.completed_after->0
        }
}

/// Where a completed job stands in descending order of completion.
pub open spec fn completion_keys(jobs: Seq<Job>) -> Seq<i128> {
    jobs.map_values(|j: Job| newest_key(j.completed_at))
}

/// `r` is the jobs, the latest to complete first.
pub open spec fn latest_completed(r: Seq<Job>, jobs: Seq<Job>) -> bool {
    exists|at: Seq<usize>|
        {
            &&& #[trigger] order::is_ascending(completion_keys(jobs), at)
            &&& r.len() == jobs.len()
            &&& forall|i: int| 0 <= i < r.len() ==> #[trigger] r[i] == jobs[at[i] as int]
        }
}

pub open spec fn event_keys(events: Seq<Event>) -> Seq<i128> {
    events.map_values(|e: Event| newest_key(Some(e.ts)))
}

/// `r` says of the job `j` what the journal holds of its artifacts.
pub open spec fn is_artifact_record(r: ArtifactRecord, j: Job) -> bool {
    &&& r.job_id == j.gh_job_id
    &&& r.completed_at == j.completed_at
    &&& r.log_dir == j.log_dir
    &&& r.kept_image == j.kept_image
    &&& r.kept_image_runtime == j.kept_image_runtime
}

/// `r` says of every job, oldest first, what the journal holds of its artifacts.
pub open spec fn artifacts_of(r: Seq<ArtifactRecord>, jobs: Seq<Job>) -> bool {
    exists|at: Seq<usize>|
        {
            &&& #[trigger] order::is_ascending(oldest_keys(jobs), at)
            &&& r.len() == jobs.len()
            &&& forall|i: int|
                0 <= i < r.len() ==> is_artifact_record(#[trigger] r[i], jobs[at[i] as int])
        }
}

/// The jobs with a kept workspace and their images.
pub open spec fn kept_among(records: Seq<ArtifactRecord>) -> Seq<(i64, String)>
    decreases records.len(),
{
    if records.len() == 0 {
        Seq::empty()
    } else {
        let before = kept_among(records.drop_last());
        match records.last().kept_image {
            Some(tag) => before.push((records.last().job_id, tag)),
            None => before,
        }
    }
}

// -- the journal ---------------------------------------------------------------

fn text_of(s: Option<&str>) -> (r: Option<String>)
    ensures
        text::opt_text(r) == text::opt_str(s),
{
    match s {
        Some(s) => Some(s.to_string()),
        None => None,
    }
}

fn agrees(wanted: Option<&str>, have: &Option<String>) -> (r: bool)
    ensures
        r == (wanted is Some ==> text::opt_text(*have) == Some(wanted->0@)),
{
    match wanted {
        Some(w) => text::holds(have, w),
        None => true,
    }
}

fn key_of(ts: Option<i64>) -> (r: i128)
    ensures
        r == oldest_key(ts),
        -r == newest_key(ts),
{
    match ts {
        Some(t) => t as i128,
        None => i64::MIN as i128 - 1,
    }
}

/// The jobs at some positions, up to `limit` of them.
fn pick_jobs(jobs: &Vec<Job>, at: &Vec<usize>, limit: usize) -> (r: Vec<Job>)
    requires
        at@.len() == jobs@.len(),
        forall|i: int| 0 <= i < at@.len() ==> #[trigger] at@[i] < jobs@.len(),
    ensures
        r@.len() == if limit < jobs@.len() {
            limit as nat
        } else {
            jobs@.len()
        },
        forall|i: int| 0 <= i < r@.len() ==> #[trigger] r@[i] == jobs@[at@[i] as int],
{
    let mut r: Vec<Job> = Vec::new();
    while r.len() < at.len() && r.len() < limit
        invariant
            at@.len() == jobs@.len(),
            forall|i: int| 0 <= i < at@.len() ==> #[trigger] at@[i] < jobs@.len(),
            r@.len() <= at@.len(),
            r@.len() <= limit,
            forall|i: int| 0 <= i < r@.len() ==> #[trigger] r@[i] == jobs@[at@[i] as int],
        decreases at@.len() - r@.len(),
    {
        let job = jobs[at[r.len()]].clone();
        r.push(job);
    }
    r
}

fn newest(jobs: &Vec<Job>, limit: usize) -> (r: Vec<Job>)
    ensures
        newest_first(r@, jobs@, limit as nat),
{
    let mut keys: Vec<i128> = Vec::new();
    for i in 0..jobs.len()
        invariant
            keys@ =~= newest_keys(jobs@.take(i as int)),
    {
        let ts = if jobs[i].completed_at.is_some() {
            jobs[i].completed_at
        } else {
            jobs[i].started_at
        };
        keys.push(-key_of(ts));
    }
    assert(jobs@.take(jobs@.len() as int) =~= jobs@);
    let at = order::ascending(&keys);
    let r = pick_jobs(jobs, &at, limit);
    assert(order::is_ascending(newest_keys(jobs@), at@));
    r
}

impl Store {
    /// No id or name occurs twice.
    pub open spec fn well_formed(self) -> bool {
        &&& ids_ascend(self.jobs@)
        &&& runners_distinct(self.runners@)
        &&& caches_distinct(self.docker_caches@)
    }

    /// Whether no id or name occurs twice.
    pub fn holds_together(&self) -> (r: bool)
        ensures
            r == self.well_formed(),
    {
        for i in 0..self.jobs.len()
            invariant
                forall|a: int, b: int|
                    #![trigger self.jobs@[a], self.jobs@[b]]
                    0 <= a < b < i ==> self.jobs@[a].gh_job_id < self.jobs@[b].gh_job_id,
        {
            if i > 0 && self.jobs[i - 1].gh_job_id >= self.jobs[i].gh_job_id {
                assert(!ids_ascend(self.jobs@));
                return false;
            }
        }
        for i in 0..self.runners.len()
            invariant
                forall|a: int, b: int|
                    #![trigger self.runners@[a], self.runners@[b]]
                    0 <= a < b < i ==> self.runners@[a].name@ != self.runners@[b].name@,
        {
            for k in 0..i
                invariant
                    i < self.runners@.len(),
                    forall|a: int| 0 <= a < k ==> (#[trigger] self.runners@[a]).name@
                        != self.runners@[i as int].name@,
            {
                if text::same_str(self.runners[k].name.as_str(), self.runners[i].name.as_str()) {
                    assert(!runners_distinct(self.runners@));
                    return false;
                }
            }
        }
        for i in 0..self.docker_caches.len()
            invariant
                forall|a: int, b: int|
                    #![trigger self.docker_caches@[a], self.docker_caches@[b]]
                    0 <= a < b < i ==> self.docker_caches@[a].name@ != self.docker_caches@[b].name@,
        {
            for k in 0..i
                invariant
                    i < self.docker_caches@.len(),
                    forall|a: int| 0 <= a < k ==> (#[trigger] self.docker_caches@[a]).name@
                        != self.docker_caches@[i as int].name@,
            {
                if text::same_str(
                    self.docker_caches[k].name.as_str(),
                    self.docker_caches[i].name.as_str(),
                ) {
                    assert(!caches_distinct(self.docker_caches@));
                    return false;
                }
            }
        }
        true
    }

    /// An empty journal.
    pub fn new() -> (r: Store)
        ensures
            r.well_formed(),
            r.jobs@.len() == 0,
            r.events@.len() == 0,
            r.runners@.len() == 0,
            r.docker_caches@.len() == 0,
            !r.query_only,
    {
        Store {
            jobs: Vec::new(),
            events: Vec::new(),
            runners: Vec::new(),
            docker_caches: Vec::new(),
            query_only: false,
        }
    }

    /// The journal of the supervisor, from the rows on disk: writable, with
    /// the runtime of every kept image filled in.
    pub fn open(rows: Store) -> (r: Store)
        requires
            rows.well_formed(),
        ensures
            r.well_formed(),
            !r.query_only,
            r.jobs@.len() == rows.jobs@.len(),
            forall|i: int|
                0 <= i < r.jobs@.len() ==> migrated(#[trigger] r.jobs@[i], rows.jobs@[i]),
            r.events@ == rows.events@,
            r.runners@ == rows.runners@,
            r.docker_caches@ == rows.docker_caches@,
    {
        let mut r = rows;
        r.query_only = false;
        let ghost before = r.jobs@;
        let n = r.jobs.len();
        for i in 0..n
            invariant
                n == before.len(),
                r.jobs@.len() == before.len(),
                !r.query_only,
                r.events@ == rows.events@,
                r.runners@ == rows.runners@,
                r.docker_caches@ == rows.docker_caches@,
                forall|j: int| 0 <= j < i ==> migrated(#[trigger] r.jobs@[j], before[j]),
                forall|j: int| i <= j < before.len() ==> #[trigger] r.jobs@[j] == before[j],
        {
            if r.jobs[i].kept_image.is_some() && r.jobs[i].kept_image_runtime.is_none() {
                let mut job = r.jobs[i].clone();
                job.kept_image_runtime = Some("docker".to_string());
                r.jobs.set(i, job);
            }
        }
        assert(forall|i: int| 0 <= i < r.jobs@.len() ==> (#[trigger] r.jobs@[i]).gh_job_id
            == before[i].gh_job_id);
        r
    }

    /// The journal for commands that only read, from the rows at a path where
    /// there are any: writes are refused.
    pub fn open_readonly(path: &str, rows: Option<Store>) -> (r: Result<Store, String>)
        requires
            rows is Some ==> rows->0.well_formed(),
        ensures
            match r {
                Ok(s) => rows is Some && s == (Store { query_only: true, ..rows->0 }),
                Err(e) => rows is None && e@ == "no journal at "@ + path@
                    + " (has the supervisor run?)"@,
            },
    {
        match rows {
            Some(rows) => {
                let mut s = rows;
                s.query_only = true;
                Ok(s)
            },
            None => Err(text::chain("no journal at ", path, " (has the supervisor run?)")),
        }
    }

    /// Where a job stands, or where it would.
    fn position(&self, id: i64) -> (r: usize)
        requires
            self.well_formed(),
        ensures
            r <= self.jobs@.len(),
            forall|i: int| 0 <= i < r ==> (#[trigger] self.jobs@[i]).gh_job_id < id,
            r < self.jobs@.len() ==> self.jobs@[r as int].gh_job_id >= id,
    {
        let mut p: usize = 0;
        while p < self.jobs.len() && self.jobs[p].gh_job_id < id
            invariant
                p <= self.jobs@.len(),
                forall|i: int| 0 <= i < p ==> (#[trigger] self.jobs@[i]).gh_job_id < id,
            decreases self.jobs@.len() - p,
        {
            p = p + 1;
        }
        p
    }

    /// Records how a runner stands, by its name.
    pub fn record_runner(
        &mut self,
        name: &str,
        repo: &str,
        runtime: &str,
        container_id: &str,
        gh_runner_id: Option<i64>,
        state: &str,
        created_at: i64,
        ended_at: Option<i64>,
        exit_code: Option<i64>,
    )
        requires
            old(self).well_formed(),
        ensures
            final(self).well_formed(),
            runner_recorded(
                *final(self),
                *old(self),
                name@,
                repo@,
                runtime@,
                container_id@,
                gh_runner_id,
                state@,
                created_at,
                ended_at,
                exit_code,
            ),
    {
        if self.query_only {
            return ;
        }
        let row = RunnerRow {
            name: name.to_string(),
            repo: repo.to_string(),
            runtime: runtime.to_string(),
            container_id: container_id.to_string(),
            gh_runner_id,
            state: state.to_string(),
            created_at,
            ended_at,
            exit_code,
        };
        let ghost before = self.runners@;
        let mut p: usize = 0;
        while p < self.runners.len() && !text::same_str(self.runners[p].name.as_str(), name)
            invariant
                p <= self.runners@.len(),
                forall|i: int| 0 <= i < p ==> (#[trigger] self.runners@[i]).name@ != name@,
            decreases self.runners@.len() - p,
        {
            p = p + 1;
        }
        if p < self.runners.len() {
            assert(before[p as int].name@ == name@);
            self.runners.set(p, row);
            assert(self.runners@ =~= before.update(p as int, row));
        } else {
            self.runners.push(row);
        }
        assert(runner_at(self.runners@, before, p as int, name@));
    }

    /// Records that a job has started on a runner. A job that the journal
    /// already knows keeps its repo and what it came to; one without an id is
    /// given the id after the last.
    pub fn job_started(
        &mut self,
        info: &JobInfo,
        repo: &str,
        runner_name: &str,
        started_at: Option<i64>,
    )
        requires
            old(self).well_formed(),
        ensures
            final(self).well_formed(),
            start_recorded(*final(self), *old(self), *info, repo@, runner_name@, started_at),
    {
        let ghost before = self.jobs@;
        if self.query_only {
            return ;
        }
        let id: i64 = match info.job_id {
            Some(id) => id,
            None => if self.jobs.len() == 0 {
                1
            } else {
                let last = self.jobs[self.jobs.len() - 1].gh_job_id;
                if last == i64::MAX {
                    return ;
                }
                last + 1
            },
        };
        assert(start_id(before, info.job_id) == Some(id as int));
        let p = self.position(id);
        let known = p < self.jobs.len() && self.jobs[p].gh_job_id == id;
        let mut job = if known {
            self.jobs[p].clone()
        } else {
            Job {
                gh_job_id: id,
                repo: repo.to_string(),
                run_id: None,
                workflow: None,
                job_name: None,
                conclusion: None,
                runner_name: None,
                html_url: None,
                started_at: None,
                completed_at: None,
                log_dir: None,
                kept_image: None,
                kept_image_runtime: None,
                head_branch: None,
                head_sha: None,
                title: None,
                event: None,
                peak_mem_mb: None,
                oom: None,
                cpu_avg: None,
                cpu_peak: None,
            }
        };
        job.run_id = info.run_id;
        job.workflow = text::clone_opt(&info.workflow);
        job.job_name = text::clone_opt(&info.job_name);
        job.runner_name = Some(runner_name.to_string());
        job.html_url = text::clone_opt(&info.html_url);
        job.started_at = started_at;
        job.head_branch = text::clone_opt(&info.head_branch);
        job.head_sha = text::clone_opt(&info.head_sha);
        job.title = text::clone_opt(&info.title);
        job.event = text::clone_opt(&info.event);
        let ghost g = job;
        if known {
            self.jobs.set(p, job);
            assert(self.jobs@ =~= before.update(p as int, g));
            assert(before[p as int].gh_job_id == id);
        } else {
            self.jobs.insert(p, job);
            assert(self.jobs@ =~= before.insert(p as int, g));
            assert forall|i: int| 0 <= i < before.len() implies (#[trigger] before[i]).gh_job_id
                != id by {
                if i > p {
                    assert(before[p as int].gh_job_id < before[i].gh_job_id);
                }
            }
            assert forall|i: int, j: int|
                #![trigger self.jobs@[i], self.jobs@[j]]
                0 <= i < j < self.jobs@.len() implies self.jobs@[i].gh_job_id
                < self.jobs@[j].gh_job_id by {
                let a = if i < p {
                    i
                } else {
                    i - 1
                };
                let b = if j < p {
                    j
                } else {
                    j - 1
                };
                if i != p && j != p {
                    assert(before[a].gh_job_id < before[b].gh_job_id);
                } else if i == p && b > p {
                    assert(before[p as int].gh_job_id < before[b].gh_job_id);
                }
            }
        }
        assert(start_at(
            self.jobs@,
            before,
            p as int,
            id as int,
            *info,
            repo@,
            runner_name@,
            started_at,
        ));
        let ghost gid = start_id(before, info.job_id);
        assert(gid->0 == id as int);
        assert(exists|q: int|
            #[trigger] start_at(self.jobs@, before, q, gid->0, *info, repo@, runner_name@, started_at));
    }

    /// Records what a job came to.
    pub fn job_concluded(&mut self, gh_job_id: i64, conclusion: &str, now: i64)
        requires
            old(self).well_formed(),
        ensures
            final(self).well_formed(),
            conclusion_recorded(*final(self), *old(self), gh_job_id, conclusion@, now),
    {
        let p = self.position(gh_job_id);
        if !self.query_only && p < self.jobs.len() && self.jobs[p].gh_job_id == gh_job_id {
            let mut job = self.jobs[p].clone();
            job.conclusion = Some(conclusion.to_string());
            job.completed_at = Some(now);
            self.jobs.set(p, job);
        } else if p < self.jobs.len() {
            assert(forall|i: int| p < i < self.jobs@.len() ==> self.jobs@[p as int].gh_job_id < (
            #[trigger] self.jobs@[i]).gh_job_id);
        }
    }

    /// Records where a job's logs and workspace are kept, as far as is given.
    pub fn set_job_artifacts(
        &mut self,
        gh_job_id: i64,
        log_dir: Option<&str>,
        kept_image: Option<&str>,
        kept_image_runtime: Option<&str>,
    )
        requires
            old(self).well_formed(),
        ensures
            final(self).well_formed(),
            artifacts_recorded(
                *final(self),
                *old(self),
                gh_job_id,
                text::opt_str(log_dir),
                text::opt_str(kept_image),
                text::opt_str(kept_image_runtime),
            ),
    {
        let p = self.position(gh_job_id);
        if !self.query_only && p < self.jobs.len() && self.jobs[p].gh_job_id == gh_job_id {
            let mut job = self.jobs[p].clone();
            if log_dir.is_some() {
                job.log_dir = text_of(log_dir);
            }
            if kept_image.is_some() {
                job.kept_image = text_of(kept_image);
            }
            if kept_image_runtime.is_some() {
                job.kept_image_runtime = text_of(kept_image_runtime);
            }
            self.jobs.set(p, job);
        } else if p < self.jobs.len() {
            assert(forall|i: int| p < i < self.jobs@.len() ==> self.jobs@[p as int].gh_job_id < (
            #[trigger] self.jobs@[i]).gh_job_id);
        }
    }

    /// Records what a job took.
    pub fn set_job_resources(
        &mut self,
        gh_job_id: i64,
        peak_mem_mb: u64,
        oom: bool,
        cpu_avg: Option<String>,
        cpu_peak: Option<String>,
    )
        requires
            old(self).well_formed(),
        ensures
            final(self).well_formed(),
            resources_recorded(
                *final(self),
                *old(self),
                gh_job_id,
                peak_mem_mb,
                oom,
                cpu_avg,
                cpu_peak,
            ),
    {
        let p = self.position(gh_job_id);
        if !self.query_only && p < self.jobs.len() && self.jobs[p].gh_job_id == gh_job_id {
            let mut job = self.jobs[p].clone();
            job.peak_mem_mb = Some(peak_mem_mb);
            job.oom = Some(oom);
            job.cpu_avg = cpu_avg;
            job.cpu_peak = cpu_peak;
            self.jobs.set(p, job);
        } else if p < self.jobs.len() {
            assert(forall|i: int| p < i < self.jobs@.len() ==> self.jobs@[p as int].gh_job_id < (
            #[trigger] self.jobs@[i]).gh_job_id);
        }
    }

    /// Forgets captured logs, wherever they are referred to; says how often
    /// they were.
    pub fn clear_log_dir(&mut self, log_dir: &str) -> (r: Result<usize, StoreError>)
        requires
            old(self).well_formed(),
        ensures
            final(self).well_formed(),
            *final(self) == (Store { jobs: final(self).jobs, ..*old(self) }),
            old(self).query_only ==> r == Err::<usize, StoreError>(StoreError::ReadOnly)
                && final(self).jobs == old(self).jobs,
            !old(self).query_only ==> {
                &&& r matches Ok(n) && n == old(self).jobs@.filter(logs_at(log_dir@)).len()
                &&& final(self).jobs@.len() == old(self).jobs@.len()
                &&& forall|i: int|
                    0 <= i < old(self).jobs@.len() ==> #[trigger] final(self).jobs@[i]
                        == without_logs(old(self).jobs@[i], log_dir@)
            },
    {
        if self.query_only {
            return Err(StoreError::ReadOnly);
        }
        let ghost before = self.jobs@;
        let ghost rest = *self;
        let mut n: usize = 0;
        let total = self.jobs.len();
        for i in 0..total
            invariant
                total == before.len(),
                *self == (Store { jobs: self.jobs, ..rest }),
                self.jobs@.len() == before.len(),
                n <= i,
                n == before.take(i as int).filter(logs_at(log_dir@)).len(),
                forall|j: int|
                    0 <= j < i ==> #[trigger] self.jobs@[j] == without_logs(before[j], log_dir@),
                forall|j: int| i <= j < before.len() ==> #[trigger] self.jobs@[j] == before[j],
        {
            proof {
                order::lemma_filter_step(before, logs_at(log_dir@), i as int);
            }
            if text::holds(&self.jobs[i].log_dir, log_dir) {
                let mut job = self.jobs[i].clone();
                job.log_dir = None;
                self.jobs.set(i, job);
                n = n + 1;
            }
        }
        assert(before.take(before.len() as int) =~= before);
        assert(forall|i: int| 0 <= i < before.len() ==> (#[trigger] self.jobs@[i]).gh_job_id
            == before[i].gh_job_id);
        Ok(n)
    }

    /// Forgets a job's kept workspace; says how many jobs that were.
    pub fn clear_kept_image(&mut self, gh_job_id: i64) -> (r: Result<usize, StoreError>)
        requires
            old(self).well_formed(),
        ensures
            final(self).well_formed(),
            *final(self) == (Store { jobs: final(self).jobs, ..*old(self) }),
            old(self).query_only ==> r == Err::<usize, StoreError>(StoreError::ReadOnly)
                && final(self).jobs == old(self).jobs,
            !old(self).query_only ==> {
                &&& r == Ok::<usize, StoreError>(
                    if knows(old(self).jobs@, gh_job_id) {
                        1
                    } else {
                        0
                    },
                )
                &&& final(self).jobs@.len() == old(self).jobs@.len()
                &&& forall|i: int|
                    0 <= i < old(self).jobs@.len() ==> #[trigger] final(self).jobs@[i] == if old(
                        self,
                    ).jobs@[i].gh_job_id == gh_job_id {
                        Job { kept_image: None, kept_image_runtime: None, ..old(self).jobs@[i] }
                    } else {
                        old(self).jobs@[i]
                    }
            },
    {
        if self.query_only {
            return Err(StoreError::ReadOnly);
        }
        let p = self.position(gh_job_id);
        if p < self.jobs.len() {
            assert(forall|i: int| p < i < self.jobs@.len() ==> self.jobs@[p as int].gh_job_id < (
            #[trigger] self.jobs@[i]).gh_job_id);
        }
        if p < self.jobs.len() && self.jobs[p].gh_job_id == gh_job_id {
            let mut job = self.jobs[p].clone();
            job.kept_image = None;
            job.kept_image_runtime = None;
            self.jobs.set(p, job);
            Ok(1)
        } else {
            Ok(0)
        }
    }

    /// Refers a job without captured logs to a directory; says how many jobs
    /// that were.
    pub fn repair_log_dir(&mut self, gh_job_id: i64, log_dir: &str) -> (r: Result<
        usize,
        StoreError,
    >)
        requires
            old(self).well_formed(),
        ensures
            final(self).well_formed(),
            *final(self) == (Store { jobs: final(self).jobs, ..*old(self) }),
            old(self).query_only ==> r == Err::<usize, StoreError>(StoreError::ReadOnly)
                && final(self).jobs == old(self).jobs,
            !old(self).query_only ==> {
                &&& r == Ok::<usize, StoreError>(
                    if lacks_logs(old(self).jobs@, gh_job_id) {
                        1
                    } else {
                        0
                    },
                )
                &&& final(self).jobs@.len() == old(self).jobs@.len()
                &&& forall|i: int|
                    0 <= i < old(self).jobs@.len() ==> logs_repaired(
                        #[trigger] final(self).jobs@[i],
                        old(self).jobs@[i],
                        gh_job_id,
                        log_dir@,
                    )
            },
    {
        if self.query_only {
            return Err(StoreError::ReadOnly);
        }
        let p = self.position(gh_job_id);
        if p < self.jobs.len() {
            assert(forall|i: int| p < i < self.jobs@.len() ==> self.jobs@[p as int].gh_job_id < (
            #[trigger] self.jobs@[i]).gh_job_id);
        }
        if p < self.jobs.len() && self.jobs[p].gh_job_id == gh_job_id
            && self.jobs[p].log_dir.is_none() {
            let mut job = self.jobs[p].clone();
            job.log_dir = Some(log_dir.to_string());
            self.jobs.set(p, job);
            Ok(1)
        } else {
            Ok(0)
        }
    }

    /// Refers a job without a kept workspace to an image; says how many jobs
    /// that were.
    pub fn repair_kept_image(&mut self, gh_job_id: i64, tag: &str, runtime: &str) -> (r: Result<
        usize,
        StoreError,
    >)
        requires
            old(self).well_formed(),
        ensures
            final(self).well_formed(),
            *final(self) == (Store { jobs: final(self).jobs, ..*old(self) }),
            old(self).query_only ==> r == Err::<usize, StoreError>(StoreError::ReadOnly)
                && final(self).jobs == old(self).jobs,
            !old(self).query_only ==> {
                &&& r == Ok::<usize, StoreError>(
                    if lacks_image(old(self).jobs@, gh_job_id) {
                        1
                    } else {
                        0
                    },
                )
                &&& final(self).jobs@.len() == old(self).jobs@.len()
                &&& forall|i: int|
                    0 <= i < old(self).jobs@.len() ==> image_repaired(
                        #[trigger] final(self).jobs@[i],
                        old(self).jobs@[i],
                        gh_job_id,
                        tag@,
                        runtime@,
                    )
            },
    {
        if self.query_only {
            return Err(StoreError::ReadOnly);
        }
        let p = self.position(gh_job_id);
        if p < self.jobs.len() {
            assert(forall|i: int| p < i < self.jobs@.len() ==> self.jobs@[p as int].gh_job_id < (
            #[trigger] self.jobs@[i]).gh_job_id);
        }
        if p < self.jobs.len() && self.jobs[p].gh_job_id == gh_job_id
            && self.jobs[p].kept_image.is_none() {
            let mut job = self.jobs[p].clone();
            job.kept_image = Some(tag.to_string());
            job.kept_image_runtime = Some(runtime.to_string());
            self.jobs.set(p, job);
            Ok(1)
        } else {
            Ok(0)
        }
    }
}

impl Store {
    /// Forgets the jobs that completed more than `older_than_s` seconds ago
    /// and of which nothing is retained; says how many they were.
    pub fn prune_jobs(&mut self, older_than_s: u128, now: i64) -> (r: Result<usize, StoreError>)
        requires
            old(self).well_formed(),
        ensures
            final(self).well_formed(),
            *final(self) == (Store { jobs: final(self).jobs, ..*old(self) }),
            old(self).query_only ==> r == Err::<usize, StoreError>(StoreError::ReadOnly)
                && final(self).jobs == old(self).jobs,
            !old(self).query_only ==> {
                let cutoff = clock::ago(now, older_than_s);
                &&& r matches Ok(n) && n == old(self).jobs@.filter(prunable_job(cutoff)).len()
                &&& final(self).jobs@ == old(self).jobs@.filter(retained_job(cutoff))
            },
    {
        if self.query_only {
            return Err(StoreError::ReadOnly);
        }
        let ghost cutoff = clock::ago(now, older_than_s);
        let ghost before = self.jobs@;
        let mut kept: Vec<Job> = Vec::new();
        let mut n: usize = 0;
        for i in 0..self.jobs.len()
            invariant
                before == self.jobs@,
                cutoff == clock::ago(now, older_than_s),
                n <= i,
                n == before.take(i as int).filter(prunable_job(cutoff)).len(),
                kept@ == before.take(i as int).filter(retained_job(cutoff)),
        {
            proof {
                order::lemma_filter_step(before, prunable_job(cutoff), i as int);
                order::lemma_filter_step(before, retained_job(cutoff), i as int);
            }
            let job = &self.jobs[i];
            let expired = match job.completed_at {
                Some(ts) => clock::older(ts, now, older_than_s),
                None => false,
            };
            if expired && job.log_dir.is_none() && job.kept_image.is_none() {
                n = n + 1;
            } else {
                kept.push(job.clone());
            }
        }
        assert(before.take(before.len() as int) =~= before);
        proof {
            lemma_filter_ascends(before, retained_job(cutoff));
        }
        self.jobs = kept;
        Ok(n)
    }

    /// How many jobs `prune_jobs` would forget.
    pub fn count_prunable_jobs(&self, older_than_s: u128, now: i64) -> (r: usize)
        ensures
            r == self.jobs@.filter(prunable_job(clock::ago(now, older_than_s))).len(),
    {
        let ghost p = prunable_job(clock::ago(now, older_than_s));
        let mut n: usize = 0;
        for i in 0..self.jobs.len()
            invariant
                p == prunable_job(clock::ago(now, older_than_s)),
                n <= i,
                n == self.jobs@.take(i as int).filter(p).len(),
        {
            proof {
                order::lemma_filter_step(self.jobs@, p, i as int);
            }
            let job = &self.jobs[i];
            let expired = match job.completed_at {
                Some(ts) => clock::older(ts, now, older_than_s),
                None => false,
            };
            if expired && job.log_dir.is_none() && job.kept_image.is_none() {
                n = n + 1;
            }
        }
        assert(self.jobs@.take(self.jobs@.len() as int) =~= self.jobs@);
        n
    }

    /// Forgets the events of more than `older_than_s` seconds ago; says how
    /// many they were.
    pub fn prune_events(&mut self, older_than_s: u128, now: i64) -> (r: Result<usize, StoreError>)
        requires
            old(self).well_formed(),
        ensures
            final(self).well_formed(),
            *final(self) == (Store { events: final(self).events, ..*old(self) }),
            old(self).query_only ==> r == Err::<usize, StoreError>(StoreError::ReadOnly)
                && final(self).events == old(self).events,
            !old(self).query_only ==> {
                let cutoff = clock::ago(now, older_than_s);
                &&& r matches Ok(n) && n == old(self).events@.filter(prunable_event(cutoff)).len()
                &&& final(self).events@ == old(self).events@.filter(retained_event(cutoff))
            },
    {
        if self.query_only {
            return Err(StoreError::ReadOnly);
        }
        let ghost cutoff = clock::ago(now, older_than_s);
        let ghost before = self.events@;
        let mut kept: Vec<Event> = Vec::new();
        let mut n: usize = 0;
        for i in 0..self.events.len()
            invariant
                before == self.events@,
                cutoff == clock::ago(now, older_than_s),
                n <= i,
                n == before.take(i as int).filter(prunable_event(cutoff)).len(),
                kept@ == before.take(i as int).filter(retained_event(cutoff)),
        {
            proof {
                order::lemma_filter_step(before, prunable_event(cutoff), i as int);
                order::lemma_filter_step(before, retained_event(cutoff), i as int);
            }
            if clock::older(self.events[i].ts, now, older_than_s) {
                n = n + 1;
            } else {
                kept.push(self.events[i].clone());
            }
        }
        assert(before.take(before.len() as int) =~= before);
        self.events = kept;
        Ok(n)
    }

    /// How many events `prune_events` would forget.
    pub fn count_prunable_events(&self, older_than_s: u128, now: i64) -> (r: usize)
        ensures
            r == self.events@.filter(prunable_event(clock::ago(now, older_than_s))).len(),
    {
        let ghost p = prunable_event(clock::ago(now, older_than_s));
        let mut n: usize = 0;
        for i in 0..self.events.len()
            invariant
                p == prunable_event(clock::ago(now, older_than_s)),
                n <= i,
                n == self.events@.take(i as int).filter(p).len(),
        {
            proof {
                order::lemma_filter_step(self.events@, p, i as int);
            }
            if clock::older(self.events[i].ts, now, older_than_s) {
                n = n + 1;
            }
        }
        assert(self.events@.take(self.events@.len() as int) =~= self.events@);
        n
    }

    /// Records that something happened.
    pub fn event(&mut self, level: &str, source: &str, msg: &str, now: i64)
        requires
            old(self).well_formed(),
        ensures
            final(self).well_formed(),
            event_recorded(*final(self), *old(self), level@, source@, msg@, now),
    {
        if self.query_only {
            return ;
        }
        self.events.push(
            Event {
                ts: now,
                level: level.to_string(),
                source: source.to_string(),
                msg: msg.to_string(),
            },
        );
    }

    /// What the journal holds of every job's artifacts, oldest job first.
    pub fn artifact_records(&self) -> (r: Vec<ArtifactRecord>)
        ensures
            artifacts_of(r@, self.jobs@),
    {
        let mut keys: Vec<i128> = Vec::new();
        for i in 0..self.jobs.len()
            invariant
                keys@ =~= oldest_keys(self.jobs@.take(i as int)),
        {
            let job = &self.jobs[i];
            let ts = if job.completed_at.is_some() {
                job.completed_at
            } else {
                job.started_at
            };
            keys.push(key_of(ts));
        }
        assert(self.jobs@.take(self.jobs@.len() as int) =~= self.jobs@);
        let at = order::ascending(&keys);
        let mut r: Vec<ArtifactRecord> = Vec::new();
        for i in 0..at.len()
            invariant
                at@.len() == self.jobs@.len(),
                forall|k: int| 0 <= k < at@.len() ==> #[trigger] at@[k] < self.jobs@.len(),
                r@.len() == i,
                forall|k: int|
                    0 <= k < i ==> is_artifact_record(#[trigger] r@[k], self.jobs@[at@[k] as int]),
        {
            let job = &self.jobs[at[i]];
            r.push(
                ArtifactRecord {
                    job_id: job.gh_job_id,
                    completed_at: job.completed_at,
                    log_dir: text::clone_opt(&job.log_dir),
                    kept_image: text::clone_opt(&job.kept_image),
                    kept_image_runtime: text::clone_opt(&job.kept_image_runtime),
                },
            );
        }
        assert(order::is_ascending(oldest_keys(self.jobs@), at@));
        r
    }

    /// The jobs with a kept workspace and their images, oldest job first.
    pub fn kept_images(&self) -> (r: Vec<(i64, String)>)
        ensures
            exists|records: Seq<ArtifactRecord>| #[trigger]
                artifacts_of(records, self.jobs@) && r@ == kept_among(records),
    {
        let records = self.artifact_records();
        let mut r: Vec<(i64, String)> = Vec::new();
        for i in 0..records.len()
            invariant
                r@ == kept_among(records@.take(i as int)),
        {
            assert(records@.take(i + 1).drop_last() =~= records@.take(i as int));
            if let Some(tag) = &records[i].kept_image {
                r.push((records[i].job_id, tag.clone()));
            }
        }
        assert(records@.take(records@.len() as int) =~= records@);
        assert(artifacts_of(records@, self.jobs@));
        r
    }

    /// The job of an id.
    pub fn job(&self, gh_job_id: i64) -> (r: Option<Job>)
        requires
            self.well_formed(),
        ensures
            match r {
                Some(j) => j.gh_job_id == gh_job_id && self.jobs@.contains(j),
                None => !knows(self.jobs@, gh_job_id),
            },
    {
        let p = self.position(gh_job_id);
        if p < self.jobs.len() {
            assert(forall|i: int| p < i < self.jobs@.len() ==> self.jobs@[p as int].gh_job_id < (
            #[trigger] self.jobs@[i]).gh_job_id);
            if self.jobs[p].gh_job_id == gh_job_id {
                let job = self.jobs[p].clone();
                assert(self.jobs@[p as int] == job);
                return Some(job);
            }
        }
        None
    }

    /// The most recent job, or the most recent one that failed.
    pub fn latest_job(&self, failed_only: bool) -> (r: Option<Job>)
        ensures
            newest_first(
                match r {
                    Some(j) => seq![j],
                    None => Seq::empty(),
                },
                self.jobs@.filter(
                    if failed_only {
                        failed_job()
                    } else {
                        any_job()
                    },
                ),
                1,
            ),
    {
        let ghost p = if failed_only {
            failed_job()
        } else {
            any_job()
        };
        let mut found: Vec<Job> = Vec::new();
        for i in 0..self.jobs.len()
            invariant
                p == if failed_only {
                    failed_job()
                } else {
                    any_job()
                },
                found@ == self.jobs@.take(i as int).filter(p),
        {
            proof {
                order::lemma_filter_step(self.jobs@, p, i as int);
            }
            if !failed_only || text::holds(&self.jobs[i].conclusion, "failure") {
                found.push(self.jobs[i].clone());
            }
        }
        assert(self.jobs@.take(self.jobs@.len() as int) =~= self.jobs@);
        let mut first = newest(&found, 1);
        let ghost listed = first@;
        match first.pop() {
            Some(j) => {
                assert(seq![j] =~= listed);
                Some(j)
            },
            None => {
                assert(listed =~= Seq::<Job>::empty());
                None
            },
        }
    }

    /// The `limit` most recent jobs, newest first.
    pub fn recent_jobs(&self, limit: u32) -> (r: Vec<Job>)
        ensures
            newest_first(r@, self.jobs@, limit as nat),
    {
        newest(&self.jobs, limit as usize)
    }

    /// The `limit` most recent jobs with captured logs, newest first.
    pub fn jobs_with_logs(&self, limit: u32) -> (r: Vec<Job>)
        ensures
            newest_first(r@, self.jobs@.filter(logged_job()), limit as nat),
    {
        let mut found: Vec<Job> = Vec::new();
        for i in 0..self.jobs.len()
            invariant
                found@ == self.jobs@.take(i as int).filter(logged_job()),
        {
            proof {
                order::lemma_filter_step(self.jobs@, logged_job(), i as int);
            }
            if self.jobs[i].log_dir.is_some() {
                found.push(self.jobs[i].clone());
            }
        }
        assert(self.jobs@.take(self.jobs@.len() as int) =~= self.jobs@);
        newest(&found, limit as usize)
    }

    /// Every completed job that agrees with a filter, the latest to complete first.
    pub fn filtered_jobs(&self, filter: &JobFilter<'_>) -> (r: Vec<Job>)
        ensures
            latest_completed(r@, self.jobs@.filter(passes(*filter))),
    {
        let ghost p = passes(*filter);
        let mut found: Vec<Job> = Vec::new();
        let mut keys: Vec<i128> = Vec::new();
        for i in 0..self.jobs.len()
            invariant
                p == passes(*filter),
                found@ == self.jobs@.take(i as int).filter(p),
                keys@ =~= completion_keys(found@),
        {
            proof {
                order::lemma_filter_step(self.jobs@, p, i as int);
            }
            let job = &self.jobs[i];
            let repo_agrees = match filter.repo {
                Some(repo) => text::same_str(repo, job.repo.as_str()),
                None => true,
            };
            let late_enough = match filter.completed_after {
                Some(after) => match job.completed_at {
                    Some(ts) => ts >= after,
                    None => false,
                },
                None => true,
            };
            if job.conclusion.is_some() && repo_agrees && agrees(filter.workflow, &job.workflow)
                && agrees(filter.job_name, &job.job_name) && late_enough {
                keys.push(-key_of(job.completed_at));
                found.push(job.clone());
            }
        }
        assert(self.jobs@.take(self.jobs@.len() as int) =~= self.jobs@);
        let at = order::ascending(&keys);
        let r = pick_jobs(&found, &at, found.len());
        assert(order::is_ascending(completion_keys(found@), at@));
        r
    }

    /// The `limit` most recent events, newest first.
    pub fn recent_events(&self, limit: u32) -> (r: Vec<Event>)
        ensures
            newest_events(r@, self.events@, limit as nat),
    {
        let mut keys: Vec<i128> = Vec::new();
        for i in 0..self.events.len()
            invariant
                keys@ =~= event_keys(self.events@.take(i as int)),
        {
            keys.push(-key_of(Some(self.events[i].ts)));
        }
        assert(self.events@.take(self.events@.len() as int) =~= self.events@);
        let at = order::ascending(&keys);
        let mut r: Vec<Event> = Vec::new();
        while r.len() < at.len() && r.len() < limit as usize
            invariant
                at@.len() == self.events@.len(),
                forall|i: int| 0 <= i < at@.len() ==> #[trigger] at@[i] < self.events@.len(),
                r@.len() <= at@.len(),
                r@.len() <= limit,
                forall|i: int| 0 <= i < r@.len() ==> #[trigger] r@[i] == self.events@[at@[i] as int],
            decreases at@.len() - r@.len(),
        {
            let e = self.events[at[r.len()]].clone();
            r.push(e);
        }
        assert(order::is_ascending(event_keys(self.events@), at@));
        r
    }

    /// The layer caches that the journal knows.
    pub fn docker_cache_records(&self) -> (r: Vec<DockerCacheRecord>)
        ensures
            r@ == self.docker_caches@,
    {
        let mut r: Vec<DockerCacheRecord> = Vec::new();
        for i in 0..self.docker_caches.len()
            invariant
                r@ =~= self.docker_caches@.take(i as int),
        {
            r.push(self.docker_caches[i].clone());
        }
        assert(self.docker_caches@.take(self.docker_caches@.len() as int) =~= self.docker_caches@);
        r
    }

    /// Records that a layer cache is used now, by its name.
    pub fn touch_docker_cache(&mut self, name: &str, repo: &str, slot: u32, now: i64)
        requires
            old(self).well_formed(),
        ensures
            final(self).well_formed(),
            *final(self) == (Store { docker_caches: final(self).docker_caches, ..*old(self) }),
            old(self).query_only ==> final(self).docker_caches == old(self).docker_caches,
            !old(self).query_only ==> exists|p: int|
                #[trigger] cache_touched(
                    final(self).docker_caches@,
                    old(self).docker_caches@,
                    p,
                    name@,
                    repo@,
                    slot,
                    now,
                ),
    {
        if self.query_only {
            return ;
        }
        let ghost before = self.docker_caches@;
        let row = DockerCacheRecord {
            name: name.to_string(),
            repo: repo.to_string(),
            slot,
            last_used: now,
        };
        let mut p: usize = 0;
        while p < self.docker_caches.len() && !text::same_str(
            self.docker_caches[p].name.as_str(),
            name,
        )
            invariant
                p <= self.docker_caches@.len(),
                forall|i: int| 0 <= i < p ==> (#[trigger] self.docker_caches@[i]).name@ != name@,
            decreases self.docker_caches@.len() - p,
        {
            p = p + 1;
        }
        if p < self.docker_caches.len() {
            self.docker_caches.set(p, row);
            assert(self.docker_caches@ =~= before.update(p as int, row));
        } else {
            self.docker_caches.push(row);
        }
        assert(cache_touched(self.docker_caches@, before, p as int, name@, repo@, slot, now));
    }

    /// Forgets a layer cache; says how many caches that were.
    pub fn forget_docker_cache(&mut self, name: &str) -> (r: Result<usize, StoreError>)
        requires
            old(self).well_formed(),
        ensures
            final(self).well_formed(),
            *final(self) == (Store { docker_caches: final(self).docker_caches, ..*old(self) }),
            old(self).query_only ==> r == Err::<usize, StoreError>(StoreError::ReadOnly)
                && final(self).docker_caches == old(self).docker_caches,
            !old(self).query_only ==> {
                let caches = old(self).docker_caches@;
                &&& final(self).docker_caches@ == caches.filter(cache_other_than(name@))
                &&& r matches Ok(n) && n == caches.len() - final(self).docker_caches@.len()
            },
    {
        if self.query_only {
            return Err(StoreError::ReadOnly);
        }
        let ghost before = self.docker_caches@;
        let ghost p = cache_other_than(name@);
        let mut kept: Vec<DockerCacheRecord> = Vec::new();
        let mut n: usize = 0;
        for i in 0..self.docker_caches.len()
            invariant
                before == self.docker_caches@,
                p == cache_other_than(name@),
                n <= i,
                kept@ == before.take(i as int).filter(p),
                n + kept@.len() == i,
        {
            proof {
                order::lemma_filter_step(before, p, i as int);
            }
            if text::same_str(self.docker_caches[i].name.as_str(), name) {
                n = n + 1;
            } else {
                kept.push(self.docker_caches[i].clone());
            }
        }
        assert(before.take(before.len() as int) =~= before);
        proof {
            lemma_filter_distinct(before, p);
        }
        self.docker_caches = kept;
        Ok(n)
    }
}

// -- what the journal keeps -----------------------------------------------------

proof fn lemma_filter_ascends(jobs: Seq<Job>, p: spec_fn(Job) -> bool)
    requires
        ids_ascend(jobs),
    ensures
        ids_ascend(jobs.filter(p)),
    decreases jobs.len(),
{
    reveal(Seq::filter);
    if jobs.len() > 0 {
        let rest = jobs.drop_last();
        lemma_filter_ascends(rest, p);
        assert forall|i: int| 0 <= i < rest.filter(p).len() implies (#[trigger] rest.filter(
            p,
        )[i]).gh_job_id < jobs.last().gh_job_id by {
            rest.lemma_filter_contains_rev(p, rest.filter(p)[i]);
            let k = choose|k: int| 0 <= k < rest.len() && rest[k] == rest.filter(p)[i];
            assert(jobs[k].gh_job_id < jobs[jobs.len() - 1].gh_job_id);
        }
    }
}

proof fn lemma_filter_distinct(caches: Seq<DockerCacheRecord>, p: spec_fn(DockerCacheRecord) -> bool)
    requires
        caches_distinct(caches),
    ensures
        caches_distinct(caches.filter(p)),
    decreases caches.len(),
{
    reveal(Seq::filter);
    if caches.len() > 0 {
        let rest = caches.drop_last();
        lemma_filter_distinct(rest, p);
        assert forall|i: int| 0 <= i < rest.filter(p).len() implies (#[trigger] rest.filter(
            p,
        )[i]).name@ != caches.last().name@ by {
            rest.lemma_filter_contains_rev(p, rest.filter(p)[i]);
            let k = choose|k: int| 0 <= k < rest.len() && rest[k] == rest.filter(p)[i];
            assert(caches[k].name@ != caches[caches.len() - 1].name@);
        }
    }
}

/// What is known of a job that started, of its artifacts, of what it took and
/// of its end is all read back.
pub open spec fn reads_back(
    j: Job,
    info: JobInfo,
    runner_name: Seq<char>,
    started_at: Option<i64>,
    log_dir: Seq<char>,
    kept_image: Seq<char>,
    runtime: Seq<char>,
    peak_mem_mb: u64,
    oom: bool,
    cpu_avg: Option<String>,
    cpu_peak: Option<String>,
    conclusion: Seq<char>,
    now: i64,
) -> bool {
    &&& restarted(j, j, info, runner_name, started_at)
    &&& text::opt_text(j.log_dir) == Some(log_dir)
    &&& text::opt_text(j.kept_image) == Some(kept_image)
    &&& text::opt_text(j.kept_image_runtime) == Some(runtime)
    &&& j.peak_mem_mb == Some(peak_mem_mb)
    &&& j.oom == Some(oom)
    &&& j.cpu_avg == cpu_avg
    &&& j.cpu_peak == cpu_peak
    &&& text::opt_text(j.conclusion) == Some(conclusion)
    &&& j.completed_at == Some(now)
}

/// A job that is written down step by step (that it started, where its
/// artifacts are, what it took, how it ended) is read back whole, whatever the
/// journal knew before.
pub proof fn law_jobs_read_back_as_written(
    before: Store,
    started: Store,
    captured: Store,
    measured: Store,
    done: Store,
    id: i64,
    info: JobInfo,
    repo: Seq<char>,
    runner_name: Seq<char>,
    started_at: Option<i64>,
    log_dir: Seq<char>,
    kept_image: Seq<char>,
    runtime: Seq<char>,
    peak_mem_mb: u64,
    oom: bool,
    cpu_avg: Option<String>,
    cpu_peak: Option<String>,
    conclusion: Seq<char>,
    now: i64,
)
    requires
        before.well_formed(),
        !before.query_only,
        info.job_id == Some(id),
        start_recorded(started, before, info, repo, runner_name, started_at),
        artifacts_recorded(
            captured,
            started,
            id,
            Some(log_dir),
            Some(kept_image),
            Some(runtime),
        ),
        resources_recorded(measured, captured, id, peak_mem_mb, oom, cpu_avg, cpu_peak),
        conclusion_recorded(done, measured, id, conclusion, now),
    ensures
        knows(done.jobs@, id),
        forall|i: int|
            0 <= i < done.jobs@.len() && (#[trigger] done.jobs@[i]).gh_job_id == id ==> reads_back(
                done.jobs@[i],
                info,
                runner_name,
                started_at,
                log_dir,
                kept_image,
                runtime,
                peak_mem_mb,
                oom,
                cpu_avg,
                cpu_peak,
                conclusion,
                now,
            ),
{
    let p = choose|p: int|
        #[trigger] start_at(
            started.jobs@,
            before.jobs@,
            p,
            id as int,
            info,
            repo,
            runner_name,
            started_at,
        );
    let old = before.jobs@;
    let new = started.jobs@;
    assert(0 <= p < new.len() && new[p].gh_job_id == id);
    assert forall|i: int| 0 <= i < new.len() && (#[trigger] new[i]).gh_job_id == id implies i
        == p by {
        if 0 <= p < old.len() && old[p].gh_job_id == id {
            if i < p {
                assert(old[i].gh_job_id < old[p].gh_job_id);
            } else if p < i {
                assert(old[p].gh_job_id < old[i].gh_job_id);
            }
        } else if i < p {
            assert(new[i] == old[i]);
        } else if p < i {
            assert(new[i] == old[i - 1]);
        }
    }
    assert(captured.jobs@[p].gh_job_id == id);
    assert(measured.jobs@[p].gh_job_id == id);
    assert(done.jobs@[p].gh_job_id == id);
    assert forall|i: int| 0 <= i < done.jobs@.len() && i != p implies (#[trigger] done.jobs@[i]).gh_job_id
        != id by {
        assert(new[i].gh_job_id != id);
        assert(captured.jobs@[i] == new[i]);
        assert(measured.jobs@[i] == new[i]);
    }
}

/// A journal that was opened for reading only is never written to.
pub proof fn law_readonly_journals_stay_as_they_are(
    old: Store,
    new: Store,
    info: JobInfo,
    repo: Seq<char>,
    runner: Seq<char>,
    started_at: Option<i64>,
    id: i64,
    conclusion: Seq<char>,
    now: i64,
    level: Seq<char>,
    source: Seq<char>,
    msg: Seq<char>,
)
    requires
        old.query_only,
        start_recorded(new, old, info, repo, runner, started_at) || conclusion_recorded(
            new,
            old,
            id,
            conclusion,
            now,
        ) || event_recorded(new, old, level, source, msg, now),
    ensures
        new.jobs@ == old.jobs@,
        new.events@ == old.events@,
        new.runners@ == old.runners@,
        new.docker_caches@ == old.docker_caches@,
        new.query_only,
{
    if conclusion_recorded(new, old, id, conclusion, now) {
        assert(new.jobs@ =~= old.jobs@);
    }
}

/// Pruning forgets no job of which logs or a workspace are retained, and none
/// that has not completed.
pub proof fn law_pruning_keeps_jobs_with_artifacts(jobs: Seq<Job>, cutoff: int, j: Job)
    requires
        jobs.contains(j),
        j.log_dir is Some || j.kept_image is Some || j.completed_at is None,
    ensures
        jobs.filter(retained_job(cutoff)).contains(j),
{
    let k = choose|k: int| 0 <= k < jobs.len() && jobs[k] == j;
    assert(retained_job(cutoff)(jobs[k]));
    jobs.lemma_filter_contains(retained_job(cutoff), k);
}

/// What pruning would forget and what it keeps together are all jobs.
pub proof fn law_pruned_and_kept_jobs_add_up(jobs: Seq<Job>, cutoff: int)
    ensures
        jobs.filter(prunable_job(cutoff)).len() + jobs.filter(retained_job(cutoff)).len()
            == jobs.len(),
    decreases jobs.len(),
{
    reveal(Seq::filter);
    if jobs.len() > 0 {
        law_pruned_and_kept_jobs_add_up(jobs.drop_last(), cutoff);
    }
}

/// Pruning twice in a row, at the same cutoff, forgets nothing more.
pub proof fn law_pruning_again_forgets_nothing(jobs: Seq<Job>, cutoff: int)
    ensures
        jobs.filter(retained_job(cutoff)).filter(retained_job(cutoff)) == jobs.filter(
            retained_job(cutoff),
        ),
    decreases jobs.len(),
{
    reveal(Seq::filter);
    let p = retained_job(cutoff);
    if jobs.len() > 0 {
        law_pruning_again_forgets_nothing(jobs.drop_last(), cutoff);
        let kept = jobs.drop_last().filter(p);
        if p(jobs.last()) {
            assert(kept.push(jobs.last()).drop_last() =~= kept);
        }
    }
}

/// A job's logs, once forgotten, are referred to nowhere.
pub proof fn law_cleared_logs_are_not_referred_to(j: Job, dir: Seq<char>)
    ensures
        !logs_at(dir)(without_logs(j, dir)),
{
}

/// A list of jobs, newest first, never lists an older job before a newer one.
pub proof fn law_newest_first_descends(r: Seq<Job>, jobs: Seq<Job>, limit: nat, a: int, b: int)
    requires
        newest_first(r, jobs, limit),
        0 <= a < b < r.len(),
    ensures
        match (recency(r[a]), recency(r[b])) {
            (Some(x), Some(y)) => x >= y,
            (None, Some(_)) => false,
            _ => true,
        },
{
    let at = choose|at: Seq<usize>|
        {
            &&& #[trigger] order::is_ascending(newest_keys(jobs), at)
            &&& r.len() == if limit < jobs.len() {
                limit
            } else {
                jobs.len()
            }
            &&& forall|i: int| 0 <= i < r.len() ==> #[trigger] r[i] == jobs[at[i] as int]
        };
    assert(order::before(newest_keys(jobs), at[a] as int, at[b] as int));
    assert(r[a] == jobs[at[a] as int] && r[b] == jobs[at[b] as int]);
}

} // verus!

//! Questions about captured jobs, answered from the journal and the captured
//! runner diagnostics.

use crate::number;
use crate::order;
use crate::paths;
use crate::store;
use crate::store::Job;
use crate::store::Store;
use crate::text;
use vstd::prelude::*;

verus! {

// -- captured diagnostics -------------------------------------------------------

/// A file that was captured: its name and what it holds.
#[derive(Debug)]
pub struct CapturedFile {
    pub name: String,
    pub contents: String,
}

impl CapturedFile {
    pub open spec fn view(&self) -> (Seq<char>, Seq<char>) {
        (self.name@, self.contents@)
    }
}

/// The runner diagnostics that were captured for one job: the files of the
/// directory `diag` below its log directory.
#[derive(Debug)]
pub struct Capture {
    pub log_dir: String,
    pub files: Vec<CapturedFile>,
}

/// The captured diagnostics that are at hand.
#[derive(Debug)]
pub struct Archive {
    pub captures: Vec<Capture>,
}

pub open spec fn file_views(files: Seq<CapturedFile>) -> Seq<(Seq<char>, Seq<char>)> {
    files.map_values(|f: CapturedFile| f@)
}

impl Archive {
    /// The files captured in a log directory, if there is one.
    pub open spec fn files_in(self, log_dir: Seq<char>) -> Option<Seq<(Seq<char>, Seq<char>)>> {
        files_among(self.captures@, log_dir)
    }
}

/// The files of the first capture of a log directory.
pub open spec fn files_among(captures: Seq<Capture>, log_dir: Seq<char>) -> Option<
    Seq<(Seq<char>, Seq<char>)>,
>
    decreases captures.len(),
{
    if captures.len() == 0 {
        None
    } else if captures[0].log_dir@ == log_dir {
        Some(file_views(captures[0].files@))
    } else {
        files_among(captures.drop_first(), log_dir)
    }
}

/// Why a question has no answer.
#[derive(Debug, PartialEq)]
pub enum AgentError {
    NoFailedJobs,
    NoJobs,
    BadJobSpec,
    NoSuchJob { id: i64 },
    NoCapture,
    LogDirMissing { diag: String },
    NoWorkerLogs { diag: String },
}

impl AgentError {
    pub open spec fn spec_message(self) -> Seq<char> {
        match self {
            AgentError::NoFailedJobs => "no failed jobs recorded"@,
            AgentError::NoJobs => "no jobs recorded"@,
            AgentError::BadJobSpec => "job must be a numeric id, 'latest', or 'latest-failed'"@,
            AgentError::NoSuchJob { id } => "no job "@ + number::dec_int(id as int) + " recorded"@,
            AgentError::NoCapture =>
                "no captured logs for this job (it may predate log capture)"@,
            AgentError::LogDirMissing { diag } => "log dir missing: "@ + diag@,
            AgentError::NoWorkerLogs { diag } => "no Worker logs captured in "@ + diag@,
        }
    }

    pub fn message(&self) -> (r: String)
        ensures
            r@ == self.spec_message(),
    {
        let mut r = String::new();
        match self {
            AgentError::NoFailedJobs => r.append("no failed jobs recorded"),
            AgentError::NoJobs => r.append("no jobs recorded"),
            AgentError::BadJobSpec => r.append(
                "job must be a numeric id, 'latest', or 'latest-failed'",
            ),
            AgentError::NoSuchJob { id } => {
                r.append("no job ");
                r.append(number::integer_text(*id).as_str());
                r.append(" recorded");
            },
            AgentError::NoCapture => r.append(
                "no captured logs for this job (it may predate log capture)",
            ),
            AgentError::LogDirMissing { diag } => {
                r.append("log dir missing: ");
                r.append(diag.as_str());
            },
            AgentError::NoWorkerLogs { diag } => {
                r.append("no Worker logs captured in ");
                r.append(diag.as_str());
            },
        }
        assert(r@ =~= self.spec_message());
        r
    }
}

// -- which job -------------------------------------------------------------------

/// Which job is asked for.
#[derive(Debug, Clone, Copy, PartialEq, Eq, Structural)]
pub enum Wanted {
    Latest,
    LatestFailed,
    Id(i64),
    Unclear,
}

/// What "1234", "latest", "latest-failed" or nothing asks for.
pub open spec fn wanted(spec: Option<Seq<char>>, default_failed: bool) -> Wanted {
    match spec {
        None => if default_failed {
            Wanted::LatestFailed
        } else {
            Wanted::Latest
        },
        Some(s) => if s == "latest"@ {
            Wanted::Latest
        } else if s == "latest-failed"@ {
            Wanted::LatestFailed
        } else {
            match number::signed(s) {
                Some(id) => Wanted::Id(id as i64),
                None => Wanted::Unclear,
            }
        },
    }
}

/// `r` is the job that is asked for.
pub open spec fn resolved(r: Result<Job, AgentError>, jobs: Seq<Job>, w: Wanted) -> bool {
    match w {
        Wanted::Latest => match r {
            Ok(j) => store::newest_first(seq![j], jobs.filter(store::any_job()), 1),
            Err(e) => e == AgentError::NoJobs && jobs.filter(store::any_job()).len() == 0,
        },
        Wanted::LatestFailed => match r {
            Ok(j) => store::newest_first(seq![j], jobs.filter(store::failed_job()), 1),
            Err(e) => e == AgentError::NoFailedJobs && jobs.filter(store::failed_job()).len() == 0,
        },
        Wanted::Id(id) => match r {
            Ok(j) => j.gh_job_id == id && jobs.contains(j),
            Err(e) => e == (AgentError::NoSuchJob { id }) && !store::knows(jobs, id),
        },
        Wanted::Unclear => r == Err::<Job, AgentError>(AgentError::BadJobSpec),
    }
}

/// The job that "1234", "latest", "latest-failed" or nothing asks for.
pub fn resolve_job(store: &Store, spec: Option<&str>, default_failed: bool) -> (r: Result<
    Job,
    AgentError,
>)
    requires
        store.well_formed(),
    ensures
        resolved(r, store.jobs@, wanted(text::opt_str(spec), default_failed)),
{
    let w = match spec {
        None => if default_failed {
            Wanted::LatestFailed
        } else {
            Wanted::Latest
        },
        Some(s) => if text::same_str(s, "latest") {
            Wanted::Latest
        } else if text::same_str(s, "latest-failed") {
            Wanted::LatestFailed
        } else {
            match number::parse_i64(&text::chars(s)) {
                Some(id) => Wanted::Id(id),
                None => Wanted::Unclear,
            }
        },
    };
    assert(w == wanted(text::opt_str(spec), default_failed));
    match w {
        Wanted::Latest => match store.latest_job(false) {
            Some(j) => Ok(j),
            None => Err(AgentError::NoJobs),
        },
        Wanted::LatestFailed => match store.latest_job(true) {
            Some(j) => Ok(j),
            None => Err(AgentError::NoFailedJobs),
        },
        Wanted::Id(id) => match store.job(id) {
            Some(j) => Ok(j),
            None => Err(AgentError::NoSuchJob { id }),
        },
        Wanted::Unclear => Err(AgentError::BadJobSpec),
    }
}

/// A job that is found is one of those that are recorded.
pub proof fn law_resolved_jobs_are_recorded(r: Result<Job, AgentError>, jobs: Seq<Job>, w: Wanted)
    requires
        resolved(r, jobs, w),
    ensures
        r matches Ok(j) ==> jobs.contains(j),
{
    if let Ok(j) = r {
        let p = if w == Wanted::LatestFailed {
            store::failed_job()
        } else {
            store::any_job()
        };
        let found = jobs.filter(p);
        if !(w is Id) {
            let at = choose|at: Seq<usize>|
                #[trigger] order::is_ascending(store::newest_keys(found), at) && seq![j][0]
                    == found[at[0] as int];
            assert(seq![j][0] == j);
            assert(at.contains(at[0]));
            jobs.lemma_filter_contains_rev(p, j);
        }
    }
}

// -- worker logs -----------------------------------------------------------------

/// A runner's worker logs: they carry what each step did.
pub open spec fn is_worker(f: (Seq<char>, Seq<char>)) -> bool {
    "Worker_"@.is_prefix_of(f.0)
}

/// The first `n` files, each put after the ones whose names do not come after its own.
pub open spec fn placed(sorted: Seq<(Seq<char>, Seq<char>)>, f: (Seq<char>, Seq<char>)) -> Seq<
    (Seq<char>, Seq<char>),
>
    decreases sorted.len(),
{
    if sorted.len() == 0 || !text::text_lt(f.0, sorted.last().0) {
        sorted.push(f)
    } else {
        placed(sorted.drop_last(), f).push(sorted.last())
    }
}

/// The worker logs among some files, in the order of their names.
pub open spec fn worker_files(files: Seq<(Seq<char>, Seq<char>)>) -> Seq<(Seq<char>, Seq<char>)>
    decreases files.len(),
{
    if files.len() == 0 {
        Seq::empty()
    } else if is_worker(files.last()) {
        placed(worker_files(files.drop_last()), files.last())
    } else {
        worker_files(files.drop_last())
    }
}

/// What files hold, one directly after the other.
pub open spec fn contents(files: Seq<(Seq<char>, Seq<char>)>) -> Seq<char>
    decreases files.len(),
{
    if files.len() == 0 {
        Seq::empty()
    } else {
        contents(files.drop_last()) + files.last().1
    }
}

/// A job's worker log, or why there is none.
pub open spec fn worker_log(job: Job, archive: Archive) -> Result<Seq<char>, AgentError> {
    match job.log_dir {
        None => Err(AgentError::NoCapture),
        Some(dir) => match archive.files_in(dir@) {
            None => Err(AgentError::LogDirMissing { diag: dir }),
            Some(files) => if worker_files(files).len() == 0 {
                Err(AgentError::NoWorkerLogs { diag: dir })
            } else {
                Ok(contents(worker_files(files)))
            },
        },
    }
}

/// `r` is a job's worker log, or why there is none.
pub open spec fn log_read(r: Result<String, AgentError>, job: Job, archive: Archive) -> bool {
    match (r, worker_log(job, archive)) {
        (Ok(s), Ok(log)) => s@ == log,
        (Err(AgentError::NoCapture), Err(AgentError::NoCapture)) => true,
        (Err(AgentError::LogDirMissing { diag }), Err(AgentError::LogDirMissing { diag: dir })) =>
            diag@ == paths::joined(dir@, "diag"@),
        (Err(AgentError::NoWorkerLogs { diag }), Err(AgentError::NoWorkerLogs { diag: dir })) =>
            diag@ == paths::joined(dir@, "diag"@),
        _ => false,
    }
}

proof fn lemma_placed(sorted: Seq<(Seq<char>, Seq<char>)>, f: (Seq<char>, Seq<char>), p: int)
    requires
        0 <= p <= sorted.len(),
        p > 0 ==> !text::text_lt(f.0, sorted[p - 1].0),
        forall|i: int| p <= i < sorted.len() ==> text::text_lt(f.0, (#[trigger] sorted[i]).0),
    ensures
        placed(sorted, f) == sorted.insert(p, f),
    decreases sorted.len(),
{
    if p == sorted.len() {
        assert(sorted.insert(p, f) =~= sorted.push(f));
    } else {
        assert(text::text_lt(f.0, sorted[sorted.len() - 1].0));
        lemma_placed(sorted.drop_last(), f, p);
        assert(sorted.insert(p, f) =~= sorted.drop_last().insert(p, f).push(sorted.last()));
    }
}

fn find_capture(archive: &Archive, log_dir: &str) -> (r: Option<usize>)
    ensures
        match r {
            Some(i) => i < archive.captures@.len() && archive.files_in(log_dir@) == Some(
                file_views(archive.captures@[i as int].files@),
            ),
            None => archive.files_in(log_dir@) is None,
        },
{
    let ghost all = archive.captures@;
    assert(all.skip(0) =~= all);
    for i in 0..archive.captures.len()
        invariant
            all == archive.captures@,
            files_among(all, log_dir@) == files_among(all.skip(i as int), log_dir@),
    {
        assert(all.skip(i as int).drop_first() =~= all.skip(i + 1));
        if text::same_str(archive.captures[i].log_dir.as_str(), log_dir) {
            return Some(i);
        }
    }
    assert(all.skip(all.len() as int).len() == 0);
    None
}

/// The positions of the worker logs among `files`, in the order of their names.
fn worker_positions(files: &Vec<CapturedFile>) -> (r: Vec<usize>)
    ensures
        forall|i: int| 0 <= i < r@.len() ==> #[trigger] r@[i] < files@.len(),
        r@.map_values(|k: usize| files@[k as int]@) == worker_files(file_views(files@)),
{
    let ghost all = file_views(files@);
    let mut r: Vec<usize> = Vec::new();
    for n in 0..files.len()
        invariant
            all == file_views(files@),
            forall|i: int| 0 <= i < r@.len() ==> #[trigger] r@[i] < n,
            r@.map_values(|k: usize| files@[k as int]@) =~= worker_files(all.take(n as int)),
    {
        let ghost now = all.take(n + 1);
        assert(now.drop_last() =~= all.take(n as int));
        assert(now.last() == files@[n as int]@);
        let name = text::chars(files[n].name.as_str());
        if text::starts(&name, "Worker_") {
            let ghost sorted = worker_files(all.take(n as int));
            let mut p: usize = r.len();
            while p > 0 && text::comes_before(
                &name,
                &text::chars(files[r[p - 1]].name.as_str()),
            )
                invariant
                    n < files@.len(),
                    name@ == files@[n as int].name@,
                    p <= r@.len(),
                    forall|i: int| 0 <= i < r@.len() ==> #[trigger] r@[i] < n,
                    sorted == r@.map_values(|k: usize| files@[k as int]@),
                    forall|i: int|
                        p <= i < sorted.len() ==> text::text_lt(name@, (#[trigger] sorted[i]).0),
                decreases p,
            {
                p = p - 1;
                assert(sorted[p as int] == files@[r@[p as int] as int]@);
            }
            proof {
                if p > 0 {
                    assert(sorted[p - 1] == files@[r@[p - 1] as int]@);
                }
                lemma_placed(sorted, now.last(), p as int);
            }
            let ghost before = r@;
            r.insert(p, n);
            assert(r@ =~= before.insert(p as int, n));
            assert(r@.map_values(|k: usize| files@[k as int]@) =~= sorted.insert(
                p as int,
                now.last(),
            ));
        }
    }
    assert(all.take(all.len() as int) =~= all);
    r
}

/// A job's worker logs, one after the other in the order of their names.
pub fn read_worker_logs(job: &Job, archive: &Archive) -> (r: Result<String, AgentError>)
    ensures
        log_read(r, *job, *archive),
{
    let dir = match &job.log_dir {
        Some(dir) => dir,
        None => return Err(AgentError::NoCapture),
    };
    let at = match find_capture(archive, dir.as_str()) {
        Some(at) => at,
        None => return Err(AgentError::LogDirMissing { diag: paths::join(dir.as_str(), "diag") }),
    };
    let files = &archive.captures[at].files;
    let order = worker_positions(files);
    let ghost sorted = worker_files(file_views(files@));
    assert(sorted.len() == order@.len());
    if order.len() == 0 {
        return Err(AgentError::NoWorkerLogs { diag: paths::join(dir.as_str(), "diag") });
    }
    let mut out = String::new();
    for i in 0..order.len()
        invariant
            forall|k: int| 0 <= k < order@.len() ==> #[trigger] order@[k] < files@.len(),
            sorted == order@.map_values(|k: usize| files@[k as int]@),
            out@ == contents(sorted.take(i as int)),
    {
        out.append(files[order[i]].contents.as_str());
        assert(sorted.take(i + 1).drop_last() =~= sorted.take(i as int));
        assert(sorted.take(i + 1).last() == files@[order@[i as int] as int]@);
    }
    assert(sorted.take(sorted.len() as int) =~= sorted);
    Ok(out)
}

proof fn lemma_placed_sorted(sorted: Seq<(Seq<char>, Seq<char>)>, f: (Seq<char>, Seq<char>))
    requires
        forall|i: int, j: int|
            0 <= i < j < sorted.len() ==> !text::text_lt(#[trigger] sorted[j].0, #[trigger] sorted[i].0),
    ensures
        placed(sorted, f).to_multiset() == sorted.to_multiset().insert(f),
        forall|i: int, j: int|
            0 <= i < j < placed(sorted, f).len() ==> !text::text_lt(
                #[trigger] placed(sorted, f)[j].0,
                #[trigger] placed(sorted, f)[i].0,
            ),
    decreases sorted.len(),
{
    broadcast use vstd::seq_lib::group_to_multiset_ensures;

    if sorted.len() > 0 && text::text_lt(f.0, sorted.last().0) {
        let rest = sorted.drop_last();
        lemma_placed_sorted(rest, f);
        let last = sorted.last();
        assert(sorted =~= rest.push(last));
        let front = placed(rest, f);
        assert(front.to_multiset() == rest.to_multiset().insert(f));
        assert forall|i: int| 0 <= i < front.len() implies !text::text_lt(
            last.0,
            #[trigger] front[i].0,
        ) by {
            assert(front.contains(front[i]));
            assert(front.to_multiset().contains(front[i]));
            if front[i] != f {
                assert(rest.to_multiset().contains(front[i]));
                assert(rest.contains(front[i]));
                let k = choose|k: int| 0 <= k < rest.len() && rest[k] == front[i];
                assert(!text::text_lt(sorted[sorted.len() - 1].0, sorted[k].0));
            } else {
                if text::text_lt(last.0, f.0) {
                    text::lemma_text_lt_asymmetric(f.0, last.0);
                }
            }
        }
    } else if sorted.len() > 0 {
        assert forall|i: int| 0 <= i < sorted.len() implies !text::text_lt(
            f.0,
            #[trigger] sorted[i].0,
        ) by {
            let last = sorted[sorted.len() - 1];
            if i < sorted.len() - 1 && text::text_lt(f.0, sorted[i].0) {
                assert(!text::text_lt(last.0, sorted[i].0));
                text::lemma_text_lt_total(last.0, sorted[i].0);
                if last.0 != sorted[i].0 {
                    text::lemma_text_lt_transitive(f.0, sorted[i].0, last.0);
                }
            }
        }
    }
}

/// The worker logs that are read are exactly the captured ones, and no log is
/// read before one whose name comes before its own.
pub proof fn law_worker_logs_are_filtered_and_in_order(files: Seq<(Seq<char>, Seq<char>)>)
    ensures
        worker_files(files).to_multiset() == files.filter(
            |f: (Seq<char>, Seq<char>)| is_worker(f),
        ).to_multiset(),
        forall|i: int, j: int|
            0 <= i < j < worker_files(files).len() ==> !text::text_lt(
                #[trigger] worker_files(files)[j].0,
                #[trigger] worker_files(files)[i].0,
            ),
    decreases files.len(),
{
    broadcast use vstd::seq_lib::group_to_multiset_ensures;

    reveal(Seq::filter);
    if files.len() > 0 {
        law_worker_logs_are_filtered_and_in_order(files.drop_last());
        if is_worker(files.last()) {
            lemma_placed_sorted(worker_files(files.drop_last()), files.last());
        }
    }
}

// -- the interesting part of a log --------------------------------------------------

/// A line that says that something went wrong.
pub open spec fn is_marker(line: Seq<char>) -> bool {
    text::contains(line, "##[error"@) || text::contains(line, "Process completed with exit code"@)
}

/// The last line that says that something went wrong.
pub open spec fn last_marker(lines: Seq<Seq<char>>) -> Option<int>
    decreases lines.len(),
{
    if lines.len() == 0 {
        None
    } else if is_marker(lines.last()) {
        Some(lines.len() - 1)
    } else {
        last_marker(lines.drop_last())
    }
}

/// From which line up to which line an excerpt goes: thirty lines before the
/// last marker and nine after it, or the last forty lines where there is none.
pub open spec fn excerpt_range(lines: Seq<Seq<char>>) -> (int, int) {
    let n = lines.len() as int;
    match last_marker(lines) {
        Some(i) => (
            if i >= 30 {
                i - 30
            } else {
                0
            },
            if i + 10 <= n {
                i + 10
            } else {
                n
            },
        ),
        None => (
            if n >= 40 {
                n - 40
            } else {
                0
            },
            n,
        ),
    }
}

/// The interesting part of a failed job's log.
pub open spec fn excerpt(log: Seq<char>) -> Seq<char> {
    let lines = text::lines(log);
    let (from, to) = excerpt_range(lines);
    text::join(lines.subrange(from, to), "\n"@)
}

/// The interesting part of a failed job's log: what stands around the last
/// line that says that something went wrong, or the end of the log.
pub fn failure_excerpt(log: &str) -> (r: String)
    ensures
        r@ == excerpt(log@),
{
    let lines = text::to_lines(&text::chars(log));
    let ghost all = text::pieces(lines@);
    let n = lines.len();
    let mut k = n;
    assert(all.take(n as int) =~= all);
    while k > 0
        invariant_except_break
            all == text::pieces(lines@),
            n == lines@.len(),
            k <= n,
            last_marker(all) == last_marker(all.take(k as int)),
        ensures
            k <= n,
            match last_marker(all) {
                Some(i) => k > 0 && k == i + 1,
                None => k == 0,
            },
        decreases k,
    {
        assert(all.take(k as int).drop_last() =~= all.take(k - 1));
        assert(all.take(k as int).last() == lines@[k - 1]@);
        let line = lines[k - 1].as_slice();
        if text::has(line, "##[error") || text::has(line, "Process completed with exit code") {
            break ;
        }
        k = k - 1;
    }
    let (from, to) = if k > 0 {
        let i: usize = k - 1;
        (
            if i >= 30 {
                i - 30
            } else {
                0
            },
            if n - i >= 10 {
                i + 10
            } else {
                n
            },
        )
    } else {
        (
            if n >= 40 {
                n - 40
            } else {
                0
            },
            n,
        )
    };
    text::join_range(&lines, from, to, "\n")
}

/// An excerpt holds the last line that says that something went wrong, and at
/// most forty lines.
pub proof fn law_excerpts_hold_the_last_marker(lines: Seq<Seq<char>>)
    ensures
        0 <= excerpt_range(lines).0 <= excerpt_range(lines).1 <= lines.len(),
        excerpt_range(lines).1 - excerpt_range(lines).0 <= 40,
        match last_marker(lines) {
            Some(i) => {
                &&& excerpt_range(lines).0 <= i < excerpt_range(lines).1
                &&& is_marker(lines[i])
                &&& forall|j: int| i < j < lines.len() ==> !is_marker(#[trigger] lines[j])
            },
            None => forall|j: int| 0 <= j < lines.len() ==> !is_marker(#[trigger] lines[j]),
        },
    decreases lines.len(),
{
    if lines.len() > 0 && !is_marker(lines.last()) {
        law_excerpts_hold_the_last_marker(lines.drop_last());
        assert forall|j: int| 0 <= j < lines.len() && (match last_marker(lines) {
            Some(i) => i < j,
            None => true,
        }) implies !is_marker(#[trigger] lines[j]) by {
            if j < lines.len() - 1 {
                assert(lines.drop_last()[j] == lines[j]);
            }
        }
    }
}

// -- why a job failed ----------------------------------------------------------------

/// What is known of why a job failed.
#[derive(Debug)]
pub struct Digest {
    pub job: Job,
    pub excerpt: Option<String>,
    pub post_mortem: Option<String>,
}

/// How to look into the kept workspace of a job.
pub open spec fn post_mortem(id: i64) -> Seq<char> {
    let key = number::dec_int(id as int);
    "workspace kept — `homerunner exec "@ + key + "` opens a shell in it; `homerunner exec "@ + key
        + " -- <cmd>` runs one command without a TTY"@
}

/// `d` is what is known of why the job `d.job` failed.
pub open spec fn digested(d: Digest, archive: Archive) -> bool {
    &&& text::opt_text(d.excerpt) == (match worker_log(d.job, archive) {
        Ok(log) => Some(excerpt(log)),
        Err(_) => None,
    })
    &&& text::opt_text(d.post_mortem) == if d.job.kept_image is Some {
        Some(post_mortem(d.job.gh_job_id))
    } else {
        None
    }
}

/// `r` is what is known of why the job that is asked for failed.
pub open spec fn explained(
    r: Result<Digest, AgentError>,
    jobs: Seq<Job>,
    archive: Archive,
    spec: Option<Seq<char>>,
) -> bool {
    &&& resolved(
        match r {
            Ok(d) => Ok(d.job),
            Err(e) => Err(e),
        },
        jobs,
        wanted(spec, true),
    )
    &&& r matches Ok(d) ==> digested(d, archive)
}

/// What is known of why a job failed; the latest that did, unless one is asked for.
pub fn why(store: &Store, archive: &Archive, spec: Option<&str>) -> (r: Result<Digest, AgentError>)
    requires
        store.well_formed(),
    ensures
        explained(r, store.jobs@, *archive, text::opt_str(spec)),
{
    let job = match resolve_job(store, spec, true) {
        Ok(job) => job,
        Err(e) => return Err(e),
    };
    let found = match read_worker_logs(&job, archive) {
        Ok(log) => Some(failure_excerpt(log.as_str())),
        Err(_) => None,
    };
    let after = if job.kept_image.is_some() {
        let key = number::integer_text(job.gh_job_id);
        let mut t = String::new();
        t.append("workspace kept — `homerunner exec ");
        t.append(key.as_str());
        t.append("` opens a shell in it; `homerunner exec ");
        t.append(key.as_str());
        t.append(" -- <cmd>` runs one command without a TTY");
        assert(t@ =~= post_mortem(job.gh_job_id));
        Some(t)
    } else {
        None
    };
    Ok(Digest { job, excerpt: found, post_mortem: after })
}

/// The text of an optional string, else another text.
pub open spec fn text_or(o: Option<String>, other: Seq<char>) -> Seq<char> {
    match o {
        Some(s) => s@,
        None => other,
    }
}

fn push_or(out: &mut String, o: &Option<String>, other: &str)
    ensures
        final(out)@ == old(out)@ + text_or(*o, other@),
{
    match o {
        Some(s) => out.append(s.as_str()),
        None => out.append(other),
    }
}

/// The bytes that a character takes in UTF-8.
pub open spec fn utf8_len(c: char) -> int {
    if c <= '\u{7f}' {
        1
    } else if c <= '\u{7ff}' {
        2
    } else if c <= '\u{ffff}' {
        3
    } else {
        4
    }
}

/// The bytes that a text takes in UTF-8.
pub open spec fn bytes(s: Seq<char>) -> int
    decreases s.len(),
{
    if s.len() == 0 {
        0
    } else {
        bytes(s.drop_last()) + utf8_len(s.last())
    }
}

/// `k` characters take nine bytes, or are the whole of a shorter text.
pub open spec fn cut_at(sha: Seq<char>, k: int) -> bool {
    &&& 0 <= k <= sha.len()
    &&& bytes(sha.take(k)) == 9 || (k == sha.len() && bytes(sha) < 9)
}

/// The first nine bytes of a text are whole characters.
pub open spec fn abbreviates(sha: Seq<char>) -> bool {
    exists|k: int| #[trigger] cut_at(sha, k)
}

/// A commit's hash, abbreviated.
pub open spec fn abbreviated(sha: Seq<char>) -> Seq<char> {
    sha.take(choose|k: int| #[trigger] cut_at(sha, k))
}

proof fn lemma_bytes_grow(s: Seq<char>, a: int, b: int)
    requires
        0 <= a <= b <= s.len(),
    ensures
        bytes(s.take(a)) + (b - a) <= bytes(s.take(b)),
    decreases b - a,
{
    if a < b {
        lemma_bytes_grow(s, a, b - 1);
        assert(s.take(b).drop_last() =~= s.take(b - 1));
    }
}

pub(crate) proof fn lemma_one_cut(sha: Seq<char>, a: int, b: int)
    requires
        cut_at(sha, a),
        cut_at(sha, b),
    ensures
        a == b,
{
    assert(sha.take(sha.len() as int) =~= sha);
    if a < b {
        lemma_bytes_grow(sha, a, b);
        lemma_bytes_grow(sha, b, sha.len() as int);
    } else {
        lemma_bytes_grow(sha, b, a);
        lemma_bytes_grow(sha, a, sha.len() as int);
    }
}

/// Whether the first nine bytes of a commit's hash are whole characters, and
/// how many.
fn cut(sha: &[char]) -> (r: Option<usize>)
    ensures
        match r {
            Some(k) => cut_at(sha@, k as int),
            None => !abbreviates(sha@),
        },
{
    let mut k: usize = 0;
    let mut n: usize = 0;
    assert(bytes(sha@.take(0)) == 0);
    while k < sha.len() && n < 9
        invariant
            k <= sha@.len(),
            n <= 12,
            n == bytes(sha@.take(k as int)),
            k > 0 ==> bytes(sha@.take(k - 1)) < 9,
        decreases sha@.len() - k,
    {
        let c = sha[k];
        n = n + if c <= '\u{7f}' {
            1
        } else if c <= '\u{7ff}' {
            2
        } else if c <= '\u{ffff}' {
            3
        } else {
            4
        };
        assert(sha@.take(k + 1).drop_last() =~= sha@.take(k as int));
        k = k + 1;
    }
    assert(sha@.take(sha@.len() as int) =~= sha@);
    if n <= 9 {
        assert(cut_at(sha@, k as int));
        Some(k)
    } else {
        assert forall|j: int| !(#[trigger] cut_at(sha@, j)) by {
            if cut_at(sha@, j) {
                lemma_bytes_grow(sha@, k as int, sha@.len() as int);
                if j <= k - 1 {
                    lemma_bytes_grow(sha@, j, k - 1);
                } else {
                    lemma_bytes_grow(sha@, k as int, j);
                }
            }
        }
        None
    }
}

/// A text of at most one byte per character can always be abbreviated, to its
/// first nine characters.
pub proof fn law_ascii_hashes_abbreviate(sha: Seq<char>)
    requires
        forall|i: int| 0 <= i < sha.len() ==> #[trigger] sha[i] <= '\u{7f}',
    ensures
        abbreviates(sha),
        abbreviated(sha) == sha.take(
            if sha.len() < 9 {
                sha.len() as int
            } else {
                9
            },
        ),
{
    let k = if sha.len() < 9 {
        sha.len() as int
    } else {
        9
    };
    lemma_ascii_bytes(sha.take(k));
    assert(sha.take(sha.len() as int) =~= sha);
    assert(cut_at(sha, k));
    lemma_one_cut(sha, k, choose|j: int| #[trigger] cut_at(sha, j));
}

proof fn lemma_ascii_bytes(s: Seq<char>)
    requires
        forall|i: int| 0 <= i < s.len() ==> #[trigger] s[i] <= '\u{7f}',
    ensures
        bytes(s) == s.len(),
    decreases s.len(),
{
    if s.len() > 0 {
        lemma_ascii_bytes(s.drop_last());
    }
}

/// A digest can be written out: its commit's hash can be abbreviated.
pub open spec fn writable(d: Digest) -> bool {
    d.job.head_sha matches Some(sha) ==> abbreviates(sha@)
}

/// Whether a digest can be written out.
pub fn is_writable(d: &Digest) -> (r: bool)
    ensures
        r == writable(*d),
{
    names_commit(&d.job)
}

/// Whether a job's commit, if it is known, can be abbreviated.
pub fn names_commit(job: &Job) -> (r: bool)
    ensures
        r == (job.head_sha matches Some(sha) ==> abbreviates(sha@)),
{
    match &job.head_sha {
        Some(sha) => match cut(&text::chars(sha.as_str())) {
            Some(k) => {
                assert(cut_at(sha@, k as int));
                true
            },
            None => false,
        },
        None => true,
    }
}

/// The line on a job's commit, if it is known.
pub open spec fn commit_line(j: Job) -> Seq<char> {
    match j.head_sha {
        Some(sha) => text_or(j.head_branch, "?"@) + " @ "@ + abbreviated(sha@) + " ("@ + text_or(
            j.event,
            "?"@,
        ) + ") — "@ + text_or(j.title, ""@) + "\n"@,
        None => ""@,
    }
}

/// The line on a job's memory, if it is known.
pub open spec fn memory_line(j: Job) -> Seq<char> {
    match j.peak_mem_mb {
        Some(n) => "peak memory: "@ + number::dec(n as nat) + " MB"@
            + if j.oom == Some(true) {
            " — OOM-KILLED"@
        } else {
            ""@
        } + "\n"@,
        None => ""@,
    }
}

/// The line on a job's kept workspace, if there is one.
pub open spec fn post_mortem_lines(d: Digest) -> Seq<char> {
    match d.post_mortem {
        Some(p) => p@ + "\n"@,
        None => ""@,
    }
}

/// The lines on a job's log.
pub open spec fn excerpt_lines(d: Digest) -> Seq<char> {
    match d.excerpt {
        Some(e) => "\n--- log excerpt around the failure ---\n"@ + e@ + "\n"@,
        None => "(no captured logs for this job)\n"@,
    }
}

/// A digest, written out.
pub open spec fn digest_text(d: Digest) -> Seq<char> {
    let j = d.job;
    j.repo@ + " / "@ + text_or(j.workflow, "?"@) + " / "@ + text_or(j.job_name, "?"@) + " — "@
        + text_or(j.conclusion, "unknown"@) + "\n"@ + text_or(j.html_url, ""@) + "\n"@
        + commit_line(j) + memory_line(j) + post_mortem_lines(d) + excerpt_lines(d)
}

fn commit_text(j: &Job) -> (r: String)
    requires
        j.head_sha matches Some(sha) ==> abbreviates(sha@),
    ensures
        r@ == commit_line(*j),
{
    let mut out = String::new();
    match &j.head_sha {
        Some(sha) => {
            let sha_chars = text::chars(sha.as_str());
            if let Some(k) = cut(&sha_chars) {
                proof {
                    lemma_one_cut(sha@, k as int, choose|i: int| #[trigger] cut_at(sha@, i));
                }
                push_or(&mut out, &j.head_branch, "?");
                assert(out@ =~= text_or(j.head_branch, "?"@));
                out.append(" @ ");
                let short = text::string(vstd::slice::slice_subrange(&sha_chars, 0, k));
                assert(short@ =~= abbreviated(sha@));
                out.append(short.as_str());
                out.append(" (");
                push_or(&mut out, &j.event, "?");
                out.append(") — ");
                push_or(&mut out, &j.title, "");
                out.append("\n");
            }
        },
        None => {
            proof {
                reveal_strlit("");
            }
            assert(out@ =~= ""@);
        },
    }
    out
}

fn memory_text(j: &Job) -> (r: String)
    ensures
        r@ == memory_line(*j),
{
    let mut out = String::new();
    match j.peak_mem_mb {
        Some(n) => {
            out.append("peak memory: ");
            assert(out@ =~= "peak memory: "@);
            number::push_number(&mut out, n);
            out.append(" MB");
            out.append(
                match j.oom {
                    Some(true) => " — OOM-KILLED",
                    _ => "",
                },
            );
            out.append("\n");
        },
        None => {
            proof {
                reveal_strlit("");
            }
            assert(out@ =~= ""@);
        },
    }
    out
}

fn post_mortem_text(d: &Digest) -> (r: String)
    ensures
        r@ == post_mortem_lines(*d),
{
    let mut out = String::new();
    match &d.post_mortem {
        Some(p) => {
            out.append(p.as_str());
            assert(out@ =~= p@);
            out.append("\n");
        },
        None => {
            proof {
                reveal_strlit("");
            }
            assert(out@ =~= ""@);
        },
    }
    out
}

fn excerpt_text(d: &Digest) -> (r: String)
    ensures
        r@ == excerpt_lines(*d),
{
    let mut out = String::new();
    match &d.excerpt {
        Some(e) => {
            out.append("\n--- log excerpt around the failure ---\n");
            assert(out@ =~= "\n--- log excerpt around the failure ---\n"@);
            out.append(e.as_str());
            out.append("\n");
        },
        None => {
            out.append("(no captured logs for this job)\n");
            assert(out@ =~= "(no captured logs for this job)\n"@);
        },
    }
    out
}

/// A digest, written out.
pub fn why_text(digest: &Digest) -> (r: String)
    requires
        writable(*digest),
    ensures
        r@ == digest_text(*digest),
{
    let j = &digest.job;
    let mut out = String::new();
    out.append(j.repo.as_str());
    assert(out@ =~= j.repo@);
    out.append(" / ");
    push_or(&mut out, &j.workflow, "?");
    out.append(" / ");
    push_or(&mut out, &j.job_name, "?");
    out.append(" — ");
    push_or(&mut out, &j.conclusion, "unknown");
    out.append("\n");
    push_or(&mut out, &j.html_url, "");
    out.append("\n");
    out.append(commit_text(j).as_str());
    out.append(memory_text(j).as_str());
    out.append(post_mortem_text(digest).as_str());
    out.append(excerpt_text(digest).as_str());
    out
}

// -- job tables -------------------------------------------------------------------------

/// A duration in whole seconds, rounded half away from zero.
pub open spec fn whole_seconds(us: int) -> int {
    if us >= 0 {
        (us + 500_000) / 1_000_000
    } else {
        -((-us + 500_000) / 1_000_000)
    }
}

/// How long a job took, if that is known.
pub open spec fn duration(j: Job) -> Seq<char> {
    match (j.started_at, j.completed_at) {
        (Some(s), Some(c)) => number::dec_int(whole_seconds(c - s)) + "s"@,
        _ => ""@,
    }
}

/// One line of a job table.
pub open spec fn job_row(j: Job) -> Seq<char> {
    text::pad_right(number::dec_int(j.gh_job_id as int), 12) + " "@ + text::pad_right(
        text_or(j.conclusion, "running"@),
        9,
    ) + " "@ + text::pad_right(j.repo@, 28) + " "@ + text::pad_right(text_or(j.job_name, ""@), 24)
        + " "@ + text::pad_left(duration(j), 6) + "  "@ + if j.log_dir is Some {
        "logs"@
    } else {
        ""@
    } + if j.kept_image is Some {
        "+workspace"@
    } else {
        ""@
    } + "\n"@
}

/// A job table.
pub open spec fn table(jobs: Seq<Job>) -> Seq<char> {
    if jobs.len() == 0 {
        "no jobs recorded\n"@
    } else {
        text::concat(jobs.map_values(|j: Job| job_row(j)))
    }
}

/// How long a job took, if that is known.
fn duration_text(j: &Job) -> (r: String)
    ensures
        r@ == duration(*j),
{
    let mut r = String::new();
    if let (Some(s), Some(c)) = (j.started_at, j.completed_at) {
        let us: i128 = c as i128 - s as i128;
        let whole: i128 = if us >= 0 {
            (us + 500_000) / 1_000_000
        } else {
            -((-us + 500_000) / 1_000_000)
        };
        r = number::integer_text(whole as i64);
        r.append("s");
    }
    proof {
        reveal_strlit("");
    }
    assert(r@ =~= duration(*j));
    r
}

/// One line of a job table.
fn job_row_text(j: &Job) -> (r: String)
    ensures
        r@ == job_row(*j),
{
    proof {
        reveal_strlit("");
    }
    let id = number::integer_text(j.gh_job_id);
    let mut row = String::new();
    text::push_padded(&mut row, id.as_str(), 12);
    assert(row@ =~= text::pad_right(number::dec_int(j.gh_job_id as int), 12));
    row.append(" ");
    match &j.conclusion {
        Some(c) => text::push_padded(&mut row, c.as_str(), 9),
        None => text::push_padded(&mut row, "running", 9),
    }
    row.append(" ");
    text::push_padded(&mut row, j.repo.as_str(), 28);
    row.append(" ");
    match &j.job_name {
        Some(n) => text::push_padded(&mut row, n.as_str(), 24),
        None => text::push_padded(&mut row, "", 24),
    }
    row.append(" ");
    let dur = duration_text(j);
    text::push_right_aligned(&mut row, dur.as_str(), 6);
    row.append("  ");
    row.append(
        if j.log_dir.is_some() {
            "logs"
        } else {
            ""
        },
    );
    row.append(
        if j.kept_image.is_some() {
            "+workspace"
        } else {
            ""
        },
    );
    row.append("\n");
    row
}

/// A job table.
pub fn jobs_table(jobs: &Vec<Job>) -> (r: String)
    ensures
        r@ == table(jobs@),
{
    if jobs.len() == 0 {
        return "no jobs recorded\n".to_string();
    }
    let ghost rows = jobs@.map_values(|j: Job| job_row(j));
    let mut out = String::new();
    for i in 0..jobs.len()
        invariant
            rows == jobs@.map_values(|j: Job| job_row(j)),
            out@ == text::concat(rows.take(i as int)),
    {
        let row = job_row_text(&jobs[i]);
        out.append(row.as_str());
        assert(rows.take(i + 1).drop_last() =~= rows.take(i as int));
        assert(rows.take(i + 1).last() == job_row(jobs@[i as int]));
    }
    assert(rows.take(rows.len() as int) =~= rows);
    out
}

} // verus!

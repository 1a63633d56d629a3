//! The jobs API and the monitors: requests, answers, waiting jobs, alarms.

use crate::config::MonitorConfig;
use crate::github;
use crate::github::{Answer, Ask, AuthSource, GitHub, Run, RunJob, Sweep};
use crate::laws::pool;
use crate::monitor;
use crate::number;
use crate::store::JobInfo;
use crate::text;
use vstd::prelude::*;

verus! {

// -- tokens and answers ----------------------------------------------------------------

/// A token is taken from the `gh` command, from an environment variable or from a
/// file; any other source is unknown.
pub proof fn law_tokens_have_three_sources(source: &str, name: Seq<char>, r: Option<AuthSource>)
    requires
        call_ensures(github::auth_source, (source,), r),
    ensures
        source@ == "gh"@ ==> r == Some(AuthSource::Gh),
        source@ == "env:"@ + name ==> (r matches Some(AuthSource::Env(v)) && v@ == name),
        source@ == "file:"@ + name ==> (r matches Some(AuthSource::File(p)) && p@ == name),
        r is Some ==> source@ == "gh"@ || (exists|s: Seq<char>|
            source@ == #[trigger] ("env:"@ + s)) || (exists|s: Seq<char>|
            source@ == #[trigger] ("file:"@ + s)),
{
    reveal_strlit("gh");
    reveal_strlit("env:");
    reveal_strlit("file:");
    let e = "env:"@;
    let f = "file:"@;
    if source@ == e + name {
        assert(source@.subrange(0, 4) =~= e);
        assert(source@.skip(4) =~= name);
        assert(source@[0] == 'e');
        assert("gh"@[0] == 'g');
    }
    if source@ == f + name {
        assert(source@.subrange(0, 5) =~= f);
        assert(source@.skip(5) =~= name);
        assert(source@[0] == 'f');
        assert("gh"@[0] == 'g');
        if e.is_prefix_of(source@) {
            assert(source@.subrange(0, 4)[0] == e[0]);
        }
    }
    if e.is_prefix_of(source@) {
        assert(source@ =~= e + source@.skip(4));
    }
    if f.is_prefix_of(source@) {
        assert(source@ =~= f + source@.skip(5));
    }
}

/// A token that is refused is taken anew, once; an answer without content is empty,
/// one of the client's or the server's fault has failed, and any other is read.
/// Only a refused token is forgotten.
pub proof fn law_refused_tokens_are_taken_anew_once(
    client: &mut GitHub,
    status: u16,
    first: bool,
    r: Answer,
)
    requires
        call_ensures(GitHub::answered, (client, status, first), r),
    ensures
        r == Answer::AskAgain <==> status == 401 && first,
        r == Answer::Empty <==> status == 204,
        r == Answer::Failed <==> 400 <= status <= 599 && !(status == 401 && first),
        r == Answer::AskAgain ==> final(client).token is None,
        r != Answer::AskAgain ==> final(client).token == old(client).token,
        final(client).auth_source == old(client).auth_source,
{
}

// -- waiting jobs ------------------------------------------------------------------------

/// A label is among some.
pub open spec fn has_label(labels: Seq<String>, label: Seq<char>) -> bool {
    exists|k: int| 0 <= k < labels.len() && (#[trigger] labels[k])@ == label
}

/// A job counts as waiting for us exactly if it is queued, asks for some label, and
/// asks for none that we do not have.
pub proof fn law_jobs_wait_for_us_if_we_have_every_label(
    jobs: Vec<RunJob>,
    labels: Vec<String>,
    r: usize,
)
    requires
        call_ensures(github::queued_jobs, (&jobs, &labels), r),
    ensures
        r == jobs@.filter(
            |j: RunJob|
                j.status is Some && j.status->0@ == "queued"@ && j.labels@.len() > 0 && forall|i: int|
                    0 <= i < j.labels@.len() ==> has_label(labels@, (#[trigger] j.labels@[i])@),
        ).len(),
{
    let ours = text::texts(labels@);
    let p = github::waits_for(ours);
    let q = |j: RunJob|
        j.status is Some && j.status->0@ == "queued"@ && j.labels@.len() > 0 && forall|i: int|
            0 <= i < j.labels@.len() ==> has_label(labels@, (#[trigger] j.labels@[i])@);
    assert forall|n: int| 0 <= n < jobs@.len() implies p(#[trigger] jobs@[n]) == q(jobs@[n]) by {
        let j = jobs@[n];
        if p(j) {
            assert forall|i: int| 0 <= i < j.labels@.len() implies has_label(
                labels@,
                (#[trigger] j.labels@[i])@,
            ) by {
                assert(ours.contains(j.labels@[i]@));
                let k = choose|k: int| 0 <= k < ours.len() && ours[k] == j.labels@[i]@;
                assert(labels@[k]@ == j.labels@[i]@);
            }
        }
        if q(j) {
            assert forall|i: int| 0 <= i < j.labels@.len() implies ours.contains(
                (#[trigger] j.labels@[i])@,
            ) by {
                assert(has_label(labels@, j.labels@[i]@));
                let k = choose|k: int|
                    0 <= k < labels@.len() && (#[trigger] labels@[k])@ == j.labels@[i]@;
                assert(ours[k] == j.labels@[i]@);
            }
        }
    }
    pool::lemma_same_filter(jobs@, p, q);
}

/// The job of a runner is the first of a run's jobs that names the runner, and what
/// is said of it and of the run is known of it.
pub proof fn law_the_job_of_a_runner_names_it(
    run: Run,
    jobs: Vec<RunJob>,
    runner: &str,
    r: Option<JobInfo>,
    k: int,
)
    requires
        call_ensures(github::job_of_runner, (&run, &jobs, runner), r),
        0 <= k < jobs@.len(),
        forall|i: int|
            0 <= i < k ==> !((#[trigger] jobs@[i]).runner_name is Some && jobs@[i].runner_name->0@
                == runner@),
        jobs@[k].runner_name is Some && jobs@[k].runner_name->0@ == runner@,
    ensures
        r is Some,
        r->0.job_id == jobs@[k].id,
        r->0.run_id == Some(run.id),
        r->0.workflow == run.name,
        r->0.job_name == jobs@[k].name,
        r->0.html_url == jobs@[k].html_url,
        r->0.head_branch == run.head_branch,
        r->0.head_sha == run.head_sha,
        r->0.title == run.title,
        r->0.event == run.event,
{
    lemma_job_index(jobs@, runner@, k);
    assert(text::opt_text(jobs@[k].runner_name) == Some(runner@));
}

proof fn lemma_job_index(jobs: Seq<RunJob>, runner: Seq<char>, k: int)
    requires
        0 <= k < jobs.len(),
        forall|i: int|
            0 <= i < k ==> !((#[trigger] jobs[i]).runner_name is Some && jobs[i].runner_name->0@
                == runner),
        jobs[k].runner_name is Some && jobs[k].runner_name->0@ == runner,
    ensures
        github::job_index(jobs, runner) == k,
    decreases jobs.len(),
{
    if k > 0 {
        let rest = jobs.drop_first();
        assert(!(jobs[0].runner_name is Some && jobs[0].runner_name->0@ == runner));
        assert forall|i: int| 0 <= i < k - 1 implies !((
        #[trigger] rest[i]).runner_name is Some && rest[i].runner_name->0@ == runner) by {
            assert(rest[i] == jobs[i + 1]);
        }
        lemma_job_index(rest, runner, k - 1);
    }
}

/// A runner that no job names has no job.
pub proof fn law_a_runner_that_no_job_names_has_none(
    run: Run,
    jobs: Vec<RunJob>,
    runner: &str,
    r: Option<JobInfo>,
)
    requires
        call_ensures(github::job_of_runner, (&run, &jobs, runner), r),
        forall|i: int|
            0 <= i < jobs@.len() ==> !((#[trigger] jobs@[i]).runner_name is Some
                && jobs@[i].runner_name->0@ == runner@),
    ensures
        r is None,
{
    if r is Some {
        let k = github::job_index(jobs@, runner@);
        lemma_job_index_holds(jobs@, runner@);
        assert(text::opt_text(jobs@[k].runner_name) == Some(runner@));
    }
}

proof fn lemma_job_index_holds(jobs: Seq<RunJob>, runner: Seq<char>)
    ensures
        0 <= github::job_index(jobs, runner) <= jobs.len(),
        github::job_index(jobs, runner) < jobs.len() ==> text::opt_text(
            jobs[github::job_index(jobs, runner)].runner_name,
        ) == Some(runner),
    decreases jobs.len(),
{
    if jobs.len() > 0 && text::opt_text(jobs[0].runner_name) != Some(runner) {
        lemma_job_index_holds(jobs.drop_first(), runner);
    }
}

/// A sweep asks for the jobs of every run that it was given, one run after the
/// other, and for the runs of its two statuses, one status after the other; for
/// nothing else, and then it is done.
pub proof fn law_sweeps_ask_for_everything_once(sweep: Sweep, r: Ask)
    requires
        call_ensures(Sweep::ask, (&sweep,), r),
    ensures
        sweep.next < sweep.runs@.len() ==> r == Ask::Jobs(sweep.runs@[sweep.next as int].id),
        sweep.next >= sweep.runs@.len() && sweep.asked == 0 ==> (r matches Ask::Runs(s) && s@
            == sweep.first@),
        sweep.next >= sweep.runs@.len() && sweep.asked == 1 ==> (r matches Ask::Runs(s) && s@
            == sweep.second@),
        sweep.next >= sweep.runs@.len() && sweep.asked >= 2 ==> r == Ask::Nothing,
{
}

/// Queued jobs are counted among the runs that are queued and those in progress; a
/// runner's job is looked for among the runs in progress and the completed ones.
pub proof fn law_sweeps_go_over_two_statuses(a: Sweep, b: Sweep)
    requires
        call_ensures(Sweep::for_queue, (), a),
        call_ensures(Sweep::for_runner, (), b),
    ensures
        a.first@ == "queued"@ && a.second@ == "in_progress"@ && a.per_page == 10 && a.latest,
        b.first@ == "in_progress"@ && b.second@ == "completed"@ && b.per_page == 8 && !b.latest,
        a.asked == 0 && a.total == 0 && a.runs@.len() == 0,
        b.asked == 0 && b.total == 0 && b.runs@.len() == 0,
{
}

/// Every answer about a run adds the jobs in it that wait for us to what was
/// counted before, and moves on to the next run.
pub proof fn law_sweeps_add_up_waiting_jobs(
    sweep: &mut Sweep,
    jobs: Vec<RunJob>,
    labels: Vec<String>,
    n: usize,
)
    requires
        call_ensures(Sweep::count_queued_jobs, (sweep, &jobs, &labels), ()),
        call_ensures(github::queued_jobs, (&jobs, &labels), n),
        old(sweep).total + n <= u32::MAX,
        old(sweep).next < usize::MAX,
    ensures
        final(sweep).total == old(sweep).total + n,
        final(sweep).next == old(sweep).next + 1,
        final(sweep).runs == old(sweep).runs,
        final(sweep).asked == old(sweep).asked,
{
}

/// Where requests go: to the repo, its runners and its runs.
pub proof fn law_requests_go_to_the_repo(
    repo: &str,
    status: &str,
    id: i64,
    t: String,
    latest: bool,
    a: String,
    b: String,
    c: String,
    d: String,
)
    requires
        call_ensures(number::integer_text, (id,), t),
        call_ensures(github::jitconfig_url, (repo,), a),
        call_ensures(github::runners_url, (repo,), b),
        call_ensures(github::runner_url, (repo, id), c),
        call_ensures(github::jobs_url, (repo, id, latest), d),
    ensures
        a@ == "/repos/"@ + repo@ + "/actions/runners/generate-jitconfig"@,
        b@ == "/repos/"@ + repo@ + "/actions/runners?per_page=100"@,
        c@ == "/repos/"@ + repo@ + "/actions/runners/"@ + t@,
        latest ==> d@ == "/repos/"@ + repo@ + "/actions/runs/"@ + t@
            + "/jobs?filter=latest&per_page=100"@,
        !latest ==> d@ == "/repos/"@ + repo@ + "/actions/runs/"@ + t@ + "/jobs?per_page=100"@,
{
}

// -- monitors -----------------------------------------------------------------------------

/// A job is in a monitor's scope exactly if it agrees with every field that the
/// monitor names; a field that the monitor leaves out is not looked at.
pub proof fn law_scopes_are_the_fields_that_are_named(
    m: MonitorConfig,
    repo: &str,
    job: JobInfo,
    r: bool,
)
    requires
        call_ensures(monitor::matches_scope, (&m, repo, &job), r),
    ensures
        r <==> {
            &&& m.repo is Some ==> m.repo->0@ == repo@
            &&& m.workflow is Some ==> job.workflow is Some && job.workflow->0@ == m.workflow->0@
            &&& m.job_name is Some ==> job.job_name is Some && job.job_name->0@ == m.job_name->0@
            &&& m.branch is Some ==> job.head_branch is Some && job.head_branch->0@ == m.branch->0@
        },
{
}

/// A monitor raises an alarm for each of its rules that applies, and for no other:
/// that the job ran out of memory, that its log matches, that it failed and so many
/// in a row did.
pub proof fn law_monitors_raise_what_they_watch_for(
    m: MonitorConfig,
    conclusion: Option<&str>,
    oom: bool,
    matched: bool,
    failures: u32,
    r: Vec<String>,
)
    requires
        call_ensures(monitor::reasons_given, (&m, conclusion, oom, matched, failures), r),
    ensures
        ({
            let a = m.oom && oom;
            let b = m.log_pattern is Some && matched;
            let c = conclusion is Some && conclusion->0@ == "failure"@ && m.consecutive_failures
                is Some && failures >= m.consecutive_failures->0;
            &&& r@.len() == (if a {
                1int
            } else {
                0
            }) + (if b {
                1int
            } else {
                0
            }) + (if c {
                1int
            } else {
                0
            })
            &&& a ==> r@[0]@ == "runner was OOM-killed"@
            &&& b ==> r@[if a {
                1int
            } else {
                0
            }]@ == "log matched /"@ + m.log_pattern->0@ + "/"@
            &&& c ==> r@.last()@ == number::dec(failures as nat) + " consecutive failures"@
        }),
{
    let t = text::texts(r@);
    assert(t.len() == r@.len());
    let c = text::opt_str(conclusion);
    let x = monitor::oom_reason(m, oom);
    let y = monitor::log_reason(m, matched);
    let z = monitor::failure_reason(m, c, failures);
    assert(t == x + y + z);
    if m.oom && oom {
        assert(t[0] == x[0]);
        assert(t[0] == r@[0]@);
    }
    if m.log_pattern is Some && matched {
        assert(t[x.len() as int] == y[0]);
        assert(t[x.len() as int] == r@[x.len() as int]@);
    }
    if z.len() > 0 {
        assert(t[t.len() - 1] == z[0]);
        assert(t[t.len() - 1] == r@.last()@);
    }
}

} // verus!

//! What is read of the answers of the jobs API, and what is asked of it.

use crate::config::MonitorConfig;
use crate::github;
use crate::github::{AnswerError, JitRequest, Run, RunJob, Sweep};
use crate::json;
use crate::monitor;
use crate::number;
use crate::pattern;
use crate::scheduler::Registration;
use crate::store::JobInfo;
use crate::text;
use vstd::prelude::*;

verus! {

// -- tokens --------------------------------------------------------------------------------

/// A token is what `gh` prints, or what a file holds, without the line end; a variable
/// holds it as it is. A command that failed and a variable that is missing give none.
pub proof fn law_tokens_are_taken_without_their_line_end(
    token: Seq<char>,
    printed: &str,
    said: &str,
    success: bool,
    name: &str,
    value: Option<String>,
    a: Result<String, String>,
    b: Result<String, String>,
    c: String,
)
    requires
        call_ensures(github::gh_token, (success, printed, said), a),
        call_ensures(github::env_token, (name, value), b),
        call_ensures(github::file_token, (printed,), c),
        printed@ == token.push('\n'),
        said@ == printed@,
        token.len() > 0,
        !text::is_space(token[0]),
        !text::is_space(token.last()),
    ensures
        a is Ok <==> success,
        a is Ok ==> (a->Ok_0)@ == token,
        a is Err ==> (a->Err_0)@ == "`gh auth token` failed: "@ + token,
        b is Ok <==> value is Some,
        b is Ok ==> (b->Ok_0)@ == (value->0)@,
        b is Err ==> (b->Err_0)@ == "env var "@ + name@ + " is empty"@,
        c@ == token,
{
    let t = printed@;
    assert(t[0] == token[0]);
    assert(t.drop_last() =~= token);
    assert(text::is_space('\n'));
    assert(text::trim_end(t) == text::trim_end(token));
    assert(text::trim(t) == token);
}

// -- requests ------------------------------------------------------------------------------

/// A runner is asked for under its name, in the default group, with its labels.
pub proof fn law_runners_are_asked_for_in_the_default_group(
    name: &str,
    labels: Vec<String>,
    r: JitRequest,
    i: int,
)
    requires
        call_ensures(github::jit_request, (name, &labels), r),
        0 <= i < labels@.len(),
    ensures
        r.name@ == name@,
        r.runner_group_id == 1,
        r.labels@.len() == labels@.len(),
        r.labels@[i]@ == labels@[i]@,
        r.work_folder@ == "_work"@,
{
    let a = text::texts(r.labels@);
    let b = text::texts(labels@);
    assert(a.len() == b.len());
    assert(a[i] == r.labels@[i]@);
    assert(b[i] == labels@[i]@);
}

/// A request that failed is reported with its method, its address, its status and what
/// was answered.
pub proof fn law_failed_requests_are_reported(
    method: &str,
    url: &str,
    status: &str,
    value: &str,
    r: String,
)
    requires
        call_ensures(github::failure, (method, url, status, value), r),
    ensures
        r@ == method@ + " "@ + url@ + " -> "@ + status@ + ": "@ + value@,
{
}

/// Runs are asked for by their repo and their status.
pub proof fn law_runs_are_asked_for_by_status(repo: &str, status: &str, n: u32, r: String)
    requires
        call_ensures(github::runs_url, (repo, status, n), r),
    ensures
        r@ == "/repos/"@ + repo@ + "/actions/runs?status="@ + status@ + "&per_page="@ + number::dec(
            n as nat,
        ),
{
}

// -- answers -------------------------------------------------------------------------------

/// A new runner has an id and a configuration: where one of them is missing it has
/// neither, and the id is missed first.
pub proof fn law_new_runners_have_an_id_and_a_configuration(
    body: &str,
    r: Result<(i64, String), AnswerError>,
    n: u32,
)
    requires
        call_ensures(github::generate_jitconfig, (body,), r),
    ensures
        json::json_raw(body@, "/runner/id"@) == Some(number::dec(n as nat)) ==> (r is Ok
            <==> json::json_str(body@, "/encoded_jit_config"@) is Some),
        json::json_raw(body@, "/runner/id"@) == Some(number::dec(n as nat)) && r is Ok ==> (
        r->Ok_0).0 == n,
        json::json_raw(body@, "/runner/id"@) == Some(number::dec(n as nat)) && r is Err
            ==> r->Err_0 == AnswerError::NoJitConfig,
        r is Ok ==> json::json_str(body@, "/encoded_jit_config"@) == Some(((r->Ok_0).1)@),
        json::json_raw(body@, "/runner/id"@) is None ==> r == Err::<(i64, String), AnswerError>(
            AnswerError::NoRunnerId,
        ),
{
    number::lemma_dec(n as nat);
}

/// What is read of a field that may be missing.
pub open spec fn reads(o: Option<String>, doc: Seq<char>, pointer: Seq<char>) -> bool {
    match o {
        Some(s) => json::json_str(doc, pointer) == Some(s@),
        None => json::json_str(doc, pointer) is None,
    }
}

/// Every registration that is listed is read: its name, its status and its id.
pub proof fn law_registrations_are_read(body: &str, r: Vec<Registration>, i: int, n: u32)
    requires
        call_ensures(github::list_runners, (body,), r),
        0 <= i < r@.len(),
    ensures
        r@.len() == json::json_items(body@, "/runners"@).len(),
        ({
            let item = json::json_items(body@, "/runners"@)[i];
            &&& json::json_str(item, "/name"@) is Some ==> json::json_str(item, "/name"@) == Some(
                r@[i].name@,
            )
            &&& reads(r@[i].status, item, "/status"@)
            &&& json::json_raw(item, "/id"@) == Some(number::dec(n as nat)) ==> r@[i].id == Some(
                n as i64,
            )
            &&& json::json_raw(item, "/id"@) is None ==> r@[i].id is None
        }),
{
    number::lemma_dec(n as nat);
    assert(github::is_registration(r@[i], json::json_items(body@, "/runners"@)[i]));
}

/// Every run that is listed is read: its id and what is told of it.
pub proof fn law_runs_are_read(body: &str, r: Vec<Run>, i: int, n: u32)
    requires
        call_ensures(github::runs, (body,), r),
        0 <= i < r@.len(),
    ensures
        r@.len() == json::json_items(body@, "/workflow_runs"@).len(),
        ({
            let item = json::json_items(body@, "/workflow_runs"@)[i];
            &&& json::json_raw(item, "/id"@) == Some(number::dec(n as nat)) ==> r@[i].id == n
            &&& reads(r@[i].name, item, "/name"@)
            &&& reads(r@[i].head_branch, item, "/head_branch"@)
            &&& reads(r@[i].head_sha, item, "/head_sha"@)
            &&& reads(r@[i].title, item, "/display_title"@)
            &&& reads(r@[i].event, item, "/event"@)
        }),
{
    number::lemma_dec(n as nat);
    assert(github::is_run(r@[i], json::json_items(body@, "/workflow_runs"@)[i]));
}

/// Every job that is listed is read: its id, its runner, its status and what is told of
/// it.
pub proof fn law_jobs_are_read(body: &str, r: Vec<RunJob>, i: int, n: u32)
    requires
        call_ensures(github::run_jobs, (body,), r),
        0 <= i < r@.len(),
    ensures
        r@.len() == json::json_items(body@, "/jobs"@).len(),
        ({
            let item = json::json_items(body@, "/jobs"@)[i];
            &&& json::json_raw(item, "/id"@) == Some(number::dec(n as nat)) ==> r@[i].id == Some(
                n as i64,
            )
            &&& json::json_raw(item, "/id"@) is None ==> r@[i].id is None
            &&& reads(r@[i].name, item, "/name"@)
            &&& reads(r@[i].html_url, item, "/html_url"@)
            &&& reads(r@[i].runner_name, item, "/runner_name"@)
            &&& reads(r@[i].status, item, "/status"@)
        }),
{
    number::lemma_dec(n as nat);
    assert(github::is_run_job(r@[i], json::json_items(body@, "/jobs"@)[i]));
}

/// The labels of a job are the strings of its list, in their order.
pub proof fn law_labels_are_read(
    body: &str,
    r: Vec<RunJob>,
    i: int,
    labels: Seq<Seq<char>>,
)
    requires
        call_ensures(github::run_jobs, (body,), r),
        0 <= i < r@.len(),
    ensures
        ({
            let items = json::json_items(json::json_items(body@, "/jobs"@)[i], "/labels"@);
            labels.len() == items.len() && (forall|k: int|
                0 <= k < items.len() ==> json::json_str(#[trigger] items[k], ""@) == Some(
                    labels[k],
                )) ==> text::texts(r@[i].labels@) == labels
        }),
{
    let item = json::json_items(body@, "/jobs"@)[i];
    assert(github::is_run_job(r@[i], item));
    let items = json::json_items(item, "/labels"@);
    if labels.len() == items.len() && (forall|k: int|
        0 <= k < items.len() ==> json::json_str(#[trigger] items[k], ""@) == Some(labels[k])) {
        lemma_strings_of(items, labels);
    }
}

proof fn lemma_strings_of(items: Seq<Seq<char>>, labels: Seq<Seq<char>>)
    requires
        labels.len() == items.len(),
        forall|k: int|
            0 <= k < items.len() ==> json::json_str(#[trigger] items[k], ""@) == Some(labels[k]),
    ensures
        github::strings_of(items) == labels,
    decreases items.len(),
{
    if items.len() > 0 {
        let n = items.len() - 1;
        assert forall|k: int| 0 <= k < n implies json::json_str(
            #[trigger] items.drop_last()[k],
            ""@,
        ) == Some(labels.drop_last()[k]) by {
            assert(items.drop_last()[k] == items[k]);
        }
        lemma_strings_of(items.drop_last(), labels.drop_last());
        assert(json::json_str(items[n], ""@) == Some(labels[n]));
        assert(labels.drop_last().push(labels.last()) =~= labels);
    } else {
        assert(labels =~= Seq::empty());
    }
}

/// A version is its tag without the `v` before it.
pub proof fn law_versions_are_tags_without_v(tag: &str, version: Seq<char>, r: String)
    requires
        call_ensures(github::version_of, (tag,), r),
        version.len() > 0,
        version[0] != 'v',
    ensures
        tag@ == version ==> r@ == version,
        tag@ == seq!['v'] + version ==> r@ == version,
{
    let t = seq!['v'] + version;
    assert(t.drop_first() =~= version);
    assert(github::without_v(t) == github::without_v(t.drop_first()));
}

/// The latest release is the one that the answer names; the budget of requests is what
/// it tells of the core, else `null`.
pub proof fn law_releases_and_budgets_are_read(
    body: &str,
    version: Seq<char>,
    release: String,
    budget: String,
)
    requires
        call_ensures(github::latest_runner_release, (body,), release),
        call_ensures(github::rate_limit, (body,), budget),
        version.len() > 0,
        version[0] != 'v',
    ensures
        json::json_str(body@, "/tag_name"@) == Some(seq!['v'] + version) ==> release@ == version,
        json::json_str(body@, "/tag_name"@) is None ==> release@.len() == 0,
        json::json_raw(body@, "/resources/core"@) is Some ==> json::json_raw(
            body@,
            "/resources/core"@,
        ) == Some(budget@),
        json::json_raw(body@, "/resources/core"@) is None ==> budget@ == "null"@,
{
    reveal_strlit("");
    let t = seq!['v'] + version;
    assert(t.drop_first() =~= version);
    assert(github::without_v(t) == github::without_v(t.drop_first()));
}

/// A sweep for the job of a runner goes on to the next run, whether or not it is found.
pub proof fn law_sweeps_go_from_run_to_run(
    sweep: &mut Sweep,
    jobs: Vec<RunJob>,
    runner: &str,
    r: Option<JobInfo>,
)
    requires
        call_ensures(Sweep::find_job_by_runner, (sweep, &jobs, runner), r),
        old(sweep).next < old(sweep).runs@.len(),
    ensures
        final(sweep).next == old(sweep).next + 1,
        final(sweep).runs == old(sweep).runs,
        final(sweep).asked == old(sweep).asked,
        r is Some ==> r->0.run_id == Some(old(sweep).runs@[old(sweep).next as int].id),
        r is None ==> forall|i: int|
            0 <= i < jobs@.len() ==> !((#[trigger] jobs@[i]).runner_name is Some && (
            jobs@[i].runner_name->0)@ == runner@),
{
    assert(old(sweep).runs.len() == old(sweep).runs@.len());
    if r is None {
        assert forall|i: int| 0 <= i < jobs@.len() implies !((
        #[trigger] jobs@[i]).runner_name is Some && (jobs@[i].runner_name->0)@ == runner@) by {
            assert(text::opt_text(jobs@[i].runner_name) != Some(runner@));
        }
    }
}

// -- alarms --------------------------------------------------------------------------------

/// Whether a log speaks for an alarm is decided by the pattern of the monitor alone: what
/// is raised is what is raised of a log that matches exactly if the pattern is found in
/// it.
pub proof fn law_alarms_go_by_the_pattern_of_the_monitor(
    m: MonitorConfig,
    conclusion: Option<&str>,
    oom: bool,
    log: Option<&str>,
    failures: u32,
    matched: bool,
    r: Vec<String>,
    s: Vec<String>,
    t: Option<Vec<String>>,
)
    requires
        call_ensures(monitor::completion_reasons, (&m, conclusion, oom, log, failures), r),
        call_ensures(monitor::reasons_given, (&m, conclusion, oom, matched, failures), s),
        call_ensures(monitor::checked_completion_reasons, (&m, conclusion, oom, log, failures), t),
    ensures
        matched == (m.log_pattern is Some && log is Some && pattern::regex_found(
            (m.log_pattern->0)@,
            (log->0)@,
        )) ==> text::texts(r@) == text::texts(s@) && (t is Some ==> text::texts((t->0)@)
            == text::texts(s@)),
{
}

/// Nothing is said of a log by a monitor whose pattern does not compile; otherwise
/// something is.
pub proof fn law_patterns_that_do_not_compile_say_nothing(
    m: MonitorConfig,
    conclusion: Option<&str>,
    oom: bool,
    log: Option<&str>,
    failures: u32,
    t: Option<Vec<String>>,
)
    requires
        call_ensures(monitor::checked_completion_reasons, (&m, conclusion, oom, log, failures), t),
    ensures
        t is None <==> log is Some && m.log_pattern is Some && !pattern::regex_compiles(
            (m.log_pattern->0)@,
        ),
{
}

/// A field that is not asked for matches anything; one that is asked for matches only
/// itself.
pub proof fn law_fields_match_what_is_asked_for(
    expected: Option<String>,
    actual: Option<String>,
    r: bool,
)
    requires
        call_ensures(monitor::field_matches, (&expected, &actual), r),
    ensures
        expected is None ==> r,
        expected is Some && actual is None ==> !r,
        expected is Some && actual is Some ==> (r <==> (expected->0)@ == (actual->0)@),
{
}

} // verus!

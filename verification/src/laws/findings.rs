//! What searches, timelines and suggestions tell of captured logs.

use crate::agent;
use crate::agent::{AgentError, Archive};
use crate::laws::history;
use crate::laws::journal;
use crate::laws::logs;
use crate::laws::pool;
use crate::laws::queries;
use crate::laws::texts;
use crate::log_search;
use crate::log_search::{LineView, SearchHit, SearchQuery, SearchReport, StepView, StepsReport, Suggestions};
use crate::number;
use crate::order;
use crate::store;
use crate::store::{Job, Store};
use crate::text;
use vstd::prelude::*;

verus! {

// -- results of searches --------------------------------------------------------------------

/// A result tells of a line and of its job.
pub open spec fn tells_of(h: SearchHit, job: Job, line: LineView) -> bool {
    &&& h.gh_job_id == job.gh_job_id
    &&& h.repo@ == job.repo@
    &&& h.workflow == job.workflow
    &&& h.job_name == job.job_name
    &&& h.branch == job.head_branch
    &&& h.conclusion == job.conclusion
    &&& h.completed_at == job.completed_at
    &&& h.html_url == job.html_url
    &&& h.line_no == line.line_no
    &&& h.step_name is Some <==> line.step is Some
    &&& h.step_name is Some ==> (h.step_name->0)@ == line.step->0
    &&& h.level@ == line.level
    &&& h.message@ == line.message
}

/// A line of a job's log.
pub open spec fn is_line_of(line: LineView, job: Job, archive: Archive) -> bool {
    agent::worker_log(job, archive) is Ok && log_search::parsed_lines(
        agent::worker_log(job, archive)->Ok_0,
    ).contains(line)
}

/// Every result is a line of the log of a job that the journal knows, and tells of both.
/// Results of newer jobs come first, and those of one job in the order of its lines.
pub proof fn law_results_tell_of_their_lines_in_order(
    store: Store,
    archive: Archive,
    query: SearchQuery,
    now: i64,
    report: SearchReport,
    k: int,
    m: int,
)
    requires
        call_ensures(log_search::search, (&store, &archive, &query, now), Ok(report)),
        0 <= k < m < report.results@.len(),
    ensures
        report.query == query.q,
        query.since is Some ==> report.window@ == (query.since->0)@,
        query.since is None ==> report.window@ == "30d"@,
        exists|a: Job, b: Job, x: LineView, y: LineView|
            {
                &&& store.jobs@.contains(a) && a.log_dir is Some
                &&& store.jobs@.contains(b) && b.log_dir is Some
                &&& #[trigger] is_line_of(x, a, archive)
                &&& #[trigger] is_line_of(y, b, archive)
                &&& tells_of(report.results@[k], a, x)
                &&& tells_of(report.results@[m], b, y)
                &&& journal::moved(a) >= journal::moved(b)
                &&& a == b && (forall|i: int, j: int|
                    #![trigger store.jobs@[i], store.jobs@[j]]
                    0 <= i < j < store.jobs@.len() ==> store.jobs@[i] != store.jobs@[j])
                    ==> report.results@[k].line_no < report.results@[m].line_no
            },
{
    let p = log_search::full_query(
        log_search::parsed_query(agent::text_or(query.q, ""@))->0,
        query,
    );
    let w = log_search::window(log_search::window_text(query))->Ok_0;
    let cutoff = log_search::cutoff_of(now, w);
    let logged = store.jobs@.filter(store::logged_job());
    let jobs = choose|jobs: Seq<Job>|
        {
            &&& #[trigger] store::newest_first(jobs, logged, 10_000)
            &&& log_search::reported(report, jobs, archive, query, p, cutoff)
        };
    let n = jobs.len() as int;
    let found = log_search::hits(jobs, archive, p, cutoff, n);
    log_search::lemma_hits(jobs, archive, p, cutoff, n);
    lemma_hits_in_order(jobs, archive, p, cutoff, n);
    assert(log_search::lies_in(found[k], jobs, archive, p, cutoff));
    assert(log_search::lies_in(found[m], jobs, archive, p, cutoff));
    let a = jobs[found[k].0];
    let b = jobs[found[m].0];
    let x = log_search::job_lines(a, archive)[found[k].1];
    let y = log_search::job_lines(b, archive)[found[m].1];
    assert(log_search::is_hit(report.results@[k], a, x));
    assert(log_search::is_hit(report.results@[m], b, y));
    assert(is_line_of(x, a, archive));
    assert(is_line_of(y, b, archive));
    assert(store.jobs.len() == store.jobs@.len());
    store.jobs@.lemma_filter_len(store::logged_job());
    journal::lemma_newest(jobs, logged, 10_000);
    assert(logged.contains(a) && logged.contains(b));
    history::lemma_filtered(store.jobs@, store::logged_job(), a);
    history::lemma_filtered(store.jobs@, store::logged_job(), b);
    assert(comes_before(found[k], found[m]));
    if a == b && (forall|i: int, j: int|
        #![trigger store.jobs@[i], store.jobs@[j]]
        0 <= i < j < store.jobs@.len() ==> store.jobs@[i] != store.jobs@[j]) {
        lemma_distinct(store.jobs@, store::logged_job());
        lemma_newest_distinct(jobs, logged);
        assert(found[k].0 == found[m].0);
        assert(found[k].1 < found[m].1);
    }
}

spec fn comes_before(a: (int, int), b: (int, int)) -> bool {
    a.0 < b.0 || (a.0 == b.0 && a.1 < b.1)
}

proof fn lemma_line_hits_in_order(
    j: int,
    job: Job,
    lines: Seq<LineView>,
    p: log_search::PartsView,
    n: int,
)
    ensures
        ({
            let f = log_search::line_hits(j, job, lines, p, n);
            &&& forall|i: int| 0 <= i < f.len() ==> (#[trigger] f[i]).0 == j && 0 <= f[i].1 < n
            &&& forall|a: int, b: int|
                #![trigger f[a], f[b]]
                0 <= a < b < f.len() ==> comes_before(f[a], f[b])
        }),
    decreases n,
{
    if n > 0 {
        lemma_line_hits_in_order(j, job, lines, p, n - 1);
        let before = log_search::line_hits(j, job, lines, p, n - 1);
        let f = log_search::line_hits(j, job, lines, p, n);
        assert forall|i: int| 0 <= i < f.len() implies (#[trigger] f[i]).0 == j && 0 <= f[i].1
            < n by {
            if i < before.len() {
                assert(f[i] == before[i]);
            }
        }
        assert forall|a: int, b: int|
            #![trigger f[a], f[b]]
            0 <= a < b < f.len() implies comes_before(f[a], f[b]) by {
            assert(f[a] == before[a]);
            if b < before.len() {
                assert(f[b] == before[b]);
            }
        }
    }
}

proof fn lemma_hits_in_order(
    jobs: Seq<Job>,
    archive: Archive,
    p: log_search::PartsView,
    cutoff: Option<int>,
    n: int,
)
    ensures
        ({
            let f = log_search::hits(jobs, archive, p, cutoff, n);
            &&& forall|i: int| 0 <= i < f.len() ==> 0 <= (#[trigger] f[i]).0 < n
            &&& forall|a: int, b: int|
                #![trigger f[a], f[b]]
                0 <= a < b < f.len() ==> comes_before(f[a], f[b])
        }),
    decreases n,
{
    if n > 0 {
        lemma_hits_in_order(jobs, archive, p, cutoff, n - 1);
        let before = log_search::hits(jobs, archive, p, cutoff, n - 1);
        let all = log_search::hits(jobs, archive, p, cutoff, n);
        if log_search::is_scanned(jobs[n - 1], archive, p.properties, cutoff) {
            let lines = log_search::job_lines(jobs[n - 1], archive);
            lemma_line_hits_in_order(n - 1, jobs[n - 1], lines, p, lines.len() as int);
            let more = log_search::line_hits(n - 1, jobs[n - 1], lines, p, lines.len() as int);
            assert(all == before + more);
            assert forall|a: int, b: int|
                #![trigger all[a], all[b]]
                0 <= a < b < all.len() implies comes_before(all[a], all[b]) by {
                if b < before.len() {
                    assert(comes_before(before[a], before[b]));
                } else if a >= before.len() {
                    assert(comes_before(more[a - before.len()], more[b - before.len()]));
                } else {
                    assert(before[a].0 < n - 1);
                    assert(more[b - before.len()].0 == n - 1);
                }
            }
        }
    }
}

proof fn lemma_distinct(jobs: Seq<Job>, p: spec_fn(Job) -> bool)
    requires
        forall|i: int, j: int|
            #![trigger jobs[i], jobs[j]]
            0 <= i < j < jobs.len() ==> jobs[i] != jobs[j],
    ensures
        forall|i: int, j: int|
            #![trigger jobs.filter(p)[i], jobs.filter(p)[j]]
            0 <= i < j < jobs.filter(p).len() ==> jobs.filter(p)[i] != jobs.filter(p)[j],
    decreases jobs.len(),
{
    reveal(Seq::filter);
    if jobs.len() > 0 {
        let rest = jobs.drop_last();
        assert forall|i: int, j: int|
            #![trigger rest[i], rest[j]]
            0 <= i < j < rest.len() implies rest[i] != rest[j] by {
            assert(rest[i] == jobs[i] && rest[j] == jobs[j]);
        }
        lemma_distinct(rest, p);
        let f = rest.filter(p);
        let all = jobs.filter(p);
        if p(jobs.last()) {
            assert forall|i: int, j: int|
                #![trigger all[i], all[j]]
                0 <= i < j < all.len() implies all[i] != all[j] by {
                if j < f.len() {
                    assert(f[i] != f[j]);
                } else {
                    assert(f.contains(f[i]));
                    rest.lemma_filter_contains_rev(p, f[i]);
                    let a = choose|a: int| 0 <= a < rest.len() && rest[a] == f[i];
                    assert(jobs[a] != jobs[jobs.len() - 1]);
                }
            }
        }
    }
}

proof fn lemma_newest_distinct(r: Seq<Job>, jobs: Seq<Job>)
    requires
        store::newest_first(r, jobs, 10_000),
        forall|i: int, j: int|
            #![trigger jobs[i], jobs[j]]
            0 <= i < j < jobs.len() ==> jobs[i] != jobs[j],
    ensures
        forall|i: int, j: int| #![trigger r[i], r[j]] 0 <= i < j < r.len() ==> r[i] != r[j],
{
    let keys = store::newest_keys(jobs);
    let at = choose|at: Seq<usize>|
        {
            &&& #[trigger] order::is_ascending(keys, at)
            &&& r.len() == if 10_000 < jobs.len() {
                10_000nat
            } else {
                jobs.len()
            }
            &&& forall|i: int| 0 <= i < r.len() ==> #[trigger] r[i] == jobs[at[i] as int]
        };
    assert forall|i: int, j: int|
        #![trigger r[i], r[j]]
        0 <= i < j < r.len() implies r[i] != r[j] by {
        assert(at[i] < keys.len() && at[j] < keys.len());
        assert(order::before(keys, at[i] as int, at[j] as int));
        assert(at[i] != at[j]);
        if at[i] < at[j] {
            assert(jobs[at[i] as int] != jobs[at[j] as int]);
        } else {
            assert(jobs[at[j] as int] != jobs[at[i] as int]);
        }
    }
}

// -- steps ----------------------------------------------------------------------------------

/// The lines of a step.
pub open spec fn in_step(name: Seq<char>) -> spec_fn(LineView) -> bool {
    |l: LineView| l.step == Some(name)
}

/// The lines of a step that are as severe.
pub open spec fn in_step_at(name: Seq<char>, level: Seq<char>) -> spec_fn(LineView) -> bool {
    |l: LineView| l.step == Some(name) && l.level == level
}

/// A step tells of its lines: where they begin and end, how many they are, and how many of
/// them are errors and warnings.
pub open spec fn tells_step(s: StepView, lines: Seq<LineView>) -> bool {
    let own = lines.filter(in_step(s.name));
    &&& own.len() > 0
    &&& s.lines == own.len()
    &&& s.first_line == own[0].line_no
    &&& s.last_line == own.last().line_no
    &&& s.errors == lines.filter(in_step_at(s.name, "error"@)).len()
    &&& s.warnings == lines.filter(in_step_at(s.name, "warn"@)).len()
}

proof fn lemma_step_at(steps: Seq<StepView>, name: Seq<char>)
    ensures
        ({
            let k = log_search::step_index(steps, name);
            &&& 0 <= k <= steps.len()
            &&& k < steps.len() ==> steps[k].name == name
            &&& forall|i: int| 0 <= i < k ==> (#[trigger] steps[i]).name != name
        }),
    decreases steps.len(),
{
    if steps.len() > 0 && steps[0].name != name {
        let rest = steps.drop_first();
        lemma_step_at(rest, name);
        let k = log_search::step_index(steps, name);
        assert forall|i: int| 0 <= i < k implies (#[trigger] steps[i]).name != name by {
            if i > 0 {
                assert(rest[i - 1] == steps[i]);
            }
        }
    }
}

proof fn lemma_timeline(lines: Seq<LineView>)
    ensures
        ({
            let t = log_search::timeline(lines);
            &&& forall|i: int| 0 <= i < t.len() ==> tells_step(#[trigger] t[i], lines)
            &&& forall|i: int, j: int|
                #![trigger t[i], t[j]]
                0 <= i < j < t.len() ==> t[i].name != t[j].name
            &&& forall|k: int|
                0 <= k < lines.len() && (#[trigger] lines[k]).step is Some
                    ==> log_search::step_index(t, lines[k].step->0) < t.len()
        }),
    decreases lines.len(),
{
    reveal(Seq::filter);
    if lines.len() > 0 {
        let rest = lines.drop_last();
        let last = lines.last();
        lemma_timeline(rest);
        let before = log_search::timeline(rest);
        let t = log_search::timeline(lines);
        reveal_strlit("error");
        reveal_strlit("warn");
        assert("error"@[0] == 'e' && "warn"@[0] == 'w');
        if last.step is None {
            assert(t == before);
            assert forall|i: int| 0 <= i < t.len() implies tells_step(#[trigger] t[i], lines) by {
                assert(tells_step(before[i], rest));
                assert(lines.filter(in_step(t[i].name)) == rest.filter(in_step(t[i].name)));
            }
            assert forall|k: int| 0 <= k < lines.len() && (#[trigger] lines[k]).step is Some implies log_search::step_index(
                t,
                lines[k].step->0,
            ) < t.len() by {
                assert(rest[k] == lines[k]);
            }
        } else {
            let name = last.step->0;
            lemma_step_at(before, name);
            let at = log_search::step_index(before, name);
            assert forall|i: int| 0 <= i < t.len() implies tells_step(#[trigger] t[i], lines) by {
                if i != at {
                    assert(t[i] == before[i]);
                    assert(tells_step(before[i], rest));
                    if i > at {
                        assert(before[at].name != before[i].name);
                    }
                    assert(before[i].name != name);
                    assert(lines.filter(in_step(t[i].name)) == rest.filter(in_step(t[i].name)));
                } else if at < before.len() {
                    assert(tells_step(before[at], rest));
                    let own = rest.filter(in_step(name));
                    assert(lines.filter(in_step(name)) == own.push(last));
                    assert(own.push(last)[0] == own[0]);
                } else {
                    assert forall|k: int| 0 <= k < rest.len() implies !in_step(name)(
                        #[trigger] rest[k],
                    ) by {
                        if rest[k].step == Some(name) {
                            assert(log_search::step_index(before, rest[k].step->0) < before.len());
                        }
                    }
                    pool::lemma_no_filter(rest, in_step(name));
                    pool::lemma_no_filter(rest, in_step_at(name, "error"@));
                    pool::lemma_no_filter(rest, in_step_at(name, "warn"@));
                    assert(lines.filter(in_step(name)) == rest.filter(in_step(name)).push(last));
                }
            }
            assert forall|i: int, j: int|
                #![trigger t[i], t[j]]
                0 <= i < j < t.len() implies t[i].name != t[j].name by {
                if j < before.len() {
                    assert(before[i].name != before[j].name);
                } else {
                    assert(at == before.len());
                    assert(before[i].name != name);
                }
            }
            assert forall|k: int| 0 <= k < lines.len() && (#[trigger] lines[k]).step is Some implies log_search::step_index(
                t,
                lines[k].step->0,
            ) < t.len() by {
                let own = lines[k].step->0;
                lemma_step_at(t, own);
                if own == name {
                    assert(t[at].name == name);
                } else {
                    assert(k < rest.len());
                    assert(rest[k] == lines[k]);
                    lemma_step_at(before, own);
                    let b = log_search::step_index(before, own);
                    assert(t[b].name == before[b].name);
                }
            }
        }
    }
}

/// A timeline tells of every step of a job's log, once: where its lines begin and end, how
/// many they are, and how many of them are errors and warnings.
pub proof fn law_timelines_count_the_lines_of_every_step(
    job: Job,
    archive: Archive,
    log: Result<String, AgentError>,
    r: Result<StepsReport, AgentError>,
    lines: Seq<LineView>,
    i: int,
    k: int,
)
    requires
        call_ensures(agent::read_worker_logs, (&job, &archive), log),
        call_ensures(log_search::steps, (&job, &archive), r),
        log is Ok ==> lines == log_search::parsed_lines((log->Ok_0)@),
        log is Ok && r is Ok ==> 0 <= i < (r->Ok_0).steps@.len() && 0 <= k < lines.len(),
    ensures
        log is Ok <==> r is Ok,
        r is Ok ==> {
            let s = (r->Ok_0).steps@;
            let own = lines.filter(in_step(s[i].name@));
            &&& (r->Ok_0).job == job
            &&& own.len() > 0
            &&& s[i].lines == own.len()
            &&& s[i].first_line == own[0].line_no
            &&& s[i].last_line == own.last().line_no
            &&& s[i].errors == lines.filter(in_step_at(s[i].name@, "error"@)).len()
            &&& s[i].warnings == lines.filter(in_step_at(s[i].name@, "warn"@)).len()
            &&& lines[k].step is Some ==> exists|j: int|
                0 <= j < s.len() && (#[trigger] s[j]).name@ == lines[k].step->0
            &&& forall|a: int, b: int|
                #![trigger s[a], s[b]]
                0 <= a < b < s.len() ==> s[a].name@ != s[b].name@
        },
{
    if r is Ok {
        let s = (r->Ok_0).steps@;
        let t = log_search::step_views(s);
        let all = log_search::job_lines(job, archive);
        assert(lines == all);
        lemma_timeline(lines);
        assert(t[i] == s[i]@);
        assert(tells_step(t[i], lines));
        assert forall|a: int, b: int|
            #![trigger s[a], s[b]]
            0 <= a < b < s.len() implies s[a].name@ != s[b].name@ by {
            assert(t[a] == s[a]@ && t[b] == s[b]@);
            assert(t[a].name != t[b].name);
        }
        if lines[k].step is Some {
            lemma_step_at(t, lines[k].step->0);
            let j = log_search::step_index(t, lines[k].step->0);
            assert(t[j] == s[j]@);
            assert(s[j].name@ == lines[k].step->0);
        }
    }
}

// -- suggestions ------------------------------------------------------------------------------

proof fn lemma_values(jobs: Seq<Job>, archive: Archive, key: Seq<char>, n: int, v: Seq<char>)
    requires
        0 <= n <= jobs.len(),
    ensures
        log_search::job_values(jobs, archive, key, n).contains(v) <==> v.len() > 0 && exists|j: int|
            0 <= j < n && log_search::is_readable(#[trigger] jobs[j], archive) && queries::told(
                jobs[j],
                None,
                key,
            ) == v,
    decreases n,
{
    if n > 0 {
        lemma_values(jobs, archive, key, n - 1, v);
        queries::lemma_told(jobs[n - 1], None, key);
        let before = log_search::job_values(jobs, archive, key, n - 1);
        if log_search::job_values(jobs, archive, key, n).contains(v) {
            if before.contains(v) {
                let j = choose|j: int|
                    0 <= j < n - 1 && log_search::is_readable(#[trigger] jobs[j], archive)
                        && queries::told(jobs[j], None, key) == v;
                assert(log_search::is_readable(jobs[j], archive));
            } else {
                assert(log_search::is_readable(jobs[n - 1], archive));
                assert(queries::told(jobs[n - 1], None, key) == v);
            }
        }
        if v.len() > 0 && exists|j: int|
            0 <= j < n && log_search::is_readable(#[trigger] jobs[j], archive) && queries::told(
                jobs[j],
                None,
                key,
            ) == v {
            let j = choose|j: int|
                0 <= j < n && log_search::is_readable(#[trigger] jobs[j], archive)
                    && queries::told(jobs[j], None, key) == v;
            if j < n - 1 {
                assert(before.contains(v));
            }
        }
    }
}

/// What is offered of a property comes from jobs with logs that can be read, in ascending
/// order, and never more than two hundred values; where fewer are offered none is left out.
pub open spec fn offers(
    values: Seq<Seq<char>>,
    jobs: Seq<Job>,
    archive: Archive,
    key: Seq<char>,
) -> bool {
    &&& values.len() <= 200
    &&& forall|i: int, j: int|
        #![trigger values[i], values[j]]
        0 <= i < j < values.len() ==> text::text_lt(values[i], values[j])
    &&& forall|v: Seq<char>| #[trigger]
        values.contains(v) ==> v.len() > 0 && exists|j: int|
            0 <= j < jobs.len() && (#[trigger] jobs[j]).log_dir is Some && queries::told(
                jobs[j],
                None,
                key,
            ) == v
    &&& values.len() < 200 && jobs.len() <= 10_000 ==> forall|j: int|
        0 <= j < jobs.len() && (#[trigger] jobs[j]).log_dir is Some && agent::worker_log(
            jobs[j],
            archive,
        ) is Ok && queries::told(jobs[j], None, key).len() > 0 ==> values.contains(
            queries::told(jobs[j], None, key),
        )
}

proof fn lemma_offers(
    values: Seq<Seq<char>>,
    store: Store,
    jobs: Seq<Job>,
    archive: Archive,
    key: Seq<char>,
)
    requires
        store::newest_first(jobs, store.jobs@.filter(store::logged_job()), 10_000),
        log_search::is_offer(
            values,
            log_search::job_values(jobs, archive, key, jobs.len() as int),
        ),
    ensures
        offers(values, store.jobs@, archive, key),
{
    let logged = store.jobs@.filter(store::logged_job());
    let set = log_search::job_values(jobs, archive, key, jobs.len() as int);
    let all = choose|all: Seq<Seq<char>>|
        {
            &&& #[trigger] log_search::is_listing(all, set)
            &&& values == if all.len() > 200 {
                all.take(200)
            } else {
                all
            }
        };
    assert(store.jobs.len() == store.jobs@.len());
    store.jobs@.lemma_filter_len(store::logged_job());
    journal::lemma_newest(jobs, logged, 10_000);
    assert forall|v: Seq<char>| #[trigger] values.contains(v) implies v.len() > 0 && exists|j: int|
        0 <= j < store.jobs@.len() && (#[trigger] store.jobs@[j]).log_dir is Some && queries::told(
            store.jobs@[j],
            None,
            key,
        ) == v by {
        let i = choose|i: int| 0 <= i < values.len() && values[i] == v;
        assert(all[i] == v);
        assert(all.contains(v));
        assert(set.contains(v));
        lemma_values(jobs, archive, key, jobs.len() as int, v);
        let k = choose|k: int|
            0 <= k < jobs.len() && log_search::is_readable(#[trigger] jobs[k], archive)
                && queries::told(jobs[k], None, key) == v;
        assert(logged.contains(jobs[k]));
        history::lemma_filtered(store.jobs@, store::logged_job(), jobs[k]);
        let j = choose|j: int| 0 <= j < store.jobs@.len() && store.jobs@[j] == jobs[k];
        assert(store.jobs@[j].log_dir is Some);
    }
    if values.len() < 200 && store.jobs@.len() <= 10_000 {
        assert forall|j: int|
            0 <= j < store.jobs@.len() && (#[trigger] store.jobs@[j]).log_dir is Some
                && agent::worker_log(store.jobs@[j], archive) is Ok && queries::told(
                store.jobs@[j],
                None,
                key,
            ).len() > 0 implies values.contains(queries::told(store.jobs@[j], None, key)) by {
            let job = store.jobs@[j];
            let v = queries::told(job, None, key);
            history::lemma_filtered(store.jobs@, store::logged_job(), job);
            assert(logged.contains(job));
            let x = choose|x: int| 0 <= x < logged.len() && logged[x] == job;
            lemma_all_listed(jobs, logged, x);
            let k = choose|k: int| 0 <= k < jobs.len() && jobs[k] == job;
            assert(log_search::is_readable(jobs[k], archive));
            lemma_values(jobs, archive, key, jobs.len() as int, v);
            assert(set.contains(v));
            assert(all.to_set().contains(v));
            assert(all.contains(v));
        }
    }
}

proof fn lemma_all_listed(r: Seq<Job>, jobs: Seq<Job>, x: int)
    requires
        store::newest_first(r, jobs, 10_000),
        jobs.len() <= 10_000,
        0 <= x < jobs.len(),
    ensures
        r.contains(jobs[x]),
{
    let keys = store::newest_keys(jobs);
    let at = choose|at: Seq<usize>|
        {
            &&& #[trigger] order::is_ascending(keys, at)
            &&& r.len() == if 10_000 < jobs.len() {
                10_000nat
            } else {
                jobs.len()
            }
            &&& forall|i: int| 0 <= i < r.len() ==> #[trigger] r[i] == jobs[at[i] as int]
        };
    assert(at.contains(x as usize));
    let i = choose|i: int| 0 <= i < at.len() && at[i] == x as usize;
    assert(r[i] == jobs[x]);
}

/// Repos, workflows, jobs and branches are offered as the logs that can be read have them,
/// with the four levels of severity.
pub proof fn law_suggestions_come_from_readable_logs(store: Store, archive: Archive, r: Suggestions)
    requires
        call_ensures(log_search::suggestions, (&store, &archive), r),
    ensures
        offers(text::texts(r.repos@), store.jobs@, archive, "repo"@),
        offers(text::texts(r.workflows@), store.jobs@, archive, "workflow"@),
        offers(text::texts(r.job_names@), store.jobs@, archive, "job_name"@),
        offers(text::texts(r.branches@), store.jobs@, archive, "branch"@),
        r.levels@.len() == 4,
        r.levels@[0]@ == "error"@,
        r.levels@[1]@ == "warn"@,
        r.levels@[2]@ == "info"@,
        r.levels@[3]@ == "debug"@,
{
    let jobs = choose|jobs: Seq<Job>|
        {
            &&& #[trigger] store::newest_first(
                jobs,
                store.jobs@.filter(store::logged_job()),
                10_000,
            )
            &&& log_search::suggested(r, jobs, archive)
        };
    lemma_offers(text::texts(r.repos@), store, jobs, archive, "repo"@);
    lemma_offers(text::texts(r.workflows@), store, jobs, archive, "workflow"@);
    lemma_offers(text::texts(r.job_names@), store, jobs, archive, "job_name"@);
    lemma_offers(text::texts(r.branches@), store, jobs, archive, "branch"@);
    let levels = seq!["error"@, "warn"@, "info"@, "debug"@];
    assert(levels.len() == r.levels@.len());
    assert(levels[0] == r.levels@[0]@ && levels[1] == r.levels@[1]@);
    assert(levels[2] == r.levels@[2]@ && levels[3] == r.levels@[3]@);
}

proof fn lemma_read(jobs: Seq<Job>, archive: Archive, n: int)
    requires
        0 <= n <= jobs.len(),
    ensures
        log_search::readable(jobs, archive, n) == logs::tally(
            n,
            |j: int|
                if agent::worker_log(jobs[j], archive) is Ok {
                    1
                } else {
                    0
                },
        ),
        log_search::readable_lines(jobs, archive, n) == logs::tally(
            n,
            |j: int|
                if agent::worker_log(jobs[j], archive) is Ok {
                    log_search::parsed_lines(agent::worker_log(jobs[j], archive)->Ok_0).len() as int
                } else {
                    0
                },
        ),
    decreases n,
{
    if n > 0 {
        lemma_read(jobs, archive, n - 1);
    }
}

/// Suggestions count the jobs whose logs can be read, among the newest ten thousand with logs,
/// and all their lines.
pub proof fn law_suggestions_count_what_they_read(store: Store, archive: Archive, r: Suggestions)
    requires
        call_ensures(log_search::suggestions, (&store, &archive), r),
    ensures
        exists|jobs: Seq<Job>|
            {
                &&& #[trigger] journal::lists_newest(
                    jobs,
                    store.jobs@.filter(store::logged_job()),
                    10_000,
                )
                &&& r.indexed_jobs == logs::tally(
                    jobs.len() as int,
                    |j: int|
                        if agent::worker_log(jobs[j], archive) is Ok {
                            1
                        } else {
                            0
                        },
                )
                &&& r.indexed_lines == logs::tally(
                    jobs.len() as int,
                    |j: int|
                        if agent::worker_log(jobs[j], archive) is Ok {
                            log_search::parsed_lines(
                                agent::worker_log(jobs[j], archive)->Ok_0,
                            ).len() as int
                        } else {
                            0
                        },
                )
            },
{
    let logged = store.jobs@.filter(store::logged_job());
    let jobs = choose|jobs: Seq<Job>|
        {
            &&& #[trigger] store::newest_first(jobs, logged, 10_000)
            &&& log_search::suggested(r, jobs, archive)
        };
    assert(store.jobs.len() == store.jobs@.len());
    store.jobs@.lemma_filter_len(store::logged_job());
    journal::lemma_newest(jobs, logged, 10_000);
    lemma_read(jobs, archive, jobs.len() as int);
    assert(journal::lists_newest(jobs, logged, 10_000));
}

/// A line of a job's log that stands in a step of a name.
pub open spec fn has_step(job: Job, archive: Archive, k: int, v: Seq<char>) -> bool {
    &&& agent::worker_log(job, archive) is Ok
    &&& 0 <= k < log_search::parsed_lines(agent::worker_log(job, archive)->Ok_0).len()
    &&& log_search::parsed_lines(agent::worker_log(job, archive)->Ok_0)[k].step == Some(v)
}

proof fn lemma_line_steps(set: Set<Seq<char>>, lines: Seq<LineView>, n: int, v: Seq<char>)
    requires
        0 <= n <= lines.len(),
    ensures
        log_search::line_steps(set, lines, n).contains(v) <==> set.contains(v) || (v.len() > 0
            && exists|k: int| 0 <= k < n && (#[trigger] lines[k]).step == Some(v)),
    decreases n,
{
    if n > 0 {
        lemma_line_steps(set, lines, n - 1, v);
        let before = log_search::line_steps(set, lines, n - 1);
        if log_search::line_steps(set, lines, n).contains(v) && !before.contains(v) {
            assert(lines[n - 1].step == Some(v));
        }
        if v.len() > 0 && exists|k: int| 0 <= k < n && (#[trigger] lines[k]).step == Some(v) {
            let k = choose|k: int| 0 <= k < n && (#[trigger] lines[k]).step == Some(v);
            if k < n - 1 {
                assert(before.contains(v));
            }
        }
        if before.contains(v) && !set.contains(v) {
            let k = choose|k: int| 0 <= k < n - 1 && (#[trigger] lines[k]).step == Some(v);
            assert(lines[k].step == Some(v));
        }
    }
}

proof fn lemma_job_steps(jobs: Seq<Job>, archive: Archive, n: int, v: Seq<char>)
    requires
        0 <= n <= jobs.len(),
    ensures
        log_search::job_steps(jobs, archive, n).contains(v) <==> v.len() > 0 && exists|j: int, k: int|
            0 <= j < n && #[trigger] has_step(jobs[j], archive, k, v),
    decreases n,
{
    if n > 0 {
        lemma_job_steps(jobs, archive, n - 1, v);
        let before = log_search::job_steps(jobs, archive, n - 1);
        let job = jobs[n - 1];
        if log_search::is_readable(job, archive) {
            let lines = log_search::job_lines(job, archive);
            lemma_line_steps(before, lines, lines.len() as int, v);
            if log_search::job_steps(jobs, archive, n).contains(v) && !before.contains(v) {
                let k = choose|k: int|
                    0 <= k < lines.len() && (#[trigger] lines[k]).step == Some(v);
                assert(has_step(jobs[n - 1], archive, k, v));
            }
        }
        if before.contains(v) {
            let (j, k) = choose|j: int, k: int|
                0 <= j < n - 1 && #[trigger] has_step(jobs[j], archive, k, v);
            assert(has_step(jobs[j], archive, k, v));
        }
        if v.len() > 0 && exists|j: int, k: int|
            0 <= j < n && #[trigger] has_step(jobs[j], archive, k, v) {
            let (j, k) = choose|j: int, k: int|
                0 <= j < n && #[trigger] has_step(jobs[j], archive, k, v);
            if j < n - 1 {
                assert(before.contains(v));
            } else {
                assert(log_search::job_lines(job, archive)[k].step == Some(v));
            }
        }
    }
}

/// Steps are offered as the logs that can be read have them: in ascending order, two hundred
/// at most, and none that no log has; where fewer are offered none is left out.
pub proof fn law_suggested_steps_come_from_readable_logs(
    store: Store,
    archive: Archive,
    r: Suggestions,
    i: int,
    j: int,
    v: Seq<char>,
    k: int,
)
    requires
        call_ensures(log_search::suggestions, (&store, &archive), r),
        0 <= i < r.steps@.len(),
        0 <= j < store.jobs@.len(),
    ensures
        r.steps@.len() <= 200,
        r.steps@[i]@.len() > 0,
        exists|a: int, b: int|
            0 <= a < store.jobs@.len() && store.jobs@[a].log_dir is Some && #[trigger] has_step(
                store.jobs@[a],
                archive,
                b,
                r.steps@[i]@,
            ),
        r.steps@.len() < 200 && store.jobs@.len() <= 10_000 && store.jobs@[j].log_dir is Some
            && v.len() > 0 && has_step(store.jobs@[j], archive, k, v) ==> text::texts(
            r.steps@,
        ).contains(v),
{
    let logged = store.jobs@.filter(store::logged_job());
    let jobs = choose|jobs: Seq<Job>|
        {
            &&& #[trigger] store::newest_first(jobs, logged, 10_000)
            &&& log_search::suggested(r, jobs, archive)
        };
    let n = jobs.len() as int;
    let set = log_search::job_steps(jobs, archive, n);
    let values = text::texts(r.steps@);
    assert(values.len() == r.steps@.len());
    let all = choose|all: Seq<Seq<char>>|
        {
            &&& #[trigger] log_search::is_listing(all, set)
            &&& values == if all.len() > 200 {
                all.take(200)
            } else {
                all
            }
        };
    assert(store.jobs.len() == store.jobs@.len());
    store.jobs@.lemma_filter_len(store::logged_job());
    journal::lemma_newest(jobs, logged, 10_000);
    let own = r.steps@[i]@;
    assert(values[i] == own);
    assert(all[i] == own);
    assert(all.contains(own));
    assert(all.to_set().contains(own));
    lemma_job_steps(jobs, archive, n, own);
    let (x, b) = choose|x: int, b: int| 0 <= x < n && #[trigger] has_step(jobs[x], archive, b, own);
    assert(logged.contains(jobs[x]));
    history::lemma_filtered(store.jobs@, store::logged_job(), jobs[x]);
    let a = choose|a: int| 0 <= a < store.jobs@.len() && store.jobs@[a] == jobs[x];
    assert(has_step(store.jobs@[a], archive, b, own));
    if r.steps@.len() < 200 && store.jobs@.len() <= 10_000 && store.jobs@[j].log_dir is Some
        && v.len() > 0 && has_step(store.jobs@[j], archive, k, v) {
        let job = store.jobs@[j];
        history::lemma_filtered(store.jobs@, store::logged_job(), job);
        let y = choose|y: int| 0 <= y < logged.len() && logged[y] == job;
        lemma_all_listed(jobs, logged, y);
        let z = choose|z: int| 0 <= z < jobs.len() && jobs[z] == job;
        assert(has_step(jobs[z], archive, k, v));
        lemma_job_steps(jobs, archive, n, v);
        assert(all.to_set().contains(v));
        assert(all.contains(v));
    }
}

// -- in words ---------------------------------------------------------------------------------

proof fn lemma_in_concat(parts: Seq<Seq<char>>, i: int)
    requires
        0 <= i < parts.len(),
    ensures
        texts::stands_in(parts[i], text::concat(parts)),
    decreases parts.len(),
{
    let before = text::concat(parts.drop_last());
    if i == parts.len() - 1 {
        assert(text::concat(parts) =~= before + parts[i] + Seq::<char>::empty());
    } else {
        lemma_in_concat(parts.drop_last(), i);
        let (a, b) = choose|a: Seq<char>, b: Seq<char>| before == #[trigger] (a + parts[i] + b);
        assert(text::concat(parts) =~= a + parts[i] + (b + parts.last()));
    }
}

/// A search in words begins with how much was found where, and whether some of it is left
/// out; every result stands in it, with its job, its line and its severity.
pub proof fn law_searches_in_words(report: SearchReport, r: String, i: int, cut: Seq<char>)
    requires
        report.truncated ==> cut == " (output truncated)"@,
        !report.truncated ==> cut == Seq::<char>::empty(),
        call_ensures(log_search::search_text, (&report,), r),
        0 <= i < report.results@.len(),
        report.results@[i].workflow is Some,
        report.results@[i].job_name is Some,
        report.results@[i].step_name is Some,
    ensures
        ({
            let h = report.results@[i];
            texts::stands_in(
                number::dec_int(h.gh_job_id as int) + " "@ + h.repo@ + " / "@ + (h.workflow->0)@
                    + " / "@ + (h.job_name->0)@ + (" / "@ + (h.step_name->0)@) + ":"@ + number::dec(
                    h.line_no as nat,
                ) + " ["@ + h.level@ + "]\n"@ + h.message@ + "\n\n"@,
                r@,
            )
        }),
        exists|rest: Seq<char>|
            r@ == #[trigger] (number::dec(report.matches as nat) + " matches across "@ + number::dec(
                report.scanned_jobs as nat,
            ) + " jobs"@ + cut + "\n"@ + rest),
{
    reveal_strlit("");
    assert(""@ =~= Seq::<char>::empty());
    let parts = report.results@.map_values(|h: SearchHit| log_search::hit_text(h));
    let body = text::concat(parts);
    let head = log_search::report_head(report);
    lemma_in_concat(parts, i);
    let (a, b) = choose|a: Seq<char>, b: Seq<char>| body == #[trigger] (a + parts[i] + b);
    assert(r@ =~= (head + a) + parts[i] + b);
    assert(r@ == head + body);
}

/// Every step of a timeline stands in what is said of it.
pub proof fn law_timelines_in_words(report: StepsReport, r: String, i: int)
    requires
        call_ensures(log_search::steps_text, (&report,), r),
        0 <= i < report.steps@.len(),
    ensures
        ({
            let s = report.steps@[i];
            texts::stands_in(
                text::pad_left(number::dec(s.first_line as nat), 6) + "-"@ + text::pad_left(
                    number::dec(s.last_line as nat),
                    6,
                ) + "  "@ + text::pad_left(number::dec(s.lines as nat), 6) + " lines  "@
                    + text::pad_left(number::dec(s.errors as nat), 3) + " errors  "@
                    + text::pad_left(number::dec(s.warnings as nat), 3) + " warnings  "@ + s.name@
                    + "\n"@,
                r@,
            )
        }),
{
    let views = log_search::step_views(report.steps@);
    let parts = views.map_values(|s: StepView| log_search::step_text(s));
    assert(views[i] == report.steps@[i]@);
    lemma_in_concat(parts, i);
}

/// Texts are filled with spaces up to a width, behind or before them; longer ones stay as
/// they are.
pub proof fn law_texts_are_filled_up(a: &mut String, b: &mut String, s: &str, width: usize)
    requires
        call_ensures(text::push_padded, (a, s, width), ()),
        call_ensures(text::push_right_aligned, (b, s, width), ()),
    ensures
        ({
            let n = if s@.len() < width {
                (width - s@.len()) as nat
            } else {
                0
            };
            &&& final(a)@ == old(a)@ + s@ + Seq::new(n, |i: int| ' ')
            &&& final(b)@ == old(b)@ + Seq::new(n, |i: int| ' ') + s@
        }),
{
    let n = if s@.len() < width {
        (width - s@.len()) as nat
    } else {
        0
    };
    let fill = Seq::new(n, |i: int| ' ');
    assert(text::spaces(width - s@.len()) =~= fill);
    assert(final(a)@ =~= old(a)@ + s@ + fill);
    assert(final(b)@ =~= old(b)@ + fill + s@);
}

/// A table of jobs says so where there are none; otherwise it has a line for every job: its
/// id, what came of it or that it runs, its repo, its name, how many seconds it took, and
/// what is kept of it.
pub proof fn law_job_tables_tell_of_every_job(
    jobs: Vec<Job>,
    r: String,
    i: int,
    took: Seq<char>,
    kept: Seq<char>,
    seconds: int,
)
    requires
        call_ensures(agent::jobs_table, (&jobs,), r),
        0 <= i < jobs@.len(),
        jobs@[i].started_at is Some && jobs@[i].completed_at is Some ==> {
            let us = jobs@[i].completed_at->0 - jobs@[i].started_at->0;
            &&& took == number::dec_int(seconds) + "s"@
            &&& us >= 0 ==> seconds * 1_000_000 - 500_000 <= us < seconds * 1_000_000 + 500_000
            &&& us < 0 ==> seconds * 1_000_000 - 500_000 < us <= seconds * 1_000_000 + 500_000
        },
        jobs@[i].started_at is None || jobs@[i].completed_at is None ==> took == ""@,
        kept == (if jobs@[i].log_dir is Some {
            "logs"@
        } else {
            ""@
        }) + (if jobs@[i].kept_image is Some {
            "+workspace"@
        } else {
            ""@
        }),
    ensures
        ({
            let j = jobs@[i];
            texts::stands_in(
                text::pad_right(number::dec_int(j.gh_job_id as int), 12) + " "@ + text::pad_right(
                    if j.conclusion is Some {
                        (j.conclusion->0)@
                    } else {
                        "running"@
                    },
                    9,
                ) + " "@ + text::pad_right(j.repo@, 28) + " "@ + text::pad_right(
                    if j.job_name is Some {
                        (j.job_name->0)@
                    } else {
                        ""@
                    },
                    24,
                ) + " "@ + text::pad_left(took, 6) + "  "@ + kept + "\n"@,
                r@,
            )
        }),
{
    let parts = jobs@.map_values(|j: Job| agent::job_row(j));
    lemma_in_concat(parts, i);
    let j = jobs@[i];
    assert(agent::duration(j) == took);
    let x = text::pad_right(number::dec_int(j.gh_job_id as int), 12) + " "@ + text::pad_right(
        agent::text_or(j.conclusion, "running"@),
        9,
    ) + " "@ + text::pad_right(j.repo@, 28) + " "@ + text::pad_right(
        agent::text_or(j.job_name, ""@),
        24,
    ) + " "@ + text::pad_left(took, 6) + "  "@;
    let a = if j.log_dir is Some {
        "logs"@
    } else {
        ""@
    };
    let b = if j.kept_image is Some {
        "+workspace"@
    } else {
        ""@
    };
    assert(x + a + b + "\n"@ =~= x + (a + b) + "\n"@);
    assert(parts[i] == x + a + b + "\n"@);
}

/// Without jobs a table says that there are none.
pub proof fn law_empty_tables_say_so(jobs: Vec<Job>, r: String)
    requires
        call_ensures(agent::jobs_table, (&jobs,), r),
        jobs@.len() == 0,
    ensures
        r@ == "no jobs recorded\n"@,
{
}

proof fn lemma_plain_bytes(s: Seq<char>)
    requires
        forall|i: int| 0 <= i < s.len() ==> (#[trigger] s[i]) < '\u{80}',
    ensures
        agent::bytes(s) == s.len(),
    decreases s.len(),
{
    if s.len() > 0 {
        assert forall|i: int| 0 <= i < s.drop_last().len() implies (#[trigger] s.drop_last()[i])
            < '\u{80}' by {
            assert(s.drop_last()[i] == s[i]);
        }
        lemma_plain_bytes(s.drop_last());
    }
}

/// A digest tells of the job, what came of it and where it is shown; of its commit, by nine
/// characters, its branch, its event and its title; of its memory, with whether it ran out of
/// it; of its kept workspace; and it holds the excerpt of its log, or says that there is none.
pub proof fn law_digests_in_words(
    d: crate::agent::Digest,
    r: String,
    memory: Seq<char>,
    after: Seq<char>,
    log: Seq<char>,
)
    requires
        call_ensures(agent::why_text, (&d,), r),
        d.job.workflow is Some && d.job.job_name is Some && d.job.conclusion is Some
            && d.job.html_url is Some && d.job.head_sha is Some && d.job.head_branch is Some
            && d.job.event is Some && d.job.title is Some,
        (d.job.head_sha->0)@.len() >= 9,
        forall|i: int|
            0 <= i < (d.job.head_sha->0)@.len() ==> (#[trigger] (d.job.head_sha->0)@[i]) < '\u{80}',
        d.job.peak_mem_mb is None ==> memory == ""@,
        d.job.peak_mem_mb is Some && d.job.oom == Some(true) ==> memory == "peak memory: "@
            + number::dec(d.job.peak_mem_mb->0 as nat) + " MB"@ + " — OOM-KILLED"@ + "\n"@,
        d.job.peak_mem_mb is Some && d.job.oom != Some(true) ==> memory == "peak memory: "@
            + number::dec(d.job.peak_mem_mb->0 as nat) + " MB"@ + "\n"@,
        d.post_mortem is Some ==> after == (d.post_mortem->0)@ + "\n"@,
        d.post_mortem is None ==> after == ""@,
        d.excerpt is Some ==> log == "\n--- log excerpt around the failure ---\n"@ + (
        d.excerpt->0)@ + "\n"@,
        d.excerpt is None ==> log == "(no captured logs for this job)\n"@,
    ensures
        ({
            let j = d.job;
            r@ == j.repo@ + " / "@ + (j.workflow->0)@ + " / "@ + (j.job_name->0)@ + " — "@ + (
            j.conclusion->0)@ + "\n"@ + (j.html_url->0)@ + "\n"@ + ((j.head_branch->0)@ + " @ "@ + (
            j.head_sha->0)@.take(9) + " ("@ + (j.event->0)@ + ") — "@ + (j.title->0)@ + "\n"@)
                + memory + after + log
        }),
{
    reveal_strlit("");
    let sha = (d.job.head_sha->0)@;
    let nine = sha.take(9);
    assert forall|i: int| 0 <= i < nine.len() implies (#[trigger] nine[i]) < '\u{80}' by {
        assert(nine[i] == sha[i]);
    }
    lemma_plain_bytes(nine);
    assert(agent::cut_at(sha, 9));
    let k = choose|k: int| #[trigger] agent::cut_at(sha, k);
    agent::lemma_one_cut(sha, 9, k);
    assert(agent::abbreviated(sha) == nine);
    let m = "peak memory: "@ + number::dec(d.job.peak_mem_mb->0 as nat) + " MB"@;
    assert(m + ""@ =~= m);
}

/// A commit can be abbreviated wherever its hash is plain and long enough; a digest can be
/// written out wherever its job's commit can, or is not known.
pub proof fn law_plain_commits_are_abbreviated(d: crate::agent::Digest, a: bool, b: bool)
    requires
        call_ensures(agent::is_writable, (&d,), a),
        call_ensures(agent::names_commit, (&d.job,), b),
    ensures
        a <==> b,
        d.job.head_sha is None ==> a,
        d.job.head_sha is Some && (d.job.head_sha->0)@.len() >= 9 && (forall|i: int|
            0 <= i < (d.job.head_sha->0)@.len() ==> (#[trigger] (d.job.head_sha->0)@[i])
                < '\u{80}') ==> a,
{
    if d.job.head_sha is Some {
        let sha = (d.job.head_sha->0)@;
        if sha.len() >= 9 && (forall|i: int| 0 <= i < sha.len() ==> (#[trigger] sha[i])
            < '\u{80}') {
            let nine = sha.take(9);
            assert forall|i: int| 0 <= i < nine.len() implies (#[trigger] nine[i]) < '\u{80}' by {
                assert(nine[i] == sha[i]);
            }
            lemma_plain_bytes(nine);
            assert(agent::cut_at(sha, 9));
        }
    }
}

} // verus!

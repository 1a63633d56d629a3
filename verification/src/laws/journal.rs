//! The journal: what is written down, what is listed and what is answered.

use crate::agent;
use crate::agent::{AgentError, Archive, Capture, Digest};
use crate::laws::pool;
use crate::laws::texts;
use crate::number;
use crate::order;
use crate::store;
use crate::store::{ArtifactRecord, DockerCacheRecord, Event, Job, JobFilter, JobInfo, Store, StoreError};
use crate::text;
use vstd::prelude::*;

verus! {

// -- listing -----------------------------------------------------------------------

/// When a job last moved: when it completed, else when it started; one that did
/// neither comes before every other.
pub open spec fn moved(j: Job) -> int {
    match (j.completed_at, j.started_at) {
        (Some(t), _) => t as int,
        (None, Some(t)) => t as int,
        (None, None) => i64::MIN - 1,
    }
}

/// `r` lists the newest of `jobs`, as many as `limit` at most, newest first.
pub open spec fn lists_newest(r: Seq<Job>, jobs: Seq<Job>, limit: int) -> bool {
    &&& r.len() <= limit
    &&& r.len() <= jobs.len()
    &&& r.len() < limit ==> r.len() == jobs.len()
    &&& forall|i: int| 0 <= i < r.len() ==> jobs.contains(#[trigger] r[i])
    &&& forall|i: int, j: int|
        #![trigger r[i], r[j]]
        0 <= i < j < r.len() ==> moved(r[i]) >= moved(r[j])
    &&& forall|k: int, i: int|
        #![trigger jobs[k], r[i]]
        0 <= k < jobs.len() && 0 <= i < r.len() && !r.contains(jobs[k]) ==> moved(r[i]) >= moved(
            jobs[k],
        )
}

pub(crate) proof fn lemma_newest(r: Seq<Job>, jobs: Seq<Job>, limit: nat)
    requires
        store::newest_first(r, jobs, limit),
        jobs.len() <= usize::MAX,
    ensures
        lists_newest(r, jobs, limit as int),
{
    let keys = store::newest_keys(jobs);
    let at = choose|at: Seq<usize>|
        {
            &&& #[trigger] order::is_ascending(keys, at)
            &&& r.len() == if limit < jobs.len() {
                limit
            } else {
                jobs.len()
            }
            &&& forall|i: int| 0 <= i < r.len() ==> #[trigger] r[i] == jobs[at[i] as int]
        };
    assert forall|k: int| 0 <= k < jobs.len() implies #[trigger] keys[k] == -moved(jobs[k]) by {}
    assert forall|i: int| 0 <= i < r.len() implies jobs.contains(#[trigger] r[i]) by {
        assert(at[i] < keys.len());
    }
    assert forall|i: int, j: int|
        #![trigger r[i], r[j]]
        0 <= i < j < r.len() implies moved(r[i]) >= moved(r[j]) by {
        assert(at[i] < keys.len() && at[j] < keys.len());
        assert(order::before(keys, at[i] as int, at[j] as int));
        assert(keys[at[i] as int] == -moved(jobs[at[i] as int]));
        assert(keys[at[j] as int] == -moved(jobs[at[j] as int]));
    }
    assert forall|k: int, i: int|
        #![trigger jobs[k], r[i]]
        0 <= k < jobs.len() && 0 <= i < r.len() && !r.contains(jobs[k]) implies moved(r[i])
        >= moved(jobs[k]) by {
        assert(at.contains(k as usize));
        let p = choose|p: int| 0 <= p < at.len() && at[p] == k as usize;
        if p < r.len() {
            assert(r[p] == jobs[k]);
        }
        assert(at[i] < keys.len() && at[p] < keys.len());
        assert(order::before(keys, at[i] as int, at[p] as int));
        assert(keys[at[i] as int] == -moved(jobs[at[i] as int]));
        assert(keys[k] == -moved(jobs[k]));
    }
}

proof fn lemma_filter_fits(store: Store, p: spec_fn(Job) -> bool)
    ensures
        store.jobs@.filter(p).len() <= usize::MAX,
{
    store.jobs@.lemma_filter_len(p);
    assert(store.jobs.len() == store.jobs@.len());
}

/// The most recent jobs are listed, newest first.
pub proof fn law_recent_jobs_are_the_newest(store: Store, limit: u32, r: Vec<Job>)
    requires
        call_ensures(Store::recent_jobs, (&store, limit), r),
    ensures
        lists_newest(r@, store.jobs@, limit as int),
{
    assert(store.jobs.len() == store.jobs@.len());
    lemma_newest(r@, store.jobs@, limit as nat);
}

/// Of the jobs with captured logs, the most recent are listed, newest first.
pub proof fn law_logged_jobs_are_the_newest(store: Store, limit: u32, r: Vec<Job>)
    requires
        call_ensures(Store::jobs_with_logs, (&store, limit), r),
    ensures
        lists_newest(r@, store.jobs@.filter(|j: Job| j.log_dir is Some), limit as int),
{
    lemma_filter_fits(store, store::logged_job());
    pool::lemma_same_filter(store.jobs@, store::logged_job(), |j: Job| j.log_dir is Some);
    lemma_newest(r@, store.jobs@.filter(store::logged_job()), limit as nat);
}

/// The latest job, or the latest that failed, is one that no other such job is
/// newer than; there is none exactly if there is no such job.
pub proof fn law_the_latest_job_is_the_newest(
    store: Store,
    failed_only: bool,
    r: Option<Job>,
    k: int,
)
    requires
        call_ensures(Store::latest_job, (&store, failed_only), r),
        0 <= k < store.jobs@.len(),
        failed_only ==> store.jobs@[k].conclusion is Some && store.jobs@[k].conclusion->0@
            == "failure"@,
    ensures
        r is Some,
        store.jobs@.contains(r->0),
        failed_only ==> r->0.conclusion is Some && r->0.conclusion->0@ == "failure"@,
        moved(r->0) >= moved(store.jobs@[k]),
{
    let p = if failed_only {
        store::failed_job()
    } else {
        store::any_job()
    };
    let found = store.jobs@.filter(p);
    lemma_filter_fits(store, p);
    store.jobs@.lemma_filter_contains(p, k);
    let m = choose|m: int| 0 <= m < found.len() && found[m] == store.jobs@[k];
    let listed = match r {
        Some(j) => seq![j],
        None => Seq::empty(),
    };
    lemma_newest(listed, found, 1);
    assert(listed[0] == r->0);
    assert(found.contains(listed[0]));
    store.jobs@.lemma_filter_contains_rev(p, r->0);
    if !listed.contains(found[m]) {
        assert(moved(listed[0]) >= moved(found[m]));
    } else {
        let i = choose|i: int| 0 <= i < listed.len() && listed[i] == found[m];
        assert(listed[i] == listed[0]);
    }
}

/// Without a job, or without one that failed, there is no latest.
pub proof fn law_without_jobs_there_is_no_latest(store: Store, failed_only: bool, r: Option<Job>)
    requires
        call_ensures(Store::latest_job, (&store, failed_only), r),
        failed_only ==> forall|k: int|
            0 <= k < store.jobs@.len() ==> !((#[trigger] store.jobs@[k]).conclusion is Some
                && store.jobs@[k].conclusion->0@ == "failure"@),
        !failed_only ==> store.jobs@.len() == 0,
    ensures
        r is None,
{
    let p = if failed_only {
        store::failed_job()
    } else {
        store::any_job()
    };
    assert forall|k: int| 0 <= k < store.jobs@.len() implies !p(#[trigger] store.jobs@[k]) by {}
    pool::lemma_no_filter(store.jobs@, p);
    if r is Some {
        assert(seq![r->0].len() == 1);
    }
}

/// The completed jobs that agree with every part of a filter are listed, all of
/// them, the latest to complete first.
pub proof fn law_filters_list_the_completed_jobs_that_agree(
    store: Store,
    filter: JobFilter<'_>,
    r: Vec<Job>,
    k: int,
)
    requires
        call_ensures(Store::filtered_jobs, (&store, &filter), r),
        0 <= k < store.jobs@.len(),
    ensures
        r@.contains(store.jobs@[k]) <==> {
            let j = store.jobs@[k];
            &&& j.conclusion is Some
            &&& filter.repo is Some ==> j.repo@ == filter.repo->0@
            &&& filter.workflow is Some ==> j.workflow is Some && j.workflow->0@
                == filter.workflow->0@
            &&& filter.job_name is Some ==> j.job_name is Some && j.job_name->0@
                == filter.job_name->0@
            &&& filter.completed_after is Some ==> j.completed_at is Some && j.completed_at->0
                >= filter.completed_after->0
        },
        forall|a: int, b: int|
            #![trigger r@[a], r@[b]]
            0 <= a < b < r@.len() && r@[a].completed_at is Some && r@[b].completed_at is Some
                ==> r@[a].completed_at->0 >= r@[b].completed_at->0,
        forall|a: int| 0 <= a < r@.len() ==> store.jobs@.contains(#[trigger] r@[a]),
{
    let p = store::passes(filter);
    let found = store.jobs@.filter(p);
    lemma_filter_fits(store, p);
    let keys = store::completion_keys(found);
    let at = choose|at: Seq<usize>|
        {
            &&& #[trigger] order::is_ascending(keys, at)
            &&& r@.len() == found.len()
            &&& forall|i: int| 0 <= i < r@.len() ==> #[trigger] r@[i] == found[at[i] as int]
        };
    let j = store.jobs@[k];
    if p(j) {
        store.jobs@.lemma_filter_contains(p, k);
        let m = choose|m: int| 0 <= m < found.len() && found[m] == j;
        assert(at.contains(m as usize));
        let i = choose|i: int| 0 <= i < at.len() && at[i] == m as usize;
        assert(r@[i] == j);
    }
    if r@.contains(j) {
        let i = choose|i: int| 0 <= i < r@.len() && r@[i] == j;
        assert(at[i] < keys.len());
        assert(found.contains(j));
        store.jobs@.lemma_filter_contains_rev(p, j);
    }
    assert forall|a: int, b: int|
        #![trigger r@[a], r@[b]]
        0 <= a < b < r@.len() && r@[a].completed_at is Some && r@[b].completed_at is Some implies r@[
    a].completed_at->0 >= r@[b].completed_at->0 by {
        assert(at[a] < keys.len() && at[b] < keys.len());
        assert(order::before(keys, at[a] as int, at[b] as int));
        assert(keys[at[a] as int] == store::newest_key(found[at[a] as int].completed_at));
        assert(keys[at[b] as int] == store::newest_key(found[at[b] as int].completed_at));
    }
    assert forall|a: int| 0 <= a < r@.len() implies store.jobs@.contains(#[trigger] r@[a]) by {
        assert(at[a] < keys.len());
        assert(found.contains(r@[a]));
        store.jobs@.lemma_filter_contains_rev(p, r@[a]);
    }
}

/// The most recent events are listed, newest first.
pub proof fn law_recent_events_are_the_newest(store: Store, limit: u32, r: Vec<Event>)
    requires
        call_ensures(Store::recent_events, (&store, limit), r),
    ensures
        r@.len() <= limit,
        r@.len() < limit ==> r@.len() == store.events@.len(),
        forall|i: int| 0 <= i < r@.len() ==> store.events@.contains(#[trigger] r@[i]),
        forall|i: int, j: int|
            #![trigger r@[i], r@[j]]
            0 <= i < j < r@.len() ==> r@[i].ts >= r@[j].ts,
        forall|k: int, i: int|
            #![trigger store.events@[k], r@[i]]
            0 <= k < store.events@.len() && 0 <= i < r@.len() && !r@.contains(store.events@[k])
                ==> r@[i].ts >= store.events@[k].ts,
{
    let events = store.events@;
    let keys = store::event_keys(events);
    assert(store.events.len() == events.len());
    let at = choose|at: Seq<usize>|
        {
            &&& #[trigger] order::is_ascending(keys, at)
            &&& r@.len() == if limit < events.len() {
                limit as nat
            } else {
                events.len()
            }
            &&& forall|i: int| 0 <= i < r@.len() ==> #[trigger] r@[i] == events[at[i] as int]
        };
    assert forall|k: int| 0 <= k < events.len() implies #[trigger] keys[k] == -events[k].ts by {}
    assert forall|i: int| 0 <= i < r@.len() implies events.contains(#[trigger] r@[i]) by {
        assert(at[i] < keys.len());
    }
    assert forall|i: int, j: int|
        #![trigger r@[i], r@[j]]
        0 <= i < j < r@.len() implies r@[i].ts >= r@[j].ts by {
        assert(at[i] < keys.len() && at[j] < keys.len());
        assert(order::before(keys, at[i] as int, at[j] as int));
        assert(keys[at[i] as int] == -events[at[i] as int].ts);
        assert(keys[at[j] as int] == -events[at[j] as int].ts);
    }
    assert forall|k: int, i: int|
        #![trigger events[k], r@[i]]
        0 <= k < events.len() && 0 <= i < r@.len() && !r@.contains(events[k]) implies r@[i].ts
        >= events[k].ts by {
        assert(at.contains(k as usize));
        let p = choose|p: int| 0 <= p < at.len() && at[p] == k as usize;
        if p < r@.len() {
            assert(r@[p] == events[k]);
        }
        assert(at[i] < keys.len() && at[p] < keys.len());
        assert(order::before(keys, at[i] as int, at[p] as int));
        assert(keys[at[i] as int] == -events[at[i] as int].ts);
        assert(keys[k] == -events[k].ts);
    }
}

/// Of every job, the one that moved longest ago first, it is said what the journal
/// refers to for it.
pub proof fn law_artifact_records_tell_of_every_job(store: Store, r: Vec<ArtifactRecord>, k: int)
    requires
        call_ensures(Store::artifact_records, (&store,), r),
        0 <= k < store.jobs@.len(),
    ensures
        r@.len() == store.jobs@.len(),
        exists|i: int|
            0 <= i < r@.len() && (#[trigger] r@[i]).job_id == store.jobs@[k].gh_job_id
                && r@[i].completed_at == store.jobs@[k].completed_at && r@[i].log_dir
                == store.jobs@[k].log_dir && r@[i].kept_image == store.jobs@[k].kept_image
                && r@[i].kept_image_runtime == store.jobs@[k].kept_image_runtime,
        forall|a: int, b: int|
            #![trigger r@[a], r@[b]]
            0 <= a < b < r@.len() && r@[a].completed_at is Some && r@[b].completed_at is Some
                ==> r@[a].completed_at->0 <= r@[b].completed_at->0,
{
    let jobs = store.jobs@;
    let keys = store::oldest_keys(jobs);
    assert(store.jobs.len() == jobs.len());
    let at = choose|at: Seq<usize>|
        {
            &&& #[trigger] order::is_ascending(keys, at)
            &&& r@.len() == jobs.len()
            &&& forall|i: int|
                0 <= i < r@.len() ==> store::is_artifact_record(#[trigger] r@[i], jobs[at[i] as int])
        };
    assert(at.contains(k as usize));
    let i = choose|i: int| 0 <= i < at.len() && at[i] == k as usize;
    assert(store::is_artifact_record(r@[i], jobs[at[i] as int]));
    assert forall|a: int, b: int|
        #![trigger r@[a], r@[b]]
        0 <= a < b < r@.len() && r@[a].completed_at is Some && r@[b].completed_at is Some implies r@[
    a].completed_at->0 <= r@[b].completed_at->0 by {
        assert(at[a] < keys.len() && at[b] < keys.len());
        assert(order::before(keys, at[a] as int, at[b] as int));
        assert(keys[at[a] as int] == store::oldest_key(store::recency(jobs[at[a] as int])));
        assert(keys[at[b] as int] == store::oldest_key(store::recency(jobs[at[b] as int])));
    }
}

// -- writing ---------------------------------------------------------------------------

/// What is written of a start: what is said of the job, its runner and the time; a
/// job that the journal knows keeps its repo, its outcome and its artifacts, and one
/// that it does not know has none. Other jobs stay as they are.
pub proof fn law_starts_are_written_down(
    store: &mut Store,
    info: JobInfo,
    repo: &str,
    runner: &str,
    at: Option<i64>,
    id: i64,
    k: int,
)
    requires
        old(store).well_formed(),
        call_ensures(Store::job_started, (store, &info, repo, runner, at), ()),
        !old(store).query_only,
        info.job_id == Some(id),
        0 <= k < old(store).jobs@.len(),
    ensures
        exists|i: int|
            {
                &&& 0 <= i < final(store).jobs@.len()
                &&& (#[trigger] final(store).jobs@[i]).gh_job_id == id
                &&& final(store).jobs@[i].run_id == info.run_id
                &&& final(store).jobs@[i].workflow == info.workflow
                &&& final(store).jobs@[i].job_name == info.job_name
                &&& final(store).jobs@[i].html_url == info.html_url
                &&& final(store).jobs@[i].head_branch == info.head_branch
                &&& final(store).jobs@[i].head_sha == info.head_sha
                &&& final(store).jobs@[i].title == info.title
                &&& final(store).jobs@[i].event == info.event
                &&& final(store).jobs@[i].started_at == at
                &&& final(store).jobs@[i].runner_name is Some
                &&& final(store).jobs@[i].runner_name->0@ == runner@
                &&& old(store).jobs@[k].gh_job_id == id ==> {
                    &&& final(store).jobs@[i].repo == old(store).jobs@[k].repo
                    &&& final(store).jobs@[i].conclusion == old(store).jobs@[k].conclusion
                    &&& final(store).jobs@[i].completed_at == old(store).jobs@[k].completed_at
                    &&& final(store).jobs@[i].log_dir == old(store).jobs@[k].log_dir
                    &&& final(store).jobs@[i].kept_image == old(store).jobs@[k].kept_image
                }
                &&& !store::knows(old(store).jobs@, id) ==> {
                    &&& final(store).jobs@[i].repo@ == repo@
                    &&& final(store).jobs@[i].conclusion is None
                    &&& final(store).jobs@[i].completed_at is None
                    &&& final(store).jobs@[i].log_dir is None
                    &&& final(store).jobs@[i].kept_image is None
                }
            },
        old(store).jobs@[k].gh_job_id != id ==> final(store).jobs@.contains(old(store).jobs@[k]),
        final(store).events == old(store).events,
{
    let before = old(store).jobs@;
    let after = final(store).jobs@;
    let p = choose|p: int|
        #[trigger] store::start_at(after, before, p, id as int, info, repo@, runner@, at);
    assert(after[p].gh_job_id == id);
    if before[k].gh_job_id != id {
        if 0 <= p < before.len() && before[p].gh_job_id == id {
            assert(after[k] == before[k]);
        } else if k < p {
            assert(after[k] == before[k]);
        } else {
            assert(after[k + 1] == before[k]);
        }
    }
    if 0 <= p < before.len() && before[p].gh_job_id == id && before[k].gh_job_id == id {
        assert(k == p) by {
            if k < p {
                assert(before[k].gh_job_id < before[p].gh_job_id);
            } else if p < k {
                assert(before[p].gh_job_id < before[k].gh_job_id);
            }
        }
    }
}

/// What is written of an end, of artifacts and of what a job took concerns the job
/// of that id and no other, and of the job nothing else.
pub proof fn law_only_the_job_itself_is_written_to(
    a: &mut Store,
    b: &mut Store,
    c: &mut Store,
    id: i64,
    conclusion: &str,
    now: i64,
    dir: Option<&str>,
    image: Option<&str>,
    runtime: Option<&str>,
    peak: u64,
    oom: bool,
    avg: Option<String>,
    top: Option<String>,
    i: int,
)
    requires
        call_ensures(Store::job_concluded, (a, id, conclusion, now), ()),
        call_ensures(Store::set_job_artifacts, (b, id, dir, image, runtime), ()),
        call_ensures(Store::set_job_resources, (c, id, peak, oom, avg, top), ()),
        0 <= i < old(a).jobs@.len(),
        0 <= i < old(b).jobs@.len(),
        0 <= i < old(c).jobs@.len(),
        !old(a).query_only,
        !old(b).query_only,
        !old(c).query_only,
    ensures
        final(a).jobs@.len() == old(a).jobs@.len(),
        old(a).jobs@[i].gh_job_id != id ==> final(a).jobs@[i] == old(a).jobs@[i],
        old(a).jobs@[i].gh_job_id == id ==> {
            let j = final(a).jobs@[i];
            &&& j.conclusion is Some && j.conclusion->0@ == conclusion@
            &&& j.completed_at == Some(now)
            &&& j.started_at == old(a).jobs@[i].started_at
            &&& j.log_dir == old(a).jobs@[i].log_dir
            &&& j.kept_image == old(a).jobs@[i].kept_image
            &&& j.repo == old(a).jobs@[i].repo
        },
        final(b).jobs@.len() == old(b).jobs@.len(),
        old(b).jobs@[i].gh_job_id != id ==> final(b).jobs@[i] == old(b).jobs@[i],
        old(b).jobs@[i].gh_job_id == id ==> {
            let j = final(b).jobs@[i];
            &&& dir is Some ==> j.log_dir is Some && j.log_dir->0@ == dir->0@
            &&& dir is None ==> text::opt_text(j.log_dir) == text::opt_text(old(b).jobs@[i].log_dir)
            &&& image is Some ==> j.kept_image is Some && j.kept_image->0@ == image->0@
            &&& image is None ==> text::opt_text(j.kept_image) == text::opt_text(
                old(b).jobs@[i].kept_image,
            )
            &&& runtime is Some ==> j.kept_image_runtime is Some && j.kept_image_runtime->0@
                == runtime->0@
            &&& j.conclusion == old(b).jobs@[i].conclusion
        },
        final(c).jobs@.len() == old(c).jobs@.len(),
        old(c).jobs@[i].gh_job_id != id ==> final(c).jobs@[i] == old(c).jobs@[i],
        old(c).jobs@[i].gh_job_id == id ==> {
            let j = final(c).jobs@[i];
            &&& j.peak_mem_mb == Some(peak)
            &&& j.oom == Some(oom)
            &&& j.cpu_avg == avg
            &&& j.cpu_peak == top
            &&& j.conclusion == old(c).jobs@[i].conclusion
            &&& j.log_dir == old(c).jobs@[i].log_dir
        },
{
    let x = final(a).jobs@[i];
    let y = final(b).jobs@[i];
    let z = final(c).jobs@[i];
}

/// An event is written behind the others, with its time, level, source and words;
/// a journal that is only read stays as it is.
pub proof fn law_events_are_written_down(
    store: &mut Store,
    level: &str,
    source: &str,
    msg: &str,
    now: i64,
)
    requires
        call_ensures(Store::event, (store, level, source, msg, now), ()),
    ensures
        old(store).query_only ==> *final(store) == *old(store),
        final(store).jobs == old(store).jobs,
        final(store).runners == old(store).runners,
        !old(store).query_only ==> {
            &&& final(store).events@.len() == old(store).events@.len() + 1
            &&& final(store).events@.drop_last() == old(store).events@
            &&& final(store).events@.last().ts == now
            &&& final(store).events@.last().level@ == level@
            &&& final(store).events@.last().source@ == source@
            &&& final(store).events@.last().msg@ == msg@
        },
{
    if !old(store).query_only {
        assert(final(store).events@.drop_last() =~= old(store).events@);
    }
}

/// How a runner stands is written under its name; the rows of other runners stay.
pub proof fn law_runners_are_written_under_their_names(
    store: &mut Store,
    name: &str,
    repo: &str,
    runtime: &str,
    container: &str,
    runner_id: Option<i64>,
    state: &str,
    created: i64,
    ended: Option<i64>,
    code: Option<i64>,
    k: int,
)
    requires
        call_ensures(
            Store::record_runner,
            (store, name, repo, runtime, container, runner_id, state, created, ended, code),
            (),
        ),
        !old(store).query_only,
        0 <= k < old(store).runners@.len(),
    ensures
        exists|i: int|
            {
                &&& 0 <= i < final(store).runners@.len()
                &&& (#[trigger] final(store).runners@[i]).name@ == name@
                &&& final(store).runners@[i].repo@ == repo@
                &&& final(store).runners@[i].runtime@ == runtime@
                &&& final(store).runners@[i].container_id@ == container@
                &&& final(store).runners@[i].gh_runner_id == runner_id
                &&& final(store).runners@[i].state@ == state@
                &&& final(store).runners@[i].created_at == created
                &&& final(store).runners@[i].ended_at == ended
                &&& final(store).runners@[i].exit_code == code
            },
        old(store).runners@[k].name@ != name@ ==> final(store).runners@[k]
            == old(store).runners@[k],
{
    let p = choose|p: int|
        {
            &&& #[trigger] store::runner_at(final(store).runners@, old(store).runners@, p, name@)
            &&& store::runner_is(
                final(store).runners@[p],
                name@,
                repo@,
                runtime@,
                container@,
                runner_id,
                state@,
                created,
                ended,
                code,
            )
        };
    assert(final(store).runners@[p].name@ == name@);
}

/// A layer cache is known as used now, under its name; others stay as they are.
pub proof fn law_used_caches_are_dated_now(
    store: &mut Store,
    name: &str,
    repo: &str,
    slot: u32,
    now: i64,
    k: int,
)
    requires
        call_ensures(Store::touch_docker_cache, (store, name, repo, slot, now), ()),
        !old(store).query_only,
        0 <= k < old(store).docker_caches@.len(),
    ensures
        exists|i: int|
            {
                &&& 0 <= i < final(store).docker_caches@.len()
                &&& (#[trigger] final(store).docker_caches@[i]).name@ == name@
                &&& final(store).docker_caches@[i].repo@ == repo@
                &&& final(store).docker_caches@[i].slot == slot
                &&& final(store).docker_caches@[i].last_used == now
            },
        old(store).docker_caches@[k].name@ != name@ ==> final(store).docker_caches@[k]
            == old(store).docker_caches@[k],
{
    let p = choose|p: int|
        #[trigger] store::cache_touched(
            final(store).docker_caches@,
            old(store).docker_caches@,
            p,
            name@,
            repo@,
            slot,
            now,
        );
    assert(final(store).docker_caches@[p].name@ == name@);
}

/// A reference to captured logs is forgotten by every job that has it, and by no
/// other; a journal that is only read refuses.
pub proof fn law_log_references_are_forgotten(
    store: &mut Store,
    dir: &str,
    r: Result<usize, StoreError>,
    i: int,
)
    requires
        call_ensures(Store::clear_log_dir, (store, dir), r),
        0 <= i < old(store).jobs@.len(),
    ensures
        old(store).query_only ==> r is Err && *final(store) == *old(store),
        !old(store).query_only ==> {
            let had = old(store).jobs@[i].log_dir is Some && old(store).jobs@[i].log_dir->0@ == dir@;
            &&& r is Ok
            &&& had ==> final(store).jobs@[i] == (Job { log_dir: None, ..old(store).jobs@[i] })
            &&& !had ==> final(store).jobs@[i] == old(store).jobs@[i]
        },
{
    let x = final(store).jobs@[i];
}

/// A job is referred to logs or to an image only where it refers to none.
pub proof fn law_repairs_overwrite_nothing(
    a: &mut Store,
    b: &mut Store,
    id: i64,
    dir: &str,
    tag: &str,
    runtime: &str,
    r: Result<usize, StoreError>,
    s: Result<usize, StoreError>,
    i: int,
)
    requires
        call_ensures(Store::repair_log_dir, (a, id, dir), r),
        call_ensures(Store::repair_kept_image, (b, id, tag, runtime), s),
        0 <= i < old(a).jobs@.len(),
        0 <= i < old(b).jobs@.len(),
        !old(a).query_only,
        !old(b).query_only,
    ensures
        r is Ok && s is Ok,
        old(a).jobs@[i].gh_job_id == id && old(a).jobs@[i].log_dir is None ==> final(a).jobs@[i].log_dir
            is Some && final(a).jobs@[i].log_dir->0@ == dir@ && r == Ok::<usize, StoreError>(1),
        old(a).jobs@[i].gh_job_id != id || old(a).jobs@[i].log_dir is Some ==> final(a).jobs@[i]
            == old(a).jobs@[i],
        old(b).jobs@[i].gh_job_id == id && old(b).jobs@[i].kept_image is None ==> {
            &&& final(b).jobs@[i].kept_image is Some && final(b).jobs@[i].kept_image->0@ == tag@
            &&& final(b).jobs@[i].kept_image_runtime is Some
            &&& final(b).jobs@[i].kept_image_runtime->0@ == runtime@
            &&& s == Ok::<usize, StoreError>(1)
        },
        old(b).jobs@[i].gh_job_id != id || old(b).jobs@[i].kept_image is Some ==> final(b).jobs@[i]
            == old(b).jobs@[i],
{
    let x = final(a).jobs@[i];
    let y = final(b).jobs@[i];
    let p = old(a).jobs@[i];
    let q = old(b).jobs@[i];
}

/// The supervisor's journal is writable, and an image that was kept before runtimes
/// were recorded is one of Docker's; nothing else changes.
pub proof fn law_opened_journals_keep_every_row(rows: Store, r: Store, i: int)
    requires
        call_ensures(Store::open, (rows,), r),
        0 <= i < rows.jobs@.len(),
    ensures
        !r.query_only,
        r.events@ == rows.events@,
        r.jobs@.len() == rows.jobs@.len(),
        rows.jobs@[i].kept_image is Some && rows.jobs@[i].kept_image_runtime is None ==> {
            &&& r.jobs@[i].kept_image_runtime is Some
            &&& r.jobs@[i].kept_image_runtime->0@ == "docker"@
            &&& r.jobs@[i].kept_image == rows.jobs@[i].kept_image
            &&& r.jobs@[i].gh_job_id == rows.jobs@[i].gh_job_id
        },
        rows.jobs@[i].kept_image is None || rows.jobs@[i].kept_image_runtime is Some ==> r.jobs@[i]
            == rows.jobs@[i],
{
    let x = r.jobs@[i];
}

// -- answering -------------------------------------------------------------------------

/// A number asks for the job of that id, `latest` for the newest, `latest-failed`
/// for the newest that failed, and nothing for the one or the other.
pub proof fn law_jobs_are_found_as_asked_for(
    store: Store,
    spec: Option<&str>,
    default_failed: bool,
    r: Result<Job, AgentError>,
    failed: bool,
    k: int,
)
    requires
        call_ensures(agent::resolve_job, (&store, spec, default_failed), r),
        0 <= k < store.jobs@.len(),
        spec is None ==> failed == default_failed,
        spec is Some ==> (failed && spec->0@ == "latest-failed"@) || (!failed && spec->0@
            == "latest"@),
        failed ==> store.jobs@[k].conclusion is Some && store.jobs@[k].conclusion->0@ == "failure"@,
    ensures
        r is Ok,
        store.jobs@.contains(r->Ok_0),
        failed ==> r->Ok_0.conclusion is Some && r->Ok_0.conclusion->0@ == "failure"@,
        moved(r->Ok_0) >= moved(store.jobs@[k]),
{
    reveal_strlit("latest");
    reveal_strlit("latest-failed");
    assert("latest"@.len() != "latest-failed"@.len());
    let p = if failed {
        store::failed_job()
    } else {
        store::any_job()
    };
    let found = store.jobs@.filter(p);
    lemma_filter_fits(store, p);
    store.jobs@.lemma_filter_contains(p, k);
    let m = choose|m: int| 0 <= m < found.len() && found[m] == store.jobs@[k];
    let listed = seq![r->Ok_0];
    lemma_newest(listed, found, 1);
    assert(listed[0] == r->Ok_0);
    assert(found.contains(listed[0]));
    store.jobs@.lemma_filter_contains_rev(p, r->Ok_0);
    if !listed.contains(found[m]) {
        assert(moved(listed[0]) >= moved(found[m]));
    } else {
        let i = choose|i: int| 0 <= i < listed.len() && listed[i] == found[m];
        assert(listed[i] == listed[0]);
    }
}

/// The id of a job finds that job, or says that there is none of that id.
pub proof fn law_ids_find_their_jobs(
    store: Store,
    id: i64,
    t: String,
    spec: &str,
    default_failed: bool,
    r: Result<Job, AgentError>,
)
    requires
        call_ensures(number::integer_text, (id,), t),
        spec@ == t@,
        call_ensures(agent::resolve_job, (&store, Some(spec), default_failed), r),
    ensures
        r matches Ok(j) ==> j.gh_job_id == id && store.jobs@.contains(j),
        r matches Err(e) ==> e == (AgentError::NoSuchJob { id }) && forall|i: int|
            0 <= i < store.jobs@.len() ==> (#[trigger] store.jobs@[i]).gh_job_id != id,
{
    number::law_written_integers_read_back(id);
    reveal_strlit("latest");
    reveal_strlit("latest-failed");
    if id < 0 {
        assert(t@[0] == '-');
    } else {
        number::lemma_dec(id as nat);
        assert('0' <= t@[0] <= '9');
    }
    assert("latest"@[0] == 'l' && "latest-failed"@[0] == 'l');
}

/// A job's log is what its files whose names begin with `Worker_` hold, one after
/// the other in the order of their names; other files are no part of it.
pub proof fn law_worker_logs_are_read_in_order(
    job: Job,
    archive: Archive,
    r: Result<String, AgentError>,
    a: int,
    f: int,
    g: int,
)
    requires
        call_ensures(agent::read_worker_logs, (&job, &archive), r),
        0 <= a < archive.captures@.len(),
        job.log_dir is Some,
        archive.captures@[a].log_dir@ == job.log_dir->0@,
        forall|k: int|
            0 <= k < a ==> (#[trigger] archive.captures@[k]).log_dir@ != job.log_dir->0@,
        0 <= f < archive.captures@[a].files@.len(),
        exists|rest: Seq<char>|
            archive.captures@[a].files@[f].name@ == #[trigger] ("Worker_"@ + rest),
        0 <= g < archive.captures@[a].files@.len(),
    ensures
        r is Ok,
        texts::stands_in(archive.captures@[a].files@[f].contents@, r->Ok_0@),
        // Two worker logs: the one whose name comes first is read first.
        f != g && (exists|rest: Seq<char>|
            archive.captures@[a].files@[g].name@ == #[trigger] ("Worker_"@ + rest))
            && text::text_lt(
            archive.captures@[a].files@[f].name@,
            archive.captures@[a].files@[g].name@,
        ) ==> exists|x: Seq<char>, y: Seq<char>, z: Seq<char>|
            r->Ok_0@ == #[trigger] (x + archive.captures@[a].files@[f].contents@ + y
                + archive.captures@[a].files@[g].contents@ + z),
{
    let files = agent::file_views(archive.captures@[a].files@);
    lemma_files_among(archive.captures@, job.log_dir->0@, a);
    assert(files[f] == archive.captures@[a].files@[f]@);
    assert(files[g] == archive.captures@[a].files@[g]@);
    let rest = choose|rest: Seq<char>|
        archive.captures@[a].files@[f].name@ == #[trigger] ("Worker_"@ + rest);
    assert(files[f].0.subrange(0, "Worker_"@.len() as int) =~= "Worker_"@);
    agent::law_worker_logs_are_filtered_and_in_order(files);
    let sorted = agent::worker_files(files);
    lemma_worker_files_hold(files, f);
    let p = choose|p: int| 0 <= p < sorted.len() && sorted[p] == files[f];
    lemma_contents(sorted, p);
    if f != g && (exists|rest: Seq<char>|
        archive.captures@[a].files@[g].name@ == #[trigger] ("Worker_"@ + rest)) && text::text_lt(
        files[f].0,
        files[g].0,
    ) {
        let rest = choose|rest: Seq<char>|
            archive.captures@[a].files@[g].name@ == #[trigger] ("Worker_"@ + rest);
        assert(files[g].0.subrange(0, "Worker_"@.len() as int) =~= "Worker_"@);
        lemma_worker_files_hold(files, g);
        let q = choose|q: int| 0 <= q < sorted.len() && sorted[q] == files[g];
        if q < p {
            assert(!text::text_lt(sorted[p].0, sorted[q].0));
        } else if p == q {
            text::lemma_text_lt_asymmetric(files[f].0, files[g].0);
        }
        lemma_two_contents(sorted, p, q);
    }
}

proof fn lemma_files_among(captures: Seq<Capture>, dir: Seq<char>, a: int)
    requires
        0 <= a < captures.len(),
        captures[a].log_dir@ == dir,
        forall|k: int| 0 <= k < a ==> (#[trigger] captures[k]).log_dir@ != dir,
    ensures
        agent::files_among(captures, dir) == Some(agent::file_views(captures[a].files@)),
    decreases captures.len(),
{
    if a > 0 {
        assert(captures[0].log_dir@ != dir);
        let rest = captures.drop_first();
        assert forall|k: int| 0 <= k < a - 1 implies (#[trigger] rest[k]).log_dir@ != dir by {
            assert(rest[k] == captures[k + 1]);
        }
        lemma_files_among(rest, dir, a - 1);
    }
}

proof fn lemma_placed_holds(
    sorted: Seq<(Seq<char>, Seq<char>)>,
    f: (Seq<char>, Seq<char>),
    x: (Seq<char>, Seq<char>),
)
    requires
        sorted.contains(x) || x == f,
    ensures
        agent::placed(sorted, f).contains(x),
    decreases sorted.len(),
{
    let all = agent::placed(sorted, f);
    if sorted.len() == 0 || !text::text_lt(f.0, sorted.last().0) {
        crate::laws::logs::lemma_push_contains(sorted, f, x);
    } else {
        let init = sorted.drop_last();
        crate::laws::logs::lemma_push_contains(init, sorted.last(), x);
        assert(init.push(sorted.last()) =~= sorted);
        if x == sorted.last() && !init.contains(x) && x != f {
            assert(all[all.len() - 1] == x);
        } else {
            lemma_placed_holds(init, f, x);
            let k = choose|k: int|
                0 <= k < agent::placed(init, f).len() && agent::placed(init, f)[k] == x;
            assert(all[k] == x);
        }
    }
}

proof fn lemma_worker_files_hold(files: Seq<(Seq<char>, Seq<char>)>, f: int)
    requires
        0 <= f < files.len(),
        agent::is_worker(files[f]),
    ensures
        agent::worker_files(files).contains(files[f]),
    decreases files.len(),
{
    let init = files.drop_last();
    if f < init.len() {
        lemma_worker_files_hold(init, f);
        assert(init[f] == files[f]);
        if agent::is_worker(files.last()) {
            lemma_placed_holds(agent::worker_files(init), files.last(), files[f]);
        }
    } else {
        lemma_placed_holds(agent::worker_files(init), files.last(), files[f]);
    }
}

proof fn lemma_contents(files: Seq<(Seq<char>, Seq<char>)>, p: int)
    requires
        0 <= p < files.len(),
    ensures
        texts::stands_in(files[p].1, agent::contents(files)),
    decreases files.len(),
{
    let init = files.drop_last();
    let s = agent::contents(files);
    if p == files.len() - 1 {
        assert(s =~= agent::contents(init) + files[p].1 + Seq::<char>::empty());
    } else {
        lemma_contents(init, p);
        let t = agent::contents(init);
        let (a, b) = choose|a: Seq<char>, b: Seq<char>| t == #[trigger] (a + init[p].1 + b);
        assert(s =~= a + files[p].1 + (b + files.last().1));
    }
}

proof fn lemma_two_contents(files: Seq<(Seq<char>, Seq<char>)>, p: int, q: int)
    requires
        0 <= p < q < files.len(),
    ensures
        exists|x: Seq<char>, y: Seq<char>, z: Seq<char>|
            agent::contents(files) == #[trigger] (x + files[p].1 + y + files[q].1 + z),
    decreases files.len(),
{
    let init = files.drop_last();
    let s = agent::contents(files);
    if q == files.len() - 1 {
        lemma_contents(init, p);
        let t = agent::contents(init);
        let (a, b) = choose|a: Seq<char>, b: Seq<char>| t == #[trigger] (a + init[p].1 + b);
        assert(s =~= a + files[p].1 + b + files[q].1 + Seq::<char>::empty());
    } else {
        lemma_two_contents(init, p, q);
        let t = agent::contents(init);
        let (x, y, z) = choose|x: Seq<char>, y: Seq<char>, z: Seq<char>|
            t == #[trigger] (x + init[p].1 + y + init[q].1 + z);
        assert(s =~= x + files[p].1 + y + files[q].1 + (z + files.last().1));
    }
}

/// Why a job failed is told of the job that is asked for, the latest that failed
/// where none is: an excerpt of its log where that can be read, and how to look
/// into its workspace where one is kept.
pub proof fn law_digests_tell_of_the_job_that_is_asked_for(
    store: Store,
    archive: Archive,
    spec: Option<&str>,
    d: Digest,
    log: Result<String, AgentError>,
    k: int,
)
    requires
        call_ensures(agent::why, (&store, &archive, spec), Ok(d)),
        call_ensures(agent::read_worker_logs, (&d.job, &archive), log),
        0 <= k < store.jobs@.len(),
    ensures
        log is Err ==> d.excerpt is None,
        log matches Ok(t) ==> d.excerpt is Some && d.excerpt->0@ == agent::excerpt(t@),
        d.post_mortem is Some <==> d.job.kept_image is Some,
        spec is None ==> d.job.conclusion is Some && d.job.conclusion->0@ == "failure"@
            && store.jobs@.contains(d.job),
        spec is None && store.jobs@[k].conclusion is Some && store.jobs@[k].conclusion->0@
            == "failure"@ ==> moved(d.job) >= moved(store.jobs@[k]),
{
    if spec is None {
        let p = store::failed_job();
        let found = store.jobs@.filter(p);
        lemma_filter_fits(store, p);
        let listed = seq![d.job];
        lemma_newest(listed, found, 1);
        assert(listed[0] == d.job);
        assert(found.contains(listed[0]));
        store.jobs@.lemma_filter_contains_rev(p, d.job);
        if p(store.jobs@[k]) {
            store.jobs@.lemma_filter_contains(p, k);
            let m = choose|m: int| 0 <= m < found.len() && found[m] == store.jobs@[k];
            if !listed.contains(found[m]) {
                assert(moved(listed[0]) >= moved(found[m]));
            } else {
                let i = choose|i: int| 0 <= i < listed.len() && listed[i] == found[m];
                assert(listed[i] == listed[0]);
            }
        }
    }
}

} // verus!

//! What the journal forgets and what it notes.

use crate::clock;
use crate::config::RepoConfig;
use crate::laws::journal;
use crate::laws::pool;
use crate::order;
use crate::scheduler;
use crate::scheduler::{App, Runner, RunnerState};
use crate::store;
use crate::store::{ArtifactRecord, DockerCacheRecord, Event, Job, Store, StoreError};
use crate::text;
use vstd::prelude::*;

verus! {

// -- forgetting --------------------------------------------------------------------------

/// A job is forgotten exactly if it completed longer ago than is asked for and neither
/// its logs nor its workspace are kept; the others stay as they are, in their order.
/// Nothing else is forgotten.
pub proof fn law_old_jobs_without_artifacts_are_forgotten(
    store: &mut Store,
    age_s: u128,
    now: i64,
    r: Result<usize, StoreError>,
    n: usize,
    j: Job,
)
    requires
        call_ensures(Store::prune_jobs, (store, age_s, now), r),
        call_ensures(Store::count_prunable_jobs, (&*old(store), age_s, now), n),
        !old(store).query_only,
    ensures
        r is Ok && r->Ok_0 == n,
        final(store).jobs@.len() == old(store).jobs@.len() - n,
        final(store).jobs@.contains(j) <==> old(store).jobs@.contains(j) && !(
        j.completed_at is Some && now - j.completed_at->0 > age_s * 1_000_000 && j.log_dir is None
            && j.kept_image is None),
        final(store).events == old(store).events,
        final(store).runners == old(store).runners,
        final(store).docker_caches == old(store).docker_caches,
{
    let cutoff = clock::ago(now, age_s);
    let p = store::prunable_job(cutoff);
    let q = store::retained_job(cutoff);
    let jobs = old(store).jobs@;
    lemma_parted(jobs, p, q);
    lemma_filtered(jobs, q, j);
}

/// An event is forgotten exactly if it happened longer ago than is asked for.
pub proof fn law_old_events_are_forgotten(
    store: &mut Store,
    age_s: u128,
    now: i64,
    r: Result<usize, StoreError>,
    n: usize,
    e: Event,
)
    requires
        call_ensures(Store::prune_events, (store, age_s, now), r),
        call_ensures(Store::count_prunable_events, (&*old(store), age_s, now), n),
        !old(store).query_only,
    ensures
        r is Ok && r->Ok_0 == n,
        final(store).events@.len() == old(store).events@.len() - n,
        final(store).events@.contains(e) <==> old(store).events@.contains(e) && !(now - e.ts > age_s
            * 1_000_000),
        final(store).jobs == old(store).jobs,
        final(store).runners == old(store).runners,
        final(store).docker_caches == old(store).docker_caches,
{
    let cutoff = clock::ago(now, age_s);
    let p = store::prunable_event(cutoff);
    let q = store::retained_event(cutoff);
    let events = old(store).events@;
    lemma_parted(events, p, q);
    lemma_filtered(events, q, e);
}

proof fn lemma_parted<A>(s: Seq<A>, p: spec_fn(A) -> bool, q: spec_fn(A) -> bool)
    requires
        forall|x: A| #[trigger] q(x) == !p(x),
    ensures
        s.filter(p).len() + s.filter(q).len() == s.len(),
    decreases s.len(),
{
    reveal(Seq::filter);
    if s.len() > 0 {
        lemma_parted(s.drop_last(), p, q);
        assert(q(s.last()) == !p(s.last()));
    }
}

/// A filter keeps exactly the items that meet it.
pub proof fn lemma_filtered<A>(s: Seq<A>, p: spec_fn(A) -> bool, x: A)
    ensures
        s.filter(p).contains(x) <==> s.contains(x) && p(x),
{
    let kept = s.filter(p);
    if kept.contains(x) {
        s.lemma_filter_contains_rev(p, x);
        let i = choose|i: int| 0 <= i < kept.len() && kept[i] == x;
        s.lemma_filter_pred(p, i);
    }
    if s.contains(x) && p(x) {
        let i = choose|i: int| 0 <= i < s.len() && s[i] == x;
        s.lemma_filter_contains(p, i);
    }
}

/// The workspace of one job is forgotten, with the runtime that holds it; the other
/// jobs, and all else of that job, stay as they are.
pub proof fn law_one_workspace_is_forgotten(
    store: &mut Store,
    id: i64,
    r: Result<usize, StoreError>,
    k: int,
)
    requires
        call_ensures(Store::clear_kept_image, (store, id), r),
        !old(store).query_only,
        0 <= k < old(store).jobs@.len(),
    ensures
        r is Ok,
        old(store).jobs@[k].gh_job_id == id ==> r->Ok_0 == 1,
        final(store).jobs@.len() == old(store).jobs@.len(),
        old(store).jobs@[k].gh_job_id != id ==> final(store).jobs@[k] == old(store).jobs@[k],
        old(store).jobs@[k].gh_job_id == id ==> {
            let a = old(store).jobs@[k];
            let b = final(store).jobs@[k];
            &&& b.kept_image is None
            &&& b.kept_image_runtime is None
            &&& b == (Job {
                kept_image: b.kept_image,
                kept_image_runtime: b.kept_image_runtime,
                ..a
            })
        },
{
}

/// A layer cache is forgotten by its name; the others stay.
pub proof fn law_one_cache_is_forgotten(
    store: &mut Store,
    name: &str,
    r: Result<usize, StoreError>,
    c: DockerCacheRecord,
)
    requires
        call_ensures(Store::forget_docker_cache, (store, name), r),
        !old(store).query_only,
    ensures
        r is Ok && r->Ok_0 == old(store).docker_caches@.len() - final(store).docker_caches@.len(),
        final(store).docker_caches@.contains(c) <==> old(store).docker_caches@.contains(c)
            && c.name@ != name@,
        final(store).jobs == old(store).jobs,
        final(store).events == old(store).events,
{
    lemma_filtered(old(store).docker_caches@, store::cache_other_than(name@), c);
}

/// A journal that is only read forgets nothing, and says so.
pub proof fn law_read_journals_forget_nothing(
    a: &mut Store,
    b: &mut Store,
    c: &mut Store,
    d: &mut Store,
    age_s: u128,
    now: i64,
    id: i64,
    name: &str,
    ra: Result<usize, StoreError>,
    rb: Result<usize, StoreError>,
    rc: Result<usize, StoreError>,
    rd: Result<usize, StoreError>,
)
    requires
        call_ensures(Store::prune_jobs, (a, age_s, now), ra),
        call_ensures(Store::prune_events, (b, age_s, now), rb),
        call_ensures(Store::clear_kept_image, (c, id), rc),
        call_ensures(Store::forget_docker_cache, (d, name), rd),
        old(a).query_only,
        old(b).query_only,
        old(c).query_only,
        old(d).query_only,
    ensures
        ra == Err::<usize, StoreError>(StoreError::ReadOnly) && *final(a) == *old(a),
        rb == Err::<usize, StoreError>(StoreError::ReadOnly) && *final(b) == *old(b),
        rc == Err::<usize, StoreError>(StoreError::ReadOnly) && *final(c) == *old(c),
        rd == Err::<usize, StoreError>(StoreError::ReadOnly) && *final(d) == *old(d),
{
}

/// A job is found by its id if the journal knows it.
pub proof fn law_jobs_are_found_by_their_id(store: Store, id: i64, r: Option<Job>, k: int)
    requires
        call_ensures(Store::job, (&store, id), r),
        0 <= k < store.jobs@.len(),
    ensures
        store.jobs@[k].gh_job_id == id ==> r is Some,
        r is Some ==> (r->0).gh_job_id == id && store.jobs@.contains(r->0),
{
}

// -- kept workspaces ---------------------------------------------------------------------

/// `x` tells of the kept workspace of a job.
pub open spec fn kept_of(x: (i64, String), j: Job) -> bool {
    x.0 == j.gh_job_id && j.kept_image == Some(x.1)
}

/// The kept workspaces among some records, told by the places of their records.
proof fn lemma_kept_places(records: Seq<ArtifactRecord>) -> (m: Seq<int>)
    ensures
        m.len() == store::kept_among(records).len(),
        forall|i: int|
            0 <= i < m.len() ==> 0 <= #[trigger] m[i] < records.len() && records[m[i]].kept_image
                == Some(store::kept_among(records)[i].1) && records[m[i]].job_id
                == store::kept_among(records)[i].0,
        forall|i: int, j: int|
            #![trigger m[i], m[j]]
            0 <= i < j < m.len() ==> m[i] < m[j],
        forall|k: int|
            0 <= k < records.len() && (#[trigger] records[k]).kept_image is Some ==> m.contains(k),
    decreases records.len(),
{
    if records.len() == 0 {
        Seq::empty()
    } else {
        let rest = records.drop_last();
        let before = lemma_kept_places(rest);
        let n = records.len() - 1;
        assert forall|k: int| 0 <= k < rest.len() implies #[trigger] rest[k] == records[k] by {}
        if records.last().kept_image is Some {
            let m = before.push(n);
            assert(m[before.len() as int] == n);
            assert forall|k: int|
                0 <= k < records.len() && (#[trigger] records[k]).kept_image is Some implies m.contains(
                k,
            ) by {
                if k < n {
                    assert(rest[k].kept_image is Some);
                    let i = choose|i: int| 0 <= i < before.len() && before[i] == k;
                    assert(m[i] == k);
                } else {
                    assert(m[before.len() as int] == k);
                }
            }
            m
        } else {
            assert forall|k: int|
                0 <= k < records.len() && (#[trigger] records[k]).kept_image is Some implies before.contains(
                k,
            ) by {
                assert(k < n);
                assert(rest[k].kept_image is Some);
            }
            before
        }
    }
}

/// A job and its image are listed exactly if its workspace is kept; the oldest job comes
/// first.
pub proof fn law_kept_workspaces_are_listed_oldest_first(
    store: Store,
    r: Vec<(i64, String)>,
    k: int,
    i: int,
    h: int,
)
    requires
        call_ensures(Store::kept_images, (&store,), r),
        0 <= k < store.jobs@.len(),
        0 <= i < h < r@.len(),
    ensures
        store.jobs@[k].kept_image is Some ==> r@.contains(
            (store.jobs@[k].gh_job_id, store.jobs@[k].kept_image->0),
        ),
        exists|a: int, b: int|
            0 <= a < store.jobs@.len() && 0 <= b < store.jobs@.len() && #[trigger] kept_of(
                r@[i],
                store.jobs@[a],
            ) && #[trigger] kept_of(r@[h], store.jobs@[b]) && journal::moved(store.jobs@[a])
                <= journal::moved(store.jobs@[b]),
{
    let jobs = store.jobs@;
    assert(store.jobs.len() == jobs.len());
    let records = choose|records: Seq<ArtifactRecord>| #[trigger]
        store::artifacts_of(records, jobs) && r@ == store::kept_among(records);
    let keys = store::oldest_keys(jobs);
    let at = choose|at: Seq<usize>|
        {
            &&& #[trigger] order::is_ascending(keys, at)
            &&& records.len() == jobs.len()
            &&& forall|i: int|
                0 <= i < records.len() ==> store::is_artifact_record(
                    #[trigger] records[i],
                    jobs[at[i] as int],
                )
        };
    let m = lemma_kept_places(records);
    assert(at.contains(k as usize));
    let x = choose|x: int| 0 <= x < at.len() && at[x] == k as usize;
    assert(store::is_artifact_record(records[x], jobs[at[x] as int]));
    if jobs[k].kept_image is Some {
        assert(records[x].kept_image is Some);
        let y = choose|y: int| 0 <= y < m.len() && m[y] == x;
        assert(r@[y] == (jobs[k].gh_job_id, jobs[k].kept_image->0));
    }
    let a = at[m[i]] as int;
    let b = at[m[h]] as int;
    assert(m[i] < m[h]);
    assert(store::is_artifact_record(records[m[i]], jobs[a]));
    assert(store::is_artifact_record(records[m[h]], jobs[b]));
    assert(at[m[i]] < keys.len() && at[m[h]] < keys.len());
    assert(order::before(keys, a, b));
    assert(keys[a] == store::oldest_key(store::recency(jobs[a])));
    assert(keys[b] == store::oldest_key(store::recency(jobs[b])));
    assert(kept_of(r@[i], jobs[a]));
    assert(kept_of(r@[h], jobs[b]));
}

/// Of the kept workspaces as many are removed as are beyond the number that is to be
/// kept, and none that is newer than one that stays.
pub proof fn law_workspaces_beyond_the_number_are_removed(app: App, r: Vec<(i64, String)>)
    requires
        call_ensures(App::excess_images, (&app,), r),
    ensures
        exists|records: Seq<ArtifactRecord>|
            {
                let all = store::kept_among(records);
                let kept = app.config.keep_failed_workspaces;
                &&& #[trigger] store::artifacts_of(records, app.store.jobs@)
                &&& all.len() <= kept ==> r@.len() == 0
                &&& all.len() > kept ==> r@.len() + kept == all.len()
                &&& r@.is_prefix_of(all)
            },
{
    let records = choose|records: Seq<ArtifactRecord>| #[trigger]
        store::artifacts_of(records, app.store.jobs@) && r@ == store::kept_among(records).take(
            scheduler::excess(
                store::kept_among(records).len(),
                app.config.keep_failed_workspaces as nat,
            ),
        );
    let all = store::kept_among(records);
    assert(all.subrange(0, r@.len() as int) =~= r@);
    assert(store::artifacts_of(records, app.store.jobs@));
}

// -- notes ----------------------------------------------------------------------------------

/// The journal has one event more, and is otherwise the same.
pub open spec fn notes(
    new: Store,
    old: Store,
    level: Seq<char>,
    source: Seq<char>,
    msg: Seq<char>,
    now: i64,
) -> bool {
    &&& new.events@.len() == old.events@.len() + 1
    &&& new.events@.drop_last() == old.events@
    &&& new.events@.last().ts == now
    &&& new.events@.last().level@ == level
    &&& new.events@.last().source@ == source
    &&& new.events@.last().msg@ == msg
    &&& new.jobs == old.jobs
    &&& new.runners == old.runners
    &&& new.docker_caches == old.docker_caches
}

/// Killing a runner is noted: as an error where its job took too long, and as news where
/// its repo has more idle runners than it reserves.
pub proof fn law_kills_are_noted(a: &mut App, b: &mut App, name: &str, now: i64)
    requires
        call_ensures(App::note_timeout, (a, name, now), ()),
        call_ensures(App::note_decay, (b, name, now), ()),
        !old(a).store.query_only,
        !old(b).store.query_only,
    ensures
        notes(
            final(a).store,
            old(a).store,
            "error"@,
            "watchdog"@,
            name@ + " exceeded job timeout; killing"@,
            now,
        ),
        notes(
            final(b).store,
            old(b).store,
            "info"@,
            "decay"@,
            name@ + " idle beyond reserved; scaling down"@,
            now,
        ),
        final(a).runners == old(a).runners,
        final(b).runners == old(b).runners,
{
    assert(final(a).store.events@.drop_last() =~= old(a).store.events@);
    assert(final(b).store.events@.drop_last() =~= old(b).store.events@);
}

/// So is a sweep that failed, a registration that was deleted, a pool that grows and a
/// release of the runner program.
pub proof fn law_sweeps_bursts_and_releases_are_noted(
    a: &mut App,
    b: &mut App,
    c: &mut App,
    d: &mut App,
    name: &str,
    queued: u32,
    now: i64,
)
    requires
        call_ensures(App::note_sweep_failed, (a, name, now), ()),
        call_ensures(App::note_orphan_deleted, (b, name, now), ()),
        call_ensures(App::note_burst, (c, name, queued, now), ()),
        call_ensures(App::note_release, (d, name, now), ()),
        !old(a).store.query_only,
        !old(b).store.query_only,
        !old(c).store.query_only,
        !old(d).store.query_only,
    ensures
        notes(
            final(a).store,
            old(a).store,
            "warn"@,
            "recover"@,
            "registration sweep failed for "@ + name@,
            now,
        ),
        notes(
            final(b).store,
            old(b).store,
            "info"@,
            "recover"@,
            "deleted orphan registration "@ + name@,
            now,
        ),
        notes(
            final(c).store,
            old(c).store,
            "info"@,
            "burst"@,
            name@ + ": "@ + crate::number::dec(queued as nat) + " queued job(s), scaling up"@,
            now,
        ),
        notes(
            final(d).store,
            old(d).store,
            "info"@,
            "staleness"@,
            "latest actions/runner release: v"@ + name@,
            now,
        ),
{
    assert(final(a).store.events@.drop_last() =~= old(a).store.events@);
    assert(final(b).store.events@.drop_last() =~= old(b).store.events@);
    assert(final(c).store.events@.drop_last() =~= old(c).store.events@);
    assert(final(d).store.events@.drop_last() =~= old(d).store.events@);
}

/// A workspace that is gone is forgotten, and the removal is noted; so are logs.
pub proof fn law_removals_are_noted(
    a: &mut App,
    b: &mut App,
    id: i64,
    tag: &str,
    path: &str,
    now: i64,
    k: int,
)
    requires
        call_ensures(App::note_image_removed, (a, id, tag, now), ()),
        call_ensures(App::note_logs_removed, (b, path, now), ()),
        !old(a).store.query_only,
        !old(b).store.query_only,
        0 <= k,
    ensures
        final(a).store.events@.len() == old(a).store.events@.len() + 1,
        final(a).store.events@.last().level@ == "info"@,
        final(a).store.events@.last().source@ == "keep"@,
        final(a).store.events@.last().msg@ == "gc'd kept workspace "@ + tag@,
        final(a).store.events@.last().ts == now,
        final(a).store.jobs@.len() == old(a).store.jobs@.len(),
        k < old(a).store.jobs@.len() && old(a).store.jobs@[k].gh_job_id == id ==> final(a).store.jobs@[k].kept_image is None && final(a).store.jobs@[k].kept_image_runtime is None
            && final(a).store.jobs@[k].log_dir == old(a).store.jobs@[k].log_dir,
        k < old(a).store.jobs@.len() && old(a).store.jobs@[k].gh_job_id != id ==> final(a).store.jobs@[k] == old(a).store.jobs@[k],
        final(b).store.events@.len() == old(b).store.events@.len() + 1,
        final(b).store.events@.last().level@ == "info"@,
        final(b).store.events@.last().source@ == "prune"@,
        final(b).store.events@.last().msg@ == "removed old job logs "@ + path@,
        final(b).store.events@.last().ts == now,
        final(b).store.jobs@.len() == old(b).store.jobs@.len(),
        k < old(b).store.jobs@.len() && old(b).store.jobs@[k].log_dir is Some && (old(b).store.jobs@[k].log_dir->0)@ == path@ ==> final(b).store.jobs@[k].log_dir is None && final(b).store.jobs@[k].kept_image == old(b).store.jobs@[k].kept_image,
        k < old(b).store.jobs@.len() && !(old(b).store.jobs@[k].log_dir is Some && (old(b).store.jobs@[k].log_dir->0)@ == path@) ==> final(b).store.jobs@[k] == old(b).store.jobs@[k],
{
}

// -- new runners ------------------------------------------------------------------------------

/// A new runner is reserved exactly if its repo and the machine have room: it starts, has
/// no container and no job yet, and is its repo's. Otherwise the pool stays as it is.
pub proof fn law_new_runners_start_without_a_job(
    app: &mut App,
    rc: RepoConfig,
    n: u32,
    now: i64,
    own: usize,
    all: usize,
    repo: &str,
    r: Option<String>,
)
    requires
        repo@ == rc.repo@,
        call_ensures(App::live_count, (&*old(app), Some(repo)), own),
        call_ensures(App::live_count, (&*old(app), None), all),
        call_ensures(App::reserve_named, (app, &rc, n, now), r),
    ensures
        r is Some <==> own < rc.max && all < old(app).config.max_total_runners,
        r is None ==> *final(app) == *old(app),
        r is Some ==> exists|i: int|
            {
                let x = final(app).runners@[i];
                &&& 0 <= i < final(app).runners@.len()
                &&& (#[trigger] final(app).runners@[i]).name@ == (r->0)@
                &&& x.info.repo_cfg.repo == rc.repo
                &&& x.info.repo_cfg.image == rc.image
                &&& x.info.repo_cfg.runtime == rc.runtime
                &&& x.info.state == RunnerState::Starting
                &&& x.info.container_id@.len() == 0
                &&& x.info.created_at == now
                &&& x.info.busy_at is None
                &&& x.info.gh_runner_id is None
                &&& !x.info.ran_job
                &&& !x.info.decaying
                &&& x.info.job.conclusion is None
                &&& x.info.mem_bytes == 0
                &&& x.info.peak_mem_bytes == 0
            },
        final(app).config == old(app).config,
        final(app).store == old(app).store,
{
    if r is Some {
        let before = old(app).runners@;
        let after = final(app).runners@;
        let x = choose|x: Runner|
            {
                &&& after == #[trigger] scheduler::with_runner(before, x)
                &&& x.name@ == (r->0)@
                &&& crate::config::same_repo(x.info.repo_cfg, rc)
                &&& x.info.is_fresh(x.info.repo_cfg, RunnerState::Starting, Seq::empty(), now)
            };
        scheduler::lemma_index_bounds(before, x.name@);
        let i = scheduler::runner_index(before, x.name@);
        if i < before.len() {
            assert(after[i] == x);
        } else {
            assert(after[before.len() as int] == x);
        }
    }
}

/// A runner under a name of its own is reserved as any other; its name tells its repo.
pub proof fn law_runners_are_named_after_their_repo(
    app: &mut App,
    rc: RepoConfig,
    now: i64,
    own: usize,
    all: usize,
    repo: &str,
    r: Option<String>,
)
    requires
        repo@ == rc.repo@,
        call_ensures(App::live_count, (&*old(app), Some(repo)), own),
        call_ensures(App::live_count, (&*old(app), None), all),
        call_ensures(App::spawn_runner, (app, &rc, now), r),
    ensures
        r is Some <==> own < rc.max && all < old(app).config.max_total_runners,
        r is None ==> *final(app) == *old(app),
        r is Some ==> exists|tail: Seq<char>|
            (r->0)@ == #[trigger] ("hr-"@ + dashed(rc.repo@) + "-"@ + tail) && tail.len() == 6,
        r is Some ==> exists|i: int|
            0 <= i < final(app).runners@.len() && (#[trigger] final(app).runners@[i]).name@ == (
            r->0)@ && final(app).runners@[i].info.state == RunnerState::Starting && final(app).runners@[i].info.created_at == now,
{
    if r is Some {
        let before = old(app).runners@;
        let after = final(app).runners@;
        let x = choose|x: Runner|
            {
                &&& after == #[trigger] scheduler::with_runner(before, x)
                &&& x.name@ == (r->0)@
                &&& crate::config::same_repo(x.info.repo_cfg, rc)
                &&& x.info.is_fresh(x.info.repo_cfg, RunnerState::Starting, Seq::empty(), now)
            };
        scheduler::lemma_index_bounds(before, x.name@);
        let i = scheduler::runner_index(before, x.name@);
        if i < before.len() {
            assert(after[i] == x);
        } else {
            assert(after[before.len() as int] == x);
        }
        let n = choose|n: u32|
            n < 0x100_0000 && (r->0)@ == #[trigger] scheduler::runner_label(rc, n);
        lemma_hex(n as nat, 6);
        assert(text::replace(rc.repo@, '/', '-') =~= dashed(rc.repo@));
        let tail = scheduler::hex(n as nat, 6);
        assert((r->0)@ == "hr-"@ + dashed(rc.repo@) + "-"@ + tail);
    }
}

/// A text with dashes for its slashes.
pub open spec fn dashed(s: Seq<char>) -> Seq<char> {
    Seq::new(
        s.len(),
        |i: int|
            if s[i] == '/' {
                '-'
            } else {
                s[i]
            },
    )
}

proof fn lemma_hex(v: nat, n: nat)
    ensures
        scheduler::hex(v, n).len() == n,
    decreases n,
{
    if n > 0 {
        lemma_hex(v / 16, (n - 1) as nat);
    }
}

/// A runner is found where it stands; one that is not in the pool is not found.
pub proof fn law_runners_are_found_by_name(app: App, name: &str, r: usize, k: int)
    requires
        call_ensures(App::find, (&app, name), r),
        0 <= k < app.runners@.len(),
    ensures
        r <= app.runners@.len(),
        r < app.runners@.len() ==> app.runners@[r as int].name@ == name@,
        app.runners@[k].name@ == name@ ==> r <= k,
{
}

// -- journals ---------------------------------------------------------------------------------

/// A new journal is empty and can be written.
pub proof fn law_new_journals_are_empty(r: Store)
    requires
        call_ensures(Store::new, (), r),
    ensures
        r.jobs@.len() == 0 && r.events@.len() == 0 && r.runners@.len() == 0
            && r.docker_caches@.len() == 0,
        !r.query_only,
{
}

/// Commands that only read open the journal that is there, and cannot write it; where there
/// is none they say so.
pub proof fn law_readers_open_what_is_there(
    path: &str,
    rows: Option<Store>,
    r: Result<Store, String>,
)
    requires
        call_ensures(Store::open_readonly, (path, rows), r),
    ensures
        r is Ok <==> rows is Some,
        r is Ok ==> (r->Ok_0).query_only && (r->Ok_0).jobs == (rows->0).jobs && (r->Ok_0).events
            == (rows->0).events && (r->Ok_0).runners == (rows->0).runners && (
        r->Ok_0).docker_caches == (rows->0).docker_caches,
        r is Err ==> (r->Err_0)@ == "no journal at "@ + path@ + " (has the supervisor run?)"@,
{
}

/// The layer caches that the journal knows are all listed.
pub proof fn law_known_caches_are_listed(store: Store, r: Vec<DockerCacheRecord>)
    requires
        call_ensures(Store::docker_cache_records, (&store,), r),
    ensures
        r@ == store.docker_caches@,
{
}

/// A supervisor begins without runners, and notes what it is told to note.
pub proof fn law_supervisors_begin_without_runners(
    config: crate::config::Config,
    store: Store,
    r: App,
    app: &mut App,
    level: &str,
    source: &str,
    msg: &str,
    now: i64,
)
    requires
        call_ensures(App::new, (config, store), r),
        call_ensures(App::log, (app, level, source, msg, now), ()),
        !old(app).store.query_only,
    ensures
        r.config == config,
        r.store == store,
        r.runners@.len() == 0 && r.degraded@.len() == 0 && r.backoff@.len() == 0
            && r.pending@.len() == 0,
        !r.awake,
        notes(final(app).store, old(app).store, level@, source@, msg@, now),
        final(app).runners == old(app).runners,
{
    assert(final(app).store.events@.drop_last() =~= old(app).store.events@);
}

} // verus!

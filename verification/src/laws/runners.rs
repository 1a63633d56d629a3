//! The life of a runner: starting, taking a job, ending, and what is kept of it.

use crate::config::{Config, RepoConfig, RuntimeKind};
use crate::laws::logs;
use crate::laws::pool;
use crate::number;
use crate::order;
use crate::paths;
use crate::runtime::ManagedContainer;
use crate::pattern;
use crate::scheduler;
use crate::scheduler::{
    App, Backoff, ExitPlan, LineEffect, LogCursor, LogDirAge, Lookup, NextExit, NextLookup,
    Outcome, Registration, Retirement, Runner, RunnerInfo, RunnerState, Sample, Snapshot, Spawned,
    Wakefulness,
};
use crate::store;
use crate::store::{JobInfo, Store};
use crate::text;
use vstd::prelude::*;

verus! {

/// The runner at `i` has that name, and no other runner of the pool has.
pub open spec fn is_at(app: App, i: int, name: Seq<char>) -> bool {
    &&& 0 <= i < app.runners@.len()
    &&& app.runners@[i].name@ == name
    &&& forall|k: int| 0 <= k < i ==> (#[trigger] app.runners@[k]).name@ != name
}

proof fn lemma_is_at(app: App, i: int, name: Seq<char>)
    requires
        is_at(app, i, name),
    ensures
        scheduler::runner_index(app.runners@, name) == i,
        scheduler::has_runner(app.runners@, name),
{
    scheduler::lemma_runner_index(app.runners@, name, i);
}

/// A repo's runners have failed `n` times in a row.
pub open spec fn has_failed(backoff: Seq<Backoff>, repo: Seq<char>, n: int) -> bool {
    ||| exists|k: int|
        {
            &&& 0 <= k < backoff.len()
            &&& (#[trigger] backoff[k]).repo@ == repo
            &&& backoff[k].failures == n
            &&& forall|l: int| 0 <= l < k ==> (#[trigger] backoff[l]).repo@ != repo
        }
    ||| n == 0 && forall|k: int| 0 <= k < backoff.len() ==> (#[trigger] backoff[k]).repo@ != repo
}

proof fn lemma_has_failed(backoff: Seq<Backoff>, repo: Seq<char>, n: int)
    ensures
        has_failed(backoff, repo, n) == (scheduler::failures(backoff, repo) == n),
{
    let k = scheduler::lemma_failures_at(backoff, repo);
    scheduler::lemma_failures(backoff, repo, k);
    if has_failed(backoff, repo, n) {
        if exists|k: int|
            {
                &&& 0 <= k < backoff.len()
                &&& (#[trigger] backoff[k]).repo@ == repo
                &&& backoff[k].failures == n
                &&& forall|l: int| 0 <= l < k ==> (#[trigger] backoff[l]).repo@ != repo
            } {
            let m = choose|m: int|
                {
                    &&& 0 <= m < backoff.len()
                    &&& (#[trigger] backoff[m]).repo@ == repo
                    &&& backoff[m].failures == n
                    &&& forall|l: int| 0 <= l < m ==> (#[trigger] backoff[l]).repo@ != repo
                };
            if m < k {
                assert(backoff[m].repo@ != repo);
            } else if k < m {
                assert(backoff[k].repo@ != repo);
            }
        } else if k < backoff.len() {
            assert(backoff[k].repo@ != repo);
        }
    }
    if scheduler::failures(backoff, repo) == n && k < backoff.len() {
        assert(backoff[k].failures == n);
    }
}

// -- the end -----------------------------------------------------------------------

/// A runner that has ended leaves the pool, and no other does. After a job its
/// repo's pool is topped up at once and counts as healthy; one that decayed is no
/// failure. One that ended without a job is one more failure in a row, and then
/// the wait is 2, 4, 8, 16, 32 and from then on 60 seconds. Only a runner that ran
/// no job leaves a registration behind.
pub proof fn law_ended_runners_leave_the_pool(
    app: &mut App,
    name: &str,
    code: i64,
    now: i64,
    r: Retirement,
    i: int,
    n: int,
)
    requires
        call_ensures(App::retire, (app, name, code, now), r),
        is_at(*old(app), i, name@),
        has_failed(old(app).backoff@, old(app).runners@[i].info.repo_cfg.repo@, n),
    ensures
        final(app).runners@ == old(app).runners@.remove(i),
        final(app).config == old(app).config,
        final(app).pending == old(app).pending,
        ({
            let was = old(app).runners@[i].info;
            let repo = was.repo_cfg.repo@;
            &&& was.ran_job ==> r.delay_s == 0 && r.unregister is None && has_failed(
                final(app).backoff@,
                repo,
                0,
            )
            &&& !was.ran_job ==> r.unregister == was.gh_runner_id
            &&& !was.ran_job && was.decaying ==> r.delay_s == 0 && has_failed(
                final(app).backoff@,
                repo,
                n,
            )
            &&& !was.ran_job && !was.decaying && n < u32::MAX ==> has_failed(
                final(app).backoff@,
                repo,
                n + 1,
            )
            &&& !was.ran_job && !was.decaying ==> {
                &&& n == 0 ==> r.delay_s == 2
                &&& n == 1 ==> r.delay_s == 4
                &&& n == 2 ==> r.delay_s == 8
                &&& n == 3 ==> r.delay_s == 16
                &&& n == 4 ==> r.delay_s == 32
                &&& n >= 5 ==> r.delay_s == 60
            }
        }),
{
    lemma_is_at(*old(app), i, name@);
    let repo = old(app).runners@[i].info.repo_cfg.repo@;
    lemma_has_failed(old(app).backoff@, repo, n);
    lemma_has_failed(final(app).backoff@, repo, 0);
    lemma_has_failed(final(app).backoff@, repo, n);
    lemma_has_failed(final(app).backoff@, repo, n + 1);
    reveal(vstd::arithmetic::power::pow);
    assert(vstd::arithmetic::power::pow(2, 0) == 1);
    assert(vstd::arithmetic::power::pow(2, 1) == 2);
    assert(vstd::arithmetic::power::pow(2, 2) == 4);
    assert(vstd::arithmetic::power::pow(2, 3) == 8);
    assert(vstd::arithmetic::power::pow(2, 4) == 16);
    assert(vstd::arithmetic::power::pow(2, 5) == 32);
}

/// What a runner fails at is counted for its repo alone.
pub proof fn law_failures_are_counted_for_their_repo_alone(
    app: &mut App,
    name: &str,
    code: i64,
    now: i64,
    r: Retirement,
    i: int,
    other: Seq<char>,
    n: int,
)
    requires
        call_ensures(App::retire, (app, name, code, now), r),
        is_at(*old(app), i, name@),
        other != old(app).runners@[i].info.repo_cfg.repo@,
    ensures
        has_failed(final(app).backoff@, other, n) == has_failed(old(app).backoff@, other, n),
{
    lemma_is_at(*old(app), i, name@);
    lemma_has_failed(old(app).backoff@, other, n);
    lemma_has_failed(final(app).backoff@, other, n);
    assert(scheduler::failures(final(app).backoff@, other) == scheduler::failures(
        old(app).backoff@,
        other,
    ));
}

/// A runner that has exited is waited for until its job's outcome is known, at most
/// six times; one that ran no job, or is gone, is not.
pub proof fn law_exits_are_awaited_six_times_at_most(
    app: App,
    name: &str,
    settled: bool,
    waits: u32,
    next: NextExit,
    i: int,
)
    requires
        call_ensures(App::exit_settled, (&app, name), settled),
        call_ensures(scheduler::after_exit, (waits, settled), next),
        is_at(app, i, name@),
    ensures
        settled <==> !app.runners@[i].info.ran_job || app.runners@[i].info.job.conclusion is Some,
        next == NextExit::Wait <==> waits < 6 && app.runners@[i].info.ran_job
            && app.runners@[i].info.job.conclusion is None,
        next == NextExit::Wait || next == NextExit::Settle,
{
    lemma_is_at(app, i, name@);
}

/// A runner's workspace is kept exactly if it ran a job, the job failed, and the
/// configuration keeps workspaces at all; under the standard tag and the job's id,
/// or the runner's name where that is not known. Logs go to the same name below
/// `jobs` in the data directory.
pub proof fn law_workspaces_of_failed_jobs_are_kept(
    app: App,
    name: &str,
    p: ExitPlan,
    i: int,
    id: i64,
    t: String,
    jobs: String,
    dir: String,
    data_dir: &str,
    jobs_str: &str,
    key_str: &str,
)
    requires
        call_ensures(App::exit_plan, (&app, name), Some(p)),
        is_at(app, i, name@),
        call_ensures(number::integer_text, (id,), t),
        data_dir@ == app.config.data_dir@,
        jobs_str@ == jobs@,
        key_str@ == p.key@,
        call_ensures(paths::join, (data_dir, "jobs"), jobs),
        call_ensures(paths::join, (jobs_str, key_str), dir),
    ensures
        p.keep_as is Some <==> app.runners@[i].info.ran_job && app.runners@[i].info.job.conclusion
            is Some && app.runners@[i].info.job.conclusion->0@ == "failure"@
            && app.config.keep_failed_workspaces > 0,
        p.keep_as is Some ==> p.keep_as->0@ == "homerunner-kept:"@ + p.key@,
        app.runners@[i].info.job.info.job_id is None ==> p.key@ == name@,
        app.runners@[i].info.job.info.job_id == Some(id) ==> p.key@ == t@,
        p.dir@ == dir@,
        p.ran_job == app.runners@[i].info.ran_job,
        p.job_id == app.runners@[i].info.job.info.job_id,
{
    lemma_is_at(app, i, name@);
}

/// A path below a directory is the directory, a slash and the rest, unless the
/// directory ends in a slash already; an absolute path stands for itself.
pub proof fn law_joined_paths(base: &str, rest: &str, r: String)
    requires
        call_ensures(paths::join, (base, rest), r),
    ensures
        rest@.len() > 0 && rest@[0] == '/' ==> r@ == rest@,
        !(rest@.len() > 0 && rest@[0] == '/') && base@.len() > 0 && base@.last() != '/' ==> r@
            == base@ + seq!['/'] + rest@,
        !(rest@.len() > 0 && rest@[0] == '/') && (base@.len() == 0 || base@.last() == '/') ==> r@
            == base@ + rest@,
{
}

/// What came of a runner whose job's id is known is written down of that job: its
/// logs if they were captured, its workspace if it was kept, its conclusion and
/// what it took. The pool stays as it is.
pub proof fn law_outcomes_of_known_jobs_are_written_down(
    app: &mut App,
    name: &str,
    captured: bool,
    kept: Option<Result<(), String>>,
    oom: bool,
    now: i64,
    i: int,
    id: i64,
    k: int,
    p: ExitPlan,
)
    requires
        call_ensures(App::settle_exit, (app, name, captured, kept, oom, now), ()),
        call_ensures(App::exit_plan, (&*old(app), name), Some(p)),
        is_at(*old(app), i, name@),
        old(app).runners@[i].info.job.info.job_id == Some(id),
        !old(app).store.query_only,
        0 <= k < old(app).store.jobs@.len(),
        old(app).store.jobs@[k].gh_job_id == id,
    ensures
        final(app).runners == old(app).runners,
        final(app).pending == old(app).pending,
        final(app).store.jobs@.len() == old(app).store.jobs@.len(),
        ({
            let was = old(app).runners@[i].info;
            let job = final(app).store.jobs@[k];
            let before = old(app).store.jobs@[k];
            &&& job.gh_job_id == id
            &&& was.ran_job && captured ==> job.log_dir is Some && job.log_dir->0@ == p.dir@
            &&& !(was.ran_job && captured) ==> text::opt_text(job.log_dir) == text::opt_text(
                before.log_dir,
            )
            &&& p.keep_as is Some && kept is Some && kept->0 is Ok ==> job.kept_image is Some
                && job.kept_image->0@ == p.keep_as->0@ && job.kept_image_runtime is Some
            &&& p.keep_as is None || kept is None || kept->0 is Err ==> text::opt_text(
                job.kept_image,
            ) == text::opt_text(before.kept_image)
            &&& was.job.conclusion is Some ==> text::opt_text(job.conclusion) == text::opt_text(
                was.job.conclusion,
            ) && job.completed_at == Some(now)
            &&& was.job.conclusion is None ==> job.completed_at == before.completed_at
            &&& was.ran_job && oom ==> job.oom == Some(true)
        }),
{
    lemma_is_at(*old(app), i, name@);
    let x = old(app).runners@[i];
    let config = old(app).config;
    let kt = scheduler::kept_text(kept);
    let (a, b, c, d) = choose|a: Store, b: Store, c: Store, d: Store|
        #[trigger] scheduler::exit_recorded(
            final(app).store,
            a,
            b,
            c,
            d,
            old(app).store,
            config,
            x,
            captured,
            kt,
            oom,
            now,
        );
    assert(a.jobs == old(app).store.jobs);
    let jb = b.jobs@[k];
    let jc = c.jobs@[k];
    let jd = d.jobs@[k];
    assert(final(app).store.jobs == d.jobs);
}

/// What came of a runner whose job's id is not known yet waits under the runner's
/// name, with all that is known of it.
pub proof fn law_outcomes_of_unnamed_jobs_wait(
    app: &mut App,
    name: &str,
    captured: bool,
    kept: Option<Result<(), String>>,
    oom: bool,
    now: i64,
    i: int,
    p: ExitPlan,
)
    requires
        call_ensures(App::settle_exit, (app, name, captured, kept, oom, now), ()),
        call_ensures(App::exit_plan, (&*old(app), name), Some(p)),
        is_at(*old(app), i, name@),
        old(app).runners@[i].info.job.info.job_id is None,
    ensures
        final(app).store.jobs == old(app).store.jobs,
        !old(app).runners@[i].info.ran_job ==> final(app).pending == old(app).pending,
        old(app).runners@[i].info.ran_job ==> {
            let was = old(app).runners@[i].info;
            let o = final(app).pending@.last();
            &&& final(app).pending@.len() > 0
            &&& o.runner@ == name@
            &&& o.conclusion == was.job.conclusion
            &&& captured ==> o.log_dir is Some && o.log_dir->0@ == p.dir@
            &&& !captured ==> o.log_dir is None
            &&& o.kept_image is Some <==> p.keep_as is Some && kept is Some && kept->0 is Ok
            &&& o.kept_image is Some ==> o.kept_image->0@ == p.keep_as->0@
            &&& o.oom == oom
        },
{
    lemma_is_at(*old(app), i, name@);
    let x = old(app).runners@[i];
    let kt = scheduler::kept_text(kept);
    let (a, b, c, d) = choose|a: Store, b: Store, c: Store, d: Store|
        #[trigger] scheduler::exit_recorded(
            final(app).store,
            a,
            b,
            c,
            d,
            old(app).store,
            old(app).config,
            x,
            captured,
            kt,
            oom,
            now,
        );
    assert(a.jobs == old(app).store.jobs);
    if x.info.ran_job {
        let others = old(app).pending@.filter(scheduler::outcome_of_another(name@));
        let o = final(app).pending@.last();
        assert(final(app).pending@ == others.push(o));
        assert(others.push(o).len() == others.len() + 1);
        assert(scheduler::is_outcome(o, old(app).config, x, captured, kt, oom));
        match kept {
            Some(Ok(_)) => {
                assert(kt == Some(Ok::<(), Seq<char>>(())));
            },
            Some(Err(e)) => {
                assert(kt == Some(Err::<(), Seq<char>>(e@)));
            },
            None => {
                assert(kt is None);
            },
        }
    }
}

// -- starting ----------------------------------------------------------------------

/// A runner that could be started listens, under the id and in the container that
/// it was given; one that could not has failed, and that counts for its repo. Every
/// other runner stays as it is.
pub proof fn law_started_runners_listen(
    app: &mut App,
    name: &str,
    outcome: Result<Spawned, String>,
    now: i64,
    i: int,
    k: int,
    n: int,
)
    requires
        call_ensures(App::note_spawn, (app, name, outcome, now), ()),
        is_at(*old(app), i, name@),
        0 <= k < old(app).runners@.len(),
        has_failed(old(app).backoff@, old(app).runners@[i].info.repo_cfg.repo@, n),
        n < u32::MAX,
    ensures
        final(app).runners@.len() == old(app).runners@.len(),
        k != i ==> final(app).runners@[k] == old(app).runners@[k],
        final(app).runners@[i].name == old(app).runners@[i].name,
        outcome matches Ok(s) ==> {
            let is = final(app).runners@[i].info;
            &&& is.state == RunnerState::Listening
            &&& is.gh_runner_id == Some(s.gh_runner_id)
            &&& is.container_id == s.container_id
            &&& is.created_at == old(app).runners@[i].info.created_at
            &&& final(app).backoff == old(app).backoff
        },
        outcome is Err ==> {
            &&& final(app).runners@[i].info.state == RunnerState::Failed
            &&& has_failed(
                final(app).backoff@,
                old(app).runners@[i].info.repo_cfg.repo@,
                n + 1,
            )
        },
{
    lemma_is_at(*old(app), i, name@);
    let repo = old(app).runners@[i].info.repo_cfg.repo@;
    lemma_has_failed(old(app).backoff@, repo, n);
    lemma_has_failed(final(app).backoff@, repo, n + 1);
}

/// That a runner listens, or could not be started, is noted, and its row says how it stands.
pub proof fn law_starts_of_runners_are_noted(
    app: &mut App,
    name: &str,
    outcome: Result<Spawned, String>,
    now: i64,
    i: int,
)
    requires
        call_ensures(App::note_spawn, (app, name, outcome, now), ()),
        is_at(*old(app), i, name@),
        !old(app).store.query_only,
    ensures
        final(app).store.events@.len() == old(app).store.events@.len() + 1,
        final(app).store.jobs == old(app).store.jobs,
        ({
            let e = final(app).store.events@.last();
            &&& e.ts == now
            &&& e.source@ == "spawn"@
            &&& outcome is Ok ==> e.level@ == "info"@ && e.msg@ == name@ + " listening for "@
                + old(app).runners@[i].info.repo_cfg.repo@
            &&& outcome is Err ==> e.level@ == "error"@ && e.msg@ == name@ + " failed: "@ + (
            outcome->Err_0)@
        }),
{
    lemma_is_at(*old(app), i, name@);
}

/// A runner is named after its repo, with dashes for slashes, and six hexadecimal
/// digits.
pub proof fn law_runners_are_named_after_their_repo(rc: RepoConfig, n: u32, r: String, i: int)
    requires
        call_ensures(scheduler::runner_name, (&rc, n), r),
        0 <= i < rc.repo@.len(),
    ensures
        r@.len() == rc.repo@.len() + 10,
        r@.subrange(0, 3) == "hr-"@,
        r@[3 + i] == if rc.repo@[i] == '/' {
            '-'
        } else {
            rc.repo@[i]
        },
        r@[3 + rc.repo@.len() as int] == '-',
        forall|k: int|
            4 + rc.repo@.len() <= k < r@.len() ==> (48 <= (#[trigger] r@[k]) as int <= 57) || (97
                <= r@[k] as int <= 102),
{
    reveal_strlit("hr-");
    reveal_strlit("-");
    lemma_hex(n as nat, 6);
    let h = scheduler::hex(n as nat, 6);
    let p = scheduler::name_prefix(rc);
    assert(r@ == p + h);
    assert(r@.subrange(0, 3) =~= "hr-"@);
    assert(p[3 + i] == text::replace(rc.repo@, '/', '-')[i]);
    assert forall|k: int| 4 + rc.repo@.len() <= k < r@.len() implies (48 <= (
    #[trigger] r@[k]) as int <= 57) || (97 <= r@[k] as int <= 102) by {
        assert(r@[k] == h[k - 4 - rc.repo@.len()]);
    }
}

proof fn lemma_hex(v: nat, n: nat)
    ensures
        scheduler::hex(v, n).len() == n,
        forall|k: int|
            0 <= k < n ==> (48 <= (#[trigger] scheduler::hex(v, n)[k]) as int <= 57) || (97
                <= scheduler::hex(v, n)[k] as int <= 102),
    decreases n,
{
    if n > 0 {
        lemma_hex(v / 16, (n - 1) as nat);
        let before = scheduler::hex(v / 16, (n - 1) as nat);
        let all = scheduler::hex(v, n);
        assert forall|k: int| 0 <= k < n implies (48 <= (#[trigger] all[k]) as int <= 57) || (97
            <= all[k] as int <= 102) by {
            if k < n - 1 {
                assert(all[k] == before[k]);
            }
        }
    }
}

/// A container that is found after a restart is taken back exactly if it runs and
/// its repo is configured on that runtime; then it listens.
pub proof fn law_running_containers_are_taken_back(
    app: &mut App,
    kind: RuntimeKind,
    mc: ManagedContainer,
    now: i64,
    r: bool,
)
    requires
        call_ensures(App::adopt, (app, kind, &mc, now), r),
    ensures
        r <==> mc.running && exists|k: int|
            0 <= k < old(app).config.repos@.len() && (#[trigger] old(app).config.repos@[k]).repo@
                == mc.repo@ && old(app).config.repos@[k].runtime == kind,
        !r ==> final(app).runners == old(app).runners,
        r ==> exists|i: int|
            {
                &&& 0 <= i < final(app).runners@.len()
                &&& (#[trigger] final(app).runners@[i]).name@ == mc.runner_name@
                &&& final(app).runners@[i].info.state == RunnerState::Listening
                &&& final(app).runners@[i].info.container_id@ == mc.container_id@
                &&& final(app).runners@[i].info.repo_cfg.repo@ == mc.repo@
                &&& final(app).runners@[i].info.created_at == now
                &&& !final(app).runners@[i].info.ran_job
            },
        forall|x: Runner|
            x.name@ != mc.runner_name@ && old(app).runners@.contains(x)
                ==> #[trigger] final(app).runners@.contains(x),
{
    let repos = old(app).config.repos@;
    lemma_repo_on(repos, mc.repo@, kind);
    if r {
        let x = choose|x: Runner|
            {
                &&& final(app).runners@ == #[trigger] scheduler::with_runner(old(app).runners@, x)
                &&& x.name@ == mc.runner_name@
                &&& crate::config::same_repo(
                    x.info.repo_cfg,
                    scheduler::repo_on(repos, mc.repo@, kind)->0,
                )
                &&& x.info.is_fresh(
                    x.info.repo_cfg,
                    RunnerState::Listening,
                    mc.container_id@,
                    now,
                )
            };
        scheduler::lemma_index_bounds(old(app).runners@, x.name@);
        let i = scheduler::runner_index(old(app).runners@, x.name@);
        assert(final(app).runners@[i] == x);
        assert forall|y: Runner| y.name@ != mc.runner_name@ && old(app).runners@.contains(y) implies
            #[trigger] final(app).runners@.contains(y) by {
            let a = choose|a: int| 0 <= a < old(app).runners@.len() && old(app).runners@[a] == y;
            assert(final(app).runners@[a] == y);
        }
    }
}

proof fn lemma_repo_on(repos: Seq<RepoConfig>, repo: Seq<char>, kind: RuntimeKind)
    ensures
        scheduler::repo_on(repos, repo, kind) is Some <==> exists|k: int|
            0 <= k < repos.len() && (#[trigger] repos[k]).repo@ == repo && repos[k].runtime == kind,
        scheduler::repo_on(repos, repo, kind) matches Some(rc) ==> rc.repo@ == repo && rc.runtime
            == kind,
    decreases repos.len(),
{
    if repos.len() > 0 {
        let rest = repos.drop_first();
        lemma_repo_on(rest, repo, kind);
        if repos[0].repo@ == repo && repos[0].runtime == kind {
        } else {
            if exists|k: int|
                0 <= k < repos.len() && (#[trigger] repos[k]).repo@ == repo && repos[k].runtime
                    == kind {
                let k = choose|k: int|
                    0 <= k < repos.len() && (#[trigger] repos[k]).repo@ == repo
                        && repos[k].runtime == kind;
                assert(rest[k - 1] == repos[k]);
            }
            if exists|k: int|
                0 <= k < rest.len() && (#[trigger] rest[k]).repo@ == repo && rest[k].runtime
                    == kind {
                let k = choose|k: int|
                    0 <= k < rest.len() && (#[trigger] rest[k]).repo@ == repo && rest[k].runtime
                        == kind;
                assert(repos[k + 1] == rest[k]);
            }
        }
    }
}

/// A registration is deleted exactly if its name is one of the repo's runners, it
/// is offline, it has an id and no runner of the pool has its name.
pub proof fn law_left_over_registrations(
    app: App,
    rc: RepoConfig,
    regs: Vec<Registration>,
    r: Vec<usize>,
    i: int,
    slug: String,
)
    requires
        call_ensures(App::left_over_registrations, (&app, &rc, &regs), r),
        call_ensures(RepoConfig::slug, (&rc,), slug),
        0 <= i < regs@.len(),
    ensures
        r@.contains(i as usize) <==> {
            &&& exists|rest: Seq<char>|
                regs@[i].name@ == #[trigger] ("hr-"@ + slug@ + "-"@ + rest)
            &&& regs@[i].status is Some && regs@[i].status->0@ == "offline"@
            &&& regs@[i].id is Some
            &&& forall|k: int|
                0 <= k < app.runners@.len() ==> (#[trigger] app.runners@[k]).name@
                    != regs@[i].name@
        },
        slug@.len() == rc.repo@.len(),
        forall|k: int|
            0 <= k < slug@.len() ==> (#[trigger] slug@[k]) == if rc.repo@[k] == '/' {
                '-'
            } else {
                rc.repo@[k]
            },
{
    let at = r@.map_values(|i: usize| i as int);
    assert(regs.len() == regs@.len());
    lemma_left_over(app, rc, regs@, regs@.len() as int);
    crate::laws::retention::lemma_positions(r@, at, i);
    assert(at.contains(i) <==> scheduler::is_left_over(app, rc, regs@[i]));
    scheduler::lemma_index_bounds(app.runners@, regs@[i].name@);
    let p = scheduler::name_prefix(rc);
    let name = regs@[i].name@;
    assert(p == "hr-"@ + slug@ + "-"@);
    if p.is_prefix_of(name) {
        assert(name =~= p + name.skip(p.len() as int));
    }
    if exists|rest: Seq<char>| name == #[trigger] (p + rest) {
        let rest = choose|rest: Seq<char>| name == #[trigger] (p + rest);
        assert(name.subrange(0, p.len() as int) =~= p);
    }
    if scheduler::has_runner(app.runners@, name) {
        assert(app.runners@[scheduler::runner_index(app.runners@, name)].name@ == name);
    }
}

proof fn lemma_left_over(app: App, rc: RepoConfig, regs: Seq<Registration>, n: int)
    requires
        0 <= n <= regs.len(),
    ensures
        forall|k: int| #[trigger]
            scheduler::left_over(app, rc, regs, n).contains(k) <==> 0 <= k < n
                && scheduler::is_left_over(app, rc, regs[k]),
    decreases n,
{
    if n > 0 {
        lemma_left_over(app, rc, regs, n - 1);
        let before = scheduler::left_over(app, rc, regs, n - 1);
        let all = scheduler::left_over(app, rc, regs, n);
        if scheduler::is_left_over(app, rc, regs[n - 1]) {
            assert forall|k: int| #[trigger] all.contains(k) <==> 0 <= k < n
                && scheduler::is_left_over(app, rc, regs[k]) by {
                logs::lemma_push_contains(before, n - 1, k);
            }
        }
    }
}

/// A runtime is degraded exactly while a reason was given for it last.
pub proof fn law_runtimes_are_degraded_while_there_is_a_reason(
    app: &mut App,
    kind: RuntimeKind,
    reason: Option<String>,
    now: i64,
    other: RuntimeKind,
)
    requires
        call_ensures(App::note_runtime, (app, kind, reason, now), ()),
    ensures
        final(app).runners == old(app).runners,
        (exists|k: int|
            0 <= k < final(app).degraded@.len() && (#[trigger] final(app).degraded@[k]).runtime
                == kind) <==> reason is Some,
        other != kind ==> ((exists|k: int|
            0 <= k < final(app).degraded@.len() && (#[trigger] final(app).degraded@[k]).runtime
                == other) <==> exists|k: int|
            0 <= k < old(app).degraded@.len() && (#[trigger] old(app).degraded@[k]).runtime
                == other),
{
    let a = scheduler::lemma_trouble_at(final(app).degraded@, kind);
    let b = scheduler::lemma_trouble_at(final(app).degraded@, other);
    let c = scheduler::lemma_trouble_at(old(app).degraded@, other);
    if other != kind {
        assert(scheduler::trouble(final(app).degraded@, other) == scheduler::trouble(
            old(app).degraded@,
            other,
        ));
    }
    if a < final(app).degraded@.len() {
        assert(final(app).degraded@[a].runtime == kind);
    }
    if b < final(app).degraded@.len() {
        assert(final(app).degraded@[b].runtime == other);
    }
    if c < old(app).degraded@.len() {
        assert(old(app).degraded@[c].runtime == other);
    }
}

// -- output ------------------------------------------------------------------------

/// A line that names a job makes a runner busy that is not, from now on and with
/// that job; a line that names an outcome is the outcome of the job, if it is the
/// first; any other line is only kept. No other runner changes.
pub proof fn law_lines_that_name_a_job_make_busy(
    app: &mut App,
    name: &str,
    line: &str,
    running: Option<&str>,
    conclusion: Option<&str>,
    now: i64,
    r: LineEffect,
    i: int,
    k: int,
)
    requires
        call_ensures(App::take_line, (app, name, line, running, conclusion, now), r),
        is_at(*old(app), i, name@),
        0 <= k < old(app).runners@.len(),
    ensures
        final(app).runners@.len() == old(app).runners@.len(),
        k != i ==> final(app).runners@[k] == old(app).runners@[k],
        ({
            let was = old(app).runners@[i].info;
            let is = final(app).runners@[i].info;
            let starts = running is Some && was.state != RunnerState::Busy;
            let ends = running is None && conclusion is Some && was.job.conclusion is None;
            &&& r == LineEffect::BecameBusy <==> starts
            &&& r != LineEffect::Gone
            &&& starts ==> {
                &&& is.state == RunnerState::Busy
                &&& is.busy_at == Some(now)
                &&& is.ran_job
                &&& is.job.info.job_name is Some && is.job.info.job_name->0@ == running->0@
                &&& is.job.conclusion is None
                &&& is.job.info.job_id is None
            }
            &&& ends ==> {
                &&& is.job.conclusion is Some && is.job.conclusion->0@ == conclusion->0@
                &&& is.job.info == was.job.info
                &&& is.state == was.state
                &&& is.busy_at == was.busy_at
            }
            &&& !starts && !ends ==> {
                &&& is.state == was.state
                &&& is.busy_at == was.busy_at
                &&& is.ran_job == was.ran_job
                &&& is.job == was.job
            }
            &&& is.last_line == was.last_line + 1
            &&& is.log@.last().0 == is.last_line
            &&& is.log@.last().1@ == line@
            &&& is.decaying == was.decaying
            &&& is.repo_cfg == was.repo_cfg
        }),
{
    lemma_is_at(*old(app), i, name@);
    let was = old(app).runners@[i].info;
    let is = final(app).runners@[i].info;
    assert(is.log@.last().0 == is.last_line);
}

/// A line of the runner program that says which job runs makes its runner busy with that
/// job; one that says what came of it concludes the job, as a success, a failure or a
/// cancellation.
pub proof fn law_the_words_of_the_runner_program(
    app: &mut App,
    name: &str,
    line: &str,
    now: i64,
    r: LineEffect,
    i: int,
)
    requires
        call_ensures(App::watch_line, (app, name, line, now), r),
        is_at(*old(app), i, name@),
    ensures
        ({
            let was = old(app).runners@[i].info;
            let is = final(app).runners@[i].info;
            let job = pattern::regex_group("Running job: (?<job>.+)$"@, "job"@, line@);
            let result = pattern::regex_group(
                "completed with result: (?<result>\\w+)"@,
                "result"@,
                line@,
            );
            let ends = job is None && was.job.conclusion is None;
            &&& r == LineEffect::BecameBusy <==> job is Some && was.state != RunnerState::Busy
            &&& r == LineEffect::BecameBusy ==> {
                &&& is.state == RunnerState::Busy
                &&& is.busy_at == Some(now)
                &&& is.job.info.job_name is Some && is.job.info.job_name->0@ == job->0
            }
            &&& r != LineEffect::BecameBusy ==> is.state == was.state && is.busy_at == was.busy_at
            &&& ends && result == Some("Succeeded"@) ==> is.job.conclusion is Some
                && is.job.conclusion->0@ == "success"@
            &&& ends && result == Some("Failed"@) ==> is.job.conclusion is Some
                && is.job.conclusion->0@ == "failure"@
            &&& ends && result == Some("Canceled"@) ==> is.job.conclusion is Some
                && is.job.conclusion->0@ == "cancelled"@
            &&& job is None && result is None ==> is.job == was.job
            &&& is.last_line == was.last_line + 1
            &&& is.log@.last().1@ == line@
        }),
{
    lemma_is_at(*old(app), i, name@);
    reveal_strlit("Succeeded");
    reveal_strlit("Failed");
    reveal_strlit("Canceled");
    assert("Succeeded"@[0] == 'S' && "Failed"@[0] == 'F' && "Canceled"@[0] == 'C');
    let is = final(app).runners@[i].info;
    assert(is.log@.last().0 == is.last_line);
}

/// The latest five hundred lines are kept, each with its number.
pub proof fn law_five_hundred_lines_are_kept(info: &mut RunnerInfo, line: String)
    requires
        call_ensures(RunnerInfo::push_log, (info, line), ()),
    ensures
        final(info).last_line == old(info).last_line + 1,
        final(info).log@.last() == (final(info).last_line, line),
        old(info).log@.len() < 500 ==> final(info).log@.drop_last() == old(info).log@,
        old(info).log@.len() >= 500 ==> final(info).log@.drop_last() == old(info).log@.drop_first(),
        final(info).state == old(info).state,
        final(info).job == old(info).job,
{
    if old(info).log@.len() < 500 {
        assert(final(info).log@.drop_last() =~= old(info).log@);
    } else {
        assert(final(info).log@.drop_last() =~= old(info).log@.drop_first());
    }
}

/// A subscriber is replayed every kept line after the last one that it has seen,
/// and goes on after the latest line.
pub proof fn law_replays_begin_after_what_was_seen(
    info: RunnerInfo,
    after: u64,
    replay: Vec<(u64, String)>,
    cursor: LogCursor,
)
    requires
        call_ensures(RunnerInfo::subscribe_logs, (&info, after), (replay, cursor)),
    ensures
        replay@ == info.log@.filter(|e: (u64, String)| e.0 > after),
        cursor.seen == info.last_line,
{
    pool::lemma_same_filter(
        info.log@,
        scheduler::is_after(after),
        |e: (u64, String)| e.0 > after,
    );
}

/// Of the lines that a subscriber has not seen it gets the first, and then has seen it.
pub proof fn law_subscribers_get_line_after_line(
    cursor: &mut LogCursor,
    info: RunnerInfo,
    r: Option<(u64, String)>,
)
    requires
        call_ensures(LogCursor::try_recv, (cursor, &info), r),
    ensures
        r is None <==> info.log@.filter(|e: (u64, String)| e.0 > old(cursor).seen).len() == 0,
        r is None ==> final(cursor).seen == old(cursor).seen,
        r is Some ==> r->0 == info.log@.filter(|e: (u64, String)| e.0 > old(cursor).seen)[0],
        r is Some ==> final(cursor).seen == (r->0).0,
{
    pool::lemma_same_filter(
        info.log@,
        scheduler::is_after(old(cursor).seen),
        |e: (u64, String)| e.0 > old(cursor).seen,
    );
}

/// What a runner reports of a job is put as the jobs API puts it.
pub proof fn law_reported_results(result: &str, r: String)
    requires
        call_ensures(scheduler::conclusion_text, (result,), r),
    ensures
        result@ == "Succeeded"@ ==> r@ == "success"@,
        result@ == "Failed"@ ==> r@ == "failure"@,
        result@ == "Canceled"@ ==> r@ == "cancelled"@,
        result@ != "Succeeded"@ && result@ != "Failed"@ && result@ != "Canceled"@ ==> r@
            == scheduler::lowercased(result@),
{
    reveal_strlit("Succeeded");
    reveal_strlit("Failed");
    reveal_strlit("Canceled");
    assert("Succeeded"@.len() == 9 && "Failed"@.len() == 6 && "Canceled"@.len() == 8);
}

/// A runner's job is asked for until the jobs API knows it, eight times at most,
/// and no more once a request fails.
pub proof fn law_jobs_are_looked_up_eight_times_at_most(
    lookups: u32,
    found: Lookup,
    r: NextLookup,
)
    requires
        call_ensures(scheduler::after_lookup, (lookups, found), r),
    ensures
        found == Lookup::Found ==> r == NextLookup::Apply,
        found == Lookup::Failed ==> r == NextLookup::Stop,
        found == Lookup::NotYet && lookups < 8 ==> r == NextLookup::AskAgain,
        found == Lookup::NotYet && lookups >= 8 ==> r == NextLookup::Stop,
{
}

/// What the jobs API says of a runner's job is known of the runner from then on,
/// but for the name that its output gave; and what waited for the job's id is no
/// longer pending.
pub proof fn law_named_jobs_are_known_of_their_runner(
    app: &mut App,
    name: &str,
    repo: &str,
    busy_at: Option<i64>,
    found: JobInfo,
    now: i64,
    i: int,
    k: int,
)
    requires
        call_ensures(App::enrich_job, (app, name, repo, busy_at, &found, now), ()),
        is_at(*old(app), i, name@),
        0 <= k < old(app).runners@.len(),
    ensures
        final(app).runners@.len() == old(app).runners@.len(),
        k != i ==> final(app).runners@[k] == old(app).runners@[k],
        ({
            let was = old(app).runners@[i].info;
            let is = final(app).runners@[i].info;
            &&& is.job.info.job_id == found.job_id
            &&& is.job.info.run_id == found.run_id
            &&& is.job.info.workflow == found.workflow
            &&& is.job.info.html_url == found.html_url
            &&& is.job.info.head_branch == found.head_branch
            &&& is.job.info.head_sha == found.head_sha
            &&& was.job.info.job_name is Some ==> is.job.info.job_name == was.job.info.job_name
            &&& was.job.info.job_name is None ==> is.job.info.job_name == found.job_name
            &&& is.job.conclusion == was.job.conclusion
            &&& is.state == was.state
        }),
        forall|o: Outcome|
            final(app).pending@.contains(o) <==> #[trigger] old(app).pending@.contains(o) && o.runner@
                != name@,
{
    lemma_is_at(*old(app), i, name@);
    let p = scheduler::outcome_of_another(name@);
    assert forall|o: Outcome|
        final(app).pending@.contains(o) <==> #[trigger] old(app).pending@.contains(o) && o.runner@
            != name@ by {
        if final(app).pending@.contains(o) {
            old(app).pending@.lemma_filter_contains_rev(p, o);
            let a = choose|a: int| 0 <= a < final(app).pending@.len() && final(app).pending@[a] == o;
            old(app).pending@.lemma_filter_pred(p, a);
        }
        if old(app).pending@.contains(o) && o.runner@ != name@ {
            let a = choose|a: int| 0 <= a < old(app).pending@.len() && old(app).pending@[a] == o;
            old(app).pending@.lemma_filter_contains(p, a);
        }
    }
}

// -- the rest ----------------------------------------------------------------------

/// The machine is kept awake while a job runs of a repo that asks for it, and no longer.
pub proof fn law_jobs_keep_the_machine_awake(app: App, r: Wakefulness)
    requires
        call_ensures(App::update_caffeinate, (&app,), r),
    ensures
        ({
            let wanted = exists|i: int|
                0 <= i < app.runners@.len() && (#[trigger] app.runners@[i]).info.state
                    == RunnerState::Busy && app.runners@[i].info.repo_cfg.caffeinate;
            &&& r == Wakefulness::Begin <==> wanted && !app.awake
            &&& r == Wakefulness::End <==> !wanted && app.awake
        }),
{
}

/// It is time to tidy up once more than a day has gone by.
pub proof fn law_tidying_is_daily(last: i64, now: i64, r: bool)
    requires
        call_ensures(App::daily_due, (last, now), r),
    ensures
        r <==> now - last > 24 * 60 * 60 * 1_000_000,
{
}

/// The live runners on a runtime are named, in order.
pub proof fn law_live_runners_are_named(app: App, kind: RuntimeKind, r: Vec<String>)
    requires
        call_ensures(App::live_names, (&app, kind), r),
    ensures
        r@ == app.runners@.filter(
            |x: Runner|
                x.info.state != RunnerState::Exited && x.info.state != RunnerState::Failed
                    && x.info.repo_cfg.runtime == kind,
        ).map_values(|x: Runner| x.name),
{
    pool::lemma_same_filter(
        app.runners@,
        scheduler::is_live_on(kind),
        |x: Runner|
            x.info.state != RunnerState::Exited && x.info.state != RunnerState::Failed
                && x.info.repo_cfg.runtime == kind,
    );
}

/// One sample sets what its runner takes, and raises its peak where it takes more
/// than ever; nothing else changes.
pub proof fn law_samples_set_what_a_runner_takes(
    app: &mut App,
    samples: Vec<Sample>,
    r: bool,
    i: int,
    k: int,
)
    requires
        call_ensures(App::apply_samples, (app, &samples), r),
        samples@.len() == 1,
        is_at(*old(app), i, samples@[0].name@),
        0 <= k < old(app).runners@.len(),
    ensures
        r,
        final(app).runners@.len() == old(app).runners@.len(),
        k != i ==> final(app).runners@[k] == old(app).runners@[k],
        final(app).runners@[i].info.cpu == samples@[0].cpu,
        final(app).runners@[i].info.mem_bytes == samples@[0].mem_bytes,
        final(app).runners@[i].info.peak_mem_bytes >= samples@[0].mem_bytes,
        final(app).runners@[i].info.peak_mem_bytes >= old(app).runners@[i].info.peak_mem_bytes,
        final(app).runners@[i].info.peak_mem_bytes == samples@[0].mem_bytes
            || final(app).runners@[i].info.peak_mem_bytes
            == old(app).runners@[i].info.peak_mem_bytes,
        final(app).runners@[i].info.state == old(app).runners@[i].info.state,
{
    lemma_is_at(*old(app), i, samples@[0].name@);
    assert(samples@.drop_last() =~= Seq::<Sample>::empty());
    assert(samples@.last() == samples@[0]);
    assert(scheduler::all_sampled(old(app).runners@, samples@.drop_last()) == old(app).runners@);
}

/// The directories beyond the number that is kept are handed out, those written
/// longest ago.
pub proof fn law_the_oldest_directories_go(
    app: App,
    dirs: Vec<LogDirAge>,
    r: Vec<usize>,
    a: int,
    k: int,
)
    requires
        call_ensures(App::old_log_dirs, (&app, &dirs), r),
        0 <= a < r@.len(),
        0 <= k < dirs@.len(),
    ensures
        r@.len() + app.config.keep_job_logs == dirs@.len(),
        r@[a] < dirs@.len(),
        !r@.contains(k as usize) ==> dirs@[r@[a] as int].modified <= dirs@[k].modified,
{
    let keys = scheduler::age_keys(dirs@);
    assert(dirs.len() == dirs@.len());
    let at = choose|at: Seq<usize>|
        #[trigger] order::is_ascending(keys, at) && r@ == at.take(
            scheduler::excess(dirs@.len(), app.config.keep_job_logs as nat),
        );
    assert(r@[a] == at[a]);
    assert(at.contains(k as usize));
    let p = choose|p: int| 0 <= p < at.len() && at[p] == k as usize;
    if p < r@.len() {
        assert(r@[p] == k as usize);
    } else {
        assert(order::before(keys, at[a] as int, at[p] as int));
        assert(keys[at[a] as int] == dirs@[at[a] as int].modified as i128);
        assert(keys[k] == dirs@[k].modified as i128);
    }
}

proof fn lemma_total_max(repos: Seq<RepoConfig>, n: int)
    requires
        0 <= n <= repos.len(),
    ensures
        scheduler::total_max(repos, n) == logs::tally(n, |i: int| repos[i].max as int),
    decreases n,
{
    if n > 0 {
        lemma_total_max(repos, n - 1);
    }
}

/// The supervisor shows every repo with its live runners, every live runner, and
/// how many runners there can be: the sum of the ceilings, but no more than the
/// overall one.
pub proof fn law_snapshots_show_repos_and_live_runners(
    app: App,
    r: Snapshot,
    k: int,
    repo: &str,
    own: usize,
)
    requires
        call_ensures(App::snapshot, (&app,), r),
        0 <= k < app.config.repos@.len(),
        repo@ == app.config.repos@[k].repo@,
        call_ensures(App::live_count, (&app, Some(repo)), own),
    ensures
        ({
            let sum = logs::tally(
                app.config.repos@.len() as int,
                |i: int| app.config.repos@[i].max as int,
            );
            r.capacity == if sum < app.config.max_total_runners {
                sum
            } else {
                app.config.max_total_runners as int
            }
        }),
        r.max_total_runners == app.config.max_total_runners,
        r.repos@.len() == app.config.repos@.len(),
        r.repos@[k].repo == app.config.repos@[k].repo,
        r.repos@[k].reserved == app.config.repos@[k].reserved,
        r.repos@[k].max == app.config.repos@[k].max,
        r.repos@[k].live == own,
        r.runners@.len() == app.runners@.filter(
            |x: Runner| x.info.state != RunnerState::Exited && x.info.state != RunnerState::Failed,
        ).len(),
        forall|i: int|
            0 <= i < r.runners@.len() ==> {
                let x = app.runners@.filter(
                    |x: Runner|
                        x.info.state != RunnerState::Exited && x.info.state != RunnerState::Failed,
                )[i];
                &&& (#[trigger] r.runners@[i]).name == x.name
                &&& r.runners@[i].repo == x.info.repo_cfg.repo
                &&& r.runners@[i].state@ == x.info.state.spec_name()
                &&& r.runners@[i].busy_at == x.info.busy_at
                &&& r.runners@[i].job == x.info.job.info
                &&& r.runners@[i].conclusion == x.info.job.conclusion
                &&& r.runners@[i].cpu == x.info.cpu
                &&& r.runners@[i].mem_bytes == x.info.mem_bytes
            },
{
    lemma_total_max(app.config.repos@, app.config.repos@.len() as int);
    pool::lemma_same_filter(
        app.runners@,
        scheduler::is_live(None),
        |x: Runner| x.info.state != RunnerState::Exited && x.info.state != RunnerState::Failed,
    );
    let s = r.repos@[k];
    assert forall|i: int| 0 <= i < r.runners@.len() implies {
        let x = app.runners@.filter(
            |x: Runner| x.info.state != RunnerState::Exited && x.info.state != RunnerState::Failed,
        )[i];
        &&& (#[trigger] r.runners@[i]).name == x.name
        &&& r.runners@[i].repo == x.info.repo_cfg.repo
        &&& r.runners@[i].state@ == x.info.state.spec_name()
        &&& r.runners@[i].busy_at == x.info.busy_at
        &&& r.runners@[i].job == x.info.job.info
        &&& r.runners@[i].conclusion == x.info.job.conclusion
        &&& r.runners@[i].cpu == x.info.cpu
        &&& r.runners@[i].mem_bytes == x.info.mem_bytes
    } by {
        assert(scheduler::is_runner_snapshot(
            r.runners@[i],
            app.runners@.filter(scheduler::is_live(None))[i],
        ));
    }
}

} // verus!

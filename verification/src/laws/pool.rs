//! The pool: room, warm runners, bursts, decay and the watchdog.

use crate::config::{RepoConfig, RuntimeKind};
use crate::scheduler;
use crate::scheduler::{App, Degraded, Runner, RunnerInfo, RunnerState};
use vstd::prelude::*;

verus! {

/// Two tests that agree on every item pick the same items.
pub proof fn lemma_same_filter<A>(s: Seq<A>, p: spec_fn(A) -> bool, q: spec_fn(A) -> bool)
    requires
        forall|i: int| 0 <= i < s.len() ==> p(#[trigger] s[i]) == q(s[i]),
    ensures
        s.filter(p) == s.filter(q),
    decreases s.len(),
{
    reveal(Seq::filter);
    if s.len() > 0 {
        assert forall|i: int| 0 <= i < s.drop_last().len() implies p(#[trigger] s.drop_last()[i])
            == q(s.drop_last()[i]) by {
            assert(s.drop_last()[i] == s[i]);
        }
        lemma_same_filter(s.drop_last(), p, q);
        assert(p(s[s.len() - 1]) == q(s[s.len() - 1]));
    }
}

/// A test that one item passes picks one item at least.
proof fn lemma_some_filter<A>(s: Seq<A>, p: spec_fn(A) -> bool, i: int)
    requires
        0 <= i < s.len(),
        p(s[i]),
    ensures
        s.filter(p).len() > 0,
    decreases s.len(),
{
    reveal(Seq::filter);
    if i < s.len() - 1 {
        lemma_some_filter(s.drop_last(), p, i);
    }
}

/// A test that no item passes picks none.
pub proof fn lemma_no_filter<A>(s: Seq<A>, p: spec_fn(A) -> bool)
    requires
        forall|i: int| 0 <= i < s.len() ==> !p(#[trigger] s[i]),
    ensures
        s.filter(p).len() == 0,
    decreases s.len(),
{
    reveal(Seq::filter);
    if s.len() > 0 {
        assert forall|i: int| 0 <= i < s.drop_last().len() implies !p(
            #[trigger] s.drop_last()[i],
        ) by {
            assert(s.drop_last()[i] == s[i]);
        }
        lemma_no_filter(s.drop_last(), p);
        assert(!p(s[s.len() - 1]));
    }
}

/// A test that is no stricter picks no fewer items.
proof fn lemma_more_filter<A, B>(s: Seq<A>, p: spec_fn(A) -> bool, t: Seq<B>, q: spec_fn(B) -> bool)
    requires
        s.len() == t.len(),
        forall|i: int| 0 <= i < s.len() ==> p(#[trigger] s[i]) ==> q(t[i]),
    ensures
        s.filter(p).len() <= t.filter(q).len(),
    decreases s.len(),
{
    reveal(Seq::filter);
    if s.len() > 0 {
        assert forall|i: int| 0 <= i < s.drop_last().len() && p(
            #[trigger] s.drop_last()[i],
        ) implies q(t.drop_last()[i]) by {
            assert(s.drop_last()[i] == s[i]);
        }
        lemma_more_filter(s.drop_last(), p, t.drop_last(), q);
        assert(p(s[s.len() - 1]) ==> q(t[s.len() - 1]));
    }
}

// -- the watchdog ----------------------------------------------------------------

proof fn lemma_stuck(runners: Seq<Runner>, now: i64, n: int)
    requires
        0 <= n <= runners.len(),
    ensures
        forall|k: int|
            scheduler::stuck(runners, now, n).contains(k) <==> 0 <= k < n && scheduler::is_stuck(
                runners[k].info,
                now,
            ),
        forall|a: int, b: int|
            0 <= a < b < scheduler::stuck(runners, now, n).len() ==> scheduler::stuck(
                runners,
                now,
                n,
            )[a] < scheduler::stuck(runners, now, n)[b],
    decreases n,
{
    if n > 0 {
        lemma_stuck(runners, now, n - 1);
        let before = scheduler::stuck(runners, now, n - 1);
        let all = scheduler::stuck(runners, now, n);
        if scheduler::is_stuck(runners[n - 1].info, now) {
            assert(all == before.push(n - 1));
            assert forall|k: int| all.contains(k) <==> 0 <= k < n && scheduler::is_stuck(
                runners[k].info,
                now,
            ) by {
                if before.contains(k) {
                    let a = choose|a: int| 0 <= a < before.len() && before[a] == k;
                    assert(all[a] == k);
                }
                if k == n - 1 {
                    assert(all[all.len() - 1] == k);
                }
                if all.contains(k) && k != n - 1 {
                    let a = choose|a: int| 0 <= a < all.len() && all[a] == k;
                    assert(before[a] == k);
                }
            }
            assert forall|a: int, b: int| 0 <= a < b < all.len() implies all[a] < all[b] by {
                if b == all.len() - 1 {
                    assert(before.contains(before[a]));
                }
            }
        }
    }
}

/// The watchdog reports a runner exactly if it is busy and has been so for more
/// than the minutes that its own repo allows, and it reports each once, in order.
pub proof fn law_jobs_are_killed_after_their_own_timeout(app: App, now: i64, r: Vec<usize>)
    requires
        call_ensures(App::stuck_runners, (&app, now), r),
    ensures
        forall|k: usize|
            r@.contains(k) <==> k < app.runners@.len() && app.runners@[k as int].info.state
                == RunnerState::Busy && app.runners@[k as int].info.busy_at is Some && now
                - app.runners@[k as int].info.busy_at->0
                > app.runners@[k as int].info.repo_cfg.job_timeout_min * 60 * 1_000_000,
        forall|a: int, b: int| 0 <= a < b < r@.len() ==> r@[a] < r@[b],
{
    let n = app.runners@.len() as int;
    let at = r@.map_values(|i: usize| i as int);
    lemma_stuck(app.runners@, now, n);
    assert forall|k: usize|
        #![trigger r@.contains(k)]
        r@.contains(k) == (k < n && scheduler::is_stuck(app.runners@[k as int].info, now)) by {
        assert(at.contains(k as int) <==> 0 <= k < n && scheduler::is_stuck(
            app.runners@[k as int].info,
            now,
        ));
        if r@.contains(k) {
            let a = choose|a: int| 0 <= a < r@.len() && r@[a] == k;
            assert(at[a] == k as int);
        }
        if at.contains(k as int) {
            let a = choose|a: int| 0 <= a < at.len() && at[a] == k as int;
            assert(r@[a] == k);
        }
    }
    assert forall|a: int, b: int| 0 <= a < b < r@.len() implies r@[a] < r@[b] by {
        assert(at[a] < at[b]);
    }
}

/// A job that has run for no longer than its repo allows is never reported,
/// however short the timeouts of other repos are.
pub proof fn law_a_longer_timeout_never_kills_sooner(
    app: App,
    other: App,
    now: i64,
    r: Vec<usize>,
    s: Vec<usize>,
    k: usize,
)
    requires
        call_ensures(App::stuck_runners, (&app, now), r),
        call_ensures(App::stuck_runners, (&other, now), s),
        k < app.runners@.len(),
        k < other.runners@.len(),
        app.runners@[k as int].info.state == other.runners@[k as int].info.state,
        app.runners@[k as int].info.busy_at == other.runners@[k as int].info.busy_at,
        app.runners@[k as int].info.repo_cfg.job_timeout_min
            <= other.runners@[k as int].info.repo_cfg.job_timeout_min,
    ensures
        s@.contains(k) ==> r@.contains(k),
{
    law_jobs_are_killed_after_their_own_timeout(app, now, r);
    law_jobs_are_killed_after_their_own_timeout(other, now, s);
}

// -- room ------------------------------------------------------------------------

/// A runner takes up room while it starts, listens or runs a job, and no longer.
pub proof fn law_ended_runners_take_no_room(state: RunnerState, r: bool)
    requires
        call_ensures(RunnerState::live, (state,), r),
    ensures
        r <==> state != RunnerState::Exited && state != RunnerState::Failed,
{
}

/// How many runners are counted: those of the repo, or all, that have not ended.
pub proof fn law_live_runners_are_counted(app: App, repo: Option<&str>, r: usize)
    requires
        call_ensures(App::live_count, (&app, repo), r),
    ensures
        r == app.runners@.filter(
            |x: Runner|
                x.info.state != RunnerState::Exited && x.info.state != RunnerState::Failed && (
                repo is None || x.info.repo_cfg.repo@ == repo->0@),
        ).len(),
{
    lemma_same_filter(
        app.runners@,
        scheduler::is_live(crate::text::opt_str(repo)),
        |x: Runner|
            x.info.state != RunnerState::Exited && x.info.state != RunnerState::Failed && (repo
                is None || x.info.repo_cfg.repo@ == repo->0@),
    );
}

/// A reservation is granted exactly if fewer live runners are counted, of the
/// repo and of all, than its ceiling and the overall one.
pub proof fn law_reservations_are_granted_while_there_is_room(
    app: &mut App,
    name: String,
    info: RunnerInfo,
    own: usize,
    all: usize,
    repo: &str,
    r: bool,
)
    requires
        repo@ == info.repo_cfg.repo@,
        call_ensures(App::live_count, (&*old(app), Some(repo)), own),
        call_ensures(App::live_count, (&*old(app), None), all),
        call_ensures(App::reserve_runner, (app, name, info), r),
    ensures
        r <==> own < info.repo_cfg.max && all < old(app).config.max_total_runners,
        !r ==> *final(app) == *old(app),
        final(app).config == old(app).config,
        final(app).store == old(app).store,
        final(app).degraded == old(app).degraded,
        final(app).backoff == old(app).backoff,
        final(app).pending == old(app).pending,
        // The runner stands in the pool, and every other one as it was.
        r ==> final(app).runners@.contains(Runner { name, info }),
        forall|x: Runner|
            x.name@ != name@ ==> (#[trigger] final(app).runners@.contains(x)
                == old(app).runners@.contains(x)),
        old(app).runners@.len() <= final(app).runners@.len() <= old(app).runners@.len() + 1,
{
    let before = old(app).runners@;
    let after = final(app).runners@;
    let new = Runner { name, info };
    if r {
        scheduler::lemma_index_bounds(before, name@);
        let i = scheduler::runner_index(before, name@);
        assert(after == scheduler::with_runner(before, new));
        if i < before.len() {
            assert(after[i] == new);
            assert forall|x: Runner| x.name@ != name@ implies #[trigger] after.contains(x)
                == before.contains(x) by {
                if before.contains(x) {
                    let a = choose|a: int| 0 <= a < before.len() && before[a] == x;
                    assert(after[a] == x);
                }
                if after.contains(x) {
                    let a = choose|a: int| 0 <= a < after.len() && after[a] == x;
                    assert(before[a] == x);
                }
            }
        } else {
            assert(after[before.len() as int] == new);
            assert forall|x: Runner| x.name@ != name@ implies #[trigger] after.contains(x)
                == before.contains(x) by {
                if before.contains(x) {
                    let a = choose|a: int| 0 <= a < before.len() && before[a] == x;
                    assert(after[a] == x);
                }
                if after.contains(x) {
                    let a = choose|a: int| 0 <= a < after.len() && after[a] == x;
                    assert(before[a] == x);
                }
            }
        }
    }
}

// -- warm runners and bursts -------------------------------------------------------

/// A repo is topped up exactly while its runtime works, it has fewer live
/// runners than are reserved for it, and the overall ceiling is not reached.
pub proof fn law_pools_are_topped_up_to_the_reserved(
    app: App,
    rc: RepoConfig,
    own: usize,
    all: usize,
    repo: &str,
    r: bool,
)
    requires
        repo@ == rc.repo@,
        call_ensures(App::live_count, (&app, Some(repo)), own),
        call_ensures(App::live_count, (&app, None), all),
        call_ensures(App::wants_runner, (&app, &rc), r),
    ensures
        r <==> own < rc.reserved && all < app.config.max_total_runners && forall|i: int|
            0 <= i < app.degraded@.len() ==> (#[trigger] app.degraded@[i]).runtime != rc.runtime,
{
}

/// A repo whose ceiling lies above its floor and whose runtime works gets one
/// more runner exactly while it and the machine have room and fewer of its
/// runners listen than jobs are queued. Runners that start or are busy do not
/// count as listeners.
pub proof fn law_bursts_go_on_until_every_queued_job_has_a_listener(
    app: App,
    rc: RepoConfig,
    queued: u32,
    own: usize,
    all: usize,
    repo: &str,
    r: bool,
)
    requires
        repo@ == rc.repo@,
        call_ensures(App::live_count, (&app, Some(repo)), own),
        call_ensures(App::live_count, (&app, None), all),
        call_ensures(App::wants_burst, (&app, &rc, queued), r),
    ensures
        r <==> {
            &&& rc.reserved < rc.max
            &&& own < rc.max
            &&& all < app.config.max_total_runners
            &&& app.runners@.filter(
                |x: Runner|
                    x.info.state == RunnerState::Listening && x.info.repo_cfg.repo@ == rc.repo@,
            ).len() < queued
            &&& forall|i: int|
                0 <= i < app.degraded@.len() ==> (#[trigger] app.degraded@[i]).runtime != rc.runtime
        },
{
    lemma_same_filter(
        app.runners@,
        scheduler::is_idle(rc.repo@),
        |x: Runner| x.info.state == RunnerState::Listening && x.info.repo_cfg.repo@ == rc.repo@,
    );
}

/// While a job is queued, none of a repo's runners listens and there is room,
/// the pool grows, however many runners are busy.
pub proof fn law_busy_runners_take_no_queued_jobs(
    app: App,
    rc: RepoConfig,
    queued: u32,
    own: usize,
    all: usize,
    repo: &str,
    r: bool,
)
    requires
        repo@ == rc.repo@,
        call_ensures(App::live_count, (&app, Some(repo)), own),
        call_ensures(App::live_count, (&app, None), all),
        call_ensures(App::wants_burst, (&app, &rc, queued), r),
        rc.reserved < rc.max,
        own < rc.max,
        all < app.config.max_total_runners,
        queued > 0,
        forall|i: int|
            0 <= i < app.degraded@.len() ==> (#[trigger] app.degraded@[i]).runtime != rc.runtime,
        forall|i: int|
            0 <= i < app.runners@.len() && (#[trigger] app.runners@[i]).info.repo_cfg.repo@
                == rc.repo@ ==> app.runners@[i].info.state != RunnerState::Listening,
    ensures
        r,
{
    lemma_no_filter(app.runners@, scheduler::is_idle(rc.repo@));
}

/// A listener that takes a job never keeps the pool from growing: where one more
/// runner was wanted before, it is wanted still.
pub proof fn law_taking_a_job_never_ends_a_burst(
    before: App,
    after: App,
    rc: RepoConfig,
    queued: u32,
    i: int,
    r: bool,
    s: bool,
)
    requires
        0 <= i < before.runners@.len(),
        before.runners@[i].info.state == RunnerState::Listening,
        after.runners@ == before.runners@.update(
            i,
            Runner {
                info: RunnerInfo { state: RunnerState::Busy, ..before.runners@[i].info },
                ..before.runners@[i]
            },
        ),
        after.config == before.config,
        after.degraded == before.degraded,
        call_ensures(App::wants_burst, (&before, &rc, queued), r),
        call_ensures(App::wants_burst, (&after, &rc, queued), s),
    ensures
        r ==> s,
{
    lemma_more_filter(
        after.runners@,
        scheduler::is_idle(rc.repo@),
        before.runners@,
        scheduler::is_idle(rc.repo@),
    );
    lemma_more_filter(
        after.runners@,
        scheduler::is_live(Some(rc.repo@)),
        before.runners@,
        scheduler::is_live(Some(rc.repo@)),
    );
    lemma_more_filter(
        after.runners@,
        scheduler::is_live(None),
        before.runners@,
        scheduler::is_live(None),
    );
}

/// More queued jobs never make a pool want fewer runners.
pub proof fn law_more_queued_jobs_want_no_fewer_runners(
    app: App,
    rc: RepoConfig,
    few: u32,
    many: u32,
    r: bool,
    s: bool,
)
    requires
        few <= many,
        call_ensures(App::wants_burst, (&app, &rc, few), r),
        call_ensures(App::wants_burst, (&app, &rc, many), s),
    ensures
        r ==> s,
        few == 0 ==> !r,
{
}

// -- decay -----------------------------------------------------------------------

proof fn lemma_decaying(runners: Seq<Runner>, rc: RepoConfig, minutes: u64, now: i64, n: int)
    requires
        0 <= n <= runners.len(),
    ensures
        forall|k: int| #[trigger]
            scheduler::decaying(runners, rc, minutes, now, n).contains(k) <==> 0 <= k < n
                && scheduler::decays(runners, rc, minutes, now, k),
        scheduler::decaying(runners, rc, minutes, now, n).no_duplicates(),
    decreases n,
{
    if n > 0 {
        lemma_decaying(runners, rc, minutes, now, n - 1);
        let before = scheduler::decaying(runners, rc, minutes, now, n - 1);
        let all = scheduler::decaying(runners, rc, minutes, now, n);
        if scheduler::decays(runners, rc, minutes, now, n - 1) {
            assert(all == before.push(n - 1));
            assert forall|k: int| #[trigger] all.contains(k) <==> 0 <= k < n && scheduler::decays(
                runners,
                rc,
                minutes,
                now,
                k,
            ) by {
                if before.contains(k) {
                    let a = choose|a: int| 0 <= a < before.len() && before[a] == k;
                    assert(all[a] == k);
                }
                if k == n - 1 {
                    assert(all[all.len() - 1] == k);
                }
                if all.contains(k) && k != n - 1 {
                    let a = choose|a: int| 0 <= a < all.len() && all[a] == k;
                    assert(before[a] == k);
                }
            }
            assert(!before.contains(n - 1));
            assert(all.no_duplicates()) by {
                assert forall|a: int, b: int|
                    0 <= a < all.len() && 0 <= b < all.len() && a != b implies all[a] != all[b] by {
                    if a == all.len() - 1 {
                        assert(before.contains(before[b]));
                    } else if b == all.len() - 1 {
                        assert(before.contains(before[a]));
                    }
                }
            }
        }
    }
}

/// A runner that could decay and does not.
spec fn is_left(runners: Seq<Runner>, rc: RepoConfig, minutes: u64, now: i64, j: int) -> bool {
    scheduler::is_decayable(runners[j].info, rc.repo@, minutes, now) && !scheduler::decays(
        runners,
        rc,
        minutes,
        now,
        j,
    )
}

/// Of the first `n` runners, the oldest that could decay and does not.
spec fn is_oldest_left(
    runners: Seq<Runner>,
    rc: RepoConfig,
    minutes: u64,
    now: i64,
    n: int,
    i: int,
) -> bool {
    &&& 0 <= i < n
    &&& scheduler::is_decayable(runners[i].info, rc.repo@, minutes, now)
    &&& !scheduler::decays(runners, rc, minutes, now, i)
    &&& forall|j: int|
        0 <= j < n && #[trigger] scheduler::is_older(runners, i, j) && scheduler::is_decayable(
            runners[j].info,
            rc.repo@,
            minutes,
            now,
        ) ==> scheduler::decays(runners, rc, minutes, now, j)
}

proof fn lemma_oldest_left(
    runners: Seq<Runner>,
    rc: RepoConfig,
    minutes: u64,
    now: i64,
    n: int,
    k: int,
) -> (i: int)
    requires
        0 <= k < n <= runners.len(),
        scheduler::is_decayable(runners[k].info, rc.repo@, minutes, now),
        !scheduler::decays(runners, rc, minutes, now, k),
    ensures
        is_oldest_left(runners, rc, minutes, now, n, i),
    decreases n,
{
    if exists|j: int| 0 <= j < n - 1 && #[trigger] is_left(runners, rc, minutes, now, j) {
        let j = choose|j: int| 0 <= j < n - 1 && #[trigger] is_left(runners, rc, minutes, now, j);
        let i = lemma_oldest_left(runners, rc, minutes, now, n - 1, j);
        if is_left(runners, rc, minutes, now, n - 1) && scheduler::is_older(runners, i, n - 1) {
            assert forall|j: int|
                0 <= j < n && #[trigger] scheduler::is_older(runners, n - 1, j)
                    && scheduler::is_decayable(
                    runners[j].info,
                    rc.repo@,
                    minutes,
                    now,
                ) implies scheduler::decays(runners, rc, minutes, now, j) by {
                assert(scheduler::is_older(runners, i, j));
            }
            n - 1
        } else {
            i
        }
    } else {
        assert forall|j: int|
            0 <= j < n && #[trigger] scheduler::is_older(runners, k, j) && scheduler::is_decayable(
                runners[j].info,
                rc.repo@,
                minutes,
                now,
            ) implies scheduler::decays(runners, rc, minutes, now, j) by {
            assert(is_left(runners, rc, minutes, now, k));
            assert(!is_left(runners, rc, minutes, now, j) || j == n - 1);
        }
        k
    }
}

proof fn lemma_older_decay(
    runners: Seq<Runner>,
    rc: RepoConfig,
    minutes: u64,
    now: i64,
    i: int,
    n: int,
)
    requires
        0 <= n <= runners.len(),
        is_oldest_left(runners, rc, minutes, now, runners.len() as int, i),
    ensures
        scheduler::older_idle(runners, rc.repo@, minutes, now, i, n) <= scheduler::decaying(
            runners,
            rc,
            minutes,
            now,
            n,
        ).len(),
    decreases n,
{
    if n > 0 {
        lemma_older_decay(runners, rc, minutes, now, i, n - 1);
    }
}

/// Runners decay that listen, belong to the repo, are not marked yet and are
/// older than the minutes that idle runners stay; each is handed out once and
/// marked, and nothing else changes.
pub proof fn law_only_idle_runners_of_the_repo_decay(
    app: &mut App,
    rc: RepoConfig,
    now: i64,
    r: Vec<usize>,
    k: int,
)
    requires
        call_ensures(App::decay, (app, &rc, now), r),
        0 <= k < old(app).runners@.len(),
    ensures
        final(app).config == old(app).config,
        final(app).store == old(app).store,
        final(app).degraded == old(app).degraded,
        final(app).backoff == old(app).backoff,
        final(app).pending == old(app).pending,
        final(app).runners@.len() == old(app).runners@.len(),
        r@.contains(k as usize) ==> {
            let was = old(app).runners@[k].info;
            &&& was.state == RunnerState::Listening
            &&& was.repo_cfg.repo@ == rc.repo@
            &&& !was.decaying
            &&& now - was.created_at > old(app).config.idle_decay_min * 60 * 1_000_000
            &&& final(app).runners@[k] == (Runner {
                info: RunnerInfo { decaying: true, ..was },
                ..old(app).runners@[k]
            })
        },
        !r@.contains(k as usize) ==> final(app).runners@[k] == old(app).runners@[k],
        forall|a: int| 0 <= a < r@.len() ==> #[trigger] r@[a] < old(app).runners@.len(),
        r@.no_duplicates(),
{
    let before = old(app).runners@;
    assert(old(app).runners.len() == before.len());
    assert((k as usize) as int == k);
    assert(final(app).runners@[k] == scheduler::marked(
        before[k],
        scheduler::decays(before, rc, old(app).config.idle_decay_min, now, k),
    ));
    assert forall|a: int| 0 <= a < r@.len() implies #[trigger] r@[a] < before.len() by {
        assert(r@.contains(r@[a]));
    }
    assert(r@.no_duplicates()) by {
        assert forall|a: int, b: int| 0 <= a < r@.len() && 0 <= b < r@.len() && a != b implies r@[a]
            != r@[b] by {
            if a < b {
                assert(scheduler::is_older(before, r@[b] as int, r@[a] as int));
            } else {
                assert(scheduler::is_older(before, r@[a] as int, r@[b] as int));
            }
        }
    }
}

/// As many runners decay as the repo has more than are reserved for it, not
/// counting those that are marked already: never more, and fewer only where no
/// other idle runner is old enough. The oldest go.
pub proof fn law_spare_runners_decay_and_the_reserved_stay(
    app: &mut App,
    rc: RepoConfig,
    now: i64,
    r: Vec<usize>,
    k: int,
)
    requires
        call_ensures(App::decay, (app, &rc, now), r),
        0 <= k < old(app).runners@.len(),
    ensures
        r@.len() > 0 ==> r@.len() + rc.reserved <= old(app).runners@.filter(
            |x: Runner|
                x.info.state != RunnerState::Exited && x.info.state != RunnerState::Failed
                    && !x.info.decaying && x.info.repo_cfg.repo@ == rc.repo@,
        ).len(),
        // One that could decay and stays: the spare ones are used up, by older ones.
        old(app).runners@[k].info.state == RunnerState::Listening
            && !old(app).runners@[k].info.decaying && old(app).runners@[k].info.repo_cfg.repo@
            == rc.repo@ && now - old(app).runners@[k].info.created_at
            > old(app).config.idle_decay_min * 60 * 1_000_000 && !r@.contains(k as usize) ==> {
            &&& r@.len() + rc.reserved >= old(app).runners@.filter(
                |x: Runner|
                    x.info.state != RunnerState::Exited && x.info.state != RunnerState::Failed
                        && !x.info.decaying && x.info.repo_cfg.repo@ == rc.repo@,
            ).len()
            &&& forall|a: int|
                0 <= a < r@.len() ==> old(app).runners@[#[trigger] r@[a] as int].info.created_at
                    <= old(app).runners@[k].info.created_at
        },
{
    let before = old(app).runners@;
    let minutes = old(app).config.idle_decay_min;
    let n = before.len() as int;
    let steady = |x: Runner|
        x.info.state != RunnerState::Exited && x.info.state != RunnerState::Failed
            && !x.info.decaying && x.info.repo_cfg.repo@ == rc.repo@;
    assert(old(app).runners.len() == n);
    law_only_idle_runners_of_the_repo_decay(app, rc, now, r, k);
    lemma_same_filter(before, scheduler::is_steady(rc.repo@), steady);
    lemma_decaying(before, rc, minutes, now, n);
    scheduler::lemma_decaying_count(before, rc, minutes, now);
    let all = scheduler::decaying(before, rc, minutes, now, n);
    let at = r@.map_values(|i: usize| i as int);
    assert forall|x: int| #[trigger] at.contains(x) == all.contains(x) by {
        if at.contains(x) {
            let a = choose|a: int| 0 <= a < at.len() && at[a] == x;
            assert(r@.contains(r@[a]));
        }
        if all.contains(x) {
            assert(r@.contains(x as usize));
            let a = choose|a: int| 0 <= a < r@.len() && r@[a] == x as usize;
            assert(at[a] == x);
        }
    }
    assert(at.no_duplicates());
    at.unique_seq_to_set();
    all.unique_seq_to_set();
    assert(at.to_set() =~= all.to_set());
    assert(r@.len() == all.len());
    if scheduler::is_decayable(before[k].info, rc.repo@, minutes, now) && !r@.contains(k as usize) {
        assert(!scheduler::decays(before, rc, minutes, now, k));
        let i = lemma_oldest_left(before, rc, minutes, now, n, k);
        lemma_older_decay(before, rc, minutes, now, i, n);
        assert forall|a: int| 0 <= a < r@.len() implies before[#[trigger] r@[a] as int].info.created_at
            <= before[k].info.created_at by {
            let j = r@[a] as int;
            assert(r@.contains(r@[a]));
            assert(scheduler::decays(before, rc, minutes, now, j));
            if before[j].info.created_at > before[k].info.created_at {
                scheduler::law_the_oldest_idle_runners_decay_first(before, rc, minutes, now, j, k);
            }
        }
    }
}

// -- polling ---------------------------------------------------------------------

proof fn lemma_bursty(repos: Seq<RepoConfig>, n: int)
    requires
        0 <= n <= repos.len(),
    ensures
        forall|k: int| #[trigger]
            scheduler::bursty(repos, n).contains(k) <==> 0 <= k < n && repos[k].max
                > repos[k].reserved,
    decreases n,
{
    if n > 0 {
        lemma_bursty(repos, n - 1);
        let before = scheduler::bursty(repos, n - 1);
        let all = scheduler::bursty(repos, n);
        if repos[n - 1].max > repos[n - 1].reserved {
            assert forall|k: int| #[trigger] all.contains(k) <==> 0 <= k < n && repos[k].max
                > repos[k].reserved by {
                if before.contains(k) {
                    let a = choose|a: int| 0 <= a < before.len() && before[a] == k;
                    assert(all[a] == k);
                }
                if k == n - 1 {
                    assert(all[all.len() - 1] == k);
                }
                if all.contains(k) && k != n - 1 {
                    let a = choose|a: int| 0 <= a < all.len() && all[a] == k;
                    assert(before[a] == k);
                }
            }
        }
    }
}

/// Queued jobs are asked for of exactly those repos whose ceiling lies above
/// their floor.
pub proof fn law_repos_that_can_burst_are_polled(app: App, r: Vec<usize>)
    requires
        call_ensures(App::bursty_repos, (&app,), r),
    ensures
        forall|k: usize| #[trigger]
            r@.contains(k) <==> k < app.config.repos@.len() && app.config.repos@[k as int].reserved
                < app.config.repos@[k as int].max,
{
    let n = app.config.repos@.len() as int;
    let at = r@.map_values(|i: usize| i as int);
    lemma_bursty(app.config.repos@, n);
    assert forall|k: usize| #[trigger] r@.contains(k) <==> k < n && app.config.repos@[k as int].reserved
        < app.config.repos@[k as int].max by {
        if r@.contains(k) {
            let a = choose|a: int| 0 <= a < r@.len() && r@[a] == k;
            assert(at[a] == k as int);
            assert(at.contains(k as int));
        }
        if k < n && app.config.repos@[k as int].reserved < app.config.repos@[k as int].max {
            assert(at.contains(k as int));
            let a = choose|a: int| 0 <= a < at.len() && at[a] == k as int;
            assert(r@[a] == k);
        }
    }
}

} // verus!

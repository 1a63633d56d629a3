//! The warm pool: keeps `reserved` ephemeral runners listening per repo, lets
//! repos with `max > reserved` burst while jobs are queued, and lets idle
//! burst runners decay. Everything here decides; starting, watching and
//! removing containers is done by the caller, who hands back what came of it.

use crate::binary;
use crate::clock;
use crate::config;
use crate::config::Config;
use crate::config::RepoConfig;
use crate::config::RuntimeKind;
use crate::number;
use crate::order;
use crate::paths;
use crate::pattern;
use crate::runtime::ManagedContainer;
use crate::store;
use crate::store::JobInfo;
use crate::store::Store;
use crate::text;
use vstd::prelude::*;

verus! {

// -- runners ---------------------------------------------------------------------

/// How a runner stands.
#[derive(Debug, Clone, Copy, PartialEq, Eq, Structural)]
pub enum RunnerState {
    Starting,
    Listening,
    Busy,
    Exited,
    Failed,
}

impl RunnerState {
    pub open spec fn spec_name(self) -> Seq<char> {
        match self {
            RunnerState::Starting => "starting"@,
            RunnerState::Listening => "listening"@,
            RunnerState::Busy => "busy"@,
            RunnerState::Exited => "exited"@,
            RunnerState::Failed => "failed"@,
        }
    }

    pub fn name(self) -> (r: &'static str)
        ensures
            r@ == self.spec_name(),
    {
        match self {
            RunnerState::Starting => "starting",
            RunnerState::Listening => "listening",
            RunnerState::Busy => "busy",
            RunnerState::Exited => "exited",
            RunnerState::Failed => "failed",
        }
    }

    pub open spec fn spec_live(self) -> bool {
        self == RunnerState::Starting || self == RunnerState::Listening || self
            == RunnerState::Busy
    }

    /// Whether a runner in this state takes up room.
    pub fn live(self) -> (r: bool)
        ensures
            r == self.spec_live(),
    {
        match self {
            RunnerState::Starting | RunnerState::Listening | RunnerState::Busy => true,
            _ => false,
        }
    }
}

/// The job of a runner, as far as it is known.
#[derive(Debug)]
pub struct RunnerJob {
    pub info: JobInfo,
    pub conclusion: Option<String>,
}

/// How many lines of a runner's output are kept for replay.
pub const LOG_WINDOW: usize = 500;

/// One runner.
#[derive(Debug)]
pub struct RunnerInfo {
    pub repo_cfg: RepoConfig,
    pub state: RunnerState,
    pub container_id: String,
    pub gh_runner_id: Option<i64>,
    pub created_at: i64,
    pub busy_at: Option<i64>,
    pub ran_job: bool,
    /// Marked just before an idle burst runner is killed, so that its end
    /// counts as decay rather than as a crash.
    pub decaying: bool,
    pub job: RunnerJob,
    /// The latest lines of output, each with its number.
    pub log: Vec<(u64, String)>,
    /// The number of the latest line.
    pub last_line: u64,
    /// In percent of one core, in decimal notation.
    pub cpu: String,
    pub mem_bytes: u64,
    pub peak_mem_bytes: u64,
}

/// Where a subscriber stands in a runner's output.
#[derive(Debug)]
pub struct LogCursor {
    pub seen: u64,
}

/// `log` is the latest lines of a runner's output, with their numbers.
pub open spec fn is_window(log: Seq<(u64, String)>, output: Seq<Seq<char>>) -> bool {
    let first = output.len() - log.len();
    &&& log.len() == if output.len() < LOG_WINDOW {
        output.len() as int
    } else {
        LOG_WINDOW as int
    }
    &&& forall|i: int|
        0 <= i < log.len() ==> (#[trigger] log[i]).0 == first + i + 1 && log[i].1@ == output[first
            + i]
}

/// A line after another.
pub open spec fn is_after(seen: u64) -> spec_fn((u64, String)) -> bool {
    |e: (u64, String)| e.0 > seen
}

/// Lines are numbered one after the other up to the latest, and no more are
/// kept than there is room for.
pub open spec fn numbered(log: Seq<(u64, String)>, last: u64) -> bool {
    &&& log.len() <= LOG_WINDOW
    &&& log.len() <= last
    &&& forall|i: int| 0 <= i < log.len() ==> (#[trigger] log[i]).0 == last - log.len() + i + 1
}

fn copy_line(e: &(u64, String)) -> (r: (u64, String))
    ensures
        r == *e,
{
    (e.0, e.1.clone())
}

impl RunnerInfo {
    pub open spec fn well_formed(self) -> bool {
        numbered(self.log@, self.last_line)
    }

    /// A runner that has done nothing yet.
    pub open spec fn is_fresh(
        self,
        repo_cfg: RepoConfig,
        state: RunnerState,
        container_id: Seq<char>,
        now: i64,
    ) -> bool {
        &&& self.repo_cfg == repo_cfg
        &&& self.state == state
        &&& self.container_id@ == container_id
        &&& self.gh_runner_id is None
        &&& self.created_at == now
        &&& self.busy_at is None
        &&& !self.ran_job
        &&& !self.decaying
        &&& self.job == (RunnerJob { info: store::unknown_job(), conclusion: None })
        &&& self.log@.len() == 0
        &&& self.last_line == 0
        &&& self.cpu@ == "0"@
        &&& self.mem_bytes == 0
        &&& self.peak_mem_bytes == 0
    }

    pub fn new(repo_cfg: RepoConfig, state: RunnerState, container_id: String, now: i64) -> (r: Self)
        ensures
            r.is_fresh(repo_cfg, state, container_id@, now),
            r.well_formed(),
            is_window(r.log@, Seq::empty()),
    {
        RunnerInfo {
            repo_cfg,
            state,
            container_id,
            gh_runner_id: None,
            created_at: now,
            busy_at: None,
            ran_job: false,
            decaying: false,
            job: RunnerJob { info: JobInfo::default(), conclusion: None },
            log: Vec::new(),
            last_line: 0,
            cpu: "0".to_string(),
            mem_bytes: 0,
            peak_mem_bytes: 0,
        }
    }

    /// Takes up a line of output; the oldest line that there is no room for goes.
    pub fn push_log(&mut self, line: String)
        requires
            old(self).well_formed(),
            old(self).last_line < u64::MAX,
        ensures
            final(self).well_formed(),
            final(self).last_line == old(self).last_line + 1,
            final(self).log@ == pushed(old(self).log@, final(self).last_line, line),
            *final(self) == (RunnerInfo {
                log: final(self).log,
                last_line: final(self).last_line,
                ..*old(self)
            }),
            forall|output: Seq<Seq<char>>| #[trigger]
                is_window(old(self).log@, output) && old(self).last_line == output.len()
                    ==> is_window(final(self).log@, output.push(line@)),
    {
        let ghost before = self.log@;
        self.last_line = self.last_line + 1;
        if self.log.len() >= LOG_WINDOW {
            let _ = self.log.remove(0);
            assert(self.log@ =~= before.drop_first());
        }
        self.log.push((self.last_line, line));
        assert forall|output: Seq<Seq<char>>| #[trigger]
            is_window(before, output) && old(self).last_line == output.len() implies is_window(
            self.log@,
            output.push(line@),
        ) by {
            let now = output.push(line@);
            let first = now.len() - self.log@.len();
            assert forall|i: int| 0 <= i < self.log@.len() implies (#[trigger] self.log@[i]).0
                == first + i + 1 && self.log@[i].1@ == now[first + i] by {
                if i < self.log@.len() - 1 {
                    if before.len() >= LOG_WINDOW {
                        assert(self.log@[i] == before[i + 1]);
                    } else {
                        assert(self.log@[i] == before[i]);
                    }
                }
            }
        }
    }

    /// The kept lines after the line of number `after`, and where to go on
    /// from there.
    pub fn subscribe_logs(&self, after: u64) -> (r: (Vec<(u64, String)>, LogCursor))
        requires
            self.well_formed(),
        ensures
            r.0@ == self.log@.filter(is_after(after)),
            r.1.seen == self.last_line,
    {
        let mut replay: Vec<(u64, String)> = Vec::new();
        for i in 0..self.log.len()
            invariant
                replay@ == self.log@.take(i as int).filter(is_after(after)),
        {
            proof {
                order::lemma_filter_step(self.log@, is_after(after), i as int);
            }
            if self.log[i].0 > after {
                replay.push(copy_line(&self.log[i]));
            }
        }
        assert(self.log@.take(self.log@.len() as int) =~= self.log@);
        (replay, LogCursor { seen: self.last_line })
    }
}

/// A log with one more line.
pub open spec fn pushed(log: Seq<(u64, String)>, number: u64, line: String) -> Seq<(u64, String)> {
    if log.len() >= LOG_WINDOW {
        log.drop_first().push((number, line))
    } else {
        log.push((number, line))
    }
}

impl LogCursor {
    /// The next kept line that the subscriber has not seen.
    pub fn try_recv(&mut self, runner: &RunnerInfo) -> (r: Option<(u64, String)>)
        requires
            runner.well_formed(),
        ensures
            match r {
                Some(e) => {
                    let unseen = runner.log@.filter(is_after(old(self).seen));
                    &&& unseen.len() > 0
                    &&& e == unseen[0]
                    &&& final(self).seen == e.0
                },
                None => {
                    &&& runner.log@.filter(is_after(old(self).seen)).len() == 0
                    &&& final(self).seen == old(self).seen
                },
            },
    {
        let ghost p = is_after(self.seen);
        for i in 0..runner.log.len()
            invariant
                p == is_after(self.seen),
                *self == *old(self),
                runner.log@.take(i as int).filter(p).len() == 0,
        {
            proof {
                order::lemma_filter_step(runner.log@, p, i as int);
            }
            if runner.log[i].0 > self.seen {
                let e = copy_line(&runner.log[i]);
                proof {
                    lemma_filter_prefix(runner.log@, p, i + 1);
                    assert(runner.log@.take(i + 1).filter(p)[0] == e);
                }
                self.seen = e.0;
                return Some(e);
            }
        }
        assert(runner.log@.take(runner.log@.len() as int) =~= runner.log@);
        None
    }
}

proof fn lemma_filter_prefix<A>(s: Seq<A>, p: spec_fn(A) -> bool, n: int)
    requires
        0 <= n <= s.len(),
    ensures
        s.take(n).filter(p).len() <= s.filter(p).len(),
        forall|i: int|
            0 <= i < s.take(n).filter(p).len() ==> s.filter(p)[i] == #[trigger] s.take(n).filter(
                p,
            )[i],
    decreases s.len() - n,
{
    if n < s.len() {
        lemma_filter_prefix(s, p, n + 1);
        order::lemma_filter_step(s, p, n);
        assert forall|i: int| 0 <= i < s.take(n).filter(p).len() implies s.filter(p)[i]
            == #[trigger] s.take(n).filter(p)[i] by {
            assert(s.take(n + 1).filter(p)[i] == s.take(n).filter(p)[i]);
        }
    } else {
        assert(s.take(n) =~= s);
    }
}

/// The lines after a line, out of all that a runner has put out.
pub open spec fn output_after(output: Seq<Seq<char>>, seen: int) -> Seq<Seq<char>> {
    if seen >= output.len() {
        Seq::empty()
    } else {
        output.skip(seen)
    }
}

pub open spec fn line_texts(log: Seq<(u64, String)>) -> Seq<Seq<char>> {
    log.map_values(|e: (u64, String)| e.1@)
}

proof fn lemma_after_is_suffix(log: Seq<(u64, String)>, seen: u64, k: int)
    requires
        0 <= k <= log.len(),
        forall|i: int| 0 <= i < k ==> (#[trigger] log[i]).0 <= seen,
        forall|i: int| k <= i < log.len() ==> (#[trigger] log[i]).0 > seen,
    ensures
        log.filter(is_after(seen)) == log.skip(k),
    decreases log.len(),
{
    reveal(Seq::filter);
    let p = is_after(seen);
    if log.len() == 0 {
        assert(log.skip(k) =~= log.filter(p));
    } else if k == log.len() {
        lemma_after_is_suffix(log.drop_last(), seen, k - 1);
        assert(log[log.len() - 1].0 <= seen);
        assert(log.skip(k) =~= log.drop_last().skip(k - 1));
    } else {
        lemma_after_is_suffix(log.drop_last(), seen, k);
        assert(log[log.len() - 1].0 > seen);
        assert(log.skip(k) =~= log.drop_last().skip(k).push(log.last()));
    }
}

/// What a subscriber is given, replayed or live, is exactly the output after
/// what it has seen, as long as that much is kept.
pub proof fn law_replay_resumes_without_gaps(
    log: Seq<(u64, String)>,
    output: Seq<Seq<char>>,
    seen: u64,
)
    requires
        is_window(log, output),
        seen >= output.len() - LOG_WINDOW,
    ensures
        line_texts(log.filter(is_after(seen))) == output_after(output, seen as int),
        forall|i: int|
            0 <= i < log.filter(is_after(seen)).len() ==> (#[trigger] log.filter(
                is_after(seen),
            )[i]).0 == seen + i + 1,
{
    let first = output.len() - log.len();
    let k = if seen >= output.len() {
        log.len() as int
    } else if seen >= first {
        seen - first
    } else {
        0
    };
    lemma_after_is_suffix(log, seen, k);
    assert(line_texts(log.skip(k)) =~= output_after(output, seen as int));
}

/// Only the latest lines are kept, however long the output.
pub proof fn law_replay_keeps_the_recent_window(log: Seq<(u64, String)>, output: Seq<Seq<char>>)
    requires
        is_window(log, output),
    ensures
        log.len() <= LOG_WINDOW,
        log.len() > 0 ==> log.last().0 == output.len() && log.last().1@ == output.last(),
        output.len() >= LOG_WINDOW ==> log.len() == LOG_WINDOW && log[0].0 == output.len()
            - LOG_WINDOW + 1,
{
}

// -- the pool --------------------------------------------------------------------

/// A runner and its name.
#[derive(Debug)]
pub struct Runner {
    pub name: String,
    pub info: RunnerInfo,
}

/// What came of a job whose id was not known yet when its runner was reaped.
#[derive(Debug)]
pub struct Outcome {
    pub runner: String,
    pub conclusion: Option<String>,
    pub log_dir: Option<String>,
    pub kept_image: Option<String>,
    pub kept_image_runtime: Option<String>,
    pub peak_mem_mb: u64,
    pub oom: bool,
}

/// A runtime that does not work, and why.
#[derive(Debug)]
pub struct Degraded {
    pub runtime: RuntimeKind,
    pub reason: String,
}

/// How often in a row a repo's runners have failed.
#[derive(Debug)]
pub struct Backoff {
    pub repo: String,
    pub failures: u32,
}

/// The supervisor's state.
#[derive(Debug)]
pub struct App {
    pub config: Config,
    pub store: Store,
    pub runners: Vec<Runner>,
    pub degraded: Vec<Degraded>,
    pub backoff: Vec<Backoff>,
    pub pending: Vec<Outcome>,
    /// Whether the machine is kept awake.
    pub awake: bool,
}

/// No runner is named twice.
pub open spec fn distinct_runners(runners: Seq<Runner>) -> bool {
    forall|i: int, j: int|
        #![trigger runners[i], runners[j]]
        0 <= i < j < runners.len() ==> runners[i].name@ != runners[j].name@
}

/// The first runner of a name, or how many runners there are.
pub open spec fn runner_index(runners: Seq<Runner>, name: Seq<char>) -> int
    decreases runners.len(),
{
    if runners.len() == 0 || runners[0].name@ == name {
        0
    } else {
        1 + runner_index(runners.drop_first(), name)
    }
}

/// There is a runner of a name.
pub open spec fn has_runner(runners: Seq<Runner>, name: Seq<char>) -> bool {
    runner_index(runners, name) < runners.len()
}

pub(crate) proof fn lemma_runner_index(runners: Seq<Runner>, name: Seq<char>, k: int)
    requires
        0 <= k <= runners.len(),
        forall|i: int| 0 <= i < k ==> (#[trigger] runners[i]).name@ != name,
        k < runners.len() ==> runners[k].name@ == name,
    ensures
        runner_index(runners, name) == k,
    decreases runners.len(),
{
    if k > 0 {
        assert(runners[0].name@ != name);
        assert forall|i: int| 0 <= i < k - 1 implies (#[trigger] runners.drop_first()[i]).name@
            != name by {
            assert(runners.drop_first()[i] == runners[i + 1]);
        }
        lemma_runner_index(runners.drop_first(), name, k - 1);
    }
}

/// The live runners, of one repo or of all.
pub open spec fn is_live(repo: Option<Seq<char>>) -> spec_fn(Runner) -> bool {
    |r: Runner|
        r.info.state.spec_live() && (repo is Some ==> r.info.repo_cfg.repo@ == repo->0)
}

/// How many runners are live, of one repo or of all.
pub open spec fn live(runners: Seq<Runner>, repo: Option<Seq<char>>) -> nat {
    runners.filter(is_live(repo)).len()
}

/// A repo's live runners that are not about to be killed.
pub open spec fn is_steady(repo: Seq<char>) -> spec_fn(Runner) -> bool {
    |r: Runner| r.info.state.spec_live() && !r.info.decaying && r.info.repo_cfg.repo@ == repo
}

/// How many live runners a repo has that are not about to be killed.
pub open spec fn steady(runners: Seq<Runner>, repo: Seq<char>) -> nat {
    runners.filter(is_steady(repo)).len()
}

/// The runners with one in the place of its namesake, or as the last.
pub open spec fn with_runner(runners: Seq<Runner>, r: Runner) -> Seq<Runner> {
    let i = runner_index(runners, r.name@);
    if i < runners.len() {
        runners.update(i, r)
    } else {
        runners.push(r)
    }
}

/// A repo may have one more runner: neither its ceiling nor the overall one is
/// reached.
pub open spec fn has_capacity(app: App, rc: RepoConfig) -> bool {
    &&& live(app.runners@, Some(rc.repo@)) < rc.max
    &&& live(app.runners@, None) < app.config.max_total_runners
}

proof fn lemma_update_count(runners: Seq<Runner>, p: spec_fn(Runner) -> bool, i: int, r: Runner)
    requires
        0 <= i < runners.len(),
    ensures
        runners.update(i, r).filter(p).len() == runners.filter(p).len() + (if p(r) {
            1int
        } else {
            0
        }) - (if p(runners[i]) {
            1int
        } else {
            0
        }),
    decreases runners.len(),
{
    reveal(Seq::filter);
    let n = runners.len() - 1;
    if i == n {
        assert(runners.update(i, r).drop_last() =~= runners.drop_last());
    } else {
        lemma_update_count(runners.drop_last(), p, i, r);
        assert(runners.update(i, r).drop_last() =~= runners.drop_last().update(i, r));
    }
}

pub(crate) proof fn lemma_index_bounds(runners: Seq<Runner>, name: Seq<char>)
    ensures
        0 <= runner_index(runners, name) <= runners.len(),
        has_runner(runners, name) ==> runners[runner_index(runners, name)].name@ == name,
        forall|i: int| 0 <= i < runner_index(runners, name) ==> (#[trigger] runners[i]).name@ != name,
    decreases runners.len(),
{
    if runners.len() > 0 && runners[0].name@ != name {
        lemma_index_bounds(runners.drop_first(), name);
        assert forall|i: int| 0 <= i < runner_index(runners, name) implies (#[trigger] runners[
            i
        ]).name@ != name by {
            if i > 0 {
                assert(runners.drop_first()[i - 1] == runners[i]);
            }
        }
    }
}

/// One more runner raises no count by more than one.
pub proof fn law_a_runner_counts_once(runners: Seq<Runner>, r: Runner, repo: Option<Seq<char>>)
    ensures
        live(with_runner(runners, r), repo) <= live(runners, repo) + 1,
        !is_live(repo)(r) ==> live(with_runner(runners, r), repo) <= live(runners, repo),
        distinct_runners(runners) ==> distinct_runners(with_runner(runners, r)),
{
    reveal(Seq::filter);
    lemma_index_bounds(runners, r.name@);
    let i = runner_index(runners, r.name@);
    if i < runners.len() {
        lemma_update_count(runners, is_live(repo), i, r);
    } else {
        assert(runners.push(r).drop_last() =~= runners);
    }
}

/// No reservation takes a repo or the machine beyond its ceiling.
pub proof fn law_reservations_never_exceed_the_caps(app: App, r: Runner)
    requires
        has_capacity(app, r.info.repo_cfg),
    ensures
        live(with_runner(app.runners@, r), None) <= app.config.max_total_runners,
        live(with_runner(app.runners@, r), Some(r.info.repo_cfg.repo@)) <= r.info.repo_cfg.max,
{
    law_a_runner_counts_once(app.runners@, r, None);
    law_a_runner_counts_once(app.runners@, r, Some(r.info.repo_cfg.repo@));
}

/// A runtime is degraded.
pub open spec fn is_degraded(app: App, kind: RuntimeKind) -> bool {
    exists|i: int| 0 <= i < app.degraded@.len() && (#[trigger] app.degraded@[i]).runtime == kind
}

/// A repo's runners that listen.
pub open spec fn is_idle(repo: Seq<char>) -> spec_fn(Runner) -> bool {
    |r: Runner| r.info.state == RunnerState::Listening && r.info.repo_cfg.repo@ == repo
}

/// A repo wants a warm runner.
pub open spec fn wants_warm(app: App, rc: RepoConfig) -> bool {
    &&& !is_degraded(app, rc.runtime)
    &&& live(app.runners@, Some(rc.repo@)) < rc.reserved
    &&& live(app.runners@, None) < app.config.max_total_runners
}

/// A repo wants a burst runner while so many jobs are queued.
pub open spec fn wants_burst_for(app: App, rc: RepoConfig, queued: int) -> bool {
    &&& rc.max > rc.reserved
    &&& !is_degraded(app, rc.runtime)
    &&& app.runners@.filter(is_idle(rc.repo@)).len() < queued
    &&& has_capacity(app, rc)
}

/// The settings of a repo on a runtime.
pub open spec fn repo_on(repos: Seq<RepoConfig>, repo: Seq<char>, kind: RuntimeKind) -> Option<
    RepoConfig,
>
    decreases repos.len(),
{
    if repos.len() == 0 {
        None
    } else if repos[0].repo@ == repo && repos[0].runtime == kind {
        Some(repos[0])
    } else {
        repo_on(repos.drop_first(), repo, kind)
    }
}

impl App {
    /// No name occurs twice, and every runner's log is numbered.
    pub open spec fn well_formed(self) -> bool {
        &&& self.store.well_formed()
        &&& distinct_runners(self.runners@)
        &&& forall|i: int|
            0 <= i < self.runners@.len() ==> (#[trigger] self.runners@[i]).info.well_formed()
        &&& forall|i: int, j: int|
            #![trigger self.degraded@[i], self.degraded@[j]]
            0 <= i < j < self.degraded@.len() ==> self.degraded@[i].runtime
                != self.degraded@[j].runtime
        &&& forall|i: int, j: int|
            #![trigger self.backoff@[i], self.backoff@[j]]
            0 <= i < j < self.backoff@.len() ==> self.backoff@[i].repo@ != self.backoff@[j].repo@
        &&& forall|i: int, j: int|
            #![trigger self.pending@[i], self.pending@[j]]
            0 <= i < j < self.pending@.len() ==> self.pending@[i].runner@
                != self.pending@[j].runner@
    }

    /// A supervisor without runners.
    pub fn new(config: Config, store: Store) -> (r: Self)
        requires
            store.well_formed(),
        ensures
            r.well_formed(),
            r.config == config,
            r.store == store,
            r.runners@.len() == 0,
            r.degraded@.len() == 0,
            r.backoff@.len() == 0,
            r.pending@.len() == 0,
            !r.awake,
    {
        App {
            config,
            store,
            runners: Vec::new(),
            degraded: Vec::new(),
            backoff: Vec::new(),
            pending: Vec::new(),
            awake: false,
        }
    }

    /// Records that something happened.
    pub fn log(&mut self, level: &str, source: &str, msg: &str, now: i64)
        requires
            old(self).well_formed(),
        ensures
            final(self).well_formed(),
            *final(self) == (App { store: final(self).store, ..*old(self) }),
            store::event_recorded(
                final(self).store,
                old(self).store,
                level@,
                source@,
                msg@,
                now,
            ),
    {
        self.store.event(level, source, msg, now);
    }

    /// Where a runner stands, or how many runners there are.
    pub fn find(&self, name: &str) -> (r: usize)
        ensures
            r == runner_index(self.runners@, name@),
            r <= self.runners@.len(),
            r < self.runners@.len() ==> self.runners@[r as int].name@ == name@,
            forall|i: int| 0 <= i < r ==> (#[trigger] self.runners@[i]).name@ != name@,
    {
        let mut k: usize = 0;
        while k < self.runners.len() && !text::same_str(self.runners[k].name.as_str(), name)
            invariant
                k <= self.runners@.len(),
                forall|i: int| 0 <= i < k ==> (#[trigger] self.runners@[i]).name@ != name@,
            decreases self.runners@.len() - k,
        {
            k = k + 1;
        }
        proof {
            lemma_runner_index(self.runners@, name@, k as int);
        }
        k
    }

    /// How many runners are live, of one repo or of all.
    pub fn live_count(&self, repo: Option<&str>) -> (r: usize)
        ensures
            r == live(self.runners@, text::opt_str(repo)),
    {
        let ghost p = is_live(text::opt_str(repo));
        let mut n: usize = 0;
        for i in 0..self.runners.len()
            invariant
                p == is_live(text::opt_str(repo)),
                n <= i,
                n == self.runners@.take(i as int).filter(p).len(),
        {
            proof {
                order::lemma_filter_step(self.runners@, p, i as int);
            }
            let info = &self.runners[i].info;
            let counted = match repo {
                Some(repo) => text::same_str(info.repo_cfg.repo.as_str(), repo),
                None => true,
            };
            if info.state.live() && counted {
                n = n + 1;
            }
        }
        assert(self.runners@.take(self.runners@.len() as int) =~= self.runners@);
        n
    }

    /// Puts a runner into the pool, in the place of its namesake or as the last.
    fn put(&mut self, r: Runner)
        requires
            old(self).well_formed(),
            r.info.well_formed(),
        ensures
            final(self).well_formed(),
            *final(self) == (App { runners: final(self).runners, ..*old(self) }),
            final(self).runners@ == with_runner(old(self).runners@, r),
    {
        let ghost before = self.runners@;
        proof {
            law_a_runner_counts_once(before, r, None);
        }
        let i = self.find(r.name.as_str());
        if i < self.runners.len() {
            self.runners.set(i, r);
            assert(self.runners@ =~= before.update(i as int, r));
        } else {
            self.runners.push(r);
        }
        assert(self.runners@ == with_runner(before, r));
        assert(forall|k: int|
            0 <= k < self.runners@.len() ==> (#[trigger] self.runners@[k]) == r || (k
                < before.len() && self.runners@[k] == before[k]));
    }

    /// Reserves room for a runner, unless its repo's ceiling or the overall one
    /// is reached.
    pub fn reserve_runner(&mut self, name: String, info: RunnerInfo) -> (r: bool)
        requires
            old(self).well_formed(),
            info.well_formed(),
        ensures
            final(self).well_formed(),
            *final(self) == (App { runners: final(self).runners, ..*old(self) }),
            r == has_capacity(*old(self), info.repo_cfg),
            !r ==> final(self).runners == old(self).runners,
            r ==> final(self).runners@ == with_runner(old(self).runners@, Runner { name, info }),
            r ==> live(final(self).runners@, None) <= old(self).config.max_total_runners,
            r ==> live(final(self).runners@, Some(info.repo_cfg.repo@)) <= info.repo_cfg.max,
    {
        if self.live_count(Some(info.repo_cfg.repo.as_str())) >= info.repo_cfg.max as usize
            || self.live_count(None) >= self.config.max_total_runners as usize {
            return false;
        }
        let runner = Runner { name, info };
        proof {
            law_reservations_never_exceed_the_caps(*self, runner);
        }
        self.put(runner);
        true
    }

    fn degraded_runtime(&self, kind: RuntimeKind) -> (r: bool)
        ensures
            r == is_degraded(*self, kind),
    {
        for i in 0..self.degraded.len()
            invariant
                forall|k: int| 0 <= k < i ==> (#[trigger] self.degraded@[k]).runtime != kind,
        {
            if self.degraded[i].runtime == kind {
                return true;
            }
        }
        false
    }

    /// Whether a repo's pool is to be topped up by one more warm runner.
    pub fn wants_runner(&self, rc: &RepoConfig) -> (r: bool)
        ensures
            r == wants_warm(*self, *rc),
    {
        !self.degraded_runtime(rc.runtime) && self.live_count(Some(rc.repo.as_str()))
            < rc.reserved as usize && self.live_count(None) < self.config.max_total_runners as usize
    }

    /// Whether a repo with so many queued jobs is to have one more burst
    /// runner: not every queued job has an idle listener yet, and there is room.
    pub fn wants_burst(&self, rc: &RepoConfig, queued: u32) -> (r: bool)
        ensures
            r == wants_burst_for(*self, *rc, queued as int),
    {
        if rc.max <= rc.reserved || self.degraded_runtime(rc.runtime) {
            return false;
        }
        let ghost p = is_idle(rc.repo@);
        let mut idle: usize = 0;
        for i in 0..self.runners.len()
            invariant
                p == is_idle(rc.repo@),
                idle <= i,
                idle == self.runners@.take(i as int).filter(p).len(),
        {
            proof {
                order::lemma_filter_step(self.runners@, p, i as int);
            }
            let info = &self.runners[i].info;
            if info.state == RunnerState::Listening && text::same_str(
                info.repo_cfg.repo.as_str(),
                rc.repo.as_str(),
            ) {
                idle = idle + 1;
            }
        }
        assert(self.runners@.take(self.runners@.len() as int) =~= self.runners@);
        idle < queued as usize && self.live_count(Some(rc.repo.as_str())) < rc.max as usize
            && self.live_count(None) < self.config.max_total_runners as usize
    }
}

/// The positions of the repos that can burst.
pub open spec fn bursty(repos: Seq<RepoConfig>, n: int) -> Seq<int>
    decreases n,
{
    if n <= 0 {
        Seq::empty()
    } else if repos[n - 1].max > repos[n - 1].reserved {
        bursty(repos, n - 1).push(n - 1)
    } else {
        bursty(repos, n - 1)
    }
}

impl App {
    /// The positions of the repos whose queued jobs are polled for; without
    /// any there is no polling.
    pub fn bursty_repos(&self) -> (r: Vec<usize>)
        ensures
            r@.map_values(|i: usize| i as int) == bursty(
                self.config.repos@,
                self.config.repos@.len() as int,
            ),
    {
        let mut r: Vec<usize> = Vec::new();
        assert(r@.map_values(|i: usize| i as int) =~= Seq::empty());
        for i in 0..self.config.repos.len()
            invariant
                r@.map_values(|i: usize| i as int) == bursty(self.config.repos@, i as int),
        {
            if self.config.repos[i].max > self.config.repos[i].reserved {
                let ghost before = r@;
                r.push(i);
                assert(r@.map_values(|i: usize| i as int) =~= before.map_values(
                    |i: usize| i as int,
                ).push(i as int));
            }
        }
        r
    }
}

/// Where every repo's ceiling is its floor, nothing is polled.
pub proof fn law_fixed_pools_never_poll(repos: Seq<RepoConfig>, n: int)
    requires
        0 <= n <= repos.len(),
        forall|i: int| 0 <= i < repos.len() ==> (#[trigger] repos[i]).max == repos[i].reserved,
    ensures
        bursty(repos, n).len() == 0,
    decreases n,
{
    if n > 0 {
        law_fixed_pools_never_poll(repos, n - 1);
        assert(repos[n - 1].max == repos[n - 1].reserved);
    }
}

/// A pool that has its reserved runners wants none, and one that wants a warm
/// runner has room for it unless its ceiling is below its floor.
pub proof fn law_topping_up_stops_at_the_floor(app: App, rc: RepoConfig)
    requires
        rc.reserved <= rc.max,
    ensures
        live(app.runners@, Some(rc.repo@)) >= rc.reserved ==> !wants_warm(app, rc),
        wants_warm(app, rc) ==> has_capacity(app, rc),
{
}

proof fn lemma_remove_count(runners: Seq<Runner>, p: spec_fn(Runner) -> bool, i: int)
    requires
        0 <= i < runners.len(),
    ensures
        runners.remove(i).filter(p).len() == runners.filter(p).len() - (if p(runners[i]) {
            1int
        } else {
            0
        }),
    decreases runners.len(),
{
    reveal(Seq::filter);
    if i == runners.len() - 1 {
        assert(runners.remove(i) =~= runners.drop_last());
    } else {
        lemma_remove_count(runners.drop_last(), p, i);
        assert(runners.remove(i).drop_last() =~= runners.drop_last().remove(i));
        assert(runners.remove(i).last() == runners.last());
    }
}

/// A warm runner that is taken out of the pool is replaced: its repo, if it had
/// no more than its reserved runners, then wants one.
pub proof fn law_retired_runners_are_replaced(before: App, after: App, i: int, rc: RepoConfig)
    requires
        0 <= i < before.runners@.len(),
        is_live(Some(rc.repo@))(before.runners@[i]),
        live(before.runners@, Some(rc.repo@)) <= rc.reserved,
        live(before.runners@, None) <= before.config.max_total_runners,
        !is_degraded(before, rc.runtime),
        after.runners@ == before.runners@.remove(i),
        after.config == before.config,
        after.degraded == before.degraded,
    ensures
        wants_warm(after, rc),
{
    lemma_remove_count(before.runners@, is_live(Some(rc.repo@)), i);
    lemma_remove_count(before.runners@, is_live(None), i);
}

// -- recovery --------------------------------------------------------------------

/// What is known of a runtime's trouble.
pub open spec fn trouble(degraded: Seq<Degraded>, kind: RuntimeKind) -> Option<Seq<char>>
    decreases degraded.len(),
{
    if degraded.len() == 0 {
        None
    } else if degraded[0].runtime == kind {
        Some(degraded[0].reason@)
    } else {
        trouble(degraded.drop_first(), kind)
    }
}

pub(crate) proof fn lemma_trouble(degraded: Seq<Degraded>, kind: RuntimeKind, k: int)
    requires
        0 <= k <= degraded.len(),
        forall|i: int| 0 <= i < k ==> (#[trigger] degraded[i]).runtime != kind,
        k < degraded.len() ==> degraded[k].runtime == kind,
    ensures
        trouble(degraded, kind) == if k < degraded.len() {
            Some(degraded[k].reason@)
        } else {
            None
        },
    decreases degraded.len(),
{
    if k > 0 {
        assert(degraded[0].runtime != kind);
        assert forall|i: int| 0 <= i < k - 1 implies (#[trigger] degraded.drop_first()[i]).runtime
            != kind by {
            assert(degraded.drop_first()[i] == degraded[i + 1]);
        }
        lemma_trouble(degraded.drop_first(), kind, k - 1);
    }
}

pub(crate) proof fn lemma_trouble_at(degraded: Seq<Degraded>, kind: RuntimeKind) -> (k: int)
    ensures
        0 <= k <= degraded.len(),
        forall|i: int| 0 <= i < k ==> (#[trigger] degraded[i]).runtime != kind,
        k < degraded.len() ==> degraded[k].runtime == kind,
        trouble(degraded, kind) == if k < degraded.len() {
            Some(degraded[k].reason@)
        } else {
            None
        },
    decreases degraded.len(),
{
    if degraded.len() == 0 || degraded[0].runtime == kind {
        0
    } else {
        let k = lemma_trouble_at(degraded.drop_first(), kind);
        assert forall|i: int| 0 <= i < k + 1 implies (#[trigger] degraded[i]).runtime != kind by {
            if i > 0 {
                assert(degraded.drop_first()[i - 1] == degraded[i]);
            }
        }
        k + 1
    }
}

/// A registration of a runner at the jobs API.
#[derive(Debug)]
pub struct Registration {
    pub name: String,
    pub status: Option<String>,
    pub id: Option<i64>,
}

/// The names of a repo's runners begin so.
pub open spec fn name_prefix(rc: RepoConfig) -> Seq<char> {
    "hr-"@ + text::replace(rc.repo@, '/', '-') + "-"@
}

/// A registration is left over: of a repo's runner that is offline and not in
/// the pool.
pub open spec fn is_left_over(app: App, rc: RepoConfig, reg: Registration) -> bool {
    &&& name_prefix(rc).is_prefix_of(reg.name@)
    &&& text::opt_text(reg.status) == Some("offline"@)
    &&& !has_runner(app.runners@, reg.name@)
    &&& reg.id is Some
}

/// The positions of the first `n` registrations that are left over.
pub open spec fn left_over(app: App, rc: RepoConfig, regs: Seq<Registration>, n: int) -> Seq<int>
    decreases n,
{
    if n <= 0 {
        Seq::empty()
    } else if is_left_over(app, rc, regs[n - 1]) {
        left_over(app, rc, regs, n - 1).push(n - 1)
    } else {
        left_over(app, rc, regs, n - 1)
    }
}

impl App {
    /// Takes note of whether a runtime works.
    pub fn note_runtime(&mut self, kind: RuntimeKind, reason: Option<String>, now: i64)
        requires
            old(self).well_formed(),
        ensures
            final(self).well_formed(),
            *final(self) == (App {
                store: final(self).store,
                degraded: final(self).degraded,
                ..*old(self)
            }),
            trouble(final(self).degraded@, kind) == text::opt_text(reason),
            forall|other: RuntimeKind|
                other != kind ==> #[trigger] trouble(final(self).degraded@, other) == trouble(
                    old(self).degraded@,
                    other,
                ),
            match reason {
                Some(why) => store::event_recorded(
                    final(self).store,
                    old(self).store,
                    "warn"@,
                    "runtime"@,
                    kind.spec_name() + " degraded: "@ + why@,
                    now,
                ),
                None => final(self).store == old(self).store,
            },
    {
        let ghost before = self.degraded@;
        let mut k: usize = 0;
        while k < self.degraded.len() && self.degraded[k].runtime != kind
            invariant
                k <= self.degraded@.len(),
                forall|i: int| 0 <= i < k ==> (#[trigger] self.degraded@[i]).runtime != kind,
            decreases self.degraded@.len() - k,
        {
            k = k + 1;
        }
        match reason {
            Some(why) => {
                let m = text::chain(kind.name(), " degraded: ", why.as_str());
                self.log("warn", "runtime", m.as_str(), now);
                let entry = Degraded { runtime: kind, reason: why };
                if k < self.degraded.len() {
                    self.degraded.set(k, entry);
                    assert(self.degraded@ =~= before.update(k as int, entry));
                } else {
                    self.degraded.push(entry);
                }
                proof {
                    lemma_trouble(self.degraded@, kind, k as int);
                    assert forall|other: RuntimeKind| other != kind implies #[trigger] trouble(
                        self.degraded@,
                        other,
                    ) == trouble(before, other) by {
                        let j = lemma_trouble_at(before, other);
                        let j2 = if j < before.len() {
                            j
                        } else {
                            self.degraded@.len() as int
                        };
                        lemma_trouble(self.degraded@, other, j2);
                    }
                }
            },
            None => {
                if k < self.degraded.len() {
                    let _ = self.degraded.remove(k);
                    assert(self.degraded@ =~= before.remove(k as int));
                    proof {
                        assert forall|i: int| 0 <= i < self.degraded@.len() implies (
                        #[trigger] self.degraded@[i]).runtime != kind by {
                            if i >= k {
                                assert(before[k as int].runtime != before[i + 1].runtime);
                            }
                        }
                        lemma_trouble(self.degraded@, kind, self.degraded@.len() as int);
                        assert forall|other: RuntimeKind| other != kind implies #[trigger] trouble(
                            self.degraded@,
                            other,
                        ) == trouble(before, other) by {
                            let j = lemma_trouble_at(before, other);
                            let j2 = if j > k {
                                j - 1
                            } else {
                                j
                            };
                            assert forall|i: int| 0 <= i < j2 implies (#[trigger] self.degraded@[
                                i
                            ]).runtime != other by {
                                if i < k {
                                    assert(self.degraded@[i] == before[i]);
                                } else {
                                    assert(self.degraded@[i] == before[i + 1]);
                                }
                            }
                            lemma_trouble(self.degraded@, other, j2);
                        }
                    }
                } else {
                    proof {
                        lemma_trouble(self.degraded@, kind, k as int);
                    }
                }
            },
        }
    }

    fn repo_settings(&self, repo: &str, kind: RuntimeKind) -> (r: Option<RepoConfig>)
        ensures
            match r {
                Some(rc) => repo_on(self.config.repos@, repo@, kind) is Some && config::same_repo(
                    rc,
                    repo_on(self.config.repos@, repo@, kind)->0,
                ),
                None => repo_on(self.config.repos@, repo@, kind) is None,
            },
    {
        let ghost all = self.config.repos@;
        assert(all.skip(0) =~= all);
        for i in 0..self.config.repos.len()
            invariant
                all == self.config.repos@,
                repo_on(all, repo@, kind) == repo_on(all.skip(i as int), repo@, kind),
        {
            assert(all.skip(i as int).drop_first() =~= all.skip(i + 1));
            let rc = &self.config.repos[i];
            if text::same_str(rc.repo.as_str(), repo) && rc.runtime == kind {
                return Some(rc.clone());
            }
        }
        assert(all.skip(all.len() as int).len() == 0);
        None
    }

    /// Takes a managed container back after a restart: one that runs, and whose
    /// repo is served on this runtime, listens again; any other is to be
    /// removed. Says whether the container is kept.
    pub fn adopt(&mut self, kind: RuntimeKind, mc: &ManagedContainer, now: i64) -> (r: bool)
        requires
            old(self).well_formed(),
        ensures
            final(self).well_formed(),
            *final(self) == (App {
                store: final(self).store,
                runners: final(self).runners,
                ..*old(self)
            }),
            r == (mc.running && repo_on(old(self).config.repos@, mc.repo@, kind) is Some),
            !r ==> final(self).runners == old(self).runners && store::event_recorded(
                final(self).store,
                old(self).store,
                "info"@,
                "recover"@,
                "reaped stale container "@ + mc.runner_name@,
                now,
            ),
            r ==> {
                &&& store::event_recorded(
                    final(self).store,
                    old(self).store,
                    "info"@,
                    "recover"@,
                    "re-adopted running runner "@ + mc.runner_name@,
                    now,
                )
                &&& exists|x: Runner|
                    {
                        &&& final(self).runners@ == #[trigger] with_runner(old(self).runners@, x)
                        &&& x.name@ == mc.runner_name@
                        &&& config::same_repo(
                            x.info.repo_cfg,
                            repo_on(old(self).config.repos@, mc.repo@, kind)->0,
                        )
                        &&& x.info.is_fresh(
                            x.info.repo_cfg,
                            RunnerState::Listening,
                            mc.container_id@,
                            now,
                        )
                    }
            },
    {
        proof {
            reveal_strlit("");
        }
        if mc.running {
            if let Some(rc) = self.repo_settings(mc.repo.as_str(), kind) {
                let runner = Runner {
                    name: mc.runner_name.clone(),
                    info: RunnerInfo::new(
                        rc,
                        RunnerState::Listening,
                        mc.container_id.clone(),
                        now,
                    ),
                };
                let ghost before = self.runners@;
                let ghost g = runner;
                self.put(runner);
                let m = text::chain("re-adopted running runner ", mc.runner_name.as_str(), "");
                assert(m@ =~= "re-adopted running runner "@ + mc.runner_name@);
                self.log("info", "recover", m.as_str(), now);
                assert(self.runners@ == with_runner(before, g));
                return true;
            }
        }
        let m = text::chain("reaped stale container ", mc.runner_name.as_str(), "");
        assert(m@ =~= "reaped stale container "@ + mc.runner_name@);
        self.log("info", "recover", m.as_str(), now);
        false
    }

    /// The positions of the registrations of a repo's runners that are left
    /// over from runners that are gone.
    pub fn left_over_registrations(&self, rc: &RepoConfig, regs: &Vec<Registration>) -> (r: Vec<
        usize,
    >)
        ensures
            r@.map_values(|i: usize| i as int) == left_over(
                *self,
                *rc,
                regs@,
                regs@.len() as int,
            ),
    {
        let slug = rc.slug();
        let prefix = text::chain("hr-", slug.as_str(), "-");
        let mut r: Vec<usize> = Vec::new();
        assert(r@.map_values(|i: usize| i as int) =~= Seq::empty());
        for i in 0..regs.len()
            invariant
                prefix@ == name_prefix(*rc),
                r@.map_values(|i: usize| i as int) == left_over(*self, *rc, regs@, i as int),
        {
            let reg = &regs[i];
            let k = self.find(reg.name.as_str());
            if text::starts(&text::chars(reg.name.as_str()), prefix.as_str()) && text::holds(
                &reg.status,
                "offline",
            ) && k == self.runners.len() && reg.id.is_some() {
                let ghost before = r@;
                r.push(i);
                assert(r@.map_values(|i: usize| i as int) =~= before.map_values(
                    |i: usize| i as int,
                ).push(i as int));
            }
        }
        r
    }
}

// -- starting runners ------------------------------------------------------------

/// A hexadecimal digit.
pub open spec fn hex_digit(d: int) -> char {
    if d < 10 {
        (d + 48) as char
    } else {
        (d + 87) as char
    }
}

/// The last `n` hexadecimal digits of a number.
pub open spec fn hex(v: nat, n: nat) -> Seq<char>
    decreases n,
{
    if n == 0 {
        Seq::empty()
    } else {
        hex(v / 16, (n - 1) as nat).push(hex_digit((v % 16) as int))
    }
}

/// The name of a repo's runner, with a number that tells it from others.
pub open spec fn runner_label(rc: RepoConfig, n: u32) -> Seq<char> {
    name_prefix(rc) + hex(n as nat, 6)
}

/// `rand::random`: any number.
#[verifier::external_body]
fn random() -> (r: u32) {
    rand::random::<u32>()
}

fn push_hex(out: &mut String, v: u32, n: u32)
    ensures
        final(out)@ == old(out)@ + hex(v as nat, n as nat),
    decreases n,
{
    let ghost start = out@;
    if n > 0 {
        push_hex(out, v / 16, n - 1);
        let d = v % 16;
        if d < 10 {
            out.push((48u8 + d as u8) as char);
        } else {
            out.push((87u8 + d as u8) as char);
        }
    }
    assert(out@ =~= start + hex(v as nat, n as nat));
}

/// The name of a repo's runner, with a number that tells it from others.
pub fn runner_name(rc: &RepoConfig, n: u32) -> (r: String)
    ensures
        r@ == runner_label(*rc, n),
{
    let slug = rc.slug();
    let mut r = text::chain("hr-", slug.as_str(), "-");
    push_hex(&mut r, n, 6);
    r
}

/// Every name that a repo's runner is given begins as the repo's names do.
pub proof fn law_runner_names_carry_their_repo(rc: RepoConfig, n: u32)
    ensures
        name_prefix(rc).is_prefix_of(runner_label(rc, n)),
{
    assert(runner_label(rc, n).subrange(0, name_prefix(rc).len() as int) =~= name_prefix(rc));
}

/// How often in a row a repo's runners have failed.
pub open spec fn failures(backoff: Seq<Backoff>, repo: Seq<char>) -> u32
    decreases backoff.len(),
{
    if backoff.len() == 0 {
        0
    } else if backoff[0].repo@ == repo {
        backoff[0].failures
    } else {
        failures(backoff.drop_first(), repo)
    }
}

/// `new` is `old` with another count of failures for one repo.
pub open spec fn failures_set(new: Seq<Backoff>, old: Seq<Backoff>, repo: Seq<char>, n: int) -> bool {
    &&& failures(new, repo) == n
    &&& forall|other: Seq<char>|
        other != repo ==> #[trigger] failures(new, other) == failures(old, other)
}

pub(crate) proof fn lemma_failures(backoff: Seq<Backoff>, repo: Seq<char>, k: int)
    requires
        0 <= k <= backoff.len(),
        forall|i: int| 0 <= i < k ==> (#[trigger] backoff[i]).repo@ != repo,
        k < backoff.len() ==> backoff[k].repo@ == repo,
    ensures
        failures(backoff, repo) == if k < backoff.len() {
            backoff[k].failures
        } else {
            0
        },
    decreases backoff.len(),
{
    if k > 0 {
        assert(backoff[0].repo@ != repo);
        assert forall|i: int| 0 <= i < k - 1 implies (#[trigger] backoff.drop_first()[i]).repo@
            != repo by {
            assert(backoff.drop_first()[i] == backoff[i + 1]);
        }
        lemma_failures(backoff.drop_first(), repo, k - 1);
    }
}

pub(crate) proof fn lemma_failures_at(backoff: Seq<Backoff>, repo: Seq<char>) -> (k: int)
    ensures
        0 <= k <= backoff.len(),
        forall|i: int| 0 <= i < k ==> (#[trigger] backoff[i]).repo@ != repo,
        k < backoff.len() ==> backoff[k].repo@ == repo,
    decreases backoff.len(),
{
    if backoff.len() == 0 || backoff[0].repo@ == repo {
        0
    } else {
        let k = lemma_failures_at(backoff.drop_first(), repo);
        assert forall|i: int| 0 <= i < k + 1 implies (#[trigger] backoff[i]).repo@ != repo by {
            if i > 0 {
                assert(backoff.drop_first()[i - 1] == backoff[i]);
            }
        }
        k + 1
    }
}

/// One more than a count, as far as it goes.
pub open spec fn one_more(n: u32) -> int {
    if n < u32::MAX {
        n + 1
    } else {
        n as int
    }
}

/// `new` is `old` after it is known how a runner of the pool stands.
pub open spec fn standing_recorded(
    new: Store,
    old: Store,
    r: Runner,
    ended_at: Option<i64>,
    exit_code: Option<i64>,
) -> bool {
    store::runner_recorded(
        new,
        old,
        r.name@,
        r.info.repo_cfg.repo@,
        r.info.repo_cfg.runtime.spec_name(),
        r.info.container_id@,
        r.info.gh_runner_id,
        r.info.state.spec_name(),
        r.info.created_at,
        ended_at,
        exit_code,
    )
}

/// What starting a runner came to: its id at the jobs API and its container.
#[derive(Debug)]
pub struct Spawned {
    pub gh_runner_id: i64,
    pub container_id: String,
}

/// `x` is the runner `old` after it was started, or could not be.
pub open spec fn spawn_noted(x: Runner, old: Runner, outcome: Result<Spawned, String>) -> bool {
    match outcome {
        Ok(s) => x == (Runner {
            info: RunnerInfo {
                state: RunnerState::Listening,
                gh_runner_id: Some(s.gh_runner_id),
                container_id: s.container_id,
                ..old.info
            },
            ..old
        }),
        Err(_) => x == (Runner {
            info: RunnerInfo { state: RunnerState::Failed, ..old.info },
            ..old
        }),
    }
}

/// `new` is `old`, by way of `mid`, after it is recorded how the runner `r`
/// stands that was started, or could not be.
pub open spec fn spawn_recorded(
    new: Store,
    mid: Store,
    old: Store,
    r: Runner,
    outcome: Result<Spawned, String>,
    now: i64,
) -> bool {
    match outcome {
        Ok(_) => {
            &&& standing_recorded(mid, old, r, None, None)
            &&& store::event_recorded(new, mid, "info"@, "spawn"@, spawn_text(r, outcome), now)
        },
        Err(_) => {
            &&& standing_recorded(mid, old, r, Some(now), None)
            &&& store::event_recorded(new, mid, "error"@, "spawn"@, spawn_text(r, outcome), now)
        },
    }
}

/// What is said of a runner that was started, or could not be.
pub open spec fn spawn_text(r: Runner, outcome: Result<Spawned, String>) -> Seq<char> {
    match outcome {
        Ok(_) => r.name@ + " listening for "@ + r.info.repo_cfg.repo@,
        Err(e) => r.name@ + " failed: "@ + e@,
    }
}

impl App {
    /// Sets how often in a row a repo's runners have failed.
    fn set_failures(&mut self, repo: &str, n: u32)
        requires
            old(self).well_formed(),
        ensures
            final(self).well_formed(),
            *final(self) == (App { backoff: final(self).backoff, ..*old(self) }),
            failures_set(final(self).backoff@, old(self).backoff@, repo@, n as int),
    {
        let ghost before = self.backoff@;
        let mut k: usize = 0;
        while k < self.backoff.len() && !text::same_str(self.backoff[k].repo.as_str(), repo)
            invariant
                k <= self.backoff@.len(),
                forall|i: int| 0 <= i < k ==> (#[trigger] self.backoff@[i]).repo@ != repo@,
            decreases self.backoff@.len() - k,
        {
            k = k + 1;
        }
        let entry = Backoff { repo: repo.to_string(), failures: n };
        if k < self.backoff.len() {
            self.backoff.set(k, entry);
            assert(self.backoff@ =~= before.update(k as int, entry));
        } else {
            self.backoff.push(entry);
        }
        proof {
            lemma_failures(self.backoff@, repo@, k as int);
            assert forall|other: Seq<char>| other != repo@ implies #[trigger] failures(
                self.backoff@,
                other,
            ) == failures(before, other) by {
                let j = lemma_failures_at(before, other);
                lemma_failures(before, other, j);
                let j2 = if j < before.len() {
                    j
                } else {
                    self.backoff@.len() as int
                };
                lemma_failures(self.backoff@, other, j2);
            }
        }
    }

    fn failure_count(&self, repo: &str) -> (r: u32)
        ensures
            r == failures(self.backoff@, repo@),
    {
        let mut k: usize = 0;
        while k < self.backoff.len() && !text::same_str(self.backoff[k].repo.as_str(), repo)
            invariant
                k <= self.backoff@.len(),
                forall|i: int| 0 <= i < k ==> (#[trigger] self.backoff@[i]).repo@ != repo@,
            decreases self.backoff@.len() - k,
        {
            k = k + 1;
        }
        proof {
            lemma_failures(self.backoff@, repo@, k as int);
        }
        if k < self.backoff.len() {
            self.backoff[k].failures
        } else {
            0
        }
    }

    /// Records in the journal how a runner stands, if it is in the pool.
    pub fn record_runner(&mut self, name: &str, ended_at: Option<i64>, exit_code: Option<i64>)
        requires
            old(self).well_formed(),
        ensures
            final(self).well_formed(),
            *final(self) == (App { store: final(self).store, ..*old(self) }),
            if has_runner(old(self).runners@, name@) {
                standing_recorded(
                    final(self).store,
                    old(self).store,
                    old(self).runners@[runner_index(old(self).runners@, name@)],
                    ended_at,
                    exit_code,
                )
            } else {
                final(self).store == old(self).store
            },
    {
        let i = self.find(name);
        if i < self.runners.len() {
            let info = &self.runners[i].info;
            self.store.record_runner(
                name,
                info.repo_cfg.repo.as_str(),
                info.repo_cfg.runtime.name(),
                info.container_id.as_str(),
                info.gh_runner_id,
                info.state.name(),
                info.created_at,
                ended_at,
                exit_code,
            );
        }
    }

    /// Reserves room for a new runner of a repo, under the name that `n` gives.
    pub fn reserve_named(&mut self, rc: &RepoConfig, n: u32, now: i64) -> (r: Option<String>)
        requires
            old(self).well_formed(),
        ensures
            final(self).well_formed(),
            *final(self) == (App { runners: final(self).runners, ..*old(self) }),
            r is Some == has_capacity(*old(self), *rc),
            r is None ==> final(self).runners == old(self).runners,
            r matches Some(name) ==> {
                &&& name@ == runner_label(*rc, n)
                &&& starts_as(final(self).runners@, old(self).runners@, name@, *rc, now)
            },
    {
        let name = runner_name(rc, n);
        let info = RunnerInfo::new(rc.clone(), RunnerState::Starting, String::new(), now);
        let ghost before = self.runners@;
        let ghost g = Runner { name, info };
        let copy = name.clone();
        if self.reserve_runner(name, info) {
            assert(self.runners@ == with_runner(before, g));
            Some(copy)
        } else {
            None
        }
    }

    /// Reserves room for a new runner of a repo, under a name of its own.
    pub fn spawn_runner(&mut self, rc: &RepoConfig, now: i64) -> (r: Option<String>)
        requires
            old(self).well_formed(),
        ensures
            final(self).well_formed(),
            *final(self) == (App { runners: final(self).runners, ..*old(self) }),
            r is Some == has_capacity(*old(self), *rc),
            r is None ==> final(self).runners == old(self).runners,
            r matches Some(name) ==> {
                &&& exists|n: u32| n < 0x100_0000 && name@ == #[trigger] runner_label(*rc, n)
                &&& starts_as(final(self).runners@, old(self).runners@, name@, *rc, now)
            },
    {
        let n = random() % 0x100_0000;
        self.reserve_named(rc, n, now)
    }

    /// Takes note of what starting a runner came to.
    pub fn note_spawn(&mut self, name: &str, outcome: Result<Spawned, String>, now: i64)
        requires
            old(self).well_formed(),
            has_runner(old(self).runners@, name@),
        ensures
            final(self).well_formed(),
            *final(self) == (App {
                store: final(self).store,
                runners: final(self).runners,
                backoff: final(self).backoff,
                ..*old(self)
            }),
            ({
                let i = runner_index(old(self).runners@, name@);
                let was = old(self).runners@[i];
                let is = final(self).runners@[i];
                &&& final(self).runners@ == old(self).runners@.update(i, is)
                &&& spawn_noted(is, was, outcome)
                &&& match outcome {
                    Ok(_) => final(self).backoff == old(self).backoff,
                    Err(_) => failures_set(
                        final(self).backoff@,
                        old(self).backoff@,
                        was.info.repo_cfg.repo@,
                        one_more(failures(old(self).backoff@, was.info.repo_cfg.repo@)),
                    ),
                }
                &&& exists|mid: Store|
                    #[trigger] spawn_recorded(
                        final(self).store,
                        mid,
                        old(self).store,
                        is,
                        outcome,
                        now,
                    )
            }),
    {
        let ghost before = self.runners@;
        let ghost start = self.store;
        let i = self.find(name);
        let repo = self.runners[i].info.repo_cfg.repo.clone();
        match outcome {
            Ok(s) => {
                let r = &mut self.runners[i];
                r.info.state = RunnerState::Listening;
                r.info.gh_runner_id = Some(s.gh_runner_id);
                r.info.container_id = s.container_id;
                proof {
                    lemma_same_names(self.runners@, before, name@);
                }
                self.record_runner(name, None, None);
                let ghost mid = self.store;
                let m = text::chain(name, " listening for ", repo.as_str());
                self.log("info", "spawn", m.as_str(), now);
                assert(spawn_recorded(
                    self.store,
                    mid,
                    start,
                    self.runners@[i as int],
                    outcome,
                    now,
                ));
            },
            Err(e) => {
                let r = &mut self.runners[i];
                r.info.state = RunnerState::Failed;
                proof {
                    lemma_same_names(self.runners@, before, name@);
                }
                let n = self.failure_count(repo.as_str());
                self.set_failures(
                    repo.as_str(),
                    if n < u32::MAX {
                        n + 1
                    } else {
                        n
                    },
                );
                self.record_runner(name, Some(now), None);
                let ghost mid = self.store;
                let m = text::chain(name, " failed: ", e.as_str());
                self.log("error", "spawn", m.as_str(), now);
                assert(spawn_recorded(
                    self.store,
                    mid,
                    start,
                    self.runners@[i as int],
                    outcome,
                    now,
                ));
            },
        }
    }
}

/// `new` is `old` with a runner of a name that is about to start.
pub open spec fn starts_as(
    new: Seq<Runner>,
    old: Seq<Runner>,
    name: Seq<char>,
    rc: RepoConfig,
    now: i64,
) -> bool {
    exists|x: Runner|
        {
            &&& new == #[trigger] with_runner(old, x)
            &&& x.name@ == name
            &&& config::same_repo(x.info.repo_cfg, rc)
            &&& x.info.is_fresh(x.info.repo_cfg, RunnerState::Starting, Seq::empty(), now)
        }
}

proof fn lemma_same_names(new: Seq<Runner>, old: Seq<Runner>, name: Seq<char>)
    requires
        new.len() == old.len(),
        forall|i: int| 0 <= i < old.len() ==> (#[trigger] new[i]).name@ == old[i].name@,
    ensures
        runner_index(new, name) == runner_index(old, name),
    decreases old.len(),
{
    if old.len() > 0 {
        assert(new[0].name@ == old[0].name@);
        assert forall|i: int| 0 <= i < old.len() - 1 implies (#[trigger] new.drop_first()[i]).name@
            == old.drop_first()[i].name@ by {
            assert(new[i + 1].name@ == old[i + 1].name@);
        }
        lemma_same_names(new.drop_first(), old.drop_first(), name);
    }
}

// -- what a runner's output says --------------------------------------------------

/// What `str::to_lowercase` makes of a text.
pub uninterp spec fn lowercased(s: Seq<char>) -> Seq<char>;

/// `str::to_lowercase`: the result depends on the text alone.
#[verifier::external_body]
fn lowercase(s: &str) -> (r: String)
    ensures
        r@ == lowercased(s@),
{
    s.to_lowercase()
}

/// The line by which a runner says that it has taken a job.
pub open spec fn running_pattern() -> Seq<char> {
    "Running job: (?<job>.+)$"@
}

/// The line by which a runner says what its job came to.
pub open spec fn completed_pattern() -> Seq<char> {
    "completed with result: (?<result>\\w+)"@
}

/// A job's conclusion, from the result that a runner reports.
pub open spec fn conclusion_of(result: Seq<char>) -> Seq<char> {
    if result == "Succeeded"@ {
        "success"@
    } else if result == "Failed"@ {
        "failure"@
    } else if result == "Canceled"@ {
        "cancelled"@
    } else {
        lowercased(result)
    }
}

/// A job's conclusion, from the result that a runner reports.
pub fn conclusion_text(result: &str) -> (r: String)
    ensures
        r@ == conclusion_of(result@),
{
    if text::same_str(result, "Succeeded") {
        "success".to_string()
    } else if text::same_str(result, "Failed") {
        "failure".to_string()
    } else if text::same_str(result, "Canceled") {
        "cancelled".to_string()
    } else {
        lowercase(result)
    }
}

/// A job's conclusion, from the result that a runner reports, if it does.
pub open spec fn concluded_by(result: Option<Seq<char>>) -> Option<Seq<char>> {
    match result {
        Some(r) => Some(conclusion_of(r)),
        None => None,
    }
}

/// A line makes a runner busy: it names a job, and the runner has none.
pub open spec fn turns_busy(info: RunnerInfo, running: Option<Seq<char>>) -> bool {
    running is Some && info.state != RunnerState::Busy
}

/// A line concludes a runner's job: it names no job but a conclusion, the first one.
pub open spec fn concludes(
    info: RunnerInfo,
    running: Option<Seq<char>>,
    conclusion: Option<Seq<char>>,
) -> bool {
    running is None && conclusion is Some && info.job.conclusion is None
}

/// `new` is the runner `old` after a line of output that says which job runs,
/// what a job came to, or neither.
pub open spec fn line_taken(
    new: RunnerInfo,
    old: RunnerInfo,
    line: Seq<char>,
    running: Option<Seq<char>>,
    conclusion: Option<Seq<char>>,
    now: i64,
) -> bool {
    &&& old.last_line < u64::MAX
    &&& new.last_line == old.last_line + 1
    &&& new.log@.len() > 0
    &&& new.log@ == pushed(old.log@, new.last_line, new.log@.last().1)
    &&& new.log@.last().1@ == line
    &&& if turns_busy(old, running) {
        &&& new == (RunnerInfo {
            log: new.log,
            last_line: new.last_line,
            state: RunnerState::Busy,
            busy_at: Some(now),
            ran_job: true,
            job: new.job,
            ..old
        })
        &&& new.job.info == (JobInfo { job_name: new.job.info.job_name, ..store::unknown_job() })
        &&& text::opt_text(new.job.info.job_name) == running
        &&& new.job.conclusion is None
    } else if concludes(old, running, conclusion) {
        &&& new == (RunnerInfo {
            log: new.log,
            last_line: new.last_line,
            job: new.job,
            ..old
        })
        &&& new.job == (RunnerJob { conclusion: new.job.conclusion, ..old.job })
        &&& text::opt_text(new.job.conclusion) == conclusion
    } else {
        new == (RunnerInfo { log: new.log, last_line: new.last_line, ..old })
    }
}

/// What the journal takes up of a line of output.
pub open spec fn line_recorded(
    new: Store,
    mid: Store,
    old: Store,
    name: Seq<char>,
    info: RunnerInfo,
    running: Option<Seq<char>>,
    conclusion: Option<Seq<char>>,
    now: i64,
) -> bool {
    if turns_busy(info, running) {
        &&& store::event_recorded(
            new,
            mid,
            "info"@,
            "job"@,
            name + " running: "@ + running->0,
            now,
        )
        &&& mid == old
    } else if concludes(info, running, conclusion) {
        &&& store::event_recorded(
            mid,
            old,
            "info"@,
            "job"@,
            name + " job result: "@ + conclusion->0,
            now,
        )
        &&& match info.job.info.job_id {
            Some(id) => store::conclusion_recorded(new, mid, id, conclusion->0, now),
            None => new == mid,
        }
    } else {
        new == old && mid == old
    }
}

/// What a line of output means for those who watch.
#[derive(Debug, Clone, Copy, PartialEq, Eq, Structural)]
pub enum LineEffect {
    /// The runner is no longer in the pool.
    Gone,
    /// The runner has taken a job.
    BecameBusy,
    Nothing,
}

/// What taking up a line does to the pool.
pub open spec fn line_handled(
    new: App,
    old: App,
    r: LineEffect,
    name: Seq<char>,
    line: Seq<char>,
    running: Option<Seq<char>>,
    conclusion: Option<Seq<char>>,
    now: i64,
) -> bool {
    let i = runner_index(old.runners@, name);
    if i >= old.runners@.len() {
        new == old && r == LineEffect::Gone
    } else {
        let was = old.runners@[i];
        let is = new.runners@[i];
        &&& new == App { store: new.store, runners: new.runners, ..old }
        &&& new.runners@ == old.runners@.update(i, is)
        &&& is == Runner { info: is.info, ..was }
        &&& line_taken(is.info, was.info, line, running, conclusion, now)
        &&& exists|mid: Store|
            #[trigger] line_recorded(
                new.store,
                mid,
                old.store,
                name,
                was.info,
                running,
                conclusion,
                now,
            )
        &&& r == if turns_busy(was.info, running) {
            LineEffect::BecameBusy
        } else {
            LineEffect::Nothing
        }
    }
}

/// There is a number left for the next line of a runner.
pub open spec fn line_fits(runners: Seq<Runner>, name: Seq<char>) -> bool {
    has_runner(runners, name) ==> runners[runner_index(runners, name)].info.last_line < u64::MAX
}

impl App {
    /// Takes up a line of a runner's output that says which job runs, what a
    /// job came to, or neither.
    pub fn take_line(
        &mut self,
        name: &str,
        line: &str,
        running: Option<&str>,
        conclusion: Option<&str>,
        now: i64,
    ) -> (r: LineEffect)
        requires
            old(self).well_formed(),
            line_fits(old(self).runners@, name@),
        ensures
            final(self).well_formed(),
            line_handled(
                *final(self),
                *old(self),
                r,
                name@,
                line@,
                text::opt_str(running),
                text::opt_str(conclusion),
                now,
            ),
    {
        let ghost before = self.runners@;
        let ghost start = self.store;
        let i = self.find(name);
        if i >= self.runners.len() {
            return LineEffect::Gone;
        }
        let ghost was = before[i as int].info;
        let r = &mut self.runners[i];
        r.info.push_log(line.to_string());
        if let Some(job) = running {
            if self.runners[i].info.state != RunnerState::Busy {
                let r = &mut self.runners[i];
                r.info.state = RunnerState::Busy;
                r.info.busy_at = Some(now);
                r.info.ran_job = true;
                let mut info = JobInfo::default();
                info.job_name = Some(job.to_string());
                r.info.job = RunnerJob { info, conclusion: None };
                let m = text::chain(name, " running: ", job);
                self.log("info", "job", m.as_str(), now);
                assert(line_recorded(
                    self.store,
                    start,
                    start,
                    name@,
                    was,
                    text::opt_str(running),
                    text::opt_str(conclusion),
                    now,
                ));
                assert(self.runners@ =~= before.update(i as int, self.runners@[i as int]));
                assert(line_taken(
                    self.runners@[i as int].info,
                    was,
                    line@,
                    text::opt_str(running),
                    text::opt_str(conclusion),
                    now,
                ));
                return LineEffect::BecameBusy;
            }
        } else if let Some(c) = conclusion {
            if self.runners[i].info.job.conclusion.is_none() {
                let job_id = self.runners[i].info.job.info.job_id;
                let r = &mut self.runners[i];
                r.info.job.conclusion = Some(c.to_string());
                let m = text::chain(name, " job result: ", c);
                self.log("info", "job", m.as_str(), now);
                let ghost mid = self.store;
                if let Some(id) = job_id {
                    self.store.job_concluded(id, c, now);
                }
                assert(line_recorded(
                    self.store,
                    mid,
                    start,
                    name@,
                    was,
                    text::opt_str(running),
                    text::opt_str(conclusion),
                    now,
                ));
                assert(self.runners@ =~= before.update(i as int, self.runners@[i as int]));
                assert(line_taken(
                    self.runners@[i as int].info,
                    was,
                    line@,
                    text::opt_str(running),
                    text::opt_str(conclusion),
                    now,
                ));
                return LineEffect::Nothing;
            }
        }
        assert(line_recorded(
            self.store,
            start,
            start,
            name@,
            was,
            text::opt_str(running),
            text::opt_str(conclusion),
            now,
        ));
        LineEffect::Nothing
    }

    /// Takes up a line of a runner's output.
    pub fn watch_line(&mut self, name: &str, line: &str, now: i64) -> (r: LineEffect)
        requires
            old(self).well_formed(),
            line_fits(old(self).runners@, name@),
        ensures
            final(self).well_formed(),
            line_handled(
                *final(self),
                *old(self),
                r,
                name@,
                line@,
                pattern::regex_group(running_pattern(), "job"@, line@),
                concluded_by(pattern::regex_group(completed_pattern(), "result"@, line@)),
                now,
            ),
    {
        let running = pattern::capture("Running job: (?<job>.+)$", "job", line);
        let completed = pattern::capture(
            "completed with result: (?<result>\\w+)",
            "result",
            line,
        );
        let running_str = match &running {
            Some(s) => Some(s.as_str()),
            None => None,
        };
        let conclusion = match &completed {
            Some(result) => Some(conclusion_text(result.as_str())),
            None => None,
        };
        let conclusion_str = match &conclusion {
            Some(s) => Some(s.as_str()),
            None => None,
        };
        self.take_line(name, line, running_str, conclusion_str, now)
    }
}

// -- job enrichment ----------------------------------------------------------------

/// What the jobs API says when it is asked for a runner's job.
#[derive(Debug, Clone, Copy, PartialEq, Eq, Structural)]
pub enum Lookup {
    Failed,
    NotYet,
    Found,
}

/// What to do next when a runner's job is looked for.
#[derive(Debug, Clone, Copy, PartialEq, Eq, Structural)]
pub enum NextLookup {
    Stop,
    AskAgain,
    Apply,
}

/// How often a runner's job is looked for at most.
pub const LOOKUPS: u32 = 8;

/// What to do after so many lookups, of which the last came to `found`: the
/// jobs API may be behind, so ask again, but not for ever.
pub fn after_lookup(lookups: u32, found: Lookup) -> (r: NextLookup)
    ensures
        r == match found {
            Lookup::Failed => NextLookup::Stop,
            Lookup::Found => NextLookup::Apply,
            Lookup::NotYet => if lookups < LOOKUPS {
                NextLookup::AskAgain
            } else {
                NextLookup::Stop
            },
        },
{
    match found {
        Lookup::Failed => NextLookup::Stop,
        Lookup::Found => NextLookup::Apply,
        Lookup::NotYet => if lookups < LOOKUPS {
            NextLookup::AskAgain
        } else {
            NextLookup::Stop
        },
    }
}

/// What is known of a runner's job once the jobs API has named it.
pub open spec fn enriched(job: RunnerJob, found: JobInfo) -> RunnerJob {
    RunnerJob {
        info: JobInfo {
            job_name: if job.info.job_name is Some {
                job.info.job_name
            } else {
                found.job_name
            },
            ..found
        },
        ..job
    }
}

/// The outcome that waits for a runner's job to be named, if there is one.
pub open spec fn outcome_of(pending: Seq<Outcome>, runner: Seq<char>) -> Option<Outcome>
    decreases pending.len(),
{
    if pending.len() == 0 {
        None
    } else if pending[0].runner@ == runner {
        Some(pending[0])
    } else {
        outcome_of(pending.drop_first(), runner)
    }
}

/// The outcomes of other runners.
pub open spec fn outcome_of_another(runner: Seq<char>) -> spec_fn(Outcome) -> bool {
    |o: Outcome| o.runner@ != runner
}

/// `new` is `old` after a conclusion that may be known.
pub open spec fn maybe_concluded(
    new: Store,
    old: Store,
    id: i64,
    conclusion: Option<Seq<char>>,
    now: i64,
) -> bool {
    match conclusion {
        Some(c) => store::conclusion_recorded(new, old, id, c, now),
        None => new == old,
    }
}

/// `new` is `old` after it is known what a job took, if it took anything.
pub open spec fn maybe_resources(new: Store, old: Store, id: i64, peak_mb: u64, oom: bool) -> bool {
    if peak_mb > 0 || oom {
        store::resources_recorded(new, old, id, peak_mb, oom, None, None)
    } else {
        new == old
    }
}

/// `new` is `old`, by way of `a`, `b` and `c`, after a job is named and the
/// outcome that waited for its name is recorded.
pub open spec fn enrichment_recorded(
    new: Store,
    a: Store,
    b: Store,
    c: Store,
    old: Store,
    name: Seq<char>,
    repo: Seq<char>,
    busy_at: Option<i64>,
    found: JobInfo,
    waiting: Option<Outcome>,
    now: i64,
) -> bool {
    &&& store::start_recorded(a, old, found, repo, name, busy_at)
    &&& match (found.job_id, waiting) {
        (Some(id), Some(o)) => {
            &&& maybe_concluded(b, a, id, text::opt_text(o.conclusion), now)
            &&& store::artifacts_recorded(
                c,
                b,
                id,
                text::opt_text(o.log_dir),
                text::opt_text(o.kept_image),
                text::opt_text(o.kept_image_runtime),
            )
            &&& maybe_resources(new, c, id, o.peak_mem_mb, o.oom)
        },
        _ => b == a && c == a && new == a,
    }
}

fn as_str_opt<'a>(o: &'a Option<String>) -> (r: Option<&'a str>)
    ensures
        text::opt_str(r) == text::opt_text(*o),
{
    match o {
        Some(s) => Some(s.as_str()),
        None => None,
    }
}

impl App {
    /// Takes the outcome that waits for a runner's job to be named.
    fn take_outcome(&mut self, runner: &str) -> (r: Option<Outcome>)
        requires
            old(self).well_formed(),
        ensures
            final(self).well_formed(),
            *final(self) == (App { pending: final(self).pending, ..*old(self) }),
            r == outcome_of(old(self).pending@, runner@),
            final(self).pending@ == old(self).pending@.filter(outcome_of_another(runner@)),
    {
        let ghost before = self.pending@;
        let ghost p = outcome_of_another(runner@);
        assert(before.skip(0) =~= before);
        let mut k: usize = 0;
        while k < self.pending.len() && !text::same_str(self.pending[k].runner.as_str(), runner)
            invariant
                before == self.pending@,
                k <= before.len(),
                outcome_of(before, runner@) == outcome_of(before.skip(k as int), runner@),
                forall|i: int| 0 <= i < k ==> (#[trigger] before[i]).runner@ != runner@,
            decreases before.len() - k,
        {
            assert(before.skip(k as int).drop_first() =~= before.skip(k + 1));
            k = k + 1;
        }
        if k < self.pending.len() {
            let o = self.pending.remove(k);
            proof {
                lemma_filter_out(before, runner@, k as int);
            }
            Some(o)
        } else {
            proof {
                lemma_filter_out(before, runner@, k as int);
                assert(before.skip(k as int).len() == 0);
            }
            None
        }
    }

    /// Takes up what the jobs API says of a runner's job: the runner, if it is
    /// still there, and the journal learn of it, and the outcome that waited
    /// for the job to be named is recorded.
    pub fn enrich_job(
        &mut self,
        name: &str,
        repo: &str,
        busy_at: Option<i64>,
        found: &JobInfo,
        now: i64,
    )
        requires
            old(self).well_formed(),
        ensures
            final(self).well_formed(),
            *final(self) == (App {
                store: final(self).store,
                runners: final(self).runners,
                pending: final(self).pending,
                ..*old(self)
            }),
            ({
                let i = runner_index(old(self).runners@, name@);
                if i < old(self).runners@.len() {
                    let was = old(self).runners@[i];
                    final(self).runners@ == old(self).runners@.update(
                        i,
                        Runner {
                            info: RunnerInfo { job: enriched(was.info.job, *found), ..was.info },
                            ..was
                        },
                    )
                } else {
                    final(self).runners == old(self).runners
                }
            }),
            final(self).pending@ == old(self).pending@.filter(outcome_of_another(name@)),
            exists|a: Store, b: Store, c: Store|
                #[trigger] enrichment_recorded(
                    final(self).store,
                    a,
                    b,
                    c,
                    old(self).store,
                    name@,
                    repo@,
                    busy_at,
                    *found,
                    outcome_of(old(self).pending@, name@),
                    now,
                ),
    {
        let ghost start = self.store;
        let ghost before = self.runners@;
        let i = self.find(name);
        if i < self.runners.len() {
            let mut info = found.clone();
            let known = text::clone_opt(&self.runners[i].info.job.info.job_name);
            if known.is_some() {
                info.job_name = known;
            }
            let r = &mut self.runners[i];
            r.info.job.info = info;
            assert(self.runners@ =~= before.update(
                i as int,
                Runner {
                    info: RunnerInfo {
                        job: enriched(before[i as int].info.job, *found),
                        ..before[i as int].info
                    },
                    ..before[i as int]
                },
            ));
        }
        let waiting = self.take_outcome(name);
        self.store.job_started(found, repo, name, busy_at);
        let ghost a = self.store;
        let ghost mut b = a;
        let ghost mut c = a;
        if let (Some(id), Some(o)) = (found.job_id, &waiting) {
            if let Some(conclusion) = &o.conclusion {
                self.store.job_concluded(id, conclusion.as_str(), now);
            }
            proof {
                b = self.store;
            }
            self.store.set_job_artifacts(
                id,
                as_str_opt(&o.log_dir),
                as_str_opt(&o.kept_image),
                as_str_opt(&o.kept_image_runtime),
            );
            proof {
                c = self.store;
            }
            if o.peak_mem_mb > 0 || o.oom {
                self.store.set_job_resources(id, o.peak_mem_mb, o.oom, None, None);
            }
        }
        assert(enrichment_recorded(
            self.store,
            a,
            b,
            c,
            start,
            name@,
            repo@,
            busy_at,
            *found,
            waiting,
            now,
        ));
    }
}

proof fn lemma_filter_out(pending: Seq<Outcome>, runner: Seq<char>, k: int)
    requires
        0 <= k <= pending.len(),
        forall|i: int| 0 <= i < k ==> (#[trigger] pending[i]).runner@ != runner,
        k < pending.len() ==> pending[k].runner@ == runner,
        forall|i: int, j: int|
            #![trigger pending[i], pending[j]]
            0 <= i < j < pending.len() ==> pending[i].runner@ != pending[j].runner@,
    ensures
        pending.filter(outcome_of_another(runner)) == if k < pending.len() {
            pending.remove(k)
        } else {
            pending
        },
    decreases pending.len(),
{
    reveal(Seq::filter);
    if pending.len() > 0 {
        let rest = pending.drop_last();
        if k < pending.len() - 1 {
            assert(pending[k].runner@ != pending[pending.len() - 1].runner@);
            lemma_filter_out(rest, runner, k);
            assert(pending.remove(k) =~= rest.remove(k).push(pending.last()));
        } else if k == pending.len() - 1 {
            lemma_filter_out(rest, runner, k);
            assert(pending.remove(k) =~= rest);
        } else {
            lemma_filter_out(rest, runner, k - 1);
            assert(pending[pending.len() - 1].runner@ != runner);
            assert(pending =~= rest.push(pending.last()));
        }
    }
}

// -- the end of a runner ------------------------------------------------------------

/// What to capture of a runner that has exited, before its container goes.
#[derive(Debug)]
pub struct ExitPlan {
    pub ran_job: bool,
    pub job_id: Option<i64>,
    /// The job's id, or the runner's name where it is not known.
    pub key: String,
    /// Where to keep what is captured.
    pub dir: String,
    /// Where to keep the runner's diagnostics.
    pub diag: String,
    /// The image to keep the workspace as, if it is kept.
    pub keep_as: Option<String>,
}

/// The job's id, or the runner's name where it is not known.
pub open spec fn exit_key(r: Runner) -> Seq<char> {
    match r.info.job.info.job_id {
        Some(id) => number::dec_int(id as int),
        None => r.name@,
    }
}

/// Where what is captured of a runner is kept.
pub open spec fn exit_dir(config: Config, r: Runner) -> Seq<char> {
    paths::joined(paths::joined(config.data_dir@, "jobs"@), exit_key(r))
}

/// A runner's workspace is kept: its job failed, and some workspaces are.
pub open spec fn keeps_workspace(config: Config, r: Runner) -> bool {
    &&& r.info.ran_job
    &&& text::opt_text(r.info.job.conclusion) == Some("failure"@)
    &&& config.keep_failed_workspaces > 0
}

/// The tag that a runner's workspace is kept under.
pub open spec fn exit_tag(r: Runner) -> Seq<char> {
    "homerunner-kept:"@ + exit_key(r)
}

/// A size in whole mebibytes, to 53 significant bits, rounded half up.
pub open spec fn whole_mebibytes(bytes: u64) -> int {
    (binary::nearest(bytes as nat) + 0x8_0000) as int / 0x10_0000
}

/// What is said of a workspace that was kept, or could not be.
pub open spec fn keep_recorded(
    new: Store,
    old: Store,
    config: Config,
    r: Runner,
    kept: Option<Result<(), Seq<char>>>,
    now: i64,
) -> bool {
    if keeps_workspace(config, r) && kept is Some {
        match kept->0 {
            Ok(_) => store::event_recorded(
                new,
                old,
                "info"@,
                "keep"@,
                "kept failed workspace as "@ + exit_tag(r) + " (homerunner exec "@ + exit_key(r)
                    + ")"@,
                now,
            ),
            Err(e) => store::event_recorded(
                new,
                old,
                "warn"@,
                "keep"@,
                "could not keep workspace for "@ + r.name@ + ": "@ + e,
                now,
            ),
        }
    } else {
        new == old
    }
}

/// Where a runner's logs are kept, if they were captured.
pub open spec fn kept_logs(config: Config, r: Runner, captured: bool) -> Option<Seq<char>> {
    if r.info.ran_job && captured {
        Some(exit_dir(config, r))
    } else {
        None
    }
}

/// The image that a runner's workspace is kept as, if it was kept.
pub open spec fn kept_workspace(
    config: Config,
    r: Runner,
    kept: Option<Result<(), Seq<char>>>,
) -> Option<Seq<char>> {
    if keeps_workspace(config, r) && kept == Some(Ok::<(), Seq<char>>(())) {
        Some(exit_tag(r))
    } else {
        None
    }
}

/// The runtime of the image that a runner's workspace is kept as, if it was kept.
pub open spec fn kept_runtime(
    config: Config,
    r: Runner,
    kept: Option<Result<(), Seq<char>>>,
) -> Option<Seq<char>> {
    if kept_workspace(config, r, kept) is Some {
        Some(r.info.repo_cfg.runtime.spec_name())
    } else {
        None
    }
}

/// `new` is `old`, by way of the stores between, after a runner's exit is
/// settled: whether its workspace is kept; of a job whose id is known, where
/// its artifacts are, what it came to and what it took; and whether it ran out
/// of memory.
pub open spec fn exit_recorded(
    new: Store,
    a: Store,
    b: Store,
    c: Store,
    d: Store,
    old: Store,
    config: Config,
    r: Runner,
    captured: bool,
    kept: Option<Result<(), Seq<char>>>,
    oom: bool,
    now: i64,
) -> bool {
    let killed = r.info.ran_job && oom;
    &&& keep_recorded(a, old, config, r, kept, now)
    &&& match r.info.job.info.job_id {
        Some(id) => {
            &&& store::artifacts_recorded(
                b,
                a,
                id,
                kept_logs(config, r, captured),
                kept_workspace(config, r, kept),
                kept_runtime(config, r, kept),
            )
            &&& maybe_concluded(c, b, id, text::opt_text(r.info.job.conclusion), now)
            &&& maybe_resources(
                d,
                c,
                id,
                whole_mebibytes(r.info.peak_mem_bytes) as u64,
                killed,
            )
        },
        None => b == a && c == a && d == a,
    }
    &&& if killed {
        store::event_recorded(new, d, "warn"@, "reap"@, r.name@ + " was OOM-killed"@, now)
    } else {
        new == d
    }
}

/// `o` is what waits to be recorded of a runner's job.
pub open spec fn is_outcome(
    o: Outcome,
    config: Config,
    r: Runner,
    captured: bool,
    kept: Option<Result<(), Seq<char>>>,
    oom: bool,
) -> bool {
    &&& o.runner@ == r.name@
    &&& o.conclusion == r.info.job.conclusion
    &&& text::opt_text(o.log_dir) == kept_logs(config, r, captured)
    &&& text::opt_text(o.kept_image) == kept_workspace(config, r, kept)
    &&& text::opt_text(o.kept_image_runtime) == kept_runtime(config, r, kept)
    &&& o.peak_mem_mb == whole_mebibytes(r.info.peak_mem_bytes)
    &&& o.oom == (r.info.ran_job && oom)
}

pub open spec fn kept_text(kept: Option<Result<(), String>>) -> Option<Result<(), Seq<char>>> {
    match kept {
        Some(Ok(_)) => Some(Ok(())),
        Some(Err(e)) => Some(Err(e@)),
        None => None,
    }
}

/// How long to wait after so many failures in a row: twice as long each time,
/// up to a minute.
pub open spec fn backoff_delay(failures: int) -> int {
    if failures >= 6 {
        60
    } else {
        vstd::arithmetic::power::pow(2, failures as nat)
    }
}

fn delay_after(failures: u32) -> (r: u64)
    ensures
        r == backoff_delay(failures as int),
{
    proof {
        reveal(vstd::arithmetic::power::pow);
        assert(vstd::arithmetic::power::pow(2, 0) == 1);
        assert(vstd::arithmetic::power::pow(2, 1) == 2);
        assert(vstd::arithmetic::power::pow(2, 2) == 4);
        assert(vstd::arithmetic::power::pow(2, 3) == 8);
        assert(vstd::arithmetic::power::pow(2, 4) == 16);
        assert(vstd::arithmetic::power::pow(2, 5) == 32);
    }
    if failures == 0 {
        1
    } else if failures == 1 {
        2
    } else if failures == 2 {
        4
    } else if failures == 3 {
        8
    } else if failures == 4 {
        16
    } else if failures == 5 {
        32
    } else {
        60
    }
}

/// Waiting after failures never takes more than a minute, and never gets
/// shorter with more failures.
pub proof fn law_backoff_is_bounded_and_grows(a: u32, b: u32)
    requires
        a <= b,
    ensures
        1 <= backoff_delay(a as int) <= backoff_delay(b as int) <= 60,
{
    reveal(vstd::arithmetic::power::pow);
    assert(vstd::arithmetic::power::pow(2, 0) == 1);
    assert(vstd::arithmetic::power::pow(2, 1) == 2);
    assert(vstd::arithmetic::power::pow(2, 2) == 4);
    assert(vstd::arithmetic::power::pow(2, 3) == 8);
    assert(vstd::arithmetic::power::pow(2, 4) == 16);
    assert(vstd::arithmetic::power::pow(2, 5) == 32);
}

/// What is left to do for a runner that is gone.
#[derive(Debug, Clone, Copy, PartialEq, Eq)]
pub struct Retirement {
    /// How many seconds to wait before its pool is topped up.
    pub delay_s: u64,
    /// The registration to delete: a runner that never took a job leaves its
    /// registration behind.
    pub unregister: Option<i64>,
}

/// How often in a row a repo's runners have failed once this one is gone.
pub open spec fn failures_after(r: RunnerInfo, before: u32) -> int {
    if r.ran_job {
        0
    } else if r.decaying {
        before as int
    } else {
        one_more(before)
    }
}

/// How long to wait once this runner is gone: only after a crash.
pub open spec fn delay_of(r: RunnerInfo, before: u32) -> int {
    if r.ran_job || r.decaying {
        0
    } else {
        backoff_delay(one_more(before))
    }
}

/// What to do about a runner that has exited.
#[derive(Debug, Clone, Copy, PartialEq, Eq, Structural)]
pub enum NextExit {
    /// What its job came to may still arrive with its output: wait a moment.
    Wait,
    /// Settle what came of it.
    Settle,
}

/// How often to wait at most for what the job of a runner that has exited came to.
pub const EXIT_WAITS: u32 = 6;

/// How many milliseconds to wait each time.
pub const EXIT_WAIT_MS: u64 = 500;

/// What to do about a runner that has exited after so many waits: wait until it
/// is settled what its job came to, but not for ever.
pub fn after_exit(waits: u32, settled: bool) -> (r: NextExit)
    ensures
        r == if settled || waits >= EXIT_WAITS {
            NextExit::Settle
        } else {
            NextExit::Wait
        },
{
    if settled || waits >= EXIT_WAITS {
        NextExit::Settle
    } else {
        NextExit::Wait
    }
}

/// `new` is `old`, by way of `mid`, after a runner is gone.
pub open spec fn retirement_recorded(
    new: Store,
    mid: Store,
    old: Store,
    r: Runner,
    code: i64,
    now: i64,
) -> bool {
    &&& standing_recorded(
        mid,
        old,
        Runner { info: RunnerInfo { state: RunnerState::Exited, ..r.info }, ..r },
        Some(now),
        Some(code),
    )
    &&& if r.info.ran_job {
        store::event_recorded(
            new,
            mid,
            "info"@,
            "reap"@,
            r.name@ + " finished its job (exit "@ + number::dec_int(code as int) + ")"@,
            now,
        )
    } else if !r.info.decaying {
        store::event_recorded(
            new,
            mid,
            "warn"@,
            "reap"@,
            r.name@ + " exited without a job (exit "@ + number::dec_int(code as int) + ")"@,
            now,
        )
    } else {
        new == mid
    }
}

impl App {
    /// Whether nothing more is to be awaited of a runner that has exited: it
    /// ran no job, or what its job came to is known.
    pub fn exit_settled(&self, name: &str) -> (r: bool)
        ensures
            r == {
                let i = runner_index(self.runners@, name@);
                i < self.runners@.len() ==> !self.runners@[i].info.ran_job
                    || self.runners@[i].info.job.conclusion is Some
            },
    {
        let i = self.find(name);
        if i < self.runners.len() {
            !self.runners[i].info.ran_job || self.runners[i].info.job.conclusion.is_some()
        } else {
            true
        }
    }

    fn key_of(&self, i: usize) -> (r: String)
        requires
            i < self.runners@.len(),
        ensures
            r@ == exit_key(self.runners@[i as int]),
    {
        match self.runners[i].info.job.info.job_id {
            Some(id) => number::integer_text(id),
            None => self.runners[i].name.clone(),
        }
    }

    fn dir_of(&self, i: usize) -> (r: String)
        requires
            i < self.runners@.len(),
        ensures
            r@ == exit_dir(self.config, self.runners@[i as int]),
    {
        let key = self.key_of(i);
        let jobs = paths::join(self.config.data_dir.as_str(), "jobs");
        paths::join(jobs.as_str(), key.as_str())
    }

    fn tag_of(&self, i: usize) -> (r: String)
        requires
            i < self.runners@.len(),
        ensures
            r@ == exit_tag(self.runners@[i as int]),
    {
        let key = self.key_of(i);
        let r = text::chain("homerunner-kept:", key.as_str(), "");
        proof {
            reveal_strlit("");
        }
        assert(r@ =~= exit_tag(self.runners@[i as int]));
        r
    }

    fn keeps(&self, i: usize) -> (r: bool)
        requires
            i < self.runners@.len(),
        ensures
            r == keeps_workspace(self.config, self.runners@[i as int]),
    {
        self.runners[i].info.ran_job && text::holds(
            &self.runners[i].info.job.conclusion,
            "failure",
        ) && self.config.keep_failed_workspaces > 0
    }

    /// What to capture of a runner that has exited; nothing of one that is not
    /// in the pool.
    pub fn exit_plan(&self, name: &str) -> (r: Option<ExitPlan>)
        ensures
            match r {
                None => !has_runner(self.runners@, name@),
                Some(p) => {
                    let x = self.runners@[runner_index(self.runners@, name@)];
                    &&& has_runner(self.runners@, name@)
                    &&& p.ran_job == x.info.ran_job
                    &&& p.job_id == x.info.job.info.job_id
                    &&& p.key@ == exit_key(x)
                    &&& p.dir@ == exit_dir(self.config, x)
                    &&& p.diag@ == paths::joined(exit_dir(self.config, x), "diag"@)
                    &&& text::opt_text(p.keep_as) == if keeps_workspace(self.config, x) {
                        Some(exit_tag(x))
                    } else {
                        None
                    }
                },
            },
    {
        let i = self.find(name);
        if i >= self.runners.len() {
            return None;
        }
        let key = self.key_of(i);
        let dir = self.dir_of(i);
        let keep_as = if self.keeps(i) {
            Some(self.tag_of(i))
        } else {
            None
        };
        Some(
            ExitPlan {
                ran_job: self.runners[i].info.ran_job,
                job_id: self.runners[i].info.job.info.job_id,
                key,
                diag: paths::join(dir.as_str(), "diag"),
                dir,
                keep_as,
            },
        )
    }

    /// Settles what came of a runner that has exited: `captured` says whether
    /// its diagnostics were, `kept` what came of keeping its workspace, if that
    /// was tried, and `oom` whether it was killed for want of memory. Where the
    /// job's id is not known yet, the outcome waits for it.
    pub fn settle_exit(
        &mut self,
        name: &str,
        captured: bool,
        kept: Option<Result<(), String>>,
        oom: bool,
        now: i64,
    )
        requires
            old(self).well_formed(),
            has_runner(old(self).runners@, name@),
        ensures
            final(self).well_formed(),
            *final(self) == (App {
                store: final(self).store,
                pending: final(self).pending,
                ..*old(self)
            }),
            ({
                let r = old(self).runners@[runner_index(old(self).runners@, name@)];
                &&& exists|a: Store, b: Store, c: Store, d: Store|
                    #[trigger] exit_recorded(
                        final(self).store,
                        a,
                        b,
                        c,
                        d,
                        old(self).store,
                        old(self).config,
                        r,
                        captured,
                        kept_text(kept),
                        oom,
                        now,
                    )
                &&& if r.info.job.info.job_id is None && r.info.ran_job {
                    let others = old(self).pending@.filter(outcome_of_another(name@));
                    &&& final(self).pending@ == others.push(final(self).pending@.last())
                    &&& is_outcome(
                        final(self).pending@.last(),
                        old(self).config,
                        r,
                        captured,
                        kept_text(kept),
                        oom,
                    )
                } else {
                    final(self).pending == old(self).pending
                }
            }),
    {
        let i = self.find(name);
        let ghost start = self.store;
        let ghost r = self.runners@[i as int];
        let ghost k = kept_text(kept);
        let ran_job = self.runners[i].info.ran_job;
        let killed = ran_job && oom;
        let tag = self.tag_of(i);
        let key = self.key_of(i);
        let log_dir = if ran_job && captured {
            Some(self.dir_of(i))
        } else {
            None
        };
        let mut kept_image: Option<String> = None;
        let mut kept_image_runtime: Option<String> = None;
        if self.keeps(i) {
            match kept {
                Some(Ok(_)) => {
                    let mut m = text::chain(
                        "kept failed workspace as ",
                        tag.as_str(),
                        " (homerunner exec ",
                    );
                    m.append(key.as_str());
                    m.append(")");
                    self.log("info", "keep", m.as_str(), now);
                    kept_image = Some(tag);
                    kept_image_runtime =
                    Some(self.runners[i].info.repo_cfg.runtime.name().to_string());
                },
                Some(Err(e)) => {
                    let m = text::chain5("could not keep workspace for ", name, ": ", e.as_str(), "");
                    proof {
                        reveal_strlit("");
                    }
                    assert(m@ =~= "could not keep workspace for "@ + name@ + ": "@ + e@);
                    self.log("warn", "keep", m.as_str(), now);
                },
                None => {},
            }
        }
        let ghost a = self.store;
        assert(keep_recorded(a, start, self.config, r, k, now));
        assert(text::opt_text(kept_image) == kept_workspace(self.config, r, k));
        assert(text::opt_text(kept_image_runtime) == kept_runtime(self.config, r, k));
        assert(text::opt_text(log_dir) == kept_logs(self.config, r, captured));
        let peak: u128 = binary::nearest_to(self.runners[i].info.peak_mem_bytes) + 0x8_0000;
        let peak_mb: u64 = (peak / 0x10_0000) as u64;
        let conclusion = text::clone_opt(&self.runners[i].info.job.conclusion);
        let ghost mut b = a;
        let ghost mut c = a;
        let job_id = self.runners[i].info.job.info.job_id;
        if let Some(id) = job_id {
            self.store.set_job_artifacts(
                id,
                as_str_opt(&log_dir),
                as_str_opt(&kept_image),
                as_str_opt(&kept_image_runtime),
            );
            proof {
                b = self.store;
            }
            if let Some(conclusion) = &conclusion {
                self.store.job_concluded(id, conclusion.as_str(), now);
            }
            proof {
                c = self.store;
            }
            if peak_mb > 0 || killed {
                self.store.set_job_resources(id, peak_mb, killed, None, None);
            }
        } else if ran_job {
            let _ = self.take_outcome(name);
            let ghost others = self.pending@;
            let o = Outcome {
                runner: name.to_string(),
                conclusion,
                log_dir,
                kept_image,
                kept_image_runtime,
                peak_mem_mb: peak_mb,
                oom: killed,
            };
            proof {
                lemma_none_of(old(self).pending@, name@);
            }
            self.pending.push(o);
        }
        let ghost d = self.store;
        if killed {
            let m = text::chain(name, " was OOM-killed", "");
            proof {
                reveal_strlit("");
            }
            assert(m@ =~= name@ + " was OOM-killed"@);
            self.log("warn", "reap", m.as_str(), now);
        }
        assert(exit_recorded(
            self.store,
            a,
            b,
            c,
            d,
            start,
            self.config,
            r,
            captured,
            k,
            oom,
            now,
        ));
    }

    /// Takes a runner that has exited out of the pool.
    pub fn retire(&mut self, name: &str, code: i64, now: i64) -> (r: Retirement)
        requires
            old(self).well_formed(),
            has_runner(old(self).runners@, name@),
        ensures
            final(self).well_formed(),
            *final(self) == (App {
                store: final(self).store,
                runners: final(self).runners,
                backoff: final(self).backoff,
                ..*old(self)
            }),
            ({
                let i = runner_index(old(self).runners@, name@);
                let x = old(self).runners@[i];
                let repo = x.info.repo_cfg.repo@;
                let before = failures(old(self).backoff@, repo);
                &&& final(self).runners@ == old(self).runners@.remove(i)
                &&& failures_set(
                    final(self).backoff@,
                    old(self).backoff@,
                    repo,
                    failures_after(x.info, before),
                )
                &&& r.delay_s == delay_of(x.info, before)
                &&& r.unregister == if x.info.ran_job {
                    None
                } else {
                    x.info.gh_runner_id
                }
                &&& exists|mid: Store|
                    #[trigger] retirement_recorded(
                        final(self).store,
                        mid,
                        old(self).store,
                        x,
                        code,
                        now,
                    )
            }),
    {
        let ghost rows = self.runners@;
        let ghost start = self.store;
        let i = self.find(name);
        let ghost x = rows[i as int];
        let repo = self.runners[i].info.repo_cfg.repo.clone();
        let ran_job = self.runners[i].info.ran_job;
        let decaying = self.runners[i].info.decaying;
        let gh_runner_id = self.runners[i].info.gh_runner_id;
        let runner = &mut self.runners[i];
        runner.info.state = RunnerState::Exited;
        proof {
            lemma_same_names(self.runners@, rows, name@);
        }
        self.record_runner(name, Some(now), Some(code));
        let ghost mid = self.store;
        let _ = self.runners.remove(i);
        assert(self.runners@ =~= rows.remove(i as int));
        assert(distinct_runners(self.runners@)) by {
            assert forall|p: int, q: int|
                #![trigger self.runners@[p], self.runners@[q]]
                0 <= p < q < self.runners@.len() implies self.runners@[p].name@
                != self.runners@[q].name@ by {
                let a = if p < i {
                    p
                } else {
                    p + 1
                };
                let b = if q < i {
                    q
                } else {
                    q + 1
                };
                assert(rows[a].name@ != rows[b].name@);
            }
        }
        let n = self.failure_count(repo.as_str());
        let after = if ran_job {
            0
        } else if decaying {
            n
        } else if n < u32::MAX {
            n + 1
        } else {
            n
        };
        self.set_failures(repo.as_str(), after);
        let delay_s = if ran_job || decaying {
            0
        } else {
            delay_after(after)
        };
        let exit = number::integer_text(code);
        proof {
            reveal_strlit("");
        }
        if ran_job {
            let m = text::chain5(name, " finished its job (exit ", exit.as_str(), ")", "");
            assert(m@ =~= name@ + " finished its job (exit "@ + exit@ + ")"@);
            self.log("info", "reap", m.as_str(), now);
        } else if !decaying {
            let m = text::chain5(name, " exited without a job (exit ", exit.as_str(), ")", "");
            assert(m@ =~= name@ + " exited without a job (exit "@ + exit@ + ")"@);
            self.log("warn", "reap", m.as_str(), now);
        }
        assert(retirement_recorded(self.store, mid, start, x, code, now));
        Retirement {
            delay_s,
            unregister: if ran_job {
                None
            } else {
                gh_runner_id
            },
        }
    }
}

proof fn lemma_none_of(pending: Seq<Outcome>, runner: Seq<char>)
    ensures
        forall|i: int|
            0 <= i < pending.filter(outcome_of_another(runner)).len() ==> (#[trigger] pending.filter(
                outcome_of_another(runner),
            )[i]).runner@ != runner,
{
    assert forall|i: int|
        0 <= i < pending.filter(outcome_of_another(runner)).len() implies (
    #[trigger] pending.filter(outcome_of_another(runner))[i]).runner@ != runner by {
        pending.lemma_filter_pred(outcome_of_another(runner), i);
    }
}

proof fn lemma_outcome_last(others: Seq<Outcome>, o: Outcome)
    requires
        forall|i: int| 0 <= i < others.len() ==> (#[trigger] others[i]).runner@ != o.runner@,
    ensures
        outcome_of(others.push(o), o.runner@) == Some(o),
        outcome_of(others, o.runner@) is None,
    decreases others.len(),
{
    if others.len() > 0 {
        assert(others[0].runner@ != o.runner@);
        assert forall|i: int| 0 <= i < others.drop_first().len() implies (
        #[trigger] others.drop_first()[i]).runner@ != o.runner@ by {
            assert(others.drop_first()[i] == others[i + 1]);
        }
        lemma_outcome_last(others.drop_first(), o);
        assert(others.push(o).drop_first() =~= others.drop_first().push(o));
        assert(others.push(o)[0] == others[0]);
    } else {
        assert(others.push(o)[0] == o);
    }
}

/// A job knows an outcome: what it came to, where its artifacts are and what it
/// took, as far as the outcome tells.
pub open spec fn knows_outcome(j: store::Job, o: Outcome, now: i64) -> bool {
    &&& o.conclusion is Some ==> text::opt_text(j.conclusion) == text::opt_text(o.conclusion)
        && j.completed_at == Some(now)
    &&& o.log_dir is Some ==> text::opt_text(j.log_dir) == text::opt_text(o.log_dir)
    &&& o.kept_image is Some ==> text::opt_text(j.kept_image) == text::opt_text(o.kept_image)
    &&& o.kept_image_runtime is Some ==> text::opt_text(j.kept_image_runtime) == text::opt_text(
        o.kept_image_runtime,
    )
    &&& o.peak_mem_mb > 0 || o.oom ==> j.peak_mem_mb == Some(o.peak_mem_mb) && j.oom == Some(o.oom)
}

/// The outcome of a job that ended before it was named is not lost: it waits
/// under its runner's name, the journal learns all of it once the job is named,
/// and after that it waits no more.
pub proof fn law_parked_outcomes_are_recorded(
    pending: Seq<Outcome>,
    o: Outcome,
    new: Store,
    a: Store,
    b: Store,
    c: Store,
    old: Store,
    repo: Seq<char>,
    busy_at: Option<i64>,
    found: JobInfo,
    id: i64,
    now: i64,
)
    requires
        old.well_formed(),
        !old.query_only,
        found.job_id == Some(id),
        enrichment_recorded(
            new,
            a,
            b,
            c,
            old,
            o.runner@,
            repo,
            busy_at,
            found,
            outcome_of(pending.filter(outcome_of_another(o.runner@)).push(o), o.runner@),
            now,
        ),
    ensures
        ({
            let parked = pending.filter(outcome_of_another(o.runner@)).push(o);
            &&& outcome_of(parked, o.runner@) == Some(o)
            &&& outcome_of(parked.filter(outcome_of_another(o.runner@)), o.runner@) is None
        }),
        store::knows(new.jobs@, id),
        forall|i: int|
            0 <= i < new.jobs@.len() && (#[trigger] new.jobs@[i]).gh_job_id == id ==> knows_outcome(
                new.jobs@[i],
                o,
                now,
            ),
{
    let others = pending.filter(outcome_of_another(o.runner@));
    lemma_none_of(pending, o.runner@);
    lemma_outcome_last(others, o);
    lemma_none_of(others.push(o), o.runner@);
    lemma_outcome_last(others.push(o).filter(outcome_of_another(o.runner@)), o);
    let p = choose|p: int|
        #[trigger] store::start_at(
            a.jobs@,
            old.jobs@,
            p,
            id as int,
            found,
            repo,
            o.runner@,
            busy_at,
        );
    assert(0 <= p < a.jobs@.len() && a.jobs@[p].gh_job_id == id);
    assert forall|i: int| 0 <= i < a.jobs@.len() implies (#[trigger] new.jobs@[i]).gh_job_id
        == a.jobs@[i].gh_job_id && (a.jobs@[i].gh_job_id == id ==> knows_outcome(
        new.jobs@[i],
        o,
        now,
    )) by {
        assert(b.jobs@[i].gh_job_id == a.jobs@[i].gh_job_id);
        assert(c.jobs@[i].gh_job_id == b.jobs@[i].gh_job_id);
    }
    assert(new.jobs@[p].gh_job_id == id);
}

// -- budgets -----------------------------------------------------------------------

/// How many of `n` things go so that `budget` stay.
pub open spec fn excess(n: nat, budget: nat) -> int {
    if n > budget {
        n - budget
    } else {
        0
    }
}

/// A directory of captured logs, and when it was last written.
#[derive(Debug)]
pub struct LogDirAge {
    pub path: String,
    pub modified: i64,
}

pub open spec fn age_keys(dirs: Seq<LogDirAge>) -> Seq<i128> {
    dirs.map_values(|d: LogDirAge| d.modified as i128)
}

impl App {
    /// The kept workspaces beyond the budget, oldest first.
    pub fn excess_images(&self) -> (r: Vec<(i64, String)>)
        ensures
            exists|records: Seq<store::ArtifactRecord>|
                #[trigger] store::artifacts_of(records, self.store.jobs@) && r@
                    == store::kept_among(records).take(
                    excess(
                        store::kept_among(records).len(),
                        self.config.keep_failed_workspaces as nat,
                    ),
                ),
    {
        let mut all = self.store.kept_images();
        let ghost every = all@;
        let budget = self.config.keep_failed_workspaces as usize;
        let n = if all.len() > budget {
            all.len() - budget
        } else {
            0
        };
        all.truncate(n);
        assert(all@ =~= every.take(n as int));
        all
    }

    /// Takes note that a kept workspace is gone.
    pub fn note_image_removed(&mut self, job_id: i64, tag: &str, now: i64)
        requires
            old(self).well_formed(),
        ensures
            final(self).well_formed(),
            *final(self) == (App { store: final(self).store, ..*old(self) }),
            exists|mid: Store|
                {
                    &&& image_forgotten(mid, old(self).store, job_id)
                    &&& #[trigger] store::event_recorded(
                        final(self).store,
                        mid,
                        "info"@,
                        "keep"@,
                        "gc'd kept workspace "@ + tag@,
                        now,
                    )
                },
    {
        let ghost start = self.store;
        let _ = self.store.clear_kept_image(job_id);
        let ghost mid = self.store;
        assert(image_forgotten(mid, start, job_id));
        let m = text::chain("gc'd kept workspace ", tag, "");
        proof {
            reveal_strlit("");
        }
        assert(m@ =~= "gc'd kept workspace "@ + tag@);
        self.log("info", "keep", m.as_str(), now);
    }

    /// The positions of the directories of captured logs beyond the budget,
    /// oldest first.
    pub fn old_log_dirs(&self, dirs: &Vec<LogDirAge>) -> (r: Vec<usize>)
        ensures
            exists|at: Seq<usize>|
                #[trigger] order::is_ascending(age_keys(dirs@), at) && r@ == at.take(
                    excess(dirs@.len(), self.config.keep_job_logs as nat),
                ),
    {
        let mut keys: Vec<i128> = Vec::new();
        for i in 0..dirs.len()
            invariant
                keys@ =~= age_keys(dirs@.take(i as int)),
        {
            keys.push(dirs[i].modified as i128);
        }
        assert(dirs@.take(dirs@.len() as int) =~= dirs@);
        let mut at = order::ascending(&keys);
        let ghost every = at@;
        let budget = self.config.keep_job_logs as usize;
        let n = if at.len() > budget {
            at.len() - budget
        } else {
            0
        };
        at.truncate(n);
        assert(at@ =~= every.take(n as int));
        assert(order::is_ascending(age_keys(dirs@), every));
        at
    }

    /// Takes note that a directory of captured logs is gone.
    pub fn note_logs_removed(&mut self, path: &str, now: i64)
        requires
            old(self).well_formed(),
        ensures
            final(self).well_formed(),
            *final(self) == (App { store: final(self).store, ..*old(self) }),
            exists|mid: Store|
                {
                    &&& logs_forgotten(mid, old(self).store, path@)
                    &&& #[trigger] store::event_recorded(
                        final(self).store,
                        mid,
                        "info"@,
                        "prune"@,
                        "removed old job logs "@ + path@,
                        now,
                    )
                },
    {
        let ghost start = self.store;
        let _ = self.store.clear_log_dir(path);
        let ghost mid = self.store;
        assert(logs_forgotten(mid, start, path@));
        let m = text::chain("removed old job logs ", path, "");
        proof {
            reveal_strlit("");
        }
        assert(m@ =~= "removed old job logs "@ + path@);
        self.log("info", "prune", m.as_str(), now);
    }
}

/// `new` is `old` without a reference to a job's kept workspace.
pub open spec fn image_forgotten(new: Store, old: Store, id: i64) -> bool {
    &&& new == Store { jobs: new.jobs, ..old }
    &&& if old.query_only {
        new.jobs == old.jobs
    } else {
        &&& new.jobs@.len() == old.jobs@.len()
        &&& forall|i: int|
            0 <= i < old.jobs@.len() ==> #[trigger] new.jobs@[i] == if old.jobs@[i].gh_job_id
                == id {
                store::Job { kept_image: None, kept_image_runtime: None, ..old.jobs@[i] }
            } else {
                old.jobs@[i]
            }
    }
}

/// `new` is `old` without references to captured logs.
pub open spec fn logs_forgotten(new: Store, old: Store, path: Seq<char>) -> bool {
    &&& new == Store { jobs: new.jobs, ..old }
    &&& if old.query_only {
        new.jobs == old.jobs
    } else {
        &&& new.jobs@.len() == old.jobs@.len()
        &&& forall|i: int|
            0 <= i < old.jobs@.len() ==> #[trigger] new.jobs@[i] == store::without_logs(
                old.jobs@[i],
                path,
            )
    }
}

// -- timers ------------------------------------------------------------------------

/// A runner has been busy for longer than its repo allows.
pub open spec fn is_stuck(r: RunnerInfo, now: i64) -> bool {
    &&& r.state == RunnerState::Busy
    &&& r.busy_at matches Some(b) && b < now - r.repo_cfg.job_timeout_min * 60_000_000
}

/// The positions of the first `n` runners that are stuck.
pub open spec fn stuck(runners: Seq<Runner>, now: i64, n: int) -> Seq<int>
    decreases n,
{
    if n <= 0 {
        Seq::empty()
    } else if is_stuck(runners[n - 1].info, now) {
        stuck(runners, now, n - 1).push(n - 1)
    } else {
        stuck(runners, now, n - 1)
    }
}

/// A repo's runner has been idle for long enough to decay, and does not yet.
pub open spec fn is_decayable(r: RunnerInfo, repo: Seq<char>, idle_decay_min: u64, now: i64) -> bool {
    &&& r.state == RunnerState::Listening
    &&& !r.decaying
    &&& r.repo_cfg.repo@ == repo
    &&& r.created_at < now - idle_decay_min * 60_000_000
}

/// The runner at `j` is older than the one at `i`; of two equally old ones the
/// earlier listed counts as older.
pub open spec fn is_older(runners: Seq<Runner>, i: int, j: int) -> bool {
    runners[j].info.created_at < runners[i].info.created_at || (runners[j].info.created_at
        == runners[i].info.created_at && j < i)
}

/// Of the runners at some positions the oldest come first.
pub open spec fn oldest_first(runners: Seq<Runner>, at: Seq<usize>) -> bool {
    forall|a: int, b: int|
        #![trigger at[a], at[b]]
        0 <= a < b < at.len() ==> is_older(runners, at[b] as int, at[a] as int)
}

/// How many of the first `n` runners could decay and are older than the one at `i`.
pub open spec fn older_idle(
    runners: Seq<Runner>,
    repo: Seq<char>,
    idle_decay_min: u64,
    now: i64,
    i: int,
    n: int,
) -> int
    decreases n,
{
    if n <= 0 {
        0
    } else {
        older_idle(runners, repo, idle_decay_min, now, i, n - 1) + if is_decayable(
            runners[n - 1].info,
            repo,
            idle_decay_min,
            now,
        ) && is_older(runners, i, n - 1) {
            1int
        } else {
            0
        }
    }
}

/// The runner at `i` decays: it has been idle for long enough, and it is among
/// the oldest of those that are more than the repo's reserved runners, not
/// counting the ones that are about to be killed already.
pub open spec fn decays(
    runners: Seq<Runner>,
    rc: RepoConfig,
    idle_decay_min: u64,
    now: i64,
    i: int,
) -> bool {
    &&& is_decayable(runners[i].info, rc.repo@, idle_decay_min, now)
    &&& older_idle(runners, rc.repo@, idle_decay_min, now, i, runners.len() as int) < steady(
        runners,
        rc.repo@,
    ) - rc.reserved
}

/// The positions of the first `n` runners that decay.
pub open spec fn decaying(
    runners: Seq<Runner>,
    rc: RepoConfig,
    idle_decay_min: u64,
    now: i64,
    n: int,
) -> Seq<int>
    decreases n,
{
    if n <= 0 {
        Seq::empty()
    } else if decays(runners, rc, idle_decay_min, now, n - 1) {
        decaying(runners, rc, idle_decay_min, now, n - 1).push(n - 1)
    } else {
        decaying(runners, rc, idle_decay_min, now, n - 1)
    }
}

/// Whether a runner has been idle for long enough to decay.
fn decayable(r: &RunnerInfo, repo: &str, idle_decay_min: u64, now: i64) -> (b: bool)
    ensures
        b == is_decayable(*r, repo@, idle_decay_min, now),
{
    r.state == RunnerState::Listening && !r.decaying && text::same_str(
        r.repo_cfg.repo.as_str(),
        repo,
    ) && clock::older(r.created_at, now, idle_decay_min as u128 * 60)
}

impl App {
    /// The positions of the runners that have been busy for too long.
    pub fn stuck_runners(&self, now: i64) -> (r: Vec<usize>)
        ensures
            r@.map_values(|i: usize| i as int) == stuck(
                self.runners@,
                now,
                self.runners@.len() as int,
            ),
    {
        let mut r: Vec<usize> = Vec::new();
        assert(r@.map_values(|i: usize| i as int) =~= Seq::empty());
        for i in 0..self.runners.len()
            invariant
                r@.map_values(|i: usize| i as int) == stuck(self.runners@, now, i as int),
        {
            let info = &self.runners[i].info;
            let late = match info.busy_at {
                Some(b) => clock::older(b, now, info.repo_cfg.job_timeout_min as u128 * 60),
                None => false,
            };
            if info.state == RunnerState::Busy && late {
                let ghost before = r@;
                r.push(i);
                assert(r@.map_values(|i: usize| i as int) =~= before.map_values(
                    |i: usize| i as int,
                ).push(i as int));
            }
        }
        r
    }

    /// How many live runners a repo has that are not about to be killed.
    fn steady_count(&self, repo: &str) -> (r: usize)
        ensures
            r == steady(self.runners@, repo@),
    {
        let ghost p = is_steady(repo@);
        let mut n: usize = 0;
        for i in 0..self.runners.len()
            invariant
                p == is_steady(repo@),
                n <= i,
                n == self.runners@.take(i as int).filter(p).len(),
        {
            proof {
                order::lemma_filter_step(self.runners@, p, i as int);
            }
            let info = &self.runners[i].info;
            if info.state.live() && !info.decaying && text::same_str(
                info.repo_cfg.repo.as_str(),
                repo,
            ) {
                n = n + 1;
            }
        }
        assert(self.runners@.take(self.runners@.len() as int) =~= self.runners@);
        n
    }

    fn decays_at(&self, rc: &RepoConfig, spare: usize, now: i64, i: usize) -> (r: bool)
        requires
            i < self.runners@.len(),
            spare == steady(self.runners@, rc.repo@) - rc.reserved,
        ensures
            r == decays(self.runners@, *rc, self.config.idle_decay_min, now, i as int),
    {
        let minutes = self.config.idle_decay_min;
        if !decayable(&self.runners[i].info, rc.repo.as_str(), minutes, now) {
            return false;
        }
        let mut n: usize = 0;
        for j in 0..self.runners.len()
            invariant
                i < self.runners@.len(),
                minutes == self.config.idle_decay_min,
                n <= j,
                n == older_idle(self.runners@, rc.repo@, minutes, now, i as int, j as int),
        {
            let a = self.runners[j].info.created_at;
            let b = self.runners[i].info.created_at;
            let older = a < b || (a == b && j < i);
            if older && decayable(&self.runners[j].info, rc.repo.as_str(), minutes, now) {
                n = n + 1;
            }
        }
        n < spare
    }

    /// Marks the idle runners of a repo that decay; hands out their positions,
    /// the oldest first.
    pub fn decay(&mut self, rc: &RepoConfig, now: i64) -> (r: Vec<usize>)
        requires
            old(self).well_formed(),
        ensures
            final(self).well_formed(),
            *final(self) == (App { runners: final(self).runners, ..*old(self) }),
            forall|i: usize|
                #![trigger r@.contains(i)]
                r@.contains(i) <==> i < old(self).runners@.len() && decays(
                    old(self).runners@,
                    *rc,
                    old(self).config.idle_decay_min,
                    now,
                    i as int,
                ),
            oldest_first(old(self).runners@, r@),
            final(self).runners@.len() == old(self).runners@.len(),
            forall|i: int|
                0 <= i < old(self).runners@.len() ==> #[trigger] final(self).runners@[i]
                    == marked(
                    old(self).runners@[i],
                    decays(old(self).runners@, *rc, old(self).config.idle_decay_min, now, i),
                ),
            steady(old(self).runners@, rc.repo@) >= rc.reserved ==> steady(
                final(self).runners@,
                rc.repo@,
            ) >= rc.reserved,
    {
        let mut r: Vec<usize> = Vec::new();
        let count = self.steady_count(rc.repo.as_str());
        let ghost before = self.runners@;
        let ghost minutes = self.config.idle_decay_min;
        if count <= rc.reserved as usize {
            proof {
                lemma_none_decay(before, *rc, minutes, now, before.len() as int);
            }
            return r;
        }
        let spare = count - rc.reserved as usize;
        for i in 0..self.runners.len()
            invariant
                before == self.runners@,
                *self == *old(self),
                minutes == self.config.idle_decay_min,
                spare == steady(before, rc.repo@) - rc.reserved,
                forall|k: int| 0 <= k < r@.len() ==> #[trigger] r@[k] < i,
                oldest_first(before, r@),
                forall|k: usize|
                    #![trigger r@.contains(k)]
                    r@.contains(k) <==> k < i && decays(before, *rc, minutes, now, k as int),
        {
            if self.decays_at(rc, spare, now, i) {
                let ghost was = r@;
                let age = self.runners[i].info.created_at;
                let mut p: usize = r.len();
                while p > 0 && age < self.runners[r[p - 1]].info.created_at
                    invariant
                        before == self.runners@,
                        was == r@,
                        i < before.len(),
                        age == before[i as int].info.created_at,
                        p <= r@.len(),
                        forall|k: int| 0 <= k < r@.len() ==> #[trigger] r@[k] < i,
                        forall|k: int|
                            p <= k < r@.len() ==> is_older(before, #[trigger] r@[k] as int, i as int),
                    decreases p,
                {
                    p = p - 1;
                }
                r.insert(p, i);
                assert(r@ =~= was.insert(p as int, i));
                assert forall|k: int| 0 <= k < p implies is_older(
                    before,
                    i as int,
                    #[trigger] was[k] as int,
                ) by {
                    if k < p - 1 {
                        assert(is_older(before, was[p - 1] as int, was[k] as int));
                    }
                }
                assert(oldest_first(before, r@)) by {
                    assert forall|a: int, b: int|
                        #![trigger r@[a], r@[b]]
                        0 <= a < b < r@.len() implies is_older(
                        before,
                        r@[b] as int,
                        r@[a] as int,
                    ) by {
                        let x = if a < p {
                            a
                        } else {
                            a - 1
                        };
                        let y = if b < p {
                            b
                        } else {
                            b - 1
                        };
                        if a == p {
                            assert(was[y] == r@[b]);
                        } else if b == p {
                            assert(was[x] == r@[a]);
                        } else {
                            assert(was[x] == r@[a] && was[y] == r@[b]);
                        }
                    }
                }
                assert forall|k: usize|
                    #![trigger r@.contains(k)]
                    r@.contains(k) <==> k < i + 1 && decays(
                        before,
                        *rc,
                        minutes,
                        now,
                        k as int,
                    ) by {
                    if was.contains(k) {
                        let q = choose|q: int| 0 <= q < was.len() && was[q] == k;
                        let at = if q < p {
                            q
                        } else {
                            q + 1
                        };
                        assert(r@[at] == k);
                    }
                    if r@.contains(k) && k != i {
                        let q = choose|q: int| 0 <= q < r@.len() && r@[q] == k;
                        let at = if q < p {
                            q
                        } else {
                            q - 1
                        };
                        assert(was[at] == k);
                    }
                    if k == i {
                        assert(r@[p as int] == k);
                    }
                }
            }
        }
        assert forall|q: int| 0 <= q < r@.len() implies #[trigger] r@[q] < before.len() by {
            assert(r@.contains(r@[q]));
        }
        for k in 0..r.len()
            invariant
                self.runners@.len() == before.len(),
                *self == (App { runners: self.runners, ..*old(self) }),
                forall|i: int| 0 <= i < r@.len() ==> #[trigger] r@[i] < before.len(),
                forall|i: int|
                    0 <= i < before.len() ==> #[trigger] self.runners@[i] == marked(
                        before[i],
                        is_among(r@, k as int, i),
                    ),
        {
            let i = r[k];
            let ghost was = self.runners@;
            let runner = &mut self.runners[i];
            runner.info.decaying = true;
            assert forall|j: int| 0 <= j < before.len() implies #[trigger] self.runners@[j]
                == marked(before[j], is_among(r@, k + 1, j)) by {
                assert(was[j] == marked(before[j], is_among(r@, k as int, j)));
                assert(r@[k as int] == i);
                if is_among(r@, k as int, j) {
                    let q = choose|q: int| 0 <= q < k && #[trigger] r@[q] == j;
                    assert(r@[q] == j);
                }
                if is_among(r@, k + 1, j) && j != i {
                    let q = choose|q: int| 0 <= q < k + 1 && #[trigger] r@[q] == j;
                    assert(q < k);
                }
            }
        }
        assert forall|i: int| 0 <= i < before.len() implies #[trigger] self.runners@[i] == marked(
            before[i],
            decays(before, *rc, minutes, now, i),
        ) by {
            let n = self.runners.len();
            let k = i as usize;
            assert(k == i);
            assert(r@.contains(k) <==> decays(before, *rc, minutes, now, i));
            if r@.contains(k) {
                let q = choose|q: int| 0 <= q < r@.len() && r@[q] == k;
                assert(r@[q] == i);
            }
            if is_among(r@, r@.len() as int, i) {
                let q = choose|q: int| 0 <= q < r@.len() && #[trigger] r@[q] == i;
                assert(r@[q] == k);
            }
        }
        assert(distinct_runners(self.runners@)) by {
            assert forall|i: int, j: int|
                #![trigger self.runners@[i], self.runners@[j]]
                0 <= i < j < self.runners@.len() implies self.runners@[i].name@
                != self.runners@[j].name@ by {
                assert(before[i].name@ != before[j].name@);
            }
        }
        proof {
            law_decay_keeps_the_reserved_runners(
                self.runners@,
                before,
                *rc,
                minutes,
                now,
                rc.repo@,
            );
        }
        r
    }

    /// Whether it is time again to look for a new release and to tidy up: once
    /// a day.
    pub fn daily_due(last: i64, now: i64) -> (r: bool)
        ensures
            r == (last < now - 86_400_000_000),
    {
        clock::older(last, now, 86_400)
    }
}

/// A position is among the first `k` of some.
spec fn is_among(r: Seq<usize>, k: int, i: int) -> bool {
    exists|q: int| 0 <= q < k && #[trigger] r[q] == i
}

/// A runner, marked as decaying if it decays.
pub open spec fn marked(r: Runner, decays: bool) -> Runner {
    if decays {
        Runner { info: RunnerInfo { decaying: true, ..r.info }, ..r }
    } else {
        r
    }
}

pub(crate) proof fn lemma_none_decay(
    runners: Seq<Runner>,
    rc: RepoConfig,
    idle_decay_min: u64,
    now: i64,
    n: int,
)
    requires
        0 <= n <= runners.len(),
        steady(runners, rc.repo@) <= rc.reserved,
    ensures
        decaying(runners, rc, idle_decay_min, now, n).len() == 0,
        forall|i: int| 0 <= i < runners.len() ==> !decays(runners, rc, idle_decay_min, now, i),
    decreases n,
{
    assert forall|i: int| 0 <= i < runners.len() implies !decays(
        runners,
        rc,
        idle_decay_min,
        now,
        i,
    ) by {
        lemma_older_idle_bound(runners, rc.repo@, idle_decay_min, now, i, runners.len() as int);
    }
    if n > 0 {
        lemma_none_decay(runners, rc, idle_decay_min, now, n - 1);
    }
}

proof fn lemma_older_idle_bound(
    runners: Seq<Runner>,
    repo: Seq<char>,
    idle_decay_min: u64,
    now: i64,
    i: int,
    n: int,
)
    ensures
        older_idle(runners, repo, idle_decay_min, now, i, n) >= 0,
    decreases n,
{
    if n > 0 {
        lemma_older_idle_bound(runners, repo, idle_decay_min, now, i, n - 1);
    }
}

/// The youngest of the first `n` runners that decay.
spec fn is_youngest(
    runners: Seq<Runner>,
    rc: RepoConfig,
    idle_decay_min: u64,
    now: i64,
    n: int,
    i: int,
) -> bool {
    &&& 0 <= i < n
    &&& decays(runners, rc, idle_decay_min, now, i)
    &&& forall|j: int|
        0 <= j < n && j != i && decays(runners, rc, idle_decay_min, now, j) ==> #[trigger] is_older(
            runners,
            i,
            j,
        )
}

proof fn lemma_youngest(
    runners: Seq<Runner>,
    rc: RepoConfig,
    idle_decay_min: u64,
    now: i64,
    n: int,
) -> (i: int)
    requires
        0 <= n <= runners.len(),
        decaying(runners, rc, idle_decay_min, now, n).len() > 0,
    ensures
        is_youngest(runners, rc, idle_decay_min, now, n, i),
    decreases n,
{
    if decaying(runners, rc, idle_decay_min, now, n - 1).len() > 0 {
        let i = lemma_youngest(runners, rc, idle_decay_min, now, n - 1);
        if decays(runners, rc, idle_decay_min, now, n - 1) && !is_older(runners, i, n - 1) {
            assert forall|j: int|
                0 <= j < n && j != n - 1 && decays(
                    runners,
                    rc,
                    idle_decay_min,
                    now,
                    j,
                ) implies #[trigger] is_older(runners, n - 1, j) by {
                if j != i {
                    assert(is_older(runners, i, j));
                }
            }
            n - 1
        } else {
            i
        }
    } else {
        assert forall|j: int|
            0 <= j < n && j != n - 1 && decays(
                runners,
                rc,
                idle_decay_min,
                now,
                j,
            ) implies #[trigger] is_older(runners, n - 1, j) by {
            lemma_decaying_holds(runners, rc, idle_decay_min, now, n - 1, j);
        }
        n - 1
    }
}

pub(crate) proof fn lemma_decaying_holds(
    runners: Seq<Runner>,
    rc: RepoConfig,
    idle_decay_min: u64,
    now: i64,
    n: int,
    j: int,
)
    requires
        0 <= j < n,
        decays(runners, rc, idle_decay_min, now, j),
    ensures
        decaying(runners, rc, idle_decay_min, now, n).len() > 0,
    decreases n,
{
    if j < n - 1 {
        lemma_decaying_holds(runners, rc, idle_decay_min, now, n - 1, j);
    }
}

proof fn lemma_decaying_are_older(
    runners: Seq<Runner>,
    rc: RepoConfig,
    idle_decay_min: u64,
    now: i64,
    i: int,
    n: int,
)
    requires
        0 <= n <= runners.len(),
        is_youngest(runners, rc, idle_decay_min, now, runners.len() as int, i),
    ensures
        decaying(runners, rc, idle_decay_min, now, n).len() <= older_idle(
            runners,
            rc.repo@,
            idle_decay_min,
            now,
            i,
            n,
        ) + if i < n {
            1int
        } else {
            0
        },
    decreases n,
{
    if n > 0 {
        lemma_decaying_are_older(runners, rc, idle_decay_min, now, i, n - 1);
        if decays(runners, rc, idle_decay_min, now, n - 1) && n - 1 != i {
            assert(is_older(runners, i, n - 1));
        }
    }
}

pub(crate) proof fn lemma_decaying_count(
    runners: Seq<Runner>,
    rc: RepoConfig,
    idle_decay_min: u64,
    now: i64,
)
    ensures
        decaying(runners, rc, idle_decay_min, now, runners.len() as int).len() > 0 ==> decaying(
            runners,
            rc,
            idle_decay_min,
            now,
            runners.len() as int,
        ).len() + rc.reserved <= steady(runners, rc.repo@),
{
    let n = runners.len() as int;
    if decaying(runners, rc, idle_decay_min, now, n).len() > 0 {
        let i = lemma_youngest(runners, rc, idle_decay_min, now, n);
        lemma_decaying_are_older(runners, rc, idle_decay_min, now, i, n);
    }
}

/// Each runner that decays is one steady runner of its repo less; other repos
/// lose none.
proof fn lemma_steady_after(
    after: Seq<Runner>,
    before: Seq<Runner>,
    rc: RepoConfig,
    idle_decay_min: u64,
    now: i64,
    repo: Seq<char>,
    n: int,
)
    requires
        0 <= n <= before.len(),
        after.len() == before.len(),
        forall|i: int|
            0 <= i < before.len() ==> #[trigger] after[i] == marked(
                before[i],
                decays(before, rc, idle_decay_min, now, i),
            ),
    ensures
        steady(after.take(n), repo) == steady(before.take(n), repo) - (if repo == rc.repo@ {
            decaying(before, rc, idle_decay_min, now, n).len() as int
        } else {
            0
        }),
    decreases n,
{
    let p = is_steady(repo);
    if n > 0 {
        lemma_steady_after(after, before, rc, idle_decay_min, now, repo, n - 1);
        order::lemma_filter_step(after, p, n - 1);
        order::lemma_filter_step(before, p, n - 1);
        assert(after[n - 1] == marked(
            before[n - 1],
            decays(before, rc, idle_decay_min, now, n - 1),
        ));
    } else {
        reveal(Seq::filter);
        assert(after.take(0) =~= Seq::empty());
        assert(before.take(0) =~= Seq::empty());
    }
}

/// The reserved runners stay: a repo that has as many live runners as are
/// reserved, not counting those that are about to be killed, still has as many
/// of them once more are marked, and no other repo loses any. So it holds over
/// any number of ticks.
pub proof fn law_decay_keeps_the_reserved_runners(
    after: Seq<Runner>,
    before: Seq<Runner>,
    rc: RepoConfig,
    idle_decay_min: u64,
    now: i64,
    other: Seq<char>,
)
    requires
        after.len() == before.len(),
        forall|i: int|
            0 <= i < before.len() ==> #[trigger] after[i] == marked(
                before[i],
                decays(before, rc, idle_decay_min, now, i),
            ),
    ensures
        steady(before, rc.repo@) >= rc.reserved ==> steady(after, rc.repo@) >= rc.reserved,
        steady(before, rc.repo@) <= rc.reserved ==> steady(after, rc.repo@) == steady(
            before,
            rc.repo@,
        ),
        other != rc.repo@ ==> steady(after, other) == steady(before, other),
{
    let n = before.len() as int;
    lemma_decaying_count(before, rc, idle_decay_min, now);
    lemma_steady_after(after, before, rc, idle_decay_min, now, rc.repo@, n);
    lemma_steady_after(after, before, rc, idle_decay_min, now, other, n);
    assert(after.take(n) =~= after);
    assert(before.take(n) =~= before);
}

/// Nothing decays but what has been listening for long enough, is not marked
/// yet and belongs to the repo, and the oldest go first.
pub proof fn law_the_oldest_idle_runners_decay_first(
    runners: Seq<Runner>,
    rc: RepoConfig,
    idle_decay_min: u64,
    now: i64,
    i: int,
    j: int,
)
    requires
        0 <= i < runners.len(),
        0 <= j < runners.len(),
        decays(runners, rc, idle_decay_min, now, i),
    ensures
        is_decayable(runners[i].info, rc.repo@, idle_decay_min, now),
        is_decayable(runners[j].info, rc.repo@, idle_decay_min, now) && is_older(runners, i, j)
            ==> decays(runners, rc, idle_decay_min, now, j),
{
    if is_decayable(runners[j].info, rc.repo@, idle_decay_min, now) && is_older(runners, i, j) {
        lemma_older_counts_less(
            runners,
            rc.repo@,
            idle_decay_min,
            now,
            i,
            j,
            runners.len() as int,
        );
    }
}

proof fn lemma_older_counts_less(
    runners: Seq<Runner>,
    repo: Seq<char>,
    idle_decay_min: u64,
    now: i64,
    i: int,
    j: int,
    n: int,
)
    requires
        is_older(runners, i, j),
    ensures
        older_idle(runners, repo, idle_decay_min, now, j, n) <= older_idle(
            runners,
            repo,
            idle_decay_min,
            now,
            i,
            n,
        ),
    decreases n,
{
    if n > 0 {
        lemma_older_counts_less(runners, repo, idle_decay_min, now, i, j, n - 1);
    }
}

/// Only idle runners decay: one that runs a job never does.
pub proof fn law_busy_runners_never_decay(
    runners: Seq<Runner>,
    rc: RepoConfig,
    idle_decay_min: u64,
    now: i64,
    i: int,
)
    requires
        0 <= i < runners.len(),
        runners[i].info.state == RunnerState::Busy,
    ensures
        !decays(runners, rc, idle_decay_min, now, i),
{
}

// -- samples and wakefulness -----------------------------------------------------------

/// What a runner takes at the moment.
#[derive(Debug)]
pub struct Sample {
    pub name: String,
    /// In percent of one core, in decimal notation.
    pub cpu: String,
    pub mem_bytes: u64,
}

/// The runners after a sample of one of them.
pub open spec fn sampled(runners: Seq<Runner>, s: Sample) -> Seq<Runner> {
    let i = runner_index(runners, s.name@);
    if i < runners.len() {
        let r = runners[i];
        runners.update(
            i,
            Runner {
                info: RunnerInfo {
                    cpu: s.cpu,
                    mem_bytes: s.mem_bytes,
                    peak_mem_bytes: if s.mem_bytes > r.info.peak_mem_bytes {
                        s.mem_bytes
                    } else {
                        r.info.peak_mem_bytes
                    },
                    ..r.info
                },
                ..r
            },
        )
    } else {
        runners
    }
}

/// The runners after some samples.
pub open spec fn all_sampled(runners: Seq<Runner>, samples: Seq<Sample>) -> Seq<Runner>
    decreases samples.len(),
{
    if samples.len() == 0 {
        runners
    } else {
        sampled(all_sampled(runners, samples.drop_last()), samples.last())
    }
}

/// The live runners on a runtime.
pub open spec fn is_live_on(kind: RuntimeKind) -> spec_fn(Runner) -> bool {
    |r: Runner| r.info.state.spec_live() && r.info.repo_cfg.runtime == kind
}

/// What to do about keeping the machine awake.
#[derive(Debug, Clone, Copy, PartialEq, Eq, Structural)]
pub enum Wakefulness {
    Begin,
    End,
    Unchanged,
}

/// A job runs that keeps the machine awake.
pub open spec fn keeps_awake(runners: Seq<Runner>) -> bool {
    exists|i: int|
        0 <= i < runners.len() && (#[trigger] runners[i]).info.state == RunnerState::Busy
            && runners[i].info.repo_cfg.caffeinate
}

impl App {
    /// The names of the live runners on a runtime.
    pub fn live_names(&self, kind: RuntimeKind) -> (r: Vec<String>)
        ensures
            r@ == self.runners@.filter(is_live_on(kind)).map_values(|x: Runner| x.name),
    {
        let ghost p = is_live_on(kind);
        let mut r: Vec<String> = Vec::new();
        proof {
            reveal(Seq::filter);
            assert(r@ =~= self.runners@.take(0).filter(p).map_values(|x: Runner| x.name));
        }
        for i in 0..self.runners.len()
            invariant
                p == is_live_on(kind),
                r@ == self.runners@.take(i as int).filter(p).map_values(|x: Runner| x.name),
        {
            proof {
                order::lemma_filter_step(self.runners@, p, i as int);
            }
            let info = &self.runners[i].info;
            if info.state.live() && info.repo_cfg.runtime == kind {
                let ghost before = self.runners@.take(i as int).filter(p);
                r.push(self.runners[i].name.clone());
                assert(before.push(self.runners@[i as int]).map_values(|x: Runner| x.name)
                    =~= before.map_values(|x: Runner| x.name).push(self.runners@[i as int].name));
            }
        }
        assert(self.runners@.take(self.runners@.len() as int) =~= self.runners@);
        r
    }

    fn apply_sample(&mut self, s: &Sample) -> (r: bool)
        requires
            old(self).well_formed(),
        ensures
            final(self).well_formed(),
            *final(self) == (App { runners: final(self).runners, ..*old(self) }),
            final(self).runners@ == sampled(old(self).runners@, *s),
            final(self).runners@.len() == old(self).runners@.len(),
            r == has_runner(old(self).runners@, s.name@),
            forall|name: Seq<char>| #[trigger]
                runner_index(final(self).runners@, name) == runner_index(old(self).runners@, name),
    {
        let ghost before = self.runners@;
        let i = self.find(s.name.as_str());
        if i >= self.runners.len() {
            return false;
        }
        let r = &mut self.runners[i];
        r.info.cpu = s.cpu.clone();
        r.info.mem_bytes = s.mem_bytes;
        if s.mem_bytes > r.info.peak_mem_bytes {
            r.info.peak_mem_bytes = s.mem_bytes;
        }
        assert(self.runners@ =~= sampled(before, *s));
        assert forall|name: Seq<char>| #[trigger]
            runner_index(self.runners@, name) == runner_index(before, name) by {
            lemma_same_names(self.runners@, before, name);
        }
        true
    }

    /// Takes up what runners take at the moment; says whether any of them is
    /// in the pool.
    pub fn apply_samples(&mut self, samples: &Vec<Sample>) -> (r: bool)
        requires
            old(self).well_formed(),
        ensures
            final(self).well_formed(),
            *final(self) == (App { runners: final(self).runners, ..*old(self) }),
            final(self).runners@ == all_sampled(old(self).runners@, samples@),
            r == exists|i: int|
                0 <= i < samples@.len() && has_runner(
                    old(self).runners@,
                    (#[trigger] samples@[i]).name@,
                ),
    {
        let ghost start = *self;
        let mut changed = false;
        for k in 0..samples.len()
            invariant
                self.well_formed(),
                *self == (App { runners: self.runners, ..start }),
                self.runners@ == all_sampled(start.runners@, samples@.take(k as int)),
                self.runners@.len() == start.runners@.len(),
                forall|name: Seq<char>| #[trigger]
                    runner_index(self.runners@, name) == runner_index(start.runners@, name),
                changed == exists|i: int|
                    0 <= i < k && has_runner(start.runners@, (#[trigger] samples@[i]).name@),
        {
            assert(samples@.take(k + 1).drop_last() =~= samples@.take(k as int));
            assert(runner_index(self.runners@, samples@[k as int].name@) == runner_index(
                start.runners@,
                samples@[k as int].name@,
            ));
            if self.apply_sample(&samples[k]) {
                assert(has_runner(start.runners@, samples@[k as int].name@));
                changed = true;
            }
        }
        assert(samples@.take(samples@.len() as int) =~= samples@);
        changed
    }

    /// What to do about keeping the machine awake.
    pub fn update_caffeinate(&self) -> (r: Wakefulness)
        ensures
            r == if keeps_awake(self.runners@) && !self.awake {
                Wakefulness::Begin
            } else if !keeps_awake(self.runners@) && self.awake {
                Wakefulness::End
            } else {
                Wakefulness::Unchanged
            },
    {
        let mut wanted = false;
        for i in 0..self.runners.len()
            invariant
                wanted == exists|k: int|
                    0 <= k < i && (#[trigger] self.runners@[k]).info.state == RunnerState::Busy
                        && self.runners@[k].info.repo_cfg.caffeinate,
        {
            let info = &self.runners[i].info;
            if info.state == RunnerState::Busy && info.repo_cfg.caffeinate {
                assert(self.runners@[i as int].info.state == RunnerState::Busy);
                wanted = true;
            }
        }
        if wanted && !self.awake {
            Wakefulness::Begin
        } else if !wanted && self.awake {
            Wakefulness::End
        } else {
            Wakefulness::Unchanged
        }
    }
}

/// The peak of what a runner takes never goes down.
pub proof fn law_peaks_never_go_down(runners: Seq<Runner>, s: Sample, i: int)
    requires
        0 <= i < runners.len(),
    ensures
        sampled(runners, s)[i].info.peak_mem_bytes >= runners[i].info.peak_mem_bytes,
{
    lemma_index_bounds(runners, s.name@);
}

// -- what is recorded on the way ---------------------------------------------------------

impl App {
    /// Records that a runner is killed because its job takes too long.
    pub fn note_timeout(&mut self, name: &str, now: i64)
        requires
            old(self).well_formed(),
        ensures
            final(self).well_formed(),
            *final(self) == (App { store: final(self).store, ..*old(self) }),
            store::event_recorded(
                final(self).store,
                old(self).store,
                "error"@,
                "watchdog"@,
                name@ + " exceeded job timeout; killing"@,
                now,
            ),
    {
        let mut msg = name.to_string();
        msg.append(" exceeded job timeout; killing");
        self.log("error", "watchdog", msg.as_str(), now);
    }

    /// Records that an idle runner is killed because its repo has enough of them.
    pub fn note_decay(&mut self, name: &str, now: i64)
        requires
            old(self).well_formed(),
        ensures
            final(self).well_formed(),
            *final(self) == (App { store: final(self).store, ..*old(self) }),
            store::event_recorded(
                final(self).store,
                old(self).store,
                "info"@,
                "decay"@,
                name@ + " idle beyond reserved; scaling down"@,
                now,
            ),
    {
        let mut msg = name.to_string();
        msg.append(" idle beyond reserved; scaling down");
        self.log("info", "decay", msg.as_str(), now);
    }

    /// Records that a repo's registrations could not be listed.
    pub fn note_sweep_failed(&mut self, repo: &str, now: i64)
        requires
            old(self).well_formed(),
        ensures
            final(self).well_formed(),
            *final(self) == (App { store: final(self).store, ..*old(self) }),
            store::event_recorded(
                final(self).store,
                old(self).store,
                "warn"@,
                "recover"@,
                "registration sweep failed for "@ + repo@,
                now,
            ),
    {
        let mut msg = "registration sweep failed for ".to_string();
        msg.append(repo);
        self.log("warn", "recover", msg.as_str(), now);
    }

    /// Records that a registration without a runner was deleted.
    pub fn note_orphan_deleted(&mut self, name: &str, now: i64)
        requires
            old(self).well_formed(),
        ensures
            final(self).well_formed(),
            *final(self) == (App { store: final(self).store, ..*old(self) }),
            store::event_recorded(
                final(self).store,
                old(self).store,
                "info"@,
                "recover"@,
                "deleted orphan registration "@ + name@,
                now,
            ),
    {
        let mut msg = "deleted orphan registration ".to_string();
        msg.append(name);
        self.log("info", "recover", msg.as_str(), now);
    }

    /// Records that a repo's pool grows because jobs wait.
    pub fn note_burst(&mut self, repo: &str, queued: u32, now: i64)
        requires
            old(self).well_formed(),
        ensures
            final(self).well_formed(),
            *final(self) == (App { store: final(self).store, ..*old(self) }),
            store::event_recorded(
                final(self).store,
                old(self).store,
                "info"@,
                "burst"@,
                repo@ + ": "@ + number::dec(queued as nat) + " queued job(s), scaling up"@,
                now,
            ),
    {
        let n = number::number_text(queued as u64);
        let mut msg = text::chain(repo, ": ", n.as_str());
        msg.append(" queued job(s), scaling up");
        self.log("info", "burst", msg.as_str(), now);
    }

    /// Records the latest release of the runner program.
    pub fn note_release(&mut self, latest: &str, now: i64)
        requires
            old(self).well_formed(),
        ensures
            final(self).well_formed(),
            *final(self) == (App { store: final(self).store, ..*old(self) }),
            store::event_recorded(
                final(self).store,
                old(self).store,
                "info"@,
                "staleness"@,
                "latest actions/runner release: v"@ + latest@,
                now,
            ),
    {
        let mut msg = "latest actions/runner release: v".to_string();
        msg.append(latest);
        self.log("info", "staleness", msg.as_str(), now);
    }
}

// -- the view from outside ----------------------------------------------------------------

/// How a repo's pool stands.
#[derive(Debug)]
pub struct RepoSnapshot {
    pub repo: String,
    pub runtime: &'static str,
    pub reserved: u32,
    pub max: u32,
    pub live: usize,
}

/// How a runner stands.
#[derive(Debug)]
pub struct RunnerSnapshot {
    pub name: String,
    pub repo: String,
    pub state: &'static str,
    pub created_at: i64,
    pub busy_at: Option<i64>,
    pub job: JobInfo,
    pub conclusion: Option<String>,
    /// The latest lines of output.
    pub log_tail: Vec<String>,
    pub cpu: String,
    pub mem_bytes: u64,
}

/// A runtime that does not work, by its name, and why.
#[derive(Debug)]
pub struct DegradedSnapshot {
    pub runtime: &'static str,
    pub reason: String,
}

/// How the supervisor stands.
#[derive(Debug)]
pub struct Snapshot {
    /// How many runners there can be at most.
    pub capacity: u64,
    pub max_total_runners: u32,
    pub degraded: Vec<DegradedSnapshot>,
    pub repos: Vec<RepoSnapshot>,
    pub runners: Vec<RunnerSnapshot>,
}

/// How many runners the first `n` repos may have, taken each for itself.
pub open spec fn total_max(repos: Seq<RepoConfig>, n: int) -> int
    decreases n,
{
    if n <= 0 {
        0
    } else {
        total_max(repos, n - 1) + repos[n - 1].max
    }
}

/// How many runners there can be at most.
pub open spec fn capacity(config: Config) -> int {
    let total = total_max(config.repos@, config.repos@.len() as int);
    if total < config.max_total_runners {
        total
    } else {
        config.max_total_runners as int
    }
}

/// The latest eight lines of output.
pub open spec fn tail(log: Seq<(u64, String)>) -> Seq<Seq<char>> {
    let from = if log.len() > 8 {
        log.len() - 8
    } else {
        0
    };
    line_texts(log.skip(from))
}

pub open spec fn is_repo_snapshot(s: RepoSnapshot, rc: RepoConfig, runners: Seq<Runner>) -> bool {
    &&& s.repo == rc.repo
    &&& s.runtime@ == rc.runtime.spec_name()
    &&& s.reserved == rc.reserved
    &&& s.max == rc.max
    &&& s.live == live(runners, Some(rc.repo@))
}

pub open spec fn is_runner_snapshot(s: RunnerSnapshot, r: Runner) -> bool {
    &&& s.name == r.name
    &&& s.repo == r.info.repo_cfg.repo
    &&& s.state@ == r.info.state.spec_name()
    &&& s.created_at == r.info.created_at
    &&& s.busy_at == r.info.busy_at
    &&& s.job == r.info.job.info
    &&& s.conclusion == r.info.job.conclusion
    &&& text::texts(s.log_tail@) == tail(r.info.log@)
    &&& s.cpu == r.info.cpu
    &&& s.mem_bytes == r.info.mem_bytes
}

/// `r` is how the supervisor stands: its repos, and its live runners.
pub open spec fn is_snapshot(r: Snapshot, app: App) -> bool {
    let shown = app.runners@.filter(is_live(None));
    &&& r.capacity == capacity(app.config)
    &&& r.max_total_runners == app.config.max_total_runners
    &&& r.degraded@.len() == app.degraded@.len()
    &&& forall|i: int|
        0 <= i < r.degraded@.len() ==> (#[trigger] r.degraded@[i]).runtime@
            == app.degraded@[i].runtime.spec_name() && r.degraded@[i].reason@
            == app.degraded@[i].reason@
    &&& r.repos@.len() == app.config.repos@.len()
    &&& forall|i: int|
        0 <= i < r.repos@.len() ==> is_repo_snapshot(
            #[trigger] r.repos@[i],
            app.config.repos@[i],
            app.runners@,
        )
    &&& r.runners@.len() == shown.len()
    &&& forall|i: int|
        0 <= i < shown.len() ==> is_runner_snapshot(#[trigger] r.runners@[i], shown[i])
}

impl App {
    fn snapshot_of(&self, i: usize) -> (r: RunnerSnapshot)
        requires
            i < self.runners@.len(),
        ensures
            is_runner_snapshot(r, self.runners@[i as int]),
    {
        let x = &self.runners[i];
        let n = x.info.log.len();
        let from = if n > 8 {
            n - 8
        } else {
            0
        };
        let ghost rest = x.info.log@.skip(from as int);
        let mut log_tail: Vec<String> = Vec::new();
        let mut k = from;
        while k < n
            invariant
                n == x.info.log@.len(),
                from <= k <= n,
                rest == x.info.log@.skip(from as int),
                text::texts(log_tail@) =~= line_texts(rest.take(k - from)),
            decreases n - k,
        {
            let ghost before = log_tail@;
            let ghost e = x.info.log@[k as int];
            log_tail.push(x.info.log[k].1.clone());
            assert(text::texts(log_tail@) =~= text::texts(before).push(e.1@));
            assert(rest[k - from] == e);
            assert(rest.take(k + 1 - from) =~= rest.take(k - from).push(e));
            assert(line_texts(rest.take(k + 1 - from)) =~= line_texts(rest.take(k - from)).push(
                e.1@,
            ));
            k = k + 1;
        }
        assert(rest.take(n - from) =~= rest);
        RunnerSnapshot {
            name: x.name.clone(),
            repo: x.info.repo_cfg.repo.clone(),
            state: x.info.state.name(),
            created_at: x.info.created_at,
            busy_at: x.info.busy_at,
            job: x.info.job.info.clone(),
            conclusion: text::clone_opt(&x.info.job.conclusion),
            log_tail,
            cpu: x.info.cpu.clone(),
            mem_bytes: x.info.mem_bytes,
        }
    }

    /// How the supervisor stands: its repos, and its live runners.
    pub fn snapshot(&self) -> (r: Snapshot)
        ensures
            is_snapshot(r, *self),
    {
        let mut repos: Vec<RepoSnapshot> = Vec::new();
        let mut total: u64 = 0;
        let limit = self.config.max_total_runners as u64;
        for i in 0..self.config.repos.len()
            invariant
                limit == self.config.max_total_runners,
                total == if total_max(self.config.repos@, i as int) < limit {
                    total_max(self.config.repos@, i as int)
                } else {
                    limit as int
                },
                repos@.len() == i,
                forall|k: int|
                    0 <= k < i ==> is_repo_snapshot(
                        #[trigger] repos@[k],
                        self.config.repos@[k],
                        self.runners@,
                    ),
        {
            let rc = &self.config.repos[i];
            let sum: u64 = total + rc.max as u64;
            total =
            if sum < limit {
                sum
            } else {
                limit
            };
            repos.push(
                RepoSnapshot {
                    repo: rc.repo.clone(),
                    runtime: rc.runtime.name(),
                    reserved: rc.reserved,
                    max: rc.max,
                    live: self.live_count(Some(rc.repo.as_str())),
                },
            );
        }
        let mut degraded: Vec<DegradedSnapshot> = Vec::new();
        for i in 0..self.degraded.len()
            invariant
                degraded@.len() == i,
                forall|k: int|
                    0 <= k < i ==> (#[trigger] degraded@[k]).runtime@
                        == self.degraded@[k].runtime.spec_name() && degraded@[k].reason@
                        == self.degraded@[k].reason@,
        {
            degraded.push(
                DegradedSnapshot {
                    runtime: self.degraded[i].runtime.name(),
                    reason: self.degraded[i].reason.clone(),
                },
            );
        }
        let ghost p = is_live(None);
        let mut runners: Vec<RunnerSnapshot> = Vec::new();
        for i in 0..self.runners.len()
            invariant
                p == is_live(None),
                runners@.len() == self.runners@.take(i as int).filter(p).len(),
                forall|k: int|
                    0 <= k < runners@.len() ==> is_runner_snapshot(
                        #[trigger] runners@[k],
                        self.runners@.take(i as int).filter(p)[k],
                    ),
        {
            proof {
                order::lemma_filter_step(self.runners@, p, i as int);
            }
            if self.runners[i].info.state.live() {
                runners.push(self.snapshot_of(i));
            }
        }
        assert(self.runners@.take(self.runners@.len() as int) =~= self.runners@);
        Snapshot {
            capacity: total,
            max_total_runners: self.config.max_total_runners,
            degraded,
            repos,
            runners,
        }
    }
}

} // verus!

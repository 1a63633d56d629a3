//! Configuration: sections of a config file, with `[defaults]` merged into
//! each repo and the documented value for whatever is left out.

use crate::number;
use crate::paths;
use crate::pattern;
use crate::text;
use vstd::prelude::*;

verus! {

/// The container runtime that hosts a repo's runners.
#[derive(Debug, Clone, Copy, PartialEq, Eq, Structural, Hash)]
pub enum RuntimeKind {
    Docker,
    AppleContainer,
}

impl RuntimeKind {
    /// The runtime's name in config files and in the journal.
    pub open spec fn spec_name(self) -> Seq<char> {
        match self {
            RuntimeKind::Docker => "docker"@,
            RuntimeKind::AppleContainer => "apple-container"@,
        }
    }

    pub fn name(self) -> (r: &'static str)
        ensures
            r@ == self.spec_name(),
    {
        match self {
            RuntimeKind::Docker => "docker",
            RuntimeKind::AppleContainer => "apple-container",
        }
    }
}

/// Settings of one repo, or of `[defaults]`: what a section leaves out is absent.
#[derive(Debug)]
pub struct RepoDefaults {
    pub runtime: Option<RuntimeKind>,
    pub labels: Option<Vec<String>>,
    pub image: Option<String>,
    pub reserved: Option<u32>,
    pub max: Option<u32>,
    pub job_timeout_min: Option<u64>,
    pub caffeinate: Option<bool>,
    pub registry_mirror: Option<String>,
    pub docker_layer_cache: Option<bool>,
}

/// One `[[repos]]` entry.
#[derive(Debug)]
pub struct RepoEntry {
    pub repo: String,
    pub overrides: RepoDefaults,
}

/// The `[supervisor]` section.
#[derive(Debug)]
pub struct SupervisorSection {
    pub dashboard_port: Option<u16>,
    pub max_total_runners: Option<u32>,
    pub data_dir: Option<String>,
    pub keep_failed_workspaces: Option<u32>,
    pub failed_workspaces_max_age_days: Option<u64>,
    pub failed_workspaces_max_bytes: Option<u64>,
    pub keep_job_logs: Option<u32>,
    pub job_logs_max_age_days: Option<u64>,
    pub job_logs_max_bytes: Option<u64>,
    pub job_history_days: Option<u64>,
    pub event_history_days: Option<u64>,
    pub service_log_max_bytes: Option<u64>,
    pub service_log_backups: Option<u32>,
    pub poll_interval_s: Option<u64>,
    pub idle_decay_min: Option<u64>,
    pub docker_cache_max_age_days: Option<u64>,
}

/// The `[toolchains]` section.
#[derive(Debug)]
pub struct ToolchainsSection {
    pub python: Option<String>,
    pub node: Option<String>,
}

/// One `[[monitors]]` rule: jobs in its scope that run long, fail repeatedly,
/// are OOM-killed or log a match of a regular expression.
#[derive(Debug)]
pub struct MonitorConfig {
    pub name: String,
    pub repo: Option<String>,
    pub workflow: Option<String>,
    pub job_name: Option<String>,
    pub branch: Option<String>,
    pub duration_min: Option<u64>,
    pub consecutive_failures: Option<u32>,
    pub oom: bool,
    pub log_pattern: Option<String>,
    pub retain_workspace: bool,
}

impl Clone for MonitorConfig {
    fn clone(&self) -> (r: Self)
        ensures
            r == *self,
    {
        MonitorConfig {
            name: self.name.clone(),
            repo: text::clone_opt(&self.repo),
            workflow: text::clone_opt(&self.workflow),
            job_name: text::clone_opt(&self.job_name),
            branch: text::clone_opt(&self.branch),
            duration_min: self.duration_min,
            consecutive_failures: self.consecutive_failures,
            oom: self.oom,
            log_pattern: text::clone_opt(&self.log_pattern),
            retain_workspace: self.retain_workspace,
        }
    }
}

/// A config file's sections as written.
#[derive(Debug)]
pub struct RawConfig {
    pub supervisor: SupervisorSection,
    pub auth_source: Option<String>,
    pub toolchains: ToolchainsSection,
    pub defaults: RepoDefaults,
    pub repos: Vec<RepoEntry>,
    pub monitors: Vec<MonitorConfig>,
}

/// The settings of one served repo.
#[derive(Debug)]
pub struct RepoConfig {
    /// "owner/name".
    pub repo: String,
    pub runtime: RuntimeKind,
    pub labels: Vec<String>,
    pub image: String,
    /// Warm listeners always kept alive (0 = fully on-demand).
    pub reserved: u32,
    /// Burst ceiling: the poller may scale up to this many concurrent runners.
    pub max: u32,
    pub job_timeout_min: u64,
    pub caffeinate: bool,
    pub registry_mirror: Option<String>,
    /// Keep build layers in a volume per concurrency slot.
    pub docker_layer_cache: bool,
}

/// Two repos are configured alike.
pub open spec fn same_repo(a: RepoConfig, b: RepoConfig) -> bool {
    &&& a.labels@ == b.labels@
    &&& a == RepoConfig { labels: a.labels, ..b }
}

impl Clone for RepoConfig {
    fn clone(&self) -> (r: Self)
        ensures
            same_repo(r, *self),
    {
        RepoConfig {
            repo: self.repo.clone(),
            runtime: self.runtime,
            labels: text::clone_strings(&self.labels),
            image: self.image.clone(),
            reserved: self.reserved,
            max: self.max,
            job_timeout_min: self.job_timeout_min,
            caffeinate: self.caffeinate,
            registry_mirror: text::clone_opt(&self.registry_mirror),
            docker_layer_cache: self.docker_layer_cache,
        }
    }
}

impl RepoConfig {
    /// The repo's name as part of a runner's name.
    pub fn slug(&self) -> (r: String)
        ensures
            r@ == text::replace(self.repo@, '/', '-'),
    {
        text::replaced(self.repo.as_str(), '/', '-')
    }
}

/// A complete configuration.
#[derive(Debug)]
pub struct Config {
    pub dashboard_port: u16,
    pub max_total_runners: u32,
    pub data_dir: String,
    /// How many failed-job workspaces to keep as post-mortem images (0 = off).
    pub keep_failed_workspaces: u32,
    pub failed_workspaces_max_age_days: Option<u64>,
    pub failed_workspaces_max_bytes: Option<u64>,
    /// How many jobs' captured log dirs to keep.
    pub keep_job_logs: u32,
    pub job_logs_max_age_days: Option<u64>,
    pub job_logs_max_bytes: Option<u64>,
    pub job_history_days: u64,
    pub event_history_days: u64,
    pub service_log_max_bytes: u64,
    pub service_log_backups: u32,
    /// Queued-jobs poll cadence for repos that can burst (max > reserved).
    pub poll_interval_s: u64,
    /// Minutes an idle burst runner (beyond reserved) lives before decay.
    pub idle_decay_min: u64,
    /// Days an unused layer cache is kept (0 = forever).
    pub docker_cache_max_age_days: u64,
    pub auth_source: String,
    pub python_version: String,
    pub node_version: String,
    pub monitors: Vec<MonitorConfig>,
    pub repos: Vec<RepoConfig>,
}

/// Two configurations are alike.
pub open spec fn same_config(a: Config, b: Config) -> bool {
    &&& a == Config { monitors: a.monitors, repos: a.repos, ..b }
    &&& a.monitors@ == b.monitors@
    &&& a.repos@.len() == b.repos@.len()
    &&& forall|i: int| 0 <= i < a.repos@.len() ==> same_repo(#[trigger] a.repos@[i], b.repos@[i])
}

impl Clone for Config {
    fn clone(&self) -> (r: Self)
        ensures
            same_config(r, *self),
    {
        let mut repos: Vec<RepoConfig> = Vec::new();
        for i in 0..self.repos.len()
            invariant
                repos@.len() == i,
                forall|k: int| 0 <= k < i ==> same_repo(#[trigger] repos@[k], self.repos@[k]),
        {
            repos.push(self.repos[i].clone());
        }
        let mut monitors: Vec<MonitorConfig> = Vec::new();
        for i in 0..self.monitors.len()
            invariant
                monitors@ == self.monitors@.take(i as int),
        {
            monitors.push(self.monitors[i].clone());
            assert(self.monitors@.take(i + 1) =~= self.monitors@.take(i as int).push(
                self.monitors@[i as int],
            ));
        }
        assert(self.monitors@.take(self.monitors@.len() as int) =~= self.monitors@);
        Config {
            dashboard_port: self.dashboard_port,
            max_total_runners: self.max_total_runners,
            data_dir: self.data_dir.clone(),
            keep_failed_workspaces: self.keep_failed_workspaces,
            failed_workspaces_max_age_days: self.failed_workspaces_max_age_days,
            failed_workspaces_max_bytes: self.failed_workspaces_max_bytes,
            keep_job_logs: self.keep_job_logs,
            job_logs_max_age_days: self.job_logs_max_age_days,
            job_logs_max_bytes: self.job_logs_max_bytes,
            job_history_days: self.job_history_days,
            event_history_days: self.event_history_days,
            service_log_max_bytes: self.service_log_max_bytes,
            service_log_backups: self.service_log_backups,
            poll_interval_s: self.poll_interval_s,
            idle_decay_min: self.idle_decay_min,
            docker_cache_max_age_days: self.docker_cache_max_age_days,
            auth_source: self.auth_source.clone(),
            python_version: self.python_version.clone(),
            node_version: self.node_version.clone(),
            monitors,
            repos,
        }
    }
}

/// The runtimes of the repos, in their order, without repetitions side by side.
pub open spec fn runtimes_of(repos: Seq<RepoConfig>) -> Seq<RuntimeKind>
    decreases repos.len(),
{
    if repos.len() == 0 {
        Seq::empty()
    } else {
        let before = runtimes_of(repos.drop_last());
        if before.len() > 0 && before.last() == repos.last().runtime {
            before
        } else {
            before.push(repos.last().runtime)
        }
    }
}

impl Config {
    /// Where the journal is kept.
    pub fn db_path(&self) -> (r: String)
        ensures
            r@ == paths::joined(self.data_dir@, "homerunner.db"@),
    {
        paths::join(self.data_dir.as_str(), "homerunner.db")
    }

    /// What every loaded configuration satisfies: there is a repo, each repo
    /// has an owner and room for its reserved runners, and every monitor's
    /// pattern compiles.
    pub open spec fn valid(self) -> bool {
        &&& self.repos@.len() > 0
        &&& forall|i: int|
            0 <= i < self.repos@.len() ==> {
                &&& (#[trigger] self.repos@[i]).repo@.contains('/')
                &&& self.repos@[i].reserved <= self.repos@[i].max
                &&& 1 <= self.repos@[i].max
            }
        &&& forall|i: int|
            0 <= i < self.monitors@.len() ==> pattern_compiles(#[trigger] self.monitors@[i])
    }

    /// The runtimes to look after.
    pub fn runtimes(&self) -> (r: Vec<RuntimeKind>)
        ensures
            r@ == runtimes_of(self.repos@),
    {
        let mut r: Vec<RuntimeKind> = Vec::new();
        for i in 0..self.repos.len()
            invariant
                r@ == runtimes_of(self.repos@.take(i as int)),
        {
            assert(self.repos@.take(i + 1).drop_last() =~= self.repos@.take(i as int));
            let kind = self.repos[i].runtime;
            if r.len() == 0 || r[r.len() - 1] != kind {
                r.push(kind);
            }
        }
        assert(self.repos@.take(self.repos@.len() as int) =~= self.repos@);
        r
    }
}

/// A monitor without a log pattern, or with one that compiles.
pub open spec fn pattern_compiles(m: MonitorConfig) -> bool {
    m.log_pattern matches Some(p) ==> pattern::regex_compiles(p@)
}

/// Why a config file is rejected.
#[derive(Debug, PartialEq)]
pub enum ConfigError {
    RepoNeedsOwner { repo: String },
    NoRepos,
    MaxBelowReserved { repo: String, max: u32, reserved: u32 },
    MaxIsZero { repo: String },
    BadLogPattern { monitor: String, pattern: String },
}

impl ConfigError {
    pub open spec fn spec_message(self) -> Seq<char> {
        match self {
            ConfigError::RepoNeedsOwner { repo } =>
                "[[repos]] entry needs repo = \"owner/name\", got: "@ + repo@,
            ConfigError::NoRepos => "no [[repos]] configured"@,
            ConfigError::MaxBelowReserved { repo, max, reserved } => "repo "@ + repo@ + ": max ("@
                + number::dec(max as nat) + ") must be >= reserved ("@ + number::dec(
                reserved as nat,
            ) + ")"@,
            ConfigError::MaxIsZero { repo } => "repo "@ + repo@ + ": max must be at least 1"@,
            ConfigError::BadLogPattern { monitor, pattern } => "monitor "@ + monitor@
                + ": invalid log_pattern "@ + pattern@,
        }
    }

    pub fn message(&self) -> (r: String)
        ensures
            r@ == self.spec_message(),
    {
        let mut r = String::new();
        match self {
            ConfigError::RepoNeedsOwner { repo } => {
                r.append("[[repos]] entry needs repo = \"owner/name\", got: ");
                r.append(repo.as_str());
            },
            ConfigError::NoRepos => {
                r.append("no [[repos]] configured");
            },
            ConfigError::MaxBelowReserved { repo, max, reserved } => {
                r.append("repo ");
                r.append(repo.as_str());
                r.append(": max (");
                number::push_number(&mut r, *max as u64);
                r.append(") must be >= reserved (");
                number::push_number(&mut r, *reserved as u64);
                r.append(")");
            },
            ConfigError::MaxIsZero { repo } => {
                r.append("repo ");
                r.append(repo.as_str());
                r.append(": max must be at least 1");
            },
            ConfigError::BadLogPattern { monitor, pattern } => {
                r.append("monitor ");
                r.append(monitor.as_str());
                r.append(": invalid log_pattern ");
                r.append(pattern.as_str());
            },
        }
        assert(r@ =~= self.spec_message());
        r
    }
}

// -- paths below the home directory ------------------------------------------

/// `dirs::home_dir`: the user's home directory, if there is one. It depends on
/// the user and the environment, so nothing is claimed of it.
#[verifier::external_body]
fn home_dir() -> (r: Option<String>) {
    dirs::home_dir().map(|home| home.to_string_lossy().into_owned())
}

/// A path with a leading `~/` replaced by the home directory, where there is one.
pub open spec fn expanded(path: Seq<char>, home: Option<Seq<char>>) -> Seq<char> {
    if "~/"@.is_prefix_of(path) && home is Some {
        paths::joined(home->0, path.skip("~/"@.len() as int))
    } else {
        path
    }
}

/// Expands a leading `~/` with the given home directory.
pub fn expand_tilde_in(path: &str, home: &Option<String>) -> (r: String)
    ensures
        r@ == expanded(path@, text::opt_text(*home)),
{
    let p = text::chars(path);
    if text::starts(&p, "~/") {
        if let Some(h) = home {
            proof {
                reveal_strlit("~/");
            }
            let rest = text::string(vstd::slice::slice_subrange(&p, 2, p.len()));
            assert(rest@ =~= path@.skip("~/"@.len() as int));
            return paths::join(h.as_str(), rest.as_str());
        }
    }
    path.to_string()
}

/// Expands a leading `~/` with the user's home directory.
pub fn expand_tilde(path: &str) -> (r: String)
    ensures
        exists|home: Option<Seq<char>>| r@ == #[trigger] expanded(path@, home),
{
    let home = home_dir();
    let r = expand_tilde_in(path, &home);
    assert(r@ == expanded(path@, text::opt_text(home)));
    r
}

// -- merging and validation --------------------------------------------------

/// A repo's own setting, else the default's, else the documented value.
pub open spec fn pick<T>(own: Option<T>, default: Option<T>, documented: T) -> T {
    match own {
        Some(v) => v,
        None => match default {
            Some(v) => v,
            None => documented,
        },
    }
}

fn choose_setting<T: Copy>(own: Option<T>, default: Option<T>, documented: T) -> (r: T)
    ensures
        r == pick(own, default, documented),
{
    match own {
        Some(v) => v,
        None => match default {
            Some(v) => v,
            None => documented,
        },
    }
}

fn choose_text(own: &Option<String>, default: &Option<String>, documented: &str) -> (r: String)
    ensures
        r@ == pick(text::opt_text(*own), text::opt_text(*default), documented@),
{
    match own {
        Some(v) => v.clone(),
        None => match default {
            Some(v) => v.clone(),
            None => documented.to_string(),
        },
    }
}

/// The texts of an optional list of strings.
pub open spec fn opt_texts(o: Option<Vec<String>>) -> Option<Seq<Seq<char>>> {
    match o {
        Some(v) => Some(text::texts(v@)),
        None => None,
    }
}

/// The labels of a repo that names none.
pub open spec fn documented_labels() -> Seq<Seq<char>> {
    seq!["self-hosted"@, "linux"@, "x64"@]
}

/// `rc` is the entry `e` with what it leaves out taken from `d`, and what that
/// leaves out from the documented values.
pub open spec fn merged(rc: RepoConfig, e: RepoEntry, d: RepoDefaults, macos: bool) -> bool {
    let o = e.overrides;
    &&& rc.repo@ == e.repo@
    &&& rc.runtime == pick(o.runtime, d.runtime, RuntimeKind::Docker)
    &&& text::texts(rc.labels@) == pick(
        opt_texts(o.labels),
        opt_texts(d.labels),
        documented_labels(),
    )
    &&& rc.image@ == pick(
        text::opt_text(o.image),
        text::opt_text(d.image),
        "homerunner-runner:local"@,
    )
    &&& rc.reserved == pick(o.reserved, d.reserved, 1u32)
    &&& rc.max == pick(o.max, d.max, 2u32)
    &&& rc.job_timeout_min == pick(o.job_timeout_min, d.job_timeout_min, 120u64)
    &&& rc.caffeinate == pick(o.caffeinate, d.caffeinate, macos)
    &&& text::opt_text(rc.registry_mirror) == (match o.registry_mirror {
        Some(m) => Some(m@),
        None => text::opt_text(d.registry_mirror),
    })
    &&& rc.docker_layer_cache == pick(o.docker_layer_cache, d.docker_layer_cache, false)
}

fn merge(e: &RepoEntry, d: &RepoDefaults, macos: bool) -> (rc: RepoConfig)
    ensures
        merged(rc, *e, *d, macos),
{
    let o = &e.overrides;
    let labels = match &o.labels {
        Some(v) => text::clone_strings(v),
        None => match &d.labels {
            Some(v) => text::clone_strings(v),
            None => {
                let mut v: Vec<String> = Vec::new();
                v.push("self-hosted".to_string());
                v.push("linux".to_string());
                v.push("x64".to_string());
                assert(text::texts(v@) =~= documented_labels());
                v
            },
        },
    };
    RepoConfig {
        repo: e.repo.clone(),
        runtime: choose_setting(o.runtime, d.runtime, RuntimeKind::Docker),
        labels,
        image: choose_text(&o.image, &d.image, "homerunner-runner:local"),
        reserved: choose_setting(o.reserved, d.reserved, 1u32),
        max: choose_setting(o.max, d.max, 2u32),
        job_timeout_min: choose_setting(o.job_timeout_min, d.job_timeout_min, 120u64),
        caffeinate: choose_setting(o.caffeinate, d.caffeinate, macos),
        registry_mirror: match &o.registry_mirror {
            Some(m) => Some(m.clone()),
            None => text::clone_opt(&d.registry_mirror),
        },
        docker_layer_cache: choose_setting(o.docker_layer_cache, d.docker_layer_cache, false),
    }
}

/// The ceiling that an entry comes to.
pub open spec fn entry_max(raw: RawConfig, i: int) -> u32 {
    pick(raw.repos@[i].overrides.max, raw.defaults.max, 2u32)
}

/// The warm runners that an entry comes to.
pub open spec fn entry_reserved(raw: RawConfig, i: int) -> u32 {
    pick(raw.repos@[i].overrides.reserved, raw.defaults.reserved, 1u32)
}

/// An entry names its repo with an owner.
pub open spec fn has_owner(raw: RawConfig, i: int) -> bool {
    raw.repos@[i].repo@.contains('/')
}

/// An entry's ceiling is at least one and holds its reserved runners.
pub open spec fn has_room(raw: RawConfig, i: int) -> bool {
    entry_reserved(raw, i) <= entry_max(raw, i) && entry_max(raw, i) >= 1
}

/// Every entry has an owner.
pub open spec fn owners_ok(raw: RawConfig) -> bool {
    forall|i: int| 0 <= i < raw.repos@.len() ==> #[trigger] has_owner(raw, i)
}

/// Every entry has room.
pub open spec fn rooms_ok(raw: RawConfig) -> bool {
    forall|i: int| 0 <= i < raw.repos@.len() ==> #[trigger] has_room(raw, i)
}

/// Every monitor's pattern compiles.
pub open spec fn patterns_ok(raw: RawConfig) -> bool {
    forall|i: int|
        0 <= i < raw.monitors@.len() ==> pattern_compiles(#[trigger] raw.monitors@[i])
}

/// What a sound config file comes to.
pub open spec fn settled(
    c: Config,
    raw: RawConfig,
    macos: bool,
    home: Option<Seq<char>>,
) -> bool {
    let s = raw.supervisor;
    &&& c.repos@.len() == raw.repos@.len()
    &&& forall|i: int|
        0 <= i < raw.repos@.len() ==> merged(
            #[trigger] c.repos@[i],
            raw.repos@[i],
            raw.defaults,
            macos,
        )
    &&& c.monitors@ == raw.monitors@
    &&& c.dashboard_port == pick(s.dashboard_port, None, 4123u16)
    &&& c.max_total_runners == pick(s.max_total_runners, None, 4u32)
    &&& c.keep_failed_workspaces == pick(s.keep_failed_workspaces, None, 2u32)
    &&& c.failed_workspaces_max_age_days == s.failed_workspaces_max_age_days
    &&& c.failed_workspaces_max_bytes == s.failed_workspaces_max_bytes
    &&& c.keep_job_logs == pick(s.keep_job_logs, None, 100u32)
    &&& c.job_logs_max_age_days == s.job_logs_max_age_days
    &&& c.job_logs_max_bytes == s.job_logs_max_bytes
    &&& c.job_history_days == pick(s.job_history_days, None, 365u64)
    &&& c.event_history_days == pick(s.event_history_days, None, 7u64)
    &&& c.service_log_max_bytes == pick(s.service_log_max_bytes, None, 10_485_760u64)
    &&& c.service_log_backups == pick(s.service_log_backups, None, 3u32)
    &&& c.poll_interval_s == pick(s.poll_interval_s, None, 30u64)
    &&& c.idle_decay_min == pick(s.idle_decay_min, None, 10u64)
    &&& c.docker_cache_max_age_days == pick(s.docker_cache_max_age_days, None, 30u64)
    &&& c.data_dir@ == expanded(
        pick(text::opt_text(s.data_dir), None, "~/.local/share/homerunner"@),
        home,
    )
    &&& c.auth_source@ == pick(text::opt_text(raw.auth_source), None, "gh"@)
    &&& c.python_version@ == pick(text::opt_text(raw.toolchains.python), None, "3.13.1"@)
    &&& c.node_version@ == pick(text::opt_text(raw.toolchains.node), None, "24.14.0"@)
}

/// A config file's sections come to a configuration, whatever the patterns of
/// its monitors, exactly if every entry has an owner, there is an entry and
/// every entry has room; otherwise the first failing test, in this order, is
/// told.
pub open spec fn assembled(
    r: Result<Config, ConfigError>,
    raw: RawConfig,
    macos: bool,
    home: Option<Seq<char>>,
) -> bool {
    match r {
        Ok(c) => {
            &&& owners_ok(raw) && raw.repos@.len() > 0 && rooms_ok(raw)
            &&& settled(c, raw, macos, home)
        },
        Err(ConfigError::RepoNeedsOwner { repo }) => exists|i: int|
            {
                &&& 0 <= i < raw.repos@.len()
                &&& !(#[trigger] has_owner(raw, i))
                &&& forall|j: int| 0 <= j < i ==> has_owner(raw, j)
                &&& repo@ == raw.repos@[i].repo@
            },
        Err(ConfigError::NoRepos) => raw.repos@.len() == 0,
        Err(ConfigError::MaxBelowReserved { repo, max, reserved }) => owners_ok(raw) && exists|i: int|
            {
                &&& 0 <= i < raw.repos@.len()
                &&& !(#[trigger] has_room(raw, i))
                &&& forall|j: int| 0 <= j < i ==> has_room(raw, j)
                &&& repo@ == raw.repos@[i].repo@
                &&& max == entry_max(raw, i)
                &&& reserved == entry_reserved(raw, i)
                &&& max < reserved
            },
        Err(ConfigError::MaxIsZero { repo }) => owners_ok(raw) && exists|i: int|
            {
                &&& 0 <= i < raw.repos@.len()
                &&& !(#[trigger] has_room(raw, i))
                &&& forall|j: int| 0 <= j < i ==> has_room(raw, j)
                &&& repo@ == raw.repos@[i].repo@
                &&& entry_max(raw, i) == 0 && entry_reserved(raw, i) == 0
            },
        Err(ConfigError::BadLogPattern { .. }) => false,
    }
}

/// A config file comes to a configuration exactly if every entry has an
/// owner, there is an entry, every entry has room and every pattern compiles;
/// otherwise the first failing test, in this order, is told.
pub open spec fn outcome(
    r: Result<Config, ConfigError>,
    raw: RawConfig,
    macos: bool,
    home: Option<Seq<char>>,
) -> bool {
    match r {
        Ok(_) => assembled(r, raw, macos, home) && patterns_ok(raw),
        Err(ConfigError::BadLogPattern { monitor, pattern }) => {
            &&& owners_ok(raw) && raw.repos@.len() > 0 && rooms_ok(raw)
            &&& exists|i: int|
                {
                    &&& 0 <= i < raw.monitors@.len()
                    &&& !pattern_compiles(#[trigger] raw.monitors@[i])
                    &&& forall|j: int|
                        0 <= j < i ==> pattern_compiles(#[trigger] raw.monitors@[j])
                    &&& monitor@ == raw.monitors@[i].name@
                    &&& text::opt_text(raw.monitors@[i].log_pattern) == Some(pattern@)
                }
        },
        Err(_) => assembled(r, raw, macos, home),
    }
}

/// The configuration that a config file's sections come to, whatever the
/// patterns of its monitors.
pub fn assemble(raw: &RawConfig, macos: bool, home: &Option<String>) -> (r: Result<
    Config,
    ConfigError,
>)
    ensures
        assembled(r, *raw, macos, text::opt_text(*home)),
{
    let mut repos: Vec<RepoConfig> = Vec::new();
    for i in 0..raw.repos.len()
        invariant
            repos@.len() == i,
            forall|j: int| 0 <= j < i ==> #[trigger] has_owner(*raw, j),
            forall|j: int|
                0 <= j < i ==> merged(#[trigger] repos@[j], raw.repos@[j], raw.defaults, macos),
    {
        let entry = &raw.repos[i];
        let name = text::chars(entry.repo.as_str());
        if !text::has_char(&name, '/') {
            assert(!has_owner(*raw, i as int));
            return Err(ConfigError::RepoNeedsOwner { repo: entry.repo.clone() });
        }
        assert(has_owner(*raw, i as int));
        repos.push(merge(entry, &raw.defaults, macos));
    }
    if repos.len() == 0 {
        return Err(ConfigError::NoRepos);
    }
    for i in 0..repos.len()
        invariant
            owners_ok(*raw),
            repos@.len() == raw.repos@.len(),
            forall|j: int|
                0 <= j < repos@.len() ==> merged(
                    #[trigger] repos@[j],
                    raw.repos@[j],
                    raw.defaults,
                    macos,
                ),
            forall|j: int| 0 <= j < i ==> #[trigger] has_room(*raw, j),
    {
        let rc = &repos[i];
        assert(merged(repos@[i as int], raw.repos@[i as int], raw.defaults, macos));
        if rc.max < rc.reserved {
            assert(!has_room(*raw, i as int));
            return Err(
                ConfigError::MaxBelowReserved {
                    repo: rc.repo.clone(),
                    max: rc.max,
                    reserved: rc.reserved,
                },
            );
        }
        if rc.max == 0 {
            assert(!has_room(*raw, i as int));
            return Err(ConfigError::MaxIsZero { repo: rc.repo.clone() });
        }
        assert(has_room(*raw, i as int));
    }
    let mut monitors: Vec<MonitorConfig> = Vec::new();
    for i in 0..raw.monitors.len()
        invariant
            owners_ok(*raw),
            raw.repos@.len() > 0,
            rooms_ok(*raw),
            monitors@ == raw.monitors@.take(i as int),
    {
        monitors.push(raw.monitors[i].clone());
        assert(raw.monitors@.take(i + 1) =~= raw.monitors@.take(i as int).push(
            raw.monitors@[i as int],
        ));
    }
    assert(raw.monitors@.take(raw.monitors@.len() as int) =~= raw.monitors@);
    let s = &raw.supervisor;
    let data_dir = choose_text(&s.data_dir, &None, "~/.local/share/homerunner");
    Ok(
        Config {
            dashboard_port: choose_setting(s.dashboard_port, None, 4123u16),
            max_total_runners: choose_setting(s.max_total_runners, None, 4u32),
            data_dir: expand_tilde_in(data_dir.as_str(), home),
            keep_failed_workspaces: choose_setting(s.keep_failed_workspaces, None, 2u32),
            failed_workspaces_max_age_days: s.failed_workspaces_max_age_days,
            failed_workspaces_max_bytes: s.failed_workspaces_max_bytes,
            keep_job_logs: choose_setting(s.keep_job_logs, None, 100u32),
            job_logs_max_age_days: s.job_logs_max_age_days,
            job_logs_max_bytes: s.job_logs_max_bytes,
            job_history_days: choose_setting(s.job_history_days, None, 365u64),
            event_history_days: choose_setting(s.event_history_days, None, 7u64),
            service_log_max_bytes: choose_setting(s.service_log_max_bytes, None, 10_485_760u64),
            service_log_backups: choose_setting(s.service_log_backups, None, 3u32),
            poll_interval_s: choose_setting(s.poll_interval_s, None, 30u64),
            idle_decay_min: choose_setting(s.idle_decay_min, None, 10u64),
            docker_cache_max_age_days: choose_setting(s.docker_cache_max_age_days, None, 30u64),
            auth_source: choose_text(&raw.auth_source, &None, "gh"),
            python_version: choose_text(&raw.toolchains.python, &None, "3.13.1"),
            node_version: choose_text(&raw.toolchains.node, &None, "24.14.0"),
            monitors,
            repos,
        },
    )
}

/// The configuration that a config file's sections come to, given the home
/// directory and whether this is macOS.
pub fn resolve(raw: &RawConfig, macos: bool, home: &Option<String>) -> (r: Result<
    Config,
    ConfigError,
>)
    ensures
        outcome(r, *raw, macos, text::opt_text(*home)),
{
    let r = assemble(raw, macos, home);
    if r.is_err() {
        return r;
    }
    for i in 0..raw.monitors.len()
        invariant
            r is Ok,
            assembled(r, *raw, macos, text::opt_text(*home)),
            forall|j: int| 0 <= j < i ==> pattern_compiles(#[trigger] raw.monitors@[j]),
    {
        let m = &raw.monitors[i];
        if let Some(p) = &m.log_pattern {
            if !pattern::compiles(p.as_str()) {
                return Err(
                    ConfigError::BadLogPattern { monitor: m.name.clone(), pattern: p.clone() },
                );
            }
        }
    }
    r
}

/// The configuration that a config file's sections come to on this machine;
/// `macos` says whether jobs keep the machine awake unless told otherwise.
pub fn load(raw: &RawConfig, macos: bool) -> (r: Result<Config, ConfigError>)
    ensures
        exists|home: Option<Seq<char>>| #[trigger] outcome(r, *raw, macos, home),
{
    let home = home_dir();
    let r = resolve(raw, macos, &home);
    assert(outcome(r, *raw, macos, text::opt_text(home)));
    r
}

/// Every configuration that loads is valid, whatever the home directory is.
pub proof fn law_loaded_configurations_are_valid(
    c: Config,
    raw: RawConfig,
    macos: bool,
    home: Option<Seq<char>>,
)
    requires
        outcome(Ok(c), raw, macos, home),
    ensures
        c.valid(),
{
    assert forall|i: int| 0 <= i < c.repos@.len() implies {
        &&& (#[trigger] c.repos@[i]).repo@.contains('/')
        &&& c.repos@[i].reserved <= c.repos@[i].max
        &&& 1 <= c.repos@[i].max
    } by {
        assert(merged(c.repos@[i], raw.repos@[i], raw.defaults, macos));
        assert(has_owner(raw, i));
        assert(has_room(raw, i));
    }
}

} // verus!

//! Settings: what a config file comes to, and when it is refused.

use crate::config;
use crate::config::{Config, ConfigError, RawConfig, RepoConfig, RepoDefaults, RuntimeKind};
use crate::text;
use vstd::prelude::*;

verus! {

/// What the supervisor's section says stands; what it leaves out is the documented
/// value, and there is no limit on age or size where none is given.
pub proof fn law_settings_that_are_left_out_have_their_documented_values(
    raw: RawConfig,
    macos: bool,
    home: Option<String>,
    c: Config,
)
    requires
        call_ensures(config::resolve, (&raw, macos, &home), Ok(c)),
    ensures
        raw.supervisor.dashboard_port is Some ==> c.dashboard_port == raw.supervisor.dashboard_port->0,
        raw.supervisor.dashboard_port is None ==> c.dashboard_port == 4123,
        raw.supervisor.max_total_runners is Some ==> c.max_total_runners == raw.supervisor.max_total_runners->0,
        raw.supervisor.max_total_runners is None ==> c.max_total_runners == 4,
        raw.supervisor.keep_failed_workspaces is Some ==> c.keep_failed_workspaces == raw.supervisor.keep_failed_workspaces->0,
        raw.supervisor.keep_failed_workspaces is None ==> c.keep_failed_workspaces == 2,
        raw.supervisor.keep_job_logs is Some ==> c.keep_job_logs == raw.supervisor.keep_job_logs->0,
        raw.supervisor.keep_job_logs is None ==> c.keep_job_logs == 100,
        raw.supervisor.job_history_days is Some ==> c.job_history_days == raw.supervisor.job_history_days->0,
        raw.supervisor.job_history_days is None ==> c.job_history_days == 365,
        raw.supervisor.event_history_days is Some ==> c.event_history_days == raw.supervisor.event_history_days->0,
        raw.supervisor.event_history_days is None ==> c.event_history_days == 7,
        raw.supervisor.service_log_max_bytes is Some ==> c.service_log_max_bytes == raw.supervisor.service_log_max_bytes->0,
        raw.supervisor.service_log_max_bytes is None ==> c.service_log_max_bytes == 10 * 1024 * 1024,
        raw.supervisor.service_log_backups is Some ==> c.service_log_backups == raw.supervisor.service_log_backups->0,
        raw.supervisor.service_log_backups is None ==> c.service_log_backups == 3,
        raw.supervisor.poll_interval_s is Some ==> c.poll_interval_s == raw.supervisor.poll_interval_s->0,
        raw.supervisor.poll_interval_s is None ==> c.poll_interval_s == 30,
        raw.supervisor.idle_decay_min is Some ==> c.idle_decay_min == raw.supervisor.idle_decay_min->0,
        raw.supervisor.idle_decay_min is None ==> c.idle_decay_min == 10,
        raw.supervisor.docker_cache_max_age_days is Some ==> c.docker_cache_max_age_days == raw.supervisor.docker_cache_max_age_days->0,
        raw.supervisor.docker_cache_max_age_days is None ==> c.docker_cache_max_age_days == 30,
        c.failed_workspaces_max_age_days == raw.supervisor.failed_workspaces_max_age_days,
        c.failed_workspaces_max_bytes == raw.supervisor.failed_workspaces_max_bytes,
        c.job_logs_max_age_days == raw.supervisor.job_logs_max_age_days,
        c.job_logs_max_bytes == raw.supervisor.job_logs_max_bytes,
        raw.auth_source is Some ==> c.auth_source@ == raw.auth_source->0@,
        raw.auth_source is None ==> c.auth_source@ == "gh"@,
        raw.toolchains.python is Some ==> c.python_version@ == raw.toolchains.python->0@,
        raw.toolchains.python is None ==> c.python_version@ == "3.13.1"@,
        raw.toolchains.node is Some ==> c.node_version@ == raw.toolchains.node->0@,
        raw.toolchains.node is None ==> c.node_version@ == "24.14.0"@,
        c.monitors@ == raw.monitors@,
        c.repos@.len() == raw.repos@.len(),
{
}

/// The data directory is the one that is given, else the documented one, below the
/// home directory where it begins with `~/`.
pub proof fn law_the_data_directory(
    raw: RawConfig,
    macos: bool,
    home: Option<String>,
    c: Config,
    dir: &str,
    expanded: String,
)
    requires
        call_ensures(config::resolve, (&raw, macos, &home), Ok(c)),
        raw.supervisor.data_dir is Some ==> dir@ == raw.supervisor.data_dir->0@,
        raw.supervisor.data_dir is None ==> dir@ == "~/.local/share/homerunner"@,
        call_ensures(config::expand_tilde_in, (dir, &home), expanded),
    ensures
        c.data_dir@ == expanded@,
{
}

/// A repo's own setting stands before the default's, and that before the
/// documented value.
pub proof fn law_a_repo_s_own_settings_come_first(
    raw: RawConfig,
    macos: bool,
    home: Option<String>,
    c: Config,
    i: int,
)
    requires
        call_ensures(config::resolve, (&raw, macos, &home), Ok(c)),
        0 <= i < raw.repos@.len(),
    ensures
        c.repos@[i].repo@ == raw.repos@[i].repo@,
        raw.repos@[i].overrides.runtime is Some ==> c.repos@[i].runtime == raw.repos@[i].overrides.runtime->0,
        raw.repos@[i].overrides.runtime is None && raw.defaults.runtime is Some ==> c.repos@[i].runtime == raw.defaults.runtime->0,
        raw.repos@[i].overrides.runtime is None && raw.defaults.runtime is None ==> c.repos@[i].runtime == RuntimeKind::Docker,
        raw.repos@[i].overrides.reserved is Some ==> c.repos@[i].reserved == raw.repos@[i].overrides.reserved->0,
        raw.repos@[i].overrides.reserved is None && raw.defaults.reserved is Some ==> c.repos@[i].reserved == raw.defaults.reserved->0,
        raw.repos@[i].overrides.reserved is None && raw.defaults.reserved is None ==> c.repos@[i].reserved == 1,
        raw.repos@[i].overrides.max is Some ==> c.repos@[i].max == raw.repos@[i].overrides.max->0,
        raw.repos@[i].overrides.max is None && raw.defaults.max is Some ==> c.repos@[i].max == raw.defaults.max->0,
        raw.repos@[i].overrides.max is None && raw.defaults.max is None ==> c.repos@[i].max == 2,
        raw.repos@[i].overrides.job_timeout_min is Some ==> c.repos@[i].job_timeout_min == raw.repos@[i].overrides.job_timeout_min->0,
        raw.repos@[i].overrides.job_timeout_min is None && raw.defaults.job_timeout_min is Some ==> c.repos@[i].job_timeout_min == raw.defaults.job_timeout_min->0,
        raw.repos@[i].overrides.job_timeout_min is None && raw.defaults.job_timeout_min is None ==> c.repos@[i].job_timeout_min == 120,
        raw.repos@[i].overrides.caffeinate is Some ==> c.repos@[i].caffeinate == raw.repos@[i].overrides.caffeinate->0,
        raw.repos@[i].overrides.caffeinate is None && raw.defaults.caffeinate is Some ==> c.repos@[i].caffeinate == raw.defaults.caffeinate->0,
        raw.repos@[i].overrides.caffeinate is None && raw.defaults.caffeinate is None ==> c.repos@[i].caffeinate == macos,
        raw.repos@[i].overrides.docker_layer_cache is Some ==> c.repos@[i].docker_layer_cache == raw.repos@[i].overrides.docker_layer_cache->0,
        raw.repos@[i].overrides.docker_layer_cache is None && raw.defaults.docker_layer_cache is Some ==> c.repos@[i].docker_layer_cache == raw.defaults.docker_layer_cache->0,
        raw.repos@[i].overrides.docker_layer_cache is None && raw.defaults.docker_layer_cache is None ==> c.repos@[i].docker_layer_cache == false,
        raw.repos@[i].overrides.image is Some ==> c.repos@[i].image@ == raw.repos@[i].overrides.image->0@,
        raw.repos@[i].overrides.image is None && raw.defaults.image is Some ==> c.repos@[i].image@ == raw.defaults.image->0@,
        raw.repos@[i].overrides.image is None && raw.defaults.image is None ==> c.repos@[i].image@ == "homerunner-runner:local"@,
        raw.repos@[i].overrides.labels is Some ==> text::texts(c.repos@[i].labels@) == text::texts(raw.repos@[i].overrides.labels->0@),
        raw.repos@[i].overrides.labels is None && raw.defaults.labels is Some ==> text::texts(c.repos@[i].labels@) == text::texts(raw.defaults.labels->0@),
        raw.repos@[i].overrides.labels is None && raw.defaults.labels is None ==> {
            &&& c.repos@[i].labels@.len() == 3
            &&& c.repos@[i].labels@[0]@ == "self-hosted"@
            &&& c.repos@[i].labels@[1]@ == "linux"@
            &&& c.repos@[i].labels@[2]@ == "x64"@
        },
        raw.repos@[i].overrides.registry_mirror is Some ==> text::opt_text(c.repos@[i].registry_mirror) == text::opt_text(raw.repos@[i].overrides.registry_mirror),
        raw.repos@[i].overrides.registry_mirror is None ==> text::opt_text(c.repos@[i].registry_mirror) == text::opt_text(raw.defaults.registry_mirror),
{
    let rc = c.repos@[i];
    assert(config::merged(rc, raw.repos@[i], raw.defaults, macos));
    if raw.repos@[i].overrides.labels is None && raw.defaults.labels is None {
        let t = text::texts(rc.labels@);
        assert(t == config::documented_labels());
        assert(t.len() == rc.labels@.len());
        assert(t[0] == rc.labels@[0]@);
        assert(t[1] == rc.labels@[1]@);
        assert(t[2] == rc.labels@[2]@);
    }
}

/// The runners that an entry reserves.
pub open spec fn reserves(raw: RawConfig, i: int) -> int {
    if raw.repos@[i].overrides.reserved is Some {
        raw.repos@[i].overrides.reserved->0 as int
    } else if raw.defaults.reserved is Some {
        raw.defaults.reserved->0 as int
    } else {
        1
    }
}

/// The ceiling of an entry.
pub open spec fn ceiling(raw: RawConfig, i: int) -> int {
    if raw.repos@[i].overrides.max is Some {
        raw.repos@[i].overrides.max->0 as int
    } else if raw.defaults.max is Some {
        raw.defaults.max->0 as int
    } else {
        2
    }
}

/// A config file is accepted exactly if it names a repo, every repo has an owner,
/// a ceiling of at least one that its reserved runners fit under, and every
/// monitor's pattern compiles.
pub proof fn law_config_files_are_accepted_if_they_are_sound(
    raw: RawConfig,
    macos: bool,
    home: Option<String>,
    r: Result<Config, ConfigError>,
)
    requires
        call_ensures(config::resolve, (&raw, macos, &home), r),
    ensures
        r is Ok <==> {
            &&& raw.repos@.len() > 0
            &&& forall|i: int|
                0 <= i < raw.repos@.len() ==> (#[trigger] raw.repos@[i]).repo@.contains('/')
            &&& forall|i: int|
                #![trigger raw.repos@[i]]
                0 <= i < raw.repos@.len() ==> reserves(raw, i) <= ceiling(raw, i) && ceiling(raw, i)
                    >= 1
            &&& forall|i: int|
                0 <= i < raw.monitors@.len() && (#[trigger] raw.monitors@[i]).log_pattern is Some
                    ==> crate::pattern::regex_compiles(raw.monitors@[i].log_pattern->0@)
        },
        raw.repos@.len() == 0 ==> r == Err::<Config, ConfigError>(ConfigError::NoRepos),
        r matches Err(ConfigError::RepoNeedsOwner { repo }) ==> !repo@.contains('/') && exists|i: int|
            0 <= i < raw.repos@.len() && (#[trigger] raw.repos@[i]).repo@ == repo@,
        r matches Err(ConfigError::MaxBelowReserved { repo, max, reserved }) ==> max < reserved,
{
    assert forall|i: int|
        #![trigger raw.repos@[i]]
        0 <= i < raw.repos@.len() implies reserves(raw, i) == config::entry_reserved(raw, i)
        && ceiling(raw, i) == config::entry_max(raw, i) by {}
    if r is Ok {
        assert forall|i: int| 0 <= i < raw.repos@.len() implies (
        #[trigger] raw.repos@[i]).repo@.contains('/') by {
            assert(config::has_owner(raw, i));
        }
        assert forall|i: int|
            #![trigger raw.repos@[i]]
            0 <= i < raw.repos@.len() implies reserves(raw, i) <= ceiling(raw, i) && ceiling(raw, i)
            >= 1 by {
            assert(config::has_room(raw, i));
        }
        assert forall|i: int|
            0 <= i < raw.monitors@.len() && (
            #[trigger] raw.monitors@[i]).log_pattern is Some implies crate::pattern::regex_compiles(
            raw.monitors@[i].log_pattern->0@,
        ) by {
            assert(config::pattern_compiles(raw.monitors@[i]));
        }
    } else {
        match r->Err_0 {
            ConfigError::RepoNeedsOwner { repo } => {
                let i = choose|i: int|
                    {
                        &&& 0 <= i < raw.repos@.len()
                        &&& !(#[trigger] config::has_owner(raw, i))
                        &&& forall|j: int| 0 <= j < i ==> config::has_owner(raw, j)
                        &&& repo@ == raw.repos@[i].repo@
                    };
                assert(!raw.repos@[i].repo@.contains('/'));
            },
            ConfigError::NoRepos => {},
            ConfigError::MaxBelowReserved { repo, max, reserved } => {
                let i = choose|i: int|
                    {
                        &&& 0 <= i < raw.repos@.len()
                        &&& !(#[trigger] config::has_room(raw, i))
                        &&& forall|j: int| 0 <= j < i ==> config::has_room(raw, j)
                        &&& repo@ == raw.repos@[i].repo@
                        &&& max == config::entry_max(raw, i)
                        &&& reserved == config::entry_reserved(raw, i)
                        &&& max < reserved
                    };
                assert(raw.repos@[i].repo@ == repo@);
            },
            ConfigError::MaxIsZero { repo } => {
                let i = choose|i: int|
                    {
                        &&& 0 <= i < raw.repos@.len()
                        &&& !(#[trigger] config::has_room(raw, i))
                        &&& forall|j: int| 0 <= j < i ==> config::has_room(raw, j)
                        &&& repo@ == raw.repos@[i].repo@
                        &&& config::entry_max(raw, i) == 0 && config::entry_reserved(raw, i) == 0
                    };
                assert(raw.repos@[i].repo@ == repo@);
            },
            ConfigError::BadLogPattern { monitor, pattern } => {
                let i = choose|i: int|
                    {
                        &&& 0 <= i < raw.monitors@.len()
                        &&& !config::pattern_compiles(#[trigger] raw.monitors@[i])
                        &&& forall|j: int|
                            0 <= j < i ==> config::pattern_compiles(#[trigger] raw.monitors@[j])
                        &&& monitor@ == raw.monitors@[i].name@
                        &&& text::opt_text(raw.monitors@[i].log_pattern) == Some(pattern@)
                    };
                assert(raw.monitors@[i].log_pattern is Some);
            },
        }
    }
}

/// Only a leading `~/` stands for the home directory, where there is one.
pub proof fn law_a_leading_tilde_is_the_home_directory(
    path: &str,
    home: Option<String>,
    r: String,
    base: &str,
    rest: &str,
    joined: String,
)
    requires
        call_ensures(config::expand_tilde_in, (path, &home), r),
        call_ensures(crate::paths::join, (base, rest), joined),
    ensures
        home is Some && base@ == home->0@ && path@ == "~/"@ + rest@ ==> r@ == joined@,
        home is None ==> r@ == path@,
        (forall|s: Seq<char>| path@ != #[trigger] ("~/"@ + s)) ==> r@ == path@,
{
    let p = "~/"@;
    if path@ == p + rest@ {
        assert(path@.subrange(0, p.len() as int) =~= p);
        assert(path@.skip(p.len() as int) =~= rest@);
    }
    if p.is_prefix_of(path@) {
        assert(path@ =~= p + path@.skip(p.len() as int));
    }
}

// -- places and runtimes ---------------------------------------------------------------

/// The journal is kept in the data directory.
pub proof fn law_the_journal_is_in_the_data_directory(config: Config, r: String)
    requires
        call_ensures(Config::db_path, (&config,), r),
        config.data_dir@.len() > 0,
        config.data_dir@.last() != '/',
    ensures
        r@ == config.data_dir@ + "/homerunner.db"@,
{
    reveal_strlit("homerunner.db");
    reveal_strlit("/homerunner.db");
    let d = config.data_dir@;
    assert(d + seq!['/'] + "homerunner.db"@ =~= d + "/homerunner.db"@);
}

proof fn lemma_runtimes(repos: Seq<RepoConfig>, kind: RuntimeKind)
    ensures
        config::runtimes_of(repos).contains(kind) <==> exists|i: int|
            0 <= i < repos.len() && (#[trigger] repos[i]).runtime == kind,
        repos.len() > 0 ==> config::runtimes_of(repos).len() > 0 && config::runtimes_of(repos).last()
            == repos.last().runtime,
    decreases repos.len(),
{
    if repos.len() > 0 {
        let rest = repos.drop_last();
        lemma_runtimes(rest, kind);
        let before = config::runtimes_of(rest);
        let all = config::runtimes_of(repos);
        let last = repos.last().runtime;
        if all.contains(kind) {
            let k = choose|k: int| 0 <= k < all.len() && all[k] == kind;
            if k < before.len() {
                assert(before[k] == kind);
                let i = choose|i: int| 0 <= i < rest.len() && (#[trigger] rest[i]).runtime == kind;
                assert(repos[i].runtime == kind);
            } else {
                assert(repos[repos.len() - 1].runtime == kind);
            }
        }
        if exists|i: int| 0 <= i < repos.len() && (#[trigger] repos[i]).runtime == kind {
            let i = choose|i: int| 0 <= i < repos.len() && (#[trigger] repos[i]).runtime == kind;
            if i < rest.len() {
                assert(rest[i].runtime == kind);
                let k = choose|k: int| 0 <= k < before.len() && before[k] == kind;
                assert(all[k] == kind);
            } else {
                assert(all[all.len() - 1] == kind);
            }
        }
    }
}

/// A runtime is looked after exactly if a repo runs on it.
pub proof fn law_the_runtimes_of_the_repos_are_looked_after(
    config: Config,
    r: Vec<RuntimeKind>,
    kind: RuntimeKind,
)
    requires
        call_ensures(Config::runtimes, (&config,), r),
    ensures
        r@.contains(kind) <==> exists|i: int|
            0 <= i < config.repos@.len() && (#[trigger] config.repos@[i]).runtime == kind,
{
    lemma_runtimes(config.repos@, kind);
}

/// Runtimes are named as they are written in a configuration; each has a command of its own.
pub proof fn law_runtimes_have_names(kind: RuntimeKind, name: &'static str, cli: &'static str)
    requires
        call_ensures(RuntimeKind::name, (kind,), name),
        call_ensures(RuntimeKind::cli, (kind,), cli),
    ensures
        kind == RuntimeKind::Docker ==> name@ == "docker"@ && cli@ == "docker"@,
        kind == RuntimeKind::AppleContainer ==> name@ == "apple-container"@ && cli@ == "container"@,
{
}

} // verus!

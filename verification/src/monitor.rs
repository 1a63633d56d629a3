//! Declarative monitors for long jobs and noteworthy completions.

use crate::config;
use crate::config::MonitorConfig;
use crate::number;
use crate::pattern;
use crate::store::JobInfo;
use crate::text;
use vstd::prelude::*;

verus! {

/// What is not asked for matches anything; what is must be there.
pub open spec fn agrees(expected: Option<Seq<char>>, actual: Option<Seq<char>>) -> bool {
    expected is Some ==> actual == expected
}

/// A job is in the scope of a monitor.
pub open spec fn in_scope(m: MonitorConfig, repo: Seq<char>, job: JobInfo) -> bool {
    &&& agrees(text::opt_text(m.repo), Some(repo))
    &&& agrees(text::opt_text(m.workflow), text::opt_text(job.workflow))
    &&& agrees(text::opt_text(m.job_name), text::opt_text(job.job_name))
    &&& agrees(text::opt_text(m.branch), text::opt_text(job.head_branch))
}

/// Whether a job is in the scope of a monitor: it agrees with every field that
/// the monitor names.
pub fn matches_scope(monitor: &MonitorConfig, repo: &str, job: &JobInfo) -> (r: bool)
    ensures
        r == in_scope(*monitor, repo@, *job),
{
    let repo_agrees = match &monitor.repo {
        Some(expected) => text::same_str(expected.as_str(), repo),
        None => true,
    };
    repo_agrees && field_matches(&monitor.workflow, &job.workflow) && field_matches(
        &monitor.job_name,
        &job.job_name,
    ) && field_matches(&monitor.branch, &job.head_branch)
}

/// Whether a field is what is asked for, if anything is.
pub fn field_matches(expected: &Option<String>, actual: &Option<String>) -> (r: bool)
    ensures
        r == agrees(text::opt_text(*expected), text::opt_text(*actual)),
{
    match expected {
        Some(e) => text::holds(actual, e.as_str()),
        None => true,
    }
}

/// The reason that a job ran out of memory.
pub open spec fn oom_reason(m: MonitorConfig, oom: bool) -> Seq<Seq<char>> {
    if m.oom && oom {
        seq!["runner was OOM-killed"@]
    } else {
        Seq::empty()
    }
}

/// The reason that a log matches a monitor's pattern.
pub open spec fn log_reason(m: MonitorConfig, matched: bool) -> Seq<Seq<char>> {
    match m.log_pattern {
        Some(p) if matched => seq!["log matched /"@ + p@ + "/"@],
        _ => Seq::empty(),
    }
}

/// A log matches a monitor's pattern.
pub open spec fn log_matches(m: MonitorConfig, log: Option<Seq<char>>) -> bool {
    match (m.log_pattern, log) {
        (Some(p), Some(l)) => pattern::regex_found(p@, l),
        _ => false,
    }
}

/// The reason that jobs failed repeatedly.
pub open spec fn failure_reason(
    m: MonitorConfig,
    conclusion: Option<Seq<char>>,
    consecutive_failures: u32,
) -> Seq<Seq<char>> {
    if conclusion == Some("failure"@) && m.consecutive_failures is Some && consecutive_failures
        >= m.consecutive_failures->0 {
        seq![number::dec(consecutive_failures as nat) + " consecutive failures"@]
    } else {
        Seq::empty()
    }
}

/// Why a completed job is noteworthy.
pub open spec fn reasons(
    m: MonitorConfig,
    conclusion: Option<Seq<char>>,
    oom: bool,
    matched: bool,
    consecutive_failures: u32,
) -> Seq<Seq<char>> {
    oom_reason(m, oom) + log_reason(m, matched) + failure_reason(
        m,
        conclusion,
        consecutive_failures,
    )
}

/// Why a completed job is noteworthy to a monitor whose pattern its log matches
/// or not; not at all if there is no reason.
pub fn reasons_given(
    monitor: &MonitorConfig,
    conclusion: Option<&str>,
    oom: bool,
    matched: bool,
    consecutive_failures: u32,
) -> (r: Vec<String>)
    ensures
        text::texts(r@) == reasons(
            *monitor,
            text::opt_str(conclusion),
            oom,
            matched,
            consecutive_failures,
        ),
{
    let mut found: Vec<String> = Vec::new();
    if monitor.oom && oom {
        found.push("runner was OOM-killed".to_string());
    }
    assert(text::texts(found@) =~= oom_reason(*monitor, oom));
    if let Some(p) = &monitor.log_pattern {
        if matched {
            text::push_text(&mut found, text::chain("log matched /", p.as_str(), "/"));
        }
    }
    assert(text::texts(found@) =~= oom_reason(*monitor, oom) + log_reason(*monitor, matched));
    let failed = match conclusion {
        Some(c) => text::same_str(c, "failure"),
        None => false,
    };
    if failed {
        if let Some(threshold) = monitor.consecutive_failures {
            if consecutive_failures >= threshold {
                let mut words = number::number_text(consecutive_failures as u64);
                words.append(" consecutive failures");
                text::push_text(&mut found, words);
            }
        }
    }
    assert(text::texts(found@) =~= reasons(
        *monitor,
        text::opt_str(conclusion),
        oom,
        matched,
        consecutive_failures,
    ));
    found
}

/// Why a completed job is noteworthy to a monitor.
pub fn completion_reasons(
    monitor: &MonitorConfig,
    conclusion: Option<&str>,
    oom: bool,
    log: Option<&str>,
    consecutive_failures: u32,
) -> (r: Vec<String>)
    requires
        log is Some ==> config::pattern_compiles(*monitor),
    ensures
        text::texts(r@) == reasons(
            *monitor,
            text::opt_str(conclusion),
            oom,
            log_matches(*monitor, text::opt_str(log)),
            consecutive_failures,
        ),
{
    let matched = match (&monitor.log_pattern, log) {
        (Some(p), Some(l)) => pattern::is_match(p.as_str(), l),
        _ => false,
    };
    reasons_given(monitor, conclusion, oom, matched, consecutive_failures)
}

/// Why a completed job is noteworthy to a monitor that may not be valid:
/// nothing can be said of a log for one whose pattern does not compile.
pub fn checked_completion_reasons(
    monitor: &MonitorConfig,
    conclusion: Option<&str>,
    oom: bool,
    log: Option<&str>,
    consecutive_failures: u32,
) -> (r: Option<Vec<String>>)
    ensures
        match r {
            Some(v) => (log is Some ==> config::pattern_compiles(*monitor)) && text::texts(v@)
                == reasons(
                *monitor,
                text::opt_str(conclusion),
                oom,
                log_matches(*monitor, text::opt_str(log)),
                consecutive_failures,
            ),
            None => log is Some && !config::pattern_compiles(*monitor),
        },
{
    if let Some(p) = &monitor.log_pattern {
        if log.is_some() && !pattern::compiles(p.as_str()) {
            return None;
        }
    }
    Some(completion_reasons(monitor, conclusion, oom, log, consecutive_failures))
}

/// A monitor that asks for nothing has every job in its scope.
pub proof fn law_empty_scopes_match_every_job(m: MonitorConfig, repo: Seq<char>, job: JobInfo)
    requires
        m.repo is None,
        m.workflow is None,
        m.job_name is None,
        m.branch is None,
    ensures
        in_scope(m, repo, job),
{
}

/// A monitor that watches for nothing never finds a completion noteworthy.
pub proof fn law_monitors_without_rules_are_silent(
    m: MonitorConfig,
    conclusion: Option<Seq<char>>,
    oom: bool,
    matched: bool,
    consecutive_failures: u32,
)
    requires
        !m.oom,
        m.log_pattern is None,
        m.consecutive_failures is None,
    ensures
        reasons(m, conclusion, oom, matched, consecutive_failures).len() == 0,
{
}

/// Failures alone are noteworthy from their configured number on, and not before.
pub proof fn law_failures_count_from_the_threshold(m: MonitorConfig, threshold: u32, n: u32)
    requires
        m.consecutive_failures == Some(threshold),
    ensures
        (reasons(m, Some("failure"@), false, false, n).len() > 0) == (n >= threshold),
{
}

} // verus!

//! Cleanup: what the limits on number, age and size remove, of captured logs, and
//! what the journal refers to afterwards.

use crate::cleanup;
use crate::cleanup::{cleanup_logs, select_removals, Candidate, CleanupReport, LogDir, Policy};
use crate::config::Config;
use crate::laws::logs;
use crate::store::{ArtifactRecord, Job, Store};
use std::collections::HashSet;
use vstd::prelude::*;

verus! {

// -- what is due -------------------------------------------------------------------

/// Something dates from more than so many days ago.
pub open spec fn is_beyond(dates: Seq<int>, days: Option<u64>, now: i64, i: int) -> bool {
    days is Some && now - dates[i] > days->0 * 24 * 60 * 60 * 1_000_000
}

/// The thing at `j` is the later of two; of equally old ones the later listed is.
pub open spec fn is_later(dates: Seq<int>, i: int, j: int) -> bool {
    dates[j] > dates[i] || (dates[j] == dates[i] && j > i)
}

/// A thing is due: it is too old, or enough later ones that are not too old stay
/// without it, or with them it takes more bytes than are allowed.
pub open spec fn is_due(
    dates: Seq<int>,
    bytes: Seq<int>,
    keep: int,
    days: Option<u64>,
    max: Option<u64>,
    now: i64,
    i: int,
) -> bool {
    ||| is_beyond(dates, days, now, i)
    ||| logs::tally(
        dates.len() as int,
        |j: int|
            if !is_beyond(dates, days, now, j) && is_later(dates, i, j) {
                1
            } else {
                0
            },
    ) >= keep
    ||| max is Some && bytes[i] + logs::tally(
        dates.len() as int,
        |j: int|
            if !is_beyond(dates, days, now, j) && is_later(dates, i, j) {
                bytes[j]
            } else {
                0
            },
    ) > max->0
}

/// What stays and what goes of things that date from `dates` and take `bytes`:
/// what is too old goes; at most `keep` stay; they take at most `max` bytes; where
/// one stays, every later one that is not too old stays; and nothing goes that is
/// not due.
pub open spec fn within_limits(
    goes: spec_fn(int) -> bool,
    dates: Seq<int>,
    bytes: Seq<int>,
    keep: int,
    days: Option<u64>,
    max: Option<u64>,
    now: i64,
) -> bool {
    &&& forall|i: int|
        0 <= i < dates.len() && days is Some && now - #[trigger] dates[i] > days->0 * 24 * 60 * 60
            * 1_000_000 ==> goes(i)
    &&& logs::tally(
        dates.len() as int,
        |i: int|
            if goes(i) {
                0
            } else {
                1
            },
    ) <= keep
    &&& max is Some ==> logs::tally(
        dates.len() as int,
        |i: int|
            if goes(i) {
                0
            } else {
                bytes[i]
            },
    ) <= max->0
    &&& forall|i: int, j: int|
        #![trigger dates[i], dates[j]]
        0 <= i < dates.len() && 0 <= j < dates.len() && dates[i] < dates[j] && !goes(i) ==> !goes(j)
    &&& forall|i: int|
        #![trigger dates[i]]
        0 <= i < dates.len() ==> (goes(i) <==> is_due(dates, bytes, keep, days, max, now, i))
}

proof fn lemma_due(
    c: Seq<Candidate>,
    dates: Seq<int>,
    bytes: Seq<int>,
    keep: int,
    days: Option<u64>,
    max: Option<u64>,
    now: i64,
    i: int,
    n: int,
)
    requires
        dates.len() == c.len(),
        bytes.len() == c.len(),
        forall|k: int| 0 <= k < c.len() ==> #[trigger] dates[k] == c[k].timestamp,
        forall|k: int| 0 <= k < c.len() ==> #[trigger] bytes[k] == c[k].bytes,
        0 <= i < c.len(),
        0 <= n <= c.len(),
    ensures
        cleanup::newer(c, days, now, i, n) == logs::tally(
            n,
            |j: int|
                if !is_beyond(dates, days, now, j) && is_later(dates, i, j) {
                    1
                } else {
                    0
                },
        ),
        cleanup::bytes_from(c, days, now, i, n) == logs::tally(
            n,
            |j: int|
                if !is_beyond(dates, days, now, j) && is_later(dates, i, j) {
                    bytes[j]
                } else {
                    0
                },
        ) + if i < n {
            bytes[i]
        } else {
            0
        },
    decreases n,
{
    if n > 0 {
        lemma_due(c, dates, bytes, keep, days, max, now, i, n - 1);
        assert(dates[n - 1] == c[n - 1].timestamp);
        assert(dates[i] == c[i].timestamp);
        assert(bytes[n - 1] == c[n - 1].bytes);
        assert(cleanup::is_aged(c[n - 1], days, now) == is_beyond(dates, days, now, n - 1));
        assert(cleanup::is_newer(c, i, n - 1) == is_later(dates, i, n - 1));
    }
}

pub(crate) proof fn lemma_is_due(
    c: Seq<Candidate>,
    dates: Seq<int>,
    bytes: Seq<int>,
    keep: int,
    days: Option<u64>,
    max: Option<u64>,
    now: i64,
    i: int,
)
    requires
        dates.len() == c.len(),
        bytes.len() == c.len(),
        forall|k: int| 0 <= k < c.len() ==> #[trigger] dates[k] == c[k].timestamp,
        forall|k: int| 0 <= k < c.len() ==> #[trigger] bytes[k] == c[k].bytes,
        0 <= i < c.len(),
    ensures
        cleanup::is_removed(c, keep, days, max, now, i) == is_due(
            dates,
            bytes,
            keep,
            days,
            max,
            now,
            i,
        ),
{
    lemma_due(c, dates, bytes, keep, days, max, now, i, c.len() as int);
    assert(dates[i] == c[i].timestamp);
}

proof fn lemma_stays(
    c: Seq<Candidate>,
    goes: spec_fn(int) -> bool,
    bytes: Seq<int>,
    keep: int,
    days: Option<u64>,
    max: Option<u64>,
    now: i64,
    n: int,
)
    requires
        bytes.len() == c.len(),
        forall|k: int| 0 <= k < c.len() ==> #[trigger] bytes[k] == c[k].bytes,
        forall|k: int|
            0 <= k < c.len() ==> #[trigger] cleanup::is_removed(c, keep, days, max, now, k) == goes(
                k,
            ),
        0 <= n <= c.len(),
    ensures
        cleanup::kept_count(c, keep, days, max, now, n) == logs::tally(
            n,
            |i: int|
                if goes(i) {
                    0
                } else {
                    1
                },
        ),
        cleanup::kept_bytes(c, keep, days, max, now, n) == logs::tally(
            n,
            |i: int|
                if goes(i) {
                    0
                } else {
                    bytes[i]
                },
        ),
    decreases n,
{
    if n > 0 {
        lemma_stays(c, goes, bytes, keep, days, max, now, n - 1);
        assert(cleanup::is_removed(c, keep, days, max, now, n - 1) == goes(n - 1));
        assert(bytes[n - 1] == c[n - 1].bytes);
    }
}

pub proof fn lemma_within_limits(
    goes: spec_fn(int) -> bool,
    c: Seq<Candidate>,
    dates: Seq<int>,
    bytes: Seq<int>,
    keep: usize,
    days: Option<u64>,
    max: Option<u64>,
    now: i64,
)
    requires
        dates.len() == c.len(),
        bytes.len() == c.len(),
        forall|k: int| 0 <= k < c.len() ==> #[trigger] dates[k] == c[k].timestamp,
        forall|k: int| 0 <= k < c.len() ==> #[trigger] bytes[k] == c[k].bytes,
        forall|k: int|
            0 <= k < c.len() ==> #[trigger] cleanup::is_removed(
                c,
                keep as int,
                days,
                max,
                now,
                k,
            ) == goes(k),
    ensures
        within_limits(goes, dates, bytes, keep as int, days, max, now),
{
    let n = c.len() as int;
    lemma_stays(c, goes, bytes, keep as int, days, max, now, n);
    cleanup::law_retention_keeps_within_limits(c, keep, days, max, now);
    assert forall|i: int|
        0 <= i < n && days is Some && now - #[trigger] dates[i] > days->0 * 24 * 60 * 60
            * 1_000_000 implies goes(i) by {
        assert(cleanup::is_removed(c, keep as int, days, max, now, i) == goes(i));
    }
    assert forall|i: int|
        #![trigger dates[i]]
        0 <= i < n implies (goes(i) <==> is_due(
        dates,
        bytes,
        keep as int,
        days,
        max,
        now,
        i,
    )) by {
        assert(cleanup::is_removed(c, keep as int, days, max, now, i) == goes(i));
        lemma_is_due(c, dates, bytes, keep as int, days, max, now, i);
    }
    assert forall|i: int, j: int|
        #![trigger dates[i], dates[j]]
        0 <= i < n && 0 <= j < n && dates[i] < dates[j] && !goes(i) implies !goes(j) by {
        assert(cleanup::is_removed(c, keep as int, days, max, now, i) == goes(i));
        assert(cleanup::is_removed(c, keep as int, days, max, now, j) == goes(j));
        cleanup::law_retention_removes_the_oldest_first(c, keep, days, max, now, i, j);
    }
}

/// What is selected is what the limits on number, age and size ask for, no less
/// and no more.
pub proof fn law_selections_keep_within_the_limits(
    candidates: Vec<Candidate>,
    keep: usize,
    days: Option<u64>,
    max: Option<u64>,
    now: i64,
    r: HashSet<usize>,
)
    requires
        call_ensures(select_removals, (&candidates, keep, days, max, now), r),
    ensures
        within_limits(
            |i: int| r@.contains(i as usize),
            Seq::new(candidates@.len(), |i: int| candidates@[i].timestamp as int),
            Seq::new(candidates@.len(), |i: int| candidates@[i].bytes as int),
            keep as int,
            days,
            max,
            now,
        ),
        forall|i: usize| #[trigger] r@.contains(i) ==> i < candidates@.len(),
{
    let c = candidates@;
    let goes = |i: int| r@.contains(i as usize);
    assert(candidates.len() == c.len());
    assert forall|k: int| 0 <= k < c.len() implies #[trigger] cleanup::is_removed(
        c,
        keep as int,
        days,
        max,
        now,
        k,
    ) == goes(k) by {
        assert((k as usize) as int == k);
        assert(r@.contains(k as usize) <==> (k as usize) < c.len() && cleanup::is_removed(
            c,
            keep as int,
            days,
            max,
            now,
            (k as usize) as int,
        ));
    }
    lemma_within_limits(
        goes,
        c,
        Seq::new(c.len(), |i: int| c[i].timestamp as int),
        Seq::new(c.len(), |i: int| c[i].bytes as int),
        keep,
        days,
        max,
        now,
    );
}

// -- when something dates from -------------------------------------------------------

/// Something of the job `id` dates from `t`: from when the job completed, as the
/// last record of the job has it, else from when the thing itself does.
pub open spec fn dates_from(
    records: Seq<ArtifactRecord>,
    id: Option<i64>,
    own: i64,
    t: int,
) -> bool {
    ||| t == own && forall|k: int|
        0 <= k < records.len() ==> Some((#[trigger] records[k]).job_id) != id
    ||| exists|k: int|
        {
            &&& 0 <= k < records.len()
            &&& Some((#[trigger] records[k]).job_id) == id
            &&& forall|l: int| k < l < records.len() ==> Some((#[trigger] records[l]).job_id) != id
            &&& t == (match records[k].completed_at {
                Some(done) => done,
                None => own,
            })
        }
}

proof fn lemma_record_of(records: Seq<ArtifactRecord>, id: i64, k: int)
    requires
        0 <= k < records.len(),
        records[k].job_id == id,
        forall|l: int| k < l < records.len() ==> (#[trigger] records[l]).job_id != id,
    ensures
        cleanup::record_of(records, id) == Some(records[k]),
    decreases records.len(),
{
    if k < records.len() - 1 {
        assert(records[records.len() - 1].job_id != id);
        assert forall|l: int| k < l < records.drop_last().len() implies (
        #[trigger] records.drop_last()[l]).job_id != id by {
            assert(records.drop_last()[l] == records[l]);
        }
        lemma_record_of(records.drop_last(), id, k);
    }
}

proof fn lemma_no_record(records: Seq<ArtifactRecord>, id: i64)
    requires
        forall|l: int| 0 <= l < records.len() ==> (#[trigger] records[l]).job_id != id,
    ensures
        cleanup::record_of(records, id) is None,
    decreases records.len(),
{
    if records.len() > 0 {
        assert(records[records.len() - 1].job_id != id);
        assert forall|l: int| 0 <= l < records.drop_last().len() implies (
        #[trigger] records.drop_last()[l]).job_id != id by {
            assert(records.drop_last()[l] == records[l]);
        }
        lemma_no_record(records.drop_last(), id);
    }
}

pub proof fn lemma_dates_from(
    records: Seq<ArtifactRecord>,
    id: Option<i64>,
    c: Candidate,
    t: int,
)
    requires
        dates_from(records, id, c.timestamp, t),
    ensures
        cleanup::dated(c, cleanup::record_for(records, id)).timestamp == t,
{
    if let Some(x) = id {
        if forall|k: int| 0 <= k < records.len() ==> Some((#[trigger] records[k]).job_id) != id {
            assert forall|l: int| 0 <= l < records.len() implies (#[trigger] records[l]).job_id
                != x by {
                assert(Some(records[l].job_id) != id);
            }
            lemma_no_record(records, x);
        } else {
            let k = choose|k: int|
                {
                    &&& 0 <= k < records.len()
                    &&& Some((#[trigger] records[k]).job_id) == id
                    &&& forall|l: int|
                        k < l < records.len() ==> Some((#[trigger] records[l]).job_id) != id
                    &&& t == (match records[k].completed_at {
                        Some(done) => done,
                        None => c.timestamp,
                    })
                };
            assert forall|l: int| k < l < records.len() implies (#[trigger] records[l]).job_id
                != x by {
                assert(Some(records[l].job_id) != id);
            }
            lemma_record_of(records, x, k);
        }
    } else {
        assert forall|k: int| 0 <= k < records.len() implies Some((#[trigger] records[k]).job_id)
            != id by {}
    }
}

pub proof fn lemma_gone(c: Seq<Candidate>, policy: Policy, now: i64, n: int)
    requires
        0 <= n <= c.len(),
    ensures
        forall|k: int| #[trigger]
            cleanup::gone(c, policy, now, n).contains(k) <==> 0 <= k < n && cleanup::goes(
                c,
                policy,
                now,
                k,
            ),
    decreases n,
{
    if n > 0 {
        lemma_gone(c, policy, now, n - 1);
        let before = cleanup::gone(c, policy, now, n - 1);
        let all = cleanup::gone(c, policy, now, n);
        if cleanup::goes(c, policy, now, n - 1) {
            assert forall|k: int| #[trigger] all.contains(k) <==> 0 <= k < n && cleanup::goes(
                c,
                policy,
                now,
                k,
            ) by {
                logs::lemma_push_contains(before, n - 1, k);
            }
        }
    }
}

pub proof fn lemma_positions(r: Seq<usize>, at: Seq<int>, k: int)
    requires
        at == r.map_values(|i: usize| i as int),
        0 <= k <= usize::MAX,
    ensures
        r.contains(k as usize) == at.contains(k),
{
    if r.contains(k as usize) {
        let a = choose|a: int| 0 <= a < r.len() && r[a] == k as usize;
        assert(at[a] == k);
    }
    if at.contains(k) {
        let a = choose|a: int| 0 <= a < at.len() && at[a] == k;
        assert(r[a] == k as usize);
    }
}

// -- captured logs -------------------------------------------------------------------

/// Captured logs are kept within `keep_job_logs`, `job_logs_max_age_days` and
/// `job_logs_max_bytes`, each dated by the completion of its job: what is handed
/// out to be removed is what these ask for, no less and no more.
pub proof fn law_captured_logs_are_kept_within_their_own_limits(
    config: Config,
    store: &mut Store,
    records: Vec<ArtifactRecord>,
    dirs: Vec<LogDir>,
    now: i64,
    report: &mut CleanupReport,
    r: Vec<usize>,
    dates: Seq<int>,
)
    requires
        call_ensures(cleanup_logs, (&config, store, &records, &dirs, now, report), r),
        !old(report).dry_run,
        dates.len() == dirs@.len(),
        forall|i: int|
            0 <= i < dirs@.len() ==> dates_from(
                records@,
                (#[trigger] dirs@[i]).job_id,
                dirs@[i].candidate.timestamp,
                dates[i],
            ),
    ensures
        within_limits(
            |i: int| r@.contains(i as usize),
            dates,
            Seq::new(dirs@.len(), |i: int| dirs@[i].candidate.bytes as int),
            config.keep_job_logs as int,
            config.job_logs_max_age_days,
            config.job_logs_max_bytes,
            now,
        ),
        forall|a: int| 0 <= a < r@.len() ==> #[trigger] r@[a] < dirs@.len(),
{
    let c = cleanup::log_candidates(dirs@, records@);
    let policy = cleanup::log_policy(config);
    let n = dirs@.len() as int;
    let bytes = Seq::new(dirs@.len(), |i: int| dirs@[i].candidate.bytes as int);
    let at = r@.map_values(|i: usize| i as int);
    let goes = |i: int| r@.contains(i as usize);
    assert(dirs.len() == n);
    lemma_gone(c, policy, now, n);
    assert forall|k: int| 0 <= k < c.len() implies #[trigger] dates[k] == c[k].timestamp by {
        let d = dirs@[k];
        lemma_dates_from(records@, d.job_id, d.candidate, dates[k]);
    }
    assert forall|k: int| 0 <= k < c.len() implies #[trigger] cleanup::is_removed(
        c,
        config.keep_job_logs as int,
        config.job_logs_max_age_days,
        config.job_logs_max_bytes,
        now,
        k,
    ) == goes(k) by {
        lemma_positions(r@, at, k);
        assert(at.contains(k) <==> 0 <= k < n && cleanup::goes(c, policy, now, k));
    }
    lemma_within_limits(
        goes,
        c,
        dates,
        bytes,
        config.keep_job_logs as usize,
        config.job_logs_max_age_days,
        config.job_logs_max_bytes,
        now,
    );
    assert forall|a: int| 0 <= a < r@.len() implies #[trigger] r@[a] < dirs@.len() by {
        assert(at[a] == r@[a]);
        assert(at.contains(at[a]));
    }
}

/// The limits on kept workspaces say nothing of captured logs, nor do any other
/// settings than the three limits on logs.
pub proof fn law_other_limits_do_not_concern_captured_logs(
    a: Config,
    b: Config,
    store_a: &mut Store,
    store_b: &mut Store,
    records: Vec<ArtifactRecord>,
    dirs: Vec<LogDir>,
    now: i64,
    report_a: &mut CleanupReport,
    report_b: &mut CleanupReport,
    r: Vec<usize>,
    s: Vec<usize>,
)
    requires
        call_ensures(cleanup_logs, (&a, store_a, &records, &dirs, now, report_a), r),
        call_ensures(cleanup_logs, (&b, store_b, &records, &dirs, now, report_b), s),
        old(report_a).dry_run == old(report_b).dry_run,
        a.keep_job_logs == b.keep_job_logs,
        a.job_logs_max_age_days == b.job_logs_max_age_days,
        a.job_logs_max_bytes == b.job_logs_max_bytes,
    ensures
        r@ == s@,
{
    let x = r@.map_values(|i: usize| i as int);
    let y = s@.map_values(|i: usize| i as int);
    assert(x == y);
    assert forall|i: int| 0 <= i < r@.len() implies #[trigger] r@[i] == s@[i] by {
        assert(x[i] == r@[i] as int);
        assert(y[i] == s@[i] as int);
    }
    assert(r@ =~= s@);
}

// -- what is planned -----------------------------------------------------------------

proof fn lemma_planned_logs(
    r: cleanup::ReportView,
    dirs: Seq<LogDir>,
    c: Seq<Candidate>,
    policy: Policy,
    now: i64,
    n: int,
)
    requires
        0 <= n <= c.len(),
        c.len() == dirs.len(),
        forall|k: int| 0 <= k < c.len() ==> (#[trigger] c[k]).bytes == dirs[k].candidate.bytes,
    ensures
        ({
            let after = cleanup::planned_logs(r, dirs, c, policy, now, n);
            &&& after.dry_run == r.dry_run
            &&& after.removed == r.removed
            &&& after.planned == r.planned + logs::tally(
                n,
                |i: int|
                    if cleanup::goes(c, policy, now, i) {
                        1
                    } else {
                        0
                    },
            )
            &&& after.reclaimed_bytes == r.reclaimed_bytes + if r.dry_run {
                logs::tally(
                    n,
                    |i: int|
                        if cleanup::goes(c, policy, now, i) {
                            dirs[i].candidate.bytes as int
                        } else {
                            0
                        },
                )
            } else {
                0
            }
        }),
    decreases n,
{
    if n > 0 {
        lemma_planned_logs(r, dirs, c, policy, now, n - 1);
    }
}

pub(crate) proof fn lemma_same_tally(n: int, f: spec_fn(int) -> int, g: spec_fn(int) -> int)
    requires
        forall|i: int| 0 <= i < n ==> #[trigger] f(i) == g(i),
    ensures
        logs::tally(n, f) == logs::tally(n, g),
    decreases n,
{
    if n > 0 {
        lemma_same_tally(n - 1, f, g);
        assert(f(n - 1) == g(n - 1));
    }
}

proof fn lemma_log_frame(
    b: cleanup::Books,
    ids: Seq<i64>,
    records: Seq<ArtifactRecord>,
    dirs: Seq<LogDir>,
    all: Seq<ArtifactRecord>,
    paths: Seq<Seq<char>>,
    refused: bool,
)
    ensures
        ({
            let a = cleanup::stale_logs(b, records, paths, refused).report;
            &&& a.dry_run == b.report.dry_run
            &&& a.planned == b.report.planned
            &&& a.removed == b.report.removed
            &&& a.reclaimed_bytes == b.report.reclaimed_bytes
        }),
        ({
            let a = cleanup::attached_logs(b, ids, dirs, all, refused).report;
            &&& a.dry_run == b.report.dry_run
            &&& a.planned == b.report.planned
            &&& a.removed == b.report.removed
            &&& a.reclaimed_bytes == b.report.reclaimed_bytes
        }),
    decreases records.len() + dirs.len(),
{
    if records.len() > 0 {
        lemma_log_frame(b, ids, records.drop_last(), dirs, all, paths, refused);
    }
    if dirs.len() > 0 {
        lemma_log_frame(b, ids, records, dirs.drop_last(), all, paths, refused);
    }
}

/// A cleanup of logs plans what is due, on a dry run as otherwise, and removes
/// nothing by itself: a dry run hands out nothing to remove, and counts the bytes
/// that would be reclaimed.
pub proof fn law_dry_runs_plan_the_same_and_remove_nothing(
    config: Config,
    store: &mut Store,
    records: Vec<ArtifactRecord>,
    dirs: Vec<LogDir>,
    now: i64,
    report: &mut CleanupReport,
    r: Vec<usize>,
    dates: Seq<int>,
    bytes: Seq<int>,
)
    requires
        call_ensures(cleanup_logs, (&config, store, &records, &dirs, now, report), r),
        dates.len() == dirs@.len(),
        bytes == Seq::new(dirs@.len(), |i: int| dirs@[i].candidate.bytes as int),
        forall|i: int|
            0 <= i < dirs@.len() ==> dates_from(
                records@,
                (#[trigger] dirs@[i]).job_id,
                dirs@[i].candidate.timestamp,
                dates[i],
            ),
    ensures
        old(report).dry_run ==> r@.len() == 0,
        final(report).dry_run == old(report).dry_run,
        final(report).removed == old(report).removed,
        final(report).planned == old(report).planned + logs::tally(
            dirs@.len() as int,
            |i: int|
                if is_due(
                    dates,
                    bytes,
                    config.keep_job_logs as int,
                    config.job_logs_max_age_days,
                    config.job_logs_max_bytes,
                    now,
                    i,
                ) {
                    1
                } else {
                    0
                },
        ),
        final(report).reclaimed_bytes == old(report).reclaimed_bytes + if old(report).dry_run {
            logs::tally(
                dirs@.len() as int,
                |i: int|
                    if is_due(
                        dates,
                        bytes,
                        config.keep_job_logs as int,
                        config.job_logs_max_age_days,
                        config.job_logs_max_bytes,
                        now,
                        i,
                    ) {
                        bytes[i]
                    } else {
                        0
                    },
            )
        } else {
            0
        },
{
    let c = cleanup::log_candidates(dirs@, records@);
    let policy = cleanup::log_policy(config);
    let n = dirs@.len() as int;
    let b = cleanup::Books { refs: cleanup::refs(old(store).jobs@), report: old(report)@ };
    let keys = cleanup::ids(old(store).jobs@);
    let refused = old(store).query_only;
    let paths = cleanup::log_paths(dirs@);
    let cleared = cleanup::stale_logs(b, records@, paths, refused);
    let attached = cleanup::attached_logs(cleared, keys, dirs@, records@, refused);
    lemma_log_frame(b, keys, records@, dirs@, records@, paths, refused);
    lemma_log_frame(cleared, keys, records@, dirs@, records@, paths, refused);
    lemma_planned_logs(attached.report, dirs@, c, policy, now, n);
    assert(r@.map_values(|i: usize| i as int).len() == r@.len());
    let due = |i: int|
        is_due(
            dates,
            bytes,
            config.keep_job_logs as int,
            config.job_logs_max_age_days,
            config.job_logs_max_bytes,
            now,
            i,
        );
    assert forall|k: int| 0 <= k < c.len() implies #[trigger] dates[k] == c[k].timestamp by {
        let d = dirs@[k];
        lemma_dates_from(records@, d.job_id, d.candidate, dates[k]);
    }
    assert forall|i: int| 0 <= i < n implies #[trigger] cleanup::goes(c, policy, now, i) == due(
        i,
    ) by {
        lemma_is_due(
            c,
            dates,
            bytes,
            config.keep_job_logs as int,
            config.job_logs_max_age_days,
            config.job_logs_max_bytes,
            now,
            i,
        );
    }
    lemma_same_tally(
        n,
        |i: int|
            if cleanup::goes(c, policy, now, i) {
                1
            } else {
                0
            },
        |i: int|
            if is_due(
                dates,
                bytes,
                config.keep_job_logs as int,
                config.job_logs_max_age_days,
                config.job_logs_max_bytes,
                now,
                i,
            ) {
                1
            } else {
                0
            },
    );
    lemma_same_tally(
        n,
        |i: int|
            if cleanup::goes(c, policy, now, i) {
                dirs@[i].candidate.bytes as int
            } else {
                0
            },
        |i: int|
            if is_due(
                dates,
                bytes,
                config.keep_job_logs as int,
                config.job_logs_max_age_days,
                config.job_logs_max_bytes,
                now,
                i,
            ) {
                bytes[i]
            } else {
                0
            },
    );
}

// -- what the journal refers to ---------------------------------------------------------

/// Some record refers to logs at `path`.
pub open spec fn is_recorded(records: Seq<ArtifactRecord>, path: Seq<char>) -> bool {
    exists|k: int|
        0 <= k < records.len() && (#[trigger] records[k]).log_dir is Some
            && records[k].log_dir->0@ == path
}

proof fn lemma_stale_logs(
    b: cleanup::Books,
    records: Seq<ArtifactRecord>,
    paths: Seq<Seq<char>>,
    i: int,
)
    requires
        !b.report.dry_run,
        0 <= i < b.refs.len(),
    ensures
        ({
            let a = cleanup::stale_logs(b, records, paths, false);
            &&& !a.report.dry_run
            &&& a.refs.len() == b.refs.len()
            &&& a.refs[i].image == b.refs[i].image
            &&& a.refs[i].runtime == b.refs[i].runtime
            &&& a.refs[i].logs == if b.refs[i].logs is Some && is_recorded(
                records,
                b.refs[i].logs->0,
            ) && !paths.contains(b.refs[i].logs->0) {
                None
            } else {
                b.refs[i].logs
            }
        }),
    decreases records.len(),
{
    if records.len() > 0 {
        let init = records.drop_last();
        lemma_stale_logs(b, init, paths, i);
        if b.refs[i].logs is Some {
            let p = b.refs[i].logs->0;
            if is_recorded(records, p) {
                let k = choose|k: int|
                    0 <= k < records.len() && (#[trigger] records[k]).log_dir is Some
                        && records[k].log_dir->0@ == p;
                if k < init.len() {
                    assert(init[k] == records[k]);
                }
            }
            if is_recorded(init, p) {
                let k = choose|k: int|
                    0 <= k < init.len() && (#[trigger] init[k]).log_dir is Some
                        && init[k].log_dir->0@ == p;
                assert(records[k] == init[k]);
            }
            if records.last().log_dir is Some && records.last().log_dir->0@ == p {
                assert(records[records.len() - 1].log_dir->0@ == p);
            }
        }
    }
}

/// A directory that was found belongs to the job `id`, and its record refers to no logs.
pub open spec fn is_found_for(
    dirs: Seq<LogDir>,
    records: Seq<ArtifactRecord>,
    id: i64,
    k: int,
) -> bool {
    &&& 0 <= k < dirs.len()
    &&& dirs[k].job_id == Some(id)
    &&& cleanup::record_of(records, id) matches Some(record) && record.log_dir is None
}

proof fn lemma_attached_logs(
    b: cleanup::Books,
    ids: Seq<i64>,
    dirs: Seq<LogDir>,
    records: Seq<ArtifactRecord>,
    i: int,
)
    requires
        !b.report.dry_run,
        0 <= i < b.refs.len(),
        ids.len() == b.refs.len(),
    ensures
        ({
            let a = cleanup::attached_logs(b, ids, dirs, records, false);
            &&& !a.report.dry_run
            &&& a.refs.len() == b.refs.len()
            &&& a.refs[i].image == b.refs[i].image
            &&& a.refs[i].runtime == b.refs[i].runtime
            &&& b.refs[i].logs is Some ==> a.refs[i].logs == b.refs[i].logs
            &&& b.refs[i].logs is None && (exists|k: int| #[trigger]
                is_found_for(dirs, records, ids[i], k)) ==> a.refs[i].logs is Some
            &&& b.refs[i].logs is None && a.refs[i].logs is Some ==> exists|k: int|
                #[trigger] is_found_for(dirs, records, ids[i], k) && dirs[k].path@
                    == a.refs[i].logs->0
        }),
    decreases dirs.len(),
{
    if dirs.len() > 0 {
        let init = dirs.drop_last();
        let d = dirs.last();
        lemma_attached_logs(b, ids, init, records, i);
        let before = cleanup::attached_logs(b, ids, init, records, false);
        let a = cleanup::attached_logs(b, ids, dirs, records, false);
        lemma_record_id(records, d.job_id);
        if b.refs[i].logs is None {
            if exists|k: int| #[trigger] is_found_for(dirs, records, ids[i], k) {
                let k = choose|k: int| #[trigger] is_found_for(dirs, records, ids[i], k);
                if k < init.len() {
                    assert(is_found_for(init, records, ids[i], k));
                }
            }
            if before.refs[i].logs is Some {
                let k = choose|k: int|
                    #[trigger] is_found_for(init, records, ids[i], k) && init[k].path@
                        == before.refs[i].logs->0;
                assert(is_found_for(dirs, records, ids[i], k));
            } else if a.refs[i].logs is Some {
                assert(is_found_for(dirs, records, ids[i], dirs.len() - 1));
            }
        }
    }
}

proof fn lemma_record_id(records: Seq<ArtifactRecord>, id: Option<i64>)
    ensures
        cleanup::record_for(records, id) matches Some(record) ==> id == Some(record.job_id),
    decreases records.len(),
{
    if records.len() > 0 && id is Some {
        lemma_record_id(records.drop_last(), id);
    }
}

/// After a cleanup of logs that may write, a job whose logs are there still refers
/// to them; a recorded reference to logs that are missing is gone; and a job
/// without logs refers to a directory that was found for it. Nothing else of any
/// job changes.
pub proof fn law_the_journal_refers_to_the_logs_that_are_there(
    config: Config,
    store: &mut Store,
    records: Vec<ArtifactRecord>,
    dirs: Vec<LogDir>,
    now: i64,
    report: &mut CleanupReport,
    r: Vec<usize>,
    i: int,
    d: int,
)
    requires
        call_ensures(cleanup_logs, (&config, store, &records, &dirs, now, report), r),
        !old(report).dry_run,
        !old(store).query_only,
        0 <= i < old(store).jobs@.len(),
        0 <= d < dirs@.len(),
    ensures
        final(store).jobs@.len() == old(store).jobs@.len(),
        final(store).jobs@[i] == (Job {
            log_dir: final(store).jobs@[i].log_dir,
            kept_image: final(store).jobs@[i].kept_image,
            kept_image_runtime: final(store).jobs@[i].kept_image_runtime,
            ..old(store).jobs@[i]
        }),
        crate::text::opt_text(final(store).jobs@[i].kept_image) == crate::text::opt_text(
            old(store).jobs@[i].kept_image,
        ),
        // What is there stays referred to.
        old(store).jobs@[i].log_dir is Some && dirs@[d].path@ == old(store).jobs@[i].log_dir->0@
            ==> final(store).jobs@[i].log_dir is Some && final(store).jobs@[i].log_dir->0@
            == dirs@[d].path@,
        // What is missing is forgotten.
        old(store).jobs@[i].log_dir is Some && is_recorded(
            records@,
            old(store).jobs@[i].log_dir->0@,
        ) && (forall|k: int|
            0 <= k < dirs@.len() ==> (#[trigger] dirs@[k]).path@ != old(store).jobs@[i].log_dir->0@)
            ==> final(store).jobs@[i].log_dir is None || exists|k: int|
            0 <= k < dirs@.len() && (#[trigger] dirs@[k]).path@
                == final(store).jobs@[i].log_dir->0@,
        // What is found is attached.
        old(store).jobs@[i].log_dir is None && dirs@[d].job_id == Some(
            old(store).jobs@[i].gh_job_id,
        ) && (cleanup::record_of(records@, old(store).jobs@[i].gh_job_id) matches Some(record)
            && record.log_dir is None) ==> final(store).jobs@[i].log_dir is Some && exists|k: int|
            0 <= k < dirs@.len() && (#[trigger] dirs@[k]).path@
                == final(store).jobs@[i].log_dir->0@ && dirs@[k].job_id == dirs@[d].job_id,
{
    let b = cleanup::Books { refs: cleanup::refs(old(store).jobs@), report: old(report)@ };
    let keys = cleanup::ids(old(store).jobs@);
    let paths = cleanup::log_paths(dirs@);
    let cleared = cleanup::stale_logs(b, records@, paths, false);
    let id = old(store).jobs@[i].gh_job_id;
    lemma_stale_logs(b, records@, paths, i);
    lemma_attached_logs(cleared, keys, dirs@, records@, i);
    let after = cleanup::refs(final(store).jobs@);
    assert(keys[i] == id);
    assert(after[i].logs == crate::text::opt_text(final(store).jobs@[i].log_dir));
    assert(b.refs[i].logs == crate::text::opt_text(old(store).jobs@[i].log_dir));
    assert(after[i].image == crate::text::opt_text(final(store).jobs@[i].kept_image));
    assert(paths[d] == dirs@[d].path@);
    if old(store).jobs@[i].log_dir is Some {
        let p = old(store).jobs@[i].log_dir->0@;
        if paths.contains(p) {
            let k = choose|k: int| 0 <= k < paths.len() && paths[k] == p;
            assert(dirs@[k].path@ == p);
        }
        if dirs@[d].path@ == p {
            assert(paths.contains(p));
        }
        if cleared.refs[i].logs is None && after[i].logs is Some {
            let k = choose|k: int|
                #[trigger] is_found_for(dirs@, records@, keys[i], k) && dirs@[k].path@
                    == after[i].logs->0;
            assert(dirs@[k].path@ == after[i].logs->0);
        }
    } else if dirs@[d].job_id == Some(id) && (cleanup::record_of(records@, id) matches Some(record)
        && record.log_dir is None) {
        assert(is_found_for(dirs@, records@, keys[i], d));
        let k = choose|k: int|
            #[trigger] is_found_for(dirs@, records@, keys[i], k) && dirs@[k].path@
                == after[i].logs->0;
        assert(dirs@[k].path@ == after[i].logs->0);
    }
}

} // verus!

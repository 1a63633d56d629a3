//! Reconciles retained artifacts with the journal and enforces the storage
//! policy.

use crate::binary;
use crate::clock;
use crate::config::Config;
use crate::config::RepoConfig;
use crate::config::RuntimeKind;
use crate::number;
use crate::runtime::DockerCacheVolume;
use crate::runtime::KeptImage;
use crate::store;
use crate::store::ArtifactRecord;
use crate::store::DockerCacheRecord;
use crate::store::Job;
use crate::store::Store;
use crate::store::StoreError;
use crate::text;
use std::collections::HashSet;
use vstd::prelude::*;

verus! {

// -- reports ---------------------------------------------------------------------

/// What a cleanup did, or, on a dry run, would do.
#[derive(Debug)]
pub struct CleanupReport {
    pub dry_run: bool,
    pub planned: usize,
    pub removed: usize,
    pub reclaimed_bytes: u64,
    pub repaired: usize,
    pub stale_references: usize,
    pub pruned_jobs: usize,
    pub pruned_events: usize,
    pub actions: Vec<String>,
    pub errors: Vec<String>,
}

impl Default for CleanupReport {
    fn default() -> (r: Self)
        ensures
            r@ == empty_report(false),
    {
        let r = CleanupReport {
            dry_run: false,
            planned: 0,
            removed: 0,
            reclaimed_bytes: 0,
            repaired: 0,
            stale_references: 0,
            pruned_jobs: 0,
            pruned_events: 0,
            actions: Vec::new(),
            errors: Vec::new(),
        };
        assert(r@ =~= empty_report(false));
        r
    }
}

#[verifier::ext_equal]
pub ghost struct ReportView {
    pub dry_run: bool,
    pub planned: int,
    pub removed: int,
    pub reclaimed_bytes: int,
    pub repaired: int,
    pub stale_references: int,
    pub pruned_jobs: int,
    pub pruned_events: int,
    pub actions: Seq<Seq<char>>,
    pub errors: Seq<Seq<char>>,
}

/// A report on nothing.
pub open spec fn empty_report(dry_run: bool) -> ReportView {
    ReportView {
        dry_run,
        planned: 0,
        removed: 0,
        reclaimed_bytes: 0,
        repaired: 0,
        stale_references: 0,
        pruned_jobs: 0,
        pruned_events: 0,
        actions: Seq::empty(),
        errors: Seq::empty(),
    }
}

impl CleanupReport {
    pub open spec fn view(&self) -> ReportView {
        ReportView {
            dry_run: self.dry_run,
            planned: self.planned as int,
            removed: self.removed as int,
            reclaimed_bytes: self.reclaimed_bytes as int,
            repaired: self.repaired as int,
            stale_references: self.stale_references as int,
            pruned_jobs: self.pruned_jobs as int,
            pruned_events: self.pruned_events as int,
            actions: text::texts(self.actions@),
            errors: text::texts(self.errors@),
        }
    }

    /// So many references that the journal knows, and so many artifacts of
    /// `bytes` bytes in all, can be counted; the bytes only count on a dry run.
    pub open spec fn has_room(&self, known: int, found: int, bytes: int) -> bool {
        &&& self.planned + found <= usize::MAX
        &&& self.repaired + found <= usize::MAX
        &&& self.stale_references + known <= usize::MAX
        &&& self.dry_run ==> self.reclaimed_bytes + bytes <= u64::MAX
    }

    /// Whether so many references that the journal knows, and so many artifacts
    /// of `bytes` bytes in all, can be counted.
    pub fn room_for(&self, known: usize, found: usize, bytes: u128) -> (r: bool)
        ensures
            r == self.has_room(known as int, found as int, bytes as int),
    {
        self.planned <= usize::MAX - found && self.repaired <= usize::MAX - found
            && self.stale_references <= usize::MAX - known && (!self.dry_run || bytes <= (u64::MAX
            - self.reclaimed_bytes) as u128)
    }

    /// The removal of an artifact of `bytes` bytes can be counted.
    pub open spec fn can_remove(&self, bytes: u64) -> bool {
        &&& self.removed < usize::MAX
        &&& self.reclaimed_bytes + bytes <= u64::MAX
    }

    /// Whether the removal of an artifact of `bytes` bytes can be counted.
    pub fn room_for_removal(&self, bytes: u64) -> (r: bool)
        ensures
            r == self.can_remove(bytes),
    {
        self.removed < usize::MAX && bytes <= u64::MAX - self.reclaimed_bytes
    }

    /// How a report ends that counts errors.
    pub open spec fn error_part(self) -> Seq<char> {
        if self.errors@.len() == 0 {
            ""@
        } else {
            "; "@ + number::dec(self.errors@.len()) + " error(s)"@
        }
    }

    pub open spec fn spec_summary(self) -> Seq<char> {
        if self.dry_run {
            "would remove "@ + number::dec(self.planned as nat) + " artifact(s) and reclaim "@
                + human(self.reclaimed_bytes as nat) + "; would repair "@ + number::dec(
                self.repaired as nat,
            ) + " reference(s) and prune "@ + number::dec(self.pruned_jobs as nat) + " job(s) and "@
                + number::dec(self.pruned_events as nat) + " event(s)"@ + self.error_part()
        } else {
            "removed "@ + number::dec(self.removed as nat) + " artifact(s), reclaimed "@ + human(
                self.reclaimed_bytes as nat,
            ) + "; repaired "@ + number::dec(self.repaired as nat) + " reference(s), pruned "@
                + number::dec(self.pruned_jobs as nat) + " job(s) and "@ + number::dec(
                self.pruned_events as nat,
            ) + " event(s)"@ + self.error_part()
        }
    }

    /// A report in one line.
    pub fn summary(&self) -> (r: String)
        ensures
            r@ == self.spec_summary(),
    {
        let mut errors = String::new();
        if self.errors.len() == 0 {
            proof {
                reveal_strlit("");
            }
            assert(errors@ =~= ""@);
        } else {
            errors.append("; ");
            assert(errors@ =~= "; "@);
            number::push_number(&mut errors, self.errors.len() as u64);
            errors.append(" error(s)");
        }
        let size = human_bytes(self.reclaimed_bytes);
        let mut r = String::new();
        if self.dry_run {
            r.append("would remove ");
            assert(r@ =~= "would remove "@);
            number::push_number(&mut r, self.planned as u64);
            r.append(" artifact(s) and reclaim ");
            r.append(size.as_str());
            r.append("; would repair ");
            number::push_number(&mut r, self.repaired as u64);
            r.append(" reference(s) and prune ");
            number::push_number(&mut r, self.pruned_jobs as u64);
            r.append(" job(s) and ");
            number::push_number(&mut r, self.pruned_events as u64);
            r.append(" event(s)");
            r.append(errors.as_str());
        } else {
            r.append("removed ");
            assert(r@ =~= "removed "@);
            number::push_number(&mut r, self.removed as u64);
            r.append(" artifact(s), reclaimed ");
            r.append(size.as_str());
            r.append("; repaired ");
            number::push_number(&mut r, self.repaired as u64);
            r.append(" reference(s), pruned ");
            number::push_number(&mut r, self.pruned_jobs as u64);
            r.append(" job(s) and ");
            number::push_number(&mut r, self.pruned_events as u64);
            r.append(" event(s)");
            r.append(errors.as_str());
        }
        r
    }
}

// -- sizes -------------------------------------------------------------------------

/// A size in tenths of a unit.
pub open spec fn tenths(n: nat, unit: nat) -> nat {
    binary::rounded(10 * binary::nearest(n), unit)
}

/// Tenths of a unit, written out.
pub open spec fn in_unit(tenths: nat, name: Seq<char>) -> Seq<char> {
    number::dec(tenths / 10) + "."@ + number::dec(tenths % 10) + name
}

/// A size in words, with one decimal.
pub open spec fn human(n: nat) -> Seq<char> {
    if n >= 0x4000_0000 {
        in_unit(tenths(n, 0x4000_0000), " GiB"@)
    } else if n >= 0x10_0000 {
        in_unit(tenths(n, 0x10_0000), " MiB"@)
    } else if n >= 0x400 {
        in_unit(tenths(n, 0x400), " KiB"@)
    } else {
        number::dec(n) + " B"@
    }
}

fn size_text(n: u64, unit: u128, name: &str) -> (r: String)
    requires
        1 <= unit <= 0x4000_0000,
    ensures
        r@ == in_unit(tenths(n as nat, unit as nat), name@),
{
    let near = binary::nearest_to(n);
    let t = binary::round_to(10 * near, unit);
    let mut r = number::wide_number_text(t / 10);
    r.append(".");
    number::push_number(&mut r, (t % 10) as u64);
    r.append(name);
    r
}

/// A size in words, with one decimal.
pub fn human_bytes(bytes: u64) -> (r: String)
    ensures
        r@ == human(bytes as nat),
{
    if bytes >= 0x4000_0000 {
        size_text(bytes, 0x4000_0000, " GiB")
    } else if bytes >= 0x10_0000 {
        size_text(bytes, 0x10_0000, " MiB")
    } else if bytes >= 0x400 {
        size_text(bytes, 0x400, " KiB")
    } else {
        let mut r = number::number_text(bytes);
        r.append(" B");
        r
    }
}

// -- retention ------------------------------------------------------------------------

/// An artifact that may be removed.
#[derive(Debug)]
pub struct Candidate {
    pub name: String,
    pub bytes: u64,
    pub timestamp: i64,
}

/// An artifact is older than the policy allows.
pub open spec fn is_aged(c: Candidate, max_age_days: Option<u64>, now: i64) -> bool {
    max_age_days matches Some(days) && c.timestamp < now - days * 86_400_000_000
}

/// The artifact at `j` is newer than the one at `i`; of two equally old ones
/// the later listed counts as newer.
pub open spec fn is_newer(c: Seq<Candidate>, i: int, j: int) -> bool {
    c[j].timestamp > c[i].timestamp || (c[j].timestamp == c[i].timestamp && j > i)
}

/// How many of the first `n` artifacts are not too old and newer than the one at `i`.
pub open spec fn newer(
    c: Seq<Candidate>,
    max_age_days: Option<u64>,
    now: i64,
    i: int,
    n: int,
) -> int
    decreases n,
{
    if n <= 0 {
        0
    } else {
        newer(c, max_age_days, now, i, n - 1) + if !is_aged(c[n - 1], max_age_days, now)
            && is_newer(c, i, n - 1) {
            1int
        } else {
            0
        }
    }
}

/// The bytes of the artifact at `i` and of those of the first `n` that are not
/// too old and newer.
pub open spec fn bytes_from(
    c: Seq<Candidate>,
    max_age_days: Option<u64>,
    now: i64,
    i: int,
    n: int,
) -> int
    decreases n,
{
    if n <= 0 {
        0
    } else {
        bytes_from(c, max_age_days, now, i, n - 1) + if n - 1 == i || (!is_aged(
            c[n - 1],
            max_age_days,
            now,
        ) && is_newer(c, i, n - 1)) {
            c[n - 1].bytes as int
        } else {
            0
        }
    }
}

/// The policy removes an artifact: it is too old, or `keep` newer ones stay,
/// or together with the newer ones it takes too much room.
pub open spec fn is_removed(
    c: Seq<Candidate>,
    keep: int,
    max_age_days: Option<u64>,
    max_bytes: Option<u64>,
    now: i64,
    i: int,
) -> bool {
    ||| is_aged(c[i], max_age_days, now)
    ||| newer(c, max_age_days, now, i, c.len() as int) >= keep
    ||| max_bytes is Some && bytes_from(c, max_age_days, now, i, c.len() as int) > max_bytes->0
}

fn aged(c: &Candidate, max_age_days: Option<u64>, now: i64) -> (r: bool)
    ensures
        r == is_aged(*c, max_age_days, now),
{
    match max_age_days {
        Some(n) => clock::older(c.timestamp, now, clock::days(n)),
        None => false,
    }
}

fn removed(
    c: &Vec<Candidate>,
    keep: usize,
    max_age_days: Option<u64>,
    max_bytes: Option<u64>,
    now: i64,
    i: usize,
) -> (r: bool)
    requires
        i < c@.len(),
    ensures
        r == is_removed(c@, keep as int, max_age_days, max_bytes, now, i as int),
{
    if aged(&c[i], max_age_days, now) {
        return true;
    }
    let mut count: usize = 0;
    let mut bytes: u128 = 0;
    for j in 0..c.len()
        invariant
            i < c@.len(),
            count == newer(c@, max_age_days, now, i as int, j as int),
            count <= j,
            bytes == bytes_from(c@, max_age_days, now, i as int, j as int),
            bytes <= j * u64::MAX,
    {
        assert(j * u64::MAX + u64::MAX == (j + 1) * u64::MAX && (j + 1) * u64::MAX <= usize::MAX
            * u64::MAX) by (nonlinear_arith)
            requires
                j < usize::MAX,
        ;
        let later = c[j].timestamp > c[i].timestamp || (c[j].timestamp == c[i].timestamp && j > i);
        let stays = later && !aged(&c[j], max_age_days, now);
        if stays {
            count = count + 1;
        }
        if j == i || stays {
            bytes = bytes + c[j].bytes as u128;
        }
    }
    if count >= keep {
        return true;
    }
    match max_bytes {
        Some(max) => bytes > max as u128,
        None => false,
    }
}

/// The positions of the artifacts that the policy removes: every one that is
/// too old, and then the oldest until the count and the size are within their
/// limits.
pub fn select_removals(
    candidates: &Vec<Candidate>,
    keep_count: usize,
    max_age_days: Option<u64>,
    max_bytes: Option<u64>,
    now: i64,
) -> (r: HashSet<usize>)
    ensures
        r@.finite(),
        forall|i: usize|
            r@.contains(i) <==> i < candidates@.len() && is_removed(
                candidates@,
                keep_count as int,
                max_age_days,
                max_bytes,
                now,
                i as int,
            ),
{
    broadcast use vstd::std_specs::hash::group_hash_axioms;

    let mut selected: HashSet<usize> = HashSet::new();
    for i in 0..candidates.len()
        invariant
            selected@.finite(),
            forall|k: usize|
                selected@.contains(k) <==> k < i && is_removed(
                    candidates@,
                    keep_count as int,
                    max_age_days,
                    max_bytes,
                    now,
                    k as int,
                ),
    {
        if removed(candidates, keep_count, max_age_days, max_bytes, now, i) {
            selected.insert(i);
        }
    }
    selected
}

// -- what the policy promises ---------------------------------------------------------------

/// How many of the first `n` artifacts stay.
pub open spec fn kept_count(
    c: Seq<Candidate>,
    keep: int,
    max_age_days: Option<u64>,
    max_bytes: Option<u64>,
    now: i64,
    n: int,
) -> int
    decreases n,
{
    if n <= 0 {
        0
    } else {
        kept_count(c, keep, max_age_days, max_bytes, now, n - 1) + if is_removed(
            c,
            keep,
            max_age_days,
            max_bytes,
            now,
            n - 1,
        ) {
            0int
        } else {
            1
        }
    }
}

/// The bytes of those of the first `n` artifacts that stay.
pub open spec fn kept_bytes(
    c: Seq<Candidate>,
    keep: int,
    max_age_days: Option<u64>,
    max_bytes: Option<u64>,
    now: i64,
    n: int,
) -> int
    decreases n,
{
    if n <= 0 {
        0
    } else {
        kept_bytes(c, keep, max_age_days, max_bytes, now, n - 1) + if is_removed(
            c,
            keep,
            max_age_days,
            max_bytes,
            now,
            n - 1,
        ) {
            0int
        } else {
            c[n - 1].bytes as int
        }
    }
}

/// The oldest of the first `n` artifacts that stay, if any does.
spec fn is_oldest_kept(
    c: Seq<Candidate>,
    keep: int,
    max_age_days: Option<u64>,
    max_bytes: Option<u64>,
    now: i64,
    n: int,
    i: int,
) -> bool {
    &&& 0 <= i < n
    &&& !is_removed(c, keep, max_age_days, max_bytes, now, i)
    &&& forall|j: int|
        0 <= j < n && j != i && !is_removed(c, keep, max_age_days, max_bytes, now, j)
            ==> #[trigger] is_newer(c, i, j)
}

proof fn lemma_oldest_kept(
    c: Seq<Candidate>,
    keep: int,
    max_age_days: Option<u64>,
    max_bytes: Option<u64>,
    now: i64,
    n: int,
) -> (i: int)
    requires
        0 <= n <= c.len(),
        kept_count(c, keep, max_age_days, max_bytes, now, n) > 0,
    ensures
        is_oldest_kept(c, keep, max_age_days, max_bytes, now, n, i),
    decreases n,
{
    if kept_count(c, keep, max_age_days, max_bytes, now, n - 1) > 0 {
        let i = lemma_oldest_kept(c, keep, max_age_days, max_bytes, now, n - 1);
        if !is_removed(c, keep, max_age_days, max_bytes, now, n - 1) && !is_newer(c, i, n - 1) {
            assert forall|j: int|
                0 <= j < n && j != n - 1 && !is_removed(
                    c,
                    keep,
                    max_age_days,
                    max_bytes,
                    now,
                    j,
                ) implies #[trigger] is_newer(c, n - 1, j) by {
                if j != i {
                    assert(is_newer(c, i, j));
                }
            }
            n - 1
        } else {
            i
        }
    } else {
        lemma_none_kept(c, keep, max_age_days, max_bytes, now, n - 1);
        n - 1
    }
}

proof fn lemma_none_kept(
    c: Seq<Candidate>,
    keep: int,
    max_age_days: Option<u64>,
    max_bytes: Option<u64>,
    now: i64,
    n: int,
)
    requires
        0 <= n <= c.len(),
    ensures
        kept_count(c, keep, max_age_days, max_bytes, now, n) >= 0,
        kept_count(c, keep, max_age_days, max_bytes, now, n) == 0 ==> {
            &&& forall|j: int|
                0 <= j < n ==> #[trigger] is_removed(c, keep, max_age_days, max_bytes, now, j)
            &&& kept_bytes(c, keep, max_age_days, max_bytes, now, n) == 0
        },
    decreases n,
{
    if n > 0 {
        lemma_none_kept(c, keep, max_age_days, max_bytes, now, n - 1);
    }
}

proof fn lemma_kept_are_newer(
    c: Seq<Candidate>,
    keep: int,
    max_age_days: Option<u64>,
    max_bytes: Option<u64>,
    now: i64,
    i: int,
    n: int,
)
    requires
        0 <= n <= c.len(),
        is_oldest_kept(c, keep, max_age_days, max_bytes, now, c.len() as int, i),
    ensures
        kept_count(c, keep, max_age_days, max_bytes, now, n) <= newer(c, max_age_days, now, i, n)
            + if i < n {
            1int
        } else {
            0
        },
        kept_bytes(c, keep, max_age_days, max_bytes, now, n) <= bytes_from(
            c,
            max_age_days,
            now,
            i,
            n,
        ),
    decreases n,
{
    if n > 0 {
        lemma_kept_are_newer(c, keep, max_age_days, max_bytes, now, i, n - 1);
        if !is_removed(c, keep, max_age_days, max_bytes, now, n - 1) && n - 1 != i {
            assert(is_newer(c, i, n - 1));
        }
    }
}

/// At most `keep` artifacts stay, and if a size limit is set they stay within it.
pub proof fn law_retention_keeps_within_limits(
    c: Seq<Candidate>,
    keep: usize,
    max_age_days: Option<u64>,
    max_bytes: Option<u64>,
    now: i64,
)
    ensures
        kept_count(c, keep as int, max_age_days, max_bytes, now, c.len() as int) <= keep,
        max_bytes is Some ==> kept_bytes(
            c,
            keep as int,
            max_age_days,
            max_bytes,
            now,
            c.len() as int,
        ) <= max_bytes->0,
{
    let n = c.len() as int;
    lemma_none_kept(c, keep as int, max_age_days, max_bytes, now, n);
    if kept_count(c, keep as int, max_age_days, max_bytes, now, n) > 0 {
        let i = lemma_oldest_kept(c, keep as int, max_age_days, max_bytes, now, n);
        lemma_kept_are_newer(c, keep as int, max_age_days, max_bytes, now, i, n);
    }
}

proof fn lemma_newer_grows(
    c: Seq<Candidate>,
    max_age_days: Option<u64>,
    now: i64,
    i: int,
    j: int,
    n: int,
)
    requires
        0 <= n <= c.len(),
        0 <= i < c.len(),
        0 <= j < c.len(),
        is_newer(c, i, j),
        !is_aged(c[j], max_age_days, now),
    ensures
        newer(c, max_age_days, now, j, n) <= newer(c, max_age_days, now, i, n),
        bytes_from(c, max_age_days, now, j, n) <= bytes_from(c, max_age_days, now, i, n),
    decreases n,
{
    if n > 0 {
        lemma_newer_grows(c, max_age_days, now, i, j, n - 1);
    }
}

/// Where an artifact stays, every newer one stays too: the oldest go first.
pub proof fn law_retention_removes_the_oldest_first(
    c: Seq<Candidate>,
    keep: usize,
    max_age_days: Option<u64>,
    max_bytes: Option<u64>,
    now: i64,
    i: int,
    j: int,
)
    requires
        0 <= i < c.len(),
        0 <= j < c.len(),
        is_newer(c, i, j),
        !is_removed(c, keep as int, max_age_days, max_bytes, now, i),
    ensures
        !is_removed(c, keep as int, max_age_days, max_bytes, now, j),
{
    lemma_newer_grows(c, max_age_days, now, i, j, c.len() as int);
}

/// An artifact that is too old never stays, and one that is not stays if all
/// artifacts are within the limits.
pub proof fn law_retention_removes_no_more_than_needed(
    c: Seq<Candidate>,
    keep: usize,
    max_age_days: Option<u64>,
    max_bytes: Option<u64>,
    now: i64,
    i: int,
)
    requires
        0 <= i < c.len(),
        c.len() <= keep,
        max_bytes is Some ==> all_bytes(c, c.len() as int) <= max_bytes->0,
    ensures
        is_removed(c, keep as int, max_age_days, max_bytes, now, i) == is_aged(
            c[i],
            max_age_days,
            now,
        ),
{
    if !is_aged(c[i], max_age_days, now) {
        lemma_within_all(c, max_age_days, now, i, c.len() as int);
    }
}

/// The bytes of the first `n` artifacts.
pub open spec fn all_bytes(c: Seq<Candidate>, n: int) -> int
    decreases n,
{
    if n <= 0 {
        0
    } else {
        all_bytes(c, n - 1) + c[n - 1].bytes
    }
}

proof fn lemma_within_all(
    c: Seq<Candidate>,
    max_age_days: Option<u64>,
    now: i64,
    i: int,
    n: int,
)
    requires
        0 <= n <= c.len(),
        0 <= i < c.len(),
    ensures
        newer(c, max_age_days, now, i, n) <= if i < n {
            n - 1
        } else {
            n
        },
        bytes_from(c, max_age_days, now, i, n) <= all_bytes(c, n),
    decreases n,
{
    if n > 0 {
        lemma_within_all(c, max_age_days, now, i, n - 1);
    }
}

// -- references from the journal ----------------------------------------------------------------

/// What the journal refers to for one job.
#[verifier::ext_equal]
pub ghost struct Refs {
    pub logs: Option<Seq<char>>,
    pub image: Option<Seq<char>>,
    pub runtime: Option<Seq<char>>,
}

/// What the journal refers to, job by job.
pub open spec fn refs(jobs: Seq<Job>) -> Seq<Refs> {
    jobs.map_values(
        |j: Job|
            Refs {
                logs: text::opt_text(j.log_dir),
                image: text::opt_text(j.kept_image),
                runtime: text::opt_text(j.kept_image_runtime),
            },
    )
}

pub open spec fn ids(jobs: Seq<Job>) -> Seq<i64> {
    jobs.map_values(|j: Job| j.gh_job_id)
}

/// `new` is `old` but for what it refers to.
pub open spec fn same_but_refs(new: Seq<Job>, old: Seq<Job>) -> bool {
    &&& new.len() == old.len()
    &&& forall|i: int|
        0 <= i < old.len() ==> #[trigger] new[i] == (Job {
            log_dir: new[i].log_dir,
            kept_image: new[i].kept_image,
            kept_image_runtime: new[i].kept_image_runtime,
            ..old[i]
        })
}

/// `new` is `old` but for what its jobs refer to.
pub open spec fn same_but_job_refs(new: Store, old: Store) -> bool {
    &&& new == Store { jobs: new.jobs, ..old }
    &&& same_but_refs(new.jobs@, old.jobs@)
}

/// Without references to logs at `dir`.
pub open spec fn logs_cleared(r: Seq<Refs>, dir: Seq<char>) -> Seq<Refs> {
    r.map_values(
        |x: Refs|
            if x.logs == Some(dir) {
                Refs { logs: None, ..x }
            } else {
                x
            },
    )
}

/// The job of an id refers to no logs.
pub open spec fn no_logs(r: Seq<Refs>, ids: Seq<i64>, id: i64) -> bool {
    exists|i: int| 0 <= i < r.len() && ids[i] == id && (#[trigger] r[i]).logs is None
}

/// With the job of an id, if it refers to no logs, referring to `dir`.
pub open spec fn logs_attached(r: Seq<Refs>, ids: Seq<i64>, id: i64, dir: Seq<char>) -> Seq<Refs> {
    Seq::new(
        r.len(),
        |i: int|
            if ids[i] == id && r[i].logs is None {
                Refs { logs: Some(dir), ..r[i] }
            } else {
                r[i]
            },
    )
}

/// With the job of an id referring to no image.
pub open spec fn image_cleared(r: Seq<Refs>, ids: Seq<i64>, id: i64) -> Seq<Refs> {
    Seq::new(
        r.len(),
        |i: int|
            if ids[i] == id {
                Refs { image: None, runtime: None, ..r[i] }
            } else {
                r[i]
            },
    )
}

/// The job of an id refers to no image.
pub open spec fn no_image(r: Seq<Refs>, ids: Seq<i64>, id: i64) -> bool {
    exists|i: int| 0 <= i < r.len() && ids[i] == id && (#[trigger] r[i]).image is None
}

/// With the job of an id, if it refers to no image, referring to one.
pub open spec fn image_attached(
    r: Seq<Refs>,
    ids: Seq<i64>,
    id: i64,
    tag: Seq<char>,
    runtime: Seq<char>,
) -> Seq<Refs> {
    Seq::new(
        r.len(),
        |i: int|
            if ids[i] == id && r[i].image is None {
                Refs { image: Some(tag), runtime: Some(runtime), ..r[i] }
            } else {
                r[i]
            },
    )
}

/// What the journal refers to, and what the report says.
#[verifier::ext_equal]
pub ghost struct Books {
    pub refs: Seq<Refs>,
    pub report: ReportView,
}

/// How a journal that refuses writes puts it.
pub open spec fn refusal() -> Seq<char> {
    StoreError::ReadOnly.spec_message()
}

fn clear_logs(store: &mut Store, dir: &str) -> (r: Result<usize, StoreError>)
    requires
        old(store).well_formed(),
    ensures
        final(store).well_formed(),
        same_but_job_refs(*final(store), *old(store)),
        r is Err == old(store).query_only,
        r matches Err(e) ==> e == StoreError::ReadOnly,
        refs(final(store).jobs@) == if old(store).query_only {
            refs(old(store).jobs@)
        } else {
            logs_cleared(refs(old(store).jobs@), dir@)
        },
        ids(final(store).jobs@) == ids(old(store).jobs@),
{
    let r = store.clear_log_dir(dir);
    assert(ids(store.jobs@) =~= ids(old(store).jobs@));
    proof {
        if !old(store).query_only {
            assert(refs(store.jobs@) =~= logs_cleared(refs(old(store).jobs@), dir@));
        }
    }
    r
}

fn attach_logs(store: &mut Store, id: i64, dir: &str) -> (r: Result<usize, StoreError>)
    requires
        old(store).well_formed(),
    ensures
        final(store).well_formed(),
        same_but_job_refs(*final(store), *old(store)),
        r == if old(store).query_only {
            Err::<usize, StoreError>(StoreError::ReadOnly)
        } else if no_logs(refs(old(store).jobs@), ids(old(store).jobs@), id) {
            Ok(1)
        } else {
            Ok(0)
        },
        refs(final(store).jobs@) == if old(store).query_only {
            refs(old(store).jobs@)
        } else {
            logs_attached(refs(old(store).jobs@), ids(old(store).jobs@), id, dir@)
        },
        ids(final(store).jobs@) == ids(old(store).jobs@),
{
    let r = store.repair_log_dir(id, dir);
    let ghost before = old(store).jobs@;
    assert(ids(store.jobs@) =~= ids(before));
    proof {
        if !old(store).query_only {
            assert(refs(store.jobs@) =~= logs_attached(refs(before), ids(before), id, dir@));
            if store::lacks_logs(before, id) {
                let i = choose|i: int|
                    0 <= i < before.len() && (#[trigger] before[i]).gh_job_id == id
                        && before[i].log_dir is None;
                assert(refs(before)[i].logs is None);
            }
            if no_logs(refs(before), ids(before), id) {
                let i = choose|i: int|
                    0 <= i < refs(before).len() && ids(before)[i] == id && (#[trigger] refs(
                        before,
                    )[i]).logs is None;
                assert(before[i].gh_job_id == id && before[i].log_dir is None);
            }
        }
    }
    r
}

fn clear_image(store: &mut Store, id: i64) -> (r: Result<usize, StoreError>)
    requires
        old(store).well_formed(),
    ensures
        final(store).well_formed(),
        same_but_job_refs(*final(store), *old(store)),
        r is Err == old(store).query_only,
        r matches Err(e) ==> e == StoreError::ReadOnly,
        refs(final(store).jobs@) == if old(store).query_only {
            refs(old(store).jobs@)
        } else {
            image_cleared(refs(old(store).jobs@), ids(old(store).jobs@), id)
        },
        ids(final(store).jobs@) == ids(old(store).jobs@),
{
    let r = store.clear_kept_image(id);
    let ghost before = old(store).jobs@;
    assert(ids(store.jobs@) =~= ids(before));
    proof {
        if !old(store).query_only {
            assert(refs(store.jobs@) =~= image_cleared(refs(before), ids(before), id));
        }
    }
    r
}

fn attach_image(store: &mut Store, id: i64, tag: &str, runtime: &str) -> (r: Result<
    usize,
    StoreError,
>)
    requires
        old(store).well_formed(),
    ensures
        final(store).well_formed(),
        same_but_job_refs(*final(store), *old(store)),
        r == if old(store).query_only {
            Err::<usize, StoreError>(StoreError::ReadOnly)
        } else if no_image(refs(old(store).jobs@), ids(old(store).jobs@), id) {
            Ok(1)
        } else {
            Ok(0)
        },
        refs(final(store).jobs@) == if old(store).query_only {
            refs(old(store).jobs@)
        } else {
            image_attached(refs(old(store).jobs@), ids(old(store).jobs@), id, tag@, runtime@)
        },
        ids(final(store).jobs@) == ids(old(store).jobs@),
{
    let r = store.repair_kept_image(id, tag, runtime);
    let ghost before = old(store).jobs@;
    assert(ids(store.jobs@) =~= ids(before));
    proof {
        if !old(store).query_only {
            assert(refs(store.jobs@) =~= image_attached(
                refs(before),
                ids(before),
                id,
                tag@,
                runtime@,
            ));
            if store::lacks_image(before, id) {
                let i = choose|i: int|
                    0 <= i < before.len() && (#[trigger] before[i]).gh_job_id == id
                        && before[i].kept_image is None;
                assert(refs(before)[i].image is None);
            }
            if no_image(refs(before), ids(before), id) {
                let i = choose|i: int|
                    0 <= i < refs(before).len() && ids(before)[i] == id && (#[trigger] refs(
                        before,
                    )[i]).image is None;
                assert(before[i].gh_job_id == id && before[i].kept_image is None);
            }
        }
    }
    r
}

/// The last record of a job.
pub open spec fn record_of(records: Seq<ArtifactRecord>, id: i64) -> Option<ArtifactRecord>
    decreases records.len(),
{
    if records.len() == 0 {
        None
    } else if records.last().job_id == id {
        Some(records.last())
    } else {
        record_of(records.drop_last(), id)
    }
}

/// The record of what may be a job.
pub open spec fn record_for(records: Seq<ArtifactRecord>, id: Option<i64>) -> Option<
    ArtifactRecord,
> {
    match id {
        Some(id) => record_of(records, id),
        None => None,
    }
}

fn find_record<'a>(records: &'a Vec<ArtifactRecord>, id: Option<i64>) -> (r: Option<
    &'a ArtifactRecord,
>)
    ensures
        match r {
            Some(rec) => record_for(records@, id) == Some(*rec) && id == Some(rec.job_id),
            None => record_for(records@, id) is None,
        },
{
    let wanted = match id {
        Some(wanted) => wanted,
        None => return None,
    };
    let mut k = records.len();
    assert(records@.take(k as int) =~= records@);
    while k > 0
        invariant
            id == Some(wanted),
            k <= records@.len(),
            record_of(records@, wanted) == record_of(records@.take(k as int), wanted),
        decreases k,
    {
        let ghost now = records@.take(k as int);
        assert(now.drop_last() =~= records@.take(k - 1));
        assert(now.last() == records@[k - 1]);
        if records[k - 1].job_id == wanted {
            return Some(&records[k - 1]);
        }
        k = k - 1;
    }
    None
}

/// When an artifact dates from: the completion of its job, else what is known
/// of the artifact itself.
pub open spec fn dated(c: Candidate, record: Option<ArtifactRecord>) -> Candidate {
    match record {
        Some(r) => match r.completed_at {
            Some(t) => Candidate { timestamp: t, ..c },
            None => c,
        },
        None => c,
    }
}

fn date_candidate(c: &Candidate, record: Option<&ArtifactRecord>) -> (r: Candidate)
    ensures
        r == dated(
            *c,
            match record {
                Some(rec) => Some(*rec),
                None => None,
            },
        ),
{
    let timestamp = match record {
        Some(rec) => match rec.completed_at {
            Some(t) => t,
            None => c.timestamp,
        },
        None => c.timestamp,
    };
    Candidate { name: c.name.clone(), bytes: c.bytes, timestamp }
}

// -- planned removals ---------------------------------------------------------------------------

/// The storage policy for one kind of artifact.
#[derive(Debug, Clone, Copy)]
pub struct Policy {
    pub keep: u32,
    pub max_age_days: Option<u64>,
    pub max_bytes: Option<u64>,
}

/// The policy removes the artifact at `i`.
pub open spec fn goes(c: Seq<Candidate>, policy: Policy, now: i64, i: int) -> bool {
    is_removed(c, policy.keep as int, policy.max_age_days, policy.max_bytes, now, i)
}

/// The positions among the first `n` artifacts that the policy removes.
pub open spec fn gone(c: Seq<Candidate>, policy: Policy, now: i64, n: int) -> Seq<int>
    decreases n,
{
    if n <= 0 {
        Seq::empty()
    } else if goes(c, policy, now, n - 1) {
        gone(c, policy, now, n - 1).push(n - 1)
    } else {
        gone(c, policy, now, n - 1)
    }
}

/// The bytes of the first `n` artifacts that the policy removes.
pub open spec fn gone_bytes(c: Seq<Candidate>, policy: Policy, now: i64, n: int) -> int
    decreases n,
{
    if n <= 0 {
        0
    } else if goes(c, policy, now, n - 1) {
        gone_bytes(c, policy, now, n - 1) + c[n - 1].bytes
    } else {
        gone_bytes(c, policy, now, n - 1)
    }
}

/// A removal in words: `kind` says what is removed.
pub open spec fn removal_text(dry_run: bool, kind: Seq<char>, c: Candidate) -> Seq<char> {
    (if dry_run {
        "remove"@
    } else {
        "removed"@
    }) + kind + c.name@ + " ("@ + human(c.bytes as nat) + ")"@
}

/// A report with one planned removal more.
pub open spec fn with_removal(r: ReportView, kind: Seq<char>, c: Candidate) -> ReportView {
    ReportView {
        planned: r.planned + 1,
        actions: r.actions.push(removal_text(r.dry_run, kind, c)),
        reclaimed_bytes: if r.dry_run {
            r.reclaimed_bytes + c.bytes
        } else {
            r.reclaimed_bytes
        },
        ..r
    }
}

fn plan_removal(report: &mut CleanupReport, kind: &str, c: &Candidate)
    requires
        old(report).planned < usize::MAX,
        old(report).dry_run ==> old(report).reclaimed_bytes + c.bytes <= u64::MAX,
    ensures
        final(report)@ == with_removal(old(report)@, kind@, *c),
{
    let ghost before = report@;
    let size = human_bytes(c.bytes);
    let mut words = if report.dry_run {
        "remove".to_string()
    } else {
        "removed".to_string()
    };
    words.append(kind);
    words.append(c.name.as_str());
    words.append(" (");
    words.append(size.as_str());
    words.append(")");
    report.planned = report.planned + 1;
    text::push_text(&mut report.actions, words);
    if report.dry_run {
        report.reclaimed_bytes = report.reclaimed_bytes + c.bytes;
    }
    assert(report@ =~= with_removal(before, kind@, *c));
}

proof fn lemma_all_bytes_grow(c: Seq<Candidate>, a: int, b: int)
    requires
        0 <= a <= b <= c.len(),
    ensures
        0 <= all_bytes(c, a) <= all_bytes(c, b),
    decreases b,
{
    if a < b {
        lemma_all_bytes_grow(c, a, b - 1);
    } else if b > 0 {
        lemma_all_bytes_grow(c, a - 1, b - 1);
    }
}

// -- captured logs ------------------------------------------------------------------------------

/// A directory of captured logs.
#[derive(Debug)]
pub struct LogDir {
    pub candidate: Candidate,
    pub path: String,
    pub job_id: Option<i64>,
}

/// A directory of captured logs, from what is found on disk: its name is the
/// id of its job, if it is a number.
pub fn log_dir(path: &str, name: &str, bytes: u64, modified: i64) -> (r: LogDir)
    ensures
        r.path@ == path@,
        r.candidate.name@ == path@,
        r.candidate.bytes == bytes,
        r.candidate.timestamp == modified,
        match (r.job_id, number::signed(name@)) {
            (Some(a), Some(b)) => a == b,
            (None, None) => true,
            _ => false,
        },
{
    LogDir {
        candidate: Candidate { name: path.to_string(), bytes, timestamp: modified },
        path: path.to_string(),
        job_id: number::parse_i64(&text::chars(name)),
    }
}

pub open spec fn log_paths(dirs: Seq<LogDir>) -> Seq<Seq<char>> {
    dirs.map_values(|d: LogDir| d.path@)
}

/// The directories as artifacts, each dated by its job.
pub open spec fn log_candidates(dirs: Seq<LogDir>, records: Seq<ArtifactRecord>) -> Seq<Candidate> {
    dirs.map_values(|d: LogDir| dated(d.candidate, record_for(records, d.job_id)))
}

/// After a record that refers to logs that are missing.
pub open spec fn stale_log(
    b: Books,
    record: ArtifactRecord,
    paths: Seq<Seq<char>>,
    refused: bool,
) -> Books {
    match record.log_dir {
        Some(path) => if paths.contains(path@) {
            b
        } else {
            let report = ReportView {
                stale_references: b.report.stale_references + 1,
                actions: b.report.actions.push("clear missing log reference "@ + path@),
                ..b.report
            };
            if b.report.dry_run {
                Books { report, ..b }
            } else if refused {
                Books {
                    report: ReportView {
                        errors: b.report.errors.push(
                            "clear log reference "@ + path@ + ": "@ + refusal(),
                        ),
                        ..report
                    },
                    ..b
                }
            } else {
                Books { refs: logs_cleared(b.refs, path@), report }
            }
        },
        None => b,
    }
}

/// After every record that refers to logs that are missing.
pub open spec fn stale_logs(
    b: Books,
    records: Seq<ArtifactRecord>,
    paths: Seq<Seq<char>>,
    refused: bool,
) -> Books
    decreases records.len(),
{
    if records.len() == 0 {
        b
    } else {
        stale_log(
            stale_logs(b, records.drop_last(), paths, refused),
            records.last(),
            paths,
            refused,
        )
    }
}

/// After a directory whose job refers to no logs.
pub open spec fn attached_log(
    b: Books,
    ids: Seq<i64>,
    dir: LogDir,
    records: Seq<ArtifactRecord>,
    refused: bool,
) -> Books {
    match record_for(records, dir.job_id) {
        Some(record) => if record.log_dir is Some {
            b
        } else {
            let report = ReportView {
                actions: b.report.actions.push(
                    "attach log directory "@ + dir.path@ + " to job "@ + number::dec_int(
                        record.job_id as int,
                    ),
                ),
                ..b.report
            };
            if b.report.dry_run {
                Books { report: ReportView { repaired: report.repaired + 1, ..report }, ..b }
            } else if refused {
                Books {
                    report: ReportView {
                        errors: b.report.errors.push(
                            "attach log directory "@ + dir.path@ + ": "@ + refusal(),
                        ),
                        ..report
                    },
                    ..b
                }
            } else {
                Books {
                    refs: logs_attached(b.refs, ids, record.job_id, dir.path@),
                    report: ReportView {
                        repaired: report.repaired + if no_logs(b.refs, ids, record.job_id) {
                            1int
                        } else {
                            0
                        },
                        ..report
                    },
                }
            }
        },
        None => b,
    }
}

/// After every directory whose job refers to no logs.
pub open spec fn attached_logs(
    b: Books,
    ids: Seq<i64>,
    dirs: Seq<LogDir>,
    records: Seq<ArtifactRecord>,
    refused: bool,
) -> Books
    decreases dirs.len(),
{
    if dirs.len() == 0 {
        b
    } else {
        attached_log(
            attached_logs(b, ids, dirs.drop_last(), records, refused),
            ids,
            dirs.last(),
            records,
            refused,
        )
    }
}

/// After the plan to remove what the policy removes of the first `n` directories.
pub open spec fn planned_logs(
    r: ReportView,
    dirs: Seq<LogDir>,
    c: Seq<Candidate>,
    policy: Policy,
    now: i64,
    n: int,
) -> ReportView
    decreases n,
{
    if n <= 0 {
        r
    } else {
        let before = planned_logs(r, dirs, c, policy, now, n - 1);
        if goes(c, policy, now, n - 1) {
            with_removal(before, " log directory "@, dirs[n - 1].candidate)
        } else {
            before
        }
    }
}

/// The policy for captured logs.
pub open spec fn log_policy(config: Config) -> Policy {
    Policy {
        keep: config.keep_job_logs,
        max_age_days: config.job_logs_max_age_days,
        max_bytes: config.job_logs_max_bytes,
    }
}

/// What a cleanup of captured logs does to the journal and says in its report,
/// up to the removals themselves.
pub open spec fn logs_reconciled(
    b: Books,
    ids: Seq<i64>,
    config: Config,
    records: Seq<ArtifactRecord>,
    dirs: Seq<LogDir>,
    refused: bool,
    now: i64,
) -> Books {
    let cleared = stale_logs(b, records, log_paths(dirs), refused);
    let attached = attached_logs(cleared, ids, dirs, records, refused);
    Books {
        report: planned_logs(
            attached.report,
            dirs,
            log_candidates(dirs, records),
            log_policy(config),
            now,
            dirs.len() as int,
        ),
        ..attached
    }
}

fn clear_stale_log(store: &mut Store, record: &ArtifactRecord, dirs: &Vec<LogDir>, report: &mut CleanupReport)
    requires
        old(store).well_formed(),
        old(report).stale_references < usize::MAX,
    ensures
        final(store).well_formed(),
        same_but_job_refs(*final(store), *old(store)),
        ids(final(store).jobs@) == ids(old(store).jobs@),
        (Books { refs: refs(final(store).jobs@), report: final(report)@ }) == stale_log(
            Books { refs: refs(old(store).jobs@), report: old(report)@ },
            *record,
            log_paths(dirs@),
            old(store).query_only,
        ),
        final(report)@ == (ReportView {
            stale_references: final(report)@.stale_references,
            actions: final(report)@.actions,
            errors: final(report)@.errors,
            ..old(report)@
        }),
        final(report).stale_references <= old(report).stale_references + 1,
{
    let ghost before = Books { refs: refs(store.jobs@), report: report@ };
    let ghost after = stale_log(before, *record, log_paths(dirs@), store.query_only);
    let path = match &record.log_dir {
        Some(path) => path,
        None => return ,
    };
    for i in 0..dirs.len()
        invariant
            *store == *old(store),
            *report == *old(report),
            forall|k: int| 0 <= k < i ==> #[trigger] log_paths(dirs@)[k] != path@,
            record.log_dir == Some(*path),
            before == (Books { refs: refs(store.jobs@), report: report@ }),
            after == stale_log(before, *record, log_paths(dirs@), store.query_only),
            store.well_formed(),
    {
        assert(log_paths(dirs@)[i as int] == dirs@[i as int].path@);
        if text::same_str(dirs[i].path.as_str(), path.as_str()) {
            assert(log_paths(dirs@).contains(path@));
            return ;
        }
    }
    assert(!log_paths(dirs@).contains(path@));
    report.stale_references = report.stale_references + 1;
    proof {
        reveal_strlit("");
    }
    let action = text::chain("clear missing log reference ", path.as_str(), "");
    assert(action@ =~= "clear missing log reference "@ + path@);
    text::push_text(&mut report.actions, action);
    if !report.dry_run {
        if let Err(e) = clear_logs(store, path.as_str()) {
            let m = text::chain5("clear log reference ", path.as_str(), ": ", e.message(), "");
            assert(m@ =~= "clear log reference "@ + path@ + ": "@ + refusal());
            text::push_text(&mut report.errors, m);
        }
    }
    assert((Books { refs: refs(store.jobs@), report: report@ }) =~= after);
}

fn attach_log_dir(
    store: &mut Store,
    dir: &LogDir,
    records: &Vec<ArtifactRecord>,
    report: &mut CleanupReport,
)
    requires
        old(store).well_formed(),
        old(report).repaired < usize::MAX,
    ensures
        final(store).well_formed(),
        same_but_job_refs(*final(store), *old(store)),
        ids(final(store).jobs@) == ids(old(store).jobs@),
        (Books { refs: refs(final(store).jobs@), report: final(report)@ }) == attached_log(
            Books { refs: refs(old(store).jobs@), report: old(report)@ },
            ids(old(store).jobs@),
            *dir,
            records@,
            old(store).query_only,
        ),
        final(report)@ == (ReportView {
            repaired: final(report)@.repaired,
            actions: final(report)@.actions,
            errors: final(report)@.errors,
            ..old(report)@
        }),
        final(report).repaired <= old(report).repaired + 1,
{
    let ghost before = Books { refs: refs(store.jobs@), report: report@ };
    let ghost after = attached_log(before, ids(store.jobs@), *dir, records@, store.query_only);
    let record = match find_record(records, dir.job_id) {
        Some(record) => record,
        None => return ,
    };
    if record.log_dir.is_some() {
        return ;
    }
    let id = number::integer_text(record.job_id);
    let action = text::chain5(
        "attach log directory ",
        dir.path.as_str(),
        " to job ",
        id.as_str(),
        "",
    );
    proof {
        reveal_strlit("");
    }
    assert(action@ =~= "attach log directory "@ + dir.path@ + " to job "@ + id@);
    text::push_text(&mut report.actions, action);
    if report.dry_run {
        report.repaired = report.repaired + 1;
    } else {
        match attach_logs(store, record.job_id, dir.path.as_str()) {
            Ok(n) => {
                report.repaired = report.repaired + n;
            },
            Err(e) => {
                let m = text::chain5(
                    "attach log directory ",
                    dir.path.as_str(),
                    ": ",
                    e.message(),
                    "",
                );
                assert(m@ =~= "attach log directory "@ + dir.path@ + ": "@ + refusal());
                text::push_text(&mut report.errors, m);
            },
        }
    }
    assert((Books { refs: refs(store.jobs@), report: report@ }) =~= after);
}

/// The bytes of all directories.
pub open spec fn log_bytes(dirs: Seq<LogDir>) -> int {
    all_bytes(dirs.map_values(|d: LogDir| d.candidate), dirs.len() as int)
}

/// Reconciles captured logs with the journal: forgets references to what is
/// missing, attaches what no job refers to, and plans the removals that the
/// policy asks for. Hands out the positions of the directories to remove; on a
/// dry run there are none.
pub fn cleanup_logs(
    config: &Config,
    store: &mut Store,
    records: &Vec<ArtifactRecord>,
    dirs: &Vec<LogDir>,
    now: i64,
    report: &mut CleanupReport,
) -> (r: Vec<usize>)
    requires
        old(store).well_formed(),
        old(report).has_room(records@.len() as int, dirs@.len() as int, log_bytes(dirs@)),
    ensures
        final(store).well_formed(),
        same_but_job_refs(*final(store), *old(store)),
        (Books { refs: refs(final(store).jobs@), report: final(report)@ }) == logs_reconciled(
            Books { refs: refs(old(store).jobs@), report: old(report)@ },
            ids(old(store).jobs@),
            *config,
            records@,
            dirs@,
            old(store).query_only,
            now,
        ),
        r@.map_values(|i: usize| i as int) == if old(report).dry_run {
            Seq::empty()
        } else {
            gone(log_candidates(dirs@, records@), log_policy(*config), now, dirs@.len() as int)
        },
{
    let ghost start = Books { refs: refs(store.jobs@), report: report@ };
    let ghost keys = ids(store.jobs@);
    let ghost refused = store.query_only;
    let ghost paths = log_paths(dirs@);
    let ghost first = *report;
    let ghost old_store = *store;
    for i in 0..records.len()
        invariant
            store.well_formed(),
            same_but_job_refs(*store, old_store),
            ids(store.jobs@) == keys,
            store.query_only == refused,
            paths == log_paths(dirs@),
            (Books { refs: refs(store.jobs@), report: report@ }) == stale_logs(
                start,
                records@.take(i as int),
                paths,
                refused,
            ),
            report@ == (ReportView {
                stale_references: report@.stale_references,
                actions: report@.actions,
                errors: report@.errors,
                ..first@
            }),
            report.stale_references <= first.stale_references + i,
            first.has_room(records@.len() as int, dirs@.len() as int, log_bytes(dirs@)),
    {
        assert(records@.take(i + 1).drop_last() =~= records@.take(i as int));
        clear_stale_log(store, &records[i], dirs, report);
    }
    assert(records@.take(records@.len() as int) =~= records@);
    let ghost cleared = stale_logs(start, records@, paths, refused);
    for i in 0..dirs.len()
        invariant
            store.well_formed(),
            same_but_job_refs(*store, old_store),
            ids(store.jobs@) == keys,
            store.query_only == refused,
            (Books { refs: refs(store.jobs@), report: report@ }) == attached_logs(
                cleared,
                keys,
                dirs@.take(i as int),
                records@,
                refused,
            ),
            report@ == (ReportView {
                stale_references: report@.stale_references,
                repaired: report@.repaired,
                actions: report@.actions,
                errors: report@.errors,
                ..first@
            }),
            report.repaired <= first.repaired + i,
            first.has_room(records@.len() as int, dirs@.len() as int, log_bytes(dirs@)),
    {
        assert(dirs@.take(i + 1).drop_last() =~= dirs@.take(i as int));
        attach_log_dir(store, &dirs[i], records, report);
    }
    assert(dirs@.take(dirs@.len() as int) =~= dirs@);
    let ghost attached = attached_logs(cleared, keys, dirs@, records@, refused);
    let mut candidates: Vec<Candidate> = Vec::new();
    for i in 0..dirs.len()
        invariant
            candidates@ =~= log_candidates(dirs@.take(i as int), records@),
    {
        let record = find_record(records, dirs[i].job_id);
        candidates.push(date_candidate(&dirs[i].candidate, record));
    }
    assert(candidates@ =~= log_candidates(dirs@, records@));
    let ghost c = candidates@;
    let ghost policy = log_policy(*config);
    let selected = select_removals(
        &candidates,
        config.keep_job_logs as usize,
        config.job_logs_max_age_days,
        config.job_logs_max_bytes,
        now,
    );
    let ghost own = dirs@.map_values(|d: LogDir| d.candidate);
    let mut r: Vec<usize> = Vec::new();
    assert(r@.map_values(|i: usize| i as int) =~= Seq::empty());
    for i in 0..dirs.len()
        invariant
            c == candidates@,
            c.len() == dirs@.len(),
            policy == log_policy(*config),
            own == dirs@.map_values(|d: LogDir| d.candidate),
            log_bytes(dirs@) == all_bytes(own, dirs@.len() as int),
            forall|k: usize|
                selected@.contains(k) <==> k < c.len() && goes(c, policy, now, k as int),
            report@ == planned_logs(attached.report, dirs@, c, policy, now, i as int),
            report.planned <= first.planned + i,
            report.dry_run == first.dry_run,
            report.reclaimed_bytes <= first.reclaimed_bytes + all_bytes(own, i as int),
            first.has_room(records@.len() as int, dirs@.len() as int, log_bytes(dirs@)),
            r@.map_values(|i: usize| i as int) == if first.dry_run {
                Seq::empty()
            } else {
                gone(c, policy, now, i as int)
            },
    {
        broadcast use vstd::std_specs::hash::group_hash_axioms;

        proof {
            lemma_all_bytes_grow(own, i + 1, dirs@.len() as int);
            assert(own[i as int] == dirs@[i as int].candidate);
        }
        if selected.contains(&i) {
            plan_removal(report, " log directory ", &dirs[i].candidate);
            if !report.dry_run {
                let ghost before = r@;
                r.push(i);
                assert(r@.map_values(|i: usize| i as int) =~= before.map_values(
                    |i: usize| i as int,
                ).push(i as int));
            }
        }
    }
    r
}

/// What becomes of the journal and the report once a directory is removed, or
/// could not be.
pub open spec fn log_dir_removed(
    b: Books,
    dir: LogDir,
    outcome: Result<(), Seq<char>>,
    refused: bool,
) -> Books {
    match outcome {
        Ok(_) => {
            let report = ReportView {
                removed: b.report.removed + 1,
                reclaimed_bytes: b.report.reclaimed_bytes + dir.candidate.bytes,
                ..b.report
            };
            if refused {
                Books {
                    report: ReportView {
                        errors: report.errors.push(
                            "removed "@ + dir.path@
                                + " but could not clear its journal reference: "@ + refusal(),
                        ),
                        ..report
                    },
                    ..b
                }
            } else {
                Books { refs: logs_cleared(b.refs, dir.path@), report }
            }
        },
        Err(e) => Books {
            report: ReportView {
                errors: b.report.errors.push("remove log directory "@ + dir.path@ + ": "@ + e),
                ..b.report
            },
            ..b
        },
    }
}

pub open spec fn outcome_text(r: Result<(), String>) -> Result<(), Seq<char>> {
    match r {
        Ok(_) => Ok(()),
        Err(e) => Err(e@),
    }
}

/// Records that a directory of captured logs was removed, or could not be:
/// only what is removed is forgotten.
pub fn remove_log_dir_with(
    store: &mut Store,
    dir: &LogDir,
    report: &mut CleanupReport,
    outcome: Result<(), String>,
)
    requires
        old(store).well_formed(),
        outcome is Ok ==> old(report).can_remove(dir.candidate.bytes),
    ensures
        final(store).well_formed(),
        same_but_job_refs(*final(store), *old(store)),
        (Books { refs: refs(final(store).jobs@), report: final(report)@ }) == log_dir_removed(
            Books { refs: refs(old(store).jobs@), report: old(report)@ },
            *dir,
            outcome_text(outcome),
            old(store).query_only,
        ),
{
    let ghost before = Books { refs: refs(store.jobs@), report: report@ };
    let ghost after = log_dir_removed(before, *dir, outcome_text(outcome), store.query_only);
    proof {
        reveal_strlit("");
    }
    match outcome {
        Ok(_) => {
            report.removed = report.removed + 1;
            report.reclaimed_bytes = report.reclaimed_bytes + dir.candidate.bytes;
            if let Err(e) = clear_logs(store, dir.path.as_str()) {
                let m = text::chain5(
                    "removed ",
                    dir.path.as_str(),
                    " but could not clear its journal reference: ",
                    e.message(),
                    "",
                );
                assert(m@ =~= "removed "@ + dir.path@
                    + " but could not clear its journal reference: "@ + refusal());
                text::push_text(&mut report.errors, m);
            }
        },
        Err(e) => {
            let m = text::chain5("remove log directory ", dir.path.as_str(), ": ", e.as_str(), "");
            assert(m@ =~= "remove log directory "@ + dir.path@ + ": "@ + e@);
            text::push_text(&mut report.errors, m);
        },
    }
    assert((Books { refs: refs(store.jobs@), report: report@ }) =~= after);
}

// -- kept images -------------------------------------------------------------------------------------

/// The runtime of a name.
pub open spec fn runtime_of(name: Seq<char>) -> Option<RuntimeKind> {
    if name == "docker"@ {
        Some(RuntimeKind::Docker)
    } else if name == "apple-container"@ {
        Some(RuntimeKind::AppleContainer)
    } else {
        None
    }
}

/// The runtime of a name.
pub fn runtime_named(name: &str) -> (r: Option<RuntimeKind>)
    ensures
        r == runtime_of(name@),
{
    if text::same_str(name, "docker") {
        Some(RuntimeKind::Docker)
    } else if text::same_str(name, "apple-container") {
        Some(RuntimeKind::AppleContainer)
    } else {
        None
    }
}

/// Every runtime is found again by its name.
pub proof fn law_runtimes_are_found_by_name(kind: RuntimeKind)
    ensures
        runtime_of(kind.spec_name()) == Some(kind),
{
    reveal_strlit("docker");
    reveal_strlit("apple-container");
    assert("docker"@.len() != "apple-container"@.len());
}

/// The job whose workspace an image of a standard tag is.
pub open spec fn tag_job(tag: Seq<char>) -> Option<int> {
    if "homerunner-kept:"@.is_prefix_of(tag) {
        number::signed(tag.skip("homerunner-kept:"@.len() as int))
    } else {
        None
    }
}

/// The job whose workspace an image of a standard tag is.
pub fn image_job_id(tag: &str) -> (r: Option<i64>)
    ensures
        r is Some == tag_job(tag@) is Some,
        r matches Some(id) ==> tag_job(tag@) == Some(id as int),
{
    let t = text::chars(tag);
    if !text::starts(&t, "homerunner-kept:") {
        return None;
    }
    let n = text::chars("homerunner-kept:").len();
    let rest = vstd::slice::slice_subrange(&t, n, t.len());
    assert(rest@ =~= tag@.skip("homerunner-kept:"@.len() as int));
    number::parse_i64(rest)
}

/// The tag of a kept image.
pub open spec fn kept_tag(key: Seq<char>) -> Seq<char> {
    "homerunner-kept:"@ + key
}

/// The tag of a job's workspace names its job.
pub proof fn law_standard_tags_name_their_jobs(id: i64)
    ensures
        tag_job(kept_tag(number::dec_int(id as int))) == Some(id as int),
{
    let tag = kept_tag(number::dec_int(id as int));
    let p = "homerunner-kept:"@;
    assert(tag.subrange(0, p.len() as int) =~= p);
    assert(tag.skip(p.len() as int) =~= number::dec_int(id as int));
    number::law_written_integers_read_back(id);
}

/// A kept image.
#[derive(Debug)]
pub struct ImageArtifact {
    pub candidate: Candidate,
    pub runtime: RuntimeKind,
    pub job_id: Option<i64>,
}

/// What a runtime says it keeps, or why it does not say.
#[derive(Debug)]
pub struct ImageInventory {
    pub runtime: RuntimeKind,
    pub found: Result<Vec<KeptImage>, String>,
}

/// A record refers to an image of a runtime.
pub open spec fn refers_to(record: ArtifactRecord, runtime: RuntimeKind, tag: Seq<char>) -> bool {
    &&& record.kept_image_runtime is Some
    &&& runtime_of(record.kept_image_runtime->0@) == Some(runtime)
    &&& text::opt_text(record.kept_image) == Some(tag)
}

/// The job of the last record that refers to an image.
pub open spec fn tracked_job(
    records: Seq<ArtifactRecord>,
    runtime: RuntimeKind,
    tag: Seq<char>,
) -> Option<i64>
    decreases records.len(),
{
    if records.len() == 0 {
        None
    } else if refers_to(records.last(), runtime, tag) {
        Some(records.last().job_id)
    } else {
        tracked_job(records.drop_last(), runtime, tag)
    }
}

/// The job of an image: the one that refers to it, else the one that its tag names.
pub open spec fn image_job(
    records: Seq<ArtifactRecord>,
    runtime: RuntimeKind,
    tag: Seq<char>,
) -> Option<i64> {
    match tracked_job(records, runtime, tag) {
        Some(id) => Some(id),
        None => match tag_job(tag) {
            Some(id) => Some(id as i64),
            None => None,
        },
    }
}

fn find_tracked(records: &Vec<ArtifactRecord>, runtime: RuntimeKind, tag: &str) -> (r: Option<i64>)
    ensures
        r == tracked_job(records@, runtime, tag@),
{
    let mut k = records.len();
    assert(records@.take(k as int) =~= records@);
    while k > 0
        invariant
            k <= records@.len(),
            tracked_job(records@, runtime, tag@) == tracked_job(
                records@.take(k as int),
                runtime,
                tag@,
            ),
        decreases k,
    {
        let ghost now = records@.take(k as int);
        assert(now.drop_last() =~= records@.take(k - 1));
        assert(now.last() == records@[k - 1]);
        let record = &records[k - 1];
        let same_runtime = match &record.kept_image_runtime {
            Some(name) => match runtime_named(name.as_str()) {
                Some(kind) => kind == runtime,
                None => false,
            },
            None => false,
        };
        if same_runtime && text::holds(&record.kept_image, tag) {
            return Some(record.job_id);
        }
        k = k - 1;
    }
    None
}

/// `new` is `old`, each image with its job.
pub open spec fn associated(
    new: Seq<ImageArtifact>,
    old: Seq<ImageArtifact>,
    records: Seq<ArtifactRecord>,
) -> bool {
    &&& new.len() == old.len()
    &&& forall|i: int|
        0 <= i < old.len() ==> #[trigger] new[i] == (ImageArtifact {
            job_id: image_job(records, old[i].runtime, old[i].candidate.name@),
            ..old[i]
        })
}

/// Gives each image its job.
pub fn associate_image_jobs(images: &mut Vec<ImageArtifact>, records: &Vec<ArtifactRecord>)
    ensures
        associated(final(images)@, old(images)@, records@),
{
    let ghost before = images@;
    let n = images.len();
    for i in 0..n
        invariant
            n == before.len(),
            images@.len() == n,
            forall|k: int|
                0 <= k < i ==> #[trigger] images@[k] == (ImageArtifact {
                    job_id: image_job(records@, before[k].runtime, before[k].candidate.name@),
                    ..before[k]
                }),
            forall|k: int| i <= k < n ==> #[trigger] images@[k] == before[k],
    {
        let image = &images[i];
        let job_id = match find_tracked(records, image.runtime, image.candidate.name.as_str()) {
            Some(id) => Some(id),
            None => image_job_id(image.candidate.name.as_str()),
        };
        let with_job = ImageArtifact {
            candidate: Candidate {
                name: image.candidate.name.clone(),
                bytes: image.candidate.bytes,
                timestamp: image.candidate.timestamp,
            },
            runtime: image.runtime,
            job_id,
        };
        images.set(i, with_job);
    }
}

/// A runtime is in use: a repo is served by it, or a record refers to it.
pub open spec fn is_in_use(config: Config, records: Seq<ArtifactRecord>, kind: RuntimeKind) -> bool {
    ||| exists|i: int| 0 <= i < config.repos@.len() && (#[trigger] config.repos@[i]).runtime == kind
    ||| exists|i: int|
        0 <= i < records.len() && (#[trigger] records[i]).kept_image_runtime is Some && runtime_of(
            records[i].kept_image_runtime->0@,
        ) == Some(kind)
}

fn in_use(config: &Config, records: &Vec<ArtifactRecord>, kind: RuntimeKind) -> (r: bool)
    ensures
        r == is_in_use(*config, records@, kind),
{
    for i in 0..config.repos.len()
        invariant
            forall|k: int| 0 <= k < i ==> (#[trigger] config.repos@[k]).runtime != kind,
    {
        if config.repos[i].runtime == kind {
            return true;
        }
    }
    for i in 0..records.len()
        invariant
            forall|k: int|
                0 <= k < config.repos@.len() ==> (#[trigger] config.repos@[k]).runtime != kind,
            forall|k: int|
                0 <= k < i ==> !((#[trigger] records@[k]).kept_image_runtime is Some && runtime_of(
                    records@[k].kept_image_runtime->0@,
                ) == Some(kind)),
    {
        if let Some(name) = &records[i].kept_image_runtime {
            if let Some(found) = runtime_named(name.as_str()) {
                if found == kind {
                    return true;
                }
            }
        }
    }
    false
}

/// The runtimes whose kept images are looked through.
pub fn image_runtimes(config: &Config, records: &Vec<ArtifactRecord>) -> (r: Vec<RuntimeKind>)
    ensures
        forall|kind: RuntimeKind| r@.contains(kind) == is_in_use(*config, records@, kind),
        r@.no_duplicates(),
{
    let docker = in_use(config, records, RuntimeKind::Docker);
    let apple = in_use(config, records, RuntimeKind::AppleContainer);
    let mut r: Vec<RuntimeKind> = Vec::new();
    if docker {
        r.push(RuntimeKind::Docker);
    }
    if apple {
        r.push(RuntimeKind::AppleContainer);
    }
    assert forall|kind: RuntimeKind| r@.contains(kind) == is_in_use(*config, records@, kind) by {
        if docker {
            assert(r@[0] == RuntimeKind::Docker);
        }
        if apple {
            assert(r@[r@.len() - 1] == RuntimeKind::AppleContainer);
        }
    }
    r
}

/// The images of some inventories, as `(runtime, tag, bytes)`.
pub open spec fn found_images(inventories: Seq<ImageInventory>) -> Seq<(RuntimeKind, Seq<char>, u64)>
    decreases inventories.len(),
{
    if inventories.len() == 0 {
        Seq::empty()
    } else {
        let last = inventories.last();
        found_images(inventories.drop_last()) + (match last.found {
            Ok(v) => v@.map_values(|k: KeptImage| (last.runtime, k.tag@, k.size_bytes)),
            Err(_) => Seq::empty(),
        })
    }
}

pub open spec fn image_views(images: Seq<ImageArtifact>) -> Seq<(RuntimeKind, Seq<char>, u64)> {
    images.map_values(|i: ImageArtifact| (i.runtime, i.candidate.name@, i.candidate.bytes))
}

/// What the report says of the inventories that failed.
pub open spec fn inventory_errors(r: ReportView, inventories: Seq<ImageInventory>) -> ReportView
    decreases inventories.len(),
{
    if inventories.len() == 0 {
        r
    } else {
        let before = inventory_errors(r, inventories.drop_last());
        match inventories.last().found {
            Ok(_) => before,
            Err(e) => ReportView {
                errors: before.errors.push(
                    "inventory "@ + inventories.last().runtime.spec_name() + " kept images: "@ + e@,
                ),
                ..before
            },
        }
    }
}

/// A runtime said what it keeps.
pub open spec fn is_known(inventories: Seq<ImageInventory>, kind: RuntimeKind) -> bool {
    exists|i: int|
        0 <= i < inventories.len() && (#[trigger] inventories[i]).runtime == kind
            && inventories[i].found is Ok
}

/// The image is there.
pub open spec fn is_there(
    images: Seq<(RuntimeKind, Seq<char>, u64)>,
    kind: RuntimeKind,
    tag: Seq<char>,
) -> bool {
    exists|i: int|
        0 <= i < images.len() && (#[trigger] images[i]).0 == kind && images[i].1 == tag
}

/// After a record that refers to an image: one that a runtime should have and
/// has not is forgotten.
pub open spec fn stale_image(
    b: Books,
    ids: Seq<i64>,
    record: ArtifactRecord,
    inventories: Seq<ImageInventory>,
    refused: bool,
) -> Books {
    match (record.kept_image, record.kept_image_runtime) {
        (Some(tag), Some(name)) => match runtime_of(name@) {
            None => Books {
                report: ReportView {
                    errors: b.report.errors.push(
                        "job "@ + number::dec_int(record.job_id as int)
                            + " has unknown image runtime "@ + name@,
                    ),
                    ..b.report
                },
                ..b
            },
            Some(kind) => if is_known(inventories, kind) && !is_there(
                found_images(inventories),
                kind,
                tag@,
            ) {
                let report = ReportView {
                    stale_references: b.report.stale_references + 1,
                    actions: b.report.actions.push("clear missing image reference "@ + tag@),
                    ..b.report
                };
                if b.report.dry_run {
                    Books { report, ..b }
                } else if refused {
                    Books {
                        report: ReportView {
                            errors: b.report.errors.push(
                                "clear image reference "@ + tag@ + ": "@ + refusal(),
                            ),
                            ..report
                        },
                        ..b
                    }
                } else {
                    Books { refs: image_cleared(b.refs, ids, record.job_id), report }
                }
            } else {
                b
            },
        },
        _ => b,
    }
}

/// After every record that refers to an image.
pub open spec fn stale_images(
    b: Books,
    ids: Seq<i64>,
    records: Seq<ArtifactRecord>,
    inventories: Seq<ImageInventory>,
    refused: bool,
) -> Books
    decreases records.len(),
{
    if records.len() == 0 {
        b
    } else {
        stale_image(
            stale_images(b, ids, records.drop_last(), inventories, refused),
            ids,
            records.last(),
            inventories,
            refused,
        )
    }
}

/// After an image whose job refers to none.
pub open spec fn attached_image(
    b: Books,
    ids: Seq<i64>,
    image: (RuntimeKind, Seq<char>, u64),
    records: Seq<ArtifactRecord>,
    refused: bool,
) -> Books {
    match record_for(records, image_job(records, image.0, image.1)) {
        Some(record) => if record.kept_image is Some {
            b
        } else {
            let report = ReportView {
                actions: b.report.actions.push(
                    "attach image "@ + image.1 + " to job "@ + number::dec_int(
                        record.job_id as int,
                    ),
                ),
                ..b.report
            };
            if b.report.dry_run {
                Books { report: ReportView { repaired: report.repaired + 1, ..report }, ..b }
            } else if refused {
                Books {
                    report: ReportView {
                        errors: b.report.errors.push(
                            "attach image "@ + image.1 + ": "@ + refusal(),
                        ),
                        ..report
                    },
                    ..b
                }
            } else {
                Books {
                    refs: image_attached(
                        b.refs,
                        ids,
                        record.job_id,
                        image.1,
                        image.0.spec_name(),
                    ),
                    report: ReportView {
                        repaired: report.repaired + if no_image(b.refs, ids, record.job_id) {
                            1int
                        } else {
                            0
                        },
                        ..report
                    },
                }
            }
        },
        None => b,
    }
}

/// After every image whose job refers to none.
pub open spec fn attached_images(
    b: Books,
    ids: Seq<i64>,
    images: Seq<(RuntimeKind, Seq<char>, u64)>,
    records: Seq<ArtifactRecord>,
    refused: bool,
) -> Books
    decreases images.len(),
{
    if images.len() == 0 {
        b
    } else {
        attached_image(
            attached_images(b, ids, images.drop_last(), records, refused),
            ids,
            images.last(),
            records,
            refused,
        )
    }
}

/// The images as artifacts, each dated by its job; one without a dated job
/// counts as the oldest.
pub open spec fn image_candidates(images: Seq<ImageArtifact>, records: Seq<ArtifactRecord>) -> Seq<
    Candidate,
> {
    images.map_values(|i: ImageArtifact| dated(i.candidate, record_for(records, i.job_id)))
}

/// After the plan to remove what the policy removes of the first `n` images.
pub open spec fn planned_images(
    r: ReportView,
    images: Seq<ImageArtifact>,
    c: Seq<Candidate>,
    policy: Policy,
    now: i64,
    n: int,
) -> ReportView
    decreases n,
{
    if n <= 0 {
        r
    } else {
        let before = planned_images(r, images, c, policy, now, n - 1);
        if goes(c, policy, now, n - 1) {
            with_removal(
                before,
                " "@ + images[n - 1].runtime.spec_name() + " image "@,
                images[n - 1].candidate,
            )
        } else {
            before
        }
    }
}

/// The policy for kept images.
pub open spec fn image_policy(config: Config) -> Policy {
    Policy {
        keep: config.keep_failed_workspaces,
        max_age_days: config.failed_workspaces_max_age_days,
        max_bytes: config.failed_workspaces_max_bytes,
    }
}

/// `images` are the images of the inventories, each with its job.
pub open spec fn are_found(
    images: Seq<ImageArtifact>,
    inventories: Seq<ImageInventory>,
    records: Seq<ArtifactRecord>,
) -> bool {
    &&& image_views(images) == found_images(inventories)
    &&& forall|i: int|
        0 <= i < images.len() ==> {
            &&& (#[trigger] images[i]).candidate.timestamp == 0
            &&& images[i].job_id == image_job(records, images[i].runtime, images[i].candidate.name@)
        }
}

/// What a cleanup of kept images does to the journal and says in its report,
/// up to the removals themselves.
pub open spec fn images_reconciled(
    b: Books,
    ids: Seq<i64>,
    config: Config,
    records: Seq<ArtifactRecord>,
    inventories: Seq<ImageInventory>,
    images: Seq<ImageArtifact>,
    refused: bool,
    now: i64,
) -> Books {
    let listed = Books { report: inventory_errors(b.report, inventories), ..b };
    let cleared = stale_images(listed, ids, records, inventories, refused);
    let attached = attached_images(cleared, ids, image_views(images), records, refused);
    Books {
        report: planned_images(
            attached.report,
            images,
            image_candidates(images, records),
            image_policy(config),
            now,
            images.len() as int,
        ),
        ..attached
    }
}

/// The bytes of all images that were found.
pub open spec fn found_bytes(images: Seq<(RuntimeKind, Seq<char>, u64)>) -> int
    decreases images.len(),
{
    if images.len() == 0 {
        0
    } else {
        found_bytes(images.drop_last()) + images.last().2
    }
}

fn list_images(inventories: &Vec<ImageInventory>, report: &mut CleanupReport) -> (r: Vec<
    ImageArtifact,
>)
    ensures
        image_views(r@) == found_images(inventories@),
        forall|i: int| 0 <= i < r@.len() ==> (#[trigger] r@[i]).candidate.timestamp == 0,
        final(report)@ == inventory_errors(old(report)@, inventories@),
{
    let mut images: Vec<ImageArtifact> = Vec::new();
    let ghost start = report@;
    assert(image_views(images@) =~= found_images(inventories@.take(0)));
    for i in 0..inventories.len()
        invariant
            image_views(images@) == found_images(inventories@.take(i as int)),
            forall|k: int| 0 <= k < images@.len() ==> (#[trigger] images@[k]).candidate.timestamp == 0,
            report@ == inventory_errors(start, inventories@.take(i as int)),
    {
        let ghost now = inventories@.take(i + 1);
        assert(now.drop_last() =~= inventories@.take(i as int));
        assert(now.last() == inventories@[i as int]);
        let inventory = &inventories[i];
        match &inventory.found {
            Ok(found) => {
                let ghost before = image_views(images@);
                let ghost kind = inventory.runtime;
                let ghost all = found@.map_values(|k: KeptImage| (kind, k.tag@, k.size_bytes));
                assert(before + all.take(0) =~= before);
                for j in 0..found.len()
                    invariant
                        kind == inventory.runtime,
                        all == found@.map_values(|k: KeptImage| (kind, k.tag@, k.size_bytes)),
                        image_views(images@) == before + all.take(j as int),
                        forall|k: int|
                            0 <= k < images@.len() ==> (#[trigger] images@[k]).candidate.timestamp
                                == 0,
                {
                    let ghost was = images@;
                    let image = ImageArtifact {
                        job_id: image_job_id(found[j].tag.as_str()),
                        candidate: Candidate {
                            name: found[j].tag.clone(),
                            bytes: found[j].size_bytes,
                            timestamp: 0,
                        },
                        runtime: inventory.runtime,
                    };
                    images.push(image);
                    assert(image_views(images@) =~= image_views(was).push(all[j as int]));
                    assert(image_views(images@) =~= before + all.take(j + 1));
                }
                assert(all.take(all.len() as int) =~= all);
                assert(found_images(now) =~= before + all);
            },
            Err(e) => {
                assert(found_images(now) =~= image_views(images@));
                let m = text::chain5(
                    "inventory ",
                    inventory.runtime.name(),
                    " kept images: ",
                    e.as_str(),
                    "",
                );
                proof {
                    reveal_strlit("");
                }
                assert(m@ =~= "inventory "@ + inventory.runtime.spec_name() + " kept images: "@
                    + e@);
                text::push_text(&mut report.errors, m);
                assert(report@ =~= inventory_errors(start, now));
            },
        }
    }
    assert(inventories@.take(inventories@.len() as int) =~= inventories@);
    images
}

fn known(inventories: &Vec<ImageInventory>, kind: RuntimeKind) -> (r: bool)
    ensures
        r == is_known(inventories@, kind),
{
    for i in 0..inventories.len()
        invariant
            forall|k: int|
                0 <= k < i ==> !((#[trigger] inventories@[k]).runtime == kind
                    && inventories@[k].found is Ok),
    {
        if inventories[i].runtime == kind {
            if let Ok(_) = &inventories[i].found {
                return true;
            }
        }
    }
    false
}

fn there(images: &Vec<ImageArtifact>, kind: RuntimeKind, tag: &str) -> (r: bool)
    ensures
        r == is_there(image_views(images@), kind, tag@),
{
    let ghost views = image_views(images@);
    for i in 0..images.len()
        invariant
            views == image_views(images@),
            forall|k: int| 0 <= k < i ==> !((#[trigger] views[k]).0 == kind && views[k].1 == tag@),
    {
        assert(views[i as int] == (
            images@[i as int].runtime,
            images@[i as int].candidate.name@,
            images@[i as int].candidate.bytes,
        ));
        if images[i].runtime == kind && text::same_str(images[i].candidate.name.as_str(), tag) {
            return true;
        }
    }
    false
}

fn clear_stale_image(
    store: &mut Store,
    record: &ArtifactRecord,
    inventories: &Vec<ImageInventory>,
    images: &Vec<ImageArtifact>,
    report: &mut CleanupReport,
)
    requires
        old(store).well_formed(),
        old(report).stale_references < usize::MAX,
        image_views(images@) == found_images(inventories@),
    ensures
        final(store).well_formed(),
        same_but_job_refs(*final(store), *old(store)),
        ids(final(store).jobs@) == ids(old(store).jobs@),
        (Books { refs: refs(final(store).jobs@), report: final(report)@ }) == stale_image(
            Books { refs: refs(old(store).jobs@), report: old(report)@ },
            ids(old(store).jobs@),
            *record,
            inventories@,
            old(store).query_only,
        ),
        final(report)@ == (ReportView {
            stale_references: final(report)@.stale_references,
            actions: final(report)@.actions,
            errors: final(report)@.errors,
            ..old(report)@
        }),
        final(report).stale_references <= old(report).stale_references + 1,
{
    let ghost before = Books { refs: refs(store.jobs@), report: report@ };
    let ghost after = stale_image(
        before,
        ids(store.jobs@),
        *record,
        inventories@,
        store.query_only,
    );
    proof {
        reveal_strlit("");
    }
    if let (Some(tag), Some(name)) = (&record.kept_image, &record.kept_image_runtime) {
        match runtime_named(name.as_str()) {
            None => {
                let id = number::integer_text(record.job_id);
                let m = text::chain5(
                    "job ",
                    id.as_str(),
                    " has unknown image runtime ",
                    name.as_str(),
                    "",
                );
                assert(m@ =~= "job "@ + id@ + " has unknown image runtime "@ + name@);
                text::push_text(&mut report.errors, m);
            },
            Some(kind) => {
                if known(inventories, kind) && !there(images, kind, tag.as_str()) {
                    report.stale_references = report.stale_references + 1;
                    let action = text::chain("clear missing image reference ", tag.as_str(), "");
                    assert(action@ =~= "clear missing image reference "@ + tag@);
                    text::push_text(&mut report.actions, action);
                    if !report.dry_run {
                        if let Err(e) = clear_image(store, record.job_id) {
                            let m = text::chain5(
                                "clear image reference ",
                                tag.as_str(),
                                ": ",
                                e.message(),
                                "",
                            );
                            assert(m@ =~= "clear image reference "@ + tag@ + ": "@ + refusal());
                            text::push_text(&mut report.errors, m);
                        }
                    }
                }
            },
        }
    }
    assert((Books { refs: refs(store.jobs@), report: report@ }) =~= after);
}

fn attach_found_image(
    store: &mut Store,
    image: &ImageArtifact,
    records: &Vec<ArtifactRecord>,
    report: &mut CleanupReport,
)
    requires
        old(store).well_formed(),
        old(report).repaired < usize::MAX,
        image.job_id == image_job(records@, image.runtime, image.candidate.name@),
    ensures
        final(store).well_formed(),
        same_but_job_refs(*final(store), *old(store)),
        ids(final(store).jobs@) == ids(old(store).jobs@),
        (Books { refs: refs(final(store).jobs@), report: final(report)@ }) == attached_image(
            Books { refs: refs(old(store).jobs@), report: old(report)@ },
            ids(old(store).jobs@),
            (image.runtime, image.candidate.name@, image.candidate.bytes),
            records@,
            old(store).query_only,
        ),
        final(report)@ == (ReportView {
            repaired: final(report)@.repaired,
            actions: final(report)@.actions,
            errors: final(report)@.errors,
            ..old(report)@
        }),
        final(report).repaired <= old(report).repaired + 1,
{
    let ghost before = Books { refs: refs(store.jobs@), report: report@ };
    let ghost after = attached_image(
        before,
        ids(store.jobs@),
        (image.runtime, image.candidate.name@, image.candidate.bytes),
        records@,
        store.query_only,
    );
    let record = match find_record(records, image.job_id) {
        Some(record) => record,
        None => return ,
    };
    if record.kept_image.is_some() {
        return ;
    }
    let tag = &image.candidate.name;
    let id = number::integer_text(record.job_id);
    let action = text::chain5("attach image ", tag.as_str(), " to job ", id.as_str(), "");
    proof {
        reveal_strlit("");
    }
    assert(action@ =~= "attach image "@ + tag@ + " to job "@ + id@);
    text::push_text(&mut report.actions, action);
    if report.dry_run {
        report.repaired = report.repaired + 1;
    } else {
        match attach_image(store, record.job_id, tag.as_str(), image.runtime.name()) {
            Ok(n) => {
                report.repaired = report.repaired + n;
            },
            Err(e) => {
                let m = text::chain5("attach image ", tag.as_str(), ": ", e.message(), "");
                assert(m@ =~= "attach image "@ + tag@ + ": "@ + refusal());
                text::push_text(&mut report.errors, m);
            },
        }
    }
    assert((Books { refs: refs(store.jobs@), report: report@ }) =~= after);
}

proof fn lemma_found_bytes(images: Seq<ImageArtifact>, n: int)
    requires
        0 <= n <= images.len(),
    ensures
        found_bytes(image_views(images).take(n)) == all_bytes(
            images.map_values(|i: ImageArtifact| i.candidate),
            n,
        ),
    decreases n,
{
    if n > 0 {
        lemma_found_bytes(images, n - 1);
        assert(image_views(images).take(n).drop_last() =~= image_views(images).take(n - 1));
    }
}

/// Plans the removals of images that the policy asks for.
fn plan_images(
    config: &Config,
    images: &Vec<ImageArtifact>,
    records: &Vec<ArtifactRecord>,
    now: i64,
    report: &mut CleanupReport,
) -> (r: Vec<usize>)
    requires
        old(report).planned + images@.len() <= usize::MAX,
        old(report).dry_run ==> old(report).reclaimed_bytes + found_bytes(image_views(images@))
            <= u64::MAX,
    ensures
        final(report)@ == planned_images(
            old(report)@,
            images@,
            image_candidates(images@, records@),
            image_policy(*config),
            now,
            images@.len() as int,
        ),
        r@.map_values(|i: usize| i as int) == if old(report).dry_run {
            Seq::empty()
        } else {
            gone(
                image_candidates(images@, records@),
                image_policy(*config),
                now,
                images@.len() as int,
            )
        },
{
    let ghost first = *report;
    let mut candidates: Vec<Candidate> = Vec::new();
    for i in 0..images.len()
        invariant
            candidates@ =~= image_candidates(images@.take(i as int), records@),
    {
        let record = find_record(records, images[i].job_id);
        candidates.push(date_candidate(&images[i].candidate, record));
    }
    assert(candidates@ =~= image_candidates(images@, records@));
    let ghost c = candidates@;
    let ghost policy = image_policy(*config);
    let selected = select_removals(
        &candidates,
        config.keep_failed_workspaces as usize,
        config.failed_workspaces_max_age_days,
        config.failed_workspaces_max_bytes,
        now,
    );
    let ghost own = images@.map_values(|i: ImageArtifact| i.candidate);
    proof {
        lemma_found_bytes(images@, images@.len() as int);
        assert(image_views(images@).take(images@.len() as int) =~= image_views(images@));
    }
    let mut r: Vec<usize> = Vec::new();
    assert(r@.map_values(|i: usize| i as int) =~= Seq::empty());
    for i in 0..images.len()
        invariant
            c == candidates@,
            c.len() == images@.len(),
            policy == image_policy(*config),
            own == images@.map_values(|i: ImageArtifact| i.candidate),
            forall|k: usize|
                selected@.contains(k) <==> k < c.len() && goes(c, policy, now, k as int),
            report@ == planned_images(first@, images@, c, policy, now, i as int),
            report.planned <= first.planned + i,
            report.dry_run == first.dry_run,
            report.reclaimed_bytes <= first.reclaimed_bytes + all_bytes(own, i as int),
            first.planned + images@.len() <= usize::MAX,
            first.dry_run ==> first.reclaimed_bytes + all_bytes(own, images@.len() as int)
                <= u64::MAX,
            r@.map_values(|i: usize| i as int) == if first.dry_run {
                Seq::empty()
            } else {
                gone(c, policy, now, i as int)
            },
    {
        broadcast use vstd::std_specs::hash::group_hash_axioms;

        proof {
            lemma_all_bytes_grow(own, i + 1, images@.len() as int);
            assert(own[i as int] == images@[i as int].candidate);
        }
        if selected.contains(&i) {
            let kind = text::chain(" ", images[i].runtime.name(), " image ");
            plan_removal(report, kind.as_str(), &images[i].candidate);
            if !report.dry_run {
                let ghost before = r@;
                r.push(i);
                assert(r@.map_values(|i: usize| i as int) =~= before.map_values(
                    |i: usize| i as int,
                ).push(i as int));
            }
        }
    }
    r
}

/// Reconciles kept images with the journal: forgets references to what a
/// runtime says it does not have, attaches what no job refers to, and plans
/// the removals that the policy asks for. Hands out the images and the
/// positions of those to remove; on a dry run there are none.
pub fn cleanup_images(
    config: &Config,
    store: &mut Store,
    records: &Vec<ArtifactRecord>,
    inventories: &Vec<ImageInventory>,
    now: i64,
    report: &mut CleanupReport,
) -> (r: (Vec<ImageArtifact>, Vec<usize>))
    requires
        old(store).well_formed(),
        old(report).has_room(
            records@.len() as int,
            found_images(inventories@).len() as int,
            found_bytes(found_images(inventories@)),
        ),
    ensures
        final(store).well_formed(),
        same_but_job_refs(*final(store), *old(store)),
        are_found(r.0@, inventories@, records@),
        (Books { refs: refs(final(store).jobs@), report: final(report)@ }) == images_reconciled(
            Books { refs: refs(old(store).jobs@), report: old(report)@ },
            ids(old(store).jobs@),
            *config,
            records@,
            inventories@,
            r.0@,
            old(store).query_only,
            now,
        ),
        r.1@.map_values(|i: usize| i as int) == if old(report).dry_run {
            Seq::empty()
        } else {
            gone(
                image_candidates(r.0@, records@),
                image_policy(*config),
                now,
                r.0@.len() as int,
            )
        },
{
    let ghost start = Books { refs: refs(store.jobs@), report: report@ };
    let ghost keys = ids(store.jobs@);
    let ghost refused = store.query_only;
    let ghost first = *report;
    let ghost old_store = *store;
    let mut images = list_images(inventories, report);
    let ghost bare = images@;
    let ghost listed = Books { report: report@, ..start };
    proof {
        lemma_inventory_frame(first@, inventories@);
    }
    associate_image_jobs(&mut images, records);
    assert(image_views(images@) =~= image_views(bare));
    let ghost n = found_images(inventories@).len();
    let ghost total = found_bytes(found_images(inventories@));
    for i in 0..records.len()
        invariant
            store.well_formed(),
            same_but_job_refs(*store, old_store),
            ids(store.jobs@) == keys,
            store.query_only == refused,
            image_views(images@) == found_images(inventories@),
            (Books { refs: refs(store.jobs@), report: report@ }) == stale_images(
                listed,
                keys,
                records@.take(i as int),
                inventories@,
                refused,
            ),
            report@ == (ReportView {
                stale_references: report@.stale_references,
                actions: report@.actions,
                errors: report@.errors,
                ..first@
            }),
            report.stale_references <= first.stale_references + i,
            first.has_room(records@.len() as int, n as int, total),
    {
        assert(records@.take(i + 1).drop_last() =~= records@.take(i as int));
        clear_stale_image(store, &records[i], inventories, &images, report);
    }
    assert(records@.take(records@.len() as int) =~= records@);
    let ghost cleared = stale_images(listed, keys, records@, inventories@, refused);
    let ghost views = image_views(images@);
    for i in 0..images.len()
        invariant
            store.well_formed(),
            same_but_job_refs(*store, old_store),
            ids(store.jobs@) == keys,
            store.query_only == refused,
            views == image_views(images@),
            views.len() == n,
            are_found(images@, inventories@, records@),
            (Books { refs: refs(store.jobs@), report: report@ }) == attached_images(
                cleared,
                keys,
                views.take(i as int),
                records@,
                refused,
            ),
            report@ == (ReportView {
                stale_references: report@.stale_references,
                repaired: report@.repaired,
                actions: report@.actions,
                errors: report@.errors,
                ..first@
            }),
            report.repaired <= first.repaired + i,
            first.has_room(records@.len() as int, n as int, total),
    {
        assert(views.take(i + 1).drop_last() =~= views.take(i as int));
        assert(views.take(i + 1).last() == (
            images@[i as int].runtime,
            images@[i as int].candidate.name@,
            images@[i as int].candidate.bytes,
        ));
        attach_found_image(store, &images[i], records, report);
    }
    assert(views.take(views.len() as int) =~= views);
    let removals = plan_images(config, &images, records, now, report);
    (images, removals)
}

pub(crate) proof fn lemma_inventory_frame(r: ReportView, inventories: Seq<ImageInventory>)
    ensures
        inventory_errors(r, inventories) == (ReportView {
            errors: inventory_errors(r, inventories).errors,
            ..r
        }),
    decreases inventories.len(),
{
    if inventories.len() > 0 {
        lemma_inventory_frame(r, inventories.drop_last());
    }
}

/// What becomes of the journal and the report once an image is removed, or
/// could not be.
pub open spec fn image_removed(
    b: Books,
    ids: Seq<i64>,
    image: ImageArtifact,
    outcome: Result<(), Seq<char>>,
    refused: bool,
) -> Books {
    match outcome {
        Ok(_) => {
            let report = ReportView {
                removed: b.report.removed + 1,
                reclaimed_bytes: b.report.reclaimed_bytes + image.candidate.bytes,
                ..b.report
            };
            match image.job_id {
                None => Books { report, ..b },
                Some(id) => if refused {
                    Books {
                        report: ReportView {
                            errors: report.errors.push(
                                "removed "@ + image.candidate.name@
                                    + " but could not clear its journal reference: "@ + refusal(),
                            ),
                            ..report
                        },
                        ..b
                    }
                } else {
                    Books { refs: image_cleared(b.refs, ids, id), report }
                },
            }
        },
        Err(e) => Books {
            report: ReportView {
                errors: b.report.errors.push(
                    "remove "@ + image.runtime.spec_name() + " image "@ + image.candidate.name@
                        + ": "@ + e,
                ),
                ..b.report
            },
            ..b
        },
    }
}

/// Records that an image was removed, or could not be: only what is removed is
/// forgotten.
pub fn record_image_removal(
    store: &mut Store,
    image: &ImageArtifact,
    result: Result<(), String>,
    report: &mut CleanupReport,
)
    requires
        old(store).well_formed(),
        result is Ok ==> old(report).can_remove(image.candidate.bytes),
    ensures
        final(store).well_formed(),
        same_but_job_refs(*final(store), *old(store)),
        (Books { refs: refs(final(store).jobs@), report: final(report)@ }) == image_removed(
            Books { refs: refs(old(store).jobs@), report: old(report)@ },
            ids(old(store).jobs@),
            *image,
            outcome_text(result),
            old(store).query_only,
        ),
{
    let ghost before = Books { refs: refs(store.jobs@), report: report@ };
    let ghost after = image_removed(
        before,
        ids(store.jobs@),
        *image,
        outcome_text(result),
        store.query_only,
    );
    proof {
        reveal_strlit("");
    }
    let tag = &image.candidate.name;
    match result {
        Ok(_) => {
            report.removed = report.removed + 1;
            report.reclaimed_bytes = report.reclaimed_bytes + image.candidate.bytes;
            if let Some(id) = image.job_id {
                if let Err(e) = clear_image(store, id) {
                    let m = text::chain5(
                        "removed ",
                        tag.as_str(),
                        " but could not clear its journal reference: ",
                        e.message(),
                        "",
                    );
                    assert(m@ =~= "removed "@ + tag@
                        + " but could not clear its journal reference: "@ + refusal());
                    text::push_text(&mut report.errors, m);
                }
            }
        },
        Err(e) => {
            let mut m = text::chain("remove ", image.runtime.name(), " image ");
            m.append(tag.as_str());
            m.append(": ");
            m.append(e.as_str());
            text::push_text(&mut report.errors, m);
        },
    }
    assert((Books { refs: refs(store.jobs@), report: report@ }) =~= after);
}

// -- layer caches -----------------------------------------------------------------------------------------

/// Why a cache that is not in use goes: no repo has a slot for it, or it has
/// not been used for too long; without an age limit it never expires.
pub open spec fn cache_reason(
    in_use: bool,
    slots: Option<u32>,
    slot: u32,
    last_used: i64,
    max_age_days: u64,
    now: i64,
) -> Option<Seq<char>> {
    if in_use {
        None
    } else if slots is None || slot >= slots->0 {
        Some("no configured cache slot"@)
    } else if max_age_days > 0 && last_used < now - max_age_days * 86_400_000_000 {
        Some("expired"@)
    } else {
        None
    }
}

/// Why a cache goes, if it does.
pub fn cache_removal_reason(
    in_use: bool,
    configured_slots: Option<u32>,
    slot: u32,
    last_used: i64,
    max_age_days: u64,
    now: i64,
) -> (r: Option<&'static str>)
    ensures
        text::opt_str(r) == cache_reason(
            in_use,
            configured_slots,
            slot,
            last_used,
            max_age_days,
            now,
        ),
{
    if in_use {
        return None;
    }
    let no_slot = match configured_slots {
        Some(max) => slot >= max,
        None => true,
    };
    if no_slot {
        return Some("no configured cache slot");
    }
    if max_age_days > 0 && clock::older(last_used, now, clock::days(max_age_days)) {
        return Some("expired");
    }
    None
}

/// What the journal knows of a cache.
pub ghost struct CacheView {
    pub name: Seq<char>,
    pub repo: Seq<char>,
    pub slot: u32,
    pub last_used: i64,
}

pub open spec fn cache_view(c: DockerCacheRecord) -> CacheView {
    CacheView { name: c.name@, repo: c.repo@, slot: c.slot, last_used: c.last_used }
}

pub open spec fn cache_views(caches: Seq<DockerCacheRecord>) -> Seq<CacheView> {
    caches.map_values(|c: DockerCacheRecord| cache_view(c))
}

/// Without the cache of a name.
pub open spec fn cache_forgotten(caches: Seq<CacheView>, name: Seq<char>) -> Seq<CacheView>
    decreases caches.len(),
{
    if caches.len() == 0 {
        caches
    } else if caches.last().name == name {
        cache_forgotten(caches.drop_last(), name)
    } else {
        cache_forgotten(caches.drop_last(), name).push(caches.last())
    }
}

/// With a cache as used now, in its place or as the last.
pub open spec fn cache_used(caches: Seq<CacheView>, c: CacheView) -> Seq<CacheView>
    decreases caches.len(),
{
    if caches.len() == 0 {
        seq![c]
    } else if caches[0].name == c.name {
        seq![c] + caches.drop_first()
    } else {
        seq![caches[0]] + cache_used(caches.drop_first(), c)
    }
}

/// What the journal knows of caches, and what the report says.
#[verifier::ext_equal]
pub ghost struct CacheBooks {
    pub caches: Seq<CacheView>,
    pub report: ReportView,
}

proof fn lemma_forgotten(caches: Seq<DockerCacheRecord>, name: Seq<char>)
    ensures
        cache_views(caches.filter(store::cache_other_than(name))) == cache_forgotten(
            cache_views(caches),
            name,
        ),
    decreases caches.len(),
{
    reveal(Seq::filter);
    let p = store::cache_other_than(name);
    if caches.len() > 0 {
        lemma_forgotten(caches.drop_last(), name);
        assert(cache_views(caches).drop_last() =~= cache_views(caches.drop_last()));
        let rest = caches.drop_last().filter(p);
        assert(cache_views(rest.push(caches.last())) =~= cache_views(rest).push(
            cache_view(caches.last()),
        ));
    } else {
        assert(cache_views(caches.filter(p)) =~= cache_views(caches));
    }
}

proof fn lemma_used(caches: Seq<CacheView>, p: int, c: CacheView)
    requires
        0 <= p <= caches.len(),
        forall|i: int| 0 <= i < p ==> (#[trigger] caches[i]).name != c.name,
        p < caches.len() ==> caches[p].name == c.name,
    ensures
        cache_used(caches, c) == if p < caches.len() {
            caches.update(p, c)
        } else {
            caches.push(c)
        },
    decreases caches.len(),
{
    if caches.len() == 0 {
        assert(caches.push(c) =~= seq![c]);
    } else if p == 0 {
        assert(seq![c] + caches.drop_first() =~= caches.update(0, c));
    } else {
        assert(caches[0].name != c.name);
        assert forall|i: int| 0 <= i < p - 1 implies (#[trigger] caches.drop_first()[i]).name
            != c.name by {
            assert(caches.drop_first()[i] == caches[i + 1]);
        }
        lemma_used(caches.drop_first(), p - 1, c);
        if p < caches.len() {
            assert(seq![caches[0]] + caches.drop_first().update(p - 1, c) =~= caches.update(p, c));
        } else {
            assert(seq![caches[0]] + caches.drop_first().push(c) =~= caches.push(c));
        }
    }
}

fn forget_cache(store: &mut Store, name: &str) -> (r: Result<usize, StoreError>)
    requires
        old(store).well_formed(),
    ensures
        final(store).well_formed(),
        *final(store) == (Store { docker_caches: final(store).docker_caches, ..*old(store) }),
        r is Err == old(store).query_only,
        r matches Err(e) ==> e == StoreError::ReadOnly,
        cache_views(final(store).docker_caches@) == if old(store).query_only {
            cache_views(old(store).docker_caches@)
        } else {
            cache_forgotten(cache_views(old(store).docker_caches@), name@)
        },
{
    let r = store.forget_docker_cache(name);
    proof {
        lemma_forgotten(old(store).docker_caches@, name@);
    }
    r
}

fn use_cache(store: &mut Store, volume: &DockerCacheVolume, now: i64)
    requires
        old(store).well_formed(),
    ensures
        final(store).well_formed(),
        *final(store) == (Store { docker_caches: final(store).docker_caches, ..*old(store) }),
        cache_views(final(store).docker_caches@) == if old(store).query_only {
            cache_views(old(store).docker_caches@)
        } else {
            cache_used(
                cache_views(old(store).docker_caches@),
                CacheView {
                    name: volume.name@,
                    repo: volume.repo@,
                    slot: volume.slot,
                    last_used: now,
                },
            )
        },
{
    store.touch_docker_cache(volume.name.as_str(), volume.repo.as_str(), volume.slot, now);
    proof {
        if !old(store).query_only {
            let before = old(store).docker_caches@;
            let after = store.docker_caches@;
            let p = choose|p: int|
                #[trigger] store::cache_touched(
                    after,
                    before,
                    p,
                    volume.name@,
                    volume.repo@,
                    volume.slot,
                    now,
                );
            let c = CacheView {
                name: volume.name@,
                repo: volume.repo@,
                slot: volume.slot,
                last_used: now,
            };
            assert(cache_view(after[p]) == c);
            assert forall|i: int| 0 <= i < p && i < before.len() implies (#[trigger] cache_views(
                before,
            )[i]).name != c.name by {
                assert(cache_views(before)[i] == cache_view(before[i]));
                if p < before.len() {
                    assert(before[i].name@ != before[p].name@);
                }
            }
            if p < before.len() {
                lemma_used(cache_views(before), p, c);
                assert(cache_views(after) =~= cache_views(before).update(p, c));
            } else {
                lemma_used(cache_views(before), before.len() as int, c);
                assert(cache_views(after) =~= cache_views(before).push(c));
            }
        }
    }
}

/// The slots of the last repo of a name that keeps layer caches.
pub open spec fn slots_of(repos: Seq<RepoConfig>, repo: Seq<char>) -> Option<u32>
    decreases repos.len(),
{
    if repos.len() == 0 {
        None
    } else if repos.last().docker_layer_cache && repos.last().repo@ == repo {
        Some(repos.last().max)
    } else {
        slots_of(repos.drop_last(), repo)
    }
}

fn find_slots(repos: &Vec<RepoConfig>, repo: &str) -> (r: Option<u32>)
    ensures
        r == slots_of(repos@, repo@),
{
    let mut k = repos.len();
    assert(repos@.take(k as int) =~= repos@);
    while k > 0
        invariant
            k <= repos@.len(),
            slots_of(repos@, repo@) == slots_of(repos@.take(k as int), repo@),
        decreases k,
    {
        assert(repos@.take(k as int).drop_last() =~= repos@.take(k - 1));
        assert(repos@.take(k as int).last() == repos@[k - 1]);
        let rc = &repos[k - 1];
        if rc.docker_layer_cache && text::same_str(rc.repo.as_str(), repo) {
            return Some(rc.max);
        }
        k = k - 1;
    }
    None
}

/// The last record of a cache of a name.
pub open spec fn cache_record(records: Seq<CacheView>, name: Seq<char>) -> Option<CacheView>
    decreases records.len(),
{
    if records.len() == 0 {
        None
    } else if records.last().name == name {
        Some(records.last())
    } else {
        cache_record(records.drop_last(), name)
    }
}

fn find_cache<'a>(records: &'a Vec<DockerCacheRecord>, name: &str) -> (r: Option<
    &'a DockerCacheRecord,
>)
    ensures
        match r {
            Some(c) => cache_record(cache_views(records@), name@) == Some(cache_view(*c)),
            None => cache_record(cache_views(records@), name@) is None,
        },
{
    let ghost views = cache_views(records@);
    let mut k = records.len();
    assert(views.take(k as int) =~= views);
    while k > 0
        invariant
            k <= records@.len(),
            views == cache_views(records@),
            cache_record(views, name@) == cache_record(views.take(k as int), name@),
        decreases k,
    {
        assert(views.take(k as int).drop_last() =~= views.take(k - 1));
        assert(views.take(k as int).last() == cache_view(records@[k - 1]));
        if text::same_str(records[k - 1].name.as_str(), name) {
            return Some(&records[k - 1]);
        }
        k = k - 1;
    }
    None
}

/// There may be layer caches: a repo keeps them, or the journal knows some.
pub open spec fn caches_matter(config: Config, caches: Seq<DockerCacheRecord>) -> bool {
    caches.len() > 0 || exists|i: int|
        0 <= i < config.repos@.len() && (#[trigger] config.repos@[i]).docker_layer_cache
}

/// Whether the layer caches have to be looked through.
pub fn wants_cache_inventory(config: &Config, store: &Store) -> (r: bool)
    ensures
        r == caches_matter(*config, store.docker_caches@),
{
    if store.docker_caches.len() > 0 {
        return true;
    }
    for i in 0..config.repos.len()
        invariant
            forall|k: int| 0 <= k < i ==> !(#[trigger] config.repos@[k]).docker_layer_cache,
    {
        if config.repos[i].docker_layer_cache {
            return true;
        }
    }
    false
}

/// The volume of a name is there.
pub open spec fn has_volume(volumes: Seq<DockerCacheVolume>, name: Seq<char>) -> bool {
    exists|i: int| 0 <= i < volumes.len() && (#[trigger] volumes[i]).name@ == name
}

fn volume_there(volumes: &Vec<DockerCacheVolume>, name: &str) -> (r: bool)
    ensures
        r == has_volume(volumes@, name@),
{
    for i in 0..volumes.len()
        invariant
            forall|k: int| 0 <= k < i ==> (#[trigger] volumes@[k]).name@ != name@,
    {
        if text::same_str(volumes[i].name.as_str(), name) {
            return true;
        }
    }
    false
}

/// After a cache that the journal knows: one that is missing is forgotten.
pub open spec fn stale_cache(
    b: CacheBooks,
    record: CacheView,
    volumes: Seq<DockerCacheVolume>,
    refused: bool,
) -> CacheBooks {
    if has_volume(volumes, record.name) {
        b
    } else {
        let report = ReportView {
            stale_references: b.report.stale_references + 1,
            actions: b.report.actions.push("forget missing Docker cache "@ + record.name),
            ..b.report
        };
        if b.report.dry_run {
            CacheBooks { report, ..b }
        } else if refused {
            CacheBooks {
                report: ReportView {
                    errors: b.report.errors.push(
                        "forget Docker cache "@ + record.name + ": "@ + refusal(),
                    ),
                    ..report
                },
                ..b
            }
        } else {
            CacheBooks { caches: cache_forgotten(b.caches, record.name), report }
        }
    }
}

/// After every cache that the journal knows.
pub open spec fn stale_caches(
    b: CacheBooks,
    records: Seq<CacheView>,
    volumes: Seq<DockerCacheVolume>,
    refused: bool,
) -> CacheBooks
    decreases records.len(),
{
    if records.len() == 0 {
        b
    } else {
        stale_cache(
            stale_caches(b, records.drop_last(), volumes, refused),
            records.last(),
            volumes,
            refused,
        )
    }
}

/// Why a volume that the journal knows goes, if it does.
pub open spec fn volume_reason(
    config: Config,
    record: CacheView,
    volume: DockerCacheVolume,
    now: i64,
) -> Option<Seq<char>> {
    cache_reason(
        volume.in_use,
        slots_of(config.repos@, volume.repo@),
        volume.slot,
        record.last_used,
        config.docker_cache_max_age_days,
        now,
    )
}

/// A volume is removed: the journal knows it, and there is a reason.
pub open spec fn volume_goes(
    config: Config,
    records: Seq<CacheView>,
    volume: DockerCacheVolume,
    now: i64,
) -> bool {
    match cache_record(records, volume.name@) {
        Some(record) => volume_reason(config, record, volume, now) is Some,
        None => false,
    }
}

/// After a volume: one that the journal does not know is recorded, another may
/// have to go.
pub open spec fn volume_seen(
    b: CacheBooks,
    config: Config,
    records: Seq<CacheView>,
    volume: DockerCacheVolume,
    refused: bool,
    now: i64,
) -> CacheBooks {
    match cache_record(records, volume.name@) {
        None => CacheBooks {
            caches: if b.report.dry_run || refused {
                b.caches
            } else {
                cache_used(
                    b.caches,
                    CacheView {
                        name: volume.name@,
                        repo: volume.repo@,
                        slot: volume.slot,
                        last_used: now,
                    },
                )
            },
            report: ReportView {
                repaired: b.report.repaired + 1,
                actions: b.report.actions.push(
                    "track existing Docker cache "@ + volume.name@ + " for "@ + volume.repo@
                        + " slot "@ + number::dec(volume.slot as nat),
                ),
                ..b.report
            },
        },
        Some(record) => match volume_reason(config, record, volume, now) {
            None => b,
            Some(reason) => CacheBooks {
                report: ReportView {
                    planned: b.report.planned + 1,
                    actions: b.report.actions.push(
                        (if b.report.dry_run {
                            "remove"@
                        } else {
                            "removed"@
                        }) + " Docker cache "@ + volume.name@ + " ("@ + reason + ")"@,
                    ),
                    ..b.report
                },
                ..b
            },
        },
    }
}

/// After every volume.
pub open spec fn volumes_seen(
    b: CacheBooks,
    config: Config,
    records: Seq<CacheView>,
    volumes: Seq<DockerCacheVolume>,
    refused: bool,
    now: i64,
) -> CacheBooks
    decreases volumes.len(),
{
    if volumes.len() == 0 {
        b
    } else {
        volume_seen(
            volumes_seen(b, config, records, volumes.drop_last(), refused, now),
            config,
            records,
            volumes.last(),
            refused,
            now,
        )
    }
}

/// The positions among the first `n` volumes that are removed.
pub open spec fn volumes_gone(
    config: Config,
    records: Seq<CacheView>,
    volumes: Seq<DockerCacheVolume>,
    now: i64,
    n: int,
) -> Seq<int>
    decreases n,
{
    if n <= 0 {
        Seq::empty()
    } else if volume_goes(config, records, volumes[n - 1], now) {
        volumes_gone(config, records, volumes, now, n - 1).push(n - 1)
    } else {
        volumes_gone(config, records, volumes, now, n - 1)
    }
}

/// What a cleanup of layer caches does to the journal and says in its report,
/// up to the removals themselves.
pub open spec fn caches_reconciled(
    b: CacheBooks,
    config: Config,
    found: Result<Vec<DockerCacheVolume>, String>,
    refused: bool,
    now: i64,
) -> CacheBooks {
    match found {
        Err(e) => CacheBooks {
            report: ReportView {
                errors: b.report.errors.push("inventory Docker layer caches: "@ + e@),
                ..b.report
            },
            ..b
        },
        Ok(volumes) => volumes_seen(
            stale_caches(b, b.caches, volumes@, refused),
            config,
            b.caches,
            volumes@,
            refused,
            now,
        ),
    }
}

fn clear_stale_cache(
    store: &mut Store,
    record: &DockerCacheRecord,
    volumes: &Vec<DockerCacheVolume>,
    report: &mut CleanupReport,
)
    requires
        old(store).well_formed(),
        old(report).stale_references < usize::MAX,
    ensures
        final(store).well_formed(),
        *final(store) == (Store { docker_caches: final(store).docker_caches, ..*old(store) }),
        (CacheBooks { caches: cache_views(final(store).docker_caches@), report: final(report)@ })
            == stale_cache(
            CacheBooks { caches: cache_views(old(store).docker_caches@), report: old(report)@ },
            cache_view(*record),
            volumes@,
            old(store).query_only,
        ),
        final(report)@ == (ReportView {
            stale_references: final(report)@.stale_references,
            actions: final(report)@.actions,
            errors: final(report)@.errors,
            ..old(report)@
        }),
        final(report).stale_references <= old(report).stale_references + 1,
{
    let ghost before = CacheBooks { caches: cache_views(store.docker_caches@), report: report@ };
    let ghost after = stale_cache(before, cache_view(*record), volumes@, store.query_only);
    let name = &record.name;
    if !volume_there(volumes, name.as_str()) {
        proof {
            reveal_strlit("");
        }
        report.stale_references = report.stale_references + 1;
        let action = text::chain("forget missing Docker cache ", name.as_str(), "");
        assert(action@ =~= "forget missing Docker cache "@ + name@);
        text::push_text(&mut report.actions, action);
        if !report.dry_run {
            if let Err(e) = forget_cache(store, name.as_str()) {
                let m = text::chain5("forget Docker cache ", name.as_str(), ": ", e.message(), "");
                assert(m@ =~= "forget Docker cache "@ + name@ + ": "@ + refusal());
                text::push_text(&mut report.errors, m);
            }
        }
    }
    assert((CacheBooks { caches: cache_views(store.docker_caches@), report: report@ }) =~= after);
}

/// Looks at a volume; says whether it is to be removed.
fn see_volume(
    config: &Config,
    store: &mut Store,
    records: &Vec<DockerCacheRecord>,
    volume: &DockerCacheVolume,
    now: i64,
    report: &mut CleanupReport,
) -> (r: bool)
    requires
        old(store).well_formed(),
        old(report).repaired < usize::MAX,
        old(report).planned < usize::MAX,
    ensures
        final(store).well_formed(),
        *final(store) == (Store { docker_caches: final(store).docker_caches, ..*old(store) }),
        (CacheBooks { caches: cache_views(final(store).docker_caches@), report: final(report)@ })
            == volume_seen(
            CacheBooks { caches: cache_views(old(store).docker_caches@), report: old(report)@ },
            *config,
            cache_views(records@),
            *volume,
            old(store).query_only,
            now,
        ),
        final(report)@ == (ReportView {
            planned: final(report)@.planned,
            repaired: final(report)@.repaired,
            actions: final(report)@.actions,
            ..old(report)@
        }),
        final(report).repaired <= old(report).repaired + 1,
        final(report).planned <= old(report).planned + 1,
        r == volume_goes(*config, cache_views(records@), *volume, now),
{
    let ghost before = CacheBooks { caches: cache_views(store.docker_caches@), report: report@ };
    let ghost after = volume_seen(
        before,
        *config,
        cache_views(records@),
        *volume,
        store.query_only,
        now,
    );
    let record = match find_cache(records, volume.name.as_str()) {
        Some(record) => record,
        None => {
            report.repaired = report.repaired + 1;
            let slot = number::number_text(volume.slot as u64);
            let mut action = text::chain(
                "track existing Docker cache ",
                volume.name.as_str(),
                " for ",
            );
            action.append(volume.repo.as_str());
            action.append(" slot ");
            action.append(slot.as_str());
            text::push_text(&mut report.actions, action);
            if !report.dry_run {
                use_cache(store, volume, now);
            }
            assert((CacheBooks { caches: cache_views(store.docker_caches@), report: report@ })
                =~= after);
            return false;
        },
    };
    let reason = match cache_removal_reason(
        volume.in_use,
        find_slots(&config.repos, volume.repo.as_str()),
        volume.slot,
        record.last_used,
        config.docker_cache_max_age_days,
        now,
    ) {
        Some(reason) => reason,
        None => return false,
    };
    report.planned = report.planned + 1;
    let mut action = if report.dry_run {
        "remove".to_string()
    } else {
        "removed".to_string()
    };
    action.append(" Docker cache ");
    action.append(volume.name.as_str());
    action.append(" (");
    action.append(reason);
    action.append(")");
    text::push_text(&mut report.actions, action);
    assert((CacheBooks { caches: cache_views(store.docker_caches@), report: report@ }) =~= after);
    true
}

/// Reconciles layer caches with the journal: forgets what is missing, records
/// what the journal does not know, and plans to remove what no repo has a slot
/// for or what has expired. Hands out the positions of the volumes to remove;
/// on a dry run there are none.
pub fn cleanup_docker_caches(
    config: &Config,
    store: &mut Store,
    found: &Result<Vec<DockerCacheVolume>, String>,
    now: i64,
    report: &mut CleanupReport,
) -> (r: Vec<usize>)
    requires
        old(store).well_formed(),
        *found matches Ok(v) ==> old(report).has_room(
            old(store).docker_caches@.len() as int,
            v@.len() as int,
            0,
        ),
    ensures
        final(store).well_formed(),
        *final(store) == (Store { docker_caches: final(store).docker_caches, ..*old(store) }),
        (CacheBooks { caches: cache_views(final(store).docker_caches@), report: final(report)@ })
            == caches_reconciled(
            CacheBooks { caches: cache_views(old(store).docker_caches@), report: old(report)@ },
            *config,
            *found,
            old(store).query_only,
            now,
        ),
        r@.map_values(|i: usize| i as int) == (match *found {
            Ok(v) => if old(report).dry_run {
                Seq::empty()
            } else {
                volumes_gone(
                    *config,
                    cache_views(old(store).docker_caches@),
                    v@,
                    now,
                    v@.len() as int,
                )
            },
            Err(_) => Seq::empty(),
        }),
{
    let ghost start = CacheBooks { caches: cache_views(store.docker_caches@), report: report@ };
    let ghost refused = store.query_only;
    let ghost first = *report;
    let ghost old_store = *store;
    let mut r: Vec<usize> = Vec::new();
    assert(r@.map_values(|i: usize| i as int) =~= Seq::empty());
    let volumes = match found {
        Ok(volumes) => volumes,
        Err(e) => {
            let m = text::chain("inventory Docker layer caches: ", e.as_str(), "");
            proof {
                reveal_strlit("");
            }
            assert(m@ =~= "inventory Docker layer caches: "@ + e@);
            text::push_text(&mut report.errors, m);
            assert((CacheBooks { caches: cache_views(store.docker_caches@), report: report@ })
                =~= caches_reconciled(start, *config, *found, refused, now));
            return r;
        },
    };
    let records = store.docker_cache_records();
    let ghost views = cache_views(records@);
    for i in 0..records.len()
        invariant
            store.well_formed(),
            *store == (Store { docker_caches: store.docker_caches, ..old_store }),
            refused == old_store.query_only,
            views == cache_views(records@),
            (CacheBooks { caches: cache_views(store.docker_caches@), report: report@ })
                == stale_caches(start, views.take(i as int), volumes@, refused),
            report@ == (ReportView {
                stale_references: report@.stale_references,
                actions: report@.actions,
                errors: report@.errors,
                ..first@
            }),
            report.stale_references <= first.stale_references + i,
            first.has_room(records@.len() as int, volumes@.len() as int, 0),
    {
        assert(views.take(i + 1).drop_last() =~= views.take(i as int));
        assert(views.take(i + 1).last() == cache_view(records@[i as int]));
        clear_stale_cache(store, &records[i], volumes, report);
    }
    assert(views.take(views.len() as int) =~= views);
    let ghost cleared = stale_caches(start, views, volumes@, refused);
    for i in 0..volumes.len()
        invariant
            store.well_formed(),
            *store == (Store { docker_caches: store.docker_caches, ..old_store }),
            refused == old_store.query_only,
            views == cache_views(records@),
            (CacheBooks { caches: cache_views(store.docker_caches@), report: report@ })
                == volumes_seen(cleared, *config, views, volumes@.take(i as int), refused, now),
            report.dry_run == first.dry_run,
            report.planned <= first.planned + i,
            report.repaired <= first.repaired + i,
            first.has_room(records@.len() as int, volumes@.len() as int, 0),
            r@.map_values(|i: usize| i as int) == if first.dry_run {
                Seq::empty()
            } else {
                volumes_gone(*config, views, volumes@, now, i as int)
            },
    {
        assert(volumes@.take(i + 1).drop_last() =~= volumes@.take(i as int));
        if see_volume(config, store, &records, &volumes[i], now, report) {
            if !report.dry_run {
                let ghost before = r@;
                r.push(i);
                assert(r@.map_values(|i: usize| i as int) =~= before.map_values(
                    |i: usize| i as int,
                ).push(i as int));
            }
        }
    }
    assert(volumes@.take(volumes@.len() as int) =~= volumes@);
    r
}

/// What becomes of the journal and the report once a volume is removed, or
/// could not be.
pub open spec fn cache_removed(
    b: CacheBooks,
    name: Seq<char>,
    outcome: Result<(), Seq<char>>,
    refused: bool,
) -> CacheBooks {
    match outcome {
        Ok(_) => {
            let report = ReportView { removed: b.report.removed + 1, ..b.report };
            if refused {
                CacheBooks {
                    report: ReportView {
                        errors: report.errors.push(
                            "removed Docker cache "@ + name + " but could not forget it: "@
                                + refusal(),
                        ),
                        ..report
                    },
                    ..b
                }
            } else {
                CacheBooks { caches: cache_forgotten(b.caches, name), report }
            }
        },
        Err(e) => CacheBooks {
            report: ReportView {
                errors: b.report.errors.push("remove Docker cache "@ + name + ": "@ + e),
                ..b.report
            },
            ..b
        },
    }
}

/// Records that a volume was removed, or could not be: only what is removed is
/// forgotten.
pub fn record_cache_removal(
    store: &mut Store,
    name: &str,
    outcome: Result<(), String>,
    report: &mut CleanupReport,
)
    requires
        old(store).well_formed(),
        outcome is Ok ==> old(report).removed < usize::MAX,
    ensures
        final(store).well_formed(),
        *final(store) == (Store { docker_caches: final(store).docker_caches, ..*old(store) }),
        (CacheBooks { caches: cache_views(final(store).docker_caches@), report: final(report)@ })
            == cache_removed(
            CacheBooks { caches: cache_views(old(store).docker_caches@), report: old(report)@ },
            name@,
            outcome_text(outcome),
            old(store).query_only,
        ),
{
    let ghost before = CacheBooks { caches: cache_views(store.docker_caches@), report: report@ };
    let ghost after = cache_removed(before, name@, outcome_text(outcome), store.query_only);
    proof {
        reveal_strlit("");
    }
    match outcome {
        Ok(_) => {
            report.removed = report.removed + 1;
            if let Err(e) = forget_cache(store, name) {
                let m = text::chain5(
                    "removed Docker cache ",
                    name,
                    " but could not forget it: ",
                    e.message(),
                    "",
                );
                assert(m@ =~= "removed Docker cache "@ + name@ + " but could not forget it: "@
                    + refusal());
                text::push_text(&mut report.errors, m);
            }
        },
        Err(e) => {
            let m = text::chain5("remove Docker cache ", name, ": ", e.as_str(), "");
            assert(m@ =~= "remove Docker cache "@ + name@ + ": "@ + e@);
            text::push_text(&mut report.errors, m);
        },
    }
    assert((CacheBooks { caches: cache_views(store.docker_caches@), report: report@ }) =~= after);
}

// -- history ---------------------------------------------------------------------------------------------------

/// Before when jobs without artifacts are history.
pub open spec fn job_cutoff(config: Config, now: i64) -> int {
    now - config.job_history_days * 86_400_000_000
}

/// Before when events are history.
pub open spec fn event_cutoff(config: Config, now: i64) -> int {
    now - config.event_history_days * 86_400_000_000
}

/// What pruning the history says in a report.
pub open spec fn history_pruned(
    r: ReportView,
    config: Config,
    store: Store,
    now: i64,
) -> ReportView {
    let jobs = store.jobs@.filter(store::prunable_job(job_cutoff(config, now))).len() as int;
    let events = store.events@.filter(store::prunable_event(event_cutoff(config, now))).len() as int;
    if !r.dry_run && store.query_only {
        ReportView {
            errors: r.errors.push("prune job history: "@ + refusal()).push(
                "prune event history: "@ + refusal(),
            ),
            ..r
        }
    } else {
        ReportView { pruned_jobs: jobs, pruned_events: events, ..r }
    }
}

/// Prunes the history, or on a dry run counts what would be pruned.
pub fn prune_history(config: &Config, store: &mut Store, now: i64, report: &mut CleanupReport)
    requires
        old(store).well_formed(),
    ensures
        final(store).well_formed(),
        final(report)@ == history_pruned(old(report)@, *config, *old(store), now),
        *final(store) == (Store {
            jobs: final(store).jobs,
            events: final(store).events,
            ..*old(store)
        }),
        old(report).dry_run || old(store).query_only ==> *final(store) == *old(store),
        !old(report).dry_run && !old(store).query_only ==> {
            &&& final(store).jobs@ == old(store).jobs@.filter(
                store::retained_job(job_cutoff(*config, now)),
            )
            &&& final(store).events@ == old(store).events@.filter(
                store::retained_event(event_cutoff(*config, now)),
            )
        },
{
    let ghost before = report@;
    let ghost rows = *store;
    let job_age = clock::days(config.job_history_days);
    let event_age = clock::days(config.event_history_days);
    assert(clock::ago(now, job_age) == job_cutoff(*config, now));
    assert(clock::ago(now, event_age) == event_cutoff(*config, now));
    if report.dry_run {
        report.pruned_jobs = store.count_prunable_jobs(job_age, now);
        report.pruned_events = store.count_prunable_events(event_age, now);
    } else {
        proof {
            reveal_strlit("");
        }
        match store.prune_jobs(job_age, now) {
            Ok(n) => {
                report.pruned_jobs = n;
            },
            Err(e) => {
                let m = text::chain("prune job history: ", e.message(), "");
                assert(m@ =~= "prune job history: "@ + refusal());
                text::push_text(&mut report.errors, m);
            },
        }
        match store.prune_events(event_age, now) {
            Ok(n) => {
                report.pruned_events = n;
            },
            Err(e) => {
                let m = text::chain("prune event history: ", e.message(), "");
                assert(m@ =~= "prune event history: "@ + refusal());
                text::push_text(&mut report.errors, m);
            },
        }
    }
    assert(report@ =~= history_pruned(before, *config, rows, now));
}

// -- what a cleanup promises -------------------------------------------------------------------------------------

proof fn lemma_dry_logs(
    b: Books,
    ids: Seq<i64>,
    records: Seq<ArtifactRecord>,
    dirs: Seq<LogDir>,
    all: Seq<ArtifactRecord>,
    paths: Seq<Seq<char>>,
    refused: bool,
)
    requires
        b.report.dry_run,
    ensures
        stale_logs(b, records, paths, refused).refs == b.refs,
        stale_logs(b, records, paths, refused).report.dry_run,
        stale_logs(b, records, paths, refused).report.removed == b.report.removed,
        stale_logs(b, records, paths, refused).report.planned == b.report.planned,
        stale_logs(b, records, paths, refused).report.reclaimed_bytes == b.report.reclaimed_bytes,
        attached_logs(b, ids, dirs, all, refused).refs == b.refs,
        attached_logs(b, ids, dirs, all, refused).report.dry_run,
        attached_logs(b, ids, dirs, all, refused).report.removed == b.report.removed,
        attached_logs(b, ids, dirs, all, refused).report.planned == b.report.planned,
        attached_logs(b, ids, dirs, all, refused).report.reclaimed_bytes
            == b.report.reclaimed_bytes,
    decreases records.len() + dirs.len(),
{
    if records.len() > 0 {
        lemma_dry_logs(b, ids, records.drop_last(), dirs, all, paths, refused);
    }
    if dirs.len() > 0 {
        lemma_dry_logs(b, ids, records, dirs.drop_last(), all, paths, refused);
    }
}

proof fn lemma_planned_logs(
    r: ReportView,
    dirs: Seq<LogDir>,
    c: Seq<Candidate>,
    policy: Policy,
    now: i64,
    n: int,
)
    requires
        0 <= n <= dirs.len(),
        forall|i: int|
            0 <= i < dirs.len() ==> (#[trigger] c[i]).bytes == dirs[i].candidate.bytes,
    ensures
        planned_logs(r, dirs, c, policy, now, n).removed == r.removed,
        planned_logs(r, dirs, c, policy, now, n).dry_run == r.dry_run,
        planned_logs(r, dirs, c, policy, now, n).planned == r.planned + gone(
            c,
            policy,
            now,
            n,
        ).len(),
        r.dry_run ==> planned_logs(r, dirs, c, policy, now, n).reclaimed_bytes == r.reclaimed_bytes
            + gone_bytes(c, policy, now, n),
    decreases n,
{
    if n > 0 {
        lemma_planned_logs(r, dirs, c, policy, now, n - 1);
        assert(c[n - 1].bytes == dirs[n - 1].candidate.bytes);
    }
}

proof fn lemma_planned_images(
    r: ReportView,
    images: Seq<ImageArtifact>,
    c: Seq<Candidate>,
    policy: Policy,
    now: i64,
    n: int,
)
    requires
        0 <= n <= images.len(),
        forall|i: int|
            0 <= i < images.len() ==> (#[trigger] c[i]).bytes == images[i].candidate.bytes,
    ensures
        planned_images(r, images, c, policy, now, n).removed == r.removed,
        planned_images(r, images, c, policy, now, n).dry_run == r.dry_run,
        planned_images(r, images, c, policy, now, n).planned == r.planned + gone(
            c,
            policy,
            now,
            n,
        ).len(),
        r.dry_run ==> planned_images(r, images, c, policy, now, n).reclaimed_bytes
            == r.reclaimed_bytes + gone_bytes(c, policy, now, n),
    decreases n,
{
    if n > 0 {
        lemma_planned_images(r, images, c, policy, now, n - 1);
        assert(c[n - 1].bytes == images[n - 1].candidate.bytes);
    }
}

/// A dry run of the cleanup of captured logs changes no reference and removes
/// nothing; it plans exactly what the policy removes, and counts what that would
/// reclaim.
pub proof fn law_dry_runs_leave_logs_alone(
    b: Books,
    ids: Seq<i64>,
    config: Config,
    records: Seq<ArtifactRecord>,
    dirs: Seq<LogDir>,
    refused: bool,
    now: i64,
)
    requires
        b.report.dry_run,
    ensures
        ({
            let after = logs_reconciled(b, ids, config, records, dirs, refused, now);
            &&& after.refs == b.refs
            &&& after.report.removed == b.report.removed
            &&& after.report.planned == b.report.planned + gone(
                log_candidates(dirs, records),
                log_policy(config),
                now,
                dirs.len() as int,
            ).len()
            &&& after.report.reclaimed_bytes == b.report.reclaimed_bytes + gone_bytes(
                log_candidates(dirs, records),
                log_policy(config),
                now,
                dirs.len() as int,
            )
        }),
{
    let cleared = stale_logs(b, records, log_paths(dirs), refused);
    lemma_dry_logs(b, ids, records, dirs, records, log_paths(dirs), refused);
    lemma_dry_logs(cleared, ids, records, dirs, records, log_paths(dirs), refused);
    lemma_planned_logs(
        attached_logs(cleared, ids, dirs, records, refused).report,
        dirs,
        log_candidates(dirs, records),
        log_policy(config),
        now,
        dirs.len() as int,
    );
}

proof fn lemma_dry_images(
    b: Books,
    ids: Seq<i64>,
    records: Seq<ArtifactRecord>,
    images: Seq<(RuntimeKind, Seq<char>, u64)>,
    all: Seq<ArtifactRecord>,
    inventories: Seq<ImageInventory>,
    refused: bool,
)
    requires
        b.report.dry_run,
    ensures
        stale_images(b, ids, records, inventories, refused).refs == b.refs,
        stale_images(b, ids, records, inventories, refused).report.dry_run,
        stale_images(b, ids, records, inventories, refused).report.removed == b.report.removed,
        stale_images(b, ids, records, inventories, refused).report.planned == b.report.planned,
        stale_images(b, ids, records, inventories, refused).report.reclaimed_bytes
            == b.report.reclaimed_bytes,
        attached_images(b, ids, images, all, refused).refs == b.refs,
        attached_images(b, ids, images, all, refused).report.dry_run,
        attached_images(b, ids, images, all, refused).report.removed == b.report.removed,
        attached_images(b, ids, images, all, refused).report.planned == b.report.planned,
        attached_images(b, ids, images, all, refused).report.reclaimed_bytes
            == b.report.reclaimed_bytes,
    decreases records.len() + images.len(),
{
    if records.len() > 0 {
        lemma_dry_images(b, ids, records.drop_last(), images, all, inventories, refused);
    }
    if images.len() > 0 {
        lemma_dry_images(b, ids, records, images.drop_last(), all, inventories, refused);
    }
}

/// A dry run of the cleanup of kept images changes no reference and removes
/// nothing; it plans exactly what the policy removes, and counts what that would
/// reclaim.
pub proof fn law_dry_runs_leave_images_alone(
    b: Books,
    ids: Seq<i64>,
    config: Config,
    records: Seq<ArtifactRecord>,
    inventories: Seq<ImageInventory>,
    images: Seq<ImageArtifact>,
    refused: bool,
    now: i64,
)
    requires
        b.report.dry_run,
    ensures
        ({
            let after = images_reconciled(
                b,
                ids,
                config,
                records,
                inventories,
                images,
                refused,
                now,
            );
            &&& after.refs == b.refs
            &&& after.report.removed == b.report.removed
            &&& after.report.planned == b.report.planned + gone(
                image_candidates(images, records),
                image_policy(config),
                now,
                images.len() as int,
            ).len()
            &&& after.report.reclaimed_bytes == b.report.reclaimed_bytes + gone_bytes(
                image_candidates(images, records),
                image_policy(config),
                now,
                images.len() as int,
            )
        }),
{
    lemma_inventory_frame(b.report, inventories);
    let listed = Books { report: inventory_errors(b.report, inventories), ..b };
    lemma_dry_images(listed, ids, records, image_views(images), records, inventories, refused);
    let cleared = stale_images(listed, ids, records, inventories, refused);
    lemma_dry_images(cleared, ids, records, image_views(images), records, inventories, refused);
    lemma_planned_images(
        attached_images(cleared, ids, image_views(images), records, refused).report,
        images,
        image_candidates(images, records),
        image_policy(config),
        now,
        images.len() as int,
    );
}

proof fn lemma_dry_caches(
    b: CacheBooks,
    config: Config,
    known: Seq<CacheView>,
    records: Seq<CacheView>,
    all: Seq<DockerCacheVolume>,
    volumes: Seq<DockerCacheVolume>,
    refused: bool,
    now: i64,
)
    requires
        b.report.dry_run,
    ensures
        stale_caches(b, known, all, refused).caches == b.caches,
        stale_caches(b, known, all, refused).report.dry_run,
        stale_caches(b, known, all, refused).report.removed == b.report.removed,
        volumes_seen(b, config, records, volumes, refused, now).caches == b.caches,
        volumes_seen(b, config, records, volumes, refused, now).report.dry_run,
        volumes_seen(b, config, records, volumes, refused, now).report.removed == b.report.removed,
    decreases known.len() + volumes.len(),
{
    if known.len() > 0 {
        lemma_dry_caches(b, config, known.drop_last(), records, all, volumes, refused, now);
    }
    if volumes.len() > 0 {
        lemma_dry_caches(b, config, known, records, all, volumes.drop_last(), refused, now);
    }
}

/// A dry run of the cleanup of layer caches forgets none, takes up none and
/// removes none.
pub proof fn law_dry_runs_leave_caches_alone(
    b: CacheBooks,
    config: Config,
    found: Result<Vec<DockerCacheVolume>, String>,
    refused: bool,
    now: i64,
)
    requires
        b.report.dry_run,
    ensures
        caches_reconciled(b, config, found, refused, now).caches == b.caches,
        caches_reconciled(b, config, found, refused, now).report.removed == b.report.removed,
{
    if let Ok(volumes) = found {
        lemma_dry_caches(b, config, b.caches, b.caches, volumes@, volumes@, refused, now);
        let cleared = stale_caches(b, b.caches, volumes@, refused);
        lemma_dry_caches(cleared, config, b.caches, b.caches, volumes@, volumes@, refused, now);
    }
}

/// What could not be removed stays referred to.
pub proof fn law_failed_removals_are_not_forgotten(
    b: Books,
    ids: Seq<i64>,
    dir: LogDir,
    image: ImageArtifact,
    e: Seq<char>,
    refused: bool,
)
    ensures
        log_dir_removed(b, dir, Err(e), refused).refs == b.refs,
        log_dir_removed(b, dir, Err(e), refused).report.removed == b.report.removed,
        log_dir_removed(b, dir, Err(e), refused).report.errors.len() == b.report.errors.len() + 1,
        image_removed(b, ids, image, Err(e), refused).refs == b.refs,
        image_removed(b, ids, image, Err(e), refused).report.removed == b.report.removed,
        image_removed(b, ids, image, Err(e), refused).report.errors.len() == b.report.errors.len()
            + 1,
{
}

/// Once a directory is removed, and the journal takes writes, nothing refers to it.
pub proof fn law_removed_logs_are_forgotten(b: Books, dir: LogDir, i: int)
    requires
        0 <= i < b.refs.len(),
    ensures
        log_dir_removed(b, dir, Ok(()), false).refs[i].logs != Some(dir.path@),
{
}

/// A cache in use is never removed, whatever the configuration says.
pub proof fn law_caches_in_use_stay(
    config: Config,
    records: Seq<CacheView>,
    volume: DockerCacheVolume,
    now: i64,
)
    requires
        volume.in_use,
    ensures
        !volume_goes(config, records, volume, now),
{
}

} // verus!

//! Kept images and the jobs that refer to them.

use crate::cleanup;
use crate::cleanup::{Candidate, CleanupReport, ImageArtifact, ImageInventory, LogDir, Policy};
use crate::config::{Config, RuntimeKind};
use crate::laws::logs;
use crate::laws::retention;
use crate::store::{ArtifactRecord, Job, Store};
use crate::text;
use vstd::prelude::*;

verus! {

/// A runtime lists an image.
pub open spec fn lists(
    inventories: Seq<ImageInventory>,
    kind: RuntimeKind,
    tag: Seq<char>,
) -> bool {
    exists|a: int, k: int|
        0 <= a < inventories.len() && inventories[a].runtime == kind && inventories[a].found is Ok
            && 0 <= k < (inventories[a].found->Ok_0)@.len() && (
        #[trigger] (inventories[a].found->Ok_0)@[k]).tag@ == tag
}

/// A runtime of a name.
pub open spec fn is_called(kind: RuntimeKind, name: Seq<char>) -> bool {
    match kind {
        RuntimeKind::Docker => name == "docker"@,
        RuntimeKind::AppleContainer => name == "apple-container"@,
    }
}

/// A record refers to an image that its runtime, which could be asked, does not list.
pub open spec fn misses(record: ArtifactRecord, inventories: Seq<ImageInventory>) -> bool {
    exists|kind: RuntimeKind|
        {
            &&& record.kept_image is Some
            &&& record.kept_image_runtime is Some
            &&& #[trigger] is_called(kind, (record.kept_image_runtime->0)@)
            &&& exists|a: int|
                0 <= a < inventories.len() && (#[trigger] inventories[a]).runtime == kind
                    && inventories[a].found is Ok
            &&& !lists(inventories, kind, (record.kept_image->0)@)
        }
}

proof fn lemma_lists(inventories: Seq<ImageInventory>, kind: RuntimeKind, tag: Seq<char>)
    ensures
        cleanup::is_there(cleanup::found_images(inventories), kind, tag) <==> lists(
            inventories,
            kind,
            tag,
        ),
    decreases inventories.len(),
{
    let all = cleanup::found_images(inventories);
    if inventories.len() > 0 {
        let rest = inventories.drop_last();
        let last = inventories.last();
        let n = inventories.len() - 1;
        lemma_lists(rest, kind, tag);
        let before = cleanup::found_images(rest);
        if cleanup::is_there(all, kind, tag) {
            let i = choose|i: int|
                0 <= i < all.len() && (#[trigger] all[i]).0 == kind && all[i].1 == tag;
            if i < before.len() {
                assert(before[i] == all[i]);
                assert(cleanup::is_there(before, kind, tag));
                let (a, k) = choose|a: int, k: int|
                    0 <= a < rest.len() && rest[a].runtime == kind && rest[a].found is Ok && 0 <= k
                        < (rest[a].found->Ok_0)@.len() && (
                    #[trigger] (rest[a].found->Ok_0)@[k]).tag@ == tag;
                assert((inventories[a].found->Ok_0)@[k].tag@ == tag);
            } else {
                assert(last.found is Ok);
                let k = i - before.len();
                assert((inventories[n].found->Ok_0)@[k].tag@ == tag);
            }
        }
        if lists(inventories, kind, tag) {
            let (a, k) = choose|a: int, k: int|
                0 <= a < inventories.len() && inventories[a].runtime == kind
                    && inventories[a].found is Ok && 0 <= k < (inventories[a].found->Ok_0)@.len() && (
                #[trigger] (inventories[a].found->Ok_0)@[k]).tag@ == tag;
            if a < n {
                assert((rest[a].found->Ok_0)@[k].tag@ == tag);
                let i = choose|i: int|
                    0 <= i < before.len() && (#[trigger] before[i]).0 == kind && before[i].1 == tag;
                assert(all[i] == before[i]);
            } else {
                assert(all[before.len() + k].1 == tag);
                assert(all[before.len() + k].0 == kind);
            }
        }
    }
}

spec fn is_missing(record: ArtifactRecord, inventories: Seq<ImageInventory>) -> bool {
    &&& record.kept_image is Some
    &&& record.kept_image_runtime is Some
    &&& cleanup::runtime_of((record.kept_image_runtime->0)@) is Some
    &&& cleanup::is_known(
        inventories,
        cleanup::runtime_of((record.kept_image_runtime->0)@)->0,
    )
    &&& !cleanup::is_there(
        cleanup::found_images(inventories),
        cleanup::runtime_of((record.kept_image_runtime->0)@)->0,
        (record.kept_image->0)@,
    )
}

proof fn lemma_missing(record: ArtifactRecord, inventories: Seq<ImageInventory>)
    ensures
        is_missing(record, inventories) <==> misses(record, inventories),
{
    reveal_strlit("docker");
    reveal_strlit("apple-container");
    assert("docker"@[0] == 'd' && "apple-container"@[0] == 'a');
    if record.kept_image is Some && record.kept_image_runtime is Some {
        let name = (record.kept_image_runtime->0)@;
        let tag = (record.kept_image->0)@;
        lemma_lists(inventories, RuntimeKind::Docker, tag);
        lemma_lists(inventories, RuntimeKind::AppleContainer, tag);
        assert(is_called(RuntimeKind::Docker, name) == (name == "docker"@));
        assert(is_called(RuntimeKind::AppleContainer, name) == (name == "apple-container"@));
        if is_missing(record, inventories) {
            let kind = cleanup::runtime_of(name)->0;
            assert(is_called(kind, name));
        }
        if misses(record, inventories) {
            let kind = choose|kind: RuntimeKind|
                {
                    &&& record.kept_image is Some
                    &&& record.kept_image_runtime is Some
                    &&& #[trigger] is_called(kind, (record.kept_image_runtime->0)@)
                    &&& exists|a: int|
                        0 <= a < inventories.len() && (#[trigger] inventories[a]).runtime == kind
                            && inventories[a].found is Ok
                    &&& !lists(inventories, kind, (record.kept_image->0)@)
                };
            assert(cleanup::runtime_of(name) == Some(kind));
        }
    }
}

proof fn lemma_stale(
    b: cleanup::Books,
    ids: Seq<i64>,
    records: Seq<ArtifactRecord>,
    inventories: Seq<ImageInventory>,
    i: int,
)
    requires
        !b.report.dry_run,
        0 <= i < b.refs.len(),
        ids.len() == b.refs.len(),
    ensures
        ({
            let out = cleanup::stale_images(b, ids, records, inventories, false);
            &&& out.refs.len() == b.refs.len()
            &&& out.report.dry_run == b.report.dry_run
            &&& out.refs[i].logs == b.refs[i].logs
            &&& (exists|k: int|
                0 <= k < records.len() && (#[trigger] records[k]).job_id == ids[i] && is_missing(
                    records[k],
                    inventories,
                )) ==> out.refs[i].image is None
            &&& (forall|k: int|
                0 <= k < records.len() && (#[trigger] records[k]).job_id == ids[i] ==> !is_missing(
                    records[k],
                    inventories,
                )) ==> out.refs[i] == b.refs[i]
        }),
    decreases records.len(),
{
    if records.len() > 0 {
        let rest = records.drop_last();
        let n = records.len() - 1;
        lemma_stale(b, ids, rest, inventories, i);
        assert(records[n] == records.last());
        assert forall|k: int| 0 <= k < rest.len() implies #[trigger] rest[k] == records[k] by {}
        if exists|k: int|
            0 <= k < records.len() && (#[trigger] records[k]).job_id == ids[i] && is_missing(
                records[k],
                inventories,
            ) {
            let k = choose|k: int|
                0 <= k < records.len() && (#[trigger] records[k]).job_id == ids[i] && is_missing(
                    records[k],
                    inventories,
                );
            if k < n {
                assert(rest[k].job_id == ids[i]);
            }
        }
        if forall|k: int|
            0 <= k < records.len() && (#[trigger] records[k]).job_id == ids[i] ==> !is_missing(
                records[k],
                inventories,
            ) {
            assert forall|k: int|
                0 <= k < rest.len() && (#[trigger] rest[k]).job_id == ids[i] implies !is_missing(
                rest[k],
                inventories,
            ) by {
                assert(records[k].job_id == ids[i]);
            }
        }
    }
}

proof fn lemma_record_of(records: Seq<ArtifactRecord>, id: i64)
    ensures
        cleanup::record_of(records, id) is Some ==> (cleanup::record_of(records, id)->0).job_id
            == id,
    decreases records.len(),
{
    if records.len() > 0 && records.last().job_id != id {
        lemma_record_of(records.drop_last(), id);
    }
}

spec fn is_for(
    image: (RuntimeKind, Seq<char>, u64),
    records: Seq<ArtifactRecord>,
    id: i64,
) -> bool {
    cleanup::image_job(records, image.0, image.1) == Some(id) && (cleanup::record_of(
        records,
        id,
    ) is Some) && (cleanup::record_of(records, id)->0).kept_image is None
}

proof fn lemma_attached(
    b: cleanup::Books,
    ids: Seq<i64>,
    images: Seq<(RuntimeKind, Seq<char>, u64)>,
    records: Seq<ArtifactRecord>,
    i: int,
)
    requires
        !b.report.dry_run,
        0 <= i < b.refs.len(),
        ids.len() == b.refs.len(),
    ensures
        ({
            let out = cleanup::attached_images(b, ids, images, records, false);
            &&& out.refs.len() == b.refs.len()
            &&& out.report.dry_run == b.report.dry_run
            &&& out.refs[i].logs == b.refs[i].logs
            &&& b.refs[i].image is Some ==> out.refs[i] == b.refs[i]
            &&& out.refs[i].image is None ==> forall|k: int|
                0 <= k < images.len() ==> !is_for(#[trigger] images[k], records, ids[i])
            &&& b.refs[i].image is None && out.refs[i].image is Some ==> exists|k: int|
                0 <= k < images.len() && is_for(#[trigger] images[k], records, ids[i])
                    && out.refs[i].image == Some(images[k].1) && out.refs[i].runtime == Some(
                    images[k].0.spec_name(),
                )
        }),
    decreases images.len(),
{
    if images.len() > 0 {
        let rest = images.drop_last();
        let n = images.len() - 1;
        let last = images.last();
        lemma_attached(b, ids, rest, records, i);
        let before = cleanup::attached_images(b, ids, rest, records, false);
        let out = cleanup::attached_images(b, ids, images, records, false);
        let job = cleanup::image_job(records, last.0, last.1);
        if job is Some {
            lemma_record_of(records, job->0);
        }
        assert(images[n] == last);
        assert forall|k: int| 0 <= k < rest.len() implies #[trigger] rest[k] == images[k] by {}
        if out.refs[i].image is None {
            assert(before.refs[i].image is None);
            assert forall|k: int| 0 <= k < images.len() implies !is_for(
                #[trigger] images[k],
                records,
                ids[i],
            ) by {
                if k < n {
                    assert(!is_for(rest[k], records, ids[i]));
                }
            }
        }
        if b.refs[i].image is None && out.refs[i].image is Some {
            if before.refs[i].image is Some {
                let k = choose|k: int|
                    0 <= k < rest.len() && is_for(#[trigger] rest[k], records, ids[i])
                        && before.refs[i].image == Some(rest[k].1) && before.refs[i].runtime == Some(
                        rest[k].0.spec_name(),
                    );
                assert(is_for(images[k], records, ids[i]));
            } else {
                assert(is_for(images[n], records, ids[i]));
            }
        }
    }
}

/// After a cleanup of images that may write, a job still refers to an image that its runtime
/// lists, or that could not be asked for; a reference to an image that is not listed is gone;
/// and a job without one refers to an image that was found for it, and to its runtime. Nothing
/// else of any job changes.
pub proof fn law_the_journal_refers_to_the_images_that_are_there(
    config: Config,
    store: &mut Store,
    records: Vec<ArtifactRecord>,
    inventories: Vec<ImageInventory>,
    now: i64,
    report: &mut CleanupReport,
    images: Vec<ImageArtifact>,
    r: Vec<usize>,
    i: int,
    d: int,
)
    requires
        call_ensures(
            cleanup::cleanup_images,
            (&config, store, &records, &inventories, now, report),
            (images, r),
        ),
        !old(report).dry_run,
        !old(store).query_only,
        0 <= i < old(store).jobs@.len(),
        0 <= d < images@.len(),
    ensures
        final(store).jobs@.len() == old(store).jobs@.len(),
        final(store).events == old(store).events,
        text::opt_text(final(store).jobs@[i].log_dir) == text::opt_text(
            old(store).jobs@[i].log_dir,
        ),
        final(store).jobs@[i] == (Job {
            log_dir: final(store).jobs@[i].log_dir,
            kept_image: final(store).jobs@[i].kept_image,
            kept_image_runtime: final(store).jobs@[i].kept_image_runtime,
            ..old(store).jobs@[i]
        }),
        // What is there stays referred to.
        old(store).jobs@[i].kept_image is Some && (forall|k: int|
            0 <= k < records@.len() && (#[trigger] records@[k]).job_id
                == old(store).jobs@[i].gh_job_id ==> !misses(records@[k], inventories@)) ==> (
        final(store).jobs@[i].kept_image is Some && (final(store).jobs@[i].kept_image->0)@ == (old(store).jobs@[i].kept_image->0)@),
        // What is missing is forgotten, unless there is another.
        (exists|k: int|
            0 <= k < records@.len() && (#[trigger] records@[k]).job_id
                == old(store).jobs@[i].gh_job_id && misses(records@[k], inventories@)) && final(store).jobs@[i].kept_image is Some ==> exists|k: int|
            0 <= k < images@.len() && (#[trigger] images@[k]).job_id == Some(
                old(store).jobs@[i].gh_job_id,
            ) && images@[k].candidate.name@ == (final(store).jobs@[i].kept_image->0)@,
        // What is found is attached.
        old(store).jobs@[i].kept_image is None && images@[d].job_id == Some(
            old(store).jobs@[i].gh_job_id,
        ) && (cleanup::record_of(records@, old(store).jobs@[i].gh_job_id) matches Some(record)
            && record.kept_image is None) ==> final(store).jobs@[i].kept_image is Some
            && exists|k: int|
            {
                &&& 0 <= k < images@.len()
                &&& (#[trigger] images@[k]).job_id == Some(old(store).jobs@[i].gh_job_id)
                &&& images@[k].candidate.name@ == (final(store).jobs@[i].kept_image->0)@
                &&& final(store).jobs@[i].kept_image_runtime is Some
                &&& is_called(
                    images@[k].runtime,
                    (final(store).jobs@[i].kept_image_runtime->0)@,
                )
            },
{
    let b = cleanup::Books { refs: cleanup::refs(old(store).jobs@), report: old(report)@ };
    let keys = cleanup::ids(old(store).jobs@);
    let id = old(store).jobs@[i].gh_job_id;
    let listed = cleanup::Books {
        report: cleanup::inventory_errors(b.report, inventories@),
        ..b
    };
    lemma_errors(b.report, inventories@);
    let cleared = cleanup::stale_images(listed, keys, records@, inventories@, false);
    lemma_stale(listed, keys, records@, inventories@, i);
    let views = cleanup::image_views(images@);
    lemma_attached(cleared, keys, views, records@, i);
    let out = cleanup::attached_images(cleared, keys, views, records@, false);
    let after = cleanup::refs(final(store).jobs@);
    assert(after == out.refs);
    assert(keys[i] == id);
    assert(after[i].image == text::opt_text(final(store).jobs@[i].kept_image));
    assert(after[i].runtime == text::opt_text(final(store).jobs@[i].kept_image_runtime));
    assert(after[i].logs == text::opt_text(final(store).jobs@[i].log_dir));
    assert(b.refs[i].image == text::opt_text(old(store).jobs@[i].kept_image));
    assert(b.refs[i].logs == text::opt_text(old(store).jobs@[i].log_dir));
    assert forall|k: int| 0 <= k < records@.len() implies is_missing(
        #[trigger] records@[k],
        inventories@,
    ) == misses(records@[k], inventories@) by {
        lemma_missing(records@[k], inventories@);
    }
    if cleared.refs[i].image is None && after[i].image is Some {
        let k = choose|k: int|
            0 <= k < views.len() && is_for(#[trigger] views[k], records@, id) && after[i].image
                == Some(views[k].1) && after[i].runtime == Some(views[k].0.spec_name());
        assert(views[k] == (images@[k].runtime, images@[k].candidate.name@, images@[k].candidate.bytes));
        assert(images@[k].job_id == Some(id));
        assert(is_called(images@[k].runtime, views[k].0.spec_name()));
    }
    if old(store).jobs@[i].kept_image is None && images@[d].job_id == Some(id) && (
    cleanup::record_of(records@, id) matches Some(record) && record.kept_image is None) {
        assert(cleared.refs[i].image is None);
        assert(views[d] == (images@[d].runtime, images@[d].candidate.name@, images@[d].candidate.bytes));
        assert(is_for(views[d], records@, id));
    }
}

proof fn lemma_errors(r: cleanup::ReportView, inventories: Seq<ImageInventory>)
    ensures
        cleanup::inventory_errors(r, inventories).dry_run == r.dry_run,
    decreases inventories.len(),
{
    if inventories.len() > 0 {
        lemma_errors(r, inventories.drop_last());
    }
}

// -- what is counted -----------------------------------------------------------------------

/// The records that miss their image.
pub open spec fn misses_in(inventories: Seq<ImageInventory>) -> spec_fn(ArtifactRecord) -> bool {
    |record: ArtifactRecord| misses(record, inventories)
}

/// The records that miss their logs.
pub open spec fn misses_among(dirs: Seq<LogDir>) -> spec_fn(ArtifactRecord) -> bool {
    |record: ArtifactRecord|
        record.log_dir is Some && forall|k: int|
            0 <= k < dirs.len() ==> (#[trigger] dirs[k]).path@ != (record.log_dir->0)@
}

proof fn lemma_stale_counted(
    b: cleanup::Books,
    ids: Seq<i64>,
    records: Seq<ArtifactRecord>,
    inventories: Seq<ImageInventory>,
    refused: bool,
)
    ensures
        ({
            let a = cleanup::stale_images(b, ids, records, inventories, refused).report;
            &&& a.dry_run == b.report.dry_run
            &&& a.planned == b.report.planned
            &&& a.removed == b.report.removed
            &&& a.reclaimed_bytes == b.report.reclaimed_bytes
            &&& a.repaired == b.report.repaired
            &&& a.stale_references == b.report.stale_references + records.filter(
                misses_in(inventories),
            ).len()
        }),
    decreases records.len(),
{
    reveal(Seq::filter);
    if records.len() > 0 {
        lemma_stale_counted(b, ids, records.drop_last(), inventories, refused);
        lemma_missing(records.last(), inventories);
    }
}

proof fn lemma_attached_counted(
    b: cleanup::Books,
    ids: Seq<i64>,
    images: Seq<(RuntimeKind, Seq<char>, u64)>,
    records: Seq<ArtifactRecord>,
    refused: bool,
)
    ensures
        ({
            let a = cleanup::attached_images(b, ids, images, records, refused).report;
            &&& a.dry_run == b.report.dry_run
            &&& a.planned == b.report.planned
            &&& a.removed == b.report.removed
            &&& a.reclaimed_bytes == b.report.reclaimed_bytes
            &&& a.stale_references == b.report.stale_references
        }),
    decreases images.len(),
{
    if images.len() > 0 {
        lemma_attached_counted(b, ids, images.drop_last(), records, refused);
    }
}

proof fn lemma_errors_counted(r: cleanup::ReportView, inventories: Seq<ImageInventory>)
    ensures
        ({
            let a = cleanup::inventory_errors(r, inventories);
            &&& a.dry_run == r.dry_run
            &&& a.planned == r.planned
            &&& a.removed == r.removed
            &&& a.reclaimed_bytes == r.reclaimed_bytes
            &&& a.stale_references == r.stale_references
        }),
    decreases inventories.len(),
{
    if inventories.len() > 0 {
        lemma_errors_counted(r, inventories.drop_last());
    }
}

proof fn lemma_planned_images(
    r: cleanup::ReportView,
    images: Seq<ImageArtifact>,
    c: Seq<Candidate>,
    policy: Policy,
    now: i64,
    n: int,
)
    requires
        0 <= n <= c.len(),
        c.len() == images.len(),
    ensures
        ({
            let after = cleanup::planned_images(r, images, c, policy, now, n);
            &&& after.dry_run == r.dry_run
            &&& after.removed == r.removed
            &&& after.stale_references == r.stale_references
            &&& after.planned == r.planned + logs::tally(
                n,
                |i: int|
                    if cleanup::goes(c, policy, now, i) {
                        1
                    } else {
                        0
                    },
            )
            &&& after.reclaimed_bytes == r.reclaimed_bytes + if r.dry_run {
                logs::tally(
                    n,
                    |i: int|
                        if cleanup::goes(c, policy, now, i) {
                            images[i].candidate.bytes as int
                        } else {
                            0
                        },
                )
            } else {
                0
            }
        }),
    decreases n,
{
    if n > 0 {
        lemma_planned_images(r, images, c, policy, now, n - 1);
    }
}

/// A cleanup of images plans what is due, on a dry run as otherwise, and removes nothing of it
/// itself; a dry run hands out nothing, and counts what would be reclaimed. Every reference to
/// an image that is missing is counted.
pub proof fn law_image_cleanups_count_what_is_due(
    config: Config,
    store: &mut Store,
    records: Vec<ArtifactRecord>,
    inventories: Vec<ImageInventory>,
    now: i64,
    report: &mut CleanupReport,
    images: Vec<ImageArtifact>,
    r: Vec<usize>,
    dates: Seq<int>,
    bytes: Seq<int>,
)
    requires
        call_ensures(
            cleanup::cleanup_images,
            (&config, store, &records, &inventories, now, report),
            (images, r),
        ),
        dates.len() == images@.len(),
        bytes == Seq::new(images@.len(), |i: int| images@[i].candidate.bytes as int),
        forall|i: int|
            0 <= i < images@.len() ==> retention::dates_from(
                records@,
                (#[trigger] images@[i]).job_id,
                0,
                dates[i],
            ),
    ensures
        old(report).dry_run ==> r@.len() == 0,
        final(report).dry_run == old(report).dry_run,
        final(report).removed == old(report).removed,
        final(report).stale_references == old(report).stale_references + records@.filter(
            misses_in(inventories@),
        ).len(),
        final(report).planned == old(report).planned + logs::tally(
            images@.len() as int,
            |i: int|
                if retention::is_due(
                    dates,
                    bytes,
                    config.keep_failed_workspaces as int,
                    config.failed_workspaces_max_age_days,
                    config.failed_workspaces_max_bytes,
                    now,
                    i,
                ) {
                    1
                } else {
                    0
                },
        ),
        final(report).reclaimed_bytes == old(report).reclaimed_bytes + if old(report).dry_run {
            logs::tally(
                images@.len() as int,
                |i: int|
                    if retention::is_due(
                        dates,
                        bytes,
                        config.keep_failed_workspaces as int,
                        config.failed_workspaces_max_age_days,
                        config.failed_workspaces_max_bytes,
                        now,
                        i,
                    ) {
                        bytes[i]
                    } else {
                        0
                    },
            )
        } else {
            0
        },
{
    let c = cleanup::image_candidates(images@, records@);
    let policy = cleanup::image_policy(config);
    let n = images@.len() as int;
    let b = cleanup::Books { refs: cleanup::refs(old(store).jobs@), report: old(report)@ };
    let keys = cleanup::ids(old(store).jobs@);
    let refused = old(store).query_only;
    let views = cleanup::image_views(images@);
    let listed = cleanup::Books { report: cleanup::inventory_errors(b.report, inventories@), ..b };
    let cleared = cleanup::stale_images(listed, keys, records@, inventories@, refused);
    let attached = cleanup::attached_images(cleared, keys, views, records@, refused);
    lemma_errors_counted(b.report, inventories@);
    lemma_stale_counted(listed, keys, records@, inventories@, refused);
    lemma_attached_counted(cleared, keys, views, records@, refused);
    lemma_planned_images(attached.report, images@, c, policy, now, n);
    assert(r@.map_values(|i: usize| i as int).len() == r@.len());
    let due = |i: int|
        retention::is_due(
            dates,
            bytes,
            config.keep_failed_workspaces as int,
            config.failed_workspaces_max_age_days,
            config.failed_workspaces_max_bytes,
            now,
            i,
        );
    assert forall|k: int| 0 <= k < c.len() implies #[trigger] dates[k] == c[k].timestamp by {
        let d = images@[k];
        assert(d.candidate.timestamp == 0);
        retention::lemma_dates_from(records@, d.job_id, d.candidate, dates[k]);
    }
    assert forall|i: int| 0 <= i < n implies #[trigger] cleanup::goes(c, policy, now, i) == due(
        i,
    ) by {
        retention::lemma_is_due(
            c,
            dates,
            bytes,
            config.keep_failed_workspaces as int,
            config.failed_workspaces_max_age_days,
            config.failed_workspaces_max_bytes,
            now,
            i,
        );
    }
    retention::lemma_same_tally(
        n,
        |i: int|
            if cleanup::goes(c, policy, now, i) {
                1
            } else {
                0
            },
        |i: int|
            if retention::is_due(
                dates,
                bytes,
                config.keep_failed_workspaces as int,
                config.failed_workspaces_max_age_days,
                config.failed_workspaces_max_bytes,
                now,
                i,
            ) {
                1
            } else {
                0
            },
    );
    retention::lemma_same_tally(
        n,
        |i: int|
            if cleanup::goes(c, policy, now, i) {
                images@[i].candidate.bytes as int
            } else {
                0
            },
        |i: int|
            if retention::is_due(
                dates,
                bytes,
                config.keep_failed_workspaces as int,
                config.failed_workspaces_max_age_days,
                config.failed_workspaces_max_bytes,
                now,
                i,
            ) {
                bytes[i]
            } else {
                0
            },
    );
}

proof fn lemma_stale_logs_counted(
    b: cleanup::Books,
    records: Seq<ArtifactRecord>,
    dirs: Seq<LogDir>,
    refused: bool,
)
    ensures
        ({
            let a = cleanup::stale_logs(b, records, cleanup::log_paths(dirs), refused).report;
            a.stale_references == b.report.stale_references + records.filter(
                misses_among(dirs),
            ).len()
        }),
    decreases records.len(),
{
    reveal(Seq::filter);
    if records.len() > 0 {
        lemma_stale_logs_counted(b, records.drop_last(), dirs, refused);
        let paths = cleanup::log_paths(dirs);
        let last = records.last();
        if last.log_dir is Some {
            let p = (last.log_dir->0)@;
            if paths.contains(p) {
                let k = choose|k: int| 0 <= k < paths.len() && paths[k] == p;
                assert(dirs[k].path@ == p);
            } else {
                assert forall|k: int| 0 <= k < dirs.len() implies (#[trigger] dirs[k]).path@
                    != p by {
                    assert(paths[k] == dirs[k].path@);
                    assert(paths.contains(paths[k]));
                }
            }
        }
    }
}

proof fn lemma_logs_frame(
    b: cleanup::Books,
    ids: Seq<i64>,
    dirs: Seq<LogDir>,
    all: Seq<ArtifactRecord>,
    refused: bool,
)
    ensures
        cleanup::attached_logs(b, ids, dirs, all, refused).report.stale_references
            == b.report.stale_references,
    decreases dirs.len(),
{
    if dirs.len() > 0 {
        lemma_logs_frame(b, ids, dirs.drop_last(), all, refused);
    }
}

proof fn lemma_logs_planned(
    r: cleanup::ReportView,
    dirs: Seq<LogDir>,
    c: Seq<Candidate>,
    policy: Policy,
    now: i64,
    n: int,
)
    ensures
        cleanup::planned_logs(r, dirs, c, policy, now, n).stale_references == r.stale_references,
    decreases n,
{
    if n > 0 {
        lemma_logs_planned(r, dirs, c, policy, now, n - 1);
    }
}

/// Every reference to logs that are missing is counted, on a dry run as otherwise.
pub proof fn law_missing_logs_are_counted(
    config: Config,
    store: &mut Store,
    records: Vec<ArtifactRecord>,
    dirs: Vec<LogDir>,
    now: i64,
    report: &mut CleanupReport,
    r: Vec<usize>,
)
    requires
        call_ensures(cleanup::cleanup_logs, (&config, store, &records, &dirs, now, report), r),
    ensures
        final(report).stale_references == old(report).stale_references + records@.filter(
            misses_among(dirs@),
        ).len(),
{
    let b = cleanup::Books { refs: cleanup::refs(old(store).jobs@), report: old(report)@ };
    let keys = cleanup::ids(old(store).jobs@);
    let refused = old(store).query_only;
    let cleared = cleanup::stale_logs(b, records@, cleanup::log_paths(dirs@), refused);
    let attached = cleanup::attached_logs(cleared, keys, dirs@, records@, refused);
    lemma_stale_logs_counted(b, records@, dirs@, refused);
    lemma_logs_frame(cleared, keys, dirs@, records@, refused);
    lemma_logs_planned(
        attached.report,
        dirs@,
        cleanup::log_candidates(dirs@, records@),
        cleanup::log_policy(config),
        now,
        dirs@.len() as int,
    );
}

} // verus!

//! Cleanup: kept images, layer caches, removals and history.

use crate::cleanup;
use crate::cleanup::{
    cache_removal_reason, cleanup_docker_caches, cleanup_images, prune_history,
    record_cache_removal, record_image_removal, remove_log_dir_with, CleanupReport, ImageArtifact,
    ImageInventory, LogDir,
};
use crate::config::{Config, RepoConfig, RuntimeKind};
use crate::laws::logs;
use crate::laws::pool;
use crate::laws::retention;
use crate::runtime::{DockerCacheVolume, KeptImage};
use crate::store;
use crate::store::{ArtifactRecord, DockerCacheRecord, Event, Job, Store};
use crate::text;
use vstd::prelude::*;

verus! {

// -- kept images -----------------------------------------------------------------------

/// Kept workspaces are kept within `keep_failed_workspaces`,
/// `failed_workspaces_max_age_days` and `failed_workspaces_max_bytes`, each dated
/// by the completion of its job; one without a dated job counts as oldest. What is
/// handed out to be removed is what these ask for, no less and no more.
pub proof fn law_kept_workspaces_are_kept_within_their_own_limits(
    config: Config,
    store: &mut Store,
    records: Vec<ArtifactRecord>,
    inventories: Vec<ImageInventory>,
    now: i64,
    report: &mut CleanupReport,
    images: Vec<ImageArtifact>,
    r: Vec<usize>,
    dates: Seq<int>,
)
    requires
        call_ensures(
            cleanup_images,
            (&config, store, &records, &inventories, now, report),
            (images, r),
        ),
        !old(report).dry_run,
        dates.len() == images@.len(),
        forall|i: int|
            0 <= i < images@.len() ==> retention::dates_from(
                records@,
                (#[trigger] images@[i]).job_id,
                0,
                dates[i],
            ),
    ensures
        retention::within_limits(
            |i: int| r@.contains(i as usize),
            dates,
            Seq::new(images@.len(), |i: int| images@[i].candidate.bytes as int),
            config.keep_failed_workspaces as int,
            config.failed_workspaces_max_age_days,
            config.failed_workspaces_max_bytes,
            now,
        ),
        forall|a: int| 0 <= a < r@.len() ==> #[trigger] r@[a] < images@.len(),
{
    let c = cleanup::image_candidates(images@, records@);
    let policy = cleanup::image_policy(config);
    let n = images@.len() as int;
    let bytes = Seq::new(images@.len(), |i: int| images@[i].candidate.bytes as int);
    let at = r@.map_values(|i: usize| i as int);
    let goes = |i: int| r@.contains(i as usize);
    assert(images.len() == n);
    retention::lemma_gone(c, policy, now, n);
    assert forall|k: int| 0 <= k < c.len() implies #[trigger] dates[k] == c[k].timestamp by {
        let d = images@[k];
        assert(d.candidate.timestamp == 0);
        retention::lemma_dates_from(records@, d.job_id, d.candidate, dates[k]);
    }
    assert forall|k: int| 0 <= k < c.len() implies #[trigger] cleanup::is_removed(
        c,
        config.keep_failed_workspaces as int,
        config.failed_workspaces_max_age_days,
        config.failed_workspaces_max_bytes,
        now,
        k,
    ) == goes(k) by {
        retention::lemma_positions(r@, at, k);
        assert(at.contains(k) <==> 0 <= k < n && cleanup::goes(c, policy, now, k));
    }
    retention::lemma_within_limits(
        goes,
        c,
        dates,
        bytes,
        config.keep_failed_workspaces as usize,
        config.failed_workspaces_max_age_days,
        config.failed_workspaces_max_bytes,
        now,
    );
    assert forall|a: int| 0 <= a < r@.len() implies #[trigger] r@[a] < images@.len() by {
        assert(at[a] == r@[a]);
        assert(at.contains(at[a]));
    }
}

/// The limits on captured logs say nothing of kept workspaces.
pub proof fn law_other_limits_do_not_concern_kept_workspaces(
    a: Config,
    b: Config,
    store_a: &mut Store,
    store_b: &mut Store,
    records: Vec<ArtifactRecord>,
    inventories: Vec<ImageInventory>,
    now: i64,
    report_a: &mut CleanupReport,
    report_b: &mut CleanupReport,
    images: Vec<ImageArtifact>,
    r: Vec<usize>,
    s: Vec<usize>,
)
    requires
        call_ensures(
            cleanup_images,
            (&a, store_a, &records, &inventories, now, report_a),
            (images, r),
        ),
        call_ensures(
            cleanup_images,
            (&b, store_b, &records, &inventories, now, report_b),
            (images, s),
        ),
        old(report_a).dry_run == old(report_b).dry_run,
        a.keep_failed_workspaces == b.keep_failed_workspaces,
        a.failed_workspaces_max_age_days == b.failed_workspaces_max_age_days,
        a.failed_workspaces_max_bytes == b.failed_workspaces_max_bytes,
    ensures
        r@ == s@,
        old(report_a).dry_run ==> r@.len() == 0,
{
    let x = r@.map_values(|i: usize| i as int);
    let y = s@.map_values(|i: usize| i as int);
    assert(x == y);
    assert(x.len() == r@.len());
    assert forall|i: int| 0 <= i < r@.len() implies #[trigger] r@[i] == s@[i] by {
        assert(x[i] == r@[i] as int);
        assert(y[i] == s@[i] as int);
    }
    assert(r@ =~= s@);
}

proof fn lemma_found(inventories: Seq<ImageInventory>, x: (RuntimeKind, Seq<char>, u64))
    ensures
        cleanup::found_images(inventories).contains(x) <==> exists|i: int, j: int|
            #![trigger inventories[i].found->Ok_0@[j]]
            0 <= i < inventories.len() && inventories[i].found is Ok && 0 <= j
                < inventories[i].found->Ok_0@.len() && inventories[i].runtime == x.0
                && inventories[i].found->Ok_0@[j].tag@ == x.1
                && inventories[i].found->Ok_0@[j].size_bytes == x.2,
    decreases inventories.len(),
{
    if inventories.len() > 0 {
        let init = inventories.drop_last();
        let last = inventories.last();
        lemma_found(init, x);
        let before = cleanup::found_images(init);
        let more = match last.found {
            Ok(v) => v@.map_values(|k: KeptImage| (last.runtime, k.tag@, k.size_bytes)),
            Err(_) => Seq::empty(),
        };
        let all = cleanup::found_images(inventories);
        assert(all == before + more);
        if all.contains(x) {
            let a = choose|a: int| 0 <= a < all.len() && all[a] == x;
            if a < before.len() {
                assert(before[a] == x);
                assert(before.contains(x));
                let (i, j) = choose|i: int, j: int|
                    #![trigger init[i].found->Ok_0@[j]]
                    0 <= i < init.len() && init[i].found is Ok && 0 <= j
                        < init[i].found->Ok_0@.len() && init[i].runtime == x.0
                        && init[i].found->Ok_0@[j].tag@ == x.1
                        && init[i].found->Ok_0@[j].size_bytes == x.2;
                assert(inventories[i].found->Ok_0@[j].tag@ == x.1);
            } else {
                let j = a - before.len();
                assert(more[j] == x);
                assert(inventories[inventories.len() - 1].found->Ok_0@[j].tag@ == x.1);
            }
        }
        if exists|i: int, j: int|
            #![trigger inventories[i].found->Ok_0@[j]]
            0 <= i < inventories.len() && inventories[i].found is Ok && 0 <= j
                < inventories[i].found->Ok_0@.len() && inventories[i].runtime == x.0
                && inventories[i].found->Ok_0@[j].tag@ == x.1
                && inventories[i].found->Ok_0@[j].size_bytes == x.2 {
            let (i, j) = choose|i: int, j: int|
                #![trigger inventories[i].found->Ok_0@[j]]
                0 <= i < inventories.len() && inventories[i].found is Ok && 0 <= j
                    < inventories[i].found->Ok_0@.len() && inventories[i].runtime == x.0
                    && inventories[i].found->Ok_0@[j].tag@ == x.1
                    && inventories[i].found->Ok_0@[j].size_bytes == x.2;
            if i < init.len() {
                assert(init[i].found->Ok_0@[j].tag@ == x.1);
                assert(before.contains(x));
                let a = choose|a: int| 0 <= a < before.len() && before[a] == x;
                assert(all[a] == x);
            } else {
                assert(more[j] == x);
                assert(all[before.len() + j] == x);
            }
        }
    }
}

/// Every image that a runtime lists is looked at, and no other, each under the
/// name and with the size that the runtime gives.
pub proof fn law_every_listed_image_is_looked_at(
    config: Config,
    store: &mut Store,
    records: Vec<ArtifactRecord>,
    inventories: Vec<ImageInventory>,
    now: i64,
    report: &mut CleanupReport,
    images: Vec<ImageArtifact>,
    r: Vec<usize>,
    runtime: RuntimeKind,
    tag: Seq<char>,
    size: u64,
)
    requires
        call_ensures(
            cleanup_images,
            (&config, store, &records, &inventories, now, report),
            (images, r),
        ),
    ensures
        (exists|k: int|
            0 <= k < images@.len() && (#[trigger] images@[k]).runtime == runtime
                && images@[k].candidate.name@ == tag && images@[k].candidate.bytes == size)
            <==> exists|i: int, j: int|
            #![trigger inventories@[i].found->Ok_0@[j]]
            0 <= i < inventories@.len() && inventories@[i].found is Ok && 0 <= j
                < inventories@[i].found->Ok_0@.len() && inventories@[i].runtime == runtime
                && inventories@[i].found->Ok_0@[j].tag@ == tag
                && inventories@[i].found->Ok_0@[j].size_bytes == size,
{
    let x = (runtime, tag, size);
    lemma_found(inventories@, x);
    let views = cleanup::image_views(images@);
    assert(views == cleanup::found_images(inventories@));
    if views.contains(x) {
        let k = choose|k: int| 0 <= k < views.len() && views[k] == x;
        assert(images@[k].runtime == runtime);
    }
    if exists|k: int|
        0 <= k < images@.len() && (#[trigger] images@[k]).runtime == runtime
            && images@[k].candidate.name@ == tag && images@[k].candidate.bytes == size {
        let k = choose|k: int|
            0 <= k < images@.len() && (#[trigger] images@[k]).runtime == runtime
                && images@[k].candidate.name@ == tag && images@[k].candidate.bytes == size;
        assert(views[k] == x);
        assert(views.contains(x));
    }
}

/// A record refers to an image of a runtime, by its name.
pub open spec fn names_image(record: ArtifactRecord, runtime: RuntimeKind, tag: Seq<char>) -> bool {
    &&& record.kept_image is Some && record.kept_image->0@ == tag
    &&& record.kept_image_runtime is Some
    &&& runtime == RuntimeKind::Docker ==> record.kept_image_runtime->0@ == "docker"@
    &&& runtime == RuntimeKind::AppleContainer ==> record.kept_image_runtime->0@
        == "apple-container"@
}

proof fn lemma_names_image(record: ArtifactRecord, runtime: RuntimeKind, tag: Seq<char>)
    ensures
        names_image(record, runtime, tag) == cleanup::refers_to(record, runtime, tag),
{
    reveal_strlit("docker");
    reveal_strlit("apple-container");
    assert("docker"@.len() != "apple-container"@.len());
}

proof fn lemma_tracked(
    records: Seq<ArtifactRecord>,
    runtime: RuntimeKind,
    tag: Seq<char>,
    k: int,
)
    requires
        -1 <= k < records.len(),
        k >= 0 ==> names_image(records[k], runtime, tag),
        forall|l: int| k < l < records.len() ==> !names_image(#[trigger] records[l], runtime, tag),
    ensures
        cleanup::tracked_job(records, runtime, tag) == if k >= 0 {
            Some(records[k].job_id)
        } else {
            None
        },
    decreases records.len(),
{
    if records.len() > 0 {
        lemma_names_image(records.last(), runtime, tag);
        if k < records.len() - 1 {
            assert(!names_image(records[records.len() - 1], runtime, tag));
            let init = records.drop_last();
            assert forall|l: int| k < l < init.len() implies !names_image(
                #[trigger] init[l],
                runtime,
                tag,
            ) by {
                assert(init[l] == records[l]);
            }
            lemma_tracked(init, runtime, tag, k);
        }
    }
}

/// An image belongs to the job whose record refers to it, the last if several do,
/// and otherwise to the job that its tag names.
pub proof fn law_images_belong_to_the_job_that_refers_to_them(
    images: &mut Vec<ImageArtifact>,
    records: Vec<ArtifactRecord>,
    i: int,
    k: int,
    tag: &str,
    named: Option<i64>,
)
    requires
        call_ensures(cleanup::associate_image_jobs, (images, &records), ()),
        0 <= i < old(images)@.len(),
        tag@ == old(images)@[i].candidate.name@,
        call_ensures(cleanup::image_job_id, (tag,), named),
        -1 <= k < records@.len(),
        k >= 0 ==> names_image(records@[k], old(images)@[i].runtime, tag@),
        forall|l: int|
            k < l < records@.len() ==> !names_image(
                #[trigger] records@[l],
                old(images)@[i].runtime,
                tag@,
            ),
    ensures
        final(images)@.len() == old(images)@.len(),
        final(images)@[i].candidate == old(images)@[i].candidate,
        final(images)@[i].runtime == old(images)@[i].runtime,
        k >= 0 ==> final(images)@[i].job_id == Some(records@[k].job_id),
        k < 0 ==> final(images)@[i].job_id == named,
{
    lemma_tracked(records@, old(images)@[i].runtime, tag@, k);
    let x = final(images)@[i];
}

/// A tag names a job exactly if it is the standard prefix and the job's id.
pub proof fn law_standard_tags_name_jobs(tag: &str, rest: &[char], id: Option<i64>, r: Option<i64>)
    requires
        call_ensures(cleanup::image_job_id, (tag,), r),
        call_ensures(crate::number::parse_i64, (rest,), id),
    ensures
        tag@ == "homerunner-kept:"@ + rest@ ==> r == id,
        r is Some ==> exists|s: Seq<char>| tag@ == #[trigger] ("homerunner-kept:"@ + s),
{
    let p = "homerunner-kept:"@;
    if tag@ == p + rest@ {
        assert(tag@.subrange(0, p.len() as int) =~= p);
        assert(tag@.skip(p.len() as int) =~= rest@);
    }
    if r is Some {
        assert(tag@ =~= p + tag@.skip(p.len() as int));
    }
}

// -- layer caches ------------------------------------------------------------------------

/// A cache in use never goes. Another goes if no repo has a slot for it, or if an
/// age limit is set and it was last used before that.
pub proof fn law_caches_go_that_have_no_slot_or_expired(
    in_use: bool,
    slots: Option<u32>,
    slot: u32,
    last_used: i64,
    days: u64,
    now: i64,
    r: Option<&'static str>,
)
    requires
        call_ensures(cache_removal_reason, (in_use, slots, slot, last_used, days, now), r),
    ensures
        r is Some <==> !in_use && (slots is None || slot >= slots->0 || (days > 0 && now - last_used
            > days * 24 * 60 * 60 * 1_000_000)),
        r is Some && (slots is None || slot >= slots->0) ==> r->0@ == "no configured cache slot"@,
        r is Some && slots is Some && slot < slots->0 ==> r->0@ == "expired"@,
{
}

proof fn lemma_slots(repos: Seq<RepoConfig>, repo: Seq<char>, k: int)
    requires
        -1 <= k < repos.len(),
        k >= 0 ==> repos[k].docker_layer_cache && repos[k].repo@ == repo,
        forall|l: int|
            k < l < repos.len() ==> !((#[trigger] repos[l]).docker_layer_cache && repos[l].repo@
                == repo),
    ensures
        cleanup::slots_of(repos, repo) == if k >= 0 {
            Some(repos[k].max)
        } else {
            None
        },
    decreases repos.len(),
{
    if repos.len() > 0 && k < repos.len() - 1 {
        let init = repos.drop_last();
        assert(!(repos[repos.len() - 1].docker_layer_cache && repos[repos.len() - 1].repo@
            == repo));
        assert forall|l: int| k < l < init.len() implies !((
        #[trigger] init[l]).docker_layer_cache && init[l].repo@ == repo) by {
            assert(init[l] == repos[l]);
        }
        lemma_slots(init, repo, k);
    }
}

proof fn lemma_cache_record(caches: Seq<DockerCacheRecord>, name: Seq<char>, m: int)
    requires
        -1 <= m < caches.len(),
        m >= 0 ==> caches[m].name@ == name,
        forall|l: int| m < l < caches.len() ==> (#[trigger] caches[l]).name@ != name,
    ensures
        cleanup::cache_record(cleanup::cache_views(caches), name) == if m >= 0 {
            Some(cleanup::cache_view(caches[m]))
        } else {
            None
        },
    decreases caches.len(),
{
    let views = cleanup::cache_views(caches);
    if caches.len() > 0 {
        assert(views.last() == cleanup::cache_view(caches.last()));
        if m < caches.len() - 1 {
            assert(caches[caches.len() - 1].name@ != name);
            let init = caches.drop_last();
            assert forall|l: int| m < l < init.len() implies (#[trigger] init[l]).name@ != name by {
                assert(init[l] == caches[l]);
            }
            lemma_cache_record(init, name, m);
            assert(cleanup::cache_views(init) =~= views.drop_last());
        }
    }
}

proof fn lemma_volumes_gone(
    config: Config,
    records: Seq<cleanup::CacheView>,
    volumes: Seq<DockerCacheVolume>,
    now: i64,
    n: int,
)
    requires
        0 <= n <= volumes.len(),
    ensures
        forall|k: int| #[trigger]
            cleanup::volumes_gone(config, records, volumes, now, n).contains(k) <==> 0 <= k < n
                && cleanup::volume_goes(config, records, volumes[k], now),
    decreases n,
{
    if n > 0 {
        lemma_volumes_gone(config, records, volumes, now, n - 1);
        let before = cleanup::volumes_gone(config, records, volumes, now, n - 1);
        let all = cleanup::volumes_gone(config, records, volumes, now, n);
        if cleanup::volume_goes(config, records, volumes[n - 1], now) {
            assert forall|k: int| #[trigger] all.contains(k) <==> 0 <= k < n
                && cleanup::volume_goes(config, records, volumes[k], now) by {
                logs::lemma_push_contains(before, n - 1, k);
            }
        }
    }
}

/// A volume is handed out to be removed exactly if this is no dry run, the journal
/// knows the cache, no container uses it, and its repo has no slot for it or it has
/// not been used for `docker_cache_max_age_days`, where that is not zero. Here `m`
/// is the last record of the cache and `k` the last repo of its name that keeps
/// layer caches, or -1 where there is none.
pub proof fn law_unused_caches_without_a_slot_are_removed(
    config: Config,
    store: &mut Store,
    volumes: Vec<DockerCacheVolume>,
    found: Result<Vec<DockerCacheVolume>, String>,
    now: i64,
    report: &mut CleanupReport,
    r: Vec<usize>,
    i: int,
    m: int,
    k: int,
)
    requires
        found == Ok::<Vec<DockerCacheVolume>, String>(volumes),
        call_ensures(cleanup_docker_caches, (&config, store, &found, now, report), r),
        0 <= i < volumes@.len(),
        -1 <= m < old(store).docker_caches@.len(),
        m >= 0 ==> old(store).docker_caches@[m].name@ == volumes@[i].name@,
        forall|l: int|
            m < l < old(store).docker_caches@.len() ==> (
            #[trigger] old(store).docker_caches@[l]).name@ != volumes@[i].name@,
        -1 <= k < config.repos@.len(),
        k >= 0 ==> config.repos@[k].docker_layer_cache && config.repos@[k].repo@
            == volumes@[i].repo@,
        forall|l: int|
            k < l < config.repos@.len() ==> !((
            #[trigger] config.repos@[l]).docker_layer_cache && config.repos@[l].repo@
                == volumes@[i].repo@),
    ensures
        r@.contains(i as usize) <==> {
            &&& !old(report).dry_run
            &&& m >= 0
            &&& !volumes@[i].in_use
            &&& k < 0 || volumes@[i].slot >= config.repos@[k].max || (
            config.docker_cache_max_age_days > 0 && now - old(store).docker_caches@[m].last_used
                > config.docker_cache_max_age_days * 24 * 60 * 60 * 1_000_000)
        },
{
    let records = cleanup::cache_views(old(store).docker_caches@);
    let at = r@.map_values(|i: usize| i as int);
    assert(volumes.len() == volumes@.len());
    lemma_cache_record(old(store).docker_caches@, volumes@[i].name@, m);
    lemma_slots(config.repos@, volumes@[i].repo@, k);
    lemma_volumes_gone(config, records, volumes@, now, volumes@.len() as int);
    retention::lemma_positions(r@, at, i);
    assert(at.contains(i) <==> !old(report).dry_run && cleanup::volume_goes(
        config,
        records,
        volumes@[i],
        now,
    ));
}

/// An inventory of caches that failed removes nothing and changes nothing but the
/// report, which says so.
pub proof fn law_failed_cache_inventories_remove_nothing(
    config: Config,
    store: &mut Store,
    e: String,
    found: Result<Vec<DockerCacheVolume>, String>,
    now: i64,
    report: &mut CleanupReport,
    r: Vec<usize>,
)
    requires
        found == Err::<Vec<DockerCacheVolume>, String>(e),
        call_ensures(cleanup_docker_caches, (&config, store, &found, now, report), r),
    ensures
        r@.len() == 0,
        final(store).jobs == old(store).jobs,
        cleanup::cache_views(final(store).docker_caches@) == cleanup::cache_views(
            old(store).docker_caches@,
        ),
        final(report).planned == old(report).planned,
        final(report).errors@.len() == old(report).errors@.len() + 1,
        final(report).errors@.last()@ == "inventory Docker layer caches: "@ + e@,
{
    assert(r@.map_values(|i: usize| i as int).len() == r@.len());
    let errors = text::texts(final(report).errors@);
    assert(errors == text::texts(old(report).errors@).push(
        "inventory Docker layer caches: "@ + e@,
    ));
    assert(errors.len() == final(report).errors@.len());
    assert(errors.last() == final(report).errors@.last()@);
}

// -- removals -----------------------------------------------------------------------------

/// A log directory that was removed is counted, with its bytes, and no job of a
/// journal that takes writes refers to it any more; one that could not be removed
/// is reported, and stays referred to.
pub proof fn law_only_removed_logs_are_forgotten(
    store: &mut Store,
    dir: LogDir,
    report: &mut CleanupReport,
    outcome: Result<(), String>,
    i: int,
)
    requires
        call_ensures(remove_log_dir_with, (store, &dir, report, outcome), ()),
        0 <= i < old(store).jobs@.len(),
    ensures
        final(store).jobs@.len() == old(store).jobs@.len(),
        final(report).planned == old(report).planned,
        outcome is Ok ==> {
            &&& final(report).removed == old(report).removed + 1
            &&& final(report).reclaimed_bytes == old(report).reclaimed_bytes + dir.candidate.bytes
            &&& !old(store).query_only && old(store).jobs@[i].log_dir is Some
                && old(store).jobs@[i].log_dir->0@ == dir.path@
                ==> final(store).jobs@[i].log_dir is None
        },
        outcome is Err ==> {
            &&& final(report).removed == old(report).removed
            &&& final(report).reclaimed_bytes == old(report).reclaimed_bytes
            &&& final(report).errors@.len() == old(report).errors@.len() + 1
        },
        outcome is Err || text::opt_text(old(store).jobs@[i].log_dir) != Some(dir.path@)
            ==> text::opt_text(final(store).jobs@[i].log_dir) == text::opt_text(
            old(store).jobs@[i].log_dir,
        ),
{
    let a = cleanup::refs(final(store).jobs@);
    let b = cleanup::refs(old(store).jobs@);
    assert(a[i].logs == text::opt_text(final(store).jobs@[i].log_dir));
    assert(b[i].logs == text::opt_text(old(store).jobs@[i].log_dir));
    assert(text::texts(final(report).errors@).len() == final(report).errors@.len());
    assert(text::texts(old(report).errors@).len() == old(report).errors@.len());
}

/// An image that was removed is counted, with its bytes, and its job refers to it
/// no more; one that could not be removed is reported, and stays referred to.
pub proof fn law_only_removed_images_are_forgotten(
    store: &mut Store,
    image: ImageArtifact,
    result: Result<(), String>,
    report: &mut CleanupReport,
    i: int,
)
    requires
        call_ensures(record_image_removal, (store, &image, result, report), ()),
        0 <= i < old(store).jobs@.len(),
    ensures
        final(store).jobs@.len() == old(store).jobs@.len(),
        result is Ok ==> {
            &&& final(report).removed == old(report).removed + 1
            &&& final(report).reclaimed_bytes == old(report).reclaimed_bytes
                + image.candidate.bytes
            &&& !old(store).query_only && image.job_id == Some(old(store).jobs@[i].gh_job_id)
                ==> final(store).jobs@[i].kept_image is None
                && final(store).jobs@[i].kept_image_runtime is None
        },
        result is Err ==> {
            &&& final(report).removed == old(report).removed
            &&& final(report).reclaimed_bytes == old(report).reclaimed_bytes
            &&& final(report).errors@.len() == old(report).errors@.len() + 1
        },
        result is Err || image.job_id != Some(old(store).jobs@[i].gh_job_id) ==> text::opt_text(
            final(store).jobs@[i].kept_image,
        ) == text::opt_text(old(store).jobs@[i].kept_image),
        text::opt_text(final(store).jobs@[i].log_dir) == text::opt_text(
            old(store).jobs@[i].log_dir,
        ),
{
    let a = cleanup::refs(final(store).jobs@);
    let b = cleanup::refs(old(store).jobs@);
    assert(cleanup::ids(old(store).jobs@)[i] == old(store).jobs@[i].gh_job_id);
    assert(a[i].logs == text::opt_text(final(store).jobs@[i].log_dir));
    assert(b[i].logs == text::opt_text(old(store).jobs@[i].log_dir));
    assert(a[i].image == text::opt_text(final(store).jobs@[i].kept_image));
    assert(b[i].image == text::opt_text(old(store).jobs@[i].kept_image));
    assert(a[i].runtime == text::opt_text(final(store).jobs@[i].kept_image_runtime));
    assert(text::texts(final(report).errors@).len() == final(report).errors@.len());
    assert(text::texts(old(report).errors@).len() == old(report).errors@.len());
}

// -- history ------------------------------------------------------------------------------

/// A journal that takes writes forgets exactly the jobs that completed more than
/// `job_history_days` days ago and refer neither to logs nor to an image, and the
/// events of more than `event_history_days` days ago. A dry run only counts them.
pub proof fn law_history_forgets_what_is_old_and_refers_to_nothing(
    config: Config,
    store: &mut Store,
    now: i64,
    report: &mut CleanupReport,
)
    requires
        call_ensures(prune_history, (&config, store, now, report), ()),
    ensures
        !old(report).dry_run && !old(store).query_only ==> {
            &&& final(store).jobs@ == old(store).jobs@.filter(
                |j: Job|
                    !(j.completed_at is Some && now - j.completed_at->0 > config.job_history_days
                        * 24 * 60 * 60 * 1_000_000 && j.log_dir is None && j.kept_image is None),
            )
            &&& final(store).events@ == old(store).events@.filter(
                |e: Event| !(now - e.ts > config.event_history_days * 24 * 60 * 60 * 1_000_000),
            )
        },
        old(report).dry_run || old(store).query_only ==> *final(store) == *old(store),
        old(report).dry_run || !old(store).query_only ==> {
            &&& final(report).pruned_jobs == old(store).jobs@.filter(
                |j: Job|
                    j.completed_at is Some && now - j.completed_at->0 > config.job_history_days * 24
                        * 60 * 60 * 1_000_000 && j.log_dir is None && j.kept_image is None,
            ).len()
            &&& final(report).pruned_events == old(store).events@.filter(
                |e: Event| now - e.ts > config.event_history_days * 24 * 60 * 60 * 1_000_000,
            ).len()
        },
{
    let jobs = cleanup::job_cutoff(config, now);
    let events = cleanup::event_cutoff(config, now);
    pool::lemma_same_filter(
        old(store).jobs@,
        store::retained_job(jobs),
        |j: Job|
            !(j.completed_at is Some && now - j.completed_at->0 > config.job_history_days * 24 * 60
                * 60 * 1_000_000 && j.log_dir is None && j.kept_image is None),
    );
    pool::lemma_same_filter(
        old(store).events@,
        store::retained_event(events),
        |e: Event| !(now - e.ts > config.event_history_days * 24 * 60 * 60 * 1_000_000),
    );
    pool::lemma_same_filter(
        old(store).jobs@,
        store::prunable_job(jobs),
        |j: Job|
            j.completed_at is Some && now - j.completed_at->0 > config.job_history_days * 24 * 60
                * 60 * 1_000_000 && j.log_dir is None && j.kept_image is None,
    );
    pool::lemma_same_filter(
        old(store).events@,
        store::prunable_event(events),
        |e: Event| now - e.ts > config.event_history_days * 24 * 60 * 60 * 1_000_000,
    );
}

} // verus!

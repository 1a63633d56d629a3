//! Layer caches and what the journal knows of them.

use crate::cleanup;
use crate::cleanup::{CacheBooks, CacheView, CleanupReport};
use crate::config::Config;
use crate::runtime::DockerCacheVolume;
use crate::store::{DockerCacheRecord, Store};
use vstd::prelude::*;

verus! {

/// The journal knows a cache as it is written down.
pub open spec fn knows(store: Store, c: DockerCacheRecord) -> bool {
    exists|i: int|
        0 <= i < store.docker_caches@.len() && same(#[trigger] store.docker_caches@[i], c)
}

/// The journal knows a cache of a name.
pub open spec fn knows_name(store: Store, name: Seq<char>) -> bool {
    exists|i: int|
        0 <= i < store.docker_caches@.len() && (#[trigger] store.docker_caches@[i]).name@ == name
}

/// Two records say the same.
pub open spec fn same(a: DockerCacheRecord, b: DockerCacheRecord) -> bool {
    a.name@ == b.name@ && a.repo@ == b.repo@ && a.slot == b.slot && a.last_used == b.last_used
}

/// There is a volume of a name.
pub open spec fn is_volume(volumes: Seq<DockerCacheVolume>, name: Seq<char>) -> bool {
    exists|i: int| 0 <= i < volumes.len() && (#[trigger] volumes[i]).name@ == name
}

spec fn named(views: Seq<CacheView>, name: Seq<char>) -> bool {
    exists|i: int| 0 <= i < views.len() && (#[trigger] views[i]).name == name
}

proof fn lemma_views(store: Store, c: DockerCacheRecord)
    ensures
        knows(store, c) <==> cleanup::cache_views(store.docker_caches@).contains(
            cleanup::cache_view(c),
        ),
        knows_name(store, c.name@) <==> named(
            cleanup::cache_views(store.docker_caches@),
            c.name@,
        ),
{
    let caches = store.docker_caches@;
    let v = cleanup::cache_views(caches);
    let x = cleanup::cache_view(c);
    if knows(store, c) {
        let i = choose|i: int| 0 <= i < caches.len() && same(#[trigger] caches[i], c);
        assert(v[i] == x);
    }
    if v.contains(x) {
        let i = choose|i: int| 0 <= i < v.len() && v[i] == x;
        assert(v[i] == cleanup::cache_view(caches[i]));
        assert(same(caches[i], c));
    }
    if knows_name(store, c.name@) {
        let i = choose|i: int| 0 <= i < caches.len() && (#[trigger] caches[i]).name@ == c.name@;
        assert(v[i].name == c.name@);
    }
    if named(v, c.name@) {
        let i = choose|i: int| 0 <= i < v.len() && (#[trigger] v[i]).name == c.name@;
        assert(caches[i].name@ == c.name@);
    }
}

proof fn lemma_forgotten(views: Seq<CacheView>, name: Seq<char>, x: CacheView)
    ensures
        cleanup::cache_forgotten(views, name).contains(x) <==> views.contains(x) && x.name != name,
    decreases views.len(),
{
    if views.len() > 0 {
        let rest = views.drop_last();
        lemma_forgotten(rest, name, x);
        let f = cleanup::cache_forgotten(rest, name);
        crate::laws::logs::lemma_push_contains(rest, views.last(), x);
        assert(rest.push(views.last()) =~= views);
        crate::laws::logs::lemma_push_contains(f, views.last(), x);
    }
}

proof fn lemma_used_name(views: Seq<CacheView>, c: CacheView, x: CacheView)
    requires
        x.name != c.name,
    ensures
        cleanup::cache_used(views, c).contains(x) <==> views.contains(x),
        named(cleanup::cache_used(views, c), c.name),
        forall|y: CacheView| #[trigger]
            cleanup::cache_used(views, c).contains(y) ==> views.contains(y) || y == c,
    decreases views.len(),
{
    let out = cleanup::cache_used(views, c);
    if views.len() == 0 {
        assert(out == seq![c]);
        assert(out[0].name == c.name);
    } else {
        let rest = views.drop_first();
        if views[0].name == c.name {
            assert(out == seq![c] + rest);
            assert(out[0].name == c.name);
            assert forall|y: CacheView| #[trigger] out.contains(y) implies views.contains(y) || y
                == c by {
                let i = choose|i: int| 0 <= i < out.len() && out[i] == y;
                if i > 0 {
                    assert(views[i] == y);
                }
            }
            if views.contains(x) {
                let i = choose|i: int| 0 <= i < views.len() && views[i] == x;
                assert(out[i] == x);
            }
        } else {
            lemma_used_name(rest, c, x);
            let inner = cleanup::cache_used(rest, c);
            assert(out == seq![views[0]] + inner);
            let k = choose|k: int| 0 <= k < inner.len() && (#[trigger] inner[k]).name == c.name;
            assert(out[k + 1].name == c.name);
            assert forall|y: CacheView| #[trigger] out.contains(y) implies views.contains(y) || y
                == c by {
                let i = choose|i: int| 0 <= i < out.len() && out[i] == y;
                if i == 0 {
                    assert(views[0] == y);
                } else {
                    assert(inner[i - 1] == y);
                    assert(inner.contains(y));
                    if rest.contains(y) {
                        let j = choose|j: int| 0 <= j < rest.len() && rest[j] == y;
                        assert(views[j + 1] == y);
                    }
                }
            }
            if views.contains(x) {
                let i = choose|i: int| 0 <= i < views.len() && views[i] == x;
                if i == 0 {
                    assert(out[0] == x);
                } else {
                    assert(rest[i - 1] == x);
                    assert(inner.contains(x));
                    let j = choose|j: int| 0 <= j < inner.len() && inner[j] == x;
                    assert(out[j + 1] == x);
                }
            }
        }
    }
}

proof fn lemma_stale(
    b: CacheBooks,
    records: Seq<CacheView>,
    volumes: Seq<DockerCacheVolume>,
    refused: bool,
    x: CacheView,
)
    ensures
        ({
            let out = cleanup::stale_caches(b, records, volumes, refused);
            &&& out.report.dry_run == b.report.dry_run
            &&& out.report.planned == b.report.planned
            &&& out.report.repaired == b.report.repaired
            &&& out.report.removed == b.report.removed
            &&& out.report.stale_references == b.report.stale_references + records.filter(
                |c: CacheView| !is_volume(volumes, c.name),
            ).len()
            &&& b.report.dry_run || refused ==> out.caches == b.caches
            &&& !b.report.dry_run && !refused ==> (out.caches.contains(x) <==> b.caches.contains(x)
                && !(named(records, x.name) && !is_volume(volumes, x.name)))
        }),
    decreases records.len(),
{
    reveal(Seq::filter);
    if records.len() > 0 {
        let rest = records.drop_last();
        let last = records.last();
        lemma_stale(b, rest, volumes, refused, x);
        let before = cleanup::stale_caches(b, rest, volumes, refused);
        lemma_forgotten(before.caches, last.name, x);
        assert(cleanup::has_volume(volumes, last.name) == is_volume(volumes, last.name));
        if named(records, x.name) {
            let i = choose|i: int| 0 <= i < records.len() && (#[trigger] records[i]).name == x.name;
            if i < rest.len() {
                assert(rest[i].name == x.name);
            }
        }
        if named(rest, x.name) {
            let i = choose|i: int| 0 <= i < rest.len() && (#[trigger] rest[i]).name == x.name;
            assert(records[i].name == x.name);
        }
        assert(records[records.len() - 1].name == last.name);
    }
}

proof fn lemma_record(records: Seq<CacheView>, name: Seq<char>)
    ensures
        cleanup::cache_record(records, name) is Some <==> named(records, name),
    decreases records.len(),
{
    if records.len() > 0 {
        let rest = records.drop_last();
        lemma_record(rest, name);
        if records.last().name == name {
            assert(records[records.len() - 1].name == name);
        }
        if named(records, name) && records.last().name != name {
            let i = choose|i: int| 0 <= i < records.len() && (#[trigger] records[i]).name == name;
            assert(rest[i].name == name);
        }
        if named(rest, name) {
            let i = choose|i: int| 0 <= i < rest.len() && (#[trigger] rest[i]).name == name;
            assert(records[i].name == name);
        }
    }
}

proof fn lemma_seen(
    b: CacheBooks,
    config: Config,
    records: Seq<CacheView>,
    volumes: Seq<DockerCacheVolume>,
    refused: bool,
    now: i64,
    x: CacheView,
    n: int,
)
    requires
        n == volumes.len(),
    ensures
        ({
            let out = cleanup::volumes_seen(b, config, records, volumes, refused, now);
            &&& out.report.dry_run == b.report.dry_run
            &&& out.report.removed == b.report.removed
            &&& out.report.stale_references == b.report.stale_references
            &&& out.report.planned == b.report.planned + cleanup::volumes_gone(
                config,
                records,
                volumes,
                now,
                n,
            ).len()
            &&& out.report.repaired == b.report.repaired + volumes.filter(
                |v: DockerCacheVolume| !named(records, v.name@),
            ).len()
            &&& b.report.dry_run || refused ==> out.caches == b.caches
            // A known cache, and one without a volume, stays as it is.
            &&& named(records, x.name) || !is_volume(volumes, x.name) ==> (out.caches.contains(x)
                <==> b.caches.contains(x))
            // A cache that is not known is recorded, as of now.
            &&& !b.report.dry_run && !refused && !named(records, x.name) && is_volume(
                volumes,
                x.name,
            ) ==> named(out.caches, x.name)
            &&& !named(records, x.name) && !named(b.caches, x.name) && out.caches.contains(x)
                ==> x.last_used == now && exists|i: int|
                0 <= i < volumes.len() && (#[trigger] volumes[i]).name@ == x.name
                    && volumes[i].repo@ == x.repo && volumes[i].slot == x.slot
        }),
    decreases volumes.len(),
{
    reveal(Seq::filter);
    let out = cleanup::volumes_seen(b, config, records, volumes, refused, now);
    if volumes.len() > 0 {
        let rest = volumes.drop_last();
        let last = volumes.last();
        lemma_seen(b, config, records, rest, refused, now, x, n - 1);
        lemma_gone_prefix(config, records, volumes, now, n - 1);
        let before = cleanup::volumes_seen(b, config, records, rest, refused, now);
        lemma_record(records, last.name@);
        assert(volumes[n - 1] == last);
        assert(is_volume(volumes, last.name@));
        if is_volume(rest, x.name) {
            let i = choose|i: int| 0 <= i < rest.len() && (#[trigger] rest[i]).name@ == x.name;
            assert(volumes[i].name@ == x.name);
        }
        if is_volume(volumes, x.name) && last.name@ != x.name {
            let i = choose|i: int|
                0 <= i < volumes.len() && (#[trigger] volumes[i]).name@ == x.name;
            assert(rest[i].name@ == x.name);
        }
        if !named(records, last.name@) && !b.report.dry_run && !refused {
            let c = CacheView {
                name: last.name@,
                repo: last.repo@,
                slot: last.slot,
                last_used: now,
            };
            assert(out.caches == cleanup::cache_used(before.caches, c));
            if x.name != c.name {
                lemma_used_name(before.caches, c, x);
                if named(before.caches, x.name) {
                    let i = choose|i: int|
                        0 <= i < before.caches.len() && (#[trigger] before.caches[i]).name == x.name;
                    lemma_used_name(before.caches, c, before.caches[i]);
                    assert(before.caches.contains(before.caches[i]));
                    let j = choose|j: int|
                        0 <= j < out.caches.len() && out.caches[j] == before.caches[i];
                    assert(out.caches[j].name == x.name);
                }
            } else {
                let other = CacheView { name: c.name.push('x'), ..c };
                assert(other.name.len() != c.name.len());
                lemma_used_name(before.caches, c, other);
            }
        }
        if !named(records, x.name) && !named(b.caches, x.name) && out.caches.contains(x) {
            if before.caches.contains(x) {
                let i = choose|i: int|
                    0 <= i < rest.len() && (#[trigger] rest[i]).name@ == x.name && rest[i].repo@
                        == x.repo && rest[i].slot == x.slot;
                assert(volumes[i].name@ == x.name);
            } else {
                assert(volumes[n - 1].name@ == x.name);
            }
        }
    }
}

proof fn lemma_gone_prefix(
    config: Config,
    records: Seq<CacheView>,
    volumes: Seq<DockerCacheVolume>,
    now: i64,
    n: int,
)
    requires
        0 <= n < volumes.len(),
    ensures
        cleanup::volumes_gone(config, records, volumes.drop_last(), now, n)
            == cleanup::volumes_gone(config, records, volumes, now, n),
    decreases n,
{
    if n > 0 {
        lemma_gone_prefix(config, records, volumes, now, n - 1);
        assert(volumes.drop_last()[n - 1] == volumes[n - 1]);
    }
}

/// After a cleanup of caches that may write, the journal knows a cache exactly if there is a
/// volume of its name: what it knew it still knows as it was, and what it did not know is dated
/// from now.
pub proof fn law_the_journal_knows_the_caches_that_are_there(
    config: Config,
    store: &mut Store,
    volumes: Vec<DockerCacheVolume>,
    found: Result<Vec<DockerCacheVolume>, String>,
    now: i64,
    report: &mut CleanupReport,
    r: Vec<usize>,
    c: DockerCacheRecord,
)
    requires
        found == Ok::<Vec<DockerCacheVolume>, String>(volumes),
        call_ensures(cleanup::cleanup_docker_caches, (&config, store, &found, now, report), r),
        !old(report).dry_run,
        !old(store).query_only,
    ensures
        knows_name(*old(store), c.name@) ==> (knows(*final(store), c) <==> knows(*old(store), c)
            && is_volume(volumes@, c.name@)),
        !knows_name(*old(store), c.name@) ==> (knows_name(*final(store), c.name@) <==> is_volume(
            volumes@,
            c.name@,
        )),
        !knows_name(*old(store), c.name@) && knows(*final(store), c) ==> c.last_used == now
            && exists|i: int|
            0 <= i < volumes@.len() && (#[trigger] volumes@[i]).name@ == c.name@
                && volumes@[i].repo@ == c.repo@ && volumes@[i].slot == c.slot,
        final(store).jobs == old(store).jobs,
        final(store).events == old(store).events,
{
    let b = CacheBooks {
        caches: cleanup::cache_views(old(store).docker_caches@),
        report: old(report)@,
    };
    let x = cleanup::cache_view(c);
    let n = volumes@.len() as int;
    let cleared = cleanup::stale_caches(b, b.caches, volumes@, false);
    lemma_views(*old(store), c);
    lemma_views(*final(store), c);
    lemma_stale(b, b.caches, volumes@, false, x);
    lemma_seen(cleared, config, b.caches, volumes@, false, now, x, n);
    let after = cleanup::cache_views(final(store).docker_caches@);
    if named(cleared.caches, x.name) {
        let i = choose|i: int|
            0 <= i < cleared.caches.len() && (#[trigger] cleared.caches[i]).name == x.name;
        let y = cleared.caches[i];
        assert(cleared.caches.contains(y));
        lemma_stale(b, b.caches, volumes@, false, y);
        let j = choose|j: int| 0 <= j < b.caches.len() && b.caches[j] == y;
        assert(b.caches[j].name == x.name);
    }
    if !named(b.caches, x.name) && named(after, x.name) && !is_volume(volumes@, x.name) {
        let i = choose|i: int| 0 <= i < after.len() && (#[trigger] after[i]).name == x.name;
        let y = after[i];
        assert(after.contains(y));
        lemma_seen(cleared, config, b.caches, volumes@, false, now, y, n);
        assert(cleared.caches.contains(y));
        let j = choose|j: int| 0 <= j < cleared.caches.len() && cleared.caches[j] == y;
        assert(cleared.caches[j].name == x.name);
    }
}

/// A dry run plans as many removals as a cleanup hands out, and changes nothing that the
/// journal knows; both count every cache that is missing and every one that was not known.
pub proof fn law_cache_cleanups_count_alike(
    config: Config,
    a: &mut Store,
    b: &mut Store,
    volumes: Vec<DockerCacheVolume>,
    found: Result<Vec<DockerCacheVolume>, String>,
    now: i64,
    dry: &mut CleanupReport,
    wet: &mut CleanupReport,
    ra: Vec<usize>,
    rb: Vec<usize>,
    c: DockerCacheRecord,
)
    requires
        found == Ok::<Vec<DockerCacheVolume>, String>(volumes),
        call_ensures(cleanup::cleanup_docker_caches, (&config, a, &found, now, dry), ra),
        call_ensures(cleanup::cleanup_docker_caches, (&config, b, &found, now, wet), rb),
        old(a).docker_caches == old(b).docker_caches,
        old(dry).dry_run,
        !old(wet).dry_run,
    ensures
        ra@.len() == 0,
        final(dry).planned == old(dry).planned + rb@.len(),
        final(wet).planned == old(wet).planned + rb@.len(),
        final(dry).removed == old(dry).removed,
        final(wet).removed == old(wet).removed,
        final(dry).repaired - old(dry).repaired == volumes@.filter(
            |v: DockerCacheVolume| !knows_name(*old(a), v.name@),
        ).len(),
        final(wet).repaired - old(wet).repaired == final(dry).repaired - old(dry).repaired,
        final(dry).stale_references - old(dry).stale_references == old(a).docker_caches@.filter(
            |k: DockerCacheRecord| !is_volume(volumes@, k.name@),
        ).len(),
        final(wet).stale_references - old(wet).stale_references == final(dry).stale_references
            - old(dry).stale_references,
        knows(*final(a), c) <==> knows(*old(a), c),
{
    let caches = old(a).docker_caches@;
    let views = cleanup::cache_views(caches);
    let x = cleanup::cache_view(c);
    let n = volumes@.len() as int;
    let p = CacheBooks { caches: views, report: old(dry)@ };
    let q = CacheBooks { caches: views, report: old(wet)@ };
    lemma_stale(p, views, volumes@, old(a).query_only, x);
    lemma_stale(q, views, volumes@, old(b).query_only, x);
    let pc = cleanup::stale_caches(p, views, volumes@, old(a).query_only);
    let qc = cleanup::stale_caches(q, views, volumes@, old(b).query_only);
    lemma_seen(pc, config, views, volumes@, old(a).query_only, now, x, n);
    lemma_seen(qc, config, views, volumes@, old(b).query_only, now, x, n);
    assert(ra@.map_values(|i: usize| i as int).len() == ra@.len());
    assert(rb@.map_values(|i: usize| i as int).len() == rb@.len());
    lemma_views(*old(a), c);
    lemma_views(*final(a), c);
    let f = |v: DockerCacheVolume| !named(views, v.name@);
    let g = |v: DockerCacheVolume| !knows_name(*old(a), v.name@);
    assert forall|v: DockerCacheVolume| #[trigger] f(v) == g(v) by {
        lemma_views(
            *old(a),
            DockerCacheRecord { name: v.name, repo: v.repo, slot: v.slot, last_used: 0 },
        );
    }
    crate::laws::pool::lemma_same_filter(volumes@, f, g);
    lemma_missing_counted(caches, volumes@);
}

proof fn lemma_missing_counted(caches: Seq<DockerCacheRecord>, volumes: Seq<DockerCacheVolume>)
    ensures
        cleanup::cache_views(caches).filter(|c: CacheView| !is_volume(volumes, c.name)).len()
            == caches.filter(|k: DockerCacheRecord| !is_volume(volumes, k.name@)).len(),
    decreases caches.len(),
{
    reveal(Seq::filter);
    if caches.len() > 0 {
        lemma_missing_counted(caches.drop_last(), volumes);
        let v = cleanup::cache_views(caches);
        assert(v.drop_last() =~= cleanup::cache_views(caches.drop_last()));
        assert(v.last() == cleanup::cache_view(caches.last()));
    }
}

/// A cleanup begins with an empty report.
pub proof fn law_reports_begin_empty(r: CleanupReport)
    requires
        call_ensures(CleanupReport::default, (), r),
    ensures
        !r.dry_run,
        r.planned == 0 && r.removed == 0 && r.reclaimed_bytes == 0 && r.repaired == 0,
        r.stale_references == 0 && r.pruned_jobs == 0 && r.pruned_events == 0,
        r.actions@.len() == 0 && r.errors@.len() == 0,
{
    assert(r@.actions.len() == r.actions@.len());
    assert(r@.errors.len() == r.errors@.len());
}

} // verus!

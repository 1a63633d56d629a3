//! What is counted, measured and told of containers, images and cleanups.

use crate::cleanup;
use crate::cleanup::{CleanupReport, LogDir};
use crate::clock;
use crate::config::{Config, RuntimeKind};
use crate::json;
use crate::number;
use crate::runtime;
use crate::runtime::{KeptImage, ManagedContainer, OutputError};
use crate::scheduler::Sample;
use crate::store::{ArtifactRecord, Store};
use crate::text;
use crate::tree;
use crate::tree::Entry;
use vstd::prelude::*;

verus! {

// -- time and space ------------------------------------------------------------------------

/// A time is older than an age exactly if more than that many seconds have passed since;
/// a day has 86400 of them.
pub proof fn law_ages_are_counted_in_seconds(ts: i64, now: i64, age_s: u128, n: u64, r: bool, d: u128)
    requires
        call_ensures(clock::older, (ts, now, age_s), r),
        call_ensures(clock::days, (n,), d),
    ensures
        r <==> now - ts > age_s * 1_000_000,
        d == n * 24 * 60 * 60,
{
}

/// An empty directory holds nothing; one more file adds its bytes, and one more directory
/// all that is below it. What cannot be counted is not measured.
pub proof fn law_directories_hold_what_is_in_and_below_them(
    some: Vec<Entry>,
    below: Vec<Entry>,
    file: Vec<Entry>,
    dir: Vec<Entry>,
    n: u64,
    a: Option<u64>,
    b: Option<u64>,
    x: Option<u64>,
    y: Option<u64>,
)
    requires
        call_ensures(tree::measure, (&some,), a),
        call_ensures(tree::measure, (&below,), b),
        call_ensures(tree::measure, (&file,), x),
        call_ensures(tree::measure, (&dir,), y),
        file@ == some@.push(Entry::File(n)),
        dir@ == some@.push(Entry::Dir(below)),
    ensures
        some@.len() == 0 ==> a == Some(0u64),
        a is Some && a->0 + n <= u64::MAX ==> x is Some && x->0 == a->0 + n,
        a is None || a->0 + n > u64::MAX ==> x is None,
        a is Some && b is Some && a->0 + b->0 <= u64::MAX ==> y is Some && y->0 == a->0 + b->0,
        a is None || b is None || a->0 + b->0 > u64::MAX ==> y is None,
{
    assert(file@.drop_last() =~= some@);
    assert(dir@.drop_last() =~= some@);
}

// -- cleanups ------------------------------------------------------------------------------

/// A report tells what would be done, or what was done, and how many errors there were.
pub proof fn law_reports_tell_what_was_or_would_be_done(
    report: CleanupReport,
    size: String,
    r: String,
    e: Seq<char>,
)
    requires
        call_ensures(CleanupReport::summary, (&report,), r),
        call_ensures(cleanup::human_bytes, (report.reclaimed_bytes,), size),
        report.errors@.len() == 0 ==> e == ""@,
        report.errors@.len() > 0 ==> e == "; "@ + number::dec(report.errors@.len()) + " error(s)"@,
    ensures
        report.dry_run ==> r@ == "would remove "@ + number::dec(report.planned as nat)
            + " artifact(s) and reclaim "@ + size@ + "; would repair "@ + number::dec(
            report.repaired as nat,
        ) + " reference(s) and prune "@ + number::dec(report.pruned_jobs as nat)
            + " job(s) and "@ + number::dec(report.pruned_events as nat) + " event(s)"@ + e,
        !report.dry_run ==> r@ == "removed "@ + number::dec(report.removed as nat)
            + " artifact(s), reclaimed "@ + size@ + "; repaired "@ + number::dec(
            report.repaired as nat,
        ) + " reference(s), pruned "@ + number::dec(report.pruned_jobs as nat) + " job(s) and "@
            + number::dec(report.pruned_events as nat) + " event(s)"@ + e,
{
}

/// A directory of logs is that of the job whose id it is named after, if it is named after
/// one; it is as large and as old as it was found.
pub proof fn law_log_directories_are_named_after_their_jobs(
    path: &str,
    name: &str,
    bytes: u64,
    modified: i64,
    n: u32,
    r: LogDir,
)
    requires
        call_ensures(cleanup::log_dir, (path, name, bytes, modified), r),
    ensures
        r.path@ == path@,
        r.candidate.name@ == path@,
        r.candidate.bytes == bytes,
        r.candidate.timestamp == modified,
        name@ == number::dec(n as nat) ==> r.job_id == Some(n as i64),
        name@.len() > 0 && !('0' <= name@.last() <= '9') ==> r.job_id is None,
{
    number::lemma_dec(n as nat);
    let s = name@;
    if s.len() > 0 && !('0' <= s.last() <= '9') {
        let t = s.drop_first();
        if t.len() > 0 {
            assert(t.last() == s.last());
            assert(t[t.len() - 1] == s.last());
        }
        assert(s[s.len() - 1] == s.last());
    }
}

/// The images of a runtime are looked through exactly if a repo runs on it or a job's
/// workspace was kept by it; each runtime once.
pub proof fn law_runtimes_in_use_are_looked_through(
    config: Config,
    records: Vec<ArtifactRecord>,
    r: Vec<RuntimeKind>,
    kind: RuntimeKind,
)
    requires
        call_ensures(cleanup::image_runtimes, (&config, &records), r),
    ensures
        r@.contains(kind) <==> (exists|i: int|
            0 <= i < config.repos@.len() && (#[trigger] config.repos@[i]).runtime == kind) || (
        exists|i: int|
            0 <= i < records@.len() && (#[trigger] records@[i]).kept_image_runtime is Some && (
            records@[i].kept_image_runtime->0)@ == (if kind == RuntimeKind::Docker {
                "docker"@
            } else {
                "apple-container"@
            })),
        r@.no_duplicates(),
{
    reveal_strlit("docker");
    reveal_strlit("apple-container");
    assert("docker"@[0] == 'd' && "apple-container"@[0] == 'a');
    assert(r@.contains(kind) == cleanup::is_in_use(config, records@, kind));
}

/// Layer caches are looked through exactly if a repo has them or the journal knows some.
pub proof fn law_caches_are_looked_through_where_there_may_be_some(
    config: Config,
    store: Store,
    r: bool,
)
    requires
        call_ensures(cleanup::wants_cache_inventory, (&config, &store), r),
    ensures
        r <==> store.docker_caches@.len() > 0 || (exists|i: int|
            0 <= i < config.repos@.len() && (#[trigger] config.repos@[i]).docker_layer_cache),
{
}

/// A cache that was removed is counted, and forgotten if the journal can be written; one
/// that could not be removed is an error and nothing else. All other caches stay.
pub proof fn law_only_removed_caches_are_forgotten(
    store: &mut Store,
    name: &str,
    outcome: Result<(), String>,
    report: &mut CleanupReport,
    other: Seq<char>,
)
    requires
        call_ensures(cleanup::record_cache_removal, (store, name, outcome, report), ()),
        other != name@,
    ensures
        outcome is Ok ==> final(report).removed == old(report).removed + 1,
        outcome is Err ==> final(report).removed == old(report).removed,
        outcome is Err || old(store).query_only ==> final(report).errors@.len() == old(report).errors@.len() + 1,
        outcome is Ok && !old(store).query_only ==> final(report).errors@.len() == old(report).errors@.len(),
        outcome is Err ==> final(report).errors@.last()@ == "remove Docker cache "@ + name@ + ": "@
            + (outcome->Err_0)@,
        final(report).planned == old(report).planned,
        final(report).reclaimed_bytes == old(report).reclaimed_bytes,
        final(store).jobs == old(store).jobs,
        final(store).events == old(store).events,
        outcome is Err || old(store).query_only ==> final(store).docker_caches@.len() == old(store).docker_caches@.len(),
        outcome is Ok && !old(store).query_only ==> !knows_cache(*final(store), name@),
        outcome is Err || old(store).query_only ==> (knows_cache(*final(store), name@)
            <==> knows_cache(*old(store), name@)),
        knows_cache(*final(store), other) <==> knows_cache(*old(store), other),
{
    let before = cleanup::cache_views(old(store).docker_caches@);
    let after = cleanup::cache_views(final(store).docker_caches@);
    let e = text::texts(final(report).errors@);
    assert(final(report)@.errors == e);
    assert(old(report)@.errors == text::texts(old(report).errors@));
    assert(e.len() == final(report).errors@.len());
    if outcome is Err {
        assert(e.last() == final(report).errors@.last()@);
    }
    lemma_cache_views(*old(store), name@);
    lemma_cache_views(*old(store), other);
    lemma_cache_views(*final(store), name@);
    lemma_cache_views(*final(store), other);
    lemma_forgotten(before, name@, other);
    assert(before.len() == old(store).docker_caches@.len());
    assert(after.len() == final(store).docker_caches@.len());
}

/// The journal knows a layer cache of a name.
pub open spec fn knows_cache(store: Store, name: Seq<char>) -> bool {
    exists|i: int|
        0 <= i < store.docker_caches@.len() && (#[trigger] store.docker_caches@[i]).name@ == name
}

spec fn views_know(views: Seq<cleanup::CacheView>, name: Seq<char>) -> bool {
    exists|i: int| 0 <= i < views.len() && (#[trigger] views[i]).name == name
}

proof fn lemma_cache_views(store: Store, name: Seq<char>)
    ensures
        knows_cache(store, name) <==> views_know(
            cleanup::cache_views(store.docker_caches@),
            name,
        ),
{
    let v = cleanup::cache_views(store.docker_caches@);
    if knows_cache(store, name) {
        let i = choose|i: int|
            0 <= i < store.docker_caches@.len() && (#[trigger] store.docker_caches@[i]).name@ == name;
        assert(v[i].name == name);
    }
    if views_know(v, name) {
        let i = choose|i: int| 0 <= i < v.len() && (#[trigger] v[i]).name == name;
        assert(store.docker_caches@[i].name@ == name);
    }
}

proof fn lemma_forgotten(views: Seq<cleanup::CacheView>, name: Seq<char>, other: Seq<char>)
    requires
        other != name,
    ensures
        !views_know(cleanup::cache_forgotten(views, name), name),
        views_know(cleanup::cache_forgotten(views, name), other) <==> views_know(views, other),
    decreases views.len(),
{
    if views.len() > 0 {
        let rest = views.drop_last();
        let last = views.last();
        lemma_forgotten(rest, name, other);
        let f = cleanup::cache_forgotten(rest, name);
        lemma_pushed(rest, last, other);
        assert(rest.push(last) =~= views);
        lemma_pushed(f, last, other);
        lemma_pushed(f, last, name);
    }
}

proof fn lemma_pushed(views: Seq<cleanup::CacheView>, x: cleanup::CacheView, name: Seq<char>)
    ensures
        views_know(views.push(x), name) <==> views_know(views, name) || x.name == name,
{
    let all = views.push(x);
    if views_know(views, name) {
        let i = choose|i: int| 0 <= i < views.len() && (#[trigger] views[i]).name == name;
        assert(all[i].name == name);
    }
    if x.name == name {
        assert(all[views.len() as int].name == name);
    }
    if views_know(all, name) && x.name != name {
        let i = choose|i: int| 0 <= i < all.len() && (#[trigger] all[i]).name == name;
        assert(i < views.len());
        assert(views[i].name == name);
    }
}

/// A cleanup has room for what can be counted of it.
pub proof fn law_room_is_what_can_be_counted(
    report: CleanupReport,
    known: usize,
    found: usize,
    bytes: u128,
    one: u64,
    r: bool,
    s: bool,
)
    requires
        call_ensures(CleanupReport::room_for, (&report, known, found, bytes), r),
        call_ensures(CleanupReport::room_for_removal, (&report, one), s),
    ensures
        r <==> report.planned + found <= usize::MAX && report.repaired + found <= usize::MAX
            && report.stale_references + known <= usize::MAX && (report.dry_run
            ==> report.reclaimed_bytes + bytes <= u64::MAX),
        s <==> report.removed + 1 <= usize::MAX && report.reclaimed_bytes + one <= u64::MAX,
{
}

// -- containers and images -------------------------------------------------------------------

/// What Docker tells of a container: whose runner it is, by its labels, and whether it runs.
pub proof fn law_containers_are_told_by_their_labels(
    id: &str,
    doc: &str,
    r: Result<ManagedContainer, OutputError>,
)
    requires
        call_ensures(runtime::docker_container, (id, doc), r),
        doc@.len() > 0,
        !text::is_space(doc@[0]),
        !text::is_space(doc@.last()),
    ensures
        r is Err <==> json::json_error(doc@) is Some,
        r is Ok ==> {
            let c = r->Ok_0;
            &&& c.container_id@ == id@
            &&& label_read(c.runner_name, json::json_str(doc@, "/Config/Labels/homerunner.runner"@))
            &&& label_read(c.repo, json::json_str(doc@, "/Config/Labels/homerunner.repo"@))
            &&& c.running <==> json::json_raw(doc@, "/State/Running"@) == Some("true"@)
        },
{
    assert(text::trim(doc@) == doc@);
}

/// A label that is missing is read as an empty one.
pub open spec fn label_read(s: String, label: Option<Seq<char>>) -> bool {
    match label {
        Some(t) => s@ == t,
        None => s@ == ""@,
    }
}

/// Of the containers that are listed those of homerunner are taken, by their labels, in
/// their order; one runs exactly if its status says so.
pub proof fn law_only_managed_containers_are_taken(
    out: &str,
    r: Vec<ManagedContainer>,
    rows: Seq<Seq<char>>,
    i: int,
)
    requires
        call_ensures(runtime::apple_containers, (out,), r),
        0 <= i < r@.len(),
    ensures
        rows == json::json_items(out@, ""@).filter(
            |row: Seq<char>|
                json::json_str(row, "/labels/homerunner.managed"@) == Some("true"@),
        ) ==> {
            &&& r@.len() == rows.len()
            &&& label_read(r@[i].container_id, json::json_str(rows[i], "/id"@))
            &&& label_read(r@[i].runner_name, json::json_str(rows[i], "/labels/homerunner.runner"@))
            &&& label_read(r@[i].repo, json::json_str(rows[i], "/labels/homerunner.repo"@))
            &&& r@[i].running <==> json::json_str(rows[i], "/status"@) == Some("running"@)
        },
{
    let p = |row: Seq<char>| json::json_str(row, "/labels/homerunner.managed"@) == Some("true"@);
    let all = json::json_items(out@, ""@);
    crate::laws::pool::lemma_same_filter(all, p, runtime::is_managed());
    let taken = all.filter(runtime::is_managed());
    assert(runtime::is_listed(r@[i], taken[i]));
}

/// A container that is described in a list, or by itself, has an exit code once it no
/// longer runs: the one that is told, else -1.
pub proof fn law_described_containers_end_with_a_code(out: &str, r: Option<i64>, n: u32)
    requires
        call_ensures(runtime::apple_exit_code, (out,), r),
    ensures
        json::json_items(out@, ""@).len() > 0 ==> {
            &&& r is None <==> json::json_str(out@, "/0/status"@) == Some("running"@)
            &&& r is Some && json::json_raw(out@, "/0/exitCode"@) == Some(number::dec(n as nat))
                ==> r == Some(n as i64)
            &&& r is Some && json::json_raw(out@, "/0/exitCode"@) is None ==> r == Some(-1i64)
        },
        json::json_items(out@, ""@).len() == 0 ==> {
            &&& r is None <==> json::json_str(out@, "/status"@) == Some("running"@)
            &&& r is Some && json::json_raw(out@, "/exitCode"@) == Some(number::dec(n as nat))
                ==> r == Some(n as i64)
            &&& r is Some && json::json_raw(out@, "/exitCode"@) is None ==> r == Some(-1i64)
        },
{
    number::lemma_dec(n as nat);
    reveal_strlit("/0/");
    reveal_strlit("/");
    reveal_strlit("status");
    reveal_strlit("exitCode");
    reveal_strlit("/0/status");
    reveal_strlit("/0/exitCode");
    reveal_strlit("/status");
    reveal_strlit("/exitCode");
    assert("/0/"@ + "status"@ =~= "/0/status"@);
    assert("/0/"@ + "exitCode"@ =~= "/0/exitCode"@);
    assert("/"@ + "status"@ =~= "/status"@);
    assert("/"@ + "exitCode"@ =~= "/exitCode"@);
}

/// A kept image is as large as the first image that is described, if its size is told.
pub proof fn law_kept_images_are_as_large_as_told(
    tag: &str,
    doc: &str,
    r: Result<KeptImage, OutputError>,
    n: u32,
)
    requires
        call_ensures(runtime::kept_image, (tag, doc), r),
    ensures
        r is Err <==> json::json_error(doc@) is Some,
        r is Ok ==> (r->Ok_0).tag@ == tag@,
        r is Ok && json::json_items(doc@, ""@).len() > 0 && json::json_raw(
            json::json_items(doc@, ""@)[0],
            "/Size"@,
        ) == Some(number::dec(n as nat)) ==> (r->Ok_0).size_bytes == n,
        r is Ok && json::json_items(doc@, ""@).len() == 0 ==> (r->Ok_0).size_bytes == 0,
{
    number::lemma_dec(n as nat);
}

/// Every container that a line tells of is sampled once, by its name; lines that are no
/// documents tell of none.
pub proof fn law_containers_are_sampled_once(out: &str, r: Vec<Sample>, i: int, j: int)
    requires
        call_ensures(runtime::docker_stats, (out,), r),
        0 <= i < j < r@.len(),
    ensures
        r@[i].name@ != r@[j].name@,
{
    let rows = text::lines(out@).filter(runtime::is_document());
    let all = choose|all: Seq<Sample>| #[trigger] runtime::are_samples(r@, all, rows);
    runtime::lemma_names_count_once(all);
}

/// What is told of a container on the last line that names it is what is sampled of it.
pub proof fn law_the_last_line_on_a_container_counts(
    out: &str,
    r: Vec<Sample>,
    rows: Seq<Seq<char>>,
    k: int,
    name: Seq<char>,
)
    requires
        call_ensures(runtime::docker_stats, (out,), r),
        0 <= k < rows.len(),
    ensures
        rows == text::lines(out@).filter(
            |line: Seq<char>| json::json_error(line) is None,
        ) && json::json_str(rows[k], "/Name"@) == Some(name) && (forall|j: int|
            k < j < rows.len() ==> label_text(json::json_str(#[trigger] rows[j], "/Name"@)) != name)
            ==> exists|i: int|
            {
                &&& 0 <= i < r@.len()
                &&& (#[trigger] r@[i]).name@ == name
                &&& json::json_str(rows[k], "/CPUPerc"@) is None ==> r@[i].cpu@ == "0"@
                &&& json::json_str(rows[k], "/MemUsage"@) is None ==> r@[i].mem_bytes == 0
                &&& json::json_str(rows[k], "/MemUsage"@) is Some ==> r@[i].mem_bytes
                    == runtime::mem_bytes(
                    runtime::before_slash(json::json_str(rows[k], "/MemUsage"@)->0),
                )
            },
{
    let p = |line: Seq<char>| json::json_error(line) is None;
    crate::laws::pool::lemma_same_filter(text::lines(out@), p, runtime::is_document());
    let told = text::lines(out@).filter(runtime::is_document());
    let all = choose|all: Seq<Sample>| #[trigger] runtime::are_samples(r@, all, told);
    if rows == text::lines(out@).filter(p) && json::json_str(rows[k], "/Name"@) == Some(name) && (forall|j: int|
        k < j < rows.len() ==> label_text(json::json_str(#[trigger] rows[j], "/Name"@)) != name) {
        assert forall|j: int| k < j < all.len() implies (#[trigger] all[j]).name@ != name by {
            assert(label_text(json::json_str(rows[j], "/Name"@)) != name);
            assert(runtime::is_sample(
                all[j],
                json::json_str(rows[j], "/Name"@),
                json::json_str(rows[j], "/CPUPerc"@),
                json::json_str(rows[j], "/MemUsage"@),
            ));
        }
        assert(runtime::is_sample(
            all[k],
            json::json_str(rows[k], "/Name"@),
            json::json_str(rows[k], "/CPUPerc"@),
            json::json_str(rows[k], "/MemUsage"@),
        ));
        runtime::law_the_last_sample_of_a_name_counts(all, k);
        let i = choose|i: int| 0 <= i < r@.len() && r@[i] == all[k];
        assert(r@[i].name@ == name);
    }
}

/// A label, or nothing.
pub open spec fn label_text(label: Option<Seq<char>>) -> Seq<char> {
    match label {
        Some(t) => t,
        None => ""@,
    }
}

} // verus!

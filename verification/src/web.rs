//! What the dashboard shows: how the supervisor stands, what it keeps on disk,
//! and the logs of its jobs and runners.

use crate::agent;
use crate::agent::Archive;
use crate::config::Config;
use crate::number;
use crate::order;
use crate::paths;
use crate::runtime;
use crate::scheduler;
use crate::scheduler::{App, LogCursor, Snapshot};
use crate::store;
use crate::store::{Event, Job, Store};
use crate::text;
use crate::tree;
use crate::tree::Entry;
use vstd::prelude::*;

verus! {

// -- disk -----------------------------------------------------------------------------------

/// How many directories stand directly in a directory, and the bytes of all
/// the files in and below it; a directory that is not there has neither.
pub open spec fn stats(found: Option<Seq<Entry>>) -> (nat, nat) {
    match found {
        Some(entries) => (entries.filter(tree::is_dir()).len(), tree::bytes(entries)),
        None => (0, 0),
    }
}

/// The entries of a directory, if it is there.
pub open spec fn entries_of(found: Option<Vec<Entry>>) -> Option<Seq<Entry>> {
    match found {
        Some(v) => Some(v@),
        None => None,
    }
}

/// How many directories stand directly in a directory, and the bytes of all
/// the files in and below it.
pub fn dir_stats(found: &Option<Vec<Entry>>) -> (r: (u64, u64))
    requires
        stats(entries_of(*found)).1 <= u64::MAX,
    ensures
        r.0 == stats(entries_of(*found)).0,
        r.1 == stats(entries_of(*found)).1,
{
    match found {
        None => (0, 0),
        Some(entries) => {
            let mut count: u64 = 0;
            let n = entries.len();
            for i in 0..n
                invariant
                    n == entries@.len(),
                    count <= i,
                    count == entries@.take(i as int).filter(tree::is_dir()).len(),
            {
                proof {
                    order::lemma_filter_step(entries@, tree::is_dir(), i as int);
                }
                if let Entry::Dir(_) = &entries[i] {
                    count = count + 1;
                }
            }
            assert(entries@.take(entries@.len() as int) =~= entries@);
            match tree::measure(entries) {
                Some(bytes) => (count, bytes),
                None => (count, 0),
            }
        },
    }
}

/// The same, if the bytes can be counted.
pub fn checked_dir_stats(found: &Option<Vec<Entry>>) -> (r: Option<(u64, u64)>)
    ensures
        match r {
            Some(s) => s.0 == stats(entries_of(*found)).0 && s.1 == stats(entries_of(*found)).1,
            None => stats(entries_of(*found)).1 > u64::MAX,
        },
{
    let fits = match found {
        Some(entries) => tree::measure(entries).is_some(),
        None => true,
    };
    if fits {
        Some(dir_stats(found))
    } else {
        None
    }
}

/// How long something is kept: by number, and by age and size where these are
/// limited.
pub open spec fn retention(newest: Seq<char>, age: Option<u64>, bytes: Option<u64>) -> Seq<char> {
    newest + (match age {
        Some(days) => "; max "@ + number::dec(days as nat) + " days"@,
        None => ""@,
    }) + (match bytes {
        Some(n) => "; max "@ + number::dec(n as nat / 1048576) + " MB"@,
        None => ""@,
    })
}

fn retention_text(
    keep: u32,
    what: &str,
    age: Option<u64>,
    bytes: Option<u64>,
) -> (r: String)
    ensures
        r@ == retention("newest "@ + number::dec(keep as nat) + what@, age, bytes),
{
    let mut r = "newest ".to_string();
    number::push_number(&mut r, keep as u64);
    r.append(what);
    proof {
        reveal_strlit("");
    }
    let mut older = String::new();
    if let Some(days) = age {
        let n = number::number_text(days);
        older = text::chain("; max ", n.as_str(), " days");
    } else {
        assert(older@ =~= ""@);
    }
    r.append(older.as_str());
    let mut larger = String::new();
    if let Some(n) = bytes {
        let n = number::number_text(n / 1048576);
        larger = text::chain("; max ", n.as_str(), " MB");
    } else {
        assert(larger@ =~= ""@);
    }
    r.append(larger.as_str());
    r
}

/// How long the logs of jobs are kept.
pub open spec fn log_rule(config: Config) -> Seq<char> {
    retention(
        "newest "@ + number::dec(config.keep_job_logs as nat) + " jobs"@,
        config.job_logs_max_age_days,
        config.job_logs_max_bytes,
    )
}

/// How long the logs of jobs are kept.
pub fn log_retention(config: &Config) -> (r: String)
    ensures
        r@ == log_rule(*config),
{
    retention_text(
        config.keep_job_logs,
        " jobs",
        config.job_logs_max_age_days,
        config.job_logs_max_bytes,
    )
}

/// How long the workspaces of failed jobs are kept.
pub open spec fn image_rule(config: Config) -> Seq<char> {
    retention(
        "newest "@ + number::dec(config.keep_failed_workspaces as nat) + " failed jobs"@,
        config.failed_workspaces_max_age_days,
        config.failed_workspaces_max_bytes,
    )
}

/// How long the workspaces of failed jobs are kept.
pub fn image_retention(config: &Config) -> (r: String)
    ensures
        r@ == image_rule(*config),
{
    retention_text(
        config.keep_failed_workspaces,
        " failed jobs",
        config.failed_workspaces_max_age_days,
        config.failed_workspaces_max_bytes,
    )
}

/// How long the journal's rows are kept.
pub open spec fn journal_rule(config: Config) -> Seq<char> {
    "events: "@ + number::dec(config.event_history_days as nat) + " days; artifact-free jobs: "@
        + number::dec(config.job_history_days as nat) + " days"@
}

/// How long the journal's rows are kept.
pub fn journal_retention(config: &Config) -> (r: String)
    ensures
        r@ == journal_rule(*config),
{
    let events = number::number_text(config.event_history_days);
    let jobs = number::number_text(config.job_history_days);
    text::chain5(
        "events: ",
        events.as_str(),
        " days; artifact-free jobs: ",
        jobs.as_str(),
        " days",
    )
}

/// The journal's file, and those that stand beside it while it is open.
pub fn journal_files(db_path: &str) -> (r: Vec<String>)
    ensures
        text::texts(r@) == seq![db_path@ + ""@, db_path@ + "-wal"@, db_path@ + "-shm"@],
{
    let suffixes: Vec<&'static str> = vec!["", "-wal", "-shm"];
    let mut r: Vec<String> = Vec::new();
    for i in 0..3usize
        invariant
            suffixes@ == seq!["", "-wal", "-shm"],
            r@.len() == i,
            forall|k: int| 0 <= k < i ==> (#[trigger] r@[k])@ == db_path@ + suffixes@[k]@,
    {
        let mut name = db_path.to_string();
        name.append(suffixes[i]);
        r.push(name);
    }
    assert(text::texts(r@) =~= seq![db_path@ + ""@, db_path@ + "-wal"@, db_path@ + "-shm"@]);
    r
}

/// The bytes of the files that are there, of the first `n`.
pub open spec fn total(sizes: Seq<Option<u64>>, n: int) -> nat
    decreases n,
{
    if n <= 0 {
        0
    } else {
        total(sizes, n - 1) + match sizes[n - 1] {
            Some(b) => b as nat,
            None => 0,
        }
    }
}

/// The bytes of the files that are there.
pub fn total_bytes(sizes: &Vec<Option<u64>>) -> (r: u128)
    ensures
        r == total(sizes@, sizes@.len() as int),
{
    let mut sum: u128 = 0;
    let n = sizes.len();
    for i in 0..n
        invariant
            n == sizes@.len(),
            sum == total(sizes@, i as int),
            sum <= i * u64::MAX,
    {
        assert((i + 1) * u64::MAX == i * u64::MAX + u64::MAX) by (nonlinear_arith);
        assert((i + 1) * u64::MAX <= u128::MAX) by (nonlinear_arith)
            requires
                i + 1 <= u64::MAX,
        ;
        if let Some(b) = sizes[i] {
            sum = sum + b as u128;
        }
    }
    sum
}

/// Something that is kept, and how large it is said to be.
#[derive(Debug)]
pub struct Kept {
    pub name: String,
    pub size: String,
}

/// The name and the size of something that is kept.
pub open spec fn kept_view(k: Kept) -> (Seq<char>, Seq<char>) {
    (k.name@, k.size@)
}

/// The name and the size of what may be kept.
pub open spec fn maybe_kept(k: Option<Kept>) -> Option<(Seq<char>, Seq<char>)> {
    match k {
        Some(k) => Some(kept_view(k)),
        None => None,
    }
}

/// The image that a line of `docker image ls` lists, if it is one of ours: the
/// tag stands before the first space, the size after it.
pub open spec fn image_of(line: Seq<char>) -> Option<(Seq<char>, Seq<char>)> {
    let k = text::index_of(line, ' ');
    if "homerunner-runner"@.is_prefix_of(line) || "homerunner-kept"@.is_prefix_of(line) {
        Some(
            (
                line.take(k),
                if k < line.len() {
                    line.skip(k + 1)
                } else {
                    ""@
                },
            ),
        )
    } else {
        None
    }
}

/// The image that a line of `docker image ls` lists, if it is one of ours.
pub fn image_line(line: &str) -> (r: Option<Kept>)
    ensures
        maybe_kept(r) == image_of(line@),
{
    let s = text::chars(line);
    if !text::starts(&s, "homerunner-runner") && !text::starts(&s, "homerunner-kept") {
        return None;
    }
    let k = text::index_from(&s, ' ', 0);
    assert(s@.skip(0) =~= s@);
    let name = vstd::slice::slice_subrange(&s, 0, k);
    assert(name@ =~= line@.take(k as int));
    let name = text::string(name);
    if k < s.len() {
        let size = vstd::slice::slice_subrange(&s, k + 1, s.len());
        assert(size@ =~= line@.skip(k + 1));
        return Some(Kept { name, size: text::string(size) });
    }
    Some(Kept { name, size: "".to_string() })
}

/// A line begins with the name of a shared cache.
pub open spec fn names_cache(line: Seq<char>) -> bool {
    exists|i: int|
        0 <= i < runtime::cache_volumes().len() && (#[trigger] runtime::cache_volumes()[i]).0
            .is_prefix_of(line)
}

/// The cache that a line of `docker system df -v` lists, if it lists one: its
/// first word is the name, its last the size.
pub open spec fn volume_of(line: Seq<char>) -> Option<(Seq<char>, Seq<char>)> {
    let words = text::words(line);
    if names_cache(line) && words.len() >= 2 {
        Some((words[0], words.last()))
    } else {
        None
    }
}

/// The cache that a line of `docker system df -v` lists, if it lists one.
pub fn volume_line(line: &str) -> (r: Option<Kept>)
    ensures
        maybe_kept(r) == volume_of(line@),
{
    let s = text::chars(line);
    let first = text::starts(&s, "homerunner-home-cache");
    let second = text::starts(&s, "homerunner-pnpm-store");
    proof {
        let v = runtime::cache_volumes();
        assert(v[0].0 == "homerunner-home-cache"@);
        assert(v[1].0 == "homerunner-pnpm-store"@);
        assert(names_cache(line@) == (first || second));
    }
    if !first && !second {
        return None;
    }
    let words = text::to_words(&s);
    let n = words.len();
    assert(text::pieces(words@).len() == n);
    if n < 2 {
        return None;
    }
    assert(text::pieces(words@)[0] == words@[0]@);
    assert(text::pieces(words@).last() == words@[n - 1]@);
    Some(Kept { name: text::string(words[0].as_slice()), size: text::string(words[n - 1].as_slice()) })
}

/// What the first `n` lines list of our images.
pub open spec fn listed_images(lines: Seq<String>, n: int) -> Seq<(Seq<char>, Seq<char>)>
    decreases n,
{
    if n <= 0 {
        Seq::empty()
    } else {
        match image_of(lines[n - 1]@) {
            Some(k) => listed_images(lines, n - 1).push(k),
            None => listed_images(lines, n - 1),
        }
    }
}

/// What the first `n` lines list of the shared caches.
pub open spec fn listed_volumes(lines: Seq<String>, n: int) -> Seq<(Seq<char>, Seq<char>)>
    decreases n,
{
    if n <= 0 {
        Seq::empty()
    } else {
        match volume_of(lines[n - 1]@) {
            Some(k) => listed_volumes(lines, n - 1).push(k),
            None => listed_volumes(lines, n - 1),
        }
    }
}

pub open spec fn kept_views(kept: Seq<Kept>) -> Seq<(Seq<char>, Seq<char>)> {
    kept.map_values(|k: Kept| kept_view(k))
}

/// What is kept on disk, where, and for how long.
#[derive(Debug)]
pub struct Disk {
    pub jobs_path: String,
    pub jobs: u64,
    pub jobs_bytes: u64,
    pub jobs_retention: String,
    pub journal_path: String,
    pub journal_bytes: u128,
    pub journal_retention: String,
    pub images: Vec<Kept>,
    pub image_retention: String,
    pub volumes: Vec<Kept>,
    pub volume_retention: String,
}

/// `d` is what is kept on disk: `found` stands in the directory of the jobs'
/// logs, the files of the journal take `sizes`, and the container runtime lists
/// its images and its volumes.
pub open spec fn is_disk(
    d: Disk,
    config: Config,
    found: Option<Seq<Entry>>,
    sizes: Seq<Option<u64>>,
    images: Seq<String>,
    volumes: Seq<String>,
) -> bool {
    &&& d.jobs_path@ == paths::joined(config.data_dir@, "jobs"@)
    &&& (d.jobs as nat, d.jobs_bytes as nat) == if stats(found).1 <= u64::MAX {
        stats(found)
    } else {
        (0, 0)
    }
    &&& d.jobs_retention@ == log_rule(config)
    &&& d.journal_path@ == paths::joined(config.data_dir@, "homerunner.db"@)
    &&& d.journal_bytes == total(sizes, sizes.len() as int)
    &&& d.journal_retention@ == journal_rule(config)
    &&& kept_views(d.images@) == listed_images(images, images.len() as int)
    &&& d.image_retention@ == image_rule(config)
    &&& kept_views(d.volumes@) == listed_volumes(volumes, volumes.len() as int)
    &&& d.volume_retention@ == "dependency caches; grow with churn, `docker volume rm` resets"@
}

/// What is kept on disk, where, and for how long.
pub fn disk(
    config: &Config,
    found: &Option<Vec<Entry>>,
    sizes: &Vec<Option<u64>>,
    image_lines: &Vec<String>,
    volume_lines: &Vec<String>,
) -> (r: Disk)
    ensures
        is_disk(r, *config, entries_of(*found), sizes@, image_lines@, volume_lines@),
{
    let (jobs, jobs_bytes) = match checked_dir_stats(found) {
        Some(s) => s,
        None => (0, 0),
    };
    let mut images: Vec<Kept> = Vec::new();
    assert(kept_views(images@) =~= listed_images(image_lines@, 0));
    for i in 0..image_lines.len()
        invariant
            kept_views(images@) == listed_images(image_lines@, i as int),
    {
        if let Some(kept) = image_line(image_lines[i].as_str()) {
            let ghost before = images@;
            images.push(kept);
            assert(kept_views(images@) =~= kept_views(before).push(kept_view(kept)));
        }
    }
    let mut volumes: Vec<Kept> = Vec::new();
    assert(kept_views(volumes@) =~= listed_volumes(volume_lines@, 0));
    for i in 0..volume_lines.len()
        invariant
            kept_views(volumes@) == listed_volumes(volume_lines@, i as int),
    {
        if let Some(kept) = volume_line(volume_lines[i].as_str()) {
            let ghost before = volumes@;
            volumes.push(kept);
            assert(kept_views(volumes@) =~= kept_views(before).push(kept_view(kept)));
        }
    }
    Disk {
        jobs_path: paths::join(config.data_dir.as_str(), "jobs"),
        jobs,
        jobs_bytes,
        jobs_retention: log_retention(config),
        journal_path: config.db_path(),
        journal_bytes: total_bytes(sizes),
        journal_retention: journal_retention(config),
        images,
        image_retention: image_retention(config),
        volumes,
        volume_retention: "dependency caches; grow with churn, `docker volume rm` resets".to_string(),
    }
}

// -- jobs -----------------------------------------------------------------------------------

/// What is said of a job that is not recorded.
pub open spec fn no_job(id: i64) -> Seq<char> {
    "no job "@ + number::dec_int(id as int) + " recorded"@
}

fn no_job_text(id: i64) -> (r: String)
    ensures
        r@ == no_job(id),
{
    let n = number::integer_text(id);
    text::chain("no job ", n.as_str(), " recorded")
}

/// A job's record, or what is said where there is none.
pub fn job(store: &Store, id: i64) -> (r: Result<Job, String>)
    requires
        store.well_formed(),
    ensures
        match r {
            Ok(j) => j.gh_job_id == id && store.jobs@.contains(j),
            Err(e) => !store::knows(store.jobs@, id) && e@ == no_job(id),
        },
{
    match store.job(id) {
        Some(j) => Ok(j),
        None => Err(no_job_text(id)),
    }
}

/// `r` is a job's captured log, or what is said where there is none.
pub open spec fn is_log_page(
    r: Result<String, String>,
    store: Store,
    archive: Archive,
    id: i64,
) -> bool {
    if store::knows(store.jobs@, id) {
        exists|j: Job, log: Result<String, agent::AgentError>|
            #![trigger store.jobs@.contains(j), agent::log_read(log, j, archive)]
            {
                &&& store.jobs@.contains(j)
                &&& j.gh_job_id == id
                &&& agent::log_read(log, j, archive)
                &&& match log {
                    Ok(s) => r matches Ok(t) && t@ == s@,
                    Err(e) => r matches Err(t) && t@ == e.spec_message(),
                }
            }
    } else {
        r matches Err(t) && t@ == no_job(id)
    }
}

/// A job's captured log, or what is said where there is none.
pub fn job_logs(store: &Store, archive: &Archive, id: i64) -> (r: Result<String, String>)
    requires
        store.well_formed(),
    ensures
        is_log_page(r, *store, *archive, id),
{
    match store.job(id) {
        None => Err(no_job_text(id)),
        Some(j) => {
            let log = agent::read_worker_logs(&j, archive);
            assert(store.jobs@.contains(j) && agent::log_read(log, j, *archive));
            let r = match &log {
                Ok(s) => Ok(s.clone()),
                Err(e) => Err(e.message()),
            };
            r
        },
    }
}

// -- the live view --------------------------------------------------------------------------

/// How the supervisor stands, and what happened last.
#[derive(Debug)]
pub struct StateView {
    pub snapshot: Snapshot,
    pub jobs: Vec<Job>,
    pub events: Vec<Event>,
}

/// How the supervisor stands, with its fifty latest jobs and events.
pub fn state(app: &App) -> (r: StateView)
    ensures
        scheduler::is_snapshot(r.snapshot, *app),
        store::newest_first(r.jobs@, app.store.jobs@, 50),
        store::newest_events(r.events@, app.store.events@, 50),
{
    StateView {
        snapshot: app.snapshot(),
        jobs: app.store.recent_jobs(50),
        events: app.store.recent_events(50),
    }
}

/// The number of the last line that a reader has seen, as its request tells.
pub open spec fn last_seen(header: Option<Seq<char>>) -> nat {
    match header {
        Some(s) => match number::unsigned(s, u64::MAX as nat) {
            Some(n) => n,
            None => 0,
        },
        None => 0,
    }
}

/// The number of the last line that a reader has seen, as its request tells.
pub fn last_event_id(header: Option<&str>) -> (r: u64)
    ensures
        r == last_seen(text::opt_str(header)),
{
    match header {
        Some(s) => match number::parse_u64(&text::chars(s)) {
            Some(n) => n,
            None => 0,
        },
        None => 0,
    }
}

/// The lines of a runner that a reader has not seen, and where to go on from
/// there; or what is said where there is no such runner.
pub fn runner_logs(app: &App, name: &str, header: Option<&str>) -> (r: Result<
    (Vec<(u64, String)>, LogCursor),
    String,
>)
    requires
        app.well_formed(),
    ensures
        match r {
            Ok(p) => {
                let k = scheduler::runner_index(app.runners@, name@);
                &&& k < app.runners@.len()
                &&& p.0@ == app.runners@[k].info.log@.filter(
                    scheduler::is_after(last_seen(text::opt_str(header)) as u64),
                )
                &&& p.1.seen == app.runners@[k].info.last_line
            },
            Err(e) => !scheduler::has_runner(app.runners@, name@) && e@ == "no live runner "@
                + name@,
        },
{
    let k = app.find(name);
    if k >= app.runners.len() {
        let mut e = "no live runner ".to_string();
        e.append(name);
        return Err(e);
    }
    Ok(app.runners[k].info.subscribe_logs(last_event_id(header)))
}

} // verus!

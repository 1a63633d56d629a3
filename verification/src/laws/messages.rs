//! How errors are told.

use crate::agent;
use crate::agent::{AgentError, Archive, Digest};
use crate::config;
use crate::config::{Config, ConfigError, RawConfig};
use crate::github::AnswerError;
use crate::json;
use crate::laws::console;
use crate::log_search::SearchError;
use crate::mcp;
use crate::mcp::{StateAnswer, ToolAnswer};
use crate::number;
use crate::pattern;
use crate::runtime::OutputError;
use crate::setup;
use crate::setup::SetupError;
use crate::store;
use crate::store::{Job, Store, StoreError};
use crate::text;
use crate::web;
use crate::web::{Disk, Kept};
use vstd::prelude::*;

verus! {

// -- words ----------------------------------------------------------------------------------

/// What is said where a job is not found or has no logs.
pub proof fn law_missing_jobs_and_logs_in_words(e: AgentError, r: String)
    requires
        call_ensures(AgentError::message, (&e,), r),
    ensures
        e is NoFailedJobs ==> r@ == "no failed jobs recorded"@,
        e is NoJobs ==> r@ == "no jobs recorded"@,
        e is BadJobSpec ==> r@ == "job must be a numeric id, 'latest', or 'latest-failed'"@,
        e is NoSuchJob ==> r@ == "no job "@ + number::dec_int(e->id as int) + " recorded"@,
        e is NoCapture ==> r@ == "no captured logs for this job (it may predate log capture)"@,
        e is LogDirMissing ==> r@ == "log dir missing: "@ + (e->LogDirMissing_diag)@,
        e is NoWorkerLogs ==> r@ == "no Worker logs captured in "@ + (e->NoWorkerLogs_diag)@,
{
}

/// What is said of a config file that is refused.
pub proof fn law_refused_config_files_in_words(e: ConfigError, r: String)
    requires
        call_ensures(ConfigError::message, (&e,), r),
    ensures
        e is RepoNeedsOwner ==> r@ == "[[repos]] entry needs repo = \"owner/name\", got: "@ + (
        e->RepoNeedsOwner_repo)@,
        e is NoRepos ==> r@ == "no [[repos]] configured"@,
        e is MaxBelowReserved ==> r@ == "repo "@ + (e->MaxBelowReserved_repo)@ + ": max ("@
            + number::dec(e->max as nat) + ") must be >= reserved ("@ + number::dec(
            e->reserved as nat,
        ) + ")"@,
        e is MaxIsZero ==> r@ == "repo "@ + (e->MaxIsZero_repo)@ + ": max must be at least 1"@,
        e is BadLogPattern ==> r@ == "monitor "@ + (e->monitor)@ + ": invalid log_pattern "@ + (
        e->pattern)@,
{
}

/// What is said of a query, of a write and of an answer that are refused, and of output that
/// is no document.
pub proof fn law_other_refusals_in_words(
    s: SearchError,
    w: StoreError,
    a: AnswerError,
    o: OutputError,
    i: SetupError,
    rs: &'static str,
    rw: &'static str,
    ra: &'static str,
    ro: String,
    ri: String,
)
    requires
        call_ensures(SearchError::message, (s,), rs),
        call_ensures(StoreError::message, (w,), rw),
        call_ensures(AnswerError::message, (a,), ra),
        call_ensures(OutputError::message, (&o,), ro),
        call_ensures(SetupError::message, (&i,), ri),
    ensures
        s is UnterminatedQuote ==> rs@ == "unterminated quote in log query"@,
        s is SinceShape ==> rs@ == "since must look like 24h, 7d, 4w, or 'all'"@,
        s is SinceAmount ==> rs@ == "since must start with a positive integer"@,
        s is SinceZero ==> rs@ == "since must be greater than zero"@,
        s is SinceUnit ==> rs@ == "since unit must be m, h, d, or w"@,
        rw@ == "attempt to write a readonly database"@,
        a is NoRunnerId ==> ra@ == "no runner id"@,
        a is NoJitConfig ==> ra@ == "no jit config"@,
        ro@ == (o->NotJson_0)@,
        i is NoRepos ==> ri@ == "no config at "@ + (i->path)@
            + " — pass at least one --repo owner/name to create it"@,
        i is BadRepo ==> ri@ == "--repo must be owner/name, got: "@ + (i->repo)@,
{
}

// -- what is not there ----------------------------------------------------------------------

/// Without jobs, without failed ones, and of an id that the journal does not know, nothing is
/// found, and the error says which it was.
pub proof fn law_what_is_not_there_is_not_found(
    store: Store,
    spec: Option<&str>,
    default_failed: bool,
    r: Result<Job, AgentError>,
    failed: bool,
)
    requires
        call_ensures(agent::resolve_job, (&store, spec, default_failed), r),
        spec is None ==> failed == default_failed,
        spec is Some ==> (failed && spec->0@ == "latest-failed"@) || (!failed && spec->0@
            == "latest"@),
        !failed ==> store.jobs@.len() == 0,
        forall|k: int|
            0 <= k < store.jobs@.len() ==> !((#[trigger] store.jobs@[k]).conclusion is Some && (
            store.jobs@[k].conclusion->0)@ == "failure"@),
    ensures
        failed ==> r == Err::<Job, AgentError>(AgentError::NoFailedJobs),
        !failed ==> r == Err::<Job, AgentError>(AgentError::NoJobs),
{
    reveal_strlit("latest");
    reveal_strlit("latest-failed");
    assert("latest"@.len() != "latest-failed"@.len());
    let p = if failed {
        store::failed_job()
    } else {
        store::any_job()
    };
    assert forall|k: int| 0 <= k < store.jobs@.len() implies !p(#[trigger] store.jobs@[k]) by {}
    crate::laws::pool::lemma_no_filter(store.jobs@, p);
    if r is Ok {
        let jobs = store.jobs@.filter(p);
        assert(store.jobs.len() == store.jobs@.len());
        crate::laws::journal::lemma_newest(seq![r->Ok_0], jobs, 1);
        assert(seq![r->Ok_0].len() <= jobs.len());
    }
}

/// A monitor whose pattern does not compile makes a config file refused that is sound
/// otherwise: the first of them is named.
pub proof fn law_bad_patterns_are_named(
    raw: RawConfig,
    macos: bool,
    home: Option<String>,
    name: String,
    p: String,
)
    requires
        call_ensures(
            config::resolve,
            (&raw, macos, &home),
            Err::<Config, ConfigError>(ConfigError::BadLogPattern { monitor: name, pattern: p }),
        ),
    ensures
        !pattern::regex_compiles(p@),
        exists|i: int|
            0 <= i < raw.monitors@.len() && (#[trigger] raw.monitors@[i]).name@ == name@
                && raw.monitors@[i].log_pattern is Some && (raw.monitors@[i].log_pattern->0)@ == p@
                && forall|j: int|
                0 <= j < i && (#[trigger] raw.monitors@[j]).log_pattern is Some
                    ==> pattern::regex_compiles((raw.monitors@[j].log_pattern->0)@),
{
    let i = choose|i: int|
        {
            &&& 0 <= i < raw.monitors@.len()
            &&& !config::pattern_compiles(#[trigger] raw.monitors@[i])
            &&& forall|j: int| 0 <= j < i ==> config::pattern_compiles(#[trigger] raw.monitors@[j])
            &&& name@ == raw.monitors@[i].name@
            &&& text::opt_text(raw.monitors@[i].log_pattern) == Some(p@)
        };
    assert(raw.monitors@[i].log_pattern is Some);
    assert forall|j: int|
        0 <= j < i && (#[trigger] raw.monitors@[j]).log_pattern is Some implies pattern::regex_compiles(
        (raw.monitors@[j].log_pattern->0)@,
    ) by {
        assert(config::pattern_compiles(raw.monitors@[j]));
    }
}

// -- digests ----------------------------------------------------------------------------------

/// How to look into a kept workspace is told of jobs that have one.
pub proof fn law_kept_workspaces_are_pointed_out(
    store: Store,
    archive: Archive,
    spec: Option<&str>,
    d: Digest,
    key: Seq<char>,
)
    requires
        call_ensures(agent::why, (&store, &archive, spec), Ok(d)),
        key == number::dec_int(d.job.gh_job_id as int),
    ensures
        d.post_mortem is Some <==> d.job.kept_image is Some,
        d.post_mortem is Some ==> (d.post_mortem->0)@ == "workspace kept — `homerunner exec "@ + key
            + "` opens a shell in it; `homerunner exec "@ + key
            + " -- <cmd>` runs one command without a TTY"@,
{
}

/// A tool that is asked why a job failed answers with its digest in words.
pub proof fn law_digests_are_answered(
    store: Store,
    archive: Archive,
    name: &str,
    spec: &str,
    job: Job,
    d: Digest,
    words: String,
    w: bool,
    r: ToolAnswer,
)
    requires
        store.well_formed(),
        store.jobs@.contains(job),
        job.gh_job_id >= 0,
        spec@ == number::dec(job.gh_job_id as nat),
        name@ == "why_failed"@,
        call_ensures(
            mcp::call_tool,
            (&Ok::<Store, String>(store), &archive, name, Some(spec), None),
            r,
        ),
        call_ensures(agent::why, (&store, &archive, Some(spec)), Ok(d)),
        call_ensures(agent::is_writable, (&d,), w),
        call_ensures(agent::why_text, (&d,), words),
    ensures
        w ==> r is Text && (r->Text_0)@ == words@,
        !w ==> r is Error && (r->Error_0)@ == "error: "@ + ("the commit of job "@ + number::dec_int(
            job.gh_job_id as int,
        ) + " cannot be abbreviated"@),
{
    console::lemma_tool_names();
    let id = job.gh_job_id;
    let t = number::dec(id as nat);
    number::lemma_dec(id as nat);
    reveal_strlit("latest");
    reveal_strlit("latest-failed");
    assert('0' <= t[0] <= '9');
    assert("latest"@[0] == 'l' && "latest-failed"@[0] == 'l');
    assert(agent::wanted(Some(spec@), true) == agent::Wanted::Id(id));
    assert(mcp::digest_answered(r, store, archive, Some(spec@)));
    let found = choose|found: Result<Digest, AgentError>|
        #![trigger agent::explained(found, store.jobs@, archive, Some(spec@))]
        {
            &&& agent::explained(found, store.jobs@, archive, Some(spec@))
            &&& match found {
                Ok(d) => if agent::writable(d) {
                    r matches ToolAnswer::Text(t) && t@ == agent::digest_text(d)
                } else {
                    r matches ToolAnswer::Error(t) && t@ == "error: "@ + mcp::unwritable(
                        d.job.gh_job_id,
                    )
                },
                Err(e) => r matches ToolAnswer::Error(t) && t@ == "error: "@ + e.spec_message(),
            }
        };
    let k = choose|k: int| 0 <= k < store.jobs@.len() && store.jobs@[k] == job;
    assert(store.jobs@[k].gh_job_id == id);
    assert(found is Ok);
    let f = found->Ok_0;
    console::lemma_one_job(store, f.job, job);
    console::lemma_one_job(store, d.job, job);
    assert(text::opt_text(f.excerpt) == text::opt_text(d.excerpt));
    assert(text::opt_text(f.post_mortem) == text::opt_text(d.post_mortem));
    assert(agent::digest_text(f) == agent::digest_text(d)) by {
        assert((f.excerpt is Some) == (text::opt_text(f.excerpt) is Some));
        assert((d.excerpt is Some) == (text::opt_text(d.excerpt) is Some));
        assert((f.post_mortem is Some) == (text::opt_text(f.post_mortem) is Some));
        assert((d.post_mortem is Some) == (text::opt_text(d.post_mortem) is Some));
    }
}

// -- pages and summaries ------------------------------------------------------------------------

/// What is read of the runtimes that do not work: their names and the reasons, if they are
/// told.
pub proof fn law_degraded_runtimes_are_read(body: &str, r: Vec<(String, Option<String>)>, i: int)
    requires
        call_ensures(setup::status_degraded, (body,), r),
        0 <= i < r@.len(),
    ensures
        r@.len() == json::json_fields(body@, "/degraded"@).len(),
        (r@[i].0)@ == json::json_fields(body@, "/degraded"@)[i].0,
        crate::laws::answers::reads(r@[i].1, json::json_fields(body@, "/degraded"@)[i].1, ""@),
{
    assert(setup::is_degraded(r@[i], json::json_fields(body@, "/degraded"@)[i]));
}

/// A state that could not be read is told as an answer that could not be decoded.
pub proof fn law_unreadable_states_are_told(r: StateAnswer)
    requires
        call_ensures(mcp::shown_state, (None,), r),
    ensures
        r is Unreadable && (r->Unreadable_0)@ == "error decoding response body"@,
{
}

/// A page of the disk lists every image and every cache that a line tells of, and nothing
/// else.
pub proof fn law_disks_list_what_lines_tell_of(
    config: Config,
    found: Option<Vec<crate::tree::Entry>>,
    sizes: Vec<Option<u64>>,
    images: Vec<String>,
    volumes: Vec<String>,
    r: Disk,
    i: int,
    line: &str,
    kept: Option<Kept>,
    volume: &str,
    cache: Option<Kept>,
    k: int,
)
    requires
        call_ensures(web::disk, (&config, &found, &sizes, &images, &volumes), r),
        0 <= i < images@.len(),
        line@ == images@[i]@,
        call_ensures(web::image_line, (line,), kept),
        0 <= k < volumes@.len(),
        volume@ == volumes@[k]@,
        call_ensures(web::volume_line, (volume,), cache),
    ensures
        r.images@.len() <= images@.len(),
        r.volumes@.len() <= volumes@.len(),
        kept is Some ==> exists|j: int|
            0 <= j < r.images@.len() && (#[trigger] r.images@[j]).name@ == (kept->0).name@
                && r.images@[j].size@ == (kept->0).size@,
        cache is Some ==> exists|j: int|
            0 <= j < r.volumes@.len() && (#[trigger] r.volumes@[j]).name@ == (cache->0).name@
                && r.volumes@[j].size@ == (cache->0).size@,
        r.volume_retention@ == "dependency caches; grow with churn, `docker volume rm` resets"@,
{
    let a = web::kept_views(r.images@);
    let b = web::kept_views(r.volumes@);
    assert(a.len() == r.images@.len());
    assert(b.len() == r.volumes@.len());
    lemma_listed(images@, images@.len() as int, i);
    lemma_listed_volumes(volumes@, volumes@.len() as int, k);
    if kept is Some {
        let x = web::kept_view(kept->0);
        assert(web::image_of(images@[i]@) == Some(x));
        let j = choose|j: int| 0 <= j < a.len() && a[j] == x;
        assert(a[j] == web::kept_view(r.images@[j]));
        assert(r.images@[j].name@ == (kept->0).name@);
    }
    if cache is Some {
        let x = web::kept_view(cache->0);
        assert(web::volume_of(volumes@[k]@) == Some(x));
        let j = choose|j: int| 0 <= j < b.len() && b[j] == x;
        assert(b[j] == web::kept_view(r.volumes@[j]));
        assert(r.volumes@[j].name@ == (cache->0).name@);
    }
}

proof fn lemma_listed(lines: Seq<String>, n: int, i: int)
    requires
        0 <= i < n <= lines.len(),
    ensures
        web::listed_images(lines, n).len() <= n,
        web::image_of(lines[i]@) is Some ==> web::listed_images(lines, n).contains(
            web::image_of(lines[i]@)->0,
        ),
    decreases n,
{
    let before = web::listed_images(lines, n - 1);
    let all = web::listed_images(lines, n);
    if n > 1 {
        lemma_listed(
            lines,
            n - 1,
            if i < n - 1 {
                i
            } else {
                0
            },
        );
    } else {
        assert(before.len() == 0);
    }
    if web::image_of(lines[i]@) is Some {
        let x = web::image_of(lines[i]@)->0;
        if i < n - 1 {
            let j = choose|j: int| 0 <= j < before.len() && before[j] == x;
            assert(all[j] == x);
        } else {
            assert(all[before.len() as int] == x);
        }
    }
}

proof fn lemma_listed_volumes(lines: Seq<String>, n: int, i: int)
    requires
        0 <= i < n <= lines.len(),
    ensures
        web::listed_volumes(lines, n).len() <= n,
        web::volume_of(lines[i]@) is Some ==> web::listed_volumes(lines, n).contains(
            web::volume_of(lines[i]@)->0,
        ),
    decreases n,
{
    let before = web::listed_volumes(lines, n - 1);
    let all = web::listed_volumes(lines, n);
    if n > 1 {
        lemma_listed_volumes(
            lines,
            n - 1,
            if i < n - 1 {
                i
            } else {
                0
            },
        );
    } else {
        assert(before.len() == 0);
    }
    if web::volume_of(lines[i]@) is Some {
        let x = web::volume_of(lines[i]@)->0;
        if i < n - 1 {
            let j = choose|j: int| 0 <= j < before.len() && before[j] == x;
            assert(all[j] == x);
        } else {
            assert(all[before.len() as int] == x);
        }
    }
}

} // verus!

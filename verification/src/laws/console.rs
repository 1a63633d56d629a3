//! What is told to those who ask: by tools, on pages and on the command line.

use crate::agent;
use crate::agent::{AgentError, Archive};
use crate::config::{Config, RuntimeKind};
use crate::json;
use crate::laws::answers;
use crate::laws::history;
use crate::laws::journal;
use crate::laws::texts;
use crate::mcp;
use crate::mcp::{Message, Reply, StateAnswer, Tool, ToolAnswer};
use crate::number;
use crate::scheduler;
use crate::scheduler::{App, LogCursor};
use crate::setup;
use crate::setup::{Checkup, RepoStatus, RunnerStatus, SetupError};
use crate::store::{Job, Store};
use crate::text;
use crate::tree;
use crate::tree::Entry;
use crate::web;
use crate::web::{Disk, Kept, StateView};
use vstd::prelude::*;

verus! {

// -- messages -------------------------------------------------------------------------------

/// What is read of a message: its id as it is written, its method, the version that the
/// client speaks, and the tool that it calls with its arguments.
pub proof fn law_messages_are_read(line: &str, r: Option<Message>, n: u32)
    requires
        call_ensures(mcp::read_message, (line,), r),
    ensures
        r is None <==> json::json_error(line@) is Some,
        r is Some ==> {
            let m = r->0;
            &&& m.id is Some <==> json::json_raw(line@, "/id"@) is Some
            &&& m.id is Some ==> json::json_raw(line@, "/id"@) == Some((m.id->0)@)
            &&& json::json_str(line@, "/method"@) is Some ==> json::json_str(line@, "/method"@)
                == Some(m.method@)
            &&& answers::reads(m.version, line@, "/params/protocolVersion"@)
            &&& json::json_str(line@, "/params/name"@) is Some ==> json::json_str(
                line@,
                "/params/name"@,
            ) == Some(m.tool@)
            &&& answers::reads(m.job, line@, "/params/arguments/job"@)
            &&& json::json_raw(line@, "/params/arguments/limit"@) == Some(number::dec(n as nat))
                ==> m.limit == Some(n as u64)
            &&& json::json_raw(line@, "/params/arguments/limit"@) is None ==> m.limit is None
        },
{
    number::lemma_dec(n as nat);
}

/// A message is answered exactly if it has an id that is not null, by its method; one that
/// is unknown is answered with an error.
pub proof fn law_messages_are_answered_by_their_method(m: Message, r: Reply)
    requires
        call_ensures(mcp::reply, (&m,), r),
    ensures
        r == Reply::Silence <==> m.id is None || (m.id->0)@ == "null"@,
        r is Initialized <==> r != Reply::Silence && m.method@ == "initialize"@,
        r is Initialized && m.version is Some ==> (r->Initialized_0)@ == (m.version->0)@,
        r is Initialized && m.version is None ==> (r->Initialized_0)@ == "2024-11-05"@,
        r == Reply::Pong <==> r != Reply::Silence && m.method@ == "ping"@,
        r == Reply::Tools <==> r != Reply::Silence && m.method@ == "tools/list"@,
        r == Reply::Called <==> r != Reply::Silence && m.method@ == "tools/call"@,
        r is Unknown ==> r->code == -32601 && (r->message)@ == "method not found: "@ + m.method@,
{
    reveal_strlit("initialize");
    reveal_strlit("ping");
    reveal_strlit("tools/list");
    reveal_strlit("tools/call");
    assert("initialize"@[0] == 'i' && "ping"@[0] == 'p' && "tools/list"@[0] == 't'
        && "tools/call"@[0] == 't');
    assert("tools/list"@[6] == 'l' && "tools/call"@[6] == 'c');
}

/// A line without a document is passed over; any other is answered as the message that it
/// holds.
pub proof fn law_lines_are_answered_as_messages(
    line: &str,
    r: (Reply, Option<Message>),
    m: Option<Message>,
)
    requires
        call_ensures(mcp::dispatch, (line,), r),
        call_ensures(mcp::read_message, (line,), m),
        line@.len() > 0,
        !text::is_space(line@[0]),
    ensures
        m is None ==> r.0 == Reply::Silence && r.1 is None,
        m is Some ==> r.1 is Some && ((r.1->0).method@ == (m->0).method@),
        m is Some ==> (r.0 == Reply::Silence <==> (m->0).id is None || ((m->0).id->0)@
            == "null"@),
        r.0 == Reply::Called ==> r.1 is Some && (r.1->0).method@ == "tools/call"@ && (
        r.1->0).tool@ == (m->0).tool@,
{
    lemma_not_blank(line@);
    if m is Some {
        let a = text::opt_text((m->0).id);
        let b = text::opt_text((r.1->0).id);
        assert(a == b);
        assert(((m->0).id is None) == (a is None));
        assert(((r.1->0).id is None) == (b is None));
    }
}

proof fn lemma_not_blank(s: Seq<char>)
    requires
        s.len() > 0,
        !text::is_space(s[0]),
    ensures
        text::trim(s).len() > 0,
    decreases s.len(),
{
    assert(text::trim_start(s) == s);
    if text::is_space(s.last()) {
        assert(s.len() > 1);
        lemma_not_blank(s.drop_last());
        assert(text::trim_start(s.drop_last()) == s.drop_last());
    }
}

// -- tools ----------------------------------------------------------------------------------

/// Four tools are offered: one tells how the pool stands, one lists jobs up to a limit, and
/// two take a job.
pub proof fn law_four_tools_are_offered(r: Vec<Tool>)
    requires
        call_ensures(mcp::tools, (), r),
    ensures
        r@.len() == 4,
        r@[0].name@ == "runner_status"@ && r@[0].argument is None,
        r@[1].name@ == "list_jobs"@ && r@[1].argument is Some && (r@[1].argument->0).name@
            == "limit"@ && (r@[1].argument->0).kind@ == "integer"@,
        r@[2].name@ == "job_logs"@ && r@[2].argument is Some && (r@[2].argument->0).name@ == "job"@
            && (r@[2].argument->0).kind@ == "string"@,
        r@[3].name@ == "why_failed"@ && r@[3].argument is Some && (r@[3].argument->0).name@
            == "job"@ && (r@[3].argument->0).kind@ == "string"@,
{
    assert(r@[0].name@ == mcp::tool_names()[0]);
    assert(r@[1].name@ == mcp::tool_names()[1]);
    assert(r@[2].name@ == mcp::tool_names()[2]);
    assert(r@[3].name@ == mcp::tool_names()[3]);
}

/// The end of a log is its last 1200 lines, or all of them.
pub proof fn law_the_end_of_a_log_is_its_last_lines(log: &str, r: String, ls: Seq<Seq<char>>)
    requires
        call_ensures(mcp::log_tail, (log,), r),
        ls == text::lines(log@),
    ensures
        ls.len() <= 1200 ==> r@ == texts::strung(ls, "\n"@),
        ls.len() > 1200 ==> r@ == texts::strung(ls.subrange(ls.len() - 1200, ls.len() as int), "\n"@),
{
    texts::lemma_strung(ls, "\n"@);
    if ls.len() > 1200 {
        let last = ls.subrange(ls.len() - 1200, ls.len() as int);
        assert(ls.skip(ls.len() - 1200) =~= last);
        texts::lemma_strung(last, "\n"@);
    } else {
        assert(ls.skip(0) =~= ls);
    }
}

/// How the pool stands is told even where there is no journal; nothing else is. A tool that
/// is unknown is an error.
pub proof fn law_tools_answer_by_their_name(
    opened: Result<Store, String>,
    archive: Archive,
    name: &str,
    job: Option<&str>,
    limit: Option<u64>,
    r: ToolAnswer,
)
    requires
        call_ensures(mcp::call_tool, (&opened, &archive, name, job, limit), r),
    ensures
        r == ToolAnswer::Status <==> name@ == "runner_status"@,
        opened is Err && name@ != "runner_status"@ ==> r is Error && (r->Error_0)@ == "error: "@
            + (opened->Err_0)@,
        r is Jobs <==> opened is Ok && name@ == "list_jobs"@,
        opened is Ok && name@ != "runner_status"@ && name@ != "list_jobs"@ && name@ != "job_logs"@
            && name@ != "why_failed"@ ==> r is Error && (r->Error_0)@ == "error: "@ + (
        "unknown tool: "@ + name@),
{
    lemma_tool_names();
}

pub(crate) proof fn lemma_tool_names()
    ensures
        "runner_status"@ != "list_jobs"@,
        "runner_status"@ != "job_logs"@,
        "runner_status"@ != "why_failed"@,
        "list_jobs"@ != "job_logs"@,
        "list_jobs"@ != "why_failed"@,
        "job_logs"@ != "why_failed"@,
{
    reveal_strlit("runner_status");
    reveal_strlit("list_jobs");
    reveal_strlit("job_logs");
    reveal_strlit("why_failed");
    assert("runner_status"@[0] == 'r' && "list_jobs"@[0] == 'l' && "job_logs"@[0] == 'j'
        && "why_failed"@[0] == 'w');
}

/// The newest jobs are listed: as many as are asked for, else twenty.
pub proof fn law_the_newest_jobs_are_listed(
    store: Store,
    archive: Archive,
    name: &str,
    limit: Option<u64>,
    jobs: Vec<Job>,
)
    requires
        call_ensures(
            mcp::call_tool,
            (&Ok::<Store, String>(store), &archive, name, None, limit),
            ToolAnswer::Jobs(jobs),
        ),
        limit is Some ==> limit->0 <= u32::MAX,
    ensures
        journal::lists_newest(
            jobs@,
            store.jobs@,
            if limit is Some {
                (limit->0) as int
            } else {
                20
            },
        ),
{
    lemma_tool_names();
    assert(store.jobs.len() == store.jobs@.len());
    assert(name@ == "list_jobs"@);
    journal::lemma_newest(jobs@, store.jobs@, mcp::job_limit(limit));
}

/// A job is one of the journal's by its id.
pub(crate) proof fn lemma_one_job(store: Store, a: Job, b: Job)
    requires
        store.well_formed(),
        store.jobs@.contains(a),
        store.jobs@.contains(b),
        a.gh_job_id == b.gh_job_id,
    ensures
        a == b,
{
    let i = choose|i: int| 0 <= i < store.jobs@.len() && store.jobs@[i] == a;
    let k = choose|k: int| 0 <= k < store.jobs@.len() && store.jobs@[k] == b;
    if i < k {
        assert(store.jobs@[i].gh_job_id < store.jobs@[k].gh_job_id);
    }
    if k < i {
        assert(store.jobs@[k].gh_job_id < store.jobs@[i].gh_job_id);
    }
}

/// The logs of the job that is asked for are answered with their end, on a page with all of
/// them; where they cannot be read, both tell why.
pub proof fn law_logs_of_a_job_are_told(
    store: Store,
    archive: Archive,
    name: &str,
    job: Job,
    spec: &str,
    log: Result<String, AgentError>,
    all: &str,
    end: String,
    r: ToolAnswer,
    page: Result<String, String>,
)
    requires
        store.well_formed(),
        store.jobs@.contains(job),
        job.gh_job_id >= 0,
        spec@ == number::dec(job.gh_job_id as nat),
        name@ == "job_logs"@,
        call_ensures(
            mcp::call_tool,
            (&Ok::<Store, String>(store), &archive, name, Some(spec), None),
            r,
        ),
        call_ensures(web::job_logs, (&store, &archive, job.gh_job_id), page),
        call_ensures(agent::read_worker_logs, (&job, &archive), log),
        log is Ok ==> all@ == (log->Ok_0)@,
        call_ensures(mcp::log_tail, (all,), end),
    ensures
        log is Ok ==> r is Text && (r->Text_0)@ == end@,
        log is Err ==> r is Error,
        log is Ok ==> page is Ok && (page->Ok_0)@ == (log->Ok_0)@,
        log is Err ==> page is Err,
{
    lemma_tool_names();
    let id = job.gh_job_id;
    let d = number::dec(id as nat);
    number::lemma_dec(id as nat);
    reveal_strlit("latest");
    reveal_strlit("latest-failed");
    assert('0' <= d[0] <= '9');
    assert("latest"@[0] == 'l' && "latest-failed"@[0] == 'l');
    let w = agent::wanted(Some(spec@), false);
    assert(w == agent::Wanted::Id(id));
    assert(mcp::logs_answered(r, store, archive, Some(spec@)));
    let found = choose|found: Result<Job, AgentError>|
        #![trigger agent::resolved(found, store.jobs@, agent::wanted(Some(spec@), false))]
        {
            &&& agent::resolved(found, store.jobs@, agent::wanted(Some(spec@), false))
            &&& match found {
                Err(e) => r matches ToolAnswer::Error(t) && t@ == "error: "@ + e.spec_message(),
                Ok(job) => exists|log: Result<String, AgentError>|
                    #![trigger agent::log_read(log, job, archive)]
                    {
                        &&& agent::log_read(log, job, archive)
                        &&& match log {
                            Ok(s) => r matches ToolAnswer::Text(t) && t@ == mcp::tail(s@, 1200),
                            Err(e) => r matches ToolAnswer::Error(t) && t@ == "error: "@
                                + e.spec_message(),
                        }
                    },
            }
        };
    let k = choose|k: int| 0 <= k < store.jobs@.len() && store.jobs@[k] == job;
    assert(store.jobs@[k].gh_job_id == id);
    assert(found is Ok);
    lemma_one_job(store, found->Ok_0, job);
    assert(web::is_log_page(page, store, archive, id));
    let (j, l) = choose|j: Job, l: Result<String, AgentError>|
        #![trigger store.jobs@.contains(j), agent::log_read(l, j, archive)]
        {
            &&& store.jobs@.contains(j)
            &&& j.gh_job_id == id
            &&& agent::log_read(l, j, archive)
            &&& match l {
                Ok(s) => page matches Ok(t) && t@ == s@,
                Err(e) => page matches Err(t) && t@ == e.spec_message(),
            }
        };
    lemma_one_job(store, j, job);
    assert(agent::log_read(log, job, archive));
}

/// A state that cannot be read, or a supervisor that does not answer, is told as that; any
/// other state is shown as it is.
pub proof fn law_states_are_shown(shown: Option<String>, a: StateAnswer, answer: StateAnswer, r: String)
    requires
        call_ensures(mcp::shown_state, (shown,), a),
        call_ensures(mcp::status_text, (answer,), r),
    ensures
        shown is Some ==> a is State && (a->State_0)@ == (shown->0)@,
        shown is None ==> a is Unreadable,
        answer is State ==> r@ == (answer->State_0)@,
        answer is Unreadable ==> r@ == "supervisor responded but state was unreadable: "@ + (
        answer->Unreadable_0)@,
        answer is Unreachable ==> r@
            == "supervisor is not running (dashboard unreachable) — job history is still available via list_jobs"@,
{
}

/// An answer tells of an error exactly if it begins as errors do.
pub proof fn law_errors_begin_alike(answer: &str, r: bool)
    requires
        call_ensures(mcp::is_error, (answer,), r),
    ensures
        r <==> exists|what: Seq<char>| answer@ == #[trigger] ("error: "@ + what),
{
    let e = "error: "@;
    if e.is_prefix_of(answer@) {
        assert(answer@ =~= e + answer@.skip(e.len() as int));
    }
    if exists|what: Seq<char>| answer@ == #[trigger] (e + what) {
        let what = choose|what: Seq<char>| answer@ == #[trigger] (e + what);
        assert(answer@.subrange(0, e.len() as int) =~= e);
    }
}

// -- pages ----------------------------------------------------------------------------------

/// What is kept of logs, of workspaces and of the journal is told as it is configured, each
/// from its own settings.
pub proof fn law_limits_are_told_as_configured(
    config: Config,
    logs: String,
    images: String,
    rows: String,
)
    requires
        call_ensures(web::log_retention, (&config,), logs),
        call_ensures(web::image_retention, (&config,), images),
        call_ensures(web::journal_retention, (&config,), rows),
    ensures
        logs@ == "newest "@ + number::dec(config.keep_job_logs as nat) + " jobs"@ + age_told(
            config.job_logs_max_age_days,
        ) + size_told(config.job_logs_max_bytes),
        images@ == "newest "@ + number::dec(config.keep_failed_workspaces as nat)
            + " failed jobs"@ + age_told(config.failed_workspaces_max_age_days) + size_told(
            config.failed_workspaces_max_bytes,
        ),
        rows@ == "events: "@ + number::dec(config.event_history_days as nat)
            + " days; artifact-free jobs: "@ + number::dec(config.job_history_days as nat)
            + " days"@,
{
    reveal_strlit("");
}

pub open spec fn age_told(days: Option<u64>) -> Seq<char> {
    if days is Some {
        "; max "@ + number::dec(days->0 as nat) + " days"@
    } else {
        Seq::empty()
    }
}

pub open spec fn size_told(bytes: Option<u64>) -> Seq<char> {
    if bytes is Some {
        "; max "@ + number::dec(bytes->0 as nat / (1024 * 1024)) + " MB"@
    } else {
        Seq::empty()
    }
}

/// Files that are missing count for nothing; every other counts for its bytes.
pub proof fn law_files_that_are_there_are_counted(
    some: Vec<Option<u64>>,
    more: Vec<Option<u64>>,
    size: Option<u64>,
    a: u128,
    b: u128,
)
    requires
        call_ensures(web::total_bytes, (&some,), a),
        call_ensures(web::total_bytes, (&more,), b),
        more@ == some@.push(size),
    ensures
        some@.len() == 0 ==> a == 0,
        size is None ==> b == a,
        size is Some ==> b == a + size->0,
{
    lemma_total(some@, more@, some@.len() as int);
}

proof fn lemma_total(a: Seq<Option<u64>>, b: Seq<Option<u64>>, n: int)
    requires
        0 <= n <= a.len(),
        n <= b.len(),
        forall|i: int| 0 <= i < n ==> #[trigger] a[i] == b[i],
    ensures
        web::total(a, n) == web::total(b, n),
    decreases n,
{
    if n > 0 {
        lemma_total(a, b, n - 1);
        assert(a[n - 1] == b[n - 1]);
    }
}

/// The journal is in a file, and while it is open in two more beside it.
pub proof fn law_journals_are_three_files(path: &str, r: Vec<String>)
    requires
        call_ensures(web::journal_files, (path,), r),
    ensures
        text::texts(r@) == seq![path@, path@ + "-wal"@, path@ + "-shm"@],
{
    reveal_strlit("");
    assert(path@ + ""@ =~= path@);
}

/// Our images, and only those, are listed: their tag up to the first space, their size
/// behind it.
pub proof fn law_our_images_are_listed(
    tag: Seq<char>,
    size: Seq<char>,
    line: &str,
    r: Option<Kept>,
)
    requires
        call_ensures(web::image_line, (line,), r),
        line@ == tag + " "@ + size,
        !tag.contains(' '),
    ensures
        r is Some <==> (exists|x: Seq<char>| line@ == #[trigger] ("homerunner-runner"@ + x)) || (
        exists|x: Seq<char>| line@ == #[trigger] ("homerunner-kept"@ + x)),
        r is Some ==> (r->0).name@ == tag && (r->0).size@ == size,
{
    reveal_strlit(" ");
    let s = line@;
    lemma_begins(s, "homerunner-runner"@);
    lemma_begins(s, "homerunner-kept"@);
    text::lemma_index_of(s, ' ');
    let k = text::index_of(s, ' ');
    assert(s[tag.len() as int] == ' ');
    if k < tag.len() {
        assert(tag[k] == ' ');
    }
    assert(s.take(k) =~= tag);
    assert(s.skip(k + 1) =~= size);
    assert(web::maybe_kept(r) == web::image_of(s));
}

proof fn lemma_begins(s: Seq<char>, p: Seq<char>)
    ensures
        p.is_prefix_of(s) <==> exists|x: Seq<char>| s == #[trigger] (p + x),
{
    if p.is_prefix_of(s) {
        assert(s =~= p + s.skip(p.len() as int));
    }
    if exists|x: Seq<char>| s == #[trigger] (p + x) {
        let x = choose|x: Seq<char>| s == #[trigger] (p + x);
        assert(s.subrange(0, p.len() as int) =~= p);
    }
}

/// A page of the disk tells where the logs and the journal are, the bytes of the journal's
/// files, and what is kept of each.
pub proof fn law_the_disk_is_told(
    config: Config,
    found: Option<Vec<Entry>>,
    sizes: Vec<Option<u64>>,
    images: Vec<String>,
    volumes: Vec<String>,
    logs: String,
    kept: String,
    rows: String,
    total: u128,
    stats: Option<(u64, u64)>,
    r: Disk,
)
    requires
        call_ensures(web::disk, (&config, &found, &sizes, &images, &volumes), r),
        call_ensures(web::log_retention, (&config,), logs),
        call_ensures(web::image_retention, (&config,), kept),
        call_ensures(web::journal_retention, (&config,), rows),
        call_ensures(web::total_bytes, (&sizes,), total),
        call_ensures(web::checked_dir_stats, (&found,), stats),
    ensures
        r.jobs_retention@ == logs@,
        r.image_retention@ == kept@,
        r.journal_retention@ == rows@,
        r.journal_bytes == total,
        stats is Some ==> r.jobs == (stats->0).0 && r.jobs_bytes == (stats->0).1,
        stats is None ==> r.jobs == 0 && r.jobs_bytes == 0,
        config.data_dir@.len() > 0 && config.data_dir@.last() != '/' ==> r.jobs_path@
            == config.data_dir@ + "/jobs"@ && r.journal_path@ == config.data_dir@
            + "/homerunner.db"@,
{
    reveal_strlit("jobs");
    reveal_strlit("homerunner.db");
    reveal_strlit("/jobs");
    reveal_strlit("/homerunner.db");
    let d = config.data_dir@;
    assert(d + seq!['/'] + "jobs"@ =~= d + "/jobs"@);
    assert(d + seq!['/'] + "homerunner.db"@ =~= d + "/homerunner.db"@);
}

/// A directory holds as many jobs as directories stand in it, and all the bytes in and
/// below it; one that is missing holds none.
pub proof fn law_job_directories_are_counted(
    found: Vec<Entry>,
    n: Option<u64>,
    r: Option<(u64, u64)>,
    none: Option<(u64, u64)>,
)
    requires
        call_ensures(web::checked_dir_stats, (&Some(found),), r),
        call_ensures(web::checked_dir_stats, (&None::<Vec<Entry>>,), none),
        call_ensures(tree::measure, (&found,), n),
    ensures
        r is Some <==> n is Some,
        r is Some ==> (r->0).1 == n->0 && (r->0).0 == found@.filter(|e: Entry| e is Dir).len(),
        none is Some && (none->0).0 == 0 && (none->0).1 == 0,
{
    let p = |e: Entry| e is Dir;
    crate::laws::pool::lemma_same_filter(found@, p, tree::is_dir());
}

/// A page shows a job that the journal knows, and otherwise says that there is none.
pub proof fn law_pages_show_known_jobs(store: Store, id: i64, r: Result<Job, String>, k: int)
    requires
        call_ensures(web::job, (&store, id), r),
        0 <= k < store.jobs@.len(),
    ensures
        store.jobs@[k].gh_job_id == id ==> r is Ok,
        r is Ok ==> (r->Ok_0).gh_job_id == id && store.jobs@.contains(r->Ok_0),
        r is Err ==> (r->Err_0)@ == "no job "@ + number::dec_int(id as int) + " recorded"@,
{
}

/// A page of the state lists the fifty newest jobs and as many events.
pub proof fn law_states_list_the_newest(app: App, r: StateView, i: int, k: int)
    requires
        call_ensures(web::state, (&app,), r),
        0 <= i < r.events@.len(),
        0 <= k < app.store.events@.len(),
    ensures
        journal::lists_newest(r.jobs@, app.store.jobs@, 50),
        r.events@.len() <= 50,
        r.events@.len() < 50 ==> r.events@.len() == app.store.events@.len(),
        app.store.events@.contains(r.events@[i]),
{
    assert(app.store.jobs.len() == app.store.jobs@.len());
    assert(app.store.events.len() == app.store.events@.len());
    journal::lemma_newest(r.jobs@, app.store.jobs@, 50);
    let events = app.store.events@;
    let keys = crate::store::event_keys(events);
    let at = choose|at: Seq<usize>|
        {
            &&& #[trigger] crate::order::is_ascending(keys, at)
            &&& r.events@.len() == if 50 < events.len() {
                50nat
            } else {
                events.len()
            }
            &&& forall|i: int|
                0 <= i < r.events@.len() ==> #[trigger] r.events@[i] == events[at[i] as int]
        };
    assert(at[i] < keys.len());
}

/// A reader goes on after the line whose number it tells; one that tells none, or none that
/// is a number, begins at the start.
pub proof fn law_readers_tell_the_last_line_they_have_seen(header: Option<&str>, n: u64, r: u64)
    requires
        call_ensures(web::last_event_id, (header,), r),
    ensures
        header is None ==> r == 0,
        header is Some && (header->0)@ == number::dec(n as nat) ==> r == n,
        header is Some && (header->0)@.len() > 0 && !('0' <= (header->0)@.last() <= '9') ==> r == 0,
{
    number::lemma_dec(n as nat);
    if header is Some && (header->0)@.len() > 0 {
        let s = (header->0)@;
        if !('0' <= s.last() <= '9') {
            let t = s.drop_first();
            if t.len() > 0 {
                assert(t[t.len() - 1] == s.last());
            }
            assert(s[s.len() - 1] == s.last());
        }
    }
}

/// A reader of a runner's lines gets those that are kept and that it has not seen; there
/// are none of a runner that is not in the pool.
pub proof fn law_readers_get_the_lines_they_have_not_seen(
    app: App,
    name: &str,
    header: Option<&str>,
    seen: u64,
    r: Result<(Vec<(u64, String)>, LogCursor), String>,
    k: int,
    line: (u64, String),
)
    requires
        call_ensures(web::runner_logs, (&app, name, header), r),
        call_ensures(web::last_event_id, (header,), seen),
        0 <= k < app.runners@.len(),
        forall|i: int| 0 <= i < k ==> (#[trigger] app.runners@[i]).name@ != name@,
        app.runners@[k].name@ == name@,
    ensures
        r is Ok,
        ((r->Ok_0).0)@.contains(line) <==> app.runners@[k].info.log@.contains(line) && line.0
            > seen,
        ((r->Ok_0).1).seen == app.runners@[k].info.last_line,
{
    scheduler::lemma_runner_index(app.runners@, name@, k);
    history::lemma_filtered(app.runners@[k].info.log@, scheduler::is_after(seen), line);
}

/// Of a runner that is not in the pool there are no lines.
pub proof fn law_runners_that_are_gone_have_no_lines(
    app: App,
    name: &str,
    header: Option<&str>,
    r: Result<(Vec<(u64, String)>, LogCursor), String>,
)
    requires
        call_ensures(web::runner_logs, (&app, name, header), r),
        forall|i: int| 0 <= i < app.runners@.len() ==> (#[trigger] app.runners@[i]).name@ != name@,
    ensures
        r is Err && (r->Err_0)@ == "no live runner "@ + name@,
{
    scheduler::lemma_index_bounds(app.runners@, name@);
}

// -- the command line -----------------------------------------------------------------------

/// The image and the runtime that are built for are those of the first repo.
pub proof fn law_the_first_repo_decides_what_is_built(config: Config, image: String, kind: RuntimeKind)
    requires
        call_ensures(setup::default_image, (&config,), image),
        call_ensures(setup::default_runtime, (&config,), kind),
    ensures
        config.repos@.len() > 0 ==> image@ == config.repos@[0].image@ && kind
            == config.repos@[0].runtime,
        config.repos@.len() == 0 ==> image@ == "homerunner-runner:local"@ && kind
            == RuntimeKind::Docker,
{
}

/// A configuration that is given is where it is said to be.
pub proof fn law_given_paths_are_taken(path: &str, r: String)
    requires
        call_ensures(setup::config_path, (Some(path),), r),
    ensures
        r@ == path@,
{
}

/// A configuration is written only where there is none, and only of repos with an owner, of
/// which there is at least one; every one of them stands in it.
pub proof fn law_first_configurations_name_their_repos(
    there: bool,
    path: &str,
    repos: Vec<String>,
    aarch64: bool,
    r: Result<Option<String>, SetupError>,
    i: int,
)
    requires
        call_ensures(setup::init, (there, path, &repos, aarch64), r),
        0 <= i < repos@.len(),
    ensures
        there <==> r is Ok && r->Ok_0 is None,
        !there && !repos@[i]@.contains('/') ==> r is Err && r->Err_0 is BadRepo,
        r is Err ==> r->Err_0 is BadRepo && !((r->Err_0)->repo)@.contains('/'),
        !there && r is Ok ==> repos@[i]@.contains('/') && texts::stands_in(
            "[[repos]]\nrepo = \""@ + repos@[i]@ + "\"\npool_size = 2\n"@,
            (r->Ok_0->0)@,
        ),
        !there && r is Ok && aarch64 ==> texts::stands_in(
            "runtime = \"apple-container\"\nlabels = [\"self-hosted\", \"linux\", \"arm64\"]\n"@,
            (r->Ok_0->0)@,
        ),
        !there && r is Ok && !aarch64 ==> texts::stands_in(
            "runtime = \"docker\"\nlabels = [\"self-hosted\", \"linux\", \"x64\"]\n"@,
            (r->Ok_0->0)@,
        ),
{
    let names = text::texts(repos@);
    assert(names[i] == repos@[i]@);
    assert(names.len() == repos@.len());
    lemma_first_bad(names);
    if !there && r is Ok {
        let body = (r->Ok_0->0)@;
        assert(names[i].contains('/'));
        let head = "[defaults]\nruntime = \""@ + (if aarch64 {
            "apple-container"@
        } else {
            "docker"@
        }) + "\"\nlabels = [\"self-hosted\", \"linux\", \""@ + (if aarch64 {
            "arm64"@
        } else {
            "x64"@
        }) + "\"]\n"@;
        assert(body == head + setup::repo_blocks(names));
        lemma_block(names, i);
        let block = "[[repos]]\nrepo = \""@ + names[i] + "\"\npool_size = 2\n"@;
        let (a, b) = choose|a: Seq<char>, b: Seq<char>|
            setup::repo_blocks(names) == #[trigger] (a + block + b);
        assert(body =~= (head + a) + block + b);
        reveal_strlit("[defaults]\nruntime = \"");
        reveal_strlit("[defaults]\n");
        reveal_strlit("apple-container");
        reveal_strlit("docker");
        reveal_strlit("\"\nlabels = [\"self-hosted\", \"linux\", \"");
        reveal_strlit("arm64");
        reveal_strlit("x64");
        reveal_strlit("\"]\n");
        reveal_strlit("runtime = \"apple-container\"\nlabels = [\"self-hosted\", \"linux\", \"arm64\"]\n");
        reveal_strlit("runtime = \"docker\"\nlabels = [\"self-hosted\", \"linux\", \"x64\"]\n");
        let first = "[defaults]\n"@;
        if aarch64 {
            let p = "runtime = \"apple-container\"\nlabels = [\"self-hosted\", \"linux\", \"arm64\"]\n"@;
            assert(head =~= first + p);
            assert(body =~= first + p + setup::repo_blocks(names));
        } else {
            let p = "runtime = \"docker\"\nlabels = [\"self-hosted\", \"linux\", \"x64\"]\n"@;
            assert(head =~= first + p);
            assert(body =~= first + p + setup::repo_blocks(names));
        }
    }
}

proof fn lemma_first_bad(names: Seq<Seq<char>>)
    ensures
        0 <= setup::first_bad(names) <= names.len(),
        setup::first_bad(names) < names.len() ==> !names[setup::first_bad(names)].contains('/'),
        forall|i: int| 0 <= i < setup::first_bad(names) ==> (#[trigger] names[i]).contains('/'),
    decreases names.len(),
{
    if names.len() > 0 && names[0].contains('/') {
        let rest = names.drop_first();
        lemma_first_bad(rest);
        assert forall|i: int| 0 <= i < setup::first_bad(names) implies (#[trigger] names[i]).contains(
            '/',
        ) by {
            if i > 0 {
                assert(rest[i - 1] == names[i]);
            }
        }
    }
}

proof fn lemma_block(names: Seq<Seq<char>>, i: int)
    requires
        0 <= i < names.len(),
    ensures
        texts::stands_in(
            "[[repos]]\nrepo = \""@ + names[i] + "\"\npool_size = 2\n"@,
            setup::repo_blocks(names),
        ),
    decreases names.len(),
{
    let n = names.len() - 1;
    let before = setup::repo_blocks(names.drop_last());
    let block = "[[repos]]\nrepo = \""@ + names[i] + "\"\npool_size = 2\n"@;
    let last = setup::repo_block(names.last());
    reveal_strlit("\n[[repos]]\nrepo = \"");
    reveal_strlit("[[repos]]\nrepo = \"");
    if i == n {
        assert(last =~= seq!['\n'] + block);
        assert(setup::repo_blocks(names) =~= (before + seq!['\n']) + block + Seq::<char>::empty());
    } else {
        lemma_block(names.drop_last(), i);
        let (a, b) = choose|a: Seq<char>, b: Seq<char>| before == #[trigger] (a + block + b);
        assert(setup::repo_blocks(names) =~= a + block + (b + last));
    }
}

/// Without a repo there is nothing to write.
pub proof fn law_configurations_need_a_repo(
    path: &str,
    repos: Vec<String>,
    aarch64: bool,
    r: Result<Option<String>, SetupError>,
)
    requires
        call_ensures(setup::init, (false, path, &repos, aarch64), r),
        repos@.len() == 0,
    ensures
        r is Err && r->Err_0 is NoRepos && ((r->Err_0)->path)@ == path@,
{
    let names = text::texts(repos@);
    assert(names.len() == 0);
}

/// A checkup finds nothing amiss exactly if every runtime works, the token gives access to
/// every repo, and every image is there; it tells of each of them.
pub proof fn law_checkups_find_what_is_amiss(c: Checkup, r: (Vec<String>, bool))
    requires
        call_ensures(setup::doctor, (&c,), r),
    ensures
        r.1 <==> (forall|i: int|
            0 <= i < c.runtimes@.len() ==> (#[trigger] c.runtimes@[i]).reason is None)
            && c.access is Ok && (forall|i: int|
            0 <= i < (c.access->Ok_0).repos@.len() ==> (
            #[trigger] (c.access->Ok_0).repos@[i]).runners is Ok) && (forall|i: int|
            0 <= i < c.images@.len() ==> (#[trigger] c.images@[i]).found),
        r.0@.len() == c.runtimes@.len() + c.images@.len() + 1 + if c.access is Ok {
            (c.access->Ok_0).repos@.len() as int
        } else {
            0
        },
{
    let t = text::texts(r.0@);
    assert(t.len() == r.0@.len());
}

/// What a checkup tells of a runtime, of a repo and of an image.
pub proof fn law_checkups_tell_of_everything(c: Checkup, r: (Vec<String>, bool), i: int, j: int, k: int)
    requires
        call_ensures(setup::doctor, (&c,), r),
        c.access is Ok,
        0 <= i < c.runtimes@.len(),
        0 <= j < (c.access->Ok_0).repos@.len(),
        0 <= k < c.images@.len(),
    ensures
        ({
            let a = c.runtimes@[i];
            let told = r.0@[i]@;
            told == "runtime "@ + (if a.kind == RuntimeKind::Docker {
                "docker"@
            } else {
                "apple-container"@
            }) + ": "@ + (if a.reason is Some {
                (a.reason->0)@
            } else {
                "ok"@
            })
        }),
        r.0@[c.runtimes@.len() as int]@ == "github token: ok ("@ + (c.access->Ok_0).remaining@ + "/"@
            + (c.access->Ok_0).limit@ + " requests remaining)"@,
        ({
            let a = (c.access->Ok_0).repos@[j];
            let told = r.0@[c.runtimes@.len() + 1 + j]@;
            told == "repo "@ + a.repo@ + (if a.runners is Ok {
                ": ok ("@ + number::dec(a.runners->Ok_0 as nat) + " registered runner(s))"@
            } else {
                ": FAIL "@ + (a.runners->Err_0)@
            })
        }),
        ({
            let a = c.images@[k];
            let told = r.0@[c.runtimes@.len() + 1 + (c.access->Ok_0).repos@.len() + k]@;
            told == "image "@ + a.image@ + ": "@ + (if a.found {
                "ok"@
            } else {
                "MISSING (homerunner build-image)"@
            })
        }),
{
    let t = text::texts(r.0@);
    let n = c.runtimes@.len() as int;
    let m = (c.access->Ok_0).repos@.len() as int;
    assert(t.len() == r.0@.len());
    assert(t[i] == r.0@[i]@);
    assert(t[n] == r.0@[n]@);
    assert(t[n + 1 + j] == r.0@[n + 1 + j]@);
    assert(t[n + 1 + m + k] == r.0@[n + 1 + m + k]@);
    let a = setup::access_lines(c.access);
    assert(a.len() == m + 1);
    assert(a[1 + j] == setup::repo_line()((c.access->Ok_0).repos@[j]));
    assert(t[n + 1 + j] == a[1 + j]);
    assert(t[n] == a[0]);
}

/// The images of the repos that run in Docker are looked for, and no others.
pub proof fn law_docker_images_are_looked_for(config: Config, r: Vec<String>, image: Seq<char>)
    requires
        call_ensures(setup::checked_images, (&config,), r),
    ensures
        text::texts(r@).contains(image) <==> exists|i: int|
            0 <= i < config.repos@.len() && (#[trigger] config.repos@[i]).runtime
                == RuntimeKind::Docker && config.repos@[i].image@ == image,
{
    let p = setup::in_docker();
    let docker = config.repos@.filter(p);
    let images = setup::images_of(docker);
    lemma_deduped(images, image);
    if images.contains(image) {
        let k = choose|k: int| 0 <= k < images.len() && images[k] == image;
        assert(docker[k].image@ == image);
        assert(docker.contains(docker[k]));
        history::lemma_filtered(config.repos@, p, docker[k]);
        let i = choose|i: int| 0 <= i < config.repos@.len() && config.repos@[i] == docker[k];
        assert(config.repos@[i].runtime == RuntimeKind::Docker);
    }
    if exists|i: int|
        0 <= i < config.repos@.len() && (#[trigger] config.repos@[i]).runtime == RuntimeKind::Docker
            && config.repos@[i].image@ == image {
        let i = choose|i: int|
            0 <= i < config.repos@.len() && (#[trigger] config.repos@[i]).runtime
                == RuntimeKind::Docker && config.repos@[i].image@ == image;
        history::lemma_filtered(config.repos@, p, config.repos@[i]);
        let k = choose|k: int| 0 <= k < docker.len() && docker[k] == config.repos@[i];
        assert(images[k] == image);
    }
}

proof fn lemma_deduped(s: Seq<Seq<char>>, x: Seq<char>)
    ensures
        setup::deduped(s).contains(x) <==> s.contains(x),
    decreases s.len(),
{
    if s.len() >= 2 {
        let rest = s.drop_last();
        lemma_deduped(rest, x);
        let d = setup::deduped(rest);
        if s.contains(x) {
            let i = choose|i: int| 0 <= i < s.len() && s[i] == x;
            if i < rest.len() {
                assert(rest[i] == x);
                let k = choose|k: int| 0 <= k < d.len() && d[k] == x;
                assert(d.push(s.last())[k] == x);
            } else if s.last() == s[s.len() - 2] {
                assert(rest[s.len() - 2] == x);
            } else {
                assert(d.push(s.last())[d.len() as int] == x);
            }
        }
        if setup::deduped(s).contains(x) {
            let k = choose|k: int| 0 <= k < setup::deduped(s).len() && setup::deduped(s)[k] == x;
            if s.last() == s[s.len() - 2] || k < d.len() {
                assert(d[k] == x);
                let i = choose|i: int| 0 <= i < rest.len() && rest[i] == x;
                assert(s[i] == x);
            } else {
                assert(s[s.len() - 1] == x);
            }
        }
    }
}

/// The summary of a repo, of a runner and of a runtime that does not work.
pub proof fn law_summaries(
    repo: RepoStatus,
    runner: RunnerStatus,
    name: &str,
    reason: Option<String>,
    a: String,
    b: String,
    c: String,
)
    requires
        call_ensures(setup::repo_status, (&repo,), a),
        call_ensures(setup::runner_status, (&runner,), b),
        call_ensures(setup::degraded_status, (name, &reason), c),
        repo.repo is Some && repo.live is Some && repo.pool_size is Some && repo.runtime is Some,
        runner.name is Some && runner.state is Some,
    ensures
        a@ == (repo.repo->0)@ + ": "@ + (repo.live->0)@ + "/"@ + (repo.pool_size->0)@ + " live ("@
            + (repo.runtime->0)@ + ")"@,
        runner.job is None || (runner.job->0)@.len() == 0 ==> b@ == "  "@ + (runner.name->0)@
            + "  "@ + (runner.state->0)@,
        runner.job is Some && (runner.job->0)@.len() > 0 ==> b@ == "  "@ + (runner.name->0)@
            + "  "@ + (runner.state->0)@ + "  "@ + (runner.job->0)@,
        reason is Some ==> c@ == "DEGRADED "@ + name@ + ": "@ + (reason->0)@,
        reason is None ==> c@ == "DEGRADED "@ + name@ + ": ?"@,
{
    reveal_strlit("");
    reveal_strlit(": ");
    reveal_strlit("?");
    reveal_strlit(": ?");
    assert(": "@ + "?"@ =~= ": ?"@);
    assert("DEGRADED "@ + name@ + ": "@ + "?"@ =~= "DEGRADED "@ + name@ + (": "@ + "?"@));
    let s = "  "@ + (runner.name->0)@ + "  "@ + (runner.state->0)@;
    assert(s + ""@ =~= s);
    if runner.job is Some {
        let j = (runner.job->0)@;
        assert(s + ("  "@ + j) =~= s + "  "@ + j);
    }
}

/// What is read of a state: every repo, every runner and every runtime that does not work.
pub proof fn law_states_are_read(
    body: &str,
    repos: Vec<RepoStatus>,
    runners: Vec<RunnerStatus>,
    i: int,
    j: int,
)
    requires
        call_ensures(setup::status_repos, (body,), repos),
        call_ensures(setup::status_runners, (body,), runners),
        0 <= i < repos@.len(),
        0 <= j < runners@.len(),
    ensures
        repos@.len() == json::json_items(body@, "/repos"@).len(),
        runners@.len() == json::json_items(body@, "/runners"@).len(),
        ({
            let item = json::json_items(body@, "/repos"@)[i];
            &&& answers::reads(repos@[i].repo, item, "/repo"@)
            &&& answers::reads(repos@[i].runtime, item, "/runtime"@)
            &&& text::opt_text(repos@[i].live) == json::json_raw(item, "/live"@)
            &&& text::opt_text(repos@[i].pool_size) == json::json_raw(item, "/pool_size"@)
        }),
        ({
            let item = json::json_items(body@, "/runners"@)[j];
            &&& answers::reads(runners@[j].name, item, "/name"@)
            &&& answers::reads(runners@[j].state, item, "/state"@)
            &&& answers::reads(runners@[j].job, item, "/job/job_name"@)
        }),
{
    assert(setup::is_repo(repos@[i], json::json_items(body@, "/repos"@)[i]));
    assert(setup::is_runner(runners@[j], json::json_items(body@, "/runners"@)[j]));
}

/// What is read of a budget of requests: what remains of it, and all of it.
pub proof fn law_budgets_are_shown(core: &str, r: (String, String))
    requires
        call_ensures(setup::rate_shown, (core,), r),
    ensures
        json::json_raw(core@, "/remaining"@) is Some ==> json::json_raw(core@, "/remaining"@)
            == Some((r.0)@),
        json::json_raw(core@, "/limit"@) is Some ==> json::json_raw(core@, "/limit"@) == Some(
            (r.1)@,
        ),
        json::json_raw(core@, "/remaining"@) is None ==> (r.0)@ == "null"@,
        json::json_raw(core@, "/limit"@) is None ==> (r.1)@ == "null"@,
{
}

} // verus!

//! Setting the program up on a machine: where its configuration is, the first
//! configuration, the service that keeps it running, and what it tells of all
//! that.

use crate::config;
use crate::config::{Config, RepoConfig, RuntimeKind};
use crate::json;
use crate::number;
use crate::order;
use crate::text;
use vstd::prelude::*;

verus! {

// -- where things are -------------------------------------------------------------------

/// Where the configuration is: where it is said to be, else in its usual place.
pub fn config_path(given: Option<&str>) -> (r: String)
    ensures
        match given {
            Some(path) => r@ == path@,
            None => exists|home: Option<Seq<char>>|
                r@ == #[trigger] config::expanded("~/.config/homerunner/config.toml"@, home),
        },
{
    match given {
        Some(path) => path.to_string(),
        None => config::expand_tilde("~/.config/homerunner/config.toml"),
    }
}

/// The image that is built: that of the first repo.
pub fn default_image(cfg: &Config) -> (r: String)
    ensures
        r@ == if cfg.repos@.len() > 0 {
            cfg.repos@[0].image@
        } else {
            "homerunner-runner:local"@
        },
{
    if cfg.repos.len() > 0 {
        cfg.repos[0].image.clone()
    } else {
        "homerunner-runner:local".to_string()
    }
}

/// The runtime that the image is built for: that of the first repo.
pub fn default_runtime(cfg: &Config) -> (r: RuntimeKind)
    ensures
        r == if cfg.repos@.len() > 0 {
            cfg.repos@[0].runtime
        } else {
            RuntimeKind::Docker
        },
{
    if cfg.repos.len() > 0 {
        cfg.repos[0].runtime
    } else {
        RuntimeKind::Docker
    }
}

// -- the first configuration --------------------------------------------------------------

/// Why no configuration can be written.
#[derive(Debug)]
pub enum SetupError {
    NoRepos { path: String },
    BadRepo { repo: String },
}

impl SetupError {
    pub open spec fn spec_message(self) -> Seq<char> {
        match self {
            SetupError::NoRepos { path } => "no config at "@ + path@
                + " — pass at least one --repo owner/name to create it"@,
            SetupError::BadRepo { repo } => "--repo must be owner/name, got: "@ + repo@,
        }
    }

    pub fn message(&self) -> (r: String)
        ensures
            r@ == self.spec_message(),
    {
        match self {
            SetupError::NoRepos { path } => text::chain(
                "no config at ",
                path.as_str(),
                " — pass at least one --repo owner/name to create it",
            ),
            SetupError::BadRepo { repo } => {
                let mut r = "--repo must be owner/name, got: ".to_string();
                r.append(repo.as_str());
                r
            },
        }
    }
}

/// The section on a repo.
pub open spec fn repo_block(repo: Seq<char>) -> Seq<char> {
    "\n[[repos]]\nrepo = \""@ + repo + "\"\npool_size = 2\n"@
}

/// The sections on all the repos.
pub open spec fn repo_blocks(repos: Seq<Seq<char>>) -> Seq<char>
    decreases repos.len(),
{
    if repos.len() == 0 {
        Seq::empty()
    } else {
        repo_blocks(repos.drop_last()) + repo_block(repos.last())
    }
}

/// The first configuration: by the machine's architecture, jobs run in virtual
/// machines or in Docker.
pub open spec fn first_config(repos: Seq<Seq<char>>, aarch64: bool) -> Seq<char> {
    "[defaults]\nruntime = \""@ + (if aarch64 {
        "apple-container"@
    } else {
        "docker"@
    }) + "\"\nlabels = [\"self-hosted\", \"linux\", \""@ + (if aarch64 {
        "arm64"@
    } else {
        "x64"@
    }) + "\"]\n"@ + repo_blocks(repos)
}

/// The first repo without an owner, or how many repos there are.
pub open spec fn first_bad(repos: Seq<Seq<char>>) -> int
    decreases repos.len(),
{
    if repos.len() == 0 || !repos[0].contains('/') {
        0
    } else {
        1 + first_bad(repos.drop_first())
    }
}

/// The configuration that is written where there is none yet; one that is
/// there is left alone.
pub fn init(exists: bool, path: &str, repos: &Vec<String>, aarch64: bool) -> (r: Result<
    Option<String>,
    SetupError,
>)
    ensures
        ({
            let names = text::texts(repos@);
            let bad = first_bad(names);
            match r {
                Ok(None) => exists,
                Ok(Some(body)) => !exists && names.len() > 0 && bad == names.len() && body@
                    == first_config(names, aarch64),
                Err(SetupError::NoRepos { path: p }) => !exists && names.len() == 0 && p@ == path@,
                Err(SetupError::BadRepo { repo }) => !exists && bad < names.len() && repo@
                    == names[bad],
            }
        }),
{
    if exists {
        return Ok(None);
    }
    let ghost names = text::texts(repos@);
    if repos.len() == 0 {
        return Err(SetupError::NoRepos { path: path.to_string() });
    }
    assert(names.skip(0) =~= names);
    for i in 0..repos.len()
        invariant
            !exists,
            names == text::texts(repos@),
            first_bad(names) == i + first_bad(names.skip(i as int)),
    {
        proof {
            assert(names.skip(i as int).drop_first() =~= names.skip(i + 1));
            assert(names.skip(i as int)[0] == repos@[i as int]@);
        }
        if !text::has_char(&text::chars(repos[i].as_str()), '/') {
            return Err(SetupError::BadRepo { repo: repos[i].clone() });
        }
    }
    let mut blocks = String::new();
    assert(blocks@ =~= repo_blocks(names.take(0)));
    for i in 0..repos.len()
        invariant
            names == text::texts(repos@),
            blocks@ == repo_blocks(names.take(i as int)),
    {
        proof {
            assert(names.take(i + 1).drop_last() =~= names.take(i as int));
            assert(names.take(i + 1).last() == repos@[i as int]@);
        }
        let block = text::chain("\n[[repos]]\nrepo = \"", repos[i].as_str(), "\"\npool_size = 2\n");
        blocks.append(block.as_str());
    }
    assert(names.take(names.len() as int) =~= names);
    let mut body = text::chain5(
        "[defaults]\nruntime = \"",
        if aarch64 {
            "apple-container"
        } else {
            "docker"
        },
        "\"\nlabels = [\"self-hosted\", \"linux\", \"",
        if aarch64 {
            "arm64"
        } else {
            "x64"
        },
        "\"]\n",
    );
    body.append(blocks.as_str());
    Ok(Some(body))
}

// -- the service ----------------------------------------------------------------------------

pub const PLIST_LABEL: &'static str = "dev.highstorm.homerunner";

pub const PLIST_HEAD: &'static str = "<?xml version=\"1.0\" encoding=\"UTF-8\"?>
<!DOCTYPE plist PUBLIC \"-//Apple//DTD PLIST 1.0//EN\" \"http://www.apple.com/DTDs/PropertyList-1.0.dtd\">
<plist version=\"1.0\">
<dict>
  <key>Label</key><string>dev.highstorm.homerunner</string>
  <key>ProgramArguments</key>
  <array>
    <string>";

pub const PLIST_RUN: &'static str = "</string>
    <string>run</string>
    <string>--config</string>
    <string>";

pub const PLIST_LIFE: &'static str = "</string>
  </array>
  <key>RunAtLoad</key><true/>
  <key>KeepAlive</key><dict><key>SuccessfulExit</key><false/></dict>
  <key>StandardOutPath</key><string>";

pub const PLIST_ERRORS: &'static str = "</string>
  <key>StandardErrorPath</key><string>";

pub const PLIST_END: &'static str = "</string>
  <key>EnvironmentVariables</key>
  <dict><key>PATH</key><string>/usr/local/bin:/opt/homebrew/bin:/usr/bin:/bin:/usr/sbin:/sbin</string></dict>
</dict>
</plist>
";

/// The launchd agent that runs the program. launchd's search path is bare, so
/// that it is spelled out.
pub fn plist(exe: &str, config: &str, log: &str) -> (r: String)
    ensures
        r@ == PLIST_HEAD@ + exe@ + PLIST_RUN@ + config@ + PLIST_LIFE@ + log@ + PLIST_ERRORS@ + log@
            + PLIST_END@,
{
    let mut r = text::chain5(PLIST_HEAD, exe, PLIST_RUN, config, PLIST_LIFE);
    r.append(log);
    r.append(PLIST_ERRORS);
    r.append(log);
    r.append(PLIST_END);
    r
}

// -- the checkup -------------------------------------------------------------------------------

/// A sequence in which neighbours that are the same count once.
pub open spec fn deduped<T>(s: Seq<T>) -> Seq<T>
    decreases s.len(),
{
    if s.len() < 2 {
        s
    } else if s.last() == s[s.len() - 2] {
        deduped(s.drop_last())
    } else {
        deduped(s.drop_last()).push(s.last())
    }
}

proof fn lemma_deduped_last<T>(s: Seq<T>)
    requires
        s.len() > 0,
    ensures
        deduped(s).len() > 0,
        deduped(s).last() == s.last(),
    decreases s.len(),
{
    if s.len() >= 2 {
        lemma_deduped_last(s.drop_last());
    }
}

/// The repos whose jobs run in Docker.
pub open spec fn in_docker() -> spec_fn(RepoConfig) -> bool {
    |rc: RepoConfig| rc.runtime == RuntimeKind::Docker
}

/// The images of the repos.
pub open spec fn images_of(repos: Seq<RepoConfig>) -> Seq<Seq<char>> {
    repos.map_values(|rc: RepoConfig| rc.image@)
}

/// The images that are looked for.
pub fn checked_images(cfg: &Config) -> (r: Vec<String>)
    ensures
        text::texts(r@) == deduped(images_of(cfg.repos@.filter(in_docker()))),
{
    let ghost p = in_docker();
    let mut r: Vec<String> = Vec::new();
    assert(text::texts(r@) =~= deduped(images_of(cfg.repos@.take(0).filter(p))));
    for i in 0..cfg.repos.len()
        invariant
            p == in_docker(),
            text::texts(r@) == deduped(images_of(cfg.repos@.take(i as int).filter(p))),
    {
        let rc = &cfg.repos[i];
        let ghost was = images_of(cfg.repos@.take(i as int).filter(p));
        let ghost now = images_of(cfg.repos@.take(i + 1).filter(p));
        proof {
            order::lemma_filter_step(cfg.repos@, p, i as int);
        }
        if rc.runtime == RuntimeKind::Docker {
            proof {
                assert(now =~= was.push(rc.image@));
                assert(now.drop_last() =~= was);
                if was.len() > 0 {
                    lemma_deduped_last(was);
                }
                assert(text::texts(r@).len() == r@.len());
            }
            let n = r.len();
            let again = n > 0 && text::same_str(r[n - 1].as_str(), rc.image.as_str());
            proof {
                if n > 0 {
                    assert(text::texts(r@).last() == r@[n - 1]@);
                    assert(was.len() > 0);
                } else {
                    assert(was.len() == 0);
                    assert(now =~= seq![rc.image@]);
                }
            }
            if !again {
                text::push_text(&mut r, rc.image.clone());
            }
        } else {
            assert(now =~= was);
        }
    }
    assert(cfg.repos@.take(cfg.repos@.len() as int) =~= cfg.repos@);
    r
}

/// What came of looking at a runtime.
#[derive(Debug)]
pub struct RuntimeCheck {
    pub kind: RuntimeKind,
    /// Why it does not work.
    pub reason: Option<String>,
}

/// What came of asking for a repo's runners.
#[derive(Debug)]
pub struct RepoCheck {
    pub repo: String,
    pub runners: Result<usize, String>,
}

/// What the token gives access to.
#[derive(Debug)]
pub struct Access {
    pub remaining: String,
    pub limit: String,
    pub repos: Vec<RepoCheck>,
}

/// What came of looking for an image.
#[derive(Debug)]
pub struct ImageCheck {
    pub image: String,
    pub found: bool,
}

/// What came of looking at everything.
#[derive(Debug)]
pub struct Checkup {
    pub runtimes: Vec<RuntimeCheck>,
    pub access: Result<Access, String>,
    pub images: Vec<ImageCheck>,
}

pub open spec fn runtime_line() -> spec_fn(RuntimeCheck) -> Seq<char> {
    |c: RuntimeCheck|
        "runtime "@ + c.kind.spec_name() + ": "@ + match c.reason {
            Some(reason) => reason@,
            None => "ok"@,
        }
}

pub open spec fn repo_line() -> spec_fn(RepoCheck) -> Seq<char> {
    |c: RepoCheck|
        "repo "@ + c.repo@ + match c.runners {
            Ok(n) => ": ok ("@ + number::dec(n as nat) + " registered runner(s))"@,
            Err(e) => ": FAIL "@ + e@,
        }
}

pub open spec fn image_line() -> spec_fn(ImageCheck) -> Seq<char> {
    |c: ImageCheck|
        "image "@ + c.image@ + ": "@ + if c.found {
            "ok"@
        } else {
            "MISSING (homerunner build-image)"@
        }
}

/// What is said of the token, and of the repos where it is one.
pub open spec fn access_lines(access: Result<Access, String>) -> Seq<Seq<char>> {
    match access {
        Ok(a) => seq![
            "github token: ok ("@ + a.remaining@ + "/"@ + a.limit@ + " requests remaining)"@,
        ] + a.repos@.map_values(repo_line()),
        Err(e) => seq!["github token: FAIL "@ + e@],
    }
}

/// Nothing is amiss.
pub open spec fn healthy(c: Checkup) -> bool {
    &&& forall|i: int| 0 <= i < c.runtimes@.len() ==> (#[trigger] c.runtimes@[i]).reason is None
    &&& c.access matches Ok(a) && forall|i: int|
        0 <= i < a.repos@.len() ==> (#[trigger] a.repos@[i]).runners is Ok
    &&& forall|i: int| 0 <= i < c.images@.len() ==> (#[trigger] c.images@[i]).found
}

fn runtime_lines(checks: &Vec<RuntimeCheck>, out: &mut Vec<String>) -> (ok: bool)
    ensures
        text::texts(final(out)@) == text::texts(old(out)@) + checks@.map_values(runtime_line()),
        ok == forall|i: int| 0 <= i < checks@.len() ==> (#[trigger] checks@[i]).reason is None,
{
    let ghost was = text::texts(out@);
    let mut ok = true;
    assert(text::texts(out@) =~= was + checks@.take(0).map_values(runtime_line()));
    for i in 0..checks.len()
        invariant
            was == text::texts(old(out)@),
            text::texts(out@) == was + checks@.take(i as int).map_values(runtime_line()),
            ok == forall|k: int| 0 <= k < i ==> (#[trigger] checks@[k]).reason is None,
    {
        let c = &checks[i];
        let mut line = text::chain("runtime ", c.kind.name(), ": ");
        match &c.reason {
            Some(reason) => {
                line.append(reason.as_str());
                ok = false;
            },
            None => line.append("ok"),
        }
        text::push_text(out, line);
        assert(checks@.take(i + 1).map_values(runtime_line()) =~= checks@.take(
            i as int,
        ).map_values(runtime_line()).push(line@));
        assert(text::texts(out@) =~= was + checks@.take(i + 1).map_values(runtime_line()));
    }
    assert(checks@.take(checks@.len() as int) =~= checks@);
    ok
}

fn repo_lines(checks: &Vec<RepoCheck>, out: &mut Vec<String>) -> (ok: bool)
    ensures
        text::texts(final(out)@) == text::texts(old(out)@) + checks@.map_values(repo_line()),
        ok == forall|i: int| 0 <= i < checks@.len() ==> (#[trigger] checks@[i]).runners is Ok,
{
    let ghost was = text::texts(out@);
    let mut ok = true;
    assert(text::texts(out@) =~= was + checks@.take(0).map_values(repo_line()));
    for i in 0..checks.len()
        invariant
            was == text::texts(old(out)@),
            text::texts(out@) == was + checks@.take(i as int).map_values(repo_line()),
            ok == forall|k: int| 0 <= k < i ==> (#[trigger] checks@[k]).runners is Ok,
    {
        let c = &checks[i];
        let mut line = "repo ".to_string();
        line.append(c.repo.as_str());
        match &c.runners {
            Ok(n) => {
                let n = number::number_text(*n as u64);
                let rest = text::chain(": ok (", n.as_str(), " registered runner(s))");
                line.append(rest.as_str());
            },
            Err(e) => {
                let mut rest = ": FAIL ".to_string();
                rest.append(e.as_str());
                line.append(rest.as_str());
                ok = false;
            },
        }
        text::push_text(out, line);
        assert(checks@.take(i + 1).map_values(repo_line()) =~= checks@.take(i as int).map_values(
            repo_line(),
        ).push(line@));
        assert(text::texts(out@) =~= was + checks@.take(i + 1).map_values(repo_line()));
    }
    assert(checks@.take(checks@.len() as int) =~= checks@);
    ok
}

fn image_lines(checks: &Vec<ImageCheck>, out: &mut Vec<String>) -> (ok: bool)
    ensures
        text::texts(final(out)@) == text::texts(old(out)@) + checks@.map_values(image_line()),
        ok == forall|i: int| 0 <= i < checks@.len() ==> (#[trigger] checks@[i]).found,
{
    let ghost was = text::texts(out@);
    let mut ok = true;
    assert(text::texts(out@) =~= was + checks@.take(0).map_values(image_line()));
    for i in 0..checks.len()
        invariant
            was == text::texts(old(out)@),
            text::texts(out@) == was + checks@.take(i as int).map_values(image_line()),
            ok == forall|k: int| 0 <= k < i ==> (#[trigger] checks@[k]).found,
    {
        let c = &checks[i];
        let mut line = text::chain("image ", c.image.as_str(), ": ");
        if c.found {
            line.append("ok");
        } else {
            line.append("MISSING (homerunner build-image)");
            ok = false;
        }
        text::push_text(out, line);
        assert(checks@.take(i + 1).map_values(image_line()) =~= checks@.take(i as int).map_values(
            image_line(),
        ).push(line@));
        assert(text::texts(out@) =~= was + checks@.take(i + 1).map_values(image_line()));
    }
    assert(checks@.take(checks@.len() as int) =~= checks@);
    ok
}

/// What is said of a checkup, and whether nothing is amiss.
pub fn doctor(c: &Checkup) -> (r: (Vec<String>, bool))
    ensures
        text::texts(r.0@) == c.runtimes@.map_values(runtime_line()) + access_lines(c.access)
            + c.images@.map_values(image_line()),
        r.1 == healthy(*c),
{
    let mut out: Vec<String> = Vec::new();
    assert(text::texts(out@) =~= Seq::empty());
    let runtimes_ok = runtime_lines(&c.runtimes, &mut out);
    let ghost first = c.runtimes@.map_values(runtime_line());
    assert(text::texts(out@) =~= first);
    let access_ok = match &c.access {
        Ok(a) => {
            let line = text::chain5(
                "github token: ok (",
                a.remaining.as_str(),
                "/",
                a.limit.as_str(),
                " requests remaining)",
            );
            text::push_text(&mut out, line);
            let ok = repo_lines(&a.repos, &mut out);
            assert(text::texts(out@) =~= first + access_lines(c.access));
            ok
        },
        Err(e) => {
            let mut line = "github token: FAIL ".to_string();
            line.append(e.as_str());
            text::push_text(&mut out, line);
            assert(text::texts(out@) =~= first + access_lines(c.access));
            false
        },
    };
    let images_ok = image_lines(&c.images, &mut out);
    (out, runtimes_ok && access_ok && images_ok)
}

// -- the summary --------------------------------------------------------------------------------

/// What the dashboard tells of a repo; numbers as they are written in JSON.
#[derive(Debug)]
pub struct RepoStatus {
    pub repo: Option<String>,
    pub live: Option<String>,
    pub pool_size: Option<String>,
    pub runtime: Option<String>,
}

/// What the dashboard tells of a runner.
#[derive(Debug)]
pub struct RunnerStatus {
    pub name: Option<String>,
    pub state: Option<String>,
    pub job: Option<String>,
}

/// An optional text, else another.
pub open spec fn or_else(o: Option<String>, other: Seq<char>) -> Seq<char> {
    match o {
        Some(s) => s@,
        None => other,
    }
}

fn text_or<'a>(o: &'a Option<String>, other: &'a str) -> (r: &'a str)
    ensures
        r@ == or_else(*o, other@),
{
    match o {
        Some(s) => s.as_str(),
        None => other,
    }
}

/// The summary of a repo.
pub fn repo_status(s: &RepoStatus) -> (r: String)
    ensures
        r@ == or_else(s.repo, "?"@) + ": "@ + or_else(s.live, "null"@) + "/"@ + or_else(
            s.pool_size,
            "null"@,
        ) + " live ("@ + or_else(s.runtime, "?"@) + ")"@,
{
    let mut r = text::chain5(
        text_or(&s.repo, "?"),
        ": ",
        text_or(&s.live, "null"),
        "/",
        text_or(&s.pool_size, "null"),
    );
    r.append(" live (");
    r.append(text_or(&s.runtime, "?"));
    r.append(")");
    r
}

/// The summary of a runner.
pub fn runner_status(s: &RunnerStatus) -> (r: String)
    ensures
        ({
            let job = or_else(s.job, ""@);
            r@ == "  "@ + or_else(s.name, "?"@) + "  "@ + or_else(s.state, "?"@)
                + if job.len() == 0 {
                ""@
            } else {
                "  "@ + job
            }
        }),
{
    let mut r = text::chain5("  ", text_or(&s.name, "?"), "  ", text_or(&s.state, "?"), "");
    proof {
        reveal_strlit("");
    }
    let ghost head = "  "@ + or_else(s.name, "?"@) + "  "@ + or_else(s.state, "?"@);
    assert(r@ =~= head);
    let job = text_or(&s.job, "");
    if text::chars(job).len() > 0 {
        let mut rest = "  ".to_string();
        rest.append(job);
        r.append(rest.as_str());
    } else {
        assert(r@ =~= head + ""@);
    }
    r
}

/// The summary of a runtime that does not work.
pub fn degraded_status(name: &str, reason: &Option<String>) -> (r: String)
    ensures
        r@ == "DEGRADED "@ + name@ + ": "@ + or_else(*reason, "?"@),
{
    let mut r = text::chain("DEGRADED ", name, ": ");
    r.append(text_or(reason, "?"));
    r
}

/// `r` is what the dashboard tells of its repos.
pub open spec fn are_repos(r: Seq<RepoStatus>, body: Seq<char>) -> bool {
    let items = json::json_items(body, "/repos"@);
    &&& r.len() == items.len()
    &&& forall|i: int| 0 <= i < items.len() ==> is_repo(#[trigger] r[i], items[i])
}

pub open spec fn is_repo(r: RepoStatus, item: Seq<char>) -> bool {
    &&& text::opt_text(r.repo) == json::json_str(item, "/repo"@)
    &&& text::opt_text(r.live) == json::json_raw(item, "/live"@)
    &&& text::opt_text(r.pool_size) == json::json_raw(item, "/pool_size"@)
    &&& text::opt_text(r.runtime) == json::json_str(item, "/runtime"@)
}

/// What the dashboard tells of its repos.
pub fn status_repos(body: &str) -> (r: Vec<RepoStatus>)
    ensures
        are_repos(r@, body@),
{
    let items = json::items(body, "/repos");
    let ghost all = text::texts(items@);
    let mut r: Vec<RepoStatus> = Vec::new();
    for i in 0..items.len()
        invariant
            all == text::texts(items@),
            r@.len() == i,
            forall|k: int| 0 <= k < i ==> is_repo(#[trigger] r@[k], all[k]),
    {
        let item = items[i].as_str();
        assert(all[i as int] == item@);
        r.push(
            RepoStatus {
                repo: json::string(item, "/repo"),
                live: json::raw(item, "/live"),
                pool_size: json::raw(item, "/pool_size"),
                runtime: json::string(item, "/runtime"),
            },
        );
    }
    r
}

/// `r` is what the dashboard tells of its runners.
pub open spec fn are_runners(r: Seq<RunnerStatus>, body: Seq<char>) -> bool {
    let items = json::json_items(body, "/runners"@);
    &&& r.len() == items.len()
    &&& forall|i: int| 0 <= i < items.len() ==> is_runner(#[trigger] r[i], items[i])
}

pub open spec fn is_runner(r: RunnerStatus, item: Seq<char>) -> bool {
    &&& text::opt_text(r.name) == json::json_str(item, "/name"@)
    &&& text::opt_text(r.state) == json::json_str(item, "/state"@)
    &&& text::opt_text(r.job) == json::json_str(item, "/job/job_name"@)
}

/// What the dashboard tells of its runners.
pub fn status_runners(body: &str) -> (r: Vec<RunnerStatus>)
    ensures
        are_runners(r@, body@),
{
    let items = json::items(body, "/runners");
    let ghost all = text::texts(items@);
    let mut r: Vec<RunnerStatus> = Vec::new();
    for i in 0..items.len()
        invariant
            all == text::texts(items@),
            r@.len() == i,
            forall|k: int| 0 <= k < i ==> is_runner(#[trigger] r@[k], all[k]),
    {
        let item = items[i].as_str();
        assert(all[i as int] == item@);
        r.push(
            RunnerStatus {
                name: json::string(item, "/name"),
                state: json::string(item, "/state"),
                job: json::string(item, "/job/job_name"),
            },
        );
    }
    r
}

/// `r` is what the dashboard tells of a runtime that does not work: its name,
/// and why, if that is a text.
pub open spec fn is_degraded(r: (String, Option<String>), field: (Seq<char>, Seq<char>)) -> bool {
    &&& r.0@ == field.0
    &&& text::opt_text(r.1) == json::json_str(field.1, ""@)
}

/// What the dashboard tells of the runtimes that do not work.
pub fn status_degraded(body: &str) -> (r: Vec<(String, Option<String>)>)
    ensures
        ({
            let fields = json::json_fields(body@, "/degraded"@);
            &&& r@.len() == fields.len()
            &&& forall|i: int| 0 <= i < fields.len() ==> is_degraded(#[trigger] r@[i], fields[i])
        }),
{
    let fields = json::fields(body, "/degraded");
    let ghost all = json::pairs(fields@);
    let mut r: Vec<(String, Option<String>)> = Vec::new();
    for i in 0..fields.len()
        invariant
            all == json::pairs(fields@),
            r@.len() == i,
            forall|k: int| 0 <= k < i ==> is_degraded(#[trigger] r@[k], all[k]),
    {
        assert(all[i as int] == (fields@[i as int].0@, fields@[i as int].1@));
        let reason = json::string(fields[i].1.as_str(), "");
        r.push((fields[i].0.clone(), reason));
    }
    r
}

/// How many requests remain and how many there are in all, as the hourly budget
/// tells, in JSON.
pub fn rate_shown(core: &str) -> (r: (String, String))
    ensures
        r.0@ == json::raw_or_null(core@, "/remaining"@),
        r.1@ == json::raw_or_null(core@, "/limit"@),
{
    (json::notation(core, "/remaining"), json::notation(core, "/limit"))
}

} // verus!

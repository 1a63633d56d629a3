//! The machine that runners stand on: container commands, what they print, sizes,
//! and the log of the service.

use crate::binary;
use crate::cleanup;
use crate::config::RuntimeKind;
use crate::logging;
use crate::logging::{FileOp, RotatingLog};
use crate::number;
use crate::runtime;
use crate::runtime::SpawnSpec;
use crate::scheduler::Sample;
use crate::text;
use vstd::arithmetic::power;
use vstd::prelude::*;

verus! {

// -- commands ----------------------------------------------------------------------------

/// A command holds a flag that is followed by a value.
pub open spec fn has_option(argv: Seq<Seq<char>>, flag: Seq<char>, value: Seq<char>) -> bool {
    exists|i: int| 0 <= i < argv.len() - 1 && #[trigger] argv[i] == flag && argv[i + 1] == value
}

/// A runner is started in the background, under its name, with the labels by which
/// it is found again, its registration, the shared caches, the mirror exactly if one
/// is given, and its image at the end. Under Docker it is privileged; otherwise it
/// has a machine of a fixed size.
pub proof fn law_runners_start_with_their_labels_and_registration(
    kind: RuntimeKind,
    spec: SpawnSpec<'_>,
    r: Vec<String>,
)
    requires
        call_ensures(RuntimeKind::spawn_command, (kind, &spec), r),
    ensures
        ({
            let argv = text::texts(r@);
            let base: int = if kind == RuntimeKind::Docker {
                19
            } else {
                22
            };
            &&& argv.len() == base + if spec.registry_mirror is Some {
                2int
            } else {
                0
            }
            &&& argv[0] == if kind == RuntimeKind::Docker {
                "docker"@
            } else {
                "container"@
            }
            &&& argv[1] == "run"@
            &&& argv[2] == "-d"@
            &&& argv.last() == spec.image@
            &&& kind == RuntimeKind::Docker ==> argv.contains("--privileged"@)
            &&& kind != RuntimeKind::Docker ==> has_option(argv, "--cpus"@, "4"@) && has_option(
                argv,
                "--memory"@,
                "6g"@,
            )
            &&& has_option(argv, "--name"@, spec.runner_name@)
            &&& has_option(argv, "--label"@, "homerunner.managed=true"@)
            &&& has_option(argv, "--label"@, "homerunner.repo="@ + spec.repo@)
            &&& has_option(argv, "--label"@, "homerunner.runner="@ + spec.runner_name@)
            &&& has_option(argv, "-e"@, "HOMERUNNER_JIT_CONFIG="@ + spec.jit_config@)
            &&& has_option(argv, "-v"@, "homerunner-home-cache:/home/runner/.cache"@)
            &&& has_option(
                argv,
                "-v"@,
                "homerunner-pnpm-store:/home/runner/.local/share/pnpm/store"@,
            )
            &&& spec.registry_mirror is Some ==> has_option(
                argv,
                "-e"@,
                "REGISTRY_MIRROR="@ + spec.registry_mirror->0@,
            )
        }),
{
    let argv = text::texts(r@);
    assert(argv == kind.spawn_args(spec));
    reveal_strlit("homerunner.managed");
    reveal_strlit("homerunner.repo");
    reveal_strlit("homerunner.runner");
    reveal_strlit("=true");
    reveal_strlit("=");
    reveal_strlit(":");
    reveal_strlit("homerunner.managed=true");
    reveal_strlit("homerunner.repo=");
    reveal_strlit("homerunner.runner=");
    reveal_strlit("homerunner-home-cache");
    reveal_strlit("/home/runner/.cache");
    reveal_strlit("homerunner-pnpm-store");
    reveal_strlit("/home/runner/.local/share/pnpm/store");
    reveal_strlit("homerunner-home-cache:/home/runner/.cache");
    reveal_strlit("homerunner-pnpm-store:/home/runner/.local/share/pnpm/store");
    assert(runtime::MANAGED_LABEL@ + "=true"@ =~= "homerunner.managed=true"@);
    assert(runtime::REPO_LABEL@ + "="@ =~= "homerunner.repo="@);
    assert(runtime::RUNNER_LABEL@ + "="@ =~= "homerunner.runner="@);
    assert("homerunner-home-cache"@ + ":"@ + "/home/runner/.cache"@
        =~= "homerunner-home-cache:/home/runner/.cache"@);
    assert("homerunner-pnpm-store"@ + ":"@ + "/home/runner/.local/share/pnpm/store"@
        =~= "homerunner-pnpm-store:/home/runner/.local/share/pnpm/store"@);
    let k: int = if kind == RuntimeKind::Docker {
        4
    } else {
        7
    };
    assert(argv[3] == if kind == RuntimeKind::Docker {
        "--privileged"@
    } else {
        "--cpus"@
    });
    if kind != RuntimeKind::Docker {
        assert(argv[3] == "--cpus"@ && argv[4] == "4"@);
        assert(argv[5] == "--memory"@ && argv[6] == "6g"@);
    }
    assert(argv[k] == "--name"@ && argv[k + 1] == spec.runner_name@);
    assert(argv[k + 2] == "--label"@ && argv[k + 2 + 1] == "homerunner.managed=true"@);
    assert(argv[k + 4] == "--label"@ && argv[k + 4 + 1] == "homerunner.repo="@ + spec.repo@);
    assert(argv[k + 6] == "--label"@ && argv[k + 6 + 1] == "homerunner.runner="@
        + spec.runner_name@);
    assert(argv[k + 8] == "-e"@ && argv[k + 8 + 1] == "HOMERUNNER_JIT_CONFIG="@
        + spec.jit_config@);
    let m: int = if spec.registry_mirror is Some {
        k + 12
    } else {
        k + 10
    };
    if spec.registry_mirror is Some {
        assert(argv[k + 10] == "-e"@ && argv[k + 10 + 1] == "REGISTRY_MIRROR="@
            + spec.registry_mirror->0@);
    }
    assert(argv[m] == "-v"@ && argv[m + 1] == "homerunner-home-cache:/home/runner/.cache"@);
    assert(argv[m + 2] == "-v"@ && argv[m + 2 + 1]
        == "homerunner-pnpm-store:/home/runner/.local/share/pnpm/store"@);
}

/// A container is removed by force, under Docker with the volumes that are its own;
/// it is killed, followed, and what is in it copied out, by its name.
pub proof fn law_containers_are_handled_by_name(
    kind: RuntimeKind,
    name: &str,
    src: &str,
    dest: &str,
    removed: Vec<String>,
    killed: Vec<String>,
    followed: Vec<String>,
    copied: Vec<String>,
    awaited: Vec<String>,
    described: Vec<String>,
    cli: Seq<char>,
)
    requires
        call_ensures(RuntimeKind::remove_command, (kind, name), removed),
        call_ensures(RuntimeKind::kill_command, (kind, name), killed),
        call_ensures(RuntimeKind::logs_command, (kind, name), followed),
        call_ensures(RuntimeKind::copy_command, (kind, name, src, dest), copied),
        call_ensures(RuntimeKind::wait_command, (kind, name), awaited),
        call_ensures(RuntimeKind::inspect_command, (kind, name), described),
        cli == if kind == RuntimeKind::Docker {
            "docker"@
        } else {
            "container"@
        },
    ensures
        text::texts(removed@) == if kind == RuntimeKind::Docker {
            seq![cli, "rm"@, "-f"@, "-v"@, name@]
        } else {
            seq![cli, "rm"@, "-f"@, name@]
        },
        text::texts(killed@) == seq![cli, "kill"@, name@],
        text::texts(followed@) == seq![cli, "logs"@, "-f"@, name@],
        text::texts(copied@) == seq![cli, "cp"@, name@ + ":"@ + src@, dest@],
        text::texts(described@) == if kind == RuntimeKind::Docker {
            seq![cli, "inspect"@, "--format"@, "{{json .}}"@, name@]
        } else {
            seq![cli, "inspect"@, name@]
        },
        text::texts(awaited@) == if kind == RuntimeKind::Docker {
            seq![cli, "wait"@, name@]
        } else {
            seq![cli, "inspect"@, name@]
        },
{
}

/// Images are described, removed by force and built under their name.
pub proof fn law_images_are_handled_by_name(
    kind: RuntimeKind,
    image: &str,
    described: Vec<String>,
    removed: Vec<String>,
    built: Vec<String>,
    cli: Seq<char>,
)
    requires
        call_ensures(RuntimeKind::image_inspect_command, (kind, image), described),
        call_ensures(RuntimeKind::remove_image_command, (kind, image), removed),
        call_ensures(RuntimeKind::build_command, (kind, image), built),
        cli == if kind == RuntimeKind::Docker {
            "docker"@
        } else {
            "container"@
        },
    ensures
        text::texts(described@) == seq![cli, "image"@, "inspect"@, image@],
        text::texts(removed@) == seq![cli, "rmi"@, "-f"@, image@],
        text::texts(built@) == seq![cli, "build"@, "-t"@, image@, "."@],
{
}

/// All containers of homerunner are listed, those that have ended too.
pub proof fn law_ended_containers_are_listed_too(kind: RuntimeKind, r: Vec<String>)
    requires
        call_ensures(RuntimeKind::list_command, (kind,), r),
    ensures
        kind == RuntimeKind::Docker ==> text::texts(r@) == seq![
            "docker"@,
            "ps"@,
            "-a"@,
            "--filter"@,
            "label=homerunner.managed=true"@,
            "--format"@,
            "{{json .}}"@,
        ],
        kind == RuntimeKind::AppleContainer ==> text::texts(r@) == seq![
            "container"@,
            "ls"@,
            "-a"@,
            "--format"@,
            "json"@,
        ],
{
}

/// Only Docker keeps workspaces, lists them, tells of containers that were killed for
/// want of memory, and samples what containers take; it samples those that are asked
/// for, if any are.
pub proof fn law_only_docker_keeps_and_samples(
    kind: RuntimeKind,
    name: &str,
    tag: &str,
    names: Vec<String>,
    kept: Result<Vec<String>, &'static str>,
    listed: Option<Vec<String>>,
    oom: Option<Vec<String>>,
    stats: Option<Vec<String>>,
    i: int,
)
    requires
        call_ensures(RuntimeKind::commit_command, (kind, name, tag), kept),
        call_ensures(RuntimeKind::kept_images_command, (kind,), listed),
        call_ensures(RuntimeKind::oom_command, (kind, name), oom),
        call_ensures(RuntimeKind::stats_command, (kind, &names), stats),
        0 <= i < names@.len(),
    ensures
        kept is Ok <==> kind == RuntimeKind::Docker,
        kept is Err ==> (kept->Err_0)@ == "kept workspaces not supported on apple-container yet"@,
        kept is Ok ==> text::texts((kept->Ok_0)@) == seq![
            "docker"@,
            "commit"@,
            "-c"@,
            "LABEL homerunner.kept=true"@,
            "-c"@,
            "ENTRYPOINT [\"/bin/bash\"]"@,
            name@,
            tag@,
        ],
        listed is Some <==> kind == RuntimeKind::Docker,
        listed is Some ==> text::texts((listed->0)@) == seq![
            "docker"@,
            "image"@,
            "ls"@,
            "--filter"@,
            "label=homerunner.kept=true"@,
            "--format"@,
            "{{.Repository}}:{{.Tag}}"@,
        ],
        oom is Some <==> kind == RuntimeKind::Docker,
        oom is Some ==> text::texts((oom->0)@) == seq![
            "docker"@,
            "inspect"@,
            "--format"@,
            "{{.State.OOMKilled}}"@,
            name@,
        ],
        stats is Some <==> kind == RuntimeKind::Docker,
        stats is Some ==> {
            let argv = text::texts((stats->0)@);
            &&& argv.len() == names@.len() + 5
            &&& argv.take(5) == seq![
                "docker"@,
                "stats"@,
                "--no-stream"@,
                "--format"@,
                "{{json .}}"@,
            ]
            &&& argv[5 + i] == names@[i]@
        },
{
    if kind == RuntimeKind::Docker {
        let argv = text::texts((stats->0)@);
        assert(argv.take(5) =~= seq![
            "docker"@,
            "stats"@,
            "--no-stream"@,
            "--format"@,
            "{{json .}}"@,
        ]);
    }
}

/// Nothing is sampled where no container is asked for.
pub proof fn law_no_containers_are_not_sampled(
    kind: RuntimeKind,
    names: Vec<String>,
    stats: Option<Vec<String>>,
)
    requires
        call_ensures(RuntimeKind::stats_command, (kind, &names), stats),
        names@.len() == 0,
    ensures
        stats is None,
{
}

/// Docker is asked for its version; the other runtime works on one kind of machine
/// only. A runtime that fails is unavailable, for the reason it gave.
pub proof fn law_runtimes_are_tried_before_use(
    kind: RuntimeKind,
    aarch64: bool,
    outcome: Result<(), String>,
    tried: Result<Vec<String>, &'static str>,
    why: Option<String>,
)
    requires
        call_ensures(RuntimeKind::check_command, (kind, aarch64), tried),
        call_ensures(RuntimeKind::available, (kind, outcome), why),
    ensures
        tried is Err <==> kind == RuntimeKind::AppleContainer && !aarch64,
        tried is Err ==> (tried->Err_0)@ == "apple/container requires an Apple Silicon Mac"@,
        tried is Ok ==> text::texts((tried->Ok_0)@) == if kind == RuntimeKind::Docker {
            seq!["docker"@, "info"@, "--format"@, "{{.ServerVersion}}"@]
        } else {
            seq!["container"@, "system"@, "status"@]
        },
        why is None <==> outcome is Ok,
        why is Some ==> (why->0)@ == (if kind == RuntimeKind::Docker {
            "docker daemon unreachable: "@
        } else {
            "container system not running (`container system start`): "@
        }) + (outcome->Err_0)@,
{
}

/// A command that failed is reported by its first three words, if it has as many, and
/// by what it said, without the white space around that.
pub proof fn law_failures_tell_the_command_and_what_it_said(
    argv: Vec<String>,
    stderr: &str,
    said: Seq<char>,
    r: String,
)
    requires
        call_ensures(runtime::failure_text, (&argv, stderr), r),
        argv@.len() >= 3,
        stderr@ == said + "\n"@,
        said.len() > 0,
        !text::is_space(said[0]),
        !text::is_space(said.last()),
    ensures
        r@ == argv@[0]@ + " "@ + argv@[1]@ + " "@ + argv@[2]@ + " failed: "@ + said,
{
    reveal_strlit("\n");
    lemma_trim_one(said, '\n');
    assert("\n"@ =~= seq!['\n']);
    let all = text::texts(argv@);
    let head = all.take(3);
    assert(head.drop_last().drop_last() =~= seq![all[0]]);
    assert(text::join(seq![all[0]], " "@) == all[0]);
    assert(text::join(head.drop_last(), " "@) == all[0] + " "@ + all[1]);
}

proof fn lemma_trim_one(s: Seq<char>, c: char)
    requires
        s.len() > 0,
        !text::is_space(s[0]),
        !text::is_space(s.last()),
        text::is_space(c),
    ensures
        text::trim(s + seq![c]) == s,
        text::trim(s) == s,
{
    let t = s + seq![c];
    assert(t[0] == s[0]);
    assert(t.drop_last() =~= s);
    assert(text::trim_end(t) == text::trim_end(s));
}

// -- what is printed ---------------------------------------------------------------------

/// The number that `docker wait` prints is the exit code of a container, with or
/// without a minus sign; anything else counts as -1.
pub proof fn law_exit_codes_are_read(n: u32, out: &str, neg: &str, a: i64, b: i64)
    requires
        call_ensures(runtime::docker_exit_code, (out,), a),
        call_ensures(runtime::docker_exit_code, (neg,), b),
        out@ == number::dec(n as nat) + "\n"@,
        neg@ == seq!['-'] + number::dec(n as nat) + "\n"@,
    ensures
        a == n,
        b == -(n as int),
{
    reveal_strlit("\n");
    assert("\n"@ =~= seq!['\n']);
    let d = number::dec(n as nat);
    number::lemma_dec(n as nat);
    lemma_trim_one(d, '\n');
    let m = seq!['-'] + d;
    assert(m.last() == d.last());
    lemma_trim_one(m, '\n');
    assert(m.drop_first() =~= d);
}

/// A container that runs has no exit code yet; one that does not has the one that is
/// told, else -1.
pub proof fn law_running_containers_have_no_exit_code(
    status: Option<String>,
    code: Option<i64>,
    r: Option<i64>,
)
    requires
        call_ensures(runtime::exit_code, (&status, code), r),
    ensures
        r is None <==> status is Some && (status->0)@ == "running"@,
        r is Some && code is Some ==> r == code,
        r is Some && code is None ==> r == Some(-1i64),
{
}

/// A container was killed for want of memory exactly if Docker says `true`.
pub proof fn law_only_true_means_out_of_memory(out: &str, r: bool)
    requires
        call_ensures(runtime::oom_killed, (out,), r),
    ensures
        out@ == "true"@ || out@ == "true\n"@ ==> r,
        out@ == "false"@ || out@ == "false\n"@ ==> !r,
{
    reveal_strlit("true");
    reveal_strlit("true\n");
    reveal_strlit("false");
    reveal_strlit("false\n");
    lemma_trim_one("true"@, '\n');
    lemma_trim_one("false"@, '\n');
    assert("true\n"@ =~= "true"@ + seq!['\n']);
    assert("false\n"@ =~= "false"@ + seq!['\n']);
    assert("true"@[0] == 't');
    assert("false"@[0] == 'f');
}

/// A line of three fields lists a layer cache: its name, which is not empty, its repo
/// and its slot.
pub proof fn law_layer_caches_are_read(
    name: Seq<char>,
    repo: Seq<char>,
    slot: u32,
    line: &str,
    r: Option<(String, String, u32)>,
)
    requires
        call_ensures(runtime::listed_cache, (line,), r),
        line@ == name + seq!['\t'] + repo + seq!['\t'] + number::dec(slot as nat),
        !name.contains('\t'),
        !repo.contains('\t'),
    ensures
        r is Some <==> name.len() > 0,
        r is Some ==> ((r->0).0)@ == name && ((r->0).1)@ == repo && (r->0).2 == slot,
{
    let d = number::dec(slot as nat);
    number::lemma_dec(slot as nat);
    let b = repo + seq!['\t'] + d;
    assert(line@ =~= name.push('\t') + b);
    assert(b =~= repo.push('\t') + d);
    crate::laws::texts::lemma_split_step(name, '\t', b);
    crate::laws::texts::lemma_split_step(repo, '\t', d);
    assert(!d.contains('\t')) by {
        if d.contains('\t') {
            let i = choose|i: int| 0 <= i < d.len() && d[i] == '\t';
            assert('0' <= d[i] <= '9');
        }
    }
    text::lemma_index_of(d, '\t');
    assert(text::split(d, '\t') =~= seq![d]);
    assert(text::split(line@, '\t') =~= seq![name, repo, d]);
}

/// Lines that are tags without a name are passed over; the others are kept in order.
pub proof fn law_images_without_a_tag_are_passed_over(out: &str, r: Vec<String>, t: Seq<char>)
    requires
        call_ensures(runtime::kept_tags, (out,), r),
    ensures
        text::texts(r@).contains(t) <==> text::lines(out@).contains(t) && !(exists|a: Seq<char>|
            t == #[trigger] (a + ":<none>"@)),
{
    let all = text::lines(out@);
    let p = runtime::is_tagged();
    reveal_strlit(":<none>");
    let n = ":<none>"@;
    let kept = all.filter(p);
    assert(n.is_suffix_of(t) <==> exists|a: Seq<char>| t == #[trigger] (a + n)) by {
        if n.is_suffix_of(t) {
            let a = t.take(t.len() - n.len());
            assert(t =~= a + n);
        }
        if exists|a: Seq<char>| t == #[trigger] (a + n) {
            let a = choose|a: Seq<char>| t == #[trigger] (a + n);
            assert(t.subrange(t.len() - n.len(), t.len() as int) =~= n);
        }
    }
    if kept.contains(t) {
        all.lemma_filter_contains_rev(p, t);
        let i = choose|i: int| 0 <= i < kept.len() && kept[i] == t;
        all.lemma_filter_pred(p, i);
    }
    if all.contains(t) && p(t) {
        let i = choose|i: int| 0 <= i < all.len() && all[i] == t;
        all.lemma_filter_contains(p, i);
    }
}

// -- samples and sizes -------------------------------------------------------------------

/// A sample takes the place of the one before it of its name, else it comes last; the
/// samples of other names stay as they are.
pub proof fn law_samples_replace_their_namesakes(
    samples: &mut Vec<Sample>,
    s: Sample,
    r: (),
    i: int,
)
    requires
        call_ensures(runtime::add_sample, (samples, s), r),
        0 <= i < old(samples)@.len(),
        forall|a: int, b: int|
            0 <= a < b < old(samples)@.len() ==> (#[trigger] old(samples)@[a]).name@ != (
            #[trigger] old(samples)@[b]).name@,
    ensures
        old(samples)@[i].name@ == s.name@ ==> final(samples)@[i] == s && final(samples)@.len()
            == old(samples)@.len(),
        old(samples)@[i].name@ != s.name@ ==> final(samples)@[i] == old(samples)@[i],
        (forall|a: int| 0 <= a < old(samples)@.len() ==> (#[trigger] old(samples)@[a]).name@
            != s.name@) ==> final(samples)@ == old(samples)@.push(s),
        final(samples)@.contains(s),
{
    let before = old(samples)@;
    let k = runtime::sample_index(before, s.name@);
    lemma_sample_index_is(before, s.name@);
    if k < before.len() {
        assert(before.update(k, s)[k] == s);
    } else {
        assert(before.push(s)[before.len() as int] == s);
    }
}

proof fn lemma_sample_index_is(samples: Seq<Sample>, name: Seq<char>)
    ensures
        ({
            let k = runtime::sample_index(samples, name);
            &&& 0 <= k <= samples.len()
            &&& k < samples.len() ==> samples[k].name@ == name
            &&& forall|i: int| 0 <= i < k ==> (#[trigger] samples[i]).name@ != name
        }),
    decreases samples.len(),
{
    if samples.len() > 0 && samples[0].name@ != name {
        let rest = samples.drop_first();
        lemma_sample_index_is(rest, name);
        let k = runtime::sample_index(samples, name);
        assert forall|i: int| 0 <= i < k implies (#[trigger] samples[i]).name@ != name by {
            if i > 0 {
                assert(rest[i - 1] == samples[i]);
            }
        }
    }
}

/// A whole share is taken as it is written, without its percent sign; what is no number
/// counts as 0, and so does what is not told. What is used of the memory stands before
/// the slash.
pub proof fn law_samples_hold_what_is_told(
    name: Option<String>,
    cpu: Option<String>,
    mem: Option<String>,
    n: nat,
    used: &str,
    limit: Seq<char>,
    bytes: u64,
    r: Sample,
)
    requires
        call_ensures(runtime::sample, (name, cpu, mem), r),
        call_ensures(runtime::parse_mem_bytes, (used,), bytes),
        !used@.contains('/'),
    ensures
        name is Some ==> r.name@ == (name->0)@,
        name is None ==> r.name@ == ""@,
        cpu is Some && (cpu->0)@ == number::dec(n) + "%"@ ==> r.cpu@ == number::dec(n),
        cpu is Some && (cpu->0)@ == number::dec(n) + ".5%"@ ==> r.cpu@ == number::dec(n) + ".5"@,
        cpu is Some && (cpu->0)@ == "--"@ ==> r.cpu@ == "0"@,
        cpu is None ==> r.cpu@ == "0"@,
        mem is None ==> r.mem_bytes == 0,
        mem is Some && (mem->0)@ == used@ + "/"@ + limit ==> r.mem_bytes == bytes,
        mem is Some && (mem->0)@ == used@ ==> r.mem_bytes == bytes,
{
    reveal_strlit("");
    reveal_strlit("%");
    reveal_strlit(".5%");
    reveal_strlit(".5");
    reveal_strlit("--");
    reveal_strlit("/");
    reveal_strlit("inf");
    reveal_strlit("infinity");
    reveal_strlit("nan");
    let d = number::dec(n);
    number::lemma_dec(n);
    if cpu is Some {
        let s = (cpu->0)@;
        if s == d + "%"@ {
            assert(s.last() == '%');
            assert(s.drop_last() =~= d);
            assert('0' <= d.last() <= '9');
            lemma_digits_are_numbers(d, Seq::empty());
            assert(d + Seq::<char>::empty() =~= d);
            assert(runtime::without_percent(d) == d);
            assert(runtime::without_percent(s) == runtime::without_percent(s.drop_last()));
        }
        if s == d + ".5%"@ {
            let h = d + ".5"@;
            assert(s.last() == '%');
            assert(s.drop_last() =~= h);
            assert(h.last() == '5');
            assert(runtime::without_percent(h) == h);
            assert(runtime::without_percent(s) == runtime::without_percent(s.drop_last()));
            assert(".5"@ =~= seq!['.', '5']);
            lemma_digits_are_numbers(d, ".5"@);
        }
        if s == "--"@ {
            assert(s.last() == '-');
            assert(runtime::without_percent(s) == s);
            let l = text::lower(s);
            text::lemma_index_of(l, 'e');
            assert(l =~= seq!['-', '-']);
            assert(s.drop_first() =~= seq!['-']);
            assert(text::lower(seq!['-']).len() == 1);
            assert(s.take(2) =~= s);
            assert(runtime::decimal(s) is None) by {
                let body = s.drop_first();
                text::lemma_index_of(body, '.');
                assert(body[0] == '-');
                let k = text::index_of(body, '.');
                assert(k == 1);
                assert(body.take(1)[0] == '-');
            }
        }
    }
    if mem is Some {
        let s = (mem->0)@;
        text::lemma_index_of(s, '/');
        let k = text::index_of(s, '/');
        if s == used@ + "/"@ + limit {
            assert(s[used@.len() as int] == '/');
            assert(k == used@.len()) by {
                if k < used@.len() {
                    assert(used@[k] == '/');
                }
            }
            assert(s.take(k) =~= used@);
        }
        if s == used@ {
            assert(s.take(k) =~= used@);
        }
    }
}

proof fn lemma_digits_are_numbers(d: Seq<char>, tail: Seq<char>)
    requires
        number::is_digits(d),
        tail.len() == 0 || tail == seq!['.', '5'],
    ensures
        runtime::is_number(d + tail),
{
    let s = d + tail;
    let l = text::lower(s);
    text::lemma_index_of(l, 'e');
    assert forall|i: int| 0 <= i < s.len() implies #[trigger] s[i] == '.' || '0' <= s[i]
        <= '9' by {
        if i < d.len() {
            assert('0' <= d[i] <= '9');
        }
    }
    assert(!l.contains('e')) by {
        if l.contains('e') {
            let i = choose|i: int| 0 <= i < l.len() && l[i] == 'e';
            assert(s[i] == '.' || '0' <= s[i] <= '9');
        }
    }
    assert(s.take(s.len() as int) =~= s);
    assert('0' <= d[0] <= '9' && s[0] == d[0]);
    text::lemma_index_of(s, '.');
    let k = text::index_of(s, '.');
    if tail.len() == 0 {
        if s.contains('.') {
            assert('0' <= d[k] <= '9');
        }
        assert(s.take(k) =~= d);
    } else {
        assert(s[d.len() as int] == '.');
        if k < d.len() {
            assert('0' <= d[k] <= '9');
        }
        assert(s.take(k) =~= d);
        assert(s.skip(k + 1) =~= seq!['5']);
    }
}

/// A whole number of bytes reads as that number, whether or not the unit is written;
/// of kilobytes, megabytes and gigabytes it reads as so many powers of two.
pub proof fn law_whole_sizes_are_multiples_of_their_unit(
    n: u64,
    s: &str,
    unit: Seq<char>,
    factor: u64,
    r: u64,
)
    requires
        call_ensures(runtime::parse_mem_bytes, (s,), r),
        s@ == number::dec(n as nat) + unit,
        n < 0x20_0000_0000_0000,
        n * factor <= u64::MAX,
        ((unit == "B"@ || unit == ""@) && factor == 1) || ((unit == "KiB"@ || unit == "kB"@
            || unit == "KB"@) && factor == 1_024) || ((unit == "MiB"@ || unit == "MB"@) && factor
            == 1_048_576) || ((unit == "GiB"@ || unit == "GB"@) && factor == 1_073_741_824),
    ensures
        r == n * factor,
{
    reveal_strlit("");
    reveal_strlit("B");
    reveal_strlit("KiB");
    reveal_strlit("kB");
    reveal_strlit("KB");
    reveal_strlit("MiB");
    reveal_strlit("MB");
    reveal_strlit("GiB");
    reveal_strlit("GB");
    let d = number::dec(n as nat);
    number::lemma_dec(n as nat);
    let t = s@;
    assert(unit.len() <= 3);
    assert(unit.len() > 0 ==> unit.last() == 'B');
    assert(unit.len() > 0 ==> 'a' <= unit[0] <= 'z' || 'A' <= unit[0] <= 'Z');
    assert(t[0] == d[0] && '0' <= d[0] <= '9');
    assert(unit.len() == 0 ==> t =~= d);
    assert(t.last() == if unit.len() > 0 {
        'B'
    } else {
        d.last()
    });
    assert(text::trim(t) == t);
    assert forall|i: int| 0 <= i < d.len() implies !('a' <= #[trigger] t[i] <= 'z') && !('A'
        <= t[i] <= 'Z') by {
        assert('0' <= d[i] <= '9');
    }
    runtime::lemma_first_letter(t, d.len() as int);
    assert(t.take(d.len() as int) =~= d);
    assert(t.skip(d.len() as int) =~= unit);
    assert(text::trim(unit) == unit);
    text::lemma_index_of(d, '.');
    assert(!d.contains('.')) by {
        if d.contains('.') {
            let i = choose|i: int| 0 <= i < d.len() && d[i] == '.';
            assert('0' <= d[i] <= '9');
        }
    }
    assert(d.take(d.len() as int) =~= d);
    assert(runtime::unit_bytes(unit) == factor) by {
        assert(unit.len() == 3 ==> unit != "kB"@ && unit != "KB"@);
        assert("KiB"@[0] == 'K' && "kB"@[0] == 'k' && "KB"@[0] == 'K');
        assert("MiB"@[0] == 'M' && "MB"@[0] == 'M' && "GiB"@[0] == 'G' && "GB"@[0] == 'G');
    }
    lemma_whole_product(d, n as nat, factor as nat);
}

proof fn lemma_whole_product(d: Seq<char>, n: nat, factor: nat)
    requires
        number::value(d) == n,
        n < 0x20_0000_0000_0000,
    ensures
        binary::decimal_product(d, Seq::empty(), factor) == n * factor,
{
    reveal(power::pow);
    assert(power::pow(10, 0) == 1);
    assert(number::value(Seq::<char>::empty()) == 0);
    assert(n * 1 + 0 == n);
    let places = binary::binary_places(n, 1);
    let p = power::pow(2, places) as nat;
    power::lemma_pow_positive(2, places);
    assert(n / 1 == n);
    let m = n * p;
    assert(m % 1 == 0 && m / 1 == m);
    assert(binary::rounded(m, 1) == m);
    assert((m * factor) / p == n * factor) by (nonlinear_arith)
        requires
            m == n * p,
            p > 0,
    {
        assert(m * factor == (n * factor) * p);
        vstd::arithmetic::div_mod::lemma_div_multiples_vanish((n * factor) as int, p as int);
        assert((n * factor) * p == p * (n * factor));
    }
}

/// Sizes below a kilobyte are written as bytes; larger ones, in the largest unit of
/// which they hold one, to the nearest tenth.
pub proof fn law_sizes_are_written_to_the_nearest_tenth(n: u64, unit: u64, name: Seq<char>, r: String)
    requires
        call_ensures(cleanup::human_bytes, (n,), r),
        n < 0x20_0000_0000_0000,
        (n < 1_048_576 && unit == 1_024 && name == " KiB"@) || (1_048_576 <= n < 1_073_741_824
            && unit == 1_048_576 && name == " MiB"@) || (1_073_741_824 <= n && unit
            == 1_073_741_824 && name == " GiB"@),
    ensures
        n < 1_024 ==> r@ == number::dec(n as nat) + " B"@,
        n >= 1_024 ==> exists|t: nat|
            r@ == #[trigger] number::dec(t / 10) + "."@ + number::dec(t % 10) + name && 2 * (t
                * unit - 10 * n) <= unit && 2 * (10 * n - t * unit) <= unit,
{
    if n >= 1_024 {
        let m = 10 * n as nat;
        assert((n as nat) % 1 == 0 && (n as nat) / 1 == n);
        assert(binary::spacing(n as nat) == 1);
        assert(binary::rounded(n as nat, 1) == n);
        let gap = binary::spacing(n as nat);
        let near = binary::rounded(n as nat, gap);
        assert(near * gap == near) by (nonlinear_arith)
            requires
                gap == 1,
        ;
        assert(binary::nearest(n as nat) == n);
        let t = binary::rounded(m, unit as nat);
        let q = m / (unit as nat);
        let rest = m % (unit as nat);
        vstd::arithmetic::div_mod::lemma_fundamental_div_mod(m as int, unit as int);
        assert(m == unit * q + rest);
        assert((q + 1) * unit == unit * q + unit) by (nonlinear_arith);
        assert(q * unit == unit * q) by (nonlinear_arith);
        assert(r@ == number::dec(t / 10) + "."@ + number::dec(t % 10) + name);
    }
}

// -- the log of the service --------------------------------------------------------------

/// Nothing is moved where a line and its end still fit; where they do not, every file
/// moves one slot further, the one in the last slot is dropped, and the log is empty.
/// A log without a limit of its own is begun anew for every line.
pub proof fn law_logs_rotate_when_a_line_does_not_fit(
    log: RotatingLog,
    current: u64,
    line_bytes: u64,
    present: Vec<bool>,
    r: Vec<FileOp>,
    files: Seq<Option<Seq<u8>>>,
    i: int,
)
    requires
        call_ensures(RotatingLog::write_line, (&log, current, line_bytes, &present), r),
        present@.len() == log.backups + 1,
        files.len() == present@.len(),
        forall|j: int| 0 <= j < files.len() ==> #[trigger] present@[j] == (files[j] is Some),
        files[0] is Some ==> (files[0]->0).len() == current,
        files[0] is None ==> current == 0,
        current + line_bytes + 1 <= u64::MAX,
        0 <= i < files.len(),
    ensures
        log.max_bytes > 0 && current + line_bytes + 1 <= log.max_bytes ==> r@.len() == 0,
        log.max_bytes == 0 || current + line_bytes + 1 > log.max_bytes ==> {
            let after = logging::all_done(files, r@);
            &&& after.len() == files.len()
            &&& i == 0 ==> after[i] is None
            &&& i > 0 ==> after[i] == files[i - 1]
        },
{
    assert(logging::shows(present@, files));
    assert(logging::bytes_of(files[0]).len() == current);
    assert(log.makes_room(current as nat, line_bytes as nat, present@, r@));
    if log.max_bytes == 0 || current + line_bytes + 1 > log.max_bytes {
        assert(log.is_full(current as nat, line_bytes as nat));
        assert(log.made_room(files, line_bytes as nat) == logging::rotated(files));
        assert(logging::all_done(files, r@) == logging::rotated(files));
        let none: Seq<Option<Seq<u8>>> = seq![None];
        assert(logging::rotated(files) == none + files.drop_last());
        assert(logging::rotated(files).len() == files.len());
    }
}

/// What a file operation does: a removal empties its slot; a shift moves what is in its
/// slot to the next and empties it. All other slots stay as they are.
pub proof fn law_file_operations(files: Seq<Option<Seq<u8>>>, slot: u32, i: int)
    requires
        slot + 1 < files.len(),
        0 <= i < files.len(),
    ensures
        ({
            let gone = logging::all_done(files, seq![FileOp::Remove { slot }]);
            let moved = logging::all_done(files, seq![FileOp::Shift { slot }]);
            &&& gone[slot as int] is None
            &&& i != slot ==> gone[i] == files[i]
            &&& moved[slot as int] is None
            &&& moved[slot + 1] == files[slot as int]
            &&& i != slot && i != slot + 1 ==> moved[i] == files[i]
        }),
{
    let a = seq![FileOp::Remove { slot }];
    let b = seq![FileOp::Shift { slot }];
    assert(a.drop_last() =~= Seq::<FileOp>::empty());
    assert(b.drop_last() =~= Seq::<FileOp>::empty());
    assert(logging::all_done(files, a.drop_last()) == files);
    assert(logging::all_done(files, b.drop_last()) == files);
}

/// The log itself is at its path; a backup is at that path with a dot and its number.
pub proof fn law_backups_are_numbered(log: RotatingLog, slot: u32, r: String, b: String)
    requires
        call_ensures(RotatingLog::slot_path, (&log, slot), r),
        call_ensures(RotatingLog::backup_path, (&log, slot), b),
    ensures
        slot == 0 ==> r@ == log.path@,
        slot > 0 ==> r@ == b@,
        b@ == log.path@ + "."@ + number::dec(slot as nat),
{
}

/// The service has a log of its own exactly if a path is given. A limit that is a
/// number counts; without one the log holds ten mebibytes, and three backups are kept.
pub proof fn law_the_log_of_the_service(
    path: Option<&str>,
    max_bytes: Option<&str>,
    backups: Option<&str>,
    m: u64,
    b: u32,
    r: Option<RotatingLog>,
)
    requires
        call_ensures(logging::from_environment, (path, max_bytes, backups), r),
    ensures
        r is Some <==> path is Some,
        r is Some ==> (r->0).path@ == (path->0)@,
        r is Some && max_bytes is None ==> (r->0).max_bytes == 10 * 1_048_576,
        r is Some && backups is None ==> (r->0).backups == 3,
        r is Some && max_bytes is Some && (max_bytes->0)@ == number::dec(m as nat) ==> (
        r->0).max_bytes == m,
        r is Some && backups is Some && (backups->0)@ == number::dec(b as nat) ==> (r->0).backups
            == b,
{
    number::lemma_dec(m as nat);
    number::lemma_dec(b as nat);
}

} // verus!

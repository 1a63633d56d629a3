//! Container runtimes: the commands that drive them, and what their output
//! says. Containers are labelled, so that any homerunner process finds its own
//! again after a crash. Only caches that are safe to use at the same time are
//! shared as named volumes.

use crate::binary;
use crate::config::RuntimeKind;
use crate::json;
use crate::number;
use crate::order;
use crate::scheduler::Sample;
use crate::text;
use vstd::prelude::*;

verus! {

pub const MANAGED_LABEL: &'static str = "homerunner.managed";

pub const REPO_LABEL: &'static str = "homerunner.repo";

pub const RUNNER_LABEL: &'static str = "homerunner.runner";

/// A container that homerunner manages.
#[derive(Debug)]
pub struct ManagedContainer {
    pub container_id: String,
    pub runner_name: String,
    pub repo: String,
    pub running: bool,
}

/// A failed job's workspace, kept as an image.
#[derive(Debug, PartialEq, Eq)]
pub struct KeptImage {
    pub tag: String,
    pub size_bytes: u64,
}

/// A volume that keeps build layers for one concurrency slot of a repo.
#[derive(Debug, PartialEq, Eq)]
pub struct DockerCacheVolume {
    pub name: String,
    pub repo: String,
    pub slot: u32,
    pub in_use: bool,
}

/// A runner to start.
#[derive(Debug)]
pub struct SpawnSpec<'a> {
    pub runner_name: &'a str,
    pub repo: &'a str,
    pub image: &'a str,
    pub jit_config: &'a str,
    pub registry_mirror: Option<&'a str>,
}

// -- sizes --------------------------------------------------------------------------

/// A number in decimal notation: whether it is negative, the digits before the
/// point and those after it.
pub ghost struct Decimal {
    pub negative: bool,
    pub whole: Seq<char>,
    pub fraction: Seq<char>,
}

/// A text without letters as a number: digits around at most one point, with at
/// least one digit, and at most one sign before them.
pub open spec fn decimal(s: Seq<char>) -> Option<Decimal> {
    let signed = s.len() > 0 && (s[0] == '-' || s[0] == '+');
    let body = if signed {
        s.drop_first()
    } else {
        s
    };
    let point = text::index_of(body, '.');
    let whole = body.take(point);
    let fraction = if point < body.len() {
        body.skip(point + 1)
    } else {
        Seq::empty()
    };
    if number::only_digits(whole) && number::only_digits(fraction) && whole.len() + fraction.len() > 0 {
        Some(Decimal { negative: s[0] == '-', whole, fraction })
    } else {
        None
    }
}

/// The first letter of a text, or its length.
pub open spec fn first_letter(s: Seq<char>) -> int
    decreases s.len(),
{
    if s.len() == 0 || 'a' <= s[0] <= 'z' || 'A' <= s[0] <= 'Z' {
        0
    } else {
        1 + first_letter(s.drop_first())
    }
}

/// How many bytes a unit stands for.
pub open spec fn unit_bytes(unit: Seq<char>) -> nat {
    if unit == "KiB"@ || unit == "kB"@ || unit == "KB"@ {
        0x400
    } else if unit == "MiB"@ || unit == "MB"@ {
        0x10_0000
    } else if unit == "GiB"@ || unit == "GB"@ {
        0x4000_0000
    } else {
        1
    }
}

/// The bytes that a size such as "1.5GiB" denotes, its number read to 53
/// significant bits, rounded down; what is no size, or negative, denotes none, and
/// what is too large the most there can be.
pub open spec fn mem_bytes(s: Seq<char>) -> int {
    let t = text::trim(s);
    let k = first_letter(t);
    match decimal(t.take(k)) {
        None => 0,
        Some(d) => {
            let mult = unit_bytes(text::trim(t.skip(k)));
            let n = binary::decimal_product(d.whole, d.fraction, mult);
            if d.negative {
                0
            } else if n > u64::MAX {
                u64::MAX as int
            } else {
                n as int
            }
        },
    }
}

pub(crate) proof fn lemma_first_letter(s: Seq<char>, k: int)
    requires
        0 <= k <= s.len(),
        forall|i: int|
            0 <= i < k ==> !('a' <= #[trigger] s[i] <= 'z') && !('A' <= s[i] <= 'Z'),
        k < s.len() ==> 'a' <= s[k] <= 'z' || 'A' <= s[k] <= 'Z',
    ensures
        first_letter(s) == k,
    decreases s.len(),
{
    if k > 0 {
        assert(s[0] == s[0]);
        assert forall|i: int| 0 <= i < k - 1 implies !('a' <= #[trigger] s.drop_first()[i] <= 'z')
            && !('A' <= s.drop_first()[i] <= 'Z') by {
            assert(s.drop_first()[i] == s[i + 1]);
        }
        lemma_first_letter(s.drop_first(), k - 1);
    }
}

fn digits_only(s: &[char]) -> (r: bool)
    ensures
        r == number::only_digits(s@),
{
    for i in 0..s.len()
        invariant
            forall|k: int| 0 <= k < i ==> '0' <= #[trigger] s@[k] <= '9',
    {
        if !('0' <= s[i] && s[i] <= '9') {
            assert(!('0' <= s@[i as int] <= '9'));
            return false;
        }
    }
    true
}

/// A number in decimal notation: whether it is negative, the digits before the
/// point and those after it.
fn parts(s: &[char]) -> (r: Option<(bool, &[char], &[char])>)
    ensures
        match (r, decimal(s@)) {
            (None, None) => true,
            (Some(p), Some(d)) => (Decimal { negative: p.0, whole: p.1@, fraction: p.2@ }) == d,
            _ => false,
        },
{
    let negative = s.len() > 0 && s[0] == '-';
    let signed = negative || (s.len() > 0 && s[0] == '+');
    let body = if signed {
        vstd::slice::slice_subrange(s, 1, s.len())
    } else {
        s
    };
    assert(signed ==> body@ =~= s@.drop_first());
    let point = text::index_from(body, '.', 0);
    assert(body@.skip(0) =~= body@);
    proof {
        text::lemma_index_of(body@, '.');
    }
    let whole = vstd::slice::slice_subrange(body, 0, point);
    assert(whole@ =~= body@.take(point as int));
    let fraction = if point < body.len() {
        vstd::slice::slice_subrange(body, point + 1, body.len())
    } else {
        vstd::slice::slice_subrange(body, body.len(), body.len())
    };
    assert(point < body@.len() ==> fraction@ =~= body@.skip(point + 1));
    assert(point >= body@.len() ==> fraction@ =~= Seq::<char>::empty());
    if !digits_only(whole) || !digits_only(fraction) || (whole.len() == 0 && fraction.len() == 0) {
        return None;
    }
    Some((negative, whole, fraction))
}

fn unit_size(unit: &[char]) -> (r: u64)
    ensures
        r == unit_bytes(unit@),
        1 <= r <= 0x4000_0000,
{
    let u = text::string(unit);
    let u = u.as_str();
    if text::same_str(u, "KiB") || text::same_str(u, "kB") || text::same_str(u, "KB") {
        0x400
    } else if text::same_str(u, "MiB") || text::same_str(u, "MB") {
        0x10_0000
    } else if text::same_str(u, "GiB") || text::same_str(u, "GB") {
        0x4000_0000
    } else {
        1
    }
}

/// The bytes that a size such as "1.5GiB", "512MiB" or "3.2MB" denotes.
pub fn parse_mem_bytes(s: &str) -> (r: u64)
    ensures
        r == mem_bytes(s@),
{
    let all = text::chars(s);
    let t = text::trimmed(&all);
    let mut k: usize = 0;
    while k < t.len() && !('a' <= t[k] && t[k] <= 'z') && !('A' <= t[k] && t[k] <= 'Z')
        invariant
            k <= t@.len(),
            forall|i: int|
                0 <= i < k ==> !('a' <= #[trigger] t@[i] <= 'z') && !('A' <= t@[i] <= 'Z'),
        decreases t@.len() - k,
    {
        k = k + 1;
    }
    proof {
        lemma_first_letter(t@, k as int);
    }
    let tail = vstd::slice::slice_subrange(t, k, t.len());
    assert(tail@ =~= t@.skip(k as int));
    let mult = unit_size(text::trimmed(tail));
    let head = vstd::slice::slice_subrange(t, 0, k);
    assert(head@ =~= t@.take(k as int));
    match parts(head) {
        Some((negative, whole, fraction)) => if negative {
            0
        } else {
            binary::times(whole, fraction, mult)
        },
        None => 0,
    }
}

// -- commands ---------------------------------------------------------------------------

/// The shared caches: each a volume and where it is mounted.
pub open spec fn cache_volumes() -> Seq<(Seq<char>, Seq<char>)> {
    seq![
        ("homerunner-home-cache"@, "/home/runner/.cache"@),
        ("homerunner-pnpm-store"@, "/home/runner/.local/share/pnpm/store"@),
    ]
}

impl RuntimeKind {
    pub open spec fn spec_cli(self) -> Seq<char> {
        match self {
            RuntimeKind::Docker => "docker"@,
            RuntimeKind::AppleContainer => "container"@,
        }
    }

    /// The command that drives the runtime.
    pub fn cli(self) -> (r: &'static str)
        ensures
            r@ == self.spec_cli(),
    {
        match self {
            RuntimeKind::Docker => "docker",
            RuntimeKind::AppleContainer => "container",
        }
    }

    /// What a runner's container may do and take: a privileged one, or a
    /// machine with enough memory for a job.
    pub open spec fn size_args(self) -> Seq<Seq<char>> {
        match self {
            RuntimeKind::Docker => seq!["--privileged"@],
            RuntimeKind::AppleContainer => seq!["--cpus"@, "4"@, "--memory"@, "6g"@],
        }
    }

    /// The command that starts a runner.
    pub open spec fn spawn_args(self, spec: SpawnSpec<'_>) -> Seq<Seq<char>> {
        seq![self.spec_cli(), "run"@, "-d"@] + self.size_args() + seq![
            "--name"@,
            spec.runner_name@,
            "--label"@,
            MANAGED_LABEL@ + "=true"@,
            "--label"@,
            REPO_LABEL@ + "="@ + spec.repo@,
            "--label"@,
            RUNNER_LABEL@ + "="@ + spec.runner_name@,
            "-e"@,
            "HOMERUNNER_JIT_CONFIG="@ + spec.jit_config@,
        ] + (match spec.registry_mirror {
            Some(m) => seq!["-e"@, "REGISTRY_MIRROR="@ + m@],
            None => Seq::empty(),
        }) + seq![
            "-v"@,
            cache_volumes()[0].0 + ":"@ + cache_volumes()[0].1,
            "-v"@,
            cache_volumes()[1].0 + ":"@ + cache_volumes()[1].1,
            spec.image@,
        ]
    }

    /// The command that starts a runner.
    pub fn spawn_command(self, spec: &SpawnSpec<'_>) -> (r: Vec<String>)
        ensures
            text::texts(r@) == self.spawn_args(*spec),
    {
        let mut argv: Vec<String> = Vec::new();
        argv.push(self.cli().to_string());
        argv.push("run".to_string());
        argv.push("-d".to_string());
        match self {
            RuntimeKind::Docker => {
                argv.push("--privileged".to_string());
            },
            RuntimeKind::AppleContainer => {
                argv.push("--cpus".to_string());
                argv.push("4".to_string());
                argv.push("--memory".to_string());
                argv.push("6g".to_string());
            },
        }
        assert(text::texts(argv@) =~= seq![self.spec_cli(), "run"@, "-d"@] + self.size_args());
        let ghost head = text::texts(argv@);
        let ghost base = argv@;
        argv.push("--name".to_string());
        argv.push(spec.runner_name.to_string());
        argv.push("--label".to_string());
        argv.push(text::chain(MANAGED_LABEL, "=true", ""));
        argv.push("--label".to_string());
        argv.push(text::chain(REPO_LABEL, "=", spec.repo));
        argv.push("--label".to_string());
        argv.push(text::chain(RUNNER_LABEL, "=", spec.runner_name));
        argv.push("-e".to_string());
        argv.push(text::chain("HOMERUNNER_JIT_CONFIG=", spec.jit_config, ""));
        proof {
            reveal_strlit("");
            assert(MANAGED_LABEL@ + "=true"@ + ""@ =~= MANAGED_LABEL@ + "=true"@);
            assert("HOMERUNNER_JIT_CONFIG="@ + spec.jit_config@ + ""@ =~= "HOMERUNNER_JIT_CONFIG="@
                + spec.jit_config@);
        }
        assert(text::texts(argv@) =~= head + seq![
            "--name"@,
            spec.runner_name@,
            "--label"@,
            MANAGED_LABEL@ + "=true"@,
            "--label"@,
            REPO_LABEL@ + "="@ + spec.repo@,
            "--label"@,
            RUNNER_LABEL@ + "="@ + spec.runner_name@,
            "-e"@,
            "HOMERUNNER_JIT_CONFIG="@ + spec.jit_config@,
        ]);
        if let Some(mirror) = spec.registry_mirror {
            argv.push("-e".to_string());
            argv.push(text::chain("REGISTRY_MIRROR=", mirror, ""));
            assert("REGISTRY_MIRROR="@ + mirror@ + ""@ =~= "REGISTRY_MIRROR="@ + mirror@);
        }
        let ghost middle = text::texts(argv@);
        argv.push("-v".to_string());
        argv.push(text::chain("homerunner-home-cache", ":", "/home/runner/.cache"));
        argv.push("-v".to_string());
        argv.push(text::chain("homerunner-pnpm-store", ":", "/home/runner/.local/share/pnpm/store"));
        argv.push(spec.image.to_string());
        assert(text::texts(argv@) =~= self.spawn_args(*spec));
        argv
    }
}

/// A command's words, as they are.
fn command(words: &Vec<&str>) -> (r: Vec<String>)
    ensures
        text::texts(r@) == words@.map_values(|w: &str| w@),
{
    let mut r: Vec<String> = Vec::new();
    for i in 0..words.len()
        invariant
            r@.len() == i,
            forall|k: int| 0 <= k < i ==> (#[trigger] r@[k])@ == words@[k]@,
    {
        r.push(words[i].to_string());
    }
    assert(text::texts(r@) =~= words@.map_values(|w: &str| w@));
    r
}

impl RuntimeKind {
    /// The command that tells whether the runtime works.
    pub open spec fn check_args(self) -> Seq<Seq<char>> {
        match self {
            RuntimeKind::Docker => seq!["docker"@, "info"@, "--format"@, "{{.ServerVersion}}"@],
            RuntimeKind::AppleContainer => seq!["container"@, "system"@, "status"@],
        }
    }

    /// The command that tells whether the runtime works, or why it cannot on
    /// this machine.
    pub fn check_command(self, aarch64: bool) -> (r: Result<Vec<String>, &'static str>)
        ensures
            match r {
                Ok(argv) => (self == RuntimeKind::Docker || aarch64) && text::texts(argv@)
                    == self.check_args(),
                Err(e) => self == RuntimeKind::AppleContainer && !aarch64 && e@
                    == "apple/container requires an Apple Silicon Mac"@,
            },
    {
        match self {
            RuntimeKind::Docker => {
                let argv = command(&vec!["docker", "info", "--format", "{{.ServerVersion}}"]);
                assert(text::texts(argv@) =~= self.check_args());
                Ok(argv)
            },
            RuntimeKind::AppleContainer => {
                if !aarch64 {
                    return Err("apple/container requires an Apple Silicon Mac");
                }
                let argv = command(&vec!["container", "system", "status"]);
                assert(text::texts(argv@) =~= self.check_args());
                Ok(argv)
            },
        }
    }

    /// Whether the runtime works, from what came of the command that tells: why
    /// it does not, if it does not.
    pub fn available(self, outcome: Result<(), String>) -> (r: Option<String>)
        ensures
            match outcome {
                Ok(_) => r is None,
                Err(e) => r matches Some(reason) && reason@ == (match self {
                    RuntimeKind::Docker => "docker daemon unreachable: "@,
                    RuntimeKind::AppleContainer =>
                        "container system not running (`container system start`): "@,
                }) + e@,
            },
    {
        match outcome {
            Ok(_) => None,
            Err(e) => {
                let mut reason = match self {
                    RuntimeKind::Docker => "docker daemon unreachable: ".to_string(),
                    RuntimeKind::AppleContainer =>
                        "container system not running (`container system start`): ".to_string(),
                };
                reason.append(e.as_str());
                Some(reason)
            },
        }
    }

    /// The command that lists the containers of this program.
    pub open spec fn list_args(self) -> Seq<Seq<char>> {
        match self {
            RuntimeKind::Docker => seq![
                "docker"@,
                "ps"@,
                "-a"@,
                "--filter"@,
                "label=homerunner.managed=true"@,
                "--format"@,
                "{{json .}}"@,
            ],
            RuntimeKind::AppleContainer => seq![
                "container"@,
                "ls"@,
                "-a"@,
                "--format"@,
                "json"@,
            ],
        }
    }

    pub fn list_command(self) -> (r: Vec<String>)
        ensures
            text::texts(r@) == self.list_args(),
    {
        let argv = match self {
            RuntimeKind::Docker => command(
                &vec![
                    "docker",
                    "ps",
                    "-a",
                    "--filter",
                    "label=homerunner.managed=true",
                    "--format",
                    "{{json .}}",
                ],
            ),
            RuntimeKind::AppleContainer => command(
                &vec!["container", "ls", "-a", "--format", "json"],
            ),
        };
        assert(text::texts(argv@) =~= self.list_args());
        argv
    }

    /// The command that describes a container.
    pub open spec fn inspect_args(self, container: Seq<char>) -> Seq<Seq<char>> {
        match self {
            RuntimeKind::Docker => seq![
                "docker"@,
                "inspect"@,
                "--format"@,
                "{{json .}}"@,
                container,
            ],
            RuntimeKind::AppleContainer => seq!["container"@, "inspect"@, container],
        }
    }

    pub fn inspect_command(self, container: &str) -> (r: Vec<String>)
        ensures
            text::texts(r@) == self.inspect_args(container@),
    {
        let argv = match self {
            RuntimeKind::Docker => command(
                &vec!["docker", "inspect", "--format", "{{json .}}", container],
            ),
            RuntimeKind::AppleContainer => command(&vec!["container", "inspect", container]),
        };
        assert(text::texts(argv@) =~= self.inspect_args(container@));
        argv
    }

    /// The command that waits for a container to end; a runtime without one is
    /// asked to describe the container again and again.
    pub fn wait_command(self, container: &str) -> (r: Vec<String>)
        ensures
            text::texts(r@) == match self {
                RuntimeKind::Docker => seq!["docker"@, "wait"@, container@],
                RuntimeKind::AppleContainer => self.inspect_args(container@),
            },
    {
        match self {
            RuntimeKind::Docker => {
                let argv = command(&vec!["docker", "wait", container]);
                assert(text::texts(argv@) =~= seq!["docker"@, "wait"@, container@]);
                argv
            },
            RuntimeKind::AppleContainer => self.inspect_command(container),
        }
    }

    /// The command that follows a container's output.
    pub fn logs_command(self, container: &str) -> (r: Vec<String>)
        ensures
            text::texts(r@) == seq![self.spec_cli(), "logs"@, "-f"@, container@],
    {
        let argv = command(&vec![self.cli(), "logs", "-f", container]);
        assert(text::texts(argv@) =~= seq![self.spec_cli(), "logs"@, "-f"@, container@]);
        argv
    }

    /// The command that copies something out of a container.
    pub fn copy_command(self, container: &str, src: &str, dest: &str) -> (r: Vec<String>)
        ensures
            text::texts(r@) == seq![
                self.spec_cli(),
                "cp"@,
                container@ + ":"@ + src@,
                dest@,
            ],
    {
        let from = text::chain(container, ":", src);
        let argv = command(&vec![self.cli(), "cp", from.as_str(), dest]);
        assert(text::texts(argv@) =~= seq![
            self.spec_cli(),
            "cp"@,
            container@ + ":"@ + src@,
            dest@,
        ]);
        argv
    }

    /// The command that tells whether a container was killed for want of memory,
    /// if the runtime has one.
    pub fn oom_command(self, container: &str) -> (r: Option<Vec<String>>)
        ensures
            match r {
                Some(argv) => self == RuntimeKind::Docker && text::texts(argv@) == seq![
                    "docker"@,
                    "inspect"@,
                    "--format"@,
                    "{{.State.OOMKilled}}"@,
                    container@,
                ],
                None => self != RuntimeKind::Docker,
            },
    {
        match self {
            RuntimeKind::Docker => {
                let argv = command(
                    &vec!["docker", "inspect", "--format", "{{.State.OOMKilled}}", container],
                );
                assert(text::texts(argv@) =~= seq![
                    "docker"@,
                    "inspect"@,
                    "--format"@,
                    "{{.State.OOMKilled}}"@,
                    container@,
                ]);
                Some(argv)
            },
            RuntimeKind::AppleContainer => None,
        }
    }

    /// The command that lists the kept images, if the runtime has one.
    pub fn kept_images_command(self) -> (r: Option<Vec<String>>)
        ensures
            match r {
                Some(argv) => self == RuntimeKind::Docker && text::texts(argv@) == seq![
                    "docker"@,
                    "image"@,
                    "ls"@,
                    "--filter"@,
                    "label=homerunner.kept=true"@,
                    "--format"@,
                    "{{.Repository}}:{{.Tag}}"@,
                ],
                None => self != RuntimeKind::Docker,
            },
    {
        match self {
            RuntimeKind::Docker => {
                let argv = command(
                    &vec![
                        "docker",
                        "image",
                        "ls",
                        "--filter",
                        "label=homerunner.kept=true",
                        "--format",
                        "{{.Repository}}:{{.Tag}}",
                    ],
                );
                assert(text::texts(argv@) =~= seq![
                    "docker"@,
                    "image"@,
                    "ls"@,
                    "--filter"@,
                    "label=homerunner.kept=true"@,
                    "--format"@,
                    "{{.Repository}}:{{.Tag}}"@,
                ]);
                Some(argv)
            },
            RuntimeKind::AppleContainer => None,
        }
    }

    /// The command that describes an image.
    pub fn image_inspect_command(self, image: &str) -> (r: Vec<String>)
        ensures
            text::texts(r@) == seq![self.spec_cli(), "image"@, "inspect"@, image@],
    {
        let argv = command(&vec![self.cli(), "image", "inspect", image]);
        assert(text::texts(argv@) =~= seq![self.spec_cli(), "image"@, "inspect"@, image@]);
        argv
    }

    /// The command that removes an image.
    pub fn remove_image_command(self, tag: &str) -> (r: Vec<String>)
        ensures
            text::texts(r@) == seq![self.spec_cli(), "rmi"@, "-f"@, tag@],
    {
        let argv = command(&vec![self.cli(), "rmi", "-f", tag]);
        assert(text::texts(argv@) =~= seq![self.spec_cli(), "rmi"@, "-f"@, tag@]);
        argv
    }

    /// The command that kills a container.
    pub fn kill_command(self, container: &str) -> (r: Vec<String>)
        ensures
            text::texts(r@) == seq![self.spec_cli(), "kill"@, container@],
    {
        let argv = command(&vec![self.cli(), "kill", container]);
        assert(text::texts(argv@) =~= seq![self.spec_cli(), "kill"@, container@]);
        argv
    }

    /// The command that builds an image from the files in the current directory.
    pub fn build_command(self, image: &str) -> (r: Vec<String>)
        ensures
            text::texts(r@) == seq![self.spec_cli(), "build"@, "-t"@, image@, "."@],
    {
        let argv = command(&vec![self.cli(), "build", "-t", image, "."]);
        assert(text::texts(argv@) =~= seq![self.spec_cli(), "build"@, "-t"@, image@, "."@]);
        argv
    }
}

/// The first three words of a command, at most.
pub open spec fn command_head(argv: Seq<Seq<char>>) -> Seq<Seq<char>> {
    argv.take(
        if argv.len() < 3 {
            argv.len() as int
        } else {
            3
        },
    )
}

/// How a command that failed is reported: how it begins, and what it said.
pub fn failure_text(argv: &Vec<String>, stderr: &str) -> (r: String)
    ensures
        r@ == text::join(command_head(text::texts(argv@)), " "@) + " failed: "@ + text::trim(
            stderr@,
        ),
{
    let mut head: Vec<String> = Vec::new();
    let mut i: usize = 0;
    while i < argv.len() && i < 3
        invariant
            i <= argv@.len(),
            i <= 3,
            text::texts(head@) =~= text::texts(argv@).take(i as int),
        decreases argv@.len() - i,
    {
        text::push_text(&mut head, argv[i].clone());
        assert(text::texts(argv@).take(i + 1) =~= text::texts(argv@).take(i as int).push(
            argv@[i as int]@,
        ));
        i = i + 1;
    }
    assert(text::texts(argv@).take(i as int) =~= command_head(text::texts(argv@)));
    let mut r = text::join_strings(&head, " ");
    r.append(" failed: ");
    let said = text::chars(stderr);
    let said = text::string(text::trimmed(&said));
    r.append(said.as_str());
    r
}

/// Why a workspace is not kept: the runtime cannot.
pub open spec fn cannot_keep() -> Seq<char> {
    "kept workspaces not supported on apple-container yet"@
}

impl RuntimeKind {
    /// The command that keeps the filesystem of a container as an image.
    pub open spec fn commit_args(self, container: Seq<char>, tag: Seq<char>) -> Option<
        Seq<Seq<char>>,
    > {
        match self {
            RuntimeKind::Docker => Some(
                seq![
                    "docker"@,
                    "commit"@,
                    "-c"@,
                    "LABEL homerunner.kept=true"@,
                    "-c"@,
                    "ENTRYPOINT [\"/bin/bash\"]"@,
                    container,
                    tag,
                ],
            ),
            RuntimeKind::AppleContainer => None,
        }
    }

    /// The command that keeps the filesystem of a container as an image, or why
    /// there is none.
    pub fn commit_command(self, container: &str, tag: &str) -> (r: Result<Vec<String>, &'static str>)
        ensures
            match r {
                Ok(argv) => self.commit_args(container@, tag@) == Some(text::texts(argv@)),
                Err(e) => self.commit_args(container@, tag@) is None && e@ == cannot_keep(),
            },
    {
        match self {
            RuntimeKind::Docker => {
                let mut argv: Vec<String> = Vec::new();
                argv.push("docker".to_string());
                argv.push("commit".to_string());
                argv.push("-c".to_string());
                argv.push("LABEL homerunner.kept=true".to_string());
                argv.push("-c".to_string());
                argv.push("ENTRYPOINT [\"/bin/bash\"]".to_string());
                argv.push(container.to_string());
                argv.push(tag.to_string());
                assert(text::texts(argv@) =~= self.commit_args(container@, tag@)->0);
                Ok(argv)
            },
            RuntimeKind::AppleContainer => Err(
                "kept workspaces not supported on apple-container yet",
            ),
        }
    }

    /// The command that removes a container, with the volumes that are its own.
    pub open spec fn remove_args(self, container: Seq<char>) -> Seq<Seq<char>> {
        match self {
            RuntimeKind::Docker => seq!["docker"@, "rm"@, "-f"@, "-v"@, container],
            RuntimeKind::AppleContainer => seq!["container"@, "rm"@, "-f"@, container],
        }
    }

    pub fn remove_command(self, container: &str) -> (r: Vec<String>)
        ensures
            text::texts(r@) == self.remove_args(container@),
    {
        let mut argv: Vec<String> = Vec::new();
        argv.push(self.cli().to_string());
        argv.push("rm".to_string());
        argv.push("-f".to_string());
        if let RuntimeKind::Docker = self {
            argv.push("-v".to_string());
        }
        argv.push(container.to_string());
        assert(text::texts(argv@) =~= self.remove_args(container@));
        argv
    }

    /// The command that samples what containers take; there is none for no
    /// containers, nor for a runtime other than Docker.
    pub open spec fn stats_args(self, names: Seq<Seq<char>>) -> Option<Seq<Seq<char>>> {
        if names.len() == 0 || self != RuntimeKind::Docker {
            None
        } else {
            Some(
                seq!["docker"@, "stats"@, "--no-stream"@, "--format"@, "{{json .}}"@] + names,
            )
        }
    }

    pub fn stats_command(self, names: &Vec<String>) -> (r: Option<Vec<String>>)
        ensures
            match r {
                Some(argv) => self.stats_args(text::texts(names@)) == Some(text::texts(argv@)),
                None => self.stats_args(text::texts(names@)) is None,
            },
    {
        if names.len() == 0 || self != RuntimeKind::Docker {
            return None;
        }
        let mut argv: Vec<String> = Vec::new();
        argv.push("docker".to_string());
        argv.push("stats".to_string());
        argv.push("--no-stream".to_string());
        argv.push("--format".to_string());
        argv.push("{{json .}}".to_string());
        let ghost head = seq!["docker"@, "stats"@, "--no-stream"@, "--format"@, "{{json .}}"@];
        let ghost all = text::texts(names@);
        assert(text::texts(argv@) =~= head + all.take(0));
        for i in 0..names.len()
            invariant
                all == text::texts(names@),
                text::texts(argv@) =~= head + all.take(i as int),
        {
            text::push_text(&mut argv, names[i].clone());
            assert(all.take(i + 1) =~= all.take(i as int).push(names@[i as int]@));
        }
        assert(all.take(all.len() as int) =~= all);
        Some(argv)
    }
}

// -- output ----------------------------------------------------------------------------

/// A runtime's output is not what it should be.
#[derive(Debug, PartialEq)]
pub enum OutputError {
    /// It is no JSON document, for this reason.
    NotJson(String),
}

impl OutputError {
    pub open spec fn spec_message(self) -> Seq<char> {
        match self {
            OutputError::NotJson(reason) => reason@,
        }
    }

    pub fn message(&self) -> (r: String)
        ensures
            r@ == self.spec_message(),
    {
        match self {
            OutputError::NotJson(reason) => reason.clone(),
        }
    }
}

/// A string that may be missing, else the empty one.
pub open spec fn or_empty(o: Option<Seq<char>>) -> Seq<char> {
    match o {
        Some(s) => s,
        None => ""@,
    }
}

/// `c` is a container with the labels that it has.
pub open spec fn is_container(
    c: ManagedContainer,
    id: Seq<char>,
    runner: Option<Seq<char>>,
    repo: Option<Seq<char>>,
    running: bool,
) -> bool {
    &&& c.container_id@ == id
    &&& c.runner_name@ == or_empty(runner)
    &&& c.repo@ == or_empty(repo)
    &&& c.running == running
}

fn string_or(o: Option<String>) -> (r: String)
    ensures
        r@ == or_empty(text::opt_text(o)),
{
    match o {
        Some(s) => s,
        None => "".to_string(),
    }
}

/// A container with the labels that it has; a label that is missing is empty.
pub fn labelled(
    id: &str,
    runner: Option<String>,
    repo: Option<String>,
    running: bool,
) -> (r: ManagedContainer)
    ensures
        is_container(r, id@, text::opt_text(runner), text::opt_text(repo), running),
{
    ManagedContainer {
        container_id: id.to_string(),
        runner_name: string_or(runner),
        repo: string_or(repo),
        running,
    }
}

/// The container that a line of `docker ps` is about.
pub fn docker_container_id(row: &str) -> (r: Result<String, OutputError>)
    ensures
        match r {
            Ok(id) => json::json_valid(row@) && id@ == json::str_or_empty(row@, "/ID"@),
            Err(e) => json::json_error(row@) == Some(e.spec_message()),
        },
{
    if let Some(reason) = json::error(row) {
        return Err(OutputError::NotJson(reason));
    }
    Ok(json::string_or_empty(row, "/ID"))
}

/// A container, from what `docker inspect` says of it.
pub fn docker_container(id: &str, inspect: &str) -> (r: Result<ManagedContainer, OutputError>)
    ensures
        ({
            let doc = text::trim(inspect@);
            match r {
                Ok(c) => json::json_valid(doc) && is_container(
                    c,
                    id@,
                    json::json_str(doc, "/Config/Labels/homerunner.runner"@),
                    json::json_str(doc, "/Config/Labels/homerunner.repo"@),
                    json::is_true(doc, "/State/Running"@),
                ),
                Err(e) => json::json_error(doc) == Some(e.spec_message()),
            }
        }),
{
    let all = text::chars(inspect);
    let doc = text::string(text::trimmed(&all));
    if let Some(reason) = json::error(doc.as_str()) {
        return Err(OutputError::NotJson(reason));
    }
    Ok(
        labelled(
            id,
            json::string(doc.as_str(), "/Config/Labels/homerunner.runner"),
            json::string(doc.as_str(), "/Config/Labels/homerunner.repo"),
            json::truth(doc.as_str(), "/State/Running"),
        ),
    )
}

/// `c` is what an item of `container ls` says of a container.
pub open spec fn is_listed(c: ManagedContainer, row: Seq<char>) -> bool {
    is_container(
        c,
        json::str_or_empty(row, "/id"@),
        json::json_str(row, "/labels/homerunner.runner"@),
        json::json_str(row, "/labels/homerunner.repo"@),
        json::json_str(row, "/status"@) == Some("running"@),
    )
}

/// The items of `container ls` that homerunner manages.
pub open spec fn is_managed() -> spec_fn(Seq<char>) -> bool {
    |row: Seq<char>| json::json_str(row, "/labels/homerunner.managed"@) == Some("true"@)
}

/// The containers that homerunner manages, from what `container ls` says.
pub fn apple_containers(out: &str) -> (r: Vec<ManagedContainer>)
    ensures
        ({
            let rows = json::json_items(out@, ""@).filter(is_managed());
            &&& r@.len() == rows.len()
            &&& forall|i: int| 0 <= i < rows.len() ==> is_listed(#[trigger] r@[i], rows[i])
        }),
{
    let rows = json::items(out, "");
    let ghost all = text::texts(rows@);
    let ghost p = is_managed();
    let mut r: Vec<ManagedContainer> = Vec::new();
    for i in 0..rows.len()
        invariant
            all == text::texts(rows@),
            p == is_managed(),
            r@.len() == all.take(i as int).filter(p).len(),
            forall|k: int|
                0 <= k < r@.len() ==> is_listed(
                    #[trigger] r@[k],
                    all.take(i as int).filter(p)[k],
                ),
    {
        proof {
            order::lemma_filter_step(all, p, i as int);
        }
        let row = rows[i].as_str();
        assert(all[i as int] == row@);
        if text::holds(&json::string(row, "/labels/homerunner.managed"), "true") {
            let id = json::string_or_empty(row, "/id");
            let c = labelled(
                id.as_str(),
                json::string(row, "/labels/homerunner.runner"),
                json::string(row, "/labels/homerunner.repo"),
                text::holds(&json::string(row, "/status"), "running"),
            );
            r.push(c);
        }
    }
    assert(all.take(all.len() as int) =~= all);
    r
}

/// The exit code that `docker wait` says, else -1.
pub fn docker_exit_code(out: &str) -> (r: i64)
    ensures
        r == match number::signed(text::trim(out@)) {
            Some(n) => n,
            None => -1,
        },
{
    let all = text::chars(out);
    match number::parse_i64(text::trimmed(&all)) {
        Some(n) => n,
        None => -1,
    }
}

/// The exit code of a container that no longer runs, else -1; none of one that
/// still does.
pub open spec fn exit_of(status: Option<Seq<char>>, code: Option<int>) -> Option<int> {
    if status == Some("running"@) {
        None
    } else {
        Some(
            match code {
                Some(n) => n,
                None => -1,
            },
        )
    }
}

/// The exit code of a container of a status, if it no longer runs.
pub fn exit_code(status: &Option<String>, code: Option<i64>) -> (r: Option<i64>)
    ensures
        match (
            r,
            exit_of(
                text::opt_text(*status),
                match code {
                    Some(n) => Some(n as int),
                    None => None,
                },
            ),
        ) {
            (Some(a), Some(b)) => a == b,
            (None, None) => true,
            _ => false,
        },
{
    if text::holds(status, "running") {
        return None;
    }
    match code {
        Some(n) => Some(n),
        None => Some(-1),
    }
}

/// Where in what `container inspect` says a container is described: in the
/// first item, or at the top.
pub open spec fn described_at(out: Seq<char>, key: Seq<char>) -> Seq<char> {
    if json::json_items(out, ""@).len() > 0 {
        "/0/"@ + key
    } else {
        "/"@ + key
    }
}

/// The exit code of a container, from what `container inspect` says, if it no
/// longer runs.
pub fn apple_exit_code(out: &str) -> (r: Option<i64>)
    ensures
        match (
            r,
            exit_of(
                json::json_str(out@, described_at(out@, "status"@)),
                json::int_at(out@, described_at(out@, "exitCode"@)),
            ),
        ) {
            (Some(a), Some(b)) => a == b,
            (None, None) => true,
            _ => false,
        },
{
    let rows = json::items(out, "");
    assert(text::texts(rows@).len() == rows@.len());
    let prefix = if rows.len() > 0 {
        "/0/"
    } else {
        "/"
    };
    proof {
        reveal_strlit("");
    }
    let status_at = text::chain(prefix, "status", "");
    let code_at = text::chain(prefix, "exitCode", "");
    assert(status_at@ =~= described_at(out@, "status"@));
    assert(code_at@ =~= described_at(out@, "exitCode"@));
    let status = json::string(out, status_at.as_str());
    let code = json::integer(out, code_at.as_str());
    exit_code(&status, code)
}

/// A text without the percent signs at its end.
pub open spec fn without_percent(s: Seq<char>) -> Seq<char>
    decreases s.len(),
{
    if s.len() > 0 && s.last() == '%' {
        without_percent(s.drop_last())
    } else {
        s
    }
}

/// Where the exponent of a number begins, or its length.
pub open spec fn exponent_at(s: Seq<char>) -> int {
    text::index_of(text::lower(s), 'e')
}

/// A text without the sign that it may begin with.
pub open spec fn without_sign(s: Seq<char>) -> Seq<char> {
    if s.len() > 0 && (s[0] == '-' || s[0] == '+') {
        s.drop_first()
    } else {
        s
    }
}

/// An exponent: digits, with at most one sign before them.
pub open spec fn is_exponent(s: Seq<char>) -> bool {
    without_sign(s).len() > 0 && number::only_digits(without_sign(s))
}

/// A text names what is no finite number, with at most one sign before it.
pub open spec fn is_named(s: Seq<char>) -> bool {
    let name = text::lower(without_sign(s));
    name == "inf"@ || name == "infinity"@ || name == "nan"@
}

/// A number as it is written in decimal notation, with or without an exponent,
/// or the name of what is no finite number.
pub open spec fn is_number(s: Seq<char>) -> bool {
    let k = exponent_at(s);
    is_named(s) || (decimal(s.take(k)) is Some && (k < s.len() ==> is_exponent(s.skip(k + 1))))
}

/// A share such as "12.34%", in percent, as it is written; what is no number
/// counts as 0.
pub open spec fn share(s: Seq<char>) -> Seq<char> {
    if is_number(without_percent(s)) {
        without_percent(s)
    } else {
        "0"@
    }
}

fn unsigned_part(s: &[char]) -> (r: &[char])
    ensures
        r@ == without_sign(s@),
{
    if s.len() > 0 && (s[0] == '-' || s[0] == '+') {
        let r = vstd::slice::slice_subrange(s, 1, s.len());
        assert(r@ =~= s@.drop_first());
        r
    } else {
        s
    }
}

fn names_number(s: &[char]) -> (r: bool)
    ensures
        r == is_named(s@),
{
    let name = text::string(&text::to_lower(unsigned_part(s)));
    text::same_str(name.as_str(), "inf") || text::same_str(name.as_str(), "infinity")
        || text::same_str(name.as_str(), "nan")
}

fn number_written(s: &[char]) -> (r: bool)
    ensures
        r == is_number(s@),
{
    if names_number(s) {
        return true;
    }
    let at = text::index_from(&text::to_lower(s), 'e', 0);
    assert(text::lower(s@).skip(0) =~= text::lower(s@));
    proof {
        text::lemma_index_of(text::lower(s@), 'e');
    }
    let mantissa = vstd::slice::slice_subrange(s, 0, at);
    assert(mantissa@ =~= s@.take(at as int));
    if parts(mantissa).is_none() {
        return false;
    }
    if at >= s.len() {
        return true;
    }
    let rest = vstd::slice::slice_subrange(s, at + 1, s.len());
    assert(rest@ =~= s@.skip(at + 1));
    let digits = unsigned_part(rest);
    digits.len() > 0 && digits_only(digits)
}

/// What stands before the first slash.
pub open spec fn before_slash(s: Seq<char>) -> Seq<char> {
    s.take(text::index_of(s, '/'))
}

/// `r` is what a container takes, from what `docker stats` says of it.
pub open spec fn is_sample(
    r: Sample,
    name: Option<Seq<char>>,
    cpu: Option<Seq<char>>,
    mem: Option<Seq<char>>,
) -> bool {
    &&& r.name@ == or_empty(name)
    &&& r.cpu@ == (match cpu {
        Some(s) => share(s),
        None => "0"@,
    })
    &&& r.mem_bytes == (match mem {
        Some(s) => mem_bytes(before_slash(s)),
        None => 0,
    })
}

/// A share such as "12.34%", in percent, as it is written.
fn share_text(s: &str) -> (r: String)
    ensures
        r@ == share(s@),
{
    let all = text::chars(s);
    let mut k = all.len();
    assert(all@.take(k as int) =~= all@);
    while k > 0 && all[k - 1] == '%'
        invariant
            k <= all@.len(),
            without_percent(all@) == without_percent(all@.take(k as int)),
        decreases k,
    {
        assert(all@.take(k as int).drop_last() =~= all@.take(k - 1));
        k = k - 1;
    }
    let t = vstd::slice::slice_subrange(&all, 0, k);
    assert(t@ =~= all@.take(k as int));
    if number_written(t) {
        text::string(t)
    } else {
        "0".to_string()
    }
}

/// What a container takes, from what `docker stats` says of it.
pub fn sample(name: Option<String>, cpu: Option<String>, mem: Option<String>) -> (r: Sample)
    ensures
        is_sample(r, text::opt_text(name), text::opt_text(cpu), text::opt_text(mem)),
{
    let cpu = match &cpu {
        Some(s) => share_text(s.as_str()),
        None => "0".to_string(),
    };
    let mem_bytes = match &mem {
        Some(s) => {
            let all = text::chars(s.as_str());
            let k = text::index_from(&all, '/', 0);
            assert(all@.skip(0) =~= all@);
            let used = text::string(vstd::slice::slice_subrange(&all, 0, k));
            assert(used@ =~= before_slash(s@));
            parse_mem_bytes(used.as_str())
        },
        None => 0,
    };
    Sample { name: string_or(name), cpu, mem_bytes }
}

/// The lines that are JSON documents.
pub open spec fn is_document() -> spec_fn(Seq<char>) -> bool {
    |line: Seq<char>| json::json_valid(line)
}

/// The first sample of a name, or how many samples there are.
pub open spec fn sample_index(samples: Seq<Sample>, name: Seq<char>) -> int
    decreases samples.len(),
{
    if samples.len() == 0 || samples[0].name@ == name {
        0
    } else {
        1 + sample_index(samples.drop_first(), name)
    }
}

/// The samples with one in the place of its namesake, or as the last.
pub open spec fn with_sample(samples: Seq<Sample>, s: Sample) -> Seq<Sample> {
    let i = sample_index(samples, s.name@);
    if i < samples.len() {
        samples.update(i, s)
    } else {
        samples.push(s)
    }
}

/// The latest sample of each name.
pub open spec fn latest(samples: Seq<Sample>) -> Seq<Sample>
    decreases samples.len(),
{
    if samples.len() == 0 {
        samples
    } else {
        with_sample(latest(samples.drop_last()), samples.last())
    }
}

proof fn lemma_sample_index(samples: Seq<Sample>, name: Seq<char>, k: int)
    requires
        0 <= k <= samples.len(),
        forall|i: int| 0 <= i < k ==> (#[trigger] samples[i]).name@ != name,
        k < samples.len() ==> samples[k].name@ == name,
    ensures
        sample_index(samples, name) == k,
    decreases samples.len(),
{
    if k > 0 {
        assert(samples[0].name@ != name);
        assert forall|i: int| 0 <= i < k - 1 implies (#[trigger] samples.drop_first()[i]).name@
            != name by {
            assert(samples.drop_first()[i] == samples[i + 1]);
        }
        lemma_sample_index(samples.drop_first(), name, k - 1);
    }
}

/// Takes up a sample, in the place of an earlier one of its name.
pub fn add_sample(samples: &mut Vec<Sample>, s: Sample)
    ensures
        final(samples)@ == with_sample(old(samples)@, s),
{
    let ghost before = samples@;
    let mut k: usize = 0;
    while k < samples.len() && !text::same_str(samples[k].name.as_str(), s.name.as_str())
        invariant
            before == samples@,
            k <= samples@.len(),
            forall|i: int| 0 <= i < k ==> (#[trigger] samples@[i]).name@ != s.name@,
        decreases samples@.len() - k,
    {
        k = k + 1;
    }
    proof {
        lemma_sample_index(before, s.name@, k as int);
    }
    if k < samples.len() {
        samples.set(k, s);
    } else {
        samples.push(s);
    }
}

/// `r` are the latest samples among what the rows of `docker stats` say.
pub open spec fn are_samples(r: Seq<Sample>, all: Seq<Sample>, rows: Seq<Seq<char>>) -> bool {
    &&& r == latest(all)
    &&& all.len() == rows.len()
    &&& forall|i: int|
        0 <= i < rows.len() ==> is_sample(
            #[trigger] all[i],
            json::json_str(rows[i], "/Name"@),
            json::json_str(rows[i], "/CPUPerc"@),
            json::json_str(rows[i], "/MemUsage"@),
        )
}

/// What containers take, from what `docker stats` says: one line for each,
/// where lines that are no documents are passed over, and the last counts where
/// there are several of one name.
pub fn docker_stats(out: &str) -> (r: Vec<Sample>)
    ensures
        exists|all: Seq<Sample>| #[trigger]
            are_samples(r@, all, text::lines(out@).filter(is_document())),
{
    let lines = text::to_lines(&text::chars(out));
    let ghost all = text::pieces(lines@);
    let ghost p = is_document();
    let mut r: Vec<Sample> = Vec::new();
    let ghost mut taken: Seq<Sample> = Seq::empty();
    proof {
        reveal(Seq::filter);
        assert(all.take(0) =~= Seq::empty());
    }
    for i in 0..lines.len()
        invariant
            all == text::pieces(lines@),
            p == is_document(),
            are_samples(r@, taken, all.take(i as int).filter(p)),
    {
        proof {
            order::lemma_filter_step(all, p, i as int);
        }
        let row = text::string(&lines[i]);
        assert(all[i as int] == row@);
        if json::valid(row.as_str()) {
            let s = sample(
                json::string(row.as_str(), "/Name"),
                json::string(row.as_str(), "/CPUPerc"),
                json::string(row.as_str(), "/MemUsage"),
            );
            let ghost before = taken;
            proof {
                taken = taken.push(s);
                assert(taken.drop_last() =~= before);
            }
            add_sample(&mut r, s);
            assert forall|k: int| 0 <= k < taken.len() implies is_sample(
                #[trigger] taken[k],
                json::json_str(all.take(i + 1).filter(p)[k], "/Name"@),
                json::json_str(all.take(i + 1).filter(p)[k], "/CPUPerc"@),
                json::json_str(all.take(i + 1).filter(p)[k], "/MemUsage"@),
            ) by {
                if k < before.len() {
                    assert(before[k] == taken[k]);
                }
            }
        }
    }
    assert(all.take(all.len() as int) =~= all);
    r
}

proof fn lemma_sample_bounds(samples: Seq<Sample>, name: Seq<char>)
    ensures
        0 <= sample_index(samples, name) <= samples.len(),
        sample_index(samples, name) < samples.len() ==> samples[sample_index(
            samples,
            name,
        )].name@ == name,
        forall|i: int|
            0 <= i < sample_index(samples, name) ==> (#[trigger] samples[i]).name@ != name,
    decreases samples.len(),
{
    if samples.len() > 0 && samples[0].name@ != name {
        lemma_sample_bounds(samples.drop_first(), name);
        assert forall|i: int| 0 <= i < sample_index(samples, name) implies (#[trigger] samples[
            i
        ]).name@ != name by {
            if i > 0 {
                assert(samples.drop_first()[i - 1] == samples[i]);
            }
        }
    }
}

/// Of several samples of one name only the last counts, and no name counts twice.
pub proof fn law_the_last_sample_of_a_name_counts(samples: Seq<Sample>, k: int)
    requires
        0 <= k < samples.len(),
        forall|j: int| k < j < samples.len() ==> (#[trigger] samples[j]).name@ != samples[k].name@,
    ensures
        latest(samples).contains(samples[k]),
        forall|i: int, j: int|
            #![trigger latest(samples)[i], latest(samples)[j]]
            0 <= i < j < latest(samples).len() ==> latest(samples)[i].name@ != latest(
                samples,
            )[j].name@,
    decreases samples.len(),
{
    let n = samples.len() - 1;
    let prior = samples.drop_last();
    let last = samples.last();
    let before = latest(prior);
    lemma_sample_bounds(before, last.name@);
    lemma_names_count_once(samples);
    if k == n {
        let i = sample_index(before, last.name@);
        assert(latest(samples)[i] == last);
    } else {
        assert(samples[n].name@ != samples[k].name@);
        assert forall|j: int| k < j < prior.len() implies (#[trigger] prior[j]).name@
            != prior[k].name@ by {
            assert(prior[j] == samples[j]);
        }
        law_the_last_sample_of_a_name_counts(prior, k);
        let i = choose|i: int| 0 <= i < before.len() && before[i] == prior[k];
        assert(latest(samples)[i] == samples[k]);
    }
}

pub(crate) proof fn lemma_names_count_once(samples: Seq<Sample>)
    ensures
        forall|i: int, j: int|
            #![trigger latest(samples)[i], latest(samples)[j]]
            0 <= i < j < latest(samples).len() ==> latest(samples)[i].name@ != latest(
                samples,
            )[j].name@,
    decreases samples.len(),
{
    if samples.len() > 0 {
        lemma_names_count_once(samples.drop_last());
        let before = latest(samples.drop_last());
        lemma_sample_bounds(before, samples.last().name@);
        assert forall|i: int, j: int|
            #![trigger latest(samples)[i], latest(samples)[j]]
            0 <= i < j < latest(samples).len() implies latest(samples)[i].name@ != latest(
            samples,
        )[j].name@ by {
            if j < before.len() {
                assert(before[i].name@ != before[j].name@);
            }
        }
    }
}

/// Whether `docker inspect` says that a container was killed for want of memory.
pub fn oom_killed(out: &str) -> (r: bool)
    ensures
        r == (text::trim(out@) == "true"@),
{
    let all = text::chars(out);
    let t = text::string(text::trimmed(&all));
    text::same_str(t.as_str(), "true")
}

/// The lines that name an image with a tag.
pub open spec fn is_tagged() -> spec_fn(Seq<char>) -> bool {
    |line: Seq<char>| !":<none>"@.is_suffix_of(line)
}

/// The tags of the kept images, from what `docker image ls` says.
pub fn kept_tags(out: &str) -> (r: Vec<String>)
    ensures
        text::texts(r@) == text::lines(out@).filter(is_tagged()),
{
    let lines = text::to_lines(&text::chars(out));
    let none = text::chars(":<none>");
    let ghost all = text::pieces(lines@);
    let ghost p = is_tagged();
    let mut r: Vec<String> = Vec::new();
    proof {
        reveal(Seq::filter);
        assert(text::texts(r@) =~= all.take(0).filter(p));
    }
    for i in 0..lines.len()
        invariant
            all == text::pieces(lines@),
            p == is_tagged(),
            none@ == ":<none>"@,
            text::texts(r@) == all.take(i as int).filter(p),
    {
        proof {
            order::lemma_filter_step(all, p, i as int);
        }
        assert(all[i as int] == lines@[i as int]@);
        if !text::ends(&lines[i], &none) {
            text::push_text(&mut r, text::string(&lines[i]));
        }
    }
    assert(all.take(all.len() as int) =~= all);
    r
}

/// The size that `docker image inspect` says: that of the first image that it
/// lists, if it lists any.
pub open spec fn inspected_size(images: Seq<Seq<char>>) -> nat {
    if images.len() == 0 {
        0
    } else {
        match json::nat_at(images[0], "/Size"@) {
            Some(n) => n,
            None => 0,
        }
    }
}

/// A kept image, from what `docker image inspect` says of it; where it says no
/// size, none is known.
pub fn kept_image(tag: &str, inspect: &str) -> (r: Result<KeptImage, OutputError>)
    ensures
        match r {
            Ok(image) => {
                &&& json::json_valid(inspect@)
                &&& image.tag@ == tag@
                &&& image.size_bytes == inspected_size(json::json_items(inspect@, ""@))
            },
            Err(e) => json::json_error(inspect@) == Some(e.spec_message()),
        },
{
    if let Some(reason) = json::error(inspect) {
        return Err(OutputError::NotJson(reason));
    }
    let images = json::items(inspect, "");
    assert(text::texts(images@).len() == images@.len());
    let mut size_bytes: u64 = 0;
    if images.len() > 0 {
        assert(text::texts(images@)[0] == images@[0]@);
        if let Some(n) = json::natural(images[0].as_str(), "/Size") {
            size_bytes = n;
        }
    }
    Ok(KeptImage { tag: tag.to_string(), size_bytes })
}

/// The layer cache that a line of `docker volume ls` lists, if it lists one: its
/// name, its repo and its slot, with tabs between them.
pub open spec fn is_cache(r: Option<(String, String, u32)>, line: Seq<char>) -> bool {
    let fields = text::split(line, '\t');
    if fields.len() == 3 && fields[0].len() > 0 && number::unsigned(
        fields[2],
        u32::MAX as nat,
    ) is Some {
        r matches Some(c) && c.0@ == fields[0] && c.1@ == fields[1] && number::unsigned(
            fields[2],
            u32::MAX as nat,
        ) == Some(c.2 as nat)
    } else {
        r is None
    }
}

/// The layer cache that a line of `docker volume ls` lists, if it lists one.
pub fn listed_cache(line: &str) -> (r: Option<(String, String, u32)>)
    ensures
        is_cache(r, line@),
{
    let fields = text::split_at_char(&text::chars(line), '\t');
    let ghost all = text::pieces(fields@);
    assert(all.len() == fields@.len());
    if fields.len() != 3 || fields[0].len() == 0 {
        assert(fields@.len() > 0 ==> all[0] == fields@[0]@);
        return None;
    }
    assert(all[0] == fields@[0]@ && all[1] == fields@[1]@ && all[2] == fields@[2]@);
    match number::parse_u32(&fields[2]) {
        Some(slot) => Some((text::string(&fields[0]), text::string(&fields[1]), slot)),
        None => None,
    }
}

} // verus!

use homerunner::config::RuntimeKind;
use homerunner::runtime::{
    apple_containers, apple_exit_code, docker_container, docker_container_id, docker_exit_code,
    docker_stats, exit_code, failure_text, kept_image, kept_tags, labelled, oom_killed,
    add_sample, listed_cache, parse_mem_bytes, sample, OutputError, SpawnSpec,
};

#[test]
fn parses_container_memory_units() {
    assert_eq!(parse_mem_bytes("0B"), 0);
    assert_eq!(parse_mem_bytes("512KiB"), 512 * 1024);
    assert_eq!(parse_mem_bytes("1.5MiB"), 1_572_864);
    assert_eq!(parse_mem_bytes("2GiB"), 2 * 1024 * 1024 * 1024);
    assert_eq!(parse_mem_bytes("3.2MB"), 3_355_443);
    assert_eq!(parse_mem_bytes(" 42 "), 42);
}

#[test]
fn invalid_memory_values_are_zero() {
    assert_eq!(parse_mem_bytes("not-a-size"), 0);
    assert_eq!(parse_mem_bytes(""), 0);
}

#[test]
fn sizes_are_read_to_double_precision() {
    let numbers = [
        "0.1", "0.3", "1.7", "999.9", "0.0000001", ".5", "5.", "+2.5", "1.0000000000000001",
        "9007199254740992", "9007199254740993", "9007199254740993.0001", "9007199254740995",
        "4503599627370497.5", "4503599627370498.5", "18446744073709551615", "18014398509481990.9",
        "36028797018963970", "99999999999999999999999999", "0.00000000000000000000000000001",
        "123456789.987654321012345678901234567890", "8191.99999999999999999999999", "0.000", "7.62939453125",
        "2.2250738585072011", "0.30000000000000004440892098500626",
    ];
    let units = [("", 1.0f64), ("kB", 1024.0), ("MiB", 1048576.0), ("GB", 1073741824.0)];
    for n in numbers {
        for (unit, mult) in units {
            let size = format!("{n}{unit}");
            let expected = (n.parse::<f64>().unwrap() * mult) as u64;
            assert_eq!(parse_mem_bytes(&size), expected, "{size}");
        }
    }
    assert_eq!(parse_mem_bytes("9007199254740993"), 9_007_199_254_740_992);
    assert_eq!(parse_mem_bytes("-1.5GiB"), 0);
    assert_eq!(parse_mem_bytes("5 GiB"), 0);
    assert_eq!(parse_mem_bytes("."), 0);
    assert_eq!(parse_mem_bytes("17179869184GiB"), u64::MAX);
}

#[test]
fn runtime_names_match_configuration_values() {
    assert_eq!(RuntimeKind::Docker.name(), "docker");
    assert_eq!(RuntimeKind::AppleContainer.name(), "apple-container");
    assert_eq!(RuntimeKind::Docker.cli(), "docker");
    assert_eq!(RuntimeKind::AppleContainer.cli(), "container");
}

fn words(v: &[&str]) -> Vec<String> {
    v.iter().map(|s| s.to_string()).collect()
}

#[test]
fn containers_are_spawned_with_their_labels() {
    let mut spec = SpawnSpec {
        runner_name: "hr-1",
        repo: "owner/repo",
        image: "runner:test",
        jit_config: "jit",
        registry_mirror: None,
    };
    assert_eq!(
        RuntimeKind::Docker.spawn_command(&spec),
        words(&[
            "docker",
            "run",
            "-d",
            "--privileged",
            "--name",
            "hr-1",
            "--label",
            "homerunner.managed=true",
            "--label",
            "homerunner.repo=owner/repo",
            "--label",
            "homerunner.runner=hr-1",
            "-e",
            "HOMERUNNER_JIT_CONFIG=jit",
            "-v",
            "homerunner-home-cache:/home/runner/.cache",
            "-v",
            "homerunner-pnpm-store:/home/runner/.local/share/pnpm/store",
            "runner:test",
        ])
    );
    spec.registry_mirror = Some("http://mirror");
    let apple = RuntimeKind::AppleContainer.spawn_command(&spec);
    assert_eq!(
        apple[..7],
        words(&["container", "run", "-d", "--cpus", "4", "--memory", "6g"])
    );
    assert!(apple.contains(&"REGISTRY_MIRROR=http://mirror".to_string()));
}

#[test]
fn only_docker_keeps_workspaces() {
    assert_eq!(
        RuntimeKind::Docker
            .commit_command("c1", "homerunner-kept:1")
            .unwrap(),
        words(&[
            "docker",
            "commit",
            "-c",
            "LABEL homerunner.kept=true",
            "-c",
            "ENTRYPOINT [\"/bin/bash\"]",
            "c1",
            "homerunner-kept:1",
        ])
    );
    assert_eq!(
        RuntimeKind::AppleContainer.commit_command("c1", "t"),
        Err("kept workspaces not supported on apple-container yet")
    );
    assert!(RuntimeKind::AppleContainer.kept_images_command().is_none());
    assert!(RuntimeKind::Docker.kept_images_command().is_some());
}

#[test]
fn commands_follow_the_runtime() {
    let docker = RuntimeKind::Docker;
    let apple = RuntimeKind::AppleContainer;
    assert_eq!(
        docker.remove_command("c1"),
        words(&["docker", "rm", "-f", "-v", "c1"])
    );
    assert_eq!(
        apple.remove_command("c1"),
        words(&["container", "rm", "-f", "c1"])
    );
    assert_eq!(
        docker.stats_command(&words(&["a"])),
        Some(words(&[
            "docker",
            "stats",
            "--no-stream",
            "--format",
            "{{json .}}",
            "a"
        ]))
    );
    assert!(apple.stats_command(&words(&["a"])).is_none());
    assert!(docker.stats_command(&vec![]).is_none());
    assert_eq!(docker.wait_command("c1"), words(&["docker", "wait", "c1"]));
    assert_eq!(
        apple.wait_command("c1"),
        words(&["container", "inspect", "c1"])
    );
    assert_eq!(
        docker.copy_command("c1", "/diag", "/logs"),
        words(&["docker", "cp", "c1:/diag", "/logs"])
    );
    assert_eq!(apple.kill_command("c1"), words(&["container", "kill", "c1"]));
    assert_eq!(
        docker.remove_image_command("t"),
        words(&["docker", "rmi", "-f", "t"])
    );
    assert_eq!(
        apple.build_command("i"),
        words(&["container", "build", "-t", "i", "."])
    );
    assert_eq!(
        docker.image_inspect_command("i"),
        words(&["docker", "image", "inspect", "i"])
    );
    assert_eq!(
        docker.logs_command("c1"),
        words(&["docker", "logs", "-f", "c1"])
    );
    assert_eq!(docker.list_command().len(), 7);
    assert_eq!(
        docker.oom_command("c1").unwrap().last().unwrap().as_str(),
        "c1"
    );
    assert!(apple.oom_command("c1").is_none());
}

#[test]
fn runtimes_that_do_not_work_say_why() {
    let docker = RuntimeKind::Docker;
    let apple = RuntimeKind::AppleContainer;
    assert!(docker.check_command(false).is_ok());
    assert_eq!(
        apple.check_command(false),
        Err("apple/container requires an Apple Silicon Mac")
    );
    assert!(apple.check_command(true).is_ok());
    assert_eq!(docker.available(Ok(())), None);
    assert_eq!(
        docker.available(Err("no socket".to_string())).unwrap(),
        "docker daemon unreachable: no socket"
    );
    assert_eq!(
        apple.available(Err("stopped".to_string())).unwrap(),
        "container system not running (`container system start`): stopped"
    );
}

#[test]
fn failures_tell_the_command_and_what_it_said() {
    let argv = words(&["docker", "ps", "-a", "--filter"]);
    assert_eq!(
        failure_text(&argv, " no daemon \n"),
        "docker ps -a failed: no daemon"
    );
}

#[test]
fn docker_lists_its_containers_in_json() {
    assert_eq!(docker_container_id("{\"ID\":\"abc\"}").unwrap(), "abc");
    assert_eq!(docker_container_id("{}").unwrap(), "");
    assert_eq!(
        docker_container_id("oops"),
        Err(OutputError::NotJson("expected value at line 1 column 1".to_string()))
    );
    let found = docker_container(
        "abc",
        "{\"Config\":{\"Labels\":{\"homerunner.runner\":\"hr-1\",\"homerunner.repo\":\"o/r\"}},\
         \"State\":{\"Running\":true}}\n",
    )
    .unwrap();
    assert_eq!(found.container_id, "abc");
    assert_eq!(found.runner_name, "hr-1");
    assert_eq!(found.repo, "o/r");
    assert!(found.running);
    let bare = labelled("abc", None, None, false);
    assert_eq!(bare.runner_name, "");
    assert!(docker_container("abc", "oops").is_err());
    assert_eq!(OutputError::NotJson("no".to_string()).message(), "no");
}

#[test]
fn apple_lists_its_containers_in_json() {
    let found = apple_containers(
        "[{\"id\":\"a\",\"status\":\"running\",\"labels\":{\"homerunner.managed\":\"true\",\
         \"homerunner.runner\":\"hr-1\",\"homerunner.repo\":\"o/r\"}},{\"id\":\"b\"}]",
    );
    assert_eq!(found.len(), 1);
    assert_eq!(found[0].container_id, "a");
    assert_eq!(found[0].runner_name, "hr-1");
    assert_eq!(found[0].repo, "o/r");
    assert!(found[0].running);
    assert!(apple_containers("oops").is_empty());
}

#[test]
fn exit_codes_are_read_off_the_output() {
    assert_eq!(docker_exit_code("137\n"), 137);
    assert_eq!(docker_exit_code("?"), -1);
    assert_eq!(exit_code(&Some("running".to_string()), None), None);
    assert_eq!(exit_code(&Some("stopped".to_string()), Some(3)), Some(3));
    assert_eq!(exit_code(&None, None), Some(-1));
    assert_eq!(
        apple_exit_code("[{\"status\":\"stopped\",\"exitCode\":3}]"),
        Some(3)
    );
    assert_eq!(apple_exit_code("{\"status\":\"running\"}"), None);
    assert_eq!(apple_exit_code("oops"), Some(-1));
    assert!(oom_killed("true\n"));
    assert!(!oom_killed("false"));
}

#[test]
fn samples_are_read_off_the_output() {
    let one = sample(
        Some("hr-1".to_string()),
        Some("12.34%".to_string()),
        Some("1.5MiB / 2GiB".to_string()),
    );
    assert_eq!(one.name, "hr-1");
    assert_eq!(one.cpu, "12.34");
    assert_eq!(one.mem_bytes, 1_572_864);
    let all = docker_stats(
        "{\"Name\":\"hr-1\",\"CPUPerc\":\"12.34%\",\"MemUsage\":\"1.5MiB / 2GiB\"}\noops\n{}\n",
    );
    assert_eq!(all.len(), 2);
    assert_eq!(all[0].name, "hr-1");
    assert_eq!(all[0].cpu, "12.34");
    assert_eq!(all[0].mem_bytes, 1_572_864);
    assert_eq!(all[1].name, "");
    assert_eq!(all[1].cpu, "0");
}

#[test]
fn shares_are_read_as_numbers_are() {
    let cpu = |s: &str| sample(None, Some(s.to_string()), None).cpu;
    assert_eq!(cpu("12.345%"), "12.345");
    assert_eq!(cpu("12.344%%"), "12.344");
    assert_eq!(cpu("-Infinity"), "-Infinity");
    assert_eq!(cpu("--"), "0");
    let numbers = [
        "0.005", "0.0049", ".5%", "7.%", "-3.5%", "+3.5%", "1.5e2%", "1.5E+2%", "125e-1%",
        "1e-99999999999999999999999999999%", "1e99999999999999999999999999999%", "-1e30%", "inf%",
        "+INFINITY", "-Infinity", "nan", "-NaN%",
    ];
    let others = [
        "--", "e5", "1e", "1e+", "1e5e3", "1 %", "1.2.3", "", "%", ".", "+", "-.e1", "+-1", "infin",
        "0x10", "1_000", "%5",
    ];
    for s in numbers.iter().chain(others.iter()) {
        let told = s.trim_end_matches('%').parse::<f64>();
        assert_eq!(told.is_ok(), numbers.contains(s), "{s}");
        let shown = cpu(s).parse::<f64>().unwrap();
        let value = told.unwrap_or(0.0);
        assert!(shown == value || (shown.is_nan() && value.is_nan()), "{s}");
    }
}

#[test]
fn the_last_sample_of_a_name_counts() {
    let all = docker_stats(
        "{\"Name\":\"a\",\"MemUsage\":\"9kB\"}\n{\"Name\":\"b\",\"MemUsage\":\"2kB\"}\n\
         {\"Name\":\"a\",\"MemUsage\":\"1kB\"}\n",
    );
    let seen: Vec<(&str, u64)> = all.iter().map(|s| (s.name.as_str(), s.mem_bytes)).collect();
    assert_eq!(seen, [("a", 1024), ("b", 2048)]);
    let mut samples = all;
    add_sample(&mut samples, sample(Some("b".to_string()), None, None));
    assert_eq!(samples.len(), 2);
    assert_eq!(samples[1].mem_bytes, 0);
}

#[test]
fn layer_caches_are_read_off_the_output() {
    assert_eq!(
        listed_cache("cache-1\to/r\t1"),
        Some(("cache-1".to_string(), "o/r".to_string(), 1))
    );
    for line in ["cache-1", "cache-1\to/r\t", "\to/r\t1", "a\tb\t1\t2"] {
        assert_eq!(listed_cache(line), None, "{line}");
    }
}

#[test]
fn kept_images_are_read_off_the_output() {
    assert_eq!(
        kept_tags("homerunner-kept:1\nhomerunner-kept:<none>\nhomerunner-kept:3\n"),
        words(&["homerunner-kept:1", "homerunner-kept:3"])
    );
    let image = kept_image("homerunner-kept:1", "[{\"Size\":12}]").unwrap();
    assert_eq!(image.tag, "homerunner-kept:1");
    assert_eq!(image.size_bytes, 12);
    assert_eq!(kept_image("t", "[]").unwrap().size_bytes, 0);
    assert_eq!(kept_image("t", "{\"0\":{\"Size\":12}}").unwrap().size_bytes, 0);
    assert_eq!(
        kept_image("t", "oops").unwrap_err().message(),
        "expected value at line 1 column 1"
    );
}

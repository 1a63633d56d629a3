use homerunner::logging::{from_environment, FileOp, RotatingLog};

/// The files of a log, by slot: the log itself first, then its backups.
fn apply(files: &mut Vec<Option<String>>, ops: Vec<FileOp>) {
    for op in ops {
        match op {
            FileOp::Remove { slot } => files[slot as usize] = None,
            FileOp::Shift { slot } => {
                files[slot as usize + 1] = files[slot as usize].take();
            }
        }
    }
}

fn write(log: &RotatingLog, files: &mut Vec<Option<String>>, line: &str) {
    let present: Vec<bool> = files.iter().map(|f| f.is_some()).collect();
    let current = files[0].as_ref().map(|f| f.len()).unwrap_or(0) as u64;
    let ops = log.write_line(current, line.len() as u64, &present);
    apply(files, ops);
    files[0].get_or_insert_with(String::new).push_str(line);
    files[0].get_or_insert_with(String::new).push('\n');
}

#[test]
fn rotates_at_size_and_keeps_bounded_backups() {
    let log = RotatingLog::new("/logs/service.log".to_string(), 10, 2);
    let mut files = vec![None, None, None];

    write(&log, &mut files, "12345");
    write(&log, &mut files, "67890");
    write(&log, &mut files, "abcde");
    write(&log, &mut files, "fghij");

    assert_eq!(files[0].as_deref(), Some("fghij\n"));
    assert_eq!(files[1].as_deref(), Some("abcde\n"));
    assert_eq!(files[2].as_deref(), Some("67890\n"));
    assert_eq!(log.backup_path(1), "/logs/service.log.1");
    assert_eq!(log.slot_path(0), "/logs/service.log");
}

#[test]
fn logs_are_configured_by_the_environment() {
    assert!(from_environment(None, None, None).is_none());
    let log = from_environment(Some("/logs/s.log"), Some("99"), Some("x")).unwrap();
    assert_eq!(log.path, "/logs/s.log");
    assert_eq!(log.max_bytes, 99);
    assert_eq!(log.backups, 3);
    let log = from_environment(Some("/logs/s.log"), None, Some("5")).unwrap();
    assert_eq!(log.max_bytes, 10 * 1024 * 1024);
    assert_eq!(log.backups, 5);
}

#[test]
fn without_backups_a_full_log_is_dropped() {
    let log = RotatingLog::new("/logs/service.log".to_string(), 4, 0);
    assert!(matches!(
        log.rotate(&vec![true])[..],
        [FileOp::Remove { slot: 0 }]
    ));
    let mut files = vec![Some("abc\n".to_string()), None];
    write(&log, &mut files, "def");
    assert_eq!(files[0].as_deref(), Some("def\n"));
}

#[test]
fn logs_stay_bounded_and_keep_the_latest() {
    for (max, backups) in [(0, 2), (10, 0), (10, 1), (10, 3), (7, 2), (1000, 1)] {
        let log = RotatingLog::new("/logs/service.log".to_string(), max, backups);
        let mut files: Vec<Option<String>> = vec![None; backups as usize + 1];
        let mut all = String::new();
        for line in ["a", "bcd", "", "efghijklmnopq", "rs", "tuvw", "x", "yz\u{e9}", "1234567"] {
            write(&log, &mut files, line);
            all.push_str(line);
            all.push('\n');
            let active = files[0].as_ref().unwrap();
            assert!(active.ends_with(&format!("{line}\n")));
            assert!(active.len() as u64 <= max.max(line.len() as u64 + 1));
            assert_eq!(files.len(), backups as usize + 1);
            let kept: String = files.iter().rev().flatten().cloned().collect();
            assert!(all.ends_with(&kept));
        }
    }
}

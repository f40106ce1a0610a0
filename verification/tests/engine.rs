use backup_manager::copy_directions::CopyDirection;
use backup_manager::file_ops::{precheck, DirectionFault, DirectionRun, Stat};
use backup_manager::pattern::Pattern;
use backup_manager::summary::{CopyKind, Summary};
use backup_manager::test_utils::TestConfig;

#[test]
fn copy_all() {
    let c = TestConfig::new("destea", None);
    let num_files = 4;
    let d = CopyDirection { from: c.get_src(), to: c.get_dest(), skips: vec![] };
    let mut run = DirectionRun::start(d);
    let rel = run.next_dir().unwrap();
    assert_eq!(rel.as_str(), "");
    let mut results = Vec::new();
    for name in ["config.rs", "executor.rs", "file_ops.rs", "summary.rs"] {
        assert!(!run.is_skipped(&rel, name));
        let kind = run.record_file(&rel, Stat::Missing, Stat::Modified(100)).unwrap();
        assert_eq!(kind, CopyKind::Create);
        results.push((kind, true));
    }
    assert!(run.next_dir().is_none());
    let copied = run.finish(&results);
    assert_eq!(copied.new, num_files);
}

#[test]
fn copy_excluded() {
    let c = TestConfig::new("desteb", None);
    let skip = Pattern::new(".rs".to_string()).unwrap();
    let d = CopyDirection { from: c.get_src(), to: c.get_dest(), skips: vec![skip] };
    let mut run = DirectionRun::start(d);
    let rel = run.next_dir().unwrap();
    for name in ["config.rs", "executor.rs", "file_ops.rs", "summary.rs"] {
        assert!(run.is_skipped(&rel, name));
        run.record_skipped();
    }
    assert!(run.next_dir().is_none());
    let copied = run.finish(&Vec::new());
    assert_eq!(copied.new, 0);
}

#[test]
fn copy_src_does_not_exist() {
    let c = TestConfig::new("desta", Some("ffsdfa"));
    let d = CopyDirection { from: c.get_src(), to: c.get_dest(), skips: vec![] };
    let r = precheck(&d, false, false);
    assert_eq!(r, Err(DirectionFault::SourceMissing));
}

#[test]
fn to_empty_dir() {
    let c = TestConfig::new("destb", None);
    let num_files = 3;
    let names = ["executor.rs", "file_ops.rs", "summary.rs"];
    let source_mtime = 1_000;

    let d = CopyDirection { from: c.get_src(), to: c.get_dest(), skips: vec![] };
    let mut run = DirectionRun::start(d);
    let rel = run.next_dir().unwrap();
    let mut results = Vec::new();
    for name in names {
        assert!(!run.is_skipped(&rel, name));
        let kind = run.record_file(&rel, Stat::Missing, Stat::Modified(source_mtime)).unwrap();
        results.push((kind, true));
    }
    assert!(run.next_dir().is_none());
    let copied = run.finish(&results);
    assert_eq!(copied.new, num_files);

    let d = CopyDirection { from: c.get_src(), to: c.get_dest(), skips: vec![] };
    let mut run = DirectionRun::start(d);
    let rel = run.next_dir().unwrap();
    for name in names {
        assert!(!run.is_skipped(&rel, name));
        let kind = run.record_file(
            &rel,
            Stat::Modified(source_mtime + 5),
            Stat::Modified(source_mtime),
        );
        assert_eq!(kind, None);
    }
    assert!(run.next_dir().is_none());
    let copied = run.finish(&Vec::new());
    assert_eq!(copied.new, 0);
    assert_eq!(copied.existing, num_files);
}

#[test]
fn skip_pattern_with_empty_destination() {
    let skip = Pattern::new("\\.log$".to_string()).unwrap();
    let d = CopyDirection {
        from: "tree".to_string(),
        to: "mirror".to_string(),
        skips: vec![skip],
    };
    let mut run = DirectionRun::start(d);
    let mut events: Vec<String> = Vec::new();
    let mut results = Vec::new();

    let rel = run.next_dir().unwrap();
    assert_eq!(rel.as_str(), "");
    events.push(format!("mkdir {}", run.dest_dir_path(&rel)));
    assert!(!run.is_skipped(&rel, "a.txt"));
    let kind = run.record_file(&rel, Stat::Missing, Stat::Modified(50)).unwrap();
    assert_eq!(kind, CopyKind::Create);
    events.push(format!("copy {}", run.dest_file_path(&rel, "a.txt")));
    results.push((kind, true));
    run.push_dir(&rel, "sub");

    let rel = run.next_dir().unwrap();
    assert_eq!(rel.as_str(), "sub");
    events.push(format!("mkdir {}", run.dest_dir_path(&rel)));
    assert!(run.is_skipped(&rel, "b.log"));
    run.record_skipped();

    assert!(run.next_dir().is_none());
    let summary = run.finish(&results);
    assert_eq!(summary, Summary { new: 1, existing: 0, updated: 0, errors: 0, total: 2 });
    assert_eq!(
        events,
        vec![
            "mkdir mirror".to_string(),
            "copy mirror/a.txt".to_string(),
            "mkdir mirror/sub".to_string(),
        ],
    );
}

#[test]
fn skip_pattern_rerun_unchanged() {
    let skip = Pattern::new("\\.log$".to_string()).unwrap();
    let d = CopyDirection {
        from: "tree".to_string(),
        to: "mirror".to_string(),
        skips: vec![skip],
    };
    let mut run = DirectionRun::start(d);

    let rel = run.next_dir().unwrap();
    assert!(!run.is_skipped(&rel, "a.txt"));
    let kind = run.record_file(&rel, Stat::Modified(80), Stat::Modified(50));
    assert_eq!(kind, None);
    run.push_dir(&rel, "sub");

    let rel = run.next_dir().unwrap();
    assert!(run.is_skipped(&rel, "b.log"));
    run.record_skipped();

    assert!(run.next_dir().is_none());
    let summary = run.finish(&Vec::new());
    assert_eq!(summary, Summary { new: 0, existing: 1, updated: 0, errors: 0, total: 2 });
}

#[test]
fn stale_destination_is_updated() {
    let d = CopyDirection { from: "tree".to_string(), to: "mirror".to_string(), skips: vec![] };
    let mut run = DirectionRun::start(d);
    let rel = run.next_dir().unwrap();
    let kind = run.record_file(&rel, Stat::Modified(10), Stat::Modified(20)).unwrap();
    assert_eq!(kind, CopyKind::Update);
    let summary = run.finish(&vec![(kind, true)]);
    assert_eq!(summary, Summary { new: 0, existing: 0, updated: 1, errors: 0, total: 1 });
}

#[test]
fn equal_mtimes_count_as_existing() {
    let d = CopyDirection { from: "tree".to_string(), to: "mirror".to_string(), skips: vec![] };
    let mut run = DirectionRun::start(d);
    let rel = run.next_dir().unwrap();
    let kind = run.record_file(&rel, Stat::Modified(33), Stat::Modified(33));
    assert_eq!(kind, None);
    let summary = run.finish(&Vec::new());
    assert_eq!(summary, Summary { new: 0, existing: 1, updated: 0, errors: 0, total: 1 });
}

#[test]
fn stat_failures_count_as_errors() {
    let d = CopyDirection { from: "tree".to_string(), to: "mirror".to_string(), skips: vec![] };
    let mut run = DirectionRun::start(d);
    let rel = run.next_dir().unwrap();
    assert_eq!(run.record_file(&rel, Stat::Unknown, Stat::Modified(5)), None);
    assert_eq!(run.record_file(&rel, Stat::Modified(5), Stat::Unknown), None);
    run.record_unreadable();
    let summary = run.finish(&Vec::new());
    assert_eq!(summary, Summary { new: 0, existing: 0, updated: 0, errors: 3, total: 3 });
}

#[test]
fn failed_copies_count_as_errors() {
    let d = CopyDirection { from: "tree".to_string(), to: "mirror".to_string(), skips: vec![] };
    let mut run = DirectionRun::start(d);
    let rel = run.next_dir().unwrap();
    let k1 = run.record_file(&rel, Stat::Missing, Stat::Modified(1)).unwrap();
    let k2 = run.record_file(&rel, Stat::Modified(1), Stat::Modified(2)).unwrap();
    let summary = run.finish(&vec![(k1, true), (k2, false)]);
    assert_eq!(summary, Summary { new: 1, existing: 0, updated: 0, errors: 1, total: 2 });
}

#[test]
fn walk_is_depth_first_over_pushed_dirs() {
    let d = CopyDirection { from: "tree".to_string(), to: "mirror".to_string(), skips: vec![] };
    let mut run = DirectionRun::start(d);
    let rel = run.next_dir().unwrap();
    run.push_dir(&rel, "one");
    run.push_dir(&rel, "two");
    let rel = run.next_dir().unwrap();
    assert_eq!(rel.as_str(), "two");
    run.push_dir(&rel, "deep");
    assert_eq!(run.next_dir().unwrap().as_str(), "two/deep");
    assert_eq!(run.next_dir().unwrap().as_str(), "one");
    assert!(run.next_dir().is_none());
}

#[test]
fn mirrored_paths() {
    let d = CopyDirection { from: "tree".to_string(), to: "mirror".to_string(), skips: vec![] };
    let run = DirectionRun::start(d);
    assert_eq!(run.source_dir_path("").as_str(), "tree");
    assert_eq!(run.dest_dir_path("").as_str(), "mirror");
    assert_eq!(run.source_dir_path("sub").as_str(), "tree/sub");
    assert_eq!(run.dest_dir_path("sub").as_str(), "mirror/sub");
    assert_eq!(run.source_file_path("", "a.txt").as_str(), "tree/a.txt");
    assert_eq!(run.dest_file_path("sub", "b.log").as_str(), "mirror/sub/b.log");
}

#[test]
fn skip_matches_full_path() {
    let skip = Pattern::new("^tree/sub/".to_string()).unwrap();
    let d = CopyDirection {
        from: "tree".to_string(),
        to: "mirror".to_string(),
        skips: vec![skip],
    };
    let mut run = DirectionRun::start(d);
    let root = run.next_dir().unwrap();
    assert!(!run.is_skipped(&root, "b.log"));
    run.push_dir(&root, "sub");
    let sub = run.next_dir().unwrap();
    assert!(run.is_skipped(&sub, "b.log"));
}

#[test]
fn precheck_blame_order() {
    let d = CopyDirection { from: "same".to_string(), to: "same".to_string(), skips: vec![] };
    assert_eq!(precheck(&d, false, false), Err(DirectionFault::SameSourceAndDestination));
    let d = CopyDirection { from: "a".to_string(), to: "b".to_string(), skips: vec![] };
    assert_eq!(precheck(&d, false, true), Err(DirectionFault::SourceMissing));
    assert_eq!(precheck(&d, true, false), Err(DirectionFault::SourceNotDirectory));
    assert_eq!(precheck(&d, true, true), Ok(()));
}

#[test]
fn test_config_paths() {
    let c = TestConfig::new("destx", None);
    assert_eq!(c.get_src().as_str(), "src");
    assert_eq!(c.get_dest().as_str(), "destx");
    let c = TestConfig::new("desty", Some("elsewhere"));
    assert_eq!(c.get_src().as_str(), "elsewhere");
    assert_eq!(c.get_dest().as_str(), "desty");
}

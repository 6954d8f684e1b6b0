use patternhunt::async_glob::{
    glob_stream, judge_candidate, judge_metadata, permit_wait, CandidateAction, EntryAction,
};
use patternhunt::batch_io::{BatchIO, Probe};
use patternhunt::patterns::cache::PatternCaches;
use patternhunt::predicates::{FileMeta, FileType};
use patternhunt::sync::{
    check_for_cycles, glob_sync, is_path_allowed, walk_depth, Visited, WalkEntry, WalkEvent,
};
use patternhunt::{GlobError, GlobOptions, GlobOptionsBuilder, PatternHunt, Patterns, Predicates};
use std::time::Duration;

fn meta(len: u64) -> FileMeta {
    FileMeta {
        len,
        is_file: true,
        is_dir: false,
        is_symlink: false,
        readonly: false,
        modified: Some(10),
        created: Some(5),
    }
}

fn probe(len: u64) -> Probe {
    Probe { is_symlink: false, metadata: Ok(meta(len)) }
}

fn file(path: &str, len: u64) -> WalkEvent {
    WalkEvent::Entry(WalkEntry {
        key: path.as_bytes().to_vec(),
        text: Some(path.to_string()),
        is_dir: false,
        below_root: true,
        probe: probe(len),
    })
}

fn dir(path: &str) -> WalkEvent {
    WalkEvent::Entry(WalkEntry {
        key: path.as_bytes().to_vec(),
        text: Some(path.to_string()),
        is_dir: true,
        below_root: true,
        probe: probe(0),
    })
}

fn compile(patterns: &[&str]) -> Patterns {
    let mut caches = PatternCaches::new();
    Patterns::compile_many(patterns, &GlobOptions::default(), &mut caches).unwrap()
}

fn walk_failure() -> walkdir::Error {
    walkdir::WalkDir::new("no/such/place/anywhere")
        .into_iter()
        .next()
        .unwrap()
        .unwrap_err()
}

#[test]
fn basic_glob_finds_the_matching_files() {
    let p = compile(&["*.rs", "*.toml"]);
    let events = vec![dir("."), file("a.rs", 1), file("b.toml", 2), file("c.md", 3)];
    let found = glob_sync(&p, &GlobOptions::default(), &None, events, 0).unwrap();
    assert_eq!(found, vec!["a.rs", "b.toml"]);
}

#[test]
fn directories_are_never_results() {
    let p = compile(&["*"]);
    let events = vec![dir("a"), file("b", 1), dir("c.rs")];
    let found = glob_sync(&p, &GlobOptions::default(), &None, events, 0).unwrap();
    assert_eq!(found, vec!["b"]);
}

#[test]
fn nothing_outside_the_root_is_a_result() {
    let p = compile(&["*.rs"]);
    let opts = GlobOptionsBuilder::new().root_dir("root".to_string()).build();
    let mut outside = WalkEntry {
        key: b"other/x.rs".to_vec(),
        text: Some("other/x.rs".to_string()),
        is_dir: false,
        below_root: false,
        probe: probe(1),
    };
    let events = vec![WalkEvent::Entry(outside), file("root/y.rs", 1)];
    let found = glob_sync(&p, &opts, &None, events, 0).unwrap();
    assert_eq!(found, vec!["root/y.rs"]);
    outside = WalkEntry {
        key: b"other/x.rs".to_vec(),
        text: Some("other/x.rs".to_string()),
        is_dir: false,
        below_root: false,
        probe: probe(1),
    };
    let found = glob_sync(
        &p,
        &GlobOptions::default(),
        &None,
        vec![WalkEvent::Entry(outside)],
        0,
    )
    .unwrap();
    assert_eq!(found, vec!["other/x.rs"]);
    assert!(is_path_allowed(false, &None));
    assert!(is_path_allowed(true, &Some("r".to_string())));
    assert!(!is_path_allowed(false, &Some("r".to_string())));
}

#[test]
fn paths_that_are_no_text_are_passed_over() {
    let p = compile(&["*"]);
    let odd = WalkEvent::Entry(WalkEntry {
        key: vec![0x66, 0xff, 0x6f],
        text: None,
        is_dir: false,
        below_root: true,
        probe: probe(1),
    });
    let found = glob_sync(&p, &GlobOptions::default(), &None, vec![odd, file("ok", 1)], 0).unwrap();
    assert_eq!(found, vec!["ok"]);
}

#[test]
fn empty_patterns_find_nothing() {
    let p = compile(&[]);
    let events = vec![file("a.rs", 1), file("b", 2)];
    let found = glob_sync(&p, &GlobOptions::default(), &None, events, 0).unwrap();
    assert!(found.is_empty());
}

#[test]
fn predicates_filter_by_metadata() {
    let p = compile(&["*.rs"]);
    let mut pred = Predicates::unconstrained();
    pred.min_size = Some(10);
    pred.max_size = Some(10);
    let events = vec![file("a.rs", 9), file("b.rs", 10), file("c.rs", 11), file("d.md", 10)];
    let found = glob_sync(&p, &GlobOptions::default(), &Some(pred), events, 0).unwrap();
    assert_eq!(found, vec!["b.rs"]);
}

#[test]
fn a_failure_of_the_walker_ends_the_walk() {
    let p = compile(&["*.rs"]);
    let events = vec![file("a.rs", 1), WalkEvent::Failed(walk_failure()), file("b.rs", 1)];
    assert!(matches!(
        glob_sync(&p, &GlobOptions::default(), &None, events, 0),
        Err(GlobError::Walkdir(_))
    ));
}

#[test]
fn a_path_that_comes_up_twice_is_a_cycle_where_links_are_followed() {
    let p = compile(&["*.rs"]);
    let follow = GlobOptionsBuilder::new().follow_symlinks(true).build();
    let events = vec![file("a.rs", 1), file("b.rs", 1), file("a.rs", 1)];
    assert!(matches!(
        glob_sync(&p, &follow, &None, events, 0),
        Err(GlobError::SymlinkCycle)
    ));
    let events = vec![file("a.rs", 1), file("b.rs", 1), file("a.rs", 1)];
    let found = glob_sync(&p, &GlobOptions::default(), &None, events, 0).unwrap();
    assert_eq!(found, vec!["a.rs", "b.rs", "a.rs"]);
    let mut visited = Visited::new();
    assert!(!check_for_cycles(&b"x".to_vec(), &mut visited));
    assert!(!check_for_cycles(&b"y".to_vec(), &mut visited));
    assert!(check_for_cycles(&b"x".to_vec(), &mut visited));
    assert!(!check_for_cycles(&b"".to_vec(), &mut visited));
    assert!(check_for_cycles(&b"".to_vec(), &mut visited));
}

#[test]
fn metadata_that_is_not_handed_out_ends_the_walk() {
    let p = compile(&["*.rs"]);
    let pred = Some(Predicates::unconstrained());
    let opts = GlobOptions::default();
    let link = WalkEvent::Entry(WalkEntry {
        key: b"l.rs".to_vec(),
        text: Some("l.rs".to_string()),
        is_dir: false,
        below_root: true,
        probe: Probe { is_symlink: true, metadata: Ok(meta(1)) },
    });
    match glob_sync(&p, &opts, &pred, vec![link], 0) {
        Err(GlobError::Other(m)) => assert_eq!(m, "Symlinks not allowed"),
        _ => panic!("a link may not be followed"),
    }
    let broken = WalkEvent::Entry(WalkEntry {
        key: b"b.rs".to_vec(),
        text: Some("b.rs".to_string()),
        is_dir: false,
        below_root: true,
        probe: Probe {
            is_symlink: false,
            metadata: Err(std::io::Error::new(std::io::ErrorKind::NotFound, "gone")),
        },
    });
    assert!(matches!(
        glob_sync(&p, &opts, &pred, vec![broken], 0),
        Err(GlobError::Io(_))
    ));
    let mut locked = meta(1);
    locked.readonly = true;
    let readonly = WalkEvent::Entry(WalkEntry {
        key: b"r.rs".to_vec(),
        text: Some("r.rs".to_string()),
        is_dir: false,
        below_root: true,
        probe: Probe { is_symlink: false, metadata: Ok(locked) },
    });
    assert!(matches!(
        glob_sync(&p, &opts, &pred, vec![readonly], 0),
        Err(GlobError::PermissionDenied)
    ));
    let unmatched = WalkEvent::Entry(WalkEntry {
        key: b"r.md".to_vec(),
        text: Some("r.md".to_string()),
        is_dir: false,
        below_root: true,
        probe: Probe { is_symlink: true, metadata: Ok(locked) },
    });
    assert!(glob_sync(&p, &opts, &pred, vec![unmatched], 0).unwrap().is_empty());
}

#[test]
fn the_walker_is_given_the_depth_limit() {
    assert_eq!(walk_depth(&GlobOptions::default()), usize::MAX);
    assert_eq!(walk_depth(&GlobOptionsBuilder::new().max_depth(0).build()), 0);
    assert_eq!(walk_depth(&GlobOptionsBuilder::new().max_depth(4).build()), 4);
}

#[test]
fn stat_service_serves_from_its_cache_until_the_entry_expires() {
    let mut io = BatchIO::new(2, false);
    assert!(!io.follow_symlinks());
    assert_eq!(io.cached("a", 0), None);
    assert_eq!(io.stat("a", 0, probe(7)).unwrap().len, 7);
    assert_eq!(io.stat("a", 1, probe(8)).unwrap().len, 7);
    assert_eq!(io.cached("a", 29_999_999_999), Some(meta(7)));
    assert_eq!(io.stat("a", 30_000_000_000, probe(9)).unwrap().len, 9);
    assert_eq!(io.cached("a", 30_000_000_001), Some(meta(9)));
    io.clear_cache();
    assert_eq!(io.cached("a", 30_000_000_001), None);
}

#[test]
fn stat_service_refuses_links_failures_and_read_only_entries() {
    let mut io = BatchIO::new(2, false);
    match io.stat("l", 0, Probe { is_symlink: true, metadata: Ok(meta(1)) }) {
        Err(GlobError::Other(m)) => assert_eq!(m, "Symlinks not allowed"),
        _ => panic!("a link may not be followed"),
    }
    assert_eq!(io.cached("l", 0), None);
    let gone = std::io::Error::new(std::io::ErrorKind::NotFound, "gone");
    match io.stat("g", 0, Probe { is_symlink: false, metadata: Err(gone) }) {
        Err(GlobError::Io(e)) => assert_eq!(e.kind(), std::io::ErrorKind::NotFound),
        _ => panic!("a failure is passed on"),
    }
    let mut locked = meta(1);
    locked.readonly = true;
    assert!(matches!(
        io.stat("r", 0, Probe { is_symlink: false, metadata: Ok(locked) }),
        Err(GlobError::PermissionDenied)
    ));
    assert_eq!(io.cached("r", 0), None);
    let mut following = BatchIO::new(2, true);
    assert!(following.follow_symlinks());
    assert_eq!(
        following
            .stat("l", 0, Probe { is_symlink: true, metadata: Ok(meta(3)) })
            .unwrap()
            .len,
        3
    );
    assert_eq!(
        following.resolve("m", 0, probe(4)).unwrap().len,
        4
    );
    assert_eq!(following.cached("m", 1), Some(meta(4)));
    following.resolve("n", 0, probe(5)).unwrap();
    assert_eq!(following.cached("l", 1), None);
    assert_eq!(following.stat_symlink(Ok(meta(6))).unwrap().len, 6);
    let denied = std::io::Error::new(std::io::ErrorKind::PermissionDenied, "no");
    assert!(matches!(following.stat_symlink(Err(denied)), Err(GlobError::Io(_))));
}

#[test]
fn hunt_walks_each_root_in_order() {
    let mut caches = PatternCaches::new();
    let listings = vec![
        vec![file("r1/a.rs", 1), file("r1/b.md", 1)],
        vec![],
        vec![file("r2/c.rs", 1), dir("r2/d.rs"), file("r2/e.rs", 1)],
    ];
    let found = PatternHunt::sync(&["*.rs"], listings, GlobOptions::default(), &mut caches, 0)
        .unwrap();
    assert_eq!(found, vec!["r1/a.rs", "r2/c.rs", "r2/e.rs"]);
    let none: Vec<Vec<WalkEvent>> = Vec::new();
    assert!(PatternHunt::sync(&["*.rs"], none, GlobOptions::default(), &mut caches, 0)
        .unwrap()
        .is_empty());
}

#[test]
fn hunt_fails_on_a_bad_pattern_or_a_bad_walk() {
    let mut caches = PatternCaches::new();
    assert!(matches!(
        PatternHunt::sync(
            &["src/../etc"],
            vec![vec![file("a.rs", 1)]],
            GlobOptions::default(),
            &mut caches,
            0
        ),
        Err(GlobError::PathTraversal)
    ));
    let listings = vec![vec![file("a.rs", 1)], vec![WalkEvent::Failed(walk_failure())]];
    assert!(matches!(
        PatternHunt::sync(&["*.rs"], listings, GlobOptions::default(), &mut caches, 0),
        Err(GlobError::Walkdir(_))
    ));
    let mut pred = Predicates::unconstrained();
    pred.file_type = Some(FileType::File);
    let opts = GlobOptionsBuilder::new().predicates(pred).build();
    let listings = vec![vec![file("a.rs", 1), file("b.rs", 1)]];
    assert_eq!(
        PatternHunt::sync(&["*.rs"], listings, opts, &mut caches, 0).unwrap(),
        vec!["a.rs", "b.rs"]
    );
}

#[test]
fn stream_lists_the_root_first_and_the_newest_directory_next() {
    let mut walk = glob_stream(&GlobOptions::default(), 0);
    assert_eq!(walk.next_directory(), Some((0, 0)));
    assert_eq!(walk.next_directory(), None);
    assert_eq!(walk.classify(0, 1, true, false), EntryAction::Descend);
    assert_eq!(walk.classify(0, 2, true, false), EntryAction::Descend);
    assert_eq!(walk.classify(0, 3, false, false), EntryAction::Candidate);
    assert_eq!(walk.next_directory(), Some((2, 1)));
    assert_eq!(walk.classify(1, 4, true, false), EntryAction::Descend);
    assert_eq!(walk.next_directory(), Some((4, 2)));
    assert_eq!(walk.next_directory(), Some((1, 1)));
    assert_eq!(walk.next_directory(), None);
}

#[test]
fn depth_limit_stops_the_descent() {
    let opts = GlobOptionsBuilder::new().max_depth(1).build();
    let mut walk = glob_stream(&opts, 0);
    assert_eq!(walk.next_directory(), Some((0, 0)));
    assert_eq!(walk.classify(0, 1, true, false), EntryAction::Descend);
    assert_eq!(walk.next_directory(), Some((1, 1)));
    assert_eq!(walk.classify(1, 2, true, false), EntryAction::Skip);
    assert_eq!(walk.classify(1, 3, false, false), EntryAction::Candidate);
    assert_eq!(walk.next_directory(), None);

    let opts = GlobOptionsBuilder::new().max_depth(0).build();
    let mut walk = glob_stream(&opts, 0);
    assert_eq!(walk.next_directory(), Some((0, 0)));
    assert_eq!(walk.classify(0, 1, true, false), EntryAction::Skip);
    assert_eq!(walk.classify(0, 2, false, false), EntryAction::Candidate);
    assert_eq!(walk.next_directory(), None);
    let mut deep = glob_stream(&GlobOptions::default(), 0);
    assert_eq!(deep.classify(usize::MAX, 1, true, false), EntryAction::Descend);
    assert_eq!(deep.next_directory(), Some((1, usize::MAX)));
}

#[test]
fn links_are_skipped_unless_followed() {
    let mut walk = glob_stream(&GlobOptions::default(), 0);
    assert_eq!(walk.classify(0, 1, false, true), EntryAction::Skip);
    assert_eq!(walk.classify(0, 1, true, true), EntryAction::Skip);
    assert!(walk.consider(&b"a".to_vec(), true));
    assert!(walk.consider(&b"a".to_vec(), true));
    let follow = GlobOptionsBuilder::new().follow_symlinks(true).build();
    let mut walk = glob_stream(&follow, 0);
    assert_eq!(walk.classify(0, 1, false, true), EntryAction::Candidate);
    assert_eq!(walk.classify(0, 1, true, true), EntryAction::Descend);
    assert!(walk.consider(&b"a".to_vec(), true));
    assert!(!walk.consider(&b"a".to_vec(), true));
    assert!(walk.consider(&b"b".to_vec(), false));
}

#[test]
fn entries_outside_the_root_are_not_considered() {
    let rooted = GlobOptionsBuilder::new()
        .root_dir("root".to_string())
        .follow_symlinks(true)
        .build();
    let mut walk = glob_stream(&rooted, 0);
    assert!(!walk.consider(&b"elsewhere".to_vec(), false));
    assert!(!walk.consider(&b"elsewhere".to_vec(), false));
    assert!(walk.consider(&b"elsewhere".to_vec(), true));
    assert!(!walk.consider(&b"elsewhere".to_vec(), true));
}

#[test]
fn both_walks_find_the_same_files() {
    let p = compile(&["*.rs", "@(x|y).md"]);
    let mut sized = Predicates::unconstrained();
    sized.max_size = Some(5);
    let entries: Vec<(&str, bool, u64)> = vec![
        ("src", true, 0),
        ("src/a.rs", false, 1),
        ("src/b.md", false, 2),
        ("x.md", false, 3),
        ("big.rs", false, 6),
        ("y.md", false, 9),
        ("notes.rs", true, 0),
    ];
    for predicates in [None, Some(sized)] {
        let events = entries
            .iter()
            .map(|(path, is_dir, len)| if *is_dir { dir(path) } else { file(path, *len) })
            .collect();
        let batch = glob_sync(&p, &GlobOptions::default(), &predicates, events, 0).unwrap();

        let mut walk = glob_stream(&GlobOptions::default(), 0);
        let mut io = BatchIO::new(10, false);
        let mut streamed: Vec<String> = Vec::new();
        for (number, (path, is_dir, len)) in entries.iter().enumerate() {
            if !walk.consider(&path.as_bytes().to_vec(), true) {
                continue;
            }
            if walk.classify(0, number + 1, *is_dir, false) != EntryAction::Candidate {
                continue;
            }
            let emit = match judge_candidate(&p, &predicates, Some(path)) {
                CandidateAction::Skip => false,
                CandidateAction::Emit => true,
                CandidateAction::NeedMetadata => {
                    let stat = io.stat(path, 0, probe(*len));
                    judge_metadata(&predicates.unwrap(), stat).unwrap()
                }
            };
            if emit {
                streamed.push(path.to_string());
            }
        }
        assert_eq!(batch, streamed);
    }
    let batch = glob_sync(
        &p,
        &GlobOptions::default(),
        &Some(sized),
        vec![file("src/a.rs", 1), file("big.rs", 6), file("x.md", 5)],
        0,
    )
    .unwrap();
    assert_eq!(batch, vec!["src/a.rs", "x.md"]);
}

#[test]
fn candidates_are_judged_by_pattern_and_predicates() {
    let p = compile(&["*.rs"]);
    let pred = Some(Predicates::unconstrained());
    assert_eq!(judge_candidate(&p, &None, Some("a.rs")), CandidateAction::Emit);
    assert_eq!(judge_candidate(&p, &None, Some("a.md")), CandidateAction::Skip);
    assert_eq!(judge_candidate(&p, &None, None), CandidateAction::Skip);
    assert_eq!(
        judge_candidate(&p, &pred, Some("a.rs")),
        CandidateAction::NeedMetadata
    );
    assert_eq!(judge_candidate(&p, &pred, Some("a.md")), CandidateAction::Skip);
    let mut sized = Predicates::unconstrained();
    sized.min_size = Some(5);
    assert_eq!(judge_metadata(&sized, Ok(meta(5))).unwrap(), true);
    assert_eq!(judge_metadata(&sized, Ok(meta(4))).unwrap(), false);
    assert!(matches!(
        judge_metadata(&sized, Err(GlobError::PermissionDenied)),
        Err(GlobError::PermissionDenied)
    ));
}

#[test]
fn a_candidate_waits_for_the_timeout_or_thirty_seconds() {
    assert_eq!(permit_wait(&GlobOptions::default()), Duration::from_secs(30));
    let opts = GlobOptionsBuilder::new()
        .timeout(Duration::from_millis(250))
        .build();
    assert_eq!(permit_wait(&opts), Duration::from_millis(250));
}

#[test]
fn stream_starts_after_the_patterns_compiled() {
    let mut caches = PatternCaches::new();
    let opts = GlobOptionsBuilder::new().max_depth(0).build();
    let (p, mut walk) = PatternHunt::stream(&["*.rs"], 9, &opts, &mut caches, 0).unwrap();
    assert!(p.is_match("x.rs"));
    assert_eq!(walk.next_directory(), Some((9, 0)));
    assert_eq!(walk.classify(0, 1, true, false), EntryAction::Skip);
    assert!(matches!(
        PatternHunt::stream(&["**/.."], 0, &opts, &mut caches, 0),
        Err(GlobError::PathTraversal)
    ));
}

use patternhunt::predicates::{FileMeta, FileType};
use patternhunt::Predicates;

fn file(len: u64) -> FileMeta {
    FileMeta {
        len,
        is_file: true,
        is_dir: false,
        is_symlink: false,
        readonly: false,
        modified: Some(1_000),
        created: Some(500),
    }
}

#[test]
fn no_condition_accepts_everything() {
    let p = Predicates::unconstrained();
    assert!(p.matches(&file(0)));
    assert!(p.matches(&file(u64::MAX)));
    let mut dir = file(4096);
    dir.is_file = false;
    dir.is_dir = true;
    dir.modified = None;
    dir.created = None;
    assert!(p.matches(&dir));
}

#[test]
fn equal_size_bounds_accept_that_size_only() {
    let mut p = Predicates::unconstrained();
    p.min_size = Some(1024);
    p.max_size = Some(1024);
    assert!(p.matches(&file(1024)));
    assert!(!p.matches(&file(1023)));
    assert!(!p.matches(&file(1025)));
    assert!(!p.matches(&file(0)));
}

#[test]
fn size_bounds_are_inclusive() {
    let mut p = Predicates::unconstrained();
    p.min_size = Some(10);
    assert!(!p.matches(&file(9)));
    assert!(p.matches(&file(10)));
    p.max_size = Some(20);
    assert!(p.matches(&file(20)));
    assert!(!p.matches(&file(21)));
    p.min_size = Some(30);
    assert!(!p.matches(&file(25)));
}

#[test]
fn type_must_be_the_one_asked_for() {
    let mut p = Predicates::unconstrained();
    let mut link = file(1);
    link.is_file = false;
    link.is_symlink = true;
    let mut dir = file(1);
    dir.is_file = false;
    dir.is_dir = true;
    p.file_type = Some(FileType::File);
    assert!(p.matches(&file(1)));
    assert!(!p.matches(&dir));
    assert!(!p.matches(&link));
    p.file_type = Some(FileType::Dir);
    assert!(p.matches(&dir));
    assert!(!p.matches(&file(1)));
    p.file_type = Some(FileType::Symlink);
    assert!(p.matches(&link));
    assert!(!p.matches(&file(1)));
}

#[test]
fn time_bounds_are_inclusive_and_ask_nothing_of_a_missing_time() {
    let mut p = Predicates::unconstrained();
    p.mtime_after = Some(1_000);
    p.mtime_before = Some(1_000);
    assert!(p.matches(&file(1)));
    let mut older = file(1);
    older.modified = Some(999);
    assert!(!p.matches(&older));
    let mut newer = file(1);
    newer.modified = Some(1_001);
    assert!(!p.matches(&newer));
    let mut unknown = file(1);
    unknown.modified = None;
    assert!(p.matches(&unknown));

    let mut p = Predicates::unconstrained();
    p.ctime_after = Some(-5);
    p.ctime_before = Some(500);
    assert!(p.matches(&file(1)));
    let mut early = file(1);
    early.created = Some(-6);
    assert!(!p.matches(&early));
    let mut late = file(1);
    late.created = Some(501);
    assert!(!p.matches(&late));
    late.created = None;
    assert!(p.matches(&late));
}

#[test]
fn conditions_combine() {
    let mut p = Predicates::unconstrained();
    p.min_size = Some(1);
    p.file_type = Some(FileType::File);
    p.mtime_after = Some(0);
    assert!(p.matches(&file(1)));
    assert!(!p.matches(&file(0)));
    let mut old = file(1);
    old.modified = Some(-1);
    assert!(!p.matches(&old));
}

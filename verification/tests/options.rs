use patternhunt::options::DEFAULT_MAX_INFLIGHT;
use patternhunt::predicates::FileType;
use patternhunt::windows::{ensure_long_path_prefix, with_long_path_prefix};
use patternhunt::{GlobError, GlobOptions, GlobOptionsBuilder, Predicates};
use std::time::Duration;

#[test]
fn defaults() {
    let o = GlobOptions::default();
    assert!(!o.follow_symlinks);
    assert_eq!(o.max_depth, None);
    assert_eq!(o.case_sensitive, !std::path::is_separator('\\'));
    assert_eq!(o.max_inflight, 64);
    assert_eq!(DEFAULT_MAX_INFLIGHT, 64);
    assert_eq!(o.timeout, None);
    assert!(o.predicates.is_none());
    assert_eq!(o.root_dir, None);
    assert!(GlobOptions::for_platform(false).case_sensitive);
    assert!(!GlobOptions::for_platform(true).case_sensitive);
    assert_eq!(GlobOptions::for_platform(true).max_inflight, 64);
    let b = GlobOptionsBuilder::new().build();
    assert_eq!(b.max_inflight, 64);
    assert_eq!(b.case_sensitive, o.case_sensitive);
    let d = GlobOptionsBuilder::default().build();
    assert!(!d.follow_symlinks);
    assert_eq!(d.max_depth, None);
}

#[test]
fn each_setter_sets_its_field_and_no_other() {
    let mut p = Predicates::unconstrained();
    p.file_type = Some(FileType::Dir);
    let o = GlobOptionsBuilder::new()
        .follow_symlinks(true)
        .max_depth(3)
        .case_sensitive(false)
        .max_inflight(7)
        .timeout(Duration::from_millis(1500))
        .predicates(p)
        .root_dir("some/root".to_string())
        .build();
    assert!(o.follow_symlinks);
    assert_eq!(o.max_depth, Some(3));
    assert!(!o.case_sensitive);
    assert_eq!(o.max_inflight, 7);
    assert_eq!(o.timeout, Some(Duration::from_millis(1500)));
    assert_eq!(o.predicates.unwrap().file_type, Some(FileType::Dir));
    assert_eq!(o.root_dir.as_deref(), Some("some/root"));

    let o = GlobOptionsBuilder::new().max_depth(0).build();
    assert_eq!(o.max_depth, Some(0));
    assert!(!o.follow_symlinks);
    assert_eq!(o.max_inflight, 64);
    assert_eq!(o.timeout, None);
    assert_eq!(o.root_dir, None);
    let o = GlobOptionsBuilder::new().max_depth(1).max_depth(2).build();
    assert_eq!(o.max_depth, Some(2));
}

#[test]
fn long_path_prefix_is_added_once_on_windows_only() {
    assert_eq!(with_long_path_prefix("C:\\a\\b", true), "\\\\?\\C:\\a\\b");
    assert_eq!(with_long_path_prefix("\\\\?\\C:\\a", true), "\\\\?\\C:\\a");
    assert_eq!(with_long_path_prefix("", true), "\\\\?\\");
    assert_eq!(with_long_path_prefix("\\\\?", true), "\\\\?\\\\\\?");
    assert_eq!(with_long_path_prefix("C:\\a\\b", false), "C:\\a\\b");
    assert_eq!(with_long_path_prefix("/usr/lib", false), "/usr/lib");
    let windows = std::path::is_separator('\\');
    assert_eq!(
        ensure_long_path_prefix("C:\\x"),
        with_long_path_prefix("C:\\x", windows)
    );
}

#[test]
fn every_error_has_its_message() {
    assert_eq!(
        GlobError::InvalidPattern("x[".to_string()).message(),
        "Invalid pattern: x["
    );
    assert_eq!(GlobError::Other("odd".to_string()).message(), "Other error: odd");
    assert_eq!(
        GlobError::BraceExpansionDepth.message(),
        "Brace expansion exceeded maximum depth"
    );
    assert_eq!(
        GlobError::BraceExpansionCount.message(),
        "Brace expansion exceeded maximum expansions"
    );
    assert_eq!(
        GlobError::RegexTooComplex.message(),
        "Regex pattern too complex or long"
    );
    assert_eq!(GlobError::PathTraversal.message(), "Path traversal not allowed");
    assert_eq!(GlobError::SymlinkCycle.message(), "Symlink cycle detected");
    assert_eq!(GlobError::Timeout.message(), "Operation timed out");
    assert_eq!(GlobError::PermissionDenied.message(), "Permission denied");
    let io = std::io::Error::new(std::io::ErrorKind::Other, "boom");
    assert_eq!(GlobError::Io(io).message(), "IO error: boom");
    let re = regex::Regex::new("(").unwrap_err();
    let said = re.to_string();
    assert_eq!(GlobError::Regex(re).message(), format!("Regex error: {}", said));
    let walk = walkdir::WalkDir::new("no/such/place/anywhere")
        .into_iter()
        .next()
        .unwrap()
        .unwrap_err();
    let said = walk.to_string();
    assert!(said.len() > 0);
    assert_eq!(
        GlobError::Walkdir(walk).message(),
        format!("Walkdir error: {}", said)
    );
}

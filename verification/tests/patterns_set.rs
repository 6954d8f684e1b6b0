use patternhunt::patterns::cache::{regex_cache_metrics, PatternCaches};
use patternhunt::{GlobError, GlobOptions, Patterns};

fn compile(patterns: &[&str]) -> Result<Patterns, GlobError> {
    let mut caches = PatternCaches::new();
    Patterns::compile_many(patterns, &GlobOptions::default(), &mut caches)
}

#[test]
fn basic_globs_match_by_extension() {
    let p = compile(&["*.rs", "*.toml"]).unwrap();
    assert!(p.is_match("a.rs"));
    assert!(p.is_match("b.toml"));
    assert!(!p.is_match("c.md"));
    assert_eq!(p.set.len(), 2);
    assert!(p.regexes.is_empty());
}

#[test]
fn empty_pattern_list_matches_nothing() {
    let p = compile(&[]).unwrap();
    assert!(p.set.is_empty());
    assert!(p.regexes.is_empty());
    for path in ["", "a", "a.rs", "dir/file.txt", "*"] {
        assert!(!p.is_match(path));
        assert!(!p.could_match(path));
    }
}

#[test]
fn blank_patterns_are_passed_over_and_others_are_trimmed() {
    let p = compile(&["", "   ", "\t*.rs \n", "\u{2003}*.md\u{00a0}"]).unwrap();
    assert_eq!(p.set.len(), 2);
    assert!(p.is_match("x.rs"));
    assert!(p.is_match("x.md"));
    assert!(!p.is_match("x.c"));
}

#[test]
fn raw_regex_matches_as_the_regex_itself() {
    let p = compile(&["re:^[a-z]+\\.rs$"]).unwrap();
    assert!(p.is_match("foo.rs"));
    assert!(!p.is_match("Foo.rs"));
    assert!(p.set.is_empty());
    assert_eq!(p.regexes.len(), 1);
    let direct = regex::Regex::new("^[a-z]+\\.rs$").unwrap();
    assert_eq!(p.regexes[0].as_str(), direct.as_str());
    for path in ["foo.rs", "Foo.rs", "a/b.rs", "", "x.rs.bak", "zz.rs"] {
        assert_eq!(p.is_match(path), direct.is_match(path));
    }
}

#[test]
fn extended_glob_matches_its_alternatives_only() {
    let p = compile(&["@(a|b)"]).unwrap();
    assert_eq!(p.regexes[0].as_str(), "^(?:a|b)$");
    assert!(p.is_match("a"));
    assert!(p.is_match("b"));
    assert!(!p.is_match("c"));
    assert!(!p.is_match("ab"));
    assert!(!p.is_match(""));
}

#[test]
fn quantified_groups_repeat_their_alternatives() {
    let p = compile(&["+(ab|c).txt"]).unwrap();
    assert!(p.is_match("abcab.txt"));
    assert!(!p.is_match(".txt"));
    let p = compile(&["x?(y)z"]).unwrap();
    assert!(p.is_match("xz"));
    assert!(p.is_match("xyz"));
    assert!(!p.is_match("xyyz"));
    let p = compile(&["*(a)b"]).unwrap();
    assert!(p.is_match("b"));
    assert!(p.is_match("aaab"));
}

#[test]
fn traversal_is_rejected() {
    assert!(matches!(compile(&["src/../etc"]), Err(GlobError::PathTraversal)));
    assert!(matches!(compile(&["**/.."]), Err(GlobError::PathTraversal)));
    assert!(matches!(compile(&["a/**/../b"]), Err(GlobError::PathTraversal)));
    assert!(matches!(
        compile(&["*.rs", "  /../x  "]),
        Err(GlobError::PathTraversal)
    ));
    assert!(compile(&["../x"]).is_ok());
    assert!(compile(&["a/.."]).is_ok());
}

#[test]
fn braces_are_expanded_before_anything_else() {
    let p = compile(&["file.{txt,md}"]).unwrap();
    assert_eq!(p.set.len(), 2);
    assert!(p.is_match("file.txt"));
    assert!(p.is_match("file.md"));
    assert!(!p.is_match("file.rs"));
    let p = compile(&["re:^a{1,2}$"]).unwrap();
    assert_eq!(p.regexes.len(), 2);
    assert_eq!(p.regexes[0].as_str(), "^a1$");
    assert_eq!(p.regexes[1].as_str(), "^a2$");
    let p = compile(&["v{1..3}.[ch]"]).unwrap();
    assert_eq!(p.regexes.len(), 3);
    assert!(p.is_match("v2.c"));
    assert!(!p.is_match("v4.c"));
    assert!(matches!(compile(&["a{b"]), Err(GlobError::InvalidPattern(_))));
    assert!(matches!(compile(&["a}b{"]), Err(GlobError::InvalidPattern(_))));
    let p = compile(&["a}b"]).unwrap();
    assert_eq!(p.regexes[0].as_str(), "^a}b$");
}

#[test]
fn brace_limits_fail_the_compilation() {
    assert!(matches!(
        compile(&["{1..2000}"]),
        Err(GlobError::BraceExpansionCount)
    ));
    assert!(matches!(
        compile(&["{{{{{{{{{{{a,b}}}}}}}}}}}"]),
        Err(GlobError::BraceExpansionDepth)
    ));
}

#[test]
fn each_failure_of_a_single_pattern_has_its_error() {
    assert!(matches!(compile(&["@(a|b"]), Err(GlobError::InvalidPattern(_))));
    assert!(matches!(compile(&["!(a|b)"]), Err(GlobError::Regex(_))));
    assert!(matches!(compile(&["re:("]), Err(GlobError::Regex(_))));
    let long = format!("re:{}", "a".repeat(1001));
    assert!(matches!(
        compile(&[long.as_str()]),
        Err(GlobError::RegexTooComplex)
    ));
    match compile(&["a\\"]) {
        Err(GlobError::InvalidPattern(m)) => assert!(m.contains("dangling")),
        Ok(_) => assert!(std::path::is_separator('\\')),
        _ => panic!("a dangling escape is an invalid pattern"),
    }
}

#[test]
fn the_first_failure_wins() {
    assert!(matches!(
        compile(&["re:(", "src/../etc"]),
        Err(GlobError::Regex(_))
    ));
    assert!(matches!(
        compile(&["src/../etc", "re:("]),
        Err(GlobError::PathTraversal)
    ));
}

#[test]
fn complex_pattern_is_told_by_its_characters() {
    for c in "@!+?()[]{}|".chars() {
        assert!(Patterns::is_complex_pattern(&format!("a{}b", c)));
    }
    assert!(!Patterns::is_complex_pattern("src/**/*.rs"));
    assert!(!Patterns::is_complex_pattern(""));
}

#[test]
fn could_match_is_a_quick_guess() {
    let p = compile(&["*.rs"]).unwrap();
    assert!(p.could_match("a.rs"));
    assert!(!p.could_match("a.md"));
    let p = compile(&["*.rs", "@(x)"]).unwrap();
    assert!(p.could_match("a.md"));
    assert!(!p.is_match("a.md"));
}

#[test]
fn add_glob_pattern_feeds_the_builder() {
    let mut builder = globset::GlobSetBuilder::new();
    Patterns::add_glob_pattern("*.rs", &mut builder).unwrap();
    Patterns::add_glob_pattern("*.md", &mut builder).unwrap();
    assert!(matches!(
        Patterns::add_glob_pattern("[z", &mut builder),
        Err(GlobError::InvalidPattern(_))
    ));
    let set = builder.build().unwrap();
    assert_eq!(set.len(), 2);
    assert_eq!(set.matches("a.md"), vec![1]);
}

#[test]
fn process_pattern_adds_to_both_engines() {
    let mut caches = PatternCaches::new();
    let mut builder = globset::GlobSetBuilder::new();
    let mut regexes = Vec::new();
    let pattern: Vec<char> = "{*.rs,?.md,re:^x$}".chars().collect();
    Patterns::process_pattern(
        &pattern,
        &mut builder,
        &mut regexes,
        &GlobOptions::default(),
        &mut caches,
        0,
    )
    .unwrap();
    assert_eq!(builder.build().unwrap().len(), 1);
    assert_eq!(regexes.len(), 2);
    assert_eq!(regexes[0].as_str(), "^.\\.md$");
    assert_eq!(regexes[1].as_str(), "^x$");
}

#[test]
fn compiling_at_a_time_asks_the_cache_at_that_time() {
    let mut caches = PatternCaches::new();
    let opts = GlobOptions::default();
    let ttl = patternhunt::patterns::cache::DEFAULT_TTL;
    Patterns::compile_many_at(&["@(a|b)", "re:x", "@(a|b)"], &opts, &mut caches, 5).unwrap();
    let m = regex_cache_metrics(&caches);
    assert_eq!((m.hits, m.misses, m.evictions, m.size), (1, 2, 0, 2));
    assert!(Patterns::compile_many_at(&["re:x", "re:("], &opts, &mut caches, 5 + ttl - 1).is_err());
    let m = regex_cache_metrics(&caches);
    assert_eq!((m.hits, m.misses, m.evictions, m.size), (2, 3, 0, 2));
    assert!(
        Patterns::compile_many_at(&["re:x", "a/../b", "re:y"], &opts, &mut caches, 5 + ttl)
            .is_err()
    );
    let m = regex_cache_metrics(&caches);
    assert_eq!((m.hits, m.misses, m.evictions, m.size), (2, 4, 1, 2));
}

#[test]
fn compiling_goes_through_the_regex_cache() {
    let mut caches = PatternCaches::new();
    let opts = GlobOptions::default();
    Patterns::compile_many(&["@(a|b)", "*.rs"], &opts, &mut caches).unwrap();
    Patterns::compile_many(&["@(a|b)"], &opts, &mut caches).unwrap();
    let m = regex_cache_metrics(&caches);
    assert_eq!((m.hits, m.misses, m.size), (1, 1, 1));
}

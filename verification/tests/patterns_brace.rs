use patternhunt::patterns::brace;
use patternhunt::GlobError;

#[test]
fn brace_test_brace_expansion() {
    assert_eq!(
        brace::expand("file.{txt,md}").unwrap(),
        vec!["file.txt", "file.md"]
    );
    assert_eq!(
        brace::expand("test{1..3}").unwrap(),
        vec!["test1", "test2", "test3"]
    );
    assert_eq!(brace::expand("a{b,c}d").unwrap(), vec!["abd", "acd"]);
}

#[test]
fn test_brace_expansion_depth() {
    let result = brace::expand("{a,b{1,2}}");
    assert!(result.is_ok());
}

#[test]
fn test_brace_expansion_too_deep() {
    let deep = "{{{{{{{{{{{a,b}}}}}}}}}}}";
    let result = brace::expand(deep);
    assert!(matches!(result, Err(GlobError::BraceExpansionDepth)));
}

#[test]
fn patterns_brace_test_brace_expansion() {
    let v = brace::expand("a{b,c}d").unwrap();
    assert!(v.contains(&"abd".to_string()));
    assert!(v.contains(&"acd".to_string()));
}

#[test]
fn test_brace_expansion_multiple() {
    let v = brace::expand("file.{txt,md}").unwrap();
    assert!(v.contains(&"file.txt".to_string()));
    assert!(v.contains(&"file.md".to_string()));
}

#[test]
fn test_brace_expansion_numeric_range() {
    let v = brace::expand("test{1..3}").unwrap();
    assert!(v.contains(&"test1".to_string()));
    assert!(v.contains(&"test2".to_string()));
    assert!(v.contains(&"test3".to_string()));
}

#[test]
fn test_brace_expansion_depth_limit() {
    let result = brace::expand("{a,{b,{c,{d,{e,{f,{g,{h,{i,{j,{k,l}}}}}}}}}}}");
    assert!(result.is_err());
}

#[test]
fn test_brace_expansion_count_limit() {
    let result = brace::expand("{1..10000}");
    assert!(result.is_err());
}

#[test]
fn plain_pattern_expands_to_itself() {
    assert_eq!(brace::expand("src/*.rs").unwrap(), vec!["src/*.rs"]);
    assert_eq!(brace::expand("").unwrap(), vec![""]);
}

#[test]
fn unbalanced_braces_are_left_alone() {
    assert_eq!(brace::expand("a{b,c").unwrap(), vec!["a{b,c"]);
    assert_eq!(brace::expand("a}b{c,d}").unwrap(), vec!["a}b{c,d}"]);
}

#[test]
fn empty_alternatives_are_kept() {
    assert_eq!(brace::expand("a{,b}").unwrap(), vec!["a", "ab"]);
    assert_eq!(brace::expand("a{b,}").unwrap(), vec!["ab", "a"]);
    assert_eq!(brace::expand("a{b,,c}").unwrap(), vec!["ab", "a", "ac"]);
    assert_eq!(brace::expand("x{}y").unwrap(), vec!["xy"]);
}

#[test]
fn nested_groups_and_suffix_groups_multiply() {
    assert_eq!(
        brace::expand("{a,b{1,2}}").unwrap(),
        vec!["a", "b1", "b2"]
    );
    assert_eq!(
        brace::expand("{a,b}{x,y}").unwrap(),
        vec!["ax", "ay", "bx", "by"]
    );
    assert_eq!(
        brace::expand("p{a,b}m{1..2}s").unwrap(),
        vec!["pam1s", "pam2s", "pbm1s", "pbm2s"]
    );
}

#[test]
fn ranges_count_upwards_and_take_signs() {
    assert_eq!(brace::expand("{-1..1}").unwrap(), vec!["-1", "0", "1"]);
    assert_eq!(brace::expand("{+2..3}").unwrap(), vec!["2", "3"]);
    assert_eq!(brace::expand("{08..10}").unwrap(), vec!["8", "9", "10"]);
    assert_eq!(brace::expand("{7..7}").unwrap(), vec!["7"]);
    assert_eq!(
        brace::expand("{-9223372036854775808..-9223372036854775807}").unwrap(),
        vec!["-9223372036854775808", "-9223372036854775807"]
    );
}

#[test]
fn descending_range_stands_for_nothing() {
    let none: Vec<String> = Vec::new();
    assert_eq!(brace::expand("a{5..1}b").unwrap(), none);
}

#[test]
fn not_a_range_is_taken_as_written() {
    assert_eq!(brace::expand("{1..x}").unwrap(), vec!["1..x"]);
    assert_eq!(brace::expand("{1...3}").unwrap(), vec!["1...3"]);
    assert_eq!(brace::expand("{1..2..3}").unwrap(), vec!["1..2..3"]);
    assert_eq!(
        brace::expand("{1..9223372036854775808}").unwrap(),
        vec!["1..9223372036854775808"]
    );
}

#[test]
fn exactly_the_limit_is_allowed_and_one_more_is_not() {
    assert_eq!(brace::expand("{1..1000}").unwrap().len(), 1000);
    assert!(matches!(
        brace::expand("{1..1001}"),
        Err(GlobError::BraceExpansionCount)
    ));
    assert!(matches!(
        brace::expand("{1..10000}"),
        Err(GlobError::BraceExpansionCount)
    ));
    assert!(matches!(
        brace::expand("{1..40}{1..40}"),
        Err(GlobError::BraceExpansionCount)
    ));
    assert!(matches!(
        brace::expand("{0..9223372036854775807}"),
        Err(GlobError::BraceExpansionCount)
    ));
}

#[test]
fn ten_levels_are_allowed_and_eleven_are_not() {
    assert_eq!(
        brace::expand("{{{{{{{{{{a,b}}}}}}}}}}").unwrap(),
        vec!["a", "b"]
    );
    assert!(matches!(
        brace::expand("{{{{{{{{{{{a,b}}}}}}}}}}}"),
        Err(GlobError::BraceExpansionDepth)
    ));
    assert!(matches!(
        brace::expand("{a}{b}{c}{d}{e}{f}{g}{h}{i}{j}{k}"),
        Err(GlobError::BraceExpansionDepth)
    ));
}

#[test]
fn the_first_failure_met_is_the_one_reported() {
    let none: Vec<String> = Vec::new();
    assert_eq!(brace::expand("{5..1}{{{{{{{{{{{a}}}}}}}}}}}").unwrap(), none);
    assert!(matches!(
        brace::expand("{1..3}{{{{{{{{{{{a}}}}}}}}}}}"),
        Err(GlobError::BraceExpansionDepth)
    ));
    assert!(matches!(
        brace::expand("{{1..2000},{{{{{{{{{{{a}}}}}}}}}}}}"),
        Err(GlobError::BraceExpansionCount)
    ));
    assert!(matches!(
        brace::expand("{{{{{{{{{{{{a}}}}}}}}}}},{1..2000}}"),
        Err(GlobError::BraceExpansionDepth)
    ));
}

#[test]
fn parse_range_reads_two_integers() {
    let chars: Vec<char> = "12..-3".chars().collect();
    assert_eq!(brace::parse_range(&chars), Some((12, -3)));
    let chars: Vec<char> = "12.3".chars().collect();
    assert_eq!(brace::parse_range(&chars), None);
    let chars: Vec<char> = "..3".chars().collect();
    assert_eq!(brace::parse_range(&chars), None);
}

#[test]
fn render_decimal_writes_base_ten() {
    let text: String = brace::render_decimal(-120).into_iter().collect();
    assert_eq!(text, "-120");
    let text: String = brace::render_decimal(0).into_iter().collect();
    assert_eq!(text, "0");
    let text: String = brace::render_decimal(i64::MIN).into_iter().collect();
    assert_eq!(text, "-9223372036854775808");
}

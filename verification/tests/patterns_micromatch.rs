use patternhunt::patterns::micromatch::{
    collect_until_balanced, micromatch_to_regex, process_character_class, process_extglob,
    regex_escape_char, tokenize, tokens_to_string, Token,
};
use patternhunt::GlobError;

fn text(chars: Vec<char>) -> String {
    chars.into_iter().collect()
}

#[test]
fn test_basic_patterns() {
    assert_eq!(micromatch_to_regex("*.txt").unwrap(), "^.*\\.txt$");
    assert_eq!(micromatch_to_regex("file?.txt").unwrap(), "^file.\\.txt$");
    assert_eq!(
        micromatch_to_regex("file[0-9].txt").unwrap(),
        "^file[0-9]\\.txt$"
    );
}

#[test]
fn test_extglob_patterns() {
    assert_eq!(micromatch_to_regex("@(a|b)").unwrap(), "^(?:a|b)$");
    assert_eq!(micromatch_to_regex("*(a|b)").unwrap(), "^(?:a|b)*$");
    assert_eq!(micromatch_to_regex("+(a|b)").unwrap(), "^(?:a|b)+$");
    assert_eq!(micromatch_to_regex("?(a|b)").unwrap(), "^(?:a|b)?$");
}

#[test]
fn micromatch_test_brace_expansion() {
    assert_eq!(
        micromatch_to_regex("file.{txt,md}").unwrap(),
        "^file\\.(?:^txt$|^md$)$"
    );
}

#[test]
fn negated_group_uses_a_lookahead() {
    assert_eq!(micromatch_to_regex("!(a|b)").unwrap(), "^(?!(?:a|b)).*$");
}

#[test]
fn raw_regex_is_handed_back_without_the_prefix() {
    assert_eq!(micromatch_to_regex("re:^[a-z]+\\.rs$").unwrap(), "^[a-z]+\\.rs$");
    assert_eq!(micromatch_to_regex("re:").unwrap(), "");
}

#[test]
fn empty_pattern_is_just_the_anchors() {
    assert_eq!(micromatch_to_regex("").unwrap(), "^$");
}

#[test]
fn single_character_operators() {
    assert_eq!(micromatch_to_regex("a?b*c+").unwrap(), "^a.b.*c.+$");
    assert_eq!(micromatch_to_regex("a@b!c").unwrap(), "^a@b!c$");
}

#[test]
fn literal_characters_are_escaped() {
    assert_eq!(micromatch_to_regex("a.b^c$d").unwrap(), "^a\\.b\\^c\\$d$");
    assert_eq!(micromatch_to_regex("\\*\\(\\a").unwrap(), "^\\*\\(a$");
    assert_eq!(micromatch_to_regex("a\\").unwrap(), "^a\\\\$");
    assert_eq!(micromatch_to_regex("a-b,c").unwrap(), "^a-b,c$");
}

#[test]
fn character_classes_keep_ranges_and_negate_with_a_caret() {
    assert_eq!(micromatch_to_regex("[!a-c]").unwrap(), "^[^a-c]$");
    assert_eq!(micromatch_to_regex("[a.b]").unwrap(), "^[a.b]$");
    assert_eq!(micromatch_to_regex("x[\\]]y").unwrap(), "^x[\\]]y$");
}

#[test]
fn nested_groups_are_translated_inside_out() {
    assert_eq!(
        micromatch_to_regex("@(a|+(b|c))").unwrap(),
        "^(?:a|(?:b|c)+)$"
    );
    assert_eq!(micromatch_to_regex("@(*.rs|b?)").unwrap(), "^(?:.*\\.rs|b.)$");
    assert_eq!(micromatch_to_regex("@(a$|b)").unwrap(), "^(?:a\\$|b)$");
    assert_eq!(micromatch_to_regex("@(a|)").unwrap(), "^(?:a)$");
    assert_eq!(micromatch_to_regex("@(|a)").unwrap(), "^(?:|a)$");
    assert_eq!(micromatch_to_regex("@()").unwrap(), "^(?:)$");
    assert_eq!(micromatch_to_regex("@(re:^x$|b)").unwrap(), "^(?:x|b)$");
}

#[test]
fn brace_alternatives_split_at_every_comma() {
    assert_eq!(micromatch_to_regex("{a,}").unwrap(), "^(?:^a$|^$)$");
    assert_eq!(micromatch_to_regex("{a}").unwrap(), "^(?:^a$)$");
    assert_eq!(micromatch_to_regex("{re:x,b}").unwrap(), "^(?:x|^b$)$");
}

#[test]
fn unbalanced_groups_are_rejected() {
    for pattern in ["@(a|b", "[abc", "{a,b", "a*(b", "@(a|[b)", "{a,{b,c}}"] {
        match micromatch_to_regex(pattern) {
            Err(GlobError::InvalidPattern(m)) => {
                assert_eq!(m, "unbalanced parentheses in extglob")
            }
            _ => panic!("{} should be rejected", pattern),
        }
    }
}

#[test]
fn stray_closers_stand_for_themselves() {
    assert_eq!(micromatch_to_regex("a)b]c}d|e(f").unwrap(), "^a)b]c}d|e(f$");
}

#[test]
fn tokens_are_read_and_written_back() {
    let tokens = tokenize("a\\*[!b]|\\");
    assert_eq!(
        tokens,
        vec![
            Token::Char('a'),
            Token::Escaped('*'),
            Token::OpenBracket,
            Token::Exclamation,
            Token::Char('b'),
            Token::CloseBracket,
            Token::Pipe,
            Token::Char('\\'),
        ]
    );
    assert_eq!(tokens_to_string(&tokens), "a\\*[!b]|\\");
    assert_eq!(
        tokenize("(){}?*+@,.^$-"),
        vec![
            Token::OpenParen,
            Token::CloseParen,
            Token::OpenBrace,
            Token::CloseBrace,
            Token::Question,
            Token::Star,
            Token::Plus,
            Token::At,
            Token::Comma,
            Token::Dot,
            Token::Caret,
            Token::Dollar,
            Token::Minus,
        ]
    );
}

#[test]
fn escape_char_guards_regex_syntax() {
    for c in ".+?*()[]{}^$|\\".chars() {
        assert_eq!(regex_escape_char(c), format!("\\{}", c));
    }
    assert_eq!(regex_escape_char('a'), "a");
    assert_eq!(regex_escape_char('-'), "-");
}

#[test]
fn collect_stops_at_the_balancing_token() {
    let tokens = tokenize("a(b)c)d");
    let (inner, next) =
        collect_until_balanced(&tokens, 0, Token::OpenParen, Token::CloseParen).unwrap();
    assert_eq!(tokens_to_string(&inner), "a(b)c");
    assert_eq!(next, 6);
    assert!(matches!(
        collect_until_balanced(&tokens, 6, Token::OpenParen, Token::CloseParen),
        Err(GlobError::InvalidPattern(_))
    ));
}

#[test]
fn extglob_wraps_by_operator() {
    let inner = tokenize("a|b");
    assert_eq!(text(process_extglob(&inner, Token::Question).unwrap()), "(?:a|b)?");
    assert_eq!(text(process_extglob(&inner, Token::Star).unwrap()), "(?:a|b)*");
    assert_eq!(text(process_extglob(&inner, Token::Plus).unwrap()), "(?:a|b)+");
    assert_eq!(text(process_extglob(&inner, Token::At).unwrap()), "(?:a|b)");
    assert_eq!(
        text(process_extglob(&inner, Token::Exclamation).unwrap()),
        "(?!(?:a|b)).*"
    );
    match process_extglob(&inner, Token::Comma) {
        Err(GlobError::InvalidPattern(m)) => assert_eq!(m, "Invalid extglob operator"),
        _ => panic!("a comma opens no group"),
    }
    let nested = tokenize("a|(b|c)|d");
    assert_eq!(text(process_extglob(&nested, Token::At).unwrap()), "(?:a|(b|c)|d)");
}

#[test]
fn character_class_from_tokens() {
    let inner = tokenize("!a-z");
    assert_eq!(text(process_character_class(&inner).unwrap()), "[^a-z]");
    let inner = tokenize("a!");
    assert_eq!(text(process_character_class(&inner).unwrap()), "[a!]");
}

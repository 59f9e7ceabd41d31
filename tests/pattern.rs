use rfind::filter::convert_str_to_file_type;
use rfind::filter::validate_file_type;
use rfind::filter::EntryKind;
use rfind::filter::TypeFilter;
use rfind::pattern::Pattern;
use rfind::pattern::PatternError;
use rfind::text::contains_shell_patterns;
use rfind::text::anchor;
use rfind::text::same_text;
use rfind::text::substitute_wildcards;
use rfind::text::to_wildcard_regex;

fn pattern(p: &str) -> Pattern {
    match Pattern::new(p) {
        Ok(pat) => pat,
        Err(e) => panic!("pattern {:?} did not compile: {:?}", p, e),
    }
}

#[test]
fn literal_pattern_needs_the_whole_name() {
    let p = pattern("a.txt");
    assert!(matches!(p, Pattern::Literal(_)));
    assert!(p.matches("a.txt"));
    assert!(!p.matches("xa.txt"));
    assert!(!p.matches("a.txt2"));
    assert!(!p.matches("a.tx"));
    assert!(!p.matches("A.TXT"));
    assert!(!p.matches("abtxt"));
    assert!(!p.matches(""));
}

#[test]
fn star_matches_every_name() {
    let p = pattern("*");
    assert!(matches!(p, Pattern::Wildcard(_)));
    for name in ["", "a", "abc", ".hidden", "with\nbreak", "ünïcode", "a b c"] {
        assert!(p.matches(name), "{:?}", name);
    }
}

#[test]
fn question_mark_is_exactly_one_character() {
    let p = pattern("a?c");
    assert!(p.matches("abc"));
    assert!(p.matches("axc"));
    assert!(p.matches("aéc"));
    assert!(!p.matches("ac"));
    assert!(!p.matches("abbc"));
    assert!(!p.matches("xabc"));
    assert!(!p.matches("abcx"));
    assert!(!p.matches("bbc"));
}

#[test]
fn wildcard_match_is_anchored() {
    let p = pattern("*.log");
    assert!(p.matches("c.log"));
    assert!(p.matches(".log"));
    assert!(!p.matches("c.log.old"));
    assert!(!p.matches("c.txt"));
}

#[test]
fn alternation_stays_anchored() {
    let p = pattern("a|b*");
    assert!(p.matches("a"));
    assert!(p.matches("bcd"));
    assert!(!p.matches("xb"));
    assert!(!p.matches("ax"));
}

#[test]
fn invalid_wildcard_is_refused() {
    match Pattern::new("(*") {
        Err(PatternError::InvalidWildcard { regex }) => assert_eq!(regex, "(.*"),
        Ok(_) => panic!("an unbalanced group compiled"),
    }
}

#[test]
fn unbalanced_close_cannot_escape_the_anchors() {
    match Pattern::new("x)|(?") {
        Err(PatternError::InvalidWildcard { regex }) => assert_eq!(regex, "x)|(."),
        Ok(_) => panic!("a pattern invalid by itself compiled"),
    }
}

#[test]
fn wildcard_substitution_and_anchoring() {
    assert_eq!(substitute_wildcards("*.l?g"), ".*.l.g");
    assert_eq!(substitute_wildcards("plain"), "plain");
    assert_eq!(anchor("a|b"), "(?s)^(?:a|b)$");
}

#[test]
fn wildcard_translation() {
    assert_eq!(to_wildcard_regex("*.log"), "(?s)^(?:.*.log)$");
    assert_eq!(to_wildcard_regex("a?c"), "(?s)^(?:a.c)$");
    assert_eq!(to_wildcard_regex("*"), "(?s)^(?:.*)$");
    assert_eq!(to_wildcard_regex(""), "(?s)^(?:)$");
}

#[test]
fn shell_pattern_detection() {
    assert!(contains_shell_patterns("*.rs"));
    assert!(contains_shell_patterns("a?"));
    assert!(!contains_shell_patterns("plain.txt"));
    assert!(!contains_shell_patterns(""));
}

#[test]
fn text_comparison() {
    assert!(same_text("abc", "abc"));
    assert!(same_text("", ""));
    assert!(!same_text("abc", "abd"));
    assert!(!same_text("abc", "ab"));
}

#[test]
fn type_names() {
    assert_eq!(TypeFilter::parse("file"), Some(TypeFilter::File));
    assert_eq!(TypeFilter::parse("dir"), Some(TypeFilter::Directory));
    assert_eq!(TypeFilter::parse("symlink"), Some(TypeFilter::Symlink));
    assert_eq!(TypeFilter::parse("any"), Some(TypeFilter::Any));
    assert_eq!(TypeFilter::parse("directory"), None);
    assert_eq!(TypeFilter::parse(""), None);
    assert_eq!(convert_str_to_file_type("dir"), TypeFilter::Directory);
    assert!(validate_file_type(String::from("symlink")).is_ok());
    assert_eq!(
        validate_file_type(String::from("socket")),
        Err(String::from("should be one of \"file\", \"dir\", or \"symlink\""))
    );
}

#[test]
fn type_filter_accepts() {
    assert!(TypeFilter::File.accepts(EntryKind::File));
    assert!(!TypeFilter::File.accepts(EntryKind::Directory));
    assert!(TypeFilter::Directory.accepts(EntryKind::Directory));
    assert!(!TypeFilter::Directory.accepts(EntryKind::Symlink));
    assert!(TypeFilter::Symlink.accepts(EntryKind::Symlink));
    assert!(!TypeFilter::Symlink.accepts(EntryKind::Other));
    for k in [EntryKind::File, EntryKind::Directory, EntryKind::Symlink, EntryKind::Other] {
        assert!(TypeFilter::Any.accepts(k));
    }
}

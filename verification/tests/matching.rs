use epubgrep::matcher::build_pattern;
use epubgrep::matcher::InvalidPattern;
use epubgrep::matcher::Matcher;

fn matcher(pattern: &str, ignore_case: bool, word_regexp: bool) -> Matcher {
    match Matcher::new(pattern, ignore_case, word_regexp) {
        Ok(m) => m,
        Err(_) => panic!("the pattern does not compile"),
    }
}

#[test]
fn the_effective_pattern_has_its_flags() {
    assert_eq!(build_pattern("cat", false, false), "cat");
    assert_eq!(build_pattern("cat", true, false), "(?i)cat");
    assert_eq!(build_pattern("cat", false, true), "\\bcat\\b");
    assert_eq!(build_pattern("cat", true, true), "\\b(?i)cat\\b");
    assert_eq!(build_pattern("", false, false), "");
}

#[test]
fn case_matters_unless_the_flag_is_set() {
    assert!(!matcher("Chapter", false, false).is_match("chapter one"));
    assert!(matcher("Chapter", true, false).is_match("chapter one"));
    assert!(matcher("Chapter", false, false).is_match("Chapter one"));
}

#[test]
fn whole_words_are_asked_for_by_the_flag() {
    assert!(!matcher("cat", false, true).is_match("category"));
    assert!(matcher("cat", false, false).is_match("category"));
    assert!(matcher("cat", false, true).is_match("the cat sat"));
}

#[test]
fn both_flags_work_together() {
    assert!(matcher("CAT", true, true).is_match("a cat."));
    assert!(!matcher("CAT", true, true).is_match("concatenate"));
}

#[test]
fn matches_are_given_as_byte_offsets_from_left_to_right() {
    let m = matcher("a+", false, false);
    assert_eq!(m.find_all("baaab a \u{e9}a"), vec![(1, 4), (6, 7), (10, 11)]);
    assert_eq!(m.find_all("xyz"), vec![]);
    assert_eq!(m.find_all(""), vec![]);
}

#[test]
fn empty_matches_fall_on_character_boundaries() {
    let m = matcher("", false, false);
    assert_eq!(m.find_all("\u{e9}b"), vec![(0, 0), (2, 2), (3, 3)]);
    assert!(m.is_match(""));
}

#[test]
fn is_match_agrees_with_find_all() {
    let m = matcher("t.e", false, false);
    for text in ["the", "tie the", "no", "", "t\ne"] {
        assert_eq!(m.is_match(text), !m.find_all(text).is_empty());
    }
}

#[test]
fn a_pattern_that_does_not_compile_is_refused() {
    assert!(matches!(Matcher::new("foo(bar", false, false), Err(InvalidPattern)));
    assert!(matches!(Matcher::new("[", true, true), Err(InvalidPattern)));
    assert!(matches!(Matcher::new("\\w{1000}", false, false), Err(InvalidPattern)));
}

#[test]
fn a_pattern_compiles_or_not_with_its_flags() {
    assert!(Matcher::new("a|b", true, true).is_ok());
    assert!(Matcher::new("", false, false).is_ok());
    assert!(Matcher::new("(", false, true).is_err());
    assert!(Matcher::new(")", true, false).is_err());
}

#[test]
fn two_matchers_for_one_pattern_find_the_same() {
    let first = matcher("t[a-z]+", true, false);
    let second = matcher("t[a-z]+", true, false);
    for text in ["The Tale of two", "", "t", "att\u{e9}ntion to"] {
        assert_eq!(first.find_all(text), second.find_all(text));
        assert_eq!(first.is_match(text), second.is_match(text));
    }
}

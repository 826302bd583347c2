use envdump::matching::{Pattern, PatternError};

fn strings(pats: &[&str]) -> Vec<String> {
    pats.iter().map(|p| p.to_string()).collect()
}

#[test]
fn zero_patterns_match_every_name() {
    let p = Pattern::new(&Vec::new(), false, false).unwrap();
    assert!(p.is_match(b""));
    assert!(p.is_match(b"PATH"));
    assert!(p.is_match(b"anything at all"));
    assert!(p.is_match(b"\xff\x00weird"));
}

#[test]
fn glob_and_regex_agree_on_literal_pattern() {
    let glob = Pattern::new(&strings(&["FOO"]), true, false).unwrap();
    assert!(glob.is_match(b"FOO"));
    assert!(!glob.is_match(b"FOOBAR"));

    let regex = Pattern::new(&strings(&["^FOO$"]), false, false).unwrap();
    assert!(regex.is_match(b"FOO"));
    assert!(!regex.is_match(b"FOOBAR"));
}

#[test]
fn case_sensitivity_toggle_regex() {
    let insensitive = Pattern::new(&strings(&["foo"]), false, false).unwrap();
    assert!(insensitive.is_match(b"FOO"));

    let sensitive = Pattern::new(&strings(&["foo"]), false, true).unwrap();
    assert!(!sensitive.is_match(b"FOO"));
    assert!(sensitive.is_match(b"foo"));
}

#[test]
fn case_sensitivity_toggle_glob() {
    let insensitive = Pattern::new(&strings(&["foo*"]), true, false).unwrap();
    assert!(insensitive.is_match(b"FOOBAR"));

    let sensitive = Pattern::new(&strings(&["foo*"]), true, true).unwrap();
    assert!(!sensitive.is_match(b"FOOBAR"));
    assert!(sensitive.is_match(b"foobar"));
}

#[test]
fn glob_wildcards_match() {
    let p = Pattern::new(&strings(&["XDG_*"]), true, true).unwrap();
    assert!(p.is_match(b"XDG_RUNTIME_DIR"));
    assert!(!p.is_match(b"PATH"));
}

#[test]
fn any_pattern_in_the_set_suffices() {
    let p = Pattern::new(&strings(&["^HOME$", "^PATH$"]), false, true).unwrap();
    assert!(p.is_match(b"HOME"));
    assert!(p.is_match(b"PATH"));
    assert!(!p.is_match(b"SHELL"));
}

#[test]
fn invalid_glob_is_reported_with_its_pattern() {
    let r = Pattern::new(&strings(&["ok", "a["]), true, false);
    match r {
        Err(PatternError::InvalidGlob { pattern }) => assert_eq!(pattern, "a["),
        _ => panic!("expected an invalid-glob error"),
    }
}

#[test]
fn invalid_regex_is_reported_with_its_pattern() {
    let r = Pattern::new(&strings(&["good", "("]), false, false);
    match r {
        Err(PatternError::InvalidRegex { pattern }) => assert_eq!(pattern, "("),
        _ => panic!("expected an invalid-regex error"),
    }
}

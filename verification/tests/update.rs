use ternitor::update::{
    begin_check, is_newer, newest_version, outcome_of, said, version, version_in, Outcome, State,
};

#[test]
fn the_version_comes_out_of_the_package_section() {
    assert_eq!(
        version_in("[package]\nname = \"ternitor\"\nversion = \"1.1.0\"\nedition = \"2021\"\n")
            .as_deref(),
        Some("1.1.0")
    );
    // The dependency's version is not the app's.
    assert_eq!(
        version_in("[package]\nversion = \"1.1.0\"\n\n[dependencies]\nwindows = \"0.62\"\n")
            .as_deref(),
        Some("1.1.0")
    );
    assert_eq!(version_in("[dependencies.windows]\nversion = \"0.62\"\n"), None);
    assert_eq!(version_in(""), None);
    assert_eq!(version_in("[package]\nname = \"ternitor\"\n"), None);
}

#[test]
fn newer_is_numeric_not_alphabetical() {
    assert!(is_newer("1.1.1", "1.1.0"));
    assert!(is_newer("1.10.0", "1.9.0"));
    assert!(is_newer("2.0", "1.9.9"));
    assert!(is_newer("1.1.0.1", "1.1.0"));
    assert!(!is_newer("1.1.0", "1.1.0"));
    assert!(!is_newer("1.0.9", "1.1.0"));
    assert!(!is_newer("", "1.1.0"));
    assert!(!is_newer("junk", "1.1.0"));
}

#[test]
fn the_manifest_is_read_line_by_line_and_trimmed() {
    assert_eq!(
        version_in("  [package]  \r\n  version   =   \"2.0.1\"  \r\n").as_deref(),
        Some("2.0.1")
    );
    // A version before any section is not the package's.
    assert_eq!(version_in("version = \"9\"\n[package]\n"), None);
    // Only the first quoted run counts.
    assert_eq!(version_in("[package]\nversion = \"1.2\" # \"3\"\n").as_deref(), Some("1.2"));
    // A missing quote or `=` is not a version line, and the search goes on.
    assert_eq!(
        version_in("[package]\nversion 1.0\nversion = 1.0\nversion = \"1.5\"\n").as_deref(),
        Some("1.5")
    );
    // Leaving the package section ends the search there.
    assert_eq!(version_in("[package]\n[lib]\nversion = \"1\"\n"), None);
    assert_eq!(version_in("[package]\nversion = \"\"").as_deref(), Some(""));
}

#[test]
fn components_read_as_numbers_or_zero() {
    assert!(!is_newer("1.0.0", "1"));
    assert!(!is_newer("1", "1.0.0"));
    assert!(is_newer(" 1 . 2 ", "1.1"));
    assert!(is_newer("+2", "1"));
    assert!(!is_newer("-2", "0"));
    // Too large to read counts as zero.
    assert!(!is_newer("18446744073709551616", "0"));
    assert!(is_newer("18446744073709551615", "18446744073709551614"));
}

#[test]
fn outcomes_follow_the_running_version() {
    assert_eq!(version(), "1.1.0");
    assert_eq!(outcome_of(Some("9.0.0".to_string())), Outcome::Newer("9.0.0".to_string()));
    assert_eq!(outcome_of(Some(version().to_string())), Outcome::UpToDate);
    assert_eq!(outcome_of(Some("0.1".to_string())), Outcome::UpToDate);
    assert_eq!(outcome_of(None), Outcome::Unreachable);
    assert_eq!(
        newest_version(Some("[package]\nversion = \"3.1\"\n".to_string())).as_deref(),
        Some("3.1")
    );
    assert_eq!(newest_version(None), None);
}

#[test]
fn the_log_says_what_the_check_found() {
    assert_eq!(said(&Outcome::UpToDate), format!("{} is the newest", "1.1.0"));
    assert_eq!(said(&Outcome::Newer("2.0".to_string())), "2.0 is available");
    assert_eq!(said(&Outcome::Unreachable), "no answer from github");
}

#[test]
fn only_one_check_is_in_the_air() {
    let mut s = State::Idle;
    assert!(begin_check(&mut s));
    assert_eq!(s, State::Checking);
    assert!(!begin_check(&mut s));
    let mut done = State::Done(Outcome::UpToDate);
    assert!(begin_check(&mut done));
    assert_eq!(done, State::Checking);
}

#[test]
fn a_trailing_zero_changes_nothing() {
    assert!(!is_newer("1.2.0", "1.2"));
    assert!(!is_newer("1.2", "1.2.0"));
    assert_eq!(is_newer("1.3.0", "1.2"), is_newer("1.3", "1.2"));
    assert_eq!(is_newer("1.3", "1.2.0"), is_newer("1.3", "1.2"));
    assert_eq!(is_newer("1.1.0", "1.2"), is_newer("1.1", "1.2"));
    assert!(is_newer("1.3.0", "1.2"));
}

use rustdocs::registry::{resolve, ResolveError, VersionInfo};

fn v(num: &str, yanked: bool) -> VersionInfo {
    VersionInfo { num: num.to_string(), yanked, downloads: 0, created_at: String::new(), rust_version: None }
}

fn sample() -> Vec<VersionInfo> {
    vec![
        v("2.0.0-alpha.1", false),
        v("1.5.0", true),
        v("1.4.2", false),
        v("1.4.1", false),
        v("1.3.0", false),
        v("0.9.0", false),
    ]
}

#[test]
fn newest_for_empty_star_latest() {
    let vs = sample();
    for req in ["", "*", "latest", "newest", "  *  ", "\tlatest\n"] {
        assert_eq!(resolve(&vs, req).unwrap(), "2.0.0-alpha.1", "{req:?}");
    }
}

#[test]
fn newest_skips_yanked() {
    let vs = vec![v("3.0.0", true), v("2.9.0", false)];
    assert_eq!(resolve(&vs, "").unwrap(), "2.9.0");
}

#[test]
fn exact_version_wins() {
    let vs = sample();
    assert_eq!(resolve(&vs, "1.4.1").unwrap(), "1.4.1");
    assert_eq!(resolve(&vs, " 1.3.0 ").unwrap(), "1.3.0");
}

#[test]
fn yanked_exact_falls_back_to_semver() {
    // "1.5.0" is yanked, so it is read as the requirement ^1.5.0, which no
    // release matches.
    let vs = sample();
    match resolve(&vs, "1.5.0") {
        Err(ResolveError::NoMatch { requirement }) => assert_eq!(requirement, "1.5.0"),
        other => panic!("unexpected {other:?}"),
    }
}

#[test]
fn caret_picks_newest_match() {
    let vs = sample();
    assert_eq!(resolve(&vs, "^1.3").unwrap(), "1.4.2");
    assert_eq!(resolve(&vs, "1.3").unwrap(), "1.4.2");
    assert_eq!(resolve(&vs, "~1.3").unwrap(), "1.3.0");
    assert_eq!(resolve(&vs, ">=1, <2").unwrap(), "1.4.2");
    assert_eq!(resolve(&vs, "<1").unwrap(), "0.9.0");
}

#[test]
fn prerelease_needs_explicit_requirement() {
    let vs = sample();
    assert_eq!(resolve(&vs, ">=2.0.0-alpha").unwrap(), "2.0.0-alpha.1");
    assert!(matches!(resolve(&vs, ">=2"), Err(ResolveError::NoMatch { .. })));
}

#[test]
fn invalid_requirement() {
    let vs = sample();
    match resolve(&vs, "not a version") {
        Err(e @ ResolveError::InvalidRequirement { .. }) => {
            assert_eq!(e.message(), "invalid semver requirement 'not a version'");
        },
        other => panic!("unexpected {other:?}"),
    }
}

#[test]
fn no_release_at_all() {
    let vs = vec![v("1.0.0", true)];
    let e = resolve(&vs, "*").unwrap_err();
    assert!(matches!(e, ResolveError::NoRelease));
    assert_eq!(e.message(), "no non-yanked versions found");
    assert!(matches!(resolve(&[], "1.0.0"), Err(ResolveError::NoRelease)));
}

#[test]
fn no_match_message() {
    let vs = sample();
    let e = resolve(&vs, "^7").unwrap_err();
    assert_eq!(e.message(), "no non-yanked version of the crate matches requirement '^7'");
}

#[test]
fn unparsable_versions_are_skipped() {
    let vs = vec![v("garbage", false), v("1.2.3", false)];
    assert_eq!(resolve(&vs, "^1").unwrap(), "1.2.3");
}

#[test]
fn semver_requirements_follow_cargo() {
    let vs = vec![v("1.5.0", false), v("1.4.9", false), v("1.2.0", false)];
    assert_eq!(resolve(&vs, ">=1.2, <1.5").unwrap(), "1.4.9");
    assert_eq!(resolve(&vs, "~1.2").unwrap(), "1.2.0");
    assert!(matches!(resolve(&vs, "1.0 2.0"), Err(ResolveError::InvalidRequirement { .. })));
}

#[test]
fn yanked_entries_do_not_matter() {
    let with_yanked = vec![v("3.0.0", true), v("2.1.0", false), v("2.0.5", true), v("1.0.0", false)];
    let releases = vec![v("2.1.0", false), v("1.0.0", false)];
    for req in ["", "*", "^1", "2.1.0", "  ^2  ", "^3", "3.0.0", "x y"] {
        let a = resolve(&with_yanked, req).map_err(|e| e.message());
        let b = resolve(&releases, req.trim()).map_err(|e| e.message());
        assert_eq!(a, b, "{req:?}");
    }
}

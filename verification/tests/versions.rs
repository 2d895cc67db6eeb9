use wry_bindgen::versions::{
    is_stable_semver, is_upstream_package_name, is_valid_suffix, newer_releases, parse_releases,
    parse_version, release_from_line, sorted_unique, stable_releases, target_version, TargetVersionError, Version,
};

#[test]
fn target_version_defaults_to_base() {
    assert_eq!(target_version("0.2.122", None).unwrap(), "0.2.122");
}

#[test]
fn target_version_appends_suffix() {
    assert_eq!(target_version("0.2.122", Some("alpha.1")).unwrap(), "0.2.122-alpha.1");
}

#[test]
fn upstream_package_names_include_patched_name() {
    assert!(is_upstream_package_name("wasm-bindgen"));
    assert!(is_upstream_package_name("not-wasm-bindgen"));
}

#[test]
fn parses_stable_versions() {
    assert_eq!(parse_version("0.2.122"), Some(Version { major: 0, minor: 2, patch: 122 }));
    assert_eq!(parse_version("v0.2.123").unwrap().to_string(), "0.2.123");
}

#[test]
fn ignores_prerelease_and_build_versions() {
    assert_eq!(parse_version("0.2.122-alpha.1"), None);
    assert_eq!(parse_version("0.2.122+build"), None);
    assert_eq!(parse_version("0.2"), None);
}

#[test]
fn parses_and_sorts_release_tags() {
    let output = "\
aaaaaaaaaaaaaaaaaaaaaaaaaaaaaaaaaaaaaaaa\trefs/tags/0.2.120
bbbbbbbbbbbbbbbbbbbbbbbbbbbbbbbbbbbbbbbb\trefs/tags/0.2.122
cccccccccccccccccccccccccccccccccccccccc\trefs/tags/0.2.121
dddddddddddddddddddddddddddddddddddddddd\trefs/tags/0.2.122-alpha.1
eeeeeeeeeeeeeeeeeeeeeeeeeeeeeeeeeeeeeeee\trefs/tags/v0.2.123
";
    let mut releases = parse_releases(output);
    releases.sort_unstable();

    assert_eq!(
        releases.iter().map(|v| v.to_string()).collect::<Vec<_>>(),
        ["0.2.120", "0.2.121", "0.2.122", "0.2.123"]
    );
}

#[test]
fn version_order_is_numeric() {
    assert!(parse_version("0.2.100").unwrap() > parse_version("0.2.99").unwrap());
    assert!(parse_version("0.3.0").unwrap() > parse_version("0.2.999").unwrap());
}

#[test]
fn accepts_patched_upstream_package_name() {
    assert!(is_upstream_package_name("wasm-bindgen"));
    assert!(is_upstream_package_name("not-wasm-bindgen"));
}

#[test]
fn other_package_names_are_not_upstream() {
    assert!(!is_upstream_package_name("wry-bindgen"));
    assert!(!is_upstream_package_name("wasm-bindgen "));
    assert!(!is_upstream_package_name(""));
}

#[test]
fn newer_check_agrees_with_numeric_order() {
    let a = parse_version("0.2.100").unwrap();
    let b = parse_version("0.2.99").unwrap();
    let c = parse_version("1.0.0").unwrap();
    assert!(a.is_newer_than(&b));
    assert!(!b.is_newer_than(&a));
    assert!(!a.is_newer_than(&a));
    assert!(c.is_newer_than(&a));
}

#[test]
fn newer_releases_keeps_only_later_ones_in_order() {
    let releases = [
        Version { major: 0, minor: 2, patch: 120 },
        Version { major: 0, minor: 2, patch: 123 },
        Version { major: 0, minor: 2, patch: 121 },
        Version { major: 0, minor: 3, patch: 0 },
    ];
    let current = Version { major: 0, minor: 2, patch: 121 };
    assert_eq!(
        newer_releases(&releases, &current),
        vec![Version { major: 0, minor: 2, patch: 123 }, Version { major: 0, minor: 3, patch: 0 }]
    );
}

#[test]
fn target_version_rejects_bad_inputs() {
    assert_eq!(target_version("0.2.122-alpha.1", Some("beta")), Err(TargetVersionError::NonStableBase));
    assert_eq!(target_version("0.2", Some("beta")), Err(TargetVersionError::NonStableBase));
    assert_eq!(target_version("0.2.122", Some("")), Err(TargetVersionError::InvalidSuffix));
    assert_eq!(target_version("0.2.122", Some("alpha..1")), Err(TargetVersionError::InvalidSuffix));
    assert_eq!(target_version("0.2.122", Some("al_pha")), Err(TargetVersionError::InvalidSuffix));
    assert_eq!(target_version("not.a.version", None).unwrap(), "not.a.version");
}

#[test]
fn semver_and_suffix_checks() {
    assert!(is_stable_semver("10.20.30"));
    assert!(!is_stable_semver("1.2.3.4"));
    assert!(!is_stable_semver("1..3"));
    assert!(!is_stable_semver("1.2.x"));
    assert!(is_valid_suffix("rc-1.2"));
    assert!(!is_valid_suffix("rc."));
    assert!(!is_valid_suffix("ré"));
}

#[test]
fn version_components_must_fit_in_u64() {
    assert_eq!(
        parse_version("18446744073709551615.0.0"),
        Some(Version { major: u64::MAX, minor: 0, patch: 0 })
    );
    assert_eq!(parse_version("18446744073709551616.0.0"), None);
    assert_eq!(parse_version("1.2.3.4"), None);
    assert_eq!(parse_version("1.2."), None);
    assert_eq!(parse_version("vv1.2.3"), None);
}

#[test]
fn release_lines_need_a_tag_ref() {
    assert_eq!(release_from_line("abc refs/tags/1.2.3"), Some(Version { major: 1, minor: 2, patch: 3 }));
    assert_eq!(release_from_line("abc refs/heads/1.2.3"), None);
    assert_eq!(release_from_line("refs/tags/1.2.3"), None);
    assert_eq!(release_from_line("  abc \t refs/tags/v4.5.6  extra"), Some(Version { major: 4, minor: 5, patch: 6 }));
    assert_eq!(parse_releases("x refs/tags/1.0.0\r\ny refs/tags/2.0.0"), vec![
        Version { major: 1, minor: 0, patch: 0 },
        Version { major: 2, minor: 0, patch: 0 },
    ]);
    assert!(parse_releases("").is_empty());
}

#[test]
fn version_text_parses_back() {
    for v in [
        Version { major: 0, minor: 2, patch: 122 },
        Version { major: 10, minor: 0, patch: 7 },
        Version { major: u64::MAX, minor: 1, patch: 99 },
    ] {
        assert_eq!(parse_version(&v.to_string()), Some(v));
    }
}

#[test]
fn newer_is_a_strict_order() {
    let a = Version { major: 0, minor: 2, patch: 9 };
    let b = Version { major: 0, minor: 2, patch: 10 };
    assert!(b.is_newer_than(&a));
    assert!(!a.is_newer_than(&b));
    assert!(!a.is_newer_than(&a));
}

fn v(major: u64, minor: u64, patch: u64) -> Version {
    Version { major, minor, patch }
}

#[test]
fn sorted_unique_orders_and_drops_duplicates() {
    let input = [v(0, 2, 122), v(0, 2, 120), v(0, 2, 122), v(0, 10, 0), v(0, 2, 121)];
    assert_eq!(sorted_unique(&input), vec![v(0, 2, 120), v(0, 2, 121), v(0, 2, 122), v(0, 10, 0)]);
    assert!(sorted_unique(&[]).is_empty());
}

#[test]
fn stable_releases_are_sorted_and_distinct() {
    let output = "a\trefs/tags/0.2.122\nb\trefs/tags/0.2.120\nc\trefs/tags/v0.2.122\nd\trefs/tags/0.2.121-rc.1\n";
    assert_eq!(stable_releases(output), vec![v(0, 2, 120), v(0, 2, 122)]);
}

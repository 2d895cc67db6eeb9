use wry_bindgen::manifest::{
    current_version, inline_table_value, is_local_crate, package_version, read_field, replace_inline_table_value,
    section_name, split_inline_table, update_lock_text, update_manifest_text, LineEnding, Lines, LockError,
    ManifestError, PackageError,
};
use wry_bindgen::versions::Version;

#[test]
fn manifest_update_changes_package_and_path_dependency_versions() {
    let input = r#"[package]
name = "wry-bindgen"
version = "0.2.106-alpha.1"

[dependencies]
wry-bindgen-macro = { path = "../wry-bindgen-macro", version = "=0.2.106-alpha.1" }
serde = "1"
"#;
    let output = update_manifest_text(input, "wry-bindgen", "0.2.122").unwrap();

    assert!(output.contains("version = \"0.2.122\""));
    assert!(output.contains("version = \"=0.2.122\""));
    assert!(output.contains("serde = \"1\""));
}

#[test]
fn lock_update_changes_only_local_packages() {
    let input = r#"[[package]]
name = "wasm-bindgen"
version = "0.2.122"
dependencies = []

[[package]]
name = "wasm-bindgen"
version = "0.2.122"
source = "registry+https://github.com/rust-lang/crates.io-index"

[[package]]
name = "wasm-bindgen-macro"
version = "0.2.122"

[[package]]
name = "wry-bindgen"
version = "0.2.106-alpha.1"

[[package]]
name = "wry-bindgen-macro"
version = "0.2.106-alpha.1"

[[package]]
name = "wry-bindgen-macro-support"
version = "0.2.106-alpha.1"
"#;
    let output = update_lock_text(input, "0.2.122-alpha.1").unwrap();

    assert!(output.contains("version = \"0.2.122-alpha.1\""));
    assert!(output.contains("source = \"registry+https://github.com/rust-lang/crates.io-index\""));
}

#[test]
fn manifest_update_is_exact_and_keeps_other_lines() {
    let input = "# top\r\n[package]\r\nname = \"wry-bindgen\"\r\nversion = \"1.0.0\"\r\n\r\n[dependencies]\r\nwasm-bindgen = { version = \"=1.0.0\", path = \"../shims/wasm-bindgen\" }\r\nother = { path = \"x\", version = \"2\" }\r\nrenamed = { package = \"wry-bindgen-macro\", path = \"m\", version = \"1\" }\r\nno-path = { package = \"wry-bindgen-macro\", version = \"1\" }";
    let output = update_manifest_text(input, "wry-bindgen", "1.1.0").unwrap();
    assert_eq!(
        output,
        "# top\r\n[package]\r\nname = \"wry-bindgen\"\r\nversion = \"1.1.0\"\r\n\r\n[dependencies]\r\nwasm-bindgen = { version = \"=1.1.0\", path = \"../shims/wasm-bindgen\" }\r\nother = { path = \"x\", version = \"2\" }\r\nrenamed = { package = \"wry-bindgen-macro\", path = \"m\", version = \"=1.1.0\" }\r\nno-path = { package = \"wry-bindgen-macro\", version = \"1\" }"
    );
}

#[test]
fn manifest_update_errors() {
    assert_eq!(update_manifest_text("[dependencies]\n", "a", "1"), Err(ManifestError::MissingPackageSection));
    assert_eq!(update_manifest_text("[package]\nversion = \"1\"\n", "a", "1"), Err(ManifestError::MissingName));
    assert_eq!(update_manifest_text("[package]\nname = \"b\"\n", "a", "1"), Err(ManifestError::NameMismatch));
    assert_eq!(update_manifest_text("[package]\nname = \"a\"\n[x]\nversion = \"1\"\n", "a", "1"), Err(ManifestError::MissingVersion));
}

#[test]
fn lock_update_errors() {
    match update_lock_text("[[package]]\nname = \"wry-bindgen\"\n", "1") {
        Err(LockError::MissingVersion(name)) => assert_eq!(name, "wry-bindgen"),
        other => panic!("unexpected {:?}", other),
    }
    match update_lock_text("[[package]]\nname = \"wry-bindgen\"\nversion = \"0\"\n", "1") {
        Err(LockError::MissingLocalPackages(names)) => {
            assert_eq!(names, vec!["wasm-bindgen", "wasm-bindgen-macro", "wry-bindgen-macro", "wry-bindgen-macro-support"])
        }
        other => panic!("unexpected {:?}", other),
    }
}

#[test]
fn lines_keep_their_endings() {
    let text = "a\r\nb\n\nc";
    let lines = Lines::from(text);
    assert_eq!(lines.len(), 4);
    assert_eq!(lines.body(0), "a");
    assert_eq!(lines.body(2), "");
    assert_eq!(lines.range_text(1, 3), "b\n\n");
    assert_eq!(lines.into_string(), text);
    assert_eq!(Lines::from("").len(), 0);
    assert_eq!(Lines::from("x\n").into_string(), "x\n");
    let mut l = Lines::from("v = \"1\"\r\n");
    assert!(l.replace_field(0, "v", "2"));
    assert!(!l.replace_field(0, "w", "3"));
    assert_eq!(l.into_string(), "v = \"2\"\r\n");
    let _ = LineEnding::CrLf;
}

#[test]
fn section_headers_and_fields() {
    assert_eq!(section_name("  [package]  "), Some("package"));
    assert_eq!(section_name("[[package]]"), Some("package"));
    assert_eq!(section_name("[package"), None);
    assert_eq!(section_name("name = 1"), None);
    assert_eq!(read_field("x = 1\n  name = \"a\"\nname = \"b\"", "name"), Some("a"));
    assert_eq!(read_field("name = \"unterminated\nname = \"b\"", "name"), None);
    assert_eq!(read_field("name: \"a\"", "name"), None);
}

#[test]
fn inline_tables() {
    let (prefix, key, body, suffix) = split_inline_table("dep = { path = \"p\" } # c").unwrap();
    assert_eq!((prefix, key, body, suffix), ("dep = {", "dep", " path = \"p\" ", "} # c"));
    assert!(split_inline_table("dep = \"1\"").is_none());
    assert!(split_inline_table("bad key = { }").is_none());
    assert!(split_inline_table("k = x { }").is_none());
    assert_eq!(inline_table_value(" xversion = \"9\", version = \"1\" ", "version"), Some("1"));
    assert_eq!(inline_table_value(" path = \"p\" ", "version"), None);
    assert_eq!(
        replace_inline_table_value(" xversion = \"9\", version = \"1\" ", "version", "=2"),
        " xversion = \"9\", version = \"=2\" "
    );
    assert_eq!(replace_inline_table_value(" path = \"p\" ", "version", "=2"), " path = \"p\" ");
    assert!(is_local_crate("wry-bindgen-macro-support"));
    assert!(!is_local_crate("serde"));
}

const UPSTREAM: &str = "[package]\nname = \"wasm-bindgen\"\nversion = \"0.2.100\"\n\n[dependencies]\nfoo = { version = \"1\" }\n";

#[test]
fn package_version_reads_the_package_section() {
    assert_eq!(package_version(UPSTREAM, true), Ok("0.2.100".to_string()));
    assert_eq!(current_version(UPSTREAM), Ok(Version { major: 0, minor: 2, patch: 100 }));
}

#[test]
fn package_version_accepts_crlf_lines() {
    let text = "[package]\r\nname = \"wasm-bindgen\"\r\nversion = \"0.2.7\"\r\n";
    assert_eq!(package_version(text, true), Ok("0.2.7".to_string()));
}

#[test]
fn package_version_reports_each_missing_piece() {
    assert_eq!(package_version("[dependencies]\nname = \"x\"\n", false), Err(PackageError::MissingPackageSection));
    assert_eq!(package_version("[package]\nversion = \"1.0.0\"\n", false), Err(PackageError::MissingName));
    assert_eq!(
        package_version("[package]\nname = \"x\"\n[dependencies]\nversion = \"1.0.0\"\n", false),
        Err(PackageError::MissingVersion)
    );
}

#[test]
fn package_version_checks_the_upstream_name_only_when_asked() {
    let text = "[package]\nname = \"other\"\nversion = \"1.2.3\"\n";
    assert_eq!(package_version(text, true), Err(PackageError::UnexpectedName("other".to_string())));
    assert_eq!(package_version(text, false), Ok("1.2.3".to_string()));
    let patched = "[package]\nname = \"not-wasm-bindgen\"\nversion = \"1.2.3\"\n";
    assert_eq!(package_version(patched, true), Ok("1.2.3".to_string()));
}

#[test]
fn current_version_rejects_prereleases() {
    let text = "[package]\nname = \"wasm-bindgen\"\nversion = \"0.2.100-alpha.1\"\n";
    assert_eq!(current_version(text), Err(PackageError::UnstableVersion("0.2.100-alpha.1".to_string())));
}

use wry_bindgen::api_report::{
    filter_ignored_failures, finding_is_ignored, hide_convert_module_text, ignored_finding_predicate,
    is_ignored_constructible_field, is_ignored_derive_failure, lint_name, rename_package_text, upstream_ref_from_base,
    is_stale_verdict_line, semver_outcome, FindingFilter, SemverOutcome,
};

#[test]
fn detects_ignored_vs_real_derive_lines() {
    assert!(is_ignored_derive_failure("  type Null no longer derives FromWasmAbi, in /p/sys.rs:109"));
    assert!(is_ignored_derive_failure("  type JsValue no longer derives UpcastFrom, in /p/value.rs:48"));
    assert!(!is_ignored_derive_failure("  type JsError no longer derives Clone, in /p/js_error.rs:10"));
    assert!(!is_ignored_derive_failure("  JsValue::from_serde, previously in file /p/lib.rs:296"));
}

#[test]
fn detects_ignored_constructible_field() {
    assert!(is_ignored_constructible_field("  field JsThreadLocal.key in /p/lazy.rs:28"));
    assert!(!is_ignored_constructible_field("  field SomeOther.inner in /p/x.rs:1"));
}

#[test]
fn drops_derive_block_when_only_abi_traits() {
    let input = "\
--- failure derive_trait_impl_removed: built-in derived trait no longer implemented ---

Failed in:
  type JsOption no longer derives FromWasmAbi, in /p/sys.rs:118
  type Null no longer derives WasmDescribe, in /p/sys.rs:109

--- failure inherent_method_missing: pub method removed or renamed ---

Failed in:
  JsValue::from_serde, previously in file /p/lib.rs:296
";
    let (out, suppressed, remaining) = filter_ignored_failures(input);
    assert_eq!(suppressed, 2);
    assert_eq!(remaining, 1);
    assert!(!out.contains("derive_trait_impl_removed"));
    assert!(out.contains("inherent_method_missing"));
    assert!(out.contains("from_serde"));
}

#[test]
fn keeps_derive_block_when_real_derive_present() {
    let input = "\
--- failure derive_trait_impl_removed: built-in derived trait no longer implemented ---

Failed in:
  type JsError no longer derives Clone, in /p/js_error.rs:10
  type JsOption no longer derives IntoWasmAbi, in /p/sys.rs:118
";
    let (out, suppressed, remaining) = filter_ignored_failures(input);
    assert_eq!(suppressed, 1);
    assert_eq!(remaining, 1);
    assert!(out.contains("no longer derives Clone"));
    assert!(!out.contains("IntoWasmAbi"));
}

#[test]
fn drops_constructible_block_for_ignored_type() {
    let input = "\
--- failure constructible_struct_adds_private_field: struct no longer constructible ---

Failed in:
  field JsThreadLocal.key in /p/lazy.rs:28
  field JsThreadLocal.init in /p/lazy.rs:29
";
    let (out, suppressed, remaining) = filter_ignored_failures(input);
    assert_eq!(suppressed, 2);
    assert_eq!(remaining, 0);
    assert!(!out.contains("constructible_struct_adds_private_field"));
}

#[test]
fn passes_through_when_no_failures() {
    let input = "Checking ...\nall good\n";
    let (out, suppressed, remaining) = filter_ignored_failures(input);
    assert_eq!(out, input);
    assert_eq!(suppressed, 0);
    assert_eq!(remaining, 0);
}

#[test]
fn renames_package_name() {
    let input = "[package]\nname = \"wasm-bindgen\"\nversion = \"0.2.122\"\n";
    let output = rename_package_text(input, "wry-bindgen").expect("package name should be found");
    assert_eq!(output, "[package]\nname = \"wry-bindgen\"\nversion = \"0.2.122\"\n");
}

#[test]
fn rename_package_only_touches_first_match() {
    let input = "[package]\nname = \"wasm-bindgen\"\n\n[dependencies]\nwasm-bindgen-macro = \"0.2\"\n";
    let output = rename_package_text(input, "wry-bindgen").expect("package name should be found");
    assert_eq!(output, "[package]\nname = \"wry-bindgen\"\n\n[dependencies]\nwasm-bindgen-macro = \"0.2\"\n");
}

#[test]
fn missing_package_name_returns_none() {
    assert!(rename_package_text("[package]\nname = \"other\"\n", "wry-bindgen").is_none());
}

#[test]
fn hides_convert_module_declaration() {
    let input = "\
pub mod prelude {
    pub use crate::convert::Upcast; // provides upcast() and upcast_ref()
}
pub mod closure;
pub mod convert;
pub mod describe;
pub use crate::convert::{IntoJsGeneric, JsGeneric};
";
    let output = hide_convert_module_text(input).expect("convert module should be found");
    assert_eq!(
        output,
        "\
pub mod prelude {
    #[doc(hidden)]
    pub use crate::convert::Upcast; // provides upcast() and upcast_ref()
}
pub mod closure;
#[doc(hidden)]
pub mod convert;
pub mod describe;
#[doc(hidden)]
pub use crate::convert::{IntoJsGeneric, JsGeneric};
"
    );
}

#[test]
fn hide_convert_module_is_idempotent() {
    let input = "\
pub mod prelude {
    #[doc(hidden)]
    pub use crate::convert::Upcast; // provides upcast() and upcast_ref()
}
#[doc(hidden)]
pub mod convert;
#[doc(hidden)]
pub use crate::convert::{IntoJsGeneric, JsGeneric};
";
    let output = hide_convert_module_text(input).expect("convert module should be found");
    assert_eq!(output, input);
}

#[test]
fn missing_convert_module_returns_none() {
    assert!(hide_convert_module_text("pub mod closure;\n").is_none());
}

#[test]
fn lint_names_come_from_block_headers() {
    assert_eq!(lint_name("--- failure derive_trait_impl_removed: built-in ---"), "derive_trait_impl_removed");
    assert_eq!(lint_name("--- failure  spaced : x"), "spaced");
    assert_eq!(lint_name("no header"), "");
    assert_eq!(ignored_finding_predicate("derive_trait_impl_removed"), Some(FindingFilter::DroppedDerive));
    assert_eq!(
        ignored_finding_predicate("constructible_struct_adds_private_field"),
        Some(FindingFilter::ConstructorBuilt)
    );
    assert_eq!(ignored_finding_predicate("inherent_method_missing"), None);
    assert!(finding_is_ignored(FindingFilter::DroppedDerive, "  type X no longer derives Promising"));
    assert!(!finding_is_ignored(FindingFilter::ConstructorBuilt, "  type X no longer derives Promising"));
}

#[test]
fn unfiltered_blocks_and_prologue_are_kept_line_by_line() {
    let input = "prologue\r\n--- failure other_lint: x ---\nFailed in:\n  a thing\n";
    let (out, suppressed, remaining) = filter_ignored_failures(input);
    assert_eq!(out, "prologue\n--- failure other_lint: x ---\nFailed in:\n  a thing\n");
    assert_eq!((suppressed, remaining), (0, 1));
}

#[test]
fn derive_names_end_at_comma_or_space() {
    assert!(is_ignored_derive_failure("x no longer derives Promising"));
    assert!(!is_ignored_derive_failure("x no longer derives PromisingMore, y"));
    assert!(!is_ignored_derive_failure("x no longer derives"));
    assert!(is_ignored_constructible_field("field JsThreadLocal"));
    assert!(!is_ignored_constructible_field("fields JsThreadLocal.key"));
}

#[test]
fn upstream_ref_is_the_first_line_of_the_base_file() {
    assert_eq!(upstream_ref_from_base(None), "HEAD");
    assert_eq!(upstream_ref_from_base(Some("  0.2.100  \nignored\n")), "0.2.100");
    assert_eq!(upstream_ref_from_base(Some("")), "HEAD");
    assert_eq!(upstream_ref_from_base(Some("   \nabc\n")), "HEAD");
    assert_eq!(upstream_ref_from_base(Some("v1\r\n")), "v1");
}

#[test]
fn stale_verdict_lines_are_recognised() {
    assert!(is_stale_verdict_line("     Summary semver requires new major version: 2 major and 0 minor checks failed"));
    assert!(is_stale_verdict_line("     Checked [   1.234s] 150 checks: 148 pass, 2 fail, 0 warn, 0 skip"));
    assert!(!is_stale_verdict_line("     Checked [   1.234s] 150 checks: 150 pass, 0 warn, 0 skip"));
    assert!(!is_stale_verdict_line("    Building wry-bindgen v0.2.122 (current)"));
}

#[test]
fn semver_outcome_tolerates_only_known_differences() {
    assert_eq!(semver_outcome(true, 3), SemverOutcome::Compatible);
    assert_eq!(semver_outcome(false, 0), SemverOutcome::OnlyKnownDifferences);
    assert_eq!(semver_outcome(false, 1), SemverOutcome::Incompatible);
}

#[test]
fn hiding_twice_changes_nothing() {
    let input = "pub mod convert;\npub mod prelude {\n    pub use crate::convert::Upcast; // provides upcast() and upcast_ref()\n}\npub use crate::convert::{IntoJsGeneric, JsGeneric};\n";
    let once = hide_convert_module_text(input).expect("convert module should be found");
    let twice = hide_convert_module_text(&once).expect("convert module should be found");
    assert_eq!(once, twice);
    assert_ne!(once, input);
}

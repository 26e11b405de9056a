use namelint::formats::{CheckResult, Format};
use namelint::special_cases::{is_special_case, SpecialCase};
use namelint::special_ignore::special_ignore;

#[test]
fn dotfile_is_ignored() {
    assert_eq!(is_special_case(".env"), Some(SpecialCase::Ignore));
    assert_eq!(is_special_case(".gitignore"), Some(SpecialCase::Ignore));
}

#[test]
fn scss_partial_lints_stem() {
    assert_eq!(
        is_special_case("_Button.scss"),
        Some(SpecialCase::LintSubset("Button".to_string()))
    );
    // the stem alone is what the convention engine then sees
    assert_eq!(
        Format::KebabCase.check("Button"),
        CheckResult::Expected("button".to_string())
    );
}

#[test]
fn dynamic_route_with_script_extension() {
    assert_eq!(
        is_special_case("[UserId].tsx"),
        Some(SpecialCase::LintSubset("UserId".to_string()))
    );
}

#[test]
fn dynamic_route_with_two_segments_falls_through() {
    assert_eq!(is_special_case("[UserId].foo.tsx"), None);
}

#[test]
fn dynamic_route_without_extension() {
    assert_eq!(
        is_special_case("[UserId]"),
        Some(SpecialCase::LintSubset("UserId".to_string()))
    );
}

#[test]
fn dynamic_route_with_other_extension_falls_through() {
    assert_eq!(is_special_case("[UserId].css"), None);
}

#[test]
fn plain_names_are_not_special() {
    assert_eq!(is_special_case("foo.ts"), None);
    assert_eq!(is_special_case("Component.tsx"), None);
}

#[test]
fn special_ignore_shapes() {
    assert!(special_ignore("_a.scss"));
    assert!(special_ignore("[id]"));
    // the bare predicate has no extension whitelist
    assert!(special_ignore("[id].anything"));
    assert!(!special_ignore("foo.ts"));
    assert!(!special_ignore("scss"));
}

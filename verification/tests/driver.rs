use namelint::driver::evaluate_entry;
use namelint::formats::Format;
use namelint::ignore::Ignore;

#[test]
fn end_to_end_single_violation() {
    let ig = Ignore::new("root", "dist/\n");
    let mut violations: Vec<(String, String)> = Vec::new();
    // entries of the root: `dist` is excluded by the ignore rule and the
    // walk does not descend into it, so `dist/Bad-File.js` is never seen
    assert!(ig.is_ignored("root/dist"));
    for entry in ["root/dist", "root/src"] {
        if ig.is_ignored(entry) {
            continue;
        }
        if let Some(v) = evaluate_entry(Format::KebabCase, &ig, entry) {
            violations.push(v);
        }
    }
    // entries of root/src
    for entry in ["root/src/goodFile.ts"] {
        if ig.is_ignored(entry) {
            continue;
        }
        if let Some(v) = evaluate_entry(Format::KebabCase, &ig, entry) {
            violations.push(v);
        }
    }
    assert_eq!(
        violations,
        vec![("root/src/goodFile.ts".to_string(), "root/src/good-file.ts".to_string())]
    );
}

#[test]
fn dotfiles_never_reach_the_convention_engine() {
    let ig = Ignore::new("root", "");
    assert_eq!(evaluate_entry(Format::KebabCase, &ig, "root/.env"), None);
}

#[test]
fn scss_partial_correction_keeps_decoration() {
    let ig = Ignore::new(".", "");
    assert_eq!(
        evaluate_entry(Format::KebabCase, &ig, "./_Button.scss"),
        Some(("./_Button.scss".to_string(), "./_button.scss".to_string()))
    );
}

#[test]
fn dynamic_route_correction_keeps_brackets_and_extension() {
    let ig = Ignore::new(".", "");
    assert_eq!(
        evaluate_entry(Format::KebabCase, &ig, "./pages/[UserId].tsx"),
        Some(("./pages/[UserId].tsx".to_string(), "./pages/[user-id].tsx".to_string()))
    );
}

#[test]
fn conforming_special_case_reports_nothing() {
    let ig = Ignore::new(".", "");
    assert_eq!(evaluate_entry(Format::KebabCase, &ig, "./_button.scss"), None);
    assert_eq!(evaluate_entry(Format::KebabCase, &ig, "./[user-id].tsx"), None);
}

#[test]
fn ignored_entries_report_nothing() {
    let ig = Ignore::new("root", "vendor/\n");
    assert_eq!(evaluate_entry(Format::KebabCase, &ig, "root/vendor"), None);
    assert_eq!(evaluate_entry(Format::KebabCase, &ig, "root/package.json"), None);
}

#[test]
fn violation_without_directory_part() {
    let ig = Ignore::new(".", "");
    assert_eq!(
        evaluate_entry(Format::KebabCase, &ig, "BadName.ts"),
        Some(("BadName.ts".to_string(), "bad-name.ts".to_string()))
    );
}

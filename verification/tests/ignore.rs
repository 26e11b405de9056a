use namelint::ignore::Ignore;

#[test]
fn root_rules_apply_anywhere() {
    let ig = Ignore::new("root", "dist/\n# a comment\n\nbuild\n");
    assert!(ig.is_ignored("root/dist"));
    assert!(ig.is_ignored("root/sub/build"));
    assert!(!ig.is_ignored("root/src"));
}

#[test]
fn blank_and_comment_lines_contribute_nothing() {
    let ig = Ignore::new("root", "   \n# dist\n");
    assert!(!ig.is_ignored("root/dist"));
}

#[test]
fn lines_are_trimmed() {
    let ig = Ignore::new("root", "  dist  \n");
    assert!(ig.is_ignored("root/dist"));
}

#[test]
fn bad_glob_lines_are_dropped() {
    // three stars are not a valid glob; the line is silently dropped
    let ig = Ignore::new("root", "***\ndist\n");
    assert!(ig.is_ignored("root/dist"));
    assert!(!ig.is_ignored("root/src"));
}

#[test]
fn nested_rules_are_scoped() {
    let ig = Ignore::new("r", "");
    let sub = ig.concat("r/sub/.gitignore", "build/out\n").unwrap();
    assert!(sub.is_ignored("r/sub/build/out"));
    assert!(!sub.is_ignored("r/build/out"));
    // the parent's set is untouched
    assert!(!ig.is_ignored("r/sub/build/out"));
}

#[test]
fn nested_slashless_rule_is_confined_to_its_directory() {
    let ig = Ignore::new("r", "");
    let sub = ig.concat("r/sub/.gitignore", "build\n").unwrap();
    assert!(sub.is_ignored("r/sub/build"));
    assert!(sub.is_ignored("r/sub/deep/build"));
    // the rule lives in sub/.gitignore: a top-level build is not its business
    assert!(!sub.is_ignored("r/build"));
    assert!(!sub.is_ignored("r/other/build"));
}

#[test]
fn concat_outside_root_is_refused() {
    let ig = Ignore::new("r", "");
    assert!(ig.concat("elsewhere/.gitignore", "build\n").is_none());
}

#[test]
fn wellknown_names_always_ignored() {
    let ig = Ignore::new("root", "");
    assert!(ig.is_ignored("root/package.json"));
    assert!(ig.is_ignored("root/sub/yarn.lock"));
    assert!(ig.is_ignored("root/Cargo.lock"));
    assert!(ig.is_ignored("root/README.md"));
    assert!(ig.is_ignored("root/__pycache__"));
    assert!(!ig.is_ignored("root/package.json5"));
}

#[test]
fn crlf_lines_are_handled() {
    let ig = Ignore::new("root", "dist/\r\nbuild\r\n");
    assert!(ig.is_ignored("root/dist"));
    assert!(ig.is_ignored("root/build"));
}

#[test]
fn two_levels_of_nesting_accumulate() {
    let ig = Ignore::new("r", "top\n");
    let sub = ig.concat("r/a/.gitignore", "mid/out\n").unwrap();
    let subsub = sub.concat("r/a/b/.gitignore", "deep/out\n").unwrap();
    assert!(subsub.is_ignored("r/top"));
    assert!(subsub.is_ignored("r/a/mid/out"));
    assert!(subsub.is_ignored("r/a/b/deep/out"));
    assert!(!sub.is_ignored("r/a/b/deep/out"));
}

#[test]
fn gitignore_directly_under_root_scopes_to_root() {
    let ig = Ignore::new("r", "");
    let sub = ig.concat("r/.gitignore", "build\n").unwrap();
    assert!(sub.is_ignored("r/build"));
    assert!(sub.is_ignored("r/x/build"));
}

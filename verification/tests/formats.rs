use namelint::formats::{CheckResult, Format};

const ALL_FORMATS: [Format; 9] = [
    Format::KebabCase,
    Format::LowerCamelCase,
    Format::PascalCase,
    Format::ShoutyKebabCase,
    Format::ShoutySnakeCase,
    Format::SnakeCase,
    Format::TitleCase,
    Format::TrainCase,
    Format::UpperCamelCase,
];

#[test]
fn convert_kebab() {
    assert_eq!(Format::KebabCase.convert("fooBar"), "foo-bar");
}

#[test]
fn convert_lower_camel() {
    assert_eq!(Format::LowerCamelCase.convert("foo-bar"), "fooBar");
}

#[test]
fn convert_pascal() {
    assert_eq!(Format::PascalCase.convert("foo-bar"), "FooBar");
}

#[test]
fn convert_shouty_kebab() {
    assert_eq!(Format::ShoutyKebabCase.convert("fooBar"), "FOO-BAR");
}

#[test]
fn convert_shouty_snake() {
    assert_eq!(Format::ShoutySnakeCase.convert("fooBar"), "FOO_BAR");
}

#[test]
fn convert_snake() {
    assert_eq!(Format::SnakeCase.convert("fooBar"), "foo_bar");
}

#[test]
fn convert_title() {
    assert_eq!(Format::TitleCase.convert("fooBar"), "Foo Bar");
}

#[test]
fn convert_train() {
    assert_eq!(Format::TrainCase.convert("fooBar"), "Foo-Bar");
}

#[test]
fn convert_upper_camel() {
    assert_eq!(Format::UpperCamelCase.convert("foo_bar"), "FooBar");
}

#[test]
fn convert_idempotent_for_every_format() {
    let inputs = ["fooBar", "Hello World", "XML_http-request", "a", ""];
    for f in ALL_FORMATS {
        for input in inputs {
            let once = f.convert(input);
            let twice = f.convert(&once);
            assert_eq!(twice, once, "{f:?} not idempotent on {input:?}");
        }
    }
}

#[test]
fn check_conforming_kebab() {
    assert_eq!(Format::KebabCase.check("good-file.ts"), CheckResult::Conforming);
}

#[test]
fn check_conforming_every_format() {
    for f in ALL_FORMATS {
        // a canonical main component with lowercase extensions always passes
        let canonical = f.convert("exampleName");
        let name = format!("{canonical}.txt");
        assert_eq!(f.check(&name), CheckResult::Conforming, "{f:?} on {name:?}");
    }
}

#[test]
fn check_extension_casing() {
    // the main component is already Pascal-case; only the extension is wrong
    assert_eq!(Format::PascalCase.convert("Foo"), "Foo");
    assert_eq!(
        Format::PascalCase.check("Foo.TXT"),
        CheckResult::Expected("Foo.txt".to_string())
    );
}

#[test]
fn check_main_violation() {
    assert_eq!(
        Format::KebabCase.check("goodFile.ts"),
        CheckResult::Expected("good-file.ts".to_string())
    );
}

#[test]
fn check_main_violation_keeps_extensions_verbatim() {
    assert_eq!(
        Format::KebabCase.check("FooBar.TXT.Gz"),
        CheckResult::Expected("foo-bar.TXT.Gz".to_string())
    );
}

#[test]
fn check_extensions_need_only_lowercase() {
    // later segments are extensions: they are not held to the convention,
    // only to being entirely lowercase
    assert_eq!(Format::KebabCase.check("foo.barbaz"), CheckResult::Conforming);
    assert_eq!(Format::KebabCase.check("foo.bar.baz"), CheckResult::Conforming);
    assert_eq!(
        Format::KebabCase.check("foo.barBaz"),
        CheckResult::Expected("foo.barbaz".to_string())
    );
}

#[test]
fn check_lowercases_every_extension() {
    assert_eq!(
        Format::KebabCase.check("foo.TXT.Gz"),
        CheckResult::Expected("foo.txt.gz".to_string())
    );
}

#[test]
fn check_no_extension() {
    assert_eq!(Format::SnakeCase.check("foo_bar"), CheckResult::Conforming);
    assert_eq!(
        Format::SnakeCase.check("fooBar"),
        CheckResult::Expected("foo_bar".to_string())
    );
}

//! The special-case classifier: recognises file names that must not be
//! checked against the blanket convention — dotfiles are skipped entirely,
//! while SCSS partials and framework dynamic-route segments have only a
//! sub-portion of the name checked.
use vstd::prelude::*;

use crate::formats::{main_part, name_parts};
use crate::text::{split_on, str_eq};

verus! {

/// How a specially-named file is to be treated: skipped entirely, or
/// checked only on the given sub-portion of its name.
#[derive(Debug, Clone, PartialEq, Eq)]
pub enum SpecialCase {
    Ignore,
    LintSubset(String),
}

/// The name starts with a dot.
pub open spec fn is_dotfile(s: Seq<char>) -> bool {
    s.len() > 0 && s[0] == '.'
}

/// The name is an SCSS partial: an underscore, a stem, and `.scss`.
pub open spec fn is_scss_partial(s: Seq<char>) -> bool {
    s.len() >= 6 && s[0] == '_' && s.skip(s.len() - 5) == seq!['.', 's', 'c', 's', 's']
}

/// The stem of an SCSS partial: the name without the underscore and the
/// `.scss` suffix.
pub open spec fn scss_stem(s: Seq<char>) -> Seq<char> {
    s.subrange(1, s.len() - 5)
}

/// The main component of the name is wrapped in square brackets.
pub open spec fn bracket_main(s: Seq<char>) -> bool {
    let m = main_part(s);
    m.len() >= 2 && m[0] == '[' && m[m.len() - 1] == ']'
}

/// The stem inside the brackets of the main component.
pub open spec fn route_stem(s: Seq<char>) -> Seq<char> {
    let m = main_part(s);
    m.subrange(1, m.len() - 1)
}

/// The extension belongs to the script family in which bracketed
/// dynamic-route names are recognised.
pub open spec fn route_ext(e: Seq<char>) -> bool {
    e == seq!['t', 's'] || e == seq!['t', 's', 'x'] || e == seq!['j', 's'] || e == seq![
        'j',
        's',
        'x',
    ]
}

/// The name is a framework dynamic-route segment: a bracketed main
/// component with either no extension at all or exactly one extension
/// from the script whitelist.
pub open spec fn is_dynamic_route(s: Seq<char>) -> bool {
    bracket_main(s) && (name_parts(s).len() == 1 || (name_parts(s).len() == 2 && route_ext(
        name_parts(s)[1],
    )))
}

/// Recognises a dotfile, which is exempt from checking altogether.
pub fn dotfiles(file: &str) -> (r: Option<SpecialCase>)
    ensures
        (match r {
            Option::Some(SpecialCase::Ignore) => is_dotfile(file@),
            Option::Some(SpecialCase::LintSubset(_)) => false,
            Option::None => !is_dotfile(file@),
        }),
{
    if file.unicode_len() > 0 && file.get_char(0) == '.' {
        Option::Some(SpecialCase::Ignore)
    } else {
        Option::None
    }
}

/// Recognises an SCSS partial `_<stem>.scss`; only the stem is checked.
pub fn scss_partial(file: &str) -> (r: Option<SpecialCase>)
    ensures
        (match r {
            Option::Some(SpecialCase::Ignore) => false,
            Option::Some(SpecialCase::LintSubset(t)) => is_scss_partial(file@) && t@ == scss_stem(
                file@,
            ),
            Option::None => !is_scss_partial(file@),
        }),
{
    let n = file.unicode_len();
    if n >= 6 && file.get_char(0) == '_' {
        let tail = file.substring_char(n - 5, n);
        proof {
            reveal_strlit(".scss");
            assert(".scss"@ =~= seq!['.', 's', 'c', 's', 's']);
            assert(file@.skip(n - 5) =~= file@.subrange(n - 5, n as int));
        }
        if str_eq(tail, ".scss") {
            let stem = file.substring_char(1, n - 5).to_owned();
            Option::Some(SpecialCase::LintSubset(stem))
        } else {
            Option::None
        }
    } else {
        Option::None
    }
}

/// Recognises a dynamic-route segment such as a bracketed name with at
/// most one whitelisted script extension; only the bracketed stem is
/// checked.
pub fn next_path(file: &str) -> (r: Option<SpecialCase>)
    ensures
        (match r {
            Option::Some(SpecialCase::Ignore) => false,
            Option::Some(SpecialCase::LintSubset(t)) => is_dynamic_route(file@) && t@
                == route_stem(file@),
            Option::None => !is_dynamic_route(file@),
        }),
{
    let parts = split_on(file, '.');
    proof {
        assert(parts@.map_values(|p: String| p@)[0] == main_part(file@));
        assert(parts@.len() == name_parts(file@).len());
    }
    let m = parts[0].as_str();
    let mn = m.unicode_len();
    if mn >= 2 && m.get_char(0) == '[' && m.get_char(mn - 1) == ']' {
        let stem = m.substring_char(1, mn - 1).to_owned();
        if parts.len() == 1 {
            Option::Some(SpecialCase::LintSubset(stem))
        } else if parts.len() == 2 {
            proof {
                assert(parts@.map_values(|p: String| p@)[1] == name_parts(file@)[1]);
                reveal_strlit("ts");
                reveal_strlit("tsx");
                reveal_strlit("js");
                reveal_strlit("jsx");
                assert("ts"@ =~= seq!['t', 's']);
                assert("tsx"@ =~= seq!['t', 's', 'x']);
                assert("js"@ =~= seq!['j', 's']);
                assert("jsx"@ =~= seq!['j', 's', 'x']);
            }
            let e = parts[1].as_str();
            if str_eq(e, "ts") || str_eq(e, "tsx") || str_eq(e, "js") || str_eq(e, "jsx") {
                Option::Some(SpecialCase::LintSubset(stem))
            } else {
                Option::None
            }
        } else {
            Option::None
        }
    } else {
        Option::None
    }
}

/// Classifies a file name, applying the SCSS-partial, dynamic-route and
/// dotfile recognisers in turn and returning the first match.
pub fn is_special_case(filename: &str) -> (r: Option<SpecialCase>)
    ensures
        (match r {
            Option::Some(SpecialCase::Ignore) => !is_scss_partial(filename@) && !is_dynamic_route(
                filename@,
            ) && is_dotfile(filename@),
            Option::Some(SpecialCase::LintSubset(t)) => (is_scss_partial(filename@) && t@
                == scss_stem(filename@)) || (!is_scss_partial(filename@) && is_dynamic_route(
                filename@,
            ) && t@ == route_stem(filename@)),
            Option::None => !is_scss_partial(filename@) && !is_dynamic_route(filename@)
                && !is_dotfile(filename@),
        }),
{
    match scss_partial(filename) {
        Option::Some(sc) => {
            return Option::Some(sc);
        },
        Option::None => {},
    }
    match next_path(filename) {
        Option::Some(sc) => {
            return Option::Some(sc);
        },
        Option::None => {},
    }
    dotfiles(filename)
}

} // verus!

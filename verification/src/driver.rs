//! The per-entry decision of the traversal: given the convention, the
//! rules in force and one directory entry, decide whether the entry is a
//! naming violation and, when it is, produce the suggested corrected path.
//! The walk itself only enumerates directories and feeds each entry here.
use vstd::prelude::*;

use crate::formats::{conforms, corrected, main_part, CheckResult, Format};
use crate::ignore::{ignored_spec, Ignore};
use crate::special_cases::{
    is_dotfile, is_dynamic_route, is_scss_partial, is_special_case, route_stem, scss_stem,
    SpecialCase,
};
use crate::text::{file_name, file_name_of, find_char, first_at, lemma_file_name_len, lemma_first_at};

verus! {

/// A special-cased name with its decoration restored verbatim around the
/// corrected stem: the underscore and `.scss` suffix of an SCSS partial,
/// or the brackets and original extension of a dynamic-route segment.
pub open spec fn redecorated(name: Seq<char>, fixed_stem: Seq<char>) -> Seq<char> {
    if is_scss_partial(name) {
        seq!['_'] + fixed_stem + seq!['.', 's', 'c', 's', 's']
    } else {
        seq!['['] + fixed_stem + seq![']'] + name.skip(main_part(name).len() as int)
    }
}

/// The corrected file name suggested for `name` under convention `f`, or
/// nothing when the name passes: special-cased names are checked on their
/// stem alone and keep their decoration, dotfiles are never checked, and
/// every other name is checked whole.
pub open spec fn suggestion_for(f: Format, name: Seq<char>) -> Option<Seq<char>> {
    if is_scss_partial(name) {
        if conforms(f, scss_stem(name)) {
            Option::None
        } else {
            Option::Some(redecorated(name, corrected(f, scss_stem(name))))
        }
    } else if is_dynamic_route(name) {
        if conforms(f, route_stem(name)) {
            Option::None
        } else {
            Option::Some(redecorated(name, corrected(f, route_stem(name))))
        }
    } else if is_dotfile(name) {
        Option::None
    } else {
        if conforms(f, name) {
            Option::None
        } else {
            Option::Some(corrected(f, name))
        }
    }
}

/// Law: a dotfile is exempt whatever the convention: no suggestion is ever
/// made for it, so it never reaches the convention engine.
pub proof fn lemma_dotfile_never_checked(f: Format, name: Seq<char>)
    requires
        is_dotfile(name),
    ensures
        suggestion_for(f, name) is None,
{
    crate::text::lemma_first_at_is(name, '.', 0);
    assert(main_part(name) == name.subrange(0, 0));
    assert(main_part(name).len() == 0);
}

/// Law: when an SCSS partial's stem violates the convention, the
/// suggested name keeps the underscore and the `.scss` suffix verbatim
/// around the corrected stem.
pub proof fn lemma_scss_decoration_kept(f: Format, name: Seq<char>)
    requires
        is_scss_partial(name),
        !conforms(f, scss_stem(name)),
    ensures
        suggestion_for(f, name) == Option::Some(
            seq!['_'] + corrected(f, scss_stem(name)) + seq!['.', 's', 'c', 's', 's'],
        ),
{
}

/// Law: when a dynamic-route segment's stem violates the convention, the
/// suggested name keeps the brackets and the original extension verbatim
/// around the corrected stem.
pub proof fn lemma_route_decoration_kept(f: Format, name: Seq<char>)
    requires
        !is_scss_partial(name),
        is_dynamic_route(name),
        !conforms(f, route_stem(name)),
    ensures
        suggestion_for(f, name) == Option::Some(
            seq!['['] + corrected(f, route_stem(name)) + seq![']'] + name.skip(
                main_part(name).len() as int,
            ),
        ),
{
}

/// The path with its file-name component replaced.
pub open spec fn with_file_name(path: Seq<char>, newname: Seq<char>) -> Seq<char> {
    if file_name_of(path).len() == path.len() {
        newname
    } else {
        path.take(path.len() - file_name_of(path).len()) + newname
    }
}

/// Builds the suggested corrected path for `path` whose file name is to
/// become `newname`.
fn replace_file_name(path: &str, name_len: usize, newname: &str) -> (r: String)
    requires
        name_len == file_name_of(path@).len(),
    ensures
        r@ == with_file_name(path@, newname@),
{
    proof {
        lemma_file_name_len(path@);
    }
    let plen = path.unicode_len();
    let dir = path.substring_char(0, plen - name_len);
    proof {
        if name_len == plen {
            assert(dir@ =~= Seq::<char>::empty());
            assert(dir@ + newname@ =~= newname@);
        } else {
            assert(dir@ =~= path@.take(plen - name_len));
        }
    }
    dir.to_owned().concat(newname)
}

/// Decides one directory entry: nothing when the entry is ignored or its
/// name passes the convention, and otherwise the pair of the entry's path
/// and the suggested corrected path.
pub fn evaluate_entry(f: Format, rules: &Ignore, path: &str) -> (r: Option<(String, String)>)
    ensures
        (match r {
            Option::Some(v) => {
                &&& !ignored_spec(rules.rules_view(), rules.base_view(), path@)
                &&& v.0@ == path@
                &&& suggestion_for(f, file_name_of(path@)) matches Option::Some(nn) && v.1@
                    == with_file_name(path@, nn)
            },
            Option::None => ignored_spec(rules.rules_view(), rules.base_view(), path@)
                || suggestion_for(f, file_name_of(path@)) is None,
        }),
{
    if rules.is_ignored(path) {
        return Option::None;
    }
    let name = file_name(path);
    let nlen = name.as_str().unicode_len();
    match is_special_case(name.as_str()) {
        Option::Some(SpecialCase::Ignore) => Option::None,
        Option::Some(SpecialCase::LintSubset(stem)) => {
            match f.check(stem.as_str()) {
                CheckResult::Conforming => Option::None,
                CheckResult::Expected(fixed) => {
                    let newname: String = if crate::special_ignore::scss_partial(name.as_str()) {
                        proof {
                            reveal_strlit("_");
                            reveal_strlit(".scss");
                            assert("_"@ =~= seq!['_']);
                            assert(".scss"@ =~= seq!['.', 's', 'c', 's', 's']);
                        }
                        String::from_str("_").concat(fixed.as_str()).concat(".scss")
                    } else {
                        let fd = find_char(name.as_str(), '.');
                        proof {
                            lemma_first_at(name@, '.');
                            if first_at(name@, '.') >= name@.len() {
                                assert(main_part(name@) == name@);
                                assert(name@.skip(nlen as int) =~= name@.subrange(
                                    nlen as int,
                                    nlen as int,
                                ));
                            } else {
                                assert(main_part(name@) == name@.subrange(
                                    0,
                                    first_at(name@, '.') as int,
                                ));
                            }
                            reveal_strlit("[");
                            reveal_strlit("]");
                            assert("["@ =~= seq!['[']);
                            assert("]"@ =~= seq![']']);
                        }
                        let rest = name.as_str().substring_char(fd, nlen);
                        String::from_str("[").concat(fixed.as_str()).concat("]").concat(rest)
                    };
                    let full = replace_file_name(path, nlen, newname.as_str());
                    Option::Some((path.to_owned(), full))
                },
            }
        },
        Option::None => {
            match f.check(name.as_str()) {
                CheckResult::Conforming => Option::None,
                CheckResult::Expected(fixed) => {
                    let full = replace_file_name(path, nlen, fixed.as_str());
                    Option::Some((path.to_owned(), full))
                },
            }
        },
    }
}

} // verus!

//! The convention engine: converts a name to the canonical form of a chosen
//! casing convention and checks whether a file name already conforms,
//! proposing a corrected name when it does not.
//!
//! A file name is split at every `.`: the first piece is the main component
//! and the remaining pieces are extension components.  The main component
//! must equal its canonical form; extension components only have to be
//! entirely lowercase.
use vstd::prelude::*;

use crate::text::{first_at, lemma_first_at_is, split_at_char, split_on};

verus! {

/// The nine supported casing conventions.
#[derive(Debug, Clone, Copy, PartialEq, Eq, Structural)]
pub enum Format {
    KebabCase,
    LowerCamelCase,
    PascalCase,
    ShoutyKebabCase,
    ShoutySnakeCase,
    SnakeCase,
    TitleCase,
    TrainCase,
    UpperCamelCase,
}

/// Outcome of checking one name: either it conforms, or the corrected
/// name is suggested.
#[derive(Debug, Clone, PartialEq, Eq)]
pub enum CheckResult {
    Conforming,
    Expected(String),
}

/// The kebab-case form of a character sequence.
pub uninterp spec fn kebab_of(s: Seq<char>) -> Seq<char>;

/// The lowerCamelCase form of a character sequence.
pub uninterp spec fn lower_camel_of(s: Seq<char>) -> Seq<char>;

/// The PascalCase form of a character sequence.
pub uninterp spec fn pascal_of(s: Seq<char>) -> Seq<char>;

/// The SHOUTY-KEBAB-CASE form of a character sequence.
pub uninterp spec fn shouty_kebab_of(s: Seq<char>) -> Seq<char>;

/// The SHOUTY_SNAKE_CASE form of a character sequence.
pub uninterp spec fn shouty_snake_of(s: Seq<char>) -> Seq<char>;

/// The snake_case form of a character sequence.
pub uninterp spec fn snake_of(s: Seq<char>) -> Seq<char>;

/// The Title Case form of a character sequence.
pub uninterp spec fn title_of(s: Seq<char>) -> Seq<char>;

/// The Train-Case form of a character sequence.
pub uninterp spec fn train_of(s: Seq<char>) -> Seq<char>;

/// The UpperCamelCase form of a character sequence.
pub uninterp spec fn upper_camel_of(s: Seq<char>) -> Seq<char>;

/// The Unicode lowercase form of a character sequence.
pub uninterp spec fn lower_of(s: Seq<char>) -> Seq<char>;

/// Relies on heck's `ToKebabCase::to_kebab_case` for `str`: the result is a
/// function of the input characters alone.
#[verifier::external_body]
fn to_kebab(s: &str) -> (r: String)
    ensures
        r@ == kebab_of(s@),
{
    heck::ToKebabCase::to_kebab_case(s)
}

/// Relies on heck's `ToLowerCamelCase::to_lower_camel_case` for `str`: the
/// result is a function of the input characters alone.
#[verifier::external_body]
fn to_lower_camel(s: &str) -> (r: String)
    ensures
        r@ == lower_camel_of(s@),
{
    heck::ToLowerCamelCase::to_lower_camel_case(s)
}

/// Relies on heck's `ToPascalCase::to_pascal_case` for `str`: the result is
/// a function of the input characters alone.
#[verifier::external_body]
fn to_pascal(s: &str) -> (r: String)
    ensures
        r@ == pascal_of(s@),
{
    heck::ToPascalCase::to_pascal_case(s)
}

/// Relies on heck's `ToShoutyKebabCase::to_shouty_kebab_case` for `str`:
/// the result is a function of the input characters alone.
#[verifier::external_body]
fn to_shouty_kebab(s: &str) -> (r: String)
    ensures
        r@ == shouty_kebab_of(s@),
{
    heck::ToShoutyKebabCase::to_shouty_kebab_case(s)
}

/// Relies on heck's `ToShoutySnakeCase::to_shouty_snake_case` for `str`:
/// the result is a function of the input characters alone.
#[verifier::external_body]
fn to_shouty_snake(s: &str) -> (r: String)
    ensures
        r@ == shouty_snake_of(s@),
{
    heck::ToShoutySnakeCase::to_shouty_snake_case(s)
}

/// Relies on heck's `ToSnakeCase::to_snake_case` for `str`: the result is a
/// function of the input characters alone.
#[verifier::external_body]
fn to_snake(s: &str) -> (r: String)
    ensures
        r@ == snake_of(s@),
{
    heck::ToSnakeCase::to_snake_case(s)
}

/// Relies on heck's `ToTitleCase::to_title_case` for `str`: the result is a
/// function of the input characters alone.
#[verifier::external_body]
fn to_title(s: &str) -> (r: String)
    ensures
        r@ == title_of(s@),
{
    heck::ToTitleCase::to_title_case(s)
}

/// Relies on heck's `ToTrainCase::to_train_case` for `str`: the result is a
/// function of the input characters alone.
#[verifier::external_body]
fn to_train(s: &str) -> (r: String)
    ensures
        r@ == train_of(s@),
{
    heck::ToTrainCase::to_train_case(s)
}

/// Relies on heck's `ToUpperCamelCase::to_upper_camel_case` for `str`: the
/// result is a function of the input characters alone.
#[verifier::external_body]
fn to_upper_camel(s: &str) -> (r: String)
    ensures
        r@ == upper_camel_of(s@),
{
    heck::ToUpperCamelCase::to_upper_camel_case(s)
}

/// Relies on `str::to_lowercase`: the result is a function of the input
/// characters alone.
#[verifier::external_body]
fn lowercase(s: &str) -> (r: String)
    ensures
        r@ == lower_of(s@),
{
    s.to_lowercase()
}

/// The canonical form of `s` under the convention `f`.
pub open spec fn convert_spec(f: Format, s: Seq<char>) -> Seq<char> {
    match f {
        Format::KebabCase => kebab_of(s),
        Format::LowerCamelCase => lower_camel_of(s),
        Format::PascalCase => pascal_of(s),
        Format::ShoutyKebabCase => shouty_kebab_of(s),
        Format::ShoutySnakeCase => shouty_snake_of(s),
        Format::SnakeCase => snake_of(s),
        Format::TitleCase => title_of(s),
        Format::TrainCase => train_of(s),
        Format::UpperCamelCase => upper_camel_of(s),
    }
}

/// The pieces of a file name, split at every dot.
pub open spec fn name_parts(s: Seq<char>) -> Seq<Seq<char>> {
    split_at_char(s, '.')
}

/// The main component of a file name: everything before the first dot.
pub open spec fn main_part(s: Seq<char>) -> Seq<char> {
    name_parts(s)[0]
}

/// The extension components of a file name: the pieces after the first dot.
pub open spec fn ext_parts(s: Seq<char>) -> Seq<Seq<char>> {
    name_parts(s).drop_first()
}

/// All extension components of `s` are entirely lowercase.
pub open spec fn all_lower_exts(s: Seq<char>) -> bool {
    forall|k: int|
        0 <= k < ext_parts(s).len() ==> lower_of(#[trigger] ext_parts(s)[k]) == ext_parts(s)[k]
}

/// The name `s` conforms to convention `f`: its main component is already
/// canonical and its extensions are all lowercase.
pub open spec fn conforms(f: Format, s: Seq<char>) -> bool {
    convert_spec(f, main_part(s)) == main_part(s) && all_lower_exts(s)
}

/// Joins pieces with a dot between each pair.
pub open spec fn join_dots(parts: Seq<Seq<char>>) -> Seq<char>
    decreases parts.len(),
{
    if parts.len() == 0 {
        Seq::empty()
    } else if parts.len() == 1 {
        parts[0]
    } else {
        parts[0] + seq!['.'] + join_dots(parts.drop_first())
    }
}

/// The suggested correction for a non-conforming name: the canonical main
/// component with the extensions kept verbatim when the main component was
/// wrong, or the original main component with every extension lowercased
/// when only the extension casing was wrong.
pub open spec fn corrected(f: Format, s: Seq<char>) -> Seq<char> {
    if convert_spec(f, main_part(s)) != main_part(s) {
        join_dots(seq![convert_spec(f, main_part(s))] + ext_parts(s))
    } else {
        join_dots(seq![main_part(s)] + ext_parts(s).map_values(|e: Seq<char>| lower_of(e)))
    }
}

pub proof fn lemma_join_push(parts: Seq<Seq<char>>, x: Seq<char>)
    requires
        parts.len() >= 1,
    ensures
        join_dots(parts.push(x)) == join_dots(parts) + seq!['.'] + x,
    decreases parts.len(),
{
    if parts.len() == 1 {
        assert(parts.push(x).drop_first() =~= seq![x]);
        assert(parts.push(x)[0] == parts[0]);
        assert(join_dots(seq![x]) == x);
        assert(join_dots(parts.push(x)) == parts[0] + seq!['.'] + x);
        assert(join_dots(parts) == parts[0]);
    } else {
        assert(parts.push(x).drop_first() =~= parts.drop_first().push(x));
        lemma_join_push(parts.drop_first(), x);
        assert(parts[0] + seq!['.'] + (join_dots(parts.drop_first()) + seq!['.'] + x) =~= (parts[0]
            + seq!['.'] + join_dots(parts.drop_first())) + seq!['.'] + x);
    }
}

impl Format {
    /// Computes the canonical form of `name` under this convention.
    pub fn convert(&self, name: &str) -> (r: String)
        ensures
            r@ == convert_spec(*self, name@),
    {
        match self {
            Format::KebabCase => to_kebab(name),
            Format::LowerCamelCase => to_lower_camel(name),
            Format::PascalCase => to_pascal(name),
            Format::ShoutyKebabCase => to_shouty_kebab(name),
            Format::ShoutySnakeCase => to_shouty_snake(name),
            Format::SnakeCase => to_snake(name),
            Format::TitleCase => to_title(name),
            Format::TrainCase => to_train(name),
            Format::UpperCamelCase => to_upper_camel(name),
        }
    }

    /// Checks whether the file name `name` conforms to this convention and
    /// suggests the corrected name when it does not.
    pub fn check(&self, name: &str) -> (r: CheckResult)
        ensures
            (r is Conforming) <==> conforms(*self, name@),
            (r matches CheckResult::Expected(e) ==> e@ == corrected(*self, name@)),
    {
        let parts = split_on(name, '.');
        let ghost pv = parts@.map_values(|p: String| p@);
        let n = parts.len();
        proof {
            assert(pv[0] == main_part(name@));
            assert(ext_parts(name@) =~= pv.subrange(1, pv.len() as int));
        }
        let converted = self.convert(parts[0].as_str());
        proof {
            reveal_strlit(".");
            assert("."@ =~= seq!['.']);
        }
        if !(converted == parts[0]) {
            let ghost head = seq![convert_spec(*self, main_part(name@))];
            let mut out = converted;
            proof {
                assert(head + pv.subrange(1, 1) =~= head);
            }
            let mut k: usize = 1;
            while k < n
                invariant
                    1 <= k <= n,
                    n == parts@.len(),
                    pv == parts@.map_values(|p: String| p@),
                    pv.len() == n,
                    head == seq![convert_spec(*self, main_part(name@))],
                    out@ == join_dots(head + pv.subrange(1, k as int)),
                decreases n - k,
            {
                proof {
                    reveal_strlit(".");
                    assert("."@ =~= seq!['.']);
                    assert(pv[k as int] == parts@.map_values(|p: String| p@)[k as int]);
                }
                out.append(".");
                out.append(parts[k].as_str());
                proof {
                    lemma_join_push(head + pv.subrange(1, k as int), pv[k as int]);
                    assert((head + pv.subrange(1, k as int)).push(pv[k as int]) =~= head
                        + pv.subrange(1, k as int + 1));
                }
                k += 1;
            }
            proof {
                assert(pv.subrange(1, n as int) =~= ext_parts(name@));
            }
            CheckResult::Expected(out)
        } else {
            let mut all_low = true;
            let mut k: usize = 1;
            while k < n
                invariant
                    1 <= k <= n,
                    n == parts@.len(),
                    pv == parts@.map_values(|p: String| p@),
                    pv.len() == n,
                    all_low <==> (forall|j: int|
                        1 <= j < k ==> lower_of(#[trigger] pv[j]) == pv[j]),
                decreases n - k,
            {
                proof {
                    assert(pv[k as int] == parts@.map_values(|p: String| p@)[k as int]);
                }
                let low = lowercase(parts[k].as_str());
                if !(low == parts[k]) {
                    all_low = false;
                }
                k += 1;
            }
            if all_low {
                proof {
                    assert forall|j: int|
                        0 <= j < ext_parts(name@).len() implies lower_of(
                        #[trigger] ext_parts(name@)[j],
                    ) == ext_parts(name@)[j] by {
                        assert(ext_parts(name@)[j] == pv[j + 1]);
                    }
                }
                CheckResult::Conforming
            } else {
                let ghost head = seq![main_part(name@)];
                let ghost lowered = ext_parts(name@).map_values(|e: Seq<char>| lower_of(e));
                proof {
                    let ghost w = choose|j: int| 1 <= j < n && lower_of(pv[j]) != pv[j];
                    assert(ext_parts(name@)[w - 1] == pv[w]);
                    assert(!all_lower_exts(name@));
                }
                let mut out = parts[0].clone();
                proof {
                    assert(head + lowered.subrange(0, 0) =~= head);
                }
                let mut k: usize = 1;
                while k < n
                    invariant
                        1 <= k <= n,
                        n == parts@.len(),
                        pv == parts@.map_values(|p: String| p@),
                        pv.len() == n,
                        head == seq![main_part(name@)],
                        lowered == ext_parts(name@).map_values(|e: Seq<char>| lower_of(e)),
                        lowered.len() == n - 1,
                        forall|j: int| 0 <= j < n - 1 ==> #[trigger] lowered[j] == lower_of(
                            pv[j + 1]),
                        out@ == join_dots(head + lowered.subrange(0, k - 1)),
                    decreases n - k,
                {
                    proof {
                        reveal_strlit(".");
                        assert("."@ =~= seq!['.']);
                        assert(pv[k as int] == parts@.map_values(|p: String| p@)[k as int]);
                    }
                    let low = lowercase(parts[k].as_str());
                    out.append(".");
                    out.append(low.as_str());
                    proof {
                        lemma_join_push(head + lowered.subrange(0, k - 1), lowered[k - 1]);
                        assert((head + lowered.subrange(0, k - 1)).push(lowered[k - 1]) =~= head
                            + lowered.subrange(0, k as int));
                    }
                    k += 1;
                }
                proof {
                    assert(lowered.subrange(0, n - 1) =~= lowered);
                }
                CheckResult::Expected(out)
            }
        }
    }
}

/// Law: a name whose main component is already canonical under `f` and
/// whose extension components are all lowercase conforms to `f`.
pub proof fn lemma_canonical_name_conforms(f: Format, s: Seq<char>)
    requires
        convert_spec(f, main_part(s)) == main_part(s),
        all_lower_exts(s),
    ensures
        conforms(f, s),
{
}

/// Law: splitting a name of the shape `main.ext`, where neither piece
/// holds a dot, yields exactly that main component and that one extension.
pub proof fn lemma_single_extension_parts(m: Seq<char>, e: Seq<char>)
    requires
        !m.contains('.'),
        !e.contains('.'),
    ensures
        main_part(m + seq!['.'] + e) == m,
        ext_parts(m + seq!['.'] + e) =~= seq![e],
{
    let s = m + seq!['.'] + e;
    lemma_first_at_is(s, '.', m.len() as int);
    assert(first_at(s, '.') == m.len());
    assert(s.subrange(0, m.len() as int) =~= m);
    let t = s.subrange(m.len() as int + 1, s.len() as int);
    assert(t =~= e);
    lemma_first_at_is(e, '.', e.len() as int);
    assert(split_at_char(e, '.') == seq![e]);
    assert(name_parts(s) == seq![m] + seq![e]);
    assert((seq![m] + seq![e])[0] == m);
    assert(ext_parts(s) =~= seq![e]);
}

/// Law: a name of the shape `main.ext` whose main component is canonical
/// but whose single extension is not entirely lowercase is a violation,
/// and the suggested correction keeps the main component and lowercases
/// the extension.
pub proof fn lemma_extension_casing(f: Format, m: Seq<char>, e: Seq<char>)
    requires
        !m.contains('.'),
        !e.contains('.'),
        convert_spec(f, m) == m,
        lower_of(e) != e,
    ensures
        !conforms(f, m + seq!['.'] + e),
        corrected(f, m + seq!['.'] + e) == m + seq!['.'] + lower_of(e),
{
    let s = m + seq!['.'] + e;
    lemma_single_extension_parts(m, e);
    assert(ext_parts(s)[0] == e);
    assert(!all_lower_exts(s));
    let lowered = ext_parts(s).map_values(|x: Seq<char>| lower_of(x));
    assert(lowered =~= seq![lower_of(e)]);
    assert(seq![main_part(s)] + lowered =~= seq![m, lower_of(e)]);
    assert(join_dots(seq![m, lower_of(e)]) == m + seq!['.'] + join_dots(
        seq![m, lower_of(e)].drop_first(),
    ));
    assert(seq![m, lower_of(e)].drop_first() =~= seq![lower_of(e)]);
}

} // verus!

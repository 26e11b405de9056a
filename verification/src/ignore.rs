//! The layered ignore-matching engine.  An [`Ignore`] value holds the
//! gitignore-style rules gathered so far (each with the directory scope it
//! was declared in), the built-in sorted list of well-known file names that
//! are never checked, and the base path of the walk root.  Extending the
//! set for a subdirectory produces a new, independent value; the parent's
//! set is never mutated.
use vstd::prelude::*;

use crate::text::{
    contains_sorted, contains_char, file_name, file_name_of, insert_sorted, is_prefix, sorted_views,
    split_at_char, split_on, str_eq, trim, trimmed, views_of,
};

verus! {

/// Whether glob's `Pattern::new` accepts `p` as a valid pattern text.
pub uninterp spec fn glob_ok(p: Seq<char>) -> bool;

/// Whether the glob pattern `p` matches the path text `path`, as decided
/// by glob's `Pattern::matches`.
pub uninterp spec fn glob_matches(p: Seq<char>, path: Seq<char>) -> bool;

/// Relies on glob's `Pattern::new`: whether a pattern text compiles is a
/// function of that text alone.
#[verifier::external_body]
fn glob_compiles(p: &str) -> (r: bool)
    ensures
        r == glob_ok(p@),
{
    glob::Pattern::new(p).is_ok()
}

/// Relies on glob's `Pattern::matches` on a pattern compiled by
/// `Pattern::new` (which accepts every text that `glob_ok` admits): the
/// outcome is a function of the pattern text and the path text alone.
#[verifier::external_body]
fn glob_match(p: &str, path: &str) -> (r: bool)
    requires
        glob_ok(p@),
    ensures
        r == glob_matches(p@, path@),
{
    match glob::Pattern::new(p) {
        Ok(pat) => pat.matches(path),
        Err(_) => false,
    }
}

/// The built-in list of well-known file names that are never checked:
/// package-manager manifests and locks, build-tool configuration,
/// framework-reserved names, repository metadata, container manifests and
/// cache directories.
pub open spec fn wellknown() -> Seq<Seq<char>> {
    seq![
        "yarn.lock"@,
        "package.json"@,
        "package-lock.json"@,
        "vite.config.js"@,
        "rollup.config.js"@,
        "webpack.config.js"@,
        "jest.config.js"@,
        "tsconfig.json"@,
        "next.config.js"@,
        "_app.tsx"@,
        "_app.js"@,
        "_app.jsx"@,
        "_document.tsx"@,
        "_document.js"@,
        "_document.jsx"@,
        "composer.lock"@,
        "composer.phar"@,
        "composer.json"@,
        "Cargo.lock"@,
        "Cargo.toml"@,
        "Gemfile.lock"@,
        "Gemfile"@,
        "Dockerfile"@,
        "docker-compose.yml"@,
        "README.md"@,
        "CONTRIBUTING.md"@,
        "CODE_OF_CONDUCT.md"@,
        "FUNDING.yml"@,
        "ISSUE_TEMPLATE"@,
        "PULL_REQUEST_TEMPLATE.md"@,
        "LICENSE"@,
        "SECURITY.md"@,
        "CODEOWNERS"@,
        "_"@,
        "__pycache__"@,
    ]
}

proof fn lemma_push_contains(s: Seq<Seq<char>>, x: Seq<char>)
    ensures
        forall|y: Seq<char>| s.push(x).contains(y) <==> s.contains(y) || y == x,
{
    assert forall|y: Seq<char>| s.push(x).contains(y) implies s.contains(y) || y == x by {
        let w = choose|w: int| 0 <= w < s.push(x).len() && s.push(x)[w] == y;
        if w < s.len() {
            assert(s[w] == y);
        }
    }
    assert forall|y: Seq<char>| s.contains(y) implies s.push(x).contains(y) by {
        let w = choose|w: int| 0 <= w < s.len() && s[w] == y;
        assert(s.push(x)[w] == y);
    }
    assert(s.push(x)[s.len() as int] == x);
}

/// Builds the well-known list, sorted for binary search.
fn wellknown_list() -> (v: Vec<String>)
    ensures
        sorted_views(v@),
        forall|y: Seq<char>| views_of(v@).contains(y) <==> wellknown().contains(y),
{
    let mut lits: Vec<&str> = Vec::new();
    lits.push("yarn.lock");
    lits.push("package.json");
    lits.push("package-lock.json");
    lits.push("vite.config.js");
    lits.push("rollup.config.js");
    lits.push("webpack.config.js");
    lits.push("jest.config.js");
    lits.push("tsconfig.json");
    lits.push("next.config.js");
    lits.push("_app.tsx");
    lits.push("_app.js");
    lits.push("_app.jsx");
    lits.push("_document.tsx");
    lits.push("_document.js");
    lits.push("_document.jsx");
    lits.push("composer.lock");
    lits.push("composer.phar");
    lits.push("composer.json");
    lits.push("Cargo.lock");
    lits.push("Cargo.toml");
    lits.push("Gemfile.lock");
    lits.push("Gemfile");
    lits.push("Dockerfile");
    lits.push("docker-compose.yml");
    lits.push("README.md");
    lits.push("CONTRIBUTING.md");
    lits.push("CODE_OF_CONDUCT.md");
    lits.push("FUNDING.yml");
    lits.push("ISSUE_TEMPLATE");
    lits.push("PULL_REQUEST_TEMPLATE.md");
    lits.push("LICENSE");
    lits.push("SECURITY.md");
    lits.push("CODEOWNERS");
    lits.push("_");
    lits.push("__pycache__");
    let ghost lw = wellknown();
    proof {
        assert(lits@.map_values(|t: &str| t@) =~= lw);
    }
    let mut v: Vec<String> = Vec::new();
    let n = lits.len();
    let mut i: usize = 0;
    while i < n
        invariant
            n == lits@.len(),
            i <= n,
            lw == wellknown(),
            lits@.map_values(|t: &str| t@) == lw,
            sorted_views(v@),
            forall|y: Seq<char>| views_of(v@).contains(y) <==> lw.take(i as int).contains(y),
        decreases n - i,
    {
        proof {
            assert(lits@[i as int]@ == lits@.map_values(|t: &str| t@)[i as int]);
        }
        let x = lits[i].to_owned();
        insert_sorted(&mut v, x);
        proof {
            lemma_push_contains(lw.take(i as int), lw[i as int]);
            assert(lw.take(i as int).push(lw[i as int]) =~= lw.take(i as int + 1));
        }
        i += 1;
    }
    proof {
        assert(lw.take(n as int) =~= lw);
    }
    v
}

/// One exclusion rule: the glob pattern text and the scope it was declared
/// under (`None` means root-scoped).
struct IgnoreRule {
    pattern: String,
    base: Option<String>,
}

/// The mathematical content of a rule: pattern text and optional scope.
spec fn rule_view(r: IgnoreRule) -> (Seq<char>, Option<Seq<char>>) {
    (
        r.pattern@,
        match r.base {
            Option::Some(b) => Option::Some(b@),
            Option::None => Option::None,
        },
    )
}

/// The view of an optional string.
pub open spec fn opt_view(b: Option<String>) -> Option<Seq<char>> {
    match b {
        Option::Some(s) => Option::Some(s@),
        Option::None => Option::None,
    }
}

fn clone_opt(b: &Option<String>) -> (r: Option<String>)
    ensures
        opt_view(r) == opt_view(*b),
{
    match b {
        Option::Some(s) => Option::Some(s.clone()),
        Option::None => Option::None,
    }
}

/// A trimmed line with its single trailing directory slash removed.
pub open spec fn strip_dir_slash(t: Seq<char>) -> Seq<char> {
    if t.len() > 0 && t[t.len() - 1] == '/' {
        t.drop_last()
    } else {
        t
    }
}

/// The pattern text contributed by one gitignore line: the trimmed line
/// without its directory marker, prefixed with a recursive wildcard when
/// it holds no slash of its own.
pub open spec fn rule_of_line(l: Seq<char>) -> Seq<char> {
    let t = strip_dir_slash(trimmed(l));
    if t.contains('/') {
        t
    } else {
        seq!['*', '*', '/'] + t
    }
}

/// Whether a gitignore line contributes a rule: it is not blank, not a
/// comment, and its pattern text compiles as a glob.
pub open spec fn line_kept(l: Seq<char>) -> bool {
    trimmed(l).len() > 0 && trimmed(l)[0] != '#' && glob_ok(rule_of_line(l))
}

/// The rules contributed by one line.
pub open spec fn line_contribution(l: Seq<char>, base: Option<Seq<char>>) -> Seq<
    (Seq<char>, Option<Seq<char>>),
> {
    if line_kept(l) {
        seq![(rule_of_line(l), base)]
    } else {
        seq![]
    }
}

/// The rules contributed by a sequence of lines, in order.
pub open spec fn parse_lines(lines: Seq<Seq<char>>, base: Option<Seq<char>>) -> Seq<
    (Seq<char>, Option<Seq<char>>),
>
    decreases lines.len(),
{
    if lines.len() == 0 {
        seq![]
    } else {
        line_contribution(lines[0], base) + parse_lines(lines.drop_first(), base)
    }
}

/// The rules of a whole gitignore text, scoped to `base`.
pub open spec fn parse_rules(content: Seq<char>, base: Option<Seq<char>>) -> Seq<
    (Seq<char>, Option<Seq<char>>),
> {
    parse_lines(split_at_char(content, '\n'), base)
}

proof fn lemma_parse_lines_snoc(lines: Seq<Seq<char>>, x: Seq<char>, base: Option<Seq<char>>)
    ensures
        parse_lines(lines.push(x), base) == parse_lines(lines, base) + line_contribution(x, base),
    decreases lines.len(),
{
    if lines.len() == 0 {
        assert(lines.push(x)[0] == x);
        assert(lines.push(x).drop_first() =~= Seq::<Seq<char>>::empty());
        assert(parse_lines(Seq::<Seq<char>>::empty(), base) =~= Seq::<
            (Seq<char>, Option<Seq<char>>),
        >::empty());
        assert(parse_lines(lines.push(x), base) =~= line_contribution(x, base));
        assert(parse_lines(lines, base) + line_contribution(x, base) =~= line_contribution(
            x,
            base,
        ));
    } else {
        assert(lines.push(x)[0] == lines[0]);
        assert(lines.push(x).drop_first() =~= lines.drop_first().push(x));
        lemma_parse_lines_snoc(lines.drop_first(), x, base);
        assert(line_contribution(lines[0], base) + (parse_lines(lines.drop_first(), base)
            + line_contribution(x, base)) =~= (line_contribution(lines[0], base) + parse_lines(
            lines.drop_first(),
            base,
        )) + line_contribution(x, base));
    }
}

/// Parses a gitignore text into rules scoped to `base`: lines are trimmed,
/// blank lines and comments are dropped, a single trailing slash is
/// removed, a line without a slash is made matchable at any depth, and
/// lines that do not compile as globs are silently dropped.
fn parse_gitignore(content: &str, base: &Option<String>) -> (r: Vec<IgnoreRule>)
    ensures
        r@.map_values(|ru: IgnoreRule| rule_view(ru)) == parse_rules(content@, opt_view(*base)),
{
    let lines = split_on(content, '\n');
    let ghost lv = lines@.map_values(|p: String| p@);
    let ghost bv = opt_view(*base);
    let mut rules: Vec<IgnoreRule> = Vec::new();
    let n = lines.len();
    let mut i: usize = 0;
    proof {
        assert(lv.take(0) =~= Seq::<Seq<char>>::empty());
        assert(rules@.map_values(|ru: IgnoreRule| rule_view(ru)) =~= parse_lines(lv.take(0), bv));
    }
    while i < n
        invariant
            n == lines@.len(),
            i <= n,
            lv == lines@.map_values(|p: String| p@),
            bv == opt_view(*base),
            rules@.map_values(|ru: IgnoreRule| rule_view(ru)) == parse_lines(lv.take(i as int), bv),
        decreases n - i,
    {
        proof {
            assert(lines@[i as int]@ == lv[i as int]);
        }
        let t = trim(lines[i].as_str());
        let tn = t.as_str().unicode_len();
        if tn > 0 && t.as_str().get_char(0) != '#' {
            let stripped: String = if t.as_str().get_char(tn - 1) == '/' {
                t.as_str().substring_char(0, tn - 1).to_owned()
            } else {
                t.clone()
            };
            proof {
                assert(t@.subrange(0, tn - 1) =~= t@.drop_last());
                assert(stripped@ == strip_dir_slash(trimmed(lv[i as int])));
            }
            let pat: String = if contains_char(stripped.as_str(), '/') {
                stripped
            } else {
                proof {
                    reveal_strlit("**/");
                    assert("**/"@ =~= seq!['*', '*', '/']);
                }
                String::from_str("**/").concat(stripped.as_str())
            };
            proof {
                assert(pat@ == rule_of_line(lv[i as int]));
            }
            if glob_compiles(pat.as_str()) {
                let rb = clone_opt(base);
                let ghost oldrules = rules@;
                rules.push(IgnoreRule { pattern: pat, base: rb });
                proof {
                    assert(rules@.map_values(|ru: IgnoreRule| rule_view(ru)) =~~= oldrules
                        .map_values(|ru: IgnoreRule| rule_view(ru)) + line_contribution(
                        lv[i as int],
                        bv,
                    ));
                }
            } else {
                proof {
                    assert(line_contribution(lv[i as int], bv) =~= Seq::<
                        (Seq<char>, Option<Seq<char>>),
                    >::empty());
                }
            }
        } else {
            proof {
                assert(!line_kept(lv[i as int]));
                assert(line_contribution(lv[i as int], bv) =~= Seq::<
                    (Seq<char>, Option<Seq<char>>),
                >::empty());
            }
        }
        proof {
            lemma_parse_lines_snoc(lv.take(i as int), lv[i as int], bv);
            assert(lv.take(i as int).push(lv[i as int]) =~= lv.take(i as int + 1));
            assert(rules@.map_values(|ru: IgnoreRule| rule_view(ru)) =~~= parse_lines(
                lv.take(i as int + 1),
                bv,
            ));
        }
        i += 1;
    }
    proof {
        assert(lv.take(n as int) =~= lv);
    }
    rules
}

/// The path made relative to the walk root, with a leading slash.
pub open spec fn normalized(path: Seq<char>, base: Seq<char>) -> Seq<char> {
    if base.len() <= path.len() && path.subrange(0, base.len() as int) == base {
        seq!['/'] + path.skip(base.len() as int)
    } else {
        seq!['/'] + path
    }
}

/// The normalized path lies under the scope `bp`: it equals the scope, or
/// continues past it at a component boundary.  The root scope `/` covers
/// every normalized path.
pub open spec fn under_scope(p: Seq<char>, bp: Seq<char>) -> bool {
    if bp == seq!['/'] {
        p.len() >= 1 && p[0] == '/'
    } else {
        p == bp || (bp.len() < p.len() && p.subrange(0, bp.len() as int) == bp && p[bp.len() as int]
            == '/')
    }
}

/// The normalized path with its scope prefix stripped at a component
/// boundary; meaningful only for paths under that scope.
pub open spec fn scoped(p: Seq<char>, bp: Seq<char>) -> Seq<char> {
    if bp == seq!['/'] {
        p.skip(1)
    } else if p == bp {
        Seq::empty()
    } else {
        p.skip(bp.len() as int + 1)
    }
}

/// Whether one rule matches the normalized path.  A rule carrying a scope
/// applies only to paths that lie under that scope, and is then matched
/// against the path with the scope stripped.
pub open spec fn rule_hits(rule: (Seq<char>, Option<Seq<char>>), norm: Seq<char>) -> bool {
    match rule.1 {
        Option::Some(bp) => under_scope(norm, bp) && glob_matches(rule.0, scoped(norm, bp)),
        Option::None => glob_matches(rule.0, norm),
    }
}

/// Law: a rule declared with a scope never matches a path that does not
/// lie under that scope, whatever its pattern.
pub proof fn lemma_scoped_rule_confined(rule: (Seq<char>, Option<Seq<char>>), norm: Seq<char>)
    requires
        rule.1 matches Option::Some(bp) && !under_scope(norm, bp),
    ensures
        !rule_hits(rule, norm),
{
}

/// A path is ignored when its file name is well-known, or when any rule
/// matches the normalized path.
pub open spec fn ignored_spec(
    rules: Seq<(Seq<char>, Option<Seq<char>>)>,
    base: Seq<char>,
    path: Seq<char>,
) -> bool {
    wellknown().contains(file_name_of(path)) || exists|k: int|
        0 <= k < rules.len() && rule_hits(#[trigger] rules[k], normalized(path, base))
}

/// Law: a well-known file name is ignored whatever rules are in force.
pub proof fn lemma_wellknown_always_ignored(
    rules: Seq<(Seq<char>, Option<Seq<char>>)>,
    base: Seq<char>,
    path: Seq<char>,
)
    requires
        wellknown().contains(file_name_of(path)),
    ensures
        ignored_spec(rules, base, path),
{
}

/// The layered exclusion-rule set for one directory during a walk.
pub struct Ignore {
    rules: Vec<IgnoreRule>,
    wellknown_files: Vec<String>,
    base: String,
}

impl Ignore {
    /// The rules in force, in order of declaration.
    pub closed spec fn rules_view(&self) -> Seq<(Seq<char>, Option<Seq<char>>)> {
        self.rules@.map_values(|r: IgnoreRule| rule_view(r))
    }

    /// The base path of the walk root, with its trailing slash.
    pub closed spec fn base_view(&self) -> Seq<char> {
        self.base@
    }

    #[verifier::type_invariant]
    spec fn wf(&self) -> bool {
        &&& sorted_views(self.wellknown_files@)
        &&& (forall|y: Seq<char>|
            views_of(self.wellknown_files@).contains(y) <==> wellknown().contains(y))
        &&& (forall|k: int|
            0 <= k < self.rules@.len() ==> glob_ok(#[trigger] self.rules@[k].pattern@))
    }

    /// Builds the root rule set from the walk root directory and the text
    /// of its gitignore file (empty when the file is absent), and seeds
    /// the well-known file-name list.
    pub fn new(root_dir: &str, gitignore_content: &str) -> (r: Ignore)
        ensures
            r.base_view() == root_dir@ + seq!['/'],
            r.rules_view() == parse_rules(gitignore_content@, Option::None),
    {
        let rules = parse_gitignore(gitignore_content, &Option::None);
        let wellknown_files = wellknown_list();
        proof {
            reveal_strlit("/");
            assert("/"@ =~= seq!['/']);
        }
        let base = root_dir.to_owned().concat("/");
        proof {
            lemma_parse_lines_all_ok(split_at_char(gitignore_content@, '\n'), Option::None);
            assert forall|k: int| 0 <= k < rules@.len() implies glob_ok(
                #[trigger] rules@[k].pattern@,
            ) by {
                assert(rules@.map_values(|ru: IgnoreRule| rule_view(ru))[k] == rule_view(
                    rules@[k],
                ));
                assert(parse_rules(gitignore_content@, Option::None)[k].0 == rules@[k].pattern@);
            }
        }
        Ignore { rules, wellknown_files, base }
    }

    /// Extends this rule set with the rules of a nested gitignore file,
    /// scoped to the directory that holds it; the receiver is left
    /// untouched.  Returns nothing when the given path does not lie under
    /// the walk root.
    pub fn concat(&self, gitignore_path: &str, content: &str) -> (r: Option<Ignore>)
        ensures
            (match r {
                Option::Some(ig) => {
                    &&& self.base_view().len() <= gitignore_path@.len()
                    &&& gitignore_path@.subrange(0, self.base_view().len() as int)
                        == self.base_view()
                    &&& ig.base_view() == self.base_view()
                    &&& ig.rules_view() == self.rules_view() + parse_rules(
                        content@,
                        Option::Some(
                            seq!['/'] + dir_part(
                                gitignore_path@.skip(self.base_view().len() as int),
                            ),
                        ),
                    )
                },
                Option::None => !(self.base_view().len() <= gitignore_path@.len()
                    && gitignore_path@.subrange(0, self.base_view().len() as int)
                    == self.base_view()),
            }),
    {
        proof {
            use_type_invariant(self);
        }
        if !is_prefix(self.base.as_str(), gitignore_path) {
            return Option::None;
        }
        let n = gitignore_path.unicode_len();
        let bn = self.base.as_str().unicode_len();
        let rel = gitignore_path.substring_char(bn, n).to_owned();
        proof {
            assert(rel@ =~= gitignore_path@.skip(bn as int));
        }
        let fname = file_name(rel.as_str());
        let rn = rel.as_str().unicode_len();
        let fnn = fname.as_str().unicode_len();
        proof {
            crate::text::lemma_file_name_len(rel@);
        }
        let parent: String = if fnn == rn {
            String::new()
        } else {
            rel.as_str().substring_char(0, rn - fnn - 1).to_owned()
        };
        proof {
            assert(rel@.subrange(0, rn - fnn - 1) =~= rel@.take(rn - fnn - 1));
            assert(parent@ == dir_part(rel@));
            reveal_strlit("/");
            assert("/"@ =~= seq!['/']);
        }
        let scope = String::from_str("/").concat(parent.as_str());
        let ghost scope_view = Option::Some(seq!['/'] + dir_part(rel@));
        proof {
            assert(opt_view(Option::Some(scope)) == scope_view);
        }
        let mut added = parse_gitignore(content, &Option::Some(scope));
        let ghost added_views = added@.map_values(|ru: IgnoreRule| rule_view(ru));
        let mut rules = clone_rules(&self.rules);
        let ghost cloned_views = rules@.map_values(|ru: IgnoreRule| rule_view(ru));
        proof {
            assert(cloned_views =~= self.rules_view());
        }
        rules.append(&mut added);
        let wellknown_files = clone_strings(&self.wellknown_files);
        let base = self.base.clone();
        proof {
            assert(rules@.map_values(|ru: IgnoreRule| rule_view(ru)) =~= cloned_views
                + added_views);
            lemma_parse_lines_all_ok(split_at_char(content@, '\n'), scope_view);
            assert forall|k: int| 0 <= k < rules@.len() implies glob_ok(
                #[trigger] rules@[k].pattern@,
            ) by {
                assert(rules@.map_values(|ru: IgnoreRule| rule_view(ru))[k] == rule_view(
                    rules@[k],
                ));
                if k < cloned_views.len() {
                    assert(cloned_views[k] == rule_view(self.rules@[k]));
                } else {
                    assert(added_views[k - cloned_views.len()].0 == rules@[k].pattern@);
                }
            }
        }
        Option::Some(Ignore { rules, wellknown_files, base })
    }

    /// Decides whether a path is exempt from checking: true exactly when
    /// its file name is on the built-in well-known list, or some rule in
    /// force matches the path normalized against the walk root.
    pub fn is_ignored(&self, path: &str) -> (r: bool)
        ensures
            r == ignored_spec(self.rules_view(), self.base_view(), path@),
    {
        proof {
            use_type_invariant(self);
        }
        let fname = file_name(path);
        if contains_sorted(&self.wellknown_files, fname.as_str()) {
            return true;
        }
        let n = path.unicode_len();
        let bn = self.base.as_str().unicode_len();
        proof {
            reveal_strlit("/");
            assert("/"@ =~= seq!['/']);
        }
        let stripped: String = if is_prefix(self.base.as_str(), path) {
            path.substring_char(bn, n).to_owned()
        } else {
            path.to_owned()
        };
        proof {
            assert(path@.subrange(bn as int, n as int) =~= path@.skip(bn as int));
        }
        let norm = String::from_str("/").concat(stripped.as_str());
        proof {
            assert(norm@ == normalized(path@, self.base_view()));
        }
        let m = self.rules.len();
        let mut k: usize = 0;
        while k < m
            invariant
                m == self.rules@.len(),
                k <= m,
                norm@ == normalized(path@, self.base_view()),
                forall|j: int|
                    0 <= j < k ==> !rule_hits(
                        #[trigger] self.rules_view()[j],
                        normalized(path@, self.base_view()),
                    ),
            decreases m - k,
        {
            proof {
                use_type_invariant(self);
                assert(self.rules_view()[k as int] == rule_view(self.rules@[k as int]));
            }
            let hit: bool = match &self.rules[k].base {
                Option::Some(bp) => {
                    let bpn = bp.as_str().unicode_len();
                    let nn = norm.as_str().unicode_len();
                    proof {
                        assert(norm@[0] == '/');
                    }
                    if bpn == 1 && bp.as_str().get_char(0) == '/' {
                        proof {
                            assert(bp@ =~= seq!['/']);
                            assert(under_scope(norm@, bp@));
                        }
                        let rest = norm.as_str().substring_char(1, nn);
                        proof {
                            assert(rest@ =~= norm@.skip(1));
                            assert(scoped(norm@, bp@) == rest@);
                        }
                        glob_match(self.rules[k].pattern.as_str(), rest)
                    } else if str_eq(norm.as_str(), bp.as_str()) {
                        proof {
                            reveal_strlit("");
                            assert(""@ =~= Seq::<char>::empty());
                            assert(bp@ != seq!['/']);
                            assert(under_scope(norm@, bp@));
                            assert(scoped(norm@, bp@) == ""@);
                        }
                        glob_match(self.rules[k].pattern.as_str(), "")
                    } else if nn > bpn && is_prefix(bp.as_str(), norm.as_str())
                        && norm.as_str().get_char(bpn) == '/' {
                        proof {
                            assert(bp@ != seq!['/']);
                            assert(under_scope(norm@, bp@));
                        }
                        let rest = norm.as_str().substring_char(bpn + 1, nn);
                        proof {
                            assert(rest@ =~= norm@.skip(bpn as int + 1));
                            assert(scoped(norm@, bp@) == rest@);
                        }
                        glob_match(self.rules[k].pattern.as_str(), rest)
                    } else {
                        proof {
                            assert(bp@ != seq!['/']);
                            assert(!under_scope(norm@, bp@));
                            assert(!rule_hits(
                                self.rules_view()[k as int],
                                normalized(path@, self.base_view()),
                            ));
                        }
                        false
                    }
                },
                Option::None => glob_match(self.rules[k].pattern.as_str(), norm.as_str()),
            };
            if hit {
                proof {
                    assert(rule_hits(
                        self.rules_view()[k as int],
                        normalized(path@, self.base_view()),
                    ));
                }
                return true;
            }
            k += 1;
        }
        proof {
            assert(!wellknown().contains(file_name_of(path@)));
        }
        false
    }
}

fn clone_rules(v: &Vec<IgnoreRule>) -> (r: Vec<IgnoreRule>)
    ensures
        r@.len() == v@.len(),
        forall|k: int|
            0 <= k < v@.len() ==> rule_view(#[trigger] r@[k]) == rule_view(v@[k]) && r@[k].pattern@
                == v@[k].pattern@,
{
    let n = v.len();
    let mut r: Vec<IgnoreRule> = Vec::new();
    let mut i: usize = 0;
    while i < n
        invariant
            n == v@.len(),
            i <= n,
            r@.len() == i,
            forall|k: int|
                0 <= k < i ==> rule_view(#[trigger] r@[k]) == rule_view(v@[k]) && r@[k].pattern@
                    == v@[k].pattern@,
        decreases n - i,
    {
        let pattern = v[i].pattern.clone();
        let base = clone_opt(&v[i].base);
        r.push(IgnoreRule { pattern, base });
        i += 1;
    }
    r
}

fn clone_strings(v: &Vec<String>) -> (r: Vec<String>)
    ensures
        r@ == v@,
{
    let n = v.len();
    let mut r: Vec<String> = Vec::new();
    let mut i: usize = 0;
    while i < n
        invariant
            n == v@.len(),
            i <= n,
            r@.len() == i,
            forall|k: int| 0 <= k < i ==> #[trigger] r@[k] == v@[k],
        decreases n - i,
    {
        r.push(v[i].clone());
        i += 1;
    }
    proof {
        assert(r@ =~= v@);
    }
    r
}

/// The directory part of a relative path: everything before the last
/// slash, or empty when the path holds no slash.
pub open spec fn dir_part(s: Seq<char>) -> Seq<char> {
    if file_name_of(s).len() == s.len() {
        Seq::empty()
    } else {
        s.take(s.len() - file_name_of(s).len() - 1)
    }
}

/// Every rule in the sequence has a pattern that compiles.
pub open spec fn parse_lines_ok(rules: Seq<(Seq<char>, Option<Seq<char>>)>) -> bool {
    forall|k: int| 0 <= k < rules.len() ==> glob_ok(#[trigger] rules[k].0)
}

proof fn lemma_parse_lines_all_ok(lines: Seq<Seq<char>>, base: Option<Seq<char>>)
    ensures
        parse_lines_ok(parse_lines(lines, base)),
    decreases lines.len(),
{
    if lines.len() > 0 {
        lemma_parse_lines_all_ok(lines.drop_first(), base);
    }
}

} // verus!

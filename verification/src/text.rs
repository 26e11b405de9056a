//! Small verified toolkit for working with strings as sequences of
//! characters: searching, splitting, trimming, comparing and taking the
//! file-name component of a slash-separated path.
use vstd::prelude::*;

verus! {

/// The Unicode white-space characters, the set that `str::trim` removes
/// from the ends of a string.
pub open spec fn is_space(c: char) -> bool {
    ||| c == ' '
    ||| c == '\t'
    ||| c == '\n'
    ||| c == '\u{B}'
    ||| c == '\u{C}'
    ||| c == '\r'
    ||| c == '\u{85}'
    ||| c == '\u{A0}'
    ||| c == '\u{1680}'
    ||| (c as u32) >= 0x2000 && (c as u32) <= 0x200A
    ||| c == '\u{2028}'
    ||| c == '\u{2029}'
    ||| c == '\u{202F}'
    ||| c == '\u{205F}'
    ||| c == '\u{3000}'
}

/// Index of the first occurrence of `c` in `s`, or `s.len()` if `c` does
/// not occur.
pub open spec fn first_at(s: Seq<char>, c: char) -> nat
    decreases s.len(),
{
    if s.len() == 0 {
        0
    } else if s[0] == c {
        0
    } else {
        (1 + first_at(s.drop_first(), c)) as nat
    }
}

pub proof fn lemma_first_at(s: Seq<char>, c: char)
    ensures
        first_at(s, c) <= s.len(),
        forall|j: int| 0 <= j < first_at(s, c) ==> s[j] != c,
        first_at(s, c) < s.len() ==> s[first_at(s, c) as int] == c,
    decreases s.len(),
{
    if s.len() > 0 && s[0] != c {
        lemma_first_at(s.drop_first(), c);
        assert forall|j: int| 0 <= j < first_at(s, c) implies s[j] != c by {
            if j >= 1 {
                assert(s[j] == s.drop_first()[j - 1]);
            }
        }
    }
}

pub proof fn lemma_first_at_is(s: Seq<char>, c: char, k: int)
    requires
        0 <= k <= s.len(),
        forall|j: int| 0 <= j < k ==> s[j] != c,
        k < s.len() ==> s[k] == c,
    ensures
        first_at(s, c) == k,
    decreases s.len(),
{
    if s.len() == 0 {
    } else if s[0] == c {
        assert(k == 0);
    } else {
        assert(k >= 1);
        lemma_first_at_is(s.drop_first(), c, k - 1);
    }
}

/// Splits `s` at every occurrence of `c`.  The result always has at least
/// one element; the separators themselves are dropped.
pub open spec fn split_at_char(s: Seq<char>, c: char) -> Seq<Seq<char>>
    decreases s.len(),
{
    let i = first_at(s, c);
    if i >= s.len() {
        seq![s]
    } else {
        seq![s.subrange(0, i as int)] + split_at_char(
            s.subrange(i as int + 1, s.len() as int),
            c,
        )
    }
}

/// Tests whether a character is one of the trimmed whitespace characters.
pub fn is_space_exec(c: char) -> (r: bool)
    ensures
        r == is_space(c),
{
    c == ' ' || c == '\t' || c == '\n' || c == '\u{B}' || c == '\u{C}' || c == '\r' || c
        == '\u{85}' || c == '\u{A0}' || c == '\u{1680}' || ((c as u32) >= 0x2000 && (c as u32)
        <= 0x200A) || c == '\u{2028}' || c == '\u{2029}' || c == '\u{202F}' || c == '\u{205F}' || c
        == '\u{3000}'
}

/// True when the views of `a` and `b` are the same character sequence.
pub fn str_eq(a: &str, b: &str) -> (r: bool)
    ensures
        r == (a@ == b@),
{
    let sa = a.to_owned();
    let sb = b.to_owned();
    sa == sb
}

/// Splits a string at every occurrence of `c`, returning the pieces.
pub fn split_on(s: &str, c: char) -> (parts: Vec<String>)
    ensures
        parts@.map_values(|p: String| p@) == split_at_char(s@, c),
        parts@.len() >= 1,
{
    let n = s.unicode_len();
    let mut parts: Vec<String> = Vec::new();
    let mut start: usize = 0;
    let mut i: usize = 0;
    proof {
        assert(s@.subrange(0, n as int) =~= s@);
        assert(parts@.map_values(|p: String| p@) + split_at_char(s@, c) =~~= split_at_char(
            s@,
            c,
        ));
    }
    while i < n
        invariant
            n == s@.len(),
            start <= i <= n,
            forall|j: int| start <= j < i ==> s@[j] != c,
            split_at_char(s@, c) == parts@.map_values(|p: String| p@) + split_at_char(
                s@.subrange(start as int, n as int),
                c,
            ),
        decreases n - i,
    {
        if s.get_char(i) == c {
            let piece = s.substring_char(start, i).to_owned();
            proof {
                let suffix = s@.subrange(start as int, n as int);
                lemma_first_at_is(suffix, c, i - start);
                assert(suffix.subrange(0, i - start) =~= s@.subrange(start as int, i as int));
                assert(suffix.subrange(i - start + 1, suffix.len() as int) =~= s@.subrange(
                    i as int + 1,
                    n as int,
                ));
                assert(piece@ == s@.subrange(start as int, i as int));
                assert(parts@.push(piece).map_values(|p: String| p@) =~~= parts@.map_values(
                    |p: String| p@,
                ).push(piece@));
                assert(parts@.map_values(|p: String| p@).push(piece@) + split_at_char(
                    s@.subrange(i as int + 1, n as int),
                    c,
                ) =~~= parts@.map_values(|p: String| p@) + (seq![piece@] + split_at_char(
                    s@.subrange(i as int + 1, n as int),
                    c,
                )));
            }
            parts.push(piece);
            start = i + 1;
        }
        i += 1;
    }
    let last = s.substring_char(start, n).to_owned();
    proof {
        let suffix = s@.subrange(start as int, n as int);
        lemma_first_at_is(suffix, c, n - start);
        assert(split_at_char(suffix, c) == seq![suffix]);
        assert(parts@.push(last).map_values(|p: String| p@) =~~= parts@.map_values(
            |p: String| p@,
        ).push(last@));
        assert(parts@.map_values(|p: String| p@).push(suffix) =~~= parts@.map_values(
            |p: String| p@,
        ) + seq![suffix]);
    }
    parts.push(last);
    parts
}

/// `s` with leading whitespace removed.
pub open spec fn trim_front(s: Seq<char>) -> Seq<char>
    decreases s.len(),
{
    if s.len() > 0 && is_space(s[0]) {
        trim_front(s.drop_first())
    } else {
        s
    }
}

/// `s` with trailing whitespace removed.
pub open spec fn trim_back(s: Seq<char>) -> Seq<char>
    decreases s.len(),
{
    if s.len() > 0 && is_space(s[s.len() - 1]) {
        trim_back(s.drop_last())
    } else {
        s
    }
}

/// `s` with whitespace removed from both ends.
pub open spec fn trimmed(s: Seq<char>) -> Seq<char> {
    trim_back(trim_front(s))
}

pub proof fn lemma_trim_front_is(s: Seq<char>, k: int)
    requires
        0 <= k <= s.len(),
        forall|j: int| 0 <= j < k ==> is_space(s[j]),
        k < s.len() ==> !is_space(s[k]),
    ensures
        trim_front(s) == s.skip(k),
    decreases s.len(),
{
    if k == 0 {
        assert(s.skip(0) =~= s);
    } else {
        lemma_trim_front_is(s.drop_first(), k - 1);
        assert(s.drop_first().skip(k - 1) =~= s.skip(k));
    }
}

pub proof fn lemma_trim_back_is(s: Seq<char>, k: int)
    requires
        0 <= k <= s.len(),
        forall|j: int| k <= j < s.len() ==> is_space(s[j]),
        k > 0 ==> !is_space(s[k - 1]),
    ensures
        trim_back(s) == s.take(k),
    decreases s.len(),
{
    if k == s.len() {
        assert(s.take(k) =~= s);
    } else {
        lemma_trim_back_is(s.drop_last(), k);
        assert(s.drop_last().take(k) =~= s.take(k));
    }
}

/// Removes whitespace from both ends of a string.
pub fn trim(s: &str) -> (r: String)
    ensures
        r@ == trimmed(s@),
{
    let n = s.unicode_len();
    let mut a: usize = 0;
    while a < n && is_space_exec(s.get_char(a))
        invariant
            n == s@.len(),
            a <= n,
            forall|j: int| 0 <= j < a ==> is_space(s@[j]),
        decreases n - a,
    {
        a += 1;
    }
    proof {
        lemma_trim_front_is(s@, a as int);
    }
    let mut b: usize = n;
    while b > a && is_space_exec(s.get_char(b - 1))
        invariant
            n == s@.len(),
            a <= b <= n,
            forall|j: int| b <= j < n ==> is_space(s@[j]),
        decreases b,
    {
        b -= 1;
    }
    let r = s.substring_char(a, b).to_owned();
    proof {
        let f = s@.skip(a as int);
        lemma_trim_back_is(f, b - a);
        assert(f.take(b - a) =~= s@.subrange(a as int, b as int));
    }
    r
}

/// Strict lexicographic order on character sequences, comparing characters
/// by their code points.
pub open spec fn lex_lt(a: Seq<char>, b: Seq<char>) -> bool
    decreases a.len(),
{
    if b.len() == 0 {
        false
    } else if a.len() == 0 {
        true
    } else if a[0] == b[0] {
        lex_lt(a.drop_first(), b.drop_first())
    } else {
        a[0] < b[0]
    }
}

pub proof fn lemma_lex_total(a: Seq<char>, b: Seq<char>)
    ensures
        lex_lt(a, b) || lex_lt(b, a) || a == b,
        !(lex_lt(a, b) && lex_lt(b, a)),
        lex_lt(a, b) ==> a != b,
    decreases a.len() + b.len(),
{
    if a.len() > 0 && b.len() > 0 {
        if a[0] == b[0] {
            lemma_lex_total(a.drop_first(), b.drop_first());
            if a.drop_first() == b.drop_first() {
                assert forall|i: int| 0 <= i < a.len() implies a[i] == b[i] by {
                    if i > 0 {
                        assert(a[i] == a.drop_first()[i - 1]);
                        assert(b[i] == b.drop_first()[i - 1]);
                    }
                }
                assert(a =~= b);
            }
        }
    }
}

pub proof fn lemma_lex_trans(a: Seq<char>, b: Seq<char>, c: Seq<char>)
    requires
        lex_lt(a, b),
        lex_lt(b, c),
    ensures
        lex_lt(a, c),
    decreases a.len() + b.len() + c.len(),
{
    if a.len() > 0 && b.len() > 0 && c.len() > 0 {
        if a[0] == b[0] && b[0] == c[0] {
            lemma_lex_trans(a.drop_first(), b.drop_first(), c.drop_first());
        }
    }
}

/// Outcome of a three-way string comparison.
pub enum Rel {
    Below,
    Same,
    Above,
}

/// Three-way comparison of two strings in the order given by `lex_lt`.
pub fn str_cmp(a: &str, b: &str) -> (r: Rel)
    ensures
        (r is Below) == lex_lt(a@, b@),
        (r is Same) == (a@ == b@),
        (r is Above) == lex_lt(b@, a@),
{
    let na = a.unicode_len();
    let nb = b.unicode_len();
    let mut i: usize = 0;
    proof {
        lemma_lex_total(a@, b@);
        assert(a@.skip(0) =~= a@);
        assert(b@.skip(0) =~= b@);
    }
    while i < na && i < nb
        invariant
            na == a@.len(),
            nb == b@.len(),
            i <= na,
            i <= nb,
            a@.subrange(0, i as int) == b@.subrange(0, i as int),
            lex_lt(a@, b@) == lex_lt(a@.skip(i as int), b@.skip(i as int)),
            lex_lt(b@, a@) == lex_lt(b@.skip(i as int), a@.skip(i as int)),
            lex_lt(a@, b@) || lex_lt(b@, a@) || a@ == b@,
            !(lex_lt(a@, b@) && lex_lt(b@, a@)),
            lex_lt(a@, b@) ==> a@ != b@,
            lex_lt(b@, a@) ==> a@ != b@,
        decreases na - i,
    {
        let ca = a.get_char(i);
        let cb = b.get_char(i);
        if ca != cb {
            proof {
                assert(a@.skip(i as int)[0] == ca);
                assert(b@.skip(i as int)[0] == cb);
            }
            if ca < cb {
                return Rel::Below;
            } else {
                return Rel::Above;
            }
        }
        proof {
            assert(a@.skip(i as int).drop_first() =~= a@.skip(i + 1));
            assert(b@.skip(i as int).drop_first() =~= b@.skip(i + 1));
            assert(a@.subrange(0, i + 1) =~= b@.subrange(0, i + 1)) by {
                assert(forall|j: int|
                    0 <= j < i ==> a@.subrange(0, i as int)[j] == b@.subrange(0, i as int)[j]);
            }
        }
        i += 1;
    }
    if i == na && i == nb {
        proof {
            assert(a@ =~= b@) by {
                assert(forall|j: int|
                    0 <= j < i ==> a@.subrange(0, i as int)[j] == b@.subrange(0, i as int)[j]);
            }
        }
        Rel::Same
    } else if i == na {
        proof {
            assert(a@.skip(i as int).len() == 0);
            assert(b@.skip(i as int).len() > 0);
        }
        Rel::Below
    } else {
        proof {
            assert(b@.skip(i as int).len() == 0);
            assert(a@.skip(i as int).len() > 0);
        }
        Rel::Above
    }
}

/// The views of a sequence of strings.
pub open spec fn views_of(v: Seq<String>) -> Seq<Seq<char>> {
    v.map_values(|s: String| s@)
}

/// The strings are in ascending lexicographic order.
pub open spec fn sorted_views(v: Seq<String>) -> bool {
    forall|i: int, j: int|
        0 <= i < j < v.len() ==> lex_lt(#[trigger] v[i]@, #[trigger] v[j]@) || v[i]@ == v[j]@
}

/// True when `a` comes strictly before `b` in lexicographic order.
pub fn str_below(a: &str, b: &str) -> (r: bool)
    ensures
        r == lex_lt(a@, b@),
{
    match str_cmp(a, b) {
        Rel::Below => true,
        Rel::Same => false,
        Rel::Above => false,
    }
}

/// Inserts `x` into the sorted vector `v`, keeping it sorted.
pub fn insert_sorted(v: &mut Vec<String>, x: String)
    requires
        sorted_views(old(v)@),
    ensures
        sorted_views(final(v)@),
        forall|y: Seq<char>|
            views_of(final(v)@).contains(y) <==> views_of(old(v)@).contains(y) || y == x@,
{
    let n = v.len();
    let mut k: usize = 0;
    let mut more = n > 0 && str_below(v[0].as_str(), x.as_str());
    while more
        invariant
            n == v@.len(),
            k <= n,
            sorted_views(v@),
            v@ == old(v)@,
            forall|j: int| 0 <= j < k ==> lex_lt(#[trigger] v@[j]@, x@),
            more ==> k < n && lex_lt(v@[k as int]@, x@),
            !more ==> k == n || !lex_lt(v@[k as int]@, x@),
        decreases n - k,
    {
        k += 1;
        more = k < n && str_below(v[k].as_str(), x.as_str());
    }
    proof {
        assert forall|j: int| k <= j < v@.len() implies !lex_lt(#[trigger] v@[j]@, x@) by {
            if j > k && lex_lt(v@[j]@, x@) {
                if v@[k as int]@ != v@[j]@ {
                    lemma_lex_trans(v@[k as int]@, v@[j]@, x@);
                }
                assert(false);
            }
        }
    }
    let ghost oldv = v@;
    v.insert(k, x);
    proof {
        assert(v@ =~= oldv.take(k as int) + seq![x] + oldv.skip(k as int));
        assert forall|i: int, j: int| 0 <= i < j < v@.len() implies lex_lt(
            #[trigger] v@[i]@,
            #[trigger] v@[j]@,
        ) || v@[i]@ == v@[j]@ by {
            let oi = if i < k {
                i
            } else {
                i - 1
            };
            let oj = if j < k {
                j
            } else {
                j - 1
            };
            if i == k {
                lemma_lex_total(x@, oldv[oj]@);
            } else if j == k {
                lemma_lex_total(oldv[oi]@, x@);
            } else {
                assert(v@[i]@ == oldv[oi]@);
                assert(v@[j]@ == oldv[oj]@);
            }
        }
        assert forall|y: Seq<char>| views_of(v@).contains(y) implies views_of(oldv).contains(y)
            || y == x@ by {
            let w = choose|w: int| 0 <= w < views_of(v@).len() && views_of(v@)[w] == y;
            if w < k {
                assert(views_of(oldv)[w] == y);
                assert(views_of(oldv).contains(y));
            } else if w > k {
                assert(views_of(oldv)[w - 1] == y);
                assert(views_of(oldv).contains(y));
            } else {
                assert(y == x@);
            }
        }
        assert forall|y: Seq<char>| views_of(oldv).contains(y) implies views_of(v@).contains(
            y,
        ) by {
            let w = choose|w: int| 0 <= w < views_of(oldv).len() && views_of(oldv)[w] == y;
            if w < k {
                assert(views_of(v@)[w] == y);
            } else {
                assert(views_of(v@)[w + 1] == y);
            }
            assert(views_of(v@).contains(y));
        }
        assert(views_of(v@)[k as int] == x@);
        assert(views_of(v@).contains(x@));
        assert forall|y: Seq<char>| views_of(v@).contains(y) <==> views_of(oldv).contains(y) || y
            == x@ by {}
    }
}

/// Binary search for `key` in a sorted vector of strings.
pub fn contains_sorted(v: &Vec<String>, key: &str) -> (r: bool)
    requires
        sorted_views(v@),
    ensures
        r == views_of(v@).contains(key@),
{
    let mut lo: usize = 0;
    let mut hi: usize = v.len();
    while lo < hi
        invariant
            lo <= hi <= v@.len(),
            sorted_views(v@),
            forall|j: int| 0 <= j < lo ==> lex_lt(#[trigger] v@[j]@, key@),
            forall|j: int| hi <= j < v@.len() ==> lex_lt(key@, #[trigger] v@[j]@),
        decreases hi - lo,
    {
        let mid = lo + (hi - lo) / 2;
        match str_cmp(v[mid].as_str(), key) {
            Rel::Same => {
                proof {
                    assert(views_of(v@)[mid as int] == key@);
                }
                return true;
            },
            Rel::Below => {
                proof {
                    assert forall|j: int| 0 <= j < mid + 1 implies lex_lt(
                        #[trigger] v@[j]@,
                        key@,
                    ) by {
                        if j < mid {
                            if v@[j]@ == v@[mid as int]@ {
                            } else {
                                lemma_lex_trans(v@[j]@, v@[mid as int]@, key@);
                            }
                        }
                    }
                }
                lo = mid + 1;
            },
            Rel::Above => {
                proof {
                    assert forall|j: int| mid <= j < v@.len() implies lex_lt(
                        key@,
                        #[trigger] v@[j]@,
                    ) by {
                        if j > mid {
                            if v@[mid as int]@ == v@[j]@ {
                            } else {
                                lemma_lex_trans(key@, v@[mid as int]@, v@[j]@);
                            }
                        }
                    }
                }
                hi = mid;
            },
        }
    }
    proof {
        assert forall|w: int| 0 <= w < views_of(v@).len() implies views_of(v@)[w] != key@ by {
            lemma_lex_total(v@[w]@, key@);
        }
    }
    false
}

/// Tests whether `p` is a prefix of `s`.
pub fn is_prefix(p: &str, s: &str) -> (r: bool)
    ensures
        r == (p@.len() <= s@.len() && s@.subrange(0, p@.len() as int) == p@),
{
    let np = p.unicode_len();
    let ns = s.unicode_len();
    if np > ns {
        return false;
    }
    let mut i: usize = 0;
    while i < np
        invariant
            np == p@.len(),
            ns == s@.len(),
            np <= ns,
            i <= np,
            forall|j: int| 0 <= j < i ==> p@[j] == s@[j],
        decreases np - i,
    {
        if p.get_char(i) != s.get_char(i) {
            proof {
                assert(s@.subrange(0, np as int)[i as int] != p@[i as int]);
            }
            return false;
        }
        i += 1;
    }
    proof {
        assert(s@.subrange(0, np as int) =~= p@);
    }
    true
}

/// The index of the first occurrence of `c` in `s`, or the length of `s`
/// when `c` does not occur.
pub fn find_char(s: &str, c: char) -> (r: usize)
    ensures
        r == first_at(s@, c),
{
    let n = s.unicode_len();
    let mut i: usize = 0;
    while i < n && s.get_char(i) != c
        invariant
            n == s@.len(),
            i <= n,
            forall|j: int| 0 <= j < i ==> s@[j] != c,
        decreases n - i,
    {
        i += 1;
    }
    proof {
        lemma_first_at_is(s@, c, i as int);
    }
    i
}

/// Tests whether `s` holds the character `c`.
pub fn contains_char(s: &str, c: char) -> (r: bool)
    ensures
        r == s@.contains(c),
{
    let n = s.unicode_len();
    let mut i: usize = 0;
    while i < n
        invariant
            n == s@.len(),
            i <= n,
            forall|j: int| 0 <= j < i ==> s@[j] != c,
        decreases n - i,
    {
        if s.get_char(i) == c {
            return true;
        }
        i += 1;
    }
    false
}

/// The part of a slash-separated path after its last slash; the whole
/// path when it holds no slash, and empty when it ends in a slash.
pub open spec fn file_name_of(s: Seq<char>) -> Seq<char>
    decreases s.len(),
{
    if s.len() == 0 {
        s
    } else if s[s.len() - 1] == '/' {
        Seq::empty()
    } else {
        file_name_of(s.drop_last()).push(s[s.len() - 1])
    }
}

pub proof fn lemma_file_name_len(s: Seq<char>)
    ensures
        file_name_of(s).len() <= s.len(),
    decreases s.len(),
{
    if s.len() > 0 && s[s.len() - 1] != '/' {
        lemma_file_name_len(s.drop_last());
    }
}

pub proof fn lemma_file_name_of(s: Seq<char>, k: int)
    requires
        -1 <= k < s.len(),
        k >= 0 ==> s[k] == '/',
        forall|j: int| k < j < s.len() ==> s[j] != '/',
    ensures
        file_name_of(s) == s.skip(k + 1),
    decreases s.len(),
{
    if s.len() == 0 {
        assert(s.skip(0) =~= s);
    } else if s[s.len() - 1] == '/' {
        assert(k == s.len() - 1);
        assert(s.skip(k + 1) =~= Seq::<char>::empty());
    } else {
        lemma_file_name_of(s.drop_last(), k);
        assert(s.drop_last().skip(k + 1).push(s[s.len() - 1]) =~= s.skip(k + 1));
    }
}

/// Extracts the file-name component of a slash-separated path.
pub fn file_name(path: &str) -> (r: String)
    ensures
        r@ == file_name_of(path@),
{
    let n = path.unicode_len();
    let mut k: usize = n;
    while k > 0 && path.get_char(k - 1) != '/'
        invariant
            n == path@.len(),
            k <= n,
            forall|j: int| k <= j < n ==> path@[j] != '/',
        decreases k,
    {
        k -= 1;
    }
    let r = path.substring_char(k, n).to_owned();
    proof {
        lemma_file_name_of(path@, k - 1);
        assert(path@.skip(k as int) =~= path@.subrange(k as int, n as int));
    }
    r
}

} // verus!

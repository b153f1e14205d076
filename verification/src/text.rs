//! Verified text utilities: ASCII case folding, separator splitting and
//! case-insensitive substring search over `Seq<char>` views.

use vstd::prelude::*;

verus! {

/// ASCII case folding of one character: `'A'..='Z'` fold to their lower-case
/// counterparts, every other character is unchanged.
pub open spec fn fold_char(c: char) -> char {
    if 'A' <= c && c <= 'Z' {
        ((c as int) + 32) as char
    } else {
        c
    }
}

/// ASCII case folding of a whole character sequence.
pub open spec fn fold_seq(s: Seq<char>) -> Seq<char> {
    s.map_values(|c: char| fold_char(c))
}

/// Executable ASCII case folding of one character.
pub fn fold_char_exec(c: char) -> (r: char)
    ensures
        r == fold_char(c),
{
    if 'A' <= c && c <= 'Z' {
        (((c as u8) + 32) as char)
    } else {
        c
    }
}

/// `s` split at every occurrence of `sep`.  The result always has one more
/// element than `s` has separators; splitting the empty sequence yields one
/// empty field.
pub open spec fn split_seq(s: Seq<char>, sep: char) -> Seq<Seq<char>>
    decreases s.len(),
{
    if s.len() == 0 {
        seq![Seq::<char>::empty()]
    } else if s[0] == sep {
        seq![Seq::<char>::empty()] + split_seq(s.drop_first(), sep)
    } else {
        let rest = split_seq(s.drop_first(), sep);
        seq![seq![s[0]] + rest[0]] + rest.drop_first()
    }
}

/// Splitting never yields an empty field list.
pub proof fn lemma_split_seq_len(s: Seq<char>, sep: char)
    ensures
        split_seq(s, sep).len() >= 1,
    decreases s.len(),
{
    if s.len() == 0 {
    } else {
        lemma_split_seq_len(s.drop_first(), sep);
    }
}

/// Splitting a sequence that holds no separator yields that sequence alone.
pub proof fn lemma_split_seq_no_sep(s: Seq<char>, sep: char)
    requires
        forall|k: int| 0 <= k < s.len() ==> s[k] != sep,
    ensures
        split_seq(s, sep) == seq![s],
    decreases s.len(),
{
    if s.len() == 0 {
        assert(s =~= Seq::<char>::empty());
        assert(split_seq(s, sep) == seq![s]);
    } else {
        assert(forall|k: int| 0 <= k < s.drop_first().len() ==> s.drop_first()[k] != sep);
        lemma_split_seq_no_sep(s.drop_first(), sep);
        let rest = split_seq(s.drop_first(), sep);
        assert(rest[0] == s.drop_first());
        assert(seq![s[0]] + s.drop_first() =~= s);
        assert(rest.drop_first() =~= Seq::<Seq<char>>::empty());
        assert(split_seq(s, sep) =~= seq![s]);
    }
}

/// Splitting `a + [sep] + b` where `a` holds no separator peels `a` off as
/// the first field.
pub proof fn lemma_split_seq_concat(a: Seq<char>, b: Seq<char>, sep: char)
    requires
        forall|k: int| 0 <= k < a.len() ==> a[k] != sep,
    ensures
        split_seq(a + seq![sep] + b, sep) == seq![a] + split_seq(b, sep),
    decreases a.len(),
{
    let s = a + seq![sep] + b;
    if a.len() == 0 {
        assert(s.len() > 0 && s[0] == sep);
        assert(s.drop_first() =~= b);
        assert(a =~= Seq::<char>::empty());
        assert(split_seq(s, sep) == seq![Seq::<char>::empty()] + split_seq(b, sep));
        assert(seq![Seq::<char>::empty()] + split_seq(b, sep) =~= seq![a] + split_seq(b, sep));
    } else {
        assert(s[0] == a[0] && a[0] != sep);
        assert(s.drop_first() =~= a.drop_first() + seq![sep] + b);
        lemma_split_seq_concat(a.drop_first(), b, sep);
        let rest = split_seq(s.drop_first(), sep);
        assert(rest == seq![a.drop_first()] + split_seq(b, sep));
        lemma_split_seq_len(b, sep);
        assert(rest[0] == a.drop_first());
        assert(seq![s[0]] + a.drop_first() =~= a);
        assert(rest.drop_first() =~= split_seq(b, sep));
        assert(split_seq(s, sep) =~= seq![a] + split_seq(b, sep));
    }
}

/// ASCII upper-casing of one character: `'a'..='z'` rise to upper case,
/// every other character is unchanged.
pub open spec fn upper_char(c: char) -> char {
    if 'a' <= c && c <= 'z' {
        ((c as int) - 32) as char
    } else {
        c
    }
}

/// ASCII lower-casing of one character; the same map as `fold_char`.
pub open spec fn lower_char(c: char) -> char {
    fold_char(c)
}

/// ASCII upper-casing of a whole character sequence.
pub open spec fn upper_seq(s: Seq<char>) -> Seq<char> {
    s.map_values(|c: char| upper_char(c))
}

/// ASCII lower-casing of a whole character sequence.
pub open spec fn lower_seq(s: Seq<char>) -> Seq<char> {
    s.map_values(|c: char| lower_char(c))
}

/// Case folding erases the difference between the upper- and lower-cased
/// forms of any sequence: both fold to the folding of the original.
pub proof fn lemma_fold_upper_lower(s: Seq<char>)
    ensures
        fold_seq(upper_seq(s)) == fold_seq(s),
        fold_seq(lower_seq(s)) == fold_seq(s),
{
    assert forall|k: int| 0 <= k < s.len() implies fold_char(upper_char(s[k])) == fold_char(s[k])
        && fold_char(lower_char(s[k])) == fold_char(s[k]) by {
    }
    assert(fold_seq(upper_seq(s)) =~= fold_seq(s));
    assert(fold_seq(lower_seq(s)) =~= fold_seq(s));
}

/// `needle` occurs as a contiguous subrange of `hay`.
pub open spec fn is_substring(hay: Seq<char>, needle: Seq<char>) -> bool {
    exists|i: int|
        0 <= i && i + needle.len() <= hay.len() && #[trigger] hay.subrange(i, i + needle.len())
            == needle
}

/// The empty sequence is a substring of everything.
pub proof fn lemma_empty_is_substring(hay: Seq<char>)
    ensures
        is_substring(hay, Seq::<char>::empty()),
{
    let e = Seq::<char>::empty();
    assert(hay.subrange(0, 0 + e.len() as int) =~= e);
}

/// Decides whether `needle` occurs in `hay` when both are compared under
/// ASCII case folding.
pub fn contains_fold(hay: &str, needle: &str) -> (r: bool)
    ensures
        r == is_substring(fold_seq(hay@), fold_seq(needle@)),
{
    let n: usize = hay.unicode_len();
    let m: usize = needle.unicode_len();
    let ghost fh = fold_seq(hay@);
    let ghost fn_ = fold_seq(needle@);
    if m > n {
        proof {
            assert(fn_.len() == m && fh.len() == n);
            assert(!is_substring(fh, fn_));
        }
        return false;
    }
    if m == 0 {
        proof {
            assert(fn_ =~= Seq::<char>::empty());
            lemma_empty_is_substring(fh);
        }
        return true;
    }
    let mut i: usize = 0;
    loop
        invariant
            n == hay@.len(),
            m == needle@.len(),
            0 < m <= n,
            i <= n - m + 1,
            fh == fold_seq(hay@),
            fn_ == fold_seq(needle@),
            forall|k: int| 0 <= k < i ==> #[trigger] fh.subrange(k, k + fn_.len()) != fn_,
        decreases n - m + 1 - i,
    {
        if i > n - m {
            proof {
                assert forall|k: int| 0 <= k && k + fn_.len() <= fh.len() implies #[trigger]
                    fh.subrange(k, k + fn_.len()) != fn_ by {
                    assert(k < i);
                }
            }
            return false;
        }
        let mut j: usize = 0;
        let mut hit: bool = true;
        while j < m
            invariant
                n == hay@.len(),
                m == needle@.len(),
                m <= n,
                i <= n - m,
                j <= m,
                fh == fold_seq(hay@),
                fn_ == fold_seq(needle@),
                hit ==> forall|k: int| 0 <= k < j ==> fh[i + k] == fn_[k],
                !hit ==> fh.subrange(i as int, i + fn_.len()) != fn_,
            decreases m - j,
        {
            let hc = fold_char_exec(hay.get_char(i + j));
            let nc = fold_char_exec(needle.get_char(j));
            if hc != nc {
                proof {
                    assert(fh[i + j] != fn_[j as int]);
                    if fh.subrange(i as int, i + fn_.len()) == fn_ {
                        assert(fh.subrange(i as int, i + fn_.len())[j as int] == fh[i + j]);
                    }
                }
                hit = false;
            }
            j = j + 1;
        }
        if hit {
            proof {
                assert(fh.subrange(i as int, i + fn_.len()) =~= fn_);
            }
            return true;
        }
        i = i + 1;
    }
}

/// `s` with its leading spaces removed.
pub open spec fn trim_front(s: Seq<char>) -> Seq<char>
    decreases s.len(),
{
    if s.len() > 0 && s[0] == ' ' {
        trim_front(s.drop_first())
    } else {
        s
    }
}

/// `s` with its trailing spaces removed.
pub open spec fn trim_back(s: Seq<char>) -> Seq<char>
    decreases s.len(),
{
    if s.len() > 0 && s[s.len() - 1] == ' ' {
        trim_back(s.drop_last())
    } else {
        s
    }
}

/// `s` with leading and trailing spaces removed.
pub open spec fn trim_spaces(s: Seq<char>) -> Seq<char> {
    trim_back(trim_front(s))
}

/// The position of the first occurrence of `c` in `s`, if any.
pub open spec fn first_index(s: Seq<char>, c: char) -> Option<int>
    decreases s.len(),
{
    if s.len() == 0 {
        None
    } else if s[0] == c {
        Some(0int)
    } else {
        match first_index(s.drop_first(), c) {
            None => None,
            Some(i) => Some(i + 1),
        }
    }
}

/// What `first_index` means: the position it returns holds `c` and nothing
/// before it does; `None` means `c` does not occur at all.
pub proof fn lemma_first_index(s: Seq<char>, c: char)
    ensures
        match first_index(s, c) {
            Some(i) => 0 <= i < s.len() && s[i] == c && forall|k: int| 0 <= k < i ==> s[k] != c,
            None => forall|k: int| 0 <= k < s.len() ==> s[k] != c,
        },
    decreases s.len(),
{
    if s.len() == 0 {
    } else if s[0] == c {
    } else {
        lemma_first_index(s.drop_first(), c);
        let d = s.drop_first();
        match first_index(d, c) {
            Some(i) => {
                assert(first_index(s, c) == Some(i + 1));
                assert(s[i + 1] == d[i]);
                assert forall|k: int| 0 <= k < i + 1 implies s[k] != c by {
                    if k > 0 {
                        assert(s[k] == d[k - 1]);
                    }
                }
            },
            None => {
                assert forall|k: int| 0 <= k < s.len() implies s[k] != c by {
                    if k > 0 {
                        assert(s[k] == d[k - 1]);
                    }
                }
            },
        }
    }
}

/// The converse: a position that holds `c`, with none of `c` before it, is
/// what `first_index` returns.
pub proof fn lemma_first_index_is(s: Seq<char>, c: char, i: int)
    requires
        0 <= i < s.len(),
        s[i] == c,
        forall|k: int| 0 <= k < i ==> s[k] != c,
    ensures
        first_index(s, c) == Some(i),
{
    lemma_first_index(s, c);
    match first_index(s, c) {
        Some(j) => {
            if j < i {
                assert(s[j] != c);
            }
            if i < j {
                assert(s[i] != c);
            }
        },
        None => {
            assert(s[i] != c);
        },
    }
}

/// Finds the first occurrence of `c` in `s`, if any.
pub fn find_char(s: &str, c: char) -> (r: Option<usize>)
    ensures
        match r {
            Some(i) => first_index(s@, c) == Some(i as int),
            None => first_index(s@, c) is None,
        },
{
    let n: usize = s.unicode_len();
    let mut i: usize = 0;
    while i < n
        invariant
            n == s@.len(),
            i <= n,
            forall|k: int| 0 <= k < i ==> s@[k] != c,
        decreases n - i,
    {
        if s.get_char(i) == c {
            proof {
                lemma_first_index_is(s@, c, i as int);
            }
            return Some(i);
        }
        i = i + 1;
    }
    proof {
        lemma_first_index(s@, c);
        if first_index(s@, c) is Some {
            let j = first_index(s@, c)->Some_0;
            assert(s@[j] != c);
        }
    }
    None
}

/// Trims leading and trailing spaces.
pub fn trim_str(s: &str) -> (r: String)
    ensures
        r@ == trim_spaces(s@),
{
    let n: usize = s.unicode_len();
    let mut a: usize = 0;
    proof {
        assert(s@.skip(0) =~= s@);
    }
    while a < n && s.get_char(a) == ' '
        invariant
            n == s@.len(),
            a <= n,
            trim_front(s@) == trim_front(s@.skip(a as int)),
        decreases n - a,
    {
        proof {
            assert(s@.skip(a as int).drop_first() =~= s@.skip(a as int + 1));
        }
        a = a + 1;
    }
    proof {
        if a < n {
            assert(s@.skip(a as int)[0] != ' ');
        } else {
            assert(s@.skip(a as int) =~= Seq::<char>::empty());
        }
        assert(trim_front(s@) == s@.skip(a as int));
    }
    let mut b: usize = n;
    while b > a && s.get_char(b - 1) == ' '
        invariant
            n == s@.len(),
            a <= b <= n,
            trim_front(s@) == s@.skip(a as int),
            trim_back(s@.skip(a as int)) == trim_back(s@.subrange(a as int, b as int)),
        decreases b,
    {
        proof {
            let u = s@.subrange(a as int, b as int);
            assert(u.len() > 0 && u[u.len() - 1] == ' ');
            assert(u.drop_last() =~= s@.subrange(a as int, b as int - 1));
        }
        b = b - 1;
    }
    proof {
        let u = s@.subrange(a as int, b as int);
        if b > a {
            assert(u[u.len() - 1] != ' ');
        } else {
            assert(u =~= Seq::<char>::empty());
        }
        assert(trim_spaces(s@) == u);
    }
    let t = s.substring_char(a, b);
    String::from_str(t)
}

/// Appends one character to an owned string.
///
/// Relies on `String::push`, which appends the given character to the end of
/// the string.
#[verifier::external_body]
pub(crate) fn push_char(s: &mut String, c: char)
    ensures
        final(s)@ == old(s)@.push(c),
{
    s.push(c);
}

/// Splits `s` at every occurrence of `sep`.
pub fn split_str(s: &str, sep: char) -> (r: Vec<String>)
    ensures
        r.deep_view() == split_seq(s@, sep),
{
    let n: usize = s.unicode_len();
    let mut parts: Vec<String> = Vec::new();
    let mut cur: String = String::new();
    let mut i: usize = 0;
    proof {
        assert(s@.skip(0) =~= s@);
        let r0 = split_seq(s@, sep);
        lemma_split_seq_len(s@, sep);
        assert(cur@ + r0[0] =~= r0[0]);
        assert(parts.deep_view() =~= Seq::<Seq<char>>::empty());
        assert(parts.deep_view() + seq![cur@ + r0[0]] + r0.drop_first() =~= r0);
    }
    while i < n
        invariant
            n == s@.len(),
            i <= n,
            split_seq(s@, sep) == parts.deep_view() + seq![cur@ + split_seq(s@.skip(i as int), sep)[0]]
                + split_seq(s@.skip(i as int), sep).drop_first(),
        decreases n - i,
    {
        let ghost rem = s@.skip(i as int);
        let ghost rem2 = s@.skip(i as int + 1);
        proof {
            assert(rem.drop_first() =~= rem2);
            lemma_split_seq_len(rem2, sep);
        }
        let c = s.get_char(i);
        if c == sep {
            proof {
                assert(split_seq(rem, sep) == seq![Seq::<char>::empty()] + split_seq(rem2, sep));
            }
            let ghost old_parts = parts.deep_view();
            let ghost old_cur = cur@;
            parts.push(cur);
            cur = String::new();
            proof {
                assert(parts.deep_view() =~= old_parts + seq![old_cur]);
                let r2 = split_seq(rem2, sep);
                assert(old_cur + split_seq(rem, sep)[0] =~= old_cur);
                assert(split_seq(rem, sep).drop_first() =~= r2);
                assert(old_parts + seq![old_cur] + seq![cur@ + r2[0]] + r2.drop_first()
                    =~= old_parts + seq![old_cur] + r2);
                assert(old_parts + seq![old_cur + split_seq(rem, sep)[0]] + split_seq(rem, sep).drop_first()
                    =~= old_parts + seq![old_cur] + r2);
            }
        } else {
            proof {
                let r2 = split_seq(rem2, sep);
                assert(split_seq(rem, sep) == seq![seq![rem[0]] + r2[0]] + r2.drop_first());
            }
            let ghost old_cur = cur@;
            push_char(&mut cur, c);
            proof {
                let r2 = split_seq(rem2, sep);
                assert(cur@ =~= old_cur.push(c));
                assert(old_cur + (seq![c] + r2[0]) =~= cur@ + r2[0]);
                assert((seq![seq![rem[0]] + r2[0]] + r2.drop_first()).drop_first() =~= r2.drop_first());
                assert(parts.deep_view() + seq![old_cur + split_seq(rem, sep)[0]] + split_seq(rem, sep).drop_first()
                    =~= parts.deep_view() + seq![cur@ + r2[0]] + r2.drop_first());
            }
        }
        i = i + 1;
    }
    proof {
        assert(s@.skip(n as int) =~= Seq::<char>::empty());
        assert(split_seq(s@.skip(n as int), sep) == seq![Seq::<char>::empty()]);
        assert(cur@ + Seq::<char>::empty() =~= cur@);
        assert(split_seq(s@.skip(n as int), sep).drop_first() =~= Seq::<Seq<char>>::empty());
    }
    let ghost old_parts = parts.deep_view();
    parts.push(cur);
    proof {
        assert(parts.deep_view() =~= old_parts + seq![cur@]);
        assert(split_seq(s@, sep) =~= parts.deep_view());
    }
    parts
}

} // verus!

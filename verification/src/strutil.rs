//! Verified helpers over strings and their `Seq<char>` views.
//!
//! Qualified paths, tags and file names are plain strings; every operation
//! the registry performs on them (splitting on the `::` separator, counting
//! wildcard markers, building new strings) is defined here with an exact
//! specification over character sequences.

use vstd::prelude::*;

verus! {

/// The `::` separator between segments of a qualified path.
pub open spec fn path_sep() -> Seq<char> {
    seq![':', ':']
}

/// True when the two-character path separator occurs at position `i` of `s`.
pub open spec fn sep_at(s: Seq<char>, i: int) -> bool {
    0 <= i && i + 2 <= s.len() && s[i] == ':' && s[i + 1] == ':'
}

/// Position of the first occurrence of the path separator at or after `i`.
pub open spec fn find_sep_from(s: Seq<char>, i: int) -> Option<int>
    decreases s.len() - i,
{
    if 0 <= i && i + 2 <= s.len() {
        if sep_at(s, i) {
            Some(i)
        } else {
            find_sep_from(s, i + 1)
        }
    } else {
        None
    }
}

/// Position of the first occurrence of the path separator in `s`.
pub open spec fn find_sep(s: Seq<char>) -> Option<int> {
    find_sep_from(s, 0)
}

/// Position of the last occurrence of the path separator at or before `i`.
pub open spec fn rfind_sep_from(s: Seq<char>, i: int) -> Option<int>
    decreases i + 1,
{
    if i >= 0 {
        if sep_at(s, i) {
            Some(i)
        } else {
            rfind_sep_from(s, i - 1)
        }
    } else {
        None
    }
}

/// Position of the last occurrence of the path separator in `s`.
pub open spec fn rfind_sep(s: Seq<char>) -> Option<int> {
    rfind_sep_from(s, s.len() - 2)
}

/// Position of the first occurrence of `c` at or after `i`.
pub open spec fn find_char_from(s: Seq<char>, c: char, i: int) -> Option<int>
    decreases s.len() - i,
{
    if 0 <= i && i < s.len() {
        if s[i] == c {
            Some(i)
        } else {
            find_char_from(s, c, i + 1)
        }
    } else {
        None
    }
}

/// Position of the first occurrence of `c` in `s`.
pub open spec fn find_char(s: Seq<char>, c: char) -> Option<int> {
    find_char_from(s, c, 0)
}

/// Number of occurrences of `c` in `s`.
pub open spec fn count_char(s: Seq<char>, c: char) -> nat
    decreases s.len(),
{
    if s.len() == 0 {
        0
    } else {
        count_char(s.drop_last(), c) + if s.last() == c {
            1nat
        } else {
            0nat
        }
    }
}

/// True when `p` is a prefix of `s`.
pub open spec fn is_prefix(p: Seq<char>, s: Seq<char>) -> bool {
    p.len() <= s.len() && s.take(p.len() as int) == p
}

/// `s` with every `::` replaced by a single `_`.
pub open spec fn replace_sep(s: Seq<char>) -> Seq<char>
    decreases s.len(),
{
    if s.len() == 0 {
        Seq::empty()
    } else if sep_at(s, 0) {
        seq!['_'] + replace_sep(s.skip(2))
    } else {
        seq![s[0]] + replace_sep(s.skip(1))
    }
}

/// A found separator position lies at a real separator, at or after `i`.
pub proof fn lemma_find_sep_from_some(s: Seq<char>, i: int)
    requires
        0 <= i,
    ensures
        match find_sep_from(s, i) {
            Some(j) => i <= j && sep_at(s, j),
            None => true,
        },
    decreases s.len() - i,
{
    if i + 2 <= s.len() && !sep_at(s, i) {
        lemma_find_sep_from_some(s, i + 1);
    }
}

/// A found separator position lies at a real separator, at or before `i`.
pub proof fn lemma_rfind_sep_from_some(s: Seq<char>, i: int)
    ensures
        match rfind_sep_from(s, i) {
            Some(j) => j <= i && sep_at(s, j),
            None => true,
        },
    decreases i + 1,
{
    if i >= 0 && !sep_at(s, i) {
        lemma_rfind_sep_from_some(s, i - 1);
    }
}

/// A found character position lies inside `s` and holds `c`.
pub proof fn lemma_find_char_from_some(s: Seq<char>, c: char, i: int)
    requires
        0 <= i,
    ensures
        match find_char_from(s, c, i) {
            Some(j) => i <= j < s.len() && s[j] == c,
            None => true,
        },
    decreases s.len() - i,
{
    if i < s.len() && s[i] != c {
        lemma_find_char_from_some(s, c, i + 1);
    }
}

/// Finds the character position of the first `::` in `s`, if any.
pub fn find_path_sep(s: &str) -> (r: Option<usize>)
    ensures
        match r {
            Some(j) => find_sep(s@) == Some(j as int),
            None => find_sep(s@) is None,
        },
{
    let n = s.unicode_len();
    if n < 2 {
        return None;
    }
    let mut i: usize = 0;
    while i <= n - 2
        invariant
            n == s@.len(),
            2 <= n,
            i <= n - 1,
            find_sep(s@) == find_sep_from(s@, i as int),
        decreases n - i,
    {
        if s.get_char(i) == ':' && s.get_char(i + 1) == ':' {
            return Some(i);
        }
        i = i + 1;
    }
    None
}

/// Finds the character position of the last `::` in `s`, if any.
pub fn rfind_path_sep(s: &str) -> (r: Option<usize>)
    ensures
        match r {
            Some(j) => rfind_sep(s@) == Some(j as int),
            None => rfind_sep(s@) is None,
        },
{
    let n = s.unicode_len();
    if n < 2 {
        return None;
    }
    let mut i: usize = n - 2;
    loop
        invariant
            n == s@.len(),
            2 <= n,
            i <= n - 2,
            rfind_sep(s@) == rfind_sep_from(s@, i as int),
        decreases i,
    {
        if s.get_char(i) == ':' && s.get_char(i + 1) == ':' {
            return Some(i);
        }
        if i == 0 {
            proof {
                assert(!sep_at(s@, 0));
                assert(rfind_sep_from(s@, -1) is None);
            }
            return None;
        }
        i = i - 1;
    }
}

/// Finds the character position of the first `c` in `s`, if any.
pub fn find_char_at(s: &str, c: char) -> (r: Option<usize>)
    ensures
        match r {
            Some(j) => find_char(s@, c) == Some(j as int),
            None => find_char(s@, c) is None,
        },
{
    let n = s.unicode_len();
    let mut i: usize = 0;
    while i < n
        invariant
            n == s@.len(),
            i <= n,
            find_char(s@, c) == find_char_from(s@, c, i as int),
        decreases n - i,
    {
        if s.get_char(i) == c {
            return Some(i);
        }
        i = i + 1;
    }
    None
}

/// Counts the occurrences of `c` in `s`.
pub fn count_char_occurrences(s: &str, c: char) -> (r: usize)
    ensures
        r == count_char(s@, c),
{
    let n = s.unicode_len();
    let mut i: usize = 0;
    let mut cnt: usize = 0;
    while i < n
        invariant
            n == s@.len(),
            i <= n,
            cnt == count_char(s@.take(i as int), c),
            cnt <= i,
        decreases n - i,
    {
        proof {
            assert(s@.take(i + 1).drop_last() =~= s@.take(i as int));
            assert(s@.take(i + 1).last() == s@[i as int]);
        }
        if s.get_char(i) == c {
            cnt = cnt + 1;
        }
        i = i + 1;
    }
    proof {
        assert(s@.take(n as int) =~= s@);
    }
    cnt
}

/// True when `s` starts with `p`.
pub fn starts_with_str(s: &str, p: &str) -> (r: bool)
    ensures
        r == is_prefix(p@, s@),
{
    let n = s.unicode_len();
    let m = p.unicode_len();
    if m > n {
        return false;
    }
    let mut i: usize = 0;
    while i < m
        invariant
            n == s@.len(),
            m == p@.len(),
            m <= n,
            i <= m,
            forall|j: int| 0 <= j < i ==> s@[j] == p@[j],
        decreases m - i,
    {
        if s.get_char(i) != p.get_char(i) {
            proof {
                assert(s@.take(m as int)[i as int] != p@[i as int]);
            }
            return false;
        }
        i = i + 1;
    }
    proof {
        assert(s@.take(m as int) =~= p@);
    }
    true
}

/// True when the views of `a` and `b` are the same character sequence.
pub fn str_eq(a: &str, b: &str) -> (r: bool)
    ensures
        r == (a@ == b@),
{
    let n = a.unicode_len();
    let m = b.unicode_len();
    if n != m {
        return false;
    }
    let mut i: usize = 0;
    while i < n
        invariant
            n == a@.len(),
            n == b@.len(),
            i <= n,
            forall|j: int| 0 <= j < i ==> a@[j] == b@[j],
        decreases n - i,
    {
        if a.get_char(i) != b.get_char(i) {
            return false;
        }
        i = i + 1;
    }
    proof {
        assert(a@ =~= b@);
    }
    true
}

/// Copies a vector of strings, preserving the character sequences.
pub fn clone_strings(v: &Vec<String>) -> (r: Vec<String>)
    ensures
        r@.map_values(|s: String| s@) == v@.map_values(|s: String| s@),
        r@.len() == v@.len(),
{
    let mut r: Vec<String> = Vec::new();
    let mut i: usize = 0;
    while i < v.len()
        invariant
            i <= v@.len(),
            r@.len() == i,
            forall|j: int| 0 <= j < i ==> (#[trigger] r@[j])@ == v@[j]@,
        decreases v@.len() - i,
    {
        r.push(v[i].clone());
        i = i + 1;
    }
    proof {
        assert(r@.map_values(|s: String| s@) =~= v@.map_values(|s: String| s@));
    }
    r
}

/// Relies on `alloc::string::String::push`: appends one character in place.
pub assume_specification[ String::push ](s: &mut String, c: char)
    ensures
        final(s)@ == old(s)@.push(c),
;

/// `s` with every path separator replaced by an underscore, as used for the
/// file name of a generic contract artifact.
pub fn replace_path_sep(s: &str) -> (r: String)
    ensures
        r@ == replace_sep(s@),
{
    let n = s.unicode_len();
    let mut out = String::new();
    let mut i: usize = 0;
    proof {
        assert(s@.skip(0) =~= s@);
        assert(Seq::<char>::empty() + replace_sep(s@) =~= replace_sep(s@));
    }
    while i < n
        invariant
            n == s@.len(),
            i <= n,
            replace_sep(s@) == out@ + replace_sep(s@.skip(i as int)),
        decreases n - i,
    {
        if i < n - 1 && s.get_char(i) == ':' && s.get_char(i + 1) == ':' {
            proof {
                assert(sep_at(s@.skip(i as int), 0));
                assert(s@.skip(i as int).skip(2) =~= s@.skip(i + 2));
                assert(out@ + (seq!['_'] + replace_sep(s@.skip(i + 2))) =~= out@.push('_')
                    + replace_sep(s@.skip(i + 2)));
            }
            out.push('_');
            i = i + 2;
        } else {
            proof {
                assert(!sep_at(s@.skip(i as int), 0));
                assert(s@.skip(i as int)[0] == s@[i as int]);
                assert(s@.skip(i as int).skip(1) =~= s@.skip(i + 1));
                assert(out@ + (seq![s@[i as int]] + replace_sep(s@.skip(i + 1))) =~= out@.push(
                    s@[i as int],
                ) + replace_sep(s@.skip(i + 1)));
            }
            let c = s.get_char(i);
            out.push(c);
            i = i + 1;
        }
    }
    proof {
        assert(s@.skip(n as int) =~= Seq::<char>::empty());
        assert(out@ + Seq::<char>::empty() =~= out@);
    }
    out
}

} // verus!

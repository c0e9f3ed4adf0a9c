//! Syntax-level helpers of the attribute macros.
//!
//! Attribute arguments arrive as a plain string of the shape
//! `(key: value, key: value, ...)`; they are split and trimmed here. The
//! world-parameter inspection classifies a function's parameter list by how
//! it takes the world dispatcher.

use vstd::prelude::*;

use std::collections::HashMap;

use crate::strutil::{find_char, find_char_at, lemma_find_char_from_some, str_eq};

verus! {

/// Whitespace as trimmed around keys and values.
pub open spec fn is_space(c: char) -> bool {
    c == ' ' || c == '\t' || c == '\n' || c == '\r'
}

/// `s` without its leading copies of `c`.
pub open spec fn trim_start_matching(s: Seq<char>, c: char) -> Seq<char>
    decreases s.len(),
{
    if s.len() > 0 && s[0] == c {
        trim_start_matching(s.skip(1), c)
    } else {
        s
    }
}

/// `s` without its trailing copies of `c`.
pub open spec fn trim_end_matching(s: Seq<char>, c: char) -> Seq<char>
    decreases s.len(),
{
    if s.len() > 0 && s.last() == c {
        trim_end_matching(s.drop_last(), c)
    } else {
        s
    }
}

/// `s` without leading and trailing copies of `c`.
pub open spec fn trim_matching(s: Seq<char>, c: char) -> Seq<char> {
    trim_end_matching(trim_start_matching(s, c), c)
}

/// `s` without leading whitespace.
pub open spec fn trim_start_spaces(s: Seq<char>) -> Seq<char>
    decreases s.len(),
{
    if s.len() > 0 && is_space(s[0]) {
        trim_start_spaces(s.skip(1))
    } else {
        s
    }
}

/// `s` without trailing whitespace.
pub open spec fn trim_end_spaces(s: Seq<char>) -> Seq<char>
    decreases s.len(),
{
    if s.len() > 0 && is_space(s.last()) {
        trim_end_spaces(s.drop_last())
    } else {
        s
    }
}

/// `s` without surrounding whitespace.
pub open spec fn trim_spaces(s: Seq<char>) -> Seq<char> {
    trim_end_spaces(trim_start_spaces(s))
}

/// `s` split on `c`: the pieces between occurrences, in order. A string
/// without the separator is one piece; a trailing separator yields a final
/// empty piece.
pub open spec fn split_char(s: Seq<char>, c: char) -> Seq<Seq<char>>
    decreases s.len(),
    via split_char_dec
{
    match find_char(s, c) {
        Some(i) => seq![s.take(i)] + split_char(s.skip(i + 1), c),
        None => seq![s],
    }
}

#[via_fn]
proof fn split_char_dec(s: Seq<char>, c: char) {
    lemma_find_char_from_some(s, c, 0);
}

/// The key/value pair a `key: value` piece denotes: exactly one `:`, the
/// key and the value trimmed, and quotes stripped from the value.
pub open spec fn kv_pair_of(part: Seq<char>) -> Option<(Seq<char>, Seq<char>)> {
    let kv = split_char(part, ':');
    if kv.len() == 2 {
        Some((trim_spaces(kv[0]), trim_matching(trim_spaces(kv[1]), '"')))
    } else {
        None
    }
}

/// The key/value pairs of the pieces from index `i` on; pieces that are not
/// a `key: value` shape are skipped.
pub open spec fn kv_pairs_from(parts: Seq<Seq<char>>, i: int) -> Seq<(Seq<char>, Seq<char>)>
    decreases parts.len() - i,
{
    if i < 0 || i >= parts.len() {
        Seq::empty()
    } else {
        match kv_pair_of(parts[i]) {
            Some(p) => seq![p] + kv_pairs_from(parts, i + 1),
            None => kv_pairs_from(parts, i + 1),
        }
    }
}

/// The key/value pairs of a whole argument string: parentheses stripped at
/// the ends, pieces split on `,`, each piece parsed as `key: value`.
pub open spec fn kv_pairs_of(args: Seq<char>) -> Seq<(Seq<char>, Seq<char>)> {
    kv_pairs_from(split_char(trim_end_matching(trim_start_matching(args, '('), ')'), ','), 0)
}

/// Exec test for [`is_space`].
fn is_space_char(c: char) -> (r: bool)
    ensures
        r == is_space(c),
{
    c == ' ' || c == '\t' || c == '\n' || c == '\r'
}

/// Strips the leading copies of `c`.
fn trim_start_char_exec<'a>(s: &'a str, c: char) -> (r: &'a str)
    ensures
        r@ == trim_start_matching(s@, c),
{
    let n = s.unicode_len();
    let mut i: usize = 0;
    proof {
        assert(s@.skip(0) =~= s@);
    }
    while i < n && s.get_char(i) == c
        invariant
            n == s@.len(),
            i <= n,
            trim_start_matching(s@, c) == trim_start_matching(s@.skip(i as int), c),
        decreases n - i,
    {
        proof {
            assert(s@.skip(i as int)[0] == s@[i as int]);
            assert(s@.skip(i as int).skip(1) =~= s@.skip(i + 1));
        }
        i = i + 1;
    }
    proof {
        if i < n {
            assert(s@.skip(i as int)[0] == s@[i as int]);
        }
    }
    s.substring_char(i, n)
}

/// Strips the trailing copies of `c`.
fn trim_end_char_exec<'a>(s: &'a str, c: char) -> (r: &'a str)
    ensures
        r@ == trim_end_matching(s@, c),
{
    let n = s.unicode_len();
    let mut j: usize = n;
    proof {
        assert(s@.take(n as int) =~= s@);
    }
    while j > 0 && s.get_char(j - 1) == c
        invariant
            n == s@.len(),
            j <= n,
            trim_end_matching(s@, c) == trim_end_matching(s@.take(j as int), c),
        decreases j,
    {
        proof {
            assert(s@.take(j as int).last() == s@[j - 1]);
            assert(s@.take(j as int).drop_last() =~= s@.take(j - 1));
        }
        j = j - 1;
    }
    proof {
        if j > 0 {
            assert(s@.take(j as int).last() == s@[j - 1]);
        }
    }
    s.substring_char(0, j)
}

/// Strips leading whitespace.
fn trim_start_spaces_exec<'a>(s: &'a str) -> (r: &'a str)
    ensures
        r@ == trim_start_spaces(s@),
{
    let n = s.unicode_len();
    let mut i: usize = 0;
    proof {
        assert(s@.skip(0) =~= s@);
    }
    while i < n && is_space_char(s.get_char(i))
        invariant
            n == s@.len(),
            i <= n,
            trim_start_spaces(s@) == trim_start_spaces(s@.skip(i as int)),
        decreases n - i,
    {
        proof {
            assert(s@.skip(i as int)[0] == s@[i as int]);
            assert(s@.skip(i as int).skip(1) =~= s@.skip(i + 1));
        }
        i = i + 1;
    }
    proof {
        if i < n {
            assert(s@.skip(i as int)[0] == s@[i as int]);
        }
    }
    s.substring_char(i, n)
}

/// Strips trailing whitespace.
fn trim_end_spaces_exec<'a>(s: &'a str) -> (r: &'a str)
    ensures
        r@ == trim_end_spaces(s@),
{
    let n = s.unicode_len();
    let mut j: usize = n;
    proof {
        assert(s@.take(n as int) =~= s@);
    }
    while j > 0 && is_space_char(s.get_char(j - 1))
        invariant
            n == s@.len(),
            j <= n,
            trim_end_spaces(s@) == trim_end_spaces(s@.take(j as int)),
        decreases j,
    {
        proof {
            assert(s@.take(j as int).last() == s@[j - 1]);
            assert(s@.take(j as int).drop_last() =~= s@.take(j - 1));
        }
        j = j - 1;
    }
    proof {
        if j > 0 {
            assert(s@.take(j as int).last() == s@[j - 1]);
        }
    }
    s.substring_char(0, j)
}

/// Strips surrounding whitespace.
fn trim_spaces_exec<'a>(s: &'a str) -> (r: &'a str)
    ensures
        r@ == trim_spaces(s@),
{
    trim_end_spaces_exec(trim_start_spaces_exec(s))
}

/// Splits `s` on `c`.
fn split_char_exec(s: &str, c: char) -> (r: Vec<String>)
    ensures
        r@.map_values(|x: String| x@) == split_char(s@, c),
        r@.len() >= 1,
    decreases s@.len(),
{
    let n = s.unicode_len();
    match find_char_at(s, c) {
        None => {
            let mut v: Vec<String> = Vec::new();
            v.push(String::from_str(s));
            proof {
                assert(v@.map_values(|x: String| x@) =~= seq![s@]);
            }
            v
        },
        Some(i) => {
            proof {
                lemma_find_char_from_some(s@, c, 0);
            }
            let head = String::from_str(s.substring_char(0, i));
            let rest = s.substring_char(i + 1, n);
            proof {
                assert(rest@ =~= s@.skip(i + 1));
            }
            let tail = split_char_exec(rest, c);
            let mut out: Vec<String> = Vec::new();
            out.push(head);
            let mut j: usize = 0;
            while j < tail.len()
                invariant
                    out@.len() == 1 + j,
                    j <= tail@.len(),
                    out@[0]@ == s@.take(i as int),
                    forall|t: int| 1 <= t < out@.len() ==> (#[trigger] out@[t])@ == tail@[t - 1]@,
                decreases tail@.len() - j,
            {
                out.push(tail[j].clone());
                j = j + 1;
            }
            proof {
                assert(out@.map_values(|x: String| x@) =~= seq![s@.take(i as int)] + split_char(
                    s@.skip(i + 1),
                    c,
                ));
            }
            out
        },
    }
}

/// Extracts the `key: value` arguments of an attribute invocation, in
/// order, with keys and values trimmed and quotes stripped from values.
/// Pieces that are not of the `key: value` shape are skipped.
pub fn parse_arguments_pairs(args: &str) -> (r: Vec<(String, String)>)
    ensures
        r@.map_values(|p: (String, String)| (p.0@, p.1@)) == kv_pairs_of(args@),
{
    let inner = trim_end_char_exec(trim_start_char_exec(args, '('), ')');
    let parts = split_char_exec(inner, ',');
    let ghost pv = parts@.map_values(|x: String| x@);
    let mut out: Vec<(String, String)> = Vec::new();
    let mut i: usize = 0;
    proof {
        assert(Seq::<(Seq<char>, Seq<char>)>::empty() + kv_pairs_from(pv, 0) =~= kv_pairs_from(
            pv,
            0,
        ));
    }
    while i < parts.len()
        invariant
            pv == parts@.map_values(|x: String| x@),
            i <= parts@.len(),
            kv_pairs_of(args@) == kv_pairs_from(pv, 0),
            kv_pairs_from(pv, 0) == out@.map_values(|p: (String, String)| (p.0@, p.1@))
                + kv_pairs_from(pv, i as int),
        decreases parts@.len() - i,
    {
        let ghost ov = out@.map_values(|p: (String, String)| (p.0@, p.1@));
        let kv = split_char_exec(parts[i].as_str(), ':');
        proof {
            assert(pv[i as int] == parts@[i as int]@);
        }
        if kv.len() == 2 {
            let key = String::from_str(trim_spaces_exec(kv[0].as_str()));
            let val = String::from_str(
                trim_end_char_exec(trim_start_char_exec(trim_spaces_exec(kv[1].as_str()), '"'), '"'),
            );
            let ghost pair = (key@, val@);
            proof {
                assert(kv@.map_values(|x: String| x@)[0] == kv@[0]@);
                assert(kv@.map_values(|x: String| x@)[1] == kv@[1]@);
                assert(kv_pair_of(pv[i as int]) == Some(pair));
            }
            out.push((key, val));
            proof {
                assert(out@.map_values(|p: (String, String)| (p.0@, p.1@)) =~= ov + seq![pair]);
                assert(ov + (seq![pair] + kv_pairs_from(pv, i + 1)) =~= (ov + seq![pair])
                    + kv_pairs_from(pv, i + 1));
            }
        } else {
            proof {
                assert(kv_pair_of(pv[i as int]) is None);
            }
        }
        i = i + 1;
    }
    proof {
        assert(kv_pairs_from(pv, parts@.len() as int) =~= Seq::<(Seq<char>, Seq<char>)>::empty());
        assert(out@.map_values(|p: (String, String)| (p.0@, p.1@)) + Seq::<
            (Seq<char>, Seq<char>),
        >::empty() =~= out@.map_values(|p: (String, String)| (p.0@, p.1@)));
    }
    out
}

/// Extracts all `key: value` arguments into a map; a key that occurs twice
/// keeps its last value. `#[dojo_contract(namespace: "sn")]` hands this
/// function `(namespace: "sn")`.
pub fn parse_arguments_kv(args: &str) -> HashMap<String, String> {
    let mut pairs = parse_arguments_pairs(args);
    let mut m: HashMap<String, String> = HashMap::new();
    loop
        decreases pairs@.len(),
    {
        if pairs.len() == 0 {
            return m;
        }
        let (k, v) = pairs.remove(0);
        m.insert(k, v);
    }
}

/// Checks if the given parameter is the `world` parameter: it must be named
/// `world` and typed as the world dispatcher or a snapshot of it.
pub fn is_world_param(param_name: &str, param_type: &str) -> (r: bool)
    ensures
        r == (param_name@ == "world"@ && (param_type@ == "IWorldDispatcher"@ || param_type@
            == "@IWorldDispatcher"@)),
{
    str_eq(param_name, "world") && (str_eq(param_type, "IWorldDispatcher") || str_eq(
        param_type,
        "@IWorldDispatcher",
    ))
}

} // verus!

//! Contract selectors.
//!
//! A selector is a path pattern used to pick which compiled units take part
//! in the registry. It supports at most one wildcard marker `*`, which, when
//! present, is expected as the final segment of the path: such a selector
//! matches every path that starts with its prefix. A selector without a
//! wildcard matches one path exactly, except that its final segment is
//! rewritten in snake case first, because the compiler always snake-cases
//! the generated contract name of a model or an event while a human-written
//! selector commonly uses the declared name's original case.

use vstd::prelude::*;

use crate::naming::snake_of;
use crate::strutil::{
    count_char, find_char, find_sep, is_prefix, path_sep, rfind_sep, count_char_occurrences,
    find_char_at, find_path_sep, rfind_path_sep, starts_with_str, str_eq,
};

verus! {

/// First `::`-delimited segment of a path; the whole path when it has no
/// separator.
pub open spec fn package_of(s: Seq<char>) -> Seq<char> {
    match find_sep(s) {
        Some(i) => s.take(i),
        None => s,
    }
}

/// True when the selector ends with the wildcard marker.
pub open spec fn is_wildcard_of(s: Seq<char>) -> bool {
    s.len() > 0 && s.last() == '*'
}

/// Everything before the first wildcard marker; the whole selector when it
/// has none.
pub open spec fn partial_path_of(s: Seq<char>) -> Seq<char> {
    match find_char(s, '*') {
        Some(i) => s.take(i),
        None => s,
    }
}

/// The selector with its final segment rewritten in snake case. Only the
/// final segment is rewritten: mechanically lower-casing an intermediate
/// segment can corrupt unrelated names. A selector without a separator is a
/// single segment and is rewritten whole.
pub open spec fn snake_path_of(s: Seq<char>) -> Seq<char> {
    match rfind_sep(s) {
        Some(i) => s.take(i) + path_sep() + snake_of(s.skip(i + 2)),
        None => snake_of(s),
    }
}

/// Whether the selector `sel` matches the qualified path `path`.
pub open spec fn selector_matches(sel: Seq<char>, path: Seq<char>) -> bool {
    if is_wildcard_of(sel) {
        is_prefix(partial_path_of(sel), path)
    } else {
        path == snake_path_of(sel)
    }
}

/// A selector is valid when it holds at most one wildcard marker.
pub open spec fn selector_valid(s: Seq<char>) -> bool {
    count_char(s, '*') <= 1
}

/// Error raised by selector validation: the selector holds more than one
/// wildcard marker.
#[derive(Debug)]
pub struct SelectorValidationError {
    /// The offending selector path.
    pub path: String,
}

impl SelectorValidationError {
    /// A user-facing description of the error.
    pub fn message(&self) -> (r: String)
        ensures
            r@ == "Contract path `"@ + self.path@
                + "` has multiple wildcard selectors, only one '*' selector is allowed."@,
    {
        let mut m = String::from_str("Contract path `");
        m.append(self.path.as_str());
        m.append("` has multiple wildcard selectors, only one '*' selector is allowed.");
        proof {
            assert(m@ =~= "Contract path `"@ + self.path@
                + "` has multiple wildcard selectors, only one '*' selector is allowed."@);
        }
        m
    }
}

/// A path pattern selecting compiled units, with at most one wildcard.
#[derive(Debug)]
pub struct ContractSelector(String);

impl View for ContractSelector {
    type V = Seq<char>;

    closed spec fn view(&self) -> Seq<char> {
        self.0@
    }
}

impl ContractSelector {
    /// Wraps a path pattern into a selector.
    pub fn new(path: String) -> (r: Self)
        ensures
            r@ == path@,
    {
        Self(path)
    }

    /// The package a selector belongs to: its first `::`-delimited segment.
    /// A selector without a separator is a bare package name.
    pub fn package(&self) -> (r: String)
        ensures
            r@ == package_of(self@),
    {
        match find_path_sep(self.0.as_str()) {
            Some(i) => {
                proof {
                    crate::strutil::lemma_find_sep_from_some(self.0@, 0);
                }
                String::from_str(self.0.as_str().substring_char(0, i))
            },
            None => self.0.clone(),
        }
    }

    /// Returns the path with the final segment in snake case, matching how
    /// the compiler names the generated contract of a model or an event.
    pub fn path_with_model_snake_case(&self) -> (r: String)
        ensures
            r@ == snake_path_of(self@),
    {
        proof {
            reveal_strlit("::");
            assert("::"@ =~= path_sep());
        }
        let n = self.0.as_str().unicode_len();
        match rfind_path_sep(self.0.as_str()) {
            Some(i) => {
                proof {
                    crate::strutil::lemma_rfind_sep_from_some(self.0@, self.0@.len() - 2);
                }
                let mut out = String::from_str(self.0.as_str().substring_char(0, i));
                out.append("::");
                let snaked = crate::naming::to_snake_case(self.0.as_str().substring_char(i + 2, n));
                out.append(snaked.as_str());
                proof {
                    assert(out@ =~= snake_path_of(self@));
                }
                out
            },
            None => crate::naming::to_snake_case(self.0.as_str()),
        }
    }

    /// Checks if the selector ends with the wildcard marker.
    pub fn is_wildcard(&self) -> (r: bool)
        ensures
            r == is_wildcard_of(self@),
    {
        let n = self.0.as_str().unicode_len();
        if n == 0 {
            return false;
        }
        self.0.as_str().get_char(n - 1) == '*'
    }

    /// Returns the partial path before the wildcard marker.
    pub fn partial_path(&self) -> (r: String)
        ensures
            r@ == partial_path_of(self@),
    {
        match find_char_at(self.0.as_str(), '*') {
            Some(i) => {
                proof {
                    crate::strutil::lemma_find_char_from_some(self.0@, '*', 0);
                }
                String::from_str(self.0.as_str().substring_char(0, i))
            },
            None => self.0.clone(),
        }
    }

    /// Returns the full path pattern.
    pub fn full_path(&self) -> (r: String)
        ensures
            r@ == self@,
    {
        self.0.clone()
    }

    /// Checks if the contract path matches the selector, with wildcard
    /// support.
    pub fn matches(&self, contract_path: &str) -> (r: bool)
        ensures
            r == selector_matches(self@, contract_path@),
    {
        if self.is_wildcard() {
            let partial = self.partial_path();
            starts_with_str(contract_path, partial.as_str())
        } else {
            let snaked = self.path_with_model_snake_case();
            str_eq(contract_path, snaked.as_str())
        }
    }

    /// Validates the selector: it succeeds exactly when the path holds at
    /// most one wildcard marker, and reports the offending path otherwise.
    pub fn is_valid(&self) -> (r: Result<(), SelectorValidationError>)
        ensures
            r is Ok <==> selector_valid(self@),
            r is Err ==> r->Err_0.path@ == self@,
    {
        if count_char_occurrences(self.0.as_str(), '*') > 1 {
            Err(SelectorValidationError { path: self.0.clone() })
        } else {
            Ok(())
        }
    }
}

} // verus!

//! The compiler front of the registry.
//!
//! [`Props`] is the build-target configuration that may declare additional
//! external contracts through selectors; it is validated before any
//! compilation work begins. [`select_external_contracts`] is the decision
//! core of the external-contract scan: given the candidate qualified paths
//! of a package and the configured selectors, it picks the candidates that
//! any selector matches and produces one warning per selector that matched
//! nothing.

use vstd::prelude::*;

use crate::contract_selector::{
    package_of, selector_matches, selector_valid, ContractSelector, SelectorValidationError,
};

verus! {

/// Output the debug information of the compiled classes. Mainly used for
/// debugger integrations; it has no effect on the registry itself.
#[derive(Debug)]
pub struct DojoCompiler {
    output_debug_info: bool,
}

impl DojoCompiler {
    /// Whether the compiler was asked to emit debug information.
    pub closed spec fn spec_output_debug_info(&self) -> bool {
        self.output_debug_info
    }

    /// Creates a compiler front, optionally emitting debug information.
    pub fn new(output_debug_info: bool) -> (r: Self)
        ensures
            r.spec_output_debug_info() == output_debug_info,
    {
        Self { output_debug_info }
    }

    /// Returns whether debug information is emitted.
    pub fn output_debug_info(&self) -> (r: bool)
        ensures
            r == self.spec_output_debug_info(),
    {
        self.output_debug_info
    }
}

/// Build-target properties: the optional list of external contract
/// selectors declared in the build configuration.
#[derive(Debug)]
pub struct Props {
    pub build_external_contracts: Option<Vec<ContractSelector>>,
}

/// Position of the first invalid selector at or after `i`, if any.
pub open spec fn first_invalid_selector(sels: Seq<ContractSelector>, i: int) -> Option<int>
    decreases sels.len() - i,
{
    if i < 0 || i >= sels.len() {
        None
    } else if !selector_valid(sels[i]@) {
        Some(i)
    } else {
        first_invalid_selector(sels, i + 1)
    }
}

impl Props {
    /// Every declared selector is valid.
    pub open spec fn all_selectors_valid(&self) -> bool {
        self.build_external_contracts is Some ==> forall|i: int|
            0 <= i < self.build_external_contracts->0@.len() ==> selector_valid(
                (#[trigger] self.build_external_contracts->0@[i])@,
            )
    }

    /// Verifies the properties: succeeds exactly when every declared
    /// selector holds at most one wildcard, and otherwise reports the first
    /// invalid selector of the list, eagerly, before any compilation work.
    pub fn verify(&self) -> (r: Result<(), SelectorValidationError>)
        ensures
            r is Ok <==> self.all_selectors_valid(),
            r is Err ==> !selector_valid(r->Err_0.path@),
            self.build_external_contracts is Some ==> match first_invalid_selector(
                self.build_external_contracts->0@,
                0,
            ) {
                Some(i) => r is Err && r->Err_0.path@ == (self.build_external_contracts->0@[i])@,
                None => r is Ok,
            },
    {
        match &self.build_external_contracts {
            None => Ok(()),
            Some(sels) => {
                proof {
                    assert(self.build_external_contracts->0 == *sels);
                }
                let mut i: usize = 0;
                while i < sels.len()
                    invariant
                        self.build_external_contracts == Some(*sels),
                        i <= sels@.len(),
                        forall|j: int| 0 <= j < i ==> selector_valid((#[trigger] sels@[j])@),
                        first_invalid_selector(sels@, 0) == first_invalid_selector(
                            sels@,
                            i as int,
                        ),
                    decreases sels@.len() - i,
                {
                    match sels[i].is_valid() {
                        Ok(()) => {},
                        Err(e) => {
                            proof {
                                assert(!selector_valid(
                                    (self.build_external_contracts->0@[i as int])@,
                                ));
                                assert(first_invalid_selector(sels@, i as int) == Some(i as int));
                            }
                            return Err(e);
                        },
                    }
                    i = i + 1;
                }
                proof {
                    assert(forall|j: int|
                        0 <= j < self.build_external_contracts->0@.len() ==> selector_valid(
                            (#[trigger] self.build_external_contracts->0@[j])@,
                        ));
                }
                Ok(())
            },
        }
    }
}

/// True when some selector in the list matches `path`.
pub open spec fn any_selector_matches(sels: Seq<ContractSelector>, path: Seq<char>) -> bool {
    exists|k: int| 0 <= k < sels.len() && selector_matches((#[trigger] sels[k])@, path)
}

/// The candidate paths from index `i` on that some selector matches.
pub open spec fn matched_candidates(
    cands: Seq<String>,
    sels: Seq<ContractSelector>,
    i: int,
) -> Seq<Seq<char>>
    decreases cands.len() - i,
{
    if i < 0 || i >= cands.len() {
        Seq::empty()
    } else if any_selector_matches(sels, cands[i]@) {
        seq![cands[i]@] + matched_candidates(cands, sels, i + 1)
    } else {
        matched_candidates(cands, sels, i + 1)
    }
}

/// The warning issued for a selector that matched nothing.
pub open spec fn unmatched_warning(path: Seq<char>) -> Seq<char> {
    "No contract found for path `"@ + path + "`."@
}

/// True when some candidate is matched by `sel`.
pub open spec fn matches_any_candidate(sel: ContractSelector, cands: Seq<String>) -> bool {
    exists|c: int| 0 <= c < cands.len() && selector_matches(sel@, (#[trigger] cands[c])@)
}

/// The warnings for the selectors from index `i` on that match no
/// candidate.
pub open spec fn selector_warnings(
    sels: Seq<ContractSelector>,
    cands: Seq<String>,
    i: int,
) -> Seq<Seq<char>>
    decreases sels.len() - i,
{
    if i < 0 || i >= sels.len() {
        Seq::empty()
    } else if matches_any_candidate(sels[i], cands) {
        selector_warnings(sels, cands, i + 1)
    } else {
        seq![unmatched_warning(sels[i]@)] + selector_warnings(sels, cands, i + 1)
    }
}

/// Checks whether some selector matches `path`.
fn matches_any_selector(sels: &Vec<ContractSelector>, path: &str) -> (r: bool)
    ensures
        r == any_selector_matches(sels@, path@),
{
    let mut k: usize = 0;
    while k < sels.len()
        invariant
            k <= sels@.len(),
            forall|j: int| 0 <= j < k ==> !selector_matches((#[trigger] sels@[j])@, path@),
        decreases sels@.len() - k,
    {
        if sels[k].matches(path) {
            proof {
                assert(selector_matches(sels@[k as int]@, path@));
            }
            return true;
        }
        k = k + 1;
    }
    false
}

/// Checks whether `sel` matches some candidate.
fn matches_some_candidate(sel: &ContractSelector, cands: &Vec<String>) -> (r: bool)
    ensures
        r == matches_any_candidate(*sel, cands@),
{
    let mut c: usize = 0;
    while c < cands.len()
        invariant
            c <= cands@.len(),
            forall|j: int| 0 <= j < c ==> !selector_matches(sel@, (#[trigger] cands@[j])@),
        decreases cands@.len() - c,
    {
        if sel.matches(cands[c].as_str()) {
            proof {
                assert(selector_matches(sel@, cands@[c as int]@));
            }
            return true;
        }
        c = c + 1;
    }
    false
}

/// Picks, among the candidate qualified paths of the scanned package, the
/// external contracts that the configured selectors select, and produces
/// one warning per selector that matched no candidate at all (most often a
/// mistyped path).
pub fn select_external_contracts(candidates: &Vec<String>, selectors: &Vec<ContractSelector>) -> (r:
    (Vec<String>, Vec<String>))
    ensures
        r.0@.map_values(|s: String| s@) == matched_candidates(candidates@, selectors@, 0),
        r.1@.map_values(|s: String| s@) == selector_warnings(selectors@, candidates@, 0),
{
    let mut matched: Vec<String> = Vec::new();
    let mut i: usize = 0;
    proof {
        assert(Seq::<Seq<char>>::empty() + matched_candidates(candidates@, selectors@, 0)
            =~= matched_candidates(candidates@, selectors@, 0));
    }
    while i < candidates.len()
        invariant
            i <= candidates@.len(),
            matched_candidates(candidates@, selectors@, 0) == matched@.map_values(|s: String| s@)
                + matched_candidates(candidates@, selectors@, i as int),
        decreases candidates@.len() - i,
    {
        let ghost mv = matched@.map_values(|s: String| s@);
        if matches_any_selector(selectors, candidates[i].as_str()) {
            matched.push(candidates[i].clone());
            proof {
                assert(matched@.map_values(|s: String| s@) =~= mv + seq![
                    candidates@[i as int]@,
                ]);
                assert(mv + (seq![candidates@[i as int]@] + matched_candidates(
                    candidates@,
                    selectors@,
                    i + 1,
                )) =~= (mv + seq![candidates@[i as int]@]) + matched_candidates(
                    candidates@,
                    selectors@,
                    i + 1,
                ));
            }
        }
        i = i + 1;
    }
    let mut warnings: Vec<String> = Vec::new();
    let mut k: usize = 0;
    proof {
        assert(Seq::<Seq<char>>::empty() + selector_warnings(selectors@, candidates@, 0)
            =~= selector_warnings(selectors@, candidates@, 0));
    }
    while k < selectors.len()
        invariant
            k <= selectors@.len(),
            selector_warnings(selectors@, candidates@, 0) == warnings@.map_values(|s: String| s@)
                + selector_warnings(selectors@, candidates@, k as int),
        decreases selectors@.len() - k,
    {
        let ghost wv = warnings@.map_values(|s: String| s@);
        if !matches_some_candidate(&selectors[k], candidates) {
            let full = selectors[k].full_path();
            let mut w = String::from_str("No contract found for path `");
            w.append(full.as_str());
            w.append("`.");
            proof {
                assert(w@ =~= unmatched_warning(selectors@[k as int]@));
            }
            warnings.push(w);
            proof {
                assert(warnings@.map_values(|s: String| s@) =~= wv + seq![
                    unmatched_warning(selectors@[k as int]@),
                ]);
                assert(wv + (seq![unmatched_warning(selectors@[k as int]@)] + selector_warnings(
                    selectors@,
                    candidates@,
                    k + 1,
                )) =~= (wv + seq![unmatched_warning(selectors@[k as int]@)]) + selector_warnings(
                    selectors@,
                    candidates@,
                    k + 1,
                ));
            }
        }
        k = k + 1;
    }
    proof {
        assert(matched_candidates(candidates@, selectors@, candidates@.len() as int)
            =~= Seq::<Seq<char>>::empty());
        assert(matched@.map_values(|s: String| s@) + Seq::<Seq<char>>::empty() =~= matched@
            .map_values(|s: String| s@));
        assert(selector_warnings(selectors@, candidates@, selectors@.len() as int)
            =~= Seq::<Seq<char>>::empty());
        assert(warnings@.map_values(|s: String| s@) + Seq::<Seq<char>>::empty() =~= warnings@
            .map_values(|s: String| s@));
    }
    (matched, warnings)
}

/// The packages of the selectors from index `i` on whose package was not
/// already named by an earlier selector: one entry per distinct package, in
/// first-occurrence order.
pub open spec fn distinct_packages(sels: Seq<ContractSelector>, i: int) -> Seq<Seq<char>>
    decreases sels.len() - i,
{
    if i < 0 || i >= sels.len() {
        Seq::empty()
    } else if exists|j: int|
        0 <= j < i && package_of((#[trigger] sels[j])@) == package_of(sels[i]@) {
        distinct_packages(sels, i + 1)
    } else {
        seq![package_of(sels[i]@)] + distinct_packages(sels, i + 1)
    }
}

/// Checks whether a selector before index `i` names the same package as
/// the selector at `i`.
fn earlier_selector_same_package(selectors: &Vec<ContractSelector>, i: usize) -> (r: bool)
    requires
        i < selectors@.len(),
    ensures
        r == exists|j: int|
            0 <= j < i && package_of((#[trigger] selectors@[j])@) == package_of(
                selectors@[i as int]@,
            ),
{
    let pkg = selectors[i].package();
    let mut j: usize = 0;
    while j < i
        invariant
            i < selectors@.len(),
            j <= i,
            pkg@ == package_of(selectors@[i as int]@),
            forall|t: int|
                0 <= t < j ==> package_of((#[trigger] selectors@[t])@) != package_of(
                    selectors@[i as int]@,
                ),
        decreases i - j,
    {
        let other = selectors[j].package();
        if crate::strutil::str_eq(other.as_str(), pkg.as_str()) {
            proof {
                assert(package_of(selectors@[j as int]@) == package_of(selectors@[i as int]@));
            }
            return true;
        }
        j = j + 1;
    }
    false
}

/// The packages that a selector list names, each once, in first-occurrence
/// order: the packages whose build units have to be scanned to find the
/// selectors' candidate contracts.
pub fn selector_packages(selectors: &Vec<ContractSelector>) -> (r: Vec<String>)
    ensures
        r@.map_values(|s: String| s@) == distinct_packages(selectors@, 0),
{
    let mut out: Vec<String> = Vec::new();
    let mut i: usize = 0;
    proof {
        assert(Seq::<Seq<char>>::empty() + distinct_packages(selectors@, 0) =~= distinct_packages(
            selectors@,
            0,
        ));
    }
    while i < selectors.len()
        invariant
            i <= selectors@.len(),
            distinct_packages(selectors@, 0) == out@.map_values(|s: String| s@)
                + distinct_packages(selectors@, i as int),
        decreases selectors@.len() - i,
    {
        let ghost ov = out@.map_values(|s: String| s@);
        if !earlier_selector_same_package(selectors, i) {
            let pkg = selectors[i].package();
            out.push(pkg);
            proof {
                assert(out@.map_values(|s: String| s@) =~= ov + seq![
                    package_of(selectors@[i as int]@),
                ]);
                assert(ov + (seq![package_of(selectors@[i as int]@)] + distinct_packages(
                    selectors@,
                    i + 1,
                )) =~= (ov + seq![package_of(selectors@[i as int]@)]) + distinct_packages(
                    selectors@,
                    i + 1,
                ));
            }
        }
        i = i + 1;
    }
    proof {
        assert(distinct_packages(selectors@, selectors@.len() as int) =~= Seq::<Seq<char>>::empty());
        assert(out@.map_values(|s: String| s@) + Seq::<Seq<char>>::empty() =~= out@.map_values(
            |s: String| s@,
        ));
    }
    out
}

} // verus!

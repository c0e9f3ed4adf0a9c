//! Build configuration of the registry.
//!
//! A resource's effective namespace is resolved from three places, in
//! order: an explicit per-resource override, a project-level name-to-
//! namespace mapping table, and the project-wide default.

use vstd::prelude::*;

use crate::strutil::str_eq;

verus! {

/// First mapping for `name` in an ordered mapping table.
pub open spec fn mapping_of(mappings: Seq<(String, String)>, name: Seq<char>) -> Option<Seq<char>>
    decreases mappings.len(),
{
    if mappings.len() == 0 {
        None
    } else if mappings[0].0@ == name {
        Some(mappings[0].1@)
    } else {
        mapping_of(mappings.skip(1), name)
    }
}

/// The namespace configuration of a project: a default namespace and a
/// name-to-namespace mapping table.
#[derive(Debug)]
pub struct NamespaceConfig {
    /// The project-wide default namespace.
    pub default: String,
    /// Per-resource-name overrides, earlier entries taking precedence.
    pub mappings: Vec<(String, String)>,
}

impl NamespaceConfig {
    /// The namespace resolved for `name` from the table and the default.
    pub open spec fn spec_get_namespace(&self, name: Seq<char>) -> Seq<char> {
        match mapping_of(self.mappings@, name) {
            Some(ns) => ns,
            None => self.default@,
        }
    }

    /// Resolves the namespace of the resource called `name`: the first
    /// mapped namespace when the table has one, the default otherwise.
    pub fn get_namespace(&self, name: &str) -> (r: String)
        ensures
            r@ == self.spec_get_namespace(name@),
    {
        let ghost ms = self.mappings@;
        let mut i: usize = 0;
        proof {
            assert(ms.skip(0) =~= ms);
        }
        while i < self.mappings.len()
            invariant
                ms == self.mappings@,
                i <= ms.len(),
                mapping_of(ms, name@) == mapping_of(ms.skip(i as int), name@),
            decreases ms.len() - i,
        {
            proof {
                assert(ms.skip(i as int)[0] == ms[i as int]);
                assert(ms.skip(i as int).skip(1) =~= ms.skip(i + 1));
            }
            if str_eq(self.mappings[i].0.as_str(), name) {
                return self.mappings[i].1.clone();
            }
            i = i + 1;
        }
        self.default.clone()
    }

    /// Resolves the effective namespace of a resource: an explicit
    /// per-resource override wins; otherwise the table and the default
    /// decide.
    pub fn resolve_namespace(&self, explicit: &Option<String>, name: &str) -> (r: String)
        ensures
            match explicit {
                Some(ns) => r@ == ns@,
                None => r@ == self.spec_get_namespace(name@),
            },
    {
        match explicit {
            Some(ns) => ns.clone(),
            None => self.get_namespace(name),
        }
    }
}

/// The compiler's own slice of the project configuration: only the
/// namespace table matters to the registry.
#[derive(Debug)]
pub struct CompilerConfig {
    pub namespace: NamespaceConfig,
}

} // verus!

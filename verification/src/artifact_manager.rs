//! Artifact manager.
//!
//! The manager owns the compiled artifacts of one build, keyed by qualified
//! path, together with the annotation set extracted from the build. Adding an
//! artifact under an existing path replaces the earlier one: the last write
//! wins. Persistence (writing the manifest and one class file per resource,
//! and reading them back) is built on top in [`crate::persist`].

use vstd::prelude::*;

use crate::annotation::{empty_annotation_spec, DojoAnnotation, DojoAnnotationView};
use crate::strutil::str_eq;

verus! {

/// Mathematical image of a [`CompiledArtifact`].
pub struct CompiledArtifactView {
    pub class_hash: Seq<char>,
    pub contract_class: Seq<u8>,
    pub debug_info: Option<Seq<u8>>,
}

/// One compiled unit: its content hash, its compiled class as opaque bytes,
/// and optional debug information.
#[derive(Debug)]
pub struct CompiledArtifact {
    /// The content hash of the compiled class.
    pub class_hash: String,
    /// The compiled class payload.
    pub contract_class: Vec<u8>,
    /// Optional debug information for the class.
    pub debug_info: Option<Vec<u8>>,
}

impl View for CompiledArtifact {
    type V = CompiledArtifactView;

    open spec fn view(&self) -> CompiledArtifactView {
        CompiledArtifactView {
            class_hash: self.class_hash@,
            contract_class: self.contract_class@,
            debug_info: match self.debug_info {
                Some(d) => Some(d@),
                None => None,
            },
        }
    }
}

/// The artifact map described by a sequence of keyed entries, later entries
/// overriding earlier ones.
pub open spec fn entries_map(s: Seq<(String, CompiledArtifact)>) -> Map<
    Seq<char>,
    CompiledArtifactView,
>
    decreases s.len(),
{
    if s.len() == 0 {
        Map::empty()
    } else {
        entries_map(s.drop_last()).insert(s.last().0@, s.last().1@)
    }
}

proof fn lemma_entries_map_get(s: Seq<(String, CompiledArtifact)>, k: Seq<char>, i: int)
    requires
        0 <= i < s.len(),
        s[i].0@ == k,
        forall|j: int| i < j < s.len() ==> (#[trigger] s[j].0)@ != k,
    ensures
        entries_map(s).contains_key(k),
        entries_map(s)[k] == s[i].1@,
    decreases s.len(),
{
    if i == s.len() - 1 {
    } else {
        assert(s.drop_last()[i] == s[i]);
        assert(forall|j: int|
            i < j < s.drop_last().len() ==> (#[trigger] s.drop_last()[j].0)@ != k);
        lemma_entries_map_get(s.drop_last(), k, i);
    }
}

proof fn lemma_entries_map_none(s: Seq<(String, CompiledArtifact)>, k: Seq<char>)
    requires
        forall|j: int| 0 <= j < s.len() ==> (#[trigger] s[j].0)@ != k,
    ensures
        !entries_map(s).contains_key(k),
    decreases s.len(),
{
    if s.len() > 0 {
        assert(forall|j: int|
            0 <= j < s.drop_last().len() ==> (#[trigger] s.drop_last()[j].0)@ != k);
        lemma_entries_map_none(s.drop_last(), k);
    }
}

/// Error raised when an annotation references a qualified path that has no
/// compiled artifact. It signals an inconsistency between the code-generation
/// phase and the class-emission phase of the compiler, not a user error.
#[derive(Debug)]
pub struct MissingArtifactError {
    /// The qualified path that has no artifact.
    pub qualified_path: String,
}

impl MissingArtifactError {
    /// A user-facing description of the error.
    pub fn message(&self) -> (r: String)
        ensures
            r@ == "Can't get class hash from artifact for qualified path "@
                + self.qualified_path@,
    {
        let mut m = String::from_str("Can't get class hash from artifact for qualified path ");
        m.append(self.qualified_path.as_str());
        proof {
            assert(m@ =~= "Can't get class hash from artifact for qualified path "@
                + self.qualified_path@);
        }
        m
    }
}

/// In-memory store of the compiled artifacts of one build, keyed by
/// qualified path, plus the annotation set of the build.
#[derive(Debug)]
pub struct ArtifactManager {
    compiled_artifacts: Vec<(String, CompiledArtifact)>,
    dojo_annotation: DojoAnnotation,
}

impl ArtifactManager {
    /// The artifact map: qualified path to compiled artifact.
    pub closed spec fn artifacts(&self) -> Map<Seq<char>, CompiledArtifactView> {
        entries_map(self.compiled_artifacts@)
    }

    /// The annotation set held by the manager.
    pub closed spec fn annotation(&self) -> DojoAnnotationView {
        self.dojo_annotation@
    }

    /// Creates an empty artifact manager.
    pub fn new() -> (r: Self)
        ensures
            r.artifacts() == Map::<Seq<char>, CompiledArtifactView>::empty(),
            r.annotation() == empty_annotation_spec(),
    {
        ArtifactManager {
            compiled_artifacts: Vec::new(),
            dojo_annotation: DojoAnnotation::new(),
        }
    }

    /// Returns the annotation set of the manager.
    pub fn dojo_annotation(&self) -> (r: &DojoAnnotation)
        ensures
            r@ == self.annotation(),
    {
        &self.dojo_annotation
    }

    /// Replaces the annotation set of the manager.
    pub fn set_dojo_annotation(&mut self, annotation: DojoAnnotation)
        ensures
            final(self).annotation() == annotation@,
            final(self).artifacts() == old(self).artifacts(),
    {
        self.dojo_annotation = annotation;
    }

    /// Adds a compiled artifact under its qualified path; the last call for
    /// a given path wins.
    pub fn add_artifact(&mut self, qualified_path: String, artifact: CompiledArtifact)
        ensures
            final(self).artifacts() == old(self).artifacts().insert(qualified_path@, artifact@),
            final(self).annotation() == old(self).annotation(),
    {
        self.compiled_artifacts.push((qualified_path, artifact));
        proof {
            assert(self.compiled_artifacts@.drop_last() =~= old(self).compiled_artifacts@);
        }
    }

    /// Gets the compiled artifact registered under a qualified path.
    pub fn get_artifact(&self, qualified_path: &str) -> (r: Option<&CompiledArtifact>)
        ensures
            match r {
                Some(a) => self.artifacts().contains_key(qualified_path@) && a@
                    == self.artifacts().index(qualified_path@),
                None => !self.artifacts().contains_key(qualified_path@),
            },
    {
        let n = self.compiled_artifacts.len();
        let mut i: usize = n;
        while i > 0
            invariant
                n == self.compiled_artifacts@.len(),
                i <= n,
                forall|j: int|
                    i <= j < n ==> (#[trigger] self.compiled_artifacts@[j].0)@ != qualified_path@,
            decreases i,
        {
            i = i - 1;
            if str_eq(self.compiled_artifacts[i].0.as_str(), qualified_path) {
                proof {
                    lemma_entries_map_get(self.compiled_artifacts@, qualified_path@, i as int);
                }
                return Some(&self.compiled_artifacts[i].1);
            }
        }
        proof {
            lemma_entries_map_none(self.compiled_artifacts@, qualified_path@);
        }
        None
    }

    /// Gets the class hash of the artifact registered under a qualified
    /// path, failing when no artifact is registered there.
    pub fn get_class_hash(&self, qualified_path: &str) -> (r: Result<String, MissingArtifactError>)
        ensures
            self.artifacts().contains_key(qualified_path@) ==> r is Ok && r->Ok_0@
                == self.artifacts()[qualified_path@].class_hash,
            !self.artifacts().contains_key(qualified_path@) ==> r is Err
                && r->Err_0.qualified_path@ == qualified_path@,
    {
        match self.get_artifact(qualified_path) {
            Some(artifact) => Ok(artifact.class_hash.clone()),
            None => Err(
                MissingArtifactError { qualified_path: String::from_str(qualified_path) },
            ),
        }
    }
}

} // verus!

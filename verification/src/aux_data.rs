//! Auxiliary data of generated files.
//!
//! During compilation, each generated file that declares a resource carries a
//! metadata payload: its kind, name, namespace, and member or system list.
//! This module turns such a payload, together with the module path of the
//! file that produced it, into the corresponding annotation, by computing the
//! resource's qualified path and looking up its compiled artifact.

use vstd::prelude::*;

use crate::annotation::{
    clone_members, ContractAnnotation, ContractAnnotationView, EventAnnotation,
    EventAnnotationView, Member, MemberView, ModelAnnotation, ModelAnnotationView,
    StarknetContractAnnotation, StarknetContractAnnotationView,
};
use crate::artifact_manager::{ArtifactManager, MissingArtifactError};
use crate::naming::{get_tag, snake_of, tag_of, to_snake_case};
use crate::strutil::{clone_strings, path_sep};

verus! {

/// Qualified path of the contract generated for a model or an event: the
/// module path plus the snake-cased resource name.
pub open spec fn snaked_contract_path_of(mod_path: Seq<char>, name: Seq<char>) -> Seq<char> {
    mod_path + path_sep() + snake_of(name)
}

/// Qualified path of the contract generated for a user-declared contract:
/// the module path plus the contract name verbatim.
pub open spec fn contract_path_of(mod_path: Seq<char>, name: Seq<char>) -> Seq<char> {
    mod_path + path_sep() + name
}

/// Mathematical image of a [`ModelAuxData`].
pub struct ModelAuxDataView {
    pub name: Seq<char>,
    pub namespace: Seq<char>,
    pub members: Seq<MemberView>,
}

/// Metadata payload of a model declaration.
#[derive(Debug)]
pub struct ModelAuxData {
    pub name: String,
    pub namespace: String,
    pub members: Vec<Member>,
}

impl View for ModelAuxData {
    type V = ModelAuxDataView;

    open spec fn view(&self) -> ModelAuxDataView {
        ModelAuxDataView {
            name: self.name@,
            namespace: self.namespace@,
            members: self.members@.map_values(|m: Member| m@),
        }
    }
}

/// Mathematical image of a [`ContractAuxData`].
pub struct ContractAuxDataView {
    pub name: Seq<char>,
    pub namespace: Seq<char>,
    pub systems: Seq<Seq<char>>,
}

/// Metadata payload of a contract declaration.
#[derive(Debug)]
pub struct ContractAuxData {
    pub name: String,
    pub namespace: String,
    pub systems: Vec<String>,
}

impl View for ContractAuxData {
    type V = ContractAuxDataView;

    open spec fn view(&self) -> ContractAuxDataView {
        ContractAuxDataView {
            name: self.name@,
            namespace: self.namespace@,
            systems: self.systems@.map_values(|s: String| s@),
        }
    }
}

/// Mathematical image of an [`EventAuxData`].
pub struct EventAuxDataView {
    pub name: Seq<char>,
    pub namespace: Seq<char>,
    pub members: Seq<MemberView>,
}

/// Metadata payload of an event declaration.
#[derive(Debug)]
pub struct EventAuxData {
    pub name: String,
    pub namespace: String,
    pub members: Vec<Member>,
}

impl View for EventAuxData {
    type V = EventAuxDataView;

    open spec fn view(&self) -> EventAuxDataView {
        EventAuxDataView {
            name: self.name@,
            namespace: self.namespace@,
            members: self.members@.map_values(|m: Member| m@),
        }
    }
}

/// Metadata payload of a plain Starknet contract, as the host compiler
/// attaches it to every compiled contract module.
#[derive(Debug)]
pub struct StarkNetContractAuxData {
    pub contract_name: String,
}

impl View for StarkNetContractAuxData {
    type V = Seq<char>;

    open spec fn view(&self) -> Seq<char> {
        self.contract_name@
    }
}

/// Appends `::` and `last` to a copy of `mod_path`.
fn join_path(mod_path: &str, last: &str) -> (r: String)
    ensures
        r@ == mod_path@ + path_sep() + last@,
{
    proof {
        reveal_strlit("::");
        assert("::"@ =~= path_sep());
    }
    let mut out = String::from_str(mod_path);
    out.append("::");
    out.append(last);
    proof {
        assert(out@ =~= mod_path@ + path_sep() + last@);
    }
    out
}

impl ModelAuxData {
    /// Qualified path of the model's generated contract: models are declared
    /// as structs (usually in pascal case) and the generated contract name is
    /// snake-cased, so the snake-cased name is appended to the module path.
    pub fn contract_qualified_path(&self, mod_path: &String) -> (r: String)
        ensures
            r@ == snaked_contract_path_of(mod_path@, self@.name),
    {
        let snaked = to_snake_case(self.name.as_str());
        join_path(mod_path.as_str(), snaked.as_str())
    }

    /// Builds the model's annotation: its qualified path, its tag and the
    /// class hash of its compiled artifact. Fails when no artifact is
    /// registered under the model's qualified path.
    pub fn to_annotation(
        &self,
        artifact_manager: &ArtifactManager,
        mod_path: &String,
    ) -> (r: Result<ModelAnnotation, MissingArtifactError>)
        ensures
            ({
                let qp = snaked_contract_path_of(mod_path@, self@.name);
                if artifact_manager.artifacts().contains_key(qp) {
                    r is Ok && r->Ok_0@ == (ModelAnnotationView {
                        qualified_path: qp,
                        tag: tag_of(self@.namespace, self@.name),
                        class_hash: artifact_manager.artifacts().index(qp).class_hash,
                        members: self@.members,
                    })
                } else {
                    r is Err && r->Err_0.qualified_path@ == qp
                }
            }),
    {
        let qp = self.contract_qualified_path(mod_path);
        match artifact_manager.get_class_hash(qp.as_str()) {
            Ok(class_hash) => Ok(
                ModelAnnotation {
                    qualified_path: qp,
                    tag: get_tag(self.namespace.as_str(), self.name.as_str()),
                    class_hash,
                    members: clone_members(&self.members),
                },
            ),
            Err(e) => Err(e),
        }
    }
}

impl EventAuxData {
    /// Qualified path of the event's generated contract: as for models, the
    /// snake-cased event name is appended to the module path.
    pub fn contract_qualified_path(&self, mod_path: &String) -> (r: String)
        ensures
            r@ == snaked_contract_path_of(mod_path@, self@.name),
    {
        let snaked = to_snake_case(self.name.as_str());
        join_path(mod_path.as_str(), snaked.as_str())
    }

    /// Builds the event's annotation; fails when no artifact is registered
    /// under the event's qualified path.
    pub fn to_annotation(
        &self,
        artifact_manager: &ArtifactManager,
        mod_path: &String,
    ) -> (r: Result<EventAnnotation, MissingArtifactError>)
        ensures
            ({
                let qp = snaked_contract_path_of(mod_path@, self@.name);
                if artifact_manager.artifacts().contains_key(qp) {
                    r is Ok && r->Ok_0@ == (EventAnnotationView {
                        qualified_path: qp,
                        tag: tag_of(self@.namespace, self@.name),
                        class_hash: artifact_manager.artifacts().index(qp).class_hash,
                        members: self@.members,
                    })
                } else {
                    r is Err && r->Err_0.qualified_path@ == qp
                }
            }),
    {
        let qp = self.contract_qualified_path(mod_path);
        match artifact_manager.get_class_hash(qp.as_str()) {
            Ok(class_hash) => Ok(
                EventAnnotation {
                    qualified_path: qp,
                    tag: get_tag(self.namespace.as_str(), self.name.as_str()),
                    class_hash,
                    members: clone_members(&self.members),
                },
            ),
            Err(e) => Err(e),
        }
    }
}

impl ContractAuxData {
    /// Qualified path of the declared contract: the module path of the file
    /// plus the contract name verbatim.
    pub fn contract_qualified_path(&self, mod_path: &String) -> (r: String)
        ensures
            r@ == contract_path_of(mod_path@, self@.name),
    {
        join_path(mod_path.as_str(), self.name.as_str())
    }

    /// Builds the contract's annotation; fails when no artifact is
    /// registered under the contract's qualified path.
    pub fn to_annotation(
        &self,
        artifact_manager: &ArtifactManager,
        mod_path: &String,
    ) -> (r: Result<ContractAnnotation, MissingArtifactError>)
        ensures
            ({
                let qp = contract_path_of(mod_path@, self@.name);
                if artifact_manager.artifacts().contains_key(qp) {
                    r is Ok && r->Ok_0@ == (ContractAnnotationView {
                        qualified_path: qp,
                        tag: tag_of(self@.namespace, self@.name),
                        class_hash: artifact_manager.artifacts().index(qp).class_hash,
                        systems: self@.systems,
                    })
                } else {
                    r is Err && r->Err_0.qualified_path@ == qp
                }
            }),
    {
        let qp = self.contract_qualified_path(mod_path);
        match artifact_manager.get_class_hash(qp.as_str()) {
            Ok(class_hash) => Ok(
                ContractAnnotation {
                    qualified_path: qp,
                    tag: get_tag(self.namespace.as_str(), self.name.as_str()),
                    class_hash,
                    systems: clone_strings(&self.systems),
                },
            ),
            Err(e) => Err(e),
        }
    }
}

impl StarkNetContractAuxData {
    /// Qualified path of a plain Starknet contract: the module path itself.
    pub fn contract_qualified_path(&self, mod_path: &String) -> (r: String)
        ensures
            r@ == mod_path@,
    {
        mod_path.clone()
    }

    /// Builds the generic contract's annotation; fails when no artifact is
    /// registered under the module path.
    pub fn to_annotation(
        &self,
        artifact_manager: &ArtifactManager,
        mod_path: &String,
    ) -> (r: Result<StarknetContractAnnotation, MissingArtifactError>)
        ensures
            artifact_manager.artifacts().contains_key(mod_path@) ==> r is Ok && r->Ok_0@
                == (StarknetContractAnnotationView {
                qualified_path: mod_path@,
                name: self@,
                class_hash: artifact_manager.artifacts().index(mod_path@).class_hash,
            }),
            !artifact_manager.artifacts().contains_key(mod_path@) ==> r is Err
                && r->Err_0.qualified_path@ == mod_path@,
    {
        let qp = self.contract_qualified_path(mod_path);
        match artifact_manager.get_class_hash(qp.as_str()) {
            Ok(class_hash) => Ok(
                StarknetContractAnnotation {
                    qualified_path: qp,
                    name: self.contract_name.clone(),
                    class_hash,
                },
            ),
            Err(e) => Err(e),
        }
    }
}

} // verus!

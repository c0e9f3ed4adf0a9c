//! Building the annotation set of a build.
//!
//! The host compiler hands over, per module, the list of metadata payloads
//! attached to its generated files. The first payload of every module is
//! internal bookkeeping of the host compiler and is skipped. Every other
//! payload is joined with its compiled artifact and routed: the two
//! well-known singleton paths populate the world and base annotations, the
//! resource-metadata bootstrap path is discarded, typed resources go to
//! their list, and everything else is a generic contract. A final pass
//! removes from the generic contracts every path that also names a typed
//! resource or a singleton, since typed resources are compiled as plain
//! contracts too and would otherwise be double-counted.

use vstd::prelude::*;

use crate::annotation::{
    empty_annotation_spec, is_dojo_resource_spec, contains_path, DojoAnnotation,
    DojoAnnotationView, StarknetContractAnnotation, StarknetContractAnnotationView,
    WorldAnnotation, WorldAnnotationView,
};
use crate::artifact_manager::{ArtifactManager, CompiledArtifactView, MissingArtifactError};
use crate::aux_data::{
    contract_path_of, snaked_contract_path_of, ContractAuxData, ContractAuxDataView, EventAuxData,
    EventAuxDataView, ModelAuxData, ModelAuxDataView, StarkNetContractAuxData,
};
use crate::naming::tag_of;
use crate::strutil::str_eq;

verus! {

/// Mathematical image of an [`AuxDataEntry`].
pub enum AuxDataEntryView {
    Model(ModelAuxDataView),
    Contract(ContractAuxDataView),
    Event(EventAuxDataView),
    Starknet(Seq<char>),
}

/// One metadata payload attached to a generated file.
#[derive(Debug)]
pub enum AuxDataEntry {
    Model(ModelAuxData),
    Contract(ContractAuxData),
    Event(EventAuxData),
    Starknet(StarkNetContractAuxData),
}

impl View for AuxDataEntry {
    type V = AuxDataEntryView;

    open spec fn view(&self) -> AuxDataEntryView {
        match self {
            AuxDataEntry::Model(m) => AuxDataEntryView::Model(m@),
            AuxDataEntry::Contract(c) => AuxDataEntryView::Contract(c@),
            AuxDataEntry::Event(e) => AuxDataEntryView::Event(e@),
            AuxDataEntry::Starknet(s) => AuxDataEntryView::Starknet(s@),
        }
    }
}

/// View of an optional payload.
pub open spec fn entry_view_opt(o: Option<AuxDataEntry>) -> Option<AuxDataEntryView> {
    match o {
        Some(e) => Some(e@),
        None => None,
    }
}

/// Mathematical image of a [`ModuleAuxData`].
pub struct ModuleAuxDataView {
    pub mod_path: Seq<char>,
    pub entries: Seq<Option<AuxDataEntryView>>,
}

/// The metadata payloads of one module: the module's path and, for each
/// generated file, its payload if it carries one.
#[derive(Debug)]
pub struct ModuleAuxData {
    /// Qualified path of the module.
    pub mod_path: String,
    /// One slot per generated file of the module, in generation order.
    pub entries: Vec<Option<AuxDataEntry>>,
}

impl View for ModuleAuxData {
    type V = ModuleAuxDataView;

    open spec fn view(&self) -> ModuleAuxDataView {
        ModuleAuxDataView {
            mod_path: self.mod_path@,
            entries: self.entries@.map_values(|o: Option<AuxDataEntry>| entry_view_opt(o)),
        }
    }
}

/// Qualified path of the compiled unit a payload belongs to.
pub open spec fn entry_qualified_path(e: AuxDataEntryView, mod_path: Seq<char>) -> Seq<char> {
    match e {
        AuxDataEntryView::Model(m) => snaked_contract_path_of(mod_path, m.name),
        AuxDataEntryView::Event(ev) => snaked_contract_path_of(mod_path, ev.name),
        AuxDataEntryView::Contract(c) => contract_path_of(mod_path, c.name),
        AuxDataEntryView::Starknet(_) => mod_path,
    }
}

/// Joins one payload with its artifact and routes it into the accumulating
/// annotation set. Fails with the qualified path when no artifact exists for
/// it.
pub open spec fn apply_entry(
    acc: DojoAnnotationView,
    e: AuxDataEntryView,
    mod_path: Seq<char>,
    artifacts: Map<Seq<char>, CompiledArtifactView>,
) -> Result<DojoAnnotationView, Seq<char>> {
    let qp = entry_qualified_path(e, mod_path);
    if !artifacts.contains_key(qp) {
        Err(qp)
    } else {
        let hash = artifacts.index(qp).class_hash;
        if qp == crate::resource_metadata_qualified_path_spec() {
            Ok(acc)
        } else if qp == crate::world_qualified_path_spec() {
            Ok(
                DojoAnnotationView {
                    world: (WorldAnnotationView {
                        qualified_path: crate::world_qualified_path_spec(),
                        tag: crate::world_contract_tag_spec(),
                        class_hash: hash,
                    }),
                    ..acc
                },
            )
        } else if qp == crate::base_qualified_path_spec() {
            Ok(
                DojoAnnotationView {
                    base: (StarknetContractAnnotationView {
                        qualified_path: crate::base_qualified_path_spec(),
                        name: crate::base_contract_tag_spec(),
                        class_hash: hash,
                    }),
                    ..acc
                },
            )
        } else {
            match e {
                AuxDataEntryView::Model(m) => Ok(
                    DojoAnnotationView {
                        models: acc.models.push(
                            (crate::annotation::ModelAnnotationView {
                                qualified_path: qp,
                                tag: tag_of(m.namespace, m.name),
                                class_hash: hash,
                                members: m.members,
                            }),
                        ),
                        ..acc
                    },
                ),
                AuxDataEntryView::Event(ev) => Ok(
                    DojoAnnotationView {
                        events: acc.events.push(
                            (crate::annotation::EventAnnotationView {
                                qualified_path: qp,
                                tag: tag_of(ev.namespace, ev.name),
                                class_hash: hash,
                                members: ev.members,
                            }),
                        ),
                        ..acc
                    },
                ),
                AuxDataEntryView::Contract(c) => Ok(
                    DojoAnnotationView {
                        contracts: acc.contracts.push(
                            (crate::annotation::ContractAnnotationView {
                                qualified_path: qp,
                                tag: tag_of(c.namespace, c.name),
                                class_hash: hash,
                                systems: c.systems,
                            }),
                        ),
                        ..acc
                    },
                ),
                AuxDataEntryView::Starknet(name) => Ok(
                    DojoAnnotationView {
                        sn_contracts: acc.sn_contracts.push(
                            (StarknetContractAnnotationView {
                                qualified_path: qp,
                                name: name,
                                class_hash: hash,
                            }),
                        ),
                        ..acc
                    },
                ),
            }
        }
    }
}

/// Folds the payloads of one module from slot `j` on into the accumulator.
/// Slot 0 is never processed: the first payload of a module is host-compiler
/// bookkeeping.
pub open spec fn fold_entries(
    entries: Seq<Option<AuxDataEntryView>>,
    j: int,
    mod_path: Seq<char>,
    artifacts: Map<Seq<char>, CompiledArtifactView>,
    acc: DojoAnnotationView,
) -> Result<DojoAnnotationView, Seq<char>>
    decreases entries.len() - j,
{
    if j < 1 || j >= entries.len() {
        Ok(acc)
    } else {
        match entries[j] {
            None => fold_entries(entries, j + 1, mod_path, artifacts, acc),
            Some(e) => match apply_entry(acc, e, mod_path, artifacts) {
                Ok(acc2) => fold_entries(entries, j + 1, mod_path, artifacts, acc2),
                Err(p) => Err(p),
            },
        }
    }
}

/// Folds all modules from index `i` on into the accumulator.
pub open spec fn fold_modules(
    modules: Seq<ModuleAuxDataView>,
    i: int,
    artifacts: Map<Seq<char>, CompiledArtifactView>,
    acc: DojoAnnotationView,
) -> Result<DojoAnnotationView, Seq<char>>
    decreases modules.len() - i,
{
    if i < 0 || i >= modules.len() {
        Ok(acc)
    } else {
        match fold_entries(modules[i].entries, 1, modules[i].mod_path, artifacts, acc) {
            Ok(acc2) => fold_modules(modules, i + 1, artifacts, acc2),
            Err(p) => Err(p),
        }
    }
}

/// The generic contracts from index `i` on whose qualified path is not a
/// typed resource or singleton of `v`.
pub open spec fn retain_non_dojo(
    sn: Seq<StarknetContractAnnotationView>,
    i: int,
    v: DojoAnnotationView,
) -> Seq<StarknetContractAnnotationView>
    decreases sn.len() - i,
{
    if i < 0 || i >= sn.len() {
        Seq::empty()
    } else if is_dojo_resource_spec(v, sn[i].qualified_path) {
        retain_non_dojo(sn, i + 1, v)
    } else {
        seq![sn[i]] + retain_non_dojo(sn, i + 1, v)
    }
}

/// The finished annotation set of a build: the fold of every payload of
/// every module, followed by the deduplication pass on the generic
/// contracts.
pub open spec fn collect_annotation_spec(
    modules: Seq<ModuleAuxDataView>,
    artifacts: Map<Seq<char>, CompiledArtifactView>,
) -> Result<DojoAnnotationView, Seq<char>> {
    match fold_modules(modules, 0, artifacts, empty_annotation_spec()) {
        Ok(v) => Ok(DojoAnnotationView { sn_contracts: retain_non_dojo(v.sn_contracts, 0, v), ..v }),
        Err(p) => Err(p),
    }
}

/// Invariant kept by the routing pass: the two singletons always carry their
/// well-known paths, and no routed list ever holds the resource-metadata
/// bootstrap path.
pub open spec fn well_routed(v: DojoAnnotationView) -> bool {
    &&& v.world.qualified_path == crate::world_qualified_path_spec()
    &&& v.base.qualified_path == crate::base_qualified_path_spec()
    &&& forall|i: int|
        0 <= i < v.contracts.len() ==> (#[trigger] v.contracts[i]).qualified_path
            != crate::resource_metadata_qualified_path_spec()
    &&& forall|i: int|
        0 <= i < v.models.len() ==> (#[trigger] v.models[i]).qualified_path
            != crate::resource_metadata_qualified_path_spec()
    &&& forall|i: int|
        0 <= i < v.events.len() ==> (#[trigger] v.events[i]).qualified_path
            != crate::resource_metadata_qualified_path_spec()
    &&& forall|i: int|
        0 <= i < v.sn_contracts.len() ==> (#[trigger] v.sn_contracts[i]).qualified_path
            != crate::resource_metadata_qualified_path_spec()
}

proof fn lemma_apply_entry_well_routed(
    acc: DojoAnnotationView,
    e: AuxDataEntryView,
    mod_path: Seq<char>,
    artifacts: Map<Seq<char>, CompiledArtifactView>,
)
    requires
        well_routed(acc),
    ensures
        match apply_entry(acc, e, mod_path, artifacts) {
            Ok(a) => well_routed(a),
            Err(_) => true,
        },
{
    let qp = entry_qualified_path(e, mod_path);
    if artifacts.contains_key(qp) && qp != crate::resource_metadata_qualified_path_spec() && qp
        != crate::world_qualified_path_spec() && qp != crate::base_qualified_path_spec() {
        match apply_entry(acc, e, mod_path, artifacts) {
            Ok(a) => {
                assert(forall|i: int|
                    0 <= i < acc.models.len() ==> a.models[i] == (#[trigger] acc.models[i]));
                assert(forall|i: int|
                    0 <= i < acc.events.len() ==> a.events[i] == (#[trigger] acc.events[i]));
                assert(forall|i: int|
                    0 <= i < acc.contracts.len() ==> a.contracts[i] == (
                    #[trigger] acc.contracts[i]));
                assert(forall|i: int|
                    0 <= i < acc.sn_contracts.len() ==> a.sn_contracts[i] == (
                    #[trigger] acc.sn_contracts[i]));
            },
            Err(_) => {},
        }
    }
}

proof fn lemma_fold_entries_well_routed(
    entries: Seq<Option<AuxDataEntryView>>,
    j: int,
    mod_path: Seq<char>,
    artifacts: Map<Seq<char>, CompiledArtifactView>,
    acc: DojoAnnotationView,
)
    requires
        well_routed(acc),
    ensures
        match fold_entries(entries, j, mod_path, artifacts, acc) {
            Ok(a) => well_routed(a),
            Err(_) => true,
        },
    decreases entries.len() - j,
{
    if 1 <= j < entries.len() {
        match entries[j] {
            None => {
                lemma_fold_entries_well_routed(entries, j + 1, mod_path, artifacts, acc);
            },
            Some(e) => {
                lemma_apply_entry_well_routed(acc, e, mod_path, artifacts);
                match apply_entry(acc, e, mod_path, artifacts) {
                    Ok(a2) => {
                        lemma_fold_entries_well_routed(entries, j + 1, mod_path, artifacts, a2);
                    },
                    Err(_) => {},
                }
            },
        }
    }
}

proof fn lemma_fold_modules_well_routed(
    modules: Seq<ModuleAuxDataView>,
    i: int,
    artifacts: Map<Seq<char>, CompiledArtifactView>,
    acc: DojoAnnotationView,
)
    requires
        well_routed(acc),
    ensures
        match fold_modules(modules, i, artifacts, acc) {
            Ok(a) => well_routed(a),
            Err(_) => true,
        },
    decreases modules.len() - i,
{
    if 0 <= i < modules.len() {
        lemma_fold_entries_well_routed(modules[i].entries, 1, modules[i].mod_path, artifacts, acc);
        match fold_entries(modules[i].entries, 1, modules[i].mod_path, artifacts, acc) {
            Ok(a2) => {
                lemma_fold_modules_well_routed(modules, i + 1, artifacts, a2);
            },
            Err(_) => {},
        }
    }
}

/// Every element kept by the deduplication pass comes from the input list
/// and is not a typed resource or singleton of `v`.
proof fn lemma_retain_non_dojo_elems(
    sn: Seq<StarknetContractAnnotationView>,
    i: int,
    v: DojoAnnotationView,
)
    ensures
        forall|j: int|
            0 <= j < retain_non_dojo(sn, i, v).len() ==> {
                let kept = #[trigger] retain_non_dojo(sn, i, v)[j];
                !is_dojo_resource_spec(v, kept.qualified_path) && (exists|k: int|
                    i <= k < sn.len() && sn[k] == kept)
            },
    decreases sn.len() - i,
{
    if 0 <= i < sn.len() {
        lemma_retain_non_dojo_elems(sn, i + 1, v);
        let r = retain_non_dojo(sn, i, v);
        let rest = retain_non_dojo(sn, i + 1, v);
        if is_dojo_resource_spec(v, sn[i].qualified_path) {
            assert forall|j: int| 0 <= j < r.len() implies {
                let kept = #[trigger] r[j];
                !is_dojo_resource_spec(v, kept.qualified_path) && (exists|k: int|
                    i <= k < sn.len() && sn[k] == kept)
            } by {
                let kept = r[j];
                assert(rest[j] == kept);
                let k = choose|k: int| i + 1 <= k < sn.len() && sn[k] == kept;
                assert(i <= k < sn.len() && sn[k] == kept);
            }
        } else {
            assert forall|j: int| 0 <= j < r.len() implies {
                let kept = #[trigger] r[j];
                !is_dojo_resource_spec(v, kept.qualified_path) && (exists|k: int|
                    i <= k < sn.len() && sn[k] == kept)
            } by {
                let kept = r[j];
                if j == 0 {
                    assert(kept == sn[i]);
                    assert(i <= i < sn.len() && sn[i] == kept);
                } else {
                    assert(rest[j - 1] == kept);
                    let k = choose|k: int| i + 1 <= k < sn.len() && sn[k] == kept;
                    assert(i <= k < sn.len() && sn[k] == kept);
                }
            }
        }
    }
}

/// Deduplication law: after the collector finishes, a qualified path that is
/// classified as a typed resource (or is one of the singletons) never also
/// appears among the generic contracts.
pub proof fn lemma_collect_deduplicates(
    modules: Seq<ModuleAuxDataView>,
    artifacts: Map<Seq<char>, CompiledArtifactView>,
    v: DojoAnnotationView,
)
    requires
        collect_annotation_spec(modules, artifacts) == Ok::<DojoAnnotationView, Seq<char>>(v),
    ensures
        forall|j: int|
            0 <= j < v.sn_contracts.len() ==> !is_dojo_resource_spec(
                v,
                (#[trigger] v.sn_contracts[j]).qualified_path,
            ),
{
    let f = fold_modules(modules, 0, artifacts, empty_annotation_spec());
    match f {
        Ok(v0) => {
            lemma_retain_non_dojo_elems(v0.sn_contracts, 0, v0);
            assert forall|j: int| 0 <= j < v.sn_contracts.len() implies !is_dojo_resource_spec(
                v,
                (#[trigger] v.sn_contracts[j]).qualified_path,
            ) by {
                assert(v.sn_contracts[j] == retain_non_dojo(v0.sn_contracts, 0, v0)[j]);
                assert(!is_dojo_resource_spec(v0, v.sn_contracts[j].qualified_path));
            }
        },
        Err(_) => {},
    }
}

/// Exclusion law: the resource-metadata bootstrap path never appears
/// anywhere in a finished annotation set.
pub proof fn lemma_collect_excludes_resource_metadata(
    modules: Seq<ModuleAuxDataView>,
    artifacts: Map<Seq<char>, CompiledArtifactView>,
    v: DojoAnnotationView,
)
    requires
        collect_annotation_spec(modules, artifacts) == Ok::<DojoAnnotationView, Seq<char>>(v),
    ensures
        !contains_path(v, crate::resource_metadata_qualified_path_spec()),
{
    reveal_strlit("dojo::world::world_contract::world");
    reveal_strlit("dojo::contract::base_contract::base");
    reveal_strlit("dojo::model::metadata::resource_metadata");
    assert(crate::world_qualified_path_spec().len() == 34);
    assert(crate::base_qualified_path_spec().len() == 35);
    assert(crate::resource_metadata_qualified_path_spec().len() == 40);
    lemma_fold_modules_well_routed(modules, 0, artifacts, empty_annotation_spec());
    let f = fold_modules(modules, 0, artifacts, empty_annotation_spec());
    match f {
        Ok(v0) => {
            lemma_retain_non_dojo_elems(v0.sn_contracts, 0, v0);
            assert forall|j: int| 0 <= j < v.sn_contracts.len() implies (
            #[trigger] v.sn_contracts[j]).qualified_path
                != crate::resource_metadata_qualified_path_spec() by {
                assert(v.sn_contracts[j] == retain_non_dojo(v0.sn_contracts, 0, v0)[j]);
            }
        },
        Err(_) => {},
    }
}

impl DojoAnnotation {
    /// Builds the annotation set from the metadata payloads extracted from
    /// the build's modules and the compiled artifacts of the build.
    ///
    /// Fails with a missing-artifact error when a payload references a
    /// qualified path that has no compiled artifact.
    pub fn from_aux_data(
        modules: &Vec<ModuleAuxData>,
        artifact_manager: &ArtifactManager,
    ) -> (r: Result<DojoAnnotation, MissingArtifactError>)
        ensures
            match collect_annotation_spec(
                modules@.map_values(|m: ModuleAuxData| m@),
                artifact_manager.artifacts(),
            ) {
                Ok(v) => r is Ok && r->Ok_0@ == v,
                Err(p) => r is Err && r->Err_0.qualified_path@ == p,
            },
    {
        let ghost mods = modules@.map_values(|m: ModuleAuxData| m@);
        let ghost artifacts = artifact_manager.artifacts();
        let mut acc = DojoAnnotation::new();
        let mut i: usize = 0;
        while i < modules.len()
            invariant
                mods == modules@.map_values(|m: ModuleAuxData| m@),
                artifacts == artifact_manager.artifacts(),
                i <= modules@.len(),
                fold_modules(mods, 0, artifacts, empty_annotation_spec()) == fold_modules(
                    mods,
                    i as int,
                    artifacts,
                    acc@,
                ),
            decreases modules@.len() - i,
        {
            let module = &modules[i];
            let n = module.entries.len();
            let mut j: usize = 1;
            proof {
                assert(mods[i as int] == modules@[i as int]@);
            }
            while j < n
                invariant
                    mods == modules@.map_values(|m: ModuleAuxData| m@),
                    artifacts == artifact_manager.artifacts(),
                    i < modules@.len(),
                    mods[i as int].entries == module.entries@.map_values(
                        |o: Option<AuxDataEntry>| entry_view_opt(o),
                    ),
                    mods[i as int].mod_path == module.mod_path@,
                    n == module.entries@.len(),
                    1 <= j <= n || (n == 0 && j == 1),
                    fold_modules(mods, 0, artifacts, empty_annotation_spec()) == match fold_entries(
                        mods[i as int].entries,
                        j as int,
                        mods[i as int].mod_path,
                        artifacts,
                        acc@,
                    ) {
                        Ok(a) => fold_modules(mods, i + 1, artifacts, a),
                        Err(p) => Err(p),
                    },
                decreases n - j,
            {
                proof {
                    assert(mods[i as int].entries[j as int] == entry_view_opt(
                        module.entries@[j as int],
                    ));
                }
                match &module.entries[j] {
                    None => {},
                    Some(entry) => {
                        match entry {
                            AuxDataEntry::Model(m) => {
                                let ann = match m.to_annotation(artifact_manager, &module.mod_path) {
                                    Ok(a) => a,
                                    Err(e) => {
                                        return Err(e);
                                    },
                                };
                                if str_eq(
                                    ann.qualified_path.as_str(),
                                    crate::resource_metadata_qualified_path(),
                                ) {
                                } else if str_eq(
                                    ann.qualified_path.as_str(),
                                    crate::world_qualified_path(),
                                ) {
                                    acc.world = WorldAnnotation {
                                        qualified_path: String::from_str(
                                            crate::world_qualified_path(),
                                        ),
                                        tag: String::from_str(crate::world_contract_tag()),
                                        class_hash: ann.class_hash,
                                    };
                                } else if str_eq(
                                    ann.qualified_path.as_str(),
                                    crate::base_qualified_path(),
                                ) {
                                    acc.base = StarknetContractAnnotation {
                                        qualified_path: String::from_str(
                                            crate::base_qualified_path(),
                                        ),
                                        name: String::from_str(crate::base_contract_tag()),
                                        class_hash: ann.class_hash,
                                    };
                                } else {
                                    let ghost old_models = acc@.models;
                                    acc.models.push(ann);
                                    proof {
                                        assert(acc@.models =~= old_models.push(
                                            acc.models@.last()@,
                                        ));
                                    }
                                }
                            },
                            AuxDataEntry::Event(ev) => {
                                let ann = match ev.to_annotation(
                                    artifact_manager,
                                    &module.mod_path,
                                ) {
                                    Ok(a) => a,
                                    Err(e) => {
                                        return Err(e);
                                    },
                                };
                                if str_eq(
                                    ann.qualified_path.as_str(),
                                    crate::resource_metadata_qualified_path(),
                                ) {
                                } else if str_eq(
                                    ann.qualified_path.as_str(),
                                    crate::world_qualified_path(),
                                ) {
                                    acc.world = WorldAnnotation {
                                        qualified_path: String::from_str(
                                            crate::world_qualified_path(),
                                        ),
                                        tag: String::from_str(crate::world_contract_tag()),
                                        class_hash: ann.class_hash,
                                    };
                                } else if str_eq(
                                    ann.qualified_path.as_str(),
                                    crate::base_qualified_path(),
                                ) {
                                    acc.base = StarknetContractAnnotation {
                                        qualified_path: String::from_str(
                                            crate::base_qualified_path(),
                                        ),
                                        name: String::from_str(crate::base_contract_tag()),
                                        class_hash: ann.class_hash,
                                    };
                                } else {
                                    let ghost old_events = acc@.events;
                                    acc.events.push(ann);
                                    proof {
                                        assert(acc@.events =~= old_events.push(
                                            acc.events@.last()@,
                                        ));
                                    }
                                }
                            },
                            AuxDataEntry::Contract(c) => {
                                let ann = match c.to_annotation(artifact_manager, &module.mod_path) {
                                    Ok(a) => a,
                                    Err(e) => {
                                        return Err(e);
                                    },
                                };
                                if str_eq(
                                    ann.qualified_path.as_str(),
                                    crate::resource_metadata_qualified_path(),
                                ) {
                                } else if str_eq(
                                    ann.qualified_path.as_str(),
                                    crate::world_qualified_path(),
                                ) {
                                    acc.world = WorldAnnotation {
                                        qualified_path: String::from_str(
                                            crate::world_qualified_path(),
                                        ),
                                        tag: String::from_str(crate::world_contract_tag()),
                                        class_hash: ann.class_hash,
                                    };
                                } else if str_eq(
                                    ann.qualified_path.as_str(),
                                    crate::base_qualified_path(),
                                ) {
                                    acc.base = StarknetContractAnnotation {
                                        qualified_path: String::from_str(
                                            crate::base_qualified_path(),
                                        ),
                                        name: String::from_str(crate::base_contract_tag()),
                                        class_hash: ann.class_hash,
                                    };
                                } else {
                                    let ghost old_contracts = acc@.contracts;
                                    acc.contracts.push(ann);
                                    proof {
                                        assert(acc@.contracts =~= old_contracts.push(
                                            acc.contracts@.last()@,
                                        ));
                                    }
                                }
                            },
                            AuxDataEntry::Starknet(s) => {
                                let ann = match s.to_annotation(artifact_manager, &module.mod_path) {
                                    Ok(a) => a,
                                    Err(e) => {
                                        return Err(e);
                                    },
                                };
                                if str_eq(
                                    ann.qualified_path.as_str(),
                                    crate::resource_metadata_qualified_path(),
                                ) {
                                } else if str_eq(
                                    ann.qualified_path.as_str(),
                                    crate::world_qualified_path(),
                                ) {
                                    acc.world = WorldAnnotation {
                                        qualified_path: String::from_str(
                                            crate::world_qualified_path(),
                                        ),
                                        tag: String::from_str(crate::world_contract_tag()),
                                        class_hash: ann.class_hash,
                                    };
                                } else if str_eq(
                                    ann.qualified_path.as_str(),
                                    crate::base_qualified_path(),
                                ) {
                                    acc.base = StarknetContractAnnotation {
                                        qualified_path: String::from_str(
                                            crate::base_qualified_path(),
                                        ),
                                        name: String::from_str(crate::base_contract_tag()),
                                        class_hash: ann.class_hash,
                                    };
                                } else {
                                    let ghost old_sn = acc@.sn_contracts;
                                    acc.sn_contracts.push(ann);
                                    proof {
                                        assert(acc@.sn_contracts =~= old_sn.push(
                                            acc.sn_contracts@.last()@,
                                        ));
                                    }
                                }
                            },
                        }
                    },
                }
                j = j + 1;
            }
            i = i + 1;
        }
        let ghost folded = acc@;
        let mut filtered: Vec<StarknetContractAnnotation> = Vec::new();
        let mut k: usize = 0;
        proof {
            assert(retain_non_dojo(folded.sn_contracts, 0, folded) =~= Seq::empty()
                + retain_non_dojo(folded.sn_contracts, 0, folded));
        }
        while k < acc.sn_contracts.len()
            invariant
                acc@ == folded,
                k <= acc.sn_contracts@.len(),
                retain_non_dojo(folded.sn_contracts, 0, folded) == filtered@.map_values(
                    |a: StarknetContractAnnotation| a@,
                ) + retain_non_dojo(folded.sn_contracts, k as int, folded),
            decreases acc.sn_contracts@.len() - k,
        {
            let keep = !acc.is_dojo_resource(acc.sn_contracts[k].qualified_path.as_str());
            if keep {
                let sn = &acc.sn_contracts[k];
                let ghost old_filtered = filtered@.map_values(|a: StarknetContractAnnotation| a@);
                filtered.push(
                    StarknetContractAnnotation {
                        qualified_path: sn.qualified_path.clone(),
                        name: sn.name.clone(),
                        class_hash: sn.class_hash.clone(),
                    },
                );
                proof {
                    assert(filtered@.map_values(|a: StarknetContractAnnotation| a@) =~= old_filtered
                        + seq![folded.sn_contracts[k as int]]);
                    assert(old_filtered + (seq![folded.sn_contracts[k as int]] + retain_non_dojo(
                        folded.sn_contracts,
                        k + 1,
                        folded,
                    )) =~= (old_filtered + seq![folded.sn_contracts[k as int]]) + retain_non_dojo(
                        folded.sn_contracts,
                        k + 1,
                        folded,
                    ));
                }
            }
            k = k + 1;
        }
        acc.sn_contracts = filtered;
        proof {
            assert(retain_non_dojo(folded.sn_contracts, folded.sn_contracts.len() as int, folded)
                =~= Seq::<StarknetContractAnnotationView>::empty());
            assert(acc@.sn_contracts =~= retain_non_dojo(folded.sn_contracts, 0, folded));
        }
        Ok(acc)
    }
}

} // verus!

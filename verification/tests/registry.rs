use dojo_registry::annotation::{DojoAnnotation, Member};
use dojo_registry::artifact_manager::{ArtifactManager, CompiledArtifact};
use dojo_registry::aux_data::{
    ContractAuxData, EventAuxData, ModelAuxData, StarkNetContractAuxData,
};
use dojo_registry::collector::{AuxDataEntry, ModuleAuxData};
use dojo_registry::naming::compute_class_hash_of_contract_class;

fn artifact(bytes: &[u8]) -> CompiledArtifact {
    let data: Vec<u8> = bytes.to_vec();
    CompiledArtifact {
        class_hash: compute_class_hash_of_contract_class(&data),
        contract_class: data,
        debug_info: None,
    }
}

fn artifact_with_debug(bytes: &[u8], debug: &[u8]) -> CompiledArtifact {
    let data: Vec<u8> = bytes.to_vec();
    CompiledArtifact {
        class_hash: compute_class_hash_of_contract_class(&data),
        contract_class: data,
        debug_info: Some(debug.to_vec()),
    }
}

/// A manager populated like a small build: the two singletons, one model,
/// one event, one contract, one plain contract, and the internal
/// resource-metadata model.
fn sample_manager() -> ArtifactManager {
    let mut manager = ArtifactManager::new();
    manager.add_artifact("dojo::world::world_contract::world".to_string(), artifact(b"world"));
    manager.add_artifact("dojo::contract::base_contract::base".to_string(), artifact(b"base"));
    manager
        .add_artifact("dojo::model::metadata::resource_metadata".to_string(), artifact(b"meta"));
    manager.add_artifact("ns_pkg::models::position".to_string(), artifact_with_debug(b"pos", b"dbg"));
    manager.add_artifact("ns_pkg::events::moved".to_string(), artifact(b"moved"));
    manager.add_artifact("ns_pkg::actions::actions".to_string(), artifact(b"actions"));
    manager.add_artifact("ns_pkg::other::free_contract".to_string(), artifact(b"free"));
    manager
}

fn sample_modules() -> Vec<ModuleAuxData> {
    let position_model = ModelAuxData {
        name: "Position".to_string(),
        namespace: "ns".to_string(),
        members: vec![
            Member { name: "player".to_string(), ty: "ContractAddress".to_string(), key: true },
            Member { name: "vec".to_string(), ty: "Vec2".to_string(), key: false },
        ],
    };
    let moved_event = EventAuxData {
        name: "Moved".to_string(),
        namespace: "ns".to_string(),
        members: vec![
            Member { name: "player".to_string(), ty: "ContractAddress".to_string(), key: true },
            Member { name: "direction".to_string(), ty: "Direction".to_string(), key: false },
        ],
    };
    let actions_contract = ContractAuxData {
        name: "actions".to_string(),
        namespace: "ns".to_string(),
        systems: vec!["spawn".to_string(), "move".to_string()],
    };
    vec![
        ModuleAuxData {
            mod_path: "ns_pkg::models".to_string(),
            entries: vec![None, Some(AuxDataEntry::Model(position_model))],
        },
        ModuleAuxData {
            mod_path: "ns_pkg::events".to_string(),
            entries: vec![None, Some(AuxDataEntry::Event(moved_event))],
        },
        ModuleAuxData {
            mod_path: "ns_pkg::actions".to_string(),
            entries: vec![None, Some(AuxDataEntry::Contract(actions_contract))],
        },
        // The generated contracts of the typed resources are also plain
        // Starknet contracts; the collector must deduplicate them.
        ModuleAuxData {
            mod_path: "ns_pkg::models::position".to_string(),
            entries: vec![
                None,
                Some(AuxDataEntry::Starknet(StarkNetContractAuxData {
                    contract_name: "position".to_string(),
                })),
            ],
        },
        ModuleAuxData {
            mod_path: "ns_pkg::other::free_contract".to_string(),
            entries: vec![
                None,
                Some(AuxDataEntry::Starknet(StarkNetContractAuxData {
                    contract_name: "free_contract".to_string(),
                })),
            ],
        },
        ModuleAuxData {
            mod_path: "dojo::world::world_contract::world".to_string(),
            entries: vec![
                None,
                Some(AuxDataEntry::Starknet(StarkNetContractAuxData {
                    contract_name: "world".to_string(),
                })),
            ],
        },
        ModuleAuxData {
            mod_path: "dojo::contract::base_contract::base".to_string(),
            entries: vec![
                None,
                Some(AuxDataEntry::Starknet(StarkNetContractAuxData {
                    contract_name: "base".to_string(),
                })),
            ],
        },
        ModuleAuxData {
            mod_path: "dojo::model::metadata::resource_metadata".to_string(),
            entries: vec![
                None,
                Some(AuxDataEntry::Starknet(StarkNetContractAuxData {
                    contract_name: "resource_metadata".to_string(),
                })),
            ],
        },
    ]
}

#[test]
fn test_artifact_manager_last_write_wins() {
    let mut manager = ArtifactManager::new();
    manager.add_artifact("a::b".to_string(), artifact(b"one"));
    manager.add_artifact("a::b".to_string(), artifact(b"two"));
    let stored = manager.get_artifact("a::b").unwrap();
    assert_eq!(stored.contract_class, b"two".to_vec());
    assert!(manager.get_artifact("a::missing").is_none());
}

#[test]
fn test_get_class_hash_error() {
    let manager = ArtifactManager::new();
    let err = manager.get_class_hash("ns::absent").unwrap_err();
    assert_eq!(err.qualified_path, "ns::absent");
    assert_eq!(err.message(), "Can't get class hash from artifact for qualified path ns::absent");
}

#[test]
fn test_from_aux_data_builds_annotation_set() {
    let manager = sample_manager();
    let annotation = DojoAnnotation::from_aux_data(&sample_modules(), &manager).unwrap();

    assert_eq!(annotation.world.qualified_path, "dojo::world::world_contract::world");
    assert_eq!(annotation.world.tag, "dojo-world");
    assert_eq!(annotation.world.class_hash, manager.get_class_hash("dojo::world::world_contract::world").unwrap());
    assert_eq!(annotation.base.qualified_path, "dojo::contract::base_contract::base");
    assert_eq!(annotation.base.name, "dojo-base");

    assert_eq!(annotation.models.len(), 1);
    let model = &annotation.models[0];
    assert_eq!(model.qualified_path, "ns_pkg::models::position");
    assert_eq!(model.tag, "ns-Position");
    assert_eq!(model.members.len(), 2);
    assert_eq!(model.members[0].name, "player");
    assert!(model.members[0].key);

    assert_eq!(annotation.events.len(), 1);
    assert_eq!(annotation.events[0].qualified_path, "ns_pkg::events::moved");
    assert_eq!(annotation.events[0].tag, "ns-Moved");

    assert_eq!(annotation.contracts.len(), 1);
    assert_eq!(annotation.contracts[0].qualified_path, "ns_pkg::actions::actions");
    assert_eq!(annotation.contracts[0].systems, vec!["spawn".to_string(), "move".to_string()]);

    // Deduplication: the model's generated contract is not a generic one.
    assert_eq!(annotation.sn_contracts.len(), 1);
    assert_eq!(annotation.sn_contracts[0].qualified_path, "ns_pkg::other::free_contract");
}

#[test]
fn test_from_aux_data_excludes_resource_metadata() {
    let manager = sample_manager();
    let annotation = DojoAnnotation::from_aux_data(&sample_modules(), &manager).unwrap();
    let metadata = "dojo::model::metadata::resource_metadata";

    assert_ne!(annotation.world.qualified_path, metadata);
    assert_ne!(annotation.base.qualified_path, metadata);
    assert!(annotation.models.iter().all(|m| m.qualified_path != metadata));
    assert!(annotation.events.iter().all(|e| e.qualified_path != metadata));
    assert!(annotation.contracts.iter().all(|c| c.qualified_path != metadata));
    assert!(annotation.sn_contracts.iter().all(|s| s.qualified_path != metadata));
}

#[test]
fn test_from_aux_data_skips_first_module_entry() {
    let mut manager = ArtifactManager::new();
    manager.add_artifact("pkg::mod::hidden".to_string(), artifact(b"hidden"));
    // The only payload sits in slot 0, which is internal bookkeeping.
    let modules = vec![ModuleAuxData {
        mod_path: "pkg::mod::hidden".to_string(),
        entries: vec![Some(AuxDataEntry::Starknet(StarkNetContractAuxData {
            contract_name: "hidden".to_string(),
        }))],
    }];
    let annotation = DojoAnnotation::from_aux_data(&modules, &manager).unwrap();
    assert!(annotation.sn_contracts.is_empty());
}

#[test]
fn test_from_aux_data_missing_artifact() {
    let manager = ArtifactManager::new();
    let modules = vec![ModuleAuxData {
        mod_path: "pkg::models".to_string(),
        entries: vec![
            None,
            Some(AuxDataEntry::Model(ModelAuxData {
                name: "Position".to_string(),
                namespace: "ns".to_string(),
                members: vec![],
            })),
        ],
    }];
    let err = DojoAnnotation::from_aux_data(&modules, &manager).unwrap_err();
    assert_eq!(err.qualified_path, "pkg::models::position");
}

#[test]
fn test_is_dojo_resource() {
    let manager = sample_manager();
    let annotation = DojoAnnotation::from_aux_data(&sample_modules(), &manager).unwrap();
    assert!(annotation.is_dojo_resource("ns_pkg::models::position"));
    assert!(annotation.is_dojo_resource("ns_pkg::events::moved"));
    assert!(annotation.is_dojo_resource("ns_pkg::actions::actions"));
    assert!(annotation.is_dojo_resource("dojo::world::world_contract::world"));
    assert!(annotation.is_dojo_resource("dojo::contract::base_contract::base"));
    assert!(!annotation.is_dojo_resource("ns_pkg::other::free_contract"));
}

#[test]
fn test_new_annotation_is_empty() {
    let annotation = DojoAnnotation::new();
    assert_eq!(annotation.world.qualified_path, "dojo::world::world_contract::world");
    assert_eq!(annotation.world.tag, "dojo-world");
    assert_eq!(annotation.base.qualified_path, "dojo::contract::base_contract::base");
    assert_eq!(annotation.base.name, "dojo-base");
    assert!(annotation.contracts.is_empty());
    assert!(annotation.models.is_empty());
    assert!(annotation.events.is_empty());
    assert!(annotation.sn_contracts.is_empty());
}

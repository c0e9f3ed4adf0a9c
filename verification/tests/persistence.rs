use dojo_registry::annotation::{DojoAnnotation, Member};
use dojo_registry::artifact_manager::{ArtifactManager, CompiledArtifact};
use dojo_registry::aux_data::{ContractAuxData, EventAuxData, ModelAuxData, StarkNetContractAuxData};
use dojo_registry::collector::{AuxDataEntry, ModuleAuxData};
use dojo_registry::manifest::{decode_manifest, encode_manifest};
use dojo_registry::naming::compute_class_hash_of_contract_class;
use dojo_registry::persist::{ReadError, ResourceDir};

fn artifact(bytes: &[u8], debug: Option<&[u8]>) -> CompiledArtifact {
    let data: Vec<u8> = bytes.to_vec();
    CompiledArtifact {
        class_hash: compute_class_hash_of_contract_class(&data),
        contract_class: data,
        debug_info: debug.map(|d| d.to_vec()),
    }
}

fn populated_manager() -> ArtifactManager {
    let mut manager = ArtifactManager::new();
    manager.add_artifact(
        "dojo::world::world_contract::world".to_string(),
        artifact(b"world-bytes", None),
    );
    manager.add_artifact(
        "dojo::contract::base_contract::base".to_string(),
        artifact(b"base-bytes", None),
    );
    manager.add_artifact(
        "ns_pkg::models::position".to_string(),
        artifact(b"position-bytes", Some(b"position-debug")),
    );
    manager.add_artifact("ns_pkg::events::moved".to_string(), artifact(b"moved-bytes", None));
    manager.add_artifact("ns_pkg::actions::actions".to_string(), artifact(b"actions-bytes", None));
    manager.add_artifact("ns_pkg::other::free".to_string(), artifact(b"free-bytes", None));

    let modules = vec![
        ModuleAuxData {
            mod_path: "ns_pkg::models".to_string(),
            entries: vec![
                None,
                Some(AuxDataEntry::Model(ModelAuxData {
                    name: "Position".to_string(),
                    namespace: "ns".to_string(),
                    members: vec![Member {
                        name: "player".to_string(),
                        ty: "ContractAddress".to_string(),
                        key: true,
                    }],
                })),
            ],
        },
        ModuleAuxData {
            mod_path: "ns_pkg::events".to_string(),
            entries: vec![
                None,
                Some(AuxDataEntry::Event(EventAuxData {
                    name: "Moved".to_string(),
                    namespace: "ns".to_string(),
                    members: vec![Member {
                        name: "player".to_string(),
                        ty: "ContractAddress".to_string(),
                        key: true,
                    }],
                })),
            ],
        },
        ModuleAuxData {
            mod_path: "ns_pkg::actions".to_string(),
            entries: vec![
                None,
                Some(AuxDataEntry::Contract(ContractAuxData {
                    name: "actions".to_string(),
                    namespace: "ns".to_string(),
                    systems: vec!["spawn".to_string()],
                })),
            ],
        },
        ModuleAuxData {
            mod_path: "ns_pkg::other::free".to_string(),
            entries: vec![
                None,
                Some(AuxDataEntry::Starknet(StarkNetContractAuxData {
                    contract_name: "free".to_string(),
                })),
            ],
        },
        ModuleAuxData {
            mod_path: "dojo::world::world_contract::world".to_string(),
            entries: vec![
                None,
                Some(AuxDataEntry::Starknet(StarkNetContractAuxData {
                    contract_name: "world".to_string(),
                })),
            ],
        },
    ];
    let annotation = DojoAnnotation::from_aux_data(&modules, &manager).unwrap();
    manager.set_dojo_annotation(annotation);
    manager
}

#[test]
fn test_manifest_round_trip() {
    let manager = populated_manager();
    let text = encode_manifest(manager.dojo_annotation());
    let decoded = decode_manifest(text.as_str()).unwrap();
    let original = manager.dojo_annotation();

    assert_eq!(decoded.world.qualified_path, original.world.qualified_path);
    assert_eq!(decoded.world.tag, original.world.tag);
    assert_eq!(decoded.world.class_hash, original.world.class_hash);
    assert_eq!(decoded.base.qualified_path, original.base.qualified_path);
    assert_eq!(decoded.models.len(), original.models.len());
    assert_eq!(decoded.models[0].tag, original.models[0].tag);
    assert_eq!(decoded.models[0].members.len(), 1);
    assert_eq!(decoded.models[0].members[0].name, "player");
    assert_eq!(decoded.models[0].members[0].ty, "ContractAddress");
    assert!(decoded.models[0].members[0].key);
    assert_eq!(decoded.events[0].qualified_path, original.events[0].qualified_path);
    assert_eq!(decoded.contracts[0].systems, original.contracts[0].systems);
    assert_eq!(decoded.sn_contracts.len(), original.sn_contracts.len());
}

#[test]
fn test_manifest_round_trip_special_characters() {
    let mut annotation = DojoAnnotation::new();
    annotation.models.push(dojo_registry::annotation::ModelAnnotation {
        qualified_path: "pkg::m".to_string(),
        tag: "ns-M".to_string(),
        class_hash: "0x1".to_string(),
        members: vec![Member {
            name: "data".to_string(),
            ty: "Array<|weird\\type|>".to_string(),
            key: false,
        }],
    });
    let text = encode_manifest(&annotation);
    let decoded = decode_manifest(text.as_str()).unwrap();
    assert_eq!(decoded.models[0].members[0].ty, "Array<|weird\\type|>");
}

#[test]
fn test_decode_rejects_garbage() {
    assert!(decode_manifest("not a manifest").is_none());
    assert!(decode_manifest("").is_none());
    let manager = populated_manager();
    let mut text = encode_manifest(manager.dojo_annotation());
    text.push('x');
    assert!(decode_manifest(text.as_str()).is_none());
}

#[test]
fn test_write_read_round_trip() {
    let manager = populated_manager();
    let output = manager.write().unwrap();
    let restored = ArtifactManager::read(output.manifest.as_str(), &output.files).unwrap();

    let original = manager.dojo_annotation();
    let reread = restored.dojo_annotation();
    assert_eq!(reread.world.qualified_path, original.world.qualified_path);
    assert_eq!(reread.models[0].qualified_path, original.models[0].qualified_path);
    assert_eq!(reread.models[0].tag, original.models[0].tag);
    assert_eq!(reread.events[0].tag, original.events[0].tag);
    assert_eq!(reread.contracts[0].tag, original.contracts[0].tag);
    assert_eq!(reread.sn_contracts[0].qualified_path, original.sn_contracts[0].qualified_path);

    for qp in [
        "dojo::world::world_contract::world",
        "dojo::contract::base_contract::base",
        "ns_pkg::models::position",
        "ns_pkg::events::moved",
        "ns_pkg::actions::actions",
        "ns_pkg::other::free",
    ] {
        let before = manager.get_artifact(qp).unwrap();
        let after = restored.get_artifact(qp).unwrap();
        assert_eq!(after.contract_class, before.contract_class);
        // The hash is recomputed from the read bytes, not copied.
        assert_eq!(after.class_hash, before.class_hash);
        assert_eq!(after.debug_info, before.debug_info);
    }
}

#[test]
fn test_write_reports_missing_artifact() {
    // An empty manager cannot even persist the world singleton.
    let empty = ArtifactManager::new();
    let err = empty.write().unwrap_err();
    assert_eq!(err.qualified_path, "dojo::world::world_contract::world");

    // A populated manager fails on the first annotated path with no artifact.
    let mut manager = populated_manager();
    let mut annotation = DojoAnnotation::new();
    annotation.models.push(dojo_registry::annotation::ModelAnnotation {
        qualified_path: "pkg::nowhere".to_string(),
        tag: "ns-Nowhere".to_string(),
        class_hash: "0x0".to_string(),
        members: vec![],
    });
    manager.set_dojo_annotation(annotation);
    let err = manager.write().unwrap_err();
    assert_eq!(err.qualified_path, "pkg::nowhere");
}

#[test]
fn test_write_reports_missing_base_artifact() {
    let mut manager = ArtifactManager::new();
    manager.add_artifact(
        "dojo::world::world_contract::world".to_string(),
        artifact(b"world-bytes", None),
    );
    let err = manager.write().unwrap_err();
    assert_eq!(err.qualified_path, "dojo::contract::base_contract::base");
}

#[test]
fn test_read_reports_missing_base_class_file() {
    let manager = populated_manager();
    let output = manager.write().unwrap();
    let mut files = output.files;
    files.retain(|f| f.name != "dojo-base");
    let err = ArtifactManager::read(output.manifest.as_str(), &files).unwrap_err();
    match err {
        ReadError::MissingClassFile { qualified_path } => {
            assert_eq!(qualified_path, "dojo::contract::base_contract::base");
        }
        _ => panic!("expected a missing class file error"),
    }
}

#[test]
fn test_read_reports_malformed_manifest() {
    let files = Vec::new();
    let err = ArtifactManager::read("garbage", &files).unwrap_err();
    assert!(matches!(err, ReadError::MalformedManifest));
    assert_eq!(err.message(), "malformed annotations manifest");
}

#[test]
fn test_read_reports_missing_class_file() {
    let manager = populated_manager();
    let output = manager.write().unwrap();
    let mut files = output.files;
    // Drop the model's class file.
    files.retain(|f| f.name != "ns-Position");
    let err = ArtifactManager::read(output.manifest.as_str(), &files).unwrap_err();
    match err {
        ReadError::MissingClassFile { qualified_path } => {
            assert_eq!(qualified_path, "ns_pkg::models::position");
        }
        _ => panic!("expected a missing class file error"),
    }
}

#[test]
fn test_write_file_layout() {
    let manager = populated_manager();
    let output = manager.write().unwrap();
    assert_eq!(output.files[0].dir, ResourceDir::Root);
    assert_eq!(output.files[0].name, "dojo-world");
    assert_eq!(output.files[1].dir, ResourceDir::Root);
    assert_eq!(output.files[1].name, "dojo-base");
    assert_eq!(output.files[1].data, b"base-bytes".to_vec());
    assert!(output
        .files
        .iter()
        .any(|f| f.dir == ResourceDir::Models && f.name == "ns-Position"));
    assert!(output
        .files
        .iter()
        .any(|f| f.dir == ResourceDir::Events && f.name == "ns-Moved"));
    assert!(output
        .files
        .iter()
        .any(|f| f.dir == ResourceDir::Contracts && f.name == "ns-actions"));
    assert!(output
        .files
        .iter()
        .any(|f| f.dir == ResourceDir::Root && f.name == "ns_pkg_other_free"));
    let position = output.files.iter().find(|f| f.name == "ns-Position").unwrap();
    assert_eq!(position.data, b"position-bytes".to_vec());
    assert_eq!(position.debug, Some(b"position-debug".to_vec()));
}

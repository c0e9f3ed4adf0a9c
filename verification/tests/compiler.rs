use dojo_registry::cli::{CleanArgs, Commands};
use dojo_registry::compiler::{select_external_contracts, selector_packages, DojoCompiler, Props};
use dojo_registry::config::{CompilerConfig, NamespaceConfig};
use dojo_registry::contract_selector::ContractSelector;
use dojo_registry::plugin::BuiltinDojoPlugin;
use dojo_registry::struct_parser::{
    validate_namings_diagnostics, CommonStructParameters, DEFAULT_VERSION,
};
use dojo_registry::world_param::{parse_world_injection, ParamInfo, WorldParamInjectionKind};

#[test]
fn test_props_verify() {
    let valid = Props {
        build_external_contracts: Some(vec![
            ContractSelector::new("pkg::*".to_string()),
            ContractSelector::new("pkg::Token".to_string()),
        ]),
    };
    assert!(valid.verify().is_ok());

    let none = Props { build_external_contracts: None };
    assert!(none.verify().is_ok());

    let invalid = Props {
        build_external_contracts: Some(vec![ContractSelector::new("pkg::*::*".to_string())]),
    };
    let err = invalid.verify().unwrap_err();
    assert_eq!(err.path, "pkg::*::*");

    // Two invalid selectors: the first one of the list is reported.
    let two_invalid = Props {
        build_external_contracts: Some(vec![
            ContractSelector::new("ok::path".to_string()),
            ContractSelector::new("first::*::*".to_string()),
            ContractSelector::new("second::*::*".to_string()),
        ]),
    };
    let err = two_invalid.verify().unwrap_err();
    assert_eq!(err.path, "first::*::*");
}

#[test]
fn test_selector_packages() {
    let selectors = vec![
        ContractSelector::new("armory::contracts::Sword".to_string()),
        ContractSelector::new("armory::models::*".to_string()),
        ContractSelector::new("bazaar::market".to_string()),
        ContractSelector::new("armory".to_string()),
    ];
    assert_eq!(selector_packages(&selectors), vec!["armory".to_string(), "bazaar".to_string()]);
    assert_eq!(selector_packages(&Vec::new()), Vec::<String>::new());
}

#[test]
fn test_select_external_contracts() {
    let candidates = vec![
        "armory::contracts::Flatbow".to_string(),
        "armory::contracts::Sword".to_string(),
        "bazaar::market".to_string(),
    ];
    let selectors = vec![
        ContractSelector::new("armory::contracts::*".to_string()),
        ContractSelector::new("mistyped::path".to_string()),
    ];
    let (matched, warnings) = select_external_contracts(&candidates, &selectors);
    assert_eq!(
        matched,
        vec!["armory::contracts::Flatbow".to_string(), "armory::contracts::Sword".to_string()]
    );
    assert_eq!(warnings, vec!["No contract found for path `mistyped::path`.".to_string()]);
}

#[test]
fn test_dojo_compiler_new() {
    let with_debug = DojoCompiler::new(true);
    assert!(with_debug.output_debug_info());
    let without_debug = DojoCompiler::new(false);
    assert!(!without_debug.output_debug_info());
}

#[test]
fn test_namespace_config() {
    let config = CompilerConfig {
        namespace: NamespaceConfig {
            default: "ns1".to_string(),
            mappings: vec![("Position".to_string(), "special".to_string())],
        },
    };
    assert_eq!(config.namespace.get_namespace("Position"), "special");
    assert_eq!(config.namespace.get_namespace("Moves"), "ns1");
    assert_eq!(
        config.namespace.resolve_namespace(&Some("explicit".to_string()), "Position"),
        "explicit"
    );
    assert_eq!(config.namespace.resolve_namespace(&None, "Position"), "special");
}

#[test]
fn test_common_struct_parameters_default() {
    let params = CommonStructParameters::default();
    assert_eq!(params.version, DEFAULT_VERSION);
    assert_eq!(params.namespace, "");
}

#[test]
fn test_validate_namings_diagnostics() {
    let ok = validate_namings_diagnostics(&vec![
        ("model namespace".to_string(), "ns".to_string()),
        ("model name".to_string(), "Position".to_string()),
    ]);
    assert!(ok.is_empty());

    let bad = validate_namings_diagnostics(&vec![(
        "model name".to_string(),
        "bad-name".to_string(),
    )]);
    assert_eq!(
        bad,
        vec![
            "The model name 'bad-name' can only contain characters (a-z/A-Z), digits (0-9) and underscore (_)."
                .to_string()
        ]
    );
}

fn param(name: &str, modifiers: &str, ty: &str) -> ParamInfo {
    ParamInfo { name: name.to_string(), modifiers: modifiers.to_string(), ty: ty.to_string() }
}

#[test]
fn test_parse_world_injection_external() {
    let params = vec![param("world", "ref", "IWorldDispatcher"), param("x", "", "u32")];
    let (kind, diagnostics) = parse_world_injection(&params);
    assert_eq!(kind, WorldParamInjectionKind::External);
    assert!(diagnostics.is_empty());
}

#[test]
fn test_parse_world_injection_view() {
    let params = vec![param("world", "", "@IWorldDispatcher")];
    let (kind, diagnostics) = parse_world_injection(&params);
    assert_eq!(kind, WorldParamInjectionKind::ReadOnly);
    assert!(diagnostics.is_empty());

    let no_world: Vec<ParamInfo> = vec![param("x", "", "u32")];
    let (kind, diagnostics) = parse_world_injection(&no_world);
    assert_eq!(kind, WorldParamInjectionKind::NoWorld);
    assert!(diagnostics.is_empty());
}

#[test]
fn test_parse_world_injection_diagnostics() {
    let not_first = vec![param("x", "", "u32"), param("world", "ref", "IWorldDispatcher")];
    let (_, diagnostics) = parse_world_injection(&not_first);
    assert_eq!(diagnostics, vec!["World parameter must be the first parameter.".to_string()]);

    let not_snapshot = vec![param("world", "", "IWorldDispatcher")];
    let (kind, diagnostics) = parse_world_injection(&not_snapshot);
    assert_eq!(kind, WorldParamInjectionKind::ReadOnly);
    assert_eq!(
        diagnostics,
        vec!["World parameter must be a snapshot if `ref` is not used.".to_string()]
    );

    let duplicated = vec![
        param("world", "ref", "IWorldDispatcher"),
        param("world", "", "@IWorldDispatcher"),
    ];
    let (_, diagnostics) = parse_world_injection(&duplicated);
    assert_eq!(diagnostics, vec!["Only one world parameter is allowed".to_string()]);

    let self_and_world = vec![
        param("world", "ref", "IWorldDispatcher"),
        param("self", "", "ContractState"),
    ];
    let (_, diagnostics) = parse_world_injection(&self_and_world);
    assert_eq!(
        diagnostics,
        vec!["You cannot use `self` and `world` parameters together.".to_string()]
    );
}

#[test]
fn test_plugin_declarations() {
    let plugin = BuiltinDojoPlugin;
    assert_eq!(
        plugin.declared_attributes(),
        vec![
            "dojo::interface".to_string(),
            "dojo::contract".to_string(),
            "dojo::event".to_string(),
            "dojo::model".to_string(),
            "key".to_string(),
        ]
    );
    assert_eq!(
        plugin.declared_derives(),
        vec!["Introspect".to_string(), "IntrospectPacked".to_string()]
    );
}

#[test]
fn test_commands_name() {
    assert_eq!(Commands::Build.name(), "Build");
    assert_eq!(
        Commands::Clean(CleanArgs { remove_dojo_manifests: false, all_profiles: true }).name(),
        "Clean"
    );
    assert_eq!(Commands::Dev.name(), "Dev");
    assert_eq!(Commands::Test.name(), "Test");
}

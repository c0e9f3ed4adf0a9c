use dojo_registry::contract_selector::ContractSelector;

#[test]
fn test_package() {
    let selector = ContractSelector::new("my_package::my_contract".to_string());
    assert_eq!(selector.package(), "my_package".to_string());

    let selector_no_separator = ContractSelector::new("my_package".to_string());
    assert_eq!(selector_no_separator.package(), "my_package".to_string());
}

#[test]
fn test_path_with_model_snake_case() {
    let selector = ContractSelector::new("my_package::MyContract".to_string());
    assert_eq!(selector.path_with_model_snake_case(), "my_package::my_contract");

    let selector_multiple_segments =
        ContractSelector::new("my_package::sub_package::MyContract".to_string());
    assert_eq!(
        selector_multiple_segments.path_with_model_snake_case(),
        "my_package::sub_package::my_contract"
    );

    // In snake case, erc20 should be erc_20. This test ensures that the path is converted to snake
    // case only for the model's name.
    let selector_erc20 = ContractSelector::new("my_package::erc20::Token".to_string());
    assert_eq!(selector_erc20.path_with_model_snake_case(), "my_package::erc20::token");
}

#[test]
fn test_path_without_separator_is_snaked_whole() {
    let selector = ContractSelector::new("Token".to_string());
    assert_eq!(selector.path_with_model_snake_case(), "token");
    assert!(selector.matches("token"));
    assert!(!selector.matches("::token"));
}

#[test]
fn test_full_path() {
    let selector = ContractSelector::new("my_package::sub_package::MyContract".to_string());
    assert_eq!(selector.full_path(), "my_package::sub_package::MyContract");
}

#[test]
fn test_is_valid() {
    let valid_selector = ContractSelector::new("my_package::sub_package::MyContract".to_string());
    assert!(valid_selector.is_valid().is_ok());

    let invalid_selector = ContractSelector::new("my_package::*::*::MyContract".to_string());
    assert!(invalid_selector.is_valid().is_err());
}

#[test]
fn test_matches() {
    let selector = ContractSelector::new("my_package::*".to_string());
    assert!(selector.matches("my_package::sub_package::MyContract"));
    assert!(selector.matches("my_package::other_package::MyContract"));
    assert!(!selector.matches("other_package::sub_package::MyContract"));
    assert!(!selector.matches("package::sub_package::OtherContract"));
}

#[test]
fn test_is_wildcard_and_partial_path() {
    let selector = ContractSelector::new("my_package::sub::*".to_string());
    assert!(selector.is_wildcard());
    assert_eq!(selector.partial_path(), "my_package::sub::");

    let plain = ContractSelector::new("my_package::sub::Token".to_string());
    assert!(!plain.is_wildcard());
    assert_eq!(plain.partial_path(), "my_package::sub::Token");
}

#[test]
fn test_is_valid_single_wildcard_ok() {
    let one_wildcard = ContractSelector::new("my_package::*".to_string());
    assert!(one_wildcard.is_valid().is_ok());

    let no_wildcard = ContractSelector::new("my_package".to_string());
    assert!(no_wildcard.is_valid().is_ok());
}

#[test]
fn test_is_valid_error_reports_path() {
    let invalid = ContractSelector::new("a::*::*".to_string());
    let err = invalid.is_valid().unwrap_err();
    assert_eq!(err.path, "a::*::*");
    assert_eq!(
        err.message(),
        "Contract path `a::*::*` has multiple wildcard selectors, only one '*' selector is allowed."
    );
}

use dojo_registry::naming::{
    compute_bytearray_hash, compute_class_hash_of_contract_class, compute_selector_from_names,
    get_filename_from_tag, get_tag, is_name_valid, to_snake_case,
};

#[test]
fn test_get_tag() {
    assert_eq!(get_tag("ns", "Position"), "ns-Position");
    assert_eq!(get_tag("dojo", "world"), "dojo-world");
}

#[test]
fn test_get_filename_from_tag() {
    assert_eq!(get_filename_from_tag("ns-Position"), "ns-Position");
    assert_eq!(get_filename_from_tag("dojo-world"), "dojo-world");
}

#[test]
fn test_is_name_valid() {
    assert!(is_name_valid("my_namespace"));
    assert!(is_name_valid("Position2"));
    assert!(!is_name_valid(""));
    assert!(!is_name_valid("bad-name"));
    assert!(!is_name_valid("with space"));
    assert!(!is_name_valid("dot.ted"));
}

#[test]
fn test_distinct_pairs_give_distinct_tags_and_selectors() {
    let tag_a = get_tag("ns1", "Position");
    let tag_b = get_tag("ns2", "Position");
    let tag_c = get_tag("ns1", "Moves");
    assert_ne!(tag_a, tag_b);
    assert_ne!(tag_a, tag_c);
    assert_ne!(tag_b, tag_c);

    let sel_a = compute_selector_from_names("ns1", "Position");
    let sel_b = compute_selector_from_names("ns2", "Position");
    let sel_c = compute_selector_from_names("ns1", "Moves");
    assert_ne!(sel_a, sel_b);
    assert_ne!(sel_a, sel_c);
    assert_ne!(sel_b, sel_c);
}

#[test]
fn test_selector_is_deterministic() {
    let first = compute_selector_from_names("ns", "Position");
    let second = compute_selector_from_names("ns", "Position");
    assert_eq!(first, second);
    assert!(first.starts_with("0x"));
    assert_eq!(first.len(), 66);
}

#[test]
fn test_bytearray_hash_changes_its_input() {
    let h = compute_bytearray_hash("ns");
    assert_ne!(h, "ns");
    assert!(h.starts_with("0x"));
    assert_eq!(h, compute_bytearray_hash("ns"));
    assert_ne!(h, compute_bytearray_hash("ns2"));
}

#[test]
fn test_selector_differs_from_component_hashes() {
    let ns_hash = compute_bytearray_hash("ns");
    let name_hash = compute_bytearray_hash("Position");
    let selector = compute_selector_from_names("ns", "Position");
    assert_ne!(selector, ns_hash);
    assert_ne!(selector, name_hash);
}

#[test]
fn test_selector_order_matters() {
    let ab = compute_selector_from_names("alpha", "beta");
    let ba = compute_selector_from_names("beta", "alpha");
    assert_ne!(ab, ba);
}

#[test]
fn test_to_snake_case() {
    assert_eq!(to_snake_case("MyContract"), "my_contract");
    assert_eq!(to_snake_case("Token"), "token");
    assert_eq!(to_snake_case("already_snake"), "already_snake");
}

#[test]
fn test_class_hash_of_bytes() {
    let bytes_a = vec![1u8, 2, 3];
    let bytes_b = vec![1u8, 2, 4];
    let hash_a = compute_class_hash_of_contract_class(&bytes_a);
    let hash_b = compute_class_hash_of_contract_class(&bytes_b);
    assert_eq!(hash_a, compute_class_hash_of_contract_class(&bytes_a));
    assert_ne!(hash_a, hash_b);
    assert!(hash_a.starts_with("0x"));
}

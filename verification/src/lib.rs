//! Resource-registration core of a Dojo contract compiler.
//!
//! Source declarations tagged as models, events or contracts are turned into
//! a consistent registry of compiled units, each identified by a qualified
//! path, a human-readable tag, a hash-derived selector and a content hash.
//! The registry is persisted as a manifest plus one class file per resource
//! and can be reloaded by later tool invocations without recompiling.

use vstd::prelude::*;

pub mod annotation;
pub mod artifact_manager;
pub mod aux_data;
pub mod cli;
pub mod collector;
pub mod compiler;
pub mod config;
pub mod contract_selector;
pub mod manifest;
pub mod naming;
pub mod persist;
pub mod plugin;
pub mod strutil;
pub mod struct_parser;
pub mod syntax;
pub mod world_param;

verus! {

/// Qualified path of the world contract, one of the two well-known singleton
/// resources of every registry.
pub open spec fn world_qualified_path_spec() -> Seq<char> {
    "dojo::world::world_contract::world"@
}

/// Exec counterpart of [`world_qualified_path_spec`].
pub fn world_qualified_path() -> (r: &'static str)
    ensures
        r@ == world_qualified_path_spec(),
{
    "dojo::world::world_contract::world"
}

/// Display tag of the world contract.
pub open spec fn world_contract_tag_spec() -> Seq<char> {
    "dojo-world"@
}

/// Exec counterpart of [`world_contract_tag_spec`].
pub fn world_contract_tag() -> (r: &'static str)
    ensures
        r@ == world_contract_tag_spec(),
{
    "dojo-world"
}

/// Qualified path of the base contract, the second well-known singleton
/// resource.
pub open spec fn base_qualified_path_spec() -> Seq<char> {
    "dojo::contract::base_contract::base"@
}

/// Exec counterpart of [`base_qualified_path_spec`].
pub fn base_qualified_path() -> (r: &'static str)
    ensures
        r@ == base_qualified_path_spec(),
{
    "dojo::contract::base_contract::base"
}

/// Display tag of the base contract.
pub open spec fn base_contract_tag_spec() -> Seq<char> {
    "dojo-base"@
}

/// Exec counterpart of [`base_contract_tag_spec`].
pub fn base_contract_tag() -> (r: &'static str)
    ensures
        r@ == base_contract_tag_spec(),
{
    "dojo-base"
}

/// Qualified path of the resource-metadata bootstrap resource. It is internal
/// to the compiler and never persisted into a registry.
pub open spec fn resource_metadata_qualified_path_spec() -> Seq<char> {
    "dojo::model::metadata::resource_metadata"@
}

/// Exec counterpart of [`resource_metadata_qualified_path_spec`].
pub fn resource_metadata_qualified_path() -> (r: &'static str)
    ensures
        r@ == resource_metadata_qualified_path_spec(),
{
    "dojo::model::metadata::resource_metadata"
}

} // verus!

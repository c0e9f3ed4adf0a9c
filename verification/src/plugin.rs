//! The language plugin of the registry.
//!
//! The plugin itself runs inside the host compiler; what the registry needs
//! from it here is the set of attributes and derives it declares, so that
//! build tooling can recognize resource declarations.

use vstd::prelude::*;

verus! {

/// The built-in plugin that rewrites resource declarations during
/// compilation.
#[derive(Debug)]
pub struct BuiltinDojoPlugin;

impl BuiltinDojoPlugin {
    /// The attributes the plugin declares: one per resource kind, plus the
    /// `key` member attribute.
    pub fn declared_attributes(&self) -> (r: Vec<String>)
        ensures
            r@.map_values(|s: String| s@) == seq![
                "dojo::interface"@,
                "dojo::contract"@,
                "dojo::event"@,
                "dojo::model"@,
                "key"@,
            ],
    {
        let mut r: Vec<String> = Vec::new();
        r.push(String::from_str("dojo::interface"));
        r.push(String::from_str("dojo::contract"));
        r.push(String::from_str("dojo::event"));
        r.push(String::from_str("dojo::model"));
        r.push(String::from_str("key"));
        proof {
            assert(r@.map_values(|s: String| s@) =~= seq![
                "dojo::interface"@,
                "dojo::contract"@,
                "dojo::event"@,
                "dojo::model"@,
                "key"@,
            ]);
        }
        r
    }

    /// The derives the plugin declares for models and events.
    pub fn declared_derives(&self) -> (r: Vec<String>)
        ensures
            r@.map_values(|s: String| s@) == seq!["Introspect"@, "IntrospectPacked"@],
    {
        let mut r: Vec<String> = Vec::new();
        r.push(String::from_str("Introspect"));
        r.push(String::from_str("IntrospectPacked"));
        proof {
            assert(r@.map_values(|s: String| s@) =~= seq!["Introspect"@, "IntrospectPacked"@]);
        }
        r
    }
}

} // verus!

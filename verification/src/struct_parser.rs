//! Common parameters of resource struct attributes.
//!
//! A model or event attribute carries a version and a namespace; this
//! module holds their defaults and the validation of declared names.

use vstd::prelude::*;

use crate::naming::{is_name_valid, name_valid};

verus! {

/// Default version of a resource declaration.
pub const DEFAULT_VERSION: u8 = 1;

/// The parameters shared by the resource struct attributes.
#[derive(Debug)]
pub struct CommonStructParameters {
    /// Declared version, defaulting to [`DEFAULT_VERSION`].
    pub version: u8,
    /// Declared namespace; empty until one is resolved.
    pub namespace: String,
}

impl Default for CommonStructParameters {
    /// The default parameters: current version, no namespace yet.
    fn default() -> (r: CommonStructParameters)
        ensures
            r.version == DEFAULT_VERSION,
            r.namespace@ == Seq::<char>::empty(),
    {
        CommonStructParameters { version: DEFAULT_VERSION, namespace: String::new() }
    }
}

/// The error reported for an invalid declared name.
pub open spec fn naming_error_of(id: Seq<char>, value: Seq<char>) -> Seq<char> {
    "The "@ + id + " '"@ + value
        + "' can only contain characters (a-z/A-Z), digits (0-9) and underscore (_)."@
}

/// The errors for the namings from index `i` on whose value is not a valid
/// name.
pub open spec fn naming_errors(namings: Seq<(String, String)>, i: int) -> Seq<Seq<char>>
    decreases namings.len() - i,
{
    if i < 0 || i >= namings.len() {
        Seq::empty()
    } else if name_valid(namings[i].1@) {
        naming_errors(namings, i + 1)
    } else {
        seq![naming_error_of(namings[i].0@, namings[i].1@)] + naming_errors(namings, i + 1)
    }
}

/// Validates declared names: for every (kind, value) pair whose value holds
/// a character outside letters, digits and underscore, one error names the
/// offending declaration.
pub fn validate_namings_diagnostics(namings: &Vec<(String, String)>) -> (r: Vec<String>)
    ensures
        r@.map_values(|s: String| s@) == naming_errors(namings@, 0),
{
    let ghost nv = namings@;
    let mut out: Vec<String> = Vec::new();
    let mut i: usize = 0;
    proof {
        assert(Seq::<Seq<char>>::empty() + naming_errors(nv, 0) =~= naming_errors(nv, 0));
    }
    while i < namings.len()
        invariant
            nv == namings@,
            i <= nv.len(),
            naming_errors(nv, 0) == out@.map_values(|s: String| s@) + naming_errors(nv, i as int),
        decreases nv.len() - i,
    {
        let ghost ov = out@.map_values(|s: String| s@);
        if !is_name_valid(namings[i].1.as_str()) {
            let mut msg = String::from_str("The ");
            msg.append(namings[i].0.as_str());
            msg.append(" '");
            msg.append(namings[i].1.as_str());
            msg.append(
                "' can only contain characters (a-z/A-Z), digits (0-9) and underscore (_).",
            );
            proof {
                assert(msg@ =~= naming_error_of(nv[i as int].0@, nv[i as int].1@));
            }
            out.push(msg);
            proof {
                assert(out@.map_values(|s: String| s@) =~= ov + seq![
                    naming_error_of(nv[i as int].0@, nv[i as int].1@),
                ]);
                assert(ov + (seq![naming_error_of(nv[i as int].0@, nv[i as int].1@)]
                    + naming_errors(nv, i + 1)) =~= (ov + seq![
                    naming_error_of(nv[i as int].0@, nv[i as int].1@),
                ]) + naming_errors(nv, i + 1));
            }
        }
        i = i + 1;
    }
    proof {
        assert(naming_errors(nv, nv.len() as int) =~= Seq::<Seq<char>>::empty());
        assert(out@.map_values(|s: String| s@) + Seq::<Seq<char>>::empty() =~= out@.map_values(
            |s: String| s@,
        ));
    }
    out
}

} // verus!

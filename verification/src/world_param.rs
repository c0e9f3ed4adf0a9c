//! World-parameter inspection.
//!
//! A resource function may take the world dispatcher as its first
//! parameter. Taking it by `ref` makes the function state-mutating; taking
//! a snapshot makes it read-only; having no world parameter also makes it
//! read-only. Every other shape is reported as an error.

use vstd::prelude::*;

use crate::syntax::is_world_param;

verus! {

/// How a function takes the world dispatcher.
#[derive(PartialEq, Eq, Structural, Clone, Copy, Debug)]
pub enum WorldParamInjectionKind {
    /// No world parameter: the function is read-only.
    NoWorld,
    /// The world is taken as a snapshot: read-only.
    ReadOnly,
    /// The world is taken by `ref`: state-mutating.
    External,
}

/// Mathematical image of a [`ParamInfo`].
pub struct ParamInfoView {
    pub name: Seq<char>,
    pub modifiers: Seq<char>,
    pub ty: Seq<char>,
}

/// Name, modifiers and type of one function parameter.
#[derive(Debug)]
pub struct ParamInfo {
    pub name: String,
    pub modifiers: String,
    pub ty: String,
}

impl View for ParamInfo {
    type V = ParamInfoView;

    open spec fn view(&self) -> ParamInfoView {
        ParamInfoView { name: self.name@, modifiers: self.modifiers@, ty: self.ty@ }
    }
}

/// True when the parameter is the world parameter.
pub open spec fn is_world_param_spec(name: Seq<char>, ty: Seq<char>) -> bool {
    name == "world"@ && (ty == "IWorldDispatcher"@ || ty == "@IWorldDispatcher"@)
}

/// True when `pat` occurs as a contiguous subsequence of `s`.
pub open spec fn contains_seq(s: Seq<char>, pat: Seq<char>) -> bool {
    exists|i: int|
        0 <= i && i + pat.len() <= s.len() && #[trigger] s.subrange(i, i + pat.len() as int) == pat
}

/// State threaded through the parameter scan.
pub struct WorldScanState {
    pub has_world: bool,
    pub kind: WorldParamInjectionKind,
    pub diagnostics: Seq<Seq<char>>,
}

/// The initial scan state: no world seen, read-only by absence.
pub open spec fn world_scan_init() -> WorldScanState {
    WorldScanState { has_world: false, kind: WorldParamInjectionKind::NoWorld, diagnostics: Seq::empty() }
}

/// One step of the parameter scan, mirroring the diagnosed rules: the world
/// parameter must be unique, first, and a snapshot unless taken by `ref`;
/// `self` cannot be mixed with `world`.
pub open spec fn world_scan_step(st: WorldScanState, p: ParamInfoView, idx: int) -> WorldScanState {
    if !is_world_param_spec(p.name, p.ty) {
        if p.name == "self"@ && st.has_world {
            WorldScanState {
                diagnostics: st.diagnostics.push(
                    "You cannot use `self` and `world` parameters together."@,
                ),
                ..st
            }
        } else {
            st
        }
    } else if st.has_world {
        WorldScanState {
            diagnostics: st.diagnostics.push("Only one world parameter is allowed"@),
            ..st
        }
    } else if idx != 0 {
        WorldScanState {
            has_world: true,
            diagnostics: st.diagnostics.push("World parameter must be the first parameter."@),
            ..st
        }
    } else if contains_seq(p.modifiers, "ref"@) {
        WorldScanState { has_world: true, kind: WorldParamInjectionKind::External, ..st }
    } else if p.ty == "IWorldDispatcher"@ {
        WorldScanState {
            has_world: true,
            kind: WorldParamInjectionKind::ReadOnly,
            diagnostics: st.diagnostics.push(
                "World parameter must be a snapshot if `ref` is not used."@,
            ),
            ..st
        }
    } else {
        WorldScanState { has_world: true, kind: WorldParamInjectionKind::ReadOnly, ..st }
    }
}

/// The scan folded over the parameters from index `i` on.
pub open spec fn world_scan(params: Seq<ParamInfoView>, i: int, st: WorldScanState) -> WorldScanState
    decreases params.len() - i,
{
    if i < 0 || i >= params.len() {
        st
    } else {
        world_scan(params, i + 1, world_scan_step(st, params[i], i))
    }
}

/// Checks whether `ref` occurs in the modifiers.
fn contains_ref(s: &str) -> (r: bool)
    ensures
        r == contains_seq(s@, "ref"@),
{
    proof {
        reveal_strlit("ref");
    }
    let n = s.unicode_len();
    if n < 3 {
        proof {
            assert(!contains_seq(s@, "ref"@));
        }
        return false;
    }
    let mut i: usize = 0;
    while i <= n - 3
        invariant
            n == s@.len(),
            3 <= n,
            i <= n - 2,
            "ref"@.len() == 3,
            forall|j: int| 0 <= j < i ==> #[trigger] s@.subrange(j, j + 3) != "ref"@,
        decreases n - i,
    {
        if s.get_char(i) == 'r' && s.get_char(i + 1) == 'e' && s.get_char(i + 2) == 'f' {
            proof {
                reveal_strlit("ref");
                assert(s@.subrange(i as int, i + 3) =~= "ref"@) by {
                    reveal_strlit("ref");
                    assert(s@.subrange(i as int, i + 3)[0] == s@[i as int]);
                    assert(s@.subrange(i as int, i + 3)[1] == s@[i + 1]);
                    assert(s@.subrange(i as int, i + 3)[2] == s@[i + 2]);
                }
            }
            return true;
        }
        proof {
            assert(s@.subrange(i as int, i + 3) != "ref"@) by {
                reveal_strlit("ref");
                assert(s@.subrange(i as int, i + 3)[0] == s@[i as int]);
                assert(s@.subrange(i as int, i + 3)[1] == s@[i + 1]);
                assert(s@.subrange(i as int, i + 3)[2] == s@[i + 2]);
            }
        }
        i = i + 1;
    }
    proof {
        assert forall|j: int| 0 <= j && j + 3 <= s@.len() implies #[trigger] s@.subrange(j, j + 3)
            != "ref"@ by {
            assert(j < i);
        }
    }
    false
}

/// Extracts the state mutability of a function from its `world` parameter,
/// reporting every rule violation: at most one world parameter, placed
/// first, taken as a snapshot unless `ref` is used, and never mixed with
/// `self`.
pub fn parse_world_injection(params: &Vec<ParamInfo>) -> (r: (
    WorldParamInjectionKind,
    Vec<String>,
))
    ensures
        ({
            let st = world_scan(params@.map_values(|p: ParamInfo| p@), 0, world_scan_init());
            r.0 == st.kind && r.1@.map_values(|s: String| s@) == st.diagnostics
        }),
{
    proof {
        reveal_strlit("world");
        reveal_strlit("self");
        reveal_strlit("IWorldDispatcher");
        reveal_strlit("@IWorldDispatcher");
    }
    let ghost pv = params@.map_values(|p: ParamInfo| p@);
    let mut has_world = false;
    let mut kind = WorldParamInjectionKind::NoWorld;
    let mut diagnostics: Vec<String> = Vec::new();
    let mut i: usize = 0;
    proof {
        assert(diagnostics@.map_values(|s: String| s@) =~= Seq::<Seq<char>>::empty());
        assert((WorldScanState {
            has_world: has_world,
            kind: kind,
            diagnostics: diagnostics@.map_values(|s: String| s@),
        }) == world_scan_init());
    }
    while i < params.len()
        invariant
            pv == params@.map_values(|p: ParamInfo| p@),
            i <= pv.len(),
            world_scan(pv, 0, world_scan_init()) == world_scan(
                pv,
                i as int,
                (WorldScanState {
                    has_world: has_world,
                    kind: kind,
                    diagnostics: diagnostics@.map_values(|s: String| s@),
                }),
            ),
        decreases pv.len() - i,
    {
        let ghost st = WorldScanState {
            has_world: has_world,
            kind: kind,
            diagnostics: diagnostics@.map_values(|s: String| s@),
        };
        proof {
            assert(pv[i as int] == params@[i as int]@);
        }
        let p = &params[i];
        if !is_world_param(p.name.as_str(), p.ty.as_str()) {
            if crate::strutil::str_eq(p.name.as_str(), "self") && has_world {
                let ghost dv = diagnostics@.map_values(|s: String| s@);
                diagnostics.push(
                    String::from_str("You cannot use `self` and `world` parameters together."),
                );
                proof {
                    assert(diagnostics@.map_values(|s: String| s@) =~= dv.push(
                        "You cannot use `self` and `world` parameters together."@,
                    ));
                }
            }
        } else if has_world {
            let ghost dv = diagnostics@.map_values(|s: String| s@);
            diagnostics.push(String::from_str("Only one world parameter is allowed"));
            proof {
                assert(diagnostics@.map_values(|s: String| s@) =~= dv.push(
                    "Only one world parameter is allowed"@,
                ));
            }
        } else if i != 0 {
            has_world = true;
            let ghost dv = diagnostics@.map_values(|s: String| s@);
            diagnostics.push(String::from_str("World parameter must be the first parameter."));
            proof {
                assert(diagnostics@.map_values(|s: String| s@) =~= dv.push(
                    "World parameter must be the first parameter."@,
                ));
            }
        } else if contains_ref(p.modifiers.as_str()) {
            has_world = true;
            kind = WorldParamInjectionKind::External;
        } else if crate::strutil::str_eq(p.ty.as_str(), "IWorldDispatcher") {
            has_world = true;
            kind = WorldParamInjectionKind::ReadOnly;
            let ghost dv = diagnostics@.map_values(|s: String| s@);
            diagnostics.push(
                String::from_str("World parameter must be a snapshot if `ref` is not used."),
            );
            proof {
                assert(diagnostics@.map_values(|s: String| s@) =~= dv.push(
                    "World parameter must be a snapshot if `ref` is not used."@,
                ));
            }
        } else {
            has_world = true;
            kind = WorldParamInjectionKind::ReadOnly;
        }
        proof {
            assert(world_scan_step(st, pv[i as int], i as int) == (WorldScanState {
                has_world: has_world,
                kind: kind,
                diagnostics: diagnostics@.map_values(|s: String| s@),
            }));
        }
        i = i + 1;
    }
    (kind, diagnostics)
}

} // verus!

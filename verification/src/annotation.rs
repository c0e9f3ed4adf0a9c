//! Resource annotations.
//!
//! An annotation is the finalized record of one resource: it joins the
//! metadata declared in source (kind, tag, members or systems) with the
//! identity of the compiled artifact (qualified path and class hash). The
//! qualified path is the link connecting an artifact to its annotation.
//!
//! [`DojoAnnotation`] is the aggregate of one whole build: the two singleton
//! resources (world and base), the typed resources, and the remaining
//! generic contracts.

use vstd::prelude::*;

use crate::naming::filename_of_tag;
use crate::strutil::{replace_sep, str_eq};

verus! {

/// Mathematical image of a [`Member`].
pub struct MemberView {
    pub name: Seq<char>,
    pub ty: Seq<char>,
    pub key: bool,
}

/// One field of a model or an event.
#[derive(Debug)]
pub struct Member {
    /// Name of the member.
    pub name: String,
    /// Type of the member.
    pub ty: String,
    /// Whether the member is a key.
    pub key: bool,
}

impl View for Member {
    type V = MemberView;

    open spec fn view(&self) -> MemberView {
        MemberView { name: self.name@, ty: self.ty@, key: self.key }
    }
}

/// Mathematical image of a [`ContractAnnotation`].
pub struct ContractAnnotationView {
    pub qualified_path: Seq<char>,
    pub tag: Seq<char>,
    pub class_hash: Seq<char>,
    pub systems: Seq<Seq<char>>,
}

/// Annotation of a user-declared contract.
#[derive(Debug)]
pub struct ContractAnnotation {
    pub qualified_path: String,
    pub tag: String,
    pub class_hash: String,
    pub systems: Vec<String>,
}

impl View for ContractAnnotation {
    type V = ContractAnnotationView;

    open spec fn view(&self) -> ContractAnnotationView {
        ContractAnnotationView {
            qualified_path: self.qualified_path@,
            tag: self.tag@,
            class_hash: self.class_hash@,
            systems: self.systems@.map_values(|s: String| s@),
        }
    }
}

/// Mathematical image of a [`ModelAnnotation`].
pub struct ModelAnnotationView {
    pub qualified_path: Seq<char>,
    pub tag: Seq<char>,
    pub class_hash: Seq<char>,
    pub members: Seq<MemberView>,
}

/// Annotation of a model.
#[derive(Debug)]
pub struct ModelAnnotation {
    pub qualified_path: String,
    pub tag: String,
    pub class_hash: String,
    pub members: Vec<Member>,
}

impl View for ModelAnnotation {
    type V = ModelAnnotationView;

    open spec fn view(&self) -> ModelAnnotationView {
        ModelAnnotationView {
            qualified_path: self.qualified_path@,
            tag: self.tag@,
            class_hash: self.class_hash@,
            members: self.members@.map_values(|m: Member| m@),
        }
    }
}

/// Mathematical image of an [`EventAnnotation`].
pub struct EventAnnotationView {
    pub qualified_path: Seq<char>,
    pub tag: Seq<char>,
    pub class_hash: Seq<char>,
    pub members: Seq<MemberView>,
}

/// Annotation of an event.
#[derive(Debug)]
pub struct EventAnnotation {
    pub qualified_path: String,
    pub tag: String,
    pub class_hash: String,
    pub members: Vec<Member>,
}

impl View for EventAnnotation {
    type V = EventAnnotationView;

    open spec fn view(&self) -> EventAnnotationView {
        EventAnnotationView {
            qualified_path: self.qualified_path@,
            tag: self.tag@,
            class_hash: self.class_hash@,
            members: self.members@.map_values(|m: Member| m@),
        }
    }
}

/// Mathematical image of a [`WorldAnnotation`].
pub struct WorldAnnotationView {
    pub qualified_path: Seq<char>,
    pub tag: Seq<char>,
    pub class_hash: Seq<char>,
}

/// Annotation of the world contract.
#[derive(Debug)]
pub struct WorldAnnotation {
    pub qualified_path: String,
    pub tag: String,
    pub class_hash: String,
}

impl View for WorldAnnotation {
    type V = WorldAnnotationView;

    open spec fn view(&self) -> WorldAnnotationView {
        WorldAnnotationView {
            qualified_path: self.qualified_path@,
            tag: self.tag@,
            class_hash: self.class_hash@,
        }
    }
}

impl Default for WorldAnnotation {
    /// The world annotation before any artifact is known: the well-known
    /// world path and tag, with an empty class hash.
    fn default() -> (r: Self)
        ensures
            r@.qualified_path == crate::world_qualified_path_spec(),
            r@.tag == crate::world_contract_tag_spec(),
            r@.class_hash == Seq::<char>::empty(),
    {
        WorldAnnotation {
            qualified_path: String::from_str(crate::world_qualified_path()),
            tag: String::from_str(crate::world_contract_tag()),
            class_hash: String::new(),
        }
    }
}

/// Mathematical image of a [`StarknetContractAnnotation`].
pub struct StarknetContractAnnotationView {
    pub qualified_path: Seq<char>,
    pub name: Seq<char>,
    pub class_hash: Seq<char>,
}

/// Annotation of a plain Starknet contract that is not a typed resource.
#[derive(Debug)]
pub struct StarknetContractAnnotation {
    pub qualified_path: String,
    pub name: String,
    pub class_hash: String,
}

impl View for StarknetContractAnnotation {
    type V = StarknetContractAnnotationView;

    open spec fn view(&self) -> StarknetContractAnnotationView {
        StarknetContractAnnotationView {
            qualified_path: self.qualified_path@,
            name: self.name@,
            class_hash: self.class_hash@,
        }
    }
}

impl Default for StarknetContractAnnotation {
    /// An empty placeholder annotation.
    fn default() -> (r: Self)
        ensures
            r@.qualified_path == Seq::<char>::empty(),
            r@.name == Seq::<char>::empty(),
            r@.class_hash == Seq::<char>::empty(),
    {
        StarknetContractAnnotation {
            qualified_path: String::new(),
            name: String::new(),
            class_hash: String::new(),
        }
    }
}

/// Copies a member list, preserving its mathematical image.
pub fn clone_members(members: &Vec<Member>) -> (r: Vec<Member>)
    ensures
        r@.map_values(|m: Member| m@) == members@.map_values(|m: Member| m@),
        r@.len() == members@.len(),
{
    let mut r: Vec<Member> = Vec::new();
    let mut i: usize = 0;
    while i < members.len()
        invariant
            i <= members@.len(),
            r@.len() == i,
            forall|j: int| 0 <= j < i ==> (#[trigger] r@[j])@ == members@[j]@,
        decreases members@.len() - i,
    {
        let m = &members[i];
        r.push(Member { name: m.name.clone(), ty: m.ty.clone(), key: m.key });
        i = i + 1;
    }
    proof {
        assert(r@.map_values(|m: Member| m@) =~= members@.map_values(|m: Member| m@));
    }
    r
}

/// What every annotation can tell about itself: the file name its class is
/// persisted under, its qualified path, and its display tag.
pub trait AnnotationInfo {
    /// The persisted file name, without extension.
    spec fn spec_filename(&self) -> Seq<char>;

    /// The qualified path of the compiled unit.
    spec fn spec_qualified_path(&self) -> Seq<char>;

    /// The display tag.
    spec fn spec_tag(&self) -> Seq<char>;

    /// Exec counterpart of [`Self::spec_filename`].
    fn filename(&self) -> (r: String)
        ensures
            r@ == self.spec_filename(),
    ;

    /// Exec counterpart of [`Self::spec_qualified_path`].
    fn qualified_path(&self) -> (r: String)
        ensures
            r@ == self.spec_qualified_path(),
    ;

    /// Exec counterpart of [`Self::spec_tag`].
    fn tag(&self) -> (r: String)
        ensures
            r@ == self.spec_tag(),
    ;
}

impl AnnotationInfo for ModelAnnotation {
    open spec fn spec_filename(&self) -> Seq<char> {
        filename_of_tag(self.tag@)
    }

    open spec fn spec_qualified_path(&self) -> Seq<char> {
        self.qualified_path@
    }

    open spec fn spec_tag(&self) -> Seq<char> {
        self.tag@
    }

    fn filename(&self) -> (r: String) {
        crate::naming::get_filename_from_tag(self.tag.as_str())
    }

    fn qualified_path(&self) -> (r: String) {
        self.qualified_path.clone()
    }

    fn tag(&self) -> (r: String) {
        self.tag.clone()
    }
}

impl AnnotationInfo for EventAnnotation {
    open spec fn spec_filename(&self) -> Seq<char> {
        filename_of_tag(self.tag@)
    }

    open spec fn spec_qualified_path(&self) -> Seq<char> {
        self.qualified_path@
    }

    open spec fn spec_tag(&self) -> Seq<char> {
        self.tag@
    }

    fn filename(&self) -> (r: String) {
        crate::naming::get_filename_from_tag(self.tag.as_str())
    }

    fn qualified_path(&self) -> (r: String) {
        self.qualified_path.clone()
    }

    fn tag(&self) -> (r: String) {
        self.tag.clone()
    }
}

impl AnnotationInfo for ContractAnnotation {
    open spec fn spec_filename(&self) -> Seq<char> {
        filename_of_tag(self.tag@)
    }

    open spec fn spec_qualified_path(&self) -> Seq<char> {
        self.qualified_path@
    }

    open spec fn spec_tag(&self) -> Seq<char> {
        self.tag@
    }

    fn filename(&self) -> (r: String) {
        crate::naming::get_filename_from_tag(self.tag.as_str())
    }

    fn qualified_path(&self) -> (r: String) {
        self.qualified_path.clone()
    }

    fn tag(&self) -> (r: String) {
        self.tag.clone()
    }
}

impl AnnotationInfo for StarknetContractAnnotation {
    open spec fn spec_filename(&self) -> Seq<char> {
        replace_sep(self.qualified_path@)
    }

    open spec fn spec_qualified_path(&self) -> Seq<char> {
        self.qualified_path@
    }

    open spec fn spec_tag(&self) -> Seq<char> {
        self.name@
    }

    fn filename(&self) -> (r: String) {
        crate::strutil::replace_path_sep(self.qualified_path.as_str())
    }

    fn qualified_path(&self) -> (r: String) {
        self.qualified_path.clone()
    }

    fn tag(&self) -> (r: String) {
        self.name.clone()
    }
}

impl AnnotationInfo for WorldAnnotation {
    open spec fn spec_filename(&self) -> Seq<char> {
        crate::world_contract_tag_spec()
    }

    open spec fn spec_qualified_path(&self) -> Seq<char> {
        self.qualified_path@
    }

    open spec fn spec_tag(&self) -> Seq<char> {
        self.tag@
    }

    fn filename(&self) -> (r: String) {
        String::from_str(crate::world_contract_tag())
    }

    fn qualified_path(&self) -> (r: String) {
        self.qualified_path.clone()
    }

    fn tag(&self) -> (r: String) {
        self.tag.clone()
    }
}

/// Mathematical image of a [`DojoAnnotation`].
pub struct DojoAnnotationView {
    pub world: WorldAnnotationView,
    pub base: StarknetContractAnnotationView,
    pub contracts: Seq<ContractAnnotationView>,
    pub models: Seq<ModelAnnotationView>,
    pub events: Seq<EventAnnotationView>,
    pub sn_contracts: Seq<StarknetContractAnnotationView>,
}

/// The aggregate annotation set of one build.
#[derive(Debug)]
pub struct DojoAnnotation {
    /// The world singleton.
    pub world: WorldAnnotation,
    /// The base singleton.
    pub base: StarknetContractAnnotation,
    /// User-declared contracts.
    pub contracts: Vec<ContractAnnotation>,
    /// Models.
    pub models: Vec<ModelAnnotation>,
    /// Events.
    pub events: Vec<EventAnnotation>,
    /// Generic Starknet contracts that are not typed resources.
    pub sn_contracts: Vec<StarknetContractAnnotation>,
}

impl View for DojoAnnotation {
    type V = DojoAnnotationView;

    open spec fn view(&self) -> DojoAnnotationView {
        DojoAnnotationView {
            world: self.world@,
            base: self.base@,
            contracts: self.contracts@.map_values(|a: ContractAnnotation| a@),
            models: self.models@.map_values(|a: ModelAnnotation| a@),
            events: self.events@.map_values(|a: EventAnnotation| a@),
            sn_contracts: self.sn_contracts@.map_values(|a: StarknetContractAnnotation| a@),
        }
    }
}

/// The empty annotation set: the two singletons carry their well-known paths
/// and tags with an empty class hash, and every list is empty.
pub open spec fn empty_annotation_spec() -> DojoAnnotationView {
    DojoAnnotationView {
        world: (WorldAnnotationView {
            qualified_path: crate::world_qualified_path_spec(),
            tag: crate::world_contract_tag_spec(),
            class_hash: Seq::empty(),
        }),
        base: (StarknetContractAnnotationView {
            qualified_path: crate::base_qualified_path_spec(),
            name: crate::base_contract_tag_spec(),
            class_hash: Seq::empty(),
        }),
        contracts: Seq::empty(),
        models: Seq::empty(),
        events: Seq::empty(),
        sn_contracts: Seq::empty(),
    }
}

/// True when `qp` is the qualified path of a typed resource or of one of
/// the two singletons of `v`.
pub open spec fn is_dojo_resource_spec(v: DojoAnnotationView, qp: Seq<char>) -> bool {
    (exists|i: int| 0 <= i < v.contracts.len() && (#[trigger] v.contracts[i]).qualified_path == qp)
        || (exists|i: int|
        0 <= i < v.models.len() && (#[trigger] v.models[i]).qualified_path == qp) || (exists|i: int|
        0 <= i < v.events.len() && (#[trigger] v.events[i]).qualified_path == qp)
        || v.world.qualified_path == qp || v.base.qualified_path == qp
}

/// True when `qp` occurs anywhere in the annotation set: as a singleton, a
/// typed resource or a generic contract.
pub open spec fn contains_path(v: DojoAnnotationView, qp: Seq<char>) -> bool {
    is_dojo_resource_spec(v, qp) || (exists|i: int|
        0 <= i < v.sn_contracts.len() && (#[trigger] v.sn_contracts[i]).qualified_path == qp)
}

impl DojoAnnotation {
    /// Creates an empty annotation set.
    pub fn new() -> (r: Self)
        ensures
            r@ == empty_annotation_spec(),
    {
        let r = DojoAnnotation {
            world: WorldAnnotation::default(),
            base: (StarknetContractAnnotation {
                qualified_path: String::from_str(crate::base_qualified_path()),
                name: String::from_str(crate::base_contract_tag()),
                class_hash: String::new(),
            }),
            contracts: Vec::new(),
            models: Vec::new(),
            events: Vec::new(),
            sn_contracts: Vec::new(),
        };
        proof {
            assert(r@.contracts =~= empty_annotation_spec().contracts);
            assert(r@.models =~= empty_annotation_spec().models);
            assert(r@.events =~= empty_annotation_spec().events);
            assert(r@.sn_contracts =~= empty_annotation_spec().sn_contracts);
        }
        r
    }

    /// Checks if the provided qualified path belongs to a typed resource or
    /// to one of the two singletons.
    pub fn is_dojo_resource(&self, qualified_path: &str) -> (r: bool)
        ensures
            r == is_dojo_resource_spec(self@, qualified_path@),
    {
        let mut i: usize = 0;
        while i < self.contracts.len()
            invariant
                i <= self.contracts@.len(),
                forall|j: int|
                    0 <= j < i ==> (#[trigger] self@.contracts[j]).qualified_path
                        != qualified_path@,
            decreases self.contracts@.len() - i,
        {
            if str_eq(self.contracts[i].qualified_path.as_str(), qualified_path) {
                proof {
                    assert((self@.contracts[i as int]).qualified_path == qualified_path@);
                }
                return true;
            }
            i = i + 1;
        }
        let mut i: usize = 0;
        while i < self.models.len()
            invariant
                i <= self.models@.len(),
                forall|j: int|
                    0 <= j < i ==> (#[trigger] self@.models[j]).qualified_path != qualified_path@,
            decreases self.models@.len() - i,
        {
            if str_eq(self.models[i].qualified_path.as_str(), qualified_path) {
                proof {
                    assert((self@.models[i as int]).qualified_path == qualified_path@);
                }
                return true;
            }
            i = i + 1;
        }
        let mut i: usize = 0;
        while i < self.events.len()
            invariant
                i <= self.events@.len(),
                forall|j: int|
                    0 <= j < i ==> (#[trigger] self@.events[j]).qualified_path != qualified_path@,
            decreases self.events@.len() - i,
        {
            if str_eq(self.events[i].qualified_path.as_str(), qualified_path) {
                proof {
                    assert((self@.events[i as int]).qualified_path == qualified_path@);
                }
                return true;
            }
            i = i + 1;
        }
        str_eq(self.world.qualified_path.as_str(), qualified_path) || str_eq(
            self.base.qualified_path.as_str(),
            qualified_path,
        )
    }
}

impl Default for DojoAnnotation {
    /// Same as [`DojoAnnotation::new`].
    fn default() -> (r: Self)
        ensures
            r@ == empty_annotation_spec(),
    {
        DojoAnnotation::new()
    }
}

} // verus!

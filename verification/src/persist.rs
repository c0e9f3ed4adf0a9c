//! Persistence of a registry.
//!
//! Writing produces the manifest text and one class file per resource,
//! organized into kind-specific directories: `contracts/`, `models/` and
//! `events/` for the typed resources, and the profile root for the world and
//! base singletons and the generic contracts. Reading is the inverse: it
//! decodes the manifest, fetches every referenced class file, recomputes the
//! class hash from the bytes that were read (the stored hash is never
//! trusted), and repopulates the artifact map.
//!
//! The functions here only compute the file plan and consume fetched file
//! contents; performing the actual file system access is the caller's
//! responsibility.

use vstd::prelude::*;

use crate::annotation::{AnnotationInfo, DojoAnnotationView};
use crate::artifact_manager::{
    ArtifactManager, CompiledArtifact, CompiledArtifactView, MissingArtifactError,
};
use crate::manifest::{decode_manifest, encode_manifest, enc_manifest, parse_manifest};
use crate::naming::{class_hash_of, compute_class_hash_of_contract_class, filename_of_tag};
use crate::strutil::{replace_sep, str_eq};

verus! {

/// Directory a class file is persisted under.
#[derive(PartialEq, Eq, Structural, Clone, Copy, Debug)]
pub enum ResourceDir {
    /// The profile root: the singletons and the generic contracts.
    Root,
    /// `contracts/`.
    Contracts,
    /// `models/`.
    Models,
    /// `events/`.
    Events,
}

/// Mathematical image of a [`ClassFile`].
pub struct ClassFileView {
    pub dir: ResourceDir,
    pub name: Seq<char>,
    pub data: Seq<u8>,
    pub debug: Option<Seq<u8>>,
}

/// One persisted class file: its directory, its file name (without
/// extension), the class payload, and the optional debug sidecar.
#[derive(Debug)]
pub struct ClassFile {
    pub dir: ResourceDir,
    pub name: String,
    pub data: Vec<u8>,
    pub debug: Option<Vec<u8>>,
}

impl View for ClassFile {
    type V = ClassFileView;

    open spec fn view(&self) -> ClassFileView {
        ClassFileView {
            dir: self.dir,
            name: self.name@,
            data: self.data@,
            debug: match self.debug {
                Some(d) => Some(d@),
                None => None,
            },
        }
    }
}

/// Everything one write produces: the manifest text and the class files.
#[derive(Debug)]
pub struct WriteOutput {
    pub manifest: String,
    pub files: Vec<ClassFile>,
}

/// The class file persisted for the artifact registered under `qp`.
pub open spec fn file_for(
    dir: ResourceDir,
    name: Seq<char>,
    qp: Seq<char>,
    artifacts: Map<Seq<char>, CompiledArtifactView>,
) -> ClassFileView {
    ClassFileView {
        dir,
        name,
        data: artifacts.index(qp).contract_class,
        debug: artifacts.index(qp).debug_info,
    }
}

/// Class files of the contract list; fails with the first qualified path
/// that has no artifact.
pub open spec fn files_for_contracts(
    cs: Seq<crate::annotation::ContractAnnotationView>,
    artifacts: Map<Seq<char>, CompiledArtifactView>,
) -> Result<Seq<ClassFileView>, Seq<char>>
    decreases cs.len(),
{
    if cs.len() == 0 {
        Ok(Seq::empty())
    } else if !artifacts.contains_key(cs[0].qualified_path) {
        Err(cs[0].qualified_path)
    } else {
        match files_for_contracts(cs.skip(1), artifacts) {
            Ok(fs) => Ok(
                seq![
                    file_for(
                        ResourceDir::Contracts,
                        filename_of_tag(cs[0].tag),
                        cs[0].qualified_path,
                        artifacts,
                    ),
                ] + fs,
            ),
            Err(p) => Err(p),
        }
    }
}

/// Class files of the model list.
pub open spec fn files_for_models(
    ms: Seq<crate::annotation::ModelAnnotationView>,
    artifacts: Map<Seq<char>, CompiledArtifactView>,
) -> Result<Seq<ClassFileView>, Seq<char>>
    decreases ms.len(),
{
    if ms.len() == 0 {
        Ok(Seq::empty())
    } else if !artifacts.contains_key(ms[0].qualified_path) {
        Err(ms[0].qualified_path)
    } else {
        match files_for_models(ms.skip(1), artifacts) {
            Ok(fs) => Ok(
                seq![
                    file_for(
                        ResourceDir::Models,
                        filename_of_tag(ms[0].tag),
                        ms[0].qualified_path,
                        artifacts,
                    ),
                ] + fs,
            ),
            Err(p) => Err(p),
        }
    }
}

/// Class files of the event list.
pub open spec fn files_for_events(
    es: Seq<crate::annotation::EventAnnotationView>,
    artifacts: Map<Seq<char>, CompiledArtifactView>,
) -> Result<Seq<ClassFileView>, Seq<char>>
    decreases es.len(),
{
    if es.len() == 0 {
        Ok(Seq::empty())
    } else if !artifacts.contains_key(es[0].qualified_path) {
        Err(es[0].qualified_path)
    } else {
        match files_for_events(es.skip(1), artifacts) {
            Ok(fs) => Ok(
                seq![
                    file_for(
                        ResourceDir::Events,
                        filename_of_tag(es[0].tag),
                        es[0].qualified_path,
                        artifacts,
                    ),
                ] + fs,
            ),
            Err(p) => Err(p),
        }
    }
}

/// Class files of the generic contract list, named after their qualified
/// path with separators replaced.
pub open spec fn files_for_sns(
    xs: Seq<crate::annotation::StarknetContractAnnotationView>,
    artifacts: Map<Seq<char>, CompiledArtifactView>,
) -> Result<Seq<ClassFileView>, Seq<char>>
    decreases xs.len(),
{
    if xs.len() == 0 {
        Ok(Seq::empty())
    } else if !artifacts.contains_key(xs[0].qualified_path) {
        Err(xs[0].qualified_path)
    } else {
        match files_for_sns(xs.skip(1), artifacts) {
            Ok(fs) => Ok(
                seq![
                    file_for(
                        ResourceDir::Root,
                        replace_sep(xs[0].qualified_path),
                        xs[0].qualified_path,
                        artifacts,
                    ),
                ] + fs,
            ),
            Err(p) => Err(p),
        }
    }
}

/// All class files one write produces: the two singletons first (world,
/// then base, both at the root under their well-known tags), then the
/// contracts, models, events and generic contracts.
pub open spec fn write_files_spec(
    v: DojoAnnotationView,
    artifacts: Map<Seq<char>, CompiledArtifactView>,
) -> Result<Seq<ClassFileView>, Seq<char>> {
    if !artifacts.contains_key(v.world.qualified_path) {
        Err(v.world.qualified_path)
    } else if !artifacts.contains_key(v.base.qualified_path) {
        Err(v.base.qualified_path)
    } else {
        match (
            files_for_contracts(v.contracts, artifacts),
            files_for_models(v.models, artifacts),
            files_for_events(v.events, artifacts),
            files_for_sns(v.sn_contracts, artifacts),
        ) {
            (Ok(fc), Ok(fm), Ok(fe), Ok(fx)) => Ok(
                seq![
                    file_for(
                        ResourceDir::Root,
                        crate::world_contract_tag_spec(),
                        v.world.qualified_path,
                        artifacts,
                    ),
                    file_for(
                        ResourceDir::Root,
                        crate::base_contract_tag_spec(),
                        v.base.qualified_path,
                        artifacts,
                    ),
                ] + fc + fm + fe + fx,
            ),
            (Err(p), _, _, _) => Err(p),
            (_, Err(p), _, _) => Err(p),
            (_, _, Err(p), _) => Err(p),
            (_, _, _, Err(p)) => Err(p),
        }
    }
}

/// Copies a byte vector.
fn copy_bytes(v: &Vec<u8>) -> (r: Vec<u8>)
    ensures
        r@ == v@,
{
    let mut r: Vec<u8> = Vec::new();
    let mut i: usize = 0;
    while i < v.len()
        invariant
            i <= v@.len(),
            r@ == v@.take(i as int),
        decreases v@.len() - i,
    {
        r.push(v[i]);
        proof {
            assert(v@.take(i + 1) =~= v@.take(i as int).push(v@[i as int]));
        }
        i = i + 1;
    }
    proof {
        assert(v@.take(v@.len() as int) =~= v@);
    }
    r
}

/// Copies an optional byte vector.
fn copy_debug(v: &Option<Vec<u8>>) -> (r: Option<Vec<u8>>)
    ensures
        match v {
            Some(d) => r is Some && r->0@ == d@,
            None => r is None,
        },
{
    match v {
        Some(d) => Some(copy_bytes(d)),
        None => None,
    }
}

/// Builds the class file of the artifact registered under `qp`, or the
/// error naming `qp` when no artifact is registered there.
fn class_file_for(
    manager: &ArtifactManager,
    dir: ResourceDir,
    name: String,
    qp: &str,
) -> (r: Result<ClassFile, MissingArtifactError>)
    ensures
        manager.artifacts().contains_key(qp@) ==> r is Ok && r->Ok_0@ == file_for(
            dir,
            name@,
            qp@,
            manager.artifacts(),
        ),
        !manager.artifacts().contains_key(qp@) ==> r is Err && r->Err_0.qualified_path@ == qp@,
{
    match manager.get_artifact(qp) {
        Some(a) => Ok(
            ClassFile { dir, name, data: copy_bytes(&a.contract_class), debug: copy_debug(
                &a.debug_info,
            ) },
        ),
        None => Err(MissingArtifactError { qualified_path: String::from_str(qp) }),
    }
}

/// Builds the class files of the contract list.
fn contract_files(
    manager: &ArtifactManager,
    cs: &Vec<crate::annotation::ContractAnnotation>,
) -> (r: Result<Vec<ClassFile>, MissingArtifactError>)
    ensures
        match files_for_contracts(
            cs@.map_values(|a: crate::annotation::ContractAnnotation| a@),
            manager.artifacts(),
        ) {
            Ok(fs) => r is Ok && r->Ok_0@.map_values(|f: ClassFile| f@) == fs,
            Err(p) => r is Err && r->Err_0.qualified_path@ == p,
        },
{
    let ghost vcs = cs@.map_values(|a: crate::annotation::ContractAnnotation| a@);
    let ghost arts = manager.artifacts();
    let mut acc: Vec<ClassFile> = Vec::new();
    let mut i: usize = 0;
    proof {
        assert(vcs.skip(0) =~= vcs);
    }
    while i < cs.len()
        invariant
            vcs == cs@.map_values(|a: crate::annotation::ContractAnnotation| a@),
            arts == manager.artifacts(),
            i <= cs@.len(),
            match files_for_contracts(vcs.skip(i as int), arts) {
                Ok(fs) => files_for_contracts(vcs, arts) == Ok::<Seq<ClassFileView>, Seq<char>>(
                    acc@.map_values(|f: ClassFile| f@) + fs,
                ),
                Err(p) => files_for_contracts(vcs, arts) == Err::<Seq<ClassFileView>, Seq<char>>(p),
            },
        decreases cs@.len() - i,
    {
        proof {
            assert(vcs.skip(i as int)[0] == vcs[i as int]);
            assert(vcs.skip(i as int).skip(1) =~= vcs.skip(i + 1));
        }
        let a = &cs[i];
        match class_file_for(
            manager,
            ResourceDir::Contracts,
            a.filename(),
            a.qualified_path.as_str(),
        ) {
            Ok(f) => {
                let ghost accv = acc@.map_values(|f: ClassFile| f@);
                let ghost fv = f@;
                acc.push(f);
                proof {
                    assert(acc@.map_values(|f: ClassFile| f@) =~= accv + seq![fv]);
                    match files_for_contracts(vcs.skip(i + 1), arts) {
                        Ok(fs2) => {
                            assert(accv + (seq![fv] + fs2) =~= (accv + seq![fv]) + fs2);
                        },
                        Err(_) => {},
                    }
                }
            },
            Err(e) => {
                return Err(e);
            },
        }
        i = i + 1;
    }
    proof {
        assert(files_for_contracts(vcs.skip(cs@.len() as int), arts) == Ok::<
            Seq<ClassFileView>,
            Seq<char>,
        >(Seq::empty()));
        assert(acc@.map_values(|f: ClassFile| f@) + Seq::<ClassFileView>::empty()
            =~= acc@.map_values(|f: ClassFile| f@));
    }
    Ok(acc)
}

/// Builds the class files of the model list.
fn model_files(
    manager: &ArtifactManager,
    ms: &Vec<crate::annotation::ModelAnnotation>,
) -> (r: Result<Vec<ClassFile>, MissingArtifactError>)
    ensures
        match files_for_models(
            ms@.map_values(|a: crate::annotation::ModelAnnotation| a@),
            manager.artifacts(),
        ) {
            Ok(fs) => r is Ok && r->Ok_0@.map_values(|f: ClassFile| f@) == fs,
            Err(p) => r is Err && r->Err_0.qualified_path@ == p,
        },
{
    let ghost vms = ms@.map_values(|a: crate::annotation::ModelAnnotation| a@);
    let ghost arts = manager.artifacts();
    let mut acc: Vec<ClassFile> = Vec::new();
    let mut i: usize = 0;
    proof {
        assert(vms.skip(0) =~= vms);
    }
    while i < ms.len()
        invariant
            vms == ms@.map_values(|a: crate::annotation::ModelAnnotation| a@),
            arts == manager.artifacts(),
            i <= ms@.len(),
            match files_for_models(vms.skip(i as int), arts) {
                Ok(fs) => files_for_models(vms, arts) == Ok::<Seq<ClassFileView>, Seq<char>>(
                    acc@.map_values(|f: ClassFile| f@) + fs,
                ),
                Err(p) => files_for_models(vms, arts) == Err::<Seq<ClassFileView>, Seq<char>>(p),
            },
        decreases ms@.len() - i,
    {
        proof {
            assert(vms.skip(i as int)[0] == vms[i as int]);
            assert(vms.skip(i as int).skip(1) =~= vms.skip(i + 1));
        }
        let a = &ms[i];
        match class_file_for(
            manager,
            ResourceDir::Models,
            a.filename(),
            a.qualified_path.as_str(),
        ) {
            Ok(f) => {
                let ghost accv = acc@.map_values(|f: ClassFile| f@);
                let ghost fv = f@;
                acc.push(f);
                proof {
                    assert(acc@.map_values(|f: ClassFile| f@) =~= accv + seq![fv]);
                    match files_for_models(vms.skip(i + 1), arts) {
                        Ok(fs2) => {
                            assert(accv + (seq![fv] + fs2) =~= (accv + seq![fv]) + fs2);
                        },
                        Err(_) => {},
                    }
                }
            },
            Err(e) => {
                return Err(e);
            },
        }
        i = i + 1;
    }
    proof {
        assert(files_for_models(vms.skip(ms@.len() as int), arts) == Ok::<
            Seq<ClassFileView>,
            Seq<char>,
        >(Seq::empty()));
        assert(acc@.map_values(|f: ClassFile| f@) + Seq::<ClassFileView>::empty()
            =~= acc@.map_values(|f: ClassFile| f@));
    }
    Ok(acc)
}

/// Builds the class files of the event list.
fn event_files(
    manager: &ArtifactManager,
    es: &Vec<crate::annotation::EventAnnotation>,
) -> (r: Result<Vec<ClassFile>, MissingArtifactError>)
    ensures
        match files_for_events(
            es@.map_values(|a: crate::annotation::EventAnnotation| a@),
            manager.artifacts(),
        ) {
            Ok(fs) => r is Ok && r->Ok_0@.map_values(|f: ClassFile| f@) == fs,
            Err(p) => r is Err && r->Err_0.qualified_path@ == p,
        },
{
    let ghost ves = es@.map_values(|a: crate::annotation::EventAnnotation| a@);
    let ghost arts = manager.artifacts();
    let mut acc: Vec<ClassFile> = Vec::new();
    let mut i: usize = 0;
    proof {
        assert(ves.skip(0) =~= ves);
    }
    while i < es.len()
        invariant
            ves == es@.map_values(|a: crate::annotation::EventAnnotation| a@),
            arts == manager.artifacts(),
            i <= es@.len(),
            match files_for_events(ves.skip(i as int), arts) {
                Ok(fs) => files_for_events(ves, arts) == Ok::<Seq<ClassFileView>, Seq<char>>(
                    acc@.map_values(|f: ClassFile| f@) + fs,
                ),
                Err(p) => files_for_events(ves, arts) == Err::<Seq<ClassFileView>, Seq<char>>(p),
            },
        decreases es@.len() - i,
    {
        proof {
            assert(ves.skip(i as int)[0] == ves[i as int]);
            assert(ves.skip(i as int).skip(1) =~= ves.skip(i + 1));
        }
        let a = &es[i];
        match class_file_for(
            manager,
            ResourceDir::Events,
            a.filename(),
            a.qualified_path.as_str(),
        ) {
            Ok(f) => {
                let ghost accv = acc@.map_values(|f: ClassFile| f@);
                let ghost fv = f@;
                acc.push(f);
                proof {
                    assert(acc@.map_values(|f: ClassFile| f@) =~= accv + seq![fv]);
                    match files_for_events(ves.skip(i + 1), arts) {
                        Ok(fs2) => {
                            assert(accv + (seq![fv] + fs2) =~= (accv + seq![fv]) + fs2);
                        },
                        Err(_) => {},
                    }
                }
            },
            Err(e) => {
                return Err(e);
            },
        }
        i = i + 1;
    }
    proof {
        assert(files_for_events(ves.skip(es@.len() as int), arts) == Ok::<
            Seq<ClassFileView>,
            Seq<char>,
        >(Seq::empty()));
        assert(acc@.map_values(|f: ClassFile| f@) + Seq::<ClassFileView>::empty()
            =~= acc@.map_values(|f: ClassFile| f@));
    }
    Ok(acc)
}

/// Builds the class files of the generic contract list.
fn sn_files(
    manager: &ArtifactManager,
    xs: &Vec<crate::annotation::StarknetContractAnnotation>,
) -> (r: Result<Vec<ClassFile>, MissingArtifactError>)
    ensures
        match files_for_sns(
            xs@.map_values(|a: crate::annotation::StarknetContractAnnotation| a@),
            manager.artifacts(),
        ) {
            Ok(fs) => r is Ok && r->Ok_0@.map_values(|f: ClassFile| f@) == fs,
            Err(p) => r is Err && r->Err_0.qualified_path@ == p,
        },
{
    let ghost vxs = xs@.map_values(|a: crate::annotation::StarknetContractAnnotation| a@);
    let ghost arts = manager.artifacts();
    let mut acc: Vec<ClassFile> = Vec::new();
    let mut i: usize = 0;
    proof {
        assert(vxs.skip(0) =~= vxs);
    }
    while i < xs.len()
        invariant
            vxs == xs@.map_values(|a: crate::annotation::StarknetContractAnnotation| a@),
            arts == manager.artifacts(),
            i <= xs@.len(),
            match files_for_sns(vxs.skip(i as int), arts) {
                Ok(fs) => files_for_sns(vxs, arts) == Ok::<Seq<ClassFileView>, Seq<char>>(acc@.map_values(|f: ClassFile| f@) + fs),
                Err(p) => files_for_sns(vxs, arts) == Err::<Seq<ClassFileView>, Seq<char>>(p),
            },
        decreases xs@.len() - i,
    {
        proof {
            assert(vxs.skip(i as int)[0] == vxs[i as int]);
            assert(vxs.skip(i as int).skip(1) =~= vxs.skip(i + 1));
        }
        let a = &xs[i];
        match class_file_for(manager, ResourceDir::Root, a.filename(), a.qualified_path.as_str()) {
            Ok(f) => {
                let ghost accv = acc@.map_values(|f: ClassFile| f@);
                let ghost fv = f@;
                acc.push(f);
                proof {
                    assert(acc@.map_values(|f: ClassFile| f@) =~= accv + seq![fv]);
                    match files_for_sns(vxs.skip(i + 1), arts) {
                        Ok(fs2) => {
                            assert(accv + (seq![fv] + fs2) =~= (accv + seq![fv]) + fs2);
                        },
                        Err(_) => {},
                    }
                }
            },
            Err(e) => {
                return Err(e);
            },
        }
        i = i + 1;
    }
    proof {
        assert(files_for_sns(vxs.skip(xs@.len() as int), arts) == Ok::<
            Seq<ClassFileView>,
            Seq<char>,
        >(Seq::empty()));
        assert(acc@.map_values(|f: ClassFile| f@) + Seq::<ClassFileView>::empty()
            =~= acc@.map_values(|f: ClassFile| f@));
    }
    Ok(acc)
}

impl ArtifactManager {
    /// Produces everything a write persists: the manifest text encoding the
    /// annotation set, and one class file per resource, the two singletons
    /// at the root and every other resource in its kind-specific directory.
    /// Fails with the first annotated qualified path that has no compiled
    /// artifact.
    pub fn write(&self) -> (r: Result<WriteOutput, MissingArtifactError>)
        ensures
            match write_files_spec(self.annotation(), self.artifacts()) {
                Ok(fs) => r is Ok && r->Ok_0.manifest@ == enc_manifest(self.annotation())
                    && r->Ok_0.files@.map_values(|f: ClassFile| f@) == fs,
                Err(p) => r is Err && r->Err_0.qualified_path@ == p,
            },
    {
        let ann = self.dojo_annotation();
        let manifest = encode_manifest(ann);
        let world_file = match class_file_for(
            self,
            ResourceDir::Root,
            ann.world.filename(),
            ann.world.qualified_path.as_str(),
        ) {
            Ok(f) => f,
            Err(e) => {
                return Err(e);
            },
        };
        let base_file = match class_file_for(
            self,
            ResourceDir::Root,
            String::from_str(crate::base_contract_tag()),
            ann.base.qualified_path.as_str(),
        ) {
            Ok(f) => f,
            Err(e) => {
                return Err(e);
            },
        };
        let mut fc = match contract_files(self, &ann.contracts) {
            Ok(v) => v,
            Err(e) => {
                return Err(e);
            },
        };
        let mut fm = match model_files(self, &ann.models) {
            Ok(v) => v,
            Err(e) => {
                return Err(e);
            },
        };
        let mut fe = match event_files(self, &ann.events) {
            Ok(v) => v,
            Err(e) => {
                return Err(e);
            },
        };
        let mut fx = match sn_files(self, &ann.sn_contracts) {
            Ok(v) => v,
            Err(e) => {
                return Err(e);
            },
        };
        let mut files: Vec<ClassFile> = Vec::new();
        let ghost wfv = world_file@;
        let ghost bfv = base_file@;
        let ghost fcv = fc@.map_values(|f: ClassFile| f@);
        let ghost fmv = fm@.map_values(|f: ClassFile| f@);
        let ghost fev = fe@.map_values(|f: ClassFile| f@);
        let ghost fxv = fx@.map_values(|f: ClassFile| f@);
        files.push(world_file);
        files.push(base_file);
        files.append(&mut fc);
        files.append(&mut fm);
        files.append(&mut fe);
        files.append(&mut fx);
        proof {
            assert(files@.map_values(|f: ClassFile| f@) =~= seq![wfv, bfv] + fcv + fmv + fev
                + fxv);
        }
        Ok(WriteOutput { manifest, files })
    }
}

/// The first file in `files` under directory `dir` with name `name`. A real
/// directory holds at most one file per name, so with well-formed input the
/// first match is the only one.
pub open spec fn find_file(files: Seq<ClassFileView>, dir: ResourceDir, name: Seq<char>) -> Option<
    ClassFileView,
>
    decreases files.len(),
{
    if files.len() == 0 {
        None
    } else if files[0].dir == dir && files[0].name == name {
        Some(files[0])
    } else {
        find_file(files.skip(1), dir, name)
    }
}

/// The artifact reconstructed from a read class file: the class hash is
/// recomputed from the bytes that were read, never taken from the manifest.
pub open spec fn artifact_of_file(f: ClassFileView) -> CompiledArtifactView {
    CompiledArtifactView {
        class_hash: class_hash_of(f.data),
        contract_class: f.data,
        debug_info: f.debug,
    }
}

/// The artifact pairs a read reconstructs for the contract list; fails with
/// the qualified path whose class file is missing.
pub open spec fn pairs_for_read_contracts(
    cs: Seq<crate::annotation::ContractAnnotationView>,
    files: Seq<ClassFileView>,
) -> Result<Seq<(Seq<char>, CompiledArtifactView)>, Seq<char>>
    decreases cs.len(),
{
    if cs.len() == 0 {
        Ok(Seq::empty())
    } else {
        match find_file(files, ResourceDir::Contracts, filename_of_tag(cs[0].tag)) {
            None => Err(cs[0].qualified_path),
            Some(f) => match pairs_for_read_contracts(cs.skip(1), files) {
                Ok(ps) => Ok(seq![(cs[0].qualified_path, artifact_of_file(f))] + ps),
                Err(p) => Err(p),
            },
        }
    }
}

/// The artifact pairs a read reconstructs for the model list.
pub open spec fn pairs_for_read_models(
    ms: Seq<crate::annotation::ModelAnnotationView>,
    files: Seq<ClassFileView>,
) -> Result<Seq<(Seq<char>, CompiledArtifactView)>, Seq<char>>
    decreases ms.len(),
{
    if ms.len() == 0 {
        Ok(Seq::empty())
    } else {
        match find_file(files, ResourceDir::Models, filename_of_tag(ms[0].tag)) {
            None => Err(ms[0].qualified_path),
            Some(f) => match pairs_for_read_models(ms.skip(1), files) {
                Ok(ps) => Ok(seq![(ms[0].qualified_path, artifact_of_file(f))] + ps),
                Err(p) => Err(p),
            },
        }
    }
}

/// The artifact pairs a read reconstructs for the event list.
pub open spec fn pairs_for_read_events(
    es: Seq<crate::annotation::EventAnnotationView>,
    files: Seq<ClassFileView>,
) -> Result<Seq<(Seq<char>, CompiledArtifactView)>, Seq<char>>
    decreases es.len(),
{
    if es.len() == 0 {
        Ok(Seq::empty())
    } else {
        match find_file(files, ResourceDir::Events, filename_of_tag(es[0].tag)) {
            None => Err(es[0].qualified_path),
            Some(f) => match pairs_for_read_events(es.skip(1), files) {
                Ok(ps) => Ok(seq![(es[0].qualified_path, artifact_of_file(f))] + ps),
                Err(p) => Err(p),
            },
        }
    }
}

/// The artifact pairs a read reconstructs for the generic contract list.
pub open spec fn pairs_for_read_sns(
    xs: Seq<crate::annotation::StarknetContractAnnotationView>,
    files: Seq<ClassFileView>,
) -> Result<Seq<(Seq<char>, CompiledArtifactView)>, Seq<char>>
    decreases xs.len(),
{
    if xs.len() == 0 {
        Ok(Seq::empty())
    } else {
        match find_file(files, ResourceDir::Root, replace_sep(xs[0].qualified_path)) {
            None => Err(xs[0].qualified_path),
            Some(f) => match pairs_for_read_sns(xs.skip(1), files) {
                Ok(ps) => Ok(seq![(xs[0].qualified_path, artifact_of_file(f))] + ps),
                Err(p) => Err(p),
            },
        }
    }
}

/// All artifact pairs one read reconstructs: the two singletons first, then
/// the four lists, in write order.
pub open spec fn read_pairs_spec(v: DojoAnnotationView, files: Seq<ClassFileView>) -> Result<
    Seq<(Seq<char>, CompiledArtifactView)>,
    Seq<char>,
> {
    match find_file(files, ResourceDir::Root, crate::world_contract_tag_spec()) {
        None => Err(v.world.qualified_path),
        Some(wf) => match find_file(files, ResourceDir::Root, crate::base_contract_tag_spec()) {
            None => Err(v.base.qualified_path),
            Some(bf) => match (
                pairs_for_read_contracts(v.contracts, files),
                pairs_for_read_models(v.models, files),
                pairs_for_read_events(v.events, files),
                pairs_for_read_sns(v.sn_contracts, files),
            ) {
                (Ok(pc), Ok(pm), Ok(pe), Ok(px)) => Ok(
                    seq![
                        (v.world.qualified_path, artifact_of_file(wf)),
                        (v.base.qualified_path, artifact_of_file(bf)),
                    ] + pc + pm + pe + px,
                ),
                (Err(p), _, _, _) => Err(p),
                (_, Err(p), _, _) => Err(p),
                (_, _, Err(p), _) => Err(p),
                (_, _, _, Err(p)) => Err(p),
            },
        },
    }
}

/// The artifact map obtained by inserting `ps` into `m0` in order.
pub open spec fn pairs_map_from(
    m0: Map<Seq<char>, CompiledArtifactView>,
    ps: Seq<(Seq<char>, CompiledArtifactView)>,
) -> Map<Seq<char>, CompiledArtifactView>
    decreases ps.len(),
{
    if ps.len() == 0 {
        m0
    } else {
        pairs_map_from(m0, ps.drop_last()).insert(ps.last().0, ps.last().1)
    }
}

/// Inserting a concatenation is inserting one part after the other.
pub proof fn lemma_pairs_map_from_append(
    m0: Map<Seq<char>, CompiledArtifactView>,
    a: Seq<(Seq<char>, CompiledArtifactView)>,
    b: Seq<(Seq<char>, CompiledArtifactView)>,
)
    ensures
        pairs_map_from(m0, a + b) == pairs_map_from(pairs_map_from(m0, a), b),
    decreases b.len(),
{
    if b.len() == 0 {
        assert(a + b =~= a);
    } else {
        lemma_pairs_map_from_append(m0, a, b.drop_last());
        assert((a + b).drop_last() =~= a + b.drop_last());
        assert((a + b).last() == b.last());
    }
}

/// Error raised by a read of a persisted registry.
#[derive(Debug)]
pub enum ReadError {
    /// The manifest text is not a well-formed manifest.
    MalformedManifest,
    /// The class file of an annotated resource is missing.
    MissingClassFile { qualified_path: String },
}

impl ReadError {
    /// A user-facing description of the error.
    pub fn message(&self) -> (r: String)
        ensures
            match self {
                ReadError::MalformedManifest => r@ == "malformed annotations manifest"@,
                ReadError::MissingClassFile { qualified_path } => r@
                    == "missing class file for qualified path "@ + qualified_path@,
            },
    {
        match self {
            ReadError::MalformedManifest => String::from_str("malformed annotations manifest"),
            ReadError::MissingClassFile { qualified_path } => {
                let mut m = String::from_str("missing class file for qualified path ");
                m.append(qualified_path.as_str());
                proof {
                    assert(m@ =~= "missing class file for qualified path "@ + qualified_path@);
                }
                m
            },
        }
    }
}

/// Finds the first file under `dir` with name `name`.
fn find_class_file<'a>(files: &'a Vec<ClassFile>, dir: ResourceDir, name: &str) -> (r: Option<
    &'a ClassFile,
>)
    ensures
        match find_file(files@.map_values(|f: ClassFile| f@), dir, name@) {
            Some(fv) => r is Some && r->0@ == fv,
            None => r is None,
        },
{
    let ghost fv = files@.map_values(|f: ClassFile| f@);
    let mut i: usize = 0;
    proof {
        assert(fv.skip(0) =~= fv);
    }
    while i < files.len()
        invariant
            fv == files@.map_values(|f: ClassFile| f@),
            i <= files@.len(),
            find_file(fv, dir, name@) == find_file(fv.skip(i as int), dir, name@),
        decreases files@.len() - i,
    {
        proof {
            assert(fv.skip(i as int)[0] == fv[i as int]);
            assert(fv.skip(i as int).skip(1) =~= fv.skip(i + 1));
        }
        let f = &files[i];
        if f.dir == dir && str_eq(f.name.as_str(), name) {
            return Some(f);
        }
        i = i + 1;
    }
    None
}

/// Reconstructs the artifact of one read class file, recomputing its class
/// hash from the read bytes.
fn artifact_from_file(f: &ClassFile) -> (r: CompiledArtifact)
    ensures
        r@ == artifact_of_file(f@),
{
    let hash = compute_class_hash_of_contract_class(&f.data);
    CompiledArtifact {
        class_hash: hash,
        contract_class: copy_bytes(&f.data),
        debug_info: copy_debug(&f.debug),
    }
}

/// Reads back the artifacts of the contract list.
fn read_contract_files(
    mgr: &mut ArtifactManager,
    cs: &Vec<crate::annotation::ContractAnnotation>,
    files: &Vec<ClassFile>,
) -> (r: Result<(), ReadError>)
    ensures
        match pairs_for_read_contracts(
            cs@.map_values(|a: crate::annotation::ContractAnnotation| a@),
            files@.map_values(|f: ClassFile| f@),
        ) {
            Ok(ps) => r is Ok && final(mgr).artifacts() == pairs_map_from(
                old(mgr).artifacts(),
                ps,
            ) && final(mgr).annotation() == old(mgr).annotation(),
            Err(p) => r is Err && (r->Err_0 matches ReadError::MissingClassFile {
                qualified_path,
            } && qualified_path@ == p),
        },
{
    let ghost vcs = cs@.map_values(|a: crate::annotation::ContractAnnotation| a@);
    let ghost fv = files@.map_values(|f: ClassFile| f@);
    let ghost mut acc: Seq<(Seq<char>, CompiledArtifactView)> = Seq::empty();
    let mut i: usize = 0;
    proof {
        assert(vcs.skip(0) =~= vcs);
    }
    while i < cs.len()
        invariant
            vcs == cs@.map_values(|a: crate::annotation::ContractAnnotation| a@),
            fv == files@.map_values(|f: ClassFile| f@),
            i <= cs@.len(),
            mgr.artifacts() == pairs_map_from(old(mgr).artifacts(), acc),
            mgr.annotation() == old(mgr).annotation(),
            match pairs_for_read_contracts(vcs.skip(i as int), fv) {
                Ok(ps) => pairs_for_read_contracts(vcs, fv) == Ok::<
                    Seq<(Seq<char>, CompiledArtifactView)>,
                    Seq<char>,
                >(acc + ps),
                Err(p) => pairs_for_read_contracts(vcs, fv) == Err::<
                    Seq<(Seq<char>, CompiledArtifactView)>,
                    Seq<char>,
                >(p),
            },
        decreases cs@.len() - i,
    {
        proof {
            assert(vcs.skip(i as int)[0] == vcs[i as int]);
            assert(vcs.skip(i as int).skip(1) =~= vcs.skip(i + 1));
        }
        let a = &cs[i];
        let fname = a.filename();
        match find_class_file(files, ResourceDir::Contracts, fname.as_str()) {
            None => {
                return Err(ReadError::MissingClassFile { qualified_path: a.qualified_path.clone() });
            },
            Some(f) => {
                let art = artifact_from_file(f);
                let ghost pair = (vcs[i as int].qualified_path, art@);
                mgr.add_artifact(a.qualified_path.clone(), art);
                proof {
                    assert(acc.push(pair).drop_last() =~= acc);
                    acc = acc.push(pair);
                    match pairs_for_read_contracts(vcs.skip(i + 1), fv) {
                        Ok(ps2) => {
                            assert(acc.drop_last() + (seq![pair] + ps2) =~= acc + ps2);
                        },
                        Err(_) => {},
                    }
                }
            },
        }
        i = i + 1;
    }
    proof {
        assert(acc + Seq::<(Seq<char>, CompiledArtifactView)>::empty() =~= acc);
    }
    Ok(())
}

/// Reads back the artifacts of the model list.
fn read_model_files(
    mgr: &mut ArtifactManager,
    ms: &Vec<crate::annotation::ModelAnnotation>,
    files: &Vec<ClassFile>,
) -> (r: Result<(), ReadError>)
    ensures
        match pairs_for_read_models(
            ms@.map_values(|a: crate::annotation::ModelAnnotation| a@),
            files@.map_values(|f: ClassFile| f@),
        ) {
            Ok(ps) => r is Ok && final(mgr).artifacts() == pairs_map_from(
                old(mgr).artifacts(),
                ps,
            ) && final(mgr).annotation() == old(mgr).annotation(),
            Err(p) => r is Err && (r->Err_0 matches ReadError::MissingClassFile {
                qualified_path,
            } && qualified_path@ == p),
        },
{
    let ghost vms = ms@.map_values(|a: crate::annotation::ModelAnnotation| a@);
    let ghost fv = files@.map_values(|f: ClassFile| f@);
    let ghost mut acc: Seq<(Seq<char>, CompiledArtifactView)> = Seq::empty();
    let mut i: usize = 0;
    proof {
        assert(vms.skip(0) =~= vms);
    }
    while i < ms.len()
        invariant
            vms == ms@.map_values(|a: crate::annotation::ModelAnnotation| a@),
            fv == files@.map_values(|f: ClassFile| f@),
            i <= ms@.len(),
            mgr.artifacts() == pairs_map_from(old(mgr).artifacts(), acc),
            mgr.annotation() == old(mgr).annotation(),
            match pairs_for_read_models(vms.skip(i as int), fv) {
                Ok(ps) => pairs_for_read_models(vms, fv) == Ok::<
                    Seq<(Seq<char>, CompiledArtifactView)>,
                    Seq<char>,
                >(acc + ps),
                Err(p) => pairs_for_read_models(vms, fv) == Err::<
                    Seq<(Seq<char>, CompiledArtifactView)>,
                    Seq<char>,
                >(p),
            },
        decreases ms@.len() - i,
    {
        proof {
            assert(vms.skip(i as int)[0] == vms[i as int]);
            assert(vms.skip(i as int).skip(1) =~= vms.skip(i + 1));
        }
        let a = &ms[i];
        let fname = a.filename();
        match find_class_file(files, ResourceDir::Models, fname.as_str()) {
            None => {
                return Err(ReadError::MissingClassFile { qualified_path: a.qualified_path.clone() });
            },
            Some(f) => {
                let art = artifact_from_file(f);
                let ghost pair = (vms[i as int].qualified_path, art@);
                mgr.add_artifact(a.qualified_path.clone(), art);
                proof {
                    assert(acc.push(pair).drop_last() =~= acc);
                    acc = acc.push(pair);
                    match pairs_for_read_models(vms.skip(i + 1), fv) {
                        Ok(ps2) => {
                            assert(acc.drop_last() + (seq![pair] + ps2) =~= acc + ps2);
                        },
                        Err(_) => {},
                    }
                }
            },
        }
        i = i + 1;
    }
    proof {
        assert(acc + Seq::<(Seq<char>, CompiledArtifactView)>::empty() =~= acc);
    }
    Ok(())
}

/// Reads back the artifacts of the event list.
fn read_event_files(
    mgr: &mut ArtifactManager,
    es: &Vec<crate::annotation::EventAnnotation>,
    files: &Vec<ClassFile>,
) -> (r: Result<(), ReadError>)
    ensures
        match pairs_for_read_events(
            es@.map_values(|a: crate::annotation::EventAnnotation| a@),
            files@.map_values(|f: ClassFile| f@),
        ) {
            Ok(ps) => r is Ok && final(mgr).artifacts() == pairs_map_from(
                old(mgr).artifacts(),
                ps,
            ) && final(mgr).annotation() == old(mgr).annotation(),
            Err(p) => r is Err && (r->Err_0 matches ReadError::MissingClassFile {
                qualified_path,
            } && qualified_path@ == p),
        },
{
    let ghost ves = es@.map_values(|a: crate::annotation::EventAnnotation| a@);
    let ghost fv = files@.map_values(|f: ClassFile| f@);
    let ghost mut acc: Seq<(Seq<char>, CompiledArtifactView)> = Seq::empty();
    let mut i: usize = 0;
    proof {
        assert(ves.skip(0) =~= ves);
    }
    while i < es.len()
        invariant
            ves == es@.map_values(|a: crate::annotation::EventAnnotation| a@),
            fv == files@.map_values(|f: ClassFile| f@),
            i <= es@.len(),
            mgr.artifacts() == pairs_map_from(old(mgr).artifacts(), acc),
            mgr.annotation() == old(mgr).annotation(),
            match pairs_for_read_events(ves.skip(i as int), fv) {
                Ok(ps) => pairs_for_read_events(ves, fv) == Ok::<
                    Seq<(Seq<char>, CompiledArtifactView)>,
                    Seq<char>,
                >(acc + ps),
                Err(p) => pairs_for_read_events(ves, fv) == Err::<
                    Seq<(Seq<char>, CompiledArtifactView)>,
                    Seq<char>,
                >(p),
            },
        decreases es@.len() - i,
    {
        proof {
            assert(ves.skip(i as int)[0] == ves[i as int]);
            assert(ves.skip(i as int).skip(1) =~= ves.skip(i + 1));
        }
        let a = &es[i];
        let fname = a.filename();
        match find_class_file(files, ResourceDir::Events, fname.as_str()) {
            None => {
                return Err(ReadError::MissingClassFile { qualified_path: a.qualified_path.clone() });
            },
            Some(f) => {
                let art = artifact_from_file(f);
                let ghost pair = (ves[i as int].qualified_path, art@);
                mgr.add_artifact(a.qualified_path.clone(), art);
                proof {
                    assert(acc.push(pair).drop_last() =~= acc);
                    acc = acc.push(pair);
                    match pairs_for_read_events(ves.skip(i + 1), fv) {
                        Ok(ps2) => {
                            assert(acc.drop_last() + (seq![pair] + ps2) =~= acc + ps2);
                        },
                        Err(_) => {},
                    }
                }
            },
        }
        i = i + 1;
    }
    proof {
        assert(acc + Seq::<(Seq<char>, CompiledArtifactView)>::empty() =~= acc);
    }
    Ok(())
}

/// Reads back the artifacts of the generic contract list.
fn read_sn_files(
    mgr: &mut ArtifactManager,
    xs: &Vec<crate::annotation::StarknetContractAnnotation>,
    files: &Vec<ClassFile>,
) -> (r: Result<(), ReadError>)
    ensures
        match pairs_for_read_sns(
            xs@.map_values(|a: crate::annotation::StarknetContractAnnotation| a@),
            files@.map_values(|f: ClassFile| f@),
        ) {
            Ok(ps) => r is Ok && final(mgr).artifacts() == pairs_map_from(
                old(mgr).artifacts(),
                ps,
            ) && final(mgr).annotation() == old(mgr).annotation(),
            Err(p) => r is Err && (r->Err_0 matches ReadError::MissingClassFile {
                qualified_path,
            } && qualified_path@ == p),
        },
{
    let ghost vxs = xs@.map_values(|a: crate::annotation::StarknetContractAnnotation| a@);
    let ghost fv = files@.map_values(|f: ClassFile| f@);
    let ghost mut acc: Seq<(Seq<char>, CompiledArtifactView)> = Seq::empty();
    let mut i: usize = 0;
    proof {
        assert(vxs.skip(0) =~= vxs);
    }
    while i < xs.len()
        invariant
            vxs == xs@.map_values(|a: crate::annotation::StarknetContractAnnotation| a@),
            fv == files@.map_values(|f: ClassFile| f@),
            i <= xs@.len(),
            mgr.artifacts() == pairs_map_from(old(mgr).artifacts(), acc),
            mgr.annotation() == old(mgr).annotation(),
            match pairs_for_read_sns(vxs.skip(i as int), fv) {
                Ok(ps) => pairs_for_read_sns(vxs, fv) == Ok::<
                    Seq<(Seq<char>, CompiledArtifactView)>,
                    Seq<char>,
                >(acc + ps),
                Err(p) => pairs_for_read_sns(vxs, fv) == Err::<
                    Seq<(Seq<char>, CompiledArtifactView)>,
                    Seq<char>,
                >(p),
            },
        decreases xs@.len() - i,
    {
        proof {
            assert(vxs.skip(i as int)[0] == vxs[i as int]);
            assert(vxs.skip(i as int).skip(1) =~= vxs.skip(i + 1));
        }
        let a = &xs[i];
        let fname = a.filename();
        match find_class_file(files, ResourceDir::Root, fname.as_str()) {
            None => {
                return Err(ReadError::MissingClassFile { qualified_path: a.qualified_path.clone() });
            },
            Some(f) => {
                let art = artifact_from_file(f);
                let ghost pair = (vxs[i as int].qualified_path, art@);
                mgr.add_artifact(a.qualified_path.clone(), art);
                proof {
                    assert(acc.push(pair).drop_last() =~= acc);
                    acc = acc.push(pair);
                    match pairs_for_read_sns(vxs.skip(i + 1), fv) {
                        Ok(ps2) => {
                            assert(acc.drop_last() + (seq![pair] + ps2) =~= acc + ps2);
                        },
                        Err(_) => {},
                    }
                }
            },
        }
        i = i + 1;
    }
    proof {
        assert(acc + Seq::<(Seq<char>, CompiledArtifactView)>::empty() =~= acc);
    }
    Ok(())
}

impl ArtifactManager {
    /// Rebuilds a manager from a persisted registry: the manifest text and
    /// the class files that were read back. The manifest must be
    /// well-formed; every annotated resource, the two singletons included,
    /// must have its class file, and its class hash is recomputed from the
    /// file's bytes.
    pub fn read(manifest_text: &str, files: &Vec<ClassFile>) -> (r: Result<
        ArtifactManager,
        ReadError,
    >)
        ensures
            match parse_manifest(manifest_text@) {
                Some((v, n)) => if n == manifest_text@.len() {
                    match read_pairs_spec(v, files@.map_values(|f: ClassFile| f@)) {
                        Ok(ps) => r is Ok && r->Ok_0.annotation() == v && r->Ok_0.artifacts()
                            == pairs_map_from(
                            Map::<Seq<char>, CompiledArtifactView>::empty(),
                            ps,
                        ),
                        Err(p) => r is Err && (r->Err_0
                            matches ReadError::MissingClassFile { qualified_path }
                            && qualified_path@ == p),
                    }
                } else {
                    r is Err && r->Err_0 is MalformedManifest
                },
                None => r is Err && r->Err_0 is MalformedManifest,
            },
    {
        let ghost fv = files@.map_values(|f: ClassFile| f@);
        let ann = match decode_manifest(manifest_text) {
            Some(a) => a,
            None => {
                return Err(ReadError::MalformedManifest);
            },
        };
        let mut mgr = ArtifactManager::new();
        let wfname = ann.world.filename();
        let wf = match find_class_file(files, ResourceDir::Root, wfname.as_str()) {
            None => {
                return Err(
                    ReadError::MissingClassFile {
                        qualified_path: ann.world.qualified_path.clone(),
                    },
                );
            },
            Some(f) => f,
        };
        let wart = artifact_from_file(wf);
        let ghost wpair = (ann.world.qualified_path@, wart@);
        mgr.add_artifact(ann.world.qualified_path.clone(), wart);
        proof {
            let ghost m0 = Map::<Seq<char>, CompiledArtifactView>::empty();
            assert(seq![wpair].drop_last() =~= Seq::<(Seq<char>, CompiledArtifactView)>::empty());
            assert(seq![wpair].last() == wpair);
            assert(pairs_map_from(m0, seq![wpair].drop_last()) == m0);
            assert(mgr.artifacts() == pairs_map_from(m0, seq![wpair]));
        }
        let bfname = String::from_str(crate::base_contract_tag());
        let bf = match find_class_file(files, ResourceDir::Root, bfname.as_str()) {
            None => {
                return Err(
                    ReadError::MissingClassFile { qualified_path: ann.base.qualified_path.clone() },
                );
            },
            Some(f) => f,
        };
        let bart = artifact_from_file(bf);
        let ghost bpair = (ann.base.qualified_path@, bart@);
        mgr.add_artifact(ann.base.qualified_path.clone(), bart);
        proof {
            let ghost m0 = Map::<Seq<char>, CompiledArtifactView>::empty();
            assert(seq![wpair, bpair].drop_last() =~= seq![wpair]);
            assert(seq![wpair, bpair].last() == bpair);
            assert(mgr.artifacts() == pairs_map_from(m0, seq![wpair, bpair]));
        }
        match read_contract_files(&mut mgr, &ann.contracts, files) {
            Ok(()) => {},
            Err(e) => {
                return Err(e);
            },
        }
        match read_model_files(&mut mgr, &ann.models, files) {
            Ok(()) => {},
            Err(e) => {
                return Err(e);
            },
        }
        match read_event_files(&mut mgr, &ann.events, files) {
            Ok(()) => {},
            Err(e) => {
                return Err(e);
            },
        }
        match read_sn_files(&mut mgr, &ann.sn_contracts, files) {
            Ok(()) => {},
            Err(e) => {
                return Err(e);
            },
        }
        proof {
            let v = parse_manifest(manifest_text@)->Some_0.0;
            let pc = pairs_for_read_contracts(v.contracts, fv)->Ok_0;
            let pm = pairs_for_read_models(v.models, fv)->Ok_0;
            let pe = pairs_for_read_events(v.events, fv)->Ok_0;
            let px = pairs_for_read_sns(v.sn_contracts, fv)->Ok_0;
            let m0 = Map::<Seq<char>, CompiledArtifactView>::empty();
            lemma_pairs_map_from_append(m0, seq![wpair, bpair], pc);
            lemma_pairs_map_from_append(m0, seq![wpair, bpair] + pc, pm);
            lemma_pairs_map_from_append(m0, seq![wpair, bpair] + pc + pm, pe);
            lemma_pairs_map_from_append(m0, seq![wpair, bpair] + pc + pm + pe, px);
            assert(seq![wpair, bpair] + pc + pm + pe + px =~= (seq![wpair, bpair] + pc + pm + pe)
                + px);
            assert(seq![wpair, bpair] + pc + pm + pe =~= (seq![wpair, bpair] + pc + pm) + pe);
            assert(seq![wpair, bpair] + pc + pm =~= (seq![wpair, bpair] + pc) + pm);
        }
        mgr.set_dojo_annotation(ann);
        Ok(mgr)
    }
}


/// No two resources of the annotation set persist under the same file name
/// in the same directory. Tags are unique per kind, the generic contracts'
/// path-derived names are unique, and no generic contract shadows the root
/// file of either singleton.
pub open spec fn distinct_filenames(v: DojoAnnotationView) -> bool {
    &&& forall|i: int, j: int|
        0 <= i < j < v.contracts.len() ==> filename_of_tag(
            (#[trigger] v.contracts[i]).tag,
        ) != filename_of_tag((#[trigger] v.contracts[j]).tag)
    &&& forall|i: int, j: int|
        0 <= i < j < v.models.len() ==> filename_of_tag((#[trigger] v.models[i]).tag)
            != filename_of_tag((#[trigger] v.models[j]).tag)
    &&& forall|i: int, j: int|
        0 <= i < j < v.events.len() ==> filename_of_tag((#[trigger] v.events[i]).tag)
            != filename_of_tag((#[trigger] v.events[j]).tag)
    &&& forall|i: int, j: int|
        0 <= i < j < v.sn_contracts.len() ==> replace_sep(
            (#[trigger] v.sn_contracts[i]).qualified_path,
        ) != replace_sep((#[trigger] v.sn_contracts[j]).qualified_path)
    &&& forall|i: int|
        0 <= i < v.sn_contracts.len() ==> replace_sep(
            (#[trigger] v.sn_contracts[i]).qualified_path,
        ) != crate::world_contract_tag_spec()
    &&& forall|i: int|
        0 <= i < v.sn_contracts.len() ==> replace_sep(
            (#[trigger] v.sn_contracts[i]).qualified_path,
        ) != crate::base_contract_tag_spec()
}

/// Every registered artifact's class hash is the content hash of its own
/// class bytes. Registration through compilation establishes this, since
/// the hash is computed from the bytes being registered.
pub open spec fn hash_consistent(arts: Map<Seq<char>, CompiledArtifactView>) -> bool {
    forall|qp: Seq<char>|
        arts.contains_key(qp) ==> (#[trigger] arts.index(qp)).class_hash == class_hash_of(
            arts.index(qp).contract_class,
        )
}

proof fn lemma_files_for_contracts_elems(
    cs: Seq<crate::annotation::ContractAnnotationView>,
    arts: Map<Seq<char>, CompiledArtifactView>,
)
    requires
        files_for_contracts(cs, arts) is Ok,
    ensures
        files_for_contracts(cs, arts)->Ok_0.len() == cs.len(),
        forall|j: int|
            0 <= j < cs.len() ==> arts.contains_key((#[trigger] cs[j]).qualified_path)
                && files_for_contracts(cs, arts)->Ok_0[j] == file_for(
                ResourceDir::Contracts,
                filename_of_tag(cs[j].tag),
                cs[j].qualified_path,
                arts,
            ),
    decreases cs.len(),
{
    if cs.len() > 0 {
        lemma_files_for_contracts_elems(cs.skip(1), arts);
        let fs = files_for_contracts(cs, arts)->Ok_0;
        let rest = files_for_contracts(cs.skip(1), arts)->Ok_0;
        assert forall|j: int|
            0 <= j < cs.len() implies arts.contains_key((#[trigger] cs[j]).qualified_path) && fs[j]
            == file_for(
            ResourceDir::Contracts,
            filename_of_tag(cs[j].tag),
            cs[j].qualified_path,
            arts,
        ) by {
            if j > 0 {
                assert(cs.skip(1)[j - 1] == cs[j]);
                assert(fs[j] == rest[j - 1]);
            }
        }
    }
}

proof fn lemma_files_for_models_elems(
    ms: Seq<crate::annotation::ModelAnnotationView>,
    arts: Map<Seq<char>, CompiledArtifactView>,
)
    requires
        files_for_models(ms, arts) is Ok,
    ensures
        files_for_models(ms, arts)->Ok_0.len() == ms.len(),
        forall|j: int|
            0 <= j < ms.len() ==> arts.contains_key((#[trigger] ms[j]).qualified_path)
                && files_for_models(ms, arts)->Ok_0[j] == file_for(
                ResourceDir::Models,
                filename_of_tag(ms[j].tag),
                ms[j].qualified_path,
                arts,
            ),
    decreases ms.len(),
{
    if ms.len() > 0 {
        lemma_files_for_models_elems(ms.skip(1), arts);
        let fs = files_for_models(ms, arts)->Ok_0;
        let rest = files_for_models(ms.skip(1), arts)->Ok_0;
        assert forall|j: int|
            0 <= j < ms.len() implies arts.contains_key((#[trigger] ms[j]).qualified_path) && fs[j]
            == file_for(
            ResourceDir::Models,
            filename_of_tag(ms[j].tag),
            ms[j].qualified_path,
            arts,
        ) by {
            if j > 0 {
                assert(ms.skip(1)[j - 1] == ms[j]);
                assert(fs[j] == rest[j - 1]);
            }
        }
    }
}

proof fn lemma_files_for_events_elems(
    es: Seq<crate::annotation::EventAnnotationView>,
    arts: Map<Seq<char>, CompiledArtifactView>,
)
    requires
        files_for_events(es, arts) is Ok,
    ensures
        files_for_events(es, arts)->Ok_0.len() == es.len(),
        forall|j: int|
            0 <= j < es.len() ==> arts.contains_key((#[trigger] es[j]).qualified_path)
                && files_for_events(es, arts)->Ok_0[j] == file_for(
                ResourceDir::Events,
                filename_of_tag(es[j].tag),
                es[j].qualified_path,
                arts,
            ),
    decreases es.len(),
{
    if es.len() > 0 {
        lemma_files_for_events_elems(es.skip(1), arts);
        let fs = files_for_events(es, arts)->Ok_0;
        let rest = files_for_events(es.skip(1), arts)->Ok_0;
        assert forall|j: int|
            0 <= j < es.len() implies arts.contains_key((#[trigger] es[j]).qualified_path) && fs[j]
            == file_for(
            ResourceDir::Events,
            filename_of_tag(es[j].tag),
            es[j].qualified_path,
            arts,
        ) by {
            if j > 0 {
                assert(es.skip(1)[j - 1] == es[j]);
                assert(fs[j] == rest[j - 1]);
            }
        }
    }
}

proof fn lemma_files_for_sns_elems(
    xs: Seq<crate::annotation::StarknetContractAnnotationView>,
    arts: Map<Seq<char>, CompiledArtifactView>,
)
    requires
        files_for_sns(xs, arts) is Ok,
    ensures
        files_for_sns(xs, arts)->Ok_0.len() == xs.len(),
        forall|j: int|
            0 <= j < xs.len() ==> arts.contains_key((#[trigger] xs[j]).qualified_path)
                && files_for_sns(xs, arts)->Ok_0[j] == file_for(
                ResourceDir::Root,
                replace_sep(xs[j].qualified_path),
                xs[j].qualified_path,
                arts,
            ),
    decreases xs.len(),
{
    if xs.len() > 0 {
        lemma_files_for_sns_elems(xs.skip(1), arts);
        let fs = files_for_sns(xs, arts)->Ok_0;
        let rest = files_for_sns(xs.skip(1), arts)->Ok_0;
        assert forall|j: int|
            0 <= j < xs.len() implies arts.contains_key((#[trigger] xs[j]).qualified_path) && fs[j]
            == file_for(
            ResourceDir::Root,
            replace_sep(xs[j].qualified_path),
            xs[j].qualified_path,
            arts,
        ) by {
            if j > 0 {
                assert(xs.skip(1)[j - 1] == xs[j]);
                assert(fs[j] == rest[j - 1]);
            }
        }
    }
}

/// When nothing in `a` matches, searching the concatenation searches `b`.
proof fn lemma_find_file_skip_prefix(
    a: Seq<ClassFileView>,
    b: Seq<ClassFileView>,
    dir: ResourceDir,
    name: Seq<char>,
)
    requires
        forall|j: int|
            0 <= j < a.len() ==> !((#[trigger] a[j]).dir == dir && a[j].name == name),
    ensures
        find_file(a + b, dir, name) == find_file(b, dir, name),
    decreases a.len(),
{
    if a.len() == 0 {
        assert(a + b =~= b);
    } else {
        assert((a + b)[0] == a[0]);
        assert((a + b).skip(1) =~= a.skip(1) + b);
        assert(forall|j: int|
            0 <= j < a.skip(1).len() ==> !((#[trigger] a.skip(1)[j]).dir == dir && a.skip(
                1,
            )[j].name == name));
        lemma_find_file_skip_prefix(a.skip(1), b, dir, name);
    }
}

/// The first matching position determines the search result.
proof fn lemma_find_file_first(a: Seq<ClassFileView>, dir: ResourceDir, name: Seq<char>, k: int)
    requires
        0 <= k < a.len(),
        a[k].dir == dir && a[k].name == name,
        forall|j: int| 0 <= j < k ==> !((#[trigger] a[j]).dir == dir && a[j].name == name),
    ensures
        find_file(a, dir, name) == Some(a[k]),
    decreases k,
{
    if k > 0 {
        assert(a.skip(1)[k - 1] == a[k]);
        assert(forall|j: int|
            0 <= j < k - 1 ==> !((#[trigger] a.skip(1)[j]).dir == dir && a.skip(1)[j].name
                == name));
        lemma_find_file_first(a.skip(1), dir, name, k - 1);
    }
}

proof fn lemma_pairs_contracts_of_write(
    cs: Seq<crate::annotation::ContractAnnotationView>,
    fs: Seq<ClassFileView>,
    arts: Map<Seq<char>, CompiledArtifactView>,
)
    requires
        hash_consistent(arts),
        forall|k: int|
            0 <= k < cs.len() ==> arts.contains_key((#[trigger] cs[k]).qualified_path) && find_file(
                fs,
                ResourceDir::Contracts,
                filename_of_tag(cs[k].tag),
            ) == Some(
                file_for(
                    ResourceDir::Contracts,
                    filename_of_tag(cs[k].tag),
                    cs[k].qualified_path,
                    arts,
                ),
            ),
    ensures
        pairs_for_read_contracts(cs, fs) == Ok::<Seq<(Seq<char>, CompiledArtifactView)>, Seq<char>>(
            cs.map_values(
                |c: crate::annotation::ContractAnnotationView|
                    (c.qualified_path, arts.index(c.qualified_path)),
            ),
        ),
    decreases cs.len(),
{
    let f = |c: crate::annotation::ContractAnnotationView|
        (c.qualified_path, arts.index(c.qualified_path));
    if cs.len() == 0 {
        assert(cs.map_values(f) =~= Seq::<(Seq<char>, CompiledArtifactView)>::empty());
    } else {
        let qp0 = cs[0].qualified_path;
        let file0 = file_for(ResourceDir::Contracts, filename_of_tag(cs[0].tag), qp0, arts);
        assert(artifact_of_file(file0) == arts.index(qp0)) by {
            assert(arts.index(qp0).class_hash == class_hash_of(arts.index(qp0).contract_class));
            assert((CompiledArtifactView {
                class_hash: arts.index(qp0).class_hash,
                contract_class: arts.index(qp0).contract_class,
                debug_info: arts.index(qp0).debug_info,
            }) == arts.index(qp0));
        }
        assert(forall|k: int| 0 <= k < cs.skip(1).len() ==> (#[trigger] cs.skip(1)[k]) == cs[k
            + 1]);
        lemma_pairs_contracts_of_write(cs.skip(1), fs, arts);
        assert(cs.map_values(f) =~= seq![f(cs[0])] + cs.skip(1).map_values(f));
    }
}

proof fn lemma_pairs_models_of_write(
    ms: Seq<crate::annotation::ModelAnnotationView>,
    fs: Seq<ClassFileView>,
    arts: Map<Seq<char>, CompiledArtifactView>,
)
    requires
        hash_consistent(arts),
        forall|k: int|
            0 <= k < ms.len() ==> arts.contains_key((#[trigger] ms[k]).qualified_path) && find_file(
                fs,
                ResourceDir::Models,
                filename_of_tag(ms[k].tag),
            ) == Some(
                file_for(
                    ResourceDir::Models,
                    filename_of_tag(ms[k].tag),
                    ms[k].qualified_path,
                    arts,
                ),
            ),
    ensures
        pairs_for_read_models(ms, fs) == Ok::<Seq<(Seq<char>, CompiledArtifactView)>, Seq<char>>(
            ms.map_values(
                |m: crate::annotation::ModelAnnotationView|
                    (m.qualified_path, arts.index(m.qualified_path)),
            ),
        ),
    decreases ms.len(),
{
    let f = |m: crate::annotation::ModelAnnotationView|
        (m.qualified_path, arts.index(m.qualified_path));
    if ms.len() == 0 {
        assert(ms.map_values(f) =~= Seq::<(Seq<char>, CompiledArtifactView)>::empty());
    } else {
        let qp0 = ms[0].qualified_path;
        let file0 = file_for(ResourceDir::Models, filename_of_tag(ms[0].tag), qp0, arts);
        assert(artifact_of_file(file0) == arts.index(qp0)) by {
            assert(arts.index(qp0).class_hash == class_hash_of(arts.index(qp0).contract_class));
            assert((CompiledArtifactView {
                class_hash: arts.index(qp0).class_hash,
                contract_class: arts.index(qp0).contract_class,
                debug_info: arts.index(qp0).debug_info,
            }) == arts.index(qp0));
        }
        assert(forall|k: int| 0 <= k < ms.skip(1).len() ==> (#[trigger] ms.skip(1)[k]) == ms[k
            + 1]);
        lemma_pairs_models_of_write(ms.skip(1), fs, arts);
        assert(ms.map_values(f) =~= seq![f(ms[0])] + ms.skip(1).map_values(f));
    }
}

proof fn lemma_pairs_events_of_write(
    es: Seq<crate::annotation::EventAnnotationView>,
    fs: Seq<ClassFileView>,
    arts: Map<Seq<char>, CompiledArtifactView>,
)
    requires
        hash_consistent(arts),
        forall|k: int|
            0 <= k < es.len() ==> arts.contains_key((#[trigger] es[k]).qualified_path) && find_file(
                fs,
                ResourceDir::Events,
                filename_of_tag(es[k].tag),
            ) == Some(
                file_for(
                    ResourceDir::Events,
                    filename_of_tag(es[k].tag),
                    es[k].qualified_path,
                    arts,
                ),
            ),
    ensures
        pairs_for_read_events(es, fs) == Ok::<Seq<(Seq<char>, CompiledArtifactView)>, Seq<char>>(
            es.map_values(
                |e: crate::annotation::EventAnnotationView|
                    (e.qualified_path, arts.index(e.qualified_path)),
            ),
        ),
    decreases es.len(),
{
    let f = |e: crate::annotation::EventAnnotationView|
        (e.qualified_path, arts.index(e.qualified_path));
    if es.len() == 0 {
        assert(es.map_values(f) =~= Seq::<(Seq<char>, CompiledArtifactView)>::empty());
    } else {
        let qp0 = es[0].qualified_path;
        let file0 = file_for(ResourceDir::Events, filename_of_tag(es[0].tag), qp0, arts);
        assert(artifact_of_file(file0) == arts.index(qp0)) by {
            assert(arts.index(qp0).class_hash == class_hash_of(arts.index(qp0).contract_class));
            assert((CompiledArtifactView {
                class_hash: arts.index(qp0).class_hash,
                contract_class: arts.index(qp0).contract_class,
                debug_info: arts.index(qp0).debug_info,
            }) == arts.index(qp0));
        }
        assert(forall|k: int| 0 <= k < es.skip(1).len() ==> (#[trigger] es.skip(1)[k]) == es[k
            + 1]);
        lemma_pairs_events_of_write(es.skip(1), fs, arts);
        assert(es.map_values(f) =~= seq![f(es[0])] + es.skip(1).map_values(f));
    }
}

proof fn lemma_pairs_sns_of_write(
    xs: Seq<crate::annotation::StarknetContractAnnotationView>,
    fs: Seq<ClassFileView>,
    arts: Map<Seq<char>, CompiledArtifactView>,
)
    requires
        hash_consistent(arts),
        forall|k: int|
            0 <= k < xs.len() ==> arts.contains_key((#[trigger] xs[k]).qualified_path) && find_file(
                fs,
                ResourceDir::Root,
                replace_sep(xs[k].qualified_path),
            ) == Some(
                file_for(
                    ResourceDir::Root,
                    replace_sep(xs[k].qualified_path),
                    xs[k].qualified_path,
                    arts,
                ),
            ),
    ensures
        pairs_for_read_sns(xs, fs) == Ok::<Seq<(Seq<char>, CompiledArtifactView)>, Seq<char>>(
            xs.map_values(
                |x: crate::annotation::StarknetContractAnnotationView|
                    (x.qualified_path, arts.index(x.qualified_path)),
            ),
        ),
    decreases xs.len(),
{
    let f = |x: crate::annotation::StarknetContractAnnotationView|
        (x.qualified_path, arts.index(x.qualified_path));
    if xs.len() == 0 {
        assert(xs.map_values(f) =~= Seq::<(Seq<char>, CompiledArtifactView)>::empty());
    } else {
        let qp0 = xs[0].qualified_path;
        let file0 = file_for(ResourceDir::Root, replace_sep(qp0), qp0, arts);
        assert(artifact_of_file(file0) == arts.index(qp0)) by {
            assert(arts.index(qp0).class_hash == class_hash_of(arts.index(qp0).contract_class));
            assert((CompiledArtifactView {
                class_hash: arts.index(qp0).class_hash,
                contract_class: arts.index(qp0).contract_class,
                debug_info: arts.index(qp0).debug_info,
            }) == arts.index(qp0));
        }
        assert(forall|k: int| 0 <= k < xs.skip(1).len() ==> (#[trigger] xs.skip(1)[k]) == xs[k
            + 1]);
        lemma_pairs_sns_of_write(xs.skip(1), fs, arts);
        assert(xs.map_values(f) =~= seq![f(xs[0])] + xs.skip(1).map_values(f));
    }
}

/// A map built from pairs whose value always is the artifact registered
/// under the pair's own key agrees with the registry on every key it holds.
proof fn lemma_pairs_map_consistent(
    ps: Seq<(Seq<char>, CompiledArtifactView)>,
    arts: Map<Seq<char>, CompiledArtifactView>,
)
    requires
        forall|k: int|
            0 <= k < ps.len() ==> arts.contains_key((#[trigger] ps[k]).0) && ps[k].1 == arts.index(
                ps[k].0,
            ),
    ensures
        forall|k: int|
            0 <= k < ps.len() ==> pairs_map_from(
                Map::<Seq<char>, CompiledArtifactView>::empty(),
                ps,
            ).contains_key((#[trigger] ps[k]).0) && pairs_map_from(
                Map::<Seq<char>, CompiledArtifactView>::empty(),
                ps,
            ).index(ps[k].0) == arts.index(ps[k].0),
    decreases ps.len(),
{
    if ps.len() > 0 {
        assert(forall|k: int| 0 <= k < ps.drop_last().len() ==> (#[trigger] ps.drop_last()[k])
            == ps[k]);
        lemma_pairs_map_consistent(ps.drop_last(), arts);
        let m0 = Map::<Seq<char>, CompiledArtifactView>::empty();
        let m = pairs_map_from(m0, ps);
        let mp = pairs_map_from(m0, ps.drop_last());
        assert(m == mp.insert(ps.last().0, ps.last().1));
        assert forall|k: int| 0 <= k < ps.len() implies m.contains_key((#[trigger] ps[k]).0)
            && m.index(ps[k].0) == arts.index(ps[k].0) by {
            if k == ps.len() - 1 {
                assert(ps.last() == ps[k]);
            } else {
                assert(ps.drop_last()[k] == ps[k]);
                assert(mp.contains_key(ps[k].0) && mp.index(ps[k].0) == arts.index(ps[k].0));
                if ps[k].0 == ps.last().0 {
                    assert(m.index(ps[k].0) == ps.last().1);
                    assert(ps.last().1 == arts.index(ps.last().0));
                } else {
                    assert(m.index(ps[k].0) == mp.index(ps[k].0));
                }
            }
        }
    }
}

/// The write/read round trip: writing a registry whose artifacts are
/// hash-consistent and whose file names do not collide, then reading the
/// manifest and the class files back, reproduces the annotation set exactly
/// and reproduces, for every annotated resource (the two singletons
/// included), the artifact it was written from, with the class hash
/// recomputed from the read bytes matching bit-for-bit.
#[verifier::rlimit(100)]
pub proof fn lemma_write_read_round_trip(
    v: DojoAnnotationView,
    arts: Map<Seq<char>, CompiledArtifactView>,
)
    requires
        write_files_spec(v, arts) is Ok,
        hash_consistent(arts),
        distinct_filenames(v),
    ensures
        parse_manifest(enc_manifest(v)) == Some((v, enc_manifest(v).len() as int)),
        read_pairs_spec(v, write_files_spec(v, arts)->Ok_0) is Ok,
        ({
            let m2 = pairs_map_from(
                Map::<Seq<char>, CompiledArtifactView>::empty(),
                read_pairs_spec(v, write_files_spec(v, arts)->Ok_0)->Ok_0,
            );
            &&& m2.contains_key(v.world.qualified_path)
            &&& m2.index(v.world.qualified_path) == arts.index(v.world.qualified_path)
            &&& m2.contains_key(v.base.qualified_path)
            &&& m2.index(v.base.qualified_path) == arts.index(v.base.qualified_path)
            &&& forall|k: int|
                0 <= k < v.contracts.len() ==> m2.contains_key(
                    (#[trigger] v.contracts[k]).qualified_path,
                ) && m2.index(v.contracts[k].qualified_path) == arts.index(
                    v.contracts[k].qualified_path,
                )
            &&& forall|k: int|
                0 <= k < v.models.len() ==> m2.contains_key(
                    (#[trigger] v.models[k]).qualified_path,
                ) && m2.index(v.models[k].qualified_path) == arts.index(
                    v.models[k].qualified_path,
                )
            &&& forall|k: int|
                0 <= k < v.events.len() ==> m2.contains_key(
                    (#[trigger] v.events[k]).qualified_path,
                ) && m2.index(v.events[k].qualified_path) == arts.index(
                    v.events[k].qualified_path,
                )
            &&& forall|k: int|
                0 <= k < v.sn_contracts.len() ==> m2.contains_key(
                    (#[trigger] v.sn_contracts[k]).qualified_path,
                ) && m2.index(v.sn_contracts[k].qualified_path) == arts.index(
                    v.sn_contracts[k].qualified_path,
                )
        }),
{
    crate::manifest::lemma_parse_enc_manifest(v);
    reveal_strlit("dojo-world");
    reveal_strlit("dojo-base");
    assert(crate::world_contract_tag_spec().len() == 10);
    assert(crate::base_contract_tag_spec().len() == 9);
    let fs = write_files_spec(v, arts)->Ok_0;
    let fc = files_for_contracts(v.contracts, arts)->Ok_0;
    let fm = files_for_models(v.models, arts)->Ok_0;
    let fe = files_for_events(v.events, arts)->Ok_0;
    let fx = files_for_sns(v.sn_contracts, arts)->Ok_0;
    let wfile = file_for(
        ResourceDir::Root,
        crate::world_contract_tag_spec(),
        v.world.qualified_path,
        arts,
    );
    let bfile = file_for(
        ResourceDir::Root,
        crate::base_contract_tag_spec(),
        v.base.qualified_path,
        arts,
    );
    lemma_files_for_contracts_elems(v.contracts, arts);
    lemma_files_for_models_elems(v.models, arts);
    lemma_files_for_events_elems(v.events, arts);
    lemma_files_for_sns_elems(v.sn_contracts, arts);
    assert(fs =~= seq![wfile, bfile] + fc + fm + fe + fx);

    // The singletons' class files are the first two root files.
    assert(fs[0] == wfile);
    lemma_find_file_first(fs, ResourceDir::Root, crate::world_contract_tag_spec(), 0);
    assert(fs[1] == bfile);
    assert forall|j: int| 0 <= j < 1 implies !((#[trigger] fs[j]).dir == ResourceDir::Root
        && fs[j].name == crate::base_contract_tag_spec()) by {
        assert(fs[0] == wfile);
    }
    lemma_find_file_first(fs, ResourceDir::Root, crate::base_contract_tag_spec(), 1);

    // Contract lookups resolve inside the contract block.
    assert forall|k: int| 0 <= k < v.contracts.len() implies arts.contains_key(
        (#[trigger] v.contracts[k]).qualified_path,
    ) && find_file(fs, ResourceDir::Contracts, filename_of_tag(v.contracts[k].tag)) == Some(
        file_for(
            ResourceDir::Contracts,
            filename_of_tag(v.contracts[k].tag),
            v.contracts[k].qualified_path,
            arts,
        ),
    ) by {
        let name = filename_of_tag(v.contracts[k].tag);
        let pre = seq![wfile, bfile];
        let tail = fc + fm + fe + fx;
        assert(fs =~= pre + tail);
        assert forall|j: int| 0 <= j < pre.len() implies !((#[trigger] pre[j]).dir
            == ResourceDir::Contracts && pre[j].name == name) by {
            if j == 0 {
                assert(pre[j] == wfile);
            } else {
                assert(pre[j] == bfile);
            }
        }
        lemma_find_file_skip_prefix(pre, tail, ResourceDir::Contracts, name);
        assert(tail[k] == fc[k]);
        assert forall|j: int| 0 <= j < k implies !((#[trigger] tail[j]).dir
            == ResourceDir::Contracts && tail[j].name == name) by {
            assert(tail[j] == fc[j]);
            assert(fc[j] == file_for(
                ResourceDir::Contracts,
                filename_of_tag(v.contracts[j].tag),
                v.contracts[j].qualified_path,
                arts,
            ));
            assert(filename_of_tag(v.contracts[j].tag) != filename_of_tag(v.contracts[k].tag));
        }
        lemma_find_file_first(tail, ResourceDir::Contracts, name, k);
    }

    // Model lookups skip the singleton files and the contract block.
    assert forall|k: int| 0 <= k < v.models.len() implies arts.contains_key(
        (#[trigger] v.models[k]).qualified_path,
    ) && find_file(fs, ResourceDir::Models, filename_of_tag(v.models[k].tag)) == Some(
        file_for(
            ResourceDir::Models,
            filename_of_tag(v.models[k].tag),
            v.models[k].qualified_path,
            arts,
        ),
    ) by {
        let name = filename_of_tag(v.models[k].tag);
        let pre = seq![wfile, bfile] + fc;
        let tail = fm + fe + fx;
        assert(fs =~= pre + tail);
        assert forall|j: int| 0 <= j < pre.len() implies !((#[trigger] pre[j]).dir
            == ResourceDir::Models && pre[j].name == name) by {
            if j == 0 {
                assert(pre[j] == wfile);
            } else if j == 1 {
                assert(pre[j] == bfile);
            } else {
                assert(pre[j] == fc[j - 2]);
                assert(fc[j - 2] == file_for(
                    ResourceDir::Contracts,
                    filename_of_tag(v.contracts[j - 2].tag),
                    v.contracts[j - 2].qualified_path,
                    arts,
                ));
            }
        }
        lemma_find_file_skip_prefix(pre, tail, ResourceDir::Models, name);
        assert(tail[k] == fm[k]);
        assert forall|j: int| 0 <= j < k implies !((#[trigger] tail[j]).dir == ResourceDir::Models
            && tail[j].name == name) by {
            assert(tail[j] == fm[j]);
            assert(fm[j] == file_for(
                ResourceDir::Models,
                filename_of_tag(v.models[j].tag),
                v.models[j].qualified_path,
                arts,
            ));
            assert(filename_of_tag(v.models[j].tag) != filename_of_tag(v.models[k].tag));
        }
        lemma_find_file_first(tail, ResourceDir::Models, name, k);
    }

    // Event lookups skip everything before the event block.
    assert forall|k: int| 0 <= k < v.events.len() implies arts.contains_key(
        (#[trigger] v.events[k]).qualified_path,
    ) && find_file(fs, ResourceDir::Events, filename_of_tag(v.events[k].tag)) == Some(
        file_for(
            ResourceDir::Events,
            filename_of_tag(v.events[k].tag),
            v.events[k].qualified_path,
            arts,
        ),
    ) by {
        let name = filename_of_tag(v.events[k].tag);
        let pre = seq![wfile, bfile] + fc + fm;
        let tail = fe + fx;
        assert(fs =~= pre + tail);
        assert forall|j: int| 0 <= j < pre.len() implies !((#[trigger] pre[j]).dir
            == ResourceDir::Events && pre[j].name == name) by {
            if j == 0 {
                assert(pre[j] == wfile);
            } else if j == 1 {
                assert(pre[j] == bfile);
            } else if j <= 1 + fc.len() {
                assert(pre[j] == fc[j - 2]);
                assert(fc[j - 2] == file_for(
                    ResourceDir::Contracts,
                    filename_of_tag(v.contracts[j - 2].tag),
                    v.contracts[j - 2].qualified_path,
                    arts,
                ));
            } else {
                assert(pre[j] == fm[j - 2 - fc.len()]);
                assert(fm[j - 2 - fc.len()] == file_for(
                    ResourceDir::Models,
                    filename_of_tag(v.models[j - 2 - fc.len()].tag),
                    v.models[j - 2 - fc.len()].qualified_path,
                    arts,
                ));
            }
        }
        lemma_find_file_skip_prefix(pre, tail, ResourceDir::Events, name);
        assert(tail[k] == fe[k]);
        assert forall|j: int| 0 <= j < k implies !((#[trigger] tail[j]).dir == ResourceDir::Events
            && tail[j].name == name) by {
            assert(tail[j] == fe[j]);
            assert(fe[j] == file_for(
                ResourceDir::Events,
                filename_of_tag(v.events[j].tag),
                v.events[j].qualified_path,
                arts,
            ));
            assert(filename_of_tag(v.events[j].tag) != filename_of_tag(v.events[k].tag));
        }
        lemma_find_file_first(tail, ResourceDir::Events, name, k);
    }

    // Generic contract lookups skip the typed blocks; the singleton files
    // share their directory but never their names.
    assert forall|k: int| 0 <= k < v.sn_contracts.len() implies arts.contains_key(
        (#[trigger] v.sn_contracts[k]).qualified_path,
    ) && find_file(fs, ResourceDir::Root, replace_sep(v.sn_contracts[k].qualified_path)) == Some(
        file_for(
            ResourceDir::Root,
            replace_sep(v.sn_contracts[k].qualified_path),
            v.sn_contracts[k].qualified_path,
            arts,
        ),
    ) by {
        let name = replace_sep(v.sn_contracts[k].qualified_path);
        let pre = seq![wfile, bfile] + fc + fm + fe;
        let tail = fx;
        assert(fs =~= pre + tail);
        assert forall|j: int| 0 <= j < pre.len() implies !((#[trigger] pre[j]).dir
            == ResourceDir::Root && pre[j].name == name) by {
            if j == 0 {
                assert(pre[j] == wfile);
                assert(replace_sep(v.sn_contracts[k].qualified_path)
                    != crate::world_contract_tag_spec());
                assert(wfile.name != name);
            } else if j == 1 {
                assert(pre[j] == bfile);
                assert(replace_sep(v.sn_contracts[k].qualified_path)
                    != crate::base_contract_tag_spec());
                assert(bfile.name != name);
            } else if j <= 1 + fc.len() {
                assert(pre[j] == fc[j - 2]);
                assert(fc[j - 2] == file_for(
                    ResourceDir::Contracts,
                    filename_of_tag(v.contracts[j - 2].tag),
                    v.contracts[j - 2].qualified_path,
                    arts,
                ));
            } else if j <= 1 + fc.len() + fm.len() {
                assert(pre[j] == fm[j - 2 - fc.len()]);
                assert(fm[j - 2 - fc.len()] == file_for(
                    ResourceDir::Models,
                    filename_of_tag(v.models[j - 2 - fc.len()].tag),
                    v.models[j - 2 - fc.len()].qualified_path,
                    arts,
                ));
            } else {
                assert(pre[j] == fe[j - 2 - fc.len() - fm.len()]);
                assert(fe[j - 2 - fc.len() - fm.len()] == file_for(
                    ResourceDir::Events,
                    filename_of_tag(v.events[j - 2 - fc.len() - fm.len()].tag),
                    v.events[j - 2 - fc.len() - fm.len()].qualified_path,
                    arts,
                ));
            }
        }
        lemma_find_file_skip_prefix(pre, tail, ResourceDir::Root, name);
        assert(tail[k] == fx[k]);
        assert forall|j: int| 0 <= j < k implies !((#[trigger] tail[j]).dir == ResourceDir::Root
            && tail[j].name == name) by {
            assert(tail[j] == fx[j]);
            assert(fx[j] == file_for(
                ResourceDir::Root,
                replace_sep(v.sn_contracts[j].qualified_path),
                v.sn_contracts[j].qualified_path,
                arts,
            ));
            assert(replace_sep(v.sn_contracts[j].qualified_path) != replace_sep(
                v.sn_contracts[k].qualified_path,
            ));
        }
        lemma_find_file_first(tail, ResourceDir::Root, name, k);
    }

    lemma_pairs_contracts_of_write(v.contracts, fs, arts);
    lemma_pairs_models_of_write(v.models, fs, arts);
    lemma_pairs_events_of_write(v.events, fs, arts);
    lemma_pairs_sns_of_write(v.sn_contracts, fs, arts);

    let wpair = (v.world.qualified_path, artifact_of_file(wfile));
    assert(artifact_of_file(wfile) == arts.index(v.world.qualified_path)) by {
        let qp = v.world.qualified_path;
        assert(arts.index(qp).class_hash == class_hash_of(arts.index(qp).contract_class));
        assert((CompiledArtifactView {
            class_hash: arts.index(qp).class_hash,
            contract_class: arts.index(qp).contract_class,
            debug_info: arts.index(qp).debug_info,
        }) == arts.index(qp));
    }
    let bpair = (v.base.qualified_path, artifact_of_file(bfile));
    assert(artifact_of_file(bfile) == arts.index(v.base.qualified_path)) by {
        let qp = v.base.qualified_path;
        assert(arts.index(qp).class_hash == class_hash_of(arts.index(qp).contract_class));
        assert((CompiledArtifactView {
            class_hash: arts.index(qp).class_hash,
            contract_class: arts.index(qp).contract_class,
            debug_info: arts.index(qp).debug_info,
        }) == arts.index(qp));
    }
    let pc = pairs_for_read_contracts(v.contracts, fs)->Ok_0;
    let pm = pairs_for_read_models(v.models, fs)->Ok_0;
    let pe = pairs_for_read_events(v.events, fs)->Ok_0;
    let px = pairs_for_read_sns(v.sn_contracts, fs)->Ok_0;
    let ps = read_pairs_spec(v, fs)->Ok_0;
    assert(ps =~= seq![wpair, bpair] + pc + pm + pe + px);
    assert forall|k: int| 0 <= k < ps.len() implies arts.contains_key((#[trigger] ps[k]).0)
        && ps[k].1 == arts.index(ps[k].0) by {
        if k == 0 {
            assert(ps[k] == wpair);
        } else if k == 1 {
            assert(ps[k] == bpair);
        } else if k <= 1 + pc.len() {
            assert(ps[k] == pc[k - 2]);
            assert(pc[k - 2] == (
                v.contracts[k - 2].qualified_path,
                arts.index(v.contracts[k - 2].qualified_path),
            ));
        } else if k <= 1 + pc.len() + pm.len() {
            let i = k - 2 - pc.len();
            assert(ps[k] == pm[i]);
            assert(pm[i] == (v.models[i].qualified_path, arts.index(v.models[i].qualified_path)));
        } else if k <= 1 + pc.len() + pm.len() + pe.len() {
            let i = k - 2 - pc.len() - pm.len();
            assert(ps[k] == pe[i]);
            assert(pe[i] == (v.events[i].qualified_path, arts.index(v.events[i].qualified_path)));
        } else {
            let i = k - 2 - pc.len() - pm.len() - pe.len();
            assert(ps[k] == px[i]);
            assert(px[i] == (
                v.sn_contracts[i].qualified_path,
                arts.index(v.sn_contracts[i].qualified_path),
            ));
        }
    }
    lemma_pairs_map_consistent(ps, arts);
    let m2 = pairs_map_from(Map::<Seq<char>, CompiledArtifactView>::empty(), ps);
    assert(ps[0] == wpair);
    assert(ps[1] == bpair);
    assert forall|k: int| 0 <= k < v.contracts.len() implies m2.contains_key(
        (#[trigger] v.contracts[k]).qualified_path,
    ) && m2.index(v.contracts[k].qualified_path) == arts.index(v.contracts[k].qualified_path) by {
        assert(ps[2 + k] == pc[k]);
        assert(pc[k] == (v.contracts[k].qualified_path, arts.index(v.contracts[k].qualified_path)));
    }
    assert forall|k: int| 0 <= k < v.models.len() implies m2.contains_key(
        (#[trigger] v.models[k]).qualified_path,
    ) && m2.index(v.models[k].qualified_path) == arts.index(v.models[k].qualified_path) by {
        assert(ps[2 + pc.len() + k] == pm[k]);
        assert(pm[k] == (v.models[k].qualified_path, arts.index(v.models[k].qualified_path)));
    }
    assert forall|k: int| 0 <= k < v.events.len() implies m2.contains_key(
        (#[trigger] v.events[k]).qualified_path,
    ) && m2.index(v.events[k].qualified_path) == arts.index(v.events[k].qualified_path) by {
        assert(ps[2 + pc.len() + pm.len() + k] == pe[k]);
        assert(pe[k] == (v.events[k].qualified_path, arts.index(v.events[k].qualified_path)));
    }
    assert forall|k: int| 0 <= k < v.sn_contracts.len() implies m2.contains_key(
        (#[trigger] v.sn_contracts[k]).qualified_path,
    ) && m2.index(v.sn_contracts[k].qualified_path) == arts.index(
        v.sn_contracts[k].qualified_path,
    ) by {
        assert(ps[2 + pc.len() + pm.len() + pe.len() + k] == px[k]);
        assert(px[k] == (
            v.sn_contracts[k].qualified_path,
            arts.index(v.sn_contracts[k].qualified_path),
        ));
    }
}


} // verus!

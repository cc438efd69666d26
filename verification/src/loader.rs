//! Startup loading: classification of configuration sources by dialect and
//! the sequenced bulk application of their contents (dataflow descriptions
//! first, declarative configuration second).

use vstd::prelude::*;
use crate::artefact::{ArtefactKind, ArtefactDefinition, DefV};
use crate::errors::{Error, ErrorV};
use crate::world::{World, WorldV, world_wf, publish_t, link_t};

verus! {

/// The dialect of a startup source file, recognized from its file name.
#[derive(Clone, Copy, PartialEq, Eq, Structural, Debug)]
pub enum SourceKind {
    /// A dataflow-description source (defines pipelines).
    Trickle,
    /// A script source; not valid as a startup artefact file.
    Tremor,
    /// A JSON source; not valid as a startup artefact file.
    Json,
    /// A declarative configuration source (may define any kind).
    Yaml,
    /// A dialect that could not be determined.
    Unsupported,
}

/// The path's bytes end in `.trickle`.
pub open spec fn is_trickle_path(p: Seq<u8>) -> bool {
    &&& p.len() >= 8
    &&& p[p.len() - 8] == 46u8
    &&& p[p.len() - 7] == 116u8
    &&& p[p.len() - 6] == 114u8
    &&& p[p.len() - 5] == 105u8
    &&& p[p.len() - 4] == 99u8
    &&& p[p.len() - 3] == 107u8
    &&& p[p.len() - 2] == 108u8
    &&& p[p.len() - 1] == 101u8
}

/// The path's bytes end in `.tremor`.
pub open spec fn is_tremor_path(p: Seq<u8>) -> bool {
    &&& p.len() >= 7
    &&& p[p.len() - 7] == 46u8
    &&& p[p.len() - 6] == 116u8
    &&& p[p.len() - 5] == 114u8
    &&& p[p.len() - 4] == 101u8
    &&& p[p.len() - 3] == 109u8
    &&& p[p.len() - 2] == 111u8
    &&& p[p.len() - 1] == 114u8
}

/// The path's bytes end in `.json`.
pub open spec fn is_json_path(p: Seq<u8>) -> bool {
    &&& p.len() >= 5
    &&& p[p.len() - 5] == 46u8
    &&& p[p.len() - 4] == 106u8
    &&& p[p.len() - 3] == 115u8
    &&& p[p.len() - 2] == 111u8
    &&& p[p.len() - 1] == 110u8
}

/// The path's bytes end in `.yaml`.
pub open spec fn is_yaml_path(p: Seq<u8>) -> bool {
    &&& p.len() >= 5
    &&& p[p.len() - 5] == 46u8
    &&& p[p.len() - 4] == 121u8
    &&& p[p.len() - 3] == 97u8
    &&& p[p.len() - 2] == 109u8
    &&& p[p.len() - 1] == 108u8
}

/// The path's bytes end in `.yml`.
pub open spec fn is_yml_path(p: Seq<u8>) -> bool {
    &&& p.len() >= 4
    &&& p[p.len() - 4] == 46u8
    &&& p[p.len() - 3] == 121u8
    &&& p[p.len() - 2] == 109u8
    &&& p[p.len() - 1] == 108u8
}

/// The dialect of a source, decided by the suffix of its path's bytes.
pub open spec fn kind_of_bytes(p: Seq<u8>) -> SourceKind {
    if is_trickle_path(p) {
        SourceKind::Trickle
    } else if is_tremor_path(p) {
        SourceKind::Tremor
    } else if is_json_path(p) {
        SourceKind::Json
    } else if is_yaml_path(p) || is_yml_path(p) {
        SourceKind::Yaml
    } else {
        SourceKind::Unsupported
    }
}

/// The dialect of a source, as a function of its path.
pub open spec fn kind_of_path(p: Seq<char>) -> SourceKind {
    kind_of_bytes(vstd::utf8::encode_utf8(p))
}

fn suffix_trickle(b: &[u8]) -> (r: bool)
    ensures
        r == is_trickle_path(b@),
{
    let n = b.len();
    n >= 8 && b[n - 8] == 46u8 && b[n - 7] == 116u8 && b[n - 6] == 114u8 && b[n - 5] == 105u8
        && b[n - 4] == 99u8 && b[n - 3] == 107u8 && b[n - 2] == 108u8 && b[n - 1] == 101u8
}

fn suffix_tremor(b: &[u8]) -> (r: bool)
    ensures
        r == is_tremor_path(b@),
{
    let n = b.len();
    n >= 7 && b[n - 7] == 46u8 && b[n - 6] == 116u8 && b[n - 5] == 114u8 && b[n - 4] == 101u8
        && b[n - 3] == 109u8 && b[n - 2] == 111u8 && b[n - 1] == 114u8
}

fn suffix_json(b: &[u8]) -> (r: bool)
    ensures
        r == is_json_path(b@),
{
    let n = b.len();
    n >= 5 && b[n - 5] == 46u8 && b[n - 4] == 106u8 && b[n - 3] == 115u8 && b[n - 2] == 111u8
        && b[n - 1] == 110u8
}

fn suffix_yaml(b: &[u8]) -> (r: bool)
    ensures
        r == is_yaml_path(b@),
{
    let n = b.len();
    n >= 5 && b[n - 5] == 46u8 && b[n - 4] == 121u8 && b[n - 3] == 97u8 && b[n - 2] == 109u8
        && b[n - 1] == 108u8
}

fn suffix_yml(b: &[u8]) -> (r: bool)
    ensures
        r == is_yml_path(b@),
{
    let n = b.len();
    n >= 4 && b[n - 4] == 46u8 && b[n - 3] == 121u8 && b[n - 2] == 109u8 && b[n - 1] == 108u8
}

/// Recognizes the dialect of a startup source from its file name.
pub fn source_kind(path: &str) -> (k: SourceKind)
    ensures
        k == kind_of_path(path@),
{
    let b = path.as_bytes();
    if suffix_trickle(b) {
        SourceKind::Trickle
    } else if suffix_tremor(b) {
        SourceKind::Tremor
    } else if suffix_json(b) {
        SourceKind::Json
    } else if suffix_yaml(b) || suffix_yml(b) {
        SourceKind::Yaml
    } else {
        SourceKind::Unsupported
    }
}

/// One decoded instruction carried by a startup source: publish an artefact,
/// or link an already published binding.
#[derive(Debug)]
pub enum ConfigItem {
    Publish { kind: ArtefactKind, id: String, def: ArtefactDefinition },
    Link { binding_id: String },
}

/// Mathematical view of a [`ConfigItem`].
#[verifier::ext_equal]
pub enum ItemV {
    Publish { kind: ArtefactKind, id: Seq<char>, def: DefV },
    Link { binding_id: Seq<char> },
}

impl View for ConfigItem {
    type V = ItemV;

    open spec fn view(&self) -> ItemV {
        match self {
            ConfigItem::Publish { kind, id, def } => ItemV::Publish {
                kind: *kind,
                id: id@,
                def: def@,
            },
            ConfigItem::Link { binding_id } => ItemV::Link { binding_id: binding_id@ },
        }
    }
}

impl DeepView for ConfigItem {
    type V = ItemV;

    open spec fn deep_view(&self) -> ItemV {
        self@
    }
}

/// One startup source: a file path and the instructions decoded from it.
/// Decoding the two dialects is the concern of an outer layer; the loader
/// receives sources already decoded and owes them the documented order.
#[derive(Debug)]
pub struct ConfigSource {
    pub path: String,
    pub items: Vec<ConfigItem>,
}

/// Mathematical view of a [`ConfigSource`].
#[verifier::ext_equal]
pub struct SourceV {
    pub path: Seq<char>,
    pub items: Seq<ItemV>,
}

impl View for ConfigSource {
    type V = SourceV;

    open spec fn view(&self) -> SourceV {
        SourceV { path: self.path@, items: self.items.deep_view() }
    }
}

impl DeepView for ConfigSource {
    type V = SourceV;

    open spec fn deep_view(&self) -> SourceV {
        self@
    }
}

/// Applying one dataflow-description source: every item must publish a
/// pipeline; the first refused item fails the source.
pub open spec fn trickle_items_t(w: WorldV, items: Seq<ItemV>, i: int) -> Result<WorldV, ()>
    decreases items.len() - i,
{
    if i >= items.len() {
        Ok(w)
    } else {
        match items[i] {
            ItemV::Publish { kind, id, def } => if kind == ArtefactKind::Pipeline {
                let (w2, r) = publish_t(w, kind, id, def);
                if r is Ok {
                    trickle_items_t(w2, items, i + 1)
                } else {
                    Err(())
                }
            } else {
                Err(())
            },
            ItemV::Link { .. } => Err(()),
        }
    }
}

/// Applying one declarative configuration source: publishes of any kind and
/// links of bindings; the first refused item fails the source.
pub open spec fn config_items_t(w: WorldV, items: Seq<ItemV>, i: int) -> Result<WorldV, ()>
    decreases items.len() - i,
{
    if i >= items.len() {
        Ok(w)
    } else {
        match items[i] {
            ItemV::Publish { kind, id, def } => {
                let (w2, r) = publish_t(w, kind, id, def);
                if r is Ok {
                    config_items_t(w2, items, i + 1)
                } else {
                    Err(())
                }
            },
            ItemV::Link { binding_id } => {
                let (w2, r) = link_t(w, binding_id);
                if r is Ok {
                    config_items_t(w2, items, i + 1)
                } else {
                    Err(())
                }
            },
        }
    }
}

/// A failed dataflow source carries its file path.
pub open spec fn apply_trickle_t(w: WorldV, src: SourceV) -> Result<WorldV, ErrorV> {
    match trickle_items_t(w, src.items, 0) {
        Ok(w2) => Ok(w2),
        Err(()) => Err(ErrorV::FileLoad(src.path)),
    }
}

/// A failed configuration source carries its file path.
pub open spec fn apply_config_t(w: WorldV, src: SourceV) -> Result<WorldV, ErrorV> {
    match config_items_t(w, src.items, 0) {
        Ok(w2) => Ok(w2),
        Err(()) => Err(ErrorV::FileLoad(src.path)),
    }
}

/// The first startup phase: dataflow-description sources are applied in
/// order, declarative sources are deferred (their indices collected in
/// order), and any other dialect aborts the startup.
pub open spec fn phase1_t(w: WorldV, srcs: Seq<SourceV>, i: int) -> Result<
    (WorldV, Seq<int>),
    ErrorV,
>
    decreases srcs.len() - i,
{
    if i >= srcs.len() {
        Ok((w, Seq::empty()))
    } else {
        let k = kind_of_path(srcs[i].path);
        if k == SourceKind::Trickle {
            match apply_trickle_t(w, srcs[i]) {
                Ok(w2) => phase1_t(w2, srcs, i + 1),
                Err(e) => Err(e),
            }
        } else if k == SourceKind::Yaml {
            match phase1_t(w, srcs, i + 1) {
                Ok((w2, rest)) => Ok((w2, seq![i] + rest)),
                Err(e) => Err(e),
            }
        } else {
            Err(ErrorV::UnsupportedFileType(srcs[i].path, k))
        }
    }
}

/// The second startup phase: the deferred declarative sources, in order.
pub open spec fn phase2_t(w: WorldV, srcs: Seq<SourceV>, deferred: Seq<int>, j: int) -> Result<
    WorldV,
    ErrorV,
>
    decreases deferred.len() - j,
{
    if j >= deferred.len() {
        Ok(w)
    } else if 0 <= deferred[j] < srcs.len() {
        match apply_config_t(w, srcs[deferred[j]]) {
            Ok(w2) => phase2_t(w2, srcs, deferred, j + 1),
            Err(e) => Err(e),
        }
    } else {
        Ok(w)
    }
}

/// The whole startup sequence over a mixed list of sources.
pub open spec fn load_t(w: WorldV, srcs: Seq<SourceV>) -> Result<WorldV, ErrorV> {
    match phase1_t(w, srcs, 0) {
        Ok((w2, deferred)) => phase2_t(w2, srcs, deferred, 0),
        Err(e) => Err(e),
    }
}

/// Applies one dataflow-description source to the world. On failure the
/// startup is abandoned, so only the reported error is specified.
#[verifier::loop_isolation(false)]
fn apply_trickle(world: &mut World, src: &ConfigSource) -> (r: Result<(), Error>)
    requires
        world_wf(old(world)@),
    ensures
        world_wf(final(world)@),
        match r {
            Ok(()) => apply_trickle_t(old(world)@, src@) == Ok::<WorldV, ErrorV>(
                final(world)@,
            ),
            Err(e) => apply_trickle_t(old(world)@, src@) == Err::<WorldV, ErrorV>(e@),
        },
{
    let ghost w0 = world@;
    let ghost itemsv = src@.items;
    let mut i: usize = 0;
    while i < src.items.len()
        invariant
            i <= src.items.len(),
            world_wf(world@),
            trickle_items_t(w0, itemsv, 0) == trickle_items_t(world@, itemsv, i as int),
        decreases src.items.len() - i,
    {
        proof {
            assert(itemsv[i as int] == src.items[i as int]@);
        }
        match &src.items[i] {
            ConfigItem::Publish { kind, id, def } => {
                if let ArtefactKind::Pipeline = kind {
                    match world.publish(*kind, id.clone(), def.clone()) {
                        Ok(()) => {},
                        Err(_) => {
                            return Err(Error::FileLoad(src.path.clone()));
                        },
                    }
                } else {
                    return Err(Error::FileLoad(src.path.clone()));
                }
            },
            ConfigItem::Link { .. } => {
                return Err(Error::FileLoad(src.path.clone()));
            },
        }
        i += 1;
    }
    Ok(())
}

/// Applies one declarative configuration source to the world. On failure the
/// startup is abandoned, so only the reported error is specified.
#[verifier::loop_isolation(false)]
fn apply_config(world: &mut World, src: &ConfigSource) -> (r: Result<(), Error>)
    requires
        world_wf(old(world)@),
    ensures
        world_wf(final(world)@),
        match r {
            Ok(()) => apply_config_t(old(world)@, src@) == Ok::<WorldV, ErrorV>(
                final(world)@,
            ),
            Err(e) => apply_config_t(old(world)@, src@) == Err::<WorldV, ErrorV>(e@),
        },
{
    let ghost w0 = world@;
    let ghost itemsv = src@.items;
    let mut i: usize = 0;
    while i < src.items.len()
        invariant
            i <= src.items.len(),
            world_wf(world@),
            config_items_t(w0, itemsv, 0) == config_items_t(world@, itemsv, i as int),
        decreases src.items.len() - i,
    {
        proof {
            assert(itemsv[i as int] == src.items[i as int]@);
        }
        match &src.items[i] {
            ConfigItem::Publish { kind, id, def } => {
                match world.publish(*kind, id.clone(), def.clone()) {
                    Ok(()) => {},
                    Err(_) => {
                        return Err(Error::FileLoad(src.path.clone()));
                    },
                }
            },
            ConfigItem::Link { binding_id } => {
                match world.link(binding_id) {
                    Ok(_) => {},
                    Err(_) => {
                        return Err(Error::FileLoad(src.path.clone()));
                    },
                }
            },
        }
        i += 1;
    }
    Ok(())
}

/// Sequenced bulk loading: every dataflow-description source is applied
/// first, then every deferred declarative source, each batch in the order
/// given. A source in any other dialect aborts the whole startup. On failure
/// the startup is abandoned, so only the reported error is specified.
#[verifier::loop_isolation(false)]
pub fn load_all(world: &mut World, sources: &Vec<ConfigSource>) -> (r: Result<(), Error>)
    requires
        world_wf(old(world)@),
    ensures
        world_wf(final(world)@),
        match r {
            Ok(()) => load_t(old(world)@, sources.deep_view()) == Ok::<WorldV, ErrorV>(
                final(world)@,
            ),
            Err(e) => load_t(old(world)@, sources.deep_view()) == Err::<WorldV, ErrorV>(e@),
        },
{
    let ghost w0 = world@;
    let ghost srcsv = sources.deep_view();
    let mut yamls: Vec<usize> = Vec::new();
    let ghost mut deferred: Seq<int> = Seq::empty();
    let mut i: usize = 0;
    while i < sources.len()
        invariant
            i <= sources.len(),
            world_wf(world@),
            yamls@.len() == deferred.len(),
            forall|j: int| 0 <= j < deferred.len() ==> deferred[j] == yamls@[j] as int,
            forall|j: int| 0 <= j < deferred.len() ==> 0 <= #[trigger] deferred[j] < srcsv.len(),
            phase1_t(w0, srcsv, 0) == (match phase1_t(world@, srcsv, i as int) {
                Ok((w2, rest)) => Ok::<(WorldV, Seq<int>), ErrorV>((w2, deferred + rest)),
                Err(e) => Err::<(WorldV, Seq<int>), ErrorV>(e),
            }),
        decreases sources.len() - i,
    {
        let src = &sources[i];
        proof {
            assert(srcsv[i as int] == src@);
        }
        let k = source_kind(src.path.as_str());
        let ghost pre_w = world@;
        if let SourceKind::Trickle = k {
            match apply_trickle(world, src) {
                Ok(()) => {},
                Err(e) => {
                    return Err(e);
                },
            }
        } else if let SourceKind::Yaml = k {
            let ghost old_def = deferred;
            yamls.push(i);
            proof {
                deferred = deferred.push(i as int);
                assert(deferred =~= old_def + seq![i as int]);
                let p = phase1_t(world@, srcsv, i as int + 1);
                match p {
                    Ok(pair) => {
                        assert(old_def + (seq![i as int] + pair.1) =~= deferred + pair.1);
                    },
                    Err(_) => {},
                }
            }
        } else {
            proof {
                assert(phase1_t(w0, srcsv, 0) == Err::<(WorldV, Seq<int>), ErrorV>(
                    ErrorV::UnsupportedFileType(src@.path, k),
                ));
            }
            return Err(Error::UnsupportedFileType(src.path.clone(), k));
        }
        i += 1;
    }
    proof {
        assert(phase1_t(world@, srcsv, i as int) == Ok::<(WorldV, Seq<int>), ErrorV>((
            world@,
            Seq::empty(),
        )));
        assert(deferred + Seq::<int>::empty() =~= deferred);
    }
    let ghost w1 = world@;
    let mut j: usize = 0;
    while j < yamls.len()
        invariant
            j <= yamls.len(),
            world_wf(world@),
            yamls@.len() == deferred.len(),
            forall|jj: int| 0 <= jj < deferred.len() ==> deferred[jj] == yamls@[jj] as int,
            forall|jj: int| 0 <= jj < deferred.len() ==> 0 <= #[trigger] deferred[jj] < srcsv.len(),
            phase2_t(w1, srcsv, deferred, 0) == phase2_t(world@, srcsv, deferred, j as int),
            phase1_t(w0, srcsv, 0) == Ok::<(WorldV, Seq<int>), ErrorV>((w1, deferred)),
        decreases yamls.len() - j,
    {
        let idx = yamls[j];
        proof {
            assert(deferred[j as int] == idx as int);
            assert(srcsv[idx as int] == sources[idx as int]@);
        }
        match apply_config(world, &sources[idx]) {
            Ok(()) => {},
            Err(e) => {
                return Err(e);
            },
        }
        j += 1;
    }
    proof {
        assert(phase2_t(world@, srcsv, deferred, j as int) == Ok::<WorldV, ErrorV>(world@));
    }
    Ok(())
}

} // verus!

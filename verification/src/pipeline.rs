//! The export pass: filtering visible drawable entities, decoding their
//! positional buffers, transforming them into world space, and assembling
//! the finalized document, gated by the export trigger.

use vstd::prelude::*;

use crate::decode::{buffer_bounded, extract_segments, world_segments};
use crate::document::{
    add_path_model, finalized_layers, frame_path, insert_position, Document, LayerModel,
    Resolution, FRAME_LAYER, GEOMETRY_LAYER,
};
use crate::geometry::{affine_bounded, Affine, Segment, Vertex};
use crate::trigger::{consumed, pending, SvgExportSettings};

verus! {

/// The positional vertex attribute of a mesh as the pass reads it: either
/// the supported three-component encoding, or some other encoding, which
/// the pass skips.
#[derive(Clone, Debug)]
pub enum VertexAttribute {
    Position3(Vec<Vertex>),
    Other,
}

/// A mesh resource: its positional attribute, when it has one.
#[derive(Clone, Debug)]
pub struct MeshResource {
    pub positions: Option<VertexAttribute>,
}

/// One drawable entity as queried from the host scene: its world transform,
/// its visibility flag, and its mesh reference, an index into the mesh
/// store. An out-of-range index models a dangling reference.
#[derive(Clone, Copy, Debug, PartialEq, Eq, Structural)]
pub struct DrawableEntity {
    pub transform: Affine,
    pub visible: bool,
    pub mesh: usize,
}

/// An entity contributes a path exactly when it is visible, its mesh
/// reference resolves, and the mesh has the supported positional attribute.
pub open spec fn entity_contributes(e: DrawableEntity, meshes: Seq<MeshResource>) -> bool {
    &&& e.visible
    &&& (e.mesh as int) < meshes.len()
    &&& meshes[e.mesh as int].positions matches Some(VertexAttribute::Position3(_))
}

/// Why an entity contributed nothing to a pass. Every one of these skips
/// just that entity — silently, never as an error — and the pass continues
/// with the next entity.
#[derive(Clone, Copy, Debug, PartialEq, Eq, Structural)]
pub enum SkipReason {
    Invisible,
    MissingMesh,
    MissingAttribute,
    UnsupportedAttribute,
}

/// What one entity does to the pass: it contributes a path, or it is
/// skipped and processing continues. Sink failures are a separate concern
/// of the host's delivery step and never appear here.
#[derive(Clone, Copy, Debug, PartialEq, Eq, Structural)]
pub enum EntityOutcome {
    Contributed,
    Skipped(SkipReason),
}

/// The outcome of one entity, with the first applicable skip reason in the
/// order the pass tests them.
pub open spec fn entity_outcome(e: DrawableEntity, meshes: Seq<MeshResource>) -> EntityOutcome {
    if !e.visible {
        EntityOutcome::Skipped(SkipReason::Invisible)
    } else if e.mesh as int >= meshes.len() {
        EntityOutcome::Skipped(SkipReason::MissingMesh)
    } else {
        match meshes[e.mesh as int].positions {
            Option::None => EntityOutcome::Skipped(SkipReason::MissingAttribute),
            Option::Some(VertexAttribute::Other) => EntityOutcome::Skipped(
                SkipReason::UnsupportedAttribute,
            ),
            Option::Some(VertexAttribute::Position3(_)) => EntityOutcome::Contributed,
        }
    }
}

/// Classifies one entity as the pass would: it contributes exactly when it
/// is visible, its mesh reference resolves, and the mesh has the supported
/// positional attribute; otherwise the outcome names the reason it is
/// skipped.
pub fn classify_entity(e: &DrawableEntity, meshes: &Vec<MeshResource>) -> (o: EntityOutcome)
    ensures
        o == entity_outcome(*e, meshes@),
        (o is Contributed) == entity_contributes(*e, meshes@),
{
    if !e.visible {
        EntityOutcome::Skipped(SkipReason::Invisible)
    } else if e.mesh >= meshes.len() {
        EntityOutcome::Skipped(SkipReason::MissingMesh)
    } else {
        match &meshes[e.mesh].positions {
            Option::None => EntityOutcome::Skipped(SkipReason::MissingAttribute),
            Option::Some(VertexAttribute::Other) => EntityOutcome::Skipped(
                SkipReason::UnsupportedAttribute,
            ),
            Option::Some(VertexAttribute::Position3(_)) => EntityOutcome::Contributed,
        }
    }
}

/// The vertex buffer a contributing entity decodes.
pub open spec fn entity_vertices(e: DrawableEntity, meshes: Seq<MeshResource>) -> Seq<Vertex> {
    match meshes[e.mesh as int].positions {
        Some(VertexAttribute::Position3(vs)) => vs@,
        _ => Seq::empty(),
    }
}

pub open spec fn mesh_bounded(m: MeshResource) -> bool {
    match m.positions {
        Some(VertexAttribute::Position3(vs)) => buffer_bounded(vs@),
        _ => true,
    }
}

/// Every transform coefficient and mesh coordinate is within the range the
/// integer pipeline can carry without overflow.
pub open spec fn scene_bounded(entities: Seq<DrawableEntity>, meshes: Seq<MeshResource>) -> bool {
    &&& forall|i: int|
        0 <= i < entities.len() ==> affine_bounded((#[trigger] entities[i]).transform)
    &&& forall|i: int| 0 <= i < meshes.len() ==> mesh_bounded(#[trigger] meshes[i])
}

/// The geometry paths one pass accumulates: one path per contributing
/// entity, in entity order; skipped entities contribute nothing.
pub open spec fn pass_paths(entities: Seq<DrawableEntity>, meshes: Seq<MeshResource>) -> Seq<
    Seq<Segment>,
>
    decreases entities.len(),
{
    if entities.len() == 0 {
        Seq::empty()
    } else {
        let rest = pass_paths(entities.drop_last(), meshes);
        let e = entities.last();
        if entity_contributes(e, meshes) {
            rest.push(world_segments(e.transform, entity_vertices(e, meshes)))
        } else {
            rest
        }
    }
}

/// The assembled layers of one pass before finalization: the geometry layer
/// holding the accumulated paths, or no layer at all when nothing
/// contributed.
pub open spec fn pass_layers(entities: Seq<DrawableEntity>, meshes: Seq<MeshResource>) -> Seq<
    LayerModel,
> {
    if pass_paths(entities, meshes).len() == 0 {
        Seq::empty()
    } else {
        seq![(LayerModel { id: GEOMETRY_LAYER, paths: pass_paths(entities, meshes) })]
    }
}

/// Extending the scene by one entity extends the pass output by that
/// entity's path when it contributes and leaves it unchanged when it does
/// not.
proof fn lemma_pass_step(
    entities: Seq<DrawableEntity>,
    meshes: Seq<MeshResource>,
    e: DrawableEntity,
)
    ensures
        entity_contributes(e, meshes) ==> pass_layers(entities.push(e), meshes) == add_path_model(
            pass_layers(entities, meshes),
            GEOMETRY_LAYER,
            world_segments(e.transform, entity_vertices(e, meshes)),
        ),
        !entity_contributes(e, meshes) ==> pass_layers(entities.push(e), meshes) == pass_layers(
            entities,
            meshes,
        ),
{
    assert(entities.push(e).drop_last() =~= entities);
    assert(entities.push(e).last() == e);
    let pp = pass_paths(entities, meshes);
    if entity_contributes(e, meshes) {
        let segs = world_segments(e.transform, entity_vertices(e, meshes));
        assert(pass_paths(entities.push(e), meshes) == pp.push(segs));
        let ls = pass_layers(entities, meshes);
        if pp.len() == 0 {
            assert(insert_position(ls, GEOMETRY_LAYER) == 0);
            assert(pp.push(segs) =~= seq![segs]);
            assert(pass_layers(entities.push(e), meshes) =~~= add_path_model(
                ls,
                GEOMETRY_LAYER,
                segs,
            ));
        } else {
            assert(ls[0].id == GEOMETRY_LAYER);
            assert(insert_position(ls, GEOMETRY_LAYER) == 0);
            assert(pass_layers(entities.push(e), meshes) =~~= add_path_model(
                ls,
                GEOMETRY_LAYER,
                segs,
            ));
        }
    }
}

/// One full export pass over the scene: skips invisible entities, dangling
/// mesh references and unsupported attributes, decodes and transforms every
/// contributing buffer, accumulates the paths on the geometry layer, and
/// finalizes the document. Per-entity conditions only skip that entity;
/// they never abort the pass.
#[verifier::loop_isolation(false)]
pub fn run_export_pass(
    entities: &Vec<DrawableEntity>,
    meshes: &Vec<MeshResource>,
    resolution: &Resolution,
) -> (doc: Document)
    requires
        scene_bounded(entities@, meshes@),
    ensures
        doc.page.w == resolution.width as u64,
        doc.page.h == resolution.height as u64,
        doc.layers_model() == finalized_layers(pass_layers(entities@, meshes@), doc.page),
        doc.wf(),
{
    let mut doc = Document::begin(resolution);
    let mut i: usize = 0;
    while i < entities.len()
        invariant
            i <= entities.len(),
            doc.page.w == resolution.width as u64,
            doc.page.h == resolution.height as u64,
            doc.wf(),
            doc.layers_model() == pass_layers(entities@.subrange(0, i as int), meshes@),
        decreases entities.len() - i,
    {
        let e = &entities[i];
        if e.visible && e.mesh < meshes.len() {
            let mesh = &meshes[e.mesh];
            match &mesh.positions {
                Some(attr) => {
                    match attr {
                        VertexAttribute::Position3(vertices) => {
                            let segs = extract_segments(&e.transform, vertices);
                            doc.add_path(GEOMETRY_LAYER, segs);
                        },
                        VertexAttribute::Other => {},
                    }
                },
                None => {},
            }
        }
        proof {
            let sub = entities@.subrange(0, i as int);
            let sub1 = entities@.subrange(0, i + 1 as int);
            assert(sub1 =~= sub.push(entities@[i as int]));
            lemma_pass_step(sub, meshes@, entities@[i as int]);
            assert(doc.layers_model() == pass_layers(sub1, meshes@));
        }
        i = i + 1;
    }
    proof {
        assert(entities@.subrange(0, entities@.len() as int) =~= entities@);
    }
    doc.finalize();
    doc
}

/// One scheduler pass over the trigger: reads and clears the pending flag
/// in one step, then — only when it was set — runs the whole export
/// synchronously. The flag is cleared before the pipeline runs, so a single
/// request yields at most one export even if the export itself fails
/// downstream.
pub fn export_pass(
    settings: &mut SvgExportSettings,
    entities: &Vec<DrawableEntity>,
    meshes: &Vec<MeshResource>,
    resolution: &Resolution,
) -> (doc: Option<Document>)
    requires
        pending(*old(settings)) ==> scene_bounded(entities@, meshes@),
    ensures
        *final(settings) == consumed(*old(settings)),
        !pending(*old(settings)) ==> doc is None,
        pending(*old(settings)) ==> (doc matches Some(d) && d.page.w == resolution.width as u64
            && d.page.h == resolution.height as u64 && d.layers_model() == finalized_layers(
            pass_layers(entities@, meshes@),
            d.page,
        ) && d.wf()),
{
    if settings.take_run_export() {
        Some(run_export_pass(entities, meshes, resolution))
    } else {
        None
    }
}

/// A skipped entity — invisible, dangling mesh reference, or no supported
/// positional attribute — adds nothing: removing it from the scene leaves
/// the pass output unchanged, wherever it stands.
pub proof fn lemma_skipped_entity_adds_nothing(
    entities: Seq<DrawableEntity>,
    meshes: Seq<MeshResource>,
    i: int,
)
    requires
        0 <= i < entities.len(),
        !entity_contributes(entities[i], meshes),
    ensures
        pass_paths(entities.remove(i), meshes) == pass_paths(entities, meshes),
        pass_layers(entities.remove(i), meshes) == pass_layers(entities, meshes),
    decreases entities.len(),
{
    if i == entities.len() - 1 {
        assert(entities.remove(i) =~= entities.drop_last());
    } else {
        let shorter = entities.drop_last();
        lemma_skipped_entity_adds_nothing(shorter, meshes, i);
        assert(entities.remove(i).drop_last() =~= shorter.remove(i));
        assert(entities.remove(i).last() == entities.last());
    }
}

/// No path is added for an invisible entity, whatever its mesh holds.
pub proof fn lemma_invisible_entity_adds_nothing(
    entities: Seq<DrawableEntity>,
    meshes: Seq<MeshResource>,
    i: int,
)
    requires
        0 <= i < entities.len(),
        !entities[i].visible,
    ensures
        pass_layers(entities.remove(i), meshes) == pass_layers(entities, meshes),
{
    lemma_skipped_entity_adds_nothing(entities, meshes, i);
}

/// No path is added for an entity whose mesh reference does not resolve,
/// and no error is raised: the pass output is defined either way.
pub proof fn lemma_dangling_mesh_adds_nothing(
    entities: Seq<DrawableEntity>,
    meshes: Seq<MeshResource>,
    i: int,
)
    requires
        0 <= i < entities.len(),
        entities[i].mesh as int >= meshes.len(),
    ensures
        pass_layers(entities.remove(i), meshes) == pass_layers(entities, meshes),
{
    lemma_skipped_entity_adds_nothing(entities, meshes, i);
}

/// Frame invariant: however many geometry paths a pass yields — including
/// none — its finalized layers end with the frame layer, holding the closed
/// page-boundary rectangle as its only path, and no other layer has the
/// frame identifier.
pub proof fn lemma_frame_invariant(
    entities: Seq<DrawableEntity>,
    meshes: Seq<MeshResource>,
    page: crate::document::PageSize,
)
    ensures
        ({
            let fin = finalized_layers(pass_layers(entities, meshes), page);
            &&& fin.len() >= 1
            &&& fin[fin.len() - 1].id == FRAME_LAYER
            &&& fin[fin.len() - 1].paths == seq![frame_path(page)]
            &&& forall|k: int| 0 <= k < fin.len() - 1 ==> (#[trigger] fin[k]).id != FRAME_LAYER
        }),
{
    let ls = pass_layers(entities, meshes);
    let fg = crate::document::finalized_geometry(ls, page);
    let fin = finalized_layers(ls, page);
    if pass_paths(entities, meshes).len() == 0 {
        assert(fg =~= Seq::<LayerModel>::empty());
        assert(insert_position(fg, FRAME_LAYER) == 0);
        assert(fin =~= seq![(LayerModel { id: FRAME_LAYER, paths: seq![frame_path(page)] })]);
    } else {
        assert(fg.len() == 1);
        assert(fg[0].id == GEOMETRY_LAYER);
        assert(insert_position(fg, FRAME_LAYER) == 1) by {
            assert(fg.skip(1) =~= Seq::<LayerModel>::empty());
            assert(insert_position(fg.skip(1), FRAME_LAYER) == 0);
        }
        assert(fin =~= fg.push(LayerModel { id: FRAME_LAYER, paths: seq![frame_path(page)] }));
    }
}

} // verus!

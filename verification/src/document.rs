//! The output document: a bounded page, named layers of paths, and the
//! finalization step that recenters, crops and frames the assembled geometry.

use vstd::prelude::*;

use crate::geometry::{
    identity_affine, segment_in_world, world_point, world_x, world_y, Point, Segment, Vertex,
    WORLD_LIMIT,
};

verus! {

/// Layer holding the extracted geometry paths.
pub const GEOMETRY_LAYER: u64 = 1;

/// Layer holding the single page-boundary frame, inserted last.
pub const FRAME_LAYER: u64 = 2;

/// Output page size in whole output units (one unit per pixel).
#[derive(Clone, Copy, Debug, PartialEq, Eq, Structural)]
pub struct PageSize {
    pub w: u64,
    pub h: u64,
}

/// Display resolution in pixels, read once per export pass.
#[derive(Clone, Copy, Debug, PartialEq, Eq, Structural)]
pub struct Resolution {
    pub width: u32,
    pub height: u32,
}

impl Resolution {
    /// The page sized to this resolution: an exact identity mapping from
    /// pixels to output units.
    pub fn as_page_size(&self) -> (p: PageSize)
        ensures
            p.w == self.width as u64,
            p.h == self.height as u64,
    {
        PageSize { w: self.width as u64, h: self.height as u64 }
    }
}

/// An ordered run of segments; each segment is one line of an implicit
/// moveto/lineto encoding.
#[derive(Clone, Debug, PartialEq)]
pub struct Path {
    pub segments: Vec<Segment>,
}

impl View for Path {
    type V = Seq<Segment>;

    open spec fn view(&self) -> Seq<Segment> {
        self.segments@
    }
}

/// A named group of paths within the document.
#[derive(Clone, Debug, PartialEq)]
pub struct Layer {
    pub id: u64,
    pub paths: Vec<Path>,
}

/// The mathematical image of a layer: its identifier and its paths as
/// sequences of segments.
#[verifier::ext_equal]
pub struct LayerModel {
    pub id: u64,
    pub paths: Seq<Seq<Segment>>,
}

impl View for Layer {
    type V = LayerModel;

    open spec fn view(&self) -> LayerModel {
        LayerModel { id: self.id, paths: self.paths@.map_values(|p: Path| p@) }
    }
}

pub open spec fn path_in_world(segs: Seq<Segment>) -> bool {
    forall|i: int| 0 <= i < segs.len() ==> segment_in_world(#[trigger] segs[i])
}

pub open spec fn layer_in_world(l: LayerModel) -> bool {
    forall|p: int| 0 <= p < l.paths.len() ==> path_in_world(#[trigger] l.paths[p])
}

/// Layers are kept in strictly increasing identifier order.
pub open spec fn layer_ids_sorted(ls: Seq<LayerModel>) -> bool {
    forall|i: int, j: int| 0 <= i < j < ls.len() ==> (#[trigger] ls[i]).id < (#[trigger] ls[j]).id
}

/// Where a path for layer `id` goes: the first position whose layer
/// identifier is at or above `id`.
pub open spec fn insert_position(ls: Seq<LayerModel>, id: u64) -> int
    decreases ls.len(),
{
    if ls.len() == 0 {
        0
    } else if ls[0].id >= id {
        0
    } else {
        1 + insert_position(ls.skip(1), id)
    }
}

proof fn lemma_insert_position(ls: Seq<LayerModel>, id: u64)
    ensures
        0 <= insert_position(ls, id) <= ls.len(),
        forall|j: int| 0 <= j < insert_position(ls, id) ==> (#[trigger] ls[j]).id < id,
        insert_position(ls, id) < ls.len() ==> ls[insert_position(ls, id)].id >= id,
    decreases ls.len(),
{
    if ls.len() == 0 {
    } else if ls[0].id >= id {
    } else {
        lemma_insert_position(ls.skip(1), id);
        assert forall|j: int| 0 <= j < insert_position(ls, id) implies (#[trigger] ls[j]).id
            < id by {
            if j > 0 {
                assert(ls.skip(1)[j - 1] == ls[j]);
            }
        }
    }
}

/// Appending a path to a layer set: the path joins the layer with that
/// identifier, or a fresh layer is inserted at its sorted position.
pub open spec fn add_path_model(ls: Seq<LayerModel>, id: u64, path: Seq<Segment>) -> Seq<
    LayerModel,
> {
    let k = insert_position(ls, id);
    if k < ls.len() && ls[k].id == id {
        ls.update(k, LayerModel { id, paths: ls[k].paths.push(path) })
    } else {
        ls.insert(k, LayerModel { id, paths: seq![path] })
    }
}

pub open spec fn half_w(page: PageSize) -> int {
    page.w as int / 2
}

pub open spec fn half_h(page: PageSize) -> int {
    page.h as int / 2
}

/// A point carried from engine coordinates (y up, origin at the page
/// center) into document coordinates (y down, origin at the top-left): the
/// vertical axis is flipped, then the origin is moved by half the page, as
/// one transform applied once to the assembled document.
pub open spec fn to_doc_point(p: Point, page: PageSize) -> Point {
    Point { x: (p.x + half_w(page)) as i64, y: (half_h(page) - p.y) as i64 }
}

pub open spec fn to_doc_segment(s: Segment, page: PageSize) -> Segment {
    Segment { start: to_doc_point(s.start, page), end: to_doc_point(s.end, page) }
}

pub open spec fn point_in_page(p: Point, page: PageSize) -> bool {
    0 <= p.x <= page.w && 0 <= p.y <= page.h
}

/// A segment is kept by the crop exactly when it lies entirely on the page.
pub open spec fn segment_in_page(s: Segment, page: PageSize) -> bool {
    point_in_page(s.start, page) && point_in_page(s.end, page)
}

/// A path's segments carried into document coordinates, in order.
pub open spec fn moved_path(segs: Seq<Segment>, page: PageSize) -> Seq<Segment> {
    segs.map_values(|s: Segment| to_doc_segment(s, page))
}

/// The crop: segments entirely on the page are kept unchanged and in order;
/// every other segment is discarded, so nothing outside the page remains.
pub open spec fn cropped_path(segs: Seq<Segment>, page: PageSize) -> Seq<Segment>
    decreases segs.len(),
{
    if segs.len() == 0 {
        Seq::empty()
    } else {
        let rest = cropped_path(segs.drop_last(), page);
        if segment_in_page(segs.last(), page) {
            rest.push(segs.last())
        } else {
            rest
        }
    }
}

/// One path after finalization: moved into document coordinates, then
/// cropped to the page.
pub open spec fn finalized_path(segs: Seq<Segment>, page: PageSize) -> Seq<Segment> {
    cropped_path(moved_path(segs, page), page)
}

pub open spec fn finalized_layer(l: LayerModel, page: PageSize) -> LayerModel {
    LayerModel { id: l.id, paths: l.paths.map_values(|p: Seq<Segment>| finalized_path(p, page)) }
}

pub open spec fn finalized_geometry(ls: Seq<LayerModel>, page: PageSize) -> Seq<LayerModel> {
    ls.map_values(|l: LayerModel| finalized_layer(l, page))
}

/// The closed rectangular frame tracing the full page boundary.
pub open spec fn frame_path(page: PageSize) -> Seq<Segment> {
    seq![
        (Segment {
            start: Point { x: 0, y: 0 },
            end: Point { x: page.w as i64, y: 0 },
        }),
        (Segment {
            start: Point { x: page.w as i64, y: 0 },
            end: Point { x: page.w as i64, y: page.h as i64 },
        }),
        (Segment {
            start: Point { x: page.w as i64, y: page.h as i64 },
            end: Point { x: 0, y: page.h as i64 },
        }),
        (Segment {
            start: Point { x: 0, y: page.h as i64 },
            end: Point { x: 0, y: 0 },
        }),
    ]
}

/// The whole document after finalization: every layer moved and cropped,
/// then the frame appended to its own layer, never itself cropped.
pub open spec fn finalized_layers(ls: Seq<LayerModel>, page: PageSize) -> Seq<LayerModel> {
    add_path_model(finalized_geometry(ls, page), FRAME_LAYER, frame_path(page))
}

/// Everything the crop keeps lies on the page, and it keeps exactly the
/// in-page segments, unchanged and in input order.
pub proof fn lemma_cropped_path(segs: Seq<Segment>, page: PageSize)
    ensures
        forall|i: int|
            0 <= i < cropped_path(segs, page).len() ==> segment_in_page(
                #[trigger] cropped_path(segs, page)[i],
                page,
            ),
        forall|s: Segment|
            segs.contains(s) && segment_in_page(s, page) ==> cropped_path(segs, page).contains(s),
        forall|s: Segment| cropped_path(segs, page).contains(s) ==> segs.contains(s),
    decreases segs.len(),
{
    if segs.len() > 0 {
        lemma_cropped_path(segs.drop_last(), page);
        assert forall|i: int| 0 <= i < cropped_path(segs, page).len() implies segment_in_page(
            #[trigger] cropped_path(segs, page)[i],
            page,
        ) by {
            let c = cropped_path(segs, page);
            let rest = cropped_path(segs.drop_last(), page);
            if i < rest.len() {
                assert(c[i] == rest[i]);
            } else {
                assert(c[i] == segs.last());
            }
        }
        assert forall|s: Segment| segs.contains(s) && segment_in_page(s, page) implies cropped_path(
            segs,
            page,
        ).contains(s) by {
            if s == segs.last() {
                let c = cropped_path(segs, page);
                assert(c[c.len() - 1] == s);
            } else {
                let i = choose|i: int| 0 <= i < segs.len() && segs[i] == s;
                assert(segs.drop_last()[i] == s);
                let rest = cropped_path(segs.drop_last(), page);
                let j = choose|j: int| 0 <= j < rest.len() && rest[j] == s;
                assert(cropped_path(segs, page)[j] == s);
            }
        }
        assert forall|s: Segment| cropped_path(segs, page).contains(s) implies segs.contains(
            s,
        ) by {
            let c = cropped_path(segs, page);
            let rest = cropped_path(segs.drop_last(), page);
            let j = choose|j: int| 0 <= j < c.len() && c[j] == s;
            if j < rest.len() {
                assert(rest[j] == s);
                assert(rest.contains(s));
                assert(segs.drop_last().contains(s));
                let i = choose|i: int|
                    0 <= i < segs.drop_last().len() && segs.drop_last()[i] == s;
                assert(segs[i] == s);
            } else {
                assert(s == segs.last());
                assert(segs[segs.len() - 1] == s);
            }
        }
    }
}

/// Coordinate round trip: a vertex at the engine-space origin under the
/// identity entity transform lands, after the document-global flip and
/// recentering, exactly at the page center (half the width, half the
/// height) in output coordinates.
pub proof fn lemma_origin_round_trip(page: PageSize)
    requires
        page.w <= u32::MAX as u64,
        page.h <= u32::MAX as u64,
    ensures
        world_point(identity_affine(), Vertex { x: 0, y: 0, z: 0 }) == (Point { x: 0, y: 0 }),
        to_doc_point(Point { x: 0, y: 0 }, page) == (Point {
            x: (page.w / 2) as i64,
            y: (page.h / 2) as i64,
        }),
{
    let a = identity_affine();
    let v = Vertex { x: 0, y: 0, z: 0 };
    assert(world_x(a, v) == 1 * 0 + 0 * 0 + 0 * 0 + 0);
    assert(world_y(a, v) == 0 * 0 + 1 * 0 + 0 * 0 + 0);
}

/// The document being assembled for one export pass.
#[derive(Clone, Debug, PartialEq)]
pub struct Document {
    pub page: PageSize,
    pub layers: Vec<Layer>,
}

impl Document {
    /// The mathematical image of the layer set.
    pub open spec fn layers_model(self) -> Seq<LayerModel> {
        self.layers@.map_values(|l: Layer| l@)
    }

    /// Well-formed: the page fits the pixel range, layers are sorted by
    /// identifier, and every stored coordinate is in the range finalization
    /// can recenter without overflow.
    pub open spec fn wf(self) -> bool {
        &&& self.page.w <= u32::MAX as u64
        &&& self.page.h <= u32::MAX as u64
        &&& layer_ids_sorted(self.layers_model())
        &&& forall|i: int|
            0 <= i < self.layers_model().len() ==> layer_in_world(#[trigger] self.layers_model()[i])
    }

    /// An empty document whose page is sized to the current resolution.
    pub fn begin(resolution: &Resolution) -> (doc: Document)
        ensures
            doc.page.w == resolution.width as u64,
            doc.page.h == resolution.height as u64,
            doc.layers_model() == Seq::<LayerModel>::empty(),
            doc.wf(),
    {
        let doc = Document { page: resolution.as_page_size(), layers: Vec::new() };
        proof {
            assert(doc.layers_model() =~= Seq::<LayerModel>::empty());
        }
        doc
    }

    /// Appends a path built from the given ordered segments to the layer
    /// with the given identifier, creating the layer at its sorted position
    /// if it does not exist yet.
    #[verifier::loop_isolation(false)]
    pub fn add_path(&mut self, layer_id: u64, segments: Vec<Segment>)
        requires
            old(self).wf(),
            path_in_world(segments@),
        ensures
            final(self).page == old(self).page,
            final(self).layers_model() == add_path_model(
                old(self).layers_model(),
                layer_id,
                segments@,
            ),
            final(self).wf(),
    {
        let ghost ls = self.layers_model();
        proof {
            lemma_insert_position(ls, layer_id);
        }
        let mut k: usize = 0;
        while k < self.layers.len() && self.layers[k].id < layer_id
            invariant
                k <= self.layers.len(),
                forall|j: int| 0 <= j < k ==> (#[trigger] ls[j]).id < layer_id,
            decreases self.layers.len() - k,
        {
            k = k + 1;
        }
        proof {
            assert(k == insert_position(ls, layer_id)) by {
                let pos = insert_position(ls, layer_id);
                if k < pos {
                    assert(ls[k as int].id < layer_id);
                } else if pos < k {
                    assert(ls[pos].id < layer_id);
                }
            }
        }
        if k < self.layers.len() && self.layers[k].id == layer_id {
            let mut layer = self.layers.remove(k);
            layer.paths.push(Path { segments });
            self.layers.insert(k, layer);
            proof {
                assert(self.layers_model() =~~= add_path_model(ls, layer_id, segments@));
            }
        } else {
            self.layers.insert(k, Layer { id: layer_id, paths: vec![Path { segments }] });
            proof {
                assert(self.layers_model() =~~= add_path_model(ls, layer_id, segments@));
            }
        }
        proof {
            lemma_add_path_wf(ls, layer_id, segments@);
        }
    }

    /// Finalizes the pass: recenters the whole document from engine to page
    /// coordinates, crops it to the page rectangle, and appends the single
    /// page-boundary frame to the frame layer, after cropping so the frame
    /// itself is never clipped away.
    #[verifier::loop_isolation(false)]
    pub fn finalize(&mut self)
        requires
            old(self).wf(),
        ensures
            final(self).page == old(self).page,
            final(self).layers_model() == finalized_layers(
                old(self).layers_model(),
                old(self).page,
            ),
            final(self).wf(),
    {
        let page = self.page;
        let ghost orig = self.layers_model();
        let mut new_layers: Vec<Layer> = Vec::new();
        let mut li: usize = 0;
        while li < self.layers.len()
            invariant
                li <= self.layers.len(),
                new_layers@.map_values(|l: Layer| l@) == finalized_geometry(
                    orig.subrange(0, li as int),
                    page,
                ),
            decreases self.layers.len() - li,
        {
            let layer = &self.layers[li];
            proof {
                assert(layer@ == orig[li as int]);
                assert(layer_in_world(orig[li as int]));
            }
            let mut new_paths: Vec<Path> = Vec::new();
            let mut pi: usize = 0;
            while pi < layer.paths.len()
                invariant
                    pi <= layer.paths.len(),
                    new_paths@.map_values(|p: Path| p@) == finalized_layer(
                        orig[li as int],
                        page,
                    ).paths.subrange(0, pi as int),
                decreases layer.paths.len() - pi,
            {
                let path = &layer.paths[pi];
                proof {
                    assert(path@ == orig[li as int].paths[pi as int]);
                    assert(path_in_world(path@));
                }
                let out = finalize_path(&path.segments, page);
                new_paths.push(Path { segments: out });
                proof {
                    let fl = finalized_layer(orig[li as int], page);
                    assert(fl.paths[pi as int] == finalized_path(path@, page));
                    assert(fl.paths.subrange(0, pi + 1 as int) =~= fl.paths.subrange(
                        0,
                        pi as int,
                    ).push(fl.paths[pi as int]));
                    assert(new_paths@.map_values(|p: Path| p@) =~= fl.paths.subrange(
                        0,
                        pi + 1 as int,
                    ));
                }
                pi = pi + 1;
            }
            new_layers.push(Layer { id: layer.id, paths: new_paths });
            proof {
                let fl = finalized_layer(orig[li as int], page);
                assert(new_paths@.map_values(|p: Path| p@) =~= fl.paths);
                assert((Layer { id: layer.id, paths: new_paths })@ =~= fl);
                assert(finalized_geometry(orig.subrange(0, li + 1 as int), page) =~= (
                finalized_geometry(orig.subrange(0, li as int), page)).push(fl));
                assert(new_layers@.map_values(|l: Layer| l@) =~= finalized_geometry(
                    orig.subrange(0, li + 1 as int),
                    page,
                ));
            }
            li = li + 1;
        }
        proof {
            assert(orig.subrange(0, orig.len() as int) =~= orig);
        }
        self.layers = new_layers;
        proof {
            let fg = finalized_geometry(orig, page);
            assert(self.layers_model() == fg);
            assert forall|i: int| 0 <= i < fg.len() implies layer_in_world(#[trigger] fg[i]) by {
                assert forall|p: int| 0 <= p < fg[i].paths.len() implies path_in_world(
                    #[trigger] fg[i].paths[p],
                ) by {
                    let moved = moved_path(orig[i].paths[p], page);
                    lemma_cropped_path(moved, page);
                    assert(fg[i].paths[p] == cropped_path(moved, page));
                }
            }
            assert forall|i: int, j: int| 0 <= i < j < fg.len() implies (#[trigger] fg[i]).id < (
            #[trigger] fg[j]).id by {
                assert(fg[i].id == orig[i].id);
                assert(fg[j].id == orig[j].id);
            }
            assert(self.wf());
        }
        let wi: i64 = (page.w) as i64;
        let hi: i64 = (page.h) as i64;
        let frame: Vec<Segment> = vec![
            Segment { start: Point { x: 0, y: 0 }, end: Point { x: wi, y: 0 } },
            Segment { start: Point { x: wi, y: 0 }, end: Point { x: wi, y: hi } },
            Segment { start: Point { x: wi, y: hi }, end: Point { x: 0, y: hi } },
            Segment { start: Point { x: 0, y: hi }, end: Point { x: 0, y: 0 } },
        ];
        proof {
            assert(frame@ =~= frame_path(page));
        }
        self.add_path(FRAME_LAYER, frame);
    }
}

/// Moves one path's segments into document coordinates and crops them to the
/// page: a segment survives exactly when, once moved, it lies entirely on
/// the page, and surviving segments keep their order.
#[verifier::loop_isolation(false)]
fn finalize_path(segments: &Vec<Segment>, page: PageSize) -> (out: Vec<Segment>)
    requires
        page.w <= u32::MAX as u64,
        page.h <= u32::MAX as u64,
        path_in_world(segments@),
    ensures
        out@ == finalized_path(segments@, page),
{
    let hw: i64 = (page.w / 2) as i64;
    let hh: i64 = (page.h / 2) as i64;
    let wi: i64 = page.w as i64;
    let hi: i64 = page.h as i64;
    let mut out: Vec<Segment> = Vec::new();
    let mut si: usize = 0;
    while si < segments.len()
        invariant
            si <= segments.len(),
            out@ == cropped_path(moved_path(segments@.subrange(0, si as int), page), page),
        decreases segments.len() - si,
    {
        let s = segments[si];
        proof {
            assert(segment_in_world(s));
        }
        let start = Point { x: s.start.x + hw, y: hh - s.start.y };
        let end = Point { x: s.end.x + hw, y: hh - s.end.y };
        let m = Segment { start, end };
        proof {
            assert(m == to_doc_segment(s, page));
            let sub = segments@.subrange(0, si as int);
            let sub1 = segments@.subrange(0, si + 1 as int);
            assert(sub1.drop_last() =~= sub);
            assert(sub1.last() == s);
            assert(moved_path(sub1, page).drop_last() =~= moved_path(sub, page));
            assert(moved_path(sub1, page).last() == to_doc_segment(s, page));
        }
        if 0 <= start.x && start.x <= wi && 0 <= start.y && start.y <= hi && 0 <= end.x && end.x
            <= wi && 0 <= end.y && end.y <= hi {
            out.push(m);
        }
        proof {
            assert(segment_in_page(m, page) == (0 <= start.x <= wi && 0 <= start.y <= hi && 0
                <= end.x <= wi && 0 <= end.y <= hi));
        }
        si = si + 1;
    }
    proof {
        assert(segments@.subrange(0, segments@.len() as int) =~= segments@);
    }
    out
}

/// Adding a path preserves sorted layer identifiers and bounded coordinates.
proof fn lemma_add_path_wf(ls: Seq<LayerModel>, id: u64, path: Seq<Segment>)
    requires
        layer_ids_sorted(ls),
        forall|i: int| 0 <= i < ls.len() ==> layer_in_world(#[trigger] ls[i]),
        path_in_world(path),
    ensures
        layer_ids_sorted(add_path_model(ls, id, path)),
        forall|i: int|
            0 <= i < add_path_model(ls, id, path).len() ==> layer_in_world(
                #[trigger] add_path_model(ls, id, path)[i],
            ),
{
    lemma_insert_position(ls, id);
    let k = insert_position(ls, id);
    let out = add_path_model(ls, id, path);
    if k < ls.len() && ls[k].id == id {
        assert forall|i: int| 0 <= i < out.len() implies layer_in_world(#[trigger] out[i]) by {
            if i == k {
                assert forall|p: int| 0 <= p < out[i].paths.len() implies path_in_world(
                    #[trigger] out[i].paths[p],
                ) by {
                    if p < ls[k].paths.len() {
                        assert(out[i].paths[p] == ls[k].paths[p]);
                    }
                }
            }
        }
    } else {
        assert forall|i: int| 0 <= i < out.len() implies layer_in_world(#[trigger] out[i]) by {
            if i < k {
                assert(out[i] == ls[i]);
            } else if i > k {
                assert(out[i] == ls[i - 1]);
            }
        }
        assert forall|i: int, j: int| 0 <= i < j < out.len() implies (#[trigger] out[i]).id < (
        #[trigger] out[j]).id by {
            if i < k && j > k {
                assert(out[i] == ls[i]);
                assert(out[j] == ls[j - 1]);
                if i < k - 1 {
                    assert(ls[i].id < ls[k - 1].id);
                }
            } else if i < k && j == k {
                assert(out[i] == ls[i]);
            } else if i == k {
                assert(out[j] == ls[j - 1]);
                assert(ls[k].id > id);
            } else if i > k {
                assert(out[i] == ls[i - 1]);
                assert(out[j] == ls[j - 1]);
            }
        }
    }
}

} // verus!

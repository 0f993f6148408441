use svg_export::decode::{decode_segments, extract_segments};
use svg_export::document::{Document, Resolution, FRAME_LAYER, GEOMETRY_LAYER};
use svg_export::geometry::{Affine, Point, Segment, Vertex};
use svg_export::pipeline::{
    classify_entity, export_pass, run_export_pass, DrawableEntity, EntityOutcome, MeshResource,
    SkipReason, VertexAttribute,
};
use svg_export::trigger::SvgExportSettings;

fn v(x: i64, y: i64, z: i64) -> Vertex {
    Vertex { x, y, z }
}

fn seg(start: (i64, i64), end: (i64, i64)) -> Segment {
    Segment {
        start: Point { x: start.0, y: start.1 },
        end: Point { x: end.0, y: end.1 },
    }
}

fn res(width: u32, height: u32) -> Resolution {
    Resolution { width, height }
}

fn identity_entity(mesh: usize) -> DrawableEntity {
    DrawableEntity { transform: Affine::identity(), visible: true, mesh }
}

fn mesh3(vertices: Vec<Vertex>) -> MeshResource {
    MeshResource { positions: Some(VertexAttribute::Position3(vertices)) }
}

#[test]
fn decode_pairs_even_count() {
    let vs = vec![v(1, 2, 3), v(4, 5, 6), v(7, 8, 9), v(10, 11, 12)];
    let pairs = decode_segments(&vs);
    assert_eq!(pairs.len(), 2);
    assert_eq!(pairs[0], (v(1, 2, 3), v(4, 5, 6)));
    assert_eq!(pairs[1], (v(7, 8, 9), v(10, 11, 12)));
}

#[test]
fn decode_drops_unpaired_tail() {
    let vs = vec![v(1, 1, 1), v(2, 2, 2), v(3, 3, 3), v(4, 4, 4), v(5, 5, 5)];
    let pairs = decode_segments(&vs);
    assert_eq!(pairs.len(), 2);
    assert_eq!(pairs[0], (v(1, 1, 1), v(2, 2, 2)));
    assert_eq!(pairs[1], (v(3, 3, 3), v(4, 4, 4)));
}

#[test]
fn decode_empty_and_single() {
    assert_eq!(decode_segments(&vec![]).len(), 0);
    assert_eq!(decode_segments(&vec![v(1, 2, 3)]).len(), 0);
}

#[test]
fn extract_identity_discards_depth() {
    let a = Affine::identity();
    let vs = vec![v(0, 0, 9), v(100, 0, 7)];
    let segs = extract_segments(&a, &vs);
    assert_eq!(segs.len(), 1);
    assert_eq!(segs[0], seg((0, 0), (100, 0)));
}

#[test]
fn extract_applies_affine() {
    let a = Affine { xx: 2, xy: 0, xz: 1, tx: 10, yx: 0, yy: 3, yz: 0, ty: -5 };
    let vs = vec![v(1, 1, 9), v(2, 2, 9)];
    let segs = extract_segments(&a, &vs);
    assert_eq!(segs.len(), 1);
    // x = 2 * 1 + 1 * 9 + 10 = 21, y = 3 * 1 - 5 = -2
    // x = 2 * 2 + 1 * 9 + 10 = 23, y = 3 * 2 - 5 = 1
    assert_eq!(segs[0], seg((21, -2), (23, 1)));
}

#[test]
fn page_size_matches_resolution() {
    let page = res(800, 600).as_page_size();
    assert_eq!(page.w, 800);
    assert_eq!(page.h, 600);
}

#[test]
fn begin_creates_empty_document() {
    let doc = Document::begin(&res(800, 600));
    assert_eq!(doc.page.w, 800);
    assert_eq!(doc.page.h, 600);
    assert_eq!(doc.layers.len(), 0);
}

#[test]
fn add_path_keeps_layers_sorted() {
    let mut doc = Document::begin(&res(100, 100));
    doc.add_path(5, vec![seg((0, 0), (1, 1))]);
    doc.add_path(3, vec![seg((2, 2), (3, 3))]);
    doc.add_path(5, vec![seg((4, 4), (5, 5))]);
    assert_eq!(doc.layers.len(), 2);
    assert_eq!(doc.layers[0].id, 3);
    assert_eq!(doc.layers[1].id, 5);
    assert_eq!(doc.layers[0].paths.len(), 1);
    assert_eq!(doc.layers[1].paths.len(), 2);
    assert_eq!(doc.layers[0].paths[0].segments, vec![seg((2, 2), (3, 3))]);
    assert_eq!(doc.layers[1].paths[1].segments, vec![seg((4, 4), (5, 5))]);
}

#[test]
fn invisible_entity_adds_no_path() {
    let entities = vec![DrawableEntity {
        transform: Affine::identity(),
        visible: false,
        mesh: 0,
    }];
    let meshes = vec![mesh3(vec![v(0, 0, 0), v(10, 10, 0)])];
    let doc = run_export_pass(&entities, &meshes, &res(100, 100));
    assert_eq!(doc.layers.len(), 1);
    assert_eq!(doc.layers[0].id, FRAME_LAYER);
}

#[test]
fn dangling_mesh_reference_is_skipped() {
    let entities = vec![identity_entity(3)];
    let meshes = vec![mesh3(vec![v(0, 0, 0), v(10, 10, 0)])];
    let doc = run_export_pass(&entities, &meshes, &res(100, 100));
    assert_eq!(doc.layers.len(), 1);
    assert_eq!(doc.layers[0].id, FRAME_LAYER);
}

#[test]
fn missing_or_unsupported_attribute_is_skipped() {
    let entities = vec![identity_entity(0), identity_entity(1)];
    let meshes = vec![
        MeshResource { positions: None },
        MeshResource { positions: Some(VertexAttribute::Other) },
    ];
    let doc = run_export_pass(&entities, &meshes, &res(100, 100));
    assert_eq!(doc.layers.len(), 1);
    assert_eq!(doc.layers[0].id, FRAME_LAYER);
}

#[test]
fn classify_reports_each_skip_reason() {
    let meshes = vec![
        mesh3(vec![v(0, 0, 0), v(1, 1, 0)]),
        MeshResource { positions: None },
        MeshResource { positions: Some(VertexAttribute::Other) },
    ];
    let invisible = DrawableEntity { transform: Affine::identity(), visible: false, mesh: 0 };
    assert_eq!(
        classify_entity(&invisible, &meshes),
        EntityOutcome::Skipped(SkipReason::Invisible)
    );
    assert_eq!(
        classify_entity(&identity_entity(9), &meshes),
        EntityOutcome::Skipped(SkipReason::MissingMesh)
    );
    assert_eq!(
        classify_entity(&identity_entity(1), &meshes),
        EntityOutcome::Skipped(SkipReason::MissingAttribute)
    );
    assert_eq!(
        classify_entity(&identity_entity(2), &meshes),
        EntityOutcome::Skipped(SkipReason::UnsupportedAttribute)
    );
    assert_eq!(classify_entity(&identity_entity(0), &meshes), EntityOutcome::Contributed);
}

#[test]
fn origin_lands_at_page_center() {
    let entities = vec![identity_entity(0)];
    let meshes = vec![mesh3(vec![v(0, 0, 0), v(0, 0, 0)])];
    let doc = run_export_pass(&entities, &meshes, &res(800, 600));
    assert_eq!(doc.layers.len(), 2);
    let geo = &doc.layers[0];
    assert_eq!(geo.id, GEOMETRY_LAYER);
    assert_eq!(geo.paths.len(), 1);
    assert_eq!(geo.paths[0].segments, vec![seg((400, 300), (400, 300))]);
}

#[test]
fn crop_keeps_inside_and_drops_outside() {
    // After the flip and recentering on a 100 by 100 page:
    // (0,0)-(10,10)    -> (50,50)-(60,40): entirely inside, kept unchanged.
    // (200,0)-(300,0)  -> (250,50)-(350,50): entirely outside, dropped.
    // (0,0)-(100,0)    -> (50,50)-(150,50): partly outside, dropped whole.
    let entities = vec![identity_entity(0)];
    let meshes = vec![mesh3(vec![
        v(0, 0, 0),
        v(10, 10, 0),
        v(200, 0, 0),
        v(300, 0, 0),
        v(0, 0, 0),
        v(100, 0, 0),
    ])];
    let doc = run_export_pass(&entities, &meshes, &res(100, 100));
    let geo = &doc.layers[0];
    assert_eq!(geo.id, GEOMETRY_LAYER);
    assert_eq!(geo.paths.len(), 1);
    assert_eq!(geo.paths[0].segments, vec![seg((50, 50), (60, 40))]);
}

#[test]
fn frame_present_even_without_geometry() {
    let doc = run_export_pass(&vec![], &vec![], &res(800, 600));
    assert_eq!(doc.layers.len(), 1);
    let frame = &doc.layers[0];
    assert_eq!(frame.id, FRAME_LAYER);
    assert_eq!(frame.paths.len(), 1);
    let f = &frame.paths[0].segments;
    assert_eq!(f.len(), 4);
    assert_eq!(f[0], seg((0, 0), (800, 0)));
    assert_eq!(f[1], seg((800, 0), (800, 600)));
    assert_eq!(f[2], seg((800, 600), (0, 600)));
    assert_eq!(f[3], seg((0, 600), (0, 0)));
}

#[test]
fn two_requests_collapse_to_one_export() {
    let mut settings = SvgExportSettings::new(String::from("output.svg"));
    assert!(!settings.run_export);
    settings.request_export();
    settings.request_export();
    assert!(settings.take_run_export());
    assert!(!settings.take_run_export());
}

#[test]
fn export_pass_is_gated_by_the_trigger() {
    let mut settings = SvgExportSettings::new(String::from("output.svg"));
    let entities = vec![];
    let meshes = vec![];
    assert!(export_pass(&mut settings, &entities, &meshes, &res(10, 10)).is_none());
    settings.request_export();
    settings.request_export();
    assert!(export_pass(&mut settings, &entities, &meshes, &res(10, 10)).is_some());
    assert!(export_pass(&mut settings, &entities, &meshes, &res(10, 10)).is_none());
}

#[test]
fn end_to_end_example() {
    let entities = vec![identity_entity(0)];
    let meshes = vec![mesh3(vec![
        v(0, 0, 0),
        v(100, 0, 0),
        v(100, 0, 0),
        v(100, 100, 0),
    ])];
    let doc = run_export_pass(&entities, &meshes, &res(800, 600));
    assert_eq!(doc.page.w, 800);
    assert_eq!(doc.page.h, 600);
    assert_eq!(doc.layers.len(), 2);
    let geo = &doc.layers[0];
    assert_eq!(geo.id, GEOMETRY_LAYER);
    assert_eq!(geo.paths.len(), 1);
    assert_eq!(
        geo.paths[0].segments,
        vec![seg((400, 300), (500, 300)), seg((500, 300), (500, 200))]
    );
    let frame = &doc.layers[1];
    assert_eq!(frame.id, FRAME_LAYER);
    assert_eq!(frame.paths.len(), 1);
    assert_eq!(
        frame.paths[0].segments,
        vec![
            seg((0, 0), (800, 0)),
            seg((800, 0), (800, 600)),
            seg((800, 600), (0, 600)),
            seg((0, 600), (0, 0)),
        ]
    );
}

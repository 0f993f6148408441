//! Decoding of a flat positional vertex buffer into line segments.
//!
//! Vertices are taken two at a time in buffer order; each pair is one
//! segment's endpoints. A trailing unpaired vertex is dropped.

use vstd::prelude::*;

use crate::geometry::{
    affine_bounded, segment_in_world, vertex_bounded, world_point, Affine, Segment, Vertex,
};

verus! {

/// The pairs of consecutive vertices in a buffer: entry `i` holds vertices
/// `2 * i` and `2 * i + 1`. A trailing unpaired vertex contributes nothing.
pub open spec fn decoded_pairs(vs: Seq<Vertex>) -> Seq<(Vertex, Vertex)> {
    Seq::new(vs.len() / 2, |i: int| (vs[2 * i], vs[2 * i + 1]))
}

/// The segments a buffer yields under a transform: each vertex pair, with
/// both endpoints projected into world space.
pub open spec fn world_segments(a: Affine, vs: Seq<Vertex>) -> Seq<Segment> {
    Seq::new(
        vs.len() / 2,
        |i: int| Segment { start: world_point(a, vs[2 * i]), end: world_point(a, vs[2 * i + 1]) },
    )
}

pub open spec fn buffer_bounded(vs: Seq<Vertex>) -> bool {
    forall|i: int| 0 <= i < vs.len() ==> vertex_bounded(#[trigger] vs[i])
}

/// Pairs the vertices of a positional buffer in order, dropping a trailing
/// unpaired vertex: a buffer of `n` vertices yields exactly `n / 2` pairs.
pub fn decode_segments(vertices: &Vec<Vertex>) -> (pairs: Vec<(Vertex, Vertex)>)
    ensures
        pairs@ == decoded_pairs(vertices@),
        pairs@.len() == vertices@.len() / 2,
{
    let mut pairs: Vec<(Vertex, Vertex)> = Vec::new();
    let mut i: usize = 0;
    while vertices.len() - i >= 2
        invariant
            i <= vertices.len(),
            i % 2 == 0,
            pairs@.len() == i / 2,
            forall|j: int|
                0 <= j < pairs@.len() ==> #[trigger] pairs@[j]
                    == (vertices@[2 * j], vertices@[2 * j + 1]),
        decreases vertices.len() - i,
    {
        pairs.push((vertices[i], vertices[i + 1]));
        i = i + 2;
    }
    proof {
        assert(pairs@ =~= decoded_pairs(vertices@));
    }
    pairs
}

/// Projects both endpoints of every decoded pair into world space with the
/// owning entity's transform.
pub fn transform_segments(a: &Affine, pairs: &Vec<(Vertex, Vertex)>) -> (segs: Vec<Segment>)
    requires
        affine_bounded(*a),
        forall|i: int|
            0 <= i < pairs@.len() ==> vertex_bounded(#[trigger] pairs@[i].0) && vertex_bounded(
                pairs@[i].1,
            ),
    ensures
        segs@.len() == pairs@.len(),
        forall|i: int|
            0 <= i < segs@.len() ==> #[trigger] segs@[i] == (Segment {
                start: world_point(*a, pairs@[i].0),
                end: world_point(*a, pairs@[i].1),
            }),
        forall|i: int| 0 <= i < segs@.len() ==> segment_in_world(#[trigger] segs@[i]),
{
    let mut segs: Vec<Segment> = Vec::new();
    let mut i: usize = 0;
    while i < pairs.len()
        invariant
            i <= pairs.len(),
            segs@.len() == i,
            affine_bounded(*a),
            forall|j: int|
                0 <= j < pairs@.len() ==> vertex_bounded(#[trigger] pairs@[j].0) && vertex_bounded(
                    pairs@[j].1,
                ),
            forall|j: int|
                0 <= j < segs@.len() ==> #[trigger] segs@[j] == (Segment {
                    start: world_point(*a, pairs@[j].0),
                    end: world_point(*a, pairs@[j].1),
                }),
            forall|j: int| 0 <= j < segs@.len() ==> segment_in_world(#[trigger] segs@[j]),
        decreases pairs.len() - i,
    {
        let pair = pairs[i];
        let start = a.apply(&pair.0);
        let end = a.apply(&pair.1);
        segs.push(Segment { start, end });
        i = i + 1;
    }
    segs
}

/// Decodes a positional buffer and projects it into world space in one pass:
/// the per-entity half of the export pipeline.
pub fn extract_segments(a: &Affine, vertices: &Vec<Vertex>) -> (segs: Vec<Segment>)
    requires
        affine_bounded(*a),
        buffer_bounded(vertices@),
    ensures
        segs@ == world_segments(*a, vertices@),
        forall|i: int| 0 <= i < segs@.len() ==> segment_in_world(#[trigger] segs@[i]),
{
    let pairs = decode_segments(vertices);
    let segs = transform_segments(a, &pairs);
    proof {
        assert(segs@ =~= world_segments(*a, vertices@));
    }
    segs
}

} // verus!

//! Points, mesh vertices and affine transforms in whole document units.

use vstd::prelude::*;

verus! {

/// Largest magnitude accepted for a mesh coordinate or an affine coefficient.
/// Keeping both at or below 2^29 keeps a projected world coordinate (three
/// products plus a translation) strictly below 2^60.
pub const INPUT_LIMIT: i64 = 0x2000_0000;

/// Bound on every coordinate a document may hold before finalization: wide
/// enough for any projected vertex, narrow enough that recentering on the
/// page cannot overflow an `i64`.
pub const WORLD_LIMIT: i64 = 0x1000_0000_0000_0000;

/// A 2D point.
#[derive(Clone, Copy, Debug, PartialEq, Eq, Structural)]
pub struct Point {
    pub x: i64,
    pub y: i64,
}

/// A mesh vertex: three components, of which the third (depth) is discarded
/// when the vertex is projected onto the page plane.
#[derive(Clone, Copy, Debug, PartialEq, Eq, Structural)]
pub struct Vertex {
    pub x: i64,
    pub y: i64,
    pub z: i64,
}

/// A line segment between two points, the unit of extracted geometry.
#[derive(Clone, Copy, Debug, PartialEq, Eq, Structural)]
pub struct Segment {
    pub start: Point,
    pub end: Point,
}

/// The two rows of a 3D affine transform that determine the projected x and
/// y coordinates; the row producing depth is dropped, since the projection
/// discards it anyway.
#[derive(Clone, Copy, Debug, PartialEq, Eq, Structural)]
pub struct Affine {
    pub xx: i64,
    pub xy: i64,
    pub xz: i64,
    pub tx: i64,
    pub yx: i64,
    pub yy: i64,
    pub yz: i64,
    pub ty: i64,
}

pub open spec fn coeff_bounded(c: i64) -> bool {
    -INPUT_LIMIT <= c <= INPUT_LIMIT
}

pub open spec fn vertex_bounded(v: Vertex) -> bool {
    coeff_bounded(v.x) && coeff_bounded(v.y) && coeff_bounded(v.z)
}

pub open spec fn affine_bounded(a: Affine) -> bool {
    &&& coeff_bounded(a.xx)
    &&& coeff_bounded(a.xy)
    &&& coeff_bounded(a.xz)
    &&& coeff_bounded(a.tx)
    &&& coeff_bounded(a.yx)
    &&& coeff_bounded(a.yy)
    &&& coeff_bounded(a.yz)
    &&& coeff_bounded(a.ty)
}

/// The x coordinate of a vertex carried into world space, as unbounded math.
pub open spec fn world_x(a: Affine, v: Vertex) -> int {
    a.xx * v.x + a.xy * v.y + a.xz * v.z + a.tx
}

/// The y coordinate of a vertex carried into world space, as unbounded math.
pub open spec fn world_y(a: Affine, v: Vertex) -> int {
    a.yx * v.x + a.yy * v.y + a.yz * v.z + a.ty
}

/// The projected world-space image of a vertex. For bounded inputs the casts
/// are exact (see `Affine::apply`).
pub open spec fn world_point(a: Affine, v: Vertex) -> Point {
    Point { x: world_x(a, v) as i64, y: world_y(a, v) as i64 }
}

pub open spec fn point_in_world(p: Point) -> bool {
    &&& -WORLD_LIMIT <= p.x <= WORLD_LIMIT
    &&& -WORLD_LIMIT <= p.y <= WORLD_LIMIT
}

pub open spec fn segment_in_world(s: Segment) -> bool {
    point_in_world(s.start) && point_in_world(s.end)
}

proof fn lemma_mul_bound(a: int, b: int, m: int)
    requires
        -m <= a <= m,
        -m <= b <= m,
    ensures
        -(m * m) <= a * b <= m * m,
{
    assert(-(m * m) <= a * b <= m * m) by (nonlinear_arith)
        requires
            -m <= a <= m,
            -m <= b <= m,
    ;
}

/// For a bounded transform and vertex the world coordinates stay strictly
/// inside the stored-coordinate range.
proof fn lemma_world_bounded(a: Affine, v: Vertex)
    requires
        affine_bounded(a),
        vertex_bounded(v),
    ensures
        -WORLD_LIMIT < world_x(a, v) < WORLD_LIMIT,
        -WORLD_LIMIT < world_y(a, v) < WORLD_LIMIT,
        world_point(a, v).x == world_x(a, v),
        world_point(a, v).y == world_y(a, v),
        segment_in_world(Segment { start: world_point(a, v), end: world_point(a, v) }),
{
    lemma_mul_bound(a.xx as int, v.x as int, INPUT_LIMIT as int);
    lemma_mul_bound(a.xy as int, v.y as int, INPUT_LIMIT as int);
    lemma_mul_bound(a.xz as int, v.z as int, INPUT_LIMIT as int);
    lemma_mul_bound(a.yx as int, v.x as int, INPUT_LIMIT as int);
    lemma_mul_bound(a.yy as int, v.y as int, INPUT_LIMIT as int);
    lemma_mul_bound(a.yz as int, v.z as int, INPUT_LIMIT as int);
}

/// The identity transform: every vertex maps to its own x and y.
pub open spec fn identity_affine() -> Affine {
    Affine { xx: 1, xy: 0, xz: 0, tx: 0, yx: 0, yy: 1, yz: 0, ty: 0 }
}

impl Affine {
    /// The identity transform: every vertex maps to its own x and y.
    pub fn identity() -> (a: Affine)
        ensures
            a == identity_affine(),
            affine_bounded(a),
            forall|v: Vertex| #[trigger] world_x(a, v) == v.x && world_y(a, v) == v.y,
    {
        let a = Affine { xx: 1, xy: 0, xz: 0, tx: 0, yx: 0, yy: 1, yz: 0, ty: 0 };
        proof {
            assert forall|v: Vertex| #[trigger] world_x(a, v) == v.x && world_y(a, v) == v.y by {
                assert(world_x(a, v) == 1 * v.x + 0 * v.y + 0 * v.z + 0);
                assert(world_y(a, v) == 0 * v.x + 1 * v.y + 0 * v.z + 0);
            }
        }
        a
    }

    /// Projects a vertex into world space: applies the affine map and keeps
    /// only the page-plane coordinates.
    pub fn apply(&self, v: &Vertex) -> (p: Point)
        requires
            affine_bounded(*self),
            vertex_bounded(*v),
        ensures
            p == world_point(*self, *v),
            p.x == world_x(*self, *v),
            p.y == world_y(*self, *v),
            point_in_world(p),
    {
        proof {
            lemma_world_bounded(*self, *v);
            lemma_mul_bound(self.xx as int, v.x as int, INPUT_LIMIT as int);
            lemma_mul_bound(self.xy as int, v.y as int, INPUT_LIMIT as int);
            lemma_mul_bound(self.xz as int, v.z as int, INPUT_LIMIT as int);
            lemma_mul_bound(self.yx as int, v.x as int, INPUT_LIMIT as int);
            lemma_mul_bound(self.yy as int, v.y as int, INPUT_LIMIT as int);
            lemma_mul_bound(self.yz as int, v.z as int, INPUT_LIMIT as int);
        }
        let x: i64 = self.xx * v.x + self.xy * v.y + self.xz * v.z + self.tx;
        let y: i64 = self.yx * v.x + self.yy * v.y + self.yz * v.z + self.ty;
        Point { x, y }
    }
}

} // verus!

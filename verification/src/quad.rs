//! The fullscreen quad: the geometry whose fragments are the pixels.
//!
//! The screen is the square from -1 to 1 on both axes. Two triangles over
//! four corners cover it, so that each pixel is shaded; they meet along one
//! diagonal only, so that none is shaded twice.

use vstd::prelude::*;

verus! {

/// A corner of the quad in screen coordinates. The quad lies in the plane
/// `z = 0`.
#[derive(Clone, Copy, Debug, PartialEq, Eq, Structural)]
pub struct Corner {
    pub x: i8,
    pub y: i8,
}

/// How the indices of a mesh are assembled into primitives.
#[derive(Clone, Copy, Debug, PartialEq, Eq, Structural)]
pub enum Primitive {
    /// Every two indices form a line.
    Lines,
    /// Every three indices form a triangle.
    Triangles,
}

/// Corners and the indices that join them into triangles.
#[derive(Debug)]
pub struct Quad {
    pub corners: Vec<Corner>,
    pub indices: Vec<u32>,
}

/// The corner at `(x, y)`.
pub open spec fn corner_at(x: int, y: int) -> Corner {
    Corner { x: x as i8, y: y as i8 }
}

/// The four corners of the screen.
pub open spec fn screen_corners() -> Seq<Corner> {
    seq![corner_at(-1, -1), corner_at(-1, 1), corner_at(1, -1), corner_at(1, 1)]
}

/// Two triangles that share the diagonal between corners 1 and 2.
pub open spec fn screen_indices() -> Seq<u32> {
    seq![0, 1, 2, 1, 2, 3]
}

/// Twice the signed area of the triangle `a`, `b`, `(px / den, py / den)`,
/// times `den`: positive where the point lies to the left of the edge from
/// `a` to `b`, zero on the edge.
pub open spec fn side(a: Corner, b: Corner, px: int, py: int, den: int) -> int {
    (b.x - a.x) * (py - a.y * den) - (b.y - a.y) * (px - a.x * den)
}

/// Whether the point `(px / den, py / den)` lies in triangle `t` of the mesh,
/// its edges included.
pub open spec fn in_triangle(
    corners: Seq<Corner>,
    indices: Seq<u32>,
    t: int,
    px: int,
    py: int,
    den: int,
) -> bool {
    let a = corners[indices[3 * t] as int];
    let b = corners[indices[3 * t + 1] as int];
    let c = corners[indices[3 * t + 2] as int];
    let ab = side(a, b, px, py, den);
    let bc = side(b, c, px, py, den);
    let ca = side(c, a, px, py, den);
    (ab >= 0 && bc >= 0 && ca >= 0) || (ab <= 0 && bc <= 0 && ca <= 0)
}

/// Whether the point `(px / den, py / den)` lies on the screen.
pub open spec fn on_screen(px: int, py: int, den: int) -> bool {
    -den <= px <= den && -den <= py <= den
}

/// The fullscreen quad.
pub fn fullscreen_quad() -> (quad: Quad)
    ensures
        quad.corners@ == screen_corners(),
        quad.indices@ == screen_indices(),
        forall|i: int| 0 <= i < quad.indices@.len() ==> quad.indices@[i] < quad.corners@.len(),
{
    let mut corners: Vec<Corner> = Vec::new();
    corners.push(Corner { x: -1, y: -1 });
    corners.push(Corner { x: -1, y: 1 });
    corners.push(Corner { x: 1, y: -1 });
    corners.push(Corner { x: 1, y: 1 });
    let mut indices: Vec<u32> = Vec::new();
    indices.push(0);
    indices.push(1);
    indices.push(2);
    indices.push(1);
    indices.push(2);
    indices.push(3);
    Quad { corners, indices }
}

/// The primitive a mesh is drawn with: lines for a wireframe, else
/// triangles.
pub fn primitive(wireframe: bool) -> (kind: Primitive)
    ensures
        kind == if wireframe {
            Primitive::Lines
        } else {
            Primitive::Triangles
        },
{
    if wireframe {
        Primitive::Lines
    } else {
        Primitive::Triangles
    }
}

/// The quad covers the screen and nothing else: a point lies in one of the
/// two triangles exactly if it lies on the screen.
pub proof fn lemma_quad_covers_screen(px: int, py: int, den: int)
    requires
        den > 0,
    ensures
        on_screen(px, py, den) <==> in_triangle(screen_corners(), screen_indices(), 0, px, py, den)
            || in_triangle(screen_corners(), screen_indices(), 1, px, py, den),
{
    lemma_triangles_of_quad(px, py, den);
}

/// The two triangles overlap on their shared diagonal only.
pub proof fn lemma_quad_triangles_meet_on_diagonal(px: int, py: int, den: int)
    requires
        den > 0,
        in_triangle(screen_corners(), screen_indices(), 0, px, py, den),
        in_triangle(screen_corners(), screen_indices(), 1, px, py, den),
    ensures
        px + py == 0,
{
    lemma_triangles_of_quad(px, py, den);
}

/// The two triangles as half-planes: the first is the screen below the
/// diagonal, the second the screen above it.
proof fn lemma_triangles_of_quad(px: int, py: int, den: int)
    requires
        den > 0,
    ensures
        in_triangle(screen_corners(), screen_indices(), 0, px, py, den) <==> on_screen(px, py, den)
            && px + py <= 0,
        in_triangle(screen_corners(), screen_indices(), 1, px, py, den) <==> on_screen(px, py, den)
            && px + py >= 0,
{
    let c0 = corner_at(-1, -1);
    let c1 = corner_at(-1, 1);
    let c2 = corner_at(1, -1);
    let c3 = corner_at(1, 1);
    assert(side(c0, c1, px, py, den) == -2 * (px + den)) by (nonlinear_arith)
        requires
            c0.x == -1 && c0.y == -1 && c1.x == -1 && c1.y == 1,
    ;
    assert(side(c1, c2, px, py, den) == 2 * (px + py)) by (nonlinear_arith)
        requires
            c1.x == -1 && c1.y == 1 && c2.x == 1 && c2.y == -1,
    ;
    assert(side(c2, c0, px, py, den) == -2 * (py + den)) by (nonlinear_arith)
        requires
            c2.x == 1 && c2.y == -1 && c0.x == -1 && c0.y == -1,
    ;
    assert(side(c2, c3, px, py, den) == -2 * (px - den)) by (nonlinear_arith)
        requires
            c2.x == 1 && c2.y == -1 && c3.x == 1 && c3.y == 1,
    ;
    assert(side(c3, c1, px, py, den) == -2 * (py - den)) by (nonlinear_arith)
        requires
            c3.x == 1 && c3.y == 1 && c1.x == -1 && c1.y == 1,
    ;
}

} // verus!

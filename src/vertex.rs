//! The vertex stage: one corner of an over-sized triangle per invocation
//! index, with no vertex buffer.
use vstd::prelude::*;

verus! {

/// A clip-space position. The stage writes whole numbers only, so the four
/// components are integers; the shader hands them on as floats.
#[derive(Clone, Copy, Debug, PartialEq, Eq, Structural)]
pub struct ClipPosition {
    pub x: i32,
    pub y: i32,
    pub z: i32,
    pub w: i32,
}

/// The coordinate that one bit of the index selects: `-1` when the bit is
/// clear, `3` when it is set.
pub open spec fn corner_coord(bit_set: bool) -> int {
    if bit_set { 3 } else { -1 }
}

/// The x coordinate of corner `id`: chosen by bit 0 of the index.
pub open spec fn corner_x(id: i32) -> int {
    corner_coord(id & 1 != 0)
}

/// The y coordinate of corner `id`: chosen by bit 1 of the index.
pub open spec fn corner_y(id: i32) -> int {
    corner_coord(id & 2 != 0)
}

/// The vertex stage. Bit 0 of `vert_id` picks x and bit 1 picks y, each
/// `-1` or `3`; the position lies on the plane `z = 0` with `w = 1`.
pub fn main_vs(vert_id: i32) -> (r: ClipPosition)
    ensures
        r.x == corner_x(vert_id),
        r.y == corner_y(vert_id),
        r.z == 0,
        r.w == 1,
{
    let bx: i32 = vert_id & 1;
    let by: i32 = vert_id & 2;
    assert((bx << 2) == 0 || (bx << 2) == 4) by (bit_vector)
        requires
            bx == vert_id & 1,
    ;
    assert((by << 1) == 0 || (by << 1) == 4) by (bit_vector)
        requires
            by == vert_id & 2,
    ;
    let x: i32 = (bx << 2) - 1;
    let y: i32 = (by << 1) - 1;
    assert(x == corner_x(vert_id)) by (bit_vector)
        requires
            bx == vert_id & 1,
            x == (bx << 2) - 1,
    ;
    assert(y == corner_y(vert_id)) by (bit_vector)
        requires
            by == vert_id & 2,
            y == (by << 1) - 1,
    ;
    ClipPosition { x, y, z: 0, w: 1 }
}

/// The corner that invocation `i` writes, as a point of the clip plane.
pub open spec fn corner(i: i32) -> (int, int) {
    (corner_x(i), corner_y(i))
}

/// Twice the signed area of the triangle `p`, `q`, `(a / d, b / d)`, times
/// `d`: positive when the point lies to the left of the edge from `p` to `q`.
pub open spec fn edge_side(p: (int, int), q: (int, int), a: int, b: int, d: int) -> int {
    (q.0 - p.0) * (b - p.1 * d) - (q.1 - p.1) * (a - p.0 * d)
}

/// The point `(a / d, b / d)` lies in the closed triangle that the three
/// invocations draw: on the same side of all three edges, or on one of them.
pub open spec fn in_closed_triangle(a: int, b: int, d: int) -> bool {
    let e0 = edge_side(corner(0), corner(1), a, b, d);
    let e1 = edge_side(corner(1), corner(2), a, b, d);
    let e2 = edge_side(corner(2), corner(0), a, b, d);
    (e0 >= 0 && e1 >= 0 && e2 >= 0) || (e0 <= 0 && e1 <= 0 && e2 <= 0)
}

/// The point `(a / d, b / d)` lies strictly inside the triangle.
pub open spec fn in_open_triangle(a: int, b: int, d: int) -> bool {
    let e0 = edge_side(corner(0), corner(1), a, b, d);
    let e1 = edge_side(corner(1), corner(2), a, b, d);
    let e2 = edge_side(corner(2), corner(0), a, b, d);
    (e0 > 0 && e1 > 0 && e2 > 0) || (e0 < 0 && e1 < 0 && e2 < 0)
}

/// The three invocations write the corners `(-1, -1)`, `(3, -1)` and
/// `(-1, 3)`.
pub proof fn lemma_corners()
    ensures
        corner(0) == (-1int, -1int),
        corner(1) == (3int, -1int),
        corner(2) == (-1int, 3int),
{
    assert(corner_x(0) == -1 && corner_y(0) == -1) by (bit_vector);
    assert(corner_x(1) == 3 && corner_y(1) == -1) by (bit_vector);
    assert(corner_x(2) == -1 && corner_y(2) == 3) by (bit_vector);
}

/// The triangle of the three invocations covers the whole viewport: every
/// point `(a / d, b / d)` of the square `[-1, 1] x [-1, 1]` lies in it, every
/// point of the open square lies in its interior, and it reaches past the
/// square, so clipping leaves exactly the viewport.
pub proof fn lemma_triangle_covers_viewport(a: int, b: int, d: int)
    requires
        d > 0,
        -d <= a <= d,
        -d <= b <= d,
    ensures
        in_closed_triangle(a, b, d),
        (-d < a < d && -d < b < d) ==> in_open_triangle(a, b, d),
        corner(1).0 > 1,
        corner(2).1 > 1,
{
    lemma_corners();
    let e0 = edge_side(corner(0), corner(1), a, b, d);
    let e1 = edge_side(corner(1), corner(2), a, b, d);
    let e2 = edge_side(corner(2), corner(0), a, b, d);
    assert(e0 == 4 * (b + d) && e1 == 4 * (2 * d - a - b) && e2 == 4 * (a + d))
        by (nonlinear_arith)
        requires
            e0 == edge_side(corner(0), corner(1), a, b, d),
            e1 == edge_side(corner(1), corner(2), a, b, d),
            e2 == edge_side(corner(2), corner(0), a, b, d),
            corner(0) == (-1int, -1int),
            corner(1) == (3int, -1int),
            corner(2) == (-1int, 3int),
    ;
}

} // verus!

//! Integer grid points and the spec-level vector arithmetic the kernel uses.

use vstd::prelude::*;

verus! {

/// Coordinates admitted by the collision routines. Keeping every coordinate
/// within this bound makes each dot product, squared length and penetration
/// comparison in the kernel exact in machine integers.
pub const COORD_BOUND: i64 = 65536;

/// A grid point with a third component that the 2D collision math carries
/// through untouched (a layering or depth coordinate).
#[derive(Clone, Copy, PartialEq, Eq, Structural, Debug)]
pub struct Vec3i {
    pub x: i64,
    pub y: i64,
    pub z: i64,
}

/// A 2D grid vector: a flattened vertex or an (unnormalized) projection axis.
#[derive(Clone, Copy, PartialEq, Eq, Structural, Debug)]
pub struct Vec2i {
    pub x: i64,
    pub y: i64,
}

/// The x/y projection of a 3D point.
pub open spec fn flat(v: Vec3i) -> Vec2i {
    Vec2i { x: v.x, y: v.y }
}

/// Dot product of a 2D axis, given as an (x, y) pair of mathematical
/// integers, with a 2D grid vector.
pub open spec fn dot(ax: (int, int), v: Vec2i) -> int {
    ax.0 * v.x + ax.1 * v.y
}

/// Squared length of a 2D axis.
pub open spec fn len_sq(ax: (int, int)) -> int {
    ax.0 * ax.0 + ax.1 * ax.1
}

/// Whether both components of a 2D vector lie within the kernel's grid.
pub open spec fn vec2_in_bounds(v: Vec2i) -> bool {
    -COORD_BOUND <= v.x <= COORD_BOUND && -COORD_BOUND <= v.y <= COORD_BOUND
}

/// Whether the x and y components of a point lie within the kernel's grid.
/// The carried z component never enters the collision math and is exempt.
pub open spec fn vec3_in_bounds(v: Vec3i) -> bool {
    vec2_in_bounds(flat(v))
}

/// The componentwise sum of a point and a displacement.
pub open spec fn shifted(v: Vec3i, d: Vec3i) -> Vec3i {
    Vec3i { x: (v.x + d.x) as i64, y: (v.y + d.y) as i64, z: (v.z + d.z) as i64 }
}

/// Whether the componentwise sum of a point and a displacement fits in the
/// machine integers that store coordinates.
pub open spec fn shift_fits(v: Vec3i, d: Vec3i) -> bool {
    &&& i64::MIN <= v.x + d.x <= i64::MAX
    &&& i64::MIN <= v.y + d.y <= i64::MAX
    &&& i64::MIN <= v.z + d.z <= i64::MAX
}

/// |x| <= bx and |y| <= by bound the product |x * y| by bx * by.
pub proof fn lemma_mul_bound(x: int, y: int, bx: int, by: int)
    requires
        -bx <= x <= bx,
        -by <= y <= by,
        0 <= bx,
        0 <= by,
    ensures
        -(bx * by) <= x * y <= bx * by,
{
    assert(-(bx * by) <= x * y <= bx * by) by (nonlinear_arith)
        requires
            -bx <= x <= bx,
            -by <= y <= by,
            0 <= bx,
            0 <= by,
    ;
}

} // verus!

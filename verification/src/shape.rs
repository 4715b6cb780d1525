//! The polygon data type, its rigid translation, and the collision report.

use vstd::prelude::*;

use crate::geom::lemma_mul_bound;
use crate::geom::shift_fits;
use crate::geom::shifted;
use crate::geom::vec3_in_bounds;
use crate::geom::Vec2i;
use crate::geom::Vec3i;

verus! {

/// An ordered polygon: the vertices trace its boundary, and `origin` is the
/// reference point used for the positional offset between two shapes. It need
/// not be the centroid of the vertices.
pub struct Shape {
    pub vertices: Vec<Vec3i>,
    pub origin: Vec3i,
}

/// The outcome of a successful collision test.
///
/// The reported axis is an unnormalized edge perpendicular. Writing `L` for
/// the length of `vector` (so `L * L == axis_len_sq`), the penetration depth
/// along the unit axis is `distance / L`, and the translation that separates
/// the shapes along that axis is `seperation / axis_len_sq`, both exact
/// rationals over the reported integers.
pub struct CollisionInfo {
    /// Snapshot of the first input shape at the time of the test.
    pub shape_a: Shape,
    /// Snapshot of the second input shape at the time of the test.
    pub shape_b: Shape,
    /// Signed penetration depth along `vector`, scaled by `vector`'s length.
    pub distance: i64,
    /// The unnormalized axis achieving the minimum penetration.
    pub vector: Vec2i,
    /// Squared length of `vector`.
    pub axis_len_sq: i64,
    /// Whether shape A's projection interval contains shape B's on the last
    /// axis evaluated.
    pub contain_a: bool,
    /// Whether shape B's projection interval contains shape A's on the last
    /// axis evaluated.
    pub contain_b: bool,
    /// `vector * distance`: the separating translation, scaled by
    /// `axis_len_sq`.
    pub seperation: Vec2i,
}

impl Shape {
    /// A well-formed polygon has at least three vertices.
    pub open spec fn wf(self) -> bool {
        self.vertices@.len() >= 3
    }

    /// Whether every vertex lies on the kernel's grid.
    pub open spec fn vertices_in_bounds(self) -> bool {
        forall|i: int| 0 <= i < self.vertices@.len() ==> vec3_in_bounds(#[trigger] self.vertices@[i])
    }

    /// Whether every vertex and the origin lie on the kernel's grid.
    pub open spec fn in_bounds(self) -> bool {
        &&& self.vertices_in_bounds()
        &&& vec3_in_bounds(self.origin)
    }

    /// An owned copy of this shape, value for value.
    pub fn snapshot(&self) -> (r: Shape)
        ensures
            r.vertices@ == self.vertices@,
            r.origin == self.origin,
    {
        let n = self.vertices.len();
        let mut vs: Vec<Vec3i> = Vec::new();
        let mut i: usize = 0;
        while i < n
            invariant
                i <= n,
                n == self.vertices@.len(),
                vs@ =~= self.vertices@.take(i as int),
            decreases n - i,
        {
            vs.push(self.vertices[i]);
            proof {
                assert(vs@ =~= self.vertices@.take(i + 1));
            }
            i = i + 1;
        }
        proof {
            assert(self.vertices@.take(n as int) =~= self.vertices@);
        }
        Shape { vertices: vs, origin: self.origin }
    }
}

/// Every vertex of `vs` shifted by the displacement `d`.
pub open spec fn shifted_seq(vs: Seq<Vec3i>, d: Vec3i) -> Seq<Vec3i> {
    vs.map_values(|v: Vec3i| shifted(v, d))
}

/// Whether shifting every vertex of `vs` by `d` stays within machine
/// integers.
pub open spec fn shift_seq_fits(vs: Seq<Vec3i>, d: Vec3i) -> bool {
    forall|i: int| 0 <= i < vs.len() ==> shift_fits(#[trigger] vs[i], d)
}

/// Adds `direction` to every vertex and to the origin of `shape`, in place,
/// and hands the same shape back for chaining.
pub fn move_shape(shape: &mut Shape, direction: Vec3i) -> (r: &mut Shape)
    requires
        shift_seq_fits(old(shape).vertices@, direction),
        shift_fits(old(shape).origin, direction),
    ensures
        r.vertices@ == shifted_seq(old(shape).vertices@, direction),
        r.origin == shifted(old(shape).origin, direction),
        *final(shape) == *final(r),
{
    let n = shape.vertices.len();
    let mut vs: Vec<Vec3i> = Vec::new();
    let mut i: usize = 0;
    while i < n
        invariant
            i <= n,
            n == shape.vertices@.len(),
            shift_seq_fits(shape.vertices@, direction),
            vs@ =~= shifted_seq(shape.vertices@.take(i as int), direction),
        decreases n - i,
    {
        let v = shape.vertices[i];
        vs.push(Vec3i { x: v.x + direction.x, y: v.y + direction.y, z: v.z + direction.z });
        proof {
            assert(vs@ =~= shifted_seq(shape.vertices@.take(i + 1), direction));
        }
        i = i + 1;
    }
    proof {
        assert(shape.vertices@.take(n as int) =~= shape.vertices@);
        assert(vs@ =~= shifted_seq(shape.vertices@, direction));
    }
    shape.vertices = vs;
    shape.origin = Vec3i {
        x: shape.origin.x + direction.x,
        y: shape.origin.y + direction.y,
        z: shape.origin.z + direction.z,
    };
    shape
}

/// Scale of the fixed-point rotor components: a rotor stores the cosine and
/// sine of its angle, each multiplied by this unit.
pub const ROT_ONE: i64 = 65536;

/// A rotation about the coordinate origin, given in fixed point: `cos_n` and
/// `sin_n` are the angle's cosine and sine scaled by `ROT_ONE`. Rotating maps
/// each vertex through the usual rotation matrix and rounds the result to
/// the nearest grid point.
#[derive(Clone, Copy, PartialEq, Eq, Structural, Debug)]
pub struct Rotor2 {
    pub cos_n: i64,
    pub sin_n: i64,
}

impl Rotor2 {
    /// A rotor's components never exceed the unit in magnitude, as a scaled
    /// cosine and sine never do.
    pub open spec fn wf(self) -> bool {
        -ROT_ONE <= self.cos_n <= ROT_ONE && -ROT_ONE <= self.sin_n <= ROT_ONE
    }
}

/// Division of `t` by `ROT_ONE` rounded to the nearest integer, ties
/// rounding up.
pub open spec fn rdiv(t: int) -> int {
    (2 * t + ROT_ONE) / (2 * ROT_ONE)
}

/// The x coordinate of a vertex rotated by the rotor `(c, s)`.
pub open spec fn rot_x(v: Vec3i, c: int, s: int) -> int {
    rdiv(c * v.x - s * v.y)
}

/// The y coordinate of a vertex rotated by the rotor `(c, s)`.
pub open spec fn rot_y(v: Vec3i, c: int, s: int) -> int {
    rdiv(s * v.x + c * v.y)
}

/// Divides a doubled-scale product by `ROT_ONE`, rounding to nearest.
fn scale_down(t: i64) -> (r: i64)
    requires
        -8589934592 <= t <= 8589934592,
    ensures
        r == rdiv(t as int),
{
    proof {
        assert(131072int * 131072 == 17179869184) by (nonlinear_arith);
        vstd::arithmetic::div_mod::lemma_hoist_over_denominator(
            2 * t + 65536,
            131072,
            131072nat,
        );
    }
    let num: i64 = 2 * t + 65536 + 17179869184;
    let q: u64 = (num as u64) / 131072;
    (q as i64) - 131072
}

/// Rotates every vertex of `shape` about the coordinate origin `(0, 0)` (not
/// about the shape's own `origin` field, which is left untouched, as is each
/// vertex's z) by the rotation the rotor encodes, rounding each new
/// coordinate to the nearest grid point, and hands the same shape back for
/// chaining.
pub fn rotate(shape: &mut Shape, rot: Rotor2) -> (r: &mut Shape)
    requires
        rot.wf(),
        old(shape).vertices_in_bounds(),
    ensures
        r.vertices@.len() == old(shape).vertices@.len(),
        forall|i: int|
            0 <= i < old(shape).vertices@.len() ==> {
                let v = old(shape).vertices@[i];
                &&& (#[trigger] r.vertices@[i]).x == rot_x(v, rot.cos_n as int, rot.sin_n as int)
                &&& r.vertices@[i].y == rot_y(v, rot.cos_n as int, rot.sin_n as int)
                &&& r.vertices@[i].z == v.z
            },
        r.origin == old(shape).origin,
        *final(shape) == *final(r),
{
    proof {
        assert(65536int * 65536 == 4294967296) by (nonlinear_arith);
    }
    let n = shape.vertices.len();
    let mut vs: Vec<Vec3i> = Vec::new();
    let mut i: usize = 0;
    while i < n
        invariant
            i <= n,
            n == shape.vertices@.len(),
            rot.wf(),
            shape.vertices_in_bounds(),
            vs@.len() == i,
            forall|k: int|
                0 <= k < i ==> {
                    let v = shape.vertices@[k];
                    &&& (#[trigger] vs@[k]).x == rot_x(v, rot.cos_n as int, rot.sin_n as int)
                    &&& vs@[k].y == rot_y(v, rot.cos_n as int, rot.sin_n as int)
                    &&& vs@[k].z == v.z
                },
        decreases n - i,
    {
        let v = shape.vertices[i];
        proof {
            assert(65536int * 65536 == 4294967296) by (nonlinear_arith);
            lemma_mul_bound(rot.cos_n as int, v.x as int, 65536, 65536);
            lemma_mul_bound(rot.sin_n as int, v.y as int, 65536, 65536);
            lemma_mul_bound(rot.sin_n as int, v.x as int, 65536, 65536);
            lemma_mul_bound(rot.cos_n as int, v.y as int, 65536, 65536);
        }
        let tx: i64 = rot.cos_n * v.x - rot.sin_n * v.y;
        let ty: i64 = rot.sin_n * v.x + rot.cos_n * v.y;
        let nx = scale_down(tx);
        let ny = scale_down(ty);
        vs.push(Vec3i { x: nx, y: ny, z: v.z });
        i = i + 1;
    }
    shape.vertices = vs;
    shape
}

/// Scaling an integer by the rotor unit and rounding back down restores it
/// exactly.
proof fn lemma_rdiv_exact(t: int)
    ensures
        rdiv(65536 * t) == t,
{
    vstd::arithmetic::div_mod::lemma_hoist_over_denominator(65536, t, 131072nat);
    assert(2 * (65536 * t) + 65536 == 65536 + t * 131072);
    assert(65536int / 131072 == 0);
}

/// A quarter turn followed by the opposite quarter turn restores a vertex
/// exactly: the rotors `(0, ROT_ONE)` and `(0, -ROT_ONE)` are exact on the
/// grid, so this special case of the rotation round trip loses nothing to
/// rounding.
pub proof fn lemma_quarter_turn_round_trip(v: Vec3i)
    requires
        vec3_in_bounds(v),
    ensures
        ({
            let w = Vec3i {
                x: rot_x(v, 0, ROT_ONE as int) as i64,
                y: rot_y(v, 0, ROT_ONE as int) as i64,
                z: v.z,
            };
            &&& rot_x(w, 0, -(ROT_ONE as int)) == v.x
            &&& rot_y(w, 0, -(ROT_ONE as int)) == v.y
        }),
{
    lemma_rdiv_exact(-(v.y as int));
    lemma_rdiv_exact(v.x as int);
    let w = Vec3i {
        x: rot_x(v, 0, ROT_ONE as int) as i64,
        y: rot_y(v, 0, ROT_ONE as int) as i64,
        z: v.z,
    };
    assert(w.x == -v.y && w.y == v.x);
    lemma_rdiv_exact(w.y as int);
    lemma_rdiv_exact(-(w.x as int));
    assert(rot_x(w, 0, -(ROT_ONE as int)) == rdiv(65536 * w.y));
    assert(rot_y(w, 0, -(ROT_ONE as int)) == rdiv(65536 * (-(w.x as int))));
}

/// Translating by `d1` and then by `d2` lands every vertex, and the origin,
/// exactly where a single translation by `d1 + d2` would: the two call
/// sequences produce equal shapes whenever the sums stay within machine
/// integers.
pub proof fn lemma_translate_compose(vs: Seq<Vec3i>, o: Vec3i, d1: Vec3i, d2: Vec3i)
    requires
        shift_seq_fits(vs, d1),
        shift_seq_fits(shifted_seq(vs, d1), d2),
        shift_fits(o, d1),
        shift_fits(shifted(o, d1), d2),
        shift_fits(d1, d2),
    ensures
        shifted_seq(shifted_seq(vs, d1), d2) == shifted_seq(vs, shifted(d1, d2)),
        shifted(shifted(o, d1), d2) == shifted(o, shifted(d1, d2)),
{
    assert forall|i: int| 0 <= i < vs.len() implies #[trigger] shifted_seq(
        shifted_seq(vs, d1),
        d2,
    )[i] == shifted_seq(vs, shifted(d1, d2))[i] by {
        assert(shifted_seq(vs, d1)[i] == shifted(vs[i], d1));
    }
    assert(shifted_seq(shifted_seq(vs, d1), d2) =~= shifted_seq(vs, shifted(d1, d2)));
}

} // verus!

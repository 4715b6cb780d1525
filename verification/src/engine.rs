//! The separating-axis engine: candidate axis extraction, the per-axis
//! overlap test, containment flags, and minimization of penetration depth.

use vstd::prelude::*;

use crate::geom::dot;
use crate::geom::flat;
use crate::geom::len_sq;
use crate::geom::lemma_mul_bound;
use crate::geom::vec2_in_bounds;
use crate::geom::Vec2i;
use crate::geom::Vec3i;
use crate::geom::COORD_BOUND;
use crate::project::axis_in_bounds;
use crate::project::poly_in_bounds;
use crate::project::proj_bound;
use crate::project::proj_max;
use crate::project::proj_min;
use crate::project::project_shape;
use crate::shape::CollisionInfo;
use crate::shape::Shape;

verus! {

/// The x/y projections of a vertex sequence, in order.
pub open spec fn flat_seq(vs: Seq<Vec3i>) -> Seq<Vec2i> {
    vs.map_values(|v: Vec3i| flat(v))
}

/// The perpendicular of edge `i` of polygon `p`, taken from vertex `i` to
/// vertex `i + 1` (wrapping at the end): `(dy, -dx)` of the edge, left
/// unnormalized.
pub open spec fn edge_axis(p: Seq<Vec2i>, i: int) -> (int, int)
    recommends
        0 <= i < p.len(),
{
    let j = if i + 1 == p.len() {
        0int
    } else {
        i + 1
    };
    (p[i].y - p[j].y, p[j].x - p[i].x)
}

/// How many candidate axes a pair of polygons yields: one per edge.
pub open spec fn axis_count(pa: Seq<Vec2i>, pb: Seq<Vec2i>) -> int {
    pa.len() + pb.len() as int
}

/// Candidate axis `i` for the pair: A's edge perpendiculars first, then B's,
/// each in vertex order.
pub open spec fn axis_at(pa: Seq<Vec2i>, pb: Seq<Vec2i>, i: int) -> (int, int)
    recommends
        0 <= i < axis_count(pa, pb),
{
    if i < pa.len() {
        edge_axis(pa, i)
    } else {
        edge_axis(pb, i - pa.len())
    }
}

/// The 2D offset between the two shapes' origins: `A.origin - B.origin`.
pub open spec fn offset_of(sa: Shape, sb: Shape) -> (int, int) {
    (sa.origin.x - sb.origin.x, sa.origin.y - sb.origin.y)
}

/// Dot product of two axes given as integer pairs.
pub open spec fn dot_ii(a: (int, int), b: (int, int)) -> int {
    a.0 * b.0 + a.1 * b.1
}

/// Lower end of A's projection interval on axis `i`, re-based by the origin
/// offset into B's frame.
pub open spec fn lo_a(pa: Seq<Vec2i>, pb: Seq<Vec2i>, off: (int, int), i: int) -> int {
    proj_min(pa, axis_at(pa, pb, i)) + dot_ii(axis_at(pa, pb, i), off)
}

/// Upper end of A's projection interval on axis `i`, re-based likewise.
pub open spec fn hi_a(pa: Seq<Vec2i>, pb: Seq<Vec2i>, off: (int, int), i: int) -> int {
    proj_max(pa, axis_at(pa, pb, i)) + dot_ii(axis_at(pa, pb, i), off)
}

/// Lower end of B's projection interval on axis `i`.
pub open spec fn lo_b(pa: Seq<Vec2i>, pb: Seq<Vec2i>, i: int) -> int {
    proj_min(pb, axis_at(pa, pb, i))
}

/// Upper end of B's projection interval on axis `i`.
pub open spec fn hi_b(pa: Seq<Vec2i>, pb: Seq<Vec2i>, i: int) -> int {
    proj_max(pb, axis_at(pa, pb, i))
}

/// Whether axis `i` separates the two polygons: their shifted projection
/// intervals leave a gap.
pub open spec fn separated_at(pa: Seq<Vec2i>, pb: Seq<Vec2i>, off: (int, int), i: int) -> bool {
    lo_a(pa, pb, off, i) - hi_b(pa, pb, i) > 0 || lo_b(pa, pb, i) - hi_a(pa, pb, off, i) > 0
}

/// Whether some candidate axis separates the polygons. By the separating
/// axis theorem this decides disjointness of convex polygons.
pub open spec fn sep_axis_exists(pa: Seq<Vec2i>, pb: Seq<Vec2i>, off: (int, int)) -> bool {
    exists|i: int| 0 <= i < axis_count(pa, pb) && separated_at(pa, pb, off, i)
}

/// The signed penetration measure on axis `i`, at the axis's own scale:
/// `A.min - B.max` of the shifted intervals, the negation of the interval
/// overlap reach.
pub open spec fn dist_at(pa: Seq<Vec2i>, pb: Seq<Vec2i>, off: (int, int), i: int) -> int {
    lo_a(pa, pb, off, i) - hi_b(pa, pb, i)
}

/// Whether A's projection interval contains B's on axis `i`.
pub open spec fn contains_a_at(pa: Seq<Vec2i>, pb: Seq<Vec2i>, off: (int, int), i: int) -> bool {
    hi_a(pa, pb, off, i) >= hi_b(pa, pb, i) && lo_a(pa, pb, off, i) <= lo_b(pa, pb, i)
}

/// Whether B's projection interval contains A's on axis `i`.
pub open spec fn contains_b_at(pa: Seq<Vec2i>, pb: Seq<Vec2i>, off: (int, int), i: int) -> bool {
    hi_b(pa, pb, i) >= hi_a(pa, pb, off, i) && lo_b(pa, pb, i) <= lo_a(pa, pb, off, i)
}

/// Whether the normalized penetration magnitude `(d1, l1)` is strictly
/// smaller than `(d2, l2)`, where a pair `(d, l)` stands for the magnitude
/// `|d| / sqrt(l)` when `l > 0` and for `0` when `l == 0` (the projection of
/// everything onto a degenerate zero axis is zero). Stated over squares so
/// that it is exact in integers.
pub open spec fn pen_lt(d1: int, l1: int, d2: int, l2: int) -> bool {
    if l1 == 0 {
        l2 != 0 && d2 != 0
    } else if l2 == 0 {
        false
    } else {
        d1 * d1 * l2 < d2 * d2 * l1
    }
}

/// The axis index the engine selects among the first `n` candidates: the
/// first axis achieving the minimum normalized penetration magnitude (a
/// strict comparison, so earlier axes win ties).
pub open spec fn best_axis(pa: Seq<Vec2i>, pb: Seq<Vec2i>, off: (int, int), n: int) -> int
    recommends
        n >= 1,
    decreases n,
{
    if n <= 1 {
        0
    } else {
        let prev = best_axis(pa, pb, off, n - 1);
        if pen_lt(
            dist_at(pa, pb, off, n - 1),
            len_sq(axis_at(pa, pb, n - 1)),
            dist_at(pa, pb, off, prev),
            len_sq(axis_at(pa, pb, prev)),
        ) {
            n - 1
        } else {
            prev
        }
    }
}

/// A squared axis length is never negative.
pub proof fn lemma_len_sq_nonneg(ax: (int, int))
    ensures
        len_sq(ax) >= 0,
{
    assert(ax.0 * ax.0 + ax.1 * ax.1 >= 0) by (nonlinear_arith);
}

/// If `(dn, ln)` beats `(dp, lp)` and `(di, li)` does not, then `(di, li)`
/// does not beat `(dn, ln)` either: the normalized magnitudes are totally
/// preordered.
proof fn lemma_pen_lt_chain(di: int, li: int, dn: int, ln: int, dp: int, lp: int)
    requires
        li >= 0,
        ln >= 0,
        lp >= 0,
        pen_lt(dn, ln, dp, lp),
        !pen_lt(di, li, dp, lp),
    ensures
        !pen_lt(di, li, dn, ln),
{
    if lp == 0 {
        assert(!pen_lt(dn, ln, dp, lp));
    } else if li == 0 {
        // Here dp == 0, which contradicts pen_lt(dn, ln, dp, lp).
        if ln == 0 {
        } else {
            assert(dn * dn * lp >= 0) by (nonlinear_arith)
                requires
                    lp >= 0,
            ;
            assert(dp * dp * ln == 0) by (nonlinear_arith)
                requires
                    dp == 0,
            ;
        }
    } else if ln == 0 {
        // pen_lt(di, li, dn, 0) is false outright for li != 0.
    } else {
        assert(di * di * ln >= dn * dn * li) by (nonlinear_arith)
            requires
                li > 0,
                ln > 0,
                lp > 0,
                dn * dn * lp < dp * dp * ln,
                di * di * lp >= dp * dp * li,
        ;
    }
}

/// The axis the engine selects minimizes the normalized penetration
/// magnitude: no candidate axis compares strictly below it.
pub proof fn lemma_best_axis_minimal(pa: Seq<Vec2i>, pb: Seq<Vec2i>, off: (int, int), n: int)
    requires
        n >= 1,
    ensures
        forall|i: int|
            0 <= i < n ==> !pen_lt(
                dist_at(pa, pb, off, i),
                len_sq(axis_at(pa, pb, i)),
                dist_at(pa, pb, off, best_axis(pa, pb, off, n)),
                len_sq(axis_at(pa, pb, best_axis(pa, pb, off, n))),
            ),
    decreases n,
{
    if n == 1 {
    } else {
        lemma_best_axis_minimal(pa, pb, off, n - 1);
        let p = best_axis(pa, pb, off, n - 1);
        let dn = dist_at(pa, pb, off, n - 1);
        let ln = len_sq(axis_at(pa, pb, n - 1));
        let dp = dist_at(pa, pb, off, p);
        let lp = len_sq(axis_at(pa, pb, p));
        lemma_len_sq_nonneg(axis_at(pa, pb, n - 1));
        lemma_len_sq_nonneg(axis_at(pa, pb, p));
        if pen_lt(dn, ln, dp, lp) {
            assert forall|i: int| 0 <= i < n implies !pen_lt(
                dist_at(pa, pb, off, i),
                len_sq(axis_at(pa, pb, i)),
                dn,
                ln,
            ) by {
                if i < n - 1 {
                    lemma_len_sq_nonneg(axis_at(pa, pb, i));
                    lemma_pen_lt_chain(
                        dist_at(pa, pb, off, i),
                        len_sq(axis_at(pa, pb, i)),
                        dn,
                        ln,
                        dp,
                        lp,
                    );
                }
            }
        }
    }
}

/// The selected axis index lies among the candidates considered.
pub proof fn lemma_best_axis_in_range(pa: Seq<Vec2i>, pb: Seq<Vec2i>, off: (int, int), n: int)
    requires
        n >= 1,
    ensures
        0 <= best_axis(pa, pb, off, n) < n,
    decreases n,
{
    if n > 1 {
        lemma_best_axis_in_range(pa, pb, off, n - 1);
    }
}

/// Bound on the penetration measure of in-bounds polygons on an in-bounds
/// axis.
pub open spec fn dist_bound() -> int {
    16 * COORD_BOUND * COORD_BOUND
}

/// Bound on the squared length of an in-bounds axis.
pub open spec fn lensq_bound() -> int {
    8 * COORD_BOUND * COORD_BOUND
}

/// The concrete values of the kernel's arithmetic bounds, folded out of
/// their products with the grid bound.
proof fn lemma_bounds_concrete()
    ensures
        dist_bound() == 68719476736,
        lensq_bound() == 34359738368,
        proj_bound() == 17179869184,
{
    assert(16int * 65536 * 65536 == 68719476736) by (nonlinear_arith);
    assert(8int * 65536 * 65536 == 34359738368) by (nonlinear_arith);
    assert(4int * 65536 * 65536 == 17179869184) by (nonlinear_arith);
}

/// Containment test between two projected intervals, each given as
/// `(min, max)`. Without inversion the first flag says that `range_a`
/// contains `range_b` (its max reaches at least as high and its min at least
/// as low), and the second the converse; with inversion every comparison is
/// flipped.
pub fn check_range(range_a: (i64, i64), range_b: (i64, i64), invert: bool) -> (r: (bool, bool))
    ensures
        r.0 == (if invert {
            range_a.1 <= range_b.1 && range_a.0 >= range_b.0
        } else {
            range_a.1 >= range_b.1 && range_a.0 <= range_b.0
        }),
        r.1 == (if invert {
            range_b.1 <= range_a.1 && range_b.0 >= range_a.0
        } else {
            range_b.1 >= range_a.1 && range_b.0 <= range_a.0
        }),
{
    let mut contain_a: bool = true;
    let mut contain_b: bool = true;
    if invert {
        if range_a.1 > range_b.1 || range_a.0 < range_b.0 {
            contain_a = false;
        }
        if range_b.1 > range_a.1 || range_b.0 < range_a.0 {
            contain_b = false;
        }
    } else {
        if range_a.1 < range_b.1 || range_a.0 > range_b.0 {
            contain_a = false;
        }
        if range_b.1 < range_a.1 || range_b.0 > range_a.0 {
            contain_b = false;
        }
    }
    (contain_a, contain_b)
}

/// Exact comparison of two normalized penetration magnitudes, each a
/// `(measure, squared axis length)` pair, by cross-multiplying squares.
fn pen_less(d1: i64, l1: i64, d2: i64, l2: i64) -> (r: bool)
    requires
        -dist_bound() <= d1 <= dist_bound(),
        -dist_bound() <= d2 <= dist_bound(),
        0 <= l1 <= lensq_bound(),
        0 <= l2 <= lensq_bound(),
    ensures
        r == pen_lt(d1 as int, l1 as int, d2 as int, l2 as int),
{
    if l1 == 0 {
        l2 != 0 && d2 != 0
    } else if l2 == 0 {
        false
    } else {
        proof {
            lemma_bounds_concrete();
            lemma_mul_bound(d1 as int, d1 as int, 68719476736, 68719476736);
            lemma_mul_bound(d2 as int, d2 as int, 68719476736, 68719476736);
            assert(68719476736int * 68719476736 == 4722366482869645213696) by (nonlinear_arith);
            lemma_mul_bound(d1 as int * d1 as int, l2 as int, 4722366482869645213696, 34359738368);
            lemma_mul_bound(d2 as int * d2 as int, l1 as int, 4722366482869645213696, 34359738368);
            assert(4722366482869645213696int * 34359738368 == 162259276829213363391578010288128)
                by (nonlinear_arith);
        }
        let s1: i128 = (d1 as i128) * (d1 as i128);
        let s2: i128 = (d2 as i128) * (d2 as i128);
        s1 * (l2 as i128) < s2 * (l1 as i128)
    }
}

/// Tests two convex polygons for overlap by the separating axis theorem.
///
/// Returns `None` exactly when some candidate axis (an edge perpendicular of
/// either polygon) separates the two projection intervals once A's is
/// re-based by the origin offset. Otherwise returns a `CollisionInfo` built
/// from snapshots of both shapes, carrying the signed penetration measure
/// and the axis achieving the minimum normalized penetration (earliest axis
/// on ties: A's edges before B's, lower edge index first), the containment
/// flags of the last axis evaluated, and the separating translation
/// `vector * distance` at scale `axis_len_sq`.
#[verifier::loop_isolation(false)]
pub fn sat(shape_a: &Shape, shape_b: &Shape) -> (r: Option<CollisionInfo>)
    requires
        shape_a.wf(),
        shape_b.wf(),
        shape_a.in_bounds(),
        shape_b.in_bounds(),
    ensures
        (r is None) <==> sep_axis_exists(
            flat_seq(shape_a.vertices@),
            flat_seq(shape_b.vertices@),
            offset_of(*shape_a, *shape_b),
        ),
        (match r {
            Some(info) => {
                let pa = flat_seq(shape_a.vertices@);
                let pb = flat_seq(shape_b.vertices@);
                let off = offset_of(*shape_a, *shape_b);
                let k = best_axis(pa, pb, off, axis_count(pa, pb));
                &&& info.shape_a.vertices@ == shape_a.vertices@
                &&& info.shape_a.origin == shape_a.origin
                &&& info.shape_b.vertices@ == shape_b.vertices@
                &&& info.shape_b.origin == shape_b.origin
                &&& info.distance == dist_at(pa, pb, off, k)
                &&& info.vector.x == axis_at(pa, pb, k).0
                &&& info.vector.y == axis_at(pa, pb, k).1
                &&& info.axis_len_sq == len_sq(axis_at(pa, pb, k))
                &&& info.contain_a == contains_a_at(pa, pb, off, axis_count(pa, pb) - 1)
                &&& info.contain_b == contains_b_at(pa, pb, off, axis_count(pa, pb) - 1)
                &&& info.seperation.x == axis_at(pa, pb, k).0 * dist_at(pa, pb, off, k)
                &&& info.seperation.y == axis_at(pa, pb, k).1 * dist_at(pa, pb, off, k)
                &&& forall|i: int|
                    0 <= i < axis_count(pa, pb) ==> !pen_lt(
                        dist_at(pa, pb, off, i),
                        len_sq(axis_at(pa, pb, i)),
                        dist_at(pa, pb, off, k),
                        len_sq(axis_at(pa, pb, k)),
                    )
            },
            None => true,
        }),
{
    let ghost pa = flat_seq(shape_a.vertices@);
    let ghost pb = flat_seq(shape_b.vertices@);
    let ghost off = offset_of(*shape_a, *shape_b);

    // Flatten both shapes to 2D, dropping z but preserving order.
    let na = shape_a.vertices.len();
    let nb = shape_b.vertices.len();
    let mut poly_a: Vec<Vec2i> = Vec::new();
    let mut i: usize = 0;
    while i < na
        invariant
            i <= na,
            poly_a@ =~= pa.take(i as int),
        decreases na - i,
    {
        let v = shape_a.vertices[i];
        poly_a.push(Vec2i { x: v.x, y: v.y });
        proof {
            assert(poly_a@ =~= pa.take(i + 1));
        }
        i = i + 1;
    }
    let mut poly_b: Vec<Vec2i> = Vec::new();
    let mut i: usize = 0;
    while i < nb
        invariant
            i <= nb,
            poly_b@ =~= pb.take(i as int),
        decreases nb - i,
    {
        let v = shape_b.vertices[i];
        poly_b.push(Vec2i { x: v.x, y: v.y });
        proof {
            assert(poly_b@ =~= pb.take(i + 1));
        }
        i = i + 1;
    }
    proof {
        assert(poly_a@ =~= pa);
        assert(poly_b@ =~= pb);
        assert forall|j: int| 0 <= j < pa.len() implies vec2_in_bounds(#[trigger] pa[j]) by {
            assert(pa[j] == flat(shape_a.vertices@[j]));
        }
        assert forall|j: int| 0 <= j < pb.len() implies vec2_in_bounds(#[trigger] pb[j]) by {
            assert(pb[j] == flat(shape_b.vertices@[j]));
        }
    }

    // Candidate axes: the perpendicular of each edge of A, then of B.
    let mut axes: Vec<Vec2i> = Vec::new();
    let mut i: usize = 0;
    while i < na
        invariant
            i <= na,
            axes@.len() == i,
            forall|k: int|
                0 <= k < i ==> ((#[trigger] axes@[k]).x == edge_axis(pa, k).0 && axes@[k].y
                    == edge_axis(pa, k).1),
        decreases na - i,
    {
        let j: usize = if i + 1 == na {
            0
        } else {
            i + 1
        };
        let vi = poly_a[i];
        let vj = poly_a[j];
        axes.push(Vec2i { x: vi.y - vj.y, y: vj.x - vi.x });
        i = i + 1;
    }
    let mut i: usize = 0;
    while i < nb
        invariant
            i <= nb,
            axes@.len() == na + i,
            forall|k: int|
                0 <= k < na ==> ((#[trigger] axes@[k]).x == edge_axis(pa, k).0 && axes@[k].y
                    == edge_axis(pa, k).1),
            forall|k: int|
                na <= k < na + i ==> ((#[trigger] axes@[k]).x == edge_axis(pb, k - na).0
                    && axes@[k].y == edge_axis(pb, k - na).1),
        decreases nb - i,
    {
        let j: usize = if i + 1 == nb {
            0
        } else {
            i + 1
        };
        let vi = poly_b[i];
        let vj = poly_b[j];
        axes.push(Vec2i { x: vi.y - vj.y, y: vj.x - vi.x });
        i = i + 1;
    }
    proof {
        assert forall|k: int|
            0 <= k < axis_count(pa, pb) implies ((#[trigger] axes@[k]).x == axis_at(pa, pb, k).0
            && axes@[k].y == axis_at(pa, pb, k).1 && axis_in_bounds(axis_at(pa, pb, k))) by {
            if k < pa.len() {
                let j = if k + 1 == pa.len() {
                    0int
                } else {
                    k + 1
                };
                assert(vec2_in_bounds(pa[k]) && vec2_in_bounds(pa[j]));
            } else {
                let j = if k - na + 1 == pb.len() {
                    0int
                } else {
                    k - na + 1
                };
                assert(vec2_in_bounds(pb[k - na]) && vec2_in_bounds(pb[j]));
            }
        }
    }

    // The positional offset between the two shapes' origins.
    let off_v = Vec2i {
        x: shape_a.origin.x - shape_b.origin.x,
        y: shape_a.origin.y - shape_b.origin.y,
    };
    proof {
        assert(off_v.x == off.0 && off_v.y == off.1);
        lemma_bounds_concrete();
        assert(131072int * 131072 == 17179869184) by (nonlinear_arith);
    }

    let n = axes.len();
    let mut best_d: i64 = 0;
    let mut best_ax = Vec2i { x: 0, y: 0 };
    let mut best_l: i64 = 0;
    let mut con_a: bool = true;
    let mut con_b: bool = true;
    let mut i: usize = 0;
    while i < n
        invariant
            i <= n,
            n == axis_count(pa, pb),
            forall|k: int| 0 <= k < i ==> !separated_at(pa, pb, off, k),
            i >= 1 ==> {
                let kk = best_axis(pa, pb, off, i as int);
                &&& best_d == dist_at(pa, pb, off, kk)
                &&& best_ax.x == axis_at(pa, pb, kk).0
                &&& best_ax.y == axis_at(pa, pb, kk).1
                &&& best_l == len_sq(axis_at(pa, pb, kk))
            },
            i >= 1 ==> con_a == contains_a_at(pa, pb, off, i - 1) && con_b == contains_b_at(
                pa,
                pb,
                off,
                i - 1,
            ),
            -dist_bound() <= best_d <= dist_bound(),
            0 <= best_l <= lensq_bound(),
            -2 * COORD_BOUND <= best_ax.x <= 2 * COORD_BOUND,
            -2 * COORD_BOUND <= best_ax.y <= 2 * COORD_BOUND,
        decreases n - i,
    {
        let ax = axes[i];
        proof {
            assert(ax.x == axis_at(pa, pb, i as int).0 && ax.y == axis_at(pa, pb, i as int).1);
            assert(axis_in_bounds((ax.x as int, ax.y as int)));
            lemma_mul_bound(ax.x as int, off_v.x as int, 131072, 131072);
            lemma_mul_bound(ax.y as int, off_v.y as int, 131072, 131072);
        }
        let ra = project_shape(&poly_a, &ax);
        let rb = project_shape(&poly_b, &ax);
        // Re-base A's interval into B's frame by the projected origin offset.
        let off_d: i64 = ax.x * off_v.x + ax.y * off_v.y;
        let lo_as: i64 = ra.0 + off_d;
        let hi_as: i64 = ra.1 + off_d;
        proof {
            assert(off_d == dot_ii(axis_at(pa, pb, i as int), off));
            assert(lo_as == lo_a(pa, pb, off, i as int));
            assert(hi_as == hi_a(pa, pb, off, i as int));
            assert(rb.0 == lo_b(pa, pb, i as int));
            assert(rb.1 == hi_b(pa, pb, i as int));
        }
        if lo_as - rb.1 > 0 || rb.0 - hi_as > 0 {
            // A gap on this axis: the polygons are definitively disjoint.
            proof {
                assert(separated_at(pa, pb, off, i as int));
            }
            return None;
        }
        let checked = check_range((lo_as, hi_as), (rb.0, rb.1), false);
        con_a = checked.0;
        con_b = checked.1;
        let min_dist: i64 = lo_as - rb.1;
        proof {
            lemma_mul_bound(ax.x as int, ax.x as int, 131072, 131072);
            lemma_mul_bound(ax.y as int, ax.y as int, 131072, 131072);
            assert(ax.x as int * ax.x as int >= 0) by (nonlinear_arith);
            assert(ax.y as int * ax.y as int >= 0) by (nonlinear_arith);
        }
        let lensq: i64 = ax.x * ax.x + ax.y * ax.y;
        proof {
            assert(lensq == len_sq(axis_at(pa, pb, i as int)));
            if i > 0 {
                lemma_best_axis_in_range(pa, pb, off, i as int);
            }
        }
        if i == 0 {
            best_d = min_dist;
            best_ax = ax;
            best_l = lensq;
            proof {
                assert(best_axis(pa, pb, off, 1) == 0);
            }
        } else {
            let ghost prev = best_axis(pa, pb, off, i as int);
            let replace = pen_less(min_dist, lensq, best_d, best_l);
            proof {
                assert(best_axis(pa, pb, off, i + 1) == (if pen_lt(
                    dist_at(pa, pb, off, i as int),
                    len_sq(axis_at(pa, pb, i as int)),
                    dist_at(pa, pb, off, prev),
                    len_sq(axis_at(pa, pb, prev)),
                ) {
                    i as int
                } else {
                    prev
                }));
            }
            if replace {
                best_d = min_dist;
                best_ax = ax;
                best_l = lensq;
            }
        }
        i = i + 1;
    }
    proof {
        assert(!sep_axis_exists(pa, pb, off));
        lemma_best_axis_in_range(pa, pb, off, n as int);
        lemma_best_axis_minimal(pa, pb, off, n as int);
        assert(131072int * 68719476736 == 9007199254740992) by (nonlinear_arith);
        lemma_mul_bound(best_ax.x as int, best_d as int, 131072, 68719476736);
        lemma_mul_bound(best_ax.y as int, best_d as int, 131072, 68719476736);
    }
    let sep = Vec2i { x: best_ax.x * best_d, y: best_ax.y * best_d };
    Some(
        CollisionInfo {
            shape_a: shape_a.snapshot(),
            shape_b: shape_b.snapshot(),
            distance: best_d,
            vector: best_ax,
            axis_len_sq: best_l,
            contain_a: con_a,
            contain_b: con_b,
            seperation: sep,
        },
    )
}

} // verus!

//! Projection of a polygon onto an axis: the scalar interval `(min, max)` of
//! the dot products of every vertex with the axis.

use vstd::prelude::*;

use crate::geom::dot;
use crate::geom::vec2_in_bounds;
use crate::geom::lemma_mul_bound;
use crate::geom::Vec2i;
use crate::geom::COORD_BOUND;

verus! {

/// Bound on the components of an edge axis: an axis is a difference of two
/// grid coordinates, so each component lies within twice the grid bound.
pub open spec fn axis_in_bounds(ax: (int, int)) -> bool {
    &&& -2 * COORD_BOUND <= ax.0 <= 2 * COORD_BOUND
    &&& -2 * COORD_BOUND <= ax.1 <= 2 * COORD_BOUND
}

/// Bound on any dot product of an in-bounds axis with an in-bounds vertex.
pub open spec fn proj_bound() -> int {
    4 * COORD_BOUND * COORD_BOUND
}

/// Whether every vertex of a 2D polygon lies on the kernel's grid.
pub open spec fn poly_in_bounds(poly: Seq<Vec2i>) -> bool {
    forall|j: int| 0 <= j < poly.len() ==> vec2_in_bounds(#[trigger] poly[j])
}

/// The least projection of any vertex of `poly` onto `ax`.
pub open spec fn proj_min(poly: Seq<Vec2i>, ax: (int, int)) -> int
    recommends
        poly.len() >= 1,
    decreases poly.len(),
{
    if poly.len() <= 1 {
        dot(ax, poly[0])
    } else {
        let rest = proj_min(poly.drop_last(), ax);
        let last = dot(ax, poly.last());
        if last < rest {
            last
        } else {
            rest
        }
    }
}

/// The greatest projection of any vertex of `poly` onto `ax`.
pub open spec fn proj_max(poly: Seq<Vec2i>, ax: (int, int)) -> int
    recommends
        poly.len() >= 1,
    decreases poly.len(),
{
    if poly.len() <= 1 {
        dot(ax, poly[0])
    } else {
        let rest = proj_max(poly.drop_last(), ax);
        let last = dot(ax, poly.last());
        if last > rest {
            last
        } else {
            rest
        }
    }
}

/// `proj_min` is a lower bound on every vertex's projection and is attained
/// by some vertex; `proj_max` likewise from above.
pub proof fn lemma_proj_min_max_props(poly: Seq<Vec2i>, ax: (int, int))
    requires
        poly.len() >= 1,
    ensures
        forall|j: int| 0 <= j < poly.len() ==> proj_min(poly, ax) <= dot(ax, #[trigger] poly[j]),
        forall|j: int| 0 <= j < poly.len() ==> dot(ax, #[trigger] poly[j]) <= proj_max(poly, ax),
        exists|j: int| 0 <= j < poly.len() && proj_min(poly, ax) == dot(ax, #[trigger] poly[j]),
        exists|j: int| 0 <= j < poly.len() && proj_max(poly, ax) == dot(ax, #[trigger] poly[j]),
    decreases poly.len(),
{
    if poly.len() <= 1 {
        assert(proj_min(poly, ax) == dot(ax, poly[0]));
        assert(proj_max(poly, ax) == dot(ax, poly[0]));
    } else {
        let prefix = poly.drop_last();
        lemma_proj_min_max_props(prefix, ax);
        assert(forall|j: int| 0 <= j < prefix.len() ==> #[trigger] poly[j] == prefix[j]);
        assert(poly.last() == poly[poly.len() - 1]);
        let jm = choose|j: int| 0 <= j < prefix.len() && proj_min(prefix, ax) == dot(
            ax,
            #[trigger] prefix[j],
        );
        let jx = choose|j: int| 0 <= j < prefix.len() && proj_max(prefix, ax) == dot(
            ax,
            #[trigger] prefix[j],
        );
        if proj_min(poly, ax) == proj_min(prefix, ax) {
            assert(proj_min(poly, ax) == dot(ax, poly[jm]));
        }
        if proj_max(poly, ax) == proj_max(prefix, ax) {
            assert(proj_max(poly, ax) == dot(ax, poly[jx]));
        }
    }
}

/// Reversing the vertex order of a polygon changes neither end of its
/// projection interval: the interval depends on the set of vertices, not on
/// the order in which they are visited.
pub proof fn lemma_project_reverse(poly: Seq<Vec2i>, ax: (int, int))
    requires
        poly.len() >= 1,
    ensures
        proj_min(poly.reverse(), ax) == proj_min(poly, ax),
        proj_max(poly.reverse(), ax) == proj_max(poly, ax),
{
    let rev = poly.reverse();
    assert(rev.len() == poly.len());
    lemma_proj_min_max_props(poly, ax);
    lemma_proj_min_max_props(rev, ax);
    assert(forall|j: int| 0 <= j < rev.len() ==> #[trigger] rev[j] == poly[poly.len() - 1 - j]);
    let am = choose|j: int| 0 <= j < poly.len() && proj_min(poly, ax) == dot(
        ax,
        #[trigger] poly[j],
    );
    assert(rev[poly.len() - 1 - am] == poly[am]);
    let ax_ = choose|j: int| 0 <= j < poly.len() && proj_max(poly, ax) == dot(
        ax,
        #[trigger] poly[j],
    );
    assert(rev[poly.len() - 1 - ax_] == poly[ax_]);
    let bm = choose|j: int| 0 <= j < rev.len() && proj_min(rev, ax) == dot(
        ax,
        #[trigger] rev[j],
    );
    assert(poly[poly.len() - 1 - bm] == rev[bm]);
    let bx = choose|j: int| 0 <= j < rev.len() && proj_max(rev, ax) == dot(
        ax,
        #[trigger] rev[j],
    );
    assert(poly[poly.len() - 1 - bx] == rev[bx]);
}

/// Dot product of an axis with a vertex, exact on the grid.
fn dot2(axis: &Vec2i, v: Vec2i) -> (r: i64)
    requires
        axis_in_bounds((axis.x as int, axis.y as int)),
        vec2_in_bounds(v),
    ensures
        r == dot((axis.x as int, axis.y as int), v),
        -proj_bound() <= r <= proj_bound(),
{
    proof {
        lemma_mul_bound(axis.x as int, v.x as int, 2 * COORD_BOUND, COORD_BOUND as int);
        lemma_mul_bound(axis.y as int, v.y as int, 2 * COORD_BOUND, COORD_BOUND as int);
    }
    axis.x * v.x + axis.y * v.y
}

/// Projects every vertex of `poly` onto `axis` and returns the least and
/// greatest of the resulting scalars.
pub fn project_shape(poly: &Vec<Vec2i>, axis: &Vec2i) -> (r: (i64, i64))
    requires
        poly@.len() >= 1,
        poly_in_bounds(poly@),
        axis_in_bounds((axis.x as int, axis.y as int)),
    ensures
        r.0 == proj_min(poly@, (axis.x as int, axis.y as int)),
        r.1 == proj_max(poly@, (axis.x as int, axis.y as int)),
        -proj_bound() <= r.0 <= r.1 <= proj_bound(),
{
    let ghost axg = (axis.x as int, axis.y as int);
    let mut min_val = dot2(axis, poly[0]);
    let mut max_val = min_val;
    assert(poly@.take(1) =~= seq![poly@[0]]);
    let n = poly.len();
    let mut i: usize = 1;
    while i < n
        invariant
            1 <= i <= n,
            n == poly@.len(),
            poly_in_bounds(poly@),
            axis_in_bounds(axg),
            axg == (axis.x as int, axis.y as int),
            min_val == proj_min(poly@.take(i as int), axg),
            max_val == proj_max(poly@.take(i as int), axg),
            -proj_bound() <= min_val <= max_val <= proj_bound(),
        decreases n - i,
    {
        let d = dot2(axis, poly[i]);
        proof {
            let pre = poly@.take(i as int);
            let cur = poly@.take(i + 1);
            assert(cur.drop_last() =~= pre);
            assert(cur.last() == poly@[i as int]);
        }
        if d < min_val {
            min_val = d;
        }
        if d > max_val {
            max_val = d;
        }
        i = i + 1;
    }
    proof {
        assert(poly@.take(n as int) =~= poly@);
    }
    (min_val, max_val)
}

} // verus!

use vstd::prelude::*;

use crate::algebra::{max_spec, min_spec, Vec2, SPAN};
use crate::geometry::{points_bounded, HitBox};
use crate::reaction::normal_ok;
use crate::swept::{SweptShape, MAX_SWEPT};

verus! {

pub open spec fn proj(p: Vec2, a: Vec2) -> int {
    p.x * a.x + p.y * a.y
}

/// The largest projection of the points of `pts` on `a`.
pub open spec fn max_proj(pts: Seq<Vec2>, a: Vec2) -> int
    decreases pts.len(),
{
    if pts.len() <= 1 {
        proj(pts[0], a)
    } else {
        max_spec(max_proj(pts.drop_last(), a), proj(pts.last(), a))
    }
}

/// The smallest projection of the points of `pts` on `a`.
pub open spec fn min_proj(pts: Seq<Vec2>, a: Vec2) -> int
    decreases pts.len(),
{
    if pts.len() <= 1 {
        proj(pts[0], a)
    } else {
        min_spec(min_proj(pts.drop_last(), a), proj(pts.last(), a))
    }
}

/// The projections of the two point sets on `a` are disjoint intervals.
pub open spec fn separated(p1: Seq<Vec2>, p2: Seq<Vec2>, a: Vec2) -> bool {
    min_proj(p1, a) > max_proj(p2, a) || min_proj(p2, a) > max_proj(p1, a)
}

/// Length of the common part of the two projection intervals on `a`
/// (scaled by the length of `a`).
pub open spec fn overlap(p1: Seq<Vec2>, p2: Seq<Vec2>, a: Vec2) -> int {
    min_spec(max_proj(p1, a), max_proj(p2, a)) - max_spec(min_proj(p1, a), min_proj(p2, a))
}

pub open spec fn sq_len(a: Vec2) -> int {
    a.x * a.x + a.y * a.y
}

/// The overlap along `a` is strictly smaller than along `b`, once each axis
/// is brought to unit length.
pub open spec fn shallower(p1: Seq<Vec2>, p2: Seq<Vec2>, a: Vec2, b: Vec2) -> bool {
    overlap(p1, p2, a) * overlap(p1, p2, a) * sq_len(b) < overlap(p1, p2, b) * overlap(p1, p2, b)
        * sq_len(a)
}

/// Index of the first axis among `axes[0..k]` with the smallest overlap.
pub open spec fn best_axis(p1: Seq<Vec2>, p2: Seq<Vec2>, axes: Seq<Vec2>, k: nat) -> int
    decreases k,
{
    if k <= 1 {
        0
    } else {
        let b = best_axis(p1, p2, axes, (k - 1) as nat);
        if shallower(p1, p2, axes[k - 1], axes[b]) {
            k - 1
        } else {
            b
        }
    }
}

pub open spec fn sum_x(pts: Seq<Vec2>) -> int
    decreases pts.len(),
{
    if pts.len() == 0 {
        0
    } else {
        sum_x(pts.drop_last()) + pts.last().x
    }
}

pub open spec fn sum_y(pts: Seq<Vec2>) -> int
    decreases pts.len(),
{
    if pts.len() == 0 {
        0
    } else {
        sum_y(pts.drop_last()) + pts.last().y
    }
}

/// The displacement from the centroid of `p1` to that of `p2`, projected on
/// `a` and scaled by the two point counts.
pub open spec fn centroid_gap(p1: Seq<Vec2>, p2: Seq<Vec2>, a: Vec2) -> int {
    (p1.len() * sum_x(p2) - p2.len() * sum_x(p1)) * a.x + (p1.len() * sum_y(p2) - p2.len() * sum_y(
        p1,
    )) * a.y
}

/// `a`, reversed if it points from the second centroid toward the first.
pub open spec fn toward(p1: Seq<Vec2>, p2: Seq<Vec2>, a: Vec2) -> Vec2 {
    if centroid_gap(p1, p2, a) < 0 {
        Vec2 { x: -a.x as i64, y: -a.y as i64 }
    } else {
        a
    }
}

/// The separating-axis test on point sets `p1`, `p2` over the candidate
/// `axes`: none if some axis separates them, else the axis of least overlap,
/// pointing from the first shape toward the second.
pub open spec fn sat_spec(p1: Seq<Vec2>, p2: Seq<Vec2>, axes: Seq<Vec2>) -> Option<Vec2> {
    if axes.len() == 0 || exists|i: int| 0 <= i < axes.len() && separated(p1, p2, #[trigger] axes[i]) {
        None
    } else {
        Some(toward(p1, p2, axes[best_axis(p1, p2, axes, axes.len())]))
    }
}

/// The two axes are parallel (or opposite).
pub open spec fn parallel(a: Vec2, b: Vec2) -> bool {
    a.x * b.y - a.y * b.x == 0
}

/// `axes` keeping only the first of each family of parallel axes.
pub open spec fn dedup_axes(axes: Seq<Vec2>) -> Seq<Vec2>
    decreases axes.len(),
{
    if axes.len() == 0 {
        axes
    } else {
        let d = dedup_axes(axes.drop_last());
        if exists|i: int| 0 <= i < d.len() && parallel(#[trigger] d[i], axes.last()) {
            d
        } else {
            d.push(axes.last())
        }
    }
}

/// The two coordinate axes, which are always candidates too: whatever the
/// shapes, an axis on which the bounding boxes are apart separates them.
pub open spec fn world_axes() -> Seq<Vec2> {
    seq![Vec2 { x: 1, y: 0 }, Vec2 { x: 0, y: 1 }]
}

/// The bounding box of a non-empty point list.
pub open spec fn bbox_spec(pts: Seq<Vec2>) -> HitBox {
    choose|h: HitBox| crate::geometry::is_bbox(pts, h)
}

/// The broad phase on two point sets, then the separating-axis test.
pub open spec fn collision_spec(p1: Seq<Vec2>, p2: Seq<Vec2>, axes: Seq<Vec2>) -> Option<Vec2> {
    if boxes_meet(bbox_spec(p1), bbox_spec(p2)) {
        sat_spec(p1, p2, dedup_axes(axes + world_axes()))
    } else {
        None
    }
}

/// The broad-phase test: the boxes are not strictly apart on either axis.
pub open spec fn boxes_meet(h1: HitBox, h2: HitBox) -> bool {
    !(h1.min_x > h2.max_x || h2.min_x > h1.max_x || h1.min_y > h2.max_y || h2.min_y > h1.max_y)
}

/// The projection of `p` on `a`.
fn proj_exec(p: Vec2, a: Vec2) -> (r: i128)
    requires
        p.bounded(SPAN as int),
        a.bounded(SPAN as int * 2),
    ensures
        r == proj(p, a),
        -0x200_0000_0000 <= r <= 0x200_0000_0000,
{
    assert(-0x100_0000_0000 <= p.x * a.x <= 0x100_0000_0000) by (nonlinear_arith)
        requires
            -0x80000 <= p.x <= 0x80000,
            -0x100000 <= a.x <= 0x100000,
    ;
    assert(-0x100_0000_0000 <= p.y * a.y <= 0x100_0000_0000) by (nonlinear_arith)
        requires
            -0x80000 <= p.y <= 0x80000,
            -0x100000 <= a.y <= 0x100000,
    ;
    (p.x as i128) * (a.x as i128) + (p.y as i128) * (a.y as i128)
}

/// The squared length of `a`.
fn sq_len_exec(a: Vec2) -> (r: i128)
    requires
        a.bounded(SPAN as int * 2),
    ensures
        r == sq_len(a),
        0 <= r <= 0x200_0000_0000,
{
    assert(0 <= a.x * a.x <= 0x100_0000_0000) by (nonlinear_arith)
        requires
            -0x100000 <= a.x <= 0x100000,
    ;
    assert(0 <= a.y * a.y <= 0x100_0000_0000) by (nonlinear_arith)
        requires
            -0x100000 <= a.y <= 0x100000,
    ;
    (a.x as i128) * (a.x as i128) + (a.y as i128) * (a.y as i128)
}

proof fn lemma_min_le_max(pts: Seq<Vec2>, a: Vec2)
    requires
        pts.len() >= 1,
    ensures
        min_proj(pts, a) <= max_proj(pts, a),
    decreases pts.len(),
{
    if pts.len() > 1 {
        lemma_min_le_max(pts.drop_last(), a);
    }
}

proof fn lemma_proj_extremes(pts: Seq<Vec2>, a: Vec2)
    requires
        pts.len() >= 1,
    ensures
        forall|i: int| 0 <= i < pts.len() ==> min_proj(pts, a) <= #[trigger] proj(pts[i], a) <= max_proj(pts, a),
        exists|i: int| 0 <= i < pts.len() && min_proj(pts, a) == #[trigger] proj(pts[i], a),
        exists|i: int| 0 <= i < pts.len() && max_proj(pts, a) == #[trigger] proj(pts[i], a),
    decreases pts.len(),
{
    if pts.len() == 1 {
        assert(min_proj(pts, a) == proj(pts[0], a));
        assert(max_proj(pts, a) == proj(pts[0], a));
    } else {
        let d = pts.drop_last();
        lemma_proj_extremes(d, a);
        assert forall|i: int| 0 <= i < pts.len() implies min_proj(pts, a) <= #[trigger] proj(pts[i], a)
            <= max_proj(pts, a) by {
            if i < d.len() {
                assert(pts[i] == d[i]);
                assert(proj(d[i], a) == proj(pts[i], a));
            }
        }
        if min_proj(pts, a) == proj(pts.last(), a) {
            assert(min_proj(pts, a) == proj(pts[pts.len() - 1], a));
        } else {
            let j = choose|j: int| 0 <= j < d.len() && min_proj(d, a) == #[trigger] proj(d[j], a);
            assert(pts[j] == d[j]);
            assert(min_proj(pts, a) == proj(pts[j], a));
        }
        if max_proj(pts, a) == proj(pts.last(), a) {
            assert(max_proj(pts, a) == proj(pts[pts.len() - 1], a));
        } else {
            let j = choose|j: int| 0 <= j < d.len() && max_proj(d, a) == #[trigger] proj(d[j], a);
            assert(pts[j] == d[j]);
            assert(max_proj(pts, a) == proj(pts[j], a));
        }
    }
}

/// On the axis `(1, 0)` or `(0, 1)` the projection interval of a point list
/// is the corresponding side of its bounding box.
proof fn lemma_box_projection(pts: Seq<Vec2>, h: HitBox)
    requires
        crate::geometry::is_bbox(pts, h),
    ensures
        min_proj(pts, Vec2 { x: 1, y: 0 }) == h.min_x,
        max_proj(pts, Vec2 { x: 1, y: 0 }) == h.max_x,
        min_proj(pts, Vec2 { x: 0, y: 1 }) == h.min_y,
        max_proj(pts, Vec2 { x: 0, y: 1 }) == h.max_y,
{
    let ax = Vec2 { x: 1, y: 0 };
    let ay = Vec2 { x: 0, y: 1 };
    lemma_proj_extremes(pts, ax);
    lemma_proj_extremes(pts, ay);
    assert forall|i: int| 0 <= i < pts.len() implies #[trigger] proj(pts[i], ax) == pts[i].x && proj(pts[i], ay) == pts[i].y by {}
    let i = choose|i: int| 0 <= i < pts.len() && (#[trigger] pts[i]).x == h.min_x;
    assert(proj(pts[i], ax) == h.min_x);
    let i = choose|i: int| 0 <= i < pts.len() && (#[trigger] pts[i]).x == h.max_x;
    assert(proj(pts[i], ax) == h.max_x);
    let i = choose|i: int| 0 <= i < pts.len() && (#[trigger] pts[i]).y == h.min_y;
    assert(proj(pts[i], ay) == h.min_y);
    let i = choose|i: int| 0 <= i < pts.len() && (#[trigger] pts[i]).y == h.max_y;
    assert(proj(pts[i], ay) == h.max_y);
    let j = choose|j: int| 0 <= j < pts.len() && min_proj(pts, ax) == #[trigger] proj(pts[j], ax);
    assert(proj(pts[j], ax) == pts[j].x);
    let j = choose|j: int| 0 <= j < pts.len() && max_proj(pts, ax) == #[trigger] proj(pts[j], ax);
    assert(proj(pts[j], ax) == pts[j].x);
    let j = choose|j: int| 0 <= j < pts.len() && min_proj(pts, ay) == #[trigger] proj(pts[j], ay);
    assert(proj(pts[j], ay) == pts[j].y);
    let j = choose|j: int| 0 <= j < pts.len() && max_proj(pts, ay) == #[trigger] proj(pts[j], ay);
    assert(proj(pts[j], ay) == pts[j].y);
}

/// The broad phase never rejects a pair that the narrow phase finds
/// colliding: if the separating-axis test reports a contact, the two
/// bounding boxes meet.
pub proof fn lemma_broad_phase_sound(s1: SweptShape, s2: SweptShape, h1: HitBox, h2: HitBox)
    requires
        crate::geometry::is_bbox(s1.points(), h1),
        crate::geometry::is_bbox(s2.points(), h2),
        s1.wf(),
        s2.wf(),
        sat_spec(s1.points(), s2.points(), dedup_axes(s1.axes() + s2.axes() + world_axes())) is Some,
    ensures
        boxes_meet(h1, h2),
{
    s1.lemma_points_bounded();
    s2.lemma_points_bounded();
    let p1 = s1.points();
    let p2 = s2.points();
    let axes = s1.axes() + s2.axes() + world_axes();
    let d = dedup_axes(axes);
    lemma_box_projection(p1, h1);
    lemma_box_projection(p2, h2);
    let base: int = (s1.axes().len() + s2.axes().len()) as int;
    assert(axes[base] == Vec2 { x: 1, y: 0 });
    assert(axes[base + 1] == Vec2 { x: 0, y: 1 });
    lemma_dedup_covers(axes, base);
    lemma_dedup_covers(axes, base + 1);
    let i = choose|i: int| 0 <= i < d.len() && parallel(#[trigger] d[i], axes[base]);
    let j = choose|j: int| 0 <= j < d.len() && parallel(#[trigger] d[j], axes[base + 1]);
    lemma_axes_nonzero(s1);
    lemma_axes_nonzero(s2);
    assert forall|t: int| 0 <= t < axes.len() implies !((#[trigger] axes[t]).x == 0 && axes[t].y == 0) by {
        if t < s1.axes().len() {
            assert(axes[t] == s1.axes()[t]);
        } else if t < base {
            assert(axes[t] == s2.axes()[t - s1.axes().len()]);
        }
    }
    lemma_dedup_from(axes);
    assert(axes.contains(d[i]));
    assert(axes.contains(d[j]));
    assert(!separated(p1, p2, d[i]));
    assert(!separated(p1, p2, d[j]));
    lemma_parallel_separation(p1, p2, d[i], Vec2 { x: 1, y: 0 });
    lemma_parallel_separation(p1, p2, d[j], Vec2 { x: 0, y: 1 });
}

/// The de-duplicated axes are among the axes.
proof fn lemma_dedup_from(axes: Seq<Vec2>)
    ensures
        forall|i: int| 0 <= i < dedup_axes(axes).len() ==> axes.contains(#[trigger] dedup_axes(axes)[i]),
    decreases axes.len(),
{
    if axes.len() > 0 {
        let d0 = dedup_axes(axes.drop_last());
        lemma_dedup_from(axes.drop_last());
        assert forall|i: int| 0 <= i < dedup_axes(axes).len() implies axes.contains(#[trigger] dedup_axes(axes)[i]) by {
            if i < d0.len() {
                assert(dedup_axes(axes)[i] == d0[i]);
                let t = choose|t: int| 0 <= t < axes.drop_last().len() && axes.drop_last()[t] == d0[i];
                assert(axes[t] == d0[i]);
            } else {
                assert(dedup_axes(axes)[i] == axes[axes.len() - 1]);
            }
        }
    }
}

/// No candidate axis of a swept shape is zero.
proof fn lemma_axes_nonzero(s: SweptShape)
    requires
        points_bounded(s.points(), SPAN as int),
    ensures
        forall|t: int| 0 <= t < s.axes().len() ==> !((#[trigger] s.axes()[t]).x == 0 && s.axes()[t].y == 0),
{
    if !s.boxy() {
        lemma_edge_axes_nonzero(s.points(), s.edge_count());
    }
}

proof fn lemma_edge_axes_nonzero(pts: Seq<Vec2>, k: nat)
    requires
        points_bounded(pts, SPAN as int),
        k <= pts.len(),
    ensures
        forall|t: int|
            0 <= t < crate::swept::edge_axes(pts, k).len() ==> !((#[trigger] crate::swept::edge_axes(
                pts,
                k,
            )[t]).x == 0 && crate::swept::edge_axes(pts, k)[t].y == 0),
    decreases k,
{
    if k > 0 {
        lemma_edge_axes_nonzero(pts, (k - 1) as nat);
        let e = crate::swept::edge_at(pts, k - 1);
        let q = crate::swept::perp_ccw_spec(e);
        let j = (k as int) % (pts.len() as int);
        assert(pts[j].bounded(SPAN as int));
        assert(pts[k - 1].bounded(SPAN as int));
        let prev = crate::swept::edge_axes(pts, (k - 1) as nat);
        assert(-2 * SPAN <= e.y <= 2 * SPAN);
        if !(e.x == 0 && e.y == 0) {
            if e.x == 0 {
                assert(e.y != 0);
                assert(q.x == (-e.y) as i64);
                assert(q.x != 0);
            } else {
                assert(q.y != 0);
            }
            assert(crate::swept::edge_axes(pts, k) == prev.push(q));
            assert forall|t: int| 0 <= t < prev.len() + 1 implies !((#[trigger] prev.push(q)[t]).x == 0
                && prev.push(q)[t].y == 0) by {
                if t < prev.len() {
                    assert(prev.push(q)[t] == prev[t]);
                }
            }
        } else {
            assert(crate::swept::edge_axes(pts, k) == prev);
        }
    }
}

/// Every axis has a parallel one among the de-duplicated axes.
proof fn lemma_dedup_covers(axes: Seq<Vec2>, k: int)
    requires
        0 <= k < axes.len(),
    ensures
        exists|i: int| 0 <= i < dedup_axes(axes).len() && parallel(#[trigger] dedup_axes(axes)[i], axes[k]),
    decreases axes.len(),
{
    let d0 = dedup_axes(axes.drop_last());
    let d = dedup_axes(axes);
    if k == axes.len() - 1 {
        if exists|i: int| 0 <= i < d0.len() && parallel(#[trigger] d0[i], axes.last()) {
        } else {
            assert(d[d0.len() as int] == axes.last());
            assert(parallel(d[d0.len() as int], axes[k]));
        }
    } else {
        lemma_dedup_covers(axes.drop_last(), k);
        assert(axes.drop_last()[k] == axes[k]);
        let i = choose|i: int| 0 <= i < d0.len() && parallel(#[trigger] d0[i], axes.drop_last()[k]);
        assert(d[i] == d0[i]);
    }
}

/// Projections on an axis parallel to a unit axis give the same separation.
proof fn lemma_parallel_separation(p1: Seq<Vec2>, p2: Seq<Vec2>, a: Vec2, u: Vec2)
    requires
        p1.len() >= 1,
        p2.len() >= 1,
        u == (Vec2 { x: 1, y: 0 }) || u == (Vec2 { x: 0, y: 1 }),
        parallel(a, u),
        !(a.x == 0 && a.y == 0),
        !separated(p1, p2, a),
    ensures
        !separated(p1, p2, u),
{
    let c = if u.x == 1 { a.x as int } else { a.y as int };
    assert(c != 0);
    lemma_scaled_extremes(p1, a, u, c);
    lemma_scaled_extremes(p2, a, u, c);
    if c > 0 {
        assert(!separated(p1, p2, u)) by (nonlinear_arith)
            requires
                c > 0,
                min_proj(p1, a) == c * min_proj(p1, u),
                max_proj(p1, a) == c * max_proj(p1, u),
                min_proj(p2, a) == c * min_proj(p2, u),
                max_proj(p2, a) == c * max_proj(p2, u),
                !(min_proj(p1, a) > max_proj(p2, a) || min_proj(p2, a) > max_proj(p1, a)),
        ;
    } else {
        assert(!separated(p1, p2, u)) by (nonlinear_arith)
            requires
                c < 0,
                min_proj(p1, a) == c * max_proj(p1, u),
                max_proj(p1, a) == c * min_proj(p1, u),
                min_proj(p2, a) == c * max_proj(p2, u),
                max_proj(p2, a) == c * min_proj(p2, u),
                !(min_proj(p1, a) > max_proj(p2, a) || min_proj(p2, a) > max_proj(p1, a)),
        ;
    }
}

/// On `a == c * u` the extreme projections are those on `u` scaled by `c`
/// (swapped when `c` is negative).
proof fn lemma_scaled_extremes(pts: Seq<Vec2>, a: Vec2, u: Vec2, c: int)
    requires
        pts.len() >= 1,
        u == (Vec2 { x: 1, y: 0 }) || u == (Vec2 { x: 0, y: 1 }),
        parallel(a, u),
        c == if u.x == 1 { a.x as int } else { a.y as int },
    ensures
        c >= 0 ==> min_proj(pts, a) == c * min_proj(pts, u) && max_proj(pts, a) == c * max_proj(pts, u),
        c < 0 ==> min_proj(pts, a) == c * max_proj(pts, u) && max_proj(pts, a) == c * min_proj(pts, u),
    decreases pts.len(),
{
    assert(forall|p: Vec2| #[trigger] proj(p, a) == c * proj(p, u)) by {
        assert forall|p: Vec2| #[trigger] proj(p, a) == c * proj(p, u) by {
            if u.x == 1 {
                assert(u.y == 0);
                assert(a.y == 0) by (nonlinear_arith)
                    requires
                        a.x * u.y - a.y * u.x == 0,
                        u.y == 0,
                        u.x == 1,
                ;
                assert(proj(p, a) == c * proj(p, u)) by (nonlinear_arith)
                    requires
                        a.y == 0,
                        u.x == 1,
                        u.y == 0,
                        c == a.x,
                        proj(p, a) == p.x * a.x + p.y * a.y,
                        proj(p, u) == p.x * u.x + p.y * u.y,
                ;
            } else {
                assert(u.x == 0 && u.y == 1);
                assert(a.x == 0) by (nonlinear_arith)
                    requires
                        a.x * u.y - a.y * u.x == 0,
                        u.y == 1,
                        u.x == 0,
                ;
                assert(proj(p, a) == c * proj(p, u)) by (nonlinear_arith)
                    requires
                        a.x == 0,
                        u.x == 0,
                        u.y == 1,
                        c == a.y,
                        proj(p, a) == p.x * a.x + p.y * a.y,
                        proj(p, u) == p.x * u.x + p.y * u.y,
                ;
            }
        }
    }
    if pts.len() > 1 {
        lemma_scaled_extremes(pts.drop_last(), a, u, c);
        let m = min_proj(pts.drop_last(), u);
        let mm = max_proj(pts.drop_last(), u);
        let l = proj(pts.last(), u);
        if c >= 0 {
            assert(c * min_spec(m, l) == min_spec(c * m, c * l)) by (nonlinear_arith)
                requires c >= 0;
            assert(c * max_spec(mm, l) == max_spec(c * mm, c * l)) by (nonlinear_arith)
                requires c >= 0;
        } else {
            assert(c * max_spec(mm, l) == min_spec(c * mm, c * l)) by (nonlinear_arith)
                requires c < 0;
            assert(c * min_spec(m, l) == max_spec(c * m, c * l)) by (nonlinear_arith)
                requires c < 0;
        }
    }
}

/// The smallest and largest projections of `pts` on `a`.
fn project(pts: &Vec<Vec2>, a: Vec2) -> (r: (i128, i128))
    requires
        pts.len() >= 1,
        points_bounded(pts@, SPAN as int),
        a.bounded(SPAN as int * 2),
    ensures
        r.0 == min_proj(pts@, a),
        r.1 == max_proj(pts@, a),
        -0x200_0000_0000 <= r.0 <= r.1 <= 0x200_0000_0000,
{
    let first = proj_exec(pts[0], a);
    let mut lo = first;
    let mut hi = first;
    let mut k: usize = 1;
    assert(pts@.subrange(0, 1).len() == 1);
    while k < pts.len()
        invariant
            1 <= k <= pts.len(),
            points_bounded(pts@, SPAN as int),
            a.bounded(SPAN as int * 2),
            lo == min_proj(pts@.subrange(0, k as int), a),
            hi == max_proj(pts@.subrange(0, k as int), a),
            -0x200_0000_0000 <= lo <= hi <= 0x200_0000_0000,
        decreases pts.len() - k,
    {
        let p = pts[k];
        let d = proj_exec(p, a);
        assert(pts@.subrange(0, k + 1).drop_last() =~= pts@.subrange(0, k as int));
        if d < lo {
            lo = d;
        }
        if d > hi {
            hi = d;
        }
        k = k + 1;
    }
    assert(pts@.subrange(0, pts.len() as int) =~= pts@);
    (lo, hi)
}

/// Sums of the coordinates of `pts`.
fn sums(pts: &Vec<Vec2>) -> (r: (i128, i128))
    requires
        points_bounded(pts@, SPAN as int),
        pts.len() <= MAX_SWEPT,
    ensures
        r.0 == sum_x(pts@),
        r.1 == sum_y(pts@),
        -0x80_0000_0000 <= r.0 <= 0x80_0000_0000,
        -0x80_0000_0000 <= r.1 <= 0x80_0000_0000,
{
    let mut sx: i128 = 0;
    let mut sy: i128 = 0;
    let mut k: usize = 0;
    while k < pts.len()
        invariant
            0 <= k <= pts.len() <= MAX_SWEPT,
            points_bounded(pts@, SPAN as int),
            sx == sum_x(pts@.subrange(0, k as int)),
            sy == sum_y(pts@.subrange(0, k as int)),
            -(k * SPAN) <= sx <= k * SPAN,
            -(k * SPAN) <= sy <= k * SPAN,
        decreases pts.len() - k,
    {
        let p = pts[k];
        assert(pts@.subrange(0, k + 1).drop_last() =~= pts@.subrange(0, k as int));
        sx = sx + p.x as i128;
        sy = sy + p.y as i128;
        k = k + 1;
    }
    assert(pts@.subrange(0, pts.len() as int) =~= pts@);
    (sx, sy)
}

/// Broad phase: whether two boxes may overlap.
pub fn check_hitboxes(h1: &HitBox, h2: &HitBox) -> (r: bool)
    ensures
        r == boxes_meet(*h1, *h2),
{
    !(h1.min_x > h2.max_x || h2.min_x > h1.max_x || h1.min_y > h2.max_y || h2.min_y > h1.max_y)
}

/// The separating-axis test between two convex point sets with the given
/// candidate axes.
pub fn sat_points(p1: &Vec<Vec2>, p2: &Vec<Vec2>, axes: &Vec<Vec2>) -> (r: Option<Vec2>)
    requires
        1 <= p1.len() <= MAX_SWEPT,
        1 <= p2.len() <= MAX_SWEPT,
        points_bounded(p1@, SPAN as int),
        points_bounded(p2@, SPAN as int),
        points_bounded(axes@, SPAN as int * 2),
        forall|k: int| 0 <= k < axes.len() ==> !((#[trigger] axes@[k]).x == 0 && axes@[k].y == 0),
    ensures
        r == sat_spec(p1@, p2@, axes@),
        r matches Some(n) ==> normal_ok(n),
{
    if axes.len() == 0 {
        return None;
    }
    let mut best: usize = 0;
    let mut best_overlap: i128 = 0;
    let mut best_sq: i128 = 0;
    let mut i: usize = 0;
    while i < axes.len()
        invariant
            0 <= i <= axes.len(),
            1 <= p1.len() <= MAX_SWEPT,
            1 <= p2.len() <= MAX_SWEPT,
            points_bounded(p1@, SPAN as int),
            points_bounded(p2@, SPAN as int),
            points_bounded(axes@, SPAN as int * 2),
            forall|t: int| 0 <= t < i ==> !separated(p1@, p2@, #[trigger] axes@[t]),
            i >= 1 ==> best == best_axis(p1@, p2@, axes@, i as nat),
            i >= 1 ==> best < i,
            i >= 1 ==> best_overlap == overlap(p1@, p2@, axes@[best as int]),
            i >= 1 ==> best_sq == sq_len(axes@[best as int]),
            i >= 1 ==> 0 <= best_overlap <= 0x400_0000_0000,
            i >= 1 ==> 0 <= best_sq <= 0x200_0000_0000,
        decreases axes.len() - i,
    {
        let a = axes[i];
        let (min_1, max_1) = project(p1, a);
        let (min_2, max_2) = project(p2, a);
        if min_1 > max_2 || min_2 > max_1 {
            assert(separated(p1@, p2@, axes@[i as int]));
            return None;
        }
        let hi = if max_1 <= max_2 { max_1 } else { max_2 };
        let lo = if min_1 >= min_2 { min_1 } else { min_2 };
        let o = hi - lo;
        let sq = sq_len_exec(a);
        if i == 0 {
            best = 0;
            best_overlap = o;
            best_sq = sq;
        } else {
            proof {
                assert(o * o <= 0x10_0000_0000_0000_0000_0000) by (nonlinear_arith)
                    requires 0 <= o <= 0x400_0000_0000;
                assert(best_overlap * best_overlap <= 0x10_0000_0000_0000_0000_0000) by (nonlinear_arith)
                    requires 0 <= best_overlap <= 0x400_0000_0000;
                assert(o * o >= 0) by (nonlinear_arith);
                assert(best_overlap * best_overlap >= 0) by (nonlinear_arith);
                assert((o * o) * best_sq <= 0x10_0000_0000_0000_0000_0000 * 0x200_0000_0000) by (nonlinear_arith)
                    requires 0 <= o * o <= 0x10_0000_0000_0000_0000_0000, 0 <= best_sq <= 0x200_0000_0000;
                assert((best_overlap * best_overlap) * sq <= 0x10_0000_0000_0000_0000_0000 * 0x200_0000_0000) by (nonlinear_arith)
                    requires 0 <= best_overlap * best_overlap <= 0x10_0000_0000_0000_0000_0000, 0 <= sq <= 0x200_0000_0000;
                assert((o * o) * best_sq >= 0) by (nonlinear_arith)
                    requires o * o >= 0, best_sq >= 0;
                assert((best_overlap * best_overlap) * sq >= 0) by (nonlinear_arith)
                    requires best_overlap * best_overlap >= 0, sq >= 0;
            }
            if o * o * best_sq < best_overlap * best_overlap * sq {
                best = i;
                best_overlap = o;
                best_sq = sq;
            }
        }
        i = i + 1;
    }
    let (sx1, sy1) = sums(p1);
    let (sx2, sy2) = sums(p2);
    let n1 = p1.len() as i128;
    let n2 = p2.len() as i128;
    let a = axes[best];
    proof {
        crate::algebra::lemma_mul_bound(n1 as int, sx2 as int, 0x10000, 0x80_0000_0000);
        crate::algebra::lemma_mul_bound(n2 as int, sx1 as int, 0x10000, 0x80_0000_0000);
        crate::algebra::lemma_mul_bound(n1 as int, sy2 as int, 0x10000, 0x80_0000_0000);
        crate::algebra::lemma_mul_bound(n2 as int, sy1 as int, 0x10000, 0x80_0000_0000);
    }
    let gx = n1 * sx2 - n2 * sx1;
    let gy = n1 * sy2 - n2 * sy1;
    proof {
        crate::algebra::lemma_mul_bound(gx as int, a.x as int, 0x100_0000_0000_0000, SPAN as int * 2);
        crate::algebra::lemma_mul_bound(gy as int, a.y as int, 0x100_0000_0000_0000, SPAN as int * 2);
    }
    let gap = gx * (a.x as i128) + gy * (a.y as i128);
    assert(gap == centroid_gap(p1@, p2@, a));
    if gap < 0 {
        Some(Vec2 { x: -a.x, y: -a.y })
    } else {
        Some(a)
    }
}

/// The narrow phase: the separating-axis test between two swept shapes,
/// returning the contact normal (pointing from the first toward the second).
/// The candidates are the shapes' edge normals, then the two coordinate axes,
/// so that shapes of no area (a segment, a flat hull) separate whenever their
/// boxes do; parallel candidates are tested once.
pub fn check_sat(s1: &SweptShape, s2: &SweptShape) -> (r: Option<Vec2>)
    requires
        s1.wf(),
        s2.wf(),
    ensures
        r == sat_spec(s1.points(), s2.points(), dedup_axes(s1.axes() + s2.axes() + world_axes())),
        r matches Some(n) ==> normal_ok(n),
{
    let p1 = s1.global_points();
    let p2 = s2.global_points();
    let mut axes = s1.collect_axes(&p1);
    let mut more = s2.collect_axes(&p2);
    let ghost a1 = axes@;
    let ghost a2 = more@;
    axes.append(&mut more);
    axes.push(Vec2 { x: 1, y: 0 });
    axes.push(Vec2 { x: 0, y: 1 });
    assert(axes@ =~= a1 + a2 + world_axes());
    let ghost n12 = a1.len() + a2.len();
    assert forall|k: int| 0 <= k < axes.len() implies !((#[trigger] axes@[k]).x == 0 && axes@[k].y == 0) by {
        if k < a1.len() {
            assert(axes@[k] == a1[k]);
        } else if k < n12 {
            assert(axes@[k] == a2[k - a1.len()]);
        }
    }
    assert(points_bounded(axes@, SPAN as int * 2)) by {
        assert forall|k: int| 0 <= k < axes@.len() implies (#[trigger] axes@[k]).bounded(SPAN as int * 2) by {
            if k < a1.len() {
                assert(axes@[k] == a1[k]);
            } else if k < n12 {
                assert(axes@[k] == a2[k - a1.len()]);
            }
        }
    }
    let unique = remove_duplicate_axes(&axes);
    sat_points(&p1, &p2, &unique)
}

/// Keeps the first of each family of parallel axes.
fn remove_duplicate_axes(axes: &Vec<Vec2>) -> (r: Vec<Vec2>)
    requires
        points_bounded(axes@, SPAN as int * 2),
        forall|k: int| 0 <= k < axes.len() ==> !((#[trigger] axes@[k]).x == 0 && axes@[k].y == 0),
    ensures
        r@ == dedup_axes(axes@),
        points_bounded(r@, SPAN as int * 2),
        forall|k: int| 0 <= k < r.len() ==> !((#[trigger] r@[k]).x == 0 && r@[k].y == 0),
{
    let mut unique: Vec<Vec2> = Vec::new();
    let mut k: usize = 0;
    while k < axes.len()
        invariant
            0 <= k <= axes.len(),
            points_bounded(axes@, SPAN as int * 2),
            forall|t: int| 0 <= t < axes.len() ==> !((#[trigger] axes@[t]).x == 0 && axes@[t].y == 0),
            unique@ == dedup_axes(axes@.subrange(0, k as int)),
            points_bounded(unique@, SPAN as int * 2),
            forall|t: int| 0 <= t < unique.len() ==> !((#[trigger] unique@[t]).x == 0 && unique@[t].y == 0),
        decreases axes.len() - k,
    {
        let a = axes[k];
        assert(a.bounded(SPAN as int * 2));
        let mut found = false;
        let mut i: usize = 0;
        while i < unique.len()
            invariant
                0 <= i <= unique.len(),
                a.bounded(SPAN as int * 2),
                points_bounded(unique@, SPAN as int * 2),
                found == exists|t: int| 0 <= t < i && parallel(#[trigger] unique@[t], a),
            decreases unique.len() - i,
        {
            let u = unique[i];
            assert(u.bounded(SPAN as int * 2));
            assert(-0x100_0000_0000 <= u.x * a.y <= 0x100_0000_0000) by (nonlinear_arith)
                requires
                    -0x100000 <= u.x <= 0x100000,
                    -0x100000 <= a.y <= 0x100000,
            ;
            assert(-0x100_0000_0000 <= u.y * a.x <= 0x100_0000_0000) by (nonlinear_arith)
                requires
                    -0x100000 <= u.y <= 0x100000,
                    -0x100000 <= a.x <= 0x100000,
            ;
            if (u.x as i128) * (a.y as i128) - (u.y as i128) * (a.x as i128) == 0 {
                found = true;
            }
            i = i + 1;
        }
        proof {
            assert(axes@.subrange(0, k + 1).drop_last() =~= axes@.subrange(0, k as int));
            assert(axes@.subrange(0, k + 1).last() == a);
        }
        if !found {
            unique.push(a);
        }
        k = k + 1;
    }
    assert(axes@.subrange(0, axes.len() as int) =~= axes@);
    unique
}

/// Whether two swept shapes collide: the broad phase on their boxes, then the
/// separating-axis test. Returns the contact normal.
pub fn check_collision(s1: &SweptShape, s2: &SweptShape) -> (r: Option<Vec2>)
    requires
        s1.wf(),
        s2.wf(),
    ensures
        forall|h1: HitBox, h2: HitBox|
            crate::geometry::is_bbox(s1.points(), h1) && crate::geometry::is_bbox(s2.points(), h2)
                ==> r == if boxes_meet(h1, h2) {
                sat_spec(s1.points(), s2.points(), dedup_axes(s1.axes() + s2.axes() + world_axes()))
            } else {
                None
            },
        r == collision_spec(s1.points(), s2.points(), s1.axes() + s2.axes()),
        r matches Some(n) ==> normal_ok(n),
{
    let h1 = s1.hitbox();
    let h2 = s2.hitbox();
    proof {
        crate::geometry::lemma_bbox_unique(s1.points(), bbox_spec(s1.points()), h1);
        crate::geometry::lemma_bbox_unique(s2.points(), bbox_spec(s2.points()), h2);
        assert forall|g1: HitBox, g2: HitBox|
            crate::geometry::is_bbox(s1.points(), g1) && crate::geometry::is_bbox(s2.points(), g2)
                implies g1 == h1 && g2 == h2 by {
            crate::geometry::lemma_bbox_unique(s1.points(), g1, h1);
            crate::geometry::lemma_bbox_unique(s2.points(), g2, h2);
        }
    }
    if check_hitboxes(&h1, &h2) {
        return check_sat(s1, s2);
    }
    None
}

} // verus!

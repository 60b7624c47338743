// Why the monotone chain contains its input: each pass keeps a chain of
// strictly counter-clockwise turns that every point seen so far lies on the
// inner side of; the hull's edges are the edges of the two passes.

use vstd::prelude::*;

use crate::algebra::Vec2;
use crate::hull::{chain_spec, lex_le, pop_while, rev, sort_spec, trim, walk_prefix, walk_spec};

verus! {

/// The cross product of two displacements.
pub open spec fn cr(a: (int, int), b: (int, int)) -> int {
    a.0 * b.1 - a.1 * b.0
}

/// `a` points forward in the x-then-y order (`up`), or backward (`!up`).
pub open spec fn forward(up: bool, a: (int, int)) -> bool {
    if up {
        a.0 > 0 || (a.0 == 0 && a.1 > 0)
    } else {
        a.0 < 0 || (a.0 == 0 && a.1 < 0)
    }
}

proof fn lemma_turn_order_up(a: (int, int), b: (int, int), c: (int, int))
    requires
        forward(true, a),
        forward(true, b),
        forward(true, c),
        cr(a, b) <= 0,
        cr(b, c) <= 0,
    ensures
        cr(a, c) <= 0,
        (cr(a, b) < 0 || cr(b, c) < 0) ==> cr(a, c) < 0,
{
    let (ax, ay) = a;
    let (bx, by) = b;
    let (cx, cy) = c;
    let p = ax * by - ay * bx;
    let q = bx * cy - by * cx;
    let r = cx * ay - cy * ax;
    assert((ax * by - ay * bx) * cx + (bx * cy - by * cx) * ax + (cx * ay - cy * ax) * bx == 0)
        by (nonlinear_arith);
    if bx > 0 {
        if cx == 0 {
            assert(q == bx * cy) by (nonlinear_arith)
                requires
                    q == bx * cy - by * cx,
                    cx == 0,
            ;
            assert(bx * cy > 0) by (nonlinear_arith)
                requires
                    bx > 0,
                    cy > 0,
            ;
        }
        assert(cx > 0);
        assert(ax == 0 ==> p == -(ay * bx)) by (nonlinear_arith)
            requires
                p == ax * by - ay * bx,
        ;
        assert(r >= 0 && ((p < 0 || q < 0) ==> r > 0)) by (nonlinear_arith)
            requires
                p * cx + q * ax + r * bx == 0,
                p <= 0,
                q <= 0,
                ax >= 0,
                cx > 0,
                bx > 0,
                ax == 0 ==> p == -(ay * bx),
                ax == 0 ==> ay > 0,
        ;
    } else {
        assert(bx == 0 && by > 0);
        assert(p == ax * by) by (nonlinear_arith)
            requires
                p == ax * by - ay * bx,
                bx == 0,
        ;
        assert(ax == 0) by (nonlinear_arith)
            requires
                p == ax * by,
                p <= 0,
                by > 0,
                ax >= 0,
        ;
        assert(q == -(by * cx)) by (nonlinear_arith)
            requires
                q == bx * cy - by * cx,
                bx == 0,
        ;
        assert(cx >= 0 && (q < 0 ==> cx > 0)) by (nonlinear_arith)
            requires
                q == -(by * cx),
                q <= 0,
                by > 0,
        ;
        assert(r >= 0 && (q < 0 ==> r > 0)) by (nonlinear_arith)
            requires
                r == cx * ay - cy * ax,
                ax == 0,
                ay > 0,
                cx >= 0,
                q < 0 ==> cx > 0,
        ;
        assert(p == 0) by (nonlinear_arith)
            requires
                p == ax * by,
                ax == 0,
        ;
    }
    assert(cr(a, c) == -r) by (nonlinear_arith)
        requires
            r == cx * ay - cy * ax,
            cr(a, c) == ax * cy - ay * cx,
    ;
}

proof fn lemma_cr_neg(a: (int, int), b: (int, int))
    ensures
        cr((-a.0, -a.1), (-b.0, -b.1)) == cr(a, b),
{
    let (ax, ay) = a;
    let (bx, by) = b;
    assert((-ax) * (-by) - (-ay) * (-bx) == ax * by - ay * bx) by (nonlinear_arith);
}

/// Turning is transitive among displacements that all point forward (or all
/// backward): if `b` is clockwise-or-aligned from `a` and `c` from `b`, then
/// `c` is from `a`, strictly so if either step is strict.
proof fn lemma_turn_order(up: bool, a: (int, int), b: (int, int), c: (int, int))
    requires
        forward(up, a),
        forward(up, b),
        forward(up, c),
        cr(a, b) <= 0,
        cr(b, c) <= 0,
    ensures
        cr(a, c) <= 0,
        (cr(a, b) < 0 || cr(b, c) < 0) ==> cr(a, c) < 0,
{
    if up {
        lemma_turn_order_up(a, b, c);
    } else {
        let na = (-a.0, -a.1);
        let nb = (-b.0, -b.1);
        let nc = (-c.0, -c.1);
        lemma_cr_neg(a, b);
        lemma_cr_neg(b, c);
        lemma_cr_neg(a, c);
        lemma_turn_order_up(na, nb, nc);
    }
}

/// The displacement from `a` to `b`.
pub open spec fn dv(a: Vec2, b: Vec2) -> (int, int) {
    (b.x - a.x, b.y - a.y)
}

/// `a` comes no later than `b` in the x-then-y order (`up`) or the reverse.
pub open spec fn ordered(up: bool, a: Vec2, b: Vec2) -> bool {
    if up {
        lex_le(a, b)
    } else {
        lex_le(b, a)
    }
}

#[verifier::opaque]
pub open spec fn monotone(up: bool, q: Seq<Vec2>) -> bool {
    forall|i: int, j: int| 0 <= i < j < q.len() ==> ordered(up, q[i], q[j])
}

proof fn lemma_forward(up: bool, a: Vec2, b: Vec2)
    requires
        ordered(up, a, b),
        a != b,
    ensures
        forward(up, dv(a, b)),
{
}

proof fn lemma_area(a: Vec2, b: Vec2, c: Vec2)
    ensures
        a.signed_area_spec(b, c) == cr(dv(a, b), dv(a, c)),
        a == b ==> a.signed_area_spec(b, c) == 0,
        b == c ==> a.signed_area_spec(b, c) == 0,
        a == c ==> a.signed_area_spec(b, c) == 0,
{
    reveal(Vec2::signed_area_spec);
    let (ux, uy) = dv(a, b);
    let (wx, wy) = dv(a, c);
    assert(a == b ==> ux * wy - uy * wx == 0) by (nonlinear_arith)
        requires
            a == b ==> ux == 0 && uy == 0,
    ;
    assert(b == c ==> ux * wy - uy * wx == 0) by (nonlinear_arith)
        requires
            b == c ==> ux == wx && uy == wy,
    ;
    assert(a == c ==> ux * wy - uy * wx == 0) by (nonlinear_arith)
        requires
            a == c ==> wx == 0 && wy == 0,
    ;
}

proof fn lemma_cr_rules(x: (int, int), y: (int, int), z: (int, int))
    ensures
        cr(x, (y.0 + z.0, y.1 + z.1)) == cr(x, y) + cr(x, z),
        cr(x, (y.0 - z.0, y.1 - z.1)) == cr(x, y) - cr(x, z),
        cr(x, x) == 0,
        cr(x, y) == -cr(y, x),
        cr(x, (-y.0, -y.1)) == -cr(x, y),
{
    let (a, b) = x;
    let (c, d) = y;
    let (e, f) = z;
    assert(a * (d + f) - b * (c + e) == (a * d - b * c) + (a * f - b * e)) by (nonlinear_arith);
    assert(a * (d - f) - b * (c - e) == (a * d - b * c) - (a * f - b * e)) by (nonlinear_arith);
    assert(a * b - b * a == 0) by (nonlinear_arith);
    assert(a * d - b * c == -(c * b - d * a)) by (nonlinear_arith);
    assert(a * (-d) - b * (-c) == -(a * d - b * c)) by (nonlinear_arith);
}

/// `dv(a, c)` is `dv(a, b) + dv(b, c)`.
proof fn lemma_dv_split(a: Vec2, b: Vec2, c: Vec2)
    ensures
        dv(a, c) == (dv(a, b).0 + dv(b, c).0, dv(a, b).1 + dv(b, c).1),
        dv(b, a) == (-dv(a, b).0, -dv(a, b).1),
{
}

/// What `pop_while` keeps: a prefix ending at `b[m]`, where the turn toward
/// `v` is strictly counter-clockwise (or nothing is left to turn), every
/// popped point having failed that test.
proof fn lemma_pop(b: Seq<Vec2>, v: Vec2) -> (m: int)
    requires
        b.len() >= 1,
    ensures
        0 <= m < b.len(),
        pop_while(b, v) == b.subrange(0, m + 1),
        m == 0 || b[m - 1].signed_area_spec(b[m], v) < 0,
        forall|t: int| m < t < b.len() ==> b[t - 1].signed_area_spec(#[trigger] b[t], v) >= 0,
    decreases b.len(),
{
    let n = b.len() as int;
    if n >= 2 && b[n - 2].signed_area_spec(b[n - 1], v) >= 0 {
        let d = b.drop_last();
        let m = lemma_pop(d, v);
        assert(d.subrange(0, m + 1) =~= b.subrange(0, m + 1));
        assert forall|t: int| m < t < b.len() implies b[t - 1].signed_area_spec(#[trigger] b[t], v)
            >= 0 by {
            if t < n - 1 {
                assert(b[t - 1] == d[t - 1] && b[t] == d[t]);
            }
        }
        m
    } else {
        assert(b.subrange(0, n) =~= b);
        n - 1
    }
}

/// The state of one monotone-chain pass after the first `i` points of `q`.
#[verifier::opaque]
pub open spec fn chain_ok(up: bool, q: Seq<Vec2>, i: int, b: Seq<Vec2>) -> bool {
    &&& 1 <= b.len() <= i
    &&& i >= 2 ==> b.len() >= 2
    &&& b[0] == q[0]
    &&& b[b.len() - 1] == q[i - 1]
    &&& forall|j: int| 0 <= j < b.len() ==> q.subrange(0, i).contains(#[trigger] b[j])
    &&& forall|j: int| 0 <= j < b.len() - 1 ==> ordered(up, #[trigger] b[j], b[j + 1])
    &&& forall|j: int| 0 <= j < b.len() - 2 ==> (#[trigger] b[j]).signed_area_spec(b[j + 1], b[j + 2]) < 0
    &&& forall|j: int, t: int|
        0 <= j < b.len() - 1 && 0 <= t < i ==> (#[trigger] b[j]).signed_area_spec(b[j + 1], #[trigger] q[t]) <= 0
    &&& forall|j: int, t: int|
        0 <= j < b.len() - 1 && 0 <= t < i && b[j] == b[j + 1] ==> #[trigger] q[t] == #[trigger] b[j]
}


proof fn lemma_mono(up: bool, q: Seq<Vec2>, i: int, j: int)
    requires
        monotone(up, q),
        0 <= i <= j < q.len(),
    ensures
        ordered(up, q[i], q[j]),
{
    reveal(monotone);
}

/// Two points ordered both ways coincide.
proof fn lemma_antisym(up: bool, a: Vec2, b: Vec2)
    requires
        ordered(up, a, b),
        ordered(up, b, a),
    ensures
        a == b,
{
}

proof fn lemma_ok_ends(up: bool, q: Seq<Vec2>, i: int, b: Seq<Vec2>)
    requires
        chain_ok(up, q, i, b),
    ensures
        1 <= b.len() <= i,
        i >= 2 ==> b.len() >= 2,
        b[0] == q[0],
        b[b.len() - 1] == q[i - 1],
{
    reveal(chain_ok);
}

/// The chain point `b[j]` is the seen point `q[t]`.
proof fn lemma_ok_member(up: bool, q: Seq<Vec2>, i: int, b: Seq<Vec2>, j: int) -> (t: int)
    requires
        chain_ok(up, q, i, b),
        0 <= j < b.len(),
        i <= q.len(),
    ensures
        0 <= t < i,
        q[t] == b[j],
{
    reveal(chain_ok);
    assert(q.subrange(0, i).contains(b[j]));
    let t = choose|t: int| 0 <= t < i && q.subrange(0, i)[t] == b[j];
    t
}

proof fn lemma_ok_edge(up: bool, q: Seq<Vec2>, i: int, b: Seq<Vec2>, j: int, t: int)
    requires
        chain_ok(up, q, i, b),
        0 <= j < b.len() - 1,
        0 <= t < i,
    ensures
        ordered(up, b[j], b[j + 1]),
        b[j].signed_area_spec(b[j + 1], q[t]) <= 0,
        b[j] == b[j + 1] ==> q[t] == b[j],
        j < b.len() - 2 ==> b[j].signed_area_spec(b[j + 1], b[j + 2]) < 0,
{
    reveal(chain_ok);
}

/// The parts of the invariant that hold for every chain point or edge.
pub open spec fn chain_parts(up: bool, q: Seq<Vec2>, i: int, b: Seq<Vec2>) -> bool {
    &&& forall|j: int| 0 <= j < b.len() ==> q.subrange(0, i).contains(#[trigger] b[j])
    &&& forall|j: int| 0 <= j < b.len() - 1 ==> ordered(up, #[trigger] b[j], b[j + 1])
    &&& forall|j: int| 0 <= j < b.len() - 2 ==> (#[trigger] b[j]).signed_area_spec(b[j + 1], b[j + 2]) < 0
    &&& forall|j: int, t: int|
        0 <= j < b.len() - 1 && 0 <= t < i ==> (#[trigger] b[j]).signed_area_spec(b[j + 1], #[trigger] q[t]) <= 0
    &&& forall|j: int, t: int|
        0 <= j < b.len() - 1 && 0 <= t < i && b[j] == b[j + 1] ==> #[trigger] q[t] == #[trigger] b[j]
}

proof fn lemma_ok_intro(up: bool, q: Seq<Vec2>, i: int, b: Seq<Vec2>)
    requires
        1 <= b.len() <= i,
        i >= 2 ==> b.len() >= 2,
        b[0] == q[0],
        b[b.len() - 1] == q[i - 1],
        chain_parts(up, q, i, b),
    ensures
        chain_ok(up, q, i, b),
{
    reveal(chain_ok);
}

/// Every kept edge before `b[m]` turns strictly clockwise into the new edge
/// from `b[m]` to `v`.
proof fn lemma_old_edges(up: bool, q: Seq<Vec2>, i: int, b: Seq<Vec2>, v: Vec2, m: int, j: int)
    requires
        monotone(up, q),
        1 <= i < q.len(),
        v == q[i],
        chain_ok(up, q, i, b),
        0 <= m < b.len(),
        m == 0 || b[m - 1].signed_area_spec(b[m], v) < 0,
        v != b[m],
        0 <= j < m,
    ensures
        cr(dv(b[j], b[j + 1]), dv(b[m], v)) < 0,
        forward(up, dv(b[j], b[j + 1])),
    decreases m - j,
{
    let t = lemma_ok_member(up, q, i, b, m);
    lemma_mono(up, q, t, i);
    lemma_forward(up, b[m], v);
    let w = dv(b[m], v);
    let dj = dv(b[j], b[j + 1]);
    lemma_ok_edge(up, q, i, b, j, 0);
    if j == m - 1 {
        lemma_area(b[j], b[m], v);
        lemma_dv_split(b[j], b[m], v);
        lemma_cr_rules(dj, dj, w);
        lemma_forward(up, b[j], b[j + 1]);
    } else {
        lemma_old_edges(up, q, i, b, v, m, j + 1);
        let dk = dv(b[j + 1], b[j + 2]);
        lemma_area(b[j], b[j + 1], b[j + 2]);
        lemma_forward(up, b[j], b[j + 1]);
        lemma_dv_split(b[j], b[j + 1], b[j + 2]);
        lemma_cr_rules(dj, dj, dk);
        lemma_turn_order(up, dj, dk, w);
    }
}

/// The new point `v` is on the inner side of every kept edge.
proof fn lemma_v_inside_old(up: bool, q: Seq<Vec2>, i: int, b: Seq<Vec2>, v: Vec2, m: int, j: int)
    requires
        monotone(up, q),
        1 <= i < q.len(),
        v == q[i],
        chain_ok(up, q, i, b),
        0 <= m < b.len(),
        m == 0 || b[m - 1].signed_area_spec(b[m], v) < 0,
        0 <= j < m,
    ensures
        b[j].signed_area_spec(b[j + 1], v) <= 0,
{
    let t = lemma_ok_member(up, q, i, b, m);
    lemma_ok_edge(up, q, i, b, j, t);
    if v != b[m] {
        lemma_old_edges(up, q, i, b, v, m, j);
        let dj = dv(b[j], b[j + 1]);
        lemma_area(b[j], b[j + 1], v);
        lemma_area(b[j], b[j + 1], b[m]);
        lemma_dv_split(b[j], b[m], v);
        lemma_cr_rules(dj, dv(b[j], b[m]), dv(b[m], v));
    }
}

/// Every point seen so far is on the inner side of the new edge from `b[m]` to `v`.
proof fn lemma_inside_new(up: bool, q: Seq<Vec2>, i: int, b: Seq<Vec2>, v: Vec2, m: int, t: int)
    requires
        monotone(up, q),
        1 <= i < q.len(),
        v == q[i],
        chain_ok(up, q, i, b),
        0 <= m < b.len(),
        m == 0 || b[m - 1].signed_area_spec(b[m], v) < 0,
        forall|k: int| m < k < b.len() ==> b[k - 1].signed_area_spec(#[trigger] b[k], v) >= 0,
        0 <= t <= i,
    ensures
        b[m].signed_area_spec(v, q[t]) <= 0,
{
    let p = q[t];
    lemma_area(b[m], v, p);
    if !(p == v || p == b[m] || v == b[m]) {
        lemma_ok_ends(up, q, i, b);
        let ts = lemma_ok_member(up, q, i, b, m);
        lemma_mono(up, q, ts, i);
        lemma_forward(up, b[m], v);
        if t < ts {
            lemma_mono(up, q, t, ts);
            lemma_before(up, q, i, b, v, m, t);
        } else {
            assert(t > ts);
            lemma_mono(up, q, ts, t);
            lemma_after(up, q, i, b, v, m, t);
        }
    }
}

proof fn lemma_before(up: bool, q: Seq<Vec2>, i: int, b: Seq<Vec2>, v: Vec2, m: int, t: int)
    requires
        monotone(up, q),
        1 <= i < q.len(),
        v == q[i],
        chain_ok(up, q, i, b),
        0 <= m < b.len(),
        m == 0 || b[m - 1].signed_area_spec(b[m], v) < 0,
        0 <= t < i,
        ordered(up, q[t], b[m]),
        ordered(up, b[m], v),
        q[t] != b[m],
        v != b[m],
    ensures
        b[m].signed_area_spec(v, q[t]) <= 0,
{
    let p = q[t];
    lemma_ok_ends(up, q, i, b);
    lemma_forward(up, p, b[m]);
    lemma_forward(up, b[m], v);
    let u = dv(p, b[m]);
    let w = dv(b[m], v);
    if m == 0 {
        lemma_mono(up, q, 0, t);
        lemma_antisym(up, p, b[m]);
    } else {
        lemma_old_edges(up, q, i, b, v, m, m - 1);
        let d = dv(b[m - 1], b[m]);
        assert(cr(d, w) < 0);
        lemma_ok_edge(up, q, i, b, m - 1, t);
        lemma_area(b[m - 1], b[m], p);
        lemma_dv_split(b[m - 1], b[m], p);
        lemma_dv_split(p, b[m], p);
        assert(dv(b[m], p) == (-u.0, -u.1));
        assert(dv(b[m - 1], p) == (d.0 - u.0, d.1 - u.1));
        lemma_cr_rules(d, d, u);
        assert(cr(d, dv(b[m - 1], p)) == -cr(d, u));
        lemma_cr_rules(u, d, d);
        assert(cr(u, d) <= 0);
        lemma_turn_order(up, u, d, w);
        assert(cr(u, w) < 0);
        lemma_cr_rules(w, u, u);
        lemma_area(b[m], v, p);
        assert(b[m].signed_area_spec(v, p) == cr(w, (-u.0, -u.1)));
    }
}

proof fn lemma_after(up: bool, q: Seq<Vec2>, i: int, b: Seq<Vec2>, v: Vec2, m: int, t: int)
    requires
        monotone(up, q),
        1 <= i < q.len(),
        v == q[i],
        chain_ok(up, q, i, b),
        0 <= m < b.len(),
        forall|k: int| m < k < b.len() ==> b[k - 1].signed_area_spec(#[trigger] b[k], v) >= 0,
        0 <= t <= i,
        ordered(up, b[m], q[t]),
        ordered(up, b[m], v),
        q[t] != b[m],
        q[t] != v,
        v != b[m],
    ensures
        b[m].signed_area_spec(v, q[t]) <= 0,
{
    let p = q[t];
    lemma_ok_ends(up, q, i, b);
    lemma_forward(up, b[m], p);
    lemma_forward(up, b[m], v);
    let u = dv(b[m], p);
    let w = dv(b[m], v);
    if m == b.len() - 1 {
        assert(t < i);
        if t < i - 1 {
            lemma_mono(up, q, t, i - 1);
        }
        lemma_antisym(up, p, b[m]);
    } else {
        assert(b[m].signed_area_spec(b[m + 1], v) >= 0);
        assert(t < i);
        lemma_ok_edge(up, q, i, b, m, t);
        lemma_forward(up, b[m], b[m + 1]);
        let d = dv(b[m], b[m + 1]);
        lemma_area(b[m], b[m + 1], v);
        lemma_area(b[m], b[m + 1], p);
        lemma_cr_rules(w, d, d);
        assert(cr(w, d) <= 0);
        assert(cr(d, u) <= 0);
        lemma_turn_order(up, w, d, u);
        lemma_area(b[m], v, p);
    }
}

/// One monotone-chain pass over points in order keeps its invariant.
#[verifier::spinoff_prover]
#[verifier::rlimit(50)]
proof fn lemma_walk(up: bool, q: Seq<Vec2>, i: int)
    requires
        monotone(up, q),
        1 <= i <= q.len(),
    ensures
        chain_ok(up, q, i, walk_prefix(q, i as nat)),
    decreases i,
{
    if i == 1 {
        let b = walk_prefix(q, 1);
        assert(walk_prefix(q, 0) == Seq::<Vec2>::empty());
        assert(pop_while(Seq::<Vec2>::empty(), q[0]) == Seq::<Vec2>::empty());
        assert(b =~= seq![q[0]]);
        assert(q.subrange(0, 1)[0] == q[0]);
        lemma_ok_intro(up, q, 1, b);
    } else {
        lemma_walk(up, q, i - 1);
        let b = walk_prefix(q, (i - 1) as nat);
        let v = q[i - 1];
        let k = i - 1;
        let m = lemma_pop(b, v);
        lemma_ok_ends(up, q, k, b);
        let b2 = walk_prefix(q, i as nat);
        assert(walk_prefix(q, i as nat) == pop_while(walk_prefix(q, (i - 1) as nat), v).push(v));
        assert(b2 == b.subrange(0, m + 1).push(v));
        assert(step_pre(up, q, k, b, v, m, b2));
        lemma_step_parts(up, q, k, b, v, m, b2);
        lemma_ok_intro(up, q, i, b2);
    }
}

pub open spec fn step_pre(up: bool, q: Seq<Vec2>, k: int, b: Seq<Vec2>, v: Vec2, m: int, b2: Seq<Vec2>) -> bool {
    &&& monotone(up, q)
    &&& 1 <= k < q.len()
    &&& v == q[k]
    &&& chain_ok(up, q, k, b)
    &&& 0 <= m < b.len()
    &&& (m == 0 || b[m - 1].signed_area_spec(b[m], v) < 0)
    &&& forall|t: int| m < t < b.len() ==> b[t - 1].signed_area_spec(#[trigger] b[t], v) >= 0
    &&& b2 == b.subrange(0, m + 1).push(v)
}

proof fn lemma_step_parts(up: bool, q: Seq<Vec2>, k: int, b: Seq<Vec2>, v: Vec2, m: int, b2: Seq<Vec2>)
    requires
        step_pre(up, q, k, b, v, m, b2),
    ensures
        chain_parts(up, q, k + 1, b2),
{
    lemma_step_member(up, q, k, b, v, m, b2);
    lemma_step_ordered(up, q, k, b, v, m, b2);
    lemma_step_convex(up, q, k, b, v, m, b2);
    lemma_step_support(up, q, k, b, v, m, b2);
    lemma_step_dup(up, q, k, b, v, m, b2);
}

proof fn lemma_step_member(up: bool, q: Seq<Vec2>, k: int, b: Seq<Vec2>, v: Vec2, m: int, b2: Seq<Vec2>)
    requires
        step_pre(up, q, k, b, v, m, b2),
    ensures
        forall|j: int| 0 <= j < b2.len() ==> q.subrange(0, k + 1).contains(#[trigger] b2[j]),
{
    assert forall|j: int| 0 <= j < b2.len() implies q.subrange(0, k + 1).contains(#[trigger] b2[j]) by {
        if j <= m {
            assert(b2[j] == b[j]);
            let t = lemma_ok_member(up, q, k, b, j);
            assert(q.subrange(0, k + 1)[t] == b[j]);
        } else {
            assert(q.subrange(0, k + 1)[k] == v);
        }
    }
}

proof fn lemma_step_ordered(up: bool, q: Seq<Vec2>, k: int, b: Seq<Vec2>, v: Vec2, m: int, b2: Seq<Vec2>)
    requires
        step_pre(up, q, k, b, v, m, b2),
    ensures
        forall|j: int| 0 <= j < b2.len() - 1 ==> ordered(up, #[trigger] b2[j], b2[j + 1]),
{
    assert forall|j: int| 0 <= j < b2.len() - 1 implies ordered(up, #[trigger] b2[j], b2[j + 1]) by {
        if j < m {
            assert(b2[j] == b[j] && b2[j + 1] == b[j + 1]);
            lemma_ok_edge(up, q, k, b, j, 0);
        } else {
            assert(b2[j] == b[m] && b2[j + 1] == v);
            let t = lemma_ok_member(up, q, k, b, m);
            lemma_mono(up, q, t, k);
        }
    }
}

proof fn lemma_step_convex(up: bool, q: Seq<Vec2>, k: int, b: Seq<Vec2>, v: Vec2, m: int, b2: Seq<Vec2>)
    requires
        step_pre(up, q, k, b, v, m, b2),
    ensures
        forall|j: int| 0 <= j < b2.len() - 2 ==> (#[trigger] b2[j]).signed_area_spec(b2[j + 1], b2[j + 2]) < 0,
{
    assert forall|j: int| 0 <= j < b2.len() - 2 implies (#[trigger] b2[j]).signed_area_spec(b2[j + 1], b2[j + 2]) < 0 by {
        if j + 2 <= m {
            assert(b2[j] == b[j] && b2[j + 1] == b[j + 1] && b2[j + 2] == b[j + 2]);
            lemma_ok_edge(up, q, k, b, j, 0);
        } else {
            assert(b2[j] == b[m - 1] && b2[j + 1] == b[m] && b2[j + 2] == v);
        }
    }
}

proof fn lemma_step_support(up: bool, q: Seq<Vec2>, k: int, b: Seq<Vec2>, v: Vec2, m: int, b2: Seq<Vec2>)
    requires
        step_pre(up, q, k, b, v, m, b2),
    ensures
        forall|j: int, t: int|
            0 <= j < b2.len() - 1 && 0 <= t < k + 1 ==> (#[trigger] b2[j]).signed_area_spec(b2[j + 1], #[trigger] q[t]) <= 0,
{
    assert forall|j: int, t: int| 0 <= j < b2.len() - 1 && 0 <= t < k + 1 implies (#[trigger] b2[j]).signed_area_spec(b2[j + 1], #[trigger] q[t]) <= 0 by {
        if j < m {
            assert(b2[j] == b[j] && b2[j + 1] == b[j + 1]);
            if t == k {
                lemma_v_inside_old(up, q, k, b, v, m, j);
            } else {
                lemma_ok_edge(up, q, k, b, j, t);
            }
        } else {
            assert(b2[j] == b[m] && b2[j + 1] == v);
            lemma_inside_new(up, q, k, b, v, m, t);
        }
    }
}

proof fn lemma_step_dup(up: bool, q: Seq<Vec2>, k: int, b: Seq<Vec2>, v: Vec2, m: int, b2: Seq<Vec2>)
    requires
        step_pre(up, q, k, b, v, m, b2),
    ensures
        forall|j: int, t: int|
            0 <= j < b2.len() - 1 && 0 <= t < k + 1 && b2[j] == b2[j + 1] ==> #[trigger] q[t] == #[trigger] b2[j],
{
    lemma_ok_ends(up, q, k, b);
    assert forall|j: int, t: int| 0 <= j < b2.len() - 1 && 0 <= t < k + 1 && b2[j] == b2[j + 1] implies #[trigger] q[t] == #[trigger] b2[j] by {
        if j < m {
            assert(b2[j] == b[j] && b2[j + 1] == b[j + 1]);
            if j + 2 <= m {
                lemma_ok_edge(up, q, k, b, j, 0);
                lemma_area(b[j], b[j + 1], b[j + 2]);
            } else {
                lemma_area(b[j], b[j + 1], v);
            }
        } else {
            assert(b2[j] == b[m] && v == b[m]);
            if m > 0 {
                lemma_area(b[m - 1], b[m], v);
            }
            assert(b[0] == q[0] && q[0] == v);
            lemma_mono(up, q, 0, t);
            lemma_mono(up, q, t, k);
            lemma_antisym(up, q[t], v);
        }
    }
}

proof fn lemma_sorted_monotone(s: Seq<Vec2>)
    requires
        crate::hull::lex_sorted(s),
    ensures
        monotone(true, s),
        monotone(false, rev(s)),
{
    reveal(monotone);
    let r = rev(s);
    assert forall|i: int, j: int| 0 <= i < j < r.len() implies ordered(false, r[i], r[j]) by {
        assert(r[i] == s[s.len() - 1 - i] && r[j] == s[s.len() - 1 - j]);
    }
}

/// Every input point lies on the inner side (or on the line) of every edge of
/// the boundary the monotone chain builds: the hull contains the point set.
pub proof fn lemma_hull_contains(verts: Seq<Vec2>, k: int, p: Vec2)
    requires
        verts.len() >= 2,
        verts.contains(p),
        0 <= k < chain_spec(verts).len(),
    ensures
        chain_spec(verts)[k].signed_area_spec(
            chain_spec(verts)[(k + 1) % chain_spec(verts).len() as int],
            p,
        ) <= 0,
{
    let s = sort_spec(verts);
    crate::hull::lemma_sort_spec(verts);
    let n = s.len() as int;
    let r = rev(s);
    lemma_sorted_monotone(s);
    lemma_walk(true, s, n);
    lemma_walk(false, r, n);
    let l = walk_spec(s);
    let u = walk_spec(r);
    assert(l == walk_prefix(s, n as nat));
    assert(u == walk_prefix(r, n as nat));
    lemma_ok_ends(true, s, n, l);
    lemma_ok_ends(false, r, n, u);
    let a = l.len() - 1;
    let bb = u.len() - 1;
    let c = chain_spec(verts);
    assert(c == trim(l) + trim(u));
    assert(c.len() == a + bb);
    let tv = choose|t: int| 0 <= t < verts.len() && verts[t] == p;
    assert(s.contains(verts[tv]));
    let tp = choose|t: int| 0 <= t < n && s[t] == p;
    assert(r[n - 1 - tp] == p);
    assert(u[0] == s[n - 1]);
    assert(u[bb] == s[0]);
    if k < a {
        assert(c[k] == l[k]);
        assert((k + 1) % c.len() as int == k + 1) by {
            vstd::arithmetic::div_mod::lemma_small_mod((k + 1) as nat, c.len());
        }
        if k + 1 < a {
            assert(c[k + 1] == l[k + 1]);
        } else {
            assert(c[k + 1] == u[0]);
        }
        lemma_ok_edge(true, s, n, l, k, tp);
    } else {
        let j = k - a;
        assert(c[k] == u[j]);
        if k + 1 < c.len() {
            assert((k + 1) % c.len() as int == k + 1) by {
                vstd::arithmetic::div_mod::lemma_small_mod((k + 1) as nat, c.len());
            }
            assert(c[k + 1] == u[j + 1]);
        } else {
            assert((k + 1) % c.len() as int == 0) by {
                vstd::arithmetic::div_mod::lemma_mod_self_0(c.len() as int);
            }
            assert(c[0] == l[0]);
        }
        lemma_ok_edge(false, r, n, u, j, n - 1 - tp);
    }
}

} // verus!

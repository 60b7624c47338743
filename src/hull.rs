use vstd::prelude::*;

use crate::algebra::{Vec2, SPAN};
use crate::error::GeometryError;
use crate::geometry::{points_bounded, polygon_check, Polygon};

verus! {

/// `a` comes no later than `b` when points are ordered by x, then by y.
pub open spec fn lex_le(a: Vec2, b: Vec2) -> bool {
    a.x < b.x || (a.x == b.x && a.y <= b.y)
}

pub open spec fn lex_sorted(s: Seq<Vec2>) -> bool {
    forall|i: int, j: int| 0 <= i < j < s.len() ==> lex_le(s[i], s[j])
}

/// Every point of `s` is a point of `t`.
pub open spec fn drawn_from(s: Seq<Vec2>, t: Seq<Vec2>) -> bool {
    forall|k: int| 0 <= k < s.len() ==> t.contains(#[trigger] s[k])
}

fn lex_le_exec(a: Vec2, b: Vec2) -> (r: bool)
    ensures
        r == lex_le(a, b),
{
    a.x < b.x || (a.x == b.x && a.y <= b.y)
}

/// Where `x` goes in `s`: just after the last element, counted from the back,
/// that comes no later than `x`.
pub open spec fn insert_pos(s: Seq<Vec2>, x: Vec2) -> int
    decreases s.len(),
{
    if s.len() == 0 {
        0
    } else if lex_le(s.last(), x) {
        s.len() as int
    } else {
        insert_pos(s.drop_last(), x)
    }
}

/// `s` sorted by x, then by y, inserting each point in turn.
pub open spec fn sort_spec(s: Seq<Vec2>) -> Seq<Vec2>
    decreases s.len(),
{
    if s.len() == 0 {
        s
    } else {
        let t = sort_spec(s.drop_last());
        t.insert(insert_pos(t, s.last()), s.last())
    }
}

proof fn lemma_insert_pos(s: Seq<Vec2>, x: Vec2)
    ensures
        0 <= insert_pos(s, x) <= s.len(),
        forall|k: int| insert_pos(s, x) <= k < s.len() ==> !lex_le(#[trigger] s[k], x),
        insert_pos(s, x) > 0 ==> lex_le(s[insert_pos(s, x) - 1], x),
    decreases s.len(),
{
    if s.len() > 0 && !lex_le(s.last(), x) {
        lemma_insert_pos(s.drop_last(), x);
        assert forall|k: int| insert_pos(s, x) <= k < s.len() implies !lex_le(#[trigger] s[k], x) by {
            if k < s.len() - 1 {
                assert(s[k] == s.drop_last()[k]);
            }
        }
    }
}

pub proof fn lemma_sort_spec(s: Seq<Vec2>)
    ensures
        sort_spec(s).len() == s.len(),
        lex_sorted(sort_spec(s)),
        drawn_from(sort_spec(s), s),
        drawn_from(s, sort_spec(s)),
    decreases s.len(),
{
    if s.len() > 0 {
        let d = s.drop_last();
        let t = sort_spec(d);
        let x = s.last();
        lemma_sort_spec(d);
        lemma_insert_pos(t, x);
        let p = insert_pos(t, x);
        let r = t.insert(p, x);
        assert(r == sort_spec(s));
        assert forall|i: int, j: int| 0 <= i < j < r.len() implies lex_le(r[i], r[j]) by {
            if j < p {
                assert(r[i] == t[i] && r[j] == t[j]);
            } else if j == p {
                assert(r[j] == x);
                assert(r[i] == t[i]);
                assert(lex_le(t[p - 1], x));
                if i < p - 1 {
                    assert(lex_le(t[i], t[p - 1]));
                }
            } else if i == p {
                assert(r[i] == x && r[j] == t[j - 1]);
                assert(!lex_le(t[j - 1], x));
            } else if i < p {
                assert(r[i] == t[i] && r[j] == t[j - 1]);
            } else {
                assert(r[i] == t[i - 1] && r[j] == t[j - 1]);
            }
        }
        assert forall|k: int| 0 <= k < r.len() implies s.contains(#[trigger] r[k]) by {
            if k == p {
                assert(s[s.len() - 1] == x);
            } else {
                let tk = if k < p { k } else { k - 1 };
                assert(r[k] == t[tk]);
                assert(d.contains(t[tk]));
                let w = choose|w: int| 0 <= w < d.len() && d[w] == t[tk];
                assert(s[w] == d[w]);
            }
        }
        assert forall|k: int| 0 <= k < s.len() implies r.contains(#[trigger] s[k]) by {
            if k == s.len() - 1 {
                assert(r[p] == x);
            } else {
                assert(s[k] == d[k]);
                assert(t.contains(d[k]));
                let w = choose|w: int| 0 <= w < t.len() && t[w] == d[k];
                if w < p {
                    assert(r[w] == t[w]);
                } else {
                    assert(r[w + 1] == t[w]);
                }
            }
        }
    }
}

/// Sorts points by x, then by y (insertion sort).
pub fn sort_points(v: &mut Vec<Vec2>)
    ensures
        final(v)@ == sort_spec(old(v)@),
        final(v).len() == old(v).len(),
        lex_sorted(final(v)@),
        drawn_from(final(v)@, old(v)@),
        drawn_from(old(v)@, final(v)@),
{
    let mut out: Vec<Vec2> = Vec::new();
    let n = v.len();
    let mut i: usize = 0;
    while i < n
        invariant
            n == v.len(),
            v@ == old(v)@,
            0 <= i <= n,
            out@ == sort_spec(v@.subrange(0, i as int)),
        decreases n - i,
    {
        let x = v[i];
        let mut p: usize = out.len();
        assert(out@.subrange(0, p as int) =~= out@);
        while p > 0 && !lex_le_exec(out[p - 1], x)
            invariant
                0 <= p <= out.len(),
                n == v.len(),
                v@ == old(v)@,
                0 <= i < n,
                x == v@[i as int],
                out@ == sort_spec(v@.subrange(0, i as int)),
                insert_pos(out@, x) == insert_pos(out@.subrange(0, p as int), x),
            decreases p,
        {
            assert(out@.subrange(0, p as int).drop_last() =~= out@.subrange(0, p - 1));
            p = p - 1;
        }
        proof {
            if p > 0 {
                assert(out@.subrange(0, p as int).last() == out@[p - 1]);
            }
            assert(insert_pos(out@.subrange(0, p as int), x) == p);
            assert(v@.subrange(0, i + 1).drop_last() =~= v@.subrange(0, i as int));
            assert(v@.subrange(0, i + 1).last() == x);
        }
        out.insert(p, x);
        i = i + 1;
    }
    proof {
        assert(v@.subrange(0, n as int) =~= v@);
        lemma_sort_spec(old(v)@);
    }
    *v = out;
}


/// `b` with its last points popped while they do not make a strictly
/// counter-clockwise turn toward `v`.
pub open spec fn pop_while(b: Seq<Vec2>, v: Vec2) -> Seq<Vec2>
    decreases b.len(),
{
    if b.len() >= 2 && b[b.len() - 2].signed_area_spec(b[b.len() - 1], v) >= 0 {
        pop_while(b.drop_last(), v)
    } else {
        b
    }
}

/// The boundary after the first `i` points of one monotone-chain pass.
pub open spec fn walk_prefix(pts: Seq<Vec2>, i: nat) -> Seq<Vec2>
    decreases i,
{
    if i == 0 || i > pts.len() {
        Seq::empty()
    } else {
        let v = pts[i - 1];
        pop_while(walk_prefix(pts, (i - 1) as nat), v).push(v)
    }
}

pub open spec fn walk_spec(pts: Seq<Vec2>) -> Seq<Vec2> {
    walk_prefix(pts, pts.len())
}

/// `s` without its last element (unchanged when empty).
pub open spec fn trim(s: Seq<Vec2>) -> Seq<Vec2> {
    if s.len() > 0 {
        s.drop_last()
    } else {
        s
    }
}

pub open spec fn rev(s: Seq<Vec2>) -> Seq<Vec2> {
    Seq::new(s.len(), |i: int| s[s.len() - 1 - i])
}

/// The closed boundary the monotone chain builds from `verts`.
pub open spec fn chain_spec(verts: Seq<Vec2>) -> Seq<Vec2> {
    let s = sort_spec(verts);
    trim(walk_spec(s)) + trim(walk_spec(rev(s)))
}

/// One pass of the monotone chain: keeps the points where the boundary turns
/// strictly counter-clockwise, popping the others.
fn walk(pts: &Vec<Vec2>) -> (b: Vec<Vec2>)
    requires
        points_bounded(pts@, SPAN as int),
    ensures
        b@ == walk_spec(pts@),
        drawn_from(b@, pts@),
        b.len() <= pts.len(),
        pts.len() >= 2 ==> b.len() >= 2,
        points_bounded(b@, SPAN as int),
{
    let mut boundary: Vec<Vec2> = Vec::new();
    let n = pts.len();
    let mut i: usize = 0;
    while i < n
        invariant
            n == pts.len(),
            0 <= i <= n,
            drawn_from(boundary@, pts@),
            boundary.len() <= i,
            i >= 2 ==> boundary.len() >= 2,
            i == 1 ==> boundary.len() == 1,
            points_bounded(pts@, SPAN as int),
            boundary@ == walk_prefix(pts@, i as nat),
        decreases n - i,
    {
        let v = pts[i];
        let ghost start = boundary@;
        let mut done = false;
        while boundary.len() >= 2 && !done
            invariant
                pop_while(boundary@, v) == pop_while(start, v),
                done ==> pop_while(boundary@, v) == boundary@,
                drawn_from(boundary@, pts@),
                boundary.len() <= i,
                i >= 1 ==> boundary.len() >= 1,
                points_bounded(pts@, SPAN as int),
                0 <= i < n,
                n == pts.len(),
                v == pts@[i as int],
            decreases boundary.len() + if done { 0int } else { 1int },
        {
            let b = boundary.len();
            let p = boundary[b - 2];
            let q = boundary[b - 1];
            assert(pts@.contains(boundary@[b - 2]));
            assert(pts@.contains(boundary@[b - 1]));
            if p.signed_area(q, v) >= 0 {
                assert(boundary@.drop_last() == boundary@.subrange(0, b - 1));
                boundary.pop();
            } else {
                done = true;
            }
        }
        assert(boundary@ == pop_while(start, v));
        boundary.push(v);
        assert(pts@.contains(pts@[i as int]));
        i = i + 1;
    }
    assert forall|k: int| 0 <= k < boundary.len() implies (#[trigger] boundary@[k]).bounded(SPAN as int) by {
        assert(pts@.contains(boundary@[k]));
    }
    boundary
}

/// The boundary of the monotone chain built from `verts`: the lower chain from
/// the leftmost to the rightmost point, then the upper chain back, each
/// without its last point.
pub fn hull_chain(verts: &Vec<Vec2>) -> (r: Vec<Vec2>)
    requires
        points_bounded(verts@, SPAN as int),
    ensures
        r@ == chain_spec(verts@),
        drawn_from(r@, verts@),
        points_bounded(r@, SPAN as int),
        verts.len() >= 2 ==> r.len() >= 2,
        r.len() <= 2 * verts.len(),
{
    let mut sorted = verts.clone();
    assert(sorted@ =~= verts@);
    sort_points(&mut sorted);
    assert forall|k: int| 0 <= k < sorted.len() implies (#[trigger] sorted@[k]).bounded(SPAN as int) by {
        assert(verts@.contains(sorted@[k]));
    }
    let mut lower = walk(&sorted);
    let mut reversed: Vec<Vec2> = Vec::new();
    let mut k: usize = sorted.len();
    while k > 0
        invariant
            0 <= k <= sorted.len(),
            reversed.len() == sorted.len() - k,
            reversed@ == rev(sorted@).subrange(0, sorted.len() - k),
            drawn_from(reversed@, sorted@),
            points_bounded(sorted@, SPAN as int),
        decreases k,
    {
        k = k - 1;
        reversed.push(sorted[k]);
        assert(sorted@.contains(sorted@[k as int]));
    }
    assert forall|j: int| 0 <= j < reversed.len() implies (#[trigger] reversed@[j]).bounded(SPAN as int) by {
        assert(sorted@.contains(reversed@[j]));
    }
    assert(reversed@ =~= rev(sorted@));
    let mut upper = walk(&reversed);
    let ghost wl = lower@;
    let ghost wu = upper@;
    lower.pop();
    upper.pop();
    assert(lower@ == trim(wl));
    assert(upper@ == trim(wu));
    let ghost l = lower@;
    let ghost u = upper@;
    lower.append(&mut upper);
    assert(lower@ == l + u);
    assert forall|j: int| 0 <= j < lower.len() implies verts@.contains(#[trigger] lower@[j]) by {
        if j < l.len() {
            assert(lower@[j] == l[j]);
            assert(sorted@.contains(l[j]));
        } else {
            assert(lower@[j] == u[j - l.len()]);
            assert(reversed@.contains(u[j - l.len()]));
            let t = choose|t: int| 0 <= t < reversed.len() && reversed@[t] == u[j - l.len()];
            assert(sorted@.contains(reversed@[t]));
        }
    }
    assert forall|j: int| 0 <= j < lower.len() implies (#[trigger] lower@[j]).bounded(SPAN as int) by {
        assert(verts@.contains(lower@[j]));
    }
    lower
}

/// The convex hull of `verts` as a polygon whose vertices run counter-clockwise
/// on screen, starting from the leftmost (then topmost) point.
pub fn convex_hull(verts: Vec<Vec2>) -> (r: Result<Polygon, GeometryError>)
    requires
        points_bounded(verts@, SPAN as int),
    ensures
        verts.len() < 3 ==> r == Err::<Polygon, GeometryError>(
            GeometryError::TooFewVertices(verts.len()),
        ),
        verts.len() >= 3 ==> match r {
            Ok(p) => p.verts@ == chain_spec(verts@) && polygon_check(p.verts@) is Ok,
            Err(e) => polygon_check(chain_spec(verts@)) == Err::<(), GeometryError>(e),
        },
        r matches Ok(p) ==> drawn_from(p.verts@, verts@),
        r matches Ok(p) ==> forall|k: int, t: int|
            0 <= k < p.verts.len() && 0 <= t < verts.len() ==> (#[trigger] p.verts@[k]).signed_area_spec(
                p.verts@[(k + 1) % p.verts.len() as int],
                #[trigger] verts@[t],
            ) <= 0,
{
    if verts.len() < 3 {
        return Err(GeometryError::TooFewVertices(verts.len()));
    }
    let chain = hull_chain(&verts);
    proof {
        assert forall|k: int, t: int|
            0 <= k < chain.len() && 0 <= t < verts.len() implies (#[trigger] chain@[k]).signed_area_spec(
                chain@[(k + 1) % chain.len() as int],
                #[trigger] verts@[t],
            ) <= 0 by {
            crate::containment::lemma_hull_contains(verts@, k, verts@[t]);
        }
    }
    match Polygon::new(chain) {
        Ok(p) => Ok(p),
        Err(e) => Err(e),
    }
}

} // verus!

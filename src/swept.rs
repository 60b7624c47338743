use vstd::prelude::*;

use crate::algebra::{abs_spec, Vec2, LIMIT, SPAN};
use crate::geometry::{
    bbox_of_points, is_bbox, points_bounded, rect_corners, translate, HitBox, Polygon, Rect,
    Shape, MAX_VERTS,
};
use crate::hull::{chain_spec, hull_chain};

verus! {

/// Most points a swept shape may carry.
pub const MAX_SWEPT: usize = 65536;

/// A region covering a shape over one step of motion.
#[derive(Clone, Debug)]
pub enum SweptShape<'a> {
    /// The shape did not move: its local shape at its position.
    Unmoved { shape: &'a Shape, pos: Vec2 },
    /// A rectangle that moved along one axis, widened by the distance travelled;
    /// `pos` is its top-left corner.
    AxisRect { swept: Rect, pos: Vec2 },
    /// The convex hull, in global coordinates, of the shape at both ends of the step.
    Moved { swept: Polygon },
}

/// The edge direction turned a quarter counter-clockwise.
pub open spec fn perp_ccw_spec(e: Vec2) -> Vec2 {
    Vec2 { x: -e.y as i64, y: e.x }
}

/// The edge from vertex `i` to the next one of the closed ring `pts`.
pub open spec fn edge_at(pts: Seq<Vec2>, i: int) -> Vec2 {
    Vec2 {
        x: (pts[(i + 1) % pts.len() as int].x - pts[i].x) as i64,
        y: (pts[(i + 1) % pts.len() as int].y - pts[i].y) as i64,
    }
}

/// The normals of the first `k` non-degenerate edges of the ring `pts`.
pub open spec fn edge_axes(pts: Seq<Vec2>, k: nat) -> Seq<Vec2>
    decreases k,
{
    if k == 0 {
        Seq::empty()
    } else {
        let prev = edge_axes(pts, (k - 1) as nat);
        let e = edge_at(pts, k - 1);
        if e.x == 0 && e.y == 0 {
            prev
        } else {
            prev.push(perp_ccw_spec(e))
        }
    }
}

impl<'a> SweptShape<'a> {
    /// The vertices (corners for rectangles) in global coordinates.
    pub open spec fn points(&self) -> Seq<Vec2> {
        match self {
            SweptShape::Unmoved { shape, pos } => translate(shape.local_points(), *pos),
            SweptShape::AxisRect { swept, pos } => translate(
                rect_corners(swept.width, swept.height),
                *pos,
            ),
            SweptShape::Moved { swept } => swept.verts@,
        }
    }

    /// Rectangles, whose edges are all axis-aligned.
    pub open spec fn boxy(&self) -> bool {
        match self {
            SweptShape::Unmoved { shape, pos } => (**shape) is Rect,
            SweptShape::AxisRect { .. } => true,
            SweptShape::Moved { .. } => false,
        }
    }

    /// How many edges the shape's outline has (a segment has one).
    pub open spec fn edge_count(&self) -> nat {
        match self {
            SweptShape::Unmoved { shape, pos } => if (**shape) is Segment {
                1
            } else {
                self.points().len()
            },
            _ => self.points().len(),
        }
    }

    /// The candidate separating axes the shape contributes.
    pub open spec fn axes(&self) -> Seq<Vec2> {
        if self.boxy() {
            seq![Vec2 { x: 1, y: 0 }, Vec2 { x: 0, y: 1 }]
        } else {
            edge_axes(self.points(), self.edge_count())
        }
    }

    /// Within the bounds the collision arithmetic needs.
    pub open spec fn wf(&self) -> bool {
        match self {
            SweptShape::Unmoved { shape, pos } => shape.sound() && pos.bounded(LIMIT * 2),
            SweptShape::AxisRect { swept, pos } => {
                &&& pos.bounded(LIMIT * 2)
                &&& 0 < swept.width && pos.x + swept.width <= LIMIT * 3
                &&& 0 < swept.height && pos.y + swept.height <= LIMIT * 3
            },
            SweptShape::Moved { swept } => {
                &&& points_bounded(swept.verts@, SPAN as int)
                &&& 2 <= swept.verts.len() <= MAX_SWEPT
            },
        }
    }

    /// A well-formed swept shape's vertices are within the geometry bound.
    pub proof fn lemma_points_bounded(&self)
        requires
            self.wf(),
        ensures
            points_bounded(self.points(), SPAN as int),
    {
        match self {
            SweptShape::Unmoved { shape, pos } => {
                let l = shape.local_points();
                assert forall|i: int| 0 <= i < self.points().len() implies (#[trigger] self.points()[i]).bounded(SPAN as int) by {
                    assert(l[i].bounded(LIMIT as int));
                }
            },
            SweptShape::AxisRect { swept, pos } => {
                assert forall|i: int| 0 <= i < self.points().len() implies (#[trigger] self.points()[i]).bounded(SPAN as int) by {
                    assert(rect_corners(swept.width, swept.height)[i] == rect_corners(swept.width, swept.height)[i]);
                }
            },
            SweptShape::Moved { swept } => {},
        }
    }

    /// The vertices in global coordinates.
    pub fn global_points(&self) -> (r: Vec<Vec2>)
        requires
            self.wf(),
        ensures
            r@ == self.points(),
            points_bounded(r@, SPAN as int),
            2 <= r.len() <= MAX_SWEPT,
    {
        match self {
            SweptShape::Unmoved { shape, pos } => {
                let local = local_points(shape);
                translated(&local, *pos)
            },
            SweptShape::AxisRect { swept, pos } => {
                let local = vec![
                    Vec2 { x: 0, y: 0 },
                    Vec2 { x: swept.width, y: 0 },
                    Vec2 { x: 0, y: swept.height },
                    Vec2 { x: swept.width, y: swept.height },
                ];
                assert(local@ =~= rect_corners(swept.width, swept.height));
                let mut r: Vec<Vec2> = Vec::new();
                let mut k: usize = 0;
                while k < 4
                    invariant
                        0 <= k <= 4,
                        local@ =~= rect_corners(swept.width, swept.height),
                        r@ =~= translate(local@, *pos).subrange(0, k as int),
                        self.wf(),
                        *self == (SweptShape::AxisRect { swept: *swept, pos: *pos }),
                    decreases 4 - k,
                {
                    r.push(Vec2 { x: local[k].x + pos.x, y: local[k].y + pos.y });
                    k = k + 1;
                }
                assert(r@ =~= translate(local@, *pos));
                r
            },
            SweptShape::Moved { swept } => swept.verts.clone(),
        }
    }

    /// The bounding box of the swept region.
    pub fn hitbox(&self) -> (r: HitBox)
        requires
            self.wf(),
        ensures
            is_bbox(self.points(), r),
    {
        let pts = self.global_points();
        bbox_of_points(&pts)
    }

    /// The candidate separating axes of the shape, whose global vertices are `pts`.
    pub fn collect_axes(&self, pts: &Vec<Vec2>) -> (r: Vec<Vec2>)
        requires
            self.wf(),
            pts@ == self.points(),
            points_bounded(pts@, SPAN as int),
            2 <= pts.len() <= MAX_SWEPT,
        ensures
            r@ == self.axes(),
            points_bounded(r@, SPAN as int * 2),
            forall|k: int| 0 <= k < r.len() ==> !((#[trigger] r@[k]).x == 0 && r@[k].y == 0),
            r.len() <= MAX_SWEPT,
    {
        let boxy = match self {
            SweptShape::Unmoved { shape, pos } => match shape {
                Shape::Rect(_) => true,
                _ => false,
            },
            SweptShape::AxisRect { .. } => true,
            SweptShape::Moved { .. } => false,
        };
        if boxy {
            let r = vec![Vec2 { x: 1, y: 0 }, Vec2 { x: 0, y: 1 }];
            assert(r@ =~= self.axes());
            return r;
        }
        let count: usize = match self {
            SweptShape::Unmoved { shape, pos } => match shape {
                Shape::Segment(_) => 1,
                _ => pts.len(),
            },
            _ => pts.len(),
        };
        let n = pts.len();
        let mut r: Vec<Vec2> = Vec::new();
        let mut i: usize = 0;
        while i < count
            invariant
                0 <= i <= count <= n,
                n == pts.len(),
                2 <= n <= MAX_SWEPT,
                points_bounded(pts@, SPAN as int),
                r@ == edge_axes(pts@, i as nat),
                r.len() <= i,
                points_bounded(r@, SPAN as int * 2),
                forall|k: int| 0 <= k < r.len() ==> !((#[trigger] r@[k]).x == 0 && r@[k].y == 0),
            decreases count - i,
        {
            let j = (i + 1) % n;
            let p = pts[i];
            let q = pts[j];
            assert(p.bounded(SPAN as int) && q.bounded(SPAN as int));
            let ex = q.x - p.x;
            let ey = q.y - p.y;
            assert(edge_at(pts@, i as int) == Vec2 { x: ex, y: ey });
            if !(ex == 0 && ey == 0) {
                r.push(Vec2 { x: -ey, y: ex });
            }
            assert(r@ == edge_axes(pts@, (i + 1) as nat));
            i = i + 1;
        }
        r
    }
}

/// The vertices of a shape in local coordinates.
pub fn local_points(shape: &Shape) -> (r: Vec<Vec2>)
    ensures
        r@ == shape.local_points(),
{
    match shape {
        Shape::Segment(s) => {
            let r = vec![s.a, s.b];
            assert(r@ =~= shape.local_points());
            r
        },
        Shape::Triangle(t) => {
            let r = vec![t.a, t.b, t.c];
            assert(r@ =~= shape.local_points());
            r
        },
        Shape::Rect(rect) => {
            let r = vec![
                Vec2 { x: 0, y: 0 },
                Vec2 { x: rect.width, y: 0 },
                Vec2 { x: 0, y: rect.height },
                Vec2 { x: rect.width, y: rect.height },
            ];
            assert(r@ =~= shape.local_points());
            r
        },
        Shape::Polygon(p) => {
            let r = p.verts.clone();
            assert(r@ =~= shape.local_points());
            r
        },
    }
}

/// `local` moved by `pos`.
pub fn translated(local: &Vec<Vec2>, pos: Vec2) -> (r: Vec<Vec2>)
    requires
        points_bounded(local@, LIMIT as int),
        pos.bounded(LIMIT * 2),
    ensures
        r@ == translate(local@, pos),
        points_bounded(r@, LIMIT as int * 3),
{
    let mut r: Vec<Vec2> = Vec::new();
    let mut k: usize = 0;
    while k < local.len()
        invariant
            0 <= k <= local.len(),
            points_bounded(local@, LIMIT as int),
            pos.bounded(LIMIT * 2),
            r@ =~= translate(local@, pos).subrange(0, k as int),
            points_bounded(r@, LIMIT as int * 3),
        decreases local.len() - k,
    {
        let p = local[k];
        assert(p.bounded(LIMIT as int));
        r.push(Vec2 { x: p.x + pos.x, y: p.y + pos.y });
        k = k + 1;
    }
    assert(r@ =~= translate(local@, pos));
    r
}

/// What `generate_swept_shape` builds when the shape moved and no axis-aligned
/// widening applies: a region drawn from the shape's vertices at both ends.
pub open spec fn moved_from(swept: Polygon, shape: Shape, pos_1: Vec2, pos_2: Vec2) -> bool {
    &&& swept.verts@ == chain_spec(
        translate(shape.local_points(), pos_1) + translate(shape.local_points(), pos_2),
    )
    &&& points_bounded(swept.verts@, SPAN as int)
    &&& 2 <= swept.verts.len() <= MAX_SWEPT
    &&& covers(
        swept.verts@,
        translate(shape.local_points(), pos_1) + translate(shape.local_points(), pos_2),
    )
}

/// Every point of `pts` is on the inner side (or on the line) of every edge
/// of the closed outline `ring`.
#[verifier::opaque]
pub open spec fn covers(ring: Seq<Vec2>, pts: Seq<Vec2>) -> bool {
    forall|k: int, t: int|
        0 <= k < ring.len() && 0 <= t < pts.len() ==> (#[trigger] ring[k]).signed_area_spec(
            ring[(k + 1) % ring.len() as int],
            #[trigger] pts[t],
        ) <= 0
}

/// The global vertices of the region `generate_swept_shape` builds.
pub open spec fn swept_points(shape: Shape, pos_1: Vec2, pos_2: Vec2) -> Seq<Vec2> {
    let both = translate(shape.local_points(), pos_1) + translate(shape.local_points(), pos_2);
    if pos_1 == pos_2 {
        translate(shape.local_points(), pos_1)
    } else {
        match shape {
            Shape::Rect(rect) => if pos_1.x == pos_2.x {
                translate(
                    rect_corners(rect.width, (rect.height + abs_spec(pos_1.y - pos_2.y)) as i64),
                    Vec2 { x: pos_1.x, y: if pos_1.y <= pos_2.y { pos_1.y } else { pos_2.y } },
                )
            } else if pos_1.y == pos_2.y {
                translate(
                    rect_corners((rect.width + abs_spec(pos_1.x - pos_2.x)) as i64, rect.height),
                    Vec2 { x: if pos_1.x <= pos_2.x { pos_1.x } else { pos_2.x }, y: pos_1.y },
                )
            } else {
                chain_spec(both)
            },
            _ => chain_spec(both),
        }
    }
}

/// The candidate separating axes of that region.
pub open spec fn swept_axes(shape: Shape, pos_1: Vec2, pos_2: Vec2) -> Seq<Vec2> {
    let pts = swept_points(shape, pos_1, pos_2);
    if shape is Rect && (pos_1 == pos_2 || pos_1.x == pos_2.x || pos_1.y == pos_2.y) {
        seq![Vec2 { x: 1, y: 0 }, Vec2 { x: 0, y: 1 }]
    } else if pos_1 == pos_2 && shape is Segment {
        edge_axes(pts, 1)
    } else {
        edge_axes(pts, pts.len())
    }
}

/// The region a shape covers when it moves from `pos_1` to `pos_2` in one step.
pub fn generate_swept_shape<'a>(pos_1: Vec2, pos_2: Vec2, shape: &'a Shape) -> (r: SweptShape<'a>)
    requires
        shape.sound(),
        pos_1.bounded(LIMIT as int),
        pos_2.bounded(LIMIT * 2),
    ensures
        r.wf(),
        r.points() == swept_points(*shape, pos_1, pos_2),
        r.axes() == swept_axes(*shape, pos_1, pos_2),
        pos_1 == pos_2 ==> r == (SweptShape::Unmoved { shape, pos: pos_1 }),
        pos_1 != pos_2 ==> match shape {
            Shape::Rect(rect) => if pos_1.x == pos_2.x {
                r == (SweptShape::AxisRect {
                    swept: Rect {
                        width: rect.width,
                        height: (rect.height + abs_spec(pos_1.y - pos_2.y)) as i64,
                    },
                    pos: Vec2 { x: pos_1.x, y: if pos_1.y <= pos_2.y { pos_1.y } else { pos_2.y } },
                })
            } else if pos_1.y == pos_2.y {
                r == (SweptShape::AxisRect {
                    swept: Rect {
                        width: (rect.width + abs_spec(pos_1.x - pos_2.x)) as i64,
                        height: rect.height,
                    },
                    pos: Vec2 { x: if pos_1.x <= pos_2.x { pos_1.x } else { pos_2.x }, y: pos_1.y },
                })
            } else {
                r matches SweptShape::Moved { swept } && moved_from(swept, *shape, pos_1, pos_2)
            },
            _ => r matches SweptShape::Moved { swept } && moved_from(swept, *shape, pos_1, pos_2),
        },
{
    if pos_1.equal(pos_2) {
        return SweptShape::Unmoved { shape, pos: pos_1 };
    }
    if let Shape::Rect(rect) = shape {
        if pos_1.x == pos_2.x {
            let (min_y, delta_y) = if pos_1.y <= pos_2.y {
                (pos_1.y, pos_2.y - pos_1.y)
            } else {
                (pos_2.y, pos_1.y - pos_2.y)
            };
            return SweptShape::AxisRect {
                swept: Rect { width: rect.width, height: rect.height + delta_y },
                pos: Vec2 { x: pos_1.x, y: min_y },
            };
        } else if pos_1.y == pos_2.y {
            let (min_x, delta_x) = if pos_1.x <= pos_2.x {
                (pos_1.x, pos_2.x - pos_1.x)
            } else {
                (pos_2.x, pos_1.x - pos_2.x)
            };
            return SweptShape::AxisRect {
                swept: Rect { width: rect.width + delta_x, height: rect.height },
                pos: Vec2 { x: min_x, y: pos_1.y },
            };
        }
    }
    let local = local_points(shape);
    let mut start = translated(&local, pos_1);
    let mut end = translated(&local, pos_2);
    let ghost s = start@;
    let ghost e = end@;
    start.append(&mut end);
    let verts = start;
    assert(verts@ == s + e);
    assert(points_bounded(verts@, SPAN as int));
    let chain = hull_chain(&verts);
    proof {
        assert(shape.local_points().len() >= 2) by {
            match shape {
                Shape::Polygon(p) => {},
                _ => {},
            }
        }
        assert forall|k: int, t: int|
            0 <= k < chain.len() && 0 <= t < verts.len() implies (#[trigger] chain@[k]).signed_area_spec(
                chain@[(k + 1) % chain.len() as int],
                #[trigger] verts@[t],
            ) <= 0 by {
            crate::containment::lemma_hull_contains(verts@, k, verts@[t]);
        }
        reveal(covers);
    }
    SweptShape::Moved { swept: Polygon { verts: chain } }
}


} // verus!

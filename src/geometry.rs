use vstd::prelude::*;

use crate::algebra::{Vec2, LIMIT};
use crate::error::{EngineError, GeometryError, MathError, Quantity};

verus! {

/// Every point of `pts` has both coordinates within `[-b, b]`.
pub open spec fn points_bounded(pts: Seq<Vec2>, b: int) -> bool {
    forall|i: int| 0 <= i < pts.len() ==> (#[trigger] pts[i]).bounded(b)
}

/// No two points of `pts` coincide.
pub open spec fn distinct_points(pts: Seq<Vec2>) -> bool {
    forall|i: int, j: int| 0 <= i < j < pts.len() ==> pts[i] != pts[j]
}

/// The turn at vertex `i` of the closed polygon `pts` is strictly counter-clockwise
/// on screen (negative signed area).
#[verifier::opaque]
pub open spec fn left_turn_at(pts: Seq<Vec2>, i: int) -> bool {
    pts[i].signed_area_spec(pts[(i + 1) % pts.len() as int], pts[(i + 2) % pts.len() as int]) < 0
}

/// Every turn of the closed polygon `pts` is strictly counter-clockwise on screen.
pub open spec fn strictly_convex(pts: Seq<Vec2>) -> bool {
    forall|i: int| 0 <= i < pts.len() ==> #[trigger] left_turn_at(pts, i)
}

/// The outcome of validating a polygon with vertices `pts`.
pub open spec fn polygon_check(pts: Seq<Vec2>) -> Result<(), GeometryError> {
    if pts.len() < 3 {
        Err(GeometryError::TooFewVertices(pts.len() as usize))
    } else if !distinct_points(pts) {
        Err(GeometryError::DuplicateVertices)
    } else if !strictly_convex(pts) {
        Err(GeometryError::NotConvex)
    } else {
        Ok(())
    }
}

/// `pts` translated by `p`.
pub open spec fn translate(pts: Seq<Vec2>, p: Vec2) -> Seq<Vec2> {
    Seq::new(pts.len(), |i: int| Vec2 { x: (pts[i].x + p.x) as i64, y: (pts[i].y + p.y) as i64 })
}

/// An axis-aligned bounding box.
#[derive(Clone, Copy, Debug, PartialEq, Eq, Structural)]
pub struct HitBox {
    pub min_x: i64,
    pub min_y: i64,
    pub max_x: i64,
    pub max_y: i64,
}

/// `h` is the smallest axis-aligned box holding every point of `pts`.
pub open spec fn is_bbox(pts: Seq<Vec2>, h: HitBox) -> bool {
    &&& pts.len() > 0
    &&& forall|i: int|
        0 <= i < pts.len() ==> h.min_x <= (#[trigger] pts[i]).x <= h.max_x && h.min_y <= pts[i].y
            <= h.max_y
    &&& exists|i: int| 0 <= i < pts.len() && (#[trigger] pts[i]).x == h.min_x
    &&& exists|i: int| 0 <= i < pts.len() && (#[trigger] pts[i]).y == h.min_y
    &&& exists|i: int| 0 <= i < pts.len() && (#[trigger] pts[i]).x == h.max_x
    &&& exists|i: int| 0 <= i < pts.len() && (#[trigger] pts[i]).y == h.max_y
}

/// A list of points has only one bounding box.
pub proof fn lemma_bbox_unique(pts: Seq<Vec2>, h1: HitBox, h2: HitBox)
    requires
        is_bbox(pts, h1),
        is_bbox(pts, h2),
    ensures
        h1 == h2,
{
    let i = choose|i: int| 0 <= i < pts.len() && (#[trigger] pts[i]).x == h1.min_x;
    let j = choose|i: int| 0 <= i < pts.len() && (#[trigger] pts[i]).x == h2.min_x;
    assert(h1.min_x <= pts[j].x && h2.min_x <= pts[i].x);
    let i = choose|i: int| 0 <= i < pts.len() && (#[trigger] pts[i]).y == h1.min_y;
    let j = choose|i: int| 0 <= i < pts.len() && (#[trigger] pts[i]).y == h2.min_y;
    assert(h1.min_y <= pts[j].y && h2.min_y <= pts[i].y);
    let i = choose|i: int| 0 <= i < pts.len() && (#[trigger] pts[i]).x == h1.max_x;
    let j = choose|i: int| 0 <= i < pts.len() && (#[trigger] pts[i]).x == h2.max_x;
    assert(h1.max_x >= pts[j].x && h2.max_x >= pts[i].x);
    let i = choose|i: int| 0 <= i < pts.len() && (#[trigger] pts[i]).y == h1.max_y;
    let j = choose|i: int| 0 <= i < pts.len() && (#[trigger] pts[i]).y == h2.max_y;
    assert(h1.max_y >= pts[j].y && h2.max_y >= pts[i].y);
}

/// The bounding box of a non-empty list of points.
pub fn bbox_of_points(pts: &Vec<Vec2>) -> (r: HitBox)
    requires
        pts.len() > 0,
    ensures
        is_bbox(pts@, r),
{
    let mut h = HitBox { min_x: pts[0].x, min_y: pts[0].y, max_x: pts[0].x, max_y: pts[0].y };
    let ghost mut wx0: int = 0;
    let ghost mut wy0: int = 0;
    let ghost mut wx1: int = 0;
    let ghost mut wy1: int = 0;
    let mut k: usize = 1;
    while k < pts.len()
        invariant
            1 <= k <= pts.len(),
            forall|i: int|
                0 <= i < k ==> h.min_x <= (#[trigger] pts@[i]).x <= h.max_x && h.min_y <= pts@[i].y
                    <= h.max_y,
            0 <= wx0 < k && pts@[wx0].x == h.min_x,
            0 <= wy0 < k && pts@[wy0].y == h.min_y,
            0 <= wx1 < k && pts@[wx1].x == h.max_x,
            0 <= wy1 < k && pts@[wy1].y == h.max_y,
        decreases pts.len() - k,
    {
        let p = pts[k];
        if p.x < h.min_x {
            h.min_x = p.x;
            proof { wx0 = k as int; }
        }
        if p.y < h.min_y {
            h.min_y = p.y;
            proof { wy0 = k as int; }
        }
        if p.x > h.max_x {
            h.max_x = p.x;
            proof { wx1 = k as int; }
        }
        if p.y > h.max_y {
            h.max_y = p.y;
            proof { wy1 = k as int; }
        }
        k = k + 1;
    }
    assert(pts@[wx0].x == h.min_x);
    assert(pts@[wy0].y == h.min_y);
    assert(pts@[wx1].x == h.max_x);
    assert(pts@[wy1].y == h.max_y);
    h
}

impl HitBox {
    pub fn new(min_x: i64, min_y: i64, max_x: i64, max_y: i64) -> (r: Self)
        ensures
            r == (HitBox { min_x, min_y, max_x, max_y }),
    {
        HitBox { min_x, min_y, max_x, max_y }
    }

    pub fn min_x(&self) -> (r: i64)
        ensures
            r == self.min_x,
    {
        self.min_x
    }

    pub fn min_y(&self) -> (r: i64)
        ensures
            r == self.min_y,
    {
        self.min_y
    }

    pub fn max_x(&self) -> (r: i64)
        ensures
            r == self.max_x,
    {
        self.max_x
    }

    pub fn max_y(&self) -> (r: i64)
        ensures
            r == self.max_y,
    {
        self.max_y
    }

    pub fn set_min_x(&mut self, v: i64)
        ensures
            *final(self) == (HitBox { min_x: v, ..*old(self) }),
    {
        self.min_x = v;
    }

    pub fn set_min_y(&mut self, v: i64)
        ensures
            *final(self) == (HitBox { min_y: v, ..*old(self) }),
    {
        self.min_y = v;
    }

    pub fn set_max_x(&mut self, v: i64)
        ensures
            *final(self) == (HitBox { max_x: v, ..*old(self) }),
    {
        self.max_x = v;
    }

    pub fn set_max_y(&mut self, v: i64)
        ensures
            *final(self) == (HitBox { max_y: v, ..*old(self) }),
    {
        self.max_y = v;
    }

    pub open spec fn shifted(self, p: Vec2) -> HitBox {
        HitBox {
            min_x: (self.min_x + p.x) as i64,
            min_y: (self.min_y + p.y) as i64,
            max_x: (self.max_x + p.x) as i64,
            max_y: (self.max_y + p.y) as i64,
        }
    }

    pub open spec fn bounded(self, b: int) -> bool {
        -b <= self.min_x <= b && -b <= self.min_y <= b && -b <= self.max_x <= b && -b <= self.max_y
            <= b
    }

    /// The box moved by `p`.
    pub fn add_pos(self, p: Vec2) -> (r: Self)
        requires
            self.bounded(LIMIT * 4),
            p.bounded(LIMIT * 4),
        ensures
            r == self.shifted(p),
    {
        HitBox {
            min_x: self.min_x + p.x,
            min_y: self.min_y + p.y,
            max_x: self.max_x + p.x,
            max_y: self.max_y + p.y,
        }
    }

    pub fn add_pos_mut(&mut self, p: Vec2)
        requires
            old(self).bounded(LIMIT * 4),
            p.bounded(LIMIT * 4),
        ensures
            *final(self) == old(self).shifted(p),
    {
        *self = self.add_pos(p);
    }
}

/// Shapes whose vertices, in local coordinates, bound them.
pub trait ToHitBox {
    /// The vertices (for a rectangle, the four corners) in local coordinates.
    spec fn corners(&self) -> Seq<Vec2>;

    /// The smallest axis-aligned box holding the shape, in local coordinates.
    fn to_hitbox(&self) -> (r: HitBox)
        requires
            self.corners().len() > 0,
            points_bounded(self.corners(), LIMIT as int),
        ensures
            is_bbox(self.corners(), r),
    ;
}

/// Shapes built from vertices, checked once at construction.
pub trait Validate {
    /// The outcome that validation gives.
    spec fn check(&self) -> Result<(), GeometryError>;

    /// The vertices are within the coordinate bound.
    spec fn in_range(&self) -> bool;

    fn validate(&self) -> (r: Result<(), GeometryError>)
        requires
            self.in_range(),
        ensures
            r == self.check(),
    ;
}

/// Shapes that can be moved to a global position, validated again there.
pub trait ApplyGlobalPos: Sized {
    /// The vertices, in local coordinates.
    spec fn vertex_list(&self) -> Seq<Vec2>;

    /// Validation of a vertex list of this kind of shape.
    spec fn check_vertices(pts: Seq<Vec2>) -> Result<(), GeometryError>;

    /// The shape with every vertex moved by `p`; fails as construction would.
    fn apply_global_pos(&self, p: Vec2) -> (r: Result<Self, GeometryError>)
        requires
            points_bounded(self.vertex_list(), LIMIT as int),
            p.bounded(LIMIT as int * 2),
        ensures
            match r {
                Ok(s) => s.vertex_list() == translate(self.vertex_list(), p) && Self::check_vertices(
                    s.vertex_list(),
                ) is Ok,
                Err(e) => Self::check_vertices(translate(self.vertex_list(), p)) == Err::<
                    (),
                    GeometryError,
                >(e),
            },
    ;
}

/// `v` moved by `p`.
fn shifted(v: Vec2, p: Vec2) -> (r: Vec2)
    requires
        v.bounded(LIMIT as int),
        p.bounded(LIMIT as int * 2),
    ensures
        r == (Vec2 { x: (v.x + p.x) as i64, y: (v.y + p.y) as i64 }),
        r.bounded(LIMIT as int * 3),
{
    Vec2 { x: v.x + p.x, y: v.y + p.y }
}

/// A segment between two local points.
#[derive(Clone, Copy, Debug, PartialEq, Eq, Structural)]
pub struct Segment {
    pub a: Vec2,
    pub b: Vec2,
}

impl Segment {
    pub fn new(a: Vec2, b: Vec2) -> (r: Result<Self, GeometryError>)
        ensures
            r == (if a == b {
                Err(GeometryError::DuplicateVertices)
            } else {
                Ok(Segment { a, b })
            }),
    {
        let segment = Segment { a, b };
        if a.equal(b) {
            return Err(GeometryError::DuplicateVertices);
        }
        Ok(segment)
    }

    pub fn a(&self) -> (r: Vec2)
        ensures
            r == self.a,
    {
        self.a
    }

    pub fn b(&self) -> (r: Vec2)
        ensures
            r == self.b,
    {
        self.b
    }

    pub fn set_a(&mut self, v: Vec2)
        ensures
            *final(self) == (Segment { a: v, ..*old(self) }),
    {
        self.a = v;
    }

    pub fn set_b(&mut self, v: Vec2)
        ensures
            *final(self) == (Segment { b: v, ..*old(self) }),
    {
        self.b = v;
    }
}

impl Validate for Segment {
    open spec fn check(&self) -> Result<(), GeometryError> {
        if self.a == self.b {
            Err(GeometryError::DuplicateVertices)
        } else {
            Ok(())
        }
    }

    open spec fn in_range(&self) -> bool {
        true
    }

    fn validate(&self) -> (r: Result<(), GeometryError>) {
        if self.a.equal(self.b) {
            return Err(GeometryError::DuplicateVertices);
        }
        Ok(())
    }
}

impl ToHitBox for Segment {
    open spec fn corners(&self) -> Seq<Vec2> {
        seq![self.a, self.b]
    }

    fn to_hitbox(&self) -> (r: HitBox) {
        let pts = vec![self.a, self.b];
        assert(pts@ =~= self.corners());
        bbox_of_points(&pts)
    }
}

/// A triangle with three local vertices.
#[derive(Clone, Copy, Debug, PartialEq, Eq, Structural)]
pub struct Triangle {
    pub a: Vec2,
    pub b: Vec2,
    pub c: Vec2,
}

pub open spec fn triangle_check(a: Vec2, b: Vec2, c: Vec2) -> Result<(), GeometryError> {
    if a == b || a == c || b == c {
        Err(GeometryError::DuplicateVertices)
    } else {
        Ok(())
    }
}

impl Triangle {
    pub fn new(a: Vec2, b: Vec2, c: Vec2) -> (r: Result<Self, GeometryError>)
        ensures
            r == (match triangle_check(a, b, c) {
                Ok(()) => Ok(Triangle { a, b, c }),
                Err(e) => Err(e),
            }),
    {
        let triangle = Triangle { a, b, c };
        match triangle.validate() {
            Ok(()) => Ok(triangle),
            Err(e) => Err(e),
        }
    }

    pub fn a(&self) -> (r: Vec2)
        ensures
            r == self.a,
    {
        self.a
    }

    pub fn b(&self) -> (r: Vec2)
        ensures
            r == self.b,
    {
        self.b
    }

    pub fn c(&self) -> (r: Vec2)
        ensures
            r == self.c,
    {
        self.c
    }

    pub fn set_a(&mut self, v: Vec2)
        ensures
            *final(self) == (Triangle { a: v, ..*old(self) }),
    {
        self.a = v;
    }

    pub fn set_b(&mut self, v: Vec2)
        ensures
            *final(self) == (Triangle { b: v, ..*old(self) }),
    {
        self.b = v;
    }

    pub fn set_c(&mut self, v: Vec2)
        ensures
            *final(self) == (Triangle { c: v, ..*old(self) }),
    {
        self.c = v;
    }
}

impl Validate for Triangle {
    open spec fn check(&self) -> Result<(), GeometryError> {
        triangle_check(self.a, self.b, self.c)
    }

    open spec fn in_range(&self) -> bool {
        true
    }

    fn validate(&self) -> (r: Result<(), GeometryError>) {
        if self.a.equal(self.b) || self.a.equal(self.c) || self.b.equal(self.c) {
            return Err(GeometryError::DuplicateVertices);
        }
        Ok(())
    }
}

impl ToHitBox for Triangle {
    open spec fn corners(&self) -> Seq<Vec2> {
        seq![self.a, self.b, self.c]
    }

    fn to_hitbox(&self) -> (r: HitBox) {
        let pts = vec![self.a, self.b, self.c];
        assert(pts@ =~= self.corners());
        bbox_of_points(&pts)
    }
}

/// An axis-aligned rectangle whose top-left corner is the local origin.
#[derive(Clone, Copy, Debug, PartialEq, Eq, Structural)]
pub struct Rect {
    pub width: i64,
    pub height: i64,
}

pub open spec fn rect_check(width: i64, height: i64) -> Result<(), MathError> {
    if width <= 0 {
        Err(MathError::NonPositive(Quantity::Width))
    } else if height <= 0 {
        Err(MathError::NonPositive(Quantity::Height))
    } else {
        Ok(())
    }
}

impl Rect {
    pub fn new(width: i64, height: i64) -> (r: Result<Self, MathError>)
        ensures
            r == (match rect_check(width, height) {
                Ok(()) => Ok(Rect { width, height }),
                Err(e) => Err(e),
            }),
    {
        let rect = Rect { width, height };
        match rect.validate() {
            Ok(()) => Ok(rect),
            Err(e) => Err(e),
        }
    }

    pub fn validate(&self) -> (r: Result<(), MathError>)
        ensures
            r == rect_check(self.width, self.height),
    {
        if self.width <= 0 {
            return Err(MathError::NonPositive(Quantity::Width));
        }
        if self.height <= 0 {
            return Err(MathError::NonPositive(Quantity::Height));
        }
        Ok(())
    }

    pub fn width(&self) -> (r: i64)
        ensures
            r == self.width,
    {
        self.width
    }

    pub fn height(&self) -> (r: i64)
        ensures
            r == self.height,
    {
        self.height
    }

    pub fn set_width(&mut self, v: i64)
        ensures
            *final(self) == (Rect { width: v, ..*old(self) }),
    {
        self.width = v;
    }

    pub fn set_height(&mut self, v: i64)
        ensures
            *final(self) == (Rect { height: v, ..*old(self) }),
    {
        self.height = v;
    }
}

pub open spec fn rect_corners(w: i64, h: i64) -> Seq<Vec2> {
    seq![
        Vec2 { x: 0, y: 0 },
        Vec2 { x: w, y: 0 },
        Vec2 { x: 0, y: h },
        Vec2 { x: w, y: h },
    ]
}

impl ToHitBox for Rect {
    open spec fn corners(&self) -> Seq<Vec2> {
        rect_corners(self.width, self.height)
    }

    fn to_hitbox(&self) -> (r: HitBox) {
        let pts = vec![
            Vec2 { x: 0, y: 0 },
            Vec2 { x: self.width, y: 0 },
            Vec2 { x: 0, y: self.height },
            Vec2 { x: self.width, y: self.height },
        ];
        assert(pts@ =~= self.corners());
        bbox_of_points(&pts)
    }
}

/// A quadrilateral with four local vertices.
#[derive(Clone, Copy, Debug, PartialEq, Eq, Structural)]
pub struct Quad {
    pub a: Vec2,
    pub b: Vec2,
    pub c: Vec2,
    pub d: Vec2,
}

impl Quad {
    pub open spec fn vertices(&self) -> Seq<Vec2> {
        seq![self.a, self.b, self.c, self.d]
    }

    pub fn new(a: Vec2, b: Vec2, c: Vec2, d: Vec2) -> (r: Result<Self, GeometryError>)
        requires
            a.bounded(LIMIT as int),
            b.bounded(LIMIT as int),
            c.bounded(LIMIT as int),
            d.bounded(LIMIT as int),
        ensures
            r == (match polygon_check(seq![a, b, c, d]) {
                Ok(()) => Ok(Quad { a, b, c, d }),
                Err(e) => Err(e),
            }),
    {
        let quad = Quad { a, b, c, d };
        assert(quad.vertices() =~= seq![a, b, c, d]);
        match quad.validate() {
            Ok(()) => Ok(quad),
            Err(e) => Err(e),
        }
    }

    pub fn new_unchecked(a: Vec2, b: Vec2, c: Vec2, d: Vec2) -> (r: Self)
        ensures
            r == (Quad { a, b, c, d }),
    {
        Quad { a, b, c, d }
    }

    pub fn a(&self) -> (r: Vec2)
        ensures
            r == self.a,
    {
        self.a
    }

    pub fn b(&self) -> (r: Vec2)
        ensures
            r == self.b,
    {
        self.b
    }

    pub fn c(&self) -> (r: Vec2)
        ensures
            r == self.c,
    {
        self.c
    }

    pub fn d(&self) -> (r: Vec2)
        ensures
            r == self.d,
    {
        self.d
    }

    pub fn set_a(&mut self, v: Vec2)
        ensures
            *final(self) == (Quad { a: v, ..*old(self) }),
    {
        self.a = v;
    }

    pub fn set_b(&mut self, v: Vec2)
        ensures
            *final(self) == (Quad { b: v, ..*old(self) }),
    {
        self.b = v;
    }

    pub fn set_c(&mut self, v: Vec2)
        ensures
            *final(self) == (Quad { c: v, ..*old(self) }),
    {
        self.c = v;
    }

    pub fn set_d(&mut self, v: Vec2)
        ensures
            *final(self) == (Quad { d: v, ..*old(self) }),
    {
        self.d = v;
    }
}

impl Validate for Quad {
    open spec fn check(&self) -> Result<(), GeometryError> {
        polygon_check(self.vertices())
    }

    open spec fn in_range(&self) -> bool {
        points_bounded(self.vertices(), LIMIT as int)
    }

    fn validate(&self) -> (r: Result<(), GeometryError>) {
        let verts = vec![self.a, self.b, self.c, self.d];
        assert(verts@ =~= self.vertices());
        validate_vertices(&verts)
    }
}

impl ToHitBox for Quad {
    open spec fn corners(&self) -> Seq<Vec2> {
        self.vertices()
    }

    fn to_hitbox(&self) -> (r: HitBox) {
        let pts = vec![self.a, self.b, self.c, self.d];
        assert(pts@ =~= self.corners());
        bbox_of_points(&pts)
    }
}

/// Whether two vertices of the list coincide.
fn has_duplicates(verts: &Vec<Vec2>) -> (r: bool)
    ensures
        r == !distinct_points(verts@),
{
    let n = verts.len();
    let mut i: usize = 0;
    while i < n
        invariant
            n == verts.len(),
            0 <= i <= n,
            forall|a: int, b: int| 0 <= a < i && a < b < n ==> verts@[a] != verts@[b],
        decreases n - i,
    {
        let mut j: usize = i + 1;
        while j < n
            invariant
                n == verts.len(),
                0 <= i < n,
                i + 1 <= j <= n,
                forall|a: int, b: int| 0 <= a < i && a < b < n ==> verts@[a] != verts@[b],
                forall|b: int| i < b < j ==> verts@[i as int] != verts@[b],
            decreases n - j,
        {
            if verts[i].equal(verts[j]) {
                return true;
            }
            j = j + 1;
        }
        i = i + 1;
    }
    false
}

/// Whether every turn of the closed vertex list is strictly counter-clockwise.
fn turns_left(verts: &Vec<Vec2>) -> (r: bool)
    requires
        verts.len() >= 3,
        points_bounded(verts@, LIMIT as int * 4),
    ensures
        r == strictly_convex(verts@),
{
    let n = verts.len();
    let mut k: usize = 0;
    while k < n
        invariant
            n == verts.len(),
            n >= 3,
            0 <= k <= n,
            points_bounded(verts@, LIMIT as int * 4),
            forall|t: int| 0 <= t < k ==> #[trigger] left_turn_at(verts@, t),
        decreases n - k,
    {
        let k1 = (k + 1) % n;
        let k2 = (k1 + 1) % n;
        assert(k2 as int == (k as int + 2) % (n as int)) by {
            vstd::arithmetic::div_mod::lemma_add_mod_noop(k as int + 1, 1, n as int);
            vstd::arithmetic::div_mod::lemma_small_mod(1nat, n as nat);
        }
        let p = verts[k];
        let q = verts[k1];
        let s = verts[k2];
        assert(p.bounded(LIMIT as int * 4) && q.bounded(LIMIT as int * 4) && s.bounded(LIMIT as int * 4));
        let area = p.signed_area(q, s);
        assert(left_turn_at(verts@, k as int) == (area < 0)) by {
            reveal(left_turn_at);
        }
        if area >= 0 {
            return false;
        }
        k = k + 1;
    }
    true
}

/// Checks a vertex list: at least three vertices, none repeated, every turn
/// strictly counter-clockwise.
pub fn validate_vertices(verts: &Vec<Vec2>) -> (r: Result<(), GeometryError>)
    requires
        points_bounded(verts@, LIMIT as int * 4),
    ensures
        r == polygon_check(verts@),
{
    let n = verts.len();
    if n < 3 {
        return Err(GeometryError::TooFewVertices(n));
    }
    if has_duplicates(verts) {
        return Err(GeometryError::DuplicateVertices);
    }
    if !turns_left(verts) {
        return Err(GeometryError::NotConvex);
    }
    Ok(())
}

/// A convex polygon; vertices are local and listed counter-clockwise on screen.
#[derive(Clone, Debug)]
pub struct Polygon {
    pub verts: Vec<Vec2>,
}

impl Polygon {
    pub fn new(verts: Vec<Vec2>) -> (r: Result<Self, GeometryError>)
        requires
            points_bounded(verts@, LIMIT as int * 4),
        ensures
            match r {
                Ok(p) => polygon_check(verts@) is Ok && p.verts@ == verts@,
                Err(e) => polygon_check(verts@) == Err::<(), GeometryError>(e),
            },
    {
        match validate_vertices(&verts) {
            Ok(()) => Ok(Polygon { verts }),
            Err(e) => Err(e),
        }
    }

    pub fn new_unchecked(verts: Vec<Vec2>) -> (r: Self)
        ensures
            r.verts@ == verts@,
    {
        Polygon { verts }
    }

    pub fn verts(&self) -> (r: &Vec<Vec2>)
        ensures
            r@ == self.verts@,
    {
        &self.verts
    }

    pub fn verts_mut(&mut self) -> (r: &mut Vec<Vec2>)
        ensures
            *r == old(self).verts,
            final(self).verts == *final(r),
    {
        &mut self.verts
    }

    pub fn set_verts(&mut self, verts: Vec<Vec2>)
        ensures
            final(self).verts@ == verts@,
    {
        self.verts = verts;
    }
}

impl Validate for Polygon {
    open spec fn check(&self) -> Result<(), GeometryError> {
        polygon_check(self.verts@)
    }

    open spec fn in_range(&self) -> bool {
        points_bounded(self.verts@, LIMIT as int)
    }

    fn validate(&self) -> (r: Result<(), GeometryError>) {
        validate_vertices(&self.verts)
    }
}

impl ToHitBox for Polygon {
    open spec fn corners(&self) -> Seq<Vec2> {
        self.verts@
    }

    fn to_hitbox(&self) -> (r: HitBox) {
        bbox_of_points(&self.verts)
    }
}

pub open spec fn segment_check(pts: Seq<Vec2>) -> Result<(), GeometryError> {
    if pts[0] == pts[1] {
        Err(GeometryError::DuplicateVertices)
    } else {
        Ok(())
    }
}

impl ApplyGlobalPos for Segment {
    open spec fn vertex_list(&self) -> Seq<Vec2> {
        seq![self.a, self.b]
    }

    open spec fn check_vertices(pts: Seq<Vec2>) -> Result<(), GeometryError> {
        segment_check(pts)
    }

    fn apply_global_pos(&self, p: Vec2) -> (r: Result<Self, GeometryError>) {
        assert(self.vertex_list()[0] == self.a && self.vertex_list()[1] == self.b);
        let a = shifted(self.a, p);
        let b = shifted(self.b, p);
        assert(translate(self.vertex_list(), p) =~= seq![a, b]);
        let r = Segment::new(a, b);
        assert(r matches Ok(s) ==> s.vertex_list() =~= seq![a, b]);
        r
    }
}

impl ApplyGlobalPos for Triangle {
    open spec fn vertex_list(&self) -> Seq<Vec2> {
        seq![self.a, self.b, self.c]
    }

    open spec fn check_vertices(pts: Seq<Vec2>) -> Result<(), GeometryError> {
        triangle_check(pts[0], pts[1], pts[2])
    }

    fn apply_global_pos(&self, p: Vec2) -> (r: Result<Self, GeometryError>) {
        assert(self.vertex_list()[0] == self.a && self.vertex_list()[1] == self.b
            && self.vertex_list()[2] == self.c);
        let a = shifted(self.a, p);
        let b = shifted(self.b, p);
        let c = shifted(self.c, p);
        assert(translate(self.vertex_list(), p) =~= seq![a, b, c]);
        let r = Triangle::new(a, b, c);
        assert(r matches Ok(t) ==> t.vertex_list() =~= seq![a, b, c]);
        r
    }
}

impl ApplyGlobalPos for Quad {
    open spec fn vertex_list(&self) -> Seq<Vec2> {
        self.vertices()
    }

    open spec fn check_vertices(pts: Seq<Vec2>) -> Result<(), GeometryError> {
        polygon_check(pts)
    }

    fn apply_global_pos(&self, p: Vec2) -> (r: Result<Self, GeometryError>) {
        assert(self.vertex_list()[0] == self.a && self.vertex_list()[1] == self.b
            && self.vertex_list()[2] == self.c && self.vertex_list()[3] == self.d);
        let a = shifted(self.a, p);
        let b = shifted(self.b, p);
        let c = shifted(self.c, p);
        let d = shifted(self.d, p);
        assert(translate(self.vertex_list(), p) =~= seq![a, b, c, d]);
        let verts = vec![a, b, c, d];
        assert(verts@ =~= seq![a, b, c, d]);
        match validate_vertices(&verts) {
            Ok(()) => {
                let q = Quad { a, b, c, d };
                assert(q.vertex_list() =~= seq![a, b, c, d]);
                Ok(q)
            },
            Err(e) => Err(e),
        }
    }
}

impl ApplyGlobalPos for Polygon {
    open spec fn vertex_list(&self) -> Seq<Vec2> {
        self.verts@
    }

    open spec fn check_vertices(pts: Seq<Vec2>) -> Result<(), GeometryError> {
        polygon_check(pts)
    }

    fn apply_global_pos(&self, p: Vec2) -> (r: Result<Self, GeometryError>) {
        let mut verts: Vec<Vec2> = Vec::new();
        let mut k: usize = 0;
        while k < self.verts.len()
            invariant
                0 <= k <= self.verts.len(),
                points_bounded(self.verts@, LIMIT as int),
                p.bounded(LIMIT as int * 2),
                verts@ =~= translate(self.verts@, p).subrange(0, k as int),
                points_bounded(verts@, LIMIT as int * 3),
            decreases self.verts.len() - k,
        {
            let v = shifted(self.verts[k], p);
            verts.push(v);
            k = k + 1;
        }
        assert(verts@ =~= translate(self.verts@, p));
        Polygon::new(verts)
    }
}

/// A circle, by its radius; its local origin is the top-left corner of its box.
#[derive(Clone, Copy, Debug, PartialEq, Eq, Structural)]
pub struct Circle {
    pub radius: i64,
}

impl Circle {
    pub fn new(radius: i64) -> (r: Result<Self, MathError>)
        ensures
            radius <= 0 ==> r == Err::<Circle, MathError>(MathError::NonPositive(Quantity::Radius)),
            radius > 0 ==> r == Ok::<Circle, MathError>(Circle { radius }),
    {
        let circle = Circle { radius };
        match circle.validate() {
            Ok(()) => Ok(circle),
            Err(e) => Err(e),
        }
    }

    pub fn validate(&self) -> (r: Result<(), MathError>)
        ensures
            self.radius <= 0 ==> r == Err::<(), MathError>(MathError::NonPositive(Quantity::Radius)),
            self.radius > 0 ==> r is Ok,
    {
        if self.radius <= 0 {
            return Err(MathError::NonPositive(Quantity::Radius));
        }
        Ok(())
    }

    pub fn radius(&self) -> (r: i64)
        ensures
            r == self.radius,
    {
        self.radius
    }

    pub fn set_radius(&mut self, radius: i64)
        ensures
            final(self).radius == radius,
    {
        self.radius = radius;
    }

    /// The circle's box in local coordinates.
    pub fn to_hitbox(&self) -> (r: HitBox)
        requires
            0 <= self.radius <= LIMIT,
        ensures
            r == (HitBox { min_x: 0, min_y: 0, max_x: (2 * self.radius) as i64, max_y: (2 * self.radius) as i64 }),
    {
        HitBox { min_x: 0, min_y: 0, max_x: 2 * self.radius, max_y: 2 * self.radius }
    }
}

/// Most vertices a polygon shape may have.
pub const MAX_VERTS: usize = 16384;

/// A shape in local coordinates (relative to its entity's position).
#[derive(Clone, Debug)]
pub enum Shape {
    Segment(Segment),
    Triangle(Triangle),
    Rect(Rect),
    Polygon(Polygon),
}

impl Shape {
    /// The vertices (for a rectangle, its four corners), in local coordinates.
    pub open spec fn local_points(&self) -> Seq<Vec2> {
        match self {
            Shape::Segment(s) => s.corners(),
            Shape::Triangle(t) => t.corners(),
            Shape::Rect(r) => r.corners(),
            Shape::Polygon(p) => p.corners(),
        }
    }

    /// The outcome that validation gives.
    pub open spec fn check(&self) -> Result<(), EngineError> {
        match self {
            Shape::Segment(s) => match s.check() {
                Ok(()) => Ok(()),
                Err(e) => Err(EngineError::GeometryError(e)),
            },
            Shape::Triangle(t) => match t.check() {
                Ok(()) => Ok(()),
                Err(e) => Err(EngineError::GeometryError(e)),
            },
            Shape::Rect(r) => match rect_check(r.width, r.height) {
                Ok(()) => Ok(()),
                Err(e) => Err(EngineError::MathError(e)),
            },
            Shape::Polygon(p) => match p.check() {
                Ok(()) => Ok(()),
                Err(e) => Err(EngineError::GeometryError(e)),
            },
        }
    }

    /// Coordinates and vertex count within the bounds the solver's arithmetic needs.
    pub open spec fn in_range(&self) -> bool {
        &&& points_bounded(self.local_points(), LIMIT as int)
        &&& self.local_points().len() <= MAX_VERTS
    }

    /// A valid shape within range: what the solver accepts.
    pub open spec fn sound(&self) -> bool {
        self.in_range() && self.check() is Ok
    }

    pub fn validate(&self) -> (r: Result<(), EngineError>)
        requires
            self.in_range(),
        ensures
            r == self.check(),
    {
        match self {
            Shape::Segment(s) => match s.validate() {
                Ok(()) => Ok(()),
                Err(e) => Err(EngineError::GeometryError(e)),
            },
            Shape::Triangle(t) => match t.validate() {
                Ok(()) => Ok(()),
                Err(e) => Err(EngineError::GeometryError(e)),
            },
            Shape::Rect(r) => match r.validate() {
                Ok(()) => Ok(()),
                Err(e) => Err(EngineError::MathError(e)),
            },
            Shape::Polygon(p) => match p.validate() {
                Ok(()) => Ok(()),
                Err(e) => Err(EngineError::GeometryError(e)),
            },
        }
    }
}

impl Shape {
    /// The shape moved to a global position; fails as construction would.
    /// Rectangles are placed by their position alone and come back unchanged.
    pub fn apply_global_pos(&self, p: Vec2) -> (r: Result<Shape, GeometryError>)
        requires
            self.in_range(),
            p.bounded(LIMIT as int * 2),
        ensures
            match self {
                Shape::Segment(s) => match r {
                    Ok(Shape::Segment(t)) => t.vertex_list() == translate(s.vertex_list(), p)
                        && segment_check(t.vertex_list()) is Ok,
                    Ok(_) => false,
                    Err(e) => segment_check(translate(s.vertex_list(), p)) == Err::<(), GeometryError>(e),
                },
                Shape::Triangle(s) => match r {
                    Ok(Shape::Triangle(t)) => t.vertex_list() == translate(s.vertex_list(), p)
                        && Triangle::check_vertices(t.vertex_list()) is Ok,
                    Ok(_) => false,
                    Err(e) => Triangle::check_vertices(translate(s.vertex_list(), p)) == Err::<
                        (),
                        GeometryError,
                    >(e),
                },
                Shape::Rect(s) => r matches Ok(Shape::Rect(t)) && t == *s,
                Shape::Polygon(s) => match r {
                    Ok(Shape::Polygon(t)) => t.verts@ == translate(s.verts@, p) && polygon_check(
                        t.verts@,
                    ) is Ok,
                    Ok(_) => false,
                    Err(e) => polygon_check(translate(s.verts@, p)) == Err::<(), GeometryError>(e),
                },
            },
    {
        match self {
            Shape::Segment(s) => {
                assert(s.vertex_list() =~= self.local_points());
                match s.apply_global_pos(p) {
                    Ok(t) => Ok(Shape::Segment(t)),
                    Err(e) => Err(e),
                }
            },
            Shape::Triangle(s) => {
                assert(s.vertex_list() =~= self.local_points());
                match s.apply_global_pos(p) {
                    Ok(t) => Ok(Shape::Triangle(t)),
                    Err(e) => Err(e),
                }
            },
            Shape::Rect(s) => Ok(Shape::Rect(*s)),
            Shape::Polygon(s) => match s.apply_global_pos(p) {
                Ok(t) => Ok(Shape::Polygon(t)),
                Err(e) => Err(e),
            },
        }
    }
}

impl ToHitBox for Shape {
    open spec fn corners(&self) -> Seq<Vec2> {
        self.local_points()
    }

    fn to_hitbox(&self) -> (r: HitBox) {
        match self {
            Shape::Segment(s) => s.to_hitbox(),
            Shape::Triangle(t) => t.to_hitbox(),
            Shape::Rect(r) => r.to_hitbox(),
            Shape::Polygon(p) => p.to_hitbox(),
        }
    }
}

} // verus!

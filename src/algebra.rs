use vstd::prelude::*;

verus! {

/// Bound on the coordinates that components carry: positions, local vertices
/// and velocities all stay within `[-LIMIT, LIMIT]`.
pub const LIMIT: i64 = 131072;

/// Bound on the global coordinates handed to the geometry routines
/// (a position plus a local vertex plus a displacement).
pub const SPAN: i64 = 524288;

/// Bound under which products and sums of coordinates fit in `i128`.
pub const WIDE: i64 = 0x4000_0000_0000_0000;

pub open spec fn abs_spec(a: int) -> int {
    if a < 0 { -a } else { a }
}

pub open spec fn min_spec(a: int, b: int) -> int {
    if a <= b { a } else { b }
}

pub open spec fn max_spec(a: int, b: int) -> int {
    if a >= b { a } else { b }
}

pub open spec fn fits_i64(a: int) -> bool {
    i64::MIN <= a <= i64::MAX
}

/// `|a * b| <= ka * kb` whenever `|a| <= ka` and `|b| <= kb`.
pub proof fn lemma_mul_bound(a: int, b: int, ka: int, kb: int)
    requires
        -ka <= a <= ka,
        -kb <= b <= kb,
    ensures
        -(ka * kb) <= a * b <= ka * kb,
{
    assert(-(ka * kb) <= a * b <= ka * kb) by (nonlinear_arith)
        requires
            -ka <= a <= ka,
            -kb <= b <= kb,
    ;
}

/// A point or displacement on the plane, in integer fixed-point units
/// (the y axis points down, as on a screen).
#[derive(Clone, Copy, Debug, PartialEq, Eq, Structural)]
pub struct Vec2 {
    pub x: i64,
    pub y: i64,
}

/// One of the two coordinate axes.
#[derive(Clone, Copy, Debug, PartialEq, Eq, Structural)]
pub enum Axis {
    X,
    Y,
}

impl Vec2 {
    pub open spec fn bounded(self, b: int) -> bool {
        -b <= self.x <= b && -b <= self.y <= b
    }

    pub open spec fn add_spec(self, v: Vec2) -> (int, int) {
        (self.x + v.x, self.y + v.y)
    }

    pub open spec fn dot_spec(self, v: Vec2) -> int {
        self.x * v.x + self.y * v.y
    }

    pub open spec fn cross_spec(self, v: Vec2) -> int {
        self.x * v.y - self.y * v.x
    }

    /// Twice the signed area of the triangle `self, q, r`; negative when the
    /// three points turn counter-clockwise on screen.
    #[verifier::opaque]
    pub open spec fn signed_area_spec(self, q: Vec2, r: Vec2) -> int {
        (q.x - self.x) * (r.y - self.y) - (q.y - self.y) * (r.x - self.x)
    }

    pub open spec fn square_dist_spec(self, p: Vec2) -> int {
        (p.x - self.x) * (p.x - self.x) + (p.y - self.y) * (p.y - self.y)
    }

    pub open spec fn square_mag_spec(self) -> int {
        self.x * self.x + self.y * self.y
    }

    pub fn new(x: i64, y: i64) -> (r: Self)
        ensures
            r.x == x,
            r.y == y,
    {
        Vec2 { x, y }
    }

    pub fn zero() -> (r: Self)
        ensures
            r.x == 0,
            r.y == 0,
    {
        Vec2 { x: 0, y: 0 }
    }

    pub fn one() -> (r: Self)
        ensures
            r.x == 1,
            r.y == 1,
    {
        Vec2 { x: 1, y: 1 }
    }

    pub fn equal(self, v: Self) -> (r: bool)
        ensures
            r == (self == v),
    {
        self.x == v.x && self.y == v.y
    }

    pub fn add(self, v: Self) -> (r: Self)
        requires
            fits_i64(self.x + v.x),
            fits_i64(self.y + v.y),
        ensures
            r.x == self.x + v.x,
            r.y == self.y + v.y,
    {
        Vec2 { x: self.x + v.x, y: self.y + v.y }
    }

    pub fn add_mut(&mut self, v: Self)
        requires
            fits_i64(old(self).x + v.x),
            fits_i64(old(self).y + v.y),
        ensures
            final(self).x == old(self).x + v.x,
            final(self).y == old(self).y + v.y,
    {
        self.x = self.x + v.x;
        self.y = self.y + v.y;
    }

    pub fn add_scalar(self, x: i64, y: i64) -> (r: Self)
        requires
            fits_i64(self.x + x),
            fits_i64(self.y + y),
        ensures
            r.x == self.x + x,
            r.y == self.y + y,
    {
        Vec2 { x: self.x + x, y: self.y + y }
    }

    pub fn add_scalar_mut(&mut self, x: i64, y: i64)
        requires
            fits_i64(old(self).x + x),
            fits_i64(old(self).y + y),
        ensures
            final(self).x == old(self).x + x,
            final(self).y == old(self).y + y,
    {
        self.x = self.x + x;
        self.y = self.y + y;
    }

    pub fn sub(self, v: Self) -> (r: Self)
        requires
            fits_i64(self.x - v.x),
            fits_i64(self.y - v.y),
        ensures
            r.x == self.x - v.x,
            r.y == self.y - v.y,
    {
        Vec2 { x: self.x - v.x, y: self.y - v.y }
    }

    pub fn sub_mut(&mut self, v: Self)
        requires
            fits_i64(old(self).x - v.x),
            fits_i64(old(self).y - v.y),
        ensures
            final(self).x == old(self).x - v.x,
            final(self).y == old(self).y - v.y,
    {
        self.x = self.x - v.x;
        self.y = self.y - v.y;
    }

    pub fn sub_scalar(self, x: i64, y: i64) -> (r: Self)
        requires
            fits_i64(self.x - x),
            fits_i64(self.y - y),
        ensures
            r.x == self.x - x,
            r.y == self.y - y,
    {
        Vec2 { x: self.x - x, y: self.y - y }
    }

    pub fn sub_scalar_mut(&mut self, x: i64, y: i64)
        requires
            fits_i64(old(self).x - x),
            fits_i64(old(self).y - y),
        ensures
            final(self).x == old(self).x - x,
            final(self).y == old(self).y - y,
    {
        self.x = self.x - x;
        self.y = self.y - y;
    }

    /// Component-wise product.
    pub fn mul(self, v: Self) -> (r: Self)
        requires
            fits_i64(self.x * v.x),
            fits_i64(self.y * v.y),
        ensures
            r.x == self.x * v.x,
            r.y == self.y * v.y,
    {
        Vec2 { x: self.x * v.x, y: self.y * v.y }
    }

    pub fn mul_mut(&mut self, v: Self)
        requires
            fits_i64(old(self).x * v.x),
            fits_i64(old(self).y * v.y),
        ensures
            final(self).x == old(self).x * v.x,
            final(self).y == old(self).y * v.y,
    {
        self.x = self.x * v.x;
        self.y = self.y * v.y;
    }

    pub fn scale(self, k: i64) -> (r: Self)
        requires
            fits_i64(self.x * k),
            fits_i64(self.y * k),
        ensures
            r.x == self.x * k,
            r.y == self.y * k,
    {
        Vec2 { x: self.x * k, y: self.y * k }
    }

    pub fn scale_mut(&mut self, k: i64)
        requires
            fits_i64(old(self).x * k),
            fits_i64(old(self).y * k),
        ensures
            final(self).x == old(self).x * k,
            final(self).y == old(self).y * k,
    {
        self.x = self.x * k;
        self.y = self.y * k;
    }

    pub fn neg(self) -> (r: Self)
        requires
            self.x != i64::MIN,
            self.y != i64::MIN,
        ensures
            r.x == -self.x,
            r.y == -self.y,
    {
        Vec2 { x: -self.x, y: -self.y }
    }

    pub fn neg_mut(&mut self)
        requires
            old(self).x != i64::MIN,
            old(self).y != i64::MIN,
        ensures
            final(self).x == -old(self).x,
            final(self).y == -old(self).y,
    {
        self.x = -self.x;
        self.y = -self.y;
    }

    pub fn abs(self) -> (r: Self)
        requires
            self.x != i64::MIN,
            self.y != i64::MIN,
        ensures
            r.x == abs_spec(self.x as int),
            r.y == abs_spec(self.y as int),
    {
        Vec2 {
            x: if self.x < 0 { -self.x } else { self.x },
            y: if self.y < 0 { -self.y } else { self.y },
        }
    }

    pub fn abs_mut(&mut self)
        requires
            old(self).x != i64::MIN,
            old(self).y != i64::MIN,
        ensures
            final(self).x == abs_spec(old(self).x as int),
            final(self).y == abs_spec(old(self).y as int),
    {
        *self = self.abs();
    }

    /// The vector turned a quarter clockwise on screen.
    pub fn perp_cw(self) -> (r: Self)
        requires
            self.x != i64::MIN,
        ensures
            r.x == self.y,
            r.y == -self.x,
    {
        Vec2 { x: self.y, y: -self.x }
    }

    pub fn perp_cw_mut(&mut self)
        requires
            old(self).x != i64::MIN,
        ensures
            final(self).x == old(self).y,
            final(self).y == -old(self).x,
    {
        let x = self.x;
        self.x = self.y;
        self.y = -x;
    }

    /// The vector turned a quarter counter-clockwise on screen.
    pub fn perp_ccw(self) -> (r: Self)
        requires
            self.y != i64::MIN,
        ensures
            r.x == -self.y,
            r.y == self.x,
    {
        Vec2 { x: -self.y, y: self.x }
    }

    pub fn perp_ccw_mut(&mut self)
        requires
            old(self).y != i64::MIN,
        ensures
            final(self).x == -old(self).y,
            final(self).y == old(self).x,
    {
        let x = self.x;
        self.x = -self.y;
        self.y = x;
    }

    pub fn dot(self, v: Self) -> (r: i128)
        requires
            self.bounded(WIDE as int),
            v.bounded(WIDE as int),
        ensures
            r == self.dot_spec(v),
    {
        proof {
            lemma_mul_bound(self.x as int, v.x as int, WIDE as int, WIDE as int);
            lemma_mul_bound(self.y as int, v.y as int, WIDE as int, WIDE as int);
        }
        (self.x as i128) * (v.x as i128) + (self.y as i128) * (v.y as i128)
    }

    pub fn cross(self, v: Self) -> (r: i128)
        requires
            self.bounded(WIDE as int),
            v.bounded(WIDE as int),
        ensures
            r == self.cross_spec(v),
    {
        proof {
            lemma_mul_bound(self.x as int, v.y as int, WIDE as int, WIDE as int);
            lemma_mul_bound(self.y as int, v.x as int, WIDE as int, WIDE as int);
        }
        (self.x as i128) * (v.y as i128) - (self.y as i128) * (v.x as i128)
    }

    /// Twice the signed area of the triangle `self, q, r`.
    pub fn signed_area(self, q: Self, r: Self) -> (a: i128)
        requires
            self.bounded(LIMIT * 16),
            q.bounded(LIMIT * 16),
            r.bounded(LIMIT * 16),
        ensures
            a == self.signed_area_spec(q, r),
    {
        reveal(Vec2::signed_area_spec);
        let ux = q.x as i128 - self.x as i128;
        let uy = q.y as i128 - self.y as i128;
        let wx = r.x as i128 - self.x as i128;
        let wy = r.y as i128 - self.y as i128;
        proof {
            lemma_mul_bound(ux as int, wy as int, LIMIT * 32, LIMIT * 32);
            lemma_mul_bound(uy as int, wx as int, LIMIT * 32, LIMIT * 32);
        }
        ux * wy - uy * wx
    }

    /// The displacement from `self` to `p`.
    pub fn vec_dist(self, p: Self) -> (r: Self)
        requires
            fits_i64(p.x - self.x),
            fits_i64(p.y - self.y),
        ensures
            r.x == p.x - self.x,
            r.y == p.y - self.y,
    {
        Vec2 { x: p.x - self.x, y: p.y - self.y }
    }

    pub fn square_dist(self, p: Self) -> (r: i128)
        requires
            self.bounded(LIMIT * 16),
            p.bounded(LIMIT * 16),
        ensures
            r == self.square_dist_spec(p),
            r >= 0,
    {
        let dx = p.x as i128 - self.x as i128;
        let dy = p.y as i128 - self.y as i128;
        proof {
            lemma_mul_bound(dx as int, dx as int, LIMIT * 32, LIMIT * 32);
            lemma_mul_bound(dy as int, dy as int, LIMIT * 32, LIMIT * 32);
            assert(dx * dx >= 0) by (nonlinear_arith);
            assert(dy * dy >= 0) by (nonlinear_arith);
        }
        dx * dx + dy * dy
    }

    pub fn square_mag(self) -> (r: i128)
        requires
            self.bounded(WIDE as int),
        ensures
            r == self.square_mag_spec(),
            r >= 0,
    {
        proof {
            lemma_mul_bound(self.x as int, self.x as int, WIDE as int, WIDE as int);
            lemma_mul_bound(self.y as int, self.y as int, WIDE as int, WIDE as int);
            assert(self.x * self.x >= 0) by (nonlinear_arith);
            assert(self.y * self.y >= 0) by (nonlinear_arith);
        }
        (self.x as i128) * (self.x as i128) + (self.y as i128) * (self.y as i128)
    }
}

} // verus!

use vstd::prelude::*;

use crate::algebra::{min_spec, Vec2, LIMIT, SPAN};
use crate::components::{Surface, Translation};
use crate::numeric::{clamp, clamp_exec, isqrt, isqrt_spec, quot, quot_exec};

verus! {

/// A resting body's vertical speed at or under this is snapped to zero.
pub const REST_SNAP: i64 = 10;

/// The normal is within about 11.5 degrees of vertical (its horizontal part is
/// at most a fifth of its length).
pub open spec fn flat(n: Vec2) -> bool {
    24 * (n.x * n.x) <= n.y * n.y
}

pub open spec fn sq(n: Vec2) -> int {
    n.x * n.x + n.y * n.y
}

/// The vertical speed of a resting body snapped to zero when small.
pub open spec fn snap_y(v: Vec2, rest: bool) -> Vec2 {
    if rest && -REST_SNAP <= v.y <= REST_SNAP {
        Vec2 { x: v.x, y: 0 }
    } else {
        v
    }
}

/// Velocity `v` after the normal impulse `quot(k * vn * n, den)`, kept within
/// the velocity bound and snapped if resting.
pub open spec fn after_impulse(v: Vec2, k: int, vn: int, n: Vec2, den: int, rest: bool) -> Vec2 {
    snap_y(
        Vec2 {
            x: clamp(v.x + quot(k * vn * n.x, den), LIMIT as int) as i64,
            y: clamp(v.y + quot(k * vn * n.y, den), LIMIT as int) as i64,
        },
        rest,
    )
}

/// The velocity change `quot(k * vn * n, den)` a normal impulse gives, before
/// it is kept within bounds or snapped.
pub open spec fn impulse(k: int, vn: int, n: Vec2, den: int) -> (int, int) {
    (quot(k * vn * n.x, den), quot(k * vn * n.y, den))
}

/// The part of the relative velocity `(rx, ry)` across the normal `n`.
pub open spec fn tangent_of(rx: int, ry: int, n: Vec2) -> (int, int) {
    let w = rx * n.x + ry * n.y;
    (rx - quot(w * n.x, sq(n)), ry - quot(w * n.y, sq(n)))
}

/// `v` moved by `(dx, dy)`, kept within the velocity bound.
pub open spec fn nudge(v: Vec2, dx: int, dy: int) -> Vec2 {
    Vec2 { x: clamp(v.x + dx, LIMIT as int) as i64, y: clamp(v.y + dy, LIMIT as int) as i64 }
}

/// Friction against a static body: `d1` is the velocity change the normal
/// impulse gave it and `v1n` its velocity after; returns the final velocity.
pub open spec fn friction_static(d1: (int, int), v1n: Vec2, s1: Surface, s2: Surface, n: Vec2) -> Vec2 {
    let (tx, ty) = tangent_of(-v1n.x, -v1n.y, n);
    if tx == 0 && ty == 0 {
        v1n
    } else {
        let ax = d1.0;
        let ay = d1.1;
        let a2 = ax * ax + ay * ay;
        let t2 = tx * tx + ty * ty;
        if t2 * 1_000_000 <= s1.static_friction * s2.static_friction * a2 {
            nudge(v1n, tx, ty)
        } else {
            let g = isqrt_spec(s1.kinetic_friction * s2.kinetic_friction);
            let am = isqrt_spec(a2);
            let tm = isqrt_spec(t2);
            nudge(v1n, quot(g * am * tx, 1000 * tm), quot(g * am * ty, 1000 * tm))
        }
    }
}

/// Friction between two dynamic bodies of masses `m1`, `m2`: `d1` is the
/// velocity change the normal impulse gave the first, `v1n`, `v2n` the
/// velocities after it.
pub open spec fn friction_pair(
    d1: (int, int),
    v1n: Vec2,
    v2n: Vec2,
    m1: int,
    m2: int,
    s1: Surface,
    s2: Surface,
    n: Vec2,
) -> (Vec2, Vec2) {
    let (tx, ty) = tangent_of(v2n.x - v1n.x, v2n.y - v1n.y, n);
    if tx == 0 && ty == 0 {
        (v1n, v2n)
    } else {
        let ax = d1.0;
        let ay = d1.1;
        let a2 = ax * ax + ay * ay;
        let t2 = tx * tx + ty * ty;
        if t2 * (m2 * m2) * 1_000_000 <= s1.static_friction * s2.static_friction * a2 * ((m1 + m2)
            * (m1 + m2)) {
            (
                nudge(v1n, quot(tx * m2, m1 + m2), quot(ty * m2, m1 + m2)),
                nudge(v2n, -quot(tx * m1, m1 + m2), -quot(ty * m1, m1 + m2)),
            )
        } else {
            let g = isqrt_spec(s1.kinetic_friction * s2.kinetic_friction);
            let am = isqrt_spec(a2);
            let tm = isqrt_spec(t2);
            (
                nudge(v1n, quot(g * am * tx, 1000 * tm), quot(g * am * ty, 1000 * tm)),
                nudge(
                    v2n,
                    -quot(g * am * m1 * tx, 1000 * tm * m2),
                    -quot(g * am * m1 * ty, 1000 * tm * m2),
                ),
            )
        }
    }
}

/// What one contact does to the motion states of the two bodies: `t1` is the
/// dynamic body, `t2` the other one (`None` when static), `n` the contact
/// normal pointing from the first toward the second.
pub open spec fn react_spec(
    t1: Translation,
    t2: Option<Translation>,
    s1: Surface,
    s2: Surface,
    n: Vec2,
) -> (Translation, Option<Translation>) {
    let r1 = t1.rest || (flat(n) && n.y > 0);
    let v1 = t1.lin_vel;
    let v2 = match t2 {
        Some(t) => t.lin_vel,
        None => Vec2 { x: 0, y: 0 },
    };
    let vn = (v2.x - v1.x) * n.x + (v2.y - v1.y) * n.y;
    let e = min_spec(s1.elast as int, s2.elast as int);
    match t2 {
        None => {
            if vn >= 0 {
                (Translation { rest: r1, ..t1 }, None)
            } else {
                let v1n = after_impulse(v1, 1000 + e, vn, n, 1000 * sq(n), r1);
                let v1f = friction_static(impulse(1000 + e, vn, n, 1000 * sq(n)), v1n, s1, s2, n);
                (Translation { lin_vel: v1f, rest: r1, ..t1 }, None)
            }
        },
        Some(t) => {
            let r2 = t.rest || (flat(n) && n.y < 0);
            if vn >= 0 {
                (Translation { rest: r1, ..t1 }, Some(Translation { rest: r2, ..t }))
            } else {
                let m1 = t1.mass as int;
                let m2 = t.mass as int;
                let den = 1000 * sq(n) * (m1 + m2);
                let v1n = after_impulse(v1, (1000 + e) * m2, vn, n, den, r1);
                let v2n = after_impulse(v2, -((1000 + e) * m1), vn, n, den, r2);
                let (v1f, v2f) = friction_pair(
                    impulse((1000 + e) * m2, vn, n, den),
                    v1n,
                    v2n,
                    m1,
                    m2,
                    s1,
                    s2,
                    n,
                );
                (
                    Translation { lin_vel: v1f, rest: r1, ..t1 },
                    Some(Translation { lin_vel: v2f, rest: r2, ..t }),
                )
            }
        },
    }
}

/// A contact normal the reaction accepts: non-zero and within the bound of
/// the separating-axis test's axes.
pub open spec fn normal_ok(n: Vec2) -> bool {
    n.bounded(SPAN as int * 2) && !(n.x == 0 && n.y == 0)
}

proof fn lemma_sq_bounds(n: Vec2)
    requires
        normal_ok(n),
    ensures
        1 <= sq(n) <= 0x200_0000_0000,
        0 <= n.x * n.x <= 0x100_0000_0000,
        0 <= n.y * n.y <= 0x100_0000_0000,
{
    assert(0 <= n.x * n.x <= 0x100_0000_0000) by (nonlinear_arith)
        requires
            -0x100000 <= n.x <= 0x100000,
    ;
    assert(0 <= n.y * n.y <= 0x100_0000_0000) by (nonlinear_arith)
        requires
            -0x100000 <= n.y <= 0x100000,
    ;
    if n.x != 0 {
        assert(n.x * n.x >= 1) by (nonlinear_arith)
            requires
                n.x != 0,
        ;
    } else {
        assert(n.y * n.y >= 1) by (nonlinear_arith)
            requires
                n.y != 0,
        ;
    }
}

/// `|(r . n) * n_x| <= 2 R |n|^2` when both parts of `r` are within `R`.
proof fn lemma_proj_scaled(rx: int, ry: int, nx: int, ny: int, big_r: int)
    requires
        -big_r <= rx <= big_r,
        -big_r <= ry <= big_r,
    ensures
        -(2 * big_r * (nx * nx + ny * ny)) <= (rx * nx + ry * ny) * nx <= 2 * big_r * (nx * nx + ny
            * ny),
{
    let ax = if nx < 0 { -nx } else { nx };
    let ay = if ny < 0 { -ny } else { ny };
    assert(ax * ax == nx * nx && ay * ay == ny * ny) by (nonlinear_arith)
        requires
            ax == nx || ax == -nx,
            ay == ny || ay == -ny,
    ;
    assert(-(big_r * (ax + ay)) <= rx * nx + ry * ny <= big_r * (ax + ay)) by (nonlinear_arith)
        requires
            -big_r <= rx <= big_r,
            -big_r <= ry <= big_r,
            ax == nx || ax == -nx,
            ay == ny || ay == -ny,
            ax >= 0,
            ay >= 0,
    ;
    assert(ax * ay <= ax * ax + ay * ay) by (nonlinear_arith)
        requires
            ax >= 0,
            ay >= 0,
    ;
    assert(-(2 * big_r * (ax * ax + ay * ay)) <= (rx * nx + ry * ny) * nx <= 2 * big_r * (ax * ax
        + ay * ay)) by (nonlinear_arith)
        requires
            -(big_r * (ax + ay)) <= rx * nx + ry * ny <= big_r * (ax + ay),
            ax * ay <= ax * ax + ay * ay,
            ax == nx || ax == -nx,
            ax >= 0,
            ay >= 0,
            big_r >= 0,
    ;
}

/// A normal impulse changes a velocity by at most `0x400_0000` per component:
/// `|k * vn * n_i| <= 0x400_0000 * (1000 * |n|^2 * c)` when `k <= 67000 * c`.
proof fn lemma_impulse_bound(k: int, vn: int, nx: int, ny: int, rx: int, ry: int, c: int)
    requires
        0 <= k <= 67000 * c,
        c >= 1,
        -LIMIT * 2 <= rx <= LIMIT * 2,
        -LIMIT * 2 <= ry <= LIMIT * 2,
        vn == rx * nx + ry * ny,
        nx * nx + ny * ny >= 1,
    ensures
        -(0x400_0000 * (1000 * (nx * nx + ny * ny) * c)) <= k * vn * nx <= 0x400_0000 * (1000 * (nx
            * nx + ny * ny) * c),
        -(0x400_0000 * (1000 * (nx * nx + ny * ny) * c)) <= k * vn * ny <= 0x400_0000 * (1000 * (nx
            * nx + ny * ny) * c),
{
    let nn = nx * nx + ny * ny;
    lemma_proj_scaled(rx, ry, nx, ny, LIMIT * 2);
    lemma_proj_scaled(ry, rx, ny, nx, LIMIT * 2);
    assert(ry * ny + rx * nx == vn);
    assert(ny * ny + nx * nx == nn);
    let px = vn * nx;
    let py = vn * ny;
    assert(-(0x80000 * nn) <= px <= 0x80000 * nn);
    assert(-(0x80000 * nn) <= py <= 0x80000 * nn);
    assert(-(0x400_0000 * (1000 * nn * c)) <= k * px <= 0x400_0000 * (1000 * nn * c)) by (nonlinear_arith)
        requires
            0 <= k <= 67000 * c,
            c >= 1,
            nn >= 1,
            -(0x80000 * nn) <= px <= 0x80000 * nn,
    ;
    assert(-(0x400_0000 * (1000 * nn * c)) <= k * py <= 0x400_0000 * (1000 * nn * c)) by (nonlinear_arith)
        requires
            0 <= k <= 67000 * c,
            c >= 1,
            nn >= 1,
            -(0x80000 * nn) <= py <= 0x80000 * nn,
    ;
    assert(k * vn * nx == k * px) by (nonlinear_arith)
        requires
            px == vn * nx,
    ;
    assert(k * vn * ny == k * py) by (nonlinear_arith)
        requires
            py == vn * ny,
    ;
}

/// The tangential part of the relative velocity `(rx, ry)`.
fn tangent_exec(rx: i64, ry: i64, n: Vec2) -> (r: (i128, i128))
    requires
        -LIMIT * 2 <= rx <= LIMIT * 2,
        -LIMIT * 2 <= ry <= LIMIT * 2,
        normal_ok(n),
    ensures
        (r.0 as int, r.1 as int) == tangent_of(rx as int, ry as int, n),
        -LIMIT * 6 <= r.0 <= LIMIT * 6,
        -LIMIT * 6 <= r.1 <= LIMIT * 6,
{
    proof {
        lemma_sq_bounds(n);
        crate::algebra::lemma_mul_bound(rx as int, n.x as int, LIMIT * 2, SPAN as int * 2);
        crate::algebra::lemma_mul_bound(ry as int, n.y as int, LIMIT * 2, SPAN as int * 2);
    }
    let nn = (n.x as i128) * (n.x as i128) + (n.y as i128) * (n.y as i128);
    let w = (rx as i128) * (n.x as i128) + (ry as i128) * (n.y as i128);
    proof {
        crate::algebra::lemma_mul_bound(w as int, n.x as int, 0x80_0000_0000, SPAN as int * 2);
        crate::algebra::lemma_mul_bound(w as int, n.y as int, 0x80_0000_0000, SPAN as int * 2);
        lemma_proj_scaled(rx as int, ry as int, n.x as int, n.y as int, LIMIT * 2);
        lemma_proj_scaled(ry as int, rx as int, n.y as int, n.x as int, LIMIT * 2);
        assert(ry * n.y + rx * n.x == w);
        assert(n.y * n.y + n.x * n.x == nn);
    }
    let qx = quot_exec(w * (n.x as i128), nn);
    let qy = quot_exec(w * (n.y as i128), nn);
    proof {
        quot_bound(w * n.x, nn as int, LIMIT * 4);
        quot_bound(w * n.y, nn as int, LIMIT * 4);
    }
    (rx as i128 - qx, ry as i128 - qy)
}

/// `|quot(a, b)| <= k` when `|a| <= k * b`.
proof fn quot_bound(a: int, b: int, k: int)
    requires
        b > 0,
        k >= 0,
        -(k * b) <= a <= k * b,
    ensures
        -k <= quot(a, b) <= k,
{
    if a >= 0 {
        assert(a / b <= k) by (nonlinear_arith)
            requires
                0 <= a <= k * b,
                b > 0,
        ;
    } else {
        assert((-a) / b <= k) by (nonlinear_arith)
            requires
                0 < -a <= k * b,
                b > 0,
        ;
    }
}

/// The velocity after the normal impulse.
fn after_impulse_exec(v: Vec2, k: i128, vn: i128, n: Vec2, den: i128, rest: bool) -> (r: (Vec2, i128, i128))
    requires
        v.bounded(LIMIT as int),
        -0x1_0000_0000_0000 <= k <= 0x1_0000_0000_0000,
        -0x100_0000_0000 <= vn <= 0x100_0000_0000,
        n.bounded(SPAN as int * 2),
        den >= 1,
        -(0x400_0000 * den) <= k * vn * n.x <= 0x400_0000 * den,
        -(0x400_0000 * den) <= k * vn * n.y <= 0x400_0000 * den,
    ensures
        r.0 == after_impulse(v, k as int, vn as int, n, den as int, rest),
        r.0.bounded(LIMIT as int),
        (r.1 as int, r.2 as int) == impulse(k as int, vn as int, n, den as int),
        -0x400_0000 <= r.1 <= 0x400_0000,
        -0x400_0000 <= r.2 <= 0x400_0000,
{
    proof {
        crate::algebra::lemma_mul_bound(k as int, vn as int, 0x1_0000_0000_0000, 0x100_0000_0000);
        crate::algebra::lemma_mul_bound(k as int * vn as int, n.x as int, 0x100_0000_0000_0000_0000_0000, SPAN as int * 2);
        crate::algebra::lemma_mul_bound(k as int * vn as int, n.y as int, 0x100_0000_0000_0000_0000_0000, SPAN as int * 2);
    }
    let dx = quot_exec(k * vn * (n.x as i128), den);
    let dy = quot_exec(k * vn * (n.y as i128), den);
    proof {
        quot_bound(k * vn * n.x, den as int, 0x400_0000);
        quot_bound(k * vn * n.y, den as int, 0x400_0000);
    }
    let x = clamp_exec(v.x as i128 + dx, LIMIT);
    let y = clamp_exec(v.y as i128 + dy, LIMIT);
    if rest && -REST_SNAP <= y && y <= REST_SNAP {
        (Vec2 { x, y: 0 }, dx, dy)
    } else {
        (Vec2 { x, y }, dx, dy)
    }
}

proof fn product_u16(a: u16, b: u16)
    ensures
        0 <= a * b <= 0x1_0000_0000,
        a * b <= 0x10000 * 0x10000,
{
    assert(0 <= a * b <= 0x1_0000_0000) by (nonlinear_arith)
        requires
            0 <= a <= 0xffff,
            0 <= b <= 0xffff,
    ;
}

/// `v` moved by `(dx, dy)`, kept within the velocity bound.
fn nudge_exec(v: Vec2, dx: i128, dy: i128) -> (r: Vec2)
    requires
        v.bounded(LIMIT as int),
        -0x1_0000_0000_0000_0000_0000_0000 <= dx <= 0x1_0000_0000_0000_0000_0000_0000,
        -0x1_0000_0000_0000_0000_0000_0000 <= dy <= 0x1_0000_0000_0000_0000_0000_0000,
    ensures
        r == nudge(v, dx as int, dy as int),
        r.bounded(LIMIT as int),
{
    Vec2 { x: clamp_exec(v.x as i128 + dx, LIMIT), y: clamp_exec(v.y as i128 + dy, LIMIT) }
}

/// The integer square root of `n`, with the bound it implies.
fn isqrt_within(n: i128, b: i128) -> (r: i128)
    requires
        0 <= n <= b * b,
        0 <= b <= 0x1_0000_0000,
    ensures
        r == isqrt_spec(n as int),
        0 <= r <= b,
        n >= 1 ==> r >= 1,
{
    assert(b * b <= 0x1_0000_0000_0000_0000) by (nonlinear_arith)
        requires
            0 <= b <= 0x1_0000_0000,
    ;
    let r = isqrt(n as u128);
    assert(r <= b) by (nonlinear_arith)
        requires
            r * r <= n,
            n <= b * b,
            b >= 0,
    ;
    if n >= 1 {
        assert(r >= 1) by (nonlinear_arith)
            requires
                n < (r + 1) * (r + 1),
                n >= 1,
                r >= 0,
        ;
    }
    r as i128
}

/// Squared length of `(x, y)`.
fn sq_exec(x: i128, y: i128, b: i128) -> (r: i128)
    requires
        -b <= x <= b,
        -b <= y <= b,
        0 <= b <= 0x1_0000_0000_0000,
    ensures
        r == x * x + y * y,
        0 <= r <= 2 * (b * b),
{
    assert(0 <= x * x <= b * b) by (nonlinear_arith)
        requires
            -b <= x <= b,
    ;
    assert(0 <= y * y <= b * b) by (nonlinear_arith)
        requires
            -b <= y <= b,
    ;
    assert(b * b <= 0x1_0000_0000_0000_0000_0000_0000) by (nonlinear_arith)
        requires
            0 <= b <= 0x1_0000_0000_0000,
    ;
    x * x + y * y
}

/// Friction of a dynamic body against a static one.
fn friction_static_exec(dx: i128, dy: i128, v1n: Vec2, s1: Surface, s2: Surface, n: Vec2) -> (r: Vec2)
    requires
        -0x400_0000 <= dx <= 0x400_0000,
        -0x400_0000 <= dy <= 0x400_0000,
        v1n.bounded(LIMIT as int),
        normal_ok(n),
    ensures
        r == friction_static((dx as int, dy as int), v1n, s1, s2, n),
        r.bounded(LIMIT as int),
{
    let (tx, ty) = tangent_exec(-v1n.x, -v1n.y, n);
    if tx == 0 && ty == 0 {
        return v1n;
    }
    let a2 = sq_exec(dx, dy, 0x400_0000);
    let t2 = sq_exec(tx, ty, 0x100000);
    assert(t2 >= 1) by (nonlinear_arith)
        requires
            t2 == tx * tx + ty * ty,
            !(tx == 0 && ty == 0),
    ;
    proof { product_u16(s1.static_friction, s2.static_friction); }
    let sf = s1.static_friction as i128 * s2.static_friction as i128;
    assert(0 <= sf * a2 <= 0x1_0000_0000 * 0x20_0000_0000_0000) by (nonlinear_arith)
        requires
            0 <= sf <= 0x1_0000_0000,
            0 <= a2 <= 0x20_0000_0000_0000,
    ;
    if t2 * 1_000_000 <= sf * a2 {
        return nudge_exec(v1n, tx, ty);
    }
    proof { product_u16(s1.kinetic_friction, s2.kinetic_friction); }
    let kf = s1.kinetic_friction as i128 * s2.kinetic_friction as i128;
    let g = isqrt_within(kf, 0x10000);
    let am = isqrt_within(a2, 0x800_0000);
    let tm = isqrt_within(t2, 0x200000);
    assert(0 <= g * am <= 0x10000 * 0x800_0000) by (nonlinear_arith)
        requires
            0 <= g <= 0x10000,
            0 <= am <= 0x800_0000,
    ;
    proof { crate::algebra::lemma_mul_bound((g * am) as int, (tx) as int, 0x800_0000_0000, 0x100000); }
    proof { crate::algebra::lemma_mul_bound((g * am) as int, (ty) as int, 0x800_0000_0000, 0x100000); }
    let dx = quot_exec(g * am * tx, 1000 * tm);
    let dy = quot_exec(g * am * ty, 1000 * tm);
    nudge_exec(v1n, dx, dy)
}

/// Friction between two dynamic bodies.
fn friction_pair_exec(
    dx: i128,
    dy: i128,
    v1n: Vec2,
    v2n: Vec2,
    m1: u16,
    m2: u16,
    s1: Surface,
    s2: Surface,
    n: Vec2,
) -> (r: (Vec2, Vec2))
    requires
        -0x400_0000 <= dx <= 0x400_0000,
        -0x400_0000 <= dy <= 0x400_0000,
        v1n.bounded(LIMIT as int),
        v2n.bounded(LIMIT as int),
        m1 > 0,
        m2 > 0,
        normal_ok(n),
    ensures
        r == friction_pair((dx as int, dy as int), v1n, v2n, m1 as int, m2 as int, s1, s2, n),
        r.0.bounded(LIMIT as int),
        r.1.bounded(LIMIT as int),
{
    let (tx, ty) = tangent_exec(v2n.x - v1n.x, v2n.y - v1n.y, n);
    if tx == 0 && ty == 0 {
        return (v1n, v2n);
    }
    let a2 = sq_exec(dx, dy, 0x400_0000);
    let t2 = sq_exec(tx, ty, 0x100000);
    assert(t2 >= 1) by (nonlinear_arith)
        requires
            t2 == tx * tx + ty * ty,
            !(tx == 0 && ty == 0),
    ;
    let m1 = m1 as i128;
    let m2 = m2 as i128;
    let ms = m1 + m2;
    proof { product_u16(s1.static_friction, s2.static_friction); }
    let sf = s1.static_friction as i128 * s2.static_friction as i128;
    assert(0 < m2 * m2 <= 0x1_0000_0000) by (nonlinear_arith)
        requires
            0 < m2 <= 0xffff,
    ;
    assert(0 <= t2 * (m2 * m2) <= 0x400_0000_0000 * 0x1_0000_0000) by (nonlinear_arith)
        requires
            0 <= t2 <= 0x400_0000_0000,
            0 < m2 * m2 <= 0x1_0000_0000,
    ;
    assert(0 < ms * ms <= 0x4_0000_0000) by (nonlinear_arith)
        requires
            0 < ms <= 0x20000,
    ;
    assert(0 <= sf * a2 <= 0x1_0000_0000 * 0x20_0000_0000_0000) by (nonlinear_arith)
        requires
            0 <= sf <= 0x1_0000_0000,
            0 <= a2 <= 0x20_0000_0000_0000,
    ;
    assert(0 <= sf * a2 * (ms * ms) <= 0x1_0000_0000 * 0x20_0000_0000_0000 * 0x4_0000_0000) by (nonlinear_arith)
        requires
            0 <= sf * a2 <= 0x1_0000_0000 * 0x20_0000_0000_0000,
            0 < ms * ms <= 0x4_0000_0000,
    ;
    if t2 * (m2 * m2) * 1_000_000 <= sf * a2 * (ms * ms) {
        proof { crate::algebra::lemma_mul_bound((tx) as int, (m2) as int, 0x100000, 0x10000); }
        proof { crate::algebra::lemma_mul_bound((ty) as int, (m2) as int, 0x100000, 0x10000); }
        proof { crate::algebra::lemma_mul_bound((tx) as int, (m1) as int, 0x100000, 0x10000); }
        proof { crate::algebra::lemma_mul_bound((ty) as int, (m1) as int, 0x100000, 0x10000); }
        let d1x = quot_exec(tx * m2, ms);
        let d1y = quot_exec(ty * m2, ms);
        let d2x = quot_exec(tx * m1, ms);
        let d2y = quot_exec(ty * m1, ms);
        return (nudge_exec(v1n, d1x, d1y), nudge_exec(v2n, -d2x, -d2y));
    }
    proof { product_u16(s1.kinetic_friction, s2.kinetic_friction); }
    let kf = s1.kinetic_friction as i128 * s2.kinetic_friction as i128;
    let g = isqrt_within(kf, 0x10000);
    let am = isqrt_within(a2, 0x800_0000);
    let tm = isqrt_within(t2, 0x200000);
    assert(0 <= g * am <= 0x10000 * 0x800_0000) by (nonlinear_arith)
        requires
            0 <= g <= 0x10000,
            0 <= am <= 0x800_0000,
    ;
    assert(0 <= g * am * m1 <= 0x800_0000_0000 * 0x10000) by (nonlinear_arith)
        requires
            0 <= g * am <= 0x800_0000_0000,
            0 < m1 <= 0xffff,
    ;
    assert(1 <= 1000 * tm * m2 <= 1000 * 0x200000 * 0x10000) by (nonlinear_arith)
        requires
            1 <= tm <= 0x200000,
            0 < m2 <= 0xffff,
    ;
    proof { crate::algebra::lemma_mul_bound((g * am) as int, (tx) as int, 0x800_0000_0000, 0x100000); }
    proof { crate::algebra::lemma_mul_bound((g * am) as int, (ty) as int, 0x800_0000_0000, 0x100000); }
    proof { crate::algebra::lemma_mul_bound((g * am * m1) as int, (tx) as int, 0x800_0000_0000_0000, 0x100000); }
    proof { crate::algebra::lemma_mul_bound((g * am * m1) as int, (ty) as int, 0x800_0000_0000_0000, 0x100000); }
    let d1x = quot_exec(g * am * tx, 1000 * tm);
    let d1y = quot_exec(g * am * ty, 1000 * tm);
    let d2x = quot_exec(g * am * m1 * tx, 1000 * tm * m2);
    let d2y = quot_exec(g * am * m1 * ty, 1000 * tm * m2);
    (nudge_exec(v1n, d1x, d1y), nudge_exec(v2n, -d2x, -d2y))
}

/// Resolves one contact: updates the resting flags, applies the normal
/// impulse (restitution is the smaller of the two) and then friction.
/// `t2` is `None` when the second body is static.
pub fn react(t1: Translation, t2: Option<Translation>, s1: Surface, s2: Surface, n: Vec2) -> (r: (
    Translation,
    Option<Translation>,
))
    requires
        t1.wf(),
        t2 matches Some(t) ==> t.wf(),
        normal_ok(n),
    ensures
        r == react_spec(t1, t2, s1, s2, n),
        r.0.wf(),
        r.1 matches Some(t) ==> t.wf(),
        r.1 is Some == t2 is Some,
{
    proof { lemma_sq_bounds(n); }
    let nx = n.x as i128;
    let ny = n.y as i128;
    let nn = nx * nx + ny * ny;
    let is_flat = 24 * (nx * nx) <= ny * ny;
    let r1 = t1.rest || (is_flat && n.y > 0);
    let v1 = t1.lin_vel;
    let v2 = match t2 {
        Some(t) => t.lin_vel,
        None => Vec2 { x: 0, y: 0 },
    };
    let rx = v2.x as i128 - v1.x as i128;
    let ry = v2.y as i128 - v1.y as i128;
    proof {
        crate::algebra::lemma_mul_bound(rx as int, nx as int, LIMIT * 2, SPAN as int * 2);
        crate::algebra::lemma_mul_bound(ry as int, ny as int, LIMIT * 2, SPAN as int * 2);
    }
    let vn = rx * nx + ry * ny;
    let e: i128 = if s1.elast <= s2.elast { s1.elast as i128 } else { s2.elast as i128 };
    match t2 {
        None => {
            if vn >= 0 {
                return (Translation { rest: r1, ..t1 }, None);
            }
            proof {
                lemma_impulse_bound(1000 + e, vn as int, nx as int, ny as int, rx as int, ry as int, 1);
            }
            let (v1n, dx, dy) = after_impulse_exec(v1, 1000 + e, vn, n, 1000 * nn, r1);
            let v1f = friction_static_exec(dx, dy, v1n, s1, s2, n);
            (Translation { lin_vel: v1f, rest: r1, ..t1 }, None)
        },
        Some(t) => {
            let r2 = t.rest || (is_flat && n.y < 0);
            if vn >= 0 {
                return (Translation { rest: r1, ..t1 }, Some(Translation { rest: r2, ..t }));
            }
            let m1 = t1.mass as i128;
            let m2 = t.mass as i128;
            assert(0 <= (1000 + e) * m2 <= 0x20000 * 0x10000) by (nonlinear_arith)
                requires
                    0 <= e <= 0xffff,
                    0 < m2 <= 0xffff,
            ;
            assert(0 <= (1000 + e) * m1 <= 0x20000 * 0x10000) by (nonlinear_arith)
                requires
                    0 <= e <= 0xffff,
                    0 < m1 <= 0xffff,
            ;
            assert(1 <= 1000 * nn * (m1 + m2) <= 1000 * 0x200_0000_0000 * 0x20000) by (nonlinear_arith)
                requires
                    1 <= nn <= 0x200_0000_0000,
                    0 < m1 + m2 <= 0x20000,
            ;
            let den = 1000 * nn * (m1 + m2);
            proof {
                assert(0 <= (1000 + e) * m2 <= 67000 * (m1 + m2)) by (nonlinear_arith)
                    requires
                        0 <= e <= 0xffff,
                        0 < m1,
                        0 < m2,
                ;
                assert(0 <= (1000 + e) * m1 <= 67000 * (m1 + m2)) by (nonlinear_arith)
                    requires
                        0 <= e <= 0xffff,
                        0 < m1,
                        0 < m2,
                ;
                lemma_impulse_bound((1000 + e) * m2, vn as int, nx as int, ny as int, rx as int, ry as int, m1 + m2);
                lemma_impulse_bound((1000 + e) * m1, vn as int, nx as int, ny as int, rx as int, ry as int, m1 + m2);
                assert(-((1000 + e) * m1) * vn * nx == -(((1000 + e) * m1) * vn * nx)) by (nonlinear_arith);
                assert(-((1000 + e) * m1) * vn * ny == -(((1000 + e) * m1) * vn * ny)) by (nonlinear_arith);
            }
            let (v1n, dx, dy) = after_impulse_exec(v1, (1000 + e) * m2, vn, n, den, r1);
            let (v2n, _, _) = after_impulse_exec(v2, -((1000 + e) * m1), vn, n, den, r2);
            let (v1f, v2f) = friction_pair_exec(dx, dy, v1n, v2n, t1.mass, t.mass, s1, s2, n);
            (Translation { lin_vel: v1f, rest: r1, ..t1 }, Some(Translation { lin_vel: v2f, rest: r2, ..t }))
        },
    }
}

/// Two bodies of equal mass, perfectly elastic and meeting head-on along a
/// horizontal normal with velocities `(v, 0)` and `(-v, 0)`, exchange their
/// velocities (whatever their friction coefficients).
pub proof fn lemma_elastic_exchange(
    t1: Translation,
    t2: Translation,
    s1: Surface,
    s2: Surface,
    n: Vec2,
    v: i64,
)
    requires
        t1.wf(),
        t2.wf(),
        t1.mass == t2.mass,
        s1.elast == 1000,
        s2.elast == 1000,
        0 < v <= LIMIT,
        t1.lin_vel == (Vec2 { x: v, y: 0 }),
        t2.lin_vel == (Vec2 { x: -v as i64, y: 0 }),
        n.y == 0,
        0 < n.x <= SPAN * 2,
    ensures
        react_spec(t1, Some(t2), s1, s2, n).0.lin_vel == (Vec2 { x: -v as i64, y: 0 }),
        react_spec(t1, Some(t2), s1, s2, n).1.unwrap().lin_vel == (Vec2 { x: v, y: 0 }),
{
    let k = n.x as int;
    let m = t1.mass as int;
    let vi = v as int;
    let vn = (-vi - vi) * k + (0 - 0) * 0;
    assert(vn == -2 * vi * k);
    assert(vn < 0) by (nonlinear_arith)
        requires
            vn == -2 * vi * k,
            vi > 0,
            k > 0,
    ;
    assert(sq(n) == k * k);
    let den = 1000 * (k * k) * (m + m);
    let d = 2000 * (k * k) * m;
    assert(den == d) by (nonlinear_arith)
        requires
            den == 1000 * (k * k) * (m + m),
            d == 2000 * (k * k) * m,
    ;
    assert(d > 0) by (nonlinear_arith)
        requires
            d == 2000 * (k * k) * m,
            k > 0,
            m > 0,
    ;
    // normal impulse on the first body
    let num1 = (1000 + 1000) * m * vn * k;
    assert(num1 == -((2 * vi) * d)) by (nonlinear_arith)
        requires
            num1 == (1000 + 1000) * m * vn * k,
            vn == -2 * vi * k,
            d == 2000 * (k * k) * m,
    ;
    vstd::arithmetic::div_mod::lemma_div_by_multiple(2 * vi, d);
    assert(quot(num1, den) == -2 * vi);
    assert((1000 + 1000) * m * vn * 0 == 0);
    assert(quot((1000 + 1000) * m * vn * 0, den) == 0);
    // normal impulse on the second body
    let num2 = -((1000 + 1000) * m) * vn * k;
    assert(num2 == (2 * vi) * d) by (nonlinear_arith)
        requires
            num2 == -((1000 + 1000) * m) * vn * k,
            vn == -2 * vi * k,
            d == 2000 * (k * k) * m,
    ;
    assert(quot(num2, den) == 2 * vi);
    assert(-((1000 + 1000) * m) * vn * 0 == 0);
    let e = min_spec(s1.elast as int, s2.elast as int);
    assert(e == 1000);
    let v1n = after_impulse(t1.lin_vel, (1000 + e) * m, vn, n, den, t1.rest || (flat(n) && n.y > 0));
    let v2n = after_impulse(t2.lin_vel, -((1000 + e) * m), vn, n, den, t2.rest || (flat(n) && n.y < 0));
    assert(v1n == Vec2 { x: -v as i64, y: 0 });
    assert(v2n == Vec2 { x: v, y: 0 });
    // no tangential slip is left, so friction does nothing
    let w = (v2n.x - v1n.x) * n.x + (v2n.y - v1n.y) * n.y;
    assert(w == (2 * vi) * k);
    assert(w * k == (2 * vi) * (k * k)) by (nonlinear_arith)
        requires
            w == (2 * vi) * k,
    ;
    assert(k * k > 0) by (nonlinear_arith)
        requires
            k > 0,
    ;
    vstd::arithmetic::div_mod::lemma_div_by_multiple(2 * vi, k * k);
    assert(quot(w * n.x, sq(n)) == 2 * vi);
    assert(w * n.y == 0);
    let tg = tangent_of(v2n.x - v1n.x, v2n.y - v1n.y, n);
    assert(tg.0 == 0 && tg.1 == 0);
}

/// A body coming down onto a static floor (normal straight down into the
/// floor) slowly enough that its rebound is within the snap threshold stops:
/// it ends at rest with velocity exactly zero.
pub proof fn lemma_resting_settle(t1: Translation, s1: Surface, s2: Surface, n: Vec2)
    requires
        t1.wf(),
        t1.lin_vel.x == 0,
        0 < t1.lin_vel.y,
        n.x == 0,
        0 < n.y <= SPAN * 2,
        min_spec(s1.elast as int, s2.elast as int) * t1.lin_vel.y < 1000 * (REST_SNAP + 1),
    ensures
        react_spec(t1, None, s1, s2, n).0.lin_vel == (Vec2 { x: 0, y: 0 }),
        react_spec(t1, None, s1, s2, n).0.rest,
{
    let k = n.y as int;
    let vy = t1.lin_vel.y as int;
    let e = min_spec(s1.elast as int, s2.elast as int);
    assert(0 <= e <= 0xffff);
    let vn = (0 - 0) * n.x + (0 - vy) * k;
    assert(vn == -(vy * k)) by (nonlinear_arith)
        requires
            vn == (0 - 0) * n.x + (0 - vy) * k,
    ;
    assert(vy * k > 0) by (nonlinear_arith)
        requires
            vy > 0,
            k > 0,
    ;
    assert(flat(n)) by (nonlinear_arith)
        requires
            n.x == 0,
    ;
    let kk = k * k;
    assert(sq(n) == kk);
    assert(kk > 0) by (nonlinear_arith)
        requires
            k > 0,
            kk == k * k,
    ;
    let a = (1000 + e) * vy;
    let den = 1000 * kk;
    // the vertical velocity change: -(a / 1000), the k^2 cancelling
    let num = (1000 + e) * vn * n.y;
    assert(num == -(a * kk)) by (nonlinear_arith)
        requires
            num == (1000 + e) * vn * n.y,
            vn == -(vy * k),
            a == (1000 + e) * vy,
            kk == k * k,
            n.y == k,
    ;
    assert(a * kk >= 0) by (nonlinear_arith)
        requires
            a >= 0,
            kk > 0,
    ;
    let q = a / 1000;
    let r = a % 1000;
    assert(a * kk == q * den + r * kk) by (nonlinear_arith)
        requires
            a == q * 1000 + r,
            den == 1000 * kk,
    ;
    assert(0 <= r * kk < den) by (nonlinear_arith)
        requires
            0 <= r < 1000,
            kk > 0,
            den == 1000 * kk,
    ;
    vstd::arithmetic::div_mod::lemma_fundamental_div_mod_converse(a * kk, den, q, r * kk);
    assert(quot(num, den) == -q);
    assert((1000 + e) * vn * n.x == 0) by (nonlinear_arith)
        requires
            n.x == 0,
    ;
    // the rebound is within the snap threshold
    let b = e * vy;
    assert(a == 1000 * vy + b) by (nonlinear_arith)
        requires
            a == (1000 + e) * vy,
            b == e * vy,
    ;
    vstd::arithmetic::div_mod::lemma_fundamental_div_mod_converse(a, 1000, vy + b / 1000, b % 1000);
    assert(b >= 0) by (nonlinear_arith)
        requires
            e >= 0,
            vy > 0,
            b == e * vy,
    ;
    assert(vy - q == -(b / 1000));
    assert(0 <= b / 1000 <= REST_SNAP);
    let v1n = after_impulse(t1.lin_vel, 1000 + e, vn, n, den, true);
    assert(v1n == Vec2 { x: 0, y: 0 });
    let t = tangent_of(-v1n.x, -v1n.y, n);
    assert(t.0 == 0 && t.1 == 0);
}

} // verus!

//! Fixed-point plane geometry for stroke outlines.
//!
//! Positions live on an integer grid of sub-pixel units. Unit vectors carry
//! thirty fractional bits, so that a direction is normalised once and then
//! scaled by a half-width without any division by the segment length.

use vstd::prelude::*;

verus! {

/// The fixed-point representation of 1 in a unit vector component.
pub const UNIT_ONE: u64 = 1073741824;

/// The largest half-width the outline arithmetic accepts, in grid units.
pub const MAX_THICKNESS: u64 = 140737488355328;

/// A sampled position on the canvas grid.
#[derive(Clone, Copy, Debug, PartialEq, Eq, Structural)]
pub struct Point {
    pub x: i32,
    pub y: i32,
}

/// A vertex of an outline polygon. Offsetting a `Point` by a half-width can
/// leave the range of `i32`, so vertices are wider than sampled positions.
#[derive(Clone, Copy, Debug, PartialEq, Eq, Structural)]
pub struct Vertex {
    pub x: i64,
    pub y: i64,
}

/// `r` is the integer square root of `n`, rounded down.
pub open spec fn is_isqrt(n: nat, r: nat) -> bool {
    r * r <= n < (r + 1) * (r + 1)
}

/// The integer square root of `n`, rounded down.
pub open spec fn isqrt_spec(n: nat) -> nat {
    choose|r: nat| is_isqrt(n, r)
}

/// At most one number is the integer square root of `n`.
pub proof fn lemma_isqrt_unique(n: nat, a: nat, b: nat)
    requires
        is_isqrt(n, a),
        is_isqrt(n, b),
    ensures
        a == b,
{
    if a < b {
        assert((a + 1) * (a + 1) <= b * b) by (nonlinear_arith)
            requires
                a + 1 <= b,
        ;
    } else if b < a {
        assert((b + 1) * (b + 1) <= a * a) by (nonlinear_arith)
            requires
                b + 1 <= a,
        ;
    }
}

/// Every natural number has an integer square root, and `isqrt_spec` is it.
pub proof fn lemma_isqrt_exists(n: nat)
    ensures
        is_isqrt(n, isqrt_spec(n)),
    decreases n,
{
    if n == 0 {
        assert(0nat * 0nat == 0 && (0nat + 1) * (0nat + 1) == 1) by (nonlinear_arith);
        assert(is_isqrt(0, 0));
    } else {
        lemma_isqrt_exists((n - 1) as nat);
        let r = isqrt_spec((n - 1) as nat);
        if (r + 1) * (r + 1) <= n {
            assert((r + 1) * (r + 1) < (r + 1 + 1) * (r + 1 + 1)) by (nonlinear_arith);
            assert(is_isqrt(n, r + 1));
        } else {
            assert(is_isqrt(n, r));
        }
    }
}

/// The square root is monotone: a bound on `n` by a square bounds the root.
pub proof fn lemma_isqrt_bound(n: nat, b: nat)
    requires
        n <= b * b,
    ensures
        isqrt_spec(n) <= b,
{
    lemma_isqrt_exists(n);
    let r = isqrt_spec(n);
    if r > b {
        assert(r * r > b * b) by (nonlinear_arith)
            requires
                r > b,
        ;
    }
}

/// Integer square root by bisection.
pub fn isqrt(n: u64) -> (r: u64)
    ensures
        is_isqrt(n as nat, r as nat),
        r == isqrt_spec(n as nat),
        r < 4294967296,
{
    let mut lo: u64 = 0;
    let mut hi: u64 = 4294967296;
    assert(4294967296 * 4294967296 > u64::MAX) by (nonlinear_arith);
    while hi - lo > 1
        invariant
            lo < hi <= 4294967296,
            lo * lo <= n,
            n < hi * hi,
        decreases hi - lo,
    {
        let mid: u64 = lo + (hi - lo) / 2;
        assert(mid * mid < 18446744073709551616) by (nonlinear_arith)
            requires
                mid < 4294967296,
        ;
        let sq: u128 = (mid as u128) * (mid as u128);
        if sq <= n as u128 {
            lo = mid;
        } else {
            hi = mid;
        }
    }
    proof {
        assert(hi == lo + 1);
        assert(is_isqrt(n as nat, lo as nat));
        lemma_isqrt_exists(n as nat);
        lemma_isqrt_unique(n as nat, lo as nat, isqrt_spec(n as nat));
    }
    lo
}

/// The squared Euclidean distance between two positions.
pub open spec fn dist2_spec(a: Point, b: Point) -> int {
    (b.x - a.x) * (b.x - a.x) + (b.y - a.y) * (b.y - a.y)
}

/// The square of a coordinate difference fits in 64 bits.
pub proof fn lemma_square_bound(c: int)
    requires
        -4294967296 < c < 4294967296,
    ensures
        0 <= c * c < 18446744073709551616,
{
    assert(0 <= c * c < 18446744073709551616) by (nonlinear_arith)
        requires
            -4294967296 < c < 4294967296,
    ;
}

/// Squared Euclidean distance between two positions.
pub fn dist2(a: Point, b: Point) -> (r: u128)
    ensures
        r == dist2_spec(a, b),
        r < 36893488147419103232,
        (r == 0) == (a == b),
{
    let dx: i128 = b.x as i128 - a.x as i128;
    let dy: i128 = b.y as i128 - a.y as i128;
    proof {
        lemma_square_bound(dx as int);
        lemma_square_bound(dy as int);
        assert(dx != 0 ==> dx * dx > 0) by (nonlinear_arith);
        assert(dy != 0 ==> dy * dy > 0) by (nonlinear_arith);
    }
    let sx: i128 = dx * dx;
    let sy: i128 = dy * dy;
    (sx + sy) as u128
}

/// The magnitude of one component of the unit vector along a direction whose
/// squared length is `len2`: `|c| / sqrt(len2)` in units of `1 / UNIT_ONE`,
/// rounded down.
pub open spec fn unit_mag(c: int, len2: int) -> nat {
    isqrt_spec(((c * c * (UNIT_ONE * UNIT_ONE)) / len2) as nat)
}

/// One signed component of the unit vector: the sign of `c`, the magnitude
/// `unit_mag`.
pub open spec fn unit_comp(c: int, len2: int) -> int {
    if c >= 0 {
        unit_mag(c, len2) as int
    } else {
        -(unit_mag(c, len2) as int)
    }
}

/// No component of a unit vector exceeds one.
pub proof fn lemma_unit_mag_bound(c: int, len2: int)
    requires
        0 < len2,
        c * c <= len2,
    ensures
        unit_mag(c, len2) <= UNIT_ONE,
        0 <= (c * c * (UNIT_ONE * UNIT_ONE)) / len2 <= UNIT_ONE * UNIT_ONE,
{
    let k: int = UNIT_ONE * UNIT_ONE;
    let num: int = c * c * k;
    assert(c * c >= 0) by (nonlinear_arith);
    assert(0 <= num / len2 <= k) by (nonlinear_arith)
        requires
            0 < len2,
            0 <= c * c <= len2,
            num == c * c * k,
            k > 0,
    ;
    lemma_isqrt_bound((num / len2) as nat, UNIT_ONE as nat);
}

/// One component of the unit vector along a direction.
pub fn unit_component(c: i64, len2: u128) -> (u: i64)
    requires
        -4294967296 < c < 4294967296,
        0 < len2 < 36893488147419103232,
        c * c <= len2,
    ensures
        u == unit_comp(c as int, len2 as int),
        -UNIT_ONE <= u <= UNIT_ONE,
{
    proof {
        lemma_square_bound(c as int);
        lemma_unit_mag_bound(c as int, len2 as int);
    }
    let wide: i128 = c as i128;
    let c2: u128 = (wide * wide) as u128;
    assert(c2 * 1152921504606846976 < 21267647932558653966460912964485513216)
        by (nonlinear_arith)
        requires
            c2 < 18446744073709551616,
    ;
    assert(UNIT_ONE * UNIT_ONE == 1152921504606846976) by (nonlinear_arith);
    let num: u128 = c2 * 1152921504606846976u128;
    let q: u128 = num / len2;
    let mag: u64 = isqrt(q as u64);
    if c >= 0 {
        mag as i64
    } else {
        -(mag as i64)
    }
}

/// A unit vector component `u` scaled by the half-width `hw`, rounded toward
/// zero.
pub open spec fn scale_spec(u: int, hw: nat) -> int {
    if u >= 0 {
        (u * hw) / (UNIT_ONE as int)
    } else {
        -(((-u) * hw) / (UNIT_ONE as int))
    }
}

/// Scaling a unit component never gives more than the half-width.
pub proof fn lemma_scale_bound(u: int, hw: nat)
    requires
        -UNIT_ONE <= u <= UNIT_ONE,
    ensures
        -hw <= scale_spec(u, hw) <= hw,
{
    let m: int = if u >= 0 { u } else { -u };
    let k: int = UNIT_ONE as int;
    assert(0 <= (m * hw) / k <= hw) by (nonlinear_arith)
        requires
            0 <= m <= k,
            k > 0,
            hw >= 0,
    ;
}

/// Scales a unit vector component by a half-width.
pub fn scale(u: i64, hw: u64) -> (r: i64)
    requires
        -UNIT_ONE <= u <= UNIT_ONE,
        hw <= MAX_THICKNESS,
    ensures
        r == scale_spec(u as int, hw as nat),
        -hw <= r <= hw,
{
    proof {
        lemma_scale_bound(u as int, hw as nat);
    }
    let m: u128 = if u >= 0 { u as u128 } else { (-u) as u128 };
    assert(m * hw <= 151115727451828646838272) by (nonlinear_arith)
        requires
            m <= 1073741824,
            hw <= 140737488355328,
    ;
    let prod: u128 = m * (hw as u128);
    let q: u128 = prod / 1073741824u128;
    if u >= 0 {
        q as i64
    } else {
        -(q as i64)
    }
}

/// The offset that carries a sample to the right-hand edge of the ribbon: the
/// direction from `a` to `b`, turned a quarter (`(x, y)` to `(y, -x)`),
/// normalised, and scaled by the half-width `hw`.
pub open spec fn perp_offset_spec(a: Point, b: Point, hw: nat) -> (int, int) {
    let len2 = dist2_spec(a, b);
    (
        scale_spec(unit_comp(b.y - a.y, len2), hw),
        scale_spec(unit_comp(-(b.x - a.x), len2), hw),
    )
}

/// Neither component of the perpendicular offset exceeds the half-width.
pub proof fn lemma_perp_offset_bound(a: Point, b: Point, hw: nat)
    requires
        a != b,
    ensures
        -hw <= perp_offset_spec(a, b, hw).0 <= hw,
        -hw <= perp_offset_spec(a, b, hw).1 <= hw,
{
    let dx: int = b.x - a.x;
    let dy: int = b.y - a.y;
    let len2 = dist2_spec(a, b);
    assert(dx * dx >= 0 && dy * dy >= 0 && (-dx) * (-dx) == dx * dx) by (nonlinear_arith);
    assert(dx != 0 ==> dx * dx > 0) by (nonlinear_arith);
    assert(dy != 0 ==> dy * dy > 0) by (nonlinear_arith);
    lemma_unit_mag_bound(dy, len2);
    lemma_unit_mag_bound(-dx, len2);
    lemma_scale_bound(unit_comp(dy, len2), hw);
    lemma_scale_bound(unit_comp(-dx, len2), hw);
}

/// The unit vector of a direction is no longer than one.
pub proof fn lemma_unit_vector_norm(dx: int, dy: int)
    requires
        dx != 0 || dy != 0,
    ensures
        ({
            let len2 = dx * dx + dy * dy;
            let ux = unit_comp(dx, len2);
            let uy = unit_comp(dy, len2);
            ux * ux + uy * uy <= UNIT_ONE * UNIT_ONE
        }),
{
    let len2 = dx * dx + dy * dy;
    let k2: int = UNIT_ONE * UNIT_ONE;
    assert(dx * dx >= 0 && dy * dy >= 0) by (nonlinear_arith);
    assert(dx != 0 ==> dx * dx > 0) by (nonlinear_arith);
    assert(dy != 0 ==> dy * dy > 0) by (nonlinear_arith);
    lemma_unit_mag_bound(dx, len2);
    lemma_unit_mag_bound(dy, len2);
    let qx = (dx * dx * k2) / len2;
    let qy = (dy * dy * k2) / len2;
    let mx = unit_mag(dx, len2) as int;
    let my = unit_mag(dy, len2) as int;
    lemma_isqrt_exists(qx as nat);
    lemma_isqrt_exists(qy as nat);
    assert(mx * mx <= qx);
    assert(my * my <= qy);
    assert(qx * len2 <= dx * dx * k2) by (nonlinear_arith)
        requires
            qx == (dx * dx * k2) / len2,
            len2 > 0,
    ;
    assert(qy * len2 <= dy * dy * k2) by (nonlinear_arith)
        requires
            qy == (dy * dy * k2) / len2,
            len2 > 0,
    ;
    assert(mx * mx + my * my <= k2) by (nonlinear_arith)
        requires
            mx * mx <= qx,
            my * my <= qy,
            qx * len2 <= dx * dx * k2,
            qy * len2 <= dy * dy * k2,
            len2 == dx * dx + dy * dy,
            len2 > 0,
    ;
    let ux = unit_comp(dx, len2);
    let uy = unit_comp(dy, len2);
    assert(ux * ux == mx * mx) by (nonlinear_arith)
        requires
            ux == mx || ux == -mx,
    ;
    assert(uy * uy == my * my) by (nonlinear_arith)
        requires
            uy == my || uy == -my,
    ;
}

/// Scaling a vector no longer than one by a half-width gives a vector no
/// longer than the half-width.
pub proof fn lemma_scale_norm(ux: int, uy: int, hw: nat)
    requires
        ux * ux + uy * uy <= UNIT_ONE * UNIT_ONE,
    ensures
        scale_spec(ux, hw) * scale_spec(ux, hw) + scale_spec(uy, hw) * scale_spec(uy, hw) <= hw
            * hw,
{
    let k: int = UNIT_ONE as int;
    let ax: int = if ux >= 0 { ux } else { -ux };
    let ay: int = if uy >= 0 { uy } else { -uy };
    let sx: int = (ax * hw) / k;
    let sy: int = (ay * hw) / k;
    let h: int = hw as int;
    assert(ax * ax == ux * ux && ay * ay == uy * uy) by (nonlinear_arith)
        requires
            ax == ux || ax == -ux,
            ay == uy || ay == -uy,
    ;
    assert(0 <= sx && sx * k <= ax * h) by (nonlinear_arith)
        requires
            sx == (ax * h) / k,
            k > 0,
            ax >= 0,
            h >= 0,
    ;
    assert(0 <= sy && sy * k <= ay * h) by (nonlinear_arith)
        requires
            sy == (ay * h) / k,
            k > 0,
            ay >= 0,
            h >= 0,
    ;
    assert((sx * k) * (sx * k) <= (ax * h) * (ax * h)) by (nonlinear_arith)
        requires
            0 <= sx * k <= ax * h,
    ;
    assert((sy * k) * (sy * k) <= (ay * h) * (ay * h)) by (nonlinear_arith)
        requires
            0 <= sy * k <= ay * h,
    ;
    let kk: int = k * k;
    let hh: int = h * h;
    assert((sx * k) * (sx * k) == (sx * sx) * kk && (sy * k) * (sy * k) == (sy * sy) * kk)
        by (nonlinear_arith)
        requires
            kk == k * k,
    ;
    assert((ax * h) * (ax * h) == (ax * ax) * hh && (ay * h) * (ay * h) == (ay * ay) * hh)
        by (nonlinear_arith)
        requires
            hh == h * h,
    ;
    let u: int = ax * ax + ay * ay;
    assert(hh >= 0 && u * hh <= kk * hh) by (nonlinear_arith)
        requires
            u <= kk,
            hh == h * h,
    ;
    assert((ax * ax) * hh + (ay * ay) * hh == u * hh) by (nonlinear_arith)
        requires
            u == ax * ax + ay * ay,
    ;
    assert((sx * sx + sy * sy) * kk == (sx * sx) * kk + (sy * sy) * kk) by (nonlinear_arith);
    assert((sx * sx + sy * sy) * (k * k) <= (h * h) * (k * k)) by (nonlinear_arith)
        requires
            (sx * sx + sy * sy) * kk <= kk * hh,
            kk == k * k,
            hh == h * h,
    ;
    assert(sx * sx + sy * sy <= h * h) by (nonlinear_arith)
        requires
            (sx * sx + sy * sy) * (k * k) <= (h * h) * (k * k),
            k > 0,
    ;
    let rx = scale_spec(ux, hw);
    let ry = scale_spec(uy, hw);
    assert(rx * rx == sx * sx && ry * ry == sy * sy) by (nonlinear_arith)
        requires
            rx == sx || rx == -sx,
            ry == sy || ry == -sy,
    ;
}

/// The perpendicular offset is no longer than the half-width.
pub proof fn lemma_perp_offset_norm(a: Point, b: Point, hw: nat)
    requires
        a != b,
    ensures
        ({
            let off = perp_offset_spec(a, b, hw);
            off.0 * off.0 + off.1 * off.1 <= hw * hw
        }),
{
    let dx: int = b.x - a.x;
    let dy: int = b.y - a.y;
    assert((-dx) * (-dx) == dx * dx) by (nonlinear_arith);
    lemma_unit_vector_norm(-dx, dy);
    let len2 = dist2_spec(a, b);
    lemma_scale_norm(unit_comp(dy, len2), unit_comp(-dx, len2), hw);
}

/// How close a scaled unit component comes to the exact value. For a
/// direction of squared length `len2` with the component `c`, the exact
/// magnitude is `|c| * hw / sqrt(len2)`. The computed one is never above it,
/// and below it by less than `hw / UNIT_ONE + 2`; the sign is that of `c`.
pub proof fn lemma_component_accuracy(c: int, len2: int, hw: nat)
    requires
        0 < len2,
        c * c <= len2,
    ensures
        ({
            let s = scale_spec(unit_comp(c, len2), hw);
            let m = if s >= 0 { s } else { -s };
            let e = hw / (UNIT_ONE as nat) + 2;
            &&& c >= 0 ==> s >= 0
            &&& c <= 0 ==> s <= 0
            &&& (m * m) * len2 <= (c * hw) * (c * hw)
            &&& (c * hw) * (c * hw) <= ((m + e) * (m + e)) * len2
        }),
{
    let k: int = UNIT_ONE as int;
    let kk: int = UNIT_ONE * UNIT_ONE;
    let h: int = hw as int;
    let hh: int = h * h;
    let cc: int = c * c;
    let q: int = (cc * kk) / len2;
    let u: int = unit_mag(c, len2) as int;
    assert(cc >= 0 && hh >= 0) by (nonlinear_arith)
        requires
            cc == c * c,
            hh == h * h,
    ;
    lemma_unit_mag_bound(c, len2);
    lemma_isqrt_exists(q as nat);
    let uu: int = u * u;
    let u1: int = u + 1;
    assert(uu <= q && q < u1 * u1);
    assert(q * len2 <= cc * kk && cc * kk < (q + 1) * len2) by (nonlinear_arith)
        requires
            q == (cc * kk) / len2,
            len2 > 0,
    ;
    let m: int = (u * h) / k;
    assert(m >= 0 && m * k <= u * h && u * h < (m + 1) * k) by (nonlinear_arith)
        requires
            m == (u * h) / k,
            k > 0,
            u >= 0,
            h >= 0,
    ;
    assert((0 * h) / k == 0) by (nonlinear_arith)
        requires
            k > 0,
    ;
    let s = scale_spec(unit_comp(c, len2), hw);
    assert(s == m || s == -m);
    assert((c * h) * (c * h) == cc * hh) by (nonlinear_arith)
        requires
            cc == c * c,
            hh == h * h,
    ;
    // From below.
    let mm: int = m * m;
    assert(mm * kk <= uu * hh) by (nonlinear_arith)
        requires
            0 <= m * k <= u * h,
            mm == m * m,
            kk == k * k,
            uu == u * u,
            hh == h * h,
    ;
    assert(uu * len2 <= cc * kk) by (nonlinear_arith)
        requires
            uu <= q,
            q * len2 <= cc * kk,
            len2 > 0,
    ;
    assert((mm * len2) * kk <= (uu * len2) * hh) by (nonlinear_arith)
        requires
            mm * kk <= uu * hh,
            len2 > 0,
    ;
    assert((uu * len2) * hh <= (cc * hh) * kk) by (nonlinear_arith)
        requires
            uu * len2 <= cc * kk,
            hh >= 0,
    ;
    assert(mm * len2 <= cc * hh) by (nonlinear_arith)
        requires
            (mm * len2) * kk <= (cc * hh) * kk,
            kk > 0,
    ;
    // From above.
    let e: int = h / k + 2;
    let w: int = (m + e) * k;
    let g: int = u1 * h;
    assert(g == u * h + h && g >= 0) by (nonlinear_arith)
        requires
            g == u1 * h,
            u1 == u + 1,
            u >= 0,
            h >= 0,
    ;
    assert(w >= (m + 1) * k + h) by (nonlinear_arith)
        requires
            e == h / k + 2,
            k > 0,
            h >= 0,
            w == (m + e) * k,
    ;
    assert(w >= g);
    let ww: int = w * w;
    let gg: int = g * g;
    assert(ww >= gg) by (nonlinear_arith)
        requires
            w >= g,
            g >= 0,
            ww == w * w,
            gg == g * g,
    ;
    assert(gg == (u1 * u1) * hh) by (nonlinear_arith)
        requires
            gg == g * g,
            g == u1 * h,
            hh == h * h,
    ;
    assert((u1 * u1) * len2 >= cc * kk) by (nonlinear_arith)
        requires
            u1 * u1 >= q + 1,
            (q + 1) * len2 > cc * kk,
            len2 > 0,
    ;
    assert(gg * len2 >= (cc * hh) * kk) by (nonlinear_arith)
        requires
            gg == (u1 * u1) * hh,
            (u1 * u1) * len2 >= cc * kk,
            hh >= 0,
    ;
    let me: int = (m + e) * (m + e);
    assert(ww == me * kk) by (nonlinear_arith)
        requires
            ww == w * w,
            w == (m + e) * k,
            me == (m + e) * (m + e),
            kk == k * k,
    ;
    assert(ww * len2 >= gg * len2) by (nonlinear_arith)
        requires
            ww >= gg,
            len2 > 0,
    ;
    assert((me * len2) * kk >= (cc * hh) * kk) by (nonlinear_arith)
        requires
            ww * len2 >= (cc * hh) * kk,
            ww == me * kk,
    ;
    assert(me * len2 >= cc * hh) by (nonlinear_arith)
        requires
            (me * len2) * kk >= (cc * hh) * kk,
            kk > 0,
    ;
    if c == 0 {
        assert(cc == 0 && cc * kk == 0) by (nonlinear_arith)
            requires
                cc == c * c,
                c == 0,
        ;
        assert(q == 0) by (nonlinear_arith)
            requires
                q == 0int / len2,
                len2 > 0,
        ;
        assert(u == 0) by (nonlinear_arith)
            requires
                u * u <= 0,
        ;
    }
}

/// How close the perpendicular offset comes to the exact one. The exact
/// offset of the segment from `a` to `b`, of length `len`, is
/// `(dy, -dx) * hw / len`. Each computed component has the sign of the exact
/// one, is never larger in magnitude, and is smaller by less than
/// `hw / UNIT_ONE + 2` grid units.
pub proof fn lemma_perp_offset_accuracy(a: Point, b: Point, hw: nat)
    requires
        a != b,
    ensures
        ({
            let off = perp_offset_spec(a, b, hw);
            let dx = b.x - a.x;
            let dy = b.y - a.y;
            let len2 = dist2_spec(a, b);
            let mx = if off.0 >= 0 { off.0 } else { -off.0 };
            let my = if off.1 >= 0 { off.1 } else { -off.1 };
            let e = hw / (UNIT_ONE as nat) + 2;
            &&& dy >= 0 ==> off.0 >= 0
            &&& dy <= 0 ==> off.0 <= 0
            &&& dx >= 0 ==> off.1 <= 0
            &&& dx <= 0 ==> off.1 >= 0
            &&& (mx * mx) * len2 <= (dy * hw) * (dy * hw) <= ((mx + e) * (mx + e)) * len2
            &&& (my * my) * len2 <= (dx * hw) * (dx * hw) <= ((my + e) * (my + e)) * len2
        }),
{
    let dx: int = b.x - a.x;
    let dy: int = b.y - a.y;
    let len2 = dist2_spec(a, b);
    let h: int = hw as int;
    assert(dx * dx >= 0 && dy * dy >= 0 && (-dx) * (-dx) == dx * dx) by (nonlinear_arith);
    assert(dx != 0 ==> dx * dx > 0) by (nonlinear_arith);
    assert(dy != 0 ==> dy * dy > 0) by (nonlinear_arith);
    assert(((-dx) * h) * ((-dx) * h) == (dx * h) * (dx * h)) by (nonlinear_arith);
    lemma_component_accuracy(dy, len2, hw);
    lemma_component_accuracy(-dx, len2, hw);
}

/// Along a horizontal or vertical segment the perpendicular offset is exact:
/// the half-width along the other axis, to the right of the direction.
pub proof fn lemma_axis_aligned_offset(a: Point, b: Point, hw: nat)
    requires
        a != b,
        a.x == b.x || a.y == b.y,
    ensures
        a.y == b.y && a.x < b.x ==> perp_offset_spec(a, b, hw) == (0int, -(hw as int)),
        a.y == b.y && a.x > b.x ==> perp_offset_spec(a, b, hw) == (0int, hw as int),
        a.x == b.x && a.y < b.y ==> perp_offset_spec(a, b, hw) == (hw as int, 0int),
        a.x == b.x && a.y > b.y ==> perp_offset_spec(a, b, hw) == (-(hw as int), 0int),
{
    let dx: int = b.x - a.x;
    let dy: int = b.y - a.y;
    let len2 = dist2_spec(a, b);
    let k: int = UNIT_ONE as int;
    let k2: int = UNIT_ONE * UNIT_ONE;
    let h: int = hw as int;
    let c: int = if dx != 0 { dx } else { dy };
    assert(0 * 0 == 0 && (0 - c) * (0 - c) == c * c && c * c > 0) by (nonlinear_arith)
        requires
            c != 0,
    ;
    assert(len2 == c * c);
    assert((c * c * k2) / len2 == k2 && (0 * 0 * k2) / len2 == 0) by (nonlinear_arith)
        requires
            len2 == c * c,
            len2 > 0,
    ;
    assert(is_isqrt(k2 as nat, k as nat)) by (nonlinear_arith)
        requires
            k2 == k * k,
            k > 0,
    ;
    assert(is_isqrt(0, 0)) by (nonlinear_arith);
    lemma_isqrt_exists(k2 as nat);
    lemma_isqrt_exists(0);
    lemma_isqrt_unique(k2 as nat, k as nat, isqrt_spec(k2 as nat));
    lemma_isqrt_unique(0, 0, isqrt_spec(0));
    assert(unit_mag(c, len2) == k);
    assert(unit_mag(-c, len2) == k);
    assert(unit_mag(0, len2) == 0);
    assert((k * h) / k == h && (0 * h) / k == 0) by (nonlinear_arith)
        requires
            k > 0,
    ;
}

/// The perpendicular offset of the segment from `a` to `b` at half-width `hw`.
pub fn perp_offset(a: Point, b: Point, hw: u64) -> (off: (i64, i64))
    requires
        a != b,
        hw <= MAX_THICKNESS,
    ensures
        off.0 == perp_offset_spec(a, b, hw as nat).0,
        off.1 == perp_offset_spec(a, b, hw as nat).1,
        -hw <= off.0 <= hw,
        -hw <= off.1 <= hw,
{
    let len2: u128 = dist2(a, b);
    let dx: i64 = b.x as i64 - a.x as i64;
    let dy: i64 = b.y as i64 - a.y as i64;
    proof {
        assert(dx * dx >= 0 && dy * dy >= 0 && (-dx) * (-dx) == dx * dx) by (nonlinear_arith);
    }
    let ux: i64 = unit_component(dy, len2);
    let uy: i64 = unit_component(-dx, len2);
    (scale(ux, hw), scale(uy, hw))
}

/// The vertex on the left-hand edge of the ribbon: `at` moved against the
/// offset.
pub open spec fn left_vertex_spec(at: Point, off: (int, int)) -> Vertex {
    Vertex { x: (at.x - off.0) as i64, y: (at.y - off.1) as i64 }
}

/// The vertex on the right-hand edge of the ribbon: `at` moved along the
/// offset.
pub open spec fn right_vertex_spec(at: Point, off: (int, int)) -> Vertex {
    Vertex { x: (at.x + off.0) as i64, y: (at.y + off.1) as i64 }
}

/// The left-hand vertex of a sample at `at`.
pub fn left_vertex(at: Point, off: (i64, i64)) -> (v: Vertex)
    requires
        -MAX_THICKNESS <= off.0 <= MAX_THICKNESS,
        -MAX_THICKNESS <= off.1 <= MAX_THICKNESS,
    ensures
        v == left_vertex_spec(at, (off.0 as int, off.1 as int)),
        v.x == at.x - off.0,
        v.y == at.y - off.1,
{
    Vertex { x: at.x as i64 - off.0, y: at.y as i64 - off.1 }
}

/// The right-hand vertex of a sample at `at`.
pub fn right_vertex(at: Point, off: (i64, i64)) -> (v: Vertex)
    requires
        -MAX_THICKNESS <= off.0 <= MAX_THICKNESS,
        -MAX_THICKNESS <= off.1 <= MAX_THICKNESS,
    ensures
        v == right_vertex_spec(at, (off.0 as int, off.1 as int)),
        v.x == at.x + off.0,
        v.y == at.y + off.1,
{
    Vertex { x: at.x as i64 + off.0, y: at.y as i64 + off.1 }
}

} // verus!

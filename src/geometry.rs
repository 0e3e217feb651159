//! Integer plane geometry for movement intents: squared distances, a
//! vector scaled to a length, fleeing a point and dodging projectiles.
//!
//! Positions are whole game units and speeds whole units per step. A
//! vector scaled to length `len` has each component rounded to the nearest
//! integer, so its length is within one unit of `len`; coordinates that
//! would leave the range of `i32` are clamped to it.
use vstd::prelude::*;
use crate::rng::random_in_range;

verus! {

/// A projectile closer than this (in game units) counts as a threat.
pub const DODGE_RADIUS: i64 = 50;

/// Upper bound (exclusive) of the distance of a random dodge.
pub const DODGE_DISTANCE: i64 = 500;

/// Half-width of the square from which a random direction is drawn; only
/// points inside the disc of this radius are kept, so every angle is
/// equally likely.
pub const DIRECTION_RESOLUTION: i64 = 1000;

/// How many draws a random direction may take before giving up.
pub const DIRECTION_ATTEMPTS: u32 = 64;

/// `v` clamped to the range of `i32`.
pub open spec fn saturate(v: int) -> i32 {
    if v < i32::MIN {
        i32::MIN
    } else if v > i32::MAX {
        i32::MAX
    } else {
        v as i32
    }
}

pub open spec fn dist2(a: (i32, i32), b: (i32, i32)) -> int {
    (b.0 - a.0) * (b.0 - a.0) + (b.1 - a.1) * (b.1 - a.1)
}

/// `m` is the square root of `a / n` rounded to the nearest integer
/// (halves round up): `m - 1/2 <= sqrt(a / n) < m + 1/2`.
pub open spec fn is_rounded_root(a: int, n: int, m: int) -> bool {
    &&& m >= 0
    &&& 4 * a < (2 * m + 1) * (2 * m + 1) * n
    &&& (m == 0 || (2 * m - 1) * (2 * m - 1) * n <= 4 * a)
}

pub open spec fn rounded_root(a: int, n: int) -> int {
    choose|m: int| is_rounded_root(a, n, m)
}

/// `d * len / sqrt(n)`, rounded to the nearest integer.
pub open spec fn scaled_component(d: int, n: int, len: int) -> int {
    let m = rounded_root(d * d * (len * len), n);
    if d >= 0 {
        m
    } else {
        -m
    }
}

/// The vector `(dx, dy)` scaled to length `len`, each component rounded to
/// the nearest integer (a zero vector stays zero).
pub open spec fn scaled(dx: int, dy: int, len: int) -> (int, int) {
    let n = dx * dx + dy * dy;
    if n == 0 {
        (0, 0)
    } else {
        (scaled_component(dx, n, len), scaled_component(dy, n, len))
    }
}

/// One step of length `speed` from `from`, directly away from `threat`.
pub open spec fn flee_target(from: (i32, i32), threat: (i32, i32), speed: u16) -> (i32, i32) {
    let s = scaled(threat.0 - from.0, threat.1 - from.1, speed as int);
    (saturate(from.0 - s.0), saturate(from.1 - s.1))
}

/// `from` moved by the direction `(ux, uy)` scaled to length `dist`.
pub open spec fn offset_target(from: (i32, i32), ux: int, uy: int, dist: int) -> (i32, i32) {
    let s = scaled(ux, uy, dist);
    (saturate(from.0 + s.0), saturate(from.1 + s.1))
}

pub open spec fn is_threat(enemy: (i32, i32), p: (i32, i32)) -> bool {
    dist2(enemy, p) < DODGE_RADIUS * DODGE_RADIUS
}

/// Index of the projectile nearest to `enemy` among those within the dodge
/// radius; among equally near ones, the earliest in the list.
pub open spec fn nearest_threat_in(enemy: (i32, i32), ps: Seq<(i32, i32)>) -> Option<int>
    decreases ps.len(),
{
    if ps.len() == 0 {
        None
    } else {
        let k = ps.len() - 1;
        let prev = nearest_threat_in(enemy, ps.drop_last());
        if !is_threat(enemy, ps[k]) {
            prev
        } else {
            match prev {
                None => Some(k),
                Some(i) => if dist2(enemy, ps[k]) < dist2(enemy, ps[i]) {
                    Some(k)
                } else {
                    Some(i)
                },
            }
        }
    }
}

/// Where a projectile-aware dodge goes: away from the nearest threat by
/// `speed`, or to `fallback` when no projectile is within the radius.
pub open spec fn dodge_target(
    enemy: (i32, i32),
    ps: Seq<(i32, i32)>,
    speed: u16,
    fallback: (i32, i32),
) -> (i32, i32) {
    match nearest_threat_in(enemy, ps) {
        Some(i) => flee_target(enemy, ps[i], speed),
        None => fallback,
    }
}

/// `p` lies in the closed disc of `radius` around `center`.
pub open spec fn within_radius(p: (i32, i32), center: (i32, i32), radius: int) -> bool {
    dist2(center, p) <= radius * radius
}

/// A step of `len` is between `len - 1` and `len + 1` long.
pub open spec fn length_close_to(s: (int, int), len: int) -> bool {
    &&& s.0 * s.0 + s.1 * s.1 <= (len + 1) * (len + 1)
    &&& (len >= 1 ==> (len - 1) * (len - 1) <= s.0 * s.0 + s.1 * s.1)
}

/// `p` is at least `m` units inside the range of `i32` on both axes.
pub open spec fn away_from_edges(p: (i32, i32), m: int) -> bool {
    &&& i32::MIN + m <= p.0 <= i32::MAX - m
    &&& i32::MIN + m <= p.1 <= i32::MAX - m
}

/// The move from `from` to `to` is at most `len + 1` long, and, unless it
/// was clamped at the edge of `i32`, at least `len - 1` long.
pub open spec fn step_length_ok(from: (i32, i32), to: (i32, i32), len: int) -> bool {
    &&& dist2(from, to) <= (len + 1) * (len + 1)
    &&& (len >= 1 && away_from_edges(from, len + 1) ==> (len - 1) * (len - 1) <= dist2(from, to))
}

proof fn lemma_rounded_root_unique(a: int, n: int, m1: int, m2: int)
    requires
        n > 0,
        is_rounded_root(a, n, m1),
        is_rounded_root(a, n, m2),
    ensures
        m1 == m2,
{
    if m1 < m2 {
        assert((2 * m1 + 1) * (2 * m1 + 1) * n <= (2 * m2 - 1) * (2 * m2 - 1) * n)
            by (nonlinear_arith)
            requires
                0 <= m1 <= m2 - 1,
                n > 0,
        ;
    } else if m2 < m1 {
        assert((2 * m2 + 1) * (2 * m2 + 1) * n <= (2 * m1 - 1) * (2 * m1 - 1) * n)
            by (nonlinear_arith)
            requires
                0 <= m2 <= m1 - 1,
                n > 0,
        ;
    }
}

/// Some integer is the rounded root of `a / n`.
proof fn rounded_root_witness(a: int, n: int) -> (m: int)
    requires
        a >= 0,
        n > 0,
    ensures
        is_rounded_root(a, n, m),
    decreases a,
{
    if a == 0 {
        assert(4 * 0 < (2 * 0 + 1) * (2 * 0 + 1) * n) by (nonlinear_arith)
            requires
                n > 0,
        ;
        0
    } else {
        let p = rounded_root_witness(a - 1, n);
        if 4 * a < (2 * p + 1) * (2 * p + 1) * n {
            if p != 0 {
                assert((2 * p - 1) * (2 * p - 1) * n <= 4 * a);
            }
            p
        } else {
            assert((2 * p + 3) * (2 * p + 3) * n >= (2 * p + 1) * (2 * p + 1) * n + 8 * n)
                by (nonlinear_arith)
                requires
                    p >= 0,
                    n > 0,
            ;
            p + 1
        }
    }
}

pub proof fn lemma_rounded_root_is(a: int, n: int, m: int)
    requires
        n > 0,
        is_rounded_root(a, n, m),
    ensures
        rounded_root(a, n) == m,
{
    assert(is_rounded_root(a, n, m));
    let c = rounded_root(a, n);
    lemma_rounded_root_unique(a, n, m, c);
}

/// The square root of `a / n` rounded to the nearest integer, by binary
/// search below `limit`.
fn rounded_root_u128(a: u128, n: u128, limit: u128) -> (m: u128)
    requires
        n > 0,
        n <= 0x2_0000_0000_0000_0000,
        a <= 0x1_0000_0000_0000_0000_0000_0000,
        limit <= 0x1_0001,
        4 * a < (2 * limit + 1) * (2 * limit + 1) * n,
    ensures
        is_rounded_root(a as int, n as int, m as int),
        m <= limit,
{
    let mut lo: u128 = 0;
    let mut hi: u128 = limit;
    while lo < hi
        invariant
            lo <= hi <= limit,
            limit <= 0x1_0001,
            n <= 0x2_0000_0000_0000_0000,
            a <= 0x1_0000_0000_0000_0000_0000_0000,
            4 * a < (2 * hi + 1) * (2 * hi + 1) * n,
            lo == 0 || (2 * lo - 1) * (2 * lo - 1) * n <= 4 * a,
        decreases hi - lo,
    {
        let mid = lo + (hi - lo) / 2;
        assert((2 * mid + 1) * (2 * mid + 1) * n <= 0x2_0005 * 0x2_0005 * 0x2_0000_0000_0000_0000)
            by (nonlinear_arith)
            requires
                mid <= 0x1_0001,
                n <= 0x2_0000_0000_0000_0000,
        ;
        let w = 2 * mid + 1;
        assert(w * w <= 0x2_0003 * 0x2_0003) by (nonlinear_arith)
            requires
                0 <= w <= 0x2_0003,
        ;
        assert(w * w * n <= 0x2_0003 * 0x2_0003 * 0x2_0000_0000_0000_0000) by (nonlinear_arith)
            requires
                w * w <= 0x2_0003 * 0x2_0003,
                n <= 0x2_0000_0000_0000_0000,
        ;
        if 4 * a < w * w * n {
            hi = mid;
        } else {
            lo = mid + 1;
        }
    }
    hi
}

/// Clamps to `i32`'s range.
pub fn saturate_i64(v: i64) -> (r: i32)
    ensures
        r == saturate(v as int),
{
    if v < i32::MIN as i64 {
        i32::MIN
    } else if v > i32::MAX as i64 {
        i32::MAX
    } else {
        v as i32
    }
}

/// `d * len / sqrt(n)` rounded to the nearest integer, for `d * d <= n`.
fn scale_component(d: i64, n: u128, len: u16) -> (r: i64)
    requires
        n > 0,
        n <= 0x2_0000_0000_0000_0000,
        d * d <= n,
        -0x1_0000_0000 <= d <= 0x1_0000_0000,
    ensures
        r == scaled_component(d as int, n as int, len as int),
        -(len as int) - 1 <= r <= len + 1,
{
    let mag: u128 = if d >= 0 {
        d as u128
    } else {
        (-(d as i128)) as u128
    };
    assert(mag * mag == d * d) by (nonlinear_arith)
        requires
            mag == d || mag == -d,
    ;
    assert(mag * mag * (len * len) <= 0x1_0000_0000_0000_0000 * 0x1_0000_0000) by (nonlinear_arith)
        requires
            mag <= 0x1_0000_0000,
            len <= 0xffff,
    ;
    let l = len as u128;
    assert(mag * mag <= 0x1_0000_0000_0000_0000) by (nonlinear_arith)
        requires
            mag <= 0x1_0000_0000,
    ;
    assert(l * l <= 0x1_0000_0000) by (nonlinear_arith)
        requires
            l <= 0xffff,
    ;
    let a = mag * mag * (l * l);
    let limit = l + 1;
    assert(4 * a < (2 * limit + 1) * (2 * limit + 1) * n) by (nonlinear_arith)
        requires
            a == mag * mag * (l * l),
            mag * mag <= n,
            n > 0,
            limit == l + 1,
            l >= 0,
    ;
    let m = rounded_root_u128(a, n, limit);
    proof {
        lemma_rounded_root_is(a as int, n as int, m as int);
        assert(d * d * (len * len) == a as int);
    }
    if d >= 0 {
        m as i64
    } else {
        -(m as i64)
    }
}

/// Each rounded component is off by at most one half; with the two
/// exact components summing, in square, to `len * len`, the rounded vector
/// is within one unit of `len` in length.
pub proof fn lemma_scaled_length(dx: int, dy: int, len: int)
    requires
        len >= 0,
        dx * dx + dy * dy > 0,
    ensures
        length_close_to(scaled(dx, dy, len), len),
        scaled(dx, dy, len).0 * dx >= 0,
        scaled(dx, dy, len).1 * dy >= 0,
{
    let n = dx * dx + dy * dy;
    let a0 = dx * dx * (len * len);
    let a1 = dy * dy * (len * len);
    assert(dx * dx >= 0 && dy * dy >= 0 && len * len >= 0) by (nonlinear_arith);
    assert(a0 >= 0 && a1 >= 0) by (nonlinear_arith)
        requires
            a0 == dx * dx * (len * len),
            a1 == dy * dy * (len * len),
            dx * dx >= 0,
            dy * dy >= 0,
            len * len >= 0,
    ;
    let w0 = rounded_root_witness(a0, n);
    let w1 = rounded_root_witness(a1, n);
    lemma_rounded_root_is(a0, n, w0);
    lemma_rounded_root_is(a1, n, w1);
    let m0 = w0;
    let m1 = w1;
    assert(a0 + a1 == n * (len * len)) by (nonlinear_arith)
        requires
            a0 == dx * dx * (len * len),
            a1 == dy * dy * (len * len),
            n == dx * dx + dy * dy,
    ;
    lemma_rounded_upper(a0, a1, n, len, m0, m1);
    lemma_rounded_lower(a0, a1, n, len, m0, m1);
    let s = scaled(dx, dy, len);
    assert(s.0 * s.0 == m0 * m0 && s.1 * s.1 == m1 * m1) by (nonlinear_arith)
        requires
            s.0 == m0 || s.0 == -m0,
            s.1 == m1 || s.1 == -m1,
    ;
    assert(s.0 * dx >= 0) by (nonlinear_arith)
        requires
            (dx >= 0 && s.0 == m0) || (dx < 0 && s.0 == -m0),
            m0 >= 0,
    ;
    assert(s.1 * dy >= 0) by (nonlinear_arith)
        requires
            (dy >= 0 && s.1 == m1) || (dy < 0 && s.1 == -m1),
            m1 >= 0,
    ;
}

proof fn lemma_rounded_upper(a0: int, a1: int, n: int, len: int, m0: int, m1: int)
    requires
        a0 >= 0,
        a1 >= 0,
        n > 0,
        len >= 0,
        a0 + a1 == n * (len * len),
        is_rounded_root(a0, n, m0),
        is_rounded_root(a1, n, m1),
    ensures
        m0 * m0 + m1 * m1 <= (len + 1) * (len + 1),
{
    let y0 = if m0 == 0 { 0 } else { 2 * m0 - 1 };
    let y1 = if m1 == 0 { 0 } else { 2 * m1 - 1 };
    assert(y0 * y0 * n <= 4 * a0) by (nonlinear_arith)
        requires
            (m0 == 0 && y0 == 0 && a0 >= 0) || (y0 == 2 * m0 - 1 && (2 * m0 - 1) * (2 * m0 - 1) * n
                <= 4 * a0),
            4 * a0 >= 0 || m0 != 0,
    ;
    assert(y1 * y1 * n <= 4 * a1) by (nonlinear_arith)
        requires
            (m1 == 0 && y1 == 0 && a1 >= 0) || (y1 == 2 * m1 - 1 && (2 * m1 - 1) * (2 * m1 - 1) * n
                <= 4 * a1),
    ;
    let yy = y0 * y0 + y1 * y1;
    assert(yy <= 4 * (len * len)) by (nonlinear_arith)
        requires
            yy == y0 * y0 + y1 * y1,
            y0 * y0 * n <= 4 * a0,
            y1 * y1 * n <= 4 * a1,
            a0 + a1 == n * (len * len),
            n > 0,
    ;
    let z = y0 + y1;
    assert(z <= 4 * len + 1) by (nonlinear_arith)
        requires
            z == y0 + y1,
            y0 >= 0,
            y1 >= 0,
            yy == y0 * y0 + y1 * y1,
            yy <= 4 * (len * len),
            len >= 0,
    ;
    assert(4 * (m0 * m0 + m1 * m1) <= 4 * ((len + 1) * (len + 1))) by (nonlinear_arith)
        requires
            2 * m0 <= y0 + 1,
            2 * m1 <= y1 + 1,
            m0 >= 0,
            m1 >= 0,
            y0 >= 0,
            y1 >= 0,
            yy == y0 * y0 + y1 * y1,
            yy <= 4 * (len * len),
            y0 + y1 <= 4 * len + 1,
    ;
}

proof fn lemma_rounded_lower(a0: int, a1: int, n: int, len: int, m0: int, m1: int)
    requires
        n > 0,
        len >= 0,
        a0 + a1 == n * (len * len),
        is_rounded_root(a0, n, m0),
        is_rounded_root(a1, n, m1),
    ensures
        len >= 1 ==> (len - 1) * (len - 1) <= m0 * m0 + m1 * m1,
{
    let s = m0 * m0 + m1 * m1;
    let z = m0 + m1;
    assert(4 * (len * len) * n < ((2 * m0 + 1) * (2 * m0 + 1) + (2 * m1 + 1) * (2 * m1 + 1)) * n)
        by (nonlinear_arith)
        requires
            4 * a0 < (2 * m0 + 1) * (2 * m0 + 1) * n,
            4 * a1 < (2 * m1 + 1) * (2 * m1 + 1) * n,
            a0 + a1 == n * (len * len),
    ;
    assert(len * len <= s + z) by (nonlinear_arith)
        requires
            4 * (len * len) * n < ((2 * m0 + 1) * (2 * m0 + 1) + (2 * m1 + 1) * (2 * m1 + 1)) * n,
            n > 0,
            s == m0 * m0 + m1 * m1,
            z == m0 + m1,
    ;
    if len >= 1 && s < (len - 1) * (len - 1) {
        let k = len - 1;
        assert(z * z <= 2 * s) by (nonlinear_arith)
            requires
                z == m0 + m1,
                s == m0 * m0 + m1 * m1,
        ;
        assert(z < 2 * k + 2) by (nonlinear_arith)
            requires
                z * z <= 2 * s,
                s < k * k,
                k >= 0,
                z >= 0,
        ;
        assert(false) by (nonlinear_arith)
            requires
                len * len <= s + z,
                s < k * k,
                z < 2 * k + 2,
                k == len - 1,
        ;
    }
}

/// The vector `(dx, dy)` scaled to length `len`.
pub fn scale_to_length(dx: i64, dy: i64, len: u16) -> (r: (i64, i64))
    requires
        -0x1_0000_0000 <= dx <= 0x1_0000_0000,
        -0x1_0000_0000 <= dy <= 0x1_0000_0000,
    ensures
        r.0 == scaled(dx as int, dy as int, len as int).0,
        r.1 == scaled(dx as int, dy as int, len as int).1,
        dx * dx + dy * dy > 0 ==> length_close_to((r.0 as int, r.1 as int), len as int),
        r.0 * dx >= 0,
        r.1 * dy >= 0,
        -(len as int) - 1 <= r.0 <= len + 1,
        -(len as int) - 1 <= r.1 <= len + 1,
{
    assert(dx * dx <= 0x1_0000_0000_0000_0000 && dy * dy <= 0x1_0000_0000_0000_0000)
        by (nonlinear_arith)
        requires
            -0x1_0000_0000 <= dx <= 0x1_0000_0000,
            -0x1_0000_0000 <= dy <= 0x1_0000_0000,
    ;
    assert(dx * dx >= 0 && dy * dy >= 0) by (nonlinear_arith);
    let n: u128 = ((dx as i128) * (dx as i128) + (dy as i128) * (dy as i128)) as u128;
    if n == 0 {
        assert(dx == 0 && dy == 0) by (nonlinear_arith)
            requires
                dx * dx + dy * dy == 0,
        ;
        return (0, 0);
    }
    let r = (scale_component(dx, n, len), scale_component(dy, n, len));
    proof {
        lemma_scaled_length(dx as int, dy as int, len as int);
    }
    r
}

/// Moving `e` by `s` and clamping to `i32` stays within `|s|` of `e`.
proof fn lemma_saturate_closer(e: i32, s: int)
    ensures
        (saturate(e + s) - e) * (saturate(e + s) - e) <= s * s,
{
    let d = saturate(e + s) - e;
    assert(s >= 0 ==> 0 <= d <= s);
    assert(s < 0 ==> s <= d <= 0);
    assert(d * d <= s * s) by (nonlinear_arith)
        requires
            (0 <= d <= s) || (s <= d <= 0),
    ;
}

pub proof fn lemma_offset_within(from: (i32, i32), ux: int, uy: int, dist: int)
    requires
        0 <= dist,
    ensures
        dist2(from, offset_target(from, ux, uy, dist)) <= (dist + 1) * (dist + 1),
{
    let s = scaled(ux, uy, dist);
    assert(ux * ux >= 0 && uy * uy >= 0) by (nonlinear_arith);
    if ux * ux + uy * uy > 0 {
        lemma_scaled_length(ux, uy, dist);
    } else {
        assert(s == (0int, 0int));
        assert((dist + 1) * (dist + 1) >= 0) by (nonlinear_arith);
    }
    assert(s.0 * s.0 + s.1 * s.1 <= (dist + 1) * (dist + 1));
    lemma_saturate_closer(from.0, s.0);
    lemma_saturate_closer(from.1, s.1);
    let t = offset_target(from, ux, uy, dist);
    assert(dist2(from, t) == (t.0 - from.0) * (t.0 - from.0) + (t.1 - from.1) * (t.1 - from.1));
}

/// One step of length `speed` from `from`, directly away from `threat`; no
/// step when the two coincide.
pub fn flee_position(from: (i32, i32), threat: (i32, i32), speed: u16) -> (r: (i32, i32))
    ensures
        r == flee_target(from, threat, speed),
        from != threat ==> step_length_ok(from, r, speed as int),
{
    proof {
        if from != threat {
            lemma_flee_target_length(from, threat, speed);
        }
    }
    let dx = threat.0 as i64 - from.0 as i64;
    let dy = threat.1 as i64 - from.1 as i64;
    let s = scale_to_length(dx, dy, speed);
    (saturate_i64(from.0 as i64 - s.0), saturate_i64(from.1 as i64 - s.1))
}

/// `from` moved by the direction `(ux, uy)` scaled to length `dist`.
pub fn offset_position(from: (i32, i32), ux: i64, uy: i64, dist: u16) -> (r: (i32, i32))
    requires
        -0x1_0000_0000 <= ux <= 0x1_0000_0000,
        -0x1_0000_0000 <= uy <= 0x1_0000_0000,
    ensures
        r == offset_target(from, ux as int, uy as int, dist as int),
{
    let s = scale_to_length(ux, uy, dist);
    (saturate_i64(from.0 as i64 + s.0), saturate_i64(from.1 as i64 + s.1))
}

fn squared_distance(a: (i32, i32), b: (i32, i32)) -> (r: i128)
    ensures
        r == dist2(a, b),
{
    let dx = b.0 as i128 - a.0 as i128;
    let dy = b.1 as i128 - a.1 as i128;
    assert(dx * dx <= 0x1_0000_0000_0000_0000 && dy * dy <= 0x1_0000_0000_0000_0000)
        by (nonlinear_arith)
        requires
            -0x1_0000_0000 <= dx <= 0x1_0000_0000,
            -0x1_0000_0000 <= dy <= 0x1_0000_0000,
    ;
    assert(dx * dx >= 0 && dy * dy >= 0) by (nonlinear_arith);
    dx * dx + dy * dy
}

/// Index of the nearest projectile within the dodge radius (the earliest
/// among equally near ones), or `None` when none is that close.
pub fn nearest_threat(enemy: (i32, i32), projectile_positions: &Vec<(i32, i32)>) -> (r: Option<
    usize,
>)
    ensures
        match r {
            Some(i) => nearest_threat_in(enemy, projectile_positions@) == Some(i as int) && i
                < projectile_positions@.len(),
            None => nearest_threat_in(enemy, projectile_positions@) == None::<int>,
        },
{
    let ghost ps = projectile_positions@;
    let mut best: Option<usize> = None;
    let mut best_d: i128 = 0;
    let mut i: usize = 0;
    while i < projectile_positions.len()
        invariant
            i <= ps.len(),
            ps == projectile_positions@,
            match best {
                Some(b) => nearest_threat_in(enemy, ps.subrange(0, i as int)) == Some(b as int) && b
                    < i && best_d == dist2(enemy, ps[b as int]),
                None => nearest_threat_in(enemy, ps.subrange(0, i as int)) == None::<int>,
            },
        decreases ps.len() - i,
    {
        let p = projectile_positions[i];
        let d = squared_distance(enemy, p);
        let ghost pre = ps.subrange(0, i as int);
        let ghost next = ps.subrange(0, i + 1);
        assert(next.drop_last() =~= pre);
        assert(next[i as int] == p);
        proof {
            if let Some(b) = best {
                assert(next[b as int] == ps[b as int]);
            }
        }
        let radius: i128 = DODGE_RADIUS as i128;
        assert(radius == 50);
        if d < radius * radius {
            match best {
                None => {
                    best = Some(i);
                    best_d = d;
                },
                Some(_) => {
                    if d < best_d {
                        best = Some(i);
                        best_d = d;
                    }
                },
            }
        }
        i += 1;
    }
    assert(ps.subrange(0, ps.len() as int) =~= ps);
    best
}


/// A projectile-aware dodge: away from the nearest threat by `speed`, or to
/// `fallback` when no projectile is within the radius.
pub fn dodge_position(
    enemy_position: (i32, i32),
    projectile_positions: &Vec<(i32, i32)>,
    speed: u16,
    fallback: (i32, i32),
) -> (r: (i32, i32))
    ensures
        r == dodge_target(enemy_position, projectile_positions@, speed, fallback),
{
    match nearest_threat(enemy_position, projectile_positions) {
        Some(i) => flee_position(enemy_position, projectile_positions[i], speed),
        None => fallback,
    }
}

/// A direction drawn uniformly from the disc of `DIRECTION_RESOLUTION`
/// (the zero vector only if every attempt fell outside it).
fn random_direction() -> (r: (i64, i64))
    ensures
        r.0 * r.0 + r.1 * r.1 <= DIRECTION_RESOLUTION * DIRECTION_RESOLUTION,
        -DIRECTION_RESOLUTION <= r.0 <= DIRECTION_RESOLUTION,
        -DIRECTION_RESOLUTION <= r.1 <= DIRECTION_RESOLUTION,
{
    let mut tries: u32 = 0;
    let mut found: bool = false;
    let mut ux: i64 = 0;
    let mut uy: i64 = 0;
    while tries < DIRECTION_ATTEMPTS && !found
        invariant
            ux * ux + uy * uy <= DIRECTION_RESOLUTION * DIRECTION_RESOLUTION,
            -DIRECTION_RESOLUTION <= ux <= DIRECTION_RESOLUTION,
            -DIRECTION_RESOLUTION <= uy <= DIRECTION_RESOLUTION,
        decreases DIRECTION_ATTEMPTS - tries,
    {
        let x = random_in_range(-DIRECTION_RESOLUTION, DIRECTION_RESOLUTION + 1);
        let y = random_in_range(-DIRECTION_RESOLUTION, DIRECTION_RESOLUTION + 1);
        assert(x * x <= 1_000_000 && y * y <= 1_000_000) by (nonlinear_arith)
            requires
                -1000 <= x <= 1000,
                -1000 <= y <= 1000,
        ;
        assert(x * x >= 0 && y * y >= 0) by (nonlinear_arith);
        if x * x + y * y <= DIRECTION_RESOLUTION * DIRECTION_RESOLUTION && (x != 0 || y != 0) {
            ux = x;
            uy = y;
            found = true;
        }
        tries += 1;
    }
    (ux, uy)
}

/// A blind dodge: a direction drawn uniformly from the disc and a distance
/// drawn from `0..DODGE_DISTANCE`.
pub fn random_dodge_position(from: (i32, i32)) -> (r: (i32, i32))
    ensures
        within_radius(r, from, DODGE_DISTANCE as int),
        exists|ux: int, uy: int, dist: int|
            #![trigger offset_target(from, ux, uy, dist)]
            0 <= dist < DODGE_DISTANCE && ux * ux + uy * uy <= DIRECTION_RESOLUTION
                * DIRECTION_RESOLUTION && r == offset_target(from, ux, uy, dist),
{
    let (ux, uy) = random_direction();
    let dist = random_in_range(0, DODGE_DISTANCE);
    let r = offset_position(from, ux, uy, dist as u16);
    proof {
        lemma_offset_within(from, ux as int, uy as int, dist as int);
        assert((dist + 1) * (dist + 1) <= DODGE_DISTANCE * DODGE_DISTANCE) by (nonlinear_arith)
            requires
                0 <= dist < DODGE_DISTANCE,
        ;
        assert(r == offset_target(from, ux as int, uy as int, dist as int));
    }
    r
}

/// Where an enemy dodges to: directly away from the nearest projectile
/// within `DODGE_RADIUS`, by `speed`; when none is that close, a random
/// point within `DODGE_DISTANCE` of where it stands.
pub fn calculate_dodge_position(
    enemy_position: (i32, i32),
    projectile_positions: Vec<(i32, i32)>,
    speed: u16,
) -> (r: (i32, i32))
    ensures
        nearest_threat_in(enemy_position, projectile_positions@) matches Some(i) ==> r
            == flee_target(enemy_position, projectile_positions@[i], speed),
        nearest_threat_in(enemy_position, projectile_positions@) matches Some(i)
            && projectile_positions@[i] != enemy_position ==> step_length_ok(
            enemy_position,
            r,
            speed as int,
        ),
        nearest_threat_in(enemy_position, projectile_positions@) is None ==> within_radius(
            r,
            enemy_position,
            DODGE_DISTANCE as int,
        ),
{
    match nearest_threat(enemy_position, &projectile_positions) {
        Some(i) => flee_position(enemy_position, projectile_positions[i], speed),
        None => random_dodge_position(enemy_position),
    }
}

/// A step away from `threat` is within one unit of `speed` long, and never
/// toward the threat on either axis (up to clamping at the edge of `i32`).
pub proof fn lemma_flee_step(from: (i32, i32), threat: (i32, i32), speed: u16)
    requires
        from != threat,
    ensures
        length_close_to(scaled(threat.0 - from.0, threat.1 - from.1, speed as int), speed as int),
        scaled(threat.0 - from.0, threat.1 - from.1, speed as int).0 * (threat.0 - from.0) >= 0,
        scaled(threat.0 - from.0, threat.1 - from.1, speed as int).1 * (threat.1 - from.1) >= 0,
{
    let dx = threat.0 - from.0;
    let dy = threat.1 - from.1;
    assert(dx * dx + dy * dy > 0) by (nonlinear_arith)
        requires
            dx != 0 || dy != 0,
    ;
    lemma_scaled_length(dx, dy, speed as int);
}

/// Fleeing a distinct point moves about `speed`: within one unit of it,
/// unless the move was clamped at the edge of `i32`.
pub proof fn lemma_flee_target_length(from: (i32, i32), threat: (i32, i32), speed: u16)
    requires
        from != threat,
    ensures
        step_length_ok(from, flee_target(from, threat, speed), speed as int),
{
    let dx = threat.0 - from.0;
    let dy = threat.1 - from.1;
    let len = speed as int;
    lemma_flee_step(from, threat, speed);
    let st = scaled(dx, dy, len);
    let t = flee_target(from, threat, speed);
    lemma_saturate_closer(from.0, -st.0);
    lemma_saturate_closer(from.1, -st.1);
    assert((-st.0) * (-st.0) == st.0 * st.0 && (-st.1) * (-st.1) == st.1 * st.1) by (nonlinear_arith);
    assert(dist2(from, t) == (t.0 - from.0) * (t.0 - from.0) + (t.1 - from.1) * (t.1 - from.1));
    if len >= 1 && away_from_edges(from, len + 1) {
        assert(-(len + 1) <= st.0 <= len + 1 && -(len + 1) <= st.1 <= len + 1) by (nonlinear_arith)
            requires
                st.0 * st.0 + st.1 * st.1 <= (len + 1) * (len + 1),
                len >= 0,
        ;
        assert(t.0 == from.0 - st.0);
        assert(t.1 == from.1 - st.1);
        assert(dist2(from, t) == st.0 * st.0 + st.1 * st.1) by (nonlinear_arith)
            requires
                t.0 - from.0 == -st.0,
                t.1 - from.1 == -st.1,
                dist2(from, t) == (t.0 - from.0) * (t.0 - from.0) + (t.1 - from.1) * (t.1 - from.1),
        ;
    }
}

/// A lone projectile `k` units to the right of the enemy, inside the dodge
/// radius, sends the enemy straight left by exactly `speed` (clamped to the
/// range of `i32`).
pub proof fn lemma_dodge_away_on_axis(enemy: (i32, i32), k: int, speed: u16, fallback: (i32, i32))
    requires
        0 < k < DODGE_RADIUS,
        enemy.0 + k <= i32::MAX,
    ensures
        dodge_target(enemy, seq![((enemy.0 + k) as i32, enemy.1)], speed, fallback) == (
            saturate(enemy.0 - speed),
            enemy.1,
        ),
{
    let p = ((enemy.0 + k) as i32, enemy.1);
    let ps = seq![p];
    let s = speed as int;
    assert(ps.drop_last() =~= Seq::<(i32, i32)>::empty());
    assert(dist2(enemy, p) == k * k);
    assert(k * k < DODGE_RADIUS * DODGE_RADIUS) by (nonlinear_arith)
        requires
            0 < k < DODGE_RADIUS,
    ;
    assert(ps[0] == p);
    assert(is_threat(enemy, ps[0]));
    assert(nearest_threat_in(enemy, ps.drop_last()) == None::<int>);
    assert(nearest_threat_in(enemy, ps) == Some(0int));
    let n = k * k + 0 * 0;
    assert(n == k * k && n > 0) by (nonlinear_arith)
        requires
            n == k * k + 0 * 0,
            k > 0,
    ;
    assert(is_rounded_root(k * k * (s * s), n, s)) by (nonlinear_arith)
        requires
            n == k * k,
            k > 0,
            s >= 0,
    ;
    lemma_rounded_root_is(k * k * (s * s), n, s);
    assert(0 * 0 * (s * s) == 0) by (nonlinear_arith);
    assert(is_rounded_root(0, n, 0)) by (nonlinear_arith)
        requires
            n > 0,
    ;
    lemma_rounded_root_is(0, n, 0);
    assert(scaled(k, 0, s) == (s, 0int));
}

} // verus!

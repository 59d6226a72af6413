//! Moving a displayed point toward its target at a fixed speed, without overshoot.

use vstd::prelude::*;
use crate::config::{INTERPOLATION_SPEED, MICROS_PER_SECOND};
use crate::vec2::{dist_sq, distance_squared, is_isqrt, isqrt, lemma_isqrt_exists, spec_isqrt, Vec2};

verus! {

/// How far a displayed point travels in a frame of `dt` microseconds, in thousandths of
/// a pixel, rounded down. A frame shorter than a hundred microseconds travels nothing.
pub open spec fn interpolation_travel(dt: int) -> int {
    (INTERPOLATION_SPEED * dt) / (MICROS_PER_SECOND as int)
}

/// `a * travel / dist`, rounded up.
pub open spec fn share_up(a: int, travel: int, dist: int) -> int {
    (a * travel + dist - 1) / dist
}

/// The share of `travel` that falls to a coordinate with the way `d` to go, where the
/// whole way is `dist`: `d * travel / dist`, rounded away from zero.
pub open spec fn share(d: int, travel: int, dist: int) -> int {
    if d >= 0 {
        share_up(d, travel, dist)
    } else {
        -share_up(-d, travel, dist)
    }
}

/// One frame of travel from `cur` toward `target`. Where the target is no farther than
/// `travel`, the point lands on it. Otherwise each coordinate moves by its share of
/// `travel` along the straight line to the target. A share is rounded up, so that a
/// coordinate that has a way to go moves whenever there is any travel, and the distance
/// shrinks by no less than `travel`; it never takes a coordinate past the target.
pub open spec fn approach(cur: Vec2, target: Vec2, travel: int) -> Vec2 {
    let d2 = dist_sq(target, cur);
    if d2 <= travel * travel {
        target
    } else {
        let dist = spec_isqrt(d2);
        Vec2 {
            x: (cur.x + share(target.x - cur.x, travel, dist)) as i32,
            y: (cur.y + share(target.y - cur.y, travel, dist)) as i32,
        }
    }
}

/// `n` frames of travel toward a target that does not move.
pub open spec fn approach_n(cur: Vec2, target: Vec2, travel: int, n: nat) -> Vec2
    decreases n,
{
    if n == 0 {
        cur
    } else {
        approach(approach_n(cur, target, travel, (n - 1) as nat), target, travel)
    }
}

/// `m` lies on the segment from `a` to `b`.
pub open spec fn between(a: int, m: int, b: int) -> bool {
    (a <= m <= b) || (b <= m <= a)
}

/// Absolute value.
pub open spec fn abs(x: int) -> int {
    if x >= 0 {
        x
    } else {
        -x
    }
}

proof fn lemma_share_up_bounds(a: int, travel: int, dist: int)
    by (nonlinear_arith)
    requires
        0 <= a,
        0 <= travel <= dist,
        0 < dist,
    ensures
        0 <= share_up(a, travel, dist) <= a,
        a * travel <= share_up(a, travel, dist) * dist,
        (share_up(a, travel, dist) - 1) * dist < a * travel,
        (a - share_up(a, travel, dist)) * dist <= a * (dist - travel),
{
    let s = share_up(a, travel, dist);
    let x = a * travel + dist - 1;
    assert(0 <= a * travel <= a * dist);
    assert(x == dist * (x / dist) + x % dist && 0 <= x % dist < dist);
    assert(s * dist == dist * s);
    assert((a * dist + dist - 1) / dist == a);
    assert(s <= a);
    assert((a - s) * dist == a * dist - s * dist);
    assert(a * (dist - travel) == a * dist - a * travel);
    assert((s - 1) * dist == s * dist - dist);
}

proof fn lemma_square_order(x: int, y: int)
    by (nonlinear_arith)
    requires
        0 <= x,
        0 <= y,
    ensures
        x <= y <==> x * x <= y * y,
{
}

proof fn lemma_square_monotone(a: int, b: int)
    by (nonlinear_arith)
    requires
        abs(a) <= abs(b),
    ensures
        a * a <= b * b,
{
}

proof fn lemma_square_of_product(x: int, y: int)
    by (nonlinear_arith)
    ensures
        (x * y) * (x * y) == (x * x) * (y * y),
{
}

proof fn lemma_cancel(p: int, q: int, k: int)
    by (nonlinear_arith)
    requires
        0 < k,
        p * k <= q * k,
    ensures
        p <= q,
{
}

/// What is left of the way after a step, where each coordinate kept at most its exact
/// part: no more than the way before less the travel.
proof fn lemma_remaining(ra: int, rb: int, a: int, b: int, travel: int, dist: int, reach: int)
    requires
        0 <= ra,
        0 <= rb,
        0 <= a,
        0 <= b,
        0 <= travel <= dist,
        0 < dist,
        0 <= reach,
        dist * dist <= a * a + b * b,
        a * a + b * b <= reach * reach,
        ra * dist <= a * (dist - travel),
        rb * dist <= b * (dist - travel),
    ensures
        travel <= reach,
        ra * ra + rb * rb <= (reach - travel) * (reach - travel),
{
    let left = dist - travel;
    lemma_square_order(dist, reach);
    assert(dist <= reach);
    assert(0 <= a * left) by (nonlinear_arith)
        requires
            0 <= a,
            0 <= left,
    ;
    assert(0 <= b * left) by (nonlinear_arith)
        requires
            0 <= b,
            0 <= left,
    ;
    assert(0 <= ra * dist && 0 <= rb * dist) by (nonlinear_arith)
        requires
            0 <= ra,
            0 <= rb,
            0 < dist,
    ;
    lemma_square_order(ra * dist, a * left);
    lemma_square_order(rb * dist, b * left);
    lemma_square_of_product(ra, dist);
    lemma_square_of_product(rb, dist);
    lemma_square_of_product(a, left);
    lemma_square_of_product(b, left);
    let d2 = dist * dist;
    let l2 = left * left;
    assert((ra * ra + rb * rb) * d2 <= (a * a + b * b) * l2) by (nonlinear_arith)
        requires
            (ra * ra) * d2 <= (a * a) * l2,
            (rb * rb) * d2 <= (b * b) * l2,
    ;
    assert((a * a + b * b) * l2 <= (reach * reach) * l2) by (nonlinear_arith)
        requires
            a * a + b * b <= reach * reach,
            0 <= l2,
    ;
    assert(0 <= l2) by (nonlinear_arith)
        requires
            l2 == left * left,
    ;
    lemma_square_of_product(reach, left);
    assert(0 <= reach * left <= (reach - travel) * dist) by (nonlinear_arith)
        requires
            0 <= travel <= dist,
            dist <= reach,
            left == dist - travel,
    ;
    lemma_square_order(reach * left, (reach - travel) * dist);
    lemma_square_of_product(reach - travel, dist);
    let goal = (reach - travel) * (reach - travel);
    assert((ra * ra + rb * rb) * d2 <= goal * d2);
    assert(0 < d2) by (nonlinear_arith)
        requires
            0 < dist,
            d2 == dist * dist,
    ;
    lemma_cancel(ra * ra + rb * rb, goal, d2);
}

proof fn lemma_dist_covers_travel(d2: int, travel: int)
    requires
        0 <= travel,
        travel * travel < d2,
    ensures
        spec_isqrt(d2) >= travel,
        spec_isqrt(d2) >= 1,
        is_isqrt(d2, spec_isqrt(d2)),
{
    assert(0 <= travel * travel) by (nonlinear_arith);
    lemma_isqrt_exists(d2);
    let r = spec_isqrt(d2);
    if r < travel {
        assert((r + 1) * (r + 1) <= travel * travel) by (nonlinear_arith)
            requires
                0 <= r,
                r + 1 <= travel,
        ;
    }
    if r == 0 {
        assert((r + 1) * (r + 1) == 1) by (nonlinear_arith)
            requires
                r == 0,
        ;
    }
}

/// A point on its target stays there.
pub proof fn lemma_on_target(target: Vec2, travel: int)
    ensures
        approach(target, target, travel) == target,
{
    assert(dist_sq(target, target) == 0) by (nonlinear_arith);
    assert(0 <= travel * travel) by (nonlinear_arith);
}

/// Without travel nothing moves: a frame shorter than a hundred microseconds leaves
/// the displayed point where it is.
pub proof fn lemma_no_travel(cur: Vec2, target: Vec2, dt: int)
    ensures
        approach(cur, target, 0) == cur,
        0 <= dt < 100 ==> interpolation_travel(dt) == 0,
        100 <= dt ==> interpolation_travel(dt) >= 1,
{
    let d2 = dist_sq(target, cur);
    assert(d2 == 0 ==> target == cur) by (nonlinear_arith)
        requires
            d2 == (target.x - cur.x) * (target.x - cur.x) + (target.y - cur.y) * (target.y - cur.y),
    ;
    assert(0 <= d2) by (nonlinear_arith)
        requires
            d2 == (target.x - cur.x) * (target.x - cur.x) + (target.y - cur.y) * (target.y - cur.y),
    ;
    if d2 > 0 {
        lemma_dist_covers_travel(d2, 0);
        let dist = spec_isqrt(d2);
        assert(abs(target.x - cur.x) * 0 == 0 && abs(target.y - cur.y) * 0 == 0)
            by (nonlinear_arith);
        assert((dist - 1) / dist == 0) by (nonlinear_arith)
            requires
                1 <= dist,
        ;
    }
    assert(INTERPOLATION_SPEED * dt == 10_000 * dt) by (nonlinear_arith)
        requires
            INTERPOLATION_SPEED == 10_000,
    ;
}

/// A frame of travel leaves each coordinate on the segment between where it was and
/// the target, so the point never passes the target and never moves away from it.
pub proof fn lemma_approach_between(cur: Vec2, target: Vec2, travel: int)
    requires
        0 <= travel,
    ensures
        between(cur.x as int, approach(cur, target, travel).x as int, target.x as int),
        between(cur.y as int, approach(cur, target, travel).y as int, target.y as int),
        dist_sq(approach(cur, target, travel), target) <= dist_sq(cur, target),
{
    let d2 = dist_sq(target, cur);
    let next = approach(cur, target, travel);
    if d2 <= travel * travel {
        assert(0 <= dist_sq(cur, target)) by (nonlinear_arith);
    } else {
        lemma_dist_covers_travel(d2, travel);
        let dist = spec_isqrt(d2);
        lemma_share_up_bounds(abs(target.x - cur.x), travel, dist);
        lemma_share_up_bounds(abs(target.y - cur.y), travel, dist);
        lemma_square_monotone(next.x - target.x, cur.x - target.x);
        lemma_square_monotone(next.y - target.y, cur.y - target.y);
    }
}

proof fn lemma_step_at_least(sa: int, sb: int, a: int, b: int, travel: int, dist: int)
    requires
        0 <= sa,
        0 <= sb,
        0 <= a,
        0 <= b,
        0 <= travel,
        0 < dist,
        dist * dist <= a * a + b * b,
        a * travel <= sa * dist,
        b * travel <= sb * dist,
    ensures
        travel * travel <= sa * sa + sb * sb,
{
    let t2 = travel * travel;
    let d2 = dist * dist;
    assert(0 <= a * travel && 0 <= b * travel && 0 <= t2 && 0 < d2) by (nonlinear_arith)
        requires
            0 <= a,
            0 <= b,
            0 <= travel,
            0 < dist,
            t2 == travel * travel,
            d2 == dist * dist,
    ;
    lemma_square_order(a * travel, sa * dist);
    lemma_square_order(b * travel, sb * dist);
    lemma_square_of_product(a, travel);
    lemma_square_of_product(b, travel);
    lemma_square_of_product(sa, dist);
    lemma_square_of_product(sb, dist);
    assert(t2 * d2 <= (sa * sa + sb * sb) * d2) by (nonlinear_arith)
        requires
            (a * a) * t2 <= (sa * sa) * d2,
            (b * b) * t2 <= (sb * sb) * d2,
            d2 <= a * a + b * b,
            0 <= t2,
    ;
    lemma_cancel(t2, sa * sa + sb * sb, d2);
}

proof fn lemma_step_below(sa: int, sb: int, a: int, b: int, travel: int, dist: int)
    requires
        0 <= sa,
        0 <= sb,
        0 <= a,
        0 <= b,
        0 <= travel <= dist,
        0 < dist,
        a * a + b * b < (dist + 1) * (dist + 1),
        (sa - 1) * dist < a * travel,
        (sb - 1) * dist < b * travel,
    ensures
        sa * sa + sb * sb < (travel + 3) * (travel + 3),
{
    let u = if sa >= 1 {
        sa - 1
    } else {
        0
    };
    let v = if sb >= 1 {
        sb - 1
    } else {
        0
    };
    let t2 = travel * travel;
    let d2 = dist * dist;
    let top = (travel + 1) * dist;
    assert(0 <= a * travel && 0 <= b * travel && 0 <= t2 && 0 < d2 && 0 <= u * dist && 0 <= v
        * dist && 0 * dist == 0) by (nonlinear_arith)
        requires
            0 <= a,
            0 <= b,
            0 <= travel,
            0 < dist,
            0 <= u,
            0 <= v,
            t2 == travel * travel,
            d2 == dist * dist,
    ;
    lemma_square_order(u * dist, a * travel);
    lemma_square_order(v * dist, b * travel);
    lemma_square_of_product(a, travel);
    lemma_square_of_product(b, travel);
    lemma_square_of_product(u, dist);
    lemma_square_of_product(v, dist);
    lemma_square_of_product(dist + 1, travel);
    lemma_square_of_product(travel + 1, dist);
    assert((u * u + v * v) * d2 <= ((dist + 1) * (dist + 1)) * t2) by (nonlinear_arith)
        requires
            (u * u) * d2 <= (a * a) * t2,
            (v * v) * d2 <= (b * b) * t2,
            a * a + b * b < (dist + 1) * (dist + 1),
            0 <= t2,
    ;
    assert(0 <= (dist + 1) * travel <= top) by (nonlinear_arith)
        requires
            0 <= travel <= dist,
            top == (travel + 1) * dist,
    ;
    lemma_square_order((dist + 1) * travel, top);
    let n2 = (travel + 1) * (travel + 1);
    assert((u * u + v * v) * d2 <= n2 * d2);
    lemma_cancel(u * u + v * v, n2, d2);
    assert(u <= travel + 1 && v <= travel + 1) by (nonlinear_arith)
        requires
            0 <= u,
            0 <= v,
            0 <= travel,
            u * u + v * v <= (travel + 1) * (travel + 1),
    ;
    assert(sa * sa + sb * sb <= (u + 1) * (u + 1) + (v + 1) * (v + 1)) by (nonlinear_arith)
        requires
            0 <= sa <= u + 1,
            0 <= sb <= v + 1,
    ;
    assert((u + 1) * (u + 1) + (v + 1) * (v + 1) == u * u + v * v + 2 * (u + v) + 2)
        by (nonlinear_arith);
    assert(n2 == travel * travel + 2 * travel + 1 && (travel + 3) * (travel + 3) == travel
        * travel + 6 * travel + 9) by (nonlinear_arith)
        requires
            n2 == (travel + 1) * (travel + 1),
    ;
}

/// The length of a step. Where the target is out of reach, the point moves by no less
/// than the travel and by less than the travel and three units: each coordinate moves by
/// its exact share, rounded up, where the whole way is taken at its root rounded down.
/// Where the target is within reach, the point moves onto it.
pub proof fn lemma_step_length(cur: Vec2, target: Vec2, travel: int)
    requires
        0 <= travel,
    ensures
        dist_sq(cur, target) <= travel * travel ==> approach(cur, target, travel) == target,
        dist_sq(cur, target) > travel * travel ==> travel * travel <= dist_sq(
            approach(cur, target, travel),
            cur,
        ) < (travel + 3) * (travel + 3),
{
    let d2 = dist_sq(target, cur);
    let next = approach(cur, target, travel);
    assert(d2 == dist_sq(cur, target)) by (nonlinear_arith)
        requires
            d2 == (target.x - cur.x) * (target.x - cur.x) + (target.y - cur.y) * (target.y
                - cur.y),
            dist_sq(cur, target) == (cur.x - target.x) * (cur.x - target.x) + (cur.y - target.y)
                * (cur.y - target.y),
    ;
    if d2 > travel * travel {
        lemma_dist_covers_travel(d2, travel);
        let dist = spec_isqrt(d2);
        let a = abs(target.x - cur.x);
        let b = abs(target.y - cur.y);
        lemma_share_up_bounds(a, travel, dist);
        lemma_share_up_bounds(b, travel, dist);
        let sa = share_up(a, travel, dist);
        let sb = share_up(b, travel, dist);
        assert(d2 == a * a + b * b) by (nonlinear_arith)
            requires
                d2 == (target.x - cur.x) * (target.x - cur.x) + (target.y - cur.y) * (target.y
                    - cur.y),
                a == abs(target.x - cur.x),
                b == abs(target.y - cur.y),
        ;
        lemma_step_at_least(sa, sb, a, b, travel, dist);
        lemma_step_below(sa, sb, a, b, travel, dist);
        assert(dist_sq(next, cur) == sa * sa + sb * sb) by (nonlinear_arith)
            requires
                dist_sq(next, cur) == (next.x - cur.x) * (next.x - cur.x) + (next.y - cur.y) * (
                next.y - cur.y),
                sa == abs(next.x - cur.x),
                sb == abs(next.y - cur.y),
        ;
    }
}

/// A frame shortens the way by no less than the travel. If the target is within
/// `reach` before the frame, then after it the point is on the target or the target is
/// within `reach - travel`.
pub proof fn lemma_approach_closes(cur: Vec2, target: Vec2, travel: int, reach: int)
    requires
        0 <= travel,
        0 <= reach,
        dist_sq(cur, target) <= reach * reach,
    ensures
        approach(cur, target, travel) == target || (travel <= reach && dist_sq(
            approach(cur, target, travel),
            target,
        ) <= (reach - travel) * (reach - travel)),
{
    let d2 = dist_sq(target, cur);
    let next = approach(cur, target, travel);
    if d2 > travel * travel {
        lemma_dist_covers_travel(d2, travel);
        let dist = spec_isqrt(d2);
        let a = abs(target.x - cur.x);
        let b = abs(target.y - cur.y);
        lemma_share_up_bounds(a, travel, dist);
        lemma_share_up_bounds(b, travel, dist);
        let ra = a - share_up(a, travel, dist);
        let rb = b - share_up(b, travel, dist);
        assert(d2 == a * a + b * b && d2 == dist_sq(cur, target)) by (nonlinear_arith)
            requires
                d2 == (target.x - cur.x) * (target.x - cur.x) + (target.y - cur.y) * (target.y
                    - cur.y),
                dist_sq(cur, target) == (cur.x - target.x) * (cur.x - target.x) + (cur.y
                    - target.y) * (cur.y - target.y),
                a == abs(target.x - cur.x),
                b == abs(target.y - cur.y),
        ;
        lemma_remaining(ra, rb, a, b, travel, dist, reach);
        assert(dist_sq(next, target) == ra * ra + rb * rb) by (nonlinear_arith)
            requires
                dist_sq(next, target) == (next.x - target.x) * (next.x - target.x) + (next.y
                    - target.y) * (next.y - target.y),
                ra == abs(next.x - target.x),
                rb == abs(next.y - target.y),
        ;
    }
}

proof fn lemma_approach_n_closes(cur: Vec2, target: Vec2, travel: int, reach: int, n: nat)
    requires
        0 <= travel,
        0 <= reach,
        dist_sq(cur, target) <= reach * reach,
    ensures
        approach_n(cur, target, travel, n) == target || (n * travel <= reach && dist_sq(
            approach_n(cur, target, travel, n),
            target,
        ) <= (reach - n * travel) * (reach - n * travel)),
    decreases n,
{
    if n > 0 {
        let prev = approach_n(cur, target, travel, (n - 1) as nat);
        lemma_approach_n_closes(cur, target, travel, reach, (n - 1) as nat);
        if prev == target {
            lemma_on_target(target, travel);
        } else {
            assert(n * travel == (n - 1) * travel + travel) by (nonlinear_arith);
            lemma_approach_closes(prev, target, travel, reach - (n - 1) * travel);
        }
    } else {
        assert(n * travel == 0) by (nonlinear_arith)
            requires
                n == 0,
        ;
    }
}

/// Interpolation converges. Toward a target that does not move and is within `reach`,
/// and with the same travel in every frame, the displayed point never gets farther from
/// the target, stays on it once there, and is exactly on it as soon as the frames'
/// travel adds up to `reach`: after `reach / travel` frames, rounded up, for every
/// travel that is not zero.
pub proof fn lemma_interpolation_converges(
    cur: Vec2,
    target: Vec2,
    travel: int,
    reach: int,
    n: nat,
)
    requires
        0 <= travel,
        0 <= reach,
        dist_sq(cur, target) <= reach * reach,
    ensures
        dist_sq(approach_n(cur, target, travel, n + 1), target) <= dist_sq(
            approach_n(cur, target, travel, n),
            target,
        ),
        approach_n(cur, target, travel, n) == target ==> approach_n(cur, target, travel, n + 1)
            == target,
        n * travel >= reach ==> approach_n(cur, target, travel, n) == target,
{
    let here = approach_n(cur, target, travel, n);
    assert(approach_n(cur, target, travel, n + 1) == approach(here, target, travel));
    lemma_approach_between(here, target, travel);
    if here == target {
        lemma_on_target(target, travel);
    }
    if n * travel >= reach {
        if n == 0 {
            assert(n * travel == 0) by (nonlinear_arith)
                requires
                    n == 0,
            ;
            assert(reach * reach == 0) by (nonlinear_arith)
                requires
                    reach == 0,
            ;
            assert(dist_sq(cur, target) == 0 ==> cur == target) by (nonlinear_arith)
                requires
                    dist_sq(cur, target) == (cur.x - target.x) * (cur.x - target.x) + (cur.y
                        - target.y) * (cur.y - target.y),
            ;
            assert(0 <= dist_sq(cur, target)) by (nonlinear_arith)
                requires
                    dist_sq(cur, target) == (cur.x - target.x) * (cur.x - target.x) + (cur.y
                        - target.y) * (cur.y - target.y),
            ;
        } else {
            let prev = approach_n(cur, target, travel, (n - 1) as nat);
            lemma_approach_n_closes(cur, target, travel, reach, (n - 1) as nat);
            if prev == target {
                lemma_on_target(target, travel);
            } else {
                let left = reach - (n - 1) * travel;
                assert(n * travel == (n - 1) * travel + travel) by (nonlinear_arith);
                lemma_square_order(left, travel);
                assert(dist_sq(target, prev) == dist_sq(prev, target)) by (nonlinear_arith)
                    requires
                        dist_sq(target, prev) == (target.x - prev.x) * (target.x - prev.x) + (
                        target.y - prev.y) * (target.y - prev.y),
                        dist_sq(prev, target) == (prev.x - target.x) * (prev.x - target.x) + (
                        prev.y - target.y) * (prev.y - target.y),
                ;
            }
        }
    }
}

/// Computes how far a displayed point travels in a frame of `dt` microseconds.
pub fn travel_for(dt: u32) -> (travel: u32)
    ensures
        travel == interpolation_travel(dt as int),
{
    let scaled: u64 = INTERPOLATION_SPEED as u64 * dt as u64;
    (scaled / MICROS_PER_SECOND as u64) as u32
}

fn step_axis(cur: i32, target: i32, travel: u32, dist: u64) -> (next: i32)
    requires
        travel <= dist,
        0 < dist < 0x2_0000_0000,
    ensures
        next == cur + share(target - cur, travel as int, dist as int),
{
    let way: u128 = if target >= cur {
        (target as i64 - cur as i64) as u128
    } else {
        (cur as i64 - target as i64) as u128
    };
    proof {
        lemma_share_up_bounds(way as int, travel as int, dist as int);
        assert(way * travel <= 0xffff_ffff * 0xffff_ffff) by (nonlinear_arith)
            requires
                0 <= way <= 0xffff_ffff,
                0 <= travel <= 0xffff_ffff,
        ;
    }
    let part: u128 = (way * (travel as u128) + (dist as u128 - 1)) / (dist as u128);
    if target >= cur {
        (cur as i64 + part as i64) as i32
    } else {
        (cur as i64 - part as i64) as i32
    }
}

/// Moves a displayed point one frame toward its target.
pub fn approach_point(cur: Vec2, target: Vec2, travel: u32) -> (next: Vec2)
    ensures
        next == approach(cur, target, travel as int),
{
    let d2: u128 = distance_squared(target, cur);
    assert(travel * travel <= 0xffff_ffff * 0xffff_ffff) by (nonlinear_arith)
        requires
            0 <= travel <= 0xffff_ffff,
    ;
    let reach: u128 = travel as u128 * travel as u128;
    if d2 <= reach {
        target
    } else {
        let dist: u64 = isqrt(d2);
        proof {
            lemma_dist_covers_travel(d2 as int, travel as int);
            if dist >= 0x2_0000_0000 {
                assert(dist * dist >= 0x2_0000_0000 * 0x2_0000_0000) by (nonlinear_arith)
                    requires
                        dist >= 0x2_0000_0000,
                ;
            }
            assert(d2 <= 2 * (0xffff_ffff * 0xffff_ffff)) by (nonlinear_arith)
                requires
                    d2 == (target.x - cur.x) * (target.x - cur.x) + (target.y - cur.y) * (target.y
                        - cur.y),
                    -0xffff_ffff <= target.x - cur.x <= 0xffff_ffff,
                    -0xffff_ffff <= target.y - cur.y <= 0xffff_ffff,
            ;
        }
        let x: i32 = step_axis(cur.x, target.x, travel, dist);
        let y: i32 = step_axis(cur.y, target.y, travel, dist);
        Vec2 { x, y }
    }
}

} // verus!

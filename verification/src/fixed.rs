//! Fixed-point screen coordinates and the integer edge function.
use vstd::prelude::*;
use vstd::arithmetic::div_mod::lemma_fundamental_div_mod_converse;

verus! {

/// Number of fractional bits of a fixed-point screen coordinate.
pub const FP_SHIFT: i32 = 9;

/// The fixed-point value of one pixel.
pub const FP_ONE: i32 = 512;

/// Twice the signed area of the triangle `(a, b, p)`: positive when `p` lies
/// to the right of the directed edge from `a` to `b` (screen y pointing down).
pub open spec fn cross(a: (int, int), b: (int, int), p: (int, int)) -> int {
    (p.0 - a.0) * (b.1 - a.1) - (p.1 - a.1) * (b.0 - a.0)
}

/// Whether a value fits an `i32`.
pub open spec fn fits_i32(v: int) -> bool {
    i32::MIN <= v <= i32::MAX
}

/// Every intermediate value of `edge_function_fixed(a, b, p)` fits an `i32`.
pub open spec fn edge_fits(a: (int, int), b: (int, int), p: (int, int)) -> bool {
    &&& fits_i32(b.0 - a.0)
    &&& fits_i32(b.1 - a.1)
    &&& fits_i32(p.0 - a.0)
    &&& fits_i32(p.1 - a.1)
    &&& fits_i32((p.0 - a.0) * (b.1 - a.1))
    &&& fits_i32((p.1 - a.1) * (b.0 - a.0))
    &&& fits_i32(cross(a, b, p))
}

/// Pair of `i32` as a pair of integers.
pub open spec fn pt(v: (i32, i32)) -> (int, int) {
    (v.0 as int, v.1 as int)
}

/// The edge function in fixed point: the cross product of `p - v0` with
/// `v1 - v0`, with its low `FP_SHIFT - 4` bits shifted out (rounded down).
pub fn edge_function_fixed(v0: (i32, i32), v1: (i32, i32), p: (i32, i32)) -> (r: i32)
    requires
        edge_fits(pt(v0), pt(v1), pt(p)),
    ensures
        r as int == cross(pt(v0), pt(v1), pt(p)) / 32,
{
    let dx = v1.0 - v0.0;
    let dy = v1.1 - v0.1;
    let c = (p.0 - v0.0) * dy - (p.1 - v0.1) * dx;
    let r = c >> (FP_SHIFT - 4) as u32;
    proof {
        lemma_shr5(c);
    }
    r
}

/// Whether every intermediate value of `edge_function_fixed(v0, v1, p)`
/// fits an `i32`, computed without overflowing.
pub fn edge_fits_exec(v0: (i32, i32), v1: (i32, i32), p: (i32, i32)) -> (b: bool)
    ensures
        b == edge_fits(pt(v0), pt(v1), pt(p)),
{
    let dx = v1.0 as i64 - v0.0 as i64;
    let dy = v1.1 as i64 - v0.1 as i64;
    let px = p.0 as i64 - v0.0 as i64;
    let py = p.1 as i64 - v0.1 as i64;
    let lo = i32::MIN as i64;
    let hi = i32::MAX as i64;
    if dx < lo || dx > hi || dy < lo || dy > hi || px < lo || px > hi || py < lo || py > hi {
        return false;
    }
    proof {
        assert(-0x8000_0000_0000_0000 < px * dy < 0x8000_0000_0000_0000) by (nonlinear_arith)
            requires
                -0x8000_0000 <= px < 0x8000_0000,
                -0x8000_0000 <= dy < 0x8000_0000,
        ;
        assert(-0x8000_0000_0000_0000 < py * dx < 0x8000_0000_0000_0000) by (nonlinear_arith)
            requires
                -0x8000_0000 <= py < 0x8000_0000,
                -0x8000_0000 <= dx < 0x8000_0000,
        ;
    }
    let m1 = px * dy;
    let m2 = py * dx;
    if m1 < lo || m1 > hi || m2 < lo || m2 > hi {
        return false;
    }
    let c = m1 - m2;
    c >= lo && c <= hi
}

/// The z component of the cross product of `b - a` and `c - a`: negative
/// when the screen triangle `a b c` winds clockwise.
pub open spec fn winding(a: (int, int), b: (int, int), c: (int, int)) -> int {
    (b.0 - a.0) * (c.1 - a.1) - (b.1 - a.1) * (c.0 - a.0)
}

/// Every intermediate value of `is_clockwise(a, b, c)` fits an `i32`.
pub open spec fn winding_fits(a: (int, int), b: (int, int), c: (int, int)) -> bool {
    &&& fits_i32(b.0 - a.0)
    &&& fits_i32(b.1 - a.1)
    &&& fits_i32(c.0 - a.0)
    &&& fits_i32(c.1 - a.1)
    &&& fits_i32((b.0 - a.0) * (c.1 - a.1))
    &&& fits_i32((b.1 - a.1) * (c.0 - a.0))
    &&& fits_i32(winding(a, b, c))
}

/// Whether the screen triangle `v0 v1 v2` winds clockwise, which makes it
/// face away from the viewer.
pub fn is_clockwise(v0: (i32, i32), v1: (i32, i32), v2: (i32, i32)) -> (b: bool)
    requires
        winding_fits(pt(v0), pt(v1), pt(v2)),
    ensures
        b == (winding(pt(v0), pt(v1), pt(v2)) < 0),
{
    let cross_z = (v1.0 - v0.0) * (v2.1 - v0.1) - (v1.1 - v0.1) * (v2.0 - v0.0);
    cross_z < 0
}

/// The winding of a triangle is its edge function taken the other way
/// round: a triangle winds clockwise exactly when its third corner lies on
/// the positive side of the edge from the first corner to the second.
pub proof fn law_winding_is_negated_edge(a: (int, int), b: (int, int), c: (int, int))
    ensures
        winding(a, b, c) == -cross(a, b, c),
        (winding(a, b, c) < 0) == (cross(a, b, c) > 0),
{
    assert((b.0 - a.0) * (c.1 - a.1) == (c.1 - a.1) * (b.0 - a.0)) by (nonlinear_arith);
    assert((b.1 - a.1) * (c.0 - a.0) == (c.0 - a.0) * (b.1 - a.1)) by (nonlinear_arith);
}

/// The three edge functions of a point add up to the edge function of the
/// triangle itself: the areas of the three sub-triangles that a point cuts
/// a triangle into sum to the triangle's area.
pub proof fn law_edge_functions_sum(v0: (int, int), v1: (int, int), v2: (int, int), p: (int, int))
    ensures
        cross(v1, v2, p) + cross(v2, v0, p) + cross(v0, v1, p) == cross(v0, v1, v2),
{
    lemma_cross_expand(v1, v2, p);
    lemma_cross_expand(v2, v0, p);
    lemma_cross_expand(v0, v1, p);
    lemma_cross_expand(v0, v1, v2);
}

/// The edge function written out as a sum of coordinate products.
proof fn lemma_cross_expand(a: (int, int), b: (int, int), p: (int, int))
    ensures
        cross(a, b, p) == p.0 * b.1 - p.0 * a.1 - a.0 * b.1 + a.0 * a.1 - (p.1 * b.0 - p.1 * a.0
            - a.1 * b.0 + a.1 * a.0),
{
    let (ax, ay, bx, by, px, py) = (a.0, a.1, b.0, b.1, p.0, p.1);
    assert((px - ax) * (by - ay) == px * by - px * ay - ax * by + ax * ay) by (nonlinear_arith);
    assert((py - ay) * (bx - ax) == py * bx - py * ax - ay * bx + ay * ax) by (nonlinear_arith);
}

/// An arithmetic shift right by nine is division by 512, rounded down.
pub proof fn lemma_shr9(x: i32)
    ensures
        (x >> 9u32) as int == x as int / 512,
{
    let q = x >> 9u32;
    assert(512 * (q as int) <= x as int && (x as int) < 512 * (q as int) + 512) by (bit_vector)
        requires
            q == x >> 9u32,
    ;
    lemma_fundamental_div_mod_converse(x as int, 512, q as int, x as int - 512 * (q as int));
}

/// An arithmetic shift right by five is division by 32, rounded down.
proof fn lemma_shr5(x: i32)
    ensures
        (x >> 5u32) as int == x as int / 32,
{
    let q = x >> 5u32;
    assert(32 * (q as int) <= x as int && (x as int) < 32 * (q as int) + 32) by (bit_vector)
        requires
            q == x >> 5u32,
    ;
    lemma_fundamental_div_mod_converse(x as int, 32, q as int, x as int - 32 * (q as int));
}

} // verus!

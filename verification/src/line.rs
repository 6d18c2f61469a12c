//! Integer line rasterization: the Bresenham walks used for wireframes.
use vstd::prelude::*;
use vstd::arithmetic::div_mod::{lemma_fundamental_div_mod, lemma_fundamental_div_mod_converse};
use crate::buffer::{Buffer, cell_index};

verus! {

/// Absolute value.
pub open spec fn iabs(v: int) -> int {
    if v < 0 {
        -v
    } else {
        v
    }
}

/// The coordinate `n` steps from `from` in the direction of `to`
/// (downwards when `from == to`, as the walks choose their step that way).
pub open spec fn toward(from: int, to: int, n: int) -> int {
    if from < to {
        from + n
    } else {
        from - n
    }
}

/// `minor * k / major` rounded to the nearest integer, halves rounded up
/// (0 for a zero-length major axis).
pub open spec fn round_half_up(minor: int, major: int, k: int) -> int {
    if major == 0 {
        0
    } else {
        (2 * minor * k + major) / (2 * major)
    }
}

/// Number of pixels on the line from `(x0, y0)` to `(x1, y1)`, both ends
/// included: one more than the longer axis.
pub open spec fn line_len(x0: int, y0: int, x1: int, y1: int) -> int {
    let a = iabs(x1 - x0);
    let b = iabs(y1 - y0);
    if b <= a {
        a + 1
    } else {
        b + 1
    }
}

/// The `k`-th pixel of the Bresenham line from `(x0, y0)` to `(x1, y1)`:
/// one pixel per step along the longer axis, the other coordinate being the
/// exact line's value rounded to the nearest integer (halves away from the
/// start).
pub open spec fn line_point(x0: int, y0: int, x1: int, y1: int, k: int) -> (int, int) {
    let a = iabs(x1 - x0);
    let b = iabs(y1 - y0);
    if b <= a {
        (toward(x0, x1, k), toward(y0, y1, round_half_up(b, a, k)))
    } else {
        (toward(x0, x1, round_half_up(a, b, k)), toward(y0, y1, k))
    }
}

/// State of the error-term walk after `cnt` pixels: `i` steps taken along x
/// and `j` along y, on a line of extent `a` by `b`.
pub open spec fn walk_inv(a: int, b: int, i: int, j: int, cnt: int) -> bool {
    &&& 0 <= i <= a
    &&& 0 <= j <= b
    &&& (b <= a && a > 0) ==> (i == cnt && -a < 2 * (a * j - b * i) <= a)
    &&& (b <= a && a == 0) ==> (i == 0 && j == 0 && cnt == 0)
    &&& b > a ==> (j == cnt && -b <= 2 * (a * j - b * i) < b)
}

/// The rounding used by `line_point`, characterised by its error band.
proof fn lemma_round_half_up(minor: int, major: int, k: int, q: int)
    requires
        major > 0,
        -major < 2 * (major * q - minor * k) <= major,
    ensures
        round_half_up(minor, major, k) == q,
{
    let n = 2 * minor * k + major;
    let r = n - q * (2 * major);
    assert(q * (2 * major) == 2 * (major * q)) by (nonlinear_arith);
    assert(2 * minor * k == 2 * (minor * k)) by (nonlinear_arith);
    lemma_fundamental_div_mod_converse(n, 2 * major, q, r);
}

/// The pixel reached by the walk is the specified one.
proof fn lemma_walk_point(x0: int, y0: int, x1: int, y1: int, i: int, j: int, cnt: int)
    requires
        walk_inv(iabs(x1 - x0), iabs(y1 - y0), i, j, cnt),
    ensures
        line_point(x0, y0, x1, y1, cnt) == (toward(x0, x1, i), toward(y0, y1, j)),
{
    let a = iabs(x1 - x0);
    let b = iabs(y1 - y0);
    if b <= a {
        if a > 0 {
            lemma_round_half_up(b, a, cnt, j);
        }
    } else {
        assert(-b < 2 * (b * i - a * cnt) <= b) by (nonlinear_arith)
            requires
                -b <= 2 * (a * j - b * i) < b,
                j == cnt,
        ;
        lemma_round_half_up(a, b, cnt, i);
    }
}

/// The walk is at its last pixel exactly when it has produced all but one
/// pixel of the line.
proof fn lemma_walk_end(a: int, b: int, i: int, j: int, cnt: int)
    requires
        walk_inv(a, b, i, j, cnt),
    ensures
        (i == a && j == b) <==> cnt == (if b <= a {
            a
        } else {
            b
        }),
{
    if b <= a {
        if a > 0 && i == a {
            // the band leaves only j == b on the last column
            assert(j == b) by (nonlinear_arith)
                requires
                    a > 0,
                    0 <= j <= b,
                    b <= a,
                    -a < 2 * (a * j - b * a) <= a,
            ;
        }
    } else {
        if j == b {
            assert(i == a) by (nonlinear_arith)
                requires
                    b > a,
                    0 <= i <= a,
                    -b <= 2 * (a * b - b * i) < b,
            ;
        }
    }
}

/// One step of the error-term walk keeps its invariant: the x step is taken
/// when twice the error is at least `-b`, the y step when it is at most `a`,
/// and at least one of them is taken.
proof fn lemma_walk_step(a: int, b: int, i: int, j: int, cnt: int)
    requires
        walk_inv(a, b, i, j, cnt),
        !(i == a && j == b),
    ensures
        ({
            let e2 = 2 * (a - b + (a * j - b * i));
            let i2 = if e2 >= -b {
                i + 1
            } else {
                i
            };
            let j2 = if e2 <= a {
                j + 1
            } else {
                j
            };
            &&& walk_inv(a, b, i2, j2, cnt + 1)
            &&& (i2 - i) + (j2 - j) >= 1
            &&& a * j2 - b * i2 == (a * j - b * i) + (if e2 <= a {
                a
            } else {
                0
            }) - (if e2 >= -b {
                b
            } else {
                0
            })
        }),
{
    let d = a * j - b * i;
    let e2 = 2 * (a - b + d);
    lemma_walk_end(a, b, i, j, cnt);
    assert(a * (j + 1) - b * (i + 1) == d + a - b) by (nonlinear_arith)
        requires
            d == a * j - b * i,
    ;
    assert(a * j - b * (i + 1) == d - b) by (nonlinear_arith)
        requires
            d == a * j - b * i,
    ;
    assert(a * (j + 1) - b * i == d + a) by (nonlinear_arith)
        requires
            d == a * j - b * i,
    ;
    if b <= a {
        assert(a > 0);
        assert(i < a);
        if e2 <= a {
            assert(j + 1 <= b) by (nonlinear_arith)
                requires
                    a > 0,
                    i + 1 <= a,
                    b <= a,
                    0 <= b,
                    2 * (a * (j + 1) - b * (i + 1)) <= a,
            ;
        }
    } else {
        assert(j < b);
        if e2 >= -b {
            assert(i + 1 <= a) by (nonlinear_arith)
                requires
                    b > a,
                    j + 1 <= b,
                    a >= 0,
                    2 * (a * (j + 1) - b * (i + 1)) >= -b,
            ;
        }
    }
}

/// Bresenham's line from `(x0, y0)` to `(x1, y1)`: every pixel of the line,
/// in order from the start to the end, as given by `line_point`.
pub fn bresenham(x0: i32, y0: i32, x1: i32, y1: i32) -> (points: Vec<(i32, i32)>)
    ensures
        points@.len() == line_len(x0 as int, y0 as int, x1 as int, y1 as int),
        forall|k: int|
            0 <= k < points@.len() ==> {
                let p = line_point(x0 as int, y0 as int, x1 as int, y1 as int, k);
                #[trigger] points@[k] == (p.0 as i32, p.1 as i32) && p.0 == points@[k].0 as int
                    && p.1 == points@[k].1 as int
            },
{
    let ex = x1 as i64;
    let ey = y1 as i64;
    let mut x = x0 as i64;
    let mut y = y0 as i64;
    let dx: i64 = if ex >= x {
        ex - x
    } else {
        x - ex
    };
    let dy: i64 = if ey >= y {
        y - ey
    } else {
        ey - y
    };
    let sx: i64 = if x < ex {
        1
    } else {
        -1
    };
    let sy: i64 = if y < ey {
        1
    } else {
        -1
    };
    let mut err: i64 = dx + dy;
    let mut points: Vec<(i32, i32)> = Vec::new();
    let ghost a = dx as int;
    let ghost b = -dy as int;
    let ghost mut i: int = 0;
    let ghost mut j: int = 0;
    assert(walk_inv(a, b, 0, 0, 0)) by (nonlinear_arith)
        requires
            a >= 0,
            b >= 0,
    ;
    loop
        invariant_except_break
            walk_inv(a, b, i, j, points@.len() as int),
            err as int == a - b + (a * j - b * i),
        invariant
            a == iabs(x1 - x0),
            b == iabs(y1 - y0),
            dx == a,
            dy == -b,
            ex == x1,
            ey == y1,
            sx == (if x0 < x1 {
                1int
            } else {
                -1int
            }),
            sy == (if y0 < y1 {
                1int
            } else {
                -1int
            }),
            0 <= i <= a,
            0 <= j <= b,
            x == toward(x0 as int, x1 as int, i),
            y == toward(y0 as int, y1 as int, j),
            forall|k: int|
                0 <= k < points@.len() ==> {
                    let p = line_point(x0 as int, y0 as int, x1 as int, y1 as int, k);
                    #[trigger] points@[k] == (p.0 as i32, p.1 as i32) && p.0 == points@[k].0 as int
                        && p.1 == points@[k].1 as int
                },
        ensures
            points@.len() == line_len(x0 as int, y0 as int, x1 as int, y1 as int),
        decreases (a - i) + (b - j),
    {
        proof {
            lemma_walk_point(x0 as int, y0 as int, x1 as int, y1 as int, i, j, points@.len() as int);
        }
        points.push((x as i32, y as i32));
        if x == ex && y == ey {
            proof {
                lemma_walk_end(a, b, i, j, (points@.len() - 1) as int);
            }
            break;
        }
        proof {
            lemma_walk_step(a, b, i, j, (points@.len() - 1) as int);
        }
        let e2 = 2 * err;
        if e2 >= dy {
            err = err + dy;
            x = x + sx;
            proof {
                i = i + 1;
            }
        }
        if e2 <= dx {
            err = err + dx;
            y = y + sy;
            proof {
                j = j + 1;
            }
        }
    }
    points
}

/// The error band of `round_half_up`: the rounded value is within half a
/// step of the exact one.
proof fn lemma_round_half_up_band(minor: int, major: int, k: int)
    requires
        major > 0,
    ensures
        -major < 2 * (major * round_half_up(minor, major, k) - minor * k) <= major,
{
    let n = 2 * minor * k + major;
    let q = n / (2 * major);
    lemma_fundamental_div_mod(n, 2 * major);
    assert((2 * major) * q == 2 * (major * q)) by (nonlinear_arith);
    assert(2 * minor * k == 2 * (minor * k)) by (nonlinear_arith);
}

/// A Bresenham line starts at its start point and ends at its end point.
pub proof fn law_line_endpoints(x0: int, y0: int, x1: int, y1: int)
    ensures
        line_point(x0, y0, x1, y1, 0) == (x0, y0),
        line_point(x0, y0, x1, y1, line_len(x0, y0, x1, y1) - 1) == (x1, y1),
{
    let a = iabs(x1 - x0);
    let b = iabs(y1 - y0);
    if b <= a {
        if a > 0 {
            assert(-a < 2 * (a * 0 - b * 0) <= a) by (nonlinear_arith)
                requires
                    a > 0,
            ;
            lemma_round_half_up(b, a, 0, 0);
            assert(-a < 2 * (a * b - b * a) <= a) by (nonlinear_arith)
                requires
                    a > 0,
            ;
            lemma_round_half_up(b, a, a, b);
        }
    } else {
        assert(-b < 2 * (b * 0 - a * 0) <= b) by (nonlinear_arith)
            requires
                b > 0,
        ;
        lemma_round_half_up(a, b, 0, 0);
        assert(-b < 2 * (b * a - a * b) <= b) by (nonlinear_arith)
            requires
                b > 0,
        ;
        lemma_round_half_up(a, b, b, a);
    }
}

/// Consecutive pixels of a Bresenham line touch: they differ by exactly one
/// along the longer axis and by at most one along the other, so the line has
/// neither gaps nor repeated pixels.
pub proof fn law_line_connected(x0: int, y0: int, x1: int, y1: int, k: int)
    requires
        0 <= k,
        k + 1 < line_len(x0, y0, x1, y1),
    ensures
        ({
            let p = line_point(x0, y0, x1, y1, k);
            let q = line_point(x0, y0, x1, y1, k + 1);
            &&& iabs(q.0 - p.0) <= 1
            &&& iabs(q.1 - p.1) <= 1
            &&& (iabs(x1 - x0) >= iabs(y1 - y0) ==> iabs(q.0 - p.0) == 1)
            &&& (iabs(x1 - x0) < iabs(y1 - y0) ==> iabs(q.1 - p.1) == 1)
        }),
{
    let a = iabs(x1 - x0);
    let b = iabs(y1 - y0);
    if b <= a {
        lemma_round_half_up_band(b, a, k);
        lemma_round_half_up_band(b, a, k + 1);
        let r0 = round_half_up(b, a, k);
        let r1 = round_half_up(b, a, k + 1);
        assert(0 <= r1 - r0 <= 1) by (nonlinear_arith)
            requires
                a > 0,
                0 <= b <= a,
                -a < 2 * (a * r0 - b * k) <= a,
                -a < 2 * (a * r1 - b * (k + 1)) <= a,
        ;
    } else {
        lemma_round_half_up_band(a, b, k);
        lemma_round_half_up_band(a, b, k + 1);
        let r0 = round_half_up(a, b, k);
        let r1 = round_half_up(a, b, k + 1);
        assert(0 <= r1 - r0 <= 1) by (nonlinear_arith)
            requires
                b > 0,
                0 <= a < b,
                -b < 2 * (b * r0 - a * k) <= b,
                -b < 2 * (b * r1 - a * (k + 1)) <= b,
        ;
    }
}

/// Every pixel of a Bresenham line lies within half a pixel of the exact
/// segment, measured across its longer axis: twice the cross product of the
/// pixel's offset with the line's direction is at most the longer extent.
pub proof fn law_line_near_segment(x0: int, y0: int, x1: int, y1: int, k: int)
    requires
        0 <= k < line_len(x0, y0, x1, y1),
    ensures
        ({
            let p = line_point(x0, y0, x1, y1, k);
            2 * iabs((p.0 - x0) * (y1 - y0) - (p.1 - y0) * (x1 - x0)) <= line_len(x0, y0, x1, y1)
                - 1
        }),
{
    let a = iabs(x1 - x0);
    let b = iabs(y1 - y0);
    let p = line_point(x0, y0, x1, y1, k);
    let sx: int = if x0 < x1 {
        1
    } else {
        -1
    };
    let sy: int = if y0 < y1 {
        1
    } else {
        -1
    };
    if b <= a {
        if a == 0 {
            assert(p == (x0, y0));
            assert((p.0 - x0) * (y1 - y0) - (p.1 - y0) * (x1 - x0) == 0) by (nonlinear_arith)
                requires
                    p.0 == x0,
                    p.1 == y0,
            ;
        } else {
            lemma_round_half_up_band(b, a, k);
            let j = round_half_up(b, a, k);
            assert(p.0 - x0 == sx * k);
            assert(p.1 - y0 == sy * j);
            assert(x1 - x0 == sx * a);
            assert(y1 - y0 == sy * b);
            assert(2 * iabs((p.0 - x0) * (y1 - y0) - (p.1 - y0) * (x1 - x0)) <= a) by (
            nonlinear_arith)
                requires
                    sx == 1 || sx == -1,
                    sy == 1 || sy == -1,
                    p.0 - x0 == sx * k,
                    p.1 - y0 == sy * j,
                    x1 - x0 == sx * a,
                    y1 - y0 == sy * b,
                    -a < 2 * (a * j - b * k) <= a,
            ;
        }
    } else {
        lemma_round_half_up_band(a, b, k);
        let i = round_half_up(a, b, k);
        assert(p.0 - x0 == sx * i);
        assert(p.1 - y0 == sy * k);
        assert(x1 - x0 == sx * a);
        assert(y1 - y0 == sy * b);
        assert(2 * iabs((p.0 - x0) * (y1 - y0) - (p.1 - y0) * (x1 - x0)) <= b) by (nonlinear_arith)
            requires
                sx == 1 || sx == -1,
                sy == 1 || sy == -1,
                p.0 - x0 == sx * i,
                p.1 - y0 == sy * k,
                x1 - x0 == sx * a,
                y1 - y0 == sy * b,
                -b < 2 * (b * i - a * k) <= b,
        ;
    }
}

/// Pixel `k` of the line lands inside a `width` by `height` buffer, on cell `c`.
pub open spec fn line_pixel_on(
    x0: int,
    y0: int,
    x1: int,
    y1: int,
    width: int,
    height: int,
    k: int,
    c: int,
) -> bool {
    let p = line_point(x0, y0, x1, y1, k);
    &&& 0 <= p.0 < width
    &&& 0 <= p.1 < height
    &&& cell_index(width, p.0, p.1) == c
}

/// One of the first `count` pixels of the line lands on cell `c`.
pub open spec fn line_hits(
    x0: int,
    y0: int,
    x1: int,
    y1: int,
    width: int,
    height: int,
    count: int,
    c: int,
) -> bool {
    exists|k: int| 0 <= k < count && #[trigger] line_pixel_on(x0, y0, x1, y1, width, height, k, c)
}

/// Draws the line from `(x0, y0)` towards `(x1, y1)` with `ch`, leaving out
/// its last pixel (the end point); pixels outside the buffer are skipped.
pub fn draw_line(buffer: &mut Buffer, x0: usize, y0: usize, x1: usize, y1: usize, ch: char)
    requires
        old(buffer).wf(),
        x0 <= isize::MAX,
        y0 <= isize::MAX,
        x1 <= isize::MAX,
        y1 <= isize::MAX,
    ensures
        final(buffer).width == old(buffer).width,
        final(buffer).height == old(buffer).height,
        final(buffer).wf(),
        forall|c: int|
            0 <= c < old(buffer).data@.len() ==> #[trigger] final(buffer).data@[c] == (if line_hits(
                x0 as int,
                y0 as int,
                x1 as int,
                y1 as int,
                old(buffer).width as int,
                old(buffer).height as int,
                line_len(x0 as int, y0 as int, x1 as int, y1 as int) - 1,
                c,
            ) {
                ch
            } else {
                old(buffer).data@[c]
            }),
{
    let ghost w = buffer.width as int;
    let ghost h = buffer.height as int;
    let ghost start = buffer.data@;
    let ghost (gx0, gy0, gx1, gy1) = (x0 as int, y0 as int, x1 as int, y1 as int);
    let ex = x1 as i128;
    let ey = y1 as i128;
    let mut x = x0 as i128;
    let mut y = y0 as i128;
    let dx: i128 = if ex >= x {
        ex - x
    } else {
        x - ex
    };
    let dy: i128 = if ey >= y {
        y - ey
    } else {
        ey - y
    };
    let sx: i128 = if x < ex {
        1
    } else {
        -1
    };
    let sy: i128 = if y < ey {
        1
    } else {
        -1
    };
    let mut err: i128 = dx + dy;
    let ghost a = dx as int;
    let ghost b = -dy as int;
    let ghost mut i: int = 0;
    let ghost mut j: int = 0;
    let ghost mut cnt: int = 0;
    assert(walk_inv(a, b, 0, 0, 0)) by (nonlinear_arith)
        requires
            a >= 0,
            b >= 0,
    ;
    while x != ex || y != ey
        invariant
            a == iabs(gx1 - gx0),
            b == iabs(gy1 - gy0),
            gx0 == x0,
            gy0 == y0,
            gx1 == x1,
            gy1 == y1,
            dx == a,
            dy == -b,
            ex == x1,
            ey == y1,
            sx == (if x0 < x1 {
                1int
            } else {
                -1int
            }),
            sy == (if y0 < y1 {
                1int
            } else {
                -1int
            }),
            walk_inv(a, b, i, j, cnt),
            err as int == a - b + (a * j - b * i),
            x == toward(gx0, gx1, i),
            y == toward(gy0, gy1, j),
            buffer.width == w,
            buffer.height == h,
            buffer.wf(),
            x0 <= isize::MAX,
            y0 <= isize::MAX,
            x1 <= isize::MAX,
            y1 <= isize::MAX,
            buffer.data@.len() == start.len(),
            forall|c: int|
                0 <= c < start.len() ==> #[trigger] buffer.data@[c] == (if line_hits(
                    gx0,
                    gy0,
                    gx1,
                    gy1,
                    w,
                    h,
                    cnt,
                    c,
                ) {
                    ch
                } else {
                    start[c]
                }),
        decreases (a - i) + (b - j),
    {
        proof {
            lemma_walk_point(gx0, gy0, gx1, gy1, i, j, cnt);
            lemma_walk_step(a, b, i, j, cnt);
        }
        let ghost before = buffer.data@;
        assert(0 <= x <= isize::MAX && 0 <= y <= isize::MAX);
        let ux = x as usize;
        let uy = y as usize;
        assert(line_point(gx0, gy0, gx1, gy1, cnt) == (ux as int, uy as int));
        proof {
            if ux < w && uy < h {
                assert(0 <= ux + uy * w < w * h) by (nonlinear_arith)
                    requires
                        ux < w,
                        uy < h,
                ;
            }
        }
        buffer.set_char(ux, uy, ch);
        proof {
            assert(buffer.data@.len() == before.len());
            assert forall|c: int| 0 <= c < start.len() implies #[trigger] buffer.data@[c] == (
            if line_hits(gx0, gy0, gx1, gy1, w, h, cnt + 1, c) {
                ch
            } else {
                start[c]
            }) by {
                if line_pixel_on(gx0, gy0, gx1, gy1, w, h, cnt, c) {
                    assert(line_hits(gx0, gy0, gx1, gy1, w, h, cnt + 1, c));
                } else {
                    if line_hits(gx0, gy0, gx1, gy1, w, h, cnt + 1, c) {
                        let k = choose|k: int|
                            0 <= k < cnt + 1 && #[trigger] line_pixel_on(
                                gx0,
                                gy0,
                                gx1,
                                gy1,
                                w,
                                h,
                                k,
                                c,
                            );
                        assert(k < cnt);
                        assert(line_hits(gx0, gy0, gx1, gy1, w, h, cnt, c));
                    }
                    if line_hits(gx0, gy0, gx1, gy1, w, h, cnt, c) {
                        let k = choose|k: int|
                            0 <= k < cnt && #[trigger] line_pixel_on(
                                gx0,
                                gy0,
                                gx1,
                                gy1,
                                w,
                                h,
                                k,
                                c,
                            );
                        assert(line_hits(gx0, gy0, gx1, gy1, w, h, cnt + 1, c));
                    }
                }
            }
        }
        let e2 = 2 * err;
        if e2 >= dy {
            err = err + dy;
            x = x + sx;
            proof {
                i = i + 1;
            }
        }
        if e2 <= dx {
            err = err + dx;
            y = y + sy;
            proof {
                j = j + 1;
            }
        }
        proof {
            cnt = cnt + 1;
        }
    }
    proof {
        lemma_walk_end(a, b, i, j, cnt);
    }
}

} // verus!

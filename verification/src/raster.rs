//! The integer parts of the triangle rasterizer: wireframe edge walks and
//! fixed-point coverage.
use vstd::prelude::*;
use vstd::arithmetic::div_mod::lemma_fundamental_div_mod_converse;
use crate::line::iabs;
use crate::fixed::{
    FP_SHIFT,
    cross,
    edge_fits,
    edge_fits_exec,
    edge_function_fixed,
    lemma_shr9,
    pt,
};

verus! {

/// `minor * k / major` rounded to the nearest integer, halves rounded
/// down (0 for a zero-length major axis).
pub open spec fn round_half_down(minor: int, major: int, k: int) -> int {
    if major == 0 {
        0
    } else {
        (2 * minor * k + major - 1) / (2 * major)
    }
}

/// A pixel produced by a wireframe edge walk: its screen position and how
/// many columns of the walk precede it.
#[derive(Debug, Clone, Copy, PartialEq, Eq, Structural)]
pub struct WirePixel {
    pub x: i32,
    pub y: i32,
    pub step: i64,
}

/// The pixels of one wireframe edge. The walk runs along the longer axis
/// from the end with the smaller coordinate on it; `reversed` tells that
/// this is the second end point given, and `span` is the number of steps
/// of the walk, so that `step / span` locates a pixel along the walk.
#[derive(Debug, PartialEq, Eq)]
pub struct WireLine {
    pub reversed: bool,
    pub span: i64,
    pub pixels: Vec<WirePixel>,
}

/// Whether an edge from `(x0, y0)` to `(x1, y1)` is walked along y.
pub open spec fn wire_steep(x0: int, y0: int, x1: int, y1: int) -> bool {
    iabs(x0 - x1) < iabs(y0 - y1)
}

/// Whether the walk starts from the second end point.
pub open spec fn wire_reversed(x0: int, y0: int, x1: int, y1: int) -> bool {
    if wire_steep(x0, y0, x1, y1) {
        y0 > y1
    } else {
        x0 > x1
    }
}

/// The start and end of the walk in walk coordinates (column along the
/// longer axis, row along the other).
pub open spec fn wire_ends(x0: int, y0: int, x1: int, y1: int) -> (int, int, int, int) {
    let (c0, r0, c1, r1) = if wire_steep(x0, y0, x1, y1) {
        (y0, x0, y1, x1)
    } else {
        (x0, y0, x1, y1)
    };
    if c0 > c1 {
        (c1, r1, c0, r0)
    } else {
        (c0, r0, c1, r1)
    }
}

/// Number of steps of the walk.
pub open spec fn wire_span(x0: int, y0: int, x1: int, y1: int) -> int {
    let (c0, r0, c1, r1) = wire_ends(x0, y0, x1, y1);
    c1 - c0
}

/// The screen pixel at step `k` of the walk: one column per step, the row
/// rounded to the nearest integer with halves towards the start.
pub open spec fn wire_point(x0: int, y0: int, x1: int, y1: int, k: int) -> WirePixel {
    let (c0, r0, c1, r1) = wire_ends(x0, y0, x1, y1);
    let col = c0 + k;
    let off = round_half_down(iabs(r1 - r0), c1 - c0, k);
    let row = if r1 > r0 {
        r0 + off
    } else {
        r0 - off
    };
    if wire_steep(x0, y0, x1, y1) {
        WirePixel { x: row as i32, y: col as i32, step: k as i64 }
    } else {
        WirePixel { x: col as i32, y: row as i32, step: k as i64 }
    }
}

/// Every step of the walk, on screen or not.
pub open spec fn wire_walk(x0: int, y0: int, x1: int, y1: int) -> Seq<WirePixel> {
    Seq::new((wire_span(x0, y0, x1, y1) + 1) as nat, |k: int| wire_point(x0, y0, x1, y1, k))
}

/// The screen position of a walk pixel lies on a `width` by `height` screen.
pub open spec fn on_screen(width: int, height: int, p: WirePixel) -> bool {
    0 <= p.x < width && 0 <= p.y < height
}

/// Bounding box of the pixels a triangle may cover, clamped to the screen;
/// both ends of each range are included.
#[derive(Debug, Clone, Copy, PartialEq, Eq, Structural)]
pub struct PixelBounds {
    pub min_x: i32,
    pub max_x: i32,
    pub min_y: i32,
    pub max_y: i32,
}

/// A pixel covered by a fixed-point triangle, with its three edge values
/// (each opposite the vertex of the same number).
#[derive(Debug, Clone, Copy, PartialEq, Eq, Structural)]
pub struct FixedFragment {
    pub x: i32,
    pub y: i32,
    pub w0: i32,
    pub w1: i32,
    pub w2: i32,
}

pub open spec fn min3(a: int, b: int, c: int) -> int {
    if a <= b && a <= c {
        a
    } else if b <= c {
        b
    } else {
        c
    }
}

pub open spec fn max3(a: int, b: int, c: int) -> int {
    if a >= b && a >= c {
        a
    } else if b >= c {
        b
    } else {
        c
    }
}

pub open spec fn imax(a: int, b: int) -> int {
    if a >= b {
        a
    } else {
        b
    }
}

pub open spec fn imin(a: int, b: int) -> int {
    if a <= b {
        a
    } else {
        b
    }
}

/// Pixel bounds of the fixed-point triangle `v0 v1 v2` on a `width` by
/// `height` screen: the pixels holding its extreme vertices, clamped.
pub open spec fn fixed_bounds(
    width: int,
    height: int,
    v0: (int, int),
    v1: (int, int),
    v2: (int, int),
) -> (int, int, int, int) {
    (
        imax(min3(v0.0, v1.0, v2.0) / 512, 0),
        imin(max3(v0.0, v1.0, v2.0) / 512, width - 1),
        imax(min3(v0.1, v1.1, v2.1) / 512, 0),
        imin(max3(v0.1, v1.1, v2.1) / 512, height - 1),
    )
}

/// Pixel `(x, y)` with the edge values of its corner `(x, y) * FP_ONE`.
pub open spec fn fixed_cell(v0: (int, int), v1: (int, int), v2: (int, int), x: int, y: int) -> FixedFragment {
    let p = (x * 512, y * 512);
    FixedFragment {
        x: x as i32,
        y: y as i32,
        w0: (cross(v1, v2, p) / 32) as i32,
        w1: (cross(v2, v0, p) / 32) as i32,
        w2: (cross(v0, v1, p) / 32) as i32,
    }
}

/// The pixels `min_x ..= max_x` of row `y`, in order.
pub open spec fn fixed_row_cells(
    v0: (int, int),
    v1: (int, int),
    v2: (int, int),
    min_x: int,
    max_x: int,
    y: int,
) -> Seq<FixedFragment> {
    Seq::new(imax(max_x - min_x + 1, 0) as nat, |i: int| fixed_cell(v0, v1, v2, min_x + i, y))
}

/// A pixel is covered when it lies on the inner side of all three edges.
pub open spec fn covered(f: FixedFragment) -> bool {
    f.w0 >= 0 && f.w1 >= 0 && f.w2 >= 0
}

/// The three edge functions of every pixel of the row can be computed in
/// `i32` arithmetic.
pub open spec fn row_fits(
    v0: (int, int),
    v1: (int, int),
    v2: (int, int),
    min_x: int,
    max_x: int,
    y: int,
) -> bool {
    forall|x: int|
        min_x <= x <= max_x ==> {
            let p = (x * 512, y * 512);
            &&& #[trigger] edge_fits(v1, v2, (x * 512, y * 512))
            &&& edge_fits(v2, v0, p)
            &&& edge_fits(v0, v1, p)
        }
}

/// Fixed-point corner of pixel column or row `v`.
fn to_fixed_corner(v: i32) -> (r: i32)
    requires
        0 <= v < 0x40_0000,
    ensures
        r == v * 512,
{
    assert(v << 9u32 == v * 512) by (bit_vector)
        requires
            0 <= v < 0x40_0000,
    ;
    v << FP_SHIFT as u32
}

/// Whether every pixel of row `y` between `min_x` and `max_x` can have its
/// three fixed-point edge functions computed in `i32` arithmetic.
pub fn fixed_row_fits(
    v0: (i32, i32),
    v1: (i32, i32),
    v2: (i32, i32),
    min_x: i32,
    max_x: i32,
    y: i32,
) -> (b: bool)
    requires
        0 <= min_x,
        max_x < 0x40_0000,
        0 <= y < 0x40_0000,
    ensures
        b == row_fits(pt(v0), pt(v1), pt(v2), min_x as int, max_x as int, y as int),
{
    if min_x > max_x {
        return true;
    }
    let yf = to_fixed_corner(y);
    let mut x = min_x;
    while x <= max_x
        invariant
            min_x <= x,
            x <= max_x + 1,
            max_x < 0x40_0000,
            0 <= min_x,
            yf == y * 512,
            forall|u: int|
                min_x <= u < x ==> {
                    let p = (u * 512, y * 512);
                    &&& #[trigger] edge_fits(pt(v1), pt(v2), (u * 512, y * 512))
                    &&& edge_fits(pt(v2), pt(v0), p)
                    &&& edge_fits(pt(v0), pt(v1), p)
                },
        decreases max_x + 1 - x,
    {
        let p = (to_fixed_corner(x), yf);
        if !edge_fits_exec(v1, v2, p) || !edge_fits_exec(v2, v0, p) || !edge_fits_exec(v0, v1, p) {
            return false;
        }
        x = x + 1;
    }
    true
}

/// The covered pixels of row `y` of the fixed-point triangle `v0 v1 v2`
/// between columns `min_x` and `max_x`, left to right, with their edge
/// values.
pub fn fixed_point_row(
    v0: (i32, i32),
    v1: (i32, i32),
    v2: (i32, i32),
    min_x: i32,
    max_x: i32,
    y: i32,
) -> (frags: Vec<FixedFragment>)
    requires
        0 <= min_x,
        max_x < 0x40_0000,
        0 <= y < 0x40_0000,
        row_fits(pt(v0), pt(v1), pt(v2), min_x as int, max_x as int, y as int),
    ensures
        frags@ == fixed_row_cells(pt(v0), pt(v1), pt(v2), min_x as int, max_x as int, y as int).filter(
            |f: FixedFragment| covered(f),
        ),
        forall|i: int|
            0 <= i < frags@.len() ==> {
                let f = #[trigger] frags@[i];
                let p = (f.x as int * 512, y as int * 512);
                &&& min_x <= f.x <= max_x
                &&& f.y == y
                &&& f.w0 >= 0 && f.w0 == cross(pt(v1), pt(v2), p) / 32
                &&& f.w1 >= 0 && f.w1 == cross(pt(v2), pt(v0), p) / 32
                &&& f.w2 >= 0 && f.w2 == cross(pt(v0), pt(v1), p) / 32
            },
{
    proof {
        law_fixed_row_inside(pt(v0), pt(v1), pt(v2), min_x as int, max_x as int, y as int);
    }
    let ghost cells = fixed_row_cells(pt(v0), pt(v1), pt(v2), min_x as int, max_x as int, y as int);
    let ghost pred = |f: FixedFragment| covered(f);
    let y_fixed = to_fixed_corner(y);
    let mut frags: Vec<FixedFragment> = Vec::new();
    if min_x > max_x {
        proof {
            reveal_with_fuel(Seq::<_>::filter, 1);
            assert(cells.len() == 0);
        }
        return frags;
    }
    let mut x = min_x;
    loop
        invariant_except_break
            min_x <= x <= max_x,
            frags@ == cells.take(x - min_x).filter(pred),
        invariant
            0 <= min_x <= max_x,
            max_x < 0x40_0000,
            0 <= y < 0x40_0000,
            y_fixed == y * 512,
            cells == fixed_row_cells(pt(v0), pt(v1), pt(v2), min_x as int, max_x as int, y as int),
            pred == (|f: FixedFragment| covered(f)),
            row_fits(pt(v0), pt(v1), pt(v2), min_x as int, max_x as int, y as int),
        ensures
            frags@ == cells.filter(pred),
        decreases max_x - x,
    {
        let x_fixed = to_fixed_corner(x);
        let p = (x_fixed, y_fixed);
        assert(edge_fits(pt(v1), pt(v2), (x * 512, y * 512)));
        let w0 = edge_function_fixed(v1, v2, p);
        let w1 = edge_function_fixed(v2, v0, p);
        let w2 = edge_function_fixed(v0, v1, p);
        let f = FixedFragment { x, y, w0, w1, w2 };
        let ghost k = x - min_x;
        assert(f == cells[k]);
        if w0 >= 0 && w1 >= 0 && w2 >= 0 {
            frags.push(f);
        }
        proof {
            reveal_with_fuel(Seq::<_>::filter, 1);
            let t = cells.take(k + 1);
            assert(t.drop_last() == cells.take(k));
            assert(t.last() == f);
        }
        if x == max_x {
            proof {
                assert(cells.take(k + 1) == cells);
            }
            break;
        }
        x = x + 1;
    }
    frags
}

/// The scan area of a fixed-point triangle never leaves the screen, and it
/// holds the pixel of every vertex that lies on the screen: each vertex
/// pixel column (row) on screen lies between the area's first and last
/// column (row), and the first column (row) is that of some vertex unless
/// it is the screen's edge.
pub proof fn law_fixed_bounds_on_screen(
    width: int,
    height: int,
    v0: (int, int),
    v1: (int, int),
    v2: (int, int),
)
    requires
        width >= 1,
        height >= 1,
    ensures
        ({
            let (min_x, max_x, min_y, max_y) = fixed_bounds(width, height, v0, v1, v2);
            &&& 0 <= min_x && max_x <= width - 1
            &&& 0 <= min_y && max_y <= height - 1
            &&& forall|v: (int, int)|
                (v == v0 || v == v1 || v == v2) && 0 <= #[trigger] (v.0 / 512) < width ==> min_x <= v.0 / 512 <= max_x
            &&& forall|v: (int, int)|
                (v == v0 || v == v1 || v == v2) && 0 <= #[trigger] (v.1 / 512) < height ==> min_y <= v.1 / 512 <= max_y
            &&& (min_x == 0 || min_x == v0.0 / 512 || min_x == v1.0 / 512 || min_x == v2.0 / 512)
            &&& (min_y == 0 || min_y == v0.1 / 512 || min_y == v1.1 / 512 || min_y == v2.1 / 512)
            &&& (max_x == width - 1 || max_x == v0.0 / 512 || max_x == v1.0 / 512 || max_x == v2.0 / 512)
            &&& (max_y == height - 1 || max_y == v0.1 / 512 || max_y == v1.1 / 512 || max_y == v2.1 / 512)
        }),
{
    assert forall|a: int, b: int| a <= b implies #[trigger] (a / 512) <= #[trigger] (b / 512) by {
        vstd::arithmetic::div_mod::lemma_div_is_ordered(a, b, 512);
    }
}

/// The pixels a fixed-point triangle covers on one row are exactly those
/// whose corner lies on the inner (non-negative) side of all three edges,
/// the edge from `v0` to `v1` included: every reported pixel lies in the
/// scanned span of the row, carries the three edge values of its corner,
/// and has each of them non-negative; every pixel of the span whose three
/// edge values are non-negative is reported.
pub proof fn law_fixed_row_inside(
    v0: (int, int),
    v1: (int, int),
    v2: (int, int),
    min_x: int,
    max_x: int,
    y: int,
)
    requires
        0 <= min_x,
        max_x < 0x40_0000,
        0 <= y < 0x40_0000,
        row_fits(v0, v1, v2, min_x, max_x, y),
    ensures
        ({
            let frags = fixed_row_cells(v0, v1, v2, min_x, max_x, y).filter(|f: FixedFragment| covered(f));
            &&& forall|i: int|
                0 <= i < frags.len() ==> {
                    let f = #[trigger] frags[i];
                    let p = (f.x as int * 512, y * 512);
                    &&& min_x <= f.x <= max_x
                    &&& f.y == y
                    &&& f.w0 == cross(v1, v2, p) / 32
                    &&& f.w1 == cross(v2, v0, p) / 32
                    &&& f.w2 == cross(v0, v1, p) / 32
                    &&& cross(v1, v2, p) / 32 >= 0
                    &&& cross(v2, v0, p) / 32 >= 0
                    &&& cross(v0, v1, p) / 32 >= 0
                }
            &&& forall|x: int|
                min_x <= x <= max_x && cross(v1, v2, (x * 512, y * 512)) / 32 >= 0 && cross(
                    v2,
                    v0,
                    (x * 512, y * 512),
                ) / 32 >= 0 && #[trigger] cross(v0, v1, (x * 512, y * 512)) / 32 >= 0 ==> exists|i: int|
                    0 <= i < frags.len() && frags[i].x == x
        }),
{
    broadcast use vstd::seq_lib::group_filter_ensures;

    let cells = fixed_row_cells(v0, v1, v2, min_x, max_x, y);
    let pred = |f: FixedFragment| covered(f);
    let frags = cells.filter(pred);
    assert forall|k: int| 0 <= k < cells.len() implies {
        let f = #[trigger] cells[k];
        let x = min_x + k;
        let p = (x * 512, y * 512);
        &&& f.x == x
        &&& f.y == y
        &&& f.w0 == cross(v1, v2, p) / 32
        &&& f.w1 == cross(v2, v0, p) / 32
        &&& f.w2 == cross(v0, v1, p) / 32
    } by {
        let x = min_x + k;
        assert(edge_fits(v1, v2, (x * 512, y * 512)));
    }
    assert forall|i: int| 0 <= i < frags.len() implies {
        let f = #[trigger] frags[i];
        let p = (f.x as int * 512, y * 512);
        &&& min_x <= f.x <= max_x
        &&& f.y == y
        &&& f.w0 == cross(v1, v2, p) / 32
        &&& f.w1 == cross(v2, v0, p) / 32
        &&& f.w2 == cross(v0, v1, p) / 32
        &&& cross(v1, v2, p) / 32 >= 0
        &&& cross(v2, v0, p) / 32 >= 0
        &&& cross(v0, v1, p) / 32 >= 0
    } by {
        assert(pred(frags[i]));
        assert(frags.contains(frags[i]));
        cells.lemma_filter_contains_rev(pred, frags[i]);
        let k = choose|k: int| 0 <= k < cells.len() && cells[k] == frags[i];
    }
    assert forall|x: int|
        min_x <= x <= max_x && cross(v1, v2, (x * 512, y * 512)) / 32 >= 0 && cross(
            v2,
            v0,
            (x * 512, y * 512),
        ) / 32 >= 0 && #[trigger] cross(v0, v1, (x * 512, y * 512)) / 32 >= 0 implies exists|i: int|
        0 <= i < frags.len() && frags[i].x == x by {
        let k = x - min_x;
        assert(cells[k].x == x);
        assert(pred(cells[k]));
        assert(frags.contains(cells[k]));
    }
}

/// Turns projected triangles into pixels on a `width` by `height` screen.
pub struct Rasterizer {
    width: usize,
    height: usize,
}

impl Rasterizer {
    pub closed spec fn spec_width(&self) -> usize {
        self.width
    }

    pub closed spec fn spec_height(&self) -> usize {
        self.height
    }

    /// A rasterizer for a screen of the given size.
    pub fn new(width: usize, height: usize) -> (r: Rasterizer)
        ensures
            r.spec_width() == width,
            r.spec_height() == height,
    {
        Rasterizer { width, height }
    }

    /// Screen width in pixels.
    pub fn width(&self) -> (w: usize)
        ensures
            w == self.spec_width(),
    {
        self.width
    }

    /// Screen height in pixels.
    pub fn height(&self) -> (h: usize)
        ensures
            h == self.spec_height(),
    {
        self.height
    }

    /// Screen area to scan for the fixed-point triangle `v0 v1 v2`, or `None`
    /// when the triangle is degenerate or faces away (its area is not
    /// positive).
    pub fn fixed_point_bounds(&self, v0: (i32, i32), v1: (i32, i32), v2: (i32, i32)) -> (r: Option<
        PixelBounds,
    >)
        requires
            self.spec_width() <= 0x40_0000,
            self.spec_height() <= 0x40_0000,
            edge_fits(pt(v0), pt(v1), pt(v2)),
        ensures
            r is None <==> cross(pt(v0), pt(v1), pt(v2)) / 32 <= 0,
            r matches Some(b) ==> (b.min_x as int, b.max_x as int, b.min_y as int, b.max_y as int)
                == fixed_bounds(
                self.spec_width() as int,
                self.spec_height() as int,
                pt(v0),
                pt(v1),
                pt(v2),
            ),
    {
        let area = edge_function_fixed(v0, v1, v2);
        if area <= 0 {
            return None;
        }
        let lo_x = if v0.0 <= v1.0 && v0.0 <= v2.0 {
            v0.0
        } else if v1.0 <= v2.0 {
            v1.0
        } else {
            v2.0
        };
        let hi_x = if v0.0 >= v1.0 && v0.0 >= v2.0 {
            v0.0
        } else if v1.0 >= v2.0 {
            v1.0
        } else {
            v2.0
        };
        let lo_y = if v0.1 <= v1.1 && v0.1 <= v2.1 {
            v0.1
        } else if v1.1 <= v2.1 {
            v1.1
        } else {
            v2.1
        };
        let hi_y = if v0.1 >= v1.1 && v0.1 >= v2.1 {
            v0.1
        } else if v1.1 >= v2.1 {
            v1.1
        } else {
            v2.1
        };
        proof {
            lemma_shr9(lo_x);
            lemma_shr9(hi_x);
            lemma_shr9(lo_y);
            lemma_shr9(hi_y);
        }
        let sh = FP_SHIFT as u32;
        let a = lo_x >> sh;
        let b = hi_x >> sh;
        let c = lo_y >> sh;
        let d = hi_y >> sh;
        let wm = self.width as i32 - 1;
        let hm = self.height as i32 - 1;
        Some(
            PixelBounds {
                min_x: if a >= 0 {
                    a
                } else {
                    0
                },
                max_x: if b <= wm {
                    b
                } else {
                    wm
                },
                min_y: if c >= 0 {
                    c
                } else {
                    0
                },
                max_y: if d <= hm {
                    d
                } else {
                    hm
                },
            },
        )
    }

    /// The on-screen pixels of the wireframe edge from `(x0, y0)` to
    /// `(x1, y1)`, in walk order: the edge is walked one column at a time
    /// along its longer axis with an error term, starting from the end with
    /// the smaller coordinate on that axis, and the pixels that fall off
    /// screen are dropped.
    pub fn wire_line(&self, x0: i32, y0: i32, x1: i32, y1: i32) -> (line: WireLine)
        requires
            self.spec_width() <= 0x100_0000,
            self.spec_height() <= 0x100_0000,
        ensures
            line.reversed == wire_reversed(x0 as int, y0 as int, x1 as int, y1 as int),
            line.span == wire_span(x0 as int, y0 as int, x1 as int, y1 as int),
            line.pixels@ == wire_walk(x0 as int, y0 as int, x1 as int, y1 as int).filter(
                |p: WirePixel| on_screen(self.spec_width() as int, self.spec_height() as int, p),
            ),
    {
        let gx0 = x0 as i64;
        let gy0 = y0 as i64;
        let gx1 = x1 as i64;
        let gy1 = y1 as i64;
        let adx: i64 = if gx0 >= gx1 {
            gx0 - gx1
        } else {
            gx1 - gx0
        };
        let ady: i64 = if gy0 >= gy1 {
            gy0 - gy1
        } else {
            gy1 - gy0
        };
        let steep = adx < ady;
        let (mut c0, mut r0, mut c1, mut r1) = if steep {
            (gy0, gx0, gy1, gx1)
        } else {
            (gx0, gy0, gx1, gy1)
        };
        let reversed = c0 > c1;
        if reversed {
            let (tc, tr) = (c0, r0);
            c0 = c1;
            r0 = r1;
            c1 = tc;
            r1 = tr;
        }
        assert(i32::MIN <= c0 <= i32::MAX && i32::MIN <= c1 <= i32::MAX);
        assert(i32::MIN <= r0 <= i32::MAX && i32::MIN <= r1 <= i32::MAX);
        let span = c1 - c0;
        let dr = r1 - r0;
        let derror2: i64 = if r1 >= r0 {
            (r1 - r0) * 2
        } else {
            (r0 - r1) * 2
        };
        let ghost a = span as int;
        let ghost b = iabs(dr as int);
        let ghost pred = |p: WirePixel| on_screen(self.width as int, self.height as int, p);
        let ghost walk = wire_walk(x0 as int, y0 as int, x1 as int, y1 as int);
        assert(wire_ends(x0 as int, y0 as int, x1 as int, y1 as int) == (
        c0 as int, r0 as int, c1 as int, r1 as int));
        assert(b <= a);
        let mut error2: i64 = 0;
        let mut row = r0;
        let mut col = c0;
        let mut pixels: Vec<WirePixel> = Vec::new();
        let ghost mut j: int = 0;
        let w = self.width as i64;
        let h = self.height as i64;
        assert(2 * b * (col - c0) - 2 * a * j == 0) by (nonlinear_arith)
            requires
                col == c0,
                j == 0,
        ;
        loop
            invariant_except_break
                c0 <= col <= c1,
                error2 as int == 2 * b * (col - c0) - 2 * a * j,
                a > 0 ==> -a < 2 * b * (col - c0) - 2 * a * j <= a,
                a == 0 ==> j == 0,
                0 <= j <= b,
                row == (if r1 > r0 {
                    r0 + j
                } else {
                    r0 - j
                }),
                pixels@ == walk.take(col - c0).filter(pred),
            invariant
                a == c1 - c0,
                b == iabs(r1 - r0),
                b <= a,
                derror2 == 2 * b,
                span == a,
                steep == wire_steep(x0 as int, y0 as int, x1 as int, y1 as int),
                wire_ends(x0 as int, y0 as int, x1 as int, y1 as int) == (
                c0 as int, r0 as int, c1 as int, r1 as int),
                walk == wire_walk(x0 as int, y0 as int, x1 as int, y1 as int),
                pred == (|p: WirePixel| on_screen(self.width as int, self.height as int, p)),
                w == self.width,
                h == self.height,
                w <= 0x100_0000,
                h <= 0x100_0000,
                -0x1_0000_0000 <= c0 <= c1 <= 0x1_0000_0000,
                -0x1_0000_0000 <= r0 <= 0x1_0000_0000,
                -0x1_0000_0000 <= r1 <= 0x1_0000_0000,
                a <= 0x1_0000_0000,
            ensures
                pixels@ == walk.take(a + 1).filter(pred),
            decreases c1 - col,
        {
            let ghost k = col - c0;
            proof {
                if a > 0 {
                    assert(-a <= 2 * (a * j - b * k) < a) by (nonlinear_arith)
                        requires
                            -a < 2 * b * k - 2 * a * j <= a,
                    ;
                    lemma_round_half_down(b, a, k, j);
                }
            }
            let p = if steep {
                WirePixel { x: row as i32, y: col as i32, step: col - c0 }
            } else {
                WirePixel { x: col as i32, y: row as i32, step: col - c0 }
            };
            assert(p == walk[k]);
            assert(walk.take(k + 1).drop_last() =~= walk.take(k));
            if 0 <= p.x as i64 && (p.x as i64) < w && 0 <= p.y as i64 && (p.y as i64) < h {
                pixels.push(p);
            }
            proof {
                reveal_with_fuel(Seq::<_>::filter, 1);
                let t = walk.take(k + 1);
                assert(t.len() == k + 1);
                assert(t.last() == p);
                assert(t.drop_last() == walk.take(k));
                assert(t.filter(pred) == (if pred(p) {
                    t.drop_last().filter(pred).push(p)
                } else {
                    t.drop_last().filter(pred)
                }));
                assert(pred(p) == on_screen(self.width as int, self.height as int, p));
            }
            assert(pixels@ == walk.take(k + 1).filter(pred));
            if col == c1 {
                break;
            }
            proof {
                lemma_wire_step(a, b, k, j);
            }
            error2 = error2 + derror2;
            if error2 > span {
                row = if r1 > r0 {
                    row + 1
                } else {
                    row - 1
                };
                error2 = error2 - 2 * span;
                proof {
                    j = j + 1;
                }
            }
            col = col + 1;
        }
        assert(walk.take(a + 1) =~= walk);
        WireLine { reversed, span, pixels }
    }
}

/// An edge is walked the same way whichever of its end points comes first,
/// so an edge shared by two triangles gets the same pixels from both; only
/// the `reversed` flag tells the two orders apart.
pub proof fn law_wire_walk_symmetric(x0: int, y0: int, x1: int, y1: int)
    ensures
        wire_walk(x0, y0, x1, y1) == wire_walk(x1, y1, x0, y0),
        wire_span(x0, y0, x1, y1) == wire_span(x1, y1, x0, y0),
        (x0, y0) != (x1, y1) ==> wire_reversed(x0, y0, x1, y1) != wire_reversed(x1, y1, x0, y0),
{
    assert(wire_steep(x0, y0, x1, y1) == wire_steep(x1, y1, x0, y0));
    assert(wire_ends(x0, y0, x1, y1) == wire_ends(x1, y1, x0, y0));
    assert(wire_walk(x0, y0, x1, y1) =~= wire_walk(x1, y1, x0, y0));
}

/// The walk starts at the end point with the smaller coordinate along the
/// longer axis and finishes exactly at the other end point.
pub proof fn law_wire_endpoints(x0: i32, y0: i32, x1: i32, y1: i32)
    ensures
        ({
            let (gx0, gy0, gx1, gy1) = (x0 as int, y0 as int, x1 as int, y1 as int);
            let w = wire_walk(gx0, gy0, gx1, gy1);
            let (first, last) = if wire_reversed(gx0, gy0, gx1, gy1) {
                ((x1, y1), (x0, y0))
            } else {
                ((x0, y0), (x1, y1))
            };
            &&& w.len() >= 1
            &&& (w[0].x, w[0].y) == first
            &&& (w[w.len() - 1].x, w[w.len() - 1].y) == last
        }),
{
    let (gx0, gy0, gx1, gy1) = (x0 as int, y0 as int, x1 as int, y1 as int);
    let (c0, r0, c1, r1) = wire_ends(gx0, gy0, gx1, gy1);
    let a = c1 - c0;
    let b = iabs(r1 - r0);
    if a > 0 {
        assert(round_half_down(b, a, 0) == 0) by {
            lemma_fundamental_div_mod_converse(a - 1, 2 * a, 0, a - 1);
        }
        assert(round_half_down(b, a, a) == b) by {
            assert(2 * b * a + a - 1 == b * (2 * a) + (a - 1)) by (nonlinear_arith);
            lemma_fundamental_div_mod_converse(2 * b * a + a - 1, 2 * a, b, a - 1);
        }
    } else {
        assert(b == 0);
    }
}

/// One column of the edge walk keeps the error term within its band and the
/// row within the edge.
proof fn lemma_wire_step(a: int, b: int, k: int, j: int)
    requires
        0 <= b <= a,
        0 <= k < a,
        0 <= j <= b,
        -a < 2 * b * k - 2 * a * j <= a,
    ensures
        ({
            let e = 2 * b * k - 2 * a * j + 2 * b;
            let j2 = if e > a {
                j + 1
            } else {
                j
            };
            &&& -a < 2 * b * (k + 1) - 2 * a * j2 <= a
            &&& 0 <= j2 <= b
            &&& 2 * b * (k + 1) - 2 * a * j2 == e - (if e > a {
                2 * a
            } else {
                0
            })
        }),
{
    let e = 2 * b * k - 2 * a * j + 2 * b;
    assert(2 * b * (k + 1) == 2 * b * k + 2 * b) by (nonlinear_arith);
    assert(2 * a * (j + 1) == 2 * a * j + 2 * a) by (nonlinear_arith);
    if e > a {
        assert(j + 1 <= b) by (nonlinear_arith)
            requires
                a > 0,
                b >= 0,
                k + 1 <= a,
                2 * b * (k + 1) - 2 * a * (j + 1) > -a,
        ;
    }
}

/// The rounding used by `wire_point`, characterised by its error band.
proof fn lemma_round_half_down(minor: int, major: int, k: int, q: int)
    requires
        major > 0,
        -major <= 2 * (major * q - minor * k) < major,
    ensures
        round_half_down(minor, major, k) == q,
{
    let n = 2 * minor * k + major - 1;
    let r = n - q * (2 * major);
    assert(q * (2 * major) == 2 * (major * q)) by (nonlinear_arith);
    assert(2 * minor * k == 2 * (minor * k)) by (nonlinear_arith);
    lemma_fundamental_div_mod_converse(n, 2 * major, q, r);
}

} // verus!

use terminal_renderer::fixed::{edge_fits_exec, edge_function_fixed, is_clockwise, FP_ONE, FP_SHIFT};
use terminal_renderer::raster::{
    fixed_point_row, fixed_row_fits, FixedFragment, PixelBounds, Rasterizer, WirePixel,
};

fn px(x: i32, y: i32, step: i64) -> WirePixel {
    WirePixel { x, y, step }
}

#[test]
fn fixed_point_constants() {
    assert_eq!(FP_ONE, 1 << FP_SHIFT);
}

#[test]
fn rasterizer_reports_its_size() {
    let r = Rasterizer::new(80, 40);
    assert_eq!(r.width(), 80);
    assert_eq!(r.height(), 40);
}

#[test]
fn wire_line_shallow_edge() {
    let r = Rasterizer::new(10, 10);
    let line = r.wire_line(0, 0, 4, 2);
    assert!(!line.reversed);
    assert_eq!(line.span, 4);
    assert_eq!(
        line.pixels,
        vec![px(0, 0, 0), px(1, 0, 1), px(2, 1, 2), px(3, 1, 3), px(4, 2, 4)]
    );
}

#[test]
fn wire_line_walks_from_smaller_end() {
    let r = Rasterizer::new(10, 10);
    let line = r.wire_line(4, 2, 0, 0);
    assert!(line.reversed);
    assert_eq!(line.span, 4);
    assert_eq!(line.pixels, r.wire_line(0, 0, 4, 2).pixels);
}

#[test]
fn wire_line_steep_edge() {
    let r = Rasterizer::new(10, 10);
    let line = r.wire_line(0, 0, 1, 3);
    assert!(!line.reversed);
    assert_eq!(line.span, 3);
    assert_eq!(
        line.pixels,
        vec![px(0, 0, 0), px(0, 1, 1), px(1, 2, 2), px(1, 3, 3)]
    );
}

#[test]
fn wire_line_drops_off_screen_pixels() {
    let r = Rasterizer::new(3, 3);
    let line = r.wire_line(0, 0, 4, 2);
    assert_eq!(line.span, 4);
    assert_eq!(line.pixels, vec![px(0, 0, 0), px(1, 0, 1), px(2, 1, 2)]);
    let off = r.wire_line(-5, -5, -1, -2);
    assert!(off.pixels.is_empty());
}

#[test]
fn edge_function_values() {
    assert_eq!(edge_function_fixed((0, 0), (0, 2048), (512, 512)), 32768);
    assert_eq!(edge_function_fixed((0, 0), (0, 1), (-1, 0)), -1);
    assert_eq!(edge_function_fixed((0, 0), (0, 1), (31, 0)), 0);
    assert_eq!(edge_function_fixed((0, 0), (0, 1), (32, 0)), 1);
}

#[test]
fn edge_fit_checks() {
    assert!(edge_fits_exec((0, 0), (0, 2048), (512, 512)));
    assert!(!edge_fits_exec((0, 0), (0, 2_000_000_000), (2048, 0)));
    assert!(!edge_fits_exec((i32::MIN, 0), (i32::MAX, 0), (0, 0)));
}

#[test]
fn fixed_point_bounds_of_triangles() {
    let r = Rasterizer::new(10, 10);
    let v0 = (0, 0);
    let v1 = (0, 4 * 512);
    let v2 = (4 * 512, 0);
    assert_eq!(
        r.fixed_point_bounds(v0, v1, v2),
        Some(PixelBounds { min_x: 0, max_x: 4, min_y: 0, max_y: 4 })
    );
    assert_eq!(r.fixed_point_bounds(v0, v2, v1), None);
    assert_eq!(r.fixed_point_bounds(v0, v0, v2), None);
    assert_eq!(
        r.fixed_point_bounds((-600, 0), (0, 4 * 512), (20 * 512, 0)),
        Some(PixelBounds { min_x: 0, max_x: 9, min_y: 0, max_y: 4 })
    );
}

#[test]
fn fixed_point_row_coverage() {
    let v0 = (0, 0);
    let v1 = (0, 2048);
    let v2 = (2048, 0);
    assert!(fixed_row_fits(v0, v1, v2, 0, 4, 1));
    let frags = fixed_point_row(v0, v1, v2, 0, 4, 1);
    assert_eq!(
        frags,
        vec![
            FixedFragment { x: 0, y: 1, w0: 98304, w1: 32768, w2: 0 },
            FixedFragment { x: 1, y: 1, w0: 65536, w1: 32768, w2: 32768 },
            FixedFragment { x: 2, y: 1, w0: 32768, w1: 32768, w2: 65536 },
            FixedFragment { x: 3, y: 1, w0: 0, w1: 32768, w2: 98304 },
        ]
    );
    assert!(fixed_point_row(v0, v1, v2, 3, 2, 1).is_empty());
}

#[test]
fn fixed_row_fit_fails_on_huge_triangle() {
    assert!(!fixed_row_fits((0, 0), (0, 2_000_000_000), (2048, 0), 0, 1, 0));
    assert!(fixed_row_fits((0, 0), (0, 2_000_000_000), (2048, 0), 5, 4, 0));
}

#[test]
fn winding_of_screen_triangles() {
    assert!(is_clockwise((0, 0), (0, 10), (10, 0)));
    assert!(!is_clockwise((0, 0), (10, 0), (0, 10)));
    assert!(!is_clockwise((0, 0), (5, 5), (10, 10)));
    // clockwise exactly when the edge function of the third corner is positive
    assert!(edge_function_fixed((0, 0), (0, 320), (320, 0)) > 0);
}

#[test]
fn wire_walk_is_symmetric_and_hits_both_ends() {
    let r = Rasterizer::new(100, 100);
    let a = r.wire_line(3, 40, 57, 11);
    let b = r.wire_line(57, 11, 3, 40);
    assert_eq!(a.pixels, b.pixels);
    assert_eq!(a.span, b.span);
    assert_ne!(a.reversed, b.reversed);
    let first = a.pixels.first().unwrap();
    let last = a.pixels.last().unwrap();
    assert_eq!((first.x, first.y), (3, 40));
    assert_eq!((last.x, last.y), (57, 11));
}

use terminal_renderer::buffer::{buffer_index, Buffer};
use terminal_renderer::line::{bresenham, draw_line};

#[test]
fn buffer_index_inside_and_outside() {
    assert_eq!(buffer_index(4, 3, 0, 0), Some(0));
    assert_eq!(buffer_index(4, 3, 3, 2), Some(11));
    assert_eq!(buffer_index(4, 3, 1, 2), Some(9));
    assert_eq!(buffer_index(4, 3, 4, 0), None);
    assert_eq!(buffer_index(4, 3, 0, 3), None);
    assert_eq!(buffer_index(0, 0, 0, 0), None);
}

#[test]
fn new_buffer_is_blank() {
    let b = Buffer::new(3, 2);
    assert_eq!(b.width, 3);
    assert_eq!(b.height, 2);
    assert_eq!(b.data, vec![' '; 6]);
}

#[test]
fn set_char_then_read_back() {
    let mut b = Buffer::new(3, 2);
    b.set_char(1, 1, '#');
    assert_eq!(b.data[4], '#');
    assert_eq!(b.data.iter().filter(|c| **c == '#').count(), 1);
    b.set_char(3, 0, 'x');
    b.set_char(0, 2, 'x');
    assert!(!b.data.contains(&'x'));
    b.clear();
    assert_eq!(b.data, vec![' '; 6]);
}

#[test]
fn bresenham_shallow_line() {
    let pts = bresenham(0, 0, 4, 2);
    assert_eq!(pts, vec![(0, 0), (1, 1), (2, 1), (3, 2), (4, 2)]);
}

#[test]
fn bresenham_steep_and_reversed_lines() {
    assert_eq!(bresenham(0, 0, 1, 3), vec![(0, 0), (0, 1), (1, 2), (1, 3)]);
    assert_eq!(bresenham(3, 0, 0, 0), vec![(3, 0), (2, 0), (1, 0), (0, 0)]);
    assert_eq!(bresenham(0, 0, -2, -2), vec![(0, 0), (-1, -1), (-2, -2)]);
}

#[test]
fn bresenham_single_point() {
    assert_eq!(bresenham(5, -7, 5, -7), vec![(5, -7)]);
}

#[test]
fn bresenham_endpoints_and_steps() {
    let pts = bresenham(-3, 10, 17, -4);
    assert_eq!(pts.len(), 21);
    assert_eq!(pts[0], (-3, 10));
    assert_eq!(pts[20], (17, -4));
    for w in pts.windows(2) {
        assert_eq!(w[1].0 - w[0].0, 1);
        assert!((w[1].1 - w[0].1).abs() <= 1);
    }
}

#[test]
fn draw_line_leaves_out_end_point() {
    let mut b = Buffer::new(3, 2);
    draw_line(&mut b, 0, 0, 2, 0, '*');
    assert_eq!(b.data, vec!['*', '*', ' ', ' ', ' ', ' ']);
}

#[test]
fn draw_line_diagonal_and_clipped() {
    let mut b = Buffer::new(3, 3);
    draw_line(&mut b, 0, 0, 3, 3, '@');
    assert_eq!(b.data, vec!['@', ' ', ' ', ' ', '@', ' ', ' ', ' ', '@']);
    let mut c = Buffer::new(2, 2);
    draw_line(&mut c, 1, 1, 1, 1, '@');
    assert_eq!(c.data, vec![' '; 4]);
}

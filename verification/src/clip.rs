//! Clipping a triangle against one frustum plane, as a plan over its
//! corners: which corners survive, which edges are cut, and how the
//! resulting polygon is split back into triangles.
use vstd::prelude::*;

verus! {

/// The `k`-th triangle of the fan over a polygon: the first vertex and the
/// edge `k + 1`, `k + 2`.
pub open spec fn fan_triangle<T>(poly: Seq<T>, k: int) -> [T; 3] {
    [poly[0], poly[k + 1], poly[k + 2]]
}

/// Number of triangles in the fan over a polygon of `n` vertices.
pub open spec fn fan_len(n: int) -> int {
    if n >= 2 {
        n - 2
    } else {
        0
    }
}

/// Splits a convex polygon into a fan of triangles that all share its first
/// vertex; a polygon of fewer than three vertices gives no triangle.
pub fn fan_triangulate<T: Copy>(poly: &Vec<T>) -> (tris: Vec<[T; 3]>)
    requires
        poly@.len() >= 1,
    ensures
        tris@.len() == fan_len(poly@.len() as int),
        forall|k: int| 0 <= k < tris@.len() ==> #[trigger] tris@[k] == fan_triangle(poly@, k),
{
    let mut tris: Vec<[T; 3]> = Vec::new();
    let n = poly.len();
    let mut i: usize = 1;
    while i < n - 1
        invariant
            n == poly@.len(),
            n >= 1,
            1 <= i,
            i <= (if n >= 2 {
                n - 1
            } else {
                1
            }),
            tris@.len() == i - 1,
            forall|k: int| 0 <= k < tris@.len() ==> #[trigger] tris@[k] == fan_triangle(poly@, k),
        decreases n - i,
    {
        tris.push([poly[0], poly[i], poly[i + 1]]);
        i = i + 1;
    }
    tris
}

/// A vertex of a clipped triangle: one of its corners, or the point where
/// the edge from corner `from` to corner `to` meets the plane.
#[derive(Debug, Clone, Copy, PartialEq, Eq, Structural)]
pub enum ClipPoint {
    Corner(usize),
    Crossing(usize, usize),
}

/// What clipping does to a triangle.
#[derive(Debug, PartialEq, Eq)]
pub enum ClipAction {
    /// No corner is inside: the triangle goes.
    Discard,
    /// Every corner is inside: the triangle stays as it is.
    Keep,
    /// The triangle is cut: these triangles replace it.
    Split(Vec<[ClipPoint; 3]>),
}

/// The polygon points contributed by edge `i` (from corner `i` to the next
/// corner): the corner when it is inside, then the crossing when the edge
/// changes side.
pub open spec fn edge_points(inside: [bool; 3], below: [bool; 3], i: int) -> Seq<ClipPoint> {
    let j = (i + 1) % 3;
    let a = if inside[i] {
        seq![ClipPoint::Corner(i as usize)]
    } else {
        Seq::empty()
    };
    let b = if below[i] != below[j] {
        seq![ClipPoint::Crossing(i as usize, j as usize)]
    } else {
        Seq::empty()
    };
    a + b
}

/// The clipped polygon: the edges' contributions in corner order.
pub open spec fn clip_polygon_spec(inside: [bool; 3], below: [bool; 3]) -> Seq<ClipPoint> {
    edge_points(inside, below, 0) + edge_points(inside, below, 1) + edge_points(inside, below, 2)
}

/// Number of corners inside the plane.
pub open spec fn inside_count(inside: [bool; 3]) -> int {
    (if inside[0] {
        1int
    } else {
        0
    }) + (if inside[1] {
        1int
    } else {
        0
    }) + (if inside[2] {
        1int
    } else {
        0
    })
}

/// The polygon left of a triangle on the inner side of a plane. `inside[i]`
/// tells that corner `i` is at a non-negative distance from the plane and
/// `below[i]` that it is at a negative one (the two differ only for a
/// distance that is not a number).
pub fn clip_polygon(inside: [bool; 3], below: [bool; 3]) -> (poly: Vec<ClipPoint>)
    ensures
        poly@ == clip_polygon_spec(inside, below),
{
    let mut poly: Vec<ClipPoint> = Vec::new();
    let mut i: usize = 0;
    while i < 3
        invariant
            i <= 3,
            poly@ == (if i == 0 {
                Seq::empty()
            } else if i == 1 {
                edge_points(inside, below, 0)
            } else if i == 2 {
                edge_points(inside, below, 0) + edge_points(inside, below, 1)
            } else {
                clip_polygon_spec(inside, below)
            }),
        decreases 3 - i,
    {
        let j = (i + 1) % 3;
        let ghost before = poly@;
        if inside[i] {
            poly.push(ClipPoint::Corner(i));
        }
        if below[i] != below[j] {
            poly.push(ClipPoint::Crossing(i, j));
        }
        assert(poly@ == before + edge_points(inside, below, i as int));
        i = i + 1;
    }
    poly
}

/// Where a clipped-polygon point lies on the triangle's boundary, walking
/// from corner 0 through corners 1 and 2: corner `i` at `2 i`, and the point
/// where the edge leaving corner `i` meets the plane at `2 i + 1`.
pub open spec fn boundary_position(p: ClipPoint) -> int {
    match p {
        ClipPoint::Corner(i) => 2 * i,
        ClipPoint::Crossing(i, _) => 2 * i + 1,
    }
}

/// The clipped polygon walks the triangle's boundary once, in order: its
/// points come in strictly increasing boundary position (so each inside
/// corner comes before the crossing on the edge leaving it, and the fan
/// over the polygon winds as the triangle does); it holds corner `i`
/// exactly when that corner is inside, and the crossing of the edge from
/// corner `i` to the next exactly when the edge changes side; and it holds
/// nothing else.
pub proof fn law_clip_polygon_boundary_order(inside: [bool; 3], below: [bool; 3])
    ensures
        ({
            let poly = clip_polygon_spec(inside, below);
            &&& forall|a: int, b: int|
                0 <= a < b < poly.len() ==> boundary_position(poly[a]) < boundary_position(poly[b])
            &&& forall|i: int| 0 <= i < 3 ==> (poly.contains(ClipPoint::Corner(i as usize)) <==> inside[i])
            &&& forall|i: int|
                #![trigger below[i]]
                0 <= i < 3 ==> (poly.contains(ClipPoint::Crossing(i as usize, ((i + 1) % 3) as usize))
                    <==> below[i] != below[(i + 1) % 3])
            &&& forall|k: int|
                0 <= k < poly.len() ==> match #[trigger] poly[k] {
                    ClipPoint::Corner(i) => i < 3,
                    ClipPoint::Crossing(i, j) => i < 3 && j == (i + 1) % 3,
                }
        }),
{
    let e0 = edge_points(inside, below, 0);
    let e1 = edge_points(inside, below, 1);
    let e2 = edge_points(inside, below, 2);
    let poly = clip_polygon_spec(inside, below);
    assert(poly == e0 + e1 + e2);
    assert forall|a: int, b: int| 0 <= a < b < poly.len() implies boundary_position(poly[a])
        < boundary_position(poly[b]) by {
        lemma_edge_points_positions(inside, below, 0);
        lemma_edge_points_positions(inside, below, 1);
        lemma_edge_points_positions(inside, below, 2);
        if a < e0.len() {
            if b < e0.len() {
            } else if b < e0.len() + e1.len() {
                assert(poly[b] == e1[b - e0.len()]);
            } else {
                assert(poly[b] == e2[b - e0.len() - e1.len()]);
            }
            assert(poly[a] == e0[a]);
        } else if a < e0.len() + e1.len() {
            assert(poly[a] == e1[a - e0.len()]);
            if b < e0.len() + e1.len() {
                assert(poly[b] == e1[b - e0.len()]);
            } else {
                assert(poly[b] == e2[b - e0.len() - e1.len()]);
            }
        } else {
            assert(poly[a] == e2[a - e0.len() - e1.len()]);
            assert(poly[b] == e2[b - e0.len() - e1.len()]);
        }
    }
    assert forall|k: int| 0 <= k < poly.len() implies match #[trigger] poly[k] {
        ClipPoint::Corner(i) => i < 3,
        ClipPoint::Crossing(i, j) => i < 3 && j == (i + 1) % 3,
    } by {
        lemma_edge_points_positions(inside, below, 0);
        lemma_edge_points_positions(inside, below, 1);
        lemma_edge_points_positions(inside, below, 2);
        if k < e0.len() {
            assert(poly[k] == e0[k]);
        } else if k < e0.len() + e1.len() {
            assert(poly[k] == e1[k - e0.len()]);
        } else {
            assert(poly[k] == e2[k - e0.len() - e1.len()]);
        }
    }
    assert forall|i: int| 0 <= i < 3 implies (poly.contains(ClipPoint::Corner(i as usize)) <==> inside[i]) by {
        lemma_edge_points_positions(inside, below, 0);
        lemma_edge_points_positions(inside, below, 1);
        lemma_edge_points_positions(inside, below, 2);
        lemma_contains_in_parts(e0, e1, e2, ClipPoint::Corner(i as usize));
    }
    assert forall|i: int|
        #![trigger below[i]]
        0 <= i < 3 implies (poly.contains(ClipPoint::Crossing(i as usize, ((i + 1) % 3) as usize))
        <==> below[i] != below[(i + 1) % 3]) by {
        lemma_edge_points_positions(inside, below, 0);
        lemma_edge_points_positions(inside, below, 1);
        lemma_edge_points_positions(inside, below, 2);
        lemma_contains_in_parts(e0, e1, e2, ClipPoint::Crossing(i as usize, ((i + 1) % 3) as usize));
    }
}

/// What edge `i` contributes: its corner when inside, then its crossing
/// when it changes side, at boundary positions `2 i` and `2 i + 1`.
proof fn lemma_edge_points_positions(inside: [bool; 3], below: [bool; 3], i: int)
    requires
        0 <= i < 3,
    ensures
        ({
            let e = edge_points(inside, below, i);
            let c = ClipPoint::Corner(i as usize);
            let x = ClipPoint::Crossing(i as usize, ((i + 1) % 3) as usize);
            &&& e.len() <= 2
            &&& e.contains(c) <==> inside[i]
            &&& e.contains(x) <==> below[i] != below[(i + 1) % 3]
            &&& forall|k: int| 0 <= k < e.len() ==> (#[trigger] e[k] == c || e[k] == x)
            &&& forall|k: int| 0 <= k < e.len() ==> (e[k] == c ==> k == 0)
            &&& forall|k: int| 0 <= k < e.len() ==> (e[k] == x ==> k == e.len() - 1)
            &&& boundary_position(c) == 2 * i
            &&& boundary_position(x) == 2 * i + 1
        }),
{
    let e = edge_points(inside, below, i);
    let c = ClipPoint::Corner(i as usize);
    let x = ClipPoint::Crossing(i as usize, ((i + 1) % 3) as usize);
    if inside[i] {
        assert(e[0] == c);
    }
    if below[i] != below[(i + 1) % 3] {
        assert(e[e.len() - 1] == x);
    }
    if e.contains(c) {
        let k = choose|k: int| 0 <= k < e.len() && e[k] == c;
    }
    if e.contains(x) {
        let k = choose|k: int| 0 <= k < e.len() && e[k] == x;
    }
}

/// A point lies in a three-part sequence exactly when it lies in a part.
proof fn lemma_contains_in_parts(a: Seq<ClipPoint>, b: Seq<ClipPoint>, c: Seq<ClipPoint>, p: ClipPoint)
    ensures
        (a + b + c).contains(p) <==> (a.contains(p) || b.contains(p) || c.contains(p)),
{
    let s = a + b + c;
    if s.contains(p) {
        let k = choose|k: int| 0 <= k < s.len() && s[k] == p;
        if k < a.len() {
            assert(a[k] == p);
        } else if k < a.len() + b.len() {
            assert(b[k - a.len()] == p);
        } else {
            assert(c[k - a.len() - b.len()] == p);
        }
    }
    if a.contains(p) {
        let k = choose|k: int| 0 <= k < a.len() && a[k] == p;
        assert(s[k] == p);
    }
    if b.contains(p) {
        let k = choose|k: int| 0 <= k < b.len() && b[k] == p;
        assert(s[a.len() + k] == p);
    }
    if c.contains(p) {
        let k = choose|k: int| 0 <= k < c.len() && c[k] == p;
        assert(s[a.len() + b.len() + k] == p);
    }
}

/// Decides what clipping against one plane does to a triangle: discard it
/// when no corner is inside, keep it when all are, and otherwise replace it
/// by the fan over its clipped polygon.
pub fn plan_clip(inside: [bool; 3], below: [bool; 3]) -> (action: ClipAction)
    ensures
        inside_count(inside) == 0 ==> action == ClipAction::Discard,
        inside_count(inside) == 3 ==> action == ClipAction::Keep,
        (0 < inside_count(inside) < 3) ==> (action matches ClipAction::Split(tris) && {
            let poly = clip_polygon_spec(inside, below);
            &&& tris@.len() == fan_len(poly.len() as int)
            &&& forall|k: int| 0 <= k < tris@.len() ==> #[trigger] tris@[k] == fan_triangle(poly, k)
        }),
{
    let mut count: usize = 0;
    if inside[0] {
        count = count + 1;
    }
    if inside[1] {
        count = count + 1;
    }
    if inside[2] {
        count = count + 1;
    }
    if count == 0 {
        ClipAction::Discard
    } else if count == 3 {
        ClipAction::Keep
    } else {
        let poly = clip_polygon(inside, below);
        assert(poly@.len() >= 1);
        ClipAction::Split(fan_triangulate(&poly))
    }
}

/// Corners on opposite sides of the plane in the usual, non-degenerate
/// case: each corner is either inside or below.
pub open spec fn decided(inside: [bool; 3], below: [bool; 3]) -> bool {
    forall|i: int| 0 <= i < 3 ==> #[trigger] below[i] == !inside[i]
}

/// A triangle with one corner inside a plane is clipped to one triangle; one
/// with two corners inside is clipped to a quadrilateral, split into two.
pub proof fn law_clip_triangle_count(inside: [bool; 3], below: [bool; 3])
    requires
        decided(inside, below),
        0 < inside_count(inside) < 3,
    ensures
        inside_count(inside) == 1 ==> clip_polygon_spec(inside, below).len() == 3 && fan_len(3) == 1,
        inside_count(inside) == 2 ==> clip_polygon_spec(inside, below).len() == 4 && fan_len(4) == 2,
{
    assert(below[0] == !inside[0]);
    assert(below[1] == !inside[1]);
    assert(below[2] == !inside[2]);
}

} // verus!

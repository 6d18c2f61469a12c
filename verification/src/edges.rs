//! The shared-edge report of a mesh: every undirected edge that its
//! triangles run along, with the end points of each triangle side on it.
use vstd::prelude::*;
use std::collections::HashMap;
use vstd::arithmetic::div_mod::lemma_fundamental_div_mod_converse;
use crate::mesh::Tri;

verus! {

/// Side `k` of a triangle list: side `k % 3` of triangle `k / 3`, from its
/// corner `k % 3` to the next corner.
pub open spec fn tri_side(tris: Seq<Tri>, k: int) -> (usize, usize) {
    let t = tris[k / 3];
    (t.vertices[k % 3], t.vertices[(k % 3 + 1) % 3])
}

/// An edge with its smaller end point first.
pub open spec fn undirected(e: (usize, usize)) -> (usize, usize) {
    if e.0 <= e.1 {
        e
    } else {
        (e.1, e.0)
    }
}

/// The undirected edge that side `k` runs along.
pub open spec fn side_edge(tris: Seq<Tri>, k: int) -> (usize, usize) {
    undirected(tri_side(tris, k))
}

/// The end points that the first `count` sides record for edge `e`: each
/// side along `e` adds its start and then its end.
pub open spec fn edge_ends(tris: Seq<Tri>, count: int, e: (usize, usize)) -> Seq<usize>
    decreases count,
{
    if count <= 0 {
        Seq::empty()
    } else {
        let prev = edge_ends(tris, count - 1, e);
        if side_edge(tris, count - 1) == e {
            prev.push(tri_side(tris, count - 1).0).push(tri_side(tris, count - 1).1)
        } else {
            prev
        }
    }
}

/// Side `k` runs along an edge that no earlier side runs along.
pub open spec fn opens_edge(tris: Seq<Tri>, k: int) -> bool {
    forall|j: int| 0 <= j < k ==> side_edge(tris, j) != side_edge(tris, k)
}

/// The edges of the first `count` sides, in the order they first appear.
pub open spec fn edges_in_order(tris: Seq<Tri>, count: int) -> Seq<(usize, usize)>
    decreases count,
{
    if count <= 0 {
        Seq::empty()
    } else {
        let prev = edges_in_order(tris, count - 1);
        if opens_edge(tris, count - 1) {
            prev.push(side_edge(tris, count - 1))
        } else {
            prev
        }
    }
}

/// Injective integer code of an edge, used to look edges up in a hash map.
pub open spec fn edge_code(e: (usize, usize)) -> int {
    e.0 * 0x1_0000_0000_0000_0000 + e.1
}

/// The code of an edge.
fn pack_edge(e: (usize, usize)) -> (c: u128)
    ensures
        c == edge_code(e),
{
    (e.0 as u128) * 0x1_0000_0000_0000_0000 + (e.1 as u128)
}

/// Different edges have different codes.
proof fn lemma_edge_code_injective(a: (usize, usize), b: (usize, usize))
    requires
        edge_code(a) == edge_code(b),
    ensures
        a == b,
{
    let m: int = 0x1_0000_0000_0000_0000;
    lemma_fundamental_div_mod_converse(edge_code(a), m, a.0 as int, a.1 as int);
    lemma_fundamental_div_mod_converse(edge_code(b), m, b.0 as int, b.1 as int);
}

/// Every undirected edge of the triangles, in the order the sides first
/// run along it, and for each the start and end point of every side along
/// it, in side order. Side `k` runs from corner `k % 3` of triangle `k / 3`
/// to the next corner.
pub fn build_edge_map(tris: &Vec<Tri>) -> (map: (Vec<(usize, usize)>, Vec<Vec<usize>>))
    requires
        3 * tris@.len() <= usize::MAX,
    ensures
        map.0@ == edges_in_order(tris@, 3 * tris@.len() as int),
        map.1@.len() == map.0@.len(),
        forall|m: int|
            0 <= m < map.1@.len() ==> (#[trigger] map.1@[m])@ == edge_ends(
                tris@,
                3 * tris@.len() as int,
                map.0@[m],
            ),
{
    broadcast use vstd::std_specs::hash::group_hash_axioms;

    let ghost ts = tris@;
    let total = 3 * tris.len();
    let mut edges: Vec<(usize, usize)> = Vec::new();
    let mut ends: Vec<Vec<usize>> = Vec::new();
    let mut lookup: HashMap<u128, usize> = HashMap::new();
    let ghost mut slot: Seq<int> = Seq::empty();
    let ghost mut origin: Seq<int> = Seq::empty();
    let mut k: usize = 0;
    while k < total
        invariant
            ts == tris@,
            total == 3 * ts.len(),
            k <= total,
            edges@ == edges_in_order(ts, k as int),
            ends@.len() == edges@.len(),
            forall|m: int|
                0 <= m < ends@.len() ==> (#[trigger] ends@[m])@ == edge_ends(ts, k as int, edges@[m]),
            forall|m: int|
                0 <= m < edges@.len() ==> lookup@.contains_key(#[trigger] edge_code(edges@[m]) as u128)
                    && lookup@[edge_code(edges@[m]) as u128] == m,
            forall|c: u128|
                #[trigger] lookup@.contains_key(c) ==> lookup@[c] < edges@.len() && edge_code(
                    edges@[lookup@[c] as int],
                ) == c,
            slot.len() == k,
            forall|j: int|
                0 <= j < k ==> 0 <= #[trigger] slot[j] < edges@.len() && edges@[slot[j]] == side_edge(ts, j),
            origin.len() == edges@.len(),
            forall|m: int|
                0 <= m < edges@.len() ==> 0 <= #[trigger] origin[m] < k && side_edge(ts, origin[m]) == edges@[m],
        decreases total - k,
    {
        let tri = tris[k / 3];
        let c = k % 3;
        let a = tri.vertices[c];
        let b = tri.vertices[(c + 1) % 3];
        let e = if a <= b {
            (a, b)
        } else {
            (b, a)
        };
        assert(tri_side(ts, k as int) == (a, b));
        assert(side_edge(ts, k as int) == e);
        let code = pack_edge(e);
        let ghost old_edges = edges@;
        let ghost old_ends = ends@;
        match lookup.get(&code) {
            Some(idx) => {
                let m = *idx;
                proof {
                    lemma_edge_code_injective(old_edges[m as int], e);
                    assert(side_edge(ts, origin[m as int]) == side_edge(ts, k as int));
                    assert(!opens_edge(ts, k as int));
                    slot = slot.push(m as int);
                }
                ends[m].push(a);
                ends[m].push(b);
                proof {
                    assert forall|q: int| 0 <= q < ends@.len() implies (#[trigger] ends@[q])@ == edge_ends(
                        ts,
                        k + 1,
                        edges@[q],
                    ) by {
                        if q != m {
                            assert(lookup@[edge_code(edges@[q]) as u128] == q);
                            assert(edges@[q] != e);
                            assert(ends@[q] == old_ends[q]);
                        }
                    }
                }
            },
            None => {
                proof {
                    assert forall|j: int| 0 <= j < k implies side_edge(ts, j) != side_edge(ts, k as int) by {
                        let w = slot[j];
                        assert(lookup@.contains_key(edge_code(old_edges[w]) as u128));
                    }
                    assert(opens_edge(ts, k as int));
                    assert forall|q: int| 0 <= q < old_edges.len() implies old_edges[q] != e by {
                        assert(lookup@.contains_key(edge_code(old_edges[q]) as u128));
                    }
                    lemma_edge_ends_absent(ts, k as int, e);
                }
                let m = edges.len();
                let mut v: Vec<usize> = Vec::new();
                v.push(a);
                v.push(b);
                edges.push(e);
                ends.push(v);
                lookup.insert(code, m);
                proof {
                    slot = slot.push(m as int);
                    origin = origin.push(k as int);
                    assert forall|q: int| 0 <= q < ends@.len() implies (#[trigger] ends@[q])@ == edge_ends(
                        ts,
                        k + 1,
                        edges@[q],
                    ) by {
                        if q < m {
                            assert(edges@[q] == old_edges[q]);
                            assert(ends@[q] == old_ends[q]);
                        }
                    }
                    assert forall|c2: u128| #[trigger] lookup@.contains_key(c2) implies lookup@[c2] < edges@.len()
                        && edge_code(edges@[lookup@[c2] as int]) == c2 by {
                        if c2 != code {
                            assert(edges@[lookup@[c2] as int] == old_edges[lookup@[c2] as int]);
                        }
                    }
                }
            },
        }
        k = k + 1;
    }
    (edges, ends)
}

/// The edges of the first `count` sides, each once: every side's edge is
/// among them, every one of them is some side's edge, and no edge comes
/// twice.
proof fn lemma_edges_in_order(tris: Seq<Tri>, count: int)
    requires
        0 <= count,
    ensures
        forall|j: int| 0 <= j < count ==> edges_in_order(tris, count).contains(#[trigger] side_edge(tris, j)),
        forall|m: int|
            #![trigger edges_in_order(tris, count)[m]]
            0 <= m < edges_in_order(tris, count).len() ==> exists|j: int|
                0 <= j < count && #[trigger] side_edge(tris, j) == edges_in_order(tris, count)[m],
        forall|a: int, b: int|
            0 <= a < b < edges_in_order(tris, count).len() ==> edges_in_order(tris, count)[a]
                != edges_in_order(tris, count)[b],
    decreases count,
{
    if count > 0 {
        let k = count - 1;
        lemma_edges_in_order(tris, k);
        let prev = edges_in_order(tris, k);
        let cur = edges_in_order(tris, count);
        assert forall|j: int| 0 <= j < count implies cur.contains(#[trigger] side_edge(tris, j)) by {
            if j < k {
                let m = choose|m: int| 0 <= m < prev.len() && prev[m] == side_edge(tris, j);
                assert(cur[m] == prev[m]);
            } else if opens_edge(tris, k) {
                assert(cur[cur.len() - 1] == side_edge(tris, k));
            } else {
                let i = choose|i: int| 0 <= i < k && side_edge(tris, i) == side_edge(tris, k);
                assert(prev.contains(side_edge(tris, i)));
                let m = choose|m: int| 0 <= m < prev.len() && prev[m] == side_edge(tris, i);
                assert(cur[m] == prev[m]);
            }
        }
        assert forall|m: int| #![trigger cur[m]] 0 <= m < cur.len() implies exists|j: int|
            0 <= j < count && #[trigger] side_edge(tris, j) == cur[m] by {
            if m < prev.len() {
                assert(cur[m] == prev[m]);
                let j = choose|j: int| 0 <= j < k && #[trigger] side_edge(tris, j) == prev[m];
            } else {
                assert(side_edge(tris, k) == cur[m]);
            }
        }
        assert forall|a: int, b: int| 0 <= a < b < cur.len() implies cur[a] != cur[b] by {
            if b >= prev.len() {
                assert(cur[a] == prev[a]);
                let j = choose|j: int| 0 <= j < k && #[trigger] side_edge(tris, j) == prev[a];
                assert(side_edge(tris, j) != side_edge(tris, k));
            } else {
                assert(cur[a] == prev[a] && cur[b] == prev[b]);
            }
        }
    }
}

/// The shared-edge report names every edge of the mesh exactly once: each
/// triangle side runs along one of its edges, each of its edges is run
/// along by some side, and no edge is listed twice.
pub proof fn law_edge_map_keys(tris: Seq<Tri>)
    ensures
        ({
            let keys = edges_in_order(tris, 3 * tris.len() as int);
            &&& forall|j: int| 0 <= j < 3 * tris.len() ==> keys.contains(#[trigger] side_edge(tris, j))
            &&& forall|m: int|
                #![trigger keys[m]]
                0 <= m < keys.len() ==> exists|j: int|
                    0 <= j < 3 * tris.len() && #[trigger] side_edge(tris, j) == keys[m]
            &&& forall|a: int, b: int| 0 <= a < b < keys.len() ==> keys[a] != keys[b]
        }),
{
    lemma_edges_in_order(tris, 3 * tris.len() as int);
}

/// An edge that no side so far runs along has no recorded end points.
proof fn lemma_edge_ends_absent(tris: Seq<Tri>, count: int, e: (usize, usize))
    requires
        forall|j: int| 0 <= j < count ==> side_edge(tris, j) != e,
    ensures
        edge_ends(tris, count, e) == Seq::<usize>::empty(),
    decreases count,
{
    if count > 0 {
        lemma_edge_ends_absent(tris, count - 1, e);
    }
}

} // verus!

//! Index bookkeeping of triangle meshes: building triangles from index
//! lists, welding vertices that share a quantized position, and collecting
//! the edges of a face.
use vstd::prelude::*;
use std::collections::HashMap;
use vstd::arithmetic::div_mod::lemma_fundamental_div_mod_converse;

verus! {

/// A triangle of a mesh: three indices into the vertex buffer and the
/// material it is drawn with, if any.
#[derive(Debug, Clone, Copy, PartialEq, Eq)]
pub struct Tri {
    pub vertices: [usize; 3],
    pub material: Option<usize>,
}

/// Triangle `t` built from the index list: three consecutive indices, each
/// offset by `base`.
pub open spec fn indexed_tri(indices: Seq<u32>, base: int, material: Option<usize>, t: int) -> Tri {
    Tri {
        vertices: [
            (base + indices[3 * t]) as usize,
            (base + indices[3 * t + 1]) as usize,
            (base + indices[3 * t + 2]) as usize,
        ],
        material,
    }
}

/// The triangles of a triangulated index list, three indices each, all
/// offset by `base` (the number of vertices already in the mesh) and drawn
/// with `material`.
pub fn tris_from_indices(indices: &Vec<u32>, base: usize, material: Option<usize>) -> (tris: Vec<Tri>)
    requires
        indices@.len() % 3 == 0,
        forall|i: int| 0 <= i < indices@.len() ==> base + #[trigger] indices@[i] <= usize::MAX,
    ensures
        tris@.len() == indices@.len() / 3,
        forall|t: int|
            0 <= t < tris@.len() ==> #[trigger] tris@[t] == indexed_tri(
                indices@,
                base as int,
                material,
                t,
            ),
{
    let mut tris: Vec<Tri> = Vec::new();
    let n = indices.len();
    let mut i: usize = 0;
    while i < n
        invariant
            n == indices@.len(),
            n % 3 == 0,
            i % 3 == 0,
            i <= n,
            tris@.len() == i / 3,
            forall|k: int| 0 <= k < indices@.len() ==> base + #[trigger] indices@[k] <= usize::MAX,
            forall|t: int|
                0 <= t < tris@.len() ==> #[trigger] tris@[t] == indexed_tri(
                    indices@,
                    base as int,
                    material,
                    t,
                ),
        decreases n - i,
    {
        assert(i + 3 <= n);
        let t = Tri {
            vertices: [
                base + indices[i] as usize,
                base + indices[i + 1] as usize,
                base + indices[i + 2] as usize,
            ],
            material,
        };
        assert(t == indexed_tri(indices@, base as int, material, (i / 3) as int));
        tris.push(t);
        i = i + 3;
    }
    tris
}

/// The complete index triples of a list, in order; a trailing incomplete
/// triple is left out.
pub fn group_triangles(indices: &Vec<u32>) -> (groups: Vec<[u32; 3]>)
    ensures
        groups@.len() == indices@.len() / 3,
        forall|t: int|
            0 <= t < groups@.len() ==> #[trigger] groups@[t] == [
                indices@[3 * t],
                indices@[3 * t + 1],
                indices@[3 * t + 2],
            ],
{
    let mut groups: Vec<[u32; 3]> = Vec::new();
    let n = indices.len();
    let mut i: usize = 0;
    while n - i >= 3
        invariant
            n == indices@.len(),
            i % 3 == 0,
            i <= n,
            groups@.len() == i / 3,
            forall|t: int|
                0 <= t < groups@.len() ==> #[trigger] groups@[t] == [
                    indices@[3 * t],
                    indices@[3 * t + 1],
                    indices@[3 * t + 2],
                ],
        decreases n - i,
    {
        groups.push([indices[i], indices[i + 1], indices[i + 2]]);
        i = i + 3;
    }
    groups
}

/// A vertex position quantized to a grid: vertices with equal keys are
/// treated as one point when a mesh is welded.
#[derive(Debug, Clone, Copy, PartialEq, Eq, Hash, Structural)]
pub struct PositionKey(pub i32, pub i32, pub i32);

/// Injective integer code of a key, used to look keys up in a hash map.
pub open spec fn key_code(k: PositionKey) -> int {
    (k.0 + 0x8000_0000) * 0x1_0000_0000_0000_0000 + (k.1 + 0x8000_0000) * 0x1_0000_0000 + (k.2
        + 0x8000_0000)
}

/// The code of a key.
fn pack_key(k: PositionKey) -> (c: u128)
    ensures
        c == key_code(k),
{
    let a = (k.0 as i64 + 0x8000_0000) as u128;
    let b = (k.1 as i64 + 0x8000_0000) as u128;
    let c = (k.2 as i64 + 0x8000_0000) as u128;
    a * 0x1_0000_0000_0000_0000 + b * 0x1_0000_0000 + c
}

/// Different keys have different codes.
proof fn lemma_key_code_injective(k1: PositionKey, k2: PositionKey)
    requires
        key_code(k1) == key_code(k2),
    ensures
        k1 == k2,
{
    let m: int = 0x1_0000_0000;
    let (a1, b1, c1) = (k1.0 + 0x8000_0000, k1.1 + 0x8000_0000, k1.2 + 0x8000_0000);
    let (a2, b2, c2) = (k2.0 + 0x8000_0000, k2.1 + 0x8000_0000, k2.2 + 0x8000_0000);
    let x = key_code(k1);
    assert(x == (a1 * m + b1) * m + c1) by (nonlinear_arith)
        requires
            x == a1 * 0x1_0000_0000_0000_0000 + b1 * 0x1_0000_0000 + c1,
            m == 0x1_0000_0000,
    ;
    assert(x == (a2 * m + b2) * m + c2) by (nonlinear_arith)
        requires
            x == a2 * 0x1_0000_0000_0000_0000 + b2 * 0x1_0000_0000 + c2,
            m == 0x1_0000_0000,
    ;
    lemma_fundamental_div_mod_converse(x, m, a1 * m + b1, c1);
    lemma_fundamental_div_mod_converse(x, m, a2 * m + b2, c2);
    lemma_fundamental_div_mod_converse(a1 * m + b1, m, a1, b1);
    lemma_fundamental_div_mod_converse(a2 * m + b2, m, a2, b2);
}

/// Vertex `i` is the first with its key.
pub open spec fn is_first(keys: Seq<PositionKey>, i: int) -> bool {
    forall|j: int| 0 <= j < i ==> keys[j] != keys[i]
}

/// Indices of the vertices that come first with their key, in order: the
/// vertices a weld keeps.
pub open spec fn first_indices(keys: Seq<PositionKey>) -> Seq<usize> {
    Seq::new(keys.len(), |i: int| i as usize).filter(|i: usize| is_first(keys, i as int))
}

/// The keys of the vertices a weld keeps.
pub open spec fn kept_keys(keys: Seq<PositionKey>) -> Seq<PositionKey> {
    first_indices(keys).map_values(|i: usize| keys[i as int])
}

/// Some two vertices share a key.
pub open spec fn has_duplicate(keys: Seq<PositionKey>) -> bool {
    exists|i: int, j: int| 0 <= i < j < keys.len() && keys[i] == keys[j]
}

/// How to weld a mesh whose vertices have the given keys: the vertices to
/// keep (the first of each key, in order) and, for every vertex, the
/// position among the kept ones of the vertex with its key.
pub fn weld_plan(keys: &Vec<PositionKey>) -> (plan: (Vec<usize>, Vec<usize>))
    ensures
        plan.0@ == first_indices(keys@),
        plan.1@.len() == keys@.len(),
        forall|i: int|
            0 <= i < keys@.len() ==> #[trigger] plan.1@[i] < plan.0@.len() && keys@[plan.0@[plan.1@[i] as int] as int] == keys@[i],
{
    broadcast use vstd::std_specs::hash::group_hash_axioms;

    let n = keys.len();
    let ghost all = Seq::new(n as nat, |i: int| i as usize);
    let ghost pred = |i: usize| is_first(keys@, i as int);
    let mut kept: Vec<usize> = Vec::new();
    let mut remap: Vec<usize> = Vec::new();
    let mut lookup: HashMap<u128, usize> = HashMap::new();
    let mut i: usize = 0;
    while i < n
        invariant
            n == keys@.len(),
            i <= n,
            all == Seq::new(n as nat, |i: int| i as usize),
            pred == (|i: usize| is_first(keys@, i as int)),
            kept@ == all.take(i as int).filter(pred),
            remap@.len() == i,
            forall|m: int| 0 <= m < kept@.len() ==> #[trigger] kept@[m] < i,
            forall|j: int|
                0 <= j < i ==> #[trigger] remap@[j] < kept@.len() && keys@[kept@[remap@[j] as int] as int] == keys@[j],
            forall|j: int|
                0 <= j < i ==> lookup@.contains_key(#[trigger] key_code(keys@[j]) as u128)
                    && lookup@[key_code(keys@[j]) as u128] == remap@[j],
            forall|c: u128|
                #[trigger] lookup@.contains_key(c) ==> exists|j: int|
                    0 <= j < i && key_code(keys@[j]) == c,
        decreases n - i,
    {
        let code = pack_key(keys[i]);
        reveal_with_fuel(Seq::<_>::filter, 1);
        assert(all.take(i + 1).drop_last() == all.take(i as int));
        assert(all.take(i + 1).last() == i);
        match lookup.get(&code) {
            Some(idx) => {
                let idx = *idx;
                let ghost j = choose|j: int| 0 <= j < i && key_code(keys@[j]) == code;
                proof {
                    lemma_key_code_injective(keys@[j], keys@[i as int]);
                    assert(!pred(i));
                }
                remap.push(idx);
            },
            None => {
                proof {
                    assert forall|j: int| 0 <= j < i implies keys@[j] != keys@[i as int] by {
                        if keys@[j] == keys@[i as int] {
                            assert(lookup@.contains_key(key_code(keys@[j]) as u128));
                        }
                    }
                    assert(pred(i));
                }
                let idx = kept.len();
                kept.push(i);
                lookup.insert(code, idx);
                remap.push(idx);
            },
        }
        i = i + 1;
    }
    assert(all.take(n as int) == all);
    (kept, remap)
}

/// The length of a filtered sequence equals the length of the sequence
/// exactly when every element passes the filter.
proof fn lemma_filter_keeps_all<A>(s: Seq<A>, p: spec_fn(A) -> bool)
    ensures
        s.filter(p).len() <= s.len(),
        s.filter(p).len() == s.len() <==> (forall|k: int| 0 <= k < s.len() ==> p(#[trigger] s[k])),
    decreases s.len(),
{
    reveal_with_fuel(Seq::<_>::filter, 1);
    if s.len() > 0 {
        let d = s.drop_last();
        lemma_filter_keeps_all(d, p);
        if s.filter(p).len() == s.len() {
            assert forall|k: int| 0 <= k < s.len() implies p(#[trigger] s[k]) by {
                if k < s.len() - 1 {
                    assert(s[k] == d[k]);
                }
            }
        }
        if forall|k: int| 0 <= k < s.len() ==> p(#[trigger] s[k]) {
            assert forall|k: int| 0 <= k < d.len() implies p(#[trigger] d[k]) by {
                assert(d[k] == s[k]);
            }
        }
    }
}

/// A weld keeps fewer vertices than there are exactly when two vertices
/// share a key.
pub proof fn law_weld_shrinks_iff_duplicate(keys: Seq<PositionKey>)
    requires
        keys.len() <= usize::MAX,
    ensures
        first_indices(keys).len() <= keys.len(),
        first_indices(keys).len() < keys.len() <==> has_duplicate(keys),
{
    let all = Seq::new(keys.len(), |i: int| i as usize);
    let pred = |i: usize| is_first(keys, i as int);
    lemma_filter_keeps_all(all, pred);
    if has_duplicate(keys) {
        let (i, j) = choose|i: int, j: int| 0 <= i < j < keys.len() && keys[i] == keys[j];
        assert(all[j] == j as usize);
        assert(!pred(all[j]));
    } else {
        assert forall|k: int| 0 <= k < all.len() implies pred(#[trigger] all[k]) by {
            assert(all[k] == k as usize);
            assert forall|j: int| 0 <= j < k implies keys[j] != keys[k] by {
                if keys[j] == keys[k] {
                    assert(has_duplicate(keys));
                }
            }
        }
    }
}

/// Filtering a strictly increasing sequence keeps it strictly increasing,
/// and every element kept passes the filter.
proof fn lemma_filter_increasing(s: Seq<usize>, p: spec_fn(usize) -> bool)
    requires
        forall|a: int, b: int| 0 <= a < b < s.len() ==> s[a] < s[b],
    ensures
        forall|a: int, b: int|
            0 <= a < b < s.filter(p).len() ==> s.filter(p)[a] < s.filter(p)[b],
        forall|a: int| 0 <= a < s.filter(p).len() ==> p(#[trigger] s.filter(p)[a]),
        forall|a: int|
            0 <= a < s.filter(p).len() ==> exists|k: int|
                0 <= k < s.len() && s[k] == #[trigger] s.filter(p)[a],
    decreases s.len(),
{
    reveal_with_fuel(Seq::<_>::filter, 1);
    if s.len() > 0 {
        let d = s.drop_last();
        lemma_filter_increasing(d, p);
        let f = s.filter(p);
        let fd = d.filter(p);
        assert forall|a: int| 0 <= a < f.len() implies exists|k: int|
            0 <= k < s.len() && s[k] == #[trigger] f[a] by {
            if a < fd.len() {
                let k = choose|k: int| 0 <= k < d.len() && d[k] == fd[a];
                assert(s[k] == f[a]);
            } else {
                assert(s[s.len() - 1] == f[a]);
            }
        }
        assert forall|a: int, b: int| 0 <= a < b < f.len() implies f[a] < f[b] by {
            if b >= fd.len() {
                let k = choose|k: int| 0 <= k < d.len() && d[k] == fd[a];
                assert(f[a] == d[k]);
                assert(f[b] == s.last());
            }
        }
    }
}

/// The vertices kept by a weld are the first of their keys, in increasing
/// order.
proof fn lemma_first_indices_shape(keys: Seq<PositionKey>)
    requires
        keys.len() <= usize::MAX,
    ensures
        forall|a: int, b: int|
            0 <= a < b < first_indices(keys).len() ==> first_indices(keys)[a] < first_indices(
                keys,
            )[b],
        forall|a: int|
            0 <= a < first_indices(keys).len() ==> #[trigger] first_indices(keys)[a] < keys.len()
                && is_first(keys, first_indices(keys)[a] as int),
{
    let all = Seq::new(keys.len(), |i: int| i as usize);
    let pred = |i: usize| is_first(keys, i as int);
    lemma_filter_increasing(all, pred);
    assert forall|a: int|
        0 <= a < first_indices(keys).len() implies #[trigger] first_indices(keys)[a]
        < keys.len() by {
        let k = choose|k: int| 0 <= k < all.len() && all[k] == all.filter(pred)[a];
    }
}

/// No two vertices kept by a weld share a key, so welding a welded mesh
/// again changes nothing.
pub proof fn law_weld_idempotent(keys: Seq<PositionKey>)
    requires
        keys.len() <= usize::MAX,
    ensures
        !has_duplicate(kept_keys(keys)),
        first_indices(kept_keys(keys)).len() == kept_keys(keys).len(),
{
    lemma_first_indices_shape(keys);
    let f = first_indices(keys);
    let kk = kept_keys(keys);
    if has_duplicate(kk) {
        let (a, b) = choose|a: int, b: int| 0 <= a < b < kk.len() && kk[a] == kk[b];
        assert(f[a] < f[b]);
        assert(is_first(keys, f[b] as int));
        assert(keys[f[a] as int] == keys[f[b] as int]);
    }
    law_weld_shrinks_iff_duplicate(keys);
    law_weld_shrinks_iff_duplicate(kk);
}

/// Whether welding would merge any vertices: some two of them share a key.
pub fn needs_weld(keys: &Vec<PositionKey>) -> (b: bool)
    ensures
        b == has_duplicate(keys@),
{
    if keys.len() == 0 {
        return false;
    }
    let (kept, _remap) = weld_plan(keys);
    proof {
        law_weld_shrinks_iff_duplicate(keys@);
    }
    kept.len() < keys.len()
}

/// Merges the vertices that share a key. Each key keeps its first vertex,
/// in order, and every triangle is redirected to the kept vertex with the
/// key of the one it used; nothing changes, and `false` is returned, when
/// no two vertices share a key.
pub fn weld_vertices<V: Copy>(
    vertices: &mut Vec<V>,
    keys: &Vec<PositionKey>,
    tris: &mut Vec<Tri>,
) -> (welded: bool)
    requires
        old(vertices)@.len() == keys@.len(),
        has_duplicate(keys@) ==> forall|t: int, c: int|
            0 <= t < old(tris)@.len() && 0 <= c < 3 ==> #[trigger] old(tris)@[t].vertices[c]
                < keys@.len(),
    ensures
        welded == has_duplicate(keys@),
        !welded ==> final(vertices)@ == old(vertices)@ && final(tris)@ == old(tris)@,
        welded ==> final(vertices)@ == first_indices(keys@).map_values(
            |i: usize| old(vertices)@[i as int],
        ),
        welded ==> final(tris)@.len() == old(tris)@.len(),
        welded ==> forall|t: int|
            0 <= t < final(tris)@.len() ==> (#[trigger] final(tris)@[t]).material == old(
                tris,
            )@[t].material,
        welded ==> forall|t: int, c: int|
            0 <= t < final(tris)@.len() && 0 <= c < 3 ==> #[trigger] final(tris)@[t].vertices[c]
                < final(vertices)@.len() && kept_keys(keys@)[final(tris)@[t].vertices[c] as int]
                == keys@[old(tris)@[t].vertices[c] as int],
{
    let nk = keys.len();
    proof {
        law_weld_shrinks_iff_duplicate(keys@);
    }
    if vertices.len() == 0 {
        return false;
    }
    let (kept, remap) = weld_plan(keys);
    if kept.len() == vertices.len() {
        return false;
    }
    proof {
        lemma_first_indices_shape(keys@);
    }
    let n = vertices.len();
    let ghost kk = kept_keys(keys@);
    let mut t: usize = 0;
    while t < tris.len()
        invariant
            n == keys@.len(),
            remap@.len() == n,
            kept@ == first_indices(keys@),
            kk == kept_keys(keys@),
            forall|i: int|
                0 <= i < n ==> #[trigger] remap@[i] < kept@.len() && keys@[kept@[remap@[i] as int] as int] == keys@[i],
            tris@.len() == old(tris)@.len(),
            t <= tris@.len(),
            forall|u: int| 0 <= u < tris@.len() ==> (#[trigger] tris@[u]).material == old(tris)@[u].material,
            forall|u: int, c: int|
                t <= u < tris@.len() && 0 <= c < 3 ==> #[trigger] tris@[u].vertices[c] == old(tris)@[u].vertices[c],
            forall|u: int, c: int|
                0 <= u < old(tris)@.len() && 0 <= c < 3 ==> #[trigger] old(tris)@[u].vertices[c] < n,
            forall|u: int, c: int|
                0 <= u < t && 0 <= c < 3 ==> #[trigger] tris@[u].vertices[c] < kept@.len()
                    && kk[tris@[u].vertices[c] as int] == keys@[old(tris)@[u].vertices[c] as int],
        decreases tris@.len() - t,
    {
        let old_tri = tris[t];
        assert(old_tri.vertices[0] < n && old_tri.vertices[1] < n && old_tri.vertices[2] < n);
        let new_tri = Tri {
            vertices: [
                remap[old_tri.vertices[0]],
                remap[old_tri.vertices[1]],
                remap[old_tri.vertices[2]],
            ],
            material: old_tri.material,
        };
        tris.set(t, new_tri);
        t = t + 1;
    }
    let mut merged: Vec<V> = Vec::new();
    let mut m: usize = 0;
    while m < kept.len()
        invariant
            n == keys@.len(),
            vertices@.len() == n,
            vertices@ == old(vertices)@,
            kept@ == first_indices(keys@),
            forall|a: int| 0 <= a < kept@.len() ==> #[trigger] kept@[a] < n,
            m <= kept@.len(),
            merged@ == kept@.take(m as int).map_values(|i: usize| old(vertices)@[i as int]),
        decreases kept@.len() - m,
    {
        merged.push(vertices[kept[m]]);
        assert(kept@.take(m + 1) == kept@.take(m as int).push(kept@[m as int]));
        m = m + 1;
    }
    assert(kept@.take(kept@.len() as int) == kept@);
    *vertices = merged;
    true
}

/// Directed edge `k` of a list of triangles: triangle `k / 3` contributes
/// its edges `(a, b)`, `(b, c)` and `(c, a)` in that order.
#[verifier::opaque]
pub open spec fn tri_edge(tris: Seq<(usize, usize, usize)>, k: int) -> (usize, usize) {
    let t = tris[k / 3];
    if k % 3 == 0 {
        (t.0, t.1)
    } else if k % 3 == 1 {
        (t.1, t.2)
    } else {
        (t.2, t.0)
    }
}

/// Two directed edges join the same two vertices.
pub open spec fn same_edge(e: (usize, usize), f: (usize, usize)) -> bool {
    e == f || (e.0 == f.1 && e.1 == f.0)
}

/// Edge `k` joins two vertices that no earlier edge joins.
pub open spec fn first_edge(tris: Seq<(usize, usize, usize)>, k: int) -> bool {
    forall|j: int| 0 <= j < k ==> !same_edge(#[trigger] tri_edge(tris, j), tri_edge(tris, k))
}

/// Positions of the edges that join two vertices for the first time.
pub open spec fn first_edge_positions(tris: Seq<(usize, usize, usize)>, count: int) -> Seq<int> {
    Seq::new(count as nat, |k: int| k).filter(|k: int| first_edge(tris, k))
}

/// The edges of a face made of the given triangles: every triangle edge in
/// order, leaving out those joining two vertices an earlier edge already
/// joins (in either direction).
pub open spec fn face_edges(tris: Seq<(usize, usize, usize)>) -> Seq<(usize, usize)> {
    first_edge_positions(tris, 3 * tris.len() as int).map_values(|k: int| tri_edge(tris, k))
}

/// Whether `edges` holds `e`.
fn contains_edge(edges: &Vec<(usize, usize)>, e: (usize, usize)) -> (b: bool)
    ensures
        b == exists|m: int| 0 <= m < edges@.len() && edges@[m] == e,
{
    let mut m: usize = 0;
    while m < edges.len()
        invariant
            m <= edges@.len(),
            forall|q: int| 0 <= q < m ==> edges@[q] != e,
        decreases edges@.len() - m,
    {
        let q = edges[m];
        if q.0 == e.0 && q.1 == e.1 {
            return true;
        }
        m = m + 1;
    }
    false
}

/// Triangle edge `j` joins the same vertices as some collected edge.
pub open spec fn covered_at(ts: Seq<(usize, usize, usize)>, edges: Seq<(usize, usize)>, j: int) -> bool {
    exists|m: int| 0 <= m < edges.len() && same_edge(tri_edge(ts, j), edges[m])
}

/// Every one of the first `count` triangle edges joins the same vertices as
/// some collected edge.
pub open spec fn edges_cover(ts: Seq<(usize, usize, usize)>, edges: Seq<(usize, usize)>, count: int) -> bool {
    forall|j: int| 0 <= j < count ==> #[trigger] covered_at(ts, edges, j)
}

/// The first-occurrence positions among `k + 1` edges extend those among
/// `k` by `k` itself exactly when edge `k` is a first occurrence, and they
/// all lie below `k + 1`.
proof fn lemma_first_positions_step(ts: Seq<(usize, usize, usize)>, k: int)
    requires
        0 <= k,
        forall|m: int| 0 <= m < first_edge_positions(ts, k).len() ==> 0 <= #[trigger] first_edge_positions(ts, k)[m] < k,
    ensures
        first_edge_positions(ts, k + 1) == (if first_edge(ts, k) {
            first_edge_positions(ts, k).push(k)
        } else {
            first_edge_positions(ts, k)
        }),
        forall|m: int| 0 <= m < first_edge_positions(ts, k + 1).len() ==> 0 <= #[trigger] first_edge_positions(ts, k + 1)[m] < k + 1,
{
    let all = Seq::new((k + 1) as nat, |q: int| q);
    assert(all.drop_last() == Seq::new(k as nat, |q: int| q));
    assert(all.last() == k);
    reveal_with_fuel(Seq::<_>::filter, 1);
}

/// Handling edge `k`: it is added exactly when it joins two vertices that
/// no collected edge joins, which keeps the collection equal to the first
/// occurrences.
proof fn lemma_collect_step(
    ts: Seq<(usize, usize, usize)>,
    edges: Seq<(usize, usize)>,
    k: int,
    seen: bool,
    next: Seq<(usize, usize)>,
)
    requires
        0 <= k,
        edges == first_edge_positions(ts, k).map_values(|q: int| tri_edge(ts, q)),
        forall|m: int| 0 <= m < first_edge_positions(ts, k).len() ==> 0 <= #[trigger] first_edge_positions(ts, k)[m] < k,
        edges_cover(ts, edges, k),
        seen == exists|m: int| 0 <= m < edges.len() && same_edge(edges[m], tri_edge(ts, k)),
        next == (if seen {
            edges
        } else {
            edges.push(tri_edge(ts, k))
        }),
    ensures
        next == first_edge_positions(ts, k + 1).map_values(|q: int| tri_edge(ts, q)),
        forall|m: int| 0 <= m < first_edge_positions(ts, k + 1).len() ==> 0 <= #[trigger] first_edge_positions(ts, k + 1)[m] < k + 1,
        edges_cover(ts, next, k + 1),
{
    let fp = first_edge_positions(ts, k);
    let e = tri_edge(ts, k);
    if seen {
        let m = choose|m: int| 0 <= m < edges.len() && same_edge(edges[m], e);
        let j = fp[m];
        assert(edges[m] == tri_edge(ts, j));
        assert(0 <= j < k);
        assert(!first_edge(ts, k));
    } else {
        assert forall|j: int| 0 <= j < k implies !same_edge(#[trigger] tri_edge(ts, j), e) by {
            assert(covered_at(ts, edges, j));
            let m = choose|m: int| 0 <= m < edges.len() && same_edge(tri_edge(ts, j), edges[m]);
            if same_edge(tri_edge(ts, j), e) {
                assert(same_edge(edges[m], e));
            }
        }
        assert(first_edge(ts, k));
    }
    lemma_first_positions_step(ts, k);
    assert forall|j: int| 0 <= j < k + 1 implies #[trigger] covered_at(ts, next, j) by {
        if j < k {
            assert(covered_at(ts, edges, j));
            let m = choose|m: int| 0 <= m < edges.len() && same_edge(tri_edge(ts, j), edges[m]);
            assert(next[m] == edges[m]);
        } else if seen {
            let m = choose|m: int| 0 <= m < edges.len() && same_edge(edges[m], e);
            assert(same_edge(tri_edge(ts, j), next[m]));
        } else {
            assert(same_edge(tri_edge(ts, j), next[next.len() - 1]));
        }
    }
}

/// The first-occurrence edges among the first `k` cover all of them.
proof fn lemma_face_edges_prefix(ts: Seq<(usize, usize, usize)>, k: int)
    requires
        0 <= k,
    ensures
        forall|m: int| 0 <= m < first_edge_positions(ts, k).len() ==> 0 <= #[trigger] first_edge_positions(ts, k)[m] < k,
        edges_cover(ts, first_edge_positions(ts, k).map_values(|q: int| tri_edge(ts, q)), k),
    decreases k,
{
    if k == 0 {
        reveal_with_fuel(Seq::<_>::filter, 1);
        assert(first_edge_positions(ts, 0).len() == 0);
    } else {
        lemma_face_edges_prefix(ts, k - 1);
        let edges = first_edge_positions(ts, k - 1).map_values(|q: int| tri_edge(ts, q));
        let seen = exists|m: int| 0 <= m < edges.len() && same_edge(edges[m], tri_edge(ts, k - 1));
        let next = if seen {
            edges
        } else {
            edges.push(tri_edge(ts, k - 1))
        };
        lemma_collect_step(ts, edges, k - 1, seen, next);
    }
}

/// Filtering a strictly increasing sequence of integers keeps it strictly
/// increasing, and every element kept passes the filter.
proof fn lemma_filter_increasing_int(s: Seq<int>, p: spec_fn(int) -> bool)
    requires
        forall|a: int, b: int| 0 <= a < b < s.len() ==> s[a] < s[b],
    ensures
        forall|a: int, b: int|
            0 <= a < b < s.filter(p).len() ==> s.filter(p)[a] < s.filter(p)[b],
        forall|a: int| 0 <= a < s.filter(p).len() ==> p(#[trigger] s.filter(p)[a]),
        forall|a: int|
            0 <= a < s.filter(p).len() ==> exists|k: int|
                0 <= k < s.len() && s[k] == #[trigger] s.filter(p)[a],
    decreases s.len(),
{
    reveal_with_fuel(Seq::<_>::filter, 1);
    if s.len() > 0 {
        let d = s.drop_last();
        lemma_filter_increasing_int(d, p);
        let f = s.filter(p);
        let fd = d.filter(p);
        assert forall|a: int| 0 <= a < f.len() implies exists|k: int|
            0 <= k < s.len() && s[k] == #[trigger] f[a] by {
            if a < fd.len() {
                let k = choose|k: int| 0 <= k < d.len() && d[k] == fd[a];
                assert(s[k] == f[a]);
            } else {
                assert(s[s.len() - 1] == f[a]);
            }
        }
        assert forall|a: int, b: int| 0 <= a < b < f.len() implies f[a] < f[b] by {
            if b >= fd.len() {
                let k = choose|k: int| 0 <= k < d.len() && d[k] == fd[a];
                assert(f[a] == d[k]);
                assert(f[b] == s.last());
            }
        }
    }
}

/// The edges collected for a face join every pair of vertices that a
/// triangle edge joins, and no two of them join the same pair.
pub proof fn law_face_edges(ts: Seq<(usize, usize, usize)>)
    ensures
        forall|j: int|
            0 <= j < 3 * ts.len() ==> #[trigger] covered_at(ts, face_edges(ts), j),
        forall|a: int, b: int|
            0 <= a < b < face_edges(ts).len() ==> !same_edge(face_edges(ts)[a], face_edges(ts)[b]),
{
    let n = 3 * ts.len() as int;
    lemma_face_edges_prefix(ts, n);
    assert(face_edges(ts) =~= first_edge_positions(ts, n).map_values(|q: int| tri_edge(ts, q)));
    assert(edges_cover(ts, face_edges(ts), n));
    let all = Seq::new(n as nat, |q: int| q);
    let pred = |q: int| first_edge(ts, q);
    lemma_filter_increasing_int(all, pred);
    let fp = first_edge_positions(ts, n);
    assert forall|a: int, b: int| 0 <= a < b < face_edges(ts).len() implies !same_edge(
        face_edges(ts)[a],
        face_edges(ts)[b],
    ) by {
        assert(fp[a] < fp[b]);
        assert(pred(fp[b]));
        assert(0 <= fp[a]);
        assert(face_edges(ts)[a] == tri_edge(ts, fp[a]));
        assert(face_edges(ts)[b] == tri_edge(ts, fp[b]));
    }
}

/// The edges of a face made of the given triangles, each pair of joined
/// vertices once, in the order the triangles first use them.
pub fn collect_edges(tris: &Vec<(usize, usize, usize)>) -> (edges: Vec<(usize, usize)>)
    requires
        3 * tris@.len() <= usize::MAX,
    ensures
        edges@ == face_edges(tris@),
{
    let ghost ts = tris@;
    let mut edges: Vec<(usize, usize)> = Vec::new();
    let total = 3 * tris.len();
    let mut k: usize = 0;
    proof {
        reveal_with_fuel(Seq::<_>::filter, 1);
        assert(first_edge_positions(ts, 0).len() == 0);
    }
    while k < total
        invariant
            ts == tris@,
            total == 3 * ts.len(),
            k <= total,
            edges@ == first_edge_positions(ts, k as int).map_values(|q: int| tri_edge(ts, q)),
            forall|m: int| 0 <= m < first_edge_positions(ts, k as int).len() ==> 0 <= #[trigger] first_edge_positions(ts, k as int)[m] < k,
            edges_cover(ts, edges@, k as int),
        decreases total - k,
    {
        let tri = tris[k / 3];
        let e = k % 3;
        let edge = if e == 0 {
            (tri.0, tri.1)
        } else if e == 1 {
            (tri.1, tri.2)
        } else {
            (tri.2, tri.0)
        };
        assert(edge == tri_edge(ts, k as int)) by {
            reveal(tri_edge);
        }
        let seen = contains_edge(&edges, edge) || contains_edge(&edges, (edge.1, edge.0));
        let ghost before = edges@;
        if !seen {
            edges.push(edge);
        }
        proof {
            lemma_collect_step(ts, before, k as int, seen, edges@);
        }
        k = k + 1;
    }
    edges
}

} // verus!

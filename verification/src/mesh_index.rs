//! Index-buffer logic of the mesh writers: first-occurrence numbering (the vertex
//! weld and the compaction to referenced vertices), the vertex-cache pass, and the
//! index patterns of the tessellator (quads and ring fans).
use std::collections::HashMap;
use std::hash::Hash;
use vstd::prelude::*;
use vstd::std_specs::hash::obeys_key_model;

verus! {

/// `ids` numbers `keys` by first occurrence: equal keys get equal numbers and
/// different keys different ones; the numbers count up from 0 in the order in which
/// the distinct keys first occur, and `firsts[j]` is where number `j` occurs first.
pub open spec fn is_numbering<K>(keys: Seq<K>, ids: Seq<u32>, firsts: Seq<usize>) -> bool {
    &&& ids.len() == keys.len()
    &&& forall|i: int| 0 <= i < ids.len() ==> (#[trigger] ids[i]) < firsts.len()
    &&& forall|j: int| 0 <= j < firsts.len() ==> (#[trigger] firsts[j]) < keys.len() && ids[firsts[j] as int] == j
    &&& forall|i: int| 0 <= i < ids.len() ==> firsts[#[trigger] ids[i] as int] <= i
    &&& forall|j: int, k: int| 0 <= j < k < firsts.len() ==> #[trigger] firsts[j] < #[trigger] firsts[k]
    &&& forall|i: int, j: int|
        0 <= i < keys.len() && 0 <= j < keys.len() ==> (#[trigger] ids[i] == #[trigger] ids[j] <==> keys[i] == keys[j])
}

/// A numbering depends on the keys only through which of them are equal.
pub proof fn lemma_numbering_transfer<K1, K2>(k1: Seq<K1>, k2: Seq<K2>, ids: Seq<u32>, firsts: Seq<usize>)
    requires
        is_numbering(k1, ids, firsts),
        k2.len() == k1.len(),
        forall|i: int, j: int| 0 <= i < k1.len() && 0 <= j < k1.len() ==> (k1[i] == k1[j] <==> k2[i] == k2[j]),
    ensures
        is_numbering(k2, ids, firsts),
{
    assert forall|i: int, j: int| 0 <= i < k2.len() && 0 <= j < k2.len() implies (#[trigger] ids[i] == #[trigger] ids[j] <==> k2[i] == k2[j]) by {
        assert(k1[i] == k1[j] <==> k2[i] == k2[j]);
    }
}

/// Numbers `keys` by first occurrence (see [`is_numbering`]): the weld of equal keys
/// to one vertex.
pub fn number_keys<K: Copy + Eq + Hash>(keys: &[K]) -> (r: (Vec<u32>, Vec<usize>))
    requires
        obeys_key_model::<K>(),
        keys@.len() < u32::MAX,
    ensures
        is_numbering(keys@, r.0@, r.1@),
{
    broadcast use vstd::std_specs::hash::group_hash_axioms;
    let mut map: HashMap<K, u32> = HashMap::new();
    let mut ids: Vec<u32> = Vec::new();
    let mut firsts: Vec<usize> = Vec::new();
    let mut i: usize = 0;
    while i < keys.len()
        invariant
            obeys_key_model::<K>(),
            keys@.len() < u32::MAX,
            i <= keys@.len(),
            firsts@.len() <= i,
            is_numbering(keys@.subrange(0, i as int), ids@, firsts@),
            forall|j: int| 0 <= j < i ==> #[trigger] map@.contains_key(keys@[j]) && map@[keys@[j]] == ids@[j],
            forall|k: K| #[trigger] map@.contains_key(k) ==> map@[k] < firsts@.len() && keys@[firsts@[map@[k] as int] as int] == k,
        decreases keys.len() - i,
    {
        let k = keys[i];
        let ghost pre = keys@.subrange(0, i as int);
        let ghost next = keys@.subrange(0, i + 1);
        assert(forall|j: int| 0 <= j < i ==> next[j] == pre[j]);
        assert(next[i as int] == k);
        match map.get(&k) {
            Some(id) => {
                let id = *id;
                proof {
                    let f = firsts@[id as int] as int;
                    assert(pre[f] == k);
                    assert(ids@[f] == id);
                }
                let ghost ids0 = ids@;
                ids.push(id);
                proof {
                    assert forall|j: int| 0 <= j < i + 1 implies #[trigger] map@.contains_key(keys@[j]) && map@[keys@[j]] == ids@[j] by {
                        if j < i {
                            assert(ids@[j] == ids0[j]);
                        }
                    }
                    assert forall|a: int, b: int| 0 <= a < next.len() && 0 <= b < next.len() implies (#[trigger] ids@[a] == #[trigger] ids@[b] <==> next[a] == next[b]) by {
                        let f = firsts@[id as int] as int;
                        if a < i && b < i {
                            assert(ids@[a] == ids@[b] <==> pre[a] == pre[b]);
                        } else if a == i && b < i {
                            assert(ids@[f] == ids@[b] <==> pre[f] == pre[b]);
                        } else if b == i && a < i {
                            assert(ids@[f] == ids@[a] <==> pre[f] == pre[a]);
                        }
                    }
                }
            },
            None => {
                let id = firsts.len() as u32;
                proof {
                    assert forall|j: int| 0 <= j < i implies pre[j] != k by {
                        assert(map@.contains_key(keys@[j]));
                    }
                }
                let ghost m0 = map@;
                let ghost ids0 = ids@;
                map.insert(k, id);
                ids.push(id);
                firsts.push(i);
                proof {
                    assert forall|j: int| 0 <= j < i + 1 implies #[trigger] map@.contains_key(keys@[j]) && map@[keys@[j]] == ids@[j] by {
                        if j < i {
                            assert(ids@[j] == ids0[j]);
                            assert(pre[j] != k);
                            assert(keys@[j] == pre[j]);
                        }
                    }
                    assert forall|a: int, b: int| 0 <= a < next.len() && 0 <= b < next.len() implies (#[trigger] ids@[a] == #[trigger] ids@[b] <==> next[a] == next[b]) by {
                        if a < i && b < i {
                            assert(ids@[a] == ids@[b] <==> pre[a] == pre[b]);
                        } else if a == i && b < i {
                            assert(ids@[b] < id);
                        } else if b == i && a < i {
                            assert(ids@[a] < id);
                        }
                    }
                    assert forall|k2: K| #[trigger] map@.contains_key(k2) implies map@[k2] < firsts@.len() && keys@[firsts@[map@[k2] as int] as int] == k2 by {
                        if k2 != k {
                            assert(m0.contains_key(k2));
                        }
                    }
                }
            },
        }
        i += 1;
    }
    assert(keys@.subrange(0, keys@.len() as int) == keys@);
    (ids, firsts)
}

/// The keys `(xs[i], ys[i], zs[i])`.
pub open spec fn triples(xs: Seq<i64>, ys: Seq<i64>, zs: Seq<i64>) -> Seq<(i64, i64, i64)> {
    Seq::new(xs.len(), |i: int| (xs[i], ys[i], zs[i]))
}

/// Two numbers below 2^32 packed into one word are equal exactly when both are.
proof fn lemma_pack_injective(a: u32, b: u32, c: u32, d: u32)
    ensures
        (a as int) * 0x1_0000_0000 + b < 0x1_0000_0000_0000_0000,
        ((a as int) * 0x1_0000_0000 + b == (c as int) * 0x1_0000_0000 + d) <==> (a == c && b == d),
{
    assert((a as int) * 0x1_0000_0000 + b < 0x1_0000_0000_0000_0000) by (nonlinear_arith)
        requires
            a < 0x1_0000_0000,
            b < 0x1_0000_0000,
    ;
    assert(((a as int) * 0x1_0000_0000 + b == (c as int) * 0x1_0000_0000 + d) ==> (a == c && b == d)) by (nonlinear_arith)
        requires
            a < 0x1_0000_0000,
            b < 0x1_0000_0000,
            c < 0x1_0000_0000,
            d < 0x1_0000_0000,
    ;
}

/// Packs `hi[i]` and `lo[i]` into one word each.
fn pack_pairs(hi: &[u32], lo: &[u32]) -> (r: Vec<u64>)
    requires
        hi@.len() == lo@.len(),
    ensures
        r@.len() == hi@.len(),
        forall|i: int, j: int| 0 <= i < r@.len() && 0 <= j < r@.len() ==> (r@[i] == r@[j] <==> (hi@[i] == hi@[j] && lo@[i] == lo@[j])),
{
    let mut r: Vec<u64> = Vec::new();
    let mut i: usize = 0;
    while i < hi.len()
        invariant
            i <= hi@.len(),
            hi@.len() == lo@.len(),
            r@.len() == i,
            forall|k: int| 0 <= k < i ==> #[trigger] r@[k] == (hi@[k] as int) * 0x1_0000_0000 + lo@[k],
        decreases hi.len() - i,
    {
        proof {
            lemma_pack_injective(hi@[i as int], lo@[i as int], 0, 0);
        }
        r.push((hi[i] as u64) * 0x1_0000_0000 + (lo[i] as u64));
        i += 1;
    }
    proof {
        assert forall|a: int, b: int| 0 <= a < r@.len() && 0 <= b < r@.len() implies (r@[a] == r@[b] <==> (hi@[a] == hi@[b] && lo@[a] == lo@[b])) by {
            lemma_pack_injective(hi@[a], lo@[a], hi@[b], lo@[b]);
        }
    }
    r
}

/// Welds positions given by their grid keys: numbers the key triples
/// `(xs[i], ys[i], zs[i])` by first occurrence (see [`is_numbering`]).
pub fn weld_keys(xs: &[i64], ys: &[i64], zs: &[i64]) -> (r: (Vec<u32>, Vec<usize>))
    requires
        xs@.len() == ys@.len(),
        xs@.len() == zs@.len(),
        xs@.len() < u32::MAX,
    ensures
        is_numbering(triples(xs@, ys@, zs@), r.0@, r.1@),
{
    broadcast use vstd::std_specs::hash::group_hash_axioms;
    let (nx, fx) = number_keys(xs);
    let (ny, fy) = number_keys(ys);
    let (nz, fz) = number_keys(zs);
    let pxy = pack_pairs(nx.as_slice(), ny.as_slice());
    let (nxy, fxy) = number_keys(pxy.as_slice());
    let p = pack_pairs(nxy.as_slice(), nz.as_slice());
    let r = number_keys(p.as_slice());
    proof {
        let t = triples(xs@, ys@, zs@);
        assert forall|i: int, j: int| 0 <= i < p@.len() && 0 <= j < p@.len() implies (p@[i] == p@[j] <==> t[i] == t[j]) by {
            assert(nx@[i] == nx@[j] <==> xs@[i] == xs@[j]);
            assert(ny@[i] == ny@[j] <==> ys@[i] == ys@[j]);
            assert(nz@[i] == nz@[j] <==> zs@[i] == zs@[j]);
            assert(nxy@[i] == nxy@[j] <==> pxy@[i] == pxy@[j]);
        }
        lemma_numbering_transfer(p@, t, r.0@, r.1@);
    }
    r
}

/// The keys `(a[i], b[i])`.
pub open spec fn pairs(a: Seq<u64>, b: Seq<u32>) -> Seq<(u64, u32)> {
    Seq::new(a.len(), |i: int| (a[i], b[i]))
}

/// Numbers the pairs `(a[i], b[i])` by first occurrence (see [`is_numbering`]): one
/// mesh per shape and colour.
pub fn number_pairs(a: &[u64], b: &[u32]) -> (r: (Vec<u32>, Vec<usize>))
    requires
        a@.len() == b@.len(),
        a@.len() < u32::MAX,
    ensures
        is_numbering(pairs(a@, b@), r.0@, r.1@),
{
    broadcast use vstd::std_specs::hash::group_hash_axioms;
    let (na, fa) = number_keys(a);
    let p = pack_pairs(na.as_slice(), b);
    let r = number_keys(p.as_slice());
    proof {
        let t = pairs(a@, b@);
        assert forall|i: int, j: int| 0 <= i < p@.len() && 0 <= j < p@.len() implies (p@[i] == p@[j] <==> t[i] == t[j]) by {
            assert(na@[i] == na@[j] <==> a@[i] == a@[j]);
        }
        lemma_numbering_transfer(p@, t, r.0@, r.1@);
    }
    r
}

/// Key `i` occurs again elsewhere in `keys`.
pub open spec fn occurs_twice(keys: Seq<u64>, i: int) -> bool {
    exists|j: int| 0 <= j < keys.len() && j != i && keys[j] == keys[i]
}

/// For each key whether another position holds the same key: the shapes that more
/// than one primitive shares.
pub fn shared_keys(keys: &[u64]) -> (r: Vec<bool>)
    requires
        keys@.len() < u32::MAX,
    ensures
        r@.len() == keys@.len(),
        forall|i: int| 0 <= i < keys@.len() ==> (#[trigger] r@[i] <==> occurs_twice(keys@, i)),
{
    broadcast use vstd::std_specs::hash::group_hash_axioms;
    let (ids, firsts) = number_keys(keys);
    let n = keys.len();
    let m = firsts.len();
    // how many times each number occurs, capped at 2
    let mut seen: Vec<u8> = Vec::new();
    let mut j: usize = 0;
    while j < m
        invariant
            j <= m,
            m == firsts@.len(),
            seen@.len() == j,
            forall|k: int| 0 <= k < j ==> #[trigger] seen@[k] == 0,
        decreases m - j,
    {
        seen.push(0);
        j += 1;
    }
    let ghost cnt = |x: int, upto: int| Set::new(|i: int| 0 <= i < upto && ids@[i] == x);
    let mut i: usize = 0;
    while i < n
        invariant
            is_numbering(keys@, ids@, firsts@),
            n == keys@.len(),
            m == firsts@.len(),
            i <= n,
            seen@.len() == m,
            forall|x: int| 0 <= x < m ==> (#[trigger] seen@[x] == 0 <==> forall|k: int| 0 <= k < i ==> ids@[k] != x),
            forall|x: int| 0 <= x < m ==> (#[trigger] seen@[x] >= 2 <==> exists|k1: int, k2: int| 0 <= k1 < k2 < i && ids@[k1] == x && ids@[k2] == x),
            forall|x: int| 0 <= x < m ==> #[trigger] seen@[x] <= 2,
        decreases n - i,
    {
        let x = ids[i] as usize;
        let ghost s0 = seen@;
        if seen[x] < 2 {
            seen[x] = seen[x] + 1;
        }
        proof {
            assert forall|y: int| 0 <= y < m implies (#[trigger] seen@[y] == 0 <==> forall|k: int| 0 <= k < i + 1 ==> ids@[k] != y) by {
                if y != x as int {
                    assert(seen@[y] == s0[y]);
                }
            }
            assert forall|y: int| 0 <= y < m implies (#[trigger] seen@[y] >= 2 <==> exists|k1: int, k2: int| 0 <= k1 < k2 < i + 1 && ids@[k1] == y && ids@[k2] == y) by {
                if y != x as int {
                    assert(seen@[y] == s0[y]);
                    if exists|k1: int, k2: int| 0 <= k1 < k2 < i + 1 && ids@[k1] == y && ids@[k2] == y {
                        let (k1, k2) = choose|k1: int, k2: int| 0 <= k1 < k2 < i + 1 && ids@[k1] == y && ids@[k2] == y;
                        assert(k2 < i);
                    }
                } else {
                    if s0[y] == 1 {
                        let k1 = choose|k1: int| 0 <= k1 < i && !(ids@[k1] != y);
                        assert(0 <= k1 < i as int && ids@[k1] == y && ids@[i as int] == y);
                    }
                    if s0[y] == 0 {
                        if exists|k1: int, k2: int| 0 <= k1 < k2 < i + 1 && ids@[k1] == y && ids@[k2] == y {
                            let (k1, k2) = choose|k1: int, k2: int| 0 <= k1 < k2 < i + 1 && ids@[k1] == y && ids@[k2] == y;
                            assert(ids@[k1] != y);
                        }
                    }
                    if s0[y] >= 2 {
                        let (k1, k2) = choose|k1: int, k2: int| 0 <= k1 < k2 < i && ids@[k1] == y && ids@[k2] == y;
                        assert(0 <= k1 < k2 < i + 1 && ids@[k1] == y && ids@[k2] == y);
                    }
                }
            }
        }
        i += 1;
    }
    let mut r: Vec<bool> = Vec::new();
    let mut i: usize = 0;
    while i < n
        invariant
            is_numbering(keys@, ids@, firsts@),
            n == keys@.len(),
            m == firsts@.len(),
            i <= n,
            seen@.len() == m,
            forall|x: int| 0 <= x < m ==> (#[trigger] seen@[x] >= 2 <==> exists|k1: int, k2: int| 0 <= k1 < k2 < n && ids@[k1] == x && ids@[k2] == x),
            r@.len() == i,
            forall|k: int| 0 <= k < i ==> (#[trigger] r@[k] <==> occurs_twice(keys@, k)),
        decreases n - i,
    {
        let x = ids[i] as usize;
        let shared = seen[x] >= 2;
        proof {
            let xi = x as int;
            if shared {
                let (k1, k2) = choose|k1: int, k2: int| 0 <= k1 < k2 < n && ids@[k1] == xi && ids@[k2] == xi;
                let other = if k1 != i as int { k1 } else { k2 };
                assert(ids@[other] == ids@[i as int]);
                assert(keys@[other] == keys@[i as int]);
                assert(occurs_twice(keys@, i as int));
            }
            if occurs_twice(keys@, i as int) {
                let j = choose|j: int| 0 <= j < keys@.len() && j != i && keys@[j] == keys@[i as int];
                assert(ids@[j] == ids@[i as int]);
                if j < i {
                    assert(0 <= j < i < n && ids@[j] == xi && ids@[i as int] == xi);
                } else {
                    assert(0 <= i < j < n && ids@[i as int] == xi && ids@[j] == xi);
                }
            }
        }
        r.push(shared);
        i += 1;
    }
    r
}

/// The colour of a primitive in the instanced output: with highlighting, yellow for a
/// shape that several primitives share and grey for a one-off; otherwise its node's colour.
pub open spec fn spec_instanced_color(highlight: bool, shared: bool, node_color: u32) -> u32 {
    if highlight {
        if shared { 0xFF_FF_FF_00 } else { 0xFF_80_80_80 }
    } else {
        node_color
    }
}

/// With highlighting on, a primitive whose shape another primitive shares (see
/// [`shared_keys`]) is yellow `0xFFFFFF00` and one whose shape no other primitive has
/// is grey `0xFF808080`; with it off, every primitive keeps its node's colour.
pub proof fn law_highlight_marks_shared_shapes(keys: Seq<u64>, i: int, j: int, node_color: u32)
    requires
        0 <= i < keys.len(),
    ensures
        0 <= j < keys.len() && j != i && keys[j] == keys[i] ==>
            spec_instanced_color(true, occurs_twice(keys, i), node_color) == 0xFF_FF_FF_00u32,
        (forall|m: int| 0 <= m < keys.len() && m != i ==> keys[m] != keys[i]) ==>
            spec_instanced_color(true, occurs_twice(keys, i), node_color) == 0xFF_80_80_80u32,
        forall|shared: bool| spec_instanced_color(false, shared, node_color) == node_color,
{
}

/// See [`spec_instanced_color`].
pub fn instanced_color(highlight: bool, shared: bool, node_color: u32) -> (c: u32)
    ensures
        c == spec_instanced_color(highlight, shared, node_color),
{
    if highlight {
        if shared { 0xFF_FF_FF_00 } else { 0xFF_80_80_80 }
    } else {
        node_color
    }
}

/// `new` renumbers the values of `s` by first occurrence and `order` lists the values
/// in that order: `order[j]` is the value numbered `j`.
pub open spec fn is_compaction(s: Seq<u32>, new: Seq<u32>, order: Seq<u32>) -> bool {
    exists|firsts: Seq<usize>|
        #[trigger] is_numbering(s, new, firsts) && firsts.len() == order.len() && forall|j: int|
            0 <= j < order.len() ==> order[j] == s[firsts[j] as int]
}

/// The values of `order` picked by `new`.
pub open spec fn remapped(new: Seq<u32>, order: Seq<u32>) -> Seq<u32> {
    new.map_values(|x: u32| order[x as int])
}

/// A compaction lists each value once, and mapping the new indices back through the
/// order gives the original indices.
pub proof fn law_compaction_round_trip(s: Seq<u32>, new: Seq<u32>, order: Seq<u32>)
    requires
        is_compaction(s, new, order),
    ensures
        order.no_duplicates(),
        new.len() == s.len(),
        forall|i: int| 0 <= i < new.len() ==> #[trigger] new[i] < order.len(),
        remapped(new, order) == s,
{
    let firsts = choose|firsts: Seq<usize>| #[trigger] is_numbering(s, new, firsts) && firsts.len() == order.len() && forall|j: int|
            0 <= j < order.len() ==> order[j] == s[firsts[j] as int];
    assert forall|a: int, b: int| 0 <= a < order.len() && 0 <= b < order.len() && a != b implies order[a] != order[b] by {
        let fa = firsts[a] as int;
        let fb = firsts[b] as int;
        assert(new[fa] == a && new[fb] == b);
        assert(new[fa] == new[fb] <==> s[fa] == s[fb]);
    }
    assert forall|i: int| 0 <= i < new.len() implies remapped(new, order)[i] == s[i] by {
        let j = new[i] as int;
        let f = firsts[j] as int;
        assert(new[f] == j);
        assert(new[f] == new[i] <==> s[f] == s[i]);
    }
    assert(remapped(new, order) =~= s);
}

/// Renumbers the vertices that `indices` uses in the order of first use, so that
/// only referenced vertices remain (see [`is_compaction`]); returns the new indices
/// and, for each new vertex, the old one.
pub fn compact_indices(indices: &[u32]) -> (r: (Vec<u32>, Vec<u32>))
    requires
        indices@.len() < u32::MAX,
    ensures
        is_compaction(indices@, r.0@, r.1@),
        remapped(r.0@, r.1@) == indices@,
        r.1@.no_duplicates(),
{
    broadcast use vstd::std_specs::hash::group_hash_axioms;
    let (ids, firsts) = number_keys(indices);
    let mut order: Vec<u32> = Vec::new();
    let mut j: usize = 0;
    while j < firsts.len()
        invariant
            is_numbering(indices@, ids@, firsts@),
            j <= firsts@.len(),
            order@.len() == j,
            forall|k: int| 0 <= k < j ==> #[trigger] order@[k] == indices@[firsts@[k] as int],
        decreases firsts.len() - j,
    {
        order.push(indices[firsts[j]]);
        j += 1;
    }
    assert(is_numbering(indices@, ids@, firsts@) && firsts@.len() == order@.len());
    proof {
        law_compaction_round_trip(indices@, ids@, order@);
    }
    (ids, order)
}

/// The triangles of an index list: `(s[3t], s[3t + 1], s[3t + 2])`.
pub open spec fn triangles(s: Seq<u32>) -> Seq<(u32, u32, u32)> {
    Seq::new(s.len() / 3, |t: int| (s[3 * t], s[3 * t + 1], s[3 * t + 2]))
}

/// Every index names one of `vertex_count` vertices.
pub open spec fn indices_below(s: Seq<u32>, vertex_count: usize) -> bool {
    forall|i: int| 0 <= i < s.len() ==> #[trigger] s[i] < vertex_count
}

/// The index order that meshoptimizer's vertex-cache optimiser gives `indices`.
pub uninterp spec fn spec_vertex_cache_order(indices: Seq<u32>, vertex_count: usize) -> Seq<u32>;

/// `meshopt::optimize_vertex_cache`: reorders the triangles of an index list for the
/// GPU vertex cache. Its source emits every input triangle exactly once, each with its
/// three indices in their order, so the result has the same triangles (as a multiset)
/// and the same length; which order it picks is named, not stated. The meshoptimizer
/// code behind it asserts that the length is a multiple of 3 and that every index is below
/// `vertex_count`.
#[verifier::external_body]
fn meshopt_cache(indices: &[u32], vertex_count: usize) -> (r: Vec<u32>)
    requires
        indices@.len() % 3 == 0,
        indices_below(indices@, vertex_count),
    ensures
        r@ == spec_vertex_cache_order(indices@, vertex_count),
        r@.len() == indices@.len(),
        triangles(r@).to_multiset() == triangles(indices@).to_multiset(),
{
    meshopt::optimize_vertex_cache(indices, vertex_count)
}

/// Reorders the triangles for the vertex cache, then compacts to the referenced
/// vertices in order of first use: returns the new indices and, for each new vertex,
/// the old one. Drawn through that table, the result has the triangles of `indices`.
pub fn optimize_and_compact(indices: &[u32], vertex_count: usize) -> (r: (Vec<u32>, Vec<u32>))
    requires
        indices@.len() % 3 == 0,
        indices@.len() < u32::MAX,
        indices_below(indices@, vertex_count),
    ensures
        is_compaction(spec_vertex_cache_order(indices@, vertex_count), r.0@, r.1@),
        r.1@.no_duplicates(),
        triangles(remapped(r.0@, r.1@)).to_multiset() == triangles(indices@).to_multiset(),
{
    let cached = meshopt_cache(indices, vertex_count);
    compact_indices(cached.as_slice())
}

/// `a + b` wrapping at 2^32.
pub open spec fn wadd(a: u32, b: u32) -> u32 {
    ((a as int + b as int) % 0x1_0000_0000) as u32
}

/// Each index of `idx` shifted by `offset` (wrapping at 2^32).
pub open spec fn shifted(idx: Seq<u32>, offset: u32) -> Seq<u32> {
    idx.map_values(|x: u32| wadd(x, offset))
}

/// The largest of `m` and the elements of `s`.
pub open spec fn max_with(m: u32, s: Seq<u32>) -> u32
    decreases s.len(),
{
    if s.len() == 0 {
        m
    } else {
        let r = max_with(m, s.drop_last());
        if s.last() > r { s.last() } else { r }
    }
}

/// Appends the indices of one primitive shifted by a vertex offset (wrapping at 2^32):
/// the concatenation of a component's primitives into one mesh.
pub fn append_shifted(out: &mut Vec<u32>, idx: &[u32], offset: u32)
    ensures
        final(out)@ == old(out)@ + shifted(idx@, offset),
{
    let mut i: usize = 0;
    while i < idx.len()
        invariant
            i <= idx@.len(),
            out@ == old(out)@ + shifted(idx@.subrange(0, i as int), offset),
        decreases idx.len() - i,
    {
        out.push(idx[i].wrapping_add(offset));
        proof {
            let p = idx@.subrange(0, i as int);
            let q = idx@.subrange(0, i + 1);
            assert(q == p.push(idx@[i as int]));
            assert(shifted(q, offset) =~= shifted(p, offset).push(wadd(idx@[i as int], offset)));
        }
        i += 1;
    }
    assert(idx@.subrange(0, idx@.len() as int) == idx@);
}

/// The merged index list of one colour as it is built: the indices so far, the
/// offset for the next primitive, and the largest index so far.
pub struct IndexMerge {
    pub indices: Vec<u32>,
    pub offset: u32,
    pub max_index: u32,
}

impl IndexMerge {
    /// Nothing merged yet: no indices, offset 0, largest index 0.
    pub fn new() -> (m: IndexMerge)
        ensures
            m.indices@ == Seq::<u32>::empty(),
            m.offset == 0,
            m.max_index == 0,
    {
        IndexMerge { indices: Vec::new(), offset: 0, max_index: 0 }
    }

    /// Appends the indices of one primitive shifted by the offset; the offset then
    /// moves one past the largest index merged so far.
    pub fn add(&mut self, idx: &[u32])
        ensures
            final(self).indices@ == old(self).indices@ + shifted(idx@, old(self).offset),
            final(self).max_index == max_with(old(self).max_index, shifted(idx@, old(self).offset)),
            final(self).offset == wadd(final(self).max_index, 1),
    {
        let ghost start = self.indices@;
        let ghost m0 = self.max_index;
        let off = self.offset;
        let mut i: usize = 0;
        while i < idx.len()
            invariant
                i <= idx@.len(),
                off == old(self).offset,
                self.indices@ == start + shifted(idx@.subrange(0, i as int), off),
                self.max_index == max_with(m0, shifted(idx@.subrange(0, i as int), off)),
                start == old(self).indices@,
                m0 == old(self).max_index,
            decreases idx.len() - i,
        {
            let s = idx[i].wrapping_add(off);
            if s > self.max_index {
                self.max_index = s;
            }
            self.indices.push(s);
            proof {
                let p = idx@.subrange(0, i as int);
                let q = idx@.subrange(0, i + 1);
                assert(q == p.push(idx@[i as int]));
                assert(shifted(q, off) =~= shifted(p, off).push(s));
                assert(shifted(q, off).drop_last() =~= shifted(p, off));
            }
            i += 1;
        }
        assert(idx@.subrange(0, idx@.len() as int) == idx@);
        self.offset = self.max_index.wrapping_add(1);
    }
}

/// The six indices of a quad `v0 v1 v2 v3` at vertex offset `o`: the triangles
/// `v0 v1 v2` and `v2 v3 v0` (wrapping at 2^32).
pub open spec fn quad(o: u32, v0: u32, v1: u32, v2: u32, v3: u32) -> Seq<u32> {
    seq![wadd(o, v0), wadd(o, v1), wadd(o, v2), wadd(o, v2), wadd(o, v3), wadd(o, v0)]
}

/// Appends the two triangles of a quad (see [`quad`]).
pub fn quad_indices(out: &mut Vec<u32>, o: u32, v0: u32, v1: u32, v2: u32, v3: u32)
    ensures
        final(out)@ == old(out)@ + quad(o, v0, v1, v2, v3),
{
    out.push(o.wrapping_add(v0));
    out.push(o.wrapping_add(v1));
    out.push(o.wrapping_add(v2));
    out.push(o.wrapping_add(v2));
    out.push(o.wrapping_add(v3));
    out.push(o.wrapping_add(v0));
    assert(final(out)@ =~= old(out)@ + quad(o, v0, v1, v2, v3));
}

/// The number of triangles one round of the ring fan emits for a ring of `n`.
pub open spec fn fan_count(n: nat) -> nat {
    if n < 3 { 0 } else { ((n - 1) / 2) as nat }
}

/// The triangles of one round of the ring fan: `(r[2t], r[2t + 1], r[2t + 2])`.
pub open spec fn fan_round(r: Seq<u32>) -> Seq<u32> {
    Seq::new(3 * fan_count(r.len()), |i: int| r[2 * (i / 3) + i % 3])
}

/// The ring left after one round: every other vertex up to the last triangle, then the rest.
pub open spec fn fan_rest(r: Seq<u32>) -> Seq<u32> {
    let k = fan_count(r.len());
    Seq::new(k, |t: int| r[2 * t]) + r.subrange(2 * k as int, r.len() as int)
}

/// The triangles of a ring of vertices fanned in rounds, as the tessellator caps
/// circles: each round emits `(r[0], r[1], r[2]), (r[2], r[3], r[4]), …` and keeps
/// every other vertex, until fewer than 3 remain.
pub open spec fn fan_triangles(r: Seq<u32>) -> Seq<u32>
    decreases r.len(),
{
    if r.len() < 3 {
        Seq::empty()
    } else {
        fan_round(r) + fan_triangles(fan_rest(r))
    }
}

/// A ring of `n >= 3` vertices fans into `n - 2` triangles, each made of vertices of
/// the ring.
pub proof fn law_fan_count(r: Seq<u32>)
    requires
        r.len() >= 3,
    ensures
        fan_triangles(r).len() == 3 * (r.len() - 2),
        forall|i: int| 0 <= i < fan_triangles(r).len() ==> r.contains(#[trigger] fan_triangles(r)[i]),
    decreases r.len(),
{
    let k = fan_count(r.len());
    let rest = fan_rest(r);
    assert(rest.len() == r.len() - k);
    assert forall|i: int| 0 <= i < fan_round(r).len() implies r.contains(#[trigger] fan_round(r)[i]) by {
        assert(r[2 * (i / 3) + i % 3] == fan_round(r)[i]);
    }
    assert forall|x: u32| rest.contains(x) implies r.contains(x) by {
        let j = choose|j: int| 0 <= j < rest.len() && rest[j] == x;
        if j < k {
            assert(r[2 * j] == x);
        } else {
            assert(r[2 * k + (j - k)] == x);
        }
    }
    if rest.len() >= 3 {
        law_fan_count(rest);
    } else {
        assert(rest.len() == 2);
        assert(fan_triangles(rest) == Seq::<u32>::empty());
    }
    let t = fan_triangles(r);
    assert(t == fan_round(r) + fan_triangles(rest));
    assert forall|i: int| 0 <= i < t.len() implies r.contains(#[trigger] t[i]) by {
        if i < fan_round(r).len() {
            assert(t[i] == fan_round(r)[i]);
        } else {
            let j = i - fan_round(r).len();
            assert(t[i] == fan_triangles(rest)[j]);
            assert(rest.contains(fan_triangles(rest)[j]));
        }
    }
}

/// Fan-tessellates a ring of vertex indices (see [`fan_triangles`]).
pub fn tessellate_circle(out: &mut Vec<u32>, src: Vec<u32>)
    ensures
        final(out)@ == old(out)@ + fan_triangles(src@),
    decreases src@.len(),
{
    let n = src.len();
    if n < 3 {
        assert(final(out)@ =~= old(out)@ + fan_triangles(src@));
        return;
    }
    let mut tmp: Vec<u32> = Vec::new();
    let mut i: usize = 0;
    let ghost k = fan_count(n as nat);
    let ghost base = out@;
    while n - i > 2
        invariant
            n == src@.len(),
            n >= 3,
            k == fan_count(n as nat),
            i % 2 == 0,
            i <= 2 * k,
            2 * k < n,
            tmp@ == Seq::new((i / 2) as nat, |t: int| src@[2 * t]),
            out@ == base + fan_round(src@).subrange(0, 3 * (i / 2)),
        decreases n - i,
    {
        out.push(src[i]);
        out.push(src[i + 1]);
        out.push(src[i + 2]);
        tmp.push(src[i]);
        proof {
            let t = (i / 2) as int;
            assert(fan_round(src@).subrange(0, 3 * (t + 1)) =~= fan_round(src@).subrange(0, 3 * t).push(src@[2 * t]).push(src@[2 * t + 1]).push(src@[2 * t + 2]));
            assert(tmp@ =~= Seq::new((t + 1) as nat, |u: int| src@[2 * u]));
        }
        i += 2;
    }
    assert(i == 2 * k);
    let ghost fans = tmp@;
    while i < n
        invariant
            n == src@.len(),
            2 * k <= i <= n,
            k == fan_count(n as nat),
            tmp@ == fans + src@.subrange(2 * k as int, i as int),
            fans == Seq::new(k, |t: int| src@[2 * t]),
        decreases n - i,
    {
        tmp.push(src[i]);
        assert(src@.subrange(2 * k as int, i + 1) == src@.subrange(2 * k as int, i as int).push(src@[i as int]));
        i += 1;
    }
    assert(tmp@ == fan_rest(src@));
    assert(fan_round(src@).subrange(0, 3 * k as int) == fan_round(src@));
    tessellate_circle(out, tmp);
    assert(final(out)@ =~= old(out)@ + fan_triangles(src@));
}

} // verus!

//! The logic of the structure dump (one JSON tree per export root): the tree walk
//! from the root, the colour text, and the counts that stand for a facet group.
use crate::model::{Contour, MetaNode, MetaNodeView, Polygon, nodes_view, polygons_view};
use crate::node_tree::{ids_increasing, increasing_below, lemma_push_contains, tree_links};
use crate::text::string_push;
use vstd::prelude::*;

verus! {

/// The children of node `a` in the structure dump: the nodes that name it as parent,
/// except the root (the first node, which has the lowest id) and `a` itself.
pub open spec fn is_dump_child(ns: Seq<MetaNodeView>, a: int, b: int) -> bool {
    b != 0 && b != a && ns[b].parent_id == ns[a].id
}

/// For each node the positions of its children in the structure dump, in order (see
/// [`is_dump_child`]). The walk from the root (the first node) never comes back to the
/// root nor stays on a node, whatever parent ids the nodes carry.
pub fn dump_links(nodes: &[MetaNode]) -> (children: Vec<Vec<u32>>)
    requires
        ids_increasing(nodes_view(nodes@)),
        nodes@.len() < u32::MAX,
    ensures
        children@.len() == nodes@.len(),
        forall|a: int| 0 <= a < nodes@.len() ==> increasing_below(#[trigger] children@[a]@, nodes@.len() as int),
        forall|a: int, b: int| 0 <= a < nodes@.len() && 0 <= b < nodes@.len() ==>
            (#[trigger] children@[a]@.contains(b as u32) <==> is_dump_child(nodes_view(nodes@), a, b)),
{
    let ghost ns = nodes_view(nodes@);
    let (links, _roots) = tree_links(nodes);
    let n = nodes.len();
    let mut children: Vec<Vec<u32>> = Vec::new();
    let mut a: usize = 0;
    while a < n
        invariant
            a <= n,
            n == nodes@.len(),
            n < u32::MAX,
            ns == nodes_view(nodes@),
            links@.len() == n,
            forall|x: int| 0 <= x < n ==> increasing_below(#[trigger] links@[x]@, n as int),
            forall|x: int, b: int| 0 <= x < n && 0 <= b < n ==> (#[trigger] links@[x]@.contains(b as u32) <==> ns[b].parent_id == #[trigger] ns[x].id),
            children@.len() == a,
            forall|x: int| 0 <= x < a ==> increasing_below(#[trigger] children@[x]@, n as int),
            forall|x: int, b: int| 0 <= x < a && 0 <= b < n ==> (#[trigger] children@[x]@.contains(b as u32) <==> is_dump_child(ns, x, b)),
        decreases n - a,
    {
        let src = &links[a];
        let mut kept: Vec<u32> = Vec::new();
        let mut k: usize = 0;
        while k < src.len()
            invariant
                a < n,
                n == nodes@.len(),
                n < u32::MAX,
                ns == nodes_view(nodes@),
                src@ == links@[a as int]@,
                increasing_below(src@, n as int),
                k <= src@.len(),
                forall|b: int| 0 <= b < n ==> (#[trigger] src@.contains(b as u32) <==> ns[b].parent_id == ns[a as int].id),
                increasing_below(kept@, n as int),
                forall|x: int| 0 <= x < kept@.len() ==> exists|y: int| 0 <= y < k && #[trigger] kept@[x] == src@[y],
                forall|b: int| 0 <= b < n ==> (#[trigger] kept@.contains(b as u32) <==> (b != 0 && b != a && exists|y: int| 0 <= y < k && #[trigger] src@[y] == b as u32)),
            decreases src.len() - k,
        {
            let b = src[k];
            let ghost before = kept@;
            if b != 0 && b as usize != a {
                proof {
                    assert forall|x: int| 0 <= x < before.len() implies before[x] < b by {
                        let y = choose|y: int| 0 <= y < k && #[trigger] before[x] == src@[y];
                        assert(src@[y] < src@[k as int]);
                    }
                }
                kept.push(b);
            }
            proof {
                assert forall|x: int| 0 <= x < kept@.len() implies exists|y: int| 0 <= y < k + 1 && #[trigger] kept@[x] == src@[y] by {
                    if x < before.len() {
                        let y = choose|y: int| 0 <= y < k && #[trigger] before[x] == src@[y];
                        assert(kept@[x] == src@[y]);
                    } else {
                        assert(kept@[x] == src@[k as int]);
                    }
                }
                assert forall|c: int| 0 <= c < n implies (#[trigger] kept@.contains(c as u32) <==> (c != 0 && c != a && exists|y: int| 0 <= y < k + 1 && #[trigger] src@[y] == c as u32)) by {
                    let pushed = b != 0 && b as int != a as int;
                    assert((c as u32) as int == c);
                    if pushed {
                        assert(kept@ == before.push(b));
                        lemma_push_contains(before, b, c as u32);
                    } else {
                        assert(kept@ == before);
                    }
                    assert(before.contains(c as u32) <==> (c != 0 && c != a && exists|y: int| 0 <= y < k && #[trigger] src@[y] == c as u32));
                    if c != 0 && c != a && exists|y: int| 0 <= y < k + 1 && #[trigger] src@[y] == c as u32 {
                        let y = choose|y: int| 0 <= y < k + 1 && #[trigger] src@[y] == c as u32;
                        if y < k {
                            assert(exists|y2: int| 0 <= y2 < k && #[trigger] src@[y2] == c as u32);
                        } else {
                            assert(b == c as u32);
                        }
                    }
                    if pushed && c as u32 == b {
                        assert(src@[k as int] == c as u32);
                        assert(c != 0 && c != a);
                    }
                    if exists|y: int| 0 <= y < k && #[trigger] src@[y] == c as u32 {
                        let y = choose|y: int| 0 <= y < k && #[trigger] src@[y] == c as u32;
                        assert(0 <= y < k + 1 && src@[y] == c as u32);
                    }
                }
            }
            k += 1;
        }
        proof {
            assert forall|b: int| 0 <= b < n implies (#[trigger] kept@.contains(b as u32) <==> is_dump_child(ns, a as int, b)) by {
                if src@.contains(b as u32) {
                    let y = choose|y: int| 0 <= y < src@.len() && src@[y] == b as u32;
                    assert(src@[y] == b as u32);
                }
                if exists|y: int| 0 <= y < src@.len() && #[trigger] src@[y] == b as u32 {
                    let y = choose|y: int| 0 <= y < src@.len() && #[trigger] src@[y] == b as u32;
                    assert(src@.contains(b as u32));
                }
            }
        }
        children.push(kept);
        a += 1;
    }
    children
}

/// The character of a hexadecimal digit 0..=15 (lower case).
pub open spec fn hex_char(d: nat) -> char {
    if d < 10 {
        (48 + d) as char
    } else {
        (87 + d) as char
    }
}

/// The low 24 bits of `x` as six lower-case hexadecimal digits (`{:06x}` of `x & 0xffffff`).
pub open spec fn hex6(x: u32) -> Seq<char> {
    let v = (x % 0x100_0000) as nat;
    seq![
        hex_char((v / 0x10_0000) % 16),
        hex_char((v / 0x1_0000) % 16),
        hex_char((v / 0x1000) % 16),
        hex_char((v / 0x100) % 16),
        hex_char((v / 0x10) % 16),
        hex_char(v % 16),
    ]
}

/// The character of hexadecimal digit `d`.
fn char_of_hex(d: u32) -> (c: char)
    requires
        d < 16,
    ensures
        c == hex_char(d as nat),
{
    if d == 0 { '0' }
    else if d == 1 { '1' }
    else if d == 2 { '2' }
    else if d == 3 { '3' }
    else if d == 4 { '4' }
    else if d == 5 { '5' }
    else if d == 6 { '6' }
    else if d == 7 { '7' }
    else if d == 8 { '8' }
    else if d == 9 { '9' }
    else if d == 10 { 'a' }
    else if d == 11 { 'b' }
    else if d == 12 { 'c' }
    else if d == 13 { 'd' }
    else if d == 14 { 'e' }
    else { 'f' }
}

/// The colour of a material as the structure dump writes it (see [`hex6`]).
pub fn color_hex(x: u32) -> (s: String)
    ensures
        s@ == hex6(x),
{
    let v = x % 0x100_0000;
    let mut s = String::new();
    string_push(&mut s, char_of_hex((v / 0x10_0000) % 16));
    string_push(&mut s, char_of_hex((v / 0x1_0000) % 16));
    string_push(&mut s, char_of_hex((v / 0x1000) % 16));
    string_push(&mut s, char_of_hex((v / 0x100) % 16));
    string_push(&mut s, char_of_hex((v / 0x10) % 16));
    string_push(&mut s, char_of_hex(v % 16));
    assert(s@ =~= hex6(x));
    s
}

/// The number of vertices of the contours of the polygons: the x, y, z words of each
/// contour, divided by 3.
pub open spec fn facet_vertex_total(ps: Seq<Seq<Seq<u32>>>) -> nat
    decreases ps.len(),
{
    if ps.len() == 0 {
        0
    } else {
        facet_vertex_total(ps.drop_last()) + contour_vertex_total(ps.last())
    }
}

/// The number of vertices of the contours of one polygon.
pub open spec fn contour_vertex_total(cs: Seq<Seq<u32>>) -> nat
    decreases cs.len(),
{
    if cs.len() == 0 {
        0
    } else {
        contour_vertex_total(cs.drop_last()) + cs.last().len() / 3
    }
}

/// What the structure dump writes for a facet group: the number of polygons and the
/// number of vertices (modulo 2^64).
pub fn facet_counts(polygons: &[Polygon]) -> (r: (u64, u64))
    ensures
        r.0 == polygons@.len(),
        r.1 as int == facet_vertex_total(polygons_view(polygons@)) % 0x1_0000_0000_0000_0000,
{
    let ghost pv = polygons_view(polygons@);
    let mut total: u64 = 0;
    let mut i: usize = 0;
    while i < polygons.len()
        invariant
            i <= polygons@.len(),
            pv == polygons_view(polygons@),
            total as int == facet_vertex_total(pv.subrange(0, i as int)) % 0x1_0000_0000_0000_0000,
        decreases polygons.len() - i,
    {
        let cs = &polygons[i].contours;
        let ghost cv = pv[i as int];
        let mut sub: u64 = 0;
        let mut k: usize = 0;
        while k < cs.len()
            invariant
                k <= cs@.len(),
                cv == cs@.map_values(|c: Contour| c.view()),
                sub as int == contour_vertex_total(cv.subrange(0, k as int)) % 0x1_0000_0000_0000_0000,
            decreases cs.len() - k,
        {
            let add = (cs[k].vertices.len() / 3) as u64;
            proof {
                assert(cv.subrange(0, k + 1).drop_last() =~= cv.subrange(0, k as int));
                assert(cv[k as int] == cs@[k as int].vertices@);
            }
            sub = sub.wrapping_add(add);
            k += 1;
        }
        proof {
            assert(cv.subrange(0, cv.len() as int) == cv);
            assert(pv.subrange(0, i + 1).drop_last() =~= pv.subrange(0, i as int));
        }
        total = total.wrapping_add(sub);
        i += 1;
    }
    assert(pv.subrange(0, pv.len() as int) == pv);
    (polygons.len() as u64, total)
}

} // verus!

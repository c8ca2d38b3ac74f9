//! The node-tree logic of the writers: which nodes an export keeps (empty leaves and
//! wholly empty branches go), the draw ranges of the merged meshes, and the
//! parent/child links of the glTF node tree and of the structure dump.
use crate::mesh_index::wadd;
use crate::model::{MetaNode, MetaNodeView, NodePrim, nodes_view};
use std::collections::{HashMap, HashSet};
use vstd::prelude::*;

verus! {

/// A primitive with triangles or vertices.
pub open spec fn prim_has_geometry(p: NodePrim) -> bool {
    p.triangles_n > 0 || p.vertices_n > 0
}

/// A node with at least one primitive that has geometry.
pub open spec fn node_has_geometry(n: MetaNodeView) -> bool {
    exists|k: int| 0 <= k < n.primitives.len() && #[trigger] prim_has_geometry(n.primitives[k])
}

/// Whether `n` has a primitive with geometry.
pub fn has_geometry(n: &MetaNode) -> (b: bool)
    ensures
        b == node_has_geometry(n.view()),
{
    let mut k: usize = 0;
    while k < n.primitives.len()
        invariant
            k <= n.primitives@.len(),
            forall|j: int| 0 <= j < k ==> !#[trigger] prim_has_geometry(n.primitives@[j]),
        decreases n.primitives.len() - k,
    {
        let p = n.primitives[k];
        if p.triangles_n > 0 || p.vertices_n > 0 {
            assert(prim_has_geometry(n.view().primitives[k as int]));
            return true;
        }
        k += 1;
    }
    false
}

/// No two nodes share an id.
pub open spec fn ids_distinct(ns: Seq<MetaNodeView>) -> bool {
    forall|i: int, j: int| 0 <= i < ns.len() && 0 <= j < ns.len() && i != j ==> ns[i].id != ns[j].id
}

/// The ids increase along the list.
pub open spec fn ids_increasing(ns: Seq<MetaNodeView>) -> bool {
    forall|i: int, j: int| 0 <= i < j < ns.len() ==> ns[i].id < ns[j].id
}

/// Some kept node names node `i` as its parent.
pub open spec fn has_kept_child(ns: Seq<MetaNodeView>, keep: Seq<bool>, i: int) -> bool {
    exists|j: int| #![trigger keep[j], ns[j]] 0 <= j < ns.len() && keep[j] && ns[j].parent_id == ns[i].id
}

/// Every kept node has geometry or a kept child: nothing kept is an empty leaf.
pub open spec fn self_supported(ns: Seq<MetaNodeView>, keep: Seq<bool>) -> bool {
    &&& keep.len() == ns.len()
    &&& forall|i: int| 0 <= i < ns.len() && #[trigger] keep[i] ==> node_has_geometry(ns[i]) || has_kept_child(ns, keep, i)
}

/// `a` marks no more than `b`.
pub open spec fn marks_within(a: Seq<bool>, b: Seq<bool>) -> bool {
    forall|i: int| 0 <= i < a.len() && #[trigger] a[i] ==> i < b.len() && b[i]
}

/// The number of marked entries.
pub open spec fn count_marked(s: Seq<bool>) -> nat
    decreases s.len(),
{
    if s.len() == 0 {
        0
    } else {
        count_marked(s.drop_last()) + if s.last() { 1nat } else { 0nat }
    }
}

/// Unmarking entries lowers the count.
proof fn lemma_count_shrinks(a: Seq<bool>, b: Seq<bool>)
    requires
        a.len() == b.len(),
        marks_within(a, b),
    ensures
        count_marked(a) <= count_marked(b),
        (exists|i: int| 0 <= i < a.len() && b[i] && !a[i]) ==> count_marked(a) < count_marked(b),
    decreases a.len(),
{
    if a.len() > 0 {
        let a0 = a.drop_last();
        let b0 = b.drop_last();
        assert(marks_within(a0, b0)) by {
            assert forall|i: int| 0 <= i < a0.len() && #[trigger] a0[i] implies i < b0.len() && b0[i] by {
                assert(a[i]);
            }
        }
        lemma_count_shrinks(a0, b0);
        if exists|i: int| 0 <= i < a.len() && b[i] && !a[i] {
            let i = choose|i: int| 0 <= i < a.len() && b[i] && !a[i];
            if i < a.len() - 1 {
                assert(b0[i] && !a0[i]);
            }
        }
        if a.last() {
            assert(a[a.len() - 1]);
        }
    }
}

/// The nodes that the empty-node pruning keeps: starting from every node, it drops, in
/// rounds, each node without geometry that no kept node names as parent, until a round
/// drops nothing. The result is the largest self-supported set of nodes: no kept node
/// is an empty leaf, and every set of nodes without empty leaves is kept.
pub fn empty_pruning(nodes: &[MetaNode]) -> (keep: Vec<bool>)
    ensures
        self_supported(nodes_view(nodes@), keep@),
        forall|other: Seq<bool>| #[trigger] self_supported(nodes_view(nodes@), other) ==> marks_within(other, keep@),
{
    broadcast use vstd::std_specs::hash::group_hash_axioms;
    let ghost ns = nodes_view(nodes@);
    let n = nodes.len();
    let mut keep: Vec<bool> = Vec::new();
    let mut i: usize = 0;
    while i < n
        invariant
            i <= n,
            n == nodes@.len(),
            keep@.len() == i,
            forall|j: int| 0 <= j < i ==> #[trigger] keep@[j],
        decreases n - i,
    {
        keep.push(true);
        i += 1;
    }
    loop
        invariant
            n == nodes@.len(),
            ns == nodes_view(nodes@),
            keep@.len() == n,
            forall|other: Seq<bool>| #[trigger] self_supported(ns, other) ==> marks_within(other, keep@),
        ensures
            self_supported(ns, keep@),
            forall|other: Seq<bool>| #[trigger] self_supported(ns, other) ==> marks_within(other, keep@),
        decreases count_marked(keep@),
    {
        let mut parents: HashSet<u32> = HashSet::new();
        let mut i: usize = 0;
        while i < n
            invariant
                i <= n,
                n == nodes@.len(),
                ns == nodes_view(nodes@),
                keep@.len() == n,
                forall|x: u32| #[trigger] parents@.contains(x) <==> exists|j: int| 0 <= j < i && keep@[j] && #[trigger] ns[j].parent_id == x,
            decreases n - i,
        {
            if keep[i] {
                parents.insert(nodes[i].parent_id);
            }
            proof {
                assert forall|x: u32| #[trigger] parents@.contains(x) <==> exists|j: int| 0 <= j < i + 1 && keep@[j] && #[trigger] ns[j].parent_id == x by {
                    if keep@[i as int] && ns[i as int].parent_id == x {
                        assert(0 <= i < i + 1 && keep@[i as int] && ns[i as int].parent_id == x);
                    }
                }
            }
            i += 1;
        }
        let mut next: Vec<bool> = Vec::new();
        let mut changed = false;
        let mut i: usize = 0;
        while i < n
            invariant
                i <= n,
                n == nodes@.len(),
                ns == nodes_view(nodes@),
                keep@.len() == n,
                next@.len() == i,
                forall|x: u32| #[trigger] parents@.contains(x) <==> exists|j: int| 0 <= j < n && keep@[j] && #[trigger] ns[j].parent_id == x,
                forall|j: int| 0 <= j < i ==> #[trigger] next@[j] == (keep@[j] && (node_has_geometry(ns[j]) || has_kept_child(ns, keep@, j))),
                changed <==> exists|j: int| 0 <= j < i && keep@[j] && !#[trigger] next@[j],
            decreases n - i,
        {
            let stays = keep[i] && (has_geometry(&nodes[i]) || parents.contains(&nodes[i].id));
            proof {
                assert(nodes@[i as int].view() == ns[i as int]);
                if parents@.contains(ns[i as int].id) {
                    let j = choose|j: int| 0 <= j < n && keep@[j] && #[trigger] ns[j].parent_id == ns[i as int].id;
                    assert(keep@[j] && ns[j].parent_id == ns[i as int].id);
                }
                if has_kept_child(ns, keep@, i as int) {
                    let j = choose|j: int| #![trigger keep@[j], ns[j]] 0 <= j < ns.len() && keep@[j] && ns[j].parent_id == ns[i as int].id;
                    assert(parents@.contains(ns[j].parent_id));
                }
            }
            let ghost next0 = next@;
            let ghost changed0 = changed;
            if keep[i] && !stays {
                changed = true;
            }
            next.push(stays);
            proof {
                assert(forall|j: int| 0 <= j < i ==> next@[j] == next0[j]);
                if keep@[i as int] && !stays {
                    assert(0 <= i < i + 1 && keep@[i as int] && !next@[i as int]);
                }
                if changed0 {
                    let j = choose|j: int| 0 <= j < i && keep@[j] && !#[trigger] next0[j];
                    assert(keep@[j] && !next@[j]);
                }
            }
            i += 1;
        }
        proof {
            assert(marks_within(next@, keep@));
            assert forall|other: Seq<bool>| #[trigger] self_supported(ns, other) implies marks_within(other, next@) by {
                assert(marks_within(other, keep@));
                assert forall|i: int| 0 <= i < other.len() && #[trigger] other[i] implies i < next@.len() && next@[i] by {
                    assert(keep@[i]);
                    if !node_has_geometry(ns[i]) {
                        let j = choose|j: int| #![trigger other[j], ns[j]] 0 <= j < ns.len() && other[j] && ns[j].parent_id == ns[i].id;
                        assert(keep@[j]);
                        assert(has_kept_child(ns, keep@, i));
                    }
                }
            }
            lemma_count_shrinks(next@, keep@);
        }
        if !changed {
            proof {
                assert(next@ =~= keep@);
            }
            break;
        }
        keep = next;
    }
    keep
}

/// The nodes whose mark is set, in their order.
pub open spec fn marked(ns: Seq<MetaNodeView>, keep: Seq<bool>) -> Seq<MetaNodeView>
    decreases ns.len(),
{
    if ns.len() == 0 || keep.len() != ns.len() {
        Seq::empty()
    } else {
        let rest = marked(ns.drop_last(), keep.drop_last());
        if keep.last() { rest.push(ns.last()) } else { rest }
    }
}

/// Keeps the nodes whose mark is set, in their order.
pub fn retain_marked(nodes: Vec<MetaNode>, keep: &[bool]) -> (r: Vec<MetaNode>)
    requires
        keep@.len() == nodes@.len(),
    ensures
        nodes_view(r@) == marked(nodes_view(nodes@), keep@),
{
    let ghost ns = nodes_view(nodes@);
    let mut rest = nodes;
    let mut rev: Vec<MetaNode> = Vec::new();
    let mut flags: Vec<bool> = Vec::new();
    while rest.len() > 0
        invariant
            rest@.len() <= keep@.len(),
            keep@.len() == ns.len(),
            nodes_view(rest@) == ns.subrange(0, rest@.len() as int),
            rev@.len() + rest@.len() == ns.len(),
            flags@.len() == rev@.len(),
            forall|k: int| 0 <= k < rev@.len() ==> #[trigger] rev@[k].view() == ns[ns.len() - 1 - k],
            forall|k: int| 0 <= k < flags@.len() ==> #[trigger] flags@[k] == keep@[ns.len() - 1 - k],
        decreases rest@.len(),
    {
        let idx = rest.len() - 1;
        let flag = keep[idx];
        let ghost rest0 = rest@;
        proof {
            assert(nodes_view(rest0)[idx as int] == rest0[idx as int].view());
            assert(ns.subrange(0, rest0.len() as int)[idx as int] == ns[idx as int]);
        }
        let node = rest.pop().unwrap();
        proof {
            assert(node.view() == ns[idx as int]);
            assert(nodes_view(rest@) =~= ns.subrange(0, rest@.len() as int));
        }
        rev.push(node);
        flags.push(flag);
    }
    let mut out: Vec<MetaNode> = Vec::new();
    let ghost done: int = 0;
    while rev.len() > 0
        invariant
            flags@.len() == rev@.len(),
            rev@.len() <= ns.len(),
            keep@.len() == ns.len(),
            forall|k: int| 0 <= k < rev@.len() ==> #[trigger] rev@[k].view() == ns[ns.len() - 1 - k],
            forall|k: int| 0 <= k < flags@.len() ==> #[trigger] flags@[k] == keep@[ns.len() - 1 - k],
            nodes_view(out@) == marked(ns.subrange(0, ns.len() - rev@.len()), keep@.subrange(0, ns.len() - rev@.len())),
        decreases rev@.len(),
    {
        let ghost m = ns.len() - rev@.len();
        let node = rev.pop().unwrap();
        let flag = flags.pop().unwrap();
        proof {
            let a = ns.subrange(0, m + 1);
            let b = keep@.subrange(0, m + 1);
            assert(a.drop_last() =~= ns.subrange(0, m));
            assert(b.drop_last() =~= keep@.subrange(0, m));
            assert(node.view() == ns[m]);
            assert(flag == keep@[m]);
        }
        if flag {
            let ghost before = out@;
            out.push(node);
            assert(nodes_view(out@) =~= nodes_view(before).push(node.view()));
        }
    }
    assert(ns.subrange(0, ns.len() as int) == ns);
    assert(keep@.subrange(0, ns.len() as int) == keep@);
    out
}

/// Marking one more entry raises the count by one; the count is at most the length.
proof fn lemma_count_mark(s: Seq<bool>, i: int)
    requires
        0 <= i < s.len(),
        !s[i],
    ensures
        count_marked(s.update(i, true)) == count_marked(s) + 1,
        count_marked(s) < s.len(),
    decreases s.len(),
{
    let t = s.update(i, true);
    if i < s.len() - 1 {
        assert(t.drop_last() =~= s.drop_last().update(i, true));
        lemma_count_mark(s.drop_last(), i);
    } else {
        assert(t.drop_last() =~= s.drop_last());
        lemma_count_le(s.drop_last());
    }
}

/// The count is at most the length.
proof fn lemma_count_le(s: Seq<bool>)
    ensures
        count_marked(s) <= s.len(),
    decreases s.len(),
{
    if s.len() > 0 {
        lemma_count_le(s.drop_last());
    }
}

/// Every node with geometry is marked.
pub open spec fn covers_geometry(ns: Seq<MetaNodeView>, keep: Seq<bool>) -> bool {
    &&& keep.len() == ns.len()
    &&& forall|i: int| 0 <= i < ns.len() && node_has_geometry(ns[i]) ==> #[trigger] keep[i]
}

/// The parent (the node whose id is the parent id) of every marked node is marked.
pub open spec fn upward_closed(ns: Seq<MetaNodeView>, keep: Seq<bool>) -> bool {
    &&& keep.len() == ns.len()
    &&& forall|i: int, j: int|
        0 <= i < ns.len() && 0 <= j < ns.len() && #[trigger] keep[i] && #[trigger] ns[j].id == ns[i].parent_id ==> keep[j]
}

/// A marking that holds every node with geometry and, with a node, its parent.
pub open spec fn geometry_closure(ns: Seq<MetaNodeView>, keep: Seq<bool>) -> bool {
    covers_geometry(ns, keep) && upward_closed(ns, keep)
}

/// `m` maps the id of each node to its position.
pub open spec fn is_id_index(ns: Seq<MetaNodeView>, m: Map<u32, usize>) -> bool {
    &&& forall|j: int| 0 <= j < ns.len() ==> #[trigger] m.contains_key(ns[j].id) && m[ns[j].id] as int == j
    &&& forall|x: u32| #[trigger] m.contains_key(x) ==> m[x] < ns.len() && ns[m[x] as int].id == x
}

/// In an id index, the position of a node's id is the node's position.
proof fn lemma_index_pos(ns: Seq<MetaNodeView>, m: Map<u32, usize>, j: int)
    requires
        is_id_index(ns, m),
        0 <= j < ns.len(),
    ensures
        m.contains_key(ns[j].id),
        m[ns[j].id] as int == j,
{
    let k = ns[j].id;
    assert(m.contains_key(k) && m[k] as int == j);
}

/// The ids of the nodes and where each stands, for distinct ids.
fn id_index(nodes: &[MetaNode]) -> (m: HashMap<u32, usize>)
    requires
        ids_distinct(nodes_view(nodes@)),
    ensures
        is_id_index(nodes_view(nodes@), m@),
{
    broadcast use vstd::std_specs::hash::group_hash_axioms;
    let ghost ns = nodes_view(nodes@);
    let mut m: HashMap<u32, usize> = HashMap::new();
    let mut i: usize = 0;
    while i < nodes.len()
        invariant
            i <= nodes@.len(),
            ns == nodes_view(nodes@),
            ids_distinct(ns),
            forall|j: int| 0 <= j < i ==> #[trigger] m@.contains_key(ns[j].id) && m@[ns[j].id] == j,
            forall|x: u32| #[trigger] m@.contains_key(x) ==> m@[x] < i && ns[m@[x] as int].id == x,
        decreases nodes.len() - i,
    {
        proof {
            assert forall|j: int| 0 <= j < i implies nodes@[j].id != nodes@[i as int].id by {
                assert(ns[j].id == nodes@[j].id && ns[i as int].id == nodes@[i as int].id);
            }
        }
        proof {
            assert(nodes@[i as int].view() == ns[i as int]);
        }
        let ghost before = m@;
        m.insert(nodes[i].id, i);
        proof {
            assert forall|j: int| 0 <= j < i + 1 implies #[trigger] m@.contains_key(ns[j].id) && m@[ns[j].id] == j by {
                if j < i {
                    assert(ns[j].id == nodes@[j].id);
                    assert(before.contains_key(ns[j].id) && before[ns[j].id] == j);
                }
            }
        }
        i += 1;
    }
    m
}

/// Marks `start` and its ancestors, up to the first one already marked.
fn mark_with_ancestors(nodes: &[MetaNode], index: &HashMap<u32, usize>, keep: &mut Vec<bool>, start: usize)
    requires
        start < nodes@.len(),
        old(keep)@.len() == nodes@.len(),
        is_id_index(nodes_view(nodes@), index@),
        upward_closed(nodes_view(nodes@), old(keep)@),
        forall|other: Seq<bool>| #[trigger] geometry_closure(nodes_view(nodes@), other) ==> marks_within(old(keep)@, other) && other[start as int],
    ensures
        final(keep)@.len() == nodes@.len(),
        final(keep)@[start as int],
        marks_within(old(keep)@, final(keep)@),
        upward_closed(nodes_view(nodes@), final(keep)@),
        forall|other: Seq<bool>| #[trigger] geometry_closure(nodes_view(nodes@), other) ==> marks_within(final(keep)@, other),
{
    broadcast use vstd::std_specs::hash::group_hash_axioms;
    let ghost ns = nodes_view(nodes@);
    let n = nodes.len();
    let mut cur: usize = start;
    let ghost mut pend: int = -1;
    let ghost idx = index@;
    loop
        invariant
            n == nodes@.len(),
            ns == nodes_view(nodes@),
            keep@.len() == n,
            cur < n,
            start < n,
            cur == start || keep@[start as int],
            marks_within(old(keep)@, keep@),
            index@ == idx,
            is_id_index(ns, idx),
            -1 <= pend < n,
            pend >= 0 ==> keep@[pend] && ns[cur as int].id == ns[pend].parent_id,
            forall|a: int, b: int|
                0 <= a < n && 0 <= b < n && a != pend && #[trigger] keep@[a] && #[trigger] ns[b].id == ns[a].parent_id ==> keep@[b],
            forall|other: Seq<bool>| #[trigger] geometry_closure(ns, other) ==> marks_within(keep@, other) && other[cur as int],
        ensures
            keep@.len() == n,
            keep@[start as int],
            marks_within(old(keep)@, keep@),
            upward_closed(ns, keep@),
            forall|other: Seq<bool>| #[trigger] geometry_closure(ns, other) ==> marks_within(keep@, other),
        decreases n - count_marked(keep@),
    {
        if keep[cur] {
            proof {
                assert forall|a: int, b: int|
                    0 <= a < n && 0 <= b < n && #[trigger] keep@[a] && #[trigger] ns[b].id == ns[a].parent_id implies keep@[b] by {
                    if a == pend {
                        lemma_index_pos(ns, idx, b);
                        lemma_index_pos(ns, idx, cur as int);
                    }
                }
            }
            break;
        }
        proof {
            lemma_count_mark(keep@, cur as int);
        }
        let ghost k0 = keep@;
        keep[cur] = true;
        proof {
            assert(keep@ == k0.update(cur as int, true));
            assert forall|other: Seq<bool>| #[trigger] geometry_closure(ns, other) implies marks_within(keep@, other) by {
                assert(marks_within(k0, other) && other[cur as int]);
            }
            assert(marks_within(old(keep)@, keep@)) by {
                assert forall|j: int| 0 <= j < old(keep)@.len() && #[trigger] old(keep)@[j] implies j < keep@.len() && keep@[j] by {
                    assert(k0[j]);
                }
            }
        }
        let pid = nodes[cur].parent_id;
        proof {
            assert(nodes@[cur as int].view() == ns[cur as int]);
        }
        match index.get(&pid) {
            Some(p) => {
                let p = *p;
                proof {
                    assert(nodes@[p as int].view() == ns[p as int]);
                    assert(ns[p as int].id == ns[cur as int].parent_id);
                    assert forall|other: Seq<bool>| #[trigger] geometry_closure(ns, other) implies other[p as int] by {
                        assert(other[cur as int]);
                        assert(upward_closed(ns, other));
                        assert(other[cur as int] && ns[p as int].id == ns[cur as int].parent_id);
                    }
                    assert forall|a: int, b: int|
                        0 <= a < n && 0 <= b < n && a != cur as int && #[trigger] keep@[a] && #[trigger] ns[b].id == ns[a].parent_id implies keep@[b] by {
                        if a == pend {
                            lemma_index_pos(ns, idx, b);
                            lemma_index_pos(ns, idx, cur as int);
                        } else {
                            assert(k0[a]);
                            assert(k0[b]);
                        }
                    }
                    pend = cur as int;
                }
                cur = p;
            },
            None => {
                proof {
                    assert forall|b: int| 0 <= b < n implies ns[b].id != ns[cur as int].parent_id by {
                        assert(idx.contains_key(ns[b].id));
                    }
                    assert forall|a: int, b: int|
                        0 <= a < n && 0 <= b < n && #[trigger] keep@[a] && #[trigger] ns[b].id == ns[a].parent_id implies keep@[b] by {
                        if a == pend {
                            lemma_index_pos(ns, idx, b);
                            lemma_index_pos(ns, idx, cur as int);
                        } else if a != cur as int {
                            assert(k0[a]);
                            assert(k0[b]);
                        }
                    }
                }
                break;
            },
        }
    }
}

/// The nodes that the tree writers keep: every node with geometry and all its
/// ancestors (following parent ids among the nodes). The result is the smallest such
/// marking: a node is marked only when a node with geometry lies below it.
pub fn geometry_with_ancestors(nodes: &[MetaNode]) -> (keep: Vec<bool>)
    requires
        ids_distinct(nodes_view(nodes@)),
    ensures
        geometry_closure(nodes_view(nodes@), keep@),
        forall|other: Seq<bool>| #[trigger] geometry_closure(nodes_view(nodes@), other) ==> marks_within(keep@, other),
{
    broadcast use vstd::std_specs::hash::group_hash_axioms;
    let ghost ns = nodes_view(nodes@);
    let index = id_index(nodes);
    let n = nodes.len();
    let mut keep: Vec<bool> = Vec::new();
    let mut i: usize = 0;
    while i < n
        invariant
            i <= n,
            n == nodes@.len(),
            keep@.len() == i,
            forall|j: int| 0 <= j < i ==> !#[trigger] keep@[j],
        decreases n - i,
    {
        keep.push(false);
        i += 1;
    }
    let mut i: usize = 0;
    while i < n
        invariant
            i <= n,
            n == nodes@.len(),
            ns == nodes_view(nodes@),
            keep@.len() == n,
            is_id_index(ns, index@),
            forall|j: int| 0 <= j < i && node_has_geometry(ns[j]) ==> #[trigger] keep@[j],
            upward_closed(ns, keep@),
            forall|other: Seq<bool>| #[trigger] geometry_closure(ns, other) ==> marks_within(keep@, other),
        decreases n - i,
    {
        proof {
            assert(nodes@[i as int].view() == ns[i as int]);
        }
        if has_geometry(&nodes[i]) {
            let ghost k0 = keep@;
            proof {
                assert forall|other: Seq<bool>| #[trigger] geometry_closure(ns, other) implies marks_within(keep@, other) && other[i as int] by {
                    assert(covers_geometry(ns, other));
                }
            }
            mark_with_ancestors(nodes, &index, &mut keep, i);
            proof {
                assert forall|j: int| 0 <= j < i + 1 && node_has_geometry(ns[j]) implies #[trigger] keep@[j] by {
                    if j < i {
                        assert(k0[j]);
                    }
                }
            }
        }
        i += 1;
    }
    keep
}

/// What `s.push(v)` contains.
pub proof fn lemma_push_contains(s: Seq<u32>, v: u32, x: u32)
    ensures
        s.push(v).contains(x) <==> (s.contains(x) || x == v),
{
    if s.contains(x) {
        let k = choose|k: int| 0 <= k < s.len() && s[k] == x;
        assert(s.push(v)[k] == x);
    }
    if x == v {
        assert(s.push(v)[s.len() as int] == x);
    }
    if s.push(v).contains(x) {
        let k = choose|k: int| 0 <= k < s.len() + 1 && s.push(v)[k] == x;
        if k < s.len() {
            assert(s[k] == x);
        }
    }
}

/// Every parent id that names a node names one with a smaller id: the tree has no cycle.
pub open spec fn parents_precede(ns: Seq<MetaNodeView>) -> bool {
    forall|i: int, j: int|
        0 <= i < ns.len() && 0 <= j < ns.len() && #[trigger] ns[j].id == #[trigger] ns[i].parent_id ==> ns[j].id < ns[i].id
}

/// The smallest geometry closure is self-supported: none of its nodes is an empty leaf.
proof fn lemma_closure_supported(ns: Seq<MetaNodeView>, l: Seq<bool>)
    requires
        geometry_closure(ns, l),
        forall|other: Seq<bool>| #[trigger] geometry_closure(ns, other) ==> marks_within(l, other),
    ensures
        self_supported(ns, l),
{
    assert forall|x: int| 0 <= x < ns.len() && #[trigger] l[x] implies node_has_geometry(ns[x]) || has_kept_child(ns, l, x) by {
        if !node_has_geometry(ns[x]) && !has_kept_child(ns, l, x) {
            let l2 = l.update(x, false);
            assert forall|i: int| 0 <= i < ns.len() && node_has_geometry(ns[i]) implies #[trigger] l2[i] by {
                assert(l[i]);
            }
            assert forall|i: int, j: int|
                0 <= i < ns.len() && 0 <= j < ns.len() && #[trigger] l2[i] && #[trigger] ns[j].id == ns[i].parent_id implies l2[j] by {
                assert(l[i]);
                assert(l[j]);
                if j == x {
                    assert(l[i] && ns[i].parent_id == ns[x].id);
                    assert(has_kept_child(ns, l, x));
                }
            }
            assert(geometry_closure(ns, l2));
            assert(marks_within(l, l2));
            assert(l2[x]);
        }
    }
}

/// A node of a self-supported set lies in every geometry closure, when parents precede
/// their children.
proof fn lemma_supported_in_closure(ns: Seq<MetaNodeView>, g: Seq<bool>, l: Seq<bool>, i: int)
    requires
        parents_precede(ns),
        self_supported(ns, g),
        geometry_closure(ns, l),
        0 <= i < ns.len(),
        g[i],
    ensures
        l[i],
    decreases 0x1_0000_0000 - ns[i].id,
{
    if !node_has_geometry(ns[i]) {
        let j = choose|j: int| #![trigger g[j], ns[j]] 0 <= j < ns.len() && g[j] && ns[j].parent_id == ns[i].id;
        assert(ns[i].id == ns[j].parent_id);
        assert(ns[i].id < ns[j].id);
        lemma_supported_in_closure(ns, g, l, j);
        assert(l[j] && ns[i].id == ns[j].parent_id);
    }
}

/// In a tree whose parents carry smaller ids than their children, the tree writers and
/// the merged writer keep the same nodes: the smallest marking that holds every node
/// with geometry and its ancestors is the largest marking without empty leaves.
pub proof fn law_tree_pruning_matches_merged(ns: Seq<MetaNodeView>, merged: Seq<bool>, tree: Seq<bool>)
    requires
        parents_precede(ns),
        self_supported(ns, merged),
        forall|other: Seq<bool>| #[trigger] self_supported(ns, other) ==> marks_within(other, merged),
        geometry_closure(ns, tree),
        forall|other: Seq<bool>| #[trigger] geometry_closure(ns, other) ==> marks_within(tree, other),
    ensures
        merged == tree,
{
    lemma_closure_supported(ns, tree);
    assert(marks_within(tree, merged));
    assert forall|i: int| 0 <= i < ns.len() implies merged[i] == tree[i] by {
        if merged[i] {
            lemma_supported_in_closure(ns, merged, tree, i);
        }
        if tree[i] {
            assert(merged[i]);
        }
    }
    assert(merged =~= tree);
}

/// `s` increases strictly and every element is below `n`.
pub open spec fn increasing_below(s: Seq<u32>, n: int) -> bool {
    &&& forall|a: int, b: int| 0 <= a < b < s.len() ==> s[a] < s[b]
    &&& forall|a: int| 0 <= a < s.len() ==> #[trigger] s[a] < n
}

/// The node tree of the writers: for each node the positions of its children (the
/// nodes that name it as parent), in order, and the positions of the roots (the nodes
/// whose parent is none of the nodes), in order.
pub fn tree_links(nodes: &[MetaNode]) -> (r: (Vec<Vec<u32>>, Vec<u32>))
    requires
        ids_distinct(nodes_view(nodes@)),
        nodes@.len() < u32::MAX,
    ensures
        r.0@.len() == nodes@.len(),
        forall|a: int| 0 <= a < nodes@.len() ==> increasing_below(#[trigger] r.0@[a]@, nodes@.len() as int),
        forall|a: int, b: int| 0 <= a < nodes@.len() && 0 <= b < nodes@.len() ==>
            (#[trigger] r.0@[a]@.contains(b as u32) <==> nodes_view(nodes@)[b].parent_id == #[trigger] nodes_view(nodes@)[a].id),
        increasing_below(r.1@, nodes@.len() as int),
        forall|b: int| 0 <= b < nodes@.len() ==>
            (#[trigger] r.1@.contains(b as u32) <==> forall|a: int| 0 <= a < nodes@.len() ==> #[trigger] nodes_view(nodes@)[a].id != nodes_view(nodes@)[b].parent_id),
{
    broadcast use vstd::std_specs::hash::group_hash_axioms;
    let ghost ns = nodes_view(nodes@);
    let index = id_index(nodes);
    let n = nodes.len();
    let mut children: Vec<Vec<u32>> = Vec::new();
    let mut i: usize = 0;
    while i < n
        invariant
            i <= n,
            n == nodes@.len(),
            children@.len() == i,
            forall|a: int| 0 <= a < i ==> #[trigger] children@[a]@ == Seq::<u32>::empty(),
        decreases n - i,
    {
        children.push(Vec::new());
        i += 1;
    }
    let mut roots: Vec<u32> = Vec::new();
    let mut b: usize = 0;
    while b < n
        invariant
            b <= n,
            n == nodes@.len(),
            n < u32::MAX,
            children@.len() == n,
            ns == nodes_view(nodes@),
            is_id_index(ns, index@),
            forall|a: int| 0 <= a < n ==> increasing_below(#[trigger] children@[a]@, b as int),
            forall|a: int, c: int| 0 <= a < n && 0 <= c < b ==>
                (#[trigger] children@[a]@.contains(c as u32) <==> ns[c].parent_id == #[trigger] ns[a].id),
            increasing_below(roots@, b as int),
            forall|c: int| 0 <= c < b ==>
                (#[trigger] roots@.contains(c as u32) <==> forall|a: int| 0 <= a < nodes@.len() ==> #[trigger] ns[a].id != ns[c].parent_id),
        decreases n - b,
    {
        let pid = nodes[b].parent_id;
        proof {
            assert(nodes@[b as int].view() == ns[b as int]);
        }
        let ghost ch0 = children@;
        let ghost r0 = roots@;
        match index.get(&pid) {
            Some(a) => {
                let a = *a;
                children[a].push(b as u32);
                proof {
                    assert forall|x: int| 0 <= x < n implies increasing_below(#[trigger] children@[x]@, b + 1) by {
                        if x == a as int {
                            assert(children@[x]@ == ch0[x]@.push(b as u32));
                        } else {
                            assert(children@[x] == ch0[x]);
                        }
                    }
                    assert forall|x: int, c: int| 0 <= x < n && 0 <= c < b + 1 implies
                        (#[trigger] children@[x]@.contains(c as u32) <==> ns[c].parent_id == #[trigger] ns[x].id) by {
                        if x == a as int {
                            assert(children@[x]@ == ch0[x]@.push(b as u32));
                            lemma_push_contains(ch0[x]@, b as u32, c as u32);
                        } else {
                            assert(children@[x] == ch0[x]);
                            if c == b {
                                assert(ns[x].id != pid) by {
                                    assert(index@.contains_key(ns[x].id));
                                    assert(index@[ns[x].id] == x);
                                }
                                assert(!ch0[x]@.contains(b as u32));
                            }
                        }
                    }
                    assert forall|c: int| 0 <= c < b + 1 implies
                        (#[trigger] roots@.contains(c as u32) <==> forall|y: int| 0 <= y < nodes@.len() ==> #[trigger] ns[y].id != ns[c].parent_id) by {
                        if c == b {
                            assert(!roots@.contains(b as u32));
                            assert(ns[a as int].id == pid);
                        }
                    }
                }
            },
            None => {
                roots.push(b as u32);
                proof {
                    assert forall|c: int| 0 <= c < b + 1 implies
                        (#[trigger] roots@.contains(c as u32) <==> forall|y: int| 0 <= y < nodes@.len() ==> #[trigger] ns[y].id != ns[c].parent_id) by {
                        lemma_push_contains(r0, b as u32, c as u32);
                        if c == b {
                            assert forall|y: int| 0 <= y < nodes@.len() implies #[trigger] ns[y].id != ns[c].parent_id by {
                                assert(index@.contains_key(ns[y].id));
                            }
                        }
                    }
                    assert forall|x: int, c: int| 0 <= x < n && 0 <= c < b + 1 implies
                        (#[trigger] children@[x]@.contains(c as u32) <==> ns[c].parent_id == #[trigger] ns[x].id) by {
                        if c == b {
                            assert(index@.contains_key(ns[x].id));
                            assert(!children@[x]@.contains(b as u32));
                        }
                    }
                }
            },
        }
        b += 1;
    }
    (children, roots)
}

/// The number of indices of a primitive in a merged mesh: 3 per triangle (modulo 2^32).
pub open spec fn prim_index_count(p: NodePrim) -> u32 {
    ((3 * p.triangles_n as int) % 0x1_0000_0000) as u32
}

/// The number of indices of a node in a merged mesh: the sum over its primitives
/// (modulo 2^32).
pub open spec fn node_index_count(ps: Seq<NodePrim>) -> u32
    decreases ps.len(),
{
    if ps.len() == 0 {
        0
    } else {
        wadd(node_index_count(ps.drop_last()), prim_index_count(ps.last()))
    }
}

/// A node that goes into the merged mesh of `color`: it has that colour and primitives.
pub open spec fn in_mesh(n: MetaNodeView, color: u32) -> bool {
    n.color_with_alpha == color && n.primitives.len() > 0
}

/// Where the indices of node `k` start in the merged mesh of `color`: the sum of the
/// index counts of the nodes of that mesh before it (modulo 2^32).
pub open spec fn range_start(ns: Seq<MetaNodeView>, color: u32, k: int) -> u32
    decreases k,
{
    if k <= 0 {
        0
    } else {
        let s = range_start(ns, color, k - 1);
        if in_mesh(ns[k - 1], color) {
            wadd(s, node_index_count(ns[k - 1].primitives))
        } else {
            s
        }
    }
}

/// The node with its draw range in the merged mesh of `color` set, when it belongs to it.
pub open spec fn with_draw_range(ns: Seq<MetaNodeView>, color: u32, k: int) -> MetaNodeView {
    if in_mesh(ns[k], color) {
        MetaNodeView { start: range_start(ns, color, k), count: node_index_count(ns[k].primitives), ..ns[k] }
    } else {
        ns[k]
    }
}

/// Some node of the merged mesh of `color` has a primitive with triangles or vertices.
pub open spec fn mesh_has_data(ns: Seq<MetaNodeView>, color: u32) -> bool {
    exists|k: int, j: int|
        0 <= k < ns.len() && in_mesh(ns[k], color) && 0 <= j < ns[k].primitives.len() && #[trigger] prim_has_geometry(ns[k].primitives[j])
}

/// Sets the draw range (start and count of its indices) of each node of the merged
/// mesh of `color`, the nodes taken in their order; leaves the other nodes as they
/// are. Returns whether the mesh has any triangles or vertices.
pub fn assign_draw_ranges(nodes: &mut Vec<MetaNode>, color: u32) -> (any: bool)
    ensures
        final(nodes)@.len() == old(nodes)@.len(),
        forall|k: int| 0 <= k < old(nodes)@.len() ==> #[trigger] nodes_view(final(nodes)@)[k] == with_draw_range(nodes_view(old(nodes)@), color, k),
        any == mesh_has_data(nodes_view(old(nodes)@), color),
{
    let ghost ns = nodes_view(nodes@);
    let mut cursor: u32 = 0;
    let mut any = false;
    let mut i: usize = 0;
    while i < nodes.len()
        invariant
            i <= nodes@.len(),
            nodes@.len() == ns.len(),
            ns == nodes_view(old(nodes)@),
            cursor == range_start(ns, color, i as int),
            forall|k: int| 0 <= k < i ==> #[trigger] nodes_view(nodes@)[k] == with_draw_range(ns, color, k),
            forall|k: int| i <= k < nodes@.len() ==> #[trigger] nodes_view(nodes@)[k] == ns[k],
            any == exists|k: int, j: int|
                0 <= k < i && in_mesh(ns[k], color) && 0 <= j < ns[k].primitives.len() && #[trigger] prim_has_geometry(ns[k].primitives[j]),
        decreases nodes.len() - i,
    {
        proof {
            assert(nodes_view(nodes@)[i as int] == ns[i as int]);
        }
        if nodes[i].color_with_alpha == color && nodes[i].primitives.len() > 0 {
            let mut count: u32 = 0;
            let mut local_any = false;
            let mut j: usize = 0;
            while j < nodes[i].primitives.len()
                invariant
                    i < nodes@.len(),
                    nodes@.len() == ns.len(),
                    nodes@[i as int].view() == ns[i as int],
                    j <= ns[i as int].primitives.len(),
                    count == node_index_count(ns[i as int].primitives.subrange(0, j as int)),
                    local_any == exists|jj: int| 0 <= jj < j && #[trigger] prim_has_geometry(ns[i as int].primitives[jj]),
                decreases ns[i as int].primitives.len() - j,
            {
                let p = nodes[i].primitives[j];
                proof {
                    let ps = ns[i as int].primitives;
                    assert(ps.subrange(0, j + 1).drop_last() =~= ps.subrange(0, j as int));
                    assert(p == ps[j as int]);
                }
                count = count.wrapping_add(p.triangles_n.wrapping_mul(3));
                if p.triangles_n > 0 || p.vertices_n > 0 {
                    local_any = true;
                }
                proof {
                    let ps = ns[i as int].primitives;
                    if prim_has_geometry(p) {
                        assert(prim_has_geometry(ps[j as int]));
                    }
                }
                j += 1;
            }
            proof {
                let ps = ns[i as int].primitives;
                assert(ps.subrange(0, ps.len() as int) == ps);
            }
            let ghost before = nodes@;
            let start = cursor;
            nodes[i].start = start;
            nodes[i].count = count;
            proof {
                assert forall|k: int| 0 <= k < nodes@.len() && k != i implies #[trigger] nodes_view(nodes@)[k] == nodes_view(before)[k] by {
                    assert(nodes@[k] == before[k]);
                }
                assert(nodes_view(nodes@)[i as int] == with_draw_range(ns, color, i as int));
                if local_any {
                    let jj = choose|jj: int| 0 <= jj < ns[i as int].primitives.len() && #[trigger] prim_has_geometry(ns[i as int].primitives[jj]);
                    assert(in_mesh(ns[i as int], color));
                    assert(prim_has_geometry(ns[i as int].primitives[jj]));
                }
            }
            cursor = cursor.wrapping_add(count);
            if local_any {
                any = true;
            }
        } else {
            proof {
                assert(!in_mesh(ns[i as int], color));
            }
        }
        proof {
            assert forall|k: int, j: int| 0 <= k < i + 1 && in_mesh(ns[k], color) && 0 <= j < ns[k].primitives.len() && #[trigger] prim_has_geometry(ns[k].primitives[j]) implies any by {
                if k < i {
                    assert(0 <= k < i && in_mesh(ns[k], color) && 0 <= j < ns[k].primitives.len() && prim_has_geometry(ns[k].primitives[j]));
                }
            }
        }
        i += 1;
    }
    any
}

/// Whether the ids increase along the list (see [`ids_increasing`]).
pub fn check_ids_increasing(nodes: &[MetaNode]) -> (b: bool)
    ensures
        b == ids_increasing(nodes_view(nodes@)),
{
    let ghost ns = nodes_view(nodes@);
    let mut i: usize = 1;
    if nodes.len() == 0 {
        return true;
    }
    while i < nodes.len()
        invariant
            1 <= i <= nodes@.len(),
            ns == nodes_view(nodes@),
            ids_increasing(ns.subrange(0, i as int)),
        decreases nodes.len() - i,
    {
        proof {
            assert(nodes@[i as int].view() == ns[i as int]);
            assert(nodes@[i as int - 1].view() == ns[i as int - 1]);
        }
        if nodes[i - 1].id >= nodes[i].id {
            proof {
                assert(!(ns[i - 1].id < ns[i as int].id));
            }
            return false;
        }
        proof {
            let p = ns.subrange(0, i as int);
            let q = ns.subrange(0, i + 1);
            assert forall|a: int, b: int| 0 <= a < b < q.len() implies q[a].id < q[b].id by {
                if b < i {
                    assert(p[a] == q[a] && p[b] == q[b]);
                } else if a < i - 1 {
                    assert(p[a].id < p[i - 1].id);
                }
            }
        }
        i += 1;
    }
    assert(ns.subrange(0, ns.len() as int) == ns);
    true
}

/// The draw-range record of the merged mesh of `color`: `(id, start, count)` of each
/// node of that mesh with a non-empty range, in node order.
pub open spec fn draw_range_record(ns: Seq<MetaNodeView>, color: u32) -> Seq<(u32, u32, u32)>
    decreases ns.len(),
{
    if ns.len() == 0 {
        Seq::empty()
    } else {
        let r = draw_range_record(ns.drop_last(), color);
        let n = ns.last();
        if in_mesh(n, color) && n.count != 0 {
            r.push((n.id, n.start, n.count))
        } else {
            r
        }
    }
}

/// The draw-range record of the merged mesh of `color` (see [`draw_range_record`]).
pub fn draw_ranges(nodes: &[MetaNode], color: u32) -> (r: Vec<(u32, u32, u32)>)
    ensures
        r@ == draw_range_record(nodes_view(nodes@), color),
{
    let ghost ns = nodes_view(nodes@);
    let mut r: Vec<(u32, u32, u32)> = Vec::new();
    let mut i: usize = 0;
    while i < nodes.len()
        invariant
            i <= nodes@.len(),
            ns == nodes_view(nodes@),
            r@ == draw_range_record(ns.subrange(0, i as int), color),
        decreases nodes.len() - i,
    {
        let n = &nodes[i];
        proof {
            assert(ns.subrange(0, i + 1).drop_last() == ns.subrange(0, i as int));
            assert(n.view() == ns[i as int]);
        }
        if n.color_with_alpha == color && n.primitives.len() > 0 && n.count != 0 {
            r.push((n.id, n.start, n.count));
        }
        i += 1;
    }
    assert(ns.subrange(0, ns.len() as int) == ns);
    r
}

/// The id hierarchy of a list of nodes: for each node, in order, its id, its name and
/// its parent's id (`None` for a node without a parent, whose parent id is 0).
pub fn id_hierarchy(nodes: &[MetaNode]) -> (r: Vec<(u32, String, Option<u32>)>)
    ensures
        r@.len() == nodes@.len(),
        forall|k: int| 0 <= k < r@.len() ==> {
            &&& #[trigger] r@[k].0 == nodes@[k].id
            &&& r@[k].1@ == nodes@[k].name@
            &&& r@[k].2 == (if nodes@[k].parent_id == 0 { None } else { Some(nodes@[k].parent_id) })
        },
{
    let mut r: Vec<(u32, String, Option<u32>)> = Vec::new();
    let mut i: usize = 0;
    while i < nodes.len()
        invariant
            i <= nodes@.len(),
            r@.len() == i,
            forall|k: int| 0 <= k < i ==> {
                &&& #[trigger] r@[k].0 == nodes@[k].id
                &&& r@[k].1@ == nodes@[k].name@
                &&& r@[k].2 == (if nodes@[k].parent_id == 0 { None } else { Some(nodes@[k].parent_id) })
            },
        decreases nodes.len() - i,
    {
        let n = &nodes[i];
        let parent = if n.parent_id == 0 { None } else { Some(n.parent_id) };
        r.push((n.id, n.name.clone(), parent));
        i += 1;
    }
    r
}

/// The number of triangles of a list of primitives.
pub open spec fn triangles_total(ps: Seq<NodePrim>) -> int
    decreases ps.len(),
{
    if ps.len() == 0 {
        0
    } else {
        triangles_total(ps.drop_last()) + ps.last().triangles_n
    }
}

/// The number of triangles of the nodes of the merged mesh of `color` before node `k`.
pub open spec fn mesh_triangles_before(ns: Seq<MetaNodeView>, color: u32, k: int) -> int
    decreases k,
{
    if k <= 0 {
        0
    } else if in_mesh(ns[k - 1], color) {
        mesh_triangles_before(ns, color, k - 1) + triangles_total(ns[k - 1].primitives)
    } else {
        mesh_triangles_before(ns, color, k - 1)
    }
}

proof fn lemma_wadd_mod(a: int, b: int)
    requires
        a >= 0,
        b >= 0,
    ensures
        wadd((a % 0x1_0000_0000) as u32, (b % 0x1_0000_0000) as u32) == ((a + b) % 0x1_0000_0000) as u32,
{
    vstd::arithmetic::div_mod::lemma_add_mod_noop(a, b, 0x1_0000_0000);
}

proof fn lemma_triangles_total_nonneg(ps: Seq<NodePrim>)
    ensures
        triangles_total(ps) >= 0,
    decreases ps.len(),
{
    if ps.len() > 0 {
        lemma_triangles_total_nonneg(ps.drop_last());
    }
}

proof fn lemma_node_index_count(ps: Seq<NodePrim>)
    ensures
        node_index_count(ps) as int == (3 * triangles_total(ps)) % 0x1_0000_0000,
    decreases ps.len(),
{
    lemma_triangles_total_nonneg(ps);
    if ps.len() > 0 {
        lemma_node_index_count(ps.drop_last());
        lemma_triangles_total_nonneg(ps.drop_last());
        lemma_wadd_mod(3 * triangles_total(ps.drop_last()), 3 * ps.last().triangles_n);
    }
}

proof fn lemma_range_start(ns: Seq<MetaNodeView>, color: u32, k: int)
    requires
        0 <= k <= ns.len(),
    ensures
        mesh_triangles_before(ns, color, k) >= 0,
        range_start(ns, color, k) as int == (3 * mesh_triangles_before(ns, color, k)) % 0x1_0000_0000,
    decreases k,
{
    if k > 0 {
        lemma_range_start(ns, color, k - 1);
        if in_mesh(ns[k - 1], color) {
            let ps = ns[k - 1].primitives;
            lemma_node_index_count(ps);
            lemma_triangles_total_nonneg(ps);
            lemma_wadd_mod(3 * mesh_triangles_before(ns, color, k - 1), 3 * triangles_total(ps));
        }
    }
}

/// A node's draw range in the merged mesh of `color` is the slice of the merged index
/// buffer that holds its indices: three per triangle of its primitives, after the
/// indices of the nodes of that mesh before it (counted modulo 2^32).
pub proof fn law_draw_range_counts_indices(ns: Seq<MetaNodeView>, color: u32, k: int)
    requires
        0 <= k < ns.len(),
        in_mesh(ns[k], color),
    ensures
        with_draw_range(ns, color, k).count as int == (3 * triangles_total(ns[k].primitives)) % 0x1_0000_0000,
        with_draw_range(ns, color, k).start as int == (3 * mesh_triangles_before(ns, color, k)) % 0x1_0000_0000,
{
    lemma_node_index_count(ns[k].primitives);
    lemma_range_start(ns, color, k);
}

} // verus!

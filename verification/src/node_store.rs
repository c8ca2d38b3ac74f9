//! Storing a finished container: its primitives are split by role into sibling
//! nodes, each coloured with the material colour and an opacity-derived alpha.
use crate::geometry::GeometryType;
use crate::model::{empty_node, nodes_view, MetaNode, MetaNodeView, NodePrim};
use vstd::prelude::*;

verus! {

/// The primitives of role `t`, in order.
pub open spec fn of_role(ps: Seq<NodePrim>, t: GeometryType) -> Seq<NodePrim>
    decreases ps.len(),
{
    if ps.len() == 0 {
        Seq::empty()
    } else if ps.last().geo_type == t {
        of_role(ps.drop_last(), t).push(ps.last())
    } else {
        of_role(ps.drop_last(), t)
    }
}

/// The alpha of an opacity percentage: `opacity * 255 / 100`, at most 255.
pub open spec fn alpha_of(opacity: u8) -> u32 {
    let a = (opacity as int * 255) / 100;
    if a > 255 {
        255
    } else {
        a as u32
    }
}

/// `0xAARRGGBB` from the low 24 bits of `material` and the alpha of `opacity`.
pub open spec fn color_with_alpha(material: u32, opacity: u8) -> u32 {
    (alpha_of(opacity) as int * 0x1000000 + (material as int % 0x1000000)) as u32
}

/// One role group of a container: its primitives, the opacity its colour uses and
/// the suffix its node name gets.
pub struct RoleGroup {
    pub prims: Seq<NodePrim>,
    pub opacity: u8,
    pub suffix: Seq<char>,
}

/// The name suffix of insulation nodes.
pub open spec fn insu_suffix() -> Seq<char> {
    seq!['(', 'I', 'N', 'S', 'U', ')']
}

/// The name suffix of obstruction nodes.
pub open spec fn obst_suffix() -> Seq<char> {
    seq!['(', 'O', 'B', 'S', 'T', ')']
}

/// The non-empty role groups of a container, in the order plain geometry,
/// insulation, obstruction. Plain geometry uses the container's opacity; the other
/// roles use the opacity of their first primitive.
pub open spec fn role_groups(n: MetaNodeView) -> Seq<RoleGroup> {
    let p = of_role(n.primitives, GeometryType::Primitive);
    let i = of_role(n.primitives, GeometryType::Insulation);
    let o = of_role(n.primitives, GeometryType::Obstruction);
    let gp = if p.len() > 0 {
        seq![RoleGroup { prims: p, opacity: n.opacity, suffix: Seq::empty() }]
    } else {
        Seq::empty()
    };
    let gi = if i.len() > 0 {
        seq![RoleGroup { prims: i, opacity: i[0].opacity, suffix: insu_suffix() }]
    } else {
        Seq::empty()
    };
    let go = if o.len() > 0 {
        seq![RoleGroup { prims: o, opacity: o[0].opacity, suffix: obst_suffix() }]
    } else {
        Seq::empty()
    };
    gp + gi + go
}

/// The node a role group becomes, with id `id`.
pub open spec fn group_node(n: MetaNodeView, g: RoleGroup, id: u32) -> MetaNodeView {
    MetaNodeView {
        id,
        parent_id: n.parent_id,
        name: n.name + g.suffix,
        material_id: n.material_id,
        start: 0,
        count: 0,
        opacity: n.opacity,
        version: 0,
        color_with_alpha: color_with_alpha(n.material_id, g.opacity),
        primitives: g.prims,
    }
}

/// The id of the `j`-th group node: the container's own id for the first, then
/// ids following the counter `count`.
pub open spec fn group_id(n: MetaNodeView, count: u32, j: int) -> u32 {
    if j == 0 {
        n.id
    } else {
        ((count as int + j) % 0x1_0000_0000) as u32
    }
}

/// The nodes a container with primitives becomes.
pub open spec fn group_nodes(n: MetaNodeView, count: u32) -> Seq<MetaNodeView> {
    let gs = role_groups(n);
    Seq::new(gs.len(), |j: int| group_node(n, gs[j], group_id(n, count, j)))
}

/// The node kept for a container without primitives: its id, parent, name and
/// opacity; no colour.
pub open spec fn bare_node(n: MetaNodeView) -> MetaNodeView {
    MetaNodeView { id: n.id, parent_id: n.parent_id, name: n.name, opacity: n.opacity, ..empty_node() }
}

/// The colours of the groups of a container.
pub open spec fn group_colors(n: MetaNodeView) -> Set<u32> {
    Set::new(|c: u32| exists|j: int| 0 <= j < role_groups(n).len() && c == color_with_alpha(n.material_id, #[trigger] role_groups(n)[j].opacity))
}

/// Strictly increasing.
pub open spec fn sorted_unique(s: Seq<u32>) -> bool {
    forall|i: int, j: int| 0 <= i < j < s.len() ==> s[i] < s[j]
}

/// Adding one after wrapping is wrapping after adding one.
proof fn lemma_wrap_succ(a: int)
    requires
        a >= 0,
    ensures
        ((a % 0x1_0000_0000) + 1) % 0x1_0000_0000 == (a + 1) % 0x1_0000_0000,
{
    vstd::arithmetic::div_mod::lemma_add_mod_noop(a, 1, 0x1_0000_0000);
}

/// Inserts `x` into a strictly increasing list, keeping it strictly increasing.
pub fn insert_sorted(v: &mut Vec<u32>, x: u32)
    requires
        sorted_unique(old(v)@),
    ensures
        sorted_unique(final(v)@),
        final(v)@.to_set() == old(v)@.to_set().insert(x),
{
    let n = v.len();
    let mut i: usize = 0;
    while i < n && v[i] < x
        invariant
            n == v@.len(),
            i <= n,
            v@ == old(v)@,
            forall|j: int| 0 <= j < i ==> v@[j] < x,
        decreases n - i,
    {
        i += 1;
    }
    if i < n && v[i] == x {
        assert(v@.to_set() == old(v)@.to_set().insert(x)) by {
            assert(v@.contains(x) ==> v@.to_set().contains(x));
            assert(v@[i as int] == x);
        }
        return;
    }
    let ghost before = v@;
    v.insert(i, x);
    assert(v@ == before.subrange(0, i as int).push(x) + before.subrange(i as int, n as int));
    assert(v@.to_set() =~= before.to_set().insert(x)) by {
        assert forall|y: u32| #[trigger] v@.to_set().contains(y) implies before.to_set().insert(x).contains(y) by {
            let k = choose|k: int| 0 <= k < v@.len() && v@[k] == y;
            if k < i {
                assert(before[k] == y);
            } else if k > i {
                assert(before[k - 1] == y);
            }
        }
        assert forall|y: u32| #[trigger] before.to_set().insert(x).contains(y) implies v@.to_set().contains(y) by {
            if y == x {
                assert(v@[i as int] == x);
            } else {
                let k = choose|k: int| 0 <= k < before.len() && before[k] == y;
                if k < i {
                    assert(v@[k] == y);
                } else {
                    assert(v@[k + 1] == y);
                }
            }
        }
    }
}

} // verus!

verus! {

/// The colour of a group: the low 24 bits of `material` with the alpha of `opacity`.
fn group_color(material: u32, opacity: u8) -> (c: u32)
    ensures
        c == color_with_alpha(material, opacity),
{
    let a: u32 = (opacity as u32 * 255) / 100;
    let alpha: u32 = if a > 255 { 255 } else { a };
    let rgb: u32 = material & 0x00FF_FFFF;
    assert(rgb == material % 0x1000000) by (bit_vector)
        requires rgb == material & 0x00FF_FFFF;
    assert((alpha << 24u32) | rgb == alpha * 0x1000000 + rgb) by (bit_vector)
        requires alpha <= 255, rgb == material & 0x00FF_FFFF;
    (alpha << 24) | rgb
}

/// Splits primitives by role, keeping their order within each role.
fn split_by_role(ps: &Vec<NodePrim>) -> (r: (Vec<NodePrim>, Vec<NodePrim>, Vec<NodePrim>))
    ensures
        r.0@ == of_role(ps@, GeometryType::Primitive),
        r.1@ == of_role(ps@, GeometryType::Insulation),
        r.2@ == of_role(ps@, GeometryType::Obstruction),
{
    let mut prim: Vec<NodePrim> = Vec::new();
    let mut insu: Vec<NodePrim> = Vec::new();
    let mut obst: Vec<NodePrim> = Vec::new();
    let n = ps.len();
    let mut i: usize = 0;
    while i < n
        invariant
            n == ps@.len(),
            i <= n,
            prim@ == of_role(ps@.subrange(0, i as int), GeometryType::Primitive),
            insu@ == of_role(ps@.subrange(0, i as int), GeometryType::Insulation),
            obst@ == of_role(ps@.subrange(0, i as int), GeometryType::Obstruction),
        decreases n - i,
    {
        let p = ps[i];
        let ghost s = ps@.subrange(0, i + 1);
        assert(s.drop_last() == ps@.subrange(0, i as int));
        assert(s.last() == p);
        match p.geo_type {
            GeometryType::Primitive => prim.push(p),
            GeometryType::Insulation => insu.push(p),
            GeometryType::Obstruction => obst.push(p),
        }
        i += 1;
    }
    assert(ps@.subrange(0, n as int) == ps@);
    (prim, insu, obst)
}

/// Appends the node of one role group.
fn push_group(
    node: &MetaNode,
    prims: Vec<NodePrim>,
    opacity: u8,
    suffix: &str,
    used_id: &mut bool,
    count: &mut u32,
    nodes: &mut Vec<MetaNode>,
    colors: &mut Vec<u32>,
)
    requires
        sorted_unique(old(colors)@),
    ensures
        sorted_unique(final(colors)@),
        final(colors)@.to_set() == old(colors)@.to_set().insert(color_with_alpha(node.material_id, opacity)),
        *final(used_id),
        *old(used_id) ==> *final(count) == ((*old(count) as int + 1) % 0x1_0000_0000) as u32,
        !*old(used_id) ==> *final(count) == *old(count),
        nodes_view(final(nodes)@) == nodes_view(old(nodes)@).push(
            group_node(node.view(), RoleGroup { prims: prims@, opacity, suffix: suffix@ },
                if *old(used_id) { *final(count) } else { node.id }),
        ),
{
    let color = group_color(node.material_id, opacity);
    insert_sorted(colors, color);
    let id = if *used_id {
        *count = count.wrapping_add(1);
        *count
    } else {
        *used_id = true;
        node.id
    };
    let name = node.name.clone().concat(suffix);
    let ghost before = nodes@;
    nodes.push(MetaNode {
        id,
        parent_id: node.parent_id,
        name,
        material_id: node.material_id,
        start: 0,
        count: 0,
        opacity: node.opacity,
        version: 0,
        color_with_alpha: color,
        primitives: prims,
    });
    assert(nodes_view(nodes@) =~= nodes_view(before).push(nodes@.last().view()));
}

/// Stores the container `current` into `nodes` and resets it to the empty node.
///
/// Nothing happens when `current` is the empty node (id 0). In the structure-dump
/// mode the node is kept as it is. Otherwise its primitives are split by role: each
/// non-empty role becomes a node (see [`group_nodes`]) whose colour joins `colors`;
/// the first takes the container's id, the others take the next ids of `count`.
/// A container without primitives is kept as a bare node (see [`bare_node`]).
pub fn store_node(
    current: &mut MetaNode,
    nodes: &mut Vec<MetaNode>,
    colors: &mut Vec<u32>,
    count: &mut u32,
    extract_json: bool,
)
    requires
        sorted_unique(old(colors)@),
    ensures
        sorted_unique(final(colors)@),
        old(current).id == 0 ==> {
            &&& final(current).view() == old(current).view()
            &&& nodes_view(final(nodes)@) == nodes_view(old(nodes)@)
            &&& final(colors)@ == old(colors)@
            &&& *final(count) == *old(count)
        },
        old(current).id != 0 ==> final(current).view() == empty_node(),
        old(current).id != 0 && extract_json ==> {
            &&& nodes_view(final(nodes)@) == nodes_view(old(nodes)@).push(old(current).view())
            &&& final(colors)@ == old(colors)@
            &&& *final(count) == *old(count)
        },
        old(current).id != 0 && !extract_json && role_groups(old(current).view()).len() == 0 ==> {
            &&& nodes_view(final(nodes)@) == nodes_view(old(nodes)@).push(bare_node(old(current).view()))
            &&& final(colors)@ == old(colors)@
            &&& *final(count) == *old(count)
        },
        old(current).id != 0 && !extract_json && role_groups(old(current).view()).len() > 0 ==> {
            &&& nodes_view(final(nodes)@) == nodes_view(old(nodes)@) + group_nodes(old(current).view(), *old(count))
            &&& final(colors)@.to_set() == old(colors)@.to_set() + group_colors(old(current).view())
            &&& *final(count) == ((*old(count) as int + role_groups(old(current).view()).len() - 1) % 0x1_0000_0000) as u32
        },
{
    if current.id == 0 {
        return;
    }
    let mut node = MetaNode::empty();
    std::mem::swap(&mut node, current);
    let ghost n = node.view();
    if extract_json {
        let ghost before = nodes@;
        nodes.push(node);
        assert(nodes_view(nodes@) =~= nodes_view(before).push(n));
        return;
    }
    let (prim, insu, obst) = split_by_role(&node.primitives);
    if prim.len() == 0 && insu.len() == 0 && obst.len() == 0 {
        let ghost before = nodes@;
        nodes.push(MetaNode {
            id: node.id,
            parent_id: node.parent_id,
            name: node.name,
            material_id: 0,
            start: 0,
            count: 0,
            opacity: node.opacity,
            version: 0,
            color_with_alpha: 0,
            primitives: Vec::new(),
        });
        assert(nodes_view(nodes@) =~= nodes_view(before).push(bare_node(n)));
        return;
    }
    let insu_op = if insu.len() > 0 { insu[0].opacity } else { node.opacity };
    let obst_op = if obst.len() > 0 { obst[0].opacity } else { node.opacity };
    let ghost gs = role_groups(n);
    let ghost count0 = *count;
    let ghost nodes0 = nodes_view(nodes@);
    let ghost colors0 = colors@.to_set();
    let mut used_id = false;
    let ghost mut emitted: int = 0;
    proof {
        reveal_strlit("(INSU)");
        reveal_strlit("(OBST)");
        reveal_strlit("");
        assert(""@ == Seq::<char>::empty());
    }
    let ghost gn = group_nodes(n, count0);
    if prim.len() > 0 {
        push_group(&node, prim, node.opacity, "", &mut used_id, count, nodes, colors);
        proof {
            assert(gs[0] == RoleGroup { prims: of_role(n.primitives, GeometryType::Primitive), opacity: n.opacity, suffix: Seq::empty() });
            assert(nodes_view(nodes@) =~= nodes0 + gn.subrange(0, 1));
            emitted = 1;
        }
    }
    assert(nodes_view(nodes@) == nodes0 + gn.subrange(0, emitted));
    assert(used_id == (emitted > 0));
    assert(emitted > 0 ==> *count == ((count0 as int + emitted - 1) % 0x1_0000_0000) as u32);
    assert(emitted == 0 ==> *count == count0);
    if insu.len() > 0 {
        let ghost k = emitted;
        push_group(&node, insu, insu_op, "(INSU)", &mut used_id, count, nodes, colors);
        proof {
            assert("(INSU)"@ =~= insu_suffix());
            if k > 0 {
                lemma_wrap_succ(count0 as int + k - 1);
            }
            assert(gs[k] == RoleGroup { prims: of_role(n.primitives, GeometryType::Insulation), opacity: insu_op, suffix: insu_suffix() });
            assert(gn[k] == group_node(n, gs[k], group_id(n, count0, k)));
            assert(nodes_view(nodes@) =~= nodes0 + gn.subrange(0, k + 1));
            emitted = emitted + 1;
        }
    }
    assert(nodes_view(nodes@) == nodes0 + gn.subrange(0, emitted));
    assert(used_id == (emitted > 0));
    assert(emitted > 0 ==> *count == ((count0 as int + emitted - 1) % 0x1_0000_0000) as u32);
    if obst.len() > 0 {
        let ghost k = emitted;
        push_group(&node, obst, obst_op, "(OBST)", &mut used_id, count, nodes, colors);
        proof {
            assert("(OBST)"@ =~= obst_suffix());
            if k > 0 {
                lemma_wrap_succ(count0 as int + k - 1);
            }
            assert(gs[k] == RoleGroup { prims: of_role(n.primitives, GeometryType::Obstruction), opacity: obst_op, suffix: obst_suffix() });
            assert(gn[k] == group_node(n, gs[k], group_id(n, count0, k)));
            assert(nodes_view(nodes@) =~= nodes0 + gn.subrange(0, k + 1));
            emitted = emitted + 1;
        }
    }
    assert(emitted == gs.len());
    assert(gn.subrange(0, emitted) == gn);
    assert(nodes_view(nodes@) == nodes0 + group_nodes(n, count0));
}

} // verus!

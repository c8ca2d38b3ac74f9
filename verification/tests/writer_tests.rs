use rvm2glb::geometry::GeometryType;
use rvm2glb::glb::{frame_glb, pad_to_4, push_le32, push_le32_all};
use rvm2glb::mesh_index::{append_shifted, compact_indices, number_keys, optimize_and_compact, quad_indices, tessellate_circle, weld_keys, IndexMerge};
use rvm2glb::model::{Contour, MetaNode, NodePrim, Polygon};
use rvm2glb::node_tree::{assign_draw_ranges, check_ids_increasing, draw_ranges, id_hierarchy, empty_pruning, geometry_with_ancestors, has_geometry, retain_marked, tree_links};
use rvm2glb::structure::{color_hex, dump_links, facet_counts};

fn node(id: u32, parent_id: u32, name: &str, prims: Vec<NodePrim>) -> MetaNode {
    MetaNode {
        id,
        parent_id,
        name: name.to_string(),
        material_id: 0x00aa_bbcc,
        start: 0,
        count: 0,
        opacity: 100,
        version: 0,
        color_with_alpha: 0xFF11_2233,
        primitives: prims,
    }
}

fn geo(tris: u32) -> NodePrim {
    NodePrim { opacity: 100, geo_type: GeometryType::Primitive, vertices_n: tris * 3, triangles_n: tris, payload: 0 }
}

#[test]
fn glb_frame_has_header_json_and_bin_chunks() {
    let json = b"{\"a\":1}"; // 7 bytes -> padded to 8
    let bin = [1u8, 2, 3, 4];
    let g = frame_glb(json, &bin);
    assert_eq!(g.len(), 12 + 8 + 8 + 8 + 4);
    assert_eq!(&g[0..4], b"glTF");
    assert_eq!(u32::from_le_bytes([g[4], g[5], g[6], g[7]]), 2);
    assert_eq!(u32::from_le_bytes([g[8], g[9], g[10], g[11]]) as usize, g.len());
    assert_eq!(u32::from_le_bytes([g[12], g[13], g[14], g[15]]), 8);
    assert_eq!(&g[16..20], b"JSON");
    assert_eq!(&g[20..27], json);
    assert_eq!(g[27], b' ');
    assert_eq!(u32::from_le_bytes([g[28], g[29], g[30], g[31]]), 4);
    assert_eq!(&g[32..36], b"BIN\0");
    assert_eq!(&g[36..40], &bin);
}

#[test]
fn glb_frame_without_bin_has_no_bin_chunk() {
    let g = frame_glb(b"{}", &[]);
    assert_eq!(g.len(), 24);
    assert_eq!(u32::from_le_bytes([g[8], g[9], g[10], g[11]]), 24);
    assert_eq!(&g[20..24], b"{}  ");
}

#[test]
fn little_endian_words_and_padding() {
    let mut out = Vec::new();
    push_le32(&mut out, 0x0403_0201);
    assert_eq!(out, vec![1, 2, 3, 4]);
    push_le32_all(&mut out, &[5, 0x100]);
    assert_eq!(out, vec![1, 2, 3, 4, 5, 0, 0, 0, 0, 1, 0, 0]);
    let mut bin = vec![7u8; 5];
    pad_to_4(&mut bin);
    assert_eq!(bin, vec![7, 7, 7, 7, 7, 0, 0, 0]);
    pad_to_4(&mut bin);
    assert_eq!(bin.len(), 8);
}

#[test]
fn numbering_gives_first_occurrence_ids() {
    let (ids, firsts) = number_keys(&[30u64, 10, 30, 20, 10]);
    assert_eq!(ids, vec![0, 1, 0, 2, 1]);
    assert_eq!(firsts, vec![0, 1, 3]);
}

#[test]
fn weld_merges_equal_grid_keys_only() {
    let xs = [1i64, 1, 1, -5];
    let ys = [2i64, 2, 3, 2];
    let zs = [3i64, 3, 3, 3];
    let (ids, firsts) = weld_keys(&xs, &ys, &zs);
    assert_eq!(ids, vec![0, 0, 1, 2]);
    assert_eq!(firsts, vec![0, 2, 3]);
}

#[test]
fn compaction_keeps_only_referenced_vertices_in_first_use_order() {
    let (new, order) = compact_indices(&[7, 3, 7, 9]);
    assert_eq!(new, vec![0, 1, 0, 2]);
    assert_eq!(order, vec![7, 3, 9]);
    let back: Vec<u32> = new.iter().map(|&i| order[i as usize]).collect();
    assert_eq!(back, vec![7, 3, 7, 9]);
}

#[test]
fn vertex_cache_pass_keeps_the_triangles() {
    let idx = [4u32, 5, 6, 0, 1, 2, 2, 1, 3, 6, 5, 7];
    let (new, order) = optimize_and_compact(&idx, 8);
    assert_eq!(new.len(), idx.len());
    let back: Vec<u32> = new.iter().map(|&i| order[i as usize]).collect();
    let mut tris_in: Vec<[u32; 3]> = idx.chunks(3).map(|t| [t[0], t[1], t[2]]).collect();
    let mut tris_out: Vec<[u32; 3]> = back.chunks(3).map(|t| [t[0], t[1], t[2]]).collect();
    tris_in.sort();
    tris_out.sort();
    assert_eq!(tris_in, tris_out);
    // every vertex used once in the order table, in first-use order
    let mut seen = order.clone();
    seen.sort();
    seen.dedup();
    assert_eq!(seen.len(), order.len());
    assert_eq!(new[0], 0);
}

#[test]
fn merged_indices_shift_past_the_largest_index_so_far() {
    let mut m = IndexMerge::new();
    m.add(&[0, 1, 2]);
    assert_eq!((m.offset, m.max_index), (3, 2));
    m.add(&[0, 2, 1, 1, 2, 3]);
    assert_eq!(m.indices, vec![0, 1, 2, 3, 5, 4, 4, 5, 6]);
    assert_eq!(m.offset, 7);
    m.add(&[]);
    assert_eq!(m.offset, 7);
}

#[test]
fn quad_is_two_triangles_at_an_offset() {
    let mut out = vec![9];
    quad_indices(&mut out, 10, 0, 1, 2, 3);
    assert_eq!(out, vec![9, 10, 11, 12, 12, 13, 10]);
}

#[test]
fn ring_fan_covers_the_ring_with_n_minus_2_triangles() {
    let mut out = Vec::new();
    tessellate_circle(&mut out, vec![0, 1, 2, 3, 4, 5]);
    assert_eq!(out, vec![0, 1, 2, 2, 3, 4, 0, 2, 4, 0, 4, 5]);
    assert_eq!(out.len(), 3 * (6 - 2));
    let mut out = Vec::new();
    tessellate_circle(&mut out, vec![10, 11, 12]);
    assert_eq!(out, vec![10, 11, 12]);
    let mut out = vec![1];
    tessellate_circle(&mut out, vec![5, 6]);
    assert_eq!(out, vec![1]);
}

#[test]
fn pruning_drops_empty_leaves_and_empty_branches() {
    // 1 ─ 2 (geo)
    //   └ 3 ─ 4 (empty)   5 (empty leaf under 1)
    let nodes = vec![
        node(1, 0, "SITE", vec![]),
        node(2, 1, "A", vec![geo(1)]),
        node(3, 1, "B", vec![]),
        node(4, 3, "C", vec![geo(0)]),
        node(5, 1, "D", vec![]),
    ];
    assert!(has_geometry(&nodes[1]));
    assert!(!has_geometry(&nodes[3]));
    let keep = empty_pruning(&nodes);
    assert_eq!(keep, vec![true, true, false, false, false]);
    let kept = retain_marked(nodes, &keep);
    let names: Vec<&str> = kept.iter().map(|n| n.name.as_str()).collect();
    assert_eq!(names, vec!["SITE", "A"]);
}

#[test]
fn pruning_keeps_a_self_parented_empty_node() {
    let nodes = vec![node(1, 1, "LOOP", vec![]), node(2, 7, "ORPHAN", vec![])];
    assert_eq!(empty_pruning(&nodes), vec![true, false]);
}

#[test]
fn tree_writers_keep_geometry_and_its_ancestors() {
    let nodes = vec![
        node(1, 0, "SITE", vec![]),
        node(2, 1, "A", vec![]),
        node(3, 2, "B", vec![geo(2)]),
        node(4, 1, "C", vec![]),
        node(5, 9, "D", vec![geo(1)]),
    ];
    let keep = geometry_with_ancestors(&nodes);
    assert_eq!(keep, vec![true, true, true, false, true]);
}

#[test]
fn tree_links_list_children_and_roots_in_order() {
    let nodes = vec![
        node(1, 0, "SITE", vec![]),
        node(2, 1, "A", vec![]),
        node(3, 2, "B", vec![]),
        node(4, 1, "C", vec![]),
        node(5, 9, "D", vec![]),
    ];
    let (children, roots) = tree_links(&nodes);
    assert_eq!(children, vec![vec![1, 3], vec![2], vec![], vec![], vec![]]);
    assert_eq!(roots, vec![0, 4]);
}

#[test]
fn draw_ranges_follow_each_other_within_one_colour() {
    let mut nodes = vec![
        node(1, 0, "SITE", vec![]),
        node(2, 1, "A", vec![geo(2), geo(1)]),
        node(3, 1, "B", vec![geo(4)]),
        node(4, 1, "C", vec![geo(5)]),
    ];
    nodes[3].color_with_alpha = 0xFF00_0000;
    let any = assign_draw_ranges(&mut nodes, 0xFF11_2233);
    assert!(any);
    assert_eq!((nodes[1].start, nodes[1].count), (0, 9));
    assert_eq!((nodes[2].start, nodes[2].count), (9, 12));
    assert_eq!((nodes[3].start, nodes[3].count), (0, 0));
    assert_eq!((nodes[0].start, nodes[0].count), (0, 0));
    assert!(!assign_draw_ranges(&mut nodes, 0x1234));
}

#[test]
fn ids_order_check() {
    assert!(check_ids_increasing(&[node(1, 0, "A", vec![]), node(3, 1, "B", vec![])]));
    assert!(!check_ids_increasing(&[node(3, 0, "A", vec![]), node(3, 1, "B", vec![])]));
    assert!(check_ids_increasing(&[]));
}

#[test]
fn self_looping_root_does_not_recurse_forever() {
    let nodes = vec![node(1, 1, "ROOT", vec![]), node(2, 1, "KID", vec![])];
    let children = dump_links(&nodes);
    assert_eq!(nodes[0].name, "ROOT");
    assert_eq!(children[0].len(), 1);
    assert_eq!(nodes[children[0][0] as usize].name, "KID");
    assert_eq!(children[children[0][0] as usize].len(), 0);
}

#[test]
fn dump_tree_nests_children() {
    let nodes = vec![node(1, 0, "SITE", vec![]), node(2, 1, "ELBOW", vec![]), node(3, 2, "INS", vec![])];
    let children = dump_links(&nodes);
    assert_eq!(children, vec![vec![1], vec![2], vec![]]);
    assert_eq!(color_hex(nodes[0].material_id), "aabbcc");
    assert_eq!(color_hex(0xFF00_0A0B), "000a0b");
}

#[test]
fn facet_group_counts_polygons_and_vertices() {
    let polys = vec![
        Polygon { contours: vec![Contour { vertices: vec![0; 9] }] },
        Polygon { contours: vec![Contour { vertices: vec![0; 12] }, Contour { vertices: vec![0; 6] }] },
    ];
    assert_eq!(facet_counts(&polys), (2, 9));
    assert_eq!(facet_counts(&polys[..1]), (1, 3));
}

#[test]
fn tree_and_merged_pruning_agree_on_a_tree() {
    let nodes = vec![
        node(1, 0, "SITE", vec![]),
        node(2, 1, "A", vec![]),
        node(3, 2, "B", vec![geo(2)]),
        node(4, 1, "C", vec![]),
        node(5, 4, "D", vec![geo(0)]),
        node(6, 1, "E", vec![geo(1)]),
    ];
    let merged = empty_pruning(&nodes);
    let tree = geometry_with_ancestors(&nodes);
    assert_eq!(merged, tree);
    assert_eq!(tree, vec![true, true, true, false, false, true]);
}

#[test]
fn vertex_cache_order_is_meshoptimizers() {
    // The last triangle shares two vertices with the first, so the optimiser pulls it forward.
    let idx = [0u32, 1, 2, 6, 7, 8, 3, 4, 5, 0, 2, 9];
    let expected = meshopt::optimize_vertex_cache(&idx, 10);
    assert_ne!(expected, idx.to_vec());
    let (new, order) = optimize_and_compact(&idx, 10);
    let back: Vec<u32> = new.iter().map(|&i| order[i as usize]).collect();
    assert_eq!(back, expected);
    assert_eq!(order[0], expected[0]);
}

#[test]
fn component_indices_shift_by_the_vertex_offset() {
    let mut out = vec![0, 1, 2];
    append_shifted(&mut out, &[0, 2, 1], 3);
    assert_eq!(out, vec![0, 1, 2, 3, 5, 4]);
    append_shifted(&mut out, &[1], u32::MAX);
    assert_eq!(out.last(), Some(&0));
}

#[test]
fn draw_range_record_lists_the_nodes_of_one_colour_with_ranges() {
    let mut nodes = vec![
        node(1, 0, "SITE", vec![]),
        node(2, 1, "A", vec![geo(2), geo(1)]),
        node(3, 1, "B", vec![geo(4)]),
        node(4, 1, "C", vec![geo(5)]),
    ];
    nodes[3].color_with_alpha = 0xFF00_0000;
    assign_draw_ranges(&mut nodes, 0xFF11_2233);
    assert_eq!(draw_ranges(&nodes, 0xFF11_2233), vec![(2, 0, 9), (3, 9, 12)]);
    assert_eq!(draw_ranges(&nodes, 0x1234), vec![]);
}

#[test]
fn id_hierarchy_marks_nodes_without_parent() {
    let nodes = vec![node(1, 0, "SITE", vec![]), node(2, 1, "A", vec![geo(1)])];
    assert_eq!(
        id_hierarchy(&nodes),
        vec![(1, "SITE".to_string(), None), (2, "A".to_string(), Some(1))]
    );
}

use rvm2glb::color_store::ColorStore;
use rvm2glb::geometry::{GeometryKind, GeometryType};
use rvm2glb::hashing::{md5_of, parent_hash};
use rvm2glb::io::InputHandle;
use rvm2glb::model::{GeometryShape, MetaNode, NodePrim, OutputMode};
use rvm2glb::node_store::store_node;
use rvm2glb::reader::{ParseError, RvmReader};
use rvm2glb::rvm_body::{read_chunk_header, skip_colr, skip_modl};
use rvm2glb::rvm_format::{chunk_id, kind_from_u32, scan_colr_blocks};
use rvm2glb::rvm_parser::{ParserOptions, RootExport, RvmParser, Step};
use rvm2glb::text::{decimal_string, join, sanitize_filename};

#[test]
fn known_kinds_map_unknown_is_none() {
    assert_eq!(kind_from_u32(2), Some(GeometryKind::Box));
    assert_eq!(kind_from_u32(10), Some(GeometryKind::Line));
    assert_eq!(kind_from_u32(11), Some(GeometryKind::FacetGroup));
    assert!(kind_from_u32(0).is_none());
    assert!(kind_from_u32(12).is_none());
    assert!(kind_from_u32(99).is_none());
}

#[test]
fn colr_prescan_extracts_index_and_rgb() {
    let mut buf = vec![0u8; 40];
    buf[0] = b'C';
    buf[4] = b'O';
    buf[8] = b'L';
    buf[12] = b'R';
    buf[20] = 1;
    buf[28] = 42;
    buf[29] = 0x11;
    buf[30] = 0x22;
    buf[31] = 0x33;
    assert_eq!(scan_colr_blocks(&buf), vec![(42, 0x112233)]);
    assert!(scan_colr_blocks(&[0u8; 64]).is_empty());
}

fn prim(gt: GeometryType, op: u8) -> NodePrim {
    NodePrim { opacity: op, geo_type: gt, vertices_n: 1, triangles_n: 0, payload: 0 }
}

#[test]
fn store_splits_insu_obst_with_opacity_alpha() {
    let mut current = MetaNode {
        id: 7,
        parent_id: 3,
        name: "ELBOW".to_string(),
        material_id: 0x00cc_0000,
        start: 0,
        count: 0,
        opacity: 100,
        version: 0,
        color_with_alpha: 0,
        primitives: vec![
            prim(GeometryType::Primitive, 100),
            prim(GeometryType::Insulation, 50),
            prim(GeometryType::Obstruction, 25),
        ],
    };
    let mut nodes: Vec<MetaNode> = Vec::new();
    let mut colors: Vec<u32> = Vec::new();
    let mut count: u32 = 7;
    store_node(&mut current, &mut nodes, &mut colors, &mut count, false);

    assert_eq!(nodes.len(), 3);
    assert_eq!((nodes[0].id, nodes[1].id, nodes[2].id), (7, 8, 9));
    assert_eq!(nodes[0].name, "ELBOW");
    assert_eq!(nodes[1].name, "ELBOW(INSU)");
    assert_eq!(nodes[2].name, "ELBOW(OBST)");
    for n in &nodes {
        assert_eq!(n.parent_id, 3);
        assert_eq!(n.color_with_alpha & 0xFF_FFFF, 0xcc_0000);
    }
    assert_eq!(nodes[0].color_with_alpha >> 24, 255);
    assert_eq!(nodes[1].color_with_alpha >> 24, 127);
    assert_eq!(nodes[2].color_with_alpha >> 24, 63);
    assert_eq!(colors.len(), 3);
    assert_eq!(count, 9);
    assert_eq!(current.id, 0);
}

#[test]
fn store_keeps_a_node_without_primitives_bare() {
    let mut current = MetaNode {
        id: 4,
        parent_id: 1,
        name: "EMPTY".to_string(),
        material_id: 0x112233,
        start: 0,
        count: 0,
        opacity: 80,
        version: 0,
        color_with_alpha: 0,
        primitives: vec![],
    };
    let mut nodes: Vec<MetaNode> = Vec::new();
    let mut colors: Vec<u32> = Vec::new();
    let mut count: u32 = 4;
    store_node(&mut current, &mut nodes, &mut colors, &mut count, false);
    assert_eq!(nodes.len(), 1);
    assert_eq!((nodes[0].id, nodes[0].material_id, nodes[0].color_with_alpha), (4, 0, 0));
    assert_eq!(nodes[0].opacity, 80);
    assert!(colors.is_empty());
    assert_eq!(count, 4);
}

#[test]
fn color_store_insert_then_get_and_default_white() {
    let mut s = ColorStore::new();
    let before = s.get(5);
    assert_eq!(s.get(1000), 0xffffff);
    s.insert(42, 0x112233);
    assert_eq!(s.get(42), 0x112233);
    assert_eq!(s.get(5), before);
}

#[test]
fn chunk_ids_take_the_four_name_bytes() {
    assert_eq!(chunk_id(b"HEAD"), 0x48454144);
    assert_eq!(chunk_id(b"END:"), 0x454E443A);
}

#[test]
fn sanitize_keeps_alphanumerics_dash_underscore() {
    assert_eq!(sanitize_filename("A/B c-d_e.1"), "A_B_c-d_e_1");
    assert_eq!(sanitize_filename("Übergang"), "Übergang");
}

#[test]
fn parent_hash_is_first_eight_md5_hex_of_joined_path() {
    let parts = vec!["SITE".to_string(), "ZONE".to_string()];
    assert_eq!(join(&parts, "/"), "SITE/ZONE");
    let full = md5_of(b"SITE/ZONE");
    assert_eq!(full.len(), 32);
    assert_eq!(parent_hash(&parts), full[..8].to_string());
    assert_eq!(parent_hash(&Vec::new()), "");
    // md5 of the empty string is well known
    assert_eq!(md5_of(b""), "d41d8cd98f00b204e9800998ecf8427e");
}

#[test]
fn decimal_text_of_numbers() {
    assert_eq!(decimal_string(0), "0");
    assert_eq!(decimal_string(4294967295), "4294967295");
}

// ── A small RVM stream ────────────────────────────────────────────────────

fn word(out: &mut Vec<u8>, v: u32) {
    out.extend_from_slice(&v.to_be_bytes());
}

fn text(out: &mut Vec<u8>, s: &str) {
    let mut b = s.as_bytes().to_vec();
    b.push(0);
    while b.len() % 4 != 0 {
        b.push(0);
    }
    word(out, (b.len() / 4) as u32);
    out.extend_from_slice(&b);
}

fn chunk(out: &mut Vec<u8>, name: &[u8; 4], body: &[u8]) {
    for c in name {
        out.extend_from_slice(&[0, 0, 0, *c]);
    }
    let next = out.len() + 8 + body.len();
    word(out, next as u32);
    word(out, 0);
    out.extend_from_slice(body);
}

fn head_body() -> Vec<u8> {
    let mut b = Vec::new();
    word(&mut b, 2);
    text(&mut b, "info");
    text(&mut b, "note");
    text(&mut b, "date");
    text(&mut b, "user");
    text(&mut b, "UTF-8");
    b
}

fn cntb_body(name: &str, material: u32, opacity: u8) -> Vec<u8> {
    let mut b = Vec::new();
    word(&mut b, 3);
    text(&mut b, name);
    for _ in 0..3 {
        word(&mut b, 0);
    }
    word(&mut b, material);
    b.extend_from_slice(&[opacity, 0, 0, 0]);
    b
}

fn box_body(kind: u32) -> Vec<u8> {
    let mut b = Vec::new();
    word(&mut b, 1);
    word(&mut b, kind);
    for i in 0..12 {
        word(&mut b, if i % 4 == 0 { 0x3f80_0000 } else { 0 });
    }
    for _ in 0..6 {
        word(&mut b, 0);
    }
    for _ in 0..3 {
        word(&mut b, 0x3f80_0000);
    }
    b
}

fn sample_stream(kind: u32) -> Vec<u8> {
    let mut s = Vec::new();
    chunk(&mut s, b"HEAD", &head_body());
    chunk(&mut s, b"MODL", &[0u8; 8]);
    chunk(&mut s, b"CNTB", &cntb_body("SITE", 1, 100));
    chunk(&mut s, b"CNTB", &cntb_body("PIPE 1", 2, 100));
    chunk(&mut s, b"PRIM", &box_body(kind));
    chunk(&mut s, b"CNTE", &[0u8; 4]);
    chunk(&mut s, b"CNTE", &[0u8; 4]);
    chunk(&mut s, b"END:", &[0u8; 4]);
    s
}

fn options(extract_json: bool, dry_run: bool) -> ParserOptions {
    ParserOptions {
        level: 0,
        remove_empty: true,
        dry_run,
        mode: OutputMode::Merged,
        extract_json,
        source_name: "plant.rvm".to_string(),
    }
}

/// Runs the parse, keeping every primitive with 8 vertices and 12 triangles.
fn run(p: &mut RvmParser<Vec<u8>>) -> (Vec<RootExport>, usize) {
    let mut roots = Vec::new();
    let mut prims = 0;
    for _ in 0..100 {
        match p.step().ok().unwrap() {
            Step::Continue => {}
            Step::Primitive(c) => {
                prims += 1;
                assert_eq!(c.kind, GeometryKind::Box);
                assert!(matches!(c.shape, GeometryShape::Box { lengths: [0x3f80_0000, 0x3f80_0000, 0x3f80_0000] }));
                p.accept_primitive(&c, 8, 12, 77);
            }
            Step::Root(e) => roots.push(e),
            Step::Done => break,
        }
    }
    assert!(p.is_finished());
    (roots, prims)
}

#[test]
fn parses_a_site_with_one_pipe_into_one_export() {
    let mut p = RvmParser::new(&options(false, false), sample_stream(2));
    p.prescan_colors().ok().unwrap();
    let (roots, prims) = run(&mut p);
    assert_eq!(prims, 1);
    assert_eq!(roots.len(), 1);
    let e = &roots[0];
    assert_eq!(e.root_name, "SITE");
    assert_eq!(e.file_name, "SITE.glb");
    assert!(e.parent.is_empty());
    assert_eq!(e.parent_hash, "");
    assert_eq!(e.md5.len(), 32);
    assert_eq!(e.export_lvl, 0);
    assert_eq!(e.nodes.len(), 2);
    assert_eq!((e.nodes[0].id, e.nodes[0].parent_id, e.nodes[0].name.as_str()), (1, 0, "SITE"));
    assert_eq!((e.nodes[1].id, e.nodes[1].parent_id, e.nodes[1].name.as_str()), (2, 1, "PIPE 1"));
    assert_eq!(e.nodes[1].primitives.len(), 1);
    assert_eq!(e.nodes[1].primitives[0].payload, 77);
    assert_eq!(e.nodes[1].primitives[0].triangles_n, 12);
    let rgb = ColorStore::new().get(2);
    assert_eq!(e.nodes[1].color_with_alpha, 0xFF00_0000 | (rgb & 0xFF_FFFF));
    assert_eq!(e.colors, vec![e.nodes[1].color_with_alpha]);
    let progress = e.progress(3);
    assert_eq!((progress.output_index, progress.output_name, progress.nodes), (3, "SITE.glb", 2));
    let report = p.into_report();
    assert_eq!(report.header.version, 2);
    assert_eq!(report.header.info, "info");
    assert_eq!(report.header.encoding, "UTF-8");
    assert!(report.warnings.is_empty());
    assert!(report.color_overrides.is_empty());
}

#[test]
fn structure_dump_keeps_primitives_without_geometry() {
    let mut p = RvmParser::new(&options(true, false), sample_stream(2));
    let (roots, _) = run(&mut p);
    assert_eq!(roots.len(), 1);
    assert_eq!(roots[0].file_name, "SITE.json");
    assert_eq!(roots[0].md5, "");
    assert_eq!(roots[0].nodes[1].primitives[0].vertices_n, 0);
    assert_eq!(roots[0].nodes[1].primitives[0].triangles_n, 0);
}

#[test]
fn dry_run_hands_out_no_export() {
    let mut p = RvmParser::new(&options(false, true), sample_stream(2));
    let (roots, prims) = run(&mut p);
    assert_eq!(prims, 1);
    assert!(roots.is_empty());
}

#[test]
fn unknown_primitive_kind_is_skipped_with_a_warning() {
    let mut p = RvmParser::new(&options(false, false), sample_stream(99));
    let (roots, prims) = run(&mut p);
    assert_eq!(prims, 0);
    assert_eq!(roots.len(), 1);
    let report = p.into_report();
    assert_eq!(
        report.warnings,
        vec!["Unknown primitive kind 99 \u{2014} skipping (RVM may have a new primitive type)".to_string()]
    );
}

#[test]
fn line_primitives_are_handed_out_like_other_kinds() {
    let mut s = Vec::new();
    chunk(&mut s, b"CNTB", &cntb_body("SITE", 1, 100));
    let mut body = box_body(10);
    body.truncate(body.len() - 4);
    chunk(&mut s, b"PRIM", &body);
    chunk(&mut s, b"END:", &[0u8; 4]);
    let mut p = RvmParser::new(&options(false, false), s);
    let mut kinds = Vec::new();
    loop {
        match p.step().ok().unwrap() {
            Step::Primitive(c) => kinds.push(c.kind),
            Step::Done => break,
            _ => {}
        }
    }
    assert_eq!(kinds, vec![GeometryKind::Line]);
}

#[test]
fn split_below_site_names_files_with_the_parent_hash() {
    let mut s = Vec::new();
    chunk(&mut s, b"CNTB", &cntb_body("SITE", 1, 100));
    chunk(&mut s, b"CNTB", &cntb_body("ZONE/A", 1, 100));
    chunk(&mut s, b"CNTE", &[0u8; 4]);
    chunk(&mut s, b"CNTB", &cntb_body("ZONE B", 1, 100));
    chunk(&mut s, b"CNTE", &[0u8; 4]);
    chunk(&mut s, b"CNTE", &[0u8; 4]);
    chunk(&mut s, b"END:", &[0u8; 4]);
    let mut o = options(false, false);
    o.level = 1;
    let mut p = RvmParser::new(&o, s);
    let (roots, _) = run(&mut p);
    assert_eq!(roots.len(), 2);
    let h = parent_hash(&vec!["SITE".to_string()]);
    assert_eq!(h.len(), 8);
    assert_eq!(roots[0].root_name, "ZONE/A");
    assert_eq!(roots[0].file_name, format!("ZONE_A_{}.glb", h));
    assert_eq!(roots[1].file_name, format!("ZONE_B_{}.glb", h));
    assert_eq!(roots[0].parent, vec!["SITE".to_string()]);
    assert_eq!(roots[0].export_lvl, 1);
    // each root numbers its nodes from 1
    assert_eq!(roots[1].nodes[0].id, 1);
}

#[test]
fn empty_input_finishes_at_once() {
    let mut p = RvmParser::new(&options(false, false), vec![0u8; 8]);
    p.prescan_colors().ok().unwrap();
    assert!(matches!(p.step().ok().unwrap(), Step::Done));
    assert!(matches!(p.step().ok().unwrap(), Step::Done));
}

struct Failing;

impl InputHandle for Failing {
    fn size(&self) -> u64 {
        100
    }
    fn read_at(&self, _offset: u64, _buf: &mut [u8]) -> Result<usize, std::io::Error> {
        Err(std::io::Error::new(std::io::ErrorKind::Other, "disk gone"))
    }
}

#[test]
fn read_errors_end_the_parse_with_an_input_error() {
    let mut p = RvmParser::new(&options(false, false), Failing);
    assert!(matches!(p.prescan_colors(), Err(ParseError::Input(_))));
    assert!(matches!(p.step(), Err(ParseError::Input(_))));
}

#[test]
fn prescan_loads_colr_overrides_before_parsing() {
    let mut s = sample_stream(2);
    let mut colr = vec![0u8; 40];
    colr[0] = b'C';
    colr[4] = b'O';
    colr[8] = b'L';
    colr[12] = b'R';
    colr[20] = 1;
    colr[28] = 2;
    colr[29] = 0xab;
    colr[30] = 0xcd;
    colr[31] = 0xef;
    s.extend_from_slice(&colr);
    let mut p = RvmParser::new(&options(false, false), s);
    p.prescan_colors().ok().unwrap();
    let (roots, _) = run(&mut p);
    assert_eq!(roots[0].nodes[1].color_with_alpha, 0xFFAB_CDEF);
    assert_eq!(p.into_report().color_overrides, vec![(2, 0xabcdef)]);
}

#[test]
fn export_md5_digests_the_bytes_read_so_far() {
    let mut s = Vec::new();
    chunk(&mut s, b"CNTB", &cntb_body("SITE", 1, 100));
    let read_part = s.len() + 24; // the CNTB chunk and the END header
    chunk(&mut s, b"END:", &[7u8; 4]);
    let mut p = RvmParser::new(&options(false, false), s.clone());
    let (roots, _) = run(&mut p);
    assert_eq!(roots.len(), 1);
    assert_eq!(roots[0].md5, md5_of(&s[..read_part]));
    assert_ne!(roots[0].md5, md5_of(&s));
}

#[test]
fn skip_modl_moves_past_the_version_and_both_names() {
    let mut s = Vec::new();
    word(&mut s, 1);
    text(&mut s, "PROJECT");
    text(&mut s, "MODEL-NAME");
    let end = s.len() as u64;
    word(&mut s, 99);
    let mut r = RvmReader::new(s);
    skip_modl(&mut r).ok().unwrap();
    assert_eq!(r.pos(), end);
}

#[test]
fn skip_colr_moves_twelve_bytes() {
    let mut r = RvmReader::new(vec![0u8; 20]);
    r.seek(4);
    skip_colr(&mut r).ok().unwrap();
    assert_eq!(r.pos(), 16);
}

#[test]
fn chunk_header_gives_id_and_next_offset() {
    let mut s = Vec::new();
    chunk(&mut s, b"CNTE", &[0u8; 8]);
    let mut r = RvmReader::new(s);
    let (cid, next) = read_chunk_header(&mut r).ok().unwrap();
    assert_eq!(cid, chunk_id(b"CNTE"));
    assert_eq!(next, 32);
    assert_eq!(r.pos(), 24);
}

#[test]
fn reads_past_the_end_of_memory_input_do_not_fail() {
    let mut r = RvmReader::new(vec![1u8, 2, 3]);
    assert!(read_chunk_header(&mut r).is_ok());
    assert_eq!(r.pos(), 24);
}

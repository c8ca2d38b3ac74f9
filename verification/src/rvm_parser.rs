//! The RVM parser: a state machine that walks the chunk stream
//! (HEAD/MODL/CNTB/CNTE/PRIM/OBST/INSU/COLR/END:), builds the node tree of each
//! export root, and hands out one event per step: a primitive to tessellate, or a
//! finished root to write. The caller performs that work and steps again.
use crate::color_store::ColorStore;
use crate::hashing::{is_lower_hex, parent_hash, spec_md5_hex, spec_parent_hash};
use crate::io::{read_result_ok, InputHandle};
use crate::model::{empty_header, empty_node, nodes_view, HeaderBlock, HeaderView, MetaNode, MetaNodeView, NodePrim, OutputMode, PrimChunk, ShapeView};
use crate::node_store::{bare_node, group_colors, group_id, group_nodes, role_groups, sorted_unique, store_node};
use crate::node_tree::ids_increasing;
use crate::text::{decimal, decimal_string, sanitize_filename, sanitized};
use vstd::string::*;
use crate::reader::{ParseError, RvmReader};
use crate::rvm_body::{chunk_header_at, cntb_at, head_at, modl_end, prim_head_at, read_chunk_header, read_cntb_fields, read_head, read_prim_head, read_shape, role_of_chunk, shape_at, skip_colr, skip_modl};
use crate::geometry::{GeometryKind, GeometryType};
use crate::rvm_format::{kind_from_u32, spec_kind, CNTB, CNTE, COLR, END_, HEAD, INSU, MODL, OBST, PRIM};
use crate::rvm_format::{colr_blocks, scan_colr_blocks};
use vstd::prelude::*;

verus! {

/// The options that steer parsing and splitting.
pub struct ParserOptions {
    /// Hierarchy depth at which to split into separate outputs (0 = site).
    pub level: u8,
    /// Drop nodes and branches without geometry.
    pub remove_empty: bool,
    /// Parse only; produce no output.
    pub dry_run: bool,
    /// The output layout.
    pub mode: OutputMode,
    /// Dump the structure as JSON instead of building geometry.
    pub extract_json: bool,
    /// The source file name recorded with each output.
    pub source_name: String,
}

/// The state of a parser as plain values.
pub struct ParserView {
    pub export_level: u8,
    pub remove_empty: bool,
    pub dry_run: bool,
    pub mode: OutputMode,
    pub extract_json: bool,
    pub source_name: Seq<char>,
    /// The bytes of the input.
    pub data: Seq<u8>,
    /// The read position.
    pub pos: int,
    /// The last id handed out in the current root.
    pub node_count_id: u32,
    /// The container depth.
    pub level: u32,
    /// The name of the current export root (empty before the first one).
    pub root_name: Seq<char>,
    /// The names of the open containers, outermost first.
    pub name_stack: Seq<Seq<char>>,
    /// The names of the containers above the current root.
    pub root_parents: Seq<Seq<char>>,
    pub header: HeaderView,
    /// Material index to colour.
    pub colors: Map<u32, u32>,
    /// The container being filled.
    pub current: MetaNodeView,
    /// The ids of the open containers (a 0 at the bottom for "no parent").
    pub parent_stack: Seq<u32>,
    /// The stored nodes of the current root, in storing order.
    pub nodes: Seq<MetaNodeView>,
    /// The colours used by the stored nodes of the current root.
    pub site_colors: Set<u32>,
    pub warnings: Seq<Seq<char>>,
    /// The COLR `(index, rgb)` definitions found by the pre-scan.
    pub color_overrides: Seq<(u32, u32)>,
    /// The stream has ended; every further step is `Done`.
    pub finished: bool,
}

/// Drives the parse of one RVM input.
pub struct RvmParser<I: InputHandle> {
    export_level: u8,
    remove_empty: bool,
    dry_run: bool,
    mode: OutputMode,
    extract_json: bool,
    source_file_name: String,
    reader: RvmReader<I>,
    node_count_id: u32,
    level: u32,
    current_root_name: String,
    name_stack: Vec<String>,
    current_root_parents: Vec<String>,
    header: HeaderBlock,
    color_store: ColorStore,
    current_node: MetaNode,
    parent_stack: Vec<u32>,
    /// The stored nodes of the current root, keyed by their ids: ids are handed out
    /// increasing and each once (see [`ids_ok`]), so the storing order is the id
    /// order, in which every writer walks them, and no id repeats.
    nodes: Vec<MetaNode>,
    /// The colours of the stored nodes, increasing, each once.
    site_colors: Vec<u32>,
    errors: Vec<String>,
    color_overrides: Vec<(u32, u32)>,
    finished: bool,
}

/// The views of a list of strings.
pub open spec fn texts(v: Seq<String>) -> Seq<Seq<char>> {
    v.map_values(|s: String| s@)
}

/// Inserts the `(index, rgb)` pairs into a colour map, later pairs winning.
pub open spec fn with_overrides(m: Map<u32, u32>, blocks: Seq<(u32, u32)>) -> Map<u32, u32>
    decreases blocks.len(),
{
    if blocks.len() == 0 {
        m
    } else {
        with_overrides(m, blocks.drop_last()).insert(blocks.last().0, blocks.last().1)
    }
}

/// The window of the input that the colour pre-scan reads: its last 10 MiB, or all of it.
pub open spec fn prescan_window(data: Seq<u8>) -> Seq<u8> {
    if data.len() > 10 * 1024 * 1024 {
        data.subrange(data.len() - 10 * 1024 * 1024, data.len() as int)
    } else {
        data
    }
}

impl<I: InputHandle> RvmParser<I> {
    pub closed spec fn view(&self) -> ParserView {
        ParserView {
            export_level: self.export_level,
            remove_empty: self.remove_empty,
            dry_run: self.dry_run,
            mode: self.mode,
            extract_json: self.extract_json,
            source_name: self.source_file_name@,
            data: self.reader.data(),
            pos: self.reader.position() as int,
            node_count_id: self.node_count_id,
            level: self.level,
            root_name: self.current_root_name@,
            name_stack: texts(self.name_stack@),
            root_parents: texts(self.current_root_parents@),
            header: self.header.view(),
            colors: self.color_store.entries(),
            current: self.current_node.view(),
            parent_stack: self.parent_stack@,
            nodes: nodes_view(self.nodes@),
            site_colors: self.site_colors@.to_set(),
            warnings: texts(self.errors@),
            color_overrides: self.color_overrides@,
            finished: self.finished,
        }
    }

    /// The parser's invariant.
    pub closed spec fn wf(&self) -> bool {
        &&& self.reader.wf()
        &&& sorted_unique(self.site_colors@)
        &&& ids_ok(self.view())
        &&& root_first_ok(self.view())
    }

    /// The input being parsed.
    pub closed spec fn source(&self) -> I {
        self.reader.source()
    }

    /// Every byte read so far, in order (what the MD5 of an export digests).
    pub closed spec fn consumed(&self) -> Seq<u8> {
        self.reader.consumed()
    }

    /// A parser at the start of `input`: no header, the default palette, no nodes,
    /// the parent stack holding only 0.
    pub fn new(options: &ParserOptions, input: I) -> (p: Self)
        ensures
            p.wf(),
            p.source() == input,
            p.consumed() == Seq::<u8>::empty(),
            p.view() == (ParserView {
                export_level: options.level,
                remove_empty: options.remove_empty,
                dry_run: options.dry_run,
                mode: options.mode,
                extract_json: options.extract_json,
                source_name: options.source_name@,
                data: input.contents(),
                pos: 0,
                node_count_id: 0,
                level: 0,
                root_name: Seq::empty(),
                name_stack: Seq::empty(),
                root_parents: Seq::empty(),
                header: empty_header(),
                colors: crate::color_store::default_palette(),
                current: empty_node(),
                parent_stack: seq![0u32],
                nodes: Seq::empty(),
                site_colors: Set::empty(),
                warnings: Seq::empty(),
                color_overrides: Seq::empty(),
                finished: false,
            }),
    {
        let mut parent_stack: Vec<u32> = Vec::new();
        parent_stack.push(0);
        let p = RvmParser {
            export_level: options.level,
            remove_empty: options.remove_empty,
            dry_run: options.dry_run,
            mode: options.mode,
            extract_json: options.extract_json,
            source_file_name: options.source_name.clone(),
            reader: RvmReader::new(input),
            node_count_id: 0,
            level: 0,
            current_root_name: String::new(),
            name_stack: Vec::new(),
            current_root_parents: Vec::new(),
            header: HeaderBlock::empty(),
            color_store: ColorStore::new(),
            current_node: MetaNode::empty(),
            parent_stack,
            nodes: Vec::new(),
            site_colors: Vec::new(),
            errors: Vec::new(),
            color_overrides: Vec::new(),
            finished: false,
        };
        assert(p.view().name_stack =~= Seq::empty());
        assert(p.view().root_parents =~= Seq::empty());
        assert(p.view().nodes =~= Seq::empty());
        assert(p.view().warnings =~= Seq::empty());
        assert(p.view().site_colors =~= Set::empty());
        assert(p.view().parent_stack =~= seq![0u32]);
        p
    }

    /// Loads the colour definitions (COLR blocks) found in the last 10 MiB of the
    /// input into the colour table and records them. A file may redefine colours
    /// after the geometry that uses them, so this runs before the parse.
    pub fn prescan_colors(&mut self) -> (r: Result<(), ParseError>)
        requires
            old(self).wf(),
        ensures
            final(self).wf(),
            final(self).source() == old(self).source(),
            r is Ok ==> final(self).view() == (ParserView {
                colors: with_overrides(old(self).view().colors, colr_blocks(prescan_window(old(self).view().data))),
                color_overrides: colr_blocks(prescan_window(old(self).view().data)),
                ..old(self).view()
            }),
            r is Err ==> final(self).view() == old(self).view(),
            old(self).source().reads_never_fail() ==> r is Ok,
    {
        let total = self.reader.file_len();
        let window: u64 = if total < 10 * 1024 * 1024 { total } else { 10 * 1024 * 1024 };
        let base: u64 = total - window;
        let ghost data = self.reader.data();
        let mut buf: Vec<u8> = vec![0u8; window as usize];
        let mut got: usize = 0;
        let w: usize = window as usize;
        while got < w
            invariant_except_break
                self.wf(),
                self.view() == old(self).view(),
                self.source() == old(self).source(),
                buf@.len() == w,
                w == window,
                base + window == data.len(),
                base + window == total,
                got <= w,
                data == self.reader.data(),
                forall|i: int| 0 <= i < got ==> #[trigger] buf@[i] == data[base + i],
            ensures
                self.wf(),
                self.view() == old(self).view(),
                self.source() == old(self).source(),
                buf@.len() == w,
                got <= w,
                forall|i: int| 0 <= i < got ==> #[trigger] buf@[i] == data[base + i],
                got == w,
            decreases w - got,
        {
            let ghost before = buf@;
            let (_left, right) = buf.as_mut_slice().split_at_mut(got);
            let n = match self.reader.input().read_at(base + got as u64, right) {
                Ok(n) => n,
                Err(e) => return Err(ParseError::Input(e)),
            };
            proof {
                assert(base + got < data.len());
            }
            assert(n > 0);
            got = got + n;
        }
        buf.truncate(got);
        let blocks = scan_colr_blocks(buf.as_slice());
        let mut i: usize = 0;
        while i < blocks.len()
            invariant
                self.wf(),
                self.source() == old(self).source(),
                self.view() == (ParserView { colors: self.view().colors, ..old(self).view() }),
                i <= blocks@.len(),
                self.color_store.entries() == with_overrides(old(self).color_store.entries(), blocks@.subrange(0, i as int)),
            decreases blocks.len() - i,
        {
            let (index, rgb) = blocks[i];
            self.color_store.insert(index, rgb);
            assert(blocks@.subrange(0, i + 1).drop_last() == blocks@.subrange(0, i as int));
            i += 1;
        }
        assert(blocks@.subrange(0, blocks@.len() as int) == blocks@);
        assert(buf@ == prescan_window(data));
        self.color_overrides = blocks;
        Ok(())
    }
}

} // verus!

verus! {

/// A finished export root, handed to the caller to write.
pub struct RootExport {
    /// The name of the root container.
    pub root_name: String,
    /// The output file name: the sanitised root name, the parent-path hash when
    /// there is a parent path, and `.glb` (or `.json` in the structure-dump mode).
    pub file_name: String,
    /// The names of the containers above the root, outermost first.
    pub parent: Vec<String>,
    /// See [`crate::hashing::spec_parent_hash`].
    pub parent_hash: String,
    /// The MD5 (hex) of the bytes read up to this point; empty in the structure-dump mode.
    pub md5: String,
    /// The split level of the export.
    pub export_lvl: u8,
    /// The nodes of the root, in storing order (ids increasing).
    pub nodes: Vec<MetaNode>,
    /// The colours of the root's nodes, increasing.
    pub colors: Vec<u32>,
}

/// Per-output progress, reported once as each output is written.
pub struct Progress<'a> {
    /// 0-based index of this output among the outputs written so far.
    pub output_index: u32,
    /// The file name written.
    pub output_name: &'a str,
    /// The number of nodes of the root (modulo 2^32).
    pub nodes: u32,
}

impl RootExport {
    /// The progress record of this root written as output number `output_index`.
    pub fn progress(&self, output_index: u32) -> (p: Progress<'_>)
        ensures
            p.output_index == output_index,
            p.output_name@ == self.file_name@,
            p.nodes as int == self.nodes@.len() % 0x1_0000_0000,
    {
        Progress {
            output_index,
            output_name: self.file_name.as_str(),
            nodes: ((self.nodes.len() as u64) % 0x1_0000_0000) as u32,
        }
    }
}

/// What a parse leaves besides its outputs: the warnings, the header and the COLR
/// definitions of the pre-scan.
pub struct ParseReport {
    pub warnings: Vec<String>,
    pub header: HeaderBlock,
    pub color_overrides: Vec<(u32, u32)>,
}

/// A finished export root as plain values.
pub struct RootExportView {
    pub root_name: Seq<char>,
    pub file_name: Seq<char>,
    pub parent: Seq<Seq<char>>,
    pub parent_hash: Seq<char>,
    pub export_lvl: u8,
    pub nodes: Seq<MetaNodeView>,
    pub colors: Set<u32>,
}

impl RootExport {
    pub open spec fn view(&self) -> RootExportView {
        RootExportView {
            root_name: self.root_name@,
            file_name: self.file_name@,
            parent: texts(self.parent@),
            parent_hash: self.parent_hash@,
            export_lvl: self.export_lvl,
            nodes: nodes_view(self.nodes@),
            colors: self.colors@.to_set(),
        }
    }
}

/// The colours of an export are increasing, and so are the ids of its nodes, the first
/// of which (the root container) has id 1; its MD5 is 32 hexadecimal digits, or empty
/// in the structure-dump mode.
pub open spec fn export_ok(e: RootExport, extract_json: bool) -> bool {
    &&& sorted_unique(e.colors@)
    &&& ids_increasing(nodes_view(e.nodes@))
    &&& e.nodes@.len() > 0 ==> e.nodes@[0].id == 1
    &&& extract_json ==> e.md5@ == Seq::<char>::empty()
    &&& !extract_json ==> e.md5@.len() == 32 && is_lower_hex(e.md5@)
}

/// `.glb`
pub open spec fn glb_ext() -> Seq<char> {
    seq!['.', 'g', 'l', 'b']
}

/// `.json`
pub open spec fn json_ext() -> Seq<char> {
    seq!['.', 'j', 's', 'o', 'n']
}

/// The output file name of the current root (see [`RootExport::file_name`]).
pub open spec fn export_file_name(v: ParserView) -> Seq<char> {
    let h = spec_parent_hash(v.root_parents);
    let stem = if h.len() == 0 {
        sanitized(v.root_name)
    } else {
        sanitized(v.root_name) + seq!['_'] + h
    };
    stem + if v.extract_json { json_ext() } else { glb_ext() }
}

/// What flushing the current root hands out: nothing in a dry run.
pub open spec fn export_of(v: ParserView) -> Option<RootExportView> {
    if v.dry_run {
        None
    } else {
        Some(RootExportView {
            root_name: v.root_name,
            file_name: export_file_name(v),
            parent: v.root_parents,
            parent_hash: spec_parent_hash(v.root_parents),
            export_lvl: v.export_level,
            nodes: v.nodes,
            colors: v.site_colors,
        })
    }
}

/// The state after flushing the current root: no nodes, no colours, the id
/// counter at 0, no root name.
pub open spec fn flushed(v: ParserView) -> ParserView {
    ParserView { nodes: Seq::empty(), site_colors: Set::empty(), node_count_id: 0, root_name: Seq::empty(), ..v }
}

/// The state after storing the current container (see [`store_node`]).
#[verifier::opaque]
pub open spec fn stored(v: ParserView) -> ParserView {
    let n = v.current;
    if n.id == 0 {
        v
    } else if v.extract_json {
        ParserView { nodes: v.nodes.push(n), current: empty_node(), ..v }
    } else if role_groups(n).len() == 0 {
        ParserView { nodes: v.nodes.push(bare_node(n)), current: empty_node(), ..v }
    } else {
        ParserView {
            nodes: v.nodes + group_nodes(n, v.node_count_id),
            site_colors: v.site_colors + group_colors(n),
            node_count_id: ((v.node_count_id as int + role_groups(n).len() - 1) % 0x1_0000_0000) as u32,
            current: empty_node(),
            ..v
        }
    }
}

/// Storing changes only the nodes, the colours, the id counter and the current container.
pub proof fn lemma_stored_frame(v: ParserView)
    ensures
        stored(v) == (ParserView {
            nodes: stored(v).nodes,
            site_colors: stored(v).site_colors,
            node_count_id: stored(v).node_count_id,
            current: stored(v).current,
            ..v
        }),
{
    reveal(stored);
}

/// Storing does not depend on the position.
pub proof fn lemma_stored_pos(v: ParserView, p: int)
    ensures
        stored(ParserView { pos: p, ..v }) == (ParserView { pos: p, ..stored(v) }),
{
    reveal(stored);
}

/// The node ids of the current root: the stored nodes have increasing ids, none above
/// the counter; a container being filled has the counter's id, above every stored id,
/// with room below 2^32 for the two more ids that storing it may take.
pub open spec fn ids_ok(v: ParserView) -> bool {
    &&& ids_increasing(v.nodes)
    &&& forall|k: int| 0 <= k < v.nodes.len() ==> #[trigger] v.nodes[k].id <= v.node_count_id
    &&& v.current.id != 0 ==> {
        &&& v.current.id == v.node_count_id
        &&& v.node_count_id <= u32::MAX - 2
        &&& forall|k: int| 0 <= k < v.nodes.len() ==> #[trigger] v.nodes[k].id < v.current.id
    }
}

/// Once a root has started, its first stored node has id 1; before any node is
/// stored, the container being filled has id 1, or none is and the counter is at 0.
pub open spec fn root_first_ok(v: ParserView) -> bool {
    v.root_name.len() > 0 ==> if v.nodes.len() > 0 {
        v.nodes[0].id == 1
    } else {
        (v.current.id == 0 && v.node_count_id == 0) || v.current.id == 1
    }
}

/// A container has at most three role groups.
proof fn lemma_role_groups_len(n: MetaNodeView)
    ensures
        role_groups(n).len() <= 3,
{
}

/// Storing keeps the ids in order and leaves no container being filled.
pub proof fn lemma_stored_ids(v: ParserView)
    requires
        ids_ok(v),
        root_first_ok(v),
    ensures
        ids_ok(stored(v)),
        root_first_ok(stored(v)),
        stored(v).current.id == 0,
{
    reveal(stored);
    let n = v.current;
    if n.id != 0 && !v.extract_json && role_groups(n).len() > 0 && v.nodes.len() == 0 {
        let gn = group_nodes(n, v.node_count_id);
        assert(gn[0].id == group_id(n, v.node_count_id, 0));
        assert((v.nodes + gn)[0] == gn[0]);
    }
    if n.id != 0 && !v.extract_json && role_groups(n).len() > 0 {
        let gs = role_groups(n);
        let gn = group_nodes(n, v.node_count_id);
        lemma_role_groups_len(n);
        assert forall|j: int| 0 <= j < gs.len() implies #[trigger] gn[j].id == v.node_count_id + j by {
            assert(gn[j].id == group_id(n, v.node_count_id, j));
        }
        let all = v.nodes + gn;
        assert forall|a: int, b: int| 0 <= a < b < all.len() implies all[a].id < all[b].id by {
            if b >= v.nodes.len() && a >= v.nodes.len() {
                assert(gn[b - v.nodes.len()].id == v.node_count_id + (b - v.nodes.len()));
                assert(gn[a - v.nodes.len()].id == v.node_count_id + (a - v.nodes.len()));
            } else if b >= v.nodes.len() {
                assert(gn[b - v.nodes.len()].id == v.node_count_id + (b - v.nodes.len()));
                assert(v.nodes[a].id < v.current.id);
            }
        }
        assert forall|k: int| 0 <= k < all.len() implies #[trigger] all[k].id <= stored(v).node_count_id by {
            if k >= v.nodes.len() {
                assert(gn[k - v.nodes.len()].id == v.node_count_id + (k - v.nodes.len()));
            } else {
                assert(v.nodes[k].id <= v.node_count_id);
            }
        }
    }
}

/// Copies a list of strings.
fn clone_strings(v: &Vec<String>) -> (r: Vec<String>)
    ensures
        texts(r@) == texts(v@),
{
    let mut r: Vec<String> = Vec::new();
    let mut i: usize = 0;
    while i < v.len()
        invariant
            i <= v@.len(),
            texts(r@) == texts(v@.subrange(0, i as int)),
        decreases v.len() - i,
    {
        let s = v[i].clone();
        assert(s@ == v@[i as int]@);
        let ghost before = r@;
        r.push(s);
        assert(r@ == before.push(s));
        assert(v@.subrange(0, i + 1) == v@.subrange(0, i as int).push(v@[i as int]));
        assert(texts(before.push(s)) =~= texts(before).push(s@));
        assert(texts(v@.subrange(0, i as int).push(v@[i as int])) =~= texts(v@.subrange(0, i as int)).push(v@[i as int]@));
        i += 1;
    }
    assert(v@.subrange(0, v@.len() as int) == v@);
    r
}

impl<I: InputHandle> RvmParser<I> {
    /// Stores the current container (see [`stored`]).
    fn store_current_node(&mut self)
        requires
            old(self).wf(),
        ensures
            final(self).wf(),
            final(self).source() == old(self).source(),
            final(self).view() == stored(old(self).view()),
            final(self).view().current.id == 0,
            final(self).consumed() == old(self).consumed(),
    {
        let ghost v = self.view();
        store_node(&mut self.current_node, &mut self.nodes, &mut self.site_colors, &mut self.node_count_id, self.extract_json);
        proof {
            reveal(stored);
            lemma_stored_ids(v);
        }
    }

    /// Flushes the current root (see [`export_of`] and [`flushed`]).
    fn flush_root(&mut self) -> (r: Option<RootExport>)
        requires
            old(self).wf(),
            old(self).view().current.id == 0,
            old(self).view().root_name.len() > 0,
        ensures
            final(self).wf(),
            final(self).source() == old(self).source(),
            final(self).view() == flushed(old(self).view()),
            r is Some <==> export_of(old(self).view()) is Some,
            r is Some ==> r->Some_0.view() == export_of(old(self).view())->Some_0,
            r matches Some(e) ==> export_ok(e, old(self).view().extract_json),
            !old(self).view().extract_json ==> (r matches Some(e) ==> e.md5@ == spec_md5_hex(old(self).consumed())),
            final(self).consumed() == old(self).consumed(),
    {
        let mut nodes: Vec<MetaNode> = Vec::new();
        std::mem::swap(&mut nodes, &mut self.nodes);
        let mut colors: Vec<u32> = Vec::new();
        std::mem::swap(&mut colors, &mut self.site_colors);
        let mut root_name = String::new();
        std::mem::swap(&mut root_name, &mut self.current_root_name);
        self.node_count_id = 0;
        assert(self.view().nodes =~= Seq::empty());
        assert(self.view().site_colors =~= Set::empty());
        if self.dry_run {
            return None;
        }
        let parent = clone_strings(&self.current_root_parents);
        let hash = parent_hash(&parent);
        let base = sanitize_filename(root_name.as_str());
        let stem = if parent.len() == 0 {
            base
        } else {
            base.concat("_").concat(hash.as_str())
        };
        let file_name = if self.extract_json {
            stem.concat(".json")
        } else {
            stem.concat(".glb")
        };
        let md5 = if self.extract_json { String::new() } else { self.reader.digest_hex() };
        proof {
            reveal_strlit("_");
            reveal_strlit(".json");
            reveal_strlit(".glb");
            assert("_"@ =~= seq!['_']);
            assert(".json"@ =~= json_ext());
            assert(".glb"@ =~= glb_ext());
        }
        Some(RootExport {
            root_name,
            file_name,
            parent,
            parent_hash: hash,
            md5,
            export_lvl: self.export_level,
            nodes,
            colors,
        })
    }
}

} // verus!

verus! {

/// The colour a material index resolves to in a colour map (white when undefined).
pub open spec fn resolve_color(m: Map<u32, u32>, id: u32) -> u32 {
    if m.contains_key(id) {
        m[id]
    } else {
        0xffffff
    }
}

/// `x + 1` wrapping at 2^32.
pub open spec fn succ32(x: u32) -> u32 {
    ((x as int + 1) % 0x1_0000_0000) as u32
}

/// `x + 1` wrapping at 2^8.
pub open spec fn succ8(x: u8) -> u8 {
    ((x as int + 1) % 0x100) as u8
}

/// A `CNTB` chunk in state `v` would need a node id beyond those that the root can
/// number: the container does not start a new root, and the id counter (after the
/// current container is stored) leaves no room for it and the two more ids that
/// storing it may take.
pub open spec fn cntb_ids_run_out(v: ParserView) -> bool {
    succ32(v.level) != succ8(v.export_level) as u32 && stored(v).node_count_id >= u32::MAX - 2
}

/// The effect of a `CNTB` body with the given name, resolved colour and opacity,
/// once the position has moved past the chunk: the current container is stored and
/// the depth grows by one; a container at the split depth starts a new root (the
/// previous root, if any, is flushed first, see [`export_of`]); then the container
/// becomes the current one, with the next id and the innermost open container as
/// parent, and is pushed on both stacks. Gives the new state and the flushed root.
pub open spec fn after_cntb(v: ParserView, name: Seq<char>, material: u32, opacity: u8) -> (ParserView, Option<RootExportView>) {
    let v1 = stored(v);
    let lvl = succ32(v1.level);
    let split = lvl == succ8(v1.export_level) as u32;
    let ex = if split && v1.root_name.len() > 0 { export_of(v1) } else { None };
    let v2 = if split {
        let vf = if v1.root_name.len() > 0 { flushed(v1) } else { v1 };
        ParserView {
            root_name: name,
            root_parents: vf.name_stack,
            nodes: Seq::empty(),
            site_colors: Set::empty(),
            node_count_id: 0,
            ..vf
        }
    } else {
        v1
    };
    let id = succ32(v2.node_count_id);
    let parent = if v2.parent_stack.len() > 0 { v2.parent_stack.last() } else { 0u32 };
    (
        ParserView {
            level: lvl,
            node_count_id: id,
            current: MetaNodeView { id, parent_id: parent, name, material_id: material, opacity, ..empty_node() },
            parent_stack: v2.parent_stack.push(id),
            name_stack: v2.name_stack.push(name),
            ..v2
        },
        ex,
    )
}

/// The effect of a `CNTE` chunk once the position has moved past it: the innermost
/// container is closed (popped from both stacks, the depth shrinks, not below 0).
/// The current container stays current: primitives that follow still attach to it.
pub open spec fn after_cnte(v: ParserView) -> ParserView {
    ParserView {
        parent_stack: if v.parent_stack.len() > 0 { v.parent_stack.drop_last() } else { v.parent_stack },
        name_stack: if v.name_stack.len() > 0 { v.name_stack.drop_last() } else { v.name_stack },
        level: if v.level > 0 { (v.level - 1) as u32 } else { 0 },
        ..v
    }
}

/// A `CNTE` closes the container that the `CNTB` before it opened: the ids and names
/// of the open containers and the depth are back to what they were before that
/// `CNTB`, so the next container opened, a sibling of the closed one, gets the same
/// parent as it (the innermost container open before both, or 0 at the top).
pub proof fn law_sibling_containers_share_parent(
    v: ParserView,
    n1: Seq<char>,
    m1: u32,
    o1: u8,
    q: int,
    next: u32,
    n2: Seq<char>,
    m2: u32,
    o2: u8,
)
    requires
        v.level < u32::MAX,
    ensures
        ({
            let (a, _e1) = after_cntb(v, n1, m1, o1);
            let closed = chunk_effect(ParserView { pos: q, ..a }, CNTE, next);
            let b = closed->Some_0.0;
            let (c, _e2) = after_cntb(b, n2, m2, o2);
            &&& closed is Some
            &&& b.parent_stack == v.parent_stack
            &&& b.name_stack == v.name_stack
            &&& b.level == v.level
            &&& a.current.parent_id == (if v.parent_stack.len() > 0 { v.parent_stack.last() } else { 0u32 })
            &&& c.current.parent_id == a.current.parent_id
        }),
{
    lemma_stored_frame(v);
    let (a, _e1) = after_cntb(v, n1, m1, o1);
    let b = after_cnte(ParserView { pos: next as int, ..a });
    assert(a.parent_stack.drop_last() =~= stored(v).parent_stack);
    assert(a.name_stack.drop_last() =~= stored(v).name_stack);
    lemma_stored_frame(b);
}

/// Pops the last element, if any.
fn pop_u32(v: &mut Vec<u32>)
    ensures
        final(v)@ == if old(v)@.len() > 0 { old(v)@.drop_last() } else { old(v)@ },
{
    if v.len() > 0 {
        v.pop();
    }
}

impl<I: InputHandle> RvmParser<I> {
    /// Handles a `CNTB` chunk whose header ended at the position (see [`after_cntb`]).
    #[verifier::rlimit(40)]
    fn begin_container(&mut self, next_abs: u32) -> (r: Result<Option<RootExport>, ParseError>)
        requires
            old(self).wf(),
        ensures
            final(self).wf(),
            final(self).source() == old(self).source(),
            r is Ok && cntb_at(old(self).view().data, old(self).view().pos) is Some ==> {
                let (name, raw, opacity) = cntb_at(old(self).view().data, old(self).view().pos)->Some_0;
                let v0 = ParserView { pos: next_abs as int, ..old(self).view() };
                let (v1, ex) = after_cntb(v0, name, resolve_color(old(self).view().colors, raw), opacity);
                &&& final(self).view() == v1
                &&& r->Ok_0 is Some <==> ex is Some
                &&& r->Ok_0 is Some ==> r->Ok_0->Some_0.view() == ex->Some_0
            },
            r matches Ok(Some(e)) ==> export_ok(e, old(self).view().extract_json),
            r is Ok ==> !cntb_ids_run_out(old(self).view()),
            !old(self).view().extract_json ==> (r matches Ok(Some(e)) ==> e.md5@ == spec_md5_hex(final(self).consumed())),
            old(self).source().reads_never_fail() && cntb_at(old(self).view().data, old(self).view().pos) is Some ==>
                if cntb_ids_run_out(old(self).view()) { r matches Err(ParseError::IdsExhausted) } else { r is Ok },
    {
        let ghost v = self.view();
        let (name, raw_material, opacity) = read_cntb_fields(&mut self.reader)?;
        let material = self.color_store.get(raw_material);
        self.reader.seek(next_abs as u64);
        assert(self.view() == ParserView { pos: next_abs as int, ..v });
        self.store_current_node();
        proof {
            lemma_stored_frame(ParserView { pos: next_abs as int, ..v });
            lemma_stored_pos(v, next_abs as int);
        }
        let lvl = self.level.wrapping_add(1);
        if lvl != self.export_level.wrapping_add(1) as u32 && self.node_count_id >= u32::MAX - 2 {
            return Err(ParseError::IdsExhausted);
        }
        self.level = lvl;
        let export = self.start_root_if_split(&name);
        self.enter_container(name, material, opacity);
        Ok(export)
    }

    /// At the split depth, flushes the previous root (if any) and starts the root `name`.
    fn start_root_if_split(&mut self, name: &String) -> (r: Option<RootExport>)
        requires
            old(self).wf(),
            old(self).view().current.id == 0,
        ensures
            final(self).wf(),
            final(self).source() == old(self).source(),
            ({
                let v = old(self).view();
                let split = v.level == succ8(v.export_level) as u32;
                let ex = if split && v.root_name.len() > 0 { export_of(v) } else { None };
                let vf = if v.root_name.len() > 0 { flushed(v) } else { v };
                &&& split ==> final(self).view() == ParserView {
                    root_name: name@,
                    root_parents: vf.name_stack,
                    nodes: Seq::empty(),
                    site_colors: Set::empty(),
                    node_count_id: 0,
                    ..vf
                }
                &&& !split ==> final(self).view() == v
                &&& r is Some <==> ex is Some
                &&& r is Some ==> r->Some_0.view() == ex->Some_0
            }),
            r matches Some(e) ==> export_ok(e, old(self).view().extract_json),
            !old(self).view().extract_json ==> (r matches Some(e) ==> e.md5@ == spec_md5_hex(old(self).consumed())),
            final(self).consumed() == old(self).consumed(),
    {
        let mut export: Option<RootExport> = None;
        if self.level == self.export_level.wrapping_add(1) as u32 {
            if !self.current_root_name.as_str().is_empty() {
                export = self.flush_root();
            }
            self.current_root_name = name.clone();
            self.current_root_parents = clone_strings(&self.name_stack);
            self.nodes = Vec::new();
            self.site_colors = Vec::new();
            self.node_count_id = 0;
            assert(self.view().nodes =~= Seq::empty());
            assert(self.view().site_colors =~= Set::empty());
        }
        export
    }

    /// Makes a new container with the next id the current one and pushes it on both stacks.
    fn enter_container(&mut self, name: String, material: u32, opacity: u8)
        requires
            old(self).wf(),
            old(self).view().current.id == 0,
            old(self).view().node_count_id < u32::MAX - 2,
        ensures
            final(self).wf(),
            final(self).source() == old(self).source(),
            ({
                let v = old(self).view();
                let id = succ32(v.node_count_id);
                let parent = if v.parent_stack.len() > 0 { v.parent_stack.last() } else { 0u32 };
                final(self).view() == ParserView {
                    node_count_id: id,
                    current: MetaNodeView { id, parent_id: parent, name: name@, material_id: material, opacity, ..empty_node() },
                    parent_stack: v.parent_stack.push(id),
                    name_stack: v.name_stack.push(name@),
                    ..v
                }
            }),
            final(self).consumed() == old(self).consumed(),
    {
        self.node_count_id = self.node_count_id.wrapping_add(1);
        let parent_id = if self.parent_stack.len() > 0 { self.parent_stack[self.parent_stack.len() - 1] } else { 0 };
        self.current_node = MetaNode {
            id: self.node_count_id,
            parent_id,
            name: name.clone(),
            material_id: material,
            start: 0,
            count: 0,
            opacity,
            version: 0,
            color_with_alpha: 0,
            primitives: Vec::new(),
        };
        self.parent_stack.push(self.node_count_id);
        let ghost names_before = self.name_stack@;
        self.name_stack.push(name);
        assert(texts(self.name_stack@) =~= texts(names_before).push(name@));
        assert(self.view().current =~= (MetaNodeView { id: self.node_count_id, parent_id, name: name@, material_id: material, opacity, ..empty_node() }));
    }

    /// Handles a `CNTE` chunk whose header ended at the position (see [`after_cnte`]).
    fn end_container(&mut self, next_abs: u32)
        requires
            old(self).wf(),
        ensures
            final(self).wf(),
            final(self).source() == old(self).source(),
            final(self).view() == after_cnte(ParserView { pos: next_abs as int, ..old(self).view() }),
    {
        pop_u32(&mut self.parent_stack);
        let ghost names_before = self.name_stack@;
        if self.name_stack.len() > 0 {
            self.name_stack.pop();
            assert(texts(self.name_stack@) =~= texts(names_before).drop_last());
        }
        self.level = self.level.saturating_sub(1);
        self.reader.seek(next_abs as u64);
    }
}

} // verus!

verus! {

/// A primitive chunk as plain values.
pub struct PrimChunkView {
    pub chunk_type: u32,
    pub kind: GeometryKind,
    pub geo_type: GeometryType,
    pub opacity: u8,
    pub matrix: Seq<u32>,
    pub bbox: Seq<u32>,
    pub shape: ShapeView,
}

/// The view of a primitive chunk.
pub open spec fn prim_view(p: PrimChunk) -> PrimChunkView {
    PrimChunkView {
        chunk_type: p.chunk_type,
        kind: p.kind,
        geo_type: p.geo_type,
        opacity: p.opacity,
        matrix: p.matrix@,
        bbox: p.bbox@,
        shape: p.shape.view(),
    }
}

/// The warning recorded for a primitive of unknown kind `k`.
pub open spec fn unknown_kind_warning(k: u32) -> Seq<char> {
    "Unknown primitive kind "@ + decimal(k as nat) + " \u{2014} skipping (RVM may have a new primitive type)"@
}

/// The effect of a primitive chunk of id `cid` whose body starts at the position,
/// once the position has moved to `next`: a primitive of unknown kind is skipped
/// with a warning; a primitive of any known kind (Lines included) is handed out.
/// `None` when the bytes it needs are not all in the input.
pub open spec fn prim_effect(v: ParserView, cid: u32, next: u32) -> Option<(ParserView, Option<PrimChunkView>)> {
    let v0 = ParserView { pos: next as int, ..v };
    match prim_head_at(v.data, v.pos, cid) {
        None => None,
        Some((k, op, m, b, s)) => match spec_kind(k) {
            None => Some((ParserView { warnings: v.warnings.push(unknown_kind_warning(k)), ..v0 }, None)),
            Some(kind) => match shape_at(v.data, k, s) {
                None => None,
                Some(sh) => Some((v0, Some(PrimChunkView {
                    chunk_type: cid,
                    kind,
                    geo_type: role_of_chunk(cid),
                    opacity: op,
                    matrix: m,
                    bbox: b,
                    shape: sh,
                }))),
            },
        },
    }
}

/// The warning text for a primitive of unknown kind `k`.
fn unknown_kind_message(k: u32) -> (s: String)
    ensures
        s@ == unknown_kind_warning(k),
{
    let a = String::from_str("Unknown primitive kind ");
    let b = a.concat(decimal_string(k).as_str());
    b.concat(" \u{2014} skipping (RVM may have a new primitive type)")
}

impl<I: InputHandle> RvmParser<I> {
    /// Handles a primitive chunk whose header ended at the position (see [`prim_effect`]).
    fn read_primitive(&mut self, cid: u32, next_abs: u32) -> (r: Result<Option<PrimChunk>, ParseError>)
        requires
            old(self).wf(),
        ensures
            final(self).wf(),
            final(self).source() == old(self).source(),
            r is Ok && prim_effect(old(self).view(), cid, next_abs) is Some ==> {
                let (v1, ev) = prim_effect(old(self).view(), cid, next_abs)->Some_0;
                &&& final(self).view() == v1
                &&& r->Ok_0 is Some <==> ev is Some
                &&& r->Ok_0 is Some ==> prim_view(r->Ok_0->Some_0) == ev->Some_0
            },
            old(self).source().reads_never_fail() && prim_effect(old(self).view(), cid, next_abs) is Some ==> r is Ok,
    {
        let ghost v = self.view();
        proof {
            self.reader.lemma_len_fits();
        }
        let head = read_prim_head(&mut self.reader, cid)?;
        match kind_from_u32(head.kind_tag) {
            None => {
                let msg = unknown_kind_message(head.kind_tag);
                let ghost before = self.errors@;
                self.errors.push(msg);
                assert(texts(self.errors@) =~= texts(before).push(msg@));
                self.reader.seek(next_abs as u64);
                Ok(None)
            },
            Some(kind) => {
                let shape = read_shape(&mut self.reader, head.kind_tag)?;
                self.reader.seek(next_abs as u64);
                Ok(Some(PrimChunk {
                    chunk_type: cid,
                    kind,
                    geo_type: head.geo_type,
                    opacity: head.opacity,
                    matrix: head.matrix,
                    bbox: head.bbox,
                    shape,
                }))
            },
        }
    }

    /// Keeps a handed-out primitive on the current container when it is to be kept:
    /// always in the structure-dump mode (with no geometry counts), otherwise when its
    /// tessellation has vertices and this is not a dry run. Returns whether it was kept.
    pub fn accept_primitive(&mut self, chunk: &PrimChunk, vertices_n: u32, triangles_n: u32, payload: u64) -> (kept: bool)
        requires
            old(self).wf(),
        ensures
            final(self).wf(),
            final(self).source() == old(self).source(),
            kept == (old(self).view().extract_json || (vertices_n > 0 && !old(self).view().dry_run)),
            !kept ==> final(self).view() == old(self).view(),
            kept ==> final(self).view() == (ParserView {
                current: MetaNodeView {
                    primitives: old(self).view().current.primitives.push(
                        if old(self).view().extract_json {
                            NodePrim { opacity: chunk.opacity, geo_type: chunk.geo_type, vertices_n: 0, triangles_n: 0, payload }
                        } else {
                            NodePrim { opacity: chunk.opacity, geo_type: chunk.geo_type, vertices_n, triangles_n, payload }
                        },
                    ),
                    ..old(self).view().current
                },
                ..old(self).view()
            }),
    {
        if self.extract_json {
            self.current_node.primitives.push(NodePrim {
                opacity: chunk.opacity,
                geo_type: chunk.geo_type,
                vertices_n: 0,
                triangles_n: 0,
                payload,
            });
            true
        } else if vertices_n > 0 && !self.dry_run {
            self.current_node.primitives.push(NodePrim {
                opacity: chunk.opacity,
                geo_type: chunk.geo_type,
                vertices_n,
                triangles_n,
                payload,
            });
            true
        } else {
            false
        }
    }

    /// Records a warning (such as an output that could not be written).
    pub fn push_warning(&mut self, w: String)
        requires
            old(self).wf(),
        ensures
            final(self).wf(),
            final(self).source() == old(self).source(),
            final(self).view() == (ParserView { warnings: old(self).view().warnings.push(w@), ..old(self).view() }),
    {
        let ghost before = self.errors@;
        self.errors.push(w);
        assert(texts(self.errors@) =~= texts(before).push(w@));
    }
}

} // verus!

verus! {

/// One step of the parse.
pub enum Step {
    /// A chunk was consumed; nothing for the caller to do.
    Continue,
    /// A primitive to tessellate; the caller then reports it with `accept_primitive`.
    Primitive(PrimChunk),
    /// A finished root to write.
    Root(RootExport),
    /// The stream has ended.
    Done,
}

/// One step as plain values.
pub enum StepView {
    Continue,
    Primitive(PrimChunkView),
    Root(RootExportView),
    Done,
}

/// The view of a step.
pub open spec fn step_view(s: Step) -> StepView {
    match s {
        Step::Continue => StepView::Continue,
        Step::Primitive(p) => StepView::Primitive(prim_view(p)),
        Step::Root(e) => StepView::Root(e.view()),
        Step::Done => StepView::Done,
    }
}

/// The end of the stream: the last root (if one was started) gets its current
/// container stored and is flushed; the parser is then finished.
pub open spec fn finish_effect(v: ParserView) -> (ParserView, StepView) {
    if v.root_name.len() > 0 {
        let v1 = stored(v);
        (
            ParserView { finished: true, ..flushed(v1) },
            match export_of(v1) {
                Some(e) => StepView::Root(e),
                None => StepView::Done,
            },
        )
    } else {
        (ParserView { finished: true, ..v }, StepView::Done)
    }
}

/// What one step does from state `v`, when the bytes it needs lie in the input.
///
/// A step reads the chunk header at the position (the stream ends when fewer than
/// 24 bytes are left) and acts on the chunk: `HEAD` sets the header; `MODL` and
/// `COLR` are skipped; `CNTB` and `CNTE` open and close containers (see
/// [`after_cntb`], [`after_cnte`]); `PRIM`, `OBST` and `INSU` give a primitive (see
/// [`prim_effect`]); `END:` ends the stream; any other chunk is skipped when its next
/// offset lies beyond its header, and ends the stream otherwise. Except at the end,
/// the position moves to the chunk's next-sibling offset.
pub open spec fn step_effect(v: ParserView) -> Option<(ParserView, StepView)> {
    if v.finished {
        Some((v, StepView::Done))
    } else if v.pos + 24 > v.data.len() {
        Some(finish_effect(v))
    } else {
        let (cid, next) = chunk_header_at(v.data, v.pos)->Some_0;
        chunk_effect(ParserView { pos: v.pos + 24, ..v }, cid, next)
    }
}

/// What a chunk of id `cid` whose body starts at the position does, when the bytes
/// it needs lie in the input (see [`step_effect`]); `next` is its next-sibling offset.
pub open spec fn chunk_effect(body: ParserView, cid: u32, next: u32) -> Option<(ParserView, StepView)> {
    let moved = ParserView { pos: next as int, ..body };
    if cid == HEAD {
        match head_at(body.data, body.pos) {
            None => None,
            Some((h, _e)) => Some((ParserView { header: h, ..moved }, StepView::Continue)),
        }
    } else if cid == MODL || cid == COLR {
        Some((moved, StepView::Continue))
    } else if cid == CNTB && cntb_ids_run_out(body) {
        None
    } else if cid == CNTB {
        match cntb_at(body.data, body.pos) {
            None => None,
            Some((name, raw, opacity)) => {
                let (v1, ex) = after_cntb(moved, name, resolve_color(body.colors, raw), opacity);
                Some((v1, match ex {
                    Some(e) => StepView::Root(e),
                    None => StepView::Continue,
                }))
            },
        }
    } else if cid == CNTE {
        Some((after_cnte(moved), StepView::Continue))
    } else if cid == PRIM || cid == OBST || cid == INSU {
        match prim_effect(body, cid, next) {
            None => None,
            Some((v1, ev)) => Some((v1, match ev {
                Some(p) => StepView::Primitive(p),
                None => StepView::Continue,
            })),
        }
    } else if cid == END_ {
        Some(finish_effect(body))
    } else if next as int > body.pos {
        Some((moved, StepView::Continue))
    } else {
        Some(finish_effect(body))
    }
}

/// The bytes that a chunk of id `cid` whose body starts at the position reads lie in
/// the input (for a `COLR` body, whose length is fixed, its end is a valid position).
pub open spec fn chunk_reads_fit(body: ParserView, cid: u32, next: u32) -> bool {
    if cid == HEAD {
        head_at(body.data, body.pos) is Some
    } else if cid == MODL {
        modl_end(body.data, body.pos) is Some
    } else if cid == COLR {
        body.pos + 12 <= u64::MAX
    } else if cid == CNTB {
        cntb_at(body.data, body.pos) is Some
    } else if cid == PRIM || cid == OBST || cid == INSU {
        prim_effect(body, cid, next) is Some
    } else {
        true
    }
}

/// The bytes that the next step reads lie in the input (see [`chunk_reads_fit`]).
pub open spec fn step_reads_fit(v: ParserView) -> bool {
    !v.finished && v.pos + 24 <= v.data.len() ==> {
        let (cid, next) = chunk_header_at(v.data, v.pos)->Some_0;
        chunk_reads_fit(ParserView { pos: v.pos + 24, ..v }, cid, next)
    }
}

/// The next chunk is a `CNTB` for which the root has no node id left (see
/// [`cntb_ids_run_out`]); such a step fails.
pub open spec fn step_ids_run_out(v: ParserView) -> bool {
    &&& !v.finished
    &&& v.pos + 24 <= v.data.len()
    &&& chunk_header_at(v.data, v.pos)->Some_0.0 == CNTB
    &&& cntb_ids_run_out(ParserView { pos: v.pos + 24, ..v })
}

impl<I: InputHandle> RvmParser<I> {
    /// The parser's warnings, header and COLR definitions.
    pub fn into_report(self) -> (r: ParseReport)
        ensures
            texts(r.warnings@) == self.view().warnings,
            r.header.view() == self.view().header,
            r.color_overrides@ == self.view().color_overrides,
    {
        ParseReport { warnings: self.errors, header: self.header, color_overrides: self.color_overrides }
    }

    /// The warnings recorded so far.
    pub fn warnings(&self) -> (w: &Vec<String>)
        ensures
            texts(w@) == self.view().warnings,
    {
        &self.errors
    }

    /// The file header read so far (empty until the `HEAD` chunk).
    pub fn header(&self) -> (h: &HeaderBlock)
        ensures
            h.view() == self.view().header,
    {
        &self.header
    }

    /// Whether the stream has ended.
    pub fn is_finished(&self) -> (b: bool)
        ensures
            b == self.view().finished,
    {
        self.finished
    }

    /// Ends the stream (see [`finish_effect`]).
    fn finish(&mut self) -> (r: Step)
        requires
            old(self).wf(),
        ensures
            final(self).wf(),
            final(self).source() == old(self).source(),
            (final(self).view(), step_view(r)) == finish_effect(old(self).view()),
            r matches Step::Root(e) ==> export_ok(e, old(self).view().extract_json),
            !old(self).view().extract_json ==> (r matches Step::Root(e) ==> e.md5@ == spec_md5_hex(final(self).consumed())),
    {
        let ghost v = self.view();
        let r = if !self.current_root_name.as_str().is_empty() {
            self.store_current_node();
            proof {
                lemma_stored_frame(v);
            }
            match self.flush_root() {
                Some(e) => Step::Root(e),
                None => Step::Done,
            }
        } else {
            Step::Done
        };
        self.finished = true;
        r
    }

    /// Parses one chunk (see [`step_effect`]). Read errors of the input end the parse
    /// with an error; the state is then left as it is.
    pub fn step(&mut self) -> (r: Result<Step, ParseError>)
        requires
            old(self).wf(),
        ensures
            final(self).wf(),
            final(self).source() == old(self).source(),
            r is Ok && step_effect(old(self).view()) is Some ==> (final(self).view(), step_view(r->Ok_0)) == step_effect(old(self).view())->Some_0,
            r matches Ok(Step::Root(e)) ==> export_ok(e, old(self).view().extract_json),
            !old(self).view().extract_json ==> (r matches Ok(Step::Root(e)) ==> e.md5@ == spec_md5_hex(final(self).consumed())),
            r is Ok ==> !step_ids_run_out(old(self).view()),
            old(self).source().reads_never_fail() && step_reads_fit(old(self).view()) ==>
                if step_ids_run_out(old(self).view()) { r matches Err(ParseError::IdsExhausted) } else { r is Ok },
    {
        if self.finished {
            return Ok(Step::Done);
        }
        let pos = self.reader.pos();
        let len = self.reader.file_len();
        if pos > len || len - pos < 24 {
            return Ok(self.finish());
        }
        let ghost v = self.view();
        let (cid, next_abs) = read_chunk_header(&mut self.reader)?;
        assert(self.view() == ParserView { pos: v.pos + 24, ..v });
        self.chunk(cid, next_abs)
    }

    /// Acts on a chunk of id `cid` whose header ended at the position (see [`chunk_effect`]).
    #[verifier::rlimit(30)]
    fn chunk(&mut self, cid: u32, next_abs: u32) -> (r: Result<Step, ParseError>)
        requires
            old(self).wf(),
            !old(self).view().finished,
        ensures
            final(self).wf(),
            final(self).source() == old(self).source(),
            r is Ok && chunk_effect(old(self).view(), cid, next_abs) is Some ==>
                (final(self).view(), step_view(r->Ok_0)) == chunk_effect(old(self).view(), cid, next_abs)->Some_0,
            r matches Ok(Step::Root(e)) ==> export_ok(e, old(self).view().extract_json),
            !old(self).view().extract_json ==> (r matches Ok(Step::Root(e)) ==> e.md5@ == spec_md5_hex(final(self).consumed())),
            r is Ok && cid == CNTB ==> !cntb_ids_run_out(old(self).view()),
            old(self).source().reads_never_fail() && chunk_reads_fit(old(self).view(), cid, next_abs) ==>
                if cid == CNTB && cntb_ids_run_out(old(self).view()) { r matches Err(ParseError::IdsExhausted) } else { r is Ok },
    {
        if cid == HEAD {
            let h = read_head(&mut self.reader)?;
            self.header = h;
            self.reader.seek(next_abs as u64);
            Ok(Step::Continue)
        } else if cid == MODL {
            skip_modl(&mut self.reader)?;
            self.reader.seek(next_abs as u64);
            Ok(Step::Continue)
        } else if cid == COLR {
            skip_colr(&mut self.reader)?;
            self.reader.seek(next_abs as u64);
            Ok(Step::Continue)
        } else if cid == CNTB {
            match self.begin_container(next_abs)? {
                Some(e) => Ok(Step::Root(e)),
                None => Ok(Step::Continue),
            }
        } else if cid == CNTE {
            self.end_container(next_abs);
            Ok(Step::Continue)
        } else if cid == PRIM || cid == OBST || cid == INSU {
            match self.read_primitive(cid, next_abs)? {
                Some(p) => Ok(Step::Primitive(p)),
                None => Ok(Step::Continue),
            }
        } else if cid == END_ {
            Ok(self.finish())
        } else if next_abs as u64 > self.reader.pos() {
            self.reader.seek(next_abs as u64);
            Ok(Step::Continue)
        } else {
            Ok(self.finish())
        }
    }
}

} // verus!

//! Readers of the chunk headers and chunk bodies of an RVM stream, each with the
//! value it gives when the bytes it reads lie inside the input.
use crate::geometry::{GeometryKind, GeometryType};
use crate::io::InputHandle;
use crate::model::{HeaderBlock, HeaderView, GeometryShape, ShapeView, Contour, Polygon, polygons_view};
use crate::reader::{string_at, ParseError, RvmReader};
use crate::rvm_format::{be_u32, be_u32_of, be_word_at, spec_kind, OBST, INSU};
use vstd::prelude::*;

verus! {

/// The big-endian word at `p` (shorthand).
pub open spec fn word(c: Seq<u8>, p: int) -> u32 {
    be_word_at(c, p)
}

/// A chunk header at `p`: four words whose last bytes spell the chunk name, the
/// absolute offset of the next sibling chunk, and one more word. Gives the chunk id
/// and that offset when the 24 bytes lie inside `c`.
pub open spec fn chunk_header_at(c: Seq<u8>, p: int) -> Option<(u32, u32)> {
    if p < 0 || p + 24 > c.len() {
        None
    } else {
        Some((be_u32(c[p + 3], c[p + 7], c[p + 11], c[p + 15]), word(c, p + 16)))
    }
}

/// Reads a chunk header (see [`chunk_header_at`]).
pub fn read_chunk_header<I: InputHandle>(r: &mut RvmReader<I>) -> (res: Result<(u32, u32), ParseError>)
    requires
        old(r).wf(),
    ensures
        final(r).wf(),
        final(r).data() == old(r).data(),
        final(r).len() == old(r).len(),
        final(r).source() == old(r).source(),
        res is Ok ==> final(r).position() == old(r).position() + 24,
        res is Ok && chunk_header_at(old(r).data(), old(r).position() as int) is Some ==> res->Ok_0 == chunk_header_at(old(r).data(), old(r).position() as int)->Some_0,
        old(r).source().reads_never_fail() && old(r).position() + 24 <= u64::MAX ==> res is Ok,
{
    let ghost p: int = r.position() as int;
    let mut name: [u8; 4] = [0u8; 4];
    let mut i: usize = 0;
    while i < 4
        invariant
            r.wf(),
            r.data() == old(r).data(),
            r.len() == old(r).len(),
            r.source() == old(r).source(),
            0 <= i <= 4,
            r.position() == p + 4 * i,
            p == old(r).position(),
            forall|j: int| 0 <= j < i && p + 24 <= r.len() ==> name[j] == r.data()[p + 4 * j + 3],
        decreases 4 - i,
    {
        r.read_u8()?;
        r.read_u8()?;
        r.read_u8()?;
        let b = r.read_u8()?;
        name[i] = b;
        i += 1;
    }
    assert(p + 24 <= r.len() ==> name@ == seq![r.data()[p + 3], r.data()[p + 7], r.data()[p + 11], r.data()[p + 15]]) by {
        if p + 24 <= r.len() {
            assert(name[0] == r.data()[p + 3]);
            assert(name[1] == r.data()[p + 7]);
            assert(name[2] == r.data()[p + 11]);
            assert(name[3] == r.data()[p + 15]);
        }
    }
    let cid = be_u32_of(name[0], name[1], name[2], name[3]);
    let next_abs = r.read_u32_be()?;
    let _unk = r.read_u32_be()?;
    assert(p + 24 <= old(r).len() ==> cid == be_u32(old(r).data()[p + 3], old(r).data()[p + 7], old(r).data()[p + 11], old(r).data()[p + 15]));
    assert(p + 24 <= old(r).len() ==> next_abs == word(old(r).data(), p + 16));
    Ok((cid, next_abs))
}

} // verus!

verus! {

/// A `HEAD` body at `p`: a version word and the texts info, note, date, user, and
/// (from version 2 on) encoding. Gives the header and the position after the body.
pub open spec fn head_at(c: Seq<u8>, p: int) -> Option<(HeaderView, int)> {
    if p < 0 || p + 4 > c.len() {
        None
    } else {
        let v = word(c, p);
        match string_at(c, p + 4) {
            None => None,
            Some((info, e1)) => match string_at(c, e1) {
                None => None,
                Some((note, e2)) => match string_at(c, e2) {
                    None => None,
                    Some((date, e3)) => match string_at(c, e3) {
                        None => None,
                        Some((user, e4)) => if v >= 2 {
                            match string_at(c, e4) {
                                None => None,
                                Some((encoding, e5)) => Some(
                                    (HeaderView { version: v, info, note, date, user, encoding }, e5),
                                ),
                            }
                        } else {
                            Some((HeaderView { version: v, info, note, date, user, encoding: Seq::empty() }, e4))
                        },
                    },
                },
            },
        }
    }
}

/// Reads a `HEAD` body (see [`head_at`]).
pub fn read_head<I: InputHandle>(r: &mut RvmReader<I>) -> (res: Result<HeaderBlock, ParseError>)
    requires
        old(r).wf(),
    ensures
        final(r).wf(),
        final(r).data() == old(r).data(),
        final(r).source() == old(r).source(),
        res is Ok && head_at(old(r).data(), old(r).position() as int) is Some ==> {
            &&& res->Ok_0.view() == head_at(old(r).data(), old(r).position() as int)->Some_0.0
            &&& final(r).position() == head_at(old(r).data(), old(r).position() as int)->Some_0.1
        },
        old(r).source().reads_never_fail() && head_at(old(r).data(), old(r).position() as int) is Some ==> res is Ok,
{
    proof {
        r.lemma_len_fits();
    }
    let version = r.read_u32_be()?;
    let info = r.read_string()?;
    let note = r.read_string()?;
    let date = r.read_string()?;
    let user = r.read_string()?;
    let encoding = if version >= 2 {
        r.read_string()?
    } else {
        String::new()
    };
    Ok(HeaderBlock { version, info, note, date, user, encoding })
}

/// A `MODL` body at `p`: a version word and two texts, the project and the model
/// name. Gives the position after the body.
pub open spec fn modl_end(c: Seq<u8>, p: int) -> Option<int> {
    if p < 0 || p + 4 > c.len() {
        None
    } else {
        match string_at(c, p + 4) {
            None => None,
            Some((_project, e1)) => match string_at(c, e1) {
                None => None,
                Some((_name, e2)) => Some(e2),
            },
        }
    }
}

/// Reads past a `MODL` body (see [`modl_end`]).
pub fn skip_modl<I: InputHandle>(r: &mut RvmReader<I>) -> (res: Result<(), ParseError>)
    requires
        old(r).wf(),
    ensures
        final(r).wf(),
        final(r).data() == old(r).data(),
        final(r).source() == old(r).source(),
        res is Ok && modl_end(old(r).data(), old(r).position() as int) is Some ==>
            final(r).position() == modl_end(old(r).data(), old(r).position() as int)->Some_0,
        old(r).source().reads_never_fail() && modl_end(old(r).data(), old(r).position() as int) is Some ==> res is Ok,
{
    proof {
        r.lemma_len_fits();
    }
    let _version = r.read_u32_be()?;
    let _project = r.read_string()?;
    let _name = r.read_string()?;
    Ok(())
}

/// Reads past a `COLR` body: a version word, the colour index and four bytes.
pub fn skip_colr<I: InputHandle>(r: &mut RvmReader<I>) -> (res: Result<(), ParseError>)
    requires
        old(r).wf(),
    ensures
        final(r).wf(),
        final(r).data() == old(r).data(),
        final(r).source() == old(r).source(),
        res is Ok ==> final(r).position() == old(r).position() + 12,
        old(r).source().reads_never_fail() && old(r).position() + 12 <= u64::MAX ==> res is Ok,
{
    let _ver = r.read_u32_be()?;
    let _index = r.read_u32_be()?;
    r.read_u8()?;
    r.read_u8()?;
    r.read_u8()?;
    r.read_u8()?;
    Ok(())
}

/// A `CNTB` body at `p`: a version word, the name, three translation words, the
/// material index word, and (for versions above 2) a word whose first byte is the
/// opacity. Gives the name, the material index and the opacity (100 when absent).
pub open spec fn cntb_at(c: Seq<u8>, p: int) -> Option<(Seq<char>, u32, u8)> {
    if p < 0 || p + 4 > c.len() {
        None
    } else {
        let version = word(c, p);
        match string_at(c, p + 4) {
            None => None,
            Some((name, e)) => if e + 16 > c.len() {
                None
            } else if version > 2 {
                if e + 20 > c.len() {
                    None
                } else {
                    Some((name, word(c, e + 12), c[e + 16]))
                }
            } else {
                Some((name, word(c, e + 12), 100u8))
            },
        }
    }
}

/// Reads a `CNTB` body (see [`cntb_at`]): the name, the raw material index and the opacity.
pub fn read_cntb_fields<I: InputHandle>(r: &mut RvmReader<I>) -> (res: Result<(String, u32, u8), ParseError>)
    requires
        old(r).wf(),
    ensures
        final(r).wf(),
        final(r).data() == old(r).data(),
        final(r).source() == old(r).source(),
        res is Ok && cntb_at(old(r).data(), old(r).position() as int) is Some ==> {
            let (name, material, opacity) = cntb_at(old(r).data(), old(r).position() as int)->Some_0;
            &&& res->Ok_0.0@ == name
            &&& res->Ok_0.1 == material
            &&& res->Ok_0.2 == opacity
        },
        old(r).source().reads_never_fail() && cntb_at(old(r).data(), old(r).position() as int) is Some ==> res is Ok,
{
    proof {
        r.lemma_len_fits();
    }
    let version = r.read_u32_be()?;
    let name = r.read_string()?;
    let _tx = r.read_u32_be()?;
    let _ty = r.read_u32_be()?;
    let _tz = r.read_u32_be()?;
    let raw_material = r.read_u32_be()?;
    let opacity = if version > 2 {
        let op = r.read_u8()?;
        r.read_u8()?;
        r.read_u8()?;
        r.read_u8()?;
        op
    } else {
        100
    };
    Ok((name, raw_material, opacity))
}

/// `n` consecutive big-endian words starting at `p`.
pub open spec fn words_at(c: Seq<u8>, p: int, n: nat) -> Seq<u32> {
    Seq::new(n, |i: int| word(c, p + 4 * i))
}

/// Reads `n` consecutive big-endian words.
pub fn read_words<I: InputHandle>(r: &mut RvmReader<I>, n: usize) -> (res: Result<Vec<u32>, ParseError>)
    requires
        old(r).wf(),
    ensures
        final(r).wf(),
        final(r).data() == old(r).data(),
        final(r).source() == old(r).source(),
        res is Ok ==> final(r).position() == old(r).position() + 4 * n,
        res is Ok ==> res->Ok_0@.len() == n,
        res is Ok && old(r).position() + 4 * n <= old(r).len() ==> res->Ok_0@ == words_at(old(r).data(), old(r).position() as int, n as nat),
        old(r).source().reads_never_fail() && old(r).position() + 4 * n <= u64::MAX ==> res is Ok,
{
    let ghost p: int = r.position() as int;
    let mut v: Vec<u32> = Vec::new();
    let mut i: usize = 0;
    while i < n
        invariant
            r.wf(),
            r.data() == old(r).data(),
            r.source() == old(r).source(),
            i <= n,
            r.position() == p + 4 * i,
            p == old(r).position(),
            v@.len() == i,
            p + 4 * n <= r.len() ==> v@ == words_at(r.data(), p, i as nat),
        decreases n - i,
    {
        let w = r.read_u32_be()?;
        let ghost before = v@;
        v.push(w);
        proof {
            if p + 4 * n <= r.len() {
                assert(v@ == words_at(r.data(), p, (i + 1) as nat));
            }
        }
        i += 1;
    }
    Ok(v)
}

/// The role a primitive chunk id gives: insulation for `INSU`, obstruction for
/// `OBST`, plain geometry otherwise.
pub open spec fn role_of_chunk(cid: u32) -> GeometryType {
    if cid == INSU {
        GeometryType::Insulation
    } else if cid == OBST {
        GeometryType::Obstruction
    } else {
        GeometryType::Primitive
    }
}

/// Where the placement matrix of a primitive body at `p` starts: after the version
/// and kind words, and for `OBST`/`INSU` after one more word holding the opacity.
pub open spec fn prim_matrix_start(cid: u32, p: int) -> int {
    if cid == OBST || cid == INSU {
        p + 12
    } else {
        p + 8
    }
}

/// The common part of a primitive body at `p`: the kind tag, the opacity (its own
/// for `OBST`/`INSU`, 100 otherwise), 12 matrix words and 6 bounding-box words.
/// Gives them and the position where the shape parameters start.
pub open spec fn prim_head_at(c: Seq<u8>, p: int, cid: u32) -> Option<(u32, u8, Seq<u32>, Seq<u32>, int)> {
    let q = prim_matrix_start(cid, p);
    if p < 0 || q + 72 > c.len() {
        None
    } else {
        let opacity = if cid == OBST || cid == INSU { c[p + 8] } else { 100u8 };
        Some((word(c, p + 4), opacity, words_at(c, q, 12), words_at(c, q + 48, 6), q + 72))
    }
}

/// The common part of a primitive body as read.
pub struct PrimHead {
    pub kind_tag: u32,
    pub geo_type: GeometryType,
    pub opacity: u8,
    pub matrix: [u32; 12],
    pub bbox: [u32; 6],
}

/// Reads the common part of a primitive body (see [`prim_head_at`]).
pub fn read_prim_head<I: InputHandle>(r: &mut RvmReader<I>, cid: u32) -> (res: Result<PrimHead, ParseError>)
    requires
        old(r).wf(),
    ensures
        final(r).wf(),
        final(r).data() == old(r).data(),
        final(r).source() == old(r).source(),
        res is Ok ==> res->Ok_0.geo_type == role_of_chunk(cid),
        res is Ok && prim_head_at(old(r).data(), old(r).position() as int, cid) is Some ==> {
            let (k, op, m, b, e) = prim_head_at(old(r).data(), old(r).position() as int, cid)->Some_0;
            &&& res->Ok_0.kind_tag == k
            &&& res->Ok_0.opacity == op
            &&& res->Ok_0.matrix@ == m
            &&& res->Ok_0.bbox@ == b
            &&& final(r).position() == e
        },
        old(r).source().reads_never_fail() && prim_matrix_start(cid, old(r).position() as int) + 72 <= u64::MAX ==> res is Ok,
{
    let _version = r.read_u32_be()?;
    let kind_tag = r.read_u32_be()?;
    let mut geo_type = GeometryType::Primitive;
    let mut opacity: u8 = 100;
    if cid == OBST || cid == INSU {
        opacity = r.read_u8()?;
        r.read_u8()?;
        r.read_u8()?;
        r.read_u8()?;
        geo_type = if cid == INSU { GeometryType::Insulation } else { GeometryType::Obstruction };
    }
    let mv = read_words(r, 12)?;
    let bv = read_words(r, 6)?;
    let matrix: [u32; 12] = [mv[0], mv[1], mv[2], mv[3], mv[4], mv[5], mv[6], mv[7], mv[8], mv[9], mv[10], mv[11]];
    let bbox: [u32; 6] = [bv[0], bv[1], bv[2], bv[3], bv[4], bv[5]];
    assert(matrix@ == mv@);
    assert(bbox@ == bv@);
    Ok(PrimHead { kind_tag, geo_type, opacity, matrix, bbox })
}

} // verus!

verus! {

/// The number of parameter words of a parametric kind tag (1..=10).
pub open spec fn param_count(tag: u32) -> nat {
    if tag == 1 { 7 }
    else if tag == 2 { 3 }
    else if tag == 3 { 4 }
    else if tag == 4 { 3 }
    else if tag == 5 { 2 }
    else if tag == 6 { 2 }
    else if tag == 7 { 9 }
    else if tag == 8 { 2 }
    else if tag == 9 { 1 }
    else { 2 }
}

/// The vertex words of a contour whose `v` vertex records start at `p`: of each
/// 24-byte record (position, then normal) the three position words.
pub open spec fn contour_words(c: Seq<u8>, p: int, v: nat) -> Seq<u32>
    decreases v,
{
    if v == 0 {
        Seq::empty()
    } else {
        let q = p + 24 * (v - 1);
        contour_words(c, p, (v - 1) as nat) + seq![word(c, q), word(c, q + 4), word(c, q + 8)]
    }
}

/// A contour at `p`: a vertex count and that many 24-byte vertex records.
pub open spec fn contour_at(c: Seq<u8>, p: int) -> Option<(Seq<u32>, int)> {
    if p < 0 || p + 4 > c.len() {
        None
    } else {
        let v = word(c, p);
        let e = p + 4 + 24 * v;
        if e > c.len() {
            None
        } else {
            Some((contour_words(c, p + 4, v as nat), e))
        }
    }
}

/// `m` consecutive contours starting at `p`.
pub open spec fn contours_at(c: Seq<u8>, p: int, m: nat) -> Option<(Seq<Seq<u32>>, int)>
    decreases m,
{
    if m == 0 {
        Some((Seq::empty(), p))
    } else {
        match contours_at(c, p, (m - 1) as nat) {
            None => None,
            Some((cs, e)) => match contour_at(c, e) {
                None => None,
                Some((v, e2)) => Some((cs.push(v), e2)),
            },
        }
    }
}

/// A polygon at `p`: a contour count and that many contours.
pub open spec fn polygon_at(c: Seq<u8>, p: int) -> Option<(Seq<Seq<u32>>, int)> {
    if p < 0 || p + 4 > c.len() {
        None
    } else {
        contours_at(c, p + 4, word(c, p) as nat)
    }
}

/// `n` consecutive polygons starting at `p`.
pub open spec fn polygons_at(c: Seq<u8>, p: int, n: nat) -> Option<(Seq<Seq<Seq<u32>>>, int)>
    decreases n,
{
    if n == 0 {
        Some((Seq::empty(), p))
    } else {
        match polygons_at(c, p, (n - 1) as nat) {
            None => None,
            Some((ps, e)) => match polygon_at(c, e) {
                None => None,
                Some((q, e2)) => Some((ps.push(q), e2)),
            },
        }
    }
}

/// A facet group at `p`: a polygon count and that many polygons.
pub open spec fn facets_at(c: Seq<u8>, p: int) -> Option<(Seq<Seq<Seq<u32>>>, int)> {
    if p < 0 || p + 4 > c.len() {
        None
    } else {
        polygons_at(c, p + 4, word(c, p) as nat)
    }
}

/// The shape parameters of kind tag `tag` (1..=11) at `p`.
pub open spec fn shape_at(c: Seq<u8>, tag: u32, p: int) -> Option<ShapeView> {
    if tag == 11 {
        match facets_at(c, p) {
            None => None,
            Some((polys, _e)) => Some(ShapeView::Facets(polys)),
        }
    } else if p < 0 || p + 4 * param_count(tag) > c.len() {
        None
    } else {
        Some(ShapeView::Params(spec_kind(tag)->Some_0, words_at(c, p, param_count(tag))))
    }
}

/// Once a prefix of the contours does not lie in the input, no longer run does.
pub proof fn lemma_contours_none(c: Seq<u8>, p: int, k: nat, m: nat)
    requires
        k <= m,
        contours_at(c, p, k) is None,
    ensures
        contours_at(c, p, m) is None,
    decreases m,
{
    if m > k {
        lemma_contours_none(c, p, k, (m - 1) as nat);
    }
}

/// Once a prefix of the polygons does not lie in the input, no longer run does.
pub proof fn lemma_polygons_none(c: Seq<u8>, p: int, k: nat, m: nat)
    requires
        k <= m,
        polygons_at(c, p, k) is None,
    ensures
        polygons_at(c, p, m) is None,
    decreases m,
{
    if m > k {
        lemma_polygons_none(c, p, k, (m - 1) as nat);
    }
}

/// Reads one contour (see [`contour_at`]).
fn read_contour<I: InputHandle>(r: &mut RvmReader<I>) -> (res: Result<Contour, ParseError>)
    requires
        old(r).wf(),
    ensures
        final(r).wf(),
        final(r).data() == old(r).data(),
        final(r).source() == old(r).source(),
        res is Ok && contour_at(old(r).data(), old(r).position() as int) is Some ==> {
            &&& res->Ok_0.view() == contour_at(old(r).data(), old(r).position() as int)->Some_0.0
            &&& final(r).position() == contour_at(old(r).data(), old(r).position() as int)->Some_0.1
        },
        old(r).source().reads_never_fail() && contour_at(old(r).data(), old(r).position() as int) is Some ==> res is Ok,
{
    let ghost p: int = r.position() as int;
    let ghost c = r.data();
    proof {
        r.lemma_len_fits();
    }
    let verts_n = r.read_u32_be()?;
    let ghost within = contour_at(c, p) is Some;
    let mut vertices: Vec<u32> = Vec::new();
    let mut i: u32 = 0;
    while i < verts_n
        invariant
            r.wf(),
            r.data() == c,
            c == old(r).data(),
            r.source() == old(r).source(),
            i <= verts_n,
            within == (contour_at(c, p) is Some),
            p == old(r).position(),
            c.len() <= u64::MAX,
            within ==> verts_n == word(c, p) && p + 4 + 24 * verts_n <= c.len(),
            within ==> r.position() == p + 4 + 24 * i,
            within ==> vertices@ == contour_words(c, p + 4, i as nat),
        decreases verts_n - i,
    {
        let x = r.read_u32_be()?;
        let y = r.read_u32_be()?;
        let z = r.read_u32_be()?;
        r.read_u32_be()?;
        r.read_u32_be()?;
        r.read_u32_be()?;
        vertices.push(x);
        vertices.push(y);
        vertices.push(z);
        i += 1;
    }
    Ok(Contour { vertices })
}

/// Reads one polygon (see [`polygon_at`]).
fn read_polygon<I: InputHandle>(r: &mut RvmReader<I>) -> (res: Result<Polygon, ParseError>)
    requires
        old(r).wf(),
    ensures
        final(r).wf(),
        final(r).data() == old(r).data(),
        final(r).source() == old(r).source(),
        res is Ok && polygon_at(old(r).data(), old(r).position() as int) is Some ==> {
            &&& res->Ok_0.view() == polygon_at(old(r).data(), old(r).position() as int)->Some_0.0
            &&& final(r).position() == polygon_at(old(r).data(), old(r).position() as int)->Some_0.1
        },
        old(r).source().reads_never_fail() && polygon_at(old(r).data(), old(r).position() as int) is Some ==> res is Ok,
{
    let ghost p: int = r.position() as int;
    let ghost c = r.data();
    proof {
        r.lemma_len_fits();
    }
    let contours_n = r.read_u32_be()?;
    let ghost within = polygon_at(c, p) is Some;
    let mut contours: Vec<Contour> = Vec::new();
    let mut i: u32 = 0;
    while i < contours_n
        invariant
            r.wf(),
            r.data() == c,
            c == old(r).data(),
            r.source() == old(r).source(),
            i <= contours_n,
            within == (polygon_at(c, p) is Some),
            p == old(r).position(),
            within ==> contours_n == word(c, p) && p + 4 <= c.len(),
            within ==> contours_at(c, p + 4, i as nat) is Some,
            within ==> r.position() == contours_at(c, p + 4, i as nat)->Some_0.1,
            within ==> contours@.map_values(|k: Contour| k.view()) == contours_at(c, p + 4, i as nat)->Some_0.0,
        decreases contours_n - i,
    {
        proof {
            if within {
                if contours_at(c, p + 4, (i + 1) as nat) is None {
                    lemma_contours_none(c, p + 4, (i + 1) as nat, contours_n as nat);
                }
            }
        }
        let k = read_contour(r)?;
        let ghost before = contours@;
        contours.push(k);
        proof {
            if within {
                assert(contours@.map_values(|k: Contour| k.view()) == before.map_values(|k: Contour| k.view()).push(k.view()));
            }
        }
        i += 1;
    }
    Ok(Polygon { contours })
}

/// Reads a facet group (see [`facets_at`]).
fn read_facets<I: InputHandle>(r: &mut RvmReader<I>) -> (res: Result<Vec<Polygon>, ParseError>)
    requires
        old(r).wf(),
    ensures
        final(r).wf(),
        final(r).data() == old(r).data(),
        final(r).source() == old(r).source(),
        res is Ok && facets_at(old(r).data(), old(r).position() as int) is Some ==> {
            &&& polygons_view(res->Ok_0@) == facets_at(old(r).data(), old(r).position() as int)->Some_0.0
            &&& final(r).position() == facets_at(old(r).data(), old(r).position() as int)->Some_0.1
        },
        old(r).source().reads_never_fail() && facets_at(old(r).data(), old(r).position() as int) is Some ==> res is Ok,
{
    let ghost p: int = r.position() as int;
    let ghost c = r.data();
    proof {
        r.lemma_len_fits();
    }
    let polys_n = r.read_u32_be()?;
    let ghost within = facets_at(c, p) is Some;
    let mut polygons: Vec<Polygon> = Vec::new();
    let mut i: u32 = 0;
    while i < polys_n
        invariant
            r.wf(),
            r.data() == c,
            c == old(r).data(),
            r.source() == old(r).source(),
            i <= polys_n,
            within == (facets_at(c, p) is Some),
            p == old(r).position(),
            within ==> polys_n == word(c, p) && p + 4 <= c.len(),
            within ==> polygons_at(c, p + 4, i as nat) is Some,
            within ==> r.position() == polygons_at(c, p + 4, i as nat)->Some_0.1,
            within ==> polygons_view(polygons@) == polygons_at(c, p + 4, i as nat)->Some_0.0,
        decreases polys_n - i,
    {
        proof {
            if within {
                if polygons_at(c, p + 4, (i + 1) as nat) is None {
                    lemma_polygons_none(c, p + 4, (i + 1) as nat, polys_n as nat);
                }
            }
        }
        let q = read_polygon(r)?;
        let ghost before = polygons@;
        polygons.push(q);
        proof {
            if within {
                assert(polygons_view(polygons@) == polygons_view(before).push(q.view()));
            }
        }
        i += 1;
    }
    Ok(polygons)
}

/// Reads the shape parameters of kind tag `tag` (see [`shape_at`]).
pub fn read_shape<I: InputHandle>(r: &mut RvmReader<I>, tag: u32) -> (res: Result<GeometryShape, ParseError>)
    requires
        old(r).wf(),
        1 <= tag <= 11,
    ensures
        final(r).wf(),
        final(r).data() == old(r).data(),
        final(r).source() == old(r).source(),
        res is Ok ==> res->Ok_0.spec_kind() == spec_kind(tag)->Some_0,
        res is Ok && shape_at(old(r).data(), tag, old(r).position() as int) is Some ==>
            res->Ok_0.view() == shape_at(old(r).data(), tag, old(r).position() as int)->Some_0,
        old(r).source().reads_never_fail() && shape_at(old(r).data(), tag, old(r).position() as int) is Some ==> res is Ok,
{
    proof {
        r.lemma_len_fits();
    }
    if tag == 11 {
        let polygons = read_facets(r)?;
        return Ok(GeometryShape::FacetGroup { polygons });
    }
    let n: usize = if tag == 1 { 7 }
        else if tag == 2 { 3 }
        else if tag == 3 { 4 }
        else if tag == 4 { 3 }
        else if tag == 5 { 2 }
        else if tag == 6 { 2 }
        else if tag == 7 { 9 }
        else if tag == 8 { 2 }
        else if tag == 9 { 1 }
        else { 2 };
    assert(n == param_count(tag));
    let w = read_words(r, n)?;
    let shape = if tag == 1 {
        GeometryShape::Pyramid { bottom: [w[0], w[1]], top: [w[2], w[3]], offset: [w[4], w[5]], height: w[6] }
    } else if tag == 2 {
        GeometryShape::Box { lengths: [w[0], w[1], w[2]] }
    } else if tag == 3 {
        GeometryShape::RectangularTorus { inner_radius: w[0], outer_radius: w[1], height: w[2], angle: w[3] }
    } else if tag == 4 {
        GeometryShape::CircularTorus { offset: w[0], radius: w[1], angle: w[2] }
    } else if tag == 5 {
        GeometryShape::EllipticalDish { base_radius: w[0], height: w[1] }
    } else if tag == 6 {
        GeometryShape::SphericalDish { base_radius: w[0], height: w[1] }
    } else if tag == 7 {
        GeometryShape::Snout {
            radius_b: w[0],
            radius_t: w[1],
            height: w[2],
            offset: [w[3], w[4]],
            bshear: [w[5], w[6]],
            tshear: [w[7], w[8]],
        }
    } else if tag == 8 {
        GeometryShape::Cylinder { radius: w[0], height: w[1] }
    } else if tag == 9 {
        GeometryShape::Sphere { diameter: w[0] }
    } else {
        GeometryShape::Line { a: w[0], b: w[1] }
    };
    proof {
        let c = old(r).data();
        let p = old(r).position() as int;
        if shape_at(c, tag, p) is Some {
            assert(w@ == words_at(c, p, n as nat));
            if tag == 1 {
                assert(seq![w[0], w[1], w[2], w[3], w[4], w[5], w[6]] =~= w@);
            } else if tag == 2 {
                assert(seq![w[0], w[1], w[2]] =~= w@);
            } else if tag == 3 {
                assert(seq![w[0], w[1], w[2], w[3]] =~= w@);
            } else if tag == 4 {
                assert(seq![w[0], w[1], w[2]] =~= w@);
            } else if tag == 7 {
                assert(seq![w[0], w[1], w[2], w[3], w[4], w[5], w[6], w[7], w[8]] =~= w@);
            } else if tag == 9 {
                assert(seq![w[0]] =~= w@);
            } else {
                assert(seq![w[0], w[1]] =~= w@);
            }
            assert(shape.view() == shape_at(c, tag, p)->Some_0);
        }
    }
    Ok(shape)
}

/// The parameters of a parametric primitive (kinds 1 to 10) are the words that
/// follow its bounding box, in file order, each in the field that the format names
/// for its place: Pyramid bottom x/y, top x/y, offset x/y, height; Box three lengths;
/// RectangularTorus inner radius, outer radius, height, angle; CircularTorus offset,
/// radius, angle; EllipticalDish and SphericalDish base radius, height; Snout bottom
/// radius, top radius, height, offset x/y, bottom shear x/y, top shear x/y; Cylinder
/// radius, height; Sphere diameter; Line the two end points.
pub proof fn law_shape_fields_in_file_order(s: GeometryShape, c: Seq<u8>, tag: u32, p: int)
    requires
        1 <= tag <= 10,
        shape_at(c, tag, p) is Some,
        s.view() == shape_at(c, tag, p)->Some_0,
    ensures
        match s {
            GeometryShape::Pyramid { bottom, top, offset, height } => tag == 1
                && bottom[0] == word(c, p) && bottom[1] == word(c, p + 4) && top[0] == word(c, p + 8) && top[1] == word(c, p + 12)
                && offset[0] == word(c, p + 16) && offset[1] == word(c, p + 20) && height == word(c, p + 24),
            GeometryShape::Box { lengths } => tag == 2
                && lengths[0] == word(c, p) && lengths[1] == word(c, p + 4) && lengths[2] == word(c, p + 8),
            GeometryShape::RectangularTorus { inner_radius, outer_radius, height, angle } => tag == 3
                && inner_radius == word(c, p) && outer_radius == word(c, p + 4) && height == word(c, p + 8) && angle == word(c, p + 12),
            GeometryShape::CircularTorus { offset, radius, angle } => tag == 4
                && offset == word(c, p) && radius == word(c, p + 4) && angle == word(c, p + 8),
            GeometryShape::EllipticalDish { base_radius, height } => tag == 5
                && base_radius == word(c, p) && height == word(c, p + 4),
            GeometryShape::SphericalDish { base_radius, height } => tag == 6
                && base_radius == word(c, p) && height == word(c, p + 4),
            GeometryShape::Snout { offset, bshear, tshear, radius_b, radius_t, height } => tag == 7
                && radius_b == word(c, p) && radius_t == word(c, p + 4) && height == word(c, p + 8)
                && offset[0] == word(c, p + 12) && offset[1] == word(c, p + 16) && bshear[0] == word(c, p + 20) && bshear[1] == word(c, p + 24)
                && tshear[0] == word(c, p + 28) && tshear[1] == word(c, p + 32),
            GeometryShape::Cylinder { radius, height } => tag == 8
                && radius == word(c, p) && height == word(c, p + 4),
            GeometryShape::Sphere { diameter } => tag == 9 && diameter == word(c, p),
            GeometryShape::Line { a, b } => tag == 10 && a == word(c, p) && b == word(c, p + 4),
            GeometryShape::FacetGroup { .. } => false,
        },
{
    let ws = words_at(c, p, param_count(tag));
    assert(forall|k: int| 0 <= k < param_count(tag) ==> #[trigger] ws[k] == word(c, p + 4 * k));
    assert(ws[0] == word(c, p));
    if param_count(tag) > 1 {
        assert(ws[1] == word(c, p + 4));
    }
    if param_count(tag) > 2 {
        assert(ws[2] == word(c, p + 8));
    }
    if param_count(tag) > 3 {
        assert(ws[3] == word(c, p + 12));
    }
    if param_count(tag) > 6 {
        assert(ws[4] == word(c, p + 16));
        assert(ws[5] == word(c, p + 20));
        assert(ws[6] == word(c, p + 24));
    }
    if param_count(tag) > 8 {
        assert(ws[7] == word(c, p + 28));
        assert(ws[8] == word(c, p + 32));
    }
}

} // verus!
